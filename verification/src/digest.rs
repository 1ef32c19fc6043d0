//! Content digests.

use sha2::Digest;
use vstd::prelude::*;
use crate::plugin::{Item, ItemView};
use crate::textmap::TextMap;

verus! {

/// Lower-case hexadecimal digits.
pub open spec fn lower_hex(c: char) -> bool {
    ('0' <= c && c <= '9') || ('a' <= c && c <= 'f')
}

/// The SHA-256 of some bytes in hexadecimal.
pub uninterp spec fn sha256_text(bytes: Seq<u8>) -> Seq<char>;

/// `sha2::Sha256::digest`, formatted in lower-case hexadecimal: a function of
/// the bytes, sixty-four digits long.
#[verifier::external_body]
pub(crate) fn sha256_hex(bytes: &[u8]) -> (r: String)
    ensures
        r@ == sha256_text(bytes@),
        r@.len() == 64,
        forall|i: int| 0 <= i < r@.len() ==> lower_hex(#[trigger] r@[i]),
{
    format!("{:x}", sha2::Sha256::digest(bytes))
}

/// The item of one whole file: identity `id`, the file at `path`, anchored by
/// the digest of its bytes.
pub open spec fn file_item_view(
    id: Seq<char>,
    kind: Seq<char>,
    path: Seq<char>,
    bytes: Seq<u8>,
    meta: Seq<char>,
) -> ItemView {
    ItemView {
        id,
        kind,
        version: None,
        content_hash: sha256_text(bytes),
        files: seq![path],
        file_hashes: Map::empty(),
        locator: None,
        meta,
    }
}

/// The item of one whole file.
pub fn file_item(id: &str, kind: &str, path: &str, bytes: &[u8], meta: String) -> (item: Item)
    ensures
        item.deep_view() == file_item_view(id@, kind@, path@, bytes@, meta@),
        item.content_hash@.len() == 64,
{
    let mut files: Vec<String> = Vec::new();
    files.push(path.to_string());
    let item = Item {
        id: id.to_string(),
        kind: kind.to_string(),
        version: None,
        content_hash: sha256_hex(bytes),
        files,
        file_hashes: TextMap::new(),
        locator: None,
        meta,
    };
    assert(item.files.deep_view() =~= seq![path@]);
    item
}

/// The item of a whole file is what it was made of: its identity, its kind, its one path,
/// the digest of its bytes and its description, and no version, no further digest and no
/// place within a bundle.
pub proof fn law_a_file_item_is_what_it_was_made_of(
    id: Seq<char>,
    kind: Seq<char>,
    path: Seq<char>,
    bytes: Seq<u8>,
    meta: Seq<char>,
)
    ensures
        ({
            let item = file_item_view(id, kind, path, bytes, meta);
            &&& item.id == id && item.kind == kind && item.meta == meta
            &&& item.files.len() == 1 && item.files[0] == path
            &&& item.content_hash == sha256_text(bytes)
            &&& item.version is None && item.locator is None
            &&& item.file_hashes.dom() == Set::<Seq<char>>::empty()
        }),
{
}

} // verus!
