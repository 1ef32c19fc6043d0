//! Source configuration documents.
//!
//! A configuration is RON text. The `ron` crate parses it into a tree of
//! values; this module decides how such a tree fills the fields of a
//! configuration. Fields may be given by name (struct or map notation) or by
//! position (a list), unknown names are refused by name, and the wording of a
//! refusal is that of `ron`.

use vstd::prelude::*;
use crate::text;
use crate::text::{decimal, has_prefix, same_text, skip_chars};

verus! {

/// What one value of a document reads as: the result of reading it as each of
/// the types that a configuration field can have.
pub struct Reading {
    /// As a text.
    pub text: Result<String, String>,
    /// As a list of texts.
    pub texts: Result<Vec<String>, String>,
    /// As an unsigned number.
    pub number: Result<u64, String>,
    /// As an optional text.
    pub optional: Result<Option<String>, String>,
    /// The value in RON's own canonical notation.
    pub source: String,
}

#[verifier::ext_equal]
pub struct ReadingView {
    pub text: Result<Seq<char>, Seq<char>>,
    pub texts: Result<Seq<Seq<char>>, Seq<char>>,
    pub number: Result<u64, Seq<char>>,
    pub optional: Result<Option<Seq<char>>, Seq<char>>,
    pub source: Seq<char>,
}

/// A result of texts by the characters that it holds.
pub open spec fn result_view(r: Result<String, String>) -> Result<Seq<char>, Seq<char>> {
    match r {
        Ok(s) => Ok(s@),
        Err(e) => Err(e@),
    }
}

impl DeepView for Reading {
    type V = ReadingView;

    open spec fn deep_view(&self) -> ReadingView {
        ReadingView {
            text: result_view(self.text),
            texts: match self.texts {
                Ok(v) => Ok(v.deep_view()),
                Err(e) => Err(e@),
            },
            number: match self.number {
                Ok(n) => Ok(n),
                Err(e) => Err(e@),
            },
            optional: match self.optional {
                Ok(o) => Ok(o.deep_view()),
                Err(e) => Err(e@),
            },
            source: self.source@,
        }
    }
}

/// A parsed document, by the shape of its outermost value.
pub enum Document {
    /// `()`.
    Unit(Reading),
    /// Named entries, in the order in which RON's value map keeps them.
    Table(Vec<(Reading, Reading)>),
    /// Positional entries.
    List(Vec<Reading>),
    /// Any other single value.
    Other(Reading),
}

#[verifier::ext_equal]
pub enum DocumentView {
    Unit(ReadingView),
    Table(Seq<(ReadingView, ReadingView)>),
    List(Seq<ReadingView>),
    Other(ReadingView),
}

impl DeepView for Document {
    type V = DocumentView;

    open spec fn deep_view(&self) -> DocumentView {
        match self {
            Document::Unit(r) => DocumentView::Unit(r.deep_view()),
            Document::Table(m) => DocumentView::Table(m.deep_view()),
            Document::List(m) => DocumentView::List(m.deep_view()),
            Document::Other(r) => DocumentView::Other(r.deep_view()),
        }
    }
}

/// The shape of a document's outermost value, and how many entries it has.
#[derive(Clone, Copy, PartialEq, Eq, Structural)]
pub enum Layout {
    Unit,
    Table(usize),
    List(usize),
    Other,
}

/// The shape of the value that the `ron` crate parses out of a text, or the message
/// of its parse error.
pub uninterp spec fn document_layout(text: Seq<char>) -> Result<Layout, Seq<char>>;

/// Parses RON text with `ron::from_str::<ron::Value>`. Claimed: the shape of the
/// value, and the message where there is none, depend on the text alone.
#[verifier::external_body]
fn read_layout(text: &str) -> (r: Result<Layout, String>)
    ensures
        (match r {
            Ok(l) => Ok(l),
            Err(e) => Err(e@),
        }) == document_layout(text@),
{
    match ron::from_str::<ron::Value>(text) {
        Ok(ron::Value::Map(m)) => Ok(Layout::Table(m.len())),
        Ok(ron::Value::Seq(s)) => Ok(Layout::List(s.len())),
        Ok(ron::Value::Unit) => Ok(Layout::Unit),
        Ok(_) => Ok(Layout::Other),
        Err(e) => Err(e.to_string()),
    }
}

/// What an entry of a document reads as when it is read as a text. The entry is a key
/// or a value where the entries have names, the value at the place where they have
/// none, and the whole where there are no entries.
pub uninterp spec fn document_text(text: Seq<char>, place: nat, key: bool) -> Result<
    Seq<char>,
    Seq<char>,
>;

/// What an entry of a document reads as when it is read as a list of texts.
pub uninterp spec fn document_texts(text: Seq<char>, place: nat, key: bool) -> Result<
    Seq<Seq<char>>,
    Seq<char>,
>;

/// What an entry of a document reads as when it is read as an unsigned number.
pub uninterp spec fn document_number(text: Seq<char>, place: nat, key: bool) -> Result<
    u64,
    Seq<char>,
>;

/// What an entry of a document reads as when it is read as an optional text.
pub uninterp spec fn document_optional(text: Seq<char>, place: nat, key: bool) -> Result<
    Option<Seq<char>>,
    Seq<char>,
>;

/// An entry of a document in RON's own canonical notation.
pub uninterp spec fn document_source(text: Seq<char>, place: nat, key: bool) -> Seq<char>;

/// All that an entry of a document reads as.
pub open spec fn document_reading(text: Seq<char>, place: nat, key: bool) -> ReadingView {
    ReadingView {
        text: document_text(text, place, key),
        texts: document_texts(text, place, key),
        number: document_number(text, place, key),
        optional: document_optional(text, place, key),
        source: document_source(text, place, key),
    }
}

/// Parses RON text with `ron::from_str::<ron::Value>`, reads the entry at a place with
/// `ron::Value::into_rust` as every type that a field can have, and writes it with
/// `ron::to_string`. Claimed: each of the five depends on the text and the place alone.
#[verifier::external_body]
fn reading_at(text: &str, place: usize, key: bool) -> (r: Reading)
    ensures
        r.deep_view().text == document_text(text@, place as nat, key),
        r.deep_view().texts == document_texts(text@, place as nat, key),
        r.deep_view().number == document_number(text@, place as nat, key),
        r.deep_view().optional == document_optional(text@, place as nat, key),
        r.deep_view().source == document_source(text@, place as nat, key),
{
    let entry = match ron::from_str(text).unwrap_or(ron::Value::Unit) {
        ron::Value::Map(m) => m.into_iter().nth(place).map(|e| if key { e.0 } else { e.1 }),
        ron::Value::Seq(s) => s.into_iter().nth(place),
        v => Some(v),
    };
    let v = entry.unwrap_or(ron::Value::Unit);
    let say = |e: ron::Error| e.to_string();
    Reading {
        text: v.clone().into_rust().map_err(say),
        texts: v.clone().into_rust().map_err(say),
        number: v.clone().into_rust().map_err(say),
        source: ron::to_string(&v).unwrap_or_default(),
        optional: v.into_rust().map_err(say),
    }
}

/// The document that a text holds, or the message of `ron` where it holds none.
pub open spec fn document_of(text: Seq<char>) -> Result<DocumentView, Seq<char>> {
    match document_layout(text) {
        Err(e) => Err(e),
        Ok(Layout::Unit) => Ok(DocumentView::Unit(document_reading(text, 0, false))),
        Ok(Layout::Table(n)) => Ok(
            DocumentView::Table(
                Seq::new(
                    n as nat,
                    |i: int|
                        (
                            document_reading(text, i as nat, true),
                            document_reading(text, i as nat, false),
                        ),
                ),
            ),
        ),
        Ok(Layout::List(n)) => Ok(
            DocumentView::List(
                Seq::new(n as nat, |i: int| document_reading(text, i as nat, false)),
            ),
        ),
        Ok(Layout::Other) => Ok(DocumentView::Other(document_reading(text, 0, false))),
    }
}

pub open spec fn document_result(r: Result<Document, String>) -> Result<DocumentView, Seq<char>> {
    match r {
        Ok(d) => Ok(d.deep_view()),
        Err(e) => Err(e@),
    }
}

/// The document that a text holds.
pub fn read_document(text: &str) -> (r: Result<Document, String>)
    ensures
        document_result(r) == document_of(text@),
{
    match read_layout(text) {
        Err(e) => Err(e),
        Ok(Layout::Unit) => Ok(Document::Unit(reading_at(text, 0, false))),
        Ok(Layout::Table(n)) => {
            let ghost all = document_of(text@)->Ok_0->Table_0;
            let mut entries: Vec<(Reading, Reading)> = Vec::new();
            assert(entries.deep_view() =~= all.take(0));
            let mut i: usize = 0;
            while i < n
                invariant
                    i <= n,
                    all == Seq::new(
                        n as nat,
                        |i: int|
                            (
                                document_reading(text@, i as nat, true),
                                document_reading(text@, i as nat, false),
                            ),
                    ),
                    entries.deep_view() == all.take(i as int),
                decreases n - i,
            {
                let ghost before = entries.deep_view();
                let entry = (reading_at(text, i, true), reading_at(text, i, false));
                assert(entry.deep_view() == all[i as int]);
                entries.push(entry);
                assert(entries.deep_view() =~= before.push(entry.deep_view()));
                i += 1;
                assert(entries.deep_view() =~= all.take(i as int));
            }
            assert(all.take(n as int) =~= all);
            Ok(Document::Table(entries))
        },
        Ok(Layout::List(n)) => {
            let ghost all = document_of(text@)->Ok_0->List_0;
            let mut entries: Vec<Reading> = Vec::new();
            assert(entries.deep_view() =~= all.take(0));
            let mut i: usize = 0;
            while i < n
                invariant
                    i <= n,
                    all == Seq::new(n as nat, |i: int| document_reading(text@, i as nat, false)),
                    entries.deep_view() == all.take(i as int),
                decreases n - i,
            {
                let ghost before = entries.deep_view();
                let entry = reading_at(text, i, false);
                assert(entry.deep_view() == all[i as int]);
                entries.push(entry);
                assert(entries.deep_view() =~= before.push(entry.deep_view()));
                i += 1;
                assert(entries.deep_view() =~= all.take(i as int));
            }
            assert(all.take(n as int) =~= all);
            Ok(Document::List(entries))
        },
        Ok(Layout::Other) => Ok(Document::Other(reading_at(text, 0, false))),
    }
}

/// A value's text, where the value is a plain string.
pub type StringEntry = (Option<String>, Option<String>);

/// The entries of the table that a RON text holds, each key and each value by its
/// text where it is a plain string; nothing where the text holds no table.
pub uninterp spec fn string_table(text: Seq<char>) -> Option<
    Seq<(Option<Seq<char>>, Option<Seq<char>>)>,
>;

/// Parses RON text with `ron::from_str::<ron::Value>` and takes the strings of its
/// map. Claimed: the entries depend on the text alone.
#[verifier::external_body]
pub(crate) fn read_strings(text: &str) -> (r: Option<Vec<StringEntry>>)
    ensures
        r.deep_view() == string_table(text@),
{
    let string = |v: ron::Value| match v {
        ron::Value::String(s) => Some(s),
        _ => None,
    };
    match ron::from_str::<ron::Value>(text) {
        Ok(ron::Value::Map(m)) => Some(m.into_iter().map(|(k, v)| (string(k), string(v))).collect()),
        _ => None,
    }
}

/// The message of `ron` for a field that is not among the expected ones.
pub uninterp spec fn unknown_field_text(field: Seq<char>, expected: Seq<Seq<char>>) -> Seq<char>;

/// A character that `ron` writes as it is in the name of a field, whatever stands
/// around it.
pub open spec fn key_char(c: char) -> bool {
    text::ascii_alphanumeric(c) || c == '_' || c == '.' || c == '+' || c == '-'
}

/// A key that `ron` writes as it is in its messages.
pub open spec fn plain_key(name: Seq<char>) -> bool {
    forall|i: int| 0 <= i < name.len() ==> key_char(#[trigger] name[i])
}

/// `ron::Error::unknown_field` as text. Claimed: the text depends on the name and on
/// the expected names alone, and holds the name where it is made of ASCII letters,
/// digits, `_`, `.`, `+` and `-`. What it holds of another name is not stated: `ron`
/// writes some of them with escapes.
#[verifier::external_body]
fn unknown_field(field: &str, expected: &'static [&'static str]) -> (r: String)
    ensures
        r@ == unknown_field_text(field@, expected.deep_view()),
        plain_key(field@) ==> text::holds(r@, field@),
{
    <ron::Error as serde::de::Error>::unknown_field(field, expected).to_string()
}

// The shape of a configuration.

/// What a field holds.
#[derive(Clone, Copy, PartialEq, Eq, Structural)]
pub enum Kind {
    Text,
    Texts,
    Number,
    /// `Some("..")`, `None` or `()`.
    Optional,
    /// As `Optional`, and a bare `".."` too.
    Lenient,
}

/// The fields of a configuration, in order. The first `required` of them have
/// no default.
pub struct Shape {
    pub title: &'static str,
    pub names: &'static [&'static str],
    pub kinds: Vec<Kind>,
    pub required: usize,
}

#[verifier::ext_equal]
pub struct ShapeView {
    pub title: Seq<char>,
    pub names: Seq<Seq<char>>,
    pub kinds: Seq<Kind>,
    pub required: nat,
}

impl DeepView for Shape {
    type V = ShapeView;

    open spec fn deep_view(&self) -> ShapeView {
        ShapeView {
            title: self.title@,
            names: self.names.deep_view(),
            kinds: self.kinds@,
            required: self.required as nat,
        }
    }
}

impl ShapeView {
    /// As many kinds as names, and no more required fields than there are.
    pub open spec fn well_formed(self) -> bool {
        self.names.len() == self.kinds.len() && self.required <= self.names.len()
    }
}

/// The content of one field.
pub enum Slot {
    Text(String),
    Texts(Vec<String>),
    Number(u64),
    Optional(Option<String>),
}

#[verifier::ext_equal]
pub enum SlotView {
    Text(Seq<char>),
    Texts(Seq<Seq<char>>),
    Number(u64),
    Optional(Option<Seq<char>>),
}

impl DeepView for Slot {
    type V = SlotView;

    open spec fn deep_view(&self) -> SlotView {
        match self {
            Slot::Text(s) => SlotView::Text(s@),
            Slot::Texts(v) => SlotView::Texts(v.deep_view()),
            Slot::Number(n) => SlotView::Number(*n),
            Slot::Optional(o) => SlotView::Optional(o.deep_view()),
        }
    }
}

/// The fields that a document gives, `None` where it leaves one out.
pub type Slots = Vec<Option<Slot>>;

pub type SlotsView = Seq<Option<SlotView>>;

// What a document means.

/// Whether a value is a character, bare or inside `Some`.
pub open spec fn is_character(r: ReadingView) -> bool {
    text::starts_with(r.source, "'"@) || text::starts_with(r.source, "Some('"@)
}

/// A value taken as an optional text, where a bare text stands for itself.
pub open spec fn lenient(r: ReadingView) -> Result<Option<Seq<char>>, Seq<char>> {
    if is_character(r) {
        Err("data did not match any variant of untagged enum Lenient"@)
    } else {
        match (r.optional, r.text) {
            (Ok(o), _) => Ok(o),
            (Err(_), Ok(s)) => Ok(Some(s)),
            (Err(_), Err(_)) => Err(
                "data did not match any variant of untagged enum Lenient"@,
            ),
        }
    }
}

/// A value taken as the content of a field of this kind.
pub open spec fn slot_of(kind: Kind, r: ReadingView) -> Result<SlotView, Seq<char>> {
    match kind {
        Kind::Text => match r.text {
            Ok(s) => Ok(SlotView::Text(s)),
            Err(e) => Err(e),
        },
        Kind::Texts => match r.texts {
            Ok(v) => Ok(SlotView::Texts(v)),
            Err(e) => Err(e),
        },
        Kind::Number => match r.number {
            Ok(n) => Ok(SlotView::Number(n)),
            Err(e) => Err(e),
        },
        Kind::Optional => match r.optional {
            Ok(o) => Ok(SlotView::Optional(o)),
            Err(e) => Err(e),
        },
        Kind::Lenient => match lenient(r) {
            Ok(o) => Ok(SlotView::Optional(o)),
            Err(e) => Err(e),
        },
    }
}

/// The first place of `name` among `names`, the number of names where it is
/// not there.
pub open spec fn place_of(name: Seq<char>, names: Seq<Seq<char>>) -> nat
    decreases names.len(),
{
    if names.len() == 0 || names[0] == name {
        0
    } else {
        1 + place_of(name, names.drop_first())
    }
}

/// What `ron` found in place of a text, out of its message
/// `Expected a string but found ..`.
pub open spec fn found_instead_of_text(message: Seq<char>) -> Seq<char> {
    text::without_chars(message, 28)
}

/// What `ron` found in place of a list, out of its message
/// `Expected a sequence but found ..`.
pub open spec fn found_instead_of_list(message: Seq<char>) -> Seq<char> {
    text::without_chars(message, 30)
}

/// The field that a key stands for: a name, or the field's number.
pub open spec fn field_of(key: ReadingView, names: Seq<Seq<char>>) -> Result<nat, Seq<char>> {
    match key.text {
        Ok(name) => {
            let i = place_of(name, names);
            if i < names.len() {
                Ok(i)
            } else {
                Err(unknown_field_text(name, names))
            }
        },
        Err(message) => {
            let found = found_instead_of_text(message);
            if text::starts_with(found, "the unsigned integer"@) && key.number is Ok {
                if key.number->Ok_0 < names.len() {
                    Ok(key.number->Ok_0 as nat)
                } else {
                    Err(
                        "Expected field index 0 <= i < "@ + text::decimal_text(names.len())
                            + " but found "@ + found,
                    )
                }
            } else {
                Err("Expected field identifier but found "@ + found)
            }
        },
    }
}

/// Named entries put into the fields one after the other.
pub open spec fn fill(
    shape: ShapeView,
    entries: Seq<(ReadingView, ReadingView)>,
    slots: SlotsView,
) -> Result<SlotsView, Seq<char>>
    decreases entries.len(),
{
    if entries.len() == 0 {
        Ok(slots)
    } else {
        match field_of(entries[0].0, shape.names) {
            Err(e) => Err(e),
            Ok(i) => if slots[i as int] is Some {
                Err("Unexpected duplicate field named `"@ + shape.names[i as int] + "`"@)
            } else {
                match slot_of(shape.kinds[i as int], entries[0].1) {
                    Err(e) => Err(e),
                    Ok(slot) => fill(
                        shape,
                        entries.drop_first(),
                        slots.update(i as int, Some(slot)),
                    ),
                }
            },
        }
    }
}

/// The first required field from `i` on that has nothing.
pub open spec fn missing_from(shape: ShapeView, slots: SlotsView, i: nat) -> Option<nat>
    decreases shape.required - i,
{
    if i >= shape.required {
        None
    } else if slots[i as int] is None {
        Some(i)
    } else {
        missing_from(shape, slots, i + 1)
    }
}

/// Positional entries put into the fields from `i` on.
pub open spec fn place(
    shape: ShapeView,
    entries: Seq<ReadingView>,
    i: nat,
    slots: SlotsView,
) -> Result<SlotsView, Seq<char>>
    decreases shape.names.len() - i,
{
    if i >= shape.names.len() {
        if entries.len() > shape.names.len() {
            Err(
                length_mismatch(
                    "a sequence of length "@ + text::decimal_text(shape.names.len()),
                    entries.len(),
                ),
            )
        } else {
            Ok(slots)
        }
    } else if i < entries.len() {
        match slot_of(shape.kinds[i as int], entries[i as int]) {
            Err(e) => Err(e),
            Ok(slot) => place(shape, entries, i + 1, slots.push(Some(slot))),
        }
    } else if i < shape.required {
        Err(length_mismatch(element_count_title(shape), i))
    } else {
        place(shape, entries, i + 1, slots.push(None))
    }
}

/// How a configuration is named where the number of its entries is at fault.
pub open spec fn element_count_title(shape: ShapeView) -> Seq<char> {
    "struct "@ + shape.title + " with "@ + text::decimal_text(shape.names.len()) + if shape.names.len()
        == 1 {
        " element"@
    } else {
        " elements"@
    }
}

/// The message of `ron` for a wrong number of elements.
pub open spec fn length_mismatch(expected: Seq<char>, found: nat) -> Seq<char> {
    "Expected "@ + expected + " but found "@ + if found == 0 {
        "zero elements"@
    } else if found == 1 {
        "one element"@
    } else {
        text::decimal_text(found) + " elements"@
    } + " instead"@
}

/// No field given.
pub open spec fn no_slots(shape: ShapeView) -> SlotsView {
    Seq::new(shape.names.len(), |i: int| None)
}

/// The fields that a document gives, or why it gives none.
pub open spec fn decoded(shape: ShapeView, document: DocumentView) -> Result<SlotsView, Seq<char>> {
    match document {
        DocumentView::Table(entries) => match fill(shape, entries, no_slots(shape)) {
            Err(e) => Err(e),
            Ok(slots) => match missing_from(shape, slots, 0) {
                Some(i) => Err("Unexpected missing field named `"@ + shape.names[i as int] + "`"@),
                None => Ok(slots),
            },
        },
        DocumentView::List(entries) => place(shape, entries, 0, Seq::empty()),
        DocumentView::Unit(r) => Err(not_a_struct(shape, r)),
        DocumentView::Other(r) => Err(not_a_struct(shape, r)),
    }
}

/// The message for a value that has no fields.
pub open spec fn not_a_struct(shape: ShapeView, r: ReadingView) -> Seq<char> {
    "Expected struct "@ + shape.title + " but found "@ + match r.texts {
        Err(message) => found_instead_of_list(message),
        Ok(_) => Seq::empty(),
    }
}

// The same, computed.

fn lenient_of(r: &Reading) -> (o: Result<Option<String>, String>)
    ensures
        (match o {
            Ok(x) => Ok(x.deep_view()),
            Err(e) => Err(e@),
        }) == lenient(r.deep_view()),
{
    if has_prefix(r.source.as_str(), "'") || has_prefix(r.source.as_str(), "Some('") {
        return Err("data did not match any variant of untagged enum Lenient".to_string());
    }
    match &r.optional {
        Ok(o) => Ok(o.clone()),
        Err(_) => match &r.text {
            Ok(s) => Ok(Some(s.clone())),
            Err(_) => Err("data did not match any variant of untagged enum Lenient".to_string()),
        },
    }
}

pub open spec fn slot_result(r: Result<Slot, String>) -> Result<SlotView, Seq<char>> {
    match r {
        Ok(s) => Ok(s.deep_view()),
        Err(e) => Err(e@),
    }
}

/// A copy of a list of texts.
pub fn copy_texts(v: &Vec<String>) -> (r: Vec<String>)
    ensures
        r.deep_view() == v.deep_view(),
{
    let mut r: Vec<String> = Vec::new();
    let mut i: usize = 0;
    while i < v.len()
        invariant
            i <= v.len(),
            r.len() == i,
            forall|j: int| 0 <= j < i ==> r@[j]@ == v@[j]@,
        decreases v.len() - i,
    {
        r.push(v[i].clone());
        i += 1;
    }
    assert(r.deep_view() =~= v.deep_view());
    r
}

fn read_slot(kind: Kind, r: &Reading) -> (s: Result<Slot, String>)
    ensures
        slot_result(s) == slot_of(kind, r.deep_view()),
{
    match kind {
        Kind::Text => match &r.text {
            Ok(s) => Ok(Slot::Text(s.clone())),
            Err(e) => Err(e.clone()),
        },
        Kind::Texts => match &r.texts {
            Ok(v) => Ok(Slot::Texts(copy_texts(v))),
            Err(e) => Err(e.clone()),
        },
        Kind::Number => match &r.number {
            Ok(n) => Ok(Slot::Number(*n)),
            Err(e) => Err(e.clone()),
        },
        Kind::Optional => match &r.optional {
            Ok(o) => Ok(Slot::Optional(o.clone())),
            Err(e) => Err(e.clone()),
        },
        Kind::Lenient => match lenient_of(r) {
            Ok(o) => Ok(Slot::Optional(o)),
            Err(e) => Err(e),
        },
    }
}

/// The key of the entry at `i` is `name`, which is no field's name, and nothing before
/// that entry is at fault.
pub open spec fn unknown_at(
    shape: ShapeView,
    entries: Seq<(ReadingView, ReadingView)>,
    i: int,
    name: Seq<char>,
) -> bool {
    &&& 0 <= i < entries.len()
    &&& entries[i].0.text == Ok::<Seq<char>, Seq<char>>(name)
    &&& !shape.names.contains(name)
    &&& fill(shape, entries.take(i), no_slots(shape)) is Ok
}

/// The first thing at fault in a document is the key `name`, which is no field's name.
pub open spec fn first_unknown(shape: ShapeView, document: DocumentView, name: Seq<char>) -> bool {
    document matches DocumentView::Table(entries) && exists|i: int| #[trigger]
        unknown_at(shape, entries, i, name)
}

/// What a result says where it is a refusal.
pub open spec fn refusal<T>(r: Result<T, String>) -> Option<Seq<char>> {
    match r {
        Ok(_) => None,
        Err(e) => Some(e@),
    }
}

/// Where the first thing at fault in a document is an unknown key, there is a refusal,
/// and it holds that key.
pub open spec fn tells_unknown(
    shape: ShapeView,
    document: DocumentView,
    said: Option<Seq<char>>,
) -> bool {
    forall|name: Seq<char>|
        plain_key(name) && #[trigger] first_unknown(shape, document, name) ==> said is Some
            && text::holds(said->Some_0, name)
}

/// The same of a text that holds a document.
pub open spec fn tells_unknown_in(
    shape: ShapeView,
    text: Seq<char>,
    said: Option<Seq<char>>,
) -> bool {
    document_of(text) matches Ok(document) ==> tells_unknown(shape, document, said)
}

proof fn lemma_place_of(name: Seq<char>, names: Seq<Seq<char>>, i: nat)
    requires
        i <= names.len(),
        forall|j: int| 0 <= j < i ==> names[j] != name,
        i < names.len() ==> names[i as int] == name,
    ensures
        place_of(name, names) == i,
    decreases names.len(),
{
    if i > 0 {
        lemma_place_of(name, names.drop_first(), (i - 1) as nat);
    }
}

#[verifier::loop_isolation(false)]
fn find_field(key: &Reading, shape: &Shape) -> (r: Result<usize, String>)
    ensures
        (match r {
            Ok(i) => Ok(i as nat),
            Err(e) => Err(e@),
        }) == field_of(key.deep_view(), shape.deep_view().names),
        r matches Ok(i) ==> i < shape.deep_view().names.len(),
        match (r, key.text) {
            (Ok(_), Ok(name)) => shape.deep_view().names.contains(name@),
            (Err(e), Ok(name)) => plain_key(name@) ==> text::holds(e@, name@),
            _ => true,
        },
{
    let names = shape.names;
    assert(names.deep_view() =~= shape.deep_view().names);
    match &key.text {
        Ok(name) => {
            let mut i: usize = 0;
            while i < names.len()
                invariant
                    i <= names.len(),
                    forall|j: int| 0 <= j < i ==> names.deep_view()[j] != name@,
                decreases names.len() - i,
            {
                if same_text(names[i], name.as_str()) {
                    proof {
                        lemma_place_of(name@, names.deep_view(), i as nat);
                        assert(names.deep_view()[i as int] == name@);
                    }
                    return Ok(i);
                }
                i += 1;
            }
            proof {
                lemma_place_of(name@, names.deep_view(), i as nat);
            }
            Err(unknown_field(name.as_str(), names))
        },
        Err(message) => {
            let found = skip_chars(message.as_str(), 28);
            if has_prefix(found.as_str(), "the unsigned integer") {
                if let Ok(n) = &key.number {
                    if *n < names.len() as u64 {
                        return Ok(*n as usize);
                    }
                    return Err(
                        "Expected field index 0 <= i < ".to_string().concat(
                            decimal(names.len() as u64).as_str(),
                        ).concat(" but found ").concat(found.as_str()),
                    );
                }
            }
            Err("Expected field identifier but found ".to_string().concat(found.as_str()))
        },
    }
}

fn length_message(expected: &str, found: usize) -> (r: String)
    ensures
        r@ == length_mismatch(expected@, found as nat),
{
    let count = if found == 0 {
        "zero elements".to_string()
    } else if found == 1 {
        "one element".to_string()
    } else {
        decimal(found as u64).concat(" elements")
    };
    "Expected ".to_string().concat(expected).concat(" but found ").concat(count.as_str()).concat(
        " instead",
    )
}

pub open spec fn slots_result(r: Result<Slots, String>) -> Result<SlotsView, Seq<char>> {
    match r {
        Ok(s) => Ok(s.deep_view()),
        Err(e) => Err(e@),
    }
}

fn fill_slots(shape: &Shape, entries: &Vec<(Reading, Reading)>) -> (r: Result<Slots, String>)
    requires
        shape.deep_view().well_formed(),
    ensures
        slots_result(r) == fill(
            shape.deep_view(),
            entries.deep_view(),
            no_slots(shape.deep_view()),
        ),
        r matches Ok(s) ==> s.len() == shape.names@.len(),
        tells_unknown(
            shape.deep_view(),
            DocumentView::Table(entries.deep_view()),
            refusal(r),
        ),
{
    let ghost sv = shape.deep_view();
    let ghost ev = entries.deep_view();
    let mut slots: Slots = Vec::new();
    let n = shape.names.len();
    while slots.len() < n
        invariant
            slots.len() <= n,
            n == shape.names@.len(),
            forall|j: int| 0 <= j < slots.len() ==> slots@[j] is None,
        decreases n - slots.len(),
    {
        slots.push(None);
    }
    assert(slots.deep_view() =~= no_slots(sv));
    let mut i: usize = 0;
    assert(ev.take(0) =~= Seq::empty());
    while i < entries.len()
        invariant
            i <= entries.len(),
            n == shape.names@.len(),
            slots.len() == n,
            sv == shape.deep_view(),
            sv.well_formed(),
            ev == entries.deep_view(),
            fill(sv, ev.take(i as int), no_slots(sv)) == Ok::<SlotsView, Seq<char>>(
                slots.deep_view(),
            ),
        decreases entries.len() - i,
    {
        let entry = &entries[i];
        assert(ev[i as int] == entry.deep_view());
        proof {
            lemma_fill_step(sv, ev, i as int, slots.deep_view());
        }
        match find_field(&entry.0, shape) {
            Err(e) => {
                return Err(e);
            },
            Ok(f) => {
                assert(slots.deep_view()[f as int] == slots@[f as int].deep_view());
                if slots[f].is_some() {
                    return Err(
                        "Unexpected duplicate field named `".to_string().concat(
                            shape.names[f],
                        ).concat("`"),
                    );
                }
                match read_slot(shape.kinds[f], &entry.1) {
                    Err(e) => {
                        return Err(e);
                    },
                    Ok(slot) => {
                        let ghost before = slots.deep_view();
                        slots.set(f, Some(slot));
                        assert(slots.deep_view() =~= before.update(
                            f as int,
                            Some(slot.deep_view()),
                        ));
                    },
                }
            },
        }
        i += 1;
    }
    assert(ev.take(i as int) =~= ev);
    proof {
        assert forall|name: Seq<char>| !#[trigger] first_unknown(
            sv,
            DocumentView::Table(ev),
            name,
        ) by {
            if first_unknown(sv, DocumentView::Table(ev), name) {
                let j = choose|j: int| #[trigger] unknown_at(sv, ev, j, name);
                lemma_unknown(sv, ev, no_slots(sv), j, name);
            }
        }
    }
    Ok(slots)
}

fn place_slots(shape: &Shape, entries: &Vec<Reading>) -> (r: Result<Slots, String>)
    requires
        shape.deep_view().well_formed(),
    ensures
        slots_result(r) == place(shape.deep_view(), entries.deep_view(), 0, Seq::empty()),
        r matches Ok(s) ==> s.len() == shape.names@.len(),
{
    let ghost sv = shape.deep_view();
    let ghost ev = entries.deep_view();
    let mut slots: Slots = Vec::new();
    let n = shape.names.len();
    let mut i: usize = 0;
    assert(slots.deep_view() =~= Seq::empty());
    while i < n
        invariant
            i <= n,
            n == shape.names@.len(),
            slots.len() == i,
            sv == shape.deep_view(),
            sv.well_formed(),
            ev == entries.deep_view(),
            place(sv, ev, 0, Seq::empty()) == place(sv, ev, i as nat, slots.deep_view()),
        decreases n - i,
    {
        let ghost before = slots.deep_view();
        if i < entries.len() {
            assert(ev[i as int] == entries@[i as int].deep_view());
            match read_slot(shape.kinds[i], &entries[i]) {
                Err(e) => {
                    return Err(e);
                },
                Ok(slot) => {
                    slots.push(Some(slot));
                    assert(slots.deep_view() =~= before.push(Some(slot.deep_view())));
                },
            }
        } else if i < shape.required {
            let count = decimal(n as u64);
            let unit = if n == 1 {
                " element"
            } else {
                " elements"
            };
            let title = "struct ".to_string().concat(shape.title).concat(" with ").concat(
                count.as_str(),
            ).concat(unit);
            return Err(length_message(title.as_str(), i));
        } else {
            slots.push(None);
            assert(slots.deep_view() =~= before.push(None));
        }
        i += 1;
    }
    if entries.len() > n {
        let expected = "a sequence of length ".to_string().concat(decimal(n as u64).as_str());
        return Err(length_message(expected.as_str(), entries.len()));
    }
    Ok(slots)
}

fn struct_message(shape: &Shape, r: &Reading) -> (s: String)
    ensures
        s@ == not_a_struct(shape.deep_view(), r.deep_view()),
{
    let found = match &r.texts {
        Err(message) => skip_chars(message.as_str(), 30),
        Ok(_) => String::new(),
    };
    "Expected struct ".to_string().concat(shape.title).concat(" but found ").concat(found.as_str())
}

/// The fields that a document gives. Every name must be known, given once and
/// hold a value of its kind, and no required field may be left out.
#[verifier::loop_isolation(false)]
pub fn decode(shape: &Shape, document: &Document) -> (r: Result<Slots, String>)
    requires
        shape.deep_view().well_formed(),
    ensures
        slots_result(r) == decoded(shape.deep_view(), document.deep_view()),
        r matches Ok(s) ==> s.len() == shape.names@.len(),
        tells_unknown(shape.deep_view(), document.deep_view(), refusal(r)),
{
    match document {
        Document::Table(entries) => match fill_slots(shape, entries) {
            Err(e) => Err(e),
            Ok(slots) => {
                let mut i: usize = 0;
                while i < shape.required
                    invariant
                        i <= shape.required,
                        slots.len() == shape.names@.len(),
                        shape.deep_view().well_formed(),
                        missing_from(shape.deep_view(), slots.deep_view(), 0) == missing_from(
                            shape.deep_view(),
                            slots.deep_view(),
                            i as nat,
                        ),
                    decreases shape.required - i,
                {
                    assert(slots.deep_view()[i as int] == slots@[i as int].deep_view());
                    if slots[i].is_none() {
                        return Err(
                            "Unexpected missing field named `".to_string().concat(
                                shape.names[i],
                            ).concat("`"),
                        );
                    }
                    i += 1;
                }
                Ok(slots)
            },
        },
        Document::List(entries) => place_slots(shape, entries),
        Document::Unit(r) => Err(struct_message(shape, r)),
        Document::Other(r) => Err(struct_message(shape, r)),
    }
}

/// The fields that a parsed configuration gives. One of another shape is reported
/// under `shaping`.
pub open spec fn shaped(
    parsed: DocumentView,
    shape: ShapeView,
    shaping: Seq<char>,
) -> Result<SlotsView, Seq<char>> {
    match decoded(shape, parsed) {
        Err(e) => Err(shaping + e),
        Ok(slots) => Ok(slots),
    }
}

/// The fields that a parsed configuration gives.
pub fn shape_config(parsed: &Document, shape: &Shape, shaping: &str) -> (r: Result<Slots, String>)
    requires
        shape.deep_view().well_formed(),
    ensures
        slots_result(r) == shaped(parsed.deep_view(), shape.deep_view(), shaping@),
        r matches Ok(s) ==> s.len() == shape.names@.len(),
        tells_unknown(shape.deep_view(), parsed.deep_view(), refusal(r)),
{
    match decode(shape, parsed) {
        Err(e) => {
            proof {
                assert forall|name: Seq<char>| #[trigger] text::holds(e@, name) implies text::holds(
                    shaping@ + e@,
                    name,
                ) by {
                    text::lemma_holds_behind(shaping@, e@, name);
                }
            }
            Err(shaping.to_string().concat(e.as_str()))
        },
        Ok(slots) => Ok(slots),
    }
}

// Taking fields out.

/// The text in a field, `default` where the field is left out.
pub open spec fn text_or(slots: SlotsView, i: int, default: Seq<char>) -> Seq<char> {
    match slots[i] {
        Some(SlotView::Text(s)) => s,
        _ => default,
    }
}

/// The text in a field, `default` where the field is left out.
pub fn take_text(slots: &Slots, i: usize, default: &str) -> (r: String)
    requires
        i < slots.len(),
    ensures
        r@ == text_or(slots.deep_view(), i as int, default@),
{
    assert(slots.deep_view()[i as int] == slots@[i as int].deep_view());
    match &slots[i] {
        Some(Slot::Text(s)) => s.clone(),
        _ => default.to_string(),
    }
}

/// The texts in a field, `default` where the field is left out.
pub open spec fn texts_or(slots: SlotsView, i: int, default: Seq<Seq<char>>) -> Seq<Seq<char>> {
    match slots[i] {
        Some(SlotView::Texts(v)) => v,
        _ => default,
    }
}

/// The texts in a field, `default` where the field is left out.
pub fn take_texts(slots: &Slots, i: usize, default: Vec<String>) -> (r: Vec<String>)
    requires
        i < slots.len(),
    ensures
        r.deep_view() == texts_or(slots.deep_view(), i as int, default.deep_view()),
{
    assert(slots.deep_view()[i as int] == slots@[i as int].deep_view());
    match &slots[i] {
        Some(Slot::Texts(v)) => copy_texts(v),
        _ => default,
    }
}

/// The number in a field, `default` where the field is left out.
pub open spec fn number_or(slots: SlotsView, i: int, default: u64) -> u64 {
    match slots[i] {
        Some(SlotView::Number(n)) => n,
        _ => default,
    }
}

/// The number in a field, `default` where the field is left out.
pub fn take_number(slots: &Slots, i: usize, default: u64) -> (r: u64)
    requires
        i < slots.len(),
    ensures
        r == number_or(slots.deep_view(), i as int, default),
{
    assert(slots.deep_view()[i as int] == slots@[i as int].deep_view());
    match &slots[i] {
        Some(Slot::Number(n)) => *n,
        _ => default,
    }
}

/// The optional text in a field, nothing where the field is left out.
pub open spec fn optional_of(slots: SlotsView, i: int) -> Option<Seq<char>> {
    match slots[i] {
        Some(SlotView::Optional(o)) => o,
        _ => None,
    }
}

/// The optional text in a field, nothing where the field is left out.
pub fn take_optional(slots: &Slots, i: usize) -> (r: Option<String>)
    requires
        i < slots.len(),
    ensures
        r.deep_view() == optional_of(slots.deep_view(), i as int),
{
    assert(slots.deep_view()[i as int] == slots@[i as int].deep_view());
    match &slots[i] {
        Some(Slot::Optional(o)) => o.clone(),
        _ => None,
    }
}

/// A list of one text.
pub fn one_text(s: &str) -> (v: Vec<String>)
    ensures
        v.deep_view() == seq![s@],
{
    let mut v: Vec<String> = Vec::new();
    v.push(s.to_string());
    assert(v.deep_view() =~= seq![s@]);
    v
}

/// A list of two texts.
pub fn two_texts(a: &str, b: &str) -> (v: Vec<String>)
    ensures
        v.deep_view() == seq![a@, b@],
{
    let mut v: Vec<String> = Vec::new();
    v.push(a.to_string());
    v.push(b.to_string());
    assert(v.deep_view() =~= seq![a@, b@]);
    v
}

// What holds of every configuration.

/// Whether an entry stands in a field: its key names the field, and the field holds
/// its value.
pub open spec fn stands_in(
    shape: ShapeView,
    entry: (ReadingView, ReadingView),
    slots: SlotsView,
    f: int,
) -> bool {
    &&& 0 <= f < shape.names.len()
    &&& field_of(entry.0, shape.names) == Ok::<nat, Seq<char>>(f as nat)
    &&& slots[f] is Some
    &&& slot_of(shape.kinds[f], entry.1) == Ok::<SlotView, Seq<char>>(slots[f]->Some_0)
}

/// Whether an entry stands in some field.
pub open spec fn kept(shape: ShapeView, entry: (ReadingView, ReadingView), slots: SlotsView) -> bool {
    exists|f: int| stands_in(shape, entry, slots, f)
}

proof fn lemma_fill(shape: ShapeView, entries: Seq<(ReadingView, ReadingView)>, slots: SlotsView)
    requires
        shape.well_formed(),
        slots.len() == shape.names.len(),
        fill(shape, entries, slots) is Ok,
    ensures
        ({
            let r = fill(shape, entries, slots)->Ok_0;
            &&& r.len() == slots.len()
            &&& forall|f: int|
                0 <= f < slots.len() && (#[trigger] slots[f]) is Some ==> r[f] == slots[f]
            &&& forall|i: int|
                0 <= i < entries.len() ==> kept(shape, #[trigger] entries[i], r)
            &&& forall|f: int|
                0 <= f < r.len() && (#[trigger] r[f]) is Some && slots[f] is None ==> exists|i: int|
                    0 <= i < entries.len() && #[trigger] stands_in(shape, entries[i], r, f)
        }),
    decreases entries.len(),
{
    if entries.len() > 0 {
        let k = field_of(entries[0].0, shape.names)->Ok_0 as int;
        let slot = slot_of(shape.kinds[k], entries[0].1)->Ok_0;
        let more = slots.update(k, Some(slot));
        let rest = entries.drop_first();
        lemma_fill(shape, rest, more);
        let r = fill(shape, entries, slots)->Ok_0;
        assert(more[k] is Some);
        assert(r[k] == Some(slot));
        assert(stands_in(shape, entries[0], r, k));
        assert forall|i: int| 0 <= i < entries.len() implies kept(shape, #[trigger] entries[i], r) by {
            if i > 0 {
                assert(rest[i - 1] == entries[i]);
                assert(kept(shape, rest[i - 1], r));
            }
        }
        assert forall|f: int| 0 <= f < slots.len() && (#[trigger] slots[f]) is Some implies r[f]
            == slots[f] by {
            assert(more[f] == slots[f]);
        }
        assert forall|f: int|
            0 <= f < r.len() && (#[trigger] r[f]) is Some && slots[f] is None implies exists|i: int|
            0 <= i < entries.len() && #[trigger] stands_in(shape, entries[i], r, f) by {
            if f == k {
                assert(stands_in(shape, entries[0], r, f));
            } else {
                assert(more[f] is None);
                let i = choose|i: int|
                    0 <= i < rest.len() && #[trigger] stands_in(shape, rest[i], r, f);
                assert(rest[i] == entries[i + 1]);
                assert(stands_in(shape, entries[i + 1], r, f));
            }
        }
    }
}

/// Nothing in a configuration is ignored: where one with named fields is taken, every
/// entry stands in a field, every field that holds something was given by an entry,
/// and no required field is left out.
pub proof fn law_nothing_is_ignored(shape: ShapeView, entries: Seq<(ReadingView, ReadingView)>)
    requires
        shape.well_formed(),
        decoded(shape, DocumentView::Table(entries)) is Ok,
    ensures
        ({
            let slots = decoded(shape, DocumentView::Table(entries))->Ok_0;
            &&& slots.len() == shape.names.len()
            &&& forall|i: int|
                0 <= i < entries.len() ==> kept(shape, #[trigger] entries[i], slots)
            &&& forall|f: int|
                0 <= f < slots.len() && (#[trigger] slots[f]) is Some ==> exists|i: int|
                    0 <= i < entries.len() && #[trigger] stands_in(shape, entries[i], slots, f)
            &&& forall|f: int| 0 <= f < shape.required ==> (#[trigger] slots[f]) is Some
        }),
{
    lemma_fill(shape, entries, no_slots(shape));
    lemma_missing(shape, decoded(shape, DocumentView::Table(entries))->Ok_0, 0);
}

proof fn lemma_missing(shape: ShapeView, slots: SlotsView, i: nat)
    requires
        missing_from(shape, slots, i) is None,
    ensures
        forall|f: int| i <= f < shape.required ==> (#[trigger] slots[f]) is Some,
    decreases shape.required - i,
{
    if i < shape.required {
        lemma_missing(shape, slots, i + 1);
    }
}

proof fn lemma_unknown(
    shape: ShapeView,
    entries: Seq<(ReadingView, ReadingView)>,
    slots: SlotsView,
    i: int,
    name: Seq<char>,
)
    requires
        0 <= i < entries.len(),
        entries[i].0.text == Ok::<Seq<char>, Seq<char>>(name),
        !shape.names.contains(name),
    ensures
        fill(shape, entries, slots) is Err,
        fill(shape, entries.take(i), slots) is Ok ==> fill(shape, entries, slots) == Err::<
            SlotsView,
            Seq<char>,
        >(unknown_field_text(name, shape.names)),
    decreases entries.len(),
{
    lemma_place_of(name, shape.names, shape.names.len());
    if i > 0 {
        let before = entries.take(i);
        assert(before[0] == entries[0]);
        assert(before.drop_first() =~= entries.drop_first().take(i - 1));
        if field_of(entries[0].0, shape.names) is Ok {
            let k = field_of(entries[0].0, shape.names)->Ok_0 as int;
            if slots[k] is None && slot_of(shape.kinds[k], entries[0].1) is Ok {
                let slot = slot_of(shape.kinds[k], entries[0].1)->Ok_0;
                lemma_unknown(shape, entries.drop_first(), slots.update(k, Some(slot)), i - 1, name);
            }
        }
    }
}

proof fn lemma_fill_append(
    shape: ShapeView,
    a: Seq<(ReadingView, ReadingView)>,
    b: Seq<(ReadingView, ReadingView)>,
    slots: SlotsView,
)
    ensures
        fill(shape, a + b, slots) == match fill(shape, a, slots) {
            Err(e) => Err(e),
            Ok(filled) => fill(shape, b, filled),
        },
    decreases a.len(),
{
    if a.len() == 0 {
        assert(a + b =~= b);
    } else {
        assert((a + b)[0] == a[0]);
        assert((a + b).drop_first() =~= a.drop_first() + b);
        if field_of(a[0].0, shape.names) is Ok {
            let k = field_of(a[0].0, shape.names)->Ok_0 as int;
            if slots[k] is None && slot_of(shape.kinds[k], a[0].1) is Ok {
                let slot = slot_of(shape.kinds[k], a[0].1)->Ok_0;
                lemma_fill_append(shape, a.drop_first(), b, slots.update(k, Some(slot)));
            }
        }
    }
}

/// Where the entries before `i` fill the fields, the entry at `i` decides: it fills a
/// field, or the whole is refused as that entry is, and no other entry can be the first
/// with an unknown key.
proof fn lemma_fill_step(
    shape: ShapeView,
    entries: Seq<(ReadingView, ReadingView)>,
    i: int,
    slots: SlotsView,
)
    requires
        0 <= i < entries.len(),
        fill(shape, entries.take(i), no_slots(shape)) == Ok::<SlotsView, Seq<char>>(slots),
    ensures
        fill(shape, entries.take(i + 1), no_slots(shape)) == fill(shape, seq![entries[i]], slots),
        fill(shape, seq![entries[i]], slots) is Err ==> fill(shape, entries, no_slots(shape))
            == fill(shape, seq![entries[i]], slots),
        fill(shape, seq![entries[i]], slots) is Err ==> forall|j: int, name: Seq<char>| #[trigger]
            unknown_at(shape, entries, j, name) ==> j == i,
        match field_of(entries[i].0, shape.names) {
            Err(e) => fill(shape, seq![entries[i]], slots) == Err::<SlotsView, Seq<char>>(e),
            Ok(k) => if slots[k as int] is Some {
                fill(shape, seq![entries[i]], slots) == Err::<SlotsView, Seq<char>>(
                    "Unexpected duplicate field named `"@ + shape.names[k as int] + "`"@,
                )
            } else {
                match slot_of(shape.kinds[k as int], entries[i].1) {
                    Err(e) => fill(shape, seq![entries[i]], slots) == Err::<SlotsView, Seq<char>>(
                        e,
                    ),
                    Ok(slot) => fill(shape, seq![entries[i]], slots) == Ok::<SlotsView, Seq<char>>(
                        slots.update(k as int, Some(slot)),
                    ),
                }
            },
        },
{
    let one = seq![entries[i]];
    assert(entries.take(i + 1) =~= entries.take(i) + one);
    lemma_fill_append(shape, entries.take(i), one, no_slots(shape));
    assert(one.drop_first() =~= Seq::empty());
    reveal_with_fuel(fill, 2);
    if fill(shape, one, slots) is Err {
        assert(entries =~= entries.take(i + 1) + entries.skip(i + 1));
        lemma_fill_append(shape, entries.take(i + 1), entries.skip(i + 1), no_slots(shape));
        assert forall|j: int, name: Seq<char>| #[trigger]
            unknown_at(shape, entries, j, name) implies j == i by {
            if j < i {
                lemma_unknown(shape, entries.take(i), no_slots(shape), j, name);
            } else if j > i {
                assert(entries.take(j) =~= entries.take(i + 1) + entries.subrange(i + 1, j));
                lemma_fill_append(
                    shape,
                    entries.take(i + 1),
                    entries.subrange(i + 1, j),
                    no_slots(shape),
                );
            }
        }
    }
}

/// A configuration with a key that is no field's name is refused; where nothing
/// before that key is at fault, it is refused with the message for that name. That
/// the refusal then holds the key is ensured by `decode` and by all that read a
/// configuration through it, as `tells_unknown`.
pub proof fn law_unknown_keys_fail_by_name(
    shape: ShapeView,
    entries: Seq<(ReadingView, ReadingView)>,
    i: int,
    name: Seq<char>,
)
    requires
        0 <= i < entries.len(),
        entries[i].0.text == Ok::<Seq<char>, Seq<char>>(name),
        !shape.names.contains(name),
    ensures
        decoded(shape, DocumentView::Table(entries)) is Err,
        fill(shape, entries.take(i), no_slots(shape)) is Ok ==> decoded(
            shape,
            DocumentView::Table(entries),
        ) == Err::<SlotsView, Seq<char>>(unknown_field_text(name, shape.names)),
{
    lemma_unknown(shape, entries, no_slots(shape), i, name);
}

/// What the entries of a configuration give under a name: the value of the first whose
/// key is that name.
pub open spec fn given(entries: Seq<(ReadingView, ReadingView)>, name: Seq<char>) -> Option<
    ReadingView,
>
    decreases entries.len(),
{
    if entries.len() == 0 {
        None
    } else if entries[0].0.text == Ok::<Seq<char>, Seq<char>>(name) {
        Some(entries[0].1)
    } else {
        given(entries.drop_first(), name)
    }
}

/// Every key is a text.
pub open spec fn named(entries: Seq<(ReadingView, ReadingView)>) -> bool {
    forall|i: int| 0 <= i < entries.len() ==> (#[trigger] entries[i]).0.text is Ok
}

proof fn lemma_given(entries: Seq<(ReadingView, ReadingView)>, name: Seq<char>)
    ensures
        given(entries, name) is Some ==> exists|i: int|
            0 <= i < entries.len() && (#[trigger] entries[i]).0.text == Ok::<Seq<char>, Seq<char>>(
                name,
            ) && given(entries, name) == Some(entries[i].1),
        given(entries, name) is None ==> forall|i: int|
            0 <= i < entries.len() ==> (#[trigger] entries[i]).0.text != Ok::<Seq<char>, Seq<char>>(
                name,
            ),
    decreases entries.len(),
{
    if entries.len() > 0 {
        let rest = entries.drop_first();
        lemma_given(rest, name);
        assert forall|i: int| 0 <= i < rest.len() implies #[trigger] rest[i] == entries[i + 1] by {}
        if entries[0].0.text == Ok::<Seq<char>, Seq<char>>(name) {
            assert(entries[0].1 == given(entries, name)->Some_0);
        } else if given(rest, name) is Some {
            let i = choose|i: int|
                0 <= i < rest.len() && (#[trigger] rest[i]).0.text == Ok::<Seq<char>, Seq<char>>(
                    name,
                ) && given(rest, name) == Some(rest[i].1);
            assert(entries[i + 1].0.text == Ok::<Seq<char>, Seq<char>>(name));
        } else {
            assert forall|i: int| 0 <= i < entries.len() implies (#[trigger] entries[i]).0.text
                != Ok::<Seq<char>, Seq<char>>(name) by {
                if i > 0 {
                    assert(rest[i - 1] == entries[i]);
                }
            }
        }
    }
}

proof fn lemma_place_holds(name: Seq<char>, names: Seq<Seq<char>>)
    ensures
        place_of(name, names) <= names.len(),
        place_of(name, names) < names.len() ==> names[place_of(name, names) as int] == name,
        place_of(name, names) == names.len() ==> !names.contains(name),
    decreases names.len(),
{
    if names.len() > 0 && names[0] != name {
        let rest = names.drop_first();
        lemma_place_holds(name, rest);
        if names.contains(name) {
            let i = choose|i: int| 0 <= i < names.len() && names[i] == name;
            assert(rest[i - 1] == name);
        }
    }
}

/// A field of a configuration holds what the entry of its name gives, taken as the kind
/// of the field, and is left out exactly where no entry has its name.
pub proof fn law_a_field_holds_what_its_name_gives(
    shape: ShapeView,
    entries: Seq<(ReadingView, ReadingView)>,
    f: int,
)
    requires
        shape.well_formed(),
        shape.names.no_duplicates(),
        named(entries),
        0 <= f < shape.names.len(),
        decoded(shape, DocumentView::Table(entries)) is Ok,
    ensures
        ({
            let slots = decoded(shape, DocumentView::Table(entries))->Ok_0;
            match given(entries, shape.names[f]) {
                None => slots[f] is None && f >= shape.required,
                Some(r) => slots[f] is Some && slot_of(shape.kinds[f], r) == Ok::<
                    SlotView,
                    Seq<char>,
                >(slots[f]->Some_0),
            }
        }),
{
    let slots = decoded(shape, DocumentView::Table(entries))->Ok_0;
    let name = shape.names[f];
    law_nothing_is_ignored(shape, entries);
    lemma_given(entries, name);
    lemma_place_holds(name, shape.names);
    let p = place_of(name, shape.names);
    assert(shape.names.contains(name));
    assert(p == f) by {
        if p != f {
            assert(shape.names[p as int] == shape.names[f]);
        }
    }
    if given(entries, name) is Some {
        let i = choose|i: int|
            0 <= i < entries.len() && (#[trigger] entries[i]).0.text == Ok::<Seq<char>, Seq<char>>(
                name,
            ) && given(entries, name) == Some(entries[i].1);
        assert(kept(shape, entries[i], slots));
        let g = choose|g: int| stands_in(shape, entries[i], slots, g);
        assert(stands_in(shape, entries[i], slots, g));
        assert(g == f);
    } else if slots[f] is Some {
        let i = choose|i: int|
            0 <= i < entries.len() && #[trigger] stands_in(shape, entries[i], slots, f);
        assert(entries[i].0.text is Ok);
        lemma_place_holds(entries[i].0.text->Ok_0, shape.names);
    }
}

proof fn lemma_fill_taken(
    shape: ShapeView,
    entries: Seq<(ReadingView, ReadingView)>,
    slots: SlotsView,
)
    requires
        shape.well_formed(),
        slots.len() == shape.names.len(),
        named(entries),
        forall|i: int|
            0 <= i < entries.len() ==> shape.names.contains(
                (#[trigger] entries[i]).0.text->Ok_0,
            ) && slots[place_of(entries[i].0.text->Ok_0, shape.names) as int] is None && slot_of(
                shape.kinds[place_of(entries[i].0.text->Ok_0, shape.names) as int],
                entries[i].1,
            ) is Ok,
        forall|i: int, j: int|
            0 <= i < j < entries.len() ==> (#[trigger] entries[i]).0.text->Ok_0 != (
            #[trigger] entries[j]).0.text->Ok_0,
    ensures
        fill(shape, entries, slots) is Ok,
    decreases entries.len(),
{
    if entries.len() > 0 {
        let name = entries[0].0.text->Ok_0;
        lemma_place_holds(name, shape.names);
        let k = place_of(name, shape.names) as int;
        let slot = slot_of(shape.kinds[k], entries[0].1)->Ok_0;
        let rest = entries.drop_first();
        let more = slots.update(k, Some(slot));
        assert forall|i: int| 0 <= i < rest.len() implies #[trigger] rest[i] == entries[i + 1] by {}
        assert forall|i: int| 0 <= i < rest.len() implies shape.names.contains(
            (#[trigger] rest[i]).0.text->Ok_0,
        ) && more[place_of(rest[i].0.text->Ok_0, shape.names) as int] is None && slot_of(
            shape.kinds[place_of(rest[i].0.text->Ok_0, shape.names) as int],
            rest[i].1,
        ) is Ok by {
            let other = rest[i].0.text->Ok_0;
            assert(rest[i] == entries[i + 1]);
            assert(entries[0].0.text->Ok_0 != entries[i + 1].0.text->Ok_0);
            lemma_place_holds(other, shape.names);
        }
        lemma_fill_taken(shape, rest, more);
    }
}

/// A configuration whose keys are texts is taken exactly where every key is the name of a
/// field, no key comes twice, every value can be taken as the kind of its field, and no
/// required field is left out.
pub proof fn law_which_configurations_are_taken(
    shape: ShapeView,
    entries: Seq<(ReadingView, ReadingView)>,
)
    requires
        shape.well_formed(),
        shape.names.no_duplicates(),
        named(entries),
    ensures
        decoded(shape, DocumentView::Table(entries)) is Ok <==> {
            &&& forall|i: int|
                0 <= i < entries.len() ==> exists|f: int|
                    0 <= f < shape.names.len() && (#[trigger] entries[i]).0.text == Ok::<
                        Seq<char>,
                        Seq<char>,
                    >(#[trigger] shape.names[f]) && slot_of(shape.kinds[f], entries[i].1) is Ok
            &&& forall|i: int, j: int|
                0 <= i < j < entries.len() ==> (#[trigger] entries[i]).0.text != (
                #[trigger] entries[j]).0.text
            &&& forall|f: int|
                0 <= f < shape.required ==> given(entries, #[trigger] shape.names[f]) is Some
        },
{
    let slots = decoded(shape, DocumentView::Table(entries))->Ok_0;
    let known = forall|i: int|
        0 <= i < entries.len() ==> exists|f: int|
            0 <= f < shape.names.len() && (#[trigger] entries[i]).0.text == Ok::<
                Seq<char>,
                Seq<char>,
            >(#[trigger] shape.names[f]) && slot_of(shape.kinds[f], entries[i].1) is Ok;
    let apart = forall|i: int, j: int|
        0 <= i < j < entries.len() ==> (#[trigger] entries[i]).0.text != (
        #[trigger] entries[j]).0.text;
    let enough = forall|f: int|
        0 <= f < shape.required ==> given(entries, #[trigger] shape.names[f]) is Some;
    if decoded(shape, DocumentView::Table(entries)) is Ok {
        law_nothing_is_ignored(shape, entries);
        assert forall|i: int| 0 <= i < entries.len() implies exists|f: int|
            0 <= f < shape.names.len() && (#[trigger] entries[i]).0.text == Ok::<
                Seq<char>,
                Seq<char>,
            >(#[trigger] shape.names[f]) && slot_of(shape.kinds[f], entries[i].1) is Ok by {
            assert(kept(shape, entries[i], slots));
            let f = choose|f: int| stands_in(shape, entries[i], slots, f);
            assert(stands_in(shape, entries[i], slots, f));
            assert(entries[i].0.text is Ok);
            lemma_place_holds(entries[i].0.text->Ok_0, shape.names);
            assert(shape.names[f] == entries[i].0.text->Ok_0);
        }
        assert forall|f: int| 0 <= f < shape.required implies given(
            entries,
            #[trigger] shape.names[f],
        ) is Some by {
            law_a_field_holds_what_its_name_gives(shape, entries, f);
        }
        lemma_fill_apart(shape, entries, no_slots(shape));
    }
    if known && apart && enough {
        assert forall|i: int| 0 <= i < entries.len() implies shape.names.contains(
            (#[trigger] entries[i]).0.text->Ok_0,
        ) && no_slots(shape)[place_of(entries[i].0.text->Ok_0, shape.names) as int] is None
            && slot_of(
            shape.kinds[place_of(entries[i].0.text->Ok_0, shape.names) as int],
            entries[i].1,
        ) is Ok by {
            let f = choose|f: int|
                0 <= f < shape.names.len() && entries[i].0.text == Ok::<Seq<char>, Seq<char>>(
                    #[trigger] shape.names[f],
                ) && slot_of(shape.kinds[f], entries[i].1) is Ok;
            let name = entries[i].0.text->Ok_0;
            assert(shape.names[f] == name);
            lemma_place_holds(name, shape.names);
            let p = place_of(name, shape.names) as int;
            assert(p == f) by {
                if p != f {
                    assert(shape.names[p] == shape.names[f]);
                }
            }
        }
        assert forall|i: int, j: int| 0 <= i < j < entries.len() implies (
        #[trigger] entries[i]).0.text->Ok_0 != (#[trigger] entries[j]).0.text->Ok_0 by {
            assert(entries[i].0.text != entries[j].0.text);
        }
        lemma_fill_taken(shape, entries, no_slots(shape));
        let filled = fill(shape, entries, no_slots(shape))->Ok_0;
        lemma_fill(shape, entries, no_slots(shape));
        assert forall|f: int| 0 <= f < shape.required implies (#[trigger] filled[f]) is Some by {
            let name = shape.names[f];
            lemma_given(entries, name);
            let i = choose|i: int|
                0 <= i < entries.len() && (#[trigger] entries[i]).0.text == Ok::<
                    Seq<char>,
                    Seq<char>,
                >(name) && given(entries, name) == Some(entries[i].1);
            assert(kept(shape, entries[i], filled));
            let g = choose|g: int| stands_in(shape, entries[i], filled, g);
            assert(stands_in(shape, entries[i], filled, g));
            lemma_place_holds(name, shape.names);
            assert(shape.names[g] == shape.names[f]);
        }
        lemma_none_missing(shape, filled, 0);
    }
}

proof fn lemma_none_missing(shape: ShapeView, slots: SlotsView, i: nat)
    requires
        forall|f: int| 0 <= f < shape.required ==> (#[trigger] slots[f]) is Some,
    ensures
        missing_from(shape, slots, i) is None,
    decreases shape.required - i,
{
    if i < shape.required {
        lemma_none_missing(shape, slots, i + 1);
    }
}

proof fn lemma_fill_apart(
    shape: ShapeView,
    entries: Seq<(ReadingView, ReadingView)>,
    slots: SlotsView,
)
    requires
        shape.well_formed(),
        slots.len() == shape.names.len(),
        named(entries),
        fill(shape, entries, slots) is Ok,
    ensures
        forall|i: int, j: int|
            0 <= i < j < entries.len() ==> (#[trigger] entries[i]).0.text != (
            #[trigger] entries[j]).0.text,
        forall|i: int|
            0 <= i < entries.len() ==> place_of(
                (#[trigger] entries[i]).0.text->Ok_0,
                shape.names,
            ) < slots.len() && slots[place_of(
                entries[i].0.text->Ok_0,
                shape.names,
            ) as int] is None,
    decreases entries.len(),
{
    if entries.len() > 0 {
        let name = entries[0].0.text->Ok_0;
        lemma_place_holds(name, shape.names);
        let k = place_of(name, shape.names) as int;
        let slot = slot_of(shape.kinds[k], entries[0].1)->Ok_0;
        let rest = entries.drop_first();
        let more = slots.update(k, Some(slot));
        assert forall|i: int| 0 <= i < rest.len() implies #[trigger] rest[i] == entries[i + 1] by {}
        lemma_fill_apart(shape, rest, more);
        assert forall|i: int| 0 < i < entries.len() implies (#[trigger] entries[i]).0.text
            != entries[0].0.text && place_of(entries[i].0.text->Ok_0, shape.names) < slots.len()
            && slots[place_of(entries[i].0.text->Ok_0, shape.names) as int] is None by {
            assert(rest[i - 1] == entries[i]);
            assert(rest[i - 1].0.text is Ok);
            let other = place_of(rest[i - 1].0.text->Ok_0, shape.names);
            assert(other < more.len() && more[other as int] is None);
            assert(other != k);
        }
        assert forall|i: int, j: int| 0 <= i < j < entries.len() implies (
        #[trigger] entries[i]).0.text != (#[trigger] entries[j]).0.text by {
            if i > 0 {
                assert(rest[i - 1] == entries[i] && rest[j - 1] == entries[j]);
            }
        }
    }
}

proof fn lemma_placed(shape: ShapeView, entries: Seq<ReadingView>, i: nat, slots: SlotsView)
    requires
        shape.well_formed(),
        i <= shape.names.len(),
        slots.len() == i,
        place(shape, entries, i, slots) is Ok,
    ensures
        ({
            let r = place(shape, entries, i, slots)->Ok_0;
            &&& r.len() == shape.names.len()
            &&& entries.len() <= shape.names.len()
            &&& forall|f: int| 0 <= f < i ==> #[trigger] r[f] == slots[f]
            &&& forall|f: int|
                i <= f < shape.names.len() ==> (if f < entries.len() {
                    (#[trigger] r[f]) is Some && slot_of(shape.kinds[f], entries[f]) == Ok::<
                        SlotView,
                        Seq<char>,
                    >(r[f]->Some_0)
                } else {
                    r[f] is None && f >= shape.required
                })
        }),
    decreases shape.names.len() - i,
{
    if i < shape.names.len() {
        let more = if i < entries.len() {
            slots.push(Some(slot_of(shape.kinds[i as int], entries[i as int])->Ok_0))
        } else {
            slots.push(None)
        };
        lemma_placed(shape, entries, i + 1, more);
        let r = place(shape, entries, i, slots)->Ok_0;
        assert(r[i as int] == more[i as int]);
        assert forall|f: int| 0 <= f < i implies #[trigger] r[f] == slots[f] by {
            assert(r[f] == more[f]);
        }
    }
}

/// Entries without names fill the fields in their order, each taken as the kind of its
/// field; only fields that are not required may be left out, at the end, and there are no
/// more entries than fields.
pub proof fn law_entries_without_names_go_by_place(
    shape: ShapeView,
    entries: Seq<ReadingView>,
    f: int,
)
    requires
        shape.well_formed(),
        0 <= f < shape.names.len(),
        decoded(shape, DocumentView::List(entries)) is Ok,
    ensures
        ({
            let slots = decoded(shape, DocumentView::List(entries))->Ok_0;
            &&& slots.len() == shape.names.len()
            &&& shape.required <= entries.len() <= shape.names.len()
            &&& f >= entries.len() ==> slots[f] is None
            &&& f < entries.len() ==> slots[f] is Some && slot_of(
                shape.kinds[f],
                entries[f],
            ) == Ok::<SlotView, Seq<char>>(slots[f]->Some_0)
        }),
{
    lemma_placed(shape, entries, 0, Seq::empty());
    if shape.required > entries.len() {
        let r = place(shape, entries, 0, Seq::empty())->Ok_0;
        assert(r[entries.len() as int] is None);
    }
}

/// A value is taken as a kind exactly where it reads as that kind, and then as what it
/// reads as; an optional text may also be given bare, and a character is none.
pub proof fn law_a_value_is_taken_as_its_kind(r: ReadingView)
    ensures
        slot_of(Kind::Text, r) == match r.text {
            Ok(s) => Ok::<SlotView, Seq<char>>(SlotView::Text(s)),
            Err(e) => Err(e),
        },
        slot_of(Kind::Texts, r) == match r.texts {
            Ok(s) => Ok::<SlotView, Seq<char>>(SlotView::Texts(s)),
            Err(e) => Err(e),
        },
        slot_of(Kind::Number, r) == match r.number {
            Ok(n) => Ok::<SlotView, Seq<char>>(SlotView::Number(n)),
            Err(e) => Err(e),
        },
        slot_of(Kind::Optional, r) == match r.optional {
            Ok(o) => Ok::<SlotView, Seq<char>>(SlotView::Optional(o)),
            Err(e) => Err(e),
        },
        text::starts_with(r.source, "'"@) || text::starts_with(r.source, "Some('"@) ==> slot_of(
            Kind::Lenient,
            r,
        ) is Err,
        !text::starts_with(r.source, "'"@) && !text::starts_with(r.source, "Some('"@) ==> (
        slot_of(Kind::Lenient, r) is Err <==> r.optional is Err && r.text is Err) && (
        r.optional matches Ok(o) ==> slot_of(Kind::Lenient, r) == Ok::<SlotView, Seq<char>>(
            SlotView::Optional(o),
        )) && (r.optional is Err && r.text is Ok ==> slot_of(Kind::Lenient, r) == Ok::<
            SlotView,
            Seq<char>,
        >(SlotView::Optional(Some(r.text->Ok_0)))),
{
}

/// A document holds every entry that its text has, each key and each value as it reads at
/// its own place, and none else; a text that is no document is refused as `ron` does.
pub proof fn law_a_document_holds_every_entry(text: Seq<char>, n: usize, i: int)
    ensures
        document_of(text) is Err <==> document_layout(text) is Err,
        document_layout(text) matches Err(e) ==> document_of(text) == Err::<
            DocumentView,
            Seq<char>,
        >(e),
        document_layout(text) == Ok::<Layout, Seq<char>>(Layout::Table(n)) ==> (document_of(
            text,
        ) matches Ok(DocumentView::Table(entries)) && entries.len() == n && (0 <= i < n ==> {
            &&& entries[i].0.text == document_text(text, i as nat, true)
            &&& entries[i].0.number == document_number(text, i as nat, true)
            &&& entries[i].1.text == document_text(text, i as nat, false)
            &&& entries[i].1.texts == document_texts(text, i as nat, false)
            &&& entries[i].1.number == document_number(text, i as nat, false)
            &&& entries[i].1.optional == document_optional(text, i as nat, false)
            &&& entries[i].1.source == document_source(text, i as nat, false)
        })),
        document_layout(text) == Ok::<Layout, Seq<char>>(Layout::List(n)) ==> (document_of(
            text,
        ) matches Ok(DocumentView::List(entries)) && entries.len() == n && (0 <= i < n ==> {
            &&& entries[i].text == document_text(text, i as nat, false)
            &&& entries[i].texts == document_texts(text, i as nat, false)
            &&& entries[i].number == document_number(text, i as nat, false)
            &&& entries[i].optional == document_optional(text, i as nat, false)
        })),
        document_layout(text) == Ok::<Layout, Seq<char>>(Layout::Unit) ==> document_of(
            text,
        )->Ok_0 is Unit,
        document_layout(text) == Ok::<Layout, Seq<char>>(Layout::Other) ==> document_of(
            text,
        )->Ok_0 is Other,
{
}

/// A document without fields is no configuration, and one of too many or too few entries
/// is none either.
pub proof fn law_what_is_no_configuration(
    shape: ShapeView,
    r: ReadingView,
    list: Seq<ReadingView>,
)
    requires
        shape.well_formed(),
    ensures
        decoded(shape, DocumentView::Unit(r)) is Err,
        decoded(shape, DocumentView::Other(r)) is Err,
        list.len() > shape.names.len() ==> decoded(shape, DocumentView::List(list)) is Err,
        list.len() < shape.required ==> decoded(shape, DocumentView::List(list)) is Err,
{
    if decoded(shape, DocumentView::List(list)) is Ok {
        if shape.names.len() > 0 {
            law_entries_without_names_go_by_place(shape, list, 0);
        } else {
            lemma_placed(shape, list, 0, Seq::empty());
        }
    }
}

/// A key that is a number stands for the field at that place, where there is one.
pub proof fn law_a_field_may_be_given_by_its_place(
    key: ReadingView,
    names: Seq<Seq<char>>,
    found: Seq<char>,
    n: u64,
)
    requires
        key.text == Err::<Seq<char>, Seq<char>>("Expected a string but found "@ + found),
        key.number == Ok::<u64, Seq<char>>(n),
        text::starts_with(found, "the unsigned integer"@),
    ensures
        n < names.len() ==> field_of(key, names) == Ok::<nat, Seq<char>>(n as nat),
        n >= names.len() ==> field_of(key, names) is Err,
{
    reveal_strlit("Expected a string but found ");
    let message = "Expected a string but found "@ + found;
    assert(text::without_chars(message, 28) =~= found);
}

/// A refusal names the field that is missing or given twice.
pub proof fn law_missing_and_repeated_fields_are_named(
    shape: ShapeView,
    entries: Seq<(ReadingView, ReadingView)>,
    slots: SlotsView,
    f: int,
)
    requires
        shape.well_formed(),
        0 <= f < shape.names.len(),
    ensures
        fill(shape, entries, no_slots(shape)) == Ok::<SlotsView, Seq<char>>(slots) && f
            < shape.required && slots[f] is None && (forall|g: int|
            0 <= g < f ==> (#[trigger] slots[g]) is Some) ==> decoded(
            shape,
            DocumentView::Table(entries),
        ) == Err::<SlotsView, Seq<char>>(
            "Unexpected missing field named `"@ + shape.names[f] + "`"@,
        ),
        slots.len() == shape.names.len() && slots[f] is Some && entries.len() > 0 && field_of(
            entries[0].0,
            shape.names,
        ) == Ok::<nat, Seq<char>>(f as nat) ==> fill(shape, entries, slots) == Err::<
            SlotsView,
            Seq<char>,
        >("Unexpected duplicate field named `"@ + shape.names[f] + "`"@),
{
    if f < shape.required && slots[f] is None && (forall|g: int|
        0 <= g < f ==> (#[trigger] slots[g]) is Some) {
        lemma_missing_at(shape, slots, 0, f as nat);
    }
}

proof fn lemma_missing_at(shape: ShapeView, slots: SlotsView, i: nat, f: nat)
    requires
        i <= f < shape.required,
        slots[f as int] is None,
        forall|g: int| 0 <= g < f ==> (#[trigger] slots[g]) is Some,
    ensures
        missing_from(shape, slots, i) == Some(f),
    decreases f - i,
{
    if i < f {
        assert(slots[i as int] is Some);
        lemma_missing_at(shape, slots, i + 1, f);
    }
}

} // verus!
