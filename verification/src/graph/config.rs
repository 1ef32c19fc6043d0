//! The configuration of the Graph sources: the Azure app, the tenant, and the
//! owner's own addresses. Every field has a default.

use vstd::prelude::*;
use crate::document;
use crate::document::{
    read_document, shape_config, take_optional, take_text, take_texts, Document, DocumentView, Kind,
    Shape, ShapeView,
};
use crate::text;
use crate::text::eq_ignore_case;

verus! {

/// The shared app registration: multi-tenant, and a public client, so that the
/// users of any organization sign in with it.
pub const DEFAULT_CLIENT_ID: &'static str = "53ddb21b-849f-45a3-8168-8a0e555f386f";

/// Any organizational directory.
pub const DEFAULT_TENANT: &'static str = "organizations";

#[derive(Debug, PartialEq, Eq)]
pub struct Config {
    pub client_id: String,
    pub tenant: String,
    /// The owner's own addresses.
    pub owner_addresses: Vec<String>,
    /// An OData filter that narrows the mail listing, and nothing else.
    pub mail_filter: Option<String>,
}

#[verifier::ext_equal]
pub struct ConfigView {
    pub client_id: Seq<char>,
    pub tenant: Seq<char>,
    pub owner_addresses: Seq<Seq<char>>,
    pub mail_filter: Option<Seq<char>>,
}

impl DeepView for Config {
    type V = ConfigView;

    open spec fn deep_view(&self) -> ConfigView {
        ConfigView {
            client_id: self.client_id@,
            tenant: self.tenant@,
            owner_addresses: self.owner_addresses.deep_view(),
            mail_filter: self.mail_filter.deep_view(),
        }
    }
}

/// The fields of the configuration.
pub open spec fn config_shape() -> ShapeView {
    ShapeView {
        title: "Config"@,
        names: seq!["client_id"@, "tenant"@, "owner_addresses"@, "mail_filter"@],
        kinds: seq![Kind::Text, Kind::Text, Kind::Texts, Kind::Lenient],
        required: 0,
    }
}

/// A configuration in which nothing is said.
pub open spec fn default_config() -> ConfigView {
    ConfigView {
        client_id: DEFAULT_CLIENT_ID@,
        tenant: DEFAULT_TENANT@,
        owner_addresses: Seq::empty(),
        mail_filter: None,
    }
}

/// What a parsed configuration means. `()` says nothing, which is a
/// configuration too.
pub open spec fn config_in(parsed: DocumentView) -> Result<ConfigView, Seq<char>> {
    if parsed is Unit {
        Ok(default_config())
    } else {
        match document::shaped(
            parsed,
            config_shape(),
            "source config shape (all fields optional: client_id, tenant, owner_addresses, mail_filter): "@,
        ) {
            Err(e) => Err(e),
            Ok(slots) => Ok(
                ConfigView {
                    client_id: document::text_or(slots, 0, DEFAULT_CLIENT_ID@),
                    tenant: document::text_or(slots, 1, DEFAULT_TENANT@),
                    owner_addresses: document::texts_or(slots, 2, Seq::empty()),
                    mail_filter: document::optional_of(slots, 3),
                },
            ),
        }
    }
}

/// What a configuration text means.
pub open spec fn config_of(text: Seq<char>) -> Result<ConfigView, Seq<char>> {
    match document::document_of(text) {
        Err(e) => Err("parsing source config: "@ + e),
        Ok(parsed) => config_in(parsed),
    }
}

pub open spec fn config_result(r: Result<Config, String>) -> Result<ConfigView, Seq<char>> {
    match r {
        Ok(c) => Ok(c.deep_view()),
        Err(e) => Err(e@),
    }
}

/// The sign-in endpoint of a tenant for device codes.
pub open spec fn device_code_address(tenant: Seq<char>) -> Seq<char> {
    "https://login.microsoftonline.com/"@ + tenant + "/oauth2/v2.0/devicecode"@
}

/// The sign-in endpoint of a tenant for tokens.
pub open spec fn token_address(tenant: Seq<char>) -> Seq<char> {
    "https://login.microsoftonline.com/"@ + tenant + "/oauth2/v2.0/token"@
}

/// Whether an address is one of these, whatever the case of its letters.
pub open spec fn own_address(addresses: Seq<Seq<char>>, addr: Option<Seq<char>>) -> bool {
    match addr {
        None => false,
        Some(a) => exists|i: int|
            0 <= i < addresses.len() && text::same_ignoring_ascii_case(#[trigger] addresses[i], a),
    }
}

/// Whether an address is one of these, whatever the case of its letters.
#[verifier::loop_isolation(false)]
pub fn is_among(addresses: &Vec<String>, addr: Option<&str>) -> (r: bool)
    ensures
        r == own_address(addresses.deep_view(), addr.deep_view()),
{
    match addr {
        None => false,
        Some(a) => {
            let mut i: usize = 0;
            let ghost all = addresses.deep_view();
            while i < addresses.len()
                invariant
                    i <= addresses.len(),
                    all == addresses.deep_view(),
                    forall|j: int|
                        0 <= j < i ==> !text::same_ignoring_ascii_case(#[trigger] all[j], a@),
                decreases addresses.len() - i,
            {
                assert(all[i as int] == addresses@[i as int]@);
                if eq_ignore_case(addresses[i].as_str(), a) {
                    return true;
                }
                i += 1;
            }
            false
        },
    }
}

impl Config {
    /// Reads a configuration. Unknown keys are errors.
    pub fn from_ron(text: &str) -> (r: Result<Config, String>)
        ensures
            config_result(r) == config_of(text@),
            document::tells_unknown_in(config_shape(), text@, document::refusal(r)),
    {
        match read_document(text) {
            Err(e) => Err("parsing source config: ".to_string().concat(e.as_str())),
            Ok(parsed) => Config::from_document(&parsed),
        }
    }

    /// The configuration that a parsed one is.
    pub fn from_document(parsed: &Document) -> (r: Result<Config, String>)
        ensures
            config_result(r) == config_in(parsed.deep_view()),
            document::tells_unknown(config_shape(), parsed.deep_view(), document::refusal(r)),
    {
        if let Document::Unit(_) = parsed {
            let c = Config {
                client_id: DEFAULT_CLIENT_ID.to_string(),
                tenant: DEFAULT_TENANT.to_string(),
                owner_addresses: Vec::new(),
                mail_filter: None,
            };
            assert(c.owner_addresses.deep_view() =~= Seq::<Seq<char>>::empty());
            return Ok(c);
        }
        let mut kinds: Vec<Kind> = Vec::new();
        kinds.push(Kind::Text);
        kinds.push(Kind::Text);
        kinds.push(Kind::Texts);
        kinds.push(Kind::Lenient);
        let shape = Shape {
            title: "Config",
            names: &["client_id", "tenant", "owner_addresses", "mail_filter"],
            kinds,
            required: 0,
        };
        assert(shape.names.deep_view() =~= config_shape().names);
        assert(shape.kinds@ =~= config_shape().kinds);
        match shape_config(
            parsed,
            &shape,
            "source config shape (all fields optional: client_id, tenant, owner_addresses, mail_filter): ",
        ) {
            Err(e) => Err(e),
            Ok(slots) => {
                let nobody: Vec<String> = Vec::new();
                assert(nobody.deep_view() =~= Seq::<Seq<char>>::empty());
                Ok(
                    Config {
                        client_id: take_text(&slots, 0, DEFAULT_CLIENT_ID),
                        tenant: take_text(&slots, 1, DEFAULT_TENANT),
                        owner_addresses: take_texts(&slots, 2, nobody),
                        mail_filter: take_optional(&slots, 3),
                    },
                )
            },
        }
    }

    /// Where a device code is asked for.
    pub fn device_code_url(&self) -> (r: String)
        ensures
            r@ == device_code_address(self.tenant@),
    {
        "https://login.microsoftonline.com/".to_string().concat(self.tenant.as_str()).concat(
            "/oauth2/v2.0/devicecode",
        )
    }

    /// Where a token is asked for.
    pub fn token_url(&self) -> (r: String)
        ensures
            r@ == token_address(self.tenant@),
    {
        "https://login.microsoftonline.com/".to_string().concat(self.tenant.as_str()).concat(
            "/oauth2/v2.0/token",
        )
    }

    /// Whether an address is one of the owner's.
    pub fn is_own_address(&self, addr: Option<&str>) -> (r: bool)
        ensures
            r == own_address(self.deep_view().owner_addresses, addr.deep_view()),
    {
        is_among(&self.owner_addresses, addr)
    }
}

/// The realm of an app in a tenant: sources of one realm share their sign-in.
pub open spec fn realm_of(tenant: Seq<char>, client_id: Seq<char>) -> Seq<char> {
    "ms-graph:"@ + tenant + ":"@ + client_id
}

/// The realm of an app in a tenant.
pub fn auth_realm(tenant: &str, client_id: &str) -> (r: String)
    ensures
        r@ == realm_of(tenant@, client_id@),
{
    "ms-graph:".to_string().concat(tenant).concat(":").concat(client_id)
}

/// Two sources share a realm only where they use the same app in the same
/// tenant, as long as no tenant holds a `:`.
pub proof fn law_realms_tell_apps_apart(t1: Seq<char>, c1: Seq<char>, t2: Seq<char>, c2: Seq<char>)
    requires
        !t1.contains(':'),
        !t2.contains(':'),
        realm_of(t1, c1) == realm_of(t2, c2),
    ensures
        t1 == t2,
        c1 == c2,
{
    reveal_strlit("ms-graph:");
    reveal_strlit(":");
    let a = realm_of(t1, c1);
    let b = realm_of(t2, c2);
    assert(a[9 + t1.len() as int] == ':');
    assert(b[9 + t2.len() as int] == ':');
    if t1.len() < t2.len() {
        assert(b[9 + t1.len() as int] == t2[t1.len() as int]);
    } else if t2.len() < t1.len() {
        assert(a[9 + t2.len() as int] == t1[t2.len() as int]);
    }
    assert(a.subrange(9, 9 + t1.len() as int) =~= t1);
    assert(b.subrange(9, 9 + t2.len() as int) =~= t2);
    assert(a.skip(10 + t1.len() as int) =~= c1);
    assert(b.skip(10 + t2.len() as int) =~= c2);
}

/// A configuration says what the entries of its own names say, each field on its own, and
/// has the documented default where an entry is left out; without names the entries go by
/// place.
pub proof fn law_a_configuration_says_what_its_entries_say(
    entries: Seq<(document::ReadingView, document::ReadingView)>,
    list: Seq<document::ReadingView>,
)
    requires
        document::named(entries),
    ensures
        config_in(DocumentView::Table(entries)) matches Ok(c) ==> {
            &&& c.client_id == match document::given(entries, "client_id"@) {
                Some(r) => r.text->Ok_0,
                None => DEFAULT_CLIENT_ID@,
            }
            &&& c.tenant == match document::given(entries, "tenant"@) {
                Some(r) => r.text->Ok_0,
                None => DEFAULT_TENANT@,
            }
            &&& c.owner_addresses == match document::given(entries, "owner_addresses"@) {
                Some(r) => r.texts->Ok_0,
                None => Seq::<Seq<char>>::empty(),
            }
            &&& c.mail_filter == match document::given(entries, "mail_filter"@) {
                Some(r) => match r.optional {
                    Ok(o) => o,
                    Err(_) => Some(r.text->Ok_0),
                },
                None => None,
            }
        },
        config_in(DocumentView::List(list)) matches Ok(c) ==> {
            &&& c.client_id == if list.len() > 0 {
                list[0].text->Ok_0
            } else {
                DEFAULT_CLIENT_ID@
            }
            &&& c.tenant == if list.len() > 1 {
                list[1].text->Ok_0
            } else {
                DEFAULT_TENANT@
            }
            &&& c.owner_addresses == if list.len() > 2 {
                list[2].texts->Ok_0
            } else {
                Seq::<Seq<char>>::empty()
            }
            &&& c.mail_filter == if list.len() > 3 {
                match list[3].optional {
                    Ok(o) => o,
                    Err(_) => Some(list[3].text->Ok_0),
                }
            } else {
                None
            }
        },
{
    let shape = config_shape();
    reveal_strlit("client_id");
    reveal_strlit("tenant");
    reveal_strlit("owner_addresses");
    reveal_strlit("mail_filter");
    assert(shape.names[0] == "client_id"@);
    assert(shape.names[1] == "tenant"@);
    assert(shape.names[2] == "owner_addresses"@);
    assert(shape.names[3] == "mail_filter"@);
    assert(shape.names.len() == 4);
    assert(shape.names[0].len() == 9);
    assert(shape.names[1].len() == 6);
    assert(shape.names[2].len() == 15);
    assert(shape.names[3].len() == 11);
    assert forall|i: int, j: int| 0 <= i < j < 4 implies #[trigger] shape.names[i]
        != #[trigger] shape.names[j] by {
        assert(shape.names[i].len() != shape.names[j].len() || shape.names[i][0] != shape.names[j][0]);
    }
    assert(shape.names.no_duplicates());
    if config_in(DocumentView::Table(entries)) is Ok {
        document::law_a_field_holds_what_its_name_gives(shape, entries, 0);
        document::law_a_field_holds_what_its_name_gives(shape, entries, 1);
        document::law_a_field_holds_what_its_name_gives(shape, entries, 2);
        document::law_a_field_holds_what_its_name_gives(shape, entries, 3);
    }
    if config_in(DocumentView::List(list)) is Ok {
        document::law_entries_without_names_go_by_place(shape, list, 0);
        document::law_entries_without_names_go_by_place(shape, list, 1);
        document::law_entries_without_names_go_by_place(shape, list, 2);
        document::law_entries_without_names_go_by_place(shape, list, 3);
    }
}

/// `()` is a configuration with every default, and so is one without entries.
pub proof fn law_saying_nothing_is_the_default(r: document::ReadingView)
    ensures
        config_in(DocumentView::Unit(r)) == Ok::<ConfigView, Seq<char>>(
            ConfigView {
                client_id: DEFAULT_CLIENT_ID@,
                tenant: DEFAULT_TENANT@,
                owner_addresses: Seq::empty(),
                mail_filter: None,
            },
        ),
{
}

/// An address is the owner's exactly where one of the configured addresses is the same,
/// wherever it stands among them, the case of ASCII letters aside; no address is not.
pub proof fn law_any_configured_address_is_the_owners(
    before: Seq<Seq<char>>,
    own: Seq<char>,
    behind: Seq<Seq<char>>,
    addr: Seq<char>,
)
    ensures
        own_address(before + seq![own] + behind, Some(addr)) <==> own_address(before, Some(addr))
            || text::same_ignoring_ascii_case(own, addr) || own_address(behind, Some(addr)),
        !own_address(Seq::empty(), Some(addr)),
        !own_address(before, None),
{
    let all = before + seq![own] + behind;
    let n = before.len() as int;
    assert(all[n] == own);
    if own_address(all, Some(addr)) {
        let i = choose|i: int|
            0 <= i < all.len() && text::same_ignoring_ascii_case(#[trigger] all[i], addr);
        if i < n {
            assert(before[i] == all[i]);
        } else if i > n {
            assert(behind[i - n - 1] == all[i]);
        }
    }
    if own_address(before, Some(addr)) {
        let i = choose|i: int|
            0 <= i < before.len() && text::same_ignoring_ascii_case(#[trigger] before[i], addr);
        assert(all[i] == before[i]);
    }
    if own_address(behind, Some(addr)) {
        let i = choose|i: int|
            0 <= i < behind.len() && text::same_ignoring_ascii_case(#[trigger] behind[i], addr);
        assert(all[n + 1 + i] == behind[i]);
    }
}

/// A realm is told by the tenant and the app, in this order, and a tenant's endpoints lie
/// below its own name.
pub proof fn law_a_realm_is_tenant_and_app(tenant: Seq<char>, client_id: Seq<char>)
    ensures
        realm_of(tenant, client_id) == "ms-graph:"@ + tenant + ":"@ + client_id,
        device_code_address(tenant) == "https://login.microsoftonline.com/"@ + tenant
            + "/oauth2/v2.0/devicecode"@,
        token_address(tenant) == "https://login.microsoftonline.com/"@ + tenant
            + "/oauth2/v2.0/token"@,
{
}

/// What is stated of a configuration is stated of its own fields.
pub proof fn law_a_configuration_is_its_fields(c: Config)
    ensures
        c.deep_view().client_id == c.client_id@,
        c.deep_view().tenant == c.tenant@,
        c.deep_view().owner_addresses == c.owner_addresses.deep_view(),
        c.deep_view().mail_filter == c.mail_filter.deep_view(),
{
}

} // verus!
