//! A configuration of the Graph sources in which the Azure app and the tenant
//! have to be named.

use vstd::prelude::*;
use crate::document;
use crate::document::{
    read_document, shape_config, take_optional, take_text, take_texts, Document, DocumentView,
    Kind, Shape, ShapeView,
};
use crate::graph::config;
use crate::graph::config::{is_among, ConfigView};

verus! {

#[derive(Debug, PartialEq, Eq)]
pub struct Config {
    pub client_id: String,
    pub tenant: String,
    /// The owner's own addresses.
    pub owner_addresses: Vec<String>,
    /// An OData filter that narrows the mail listing, and nothing else.
    pub mail_filter: Option<String>,
}

impl DeepView for Config {
    type V = ConfigView;

    open spec fn deep_view(&self) -> ConfigView {
        ConfigView {
            client_id: self.client_id@,
            tenant: self.tenant@,
            owner_addresses: self.owner_addresses.deep_view(),
            mail_filter: self.mail_filter.deep_view(),
        }
    }
}

/// The fields of the configuration.
pub open spec fn config_shape() -> ShapeView {
    ShapeView {
        title: "Config"@,
        names: seq!["client_id"@, "tenant"@, "owner_addresses"@, "mail_filter"@],
        kinds: seq![Kind::Text, Kind::Text, Kind::Texts, Kind::Optional],
        required: 2,
    }
}

/// What a parsed configuration means.
pub open spec fn config_in(parsed: DocumentView) -> Result<ConfigView, Seq<char>> {
    match document::shaped(
        parsed,
        config_shape(),
        "source config shape (need client_id, tenant, owner_addresses): "@,
    ) {
        Err(e) => Err(e),
        Ok(slots) => Ok(
            ConfigView {
                client_id: document::text_or(slots, 0, Seq::empty()),
                tenant: document::text_or(slots, 1, Seq::empty()),
                owner_addresses: document::texts_or(slots, 2, Seq::empty()),
                mail_filter: document::optional_of(slots, 3),
            },
        ),
    }
}

/// What a configuration text means.
pub open spec fn config_of(text: Seq<char>) -> Result<ConfigView, Seq<char>> {
    match document::document_of(text) {
        Err(e) => Err("parsing source config: "@ + e),
        Ok(parsed) => config_in(parsed),
    }
}

pub open spec fn config_result(r: Result<Config, String>) -> Result<ConfigView, Seq<char>> {
    match r {
        Ok(c) => Ok(c.deep_view()),
        Err(e) => Err(e@),
    }
}

impl Config {
    /// Reads a configuration. Unknown keys are errors.
    pub fn from_ron(text: &str) -> (r: Result<Config, String>)
        ensures
            config_result(r) == config_of(text@),
            document::tells_unknown_in(config_shape(), text@, document::refusal(r)),
    {
        match read_document(text) {
            Err(e) => Err("parsing source config: ".to_string().concat(e.as_str())),
            Ok(parsed) => Config::from_document(&parsed),
        }
    }

    /// The configuration that a parsed one is.
    pub fn from_document(parsed: &Document) -> (r: Result<Config, String>)
        ensures
            config_result(r) == config_in(parsed.deep_view()),
            document::tells_unknown(config_shape(), parsed.deep_view(), document::refusal(r)),
    {
        let mut kinds: Vec<Kind> = Vec::new();
        kinds.push(Kind::Text);
        kinds.push(Kind::Text);
        kinds.push(Kind::Texts);
        kinds.push(Kind::Optional);
        let shape = Shape {
            title: "Config",
            names: &["client_id", "tenant", "owner_addresses", "mail_filter"],
            kinds,
            required: 2,
        };
        assert(shape.names.deep_view() =~= config_shape().names);
        assert(shape.kinds@ =~= config_shape().kinds);
        match shape_config(
            parsed,
            &shape,
            "source config shape (need client_id, tenant, owner_addresses): ",
        ) {
            Err(e) => Err(e),
            Ok(slots) => {
                let empty = String::new();
                assert(empty@ =~= Seq::<char>::empty());
                let nobody: Vec<String> = Vec::new();
                assert(nobody.deep_view() =~= Seq::<Seq<char>>::empty());
                Ok(
                    Config {
                        client_id: take_text(&slots, 0, empty.as_str()),
                        tenant: take_text(&slots, 1, empty.as_str()),
                        owner_addresses: take_texts(&slots, 2, nobody),
                        mail_filter: take_optional(&slots, 3),
                    },
                )
            },
        }
    }

    /// Where a device code is asked for.
    pub fn device_code_url(&self) -> (r: String)
        ensures
            r@ == config::device_code_address(self.tenant@),
    {
        "https://login.microsoftonline.com/".to_string().concat(self.tenant.as_str()).concat(
            "/oauth2/v2.0/devicecode",
        )
    }

    /// Where a token is asked for.
    pub fn token_url(&self) -> (r: String)
        ensures
            r@ == config::token_address(self.tenant@),
    {
        "https://login.microsoftonline.com/".to_string().concat(self.tenant.as_str()).concat(
            "/oauth2/v2.0/token",
        )
    }

    /// Whether an address is one of the owner's.
    pub fn is_own_address(&self, addr: Option<&str>) -> (r: bool)
        ensures
            r == config::own_address(self.deep_view().owner_addresses, addr.deep_view()),
    {
        is_among(&self.owner_addresses, addr)
    }
}

/// A configuration says what the entries of its own names say, each field on its own, and
/// has the documented default where an entry is left out; without names the entries go by
/// place.
pub proof fn law_a_configuration_says_what_its_entries_say(
    entries: Seq<(document::ReadingView, document::ReadingView)>,
    list: Seq<document::ReadingView>,
)
    requires
        document::named(entries),
    ensures
        config_in(DocumentView::Table(entries)) matches Ok(c) ==> {
            &&& c.client_id == match document::given(entries, "client_id"@) {
                Some(r) => r.text->Ok_0,
                None => Seq::<char>::empty(),
            }
            &&& c.tenant == match document::given(entries, "tenant"@) {
                Some(r) => r.text->Ok_0,
                None => Seq::<char>::empty(),
            }
            &&& c.owner_addresses == match document::given(entries, "owner_addresses"@) {
                Some(r) => r.texts->Ok_0,
                None => Seq::<Seq<char>>::empty(),
            }
            &&& c.mail_filter == match document::given(entries, "mail_filter"@) {
                Some(r) => r.optional->Ok_0,
                None => None,
            }
        },
        config_in(DocumentView::List(list)) matches Ok(c) ==> {
            &&& c.client_id == if list.len() > 0 {
                list[0].text->Ok_0
            } else {
                Seq::<char>::empty()
            }
            &&& c.tenant == if list.len() > 1 {
                list[1].text->Ok_0
            } else {
                Seq::<char>::empty()
            }
            &&& c.owner_addresses == if list.len() > 2 {
                list[2].texts->Ok_0
            } else {
                Seq::<Seq<char>>::empty()
            }
            &&& c.mail_filter == if list.len() > 3 {
                list[3].optional->Ok_0
            } else {
                None
            }
        },
        config_in(DocumentView::Table(entries)) is Ok ==> document::given(entries, "client_id"@) is Some && document::given(entries, "tenant"@) is Some,
{
    let shape = config_shape();
    reveal_strlit("client_id");
    reveal_strlit("tenant");
    reveal_strlit("owner_addresses");
    reveal_strlit("mail_filter");
    assert(shape.names[0] == "client_id"@);
    assert(shape.names[1] == "tenant"@);
    assert(shape.names[2] == "owner_addresses"@);
    assert(shape.names[3] == "mail_filter"@);
    assert(shape.names.len() == 4);
    assert(shape.names[0].len() == 9);
    assert(shape.names[1].len() == 6);
    assert(shape.names[2].len() == 15);
    assert(shape.names[3].len() == 11);
    assert forall|i: int, j: int| 0 <= i < j < 4 implies #[trigger] shape.names[i]
        != #[trigger] shape.names[j] by {
        assert(shape.names[i].len() != shape.names[j].len() || shape.names[i][0] != shape.names[j][0]);
    }
    assert(shape.names.no_duplicates());
    if config_in(DocumentView::Table(entries)) is Ok {
        document::law_a_field_holds_what_its_name_gives(shape, entries, 0);
        document::law_a_field_holds_what_its_name_gives(shape, entries, 1);
        document::law_a_field_holds_what_its_name_gives(shape, entries, 2);
        document::law_a_field_holds_what_its_name_gives(shape, entries, 3);
    }
    if config_in(DocumentView::List(list)) is Ok {
        document::law_entries_without_names_go_by_place(shape, list, 0);
        document::law_entries_without_names_go_by_place(shape, list, 1);
        document::law_entries_without_names_go_by_place(shape, list, 2);
        document::law_entries_without_names_go_by_place(shape, list, 3);
    }
}

/// What is stated of a configuration is stated of its own fields.
pub proof fn law_a_configuration_is_its_fields(c: Config)
    ensures
        c.deep_view().client_id == c.client_id@,
        c.deep_view().tenant == c.tenant@,
        c.deep_view().owner_addresses == c.owner_addresses.deep_view(),
        c.deep_view().mail_filter == c.mail_filter.deep_view(),
{
}

} // verus!
