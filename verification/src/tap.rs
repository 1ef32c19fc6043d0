//! The table of the sources that this tap serves.

use vstd::prelude::*;
use crate::git::GitRepoPlugin;
use crate::graph::plugins::{
    GraphCalendarPlugin, GraphChatsPlugin, GraphMailPlugin, GraphMeetingsPlugin,
};
use crate::graph::sharepoint::SharepointFilePlugin;
use crate::kb::KbPlugin;
use crate::plugin::{Describe, DescribeView, FetchStyle, PROTOCOL};
use crate::salesforce::SalesforcePlugin;
use crate::sweep::SweepPlugin;
use crate::text::same_text;

verus! {

/// A source that this tap serves.
pub enum Source {
    Sweep(SweepPlugin),
    GitRepo(GitRepoPlugin),
    Salesforce(SalesforcePlugin),
    Kb(KbPlugin),
    GraphMail(GraphMailPlugin),
    GraphCalendar(GraphCalendarPlugin),
    GraphMeetings(GraphMeetingsPlugin),
    GraphChats(GraphChatsPlugin),
    SharepointFile(SharepointFilePlugin),
}

impl Source {
    /// The name under which the tap serves a source.
    pub open spec fn served_as(self) -> Seq<char> {
        match self {
            Source::Sweep(_) => "sweep"@,
            Source::GitRepo(_) => "git-repo"@,
            Source::Salesforce(_) => "salesforce"@,
            Source::Kb(_) => "kb"@,
            Source::GraphMail(_) => "graph-mail"@,
            Source::GraphCalendar(_) => "graph-calendar"@,
            Source::GraphMeetings(_) => "graph-meetings"@,
            Source::GraphChats(_) => "graph-chats"@,
            Source::SharepointFile(_) => "sharepoint-file"@,
        }
    }

    /// How the source presents itself: under the name by which it is served.
    pub open spec fn described(self) -> DescribeView {
        DescribeView {
            name: self.served_as(),
            link_namespace: match self {
                Source::Sweep(_) => "file"@,
                Source::GitRepo(_) => "repo"@,
                Source::Salesforce(_) => "sf"@,
                Source::Kb(_) => "kb"@,
                Source::SharepointFile(_) => "sharepoint"@,
                _ => "graph"@,
            },
            fetch_style: match self {
                Source::Sweep(_) | Source::Kb(_) => FetchStyle::Sweep,
                Source::GitRepo(_) | Source::Salesforce(_) | Source::SharepointFile(
                    _,
                ) => FetchStyle::Snapshot,
                _ => FetchStyle::Windowed,
            },
            auth_realm: match self {
                Source::Sweep(_) | Source::GitRepo(_) | Source::Kb(_) => None,
                Source::Salesforce(_) => Some("salesforce"@),
                _ => Some("ms-graph"@),
            },
            protocol: PROTOCOL,
        }
    }

    /// How the source presents itself.
    pub fn describe(&self) -> (d: Describe)
        ensures
            d.deep_view() == self.described(),
    {
        match self {
            Source::Sweep(p) => p.describe(),
            Source::GitRepo(p) => p.describe(),
            Source::Salesforce(p) => p.describe(),
            Source::Kb(p) => p.describe(),
            Source::GraphMail(p) => p.describe(),
            Source::GraphCalendar(p) => p.describe(),
            Source::GraphMeetings(p) => p.describe(),
            Source::GraphChats(p) => p.describe(),
            Source::SharepointFile(p) => p.describe(),
        }
    }
}

/// The source of a name, where the tap serves one.
pub fn plugin_table(name: &str) -> (r: Option<Source>)
    ensures
        match r {
            Some(s) => s.served_as() == name@,
            None => forall|s: Source| (#[trigger] s.served_as()) != name@,
        },
{
    if same_text(name, "sweep") {
        Some(Source::Sweep(SweepPlugin))
    } else if same_text(name, "git-repo") {
        Some(Source::GitRepo(GitRepoPlugin))
    } else if same_text(name, "salesforce") {
        Some(Source::Salesforce(SalesforcePlugin))
    } else if same_text(name, "kb") {
        Some(Source::Kb(KbPlugin))
    } else if same_text(name, "graph-mail") {
        Some(Source::GraphMail(GraphMailPlugin))
    } else if same_text(name, "graph-calendar") {
        Some(Source::GraphCalendar(GraphCalendarPlugin))
    } else if same_text(name, "graph-meetings") {
        Some(Source::GraphMeetings(GraphMeetingsPlugin))
    } else if same_text(name, "graph-chats") {
        Some(Source::GraphChats(GraphChatsPlugin))
    } else if same_text(name, "sharepoint-file") {
        Some(Source::SharepointFile(SharepointFilePlugin))
    } else {
        None
    }
}

/// Every source is served under a name of its own and presents itself under that name.
pub proof fn law_sources_have_names_of_their_own(s: Source, t: Source)
    ensures
        s.described().name == s.served_as(),
        s.described().protocol == PROTOCOL,
        s.served_as() == t.served_as() <==> match (s, t) {
            (Source::Sweep(_), Source::Sweep(_)) => true,
            (Source::GitRepo(_), Source::GitRepo(_)) => true,
            (Source::Salesforce(_), Source::Salesforce(_)) => true,
            (Source::Kb(_), Source::Kb(_)) => true,
            (Source::GraphMail(_), Source::GraphMail(_)) => true,
            (Source::GraphCalendar(_), Source::GraphCalendar(_)) => true,
            (Source::GraphMeetings(_), Source::GraphMeetings(_)) => true,
            (Source::GraphChats(_), Source::GraphChats(_)) => true,
            (Source::SharepointFile(_), Source::SharepointFile(_)) => true,
            _ => false,
        },
        s.described().fetch_style is Windowed <==> (s is GraphMail || s is GraphCalendar
            || s is GraphMeetings || s is GraphChats),
        s.described().fetch_style is Sweep <==> (s is Sweep || s is Kb),
        s.described().auth_realm is None <==> (s is Sweep || s is GitRepo || s is Kb),
{
    reveal_strlit("sweep");
    reveal_strlit("git-repo");
    reveal_strlit("salesforce");
    reveal_strlit("kb");
    reveal_strlit("graph-mail");
    reveal_strlit("graph-calendar");
    reveal_strlit("graph-meetings");
    reveal_strlit("graph-chats");
    reveal_strlit("sharepoint-file");
    assert("graph-mail"@[0] != "salesforce"@[0]);
    assert("graph-calendar"@[6] != "graph-meetings"@[6]);
    assert("sweep"@.len() == 5 && "git-repo"@.len() == 8 && "salesforce"@.len() == 10);
    assert("kb"@.len() == 2 && "graph-mail"@.len() == 10 && "graph-calendar"@.len() == 14);
    assert("graph-meetings"@.len() == 14 && "graph-chats"@.len() == 11);
    assert("sharepoint-file"@.len() == 15);
    let a = s.served_as();
    let b = t.served_as();
    assert(a == b ==> a.len() == b.len() && a[0] == b[0] && (a.len() > 6 ==> a[6] == b[6]));
}

} // verus!
