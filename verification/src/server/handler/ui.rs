//! The page that the web server's user interface shows.

use vstd::prelude::*;
use pickledb::PickleDb;
use crate::agent::agent::Agent;
use crate::agent::util::{agents_view, collect_agents, collect_keys};
use crate::store::{db_is_json, key_listing};

verus! {

/// The page: a title, some content, and the agents.
pub struct Page {
    pub title: String,
    pub content: String,
    pub agents: Vec<Agent>,
}

/// The page of every agent of the store, in the store's key order, and the
/// keys skipped because their record is not an agent.
pub fn ui(db: &PickleDb) -> (r: (Page, Vec<String>))
    requires
        db_is_json(*db),
    ensures
        r.0.title@ == "Some title"@,
        r.0.content@ == "Some content"@,
        exists|keys: Seq<Seq<char>>|
            key_listing(*db, keys) && #[trigger] collect_keys(*db, keys) == (
                agents_view(r.0.agents@),
                r.1.deep_view(),
            ),
{
    let collected = collect_agents(db);
    let page = Page {
        title: String::from_str("Some title"),
        content: String::from_str("Some content"),
        agents: collected.agents,
    };
    (page, collected.skipped)
}

} // verus!
