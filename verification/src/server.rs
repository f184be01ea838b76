//! The web server's settings and its page of agents.

pub mod handler;
pub mod responses;

use vstd::prelude::*;
use pickledb::PickleDb;
use crate::agent::agent::Agent;
use crate::agent::util::{agents_view, scan_agents_in, scan_keys};
use crate::json::{decode_json_str, encode_json_str, json_str, lemma_json_str_is_literal, lemma_json_str_roundtrip};
use crate::store::{
    db_is_json, db_path_is_text, db_writable, db_writes_deferred, db_get_all, db_get_string, db_values, key_listing, put_json, stored_string,
    StoreError,
};
use crate::text::{parse_u16, spec_parse_u16};

verus! {

/// The page that the server renders: a title, some content, and the agents.
pub struct Page {
    pub title: String,
    pub content: String,
    pub agents: Vec<Agent>,
}

/// The port the server listens on when none is recorded.
pub open spec fn default_port() -> Seq<char> {
    "7979"@
}

/// The port recorded in the settings store: the string stored under `port`,
/// or the default when what is stored there is not a string.
pub open spec fn spec_configured_port(config_db: PickleDb) -> Seq<char> {
    match stored_string(config_db, "port"@) {
        Some(p) => p,
        None => default_port(),
    }
}

/// The port recorded in the settings store, or `7979`.
pub fn configured_port(config_db: &PickleDb) -> (r: String)
    requires
        db_is_json(*config_db),
    ensures
        r@ == spec_configured_port(*config_db),
        db_values(*config_db).contains_key("port"@) && decode_json_str(
            db_values(*config_db)["port"@],
        ) is Some ==> r@ == decode_json_str(db_values(*config_db)["port"@]).unwrap(),
{
    match db_get_string(config_db, "port") {
        Some(p) => p,
        None => String::from_str("7979"),
    }
}

/// The address at which the server is looked for: `localhost:` and the
/// recorded port.
pub fn server_address(config_db: &PickleDb) -> (r: String)
    requires
        db_is_json(*config_db),
    ensures
        r@ == "localhost:"@ + spec_configured_port(*config_db),
        db_values(*config_db).contains_key("port"@) && decode_json_str(
            db_values(*config_db)["port"@],
        ) is Some ==> r@ == "localhost:"@ + decode_json_str(db_values(*config_db)["port"@]).unwrap(),
{
    let port = configured_port(config_db);
    let mut address = String::from_str("localhost:");
    address.append(port.as_str());
    address
}

/// Records `port` in the settings store, as a JSON string under `port`.
pub fn record_port(config_db: &mut PickleDb, port: &String) -> (r: Result<(), StoreError>)
    requires
        db_is_json(*old(config_db)),
        db_writable(*old(config_db)),
    ensures
        db_is_json(*final(config_db)),
        db_path_is_text(*final(config_db)) == db_path_is_text(*old(config_db)),
        r is Ok ==> {
            &&& db_values(*final(config_db)) == db_values(*old(config_db)).insert(
                "port"@,
                json_str(port@),
            )
            &&& decode_json_str(db_values(*final(config_db))["port"@]) == Some(port@)
        },
        r is Err ==> db_values(*final(config_db)) == db_values(*old(config_db)),
        db_writes_deferred(*final(config_db)) == db_writes_deferred(*old(config_db)),
        db_writes_deferred(*old(config_db)) ==> r is Ok,
        r is Err ==> r matches Err(StoreError::Db(_)),
{
    let text = encode_json_str(port.as_str());
    proof {
        lemma_json_str_is_literal(port@);
    }
    let r = put_json(config_db, "port", text);
    proof {
        if r is Ok {
            lemma_json_str_roundtrip(port@);
        }
    }
    r
}

/// The port number that `port` names, if it is one.
pub fn port_number(port: &String) -> (r: Option<u16>)
    ensures
        r == spec_parse_u16(port@),
{
    parse_u16(port.as_str())
}

/// The page of every agent of the store, in the store's key order; or the
/// first key, in that order, whose record is not an agent.
pub fn index_page(db: &PickleDb) -> (r: Result<Page, String>)
    requires
        db_is_json(*db),
    ensures
        exists|keys: Seq<Seq<char>>|
            key_listing(*db, keys) && match #[trigger] scan_keys(*db, keys) {
                (agents, None) => r matches Ok(p) && p.title@ == "Some title"@ && p.content@
                    == "Some content"@ && agents_view(p.agents@) == agents,
                (_, Some(k)) => r matches Err(e) && e@ == k,
            },
{
    let keys = db_get_all(db);
    let scan = scan_agents_in(db, &keys);
    match scan.bad_key {
        Some(k) => Err(k),
        None => Ok(
            Page {
                title: String::from_str("Some title"),
                content: String::from_str("Some content"),
                agents: scan.agents,
            },
        ),
    }
}

} // verus!
