//! The key-value store under the agents and the configuration: a `PickleDb`
//! that keeps JSON text under string keys, plus named lists. Each method of it
//! that the logic calls has one trusted wrapper here, whose contract speaks of
//! the store's contents through `db_values` and `db_list_lens`; so has the one
//! serde_json parse that the logic makes on its own.

use vstd::prelude::*;
use pickledb::{PickleDb, PickleDbDumpPolicy};
use serde_json::value::RawValue;
use crate::json::{decode_json_str, is_flat_json};
use crate::text::trim_json_ws;

verus! {

#[verifier::external_type_specification]
#[verifier::external_body]
pub struct ExPickleDb(PickleDb);

#[verifier::external_type_specification]
#[verifier::external_body]
pub struct ExPickleDbDumpPolicy(PickleDbDumpPolicy);

#[verifier::external_type_specification]
#[verifier::external_body]
pub struct ExPickleDbError(pickledb::error::Error);

#[verifier::external_type_specification]
#[verifier::external_body]
pub struct ExJsonError(serde_json::Error);

#[verifier::external_type_specification]
#[verifier::external_body]
pub struct ExJsonValue(serde_json::Value);

/// The key-value pairs that a `PickleDb` holds: each key with the text stored
/// under it (JSON text, in a store for which `db_is_json` holds).
pub uninterp spec fn db_values(db: PickleDb) -> Map<Seq<char>, Seq<char>>;

/// Whether the store serialises its values with serde_json: it was made by
/// `new_json`, or by `new` or `load` with `SerializationMethod::Json`.
pub uninterp spec fn db_is_json(db: PickleDb) -> bool;

/// Whether the store was made with a dump policy that keeps changes in memory
/// (`NeverDump` or `DumpUponRequest`): then `set`, `rem` and `lcreate` never
/// write the file, and never fail on writing it.
pub uninterp spec fn db_writes_deferred(db: PickleDb) -> bool;

/// Whether the path that the store is written to is UTF-8 text. Writing the
/// store out (`PickleDb::dump`) reads the path as text and panics when it is
/// not.
pub uninterp spec fn db_path_is_text(db: PickleDb) -> bool;

/// Whether a store may be changed through the wrappers here without a panic:
/// it never writes itself out on a change, or its path is text.
pub open spec fn db_writable(db: PickleDb) -> bool {
    db_writes_deferred(db) || db_path_is_text(db)
}

/// Whether `policy` is `NeverDump` or `DumpUponRequest`.
pub uninterp spec fn policy_defers_writes(policy: PickleDbDumpPolicy) -> bool;

/// The lists that a `PickleDb` holds: each list's name with the number of
/// items in it.
pub uninterp spec fn db_list_lens(db: PickleDb) -> Map<Seq<char>, nat>;

/// The names of the lists that a `PickleDb` holds.
pub open spec fn db_lists(db: PickleDb) -> Set<Seq<char>> {
    db_list_lens(db).dom()
}

/// Whether `serde_json::from_str::<Box<RawValue>>` accepts `text` as one
/// JSON value.
pub uninterp spec fn json_text_accepted(text: Seq<char>) -> bool;

/// What `serde_json::from_str::<String>` gives for `text`: the string, when
/// `text` is a JSON string literal.
pub uninterp spec fn json_string_value(text: Seq<char>) -> Option<Seq<char>>;

/// Whether `serde_json::from_str::<Option<serde_json::Value>>` accepts `text`.
pub uninterp spec fn optional_value_accepted(text: Seq<char>) -> bool;

/// Every key of the store, listed the way `PickleDb::get_all` lists them:
/// first the keys of the pairs, each once, then the names of the lists, each
/// once, each part in an order that the store's hash maps decide.
pub open spec fn key_listing(db: PickleDb, keys: Seq<Seq<char>>) -> bool {
    exists|n: int|
        0 <= n <= keys.len() && #[trigger] keys.take(n).no_duplicates() && keys.take(n).to_set()
            == db_values(db).dom() && keys.skip(n).no_duplicates() && keys.skip(n).to_set()
            == db_lists(db)
}

/// What reading `key` as raw JSON gives: the stored text without its
/// surrounding whitespace, when there is a pair under `key` and its text is
/// JSON.
pub open spec fn stored_json(db: PickleDb, key: Seq<char>) -> Option<Seq<char>> {
    if db_values(db).contains_key(key) && json_text_accepted(db_values(db)[key]) {
        Some(trim_json_ws(db_values(db)[key]))
    } else {
        None
    }
}

/// Whether the store holds anything under `key`, a pair or a list.
pub open spec fn holds_key(db: PickleDb, key: Seq<char>) -> bool {
    db_values(db).contains_key(key) || db_lists(db).contains(key)
}

/// `PickleDb::new_json`: an empty store that will be written to `path` as
/// JSON, under `policy`. Its path is the text `path`.
#[verifier::external_body]
pub(crate) fn db_new_json(path: &str, policy: PickleDbDumpPolicy) -> (r: PickleDb)
    ensures
        db_is_json(r),
        db_path_is_text(r),
        db_writes_deferred(r) == policy_defers_writes(policy),
        db_values(r).dom().is_empty(),
        db_list_lens(r).dom().is_empty(),
{
    PickleDb::new_json(path, policy)
}

/// `PickleDb::exists`: whether a pair or a list is stored under `key`.
#[verifier::external_body]
pub(crate) fn db_exists(db: &PickleDb, key: &str) -> (r: bool)
    ensures
        r == holds_key(*db, key@),
{
    db.exists(key)
}

/// `PickleDb::get_all`: the keys of the pairs, then the names of the lists.
/// The order within each part comes from a hash map and is not stated.
#[verifier::external_body]
pub(crate) fn db_get_all(db: &PickleDb) -> (keys: Vec<String>)
    ensures
        key_listing(*db, keys.deep_view()),
{
    db.get_all()
}

/// `PickleDb::get::<Box<RawValue>>`: the JSON text stored under `key`, without
/// surrounding whitespace; `None` when no pair is stored under `key` or its
/// text is not JSON.
#[verifier::external_body]
pub(crate) fn db_get_json(db: &PickleDb, key: &str) -> (r: Option<String>)
    requires
        db_is_json(*db),
    ensures
        match stored_json(*db, key@) {
            Some(t) => r matches Some(s) && s@ == t,
            None => r is None,
        },
{
    match db.get::<Box<RawValue>>(key) {
        Some(raw) => Some(raw.get().to_string()),
        None => None,
    }
}

/// What reading `key` as a string gives: the string whose JSON literal is
/// stored there.
pub open spec fn stored_string(db: PickleDb, key: Seq<char>) -> Option<Seq<char>> {
    if db_values(db).contains_key(key) {
        json_string_value(db_values(db)[key])
    } else {
        None
    }
}

/// `PickleDb::get::<String>`: the string whose JSON literal is stored under
/// `key`. A literal in the form that serde_json writes reads back as the
/// string it was written from.
#[verifier::external_body]
pub(crate) fn db_get_string(db: &PickleDb, key: &str) -> (r: Option<String>)
    requires
        db_is_json(*db),
    ensures
        match (if db_values(*db).contains_key(key@) {
            json_string_value(db_values(*db)[key@])
        } else {
            None
        }) {
            Some(s) => r matches Some(x) && x@ == s,
            None => r is None,
        },
        db_values(*db).contains_key(key@) && decode_json_str(db_values(*db)[key@]) is Some
            ==> r is Some && r->Some_0@ == decode_json_str(db_values(*db)[key@]).unwrap(),
{
    db.get::<String>(key)
}

/// `PickleDb::set` of JSON text, handed over as a `RawValue` made by
/// `RawValue::from_string`. The outer error is `from_string`'s: the text is not
/// one JSON value, and the store is untouched. Otherwise `set` drops any list
/// named `key`, stores the text without its surrounding whitespace under
/// `key`, and writes the store out as its dump policy asks; when that write
/// fails, the pair that was under `key` before is put back and the inner
/// error is returned, the list staying dropped. serde_json parses JSON
/// text, so it accepts every text that `is_flat_json` describes.
/// Writing the store out also reads the system clock, and panics when the
/// clock is set before 1970; that is the machine's matter and is not excluded
/// here.
#[verifier::external_body]
pub(crate) fn db_set_json(db: &mut PickleDb, key: &str, text: String) -> (r: Result<
    Result<(), pickledb::error::Error>,
    serde_json::Error,
>)
    requires
        db_is_json(*old(db)),
        db_writable(*old(db)),
    ensures
        r is Ok <==> json_text_accepted(text@),
        is_flat_json(text@) ==> r is Ok,
        db_path_is_text(*final(db)) == db_path_is_text(*old(db)),
        r is Err ==> *final(db) == *old(db),
        db_writes_deferred(*final(db)) == db_writes_deferred(*old(db)),
        db_writes_deferred(*old(db)) && r is Ok ==> r->Ok_0 is Ok,
        r is Ok ==> db_is_json(*final(db)) && db_list_lens(*final(db)) == db_list_lens(
            *old(db),
        ).remove(key@),
        r matches Ok(Ok(())) ==> db_values(*final(db)) == db_values(*old(db)).insert(
            key@,
            trim_json_ws(text@),
        ),
        r matches Ok(Err(_)) ==> db_values(*final(db)) == db_values(*old(db)),
{
    match RawValue::from_string(text) {
        Ok(raw) => Ok(db.set(key, &raw)),
        Err(e) => Err(e),
    }
}

/// `PickleDb::rem`: removes the pair and the list stored under `key`, and
/// tells whether there was either. A failed write of the store puts back
/// what it was writing the removal of: the pair, or the list, as it was,
/// when the pair's removal was already written.
/// Writing the store out also reads the system clock, and panics when the
/// clock is set before 1970; that is the machine's matter and is not excluded
/// here.
#[verifier::external_body]
pub(crate) fn db_rem(db: &mut PickleDb, key: &str) -> (r: Result<bool, pickledb::error::Error>)
    requires
        db_writable(*old(db)),
    ensures
        db_is_json(*final(db)) == db_is_json(*old(db)),
        db_path_is_text(*final(db)) == db_path_is_text(*old(db)),
        db_writes_deferred(*final(db)) == db_writes_deferred(*old(db)),
        db_writes_deferred(*old(db)) ==> r is Ok,
        r matches Ok(found) ==> {
            &&& found == holds_key(*old(db), key@)
            &&& db_values(*final(db)) == db_values(*old(db)).remove(key@)
            &&& db_list_lens(*final(db)) == db_list_lens(*old(db)).remove(key@)
        },
        r is Err ==> {
            &&& db_list_lens(*final(db)) == db_list_lens(*old(db))
            &&& (db_values(*final(db)) == db_values(*old(db)) || db_values(*final(db))
                == db_values(*old(db)).remove(key@))
        },
{
    db.rem(key)
}

/// `PickleDb::lcreate`: drops the pair under `name` and puts an empty list
/// there, then writes the store out as its dump policy asks. The change stays
/// when that write fails.
/// Writing the store out also reads the system clock, and panics when the
/// clock is set before 1970; that is the machine's matter and is not excluded
/// here.
#[verifier::external_body]
pub(crate) fn db_lcreate(db: &mut PickleDb, name: &str) -> (r: Result<(), pickledb::error::Error>)
    requires
        db_writable(*old(db)),
    ensures
        db_is_json(*final(db)) == db_is_json(*old(db)),
        db_path_is_text(*final(db)) == db_path_is_text(*old(db)),
        db_writes_deferred(*final(db)) == db_writes_deferred(*old(db)),
        db_writes_deferred(*old(db)) ==> r is Ok,
        db_values(*final(db)) == db_values(*old(db)).remove(name@),
        db_list_lens(*final(db)) == db_list_lens(*old(db)).insert(name@, 0),
{
    match db.lcreate(name) {
        Ok(_) => Ok(()),
        Err(e) => Err(e),
    }
}

/// `serde_json::from_str::<Option<serde_json::Value>>`: `Ok(None)` exactly for
/// `null` with optional whitespace around it. What the `Some` value holds is
/// not stated.
#[verifier::external_body]
pub(crate) fn parse_optional_value(text: &str) -> (r: Result<Option<serde_json::Value>, serde_json::Error>)
    ensures
        r is Ok <==> optional_value_accepted(text@),
        r matches Ok(v) ==> (v is None <==> trim_json_ws(text@) == seq!['n', 'u', 'l', 'l']),
{
    serde_json::from_str::<Option<serde_json::Value>>(text)
}

/// Why storing a record failed: the store could not write itself out, or
/// serde_json refused the record's text.
#[derive(Debug)]
pub enum StoreError {
    Db(pickledb::error::Error),
    Json(serde_json::Error),
}

/// The store holds `text` under `key` and it reads back as `text`: what
/// `put_json` establishes.
pub open spec fn holds_text(db: PickleDb, key: Seq<char>, text: Seq<char>) -> bool {
    db_values(db).contains_key(key) && db_values(db)[key] == text && json_text_accepted(text)
}

/// Stores the JSON text `text`, which has no surrounding whitespace, under
/// `key` (dropping any list of that name). On success the pair under `key`
/// holds exactly `text`; on failure the pairs are as they were.
pub fn put_json(db: &mut PickleDb, key: &str, text: String) -> (r: Result<(), StoreError>)
    requires
        db_is_json(*old(db)),
        db_writable(*old(db)),
        text@.len() > 0,
        !crate::text::is_json_ws(text@[0]),
        !crate::text::is_json_ws(text@.last()),
    ensures
        db_is_json(*final(db)),
        db_writes_deferred(*final(db)) == db_writes_deferred(*old(db)),
        db_path_is_text(*final(db)) == db_path_is_text(*old(db)),
        db_writes_deferred(*old(db)) && json_text_accepted(text@) ==> r is Ok,
        db_list_lens(*final(db)) == db_list_lens(*old(db)).remove(key@) || (r is Err
            && db_list_lens(*final(db)) == db_list_lens(*old(db))),
        r is Ok ==> db_values(*final(db)) == db_values(*old(db)).insert(key@, text@),
        r is Ok ==> holds_text(*final(db), key@, text@),
        r is Err ==> db_values(*final(db)) == db_values(*old(db)),
        r matches Err(StoreError::Json(_)) <==> !json_text_accepted(text@),
        is_flat_json(text@) ==> json_text_accepted(text@),
{
    let ghost t = text@;
    proof {
        crate::text::lemma_trim_json_ws_noop(t);
    }
    match db_set_json(db, key, text) {
        Err(e) => Err(StoreError::Json(e)),
        Ok(Err(e)) => Err(StoreError::Db(e)),
        Ok(Ok(())) => Ok(()),
    }
}

/// A pair holding accepted text without surrounding whitespace reads back as
/// that text.
pub proof fn lemma_read_back(db: PickleDb, key: Seq<char>, text: Seq<char>)
    requires
        holds_text(db, key, text),
        text.len() > 0,
        !crate::text::is_json_ws(text[0]),
        !crate::text::is_json_ws(text.last()),
    ensures
        stored_json(db, key) == Some(text),
{
    crate::text::lemma_trim_json_ws_noop(text);
}

} // verus!
