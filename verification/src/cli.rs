//! What the `agent <name> add <input>` command does to the store.

use vstd::prelude::*;
use pickledb::PickleDb;
use crate::agent::agent::{agent_json, with_input, AgentView};
use crate::agent::util::{find_in_keys, found_view, get_agent};
use crate::store::{
    db_is_json, db_path_is_text, db_writable, db_writes_deferred, db_list_lens, db_lists, db_values, key_listing, optional_value_accepted, parse_optional_value, StoreError,
};
use crate::text::trim_json_ws;

verus! {

/// How the command ended.
#[derive(Debug)]
pub enum CommandOutcome {
    /// No agent of that name was found.
    AgentNotFound,
    /// The record under this key is not an agent.
    BadRecord(String),
    /// The input is not JSON.
    InputRejected(serde_json::Error),
    /// The input is JSON `null`: nothing to add.
    InputIsNull,
    /// The input was added to the agent and its record written back.
    Updated,
}

/// What the command does, given the result of the search for the agent.
pub open spec fn command_effect(
    before: PickleDb,
    after: PickleDb,
    found: Result<Option<AgentView>, Seq<char>>,
    input: Seq<char>,
    r: Result<CommandOutcome, StoreError>,
) -> bool {
    match found {
        Err(k) => r matches Ok(CommandOutcome::BadRecord(rk)) && rk@ == k && after == before,
        Ok(None) => r matches Ok(CommandOutcome::AgentNotFound) && after == before,
        Ok(Some(a)) => if !optional_value_accepted(input) {
            r matches Ok(CommandOutcome::InputRejected(_)) && after == before
        } else if trim_json_ws(input) == seq!['n', 'u', 'l', 'l'] {
            r matches Ok(CommandOutcome::InputIsNull) && after == before
        } else {
            let updated = with_input(a, input);
            (db_writes_deferred(before) ==> r matches Ok(
                CommandOutcome::Updated,
            )) && match r {
                Ok(CommandOutcome::Updated) => {
                    &&& db_values(after) == db_values(before).insert(a.name, agent_json(updated))
                    &&& db_list_lens(after) == db_list_lens(before).remove(a.name)
                },
                Err(_) => db_values(after) == db_values(before),
                _ => false,
            }
        },
    }
}

/// Finds the agent named `agent_name`, parses `input` as JSON, and when it is
/// a value adds `input` to the agent's inputs and writes the agent's record
/// back under its name.
pub fn handle_agent_command(agent_name: &String, input: &String, db: &mut PickleDb) -> (r: Result<
    CommandOutcome,
    StoreError,
>)
    requires
        db_is_json(*old(db)),
        db_writable(*old(db)),
    ensures
        db_is_json(*final(db)),
        db_writes_deferred(*final(db)) == db_writes_deferred(*old(db)),
        db_path_is_text(*final(db)) == db_path_is_text(*old(db)),
        exists|keys: Seq<Seq<char>>|
            key_listing(*old(db), keys) && command_effect(
                *old(db),
                *final(db),
                #[trigger] find_in_keys(*old(db), keys, agent_name@),
                input@,
                r,
            ),
{
    let found = get_agent(agent_name, db);
    let ghost keys = choose|keys: Seq<Seq<char>>|
        key_listing(*old(db), keys) && found_view(found) == #[trigger] find_in_keys(
            *old(db),
            keys,
            agent_name@,
        );
    let r = match found {
        Err(k) => Ok(CommandOutcome::BadRecord(k)),
        Ok(None) => Ok(CommandOutcome::AgentNotFound),
        Ok(Some(agent)) => match parse_optional_value(input.as_str()) {
            Err(e) => Ok(CommandOutcome::InputRejected(e)),
            Ok(None) => Ok(CommandOutcome::InputIsNull),
            Ok(Some(_)) => {
                let mut agent = agent;
                agent.push_input(input);
                match agent.write_agent_update(db) {
                    Ok(()) => Ok(CommandOutcome::Updated),
                    Err(e) => Err(e),
                }
            },
        },
    };
    assert(command_effect(*old(db), *db, find_in_keys(*old(db), keys, agent_name@), input@, r));
    r
}

} // verus!
