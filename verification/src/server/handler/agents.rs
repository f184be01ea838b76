//! What the agent routes of the web server answer.

use vstd::prelude::*;
use pickledb::PickleDb;
use crate::agent::agent::{agent_json, read_agent, stored_agent, Agent, AgentView};
use crate::agent::util::{agents_view, collect_agents, collect_keys, collection_view, AgentCollection};
use crate::json::{comma_joined, encode_json_str, json_str};
use crate::server::responses::CreateAgentResponse;
use crate::store::{db_is_json, db_path_is_text, db_writable, db_writes_deferred, db_list_lens, db_lists, db_values, key_listing, StoreError};
use crate::text::push_char;

verus! {

/// The paging that the agent index accepts (and does not use yet).
#[derive(Debug, Default)]
pub struct Pagination {
    pub offset: Option<usize>,
    pub limit: Option<usize>,
}

/// The body of a request to create an agent.
#[derive(Debug)]
pub struct CreateAgent {
    pub name: String,
    pub inputs: Vec<String>,
    pub actions: Vec<String>,
}

/// An answer: an HTTP status and a JSON body.
#[derive(Debug)]
pub struct Reply {
    pub status: u16,
    pub body: String,
}

/// The records of `v`, separated by commas.
pub open spec fn records_items(v: Seq<AgentView>) -> Seq<char>
    decreases v.len(),
{
    if v.len() == 0 {
        Seq::empty()
    } else if v.len() == 1 {
        agent_json(v[0])
    } else {
        agent_json(v[0]) + seq![','] + records_items(v.drop_first())
    }
}

/// The JSON array of the records of `v`.
pub open spec fn records_json(v: Seq<AgentView>) -> Seq<char> {
    seq!['['] + records_items(v) + seq![']']
}

proof fn lemma_records_items_snoc(v: Seq<AgentView>, x: AgentView)
    ensures
        records_items(v.push(x)) == if v.len() == 0 {
            agent_json(x)
        } else {
            records_items(v) + seq![','] + agent_json(x)
        },
    decreases v.len(),
{
    if v.len() == 0 {
        assert(v.push(x) =~= seq![x]);
    } else if v.len() == 1 {
        assert(v.push(x).drop_first() =~= seq![x]);
        assert(records_items(seq![x]) == agent_json(x));
    } else {
        assert(v.push(x).drop_first() =~= v.drop_first().push(x));
        lemma_records_items_snoc(v.drop_first(), x);
    }
}

proof fn lemma_records_items_joined(v: Seq<AgentView>)
    ensures
        records_items(v) == comma_joined(v.map_values(|a: AgentView| agent_json(a))),
    decreases v.len(),
{
    let m = v.map_values(|a: AgentView| agent_json(a));
    if v.len() > 1 {
        lemma_records_items_joined(v.drop_first());
        assert(m.drop_first() =~= v.drop_first().map_values(|a: AgentView| agent_json(a)));
    }
}

/// The answer listing agents is the JSON array of every agent's record, in
/// order, for any number of agents; with at least one agent it holds more
/// than the brackets.
pub proof fn law_records_json_lists_every_record(v: Seq<AgentView>)
    ensures
        records_json(v) == seq!['['] + comma_joined(v.map_values(|a: AgentView| agent_json(a)))
            + seq![']'],
        v.len() > 0 ==> records_json(v).len() > 2,
{
    lemma_records_items_joined(v);
    if v.len() > 0 {
        assert(agent_json(v[0]).len() > 0) by {
            assert(agent_json(v[0])[0] == '{');
        }
        if v.len() > 1 {
            assert(records_items(v).len() >= agent_json(v[0]).len());
        }
    }
}

/// The JSON array of the agents' records, as serde_json writes the list.
pub fn agents_json(agents: &Vec<Agent>) -> (r: String)
    ensures
        r@ == records_json(agents_view(agents@)),
{
    let ghost v = agents_view(agents@);
    let mut out = String::new();
    push_char(&mut out, '[');
    let mut i: usize = 0;
    while i < agents.len()
        invariant
            i <= agents.len(),
            v == agents_view(agents@),
            out@ == seq!['['] + records_items(v.take(i as int)),
        decreases agents.len() - i,
    {
        proof {
            lemma_records_items_snoc(v.take(i as int), v[i as int]);
            assert(v.take(i as int).push(v[i as int]) =~= v.take(i as int + 1));
        }
        if i > 0 {
            push_char(&mut out, ',');
        }
        let record = agents[i].to_json();
        out.append(record.as_str());
        assert(out@ =~= seq!['['] + records_items(v.take(i as int + 1)));
        i = i + 1;
    }
    push_char(&mut out, ']');
    assert(v.take(i as int) =~= v);
    assert(out@ =~= records_json(v));
    out
}

/// The answer to a request for one agent: its record, or `Agent not found`
/// with status 400.
pub fn get_agent(agent_name: &String, db: &PickleDb) -> (r: Reply)
    requires
        db_is_json(*db),
    ensures
        match stored_agent(*db, agent_name@) {
            Some(a) => r.status == 200 && r.body@ == agent_json(a),
            None => r.status == 400 && r.body@ == json_str("Agent not found"@),
        },
{
    match read_agent(db, agent_name.as_str()) {
        Some(agent) => Reply { status: 200, body: agent.to_json() },
        None => Reply { status: 400, body: encode_json_str("Agent not found") },
    }
}

/// Every agent of the store, in the store's key order, and the keys whose
/// record is not an agent.
pub fn list_agents(db: &PickleDb) -> (r: AgentCollection)
    requires
        db_is_json(*db),
    ensures
        exists|keys: Seq<Seq<char>>|
            key_listing(*db, keys) && collection_view(r) == #[trigger] collect_keys(*db, keys),
{
    collect_agents(db)
}

/// The agent index: every agent of the store, in the store's key order, and
/// the keys whose record is not an agent. The paging is not applied.
pub fn agents_index(pagination: Option<Pagination>, db: &PickleDb) -> (r: AgentCollection)
    requires
        db_is_json(*db),
    ensures
        exists|keys: Seq<Seq<char>>|
            key_listing(*db, keys) && collection_view(r) == #[trigger] collect_keys(*db, keys),
{
    collect_agents(db)
}

/// Stores the agent that the request describes under its name, and answers
/// that one record was created.
pub fn agents_create(db: &mut PickleDb, input: CreateAgent) -> (r: Result<
    CreateAgentResponse,
    StoreError,
>)
    requires
        db_is_json(*old(db)),
        db_writable(*old(db)),
    ensures
        db_is_json(*final(db)),
        db_writes_deferred(*final(db)) == db_writes_deferred(*old(db)),
        db_path_is_text(*final(db)) == db_path_is_text(*old(db)),
        db_writes_deferred(*old(db)) ==> r is Ok,
        match r {
            Ok(resp) => {
                let a = AgentView {
                    name: input.name@,
                    inputs: input.inputs.deep_view(),
                    actions: input.actions.deep_view(),
                };
                &&& resp.records_created == 1
                &&& db_values(*final(db)) == db_values(*old(db)).insert(input.name@, agent_json(a))
                &&& db_list_lens(*final(db)) == db_list_lens(*old(db)).remove(input.name@)
                &&& stored_agent(*final(db), input.name@) == Some(a)
            },
            Err(e) => db_values(*final(db)) == db_values(*old(db)) && e is Db,
        },
{
    let agent = Agent { name: input.name, inputs: input.inputs, actions: input.actions };
    match agent.write_agent_update(db) {
        Ok(()) => Ok(CreateAgentResponse { records_created: 1 }),
        Err(e) => Err(e),
    }
}

} // verus!
