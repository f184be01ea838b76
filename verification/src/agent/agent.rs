//! An agent: a name, the inputs it perceives and the actions it may take, and
//! the JSON record under which the store keeps it.
//!
//! A record is read back only in the compact form that serde_json writes for
//! the struct (and that `Agent::to_json` writes): the fields `name`, `inputs`,
//! `actions` in that order, no whitespace, serde_json's escapes. Any other
//! spelling of the same object (whitespace, another field order, other
//! escapes, extra fields) reads as no agent here, where serde's reader for
//! the struct would accept it.

use vstd::prelude::*;
use pickledb::PickleDb;
use crate::json::{
    comma_joined, is_flat_json, is_flat_json_object, is_json_str_array, is_json_str_body, is_json_str_literal,
    json_members, lemma_json_array_is_flat, lemma_json_str_is_literal, escape_str, json_array, json_items, json_str, lemma_parse_list_body_complete,
    lemma_parse_list_body_sound, lemma_parse_str_body_complete, lemma_parse_str_body_sound,
    parse_list_body, parse_list_body_at, parse_str_body, parse_str_body_at, push_json_array,
    push_json_str,
};
use crate::store::{
    db_is_json, db_path_is_text, db_writable, db_writes_deferred, db_get_json, db_list_lens, db_lists, db_values, lemma_read_back,
    optional_value_accepted, parse_optional_value, put_json, stored_json, StoreError,
};
use crate::text::{chars_of, push_char, trim_json_ws};

verus! {

/// An agent as the store records it.
#[derive(Clone, Debug, PartialEq)]
pub struct Agent {
    pub name: String,
    pub inputs: Vec<String>,
    pub actions: Vec<String>,
}

/// The mathematical value of an agent: its name and its two lists of strings.
pub struct AgentView {
    pub name: Seq<char>,
    pub inputs: Seq<Seq<char>>,
    pub actions: Seq<Seq<char>>,
}

impl View for Agent {
    type V = AgentView;

    open spec fn view(&self) -> AgentView {
        AgentView {
            name: self.name@,
            inputs: self.inputs.deep_view(),
            actions: self.actions.deep_view(),
        }
    }
}

/// A new agent: the given name, no inputs, no actions.
pub open spec fn new_agent_view(name: Seq<char>) -> AgentView {
    AgentView { name, inputs: Seq::empty(), actions: Seq::empty() }
}

/// The agent `a` with `input` appended to its inputs.
pub open spec fn with_input(a: AgentView, input: Seq<char>) -> AgentView {
    AgentView { name: a.name, inputs: a.inputs.push(input), actions: a.actions }
}

/// Adding an input to an agent appends it after the inputs it had, and
/// leaves its name and its actions as they were.
pub proof fn law_with_input_appends(a: AgentView, x: Seq<char>)
    ensures
        with_input(a, x).name == a.name,
        with_input(a, x).actions == a.actions,
        with_input(a, x).inputs.len() == a.inputs.len() + 1,
        with_input(a, x).inputs.last() == x,
        with_input(a, x).inputs.take(a.inputs.len() as int) == a.inputs,
{
    assert(with_input(a, x).inputs.take(a.inputs.len() as int) =~= a.inputs);
}

/// Adding inputs one after another keeps all of them, in the order they
/// were added.
pub proof fn law_with_input_twice(a: AgentView, x: Seq<char>, y: Seq<char>)
    ensures
        with_input(with_input(a, x), y).inputs == a.inputs + seq![x, y],
        with_input(with_input(a, x), y).name == a.name,
        with_input(with_input(a, x), y).actions == a.actions,
{
    assert(with_input(with_input(a, x), y).inputs =~= a.inputs + seq![x, y]);
}

/// A new agent has the name it was given, no inputs and no actions, whatever
/// the name.
pub proof fn law_new_agent_is_empty(n: Seq<char>)
    ensures
        new_agent_view(n).name == n,
        new_agent_view(n).inputs.len() == 0,
        new_agent_view(n).actions.len() == 0,
{
}

/// `{"name":`
pub open spec fn name_key() -> Seq<char> {
    seq!['{', '"', 'n', 'a', 'm', 'e', '"', ':']
}

/// `,"inputs":`
pub open spec fn inputs_key() -> Seq<char> {
    seq![',', '"', 'i', 'n', 'p', 'u', 't', 's', '"', ':']
}

/// `,"actions":`
pub open spec fn actions_key() -> Seq<char> {
    seq![',', '"', 'a', 'c', 't', 'i', 'o', 'n', 's', '"', ':']
}

/// The record of an agent: the compact JSON object with its name, inputs and
/// actions in that order, as serde_json writes such a struct.
pub open spec fn agent_json(a: AgentView) -> Seq<char> {
    name_key() + json_str(a.name) + inputs_key() + json_array(a.inputs) + actions_key()
        + json_array(a.actions) + seq!['}']
}

/// The agent whose record is `t`, if `t` is the record of an agent.
pub open spec fn decode_agent(t: Seq<char>) -> Option<AgentView> {
    if exists|a: AgentView| agent_json(a) == t {
        Some(choose|a: AgentView| agent_json(a) == t)
    } else {
        None
    }
}

/// The agent that the store holds under `key`: the record stored there, read
/// as JSON and decoded. A record in any spelling other than the compact one
/// gives `None`.
pub open spec fn stored_agent(db: PickleDb, key: Seq<char>) -> Option<AgentView> {
    match stored_json(db, key) {
        Some(t) => decode_agent(t),
        None => None,
    }
}

/// Whether `t` holds `p` from position `i` on.
pub open spec fn at(t: Seq<char>, i: int, p: Seq<char>) -> bool {
    0 <= i && i + p.len() <= t.len() && t.subrange(i, i + p.len()) == p
}

/// Reads a record, piece after piece, in the order in which `agent_json`
/// writes it.
pub open spec fn parse_agent(t: Seq<char>) -> Option<AgentView> {
    if !(at(t, 0, name_key()) && 8 < t.len() && t[8] == '"') {
        None
    } else {
        match parse_str_body(t.subrange(9, t.len() as int)) {
            None => None,
            Some((name, m)) => {
                let i: int = 9 + m as int;
                if !(at(t, i, inputs_key()) && i + 10 < t.len() && t[i + 10] == '[') {
                    None
                } else {
                    match parse_list_body(t.subrange(i + 11, t.len() as int)) {
                        None => None,
                        Some((inputs, m2)) => {
                            let j: int = i + 11 + m2 as int;
                            if !(at(t, j, actions_key()) && j + 11 < t.len() && t[j + 11]
                                == '[') {
                                None
                            } else {
                                match parse_list_body(t.subrange(j + 12, t.len() as int)) {
                                    None => None,
                                    Some((actions, m3)) => {
                                        let k: int = j + 12 + m3 as int;
                                        if k + 1 == t.len() && t[k] == '}' {
                                            Some(AgentView { name, inputs, actions })
                                        } else {
                                            None
                                        }
                                    },
                                }
                            }
                        },
                    }
                }
            },
        }
    }
}

/// Reading the record of an agent gives back the agent.
#[verifier::rlimit(80)]
#[verifier::spinoff_prover]
proof fn lemma_parse_agent_complete(a: AgentView)
    ensures
        parse_agent(agent_json(a)) == Some(a),
{
    let t = agent_json(a);
    let s_name = json_str(a.name);
    let s_in = json_array(a.inputs);
    let s_act = json_array(a.actions);
    let tail1 = inputs_key() + s_in + actions_key() + s_act + seq!['}'];
    assert(t =~= name_key() + s_name + tail1);
    assert(t.subrange(0, 8) =~= name_key());
    assert(t[8] == '"');
    assert(t.subrange(9, t.len() as int) =~= escape_str(a.name) + seq!['"'] + tail1);
    lemma_parse_str_body_complete(a.name, tail1);
    let i: int = 9 + escape_str(a.name).len() as int + 1;
    assert(i == 8 + s_name.len());
    let tail2 = actions_key() + s_act + seq!['}'];
    assert(t.subrange(i as int, t.len() as int) =~= inputs_key() + s_in + tail2);
    assert(t.subrange(i as int, i + 10) =~= inputs_key());
    assert(t[i + 10] == '[');
    assert(t.subrange(i + 11, t.len() as int) =~= json_items(a.inputs) + seq![']'] + tail2);
    lemma_parse_list_body_complete(a.inputs, tail2);
    let j: int = i + 11 + json_items(a.inputs).len() as int + 1;
    assert(j == i + 10 + s_in.len());
    assert(t.subrange(j as int, t.len() as int) =~= actions_key() + s_act + seq!['}']);
    assert(t.subrange(j as int, j + 11) =~= actions_key());
    assert(t[j + 11] == '[');
    assert(t.subrange(j + 12, t.len() as int) =~= json_items(a.actions) + seq![']'] + seq![
        '}',
    ]);
    lemma_parse_list_body_complete(a.actions, seq!['}']);
    let k: int = j + 12 + json_items(a.actions).len() as int + 1;
    assert(k + 1 == t.len());
    assert(t[k as int] == '}');
}

/// What the record reader accepts is the record of what it gives.
#[verifier::rlimit(80)]
#[verifier::spinoff_prover]
proof fn lemma_parse_agent_sound(t: Seq<char>)
    requires
        parse_agent(t) is Some,
    ensures
        t == agent_json(parse_agent(t).unwrap()),
{
    let body = t.subrange(9, t.len() as int);
    lemma_parse_str_body_sound(body);
    let (name, m) = parse_str_body(body).unwrap();
    let i: int = 9 + m as int;
    let l1 = t.subrange(i + 11, t.len() as int);
    lemma_parse_list_body_sound(l1);
    let (inputs, m2) = parse_list_body(l1).unwrap();
    let j: int = i + 11 + m2 as int;
    let l2 = t.subrange(j + 12, t.len() as int);
    lemma_parse_list_body_sound(l2);
    let (actions, m3) = parse_list_body(l2).unwrap();
    let k: int = j + 12 + m3 as int;
    let a = AgentView { name, inputs, actions };
    assert(t.subrange(8, i as int) =~= json_str(name)) by {
        assert(t.subrange(8, i as int) =~= seq!['"'] + body.subrange(0, m as int));
    }
    assert(t.subrange(i + 10, j as int) =~= json_array(inputs)) by {
        assert(t.subrange(i + 10, j as int) =~= seq!['['] + l1.subrange(0, m2 as int));
    }
    assert(t.subrange(j + 11, k as int) =~= json_array(actions)) by {
        assert(t.subrange(j + 11, k as int) =~= seq!['['] + l2.subrange(0, m3 as int));
    }
    assert(t =~= t.subrange(0, 8) + t.subrange(8, i as int) + t.subrange(i as int, i + 10)
        + t.subrange(i + 10, j as int) + t.subrange(j as int, j + 11) + t.subrange(
        j + 11,
        k as int,
    ) + t.subrange(k as int, t.len() as int));
    assert(t.subrange(k as int, t.len() as int) =~= seq!['}']);
}

/// Decoding a record is reading it piece after piece.
proof fn lemma_decode_agent_is_parse(t: Seq<char>)
    ensures
        decode_agent(t) == parse_agent(t),
{
    if parse_agent(t) is Some {
        lemma_parse_agent_sound(t);
        let v = parse_agent(t).unwrap();
        assert(agent_json(v) == t);
        let w = choose|a: AgentView| agent_json(a) == t;
        lemma_parse_agent_complete(w);
    } else {
        if exists|a: AgentView| agent_json(a) == t {
            let w = choose|a: AgentView| agent_json(a) == t;
            lemma_parse_agent_complete(w);
        }
    }
}

/// The record of an agent is decoded back to the agent.
pub proof fn lemma_agent_json_roundtrip(a: AgentView)
    ensures
        decode_agent(agent_json(a)) == Some(a),
{
    lemma_parse_agent_complete(a);
    lemma_decode_agent_is_parse(agent_json(a));
}

/// Two agents with the same record are the same agent.
pub proof fn lemma_agent_json_injective(a: AgentView, b: AgentView)
    requires
        agent_json(a) == agent_json(b),
    ensures
        a == b,
{
    lemma_parse_agent_complete(a);
    lemma_parse_agent_complete(b);
}

/// `"name"`, `"inputs"` and `"actions"`, the keys of a record.
spec fn record_keys() -> Seq<Seq<char>> {
    seq![
        seq!['"', 'n', 'a', 'm', 'e', '"'],
        seq!['"', 'i', 'n', 'p', 'u', 't', 's', '"'],
        seq!['"', 'a', 'c', 't', 'i', 'o', 'n', 's', '"'],
    ]
}

/// Plain letters may stand inside a JSON string.
proof fn lemma_letters_body(t: Seq<char>)
    requires
        forall|i: int| 0 <= i < t.len() ==> 'a' <= #[trigger] t[i] && t[i] <= 'z',
    ensures
        is_json_str_body(t),
    decreases t.len(),
{
    if t.len() > 0 {
        lemma_letters_body(t.drop_first());
    }
}

/// Each key of a record is a JSON string.
proof fn lemma_record_keys_literal()
    ensures
        forall|i: int| 0 <= i < record_keys().len() ==> is_json_str_literal(#[trigger] record_keys()[i]),
{
    let ks = record_keys();
    assert forall|i: int| 0 <= i < ks.len() implies is_json_str_literal(#[trigger] ks[i]) by {
        let k = ks[i];
        lemma_letters_body(k.subrange(1, k.len() - 1));
    }
}

/// A record is its three members, separated by commas, in braces.
proof fn lemma_agent_json_members(a: AgentView)
    ensures
        agent_json(a) == seq!['{'] + comma_joined(
            json_members(record_keys(), seq![json_str(a.name), json_array(a.inputs), json_array(a.actions)]),
        ) + seq!['}'],
{
    let ms = json_members(record_keys(), seq![json_str(a.name), json_array(a.inputs), json_array(a.actions)]);
    assert(ms.drop_first() =~= seq![ms[1], ms[2]]);
    assert(ms.drop_first().drop_first() =~= seq![ms[2]]);
    assert(comma_joined(ms.drop_first().drop_first()) == ms[2]);
    assert(comma_joined(ms.drop_first()) == ms[1] + seq![','] + ms[2]);
    assert(comma_joined(ms) == ms[0] + seq![','] + (ms[1] + seq![','] + ms[2]));
    assert(agent_json(a) =~= seq!['{'] + comma_joined(ms) + seq!['}']);
}

/// A record is JSON text: an object whose members hold a string and two
/// arrays of strings.
pub proof fn lemma_agent_json_is_flat(a: AgentView)
    ensures
        is_flat_json(agent_json(a)),
{
    let keys = record_keys();
    let vals = seq![json_str(a.name), json_array(a.inputs), json_array(a.actions)];
    lemma_record_keys_literal();
    lemma_json_str_is_literal(a.name);
    lemma_json_array_is_flat(a.inputs);
    lemma_json_array_is_flat(a.actions);
    lemma_agent_json_members(a);
    assert(forall|i: int| 0 <= i < keys.len() ==> is_json_str_literal(#[trigger] keys[i]) && (
        is_json_str_literal(vals[i]) || is_json_str_array(vals[i])));
    assert(is_flat_json_object(agent_json(a)));
}

/// A record neither starts nor ends with whitespace.
pub proof fn lemma_agent_json_shape(a: AgentView)
    ensures
        agent_json(a).len() > 0,
        agent_json(a)[0] == '{',
        agent_json(a).last() == '}',
{
}

fn has_at(t: &Vec<char>, i: usize, p: &Vec<char>) -> (r: bool)
    ensures
        r == at(t@, i as int, p@),
{
    if i > t.len() || t.len() - i < p.len() {
        return false;
    }
    let mut k: usize = 0;
    while k < p.len()
        invariant
            k <= p.len(),
            i + p.len() <= t.len(),
            forall|q: int| 0 <= q < k ==> t@[i + q] == p@[q],
        decreases p.len() - k,
    {
        if t[i + k] != p[k] {
            assert(t@.subrange(i as int, i + p.len())[k as int] != p@[k as int]);
            return false;
        }
        k = k + 1;
    }
    assert(t@.subrange(i as int, i + p.len()) =~= p@);
    true
}

fn parse_agent_chars(t: &Vec<char>) -> (r: Option<Agent>)
    ensures
        match parse_agent(t@) {
            Some(v) => r matches Some(a) && a@ == v,
            None => r is None,
        },
{
    let nk = chars_of("{\"name\":");
    let ik = chars_of(",\"inputs\":");
    let ak = chars_of(",\"actions\":");
    proof {
        reveal_strlit("{\"name\":");
        reveal_strlit(",\"inputs\":");
        reveal_strlit(",\"actions\":");
        assert(nk@ =~= name_key());
        assert(ik@ =~= inputs_key());
        assert(ak@ =~= actions_key());
    }
    if !(has_at(t, 0, &nk) && 8 < t.len() && t[8] == '"') {
        return None;
    }
    match parse_str_body_at(t, 9) {
        None => None,
        Some((name, m)) => {
            let i = 9 + m;
            if !(has_at(t, i, &ik) && t.len() - i > 10 && t[i + 10] == '[') {
                return None;
            }
            match parse_list_body_at(t, i + 11) {
                None => None,
                Some((inputs, m2)) => {
                    let j = i + 11 + m2;
                    if !(has_at(t, j, &ak) && t.len() - j > 11 && t[j + 11] == '[') {
                        return None;
                    }
                    match parse_list_body_at(t, j + 12) {
                        None => None,
                        Some((actions, m3)) => {
                            let k = j + 12 + m3;
                            if t.len() - k == 1 && t[k] == '}' {
                                Some(Agent { name, inputs, actions })
                            } else {
                                None
                            }
                        },
                    }
                },
            }
        },
    }
}

impl Agent {
    /// A new agent with the given name and no inputs or actions.
    pub fn new(name: &String) -> (r: Agent)
        ensures
            r@ == new_agent_view(name@),
    {
        let r = Agent { name: name.clone(), inputs: Vec::new(), actions: Vec::new() };
        assert(r.inputs.deep_view() =~= Seq::<Seq<char>>::empty());
        assert(r.actions.deep_view() =~= Seq::<Seq<char>>::empty());
        r
    }

    /// Appends `input` to this agent's inputs.
    pub fn push_input(&mut self, input: &String)
        ensures
            final(self)@ == with_input(old(self)@, input@),
    {
        self.inputs.push(input.clone());
        assert(self.inputs.deep_view() =~= old(self).inputs.deep_view().push(input@));
    }

    /// The record of this agent, exactly as serde_json writes the struct.
    pub fn to_json(&self) -> (r: String)
        ensures
            r@ == agent_json(self@),
    {
        let mut out = String::from_str("{\"name\":");
        proof {
            reveal_strlit("{\"name\":");
            reveal_strlit(",\"inputs\":");
            reveal_strlit(",\"actions\":");
        }
        push_json_str(&mut out, self.name.as_str());
        out.append(",\"inputs\":");
        push_json_array(&mut out, &self.inputs);
        out.append(",\"actions\":");
        push_json_array(&mut out, &self.actions);
        push_char(&mut out, '}');
        assert(out@ =~= agent_json(self@));
        out
    }

    /// The agent whose record `text` is. Only the compact form that
    /// `to_json` writes is read; any other text gives `None`, also a spelling
    /// with whitespace or another field order that serde would read.
    pub fn from_json(text: &str) -> (r: Option<Agent>)
        ensures
            match decode_agent(text@) {
                Some(v) => r matches Some(a) && a@ == v,
                None => r is None,
            },
    {
        let t = chars_of(text);
        proof {
            lemma_decode_agent_is_parse(text@);
        }
        parse_agent_chars(&t)
    }

    /// Parses `json_str` as an optional JSON value: `None` when it is not
    /// JSON, or when it is `null`.
    pub fn add_input(&self, json_str: &String) -> (r: Option<serde_json::Value>)
        ensures
            r is Some <==> (optional_value_accepted(json_str@) && trim_json_ws(json_str@)
                != seq!['n', 'u', 'l', 'l']),
    {
        match parse_optional_value(json_str.as_str()) {
            Ok(v) => v,
            Err(_) => None,
        }
    }

    /// Stores this agent's record under its name, in place of whatever was
    /// stored there.
    pub fn write_agent_update(&self, db: &mut PickleDb) -> (r: Result<(), StoreError>)
        requires
            db_is_json(*old(db)),
            db_writable(*old(db)),
        ensures
            db_is_json(*final(db)),
            db_writes_deferred(*final(db)) == db_writes_deferred(*old(db)),
            db_path_is_text(*final(db)) == db_path_is_text(*old(db)),
            db_writes_deferred(*old(db)) ==> r is Ok,
            r is Ok ==> {
                &&& db_values(*final(db)) == db_values(*old(db)).insert(self.name@, agent_json(self@))
                &&& db_list_lens(*final(db)) == db_list_lens(*old(db)).remove(self.name@)
                &&& stored_agent(*final(db), self.name@) == Some(self@)
            },
            r is Err ==> db_values(*final(db)) == db_values(*old(db)) && r matches Err(
                StoreError::Db(_),
            ),
    {
        let text = self.to_json();
        proof {
            lemma_agent_json_shape(self@);
            lemma_agent_json_is_flat(self@);
        }
        let r = put_json(db, self.name.as_str(), text);
        proof {
            if r is Ok {
                lemma_read_back(*db, self.name@, agent_json(self@));
                lemma_agent_json_roundtrip(self@);
            }
        }
        r
    }
}

/// The agent that the store holds under `key`, if its record reads as one
/// (in the compact form only; see the module documentation).
pub fn read_agent(db: &PickleDb, key: &str) -> (r: Option<Agent>)
    requires
        db_is_json(*db),
    ensures
        match stored_agent(*db, key@) {
            Some(v) => r matches Some(a) && a@ == v,
            None => r is None,
        },
{
    match db_get_json(db, key) {
        None => None,
        Some(text) => Agent::from_json(text.as_str()),
    }
}

} // verus!
