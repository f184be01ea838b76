//! The agent registry: adding, removing, finding and listing the agents that
//! the store holds, each under its name.

use vstd::prelude::*;
use pickledb::PickleDb;
use crate::agent::agent::{
    agent_json, lemma_agent_json_roundtrip, lemma_agent_json_is_flat, lemma_agent_json_shape, new_agent_view, read_agent,
    stored_agent, Agent, AgentView,
};
use crate::store::{
    db_is_json, db_path_is_text, db_writable, db_writes_deferred, db_exists, db_get_all, db_list_lens, db_lists, db_rem, db_values, holds_key,
    key_listing, lemma_read_back, put_json, StoreError,
};

verus! {

/// The mathematical values of a sequence of agents.
pub open spec fn agents_view(v: Seq<Agent>) -> Seq<AgentView> {
    v.map_values(|a: Agent| a@)
}

/// What `add_agent` did.
#[derive(Debug, PartialEq, Eq)]
pub enum AddOutcome {
    /// A new agent was stored under the name.
    Added,
    /// Something was already stored under the name; nothing changed.
    AlreadyExists,
}

/// What `rm_agent` did.
#[derive(Debug, PartialEq, Eq)]
pub enum RemoveOutcome {
    /// What was stored under the name was removed.
    Removed,
    /// Nothing was stored under the name; nothing changed.
    NotFound,
}

/// Whether anything is stored under `name`.
pub fn agent_exists(db: &PickleDb, name: &String) -> (r: bool)
    ensures
        r == holds_key(*db, name@),
{
    db_exists(db, name.as_str())
}

/// Adds a new agent, with no inputs and no actions, under `name`, unless
/// something is already stored there.
pub fn add_agent(name: &String, db: &mut PickleDb) -> (r: Result<AddOutcome, StoreError>)
    requires
        db_is_json(*old(db)),
        db_writable(*old(db)),
    ensures
        db_is_json(*final(db)),
        db_writes_deferred(*final(db)) == db_writes_deferred(*old(db)),
        db_path_is_text(*final(db)) == db_path_is_text(*old(db)),
        !holds_key(*old(db), name@) && db_writes_deferred(*old(db)) ==> r matches Ok(
            AddOutcome::Added,
        ),
        holds_key(*old(db), name@) ==> (r matches Ok(AddOutcome::AlreadyExists) && *final(db)
            == *old(db)),
        !holds_key(*old(db), name@) ==> match r {
            Ok(AddOutcome::Added) => {
                &&& db_values(*final(db)) == db_values(*old(db)).insert(
                    name@,
                    agent_json(new_agent_view(name@)),
                )
                &&& db_list_lens(*final(db)) == db_list_lens(*old(db))
                &&& stored_agent(*final(db), name@) == Some(new_agent_view(name@))
            },
            Ok(AddOutcome::AlreadyExists) => false,
            Err(StoreError::Json(_)) => false,
            Err(StoreError::Db(_)) => db_values(*final(db)) == db_values(*old(db)) && db_lists(
                *final(db),
            ) == db_lists(*old(db)),
        },
{
    if agent_exists(db, name) {
        return Ok(AddOutcome::AlreadyExists);
    }
    let agent = Agent::new(name);
    let text = agent.to_json();
    proof {
        lemma_agent_json_shape(agent@);
        lemma_agent_json_is_flat(agent@);
        assert(db_lists(*db).remove(name@) =~= db_lists(*db));
    }
    match put_json(db, name.as_str(), text) {
        Ok(()) => {
            proof {
                lemma_read_back(*db, name@, agent_json(agent@));
                lemma_agent_json_roundtrip(agent@);
            }
            Ok(AddOutcome::Added)
        },
        Err(e) => Err(e),
    }
}

/// Removes what is stored under `name`, if anything is.
pub fn rm_agent(name: &String, db: &mut PickleDb) -> (r: Result<
    RemoveOutcome,
    pickledb::error::Error,
>)
    requires
        db_writable(*old(db)),
    ensures
        db_writes_deferred(*final(db)) == db_writes_deferred(*old(db)),
        db_path_is_text(*final(db)) == db_path_is_text(*old(db)),
        holds_key(*old(db), name@) && db_writes_deferred(*old(db)) ==> r matches Ok(
            RemoveOutcome::Removed,
        ),
        !holds_key(*old(db), name@) ==> (r matches Ok(RemoveOutcome::NotFound) && *final(db)
            == *old(db)),
        holds_key(*old(db), name@) ==> match r {
            Ok(RemoveOutcome::Removed) => {
                &&& db_values(*final(db)) == db_values(*old(db)).remove(name@)
                &&& db_list_lens(*final(db)) == db_list_lens(*old(db)).remove(name@)
                &&& !holds_key(*final(db), name@)
            },
            Ok(RemoveOutcome::NotFound) => false,
            Err(_) => db_list_lens(*final(db)) == db_list_lens(*old(db)) && (db_values(*final(db))
                == db_values(*old(db)) || db_values(*final(db)) == db_values(*old(db)).remove(
                name@,
            )),
        },
{
    if !agent_exists(db, name) {
        return Ok(RemoveOutcome::NotFound);
    }
    match db_rem(db, name.as_str()) {
        Ok(_) => Ok(RemoveOutcome::Removed),
        Err(e) => Err(e),
    }
}

/// The search that `get_agent` makes through `keys`, in order: the first
/// agent named `name`, or the first key whose record is not an agent, or
/// nothing when every key holds an agent of another name.
pub open spec fn find_in_keys(db: PickleDb, keys: Seq<Seq<char>>, name: Seq<char>) -> Result<
    Option<AgentView>,
    Seq<char>,
>
    decreases keys.len(),
{
    if keys.len() == 0 {
        Ok(None)
    } else {
        match stored_agent(db, keys[0]) {
            None => Err(keys[0]),
            Some(a) => if a.name == name {
                Ok(Some(a))
            } else {
                find_in_keys(db, keys.drop_first(), name)
            },
        }
    }
}

/// The mathematical value of a search result.
pub open spec fn found_view(r: Result<Option<Agent>, String>) -> Result<
    Option<AgentView>,
    Seq<char>,
> {
    match r {
        Ok(Some(a)) => Ok(Some(a@)),
        Ok(None) => Ok(None),
        Err(k) => Err(k@),
    }
}

/// Looks through `keys` in order for the agent named `name`; stops with the
/// key at the first record that is not an agent.
pub fn find_agent_in(db: &PickleDb, keys: &Vec<String>, name: &String) -> (r: Result<
    Option<Agent>,
    String,
>)
    requires
        db_is_json(*db),
    ensures
        found_view(r) == find_in_keys(*db, keys.deep_view(), name@),
{
    let mut i: usize = 0;
    assert(keys.deep_view().skip(0) =~= keys.deep_view());
    while i < keys.len()
        invariant
            i <= keys.len(),
            db_is_json(*db),
            find_in_keys(*db, keys.deep_view().skip(i as int), name@) == find_in_keys(
                *db,
                keys.deep_view(),
                name@,
            ),
        decreases keys.len() - i,
    {
        let ghost rest = keys.deep_view().skip(i as int);
        assert(rest[0] == keys[i as int]@);
        assert(rest.drop_first() =~= keys.deep_view().skip(i + 1));
        match read_agent(db, keys[i].as_str()) {
            None => {
                return Err(keys[i].clone());
            },
            Some(a) => {
                if a.name == *name {
                    return Ok(Some(a));
                }
            },
        }
        i = i + 1;
    }
    assert(keys.deep_view().skip(i as int).len() == 0);
    Ok(None)
}

/// Finds the agent named `name` by going through every key of the store. The
/// store's key order decides which agent comes first, and whether a record
/// that is not an agent is met first; then its key is the error.
pub fn get_agent(name: &String, db: &mut PickleDb) -> (r: Result<Option<Agent>, String>)
    requires
        db_is_json(*old(db)),
    ensures
        *final(db) == *old(db),
        exists|keys: Seq<Seq<char>>|
            key_listing(*old(db), keys) && found_view(r) == #[trigger] find_in_keys(
                *old(db),
                keys,
                name@,
            ),
{
    let keys = db_get_all(db);
    find_agent_in(db, &keys, name)
}

/// The agents met by a strict walk through `keys`, and the first key whose
/// record is not an agent, where the walk stops.
pub open spec fn scan_keys(db: PickleDb, keys: Seq<Seq<char>>) -> (Seq<AgentView>, Option<
    Seq<char>,
>)
    decreases keys.len(),
{
    if keys.len() == 0 {
        (Seq::empty(), None)
    } else {
        match stored_agent(db, keys[0]) {
            None => (Seq::empty(), Some(keys[0])),
            Some(a) => {
                let (rest, bad) = scan_keys(db, keys.drop_first());
                (seq![a] + rest, bad)
            },
        }
    }
}

/// A strict walk meets, in key order, the agent under each key before the
/// first key that does not hold an agent, and stops at that key: with `n` the
/// index of that key (or the number of keys when every key holds an agent),
/// it gives `n` agents, the `i`-th the one stored under the `i`-th key.
pub proof fn law_scan_stops_at_first_non_agent(db: PickleDb, keys: Seq<Seq<char>>, n: int)
    requires
        0 <= n <= keys.len(),
        forall|i: int| 0 <= i < n ==> #[trigger] stored_agent(db, keys[i]) is Some,
        n < keys.len() ==> stored_agent(db, keys[n]) is None,
    ensures
        scan_keys(db, keys).0.len() == n,
        forall|i: int| 0 <= i < n ==> #[trigger] scan_keys(db, keys).0[i] == stored_agent(
            db,
            keys[i],
        ).unwrap(),
        scan_keys(db, keys).1 == if n < keys.len() {
            Some(keys[n])
        } else {
            None
        },
    decreases keys.len(),
{
    if keys.len() > 0 && n > 0 {
        let tail = keys.drop_first();
        assert(stored_agent(db, keys[0]) is Some);
        assert forall|i: int| 0 <= i < n - 1 implies #[trigger] stored_agent(db, tail[i]) is Some by {
            assert(tail[i] == keys[i + 1]);
            assert(stored_agent(db, keys[i + 1]) is Some);
        }
        if n - 1 < tail.len() {
            assert(tail[n - 1] == keys[n]);
        }
        law_scan_stops_at_first_non_agent(db, tail, n - 1);
        let (rest, bad) = scan_keys(db, tail);
        let a = stored_agent(db, keys[0]).unwrap();
        assert(scan_keys(db, keys).0 == seq![a] + rest);
        assert forall|i: int| 0 <= i < n implies #[trigger] scan_keys(db, keys).0[i]
            == stored_agent(db, keys[i]).unwrap() by {
            if i > 0 {
                assert(scan_keys(db, keys).0[i] == rest[i - 1]);
                assert(rest[i - 1] == stored_agent(db, tail[i - 1]).unwrap());
                assert(tail[i - 1] == keys[i]);
            }
        }
    }
}

/// The agents met by a lenient walk through `keys`, and the keys skipped
/// because their record is not an agent.
pub open spec fn collect_keys(db: PickleDb, keys: Seq<Seq<char>>) -> (Seq<AgentView>, Seq<
    Seq<char>,
>)
    decreases keys.len(),
{
    if keys.len() == 0 {
        (Seq::empty(), Seq::empty())
    } else {
        let (rest, skipped) = collect_keys(db, keys.drop_first());
        match stored_agent(db, keys[0]) {
            None => (rest, seq![keys[0]] + skipped),
            Some(a) => (seq![a] + rest, skipped),
        }
    }
}

/// The agents of a strict walk, and the key where it stopped, if it did.
pub struct AgentScan {
    pub agents: Vec<Agent>,
    pub bad_key: Option<String>,
}

/// The mathematical value of a strict walk.
pub open spec fn scan_view(s: AgentScan) -> (Seq<AgentView>, Option<Seq<char>>) {
    (
        agents_view(s.agents@),
        match s.bad_key {
            Some(k) => Some(k@),
            None => None,
        },
    )
}

/// The agents of a lenient walk, and the keys it skipped.
pub struct AgentCollection {
    pub agents: Vec<Agent>,
    pub skipped: Vec<String>,
}

/// The mathematical value of a lenient walk.
pub open spec fn collection_view(c: AgentCollection) -> (Seq<AgentView>, Seq<Seq<char>>) {
    (agents_view(c.agents@), c.skipped.deep_view())
}

/// Walks through `keys` in order, collecting agents; stops at the first key
/// whose record is not an agent.
pub fn scan_agents_in(db: &PickleDb, keys: &Vec<String>) -> (r: AgentScan)
    requires
        db_is_json(*db),
    ensures
        scan_view(r) == scan_keys(*db, keys.deep_view()),
{
    let mut agents: Vec<Agent> = Vec::new();
    let mut i: usize = 0;
    proof {
        assert(keys.deep_view().skip(0) =~= keys.deep_view());
        let (rest, bad) = scan_keys(*db, keys.deep_view());
        assert(agents_view(agents@) + rest =~= rest);
    }
    while i < keys.len()
        invariant
            i <= keys.len(),
            db_is_json(*db),
            ({
                let (rest, bad) = scan_keys(*db, keys.deep_view().skip(i as int));
                (agents_view(agents@) + rest, bad)
            }) == scan_keys(*db, keys.deep_view()),
        decreases keys.len() - i,
    {
        let ghost rest = keys.deep_view().skip(i as int);
        let ghost before = agents_view(agents@);
        assert(rest[0] == keys[i as int]@);
        assert(rest.drop_first() =~= keys.deep_view().skip(i + 1));
        match read_agent(db, keys[i].as_str()) {
            None => {
                proof {
                    assert(before + Seq::<AgentView>::empty() =~= before);
                }
                return AgentScan { agents, bad_key: Some(keys[i].clone()) };
            },
            Some(a) => {
                agents.push(a);
                proof {
                    let (r2, b2) = scan_keys(*db, keys.deep_view().skip(i + 1));
                    assert(agents_view(agents@) =~= before.push(a@));
                    assert(before.push(a@) + r2 =~= before + (seq![a@] + r2));
                }
            },
        }
        i = i + 1;
    }
    proof {
        assert(keys.deep_view().skip(i as int).len() == 0);
        assert(agents_view(agents@) + Seq::<AgentView>::empty() =~= agents_view(agents@));
    }
    AgentScan { agents, bad_key: None }
}

/// Walks through `keys` in order, collecting agents and skipping the keys
/// whose record is not an agent.
pub fn collect_agents_in(db: &PickleDb, keys: &Vec<String>) -> (r: AgentCollection)
    requires
        db_is_json(*db),
    ensures
        collection_view(r) == collect_keys(*db, keys.deep_view()),
{
    let mut agents: Vec<Agent> = Vec::new();
    let mut skipped: Vec<String> = Vec::new();
    let mut i: usize = 0;
    proof {
        assert(keys.deep_view().skip(0) =~= keys.deep_view());
        let (rest, sk) = collect_keys(*db, keys.deep_view());
        assert(agents_view(agents@) + rest =~= rest);
        assert(skipped.deep_view() + sk =~= sk);
    }
    while i < keys.len()
        invariant
            i <= keys.len(),
            db_is_json(*db),
            ({
                let (rest, sk) = collect_keys(*db, keys.deep_view().skip(i as int));
                (agents_view(agents@) + rest, skipped.deep_view() + sk)
            }) == collect_keys(*db, keys.deep_view()),
        decreases keys.len() - i,
    {
        let ghost rest = keys.deep_view().skip(i as int);
        let ghost before_a = agents_view(agents@);
        let ghost before_s = skipped.deep_view();
        assert(rest[0] == keys[i as int]@);
        assert(rest.drop_first() =~= keys.deep_view().skip(i + 1));
        let ghost (r2, s2) = collect_keys(*db, keys.deep_view().skip(i + 1));
        match read_agent(db, keys[i].as_str()) {
            None => {
                skipped.push(keys[i].clone());
                proof {
                    assert(skipped.deep_view() =~= before_s.push(keys[i as int]@));
                    assert(before_s.push(keys[i as int]@) + s2 =~= before_s + (seq![
                        keys[i as int]@,
                    ] + s2));
                }
            },
            Some(a) => {
                agents.push(a);
                proof {
                    assert(agents_view(agents@) =~= before_a.push(a@));
                    assert(before_a.push(a@) + r2 =~= before_a + (seq![a@] + r2));
                }
            },
        }
        i = i + 1;
    }
    proof {
        assert(keys.deep_view().skip(i as int).len() == 0);
        assert(agents_view(agents@) + Seq::<AgentView>::empty() =~= agents_view(agents@));
        assert(skipped.deep_view() + Seq::<Seq<char>>::empty() =~= skipped.deep_view());
    }
    AgentCollection { agents, skipped }
}

/// Lists every agent of the store, in the store's key order, stopping at the
/// first key whose record is not an agent.
pub fn ls_agents(db: &PickleDb) -> (r: AgentScan)
    requires
        db_is_json(*db),
    ensures
        exists|keys: Seq<Seq<char>>|
            key_listing(*db, keys) && scan_view(r) == #[trigger] scan_keys(*db, keys),
{
    let keys = db_get_all(db);
    scan_agents_in(db, &keys)
}

/// Collects every agent of the store, in the store's key order, skipping the
/// keys whose record is not an agent.
pub fn collect_agents(db: &PickleDb) -> (r: AgentCollection)
    requires
        db_is_json(*db),
    ensures
        exists|keys: Seq<Seq<char>>|
            key_listing(*db, keys) && collection_view(r) == #[trigger] collect_keys(*db, keys),
{
    let keys = db_get_all(db);
    collect_agents_in(db, &keys)
}

/// Whatever `get_agent` finds is an agent of the name it was asked for, held
/// under one of the keys it went through.
pub proof fn law_found_agent_has_name(db: PickleDb, keys: Seq<Seq<char>>, name: Seq<char>)
    requires
        find_in_keys(db, keys, name) is Ok,
        find_in_keys(db, keys, name)->Ok_0 is Some,
    ensures
        ({
            let a = find_in_keys(db, keys, name)->Ok_0.unwrap();
            a.name == name && exists|i: int|
                0 <= i < keys.len() && stored_agent(db, #[trigger] keys[i]) == Some(a)
        }),
    decreases keys.len(),
{
    let a = stored_agent(db, keys[0]).unwrap();
    if a.name == name {
        assert(stored_agent(db, keys[0]) == Some(a));
    } else {
        law_found_agent_has_name(db, keys.drop_first(), name);
        let b = find_in_keys(db, keys, name)->Ok_0.unwrap();
        let i = choose|i: int|
            0 <= i < keys.drop_first().len() && stored_agent(db, #[trigger] keys.drop_first()[i])
                == Some(b);
        assert(keys[i + 1] == keys.drop_first()[i]);
    }
}

/// When every key of the walk holds an agent, `get_agent` finds an agent of
/// the asked name exactly when one is held under one of the keys.
pub proof fn law_find_when_all_agents(db: PickleDb, keys: Seq<Seq<char>>, name: Seq<char>)
    requires
        forall|i: int| 0 <= i < keys.len() ==> (#[trigger] stored_agent(db, keys[i])) is Some,
    ensures
        find_in_keys(db, keys, name) is Ok,
        find_in_keys(db, keys, name)->Ok_0 is Some <==> exists|i: int|
            0 <= i < keys.len() && (#[trigger] stored_agent(db, keys[i])).unwrap().name == name,
    decreases keys.len(),
{
    if keys.len() > 0 {
        assert(stored_agent(db, keys[0]) is Some);
        let rest = keys.drop_first();
        assert forall|i: int| 0 <= i < rest.len() implies (#[trigger] stored_agent(db, rest[i])) is Some by {
            assert(rest[i] == keys[i + 1]);
        }
        law_find_when_all_agents(db, rest, name);
        if exists|i: int| 0 <= i < keys.len() && (#[trigger] stored_agent(db, keys[i])).unwrap().name == name {
            let i = choose|i: int| 0 <= i < keys.len() && (#[trigger] stored_agent(db, keys[i])).unwrap().name == name;
            if i > 0 {
                assert(rest[i - 1] == keys[i]);
            }
        }
        if exists|i: int| 0 <= i < rest.len() && (#[trigger] stored_agent(db, rest[i])).unwrap().name == name {
            let i = choose|i: int| 0 <= i < rest.len() && (#[trigger] stored_agent(db, rest[i])).unwrap().name == name;
            assert(rest[i] == keys[i + 1]);
        }
    }
}

/// When every key of the walk holds an agent, the strict walk and the lenient
/// walk both give every agent, in the order of the keys, and stop nowhere.
pub proof fn law_walks_when_all_agents(db: PickleDb, keys: Seq<Seq<char>>)
    requires
        forall|i: int| 0 <= i < keys.len() ==> (#[trigger] stored_agent(db, keys[i])) is Some,
    ensures
        scan_keys(db, keys).1 is None,
        collect_keys(db, keys).1.len() == 0,
        scan_keys(db, keys).0 == collect_keys(db, keys).0,
        scan_keys(db, keys).0.len() == keys.len(),
        forall|i: int|
            0 <= i < keys.len() ==> scan_keys(db, keys).0[i] == (#[trigger] stored_agent(
                db,
                keys[i],
            )).unwrap(),
    decreases keys.len(),
{
    if keys.len() > 0 {
        assert(stored_agent(db, keys[0]) is Some);
        let rest = keys.drop_first();
        assert forall|i: int| 0 <= i < rest.len() implies (#[trigger] stored_agent(db, rest[i])) is Some by {
            assert(rest[i] == keys[i + 1]);
        }
        law_walks_when_all_agents(db, rest);
        assert forall|i: int| 0 <= i < keys.len() implies scan_keys(db, keys).0[i] == (
        #[trigger] stored_agent(db, keys[i])).unwrap() by {
            if i > 0 {
                assert(rest[i - 1] == keys[i]);
            }
        }
    }
}

/// An empty store lists no agents and no keys, whatever walk is made.
pub proof fn law_empty_store_lists_nothing(db: PickleDb, keys: Seq<Seq<char>>)
    requires
        db_values(db).dom().is_empty(),
        db_lists(db).is_empty(),
        key_listing(db, keys),
    ensures
        keys.len() == 0,
        scan_keys(db, keys) == (Seq::<AgentView>::empty(), None::<Seq<char>>),
        collect_keys(db, keys) == (Seq::<AgentView>::empty(), Seq::<Seq<char>>::empty()),
{
    let n = choose|n: int|
        0 <= n <= keys.len() && #[trigger] keys.take(n).no_duplicates() && keys.take(n).to_set()
            == db_values(db).dom() && keys.skip(n).no_duplicates() && keys.skip(n).to_set()
            == db_lists(db);
    if keys.len() > 0 {
        if n > 0 {
            assert(keys.take(n)[0] == keys[0]);
            assert(keys.take(n).contains(keys[0]));
            assert(keys.take(n).to_set().contains(keys[0]));
            assert(db_values(db).dom().contains(keys[0]));
        } else {
            assert(keys.skip(n).contains(keys.skip(n)[0]));
            assert(keys.skip(n).to_set().contains(keys.skip(n)[0]));
            assert(db_lists(db).contains(keys.skip(n)[0]));
        }
    }
}

/// Removing an agent just added, under a name that held nothing, gives back
/// the store as it was before the addition.
pub proof fn law_rm_undoes_add(
    before: PickleDb,
    added: PickleDb,
    removed: PickleDb,
    name: Seq<char>,
    record: Seq<char>,
)
    requires
        !holds_key(before, name),
        db_values(added) == db_values(before).insert(name, record),
        db_lists(added) == db_lists(before),
        db_values(removed) == db_values(added).remove(name),
        db_lists(removed) == db_lists(added).remove(name),
    ensures
        db_values(removed) == db_values(before),
        db_lists(removed) == db_lists(before),
{
    assert(db_values(removed) =~= db_values(before));
    assert(db_lists(removed) =~= db_lists(before));
}

/// Once an agent has been added under a name, the name is held: adding it
/// again changes nothing.
pub proof fn law_add_then_held(before: PickleDb, added: PickleDb, name: Seq<char>, record: Seq<char>)
    requires
        db_values(added) == db_values(before).insert(name, record),
    ensures
        holds_key(added, name),
{
}

/// When every key of the walk holds an agent, and the agents named `name` are
/// all `a`, and one of them is held, the search finds `a`.
proof fn lemma_find_unique(db: PickleDb, keys: Seq<Seq<char>>, name: Seq<char>, a: AgentView)
    requires
        forall|i: int| 0 <= i < keys.len() ==> (#[trigger] stored_agent(db, keys[i])) is Some,
        forall|i: int|
            0 <= i < keys.len() && (#[trigger] stored_agent(db, keys[i])).unwrap().name == name
                ==> stored_agent(db, keys[i]) == Some(a),
        exists|i: int| 0 <= i < keys.len() && #[trigger] stored_agent(db, keys[i]) == Some(a),
        a.name == name,
    ensures
        find_in_keys(db, keys, name) == Ok::<Option<AgentView>, Seq<char>>(Some(a)),
    decreases keys.len(),
{
    assert(stored_agent(db, keys[0]) is Some);
    let b = stored_agent(db, keys[0]).unwrap();
    if b.name != name {
        let rest = keys.drop_first();
        assert forall|i: int| 0 <= i < rest.len() implies (#[trigger] stored_agent(db, rest[i])) is Some by {
            assert(rest[i] == keys[i + 1]);
        }
        assert forall|i: int|
            0 <= i < rest.len() && (#[trigger] stored_agent(db, rest[i])).unwrap().name == name
            implies stored_agent(db, rest[i]) == Some(a) by {
            assert(rest[i] == keys[i + 1]);
        }
        let j = choose|i: int| 0 <= i < keys.len() && #[trigger] stored_agent(db, keys[i]) == Some(a);
        assert(j != 0);
        assert(rest[j - 1] == keys[j]);
        lemma_find_unique(db, rest, name, a);
    }
}

/// An agent just added under a name that no stored agent bears, in a store
/// where every key holds an agent, is what `get_agent` then finds.
pub proof fn law_added_agent_is_found(
    before: PickleDb,
    after: PickleDb,
    keys: Seq<Seq<char>>,
    name: Seq<char>,
)
    requires
        forall|k: Seq<char>|
            #[trigger] holds_key(before, k) ==> stored_agent(before, k) is Some
                && stored_agent(before, k).unwrap().name != name,
        db_values(after) == db_values(before).insert(name, agent_json(new_agent_view(name))),
        db_lists(after) == db_lists(before),
        stored_agent(after, name) == Some(new_agent_view(name)),
        key_listing(after, keys),
    ensures
        find_in_keys(after, keys, name) == Ok::<Option<AgentView>, Seq<char>>(
            Some(new_agent_view(name)),
        ),
{
    let a = new_agent_view(name);
    let n = choose|n: int|
        0 <= n <= keys.len() && #[trigger] keys.take(n).no_duplicates() && keys.take(n).to_set()
            == db_values(after).dom() && keys.skip(n).no_duplicates() && keys.skip(n).to_set()
            == db_lists(after);
    assert forall|i: int| 0 <= i < keys.len() implies holds_key(after, #[trigger] keys[i]) by {
        if i < n {
            assert(keys.take(n)[i] == keys[i]);
            assert(keys.take(n).to_set().contains(keys[i]));
        } else {
            assert(keys.skip(n)[i - n] == keys[i]);
            assert(keys.skip(n).to_set().contains(keys[i]));
        }
    }
    assert forall|k: Seq<char>| holds_key(after, k) && k != name implies stored_agent(after, k)
        == stored_agent(before, k) && holds_key(before, k) by {
        if db_values(after).contains_key(k) {
            assert(db_values(before).contains_key(k));
        } else {
            assert(db_lists(before).contains(k));
        }
        assert(holds_key(before, k));
        assert(stored_agent(before, k) is Some);
        assert(db_values(before).contains_key(k));
        assert(db_values(after)[k] == db_values(before)[k]);
    }
    assert forall|i: int| 0 <= i < keys.len() implies (#[trigger] stored_agent(after, keys[i])) is Some by {
        assert(holds_key(after, keys[i]));
    }
    assert forall|i: int|
        0 <= i < keys.len() && (#[trigger] stored_agent(after, keys[i])).unwrap().name == name
        implies stored_agent(after, keys[i]) == Some(a) by {
        assert(holds_key(after, keys[i]));
        if keys[i] != name {
            assert(stored_agent(before, keys[i]).unwrap().name != name);
        }
    }
    assert(db_values(after).contains_key(name));
    assert(keys.take(n).to_set().contains(name));
    let j = choose|j: int| 0 <= j < keys.take(n).len() && keys.take(n)[j] == name;
    assert(keys[j] == name);
    assert(stored_agent(after, keys[j]) == Some(a));
    lemma_find_unique(after, keys, name, a);
}

/// How many times `v` occurs in `s`.
pub open spec fn occurrences(s: Seq<AgentView>, v: AgentView) -> nat
    decreases s.len(),
{
    if s.len() == 0 {
        0
    } else {
        (if s[0] == v {
            1nat
        } else {
            0nat
        }) + occurrences(s.drop_first(), v)
    }
}

/// How many of `keys` hold the agent `v`.
pub open spec fn count_holding(db: PickleDb, keys: Seq<Seq<char>>, v: AgentView) -> nat
    decreases keys.len(),
{
    if keys.len() == 0 {
        0
    } else {
        (if stored_agent(db, keys[0]) == Some(v) {
            1nat
        } else {
            0nat
        }) + count_holding(db, keys.drop_first(), v)
    }
}

/// The keys of `s` under which the store holds the agent `v`.
pub open spec fn holders(db: PickleDb, v: AgentView, s: Set<Seq<char>>) -> Set<Seq<char>> {
    s.filter(|k: Seq<char>| stored_agent(db, k) == Some(v))
}

/// How many times a walk through any listing of the store's keys meets the
/// agent `v`: once for each pair holding it, and once more for each of
/// those keys that also names a list.
pub open spec fn agent_multiplicity(db: PickleDb, v: AgentView) -> nat {
    holders(db, v, db_values(db).dom()).len() + holders(db, v, db_lists(db)).len()
}

proof fn lemma_collect_counts(db: PickleDb, keys: Seq<Seq<char>>, v: AgentView)
    ensures
        occurrences(collect_keys(db, keys).0, v) == count_holding(db, keys, v),
    decreases keys.len(),
{
    if keys.len() > 0 {
        lemma_collect_counts(db, keys.drop_first(), v);
        let rest = collect_keys(db, keys.drop_first()).0;
        match stored_agent(db, keys[0]) {
            None => {},
            Some(a) => {
                assert((seq![a] + rest).drop_first() =~= rest);
                assert((seq![a] + rest)[0] == a);
            },
        }
    }
}

proof fn lemma_count_concat(db: PickleDb, a: Seq<Seq<char>>, b: Seq<Seq<char>>, v: AgentView)
    ensures
        count_holding(db, a + b, v) == count_holding(db, a, v) + count_holding(db, b, v),
    decreases a.len(),
{
    if a.len() == 0 {
        assert(a + b =~= b);
    } else {
        assert((a + b).drop_first() =~= a.drop_first() + b);
        assert((a + b)[0] == a[0]);
        lemma_count_concat(db, a.drop_first(), b, v);
    }
}

proof fn lemma_count_no_dup(db: PickleDb, a: Seq<Seq<char>>, v: AgentView)
    requires
        a.no_duplicates(),
    ensures
        count_holding(db, a, v) == holders(db, v, a.to_set()).len(),
        holders(db, v, a.to_set()).finite(),
    decreases a.len(),
{
    broadcast use vstd::seq_lib::seq_to_set_is_finite;
    broadcast use vstd::set::group_set_axioms;

    if a.len() == 0 {
        assert(holders(db, v, a.to_set()) =~= Set::<Seq<char>>::empty());
    } else {
        let x = a[0];
        let r = a.drop_first();
        assert(r.no_duplicates());
        lemma_count_no_dup(db, r, v);
        assert(a.to_set() =~= r.to_set().insert(x)) by {
            assert forall|k: Seq<char>| a.to_set().contains(k) implies r.to_set().insert(x).contains(k) by {
                let i = choose|i: int| 0 <= i < a.len() && a[i] == k;
                if i > 0 {
                    assert(r[i - 1] == k);
                }
            }
            assert forall|k: Seq<char>| r.to_set().insert(x).contains(k) implies a.to_set().contains(k) by {
                if k != x {
                    let i = choose|i: int| 0 <= i < r.len() && r[i] == k;
                    assert(a[i + 1] == k);
                } else {
                    assert(a[0] == k);
                }
            }
        }
        assert(!r.to_set().contains(x)) by {
            if r.to_set().contains(x) {
                let i = choose|i: int| 0 <= i < r.len() && r[i] == x;
                assert(a[i + 1] == a[0]);
            }
        }
        if stored_agent(db, x) == Some(v) {
            assert(holders(db, v, a.to_set()) =~= holders(db, v, r.to_set()).insert(x));
        } else {
            assert(holders(db, v, a.to_set()) =~= holders(db, v, r.to_set()));
        }
    }
}

/// A lenient walk through any listing of the store's keys meets each agent
/// as many times as `agent_multiplicity` says, which depends on the store
/// alone: the walk's order is open, its multiset of agents is not.
pub proof fn law_walk_multiset(db: PickleDb, keys: Seq<Seq<char>>, v: AgentView)
    requires
        key_listing(db, keys),
    ensures
        occurrences(collect_keys(db, keys).0, v) == agent_multiplicity(db, v),
{
    let n = choose|n: int|
        0 <= n <= keys.len() && #[trigger] keys.take(n).no_duplicates() && keys.take(n).to_set()
            == db_values(db).dom() && keys.skip(n).no_duplicates() && keys.skip(n).to_set()
            == db_lists(db);
    lemma_collect_counts(db, keys, v);
    assert(keys =~= keys.take(n) + keys.skip(n));
    lemma_count_concat(db, keys.take(n), keys.skip(n), v);
    lemma_count_no_dup(db, keys.take(n), v);
    lemma_count_no_dup(db, keys.skip(n), v);
}

/// Two walks through the same store, in whatever key orders, meet the same
/// agents the same number of times; so the agent index gives the same agents
/// whatever paging it is asked for.
pub proof fn law_walks_agree(db: PickleDb, keys1: Seq<Seq<char>>, keys2: Seq<Seq<char>>, v: AgentView)
    requires
        key_listing(db, keys1),
        key_listing(db, keys2),
    ensures
        occurrences(collect_keys(db, keys1).0, v) == occurrences(collect_keys(db, keys2).0, v),
{
    law_walk_multiset(db, keys1, v);
    law_walk_multiset(db, keys2, v);
}

/// A store that holds everything another holds, plus keys whose records are
/// not agents, gives the same agents the same number of times in a lenient
/// walk (the page of agents is the same up to order).
pub proof fn law_extra_non_agents_change_nothing(
    db1: PickleDb,
    db2: PickleDb,
    keys1: Seq<Seq<char>>,
    keys2: Seq<Seq<char>>,
    v: AgentView,
)
    requires
        forall|k: Seq<char>|
            #[trigger] stored_agent(db2, k) == stored_agent(db1, k) || (stored_agent(db2, k) is None
                && !holds_key(db1, k)),
        forall|k: Seq<char>|
            (#[trigger] stored_agent(db1, k)) is Some ==> (db_lists(db1).contains(k)
                <==> db_lists(db2).contains(k)),
        key_listing(db1, keys1),
        key_listing(db2, keys2),
    ensures
        occurrences(collect_keys(db1, keys1).0, v) == occurrences(collect_keys(db2, keys2).0, v),
{
    law_walk_multiset(db1, keys1, v);
    law_walk_multiset(db2, keys2, v);
    assert forall|k: Seq<char>| stored_agent(db1, k) is Some implies #[trigger] db_values(db1).contains_key(k) by {}
    assert(holders(db1, v, db_values(db1).dom()) =~= holders(db2, v, db_values(db2).dom())) by {
        assert forall|k: Seq<char>| holders(db2, v, db_values(db2).dom()).contains(k) implies holders(db1, v, db_values(db1).dom()).contains(k) by {
            assert(stored_agent(db2, k) == stored_agent(db1, k) || (stored_agent(db2, k) is None && !holds_key(db1, k)));
        }
        assert forall|k: Seq<char>| holders(db1, v, db_values(db1).dom()).contains(k) implies holders(db2, v, db_values(db2).dom()).contains(k) by {
            assert(stored_agent(db2, k) == stored_agent(db1, k) || (stored_agent(db2, k) is None && !holds_key(db1, k)));
        }
    }
    assert(holders(db1, v, db_lists(db1)) =~= holders(db2, v, db_lists(db2))) by {
        assert forall|k: Seq<char>| holders(db2, v, db_lists(db2)).contains(k) implies holders(db1, v, db_lists(db1)).contains(k) by {
            assert(stored_agent(db2, k) == stored_agent(db1, k) || (stored_agent(db2, k) is None && !holds_key(db1, k)));
            assert(stored_agent(db1, k) is Some);
        }
        assert forall|k: Seq<char>| holders(db1, v, db_lists(db1)).contains(k) implies holders(db2, v, db_lists(db2)).contains(k) by {
            assert(stored_agent(db2, k) == stored_agent(db1, k) || (stored_agent(db2, k) is None && !holds_key(db1, k)));
            assert(stored_agent(db1, k) is Some);
        }
    }
}

} // verus!
