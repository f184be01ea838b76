//! The two stores of the program, where their files go, how a fresh agents
//! store starts, and emptying a store.

use vstd::prelude::*;
use pickledb::{PickleDb, PickleDbDumpPolicy};
use crate::store::{db_get_all, db_list_lens, db_is_json, db_path_is_text, db_writable, db_writes_deferred, policy_defers_writes, db_lcreate, db_lists, db_new_json, db_rem, db_values, key_listing};
use crate::text::{ends_in_name, path_join, spec_path_join};

verus! {

/// The store of agents and the store of settings.
pub struct DbConfig {
    pub agents_db: PickleDb,
    pub config_db: PickleDb,
}

/// Where the two store files are.
pub struct DbPaths {
    pub agents_db_path: String,
    pub config_db_path: String,
}

/// The directories to create, in order, before the stores can be written,
/// and the paths of the store files.
pub struct DbLayout {
    pub dirs: Vec<String>,
    pub paths: DbPaths,
}

/// `<home>/.agents`
pub open spec fn spec_agents_dir(home: Seq<char>) -> Seq<char> {
    spec_path_join(home, ".agents"@)
}

/// `<home>/.agents/db`
pub open spec fn spec_db_dir(home: Seq<char>) -> Seq<char> {
    spec_path_join(spec_agents_dir(home), "db"@)
}

/// Where the stores of a user whose home directory is `home` go:
/// `.agents/db/agents.db` and `.agents/db/config.db` under it, after the
/// directories `.agents` and `.agents/db`.
pub fn db_layout(home: &str) -> (r: DbLayout)
    ensures
        r.dirs.deep_view() == seq![spec_agents_dir(home@), spec_db_dir(home@)],
        r.paths.agents_db_path@ == spec_path_join(spec_db_dir(home@), "agents.db"@),
        r.paths.config_db_path@ == spec_path_join(spec_db_dir(home@), "config.db"@),
        ends_in_name(home@) ==> {
            &&& r.dirs.deep_view() == seq![home@ + "/.agents"@, home@ + "/.agents/db"@]
            &&& r.paths.agents_db_path@ == home@ + "/.agents/db/agents.db"@
            &&& r.paths.config_db_path@ == home@ + "/.agents/db/config.db"@
        },
{
    proof {
        reveal_strlit(".agents");
        reveal_strlit("db");
        reveal_strlit("agents.db");
        reveal_strlit("config.db");
        reveal_strlit("/.agents");
        reveal_strlit("/.agents/db");
        reveal_strlit("/.agents/db/agents.db");
        reveal_strlit("/.agents/db/config.db");
    }
    let agents_dir = path_join(home, ".agents");
    let db_dir = path_join(agents_dir.as_str(), "db");
    let agents_db_path = path_join(db_dir.as_str(), "agents.db");
    let config_db_path = path_join(db_dir.as_str(), "config.db");
    proof {
        if ends_in_name(home@) {
            assert(agents_dir@ =~= home@ + "/.agents"@);
            assert(db_dir@ =~= home@ + "/.agents/db"@);
            assert(agents_db_path@ =~= home@ + "/.agents/db/agents.db"@);
            assert(config_db_path@ =~= home@ + "/.agents/db/config.db"@);
        }
    }
    let mut dirs: Vec<String> = Vec::new();
    dirs.push(agents_dir);
    dirs.push(db_dir);
    assert(dirs.deep_view() =~= seq![spec_agents_dir(home@), spec_db_dir(home@)]);
    DbLayout { dirs, paths: DbPaths { agents_db_path, config_db_path } }
}

/// A fresh store of agents kept at `path`: no pairs, and the empty list
/// `agents` (a list of no items).
pub fn new_agents_db(path: &str, policy: PickleDbDumpPolicy) -> (r: Result<
    PickleDb,
    pickledb::error::Error,
>)
    ensures
        policy_defers_writes(policy) ==> r is Ok,
        r matches Ok(db) ==> db_writes_deferred(db) == policy_defers_writes(policy),
        r matches Ok(db) ==> db_path_is_text(db),
        r matches Ok(db) ==> db_is_json(db) && db_values(db).dom().is_empty() && db_lists(db)
            == set!["agents"@],
        r matches Ok(db) ==> db_list_lens(db) == map!["agents"@ => 0nat],
{
    let mut db = db_new_json(path, policy);
    match db_lcreate(&mut db, "agents") {
        Ok(()) => {
            assert(db_list_lens(db) =~= map!["agents"@ => 0nat]);
            assert(db_lists(db) =~= set!["agents"@]);
            Ok(db)
        },
        Err(e) => Err(e),
    }
}

/// Removes every pair and every list from the store. On failure, what is
/// left is part of what was there.
pub fn remove_db(db: &mut PickleDb) -> (r: Result<(), pickledb::error::Error>)
    requires
        db_writable(*old(db)),
    ensures
        db_path_is_text(*final(db)) == db_path_is_text(*old(db)),
        db_writes_deferred(*old(db)) ==> r is Ok,
        db_writes_deferred(*final(db)) == db_writes_deferred(*old(db)),
        r is Ok ==> db_values(*final(db)).dom().is_empty() && db_lists(*final(db)).is_empty(),
        db_values(*final(db)).submap_of(db_values(*old(db))),
        db_list_lens(*final(db)).submap_of(db_list_lens(*old(db))),
{
    let ghost orig_v = db_values(*db);
    let ghost orig_l = db_lists(*db);
    let ghost orig_lens = db_list_lens(*db);
    let keys = db_get_all(db);
    let ghost ks = keys.deep_view();
    let mut i: usize = 0;
    while i < keys.len()
        invariant
            i <= keys.len(),
            ks == keys.deep_view(),
            key_listing(*old(db), ks),
            orig_v == db_values(*old(db)),
            orig_l == db_lists(*old(db)),
            orig_lens == db_list_lens(*old(db)),
            db_list_lens(*db).submap_of(orig_lens),
            db_writes_deferred(*db) == db_writes_deferred(*old(db)),
            db_path_is_text(*db) == db_path_is_text(*old(db)),
            db_writable(*old(db)),
            db_values(*db).submap_of(orig_v),
            forall|k: Seq<char>|
                #[trigger] db_values(*db).contains_key(k) <==> (orig_v.contains_key(k)
                    && !ks.take(i as int).contains(k)),
            forall|k: Seq<char>|
                #[trigger] db_lists(*db).contains(k) <==> (orig_l.contains(k) && !ks.take(
                    i as int,
                ).contains(k)),
        decreases keys.len() - i,
    {
        let ghost before_v = db_values(*db);
        let ghost before_l = db_lists(*db);
        let ghost k = ks[i as int];
        assert(keys[i as int]@ == k);
        match db_rem(db, keys[i].as_str()) {
            Ok(_) => {},
            Err(e) => {
                return Err(e);
            },
        }
        assert forall|x: Seq<char>| ks.take(i + 1).contains(x) <==> (ks.take(i as int).contains(x)
            || x == k) by {
            if ks.take(i + 1).contains(x) {
                let q = choose|q: int| 0 <= q < i + 1 && #[trigger] ks.take(i + 1)[q] == x;
                if q < i {
                    assert(ks.take(i as int)[q] == x);
                }
            }
            if ks.take(i as int).contains(x) {
                let q = choose|q: int| 0 <= q < i && #[trigger] ks.take(i as int)[q] == x;
                assert(ks.take(i + 1)[q] == x);
            }
            if x == k {
                assert(ks.take(i + 1)[i as int] == x);
            }
        }
        i = i + 1;
    }
    proof {
        assert(ks.take(i as int) =~= ks);
        let n = choose|n: int|
            0 <= n <= ks.len() && #[trigger] ks.take(n).no_duplicates() && ks.take(n).to_set()
                == orig_v.dom() && ks.skip(n).no_duplicates() && ks.skip(n).to_set() == orig_l;
        assert forall|k: Seq<char>| orig_v.contains_key(k) implies ks.contains(k) by {
            assert(ks.take(n).to_set().contains(k));
            let q = choose|q: int| 0 <= q < n && #[trigger] ks.take(n)[q] == k;
            assert(ks[q] == k);
        }
        assert forall|k: Seq<char>| orig_l.contains(k) implies ks.contains(k) by {
            assert(ks.skip(n).to_set().contains(k));
            let q = choose|q: int| 0 <= q < ks.len() - n && #[trigger] ks.skip(n)[q] == k;
            assert(ks[n + q] == k);
        }
        assert(db_values(*db).dom() =~= Set::<Seq<char>>::empty());
        assert(db_lists(*db) =~= Set::<Seq<char>>::empty());
    }
    Ok(())
}

} // verus!
