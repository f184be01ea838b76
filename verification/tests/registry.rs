use pickledb::{PickleDb, PickleDbDumpPolicy};
use pypes::agent::agent::{read_agent, Agent};
use pypes::agent::util::{
    add_agent, agent_exists, collect_agents, get_agent, ls_agents, rm_agent, AddOutcome,
    RemoveOutcome,
};
use pypes::cli::{handle_agent_command, CommandOutcome};
use pypes::db::{new_agents_db, remove_db};
use pypes::store::StoreError;

fn memory_db() -> PickleDb {
    PickleDb::new_json("unused.db", PickleDbDumpPolicy::NeverDump)
}

fn agent(name: &str, inputs: &[&str], actions: &[&str]) -> Agent {
    Agent {
        name: name.to_string(),
        inputs: inputs.iter().map(|s| s.to_string()).collect(),
        actions: actions.iter().map(|s| s.to_string()).collect(),
    }
}

#[test]
fn test_database_initialization() {
    let mut db = new_agents_db("unused.db", PickleDbDumpPolicy::NeverDump).unwrap();
    db.set("key", &"value").unwrap();
    let retrieved_value: Option<String> = db.get("key");
    assert_eq!(retrieved_value, Some("value".to_string()));
}

#[test]
fn fresh_agents_db_holds_only_the_agents_list() {
    let db = new_agents_db("unused.db", PickleDbDumpPolicy::NeverDump).unwrap();
    assert_eq!(db.get_all(), vec!["agents".to_string()]);
    assert!(db.lexists("agents"));
    assert_eq!(db.llen("agents"), 0);
}

#[test]
fn added_agent_reads_back() {
    let mut db = memory_db();
    let name = "bob".to_string();
    assert!(!agent_exists(&db, &name));
    assert_eq!(add_agent(&name, &mut db).unwrap(), AddOutcome::Added);
    assert!(agent_exists(&db, &name));
    let found = get_agent(&name, &mut db).unwrap().unwrap();
    assert_eq!(found, agent("bob", &[], &[]));
    assert_eq!(read_agent(&db, "bob"), Some(agent("bob", &[], &[])));
}

#[test]
fn added_agent_is_stored_as_serde_writes_it() {
    let mut db = memory_db();
    add_agent(&"bob".to_string(), &mut db).unwrap();
    let stored: serde_json::Value = db.get("bob").unwrap();
    assert_eq!(
        serde_json::to_string(&stored).unwrap(),
        "{\"actions\":[],\"inputs\":[],\"name\":\"bob\"}"
    );
    let raw: Box<serde_json::value::RawValue> = db.get("bob").unwrap();
    assert_eq!(raw.get(), "{\"name\":\"bob\",\"inputs\":[],\"actions\":[]}");
}

#[test]
fn adding_an_existing_name_changes_nothing() {
    let mut db = memory_db();
    let name = "bob".to_string();
    let mut updated = agent("bob", &["in"], &["act"]);
    updated.name = name.clone();
    updated.write_agent_update(&mut db).unwrap();
    assert_eq!(add_agent(&name, &mut db).unwrap(), AddOutcome::AlreadyExists);
    assert_eq!(read_agent(&db, "bob"), Some(updated));
}

#[test]
fn adding_over_a_list_name_is_refused() {
    let mut db = new_agents_db("unused.db", PickleDbDumpPolicy::NeverDump).unwrap();
    assert_eq!(add_agent(&"agents".to_string(), &mut db).unwrap(), AddOutcome::AlreadyExists);
    assert!(db.lexists("agents"));
}

#[test]
fn failed_write_leaves_the_store_as_it_was() {
    let mut db = PickleDb::new_json("/nonexistent-pypes-dir/agents.db", PickleDbDumpPolicy::AutoDump);
    let name = "bob".to_string();
    match add_agent(&name, &mut db) {
        Err(StoreError::Db(_)) => {}
        other => panic!("expected a store error, got {:?}", other),
    }
    assert!(!agent_exists(&db, &name));
}

#[test]
fn removed_agent_is_gone() {
    let mut db = memory_db();
    let name = "bob".to_string();
    assert_eq!(rm_agent(&name, &mut db).unwrap(), RemoveOutcome::NotFound);
    add_agent(&name, &mut db).unwrap();
    assert_eq!(rm_agent(&name, &mut db).unwrap(), RemoveOutcome::Removed);
    assert!(!agent_exists(&db, &name));
    assert_eq!(get_agent(&name, &mut db).unwrap(), None);
}

#[test]
fn get_agent_stops_at_a_record_that_is_not_an_agent() {
    let mut db = new_agents_db("unused.db", PickleDbDumpPolicy::NeverDump).unwrap();
    assert_eq!(get_agent(&"nobody".to_string(), &mut db), Err("agents".to_string()));
    let mut other = memory_db();
    other.set("key", &"value").unwrap();
    assert_eq!(get_agent(&"nobody".to_string(), &mut other), Err("key".to_string()));
}

#[test]
fn get_agent_finds_the_agent_before_the_list() {
    let mut db = new_agents_db("unused.db", PickleDbDumpPolicy::NeverDump).unwrap();
    add_agent(&"ann".to_string(), &mut db).unwrap();
    assert_eq!(get_agent(&"ann".to_string(), &mut db), Ok(Some(agent("ann", &[], &[]))));
}

#[test]
fn ls_agents_lists_then_stops_at_the_list() {
    let mut db = new_agents_db("unused.db", PickleDbDumpPolicy::NeverDump).unwrap();
    add_agent(&"ann".to_string(), &mut db).unwrap();
    add_agent(&"bob".to_string(), &mut db).unwrap();
    let scan = ls_agents(&db);
    let mut names: Vec<String> = scan.agents.iter().map(|a| a.name.clone()).collect();
    names.sort();
    assert_eq!(names, vec!["ann".to_string(), "bob".to_string()]);
    assert_eq!(scan.bad_key, Some("agents".to_string()));
}

#[test]
fn ls_agents_of_agents_only_stops_nowhere() {
    let mut db = memory_db();
    add_agent(&"ann".to_string(), &mut db).unwrap();
    let scan = ls_agents(&db);
    assert_eq!(scan.agents, vec![agent("ann", &[], &[])]);
    assert_eq!(scan.bad_key, None);
}

#[test]
fn collect_agents_skips_records_that_are_not_agents() {
    let mut db = new_agents_db("unused.db", PickleDbDumpPolicy::NeverDump).unwrap();
    add_agent(&"ann".to_string(), &mut db).unwrap();
    db.set("count", &3).unwrap();
    let collected = collect_agents(&db);
    assert_eq!(collected.agents, vec![agent("ann", &[], &[])]);
    let mut skipped = collected.skipped.clone();
    skipped.sort();
    assert_eq!(skipped, vec!["agents".to_string(), "count".to_string()]);
}

#[test]
fn remove_db_empties_the_store() {
    let mut db = new_agents_db("unused.db", PickleDbDumpPolicy::NeverDump).unwrap();
    add_agent(&"ann".to_string(), &mut db).unwrap();
    add_agent(&"bob".to_string(), &mut db).unwrap();
    remove_db(&mut db).unwrap();
    assert_eq!(db.total_keys(), 0);
    let scan = ls_agents(&db);
    assert!(scan.agents.is_empty());
    assert_eq!(scan.bad_key, None);
}

#[test]
fn agent_command_outcomes() {
    let mut db = memory_db();
    let name = "bob".to_string();
    match handle_agent_command(&name, &"1".to_string(), &mut db) {
        Ok(CommandOutcome::AgentNotFound) => {}
        other => panic!("unexpected {:?}", other),
    }
    add_agent(&name, &mut db).unwrap();
    match handle_agent_command(&name, &"{".to_string(), &mut db) {
        Ok(CommandOutcome::InputRejected(_)) => {}
        other => panic!("unexpected {:?}", other),
    }
    match handle_agent_command(&name, &" null ".to_string(), &mut db) {
        Ok(CommandOutcome::InputIsNull) => {}
        other => panic!("unexpected {:?}", other),
    }
    match handle_agent_command(&name, &"{\"a\":1}".to_string(), &mut db) {
        Ok(CommandOutcome::Updated) => {}
        other => panic!("unexpected {:?}", other),
    }
    assert_eq!(read_agent(&db, "bob"), Some(agent("bob", &["{\"a\":1}"], &[])));
    assert_eq!(
        db.get::<serde_json::Value>("bob").unwrap(),
        serde_json::from_str::<serde_json::Value>("{\"name\":\"bob\",\"inputs\":[\"{\\\"a\\\":1}\"],\"actions\":[]}").unwrap()
    );
    match handle_agent_command(&name, &"\"x\"".to_string(), &mut db) {
        Ok(CommandOutcome::Updated) => {}
        other => panic!("unexpected {:?}", other),
    }
    assert_eq!(read_agent(&db, "bob"), Some(agent("bob", &["{\"a\":1}", "\"x\""], &[])));
    db.set("zzz", &1).unwrap();
    db.rem("bob").unwrap();
    match handle_agent_command(&name, &"1".to_string(), &mut db) {
        Ok(CommandOutcome::BadRecord(k)) => assert_eq!(k, "zzz"),
        other => panic!("unexpected {:?}", other),
    }
}

#[test]
fn removing_a_new_agent_restores_the_store() {
    let mut db = new_agents_db("unused.db", PickleDbDumpPolicy::NeverDump).unwrap();
    add_agent(&"ann".to_string(), &mut db).unwrap();
    let before: Vec<String> = db.get_all();
    let name = "bob".to_string();
    assert_eq!(add_agent(&name, &mut db).unwrap(), AddOutcome::Added);
    assert_eq!(rm_agent(&name, &mut db).unwrap(), RemoveOutcome::Removed);
    let mut after = db.get_all();
    let mut expected = before.clone();
    after.sort();
    expected.sort();
    assert_eq!(after, expected);
    assert_eq!(read_agent(&db, "ann"), Some(agent("ann", &[], &[])));
    assert!(db.lexists("agents"));
}

#[test]
fn records_in_another_spelling_are_not_agents() {
    let mut db = memory_db();
    let spaced: serde_json::Value =
        serde_json::from_str("{ \"name\":\"bob\",\"inputs\":[],\"actions\":[]}").unwrap();
    db.set("bob", &spaced).unwrap();
    assert_eq!(read_agent(&db, "bob"), None);
    assert_eq!(get_agent(&"bob".to_string(), &mut db), Err("bob".to_string()));
}

#[test]
fn names_that_need_escapes_are_stored_and_read_back() {
    let mut db = memory_db();
    let name = "a\"b\\c\u{1}\u{7f}\u{e9}\n".to_string();
    assert_eq!(add_agent(&name, &mut db).unwrap(), AddOutcome::Added);
    assert_eq!(read_agent(&db, &name), Some(agent(&name, &[], &[])));
    match handle_agent_command(&name, &"[1, 2]".to_string(), &mut db) {
        Ok(CommandOutcome::Updated) => {}
        other => panic!("unexpected {:?}", other),
    }
    assert_eq!(read_agent(&db, &name), Some(agent(&name, &["[1, 2]"], &[])));
}
