use pickledb::{PickleDb, PickleDbDumpPolicy};
use pypes::agent::agent::Agent;
use pypes::agent::util::add_agent;
use pypes::daemon::{daemon_layout, pid_from_file, stop_outcome, StopOutcome};
use pypes::db::{db_layout, new_agents_db};
use pypes::server::handler::agents::{
    agents_create, agents_index, agents_json, get_agent, list_agents, CreateAgent, Pagination,
};
use pypes::server::handler::ui::ui;
use pypes::server::{configured_port, index_page, port_number, record_port, server_address};

fn memory_db() -> PickleDb {
    PickleDb::new_json("unused.db", PickleDbDumpPolicy::NeverDump)
}

#[test]
fn port_defaults_to_7979() {
    let db = memory_db();
    assert_eq!(configured_port(&db), "7979");
    assert_eq!(server_address(&db), "localhost:7979");
}

#[test]
fn recorded_port_reads_back() {
    let mut db = memory_db();
    record_port(&mut db, &"8080".to_string()).unwrap();
    assert_eq!(configured_port(&db), "8080");
    assert_eq!(server_address(&db), "localhost:8080");
    let stored: Option<String> = db.get("port");
    assert_eq!(stored, Some("8080".to_string()));
}

#[test]
fn port_that_is_not_a_string_gives_the_default() {
    let mut db = memory_db();
    db.set("port", &8080).unwrap();
    assert_eq!(configured_port(&db), "7979");
}

#[test]
fn port_numbers() {
    assert_eq!(port_number(&"8080".to_string()), Some(8080));
    assert_eq!(port_number(&"+1".to_string()), Some(1));
    assert_eq!(port_number(&"65535".to_string()), Some(65535));
    assert_eq!(port_number(&"65536".to_string()), None);
    assert_eq!(port_number(&"-1".to_string()), None);
    assert_eq!(port_number(&" 80".to_string()), None);
    assert_eq!(port_number(&"".to_string()), None);
}

#[test]
fn pid_file_contents() {
    assert_eq!(pid_from_file(" 1234\n"), (1234, None));
    assert_eq!(pid_from_file("-5"), (-5, None));
    assert_eq!(pid_from_file("+7\t").0, 7);
    let (pid, err) = pid_from_file("abc");
    assert_eq!(pid, 0);
    assert_eq!(err.unwrap().to_string(), "invalid digit found in string");
    assert_eq!(pid_from_file("").0, 0);
    assert!(pid_from_file("").1.is_some());
    assert_eq!(pid_from_file("99999999999").0, 0);
}

#[test]
fn stop_outcomes() {
    assert_eq!(stop_outcome(-1), StopOutcome::NotRunning);
    assert_eq!(stop_outcome(0), StopOutcome::Stopped);
}

#[test]
fn daemon_files() {
    let layout = daemon_layout("/home/u");
    assert_eq!(layout.dirs, vec!["/home/u/.agents".to_string(), "/home/u/.agents/tmp".to_string()]);
    assert_eq!(layout.paths.agents_dir, "/home/u/.agents");
    assert_eq!(layout.paths.stdout_path, "/home/u/.agents/tmp/daemon.out");
    assert_eq!(layout.paths.stderr_path, "/home/u/.agents/tmp/daemon.err");
    assert_eq!(layout.paths.pid_file_path, "/home/u/.agents/tmp/test.pid");
}

#[test]
fn db_files() {
    let layout = db_layout("/home/u/");
    assert_eq!(layout.dirs, vec!["/home/u/.agents".to_string(), "/home/u/.agents/db".to_string()]);
    assert_eq!(layout.paths.agents_db_path, "/home/u/.agents/db/agents.db");
    assert_eq!(layout.paths.config_db_path, "/home/u/.agents/db/config.db");
}

#[test]
fn get_agent_replies() {
    let mut db = memory_db();
    add_agent(&"bob".to_string(), &mut db).unwrap();
    let found = get_agent(&"bob".to_string(), &db);
    assert_eq!(found.status, 200);
    assert_eq!(found.body, "{\"name\":\"bob\",\"inputs\":[],\"actions\":[]}");
    let missing = get_agent(&"ann".to_string(), &db);
    assert_eq!(missing.status, 400);
    assert_eq!(missing.body, "\"Agent not found\"");
}

#[test]
fn agent_lists_as_json() {
    let agents = vec![
        Agent { name: "a".to_string(), inputs: vec![], actions: vec!["x".to_string()] },
        Agent { name: "b".to_string(), inputs: vec![], actions: vec![] },
    ];
    assert_eq!(
        agents_json(&agents),
        "[{\"name\":\"a\",\"inputs\":[],\"actions\":[\"x\"]},{\"name\":\"b\",\"inputs\":[],\"actions\":[]}]"
    );
    assert_eq!(agents_json(&vec![]), "[]");
}

#[test]
fn index_and_list_skip_the_agents_list() {
    let mut db = new_agents_db("unused.db", PickleDbDumpPolicy::NeverDump).unwrap();
    add_agent(&"bob".to_string(), &mut db).unwrap();
    let listed = list_agents(&db);
    assert_eq!(listed.agents.len(), 1);
    assert_eq!(listed.skipped, vec!["agents".to_string()]);
    let indexed = agents_index(Some(Pagination { offset: Some(1), limit: Some(1) }), &db);
    assert_eq!(indexed.agents, listed.agents);
}

#[test]
fn create_agent_stores_it() {
    let mut db = memory_db();
    let request = CreateAgent {
        name: "c".to_string(),
        inputs: vec!["in".to_string()],
        actions: vec!["out".to_string()],
    };
    let response = agents_create(&mut db, request).unwrap();
    assert_eq!(response.records_created, 1);
    let found = get_agent(&"c".to_string(), &db);
    assert_eq!(found.body, "{\"name\":\"c\",\"inputs\":[\"in\"],\"actions\":[\"out\"]}");
}

#[test]
fn pages() {
    let mut db = new_agents_db("unused.db", PickleDbDumpPolicy::NeverDump).unwrap();
    add_agent(&"bob".to_string(), &mut db).unwrap();
    let (page, skipped) = ui(&db);
    assert_eq!(page.title, "Some title");
    assert_eq!(page.content, "Some content");
    assert_eq!(page.agents.len(), 1);
    assert_eq!(skipped, vec!["agents".to_string()]);
    assert_eq!(index_page(&db).err(), Some("agents".to_string()));
    let mut plain = memory_db();
    add_agent(&"bob".to_string(), &mut plain).unwrap();
    let page = index_page(&plain).unwrap();
    assert_eq!(page.agents[0].name, "bob");
}

fn sorted_names(agents: &[Agent]) -> Vec<String> {
    let mut names: Vec<String> = agents.iter().map(|a| a.name.clone()).collect();
    names.sort();
    names
}

#[test]
fn extra_non_agent_keys_leave_the_page_unchanged() {
    let mut plain = memory_db();
    add_agent(&"ann".to_string(), &mut plain).unwrap();
    add_agent(&"bob".to_string(), &mut plain).unwrap();
    let mut extra = new_agents_db("unused.db", PickleDbDumpPolicy::NeverDump).unwrap();
    add_agent(&"bob".to_string(), &mut extra).unwrap();
    add_agent(&"ann".to_string(), &mut extra).unwrap();
    extra.set("count", &3).unwrap();
    let (page1, skipped1) = ui(&plain);
    let (page2, skipped2) = ui(&extra);
    assert_eq!(sorted_names(&page1.agents), sorted_names(&page2.agents));
    assert!(skipped1.is_empty());
    let mut skipped2 = skipped2.clone();
    skipped2.sort();
    assert_eq!(skipped2, vec!["agents".to_string(), "count".to_string()]);
}

#[test]
fn agent_index_ignores_paging() {
    let mut db = memory_db();
    add_agent(&"ann".to_string(), &mut db).unwrap();
    add_agent(&"bob".to_string(), &mut db).unwrap();
    let all = agents_index(None, &db);
    let paged = agents_index(Some(Pagination { offset: Some(1), limit: Some(0) }), &db);
    assert_eq!(sorted_names(&all.agents), sorted_names(&paged.agents));
    assert_eq!(all.agents.len(), 2);
}

#[test]
fn pid_file_trim_follows_unicode_white_space() {
    assert_eq!(pid_from_file("\u{a0}42\u{3000}"), (42, None));
    assert_eq!(pid_from_file("\u{85}\u{2009}7\u{2028}"), (7, None));
    let (pid, err) = pid_from_file("\u{200b}42");
    assert_eq!(pid, 0);
    assert!(err.is_some());
}

#[test]
fn layouts_under_a_relative_home() {
    let layout = daemon_layout("home");
    assert_eq!(layout.paths.pid_file_path, "home/.agents/tmp/test.pid");
    let layout = db_layout("");
    assert_eq!(layout.dirs, vec![".agents".to_string(), ".agents/db".to_string()]);
    assert_eq!(layout.paths.config_db_path, ".agents/db/config.db");
}
