use pypes::agent::agent::Agent;
use pypes::json::encode_json_str;

fn agent(name: &str, inputs: &[&str], actions: &[&str]) -> Agent {
    Agent {
        name: name.to_string(),
        inputs: inputs.iter().map(|s| s.to_string()).collect(),
        actions: actions.iter().map(|s| s.to_string()).collect(),
    }
}

#[test]
fn record_of_a_new_agent() {
    assert_eq!(
        agent("bob", &[], &[]).to_json(),
        "{\"name\":\"bob\",\"inputs\":[],\"actions\":[]}"
    );
}

#[test]
fn record_with_lists() {
    assert_eq!(
        agent("a", &["x", "y"], &["z"]).to_json(),
        "{\"name\":\"a\",\"inputs\":[\"x\",\"y\"],\"actions\":[\"z\"]}"
    );
}

#[test]
fn string_escapes_match_serde_json() {
    let samples = [
        "plain",
        "",
        "quote \" and backslash \\",
        "line\nfeed\ttab\rreturn",
        "\u{8}\u{c}\u{1}\u{1f}\u{0}",
        "slash / and é and \u{7f} and 𝄞",
    ];
    for s in samples.iter() {
        assert_eq!(encode_json_str(s), serde_json::to_string(s).unwrap());
    }
}

#[test]
fn escaped_names_decode_back() {
    let samples = ["plain", "", "q\"b\\", "c\u{1}\n\u{1f}", "é𝄞"];
    for s in samples.iter() {
        let a = agent(s, &[s], &[s, s]);
        assert_eq!(Agent::from_json(&a.to_json()), Some(a.clone()));
    }
    assert_eq!(Agent::from_json("{\"name\":\"a\\u0041\",\"inputs\":[],\"actions\":[]}"), None);
    assert_eq!(Agent::from_json("{\"name\":\"\\u000a\",\"inputs\":[],\"actions\":[]}"), None);
    assert_eq!(
        Agent::from_json("{\"name\":\"\\u001f\",\"inputs\":[],\"actions\":[]}"),
        Some(agent("\u{1f}", &[], &[]))
    );
}

#[test]
fn records_decode_back() {
    let samples = [
        agent("bob", &[], &[]),
        agent("a\"b", &["1", "{\"k\":2}"], &["run", "stop", ""]),
        agent("", &[""], &[]),
    ];
    for a in samples.iter() {
        assert_eq!(Agent::from_json(&a.to_json()), Some(a.clone()));
    }
}

#[test]
fn other_spellings_are_not_records() {
    assert_eq!(Agent::from_json("{ \"name\":\"bob\",\"inputs\":[],\"actions\":[]}"), None);
    assert_eq!(Agent::from_json("{\"name\":\"bob\",\"inputs\":[],\"actions\":[],\"x\":1}"), None);
    assert_eq!(Agent::from_json("{\"name\": \"bob\",\"inputs\":[],\"actions\":[]}"), None);
    assert_eq!(Agent::from_json("{\"inputs\":[],\"name\":\"bob\",\"actions\":[]}"), None);
    assert_eq!(Agent::from_json("{\"name\":\"bob\",\"inputs\":[],\"actions\":[]} "), None);
    assert_eq!(Agent::from_json("\"value\""), None);
    assert_eq!(Agent::from_json("{\"name\":\"bob\",\"inputs\":[1],\"actions\":[]}"), None);
    assert_eq!(Agent::from_json(""), None);
}

#[test]
fn add_input_parses_json() {
    let a = agent("bob", &[], &[]);
    let expected: serde_json::Value = serde_json::from_str("{\"x\":1}").unwrap();
    assert_eq!(a.add_input(&"{\"x\":1}".to_string()), Some(expected));
    assert_eq!(a.add_input(&"null".to_string()), None);
    assert_eq!(a.add_input(&"{".to_string()), None);
    assert_eq!(a.add_input(&" 7 ".to_string()), Some(serde_json::Value::from(7)));
}
