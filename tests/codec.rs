use jogre::codec::{Argument, Arguments, Invocation, Request, ResultReference};
use jogre::json::{Json, Member};
use jogre::util::strip_prefix_from_cow;

fn to_json(v: &serde_json::Value) -> Json {
    match v {
        serde_json::Value::Null => Json::Null,
        serde_json::Value::Bool(b) => Json::Bool(*b),
        serde_json::Value::Number(n) => Json::Number(n.to_string()),
        serde_json::Value::String(s) => Json::Str(s.clone()),
        serde_json::Value::Array(items) => Json::Array(items.iter().map(to_json).collect()),
        serde_json::Value::Object(map) => Json::Object(
            map.iter()
                .map(|(k, v)| Member { key: k.clone(), value: to_json(v) })
                .collect(),
        ),
    }
}

fn from_json(j: &Json) -> serde_json::Value {
    match j {
        Json::Null => serde_json::Value::Null,
        Json::Bool(b) => serde_json::Value::Bool(*b),
        Json::Number(n) => serde_json::from_str(n).unwrap(),
        Json::Str(s) => serde_json::Value::String(s.clone()),
        Json::Array(items) => serde_json::Value::Array(items.iter().map(from_json).collect()),
        Json::Object(members) => {
            let mut map = serde_json::Map::new();
            for m in members {
                map.insert(m.key.clone(), from_json(&m.value));
            }
            serde_json::Value::Object(map)
        }
    }
}

fn parse(text: &str) -> Json {
    to_json(&serde_json::from_str(text).unwrap())
}

fn reference(result_of: &str, name: &str, path: &str) -> Argument {
    Argument::Reference(ResultReference {
        result_of: result_of.to_string(),
        name: name.to_string(),
        path: path.to_string(),
    })
}

fn describe(args: &Arguments) -> Vec<(String, String)> {
    args.0
        .iter()
        .map(|(k, a)| match a {
            Argument::Absolute(v) => (k.clone(), format!("value {}", from_json(v))),
            Argument::Reference(r) => (
                k.clone(),
                format!("ref {} {} {}", r.result_of, r.name, r.path),
            ),
        })
        .collect()
}

fn sample_invocation() -> Invocation {
    let mut args = Arguments(Vec::new());
    args.put("accountId".to_string(), Argument::Absolute(parse(r#""A1""#)));
    args.put("ids".to_string(), reference("c0", "Foo/query", "/ids"));
    args.put("limit".to_string(), Argument::Absolute(parse("10")));
    Invocation {
        name: "Foo/get".to_string(),
        arguments: args,
        call_id: "c1".to_string(),
    }
}

#[test]
fn invocation_encodes_as_three_element_array() {
    let wire = sample_invocation().encode();
    let expected: serde_json::Value = serde_json::from_str(
        r##"["Foo/get", {"accountId": "A1", "#ids": {"resultOf": "c0", "name": "Foo/query", "path": "/ids"}, "limit": 10}, "c1"]"##,
    )
    .unwrap();
    assert_eq!(from_json(&wire), expected);
}

#[test]
fn invocation_round_trip_with_mixed_arguments() {
    let inv = sample_invocation();
    let back = Invocation::decode(&inv.encode()).expect("decodes");
    assert_eq!(back.name, inv.name);
    assert_eq!(back.call_id, inv.call_id);
    assert_eq!(describe(&back.arguments), describe(&inv.arguments));
}

#[test]
fn reference_name_starting_with_mark_round_trips() {
    let mut args = Arguments(Vec::new());
    args.put("#odd".to_string(), reference("c0", "X/y", ""));
    let inv = Invocation { name: "X/y".to_string(), arguments: args, call_id: "c".to_string() };
    let back = Invocation::decode(&inv.encode()).unwrap();
    assert_eq!(describe(&back.arguments), describe(&inv.arguments));
}

#[test]
fn decode_rejects_wrong_lengths_and_types() {
    assert!(Invocation::decode(&parse(r#"["a", {}]"#)).is_none());
    assert!(Invocation::decode(&parse(r#"["a", {}, "c", 4]"#)).is_none());
    assert!(Invocation::decode(&parse(r#"[1, {}, "c"]"#)).is_none());
    assert!(Invocation::decode(&parse(r#"["a", {}, 2]"#)).is_none());
    assert!(Invocation::decode(&parse(r#"["a", [], "c"]"#)).is_none());
    assert!(Invocation::decode(&parse(r#"{"a": 1}"#)).is_none());
    assert!(Invocation::decode(&parse(r#"["a", {}, "c"]"#)).is_some());
}

#[test]
fn decode_rejects_malformed_reference() {
    assert!(Invocation::decode(&parse(r##"["a", {"#x": {"resultOf": "c0", "name": "n"}}, "c"]"##)).is_none());
    assert!(Invocation::decode(&parse(r##"["a", {"#x": {"resultOf": "c0", "name": "n", "path": 3}}, "c"]"##)).is_none());
    assert!(Invocation::decode(&parse(r##"["a", {"#x": "c0"}, "c"]"##)).is_none());
}

#[test]
fn reference_ignores_extra_members() {
    let inv = Invocation::decode(&parse(
        r##"["a", {"#x": {"resultOf": "c0", "name": "n", "path": "/p", "extra": true}}, "c"]"##,
    ))
    .unwrap();
    assert_eq!(describe(&inv.arguments), vec![("x".to_string(), "ref c0 n /p".to_string())]);
}

#[test]
fn later_member_with_same_name_wins() {
    let members = vec![
        Member { key: "a".to_string(), value: Json::Number("1".to_string()) },
        Member {
            key: "#a".to_string(),
            value: parse(r#"{"resultOf": "r", "name": "n", "path": "p"}"#),
        },
    ];
    let args = Arguments::decode(&Json::Object(members)).unwrap();
    assert_eq!(describe(&args), vec![("a".to_string(), "ref r n p".to_string())]);
}

#[test]
fn request_decodes_calls_in_order() {
    let req = Request::decode(&parse(
        r#"{"using": ["urn:ietf:params:jmap:core"], "methodCalls": [["Core/echo", {"a": 1}, "c1"], ["Core/echo", {}, "c2"]]}"#,
    ))
    .unwrap();
    assert_eq!(req.using, vec!["urn:ietf:params:jmap:core".to_string()]);
    assert_eq!(req.method_calls.len(), 2);
    assert_eq!(req.method_calls[0].call_id, "c1");
    assert_eq!(req.method_calls[1].call_id, "c2");
    assert!(req.created_ids.is_none());
}

#[test]
fn request_reads_created_ids() {
    let req = Request::decode(&parse(
        r#"{"using": [], "methodCalls": [], "createdIds": {"k1": "id1"}}"#,
    ))
    .unwrap();
    let ids = req.created_ids.unwrap();
    assert_eq!(ids.len(), 1);
    assert_eq!(ids[0].0 .0, "k1");
    assert_eq!(ids[0].1 .0, "id1");
    let nulled = Request::decode(&parse(r#"{"using": [], "methodCalls": [], "createdIds": null}"#)).unwrap();
    assert!(nulled.created_ids.is_none());
}

#[test]
fn request_rejects_missing_or_malformed_fields() {
    assert!(Request::decode(&parse(r#"{"methodCalls": []}"#)).is_none());
    assert!(Request::decode(&parse(r#"{"using": []}"#)).is_none());
    assert!(Request::decode(&parse(r#"{"using": [1], "methodCalls": []}"#)).is_none());
    assert!(Request::decode(&parse(r#"{"using": [], "methodCalls": [["a"]]}"#)).is_none());
    assert!(Request::decode(&parse(r#"{"using": [], "methodCalls": [], "createdIds": {"k": 1}}"#)).is_none());
    assert!(Request::decode(&parse(r#"[]"#)).is_none());
}

#[test]
fn strip_prefix_removes_only_a_leading_prefix() {
    assert_eq!(strip_prefix_from_cow("#name".to_string(), "#"), Some("name".to_string()));
    assert_eq!(strip_prefix_from_cow("name".to_string(), "#"), None);
    assert_eq!(strip_prefix_from_cow("na#me".to_string(), "#"), None);
    assert_eq!(strip_prefix_from_cow("#".to_string(), "#"), Some(String::new()));
    assert_eq!(strip_prefix_from_cow("".to_string(), "#"), None);
    assert_eq!(strip_prefix_from_cow("abc".to_string(), ""), Some("abc".to_string()));
}
