use jogre::api::{check_request, handle, handle_request};
use jogre::codec::{Invocation, Request, Response};
use jogre::config::CoreCapabilities;
use jogre::errors::{MethodError, ProblemType};
use jogre::extensions::{Core, ExtensionRegistry, ExtensionRouterRegistry, Principals};
use jogre::json::{Json, Member};
use jogre::store::{Account, AccountAccessLevel, Store, StoreConfig, User};

fn to_json(v: &serde_json::Value) -> Json {
    match v {
        serde_json::Value::Null => Json::Null,
        serde_json::Value::Bool(b) => Json::Bool(*b),
        serde_json::Value::Number(n) => Json::Number(n.to_string()),
        serde_json::Value::String(s) => Json::Str(s.clone()),
        serde_json::Value::Array(items) => Json::Array(items.iter().map(to_json).collect()),
        serde_json::Value::Object(map) => Json::Object(
            map.iter()
                .map(|(k, v)| Member { key: k.clone(), value: to_json(v) })
                .collect(),
        ),
    }
}

fn from_json(j: &Json) -> serde_json::Value {
    match j {
        Json::Null => serde_json::Value::Null,
        Json::Bool(b) => serde_json::Value::Bool(*b),
        Json::Number(n) => serde_json::from_str(n).unwrap(),
        Json::Str(s) => serde_json::Value::String(s.clone()),
        Json::Array(items) => serde_json::Value::Array(items.iter().map(from_json).collect()),
        Json::Object(members) => {
            let mut map = serde_json::Map::new();
            for m in members {
                map.insert(m.key.clone(), from_json(&m.value));
            }
            serde_json::Value::Object(map)
        }
    }
}

fn parse(text: &str) -> Json {
    to_json(&serde_json::from_str(text).unwrap())
}


fn setup() -> (ExtensionRegistry, ExtensionRouterRegistry) {
    let registry = ExtensionRegistry::new(CoreCapabilities::default());
    let routers = registry.build_router_registry();
    (registry, routers)
}

fn run(request_text: &str, state: u64) -> Response {
    let (registry, routers) = setup();
    let request = Request::decode(&parse(request_text)).expect("a valid request");
    handle_request(&request, state, &registry, &routers)
}

fn wire(inv: &Invocation) -> serde_json::Value {
    from_json(&inv.encode())
}

fn value(text: &str) -> serde_json::Value {
    serde_json::from_str(text).unwrap()
}

#[test]
fn echo_returns_arguments_unchanged() {
    let resp = run(r#"{"using": [], "methodCalls": [["Core/echo", {"foo": "bar"}, "c1"]]}"#, 0);
    assert_eq!(resp.method_responses.len(), 1);
    assert_eq!(wire(&resp.method_responses[0]), value(r#"["Core/echo", {"foo": "bar"}, "c1"]"#));
}

#[test]
fn unknown_method_answers_error_and_keeps_state() {
    let (registry, routers) = setup();
    let mut store = Store::from_config(StoreConfig::Memory);
    let user = User::new("alice".to_string(), "secret", "c2FsdHNhbHRzYWx0", 7).unwrap();
    store.create_user(user);
    store.create_account(Account::new("alice".to_string(), true, false, 9));
    store.attach_account_to_user(9, 7, AccountAccessLevel::Owner).unwrap();
    store.increment_seq_number_for_user(7).unwrap();
    let request = Request::decode(&parse(
        r#"{"using": [], "methodCalls": [["Nope/op", {}, "c1"]]}"#,
    ))
    .unwrap();
    let resp = handle(&store, "alice", &request, &registry, &routers).unwrap();
    assert_eq!(wire(&resp.method_responses[0]), value(r#"["error", {"type": "unknownMethod"}, "c1"]"#));
    assert_eq!(resp.session_state.0, "2");
    assert!(handle(&store, "bob", &request, &registry, &routers).is_none());
}

#[test]
fn unknown_endpoint_in_known_namespace() {
    let resp = run(r#"{"using": [], "methodCalls": [["Core/nothing", {}, "x"], ["Coreecho", {}, "y"]]}"#, 0);
    assert_eq!(wire(&resp.method_responses[0]), value(r#"["error", {"type": "unknownMethod"}, "x"]"#));
    assert_eq!(wire(&resp.method_responses[1]), value(r#"["error", {"type": "unknownMethod"}, "y"]"#));
}

#[test]
fn one_response_per_call_in_order() {
    let resp = run(
        r##"{"using": [], "methodCalls": [["Core/echo", {}, "a"], ["Nope/x", {}, "b"], ["Core/echo", {"#r": {"resultOf": "zz", "name": "Core/echo", "path": ""}}, "c"], ["Core/echo", {"k": [1, 2]}, "d"]]}"##,
        3,
    );
    let ids: Vec<&str> = resp.method_responses.iter().map(|i| i.call_id.as_str()).collect();
    assert_eq!(ids, vec!["a", "b", "c", "d"]);
    assert_eq!(resp.session_state.0, "3");
    assert!(resp.created_ids.is_none());
}

#[test]
fn wildcard_reference_collects_items() {
    let resp = run(
        r##"{"using": [], "methodCalls": [
            ["Core/echo", {"ids": [{"id": "a"}, {"id": "b"}]}, "c1"],
            ["Core/echo", {"#x": {"resultOf": "c1", "name": "Core/echo", "path": "ids/*/id"}}, "c2"],
            ["Core/echo", {"#y": {"resultOf": "c1", "name": "Core/echo", "path": "/ids/1"}}, "c3"],
            ["Core/echo", {"#z": {"resultOf": "c1", "name": "Core/echo", "path": ""}}, "c4"]
        ]}"##,
        0,
    );
    assert_eq!(wire(&resp.method_responses[1]), value(r#"["Core/echo", {"x": ["a", "b"]}, "c2"]"#));
    assert_eq!(wire(&resp.method_responses[2]), value(r#"["Core/echo", {"y": {"id": "b"}}, "c3"]"#));
    assert_eq!(
        wire(&resp.method_responses[3]),
        value(r#"["Core/echo", {"z": {"ids": [{"id": "a"}, {"id": "b"}]}}, "c4"]"#)
    );
}

#[test]
fn wildcard_flattens_nested_arrays() {
    let resp = run(
        r##"{"using": [], "methodCalls": [
            ["Core/echo", {"lists": [{"ids": ["a", "b"]}, {"ids": ["c"]}]}, "c1"],
            ["Core/echo", {"#all": {"resultOf": "c1", "name": "Core/echo", "path": "/lists/*/ids"}}, "c2"]
        ]}"##,
        0,
    );
    assert_eq!(wire(&resp.method_responses[1]), value(r#"["Core/echo", {"all": ["a", "b", "c"]}, "c2"]"#));
}

#[test]
fn reference_to_later_call_fails() {
    let resp = run(
        r##"{"using": [], "methodCalls": [
            ["Core/echo", {"#x": {"resultOf": "c2", "name": "Core/echo", "path": ""}}, "c1"],
            ["Core/echo", {"v": 1}, "c2"]
        ]}"##,
        0,
    );
    assert_eq!(
        wire(&resp.method_responses[0]),
        value(r#"["error", {"type": "invalidResultReference"}, "c1"]"#)
    );
    assert_eq!(wire(&resp.method_responses[1]), value(r#"["Core/echo", {"v": 1}, "c2"]"#));
}

#[test]
fn reference_failures_are_isolated() {
    let resp = run(
        r##"{"using": [], "methodCalls": [
            ["Core/echo", {"list": [1, 2]}, "c1"],
            ["Core/echo", {"#a": {"resultOf": "c1", "name": "Other/name", "path": ""}}, "c2"],
            ["Core/echo", {"#b": {"resultOf": "c1", "name": "Core/echo", "path": "/list/2"}}, "c3"],
            ["Core/echo", {"#c": {"resultOf": "c1", "name": "Core/echo", "path": "/list/01"}}, "c4"],
            ["Core/echo", {"#d": {"resultOf": "c1", "name": "Core/echo", "path": "/missing"}}, "c5"],
            ["Core/echo", {"#e": {"resultOf": "c1", "name": "Core/echo", "path": "/list/0/deeper"}}, "c6"],
            ["Core/echo", {"#f": {"resultOf": "c1", "name": "Core/echo", "path": "/list/0"}, "ok": true}, "c7"]
        ]}"##,
        0,
    );
    for k in 1..6 {
        assert_eq!(
            from_json(&resp.method_responses[k].encode())[1],
            value(r#"{"type": "invalidResultReference"}"#)
        );
    }
    assert_eq!(wire(&resp.method_responses[6]), value(r#"["Core/echo", {"f": 1, "ok": true}, "c7"]"#));
}

#[test]
fn response_encodes_state_and_calls() {
    let resp = run(r#"{"using": [], "methodCalls": [["Core/echo", {}, "c1"]]}"#, 42);
    assert_eq!(
        from_json(&resp.encode()),
        value(r#"{"methodResponses": [["Core/echo", {}, "c1"]], "sessionState": "42"}"#)
    );
}

#[test]
fn large_state_is_written_in_decimal() {
    let resp = run(r#"{"using": [], "methodCalls": []}"#, u64::MAX);
    assert_eq!(resp.session_state.0, "18446744073709551615");
    assert!(resp.method_responses.is_empty());
}

#[test]
fn method_error_names() {
    let all = [
        (MethodError::ServerUnavailable, "serverUnavailable"),
        (MethodError::ServerFail, "serverFail"),
        (MethodError::ServerPartialFail, "serverPartialFail"),
        (MethodError::UnknownMethod, "unknownMethod"),
        (MethodError::InvalidArguments, "invalidArguments"),
        (MethodError::InvalidResultReference, "invalidResultReference"),
        (MethodError::Forbidden, "forbidden"),
        (MethodError::AccountNotFound, "accountNotFound"),
        (MethodError::AccountNotSupportedByMethod, "accountNotSupportedByMethod"),
        (MethodError::AccountReadOnly, "accountReadOnly"),
    ];
    for (e, name) in all {
        assert_eq!(e.name(), name);
        let inv = e.into_invocation("id".to_string());
        assert_eq!(wire(&inv), value(&format!(r#"["error", {{"type": "{}"}}, "id"]"#, name)));
    }
}

#[test]
fn problem_uris() {
    assert_eq!(ProblemType::UnknownCapability.uri(), "urn:ietf:params:jmap:error:unknownCapability");
    assert_eq!(ProblemType::NotJson.uri(), "urn:ietf:params:jmap:error:notJSON");
    assert_eq!(ProblemType::NotRequest.uri(), "urn:ietf:params:jmap:error:notRequest");
    assert_eq!(ProblemType::OverLimit.uri(), "urn:ietf:params:jmap:error:limit");
}

#[test]
fn session_capabilities_carry_limits() {
    let (registry, _) = setup();
    let caps = registry.build_session_capabilities(1);
    assert_eq!(caps.len(), 2);
    assert_eq!(caps[0].0, Core::extension());
    assert_eq!(
        from_json(&caps[0].1),
        value(r#"{"maxSizeUpload": 50000000, "maxConcurrentUpload": 4, "maxSizeRequest": 10000000, "maxConcurrentRequests": 4, "maxCallsInRequest": 16, "maxObjectsInGet": 500, "maxObjectsInSet": 500, "collationAlgorithms": []}"#)
    );
    assert_eq!(caps[1].0, Principals::extension());
    assert_eq!(from_json(&caps[1].1), value("{}"));
}

#[test]
fn core_capabilities_defaults() {
    let c = CoreCapabilities::default();
    assert_eq!(c.max_size_upload, 50_000_000);
    assert_eq!(c.max_concurrent_upload, 4);
    assert_eq!(c.max_size_request, 10_000_000);
    assert_eq!(c.max_concurrent_requests, 4);
    assert_eq!(c.max_calls_in_request, 16);
    assert_eq!(c.max_objects_in_get, 500);
    assert_eq!(c.max_objects_in_set, 500);
}

#[test]
fn custom_limits_show_in_capabilities() {
    let mut c = CoreCapabilities::default();
    c.max_calls_in_request = 7;
    let registry = ExtensionRegistry::new(c);
    let caps = registry.build_session_capabilities(1);
    assert_eq!(from_json(&caps[0].1)["maxCallsInRequest"], value("7"));
}

#[test]
fn request_check_refuses_unknown_capability_and_too_many_calls() {
    let (registry, _) = setup();
    let ok = Request::decode(&parse(
        r#"{"using": ["urn:ietf:params:jmap:core", "urn:ietf:params:jmap:principals"], "methodCalls": [["Core/echo", {}, "c1"]]}"#,
    ))
    .unwrap();
    assert_eq!(check_request(&ok, &registry), None);
    let unknown = Request::decode(&parse(
        r#"{"using": ["urn:ietf:params:jmap:core", "urn:example:nope"], "methodCalls": []}"#,
    ))
    .unwrap();
    assert_eq!(check_request(&unknown, &registry), Some(ProblemType::UnknownCapability));
    let calls: Vec<String> = (0..17).map(|i| format!(r#"["Core/echo", {{}}, "c{}"]"#, i)).collect();
    let many = Request::decode(&parse(&format!(
        r#"{{"using": ["urn:ietf:params:jmap:core"], "methodCalls": [{}]}}"#,
        calls.join(", ")
    )))
    .unwrap();
    assert_eq!(check_request(&many, &registry), Some(ProblemType::OverLimit));
    let sixteen = Request::decode(&parse(&format!(
        r#"{{"using": [], "methodCalls": [{}]}}"#,
        calls[..16].join(", ")
    )))
    .unwrap();
    assert_eq!(check_request(&sixteen, &registry), None);
}
