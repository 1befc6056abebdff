use flyd::json::{obj_get, render_json, str_eq, Json};

fn rendered(j: &Json) -> String {
    render_json(j).iter().collect()
}

#[test]
fn renders_scalars() {
    assert_eq!(rendered(&Json::Null), "null");
    assert_eq!(rendered(&Json::Bool(true)), "true");
    assert_eq!(rendered(&Json::Bool(false)), "false");
    assert_eq!(rendered(&Json::Num(String::from("-1.5e10"))), "-1.5e10");
    assert_eq!(rendered(&Json::Str(String::from("hi"))), "\"hi\"");
}

#[test]
fn renders_empty_containers() {
    assert_eq!(rendered(&Json::Arr(vec![])), "[]");
    assert_eq!(rendered(&Json::Obj(vec![])), "{}");
}

#[test]
fn renders_nested_structures() {
    let j = Json::Obj(vec![
        (
            String::from("a"),
            Json::Arr(vec![Json::Num(String::from("1")), Json::Null, Json::Bool(false)]),
        ),
        (String::from("b"), Json::Obj(vec![(String::from("c"), Json::Str(String::from("d")))])),
    ]);
    assert_eq!(rendered(&j), "{\"a\":[1,null,false],\"b\":{\"c\":\"d\"}}");
}

#[test]
fn escapes_string_characters() {
    let j = Json::Str(String::from("q\"b\\n\nt\tu\u{1}"));
    assert_eq!(rendered(&j), "\"q\\\"b\\\\n\\nt\\tu\\u0001\"");
}

#[test]
fn escape_agrees_with_upstream_serializer() {
    let text = "q\"b\\n\nt\tr\ru\u{1}\u{1f}\u{8}\u{c}";
    let mine = rendered(&Json::Str(String::from(text)));
    let theirs = serde_json::to_string(&serde_json::Value::String(String::from(text))).unwrap();
    assert_eq!(mine, theirs);
}

#[test]
fn object_lookup_finds_first_occurrence() {
    let pairs = vec![
        (String::from("k"), Json::Num(String::from("1"))),
        (String::from("k"), Json::Num(String::from("2"))),
        (String::from("other"), Json::Null),
    ];
    match obj_get(&pairs, "k") {
        Some(Json::Num(n)) => assert_eq!(n.as_str(), "1"),
        _ => panic!("lookup failed"),
    }
    assert!(obj_get(&pairs, "missing").is_none());
}

#[test]
fn string_equality_is_exact() {
    assert!(str_eq("abc", "abc"));
    assert!(!str_eq("abc", "abd"));
    assert!(!str_eq("abc", "ab"));
    assert!(str_eq("", ""));
    assert!(str_eq("d\u{ed}a", "d\u{ed}a"));
}

#[test]
fn rendered_output_is_accepted_by_the_upstream_parser() {
    let j = Json::Obj(vec![
        (
            String::from("a"),
            Json::Arr(vec![Json::Num(String::from("1")), Json::Null, Json::Bool(false)]),
        ),
        (String::from("b"), Json::Obj(vec![(String::from("c"), Json::Str(String::from("d")))])),
    ]);
    let text = rendered(&j);
    let parsed: serde_json::Value = serde_json::from_str(&text).unwrap();
    assert_eq!(serde_json::to_string(&parsed).unwrap(), text);
}

#[test]
fn rendered_output_is_json_equivalent_to_its_source() {
    let j = Json::Obj(vec![
        (String::from("name"), Json::Str(String::from("m1"))),
        (String::from("region"), Json::Str(String::from("iad"))),
    ]);
    let parsed: serde_json::Value = serde_json::from_str(&rendered(&j)).unwrap();
    let expected: serde_json::Value =
        serde_json::from_str("{\"region\":\"iad\",\"name\":\"m1\"}").unwrap();
    assert_eq!(parsed, expected);
}
