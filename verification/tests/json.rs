use cadre::json::{Json, Object};

fn text(s: &str) -> Json {
    Json::String(s.to_string())
}

fn object(entries: Vec<(&str, Json)>) -> Json {
    let mut object = Object::new();
    for (key, value) in entries {
        object.insert(key.to_string(), value);
    }
    Json::Object(object)
}

#[test]
fn parse_reads_nested_documents() {
    let parsed = Json::parse("{\"a\": {\"b\": [1, true, null, \"x\"]}, \"c\": -2.5}").unwrap();
    let expected = object(vec![
        (
            "a",
            object(vec![(
                "b",
                Json::Array(vec![
                    Json::Number("1".to_string()),
                    Json::Bool(true),
                    Json::Null,
                    text("x"),
                ]),
            )]),
        ),
        ("c", Json::Number("-2.5".to_string())),
    ]);
    assert_eq!(parsed, expected);
}

#[test]
fn parse_refuses_what_is_not_json() {
    assert!(Json::parse("$@not@avalidliteral").is_err());
    assert!(Json::parse("").is_err());
}

#[test]
fn equality_ignores_the_order_of_keys() {
    let a = object(vec![("x", text("1")), ("y", text("2"))]);
    let b = object(vec![("y", text("2")), ("x", text("1"))]);
    let c = object(vec![("y", text("2")), ("x", text("3"))]);
    assert_eq!(a, b);
    assert_ne!(a, c);
    assert_ne!(a, object(vec![("x", text("1"))]));
}

#[test]
fn numbers_keep_the_text_that_serde_json_gives_them() {
    assert_eq!(Json::parse("10").unwrap(), Json::Number("10".to_string()));
    assert_eq!(Json::parse("-3").unwrap(), Json::Number("-3".to_string()));
    assert_eq!(
        Json::parse("18446744073709551615").unwrap(),
        Json::Number("18446744073709551615".to_string())
    );
    assert_eq!(Json::parse("2.50").unwrap(), Json::Number("2.5".to_string()));
    assert_eq!(Json::parse("1e2").unwrap(), Json::Number("100.0".to_string()));
    assert_ne!(Json::parse("1").unwrap(), Json::parse("1.0").unwrap());
    assert_ne!(Json::parse("1").unwrap(), Json::String("1".to_string()));
}

#[test]
fn from_value_reads_every_variant() {
    let value: serde_json::Value =
        serde_json::from_str("{\"a\": [null, false, 7, \"s\", {\"b\": {}}]}").unwrap();
    let expected = object(vec![(
        "a",
        Json::Array(vec![
            Json::Null,
            Json::Bool(false),
            Json::Number("7".to_string()),
            text("s"),
            object(vec![("b", object(vec![]))]),
        ]),
    )]);
    assert_eq!(Json::from_value(&value), expected);
}

#[test]
fn clones_are_equal_and_apart() {
    let original = Json::parse("{\"a\": [1, {\"b\": \"c\"}], \"d\": null}").unwrap();
    let mut copy = original.clone();
    assert_eq!(copy, original);
    if let Json::Object(entries) = &mut copy {
        entries.insert("d".to_string(), Json::Bool(true));
    }
    assert_ne!(copy, original);
    assert_eq!(original, Json::parse("{\"d\": null, \"a\": [1, {\"b\": \"c\"}]}").unwrap());
}

#[test]
fn strings_keep_their_characters() {
    let parsed = Json::parse("\"caf\\u00e9 \\\"x\\\" \\n\"").unwrap();
    assert_eq!(parsed, text("café \"x\" \n"));
    let keyed = Json::parse("{\"clé\": 1}").unwrap();
    assert_eq!(keyed, object(vec![("clé", Json::Number("1".to_string()))]));
}
