use cadre::failure::Failure;
use cadre::json::{Json, Object};
use cadre::server::resolver::{EchoJson, Resolver, ResolverChain};
use cadre::server::template::{
    merge_templates, populate_template, populate_within, starts_with_mark, strip_mark,
    MAX_RESOLVE_DEPTH,
    TEMPLATE_MARK,
};

fn json(text: &str) -> Json {
    Json::parse(text).unwrap()
}

fn echo_chain() -> ResolverChain<EchoJson> {
    let mut chain = ResolverChain::new();
    assert!(chain.add(EchoJson));
    chain
}

#[test]
fn merge_templates_basic() {
    let mut dest = json(r#"{ "a": "b" }"#);
    let src = json(r#"{ "c": "d" }"#);
    merge_templates(&mut dest, &src);
    assert_eq!(dest, json(r#"{ "a": "b", "c": "d" }"#));
}

#[test]
fn template_merge_templates_basic() {
    let mut dest = json(r#"{ "a": "b" }"#);
    let src = json(r#"{ "c": "d" }"#);
    merge_templates(&mut dest, &src);
    assert_eq!(dest, json(r#"{ "a": "b", "c": "d" }"#));
}

fn replacement_dest() -> Json {
    json(
        r#"{
            "a": "b",
            "c": { "d": "e" },
            "f": { "g": "h", "i": [1, 2, 3] }
        }"#,
    )
}

fn replacement_src() -> Json {
    json(
        r#"{
            "a": "x",
            "c": 123123,
            "f": { "a": 42, "g": "y", "i": [1, 2, 4], "p": { "x": "y" } },
            "z": "hello"
        }"#,
    )
}

fn replacement_expected() -> Json {
    json(
        r#"{
            "a": "b",
            "c": { "d": "e" },
            "f": { "a": 42, "g": "h", "i": [1, 2, 3], "p": { "x": "y" } },
            "z": "hello"
        }"#,
    )
}

#[test]
fn merge_templates_replacement() {
    let mut dest = replacement_dest();
    let src = replacement_src();
    merge_templates(&mut dest, &src);
    assert_eq!(dest, replacement_expected());
}

#[test]
fn template_merge_templates_replacement() {
    let mut dest = replacement_dest();
    let src = replacement_src();
    merge_templates(&mut dest, &src);
    assert_eq!(dest, replacement_expected());
}

#[test]
fn merge_templates_deep() {
    let src = json(r#"{"a": {"b": {"c": {"d": "e"}}}}"#);

    let mut dest = json("{}");
    merge_templates(&mut dest, &src);
    assert_eq!(dest, src);

    let mut dest = json(r#"{"a": {"b": {"c": {"k": "l"}}}}"#);
    merge_templates(&mut dest, &src);
    assert_eq!(dest, json(r#"{"a": {"b": {"c": {"d": "e", "k": "l"}}}}"#));
}

#[test]
fn template_merge_templates_deep() {
    let src = json(r#"{"a": {"b": {"c": {"d": "e"}}}}"#);

    let mut dest = json("{}");
    merge_templates(&mut dest, &src);
    assert_eq!(dest, src);

    let mut dest = json(r#"{"a": {"b": {"c": {"k": "l"}}}}"#);
    merge_templates(&mut dest, &src);
    assert_eq!(dest, json(r#"{"a": {"b": {"c": {"d": "e", "k": "l"}}}}"#));
}

#[test]
fn merge_template_with_populate() {
    let chain = echo_chain();

    // Templates are merged correctly when base templated keys exist.
    let mut dest = json(r#"{ "*a": "echo:\"hello\"" }"#);
    let src = json(r#"{ "c": "d" }"#);

    populate_template(&mut dest, &chain).unwrap();
    merge_templates(&mut dest, &src);
    assert_eq!(dest, json(r#"{ "a": "hello", "c": "d" }"#));

    // Nested templates are merged superimposing keys from destination,
    // even if the latter is templated.
    let mut dest = json(r#"{ "a": { "*b": "echo:\"hello\"" } }"#);
    let src = json(r#"{ "a": { "b": "foo", "c": "bar" } }"#);

    populate_template(&mut dest, &chain).unwrap();
    merge_templates(&mut dest, &src);
    assert_eq!(dest, json(r#"{ "a": { "b": "hello", "c": "bar" } }"#));
}

#[test]
fn populate_with_resolver() {
    let chain = echo_chain();

    let mut value = json(r#"{"a": {"value": "3", "*rep": "echo:\"hello\""}}"#);
    populate_template(&mut value, &chain).unwrap();
    assert_eq!(value, json(r#"{"a": {"value": "3", "rep": "hello"}}"#));

    // Recursive resolvers
    let mut value = json(r#"{"*a": "echo:{\"*b\": \"echo:4\"}"}"#);
    populate_template(&mut value, &chain).unwrap();
    assert_eq!(value, json(r#"{"a": {"b": 4}}"#));
}

#[test]
fn fail_populate() {
    let chain: ResolverChain<EchoJson> = ResolverChain::new();

    let mut value = json(r#"{"*missing": "foo:bar"}"#);
    assert!(populate_template(&mut value, &chain).is_err());

    let mut value = json(r#"{"*invalid": "$@not@avalidliteral"}"#);
    assert!(populate_template(&mut value, &chain).is_err());
}

#[test]
fn merge_is_the_union_on_disjoint_keys_in_either_order() {
    let a = json(r#"{"a": 1, "b": {"x": true}}"#);
    let b = json(r#"{"c": [1, 2], "d": null}"#);
    let union = json(r#"{"a": 1, "b": {"x": true}, "c": [1, 2], "d": null}"#);

    let mut ab = a.clone();
    merge_templates(&mut ab, &b);
    assert_eq!(ab, union);

    let mut ba = b.clone();
    merge_templates(&mut ba, &a);
    assert_eq!(ba, union);

    let mut again = ab.clone();
    merge_templates(&mut again, &b);
    assert_eq!(again, ab);

    let mut itself = ab.clone();
    merge_templates(&mut itself, &ab);
    assert_eq!(itself, ab);
}

#[test]
fn merge_keeps_the_destination_where_values_are_not_both_objects() {
    let src = json(r#"{"k": {"inner": 1}}"#);
    for kept in ["1", "\"text\"", "[1]", "null", "false"] {
        let mut dest = json(&format!("{{\"k\": {kept}}}"));
        let expected = dest.clone();
        merge_templates(&mut dest, &src);
        assert_eq!(dest, expected);
    }
    let mut dest = json(r#"{"k": {"inner": 1}}"#);
    merge_templates(&mut dest, &json(r#"{"k": 7}"#));
    assert_eq!(dest, json(r#"{"k": {"inner": 1}}"#));
}

#[test]
fn merge_leaves_what_is_no_object_alone() {
    let mut dest = json("[1, 2]");
    merge_templates(&mut dest, &json(r#"{"a": 1}"#));
    assert_eq!(dest, json("[1, 2]"));

    let mut dest = json(r#"{"a": 1}"#);
    merge_templates(&mut dest, &json("\"text\""));
    assert_eq!(dest, json(r#"{"a": 1}"#));
}

#[test]
fn merge_compares_keys_as_they_are_written() {
    let mut dest = json(r#"{"*foo": "echo:1"}"#);
    merge_templates(&mut dest, &json(r#"{"foo": "bar"}"#));
    assert_eq!(dest, json(r#"{"*foo": "echo:1", "foo": "bar"}"#));
}

#[test]
fn populate_removes_every_mark() {
    let chain = echo_chain();
    let mut value = json(
        r#"{
            "plain": 1,
            "*a": "echo:{\"*b\": \"echo:{\\\"*c\\\": \\\"echo:true\\\"}\"}",
            "nested": {"*d": "echo:[1, 2]", "e": {"*f": "echo:null"}}
        }"#,
    );
    populate_template(&mut value, &chain).unwrap();
    assert_eq!(
        value,
        json(r#"{"plain": 1, "a": {"b": {"c": true}}, "nested": {"d": [1, 2], "e": {"f": null}}}"#)
    );
}

#[test]
fn populate_fails_on_a_marked_key_that_holds_no_string() {
    let chain = echo_chain();
    let mut value = json(r#"{"*k": 123}"#);
    let before = value.clone();
    let failure = populate_template(&mut value, &chain).unwrap_err();
    assert!(matches!(failure, Failure::NonStringValue { ref key } if key == "*k"));
    assert_eq!(value, before);
}

#[test]
fn populate_fails_on_an_unknown_prefix() {
    let chain = echo_chain();
    let mut value = json(r#"{"*k": "foo:bar"}"#);
    let failure = populate_template(&mut value, &chain).unwrap_err();
    match failure {
        Failure::UnknownPrefix { prefix, known } => {
            assert_eq!(prefix, "foo");
            assert_eq!(known, vec!["echo".to_string()]);
        }
        other => panic!("unexpected failure: {other:?}"),
    }
}

#[test]
fn populate_fails_on_a_placeholder_without_delimiter() {
    let chain = echo_chain();
    let mut value = json(r#"{"a": {"*k": "nodelimiter"}}"#);
    let failure = populate_template(&mut value, &chain).unwrap_err();
    assert!(matches!(failure, Failure::MissingDelimiter { .. }));
}

#[test]
fn populate_lets_the_marked_key_win_over_the_plain_one() {
    let chain = echo_chain();
    let mut value = json(r#"{"foo": "bar", "*foo": "echo:\"banana\""}"#);
    populate_template(&mut value, &chain).unwrap();
    assert_eq!(value, json(r#"{"foo": "banana"}"#));

    let mut value = json(r#"{"*foo": "echo:\"banana\"", "foo": {"*broken": 1}}"#);
    populate_template(&mut value, &chain).unwrap();
    assert_eq!(value, json(r#"{"foo": "banana"}"#));
}

#[test]
fn populate_leaves_arrays_and_scalars_alone() {
    let chain = echo_chain();
    let mut value = json(r#"{"list": [{"*k": "echo:1"}], "n": 3}"#);
    populate_template(&mut value, &chain).unwrap();
    assert_eq!(value, json(r#"{"list": [{"*k": "echo:1"}], "n": 3}"#));

    let mut value = json(r#"[{"*k": 5}]"#);
    populate_template(&mut value, &chain).unwrap();
    assert_eq!(value, json(r#"[{"*k": 5}]"#));
}

#[test]
fn populate_strips_one_mark_only() {
    let chain = echo_chain();
    let mut value = json(r#"{"**k": "echo:1"}"#);
    populate_template(&mut value, &chain).unwrap();
    assert_eq!(value, json(r#"{"*k": 1}"#));
}

#[test]
fn populate_asks_nobody_where_nothing_is_marked() {
    let chain: ResolverChain<EchoJson> = ResolverChain::new();
    let mut value = json(r#"{"a": {"b": [1, {"c": "echo:1"}]}, "d": "x:y"}"#);
    let before = value.clone();
    populate_template(&mut value, &chain).unwrap();
    assert_eq!(value, before);
}

/// Answers a count with a placeholder for the count below it, and zero with
/// a plain value.
struct CountDown;

impl Resolver for CountDown {
    fn prefix(&self) -> &'static str {
        "down"
    }

    fn resolve(&self, name: &str) -> Result<Json, Failure> {
        match name.parse::<usize>() {
            Ok(0) => Ok(Json::Bool(true)),
            Ok(n) => Json::parse(&format!("{{\"*next\": \"down:{}\"}}", n - 1)),
            Err(error) => Err(Failure::Backend { detail: error.to_string() }),
        }
    }
}

fn nested(levels: usize) -> Json {
    let mut value = Json::Bool(true);
    for _ in 0..levels {
        let mut object = Object::new();
        object.insert("next".to_string(), value);
        value = Json::Object(object);
    }
    value
}

#[test]
fn populate_follows_placeholders_to_any_depth() {
    assert_eq!(MAX_RESOLVE_DEPTH, usize::MAX);
    let mut chain = ResolverChain::new();
    assert!(chain.add(CountDown));

    let mut value = json(r#"{"*next": "down:2"}"#);
    populate_template(&mut value, &chain).unwrap();
    assert_eq!(value, nested(3));

    for levels in [64usize, 65, 66, 200] {
        let mut value = json(&format!("{{\"*next\": \"down:{}\"}}", levels - 1));
        populate_template(&mut value, &chain).unwrap();
        assert_eq!(value, nested(levels));
    }
}

#[test]
fn populate_within_stops_at_the_bound_of_the_caller() {
    let mut chain = ResolverChain::new();
    assert!(chain.add(CountDown));

    let mut within = json(r#"{"*next": "down:2"}"#);
    populate_within(&mut within, &chain, 3).unwrap();
    assert_eq!(within, nested(3));

    let mut beyond = json(r#"{"*next": "down:3"}"#);
    let before = beyond.clone();
    let failure = populate_within(&mut beyond, &chain, 3).unwrap_err();
    assert!(matches!(failure, Failure::ResolutionTooDeep));
    assert_eq!(beyond, before);

    let mut marked = json(r#"{"a": {"*k": "down:0"}}"#);
    let failure = populate_within(&mut marked, &chain, 0).unwrap_err();
    assert!(matches!(failure, Failure::ResolutionTooDeep));

    let mut plain = json(r#"{"a": {"k": [1, 2]}}"#);
    populate_within(&mut plain, &chain, 0).unwrap();
    assert_eq!(plain, json(r#"{"a": {"k": [1, 2]}}"#));
}

#[test]
fn populate_hands_a_failed_resolution_on() {
    let mut chain = ResolverChain::new();
    assert!(chain.add(CountDown));
    let mut value = json(r#"{"a": 1, "*next": "down:many"}"#);
    let before = value.clone();
    let failure = populate_template(&mut value, &chain).unwrap_err();
    assert!(matches!(failure, Failure::Backend { .. }));
    assert_eq!(value, before);
}

#[test]
fn marks_are_told_and_stripped() {
    assert_eq!(TEMPLATE_MARK, "*");
    assert!(starts_with_mark("*key"));
    assert!(starts_with_mark("*"));
    assert!(!starts_with_mark("key*"));
    assert!(!starts_with_mark(""));
    assert_eq!(strip_mark("*key"), Some("key".to_string()));
    assert_eq!(strip_mark("**key"), Some("*key".to_string()));
    assert_eq!(strip_mark("*"), Some(String::new()));
    assert_eq!(strip_mark("key"), None);
    assert_eq!(strip_mark(""), None);
}
