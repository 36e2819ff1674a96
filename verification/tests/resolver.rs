use cadre::failure::Failure;
use cadre::json::Json;
use cadre::server::resolver::{EchoJson, EchoName, Resolver, ResolverChain};

#[test]
fn empty_resolver() {
    let chain: ResolverChain<EchoName> = ResolverChain::new();
    assert!(chain.resolve("hello:world").is_err());
}

#[test]
fn echo_resolver() {
    let mut chain = ResolverChain::new();
    assert!(chain.add(EchoName));
    assert!(matches!(chain.resolve("echo:world"), Err(Failure::InvalidJson { .. })));
    assert_eq!(chain.resolve("echo:\"world\"").unwrap(), Json::String("world".to_string()));
    assert!(chain.resolve("hello:world").is_err());

    assert!(!chain.add(EchoName));
}

#[test]
fn resolve_splits_at_the_first_delimiter() {
    let mut chain = ResolverChain::new();
    assert!(chain.add(EchoName));
    assert!(matches!(chain.resolve("echo:a:b:c"), Err(Failure::InvalidJson { .. })));
    assert!(matches!(chain.resolve("echo:"), Err(Failure::InvalidJson { .. })));
    assert_eq!(chain.resolve("echo:\"a:b:c\"").unwrap(), Json::String("a:b:c".to_string()));
    assert_eq!(
        chain.resolve("echo:{\"a:b\": \"c:d\"}").unwrap(),
        Json::parse("{\"a:b\": \"c:d\"}").unwrap()
    );
}

#[test]
fn resolve_reports_a_missing_delimiter() {
    let mut chain = ResolverChain::new();
    assert!(chain.add(EchoName));
    match chain.resolve("echo") {
        Err(Failure::MissingDelimiter { placeholder }) => assert_eq!(placeholder, "echo"),
        other => panic!("unexpected reply: {other:?}"),
    }
}

#[test]
fn resolve_reports_the_known_prefixes() {
    let mut chain = ResolverChain::new();
    assert!(chain.add(EchoName));
    match chain.resolve("hello:world") {
        Err(Failure::UnknownPrefix { prefix, known }) => {
            assert_eq!(prefix, "hello");
            assert_eq!(known, vec!["echo".to_string()]);
        }
        other => panic!("unexpected reply: {other:?}"),
    }
    assert_eq!(chain.known_prefixes(), vec!["echo".to_string()]);
}

#[test]
fn echo_json_reads_the_name_as_json() {
    assert_eq!(EchoJson.prefix(), "echo");
    assert_eq!(EchoName.prefix(), "echo");
    assert_eq!(EchoJson.resolve("4").unwrap(), Json::Number("4".to_string()));
    assert_eq!(EchoJson.resolve("\"x\"").unwrap(), Json::String("x".to_string()));
    assert!(matches!(EchoJson.resolve("world"), Err(Failure::InvalidJson { .. })));
    assert_eq!(EchoName.resolve("4").unwrap(), Json::Number("4".to_string()));
    assert_eq!(EchoName.resolve("\"4\"").unwrap(), Json::String("4".to_string()));
    assert!(matches!(EchoName.resolve("world"), Err(Failure::InvalidJson { .. })));
    let document = "{\"*b\": \"echo:4\", \"list\": [1, null, {\"k\": true}]}";
    assert_eq!(EchoName.resolve(document).unwrap(), Json::parse(document).unwrap());

    let mut chain = ResolverChain::new();
    assert!(chain.add(EchoJson));
    assert_eq!(chain.resolve("echo:[true]").unwrap(), Json::Array(vec![Json::Bool(true)]));
    assert!(chain.resolve("echo:world").is_err());
}

/// Gives back the length of the name.
struct Length;

impl Resolver for Length {
    fn prefix(&self) -> &'static str {
        "len"
    }

    fn resolve(&self, name: &str) -> Result<Json, Failure> {
        Ok(Json::Number(name.chars().count().to_string()))
    }
}

#[test]
fn boxed_resolvers_of_several_kinds_share_a_chain() {
    let mut chain: ResolverChain<Box<dyn Resolver>> = ResolverChain::new();
    assert!(chain.add(Box::new(EchoJson)));
    assert!(chain.add(Box::new(Length)));
    assert!(!chain.add(Box::new(EchoName)));
    assert_eq!(chain.known_prefixes(), vec!["echo".to_string(), "len".to_string()]);
    assert_eq!(chain.resolve("echo:[1]").unwrap(), Json::Array(vec![Json::Number("1".to_string())]));
    assert_eq!(chain.resolve("len:héllo").unwrap(), Json::Number("5".to_string()));
    assert!(matches!(chain.resolve("aws:x"), Err(Failure::UnknownPrefix { .. })));
}
