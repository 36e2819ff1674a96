use cadre::cli::{Args, Backend, DEFAULT_PORT};
use cadre::client::{check_status, config_url, configs_url, template_url};
use cadre::failure::Failure;
use cadre::json::{same_text, Json, Object};
use cadre::server::{
    authorized, status_of, Operation, SECRET_HEADER, STATUS_NOT_FOUND, STATUS_OK,
    STATUS_SERVER_ERROR, STATUS_UNAUTHORIZED,
};

fn args(bucket: Option<&str>, local_dir: Option<&str>) -> Args {
    Args {
        port: DEFAULT_PORT,
        secret: "s3cret".to_string(),
        bucket: bucket.map(String::from),
        local_dir: local_dir.map(String::from),
        default_template: None,
    }
}

#[test]
fn arguments_choose_the_storage() {
    assert_eq!(DEFAULT_PORT, 7608);
    assert!(matches!(args(Some("b"), None).backend(), Ok(Backend::Bucket(ref name)) if name == "b"));
    assert!(matches!(args(None, Some("/d")).backend(), Ok(Backend::LocalDir(ref name)) if name == "/d"));
    assert!(matches!(args(None, None).backend(), Ok(Backend::Memory)));
    assert!(matches!(args(Some("b"), Some("/d")).backend(), Err(Failure::AmbiguousStorage)));
}

#[test]
fn requests_pass_with_the_exact_secret_only() {
    assert_eq!(SECRET_HEADER, "X-Cadre-Secret");
    assert!(authorized(Some("s3cret"), "s3cret"));
    assert!(!authorized(Some("s3cret "), "s3cret"));
    assert!(!authorized(Some("S3CRET"), "s3cret"));
    assert!(!authorized(Some(""), "s3cret"));
    assert!(!authorized(None, "s3cret"));
    assert!(!authorized(None, ""));
    assert!(authorized(Some(""), ""));
}

#[test]
fn client_addresses() {
    assert_eq!(template_url("http://localhost:7608", "prod"), "http://localhost:7608/t/prod");
    assert_eq!(config_url("http://localhost:7608", "prod"), "http://localhost:7608/c/prod");
    assert_eq!(configs_url("http://localhost:7608"), "http://localhost:7608/c");
}

#[test]
fn client_reads_the_status() {
    assert!(check_status(200).is_ok());
    assert!(check_status(204).is_ok());
    assert!(check_status(299).is_ok());
    assert!(matches!(check_status(500), Err(Failure::ServerError { status: 500 })));
    assert!(matches!(check_status(599), Err(Failure::ServerError { status: 599 })));
    assert!(matches!(check_status(404), Err(Failure::RequestFailed { status: 404 })));
    assert!(matches!(check_status(401), Err(Failure::RequestFailed { status: 401 })));
    assert!(matches!(check_status(199), Err(Failure::RequestFailed { status: 199 })));
    assert!(matches!(check_status(300), Err(Failure::RequestFailed { status: 300 })));
    assert!(matches!(check_status(600), Err(Failure::RequestFailed { status: 600 })));
}

#[test]
fn failures_say_what_went_wrong() {
    assert_eq!(
        Failure::NonStringValue { key: "*k".to_string() }.message(),
        "templated key *k is of non-string type"
    );
    assert_eq!(
        Failure::MissingDelimiter { placeholder: "abc".to_string() }.message(),
        "templated value abc is missing delimiter character ':'"
    );
    assert_eq!(
        Failure::UnknownPrefix {
            prefix: "foo".to_string(),
            known: vec!["aws".to_string(), "echo".to_string()],
        }
        .message(),
        "could not find prefix foo in the list of resolvers: aws echo"
    );
    assert_eq!(
        Failure::UnknownPrefix { prefix: "foo".to_string(), known: Vec::new() }.message(),
        "could not find prefix foo in the list of resolvers:"
    );
    assert_eq!(Failure::MissingSecretString.message(), "missing secret string");
    assert_eq!(
        Failure::MissingTemplate { env: "prod".to_string() }.message(),
        "missing template prod"
    );
    assert_eq!(Failure::InvalidJson { detail: "eof".to_string() }.message(), "invalid JSON: eof");
    assert_eq!(Failure::Backend { detail: "down".to_string() }.message(), "backend failure: down");
    assert_eq!(
        Failure::ResolutionTooDeep.message(),
        "resolved values nest placeholders too deeply"
    );
    assert_eq!(
        Failure::AmbiguousStorage.message(),
        "must specify at most one of --bucket or --local-dir"
    );
    assert_eq!(
        Failure::StorageFailed { detail: "denied".to_string() }.message(),
        "storage failure: denied"
    );
    assert_eq!(Failure::ServerError { status: 503 }.message(), "cadre server error: 503");
    assert_eq!(Failure::RequestFailed { status: 404 }.message(), "cadre request failed: 404");
    assert_eq!(Failure::RequestFailed { status: 0 }.message(), "cadre request failed: 0");
    assert_eq!(Failure::RequestFailed { status: 7 }.message(), "cadre request failed: 7");
    assert_eq!(Failure::RequestFailed { status: 100 }.message(), "cadre request failed: 100");
    assert_eq!(
        Failure::RequestFailed { status: u16::MAX }.message(),
        "cadre request failed: 65535"
    );
}

#[test]
fn objects_keep_one_value_for_each_key() {
    let mut object = Object::new();
    assert_eq!(object.len(), 0);
    assert!(object.insert("a".to_string(), Json::Null).is_none());
    assert!(object.insert("b".to_string(), Json::Bool(true)).is_none());
    assert_eq!(object.insert("a".to_string(), Json::Bool(false)), Some(Json::Null));
    assert_eq!(object.len(), 2);
    assert!(object.contains_key("a"));
    assert!(!object.contains_key("c"));
    assert_eq!(object.get("a"), Some(&Json::Bool(false)));
    assert_eq!(object.get("c"), None);
    let keys: Vec<&str> = object.entries().iter().map(|entry| entry.0.as_str()).collect();
    assert_eq!(keys, vec!["a", "b"]);
    assert_eq!(object.remove("a"), Some(Json::Bool(false)));
    assert_eq!(object.remove("a"), None);
    assert_eq!(object.len(), 1);
    assert_eq!(object.into_entries(), vec![("b".to_string(), Json::Bool(true))]);
}

#[test]
fn documents_show_their_text_and_entries() {
    assert_eq!(Json::String("x".to_string()).as_str(), Some("x"));
    assert_eq!(Json::Number("1".to_string()).as_str(), None);
    assert!(Json::Object(Object::new()).as_object().is_some());
    assert!(Json::Array(Vec::new()).as_object().is_none());
    assert!(same_text("héllo", "héllo"));
    assert!(!same_text("héllo", "hello"));
    assert!(!same_text("a", "ab"));
}

#[test]
fn parse_keeps_the_last_of_two_equal_keys() {
    let parsed = Json::parse("{\"a\": 1, \"a\": 2}").unwrap();
    let mut object = Object::new();
    object.insert("a".to_string(), Json::Number("2".to_string()));
    assert_eq!(parsed, Json::Object(object));
}

#[test]
fn answers_carry_the_status_of_the_outcome() {
    assert_eq!(STATUS_OK, 200);
    assert_eq!(STATUS_UNAUTHORIZED, 401);
    assert_eq!(STATUS_NOT_FOUND, 404);
    assert_eq!(STATUS_SERVER_ERROR, 500);
    let missing = Failure::MissingTemplate { env: "prod".to_string() };
    let storage = Failure::StorageFailed { detail: "denied".to_string() };
    let unresolved = Failure::UnknownPrefix { prefix: "x".to_string(), known: Vec::new() };
    let secret = Failure::Backend { detail: "unreachable".to_string() };
    for operation in [
        Operation::ReadTemplate,
        Operation::WriteTemplate,
        Operation::LoadConfig,
        Operation::ListConfigs,
    ] {
        assert_eq!(status_of(operation, None), 200);
        assert_eq!(status_of(operation, Some(&storage)), 500);
    }
    for operation in [Operation::ReadTemplate, Operation::LoadConfig, Operation::ListConfigs] {
        assert_eq!(status_of(operation, Some(&missing)), 404);
        assert_eq!(status_of(operation, Some(&unresolved)), 404);
        assert_eq!(status_of(operation, Some(&secret)), 404);
        assert_eq!(status_of(operation, Some(&Failure::ResolutionTooDeep)), 404);
    }
    assert_eq!(status_of(Operation::WriteTemplate, Some(&missing)), 500);
    assert_eq!(status_of(Operation::WriteTemplate, Some(&secret)), 500);
}
