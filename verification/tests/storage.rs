use cadre::failure::Failure;
use cadre::json::Json;
use cadre::server::storage::{
    environment_names, environment_of, failed_read, record_name, Storage, RECORD_SUFFIX,
};

#[test]
fn memory_operations() {
    let mut storage = Storage::new();

    assert!(storage.get("hello").is_err());
    assert!(storage.list().is_empty());

    storage.set("hello", &Json::String("world".to_string()));
    assert_eq!(storage.get("hello").unwrap(), Json::String("world".to_string()));
    assert_eq!(storage.list(), vec![String::from("hello")]);
}

#[test]
fn storage_gives_back_what_was_written() {
    let mut storage = Storage::new();
    let documents = [
        "null",
        "true",
        "-12.5e3",
        "\"text\"",
        "[1, [2, {\"a\": null}]]",
        "{\"*k\": \"aws:name\", \"nested\": {\"deep\": [false]}}",
    ];
    for (i, text) in documents.iter().enumerate() {
        let value = Json::parse(text).unwrap();
        let name = format!("env{i}");
        storage.set(&name, &value);
        assert_eq!(storage.get(&name).unwrap(), value);
    }
    for (i, text) in documents.iter().enumerate() {
        assert_eq!(storage.get(&format!("env{i}")).unwrap(), Json::parse(text).unwrap());
    }
    assert_eq!(storage.list().len(), documents.len());
}

#[test]
fn storage_replaces_on_a_second_write() {
    let mut storage = Storage::new();
    storage.set("env", &Json::Bool(true));
    storage.set("other", &Json::Null);
    storage.set("env", &Json::Bool(false));
    assert_eq!(storage.get("env").unwrap(), Json::Bool(false));
    assert_eq!(storage.get("other").unwrap(), Json::Null);
    assert_eq!(storage.list(), vec!["env".to_string(), "other".to_string()]);
}

#[test]
fn storage_names_the_missing_environment() {
    let storage = Storage::new();
    match storage.get("nowhere") {
        Err(Failure::MissingTemplate { env }) => assert_eq!(env, "nowhere"),
        other => panic!("unexpected outcome: {other:?}"),
    }
}

#[test]
fn records_are_named_after_their_environment() {
    assert_eq!(RECORD_SUFFIX, ".json");
    assert_eq!(record_name("prod"), "prod.json");
    assert_eq!(record_name(""), ".json");
    assert_eq!(environment_of("prod.json"), Some("prod".to_string()));
    assert_eq!(environment_of(".json"), Some(String::new()));
    assert_eq!(environment_of("a.json.json"), Some("a.json".to_string()));
    assert_eq!(environment_of("prod.txt"), None);
    assert_eq!(environment_of("json"), None);
    assert_eq!(environment_of("prod.jsonx"), None);
    assert_eq!(environment_of("données.json"), Some("données".to_string()));
}

#[test]
fn listings_keep_the_records_only() {
    let names = vec![
        "default.json".to_string(),
        "notes.txt".to_string(),
        "hello.json".to_string(),
        "x".to_string(),
    ];
    assert_eq!(environment_names(&names), vec!["default".to_string(), "hello".to_string()]);
    assert!(environment_names(&Vec::new()).is_empty());
}

#[test]
fn a_failed_read_is_a_miss_or_a_failure_of_storage() {
    assert!(matches!(
        failed_read("prod", true, "no such key"),
        Failure::MissingTemplate { ref env } if env == "prod"
    ));
    assert!(matches!(
        failed_read("prod", false, "access denied"),
        Failure::StorageFailed { ref detail } if detail == "access denied"
    ));
}
