use samaritan_db::revision::parse_generation;
use samaritan_db::{
    database_names, ledger_response_answer, registration_check, removal_check,
    all_dbs, create_database, database_exists, delete_database, generate_rev, generate_strong_password,
    generate_uuid,
    hash_string, is_directory_within_parent, merge_json_values, remove_field, Body, DatabaseError,
    DbConfig, Did, RetryPolicy,
};

fn obj(members: &[(&str, &str)]) -> Body {
    Body::Object(
        members
            .iter()
            .map(|(k, v)| (k.to_string(), v.to_string()))
            .collect(),
    )
}

fn members(b: &Body) -> Vec<(String, String)> {
    match b {
        Body::Object(m) => m.clone(),
        Body::Other(_) => panic!("not an object"),
    }
}

#[test]
fn merge_semantics() {
    let merged = merge_json_values(obj(&[("x", "1"), ("y", "2")]), obj(&[("y", "3")]));
    assert_eq!(members(&merged), members(&obj(&[("x", "1"), ("y", "3")])));
    let merged = merge_json_values(obj(&[("z", "{\"a\":1,\"b\":2}")]), obj(&[("z", "{\"a\":1}")]));
    assert_eq!(members(&merged), members(&obj(&[("z", "{\"a\":1}")])));
}

#[test]
fn merge_appends_new_fields() {
    let merged = merge_json_values(obj(&[("x", "1")]), obj(&[("w", "true"), ("x", "null")]));
    assert_eq!(members(&merged), members(&obj(&[("x", "null"), ("w", "true")])));
}

#[test]
fn merge_with_non_object_replaces() {
    let merged = merge_json_values(obj(&[("x", "1")]), Body::Other("[1,2]".to_string()));
    assert!(matches!(merged, Body::Other(ref t) if t == "[1,2]"));
    let merged = merge_json_values(Body::Other("7".to_string()), obj(&[("x", "1")]));
    assert_eq!(members(&merged), members(&obj(&[("x", "1")])));
}

#[test]
fn remove_field_takes_member() {
    let (rest, removed) = remove_field(obj(&[("a", "1"), ("_rev", "\"1-x\""), ("b", "2")]), "_rev");
    assert_eq!(removed, Some("\"1-x\"".to_string()));
    assert_eq!(members(&rest), members(&obj(&[("a", "1"), ("b", "2")])));
    let (rest, removed) = remove_field(obj(&[("a", "1")]), "_rev");
    assert_eq!(removed, None);
    assert_eq!(members(&rest), members(&obj(&[("a", "1")])));
    let (_, removed) = remove_field(Body::Other("3".to_string()), "a");
    assert_eq!(removed, None);
}

#[test]
fn body_text_escapes_keys() {
    let b = obj(&[("a\"b", "1"), ("c", "[true]")]);
    assert_eq!(b.to_text(), "{\"a\\\"b\":1,\"c\":[true]}");
    assert_eq!(obj(&[]).to_text(), "{}");
    let b = obj(&[("t\\a\nb\u{1}\u{1f}\u{8}\u{c}\r\té", "0")]);
    assert_eq!(b.to_text(), "{\"t\\\\a\\nb\\u0001\\u001f\\b\\f\\r\\té\":0}");
    assert_eq!(Body::Other("\"s\"".to_string()).to_text(), "\"s\"");
}

#[test]
fn body_field_lookup() {
    let b = obj(&[("a", "1"), ("b", "2")]);
    assert_eq!(b.field("b"), Some("2".to_string()));
    assert_eq!(b.field("c"), None);
    assert_eq!(Body::Other("1".to_string()).field("a"), None);
}

#[test]
fn generate_rev_exact() {
    assert_eq!(generate_rev(1, ""), "1-d41d8cd98f00b204e9800998ecf8427e");
    assert_eq!(generate_rev(42, "abc"), "42-900150983cd24fb0d6963f7d28e17f72");
    let rev = generate_rev(7, "anything");
    let (g, h) = rev.split_once('-').unwrap();
    assert_eq!(g, "7");
    assert_eq!(h.len(), 32);
    assert!(h.chars().all(|c| c.is_ascii_digit() || ('a'..='f').contains(&c)));
}

#[test]
fn hash_string_exact() {
    assert_eq!(hash_string("abc"), "900150983cd24fb0d6963f7d28e17f72");
}

#[test]
fn parse_generation_cases() {
    assert_eq!(parse_generation("\"12-abc\""), Some(12));
    assert_eq!(parse_generation("\"0-\""), Some(0));
    assert_eq!(parse_generation("\"abc\""), None);
    assert_eq!(parse_generation("\"-1\""), None);
    assert_eq!(parse_generation("12-abc"), None);
    assert_eq!(parse_generation("\"12\""), None);
    assert_eq!(parse_generation("\"18446744073709551614-a\""), Some(18446744073709551614));
    assert_eq!(parse_generation("\"18446744073709551615-a\""), None);
    assert_eq!(parse_generation("\"99999999999999999999999-a\""), None);
}

#[test]
fn valid_dids() {
    let hex = "0123456789abcdefABCDEF0123456789abcdef0123456789";
    assert!(DbConfig::is_valid_did(&format!("did:sam:root:{}", hex), true));
    assert!(!DbConfig::is_valid_did(&format!("did:sam:root:{}", hex), false));
    assert!(DbConfig::is_valid_did(&format!("did:sam:apps:{}", hex), false));
    assert!(!DbConfig::is_valid_did(&format!("did:sam:root:{}0", hex), true));
    assert!(!DbConfig::is_valid_did(&format!("did:sam:root:{}", &hex[1..]), true));
    assert!(!DbConfig::is_valid_did(&format!("did:sam:root:{}g", &hex[1..]), true));
    assert!(!DbConfig::is_valid_did(&format!("did:sax:root:{}", hex), true));
    assert!(!DbConfig::is_valid_did(
        &"did:sam:root:5DRRAK6uVDwnWX729Y3WzSurvqEFXDmAF1HXw6LFTokh7Bjc".to_string(),
        true
    ));
    assert!(!DbConfig::is_valid_did(&format!("did:sam:root:{}é", &hex[2..]), true));
}

#[test]
fn did_equality() {
    assert!(Did("a".to_string()) == Did("a".to_string()));
    assert!(Did("a".to_string()) != Did("b".to_string()));
}

#[test]
fn directory_within_parent() {
    assert!(is_directory_within_parent("/data/db1", "/data"));
    assert!(is_directory_within_parent("/data/db1/x", "/data"));
    assert!(is_directory_within_parent("/data", "/"));
    assert!(is_directory_within_parent("/data", "/data"));
    assert!(is_directory_within_parent("/", "/"));
    assert!(!is_directory_within_parent("/database", "/data"));
    assert!(!is_directory_within_parent("/etc/passwd", "/data"));
    assert!(!is_directory_within_parent("/dat", "/data"));
    assert!(!is_directory_within_parent("/data", ""));
}

#[test]
fn database_exists_needs_both_paths() {
    assert!(database_exists(Some("/data/db1".to_string()), Some("/data".to_string())));
    assert!(!database_exists(None, Some("/data".to_string())));
    assert!(!database_exists(Some("/etc".to_string()), Some("/data".to_string())));
    assert!(!database_exists(Some("/data/db1".to_string()), None));
    assert!(!database_exists(Some("/data".to_string()), Some("/data".to_string())));
}

#[test]
fn database_lifecycle() {
    let mut root = sled::Config::new().temporary(true).open().unwrap();
    assert_eq!(create_database(&mut root, "db1", "did:sam:apps:x", 5), Ok(()));
    assert_eq!(all_dbs(&root), Ok(vec!["db1".to_string()]));
    assert_eq!(
        create_database(&mut root, "db1", "did:sam:apps:x", 6),
        Err(DatabaseError::AlreadyExists)
    );
    assert_eq!(delete_database(&mut root, "db1"), Ok(()));
    assert_eq!(all_dbs(&root), Ok(vec![]));
    assert_eq!(delete_database(&mut root, "db1"), Err(DatabaseError::NotFound));
}

#[test]
fn database_record_contents() {
    let mut root = sled::Config::new().temporary(true).open().unwrap();
    create_database(&mut root, "db1", "did:sam:apps:x", 5).unwrap();
    create_database(&mut root, "db2", "did:sam:apps:x", 5).unwrap();
    let record: serde_json::Value =
        serde_json::from_slice(&root.get("db1").unwrap().unwrap()).unwrap();
    assert_eq!(record["application_did"].as_str(), Some("did:sam:apps:x"));
    assert_eq!(record["created_at"].as_u64(), Some(5));
    assert_eq!(record["id"].as_str().unwrap().len(), 36);
    let mut names = all_dbs(&root).unwrap();
    names.sort();
    assert_eq!(names, vec!["db1".to_string(), "db2".to_string()]);
}

#[test]
fn uuid_is_hyphenated() {
    let a = generate_uuid();
    assert_eq!(a.len(), 36);
    assert_eq!(a.matches('-').count(), 4);
    assert_ne!(a, generate_uuid());
}

#[test]
fn retry_policy() {
    let p = RetryPolicy::standard();
    assert_eq!(p.max_attempts, 5);
    assert_eq!(p.after_failure(1), Some(5));
    assert_eq!(p.after_failure(4), Some(5));
    assert_eq!(p.after_failure(5), None);
    let quick = RetryPolicy { max_attempts: 2, delay_secs: 0 };
    assert_eq!(quick.after_failure(1), Some(0));
    assert_eq!(quick.after_failure(2), None);
}

#[test]
fn strong_password_shape() {
    let p = generate_strong_password(10);
    assert_eq!(p.len(), 10);
    assert!(p.chars().all(|c| c.is_ascii_alphanumeric()));
    assert_eq!(generate_strong_password(0), "");
    let long = generate_strong_password(200);
    assert_eq!(long.len(), 200);
    assert!(long.chars().any(|c| c != long.chars().next().unwrap()));
}

#[test]
fn all_dbs_rejects_non_utf8_names() {
    let root = sled::Config::new().temporary(true).open().unwrap();
    root.insert(vec![0xffu8], "{}").unwrap();
    assert_eq!(all_dbs(&root), Err(DatabaseError::SerializationError));
}

#[test]
fn all_dbs_lists_each_once_in_order() {
    let mut root = sled::Config::new().temporary(true).open().unwrap();
    create_database(&mut root, "b", "x", 1).unwrap();
    create_database(&mut root, "a", "x", 1).unwrap();
    create_database(&mut root, "c", "x", 1).unwrap();
    assert_eq!(
        all_dbs(&root),
        Ok(vec!["a".to_string(), "b".to_string(), "c".to_string()])
    );
}

#[test]
fn database_names_cases() {
    assert_eq!(
        database_names(&vec![b"a".to_vec(), "é".as_bytes().to_vec()]),
        Ok(vec!["a".to_string(), "é".to_string()])
    );
    assert_eq!(database_names(&vec![]), Ok(vec![]));
    assert_eq!(
        database_names(&vec![b"a".to_vec(), vec![0xc3]]),
        Err(DatabaseError::SerializationError)
    );
}

#[test]
fn registration_checks() {
    assert_eq!(registration_check(&None), Ok(()));
    assert_eq!(registration_check(&Some(vec![1])), Err(DatabaseError::AlreadyExists));
    assert_eq!(removal_check(&Some(vec![1])), Ok(()));
    assert_eq!(removal_check(&None), Err(DatabaseError::NotFound));
}

#[test]
fn ledger_responses() {
    assert_eq!(ledger_response_answer("{\"error\":false,\"data\":{\"exists\":true}}"), Some(true));
    assert_eq!(ledger_response_answer("{\"error\":false,\"data\":{\"exists\":false}}"), Some(false));
    assert_eq!(ledger_response_answer("{\"error\":false}"), Some(false));
    assert_eq!(ledger_response_answer("{\"error\":true,\"data\":{\"exists\":true}}"), None);
    assert_eq!(ledger_response_answer("{\"data\":{\"exists\":true}}"), None);
    assert_eq!(ledger_response_answer("not json"), None);
}
