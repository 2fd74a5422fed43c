use samaritan_db::{
    delete_document, document_removal_check, document_text, fetch_document, reconcile_entry, update_document, Body, ConfirmedIdentities,
    DataWrapper, DatabaseError, DbEntry, Did, DidQueue, LedgerAnswer, Reconciliation,
};

const USER: &str = "did:sam:root:0123456789abcdef0123456789abcdef0123456789abcdef";
const OTHER: &str = "did:sam:root:fedcba9876543210fedcba9876543210fedcba9876543210";

fn temp_db() -> sled::Db {
    sled::Config::new().temporary(true).open().unwrap()
}

fn obj(members: &[(&str, &str)]) -> Body {
    Body::Object(
        members
            .iter()
            .map(|(k, v)| (k.to_string(), v.to_string()))
            .collect(),
    )
}

fn put(
    db: &mut sled::Db,
    queue: &mut DidQueue,
    doc_id: &str,
    did: &str,
    body: Body,
) -> Result<String, DatabaseError> {
    let receipt = update_document(
        db,
        "db1",
        doc_id,
        Did(did.to_string()),
        DataWrapper { data: body },
        1_700_000_000,
    )?;
    queue.enqueue(receipt.entry);
    Ok(receipt.rev)
}

fn read(db: &sled::Db, doc_id: &str) -> serde_json::Value {
    serde_json::from_str(&fetch_document(db, doc_id).unwrap()).unwrap()
}

fn is_rev_of_generation(rev: &str, generation: &str) -> bool {
    match rev.split_once('-') {
        Some((g, hash)) => {
            g == generation
                && hash.len() == 32
                && hash.chars().all(|c| c.is_ascii_hexdigit() && !c.is_ascii_uppercase())
        }
        None => false,
    }
}

#[test]
fn create_then_get() {
    let mut db = temp_db();
    let mut queue = DidQueue::new();
    let rev = put(&mut db, &mut queue, "d1", USER, obj(&[("x", "1")])).unwrap();
    assert!(is_rev_of_generation(&rev, "1"));
    let doc = read(&db, "d1");
    assert_eq!(doc["x"].as_u64(), Some(1));
    assert_eq!(doc["id"].as_str(), Some("d1"));
    assert_eq!(doc["_rev"].as_str(), Some(rev.as_str()));
}

#[test]
fn create_writes_metadata() {
    let mut db = temp_db();
    let mut queue = DidQueue::new();
    let rev = put(&mut db, &mut queue, "d1", USER, obj(&[("x", "1")])).unwrap();
    let meta = db.get("d1_meta").unwrap().unwrap();
    let meta: serde_json::Value = serde_json::from_slice(&meta).unwrap();
    assert_eq!(meta["_accessible"].as_bool(), Some(true));
    assert_eq!(meta["_did"].as_str(), Some(USER));
    assert_eq!(meta["_rev"].as_str(), Some(rev.as_str()));
    assert_eq!(meta["created_at"].as_u64(), Some(1_700_000_000));
    assert_eq!(meta["updated_at"].as_u64(), Some(1_700_000_000));
}

#[test]
fn revision_hashes_the_body_with_id() {
    let mut db = temp_db();
    let mut queue = DidQueue::new();
    let rev = put(&mut db, &mut queue, "d1", USER, obj(&[("x", "1")])).unwrap();
    let expected = format!("1-{:x}", md5::compute("{\"id\":\"d1\",\"x\":1}"));
    assert_eq!(rev, expected);
}

#[test]
fn duplicate_create_rejected() {
    let mut db = temp_db();
    let mut queue = DidQueue::new();
    put(&mut db, &mut queue, "d1", USER, obj(&[("x", "1")])).unwrap();
    let second = put(&mut db, &mut queue, "d1", USER, obj(&[("x", "2")]));
    assert_eq!(second, Err(DatabaseError::Conflict));
    assert_eq!(read(&db, "d1")["x"].as_u64(), Some(1));
}

#[test]
fn null_revision_is_a_create() {
    let mut db = temp_db();
    let mut queue = DidQueue::new();
    let rev = put(&mut db, &mut queue, "d1", USER, obj(&[("_rev", "null"), ("x", "1")])).unwrap();
    assert!(is_rev_of_generation(&rev, "1"));
    assert_eq!(read(&db, "d1")["_rev"].as_str(), Some(rev.as_str()));
}

#[test]
fn null_body_creates_empty_document() {
    let mut db = temp_db();
    let mut queue = DidQueue::new();
    put(&mut db, &mut queue, "d1", USER, Body::Other("null".to_string())).unwrap();
    let doc = read(&db, "d1");
    assert_eq!(doc["id"].as_str(), Some("d1"));
    assert_eq!(doc.as_object().unwrap().len(), 2);
}

#[test]
fn scalar_body_rejected() {
    let mut db = temp_db();
    let mut queue = DidQueue::new();
    let r = put(&mut db, &mut queue, "d1", USER, Body::Other("5".to_string()));
    assert_eq!(r, Err(DatabaseError::SerializationError));
    assert_eq!(fetch_document(&db, "d1"), Err(DatabaseError::NotFound));
    assert_eq!(queue.len(), 0);
}

#[test]
fn stale_update_rejected() {
    let mut db = temp_db();
    let mut queue = DidQueue::new();
    put(&mut db, &mut queue, "d1", USER, obj(&[("x", "1")])).unwrap();
    let before = fetch_document(&db, "d1").unwrap();
    let r = put(&mut db, &mut queue, "d1", USER, obj(&[("_rev", "\"1-stale\""), ("x", "9")]));
    assert_eq!(r, Err(DatabaseError::UpdateConflict));
    assert_eq!(fetch_document(&db, "d1").unwrap(), before);
}

#[test]
fn update_of_missing_document() {
    let mut db = temp_db();
    let mut queue = DidQueue::new();
    let r = put(&mut db, &mut queue, "d1", USER, obj(&[("_rev", "\"1-abc\""), ("x", "9")]));
    assert_eq!(r, Err(DatabaseError::NotFound));
}

#[test]
fn successful_chained_update() {
    let mut db = temp_db();
    let mut queue = DidQueue::new();
    let rev1 = put(&mut db, &mut queue, "d1", USER, obj(&[("x", "1")])).unwrap();
    let claim = format!("\"{}\"", rev1);
    let rev2 = put(&mut db, &mut queue, "d1", USER, obj(&[("_rev", &claim), ("x", "2")])).unwrap();
    assert!(is_rev_of_generation(&rev2, "2"));
    assert_ne!(rev1.split_once('-').unwrap().1, rev2.split_once('-').unwrap().1);
    let claim = format!("\"{}\"", rev2);
    let rev3 = put(&mut db, &mut queue, "d1", USER, obj(&[("_rev", &claim), ("x", "3")])).unwrap();
    assert!(is_rev_of_generation(&rev3, "3"));
    let doc = read(&db, "d1");
    assert_eq!(doc["x"].as_u64(), Some(3));
    assert_eq!(doc["_rev"].as_str(), Some(rev3.as_str()));
    let meta: serde_json::Value = serde_json::from_slice(&db.get("d1_meta").unwrap().unwrap()).unwrap();
    assert_eq!(meta["_rev"].as_str(), Some(rev3.as_str()));
}

#[test]
fn merge_overwrites_and_keeps_fields() {
    let mut db = temp_db();
    let mut queue = DidQueue::new();
    let rev = put(&mut db, &mut queue, "d1", USER, obj(&[("x", "1"), ("y", "2")])).unwrap();
    let claim = format!("\"{}\"", rev);
    put(&mut db, &mut queue, "d1", USER, obj(&[("_rev", &claim), ("y", "3")])).unwrap();
    let doc = read(&db, "d1");
    assert_eq!(doc["x"].as_u64(), Some(1));
    assert_eq!(doc["y"].as_u64(), Some(3));
}

#[test]
fn merge_replaces_nested_objects() {
    let mut db = temp_db();
    let mut queue = DidQueue::new();
    let rev = put(&mut db, &mut queue, "d1", USER, obj(&[("z", "{\"a\":1,\"b\":2}")])).unwrap();
    let claim = format!("\"{}\"", rev);
    put(&mut db, &mut queue, "d1", USER, obj(&[("_rev", &claim), ("z", "{\"a\":1}")])).unwrap();
    let doc = read(&db, "d1");
    assert_eq!(doc["z"].to_string(), "{\"a\":1}");
}

#[test]
fn ownership_enforced() {
    let mut db = temp_db();
    let mut queue = DidQueue::new();
    let rev = put(&mut db, &mut queue, "d1", USER, obj(&[("x", "1")])).unwrap();
    let before = fetch_document(&db, "d1").unwrap();
    let claim = format!("\"{}\"", rev);
    let r = put(&mut db, &mut queue, "d1", OTHER, obj(&[("_rev", &claim), ("x", "2")]));
    assert_eq!(r, Err(DatabaseError::OwnershipConflict));
    assert_eq!(fetch_document(&db, "d1").unwrap(), before);
}

#[test]
fn malformed_revision_rejected() {
    let mut db = temp_db();
    let mut queue = DidQueue::new();
    put(&mut db, &mut queue, "d1", USER, obj(&[("x", "1")])).unwrap();
    let meta = format!(
        "{{\"_accessible\":true,\"_did\":\"{}\",\"_rev\":\"x-1\"}}",
        USER
    );
    db.insert("d1", "{\"x\":1,\"_rev\":\"x-1\"}").unwrap();
    db.insert("d1_meta", meta.as_bytes()).unwrap();
    let r = put(&mut db, &mut queue, "d1", USER, obj(&[("_rev", "\"x-1\""), ("x", "2")]));
    assert_eq!(r, Err(DatabaseError::RevisionParseError));
}

#[test]
fn unreadable_document_rejected() {
    let mut db = temp_db();
    let mut queue = DidQueue::new();
    db.insert("d1", "not json").unwrap();
    db.insert("d1_meta", "{}").unwrap();
    let r = put(&mut db, &mut queue, "d1", USER, obj(&[("_rev", "\"1-a\"")]));
    assert_eq!(r, Err(DatabaseError::SerializationError));
}

#[test]
fn queue_dedup() {
    let mut db = temp_db();
    let mut queue = DidQueue::new();
    put(&mut db, &mut queue, "d1", USER, obj(&[("x", "1")])).unwrap();
    put(&mut db, &mut queue, "d2", USER, obj(&[("x", "2")])).unwrap();
    assert_eq!(queue.len(), 1);
    put(&mut db, &mut queue, "d3", OTHER, obj(&[("x", "3")])).unwrap();
    assert_eq!(queue.len(), 2);
    let first = queue.pop_front().unwrap();
    assert_eq!(first.did, Did(USER.to_string()));
    assert_eq!(first.db_name, "db1");
    assert_eq!(first.doc_id, "d1");
    let second = queue.pop_front().unwrap();
    assert_eq!(second.doc_id, "d3");
    assert!(queue.pop_front().is_none());
}

#[test]
fn failed_write_is_not_queued() {
    let mut db = temp_db();
    let mut queue = DidQueue::new();
    put(&mut db, &mut queue, "d1", USER, obj(&[("x", "1")])).unwrap();
    queue.pop_front().unwrap();
    let r = put(&mut db, &mut queue, "d1", USER, obj(&[("x", "1")]));
    assert_eq!(r, Err(DatabaseError::Conflict));
    assert_eq!(queue.len(), 0);
}

#[test]
fn reconciliation_eviction() {
    let mut db = temp_db();
    let mut confirmed = ConfirmedIdentities::new();
    let mut queue = DidQueue::new();
    put(&mut db, &mut queue, "d1", USER, obj(&[("x", "1")])).unwrap();
    let entry = queue.pop_front().unwrap();
    let outcome = reconcile_entry(&mut db, &mut confirmed, &entry, LedgerAnswer::NotRegistered);
    assert!(matches!(outcome, Reconciliation::Evicted(Ok(()))));
    assert_eq!(db.get("d1").unwrap(), None);
    assert_eq!(db.get("d1_meta").unwrap(), None);
    assert_eq!(fetch_document(&db, "d1"), Err(DatabaseError::NotFound));
}

#[test]
fn reconciliation_confirms_or_drops() {
    let mut db = temp_db();
    let mut confirmed = ConfirmedIdentities::new();
    let mut queue = DidQueue::new();
    put(&mut db, &mut queue, "d1", USER, obj(&[("x", "1")])).unwrap();
    let entry = queue.pop_front().unwrap();
    let outcome = reconcile_entry(&mut db, &mut confirmed, &entry, LedgerAnswer::Registered);
    assert!(matches!(outcome, Reconciliation::Confirm));
    assert!(confirmed.contains(&Did(USER.to_string())));
    let outcome = reconcile_entry(&mut db, &mut confirmed, &entry, LedgerAnswer::Unreachable);
    assert!(matches!(outcome, Reconciliation::Dropped));
    assert!(fetch_document(&db, "d1").is_ok());
}

#[test]
fn eviction_of_missing_document() {
    let mut db = temp_db();
    let mut confirmed = ConfirmedIdentities::new();
    let entry = DbEntry {
        did: Did(USER.to_string()),
        db_name: "db1".to_string(),
        doc_id: "gone".to_string(),
    };
    let outcome = reconcile_entry(&mut db, &mut confirmed, &entry, LedgerAnswer::NotRegistered);
    assert!(matches!(outcome, Reconciliation::Evicted(Err(DatabaseError::NotFound))));
}

#[test]
fn delete_document_removes_both() {
    let mut db = temp_db();
    let mut queue = DidQueue::new();
    put(&mut db, &mut queue, "d1", USER, obj(&[("x", "1")])).unwrap();
    assert_eq!(delete_document(&mut db, "d1"), Ok(()));
    assert_eq!(db.get("d1_meta").unwrap(), None);
    assert_eq!(delete_document(&mut db, "d1"), Err(DatabaseError::NotFound));
}

#[test]
fn delete_document_with_missing_metadata() {
    let mut db = temp_db();
    db.insert("d1", "{}").unwrap();
    assert_eq!(delete_document(&mut db, "d1"), Err(DatabaseError::NotFound));
    assert!(db.get("d1").unwrap().is_some());
}

#[test]
fn fetch_missing_document() {
    let db = temp_db();
    assert_eq!(fetch_document(&db, "nope"), Err(DatabaseError::NotFound));
}

#[test]
fn fetch_non_utf8_document() {
    let db = temp_db();
    db.insert("d1", vec![0xffu8, 0xfe]).unwrap();
    assert_eq!(fetch_document(&db, "d1"), Err(DatabaseError::SerializationError));
}

#[test]
fn confirmed_identity_is_skipped() {
    let mut db = temp_db();
    let mut queue = DidQueue::new();
    let mut confirmed = ConfirmedIdentities::new();
    put(&mut db, &mut queue, "d1", USER, obj(&[("x", "1")])).unwrap();
    put(&mut db, &mut queue, "d2", OTHER, obj(&[("x", "2")])).unwrap();
    confirmed.insert(&Did(USER.to_string()));
    assert!(queue.take_unconfirmed(&confirmed).is_none());
    let next = queue.take_unconfirmed(&confirmed).unwrap();
    assert_eq!(next.doc_id, "d2");
    assert!(queue.take_unconfirmed(&confirmed).is_none());
    assert_eq!(queue.len(), 0);
    let outcome = reconcile_entry(&mut db, &mut confirmed, &next, LedgerAnswer::NotRegistered);
    assert!(matches!(outcome, Reconciliation::Evicted(Ok(()))));
    assert_eq!(fetch_document(&db, "d2"), Err(DatabaseError::NotFound));
    assert!(!confirmed.contains(&Did(OTHER.to_string())));
}

#[test]
fn stale_update_with_unreadable_metadata() {
    let mut db = temp_db();
    let mut queue = DidQueue::new();
    put(&mut db, &mut queue, "d1", USER, obj(&[("x", "1")])).unwrap();
    db.insert("d1_meta", "[1]").unwrap();
    let r = put(&mut db, &mut queue, "d1", OTHER, obj(&[("_rev", "\"1-stale\""), ("x", "9")]));
    assert_eq!(r, Err(DatabaseError::UpdateConflict));
}

#[test]
fn revision_ignores_member_order() {
    let mut a = temp_db();
    let mut b = temp_db();
    let mut queue = DidQueue::new();
    let ra = put(&mut a, &mut queue, "d", USER, obj(&[("p", "1"), ("q", "{\"b\":1,\"a\":2}")])).unwrap();
    let rb = put(&mut b, &mut queue, "d", USER, obj(&[("q", "{\"a\":2,\"b\":1}"), ("p", "1")])).unwrap();
    assert_eq!(ra, rb);
}

#[test]
fn invalid_member_text_rejected() {
    let mut db = temp_db();
    let mut queue = DidQueue::new();
    let r = put(&mut db, &mut queue, "d1", USER, obj(&[("x", "not json")]));
    assert_eq!(r, Err(DatabaseError::SerializationError));
    assert_eq!(fetch_document(&db, "d1"), Err(DatabaseError::NotFound));
}

#[test]
fn delete_document_with_missing_document() {
    let mut db = temp_db();
    db.insert("d1_meta", "{}").unwrap();
    assert_eq!(delete_document(&mut db, "d1"), Err(DatabaseError::NotFound));
    assert!(db.get("d1_meta").unwrap().is_some());
}

#[test]
fn document_text_cases() {
    assert_eq!(document_text(None), Err(DatabaseError::NotFound));
    assert_eq!(document_text(Some(b"{}".to_vec())), Ok("{}".to_string()));
    assert_eq!(document_text(Some(vec![0xff])), Err(DatabaseError::SerializationError));
}

#[test]
fn document_removal_check_cases() {
    let some = Some(b"{}".to_vec());
    assert_eq!(document_removal_check(&some, &some), Ok(()));
    assert_eq!(document_removal_check(&some, &None), Err(DatabaseError::NotFound));
    assert_eq!(document_removal_check(&None, &some), Err(DatabaseError::NotFound));
    assert_eq!(document_removal_check(&None, &None), Err(DatabaseError::NotFound));
}

#[test]
fn receipt_names_the_write() {
    let mut db = temp_db();
    let receipt = update_document(
        &mut db,
        "db9",
        "d1",
        Did(USER.to_string()),
        DataWrapper { data: obj(&[("x", "1")]) },
        7,
    )
    .unwrap();
    assert_eq!(receipt.entry.db_name, "db9");
    assert_eq!(receipt.entry.doc_id, "d1");
    assert_eq!(receipt.entry.did, Did(USER.to_string()));
}
