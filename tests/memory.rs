use kvstore::memory::MemoryDB;
use kvstore::sqlite::{bulk_action, find_keys_query, like_pattern, BulkAction, BulkError, BulkObject};

fn sorted(mut v: Vec<String>) -> Vec<String> {
    v.sort();
    v
}

#[test]
fn memory_set_get_remove() {
    let mut db = MemoryDB::new();
    assert_eq!(db.get("missing".to_string()), None);
    db.set("k".to_string(), "a".to_string());
    db.set("k".to_string(), "b".to_string());
    assert_eq!(db.get("k".to_string()), Some("b".to_string()));
    db.remove("k".to_string());
    assert_eq!(db.get("k".to_string()), None);
}

#[test]
fn memory_find_keys() {
    let mut db = MemoryDB::new();
    for k in ["key:test", "key:test2", "key:123", "other"] {
        db.set(k.to_string(), "v".to_string());
    }
    let found = db.find_keys("key:*".to_string(), Some("key:123".to_string())).ok().unwrap();
    assert_eq!(sorted(found), vec!["key:test".to_string(), "key:test2".to_string()]);
    let all = db.find_keys("*".to_string(), None).ok().unwrap();
    assert_eq!(all.len(), 4);
}

#[test]
fn memory_close_empties() {
    let mut db = MemoryDB::new();
    db.set("a".to_string(), "1".to_string());
    db.close();
    assert_eq!(db.get("a".to_string()), None);
}

#[test]
fn bulk_actions() {
    let set = BulkObject { kind: "set".to_string(), key: "a".to_string(), value: Some("1".to_string()) };
    match bulk_action(set) {
        Ok(BulkAction::Replace { key, value }) => {
            assert_eq!(key, "a");
            assert_eq!(value, "1");
        }
        _ => panic!("expected a replace"),
    }
    let del = BulkObject { kind: "delete".to_string(), key: "b".to_string(), value: None };
    match bulk_action(del) {
        Ok(BulkAction::Delete { key }) => assert_eq!(key, "b"),
        _ => panic!("expected a delete"),
    }
    let bad = BulkObject { kind: "set".to_string(), key: "c".to_string(), value: None };
    assert!(matches!(bulk_action(bad), Err(BulkError::MissingValue)));
}

#[test]
fn like_patterns_and_queries() {
    assert_eq!(like_pattern("key:*"), "key:%");
    assert_eq!(like_pattern("*a*"), "%a%");
    assert_eq!(like_pattern("plain"), "plain");
    assert_eq!(find_keys_query(false), "SELECT key FROM store WHERE key LIKE ?");
    assert_eq!(find_keys_query(true), "SELECT key FROM store WHERE key LIKE ? AND key NOT LIKE ?");
}

#[test]
fn memory_wildcard_reaches_across_line_feeds() {
    let mut db = MemoryDB::new();
    db.set("x\ny".to_string(), "v".to_string());
    let found = db.find_keys("x*".to_string(), None).ok().unwrap();
    assert_eq!(found, vec!["x\ny".to_string()]);
}
