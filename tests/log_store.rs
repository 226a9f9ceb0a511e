use kvstore::dirty::{find_keys_in_log, get_in_log, keep_key, lookup_step, remove_line, set_line, FileErrorWrapper, KeyScan};
use kvstore::record::{decode_record, encode_record, DELETED};

// A log as a reader sees it: one entry per line, newlines stripped.
fn set(log: &mut Vec<String>, key: &str, val: &str) {
    let line = set_line(key, val);
    assert!(line.ends_with('\n'));
    log.push(line.trim_end_matches('\n').to_string());
}

fn remove(log: &mut Vec<String>, key: &str) {
    let line = remove_line(key);
    log.push(line.trim_end_matches('\n').to_string());
}

fn get(log: &Vec<String>, key: &str) -> Option<String> {
    get_in_log(log, &key.to_string())
}

fn sorted(mut v: Vec<String>) -> Vec<String> {
    v.sort();
    v
}

fn find(log: &Vec<String>, key: &str, not_key: Option<&str>) -> Vec<String> {
    match find_keys_in_log(log, key, not_key) {
        Ok(v) => sorted(v),
        Err(_) => panic!("pattern refused"),
    }
}

#[test]
fn round_trip_get_after_set() {
    let mut log = Vec::new();
    set(&mut log, "user:1", "hello world");
    assert_eq!(get(&log, "user:1"), Some("hello world".to_string()));
}

#[test]
fn round_trip_awkward_strings() {
    let mut log = Vec::new();
    let key = "k \"quoted\" \\ back";
    let val = "line one\nline two\ttab \u{1} ctrl é ✓";
    set(&mut log, key, val);
    assert_eq!(log.len(), 1);
    assert!(!log[0].contains('\n'));
    assert_eq!(get(&log, key), Some(val.to_string()));
}

#[test]
fn last_writer_wins() {
    let mut log = Vec::new();
    set(&mut log, "k", "a");
    set(&mut log, "k", "b");
    assert_eq!(get(&log, "k"), Some("b".to_string()));
}

#[test]
fn tombstone_then_set_again() {
    let mut log = Vec::new();
    set(&mut log, "k", "a");
    remove(&mut log, "k");
    assert_eq!(get(&log, "k"), None);
    set(&mut log, "k", "c");
    assert_eq!(get(&log, "k"), Some("c".to_string()));
    assert_eq!(log.len(), 3);
}

#[test]
fn absent_on_empty_store() {
    let log: Vec<String> = Vec::new();
    assert_eq!(get(&log, "missing"), None);
}

#[test]
fn other_keys_untouched() {
    let mut log = Vec::new();
    set(&mut log, "a", "1");
    set(&mut log, "b", "2");
    remove(&mut log, "a");
    assert_eq!(get(&log, "a"), None);
    assert_eq!(get(&log, "b"), Some("2".to_string()));
}

#[test]
fn pattern_literal() {
    let mut log = Vec::new();
    set(&mut log, "test:key", "1");
    set(&mut log, "test:key2", "2");
    set(&mut log, "test:key3", "3");
    assert_eq!(find(&log, "test:key2", None), vec!["test:key2".to_string()]);
}

#[test]
fn pattern_wildcard() {
    let mut log = Vec::new();
    set(&mut log, "test:key", "1");
    set(&mut log, "test:key2", "2");
    set(&mut log, "test:key3", "3");
    assert_eq!(
        find(&log, "test:key*", None),
        vec!["test:key".to_string(), "test:key2".to_string(), "test:key3".to_string()]
    );
}

#[test]
fn pattern_exclusion() {
    let mut log = Vec::new();
    set(&mut log, "key:test", "1");
    set(&mut log, "key:test2", "2");
    set(&mut log, "key:123", "3");
    assert_eq!(
        find(&log, "key:*", Some("key:123")),
        vec!["key:test".to_string(), "key:test2".to_string()]
    );
}

#[test]
fn pattern_is_anchored_and_literal() {
    let mut log = Vec::new();
    set(&mut log, "foobar", "1");
    set(&mut log, "xfoobar", "2");
    set(&mut log, "a.c", "3");
    set(&mut log, "abc", "4");
    assert_eq!(find(&log, "foo*", None), vec!["foobar".to_string()]);
    assert_eq!(find(&log, "a.c", None), vec!["a.c".to_string()]);
    assert_eq!(find(&log, "*", None).len(), 4);
}

#[test]
fn deleted_keys_excluded_from_search() {
    let mut log = Vec::new();
    set(&mut log, "a", "1");
    remove(&mut log, "a");
    assert_eq!(find(&log, "a", None), Vec::<String>::new());
    assert_eq!(log.len(), 2);
}

#[test]
fn search_after_delete_and_set_again() {
    let mut log = Vec::new();
    set(&mut log, "a", "1");
    remove(&mut log, "a");
    set(&mut log, "a", "2");
    set(&mut log, "a", "3");
    assert_eq!(find(&log, "a", None), vec!["a".to_string()]);
}

#[test]
fn corruption_tolerance() {
    let mut log = Vec::new();
    set(&mut log, "first", "1");
    log.push("{\"key\":\"broken".to_string());
    set(&mut log, "second", "2");
    log.push("not json at all".to_string());
    assert_eq!(get(&log, "first"), Some("1".to_string()));
    assert_eq!(get(&log, "second"), Some("2".to_string()));
    assert_eq!(find(&log, "*", None), vec!["first".to_string(), "second".to_string()]);
}

#[test]
fn invalid_pattern_is_an_error() {
    let log: Vec<String> = Vec::new();
    // A pattern beyond the regex size limit does not compile.
    let huge = "*a".repeat(200_000);
    assert!(find_keys_in_log(&log, &huge, None).is_err());
}

#[test]
fn encode_exact_line() {
    assert_eq!(encode_record("a", "b"), "{\"key\":\"a\",\"val\":\"b\"}");
    assert_eq!(encode_record("q\"", "x\ny"), "{\"key\":\"q\\\"\",\"val\":\"x\\ny\"}");
}

#[test]
fn set_and_remove_lines() {
    assert_eq!(set_line("a", "b"), "{\"key\":\"a\",\"val\":\"b\"}\n");
    assert_eq!(remove_line("a"), "{\"key\":\"a\",\"val\":\"UNDEFINED\"}\n");
    assert_eq!(DELETED, "UNDEFINED");
}

#[test]
fn decode_lines() {
    let dv = decode_record("{\"key\":\"a\\\"b\",\"val\":\"c\\nd\"}  \r").unwrap();
    assert_eq!(dv.key, "a\"b");
    assert_eq!(dv.val, "c\nd");
    assert!(decode_record("").is_none());
    assert!(decode_record("{\"key\":\"a\",\"val\":\"b\"").is_none());
    assert!(decode_record("{\"key\":\"a\",\"val\":1}").is_none());
    assert!(decode_record("{\"val\":\"b\",\"key\":\"a\"}").is_none());
}

#[test]
fn lookup_step_answers() {
    let key = "k".to_string();
    assert_eq!(lookup_step(&key, "{\"key\":\"k\",\"val\":\"v\"}"), Some(Some("v".to_string())));
    assert_eq!(lookup_step(&key, "{\"key\":\"k\",\"val\":\"UNDEFINED\"}"), Some(None));
    assert_eq!(lookup_step(&key, "{\"key\":\"j\",\"val\":\"v\"}"), None);
    assert_eq!(lookup_step(&key, "garbage"), None);
}

#[test]
fn key_scan_fed_from_the_end() {
    let mut scan = KeyScan::new("x*", Some("xb")).ok().unwrap();
    scan.feed("{\"key\":\"xc\",\"val\":\"UNDEFINED\"}");
    scan.feed("{\"key\":\"xb\",\"val\":\"2\"}");
    scan.feed("{\"key\":\"xa\",\"val\":\"1\"}");
    scan.feed("{\"key\":\"xc\",\"val\":\"3\"}");
    assert_eq!(sorted(scan.finish()), vec!["xa".to_string()]);
}

#[test]
fn keep_key_rules() {
    assert!(keep_key(true, None));
    assert!(keep_key(true, Some(false)));
    assert!(!keep_key(true, Some(true)));
    assert!(!keep_key(false, None));
    assert!(!keep_key(false, Some(false)));
}

#[test]
fn file_error_message() {
    let e = FileErrorWrapper::from("disk full".to_string());
    assert_eq!(e.message(), "File error: disk full");
}

#[test]
fn wildcard_reaches_across_line_feeds() {
    let mut log = Vec::new();
    set(&mut log, "a\nb", "1");
    set(&mut log, "plain", "2");
    assert_eq!(get(&log, "a\nb"), Some("1".to_string()));
    assert_eq!(find(&log, "*", None), vec!["a\nb".to_string(), "plain".to_string()]);
    assert_eq!(find(&log, "a*", None), vec!["a\nb".to_string()]);
    assert_eq!(find(&log, "*", Some("a*")), vec!["plain".to_string()]);
}
