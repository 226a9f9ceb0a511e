use kvstore::utils::{glob_source, update_regex};

#[test]
fn glob_sources() {
    assert_eq!(glob_source("test:key*"), "^test:key(?s:.*)$");
    assert_eq!(glob_source("a.b*c"), "^a\\.b(?s:.*)c$");
    assert_eq!(glob_source(""), "^$");
    assert_eq!(glob_source("**"), "^(?s:.*)(?s:.*)$");
}

#[test]
fn matcher_matches_whole_key() {
    let m = update_regex("foo*").ok().unwrap();
    assert!(m.is_match("foo"));
    assert!(m.is_match("foobar"));
    assert!(!m.is_match("xfoobar"));
    assert!(m.is_match("foo\nbar"));
    assert!(update_regex("*").ok().unwrap().is_match("a\nb"));
    let exact = update_regex("a+b").ok().unwrap();
    assert!(exact.is_match("a+b"));
    assert!(!exact.is_match("aab"));
}
