//! One record of the log: a key and a value, framed as one line of JSON text.
//!
//! A record line reads `{"key":<key>,"val":<val>}`, where both strings are JSON
//! string literals as serde_json writes them.

use vstd::prelude::*;

verus! {

/// The value that marks a key as deleted from that point of the log on.
pub const DELETED: &'static str = "UNDEFINED";

/// The deletion marker as a sequence of characters.
pub open spec fn deleted_marker() -> Seq<char> {
    seq!['U', 'N', 'D', 'E', 'F', 'I', 'N', 'E', 'D']
}

/// What serde_json writes for a string: its JSON string literal.
pub uninterp spec fn json_quoted(s: Seq<char>) -> Seq<char>;

/// What serde_json reads from a JSON text as a string, if the text is one.
pub uninterp spec fn json_unquoted(s: Seq<char>) -> Option<Seq<char>>;

/// Whitespace as JSON defines it: space, tab, line feed, carriage return.
pub open spec fn is_json_space(c: char) -> bool {
    c == ' ' || c == '\t' || c == '\n' || c == '\r'
}

/// A line without its trailing whitespace.
pub open spec fn trimmed_end(s: Seq<char>) -> Seq<char>
    decreases s.len(),
{
    if s.len() > 0 && is_json_space(s.last()) {
        trimmed_end(s.drop_last())
    } else {
        s
    }
}

/// Index of the quote that closes a JSON string literal, scanning from `i` and
/// stepping over each backslash escape.
pub open spec fn quote_end(s: Seq<char>, i: int) -> Option<int>
    decreases s.len() + 1 - i,
{
    if i < 0 || i >= s.len() {
        None
    } else if s[i] == '"' {
        Some(i)
    } else if s[i] == '\\' {
        quote_end(s, i + 2)
    } else {
        quote_end(s, i + 1)
    }
}

/// The text before the key literal: `{"key":`.
pub open spec fn key_head() -> Seq<char> {
    seq!['{', '"', 'k', 'e', 'y', '"', ':']
}

/// The text between the key literal and the value literal: `,"val":`.
pub open spec fn val_head() -> Seq<char> {
    seq![',', '"', 'v', 'a', 'l', '"', ':']
}

/// The line that encodes the record `(k, v)`.
pub open spec fn record_line(k: Seq<char>, v: Seq<char>) -> Seq<char> {
    key_head() + json_quoted(k) + val_head() + json_quoted(v) + seq!['}']
}

/// The record that a line without trailing whitespace encodes, if any.
pub open spec fn parse_record(s: Seq<char>) -> Option<(Seq<char>, Seq<char>)> {
    if s.len() < 8 || s.subrange(0, 7) != key_head() {
        None
    } else {
        match quote_end(s, 8) {
            None => None,
            Some(e) => if e + 9 > s.len() || s.subrange(e + 1, e + 8) != val_head() || s.last()
                != '}' {
                None
            } else {
                match (json_unquoted(s.subrange(7, e + 1)), json_unquoted(s.subrange(e + 8, s.len() - 1))) {
                    (Some(k), Some(v)) => Some((k, v)),
                    _ => None,
                }
            },
        }
    }
}

/// The record that a line of the log holds: trailing whitespace is ignored,
/// and a line that is not a record holds none.
pub open spec fn record_of(line: Seq<char>) -> Option<(Seq<char>, Seq<char>)> {
    parse_record(trimmed_end(line))
}

/// A decoded record.
pub struct DirtyVal {
    pub key: String,
    pub val: String,
}

impl DirtyVal {
    pub open spec fn view(&self) -> (Seq<char>, Seq<char>) {
        (self.key@, self.val@)
    }
}

/// Relies on serde_json::to_string on a `str`: it writes the JSON string
/// literal, which serde_json reads back as the same string.  Inside the
/// literal each `"` and `\` stands escaped behind a backslash, and control
/// characters, a newline among them, are written as escapes.  Writing a `str`
/// into memory does not fail, so the error arm is never taken.
#[verifier::external_body]
fn json_quote(s: &str) -> (r: String)
    ensures
        r@ == json_quoted(s@),
        json_unquoted(r@) == Some(s@),
        quote_end(r@, 1) == Some(r@.len() - 1),
        !r@.contains('\n'),
{
    match serde_json::to_string(s) {
        Ok(t) => t,
        Err(_) => String::new(),
    }
}

/// Relies on serde_json::from_str::<String>: it reads a JSON text that is one
/// string literal, surrounded by whitespace at most, and fails on any other.
#[verifier::external_body]
fn json_unquote(s: &str) -> (r: Option<String>)
    ensures
        r.is_some() == json_unquoted(s@).is_some(),
        r.is_some() ==> json_unquoted(s@) == Some(r->0@),
{
    serde_json::from_str::<String>(s).ok()
}

/// Relies on String::push: it appends one character.
#[verifier::external_body]
pub(crate) fn push_char(s: &mut String, c: char)
    ensures
        final(s)@ == old(s)@.push(c),
{
    s.push(c)
}


/// The characters of a string, in order.
pub(crate) fn chars_of(s: &str) -> (r: Vec<char>)
    ensures
        r@ == s@,
{
    broadcast use vstd::string::axiom_spec_iter;

    let mut v: Vec<char> = Vec::new();
    for c in it: s.chars()
        invariant
            v@ == it.history(),
    {
        v.push(c);
    }
    v
}

/// The string made of `cs[lo..hi]`.
pub(crate) fn string_of(cs: &Vec<char>, lo: usize, hi: usize) -> (r: String)
    requires
        lo <= hi <= cs.len(),
    ensures
        r@ == cs@.subrange(lo as int, hi as int),
{
    let mut out = String::new();
    let mut i: usize = lo;
    while i < hi
        invariant
            lo <= i <= hi <= cs.len(),
            out@ == cs@.subrange(lo as int, i as int),
        decreases hi - i,
    {
        push_char(&mut out, cs[i]);
        assert(cs@.subrange(lo as int, i + 1) =~= cs@.subrange(lo as int, i as int).push(cs@[i as int]));
        i = i + 1;
    }
    out
}

/// Whether `text` stands in `cs` from index `at` on.
pub(crate) fn has_text_at(cs: &Vec<char>, at: usize, text: &str) -> (r: bool)
    ensures
        r == (at + text@.len() <= cs.len() && cs@.subrange(at as int, at + text@.len()) == text@),
{
    let t = chars_of(text);
    if at > cs.len() || cs.len() - at < t.len() {
        return false;
    }
    let mut i: usize = 0;
    while i < t.len()
        invariant
            t@ == text@,
            at + t.len() <= cs.len(),
            i <= t.len(),
            forall|j: int| 0 <= j < i ==> cs@[at + j] == t@[j],
        decreases t.len() - i,
    {
        if cs[at + i] != t[i] {
            assert(cs@.subrange(at as int, at + text@.len())[i as int] != text@[i as int]);
            return false;
        }
        i = i + 1;
    }
    assert(cs@.subrange(at as int, at + text@.len()) =~= text@);
    true
}

/// Index of the quote that closes the string literal scanned from `start`.
fn find_quote_end(cs: &Vec<char>, start: usize) -> (r: Option<usize>)
    ensures
        match r {
            Some(e) => quote_end(cs@, start as int) == Some(e as int) && e < cs.len(),
            None => quote_end(cs@, start as int) is None,
        },
{
    let mut i: usize = start;
    while i < cs.len()
        invariant
            quote_end(cs@, start as int) == quote_end(cs@, i as int),
            start <= i,
        decreases cs.len() - i,
    {
        if cs[i] == '"' {
            return Some(i);
        } else if cs[i] == '\\' {
            if i + 1 >= cs.len() {
                assert(quote_end(cs@, i + 2) is None);
                return None;
            }
            i = i + 2;
        } else {
            i = i + 1;
        }
    }
    None
}


/// A scan that stops inside `b` stops at the same place when `b` stands
/// between `a` and `c`.
proof fn lemma_quote_end_inside(a: Seq<char>, b: Seq<char>, c: Seq<char>, i: int, j: int)
    requires
        0 <= i,
        quote_end(b, i) == Some(j),
    ensures
        quote_end(a + b + c, a.len() + i) == Some(a.len() + j),
    decreases b.len() + 1 - i,
{
    let s = a + b + c;
    assert(s[a.len() + i] == b[i]);
    if b[i] == '"' {
    } else if b[i] == '\\' {
        lemma_quote_end_inside(a, b, c, i + 2, j);
        assert(a.len() + (i + 2) == a.len() + i + 2);
    } else {
        lemma_quote_end_inside(a, b, c, i + 1, j);
        assert(a.len() + (i + 1) == a.len() + i + 1);
    }
}

/// A record line built from two string literals that read back as `k` and
/// `v`, where the key's literal closes at its last character, parses as
/// `(k, v)`.
proof fn lemma_parse_built_line(k: Seq<char>, v: Seq<char>, qk: Seq<char>, qv: Seq<char>)
    requires
        json_unquoted(qk) == Some(k),
        json_unquoted(qv) == Some(v),
        quote_end(qk, 1) == Some(qk.len() - 1),
    ensures
        parse_record(key_head() + qk + val_head() + qv + seq!['}']) == Some((k, v)),
{
    let s = key_head() + qk + val_head() + qv + seq!['}'];
    let rest = val_head() + qv + seq!['}'];
    assert(s =~= key_head() + qk + rest);
    lemma_quote_end_inside(key_head(), qk, rest, 1, qk.len() - 1);
    let e = 7 + qk.len() - 1;
    assert(quote_end(s, 8) == Some(e));
    assert(s.subrange(0, 7) =~= key_head());
    assert(s.subrange(e + 1, e + 8) =~= val_head());
    assert(s.subrange(7, e + 1) =~= qk);
    assert(s.subrange(e + 8, s.len() - 1) =~= qv);
}

/// Encodes the record `(key, val)` as one line, without its newline.
pub fn encode_record(key: &str, val: &str) -> (r: String)
    ensures
        r@ == record_line(key@, val@),
        record_of(r@) == Some((key@, val@)),
        !r@.contains('\n'),
{
    let qk = json_quote(key);
    let qv = json_quote(val);
    let mut out = "{\"key\":".to_owned();
    out.append(qk.as_str());
    out.append(",\"val\":");
    out.append(qv.as_str());
    out.append("}");
    proof {
        reveal_strlit("{\"key\":");
        reveal_strlit(",\"val\":");
        reveal_strlit("}");
        assert(out@ =~= record_line(key@, val@));
        lemma_parse_built_line(key@, val@, qk@, qv@);
        assert(out@.last() == '}');
        assert(!out@.contains('\n')) by {
            if out@.contains('\n') {
                let i = choose|i: int| 0 <= i < out@.len() && out@[i] == '\n';
                if i < 7 {
                } else if i < 7 + qk@.len() {
                    assert(qk@[i - 7] == '\n');
                } else if i < 14 + qk@.len() {
                } else if i < 14 + qk@.len() + qv@.len() {
                    assert(qv@[i - 14 - qk@.len()] == '\n');
                }
            }
        }
    }
    out
}


/// Number of characters left of `cs[..n]` once its trailing whitespace is
/// dropped.
fn trimmed_len(cs: &Vec<char>) -> (n: usize)
    ensures
        n <= cs.len(),
        cs@.subrange(0, n as int) == trimmed_end(cs@),
{
    let mut n: usize = cs.len();
    assert(cs@.subrange(0, n as int) =~= cs@);
    while n > 0 && (cs[n - 1] == ' ' || cs[n - 1] == '\t' || cs[n - 1] == '\n' || cs[n - 1] == '\r')
        invariant
            n <= cs.len(),
            trimmed_end(cs@.subrange(0, n as int)) == trimmed_end(cs@),
        decreases n,
    {
        assert(cs@.subrange(0, n as int).drop_last() =~= cs@.subrange(0, n - 1));
        n = n - 1;
    }
    n
}

/// Decodes one line of the log; a line that holds no record gives `None`.
pub fn decode_record(line: &str) -> (r: Option<DirtyVal>)
    ensures
        match r {
            Some(dv) => record_of(line@) == Some(dv@),
            None => record_of(line@) is None,
        },
{
    let all = chars_of(line);
    let n = trimmed_len(&all);
    let cs = chars_prefix(&all, n);
    let ghost s = trimmed_end(line@);
    assert(cs@ == s);
    proof {
        reveal_strlit("{\"key\":");
        assert("{\"key\":"@ =~= key_head());
    }
    if n < 8 || !has_text_at(&cs, 0, "{\"key\":") {
        return None;
    }
    match find_quote_end(&cs, 8) {
        None => None,
        Some(e) => {
            proof {
                reveal_strlit(",\"val\":");
                assert(",\"val\":"@ =~= val_head());
            }
            if n - e < 9 || !has_text_at(&cs, e + 1, ",\"val\":") || cs[n - 1] != '}' {
                return None;
            }
            let ktok = string_of(&cs, 7, e + 1);
            let vtok = string_of(&cs, e + 8, n - 1);
            match (json_unquote(ktok.as_str()), json_unquote(vtok.as_str())) {
                (Some(k), Some(v)) => Some(DirtyVal { key: k, val: v }),
                _ => None,
            }
        }
    }
}

/// The first `n` characters of `cs`.
fn chars_prefix(cs: &Vec<char>, n: usize) -> (r: Vec<char>)
    requires
        n <= cs.len(),
    ensures
        r@ == cs@.subrange(0, n as int),
{
    let mut r: Vec<char> = Vec::new();
    let mut i: usize = 0;
    while i < n
        invariant
            i <= n <= cs.len(),
            r@ == cs@.subrange(0, i as int),
        decreases n - i,
    {
        r.push(cs[i]);
        assert(cs@.subrange(0, i + 1) =~= cs@.subrange(0, i as int).push(cs@[i as int]));
        i = i + 1;
    }
    r
}

} // verus!
