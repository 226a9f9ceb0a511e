//! Glob patterns: literal text plus `*`, anchored at both ends, compiled into
//! a regular expression of the regex crate.

use vstd::prelude::*;
use crate::record::{chars_of, push_char};

verus! {

#[verifier::external_type_specification]
#[verifier::external_body]
pub struct ExRegex(regex::Regex);

/// What regex::escape makes of a literal text.
pub uninterp spec fn regex_escaped(s: Seq<char>) -> Seq<char>;

/// Whether regex::Regex::new accepts a source.
pub uninterp spec fn regex_valid(src: Seq<char>) -> bool;

/// Whether the regex compiled from `src` matches somewhere in `text`.
pub uninterp spec fn regex_match(src: Seq<char>, text: Seq<char>) -> bool;

/// The regex text for a glob pattern read so far: what is complete, and the
/// run of literal characters since the last `*`.
pub open spec fn glob_parts(p: Seq<char>) -> (Seq<char>, Seq<char>)
    decreases p.len(),
{
    if p.len() == 0 {
        (Seq::empty(), Seq::empty())
    } else {
        let (done, run) = glob_parts(p.drop_last());
        if p.last() == '*' {
            (done + regex_escaped(run) + any_run(), Seq::empty())
        } else {
            (done, run.push(p.last()))
        }
    }
}

/// The regex that stands for `*`: any run of characters, line feeds
/// included, as the `s` flag lets `.` match them.
pub open spec fn any_run() -> Seq<char> {
    seq!['(', '?', 's', ':', '.', '*', ')']
}

/// The regex source of a glob pattern: anchored at both ends, each run of
/// literal text escaped, each `*` turned into `(?s:.*)`.
pub open spec fn glob_regex(p: Seq<char>) -> Seq<char> {
    let (done, run) = glob_parts(p);
    seq!['^'] + done + regex_escaped(run) + seq!['$']
}

/// A compiled pattern.  `re` is always the regex compiled from `source`.
pub struct Matcher {
    source: String,
    re: regex::Regex,
}

impl Matcher {
    /// The regex source this matcher was compiled from.
    pub closed spec fn source(&self) -> Seq<char> {
        self.source@
    }

    /// Whether `key` matches the pattern.
    pub fn is_match(&self, key: &str) -> (r: bool)
        ensures
            r == regex_match(self.source(), key@),
    {
        regex_is_match(self, key)
    }
}

/// Why a pattern cannot be used.
#[derive(PartialEq, Eq, Structural, Clone, Copy, Debug)]
pub enum PatternError {
    InvalidPattern,
}

/// Relies on regex::escape: the escaped text, to stand as a literal.
#[verifier::external_body]
fn escape(s: &str) -> (r: String)
    ensures
        r@ == regex_escaped(s@),
{
    regex::escape(s)
}

/// Relies on regex::Regex::new: it compiles the source, or fails.
#[verifier::external_body]
fn compile(source: String) -> (r: Option<Matcher>)
    ensures
        r.is_some() == regex_valid(source@),
        r.is_some() ==> r->0.source() == source@,
{
    match regex::Regex::new(&source) {
        Ok(re) => Some(Matcher { source, re }),
        Err(_) => None,
    }
}

/// Relies on regex::Regex::is_match on the regex that `m` holds.
#[verifier::external_body]
pub(crate) fn regex_is_match(m: &Matcher, text: &str) -> (r: bool)
    ensures
        r == regex_match(m.source(), text@),
{
    m.re.is_match(text)
}

/// The regex source of a glob pattern.
pub fn glob_source(pattern: &str) -> (r: String)
    ensures
        r@ == glob_regex(pattern@),
{
    let cs = chars_of(pattern);
    let mut done = String::new();
    let mut run = String::new();
    let mut i: usize = 0;
    while i < cs.len()
        invariant
            i <= cs.len(),
            cs@ == pattern@,
            (done@, run@) == glob_parts(cs@.take(i as int)),
        decreases cs.len() - i,
    {
        assert(cs@.take(i + 1).drop_last() =~= cs@.take(i as int));
        if cs[i] == '*' {
            let e = escape(run.as_str());
            done.append(e.as_str());
            done.append("(?s:.*)");
            proof {
                reveal_strlit("(?s:.*)");
                assert("(?s:.*)"@ =~= any_run());
            }
            run = String::new();
            assert(done@ =~= glob_parts(cs@.take(i + 1)).0);
        } else {
            push_char(&mut run, cs[i]);
        }
        i = i + 1;
    }
    assert(cs@.take(i as int) =~= pattern@);
    let mut out = "^".to_owned();
    out.append(done.as_str());
    let e = escape(run.as_str());
    out.append(e.as_str());
    out.append("$");
    proof {
        reveal_strlit("^");
        reveal_strlit("$");
        assert(out@ =~= glob_regex(pattern@));
    }
    out
}

/// Compiles a glob pattern: `*` stands for any run of characters (line feeds too), every
/// other character for itself, and the whole key must match.
pub fn update_regex(key: &str) -> (r: Result<Matcher, PatternError>)
    ensures
        r is Ok == regex_valid(glob_regex(key@)),
        r is Ok ==> r->Ok_0.source() == glob_regex(key@),
{
    match compile(glob_source(key)) {
        Some(m) => Ok(m),
        None => Err(PatternError::InvalidPattern),
    }
}

} // verus!
