//! The decisions of the log-structured store.
//!
//! The log is the sequence of its lines, oldest first.  For a key, the newest
//! record that names it decides its value, and a record whose value is the
//! deletion marker makes the key absent.  `get` and `find_keys` read the log
//! from its end; `set` and `remove` only append a line.

use vstd::prelude::*;
use crate::record::{DirtyVal, DELETED, deleted_marker, record_of, record_line, encode_record, decode_record};
use crate::utils::{Matcher, PatternError, regex_match, glob_regex, regex_valid, update_regex, regex_is_match};
use crate::keyset::KeySet;

verus! {

/// An I/O failure of the store, with the system's description of it.
pub struct FileErrorWrapper(pub String);

impl From<String> for FileErrorWrapper {
    fn from(message: String) -> (r: FileErrorWrapper)
        ensures
            r.0@ == message@,
    {
        FileErrorWrapper(message)
    }
}

impl vstd::std_specs::convert::FromSpecImpl<String> for FileErrorWrapper {
    open spec fn obeys_from_spec() -> bool {
        true
    }

    open spec fn from_spec(message: String) -> FileErrorWrapper {
        FileErrorWrapper(message)
    }
}

impl FileErrorWrapper {
    /// The message shown to callers: `File error: ` and the description.
    pub fn message(&self) -> (r: String)
        ensures
            r@ == "File error: "@ + self.0@,
    {
        let mut r = "File error: ".to_owned();
        r.append(self.0.as_str());
        r
    }
}

/// The log as sequences of characters.
pub open spec fn log_of(lines: Seq<String>) -> Seq<Seq<char>> {
    lines.map_values(|l: String| l@)
}

/// The value of the newest record for `k`, the deletion marker included.
pub open spec fn newest_record(log: Seq<Seq<char>>, k: Seq<char>) -> Option<Seq<char>>
    decreases log.len(),
{
    if log.len() == 0 {
        None
    } else {
        match record_of(log.last()) {
            Some(r) => if r.0 == k {
                Some(r.1)
            } else {
                newest_record(log.drop_last(), k)
            },
            None => newest_record(log.drop_last(), k),
        }
    }
}

/// The current value of `k`: absent where no record names it or where the
/// newest one marks it deleted.
pub open spec fn value_of(log: Seq<Seq<char>>, k: Seq<char>) -> Option<Seq<char>> {
    match newest_record(log, k) {
        Some(v) => settled(v),
        None => None,
    }
}

/// What a record's value says of its key: the deletion marker makes it
/// absent, any other value is its value.
pub open spec fn settled(v: Seq<char>) -> Option<Seq<char>> {
    if v == deleted_marker() {
        None
    } else {
        Some(v)
    }
}

/// The view of an optional string.
pub open spec fn opt_view(o: Option<String>) -> Option<Seq<char>> {
    match o {
        Some(s) => Some(s@),
        None => None,
    }
}

/// Whether a key passes the filters: it matches `wanted` and, where there
/// is one, not `unwanted`.
pub open spec fn admitted(wanted: Seq<char>, unwanted: Option<Seq<char>>, k: Seq<char>) -> bool {
    regex_match(wanted, k) && match unwanted {
        Some(x) => !regex_match(x, k),
        None => true,
    }
}

/// The keys that `find_keys` reports: those with a current value that pass
/// the filters.
pub open spec fn found_keys(log: Seq<Seq<char>>, wanted: Seq<char>, unwanted: Option<Seq<char>>) -> Set<Seq<char>> {
    Set::new(|k: Seq<char>| value_of(log, k) is Some && admitted(wanted, unwanted, k))
}

/// The keys that some record of the log marks deleted.
pub open spec fn marked_deleted(log: Seq<Seq<char>>) -> Set<Seq<char>> {
    Set::new(|k: Seq<char>| exists|i: int| 0 <= i < log.len() && record_of(log[i]) == Some((k, deleted_marker())))
}

/// The newest record of `a + b` is the newest of `b`, or where `b` has none
/// for the key, the newest of `a`.
pub proof fn lemma_newest_of_concat(a: Seq<Seq<char>>, b: Seq<Seq<char>>, k: Seq<char>)
    ensures
        newest_record(a + b, k) == match newest_record(b, k) {
            Some(v) => Some(v),
            None => newest_record(a, k),
        },
    decreases b.len(),
{
    if b.len() == 0 {
        assert(a + b =~= a);
    } else {
        assert((a + b).drop_last() =~= a + b.drop_last());
        assert((a + b).last() == b.last());
        lemma_newest_of_concat(a, b.drop_last(), k);
    }
}


/// Where the newest record for `k` has value `w`, some record of the log
/// holds `(k, w)`.
proof fn lemma_newest_witness(log: Seq<Seq<char>>, k: Seq<char>)
    requires
        newest_record(log, k) is Some,
    ensures
        exists|i: int| 0 <= i < log.len() && record_of(log[i]) == Some((k, newest_record(log, k)->0)),
    decreases log.len(),
{
    let w = newest_record(log, k)->0;
    match record_of(log.last()) {
        Some(r) => {
            if r.0 == k {
                assert(record_of(log[log.len() - 1]) == Some((k, w)));
                return;
            }
        },
        None => {},
    }
    lemma_newest_witness(log.drop_last(), k);
    let i = choose|i: int| 0 <= i < log.drop_last().len() && record_of(log.drop_last()[i]) == Some((k, w));
    assert(log[i] == log.drop_last()[i]);
}

/// Where some record of the log names `k`, `k` has a newest record.
proof fn lemma_newest_exists(log: Seq<Seq<char>>, k: Seq<char>, v: Seq<char>, i: int)
    requires
        0 <= i < log.len(),
        record_of(log[i]) == Some((k, v)),
    ensures
        newest_record(log, k) is Some,
    decreases log.len(),
{
    if i < log.len() - 1 {
        match record_of(log.last()) {
            Some(r) => {
                if r.0 != k {
                    assert(log.drop_last()[i] == log[i]);
                    lemma_newest_exists(log.drop_last(), k, v, i);
                }
            },
            None => {
                assert(log.drop_last()[i] == log[i]);
                lemma_newest_exists(log.drop_last(), k, v, i);
            },
        }
    }
}

/// The newest record for `k` in a log of one line.
proof fn lemma_newest_of_one(x: Seq<char>, k: Seq<char>)
    ensures
        newest_record(seq![x], k) == match record_of(x) {
            Some(r) => if r.0 == k {
                Some(r.1)
            } else {
                None
            },
            None => None,
        },
{
    assert(seq![x].last() == x);
    assert(seq![x].drop_last() =~= Seq::<Seq<char>>::empty());
    assert(newest_record(Seq::<Seq<char>>::empty(), k) is None);
    assert(newest_record(seq![x].drop_last(), k) is None);
}

/// Builds the line that `set` appends to the log: the encoded record and its
/// newline.  Once it is appended, `key` has the value `val`, or none where
/// `val` is the deletion marker.
pub fn set_line(key: &str, val: &str) -> (r: String)
    ensures
        r@ == record_line(key@, val@).push('\n'),
        record_of(r@.drop_last()) == Some((key@, val@)),
        !r@.drop_last().contains('\n'),
        forall|log: Seq<Seq<char>>| #[trigger] value_of(log.push(r@.drop_last()), key@) == settled(val@),
{
    let mut r = encode_record(key, val);
    let ghost line = r@;
    r.append("\n");
    proof {
        reveal_strlit("\n");
        assert(r@.drop_last() =~= line);
        assert forall|log: Seq<Seq<char>>| #[trigger] value_of(log.push(r@.drop_last()), key@) == settled(val@) by {
            assert(log.push(line).last() == line);
        }
    }
    r
}

/// The deletion marker as an owned string.
fn marker() -> (r: String)
    ensures
        r@ == deleted_marker(),
{
    let m = DELETED.to_owned();
    proof {
        reveal_strlit("UNDEFINED");
        assert(m@ =~= deleted_marker());
    }
    m
}

/// Builds the line that `remove` appends: a record of `key` with the
/// deletion marker.  Once it is appended, `key` has no value.
pub fn remove_line(key: &str) -> (r: String)
    ensures
        r@ == record_line(key@, deleted_marker()).push('\n'),
        record_of(r@.drop_last()) == Some((key@, deleted_marker())),
        forall|log: Seq<Seq<char>>| #[trigger] value_of(log.push(r@.drop_last()), key@) is None,
{
    let m = marker();
    let r = set_line(key, m.as_str());
    proof {
        assert forall|log: Seq<Seq<char>>| #[trigger] value_of(log.push(r@.drop_last()), key@) is None by {
            assert(value_of(log.push(r@.drop_last()), key@) == settled(m@));
        }
    }
    r
}

/// One step of `get`, on the next line read from the end of the log: the
/// answer where the line is a record of `key`, `None` to read on.
pub fn lookup_step(key: &String, line: &str) -> (r: Option<Option<String>>)
    ensures
        match record_of(line@) {
            Some(rec) => if rec.0 == key@ {
                r is Some && opt_view(r->0) == settled(rec.1)
            } else {
                r is None
            },
            None => r is None,
        },
{
    match decode_record(line) {
        Some(dv) => {
            if dv.key.eq(key) {
                let m = marker();
                if dv.val.eq(&m) {
                    Some(None)
                } else {
                    Some(Some(dv.val))
                }
            } else {
                None
            }
        },
        None => None,
    }
}

/// The current value of `key` in the log `lines` (oldest line first), read
/// from the end: the newest record of `key` decides, and lines that hold no
/// record are passed over.
pub fn get_in_log(lines: &Vec<String>, key: &String) -> (r: Option<String>)
    ensures
        opt_view(r) == value_of(log_of(lines@), key@),
{
    let ghost log = log_of(lines@);
    let n = lines.len();
    let mut i: usize = n;
    while i > 0
        invariant
            i <= n == lines.len(),
            log == log_of(lines@),
            newest_record(log.subrange(i as int, n as int), key@) is None,
        decreases i,
    {
        i = i - 1;
        let step = lookup_step(key, lines[i].as_str());
        proof {
            let b = log.subrange(i as int, n as int);
            assert(b =~= seq![log[i as int]] + log.subrange(i + 1, n as int));
            lemma_newest_of_concat(seq![log[i as int]], log.subrange(i + 1, n as int), key@);
            lemma_newest_of_one(log[i as int], key@);
            assert(log =~= log.take(i as int) + b);
            lemma_newest_of_concat(log.take(i as int), b, key@);
        }
        match step {
            Some(ans) => {
                return ans;
            },
            None => {},
        }
    }
    assert(log.subrange(0, n as int) =~= log);
    None
}

/// Whether `find_keys` keeps a key, given whether it matches the pattern and,
/// where there is one, the pattern of keys to leave out.
pub fn keep_key(matches_key: bool, matches_not_key: Option<bool>) -> (r: bool)
    ensures
        r == (matches_key && matches_not_key != Some(true)),
{
    match matches_not_key {
        Some(m) => matches_key && !m,
        None => matches_key,
    }
}


/// Reading one more line at the front of the log marks deleted the key of
/// its record, where that record carries the deletion marker, and no other.
proof fn lemma_deleted_after_line(x: Seq<char>, fed: Seq<Seq<char>>)
    ensures
        marked_deleted(seq![x] + fed) == match record_of(x) {
            Some(r) => if r.1 == deleted_marker() {
                marked_deleted(fed).insert(r.0)
            } else {
                marked_deleted(fed)
            },
            None => marked_deleted(fed),
        },
{
    let all = seq![x] + fed;
    let expected = match record_of(x) {
        Some(r) => if r.1 == deleted_marker() {
            marked_deleted(fed).insert(r.0)
        } else {
            marked_deleted(fed)
        },
        None => marked_deleted(fed),
    };
    assert forall|k: Seq<char>| marked_deleted(all).contains(k) implies expected.contains(k) by {
        let i = choose|i: int| 0 <= i < all.len() && record_of(all[i]) == Some((k, deleted_marker()));
        if i != 0 {
            assert(all[i] == fed[i - 1]);
        }
    }
    assert forall|k: Seq<char>| expected.contains(k) implies marked_deleted(all).contains(k) by {
        if marked_deleted(fed).contains(k) {
            let i = choose|i: int| 0 <= i < fed.len() && record_of(fed[i]) == Some((k, deleted_marker()));
            assert(all[i + 1] == fed[i]);
        } else {
            assert(all[0] == x);
        }
    }
    assert(marked_deleted(all) =~= expected);
}

/// Reading one more line at the front of the log leaves the newest record
/// of every key that the line does not name as it was.
proof fn lemma_other_keys_after_line(x: Seq<char>, fed: Seq<Seq<char>>)
    ensures
        forall|k: Seq<char>| !names_key(x, k) ==> #[trigger] newest_record(seq![x] + fed, k) == newest_record(fed, k),
{
    assert forall|k: Seq<char>| !names_key(x, k) implies #[trigger] newest_record(seq![x] + fed, k) == newest_record(fed, k) by {
        lemma_newest_of_concat(seq![x], fed, k);
        lemma_newest_of_one(x, k);
    }
}

/// A `find_keys` scan in progress: it is fed the lines of the log from the
/// end toward the start, and keeps the keys marked deleted by what it has
/// read so far, and the keys found.
pub struct KeyScan {
    wanted: Matcher,
    unwanted: Option<Matcher>,
    deleted: KeySet,
    found: KeySet,
    fed: Ghost<Seq<Seq<char>>>,
}

impl KeyScan {
    /// The part of the log read so far, oldest line first.
    pub closed spec fn fed(&self) -> Seq<Seq<char>> {
        self.fed@
    }

    /// The regex source of the pattern that keys must match.
    pub closed spec fn wanted_source(&self) -> Seq<char> {
        self.wanted.source()
    }

    /// The regex source of the pattern of keys left out, if any.
    pub closed spec fn unwanted_source(&self) -> Option<Seq<char>> {
        match self.unwanted {
            Some(m) => Some(m.source()),
            None => None,
        }
    }

    /// The sets agree with what was read.
    pub closed spec fn wf(&self) -> bool {
        &&& self.deleted@ == marked_deleted(self.fed@)
        &&& self.found@ == found_keys(self.fed@, self.wanted_source(), self.unwanted_source())
    }

    /// Starts a scan for keys that match `key` and, where `not_key` is given,
    /// do not match `not_key`.  Fails where either pattern does not compile.
    pub fn new(key: &str, not_key: Option<&str>) -> (r: Result<KeyScan, PatternError>)
        ensures
            r is Ok == (regex_valid(glob_regex(key@)) && match not_key {
                Some(n) => regex_valid(glob_regex(n@)),
                None => true,
            }),
            r is Ok ==> {
                &&& r->Ok_0.wf()
                &&& r->Ok_0.fed() == Seq::<Seq<char>>::empty()
                &&& r->Ok_0.wanted_source() == glob_regex(key@)
                &&& r->Ok_0.unwanted_source() == match not_key {
                    Some(n) => Some(glob_regex(n@)),
                    None => None,
                }
            },
    {
        let wanted = match update_regex(key) {
            Ok(m) => m,
            Err(e) => {
                return Err(e);
            },
        };
        let unwanted = match not_key {
            Some(n) => match update_regex(n) {
                Ok(m) => Some(m),
                Err(e) => {
                    return Err(e);
                },
            },
            None => None,
        };
        let scan = KeyScan {
            wanted,
            unwanted,
            deleted: KeySet::new(),
            found: KeySet::new(),
            fed: Ghost(Seq::empty()),
        };
        proof {
            assert(scan.deleted@ =~= marked_deleted(scan.fed@));
            assert(scan.found@ =~= found_keys(scan.fed@, scan.wanted_source(), scan.unwanted_source()));
        }
        Ok(scan)
    }

    /// Reads the next line, which stands in the log just before all lines
    /// read so far.
    pub fn feed(&mut self, line: &str)
        requires
            old(self).wf(),
        ensures
            final(self).wf(),
            final(self).fed() == seq![line@] + old(self).fed(),
            final(self).wanted_source() == old(self).wanted_source(),
            final(self).unwanted_source() == old(self).unwanted_source(),
    {
        let ghost old_fed = self.fed@;
        let ghost new_fed = seq![line@] + old_fed;
        let ghost wanted = self.wanted_source();
        let ghost unwanted = self.unwanted_source();
        proof {
            lemma_deleted_after_line(line@, old_fed);
            lemma_other_keys_after_line(line@, old_fed);
        }
        match decode_record(line) {
            None => {
                proof {
                    assert(found_keys(new_fed, wanted, unwanted) =~= self.found@);
                }
            },
            Some(dv) => {
                let ghost k0 = dv.key@;
                proof {
                    assert(names_key(line@, k0));
                    lemma_newest_of_concat(seq![line@], old_fed, k0);
                    lemma_newest_of_one(line@, k0);
                }
                let m = marker();
                if dv.val.eq(&m) {
                    proof {
                        assert(found_keys(new_fed, wanted, unwanted) =~= self.found@);
                    }
                    self.deleted.insert(dv.key);
                } else {
                    let ghost v0 = dv.val@;
                    let ghost old_found = self.found@;
                    let was_deleted = self.deleted.contains(&dv.key);
                    if !was_deleted {
                        let inc = regex_is_match(&self.wanted, dv.key.as_str());
                        let exc = match &self.unwanted {
                            Some(u) => Some(regex_is_match(u, dv.key.as_str())),
                            None => None,
                        };
                        let keep = keep_key(inc, exc);
                        proof {
                            assert(admitted(wanted, unwanted, k0) == keep);
                        }
                        if keep {
                            self.found.insert(dv.key);
                        }
                    }
                    proof {
                        if was_deleted {
                            let i = choose|i: int| 0 <= i < old_fed.len() && record_of(old_fed[i]) == Some((k0, deleted_marker()));
                            lemma_newest_exists(old_fed, k0, deleted_marker(), i);
                        } else if newest_record(old_fed, k0) is Some {
                            lemma_newest_witness(old_fed, k0);
                            let w = newest_record(old_fed, k0)->0;
                            if w == deleted_marker() {
                                let i = choose|i: int| 0 <= i < old_fed.len() && record_of(old_fed[i]) == Some((k0, w));
                                assert(marked_deleted(old_fed).contains(k0));
                            }
                            assert(value_of(old_fed, k0) is Some);
                        } else {
                            assert(value_of(new_fed, k0) == Some(v0));
                        }
                        assert(self.found@ =~= found_keys(new_fed, wanted, unwanted));
                    }
                }
            },
        }
        self.fed = Ghost(new_fed);
    }

    /// The keys found: each once, in no particular order.
    pub fn finish(self) -> (r: Vec<String>)
        requires
            self.wf(),
        ensures
            forall|i: int, j: int| 0 <= i < j < r.len() ==> r[i]@ != r[j]@,
            forall|k: Seq<char>|
                found_keys(self.fed(), self.wanted_source(), self.unwanted_source()).contains(k)
                    <==> exists|i: int| 0 <= i < r.len() && r[i]@ == k,
    {
        self.found.into_vec()
    }
}


/// The regex source of an optional glob pattern.
pub open spec fn opt_glob(p: Option<&str>) -> Option<Seq<char>> {
    match p {
        Some(n) => Some(glob_regex(n@)),
        None => None,
    }
}

/// `find_keys` on the log `lines` (oldest line first): the keys with a
/// current value that match `key` and, where `not_key` is given, do not match
/// `not_key`, each once.  Fails, before reading, where a pattern does not
/// compile.
pub fn find_keys_in_log(lines: &Vec<String>, key: &str, not_key: Option<&str>) -> (r: Result<Vec<String>, PatternError>)
    ensures
        r is Ok == (regex_valid(glob_regex(key@)) && match not_key {
            Some(n) => regex_valid(glob_regex(n@)),
            None => true,
        }),
        r is Ok ==> {
            &&& forall|i: int, j: int| 0 <= i < j < r->Ok_0.len() ==> r->Ok_0[i]@ != r->Ok_0[j]@
            &&& forall|k: Seq<char>|
                found_keys(log_of(lines@), glob_regex(key@), opt_glob(not_key)).contains(k)
                    <==> exists|i: int| 0 <= i < r->Ok_0.len() && r->Ok_0[i]@ == k
        },
{
    let mut scan = match KeyScan::new(key, not_key) {
        Ok(s) => s,
        Err(e) => {
            return Err(e);
        },
    };
    let ghost log = log_of(lines@);
    let n = lines.len();
    let mut i: usize = n;
    assert(log.subrange(n as int, n as int) =~= Seq::<Seq<char>>::empty());
    while i > 0
        invariant
            i <= n == lines.len(),
            log == log_of(lines@),
            scan.wf(),
            scan.fed() == log.subrange(i as int, n as int),
            scan.wanted_source() == glob_regex(key@),
            scan.unwanted_source() == opt_glob(not_key),
        decreases i,
    {
        i = i - 1;
        scan.feed(lines[i].as_str());
        assert(scan.fed() =~= log.subrange(i as int, n as int));
    }
    assert(log.subrange(0, n as int) =~= log);
    assert(scan.fed() == log);
    let found = scan.finish();
    let r: Result<Vec<String>, PatternError> = Ok(found);
    assert(r->Ok_0 == found);
    r
}

/// Whether a line is a record of `k`.
pub open spec fn names_key(line: Seq<char>, k: Seq<char>) -> bool {
    match record_of(line) {
        Some(r) => r.0 == k,
        None => false,
    }
}

/// On an empty log no key has a value.
pub proof fn lemma_empty_log(k: Seq<char>)
    ensures
        value_of(Seq::<Seq<char>>::empty(), k) is None,
{
}

/// A key that no record names has no value.
pub proof fn lemma_absent(log: Seq<Seq<char>>, k: Seq<char>)
    requires
        forall|i: int| 0 <= i < log.len() ==> !#[trigger] names_key(log[i], k),
    ensures
        value_of(log, k) is None,
{
    if newest_record(log, k) is Some {
        lemma_newest_witness(log, k);
        let i = choose|i: int| 0 <= i < log.len() && record_of(log[i]) == Some((k, newest_record(log, k)->0));
        assert(names_key(log[i], k));
    }
}

/// Once a record `(k, v)` is appended, `get(k)` gives `v`, whatever the log
/// held before, unless `v` is the deletion marker.
pub proof fn lemma_set_then_get(log: Seq<Seq<char>>, line: Seq<char>, k: Seq<char>, v: Seq<char>)
    requires
        record_of(line) == Some((k, v)),
        v != deleted_marker(),
    ensures
        value_of(log.push(line), k) == Some(v),
{
    assert(log.push(line).last() == line);
}

/// Of two records for one key, the later one decides.
pub proof fn lemma_last_writer_wins(log: Seq<Seq<char>>, first: Seq<char>, second: Seq<char>, k: Seq<char>, a: Seq<char>, b: Seq<char>)
    requires
        record_of(first) == Some((k, a)),
        record_of(second) == Some((k, b)),
        b != deleted_marker(),
    ensures
        value_of(log.push(first).push(second), k) == Some(b),
{
    lemma_set_then_get(log.push(first), second, k, b);
}

/// A deletion record makes a key absent, and a later record gives it a value
/// again.
pub proof fn lemma_remove_then_set(log: Seq<Seq<char>>, put: Seq<char>, del: Seq<char>, again: Seq<char>, k: Seq<char>, a: Seq<char>, c: Seq<char>)
    requires
        record_of(put) == Some((k, a)),
        record_of(del) == Some((k, deleted_marker())),
        record_of(again) == Some((k, c)),
        c != deleted_marker(),
    ensures
        value_of(log.push(put).push(del), k) is None,
        value_of(log.push(put).push(del).push(again), k) == Some(c),
{
    assert(log.push(put).push(del).last() == del);
    lemma_set_then_get(log.push(put).push(del), again, k, c);
}

/// A key whose newest record marks it deleted is not found by any pattern,
/// though its earlier records stay in the log.
pub proof fn lemma_deleted_not_found(log: Seq<Seq<char>>, put: Seq<char>, del: Seq<char>, k: Seq<char>, a: Seq<char>, wanted: Seq<char>, unwanted: Option<Seq<char>>)
    requires
        record_of(put) == Some((k, a)),
        record_of(del) == Some((k, deleted_marker())),
    ensures
        !found_keys(log.push(put).push(del), wanted, unwanted).contains(k),
{
    assert(log.push(put).push(del).last() == del);
}

/// A line that holds no record changes no key's value.
pub proof fn lemma_corrupt_line_ignored(log: Seq<Seq<char>>, bad: Seq<char>, k: Seq<char>)
    requires
        record_of(bad) is None,
    ensures
        value_of(log.push(bad), k) == value_of(log, k),
{
    assert(log.push(bad).last() == bad);
    assert(log.push(bad).drop_last() =~= log);
}


/// A line that holds no record, standing between the records of two keys,
/// changes neither key's value.
pub proof fn lemma_corrupt_line_between(log: Seq<Seq<char>>, first: Seq<char>, bad: Seq<char>, second: Seq<char>, k1: Seq<char>, v1: Seq<char>, k2: Seq<char>, v2: Seq<char>)
    requires
        record_of(first) == Some((k1, v1)),
        record_of(bad) is None,
        record_of(second) == Some((k2, v2)),
        k1 != k2,
        v1 != deleted_marker(),
        v2 != deleted_marker(),
    ensures
        value_of(log.push(first).push(bad).push(second), k1) == Some(v1),
        value_of(log.push(first).push(bad).push(second), k2) == Some(v2),
{
    let all = log.push(first).push(bad).push(second);
    lemma_set_then_get(log, first, k1, v1);
    lemma_corrupt_line_ignored(log.push(first), bad, k1);
    assert(all.last() == second);
    assert(all.drop_last() =~= log.push(first).push(bad));
    lemma_set_then_get(log.push(first).push(bad), second, k2, v2);
}

} // verus!
