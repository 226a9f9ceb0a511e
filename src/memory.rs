//! A store that keeps its keys and values in memory, in a hashbrown `HashMap`.

use vstd::prelude::*;
use crate::dirty::{admitted, opt_view, keep_key};
use crate::utils::{glob_regex, regex_valid, update_regex, PatternError};

verus! {

/// The map with no entries.
pub open spec fn no_entries() -> Map<Seq<char>, Seq<char>> {
    Map::empty()
}

/// A map from keys to values, kept private behind the methods below;
/// `string_map_contents` names what it holds.
#[verifier::external_body]
pub struct StringMap {
    inner: hashbrown::HashMap<String, String>,
}

/// The entries that a `StringMap` holds.
pub uninterp spec fn string_map_contents(m: StringMap) -> Map<Seq<char>, Seq<char>>;

impl StringMap {
    /// Relies on hashbrown::HashMap::new: an empty map.
    #[verifier::external_body]
    fn new() -> (r: StringMap)
        ensures
            string_map_contents(r) == no_entries(),
    {
        StringMap { inner: hashbrown::HashMap::new() }
    }

    /// Relies on hashbrown::HashMap::get: the value stored under `k`.
    #[verifier::external_body]
    fn get(&self, k: &String) -> (r: Option<String>)
        ensures
            r.is_some() == string_map_contents(*self).contains_key(k@),
            r.is_some() ==> r->0@ == string_map_contents(*self)[k@],
    {
        self.inner.get(k).cloned()
    }

    /// Relies on hashbrown::HashMap::insert: `k` now maps to `v`.
    #[verifier::external_body]
    fn insert(&mut self, k: String, v: String)
        ensures
            string_map_contents(*final(self)) == string_map_contents(*old(self)).insert(k@, v@),
    {
        self.inner.insert(k, v);
    }

    /// Relies on hashbrown::HashMap::remove: `k` maps to nothing now.
    #[verifier::external_body]
    fn remove(&mut self, k: &String)
        ensures
            string_map_contents(*final(self)) == string_map_contents(*old(self)).remove(k@),
    {
        self.inner.remove(k);
    }

    /// Relies on hashbrown::HashMap::clear: the map is empty.
    #[verifier::external_body]
    fn clear(&mut self)
        ensures
            string_map_contents(*final(self)) == no_entries(),
    {
        self.inner.clear();
    }

    /// Relies on hashbrown::HashMap::keys: each key once, in no set order.
    #[verifier::external_body]
    fn keys(&self) -> (r: Vec<String>)
        ensures
            forall|i: int, j: int| 0 <= i < j < r.len() ==> r[i]@ != r[j]@,
            forall|k: Seq<char>|
                string_map_contents(*self).contains_key(k) <==> exists|i: int| 0 <= i < r.len() && r[i]@ == k,
    {
        self.inner.keys().cloned().collect()
    }
}

/// Whether some string of `v` reads `k`.
pub open spec fn listed(v: Seq<String>, k: Seq<char>) -> bool {
    exists|j: int| 0 <= j < v.len() && v[j]@ == k
}

/// A key/value store held in memory.
pub struct MemoryDB {
    db: StringMap,
}

impl MemoryDB {
    /// The entries of the store.
    pub closed spec fn view(&self) -> Map<Seq<char>, Seq<char>> {
        string_map_contents(self.db)
    }

    /// An empty store.
    pub fn new() -> (r: MemoryDB)
        ensures
            r@ == no_entries(),
    {
        MemoryDB { db: StringMap::new() }
    }

    /// The value stored under `key`, if any.
    pub fn get(&self, key: String) -> (r: Option<String>)
        ensures
            opt_view(r) == (if self@.contains_key(key@) {
                Some(self@[key@])
            } else {
                None
            }),
    {
        self.db.get(&key)
    }

    /// Stores `value` under `key`, replacing what was there.
    pub fn set(&mut self, key: String, value: String)
        ensures
            final(self)@ == old(self)@.insert(key@, value@),
    {
        self.db.insert(key, value);
    }

    /// Removes `key` and its value.
    pub fn remove(&mut self, key: String)
        ensures
            final(self)@ == old(self)@.remove(key@),
    {
        self.db.remove(&key);
    }

    /// The stored keys that match `key` and, where `not_key` is given, do not
    /// match `not_key`, each once.  Fails where a pattern does not compile.
    pub fn find_keys(&self, key: String, not_key: Option<String>) -> (r: Result<Vec<String>, PatternError>)
        ensures
            r is Ok == (regex_valid(glob_regex(key@)) && match not_key {
                Some(n) => regex_valid(glob_regex(n@)),
                None => true,
            }),
            r is Ok ==> {
                &&& forall|i: int, j: int| 0 <= i < j < r->Ok_0.len() ==> r->Ok_0[i]@ != r->Ok_0[j]@
                &&& forall|k: Seq<char>|
                    #[trigger] listed(r->Ok_0@, k) == (self@.contains_key(k) && admitted(
                        glob_regex(key@),
                        match not_key {
                            Some(n) => Some(glob_regex(n@)),
                            None => None,
                        },
                        k,
                    ))
            },
    {
        let wanted = match update_regex(key.as_str()) {
            Ok(m) => m,
            Err(e) => {
                return Err(e);
            },
        };
        let unwanted = match &not_key {
            Some(n) => match update_regex(n.as_str()) {
                Ok(m) => Some(m),
                Err(e) => {
                    return Err(e);
                },
            },
            None => None,
        };
        let ghost w = glob_regex(key@);
        let ghost u = match not_key {
            Some(n) => Some(glob_regex(n@)),
            None => None,
        };
        let keys = self.db.keys();
        assert(forall|k: Seq<char>| self@.contains_key(k) <==> #[trigger] listed(keys@, k));
        let mut out: Vec<String> = Vec::new();
        let mut i: usize = 0;
        while i < keys.len()
            invariant
                i <= keys.len(),
                wanted.source() == w,
                match unwanted {
                    Some(m) => u == Some(m.source()),
                    None => u is None,
                },
                forall|a: int, b: int| 0 <= a < b < keys.len() ==> keys[a]@ != keys[b]@,
                forall|k: Seq<char>| self@.contains_key(k) <==> #[trigger] listed(keys@, k),
                forall|a: int, b: int| 0 <= a < b < out.len() ==> out[a]@ != out[b]@,
                forall|k: Seq<char>|
                    #[trigger] listed(out@, k) == (listed(keys@.take(i as int), k) && admitted(w, u, k)),
            decreases keys.len() - i,
        {
            let inc = wanted.is_match(keys[i].as_str());
            let exc = match &unwanted {
                Some(m) => Some(m.is_match(keys[i].as_str())),
                None => None,
            };
            let keep = keep_key(inc, exc);
            let ghost before = out@;
            let ghost key_i = keys[i as int]@;
            proof {
                assert(admitted(w, u, key_i) == keep);
                assert(!listed(keys@.take(i as int), key_i)) by {
                    if listed(keys@.take(i as int), key_i) {
                        let j = choose|j: int| 0 <= j < i && keys@.take(i as int)[j]@ == key_i;
                        assert(keys[j]@ == keys[i as int]@);
                    }
                }
            }
            if keep {
                out.push(keys[i].clone());
                proof {
                    assert(out[out.len() - 1]@ == key_i);
                    assert forall|a: int, b: int| 0 <= a < b < out.len() implies out[a]@ != out[b]@ by {
                        if b == out.len() - 1 {
                            assert(before[a]@ == out[a]@);
                            assert(listed(before, out[a]@));
                        }
                    }
                }
            }
            let ghost next = keys@.take(i + 1);
            let ghost prev = keys@.take(i as int);
            proof {
                assert forall|k: Seq<char>|
                    #[trigger] listed(out@, k) == (listed(next, k) && admitted(w, u, k)) by {
                    assert(listed(before, k) == (listed(prev, k) && admitted(w, u, k)));
                    if listed(out@, k) {
                        let j = choose|j: int| 0 <= j < out.len() && out@[j]@ == k;
                        if keep && j == out.len() - 1 {
                            assert(next[i as int]@ == k);
                        } else {
                            assert(before[j]@ == k);
                            let j2 = choose|j2: int| 0 <= j2 < prev.len() && prev[j2]@ == k;
                            assert(next[j2]@ == k);
                        }
                    }
                    if listed(next, k) && admitted(w, u, k) {
                        let j = choose|j: int| 0 <= j < next.len() && next[j]@ == k;
                        if j == i {
                            assert(out@[out.len() - 1]@ == k);
                        } else {
                            assert(prev[j]@ == k);
                            let j2 = choose|j2: int| 0 <= j2 < before.len() && before[j2]@ == k;
                            assert(out@[j2]@ == k);
                        }
                    }
                }
            }
            i = i + 1;
            assert(keys@.take(i as int) == next);
        }
        assert(keys@.take(keys.len() as int) =~= keys@);
        let r: Result<Vec<String>, PatternError> = Ok(out);
        assert(r->Ok_0 == out);
        r
    }

    /// Empties the store.
    pub fn close(&mut self)
        ensures
            final(self)@ == no_entries(),
    {
        self.db.clear();
    }
}

} // verus!
