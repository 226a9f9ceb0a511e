//! A set of keys, held in a hashbrown `HashSet`.

use vstd::prelude::*;

verus! {

/// A set of keys, kept private behind the methods below;
/// `key_set_contents` names what it holds.
#[verifier::external_body]
pub struct KeySet {
    inner: hashbrown::HashSet<String>,
}

/// The keys that a `KeySet` holds.
pub uninterp spec fn key_set_contents(s: KeySet) -> Set<Seq<char>>;

impl KeySet {
    pub open spec fn view(&self) -> Set<Seq<char>> {
        key_set_contents(*self)
    }

    /// Relies on hashbrown::HashSet::new: an empty set.
    #[verifier::external_body]
    pub(crate) fn new() -> (r: KeySet)
        ensures
            key_set_contents(r) == Set::<Seq<char>>::empty(),
    {
        KeySet { inner: hashbrown::HashSet::new() }
    }

    /// Relies on hashbrown::HashSet::insert: afterwards the set holds `k`.
    #[verifier::external_body]
    pub(crate) fn insert(&mut self, k: String)
        ensures
            key_set_contents(*final(self)) == key_set_contents(*old(self)).insert(k@),
    {
        self.inner.insert(k);
    }

    /// Relies on hashbrown::HashSet::contains.
    #[verifier::external_body]
    pub(crate) fn contains(&self, k: &String) -> (r: bool)
        ensures
            r == key_set_contents(*self).contains(k@),
    {
        self.inner.contains(k)
    }

    /// Relies on hashbrown::HashSet::into_iter: each key once, in no set order.
    #[verifier::external_body]
    pub(crate) fn into_vec(self) -> (r: Vec<String>)
        ensures
            forall|i: int, j: int| 0 <= i < j < r.len() ==> r[i]@ != r[j]@,
            forall|k: Seq<char>| key_set_contents(self).contains(k) <==> exists|i: int| 0 <= i < r.len() && r[i]@ == k,
    {
        self.inner.into_iter().collect()
    }
}

} // verus!
