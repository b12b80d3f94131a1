//! Counts per name, held in a `hashbrown::HashMap<String, u32>`: boss pull
//! counts, enemies seen, and the values of an encounter's counters.

use vstd::prelude::*;

verus! {

/// A count per name, held in a
/// `hashbrown::HashMap<String, u32>`.
#[verifier::external_body]
pub struct NameCounts {
    counts: hashbrown::HashMap<String, u32>,
}

/// The count recorded for each name.
pub uninterp spec fn name_count_entries(counts: NameCounts) -> Map<Seq<char>, u32>;

/// The table with no name recorded.
pub open spec fn no_names() -> Map<Seq<char>, u32> {
    Map::empty()
}

impl NameCounts {
    /// An empty table.
    ///
    /// Trusted: `hashbrown::HashMap::new` creates a map with no entries.
    #[verifier::external_body]
    pub(crate) fn new() -> (r: NameCounts)
        ensures
            name_count_entries(r) == no_names(),
    {
        NameCounts { counts: hashbrown::HashMap::new() }
    }

    /// The count recorded for `name`.
    ///
    /// Trusted: `hashbrown::HashMap::get` returns the value stored under a key
    /// equal to `name` (strings compare by their characters), `None` if there
    /// is none.
    #[verifier::external_body]
    pub(crate) fn get(&self, name: &str) -> (r: Option<u32>)
        ensures
            r == (if name_count_entries(*self).contains_key(name@) {
                Some(name_count_entries(*self)[name@])
            } else {
                None
            }),
    {
        self.counts.get(name).copied()
    }

    /// Records `value` for `name`, replacing any earlier count.
    ///
    /// Trusted: `hashbrown::HashMap::insert` stores the value under the key,
    /// replacing the value of an equal key and leaving the other keys as they
    /// were.
    #[verifier::external_body]
    pub(crate) fn insert(&mut self, name: String, value: u32)
        ensures
            name_count_entries(*final(self)) == name_count_entries(*old(self)).insert(name@, value),
    {
        self.counts.insert(name, value);
    }

    /// Forgets every count.
    ///
    /// Trusted: `hashbrown::HashMap::clear` removes all entries.
    #[verifier::external_body]
    pub(crate) fn clear(&mut self)
        ensures
            name_count_entries(*final(self)) == no_names(),
    {
        self.counts.clear();
    }

    /// Every name with its count, once each, in no particular order.
    ///
    /// Trusted: `hashbrown::HashMap::into_iter` yields each entry of the map
    /// exactly once (the keys of a map are distinct strings).
    #[verifier::external_body]
    pub(crate) fn into_entries(self) -> (r: Vec<(String, u32)>)
        ensures
            forall|i: int|
                0 <= i < r@.len() ==> name_count_entries(self).contains_key(#[trigger] r@[i].0@)
                    && name_count_entries(self)[r@[i].0@] == r@[i].1,
            forall|i: int, j: int| 0 <= i < j < r@.len() ==> (#[trigger] r@[i]).0@ != (#[trigger] r@[j]).0@,
            forall|k: Seq<char>| #[trigger]
                name_count_entries(self).contains_key(k) ==> exists|i: int| 0 <= i < r@.len() && r@[i].0@ == k,
    {
        self.counts.into_iter().collect()
    }
}

} // verus!
