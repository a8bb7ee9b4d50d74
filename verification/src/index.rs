//! The position index: a hash map from key to the key's current heap slot.
//!
//! The map itself comes from the `hashbrown` crate; Verus sees it only
//! through the contracts below, stated over [`index_map_of`], the
//! mathematical map that the structure currently stores.

use vstd::prelude::*;

verus! {

/// The mapping that a [`KeyIndex`] currently stores, from key (as a
/// character sequence) to heap slot.
pub uninterp spec fn index_map_of(m: KeyIndex) -> Map<Seq<char>, usize>;

/// A map from key to heap slot, backed by `hashbrown::HashMap`.
///
/// String keys hash and compare by their characters, so two `String`s with
/// equal contents are the same key; [`index_map_of`] is accordingly keyed
/// by `Seq<char>`.
#[verifier::external_body]
pub struct KeyIndex {
    map: hashbrown::HashMap<String, usize>,
}

impl KeyIndex {
    /// Relies on `hashbrown::HashMap::new`: creates an empty map.
    #[verifier::external_body]
    pub fn new() -> (fresh: KeyIndex)
        ensures
            forall|k: Seq<char>| !index_map_of(fresh).contains_key(k),
    {
        KeyIndex { map: hashbrown::HashMap::new() }
    }

    /// Relies on `hashbrown::HashMap::get`: returns the value stored under
    /// the key, or `None` when the key is absent.
    #[verifier::external_body]
    pub fn lookup(&self, key: &String) -> (r: Option<usize>)
        ensures
            index_map_of(*self).contains_key(key@) ==> r == Some(index_map_of(*self)[key@]),
            !index_map_of(*self).contains_key(key@) ==> r is None,
    {
        self.map.get(key).copied()
    }

    /// Relies on `hashbrown::HashMap::insert`: maps the key to the value,
    /// replacing any previous entry for that key.
    #[verifier::external_body]
    pub fn set(&mut self, key: String, slot: usize)
        ensures
            index_map_of(*final(self)) == index_map_of(*old(self)).insert(key@, slot),
    {
        self.map.insert(key, slot);
    }

    /// Relies on `hashbrown::HashMap::remove`: deletes the entry stored
    /// under the key, if one is present.
    #[verifier::external_body]
    pub fn remove(&mut self, key: &String)
        ensures
            index_map_of(*final(self)) == index_map_of(*old(self)).remove(key@),
    {
        self.map.remove(key);
    }
}

} // verus!
