//! Hash tables keyed by huge-page address: the key-to-position index of the
//! heap and the resident-set caches of the migration worker.
//!
//! The tables are `hashbrown` tables hashed with [`FnvHasher`]. Their insides
//! are hidden from the verifier; what the methods below claim about them is
//! taken from the `hashbrown` documentation and is not proved here.

use crate::hash::FnvHasher;
use crate::helper::Exhausted;
use core::hash::BuildHasherDefault;
use vstd::prelude::*;

verus! {

/// A `hashbrown::HashMap` from key to position in the heap's data array.
#[verifier::external_body]
pub struct KeyIndex {
    map: hashbrown::HashMap<u64, usize, BuildHasherDefault<FnvHasher>>,
}

/// The key-to-position pairs that a [`KeyIndex`] holds.
pub uninterp spec fn index_contents(index: KeyIndex) -> Map<u64, usize>;

/// A `hashbrown::HashSet` of huge-page addresses.
#[verifier::external_body]
pub struct KeySet {
    set: hashbrown::HashSet<u64, BuildHasherDefault<FnvHasher>>,
}

/// The keys that a [`KeySet`] holds.
pub uninterp spec fn set_contents(keys: KeySet) -> Set<u64>;

impl KeyIndex {
    /// `hashbrown::HashMap::with_hasher`: creates a map that holds nothing.
    #[verifier::external_body]
    pub(crate) fn new() -> (index: KeyIndex)
        ensures
            index_contents(index) =~= map![],
    {
        KeyIndex { map: hashbrown::HashMap::with_hasher(BuildHasherDefault::<FnvHasher>::default()) }
    }

    /// `hashbrown::HashMap::try_reserve`: tries to make room for `additional`
    /// more pairs and says whether it could, instead of panicking; either way
    /// the pairs held stay as they were.
    #[verifier::external_body]
    pub(crate) fn reserve(&mut self, additional: usize) -> (reserved: bool)
        ensures
            index_contents(*final(self)) == index_contents(*old(self)),
    {
        self.map.try_reserve(additional).is_ok()
    }

    /// `hashbrown::HashMap::insert`: binds `key` to `pos`, replacing any
    /// earlier binding of `key`, and returns the position it replaced.
    #[verifier::external_body]
    pub(crate) fn insert(&mut self, key: u64, pos: usize) -> (replaced: Option<usize>)
        ensures
            index_contents(*final(self)) == index_contents(*old(self)).insert(key, pos),
            replaced == index_contents(*old(self)).get(key),
    {
        self.map.insert(key, pos)
    }

    /// `hashbrown::HashMap::remove`: drops the binding of `key`, if there is
    /// one, and returns the position it was bound to.
    #[verifier::external_body]
    pub(crate) fn remove(&mut self, key: &u64) -> (removed: Option<usize>)
        ensures
            index_contents(*final(self)) == index_contents(*old(self)).remove(*key),
            removed == index_contents(*old(self)).get(*key),
    {
        self.map.remove(key)
    }

    /// `hashbrown::HashMap::get`: the position bound to `key`, if any.
    #[verifier::external_body]
    pub(crate) fn get(&self, key: &u64) -> (found: Option<&usize>)
        ensures
            found.is_some() == index_contents(*self).contains_key(*key),
            found.is_some() ==> *found.unwrap() == index_contents(*self)[*key],
    {
        self.map.get(key)
    }
}

impl KeyIndex {
    /// A map that holds nothing, with room set aside for `room` pairs; or
    /// the reason why that room could not be had. No room is always had.
    pub fn with_room(room: usize) -> (made: Result<KeyIndex, Exhausted>)
        ensures
            room == 0 ==> made.is_ok(),
            made.is_ok() ==> index_contents(made.unwrap()) =~= map![],
    {
        let mut index = KeyIndex::new();
        if room == 0 {
            return Ok(index);
        }
        let reserved = index.reserve(room);
        Self::reserved(index, reserved)
    }

    /// What becomes of the map `index` once room has been asked for in it:
    /// the map itself where the room was had, the failure where not.
    pub fn reserved(index: KeyIndex, reserved: bool) -> (made: Result<KeyIndex, Exhausted>)
        ensures
            made == (if reserved {
                Ok::<KeyIndex, Exhausted>(index)
            } else {
                Err::<KeyIndex, Exhausted>(Exhausted::Table)
            }),
    {
        if reserved {
            Ok(index)
        } else {
            Err(Exhausted::Table)
        }
    }
}

impl KeySet {
    /// A set that holds nothing, with room set aside for `room` keys; or the
    /// reason why that room could not be had. No room is always had.
    pub fn with_room(room: usize) -> (made: Result<KeySet, Exhausted>)
        ensures
            room == 0 ==> made.is_ok(),
            made.is_ok() ==> set_contents(made.unwrap()) =~= set![],
    {
        let mut keys = KeySet::new();
        if room == 0 {
            return Ok(keys);
        }
        let reserved = keys.reserve(room);
        Self::reserved(keys, reserved)
    }

    /// What becomes of the set `keys` once room has been asked for in it:
    /// the set itself where the room was had, the failure where not.
    pub fn reserved(keys: KeySet, reserved: bool) -> (made: Result<KeySet, Exhausted>)
        ensures
            made == (if reserved {
                Ok::<KeySet, Exhausted>(keys)
            } else {
                Err::<KeySet, Exhausted>(Exhausted::Table)
            }),
    {
        if reserved {
            Ok(keys)
        } else {
            Err(Exhausted::Table)
        }
    }
}

impl KeySet {
    /// `hashbrown::HashSet::with_hasher`: creates a set that holds nothing.
    #[verifier::external_body]
    pub(crate) fn new() -> (keys: KeySet)
        ensures
            set_contents(keys) =~= set![],
    {
        KeySet { set: hashbrown::HashSet::with_hasher(BuildHasherDefault::<FnvHasher>::default()) }
    }

    /// `hashbrown::HashSet::try_reserve`: tries to make room for `additional`
    /// more keys and says whether it could, instead of panicking; either way
    /// the keys held stay as they were.
    #[verifier::external_body]
    pub(crate) fn reserve(&mut self, additional: usize) -> (reserved: bool)
        ensures
            set_contents(*final(self)) == set_contents(*old(self)),
    {
        self.set.try_reserve(additional).is_ok()
    }

    /// `hashbrown::HashSet::insert`: adds `key` and returns whether it was
    /// absent before.
    #[verifier::external_body]
    pub(crate) fn insert(&mut self, key: u64) -> (fresh: bool)
        ensures
            set_contents(*final(self)) == set_contents(*old(self)).insert(key),
            fresh == !set_contents(*old(self)).contains(key),
    {
        self.set.insert(key)
    }

    /// `hashbrown::HashSet::get`: the stored key equal to `key`, if any.
    #[verifier::external_body]
    pub(crate) fn get(&self, key: &u64) -> (found: Option<&u64>)
        ensures
            found.is_some() == set_contents(*self).contains(*key),
            found.is_some() ==> *found.unwrap() == *key,
    {
        self.set.get(key)
    }
}

} // verus!
