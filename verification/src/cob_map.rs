//! Lookup from a configured COB-ID to the PDO slot it addresses, backed by
//! a `hashbrown` hash map. The table is filled while receive-PDO
//! communication parameters are applied and serves receive-side PDO
//! matching.

use vstd::prelude::*;

verus! {

/// What the lookup table holds, as a map from COB-ID to slot position.
pub uninterp spec fn cob_map_contents(m: CobIndexMap) -> Map<u32, usize>;

/// The contents of a table that maps nothing.
pub open spec fn empty_cob_map() -> Map<u32, usize> {
    Map::empty()
}

/// COB-ID to slot-position lookup table. The backing `hashbrown::HashMap`
/// is held opaquely: its type carries an allocator parameter that cannot be
/// declared here.
#[verifier::external_body]
pub struct CobIndexMap {
    table: hashbrown::HashMap<u32, usize>,
}

impl CobIndexMap {
    /// Relies on hashbrown::HashMap::new: the new table maps nothing.
    #[verifier::external_body]
    pub fn new() -> (r: CobIndexMap)
        ensures
            r.contents() == empty_cob_map(),
    {
        CobIndexMap { table: hashbrown::HashMap::new() }
    }

    /// The table's contents, by its name.
    pub open spec fn contents(self) -> Map<u32, usize> {
        cob_map_contents(self)
    }

    /// Relies on hashbrown::HashMap::insert: the key now maps to the given
    /// value and every other key is untouched.
    #[verifier::external_body]
    pub fn insert(&mut self, cob_id: u32, slot: usize)
        ensures
            cob_map_contents(*final(self)) == cob_map_contents(*old(self)).insert(cob_id, slot),
    {
        self.table.insert(cob_id, slot);
    }

    /// Relies on hashbrown::HashMap::get: returns the mapped value exactly
    /// when the key is present.
    #[verifier::external_body]
    pub fn get(&self, cob_id: u32) -> (r: Option<usize>)
        ensures
            match r {
                Some(slot) => cob_map_contents(*self).contains_key(cob_id) && cob_map_contents(
                    *self,
                )[cob_id] == slot,
                None => !cob_map_contents(*self).contains_key(cob_id),
            },
    {
        match self.table.get(&cob_id) {
            Some(s) => Some(*s),
            None => None,
        }
    }
}

} // verus!
