//! The correlation table: the mapping from the id of an in-flight request
//! to its method name, inserted when the request is observed and removed
//! when its response arrives. The pipeline worker owns the table alone, so
//! no lock guards it. An entry whose response never arrives stays: the base
//! design accepts that bounded leak.

use vstd::prelude::*;
use std::collections::HashMap;

verus! {

broadcast use vstd::std_specs::hash::group_hash_axioms;

pub struct CorrelationTable {
    map: HashMap<u16, Vec<u8>>,
}

impl CorrelationTable {
    /// The mathematical model: correlation id to method name.
    pub closed spec fn view(&self) -> Map<u16, Seq<u8>> {
        self.map@.map_values(|v: Vec<u8>| v@)
    }

    /// An empty table.
    pub fn new() -> (r: Self)
        ensures
            r@ == Map::<u16, Seq<u8>>::empty(),
    {
        let r = CorrelationTable { map: HashMap::new() };
        proof {
            assert(r@ =~= Map::<u16, Seq<u8>>::empty());
        }
        r
    }

    /// Records the method name of an in-flight request.
    pub fn insert(&mut self, id: u16, method: Vec<u8>)
        ensures
            final(self)@ == old(self)@.insert(id, method@),
    {
        let ghost m0 = self.map@;
        self.map.insert(id, method);
        proof {
            assert(self@ =~= m0.map_values(|v: Vec<u8>| v@).insert(id, method@));
        }
    }

    /// Resolves and consumes the entry of a response id.
    pub fn remove(&mut self, id: u16) -> (r: Option<Vec<u8>>)
        ensures
            match r {
                Some(method) => {
                    &&& old(self)@.contains_key(id)
                    &&& method@ == old(self)@[id]
                    &&& final(self)@ == old(self)@.remove(id)
                },
                None => {
                    &&& !old(self)@.contains_key(id)
                    &&& final(self)@ == old(self)@
                },
            },
    {
        let ghost m0 = self.map@;
        let r = self.map.remove(&id);
        proof {
            match r {
                Some(_) => {
                    assert(self@ =~= m0.map_values(|v: Vec<u8>| v@).remove(id));
                },
                None => {
                    assert(self@ =~= m0.map_values(|v: Vec<u8>| v@));
                },
            }
        }
        r
    }

    /// Whether an id is in flight.
    pub fn contains(&self, id: u16) -> (r: bool)
        ensures
            r == self@.contains_key(id),
    {
        self.map.contains_key(&id)
    }
}

} // verus!
