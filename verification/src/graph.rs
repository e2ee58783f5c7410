//! The reference graph: an immutable mapping from variable identity to the
//! expression last assigned to it, viewed as a mathematical `Map`.

use crate::value::{view_value, JsValue, SpecValue, VarId};
use std::collections::HashMap;
use vstd::prelude::*;

verus! {

broadcast use vstd::std_specs::hash::group_hash_axioms;

pub struct VarGraph {
    values: HashMap<VarId, JsValue>,
}

impl View for VarGraph {
    type V = Map<VarId, SpecValue>;

    closed spec fn view(&self) -> Map<VarId, SpecValue> {
        self.values@.map_values(|v: JsValue| view_value(v))
    }
}

impl VarGraph {
    pub fn new() -> (r: VarGraph)
        ensures
            r@ == Map::<VarId, SpecValue>::empty(),
    {
        let r = VarGraph { values: HashMap::new() };
        proof {
            assert(r@ =~= Map::<VarId, SpecValue>::empty());
        }
        r
    }

    /// Bind a variable to the expression last assigned to it.
    pub fn insert(&mut self, id: VarId, value: JsValue)
        ensures
            final(self)@ == old(self)@.insert(id, value@),
    {
        self.values.insert(id, value);
        proof {
            assert(self@ =~= old(self)@.insert(id, view_value(value)));
        }
    }

    /// Look the bound expression of a variable up.
    pub fn get(&self, id: VarId) -> (r: Option<JsValue>)
        ensures
            match r {
                Some(v) => self@.contains_key(id) && v@ == self@[id],
                None => !self@.contains_key(id),
            },
    {
        match self.values.get(&id) {
            Some(v) => Some(v.duplicate()),
            None => None,
        }
    }

    /// The view of a graph backed by a hash table is a finite map.
    pub proof fn lemma_dom_finite(&self)
        ensures
            self@.dom().finite(),
    {
        assert(self@.dom() =~= self.values@.dom());
    }
}

} // verus!
