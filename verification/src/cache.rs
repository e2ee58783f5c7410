//! The resolution cache: a memo of fully resolved variable values, shared
//! across top-level resolution calls and viewed as a mathematical `Map`.

use crate::value::{view_value, JsValue, SpecValue, VarId};
use std::collections::HashMap;
use vstd::prelude::*;

verus! {

broadcast use vstd::std_specs::hash::group_hash_axioms;

pub struct LinkCache {
    inner: HashMap<VarId, JsValue>,
}

impl View for LinkCache {
    type V = Map<VarId, SpecValue>;

    closed spec fn view(&self) -> Map<VarId, SpecValue> {
        self.inner@.map_values(|v: JsValue| view_value(v))
    }
}

impl LinkCache {
    pub fn new() -> (r: LinkCache)
        ensures
            r@ == Map::<VarId, SpecValue>::empty(),
    {
        let r = LinkCache { inner: HashMap::new() };
        proof {
            assert(r@ =~= Map::<VarId, SpecValue>::empty());
        }
        r
    }

    /// Memoize the resolved value of a variable.
    pub fn store(&mut self, id: VarId, value: JsValue)
        ensures
            final(self)@ == old(self)@.insert(id, value@),
    {
        self.inner.insert(id, value);
        proof {
            assert(self@ =~= old(self)@.insert(id, view_value(value)));
        }
    }

    /// The already-resolved value of a variable, if one was memoized.
    pub fn get(&self, id: VarId) -> (r: Option<JsValue>)
        ensures
            match r {
                Some(v) => self@.contains_key(id) && v@ == self@[id],
                None => !self@.contains_key(id),
            },
    {
        match self.inner.get(&id) {
            Some(v) => Some(v.duplicate()),
            None => None,
        }
    }
}

} // verus!
