//! A small exec set of variable identities, used for the per-path cycle
//! tracker and for the replaced-reference sets, viewed as a mathematical
//! `Set<VarId>`.

use crate::value::VarId;
use vstd::prelude::*;

verus! {

pub struct IdSet {
    ids: Vec<VarId>,
}

impl View for IdSet {
    type V = Set<VarId>;

    closed spec fn view(&self) -> Set<VarId> {
        self.ids@.to_set()
    }
}

impl IdSet {
    /// Well-formedness: no identity is stored twice.
    pub closed spec fn inv(&self) -> bool {
        self.ids@.no_duplicates()
    }

    pub fn new() -> (r: IdSet)
        ensures
            r@ == Set::<VarId>::empty(),
            r.inv(),
    {
        let r = IdSet { ids: Vec::new() };
        proof {
            assert(r.ids@.to_set() =~= Set::<VarId>::empty());
        }
        r
    }

    pub fn contains(&self, id: VarId) -> (r: bool)
        ensures
            r == self@.contains(id),
    {
        let mut i: usize = 0;
        while i < self.ids.len()
            invariant
                i <= self.ids.len(),
                forall|j: int| 0 <= j < i ==> self.ids@[j] != id,
            decreases self.ids.len() - i,
        {
            if self.ids[i] == id {
                assert(self.ids@.contains(id));
                return true;
            }
            i += 1;
        }
        assert(!self.ids@.contains(id));
        false
    }

    pub fn insert(&mut self, id: VarId)
        requires
            old(self).inv(),
        ensures
            final(self).inv(),
            final(self)@ == old(self)@.insert(id),
    {
        let present = self.contains(id);
        if !present {
            let ghost pre = self.ids@;
            self.ids.push(id);
            proof {
                assert forall|k: int, l: int|
                    0 <= k < self.ids@.len() && 0 <= l < self.ids@.len() && k != l implies self.ids@[k]
                    != self.ids@[l] by {
                    assert(!pre.contains(id));
                }
                assert forall|x: VarId| self.ids@.contains(x) implies pre.contains(x) || x == id by {
                    let k = choose|k: int| 0 <= k < self.ids@.len() && self.ids@[k] == x;
                    if k < pre.len() {
                        assert(pre[k] == x);
                    }
                }
                assert forall|x: VarId| pre.contains(x) implies self.ids@.contains(x) by {
                    let k = choose|k: int| 0 <= k < pre.len() && pre[k] == x;
                    assert(self.ids@[k] == x);
                }
                assert(self.ids@[pre.len() as int] == id);
                assert(self.ids@.contains(id));
                assert(self.ids@.to_set() =~= pre.to_set().insert(id));
            }
        } else {
            proof {
                assert(self.ids@.to_set() =~= old(self).ids@.to_set().insert(id));
            }
        }
    }

    pub fn remove(&mut self, id: VarId)
        requires
            old(self).inv(),
        ensures
            final(self).inv(),
            final(self)@ == old(self)@.remove(id),
    {
        let ghost pre = self.ids@;
        let mut i: usize = 0;
        while i < self.ids.len()
            invariant
                i <= self.ids.len(),
                self.ids@ == pre,
                pre == old(self).ids@,
                pre.no_duplicates(),
                forall|j: int| 0 <= j < i ==> self.ids@[j] != id,
            decreases self.ids.len() - i,
        {
            if self.ids[i] == id {
                self.ids.remove(i);
                proof {
                    let post = self.ids@;
                    pre.remove_ensures(i as int);
                    assert(post == pre.remove(i as int));
                    assert forall|k: int, l: int|
                        0 <= k < post.len() && 0 <= l < post.len() && k != l implies post[k]
                        != post[l] by {
                        let pk: int = if k < i { k } else { k + 1 };
                        let pl: int = if l < i { l } else { l + 1 };
                        assert(pre.remove(i as int)[k] == pre[pk]);
                        assert(pre.remove(i as int)[l] == pre[pl]);
                        assert(post[k] == pre[pk]);
                        assert(post[l] == pre[pl]);
                    }
                    assert forall|x: VarId| post.contains(x) implies pre.contains(x) && x != id by {
                        let k = choose|k: int| 0 <= k < post.len() && post[k] == x;
                        let pk: int = if k < i { k } else { k + 1 };
                        assert(pre.remove(i as int)[k] == pre[pk]);
                        assert(pre[pk] == x);
                        if x == id {
                            assert(pre[pk] == pre[i as int]);
                            assert(pk != i);
                        }
                    }
                    assert forall|x: VarId| pre.contains(x) && x != id implies post.contains(x) by {
                        let k = choose|k: int| 0 <= k < pre.len() && pre[k] == x;
                        if k < i {
                            assert(pre.remove(i as int)[k] == pre[k]);
                            assert(post[k] == x);
                        } else {
                            assert(k != i);
                            assert(pre.remove(i as int)[k - 1] == pre[k]);
                            assert(post[k - 1] == x);
                        }
                    }
                    assert(post.to_set() =~= pre.to_set().remove(id));
                }
                return ;
            }
            i += 1;
        }
        proof {
            assert(!pre.contains(id));
            assert(self.ids@.to_set() =~= pre.to_set().remove(id));
        }
    }

    pub fn is_empty(&self) -> (r: bool)
        ensures
            r == (self@ =~= Set::<VarId>::empty()),
    {
        if self.ids.len() == 0 {
            assert(self.ids@.to_set() =~= Set::<VarId>::empty());
            true
        } else {
            assert(self.ids@.contains(self.ids@[0]));
            assert(self.ids@.to_set().contains(self.ids@[0]));
            false
        }
    }

    /// Add every identity of `other` to this set.
    pub fn absorb(&mut self, other: &IdSet)
        requires
            old(self).inv(),
        ensures
            final(self).inv(),
            final(self)@ == old(self)@.union(other@),
    {
        let mut i: usize = 0;
        while i < other.ids.len()
            invariant
                i <= other.ids.len(),
                self.inv(),
                self@ == old(self)@.union(other.ids@.take(i as int).to_set()),
            decreases other.ids.len() - i,
        {
            let ghost pre = self@;
            self.insert(other.ids[i]);
            proof {
                let t1 = other.ids@.take(i + 1);
                let t0 = other.ids@.take(i as int);
                assert forall|x: VarId| t1.contains(x) implies t0.contains(x) || x == other.ids@[
                    i as int
                ] by {
                    let k = choose|k: int| 0 <= k < t1.len() && t1[k] == x;
                    if k < i {
                        assert(t0[k] == x);
                    }
                }
                assert forall|x: VarId| t0.contains(x) implies t1.contains(x) by {
                    let k = choose|k: int| 0 <= k < t0.len() && t0[k] == x;
                    assert(t1[k] == x);
                }
                assert(t1[i as int] == other.ids@[i as int]);
                assert(t1.contains(other.ids@[i as int]));
                assert(self@ =~= old(self)@.union(t1.to_set()));
            }
            i += 1;
        }
        proof {
            assert(other.ids@.take(other.ids@.len() as int) =~= other.ids@);
        }
    }
}

} // verus!
