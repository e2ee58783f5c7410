//! The resolver core: recursive resolution of variable references with
//! cycle detection, a memoization cache whose admission is gated on cycle
//! closure, and the visitor fixpoint loop.
//!
//! The whole algorithm is stated as recursive spec functions
//! (`spec_resolve`, `spec_resolve_children`, `spec_fix`); the exec functions
//! are proved to return exactly what those functions describe.

use crate::cache::LinkCache;
use crate::graph::VarGraph;
use crate::idset::IdSet;
use crate::value::{
    deep_norm, height, height_seq, lemma_height_seq_ge, lemma_view_seq, lemma_view_seq_push,
    shallow_norm, view_seq, view_value, JsValue, Reason, SpecValue, VarId,
};
use crate::visitor::{VisitError, Visitor};
use vstd::prelude::*;

verus! {

broadcast use vstd::set::group_set_axioms;

/// The unknown value standing for a circular reference to `id`.
pub open spec fn circular_unknown(id: VarId) -> SpecValue {
    SpecValue::Unknown(Some(Box::new(SpecValue::Variable(id))), Reason::CircularReference)
}

/// The unknown value substituted for a variable that has no binding.
pub open spec fn missing_unknown(id: VarId) -> SpecValue {
    SpecValue::Unknown(Some(Box::new(SpecValue::Variable(id))), Reason::MissingBinding)
}

/// Number of graph bindings not currently on the resolution path. Resolving
/// a variable moves one binding onto the path, so this bounds how often the
/// recursion may leave the value's own structure.
pub open spec fn free_ids(g: Map<VarId, SpecValue>, stack: Set<VarId>) -> nat {
    g.dom().difference(stack).len()
}

pub open spec fn var_flag(v: SpecValue) -> nat {
    match v {
        SpecValue::Variable(_) => 1,
        _ => 0,
    }
}

pub proof fn lemma_free_ids_insert(g: Map<VarId, SpecValue>, stack: Set<VarId>, id: VarId)
    requires
        g.dom().finite(),
        !stack.contains(id),
    ensures
        g.dom().contains(id) ==> free_ids(g, stack.insert(id)) < free_ids(g, stack),
        !g.dom().contains(id) ==> free_ids(g, stack.insert(id)) == free_ids(g, stack),
{
    let d0 = g.dom().difference(stack);
    let d1 = g.dom().difference(stack.insert(id));
    if g.dom().contains(id) {
        assert(d1 =~= d0.remove(id));
        assert(d0.contains(id));
    } else {
        assert(d1 =~= d0);
    }
}

/// The visitor applied repeatedly, the value re-canonicalized after every
/// reported change, until a visit reports no change. `None`: some visit
/// failed. The boolean reports whether any visit changed the value.
pub open spec fn spec_fix<V: Visitor>(vis: V, v: SpecValue) -> Option<(SpecValue, bool)>
    decreases vis.measure(v),
{
    if !vis.spec_ok(v) {
        None
    } else {
        let stepped = vis.spec_visit(v);
        if stepped.1 {
            proof {
                vis.lemma_measure_decreases(v);
            }
            match spec_fix(vis, shallow_norm(stepped.0)) {
                None => None,
                Some(p) => Some((p.0, true)),
            }
        } else {
            Some((stepped.0, false))
        }
    }
}

/// Resolution of one value: cycle detection and cache admission for a
/// variable node, child resolution and the visitor fixpoint for the rest.
/// Yields the resolved value, the replaced-reference set (`None` = subtree
/// untouched), and the cache after the step; `None` overall = the visitor
/// failed somewhere.
pub open spec fn spec_resolve<V: Visitor>(
    g: Map<VarId, SpecValue>,
    vis: V,
    cache: Map<VarId, SpecValue>,
    stack: Set<VarId>,
    val: SpecValue,
) -> Option<(SpecValue, Option<Set<VarId>>, Map<VarId, SpecValue>)>
    decreases free_ids(g, stack), 2 * height(val), var_flag(val),
        when g.dom().finite()
{
    match val {
        SpecValue::Variable(id) => {
            if stack.contains(id) {
                Some((circular_unknown(id), Some(set![id]), cache))
            } else if cache.contains_key(id) {
                Some((cache[id], Some(Set::<VarId>::empty()), cache))
            } else {
                let bound = if g.contains_key(id) {
                    g[id]
                } else {
                    missing_unknown(id)
                };
                proof {
                    lemma_free_ids_insert(g, stack, id);
                }
                match spec_resolve(g, vis, cache, stack.insert(id), bound) {
                    None => None,
                    Some((v2, rep, cache2)) => match rep {
                        Some(r) => {
                            let r2 = r.remove(id);
                            if r2.is_empty() {
                                Some((v2, Some(r2), cache2.insert(id, v2)))
                            } else {
                                Some((v2, Some(r2), cache2))
                            }
                        },
                        None => Some((v2, Some(Set::<VarId>::empty()), cache2.insert(id, v2))),
                    },
                }
            }
        },
        SpecValue::Composite(cs) => {
            match spec_resolve_children(g, vis, cache, stack, cs) {
                None => None,
                Some((rs, any_mod, rep, cache2)) => {
                    let v1 = if any_mod {
                        shallow_norm(SpecValue::Composite(rs))
                    } else {
                        SpecValue::Composite(rs)
                    };
                    match spec_fix(vis, v1) {
                        None => None,
                        Some((v3, vis_mod)) => if any_mod || vis_mod {
                            Some((v3, Some(rep), cache2))
                        } else {
                            Some((v3, None, cache2))
                        },
                    }
                },
            }
        },
        _ => {
            match spec_fix(vis, val) {
                None => None,
                Some((v3, vis_mod)) => if vis_mod {
                    Some((v3, Some(Set::<VarId>::empty()), cache))
                } else {
                    Some((v3, None, cache))
                },
            }
        },
    }
}

/// Resolution of a composite node's children, front to back: the resolved
/// children (each shallow-canonicalized when its subtree reported a
/// replaced-reference set), whether any child reported one, the merged
/// replaced-reference sets, and the cache after all children.
pub open spec fn spec_resolve_children<V: Visitor>(
    g: Map<VarId, SpecValue>,
    vis: V,
    cache: Map<VarId, SpecValue>,
    stack: Set<VarId>,
    s: Seq<SpecValue>,
) -> Option<(Seq<SpecValue>, bool, Set<VarId>, Map<VarId, SpecValue>)>
    decreases free_ids(g, stack), 2 * height_seq(s) + 1, s.len(),
        when g.dom().finite()
{
    if s.len() == 0 {
        Some((Seq::empty(), false, Set::empty(), cache))
    } else {
        proof {
            lemma_height_seq_ge(s, 0);
        }
        match spec_resolve(g, vis, cache, stack, s[0]) {
            None => None,
            Some((cv, crep, cache2)) => {
                let merged = match crep {
                    Some(cset) => (shallow_norm(cv), true, cset),
                    None => (cv, false, Set::<VarId>::empty()),
                };
                match spec_resolve_children(g, vis, cache2, stack, s.drop_first()) {
                    None => None,
                    Some((rest, any_mod, rep, cache3)) => Some(
                        (seq![merged.0] + rest, merged.1 || any_mod, merged.2 + rep, cache3),
                    ),
                }
            },
        }
    }
}

/// The view of an optional replaced-reference set.
pub open spec fn opt_view(o: Option<IdSet>) -> Option<Set<VarId>> {
    match o {
        Some(s) => Some(s@),
        None => None,
    }
}

/// The visitor fixpoint loop: visit, and after every reported
/// change shallow-canonicalize and visit again.
fn fix_value<V: Visitor>(visitor: &V, v: JsValue) -> (r: Result<(JsValue, bool), VisitError>)
    ensures
        match r {
            Ok(p) => spec_fix(*visitor, v@) == Some((p.0@, p.1)),
            Err(_) => spec_fix(*visitor, v@) is None,
        },
{
    let ghost orig = v@;
    let mut cur = v;
    let mut changed_any = false;
    loop
        invariant
            orig == v@,
            match (spec_fix(*visitor, orig), spec_fix(*visitor, cur@)) {
                (Option::None, Option::None) => true,
                (Option::Some(t), Option::Some(c)) => t.0 == c.0 && t.1 == (changed_any || c.1),
                _ => false,
            },
        decreases visitor.measure(cur@),
    {
        let ghost cv = cur@;
        let step = visitor.visit(cur);
        match step {
            Err(e) => {
                proof {
                    assert(spec_fix(*visitor, cv) is None);
                }
                return Err(e);
            },
            Ok((nv, ch)) => {
                if ch {
                    proof {
                        visitor.lemma_measure_decreases(cv);
                    }
                    cur = nv.normalize_shallow();
                    changed_any = true;
                    proof {
                        assert(spec_fix(*visitor, cv) == (match spec_fix(
                            *visitor,
                            shallow_norm(nv@),
                        ) {
                            Option::None => Option::<(SpecValue, bool)>::None,
                            Option::Some(p) => Option::Some((p.0, true)),
                        }));
                    }
                } else {
                    proof {
                        assert(spec_fix(*visitor, cv) == Option::Some((nv@, false)));
                    }
                    return Ok((nv, changed_any));
                }
            },
        }
    }
}

/// Combine an already-processed child prefix with the outcome of resolving
/// the remaining children of the same composite node.
pub open spec fn combine_children(
    prefix: Seq<SpecValue>,
    any_mod: bool,
    rep: Set<VarId>,
    rest: Option<(Seq<SpecValue>, bool, Set<VarId>, Map<VarId, SpecValue>)>,
) -> Option<(Seq<SpecValue>, bool, Set<VarId>, Map<VarId, SpecValue>)> {
    match rest {
        None => None,
        Some((cs, m2, rep2, c2)) => Some((prefix + cs, any_mod || m2, rep + rep2, c2)),
    }
}

proof fn lemma_submap_trans(
    a: Map<VarId, SpecValue>,
    b: Map<VarId, SpecValue>,
    c: Map<VarId, SpecValue>,
)
    requires
        a.submap_of(b),
        b.submap_of(c),
    ensures
        a.submap_of(c),
{
    assert forall|k: VarId| #[trigger] a.dom().contains(k) implies c.dom().contains(k) && a[k]
        == c[k] by {
        assert(b.dom().contains(k));
    }
}

proof fn lemma_combine_assoc(
    prefix: Seq<SpecValue>,
    m0: bool,
    r0: Set<VarId>,
    x: SpecValue,
    m1: bool,
    r1: Set<VarId>,
    rest: Option<(Seq<SpecValue>, bool, Set<VarId>, Map<VarId, SpecValue>)>,
)
    ensures
        combine_children(prefix, m0, r0, combine_children(seq![x], m1, r1, rest))
            == combine_children(prefix + seq![x], m0 || m1, r0 + r1, rest),
{
    match rest {
        None => {},
        Some((cs, m2, rp, c2)) => {
            assert(prefix + (seq![x] + cs) =~= (prefix + seq![x]) + cs);
            assert(r0 + (r1 + rp) =~= (r0 + r1) + rp);
        },
    }
}

/// Resolve one value: cycle detection and cache admission for variable
/// nodes, child fan-out and the visitor fixpoint for everything else.
/// Returns the resolved value and the replaced-reference set (`None` =
/// subtree untouched); the result, the replaced set and the new cache are
/// exactly what `spec_resolve` describes. The cycle tracker comes back as it
/// went in, the cache only grows, and no entry of a variable still being
/// resolved (on the tracker) is ever touched.
pub fn resolve_internal<V: Visitor>(
    graph: &VarGraph,
    val: &JsValue,
    visitor: &V,
    cache: &mut LinkCache,
    stack: &mut IdSet,
) -> (r: Result<(JsValue, Option<IdSet>), VisitError>)
    requires
        old(stack).inv(),
    ensures
        final(stack).inv(),
        final(stack)@ == old(stack)@,
        old(cache)@.submap_of(final(cache)@),
        forall|x: VarId|
            old(stack)@.contains(x) ==> final(cache)@.contains_key(x) == old(
                cache,
            )@.contains_key(x),
        match r {
            Ok(p) => {
                &&& spec_resolve(graph@, *visitor, old(cache)@, old(stack)@, val@) == Some(
                    (p.0@, opt_view(p.1), final(cache)@),
                )
                &&& match p.1 {
                    Some(s) => s.inv() && s@.subset_of(old(stack)@),
                    None => true,
                }
            },
            Err(_) => spec_resolve(graph@, *visitor, old(cache)@, old(stack)@, val@) is None,
        },
    decreases free_ids(graph@, old(stack)@), 2 * height(val@), var_flag(val@),
{
    proof {
        graph.lemma_dom_finite();
    }
    match val {
        JsValue::Variable(idr) => {
            let id = *idr;
            if stack.contains(id) {
                let mut rep = IdSet::new();
                rep.insert(id);
                let unk = JsValue::Unknown(
                    Some(Box::new(JsValue::Variable(id))),
                    Reason::CircularReference,
                );
                proof {
                    assert(unk@ == circular_unknown(id));
                    assert(rep@ =~= set![id]);
                }
                Ok((unk, Some(rep)))
            } else {
                match cache.get(id) {
                    Some(v) => {
                        let rep = IdSet::new();
                        Ok((v, Some(rep)))
                    },
                    None => {
                        stack.insert(id);
                        let bound = match graph.get(id) {
                            Some(v) => v,
                            None => JsValue::Unknown(
                                Some(Box::new(JsValue::Variable(id))),
                                Reason::MissingBinding,
                            ),
                        };
                        let ghost sbound = if graph@.contains_key(id) {
                            graph@[id]
                        } else {
                            missing_unknown(id)
                        };
                        proof {
                            assert(bound@ == sbound);
                            lemma_free_ids_insert(graph@, old(stack)@, id);
                        }
                        let res = resolve_internal(graph, &bound, visitor, cache, stack);
                        match res {
                            Err(e) => {
                                stack.remove(id);
                                proof {
                                    assert(stack@ =~= old(stack)@);
                                }
                                Err(e)
                            },
                            Ok((value, rep_opt)) => {
                                let ghost cache2 = cache@;
                                match rep_opt {
                                    Some(mut rep) => {
                                        let ghost repv = rep@;
                                        rep.remove(id);
                                        let empty_now = rep.is_empty();
                                        if empty_now {
                                            cache.store(id, value.duplicate());
                                        }
                                        stack.remove(id);
                                        proof {
                                            assert(stack@ =~= old(stack)@);
                                            assert(rep@ == repv.remove(id));
                                            assert(rep@.subset_of(old(stack)@));
                                        }
                                        Ok((value, Some(rep)))
                                    },
                                    None => {
                                        cache.store(id, value.duplicate());
                                        stack.remove(id);
                                        let rep = IdSet::new();
                                        proof {
                                            assert(stack@ =~= old(stack)@);
                                        }
                                        Ok((value, Some(rep)))
                                    },
                                }
                            },
                        }
                    },
                }
            }
        },
        JsValue::Composite(children) => {
            let ghost g0 = graph@;
            let ghost c0 = cache@;
            let ghost s0 = old(stack)@;
            let ghost kids = view_seq(children@);
            proof {
                lemma_view_seq(children@);
                assert(val@ == SpecValue::Composite(kids));
            }
            let mut out: Vec<JsValue> = Vec::new();
            let mut any_mod = false;
            let mut merged = IdSet::new();
            let mut i: usize = 0;
            proof {
                assert(kids.skip(0) =~= kids);
                assert(view_seq(out@) =~= Seq::<SpecValue>::empty());
                match spec_resolve_children(g0, *visitor, c0, s0, kids) {
                    Option::None => {},
                    Option::Some((cs, m2, rp, c2)) => {
                        assert(Seq::<SpecValue>::empty() + cs =~= cs);
                        assert(Set::<VarId>::empty() + rp =~= rp);
                    },
                }
            }
            while i < children.len()
                invariant
                    i <= children.len(),
                    graph@ == g0,
                    g0.dom().finite(),
                    val@ == SpecValue::Composite(kids),
                    kids == view_seq(children@),
                    kids.len() == children@.len(),
                    forall|j: int|
                        0 <= j < children@.len() ==> kids[j] == view_value(
                            #[trigger] children@[j],
                        ),
                    stack.inv(),
                    merged.inv(),
                    stack@ == s0,
                    s0 == old(stack)@,
                    c0 == old(cache)@,
                    merged@.subset_of(s0),
                    out@.len() == i,
                    c0.submap_of(cache@),
                    forall|x: VarId|
                        s0.contains(x) ==> cache@.contains_key(x) == c0.contains_key(x),
                    spec_resolve_children(g0, *visitor, c0, s0, kids) == combine_children(
                        view_seq(out@),
                        any_mod,
                        merged@,
                        spec_resolve_children(g0, *visitor, cache@, s0, kids.skip(i as int)),
                    ),
                decreases children.len() - i,
            {
                let ghost cache_i = cache@;
                let ghost rem = kids.skip(i as int);
                proof {
                    assert(rem[0] == kids[i as int]);
                    lemma_height_seq_ge(kids, i as int);
                    assert(rem.drop_first() =~= kids.skip(i + 1));
                }
                let cr = resolve_internal(graph, &children[i], visitor, cache, stack);
                match cr {
                    Err(e) => {
                        proof {
                            assert(spec_resolve_children(g0, *visitor, cache_i, s0, rem) is None);
                            assert(spec_resolve_children(g0, *visitor, c0, s0, kids) is None);
                            lemma_submap_trans(c0, cache_i, cache@);
                        }
                        return Err(e);
                    },
                    Ok((cv, crep_opt)) => {
                        let ghost cache_after = cache@;
                        let ghost cvv = cv@;
                        let ghost prefix = view_seq(out@);
                        let ghost merged0 = merged@;
                        let ghost any0 = any_mod;
                        let ghost step: (SpecValue, bool, Set<VarId>) = match opt_view(crep_opt) {
                            Some(cset) => (shallow_norm(cvv), true, cset),
                            None => (cvv, false, Set::<VarId>::empty()),
                        };
                        proof {
                            assert(spec_resolve_children(g0, *visitor, cache_i, s0, rem)
                                == combine_children(
                                seq![step.0],
                                step.1,
                                step.2,
                                spec_resolve_children(g0, *visitor, cache_after, s0, kids.skip(i + 1)),
                            ));
                        }
                        let pushed: JsValue = match crep_opt {
                            Some(cset) => {
                                let cv2 = cv.normalize_shallow();
                                merged.absorb(&cset);
                                any_mod = true;
                                cv2
                            },
                            None => cv,
                        };
                        let ghost pre = out@;
                        proof {
                            assert(pushed@ == step.0);
                        }
                        out.push(pushed);
                        proof {
                            assert(out@ == pre.push(out@.last()));
                            lemma_view_seq_push(pre, out@.last());
                            assert(prefix.push(step.0) =~= prefix + seq![step.0]);
                            assert(view_seq(out@) == prefix + seq![step.0]);
                            assert(merged@ =~= merged0 + step.2);
                            assert(any_mod == (any0 || step.1));
                            lemma_submap_trans(c0, cache_i, cache@);
                            lemma_combine_assoc(
                                prefix,
                                any0,
                                merged0,
                                step.0,
                                step.1,
                                step.2,
                                spec_resolve_children(g0, *visitor, cache_after, s0, kids.skip(i + 1)),
                            );
                        }
                        i += 1;
                    },
                }
            }
            let ghost outv = out@;
            proof {
                assert(kids.skip(kids.len() as int) =~= Seq::<SpecValue>::empty());
                assert(spec_resolve_children(g0, *visitor, cache@, s0, Seq::<SpecValue>::empty())
                    == Some(
                    (Seq::<SpecValue>::empty(), false, Set::<VarId>::empty(), cache@),
                ));
                assert(view_seq(outv) + Seq::<SpecValue>::empty() =~= view_seq(outv));
                assert(merged@ + Set::<VarId>::empty() =~= merged@);
                assert(spec_resolve_children(g0, *visitor, c0, s0, kids) == Some(
                    (view_seq(outv), any_mod, merged@, cache@),
                ));
            }
            let node = JsValue::Composite(out);
            let node2 = if any_mod {
                node.normalize_shallow()
            } else {
                node
            };
            let ghost v1 = if any_mod {
                shallow_norm(SpecValue::Composite(view_seq(outv)))
            } else {
                SpecValue::Composite(view_seq(outv))
            };
            proof {
                assert(node2@ == v1);
            }
            match fix_value(visitor, node2) {
                Err(e) => {
                    proof {
                        assert(spec_fix(*visitor, v1) is None);
                    }
                    Err(e)
                },
                Ok((v3, vis_mod)) => {
                    if any_mod || vis_mod {
                        Ok((v3, Some(merged)))
                    } else {
                        Ok((v3, None))
                    }
                },
            }
        },
        other => {
            let copy = other.duplicate();
            match fix_value(visitor, copy) {
                Err(e) => Err(e),
                Ok((v3, vis_mod)) => {
                    if vis_mod {
                        let rep = IdSet::new();
                        Ok((v3, Some(rep)))
                    } else {
                        Ok((v3, None))
                    }
                },
            }
        },
    }
}

/// The whole operation: deep-canonicalize the root, resolve it, return the
/// value and the cache. `None` = the visitor failed.
pub open spec fn spec_link<V: Visitor>(
    g: Map<VarId, SpecValue>,
    vis: V,
    cache: Map<VarId, SpecValue>,
    val: SpecValue,
) -> Option<(SpecValue, Map<VarId, SpecValue>)> {
    match spec_resolve(g, vis, cache, Set::<VarId>::empty(), deep_norm(val)) {
        None => None,
        Some((v, _, cache2)) => Some((v, cache2)),
    }
}

/// Resolve a root value against the reference graph: deep-canonicalize it,
/// replace every resolvable variable reference by its resolved definition,
/// and apply the visitor to a fixpoint. Circularity never fails — it is
/// encoded in the result as unknown values; only a visitor failure
/// propagates, and then nothing partial is returned.
pub fn link<V: Visitor>(
    graph: &VarGraph,
    val: JsValue,
    visitor: &V,
    cache: &mut LinkCache,
) -> (r: Result<JsValue, VisitError>)
    ensures
        old(cache)@.submap_of(final(cache)@),
        match r {
            Ok(v) => spec_link(graph@, *visitor, old(cache)@, val@) == Some((v@, final(cache)@)),
            Err(_) => spec_link(graph@, *visitor, old(cache)@, val@) is None,
        },
{
    let normalized = val.normalize();
    let mut stack = IdSet::new();
    let res = resolve_internal(graph, &normalized, visitor, cache, &mut stack);
    match res {
        Ok((v, _)) => Ok(v),
        Err(e) => Err(e),
    }
}

} // verus!
