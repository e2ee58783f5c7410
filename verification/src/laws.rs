//! The guarantees of the resolver, stated and proved over the spec model:
//! cycle short-circuiting, cache admission soundness, no false caching on
//! open cycles, missing-binding behaviour, and idempotence of resolution on
//! settled values.

use crate::resolver::{
    circular_unknown, missing_unknown, spec_fix, spec_link, spec_resolve, spec_resolve_children,
};
use crate::value::{deep_norm, height, height_seq, SpecValue, VarId};
use crate::visitor::{IdentityVisitor, Visitor};
use vstd::prelude::*;

verus! {

broadcast use vstd::set::group_set_axioms;

/// A variable already on the resolution path resolves at once to the
/// circular-reference unknown, and its identity is reported as replaced:
/// the recursion never re-enters a variable, which is why it terminates on
/// cyclic reference graphs.
pub proof fn lemma_circular_short_circuit<V: Visitor>(
    g: Map<VarId, SpecValue>,
    vis: V,
    cache: Map<VarId, SpecValue>,
    stack: Set<VarId>,
    id: VarId,
)
    requires
        g.dom().finite(),
        stack.contains(id),
    ensures
        spec_resolve(g, vis, cache, stack, SpecValue::Variable(id)) == Some(
            (circular_unknown(id), Some(set![id]), cache),
        ),
{
}

/// Cache admission soundness, the writing half: when resolving a variable
/// reports a replaced-reference set that is empty once its own identity is
/// out, the resolved value was memoized under that identity.
pub proof fn lemma_admission_caches<V: Visitor>(
    g: Map<VarId, SpecValue>,
    vis: V,
    cache: Map<VarId, SpecValue>,
    stack: Set<VarId>,
    id: VarId,
    v: SpecValue,
    rep: Set<VarId>,
    cache2: Map<VarId, SpecValue>,
)
    requires
        g.dom().finite(),
        spec_resolve(g, vis, cache, stack, SpecValue::Variable(id)) == Some(
            (v, Some(rep), cache2),
        ),
        rep.is_empty(),
    ensures
        cache2.contains_key(id),
        cache2[id] == v,
{
    if stack.contains(id) {
        assert(rep == set![id]);
        assert(rep.contains(id));
    } else if cache.contains_key(id) {
    } else {
        let bound = if g.contains_key(id) {
            g[id]
        } else {
            missing_unknown(id)
        };
        match spec_resolve(g, vis, cache, stack.insert(id), bound) {
            None => {},
            Some((v2, r, c2)) => {
                match r {
                    Some(rr) => {
                        if rr.remove(id).is_empty() {
                        } else {
                            assert(rep == rr.remove(id));
                        }
                    },
                    None => {},
                }
            },
        }
    }
}

/// Cache admission soundness, the reading half: resolving a variable whose
/// value is cached returns that value with nothing replaced and nothing
/// written, and the outcome is the same for every reference graph — the
/// graph is not consulted.
pub proof fn lemma_cached_resolution<V: Visitor>(
    g: Map<VarId, SpecValue>,
    vis: V,
    cache: Map<VarId, SpecValue>,
    stack: Set<VarId>,
    id: VarId,
)
    requires
        g.dom().finite(),
        !stack.contains(id),
        cache.contains_key(id),
    ensures
        spec_resolve(g, vis, cache, stack, SpecValue::Variable(id)) == Some(
            (cache[id], Some(Set::<VarId>::empty()), cache),
        ),
{
}

/// Cache admission soundness, end to end: after a resolution of a variable
/// that closed every circular reference it touched, a second resolution of
/// the same variable against the same cache returns the identical value —
/// whatever reference graph the second call is given, since only the memo
/// is consulted.
pub proof fn lemma_second_resolution_identical<V: Visitor>(
    g: Map<VarId, SpecValue>,
    g2: Map<VarId, SpecValue>,
    vis: V,
    cache: Map<VarId, SpecValue>,
    id: VarId,
    v: SpecValue,
    rep: Set<VarId>,
    cache2: Map<VarId, SpecValue>,
)
    requires
        g.dom().finite(),
        g2.dom().finite(),
        spec_resolve(g, vis, cache, Set::<VarId>::empty(), SpecValue::Variable(id)) == Some(
            (v, Some(rep), cache2),
        ),
        rep.is_empty(),
    ensures
        spec_resolve(g2, vis, cache2, Set::<VarId>::empty(), SpecValue::Variable(id)) == Some(
            (v, Some(Set::<VarId>::empty()), cache2),
        ),
{
    lemma_admission_caches(g, vis, cache, Set::<VarId>::empty(), id, v, rep, cache2);
    lemma_cached_resolution(g2, vis, cache2, Set::<VarId>::empty(), id);
}

/// No false caching on open cycles: every identity of a replaced-reference
/// set lies on the resolution path above the call (`resolve_internal`
/// ensures this), and the cache entry of every identity on that path is
/// left exactly as it was — so no identity of a still-open cycle gains a
/// cache entry.
pub proof fn lemma_no_false_caching(
    stack0: Set<VarId>,
    c0: Map<VarId, SpecValue>,
    c1: Map<VarId, SpecValue>,
    rep: Set<VarId>,
)
    requires
        rep.subset_of(stack0),
        forall|x: VarId| stack0.contains(x) ==> c1.contains_key(x) == c0.contains_key(x),
    ensures
        forall|x: VarId| rep.contains(x) ==> c1.contains_key(x) == c0.contains_key(x),
{
}

/// The identity rule set reaches its fixpoint in one visit, changing
/// nothing.
pub proof fn lemma_identity_fix(vis: IdentityVisitor, v: SpecValue)
    ensures
        spec_fix(vis, v) == Some((v, false)),
{
}

/// Missing binding: a variable that is neither on the path nor cached nor
/// bound in the graph resolves to the missing-binding unknown handed to the
/// visitor fixpoint — never a failure of the resolver's own — and the
/// outcome is memoized.
pub proof fn lemma_missing_binding<V: Visitor>(
    g: Map<VarId, SpecValue>,
    vis: V,
    cache: Map<VarId, SpecValue>,
    stack: Set<VarId>,
    id: VarId,
)
    requires
        g.dom().finite(),
        !stack.contains(id),
        !cache.contains_key(id),
        !g.dom().contains(id),
    ensures
        match spec_fix(vis, missing_unknown(id)) {
            None => spec_resolve(g, vis, cache, stack, SpecValue::Variable(id)) is None,
            Some((v3, m)) => spec_resolve(g, vis, cache, stack, SpecValue::Variable(id)) == Some(
                (v3, Some(Set::<VarId>::empty()), cache.insert(id, v3)),
            ),
        },
{
    let stack2 = stack.insert(id);
    match spec_fix(vis, missing_unknown(id)) {
        None => {
            assert(spec_resolve(g, vis, cache, stack2, missing_unknown(id)) is None);
        },
        Some((v3, m)) => {
            if m {
                assert(spec_resolve(g, vis, cache, stack2, missing_unknown(id)) == Some(
                    (v3, Some(Set::<VarId>::empty()), cache),
                ));
                assert(Set::<VarId>::empty().remove(id) =~= Set::<VarId>::empty());
            } else {
                assert(spec_resolve(g, vis, cache, stack2, missing_unknown(id)) == Some(
                    (v3, Option::<Set<VarId>>::None, cache),
                ));
            }
        },
    }
}

/// Termination on a cycle of two variables, and what comes out: with
/// `a -> b -> a` in the graph and neither cached, resolving `a` yields the
/// circular-reference unknown whose origin is `Variable(a)`, for every
/// visitor (no visit happens on the pure variable chain); `a`'s own cycle
/// is closed at `a`'s frame, so `a` is memoized, and `b` is not.
pub proof fn lemma_cycle_of_two<V: Visitor>(
    vis: V,
    cache: Map<VarId, SpecValue>,
    a: VarId,
    b: VarId,
)
    requires
        a != b,
        !cache.contains_key(a),
        !cache.contains_key(b),
    ensures
        spec_resolve(
            map![a => SpecValue::Variable(b), b => SpecValue::Variable(a)],
            vis,
            cache,
            Set::<VarId>::empty(),
            SpecValue::Variable(a),
        ) == Some(
            (circular_unknown(a), Some(Set::<VarId>::empty()), cache.insert(a, circular_unknown(a))),
        ),
        !cache.insert(a, circular_unknown(a)).contains_key(b),
{
    let g = map![a => SpecValue::Variable(b), b => SpecValue::Variable(a)];
    assert(g.dom() =~= set![a, b]);
    assert(g.dom().finite());
    let s0 = Set::<VarId>::empty();
    let s1 = s0.insert(a);
    let s2 = s1.insert(b);
    assert(s2.contains(a));
    assert(spec_resolve(g, vis, cache, s2, SpecValue::Variable(a)) == Some(
        (circular_unknown(a), Some(set![a]), cache),
    ));
    assert(!s1.contains(b));
    assert(g[b] == SpecValue::Variable(a));
    assert(set![a].remove(b) =~= set![a]);
    assert(set![a].contains(a));
    assert(!set![a].is_empty());
    assert(spec_resolve(g, vis, cache, s1, SpecValue::Variable(b)) == Some(
        (circular_unknown(a), Some(set![a]), cache),
    ));
    assert(!s0.contains(a));
    assert(g[a] == SpecValue::Variable(b));
    assert(set![a].remove(a) =~= Set::<VarId>::empty());
    assert(set![a].remove(a).is_empty());
    assert(spec_resolve(g, vis, cache, s0, SpecValue::Variable(a)) == Some(
        (circular_unknown(a), Some(set![a].remove(a)), cache.insert(a, circular_unknown(a))),
    ));
}

/// A value on which resolution has nothing left to do: no variable
/// reference in any walkable position, and the visitor reports no change on
/// any node.
pub open spec fn settled<V: Visitor>(vis: V, v: SpecValue) -> bool
    decreases v,
{
    match v {
        SpecValue::Variable(_) => false,
        SpecValue::Composite(cs) => settled_seq(vis, cs) && vis.spec_ok(v) && vis.spec_visit(v)
            == (v, false),
        _ => vis.spec_ok(v) && vis.spec_visit(v) == (v, false),
    }
}

pub open spec fn settled_seq<V: Visitor>(vis: V, s: Seq<SpecValue>) -> bool
    decreases s,
{
    if s.len() == 0 {
        true
    } else {
        settled(vis, s[0]) && settled_seq(vis, s.drop_first())
    }
}

/// Resolution of a settled value changes nothing at all: the value comes
/// back identical, nothing is reported replaced, the cache stays as it was.
pub proof fn lemma_settled_resolve<V: Visitor>(
    g: Map<VarId, SpecValue>,
    vis: V,
    cache: Map<VarId, SpecValue>,
    stack: Set<VarId>,
    v: SpecValue,
)
    requires
        g.dom().finite(),
        settled(vis, v),
    ensures
        spec_resolve(g, vis, cache, stack, v) == Some((v, Option::<Set<VarId>>::None, cache)),
    decreases 2 * height(v), 0nat,
{
    match v {
        SpecValue::Composite(cs) => {
            lemma_settled_children(g, vis, cache, stack, cs);
            assert(spec_resolve_children(g, vis, cache, stack, cs) == Some(
                (cs, false, Set::<VarId>::empty(), cache),
            ));
            assert(spec_fix(vis, v) == Some((v, false)));
        },
        _ => {
            assert(spec_fix(vis, v) == Some((v, false)));
        },
    }
}

pub proof fn lemma_settled_children<V: Visitor>(
    g: Map<VarId, SpecValue>,
    vis: V,
    cache: Map<VarId, SpecValue>,
    stack: Set<VarId>,
    s: Seq<SpecValue>,
)
    requires
        g.dom().finite(),
        settled_seq(vis, s),
    ensures
        spec_resolve_children(g, vis, cache, stack, s) == Some(
            (s, false, Set::<VarId>::empty(), cache),
        ),
    decreases 2 * height_seq(s) + 1, s.len(),
{
    if s.len() == 0 {
        assert(spec_resolve_children(g, vis, cache, stack, s) == Some(
            (Seq::<SpecValue>::empty(), false, Set::<VarId>::empty(), cache),
        ));
        assert(s =~= Seq::<SpecValue>::empty());
    } else {
        crate::value::lemma_height_seq_ge(s, 0);
        lemma_settled_resolve(g, vis, cache, stack, s[0]);
        lemma_settled_children(g, vis, cache, stack, s.drop_first());
        assert(seq![s[0]] + s.drop_first() =~= s);
        assert(Set::<VarId>::empty() + Set::<VarId>::empty() =~= Set::<VarId>::empty());
    }
}

/// No variable reference in any walkable position of the value.
pub open spec fn no_vars(v: SpecValue) -> bool
    decreases v,
{
    match v {
        SpecValue::Variable(_) => false,
        SpecValue::Composite(cs) => no_vars_seq(cs),
        _ => true,
    }
}

pub open spec fn no_vars_seq(s: Seq<SpecValue>) -> bool
    decreases s,
{
    if s.len() == 0 {
        true
    } else {
        no_vars(s[0]) && no_vars_seq(s.drop_first())
    }
}

proof fn lemma_no_vars_seq_concat(a: Seq<SpecValue>, b: Seq<SpecValue>)
    requires
        no_vars_seq(a),
        no_vars_seq(b),
    ensures
        no_vars_seq(a + b),
    decreases a.len(),
{
    if a.len() == 0 {
        assert(a + b =~= b);
    } else {
        lemma_no_vars_seq_concat(a.drop_first(), b);
        assert((a + b)[0] == a[0]);
        assert((a + b).drop_first() =~= a.drop_first() + b);
    }
}

proof fn lemma_no_vars_singleton(x: SpecValue)
    requires
        no_vars(x),
    ensures
        no_vars_seq(seq![x]),
{
    assert(seq![x].len() == 1);
    assert(seq![x][0] == x);
    assert(seq![x].drop_first() =~= Seq::<SpecValue>::empty());
    assert(no_vars_seq(Seq::<SpecValue>::empty()));
}

proof fn lemma_flatten_no_vars(s: Seq<SpecValue>)
    requires
        no_vars_seq(s),
    ensures
        no_vars_seq(crate::value::flatten_seq(s)),
    decreases s.len(),
{
    if s.len() > 0 {
        lemma_flatten_no_vars(s.drop_first());
        assert(no_vars(s[0]));
        match s[0] {
            SpecValue::Composite(gc) => {
                assert(no_vars_seq(gc));
            },
            _ => {
                lemma_no_vars_singleton(s[0]);
            },
        }
        lemma_no_vars_seq_concat(
            crate::value::flatten_one(s[0]),
            crate::value::flatten_seq(s.drop_first()),
        );
    }
}

proof fn lemma_shallow_norm_no_vars(v: SpecValue)
    requires
        no_vars(v),
    ensures
        no_vars(crate::value::shallow_norm(v)),
{
    match v {
        SpecValue::Composite(cs) => {
            lemma_flatten_no_vars(cs);
        },
        _ => {},
    }
}

/// A variable-free value is settled for the identity rule set.
pub proof fn lemma_no_vars_settled(v: SpecValue)
    requires
        no_vars(v),
    ensures
        settled(IdentityVisitor, v),
    decreases v,
{
    match v {
        SpecValue::Composite(cs) => {
            lemma_no_vars_settled_seq(cs);
        },
        _ => {},
    }
}

proof fn lemma_no_vars_settled_seq(s: Seq<SpecValue>)
    requires
        no_vars_seq(s),
    ensures
        settled_seq(IdentityVisitor, s),
    decreases s,
{
    if s.len() > 0 {
        lemma_no_vars_settled(s[0]);
        lemma_no_vars_settled_seq(s.drop_first());
    }
}

/// Every value of the cache is free of variable references.
pub open spec fn cache_no_vars(c: Map<VarId, SpecValue>) -> bool {
    forall|k: VarId| c.dom().contains(k) ==> no_vars(#[trigger] c[k])
}

/// With the identity rule set, resolution replaces every walkable variable
/// reference: the result is variable-free, and so is everything the cache
/// holds afterwards.
pub proof fn lemma_identity_output_no_vars(
    g: Map<VarId, SpecValue>,
    cache: Map<VarId, SpecValue>,
    stack: Set<VarId>,
    val: SpecValue,
)
    requires
        g.dom().finite(),
        cache_no_vars(cache),
    ensures
        match spec_resolve(g, IdentityVisitor, cache, stack, val) {
            None => true,
            Some((v, rep, c2)) => no_vars(v) && cache_no_vars(c2),
        },
    decreases crate::resolver::free_ids(g, stack), 2 * height(val), crate::resolver::var_flag(val),
{
    match val {
        SpecValue::Variable(id) => {
            if stack.contains(id) {
            } else if cache.contains_key(id) {
            } else {
                let bound = if g.contains_key(id) {
                    g[id]
                } else {
                    missing_unknown(id)
                };
                crate::resolver::lemma_free_ids_insert(g, stack, id);
                lemma_identity_output_no_vars(g, cache, stack.insert(id), bound);
                match spec_resolve(g, IdentityVisitor, cache, stack.insert(id), bound) {
                    None => {},
                    Some((v2, rep, cache2)) => {
                        assert(cache_no_vars(cache2.insert(id, v2))) by {
                            assert forall|k: VarId|
                                cache2.insert(id, v2).dom().contains(k) implies no_vars(
                                cache2.insert(id, v2)[k],
                            ) by {
                                if k != id {
                                    assert(cache2.dom().contains(k));
                                }
                            }
                        }
                    },
                }
            }
        },
        SpecValue::Composite(cs) => {
            lemma_identity_children_no_vars(g, cache, stack, cs);
            match spec_resolve_children(g, IdentityVisitor, cache, stack, cs) {
                None => {},
                Some((rs, any_mod, rep, cache2)) => {
                    let v1 = if any_mod {
                        crate::value::shallow_norm(SpecValue::Composite(rs))
                    } else {
                        SpecValue::Composite(rs)
                    };
                    if any_mod {
                        lemma_shallow_norm_no_vars(SpecValue::Composite(rs));
                    }
                    lemma_identity_fix(IdentityVisitor, v1);
                },
            }
        },
        _ => {
            lemma_identity_fix(IdentityVisitor, val);
        },
    }
}

proof fn lemma_identity_children_no_vars(
    g: Map<VarId, SpecValue>,
    cache: Map<VarId, SpecValue>,
    stack: Set<VarId>,
    s: Seq<SpecValue>,
)
    requires
        g.dom().finite(),
        cache_no_vars(cache),
    ensures
        match spec_resolve_children(g, IdentityVisitor, cache, stack, s) {
            None => true,
            Some((rs, m, rep, c2)) => no_vars_seq(rs) && cache_no_vars(c2),
        },
    decreases crate::resolver::free_ids(g, stack), 2 * height_seq(s) + 1, s.len(),
{
    if s.len() == 0 {
    } else {
        crate::value::lemma_height_seq_ge(s, 0);
        lemma_identity_output_no_vars(g, cache, stack, s[0]);
        match spec_resolve(g, IdentityVisitor, cache, stack, s[0]) {
            None => {},
            Some((cv, crep, cache2)) => {
                let head = match crep {
                    Some(_) => crate::value::shallow_norm(cv),
                    None => cv,
                };
                if crep is Some {
                    lemma_shallow_norm_no_vars(cv);
                }
                lemma_identity_children_no_vars(g, cache2, stack, s.drop_first());
                match spec_resolve_children(g, IdentityVisitor, cache2, stack, s.drop_first()) {
                    None => {},
                    Some((rest, _, _, _)) => {
                        lemma_no_vars_singleton(head);
                        lemma_no_vars_seq_concat(seq![head], rest);
                    },
                }
            },
        }
    }
}

/// Idempotence for the identity rule set without side conditions: whatever
/// a resolution returned, resolving that result again — against any graph,
/// any cache, any path — hands it back identically, with nothing replaced
/// and nothing written.
pub proof fn lemma_identity_resolution_idempotent(
    g: Map<VarId, SpecValue>,
    g2: Map<VarId, SpecValue>,
    cache: Map<VarId, SpecValue>,
    cache2: Map<VarId, SpecValue>,
    stack: Set<VarId>,
    stack2: Set<VarId>,
    val: SpecValue,
    v: SpecValue,
    rep: Option<Set<VarId>>,
    c2: Map<VarId, SpecValue>,
)
    requires
        g.dom().finite(),
        g2.dom().finite(),
        cache_no_vars(cache),
        spec_resolve(g, IdentityVisitor, cache, stack, val) == Some((v, rep, c2)),
    ensures
        spec_resolve(g2, IdentityVisitor, cache2, stack2, v) == Some(
            (v, Option::<Set<VarId>>::None, cache2),
        ),
{
    lemma_identity_output_no_vars(g, cache, stack, val);
    lemma_no_vars_settled(v);
    lemma_settled_resolve(g2, IdentityVisitor, cache2, stack2, v);
}

/// Idempotence of the visitor fixpoint over the whole operation: if the
/// visitor reports no change on any node of an already-resolved,
/// already-canonical value, resolving it again returns it identically and
/// leaves the cache untouched.
pub proof fn lemma_link_idempotent<V: Visitor>(
    g: Map<VarId, SpecValue>,
    vis: V,
    cache: Map<VarId, SpecValue>,
    v: SpecValue,
)
    requires
        g.dom().finite(),
        settled(vis, v),
        deep_norm(v) == v,
    ensures
        spec_link(g, vis, cache, v) == Some((v, cache)),
{
    lemma_settled_resolve(g, vis, cache, Set::<VarId>::empty(), v);
}

} // verus!
