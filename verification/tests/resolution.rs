//! End-to-end resolution behaviour through `link`: chains, cycles, missing
//! bindings, cache reuse, the visitor fixpoint, and failure propagation.

use linker::cache::LinkCache;
use linker::graph::VarGraph;
use linker::value::{JsValue, Reason};
use linker::visitor::{DecrementVisitor, FailingVisitor, IdentityVisitor};
use linker::resolver::link;

const X: u64 = 1;
const Y: u64 = 2;
const A: u64 = 10;
const B: u64 = 11;

#[test]
fn chain_resolves_to_constant_and_fills_cache() {
    let mut graph = VarGraph::new();
    graph.insert(X, JsValue::Variable(Y));
    graph.insert(Y, JsValue::Constant(5));
    let mut cache = LinkCache::new();
    let r = link(&graph, JsValue::Variable(X), &IdentityVisitor, &mut cache).unwrap();
    assert_eq!(r, JsValue::Constant(5));
    assert_eq!(cache.get(X), Some(JsValue::Constant(5)));
    assert_eq!(cache.get(Y), Some(JsValue::Constant(5)));
}

#[test]
fn two_cycle_terminates_with_circular_unknown() {
    let mut graph = VarGraph::new();
    graph.insert(A, JsValue::Variable(B));
    graph.insert(B, JsValue::Variable(A));
    let mut cache = LinkCache::new();
    let r = link(&graph, JsValue::Variable(A), &IdentityVisitor, &mut cache).unwrap();
    assert_eq!(
        r,
        JsValue::Unknown(
            Some(Box::new(JsValue::Variable(A))),
            Reason::CircularReference
        )
    );
    // The variable whose cycle stayed open at its own frame is not memoized.
    assert_eq!(cache.get(B), None);
}

#[test]
fn circular_reason_text_is_verbatim() {
    let mut graph = VarGraph::new();
    graph.insert(A, JsValue::Variable(A));
    let mut cache = LinkCache::new();
    let r = link(&graph, JsValue::Variable(A), &IdentityVisitor, &mut cache).unwrap();
    match r {
        JsValue::Unknown(origin, reason) => {
            assert_eq!(*origin.unwrap(), JsValue::Variable(A));
            assert_eq!(reason.text(), "circular variable reference");
        }
        other => panic!("expected an unknown value, got {:?}", other),
    }
}

#[test]
fn missing_binding_yields_unknown_not_failure() {
    let graph = VarGraph::new();
    let mut cache = LinkCache::new();
    let r = link(&graph, JsValue::Variable(7), &IdentityVisitor, &mut cache).unwrap();
    match r {
        JsValue::Unknown(origin, reason) => {
            assert_eq!(*origin.unwrap(), JsValue::Variable(7));
            assert_eq!(reason, Reason::MissingBinding);
            assert_eq!(reason.text(), "no value of this variable analysed");
        }
        other => panic!("expected an unknown value, got {:?}", other),
    }
}

#[test]
fn second_resolution_comes_from_cache_not_graph() {
    let mut graph = VarGraph::new();
    graph.insert(X, JsValue::Constant(3));
    let mut cache = LinkCache::new();
    let first = link(&graph, JsValue::Variable(X), &IdentityVisitor, &mut cache).unwrap();
    assert_eq!(first, JsValue::Constant(3));
    // Same cache, but an empty graph: the value can only come from the memo.
    let empty = VarGraph::new();
    let second = link(&empty, JsValue::Variable(X), &IdentityVisitor, &mut cache).unwrap();
    assert_eq!(second, JsValue::Constant(3));
}

#[test]
fn visitor_runs_to_fixpoint() {
    let graph = VarGraph::new();
    let mut cache = LinkCache::new();
    let r = link(&graph, JsValue::Constant(5), &DecrementVisitor, &mut cache).unwrap();
    assert_eq!(r, JsValue::Constant(0));
}

#[test]
fn visitor_fixpoint_reaches_variable_definitions() {
    let mut graph = VarGraph::new();
    graph.insert(X, JsValue::Constant(2));
    let mut cache = LinkCache::new();
    let r = link(
        &graph,
        JsValue::Composite(vec![JsValue::Variable(X)]),
        &DecrementVisitor,
        &mut cache,
    )
    .unwrap();
    assert_eq!(r, JsValue::Composite(vec![JsValue::Constant(0)]));
    assert_eq!(cache.get(X), Some(JsValue::Constant(0)));
}

#[test]
fn visitor_failure_propagates() {
    let mut graph = VarGraph::new();
    graph.insert(X, JsValue::Constant(1));
    let mut cache = LinkCache::new();
    let err = link(&graph, JsValue::Variable(X), &FailingVisitor, &mut cache)
        .err()
        .expect("a failing visitor must abort the whole call");
    assert_eq!(err.message, "simplification refused");
    // Nothing partial was memoized.
    assert_eq!(cache.get(X), None);
}

#[test]
fn composite_children_are_resolved_in_place() {
    let mut graph = VarGraph::new();
    graph.insert(X, JsValue::Constant(4));
    let mut cache = LinkCache::new();
    let root = JsValue::Composite(vec![JsValue::Variable(X), JsValue::Constant(1)]);
    let r = link(&graph, root, &IdentityVisitor, &mut cache).unwrap();
    assert_eq!(
        r,
        JsValue::Composite(vec![JsValue::Constant(4), JsValue::Constant(1)])
    );
    assert_eq!(cache.get(X), Some(JsValue::Constant(4)));
}

#[test]
fn root_is_deep_canonicalized() {
    let graph = VarGraph::new();
    let mut cache = LinkCache::new();
    let root = JsValue::Composite(vec![
        JsValue::Composite(vec![JsValue::Constant(1), JsValue::Constant(2)]),
        JsValue::Constant(3),
    ]);
    let r = link(&graph, root, &IdentityVisitor, &mut cache).unwrap();
    assert_eq!(
        r,
        JsValue::Composite(vec![
            JsValue::Constant(1),
            JsValue::Constant(2),
            JsValue::Constant(3)
        ])
    );
}

#[test]
fn empty_composite_resolves_to_itself() {
    let graph = VarGraph::new();
    let mut cache = LinkCache::new();
    let r = link(&graph, JsValue::Composite(vec![]), &IdentityVisitor, &mut cache).unwrap();
    assert_eq!(r, JsValue::Composite(vec![]));
}

#[test]
fn resolving_resolved_value_is_identical() {
    let mut graph = VarGraph::new();
    graph.insert(X, JsValue::Variable(Y));
    graph.insert(Y, JsValue::Constant(5));
    let mut cache = LinkCache::new();
    let once = link(&graph, JsValue::Variable(X), &IdentityVisitor, &mut cache).unwrap();
    let twice = link(&graph, once.duplicate(), &IdentityVisitor, &mut cache).unwrap();
    assert_eq!(once, twice);
}

#[test]
fn cycle_result_not_pinned_for_open_member() {
    // After the cycle, b has no entry; a fresh cache over a richer graph
    // resolves b fully.
    let mut graph = VarGraph::new();
    graph.insert(A, JsValue::Variable(B));
    graph.insert(B, JsValue::Variable(A));
    let mut cache = LinkCache::new();
    let _ = link(&graph, JsValue::Variable(A), &IdentityVisitor, &mut cache).unwrap();
    assert_eq!(cache.get(B), None);

    let mut graph2 = VarGraph::new();
    graph2.insert(A, JsValue::Constant(1));
    graph2.insert(B, JsValue::Variable(A));
    let mut cache2 = LinkCache::new();
    let r = link(&graph2, JsValue::Variable(B), &IdentityVisitor, &mut cache2).unwrap();
    assert_eq!(r, JsValue::Constant(1));
}
