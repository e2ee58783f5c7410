//! The value model and the small data structures: canonicalization,
//! structural copies, the identity set, the graph and the cache.

use linker::cache::LinkCache;
use linker::graph::VarGraph;
use linker::idset::IdSet;
use linker::value::{JsValue, Reason};

#[test]
fn duplicate_is_structurally_equal() {
    let v = JsValue::Composite(vec![
        JsValue::Variable(3),
        JsValue::Unknown(Some(Box::new(JsValue::Constant(9))), Reason::MissingBinding),
        JsValue::Composite(vec![JsValue::Constant(-1)]),
    ]);
    assert_eq!(v.duplicate(), v);
}

#[test]
fn shallow_normalization_splices_nested_composites() {
    let v = JsValue::Composite(vec![
        JsValue::Composite(vec![JsValue::Constant(1)]),
        JsValue::Constant(2),
    ]);
    assert_eq!(
        v.normalize_shallow(),
        JsValue::Composite(vec![JsValue::Constant(1), JsValue::Constant(2)])
    );
}

#[test]
fn deep_normalization_reaches_every_level() {
    let v = JsValue::Composite(vec![JsValue::Composite(vec![JsValue::Composite(vec![
        JsValue::Constant(1),
        JsValue::Composite(vec![JsValue::Constant(2)]),
    ])])]);
    assert_eq!(
        v.normalize(),
        JsValue::Composite(vec![JsValue::Constant(1), JsValue::Constant(2)])
    );
}

#[test]
fn normalization_leaves_atoms_and_unknown_origins_alone() {
    let v = JsValue::Unknown(
        Some(Box::new(JsValue::Composite(vec![JsValue::Composite(
            vec![JsValue::Constant(1)],
        )]))),
        Reason::CircularReference,
    );
    assert_eq!(v.normalize(), v);
    assert_eq!(JsValue::Constant(7).normalize(), JsValue::Constant(7));
}

#[test]
fn reason_texts_are_fixed() {
    assert_eq!(
        Reason::CircularReference.text(),
        "circular variable reference"
    );
    assert_eq!(Reason::MissingBinding.text(), "no value of this variable analysed");
}

#[test]
fn idset_tracks_membership() {
    let mut s = IdSet::new();
    assert!(s.is_empty());
    assert!(!s.contains(4));
    s.insert(4);
    s.insert(4);
    s.insert(9);
    assert!(s.contains(4));
    assert!(s.contains(9));
    assert!(!s.is_empty());
    s.remove(4);
    assert!(!s.contains(4));
    assert!(s.contains(9));
    s.remove(9);
    assert!(s.is_empty());
}

#[test]
fn idset_absorbs_another_set() {
    let mut a = IdSet::new();
    a.insert(1);
    let mut b = IdSet::new();
    b.insert(1);
    b.insert(2);
    a.absorb(&b);
    assert!(a.contains(1));
    assert!(a.contains(2));
    assert!(!a.contains(3));
}

#[test]
fn graph_holds_bindings() {
    let mut g = VarGraph::new();
    assert_eq!(g.get(5), None);
    g.insert(5, JsValue::Constant(11));
    assert_eq!(g.get(5), Some(JsValue::Constant(11)));
    g.insert(5, JsValue::Constant(12));
    assert_eq!(g.get(5), Some(JsValue::Constant(12)));
}

#[test]
fn cache_stores_and_returns_values() {
    let mut c = LinkCache::new();
    assert_eq!(c.get(8), None);
    c.store(8, JsValue::Constant(2));
    assert_eq!(c.get(8), Some(JsValue::Constant(2)));
}
