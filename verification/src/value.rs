//! The expression value model: an exec enum `JsValue` together with its
//! mathematical view `SpecValue`, structural height, and the deep and
//! shallow canonicalization rules.

use vstd::prelude::*;

verus! {

/// Identity of a variable binding (a name + scope key, interned to a number).
pub type VarId = u64;

/// Why a value could not be resolved any further.
#[derive(Clone, Copy, Debug, PartialEq, Eq, Structural)]
pub enum Reason {
    /// The variable's resolution path revisited the variable itself.
    CircularReference,
    /// The reference graph holds no binding for the variable.
    MissingBinding,
}

impl Reason {
    /// The fixed wording attached to an unknown value of this reason.
    pub fn text(&self) -> (r: &'static str)
        ensures
            *self is CircularReference ==> r@ == "circular variable reference"@,
            *self is MissingBinding ==> r@ == "no value of this variable analysed"@,
    {
        match self {
            Reason::CircularReference => "circular variable reference",
            Reason::MissingBinding => "no value of this variable analysed",
        }
    }
}

/// Mathematical model of an expression value. Composite children form a
/// sequence; the origin of an unknown value is provenance only and is not
/// walked by resolution.
pub enum SpecValue {
    Constant(i64),
    Variable(VarId),
    Unknown(Option<Box<SpecValue>>, Reason),
    Composite(Seq<SpecValue>),
}

/// An expression value: atomic constant, variable reference, unknown
/// placeholder (with optional origin and a reason), or composite node.
#[derive(Debug, PartialEq, Eq)]
pub enum JsValue {
    Constant(i64),
    Variable(VarId),
    Unknown(Option<Box<JsValue>>, Reason),
    Composite(Vec<JsValue>),
}

/// The mathematical value an exec value stands for.
pub open spec fn view_value(v: JsValue) -> SpecValue
    decreases v,
{
    match v {
        JsValue::Constant(n) => SpecValue::Constant(n),
        JsValue::Variable(id) => SpecValue::Variable(id),
        JsValue::Unknown(origin, reason) => SpecValue::Unknown(
            match origin {
                Some(b) => Some(Box::new(view_value(*b))),
                None => None,
            },
            reason,
        ),
        JsValue::Composite(children) => SpecValue::Composite(view_seq(children@)),
    }
}

/// Pointwise view of a sequence of exec values.
pub open spec fn view_seq(s: Seq<JsValue>) -> Seq<SpecValue>
    decreases s,
{
    if s.len() == 0 {
        Seq::empty()
    } else {
        seq![view_value(s[0])] + view_seq(s.drop_first())
    }
}

impl View for JsValue {
    type V = SpecValue;

    open spec fn view(&self) -> SpecValue {
        view_value(*self)
    }
}

pub proof fn lemma_view_seq(s: Seq<JsValue>)
    ensures
        view_seq(s).len() == s.len(),
        forall|i: int| 0 <= i < s.len() ==> view_seq(s)[i] == view_value(#[trigger] s[i]),
    decreases s.len(),
{
    if s.len() > 0 {
        lemma_view_seq(s.drop_first());
        assert forall|i: int| 0 <= i < s.len() implies view_seq(s)[i] == view_value(s[i]) by {
            if i > 0 {
                assert(view_seq(s)[i] == view_seq(s.drop_first())[i - 1]);
                assert(s.drop_first()[i - 1] == s[i]);
            }
        }
    }
}

/// Total number of nodes in a value, the origin of an unknown included.
pub open spec fn size(v: SpecValue) -> nat
    decreases v,
{
    match v {
        SpecValue::Unknown(Some(b), _) => 1 + size(*b),
        SpecValue::Composite(cs) => 1 + size_seq(cs),
        _ => 0,
    }
}

pub open spec fn size_seq(s: Seq<SpecValue>) -> nat
    decreases s,
{
    if s.len() == 0 {
        0
    } else {
        1 + size(s[0]) + size_seq(s.drop_first())
    }
}

pub proof fn lemma_size_seq_gt(s: Seq<SpecValue>, i: int)
    requires
        0 <= i < s.len(),
    ensures
        size(s[i]) < size_seq(s),
    decreases s.len(),
{
    if i > 0 {
        lemma_size_seq_gt(s.drop_first(), i - 1);
    }
}

pub proof fn lemma_view_seq_push(s: Seq<JsValue>, x: JsValue)
    ensures
        view_seq(s.push(x)) == view_seq(s).push(view_value(x)),
    decreases s.len(),
{
    if s.len() == 0 {
        assert(s.push(x)[0] == x);
        assert(s.push(x).drop_first() =~= s);
        assert(view_seq(s.push(x)) =~= view_seq(s).push(view_value(x)));
    } else {
        assert(s.push(x)[0] == s[0]);
        assert(s.push(x).drop_first() =~= s.drop_first().push(x));
        lemma_view_seq_push(s.drop_first(), x);
        assert(view_seq(s.push(x)) =~= view_seq(s).push(view_value(x)));
    }
}

/// Two exec sequences with pointwise-equal views have equal sequence views.
pub proof fn lemma_view_seq_pointwise(a: Seq<JsValue>, b: Seq<JsValue>)
    requires
        a.len() == b.len(),
        forall|i: int| 0 <= i < a.len() ==> view_value(#[trigger] a[i]) == view_value(b[i]),
    ensures
        view_seq(a) == view_seq(b),
{
    lemma_view_seq(a);
    lemma_view_seq(b);
    assert forall|i: int| 0 <= i < a.len() implies view_seq(a)[i] == view_seq(b)[i] by {
        assert(view_seq(a)[i] == view_value(a[i]));
        assert(view_seq(b)[i] == view_value(b[i]));
    }
    assert(view_seq(a) =~= view_seq(b));
}

/// Structural height of a value; only walkable (composite) children count,
/// so the origin stored in an unknown adds nothing.
pub open spec fn height(v: SpecValue) -> nat
    decreases v,
{
    match v {
        SpecValue::Composite(cs) => 1 + height_seq(cs),
        _ => 0,
    }
}

/// Greatest height among the values of a sequence.
pub open spec fn height_seq(s: Seq<SpecValue>) -> nat
    decreases s,
{
    if s.len() == 0 {
        0
    } else {
        let h0 = height(s[0]);
        let hr = height_seq(s.drop_first());
        if h0 > hr {
            h0
        } else {
            hr
        }
    }
}

pub proof fn lemma_height_seq_ge(s: Seq<SpecValue>, i: int)
    requires
        0 <= i < s.len(),
    ensures
        height(s[i]) <= height_seq(s),
    decreases s.len(),
{
    if i > 0 {
        lemma_height_seq_ge(s.drop_first(), i - 1);
    }
}

/// One step of flattening: a composite contributes its children, anything
/// else contributes itself.
pub open spec fn flatten_one(v: SpecValue) -> Seq<SpecValue> {
    match v {
        SpecValue::Composite(gc) => gc,
        _ => seq![v],
    }
}

/// Splice every direct composite child into its parent's child list.
pub open spec fn flatten_seq(s: Seq<SpecValue>) -> Seq<SpecValue>
    decreases s,
{
    if s.len() == 0 {
        Seq::empty()
    } else {
        flatten_one(s[0]) + flatten_seq(s.drop_first())
    }
}

pub proof fn lemma_flatten_push(s: Seq<SpecValue>, x: SpecValue)
    ensures
        flatten_seq(s.push(x)) == flatten_seq(s) + flatten_one(x),
    decreases s.len(),
{
    if s.len() == 0 {
        assert(s.push(x)[0] == x);
        assert(s.push(x).drop_first() =~= s);
        assert(flatten_seq(s.push(x)) =~= flatten_seq(s) + flatten_one(x));
    } else {
        assert(s.push(x)[0] == s[0]);
        assert(s.push(x).drop_first() =~= s.drop_first().push(x));
        lemma_flatten_push(s.drop_first(), x);
        assert(flatten_seq(s.push(x)) =~= flatten_seq(s) + flatten_one(x));
    }
}

/// Top-level-only canonicalization: nested composites directly under a
/// composite are spliced into it. Assumes the children are already canonical.
pub open spec fn shallow_norm(v: SpecValue) -> SpecValue {
    match v {
        SpecValue::Composite(cs) => SpecValue::Composite(flatten_seq(cs)),
        _ => v,
    }
}

/// Canonicalize the children deeply, then the node itself.
pub open spec fn deep_norm(v: SpecValue) -> SpecValue
    decreases v,
{
    match v {
        SpecValue::Composite(cs) => shallow_norm(SpecValue::Composite(deep_norm_seq(cs))),
        _ => v,
    }
}

pub open spec fn deep_norm_seq(s: Seq<SpecValue>) -> Seq<SpecValue>
    decreases s,
{
    if s.len() == 0 {
        Seq::empty()
    } else {
        seq![deep_norm(s[0])] + deep_norm_seq(s.drop_first())
    }
}

pub proof fn lemma_deep_norm_seq_push(s: Seq<SpecValue>, x: SpecValue)
    ensures
        deep_norm_seq(s.push(x)) == deep_norm_seq(s).push(deep_norm(x)),
    decreases s.len(),
{
    if s.len() == 0 {
        assert(s.push(x)[0] == x);
        assert(s.push(x).drop_first() =~= s);
        assert(deep_norm_seq(s.push(x)) =~= deep_norm_seq(s).push(deep_norm(x)));
    } else {
        assert(s.push(x)[0] == s[0]);
        assert(s.push(x).drop_first() =~= s.drop_first().push(x));
        lemma_deep_norm_seq_push(s.drop_first(), x);
        assert(deep_norm_seq(s.push(x)) =~= deep_norm_seq(s).push(deep_norm(x)));
    }
}

impl JsValue {
    /// A structural copy whose mathematical value is the same.
    pub fn duplicate(&self) -> (r: JsValue)
        ensures
            r@ == self@,
        decreases size(self@),
    {
        match self {
            JsValue::Constant(n) => JsValue::Constant(*n),
            JsValue::Variable(id) => JsValue::Variable(*id),
            JsValue::Unknown(origin, reason) => {
                let o2 = match origin {
                    Some(b) => Some(Box::new((&**b).duplicate())),
                    None => None,
                };
                JsValue::Unknown(o2, *reason)
            },
            JsValue::Composite(children) => {
                let mut out: Vec<JsValue> = Vec::new();
                let mut i: usize = 0;
                while i < children.len()
                    invariant
                        i <= children.len(),
                        out@.len() == i,
                        self@ == SpecValue::Composite(view_seq(children@)),
                        forall|j: int|
                            0 <= j < i ==> view_value(#[trigger] out@[j]) == view_value(
                                children@[j],
                            ),
                    decreases children.len() - i,
                {
                    proof {
                        lemma_view_seq(children@);
                        lemma_size_seq_gt(view_seq(children@), i as int);
                    }
                    out.push(children[i].duplicate());
                    i += 1;
                }
                proof {
                    lemma_view_seq_pointwise(out@, children@);
                }
                JsValue::Composite(out)
            },
        }
    }

    /// Canonicalize this node only, assuming its children are canonical.
    pub fn normalize_shallow(self) -> (r: JsValue)
        ensures
            r@ == shallow_norm(self@),
    {
        match self {
            JsValue::Composite(children) => {
                let mut out: Vec<JsValue> = Vec::new();
                let mut i: usize = 0;
                while i < children.len()
                    invariant
                        i <= children.len(),
                        view_seq(out@) == flatten_seq(view_seq(children@.take(i as int))),
                    decreases children.len() - i,
                {
                    let ghost pre = out@;
                    let ghost taken = children@.take(i as int);
                    match &children[i] {
                        JsValue::Composite(gc) => {
                            let mut j: usize = 0;
                            while j < gc.len()
                                invariant
                                    j <= gc.len(),
                                    view_seq(out@) == view_seq(pre) + view_seq(
                                        gc@.take(j as int),
                                    ),
                                decreases gc.len() - j,
                            {
                                let ghost outpre = out@;
                                out.push(gc[j].duplicate());
                                proof {
                                    lemma_view_seq_push(outpre, out@[out@.len() - 1]);
                                    lemma_view_seq_push(gc@.take(j as int), gc@[j as int]);
                                    assert(gc@.take(j + 1) =~= gc@.take(j as int).push(
                                        gc@[j as int],
                                    ));
                                    assert(view_seq(out@) =~= view_seq(pre) + view_seq(
                                        gc@.take(j + 1),
                                    ));
                                }
                                j += 1;
                            }
                            proof {
                                assert(gc@.take(gc@.len() as int) =~= gc@);
                                lemma_view_seq(children@);
                                assert(view_value(children@[i as int]) == SpecValue::Composite(
                                    view_seq(gc@),
                                ));
                                lemma_flatten_push(view_seq(taken), view_value(children@[i as int]));
                                lemma_view_seq_push(taken, children@[i as int]);
                                assert(children@.take(i + 1) =~= taken.push(children@[i as int]));
                                assert(view_seq(out@) =~= flatten_seq(view_seq(children@.take(i + 1))));
                            }
                        },
                        _ => {
                            out.push(children[i].duplicate());
                            proof {
                                lemma_view_seq_push(pre, out@[out@.len() - 1]);
                                lemma_view_seq(children@);
                                lemma_flatten_push(view_seq(taken), view_value(children@[i as int]));
                                lemma_view_seq_push(taken, children@[i as int]);
                                assert(children@.take(i + 1) =~= taken.push(children@[i as int]));
                                assert(flatten_one(view_value(children@[i as int])) =~= seq![
                                    view_value(children@[i as int]),
                                ]);
                                assert(view_seq(out@) =~= flatten_seq(view_seq(children@.take(i + 1))));
                            }
                        },
                    }
                    i += 1;
                }
                proof {
                    assert(children@.take(children@.len() as int) =~= children@);
                }
                JsValue::Composite(out)
            },
            other => other,
        }
    }

    /// Deep canonicalization of the whole value.
    pub fn normalize(&self) -> (r: JsValue)
        ensures
            r@ == deep_norm(self@),
        decreases height(self@),
    {
        match self {
            JsValue::Composite(children) => {
                let mut out: Vec<JsValue> = Vec::new();
                let mut i: usize = 0;
                while i < children.len()
                    invariant
                        i <= children.len(),
                        self@ == SpecValue::Composite(view_seq(children@)),
                        view_seq(out@) == deep_norm_seq(view_seq(children@.take(i as int))),
                    decreases children.len() - i,
                {
                    let ghost pre = out@;
                    let ghost taken = children@.take(i as int);
                    proof {
                        lemma_view_seq(children@);
                        lemma_height_seq_ge(view_seq(children@), i as int);
                    }
                    let nchild = children[i].normalize();
                    out.push(nchild);
                    proof {
                        lemma_view_seq_push(pre, out@[out@.len() - 1]);
                        lemma_deep_norm_seq_push(view_seq(taken), view_value(children@[i as int]));
                        lemma_view_seq_push(taken, children@[i as int]);
                        assert(children@.take(i + 1) =~= taken.push(children@[i as int]));
                        assert(view_seq(out@) =~= deep_norm_seq(view_seq(children@.take(i + 1))));
                    }
                    i += 1;
                }
                proof {
                    assert(children@.take(children@.len() as int) =~= children@);
                }
                JsValue::Composite(out).normalize_shallow()
            },
            other => other.duplicate(),
        }
    }
}

} // verus!
