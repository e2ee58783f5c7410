//! The caller-supplied simplification rule set, applied by the resolver to a
//! fixpoint, together with a few ready-made rule sets.

use crate::value::{shallow_norm, JsValue, SpecValue};
use vstd::prelude::*;

verus! {

/// Failure raised by a simplification visitor. Resolution propagates it to
/// the top-level caller unchanged; no partial result is returned.
#[derive(Debug)]
pub struct VisitError {
    pub message: String,
}

impl VisitError {
    pub fn new(message: String) -> (r: VisitError)
        ensures
            r.message == message,
    {
        VisitError { message }
    }
}

/// A simplification rule set.
///
/// `spec_ok` says on which values a visit succeeds and `spec_visit` what it
/// then returns: the rewritten value and whether anything changed. `measure`
/// bounds the rewriting: every reported change must strictly shrink the
/// measure of the re-canonicalized result (`lemma_measure_decreases`), which
/// is what makes the resolver's fixpoint loop terminate.
pub trait Visitor: Sized {
    spec fn spec_ok(&self, v: SpecValue) -> bool;

    spec fn spec_visit(&self, v: SpecValue) -> (SpecValue, bool);

    spec fn measure(&self, v: SpecValue) -> nat;

    proof fn lemma_measure_decreases(&self, v: SpecValue)
        ensures
            self.spec_ok(v) && self.spec_visit(v).1 ==> self.measure(
                shallow_norm(self.spec_visit(v).0),
            ) < self.measure(v),
    ;

    /// Apply the rule set once.
    fn visit(&self, v: JsValue) -> (r: Result<(JsValue, bool), VisitError>)
        ensures
            match r {
                Ok(p) => self.spec_ok(v@) && (p.0@, p.1) == self.spec_visit(v@),
                Err(_) => !self.spec_ok(v@),
            },
    ;
}

/// The rule set that changes nothing: every value is already as simple as it
/// gets.
pub struct IdentityVisitor;

impl Visitor for IdentityVisitor {
    open spec fn spec_ok(&self, v: SpecValue) -> bool {
        true
    }

    open spec fn spec_visit(&self, v: SpecValue) -> (SpecValue, bool) {
        (v, false)
    }

    open spec fn measure(&self, v: SpecValue) -> nat {
        0
    }

    proof fn lemma_measure_decreases(&self, v: SpecValue) {
    }

    fn visit(&self, v: JsValue) -> (r: Result<(JsValue, bool), VisitError>) {
        Ok((v, false))
    }
}

/// A strictly reducing rule set: a positive constant steps down by one at
/// each visit. It exists to exercise the fixpoint loop.
pub struct DecrementVisitor;

impl Visitor for DecrementVisitor {
    open spec fn spec_ok(&self, v: SpecValue) -> bool {
        true
    }

    open spec fn spec_visit(&self, v: SpecValue) -> (SpecValue, bool) {
        match v {
            SpecValue::Constant(n) => if n > 0 {
                (SpecValue::Constant((n - 1) as i64), true)
            } else {
                (v, false)
            },
            _ => (v, false),
        }
    }

    open spec fn measure(&self, v: SpecValue) -> nat {
        match v {
            SpecValue::Constant(n) => if n > 0 {
                n as nat
            } else {
                0
            },
            _ => 0,
        }
    }

    proof fn lemma_measure_decreases(&self, v: SpecValue) {
    }

    fn visit(&self, v: JsValue) -> (r: Result<(JsValue, bool), VisitError>) {
        match v {
            JsValue::Constant(n) => {
                if n > 0 {
                    Ok((JsValue::Constant(n - 1), true))
                } else {
                    Ok((JsValue::Constant(n), false))
                }
            },
            other => Ok((other, false)),
        }
    }
}

/// The rule set that refuses every value; it exists to exercise failure
/// propagation.
pub struct FailingVisitor;

impl Visitor for FailingVisitor {
    open spec fn spec_ok(&self, v: SpecValue) -> bool {
        false
    }

    open spec fn spec_visit(&self, v: SpecValue) -> (SpecValue, bool) {
        (v, false)
    }

    open spec fn measure(&self, v: SpecValue) -> nat {
        0
    }

    proof fn lemma_measure_decreases(&self, v: SpecValue) {
    }

    fn visit(&self, v: JsValue) -> (r: Result<(JsValue, bool), VisitError>) {
        Err(VisitError::new("simplification refused".to_string()))
    }
}

} // verus!
