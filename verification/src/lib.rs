//! Resolution of symbolic variable references inside a graph of analyzed
//! expression values.
//!
//! Given a read-only map from variable identity to the expression last
//! assigned to it, and an arbitrary expression value possibly containing
//! variable references, `resolver::link` produces an equivalent value with
//! every resolvable reference replaced by its resolved definition, simplified
//! to a fixpoint by a caller-supplied rule set, and with unresolvable or
//! circular references explicitly marked as unknown rather than looping.

pub mod cache;
pub mod graph;
pub mod idset;
pub mod laws;
pub mod resolver;
pub mod value;
pub mod visitor;
