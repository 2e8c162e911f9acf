//! Statement parameters for CRUD operations.
//!
//! [`CrudParams`] bundles the consistency level, request timeout and
//! write timestamp that a client applies uniformly to the statements it
//! executes. Which of them a statement receives, in which order and from
//! which fields is decided here; setting one on a concrete statement is a
//! builder call on the driver's side, reached through the
//! [`CrudStatement`] interface. Verus refuses the ORM's builder types
//! themselves (their definitions are bounded by traits of the outside
//! crates), so unverified code implements [`CrudStatement`] for thin
//! wrappers of them.

use vstd::prelude::*;

use core::time::Duration;
use scylla::statement::Consistency;

verus! {

/// Declares the consistency-level enum of the database driver.
#[verifier::external_type_specification]
pub struct ExConsistency(Consistency);

/// A statement builder that accepts execution parameters: each call hands
/// the configured builder back.
pub trait CrudStatement: Sized {
    /// Sets the statement's consistency level.
    fn with_consistency(self, consistency: Consistency) -> Self;

    /// Sets or clears the statement's request timeout.
    fn with_timeout(self, timeout: Option<Duration>) -> Self;

    /// Sets or clears the statement's write timestamp.
    fn with_timestamp(self, timestamp: Option<i64>) -> Self;
}

/// Parameters applied to every CRUD statement a client executes: the
/// consistency level, an optional request timeout, and an optional write
/// timestamp.
#[derive(Debug, Clone, Copy)]
pub struct CrudParams {
    /// The consistency level required of the cluster for the operation.
    pub consistency: Consistency,
    /// How long the driver waits for the operation, if bounded.
    pub timeout: Option<Duration>,
    /// The write timestamp to attach, if any.
    pub timestamp: Option<i64>,
}

impl Default for CrudParams {
    /// The driver's default consistency level, no timeout and no
    /// timestamp.
    fn default() -> (r: Self)
        ensures
            r.consistency == Consistency::LocalQuorum,
            r.timeout is None,
            r.timestamp is None,
    {
        CrudParams { consistency: Consistency::LocalQuorum, timeout: None, timestamp: None }
    }
}

/// A borrowed set of parameters converts to an owned copy.
impl From<&CrudParams> for CrudParams {
    fn from(value: &CrudParams) -> (r: Self) {
        *value
    }
}

impl vstd::std_specs::convert::FromSpecImpl<&CrudParams> for CrudParams {
    open spec fn obeys_from_spec() -> bool {
        true
    }

    open spec fn from_spec(value: &CrudParams) -> CrudParams {
        *value
    }
}

impl CrudParams {
    /// Applies these parameters to a batch statement: its consistency
    /// level and write timestamp — not the timeout — are set from the
    /// fields here, in that order.
    pub fn apply_batch<B: CrudStatement>(&self, batch: B) -> B {
        batch.with_consistency(self.consistency).with_timestamp(self.timestamp)
    }

    /// Applies these parameters to a single-statement query: its
    /// consistency level, timeout and write timestamp are set from the
    /// fields here, in that order.
    pub fn apply_query<Q: CrudStatement>(&self, query: Q) -> Q {
        query.with_consistency(self.consistency).with_timeout(self.timeout).with_timestamp(
            self.timestamp,
        )
    }
}

} // verus!
