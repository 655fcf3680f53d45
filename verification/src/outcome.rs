//! Per-store operation outcomes: the plain values that one underlying blob
//! store hands back for a single `get`, `put` or `is_present` call, and the
//! small settlement steps that turn a timed call's raw result into the
//! outcome the reconcilers consume.

use vstd::prelude::*;

verus! {

/// Per-call deadline applied to every individual store operation, in
/// milliseconds. A store call that exceeds it is settled as a failure with
/// `StoreError::OpTimeout`, never left pending.
pub const REQUEST_TIMEOUT_MS: u64 = 600_000;

/// An error reported by (or on behalf of) one underlying store.
///
/// The multiplexer never looks inside a store's error; it only collects and
/// counts them. `Other` carries an opaque code supplied by the caller, while
/// `OpTimeout` is the synthetic error substituted when a single store call
/// exceeded its deadline.
#[derive(Clone, Copy, Debug, PartialEq, Eq, Hash, Structural)]
pub enum StoreError {
    /// The per-store operation deadline elapsed before the store answered.
    OpTimeout,
    /// Any other failure of the store, as an opaque code.
    Other(u64),
}

/// Witness that a timed operation ran out of time before producing a result.
#[derive(Clone, Copy, Debug, PartialEq, Eq, Structural)]
pub struct Elapsed;

/// What a store reports for a `put` that went through.
#[derive(Clone, Copy, Debug, PartialEq, Eq, Structural)]
pub enum OverwriteStatus {
    /// The store did not say whether an existing value was replaced.
    NotChecked,
    /// The key was new to the store.
    New,
    /// An existing value was replaced.
    Overwrote,
    /// An existing value was found and the write was not applied.
    Prevented,
}

/// What a store reports for an `is_present` probe.
#[derive(Clone, Copy, Debug, PartialEq, Eq, Structural)]
pub enum Presence {
    /// The store has the value.
    Present,
    /// The store affirmatively does not have the value.
    Absent,
    /// The store could not decide; the reason travels along.
    ProbablyNotPresent(StoreError),
}

/// One store's settled answer to a `get`: which store answered, and either
/// the value it holds, an affirmative "no value", or its error.
///
/// A sequence of these, in completion order, is what the read and scrub
/// reconcilers consume.
#[derive(Debug, PartialEq, Eq)]
pub struct GetOutcome {
    /// The identifier of the store that produced this outcome.
    pub id: u64,
    /// The store's own result for the call.
    pub result: Result<Option<Vec<u8>>, StoreError>,
}

/// The mathematical shape of a [`GetOutcome`]: the value, if any, as a
/// sequence of bytes.
pub struct GetOutcomeModel {
    /// The identifier of the store that produced this outcome.
    pub id: u64,
    /// The store's own result for the call.
    pub result: Result<Option<Seq<u8>>, StoreError>,
}

impl DeepView for GetOutcome {
    type V = GetOutcomeModel;

    open spec fn deep_view(&self) -> GetOutcomeModel {
        GetOutcomeModel {
            id: self.id,
            result: match self.result {
                Ok(Some(ref v)) => Ok(Some(v@)),
                Ok(None) => Ok(None),
                Err(e) => Err(e),
            },
        }
    }
}

/// Copies a list of plain values, such as store identifiers or collected
/// per-store errors.
pub fn copy_list<T: Copy>(v: &Vec<T>) -> (r: Vec<T>)
    ensures
        r@ == v@,
{
    let mut r: Vec<T> = Vec::new();
    let mut k: usize = 0;
    while k < v.len()
        invariant
            0 <= k <= v@.len(),
            r@ == v@.subrange(0, k as int),
        decreases v@.len() - k,
    {
        r.push(v[k]);
        proof {
            assert(r@ =~= v@.subrange(0, k + 1));
        }
        k += 1;
    }
    proof {
        assert(r@ =~= v@);
    }
    r
}

/// Collapses a timed store call into a plain result: if the deadline
/// elapsed, the outcome becomes the synthetic operation-timeout error,
/// otherwise the store's own result stands.
pub fn remap_timeout_result<O>(
    timeout_or_result: Result<Result<O, StoreError>, Elapsed>,
) -> (r: Result<O, StoreError>)
    ensures
        match timeout_or_result {
            Ok(inner) => r == inner,
            Err(_) => r matches Err(e) && e == StoreError::OpTimeout,
        },
{
    match timeout_or_result {
        Ok(inner) => inner,
        Err(_) => Err(StoreError::OpTimeout),
    }
}

/// Settles one store's write attempt: pairs the store's identifier with its
/// timed result, substituting the synthetic timeout error if the deadline
/// elapsed. This is the per-store tail of a fanned-out write; the caller
/// turns it into a write-coordinator event.
pub fn inner_put(
    blobstore_id: u64,
    timeout_or_res: Result<Result<OverwriteStatus, StoreError>, Elapsed>,
) -> (r: (u64, Result<OverwriteStatus, StoreError>))
    ensures
        r.0 == blobstore_id,
        match timeout_or_res {
            Ok(inner) => r.1 == inner,
            Err(_) => r.1 matches Err(e) && e == StoreError::OpTimeout,
        },
{
    (blobstore_id, remap_timeout_result(timeout_or_res))
}

/// Settles one store's read attempt: the per-store tail of a fanned-out
/// `get`, with the deadline already raced against the call.
pub fn multiplexed_get_one(
    blobstore_id: u64,
    timeout_or_res: Result<Result<Option<Vec<u8>>, StoreError>, Elapsed>,
) -> (r: GetOutcome)
    ensures
        r.id == blobstore_id,
        match timeout_or_res {
            Ok(inner) => r.result == inner,
            Err(_) => r.result matches Err(e) && e == StoreError::OpTimeout,
        },
{
    GetOutcome { id: blobstore_id, result: remap_timeout_result(timeout_or_res) }
}

} // verus!
