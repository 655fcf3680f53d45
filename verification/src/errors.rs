//! The closed taxonomy of reconciliation outcomes: every way the
//! multiplexer can classify disagreement between stores, and the rule that
//! distinguishes "all stores failed" from "some failed while the rest had
//! no data" once write-mostly stores are in play.

use vstd::prelude::*;

use crate::outcome::StoreError;

verus! {

/// A reconciliation failure, derived purely from which stores succeeded,
/// failed, or affirmatively returned no data. Per-store errors are carried
/// along in completion order.
#[derive(Clone, Debug, PartialEq, Eq)]
pub enum ErrorKind {
    /// Some stores failed, and the others affirmatively had no data.
    SomeFailedOthersNone(Vec<(u64, StoreError)>),
    /// Every store that was asked failed.
    AllFailed(Vec<(u64, StoreError)>),
    /// Scrub: stores disagree on the content for one key. The first list
    /// groups store identifiers by the value they hold; the second names
    /// the stores that do not have the value at all.
    ValueMismatch(Vec<Vec<u64>>, Vec<u64>),
    /// Scrub: one consistent value exists, but not every store has it.
    /// The value travels along as a repair hint.
    SomeMissingItem {
        /// Main stores that are missing the value.
        missing_main: Vec<u64>,
        /// Write-mostly stores that are missing the value.
        missing_write_mostly: Vec<u64>,
        /// The value the remaining stores agree on, if any.
        value: Option<Vec<u8>>,
    },
    /// A write failed on several stores at once, leaving quorum unreachable.
    MultiplePutFailures(Vec<(u64, StoreError)>),
}

/// How a multiplexed write fails.
#[derive(Clone, Debug, PartialEq, Eq)]
pub enum PutError {
    /// The configured write quorum exceeds the number of stores, so no
    /// write can ever be durable enough; refused before any store is asked.
    NotEnoughStores {
        /// How many stores the multiplexer has.
        available: usize,
        /// How many confirmed writes the quorum demands.
        needed: usize,
    },
    /// Exactly one store failed overall: its raw error, unwrapped.
    Store(StoreError),
    /// A reconciliation classification; for writes this is always
    /// [`ErrorKind::MultiplePutFailures`].
    Kind(ErrorKind),
}

/// The set of store identifiers named in a list of identifiers.
pub open spec fn id_set(ids: Seq<u64>) -> Set<u64> {
    Set::new(|id: u64| ids.contains(id))
}

/// The set of store identifiers that appear in a list of per-store errors.
pub open spec fn error_id_set(errs: Seq<(u64, StoreError)>) -> Set<u64> {
    Set::new(|id: u64| exists|i: int| 0 <= i < errs.len() && errs[i].0 == id)
}

/// Whether a list of identifiers contains a given identifier.
fn ids_contain(ids: &Vec<u64>, id: u64) -> (r: bool)
    ensures
        r == ids@.contains(id),
{
    let mut k: usize = 0;
    while k < ids.len()
        invariant
            0 <= k <= ids@.len(),
            forall|j: int| 0 <= j < k ==> ids@[j] != id,
        decreases ids@.len() - k,
    {
        if ids[k] == id {
            return true;
        }
        k += 1;
    }
    false
}

/// Whether any entry of a per-store error list names a given identifier.
fn errors_contain(errs: &Vec<(u64, StoreError)>, id: u64) -> (r: bool)
    ensures
        r == error_id_set(errs@).contains(id),
{
    let mut k: usize = 0;
    while k < errs.len()
        invariant
            0 <= k <= errs@.len(),
            forall|j: int| 0 <= j < k ==> errs@[j].0 != id,
        decreases errs@.len() - k,
    {
        if errs[k].0 == id {
            return true;
        }
        k += 1;
    }
    false
}

/// Whether the stores that errored are exactly the main stores.
fn errored_exactly_main(main_ids: &Vec<u64>, errs: &Vec<(u64, StoreError)>) -> (r: bool)
    ensures
        r == (error_id_set(errs@) == id_set(main_ids@)),
{
    let mut k: usize = 0;
    while k < main_ids.len()
        invariant
            0 <= k <= main_ids@.len(),
            forall|j: int| 0 <= j < k ==> error_id_set(errs@).contains(#[trigger] main_ids@[j]),
        decreases main_ids@.len() - k,
    {
        if !errors_contain(errs, main_ids[k]) {
            proof {
                assert(!id_set(main_ids@).contains(main_ids@[k as int])
                    || !error_id_set(errs@).contains(main_ids@[k as int]));
            }
            return false;
        }
        k += 1;
    }
    let mut k: usize = 0;
    while k < errs.len()
        invariant
            0 <= k <= errs@.len(),
            forall|j: int| 0 <= j < main_ids@.len()
                ==> error_id_set(errs@).contains(#[trigger] main_ids@[j]),
            forall|j: int| 0 <= j < k ==> id_set(main_ids@).contains(#[trigger] errs@[j].0),
        decreases errs@.len() - k,
    {
        if !ids_contain(main_ids, errs[k].0) {
            proof {
                assert(error_id_set(errs@).contains(errs@[k as int].0));
            }
            return false;
        }
        k += 1;
    }
    proof {
        assert forall|id: u64| id_set(main_ids@).contains(id)
            implies error_id_set(errs@).contains(id) by {
            let j = choose|j: int| 0 <= j < main_ids@.len() && main_ids@[j] == id;
            assert(error_id_set(errs@).contains(main_ids@[j]));
        }
        assert forall|id: u64| error_id_set(errs@).contains(id)
            implies id_set(main_ids@).contains(id) by {
            let j = choose|j: int| 0 <= j < errs@.len() && errs@[j].0 == id;
            assert(id_set(main_ids@).contains(errs@[j].0));
        }
        assert(error_id_set(errs@) =~= id_set(main_ids@));
    }
    true
}

/// Classifies a drained operation that saw failures but no positive hit,
/// aware of write-mostly stores: when the failing stores are exactly the
/// main stores, the write-mostly stores' "no data" answers prove nothing
/// (they might simply not be populated yet), so the whole operation counts
/// as failed; otherwise some store genuinely had no data.
pub fn write_mostly_error(main_ids: &Vec<u64>, errors: Vec<(u64, StoreError)>) -> (r: ErrorKind)
    ensures
        error_id_set(errors@) == id_set(main_ids@)
            ==> (r matches ErrorKind::AllFailed(es) && es@ == errors@),
        error_id_set(errors@) != id_set(main_ids@)
            ==> (r matches ErrorKind::SomeFailedOthersNone(es) && es@ == errors@),
{
    if errored_exactly_main(main_ids, &errors) {
        ErrorKind::AllFailed(errors)
    } else {
        ErrorKind::SomeFailedOthersNone(errors)
    }
}

} // verus!
