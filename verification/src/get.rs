//! The read path: a race over per-store `get` completions. The first store
//! to come back with a value wins immediately; stores that affirmatively
//! have no value or that fail are recorded, and only once every store has
//! answered without a hit is the miss classified.

use vstd::prelude::*;

use crate::errors::{error_id_set, id_set, write_mostly_error, ErrorKind};
use crate::outcome::{copy_list, GetOutcome, GetOutcomeModel, StoreError};
use crate::registry::MultiplexedBlobstoreBase;

verus! {

/// Whether one store's outcome is a positive hit: the store has the value.
pub open spec fn is_found(o: GetOutcomeModel) -> bool {
    o.result matches Ok(Some(_))
}

/// The value of a positive hit.
pub open spec fn found_value(o: GetOutcomeModel) -> Seq<u8>
    recommends
        is_found(o),
{
    match o.result {
        Ok(Some(v)) => v,
        _ => Seq::empty(),
    }
}

/// Whether any outcome in the sequence is a positive hit.
pub open spec fn has_found(outs: Seq<GetOutcomeModel>) -> bool {
    exists|i: int| 0 <= i < outs.len() && is_found(outs[i])
}

/// The value of the first positive hit in completion order: the value the
/// race returns.
pub open spec fn first_found_value(outs: Seq<GetOutcomeModel>) -> Seq<u8>
    recommends
        has_found(outs),
    decreases outs.len(),
{
    if outs.len() == 0 {
        Seq::empty()
    } else if is_found(outs[0]) {
        found_value(outs[0])
    } else {
        first_found_value(outs.drop_first())
    }
}

/// The per-store errors among a sequence of outcomes, in completion order.
pub open spec fn get_err_entries(outs: Seq<GetOutcomeModel>) -> Seq<(u64, StoreError)>
    decreases outs.len(),
{
    if outs.len() == 0 {
        Seq::empty()
    } else {
        let rest = get_err_entries(outs.drop_last());
        match outs.last().result {
            Err(e) => rest.push((outs.last().id, e)),
            _ => rest,
        }
    }
}

/// What a drained read (or presence check) with no positive hit resolves
/// to, given the errors collected on the way.
pub enum GetResolution {
    /// A store had the value; the race returns it.
    Found(Seq<u8>),
    /// No store failed and none had the value: the value is absent.
    Absent,
    /// The miss counts as a full failure: either every store errored, or
    /// the erroring stores were exactly the main stores, so the
    /// write-mostly stores' empty answers prove nothing.
    AllFailed(Seq<(u64, StoreError)>),
    /// Some stores failed, but at least one healthy store, beyond the
    /// write-mostly fallbacks, affirmatively had no data.
    SomeFailedOthersNone(Seq<(u64, StoreError)>),
}

/// Classifies a fully drained read with no positive hit.
pub open spec fn get_drain_resolution(
    main_ids: Seq<u64>,
    total: int,
    errs: Seq<(u64, StoreError)>,
) -> GetResolution {
    if errs.len() == 0 {
        GetResolution::Absent
    } else if errs.len() == total || error_id_set(errs) == id_set(main_ids) {
        GetResolution::AllFailed(errs)
    } else {
        GetResolution::SomeFailedOthersNone(errs)
    }
}

/// What a multiplexed read resolves to, as a function of every store's
/// outcome in completion order: the first positive hit wins, and a fully
/// drained miss is classified from the collected errors.
pub open spec fn get_resolution(
    main_ids: Seq<u64>,
    total: int,
    outs: Seq<GetOutcomeModel>,
) -> GetResolution {
    if has_found(outs) {
        GetResolution::Found(first_found_value(outs))
    } else {
        get_drain_resolution(main_ids, total, get_err_entries(outs))
    }
}

/// Whether an executable read result carries exactly a given resolution.
pub open spec fn get_result_matches(
    r: Result<Option<Vec<u8>>, ErrorKind>,
    a: GetResolution,
) -> bool {
    match a {
        GetResolution::Found(v) => r matches Ok(Some(b)) && b@ == v,
        GetResolution::Absent => r matches Ok(None),
        GetResolution::AllFailed(es) => r matches Err(ErrorKind::AllFailed(e)) && e@ == es,
        GetResolution::SomeFailedOthersNone(es) => r matches Err(
            ErrorKind::SomeFailedOthersNone(e),
        ) && e@ == es,
    }
}

/// Classifies a drained read with no positive hit: no errors means the
/// value is simply absent; otherwise the write-mostly-aware rule decides
/// between a full failure and a partial one.
fn classify_drain(
    main_ids: &Vec<u64>,
    total: usize,
    errors: Vec<(u64, StoreError)>,
) -> (r: Result<Option<Vec<u8>>, ErrorKind>)
    ensures
        get_result_matches(r, get_drain_resolution(main_ids@, total as int, errors@)),
{
    if errors.len() == 0 {
        Ok(None)
    } else if errors.len() == total {
        Err(ErrorKind::AllFailed(errors))
    } else {
        Err(write_mostly_error(main_ids, errors))
    }
}

/// The running state of one multiplexed read: how many stores have not
/// answered yet, and the errors seen so far. Completion events are fed in
/// one at a time; the read is decided the moment a store returns a value,
/// or when the last store has answered.
pub struct GetState {
    main_ids: Vec<u64>,
    total: usize,
    pending: usize,
    errors: Vec<(u64, StoreError)>,
}

impl GetState {
    /// The identifiers of the main stores, for the final classification.
    pub closed spec fn spec_main_ids(&self) -> Seq<u64> {
        self.main_ids@
    }

    /// How many stores the read fanned out to.
    pub closed spec fn spec_total(&self) -> int {
        self.total as int
    }

    /// How many stores have not answered yet.
    pub closed spec fn spec_pending(&self) -> int {
        self.pending as int
    }

    /// The errors collected so far, in completion order.
    pub closed spec fn spec_errors(&self) -> Seq<(u64, StoreError)> {
        self.errors@
    }

    /// The state is consistent with some run over `total` stores.
    pub open spec fn wf(&self) -> bool {
        &&& 0 <= self.spec_pending() <= self.spec_total()
        &&& self.spec_errors().len() <= self.spec_total() - self.spec_pending()
    }

    /// Starts a read over the façade's stores.
    pub fn new(base: &MultiplexedBlobstoreBase) -> (r: Self)
        requires
            base.wf(),
        ensures
            r.wf(),
            r.spec_main_ids() == base.spec_main_ids(),
            r.spec_total() == base.spec_total_stores(),
            r.spec_pending() == base.spec_total_stores(),
            r.spec_errors() == Seq::<(u64, StoreError)>::empty(),
    {
        let total = base.total_stores();
        GetState { main_ids: base.main_ids_copy(), total, pending: total, errors: Vec::new() }
    }

    /// Feeds one store's completed outcome into the read.
    ///
    /// Returns `Some` the instant the read is decided: immediately with the
    /// value on a positive hit (remaining stores are left to finish in the
    /// background), or with the drained-miss classification when this was
    /// the last outstanding store. Returns `None` while more answers are
    /// needed.
    pub fn on_outcome(&mut self, outcome: GetOutcome) -> (r: Option<
        Result<Option<Vec<u8>>, ErrorKind>,
    >)
        requires
            old(self).wf(),
            old(self).spec_pending() > 0,
        ensures
            final(self).wf(),
            final(self).spec_main_ids() == old(self).spec_main_ids(),
            final(self).spec_total() == old(self).spec_total(),
            outcome.result matches Ok(Some(v)) ==> {
                &&& r matches Some(Ok(Some(w))) && w == v
                &&& final(self).spec_pending() == old(self).spec_pending()
                &&& final(self).spec_errors() == old(self).spec_errors()
            },
            outcome.result matches Ok(None) ==> {
                &&& final(self).spec_pending() == old(self).spec_pending() - 1
                &&& final(self).spec_errors() == old(self).spec_errors()
            },
            outcome.result matches Err(e) ==> {
                &&& final(self).spec_pending() == old(self).spec_pending() - 1
                &&& final(self).spec_errors() == old(self).spec_errors().push((outcome.id, e))
            },
            !(outcome.result matches Ok(Some(_))) ==> if final(self).spec_pending() == 0 {
                r matches Some(res) && get_result_matches(
                    res,
                    get_drain_resolution(
                        final(self).spec_main_ids(),
                        final(self).spec_total(),
                        final(self).spec_errors(),
                    ),
                )
            } else {
                r is None
            },
    {
        match outcome.result {
            Ok(Some(v)) => Some(Ok(Some(v))),
            Ok(None) => {
                self.pending = self.pending - 1;
                if self.pending == 0 {
                    Some(classify_drain(&self.main_ids, self.total, copy_list(&self.errors)))
                } else {
                    None
                }
            },
            Err(e) => {
                self.pending = self.pending - 1;
                self.errors.push((outcome.id, e));
                if self.pending == 0 {
                    Some(classify_drain(&self.main_ids, self.total, copy_list(&self.errors)))
                } else {
                    None
                }
            },
        }
    }
}

/// The first positive hit is at position `i`: nothing before it hit, so
/// the race's value is that store's value.
proof fn lemma_first_found_at(outs: Seq<GetOutcomeModel>, i: int)
    requires
        0 <= i < outs.len(),
        !has_found(outs.take(i)),
        is_found(outs[i]),
    ensures
        has_found(outs),
        first_found_value(outs) == found_value(outs[i]),
    decreases i,
{
    if i == 0 {
        assert(is_found(outs[0]));
    } else {
        assert(!is_found(outs[0])) by {
            if is_found(outs[0]) {
                assert(outs.take(i)[0] == outs[0]);
                assert(has_found(outs.take(i)));
            }
        }
        let tail = outs.drop_first();
        assert(!has_found(tail.take(i - 1))) by {
            if has_found(tail.take(i - 1)) {
                let j = choose|j: int|
                    0 <= j < tail.take(i - 1).len() && #[trigger] is_found(tail.take(i - 1)[j]);
                assert(tail.take(i - 1)[j] == outs[j + 1]);
                assert(outs.take(i)[j + 1] == outs[j + 1]);
                assert(has_found(outs.take(i)));
            }
        }
        assert(tail[i - 1] == outs[i]);
        lemma_first_found_at(tail, i - 1);
        assert(has_found(outs)) by {
            let j = choose|j: int| 0 <= j < tail.len() && #[trigger] is_found(tail[j]);
            assert(outs[j + 1] == tail[j]);
        }
    }
}

/// The race's value really is some hitting store's value.
proof fn lemma_first_found_is_some_hit(outs: Seq<GetOutcomeModel>)
    requires
        has_found(outs),
    ensures
        exists|i: int|
            0 <= i < outs.len() && is_found(outs[i]) && found_value(outs[i])
                == first_found_value(outs),
    decreases outs.len(),
{
    if is_found(outs[0]) {
        assert(is_found(outs[0]) && found_value(outs[0]) == first_found_value(outs));
    } else {
        let tail = outs.drop_first();
        assert(has_found(tail)) by {
            let j = choose|j: int| 0 <= j < outs.len() && #[trigger] is_found(outs[j]);
            assert(tail[j - 1] == outs[j]);
        }
        lemma_first_found_is_some_hit(tail);
        let i = choose|i: int|
            0 <= i < tail.len() && is_found(tail[i]) && found_value(tail[i])
                == first_found_value(tail);
        assert(outs[i + 1] == tail[i]);
        assert(is_found(outs[i + 1]) && found_value(outs[i + 1]) == first_found_value(outs));
    }
}

/// Resolves a fully drained read from every store's outcome in completion
/// order: the race is decided by the first positive hit, and a miss is
/// classified from the collected errors.
pub fn blobstore_get(base: &MultiplexedBlobstoreBase, outcomes: &Vec<GetOutcome>) -> (r: Result<
    Option<Vec<u8>>,
    ErrorKind,
>)
    requires
        base.wf(),
        outcomes@.len() == base.spec_total_stores(),
    ensures
        get_result_matches(
            r,
            get_resolution(base.spec_main_ids(), base.spec_total_stores(), outcomes.deep_view()),
        ),
{
    let ghost outs = outcomes.deep_view();
    let total = base.total_stores();
    let mut errors: Vec<(u64, StoreError)> = Vec::new();
    let mut i: usize = 0;
    while i < outcomes.len()
        invariant
            0 <= i <= outcomes@.len(),
            outcomes@.len() == total,
            total == base.spec_total_stores(),
            base.wf(),
            outs == outcomes.deep_view(),
            !has_found(outs.take(i as int)),
            errors@ == get_err_entries(outs.take(i as int)),
        decreases outcomes@.len() - i,
    {
        let outcome = &outcomes[i];
        proof {
            assert(outs[i as int] == outcomes@[i as int].deep_view());
            assert(outs.take(i + 1).drop_last() =~= outs.take(i as int));
            assert(outs.take(i + 1).last() == outs[i as int]);
        }
        match &outcome.result {
            Ok(Some(v)) => {
                proof {
                    lemma_first_found_at(outs, i as int);
                }
                return Ok(Some(copy_list(v)));
            },
            Ok(None) => {
                proof {
                    assert(!has_found(outs.take(i + 1))) by {
                        if has_found(outs.take(i + 1)) {
                            let j = choose|j: int|
                                0 <= j < outs.take(i + 1).len() && #[trigger] is_found(
                                    outs.take(i + 1)[j],
                                );
                            if j < i {
                                assert(outs.take(i as int)[j] == outs[j]);
                                assert(has_found(outs.take(i as int)));
                            }
                        }
                    }
                }
            },
            Err(e) => {
                errors.push((outcome.id, *e));
                proof {
                    assert(!has_found(outs.take(i + 1))) by {
                        if has_found(outs.take(i + 1)) {
                            let j = choose|j: int|
                                0 <= j < outs.take(i + 1).len() && #[trigger] is_found(
                                    outs.take(i + 1)[j],
                                );
                            if j < i {
                                assert(outs.take(i as int)[j] == outs[j]);
                                assert(has_found(outs.take(i as int)));
                            }
                        }
                    }
                }
            },
        }
        i += 1;
    }
    proof {
        assert(outs.take(outcomes@.len() as int) =~= outs);
    }
    classify_drain(base.main_ids(), total, errors)
}

/// The race is valid: a multiplexed read finds a value exactly when at
/// least one store's outcome carries one, and the value returned is one
/// of those stores' values — whichever store completes first with a hit
/// may win, and no failure of the other stores can spoil it.
pub proof fn lemma_get_race_valid(main_ids: Seq<u64>, total: int, outs: Seq<GetOutcomeModel>)
    ensures
        (get_resolution(main_ids, total, outs) matches GetResolution::Found(v)) <==> has_found(
            outs,
        ),
        get_resolution(main_ids, total, outs) matches GetResolution::Found(v) ==> exists|i: int|
            0 <= i < outs.len() && #[trigger] is_found(outs[i]) && found_value(outs[i]) == v,
{
    if has_found(outs) {
        lemma_first_found_is_some_hit(outs);
        let i = choose|i: int|
            0 <= i < outs.len() && is_found(outs[i]) && found_value(outs[i])
                == first_found_value(outs);
        assert(is_found(outs[i]) && found_value(outs[i]) == first_found_value(outs));
    }
}

/// A read that collected no errors saw no failing store.
proof fn lemma_no_get_errors(outs: Seq<GetOutcomeModel>)
    requires
        get_err_entries(outs).len() == 0,
    ensures
        forall|i: int| 0 <= i < outs.len() ==> !(#[trigger] outs[i].result matches Err(_)),
    decreases outs.len(),
{
    if outs.len() > 0 {
        assert(!(outs.last().result matches Err(_)));
        lemma_no_get_errors(outs.drop_last());
        assert forall|i: int| 0 <= i < outs.len() implies !(#[trigger] outs[i].result matches Err(
            _,
        )) by {
            if i < outs.len() - 1 {
                assert(outs.drop_last()[i] == outs[i]);
            } else {
                assert(outs[i] == outs.last());
            }
        }
    }
}

/// A read over stores that all affirmatively had nothing collects no
/// errors.
proof fn lemma_none_outcomes_have_no_errors(outs: Seq<GetOutcomeModel>)
    requires
        forall|i: int| 0 <= i < outs.len() ==> (#[trigger] outs[i].result matches Ok(None)),
    ensures
        get_err_entries(outs).len() == 0,
    decreases outs.len(),
{
    if outs.len() > 0 {
        assert(outs[outs.len() - 1].result matches Ok(None));
        assert forall|i: int|
            0 <= i < outs.drop_last().len() implies (#[trigger] outs.drop_last()[i].result
            matches Ok(None)) by {
            assert(outs.drop_last()[i] == outs[i]);
        }
        lemma_none_outcomes_have_no_errors(outs.drop_last());
    }
}

/// A read answers "absent" exactly when every store affirmatively had no
/// value: no failure is ever mistaken for absence.
pub proof fn lemma_get_absent_is_unanimous(main_ids: Seq<u64>, total: int, outs: Seq<
    GetOutcomeModel,
>)
    requires
        total > 0,
        outs.len() == total,
    ensures
        (get_resolution(main_ids, total, outs) is Absent) <==> (forall|i: int|
            0 <= i < outs.len() ==> (#[trigger] outs[i].result matches Ok(None))),
{
    if get_resolution(main_ids, total, outs) is Absent {
        lemma_no_get_errors(outs);
        assert forall|i: int| 0 <= i < outs.len() implies (#[trigger] outs[i].result matches Ok(
            None,
        )) by {
            assert(!is_found(outs[i]));
            assert(!(outs[i].result matches Err(_)));
        }
    }
    if forall|i: int| 0 <= i < outs.len() ==> (#[trigger] outs[i].result matches Ok(None)) {
        lemma_none_outcomes_have_no_errors(outs);
        assert(!has_found(outs)) by {
            if has_found(outs) {
                let i = choose|i: int| 0 <= i < outs.len() && is_found(outs[i]);
                assert(outs[i].result matches Ok(None));
            }
        }
    }
}

} // verus!
