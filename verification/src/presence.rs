//! The presence reconciler: folds independent per-store `is_present`
//! answers into one verdict, under one of two policies. The regular policy
//! is satisfied by any one store holding the value; the comprehensive
//! policy demands it of every store and declares the value absent the
//! instant any store says so. Ambiguity degrades to a soft "probably not
//! present" rather than a hard failure.

use vstd::prelude::*;

use crate::errors::ErrorKind;
use crate::outcome::{copy_list, Presence, StoreError};
use crate::registry::MultiplexedBlobstoreBase;

verus! {

/// One store's settled answer to an `is_present` probe.
#[derive(Clone, Copy, Debug, PartialEq, Eq)]
pub struct PresenceOutcome {
    /// The identifier of the store that answered.
    pub id: u64,
    /// The store's own answer.
    pub result: Result<Presence, StoreError>,
}

/// Why a presence check could not give a firm answer.
#[derive(Clone, Debug, PartialEq, Eq)]
pub enum PresenceDoubt {
    /// Some stores failed (or themselves answered with doubt) while the
    /// rest saw nothing; their errors travel along.
    SomeFailed(Vec<(u64, StoreError)>),
    /// The whole check ran out of time before every store answered.
    CheckTimeout,
}

/// The multiplexer's verdict on a presence check.
#[derive(Clone, Debug, PartialEq, Eq)]
pub enum PresenceVerdict {
    /// The check's policy is satisfied that the value is present.
    Present,
    /// The check's policy is satisfied that the value is absent.
    Absent,
    /// No firm answer; lean towards "not present" and say why.
    ProbablyNotPresent(PresenceDoubt),
}

/// Whether a store affirmed presence.
pub open spec fn is_present_hit(o: PresenceOutcome) -> bool {
    o.result matches Ok(Presence::Present)
}

/// Whether a store affirmed absence.
pub open spec fn is_absent_hit(o: PresenceOutcome) -> bool {
    o.result matches Ok(Presence::Absent)
}

/// Whether a store's answer counts as a failure: an outright error, or the
/// store's own "probably not present", which proves nothing either way.
pub open spec fn is_presence_error(o: PresenceOutcome) -> bool {
    o.result matches Err(_) || o.result matches Ok(Presence::ProbablyNotPresent(_))
}

/// The error a failing answer carries.
pub open spec fn presence_error_of(o: PresenceOutcome) -> StoreError
    recommends
        is_presence_error(o),
{
    match o.result {
        Err(e) => e,
        Ok(Presence::ProbablyNotPresent(e)) => e,
        _ => StoreError::OpTimeout,
    }
}

/// Whether any store affirmed presence.
pub open spec fn has_present(outs: Seq<PresenceOutcome>) -> bool {
    exists|i: int| 0 <= i < outs.len() && is_present_hit(outs[i])
}

/// Whether any store affirmed absence.
pub open spec fn has_absent(outs: Seq<PresenceOutcome>) -> bool {
    exists|i: int| 0 <= i < outs.len() && is_absent_hit(outs[i])
}

/// The failing stores' errors, in completion order.
pub open spec fn presence_err_entries(outs: Seq<PresenceOutcome>) -> Seq<(u64, StoreError)>
    decreases outs.len(),
{
    if outs.len() == 0 {
        Seq::empty()
    } else {
        let rest = presence_err_entries(outs.drop_last());
        if is_presence_error(outs.last()) {
            rest.push((outs.last().id, presence_error_of(outs.last())))
        } else {
            rest
        }
    }
}

/// How many stores affirmed presence.
pub open spec fn present_count(outs: Seq<PresenceOutcome>) -> nat
    decreases outs.len(),
{
    if outs.len() == 0 {
        0
    } else {
        present_count(outs.drop_last()) + if is_present_hit(outs.last()) {
            1nat
        } else {
            0nat
        }
    }
}

/// What a presence check resolves to.
pub enum PresenceResolution {
    /// The policy is satisfied that the value is present.
    Present,
    /// The policy is satisfied that the value is absent.
    Absent,
    /// Some stores failed while the rest saw nothing decisive.
    Doubt(Seq<(u64, StoreError)>),
    /// The check counts as failed outright.
    AllFailed(Seq<(u64, StoreError)>),
}

/// Classifies a drained comprehensive check that saw no absence: with no
/// failures every store affirmed presence; with failures beside at least
/// one affirmation the answer is doubt; with nothing but failures the
/// check failed.
pub open spec fn comprehensive_drain_resolution(
    errs: Seq<(u64, StoreError)>,
    hits: nat,
) -> PresenceResolution {
    if errs.len() == 0 {
        PresenceResolution::Present
    } else if hits > 0 {
        PresenceResolution::Doubt(errs)
    } else {
        PresenceResolution::AllFailed(errs)
    }
}

/// Classifies a drained regular check that saw no presence: with no
/// failures every store affirmed absence; with every store failing the
/// check failed outright; any mix of absence and failure is only doubt,
/// never a hard failure.
pub open spec fn regular_drain_resolution(
    total: int,
    errs: Seq<(u64, StoreError)>,
) -> PresenceResolution {
    if errs.len() == 0 {
        PresenceResolution::Absent
    } else if errs.len() == total {
        PresenceResolution::AllFailed(errs)
    } else {
        PresenceResolution::Doubt(errs)
    }
}

/// What a presence check resolves to, as a function of the policy and of
/// every store's answer in completion order. Under the comprehensive
/// policy one absence decides the check; under the regular policy one
/// presence does.
pub open spec fn presence_resolution(
    comprehensive: bool,
    total: int,
    outs: Seq<PresenceOutcome>,
) -> PresenceResolution {
    if comprehensive {
        if has_absent(outs) {
            PresenceResolution::Absent
        } else {
            comprehensive_drain_resolution(presence_err_entries(outs), present_count(outs))
        }
    } else {
        if has_present(outs) {
            PresenceResolution::Present
        } else {
            regular_drain_resolution(total, presence_err_entries(outs))
        }
    }
}

/// Whether an executable verdict carries exactly a given resolution.
pub open spec fn presence_result_matches(
    r: Result<PresenceVerdict, ErrorKind>,
    a: PresenceResolution,
) -> bool {
    match a {
        PresenceResolution::Present => r matches Ok(PresenceVerdict::Present),
        PresenceResolution::Absent => r matches Ok(PresenceVerdict::Absent),
        PresenceResolution::Doubt(es) => r matches Ok(
            PresenceVerdict::ProbablyNotPresent(PresenceDoubt::SomeFailed(e)),
        ) && e@ == es,
        PresenceResolution::AllFailed(es) => r matches Err(ErrorKind::AllFailed(e)) && e@ == es,
    }
}

/// Classifies a drained presence check with no short-circuit hit.
fn classify_presence_drain(
    comprehensive: bool,
    total: usize,
    hits: usize,
    errors: Vec<(u64, StoreError)>,
) -> (r: Result<PresenceVerdict, ErrorKind>)
    ensures
        comprehensive ==> presence_result_matches(
            r,
            comprehensive_drain_resolution(errors@, hits as nat),
        ),
        !comprehensive ==> presence_result_matches(
            r,
            regular_drain_resolution(total as int, errors@),
        ),
{
    if comprehensive {
        if errors.len() == 0 {
            Ok(PresenceVerdict::Present)
        } else if hits > 0 {
            Ok(PresenceVerdict::ProbablyNotPresent(PresenceDoubt::SomeFailed(errors)))
        } else {
            Err(ErrorKind::AllFailed(errors))
        }
    } else {
        if errors.len() == 0 {
            Ok(PresenceVerdict::Absent)
        } else if errors.len() == total {
            Err(ErrorKind::AllFailed(errors))
        } else {
            Ok(PresenceVerdict::ProbablyNotPresent(PresenceDoubt::SomeFailed(errors)))
        }
    }
}

/// The running state of one presence check.
pub struct PresenceState {
    comprehensive: bool,
    total: usize,
    pending: usize,
    hits: usize,
    errors: Vec<(u64, StoreError)>,
}

impl PresenceState {
    /// Whether this check runs under the comprehensive policy.
    pub closed spec fn spec_comprehensive(&self) -> bool {
        self.comprehensive
    }

    /// How many stores the check fanned out to.
    pub closed spec fn spec_total(&self) -> int {
        self.total as int
    }

    /// How many stores have not answered yet.
    pub closed spec fn spec_pending(&self) -> int {
        self.pending as int
    }

    /// How many stores affirmed presence so far.
    pub closed spec fn spec_hits(&self) -> int {
        self.hits as int
    }

    /// The errors collected so far, in completion order.
    pub closed spec fn spec_errors(&self) -> Seq<(u64, StoreError)> {
        self.errors@
    }

    /// The state is consistent with some run over `total` stores.
    pub open spec fn wf(&self) -> bool {
        &&& 0 <= self.spec_pending() <= self.spec_total()
        &&& self.spec_errors().len() + self.spec_hits() <= self.spec_total() - self.spec_pending()
        &&& self.spec_hits() >= 0
    }

    /// Starts a presence check over the façade's stores.
    pub fn new(base: &MultiplexedBlobstoreBase, comprehensive: bool) -> (r: Self)
        requires
            base.wf(),
        ensures
            r.wf(),
            r.spec_comprehensive() == comprehensive,
            r.spec_total() == base.spec_total_stores(),
            r.spec_pending() == base.spec_total_stores(),
            r.spec_hits() == 0,
            r.spec_errors() == Seq::<(u64, StoreError)>::empty(),
    {
        let total = base.total_stores();
        PresenceState {
            comprehensive,
            total,
            pending: total,
            hits: 0,
            errors: Vec::new(),
        }
    }

    /// Feeds one store's answer into the check.
    ///
    /// Under the comprehensive policy a single absence decides the check
    /// at once — stores that have not answered yet are never waited for.
    /// Under the regular policy a single presence does the same. Otherwise
    /// the answer is recorded and, when this was the last outstanding
    /// store, the drained check is classified.
    pub fn on_outcome(&mut self, outcome: PresenceOutcome) -> (r: Option<
        Result<PresenceVerdict, ErrorKind>,
    >)
        requires
            old(self).wf(),
            old(self).spec_pending() > 0,
        ensures
            final(self).wf(),
            final(self).spec_comprehensive() == old(self).spec_comprehensive(),
            final(self).spec_total() == old(self).spec_total(),
            old(self).spec_comprehensive() && is_absent_hit(outcome) ==> r matches Some(
                Ok(PresenceVerdict::Absent),
            ),
            !old(self).spec_comprehensive() && is_present_hit(outcome) ==> r matches Some(
                Ok(PresenceVerdict::Present),
            ),
            (old(self).spec_comprehensive() == is_absent_hit(outcome) && old(
                self,
            ).spec_comprehensive() != is_present_hit(outcome)) ==> {
                &&& final(self).spec_pending() == old(self).spec_pending()
                &&& final(self).spec_hits() == old(self).spec_hits()
                &&& final(self).spec_errors() == old(self).spec_errors()
            },
            !(old(self).spec_comprehensive() && is_absent_hit(outcome)) && !(!old(
                self,
            ).spec_comprehensive() && is_present_hit(outcome)) ==> {
                &&& final(self).spec_pending() == old(self).spec_pending() - 1
                &&& final(self).spec_hits() == old(self).spec_hits() + if is_present_hit(
                    outcome,
                ) {
                    1int
                } else {
                    0int
                }
                &&& final(self).spec_errors() == if is_presence_error(outcome) {
                    old(self).spec_errors().push((outcome.id, presence_error_of(outcome)))
                } else {
                    old(self).spec_errors()
                }
                &&& if final(self).spec_pending() == 0 {
                    r matches Some(res) && (if old(self).spec_comprehensive() {
                        presence_result_matches(
                            res,
                            comprehensive_drain_resolution(
                                final(self).spec_errors(),
                                final(self).spec_hits() as nat,
                            ),
                        )
                    } else {
                        presence_result_matches(
                            res,
                            regular_drain_resolution(
                                final(self).spec_total(),
                                final(self).spec_errors(),
                            ),
                        )
                    })
                } else {
                    r is None
                }
            },
    {
        match outcome.result {
            Ok(Presence::Present) => {
                if !self.comprehensive {
                    return Some(Ok(PresenceVerdict::Present));
                }
                self.hits = self.hits + 1;
                self.pending = self.pending - 1;
            },
            Ok(Presence::Absent) => {
                if self.comprehensive {
                    return Some(Ok(PresenceVerdict::Absent));
                }
                self.pending = self.pending - 1;
            },
            Ok(Presence::ProbablyNotPresent(e)) => {
                self.errors.push((outcome.id, e));
                self.pending = self.pending - 1;
            },
            Err(e) => {
                self.errors.push((outcome.id, e));
                self.pending = self.pending - 1;
            },
        }
        if self.pending == 0 {
            Some(
                classify_presence_drain(
                    self.comprehensive,
                    self.total,
                    self.hits,
                    copy_list(&self.errors),
                ),
            )
        } else {
            None
        }
    }

    /// The verdict when the whole check's shared deadline fires before the
    /// stores decide anything: degrade to "probably not present" with a
    /// timeout reason, rather than failing the call.
    pub fn on_overall_timeout(&self) -> (r: Result<PresenceVerdict, ErrorKind>)
        ensures
            r matches Ok(PresenceVerdict::ProbablyNotPresent(PresenceDoubt::CheckTimeout)),
    {
        Ok(PresenceVerdict::ProbablyNotPresent(PresenceDoubt::CheckTimeout))
    }
}

/// A check that collected no errors saw no failing store.
proof fn lemma_no_presence_errors(outs: Seq<PresenceOutcome>)
    requires
        presence_err_entries(outs).len() == 0,
    ensures
        forall|i: int| 0 <= i < outs.len() ==> !is_presence_error(#[trigger] outs[i]),
    decreases outs.len(),
{
    if outs.len() > 0 {
        assert(!is_presence_error(outs.last()));
        lemma_no_presence_errors(outs.drop_last());
        assert forall|i: int| 0 <= i < outs.len() implies !is_presence_error(
            #[trigger] outs[i],
        ) by {
            if i < outs.len() - 1 {
                assert(outs.drop_last()[i] == outs[i]);
            } else {
                assert(outs[i] == outs.last());
            }
        }
    }
}

/// Resolves a fully drained presence check from every store's answer in
/// completion order.
pub fn is_present(
    base: &MultiplexedBlobstoreBase,
    comprehensive: bool,
    outcomes: &Vec<PresenceOutcome>,
) -> (r: Result<PresenceVerdict, ErrorKind>)
    requires
        base.wf(),
        outcomes@.len() == base.spec_total_stores(),
    ensures
        presence_result_matches(
            r,
            presence_resolution(comprehensive, base.spec_total_stores(), outcomes@),
        ),
{
    let ghost outs = outcomes@;
    let total = base.total_stores();
    let mut hits: usize = 0;
    let mut errors: Vec<(u64, StoreError)> = Vec::new();
    let mut i: usize = 0;
    while i < outcomes.len()
        invariant
            0 <= i <= outcomes@.len(),
            outcomes@.len() == total,
            total == base.spec_total_stores(),
            base.wf(),
            outs == outcomes@,
            comprehensive ==> !has_absent(outs.take(i as int)),
            !comprehensive ==> !has_present(outs.take(i as int)),
            hits as nat == present_count(outs.take(i as int)),
            hits <= i,
            errors@ == presence_err_entries(outs.take(i as int)),
        decreases outcomes@.len() - i,
    {
        let outcome = outcomes[i];
        proof {
            assert(outs.take(i + 1).drop_last() =~= outs.take(i as int));
            assert(outs.take(i + 1).last() == outs[i as int]);
        }
        match outcome.result {
            Ok(Presence::Present) => {
                if !comprehensive {
                    proof {
                        assert(is_present_hit(outs[i as int]));
                    }
                    return Ok(PresenceVerdict::Present);
                }
                hits = hits + 1;
            },
            Ok(Presence::Absent) => {
                if comprehensive {
                    proof {
                        assert(is_absent_hit(outs[i as int]));
                    }
                    return Ok(PresenceVerdict::Absent);
                }
            },
            Ok(Presence::ProbablyNotPresent(e)) => {
                errors.push((outcome.id, e));
            },
            Err(e) => {
                errors.push((outcome.id, e));
            },
        }
        proof {
            if comprehensive {
                assert(!has_absent(outs.take(i + 1))) by {
                    if has_absent(outs.take(i + 1)) {
                        let j = choose|j: int|
                            0 <= j < outs.take(i + 1).len() && #[trigger] is_absent_hit(
                                outs.take(i + 1)[j],
                            );
                        if j < i {
                            assert(outs.take(i as int)[j] == outs[j]);
                            assert(has_absent(outs.take(i as int)));
                        }
                    }
                }
            } else {
                assert(!has_present(outs.take(i + 1))) by {
                    if has_present(outs.take(i + 1)) {
                        let j = choose|j: int|
                            0 <= j < outs.take(i + 1).len() && #[trigger] is_present_hit(
                                outs.take(i + 1)[j],
                            );
                        if j < i {
                            assert(outs.take(i as int)[j] == outs[j]);
                            assert(has_present(outs.take(i as int)));
                        }
                    }
                }
            }
        }
        i += 1;
    }
    proof {
        assert(outs.take(outcomes@.len() as int) =~= outs);
    }
    classify_presence_drain(comprehensive, total, hits, errors)
}

/// The two policies do what they promise: a comprehensive check is
/// decided absent exactly when some store affirmed absence, and when it
/// concludes present, every single store affirmed presence; a regular
/// check concludes present exactly when some store affirmed presence.
pub proof fn lemma_presence_policies(total: int, outs: Seq<PresenceOutcome>)
    ensures
        (presence_resolution(true, total, outs) is Absent) <==> has_absent(outs),
        (presence_resolution(true, total, outs) is Present) ==> forall|i: int|
            0 <= i < outs.len() ==> is_present_hit(#[trigger] outs[i]),
        (presence_resolution(false, total, outs) is Present) <==> has_present(outs),
{
    if presence_resolution(true, total, outs) is Present {
        lemma_no_presence_errors(outs);
        assert forall|i: int| 0 <= i < outs.len() implies is_present_hit(#[trigger] outs[i]) by {
            assert(!is_absent_hit(outs[i]));
            assert(!is_presence_error(outs[i]));
        }
    }
}

/// A check over stores that all affirmed absence collects no errors.
proof fn lemma_absent_outcomes_have_no_errors(outs: Seq<PresenceOutcome>)
    requires
        forall|i: int| 0 <= i < outs.len() ==> is_absent_hit(#[trigger] outs[i]),
    ensures
        presence_err_entries(outs).len() == 0,
    decreases outs.len(),
{
    if outs.len() > 0 {
        assert(is_absent_hit(outs[outs.len() - 1]));
        assert forall|i: int| 0 <= i < outs.drop_last().len() implies is_absent_hit(
            #[trigger] outs.drop_last()[i],
        ) by {
            assert(outs.drop_last()[i] == outs[i]);
        }
        lemma_absent_outcomes_have_no_errors(outs.drop_last());
    }
}

/// A regular check answers "absent" exactly when every store affirmed
/// absence: no failure is ever mistaken for absence.
pub proof fn lemma_regular_absent_is_unanimous(total: int, outs: Seq<PresenceOutcome>)
    requires
        total > 0,
        outs.len() == total,
    ensures
        (presence_resolution(false, total, outs) is Absent) <==> (forall|i: int|
            0 <= i < outs.len() ==> is_absent_hit(#[trigger] outs[i])),
{
    if presence_resolution(false, total, outs) is Absent {
        lemma_no_presence_errors(outs);
        assert forall|i: int| 0 <= i < outs.len() implies is_absent_hit(#[trigger] outs[i]) by {
            assert(!is_present_hit(outs[i]));
            assert(!is_presence_error(outs[i]));
        }
    }
    if forall|i: int| 0 <= i < outs.len() ==> is_absent_hit(#[trigger] outs[i]) {
        lemma_absent_outcomes_have_no_errors(outs);
        assert(!has_present(outs)) by {
            if has_present(outs) {
                let i = choose|i: int| 0 <= i < outs.len() && is_present_hit(outs[i]);
                assert(is_absent_hit(outs[i]));
            }
        }
    }
}

} // verus!
