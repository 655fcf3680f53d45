//! The quorum write coordinator: a write fans out to every store, each
//! successful raw write is followed by a secondary confirmation through
//! the self-healing ledger, and the put is durable the instant either
//! every raw write succeeded or enough confirmations came back. The
//! coordinator is a state machine over per-store completion events; the
//! caller performs the store calls and feeds the events in.

use vstd::prelude::*;

use crate::errors::{ErrorKind, PutError};
use crate::outcome::{copy_list, OverwriteStatus, StoreError};
use crate::registry::MultiplexedBlobstoreBase;

verus! {

/// One completion event of a multiplexed write.
#[derive(Clone, Copy, Debug, PartialEq, Eq, Structural)]
pub enum PutEvent {
    /// A store's raw write succeeded; its confirmation becomes outstanding.
    PutOk(u64),
    /// A store's raw write failed (a timed-out write settles this way too).
    PutErr(u64, StoreError),
    /// A store's write was confirmed by the secondary handler.
    ConfirmOk(u64),
    /// The secondary handler failed to confirm a store's write.
    ConfirmErr(u64, StoreError),
    /// The best-effort session timer fired: stop waiting for straggling
    /// stores and start polling confirmations.
    TooSlow,
}

/// The mathematical state of one write: outstanding work, the quorum
/// countdown, the scheduling flags, and the errors collected so far.
#[verifier::ext_equal]
pub struct PutStateModel {
    /// Raw writes that have not settled yet.
    pub puts_pending: int,
    /// Confirmations that are outstanding for already-successful writes.
    pub handlers_pending: int,
    /// How many more confirmations the quorum needs.
    pub needed_handlers: int,
    /// Whether confirmations are polled even while no write has failed.
    pub run_handlers_on_success: bool,
    /// Whether the best-effort session timer has fired.
    pub too_slow: bool,
    /// Raw-write errors, in completion order.
    pub put_errors: Seq<(u64, StoreError)>,
    /// Confirmation errors, in completion order.
    pub handler_errors: Seq<(u64, StoreError)>,
}

/// Whether the coordinator currently polls confirmation completions:
/// always for an eager session, and otherwise only once a raw write has
/// failed or the session became too slow.
pub open spec fn consider_confirmations(s: PutStateModel) -> bool {
    s.run_handlers_on_success || s.put_errors.len() > 0 || s.too_slow
}

/// Whether no further event can arrive: no raw write is outstanding, and
/// no confirmation is outstanding or confirmations are not being polled.
pub open spec fn put_drained(s: PutStateModel) -> bool {
    s.puts_pending == 0 && (s.handlers_pending == 0 || !consider_confirmations(s))
}

/// What a write resolves to.
pub enum PutResolution {
    /// The write is durable enough to acknowledge.
    Committed,
    /// Exactly one store failed overall: its raw error, unwrapped.
    SingleFailure(StoreError),
    /// Several failures left the quorum unreachable.
    MultipleFailures(Seq<(u64, StoreError)>),
}

/// Every error a failed write collected: raw-write errors first, then
/// confirmation errors, each in completion order.
pub open spec fn collected_errors(s: PutStateModel) -> Seq<(u64, StoreError)> {
    s.put_errors + s.handler_errors
}

/// Classifies a drained, unsuccessful write: a lone failure surfaces that
/// store's raw error, several failures are wrapped together.
pub open spec fn finalize_failure(s: PutStateModel) -> PutResolution {
    let es = collected_errors(s);
    if es.len() == 1 {
        PutResolution::SingleFailure(es[0].1)
    } else {
        PutResolution::MultipleFailures(es)
    }
}

/// Whether an event can occur in a given state: writes only settle while
/// raw writes are outstanding, confirmations only while confirmations are.
pub open spec fn put_event_enabled(s: PutStateModel, ev: PutEvent) -> bool {
    match ev {
        PutEvent::PutOk(_) => s.puts_pending > 0,
        PutEvent::PutErr(_, _) => s.puts_pending > 0,
        PutEvent::ConfirmOk(_) => s.handlers_pending > 0,
        PutEvent::ConfirmErr(_, _) => s.handlers_pending > 0,
        PutEvent::TooSlow => true,
    }
}

/// One transition of the write coordinator: the state after the event,
/// and the decision it forces, if any.
///
/// The write commits the instant the last raw write succeeds with no
/// failure recorded (confirmations may still be running), or the instant
/// the quorum's last confirmation arrives. Once no further event can
/// arrive without either happening, the write has failed and the
/// collected errors classify it.
pub open spec fn put_step(s: PutStateModel, ev: PutEvent) -> (PutStateModel, Option<
    PutResolution,
>) {
    let s2 = match ev {
        PutEvent::PutOk(_) => PutStateModel {
            puts_pending: if s.puts_pending > 0 {
                s.puts_pending - 1
            } else {
                0
            },
            handlers_pending: s.handlers_pending + 1,
            ..s
        },
        PutEvent::PutErr(id, e) => PutStateModel {
            puts_pending: if s.puts_pending > 0 {
                s.puts_pending - 1
            } else {
                0
            },
            put_errors: s.put_errors.push((id, e)),
            ..s
        },
        PutEvent::ConfirmOk(_) => PutStateModel {
            handlers_pending: if s.handlers_pending > 0 {
                s.handlers_pending - 1
            } else {
                0
            },
            needed_handlers: if s.needed_handlers > 0 {
                s.needed_handlers - 1
            } else {
                0
            },
            ..s
        },
        PutEvent::ConfirmErr(id, e) => PutStateModel {
            handlers_pending: if s.handlers_pending > 0 {
                s.handlers_pending - 1
            } else {
                0
            },
            handler_errors: s.handler_errors.push((id, e)),
            ..s
        },
        PutEvent::TooSlow => PutStateModel { too_slow: true, ..s },
    };
    let decision = match ev {
        PutEvent::PutOk(_) => if s2.puts_pending == 0 && s2.put_errors.len() == 0 {
            Some(PutResolution::Committed)
        } else if put_drained(s2) {
            Some(finalize_failure(s2))
        } else {
            None
        },
        PutEvent::ConfirmOk(_) => if s2.needed_handlers == 0 {
            Some(PutResolution::Committed)
        } else if put_drained(s2) {
            Some(finalize_failure(s2))
        } else {
            None
        },
        _ => if put_drained(s2) {
            Some(finalize_failure(s2))
        } else {
            None
        },
    };
    (s2, decision)
}

/// The coordinator's state at the start of a write over `total` stores.
pub open spec fn init_put_state(
    total: int,
    quorum: int,
    run_handlers_on_success: bool,
) -> PutStateModel {
    PutStateModel {
        puts_pending: total,
        handlers_pending: 0,
        needed_handlers: quorum,
        run_handlers_on_success,
        too_slow: false,
        put_errors: Seq::empty(),
        handler_errors: Seq::empty(),
    }
}

/// Whether an executable write result carries exactly a given resolution.
pub open spec fn put_result_matches(
    r: Result<OverwriteStatus, PutError>,
    a: PutResolution,
) -> bool {
    match a {
        PutResolution::Committed => r matches Ok(OverwriteStatus::NotChecked),
        PutResolution::SingleFailure(e) => r matches Err(PutError::Store(e2)) && e2 == e,
        PutResolution::MultipleFailures(es) => r matches Err(
            PutError::Kind(ErrorKind::MultiplePutFailures(v)),
        ) && v@ == es,
    }
}

/// Whether an executable decision carries exactly a given one.
pub open spec fn put_decision_matches(
    r: Option<Result<OverwriteStatus, PutError>>,
    d: Option<PutResolution>,
) -> bool {
    match d {
        Some(a) => r matches Some(res) && put_result_matches(res, a),
        None => r is None,
    }
}

/// The decision a whole sequence of events forces: the first decision any
/// event forces, or nothing if the sequence runs out first.
pub open spec fn put_run(s: PutStateModel, evs: Seq<PutEvent>) -> Option<PutResolution>
    decreases evs.len(),
{
    if evs.len() == 0 {
        None
    } else {
        let (s2, d) = put_step(s, evs[0]);
        if d is Some {
            d
        } else {
            put_run(s2, evs.drop_first())
        }
    }
}

/// Whether a sequence of events is possible from a given state: each
/// event up to the first decision is enabled when it occurs.
pub open spec fn trace_enabled(s: PutStateModel, evs: Seq<PutEvent>) -> bool
    decreases evs.len(),
{
    evs.len() == 0 || {
        &&& put_event_enabled(s, evs[0])
        &&& {
            let (s2, d) = put_step(s, evs[0]);
            d is Some || trace_enabled(s2, evs.drop_first())
        }
    }
}

/// The running state of one multiplexed write.
pub struct PutState {
    total: usize,
    puts_pending: usize,
    handlers_pending: usize,
    needed_handlers: usize,
    run_handlers_on_success: bool,
    too_slow: bool,
    put_errors: Vec<(u64, StoreError)>,
    handler_errors: Vec<(u64, StoreError)>,
}

impl View for PutState {
    type V = PutStateModel;

    closed spec fn view(&self) -> PutStateModel {
        PutStateModel {
            puts_pending: self.puts_pending as int,
            handlers_pending: self.handlers_pending as int,
            needed_handlers: self.needed_handlers as int,
            run_handlers_on_success: self.run_handlers_on_success,
            too_slow: self.too_slow,
            put_errors: self.put_errors@,
            handler_errors: self.handler_errors@,
        }
    }
}

impl PutState {
    /// How many stores the write fanned out to.
    pub closed spec fn spec_total(&self) -> int {
        self.total as int
    }

    /// The counters are consistent with a fan-out over `total` stores.
    pub open spec fn wf(&self) -> bool {
        &&& 0 <= self@.puts_pending
        &&& 0 <= self@.handlers_pending
        &&& 0 <= self@.needed_handlers
        &&& self@.puts_pending + self@.handlers_pending <= self.spec_total()
        &&& self.spec_total() <= usize::MAX
    }

    /// Whether the caller should currently poll confirmation completions.
    pub fn poll_confirmations(&self) -> (r: bool)
        ensures
            r == consider_confirmations(self@),
    {
        self.run_handlers_on_success || self.put_errors.len() > 0 || self.too_slow
    }

    /// Feeds one completion event into the write.
    ///
    /// Returns `Some` the instant the write is decided; once it is, any
    /// still-outstanding writes and confirmations are the caller's to
    /// finish in the background, never to be dropped.
    pub fn on_event(&mut self, ev: PutEvent) -> (r: Option<Result<OverwriteStatus, PutError>>)
        requires
            old(self).wf(),
            put_event_enabled(old(self)@, ev),
        ensures
            final(self).wf(),
            final(self).spec_total() == old(self).spec_total(),
            final(self)@ == put_step(old(self)@, ev).0,
            put_decision_matches(r, put_step(old(self)@, ev).1),
    {
        match ev {
            PutEvent::PutOk(_) => {
                self.puts_pending = self.puts_pending - 1;
                self.handlers_pending = self.handlers_pending + 1;
                if self.puts_pending == 0 && self.put_errors.len() == 0 {
                    return Some(Ok(OverwriteStatus::NotChecked));
                }
            },
            PutEvent::PutErr(id, e) => {
                self.puts_pending = self.puts_pending - 1;
                self.put_errors.push((id, e));
            },
            PutEvent::ConfirmOk(_) => {
                self.handlers_pending = self.handlers_pending - 1;
                if self.needed_handlers > 0 {
                    self.needed_handlers = self.needed_handlers - 1;
                }
                if self.needed_handlers == 0 {
                    return Some(Ok(OverwriteStatus::NotChecked));
                }
            },
            PutEvent::ConfirmErr(id, e) => {
                self.handlers_pending = self.handlers_pending - 1;
                self.handler_errors.push((id, e));
            },
            PutEvent::TooSlow => {
                self.too_slow = true;
            },
        }
        if self.puts_pending == 0 && (self.handlers_pending == 0 || !self.poll_confirmations()) {
            let mut errors = copy_list(&self.put_errors);
            let mut confirm_errors = copy_list(&self.handler_errors);
            errors.append(&mut confirm_errors);
            if errors.len() == 1 {
                let (_, e) = errors[0];
                Some(Err(PutError::Store(e)))
            } else {
                Some(Err(PutError::Kind(ErrorKind::MultiplePutFailures(errors))))
            }
        } else {
            None
        }
    }
}

/// Starts a write over `total_stores` stores with the given quorum.
///
/// When the quorum exceeds the store count no write can ever be durable
/// enough, so the write is refused here, before any store operation is
/// issued.
pub fn start_put(
    total_stores: usize,
    minimum_successful_writes: usize,
    run_handlers_on_success: bool,
) -> (r: Result<PutState, PutError>)
    requires
        minimum_successful_writes >= 1,
    ensures
        minimum_successful_writes > total_stores ==> (r matches Err(
            PutError::NotEnoughStores { available, needed },
        ) && available == total_stores && needed == minimum_successful_writes),
        minimum_successful_writes <= total_stores ==> (r matches Ok(st) && st.wf() && st@
            == init_put_state(
            total_stores as int,
            minimum_successful_writes as int,
            run_handlers_on_success,
        ) && st.spec_total() == total_stores),
{
    if minimum_successful_writes > total_stores {
        Err(
            PutError::NotEnoughStores {
                available: total_stores,
                needed: minimum_successful_writes,
            },
        )
    } else {
        Ok(
            PutState {
                total: total_stores,
                puts_pending: total_stores,
                handlers_pending: 0,
                needed_handlers: minimum_successful_writes,
                run_handlers_on_success,
                too_slow: false,
                put_errors: Vec::new(),
                handler_errors: Vec::new(),
            },
        )
    }
}

/// Starts a write over a façade's stores.
pub fn start_put_for(base: &MultiplexedBlobstoreBase, run_handlers_on_success: bool) -> (r:
    Result<PutState, PutError>)
    requires
        base.wf(),
    ensures
        base.spec_quorum() > base.spec_total_stores() ==> (r matches Err(
            PutError::NotEnoughStores { available, needed },
        ) && available == base.spec_total_stores() && needed == base.spec_quorum()),
        base.spec_quorum() <= base.spec_total_stores() ==> (r matches Ok(st) && st.wf() && st@
            == init_put_state(
            base.spec_total_stores(),
            base.spec_quorum(),
            run_handlers_on_success,
        ) && st.spec_total() == base.spec_total_stores()),
{
    start_put(base.total_stores(), base.minimum_successful_writes(), run_handlers_on_success)
}

/// Runs a write to its decision over a whole sequence of completion
/// events, from an already-started coordinator. Returns `None` if the
/// events run out before the write is decided.
#[verifier::loop_isolation(false)]
pub fn resolve_put_events(st: &mut PutState, events: &Vec<PutEvent>) -> (r: Option<
    Result<OverwriteStatus, PutError>,
>)
    requires
        old(st).wf(),
        trace_enabled(old(st)@, events@),
    ensures
        final(st).wf(),
        put_decision_matches(r, put_run(old(st)@, events@)),
{
    let ghost evs = events@;
    let ghost st0 = st@;
    let mut i: usize = 0;
    proof {
        assert(evs.skip(0) =~= evs);
    }
    while i < events.len()
        invariant
            0 <= i <= events@.len(),
            evs == events@,
            st.wf(),
            trace_enabled(st@, evs.skip(i as int)),
            put_run(st@, evs.skip(i as int)) == put_run(st0, evs),
        decreases events@.len() - i,
    {
        let ev = events[i];
        let ghost pre = st@;
        proof {
            assert(evs.skip(i as int)[0] == evs[i as int]);
            assert(evs.skip(i as int).drop_first() =~= evs.skip(i + 1));
        }
        let d = st.on_event(ev);
        proof {
            assert(put_run(pre, evs.skip(i as int)) == {
                let (s2, dd) = put_step(pre, evs[i as int]);
                if dd is Some {
                    dd
                } else {
                    put_run(s2, evs.skip(i + 1))
                }
            });
        }
        if let Some(res) = d {
            return Some(res);
        }
        i += 1;
    }
    proof {
        assert(evs.skip(events@.len() as int) =~= Seq::<PutEvent>::empty());
    }
    None
}

/// The raw-write errors a sequence of events carries, in event order.
pub open spec fn put_err_events(evs: Seq<PutEvent>) -> Seq<(u64, StoreError)>
    decreases evs.len(),
{
    if evs.len() == 0 {
        Seq::empty()
    } else {
        let rest = put_err_events(evs.drop_first());
        match evs[0] {
            PutEvent::PutErr(id, e) => seq![(id, e)] + rest,
            _ => rest,
        }
    }
}

/// The confirmation errors a sequence of events carries, in event order.
pub open spec fn confirm_err_events(evs: Seq<PutEvent>) -> Seq<(u64, StoreError)>
    decreases evs.len(),
{
    if evs.len() == 0 {
        Seq::empty()
    } else {
        let rest = confirm_err_events(evs.drop_first());
        match evs[0] {
            PutEvent::ConfirmErr(id, e) => seq![(id, e)] + rest,
            _ => rest,
        }
    }
}

/// How many raw writes succeed in a sequence of events.
pub open spec fn count_put_ok(evs: Seq<PutEvent>) -> nat
    decreases evs.len(),
{
    if evs.len() == 0 {
        0
    } else {
        (if evs[0] matches PutEvent::PutOk(_) {
            1nat
        } else {
            0nat
        }) + count_put_ok(evs.drop_first())
    }
}

/// How many confirmations succeed in a sequence of events.
pub open spec fn count_confirm_ok(evs: Seq<PutEvent>) -> nat
    decreases evs.len(),
{
    if evs.len() == 0 {
        0
    } else {
        (if evs[0] matches PutEvent::ConfirmOk(_) {
            1nat
        } else {
            0nat
        }) + count_confirm_ok(evs.drop_first())
    }
}

/// Whether a sequence of events is a full fan-out trace over `total`
/// stores: every raw write settles exactly once, and every confirmation
/// of a successful write settles exactly once — detached work is left to
/// finish, never dropped.
pub open spec fn complete_put_trace(total: int, evs: Seq<PutEvent>) -> bool {
    &&& count_put_ok(evs) + put_err_events(evs).len() == total
    &&& count_confirm_ok(evs) + confirm_err_events(evs).len() == count_put_ok(evs)
}

/// Classifies the errors of a failed write.
pub open spec fn failure_of(es: Seq<(u64, StoreError)>) -> PutResolution {
    if es.len() == 1 {
        PutResolution::SingleFailure(es[0].1)
    } else {
        PutResolution::MultipleFailures(es)
    }
}

/// The condition under which a write commits, stated over a state and the
/// events still to come.
pub open spec fn commit_condition(s: PutStateModel, evs: Seq<PutEvent>) -> bool {
    ||| (s.put_errors.len() == 0 && put_err_events(evs).len() == 0)
    ||| count_confirm_ok(evs) >= s.needed_handlers
}

/// The errors a write has collected once a trace has played out.
pub open spec fn trace_errors(s: PutStateModel, evs: Seq<PutEvent>) -> Seq<(u64, StoreError)> {
    (s.put_errors + put_err_events(evs)) + (s.handler_errors + confirm_err_events(evs))
}

/// The write coordinator meets the quorum rule: on any full fan-out trace
/// from a live state, the coordinator reaches a decision; it commits
/// exactly when no raw write fails (beyond those already recorded) or
/// enough confirmations arrive; and otherwise it fails with the collected
/// errors, a lone one unwrapped.
pub proof fn lemma_put_run_characterization(s: PutStateModel, evs: Seq<PutEvent>)
    requires
        s.puts_pending >= 0,
        s.handlers_pending >= 0,
        count_put_ok(evs) + put_err_events(evs).len() == s.puts_pending,
        count_confirm_ok(evs) + confirm_err_events(evs).len() == s.handlers_pending
            + count_put_ok(evs),
        s.needed_handlers >= 1,
        s.puts_pending > 0 || s.put_errors.len() > 0,
        !put_drained(s),
        trace_enabled(s, evs),
    ensures
        put_run(s, evs) is Some,
        (put_run(s, evs) == Some(PutResolution::Committed)) <==> commit_condition(s, evs),
        !commit_condition(s, evs) ==> put_run(s, evs) == Some(failure_of(trace_errors(s, evs))),
    decreases evs.len(),
{
    if evs.len() == 0 {
        assert(s.puts_pending == 0);
        assert(s.handlers_pending == 0);
        assert(put_drained(s));
        assert(false);
    } else {
        let ev = evs[0];
        let rest = evs.drop_first();
        let s2 = put_step(s, ev).0;
        let d = put_step(s, ev).1;
        assert(put_event_enabled(s, ev));
        match ev {
            PutEvent::PutOk(_) => {
                assert(s.puts_pending > 0);
                assert(s2.puts_pending == s.puts_pending - 1);
                assert(count_put_ok(evs) == 1 + count_put_ok(rest));
                assert(put_err_events(evs) == put_err_events(rest));
                assert(count_confirm_ok(evs) == count_confirm_ok(rest));
                assert(confirm_err_events(evs) == confirm_err_events(rest));
                if s2.puts_pending == 0 && s2.put_errors.len() == 0 {
                    // the last raw write succeeded with no failure: commit
                    assert(d == Some(PutResolution::Committed));
                    assert(put_run(s, evs) == d);
                    assert(put_err_events(rest).len() == 0);
                    assert(commit_condition(s, evs));
                } else if put_drained(s2) {
                    // unreachable: the new confirmation is outstanding and,
                    // with failures recorded, confirmations are polled
                    assert(s2.handlers_pending > 0);
                    assert(s2.put_errors.len() > 0);
                    assert(consider_confirmations(s2));
                    assert(false);
                } else {
                    assert(d is None);
                    assert(put_run(s, evs) == put_run(s2, rest));
                    assert(trace_enabled(s2, rest));
                    assert(s2.puts_pending > 0 || s2.put_errors.len() > 0);
                    lemma_put_run_characterization(s2, rest);
                    assert(commit_condition(s2, rest) == commit_condition(s, evs));
                    if !commit_condition(s, evs) {
                        assert(trace_errors(s2, rest) =~= trace_errors(s, evs));
                    }
                }
            },
            PutEvent::PutErr(id, e) => {
                assert(s.puts_pending > 0);
                assert(s2.puts_pending == s.puts_pending - 1);
                assert(s2.put_errors == s.put_errors.push((id, e)));
                assert(count_put_ok(evs) == count_put_ok(rest));
                assert(put_err_events(evs) == seq![(id, e)] + put_err_events(rest));
                assert(count_confirm_ok(evs) == count_confirm_ok(rest));
                assert(confirm_err_events(evs) == confirm_err_events(rest));
                assert(put_err_events(evs).len() >= 1);
                if put_drained(s2) {
                    assert(d == Some(failure_of(collected_errors(s2))));
                    assert(put_run(s, evs) == d);
                    assert(consider_confirmations(s2));
                    assert(s2.handlers_pending == 0);
                    assert(s.handlers_pending == 0);
                    assert(count_put_ok(rest) + put_err_events(rest).len() == 0);
                    assert(count_put_ok(evs) == 0);
                    assert(count_confirm_ok(evs) + confirm_err_events(evs).len() == 0);
                    assert(count_confirm_ok(evs) == 0);
                    assert(!commit_condition(s, evs));
                    assert(put_err_events(rest) =~= Seq::<(u64, StoreError)>::empty());
                    assert(confirm_err_events(evs) =~= Seq::<(u64, StoreError)>::empty());
                    assert(trace_errors(s, evs) =~= collected_errors(s2));
                } else {
                    assert(d is None);
                    assert(put_run(s, evs) == put_run(s2, rest));
                    assert(trace_enabled(s2, rest));
                    lemma_put_run_characterization(s2, rest);
                    assert(commit_condition(s2, rest) == commit_condition(s, evs));
                    if !commit_condition(s, evs) {
                        assert(trace_errors(s2, rest) =~= trace_errors(s, evs));
                    }
                }
            },
            PutEvent::ConfirmOk(_) => {
                assert(s.handlers_pending > 0);
                assert(s2.handlers_pending == s.handlers_pending - 1);
                assert(s2.needed_handlers == s.needed_handlers - 1);
                assert(count_put_ok(evs) == count_put_ok(rest));
                assert(put_err_events(evs) == put_err_events(rest));
                assert(count_confirm_ok(evs) == 1 + count_confirm_ok(rest));
                assert(confirm_err_events(evs) == confirm_err_events(rest));
                if s2.needed_handlers == 0 {
                    // the quorum's last confirmation arrived: commit
                    assert(d == Some(PutResolution::Committed));
                    assert(put_run(s, evs) == d);
                    assert(count_confirm_ok(evs) >= 1);
                    assert(s.needed_handlers == 1);
                    assert(commit_condition(s, evs));
                } else if put_drained(s2) {
                    assert(d == Some(failure_of(collected_errors(s2))));
                    assert(put_run(s, evs) == d);
                    assert(s2.puts_pending == 0);
                    assert(s.put_errors.len() > 0);
                    assert(consider_confirmations(s2));
                    assert(s2.handlers_pending == 0);
                    assert(count_put_ok(evs) + put_err_events(evs).len() == 0);
                    assert(count_confirm_ok(rest) + confirm_err_events(rest).len() == 0);
                    assert(count_confirm_ok(evs) == 1);
                    assert(s.needed_handlers >= 2);
                    assert(!commit_condition(s, evs));
                    assert(put_err_events(evs) =~= Seq::<(u64, StoreError)>::empty());
                    assert(confirm_err_events(evs) =~= Seq::<(u64, StoreError)>::empty());
                    assert(trace_errors(s, evs) =~= collected_errors(s2));
                } else {
                    assert(d is None);
                    assert(s2.needed_handlers >= 1);
                    assert(put_run(s, evs) == put_run(s2, rest));
                    assert(trace_enabled(s2, rest));
                    lemma_put_run_characterization(s2, rest);
                    assert(commit_condition(s2, rest) == commit_condition(s, evs)) by {
                        assert(count_confirm_ok(rest) >= s2.needed_handlers <==> count_confirm_ok(
                            evs,
                        ) >= s.needed_handlers);
                    }
                    if !commit_condition(s, evs) {
                        assert(trace_errors(s2, rest) =~= trace_errors(s, evs));
                    }
                }
            },
            PutEvent::ConfirmErr(id, e) => {
                assert(s.handlers_pending > 0);
                assert(s2.handlers_pending == s.handlers_pending - 1);
                assert(s2.handler_errors == s.handler_errors.push((id, e)));
                assert(count_put_ok(evs) == count_put_ok(rest));
                assert(put_err_events(evs) == put_err_events(rest));
                assert(count_confirm_ok(evs) == count_confirm_ok(rest));
                assert(confirm_err_events(evs) == seq![(id, e)] + confirm_err_events(rest));
                if put_drained(s2) {
                    assert(d == Some(failure_of(collected_errors(s2))));
                    assert(put_run(s, evs) == d);
                    assert(s2.puts_pending == 0);
                    assert(s.put_errors.len() > 0);
                    assert(consider_confirmations(s2));
                    assert(s2.handlers_pending == 0);
                    assert(count_put_ok(evs) + put_err_events(evs).len() == 0);
                    assert(confirm_err_events(evs).len() == 1 + confirm_err_events(rest).len());
                    assert(count_confirm_ok(evs) + confirm_err_events(rest).len() == 0);
                    assert(count_confirm_ok(evs) == 0);
                    assert(!commit_condition(s, evs));
                    assert(put_err_events(evs) =~= Seq::<(u64, StoreError)>::empty());
                    assert(confirm_err_events(rest) =~= Seq::<(u64, StoreError)>::empty());
                    assert(trace_errors(s, evs) =~= collected_errors(s2));
                } else {
                    assert(d is None);
                    assert(put_run(s, evs) == put_run(s2, rest));
                    assert(trace_enabled(s2, rest));
                    lemma_put_run_characterization(s2, rest);
                    assert(commit_condition(s2, rest) == commit_condition(s, evs));
                    if !commit_condition(s, evs) {
                        assert(trace_errors(s2, rest) =~= trace_errors(s, evs));
                    }
                }
            },
            PutEvent::TooSlow => {
                assert(s2.puts_pending == s.puts_pending);
                assert(s2.handlers_pending == s.handlers_pending);
                assert(count_put_ok(evs) == count_put_ok(rest));
                assert(put_err_events(evs) == put_err_events(rest));
                assert(count_confirm_ok(evs) == count_confirm_ok(rest));
                assert(confirm_err_events(evs) == confirm_err_events(rest));
                if put_drained(s2) {
                    // unreachable: the flag changes no outstanding work, and
                    // the state was not drained before it fired
                    assert(s.puts_pending == 0);
                    assert(s.put_errors.len() > 0);
                    assert(consider_confirmations(s));
                    assert(s.handlers_pending == 0);
                    assert(put_drained(s));
                    assert(false);
                } else {
                    assert(d is None);
                    assert(put_run(s, evs) == put_run(s2, rest));
                    assert(trace_enabled(s2, rest));
                    lemma_put_run_characterization(s2, rest);
                    assert(commit_condition(s2, rest) == commit_condition(s, evs));
                    if !commit_condition(s, evs) {
                        assert(trace_errors(s2, rest) =~= trace_errors(s, evs));
                    }
                }
            },
        }
    }
}

/// The quorum rule for a whole write: over any full fan-out trace, a put
/// with quorum `quorum` over `total` stores commits exactly when every
/// raw write succeeds or at least `quorum` confirmations arrive; any
/// other trace fails the write, classified as the lone store's raw error
/// or as the collection of all failures.
pub proof fn lemma_put_quorum(
    total: int,
    quorum: int,
    run_handlers_on_success: bool,
    evs: Seq<PutEvent>,
)
    requires
        1 <= quorum <= total,
        complete_put_trace(total, evs),
        trace_enabled(init_put_state(total, quorum, run_handlers_on_success), evs),
    ensures
        put_run(init_put_state(total, quorum, run_handlers_on_success), evs) is Some,
        (put_run(init_put_state(total, quorum, run_handlers_on_success), evs) == Some(
            PutResolution::Committed,
        )) <==> (put_err_events(evs).len() == 0 || count_confirm_ok(evs) >= quorum),
        !(put_err_events(evs).len() == 0 || count_confirm_ok(evs) >= quorum) ==> put_run(
            init_put_state(total, quorum, run_handlers_on_success),
            evs,
        ) == Some(failure_of(put_err_events(evs) + confirm_err_events(evs))),
{
    let s = init_put_state(total, quorum, run_handlers_on_success);
    lemma_put_run_characterization(s, evs);
    assert(commit_condition(s, evs) == (put_err_events(evs).len() == 0 || count_confirm_ok(evs)
        >= quorum));
    assert(trace_errors(s, evs) =~= put_err_events(evs) + confirm_err_events(evs));
}

} // verus!
