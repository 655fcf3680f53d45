//! The consistency auditor: a diagnostic read that fetches the value from
//! every store, groups the stores by a fast content fingerprint, and
//! classifies the outcome — no data anywhere, one consistent value, a
//! value some stores are missing, or an outright mismatch. Fingerprint
//! collisions are a tolerated, rare correctness risk, not a security
//! concern.

use vstd::prelude::*;

use crate::errors::{error_id_set, id_set, ErrorKind};
use crate::outcome::{GetOutcome, GetOutcomeModel, StoreError};
use crate::registry::MultiplexedBlobstoreBase;

verus! {

/// How a scrub read treats write-mostly stores.
#[derive(Clone, Copy, Debug, PartialEq, Eq, Structural)]
pub enum ScrubWriteMostly {
    /// Query write-mostly stores and hold them to the same standard.
    Scrub,
    /// Query write-mostly stores but ignore values they are missing.
    SkipMissing,
    /// Do not query write-mostly stores; treat them as having nothing.
    PopulateIfAbsent,
    /// Like `PopulateIfAbsent`, but first try the fast path: if the
    /// write-mostly stores all agree on a value, trust it outright.
    ScrubIfAbsent,
}

/// The name of what `twox_hash::XxHash64`, seeded with zero, computes
/// over a sequence of bytes: the scrub fingerprint.
pub uninterp spec fn xxhash64_of(bytes: Seq<u8>) -> u64;

/// Relies on `twox_hash::XxHash64::with_seed(0)` followed by `write` and
/// `finish`: the digest depends on the hashed bytes alone.
#[verifier::external_body]
fn fingerprint(bytes: &Vec<u8>) -> (r: u64)
    ensures
        r == xxhash64_of(bytes@),
{
    let mut h = twox_hash::XxHash64::with_seed(0);
    std::hash::Hasher::write(&mut h, bytes.as_slice());
    std::hash::Hasher::finish(&h)
}

/// One store's outcome as the auditor sees it: tagged with whether the
/// store is write-mostly.
pub struct ScrubEntryModel {
    /// Whether the answering store is write-mostly.
    pub write_mostly: bool,
    /// The identifier of the answering store.
    pub id: u64,
    /// The store's result, possibly overridden to "no value" for
    /// write-mostly stores the scrub chose not to query.
    pub result: Result<Option<Seq<u8>>, StoreError>,
}

/// Whether a scrub mode really queries the write-mostly stores.
pub open spec fn queries_write_mostly(mode: ScrubWriteMostly) -> bool {
    mode is Scrub || mode is SkipMissing
}

/// The entries a scrub read works over: every main store's outcome, then
/// every write-mostly store's — the latter replaced by "no value" when
/// the mode does not query them.
pub open spec fn scrub_inputs(
    main: Seq<GetOutcomeModel>,
    wm: Seq<GetOutcomeModel>,
    mode: ScrubWriteMostly,
) -> Seq<ScrubEntryModel> {
    main.map_values(
        |o: GetOutcomeModel| ScrubEntryModel { write_mostly: false, id: o.id, result: o.result },
    ) + wm.map_values(
        |o: GetOutcomeModel|
            ScrubEntryModel {
                write_mostly: true,
                id: o.id,
                result: if queries_write_mostly(mode) {
                    o.result
                } else {
                    Ok(None)
                },
            },
    )
}

/// The failing stores' errors, in order.
pub open spec fn scrub_err_entries(es: Seq<ScrubEntryModel>) -> Seq<(u64, StoreError)>
    decreases es.len(),
{
    if es.len() == 0 {
        Seq::empty()
    } else {
        let rest = scrub_err_entries(es.drop_last());
        match es.last().result {
            Err(e) => rest.push((es.last().id, e)),
            _ => rest,
        }
    }
}

/// The stores that returned a value, with their values, in order.
pub open spec fn scrub_some_entries(es: Seq<ScrubEntryModel>) -> Seq<(u64, Seq<u8>)>
    decreases es.len(),
{
    if es.len() == 0 {
        Seq::empty()
    } else {
        let rest = scrub_some_entries(es.drop_last());
        match es.last().result {
            Ok(Some(v)) => rest.push((es.last().id, v)),
            _ => rest,
        }
    }
}

/// The stores of the given kind that affirmatively had no value, in order.
pub open spec fn scrub_missing_ids(es: Seq<ScrubEntryModel>, write_mostly: bool) -> Seq<u64>
    decreases es.len(),
{
    if es.len() == 0 {
        Seq::empty()
    } else {
        let rest = scrub_missing_ids(es.drop_last(), write_mostly);
        if es.last().result matches Ok(None) && es.last().write_mostly == write_mostly {
            rest.push(es.last().id)
        } else {
            rest
        }
    }
}

/// The distinct fingerprints among the returned values, in order of first
/// appearance.
pub open spec fn distinct_fingerprints(vals: Seq<(u64, Seq<u8>)>) -> Seq<u64>
    decreases vals.len(),
{
    if vals.len() == 0 {
        Seq::empty()
    } else {
        let d = distinct_fingerprints(vals.drop_last());
        let h = xxhash64_of(vals.last().1);
        if d.contains(h) {
            d
        } else {
            d.push(h)
        }
    }
}

/// The stores whose value carries a given fingerprint, in order.
pub open spec fn fingerprint_group(vals: Seq<(u64, Seq<u8>)>, h: u64) -> Seq<u64>
    decreases vals.len(),
{
    if vals.len() == 0 {
        Seq::empty()
    } else {
        let g = fingerprint_group(vals.drop_last(), h);
        if xxhash64_of(vals.last().1) == h {
            g.push(vals.last().0)
        } else {
            g
        }
    }
}

/// The store identifiers grouped by the value they hold, one group per
/// distinct fingerprint, in order of first appearance.
pub open spec fn value_groups(vals: Seq<(u64, Seq<u8>)>) -> Seq<Seq<u64>> {
    distinct_fingerprints(vals).map_values(|h: u64| fingerprint_group(vals, h))
}

/// The value of the store that answered last; the repair hint a partial
/// miss carries.
pub open spec fn scrub_last_value(vals: Seq<(u64, Seq<u8>)>) -> Seq<u8>
    recommends
        vals.len() > 0,
{
    vals.last().1
}

/// What a scrub read resolves to.
pub enum ScrubResolution {
    /// Every store was asked and none has the value: there is no data.
    NoData,
    /// Every store that answered holds this same value, none is missing
    /// it: confidently correct.
    Consistent(Seq<u8>),
    /// The read counts as failed outright.
    AllFailed(Seq<(u64, StoreError)>),
    /// Some stores failed while healthy ones affirmatively had no data.
    SomeFailedOthersNone(Seq<(u64, StoreError)>),
    /// One consistent value exists, but some stores are missing it; the
    /// value travels along as a repair hint.
    SomeMissing {
        /// Main stores missing the value.
        missing_main: Seq<u64>,
        /// Write-mostly stores missing the value.
        missing_write_mostly: Seq<u64>,
        /// The value the remaining stores agree on.
        value: Option<Seq<u8>>,
    },
    /// Stores disagree on the content: a correctness alarm, surfaced and
    /// never auto-resolved.
    Mismatch {
        /// Store identifiers grouped by the value they hold.
        grouped: Seq<Seq<u64>>,
        /// Stores that do not have the value at all.
        missing: Seq<u64>,
    },
}

/// What a scrub read resolves to, as a function of every entry: group the
/// answering stores by content fingerprint and classify.
pub open spec fn scrub_resolution(
    main_ids: Seq<u64>,
    es: Seq<ScrubEntryModel>,
) -> ScrubResolution {
    let errs = scrub_err_entries(es);
    let vals = scrub_some_entries(es);
    let mm = scrub_missing_ids(es, false);
    let mw = scrub_missing_ids(es, true);
    if vals.len() + mm.len() + mw.len() == 0 {
        ScrubResolution::AllFailed(errs)
    } else if vals.len() == 0 {
        if errs.len() == 0 {
            ScrubResolution::NoData
        } else if error_id_set(errs) == id_set(main_ids) {
            ScrubResolution::AllFailed(errs)
        } else {
            ScrubResolution::SomeFailedOthersNone(errs)
        }
    } else if distinct_fingerprints(vals).len() == 1 {
        if mm.len() == 0 && mw.len() == 0 {
            ScrubResolution::Consistent(scrub_last_value(vals))
        } else {
            ScrubResolution::SomeMissing {
                missing_main: mm,
                missing_write_mostly: mw,
                value: Some(scrub_last_value(vals)),
            }
        }
    } else {
        ScrubResolution::Mismatch { grouped: value_groups(vals), missing: mm + mw }
    }
}

/// Whether an executable scrub result carries exactly a given resolution.
pub open spec fn scrub_result_matches(
    r: Result<Option<Vec<u8>>, ErrorKind>,
    a: ScrubResolution,
) -> bool {
    match a {
        ScrubResolution::NoData => r matches Ok(None),
        ScrubResolution::Consistent(v) => r matches Ok(Some(b)) && b@ == v,
        ScrubResolution::AllFailed(es) => r matches Err(ErrorKind::AllFailed(e)) && e@ == es,
        ScrubResolution::SomeFailedOthersNone(es) => r matches Err(
            ErrorKind::SomeFailedOthersNone(e),
        ) && e@ == es,
        ScrubResolution::SomeMissing { missing_main, missing_write_mostly, value } => {
            &&& r matches Err(ErrorKind::SomeMissingItem { missing_main: m, missing_write_mostly: w, value: v })
            &&& m@ == missing_main
            &&& w@ == missing_write_mostly
            &&& match (v, value) {
                (Some(b), Some(val)) => b@ == val,
                (None, None) => true,
                _ => false,
            }
        },
        ScrubResolution::Mismatch { grouped, missing } => {
            &&& r matches Err(ErrorKind::ValueMismatch(g, m))
            &&& g@.len() == grouped.len()
            &&& (forall|i: int| 0 <= i < grouped.len() ==> #[trigger] g@[i]@ == grouped[i])
            &&& m@ == missing
        },
    }
}

/// Whether the write-mostly stores unanimously hold one value: they all
/// answered, every answer is the same value, and there is at least one of
/// them.
pub open spec fn write_mostly_agreement(outs: Seq<GetOutcomeModel>) -> bool {
    &&& outs.len() > 0
    &&& outs.last().result matches Ok(Some(_))
    &&& forall|i: int| 0 <= i < outs.len() ==> #[trigger] outs[i].result == outs.last().result
}

/// Compares two byte strings.
fn bytes_equal(a: &Vec<u8>, b: &Vec<u8>) -> (r: bool)
    ensures
        r == (a@ == b@),
{
    if a.len() != b.len() {
        proof {
            assert(a@ != b@);
        }
        return false;
    }
    let mut k: usize = 0;
    while k < a.len()
        invariant
            0 <= k <= a@.len(),
            a@.len() == b@.len(),
            forall|j: int| 0 <= j < k ==> a@[j] == b@[j],
        decreases a@.len() - k,
    {
        if a[k] != b[k] {
            proof {
                assert(a@[k as int] != b@[k as int]);
            }
            return false;
        }
        k += 1;
    }
    proof {
        assert(a@ =~= b@);
    }
    true
}

/// The scrub fast path for write-mostly stores: if every write-mostly
/// store answered with one and the same value, that value may be trusted
/// without consulting the main stores at all. Returns the shared value,
/// or `None` when the stores do not unanimously agree.
pub fn write_mostly_all_agree(results: &Vec<GetOutcome>) -> (r: Option<Vec<u8>>)
    ensures
        match r {
            Some(v) => write_mostly_agreement(results.deep_view()) && (
            results.deep_view().last().result matches Ok(Some(w)) && v@ == w),
            None => !write_mostly_agreement(results.deep_view()),
        },
{
    let ghost outs = results.deep_view();
    if results.len() == 0 {
        return None;
    }
    let last = &results[results.len() - 1];
    match &last.result {
        Ok(Some(v)) => {
            let mut k: usize = 0;
            while k < results.len()
                invariant
                    0 <= k <= results@.len(),
                    outs == results.deep_view(),
                    results@.len() > 0,
                    outs.last().result matches Ok(Some(w)) && w == v@,
                    forall|j: int| 0 <= j < k ==> #[trigger] outs[j].result == outs.last().result,
                decreases results@.len() - k,
            {
                let entry = &results[k];
                proof {
                    assert(outs[k as int] == results@[k as int].deep_view());
                }
                match &entry.result {
                    Ok(Some(w)) => {
                        if !bytes_equal(w, v) {
                            proof {
                                assert(outs[k as int].result != outs.last().result);
                            }
                            return None;
                        }
                    },
                    _ => {
                        proof {
                            assert(outs[k as int].result != outs.last().result);
                        }
                        return None;
                    },
                }
                k += 1;
            }
            Some(crate::outcome::copy_list(v))
        },
        _ => {
            proof {
                assert(!(outs.last().result matches Ok(Some(_))));
            }
            None
        },
    }
}

/// The distinct fingerprints really are distinct.
proof fn lemma_distinct_fingerprints_distinct(vals: Seq<(u64, Seq<u8>)>)
    ensures
        forall|i: int, k: int|
            0 <= i < k < distinct_fingerprints(vals).len() ==> distinct_fingerprints(vals)[i]
                != distinct_fingerprints(vals)[k],
    decreases vals.len(),
{
    if vals.len() > 0 {
        lemma_distinct_fingerprints_distinct(vals.drop_last());
        let d = distinct_fingerprints(vals.drop_last());
        let h = xxhash64_of(vals.last().1);
        if !d.contains(h) {
            assert forall|i: int, k: int|
                0 <= i < k < d.push(h).len() implies d.push(h)[i] != d.push(h)[k] by {
                if k < d.len() {
                } else {
                    assert(d.push(h)[k] == h);
                    assert(d.push(h)[i] == d[i]);
                    assert(d.contains(d[i]));
                }
            }
        }
    }
}

/// A fingerprint that never appeared groups no store.
proof fn lemma_group_of_absent(vals: Seq<(u64, Seq<u8>)>, h: u64)
    requires
        !distinct_fingerprints(vals).contains(h),
    ensures
        fingerprint_group(vals, h) == Seq::<u64>::empty(),
    decreases vals.len(),
{
    if vals.len() > 0 {
        let d = distinct_fingerprints(vals.drop_last());
        let hl = xxhash64_of(vals.last().1);
        assert(distinct_fingerprints(vals).contains(hl)) by {
            if d.contains(hl) {
            } else {
                assert(distinct_fingerprints(vals) == d.push(hl));
                assert(d.push(hl)[d.len() as int] == hl);
            }
        }
        assert(h != hl);
        assert(!d.contains(h)) by {
            if d.contains(h) {
                let i = choose|i: int| 0 <= i < d.len() && d[i] == h;
                if d.contains(hl) {
                    assert(distinct_fingerprints(vals)[i] == h);
                } else {
                    assert(distinct_fingerprints(vals)[i] == h);
                }
            }
        }
        lemma_group_of_absent(vals.drop_last(), h);
    }
}

/// A nonempty set of values has at least one fingerprint.
proof fn lemma_distinct_nonempty(vals: Seq<(u64, Seq<u8>)>)
    requires
        vals.len() > 0,
    ensures
        distinct_fingerprints(vals).len() > 0,
{
}

/// Finds the group a fingerprint belongs to.
fn find_group(groups: &Vec<(u64, Vec<u64>)>, h: u64) -> (r: Option<usize>)
    ensures
        match r {
            Some(j) => j < groups@.len() && groups@[j as int].0 == h,
            None => forall|i: int| 0 <= i < groups@.len() ==> #[trigger] groups@[i].0 != h,
        },
{
    let mut j: usize = 0;
    while j < groups.len()
        invariant
            0 <= j <= groups@.len(),
            forall|i: int| 0 <= i < j ==> #[trigger] groups@[i].0 != h,
        decreases groups@.len() - j,
    {
        let pair = &groups[j];
        if pair.0 == h {
            return Some(j);
        }
        j += 1;
    }
    None
}

/// A scrub entry as the scan receives it: the store's kind, whether the
/// scrub chose not to query it, and its outcome.
pub open spec fn scrub_entry_model(
    write_mostly: bool,
    treat_as_none: bool,
    o: GetOutcomeModel,
) -> ScrubEntryModel {
    ScrubEntryModel {
        write_mostly,
        id: o.id,
        result: if treat_as_none {
            Ok(None)
        } else {
            o.result
        },
    }
}

/// The running state of one scrub read: the errors, the stores missing
/// the value, and the answering stores grouped by content fingerprint,
/// together with the value seen last.
struct ScrubScan {
    errors: Vec<(u64, StoreError)>,
    groups: Vec<(u64, Vec<u64>)>,
    missing_main: Vec<u64>,
    missing_write_mostly: Vec<u64>,
    last_value: Option<Vec<u8>>,
    processed: Ghost<Seq<ScrubEntryModel>>,
}

impl ScrubScan {
    /// The entries the scan has absorbed, in order.
    spec fn entries(&self) -> Seq<ScrubEntryModel> {
        self.processed@
    }

    /// The scan's keys, in group order.
    spec fn keys(&self) -> Seq<u64> {
        Seq::new(self.groups@.len(), |i: int| self.groups@[i].0)
    }

    /// Every running structure matches the entries absorbed so far.
    spec fn wf(&self) -> bool {
        let es = self.processed@;
        let vals = scrub_some_entries(es);
        &&& self.errors@ == scrub_err_entries(es)
        &&& self.missing_main@ == scrub_missing_ids(es, false)
        &&& self.missing_write_mostly@ == scrub_missing_ids(es, true)
        &&& self.keys() == distinct_fingerprints(vals)
        &&& (forall|i: int|
            0 <= i < self.groups@.len() ==> #[trigger] self.groups@[i].1@ == fingerprint_group(
                vals,
                self.groups@[i].0,
            ))
        &&& match self.last_value {
            Some(ref v) => vals.len() > 0 && v@ == scrub_last_value(vals),
            None => vals.len() == 0,
        }
    }

    /// A scan that has seen nothing.
    fn new() -> (r: Self)
        ensures
            r.wf(),
            r.entries() == Seq::<ScrubEntryModel>::empty(),
    {
        let r = ScrubScan {
            errors: Vec::new(),
            groups: Vec::new(),
            missing_main: Vec::new(),
            missing_write_mostly: Vec::new(),
            last_value: None,
            processed: Ghost(Seq::empty()),
        };
        proof {
            assert(r.keys() =~= distinct_fingerprints(scrub_some_entries(r.processed@)));
        }
        r
    }

    /// Absorbs one store's outcome into the scan.
    fn absorb(&mut self, write_mostly: bool, treat_as_none: bool, outcome: &GetOutcome)
        requires
            old(self).wf(),
        ensures
            final(self).wf(),
            final(self).entries() == old(self).entries().push(
                scrub_entry_model(write_mostly, treat_as_none, outcome.deep_view()),
            ),
    {
        let ghost es0 = self.processed@;
        let ghost entry = scrub_entry_model(write_mostly, treat_as_none, outcome.deep_view());
        let ghost es1 = es0.push(entry);
        let ghost vals0 = scrub_some_entries(es0);
        proof {
            assert(es1.drop_last() =~= es0);
            assert(es1.last() == entry);
        }
        let is_none = treat_as_none || matches!(outcome.result, Ok(None));
        if is_none {
            if write_mostly {
                self.missing_write_mostly.push(outcome.id);
            } else {
                self.missing_main.push(outcome.id);
            }
            self.processed = Ghost(es1);
            proof {
                assert(scrub_some_entries(es1) == vals0);
                assert(self.keys() =~= old(self).keys());
            }
            return ;
        }
        match &outcome.result {
            Err(e) => {
                self.errors.push((outcome.id, *e));
                self.processed = Ghost(es1);
                proof {
                    assert(scrub_some_entries(es1) == vals0);
                    assert(self.keys() =~= old(self).keys());
                }
            },
            Ok(Some(v)) => {
                let ghost vals1 = vals0.push((outcome.id, v@));
                proof {
                    assert(scrub_some_entries(es1) == vals1);
                    assert(vals1.drop_last() =~= vals0);
                    lemma_distinct_fingerprints_distinct(vals0);
                }
                let h = fingerprint(v);
                match find_group(&self.groups, h) {
                    Some(j) => {
                        proof {
                            assert(old(self).keys()[j as int] == h);
                            assert(distinct_fingerprints(vals0).contains(h));
                            assert(distinct_fingerprints(vals1) == distinct_fingerprints(vals0));
                        }
                        let mut pair = self.groups.remove(j);
                        pair.1.push(outcome.id);
                        self.groups.insert(j, pair);
                        proof {
                            assert(self.groups@ =~= old(self).groups@.update(
                                j as int,
                                (h, self.groups@[j as int].1),
                            ));
                            assert(self.groups@[j as int].1@ == fingerprint_group(
                                vals0,
                                h,
                            ).push(entry.id));
                            assert(self.keys() =~= distinct_fingerprints(vals1));
                            assert forall|i: int| 0 <= i < self.groups@.len() implies #[trigger] self
                                .groups@[i].1@ == fingerprint_group(vals1, self.groups@[i].0) by {
                                assert(self.keys()[i] == self.groups@[i].0);
                                assert(distinct_fingerprints(vals1)[i] == self.groups@[i].0);
                                if i == j as int {
                                    assert(self.groups@[i].1@ == fingerprint_group(vals0, h).push(
                                        entry.id,
                                    ));
                                } else {
                                    assert(distinct_fingerprints(vals1)[j as int] == h);
                                    assert(self.groups@[i].0 != h);
                                    assert(self.groups@[i].1@ == old(self).groups@[i].1@);
                                    assert(self.groups@[i].1@ == fingerprint_group(
                                        vals0,
                                        self.groups@[i].0,
                                    ));
                                }
                            }
                        }
                    },
                    None => {
                        proof {
                            assert(!distinct_fingerprints(vals0).contains(h)) by {
                                if distinct_fingerprints(vals0).contains(h) {
                                    let i = choose|i: int|
                                        0 <= i < distinct_fingerprints(vals0).len()
                                            && distinct_fingerprints(vals0)[i] == h;
                                    assert(old(self).keys()[i] == h);
                                    assert(old(self).groups@[i].0 == h);
                                }
                            }
                            assert(distinct_fingerprints(vals1) == distinct_fingerprints(
                                vals0,
                            ).push(h));
                            lemma_group_of_absent(vals0, h);
                        }
                        let mut ids: Vec<u64> = Vec::new();
                        ids.push(outcome.id);
                        self.groups.push((h, ids));
                        proof {
                            assert(self.keys() =~= distinct_fingerprints(vals1));
                            assert forall|i: int| 0 <= i < self.groups@.len() implies #[trigger] self
                                .groups@[i].1@ == fingerprint_group(vals1, self.groups@[i].0) by {
                                if i < self.groups@.len() - 1 {
                                    assert(self.groups@[i] == old(self).groups@[i]);
                                    assert(old(self).keys()[i] == self.groups@[i].0);
                                    assert(self.groups@[i].0 != h);
                                    assert(self.groups@[i].1@ == fingerprint_group(
                                        vals0,
                                        self.groups@[i].0,
                                    ));
                                } else {
                                    assert(self.groups@[i].0 == h);
                                    assert(self.groups@[i].1@ =~= fingerprint_group(vals0, h).push(
                                        entry.id,
                                    ));
                                }
                            }
                        }
                    },
                }
                self.last_value = Some(crate::outcome::copy_list(v));
                self.processed = Ghost(es1);
                proof {
                    assert(self.keys() =~= distinct_fingerprints(vals1));
                }
            },
            Ok(None) => {
                proof {
                    assert(false);
                }
            },
        }
    }
}

/// Copies the identifier groups out of the scan.
fn copy_groups(groups: &Vec<(u64, Vec<u64>)>) -> (r: Vec<Vec<u64>>)
    ensures
        r@.len() == groups@.len(),
        forall|i: int| 0 <= i < groups@.len() ==> #[trigger] r@[i]@ == groups@[i].1@,
{
    let mut r: Vec<Vec<u64>> = Vec::new();
    let mut k: usize = 0;
    while k < groups.len()
        invariant
            0 <= k <= groups@.len(),
            r@.len() == k,
            forall|i: int| 0 <= i < k ==> #[trigger] r@[i]@ == groups@[i].1@,
        decreases groups@.len() - k,
    {
        let pair = &groups[k];
        r.push(crate::outcome::copy_list(&pair.1));
        k += 1;
    }
    r
}

/// Concatenates two identifier lists.
fn concat_ids(a: &Vec<u64>, b: &Vec<u64>) -> (r: Vec<u64>)
    ensures
        r@ == a@ + b@,
{
    let mut r = crate::outcome::copy_list(a);
    let mut k: usize = 0;
    while k < b.len()
        invariant
            0 <= k <= b@.len(),
            r@ == a@ + b@.subrange(0, k as int),
        decreases b@.len() - k,
    {
        r.push(b[k]);
        proof {
            assert(a@ + b@.subrange(0, k + 1) =~= (a@ + b@.subrange(0, k as int)).push(
                b@[k as int],
            ));
        }
        k += 1;
    }
    proof {
        assert(a@ + b@.subrange(0, b@.len() as int) =~= a@ + b@);
    }
    r
}

impl ScrubScan {
    /// Classifies the fully absorbed scrub read.
    fn finalize(&self, main_ids: &Vec<u64>) -> (r: Result<Option<Vec<u8>>, ErrorKind>)
        requires
            self.wf(),
        ensures
            scrub_result_matches(r, scrub_resolution(main_ids@, self.entries())),
    {
        let ghost es = self.processed@;
        let ghost vals = scrub_some_entries(es);
        match &self.last_value {
            None => {
                // no store returned a value
                if self.missing_main.len() == 0 && self.missing_write_mostly.len() == 0 {
                    Err(ErrorKind::AllFailed(crate::outcome::copy_list(&self.errors)))
                } else if self.errors.len() == 0 {
                    Ok(None)
                } else {
                    Err(
                        crate::errors::write_mostly_error(
                            main_ids,
                            crate::outcome::copy_list(&self.errors),
                        ),
                    )
                }
            },
            Some(v) => {
                proof {
                    lemma_distinct_nonempty(vals);
                }
                if self.groups.len() == 1 {
                    proof {
                        assert(self.keys().len() == 1);
                    }
                    if self.missing_main.len() == 0 && self.missing_write_mostly.len() == 0 {
                        Ok(Some(crate::outcome::copy_list(v)))
                    } else {
                        Err(
                            ErrorKind::SomeMissingItem {
                                missing_main: crate::outcome::copy_list(&self.missing_main),
                                missing_write_mostly: crate::outcome::copy_list(
                                    &self.missing_write_mostly,
                                ),
                                value: Some(crate::outcome::copy_list(v)),
                            },
                        )
                    }
                } else {
                    proof {
                        assert(self.keys().len() == distinct_fingerprints(vals).len());
                        assert(self.groups@.len() >= 2);
                        assert forall|i: int|
                            0 <= i < distinct_fingerprints(vals).len() implies #[trigger] value_groups(
                            vals,
                        )[i] == self.groups@[i].1@ by {
                            assert(self.keys()[i] == self.groups@[i].0);
                            assert(distinct_fingerprints(vals)[i] == self.groups@[i].0);
                        }
                    }
                    Err(
                        ErrorKind::ValueMismatch(
                            copy_groups(&self.groups),
                            concat_ids(&self.missing_main, &self.missing_write_mostly),
                        ),
                    )
                }
            },
        }
    }
}

impl MultiplexedBlobstoreBase {
    /// A diagnostic read over every store's outcome: classifies agreement
    /// and disagreement between the stores for one key.
    ///
    /// `main_results` and `write_mostly_results` carry each store's
    /// outcome in completion order. In the mode that only populates
    /// absent write-mostly stores, the caller may first try the fast
    /// path: when every write-mostly store already holds one and the
    /// same value, that value is trusted outright and the main stores
    /// are never consulted.
    pub fn scrub_get(
        &self,
        main_results: &Vec<GetOutcome>,
        write_mostly_results: &Vec<GetOutcome>,
        write_mostly: ScrubWriteMostly,
    ) -> (r: Result<Option<Vec<u8>>, ErrorKind>)
        ensures
            (write_mostly is ScrubIfAbsent && write_mostly_agreement(
                write_mostly_results.deep_view(),
            )) ==> (r matches Ok(Some(v)) && (write_mostly_results.deep_view().last().result
                matches Ok(Some(w)) && v@ == w)),
            !(write_mostly is ScrubIfAbsent && write_mostly_agreement(
                write_mostly_results.deep_view(),
            )) ==> scrub_result_matches(
                r,
                scrub_resolution(
                    self.spec_main_ids(),
                    scrub_inputs(
                        main_results.deep_view(),
                        write_mostly_results.deep_view(),
                        write_mostly,
                    ),
                ),
            ),
    {
        if matches!(write_mostly, ScrubWriteMostly::ScrubIfAbsent) {
            if let Some(v) = write_mostly_all_agree(write_mostly_results) {
                return Ok(Some(v));
            }
        }
        let ghost mainv = main_results.deep_view();
        let ghost wmv = write_mostly_results.deep_view();
        let ghost target = scrub_inputs(mainv, wmv, write_mostly);
        let treat_as_none = matches!(
            write_mostly,
            ScrubWriteMostly::PopulateIfAbsent | ScrubWriteMostly::ScrubIfAbsent
        );
        let mut scan = ScrubScan::new();
        let mut i: usize = 0;
        proof {
            assert(scan.entries() =~= target.take(0));
        }
        while i < main_results.len()
            invariant
                0 <= i <= main_results@.len(),
                mainv == main_results.deep_view(),
                wmv == write_mostly_results.deep_view(),
                target == scrub_inputs(mainv, wmv, write_mostly),
                treat_as_none == !queries_write_mostly(write_mostly),
                scan.wf(),
                scan.entries() == target.take(i as int),
            decreases main_results@.len() - i,
        {
            let outcome = &main_results[i];
            proof {
                assert(target[i as int] == scrub_entry_model(
                    false,
                    false,
                    main_results@[i as int].deep_view(),
                ));
                assert(target.take(i + 1) =~= target.take(i as int).push(target[i as int]));
            }
            scan.absorb(false, false, outcome);
            i += 1;
        }
        let mut k: usize = 0;
        while k < write_mostly_results.len()
            invariant
                0 <= k <= write_mostly_results@.len(),
                mainv == main_results.deep_view(),
                wmv == write_mostly_results.deep_view(),
                target == scrub_inputs(mainv, wmv, write_mostly),
                treat_as_none == !queries_write_mostly(write_mostly),
                scan.wf(),
                scan.entries() == target.take(mainv.len() + k),
            decreases write_mostly_results@.len() - k,
        {
            let outcome = &write_mostly_results[k];
            proof {
                assert(target[mainv.len() + k] == scrub_entry_model(
                    true,
                    treat_as_none,
                    write_mostly_results@[k as int].deep_view(),
                ));
                assert(target.take(mainv.len() + k + 1) =~= target.take(mainv.len() + k).push(
                    target[mainv.len() + k],
                ));
            }
            scan.absorb(true, treat_as_none, outcome);
            k += 1;
        }
        proof {
            assert(target.take(mainv.len() + wmv.len() as int) =~= target);
        }
        scan.finalize(self.main_ids())
    }
}

/// Over entries that unanimously carry one value, the scan's structures
/// collapse: no errors, no missing stores, one fingerprint.
proof fn lemma_scrub_uniform(es: Seq<ScrubEntryModel>, v: Seq<u8>)
    requires
        forall|i: int|
            0 <= i < es.len() ==> #[trigger] es[i].result == Ok::<Option<Seq<u8>>, StoreError>(
                Some(v),
            ),
    ensures
        scrub_err_entries(es).len() == 0,
        scrub_missing_ids(es, false).len() == 0,
        scrub_missing_ids(es, true).len() == 0,
        scrub_some_entries(es).len() == es.len(),
        es.len() > 0 ==> distinct_fingerprints(scrub_some_entries(es)) =~= seq![xxhash64_of(v)],
        es.len() > 0 ==> scrub_last_value(scrub_some_entries(es)) == v,
    decreases es.len(),
{
    if es.len() > 0 {
        assert forall|i: int|
            0 <= i < es.drop_last().len() implies #[trigger] es.drop_last()[i].result == Ok::<
            Option<Seq<u8>>,
            StoreError,
        >(Some(v)) by {
            assert(es.drop_last()[i] == es[i]);
        }
        lemma_scrub_uniform(es.drop_last(), v);
        assert(es[es.len() - 1].result == Ok::<Option<Seq<u8>>, StoreError>(Some(v)));
        let vals = scrub_some_entries(es);
        let vals0 = scrub_some_entries(es.drop_last());
        assert(vals == vals0.push((es.last().id, v)));
        assert(vals.drop_last() =~= vals0);
        if es.len() == 1 {
            assert(distinct_fingerprints(vals0) =~= Seq::<u64>::empty());
            assert(distinct_fingerprints(vals) =~= seq![xxhash64_of(v)]);
        } else {
            assert(distinct_fingerprints(vals0) =~= seq![xxhash64_of(v)]);
            assert(distinct_fingerprints(vals0).contains(xxhash64_of(v))) by {
                assert(distinct_fingerprints(vals0)[0] == xxhash64_of(v));
            }
            assert(distinct_fingerprints(vals) =~= seq![xxhash64_of(v)]);
        }
    }
}

/// A scrub over stores that all hold one and the same value concludes
/// that the value is consistent and returns it.
pub proof fn lemma_scrub_consistent(main_ids: Seq<u64>, es: Seq<ScrubEntryModel>, v: Seq<u8>)
    requires
        es.len() > 0,
        forall|i: int|
            0 <= i < es.len() ==> #[trigger] es[i].result == Ok::<Option<Seq<u8>>, StoreError>(
                Some(v),
            ),
    ensures
        scrub_resolution(main_ids, es) == ScrubResolution::Consistent(v),
{
    lemma_scrub_uniform(es, v);
}

/// The stores that answered with exactly the given value, in order.
pub open spec fn value_holders(es: Seq<ScrubEntryModel>, v: Seq<u8>) -> Seq<u64>
    decreases es.len(),
{
    if es.len() == 0 {
        Seq::empty()
    } else {
        let rest = value_holders(es.drop_last(), v);
        if es.last().result == Ok::<Option<Seq<u8>>, StoreError>(Some(v)) {
            rest.push(es.last().id)
        } else {
            rest
        }
    }
}

/// Membership in a pushed sequence.
proof fn lemma_push_contains(s: Seq<u64>, x: u64)
    ensures
        forall|y: u64| #[trigger] s.push(x).contains(y) <==> (s.contains(y) || y == x),
{
    assert forall|y: u64| #[trigger] s.push(x).contains(y) implies (s.contains(y) || y == x) by {
        let i = choose|i: int| 0 <= i < s.push(x).len() && s.push(x)[i] == y;
        if i < s.len() {
            assert(s[i] == y);
        }
    }
    assert forall|y: u64| (s.contains(y) || y == x) implies #[trigger] s.push(x).contains(y) by {
        if s.contains(y) {
            let i = choose|i: int| 0 <= i < s.len() && s[i] == y;
            assert(s.push(x)[i] == y);
        } else {
            assert(s.push(x)[s.len() as int] == y);
        }
    }
}

/// A value nobody answered with has no holder.
proof fn lemma_no_holder(es: Seq<ScrubEntryModel>, v: Seq<u8>)
    requires
        forall|i: int|
            0 <= i < es.len() ==> (#[trigger] es[i].result) != Ok::<Option<Seq<u8>>, StoreError>(
                Some(v),
            ),
    ensures
        value_holders(es, v) == Seq::<u64>::empty(),
    decreases es.len(),
{
    if es.len() > 0 {
        assert(es[es.len() - 1].result != Ok::<Option<Seq<u8>>, StoreError>(Some(v)));
        assert forall|i: int|
            0 <= i < es.drop_last().len() implies (#[trigger] es.drop_last()[i].result) != Ok::<
            Option<Seq<u8>>,
            StoreError,
        >(Some(v)) by {
            assert(es.drop_last()[i] == es[i]);
        }
        lemma_no_holder(es.drop_last(), v);
    }
}

/// A value exactly one store answered with has that store as its only
/// holder.
proof fn lemma_single_holder(es: Seq<ScrubEntryModel>, v: Seq<u8>, k: int)
    requires
        0 <= k < es.len(),
        es[k].result == Ok::<Option<Seq<u8>>, StoreError>(Some(v)),
        forall|i: int|
            0 <= i < es.len() && i != k ==> (#[trigger] es[i].result) != Ok::<
                Option<Seq<u8>>,
                StoreError,
            >(Some(v)),
    ensures
        value_holders(es, v) =~= seq![es[k].id],
    decreases es.len(),
{
    if k == es.len() - 1 {
        assert forall|i: int|
            0 <= i < es.drop_last().len() implies (#[trigger] es.drop_last()[i].result) != Ok::<
            Option<Seq<u8>>,
            StoreError,
        >(Some(v)) by {
            assert(es.drop_last()[i] == es[i]);
        }
        lemma_no_holder(es.drop_last(), v);
        assert(es.last() == es[k]);
    } else {
        assert(es[es.len() - 1].result != Ok::<Option<Seq<u8>>, StoreError>(Some(v)));
        assert(es.drop_last()[k] == es[k]);
        assert forall|i: int|
            0 <= i < es.drop_last().len() && i != k implies (#[trigger] es.drop_last()[i].result)
            != Ok::<Option<Seq<u8>>, StoreError>(Some(v)) by {
            assert(es.drop_last()[i] == es[i]);
        }
        lemma_single_holder(es.drop_last(), v, k);
    }
}

/// A value some store answered with has a holder.
proof fn lemma_some_holder(es: Seq<ScrubEntryModel>, v: Seq<u8>, i: int)
    requires
        0 <= i < es.len(),
        es[i].result == Ok::<Option<Seq<u8>>, StoreError>(Some(v)),
    ensures
        value_holders(es, v).len() > 0,
    decreases es.len(),
{
    if i == es.len() - 1 {
        assert(es.last() == es[i]);
    } else {
        assert(es.drop_last()[i] == es[i]);
        lemma_some_holder(es.drop_last(), v, i);
    }
}

/// Over entries that only ever answer with one of two values (or with
/// nothing), the fingerprint groups are exactly the two values' holders,
/// and no third fingerprint appears.
proof fn lemma_two_value_scan(es: Seq<ScrubEntryModel>, v: Seq<u8>, w: Seq<u8>)
    requires
        xxhash64_of(v) != xxhash64_of(w),
        forall|i: int|
            0 <= i < es.len() ==> ((#[trigger] es[i].result) == Ok::<Option<Seq<u8>>, StoreError>(
                Some(v),
            ) || es[i].result == Ok::<Option<Seq<u8>>, StoreError>(Some(w)) || es[i].result
                matches Ok(None)),
    ensures
        fingerprint_group(scrub_some_entries(es), xxhash64_of(v)) == value_holders(es, v),
        fingerprint_group(scrub_some_entries(es), xxhash64_of(w)) == value_holders(es, w),
        distinct_fingerprints(scrub_some_entries(es)).contains(xxhash64_of(v)) <==> value_holders(
            es,
            v,
        ).len() > 0,
        distinct_fingerprints(scrub_some_entries(es)).contains(xxhash64_of(w)) <==> value_holders(
            es,
            w,
        ).len() > 0,
        forall|x: u64|
            #[trigger] distinct_fingerprints(scrub_some_entries(es)).contains(x) ==> (x
                == xxhash64_of(v) || x == xxhash64_of(w)),
    decreases es.len(),
{
    let hv = xxhash64_of(v);
    let hw = xxhash64_of(w);
    assert(v != w);
    if es.len() == 0 {
        assert(scrub_some_entries(es) == Seq::<(u64, Seq<u8>)>::empty());
        assert(!distinct_fingerprints(scrub_some_entries(es)).contains(hv));
        assert(!distinct_fingerprints(scrub_some_entries(es)).contains(hw));
    } else {
        let prefix = es.drop_last();
        assert forall|i: int|
            0 <= i < prefix.len() implies ((#[trigger] prefix[i].result) == Ok::<
            Option<Seq<u8>>,
            StoreError,
        >(Some(v)) || prefix[i].result == Ok::<Option<Seq<u8>>, StoreError>(Some(w))
            || prefix[i].result matches Ok(None)) by {
            assert(prefix[i] == es[i]);
        }
        lemma_two_value_scan(prefix, v, w);
        let pvals = scrub_some_entries(prefix);
        let vals = scrub_some_entries(es);
        let d = distinct_fingerprints(pvals);
        assert(es[es.len() - 1] == es.last());
        if es.last().result == Ok::<Option<Seq<u8>>, StoreError>(Some(v)) {
            assert(vals == pvals.push((es.last().id, v)));
            assert(vals.drop_last() =~= pvals);
            assert(fingerprint_group(vals, hv) == fingerprint_group(pvals, hv).push(
                es.last().id,
            ));
            assert(value_holders(es, v) == value_holders(prefix, v).push(es.last().id));
            assert(es.last().result != Ok::<Option<Seq<u8>>, StoreError>(Some(w)));
            assert(fingerprint_group(vals, hw) == fingerprint_group(pvals, hw));
            assert(value_holders(es, w) == value_holders(prefix, w));
            if d.contains(hv) {
                assert(distinct_fingerprints(vals) == d);
            } else {
                assert(distinct_fingerprints(vals) == d.push(hv));
                lemma_push_contains(d, hv);
            }
            assert(value_holders(es, v).len() > 0);
            assert(distinct_fingerprints(vals).contains(hv)) by {
                if !d.contains(hv) {
                    lemma_push_contains(d, hv);
                }
            }
        } else if es.last().result == Ok::<Option<Seq<u8>>, StoreError>(Some(w)) {
            assert(vals == pvals.push((es.last().id, w)));
            assert(vals.drop_last() =~= pvals);
            assert(fingerprint_group(vals, hw) == fingerprint_group(pvals, hw).push(
                es.last().id,
            ));
            assert(value_holders(es, w) == value_holders(prefix, w).push(es.last().id));
            assert(fingerprint_group(vals, hv) == fingerprint_group(pvals, hv));
            assert(value_holders(es, v) == value_holders(prefix, v));
            if d.contains(hw) {
                assert(distinct_fingerprints(vals) == d);
            } else {
                assert(distinct_fingerprints(vals) == d.push(hw));
                lemma_push_contains(d, hw);
            }
            assert(value_holders(es, w).len() > 0);
            assert(distinct_fingerprints(vals).contains(hw)) by {
                if !d.contains(hw) {
                    lemma_push_contains(d, hw);
                }
            }
        } else {
            assert(es.last().result matches Ok(None));
            assert(vals == pvals);
            assert(value_holders(es, v) == value_holders(prefix, v));
            assert(value_holders(es, w) == value_holders(prefix, w));
        }
    }
}

/// One store answering with a value of its own, beside stores that hold
/// one common value or nothing, forces a mismatch naming exactly two
/// groups: the common value's holders and the lone divergent store; the
/// stores without the key are reported missing. (Two different values
/// may in principle share a fingerprint; the conclusion holds whenever
/// that rare collision does not occur.)
pub proof fn lemma_scrub_disagreement(
    main_ids: Seq<u64>,
    es: Seq<ScrubEntryModel>,
    v: Seq<u8>,
    w: Seq<u8>,
    k: int,
)
    requires
        0 <= k < es.len(),
        es[k].result == Ok::<Option<Seq<u8>>, StoreError>(Some(w)),
        forall|i: int|
            0 <= i < es.len() && i != k ==> ((#[trigger] es[i].result) == Ok::<
                Option<Seq<u8>>,
                StoreError,
            >(Some(v)) || es[i].result matches Ok(None)),
        exists|i: int|
            0 <= i < es.len() && i != k && (#[trigger] es[i].result) == Ok::<
                Option<Seq<u8>>,
                StoreError,
            >(Some(v)),
    ensures
        xxhash64_of(v) != xxhash64_of(w) ==> {
            &&& scrub_resolution(main_ids, es) matches ScrubResolution::Mismatch {
                grouped,
                missing,
            }
            &&& missing == scrub_missing_ids(es, false) + scrub_missing_ids(es, true)
            &&& grouped.len() == 2
            &&& ((grouped[0] == value_holders(es, v) && grouped[1] == seq![es[k].id]) || (
            grouped[0] == seq![es[k].id] && grouped[1] == value_holders(es, v)))
        },
{
    if xxhash64_of(v) != xxhash64_of(w) {
        let hv = xxhash64_of(v);
        let hw = xxhash64_of(w);
        assert(v != w);
        assert forall|i: int|
            0 <= i < es.len() implies ((#[trigger] es[i].result) == Ok::<
            Option<Seq<u8>>,
            StoreError,
        >(Some(v)) || es[i].result == Ok::<Option<Seq<u8>>, StoreError>(Some(w)) || es[i].result
            matches Ok(None)) by {
            if i != k {
                assert(es[i].result == Ok::<Option<Seq<u8>>, StoreError>(Some(v)) || es[i].result
                    matches Ok(None));
            }
        }
        lemma_two_value_scan(es, v, w);
        let vals = scrub_some_entries(es);
        let d = distinct_fingerprints(vals);

        // the divergent store is the only holder of its value
        assert forall|i: int|
            0 <= i < es.len() && i != k implies (#[trigger] es[i].result) != Ok::<
            Option<Seq<u8>>,
            StoreError,
        >(Some(w)) by {
            if es[i].result == Ok::<Option<Seq<u8>>, StoreError>(Some(v)) {
                assert(es[i].result != Ok::<Option<Seq<u8>>, StoreError>(Some(w)));
            }
        }
        lemma_single_holder(es, w, k);
        assert(value_holders(es, w) == seq![es[k].id]);
        assert(value_holders(es, w).len() > 0);

        // the common value has a holder too
        let iv = choose|i: int|
            0 <= i < es.len() && i != k && (#[trigger] es[i].result) == Ok::<
                Option<Seq<u8>>,
                StoreError,
            >(Some(v));
        lemma_some_holder(es, v, iv);

        // exactly the two fingerprints appear, each once
        assert(d.contains(hv));
        assert(d.contains(hw));
        lemma_distinct_fingerprints_distinct(vals);
        let jv = choose|j: int| 0 <= j < d.len() && d[j] == hv;
        let jw = choose|j: int| 0 <= j < d.len() && d[j] == hw;
        assert(jv != jw);
        assert(d.len() >= 2);
        assert(d.len() <= 2) by {
            if d.len() >= 3 {
                assert(d.contains(d[0]));
                assert(d.contains(d[1]));
                assert(d.contains(d[2]));
                assert(d[0] == hv || d[0] == hw);
                assert(d[1] == hv || d[1] == hw);
                assert(d[2] == hv || d[2] == hw);
            }
        }
        assert(d.len() == 2);
        assert(d.contains(d[0]) && d.contains(d[1])) by {
            assert(d[0] == d[0] && 0 <= 0 < d.len());
            assert(d[1] == d[1] && 0 <= 1 < d.len());
        }
        assert(d[0] != d[1]);
        assert((d[0] == hv && d[1] == hw) || (d[0] == hw && d[1] == hv)) by {
            assert(0 <= jv < 2 && 0 <= jw < 2);
        }

        // vals is nonempty, so the mismatch branch is taken
        assert(vals.len() > 0) by {
            if vals.len() == 0 {
                assert(d.len() == 0);
            }
        }
        assert(value_groups(vals).len() == 2);
        assert(value_groups(vals)[0] == fingerprint_group(vals, d[0]));
        assert(value_groups(vals)[1] == fingerprint_group(vals, d[1]));
    }
}

} // verus!
