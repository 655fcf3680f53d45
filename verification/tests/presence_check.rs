use multiplexedblob::errors::ErrorKind;
use multiplexedblob::outcome::{Presence, StoreError};
use multiplexedblob::presence::{
    is_present, PresenceDoubt, PresenceOutcome, PresenceState, PresenceVerdict,
};
use multiplexedblob::registry::MultiplexedBlobstoreBase;

fn base_three_stores() -> MultiplexedBlobstoreBase {
    MultiplexedBlobstoreBase::new(1, vec![1, 2], vec![3], 1)
}

fn present(id: u64) -> PresenceOutcome {
    PresenceOutcome { id, result: Ok(Presence::Present) }
}

fn absent(id: u64) -> PresenceOutcome {
    PresenceOutcome { id, result: Ok(Presence::Absent) }
}

fn failed(id: u64, code: u64) -> PresenceOutcome {
    PresenceOutcome { id, result: Err(StoreError::Other(code)) }
}

#[test]
fn test_comprehensive_absent_short_circuits() {
    // One absence decides a comprehensive check at once: the two stores
    // that have not answered (and never will, in this test) are not
    // waited for.
    let base = base_three_stores();
    let mut st = PresenceState::new(&base, true);
    let decision = st.on_outcome(absent(2));
    assert_eq!(decision, Some(Ok(PresenceVerdict::Absent)));
}

#[test]
fn test_regular_present_short_circuits() {
    let base = base_three_stores();
    let mut st = PresenceState::new(&base, false);
    let decision = st.on_outcome(present(3));
    assert_eq!(decision, Some(Ok(PresenceVerdict::Present)));
}

#[test]
fn test_comprehensive_all_present() {
    let base = base_three_stores();
    let outcomes = vec![present(1), present(2), present(3)];
    assert_eq!(is_present(&base, true, &outcomes), Ok(PresenceVerdict::Present));
}

#[test]
fn test_comprehensive_present_and_errors_is_doubt() {
    let base = base_three_stores();
    let outcomes = vec![present(1), failed(2, 9), present(3)];
    assert_eq!(
        is_present(&base, true, &outcomes),
        Ok(PresenceVerdict::ProbablyNotPresent(PresenceDoubt::SomeFailed(vec![(
            2,
            StoreError::Other(9),
        )])))
    );
}

#[test]
fn test_comprehensive_all_failed() {
    let base = base_three_stores();
    let outcomes = vec![failed(1, 7), failed(2, 8), failed(3, 9)];
    let expected = vec![
        (1, StoreError::Other(7)),
        (2, StoreError::Other(8)),
        (3, StoreError::Other(9)),
    ];
    assert_eq!(is_present(&base, true, &outcomes), Err(ErrorKind::AllFailed(expected)));
}

#[test]
fn test_regular_all_absent() {
    let base = base_three_stores();
    let outcomes = vec![absent(1), absent(2), absent(3)];
    assert_eq!(is_present(&base, false, &outcomes), Ok(PresenceVerdict::Absent));
}

#[test]
fn test_regular_mixed_absent_and_errors_is_doubt() {
    let base = base_three_stores();
    let outcomes = vec![failed(1, 7), absent(2), absent(3)];
    assert_eq!(
        is_present(&base, false, &outcomes),
        Ok(PresenceVerdict::ProbablyNotPresent(PresenceDoubt::SomeFailed(vec![(
            1,
            StoreError::Other(7),
        )])))
    );
}

#[test]
fn test_regular_main_failures_beside_an_absence_stay_soft() {
    // Even with every main store failing, one store's affirmative absence
    // keeps the verdict a soft doubt: only a check where every store
    // failed is a hard failure.
    let base = base_three_stores();
    let outcomes = vec![failed(1, 7), failed(2, 8), absent(3)];
    let expected = vec![(1, StoreError::Other(7)), (2, StoreError::Other(8))];
    assert_eq!(
        is_present(&base, false, &outcomes),
        Ok(PresenceVerdict::ProbablyNotPresent(PresenceDoubt::SomeFailed(expected)))
    );
}

#[test]
fn test_regular_all_failed() {
    let base = base_three_stores();
    let outcomes = vec![failed(1, 7), failed(2, 8), failed(3, 9)];
    let expected = vec![
        (1, StoreError::Other(7)),
        (2, StoreError::Other(8)),
        (3, StoreError::Other(9)),
    ];
    assert_eq!(is_present(&base, false, &outcomes), Err(ErrorKind::AllFailed(expected)));
}

#[test]
fn test_store_level_doubt_counts_as_error() {
    let base = base_three_stores();
    let outcomes = vec![
        PresenceOutcome { id: 1, result: Ok(Presence::ProbablyNotPresent(StoreError::Other(3))) },
        absent(2),
        absent(3),
    ];
    assert_eq!(
        is_present(&base, false, &outcomes),
        Ok(PresenceVerdict::ProbablyNotPresent(PresenceDoubt::SomeFailed(vec![(
            1,
            StoreError::Other(3),
        )])))
    );
}

#[test]
fn test_overall_timeout_degrades_to_doubt() {
    let base = base_three_stores();
    let st = PresenceState::new(&base, false);
    assert_eq!(
        st.on_overall_timeout(),
        Ok(PresenceVerdict::ProbablyNotPresent(PresenceDoubt::CheckTimeout))
    );
}
