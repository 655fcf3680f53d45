use multiplexedblob::errors::{ErrorKind, PutError};
use multiplexedblob::outcome::{OverwriteStatus, StoreError};
use multiplexedblob::put::{resolve_put_events, start_put, start_put_for, PutEvent};
use multiplexedblob::registry::MultiplexedBlobstoreBase;

#[test]
fn test_quorum_above_store_count_fails_before_any_write() {
    // The guard runs before any store operation is issued: the refusal
    // comes straight from the coordinator's constructor.
    let base = MultiplexedBlobstoreBase::new(1, vec![1, 2], vec![3], 4);
    let refused = start_put_for(&base, true);
    match refused {
        Err(PutError::NotEnoughStores { available, needed }) => {
            assert_eq!(available, 3);
            assert_eq!(needed, 4);
        },
        _ => panic!("expected a refusal"),
    }
    assert!(start_put(0, 1, true).is_err());
}

#[test]
fn test_put_commits_on_quorum_of_confirmations() {
    // Three main stores, quorum of two. Stores 1 and 2 write and confirm,
    // store 3 fails: the put is acknowledged the instant the second
    // confirmation arrives, and 3's failure is not surfaced.
    let base = MultiplexedBlobstoreBase::new(1, vec![1, 2, 3], vec![], 2);
    let mut st = start_put_for(&base, true).unwrap();
    assert_eq!(st.on_event(PutEvent::PutOk(1)), None);
    assert_eq!(st.on_event(PutEvent::ConfirmOk(1)), None);
    assert_eq!(st.on_event(PutEvent::PutOk(2)), None);
    assert_eq!(st.on_event(PutEvent::PutErr(3, StoreError::Other(66))), None);
    assert_eq!(st.on_event(PutEvent::ConfirmOk(2)), Some(Ok(OverwriteStatus::NotChecked)));
}

#[test]
fn test_put_commits_when_all_raw_writes_succeed() {
    // With no failures, the put is acknowledged as soon as the last raw
    // write lands, without waiting for any confirmation.
    let base = MultiplexedBlobstoreBase::new(1, vec![1, 2], vec![3], 3);
    let mut st = start_put_for(&base, true).unwrap();
    assert_eq!(st.on_event(PutEvent::PutOk(1)), None);
    assert_eq!(st.on_event(PutEvent::PutOk(3)), None);
    assert_eq!(st.on_event(PutEvent::PutOk(2)), Some(Ok(OverwriteStatus::NotChecked)));
}

#[test]
fn test_put_single_failure_surfaces_raw_error() {
    let base = MultiplexedBlobstoreBase::new(1, vec![1, 2], vec![], 2);
    let mut st = start_put_for(&base, true).unwrap();
    assert_eq!(st.on_event(PutEvent::PutOk(1)), None);
    assert_eq!(st.on_event(PutEvent::PutErr(2, StoreError::Other(7))), None);
    assert_eq!(
        st.on_event(PutEvent::ConfirmOk(1)),
        Some(Err(PutError::Store(StoreError::Other(7))))
    );
}

#[test]
fn test_put_multiple_failures_are_wrapped() {
    let base = MultiplexedBlobstoreBase::new(1, vec![1, 2], vec![], 2);
    let mut st = start_put_for(&base, true).unwrap();
    assert_eq!(st.on_event(PutEvent::PutErr(1, StoreError::Other(7))), None);
    assert_eq!(
        st.on_event(PutEvent::PutErr(2, StoreError::OpTimeout)),
        Some(Err(PutError::Kind(ErrorKind::MultiplePutFailures(vec![
            (1, StoreError::Other(7)),
            (2, StoreError::OpTimeout),
        ]))))
    );
}

#[test]
fn test_put_confirmation_failures_count_against_quorum() {
    let base = MultiplexedBlobstoreBase::new(1, vec![1, 2], vec![], 2);
    let mut st = start_put_for(&base, true).unwrap();
    assert_eq!(st.on_event(PutEvent::PutOk(1)), None);
    assert_eq!(st.on_event(PutEvent::PutErr(2, StoreError::Other(5))), None);
    assert_eq!(
        st.on_event(PutEvent::ConfirmErr(1, StoreError::Other(6))),
        Some(Err(PutError::Kind(ErrorKind::MultiplePutFailures(vec![
            (2, StoreError::Other(5)),
            (1, StoreError::Other(6)),
        ]))))
    );
}

#[test]
fn test_background_session_polls_confirmations_lazily() {
    // In a background session confirmations are not polled while every
    // raw write is healthy; a failure or the too-slow timer changes that.
    let base = MultiplexedBlobstoreBase::new(1, vec![1, 2], vec![], 1);
    let mut st = start_put_for(&base, false).unwrap();
    assert!(!st.poll_confirmations());
    assert_eq!(st.on_event(PutEvent::PutOk(1)), None);
    assert!(!st.poll_confirmations());
    assert_eq!(st.on_event(PutEvent::TooSlow), None);
    assert!(st.poll_confirmations());
}

#[test]
fn test_background_session_commits_without_confirmations() {
    let base = MultiplexedBlobstoreBase::new(1, vec![1, 2], vec![], 1);
    let mut st = start_put_for(&base, false).unwrap();
    assert_eq!(st.on_event(PutEvent::PutOk(1)), None);
    assert_eq!(st.on_event(PutEvent::PutOk(2)), Some(Ok(OverwriteStatus::NotChecked)));
}

#[test]
fn test_background_failure_starts_polling_confirmations() {
    let base = MultiplexedBlobstoreBase::new(1, vec![1, 2], vec![], 1);
    let mut st = start_put_for(&base, false).unwrap();
    assert_eq!(st.on_event(PutEvent::PutErr(1, StoreError::Other(2))), None);
    assert!(st.poll_confirmations());
    assert_eq!(st.on_event(PutEvent::PutOk(2)), None);
    assert_eq!(st.on_event(PutEvent::ConfirmOk(2)), Some(Ok(OverwriteStatus::NotChecked)));
}

#[test]
fn test_resolve_put_events_runs_whole_trace() {
    let base = MultiplexedBlobstoreBase::new(1, vec![1, 2, 3], vec![], 2);
    let mut st = start_put_for(&base, true).unwrap();
    let events = vec![
        PutEvent::PutOk(1),
        PutEvent::ConfirmOk(1),
        PutEvent::PutOk(2),
        PutEvent::PutErr(3, StoreError::Other(66)),
        PutEvent::ConfirmOk(2),
    ];
    assert_eq!(resolve_put_events(&mut st, &events), Some(Ok(OverwriteStatus::NotChecked)));
}

#[test]
fn test_resolve_put_events_undecided_without_enough_events() {
    let base = MultiplexedBlobstoreBase::new(1, vec![1, 2], vec![], 2);
    let mut st = start_put_for(&base, true).unwrap();
    let events = vec![PutEvent::PutOk(1)];
    assert_eq!(resolve_put_events(&mut st, &events), None);
}
