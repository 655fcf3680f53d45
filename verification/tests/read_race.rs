use multiplexedblob::errors::ErrorKind;
use multiplexedblob::get::{blobstore_get, GetState};
use multiplexedblob::outcome::{
    inner_put, multiplexed_get_one, remap_timeout_result, Elapsed, GetOutcome, OverwriteStatus,
    StoreError,
};
use multiplexedblob::registry::MultiplexedBlobstoreBase;

fn base_two_main_one_write_mostly() -> MultiplexedBlobstoreBase {
    MultiplexedBlobstoreBase::new(7, vec![1, 2], vec![3], 1)
}

fn ok_some(id: u64, bytes: &[u8]) -> GetOutcome {
    GetOutcome { id, result: Ok(Some(bytes.to_vec())) }
}

fn ok_none(id: u64) -> GetOutcome {
    GetOutcome { id, result: Ok(None) }
}

fn failed(id: u64, code: u64) -> GetOutcome {
    GetOutcome { id, result: Err(StoreError::Other(code)) }
}

#[test]
fn test_get_first_value_wins() {
    let base = base_two_main_one_write_mostly();
    let outcomes = vec![ok_none(1), ok_some(2, b"hello"), ok_none(3)];
    assert_eq!(blobstore_get(&base, &outcomes), Ok(Some(b"hello".to_vec())));
}

#[test]
fn test_get_value_wins_over_earlier_failures() {
    let base = base_two_main_one_write_mostly();
    let outcomes = vec![failed(1, 11), failed(2, 12), ok_some(3, b"fallback")];
    assert_eq!(blobstore_get(&base, &outcomes), Ok(Some(b"fallback".to_vec())));
}

#[test]
fn test_get_all_absent_is_absent() {
    let base = base_two_main_one_write_mostly();
    let outcomes = vec![ok_none(1), ok_none(2), ok_none(3)];
    assert_eq!(blobstore_get(&base, &outcomes), Ok(None));
}

#[test]
fn test_get_all_failed() {
    let base = base_two_main_one_write_mostly();
    let outcomes = vec![failed(1, 11), failed(2, 12), failed(3, 13)];
    let expected = vec![
        (1, StoreError::Other(11)),
        (2, StoreError::Other(12)),
        (3, StoreError::Other(13)),
    ];
    assert_eq!(blobstore_get(&base, &outcomes), Err(ErrorKind::AllFailed(expected)));
}

#[test]
fn test_get_main_failed_write_mostly_empty_counts_as_all_failed() {
    // The write-mostly store might simply not be populated yet, so its
    // "no value" answer proves nothing: all main stores failing is a full
    // failure.
    let base = base_two_main_one_write_mostly();
    let outcomes = vec![failed(1, 11), failed(2, 12), ok_none(3)];
    let expected = vec![(1, StoreError::Other(11)), (2, StoreError::Other(12))];
    assert_eq!(blobstore_get(&base, &outcomes), Err(ErrorKind::AllFailed(expected)));
}

#[test]
fn test_get_some_failed_others_none() {
    let base = base_two_main_one_write_mostly();
    let outcomes = vec![failed(1, 11), ok_none(2), ok_none(3)];
    let expected = vec![(1, StoreError::Other(11))];
    assert_eq!(blobstore_get(&base, &outcomes), Err(ErrorKind::SomeFailedOthersNone(expected)));
}

#[test]
fn test_get_machine_decides_on_first_hit() {
    // The race is decided the instant one store has the value; the other
    // stores' answers are never needed.
    let base = base_two_main_one_write_mostly();
    let mut st = GetState::new(&base);
    let decision = st.on_outcome(ok_some(2, b"quick"));
    assert_eq!(decision, Some(Ok(Some(b"quick".to_vec()))));
}

#[test]
fn test_get_machine_waits_for_all_on_miss() {
    let base = base_two_main_one_write_mostly();
    let mut st = GetState::new(&base);
    assert_eq!(st.on_outcome(ok_none(1)), None);
    assert_eq!(st.on_outcome(failed(2, 5)), None);
    let decision = st.on_outcome(ok_none(3));
    assert_eq!(
        decision,
        Some(Err(ErrorKind::SomeFailedOthersNone(vec![(2, StoreError::Other(5))])))
    );
}

#[test]
fn test_remap_timeout_result_passes_results_through() {
    assert_eq!(remap_timeout_result::<u32>(Ok(Ok(17))), Ok(17));
    assert_eq!(
        remap_timeout_result::<u32>(Ok(Err(StoreError::Other(4)))),
        Err(StoreError::Other(4))
    );
}

#[test]
fn test_remap_timeout_result_substitutes_timeout_error() {
    assert_eq!(remap_timeout_result::<u32>(Err(Elapsed)), Err(StoreError::OpTimeout));
}

#[test]
fn test_inner_put_settles_with_store_id() {
    assert_eq!(
        inner_put(9, Ok(Ok(OverwriteStatus::New))),
        (9, Ok(OverwriteStatus::New))
    );
    assert_eq!(inner_put(9, Err(Elapsed)), (9, Err(StoreError::OpTimeout)));
}

#[test]
fn test_multiplexed_get_one_settles_with_store_id() {
    let settled = multiplexed_get_one(4, Ok(Ok(Some(b"x".to_vec()))));
    assert_eq!(settled.id, 4);
    assert_eq!(settled.result, Ok(Some(b"x".to_vec())));
    let timed_out = multiplexed_get_one(4, Err(Elapsed));
    assert_eq!(timed_out.result, Err(StoreError::OpTimeout));
}

#[test]
fn test_registry_accessors() {
    let base = MultiplexedBlobstoreBase::new(42, vec![10, 20], vec![30], 2);
    assert_eq!(base.multiplex_id(), 42);
    assert_eq!(base.main_ids().as_slice(), &[10, 20]);
    assert_eq!(base.write_mostly_ids().as_slice(), &[30]);
    assert_eq!(base.minimum_successful_writes(), 2);
    assert_eq!(base.total_stores(), 3);
}
