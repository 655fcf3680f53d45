use multiplexedblob::errors::ErrorKind;
use multiplexedblob::outcome::{GetOutcome, StoreError};
use multiplexedblob::registry::MultiplexedBlobstoreBase;
use multiplexedblob::scrub::{write_mostly_all_agree, ScrubWriteMostly};

fn ok_some(id: u64, bytes: &[u8]) -> GetOutcome {
    GetOutcome { id, result: Ok(Some(bytes.to_vec())) }
}

fn ok_none(id: u64) -> GetOutcome {
    GetOutcome { id, result: Ok(None) }
}

fn failed(id: u64, code: u64) -> GetOutcome {
    GetOutcome { id, result: Err(StoreError::Other(code)) }
}

#[test]
fn test_scrub_consistent_value() {
    // Every store holds byte-identical content: the shared value comes
    // back, confidently correct.
    let base = MultiplexedBlobstoreBase::new(1, vec![1, 2], vec![3], 1);
    let main = vec![ok_some(1, b"payload"), ok_some(2, b"payload")];
    let wm = vec![ok_some(3, b"payload")];
    assert_eq!(
        base.scrub_get(&main, &wm, ScrubWriteMostly::Scrub),
        Ok(Some(b"payload".to_vec()))
    );
}

#[test]
fn test_scrub_two_distinct_values_mismatch() {
    // Two stores answer with different content for the same key: a
    // mismatch naming the two singleton groups, with nothing missing.
    let base = MultiplexedBlobstoreBase::new(1, vec![1, 2], vec![], 1);
    let main = vec![ok_some(1, b"one"), ok_some(2, b"two")];
    let r = base.scrub_get(&main, &vec![], ScrubWriteMostly::Scrub);
    assert_eq!(r, Err(ErrorKind::ValueMismatch(vec![vec![1], vec![2]], vec![])));
}

#[test]
fn test_scrub_divergent_store_beside_missing_store() {
    // One store diverges, one store has nothing: two groups, and the
    // empty store reported missing.
    let base = MultiplexedBlobstoreBase::new(1, vec![1, 2, 3], vec![], 1);
    let main = vec![ok_some(1, b"common"), ok_some(2, b"stray"), ok_none(3)];
    let r = base.scrub_get(&main, &vec![], ScrubWriteMostly::Scrub);
    assert_eq!(r, Err(ErrorKind::ValueMismatch(vec![vec![1], vec![2]], vec![3])));
}

#[test]
fn test_scrub_mismatch_groups_by_content() {
    let base = MultiplexedBlobstoreBase::new(1, vec![1, 2, 3], vec![], 1);
    let main = vec![ok_some(1, b"one"), ok_some(2, b"two"), ok_some(3, b"one")];
    let r = base.scrub_get(&main, &vec![], ScrubWriteMostly::Scrub);
    assert_eq!(r, Err(ErrorKind::ValueMismatch(vec![vec![1, 3], vec![2]], vec![])));
}

#[test]
fn test_scrub_some_stores_missing_item() {
    let base = MultiplexedBlobstoreBase::new(1, vec![1, 2, 3], vec![], 1);
    let main = vec![ok_some(1, b"data"), ok_none(2), ok_some(3, b"data")];
    let r = base.scrub_get(&main, &vec![], ScrubWriteMostly::Scrub);
    assert_eq!(
        r,
        Err(ErrorKind::SomeMissingItem {
            missing_main: vec![2],
            missing_write_mostly: vec![],
            value: Some(b"data".to_vec()),
        })
    );
}

#[test]
fn test_scrub_all_absent_is_no_data() {
    let base = MultiplexedBlobstoreBase::new(1, vec![1, 2], vec![3], 1);
    let main = vec![ok_none(1), ok_none(2)];
    let wm = vec![ok_none(3)];
    assert_eq!(base.scrub_get(&main, &wm, ScrubWriteMostly::Scrub), Ok(None));
}

#[test]
fn test_scrub_all_failed() {
    let base = MultiplexedBlobstoreBase::new(1, vec![1, 2], vec![], 1);
    let main = vec![failed(1, 4), failed(2, 5)];
    let r = base.scrub_get(&main, &vec![], ScrubWriteMostly::Scrub);
    assert_eq!(
        r,
        Err(ErrorKind::AllFailed(vec![(1, StoreError::Other(4)), (2, StoreError::Other(5))]))
    );
}

#[test]
fn test_scrub_main_failed_write_mostly_absent_counts_as_all_failed() {
    let base = MultiplexedBlobstoreBase::new(1, vec![1, 2], vec![3], 1);
    let main = vec![failed(1, 4), failed(2, 5)];
    let wm = vec![ok_none(3)];
    let r = base.scrub_get(&main, &wm, ScrubWriteMostly::Scrub);
    assert_eq!(
        r,
        Err(ErrorKind::AllFailed(vec![(1, StoreError::Other(4)), (2, StoreError::Other(5))]))
    );
}

#[test]
fn test_scrub_fast_path_trusts_agreeing_write_mostly_stores() {
    // In the populate-if-absent mode with the fast path, unanimous
    // write-mostly stores answer the scrub without the main stores being
    // consulted at all — even where the main stores disagree.
    let base = MultiplexedBlobstoreBase::new(1, vec![1, 2], vec![3, 4], 1);
    let main = vec![ok_some(1, b"other"), failed(2, 9)];
    let wm = vec![ok_some(3, b"shared"), ok_some(4, b"shared")];
    assert_eq!(
        base.scrub_get(&main, &wm, ScrubWriteMostly::ScrubIfAbsent),
        Ok(Some(b"shared".to_vec()))
    );
}

#[test]
fn test_scrub_fast_path_disagreement_falls_through() {
    // When the write-mostly stores do not agree, the fast path is
    // abandoned and their entries count as absent.
    let base = MultiplexedBlobstoreBase::new(1, vec![1], vec![3, 4], 1);
    let main = vec![ok_some(1, b"data")];
    let wm = vec![ok_some(3, b"data"), ok_none(4)];
    let r = base.scrub_get(&main, &wm, ScrubWriteMostly::ScrubIfAbsent);
    assert_eq!(
        r,
        Err(ErrorKind::SomeMissingItem {
            missing_main: vec![],
            missing_write_mostly: vec![3, 4],
            value: Some(b"data".to_vec()),
        })
    );
}

#[test]
fn test_scrub_populate_if_absent_ignores_write_mostly_values() {
    let base = MultiplexedBlobstoreBase::new(1, vec![1], vec![3], 1);
    let main = vec![ok_some(1, b"data")];
    let wm = vec![ok_some(3, b"conflicting")];
    let r = base.scrub_get(&main, &wm, ScrubWriteMostly::PopulateIfAbsent);
    assert_eq!(
        r,
        Err(ErrorKind::SomeMissingItem {
            missing_main: vec![],
            missing_write_mostly: vec![3],
            value: Some(b"data".to_vec()),
        })
    );
}

#[test]
fn test_scrub_skip_missing_queries_write_mostly() {
    let base = MultiplexedBlobstoreBase::new(1, vec![1], vec![3], 1);
    let main = vec![ok_some(1, b"data")];
    let wm = vec![ok_some(3, b"data")];
    assert_eq!(
        base.scrub_get(&main, &wm, ScrubWriteMostly::SkipMissing),
        Ok(Some(b"data".to_vec()))
    );
}

#[test]
fn test_write_mostly_all_agree() {
    assert_eq!(
        write_mostly_all_agree(&vec![ok_some(1, b"v"), ok_some(2, b"v")]),
        Some(b"v".to_vec())
    );
    assert_eq!(write_mostly_all_agree(&vec![ok_some(1, b"v"), ok_some(2, b"w")]), None);
    assert_eq!(write_mostly_all_agree(&vec![ok_some(1, b"v"), ok_none(2)]), None);
    assert_eq!(write_mostly_all_agree(&vec![ok_none(1)]), None);
    assert_eq!(write_mostly_all_agree(&vec![]), None);
    assert_eq!(write_mostly_all_agree(&vec![failed(1, 2), ok_some(2, b"v")]), None);
}
