use mergeq::commit::CommitHash;
use mergeq::decimal::PrNumber;
use mergeq::entry::{PendingEntry, PendingRow};
use mergeq::error::ErrorKind;
use mergeq::ident::PipelineId;
use mergeq::store::Store;

type TestStore = Store<CommitHash, PrNumber>;

fn pending(pr: u32, commit: u8) -> PendingEntry<CommitHash, PrNumber> {
    PendingEntry { pr: PrNumber(pr), commit: CommitHash([commit; 20]) }
}

fn row(pipeline: i32, pr: &str, commit: &str) -> PendingRow {
    PendingRow {
        pipeline_id: PipelineId(pipeline),
        pr: pr.to_string(),
        pull_commit: commit.to_string(),
    }
}

#[test]
fn nothing_is_pending_in_a_new_store() {
    let mut store = TestStore::new();
    assert_eq!(store.peek_pending_by_pr(PipelineId(1), &PrNumber(1)), Ok(None));
    assert_eq!(store.take_pending_by_pr(PipelineId(1), &PrNumber(1)), Ok(None));
}

#[test]
fn add_pending_twice_keeps_the_second_commit() {
    let mut store = TestStore::new();
    store.add_pending(PipelineId(1), pending(5, 0xc1));
    store.add_pending(PipelineId(1), pending(5, 0xc2));
    assert_eq!(store.peek_pending_by_pr(PipelineId(1), &PrNumber(5)), Ok(Some(pending(5, 0xc2))));
    let (_, _, rows) = store.into_rows();
    assert_eq!(rows, vec![row(1, "5", &"c2".repeat(20))]);
}

#[test]
fn peek_pending_does_not_remove() {
    let mut store = TestStore::new();
    store.add_pending(PipelineId(1), pending(5, 1));
    assert_eq!(store.peek_pending_by_pr(PipelineId(1), &PrNumber(5)), Ok(Some(pending(5, 1))));
    assert_eq!(store.peek_pending_by_pr(PipelineId(1), &PrNumber(5)), Ok(Some(pending(5, 1))));
}

#[test]
fn take_pending_returns_the_entry_once() {
    let mut store = TestStore::new();
    store.add_pending(PipelineId(1), pending(5, 1));
    assert_eq!(store.take_pending_by_pr(PipelineId(1), &PrNumber(5)), Ok(Some(pending(5, 1))));
    assert_eq!(store.take_pending_by_pr(PipelineId(1), &PrNumber(5)), Ok(None));
    assert_eq!(store.peek_pending_by_pr(PipelineId(1), &PrNumber(5)), Ok(None));
}

#[test]
fn pending_entries_of_other_pull_requests_and_pipelines_stay() {
    let mut store = TestStore::new();
    store.add_pending(PipelineId(1), pending(5, 1));
    store.add_pending(PipelineId(1), pending(6, 2));
    store.add_pending(PipelineId(2), pending(5, 3));
    store.add_pending(PipelineId(1), pending(5, 4));
    assert_eq!(store.take_pending_by_pr(PipelineId(1), &PrNumber(5)), Ok(Some(pending(5, 4))));
    assert_eq!(store.peek_pending_by_pr(PipelineId(1), &PrNumber(6)), Ok(Some(pending(6, 2))));
    assert_eq!(store.peek_pending_by_pr(PipelineId(2), &PrNumber(5)), Ok(Some(pending(5, 3))));
}

#[test]
fn two_pending_rows_for_one_pull_request_are_a_consistency_error() {
    let rows = vec![row(1, "5", &"01".repeat(20)), row(1, "5", &"02".repeat(20))];
    let mut store = TestStore::from_rows(vec![], vec![], rows.clone());
    assert_eq!(store.peek_pending_by_pr(PipelineId(1), &PrNumber(5)), Err(ErrorKind::Consistency));
    assert_eq!(store.take_pending_by_pr(PipelineId(1), &PrNumber(5)), Err(ErrorKind::Consistency));
    assert_eq!(store.into_rows().2, rows);
}

#[test]
fn add_pending_mends_a_pull_request_with_two_rows() {
    let rows = vec![row(1, "5", &"01".repeat(20)), row(1, "5", &"02".repeat(20))];
    let mut store = TestStore::from_rows(vec![], vec![], rows);
    store.add_pending(PipelineId(1), pending(5, 3));
    assert_eq!(store.peek_pending_by_pr(PipelineId(1), &PrNumber(5)), Ok(Some(pending(5, 3))));
}

#[test]
fn a_pending_row_that_does_not_decode_is_reported_and_kept() {
    let rows = vec![row(1, "5", "0102")];
    let mut store = TestStore::from_rows(vec![], vec![], rows.clone());
    assert_eq!(store.peek_pending_by_pr(PipelineId(1), &PrNumber(5)), Err(ErrorKind::Decode));
    assert_eq!(store.take_pending_by_pr(PipelineId(1), &PrNumber(5)), Err(ErrorKind::Decode));
    assert_eq!(store.into_rows().2, rows);
}

#[test]
fn a_pending_row_is_found_by_its_canonical_text_only() {
    let rows = vec![row(1, "05", &"01".repeat(20))];
    let mut store = TestStore::from_rows(vec![], vec![], rows);
    assert_eq!(store.peek_pending_by_pr(PipelineId(1), &PrNumber(5)), Ok(None));
}
