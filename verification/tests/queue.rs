use mergeq::commit::CommitHash;
use mergeq::decimal::PrNumber;
use mergeq::entry::{QueueEntry, QueueRow};
use mergeq::error::ErrorKind;
use mergeq::ident::PipelineId;
use mergeq::store::Store;

type TestStore = Store<CommitHash, PrNumber>;

fn entry(pr: u32, commit: u8, message: &str) -> QueueEntry<CommitHash, PrNumber> {
    QueueEntry { pr: PrNumber(pr), commit: CommitHash([commit; 20]), message: message.to_string() }
}

fn row(pipeline: i32, pr: &str, commit: &str, message: &str) -> QueueRow {
    QueueRow {
        pipeline_id: PipelineId(pipeline),
        pr: pr.to_string(),
        message: message.to_string(),
        pull_commit: commit.to_string(),
    }
}

#[test]
fn pop_of_an_empty_queue_returns_nothing() {
    let mut store = TestStore::new();
    assert_eq!(store.pop_queue(PipelineId(1)), Ok(None));
    let (queue, running, pending) = store.into_rows();
    assert!(queue.is_empty() && running.is_empty() && pending.is_empty());
}

#[test]
fn push_then_pop_returns_the_entry_and_empties_the_queue() {
    let mut store = TestStore::new();
    store.push_queue(PipelineId(1), entry(7, 0xab, "test it"));
    assert_eq!(store.pop_queue(PipelineId(1)), Ok(Some(entry(7, 0xab, "test it"))));
    assert_eq!(store.pop_queue(PipelineId(1)), Ok(None));
    assert!(store.into_rows().0.is_empty());
}

#[test]
fn push_stores_the_canonical_texts() {
    let mut store = TestStore::new();
    store.push_queue(PipelineId(3), entry(1203, 0x0f, "r+"));
    let (queue, _, _) = store.into_rows();
    assert_eq!(queue, vec![row(3, "1203", &"0f".repeat(20), "r+")]);
}

#[test]
fn three_entries_leave_in_the_order_they_arrived() {
    let mut store = TestStore::new();
    store.push_queue(PipelineId(1), entry(1, 1, "first"));
    store.push_queue(PipelineId(1), entry(2, 2, "second"));
    store.push_queue(PipelineId(1), entry(3, 3, "third"));
    assert_eq!(store.pop_queue(PipelineId(1)), Ok(Some(entry(1, 1, "first"))));
    assert_eq!(store.pop_queue(PipelineId(1)), Ok(Some(entry(2, 2, "second"))));
    assert_eq!(store.pop_queue(PipelineId(1)), Ok(Some(entry(3, 3, "third"))));
    assert_eq!(store.pop_queue(PipelineId(1)), Ok(None));
}

#[test]
fn the_same_entry_may_be_queued_twice() {
    let mut store = TestStore::new();
    store.push_queue(PipelineId(1), entry(1, 1, "again"));
    store.push_queue(PipelineId(1), entry(1, 1, "again"));
    assert_eq!(store.pop_queue(PipelineId(1)), Ok(Some(entry(1, 1, "again"))));
    assert_eq!(store.pop_queue(PipelineId(1)), Ok(Some(entry(1, 1, "again"))));
    assert_eq!(store.pop_queue(PipelineId(1)), Ok(None));
}

#[test]
fn queues_of_two_pipelines_do_not_mix() {
    let mut store = TestStore::new();
    store.push_queue(PipelineId(1), entry(1, 1, "a"));
    store.push_queue(PipelineId(2), entry(2, 2, "b"));
    store.push_queue(PipelineId(1), entry(3, 3, "c"));
    assert_eq!(store.pop_queue(PipelineId(2)), Ok(Some(entry(2, 2, "b"))));
    assert_eq!(store.pop_queue(PipelineId(2)), Ok(None));
    assert_eq!(store.pop_queue(PipelineId(1)), Ok(Some(entry(1, 1, "a"))));
    assert_eq!(store.pop_queue(PipelineId(1)), Ok(Some(entry(3, 3, "c"))));
    assert_eq!(store.pop_queue(PipelineId(1)), Ok(None));
}

#[test]
fn one_entry_is_delivered_to_one_of_two_claims() {
    let mut store = TestStore::new();
    store.push_queue(PipelineId(1), entry(9, 9, "only"));
    let first = store.pop_queue(PipelineId(1));
    let second = store.pop_queue(PipelineId(1));
    assert_eq!(first, Ok(Some(entry(9, 9, "only"))));
    assert_eq!(second, Ok(None));
}

#[test]
fn pop_takes_the_earliest_row_of_its_pipeline() {
    let hash = "0a".repeat(20);
    let mut store = TestStore::from_rows(
        vec![row(2, "5", &hash, "other"), row(1, "6", &hash, "mine"), row(1, "7", &hash, "later")],
        vec![],
        vec![],
    );
    assert_eq!(store.pop_queue(PipelineId(1)), Ok(Some(entry(6, 0x0a, "mine"))));
    let (queue, _, _) = store.into_rows();
    assert_eq!(queue, vec![row(2, "5", &hash, "other"), row(1, "7", &hash, "later")]);
}

#[test]
fn a_queued_row_that_does_not_decode_is_reported_and_kept() {
    let hash = "0a".repeat(20);
    let rows = vec![row(1, "seven", &hash, "bad pr"), row(1, "8", &hash, "good")];
    let mut store = TestStore::from_rows(rows.clone(), vec![], vec![]);
    assert_eq!(store.pop_queue(PipelineId(1)), Err(ErrorKind::Decode));
    assert_eq!(store.pop_queue(PipelineId(1)), Err(ErrorKind::Decode));
    assert_eq!(store.into_rows().0, rows);
}

#[test]
fn a_queued_row_with_a_bad_commit_is_a_decode_error() {
    let mut store = TestStore::from_rows(vec![row(1, "8", "0a0a", "short")], vec![], vec![]);
    assert_eq!(store.pop_queue(PipelineId(1)), Err(ErrorKind::Decode));
    assert_eq!(store.pop_queue(PipelineId(2)), Ok(None));
}

#[test]
fn a_leading_zero_in_a_stored_number_is_read() {
    let hash = "ff".repeat(20);
    let mut store = TestStore::from_rows(vec![row(1, "007", &hash, "m")], vec![], vec![]);
    assert_eq!(store.pop_queue(PipelineId(1)), Ok(Some(entry(7, 0xff, "m"))));
}
