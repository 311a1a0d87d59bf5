use mergeq::commit::CommitHash;
use mergeq::decimal::PrNumber;
use mergeq::entry::{PendingEntry, QueueEntry, RunningEntry};
use mergeq::ident::PipelineId;
use mergeq::store::Store;

type TestStore = Store<CommitHash, PrNumber>;

fn queued(pr: u32, commit: u8) -> QueueEntry<CommitHash, PrNumber> {
    QueueEntry { pr: PrNumber(pr), commit: CommitHash([commit; 20]), message: "q".to_string() }
}

fn running(pr: u32, commit: u8, canceled: bool) -> RunningEntry<CommitHash, PrNumber> {
    RunningEntry {
        pr: PrNumber(pr),
        pull_commit: CommitHash([commit; 20]),
        merge_commit: Some(CommitHash([0xee; 20])),
        message: "r".to_string(),
        canceled,
        built: true,
    }
}

#[test]
fn cancel_by_pr_deletes_queued_and_cancels_running() {
    let mut store = TestStore::new();
    store.push_queue(PipelineId(1), queued(10, 1));
    store.push_queue(PipelineId(1), queued(11, 2));
    store.push_queue(PipelineId(1), queued(10, 3));
    store.put_running(PipelineId(1), running(10, 1, false));
    store.cancel_by_pr(PipelineId(1), &PrNumber(10));
    assert_eq!(store.peek_running(PipelineId(1)), Ok(Some(running(10, 1, true))));
    assert_eq!(store.pop_queue(PipelineId(1)), Ok(Some(queued(11, 2))));
    assert_eq!(store.pop_queue(PipelineId(1)), Ok(None));
}

#[test]
fn cancel_by_pr_leaves_another_pull_request_running() {
    let mut store = TestStore::new();
    store.put_running(PipelineId(1), running(11, 1, false));
    store.cancel_by_pr(PipelineId(1), &PrNumber(10));
    assert_eq!(store.peek_running(PipelineId(1)), Ok(Some(running(11, 1, false))));
}

#[test]
fn cancel_by_pr_leaves_other_pipelines_and_pending_entries() {
    let mut store = TestStore::new();
    store.push_queue(PipelineId(2), queued(10, 1));
    store.put_running(PipelineId(2), running(10, 1, false));
    store.add_pending(PipelineId(1), PendingEntry { pr: PrNumber(10), commit: CommitHash([5; 20]) });
    store.cancel_by_pr(PipelineId(1), &PrNumber(10));
    assert_eq!(store.peek_running(PipelineId(2)), Ok(Some(running(10, 1, false))));
    assert_eq!(store.pop_queue(PipelineId(2)), Ok(Some(queued(10, 1))));
    assert_eq!(
        store.peek_pending_by_pr(PipelineId(1), &PrNumber(10)),
        Ok(Some(PendingEntry { pr: PrNumber(10), commit: CommitHash([5; 20]) }))
    );
}

#[test]
fn cancel_by_pr_different_commit_spares_the_same_commit() {
    let mut store = TestStore::new();
    store.put_running(PipelineId(1), running(10, 7, false));
    let affected =
        store.cancel_by_pr_different_commit(PipelineId(1), &PrNumber(10), &CommitHash([7; 20]));
    assert!(!affected);
    assert_eq!(store.peek_running(PipelineId(1)), Ok(Some(running(10, 7, false))));
}

#[test]
fn cancel_by_pr_different_commit_cancels_another_commit() {
    let mut store = TestStore::new();
    store.put_running(PipelineId(1), running(10, 7, false));
    let affected =
        store.cancel_by_pr_different_commit(PipelineId(1), &PrNumber(10), &CommitHash([8; 20]));
    assert!(affected);
    assert_eq!(store.peek_running(PipelineId(1)), Ok(Some(running(10, 7, true))));
}

#[test]
fn cancel_by_pr_different_commit_deletes_stale_queue_entries_only() {
    let mut store = TestStore::new();
    store.push_queue(PipelineId(1), queued(10, 7));
    store.push_queue(PipelineId(1), queued(10, 6));
    store.push_queue(PipelineId(1), queued(11, 6));
    store.put_running(PipelineId(1), running(10, 7, false));
    let affected =
        store.cancel_by_pr_different_commit(PipelineId(1), &PrNumber(10), &CommitHash([7; 20]));
    assert!(affected);
    assert_eq!(store.peek_running(PipelineId(1)), Ok(Some(running(10, 7, false))));
    assert_eq!(store.pop_queue(PipelineId(1)), Ok(Some(queued(10, 7))));
    assert_eq!(store.pop_queue(PipelineId(1)), Ok(Some(queued(11, 6))));
    assert_eq!(store.pop_queue(PipelineId(1)), Ok(None));
}

#[test]
fn cancel_by_pr_different_commit_on_nothing_reports_nothing() {
    let mut store = TestStore::new();
    store.push_queue(PipelineId(1), queued(11, 6));
    store.put_running(PipelineId(2), running(10, 6, false));
    let affected =
        store.cancel_by_pr_different_commit(PipelineId(1), &PrNumber(10), &CommitHash([7; 20]));
    assert!(!affected);
    assert_eq!(store.peek_running(PipelineId(2)), Ok(Some(running(10, 6, false))));
    assert_eq!(store.pop_queue(PipelineId(1)), Ok(Some(queued(11, 6))));
}

#[test]
fn cancel_by_pr_different_commit_counts_a_row_that_was_canceled_before() {
    let mut store = TestStore::new();
    store.put_running(PipelineId(1), running(10, 7, true));
    let affected =
        store.cancel_by_pr_different_commit(PipelineId(1), &PrNumber(10), &CommitHash([8; 20]));
    assert!(affected);
    assert_eq!(store.peek_running(PipelineId(1)), Ok(Some(running(10, 7, true))));
}

#[test]
fn a_canceled_entry_stays_until_it_is_taken() {
    let mut store = TestStore::new();
    store.put_running(PipelineId(1), running(10, 7, false));
    store.cancel_by_pr(PipelineId(1), &PrNumber(10));
    assert_eq!(store.take_running(PipelineId(1)), Ok(Some(running(10, 7, true))));
    assert_eq!(store.peek_running(PipelineId(1)), Ok(None));
}
