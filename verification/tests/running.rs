use mergeq::commit::CommitHash;
use mergeq::decimal::PrNumber;
use mergeq::entry::{RunningEntry, RunningRow};
use mergeq::error::ErrorKind;
use mergeq::ident::PipelineId;
use mergeq::store::Store;

type TestStore = Store<CommitHash, PrNumber>;

fn running(pr: u32, commit: u8, merge: Option<u8>) -> RunningEntry<CommitHash, PrNumber> {
    RunningEntry {
        pr: PrNumber(pr),
        pull_commit: CommitHash([commit; 20]),
        merge_commit: merge.map(|m| CommitHash([m; 20])),
        message: format!("merge #{}", pr),
        canceled: false,
        built: false,
    }
}

fn row(pipeline: i32, pr: &str, commit: &str, merge: Option<&str>) -> RunningRow {
    RunningRow {
        pipeline_id: PipelineId(pipeline),
        pr: pr.to_string(),
        message: "m".to_string(),
        pull_commit: commit.to_string(),
        merge_commit: merge.map(|m| m.to_string()),
        canceled: false,
        built: true,
    }
}

#[test]
fn nothing_runs_in_a_new_store() {
    let mut store = TestStore::new();
    assert_eq!(store.peek_running(PipelineId(1)), Ok(None));
    assert_eq!(store.take_running(PipelineId(1)), Ok(None));
}

#[test]
fn put_then_peek_returns_the_entry_every_time() {
    let mut store = TestStore::new();
    store.put_running(PipelineId(1), running(4, 0x11, Some(0x22)));
    assert_eq!(store.peek_running(PipelineId(1)), Ok(Some(running(4, 0x11, Some(0x22)))));
    assert_eq!(store.peek_running(PipelineId(1)), Ok(Some(running(4, 0x11, Some(0x22)))));
    assert_eq!(store.peek_running(PipelineId(1)), Ok(Some(running(4, 0x11, Some(0x22)))));
}

#[test]
fn take_returns_the_entry_once() {
    let mut store = TestStore::new();
    store.put_running(PipelineId(1), running(4, 0x11, None));
    assert_eq!(store.take_running(PipelineId(1)), Ok(Some(running(4, 0x11, None))));
    assert_eq!(store.peek_running(PipelineId(1)), Ok(None));
    assert_eq!(store.take_running(PipelineId(1)), Ok(None));
    assert!(store.into_rows().1.is_empty());
}

#[test]
fn put_replaces_the_running_entry_wholesale() {
    let mut store = TestStore::new();
    let mut first = running(4, 0x11, Some(0x22));
    first.built = true;
    first.canceled = true;
    store.put_running(PipelineId(1), first);
    store.put_running(PipelineId(1), running(5, 0x33, None));
    assert_eq!(store.peek_running(PipelineId(1)), Ok(Some(running(5, 0x33, None))));
    assert_eq!(store.into_rows().1.len(), 1);
}

#[test]
fn put_stores_the_flags_and_the_merge_commit() {
    let mut store = TestStore::new();
    let mut entry = running(4, 0x11, Some(0x22));
    entry.built = true;
    store.put_running(PipelineId(6), entry);
    let (_, rows, _) = store.into_rows();
    assert_eq!(
        rows,
        vec![RunningRow {
            pipeline_id: PipelineId(6),
            pr: "4".to_string(),
            message: "merge #4".to_string(),
            pull_commit: "11".repeat(20),
            merge_commit: Some("22".repeat(20)),
            canceled: false,
            built: true,
        }]
    );
}

#[test]
fn what_two_pipelines_run_is_independent() {
    let mut store = TestStore::new();
    store.put_running(PipelineId(1), running(1, 1, None));
    store.put_running(PipelineId(2), running(2, 2, None));
    assert_eq!(store.take_running(PipelineId(1)), Ok(Some(running(1, 1, None))));
    assert_eq!(store.peek_running(PipelineId(2)), Ok(Some(running(2, 2, None))));
    assert_eq!(store.peek_running(PipelineId(1)), Ok(None));
}

#[test]
fn two_running_rows_for_one_pipeline_are_a_consistency_error() {
    let hash = "0a".repeat(20);
    let rows = vec![row(1, "1", &hash, None), row(2, "3", &hash, None), row(1, "2", &hash, None)];
    let mut store = TestStore::from_rows(vec![], rows.clone(), vec![]);
    assert_eq!(store.peek_running(PipelineId(1)), Err(ErrorKind::Consistency));
    assert_eq!(store.take_running(PipelineId(1)), Err(ErrorKind::Consistency));
    assert!(matches!(store.peek_running(PipelineId(2)), Ok(Some(_))));
    assert_eq!(store.into_rows().1, rows);
}

#[test]
fn put_running_mends_a_pipeline_with_two_rows() {
    let hash = "0a".repeat(20);
    let rows = vec![row(1, "1", &hash, None), row(1, "2", &hash, None)];
    let mut store = TestStore::from_rows(vec![], rows, vec![]);
    store.put_running(PipelineId(1), running(3, 3, None));
    assert_eq!(store.peek_running(PipelineId(1)), Ok(Some(running(3, 3, None))));
}

#[test]
fn a_running_row_that_does_not_decode_is_reported_and_kept() {
    let hash = "0a".repeat(20);
    let rows = vec![row(1, "1", &hash, Some("not a hash"))];
    let mut store = TestStore::from_rows(vec![], rows.clone(), vec![]);
    assert_eq!(store.peek_running(PipelineId(1)), Err(ErrorKind::Decode));
    assert_eq!(store.take_running(PipelineId(1)), Err(ErrorKind::Decode));
    assert_eq!(store.into_rows().1, rows);
}

#[test]
fn a_running_row_with_a_number_too_large_is_a_decode_error() {
    let hash = "0a".repeat(20);
    let mut store = TestStore::from_rows(vec![], vec![row(1, "4294967296", &hash, None)], vec![]);
    assert_eq!(store.peek_running(PipelineId(1)), Err(ErrorKind::Decode));
}
