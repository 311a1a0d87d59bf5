use mergeq::commit::CommitHash;
use mergeq::decimal::PrNumber;
use mergeq::entry::{PendingEntry, PendingRow, QueueEntry, QueueRow, RunningEntry, RunningRow};
use mergeq::error::ErrorKind;
use mergeq::ident::{PipelineId, TextId};

fn bytes() -> [u8; 20] {
    [0, 1, 2, 3, 4, 5, 6, 7, 8, 9, 10, 11, 12, 13, 14, 15, 16, 0x7f, 0x80, 0xff]
}

#[test]
fn a_pull_request_number_is_written_in_decimal() {
    assert_eq!(PrNumber(0).encode(), "0");
    assert_eq!(PrNumber(7).encode(), "7");
    assert_eq!(PrNumber(10).encode(), "10");
    assert_eq!(PrNumber(1203).encode(), "1203");
    assert_eq!(PrNumber(u32::MAX).encode(), "4294967295");
}

#[test]
fn a_pull_request_number_is_read_from_decimal() {
    assert_eq!(PrNumber::decode("0"), Some(PrNumber(0)));
    assert_eq!(PrNumber::decode("1203"), Some(PrNumber(1203)));
    assert_eq!(PrNumber::decode("007"), Some(PrNumber(7)));
    assert_eq!(PrNumber::decode("4294967295"), Some(PrNumber(u32::MAX)));
    assert_eq!(PrNumber::decode("0000000000004294967295"), Some(PrNumber(u32::MAX)));
}

#[test]
fn a_text_that_is_no_pull_request_number_is_refused() {
    assert_eq!(PrNumber::decode(""), None);
    assert_eq!(PrNumber::decode("x"), None);
    assert_eq!(PrNumber::decode("12a"), None);
    assert_eq!(PrNumber::decode("a12"), None);
    assert_eq!(PrNumber::decode("-1"), None);
    assert_eq!(PrNumber::decode("+1"), None);
    assert_eq!(PrNumber::decode(" 1"), None);
    assert_eq!(PrNumber::decode("1 "), None);
    assert_eq!(PrNumber::decode("4294967296"), None);
    assert_eq!(PrNumber::decode("99999999999999999999999999"), None);
}

#[test]
fn a_pull_request_number_is_read_back_from_its_text() {
    for n in [0u32, 1, 9, 10, 99, 100, 65535, 65536, 999_999_999, 1_000_000_000, u32::MAX] {
        assert_eq!(PrNumber::decode(&PrNumber(n).encode()), Some(PrNumber(n)));
    }
}

#[test]
fn a_commit_hash_is_written_in_lower_case_hexadecimal() {
    assert_eq!(CommitHash(bytes()).encode(), "000102030405060708090a0b0c0d0e0f107f80ff");
    assert_eq!(CommitHash([0xab; 20]).encode(), "ab".repeat(20));
}

#[test]
fn a_commit_hash_is_read_from_hexadecimal() {
    assert_eq!(
        CommitHash::decode("000102030405060708090a0b0c0d0e0f107f80ff"),
        Some(CommitHash(bytes()))
    );
    assert_eq!(CommitHash::decode(&"00".repeat(20)), Some(CommitHash([0; 20])));
}

#[test]
fn a_text_that_is_no_commit_hash_is_refused() {
    assert_eq!(CommitHash::decode(""), None);
    assert_eq!(CommitHash::decode(&"ab".repeat(19)), None);
    assert_eq!(CommitHash::decode(&"ab".repeat(21)), None);
    assert_eq!(CommitHash::decode(&"a".repeat(39)), None);
    assert_eq!(CommitHash::decode(&"AB".repeat(20)), None);
    assert_eq!(CommitHash::decode(&"0g".repeat(20)), None);
    assert_eq!(CommitHash::decode(&format!("{}{}", "00".repeat(19), "0 ")), None);
    assert_eq!(CommitHash::decode(&format!("{}{}", "x0", "00".repeat(19))), None);
}

#[test]
fn a_commit_hash_is_read_back_from_its_text() {
    for hash in [CommitHash(bytes()), CommitHash([0; 20]), CommitHash([0xff; 20])] {
        assert_eq!(CommitHash::decode(&hash.encode()), Some(hash));
    }
}

#[test]
fn a_queue_entry_is_read_back_from_its_row() {
    let entry = QueueEntry {
        pr: PrNumber(42),
        commit: CommitHash(bytes()),
        message: "Merge #42".to_string(),
    };
    let row = entry.to_row(PipelineId(-3));
    assert_eq!(
        row,
        QueueRow {
            pipeline_id: PipelineId(-3),
            pr: "42".to_string(),
            message: "Merge #42".to_string(),
            pull_commit: "000102030405060708090a0b0c0d0e0f107f80ff".to_string(),
        }
    );
    assert_eq!(QueueEntry::from_row(&row), Ok(entry));
}

#[test]
fn a_running_entry_is_read_back_from_its_row() {
    for merge in [None, Some(CommitHash([9; 20]))] {
        let entry = RunningEntry {
            pr: PrNumber(42),
            pull_commit: CommitHash(bytes()),
            merge_commit: merge,
            message: String::new(),
            canceled: true,
            built: false,
        };
        let row = entry.to_row(PipelineId(1));
        assert_eq!(row.merge_commit, merge.map(|m| m.encode()));
        assert_eq!(RunningEntry::from_row(&row), Ok(entry));
    }
}

#[test]
fn a_pending_entry_is_read_back_from_its_row() {
    let entry = PendingEntry { pr: PrNumber(42), commit: CommitHash(bytes()) };
    let row = entry.to_row(PipelineId(1));
    assert_eq!(PendingEntry::from_row(&row), Ok(entry));
}

#[test]
fn a_row_with_a_bad_identifier_is_a_decode_error() {
    let good = "00".repeat(20);
    let queue = QueueRow {
        pipeline_id: PipelineId(1),
        pr: "".to_string(),
        message: "m".to_string(),
        pull_commit: good.clone(),
    };
    assert_eq!(QueueEntry::<CommitHash, PrNumber>::from_row(&queue), Err(ErrorKind::Decode));
    let running = RunningRow {
        pipeline_id: PipelineId(1),
        pr: "1".to_string(),
        message: "m".to_string(),
        pull_commit: good.clone(),
        merge_commit: Some("".to_string()),
        canceled: false,
        built: false,
    };
    assert_eq!(RunningEntry::<CommitHash, PrNumber>::from_row(&running), Err(ErrorKind::Decode));
    let pending =
        PendingRow { pipeline_id: PipelineId(1), pr: "1".to_string(), pull_commit: "1".to_string() };
    assert_eq!(PendingEntry::<CommitHash, PrNumber>::from_row(&pending), Err(ErrorKind::Decode));
}
