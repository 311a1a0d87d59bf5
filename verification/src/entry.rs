//! What the store holds: entries as callers see them, and the rows in which
//! they are persisted, with every identifier as its canonical text.

use vstd::prelude::*;
use crate::error::ErrorKind;
use crate::ident::{PipelineId, TextId};
use crate::table::{Row, RowKey};

verus! {

/// A request to test a commit of a pull request.
#[derive(Clone, Debug, PartialEq, Eq)]
pub struct QueueEntry<C, P> {
    pub pr: P,
    pub commit: C,
    pub message: String,
}

/// The test that a pipeline is running.
#[derive(Clone, Debug, PartialEq, Eq)]
pub struct RunningEntry<C, P> {
    pub pr: P,
    pub pull_commit: C,
    pub merge_commit: Option<C>,
    pub message: String,
    pub canceled: bool,
    pub built: bool,
}

/// A request that waits for an outside decision.
#[derive(Clone, Debug, PartialEq, Eq)]
pub struct PendingEntry<C, P> {
    pub pr: P,
    pub commit: C,
}

pub struct QueueEntryView<C, P> {
    pub pr: P,
    pub commit: C,
    pub message: Seq<char>,
}

pub struct RunningEntryView<C, P> {
    pub pr: P,
    pub pull_commit: C,
    pub merge_commit: Option<C>,
    pub message: Seq<char>,
    pub canceled: bool,
    pub built: bool,
}

impl<C, P> View for QueueEntry<C, P> {
    type V = QueueEntryView<C, P>;

    open spec fn view(&self) -> QueueEntryView<C, P> {
        QueueEntryView { pr: self.pr, commit: self.commit, message: self.message@ }
    }
}

impl<C, P> View for RunningEntry<C, P> {
    type V = RunningEntryView<C, P>;

    open spec fn view(&self) -> RunningEntryView<C, P> {
        RunningEntryView {
            pr: self.pr,
            pull_commit: self.pull_commit,
            merge_commit: self.merge_commit,
            message: self.message@,
            canceled: self.canceled,
            built: self.built,
        }
    }
}

impl<C, P> View for PendingEntry<C, P> {
    type V = PendingEntry<C, P>;

    open spec fn view(&self) -> PendingEntry<C, P> {
        *self
    }
}

/// A row of the table `queue`.
#[derive(Clone, Debug, PartialEq, Eq)]
pub struct QueueRow {
    pub pipeline_id: PipelineId,
    pub pr: String,
    pub message: String,
    pub pull_commit: String,
}

/// A row of the table `running`.
#[derive(Clone, Debug, PartialEq, Eq)]
pub struct RunningRow {
    pub pipeline_id: PipelineId,
    pub pr: String,
    pub message: String,
    pub pull_commit: String,
    pub merge_commit: Option<String>,
    pub canceled: bool,
    pub built: bool,
}

/// A row of the table `pending`.
#[derive(Clone, Debug, PartialEq, Eq)]
pub struct PendingRow {
    pub pipeline_id: PipelineId,
    pub pr: String,
    pub pull_commit: String,
}

pub struct QueueRowView {
    pub pipeline_id: PipelineId,
    pub pr: Seq<char>,
    pub message: Seq<char>,
    pub pull_commit: Seq<char>,
}

pub struct RunningRowView {
    pub pipeline_id: PipelineId,
    pub pr: Seq<char>,
    pub message: Seq<char>,
    pub pull_commit: Seq<char>,
    pub merge_commit: Option<Seq<char>>,
    pub canceled: bool,
    pub built: bool,
}

pub struct PendingRowView {
    pub pipeline_id: PipelineId,
    pub pr: Seq<char>,
    pub pull_commit: Seq<char>,
}

impl View for QueueRow {
    type V = QueueRowView;

    open spec fn view(&self) -> QueueRowView {
        QueueRowView {
            pipeline_id: self.pipeline_id,
            pr: self.pr@,
            message: self.message@,
            pull_commit: self.pull_commit@,
        }
    }
}

impl View for RunningRow {
    type V = RunningRowView;

    open spec fn view(&self) -> RunningRowView {
        RunningRowView {
            pipeline_id: self.pipeline_id,
            pr: self.pr@,
            message: self.message@,
            pull_commit: self.pull_commit@,
            merge_commit: match self.merge_commit {
                Some(m) => Some(m@),
                None => None,
            },
            canceled: self.canceled,
            built: self.built,
        }
    }
}

impl View for PendingRow {
    type V = PendingRowView;

    open spec fn view(&self) -> PendingRowView {
        PendingRowView { pipeline_id: self.pipeline_id, pr: self.pr@, pull_commit: self.pull_commit@ }
    }
}

impl Row for QueueRow {
    open spec fn key(v: QueueRowView) -> RowKey {
        RowKey { pipeline_id: v.pipeline_id, pr: v.pr, pull_commit: v.pull_commit }
    }

    fn pipeline_id(&self) -> PipelineId {
        self.pipeline_id
    }

    fn pr(&self) -> &String {
        &self.pr
    }

    fn pull_commit(&self) -> &String {
        &self.pull_commit
    }

    fn copy(&self) -> QueueRow {
        QueueRow {
            pipeline_id: self.pipeline_id,
            pr: self.pr.clone(),
            message: self.message.clone(),
            pull_commit: self.pull_commit.clone(),
        }
    }
}

impl Row for RunningRow {
    open spec fn key(v: RunningRowView) -> RowKey {
        RowKey { pipeline_id: v.pipeline_id, pr: v.pr, pull_commit: v.pull_commit }
    }

    fn pipeline_id(&self) -> PipelineId {
        self.pipeline_id
    }

    fn pr(&self) -> &String {
        &self.pr
    }

    fn pull_commit(&self) -> &String {
        &self.pull_commit
    }

    fn copy(&self) -> RunningRow {
        RunningRow {
            pipeline_id: self.pipeline_id,
            pr: self.pr.clone(),
            message: self.message.clone(),
            pull_commit: self.pull_commit.clone(),
            merge_commit: match &self.merge_commit {
                Some(m) => Some(m.clone()),
                None => None,
            },
            canceled: self.canceled,
            built: self.built,
        }
    }
}

impl Row for PendingRow {
    open spec fn key(v: PendingRowView) -> RowKey {
        RowKey { pipeline_id: v.pipeline_id, pr: v.pr, pull_commit: v.pull_commit }
    }

    fn pipeline_id(&self) -> PipelineId {
        self.pipeline_id
    }

    fn pr(&self) -> &String {
        &self.pr
    }

    fn pull_commit(&self) -> &String {
        &self.pull_commit
    }

    fn copy(&self) -> PendingRow {
        PendingRow {
            pipeline_id: self.pipeline_id,
            pr: self.pr.clone(),
            pull_commit: self.pull_commit.clone(),
        }
    }
}

impl<C: TextId, P: TextId> QueueEntryView<C, P> {
    /// The row in which the entry is persisted.
    pub open spec fn row(self, pipeline_id: PipelineId) -> QueueRowView {
        QueueRowView {
            pipeline_id,
            pr: self.pr.text(),
            message: self.message,
            pull_commit: self.commit.text(),
        }
    }
}

impl QueueRowView {
    /// The entry that the row holds, if its identifiers decode.
    pub open spec fn entry<C: TextId, P: TextId>(self) -> Option<QueueEntryView<C, P>> {
        match (P::parse(self.pr), C::parse(self.pull_commit)) {
            (Some(pr), Some(commit)) => Some(QueueEntryView { pr, commit, message: self.message }),
            _ => None,
        }
    }
}

impl<C: TextId, P: TextId> RunningEntryView<C, P> {
    /// The row in which the entry is persisted.
    pub open spec fn row(self, pipeline_id: PipelineId) -> RunningRowView {
        RunningRowView {
            pipeline_id,
            pr: self.pr.text(),
            message: self.message,
            pull_commit: self.pull_commit.text(),
            merge_commit: match self.merge_commit {
                Some(m) => Some(m.text()),
                None => None,
            },
            canceled: self.canceled,
            built: self.built,
        }
    }
}

impl RunningRowView {
    /// The merge commit that the row holds: none, one that decodes, or one that does not.
    pub open spec fn merge<C: TextId>(self) -> Option<Option<C>> {
        match self.merge_commit {
            None => Some(None),
            Some(m) => match C::parse(m) {
                Some(c) => Some(Some(c)),
                None => None,
            },
        }
    }

    /// The entry that the row holds, if its identifiers decode.
    pub open spec fn entry<C: TextId, P: TextId>(self) -> Option<RunningEntryView<C, P>> {
        match (P::parse(self.pr), C::parse(self.pull_commit), self.merge::<C>()) {
            (Some(pr), Some(pull_commit), Some(merge_commit)) => Some(
                RunningEntryView {
                    pr,
                    pull_commit,
                    merge_commit,
                    message: self.message,
                    canceled: self.canceled,
                    built: self.built,
                },
            ),
            _ => None,
        }
    }

    /// The same row, marked as canceled.
    pub open spec fn cancel(self) -> RunningRowView {
        RunningRowView { canceled: true, ..self }
    }
}

impl<C: TextId, P: TextId> PendingEntry<C, P> {
    /// The row in which the entry is persisted.
    pub open spec fn row(self, pipeline_id: PipelineId) -> PendingRowView {
        PendingRowView { pipeline_id, pr: self.pr.text(), pull_commit: self.commit.text() }
    }
}

impl PendingRowView {
    /// The entry that the row holds, if its identifiers decode.
    pub open spec fn entry<C: TextId, P: TextId>(self) -> Option<PendingEntry<C, P>> {
        match (P::parse(self.pr), C::parse(self.pull_commit)) {
            (Some(pr), Some(commit)) => Some(PendingEntry { pr, commit }),
            _ => None,
        }
    }
}

/// What reading a row gives: the entry it holds, or a decode error.
pub open spec fn read<E: View>(r: Result<E, ErrorKind>, held: Option<E::V>) -> bool {
    match r {
        Ok(e) => held == Some(e@),
        Err(k) => k == ErrorKind::Decode && held is None,
    }
}

impl<C: TextId, P: TextId> QueueEntry<C, P> {
    pub fn to_row(&self, pipeline_id: PipelineId) -> (row: QueueRow)
        ensures
            row@ == self@.row(pipeline_id),
    {
        QueueRow {
            pipeline_id,
            pr: self.pr.encode(),
            message: self.message.clone(),
            pull_commit: self.commit.encode(),
        }
    }

    pub fn from_row(row: &QueueRow) -> (r: Result<QueueEntry<C, P>, ErrorKind>)
        ensures
            read(r, row@.entry::<C, P>()),
    {
        let pr = match P::decode(row.pr.as_str()) {
            Some(pr) => pr,
            None => {
                return Err(ErrorKind::Decode);
            },
        };
        let commit = match C::decode(row.pull_commit.as_str()) {
            Some(commit) => commit,
            None => {
                return Err(ErrorKind::Decode);
            },
        };
        Ok(QueueEntry { pr, commit, message: row.message.clone() })
    }
}

impl<C: TextId, P: TextId> RunningEntry<C, P> {
    pub fn to_row(&self, pipeline_id: PipelineId) -> (row: RunningRow)
        ensures
            row@ == self@.row(pipeline_id),
    {
        RunningRow {
            pipeline_id,
            pr: self.pr.encode(),
            message: self.message.clone(),
            pull_commit: self.pull_commit.encode(),
            merge_commit: match &self.merge_commit {
                Some(m) => Some(m.encode()),
                None => None,
            },
            canceled: self.canceled,
            built: self.built,
        }
    }

    pub fn from_row(row: &RunningRow) -> (r: Result<RunningEntry<C, P>, ErrorKind>)
        ensures
            read(r, row@.entry::<C, P>()),
    {
        let pr = match P::decode(row.pr.as_str()) {
            Some(pr) => pr,
            None => {
                return Err(ErrorKind::Decode);
            },
        };
        let pull_commit = match C::decode(row.pull_commit.as_str()) {
            Some(commit) => commit,
            None => {
                return Err(ErrorKind::Decode);
            },
        };
        let merge_commit = match &row.merge_commit {
            None => None,
            Some(m) => match C::decode(m.as_str()) {
                Some(commit) => Some(commit),
                None => {
                    return Err(ErrorKind::Decode);
                },
            },
        };
        Ok(
            RunningEntry {
                pr,
                pull_commit,
                merge_commit,
                message: row.message.clone(),
                canceled: row.canceled,
                built: row.built,
            },
        )
    }
}

impl<C: TextId, P: TextId> PendingEntry<C, P> {
    pub fn to_row(&self, pipeline_id: PipelineId) -> (row: PendingRow)
        ensures
            row@ == self@.row(pipeline_id),
    {
        PendingRow { pipeline_id, pr: self.pr.encode(), pull_commit: self.commit.encode() }
    }

    pub fn from_row(row: &PendingRow) -> (r: Result<PendingEntry<C, P>, ErrorKind>)
        ensures
            read(r, row@.entry::<C, P>()),
    {
        let pr = match P::decode(row.pr.as_str()) {
            Some(pr) => pr,
            None => {
                return Err(ErrorKind::Decode);
            },
        };
        let commit = match C::decode(row.pull_commit.as_str()) {
            Some(commit) => commit,
            None => {
                return Err(ErrorKind::Decode);
            },
        };
        Ok(PendingEntry { pr, commit })
    }
}

/// A queue entry is read back from its row unchanged.
pub proof fn queue_row_round_trip<C: TextId, P: TextId>(
    entry: QueueEntryView<C, P>,
    pipeline_id: PipelineId,
)
    ensures
        entry.row(pipeline_id).entry::<C, P>() == Some(entry),
        entry.row(pipeline_id).pipeline_id == pipeline_id,
{
    entry.pr.round_trip();
    entry.commit.round_trip();
}

/// A running entry is read back from its row unchanged.
pub proof fn running_row_round_trip<C: TextId, P: TextId>(
    entry: RunningEntryView<C, P>,
    pipeline_id: PipelineId,
)
    ensures
        entry.row(pipeline_id).entry::<C, P>() == Some(entry),
        entry.row(pipeline_id).pipeline_id == pipeline_id,
{
    entry.pr.round_trip();
    entry.pull_commit.round_trip();
    if let Some(m) = entry.merge_commit {
        m.round_trip();
    }
}

/// A pending entry is read back from its row unchanged.
pub proof fn pending_row_round_trip<C: TextId, P: TextId>(
    entry: PendingEntry<C, P>,
    pipeline_id: PipelineId,
)
    ensures
        entry.row(pipeline_id).entry::<C, P>() == Some(entry),
        entry.row(pipeline_id).pipeline_id == pipeline_id,
{
    entry.pr.round_trip();
    entry.commit.round_trip();
}

} // verus!
