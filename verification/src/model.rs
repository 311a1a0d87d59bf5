//! The store as mathematics: three sequences of rows, and what each
//! operation makes of them.

use vstd::prelude::*;
use crate::entry::{
    PendingEntry, PendingRow, PendingRowView, QueueEntryView, QueueRow, QueueRowView,
    RunningEntryView, RunningRow, RunningRowView,
};
use crate::error::ErrorKind;
use crate::ident::{PipelineId, TextId};
use crate::table::{is_earliest, Filter, Row};

verus! {

/// The three tables, each in the order in which its rows arrived.
pub struct StoreView {
    pub queue: Seq<QueueRowView>,
    pub running: Seq<RunningRowView>,
    pub pending: Seq<PendingRowView>,
}

/// The result of a lookup, with the entry taken by its view.
pub open spec fn shown<E: View>(r: Result<Option<E>, ErrorKind>) -> Result<
    Option<E::V>,
    ErrorKind,
> {
    match r {
        Ok(Some(e)) => Ok(Some(e@)),
        Ok(None) => Ok(None),
        Err(k) => Err(k),
    }
}

/// Reads the one row that a key may have: nothing if there is none, a
/// consistency error if there are several, a decode error if the one row
/// does not decode.
pub open spec fn sole<V, E>(rows: Seq<V>, entry: spec_fn(V) -> Option<E>) -> Result<
    Option<E>,
    ErrorKind,
> {
    if rows.len() == 0 {
        Ok(None)
    } else if rows.len() >= 2 {
        Err(ErrorKind::Consistency)
    } else {
        match entry(rows[0]) {
            Some(e) => Ok(Some(e)),
            None => Err(ErrorKind::Decode),
        }
    }
}

/// Marks the running rows that a filter selects as canceled.
pub open spec fn cancel_where(f: Filter) -> spec_fn(RunningRowView) -> RunningRowView {
    |r: RunningRowView|
        if f.admits(RunningRow::key(r)) {
            r.cancel()
        } else {
            r
        }
}

impl StoreView {
    pub open spec fn empty() -> StoreView {
        StoreView { queue: Seq::empty(), running: Seq::empty(), pending: Seq::empty() }
    }

    /// The queue of one pipeline, earliest arrival first.
    pub open spec fn queue_of(self, pipeline_id: PipelineId) -> Seq<QueueRowView> {
        self.queue.filter(Filter::pipeline(pipeline_id).hit::<QueueRow>())
    }

    /// The running rows of one pipeline.
    pub open spec fn running_of(self, pipeline_id: PipelineId) -> Seq<RunningRowView> {
        self.running.filter(Filter::pipeline(pipeline_id).hit::<RunningRow>())
    }

    /// The pending rows of one pull request of one pipeline.
    pub open spec fn pending_of(self, pipeline_id: PipelineId, pr: Seq<char>) -> Seq<
        PendingRowView,
    > {
        self.pending.filter(Filter::pull_request(pipeline_id, pr).hit::<PendingRow>())
    }

    /// At most one running row per pipeline, at most one pending row per
    /// pull request of a pipeline.
    pub open spec fn consistent(self) -> bool {
        &&& forall|p: PipelineId| #[trigger] self.running_of(p).len() <= 1
        &&& forall|p: PipelineId, pr: Seq<char>| #[trigger] self.pending_of(p, pr).len() <= 1
    }

    /// Every row holds identifiers that decode.
    pub open spec fn decodable<C: TextId, P: TextId>(self) -> bool {
        &&& forall|i: int|
            0 <= i < self.queue.len() ==> (#[trigger] self.queue[i]).entry::<C, P>() is Some
        &&& forall|i: int|
            0 <= i < self.running.len() ==> (#[trigger] self.running[i]).entry::<C, P>() is Some
        &&& forall|i: int|
            0 <= i < self.pending.len() ==> (#[trigger] self.pending[i]).entry::<C, P>() is Some
    }

    pub open spec fn push_queue(self, row: QueueRowView) -> StoreView {
        StoreView { queue: self.queue.push(row), ..self }
    }

    /// Where in the table the earliest queued row of a pipeline stands.
    pub open spec fn front(self, pipeline_id: PipelineId) -> Option<int> {
        let hit = Filter::pipeline(pipeline_id).hit::<QueueRow>();
        if exists|i: int| is_earliest(self.queue, hit, i) {
            Some(choose|i: int| is_earliest(self.queue, hit, i))
        } else {
            None
        }
    }

    /// Claims the earliest queued row of a pipeline. The row leaves the
    /// table only if it decodes.
    pub open spec fn pop_queue<C: TextId, P: TextId>(self, pipeline_id: PipelineId) -> (
        StoreView,
        Result<Option<QueueEntryView<C, P>>, ErrorKind>,
    ) {
        match self.front(pipeline_id) {
            None => (self, Ok(None)),
            Some(i) => match self.queue[i].entry::<C, P>() {
                Some(e) => (StoreView { queue: self.queue.remove(i), ..self }, Ok(Some(e))),
                None => (self, Err(ErrorKind::Decode)),
            },
        }
    }

    /// Replaces whatever the row's pipeline was running by the row.
    pub open spec fn put_running(self, row: RunningRowView) -> StoreView {
        StoreView {
            running: self.running.filter(
                Filter::pipeline(row.pipeline_id).miss::<RunningRow>(),
            ).push(row),
            ..self
        }
    }

    pub open spec fn peek_running<C: TextId, P: TextId>(self, pipeline_id: PipelineId) -> Result<
        Option<RunningEntryView<C, P>>,
        ErrorKind,
    > {
        sole(self.running_of(pipeline_id), |r: RunningRowView| r.entry::<C, P>())
    }

    /// Claims what a pipeline is running. The table changes only if the read succeeds.
    pub open spec fn take_running<C: TextId, P: TextId>(self, pipeline_id: PipelineId) -> (
        StoreView,
        Result<Option<RunningEntryView<C, P>>, ErrorKind>,
    ) {
        let r = self.peek_running::<C, P>(pipeline_id);
        if r is Ok {
            (
                StoreView {
                    running: self.running.filter(
                        Filter::pipeline(pipeline_id).miss::<RunningRow>(),
                    ),
                    ..self
                },
                r,
            )
        } else {
            (self, r)
        }
    }

    /// Replaces whatever was pending for the row's pull request by the row.
    pub open spec fn add_pending(self, row: PendingRowView) -> StoreView {
        StoreView {
            pending: self.pending.filter(
                Filter::pull_request(row.pipeline_id, row.pr).miss::<PendingRow>(),
            ).push(row),
            ..self
        }
    }

    pub open spec fn peek_pending_by_pr<C: TextId, P: TextId>(
        self,
        pipeline_id: PipelineId,
        pr: Seq<char>,
    ) -> Result<Option<PendingEntry<C, P>>, ErrorKind> {
        sole(self.pending_of(pipeline_id, pr), |r: PendingRowView| r.entry::<C, P>())
    }

    /// Claims what is pending for a pull request. The table changes only if the read succeeds.
    pub open spec fn take_pending_by_pr<C: TextId, P: TextId>(
        self,
        pipeline_id: PipelineId,
        pr: Seq<char>,
    ) -> (StoreView, Result<Option<PendingEntry<C, P>>, ErrorKind>) {
        let r = self.peek_pending_by_pr::<C, P>(pipeline_id, pr);
        if r is Ok {
            (
                StoreView {
                    pending: self.pending.filter(
                        Filter::pull_request(pipeline_id, pr).miss::<PendingRow>(),
                    ),
                    ..self
                },
                r,
            )
        } else {
            (self, r)
        }
    }

    /// Deletes the queued rows that a filter selects and marks the running
    /// rows that it selects as canceled.
    pub open spec fn cancel(self, f: Filter) -> StoreView {
        StoreView {
            queue: self.queue.filter(f.miss::<QueueRow>()),
            running: self.running.map_values(cancel_where(f)),
            pending: self.pending,
        }
    }

    /// Whether a filter selects any queued or running row.
    pub open spec fn touches(self, f: Filter) -> bool {
        ||| self.queue.filter(f.hit::<QueueRow>()).len() > 0
        ||| self.running.filter(f.hit::<RunningRow>()).len() > 0
    }

    pub open spec fn cancel_by_pr(self, pipeline_id: PipelineId, pr: Seq<char>) -> StoreView {
        self.cancel(Filter::pull_request(pipeline_id, pr))
    }

    pub open spec fn cancel_by_pr_different_commit(
        self,
        pipeline_id: PipelineId,
        pr: Seq<char>,
        commit: Seq<char>,
    ) -> (StoreView, bool) {
        let f = Filter::stale(pipeline_id, pr, commit);
        (self.cancel(f), self.touches(f))
    }
}

} // verus!
