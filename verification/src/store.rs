//! The queue, running and pending tables of every pipeline.

use core::marker::PhantomData;
use vstd::prelude::*;
use crate::entry::{
    PendingEntry, PendingRow, QueueEntry, QueueRow, RunningEntry, RunningRow,
};
use crate::error::ErrorKind;
use crate::ident::{PipelineId, TextId};
use crate::filters::lemma_filter_step;
use crate::model::{cancel_where, shown, StoreView};
use crate::table::{delete, earliest, find, views, Lookup, Row, Selector};

verus! {

/// The store. `C` is the type of commit identifiers, `P` that of pull-request
/// identifiers; the tables hold both as text.
///
/// A store has one owner at a time: every operation that changes it takes it
/// by `&mut`, so two claims of the same row cannot overlap.
pub struct Store<C, P> {
    queue: Vec<QueueRow>,
    running: Vec<RunningRow>,
    pending: Vec<PendingRow>,
    _commit: PhantomData<C>,
    _pr: PhantomData<P>,
}

impl<C, P> View for Store<C, P> {
    type V = StoreView;

    closed spec fn view(&self) -> StoreView {
        StoreView {
            queue: views(self.queue@),
            running: views(self.running@),
            pending: views(self.pending@),
        }
    }
}

/// Marks the running rows that the selector admits as canceled, and says
/// whether there were any.
fn mark_canceled(rows: &mut Vec<RunningRow>, sel: &Selector) -> (any: bool)
    ensures
        views(final(rows)@) == views(old(rows)@).map_values(cancel_where(sel@)),
        any == (views(old(rows)@).filter(sel@.hit::<RunningRow>()).len() > 0),
{
    let ghost vs = views(rows@);
    let ghost hit = sel@.hit::<RunningRow>();
    let mut any = false;
    let mut k: usize = 0;
    proof {
        assert(vs.take(0) =~= Seq::empty());
        reveal(Seq::filter);
    }
    while k < rows.len()
        invariant
            0 <= k <= rows.len(),
            rows.len() == vs.len(),
            vs == views(old(rows)@),
            hit == sel@.hit::<RunningRow>(),
            forall|j: int| 0 <= j < k ==> (#[trigger] rows[j])@ == cancel_where(sel@)(vs[j]),
            forall|j: int| k <= j < rows.len() ==> (#[trigger] rows[j])@ == vs[j],
            any == (vs.take(k as int).filter(hit).len() > 0),
        decreases rows.len() - k,
    {
        proof {
            lemma_filter_step(vs, hit, k as int);
        }
        if sel.admits(&rows[k]) {
            let mut row = rows[k].copy();
            row.canceled = true;
            rows.set(k, row);
            any = true;
        }
        k += 1;
    }
    proof {
        assert(vs.take(k as int) =~= vs);
        assert(views(rows@) =~= vs.map_values(cancel_where(sel@)));
    }
    any
}

impl<C: TextId, P: TextId> Store<C, P> {
    /// A store with three empty tables.
    pub fn new() -> (s: Self)
        ensures
            s@ == StoreView::empty(),
    {
        let s = Store {
            queue: Vec::new(),
            running: Vec::new(),
            pending: Vec::new(),
            _commit: PhantomData,
            _pr: PhantomData,
        };
        proof {
            assert(s@.queue =~= Seq::empty());
            assert(s@.running =~= Seq::empty());
            assert(s@.pending =~= Seq::empty());
        }
        s
    }

    /// A store over rows as they were persisted. Nothing is asked of the
    /// rows: an operation that meets a row that does not decode, or two rows
    /// where one is allowed, reports it.
    pub fn from_rows(
        queue: Vec<QueueRow>,
        running: Vec<RunningRow>,
        pending: Vec<PendingRow>,
    ) -> (s: Self)
        ensures
            s@ == (StoreView {
                queue: views(queue@),
                running: views(running@),
                pending: views(pending@),
            }),
    {
        Store { queue, running, pending, _commit: PhantomData, _pr: PhantomData }
    }

    /// The rows of the three tables, to be persisted.
    pub fn into_rows(self) -> (rows: (Vec<QueueRow>, Vec<RunningRow>, Vec<PendingRow>))
        ensures
            self@ == (StoreView {
                queue: views(rows.0@),
                running: views(rows.1@),
                pending: views(rows.2@),
            }),
    {
        (self.queue, self.running, self.pending)
    }

    /// Appends an entry at the tail of a pipeline's queue.
    pub fn push_queue(&mut self, pipeline_id: PipelineId, entry: QueueEntry<C, P>)
        ensures
            final(self)@ == old(self)@.push_queue(entry@.row(pipeline_id)),
    {
        let row = entry.to_row(pipeline_id);
        self.queue.push(row);
        proof {
            assert(self@.queue =~= old(self)@.queue.push(entry@.row(pipeline_id)));
        }
    }

    /// Claims the earliest entry of a pipeline's queue.
    pub fn pop_queue(&mut self, pipeline_id: PipelineId) -> (r: Result<
        Option<QueueEntry<C, P>>,
        ErrorKind,
    >)
        ensures
            (final(self)@, shown(r)) == old(self)@.pop_queue::<C, P>(pipeline_id),
    {
        let sel = Selector { pipeline_id, pr: None, other_than: None };
        match earliest(&self.queue, &sel) {
            None => Ok(None),
            Some(i) => {
                let entry = QueueEntry::from_row(&self.queue[i])?;
                self.queue.remove(i);
                proof {
                    assert(self@.queue =~= old(self)@.queue.remove(i as int));
                }
                Ok(Some(entry))
            },
        }
    }

    /// Makes an entry what a pipeline is running, in place of whatever it was running.
    pub fn put_running(&mut self, pipeline_id: PipelineId, entry: RunningEntry<C, P>)
        ensures
            final(self)@ == old(self)@.put_running(entry@.row(pipeline_id)),
    {
        let sel = Selector { pipeline_id, pr: None, other_than: None };
        let row = entry.to_row(pipeline_id);
        delete(&mut self.running, &sel);
        let ghost rest = views(self.running@);
        self.running.push(row);
        proof {
            assert(self@.running =~= rest.push(entry@.row(pipeline_id)));
        }
    }

    /// Claims what a pipeline is running.
    pub fn take_running(&mut self, pipeline_id: PipelineId) -> (r: Result<
        Option<RunningEntry<C, P>>,
        ErrorKind,
    >)
        ensures
            (final(self)@, shown(r)) == old(self)@.take_running::<C, P>(pipeline_id),
    {
        let entry = self.peek_running(pipeline_id)?;
        let sel = Selector { pipeline_id, pr: None, other_than: None };
        delete(&mut self.running, &sel);
        Ok(entry)
    }

    /// What a pipeline is running.
    pub fn peek_running(&self, pipeline_id: PipelineId) -> (r: Result<
        Option<RunningEntry<C, P>>,
        ErrorKind,
    >)
        ensures
            shown(r) == self@.peek_running::<C, P>(pipeline_id),
    {
        let sel = Selector { pipeline_id, pr: None, other_than: None };
        match find(&self.running, &sel) {
            Lookup::Absent => Ok(None),
            Lookup::Several => Err(ErrorKind::Consistency),
            Lookup::Single(i) => {
                let entry = RunningEntry::from_row(&self.running[i])?;
                Ok(Some(entry))
            },
        }
    }

    /// Makes an entry what is pending for its pull request, in place of
    /// whatever was pending for it.
    pub fn add_pending(&mut self, pipeline_id: PipelineId, entry: PendingEntry<C, P>)
        ensures
            final(self)@ == old(self)@.add_pending(entry@.row(pipeline_id)),
    {
        let row = entry.to_row(pipeline_id);
        let pr = row.pr.clone();
        let sel = Selector { pipeline_id, pr: Some(&pr), other_than: None };
        delete(&mut self.pending, &sel);
        let ghost rest = views(self.pending@);
        self.pending.push(row);
        proof {
            assert(self@.pending =~= rest.push(entry@.row(pipeline_id)));
        }
    }

    /// Claims what is pending for a pull request.
    pub fn take_pending_by_pr(&mut self, pipeline_id: PipelineId, pr: &P) -> (r: Result<
        Option<PendingEntry<C, P>>,
        ErrorKind,
    >)
        ensures
            (final(self)@, shown(r)) == old(self)@.take_pending_by_pr::<C, P>(
                pipeline_id,
                pr.text(),
            ),
    {
        let entry = self.peek_pending_by_pr(pipeline_id, pr)?;
        let text = pr.encode();
        let sel = Selector { pipeline_id, pr: Some(&text), other_than: None };
        delete(&mut self.pending, &sel);
        Ok(entry)
    }

    /// What is pending for a pull request.
    pub fn peek_pending_by_pr(&self, pipeline_id: PipelineId, pr: &P) -> (r: Result<
        Option<PendingEntry<C, P>>,
        ErrorKind,
    >)
        ensures
            shown(r) == self@.peek_pending_by_pr::<C, P>(pipeline_id, pr.text()),
    {
        let text = pr.encode();
        let sel = Selector { pipeline_id, pr: Some(&text), other_than: None };
        match find(&self.pending, &sel) {
            Lookup::Absent => Ok(None),
            Lookup::Several => Err(ErrorKind::Consistency),
            Lookup::Single(i) => {
                let entry = PendingEntry::from_row(&self.pending[i])?;
                Ok(Some(entry))
            },
        }
    }

    /// Withdraws a pull request: its queued entries are deleted, and what
    /// runs for it is marked as canceled, whatever the commit.
    pub fn cancel_by_pr(&mut self, pipeline_id: PipelineId, pr: &P)
        ensures
            final(self)@ == old(self)@.cancel_by_pr(pipeline_id, pr.text()),
    {
        let text = pr.encode();
        let sel = Selector { pipeline_id, pr: Some(&text), other_than: None };
        mark_canceled(&mut self.running, &sel);
        delete(&mut self.queue, &sel);
    }

    /// Withdraws what a pull request has queued or running for any commit
    /// but the given one, and says whether there was anything to withdraw.
    pub fn cancel_by_pr_different_commit(
        &mut self,
        pipeline_id: PipelineId,
        pr: &P,
        commit: &C,
    ) -> (affected: bool)
        ensures
            (final(self)@, affected) == old(self)@.cancel_by_pr_different_commit(
                pipeline_id,
                pr.text(),
                commit.text(),
            ),
    {
        let text = pr.encode();
        let hash = commit.encode();
        let sel = Selector { pipeline_id, pr: Some(&text), other_than: Some(&hash) };
        let running = mark_canceled(&mut self.running, &sel);
        let queued = delete(&mut self.queue, &sel);
        queued || running
    }
}

} // verus!
