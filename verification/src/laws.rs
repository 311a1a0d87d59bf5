//! What holds of the store whatever its state: the queue of a pipeline is
//! first in, first out; a pipeline runs at most one test; a pull request has
//! at most one pending entry; a cancellation reaches exactly the rows it names.

use vstd::prelude::*;
use crate::entry::{
    pending_row_round_trip, queue_row_round_trip, running_row_round_trip, PendingEntry,
    PendingRow, PendingRowView, QueueEntryView, QueueRow, QueueRowView, RunningEntryView,
    RunningRow, RunningRowView,
};
use crate::error::ErrorKind;
use crate::filters::{
    lemma_filter_commute, lemma_filter_empty, lemma_filter_every, lemma_filter_hits,
    lemma_filter_keeps, lemma_filter_left_nothing, lemma_filter_map, lemma_filter_some, lemma_filter_within,
    lemma_filter_without, lemma_remove_earliest, lemma_remove_other,
};
use crate::ident::{text_injective, PipelineId, TextId};
use crate::model::{cancel_where, StoreView};
use crate::table::{is_earliest, Filter, Row};

verus! {

/// The earliest queued row of a pipeline is the first row of its queue.
pub proof fn front_is_first(s: StoreView, p: PipelineId)
    ensures
        match s.front(p) {
            None => s.queue_of(p).len() == 0,
            Some(i) => {
                &&& is_earliest(s.queue, Filter::pipeline(p).hit::<QueueRow>(), i)
                &&& s.queue_of(p).len() > 0
                &&& s.queue_of(p)[0] == s.queue[i]
            },
        },
{
    let hit = Filter::pipeline(p).hit::<QueueRow>();
    if exists|i: int| is_earliest(s.queue, hit, i) {
        let i = choose|i: int| is_earliest(s.queue, hit, i);
        lemma_remove_earliest(s.queue, hit, i);
    } else {
        if s.queue_of(p).len() > 0 {
            lemma_filter_some(s.queue, hit);
        }
    }
}

/// An entry that is pushed arrives at the tail of its pipeline's queue and
/// in no other queue.
pub proof fn push_appends(s: StoreView, row: QueueRowView, q: PipelineId)
    ensures
        s.push_queue(row).queue_of(q) == if q == row.pipeline_id {
            s.queue_of(q).push(row)
        } else {
            s.queue_of(q)
        },
        s.push_queue(row).running == s.running,
        s.push_queue(row).pending == s.pending,
{
    s.queue.lemma_filter_push(row, Filter::pipeline(q).hit::<QueueRow>());
}

/// Popping from a pipeline whose queue is empty gives nothing and changes nothing.
pub proof fn pop_of_empty_queue<C: TextId, P: TextId>(s: StoreView, p: PipelineId)
    requires
        s.queue_of(p).len() == 0,
    ensures
        s.pop_queue::<C, P>(p) == (s, Ok::<Option<QueueEntryView<C, P>>, ErrorKind>(None)),
{
    front_is_first(s, p);
}

/// Popping claims the first entry of the pipeline's queue: the entry is
/// returned and the rest of the queue stays in order. If the first row does
/// not decode, that is reported and nothing changes.
pub proof fn pop_takes_the_earliest<C: TextId, P: TextId>(s: StoreView, p: PipelineId)
    requires
        s.queue_of(p).len() > 0,
    ensures
        ({
            let (after, r) = s.pop_queue::<C, P>(p);
            match s.queue_of(p)[0].entry::<C, P>() {
                Some(e) => r == Ok::<Option<QueueEntryView<C, P>>, ErrorKind>(Some(e))
                    && after.queue_of(p) == s.queue_of(p).drop_first(),
                None => r == Err::<Option<QueueEntryView<C, P>>, ErrorKind>(ErrorKind::Decode)
                    && after == s,
            }
        }),
{
    front_is_first(s, p);
    let i = s.front(p).unwrap();
    lemma_remove_earliest(s.queue, Filter::pipeline(p).hit::<QueueRow>(), i);
}

/// Popping from one pipeline leaves the queues of the others, and the other
/// two tables, as they were.
pub proof fn pop_leaves_the_rest<C: TextId, P: TextId>(s: StoreView, p: PipelineId, q: PipelineId)
    requires
        q != p,
    ensures
        s.pop_queue::<C, P>(p).0.queue_of(q) == s.queue_of(q),
        s.pop_queue::<C, P>(p).0.running == s.running,
        s.pop_queue::<C, P>(p).0.pending == s.pending,
{
    front_is_first(s, p);
    if let Some(i) = s.front(p) {
        lemma_remove_other(s.queue, Filter::pipeline(q).hit::<QueueRow>(), i);
    }
}

/// After an entry is pushed to an empty queue, popping returns that entry
/// and the store is as it was before the push.
pub proof fn push_then_pop<C: TextId, P: TextId>(
    s: StoreView,
    p: PipelineId,
    e: QueueEntryView<C, P>,
)
    requires
        s.queue_of(p).len() == 0,
    ensures
        ({
            let (after, r) = s.push_queue(e.row(p)).pop_queue::<C, P>(p);
            &&& r == Ok::<Option<QueueEntryView<C, P>>, ErrorKind>(Some(e))
            &&& after == s
            &&& after.queue_of(p).len() == 0
        }),
{
    let hit = Filter::pipeline(p).hit::<QueueRow>();
    let pushed = s.push_queue(e.row(p));
    queue_row_round_trip(e, p);
    push_appends(s, e.row(p), p);
    front_is_first(pushed, p);
    let i = pushed.front(p).unwrap();
    if i < s.queue.len() {
        assert(s.queue[i] == pushed.queue[i]);
        assert forall|j: int| 0 <= j < i implies !#[trigger] hit(s.queue[j]) by {
            assert(s.queue[j] == pushed.queue[j]);
        }
        assert(is_earliest(s.queue, hit, i));
        lemma_remove_earliest(s.queue, hit, i);
    }
    assert(pushed.queue.remove(i) =~= s.queue);
}

/// Entries leave a queue in the order in which they arrived: three pushes
/// to an empty queue, then three pops, give the three entries in order.
pub proof fn first_in_first_out<C: TextId, P: TextId>(
    s: StoreView,
    p: PipelineId,
    e1: QueueEntryView<C, P>,
    e2: QueueEntryView<C, P>,
    e3: QueueEntryView<C, P>,
)
    requires
        s.queue_of(p).len() == 0,
    ensures
        ({
            let full = s.push_queue(e1.row(p)).push_queue(e2.row(p)).push_queue(e3.row(p));
            let (s1, r1) = full.pop_queue::<C, P>(p);
            let (s2, r2) = s1.pop_queue::<C, P>(p);
            let (s3, r3) = s2.pop_queue::<C, P>(p);
            &&& r1 == Ok::<Option<QueueEntryView<C, P>>, ErrorKind>(Some(e1))
            &&& r2 == Ok::<Option<QueueEntryView<C, P>>, ErrorKind>(Some(e2))
            &&& r3 == Ok::<Option<QueueEntryView<C, P>>, ErrorKind>(Some(e3))
            &&& s3.queue_of(p).len() == 0
        }),
{
    let a = s.push_queue(e1.row(p));
    let b = a.push_queue(e2.row(p));
    let full = b.push_queue(e3.row(p));
    push_appends(s, e1.row(p), p);
    push_appends(a, e2.row(p), p);
    push_appends(b, e3.row(p), p);
    queue_row_round_trip(e1, p);
    queue_row_round_trip(e2, p);
    queue_row_round_trip(e3, p);
    assert(full.queue_of(p) =~= seq![e1.row(p), e2.row(p), e3.row(p)]);
    pop_takes_the_earliest::<C, P>(full, p);
    let s1 = full.pop_queue::<C, P>(p).0;
    assert(s1.queue_of(p) =~= seq![e2.row(p), e3.row(p)]);
    pop_takes_the_earliest::<C, P>(s1, p);
    let s2 = s1.pop_queue::<C, P>(p).0;
    assert(s2.queue_of(p) =~= seq![e3.row(p)]);
    pop_takes_the_earliest::<C, P>(s2, p);
}

/// Of two claims on a queue that holds one entry, made one after the other
/// in either order, the first gets the entry and the second gets nothing.
pub proof fn one_entry_is_delivered_once<C: TextId, P: TextId>(
    s: StoreView,
    p: PipelineId,
    e: QueueEntryView<C, P>,
)
    requires
        s.queue_of(p) == seq![e.row(p)],
    ensures
        ({
            let (s1, r1) = s.pop_queue::<C, P>(p);
            let (s2, r2) = s1.pop_queue::<C, P>(p);
            &&& r1 == Ok::<Option<QueueEntryView<C, P>>, ErrorKind>(Some(e))
            &&& r2 == Ok::<Option<QueueEntryView<C, P>>, ErrorKind>(None)
            &&& s2 == s1
        }),
{
    queue_row_round_trip(e, p);
    pop_takes_the_earliest::<C, P>(s, p);
    let s1 = s.pop_queue::<C, P>(p).0;
    pop_of_empty_queue::<C, P>(s1, p);
}

/// After a put, the pipeline runs exactly the row that was put, whatever it
/// ran before; what the other pipelines run is as it was.
pub proof fn put_running_replaces(s: StoreView, row: RunningRowView, q: PipelineId)
    ensures
        s.put_running(row).running_of(q) == if q == row.pipeline_id {
            seq![row]
        } else {
            s.running_of(q)
        },
        s.put_running(row).queue == s.queue,
        s.put_running(row).pending == s.pending,
{
    let miss = Filter::pipeline(row.pipeline_id).miss::<RunningRow>();
    let hit = Filter::pipeline(q).hit::<RunningRow>();
    s.running.filter(miss).lemma_filter_push(row, hit);
    if q == row.pipeline_id {
        lemma_filter_without(s.running, miss, hit);
        assert(Seq::<RunningRowView>::empty().push(row) =~= seq![row]);
    } else {
        lemma_filter_within(s.running, miss, hit);
    }
}

/// After a take that succeeds, the pipeline runs nothing; what the other
/// pipelines run is as it was. A take that fails changes nothing.
pub proof fn take_running_clears<C: TextId, P: TextId>(s: StoreView, p: PipelineId, q: PipelineId)
    ensures
        ({
            let (after, r) = s.take_running::<C, P>(p);
            &&& r == s.peek_running::<C, P>(p)
            &&& r is Err ==> after == s
            &&& r is Ok ==> after.running_of(q) == if q == p {
                Seq::<RunningRowView>::empty()
            } else {
                s.running_of(q)
            }
            &&& after.queue == s.queue
            &&& after.pending == s.pending
        }),
{
    let miss = Filter::pipeline(p).miss::<RunningRow>();
    let hit = Filter::pipeline(q).hit::<RunningRow>();
    if q == p {
        lemma_filter_without(s.running, miss, hit);
    } else {
        lemma_filter_within(s.running, miss, hit);
    }
}

/// A take from a pipeline that runs nothing gives nothing and changes nothing.
pub proof fn take_of_nothing_running<C: TextId, P: TextId>(s: StoreView, p: PipelineId)
    requires
        s.running_of(p).len() == 0,
    ensures
        s.take_running::<C, P>(p) == (s, Ok::<Option<RunningEntryView<C, P>>, ErrorKind>(None)),
{
    let f = Filter::pipeline(p);
    lemma_filter_left_nothing(s.running, f.hit::<RunningRow>());
    assert forall|j: int| 0 <= j < s.running.len() implies #[trigger] f.miss::<RunningRow>()(
        s.running[j],
    ) by {
        assert(!f.hit::<RunningRow>()(s.running[j]));
    }
    lemma_filter_every(s.running, f.miss::<RunningRow>());
}

/// After a put, every peek returns the entry that was put. A take returns
/// it once: after the take, a peek and a further take return nothing.
pub proof fn put_then_peek_then_take<C: TextId, P: TextId>(
    s: StoreView,
    p: PipelineId,
    e: RunningEntryView<C, P>,
)
    ensures
        ({
            let put = s.put_running(e.row(p));
            let (taken, r) = put.take_running::<C, P>(p);
            &&& put.peek_running::<C, P>(p) == Ok::<Option<RunningEntryView<C, P>>, ErrorKind>(
                Some(e),
            )
            &&& r == Ok::<Option<RunningEntryView<C, P>>, ErrorKind>(Some(e))
            &&& taken.peek_running::<C, P>(p) == Ok::<Option<RunningEntryView<C, P>>, ErrorKind>(
                None,
            )
            &&& taken.take_running::<C, P>(p) == (
                taken,
                Ok::<Option<RunningEntryView<C, P>>, ErrorKind>(None),
            )
        }),
{
    let put = s.put_running(e.row(p));
    running_row_round_trip(e, p);
    put_running_replaces(s, e.row(p), p);
    take_running_clears::<C, P>(put, p, p);
    let taken = put.take_running::<C, P>(p).0;
    let miss = Filter::pipeline(p).miss::<RunningRow>();
    lemma_filter_within(put.running, miss, miss);
}

/// After an add, the pull request has exactly the row that was added
/// pending, whatever was pending for it before; what is pending for any
/// other pull request is as it was.
pub proof fn add_pending_replaces(s: StoreView, row: PendingRowView, p: PipelineId, pr: Seq<char>)
    ensures
        s.add_pending(row).pending_of(p, pr) == if p == row.pipeline_id && pr == row.pr {
            seq![row]
        } else {
            s.pending_of(p, pr)
        },
        s.add_pending(row).queue == s.queue,
        s.add_pending(row).running == s.running,
{
    let miss = Filter::pull_request(row.pipeline_id, row.pr).miss::<PendingRow>();
    let hit = Filter::pull_request(p, pr).hit::<PendingRow>();
    s.pending.filter(miss).lemma_filter_push(row, hit);
    if p == row.pipeline_id && pr == row.pr {
        lemma_filter_without(s.pending, miss, hit);
        assert(Seq::<PendingRowView>::empty().push(row) =~= seq![row]);
    } else {
        lemma_filter_within(s.pending, miss, hit);
    }
}

/// Two adds for one pull request leave one pending entry for it, with the
/// commit of the second.
pub proof fn add_pending_supersedes<C: TextId, P: TextId>(
    s: StoreView,
    p: PipelineId,
    pr: P,
    c1: C,
    c2: C,
)
    ensures
        ({
            let first = PendingEntry { pr, commit: c1 };
            let second = PendingEntry { pr, commit: c2 };
            let after = s.add_pending(first.row(p)).add_pending(second.row(p));
            &&& after.pending_of(p, pr.text()) == seq![second.row(p)]
            &&& after.peek_pending_by_pr::<C, P>(p, pr.text()) == Ok::<
                Option<PendingEntry<C, P>>,
                ErrorKind,
            >(Some(second))
        }),
{
    let first = PendingEntry { pr, commit: c1 };
    let second = PendingEntry { pr, commit: c2 };
    add_pending_replaces(s.add_pending(first.row(p)), second.row(p), p, pr.text());
    pending_row_round_trip(second, p);
}

/// After a take that succeeds, nothing is pending for the pull request;
/// what is pending for any other is as it was. A take that fails changes nothing.
pub proof fn take_pending_clears<C: TextId, P: TextId>(
    s: StoreView,
    p: PipelineId,
    pr: Seq<char>,
    q: PipelineId,
    other: Seq<char>,
)
    ensures
        ({
            let (after, r) = s.take_pending_by_pr::<C, P>(p, pr);
            &&& r == s.peek_pending_by_pr::<C, P>(p, pr)
            &&& r is Err ==> after == s
            &&& r is Ok ==> after.pending_of(q, other) == if q == p && other == pr {
                Seq::<PendingRowView>::empty()
            } else {
                s.pending_of(q, other)
            }
            &&& after.queue == s.queue
            &&& after.running == s.running
        }),
{
    let miss = Filter::pull_request(p, pr).miss::<PendingRow>();
    let hit = Filter::pull_request(q, other).hit::<PendingRow>();
    if q == p && other == pr {
        lemma_filter_without(s.pending, miss, hit);
    } else {
        lemma_filter_within(s.pending, miss, hit);
    }
}

/// A take for a pull request for which nothing is pending gives nothing and
/// changes nothing.
pub proof fn take_of_nothing_pending<C: TextId, P: TextId>(
    s: StoreView,
    p: PipelineId,
    pr: Seq<char>,
)
    requires
        s.pending_of(p, pr).len() == 0,
    ensures
        s.take_pending_by_pr::<C, P>(p, pr) == (
            s,
            Ok::<Option<PendingEntry<C, P>>, ErrorKind>(None),
        ),
{
    let f = Filter::pull_request(p, pr);
    lemma_filter_left_nothing(s.pending, f.hit::<PendingRow>());
    assert forall|j: int| 0 <= j < s.pending.len() implies #[trigger] f.miss::<PendingRow>()(
        s.pending[j],
    ) by {
        assert(!f.hit::<PendingRow>()(s.pending[j]));
    }
    lemma_filter_every(s.pending, f.miss::<PendingRow>());
}

/// A cancellation that reports that nothing was affected has changed nothing.
pub proof fn cancel_of_nothing(s: StoreView, f: Filter)
    requires
        !s.touches(f),
    ensures
        s.cancel(f) == s,
{
    lemma_filter_left_nothing(s.queue, f.hit::<QueueRow>());
    assert forall|j: int| 0 <= j < s.queue.len() implies #[trigger] f.miss::<QueueRow>()(
        s.queue[j],
    ) by {
        assert(!f.hit::<QueueRow>()(s.queue[j]));
    }
    lemma_filter_every(s.queue, f.miss::<QueueRow>());
    lemma_filter_left_nothing(s.running, f.hit::<RunningRow>());
    assert forall|j: int| 0 <= j < s.running.len() implies s.running.map_values(
        cancel_where(f),
    )[j] == s.running[j] by {
        assert(!f.hit::<RunningRow>()(s.running[j]));
    }
    assert(s.running.map_values(cancel_where(f)) =~= s.running);
}

/// A cancellation deletes every queued row that its filter selects and no
/// other, keeps the order of the rest, marks every running row that the
/// filter selects as canceled and changes no other, and leaves the pending
/// table alone.
pub proof fn cancel_reaches_its_rows(s: StoreView, f: Filter, q: PipelineId)
    ensures
        ({
            let after = s.cancel(f);
            &&& after.queue.filter(f.hit::<QueueRow>()) == Seq::<QueueRowView>::empty()
            &&& after.queue_of(q) == s.queue_of(q).filter(f.miss::<QueueRow>())
            &&& after.running_of(q) == s.running_of(q).map_values(cancel_where(f))
            &&& after.running.len() == s.running.len()
            &&& forall|i: int|
                0 <= i < s.running.len() ==> #[trigger] after.running[i] == if f.admits(
                    RunningRow::key(s.running[i]),
                ) {
                    s.running[i].cancel()
                } else {
                    s.running[i]
                }
            &&& after.pending == s.pending
        }),
{
    lemma_filter_without(s.queue, f.miss::<QueueRow>(), f.hit::<QueueRow>());
    lemma_filter_commute(s.queue, f.miss::<QueueRow>(), Filter::pipeline(q).hit::<QueueRow>());
    lemma_filter_map(s.running, cancel_where(f), Filter::pipeline(q).hit::<RunningRow>());
}

/// A cancellation by pull request leaves none of its entries queued and
/// what runs for it canceled, whatever the commit; an entry that runs for
/// another pull request is as it was.
pub proof fn cancel_by_pr_withdraws<C: TextId, P: TextId>(
    s: StoreView,
    p: PipelineId,
    pr: P,
    e: RunningEntryView<C, P>,
)
    requires
        s.running_of(p) == seq![e.row(p)],
    ensures
        ({
            let after = s.cancel_by_pr(p, pr.text());
            &&& forall|i: int|
                0 <= i < after.queue_of(p).len() ==> (#[trigger] after.queue_of(p)[i]).pr
                    != pr.text()
            &&& after.peek_running::<C, P>(p) == Ok::<Option<RunningEntryView<C, P>>, ErrorKind>(
                Some(
                    if e.pr == pr {
                        RunningEntryView { canceled: true, ..e }
                    } else {
                        e
                    },
                ),
            )
        }),
{
    let f = Filter::pull_request(p, pr.text());
    let after = s.cancel_by_pr(p, pr.text());
    cancel_reaches_its_rows(s, f, p);
    lemma_filter_hits(s.queue_of(p), f.miss::<QueueRow>());
    lemma_filter_hits(s.queue, Filter::pipeline(p).hit::<QueueRow>());
    lemma_filter_hits(after.queue, Filter::pipeline(p).hit::<QueueRow>());
    assert(after.running_of(p) =~= seq![cancel_where(f)(e.row(p))]);
    if e.pr.text() == pr.text() {
        text_injective(e.pr, pr);
        running_row_round_trip(RunningEntryView { canceled: true, ..e }, p);
    } else {
        running_row_round_trip(e, p);
    }
}

/// A cancellation for every commit but one spares what runs for that
/// commit and cancels what runs for another. It reports that something was
/// affected exactly if it canceled what runs or deleted a queued entry.
pub proof fn cancel_by_pr_different_commit_spares<C: TextId, P: TextId>(
    s: StoreView,
    p: PipelineId,
    commit: C,
    e: RunningEntryView<C, P>,
)
    requires
        s.running_of(p) == seq![e.row(p)],
    ensures
        ({
            let f = Filter::stale(p, e.pr.text(), commit.text());
            let (after, affected) = s.cancel_by_pr_different_commit(
                p,
                e.pr.text(),
                commit.text(),
            );
            if e.pull_commit == commit {
                &&& after.peek_running::<C, P>(p) == Ok::<
                    Option<RunningEntryView<C, P>>,
                    ErrorKind,
                >(Some(e))
                &&& affected == (s.queue.filter(f.hit::<QueueRow>()).len() > 0)
            } else {
                &&& after.peek_running::<C, P>(p) == Ok::<
                    Option<RunningEntryView<C, P>>,
                    ErrorKind,
                >(Some(RunningEntryView { canceled: true, ..e }))
                &&& affected
            }
        }),
{
    let f = Filter::stale(p, e.pr.text(), commit.text());
    let after = s.cancel(f);
    let row = e.row(p);
    cancel_reaches_its_rows(s, f, p);
    assert(after.running_of(p) =~= seq![cancel_where(f)(row)]);
    lemma_filter_within(
        s.running,
        Filter::pipeline(p).hit::<RunningRow>(),
        f.hit::<RunningRow>(),
    );
    lemma_filter_empty(f.hit::<RunningRow>());
    Seq::<RunningRowView>::empty().lemma_filter_push(row, f.hit::<RunningRow>());
    assert(seq![row] =~= Seq::<RunningRowView>::empty().push(row));
    if e.pull_commit.text() == commit.text() {
        text_injective(e.pull_commit, commit);
        running_row_round_trip(e, p);
    } else {
        running_row_round_trip(RunningEntryView { canceled: true, ..e }, p);
    }
}

/// A store that holds at most one running row per pipeline and at most one
/// pending row per pull request still does so after any operation.
pub proof fn consistency_is_kept<C: TextId, P: TextId>(
    s: StoreView,
    p: PipelineId,
    pr: Seq<char>,
    queued: QueueRowView,
    running: RunningRowView,
    pending: PendingRowView,
    f: Filter,
)
    requires
        s.consistent(),
    ensures
        StoreView::empty().consistent(),
        s.push_queue(queued).consistent(),
        s.pop_queue::<C, P>(p).0.consistent(),
        s.put_running(running).consistent(),
        s.take_running::<C, P>(p).0.consistent(),
        s.add_pending(pending).consistent(),
        s.take_pending_by_pr::<C, P>(p, pr).0.consistent(),
        s.cancel(f).consistent(),
{
    assert(StoreView::empty().consistent()) by {
        assert forall|q: PipelineId| #[trigger] StoreView::empty().running_of(q).len() <= 1 by {
            lemma_filter_empty(Filter::pipeline(q).hit::<RunningRow>());
        }
        assert forall|q: PipelineId, x: Seq<char>| #[trigger]
            StoreView::empty().pending_of(q, x).len() <= 1 by {
            lemma_filter_empty(Filter::pull_request(q, x).hit::<PendingRow>());
        }
    }
    assert(s.push_queue(queued).consistent()) by {
        let after = s.push_queue(queued);
        assert forall|q: PipelineId| #[trigger] after.running_of(q).len() <= 1 by {
            assert(after.running_of(q) == s.running_of(q));
        }
        assert forall|q: PipelineId, x: Seq<char>| #[trigger] after.pending_of(q, x).len()
            <= 1 by {
            assert(after.pending_of(q, x) == s.pending_of(q, x));
        }
    }
    assert(s.pop_queue::<C, P>(p).0.consistent()) by {
        let after = s.pop_queue::<C, P>(p).0;
        assert forall|q: PipelineId| #[trigger] after.running_of(q).len() <= 1 by {
            assert(after.running_of(q) == s.running_of(q));
        }
        assert forall|q: PipelineId, x: Seq<char>| #[trigger] after.pending_of(q, x).len()
            <= 1 by {
            assert(after.pending_of(q, x) == s.pending_of(q, x));
        }
    }
    assert(s.put_running(running).consistent()) by {
        let after = s.put_running(running);
        assert forall|q: PipelineId| #[trigger] after.running_of(q).len() <= 1 by {
            put_running_replaces(s, running, q);
            assert(s.running_of(q).len() <= 1);
        }
        assert forall|q: PipelineId, x: Seq<char>| #[trigger] after.pending_of(q, x).len()
            <= 1 by {
            assert(after.pending_of(q, x) == s.pending_of(q, x));
        }
    }
    assert(s.take_running::<C, P>(p).0.consistent()) by {
        let after = s.take_running::<C, P>(p).0;
        assert forall|q: PipelineId| #[trigger] after.running_of(q).len() <= 1 by {
            take_running_clears::<C, P>(s, p, q);
            assert(s.running_of(q).len() <= 1);
        }
        assert forall|q: PipelineId, x: Seq<char>| #[trigger] after.pending_of(q, x).len()
            <= 1 by {
            assert(after.pending_of(q, x) == s.pending_of(q, x));
        }
    }
    assert(s.add_pending(pending).consistent()) by {
        let after = s.add_pending(pending);
        assert forall|q: PipelineId| #[trigger] after.running_of(q).len() <= 1 by {
            assert(after.running_of(q) == s.running_of(q));
        }
        assert forall|q: PipelineId, x: Seq<char>| #[trigger] after.pending_of(q, x).len()
            <= 1 by {
            add_pending_replaces(s, pending, q, x);
            assert(s.pending_of(q, x).len() <= 1);
        }
    }
    assert(s.take_pending_by_pr::<C, P>(p, pr).0.consistent()) by {
        let after = s.take_pending_by_pr::<C, P>(p, pr).0;
        assert forall|q: PipelineId| #[trigger] after.running_of(q).len() <= 1 by {
            assert(after.running_of(q) == s.running_of(q));
        }
        assert forall|q: PipelineId, x: Seq<char>| #[trigger] after.pending_of(q, x).len()
            <= 1 by {
            take_pending_clears::<C, P>(s, p, pr, q, x);
            assert(s.pending_of(q, x).len() <= 1);
        }
    }
    assert(s.cancel(f).consistent()) by {
        let after = s.cancel(f);
        assert forall|q: PipelineId| #[trigger] after.running_of(q).len() <= 1 by {
            cancel_reaches_its_rows(s, f, q);
            assert(s.running_of(q).len() <= 1);
        }
        assert forall|q: PipelineId, x: Seq<char>| #[trigger] after.pending_of(q, x).len()
            <= 1 by {
            assert(after.pending_of(q, x) == s.pending_of(q, x));
        }
    }
}

/// A store in which every row decodes is still such a store after any
/// operation that is given entries.
pub proof fn rows_stay_decodable<C: TextId, P: TextId>(
    s: StoreView,
    p: PipelineId,
    pr: Seq<char>,
    queued: QueueEntryView<C, P>,
    running: RunningEntryView<C, P>,
    pending: PendingEntry<C, P>,
    f: Filter,
)
    requires
        s.decodable::<C, P>(),
    ensures
        StoreView::empty().decodable::<C, P>(),
        s.push_queue(queued.row(p)).decodable::<C, P>(),
        s.pop_queue::<C, P>(p).0.decodable::<C, P>(),
        s.put_running(running.row(p)).decodable::<C, P>(),
        s.take_running::<C, P>(p).0.decodable::<C, P>(),
        s.add_pending(pending.row(p)).decodable::<C, P>(),
        s.take_pending_by_pr::<C, P>(p, pr).0.decodable::<C, P>(),
        s.cancel(f).decodable::<C, P>(),
{
    let queue_ok = |r: QueueRowView| r.entry::<C, P>() is Some;
    let running_ok = |r: RunningRowView| r.entry::<C, P>() is Some;
    let pending_ok = |r: PendingRowView| r.entry::<C, P>() is Some;
    assert forall|i: int| 0 <= i < s.queue.len() implies #[trigger] queue_ok(s.queue[i]) by {
        assert(s.queue[i].entry::<C, P>() is Some);
    }
    assert forall|i: int| 0 <= i < s.running.len() implies #[trigger] running_ok(
        s.running[i],
    ) by {
        assert(s.running[i].entry::<C, P>() is Some);
    }
    assert forall|i: int| 0 <= i < s.pending.len() implies #[trigger] pending_ok(
        s.pending[i],
    ) by {
        assert(s.pending[i].entry::<C, P>() is Some);
    }
    queue_row_round_trip(queued, p);
    running_row_round_trip(running, p);
    pending_row_round_trip(pending, p);
    assert(s.pop_queue::<C, P>(p).0.decodable::<C, P>()) by {
        let after = s.pop_queue::<C, P>(p).0;
        front_is_first(s, p);
        if after != s {
            let i = s.front(p).unwrap();
            assert forall|j: int| 0 <= j < after.queue.len() implies #[trigger] queue_ok(
                after.queue[j],
            ) by {
                if j < i {
                    assert(after.queue[j] == s.queue[j]);
                    assert(queue_ok(s.queue[j]));
                } else {
                    assert(after.queue[j] == s.queue[j + 1]);
                    assert(queue_ok(s.queue[j + 1]));
                }
            }
            assert forall|j: int| 0 <= j < after.queue.len() implies (#[trigger] after.queue[j])
                .entry::<C, P>() is Some by {
                assert(queue_ok(after.queue[j]));
            }
        }
    }
    assert(s.put_running(running.row(p)).decodable::<C, P>()) by {
        let kept = s.running.filter(Filter::pipeline(p).miss::<RunningRow>());
        lemma_filter_keeps(s.running, Filter::pipeline(p).miss::<RunningRow>(), running_ok);
        assert forall|j: int| 0 <= j < kept.len() implies (#[trigger] kept[j]).entry::<C, P>()
            is Some by {
            assert(running_ok(kept[j]));
        }
    }
    assert(s.take_running::<C, P>(p).0.decodable::<C, P>()) by {
        let kept = s.running.filter(Filter::pipeline(p).miss::<RunningRow>());
        lemma_filter_keeps(s.running, Filter::pipeline(p).miss::<RunningRow>(), running_ok);
        assert forall|j: int| 0 <= j < kept.len() implies (#[trigger] kept[j]).entry::<C, P>()
            is Some by {
            assert(running_ok(kept[j]));
        }
    }
    assert(s.add_pending(pending.row(p)).decodable::<C, P>()) by {
        let miss = Filter::pull_request(p, pending.row(p).pr).miss::<PendingRow>();
        let kept = s.pending.filter(miss);
        lemma_filter_keeps(s.pending, miss, pending_ok);
        assert forall|j: int| 0 <= j < kept.len() implies (#[trigger] kept[j]).entry::<C, P>()
            is Some by {
            assert(pending_ok(kept[j]));
        }
    }
    assert(s.take_pending_by_pr::<C, P>(p, pr).0.decodable::<C, P>()) by {
        let miss = Filter::pull_request(p, pr).miss::<PendingRow>();
        let kept = s.pending.filter(miss);
        lemma_filter_keeps(s.pending, miss, pending_ok);
        assert forall|j: int| 0 <= j < kept.len() implies (#[trigger] kept[j]).entry::<C, P>()
            is Some by {
            assert(pending_ok(kept[j]));
        }
    }
    assert(s.cancel(f).decodable::<C, P>()) by {
        let after = s.cancel(f);
        lemma_filter_keeps(s.queue, f.miss::<QueueRow>(), queue_ok);
        assert forall|j: int| 0 <= j < after.queue.len() implies (#[trigger] after.queue[j])
            .entry::<C, P>() is Some by {
            assert(queue_ok(after.queue[j]));
        }
        assert forall|j: int| 0 <= j < after.running.len() implies (#[trigger] after.running[j])
            .entry::<C, P>() is Some by {
            assert(s.running[j].entry::<C, P>() is Some);
        }
    }
}

/// A store in which every row decodes, and in which no pipeline runs two
/// tests and no pull request has two pending entries, reports no error.
pub proof fn a_sound_store_reports_no_error<C: TextId, P: TextId>(
    s: StoreView,
    p: PipelineId,
    pr: Seq<char>,
)
    requires
        s.consistent(),
        s.decodable::<C, P>(),
    ensures
        s.pop_queue::<C, P>(p).1 is Ok,
        s.peek_running::<C, P>(p) is Ok,
        s.take_running::<C, P>(p).1 is Ok,
        s.peek_pending_by_pr::<C, P>(p, pr) is Ok,
        s.take_pending_by_pr::<C, P>(p, pr).1 is Ok,
{
    front_is_first(s, p);
    let running_ok = |r: RunningRowView| r.entry::<C, P>() is Some;
    let pending_ok = |r: PendingRowView| r.entry::<C, P>() is Some;
    assert forall|i: int| 0 <= i < s.running.len() implies #[trigger] running_ok(
        s.running[i],
    ) by {
        assert(s.running[i].entry::<C, P>() is Some);
    }
    assert forall|i: int| 0 <= i < s.pending.len() implies #[trigger] pending_ok(
        s.pending[i],
    ) by {
        assert(s.pending[i].entry::<C, P>() is Some);
    }
    lemma_filter_keeps(s.running, Filter::pipeline(p).hit::<RunningRow>(), running_ok);
    lemma_filter_keeps(s.pending, Filter::pull_request(p, pr).hit::<PendingRow>(), pending_ok);
    assert(s.running_of(p).len() <= 1);
    assert(s.pending_of(p, pr).len() <= 1);
    if s.running_of(p).len() == 1 {
        assert(running_ok(s.running_of(p)[0]));
    }
    if s.pending_of(p, pr).len() == 1 {
        assert(pending_ok(s.pending_of(p, pr)[0]));
    }
}

} // verus!
