//! Rows with a pipeline, a pull request and a commit, and the three things
//! every table of the store does with them: find, find the earliest, delete.

use vstd::prelude::*;
use crate::filters::lemma_filter_step;
use crate::ident::PipelineId;

verus! {

/// The columns by which rows are selected.
pub struct RowKey {
    pub pipeline_id: PipelineId,
    pub pr: Seq<char>,
    pub pull_commit: Seq<char>,
}

/// A row of one of the store's tables.
pub trait Row: View + Sized {
    /// The selecting columns of a row, read off its view.
    spec fn key(v: Self::V) -> RowKey;

    fn pipeline_id(&self) -> (p: PipelineId)
        ensures
            p == Self::key(self@).pipeline_id,
    ;

    fn pr(&self) -> (s: &String)
        ensures
            s@ == Self::key(self@).pr,
    ;

    fn pull_commit(&self) -> (s: &String)
        ensures
            s@ == Self::key(self@).pull_commit,
    ;

    fn copy(&self) -> (r: Self)
        ensures
            r@ == self@,
    ;
}

/// The views of the rows of a table, in table order.
pub open spec fn views<R: Row>(rows: Seq<R>) -> Seq<R::V> {
    Seq::new(rows.len(), |i: int| rows[i]@)
}

/// Which rows a statement is about: those of one pipeline, optionally only
/// those of one pull request, optionally only those whose commit is not a
/// given one.
pub struct Filter {
    pub pipeline_id: PipelineId,
    pub pr: Option<Seq<char>>,
    pub other_than: Option<Seq<char>>,
}

impl Filter {
    /// Every row of a pipeline.
    pub open spec fn pipeline(pipeline_id: PipelineId) -> Filter {
        Filter { pipeline_id, pr: None, other_than: None }
    }

    /// Every row of a pull request of a pipeline.
    pub open spec fn pull_request(pipeline_id: PipelineId, pr: Seq<char>) -> Filter {
        Filter { pipeline_id, pr: Some(pr), other_than: None }
    }

    /// Every row of a pull request of a pipeline that is for another commit
    /// than the given one.
    pub open spec fn stale(pipeline_id: PipelineId, pr: Seq<char>, commit: Seq<char>) -> Filter {
        Filter { pipeline_id, pr: Some(pr), other_than: Some(commit) }
    }

    /// Whether a row with the given columns is one of the rows.
    pub open spec fn admits(self, key: RowKey) -> bool {
        &&& key.pipeline_id == self.pipeline_id
        &&& (self.pr matches Some(pr) ==> key.pr == pr)
        &&& (self.other_than matches Some(commit) ==> key.pull_commit != commit)
    }

    /// The rows that the filter selects.
    pub open spec fn hit<R: Row>(self) -> spec_fn(R::V) -> bool {
        |v: R::V| self.admits(R::key(v))
    }

    /// The rows that the filter leaves alone.
    pub open spec fn miss<R: Row>(self) -> spec_fn(R::V) -> bool {
        |v: R::V| !self.admits(R::key(v))
    }
}

/// Row `i` is the earliest of `rows` that `hit` selects.
pub open spec fn is_earliest<V>(rows: Seq<V>, hit: spec_fn(V) -> bool, i: int) -> bool {
    &&& 0 <= i < rows.len()
    &&& hit(rows[i])
    &&& forall|j: int| 0 <= j < i ==> !#[trigger] hit(rows[j])
}

/// No row of `rows` is selected by `hit`.
pub open spec fn none_hit<V>(rows: Seq<V>, hit: spec_fn(V) -> bool) -> bool {
    forall|j: int| 0 <= j < rows.len() ==> !#[trigger] hit(rows[j])
}

/// A filter as executable code holds it.
pub struct Selector<'a> {
    pub pipeline_id: PipelineId,
    pub pr: Option<&'a String>,
    pub other_than: Option<&'a String>,
}

impl<'a> View for Selector<'a> {
    type V = Filter;

    open spec fn view(&self) -> Filter {
        Filter {
            pipeline_id: self.pipeline_id,
            pr: match self.pr {
                Some(s) => Some(s@),
                None => None,
            },
            other_than: match self.other_than {
                Some(s) => Some(s@),
                None => None,
            },
        }
    }
}

impl<'a> Selector<'a> {
    pub fn admits<R: Row>(&self, row: &R) -> (b: bool)
        ensures
            b == self@.admits(R::key(row@)),
    {
        if row.pipeline_id() != self.pipeline_id {
            return false;
        }
        let pr_ok = match self.pr {
            Some(pr) => *row.pr() == *pr,
            None => true,
        };
        if !pr_ok {
            return false;
        }
        match self.other_than {
            Some(commit) => *row.pull_commit() != *commit,
            None => true,
        }
    }
}

/// How many rows a filter selects, as far as a reader of a unique row cares.
pub(crate) enum Lookup {
    Absent,
    Single(usize),
    Several,
}

/// Looks for the rows that the selector admits.
pub(crate) fn find<R: Row>(rows: &Vec<R>, sel: &Selector) -> (r: Lookup)
    ensures
        match r {
            Lookup::Absent => views(rows@).filter(sel@.hit::<R>()).len() == 0,
            Lookup::Single(i) => i < rows.len() && views(rows@).filter(sel@.hit::<R>()) == seq![
                rows[i as int]@,
            ],
            Lookup::Several => views(rows@).filter(sel@.hit::<R>()).len() >= 2,
        },
{
    let ghost vs = views(rows@);
    let ghost f = sel@.hit::<R>();
    let mut found: Option<usize> = None;
    let mut several = false;
    let mut k: usize = 0;
    proof {
        assert(vs.take(0) =~= Seq::<R::V>::empty());
        reveal(Seq::filter);
    }
    while k < rows.len()
        invariant
            0 <= k <= rows.len(),
            vs == views(rows@),
            f == sel@.hit::<R>(),
            match found {
                None => vs.take(k as int).filter(f).len() == 0,
                Some(i) => i < k && vs.take(k as int).filter(f).len() >= 1 && vs.take(
                    k as int,
                ).filter(f)[0] == vs[i as int],
            },
            several <==> vs.take(k as int).filter(f).len() >= 2,
        decreases rows.len() - k,
    {
        proof {
            lemma_filter_step(vs, f, k as int);
        }
        if sel.admits(&rows[k]) {
            if found.is_some() {
                several = true;
            } else {
                found = Some(k);
            }
        }
        k += 1;
    }
    proof {
        assert(vs.take(k as int) =~= vs);
    }
    match found {
        None => Lookup::Absent,
        Some(i) => {
            if several {
                Lookup::Several
            } else {
                proof {
                    assert(vs.filter(f) =~= seq![rows[i as int]@]);
                }
                Lookup::Single(i)
            }
        },
    }
}

/// Looks for the earliest row that the selector admits.
pub(crate) fn earliest<R: Row>(rows: &Vec<R>, sel: &Selector) -> (r: Option<usize>)
    ensures
        match r {
            None => none_hit(views(rows@), sel@.hit::<R>()),
            Some(i) => is_earliest(views(rows@), sel@.hit::<R>(), i as int),
        },
{
    let mut k: usize = 0;
    while k < rows.len()
        invariant
            0 <= k <= rows.len(),
            forall|j: int| 0 <= j < k ==> !#[trigger] sel@.hit::<R>()(views(rows@)[j]),
        decreases rows.len() - k,
    {
        if sel.admits(&rows[k]) {
            return Some(k);
        }
        k += 1;
    }
    None
}

/// Deletes the rows that the selector admits, and says whether there were any.
pub(crate) fn delete<R: Row>(rows: &mut Vec<R>, sel: &Selector) -> (any: bool)
    ensures
        views(final(rows)@) == views(old(rows)@).filter(sel@.miss::<R>()),
        any == (views(old(rows)@).filter(sel@.hit::<R>()).len() > 0),
{
    let ghost vs = views(rows@);
    let ghost hit = sel@.hit::<R>();
    let ghost miss = sel@.miss::<R>();
    let mut kept: Vec<R> = Vec::new();
    let mut any = false;
    let mut k: usize = 0;
    proof {
        assert(vs.take(0) =~= Seq::<R::V>::empty());
        reveal(Seq::filter);
        assert(views(kept@) =~= vs.take(0).filter(miss));
    }
    while k < rows.len()
        invariant
            0 <= k <= rows.len(),
            vs == views(rows@),
            hit == sel@.hit::<R>(),
            miss == sel@.miss::<R>(),
            views(kept@) == vs.take(k as int).filter(miss),
            any == (vs.take(k as int).filter(hit).len() > 0),
        decreases rows.len() - k,
    {
        proof {
            lemma_filter_step(vs, hit, k as int);
            lemma_filter_step(vs, miss, k as int);
        }
        if sel.admits(&rows[k]) {
            any = true;
        } else {
            let ghost before = views(kept@);
            kept.push(rows[k].copy());
            proof {
                assert(views(kept@) =~= before.push(vs[k as int]));
            }
        }
        k += 1;
    }
    proof {
        assert(vs.take(k as int) =~= vs);
    }
    *rows = kept;
    any
}

} // verus!
