//! The cache of what is known of a pipeline's repository: the teams with
//! write access, and whether its owner is an organisation.

use vstd::prelude::*;
use crate::error::ErrorKind;
use crate::filters::lemma_filter_step;
use crate::ident::{PipelineId, TeamId};

verus! {

/// A row of the table of teams with write access: one team of one pipeline.
#[derive(Clone, Copy, Debug, PartialEq, Eq, Structural)]
pub struct TeamRow {
    pub pipeline_id: PipelineId,
    pub team_id: i32,
}

/// A row of the table of organisation flags: the flag of one pipeline.
#[derive(Clone, Copy, Debug, PartialEq, Eq, Structural)]
pub struct OrgRow {
    pub pipeline_id: PipelineId,
    pub is_org: bool,
}

/// A row that belongs to one pipeline.
pub trait Scoped: Copy {
    spec fn scope(self) -> PipelineId;

    fn pipeline_id(&self) -> (p: PipelineId)
        ensures
            p == self.scope(),
    ;
}

impl Scoped for TeamRow {
    open spec fn scope(self) -> PipelineId {
        self.pipeline_id
    }

    fn pipeline_id(&self) -> PipelineId {
        self.pipeline_id
    }
}

impl Scoped for OrgRow {
    open spec fn scope(self) -> PipelineId {
        self.pipeline_id
    }

    fn pipeline_id(&self) -> PipelineId {
        self.pipeline_id
    }
}

/// The rows of a pipeline.
pub open spec fn inside<R: Scoped>(p: PipelineId) -> spec_fn(R) -> bool {
    |r: R| r.scope() == p
}

/// The rows of every other pipeline.
pub open spec fn outside<R: Scoped>(p: PipelineId) -> spec_fn(R) -> bool {
    |r: R| r.scope() != p
}

/// The column in which each team is stored.
pub open spec fn columns(teams: Seq<TeamId>) -> Seq<i32> {
    teams.map_values(|t: TeamId| t.column())
}

/// The first occurrence of each column, in order.
pub open spec fn distinct(cols: Seq<i32>) -> Seq<i32>
    decreases cols.len(),
{
    if cols.len() == 0 {
        cols
    } else {
        let before = distinct(cols.drop_last());
        if before.contains(cols.last()) {
            before
        } else {
            before.push(cols.last())
        }
    }
}

/// The row that stores a column for a pipeline.
pub open spec fn team_row(p: PipelineId) -> spec_fn(i32) -> TeamRow {
    |c: i32| TeamRow { pipeline_id: p, team_id: c }
}

/// The column of a row.
pub open spec fn team_column() -> spec_fn(TeamRow) -> i32 {
    |r: TeamRow| r.team_id
}

/// The team of a column that is not zero.
pub open spec fn team_of() -> spec_fn(i32) -> TeamId {
    |c: i32| TeamId::of_column(c).unwrap()
}

/// Every team of the sequence is a valid one.
pub open spec fn all_valid(teams: Seq<TeamId>) -> bool {
    forall|i: int| 0 <= i < teams.len() ==> (#[trigger] teams[i]).valid()
}

/// The two tables of the cache.
pub struct CacheView {
    pub teams: Seq<TeamRow>,
    pub orgs: Seq<OrgRow>,
}

impl CacheView {
    pub open spec fn empty() -> CacheView {
        CacheView { teams: Seq::empty(), orgs: Seq::empty() }
    }

    /// The team rows of a pipeline.
    pub open spec fn teams_of(self, p: PipelineId) -> Seq<TeamRow> {
        self.teams.filter(inside::<TeamRow>(p))
    }

    /// The flag rows of a pipeline.
    pub open spec fn orgs_of(self, p: PipelineId) -> Seq<OrgRow> {
        self.orgs.filter(inside::<OrgRow>(p))
    }

    /// No team occurs twice for a pipeline, and no pipeline has two flags.
    pub open spec fn consistent(self) -> bool {
        &&& forall|p: PipelineId| #[trigger]
            self.teams_of(p).map_values(team_column()).no_duplicates()
        &&& forall|p: PipelineId| #[trigger] self.orgs_of(p).len() <= 1
    }

    /// No team row holds a zero.
    pub open spec fn decodable(self) -> bool {
        forall|i: int| 0 <= i < self.teams.len() ==> (#[trigger] self.teams[i]).team_id != 0
    }

    /// Replaces the teams of a pipeline, all or nothing: a team that is not
    /// valid is refused and the tables stay as they are.
    pub open spec fn set_teams_with_write(self, p: PipelineId, teams: Seq<TeamId>) -> (
        CacheView,
        Result<(), ErrorKind>,
    ) {
        if all_valid(teams) {
            (
                CacheView {
                    teams: self.teams.filter(outside::<TeamRow>(p)) + distinct(
                        columns(teams),
                    ).map_values(team_row(p)),
                    ..self
                },
                Ok(()),
            )
        } else {
            (self, Err(ErrorKind::Validation))
        }
    }

    /// The teams of a pipeline, in table order. A team that is stored twice
    /// is a consistency error; a stored zero is a decode error.
    pub open spec fn teams_with_write(self, p: PipelineId) -> Result<Seq<TeamId>, ErrorKind> {
        let cols = self.teams_of(p).map_values(team_column());
        if !cols.no_duplicates() {
            Err(ErrorKind::Consistency)
        } else if cols.contains(0i32) {
            Err(ErrorKind::Decode)
        } else {
            Ok(cols.map_values(team_of()))
        }
    }

    /// The flag of a pipeline, if it has one. Two flags are a consistency error.
    pub open spec fn is_org(self, p: PipelineId) -> Result<Option<bool>, ErrorKind> {
        let rows = self.orgs_of(p);
        if rows.len() == 0 {
            Ok(None)
        } else if rows.len() >= 2 {
            Err(ErrorKind::Consistency)
        } else {
            Ok(Some(rows[0].is_org))
        }
    }

    /// Sets the flag of a pipeline, in place of whatever flag it had.
    pub open spec fn set_is_org(self, p: PipelineId, is_org: bool) -> CacheView {
        CacheView {
            orgs: self.orgs.filter(outside::<OrgRow>(p)).push(OrgRow { pipeline_id: p, is_org }),
            ..self
        }
    }
}

/// The teams that a lookup returned, as a sequence.
pub open spec fn listed(r: Result<Vec<TeamId>, ErrorKind>) -> Result<Seq<TeamId>, ErrorKind> {
    match r {
        Ok(v) => Ok(v@),
        Err(k) => Err(k),
    }
}

/// Copies the rows of a pipeline, or those of all the others.
fn select<R: Scoped>(rows: &Vec<R>, p: PipelineId, mine: bool) -> (out: Vec<R>)
    ensures
        out@ == rows@.filter(
            if mine {
                inside::<R>(p)
            } else {
                outside::<R>(p)
            },
        ),
{
    let ghost want = if mine {
        inside::<R>(p)
    } else {
        outside::<R>(p)
    };
    let mut out: Vec<R> = Vec::new();
    let mut k: usize = 0;
    proof {
        assert(rows@.take(0) =~= Seq::<R>::empty());
        reveal(Seq::filter);
    }
    while k < rows.len()
        invariant
            0 <= k <= rows.len(),
            want == if mine {
                inside::<R>(p)
            } else {
                outside::<R>(p)
            },
            out@ == rows@.take(k as int).filter(want),
        decreases rows.len() - k,
    {
        proof {
            lemma_filter_step(rows@, want, k as int);
        }
        let row = rows[k];
        if (row.pipeline_id() == p) == mine {
            out.push(row);
        }
        k += 1;
    }
    proof {
        assert(rows@.take(k as int) =~= rows@);
    }
    out
}

fn holds(cols: &Vec<i32>, c: i32) -> (b: bool)
    ensures
        b == cols@.contains(c),
{
    let mut k: usize = 0;
    while k < cols.len()
        invariant
            0 <= k <= cols.len(),
            forall|j: int| 0 <= j < k ==> cols@[j] != c,
        decreases cols.len() - k,
    {
        if cols[k] == c {
            return true;
        }
        k += 1;
    }
    false
}

fn first_occurrences(cols: &Vec<i32>) -> (out: Vec<i32>)
    ensures
        out@ == distinct(cols@),
{
    let mut out: Vec<i32> = Vec::new();
    let mut k: usize = 0;
    proof {
        assert(cols@.take(0) =~= Seq::<i32>::empty());
    }
    while k < cols.len()
        invariant
            0 <= k <= cols.len(),
            out@ == distinct(cols@.take(k as int)),
        decreases cols.len() - k,
    {
        proof {
            assert(cols@.take(k as int + 1).drop_last() =~= cols@.take(k as int));
        }
        if !holds(&out, cols[k]) {
            out.push(cols[k]);
        }
        k += 1;
    }
    proof {
        assert(cols@.take(k as int) =~= cols@);
    }
    out
}

fn all_distinct(cols: &Vec<i32>) -> (b: bool)
    ensures
        b == cols@.no_duplicates(),
{
    let mut i: usize = 0;
    while i < cols.len()
        invariant
            0 <= i <= cols.len(),
            forall|a: int, b: int| 0 <= a < b < i ==> cols@[a] != cols@[b],
        decreases cols.len() - i,
    {
        let mut j: usize = 0;
        while j < i
            invariant
                0 <= j <= i < cols.len(),
                forall|a: int| 0 <= a < j ==> cols@[a] != cols@[i as int],
            decreases i - j,
        {
            if cols[j] == cols[i] {
                return false;
            }
            j += 1;
        }
        i += 1;
    }
    true
}

/// The cache.
pub struct Cache {
    teams: Vec<TeamRow>,
    orgs: Vec<OrgRow>,
}

impl View for Cache {
    type V = CacheView;

    closed spec fn view(&self) -> CacheView {
        CacheView { teams: self.teams@, orgs: self.orgs@ }
    }
}

impl Cache {
    /// A cache that knows nothing.
    pub fn new() -> (c: Cache)
        ensures
            c@ == CacheView::empty(),
    {
        Cache { teams: Vec::new(), orgs: Vec::new() }
    }

    /// A cache over rows as they were persisted.
    pub fn from_rows(teams: Vec<TeamRow>, orgs: Vec<OrgRow>) -> (c: Cache)
        ensures
            c@ == (CacheView { teams: teams@, orgs: orgs@ }),
    {
        Cache { teams, orgs }
    }

    /// The rows of the two tables, to be persisted.
    pub fn into_rows(self) -> (rows: (Vec<TeamRow>, Vec<OrgRow>))
        ensures
            self@ == (CacheView { teams: rows.0@, orgs: rows.1@ }),
    {
        (self.teams, self.orgs)
    }

    /// Replaces the set of teams with write access to a pipeline.
    pub fn set_teams_with_write(
        &mut self,
        pipeline_id: PipelineId,
        teams: &Vec<TeamId>,
    ) -> (r: Result<(), ErrorKind>)
        ensures
            (final(self)@, r) == old(self)@.set_teams_with_write(pipeline_id, teams@),
    {
        let mut cols: Vec<i32> = Vec::new();
        let mut i: usize = 0;
        while i < teams.len()
            invariant
                0 <= i <= teams.len(),
                cols@ == columns(teams@.take(i as int)),
                all_valid(teams@.take(i as int)),
            decreases teams.len() - i,
        {
            if !teams[i].is_valid() {
                return Err(ErrorKind::Validation);
            }
            cols.push(teams[i].to_column());
            proof {
                assert(teams@.take(i as int + 1) =~= teams@.take(i as int).push(teams@[i as int]));
                assert(cols@ =~= columns(teams@.take(i as int + 1)));
            }
            i += 1;
        }
        proof {
            assert(teams@.take(i as int) =~= teams@);
        }
        let fresh = first_occurrences(&cols);
        let mut rows = select(&self.teams, pipeline_id, false);
        let ghost rest = rows@;
        let mut k: usize = 0;
        while k < fresh.len()
            invariant
                0 <= k <= fresh.len(),
                rows@ == rest + fresh@.take(k as int).map_values(team_row(pipeline_id)),
            decreases fresh.len() - k,
        {
            rows.push(TeamRow { pipeline_id, team_id: fresh[k] });
            proof {
                assert(fresh@.take(k as int + 1) =~= fresh@.take(k as int).push(fresh@[k as int]));
                assert(rows@ =~= rest + fresh@.take(k as int + 1).map_values(
                    team_row(pipeline_id),
                ));
            }
            k += 1;
        }
        proof {
            assert(fresh@.take(k as int) =~= fresh@);
        }
        self.teams = rows;
        Ok(())
    }

    /// The teams with write access to a pipeline.
    pub fn teams_with_write(&self, pipeline_id: PipelineId) -> (r: Result<Vec<TeamId>, ErrorKind>)
        ensures
            listed(r) == self@.teams_with_write(pipeline_id),
    {
        let mine = select(&self.teams, pipeline_id, true);
        let mut cols: Vec<i32> = Vec::new();
        let mut i: usize = 0;
        while i < mine.len()
            invariant
                0 <= i <= mine.len(),
                cols@ == mine@.take(i as int).map_values(team_column()),
            decreases mine.len() - i,
        {
            cols.push(mine[i].team_id);
            proof {
                assert(mine@.take(i as int + 1) =~= mine@.take(i as int).push(mine@[i as int]));
                assert(cols@ =~= mine@.take(i as int + 1).map_values(team_column()));
            }
            i += 1;
        }
        proof {
            assert(mine@.take(i as int) =~= mine@);
        }
        if !all_distinct(&cols) {
            return Err(ErrorKind::Consistency);
        }
        let mut out: Vec<TeamId> = Vec::new();
        let mut k: usize = 0;
        while k < cols.len()
            invariant
                0 <= k <= cols.len(),
                cols@ == self@.teams_of(pipeline_id).map_values(team_column()),
                cols@.no_duplicates(),
                out@ == cols@.take(k as int).map_values(team_of()),
                !cols@.take(k as int).contains(0i32),
            decreases cols.len() - k,
        {
            proof {
                assert(cols@.take(k as int + 1) =~= cols@.take(k as int).push(cols@[k as int]));
            }
            match TeamId::from_column(cols[k]) {
                None => {
                    proof {
                        assert(cols@[k as int] == 0i32);
                        assert(cols@.contains(0i32));
                    }
                    return Err(ErrorKind::Decode);
                },
                Some(team) => {
                    out.push(team);
                    proof {
                        assert(out@ =~= cols@.take(k as int + 1).map_values(team_of()));
                        let ghost wider = cols@.take(k as int + 1);
                        assert forall|j: int| 0 <= j < wider.len() implies #[trigger] wider[j]
                            != 0i32 by {
                            if j < k {
                                assert(cols@.take(k as int)[j] == wider[j]);
                            }
                        }
                    }
                },
            }
            k += 1;
        }
        proof {
            assert(cols@.take(k as int) =~= cols@);
        }
        Ok(out)
    }

    /// Whether the owner of a pipeline's repository is an organisation, if that is known.
    pub fn is_org(&self, pipeline_id: PipelineId) -> (r: Result<Option<bool>, ErrorKind>)
        ensures
            r == self@.is_org(pipeline_id),
    {
        let mine = select(&self.orgs, pipeline_id, true);
        if mine.len() == 0 {
            Ok(None)
        } else if mine.len() >= 2 {
            Err(ErrorKind::Consistency)
        } else {
            Ok(Some(mine[0].is_org))
        }
    }

    /// Records whether the owner of a pipeline's repository is an organisation.
    pub fn set_is_org(&mut self, pipeline_id: PipelineId, is_org: bool)
        ensures
            final(self)@ == old(self)@.set_is_org(pipeline_id, is_org),
    {
        let mut rows = select(&self.orgs, pipeline_id, false);
        rows.push(OrgRow { pipeline_id, is_org });
        self.orgs = rows;
    }
}

} // verus!
