//! What holds of the cache whatever its state: a set of teams is replaced
//! whole or not at all, and a flag that was set is the flag that is read.

use vstd::prelude::*;
use crate::cache::{
    all_valid, columns, distinct, inside, outside, team_column, team_of, team_row, CacheView,
    OrgRow, TeamRow,
};
use crate::error::ErrorKind;
use crate::filters::{
    lemma_filter_empty, lemma_filter_every, lemma_filter_keeps, lemma_filter_none,
    lemma_filter_within, lemma_filter_without,
};
use crate::ident::{PipelineId, TeamId};

verus! {

/// The first occurrences of a sequence hold what the sequence holds, once each.
pub proof fn distinct_holds_each_once(cols: Seq<i32>)
    ensures
        distinct(cols).no_duplicates(),
        forall|c: i32| distinct(cols).contains(c) <==> cols.contains(c),
    decreases cols.len(),
{
    if cols.len() > 0 {
        let before = distinct(cols.drop_last());
        let last = cols.last();
        distinct_holds_each_once(cols.drop_last());
        assert forall|c: i32| distinct(cols).contains(c) <==> cols.contains(c) by {
            if cols.contains(c) {
                let i = choose|i: int| 0 <= i < cols.len() && cols[i] == c;
                if i < cols.len() - 1 {
                    assert(cols.drop_last()[i] == c);
                    assert(cols.drop_last().contains(c));
                    assert(before.contains(c));
                    let j = choose|j: int| 0 <= j < before.len() && before[j] == c;
                    assert(distinct(cols)[j] == c);
                } else if !before.contains(last) {
                    assert(distinct(cols)[before.len() as int] == c);
                }
            }
            if distinct(cols).contains(c) {
                let j = choose|j: int| 0 <= j < distinct(cols).len() && distinct(cols)[j] == c;
                if j < before.len() {
                    assert(before[j] == c);
                    assert(before.contains(c));
                    assert(cols.drop_last().contains(c));
                    let i = choose|i: int|
                        0 <= i < cols.drop_last().len() && cols.drop_last()[i] == c;
                    assert(cols[i] == c);
                } else {
                    assert(cols[cols.len() - 1] == c);
                }
            }
        }
    }
}

/// The rows of a pipeline after its teams were set are the rows of the
/// teams that were set; the rows of every other pipeline are as they were.
pub proof fn set_teams_replaces(s: CacheView, p: PipelineId, teams: Seq<TeamId>, q: PipelineId)
    requires
        all_valid(teams),
    ensures
        ({
            let (after, r) = s.set_teams_with_write(p, teams);
            &&& r == Ok::<(), ErrorKind>(())
            &&& after.teams_of(q) == if q == p {
                distinct(columns(teams)).map_values(team_row(p))
            } else {
                s.teams_of(q)
            }
            &&& after.orgs == s.orgs
        }),
{
    let kept = s.teams.filter(outside::<TeamRow>(p));
    let fresh = distinct(columns(teams)).map_values(team_row(p));
    let hit = inside::<TeamRow>(q);
    Seq::filter_distributes_over_add(kept, fresh, hit);
    if q == p {
        lemma_filter_without(s.teams, outside::<TeamRow>(p), hit);
        lemma_filter_every(fresh, hit);
        assert(Seq::<TeamRow>::empty() + fresh =~= fresh);
    } else {
        lemma_filter_within(s.teams, outside::<TeamRow>(p), hit);
        assert forall|j: int| 0 <= j < fresh.len() implies !#[trigger] hit(fresh[j]) by {}
        lemma_filter_none(fresh, hit);
        assert(s.teams_of(q) + Seq::<TeamRow>::empty() =~= s.teams_of(q));
    }
}

/// Of valid teams, the columns that are stored are the columns of the
/// teams, once each, and none of them is zero.
proof fn lemma_stored_columns(teams: Seq<TeamId>)
    requires
        all_valid(teams),
    ensures
        distinct(columns(teams)).no_duplicates(),
        !distinct(columns(teams)).contains(0i32),
        forall|c: i32| distinct(columns(teams)).contains(c) <==> columns(teams).contains(c),
{
    distinct_holds_each_once(columns(teams));
    if columns(teams).contains(0i32) {
        let i = choose|i: int| 0 <= i < columns(teams).len() && columns(teams)[i] == 0i32;
        assert(teams[i].valid());
    }
}

/// Two columns that are not zero and stand for the same team are the same column.
proof fn lemma_column_decides(a: i32, b: i32)
    requires
        a != 0,
        b != 0,
        TeamId::of_column(a) == TeamId::of_column(b),
    ensures
        a == b,
{
}

/// Reading back the columns that were stored for valid teams gives those
/// teams, once each.
proof fn lemma_teams_back(teams: Seq<TeamId>, cols: Seq<i32>)
    requires
        all_valid(teams),
        cols.no_duplicates(),
        !cols.contains(0i32),
        forall|c: i32| cols.contains(c) <==> columns(teams).contains(c),
    ensures
        cols.map_values(team_of()).no_duplicates(),
        forall|t: TeamId| cols.map_values(team_of()).contains(t) <==> teams.contains(t),
{
    let list = cols.map_values(team_of());
    assert forall|i: int, j: int|
        0 <= i < list.len() && 0 <= j < list.len() && i != j implies list[i] != list[j] by {
        assert(cols.contains(cols[i]));
        assert(cols.contains(cols[j]));
        if list[i] == list[j] {
            lemma_column_decides(cols[i], cols[j]);
        }
    }
    assert forall|t: TeamId| list.contains(t) implies teams.contains(t) by {
        let i = choose|i: int| 0 <= i < list.len() && list[i] == t;
        assert(cols.contains(cols[i]));
        assert(columns(teams).contains(cols[i]));
        let j = choose|j: int| 0 <= j < columns(teams).len() && columns(teams)[j] == cols[i];
        assert(teams[j].valid());
        teams[j].column_round_trip();
        assert(teams[j] == t);
    }
    assert forall|t: TeamId| teams.contains(t) implies list.contains(t) by {
        let j = choose|j: int| 0 <= j < teams.len() && teams[j] == t;
        assert(teams[j].valid());
        assert(columns(teams)[j] == t.column());
        assert(columns(teams).contains(t.column()));
        assert(cols.contains(t.column()));
        let i = choose|i: int| 0 <= i < cols.len() && cols[i] == t.column();
        t.column_round_trip();
        assert(list[i] == t);
    }
}

/// After the teams of a pipeline were set, a lookup returns exactly those
/// teams, each once, whatever was stored for the pipeline before.
pub proof fn set_teams_then_lookup(s: CacheView, p: PipelineId, teams: Seq<TeamId>)
    requires
        all_valid(teams),
    ensures
        ({
            let after = s.set_teams_with_write(p, teams).0;
            &&& after.teams_with_write(p) matches Ok(list)
            &&& list.no_duplicates()
            &&& forall|t: TeamId| list.contains(t) <==> teams.contains(t)
        }),
{
    let after = s.set_teams_with_write(p, teams).0;
    let cols = distinct(columns(teams));
    set_teams_replaces(s, p, teams, p);
    lemma_stored_columns(teams);
    assert(after.teams_of(p).map_values(team_column()) =~= cols);
    lemma_teams_back(teams, cols);
    assert(after.teams_with_write(p) == Ok::<Seq<TeamId>, ErrorKind>(
        cols.map_values(team_of()),
    ));
}

/// A set of teams that holds a team that is not valid is refused, and the
/// cache stays as it was.
pub proof fn invalid_team_is_refused(s: CacheView, p: PipelineId, teams: Seq<TeamId>)
    requires
        teams.contains(TeamId(0)),
    ensures
        s.set_teams_with_write(p, teams) == (s, Err::<(), ErrorKind>(ErrorKind::Validation)),
{
    let i = choose|i: int| 0 <= i < teams.len() && teams[i] == TeamId(0);
    assert(!teams[i].valid());
}

/// A pipeline of which nothing was ever stored has no teams and no flag.
pub proof fn empty_cache_knows_nothing(p: PipelineId)
    ensures
        CacheView::empty().teams_with_write(p) == Ok::<Seq<TeamId>, ErrorKind>(Seq::empty()),
        CacheView::empty().is_org(p) == Ok::<Option<bool>, ErrorKind>(None),
{
    lemma_filter_empty(inside::<TeamRow>(p));
    lemma_filter_empty(inside::<OrgRow>(p));
    let cols = CacheView::empty().teams_of(p).map_values(team_column());
    assert(cols =~= Seq::<i32>::empty());
    assert(cols.map_values(team_of()) =~= Seq::<TeamId>::empty());
}

/// After the flag of a pipeline was set, it is the flag that is read,
/// whatever was stored before; the flag of every other pipeline and the
/// teams are as they were.
pub proof fn set_is_org_then_read(s: CacheView, p: PipelineId, is_org: bool, q: PipelineId)
    ensures
        s.set_is_org(p, is_org).is_org(p) == Ok::<Option<bool>, ErrorKind>(Some(is_org)),
        q != p ==> s.set_is_org(p, is_org).orgs_of(q) == s.orgs_of(q),
        q != p ==> s.set_is_org(p, is_org).is_org(q) == s.is_org(q),
        s.set_is_org(p, is_org).teams == s.teams,
{
    let row = OrgRow { pipeline_id: p, is_org };
    let kept = s.orgs.filter(outside::<OrgRow>(p));
    kept.lemma_filter_push(row, inside::<OrgRow>(p));
    lemma_filter_without(s.orgs, outside::<OrgRow>(p), inside::<OrgRow>(p));
    assert(Seq::<OrgRow>::empty().push(row) =~= seq![row]);
    if q != p {
        kept.lemma_filter_push(row, inside::<OrgRow>(q));
        lemma_filter_within(s.orgs, outside::<OrgRow>(p), inside::<OrgRow>(q));
    }
}

/// A cache in which no team occurs twice for a pipeline and no pipeline
/// has two flags is still such a cache after any operation.
pub proof fn cache_consistency_is_kept(
    s: CacheView,
    p: PipelineId,
    teams: Seq<TeamId>,
    is_org: bool,
)
    requires
        s.consistent(),
    ensures
        CacheView::empty().consistent(),
        s.set_teams_with_write(p, teams).0.consistent(),
        s.set_is_org(p, is_org).consistent(),
{
    assert(CacheView::empty().consistent()) by {
        assert forall|q: PipelineId| #[trigger]
            CacheView::empty().teams_of(q).map_values(team_column()).no_duplicates() by {
            lemma_filter_empty(inside::<TeamRow>(q));
        }
        assert forall|q: PipelineId| #[trigger] CacheView::empty().orgs_of(q).len() <= 1 by {
            lemma_filter_empty(inside::<OrgRow>(q));
        }
    }
    assert(s.set_teams_with_write(p, teams).0.consistent()) by {
        let after = s.set_teams_with_write(p, teams).0;
        if all_valid(teams) {
            assert forall|q: PipelineId| #[trigger]
                after.teams_of(q).map_values(team_column()).no_duplicates() by {
                set_teams_replaces(s, p, teams, q);
                if q == p {
                    distinct_holds_each_once(columns(teams));
                    assert(after.teams_of(p).map_values(team_column()) =~= distinct(
                        columns(teams),
                    ));
                } else {
                    assert(s.teams_of(q).map_values(team_column()).no_duplicates());
                }
            }
            assert forall|q: PipelineId| #[trigger] after.orgs_of(q).len() <= 1 by {
                assert(after.orgs_of(q) == s.orgs_of(q));
            }
        }
    }
    assert(s.set_is_org(p, is_org).consistent()) by {
        let after = s.set_is_org(p, is_org);
        assert forall|q: PipelineId| #[trigger]
            after.teams_of(q).map_values(team_column()).no_duplicates() by {
            assert(after.teams_of(q) == s.teams_of(q));
            assert(s.teams_of(q).map_values(team_column()).no_duplicates());
        }
        assert forall|q: PipelineId| #[trigger] after.orgs_of(q).len() <= 1 by {
            set_is_org_then_read(s, p, is_org, q);
            assert(s.orgs_of(q).len() <= 1);
        }
    }
}

/// A cache in which no team row holds a zero is still such a cache after
/// any operation.
pub proof fn team_rows_stay_decodable(
    s: CacheView,
    p: PipelineId,
    teams: Seq<TeamId>,
    is_org: bool,
)
    requires
        s.decodable(),
    ensures
        CacheView::empty().decodable(),
        s.set_teams_with_write(p, teams).0.decodable(),
        s.set_is_org(p, is_org).decodable(),
{
    if all_valid(teams) {
        let after = s.set_teams_with_write(p, teams).0;
        let kept = s.teams.filter(outside::<TeamRow>(p));
        let fresh = distinct(columns(teams));
        let nonzero = |r: TeamRow| r.team_id != 0;
        lemma_stored_columns(teams);
        assert forall|i: int| 0 <= i < s.teams.len() implies #[trigger] nonzero(s.teams[i]) by {
            assert(s.teams[i].team_id != 0);
        }
        lemma_filter_keeps(s.teams, outside::<TeamRow>(p), nonzero);
        assert forall|i: int| 0 <= i < after.teams.len() implies (#[trigger] after.teams[i]).team_id
            != 0 by {
            if i < kept.len() {
                assert(nonzero(kept[i]));
            } else {
                assert(fresh.contains(fresh[i - kept.len()]));
            }
        }
    }
}

/// A cache in which no team row holds a zero, no team occurs twice for a
/// pipeline and no pipeline has two flags reports no error.
pub proof fn a_sound_cache_reports_no_error(s: CacheView, p: PipelineId)
    requires
        s.consistent(),
        s.decodable(),
    ensures
        s.teams_with_write(p) is Ok,
        s.is_org(p) is Ok,
{
    let nonzero = |r: TeamRow| r.team_id != 0;
    let rows = s.teams_of(p);
    let cols = rows.map_values(team_column());
    assert forall|i: int| 0 <= i < s.teams.len() implies #[trigger] nonzero(s.teams[i]) by {
        assert(s.teams[i].team_id != 0);
    }
    lemma_filter_keeps(s.teams, inside::<TeamRow>(p), nonzero);
    assert(cols.no_duplicates());
    if cols.contains(0i32) {
        let i = choose|i: int| 0 <= i < cols.len() && cols[i] == 0i32;
        assert(nonzero(rows[i]));
    }
    assert(s.orgs_of(p).len() <= 1);
}

} // verus!
