use mergeq::cache::{Cache, OrgRow, TeamRow};
use mergeq::error::ErrorKind;
use mergeq::ident::{PipelineId, TeamId};

fn teams(ids: &[u32]) -> Vec<TeamId> {
    ids.iter().map(|id| TeamId(*id)).collect()
}

fn team_row(pipeline: i32, column: i32) -> TeamRow {
    TeamRow { pipeline_id: PipelineId(pipeline), team_id: column }
}

#[test]
fn a_new_cache_knows_nothing() {
    let cache = Cache::new();
    assert_eq!(cache.teams_with_write(PipelineId(1)), Ok(vec![]));
    assert_eq!(cache.is_org(PipelineId(1)), Ok(None));
}

#[test]
fn teams_are_replaced_whole() {
    let mut cache = Cache::new();
    assert_eq!(cache.set_teams_with_write(PipelineId(1), &teams(&[1, 2, 3])), Ok(()));
    assert_eq!(cache.teams_with_write(PipelineId(1)), Ok(teams(&[1, 2, 3])));
    assert_eq!(cache.set_teams_with_write(PipelineId(1), &teams(&[2, 3])), Ok(()));
    assert_eq!(cache.teams_with_write(PipelineId(1)), Ok(teams(&[2, 3])));
}

#[test]
fn team_zero_is_rejected_and_nothing_changes() {
    let mut cache = Cache::new();
    assert_eq!(cache.set_teams_with_write(PipelineId(1), &teams(&[1, 2, 3])), Ok(()));
    assert_eq!(
        cache.set_teams_with_write(PipelineId(1), &teams(&[4, 0, 5])),
        Err(ErrorKind::Validation)
    );
    assert_eq!(cache.teams_with_write(PipelineId(1)), Ok(teams(&[1, 2, 3])));
    assert_eq!(
        cache.into_rows().0,
        vec![team_row(1, 1), team_row(1, 2), team_row(1, 3)]
    );
}

#[test]
fn team_zero_is_rejected_for_a_pipeline_without_teams() {
    let mut cache = Cache::new();
    assert_eq!(cache.set_teams_with_write(PipelineId(1), &teams(&[0])), Err(ErrorKind::Validation));
    assert_eq!(cache.teams_with_write(PipelineId(1)), Ok(vec![]));
}

#[test]
fn a_team_given_twice_is_stored_once() {
    let mut cache = Cache::new();
    assert_eq!(cache.set_teams_with_write(PipelineId(1), &teams(&[3, 1, 3, 2, 1])), Ok(()));
    assert_eq!(cache.teams_with_write(PipelineId(1)), Ok(teams(&[3, 1, 2])));
}

#[test]
fn an_empty_set_clears_the_teams() {
    let mut cache = Cache::new();
    assert_eq!(cache.set_teams_with_write(PipelineId(1), &teams(&[1, 2])), Ok(()));
    assert_eq!(cache.set_teams_with_write(PipelineId(1), &teams(&[])), Ok(()));
    assert_eq!(cache.teams_with_write(PipelineId(1)), Ok(vec![]));
    assert!(cache.into_rows().0.is_empty());
}

#[test]
fn teams_of_other_pipelines_stay() {
    let mut cache = Cache::new();
    assert_eq!(cache.set_teams_with_write(PipelineId(1), &teams(&[1, 2])), Ok(()));
    assert_eq!(cache.set_teams_with_write(PipelineId(2), &teams(&[2, 9])), Ok(()));
    assert_eq!(cache.set_teams_with_write(PipelineId(1), &teams(&[7])), Ok(()));
    assert_eq!(cache.teams_with_write(PipelineId(2)), Ok(teams(&[2, 9])));
    assert_eq!(cache.teams_with_write(PipelineId(1)), Ok(teams(&[7])));
}

#[test]
fn teams_above_the_signed_range_are_read_back() {
    let mut cache = Cache::new();
    let big = teams(&[4_000_000_000, 0xffff_ffff, 0x8000_0000, 0x7fff_ffff]);
    assert_eq!(cache.set_teams_with_write(PipelineId(1), &big), Ok(()));
    assert_eq!(cache.teams_with_write(PipelineId(1)), Ok(big));
    assert_eq!(
        cache.into_rows().0,
        vec![
            team_row(1, -294_967_296),
            team_row(1, -1),
            team_row(1, i32::MIN),
            team_row(1, i32::MAX)
        ]
    );
}

#[test]
fn a_team_is_stored_in_the_column_with_the_same_bits() {
    assert_eq!(TeamId(1).to_column(), 1);
    assert_eq!(TeamId(0x7fff_ffff).to_column(), i32::MAX);
    assert_eq!(TeamId(0x8000_0000).to_column(), i32::MIN);
    assert_eq!(TeamId(0xffff_ffff).to_column(), -1);
    assert_eq!(TeamId::from_column(1), Some(TeamId(1)));
    assert_eq!(TeamId::from_column(-1), Some(TeamId(0xffff_ffff)));
    assert_eq!(TeamId::from_column(i32::MIN), Some(TeamId(0x8000_0000)));
    assert_eq!(TeamId::from_column(0), None);
    assert!(TeamId(1).is_valid());
    assert!(!TeamId(0).is_valid());
}

#[test]
fn a_stored_zero_team_is_a_decode_error() {
    let cache = Cache::from_rows(vec![team_row(1, 5), team_row(1, 0), team_row(2, 6)], vec![]);
    assert_eq!(cache.teams_with_write(PipelineId(1)), Err(ErrorKind::Decode));
    assert_eq!(cache.teams_with_write(PipelineId(2)), Ok(teams(&[6])));
}

#[test]
fn a_team_stored_twice_is_a_consistency_error() {
    let cache = Cache::from_rows(vec![team_row(1, 5), team_row(2, 5), team_row(1, 5)], vec![]);
    assert_eq!(cache.teams_with_write(PipelineId(1)), Err(ErrorKind::Consistency));
    assert_eq!(cache.teams_with_write(PipelineId(2)), Ok(teams(&[5])));
}

#[test]
fn setting_the_teams_mends_a_pipeline_with_bad_rows() {
    let mut cache = Cache::from_rows(vec![team_row(1, 5), team_row(1, 5), team_row(1, 0)], vec![]);
    assert_eq!(cache.set_teams_with_write(PipelineId(1), &teams(&[8])), Ok(()));
    assert_eq!(cache.teams_with_write(PipelineId(1)), Ok(teams(&[8])));
}

#[test]
fn the_org_flag_is_unknown_until_it_is_set() {
    let mut cache = Cache::new();
    assert_eq!(cache.is_org(PipelineId(1)), Ok(None));
    cache.set_is_org(PipelineId(1), false);
    assert_eq!(cache.is_org(PipelineId(1)), Ok(Some(false)));
    assert_eq!(cache.is_org(PipelineId(2)), Ok(None));
}

#[test]
fn setting_the_org_flag_again_overwrites_it() {
    let mut cache = Cache::new();
    cache.set_is_org(PipelineId(1), false);
    cache.set_is_org(PipelineId(2), false);
    cache.set_is_org(PipelineId(1), true);
    assert_eq!(cache.is_org(PipelineId(1)), Ok(Some(true)));
    assert_eq!(cache.is_org(PipelineId(2)), Ok(Some(false)));
    assert_eq!(
        cache.into_rows().1,
        vec![
            OrgRow { pipeline_id: PipelineId(2), is_org: false },
            OrgRow { pipeline_id: PipelineId(1), is_org: true }
        ]
    );
}

#[test]
fn two_flags_for_one_pipeline_are_a_consistency_error() {
    let flags = vec![
        OrgRow { pipeline_id: PipelineId(1), is_org: true },
        OrgRow { pipeline_id: PipelineId(1), is_org: true },
    ];
    let mut cache = Cache::from_rows(vec![], flags);
    assert_eq!(cache.is_org(PipelineId(1)), Err(ErrorKind::Consistency));
    cache.set_is_org(PipelineId(1), false);
    assert_eq!(cache.is_org(PipelineId(1)), Ok(Some(false)));
}

#[test]
fn teams_and_flags_do_not_touch_each_other() {
    let mut cache = Cache::new();
    cache.set_is_org(PipelineId(1), true);
    assert_eq!(cache.set_teams_with_write(PipelineId(1), &teams(&[1])), Ok(()));
    assert_eq!(cache.is_org(PipelineId(1)), Ok(Some(true)));
    cache.set_is_org(PipelineId(1), false);
    assert_eq!(cache.teams_with_write(PipelineId(1)), Ok(teams(&[1])));
}
