use unclaimed_groups::exclusion::ExclusionSet;
use unclaimed_groups::model::{
    FatalError, FetchError, GroupRecord, GroupSummary, RelationKind, RelationshipPage, RunConfig,
    SearchPage, StorageError, UserRef,
};
use unclaimed_groups::run_loop::{RunAction, RunEvent, RunLoop};
use unclaimed_groups::selector::{SelectAction, SelectEvent};
use unclaimed_groups::walker::{WalkAction, WalkEvent};

fn loose_group(id: u32) -> GroupRecord {
    GroupRecord {
        id,
        name: format!("group {}", id),
        description: String::new(),
        owner: None,
        shout: None,
        member_count: 3,
        is_builders_club_only: false,
        public_entry_allowed: true,
        is_locked: None,
        has_verified_badge: false,
    }
}

fn held_group(id: u32) -> GroupRecord {
    let mut group = loose_group(id);
    group.owner = Some(UserRef {
        user_id: 1,
        username: "a".to_string(),
        display_name: "A".to_string(),
        has_verified_badge: false,
    });
    group
}

fn point_config(id: u32, repeat: bool) -> RunConfig {
    RunConfig {
        id_range_min: id,
        id_range_max: id,
        search_keyword: None,
        ignore_closed_groups: false,
        repeat,
    }
}

fn keyword_config(keyword: &str) -> RunConfig {
    RunConfig {
        id_range_min: 1,
        id_range_max: 100,
        search_keyword: Some(keyword.to_string()),
        ignore_closed_groups: false,
        repeat: false,
    }
}

fn none_related() -> RunEvent {
    RunEvent::Walk(WalkEvent::Relationships(Err(FetchError::NotFound)))
}

fn allies_of(id: u32, groups: Vec<GroupRecord>) -> RunEvent {
    RunEvent::Walk(WalkEvent::Relationships(Ok(RelationshipPage {
        subject_group_id: id,
        kind: RelationKind::Ally,
        total_count: groups.len() as u32,
        related_groups: groups,
        next_row_index: 0,
    })))
}

/// Walks a lone group to the point where the walk is over.
fn walk_lone_group(run: RunLoop, id: u32) -> (RunLoop, RunAction) {
    let (run, action) = run.step(RunEvent::Seed(Ok(loose_group(id))));
    assert_eq!(action, RunAction::Walk(WalkAction::StoreExclusions));
    let (run, action) = run.step(RunEvent::Walk(WalkEvent::Stored(true)));
    assert_eq!(
        action,
        RunAction::Walk(WalkAction::FetchRelationships { group_id: id, kind: RelationKind::Ally })
    );
    let (run, action) = run.step(none_related());
    assert_eq!(
        action,
        RunAction::Walk(WalkAction::FetchRelationships { group_id: id, kind: RelationKind::Enemy })
    );
    let (run, action) = run.step(none_related());
    assert_eq!(action, RunAction::Walk(WalkAction::Report(loose_group(id))));
    run.step(RunEvent::Walk(WalkEvent::Reported))
}

#[test]
fn run_stops_after_a_walk_that_reported() {
    let run = RunLoop::new(point_config(5, false), ExclusionSet::new());
    assert!(!run.is_over());
    let (run, action) = run.step(RunEvent::Begin);
    assert_eq!(action, RunAction::FetchSeed(5));
    let (run, action) = walk_lone_group(run, 5);
    assert_eq!(action, RunAction::Stop);
    assert!(run.is_over());
    assert_eq!(run.exclusions().ids(), &vec![5]);
    let (_, action) = run.step(RunEvent::Begin);
    assert_eq!(action, RunAction::Ignored);
}

#[test]
fn run_that_repeats_goes_on_after_a_walk_that_reported() {
    let run = RunLoop::new(point_config(5, true), ExclusionSet::new());
    let (run, _) = run.step(RunEvent::Begin);
    let (run, action) = walk_lone_group(run, 5);
    assert_eq!(action, RunAction::Retry);
    assert!(!run.is_over());
    let (run, action) = run.step(RunEvent::Begin);
    assert_eq!(action, RunAction::FetchSeed(5));
    let (run, action) = run.step(RunEvent::Seed(Ok(loose_group(5))));
    assert_eq!(action, RunAction::Retry);
    assert_eq!(run.exclusions().ids(), &vec![5]);
}

#[test]
fn failed_seed_fetch_discards_the_attempt() {
    let run = RunLoop::new(point_config(5, false), ExclusionSet::new());
    let (run, _) = run.step(RunEvent::Begin);
    let (run, action) = run.step(RunEvent::Seed(Err(FetchError::Transport)));
    assert_eq!(action, RunAction::Retry);
    assert!(!run.is_over());
    assert_eq!(run.exclusions().len(), 0);
    let (_, action) = run.step(RunEvent::Begin);
    assert_eq!(action, RunAction::FetchSeed(5));
}

#[test]
fn sentinel_candidate_discards_the_attempt() {
    let run = RunLoop::new(point_config(0, false), ExclusionSet::new());
    let (run, action) = run.step(RunEvent::Begin);
    assert_eq!(action, RunAction::Retry);
    let (_, action) = run.step(RunEvent::Begin);
    assert_eq!(action, RunAction::Retry);
}

#[test]
fn walk_without_report_leads_to_the_next_attempt() {
    let run = RunLoop::new(point_config(5, false), ExclusionSet::new());
    let (run, _) = run.step(RunEvent::Begin);
    let (run, _) = run.step(RunEvent::Seed(Ok(held_group(5))));
    let (run, _) = run.step(RunEvent::Walk(WalkEvent::Stored(true)));
    let (run, _) = run.step(none_related());
    let (run, action) = run.step(none_related());
    assert_eq!(action, RunAction::Retry);
    assert_eq!(run.exclusions().ids(), &vec![5]);
}

#[test]
fn already_excluded_seed_leads_to_the_next_attempt() {
    let run = RunLoop::new(point_config(5, false), ExclusionSet::from_ids(vec![5]));
    let (run, _) = run.step(RunEvent::Begin);
    let (run, action) = run.step(RunEvent::Seed(Ok(loose_group(5))));
    assert_eq!(action, RunAction::Retry);
    assert!(!run.is_over());
}

#[test]
fn walk_that_reported_only_a_neighbour_stops_the_run() {
    let run = RunLoop::new(point_config(5, false), ExclusionSet::new());
    let (run, _) = run.step(RunEvent::Begin);
    let (run, _) = run.step(RunEvent::Seed(Ok(held_group(5))));
    let (run, _) = run.step(RunEvent::Walk(WalkEvent::Stored(true)));
    let (run, _) = run.step(allies_of(5, vec![loose_group(6)]));
    let (run, action) = run.step(none_related());
    assert_eq!(action, RunAction::Walk(WalkAction::StoreExclusions));
    let (run, _) = run.step(RunEvent::Walk(WalkEvent::Stored(true)));
    let (run, _) = run.step(none_related());
    let (run, action) = run.step(none_related());
    assert_eq!(action, RunAction::Walk(WalkAction::Report(loose_group(6))));
    let (run, action) = run.step(RunEvent::Walk(WalkEvent::Reported));
    assert_eq!(action, RunAction::Stop);
    assert!(run.is_over());
    assert_eq!(run.exclusions().ids(), &vec![5, 6]);
}

#[test]
fn failed_store_aborts_the_run() {
    let run = RunLoop::new(point_config(5, true), ExclusionSet::new());
    let (run, _) = run.step(RunEvent::Begin);
    let (run, action) = run.step(RunEvent::Seed(Ok(loose_group(5))));
    assert_eq!(action, RunAction::Walk(WalkAction::StoreExclusions));
    let (run, action) = run.step(RunEvent::Walk(WalkEvent::Stored(false)));
    assert_eq!(action, RunAction::Abort(FatalError::Storage(StorageError::WriteFailed)));
    assert!(run.is_over());
}

#[test]
fn failed_search_aborts_the_run() {
    let run = RunLoop::new(keyword_config("Test"), ExclusionSet::new());
    let (run, action) = run.step(RunEvent::Begin);
    assert_eq!(
        action,
        RunAction::Select(SelectAction::Search { keyword: "Test".to_string(), cursor: None })
    );
    let (run, action) = run.step(RunEvent::Select(SelectEvent::Page(Err(FetchError::Provider))));
    assert_eq!(action, RunAction::Abort(FatalError::Provider(FetchError::Provider)));
    assert!(run.is_over());
}

#[test]
fn search_candidate_is_fetched_and_walked() {
    let page = SearchPage {
        items: vec![GroupSummary {
            id: 42,
            name: "Test".to_string(),
            description: String::new(),
            member_count: 3,
            public_entry_allowed: true,
            has_verified_badge: false,
        }],
        next_cursor: None,
        previous_cursor: None,
    };
    let run = RunLoop::new(keyword_config("Test"), ExclusionSet::new());
    let (run, _) = run.step(RunEvent::Begin);
    let (run, action) = run.step(RunEvent::Select(SelectEvent::Page(Ok(page))));
    assert_eq!(action, RunAction::Select(SelectAction::FetchGroup(42)));
    let (run, action) = run.step(RunEvent::Select(SelectEvent::Group(Ok(loose_group(42)))));
    assert_eq!(action, RunAction::FetchSeed(42));
    let (run, action) = walk_lone_group(run, 42);
    assert_eq!(action, RunAction::Stop);
    assert_eq!(run.exclusions().ids(), &vec![42]);
}

#[test]
fn exhausted_search_gives_notice_and_starts_over() {
    let page = SearchPage { items: vec![], next_cursor: None, previous_cursor: None };
    let run = RunLoop::new(keyword_config("Test"), ExclusionSet::new());
    let (run, _) = run.step(RunEvent::Begin);
    let (run, action) = run.step(RunEvent::Select(SelectEvent::Page(Ok(page))));
    assert_eq!(action, RunAction::Select(SelectAction::Exhausted));
    assert!(!run.is_over());
    let (_, action) = run.step(RunEvent::Begin);
    assert_eq!(
        action,
        RunAction::Select(SelectAction::Search { keyword: "Test".to_string(), cursor: None })
    );
}

#[test]
fn unawaited_run_event_is_ignored() {
    let run = RunLoop::new(point_config(5, false), ExclusionSet::new());
    let (run, action) = run.step(RunEvent::Seed(Ok(loose_group(5))));
    assert_eq!(action, RunAction::Ignored);
    let (run, action) = run.step(RunEvent::Walk(WalkEvent::Reported));
    assert_eq!(action, RunAction::Ignored);
    let (run, action) = run.step(RunEvent::Begin);
    assert_eq!(action, RunAction::FetchSeed(5));
    let (run, action) = run.step(RunEvent::Begin);
    assert_eq!(action, RunAction::Ignored);
    let (run, action) = run.step(RunEvent::Seed(Ok(loose_group(5))));
    assert_eq!(action, RunAction::Walk(WalkAction::StoreExclusions));
    let (_, action) = run.step(RunEvent::Walk(WalkEvent::Reported));
    assert_eq!(action, RunAction::Ignored);
}

#[test]
fn fatal_errors_have_messages() {
    assert_eq!(
        FatalError::Provider(FetchError::Provider).message(),
        "keyword search failed: the provider reported errors"
    );
    assert_eq!(
        FatalError::Provider(FetchError::Transport).message(),
        "keyword search failed: no readable answer"
    );
    assert_eq!(
        FatalError::Provider(FetchError::NotFound).message(),
        "keyword search failed: not found"
    );
    assert_eq!(
        FatalError::Storage(StorageError::Unreadable).message(),
        "exclusion set cannot be read"
    );
    assert_eq!(
        FatalError::Storage(StorageError::WriteFailed).message(),
        "exclusion set cannot be written"
    );
}

#[test]
fn duplicated_config_is_equal() {
    let config = keyword_config("Test");
    assert_eq!(config.duplicate(), config);
    let config = point_config(3, true);
    assert_eq!(config.duplicate(), config);
}
