use std::collections::HashMap;
use unclaimed_groups::exclusion::ExclusionSet;
use unclaimed_groups::model::{
    FetchError, GroupRecord, RelationKind, RelationshipPage, RunConfig, StorageError, UserRef,
};
use unclaimed_groups::walker::{WalkAction, WalkEvent, Walker};

fn free_group(id: u32) -> GroupRecord {
    GroupRecord {
        id,
        name: format!("group {}", id),
        description: String::new(),
        owner: None,
        shout: None,
        member_count: 3,
        is_builders_club_only: false,
        public_entry_allowed: true,
        is_locked: None,
        has_verified_badge: false,
    }
}

fn owned_group(id: u32) -> GroupRecord {
    let mut group = free_group(id);
    group.owner = Some(UserRef {
        user_id: 1,
        username: "a".to_string(),
        display_name: "A".to_string(),
        has_verified_badge: false,
    });
    group
}

fn walk_config() -> RunConfig {
    RunConfig {
        id_range_min: 1,
        id_range_max: 100,
        search_keyword: None,
        ignore_closed_groups: false,
        repeat: false,
    }
}

fn relations(id: u32, kind: RelationKind, groups: Vec<GroupRecord>) -> RelationshipPage {
    RelationshipPage {
        subject_group_id: id,
        kind,
        total_count: groups.len() as u32,
        related_groups: groups,
        next_row_index: 0,
    }
}

/// What a walk did, as the caller saw it.
#[derive(Debug, Default)]
struct Trail {
    stores: usize,
    fetches: Vec<(u32, RelationKind)>,
    reports: Vec<u32>,
    seed_reported: bool,
    reported: usize,
}

/// Drives a walk to its end over a graph given as id → (allies, enemies).
fn drive(
    seed: GroupRecord,
    exclusions: ExclusionSet,
    graph: &HashMap<u32, (Vec<GroupRecord>, Vec<GroupRecord>)>,
) -> (Trail, ExclusionSet) {
    let mut trail = Trail::default();
    let walker = Walker::new(walk_config(), exclusions, seed);
    let (mut walker, mut action) = walker.step(WalkEvent::Begin);
    for _ in 0..10_000 {
        let event = match action {
            WalkAction::StoreExclusions => {
                trail.stores += 1;
                WalkEvent::Stored(true)
            }
            WalkAction::FetchRelationships { group_id, kind } => {
                trail.fetches.push((group_id, kind));
                let answer = match graph.get(&group_id) {
                    Some((allies, enemies)) => Ok(relations(
                        group_id,
                        kind,
                        match kind {
                            RelationKind::Ally => allies.clone(),
                            RelationKind::Enemy => enemies.clone(),
                        },
                    )),
                    None => Err(FetchError::NotFound),
                };
                WalkEvent::Relationships(answer)
            }
            WalkAction::Report(group) => {
                trail.reports.push(group.id);
                WalkEvent::Reported
            }
            WalkAction::Finished { seed_reported, reported } => {
                trail.seed_reported = seed_reported;
                trail.reported = reported;
                assert!(walker.is_over());
                assert_eq!(walker.reported(), &trail.reports);
                return (trail, walker.into_exclusions());
            }
            other => panic!("unexpected action {:?}", other),
        };
        let next = walker.step(event);
        walker = next.0;
        action = next.1;
    }
    panic!("the walk did not end");
}

#[test]
fn walk_on_a_cycle_ends_and_visits_each_group_once() {
    let mut graph = HashMap::new();
    graph.insert(1, (vec![free_group(2)], vec![]));
    graph.insert(2, (vec![free_group(1)], vec![]));
    let (trail, exclusions) = drive(free_group(1), ExclusionSet::new(), &graph);
    assert_eq!(
        trail.fetches,
        vec![
            (1, RelationKind::Ally),
            (1, RelationKind::Enemy),
            (2, RelationKind::Ally),
            (2, RelationKind::Enemy),
        ]
    );
    assert_eq!(trail.stores, 2);
    assert_eq!(trail.reports, vec![2, 1]);
    assert!(trail.seed_reported);
    assert_eq!(trail.reported, 2);
    assert_eq!(exclusions.ids(), &vec![1, 2]);
}

#[test]
fn walk_on_a_self_loop_ends() {
    let mut graph = HashMap::new();
    graph.insert(1, (vec![free_group(1)], vec![free_group(1)]));
    let (trail, exclusions) = drive(free_group(1), ExclusionSet::new(), &graph);
    assert_eq!(trail.fetches.len(), 2);
    assert_eq!(trail.reports, vec![1]);
    assert_eq!(exclusions.ids(), &vec![1]);
}

#[test]
fn excluded_ally_is_neither_reported_nor_fetched() {
    let mut graph = HashMap::new();
    graph.insert(1, (vec![free_group(2), free_group(3)], vec![]));
    graph.insert(2, (vec![free_group(4)], vec![]));
    graph.insert(3, (vec![], vec![]));
    let (trail, exclusions) = drive(free_group(1), ExclusionSet::from_ids(vec![2]), &graph);
    assert!(!trail.reports.contains(&2));
    assert!(!trail.fetches.iter().any(|(id, _)| *id == 2));
    assert!(!trail.fetches.iter().any(|(id, _)| *id == 4));
    assert_eq!(trail.reports, vec![3, 1]);
    assert_eq!(exclusions.ids(), &vec![2, 1, 3]);
}

#[test]
fn excluded_seed_is_passed_over() {
    let graph = HashMap::new();
    let (trail, exclusions) = drive(free_group(1), ExclusionSet::from_ids(vec![1]), &graph);
    assert_eq!(trail.stores, 0);
    assert!(trail.fetches.is_empty());
    assert!(trail.reports.is_empty());
    assert!(!trail.seed_reported);
    assert_eq!(trail.reported, 0);
    assert_eq!(exclusions.ids(), &vec![1]);
}

#[test]
fn walk_covers_the_whole_component_allies_first() {
    let mut graph = HashMap::new();
    graph.insert(1, (vec![free_group(2), free_group(3)], vec![free_group(4)]));
    graph.insert(2, (vec![free_group(5)], vec![free_group(3)]));
    graph.insert(3, (vec![], vec![]));
    graph.insert(4, (vec![free_group(1)], vec![]));
    graph.insert(5, (vec![], vec![free_group(2)]));
    let (trail, exclusions) = drive(free_group(1), ExclusionSet::new(), &graph);
    assert_eq!(exclusions.ids(), &vec![1, 2, 5, 3, 4]);
    assert_eq!(trail.reports, vec![5, 3, 2, 4, 1]);
    let fetched: Vec<u32> = trail.fetches.iter().map(|(id, _)| *id).collect();
    assert_eq!(fetched, vec![1, 1, 2, 2, 5, 5, 3, 3, 4, 4]);
    assert_eq!(trail.stores, 5);
    assert!(trail.seed_reported);
    assert_eq!(trail.reported, 5);
}

#[test]
fn unavailable_groups_are_walked_through_but_not_reported() {
    let mut graph = HashMap::new();
    graph.insert(1, (vec![owned_group(2)], vec![]));
    graph.insert(2, (vec![free_group(3)], vec![]));
    graph.insert(3, (vec![], vec![]));
    let (trail, exclusions) = drive(owned_group(1), ExclusionSet::new(), &graph);
    assert_eq!(trail.reports, vec![3]);
    assert!(!trail.seed_reported);
    assert_eq!(trail.reported, 1);
    assert_eq!(exclusions.ids(), &vec![1, 2, 3]);
}

#[test]
fn failed_relationship_fetch_is_skipped() {
    let graph = HashMap::new();
    let (trail, exclusions) = drive(free_group(9), ExclusionSet::new(), &graph);
    assert_eq!(trail.fetches, vec![(9, RelationKind::Ally), (9, RelationKind::Enemy)]);
    assert_eq!(trail.reports, vec![9]);
    assert!(trail.seed_reported);
    assert_eq!(exclusions.ids(), &vec![9]);
}

#[test]
fn one_failed_relationship_fetch_does_not_block_the_other() {
    let walker = Walker::new(walk_config(), ExclusionSet::new(), free_group(1));
    let (walker, action) = walker.step(WalkEvent::Begin);
    assert_eq!(action, WalkAction::StoreExclusions);
    let (walker, action) = walker.step(WalkEvent::Stored(true));
    assert_eq!(action, WalkAction::FetchRelationships { group_id: 1, kind: RelationKind::Ally });
    let (walker, action) = walker.step(WalkEvent::Relationships(Err(FetchError::Transport)));
    assert_eq!(action, WalkAction::FetchRelationships { group_id: 1, kind: RelationKind::Enemy });
    let enemies = relations(1, RelationKind::Enemy, vec![free_group(2)]);
    let (walker, action) = walker.step(WalkEvent::Relationships(Ok(enemies)));
    assert_eq!(action, WalkAction::StoreExclusions);
    assert_eq!(walker.exclusions().ids(), &vec![1, 2]);
}

#[test]
fn group_is_marked_before_its_relationships_are_fetched() {
    let walker = Walker::new(walk_config(), ExclusionSet::new(), free_group(1));
    assert!(!walker.exclusions().contains(1));
    let (walker, action) = walker.step(WalkEvent::Begin);
    assert_eq!(action, WalkAction::StoreExclusions);
    assert!(walker.exclusions().contains(1));
    assert_eq!(walker.exclusions().to_json(), Ok("[1]".to_string()));
}

#[test]
fn failed_store_gives_the_walk_up() {
    let walker = Walker::new(walk_config(), ExclusionSet::new(), free_group(1));
    let (walker, _) = walker.step(WalkEvent::Begin);
    let (walker, action) = walker.step(WalkEvent::Stored(false));
    assert_eq!(action, WalkAction::Failed(StorageError::WriteFailed));
    assert!(walker.is_over());
    let (_, action) = walker.step(WalkEvent::Stored(true));
    assert_eq!(action, WalkAction::Ignored);
}

#[test]
fn report_hands_over_the_full_record() {
    let mut seed = free_group(1);
    seed.name = "Seed".to_string();
    seed.member_count = 99;
    let walker = Walker::new(walk_config(), ExclusionSet::new(), seed.clone());
    let (walker, _) = walker.step(WalkEvent::Begin);
    let (walker, _) = walker.step(WalkEvent::Stored(true));
    let (walker, _) = walker.step(WalkEvent::Relationships(Err(FetchError::NotFound)));
    let (walker, action) = walker.step(WalkEvent::Relationships(Err(FetchError::NotFound)));
    assert_eq!(action, WalkAction::Report(seed));
    assert!(!walker.is_over());
    let (walker, action) = walker.step(WalkEvent::Reported);
    assert_eq!(action, WalkAction::Finished { seed_reported: true, reported: 1 });
    assert!(walker.is_over());
}

#[test]
fn unawaited_walk_event_is_ignored() {
    let walker = Walker::new(walk_config(), ExclusionSet::new(), free_group(1));
    let (walker, action) = walker.step(WalkEvent::Reported);
    assert_eq!(action, WalkAction::Ignored);
    let (walker, action) = walker.step(WalkEvent::Begin);
    assert_eq!(action, WalkAction::StoreExclusions);
    let (walker, action) = walker.step(WalkEvent::Begin);
    assert_eq!(action, WalkAction::Ignored);
    let (walker, action) = walker.step(WalkEvent::Relationships(Err(FetchError::NotFound)));
    assert_eq!(action, WalkAction::Ignored);
    assert_eq!(walker.exclusions().ids(), &vec![1]);
    let (_, action) = walker.step(WalkEvent::Stored(true));
    assert_eq!(action, WalkAction::FetchRelationships { group_id: 1, kind: RelationKind::Ally });
}

#[test]
fn closed_groups_are_not_reported_when_ignored() {
    let mut config = walk_config();
    config.ignore_closed_groups = true;
    let mut seed = free_group(1);
    seed.public_entry_allowed = false;
    let walker = Walker::new(config, ExclusionSet::new(), seed);
    let (walker, _) = walker.step(WalkEvent::Begin);
    let (walker, _) = walker.step(WalkEvent::Stored(true));
    let (walker, _) = walker.step(WalkEvent::Relationships(Err(FetchError::NotFound)));
    let (_, action) = walker.step(WalkEvent::Relationships(Err(FetchError::NotFound)));
    assert_eq!(action, WalkAction::Finished { seed_reported: false, reported: 0 });
}

#[test]
fn group_listed_twice_is_visited_once() {
    let mut graph = HashMap::new();
    graph.insert(1, (vec![free_group(2), free_group(2)], vec![free_group(2)]));
    graph.insert(2, (vec![], vec![]));
    let (trail, exclusions) = drive(free_group(1), ExclusionSet::new(), &graph);
    assert_eq!(trail.reports, vec![2, 1]);
    assert_eq!(trail.stores, 2);
    assert_eq!(exclusions.ids(), &vec![1, 2]);
}

/// The visit as one would write it with nested calls.
fn visit_nested(
    group: &GroupRecord,
    graph: &HashMap<u32, (Vec<GroupRecord>, Vec<GroupRecord>)>,
    excluded: &mut Vec<u32>,
    reported: &mut Vec<u32>,
) -> bool {
    if excluded.contains(&group.id) {
        return false;
    }
    excluded.push(group.id);
    if let Some((allies, enemies)) = graph.get(&group.id) {
        for neighbour in allies.iter().chain(enemies.iter()) {
            visit_nested(neighbour, graph, excluded, reported);
        }
    }
    if group.owner.is_some() || group.is_locked.is_some() {
        return false;
    }
    reported.push(group.id);
    true
}

#[test]
fn walk_does_what_nested_visits_do() {
    let member = |id: u32| if id % 3 == 0 { owned_group(id) } else { free_group(id) };
    for shape in 0..40u32 {
        let mut graph = HashMap::new();
        for id in 1..=8u32 {
            let allies: Vec<GroupRecord> = (1..=8u32)
                .filter(|other| (id * 7 + other * 13 + shape) % 5 == 0)
                .map(member)
                .collect();
            let enemies: Vec<GroupRecord> = (1..=8u32)
                .filter(|other| (id * 11 + other * 3 + shape * 2) % 7 == 0)
                .map(member)
                .collect();
            if (id + shape) % 6 != 0 {
                graph.insert(id, (allies, enemies));
            }
        }
        let marked: Vec<u32> = (1..=8u32).filter(|id| (id + shape) % 4 == 0).collect();
        let seed = member(1 + shape % 8);

        let mut excluded = marked.clone();
        let mut reported = Vec::new();
        let seed_reported = visit_nested(&seed, &graph, &mut excluded, &mut reported);

        let (trail, exclusions) = drive(seed, ExclusionSet::from_ids(marked), &graph);
        assert_eq!(exclusions.ids(), &excluded);
        assert_eq!(trail.reports, reported);
        assert_eq!(trail.seed_reported, seed_reported);
        assert_eq!(trail.reported, reported.len());
    }
}
