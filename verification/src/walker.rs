//! The relationship walk: a visit of one group and of every group that can be
//! reached from it through declared allies and enemies.
//!
//! A visit of a group marks its id in the exclusion set, asks for its allies
//! and its enemies, visits each of them in that order, and only then judges
//! the group itself. A group whose id is already marked is passed over: that
//! is what ends a walk on a graph with cycles.
//!
//! The walk is kept as a stack of tasks instead of nested calls. The walker
//! never acts: after every event it says what the caller has to do next, and
//! waits for the event that reports it done.

use vstd::prelude::*;
use crate::availability::{available, is_group_available};
use crate::exclusion::ExclusionSet;
use crate::model::{
    FetchError,
    GroupId,
    GroupRecord,
    RelationKind,
    RelationshipPage,
    RunConfig,
    StorageError,
};

verus! {

/// A piece of work that the walk still has to do.
#[derive(Clone, Debug, PartialEq, Eq)]
pub enum WalkTask {
    /// Visit this group, unless its id is marked by then.
    Visit(GroupRecord),
    /// Judge this group, whose neighbours have all been dealt with.
    Finish(GroupRecord),
}

/// What the walker is waiting for.
#[derive(Clone, Debug, PartialEq, Eq)]
pub enum WalkPhase {
    /// Nothing was asked yet.
    Ready,
    /// The exclusion set, which now holds this group's id, is being stored.
    Storing(GroupRecord),
    /// The allies of this group are being fetched.
    AwaitingAllies(GroupRecord),
    /// The enemies of this group are being fetched.
    AwaitingEnemies(GroupRecord),
    /// A group is being reported.
    Reporting,
    /// The walk is over.
    Finished,
    /// The walk was given up.
    Failed,
}

/// What the caller has done for the walker.
#[derive(Debug, PartialEq, Eq)]
pub enum WalkEvent {
    /// Start the walk.
    Begin,
    /// The exclusion set was stored (`true`) or could not be (`false`).
    Stored(bool),
    /// The answer to the last request for relationships.
    Relationships(Result<RelationshipPage, FetchError>),
    /// The group was reported.
    Reported,
}

/// What the caller has to do next.
#[derive(Clone, Debug, PartialEq, Eq)]
pub enum WalkAction {
    /// Store the walker's exclusion set, then send `Stored`.
    StoreExclusions,
    /// Fetch one page of relationships, then send `Relationships`.
    FetchRelationships { group_id: GroupId, kind: RelationKind },
    /// Hand this available group to the report sink, then send `Reported`.
    Report(GroupRecord),
    /// Nothing is left to do. `seed_reported` tells whether the group the walk
    /// began with was reported, `reported` how many groups were.
    Finished { seed_reported: bool, reported: usize },
    /// The exclusion set could not be stored; the walk cannot go on.
    Failed(StorageError),
    /// The event was not the awaited one. Nothing has changed.
    Ignored,
}

/// The state of a walk, as contracts see it.
pub struct WalkState {
    pub config: RunConfig,
    /// The marked ids, oldest first.
    pub excluded: Seq<GroupId>,
    /// The stack of tasks; the last one is taken up first.
    pub tasks: Seq<WalkTask>,
    pub phase: WalkPhase,
    /// The allies of the group in `phase`, kept until its enemies arrive.
    pub allies: Seq<GroupRecord>,
    /// The ids of the groups reported so far, in order.
    pub reported: Seq<GroupId>,
    pub seed_reported: bool,
}

/// The state before the first event.
pub open spec fn walk_start(config: RunConfig, excluded: Seq<GroupId>, seed: GroupRecord)
    -> WalkState {
    WalkState {
        config,
        excluded,
        tasks: seq![WalkTask::Visit(seed)],
        phase: WalkPhase::Ready,
        allies: Seq::empty(),
        reported: Seq::empty(),
        seed_reported: false,
    }
}

/// The groups that an answer holds: those of the page, or none where the
/// request failed.
pub open spec fn related(answer: Result<RelationshipPage, FetchError>) -> Seq<GroupRecord> {
    match answer {
        Ok(page) => page.related_groups@,
        Err(_) => Seq::empty(),
    }
}

/// One visit task for each group, stacked so that the first group is taken up
/// first.
pub open spec fn visits(groups: Seq<GroupRecord>) -> Seq<WalkTask> {
    Seq::new(groups.len(), |i: int| WalkTask::Visit(groups[groups.len() - 1 - i]))
}

/// Takes up tasks until one of them needs the caller, or none is left.
///
/// A visit of a marked group and a judgement that finds the group unavailable
/// need nobody and are passed. A visit of an unmarked group marks it and asks
/// for the set to be stored. A judgement that finds the group available asks
/// for the report.
pub open spec fn walk_advance(s: WalkState) -> (WalkState, WalkAction)
    decreases s.tasks.len(),
{
    if s.tasks.len() == 0 {
        (
            WalkState { phase: WalkPhase::Finished, ..s },
            WalkAction::Finished {
                seed_reported: s.seed_reported,
                reported: s.reported.len() as usize,
            },
        )
    } else {
        let rest = s.tasks.drop_last();
        match s.tasks.last() {
            WalkTask::Visit(group) => {
                if s.excluded.contains(group.id) {
                    walk_advance(WalkState { tasks: rest, ..s })
                } else {
                    (
                        WalkState {
                            tasks: rest,
                            excluded: s.excluded.push(group.id),
                            phase: WalkPhase::Storing(group),
                            ..s
                        },
                        WalkAction::StoreExclusions,
                    )
                }
            },
            WalkTask::Finish(group) => {
                if available(group, s.config) {
                    (
                        WalkState {
                            tasks: rest,
                            reported: s.reported.push(group.id),
                            seed_reported: s.seed_reported || rest.len() == 0,
                            phase: WalkPhase::Reporting,
                            ..s
                        },
                        WalkAction::Report(group),
                    )
                } else {
                    walk_advance(WalkState { tasks: rest, ..s })
                }
            },
        }
    }
}

/// The walk's reaction to one event: the next state and what to do next.
pub open spec fn walk_step(s: WalkState, event: WalkEvent) -> (WalkState, WalkAction) {
    match (s.phase, event) {
        (WalkPhase::Ready, WalkEvent::Begin) => walk_advance(s),
        (WalkPhase::Storing(group), WalkEvent::Stored(true)) => (
            WalkState { phase: WalkPhase::AwaitingAllies(group), ..s },
            WalkAction::FetchRelationships { group_id: group.id, kind: RelationKind::Ally },
        ),
        (WalkPhase::Storing(_), WalkEvent::Stored(false)) => (
            WalkState { phase: WalkPhase::Failed, ..s },
            WalkAction::Failed(StorageError::WriteFailed),
        ),
        (WalkPhase::AwaitingAllies(group), WalkEvent::Relationships(answer)) => (
            WalkState { phase: WalkPhase::AwaitingEnemies(group), allies: related(answer), ..s },
            WalkAction::FetchRelationships { group_id: group.id, kind: RelationKind::Enemy },
        ),
        (WalkPhase::AwaitingEnemies(group), WalkEvent::Relationships(answer)) => walk_advance(
            WalkState {
                phase: WalkPhase::Ready,
                tasks: s.tasks.push(WalkTask::Finish(group)) + visits(related(answer)) + visits(
                    s.allies,
                ),
                allies: Seq::empty(),
                ..s
            },
        ),
        (WalkPhase::Reporting, WalkEvent::Reported) => walk_advance(
            WalkState { phase: WalkPhase::Ready, ..s },
        ),
        _ => (s, WalkAction::Ignored),
    }
}

/// A walk in progress.
#[derive(Debug)]
pub struct Walker {
    config: RunConfig,
    exclusions: ExclusionSet,
    tasks: Vec<WalkTask>,
    phase: WalkPhase,
    allies: Vec<GroupRecord>,
    reported: Vec<GroupId>,
    seed_reported: bool,
}

impl View for Walker {
    type V = WalkState;

    closed spec fn view(&self) -> WalkState {
        WalkState {
            config: self.config,
            excluded: self.exclusions@,
            tasks: self.tasks@,
            phase: self.phase,
            allies: self.allies@,
            reported: self.reported@,
            seed_reported: self.seed_reported,
        }
    }
}

/// Stacks a visit task for each group, the first group on top.
fn push_visits(tasks: &mut Vec<WalkTask>, groups: Vec<GroupRecord>)
    ensures
        final(tasks)@ == old(tasks)@ + visits(groups@),
{
    let ghost before = tasks@;
    let ghost all = groups@;
    let mut groups = groups;
    while groups.len() > 0
        invariant
            groups@.len() <= all.len(),
            groups@ == all.take(groups@.len() as int),
            tasks@ == before + visits(all).take(all.len() - groups@.len()),
        decreases groups@.len(),
    {
        let ghost done = all.len() - groups@.len();
        let group = groups.pop().unwrap();
        tasks.push(WalkTask::Visit(group));
        assert(tasks@ == before + visits(all).take(done + 1)) by {
            assert(visits(all).take(done + 1) == visits(all).take(done).push(
                WalkTask::Visit(group),
            ));
        }
    }
    assert(visits(all).take(all.len() as int) == visits(all));
}

impl Walker {
    /// A walk that begins at `seed`, with the ids in `exclusions` marked.
    pub fn new(config: RunConfig, exclusions: ExclusionSet, seed: GroupRecord) -> (walker: Walker)
        ensures
            walker@ == walk_start(config, exclusions@, seed),
    {
        let mut tasks = Vec::new();
        tasks.push(WalkTask::Visit(seed));
        Walker {
            config,
            exclusions,
            tasks,
            phase: WalkPhase::Ready,
            allies: Vec::new(),
            reported: Vec::new(),
            seed_reported: false,
        }
    }

    /// The exclusion set as it stands, with every group visited so far.
    pub fn exclusions(&self) -> (exclusions: &ExclusionSet)
        ensures
            exclusions@ == self@.excluded,
    {
        &self.exclusions
    }

    /// Ends the walk and hands the exclusion set back.
    pub fn into_exclusions(self) -> (exclusions: ExclusionSet)
        ensures
            exclusions@ == self@.excluded,
    {
        self.exclusions
    }

    /// The ids of the groups reported so far, in order.
    pub fn reported(&self) -> (reported: &Vec<GroupId>)
        ensures
            reported@ == self@.reported,
    {
        &self.reported
    }

    /// Whether the walk is over or was given up.
    pub fn is_over(&self) -> (over: bool)
        ensures
            over == (self@.phase is Finished || self@.phase is Failed),
    {
        match &self.phase {
            WalkPhase::Finished => true,
            WalkPhase::Failed => true,
            _ => false,
        }
    }

    fn advance(self) -> (next: (Walker, WalkAction))
        ensures
            (next.0@, next.1) == walk_advance(self@),
    {
        let Walker { config, exclusions, tasks, phase, allies, reported, seed_reported } = self;
        let mut exclusions = exclusions;
        let mut tasks = tasks;
        let mut reported = reported;
        loop
            invariant
                walk_advance(
                    WalkState {
                        config,
                        excluded: exclusions@,
                        tasks: tasks@,
                        phase,
                        allies: allies@,
                        reported: reported@,
                        seed_reported,
                    },
                ) == walk_advance(self@),
            decreases tasks@.len(),
        {
            match tasks.pop() {
                None => {
                    let count = reported.len();
                    return (
                        Walker {
                            config,
                            exclusions,
                            tasks,
                            phase: WalkPhase::Finished,
                            allies,
                            reported,
                            seed_reported,
                        },
                        WalkAction::Finished { seed_reported, reported: count },
                    );
                },
                Some(WalkTask::Visit(group)) => {
                    if !exclusions.contains(group.id) {
                        exclusions.insert(group.id);
                        return (
                            Walker {
                                config,
                                exclusions,
                                tasks,
                                phase: WalkPhase::Storing(group),
                                allies,
                                reported,
                                seed_reported,
                            },
                            WalkAction::StoreExclusions,
                        );
                    }
                },
                Some(WalkTask::Finish(group)) => {
                    if is_group_available(&group, &config) {
                        reported.push(group.id);
                        let seed_reported = seed_reported || tasks.len() == 0;
                        // The record goes to the caller; the walker keeps the id.
                        return (
                            Walker {
                                config,
                                exclusions,
                                tasks,
                                phase: WalkPhase::Reporting,
                                allies,
                                reported,
                                seed_reported,
                            },
                            WalkAction::Report(group),
                        );
                    }
                },
            }
        }
    }

    /// Takes one event and says what to do next.
    pub fn step(self, event: WalkEvent) -> (next: (Walker, WalkAction))
        ensures
            (next.0@, next.1) == walk_step(self@, event),
    {
        let Walker { config, exclusions, tasks, phase, allies, reported, seed_reported } = self;
        match (phase, event) {
            (WalkPhase::Ready, WalkEvent::Begin) => {
                Walker {
                    config,
                    exclusions,
                    tasks,
                    phase: WalkPhase::Ready,
                    allies,
                    reported,
                    seed_reported,
                }.advance()
            },
            (WalkPhase::Storing(group), WalkEvent::Stored(true)) => {
                let group_id = group.id;
                (
                    Walker {
                        config,
                        exclusions,
                        tasks,
                        phase: WalkPhase::AwaitingAllies(group),
                        allies,
                        reported,
                        seed_reported,
                    },
                    WalkAction::FetchRelationships { group_id, kind: RelationKind::Ally },
                )
            },
            (WalkPhase::Storing(group), WalkEvent::Stored(false)) => {
                (
                    Walker {
                        config,
                        exclusions,
                        tasks,
                        phase: WalkPhase::Failed,
                        allies,
                        reported,
                        seed_reported,
                    },
                    WalkAction::Failed(StorageError::WriteFailed),
                )
            },
            (WalkPhase::AwaitingAllies(group), WalkEvent::Relationships(answer)) => {
                let group_id = group.id;
                let found = match answer {
                    Ok(page) => page.related_groups,
                    Err(_) => Vec::new(),
                };
                (
                    Walker {
                        config,
                        exclusions,
                        tasks,
                        phase: WalkPhase::AwaitingEnemies(group),
                        allies: found,
                        reported,
                        seed_reported,
                    },
                    WalkAction::FetchRelationships { group_id, kind: RelationKind::Enemy },
                )
            },
            (WalkPhase::AwaitingEnemies(group), WalkEvent::Relationships(answer)) => {
                let enemies = match answer {
                    Ok(page) => page.related_groups,
                    Err(_) => Vec::new(),
                };
                let mut tasks = tasks;
                tasks.push(WalkTask::Finish(group));
                push_visits(&mut tasks, enemies);
                push_visits(&mut tasks, allies);
                Walker {
                    config,
                    exclusions,
                    tasks,
                    phase: WalkPhase::Ready,
                    allies: Vec::new(),
                    reported,
                    seed_reported,
                }.advance()
            },
            (WalkPhase::Reporting, WalkEvent::Reported) => {
                Walker {
                    config,
                    exclusions,
                    tasks,
                    phase: WalkPhase::Ready,
                    allies,
                    reported,
                    seed_reported,
                }.advance()
            },
            (phase, _) => {
                (
                    Walker { config, exclusions, tasks, phase, allies, reported, seed_reported },
                    WalkAction::Ignored,
                )
            },
        }
    }
}

} // verus!
