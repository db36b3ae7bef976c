//! What holds of every relationship walk.
//!
//! The laws speak of [`walk_step`], the function that [`Walker::step`] is
//! proved to compute, so they hold of every walker, whatever the provider
//! answers.
//!
//! [`Walker::step`]: crate::walker::Walker::step

use vstd::prelude::*;
use vstd::set_lib::*;
use crate::availability::available;
use crate::model::{GroupId, GroupRecord, RunConfig};
use crate::walker::{
    visits,
    walk_advance,
    walk_start,
    walk_step,
    WalkAction,
    WalkEvent,
    WalkPhase,
    WalkState,
    WalkTask,
};

verus! {

/// The id of the group that a task will judge, if it is a judgement.
pub open spec fn finish_id(task: WalkTask) -> Option<GroupId> {
    match task {
        WalkTask::Finish(group) => Some(group.id),
        WalkTask::Visit(_) => None,
    }
}

/// The group whose visit has begun and whose neighbours are not stacked yet.
pub open spec fn open_visit(phase: WalkPhase) -> Option<GroupRecord> {
    match phase {
        WalkPhase::Storing(group) => Some(group),
        WalkPhase::AwaitingAllies(group) => Some(group),
        WalkPhase::AwaitingEnemies(group) => Some(group),
        _ => None,
    }
}

/// The invariant of a walk.
///
/// No group is reported twice; every reported group is marked; every group
/// that still awaits its judgement is marked, was not reported, and awaits
/// one judgement only; and the same holds of the group whose visit has begun.
pub open spec fn walk_wf(s: WalkState) -> bool {
    &&& s.reported.no_duplicates()
    &&& forall|i: int| 0 <= i < s.reported.len() ==> s.excluded.contains(#[trigger] s.reported[i])
    &&& forall|i: int|
        0 <= i < s.tasks.len() ==> match finish_id(#[trigger] s.tasks[i]) {
            Some(id) => s.excluded.contains(id) && !s.reported.contains(id),
            None => true,
        }
    &&& forall|i: int, j: int|
        0 <= i < j < s.tasks.len() && finish_id(#[trigger] s.tasks[i]) is Some ==> finish_id(
            s.tasks[i],
        ) != finish_id(#[trigger] s.tasks[j])
    &&& match open_visit(s.phase) {
        Some(group) => {
            &&& s.excluded.contains(group.id)
            &&& !s.reported.contains(group.id)
            &&& forall|i: int|
                0 <= i < s.tasks.len() ==> finish_id(#[trigger] s.tasks[i]) != Some(group.id)
        },
        None => true,
    }
}

/// Whether `event` is the one that a walk in state `s` waits for.
pub open spec fn walk_awaits(s: WalkState, event: WalkEvent) -> bool {
    match (s.phase, event) {
        (WalkPhase::Ready, WalkEvent::Begin) => true,
        (WalkPhase::Storing(_), WalkEvent::Stored(_)) => true,
        (WalkPhase::AwaitingAllies(_), WalkEvent::Relationships(_)) => true,
        (WalkPhase::AwaitingEnemies(_), WalkEvent::Relationships(_)) => true,
        (WalkPhase::Reporting, WalkEvent::Reported) => true,
        _ => false,
    }
}

/// The state that a walk reaches from `s` through `events`, one after another.
pub open spec fn walk_run(s: WalkState, events: Seq<WalkEvent>) -> WalkState
    decreases events.len(),
{
    if events.len() == 0 {
        s
    } else {
        walk_step(walk_run(s, events.drop_last()), events.last()).0
    }
}

/// The number of group ids that are not among `excluded`.
pub open spec fn unmarked_ids(excluded: Seq<GroupId>) -> nat {
    Set::<GroupId>::full().difference(excluded.to_set()).len()
}

/// The number of group ids that are not marked.
pub open spec fn unmarked(s: WalkState) -> nat {
    unmarked_ids(s.excluded)
}

/// The number of visits that the walk may still begin or has to complete.
pub open spec fn visits_left(s: WalkState) -> nat {
    if open_visit(s.phase) is Some {
        unmarked(s) + 1
    } else {
        unmarked(s)
    }
}

/// How far a phase is from the point where the walk takes up the next task.
pub open spec fn phase_rank(phase: WalkPhase) -> nat {
    match phase {
        WalkPhase::Storing(_) => 3,
        WalkPhase::AwaitingAllies(_) => 2,
        WalkPhase::AwaitingEnemies(_) => 1,
        WalkPhase::Ready => 1,
        WalkPhase::Reporting => 1,
        WalkPhase::Finished => 0,
        WalkPhase::Failed => 0,
    }
}

/// Whether `next` has less left to do than `s`: fewer visits, or as many and
/// fewer tasks, or as many of both and a phase of lower rank.
pub open spec fn walk_precedes(next: WalkState, s: WalkState) -> bool {
    ||| visits_left(next) < visits_left(s)
    ||| (visits_left(next) == visits_left(s) && next.tasks.len() < s.tasks.len())
    ||| (visits_left(next) == visits_left(s) && next.tasks.len() == s.tasks.len() && phase_rank(
        next.phase,
    ) < phase_rank(s.phase))
}

pub(crate) proof fn lemma_push_contains<A>(s: Seq<A>, pushed: A, a: A)
    ensures
        s.push(pushed).contains(a) <==> (s.contains(a) || a == pushed),
{
    if s.contains(a) {
        let i = choose|i: int| 0 <= i < s.len() && s[i] == a;
        assert(s.push(pushed)[i] == a);
    }
    if a == pushed {
        assert(s.push(pushed)[s.len() as int] == a);
    }
    if s.push(pushed).contains(a) && a != pushed {
        let i = choose|i: int| 0 <= i < s.push(pushed).len() && s.push(pushed)[i] == a;
        assert(s[i] == a);
    }
}

/// Marking an id that was not marked leaves one unmarked id less.
pub proof fn lemma_mark_uses_up_one(excluded: Seq<GroupId>, id: GroupId)
    requires
        !excluded.contains(id),
    ensures
        unmarked_ids(excluded.push(id)) + 1 == unmarked_ids(excluded),
{
    let all = Set::<GroupId>::full();
    let before = all.difference(excluded.to_set());
    let after = all.difference(excluded.push(id).to_set());
    GroupId::full_properties();
    lemma_len_difference(all, excluded.to_set());
    assert(before.finite()) by {
        lemma_set_subset_finite(all, before);
    }
    assert(before.contains(id));
    assert(after =~= before.remove(id)) by {
        assert forall|a: GroupId| after.contains(a) <==> before.remove(id).contains(a) by {
            lemma_push_contains(excluded, id, a);
        }
    }
}

/// A walk starts in a state that meets the invariant.
pub proof fn lemma_walk_start_wf(config: RunConfig, excluded: Seq<GroupId>, seed: GroupRecord)
    ensures
        walk_wf(walk_start(config, excluded, seed)),
{
}

proof fn lemma_advance_wf(s: WalkState)
    requires
        walk_wf(s),
        open_visit(s.phase) is None,
    ensures
        walk_wf(walk_advance(s).0),
    decreases s.tasks.len(),
{
    if s.tasks.len() > 0 {
        let rest = s.tasks.drop_last();
        let last = s.tasks.len() - 1;
        match s.tasks.last() {
            WalkTask::Visit(group) => {
                if s.excluded.contains(group.id) {
                    lemma_advance_wf(WalkState { tasks: rest, ..s });
                } else {
                    let t = walk_advance(s).0;
                    assert forall|a: GroupId| s.excluded.contains(a) implies t.excluded.contains(
                        a,
                    ) by {
                        lemma_push_contains(s.excluded, group.id, a);
                    }
                    lemma_push_contains(s.excluded, group.id, group.id);
                    assert forall|i: int| 0 <= i < t.tasks.len() implies finish_id(
                        #[trigger] t.tasks[i],
                    ) != Some(group.id) by {
                        assert(t.tasks[i] == s.tasks[i]);
                    }
                    assert(walk_wf(t));
                }
            },
            WalkTask::Finish(group) => {
                if available(group, s.config) {
                    let t = walk_advance(s).0;
                    assert(finish_id(s.tasks[last]) == Some(group.id));
                    assert forall|i: int| 0 <= i < t.reported.len() implies s.excluded.contains(
                        #[trigger] t.reported[i],
                    ) by {
                        if i < s.reported.len() {
                            assert(t.reported[i] == s.reported[i]);
                        }
                    }
                    assert forall|i: int| 0 <= i < t.tasks.len() implies match finish_id(
                        #[trigger] t.tasks[i],
                    ) {
                        Some(id) => t.excluded.contains(id) && !t.reported.contains(id),
                        None => true,
                    } by {
                        assert(t.tasks[i] == s.tasks[i]);
                        match finish_id(t.tasks[i]) {
                            Some(id) => {
                                lemma_push_contains(s.reported, group.id, id);
                                assert(finish_id(s.tasks[i]) != finish_id(s.tasks[last]));
                            },
                            None => {},
                        }
                    }
                    assert(walk_wf(t));
                } else {
                    lemma_advance_wf(WalkState { tasks: rest, ..s });
                }
            },
        }
    }
}

/// A step keeps the invariant.
pub proof fn lemma_walk_step_wf(s: WalkState, event: WalkEvent)
    requires
        walk_wf(s),
    ensures
        walk_wf(walk_step(s, event).0),
{
    match (s.phase, event) {
        (WalkPhase::Ready, WalkEvent::Begin) => {
            lemma_advance_wf(s);
        },
        (WalkPhase::AwaitingEnemies(group), WalkEvent::Relationships(answer)) => {
            let stacked = s.tasks.push(WalkTask::Finish(group)) + visits(
                crate::walker::related(answer),
            ) + visits(s.allies);
            let expanded = WalkState {
                phase: WalkPhase::Ready,
                tasks: stacked,
                allies: Seq::empty(),
                ..s
            };
            assert forall|i: int| 0 <= i < stacked.len() implies (if i < s.tasks.len() {
                stacked[i] == s.tasks[i]
            } else if i == s.tasks.len() {
                stacked[i] == WalkTask::Finish(group)
            } else {
                finish_id(#[trigger] stacked[i]) is None
            }) by {}
            assert(walk_wf(expanded));
            lemma_advance_wf(expanded);
        },
        (WalkPhase::Reporting, WalkEvent::Reported) => {
            lemma_advance_wf(WalkState { phase: WalkPhase::Ready, ..s });
        },
        _ => {},
    }
}

/// Every state that a walk reaches from a state that meets the invariant
/// meets it too.
pub proof fn lemma_walk_run_wf(s: WalkState, events: Seq<WalkEvent>)
    requires
        walk_wf(s),
    ensures
        walk_wf(walk_run(s, events)),
    decreases events.len(),
{
    if events.len() > 0 {
        lemma_walk_run_wf(s, events.drop_last());
        lemma_walk_step_wf(walk_run(s, events.drop_last()), events.last());
    }
}

pub(crate) proof fn lemma_advance_marks(s: WalkState)
    ensures
        ({
            let (t, action) = walk_advance(s);
            &&& t.config == s.config
            &&& t.allies == s.allies
            &&& t.tasks.len() <= s.tasks.len()
            &&& (t.tasks.len() == s.tasks.len() ==> s.tasks.len() == 0)
            &&& match action {
                WalkAction::StoreExclusions => {
                    &&& t.phase is Storing
                    &&& !s.excluded.contains(t.phase->Storing_0.id)
                    &&& t.excluded == s.excluded.push(t.phase->Storing_0.id)
                    &&& t.reported == s.reported
                },
                WalkAction::Report(group) => {
                    &&& t.phase is Reporting
                    &&& available(group, s.config)
                    &&& exists|i: int|
                        0 <= i < s.tasks.len() && #[trigger] s.tasks[i] == WalkTask::Finish(group)
                    &&& t.excluded == s.excluded
                    &&& t.reported == s.reported.push(group.id)
                },
                WalkAction::Finished { seed_reported, reported } => {
                    &&& t.phase is Finished
                    &&& t.tasks.len() == 0
                    &&& t.excluded == s.excluded
                    &&& t.reported == s.reported
                    &&& seed_reported == s.seed_reported
                    &&& reported == s.reported.len() as usize
                },
                _ => false,
            }
        }),
    decreases s.tasks.len(),
{
    if s.tasks.len() > 0 {
        let rest = s.tasks.drop_last();
        let last = s.tasks.len() - 1;
        let passed = WalkState { tasks: rest, ..s };
        match s.tasks.last() {
            WalkTask::Visit(group) => {
                if s.excluded.contains(group.id) {
                    lemma_advance_marks(passed);
                    if let WalkAction::Report(found) = walk_advance(passed).1 {
                        let i = choose|i: int|
                            0 <= i < rest.len() && #[trigger] rest[i] == WalkTask::Finish(found);
                        assert(s.tasks[i] == WalkTask::Finish(found));
                    }
                }
            },
            WalkTask::Finish(group) => {
                if available(group, s.config) {
                    assert(s.tasks[last] == WalkTask::Finish(group));
                } else {
                    lemma_advance_marks(passed);
                    if let WalkAction::Report(found) = walk_advance(passed).1 {
                        let i = choose|i: int|
                            0 <= i < rest.len() && #[trigger] rest[i] == WalkTask::Finish(found);
                        assert(s.tasks[i] == WalkTask::Finish(found));
                    }
                }
            },
        }
    }
}

/// A step leaves the configuration as it is.
pub proof fn lemma_walk_step_keeps_config(s: WalkState, event: WalkEvent)
    ensures
        walk_step(s, event).0.config == s.config,
{
    match (s.phase, event) {
        (WalkPhase::Ready, WalkEvent::Begin) => {
            lemma_advance_marks(s);
        },
        (WalkPhase::AwaitingEnemies(group), WalkEvent::Relationships(answer)) => {
            lemma_advance_marks(
                WalkState {
                    phase: WalkPhase::Ready,
                    tasks: s.tasks.push(WalkTask::Finish(group)) + visits(
                        crate::walker::related(answer),
                    ) + visits(s.allies),
                    allies: Seq::empty(),
                    ..s
                },
            );
        },
        (WalkPhase::Reporting, WalkEvent::Reported) => {
            lemma_advance_marks(WalkState { phase: WalkPhase::Ready, ..s });
        },
        _ => {},
    }
}

/// A step marks a group exactly when it begins the visit of that group, and
/// it begins a visit only of a group that was not marked.
///
/// Where the action is `StoreExclusions`, the visit of one group has begun:
/// its id was not marked before and is the one id added. Every other step
/// leaves the marked ids as they were.
pub proof fn lemma_walk_step_marks(s: WalkState, event: WalkEvent)
    ensures
        ({
            let (t, action) = walk_step(s, event);
            if action is StoreExclusions {
                &&& t.phase is Storing
                &&& !s.excluded.contains(t.phase->Storing_0.id)
                &&& t.excluded == s.excluded.push(t.phase->Storing_0.id)
            } else {
                t.excluded == s.excluded
            }
        }),
{
    match (s.phase, event) {
        (WalkPhase::Ready, WalkEvent::Begin) => {
            lemma_advance_marks(s);
        },
        (WalkPhase::AwaitingEnemies(group), WalkEvent::Relationships(answer)) => {
            lemma_advance_marks(
                WalkState {
                    phase: WalkPhase::Ready,
                    tasks: s.tasks.push(WalkTask::Finish(group)) + visits(
                        crate::walker::related(answer),
                    ) + visits(s.allies),
                    allies: Seq::empty(),
                    ..s
                },
            );
        },
        (WalkPhase::Reporting, WalkEvent::Reported) => {
            lemma_advance_marks(WalkState { phase: WalkPhase::Ready, ..s });
        },
        _ => {},
    }
}

/// Relationships are fetched only for the group whose visit has begun, and
/// that group is marked.
pub proof fn lemma_walk_fetch_is_for_open_visit(s: WalkState, event: WalkEvent)
    requires
        walk_wf(s),
    ensures
        walk_step(s, event).1 matches WalkAction::FetchRelationships { group_id, kind } ==> {
            &&& open_visit(s.phase) is Some
            &&& open_visit(s.phase)->Some_0.id == group_id
            &&& open_visit(walk_step(s, event).0.phase) == open_visit(s.phase)
            &&& s.excluded.contains(group_id)
        },
{
    match (s.phase, event) {
        (WalkPhase::Ready, WalkEvent::Begin) => {
            lemma_advance_marks(s);
        },
        (WalkPhase::AwaitingEnemies(group), WalkEvent::Relationships(answer)) => {
            lemma_advance_marks(
                WalkState {
                    phase: WalkPhase::Ready,
                    tasks: s.tasks.push(WalkTask::Finish(group)) + visits(
                        crate::walker::related(answer),
                    ) + visits(s.allies),
                    allies: Seq::empty(),
                    ..s
                },
            );
        },
        (WalkPhase::Reporting, WalkEvent::Reported) => {
            lemma_advance_marks(WalkState { phase: WalkPhase::Ready, ..s });
        },
        _ => {},
    }
}

/// A group is reported only if it is available, was visited in this walk or
/// before it (it is marked), and was not reported before. A step that reports
/// nothing leaves the list of reported groups as it was.
pub proof fn lemma_walk_report_is_new(s: WalkState, event: WalkEvent)
    requires
        walk_wf(s),
    ensures
        ({
            let (t, action) = walk_step(s, event);
            match action {
                WalkAction::Report(group) => {
                    &&& available(group, s.config)
                    &&& s.excluded.contains(group.id)
                    &&& !s.reported.contains(group.id)
                    &&& t.reported == s.reported.push(group.id)
                },
                _ => t.reported == s.reported,
            }
        }),
{
    match (s.phase, event) {
        (WalkPhase::Ready, WalkEvent::Begin) => {
            lemma_advance_marks(s);
            lemma_report_was_stacked(s, s);
        },
        (WalkPhase::AwaitingEnemies(group), WalkEvent::Relationships(answer)) => {
            let stacked = s.tasks.push(WalkTask::Finish(group)) + visits(
                crate::walker::related(answer),
            ) + visits(s.allies);
            let expanded = WalkState {
                phase: WalkPhase::Ready,
                tasks: stacked,
                allies: Seq::empty(),
                ..s
            };
            assert forall|i: int| 0 <= i < stacked.len() implies (if i < s.tasks.len() {
                stacked[i] == s.tasks[i]
            } else if i == s.tasks.len() {
                stacked[i] == WalkTask::Finish(group)
            } else {
                finish_id(#[trigger] stacked[i]) is None
            }) by {}
            assert(walk_wf(expanded));
            lemma_advance_marks(expanded);
            lemma_report_was_stacked(expanded, s);
        },
        (WalkPhase::Reporting, WalkEvent::Reported) => {
            let ready = WalkState { phase: WalkPhase::Ready, ..s };
            lemma_advance_marks(ready);
            lemma_report_was_stacked(ready, s);
        },
        _ => {},
    }
}

proof fn lemma_report_was_stacked(ready: WalkState, s: WalkState)
    requires
        walk_wf(ready),
        ready.excluded == s.excluded,
        ready.reported == s.reported,
        ready.config == s.config,
    ensures
        walk_advance(ready).1 matches WalkAction::Report(group) ==> s.excluded.contains(group.id)
            && !s.reported.contains(group.id),
{
    lemma_advance_marks(ready);
    if let WalkAction::Report(group) = walk_advance(ready).1 {
        let i = choose|i: int|
            0 <= i < ready.tasks.len() && #[trigger] ready.tasks[i] == WalkTask::Finish(group);
        assert(finish_id(ready.tasks[i]) == Some(group.id));
    }
}

/// A neighbour that is marked already is passed over: the walk goes on
/// exactly as if it had not been listed. It is neither stored, nor are its
/// relationships fetched, nor is it reported.
pub proof fn lemma_marked_neighbour_is_passed(s: WalkState, neighbour: GroupRecord)
    requires
        s.excluded.contains(neighbour.id),
    ensures
        walk_advance(WalkState { tasks: s.tasks.push(WalkTask::Visit(neighbour)), ..s })
            == walk_advance(s),
{
    let stacked = s.tasks.push(WalkTask::Visit(neighbour));
    assert(stacked.drop_last() == s.tasks);
    assert(stacked.last() == WalkTask::Visit(neighbour));
    assert(WalkState { tasks: stacked.drop_last(), ..WalkState { tasks: stacked, ..s } } == s);
}

/// A walk that begins at a marked group is over at once: nothing is stored,
/// fetched or reported, and the marked ids stay as they were.
pub proof fn lemma_marked_seed_ends_the_walk(
    config: RunConfig,
    excluded: Seq<GroupId>,
    seed: GroupRecord,
)
    requires
        excluded.contains(seed.id),
    ensures
        walk_step(walk_start(config, excluded, seed), WalkEvent::Begin) == (
            WalkState {
                tasks: Seq::empty(),
                phase: WalkPhase::Finished,
                ..walk_start(config, excluded, seed)
            },
            WalkAction::Finished { seed_reported: false, reported: 0 },
        ),
{
    let start = walk_start(config, excluded, seed);
    lemma_marked_neighbour_is_passed(WalkState { tasks: Seq::empty(), ..start }, seed);
    assert(Seq::<WalkTask>::empty().push(WalkTask::Visit(seed)) == start.tasks);
}

/// Over any sequence of events, the marked ids only grow, and the ids that
/// were added are pairwise different and were not marked at the start: no
/// group is visited twice, and none that was marked before the walk is
/// visited at all. Likewise no group is reported twice.
pub proof fn lemma_walk_visits_once(s: WalkState, events: Seq<WalkEvent>)
    requires
        walk_wf(s),
    ensures
        ({
            let t = walk_run(s, events);
            let added = t.excluded.skip(s.excluded.len() as int);
            &&& s.excluded.is_prefix_of(t.excluded)
            &&& added.no_duplicates()
            &&& forall|i: int| 0 <= i < added.len() ==> !s.excluded.contains(#[trigger] added[i])
            &&& s.reported.is_prefix_of(t.reported)
            &&& t.reported.no_duplicates()
        }),
    decreases events.len(),
{
    if events.len() == 0 {
        assert(s.excluded.skip(s.excluded.len() as int) =~= Seq::<GroupId>::empty());
    } else {
        let m = walk_run(s, events.drop_last());
        let t = walk_run(s, events);
        lemma_walk_visits_once(s, events.drop_last());
        lemma_walk_run_wf(s, events.drop_last());
        lemma_walk_run_wf(s, events);
        lemma_walk_step_marks(m, events.last());
        lemma_walk_report_is_new(m, events.last());
        let before = m.excluded.skip(s.excluded.len() as int);
        let added = t.excluded.skip(s.excluded.len() as int);
        if walk_step(m, events.last()).1 is StoreExclusions {
            let id = t.phase->Storing_0.id;
            assert(added =~= before.push(id));
            assert forall|i: int| 0 <= i < before.len() implies before[i] != id by {
                assert(m.excluded[s.excluded.len() + i] == before[i]);
            }
            assert forall|i: int| 0 <= i < added.len() implies !s.excluded.contains(
                #[trigger] added[i],
            ) by {
                if i == before.len() {
                    if s.excluded.contains(id) {
                        let k = choose|k: int| 0 <= k < s.excluded.len() && s.excluded[k] == id;
                        assert(m.excluded[k] == id);
                    }
                } else {
                    assert(added[i] == before[i]);
                }
            }
        } else {
            assert(added =~= before);
        }
    }
}

proof fn lemma_advance_precedes(ready: WalkState, s: WalkState)
    requires
        open_visit(ready.phase) is None,
        visits_left(ready) < visits_left(s) || (visits_left(ready) == visits_left(s)
            && ready.tasks.len() <= s.tasks.len() && phase_rank(s.phase) >= 1),
    ensures
        walk_precedes(walk_advance(ready).0, s),
{
    lemma_advance_marks(ready);
    let (t, action) = walk_advance(ready);
    if action is StoreExclusions {
        lemma_mark_uses_up_one(ready.excluded, t.phase->Storing_0.id);
    }
    assert(visits_left(t) == visits_left(ready));
}

/// Every awaited event brings the walk closer to its end.
///
/// The number of visits left cannot grow and is bounded by the number of
/// group ids; while it stays the same the stack shrinks or, the stack staying
/// the same, the phase moves on. So every walk ends after finitely many
/// events, whatever the provider answers and whatever cycles the
/// relationships form.
pub proof fn lemma_walk_step_precedes(s: WalkState, event: WalkEvent)
    requires
        walk_awaits(s, event),
    ensures
        walk_precedes(walk_step(s, event).0, s),
{
    match (s.phase, event) {
        (WalkPhase::Ready, WalkEvent::Begin) => {
            lemma_advance_precedes(s, s);
        },
        (WalkPhase::AwaitingEnemies(group), WalkEvent::Relationships(answer)) => {
            lemma_advance_precedes(
                WalkState {
                    phase: WalkPhase::Ready,
                    tasks: s.tasks.push(WalkTask::Finish(group)) + visits(
                        crate::walker::related(answer),
                    ) + visits(s.allies),
                    allies: Seq::empty(),
                    ..s
                },
                s,
            );
        },
        (WalkPhase::Reporting, WalkEvent::Reported) => {
            lemma_advance_precedes(WalkState { phase: WalkPhase::Ready, ..s }, s);
        },
        _ => {},
    }
}

/// An event that is not awaited changes nothing.
pub proof fn lemma_walk_unawaited_is_ignored(s: WalkState, event: WalkEvent)
    requires
        !walk_awaits(s, event),
    ensures
        walk_step(s, event) == (s, WalkAction::Ignored),
{
}

} // verus!
