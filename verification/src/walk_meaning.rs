//! What a walk amounts to.
//!
//! A visit is defined here the way one would say it: pass over a marked
//! group; else mark it, visit its allies and then its enemies, and judge it.
//! The laws of this module show that the walker's stack of tasks computes
//! exactly that, for every way the provider may answer.

use vstd::prelude::*;
use vstd::set_lib::*;
use crate::availability::available;
use crate::model::{GroupId, GroupRecord, RelationKind, RunConfig};
use crate::walk_laws::{
    lemma_advance_marks,
    lemma_mark_uses_up_one,
    lemma_push_contains,
    lemma_walk_run_wf,
    lemma_walk_start_wf,
    lemma_walk_step_marks,
    open_visit,
    unmarked_ids,
    walk_run,
    walk_wf,
};
use crate::walker::{
    related,
    visits,
    walk_advance,
    walk_start,
    walk_step,
    WalkEvent,
    WalkPhase,
    WalkState,
    WalkTask,
};

verus! {

/// What a walk leaves behind.
pub struct WalkOutcome {
    /// The marked ids, oldest first.
    pub excluded: Seq<GroupId>,
    /// The ids of the reported groups, in order.
    pub reported: Seq<GroupId>,
}

/// The groups that a visit of `id` goes on to: its allies, then its enemies.
pub open spec fn neighbours(
    answers: spec_fn(GroupId, RelationKind) -> Seq<GroupRecord>,
    id: GroupId,
) -> Seq<GroupRecord> {
    answers(id, RelationKind::Ally) + answers(id, RelationKind::Enemy)
}

/// The judgement of a group: it is reported if it is available.
pub open spec fn judged(group: GroupRecord, config: RunConfig, before: WalkOutcome)
    -> WalkOutcome {
    if available(group, config) {
        WalkOutcome { reported: before.reported.push(group.id), ..before }
    } else {
        before
    }
}

/// The visit of one group, where `answers` holds what the provider says of
/// each group's relationships.
///
/// A marked group is passed over. Any other is marked, its neighbours are
/// visited one after another, and then it is judged.
pub open spec fn visit(
    answers: spec_fn(GroupId, RelationKind) -> Seq<GroupRecord>,
    config: RunConfig,
    group: GroupRecord,
    before: WalkOutcome,
) -> WalkOutcome
    decreases unmarked_ids(before.excluded), 0nat, 0nat,
    via visit_terminates
{
    if before.excluded.contains(group.id) {
        before
    } else {
        judged(
            group,
            config,
            visit_each(
                answers,
                config,
                neighbours(answers, group.id),
                WalkOutcome { excluded: before.excluded.push(group.id), ..before },
            ),
        )
    }
}

/// The visits of a list of groups, one after another.
///
/// The test on the number of unmarked ids is there for the definition to be
/// admitted: a visit never unmarks an id, so the test never fails, as
/// [`lemma_visit_each_unfolds`] shows.
pub open spec fn visit_each(
    answers: spec_fn(GroupId, RelationKind) -> Seq<GroupRecord>,
    config: RunConfig,
    groups: Seq<GroupRecord>,
    before: WalkOutcome,
) -> WalkOutcome
    decreases unmarked_ids(before.excluded), 1nat, groups.len(),
{
    if groups.len() == 0 {
        before
    } else {
        let first = visit(answers, config, groups.first(), before);
        if unmarked_ids(first.excluded) <= unmarked_ids(before.excluded) {
            visit_each(answers, config, groups.drop_first(), first)
        } else {
            first
        }
    }
}

#[via_fn]
proof fn visit_terminates(
    answers: spec_fn(GroupId, RelationKind) -> Seq<GroupRecord>,
    config: RunConfig,
    group: GroupRecord,
    before: WalkOutcome,
) {
    if !before.excluded.contains(group.id) {
        lemma_mark_uses_up_one(before.excluded, group.id);
    }
}

proof fn lemma_longer_list_leaves_fewer_unmarked(shorter: Seq<GroupId>, longer: Seq<GroupId>)
    requires
        shorter.is_prefix_of(longer),
    ensures
        unmarked_ids(longer) <= unmarked_ids(shorter),
{
    let all = Set::<GroupId>::full();
    GroupId::full_properties();
    assert(all.difference(longer.to_set()).subset_of(all.difference(shorter.to_set()))) by {
        assert forall|id: GroupId| shorter.to_set().contains(id) implies longer.to_set().contains(
            id,
        ) by {
            let i = choose|i: int| 0 <= i < shorter.len() && shorter[i] == id;
            assert(longer[i] == id);
        }
    }
    lemma_set_subset_finite(all, all.difference(shorter.to_set()));
    lemma_len_subset(all.difference(longer.to_set()), all.difference(shorter.to_set()));
}

/// A visit takes nothing back: what was marked stays marked, what was
/// reported stays reported, in the same places.
pub proof fn lemma_visit_only_adds(
    answers: spec_fn(GroupId, RelationKind) -> Seq<GroupRecord>,
    config: RunConfig,
    group: GroupRecord,
    before: WalkOutcome,
)
    ensures
        before.excluded.is_prefix_of(visit(answers, config, group, before).excluded),
        before.reported.is_prefix_of(visit(answers, config, group, before).reported),
    decreases unmarked_ids(before.excluded), 0nat, 0nat,
{
    if !before.excluded.contains(group.id) {
        lemma_mark_uses_up_one(before.excluded, group.id);
        let marked = WalkOutcome { excluded: before.excluded.push(group.id), ..before };
        lemma_visit_each_only_adds(answers, config, neighbours(answers, group.id), marked);
    }
}

/// Visits one after another take nothing back.
pub proof fn lemma_visit_each_only_adds(
    answers: spec_fn(GroupId, RelationKind) -> Seq<GroupRecord>,
    config: RunConfig,
    groups: Seq<GroupRecord>,
    before: WalkOutcome,
)
    ensures
        before.excluded.is_prefix_of(visit_each(answers, config, groups, before).excluded),
        before.reported.is_prefix_of(visit_each(answers, config, groups, before).reported),
    decreases unmarked_ids(before.excluded), 1nat, groups.len(),
{
    if groups.len() > 0 {
        let first = visit(answers, config, groups.first(), before);
        lemma_visit_only_adds(answers, config, groups.first(), before);
        lemma_longer_list_leaves_fewer_unmarked(before.excluded, first.excluded);
        lemma_visit_each_only_adds(answers, config, groups.drop_first(), first);
    }
}

/// Visiting a list of groups is visiting the first and then the others.
pub proof fn lemma_visit_each_unfolds(
    answers: spec_fn(GroupId, RelationKind) -> Seq<GroupRecord>,
    config: RunConfig,
    groups: Seq<GroupRecord>,
    before: WalkOutcome,
)
    requires
        groups.len() > 0,
    ensures
        visit_each(answers, config, groups, before) == visit_each(
            answers,
            config,
            groups.drop_first(),
            visit(answers, config, groups.first(), before),
        ),
{
    lemma_visit_only_adds(answers, config, groups.first(), before);
    lemma_longer_list_leaves_fewer_unmarked(
        before.excluded,
        visit(answers, config, groups.first(), before).excluded,
    );
}

/// Visiting two lists in a row is visiting the one list made of both.
pub proof fn lemma_visit_each_of_joined(
    answers: spec_fn(GroupId, RelationKind) -> Seq<GroupRecord>,
    config: RunConfig,
    first: Seq<GroupRecord>,
    second: Seq<GroupRecord>,
    before: WalkOutcome,
)
    ensures
        visit_each(answers, config, first + second, before) == visit_each(
            answers,
            config,
            second,
            visit_each(answers, config, first, before),
        ),
    decreases first.len(),
{
    if first.len() == 0 {
        assert(first + second == second);
    } else {
        let joined = first + second;
        assert(joined.first() == first.first());
        assert(joined.drop_first() == first.drop_first() + second);
        lemma_visit_each_unfolds(answers, config, joined, before);
        lemma_visit_each_unfolds(answers, config, first, before);
        lemma_visit_each_of_joined(
            answers,
            config,
            first.drop_first(),
            second,
            visit(answers, config, first.first(), before),
        );
    }
}

/// What a stack of tasks amounts to: each task is carried out in turn, the
/// last one first.
pub open spec fn tasks_outcome(
    answers: spec_fn(GroupId, RelationKind) -> Seq<GroupRecord>,
    config: RunConfig,
    tasks: Seq<WalkTask>,
    before: WalkOutcome,
) -> WalkOutcome
    decreases tasks.len(),
{
    if tasks.len() == 0 {
        before
    } else {
        match tasks.last() {
            WalkTask::Visit(group) => tasks_outcome(
                answers,
                config,
                tasks.drop_last(),
                visit(answers, config, group, before),
            ),
            WalkTask::Finish(group) => tasks_outcome(
                answers,
                config,
                tasks.drop_last(),
                judged(group, config, before),
            ),
        }
    }
}

proof fn lemma_tasks_outcome_of_joined(
    answers: spec_fn(GroupId, RelationKind) -> Seq<GroupRecord>,
    config: RunConfig,
    below: Seq<WalkTask>,
    above: Seq<WalkTask>,
    before: WalkOutcome,
)
    ensures
        tasks_outcome(answers, config, below + above, before) == tasks_outcome(
            answers,
            config,
            below,
            tasks_outcome(answers, config, above, before),
        ),
    decreases above.len(),
{
    if above.len() == 0 {
        assert(below + above == below);
    } else {
        let joined = below + above;
        assert(joined.last() == above.last());
        assert(joined.drop_last() == below + above.drop_last());
        let next = match above.last() {
            WalkTask::Visit(group) => visit(answers, config, group, before),
            WalkTask::Finish(group) => judged(group, config, before),
        };
        lemma_tasks_outcome_of_joined(answers, config, below, above.drop_last(), next);
    }
}

proof fn lemma_stacked_visits_are_visit_each(
    answers: spec_fn(GroupId, RelationKind) -> Seq<GroupRecord>,
    config: RunConfig,
    groups: Seq<GroupRecord>,
    before: WalkOutcome,
)
    ensures
        tasks_outcome(answers, config, visits(groups), before) == visit_each(
            answers,
            config,
            groups,
            before,
        ),
    decreases groups.len(),
{
    if groups.len() > 0 {
        let stacked = visits(groups);
        assert(stacked.last() == WalkTask::Visit(groups.first()));
        assert(stacked.drop_last() == visits(groups.drop_first()));
        lemma_visit_each_unfolds(answers, config, groups, before);
        lemma_stacked_visits_are_visit_each(
            answers,
            config,
            groups.drop_first(),
            visit(answers, config, groups.first(), before),
        );
    }
}

/// What a walk in state `s` has left behind so far.
pub open spec fn outcome_so_far(s: WalkState) -> WalkOutcome {
    WalkOutcome { excluded: s.excluded, reported: s.reported }
}

/// Whether `event` agrees with `answers`: where relationships are awaited
/// and `event` brings them, they are those that `answers` holds for that
/// group and kind; and where `event` tells of the exclusion set, it was
/// stored. An event that is not awaited agrees with anything, as it changes
/// nothing.
pub open spec fn walk_follows(
    answers: spec_fn(GroupId, RelationKind) -> Seq<GroupRecord>,
    s: WalkState,
    event: WalkEvent,
) -> bool {
    match (s.phase, event) {
        (WalkPhase::Storing(_), WalkEvent::Stored(stored)) => stored,
        (WalkPhase::AwaitingAllies(group), WalkEvent::Relationships(answer)) => related(answer)
            == answers(group.id, RelationKind::Ally),
        (WalkPhase::AwaitingEnemies(group), WalkEvent::Relationships(answer)) => related(answer)
            == answers(group.id, RelationKind::Enemy),
        _ => true,
    }
}

/// Whether every event of the list agrees with `answers` in the state that
/// the walk has reached by then.
pub open spec fn walk_run_follows(
    answers: spec_fn(GroupId, RelationKind) -> Seq<GroupRecord>,
    s: WalkState,
    events: Seq<WalkEvent>,
) -> bool
    decreases events.len(),
{
    events.len() == 0 || (walk_run_follows(answers, s, events.drop_last()) && walk_follows(
        answers,
        walk_run(s, events.drop_last()),
        events.last(),
    ))
}

/// What a walk in state `s` will have left behind at its end, if the
/// provider goes on to answer as `answers` says: what the visit in progress
/// and the stacked tasks amount to, on top of what was left so far.
pub open spec fn walk_destiny(
    answers: spec_fn(GroupId, RelationKind) -> Seq<GroupRecord>,
    s: WalkState,
) -> WalkOutcome {
    let so_far = outcome_so_far(s);
    match s.phase {
        WalkPhase::Storing(group) => tasks_outcome(
            answers,
            s.config,
            s.tasks,
            judged(
                group,
                s.config,
                visit_each(answers, s.config, neighbours(answers, group.id), so_far),
            ),
        ),
        WalkPhase::AwaitingAllies(group) => tasks_outcome(
            answers,
            s.config,
            s.tasks,
            judged(
                group,
                s.config,
                visit_each(answers, s.config, neighbours(answers, group.id), so_far),
            ),
        ),
        WalkPhase::AwaitingEnemies(group) => tasks_outcome(
            answers,
            s.config,
            s.tasks,
            judged(
                group,
                s.config,
                visit_each(
                    answers,
                    s.config,
                    answers(group.id, RelationKind::Enemy),
                    visit_each(answers, s.config, s.allies, so_far),
                ),
            ),
        ),
        WalkPhase::Ready => tasks_outcome(answers, s.config, s.tasks, so_far),
        WalkPhase::Reporting => tasks_outcome(answers, s.config, s.tasks, so_far),
        WalkPhase::Finished => so_far,
        WalkPhase::Failed => so_far,
    }
}

proof fn lemma_advance_keeps_destiny(
    answers: spec_fn(GroupId, RelationKind) -> Seq<GroupRecord>,
    s: WalkState,
)
    requires
        open_visit(s.phase) is None,
    ensures
        walk_destiny(answers, walk_advance(s).0) == tasks_outcome(
            answers,
            s.config,
            s.tasks,
            outcome_so_far(s),
        ),
    decreases s.tasks.len(),
{
    lemma_advance_marks(s);
    if s.tasks.len() > 0 {
        let passed = WalkState { tasks: s.tasks.drop_last(), ..s };
        match s.tasks.last() {
            WalkTask::Visit(group) => {
                if s.excluded.contains(group.id) {
                    lemma_advance_keeps_destiny(answers, passed);
                }
            },
            WalkTask::Finish(group) => {
                if !available(group, s.config) {
                    lemma_advance_keeps_destiny(answers, passed);
                }
            },
        }
    }
}

/// An event that agrees with `answers` changes nothing of what the walk
/// will have left behind at its end.
pub proof fn lemma_walk_step_keeps_destiny(
    answers: spec_fn(GroupId, RelationKind) -> Seq<GroupRecord>,
    s: WalkState,
    event: WalkEvent,
)
    requires
        walk_follows(answers, s, event),
    ensures
        walk_destiny(answers, walk_step(s, event).0) == walk_destiny(answers, s),
{
    let so_far = outcome_so_far(s);
    match (s.phase, event) {
        (WalkPhase::Ready, WalkEvent::Begin) => {
            lemma_advance_keeps_destiny(answers, s);
        },
        (WalkPhase::AwaitingAllies(group), WalkEvent::Relationships(answer)) => {
            lemma_visit_each_of_joined(
                answers,
                s.config,
                answers(group.id, RelationKind::Ally),
                answers(group.id, RelationKind::Enemy),
                so_far,
            );
        },
        (WalkPhase::AwaitingEnemies(group), WalkEvent::Relationships(answer)) => {
            let enemies = answers(group.id, RelationKind::Enemy);
            let below = s.tasks.push(WalkTask::Finish(group));
            let stacked = below + visits(enemies) + visits(s.allies);
            let expanded = WalkState {
                phase: WalkPhase::Ready,
                tasks: stacked,
                allies: Seq::empty(),
                ..s
            };
            lemma_advance_keeps_destiny(answers, expanded);
            let after_allies = visit_each(answers, s.config, s.allies, so_far);
            let after_enemies = visit_each(answers, s.config, enemies, after_allies);
            lemma_tasks_outcome_of_joined(
                answers,
                s.config,
                below + visits(enemies),
                visits(s.allies),
                so_far,
            );
            lemma_stacked_visits_are_visit_each(answers, s.config, s.allies, so_far);
            lemma_tasks_outcome_of_joined(
                answers,
                s.config,
                below,
                visits(enemies),
                after_allies,
            );
            lemma_stacked_visits_are_visit_each(answers, s.config, enemies, after_allies);
            assert(below.drop_last() == s.tasks);
            assert(below.last() == WalkTask::Finish(group));
        },
        (WalkPhase::Reporting, WalkEvent::Reported) => {
            lemma_advance_keeps_destiny(answers, WalkState { phase: WalkPhase::Ready, ..s });
        },
        _ => {},
    }
}

/// Events that agree with `answers`, however many, change nothing of what
/// the walk will have left behind at its end.
pub proof fn lemma_walk_run_keeps_destiny(
    answers: spec_fn(GroupId, RelationKind) -> Seq<GroupRecord>,
    s: WalkState,
    events: Seq<WalkEvent>,
)
    requires
        walk_run_follows(answers, s, events),
    ensures
        walk_destiny(answers, walk_run(s, events)) == walk_destiny(answers, s),
    decreases events.len(),
{
    if events.len() > 0 {
        lemma_walk_run_keeps_destiny(answers, s, events.drop_last());
        lemma_walk_step_keeps_destiny(answers, walk_run(s, events.drop_last()), events.last());
    }
}

/// A walk that has come to its end has done what a visit of its seed does.
///
/// Whatever the relationships are, cycles included, and whatever events
/// came that were not awaited: once the walk is over, the marked ids and the
/// reported groups are those that the visit of the seed leaves behind, in
/// the same order.
pub proof fn lemma_finished_walk_is_visit(
    answers: spec_fn(GroupId, RelationKind) -> Seq<GroupRecord>,
    config: RunConfig,
    excluded: Seq<GroupId>,
    seed: GroupRecord,
    events: Seq<WalkEvent>,
)
    requires
        walk_run_follows(answers, walk_start(config, excluded, seed), events),
        walk_run(walk_start(config, excluded, seed), events).phase is Finished,
    ensures
        outcome_so_far(walk_run(walk_start(config, excluded, seed), events)) == visit(
            answers,
            config,
            seed,
            WalkOutcome { excluded, reported: Seq::empty() },
        ),
{
    let start = walk_start(config, excluded, seed);
    let before = WalkOutcome { excluded, reported: Seq::empty() };
    lemma_walk_run_keeps_destiny(answers, start, events);
    assert(start.tasks.last() == WalkTask::Visit(seed));
    assert(start.tasks.drop_last() == Seq::<WalkTask>::empty());
    assert(tasks_outcome(answers, config, start.tasks, before) == tasks_outcome(
        answers,
        config,
        Seq::<WalkTask>::empty(),
        visit(answers, config, seed, before),
    ));
}

/// What holds of the stack of a walk that began at `seed`, when the walk is
/// about to take up a task: the seed's own task is at the bottom, and once
/// the stack is empty the seed was reported exactly if it was not marked at
/// the start and is available.
pub open spec fn seed_at_bottom(s: WalkState, seed: GroupRecord, excluded: Seq<GroupId>) -> bool {
    if s.tasks.len() == 0 {
        s.seed_reported == (!excluded.contains(seed.id) && available(seed, s.config))
    } else {
        &&& !s.seed_reported
        &&& {
            ||| (s.tasks.len() == 1 && s.tasks[0] == WalkTask::Visit(seed) && s.excluded
                == excluded)
            ||| (s.tasks[0] == WalkTask::Finish(seed) && !excluded.contains(seed.id))
        }
    }
}

/// What holds of every state of a walk that began at `seed` with the ids in
/// `excluded` marked.
pub open spec fn walk_began_at(s: WalkState, seed: GroupRecord, excluded: Seq<GroupId>) -> bool {
    match s.phase {
        WalkPhase::Ready => seed_at_bottom(s, seed, excluded),
        WalkPhase::Reporting => seed_at_bottom(s, seed, excluded),
        WalkPhase::Finished => s.tasks.len() == 0 && seed_at_bottom(s, seed, excluded),
        WalkPhase::Failed => true,
        _ => {
            &&& !s.seed_reported
            &&& !excluded.contains(seed.id)
            &&& if s.tasks.len() == 0 {
                open_visit(s.phase) == Some(seed)
            } else {
                s.tasks[0] == WalkTask::Finish(seed)
            }
        },
    }
}

proof fn lemma_advance_began_at(s: WalkState, seed: GroupRecord, excluded: Seq<GroupId>)
    requires
        open_visit(s.phase) is None,
        seed_at_bottom(s, seed, excluded),
    ensures
        walk_began_at(walk_advance(s).0, seed, excluded),
    decreases s.tasks.len(),
{
    lemma_advance_marks(s);
    if s.tasks.len() > 0 {
        let passed = WalkState { tasks: s.tasks.drop_last(), ..s };
        if passed.tasks.len() > 0 {
            assert(passed.tasks[0] == s.tasks[0]);
        }
        match s.tasks.last() {
            WalkTask::Visit(group) => {
                if s.excluded.contains(group.id) {
                    lemma_advance_began_at(passed, seed, excluded);
                }
            },
            WalkTask::Finish(group) => {
                if !available(group, s.config) {
                    lemma_advance_began_at(passed, seed, excluded);
                }
            },
        }
    }
}

proof fn lemma_step_began_at(
    s: WalkState,
    seed: GroupRecord,
    excluded: Seq<GroupId>,
    event: WalkEvent,
)
    requires
        walk_began_at(s, seed, excluded),
    ensures
        walk_began_at(walk_step(s, event).0, seed, excluded),
{
    match (s.phase, event) {
        (WalkPhase::Ready, WalkEvent::Begin) => {
            lemma_advance_began_at(s, seed, excluded);
        },
        (WalkPhase::AwaitingEnemies(group), WalkEvent::Relationships(answer)) => {
            let stacked = s.tasks.push(WalkTask::Finish(group)) + visits(related(answer)) + visits(
                s.allies,
            );
            let expanded = WalkState {
                phase: WalkPhase::Ready,
                tasks: stacked,
                allies: Seq::empty(),
                ..s
            };
            assert(stacked[0] == s.tasks.push(WalkTask::Finish(group))[0]);
            lemma_advance_began_at(expanded, seed, excluded);
        },
        (WalkPhase::Reporting, WalkEvent::Reported) => {
            lemma_advance_began_at(WalkState { phase: WalkPhase::Ready, ..s }, seed, excluded);
        },
        _ => {},
    }
}

/// When a walk is over, it says that its seed was reported exactly if the
/// seed was not marked when the walk began and is available: the answer of
/// the visit of that one group, whatever was reported on the way.
pub proof fn lemma_seed_reported_is_the_visit_answer(
    config: RunConfig,
    excluded: Seq<GroupId>,
    seed: GroupRecord,
    events: Seq<WalkEvent>,
)
    ensures
        ({
            let end = walk_run(walk_start(config, excluded, seed), events);
            end.phase is Finished ==> end.seed_reported == (!excluded.contains(seed.id)
                && available(seed, config))
        }),
        walk_began_at(walk_run(walk_start(config, excluded, seed), events), seed, excluded),
        walk_run(walk_start(config, excluded, seed), events).config == config,
    decreases events.len(),
{
    let start = walk_start(config, excluded, seed);
    if events.len() > 0 {
        let before = walk_run(start, events.drop_last());
        lemma_seed_reported_is_the_visit_answer(config, excluded, seed, events.drop_last());
        lemma_step_began_at(before, seed, excluded, events.last());
        crate::walk_laws::lemma_walk_step_keeps_config(before, events.last());
    }
}

/// The request for relationships that `event` answers in state `s`, if it
/// answers one.
pub open spec fn answered_request(s: WalkState, event: WalkEvent) -> Option<
    (GroupId, RelationKind),
> {
    match (s.phase, event) {
        (WalkPhase::AwaitingAllies(group), WalkEvent::Relationships(_)) => Some(
            (group.id, RelationKind::Ally),
        ),
        (WalkPhase::AwaitingEnemies(group), WalkEvent::Relationships(_)) => Some(
            (group.id, RelationKind::Enemy),
        ),
        _ => None,
    }
}

/// The requests for relationships that were answered in the course of
/// `events`.
pub open spec fn requests_answered(s: WalkState, events: Seq<WalkEvent>) -> Set<
    (GroupId, RelationKind),
>
    decreases events.len(),
{
    if events.len() == 0 {
        Set::empty()
    } else {
        let earlier = requests_answered(s, events.drop_last());
        match answered_request(walk_run(s, events.drop_last()), events.last()) {
            Some(request) => earlier.insert(request),
            None => earlier,
        }
    }
}

/// What the provider said of each group's relationships in the course of
/// `events`: for each request the groups of its answer, and none for a
/// request that was never made.
pub open spec fn answers_given(s: WalkState, events: Seq<WalkEvent>) -> spec_fn(
    GroupId,
    RelationKind,
) -> Seq<GroupRecord>
    decreases events.len(),
{
    if events.len() == 0 {
        |id: GroupId, kind: RelationKind| Seq::<GroupRecord>::empty()
    } else {
        let earlier = answers_given(s, events.drop_last());
        match (answered_request(walk_run(s, events.drop_last()), events.last()), events.last()) {
            (Some(request), WalkEvent::Relationships(answer)) => |id: GroupId, kind: RelationKind|
                if (id, kind) == request {
                    related(answer)
                } else {
                    earlier(id, kind)
                },
            _ => earlier,
        }
    }
}

proof fn lemma_requests_are_for_marked_groups(s: WalkState, events: Seq<WalkEvent>)
    requires
        walk_wf(s),
    ensures
        ({
            let reached = walk_run(s, events);
            let asked = requests_answered(s, events);
            &&& forall|id: GroupId, kind: RelationKind| #[trigger]
                asked.contains((id, kind)) ==> reached.excluded.contains(id)
            &&& match reached.phase {
                WalkPhase::Storing(group) => !asked.contains((group.id, RelationKind::Ally))
                    && !asked.contains((group.id, RelationKind::Enemy)),
                WalkPhase::AwaitingAllies(group) => !asked.contains(
                    (group.id, RelationKind::Ally),
                ) && !asked.contains((group.id, RelationKind::Enemy)),
                WalkPhase::AwaitingEnemies(group) => !asked.contains(
                    (group.id, RelationKind::Enemy),
                ),
                _ => true,
            }
        }),
    decreases events.len(),
{
    if events.len() > 0 {
        let before = walk_run(s, events.drop_last());
        let earlier = requests_answered(s, events.drop_last());
        let reached = walk_run(s, events);
        let asked = requests_answered(s, events);
        lemma_requests_are_for_marked_groups(s, events.drop_last());
        lemma_walk_run_wf(s, events.drop_last());
        lemma_walk_step_marks(before, events.last());
        assert forall|id: GroupId| before.excluded.contains(id) implies reached.excluded.contains(
            id,
        ) by {
            if walk_step(before, events.last()).1 is StoreExclusions {
                lemma_push_contains(before.excluded, reached.phase->Storing_0.id, id);
            }
        }
        assert forall|id: GroupId, kind: RelationKind| #[trigger]
            asked.contains((id, kind)) implies before.excluded.contains(id) by {
            if !earlier.contains((id, kind)) {
                assert(answered_request(before, events.last()) == Some((id, kind)));
            }
        }
        match (before.phase, events.last()) {
            (WalkPhase::Ready, WalkEvent::Begin) => {
                lemma_advance_marks(before);
            },
            (WalkPhase::AwaitingEnemies(group), WalkEvent::Relationships(answer)) => {
                lemma_advance_marks(
                    WalkState {
                        phase: WalkPhase::Ready,
                        tasks: before.tasks.push(WalkTask::Finish(group)) + visits(
                            related(answer),
                        ) + visits(before.allies),
                        allies: Seq::empty(),
                        ..before
                    },
                );
            },
            (WalkPhase::Reporting, WalkEvent::Reported) => {
                lemma_advance_marks(WalkState { phase: WalkPhase::Ready, ..before });
            },
            _ => {},
        }
    }
}

/// No request for relationships is made twice in a walk: the request that
/// an event answers was not answered before.
pub proof fn lemma_no_request_is_repeated(s: WalkState, events: Seq<WalkEvent>, event: WalkEvent)
    requires
        walk_wf(s),
    ensures
        answered_request(walk_run(s, events), event) matches Some(request) ==> !requests_answered(
            s,
            events,
        ).contains(request),
{
    lemma_requests_are_for_marked_groups(s, events);
}

proof fn lemma_follows_reads_answered_requests(
    answers: spec_fn(GroupId, RelationKind) -> Seq<GroupRecord>,
    others: spec_fn(GroupId, RelationKind) -> Seq<GroupRecord>,
    s: WalkState,
    events: Seq<WalkEvent>,
)
    requires
        walk_run_follows(answers, s, events),
        forall|id: GroupId, kind: RelationKind| #[trigger]
            requests_answered(s, events).contains((id, kind)) ==> answers(id, kind) == others(
                id,
                kind,
            ),
    ensures
        walk_run_follows(others, s, events),
    decreases events.len(),
{
    if events.len() > 0 {
        let before = walk_run(s, events.drop_last());
        let earlier = requests_answered(s, events.drop_last());
        assert forall|id: GroupId, kind: RelationKind| #[trigger]
            earlier.contains((id, kind)) implies answers(id, kind) == others(id, kind) by {
            assert(requests_answered(s, events).contains((id, kind)));
        }
        lemma_follows_reads_answered_requests(answers, others, s, events.drop_last());
        match answered_request(before, events.last()) {
            Some(request) => {
                assert(requests_answered(s, events).contains((request.0, request.1)));
            },
            None => {},
        }
    }
}

proof fn lemma_run_follows_answers_given(s: WalkState, events: Seq<WalkEvent>)
    requires
        walk_wf(s),
        !(walk_run(s, events).phase is Failed),
    ensures
        walk_run_follows(answers_given(s, events), s, events),
    decreases events.len(),
{
    if events.len() > 0 {
        let before = walk_run(s, events.drop_last());
        let earlier = answers_given(s, events.drop_last());
        let given = answers_given(s, events);
        lemma_run_follows_answers_given(s, events.drop_last());
        lemma_requests_are_for_marked_groups(s, events.drop_last());
        assert forall|id: GroupId, kind: RelationKind| #[trigger]
            requests_answered(s, events.drop_last()).contains((id, kind)) implies earlier(id, kind)
            == given(id, kind) by {}
        lemma_follows_reads_answered_requests(earlier, given, s, events.drop_last());
    }
}

/// A walk that has come to its end has done what a visit of its seed does,
/// with the relationships as the provider gave them in the course of the
/// walk.
///
/// This holds of every sequence of events that ends the walk. No request is
/// made twice ([`lemma_no_request_is_repeated`]), so what the provider said
/// is one answer for each group and kind.
pub proof fn lemma_finished_walk_is_visit_as_answered(
    config: RunConfig,
    excluded: Seq<GroupId>,
    seed: GroupRecord,
    events: Seq<WalkEvent>,
)
    requires
        walk_run(walk_start(config, excluded, seed), events).phase is Finished,
    ensures
        outcome_so_far(walk_run(walk_start(config, excluded, seed), events)) == visit(
            answers_given(walk_start(config, excluded, seed), events),
            config,
            seed,
            WalkOutcome { excluded, reported: Seq::empty() },
        ),
{
    let start = walk_start(config, excluded, seed);
    lemma_walk_start_wf(config, excluded, seed);
    lemma_run_follows_answers_given(start, events);
    lemma_finished_walk_is_visit(answers_given(start, events), config, excluded, seed, events);
}

} // verus!
