//! What holds of every selection.
//!
//! The laws speak of [`select_plan`] and [`plan_allows`], by which
//! [`Selector::plan`] and [`Selector::step`] are specified.
//!
//! [`Selector::plan`]: crate::selector::Selector::plan
//! [`Selector::step`]: crate::selector::Selector::step

use vstd::prelude::*;
use crate::availability::{available, available_ids};
use crate::model::{FetchError, GroupId, GroupRecord, RunConfig, SearchPage};
use crate::selector::{
    candidate_of,
    listed_ids,
    plan_allows,
    select_plan,
    select_settle,
    select_start,
    PlanView,
    SelectAction,
    SelectEvent,
    SelectState,
    NO_CANDIDATE,
};

verus! {

/// A draw from a range that holds one id gives that id.
pub proof fn lemma_point_range_is_certain(id: GroupId, action: SelectAction)
    requires
        plan_allows(PlanView::DrawInRange { min: id, max: id }, action),
    ensures
        action == SelectAction::Selected(id),
{
}

/// A draw among the ids of a single available group gives that group's id.
pub proof fn lemma_single_candidate_is_certain(id: GroupId, action: SelectAction)
    requires
        plan_allows(PlanView::DrawAmong(seq![id]), action),
    ensures
        action == SelectAction::Selected(id),
{
}

/// Without a keyword the first event ends the selection with an id from the
/// configured range, and nothing is asked of the provider.
pub proof fn lemma_random_strategy_stays_in_range(config: RunConfig, action: SelectAction)
    requires
        config.search_keyword is None,
        plan_allows(select_plan(select_start(config), SelectEvent::Begin).1, action),
    ensures
        action matches SelectAction::Selected(id) && config.id_range_min <= id
            <= config.id_range_max,
        select_plan(select_start(config), SelectEvent::Begin).0.phase is Closed,
{
}

/// Every id among [`available_ids`] is the id of an available group of the
/// list, and the id of every available group of the list is among them.
pub proof fn lemma_available_ids_are_available(
    groups: Seq<GroupRecord>,
    config: RunConfig,
    id: GroupId,
)
    ensures
        available_ids(groups, config).contains(id) <==> exists|i: int|
            0 <= i < groups.len() && (#[trigger] groups[i]).id == id && available(
                groups[i],
                config,
            ),
    decreases groups.len(),
{
    let ids = available_ids(groups, config);
    if groups.len() > 0 {
        let head = groups.drop_last();
        let last = groups.last();
        lemma_available_ids_are_available(head, config, id);
        if ids.contains(id) {
            let k = choose|k: int| 0 <= k < ids.len() && ids[k] == id;
            if available(last, config) && k == ids.len() - 1 {
                assert(groups[groups.len() - 1].id == id);
            } else {
                assert(available_ids(head, config)[k] == id);
                let i = choose|i: int|
                    0 <= i < head.len() && (#[trigger] head[i]).id == id && available(
                        head[i],
                        config,
                    );
                assert(groups[i] == head[i]);
            }
        }
        if exists|i: int|
            0 <= i < groups.len() && (#[trigger] groups[i]).id == id && available(
                groups[i],
                config,
            ) {
            let i = choose|i: int|
                0 <= i < groups.len() && (#[trigger] groups[i]).id == id && available(
                    groups[i],
                    config,
                );
            if i == groups.len() - 1 {
                assert(ids[ids.len() - 1] == id);
            } else {
                assert(head[i] == groups[i]);
                let k = choose|k: int|
                    0 <= k < available_ids(head, config).len() && available_ids(head, config)[k]
                        == id;
                assert(ids[k] == id);
            }
        }
    }
}

/// The records fetched for the current page once `event` is taken in.
pub open spec fn fetched_with(s: SelectState, event: SelectEvent) -> Seq<GroupRecord> {
    match event {
        SelectEvent::Group(Ok(group)) => s.fetched.push(group),
        SelectEvent::Page(_) => Seq::empty(),
        _ => s.fetched,
    }
}

/// Whether some group of the list has this id and is available.
pub open spec fn holds_available(groups: Seq<GroupRecord>, config: RunConfig, id: GroupId)
    -> bool {
    exists|i: int|
        0 <= i < groups.len() && (#[trigger] groups[i]).id == id && available(groups[i], config)
}

/// A selection by keyword ends with a candidate only if that candidate is
/// the id of an available group that was fetched for the current page.
pub proof fn lemma_search_selects_available(s: SelectState, event: SelectEvent, id: GroupId)
    requires
        s.config.search_keyword is Some,
        plan_allows(select_plan(s, event).1, SelectAction::Selected(id)),
    ensures
        holds_available(fetched_with(s, event), s.config, id),
{
    lemma_available_ids_are_available(fetched_with(s, event), s.config, id);
}

/// A page on which no fetched group is available and which has no following
/// page ends the selection without a candidate.
pub proof fn lemma_last_page_without_available_is_exhausted(s: SelectState)
    requires
        available_ids(s.fetched, s.config).len() == 0,
        s.next_cursor is None,
    ensures
        select_settle(s).1 == PlanView::Act(SelectAction::Exhausted),
        select_settle(s).0.phase is Closed,
        candidate_of(SelectAction::Exhausted) == Some(NO_CANDIDATE),
{
}

/// The state that a selection reaches from `s` through `events`.
pub open spec fn select_run(s: SelectState, events: Seq<SelectEvent>) -> SelectState
    decreases events.len(),
{
    if events.len() == 0 {
        s
    } else {
        select_plan(select_run(s, events.drop_last()), events.last()).0
    }
}

/// The events that hand over the answers to requests for group records.
pub open spec fn group_events(answers: Seq<Result<GroupRecord, FetchError>>) -> Seq<SelectEvent> {
    Seq::new(answers.len(), |i: int| SelectEvent::Group(answers[i]))
}

/// The records among the answers, in order. A failed request gave none.
pub open spec fn records_of(answers: Seq<Result<GroupRecord, FetchError>>) -> Seq<GroupRecord>
    decreases answers.len(),
{
    if answers.len() == 0 {
        Seq::empty()
    } else {
        match answers.last() {
            Ok(group) => records_of(answers.drop_last()).push(group),
            Err(_) => records_of(answers.drop_last()),
        }
    }
}

/// While answers for the listed groups come in, the selection keeps every
/// record, skips every failure, and asks for the next listed group.
pub proof fn lemma_answers_are_collected(
    s: SelectState,
    answers: Seq<Result<GroupRecord, FetchError>>,
)
    requires
        s.phase is Fetching,
        s.answered + answers.len() < s.pending.len(),
    ensures
        select_run(s, group_events(answers)) == (SelectState {
            answered: s.answered + answers.len(),
            fetched: s.fetched + records_of(answers),
            ..s
        }),
        answers.len() > 0 ==> select_plan(
            select_run(s, group_events(answers).drop_last()),
            group_events(answers).last(),
        ).1 == PlanView::Act(
            SelectAction::FetchGroup(s.pending[(s.answered + answers.len()) as int]),
        ),
    decreases answers.len(),
{
    if answers.len() == 0 {
        assert(s.fetched + records_of(answers) == s.fetched);
    } else {
        let events = group_events(answers);
        assert(events.drop_last() == group_events(answers.drop_last()));
        assert(events.last() == SelectEvent::Group(answers.last()));
        lemma_answers_are_collected(s, answers.drop_last());
        let before = select_run(s, events.drop_last());
        match answers.last() {
            Ok(group) => {
                assert(before.fetched.push(group) == s.fetched + records_of(answers));
            },
            Err(_) => {},
        }
    }
}

/// Once the last listed group is answered for, the selection settles on the
/// records that came back for the page: every listed group was asked for
/// once, in order, and no failure stopped it.
pub proof fn lemma_page_is_settled_on_its_records(
    s: SelectState,
    page: SearchPage,
    answers: Seq<Result<GroupRecord, FetchError>>,
)
    requires
        s.phase is Searching,
        answers.len() == page.items@.len(),
    ensures
        ({
            let events = seq![SelectEvent::Page(Ok(page))] + group_events(answers);
            let turned = SelectState {
                pending: listed_ids(page.items@),
                answered: answers.len(),
                fetched: records_of(answers),
                next_cursor: page.next_cursor,
                ..s
            };
            select_plan(select_run(s, events.drop_last()), events.last()) == select_settle(turned)
        }),
{
    let events = seq![SelectEvent::Page(Ok(page))] + group_events(answers);
    if answers.len() == 0 {
        assert(events.drop_last() == Seq::<SelectEvent>::empty());
        assert(records_of(answers) == Seq::<GroupRecord>::empty());
    } else {
        let first = seq![SelectEvent::Page(Ok(page))];
        let earlier = answers.drop_last();
        assert(events.drop_last() == first + group_events(earlier));
        assert(events.last() == SelectEvent::Group(answers.last()));
        let opened = select_plan(s, SelectEvent::Page(Ok(page))).0;
        lemma_run_after_first(s, SelectEvent::Page(Ok(page)), group_events(earlier));
        lemma_answers_are_collected(opened, earlier);
        assert(Seq::<GroupRecord>::empty() + records_of(earlier) == records_of(earlier));
    }
}

proof fn lemma_run_after_first(s: SelectState, first: SelectEvent, others: Seq<SelectEvent>)
    ensures
        select_run(s, seq![first] + others) == select_run(select_plan(s, first).0, others),
    decreases others.len(),
{
    let events = seq![first] + others;
    if others.len() == 0 {
        assert(events.drop_last() == Seq::<SelectEvent>::empty());
        assert(events.last() == first);
        assert(select_run(s, events.drop_last()) == s);
    } else {
        assert(events.drop_last() == seq![first] + others.drop_last());
        assert(events.last() == others.last());
        lemma_run_after_first(s, first, others.drop_last());
    }
}

/// A page on which some fetched group is available ends the selection with
/// a draw among the available ones, whatever pages would follow.
pub proof fn lemma_page_with_available_is_drawn_from(s: SelectState)
    requires
        available_ids(s.fetched, s.config).len() > 0,
    ensures
        select_settle(s).1 == PlanView::DrawAmong(available_ids(s.fetched, s.config)),
        select_settle(s).0.phase is Closed,
{
}

/// A page on which no fetched group is available and which has a following
/// page sends the selection on to that page, with the cursor as it came.
pub proof fn lemma_page_without_available_is_turned(
    s: SelectState,
    keyword: String,
    cursor: String,
)
    requires
        available_ids(s.fetched, s.config).len() == 0,
        s.config.search_keyword == Some(keyword),
        s.next_cursor == Some(cursor),
    ensures
        select_settle(s).1 == PlanView::Act(SelectAction::Search { keyword, cursor: Some(cursor) }),
        select_settle(s).0.phase is Searching,
{
}

} // verus!
