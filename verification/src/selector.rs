//! The candidate selector: picks the id of the group to look at next.
//!
//! Without a keyword the id is drawn at random from the configured range.
//! With a keyword the selector goes through the search results page by page:
//! it has the full record of every listed group fetched, keeps the available
//! ones, and draws one of them at random; a page without any sends it to the
//! following page, and the last page without any ends the selection with
//! nothing found.
//!
//! Like the walker, the selector never acts. Its decision on an event is a
//! plan, [`select_plan`], which is a function of state and event. Only
//! carrying out a plan that ends in a draw involves chance.

use vstd::prelude::*;
use crate::availability::{available_ids, is_group_available};
use crate::model::{FetchError, GroupId, GroupRecord, GroupSummary, RunConfig, SearchPage};
use crate::random::{choose_id, random_in_range};

verus! {

/// The id that stands for "no candidate". The platform has no such group.
pub const NO_CANDIDATE: GroupId = 0;

/// What the selector is waiting for.
#[derive(Clone, Copy, Debug, PartialEq, Eq, Structural)]
pub enum SelectPhase {
    /// Nothing was asked yet.
    Ready,
    /// A page of search results is being fetched.
    Searching,
    /// The record of a listed group is being fetched.
    Fetching,
    /// The selection has ended.
    Closed,
}

/// What the caller has done for the selector.
#[derive(Debug, PartialEq, Eq)]
pub enum SelectEvent {
    /// Start the selection.
    Begin,
    /// The answer to the last search request.
    Page(Result<SearchPage, FetchError>),
    /// The answer to the last request for a group record.
    Group(Result<GroupRecord, FetchError>),
}

/// What the caller has to do next, or how the selection ended.
#[derive(Clone, Debug, PartialEq, Eq)]
pub enum SelectAction {
    /// Fetch a page of search results, then send `Page`. Without a cursor the
    /// first page is meant.
    Search { keyword: String, cursor: Option<String> },
    /// Fetch the full record of this group, then send `Group`.
    FetchGroup(GroupId),
    /// The selection ended with this candidate.
    Selected(GroupId),
    /// The selection ended without a candidate: there are no groups to look
    /// through. The caller tells the user so.
    Exhausted,
    /// The selection ended because a search request failed.
    Failed(FetchError),
    /// The event was not the awaited one. Nothing has changed.
    Ignored,
}

/// What the selector has decided: an action, or a random draw whose outcome
/// will be the candidate.
#[derive(Clone, Debug, PartialEq, Eq)]
pub enum SelectPlan {
    Act(SelectAction),
    /// Draw an id from `min..=max`.
    DrawInRange { min: GroupId, max: GroupId },
    /// Draw one of these ids.
    DrawAmong(Vec<GroupId>),
}

/// A plan, as contracts see it.
pub enum PlanView {
    Act(SelectAction),
    DrawInRange { min: GroupId, max: GroupId },
    DrawAmong(Seq<GroupId>),
}

impl View for SelectPlan {
    type V = PlanView;

    open spec fn view(&self) -> PlanView {
        match *self {
            SelectPlan::Act(action) => PlanView::Act(action),
            SelectPlan::DrawInRange { min, max } => PlanView::DrawInRange { min, max },
            SelectPlan::DrawAmong(ids) => PlanView::DrawAmong(ids@),
        }
    }
}

/// The state of a selection, as contracts see it.
pub struct SelectState {
    pub config: RunConfig,
    pub phase: SelectPhase,
    /// The ids listed on the current page, in order.
    pub pending: Seq<GroupId>,
    /// How many of them were asked for and answered.
    pub answered: nat,
    /// The records that came back, in order. A failed request leaves none.
    pub fetched: Seq<GroupRecord>,
    /// The cursor of the page after the current one, if there is one.
    pub next_cursor: Option<String>,
}

/// The state before the first event.
pub open spec fn select_start(config: RunConfig) -> SelectState {
    SelectState {
        config,
        phase: SelectPhase::Ready,
        pending: Seq::empty(),
        answered: 0,
        fetched: Seq::empty(),
        next_cursor: None,
    }
}

/// The ids that a page lists, in order.
pub open spec fn listed_ids(items: Seq<GroupSummary>) -> Seq<GroupId> {
    Seq::new(items.len(), |i: int| items[i].id)
}

/// The candidate that an action stands for, where it ends a selection:
/// the selected id, or [`NO_CANDIDATE`] where nothing was found.
pub open spec fn candidate_of(action: SelectAction) -> Option<GroupId> {
    match action {
        SelectAction::Selected(id) => Some(id),
        SelectAction::Exhausted => Some(NO_CANDIDATE),
        _ => None,
    }
}

/// The decision once every group of the current page was asked for.
///
/// If any fetched group is available, one of the available ones is drawn.
/// Else the following page is asked for, if there is one. Else nothing was
/// found.
pub open spec fn select_settle(s: SelectState) -> (SelectState, PlanView) {
    let ids = available_ids(s.fetched, s.config);
    let cleared = SelectState {
        pending: Seq::empty(),
        answered: 0,
        fetched: Seq::empty(),
        next_cursor: None,
        ..s
    };
    if ids.len() > 0 {
        (SelectState { phase: SelectPhase::Closed, ..cleared }, PlanView::DrawAmong(ids))
    } else {
        match (s.config.search_keyword, s.next_cursor) {
            (Some(keyword), Some(cursor)) => (
                SelectState { phase: SelectPhase::Searching, ..cleared },
                PlanView::Act(SelectAction::Search { keyword, cursor: Some(cursor) }),
            ),
            _ => (
                SelectState { phase: SelectPhase::Closed, ..cleared },
                PlanView::Act(SelectAction::Exhausted),
            ),
        }
    }
}

/// The selector's decision on one event: the next state and the plan.
pub open spec fn select_plan(s: SelectState, event: SelectEvent) -> (SelectState, PlanView) {
    match (s.phase, event) {
        (SelectPhase::Ready, SelectEvent::Begin) => match s.config.search_keyword {
            None => (
                SelectState { phase: SelectPhase::Closed, ..s },
                PlanView::DrawInRange { min: s.config.id_range_min, max: s.config.id_range_max },
            ),
            Some(keyword) => (
                SelectState { phase: SelectPhase::Searching, ..s },
                PlanView::Act(SelectAction::Search { keyword, cursor: None }),
            ),
        },
        (SelectPhase::Searching, SelectEvent::Page(Err(error))) => (
            SelectState { phase: SelectPhase::Closed, ..s },
            PlanView::Act(SelectAction::Failed(error)),
        ),
        (SelectPhase::Searching, SelectEvent::Page(Ok(page))) => {
            let turned = SelectState {
                pending: listed_ids(page.items@),
                answered: 0,
                fetched: Seq::empty(),
                next_cursor: page.next_cursor,
                ..s
            };
            if page.items@.len() == 0 {
                select_settle(turned)
            } else {
                (
                    SelectState { phase: SelectPhase::Fetching, ..turned },
                    PlanView::Act(SelectAction::FetchGroup(page.items@[0].id)),
                )
            }
        },
        (SelectPhase::Fetching, SelectEvent::Group(answer)) => {
            let noted = SelectState {
                answered: s.answered + 1,
                fetched: match answer {
                    Ok(group) => s.fetched.push(group),
                    Err(_) => s.fetched,
                },
                ..s
            };
            if noted.answered < s.pending.len() {
                (noted, PlanView::Act(SelectAction::FetchGroup(s.pending[noted.answered as int])))
            } else {
                select_settle(noted)
            }
        },
        _ => (s, PlanView::Act(SelectAction::Ignored)),
    }
}

/// Whether `action` is a way to carry out `plan`: the planned action itself,
/// or the selection of an id that the planned draw can give.
pub open spec fn plan_allows(plan: PlanView, action: SelectAction) -> bool {
    match plan {
        PlanView::Act(planned) => action == planned,
        PlanView::DrawInRange { min, max } => action matches SelectAction::Selected(id) && min
            <= id <= max,
        PlanView::DrawAmong(ids) => action matches SelectAction::Selected(id) && ids.contains(id),
    }
}

/// Whether a draw that `plan` asks for can be made.
pub open spec fn plan_can_draw(plan: PlanView) -> bool {
    match plan {
        PlanView::Act(_) => true,
        PlanView::DrawInRange { min, max } => min <= max,
        PlanView::DrawAmong(ids) => ids.len() > 0,
    }
}

/// What a configuration has to meet for a selection: without a keyword, the
/// range to draw from is not empty.
pub open spec fn selectable(config: RunConfig) -> bool {
    config.search_keyword is None ==> config.id_range_min <= config.id_range_max
}

/// The ids of the available groups among `groups`, in their order.
pub fn collect_available_ids(groups: &Vec<GroupRecord>, config: &RunConfig) -> (ids: Vec<GroupId>)
    ensures
        ids@ == available_ids(groups@, *config),
{
    let mut ids: Vec<GroupId> = Vec::new();
    let mut i: usize = 0;
    while i < groups.len()
        invariant
            i <= groups@.len(),
            ids@ == available_ids(groups@.take(i as int), *config),
        decreases groups@.len() - i,
    {
        assert(groups@.take(i + 1).drop_last() == groups@.take(i as int));
        if is_group_available(&groups[i], config) {
            ids.push(groups[i].id);
        }
        i += 1;
    }
    assert(groups@.take(i as int) == groups@);
    ids
}

/// The ids that a page lists, in order.
pub fn collect_listed_ids(items: &Vec<GroupSummary>) -> (ids: Vec<GroupId>)
    ensures
        ids@ == listed_ids(items@),
{
    let mut ids: Vec<GroupId> = Vec::new();
    let mut i: usize = 0;
    while i < items.len()
        invariant
            i <= items@.len(),
            ids@ == listed_ids(items@).take(i as int),
        decreases items@.len() - i,
    {
        ids.push(items[i].id);
        assert(ids@ == listed_ids(items@).take(i + 1)) by {
            assert(listed_ids(items@).take(i + 1) == listed_ids(items@).take(i as int).push(
                items@[i as int].id,
            ));
        }
        i += 1;
    }
    assert(listed_ids(items@).take(i as int) == listed_ids(items@));
    ids
}

impl SelectAction {
    /// The candidate that this action stands for, where it ends a selection.
    pub fn candidate(&self) -> (id: Option<GroupId>)
        ensures
            id == candidate_of(*self),
    {
        match self {
            SelectAction::Selected(id) => Some(*id),
            SelectAction::Exhausted => Some(NO_CANDIDATE),
            _ => None,
        }
    }
}

impl SelectPlan {
    /// Carries the plan out: makes the draw, if one is planned.
    ///
    /// The outcome of a draw depends on chance; whatever it is, it is one that
    /// the plan allows.
    fn carry_out(self) -> (action: SelectAction)
        requires
            plan_can_draw(self@),
        ensures
            plan_allows(self@, action),
    {
        match self {
            SelectPlan::Act(action) => action,
            SelectPlan::DrawInRange { min, max } => SelectAction::Selected(
                random_in_range(min, max),
            ),
            SelectPlan::DrawAmong(ids) => match choose_id(&ids) {
                Some(id) => SelectAction::Selected(id),
                None => SelectAction::Exhausted,
            },
        }
    }
}

/// A selection in progress.
#[derive(Debug)]
pub struct Selector {
    config: RunConfig,
    phase: SelectPhase,
    pending: Vec<GroupId>,
    answered: usize,
    fetched: Vec<GroupRecord>,
    next_cursor: Option<String>,
}

impl View for Selector {
    type V = SelectState;

    closed spec fn view(&self) -> SelectState {
        SelectState {
            config: self.config,
            phase: self.phase,
            pending: self.pending@,
            answered: self.answered as nat,
            fetched: self.fetched@,
            next_cursor: self.next_cursor,
        }
    }
}

impl Selector {
    #[verifier::type_invariant]
    spec fn inv(self) -> bool {
        &&& selectable(self.config)
        &&& self.answered <= self.pending@.len()
        &&& self.phase is Fetching ==> self.answered < self.pending@.len()
    }

    /// A selection under `config`.
    pub fn new(config: RunConfig) -> (selector: Selector)
        requires
            selectable(config),
        ensures
            selector@ == select_start(config),
    {
        Selector {
            config,
            phase: SelectPhase::Ready,
            pending: Vec::new(),
            answered: 0,
            fetched: Vec::new(),
            next_cursor: None,
        }
    }

    /// Whether the selection has ended.
    pub fn is_closed(&self) -> (closed: bool)
        ensures
            closed == (self@.phase is Closed),
    {
        match self.phase {
            SelectPhase::Closed => true,
            _ => false,
        }
    }

    fn settle(self) -> (next: (Selector, SelectPlan))
        ensures
            (next.0@, next.1@) == select_settle(self@),
            plan_can_draw(next.1@),
    {
        proof {
            use_type_invariant(&self);
        }
        let Selector { config, phase, pending, answered, fetched, next_cursor } = self;
        let ids = collect_available_ids(&fetched, &config);
        if ids.len() > 0 {
            (
                Selector {
                    config,
                    phase: SelectPhase::Closed,
                    pending: Vec::new(),
                    answered: 0,
                    fetched: Vec::new(),
                    next_cursor: None,
                },
                SelectPlan::DrawAmong(ids),
            )
        } else {
            let keyword = match &config.search_keyword {
                Some(keyword) => Some(keyword.clone()),
                None => None,
            };
            match (keyword, next_cursor) {
                (Some(keyword), Some(cursor)) => (
                    Selector {
                        config,
                        phase: SelectPhase::Searching,
                        pending: Vec::new(),
                        answered: 0,
                        fetched: Vec::new(),
                        next_cursor: None,
                    },
                    SelectPlan::Act(SelectAction::Search { keyword, cursor: Some(cursor) }),
                ),
                _ => (
                    Selector {
                        config,
                        phase: SelectPhase::Closed,
                        pending: Vec::new(),
                        answered: 0,
                        fetched: Vec::new(),
                        next_cursor: None,
                    },
                    SelectPlan::Act(SelectAction::Exhausted),
                ),
            }
        }
    }

    /// Takes one event and decides what follows, without drawing.
    pub fn plan(self, event: SelectEvent) -> (next: (Selector, SelectPlan))
        ensures
            (next.0@, next.1@) == select_plan(self@, event),
            plan_can_draw(next.1@),
    {
        proof {
            use_type_invariant(&self);
        }
        let Selector { config, phase, pending, answered, fetched, next_cursor } = self;
        match (phase, event) {
            (SelectPhase::Ready, SelectEvent::Begin) => {
                let keyword = match &config.search_keyword {
                    Some(keyword) => Some(keyword.clone()),
                    None => None,
                };
                match keyword {
                    None => {
                        let min = config.id_range_min;
                        let max = config.id_range_max;
                        (
                            Selector {
                                config,
                                phase: SelectPhase::Closed,
                                pending,
                                answered,
                                fetched,
                                next_cursor,
                            },
                            SelectPlan::DrawInRange { min, max },
                        )
                    },
                    Some(keyword) => (
                        Selector {
                            config,
                            phase: SelectPhase::Searching,
                            pending,
                            answered,
                            fetched,
                            next_cursor,
                        },
                        SelectPlan::Act(SelectAction::Search { keyword, cursor: None }),
                    ),
                }
            },
            (SelectPhase::Searching, SelectEvent::Page(Err(error))) => (
                Selector {
                    config,
                    phase: SelectPhase::Closed,
                    pending,
                    answered,
                    fetched,
                    next_cursor,
                },
                SelectPlan::Act(SelectAction::Failed(error)),
            ),
            (SelectPhase::Searching, SelectEvent::Page(Ok(page))) => {
                let ids = collect_listed_ids(&page.items);
                if ids.len() == 0 {
                    Selector {
                        config,
                        phase,
                        pending: ids,
                        answered: 0,
                        fetched: Vec::new(),
                        next_cursor: page.next_cursor,
                    }.settle()
                } else {
                    let first = ids[0];
                    (
                        Selector {
                            config,
                            phase: SelectPhase::Fetching,
                            pending: ids,
                            answered: 0,
                            fetched: Vec::new(),
                            next_cursor: page.next_cursor,
                        },
                        SelectPlan::Act(SelectAction::FetchGroup(first)),
                    )
                }
            },
            (SelectPhase::Fetching, SelectEvent::Group(answer)) => {
                let mut fetched = fetched;
                match answer {
                    Ok(group) => {
                        fetched.push(group);
                    },
                    Err(_) => {},
                }
                let listed = pending.len();
                let answered = answered + 1;
                if answered < listed {
                    let following = pending[answered];
                    (
                        Selector { config, phase, pending, answered, fetched, next_cursor },
                        SelectPlan::Act(SelectAction::FetchGroup(following)),
                    )
                } else {
                    Selector {
                        config,
                        phase: SelectPhase::Closed,
                        pending,
                        answered,
                        fetched,
                        next_cursor,
                    }.settle()
                }
            },
            (phase, _) => (
                Selector { config, phase, pending, answered, fetched, next_cursor },
                SelectPlan::Act(SelectAction::Ignored),
            ),
        }
    }

    /// Takes one event and says what to do next, drawing where the decision
    /// calls for it.
    ///
    /// The next state is that of [`select_plan`]. The action is the planned
    /// one, or, where the plan is a draw, the selection of an id that the
    /// draw can give: which one is left to chance.
    pub fn step(self, event: SelectEvent) -> (next: (Selector, SelectAction))
        ensures
            next.0@ == select_plan(self@, event).0,
            plan_allows(select_plan(self@, event).1, next.1),
    {
        let (selector, plan) = self.plan(event);
        (selector, plan.carry_out())
    }
}

} // verus!
