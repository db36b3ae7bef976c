//! The run loop: one discovery attempt after another.
//!
//! An attempt selects a candidate, has its record fetched, and walks from it.
//! An attempt that yields no candidate, or whose candidate cannot be fetched,
//! comes to nothing and the next one begins. The run stops after a walk that
//! reported a group, unless it was asked to repeat; it is given up when a
//! keyword search fails or the exclusion set cannot be stored.

use vstd::prelude::*;
use crate::exclusion::ExclusionSet;
use crate::model::{FatalError, FetchError, GroupId, GroupRecord, RunConfig};
use crate::selector::{
    plan_allows,
    select_plan,
    select_start,
    selectable,
    SelectAction,
    SelectEvent,
    SelectState,
    Selector,
    NO_CANDIDATE,
};
use crate::walk_laws::lemma_walk_step_marks;
use crate::walker::{walk_start, walk_step, WalkAction, WalkEvent, WalkState, Walker};

verus! {

/// What the caller has done for the run.
#[derive(Debug, PartialEq, Eq)]
pub enum RunEvent {
    /// Begin the next attempt.
    Begin,
    /// An event for the selection in progress.
    Select(SelectEvent),
    /// The answer to the request for the candidate's record.
    Seed(Result<GroupRecord, FetchError>),
    /// An event for the walk in progress.
    Walk(WalkEvent),
}

/// What the caller has to do next.
#[derive(Clone, Debug, PartialEq, Eq)]
pub enum RunAction {
    /// Do this for the selection, then send `Select`. Where it is
    /// `Exhausted`, tell the user that there are no groups to look through,
    /// then send `Begin`.
    Select(SelectAction),
    /// Fetch the record of the candidate, then send `Seed`.
    FetchSeed(GroupId),
    /// Do this for the walk, then send `Walk`.
    Walk(WalkAction),
    /// The attempt is over and another is due: send `Begin`.
    Retry,
    /// The run is over.
    Stop,
    /// The run is given up.
    Abort(FatalError),
    /// The event was not the awaited one. Nothing has changed.
    Ignored,
}

/// Where a run stands, as contracts see it. Every stage carries the marked
/// ids; a walk carries them in its own state.
pub enum StageView {
    /// Between two attempts.
    Idle(Seq<GroupId>),
    /// A candidate is being selected.
    Selecting(SelectState, Seq<GroupId>),
    /// The candidate's record is being fetched.
    FetchingSeed(Seq<GroupId>),
    /// A walk is in progress.
    Walking(WalkState),
    /// The run is over.
    Done(Seq<GroupId>),
    /// The run was given up.
    Aborted(Seq<GroupId>),
}

/// The state of a run, as contracts see it.
pub struct RunState {
    pub config: RunConfig,
    pub stage: StageView,
}

/// The state before the first event.
pub open spec fn run_start(config: RunConfig, excluded: Seq<GroupId>) -> RunState {
    RunState { config, stage: StageView::Idle(excluded) }
}

/// The marked ids at a stage.
pub open spec fn excluded_at(stage: StageView) -> Seq<GroupId> {
    match stage {
        StageView::Idle(excluded) => excluded,
        StageView::Selecting(_, excluded) => excluded,
        StageView::FetchingSeed(excluded) => excluded,
        StageView::Walking(walk) => walk.excluded,
        StageView::Done(excluded) => excluded,
        StageView::Aborted(excluded) => excluded,
    }
}

/// How the run goes on after the selection answered with `action`.
///
/// A request is passed on. A candidate is fetched, unless it is the id that
/// stands for none: then the attempt is over, as it is when nothing was
/// found. A failed search ends the run.
pub open spec fn run_after_select(
    config: RunConfig,
    excluded: Seq<GroupId>,
    selection: SelectState,
    action: SelectAction,
) -> (RunState, RunAction) {
    match action {
        SelectAction::Selected(id) => if id == NO_CANDIDATE {
            (RunState { config, stage: StageView::Idle(excluded) }, RunAction::Retry)
        } else {
            (RunState { config, stage: StageView::FetchingSeed(excluded) }, RunAction::FetchSeed(id))
        },
        SelectAction::Exhausted => (
            RunState { config, stage: StageView::Idle(excluded) },
            RunAction::Select(SelectAction::Exhausted),
        ),
        SelectAction::Failed(error) => (
            RunState { config, stage: StageView::Aborted(excluded) },
            RunAction::Abort(FatalError::Provider(error)),
        ),
        SelectAction::Ignored => (
            RunState { config, stage: StageView::Selecting(selection, excluded) },
            RunAction::Ignored,
        ),
        _ => (
            RunState { config, stage: StageView::Selecting(selection, excluded) },
            RunAction::Select(action),
        ),
    }
}

/// How the run goes on after the walk answered with `action`.
///
/// A request is passed on. A walk that is over ends the run if it reported
/// at least one group and the run was not asked to repeat; else the next
/// attempt is due. A walk that was given up ends the run.
pub open spec fn run_after_walk(config: RunConfig, walk: WalkState, action: WalkAction) -> (
    RunState,
    RunAction,
) {
    match action {
        WalkAction::Finished { seed_reported, reported } => if reported > 0 && !config.repeat {
            (RunState { config, stage: StageView::Done(walk.excluded) }, RunAction::Stop)
        } else {
            (RunState { config, stage: StageView::Idle(walk.excluded) }, RunAction::Retry)
        },
        WalkAction::Failed(error) => (
            RunState { config, stage: StageView::Aborted(walk.excluded) },
            RunAction::Abort(FatalError::Storage(error)),
        ),
        WalkAction::Ignored => (
            RunState { config, stage: StageView::Walking(walk) },
            RunAction::Ignored,
        ),
        _ => (RunState { config, stage: StageView::Walking(walk) }, RunAction::Walk(action)),
    }
}

/// The answer of the selection that lies behind an action of the run.
pub open spec fn selection_behind(action: RunAction) -> SelectAction {
    match action {
        RunAction::Select(selected) => selected,
        RunAction::FetchSeed(id) => SelectAction::Selected(id),
        RunAction::Retry => SelectAction::Selected(NO_CANDIDATE),
        RunAction::Abort(FatalError::Provider(error)) => SelectAction::Failed(error),
        _ => SelectAction::Ignored,
    }
}

/// Whether a run in state `s` may answer `event` with `action` and go on in
/// state `next`.
///
/// Everything is determined but the outcome of a draw that the selection
/// makes: there `action` and `next` are those that follow from one of the
/// ids that the draw can give.
pub open spec fn run_allows(s: RunState, event: RunEvent, next: RunState, action: RunAction)
    -> bool {
    match (s.stage, event) {
        (StageView::Idle(excluded), RunEvent::Begin) => {
            let (selection, plan) = select_plan(select_start(s.config), SelectEvent::Begin);
            &&& plan_allows(plan, selection_behind(action))
            &&& (next, action) == run_after_select(
                s.config,
                excluded,
                selection,
                selection_behind(action),
            )
        },
        (StageView::Selecting(selecting, excluded), RunEvent::Select(select_event)) => {
            let (selection, plan) = select_plan(selecting, select_event);
            &&& plan_allows(plan, selection_behind(action))
            &&& (next, action) == run_after_select(
                s.config,
                excluded,
                selection,
                selection_behind(action),
            )
        },
        (StageView::FetchingSeed(excluded), RunEvent::Seed(Ok(seed))) => {
            let (walk, walk_action) = walk_step(
                walk_start(s.config, excluded, seed),
                WalkEvent::Begin,
            );
            (next, action) == run_after_walk(s.config, walk, walk_action)
        },
        (StageView::FetchingSeed(excluded), RunEvent::Seed(Err(_))) => {
            (next, action) == (
                RunState { config: s.config, stage: StageView::Idle(excluded) },
                RunAction::Retry,
            )
        },
        (StageView::Walking(walking), RunEvent::Walk(walk_event)) => {
            let (walk, walk_action) = walk_step(walking, walk_event);
            (next, action) == run_after_walk(s.config, walk, walk_action)
        },
        _ => (next, action) == (s, RunAction::Ignored),
    }
}

#[derive(Debug)]
enum RunStage {
    Idle(ExclusionSet),
    Selecting(Selector, ExclusionSet),
    FetchingSeed(ExclusionSet),
    Walking(Walker),
    Done(ExclusionSet),
    Aborted(ExclusionSet),
}

/// A run in progress.
#[derive(Debug)]
pub struct RunLoop {
    config: RunConfig,
    stage: RunStage,
}

impl View for RunLoop {
    type V = RunState;

    closed spec fn view(&self) -> RunState {
        RunState {
            config: self.config,
            stage: match self.stage {
                RunStage::Idle(exclusions) => StageView::Idle(exclusions@),
                RunStage::Selecting(selector, exclusions) => StageView::Selecting(
                    selector@,
                    exclusions@,
                ),
                RunStage::FetchingSeed(exclusions) => StageView::FetchingSeed(exclusions@),
                RunStage::Walking(walker) => StageView::Walking(walker@),
                RunStage::Done(exclusions) => StageView::Done(exclusions@),
                RunStage::Aborted(exclusions) => StageView::Aborted(exclusions@),
            },
        }
    }
}

impl RunLoop {
    #[verifier::type_invariant]
    spec fn inv(self) -> bool {
        selectable(self.config)
    }

    /// A run under `config`, with the ids in `exclusions` marked.
    pub fn new(config: RunConfig, exclusions: ExclusionSet) -> (run: RunLoop)
        requires
            selectable(config),
        ensures
            run@ == run_start(config, exclusions@),
    {
        RunLoop { config, stage: RunStage::Idle(exclusions) }
    }

    /// The exclusion set as it stands.
    pub fn exclusions(&self) -> (exclusions: &ExclusionSet)
        ensures
            exclusions@ == excluded_at(self@.stage),
    {
        match &self.stage {
            RunStage::Idle(exclusions) => exclusions,
            RunStage::Selecting(_, exclusions) => exclusions,
            RunStage::FetchingSeed(exclusions) => exclusions,
            RunStage::Walking(walker) => walker.exclusions(),
            RunStage::Done(exclusions) => exclusions,
            RunStage::Aborted(exclusions) => exclusions,
        }
    }

    /// Whether the run is over or was given up.
    pub fn is_over(&self) -> (over: bool)
        ensures
            over == (self@.stage is Done || self@.stage is Aborted),
    {
        match &self.stage {
            RunStage::Done(_) => true,
            RunStage::Aborted(_) => true,
            _ => false,
        }
    }

    fn after_select(
        config: RunConfig,
        exclusions: ExclusionSet,
        selector: Selector,
        action: SelectAction,
    ) -> (next: (RunLoop, RunAction))
        requires
            selectable(config),
        ensures
            (next.0@, next.1) == run_after_select(config, exclusions@, selector@, action),
            selection_behind(next.1) == action,
    {
        match action {
            SelectAction::Selected(id) => {
                if id == NO_CANDIDATE {
                    (RunLoop { config, stage: RunStage::Idle(exclusions) }, RunAction::Retry)
                } else {
                    (
                        RunLoop { config, stage: RunStage::FetchingSeed(exclusions) },
                        RunAction::FetchSeed(id),
                    )
                }
            },
            SelectAction::Exhausted => (
                RunLoop { config, stage: RunStage::Idle(exclusions) },
                RunAction::Select(SelectAction::Exhausted),
            ),
            SelectAction::Failed(error) => (
                RunLoop { config, stage: RunStage::Aborted(exclusions) },
                RunAction::Abort(FatalError::Provider(error)),
            ),
            SelectAction::Ignored => (
                RunLoop { config, stage: RunStage::Selecting(selector, exclusions) },
                RunAction::Ignored,
            ),
            request => (
                RunLoop { config, stage: RunStage::Selecting(selector, exclusions) },
                RunAction::Select(request),
            ),
        }
    }

    fn after_walk(config: RunConfig, walker: Walker, action: WalkAction) -> (next: (
        RunLoop,
        RunAction,
    ))
        requires
            selectable(config),
        ensures
            (next.0@, next.1) == run_after_walk(config, walker@, action),
    {
        match action {
            WalkAction::Finished { seed_reported, reported } => {
                let exclusions = walker.into_exclusions();
                if reported > 0 && !config.repeat {
                    (RunLoop { config, stage: RunStage::Done(exclusions) }, RunAction::Stop)
                } else {
                    (RunLoop { config, stage: RunStage::Idle(exclusions) }, RunAction::Retry)
                }
            },
            WalkAction::Failed(error) => {
                let exclusions = walker.into_exclusions();
                (
                    RunLoop { config, stage: RunStage::Aborted(exclusions) },
                    RunAction::Abort(FatalError::Storage(error)),
                )
            },
            WalkAction::Ignored => (
                RunLoop { config, stage: RunStage::Walking(walker) },
                RunAction::Ignored,
            ),
            request => (
                RunLoop { config, stage: RunStage::Walking(walker) },
                RunAction::Walk(request),
            ),
        }
    }

    /// Takes one event and says what to do next.
    ///
    /// What follows is determined by state and event, but for the candidate
    /// where the selection draws one: see [`run_allows`].
    pub fn step(self, event: RunEvent) -> (next: (RunLoop, RunAction))
        ensures
            run_allows(self@, event, next.0@, next.1),
    {
        proof {
            use_type_invariant(&self);
        }
        let RunLoop { config, stage } = self;
        match (stage, event) {
            (RunStage::Idle(exclusions), RunEvent::Begin) => {
                let selector = Selector::new(config.duplicate());
                let (selector, action) = selector.step(SelectEvent::Begin);
                RunLoop::after_select(config, exclusions, selector, action)
            },
            (RunStage::Selecting(selector, exclusions), RunEvent::Select(select_event)) => {
                let (selector, action) = selector.step(select_event);
                RunLoop::after_select(config, exclusions, selector, action)
            },
            (RunStage::FetchingSeed(exclusions), RunEvent::Seed(Ok(seed))) => {
                let walker = Walker::new(config.duplicate(), exclusions, seed);
                let (walker, action) = walker.step(WalkEvent::Begin);
                RunLoop::after_walk(config, walker, action)
            },
            (RunStage::FetchingSeed(exclusions), RunEvent::Seed(Err(_))) => {
                (RunLoop { config, stage: RunStage::Idle(exclusions) }, RunAction::Retry)
            },
            (RunStage::Walking(walker), RunEvent::Walk(walk_event)) => {
                let (walker, action) = walker.step(walk_event);
                RunLoop::after_walk(config, walker, action)
            },
            (stage, _) => (RunLoop { config, stage }, RunAction::Ignored),
        }
    }
}

/// A run that was asked to repeat never stops by itself.
pub proof fn lemma_repeat_never_stops(
    s: RunState,
    event: RunEvent,
    next: RunState,
    action: RunAction,
)
    requires
        s.config.repeat,
        !(s.stage is Done),
        run_allows(s, event, next, action),
    ensures
        !(action is Stop),
        !(next.stage is Done),
{
}

/// A run stops exactly when a walk ends that reported at least one group
/// and the run was not asked to repeat.
pub proof fn lemma_stop_follows_reporting_walk(
    s: RunState,
    event: RunEvent,
    next: RunState,
    action: RunAction,
)
    requires
        run_allows(s, event, next, action),
    ensures
        action is Stop <==> {
            let walked = match (s.stage, event) {
                (StageView::FetchingSeed(excluded), RunEvent::Seed(Ok(seed))) => Some(
                    walk_step(walk_start(s.config, excluded, seed), WalkEvent::Begin).1,
                ),
                (StageView::Walking(walking), RunEvent::Walk(walk_event)) => Some(
                    walk_step(walking, walk_event).1,
                ),
                _ => None,
            };
            &&& !s.config.repeat
            &&& walked matches Some(WalkAction::Finished { seed_reported, reported })
            &&& reported > 0
        },
        action is Stop <==> next.stage is Done && !(s.stage is Done),
{
}

/// A candidate that is the id standing for none is never fetched: the
/// attempt counts as failed and the next one is due.
pub proof fn lemma_no_candidate_is_not_fetched(
    s: RunState,
    event: RunEvent,
    next: RunState,
    action: RunAction,
)
    requires
        run_allows(s, event, next, action),
    ensures
        action != RunAction::FetchSeed(NO_CANDIDATE),
{
}

/// A step of the run leaves the configuration as it is and takes no id out
/// of the exclusion set.
pub proof fn lemma_run_keeps_exclusions(
    s: RunState,
    event: RunEvent,
    next: RunState,
    action: RunAction,
)
    requires
        run_allows(s, event, next, action),
    ensures
        next.config == s.config,
        excluded_at(s.stage).is_prefix_of(excluded_at(next.stage)),
{
    match (s.stage, event) {
        (StageView::FetchingSeed(excluded), RunEvent::Seed(Ok(seed))) => {
            lemma_walk_step_marks(walk_start(s.config, excluded, seed), WalkEvent::Begin);
        },
        (StageView::Walking(walking), RunEvent::Walk(walk_event)) => {
            lemma_walk_step_marks(walking, walk_event);
        },
        _ => {},
    }
}

} // verus!
