//! Deterministic, journaled reconstruction of a live-pane BSP tree.

pub mod plan;
pub mod state;

use crate::herdr::client::MovedPane;
use crate::rebuild::plan::{
    compile, lemma_placements_are_places, lemma_placements_rebuild_tree, parking, placements,
    plan_steps, ratio_steps, rebuild_refusal, replay, Command, Plan, Step,
};
use crate::rebuild::state::{Journal, JournalView};
use crate::text::{join2, join3, same_text};
use crate::tree::{
    first_pane, lemma_panes_nonempty, panes, same_layout, split_count, Layout, LayoutView, Ratio,
    SplitDirection, Tree,
};
use vstd::prelude::*;

verus! {

/// Why an original and a desired layout cannot be rebuilt into one another,
/// if they cannot: they must address the same tab and hold the same panes.
pub open spec fn compatibility_problem(original: LayoutView, desired: LayoutView) -> Option<
    Seq<char>,
> {
    if original.workspace_id != desired.workspace_id || original.tab_id != desired.tab_id {
        Some("original and desired layouts must address the same tab"@)
    } else if panes(original.root).to_multiset() != panes(desired.root).to_multiset() {
        Some("original and desired layouts must contain the same panes"@)
    } else {
        None
    }
}

/// The number of times `id` occurs in `ids`.
fn occurrences(ids: &Vec<String>, id: &String) -> (count: usize)
    ensures
        count == ids.deep_view().to_multiset().count(id@),
{
    let ghost all = ids.deep_view();
    let mut count: usize = 0;
    let mut i: usize = 0;
    proof {
        assert(all.take(0) =~= Seq::<Seq<char>>::empty());
        broadcast use vstd::seq_lib::group_to_multiset_ensures;
    }
    while i < ids.len()
        invariant
            i <= ids@.len(),
            all == ids.deep_view(),
            count <= i,
            count == all.take(i as int).to_multiset().count(id@),
        decreases ids@.len() - i,
    {
        proof {
            broadcast use vstd::seq_lib::group_to_multiset_ensures;
            assert(all.take(i + 1) =~= all.take(i as int).push(all[i as int]));
            assert(all[i as int] == ids@[i as int]@);
        }
        if ids[i] == *id {
            count = count + 1;
        }
        i = i + 1;
    }
    proof {
        assert(all.take(ids@.len() as int) =~= all);
    }
    count
}

/// Whether every element of `a` occurs as often in `b`.
fn counts_agree(a: &Vec<String>, b: &Vec<String>) -> (agree: bool)
    ensures
        agree == forall|i: int|
            0 <= i < a@.len() ==> a.deep_view().to_multiset().count(#[trigger] a.deep_view()[i])
                == b.deep_view().to_multiset().count(a.deep_view()[i]),
{
    let mut i: usize = 0;
    while i < a.len()
        invariant
            i <= a@.len(),
            forall|j: int|
                0 <= j < i ==> a.deep_view().to_multiset().count(#[trigger] a.deep_view()[j])
                    == b.deep_view().to_multiset().count(a.deep_view()[j]),
        decreases a@.len() - i,
    {
        proof {
            assert(a.deep_view()[i as int] == a@[i as int]@);
        }
        if occurrences(a, &a[i]) != occurrences(b, &a[i]) {
            return false;
        }
        i = i + 1;
    }
    true
}

/// Whether two pane lists hold the same IDs, each as often.
fn same_panes(a: &Vec<String>, b: &Vec<String>) -> (same: bool)
    ensures
        same == (a.deep_view().to_multiset() == b.deep_view().to_multiset()),
{
    let forward = counts_agree(a, b);
    let backward = counts_agree(b, a);
    proof {
        broadcast use vstd::seq_lib::group_to_multiset_ensures;
        let ma = a.deep_view().to_multiset();
        let mb = b.deep_view().to_multiset();
        if forward && backward {
            assert forall|x: Seq<char>| ma.count(x) == mb.count(x) by {
                if ma.count(x) > 0 {
                    assert(a.deep_view().contains(x));
                    let i = choose|i: int| 0 <= i < a.deep_view().len() && a.deep_view()[i] == x;
                    assert(ma.count(a.deep_view()[i]) == mb.count(a.deep_view()[i]));
                } else if mb.count(x) > 0 {
                    assert(b.deep_view().contains(x));
                    let i = choose|i: int| 0 <= i < b.deep_view().len() && b.deep_view()[i] == x;
                    assert(mb.count(b.deep_view()[i]) == ma.count(b.deep_view()[i]));
                }
            }
            assert(ma =~= mb);
        }
        if ma == mb {
            assert(forward);
            assert(backward);
        }
    }
    forward && backward
}

/// Checks that `original` and `desired` address the same tab and hold the
/// same panes.
///
/// # Errors
///
/// Describes the first mismatch.
pub fn validate_compatible(original: &Layout, desired: &Layout) -> (result: Result<(), String>)
    ensures
        match result {
            Ok(()) => compatibility_problem(original@, desired@) is None,
            Err(message) => compatibility_problem(original@, desired@) == Some(message@),
        },
{
    if original.workspace_id != desired.workspace_id || original.tab_id != desired.tab_id {
        return Err("original and desired layouts must address the same tab".to_owned());
    }
    let mut original_panes: Vec<String> = Vec::new();
    let mut desired_panes: Vec<String> = Vec::new();
    original.root.collect_panes(&mut original_panes);
    desired.root.collect_panes(&mut desired_panes);
    proof {
        assert(original_panes.deep_view() =~= panes(original.root@));
        assert(desired_panes.deep_view() =~= panes(desired.root@));
    }
    if !same_panes(&original_panes, &desired_panes) {
        return Err("original and desired layouts must contain the same panes".to_owned());
    }
    Ok(())
}

/// The text of a no-op move's reason.
pub open spec fn reason_text(reason: Option<Seq<char>>) -> Seq<char> {
    match reason {
        Some(reason) => reason,
        None => "unknown reason"@,
    }
}

/// The message for a move that made no change.
pub open spec fn no_change_message(operation: Seq<char>, reason: Option<Seq<char>>) -> Seq<char> {
    operation + ": pane move made no change ("@ + reason_text(reason) + ")"@
}

/// The value of an optional string.
pub open spec fn optional_text(value: Option<String>) -> Option<Seq<char>> {
    match value {
        Some(text) => Some(text@),
        None => None,
    }
}

/// Accepts a move only if Herdr performed it.
///
/// # Errors
///
/// Names the operation and Herdr's reason for making no change.
pub fn require_move(moved: &MovedPane, operation: &str) -> (result: Result<(), String>)
    ensures
        match result {
            Ok(()) => moved.changed,
            Err(message) => !moved.changed && message@ == no_change_message(
                operation@,
                optional_text(moved.reason),
            ),
        },
{
    if moved.changed {
        return Ok(());
    }
    let reason = match &moved.reason {
        Some(reason) => reason.as_str(),
        None => "unknown reason",
    };
    let opening = join3(operation, ": pane move made no change (", reason);
    Err(join2(opening.as_str(), ")"))
}

/// Refuses to start while an interrupted rebuild's journal remains.
///
/// # Errors
///
/// Returns an error when the journal exists.
pub fn ensure_recovered(journal_exists: bool) -> (result: Result<(), String>)
    ensures
        result is Ok <==> !journal_exists,
        result matches Err(message) ==> message@
            == "an interrupted rebuild must be recovered first"@,
{
    if journal_exists {
        return Err("an interrupted rebuild must be recovered first".to_owned());
    }
    Ok(())
}

/// How `{:?}` writes a boolean.
pub open spec fn bool_text(value: bool) -> Seq<char> {
    if value {
        "true"@
    } else {
        "false"@
    }
}

/// The comma-separated items of a child path.
pub open spec fn path_items(path: Seq<bool>) -> Seq<char>
    decreases path.len(),
{
    if path.len() == 0 {
        seq![]
    } else if path.len() == 1 {
        bool_text(path[0])
    } else {
        path_items(path.drop_last()) + ", "@ + bool_text(path.last())
    }
}

/// How `{:?}` writes a child path, such as `[false, true]`.
pub open spec fn debug_path(path: Seq<bool>) -> Seq<char> {
    "["@ + path_items(path) + "]"@
}

/// Writes a child path as `{:?}` does.
pub fn debug_path_text(path: &Vec<bool>) -> (text: String)
    ensures
        text@ == debug_path(path@),
{
    let mut items = "".to_owned();
    proof {
        reveal_strlit("");
        assert(path@.take(0) =~= Seq::<bool>::empty());
    }
    let mut i: usize = 0;
    while i < path.len()
        invariant
            i <= path@.len(),
            items@ == path_items(path@.take(i as int)),
        decreases path@.len() - i,
    {
        let value = if path[i] {
            "true"
        } else {
            "false"
        };
        if i > 0 {
            items.append(", ");
        }
        items.append(value);
        proof {
            assert(path@.take(i + 1).drop_last() =~= path@.take(i as int));
            if i == 0 {
                assert(items@ =~= bool_text(path@[0]));
            }
        }
        i = i + 1;
    }
    proof {
        assert(path@.take(path@.len() as int) =~= path@);
    }
    join3("[", items.as_str(), "]")
}


/// A Herdr call that a rebuild asks its driver to make.
#[derive(Debug)]
pub enum Call {
    /// `pane.move` into a new tab of a workspace.
    MoveToNewTab { pane_id: String, workspace_id: String },
    /// `pane.move` beside a pane of an existing tab.
    MoveToTab {
        pane_id: String,
        tab_id: String,
        target_pane_id: String,
        split: SplitDirection,
        ratio: Ratio,
    },
    /// `layout.set_split_ratio`.
    SetSplitRatio { tab_id: String, path: Vec<bool>, ratio: Ratio },
    /// `pane.focus`.
    Focus { pane_id: String },
    /// `pane.zoom`.
    Zoom { pane_id: String, zoomed: bool },
    /// `layout.export` of the tab holding a pane.
    ExportLayout { pane_id: String },
}

/// What a rebuild asks its driver to do next.
#[derive(Debug)]
pub enum Effect {
    /// Make a Herdr call and report its outcome.
    Call(Call),
    /// Write the recovery journal and report the outcome.
    SaveJournal(Journal),
    /// Delete the recovery journal and report the outcome.
    RemoveJournal,
    /// Stop: the rebuild is over, with this result.
    Finish(Result<(), String>),
}

/// The outcome a driver reports for the last effect. Failures carry the
/// error's text.
#[derive(Debug)]
pub enum Event {
    /// A journal write or removal, or a call without a result, ended.
    Done(Result<(), String>),
    /// A `pane.move` ended.
    Moved(Result<MovedPane, String>),
    /// A `layout.export` ended.
    Exported(Result<Layout, String>),
}

/// Where a rebuild stands.
#[derive(Debug)]
pub enum Phase {
    /// Saving the first journal of an apply.
    SaveStart,
    /// Recovery: turning zoom off on the pane that anchors the original tab.
    ReleaseZoom,
    /// Recovery: moving the plan's anchor back beside that pane.
    MoveAnchor,
    /// Recovery: saving the journal with the plan's anchor.
    SaveAnchor,
    /// Running the plan command with this index.
    Run(usize),
    /// Recording that the plan command with this index completed.
    Record(usize),
    /// Exporting the tab to compare it with the target tree.
    Verify,
    /// Removing the journal after a successful rebuild.
    Clean,
    /// Over, with this result.
    Finished(Result<(), String>),
}

/// A rebuild in progress: the plan that rebuilds `target`, the journal that
/// records its progress, and the scratch tab that holds parked panes.
#[derive(Debug)]
pub struct Rebuild {
    plan: Plan,
    journal: Journal,
    target: Layout,
    scratch_tab_id: Option<String>,
    phase: Phase,
}

/// The mathematical value of a [`MovedPane`].
pub struct MovedPaneView {
    pub changed: bool,
    pub pane_id: Seq<char>,
    pub reason: Option<Seq<char>>,
    pub tab_id: Seq<char>,
}

/// The mathematical value of a [`Call`].
pub enum CallView {
    MoveToNewTab { pane_id: Seq<char>, workspace_id: Seq<char> },
    MoveToTab {
        pane_id: Seq<char>,
        tab_id: Seq<char>,
        target_pane_id: Seq<char>,
        split: SplitDirection,
        ratio: u32,
    },
    SetSplitRatio { tab_id: Seq<char>, path: Seq<bool>, ratio: u32 },
    Focus { pane_id: Seq<char> },
    Zoom { pane_id: Seq<char>, zoomed: bool },
    ExportLayout { pane_id: Seq<char> },
}

/// The mathematical value of an [`Effect`].
pub enum EffectView {
    Call(CallView),
    SaveJournal(JournalView),
    RemoveJournal,
    Finish(Result<(), Seq<char>>),
}

/// The mathematical value of an [`Event`].
pub enum EventView {
    Done(Result<(), Seq<char>>),
    Moved(Result<MovedPaneView, Seq<char>>),
    Exported(Result<LayoutView, Seq<char>>),
}

/// The mathematical value of a [`Phase`].
pub enum PhaseView {
    SaveStart,
    ReleaseZoom,
    MoveAnchor,
    SaveAnchor,
    Run(nat),
    Record(nat),
    Verify,
    Clean,
    Finished(Result<(), Seq<char>>),
}

/// The mathematical value of a [`Rebuild`].
pub struct RebuildView {
    pub anchor: Seq<char>,
    pub steps: Seq<Step>,
    pub journal: JournalView,
    pub target: LayoutView,
    pub scratch: Option<Seq<char>>,
    pub phase: PhaseView,
}

/// The value of a result whose error is text.
pub open spec fn outcome_text(result: Result<(), String>) -> Result<(), Seq<char>> {
    match result {
        Ok(()) => Ok(()),
        Err(message) => Err(message@),
    }
}

impl View for MovedPane {
    type V = MovedPaneView;

    open spec fn view(&self) -> MovedPaneView {
        MovedPaneView {
            changed: self.changed,
            pane_id: self.pane_id@,
            reason: optional_text(self.reason),
            tab_id: self.tab_id@,
        }
    }
}

impl View for Call {
    type V = CallView;

    open spec fn view(&self) -> CallView {
        match self {
            Call::MoveToNewTab { pane_id, workspace_id } => CallView::MoveToNewTab {
                pane_id: pane_id@,
                workspace_id: workspace_id@,
            },
            Call::MoveToTab { pane_id, tab_id, target_pane_id, split, ratio } => CallView::MoveToTab {
                pane_id: pane_id@,
                tab_id: tab_id@,
                target_pane_id: target_pane_id@,
                split: *split,
                ratio: ratio.pattern(),
            },
            Call::SetSplitRatio { tab_id, path, ratio } => CallView::SetSplitRatio {
                tab_id: tab_id@,
                path: path@,
                ratio: ratio.pattern(),
            },
            Call::Focus { pane_id } => CallView::Focus { pane_id: pane_id@ },
            Call::Zoom { pane_id, zoomed } => CallView::Zoom { pane_id: pane_id@, zoomed: *zoomed },
            Call::ExportLayout { pane_id } => CallView::ExportLayout { pane_id: pane_id@ },
        }
    }
}

impl View for Effect {
    type V = EffectView;

    open spec fn view(&self) -> EffectView {
        match self {
            Effect::Call(call) => EffectView::Call(call@),
            Effect::SaveJournal(journal) => EffectView::SaveJournal(journal@),
            Effect::RemoveJournal => EffectView::RemoveJournal,
            Effect::Finish(result) => EffectView::Finish(outcome_text(*result)),
        }
    }
}

impl View for Event {
    type V = EventView;

    open spec fn view(&self) -> EventView {
        match self {
            Event::Done(result) => EventView::Done(outcome_text(*result)),
            Event::Moved(result) => EventView::Moved(
                match result {
                    Ok(moved) => Ok(moved@),
                    Err(message) => Err(message@),
                },
            ),
            Event::Exported(result) => EventView::Exported(
                match result {
                    Ok(layout) => Ok(layout@),
                    Err(message) => Err(message@),
                },
            ),
        }
    }
}

impl View for Phase {
    type V = PhaseView;

    open spec fn view(&self) -> PhaseView {
        match self {
            Phase::SaveStart => PhaseView::SaveStart,
            Phase::ReleaseZoom => PhaseView::ReleaseZoom,
            Phase::MoveAnchor => PhaseView::MoveAnchor,
            Phase::SaveAnchor => PhaseView::SaveAnchor,
            Phase::Run(index) => PhaseView::Run(*index as nat),
            Phase::Record(index) => PhaseView::Record(*index as nat),
            Phase::Verify => PhaseView::Verify,
            Phase::Clean => PhaseView::Clean,
            Phase::Finished(result) => PhaseView::Finished(outcome_text(*result)),
        }
    }
}

impl View for Rebuild {
    type V = RebuildView;

    closed spec fn view(&self) -> RebuildView {
        RebuildView {
            anchor: self.plan.anchor_pane_id@,
            steps: self.plan.commands.deep_view(),
            journal: self.journal@,
            target: self.target@,
            scratch: optional_text(self.scratch_tab_id),
            phase: self.phase@,
        }
    }
}

/// The even split Herdr uses when parking and anchoring.
pub open spec fn half() -> u32 {
    0x3F00_0000
}

/// The message when a plan would park a pane before opening the scratch tab.
pub open spec fn park_first_message() -> Seq<char> {
    "rebuild plan parks a pane before opening the scratch tab"@
}

/// The message when the rebuilt tab differs from the target.
pub open spec fn mismatch_message() -> Seq<char> {
    "rebuilt layout differs from the desired tree; recovery journal retained"@
}

/// The call that runs one plan step, if it can run: parking needs the
/// scratch tab.
pub open spec fn call_for(step: Step, state: RebuildView) -> Option<CallView> {
    let original = state.journal.original;
    match step {
        Step::OpenScratch { pane_id } => Some(
            CallView::MoveToNewTab { pane_id, workspace_id: original.workspace_id },
        ),
        Step::Park { pane_id, target_pane_id } => match state.scratch {
            Some(tab_id) => Some(
                CallView::MoveToTab {
                    pane_id,
                    tab_id,
                    target_pane_id,
                    split: SplitDirection::Right,
                    ratio: half(),
                },
            ),
            None => None,
        },
        Step::Place { pane_id, target_pane_id, direction, ratio } => Some(
            CallView::MoveToTab {
                pane_id,
                tab_id: original.tab_id,
                target_pane_id,
                split: direction,
                ratio,
            },
        ),
        Step::SetRatio { path, ratio } => Some(
            CallView::SetSplitRatio { tab_id: original.tab_id, path, ratio },
        ),
        Step::Focus { pane_id } => Some(CallView::Focus { pane_id }),
        Step::Zoom { pane_id, zoomed } => Some(CallView::Zoom { pane_id, zoomed }),
    }
}

/// What a rebuild in state `state` asks its driver to do.
pub open spec fn effect_of(state: RebuildView) -> EffectView {
    match state.phase {
        PhaseView::SaveStart | PhaseView::SaveAnchor | PhaseView::Record(_) => EffectView::SaveJournal(
            state.journal,
        ),
        PhaseView::ReleaseZoom => EffectView::Call(
            CallView::Zoom { pane_id: state.journal.active_anchor, zoomed: false },
        ),
        PhaseView::MoveAnchor => EffectView::Call(
            CallView::MoveToTab {
                pane_id: state.anchor,
                tab_id: state.journal.original.tab_id,
                target_pane_id: state.journal.active_anchor,
                split: SplitDirection::Right,
                ratio: half(),
            },
        ),
        PhaseView::Run(index) => match call_for(state.steps[index as int], state) {
            Some(call) => EffectView::Call(call),
            None => EffectView::Finish(Err(park_first_message())),
        },
        PhaseView::Verify => EffectView::Call(
            CallView::ExportLayout { pane_id: state.target.focused_pane_id },
        ),
        PhaseView::Clean => EffectView::RemoveJournal,
        PhaseView::Finished(result) => EffectView::Finish(result),
    }
}

/// Whether the plan step answers with a `pane.move` result.
pub open spec fn is_move(step: Step) -> bool {
    step is OpenScratch || step is Park || step is Place
}

/// Whether `event` reports on the effect a rebuild in `state` asked for.
pub open spec fn accepts(state: RebuildView, event: EventView) -> bool {
    match state.phase {
        PhaseView::SaveStart | PhaseView::SaveAnchor | PhaseView::Record(_) | PhaseView::Clean
        | PhaseView::ReleaseZoom => event is Done,
        PhaseView::MoveAnchor => event is Moved,
        PhaseView::Run(index) => {
            let step = state.steps[index as int];
            &&& call_for(step, state) is Some
            &&& if is_move(step) {
                event is Moved
            } else {
                event is Done
            }
        },
        PhaseView::Verify => event is Exported,
        PhaseView::Finished(_) => false,
    }
}

/// The rebuild over with an error.
pub open spec fn failed(state: RebuildView, message: Seq<char>) -> RebuildView {
    RebuildView { phase: PhaseView::Finished(Err(message)), ..state }
}

/// The rebuild after plan command `index` completed: the journal records it.
pub open spec fn completed(state: RebuildView, index: nat) -> RebuildView {
    RebuildView {
        journal: JournalView { completed_step: index + 1, ..state.journal },
        phase: PhaseView::Record(index),
        ..state
    }
}

/// The rebuild after a `pane.move` for a plan command whose failures read
/// `operation`.
pub open spec fn after_move(
    state: RebuildView,
    index: nat,
    operation: Seq<char>,
    outcome: Result<MovedPaneView, Seq<char>>,
) -> RebuildView {
    match outcome {
        Err(message) => failed(state, operation + ": "@ + message),
        Ok(moved) => if !moved.changed {
            failed(state, no_change_message(operation, moved.reason))
        } else {
            completed(state, index)
        },
    }
}

/// The rebuild after a call without a result for a plan command whose
/// failures read `context`.
pub open spec fn after_call(
    state: RebuildView,
    index: nat,
    context: Seq<char>,
    outcome: Result<(), Seq<char>>,
) -> RebuildView {
    match outcome {
        Err(message) => failed(state, context + ": "@ + message),
        Ok(()) => completed(state, index),
    }
}

/// The rebuild after plan command `index` reported `event`.
pub open spec fn after_command(state: RebuildView, index: nat, event: EventView) -> RebuildView {
    match (state.steps[index as int], event) {
        (Step::OpenScratch { pane_id }, EventView::Moved(outcome)) => {
            let next = after_move(state, index, "park pane "@ + pane_id, outcome);
            match outcome {
                Ok(moved) if moved.changed => RebuildView { scratch: Some(moved.tab_id), ..next },
                _ => next,
            }
        },
        (Step::Park { pane_id, .. }, EventView::Moved(outcome)) => after_move(
            state,
            index,
            "park pane "@ + pane_id,
            outcome,
        ),
        (Step::Place { pane_id, .. }, EventView::Moved(outcome)) => after_move(
            state,
            index,
            "place pane "@ + pane_id,
            outcome,
        ),
        (Step::SetRatio { path, .. }, EventView::Done(outcome)) => after_call(
            state,
            index,
            "restore split ratio at "@ + debug_path(path),
            outcome,
        ),
        (Step::Focus { pane_id }, EventView::Done(outcome)) => after_call(
            state,
            index,
            "restore focus to "@ + pane_id,
            outcome,
        ),
        (Step::Zoom { pane_id, .. }, EventView::Done(outcome)) => after_call(
            state,
            index,
            "restore zoom for "@ + pane_id,
            outcome,
        ),
        _ => state,
    }
}

/// The rebuild after its driver reported `event` on the last effect.
pub open spec fn resumed(state: RebuildView, event: EventView) -> RebuildView {
    match (state.phase, event) {
        (PhaseView::SaveStart, EventView::Done(outcome)) | (
            PhaseView::SaveAnchor,
            EventView::Done(outcome),
        ) => match outcome {
            Ok(()) => RebuildView { phase: PhaseView::Run(0), ..state },
            Err(message) => failed(state, message),
        },
        (PhaseView::ReleaseZoom, EventView::Done(outcome)) => match outcome {
            Ok(()) => RebuildView { phase: PhaseView::MoveAnchor, ..state },
            Err(message) => failed(state, "disable zoom before recovery: "@ + message),
        },
        (PhaseView::MoveAnchor, EventView::Moved(outcome)) => match outcome {
            Err(message) => failed(state, "prepare recovery anchor: "@ + message),
            Ok(moved) => if !moved.changed && moved.reason != Some("same_tab"@) {
                failed(state, no_change_message("prepare recovery anchor"@, moved.reason))
            } else {
                RebuildView {
                    journal: JournalView {
                        active_anchor: state.anchor,
                        completed_step: 0,
                        ..state.journal
                    },
                    phase: PhaseView::SaveAnchor,
                    ..state
                }
            },
        },
        (PhaseView::Run(index), _) => after_command(state, index, event),
        (PhaseView::Record(index), EventView::Done(outcome)) => match outcome {
            Ok(()) => if index + 1 < state.steps.len() {
                RebuildView { phase: PhaseView::Run(index + 1), ..state }
            } else {
                RebuildView { phase: PhaseView::Verify, ..state }
            },
            Err(message) => failed(state, message),
        },
        (PhaseView::Verify, EventView::Exported(outcome)) => match outcome {
            Err(message) => failed(state, "verify rebuilt layout: "@ + message),
            Ok(actual) => if same_layout(actual, state.target) {
                RebuildView { phase: PhaseView::Clean, ..state }
            } else {
                failed(state, mismatch_message())
            },
        },
        (PhaseView::Clean, EventView::Done(outcome)) => RebuildView {
            phase: PhaseView::Finished(outcome),
            ..state
        },
        _ => state,
    }
}

/// The invariant of a rebuild: its plan is the compiled plan of its target,
/// and a running or recording phase names a command of the plan.
pub open spec fn well_formed(state: RebuildView) -> bool {
    &&& rebuild_refusal(state.target) is None
    &&& state.anchor == first_pane(state.target.root)
    &&& state.steps == plan_steps(state.target)
    &&& state.steps.len() >= 2
    &&& (state.phase matches PhaseView::Run(index) ==> index < state.steps.len())
    &&& (state.phase matches PhaseView::Record(index) ==> index < state.steps.len()
        && state.journal.completed_step == index + 1)
}


/// Starts rebuilding `desired` from `original`, which must address the same
/// tab and hold the same panes. The first effect saves a journal holding
/// `original`, anchored by the desired tree's first pane.
///
/// # Errors
///
/// Returns an error for incompatible layouts or a desired tree that cannot
/// be rebuilt.
pub fn apply(original: &Layout, desired: &Layout) -> (result: Result<Rebuild, String>)
    ensures
        match result {
            Ok(rebuild) => {
                &&& compatibility_problem(original@, desired@) is None
                &&& rebuild_refusal(desired@) is None
                &&& well_formed(rebuild@)
                &&& rebuild@ == RebuildView {
                    anchor: first_pane(desired@.root),
                    steps: plan_steps(desired@),
                    journal: JournalView {
                        original: original@,
                        active_anchor: first_pane(desired@.root),
                        completed_step: 0,
                    },
                    target: desired@,
                    scratch: None,
                    phase: PhaseView::SaveStart,
                }
            },
            Err(message) => match compatibility_problem(original@, desired@) {
                Some(problem) => message@ == problem,
                None => rebuild_refusal(desired@) == Some(message@),
            },
        },
{
    validate_compatible(original, desired)?;
    let plan = compile(desired)?;
    proof {
        crate::tree::lemma_panes_nonempty(desired.root@);
    }
    let journal = Journal {
        original: original.copy(),
        active_anchor: plan.anchor_pane_id.clone(),
        completed_step: 0,
    };
    Ok(Rebuild { plan, journal, target: desired.copy(), scratch_tab_id: None, phase: Phase::SaveStart })
}

/// Resumes an interrupted rebuild from its journal, if one remains; with no
/// journal there is nothing to recover, so repeating a recovery after it
/// succeeded (and removed its journal) does nothing. The plan rebuilds the
/// journal's original tree from its start, however far the interrupted run
/// got. When another pane anchors the original tab, the plan's anchor is
/// first moved back beside it.
///
/// # Errors
///
/// Returns an error when the journal's tree cannot be rebuilt.
pub fn recover(journal: Option<Journal>) -> (result: Result<Option<Rebuild>, String>)
    ensures
        match journal {
            None => result matches Ok(None),
            Some(journal) => match result {
                Ok(Some(rebuild)) => {
                    &&& rebuild_refusal(journal@.original) is None
                    &&& well_formed(rebuild@)
                    &&& rebuild@ == RebuildView {
                        anchor: first_pane(journal@.original.root),
                        steps: plan_steps(journal@.original),
                        journal: journal@,
                        target: journal@.original,
                        scratch: None,
                        phase: if journal@.active_anchor != first_pane(journal@.original.root) {
                            PhaseView::ReleaseZoom
                        } else {
                            PhaseView::Run(0)
                        },
                    }
                },
                Ok(None) => false,
                Err(message) => rebuild_refusal(journal@.original) == Some(message@),
            },
        },
{
    let journal = match journal {
        Some(journal) => journal,
        None => {
            return Ok(None);
        },
    };
    let plan = compile(&journal.original)?;
    let target = journal.original.copy();
    let phase = if journal.active_anchor != plan.anchor_pane_id {
        Phase::ReleaseZoom
    } else {
        Phase::Run(0)
    };
    Ok(Some(Rebuild { plan, journal, target, scratch_tab_id: None, phase }))
}

impl Rebuild {
    /// What the driver should do next.
    pub fn effect(&self) -> (effect: Effect)
        requires
            well_formed(self@),
        ensures
            effect@ == effect_of(self@),
    {
        match &self.phase {
            Phase::SaveStart | Phase::SaveAnchor | Phase::Record(_) => Effect::SaveJournal(
                self.journal.copy(),
            ),
            Phase::ReleaseZoom => Effect::Call(
                Call::Zoom { pane_id: self.journal.active_anchor.clone(), zoomed: false },
            ),
            Phase::MoveAnchor => Effect::Call(
                Call::MoveToTab {
                    pane_id: self.plan.anchor_pane_id.clone(),
                    tab_id: self.journal.original.tab_id.clone(),
                    target_pane_id: self.journal.active_anchor.clone(),
                    split: SplitDirection::Right,
                    ratio: Ratio::half(),
                },
            ),
            Phase::Run(index) => {
                let index = *index;
                match self.call(index) {
                    Some(call) => Effect::Call(call),
                    None => Effect::Finish(
                        Err("rebuild plan parks a pane before opening the scratch tab".to_owned()),
                    ),
                }
            },
            Phase::Verify => Effect::Call(
                Call::ExportLayout { pane_id: self.target.focused_pane_id.clone() },
            ),
            Phase::Clean => Effect::RemoveJournal,
            Phase::Finished(result) => Effect::Finish(
                match result {
                    Ok(()) => Ok(()),
                    Err(message) => Err(message.clone()),
                },
            ),
        }
    }

    fn call(&self, index: usize) -> (call: Option<Call>)
        requires
            index < self@.steps.len(),
        ensures
            match (call, call_for(self@.steps[index as int], self@)) {
                (Some(call), Some(model)) => call@ == model,
                (None, None) => true,
                _ => false,
            },
    {
        let original = &self.journal.original;
        proof {
            assert(self.plan.commands@[index as int]@ == self@.steps[index as int]);
        }
        match &self.plan.commands[index] {
            Command::OpenScratch { pane_id } => Some(
                Call::MoveToNewTab {
                    pane_id: pane_id.clone(),
                    workspace_id: original.workspace_id.clone(),
                },
            ),
            Command::Park { pane_id, target_pane_id } => match &self.scratch_tab_id {
                Some(tab_id) => Some(
                    Call::MoveToTab {
                        pane_id: pane_id.clone(),
                        tab_id: tab_id.clone(),
                        target_pane_id: target_pane_id.clone(),
                        split: SplitDirection::Right,
                        ratio: Ratio::half(),
                    },
                ),
                None => None,
            },
            Command::Place { pane_id, target_pane_id, direction, ratio } => Some(
                Call::MoveToTab {
                    pane_id: pane_id.clone(),
                    tab_id: original.tab_id.clone(),
                    target_pane_id: target_pane_id.clone(),
                    split: *direction,
                    ratio: *ratio,
                },
            ),
            Command::SetRatio { path, ratio } => Some(
                Call::SetSplitRatio {
                    tab_id: original.tab_id.clone(),
                    path: copy_path(path),
                    ratio: *ratio,
                },
            ),
            Command::Focus { pane_id } => Some(Call::Focus { pane_id: pane_id.clone() }),
            Command::Zoom { pane_id, zoomed } => Some(
                Call::Zoom { pane_id: pane_id.clone(), zoomed: *zoomed },
            ),
        }
    }
}

fn copy_path(path: &Vec<bool>) -> (copy: Vec<bool>)
    ensures
        copy@ == path@,
{
    let mut copy = Vec::new();
    let mut i: usize = 0;
    while i < path.len()
        invariant
            i <= path@.len(),
            copy@ == path@.take(i as int),
        decreases path@.len() - i,
    {
        copy.push(path[i]);
        i = i + 1;
        proof {
            assert(copy@ =~= path@.take(i as int));
        }
    }
    proof {
        assert(copy@ =~= path@);
    }
    copy
}


/// How a plan command ended.
enum CommandEnd {
    /// The rebuild fails with this message.
    Fail(String),
    /// The command completed; a new scratch tab, if it opened one.
    Complete(Option<String>),
}

#[derive(Clone, Copy)]
enum Stage {
    SaveStart,
    ReleaseZoom,
    MoveAnchor,
    SaveAnchor,
    Run(usize),
    Record(usize),
    Verify,
    Clean,
    Finished,
}

/// The end of a plan command that moved a pane, for failures that read
/// `operation`.
fn move_end(operation: String, outcome: Result<MovedPane, String>, opens_scratch: bool) -> (end:
    CommandEnd)
    ensures
        match outcome {
            Err(message) => end matches CommandEnd::Fail(text) && text@ == operation@ + ": "@
                + message@,
            Ok(moved) => if !moved.changed {
                end matches CommandEnd::Fail(text) && text@ == no_change_message(
                    operation@,
                    optional_text(moved.reason),
                )
            } else {
                end matches CommandEnd::Complete(scratch) && optional_text(scratch) == (
                if opens_scratch {
                    Some(moved.tab_id@)
                } else {
                    None
                })
            },
        },
{
    match outcome {
        Err(message) => CommandEnd::Fail(join3(operation.as_str(), ": ", message.as_str())),
        Ok(moved) => match require_move(&moved, operation.as_str()) {
            Err(message) => CommandEnd::Fail(message),
            Ok(()) => CommandEnd::Complete(
                if opens_scratch {
                    Some(moved.tab_id)
                } else {
                    None
                },
            ),
        },
    }
}

/// The end of a plan command without a result, for failures that read
/// `context`.
fn call_end(context: String, outcome: Result<(), String>) -> (end: CommandEnd)
    ensures
        match outcome {
            Err(message) => end matches CommandEnd::Fail(text) && text@ == context@ + ": "@
                + message@,
            Ok(()) => end matches CommandEnd::Complete(scratch) && scratch is None,
        },
{
    match outcome {
        Err(message) => CommandEnd::Fail(join3(context.as_str(), ": ", message.as_str())),
        Ok(()) => CommandEnd::Complete(None),
    }
}

impl Rebuild {
    fn stage(&self) -> (stage: Stage)
        ensures
            match (stage, self@.phase) {
                (Stage::SaveStart, PhaseView::SaveStart) => true,
                (Stage::ReleaseZoom, PhaseView::ReleaseZoom) => true,
                (Stage::MoveAnchor, PhaseView::MoveAnchor) => true,
                (Stage::SaveAnchor, PhaseView::SaveAnchor) => true,
                (Stage::Run(i), PhaseView::Run(j)) => i == j,
                (Stage::Record(i), PhaseView::Record(j)) => i == j,
                (Stage::Verify, PhaseView::Verify) => true,
                (Stage::Clean, PhaseView::Clean) => true,
                (Stage::Finished, PhaseView::Finished(_)) => true,
                _ => false,
            },
    {
        match &self.phase {
            Phase::SaveStart => Stage::SaveStart,
            Phase::ReleaseZoom => Stage::ReleaseZoom,
            Phase::MoveAnchor => Stage::MoveAnchor,
            Phase::SaveAnchor => Stage::SaveAnchor,
            Phase::Run(index) => Stage::Run(*index),
            Phase::Record(index) => Stage::Record(*index),
            Phase::Verify => Stage::Verify,
            Phase::Clean => Stage::Clean,
            Phase::Finished(_) => Stage::Finished,
        }
    }

    fn command_end(&self, index: usize, event: Event) -> (end: CommandEnd)
        requires
            index < self@.steps.len(),
            accepts(RebuildView { phase: PhaseView::Run(index as nat), ..self@ }, event@),
        ensures
            ({
                let state = RebuildView { phase: PhaseView::Run(index as nat), ..self@ };
                let next = after_command(state, index as nat, event@);
                match end {
                    CommandEnd::Fail(message) => next == failed(state, message@),
                    CommandEnd::Complete(scratch) => next == RebuildView {
                        scratch: match scratch {
                            Some(tab) => Some(tab@),
                            None => state.scratch,
                        },
                        ..completed(state, index as nat)
                    },
                }
            }),
    {
        proof {
            assert(self.plan.commands@[index as int]@ == self@.steps[index as int]);
        }
        match (&self.plan.commands[index], event) {
            (Command::OpenScratch { pane_id }, Event::Moved(outcome)) => move_end(
                join2("park pane ", pane_id.as_str()),
                outcome,
                true,
            ),
            (Command::Park { pane_id, .. }, Event::Moved(outcome)) => move_end(
                join2("park pane ", pane_id.as_str()),
                outcome,
                false,
            ),
            (Command::Place { pane_id, .. }, Event::Moved(outcome)) => move_end(
                join2("place pane ", pane_id.as_str()),
                outcome,
                false,
            ),
            (Command::SetRatio { path, .. }, Event::Done(outcome)) => {
                let shown = debug_path_text(path);
                call_end(join2("restore split ratio at ", shown.as_str()), outcome)
            },
            (Command::Focus { pane_id }, Event::Done(outcome)) => call_end(
                join2("restore focus to ", pane_id.as_str()),
                outcome,
            ),
            (Command::Zoom { pane_id, .. }, Event::Done(outcome)) => call_end(
                join2("restore zoom for ", pane_id.as_str()),
                outcome,
            ),
            _ => CommandEnd::Complete(None),
        }
    }

    /// Advances the rebuild with the outcome of the last effect.
    pub fn resume(&mut self, event: Event)
        requires
            well_formed(old(self)@),
            accepts(old(self)@, event@),
        ensures
            well_formed(final(self)@),
            final(self)@ == resumed(old(self)@, event@),
    {
        let ghost start = self@;
        match (self.stage(), event) {
            (Stage::SaveStart, Event::Done(outcome)) | (Stage::SaveAnchor, Event::Done(outcome)) => {
                match outcome {
                    Ok(()) => {
                        self.phase = Phase::Run(0);
                    },
                    Err(message) => {
                        self.phase = Phase::Finished(Err(message));
                    },
                }
            },
            (Stage::ReleaseZoom, Event::Done(outcome)) => {
                match outcome {
                    Ok(()) => {
                        self.phase = Phase::MoveAnchor;
                    },
                    Err(message) => {
                        self.phase = Phase::Finished(
                            Err(join2("disable zoom before recovery: ", message.as_str())),
                        );
                    },
                }
            },
            (Stage::MoveAnchor, Event::Moved(outcome)) => {
                match outcome {
                    Err(message) => {
                        self.phase = Phase::Finished(
                            Err(join2("prepare recovery anchor: ", message.as_str())),
                        );
                    },
                    Ok(moved) => {
                        let same_tab = match &moved.reason {
                            Some(reason) => same_text(reason.as_str(), "same_tab"),
                            None => false,
                        };
                        if !moved.changed && !same_tab {
                            let refused = require_move(&moved, "prepare recovery anchor");
                            match refused {
                                Err(message) => {
                                    self.phase = Phase::Finished(Err(message));
                                },
                                Ok(()) => {},
                            }
                        } else {
                            self.journal.active_anchor = self.plan.anchor_pane_id.clone();
                            self.journal.completed_step = 0;
                            self.phase = Phase::SaveAnchor;
                        }
                    },
                }
            },
            (Stage::Run(index), event) => {
                let count = self.plan.commands.len();
                assert(index < count);
                match self.command_end(index, event) {
                    CommandEnd::Fail(message) => {
                        self.phase = Phase::Finished(Err(message));
                    },
                    CommandEnd::Complete(scratch) => {
                        if let Some(tab) = scratch {
                            self.scratch_tab_id = Some(tab);
                        }
                        self.journal.completed_step = index + 1;
                        self.phase = Phase::Record(index);
                    },
                }
            },
            (Stage::Record(index), Event::Done(outcome)) => {
                match outcome {
                    Ok(()) => {
                        if index + 1 < self.plan.commands.len() {
                            self.phase = Phase::Run(index + 1);
                        } else {
                            self.phase = Phase::Verify;
                        }
                    },
                    Err(message) => {
                        self.phase = Phase::Finished(Err(message));
                    },
                }
            },
            (Stage::Verify, Event::Exported(outcome)) => {
                match outcome {
                    Err(message) => {
                        self.phase = Phase::Finished(
                            Err(join2("verify rebuilt layout: ", message.as_str())),
                        );
                    },
                    Ok(actual) => {
                        if actual.same_as(&self.target) {
                            self.phase = Phase::Clean;
                        } else {
                            self.phase = Phase::Finished(
                                Err(
                                    "rebuilt layout differs from the desired tree; recovery journal retained".to_owned(),
                                ),
                            );
                        }
                    },
                }
            },
            (Stage::Clean, Event::Done(outcome)) => {
                self.phase = Phase::Finished(outcome);
            },
            _ => {},
        }
    }
}

} // verus!

verus! {

/// A rebuild never changes the tree its journal restores, its target or its
/// plan: every journal it writes holds the original layout it started from.
pub proof fn lemma_resume_keeps_journal_original(state: RebuildView, event: EventView)
    requires
        well_formed(state),
        accepts(state, event),
    ensures
        resumed(state, event).journal.original == state.journal.original,
        resumed(state, event).target == state.target,
        resumed(state, event).steps == state.steps,
        resumed(state, event).anchor == state.anchor,
        well_formed(resumed(state, event)),
{
}

/// The journal is removed only after the exported tab matched the target:
/// a rebuild enters the phase that removes the journal only from the
/// verification phase, on an export equal to its target (ratios compared by
/// value).
pub proof fn lemma_journal_removed_only_after_match(state: RebuildView, event: EventView)
    requires
        well_formed(state),
        accepts(state, event),
        resumed(state, event).phase is Clean,
    ensures
        state.phase is Verify,
        event matches EventView::Exported(Ok(actual)) && same_layout(actual, state.target),
{
}

/// A rebuild succeeds only by removing its journal: it finishes with `Ok`
/// only from the cleaning phase, on a successful removal.
pub proof fn lemma_success_only_after_removal(state: RebuildView, event: EventView)
    requires
        well_formed(state),
        accepts(state, event),
        resumed(state, event).phase == PhaseView::Finished(Ok(())),
    ensures
        state.phase is Clean,
        event == EventView::Done(Ok(())),
{
}

/// Plan commands run in order, each only after the journal recorded the one
/// before it: command `i + 1` starts only from recording command `i`, and the
/// first command only after a journal write of an anchor with nothing
/// completed.
pub proof fn lemma_commands_run_in_order(state: RebuildView, event: EventView, index: nat)
    requires
        well_formed(state),
        accepts(state, event),
        state.phase != PhaseView::Run(index),
        resumed(state, event).phase == PhaseView::Run(index),
    ensures
        event matches EventView::Done(outcome) && outcome is Ok,
        index == 0 ==> state.phase is SaveStart || state.phase is SaveAnchor,
        index > 0 ==> state.phase == PhaseView::Record((index - 1) as nat),
{
    if let PhaseView::Run(current) = state.phase {
        assert(after_command(state, current, event).phase is Record || after_command(
            state,
            current,
            event,
        ).phase is Finished);
    }
}

/// Each journal write after a plan command records exactly the commands
/// completed so far, with the original layout.
pub proof fn lemma_record_saves_progress(state: RebuildView, index: nat)
    requires
        well_formed(state),
        state.phase == PhaseView::Record(index),
    ensures
        effect_of(state) matches EffectView::SaveJournal(journal) && journal.completed_step == index
            + 1 && journal.original == state.journal.original,
{
}

/// A finished rebuild accepts no further event, and what it asks for is to
/// stop with its result.
pub proof fn lemma_finished_is_final(state: RebuildView, event: EventView, result: Result<(), Seq<char>>)
    requires
        state.phase == PhaseView::Finished(result),
    ensures
        !accepts(state, event),
        effect_of(state) == EffectView::Finish(result),
{
}

} // verus!

verus! {

/// Recovery brings the plan's anchor home: while a journal names another
/// pane as holding the original tab, the anchoring call moves the compiled
/// plan's anchor (the original tree's first pane) into the original tab,
/// beside the pane the journal names, with an even split to the right; once
/// that move succeeds, the journal records the plan's anchor as the one in
/// the tab, with nothing of the plan completed.
pub proof fn lemma_recovery_brings_the_plan_anchor_home(state: RebuildView, moved: MovedPaneView)
    requires
        well_formed(state),
        state.phase is MoveAnchor,
        moved.changed,
    ensures
        effect_of(state) == EffectView::Call(
            CallView::MoveToTab {
                pane_id: first_pane(state.target.root),
                tab_id: state.journal.original.tab_id,
                target_pane_id: state.journal.active_anchor,
                split: SplitDirection::Right,
                ratio: 0x3F00_0000,
            },
        ),
        resumed(state, EventView::Moved(Ok(moved))).journal == (JournalView {
            original: state.journal.original,
            active_anchor: first_pane(state.target.root),
            completed_step: 0,
        }),
        resumed(state, EventView::Moved(Ok(moved))).phase is SaveAnchor,
{
}

} // verus!

verus! {

/// The `pane.move` a `MoveToTab` call asks Herdr for, read as a placement:
/// the moved pane goes beside the target, along the call's split axis, at
/// its ratio.
pub open spec fn move_as_place(call: CallView) -> Step {
    match call {
        CallView::MoveToTab { pane_id, target_pane_id, split, ratio, .. } => Step::Place {
            pane_id,
            target_pane_id,
            direction: split,
            ratio,
        },
        _ => Step::Focus { pane_id: seq![] },
    }
}

/// The call a rebuild makes when it runs its `k`-th placement, which comes
/// after one command per pane (zoom, scratch tab, parking).
pub open spec fn placing_call(state: RebuildView, k: int) -> CallView {
    effect_of(
        RebuildView {
            phase: PhaseView::Run((panes(state.target.root).len() + k) as nat),
            ..state
        },
    )->Call_0
}

/// The moves a rebuild issues rebuild its target: each placement call is a
/// `pane.move` into the original tab, and replaying those moves in order on
/// a tab that holds only the plan's anchor yields exactly the target tree,
/// axes and ratios included.
pub proof fn lemma_issued_moves_rebuild_the_target(state: RebuildView)
    requires
        well_formed(state),
    ensures
        forall|k: int|
            0 <= k < split_count(state.target.root) ==> (#[trigger] placing_call(
                state,
                k,
            )) is MoveToTab && placing_call(state, k)->MoveToTab_tab_id
                == state.journal.original.tab_id,
        replay(
            Tree::Pane { id: state.anchor },
            Seq::new(
                split_count(state.target.root),
                |k: int| move_as_place(placing_call(state, k)),
            ),
        ) == state.target.root,
{
    let layout = state.target;
    let root = layout.root;
    let ids = panes(root);
    let n = split_count(root);
    lemma_panes_nonempty(root);
    lemma_placements_are_places(root);
    let issued = Seq::new(n, |k: int| move_as_place(placing_call(state, k)));
    if ids.len() >= 2 {
        let steps = plan_steps(layout);
        let start = seq![
            Step::Zoom { pane_id: layout.focused_pane_id, zoomed: false },
            Step::OpenScratch { pane_id: ids[1] },
        ] + parking(ids);
        let places = placements(root);
        assert(steps =~= start + places + ratio_steps(root, seq![]) + seq![
            Step::Focus { pane_id: layout.focused_pane_id },
            Step::Zoom { pane_id: layout.focused_pane_id, zoomed: layout.zoomed },
        ]);
        assert(start.len() == ids.len());
        assert forall|k: int| 0 <= k < n implies (#[trigger] placing_call(state, k)) is MoveToTab
            && placing_call(state, k)->MoveToTab_tab_id == state.journal.original.tab_id
            && move_as_place(placing_call(state, k)) == places[k] by {
            assert(steps[ids.len() + k] == places[k]);
            assert(places[k] is Place);
        }
        assert(issued =~= places);
        assert(ids.no_duplicates());
        lemma_placements_rebuild_tree(root);
    } else {
        assert(issued =~= Seq::<Step>::empty());
        if let Tree::Split { first, second, .. } = root {
            lemma_panes_nonempty(*first);
            lemma_panes_nonempty(*second);
        }
    }
}

} // verus!
