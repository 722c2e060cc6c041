//! Where a new window goes.

use std::collections::HashSet;

use vstd::prelude::*;

use crate::config;
use crate::config::{is_match, Config, WorkspaceMode};
use crate::ids::WorkspaceId;
use crate::search;
use crate::search::holds;
use crate::text;
use crate::text::parse_u64;

verus! {

/// What the policy reads of a window.
#[derive(Debug, Clone)]
pub struct ToplevelInfoStub {
    pub app_id: String,
    pub title: String,
    /// The outputs that the window is on.
    pub output_ids: Vec<u64>,
    /// Whether the window can be moved at all.
    pub cosmic_toplevel_present: bool,
}

/// What the policy reads of the workspaces.
#[derive(Debug, Clone)]
pub struct WorkspaceStateStub {
    pub groups: Vec<WorkspaceGroupStub>,
}

#[derive(Debug, Clone)]
pub struct WorkspaceGroupStub {
    pub id: u64,
    /// The outputs that the group is shown on.
    pub output_ids: Vec<u64>,
    pub workspaces: Vec<WorkspaceStub>,
    /// Whether the compositor makes workspaces in this group on request.
    pub can_create_workspace: bool,
}

#[derive(Debug, Clone)]
pub struct WorkspaceStub {
    pub id: WorkspaceId,
    /// The windows on this workspace.
    pub toplevel_ids: Vec<u64>,
}

/// The model of a [`ToplevelInfoStub`].
#[verifier::ext_equal]
pub ghost struct InfoView {
    pub app_id: Seq<char>,
    pub title: Seq<char>,
    pub output_ids: Seq<u64>,
    pub cosmic_toplevel_present: bool,
}

/// The model of a [`WorkspaceGroupStub`].
#[verifier::ext_equal]
pub ghost struct GroupView {
    pub id: u64,
    pub output_ids: Seq<u64>,
    pub workspaces: Seq<WorkspaceView>,
    pub can_create_workspace: bool,
}

/// The model of a [`WorkspaceStub`].
#[verifier::ext_equal]
pub ghost struct WorkspaceView {
    pub id: WorkspaceId,
    pub toplevel_ids: Seq<u64>,
}

impl View for ToplevelInfoStub {
    type V = InfoView;

    open spec fn view(&self) -> InfoView {
        InfoView {
            app_id: self.app_id@,
            title: self.title@,
            output_ids: self.output_ids@,
            cosmic_toplevel_present: self.cosmic_toplevel_present,
        }
    }
}

impl View for WorkspaceStub {
    type V = WorkspaceView;

    open spec fn view(&self) -> WorkspaceView {
        WorkspaceView { id: self.id, toplevel_ids: self.toplevel_ids@ }
    }
}

impl View for WorkspaceGroupStub {
    type V = GroupView;

    open spec fn view(&self) -> GroupView {
        GroupView {
            id: self.id,
            output_ids: self.output_ids@,
            workspaces: self.workspaces@.map_values(|w: WorkspaceStub| w@),
            can_create_workspace: self.can_create_workspace,
        }
    }
}

impl View for WorkspaceStateStub {
    type V = Seq<GroupView>;

    open spec fn view(&self) -> Seq<GroupView> {
        self.groups@.map_values(|g: WorkspaceGroupStub| g@)
    }
}

#[derive(Debug, Clone, Copy, PartialEq, Eq, Structural)]
pub enum PlacementAction {
    Skip { reason: SkipReason },
    Place { workspace: WorkspaceTarget, then: PostPlaceActions },
}

/// The workspace to place a window on.
#[derive(Debug, Clone, Copy, PartialEq, Eq, Structural)]
pub enum WorkspaceTarget {
    /// One that exists.
    Existing(WorkspaceId),
    /// One to be made in the selected group.
    Create,
}

/// What follows the move.
#[derive(Debug, Clone, Copy, PartialEq, Eq, Structural)]
pub struct PostPlaceActions {
    pub switch_to: bool,
    pub maximize: bool,
}

#[derive(Debug, Clone, Copy, PartialEq, Eq, Structural)]
pub enum SkipReason {
    AlreadyHandled,
    ExcludedByAppId,
    ExcludedByTitle,
    NoCosmicToplevel,
    NoOutputs,
    NoMatchingGroup,
    WorkspaceModeSame,
}

/// What the operator should hear of a decision.
#[derive(Debug, Clone, Copy, PartialEq, Eq, Structural)]
pub enum PlacementWarn {
    /// The configured output is in no group; the window's own outputs decide.
    WorkspaceOutputFallback,
    /// The group takes no new workspaces; the next free one is used.
    NewEachUnsupported,
}

/// An action, and the warnings that it comes with.
#[derive(Debug, Clone, PartialEq, Eq)]
pub struct PlacementDecision {
    pub action: PlacementAction,
    /// The place of the group that the window goes to; `None` where the window
    /// is left alone.
    pub group: Option<usize>,
    pub warns: Vec<PlacementWarn>,
}

/// The model of a [`PlacementDecision`].
#[verifier::ext_equal]
pub ghost struct DecisionView {
    pub action: PlacementAction,
    pub group: Option<int>,
    pub warns: Seq<PlacementWarn>,
}

impl View for PlacementDecision {
    type V = DecisionView;

    open spec fn view(&self) -> DecisionView {
        DecisionView {
            action: self.action,
            group: match self.group {
                Some(i) => Some(i as int),
                None => None,
            },
            warns: self.warns@,
        }
    }
}

// ---------------------------------------------------------------------------
// The policy
// ---------------------------------------------------------------------------

/// Whether two lists of outputs have one in common.
pub open spec fn share_output(a: Seq<u64>, b: Seq<u64>) -> bool {
    exists|i: int| 0 <= i < a.len() && b.contains(#[trigger] a[i])
}

/// A group on the output `output`.
pub open spec fn is_on(output: u64) -> spec_fn(GroupView) -> bool {
    |g: GroupView| g.output_ids.contains(output)
}

/// A group that shares an output with `outputs`.
pub open spec fn is_on_any(outputs: Seq<u64>) -> spec_fn(GroupView) -> bool {
    |g: GroupView| share_output(g.output_ids, outputs)
}

/// The identifier of a group.
pub open spec fn group_id() -> spec_fn(GroupView) -> u64 {
    |g: GroupView| g.id
}

/// The first group on the output `output`.
pub open spec fn group_on(groups: Seq<GroupView>, output: u64) -> Option<int> {
    search::first_where(groups, is_on(output))
}

/// The group with the lowest identifier that shares an output with `outputs`;
/// the first such where identifiers are equal.
pub open spec fn lowest_group(groups: Seq<GroupView>, outputs: Seq<u64>) -> Option<int> {
    search::lowest_where(groups, is_on_any(outputs), group_id())
}

/// The selected group: the one on the configured output where there is one,
/// else by the window's own outputs.
pub open spec fn selected_group(
    groups: Seq<GroupView>,
    output: Option<u64>,
    outputs: Seq<u64>,
) -> Option<int> {
    let overridden = match output {
        Some(id) => group_on(groups, id),
        None => None,
    };
    match overridden {
        Some(i) => Some(i),
        None => lowest_group(groups, outputs),
    }
}

/// Whether the configured output is in no group.
pub open spec fn output_fell_back(
    config: config::ConfigView,
    groups: Seq<GroupView>,
    output: Option<u64>,
) -> bool {
    config.workspace_output is Some && (output is None || group_on(groups, output->Some_0) is None)
}

/// A workspace without windows.
pub open spec fn is_free() -> spec_fn(WorkspaceView) -> bool {
    |w: WorkspaceView| w.toplevel_ids.len() == 0
}

/// The first workspace of a group without windows.
pub open spec fn next_free(workspaces: Seq<WorkspaceView>) -> Option<WorkspaceTarget> {
    match search::first_where(workspaces, is_free()) {
        Some(i) => Some(WorkspaceTarget::Existing(workspaces[i].id)),
        None => None,
    }
}

/// The workspace in the selected group.
pub open spec fn selected_workspace(mode: WorkspaceMode, group: GroupView) -> Option<
    WorkspaceTarget,
> {
    if mode == WorkspaceMode::NewEach && group.can_create_workspace {
        Some(WorkspaceTarget::Create)
    } else {
        next_free(group.workspaces)
    }
}

/// The reason to leave the window alone that needs no look at the workspaces;
/// the first that applies counts.
pub open spec fn early_skip(
    config: config::ConfigView,
    title_excluded: bool,
    info: InfoView,
    handled: Set<u64>,
    toplevel_id: u64,
) -> Option<SkipReason> {
    if handled.contains(toplevel_id) {
        Some(SkipReason::AlreadyHandled)
    } else if config.excluded_app_ids.contains(info.app_id) {
        Some(SkipReason::ExcludedByAppId)
    } else if title_excluded {
        Some(SkipReason::ExcludedByTitle)
    } else if !info.cosmic_toplevel_present {
        Some(SkipReason::NoCosmicToplevel)
    } else if info.output_ids.len() == 0 {
        Some(SkipReason::NoOutputs)
    } else if config.workspace_mode == WorkspaceMode::Same {
        Some(SkipReason::WorkspaceModeSame)
    } else {
        None
    }
}

/// The decision to leave a window alone.
pub open spec fn left_alone(reason: SkipReason, warns: Seq<PlacementWarn>) -> DecisionView {
    DecisionView { action: PlacementAction::Skip { reason }, group: None, warns }
}

/// The decision on one window. `output` is the configured output, once found;
/// `title_excluded` is what the title pattern says.
pub open spec fn decision(
    config: config::ConfigView,
    output: Option<u64>,
    title_excluded: bool,
    info: InfoView,
    groups: Seq<GroupView>,
    handled: Set<u64>,
    toplevel_id: u64,
) -> DecisionView {
    match early_skip(config, title_excluded, info, handled, toplevel_id) {
        Some(reason) => left_alone(reason, Seq::empty()),
        None => {
            let output_warn = if output_fell_back(config, groups, output) {
                seq![PlacementWarn::WorkspaceOutputFallback]
            } else {
                Seq::empty()
            };
            match selected_group(groups, output, info.output_ids) {
                None => left_alone(SkipReason::NoMatchingGroup, output_warn),
                Some(i) => {
                    let warns = if config.workspace_mode == WorkspaceMode::NewEach
                        && !groups[i].can_create_workspace {
                        output_warn.push(PlacementWarn::NewEachUnsupported)
                    } else {
                        output_warn
                    };
                    match selected_workspace(config.workspace_mode, groups[i]) {
                        None => left_alone(SkipReason::NoMatchingGroup, warns),
                        Some(workspace) => DecisionView {
                            action: PlacementAction::Place {
                                workspace,
                                then: PostPlaceActions {
                                    switch_to: config.switch_to_workspace,
                                    maximize: config.maximize,
                                },
                            },
                            group: Some(i),
                            warns,
                        },
                    }
                },
            }
        },
    }
}

/// The configured output where it is given as a number.
pub open spec fn numbered_output(config: config::ConfigView) -> Option<u64> {
    match config.workspace_output {
        Some(name) => text::decimal_u64(name),
        None => None,
    }
}

/// Whether the configured pattern matches the title.
pub open spec fn title_excluded(config: config::ConfigView, title: Seq<char>) -> bool {
    match config.excluded_title_regex {
        Some(regex) => config::regex_matches(regex, title),
        None => false,
    }
}

// ---------------------------------------------------------------------------
// Deciding
// ---------------------------------------------------------------------------

/// Decides on one window. A configured output is taken as a number.
pub fn decide(
    config: &Config,
    info: &ToplevelInfoStub,
    workspaces: &WorkspaceStateStub,
    handled: &HashSet<u64>,
    toplevel_id: u64,
) -> (action: PlacementAction)
    ensures
        action == decision(
            config@,
            numbered_output(config@),
            title_excluded(config@, info.title@),
            info@,
            workspaces@,
            handled@,
            toplevel_id,
        ).action,
{
    let output: Option<u64> = match &config.workspace_output {
        Some(name) => parse_u64(name.as_str()),
        None => None,
    };
    decide_with_output(config, output, info, workspaces, handled, toplevel_id).action
}

/// Decides on one window, given the configured output once it is found.
pub fn decide_with_output(
    config: &Config,
    output: Option<u64>,
    info: &ToplevelInfoStub,
    workspaces: &WorkspaceStateStub,
    handled: &HashSet<u64>,
    toplevel_id: u64,
) -> (d: PlacementDecision)
    ensures
        d@ == decision(
            config@,
            output,
            title_excluded(config@, info.title@),
            info@,
            workspaces@,
            handled@,
            toplevel_id,
        ),
{
    let excluded: bool = match &config.excluded_title_regex {
        Some(regex) => is_match(regex, info.title.as_str()),
        None => false,
    };
    decide_given(config, output, excluded, info, workspaces, handled, toplevel_id)
}

/// Decides on one window, given the configured output and what the title
/// pattern says.
pub fn decide_given(
    config: &Config,
    output: Option<u64>,
    title_excluded: bool,
    info: &ToplevelInfoStub,
    workspaces: &WorkspaceStateStub,
    handled: &HashSet<u64>,
    toplevel_id: u64,
) -> (d: PlacementDecision)
    ensures
        d@ == decision(
            config@,
            output,
            title_excluded,
            info@,
            workspaces@,
            handled@,
            toplevel_id,
        ),
{
    let mut warns: Vec<PlacementWarn> = Vec::new();
    if handled.contains(&toplevel_id) {
        return PlacementDecision {
            action: PlacementAction::Skip { reason: SkipReason::AlreadyHandled },
            group: None,
            warns,
        };
    }
    if holds_text(&config.excluded_app_ids, &info.app_id) {
        return PlacementDecision {
            action: PlacementAction::Skip { reason: SkipReason::ExcludedByAppId },
            group: None,
            warns,
        };
    }
    if title_excluded {
        return PlacementDecision {
            action: PlacementAction::Skip { reason: SkipReason::ExcludedByTitle },
            group: None,
            warns,
        };
    }
    if !info.cosmic_toplevel_present {
        return PlacementDecision {
            action: PlacementAction::Skip { reason: SkipReason::NoCosmicToplevel },
            group: None,
            warns,
        };
    }
    if info.output_ids.len() == 0 {
        return PlacementDecision {
            action: PlacementAction::Skip { reason: SkipReason::NoOutputs },
            group: None,
            warns,
        };
    }
    if config.workspace_mode == WorkspaceMode::Same {
        return PlacementDecision {
            action: PlacementAction::Skip { reason: SkipReason::WorkspaceModeSame },
            group: None,
            warns,
        };
    }
    let overridden: Option<usize> = match output {
        Some(id) => find_group_on(workspaces, id),
        None => None,
    };
    if config.workspace_output.is_some() && overridden.is_none() {
        warns.push(PlacementWarn::WorkspaceOutputFallback);
    }
    let selected: Option<usize> = match overridden {
        Some(i) => Some(i),
        None => select_group(workspaces, &info.output_ids),
    };
    let i: usize = match selected {
        Some(i) => i,
        None => {
            return PlacementDecision {
                action: PlacementAction::Skip { reason: SkipReason::NoMatchingGroup },
                group: None,
                warns,
            };
        },
    };
    let group: &WorkspaceGroupStub = &workspaces.groups[i];
    proof {
        assert(workspaces@[i as int] == group@);
    }
    if config.workspace_mode == WorkspaceMode::NewEach && !group.can_create_workspace {
        warns.push(PlacementWarn::NewEachUnsupported);
    }
    match select_workspace(config.workspace_mode, group) {
        Some(workspace) => PlacementDecision {
            action: PlacementAction::Place {
                workspace,
                then: PostPlaceActions {
                    switch_to: config.switch_to_workspace,
                    maximize: config.maximize,
                },
            },
            group: Some(i),
            warns,
        },
        None => PlacementDecision {
            action: PlacementAction::Skip { reason: SkipReason::NoMatchingGroup },
            group: None,
            warns,
        },
    }
}

/// Whether the list holds the text.
fn holds_text(list: &Vec<String>, wanted: &String) -> (b: bool)
    ensures
        b == config::texts(list@).contains(wanted@),
{
    let mut i: usize = 0;
    while i < list.len()
        invariant
            i <= list@.len(),
            forall|j: int| 0 <= j < i ==> (#[trigger] list@[j])@ != wanted@,
        decreases list@.len() - i,
    {
        if list[i] == *wanted {
            proof {
                assert(config::texts(list@)[i as int] == wanted@);
            }
            return true;
        }
        i += 1;
    }
    proof {
        assert forall|j: int| 0 <= j < list@.len() implies config::texts(list@)[j] != wanted@ by {
            assert(list@[j]@ != wanted@);
        }
    }
    false
}

/// The first group on `output`.
fn find_group_on(workspaces: &WorkspaceStateStub, output: u64) -> (found: Option<usize>)
    ensures
        match found {
            Some(i) => i < workspaces.groups@.len() && group_on(workspaces@, output) == Some(
                i as int,
            ),
            None => group_on(workspaces@, output) is None,
        },
{
    let groups: &Vec<WorkspaceGroupStub> = &workspaces.groups;
    let ghost p = is_on(output);
    let mut i: usize = 0;
    while i < groups.len()
        invariant
            i <= groups@.len(),
            groups@ == workspaces.groups@,
            p == is_on(output),
            forall|j: int| 0 <= j < i ==> !p(#[trigger] workspaces@[j]),
        decreases groups@.len() - i,
    {
        proof {
            assert(workspaces@[i as int] == groups@[i as int]@);
        }
        if holds(&groups[i].output_ids, output) {
            proof {
                search::lemma_first_where_is(workspaces@, p, i as int);
            }
            return Some(i);
        }
        i += 1;
    }
    proof {
        search::lemma_first_where_none(workspaces@, p);
    }
    None
}

/// Whether two lists of outputs have one in common.
fn any_shared(a: &Vec<u64>, b: &Vec<u64>) -> (shared: bool)
    ensures
        shared == share_output(a@, b@),
{
    let mut i: usize = 0;
    while i < a.len()
        invariant
            i <= a@.len(),
            forall|j: int| 0 <= j < i ==> !b@.contains(#[trigger] a@[j]),
        decreases a@.len() - i,
    {
        if holds(b, a[i]) {
            return true;
        }
        i += 1;
    }
    false
}

/// The group with the lowest identifier on any of the window's outputs.
fn select_group(workspaces: &WorkspaceStateStub, outputs: &Vec<u64>) -> (found: Option<usize>)
    ensures
        match found {
            Some(i) => i < workspaces.groups@.len() && lowest_group(workspaces@, outputs@) == Some(
                i as int,
            ),
            None => lowest_group(workspaces@, outputs@) is None,
        },
{
    let groups: &Vec<WorkspaceGroupStub> = &workspaces.groups;
    let ghost view = workspaces@;
    let mut best: Option<usize> = None;
    let mut i: usize = 0;
    while i < groups.len()
        invariant
            i <= groups@.len(),
            groups@ == workspaces.groups@,
            view == workspaces@,
            match best {
                Some(b) => b < i && lowest_group(view.take(i as int), outputs@) == Some(b as int),
                None => lowest_group(view.take(i as int), outputs@) is None,
            },
        decreases groups@.len() - i,
    {
        proof {
            assert(view.take(i + 1).drop_last() =~= view.take(i as int));
            assert(view[i as int] == groups@[i as int]@);
        }
        if any_shared(&groups[i].output_ids, outputs) {
            best = match best {
                Some(b) => if groups[i].id < groups[b].id {
                    Some(i)
                } else {
                    Some(b)
                },
                None => Some(i),
            };
        }
        i += 1;
    }
    proof {
        assert(view.take(i as int) =~= view);
    }
    best
}

/// The workspace in the selected group.
fn select_workspace(mode: WorkspaceMode, group: &WorkspaceGroupStub) -> (target: Option<
    WorkspaceTarget,
>)
    ensures
        target == selected_workspace(mode, group@),
{
    if mode == WorkspaceMode::NewEach && group.can_create_workspace {
        return Some(WorkspaceTarget::Create);
    }
    let ghost p = is_free();
    let ghost view = group@.workspaces;
    let mut i: usize = 0;
    while i < group.workspaces.len()
        invariant
            i <= group.workspaces@.len(),
            p == is_free(),
            view == group@.workspaces,
            !(mode == WorkspaceMode::NewEach && group.can_create_workspace),
            forall|j: int| 0 <= j < i ==> !p(#[trigger] view[j]),
        decreases group.workspaces@.len() - i,
    {
        proof {
            assert(view[i as int] == group.workspaces@[i as int]@);
        }
        if group.workspaces[i].toplevel_ids.len() == 0 {
            proof {
                search::lemma_first_where_is(view, p, i as int);
            }
            return Some(WorkspaceTarget::Existing(group.workspaces[i].id));
        }
        i += 1;
    }
    proof {
        search::lemma_first_where_none(view, p);
    }
    None
}

// ---------------------------------------------------------------------------
// Laws
// ---------------------------------------------------------------------------

/// What `lowest_group` picks shares an output with the window, and no other
/// such group has a lower identifier, or the same and an earlier place; it
/// picks one wherever there is one.
pub proof fn law_lowest_group(groups: Seq<GroupView>, outputs: Seq<u64>)
    ensures
        match lowest_group(groups, outputs) {
            Some(i) => {
                &&& 0 <= i < groups.len()
                &&& share_output(groups[i].output_ids, outputs)
                &&& forall|j: int|
                    0 <= j < groups.len() && share_output((#[trigger] groups[j]).output_ids, outputs)
                        ==> groups[i].id < groups[j].id || (groups[i].id == groups[j].id && i <= j)
            },
            None => forall|j: int|
                0 <= j < groups.len() ==> !share_output((#[trigger] groups[j]).output_ids, outputs),
        },
{
    search::lemma_lowest_where(groups, is_on_any(outputs), group_id());
}

/// A window that was handled is left alone, with no warning, whatever else
/// holds: deciding a second time changes nothing.
pub proof fn law_handled_is_skipped(
    config: config::ConfigView,
    output: Option<u64>,
    excluded: bool,
    info: InfoView,
    groups: Seq<GroupView>,
    handled: Set<u64>,
    toplevel_id: u64,
)
    requires
        handled.contains(toplevel_id),
    ensures
        decision(config, output, excluded, info, groups, handled, toplevel_id) == left_alone(
            SkipReason::AlreadyHandled,
            Seq::empty(),
        ),
{
}

/// A window is placed only if it was not handled before, is not excluded, can
/// be moved and is on some output, and never in the mode that leaves windows
/// where they are. It is switched to and maximized as configured.
pub proof fn law_place_conditions(
    config: config::ConfigView,
    output: Option<u64>,
    excluded: bool,
    info: InfoView,
    groups: Seq<GroupView>,
    handled: Set<u64>,
    toplevel_id: u64,
)
    requires
        decision(config, output, excluded, info, groups, handled, toplevel_id).action is Place,
    ensures
        !handled.contains(toplevel_id),
        !config.excluded_app_ids.contains(info.app_id),
        !excluded,
        info.cosmic_toplevel_present,
        info.output_ids.len() > 0,
        config.workspace_mode != WorkspaceMode::Same,
        decision(config, output, excluded, info, groups, handled, toplevel_id).action->then == (
        PostPlaceActions { switch_to: config.switch_to_workspace, maximize: config.maximize }),
{
}

/// A window is placed on an existing workspace only if that workspace is in
/// the selected group and no window is on it; and none before it in the group
/// is free.
pub proof fn law_existing_target_is_free(
    config: config::ConfigView,
    output: Option<u64>,
    excluded: bool,
    info: InfoView,
    groups: Seq<GroupView>,
    handled: Set<u64>,
    toplevel_id: u64,
)
    requires
        decision(
            config,
            output,
            excluded,
            info,
            groups,
            handled,
            toplevel_id,
        ).action matches PlacementAction::Place { workspace, .. } && workspace is Existing,
    ensures
        ({
            let action = decision(
                config,
                output,
                excluded,
                info,
                groups,
                handled,
                toplevel_id,
            ).action;
            let i = selected_group(groups, output, info.output_ids)->Some_0;
            let w = search::first_where(groups[i].workspaces, is_free())->Some_0;
            &&& selected_group(groups, output, info.output_ids) is Some
            &&& 0 <= i < groups.len()
            &&& 0 <= w < groups[i].workspaces.len()
            &&& action->workspace == WorkspaceTarget::Existing(groups[i].workspaces[w].id)
            &&& groups[i].workspaces[w].toplevel_ids.len() == 0
            &&& forall|k: int|
                0 <= k < w ==> (#[trigger] groups[i].workspaces[k]).toplevel_ids.len() > 0
        }),
{
    law_selected_group(groups, output, info.output_ids);
    let i = selected_group(groups, output, info.output_ids)->Some_0;
    search::lemma_first_where(groups[i].workspaces, is_free());
}

/// The selected group is on the configured output, or shares an output with
/// the window.
pub proof fn law_selected_group(
    groups: Seq<GroupView>,
    output: Option<u64>,
    outputs: Seq<u64>,
)
    ensures
        selected_group(groups, output, outputs) matches Some(i) ==> {
            &&& 0 <= i < groups.len()
            &&& (output is Some && groups[i].output_ids.contains(output->Some_0)) || share_output(
                groups[i].output_ids,
                outputs,
            )
        },
{
    law_lowest_group(groups, outputs);
    if output is Some {
        search::lemma_first_where(groups, is_on(output->Some_0));
    }
}

/// Where a window is placed, it goes to the selected group; where it is left
/// alone, to none.
pub proof fn law_decision_names_selected_group(
    config: config::ConfigView,
    output: Option<u64>,
    excluded: bool,
    info: InfoView,
    groups: Seq<GroupView>,
    handled: Set<u64>,
    toplevel_id: u64,
)
    ensures
        ({
            let d = decision(config, output, excluded, info, groups, handled, toplevel_id);
            &&& d.group is Some <==> d.action is Place
            &&& d.group matches Some(i) ==> 0 <= i < groups.len() && selected_group(
                groups,
                output,
                info.output_ids,
            ) == Some(i)
        }),
{
    law_selected_group(groups, output, info.output_ids);
}

/// A new workspace is asked for only in the mode for it, and only in a group
/// that takes new workspaces.
pub proof fn law_create_only_where_supported(
    config: config::ConfigView,
    output: Option<u64>,
    excluded: bool,
    info: InfoView,
    groups: Seq<GroupView>,
    handled: Set<u64>,
    toplevel_id: u64,
)
    requires
        decision(
            config,
            output,
            excluded,
            info,
            groups,
            handled,
            toplevel_id,
        ).action matches PlacementAction::Place { workspace, .. } && workspace is Create,
    ensures
        config.workspace_mode == WorkspaceMode::NewEach,
        selected_group(groups, output, info.output_ids) matches Some(i)
            && groups[i].can_create_workspace,
{
}

/// Where the selected group takes no new workspaces, asking for one each comes
/// to the same as asking for the next free one.
pub proof fn law_unsupported_new_each_is_next_free(
    config: config::ConfigView,
    output: Option<u64>,
    excluded: bool,
    info: InfoView,
    groups: Seq<GroupView>,
    handled: Set<u64>,
    toplevel_id: u64,
)
    requires
        config.workspace_mode == WorkspaceMode::NewEach,
        selected_group(groups, output, info.output_ids) matches Some(i)
            && !groups[i].can_create_workspace,
    ensures
        ({
            let next_free = config::ConfigView { workspace_mode: WorkspaceMode::NextFree, ..config };
            decision(config, output, excluded, info, groups, handled, toplevel_id).action
                == decision(next_free, output, excluded, info, groups, handled, toplevel_id).action
        }),
{
}

} // verus!
