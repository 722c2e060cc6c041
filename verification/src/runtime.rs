//! Carrying out placements.

use std::collections::HashSet;
use std::time::Duration;

use vstd::prelude::*;
use vstd::std_specs::hash::obeys_key_model;

use crate::config;
use crate::config::{is_match, Config};
use crate::effects;
use crate::effects::{Effect, Warning};
use crate::ids;
use crate::ids::{protocol_id, ObjectKey, WorkspaceId};
use crate::placement;
use crate::placement::{
    decide_given, PlacementAction, PlacementDecision, PlacementWarn, PostPlaceActions, SkipReason,
    ToplevelInfoStub, WorkspaceGroupStub, WorkspaceStateStub, WorkspaceStub, WorkspaceTarget,
};
use crate::search;
use crate::state;
use crate::state::AppData;
use crate::text;
use crate::text::{parse_u64, push_decimal};
use crate::verify::{VerifierState, VerifyEvent};
use crate::wayland::management::{move_toplevel, set_maximized};
use crate::wayland::workspace::{WorkspaceManager, WorkspaceTx, WorkspaceTxError};
use crate::world;
use crate::world::{can_create, numbers_of, Toplevel, Workspace, WorkspaceGroup, World};

verus! {

/// A window that waits for the workspace that was requested for it.
pub struct PendingPlacement {
    pub cosmic_toplevel: ObjectKey,
    /// The handle under which the window is listed; if the window closes, it
    /// waits no more.
    pub foreign_toplevel_id: ObjectKey,
    /// The group in which the workspace was requested.
    pub group_handle: ObjectKey,
    pub output: ObjectKey,
    /// The workspaces of the group before the request.
    pub workspace_ids_before: HashSet<ObjectKey>,
    pub post_place: PostPlaceActions,
    pub app_id: String,
    /// How often the workspaces were looked through since.
    pub cycles_waited: u32,
}

/// The model of a [`PendingPlacement`].
#[verifier::ext_equal]
pub ghost struct PendingView {
    pub cosmic_toplevel: ObjectKey,
    pub foreign_toplevel_id: ObjectKey,
    pub group_handle: ObjectKey,
    pub output: ObjectKey,
    pub before: Set<ObjectKey>,
    pub post_place: PostPlaceActions,
    pub app_id: Seq<char>,
    pub cycles_waited: u32,
}

impl View for PendingPlacement {
    type V = PendingView;

    open spec fn view(&self) -> PendingView {
        PendingView {
            cosmic_toplevel: self.cosmic_toplevel,
            foreign_toplevel_id: self.foreign_toplevel_id,
            group_handle: self.group_handle,
            output: self.output,
            before: self.workspace_ids_before@,
            post_place: self.post_place,
            app_id: self.app_id@,
            cycles_waited: self.cycles_waited,
        }
    }
}

/// The models of `pending`.
pub open spec fn pending_views(pending: Seq<PendingPlacement>) -> Seq<PendingView> {
    pending.map_values(|p: PendingPlacement| p@)
}

/// What is done with a window that waits.
#[derive(Debug, Clone, Copy, PartialEq, Eq, Structural)]
pub enum PendingDecision {
    /// A workspace appeared: the one at this place.
    UseNew { idx: usize },
    /// None appeared; the free one at this place is used, if there is one.
    DegradeAndWarn { next_free_idx: Option<usize> },
    /// Wait for the next look.
    KeepWaiting,
}

/// Not occupied.
pub open spec fn is_unoccupied() -> spec_fn(bool) -> bool {
    |b: bool| !b
}

/// Not there before.
pub open spec fn is_new<Id>(before: Set<Id>) -> spec_fn(Id) -> bool {
    |id: Id| !before.contains(id)
}

/// The place of the first workspace that is not occupied.
pub open spec fn first_free(occupied: Seq<bool>) -> Option<int> {
    search::first_where(occupied, is_unoccupied())
}

/// The place of the first identifier that was not there before.
pub open spec fn first_new<Id>(before: Set<Id>, ids: Seq<Id>) -> Option<int> {
    search::first_where(ids, is_new(before))
}

/// What is done with a window that waits: a workspace that appeared is used,
/// and after the first look a free one will do.
pub open spec fn pending_decision<Id>(
    before: Set<Id>,
    ids: Seq<Id>,
    occupied: Seq<bool>,
    cycles_waited: u32,
) -> PendingDecision {
    match first_new(before, ids) {
        Some(i) => PendingDecision::UseNew { idx: i as usize },
        None => if cycles_waited >= 1 {
            PendingDecision::DegradeAndWarn {
                next_free_idx: match first_free(occupied) {
                    Some(i) => Some(i as usize),
                    None => None,
                },
            }
        } else {
            PendingDecision::KeepWaiting
        },
    }
}

/// Decides what is done with a window that waits, given the workspaces of the
/// group now and, at the same places, whether windows are on them.
pub fn evaluate_pending<Id: Eq + std::hash::Hash + Clone>(
    workspace_ids_before: &HashSet<Id>,
    current_workspace_ids_in_group: &[Id],
    current_workspace_occupied: &[bool],
    cycles_waited: u32,
) -> (decision: PendingDecision)
    requires
        obeys_key_model::<Id>(),
    ensures
        decision == pending_decision(
            workspace_ids_before@,
            current_workspace_ids_in_group@,
            current_workspace_occupied@,
            cycles_waited,
        ),
{
    let ids: &[Id] = current_workspace_ids_in_group;
    let ghost p = is_new(workspace_ids_before@);
    let mut i: usize = 0;
    while i < ids.len()
        invariant
            i <= ids@.len(),
            ids@ == current_workspace_ids_in_group@,
            obeys_key_model::<Id>(),
            p == is_new(workspace_ids_before@),
            forall|j: int| 0 <= j < i ==> !p(#[trigger] ids@[j]),
        decreases ids@.len() - i,
    {
        if !workspace_ids_before.contains(&ids[i]) {
            proof {
                search::lemma_first_where_is(ids@, p, i as int);
            }
            return PendingDecision::UseNew { idx: i };
        }
        i += 1;
    }
    proof {
        search::lemma_first_where_none(ids@, p);
    }
    if cycles_waited >= 1 {
        let ghost q = is_unoccupied();
        let mut k: usize = 0;
        while k < current_workspace_occupied.len()
            invariant
                k <= current_workspace_occupied@.len(),
                cycles_waited >= 1,
                q == is_unoccupied(),
                first_new(workspace_ids_before@, current_workspace_ids_in_group@) is None,
                forall|j: int| 0 <= j < k ==> !q(#[trigger] current_workspace_occupied@[j]),
            decreases current_workspace_occupied@.len() - k,
        {
            if !current_workspace_occupied[k] {
                proof {
                    search::lemma_first_where_is(
                        current_workspace_occupied@,
                        q,
                        k as int,
                    );
                }
                return PendingDecision::DegradeAndWarn { next_free_idx: Some(k) };
            }
            k += 1;
        }
        proof {
            search::lemma_first_where_none(current_workspace_occupied@, q);
        }
        return PendingDecision::DegradeAndWarn { next_free_idx: None };
    }
    PendingDecision::KeepWaiting
}

// ---------------------------------------------------------------------------
// What the policy reads of the snapshot
// ---------------------------------------------------------------------------

/// What the policy reads of a workspace: an occupied one lists one window.
pub open spec fn workspace_view(world: World, w: Workspace) -> placement::WorkspaceView {
    placement::WorkspaceView {
        id: ids::object_number(w.handle),
        toplevel_ids: if world.occupied(w.handle) {
            seq![1u64]
        } else {
            Seq::empty()
        },
    }
}

/// What the policy reads of workspaces.
pub open spec fn workspace_views(world: World, ws: Seq<Workspace>) -> Seq<
    placement::WorkspaceView,
> {
    ws.map_values(|w: Workspace| workspace_view(world, w))
}

/// What the policy reads of a group.
pub open spec fn group_view(world: World, g: WorkspaceGroup) -> placement::GroupView {
    placement::GroupView {
        id: ids::object_number(g.handle),
        output_ids: world::numbers(g.outputs@),
        workspaces: workspace_views(world, world.members(g)),
        can_create_workspace: g.can_create(),
    }
}

/// What the policy reads of all groups.
pub open spec fn group_views(world: World) -> Seq<placement::GroupView> {
    world.groups@.map_values(|g: WorkspaceGroup| group_view(world, g))
}

/// What the policy reads of a window.
pub open spec fn info_view(t: Toplevel) -> placement::InfoView {
    placement::InfoView {
        app_id: t.app_id@,
        title: t.title@,
        output_ids: world::numbers(t.outputs@),
        cosmic_toplevel_present: t.cosmic_handle is Some,
    }
}

/// The object numbers of a set of keys.
pub open spec fn number_set(keys: Set<ObjectKey>) -> Set<u64> {
    keys.map(|k: ObjectKey| ids::object_number(k))
}

fn build_group_stub(world: &World, g: &WorkspaceGroup) -> (stub: WorkspaceGroupStub)
    ensures
        stub@ == group_view(*world, *g),
{
    let members: Vec<ObjectKey> = world.member_handles(g);
    let ghost kept = world.members(*g);
    let mut workspaces: Vec<WorkspaceStub> = Vec::new();
    let mut i: usize = 0;
    while i < members.len()
        invariant
            i <= members@.len(),
            kept == world.members(*g),
            members@ == world::handles(kept),
            workspaces@.len() == i,
            forall|j: int| 0 <= j < i ==> (#[trigger] workspaces@[j])@ == workspace_view(*world, kept[j]),
        decreases members@.len() - i,
    {
        let mut toplevel_ids: Vec<u64> = Vec::new();
        if world.is_occupied(members[i]) {
            toplevel_ids.push(1);
        }
        proof {
            assert(members@[i as int] == kept[i as int].handle);
            assert(toplevel_ids@ =~= workspace_view(*world, kept[i as int]).toplevel_ids);
        }
        workspaces.push(WorkspaceStub { id: protocol_id(members[i]), toplevel_ids });
        i += 1;
    }
    let stub: WorkspaceGroupStub = WorkspaceGroupStub {
        id: protocol_id(g.handle),
        output_ids: numbers_of(&g.outputs),
        workspaces,
        can_create_workspace: can_create(g),
    };
    proof {
        assert(stub@.workspaces =~= workspace_views(*world, kept));
    }
    stub
}

/// Reads the workspaces for the policy.
fn build_world_stub(world: &World) -> (stub: WorkspaceStateStub)
    ensures
        stub@ == group_views(*world),
{
    let mut groups: Vec<WorkspaceGroupStub> = Vec::new();
    let mut i: usize = 0;
    while i < world.groups.len()
        invariant
            i <= world.groups@.len(),
            groups@.len() == i,
            forall|j: int|
                0 <= j < i ==> (#[trigger] groups@[j])@ == group_view(*world, world.groups@[j]),
        decreases world.groups@.len() - i,
    {
        groups.push(build_group_stub(world, &world.groups[i]));
        i += 1;
    }
    let stub: WorkspaceStateStub = WorkspaceStateStub { groups };
    proof {
        assert(stub@ =~= group_views(*world));
    }
    stub
}

/// Reads a window for the policy.
fn build_info_stub(t: &Toplevel) -> (stub: ToplevelInfoStub)
    ensures
        stub@ == info_view(*t),
{
    ToplevelInfoStub {
        app_id: t.app_id.clone(),
        title: t.title.clone(),
        output_ids: numbers_of(&t.outputs),
        cosmic_toplevel_present: t.cosmic_handle.is_some(),
    }
}

/// The number by which the policy knows a window.
fn toplevel_stub_id(t: &Toplevel) -> (id: u64)
    ensures
        id == ids::object_number(t.handle),
{
    protocol_id(t.handle)
}

/// The numbers of the windows that were dealt with.
fn build_handled_stub(handled: &HashSet<ObjectKey>) -> (stub: HashSet<u64>)
    ensures
        stub@ == number_set(handled@),
{
    let mut stub: HashSet<u64> = HashSet::new();
    let ghost mut seen: Set<ObjectKey> = Set::empty();
    for key in iter: handled.iter()
        invariant
            iter.seq().unref().to_set() == handled@,
            stub@ == number_set(seen),
            forall|k: ObjectKey| #[trigger] seen.contains(k) ==> handled@.contains(k),
            forall|i: int| 0 <= i < iter.index() ==> seen.contains(*#[trigger] iter.seq()[i]),
    {
        stub.insert(protocol_id(*key));
        proof {
            assert(iter.seq().unref()[iter.index()] == *key);
            seen.lemma_set_map_insert_commute(*key, |k: ObjectKey| ids::object_number(k));
            seen = seen.insert(*key);
        }
    }
    proof {
        assert(seen =~= handled@);
    }
    stub
}

// ---------------------------------------------------------------------------
// Placing a window
// ---------------------------------------------------------------------------

/// How dealing with a new window went.
#[derive(Debug, Clone, Copy, PartialEq, Eq, Structural)]
pub enum PlaceOutcome {
    /// The policy leaves the window alone.
    Skipped { reason: SkipReason },
    /// The window cannot be moved.
    NoCosmicToplevel,
    /// The window is on no output.
    NoOutput,
    /// The workspace is gone.
    WorkspaceGone { ws_id: WorkspaceId },
    /// A workspace was requested, and the window waits for it.
    Queued,
    /// The window was placed.
    Placed { workspace: ObjectKey },
}

/// Why a window could not be placed.
#[derive(Debug, Clone, Copy, PartialEq, Eq, Structural)]
pub enum PlaceError {
    /// No workspace could be requested.
    CreateUnavailable,
    /// The window was moved, but its workspace could not be switched to.
    ActivateUnavailable,
}

impl PlaceError {
    pub open spec fn text(self) -> Seq<char> {
        match self {
            PlaceError::CreateUnavailable => {
                "workspace manager unavailable: "@ + WorkspaceTxError::ManagerUnavailable.text()
            },
            PlaceError::ActivateUnavailable => "workspace manager unavailable for activate: "@
                + WorkspaceTxError::ManagerUnavailable.text(),
        }
    }

    /// The message for the operator.
    pub fn message(&self) -> (text: String)
        ensures
            text@ == self.text(),
    {
        let cause: String = WorkspaceTxError::ManagerUnavailable.message();
        match self {
            PlaceError::CreateUnavailable => "workspace manager unavailable: ".to_owned().concat(
                cause.as_str(),
            ),
            PlaceError::ActivateUnavailable => {
                "workspace manager unavailable for activate: ".to_owned().concat(cause.as_str())
            },
        }
    }
}

/// An output with the given name.
pub open spec fn is_named(name: Seq<char>) -> spec_fn(world::Output) -> bool {
    |o: world::Output| config::optional_text(o.name) == Some(name)
}

/// The number of the configured output: of the first output of that name, else
/// the name itself read as a number.
pub open spec fn configured_output(config: config::ConfigView, world: World) -> Option<u64> {
    match config.workspace_output {
        None => None,
        Some(name) => match search::first_where(world.outputs@, is_named(name)) {
            Some(i) => Some(ids::object_number(world.outputs@[i].handle)),
            None => text::decimal_u64(name),
        },
    }
}

/// The name of a new workspace: the application's, else one that is numbered.
pub open spec fn workspace_name(app_id: Seq<char>, counter: u64) -> Seq<char> {
    if app_id.len() == 0 {
        "auto-"@ + text::decimal_text(counter as nat)
    } else {
        app_id
    }
}

/// The counter once a workspace was named.
pub open spec fn counter_after(app_id: Seq<char>, counter: u64) -> u64 {
    if app_id.len() > 0 {
        counter
    } else if counter == u64::MAX {
        0
    } else {
        (counter + 1) as u64
    }
}

/// The warning that the operator gets.
pub open spec fn warning_for(warn: PlacementWarn) -> Warning {
    match warn {
        PlacementWarn::WorkspaceOutputFallback => Warning::WorkspaceOutputFallback,
        PlacementWarn::NewEachUnsupported => Warning::NewEachUnsupported,
    }
}

impl state::AppView {
    /// A workspace was switched to: requested and committed, the timer of an
    /// earlier switch to it stopped, and a new one started or, without one,
    /// the attempt counted.
    pub open spec fn activated(self, manager: ObjectKey, workspace: ObjectKey) -> state::AppView {
        let v = self.emit(effects::EffectView::Activate { workspace }).emit(
            effects::EffectView::Commit { manager },
        ).timer_stopped(ids::object_number(workspace));
        let handle_id = ids::object_number(workspace);
        match self.config.switch_verify_timeout {
            Some(timeout) => v.emit(effects::EffectView::StartTimer { handle_id, timeout }),
            None => state::AppView { verifier: v.verifier.attempt(handle_id, None), ..v },
        }
    }

    /// A window was moved to a workspace, which was then switched to where
    /// that is wanted and the manager is bound; and maximized where wanted.
    pub open spec fn placed(
        self,
        manager: Option<ObjectKey>,
        toplevel: ObjectKey,
        workspace: ObjectKey,
        output: ObjectKey,
        post: PostPlaceActions,
    ) -> state::AppView {
        let moved = self.emit(
            effects::EffectView::MoveToWorkspace { toplevel, workspace, output },
        );
        let switched = if post.switch_to && manager is Some {
            moved.activated(manager->Some_0, workspace)
        } else {
            moved
        };
        if post.maximize {
            switched.emit(effects::EffectView::SetMaximized { toplevel })
        } else {
            switched
        }
    }

    /// The warnings of a decision, each given once.
    pub open spec fn warn_all(self, warns: Seq<PlacementWarn>) -> state::AppView
        decreases warns.len(),
    {
        if warns.len() == 0 {
            self
        } else {
            self.warn_all(warns.drop_last()).warn_once(warning_for(warns.last()))
        }
    }

    /// A workspace was requested for a window, which now waits for it.
    pub open spec fn queued(
        self,
        world: World,
        manager: ObjectKey,
        group: WorkspaceGroup,
        t: Toplevel,
        post: PostPlaceActions,
    ) -> state::AppView {
        let v = self.emit(
            effects::EffectView::CreateWorkspace {
                group: group.handle,
                name: workspace_name(t.app_id@, self.counter),
            },
        ).emit(effects::EffectView::Commit { manager });
        state::AppView {
            counter: counter_after(t.app_id@, self.counter),
            pending: self.pending.push(
                PendingView {
                    cosmic_toplevel: t.cosmic_handle->Some_0,
                    foreign_toplevel_id: t.handle,
                    group_handle: group.handle,
                    output: t.outputs@[0],
                    before: world::handles(world.members(group)).to_set(),
                    post_place: post,
                    app_id: t.app_id@,
                    cycles_waited: 0,
                },
            ),
            ..v
        }
    }

    /// The decision to place a window in a group was carried out.
    pub open spec fn executed(
        self,
        world: World,
        t: Toplevel,
        target: WorkspaceTarget,
        group: WorkspaceGroup,
        post: PostPlaceActions,
    ) -> (state::AppView, Result<PlaceOutcome, PlaceError>) {
        if t.cosmic_handle is None {
            (self, Ok(PlaceOutcome::NoCosmicToplevel))
        } else if t.outputs@.len() == 0 {
            (self, Ok(PlaceOutcome::NoOutput))
        } else {
            match target {
                WorkspaceTarget::Existing(ws_id) => match world.workspace_numbered(ws_id) {
                    None => (self, Ok(PlaceOutcome::WorkspaceGone { ws_id })),
                    Some(i) => {
                        let workspace = world.workspaces@[i].handle;
                        let toplevel = t.cosmic_handle->Some_0;
                        let output = t.outputs@[0];
                        if post.switch_to && world.manager is None {
                            (
                                self.emit(
                                    effects::EffectView::MoveToWorkspace {
                                        toplevel,
                                        workspace,
                                        output,
                                    },
                                ),
                                Err(PlaceError::ActivateUnavailable),
                            )
                        } else {
                            (
                                self.placed(world.manager, toplevel, workspace, output, post),
                                Ok(PlaceOutcome::Placed { workspace }),
                            )
                        }
                    },
                },
                WorkspaceTarget::Create => match world.manager {
                    None => (
                        state::AppView {
                            counter: counter_after(t.app_id@, self.counter),
                            ..self
                        },
                        Err(PlaceError::CreateUnavailable),
                    ),
                    Some(manager) => (
                        self.queued(world, manager, group, t, post),
                        Ok(PlaceOutcome::Queued),
                    ),
                },
            }
        }
    }

    /// A new window was dealt with, given what the title pattern says.
    pub open spec fn received(self, world: World, t: Toplevel, title_excluded: bool) -> (
        state::AppView,
        Result<PlaceOutcome, PlaceError>,
    ) {
        let d = placement::decision(
            self.config,
            configured_output(self.config, world),
            title_excluded,
            info_view(t),
            group_views(world),
            number_set(self.handled),
            ids::object_number(t.handle),
        );
        let warned = self.warn_all(d.warns);
        match d.action {
            PlacementAction::Skip { reason } => (warned, Ok(PlaceOutcome::Skipped { reason })),
            PlacementAction::Place { workspace, then } => warned.executed(
                world,
                t,
                workspace,
                world.groups@[d.group->Some_0],
                then,
            ),
        }
    }
}

/// Finds the configured output.
fn find_configured_output(config: &Config, world: &World) -> (output: Option<u64>)
    ensures
        output == configured_output(config@, *world),
{
    let name: &String = match &config.workspace_output {
        Some(name) => name,
        None => {
            return None;
        },
    };
    let ghost p = is_named(name@);
    let mut i: usize = 0;
    while i < world.outputs.len()
        invariant
            i <= world.outputs@.len(),
            config@.workspace_output == Some(name@),
            p == is_named(name@),
            forall|j: int| 0 <= j < i ==> !p(#[trigger] world.outputs@[j]),
        decreases world.outputs@.len() - i,
    {
        let named: bool = match &world.outputs[i].name {
            Some(n) => *n == *name,
            None => false,
        };
        if named {
            proof {
                search::lemma_first_where_is(world.outputs@, p, i as int);
            }
            return Some(protocol_id(world.outputs[i].handle));
        }
        i += 1;
    }
    proof {
        search::lemma_first_where_none(world.outputs@, p);
    }
    parse_u64(name.as_str())
}

/// Names a new workspace.
fn name_workspace(app: &mut AppData, app_id: &String) -> (name: String)
    ensures
        name@ == workspace_name(app_id@, old(app)@.counter),
        final(app)@ == (state::AppView {
            counter: counter_after(app_id@, old(app)@.counter),
            ..old(app)@
        }),
{
    if app_id.as_str().is_empty() {
        let mut name: String = "auto-".to_owned();
        push_decimal(&mut name, app.new_each_counter);
        app.new_each_counter = app.new_each_counter.wrapping_add(1);
        name
    } else {
        app_id.clone()
    }
}

/// The set of the keys in a list.
fn key_set(keys: &Vec<ObjectKey>) -> (set: HashSet<ObjectKey>)
    ensures
        set@ == keys@.to_set(),
{
    let mut set: HashSet<ObjectKey> = HashSet::new();
    let mut i: usize = 0;
    while i < keys.len()
        invariant
            i <= keys@.len(),
            forall|k: ObjectKey|
                set@.contains(k) <==> exists|j: int| 0 <= j < i && #[trigger] keys@[j] == k,
        decreases keys@.len() - i,
    {
        set.insert(keys[i]);
        i += 1;
    }
    proof {
        assert(set@ =~= keys@.to_set());
    }
    set
}

/// Switches to a workspace: requests it, commits, has the timer of an earlier
/// switch to it stopped, and has a new one started or, without one, counts the
/// attempt.
pub(crate) fn register_activate_with_verification(
    app: &mut AppData,
    world: &World,
    target: ObjectKey,
) -> (r: Result<(), WorkspaceTxError>)
    ensures
        match world.manager {
            Some(manager) => r is Ok && final(app)@ == old(app)@.activated(manager, target),
            None => r == Err::<(), _>(WorkspaceTxError::ManagerUnavailable) && final(app)@ == old(
                app,
            )@,
        },
{
    let manager: WorkspaceManager = match WorkspaceManager::from_state(world) {
        Ok(m) => m,
        Err(e) => {
            return Err(e);
        },
    };
    let step = |tx: &mut WorkspaceTx| -> (r: Result<(), WorkspaceTxError>)
        ensures
            r is Ok,
            final(tx)@ == old(tx)@.push((effects::EffectView::Activate { workspace: target })),
        {
            tx.activate(target);
            Ok(())
        };
    let ghost before = app@;
    match manager.transaction(&mut app.effects, step) {
        Ok(()) => {},
        Err(e) => {
            return Err(e);
        },
    }
    proof {
        assert(app@.effects =~= before.emit(
            effects::EffectView::Activate { workspace: target },
        ).emit(effects::EffectView::Commit { manager: manager.handle() }).effects);
    }
    let handle_id: WorkspaceId = protocol_id(target);
    app.stop_timer(handle_id);
    match app.config.switch_verify_timeout {
        Some(timeout) => {
            app.emit(Effect::StartTimer { handle_id, timeout });
        },
        None => {
            app.verifier.record_attempt(handle_id, None);
        },
    }
    Ok(())
}

/// Carries out the decision to place a window in a group.
fn execute_place(
    app: &mut AppData,
    world: &World,
    info: &Toplevel,
    target: WorkspaceTarget,
    group: &WorkspaceGroup,
    post: PostPlaceActions,
) -> (r: Result<PlaceOutcome, PlaceError>)
    ensures
        (final(app)@, r) == old(app)@.executed(*world, *info, target, *group, post),
{
    let cosmic_handle: ObjectKey = match info.cosmic_handle {
        Some(h) => h,
        None => {
            return Ok(PlaceOutcome::NoCosmicToplevel);
        },
    };
    if info.outputs.len() == 0 {
        return Ok(PlaceOutcome::NoOutput);
    }
    let output: ObjectKey = info.outputs[0];
    match target {
        WorkspaceTarget::Existing(ws_id) => {
            let workspace: ObjectKey = match world.find_numbered(ws_id) {
                Some(i) => world.workspaces[i].handle,
                None => {
                    return Ok(PlaceOutcome::WorkspaceGone { ws_id });
                },
            };
            move_toplevel(app, cosmic_handle, workspace, output);
            if post.switch_to {
                match register_activate_with_verification(app, world, workspace) {
                    Ok(()) => {},
                    Err(_) => {
                        return Err(PlaceError::ActivateUnavailable);
                    },
                }
            }
            if post.maximize {
                set_maximized(app, cosmic_handle);
            }
            Ok(PlaceOutcome::Placed { workspace })
        },
        WorkspaceTarget::Create => {
            let name: String = name_workspace(app, &info.app_id);
            let members: Vec<ObjectKey> = world.member_handles(group);
            let workspace_ids_before: HashSet<ObjectKey> = key_set(&members);
            match request_workspace(app, world, group.handle, name) {
                Ok(()) => {},
                Err(_) => {
                    return Err(PlaceError::CreateUnavailable);
                },
            }
            push_pending(
                app,
                PendingPlacement {
                    cosmic_toplevel: cosmic_handle,
                    foreign_toplevel_id: info.handle,
                    group_handle: group.handle,
                    output,
                    workspace_ids_before,
                    post_place: post,
                    app_id: info.app_id.clone(),
                    cycles_waited: 0,
                },
            );
            Ok(PlaceOutcome::Queued)
        },
    }
}

/// Requests a workspace in a group, and commits.
fn request_workspace(app: &mut AppData, world: &World, group: ObjectKey, name: String) -> (r: Result<
    (),
    WorkspaceTxError,
>)
    ensures
        match world.manager {
            Some(manager) => r is Ok && final(app)@ == old(app)@.emit(
                effects::EffectView::CreateWorkspace { group, name: name@ },
            ).emit(effects::EffectView::Commit { manager }),
            None => r is Err && final(app)@ == old(app)@,
        },
{
    let manager: WorkspaceManager = match WorkspaceManager::from_state(world) {
        Ok(m) => m,
        Err(e) => {
            return Err(e);
        },
    };
    let ghost before = app@;
    let ghost name_text = name@;
    let step = |tx: &mut WorkspaceTx| -> (r: Result<(), WorkspaceTxError>)
        ensures
            r is Ok,
            final(tx)@ == old(tx)@.push(
                (effects::EffectView::CreateWorkspace { group, name: name@ }),
            ),
        {
            tx.create_workspace(group, name);
            Ok(())
        };
    let r: Result<(), WorkspaceTxError> = manager.transaction(&mut app.effects, step);
    proof {
        assert(app@.effects =~= before.emit(
            effects::EffectView::CreateWorkspace { group, name: name_text },
        ).emit(effects::EffectView::Commit { manager: manager.handle() }).effects);
    }
    r
}

/// Has a window wait.
fn push_pending(app: &mut AppData, pending: PendingPlacement)
    ensures
        final(app)@ == (state::AppView {
            pending: old(app)@.pending.push(pending@),
            ..old(app)@
        }),
{
    let ghost before = app@;
    app.pending_placements.push(pending);
    proof {
        assert(app@.pending =~= before.pending.push(pending@));
    }
}

/// Deals with a new window: decides, warns, and carries the decision out.
pub fn handle_new_toplevel(app: &mut AppData, world: &World, info: &Toplevel) -> (r: Result<
    PlaceOutcome,
    PlaceError,
>)
    ensures
        (final(app)@, r) == old(app)@.received(
            *world,
            *info,
            placement::title_excluded(old(app)@.config, info.title@),
        ),
{
    let title_excluded: bool = match &app.config.excluded_title_regex {
        Some(regex) => is_match(regex, info.title.as_str()),
        None => false,
    };
    handle_new_toplevel_given(app, world, info, title_excluded)
}

/// Deals with a new window, given what the title pattern says.
pub fn handle_new_toplevel_given(
    app: &mut AppData,
    world: &World,
    info: &Toplevel,
    title_excluded: bool,
) -> (r: Result<PlaceOutcome, PlaceError>)
    ensures
        (final(app)@, r) == old(app)@.received(*world, *info, title_excluded),
{
    let info_stub: ToplevelInfoStub = build_info_stub(info);
    let ws_stub: WorkspaceStateStub = build_world_stub(world);
    let handled_stub: HashSet<u64> = build_handled_stub(&app.handled);
    let configured: Option<u64> = find_configured_output(&app.config, world);
    let decision: PlacementDecision = decide_given(
        &app.config,
        configured,
        title_excluded,
        &info_stub,
        &ws_stub,
        &handled_stub,
        toplevel_stub_id(info),
    );
    let ghost before = app@;
    let mut i: usize = 0;
    while i < decision.warns.len()
        invariant
            i <= decision.warns@.len(),
            app@ == before.warn_all(decision.warns@.take(i as int)),
        decreases decision.warns@.len() - i,
    {
        proof {
            assert(decision.warns@.take(i + 1).drop_last() =~= decision.warns@.take(i as int));
        }
        match decision.warns[i] {
            PlacementWarn::WorkspaceOutputFallback => app.warn_once_workspace_output_fallback(),
            PlacementWarn::NewEachUnsupported => app.warn_once_new_each_unsupported(),
        }
        i += 1;
    }
    proof {
        assert(decision.warns@.take(i as int) =~= decision.warns@);
    }
    match decision.action {
        PlacementAction::Skip { reason } => Ok(PlaceOutcome::Skipped { reason }),
        PlacementAction::Place { workspace, then } => {
            proof {
                placement::law_decision_names_selected_group(
                    before.config,
                    configured,
                    title_excluded,
                    info_stub@,
                    ws_stub@,
                    handled_stub@,
                    ids::object_number(info.handle),
                );
            }
            match decision.group {
                Some(g) => execute_place(app, world, info, workspace, &world.groups[g], then),
                None => vstd::pervasive::unreached(),
            }
        },
    }
}

// ---------------------------------------------------------------------------
// Switches that were not confirmed in time
// ---------------------------------------------------------------------------

/// The report that a switch was not confirmed in time.
#[derive(Debug, Clone, Copy, PartialEq, Eq, Structural)]
pub struct NotConfirmed {
    pub workspace_handle_id: WorkspaceId,
    pub timeout_ms: u128,
}

/// The warning that the compositor appears to honor no switch at all.
#[derive(Debug, Clone, Copy, PartialEq, Eq, Structural)]
pub struct NotHonored {
    pub workspace_handle_id: WorkspaceId,
    /// How many distinct workspaces were tried.
    pub attempted: usize,
}

/// What is logged when the timer of a switch ran out; the report comes first.
#[derive(Debug, Clone, Copy, PartialEq, Eq, Structural)]
pub struct VerifyReport {
    pub info: Option<NotConfirmed>,
    pub warn: Option<NotHonored>,
}

/// Says what is logged when the timer of a switch ran out.
pub fn emit_verify_event(
    event: VerifyEvent,
    handle_id: WorkspaceId,
    timeout: Duration,
    verifier: &VerifierState,
) -> (report: VerifyReport)
    ensures
        report.info == (if event.has_info() {
            Some(
                NotConfirmed {
                    workspace_handle_id: handle_id,
                    timeout_ms: config::whole_millis(timeout),
                },
            )
        } else {
            None
        }),
        match report.warn {
            Some(w) => event.has_warn() && w.workspace_handle_id == handle_id && w.attempted
                == verifier@.attempted.len(),
            None => !event.has_warn(),
        },
{
    VerifyReport {
        info: if event.informs() {
            Some(
                NotConfirmed { workspace_handle_id: handle_id, timeout_ms: timeout.as_millis() },
            )
        } else {
            None
        },
        warn: if event.warns() {
            Some(
                NotHonored {
                    workspace_handle_id: handle_id,
                    attempted: verifier.attempted_distinct_count(),
                },
            )
        } else {
            None
        },
    }
}

// ---------------------------------------------------------------------------
// Windows that wait for their workspace
// ---------------------------------------------------------------------------

/// How a window that waited fared.
#[derive(Debug, Clone, Copy, PartialEq, Eq, Structural)]
pub enum DeferredResult {
    /// Its group is gone.
    GroupGone,
    /// No workspace appeared, and none is free.
    NoFallback,
    /// It was placed. Where a switch was wanted, it fails without a manager.
    Placed { workspace: ObjectKey, post_place: PostPlaceActions, switch_failed: bool },
}

#[derive(Debug, Clone, PartialEq, Eq)]
pub struct DeferredOutcome {
    pub app_id: String,
    pub result: DeferredResult,
}

/// The model of a [`DeferredOutcome`].
pub ghost struct DeferredView {
    pub app_id: Seq<char>,
    pub result: DeferredResult,
}

impl View for DeferredOutcome {
    type V = DeferredView;

    open spec fn view(&self) -> DeferredView {
        DeferredView { app_id: self.app_id@, result: self.result }
    }
}

/// The models of `outcomes`.
pub open spec fn deferred_views(outcomes: Seq<DeferredOutcome>) -> Seq<DeferredView> {
    outcomes.map_values(|o: DeferredOutcome| o@)
}

/// The group with the given handle.
pub open spec fn is_group(key: ObjectKey) -> spec_fn(WorkspaceGroup) -> bool {
    |g: WorkspaceGroup| g.handle == key
}

/// Whether windows are on each of the workspaces.
pub open spec fn occupancy(world: World, keys: Seq<ObjectKey>) -> Seq<bool> {
    keys.map_values(|k: ObjectKey| world.occupied(k))
}

/// A queue once its first window left and the last took its place.
pub open spec fn swap_removed<T>(queue: Seq<T>) -> Seq<T> {
    queue.update(0, queue.last()).drop_last()
}

impl state::AppView {
    /// A window that waited was placed.
    pub open spec fn deferred_placed(self, world: World, p: PendingView, workspace: ObjectKey) -> (
        state::AppView,
        DeferredResult,
    ) {
        (
            self.placed(world.manager, p.cosmic_toplevel, workspace, p.output, p.post_place),
            DeferredResult::Placed {
                workspace,
                post_place: p.post_place,
                switch_failed: p.post_place.switch_to && world.manager is None,
            },
        )
    }

    /// A window that waited was dealt with. One look at the workspaces is all
    /// it waits for.
    pub open spec fn resolved(self, world: World, p: PendingView) -> (
        state::AppView,
        DeferredResult,
    ) {
        match search::first_where(world.groups@, is_group(p.group_handle)) {
            None => (self, DeferredResult::GroupGone),
            Some(g) => {
                let keys = world::handles(world.members(world.groups@[g]));
                match first_new(p.before, keys) {
                    Some(i) => self.deferred_placed(world, p, keys[i]),
                    None => {
                        let warned = self.warn_once(Warning::CreateWorkspaceNotHonored);
                        match first_free(occupancy(world, keys)) {
                            Some(i) => warned.deferred_placed(world, p, keys[i]),
                            None => (warned, DeferredResult::NoFallback),
                        }
                    },
                }
            },
        }
    }

    /// Every window in the queue was dealt with: the first one first, then
    /// the others from the last to the second.
    pub open spec fn drained(self, world: World, queue: Seq<PendingView>) -> (
        state::AppView,
        Seq<DeferredView>,
    )
        decreases queue.len(),
    {
        if queue.len() == 0 {
            (self, Seq::empty())
        } else {
            let (v, result) = self.resolved(world, queue[0]);
            let (end, rest) = v.drained(world, swap_removed(queue));
            (end, seq![DeferredView { app_id: queue[0].app_id, result }] + rest)
        }
    }

    /// All windows that waited were dealt with.
    pub open spec fn scanned(self, world: World) -> (state::AppView, Seq<DeferredView>) {
        state::AppView { pending: Seq::empty(), ..self }.drained(world, self.pending)
    }
}

/// The group with the given handle.
fn find_group(groups: &Vec<WorkspaceGroup>, key: ObjectKey) -> (found: Option<usize>)
    ensures
        match found {
            Some(i) => i < groups@.len() && search::first_where(groups@, is_group(key)) == Some(
                i as int,
            ),
            None => search::first_where(groups@, is_group(key)) is None,
        },
{
    let ghost p = is_group(key);
    let mut i: usize = 0;
    while i < groups.len()
        invariant
            i <= groups@.len(),
            p == is_group(key),
            forall|j: int| 0 <= j < i ==> !p(#[trigger] groups@[j]),
        decreases groups@.len() - i,
    {
        if groups[i].handle == key {
            proof {
                search::lemma_first_where_is(groups@, p, i as int);
            }
            return Some(i);
        }
        i += 1;
    }
    proof {
        search::lemma_first_where_none(groups@, p);
    }
    None
}

/// Whether windows are on each of the workspaces.
fn occupancy_of(world: &World, keys: &Vec<ObjectKey>) -> (occupied: Vec<bool>)
    ensures
        occupied@ == occupancy(*world, keys@),
{
    let mut occupied: Vec<bool> = Vec::new();
    let mut i: usize = 0;
    while i < keys.len()
        invariant
            i <= keys@.len(),
            occupied@.len() == i,
            forall|j: int| 0 <= j < i ==> #[trigger] occupied@[j] == world.occupied(keys@[j]),
        decreases keys@.len() - i,
    {
        occupied.push(world.is_occupied(keys[i]));
        i += 1;
    }
    proof {
        assert(occupied@ =~= occupancy(*world, keys@));
    }
    occupied
}

/// Moves a window that waited to its workspace.
fn execute_deferred_place(
    app: &mut AppData,
    world: &World,
    pending: &PendingPlacement,
    workspace: ObjectKey,
) -> (result: DeferredResult)
    ensures
        (final(app)@, result) == old(app)@.deferred_placed(*world, pending@, workspace),
{
    move_toplevel(app, pending.cosmic_toplevel, workspace, pending.output);
    let mut switch_failed: bool = false;
    if pending.post_place.switch_to {
        match register_activate_with_verification(app, world, workspace) {
            Ok(()) => {},
            Err(_) => {
                switch_failed = true;
            },
        }
    }
    if pending.post_place.maximize {
        set_maximized(app, pending.cosmic_toplevel);
    }
    DeferredResult::Placed { workspace, post_place: pending.post_place, switch_failed }
}

/// Deals with one window that waited.
fn resolve_pending(app: &mut AppData, world: &World, pending: &PendingPlacement) -> (result:
    DeferredResult)
    ensures
        (final(app)@, result) == old(app)@.resolved(*world, pending@),
{
    let group: &WorkspaceGroup = match find_group(&world.groups, pending.group_handle) {
        Some(g) => &world.groups[g],
        None => {
            return DeferredResult::GroupGone;
        },
    };
    let current: Vec<ObjectKey> = world.member_handles(group);
    let occupied: Vec<bool> = occupancy_of(world, &current);
    let decision: PendingDecision = evaluate_pending(
        &pending.workspace_ids_before,
        current.as_slice(),
        occupied.as_slice(),
        pending.cycles_waited.saturating_add(1),
    );
    proof {
        search::lemma_first_where(current@, is_new(pending.workspace_ids_before@));
        search::lemma_first_where(occupied@, is_unoccupied());
    }
    match decision {
        PendingDecision::UseNew { idx } => execute_deferred_place(
            app,
            world,
            pending,
            current[idx],
        ),
        PendingDecision::DegradeAndWarn { next_free_idx } => {
            app.warn_once_create_workspace_not_honored();
            match next_free_idx {
                Some(idx) => execute_deferred_place(app, world, pending, current[idx]),
                None => DeferredResult::NoFallback,
            }
        },
        PendingDecision::KeepWaiting => vstd::pervasive::unreached(),
    }
}

/// Deals with all windows that wait, whenever the compositor announced a batch
/// of changes to its workspaces.
pub fn scan_pending_placements(app: &mut AppData, world: &World) -> (outcomes: Vec<DeferredOutcome>)
    ensures
        (final(app)@, deferred_views(outcomes@)) == old(app)@.scanned(*world),
{
    let mut queue: Vec<PendingPlacement> = Vec::new();
    let ghost start = app@;
    queue.append(&mut app.pending_placements);
    let mut outcomes: Vec<DeferredOutcome> = Vec::new();
    proof {
        assert(pending_views(queue@) =~= start.pending);
        assert(app@ =~= (state::AppView { pending: Seq::empty(), ..start }));
        let rest = app@.drained(*world, pending_views(queue@)).1;
        assert(deferred_views(outcomes@) + rest =~= rest);
    }
    while queue.len() > 0
        invariant
            app@.drained(*world, pending_views(queue@)).0 == start.scanned(*world).0,
            deferred_views(outcomes@) + app@.drained(*world, pending_views(queue@)).1
                == start.scanned(*world).1,
        decreases queue@.len(),
    {
        let ghost before = app@;
        let ghost waiting = queue@;
        let ghost done = outcomes@;
        let pending: PendingPlacement = queue.swap_remove(0);
        proof {
            assert(pending_views(queue@) =~= swap_removed(pending_views(waiting)));
            assert(pending_views(waiting)[0] == pending@);
        }
        let result: DeferredResult = resolve_pending(app, world, &pending);
        let outcome: DeferredOutcome = DeferredOutcome { app_id: pending.app_id, result };
        outcomes.push(outcome);
        proof {
            let rest = app@.drained(*world, pending_views(queue@)).1;
            assert(deferred_views(outcomes@) =~= deferred_views(done).push(outcome@));
            assert(deferred_views(outcomes@) + rest =~= deferred_views(done) + (seq![outcome@]
                + rest));
        }
    }
    proof {
        assert(pending_views(queue@) =~= Seq::empty());
        assert(deferred_views(outcomes@) + Seq::empty() =~= deferred_views(outcomes@));
    }
    outcomes
}

} // verus!
