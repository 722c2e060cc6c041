//! Going back to a recent workspace when a window closes.

use std::collections::{HashMap, HashSet};

use vstd::prelude::*;

use crate::ids;
use crate::ids::{protocol_id, ObjectKey, WorkspaceId};
use crate::mru_jump;
use crate::mru_jump::{evaluate_trigger, NoOpReason, TriggerInput, TriggerOutcome, WorkspaceMeta};
use crate::runtime::register_activate_with_verification;
use crate::search;
use crate::search::holds;
use crate::state;
use crate::state::AppData;
use crate::world;
use crate::world::{is_active, Toplevel, Workspace, WorkspaceGroup, World};

verus! {

/// How a closed window was answered.
#[derive(Debug, Clone, Copy, PartialEq, Eq, Structural)]
pub enum JumpOutcome {
    /// The window is not in the snapshot.
    ToplevelNotFound,
    /// Nothing calls for a jump.
    NoOp { reason: NoOpReason },
    /// Another workspace was switched to.
    Jumped { source: WorkspaceId, target: WorkspaceId, group_id: u64 },
    /// Another workspace should have been switched to, but without a manager
    /// it could not be.
    ActivationFailed { source: WorkspaceId, target: WorkspaceId },
    /// The workspace to switch to is gone.
    TargetGone { target: WorkspaceId },
}

/// A window listed under the given handle.
pub open spec fn is_listed_as(key: ObjectKey) -> spec_fn(Toplevel) -> bool {
    |t: Toplevel| t.handle == key
}

/// A window other than `closed` on the workspace.
pub open spec fn is_other_on(workspace: ObjectKey, closed: ObjectKey) -> spec_fn(Toplevel) -> bool {
    |t: Toplevel| t.handle != closed && t.workspaces@.contains(workspace)
}

/// A group that the workspace is in.
pub open spec fn has_member(workspace: ObjectKey) -> spec_fn(WorkspaceGroup) -> bool {
    |g: WorkspaceGroup| g.workspaces@.contains(workspace)
}

/// A group with the given object number.
pub open spec fn is_numbered(number: u64) -> spec_fn(WorkspaceGroup) -> bool {
    |g: WorkspaceGroup| ids::object_number(g.handle) == number
}

/// The values of `f`, by object number; of equal numbers the last counts.
pub open spec fn keyed<V>(keys: Seq<ObjectKey>, f: spec_fn(ObjectKey) -> V) -> Map<u64, V>
    decreases keys.len(),
{
    if keys.len() == 0 {
        Map::empty()
    } else {
        keyed(keys.drop_last(), f).insert(ids::object_number(keys.last()), f(keys.last()))
    }
}

/// Whether the workspace is active; one that is gone is not.
pub open spec fn activity(world: World) -> spec_fn(ObjectKey) -> bool {
    |key: ObjectKey|
        match search::first_where(world.workspaces@, world::has_handle(key)) {
            Some(i) => world.workspaces@[i].is_active(),
            None => false,
        }
}

/// How many windows other than `closed` are on the workspace.
pub open spec fn other_windows(world: World, closed: ObjectKey) -> spec_fn(ObjectKey) -> usize {
    |key: ObjectKey|
        search::all_where(world.toplevels@, is_other_on(key, closed)).len() as usize
}

/// The number of the first group that the workspace is in.
pub open spec fn group_number(world: World) -> spec_fn(ObjectKey) -> Option<u64> {
    |key: ObjectKey|
        match search::first_where(world.groups@, has_member(key)) {
            Some(i) => Some(ids::object_number(world.groups@[i].handle)),
            None => None,
        }
}

/// What the selection reads of a workspace.
pub open spec fn meta_view(w: Workspace, group_id: u64) -> mru_jump::MetaView {
    mru_jump::MetaView {
        id: ids::object_number(w.handle),
        coordinates: w.coordinates@,
        group_id,
    }
}

/// What the selection reads of a group's workspaces.
pub open spec fn group_metas(world: World, number: u64) -> Seq<mru_jump::MetaView> {
    match search::first_where(world.groups@, is_numbered(number)) {
        Some(i) => world.members(world.groups@[i]).map_values(|w: Workspace| meta_view(w, number)),
        None => Seq::empty(),
    }
}

/// Whether a window other than `closed` is on the first workspace with the
/// given object number.
pub open spec fn number_occupied(world: World, number: u64, closed: ObjectKey) -> bool {
    match world.workspace_numbered(number) {
        Some(i) => world.occupied_without(world.workspaces@[i].handle, closed),
        None => false,
    }
}

/// The workspaces of a group that windows other than `closed` are on.
pub open spec fn group_occupied(world: World, number: u64, closed: ObjectKey) -> Set<WorkspaceId> {
    Set::new(
        |id: WorkspaceId|
            mru_jump::in_group(group_metas(world, number), id) && number_occupied(
                world,
                id,
                closed,
            ),
    )
}

/// The values of `f`, by the groups that the workspaces are in.
pub open spec fn by_group<V>(
    world: World,
    keys: Seq<ObjectKey>,
    f: spec_fn(u64) -> V,
) -> Map<u64, V>
    decreases keys.len(),
{
    if keys.len() == 0 {
        Map::empty()
    } else {
        let before = by_group(world, keys.drop_last(), f);
        match group_number(world)(keys.last()) {
            Some(number) => before.insert(number, f(number)),
            None => before,
        }
    }
}

/// What the decision reads when the window `closed`, which was on the
/// workspaces `keys`, closes.
pub open spec fn trigger_view(
    world: World,
    keys: Seq<ObjectKey>,
    closed: ObjectKey,
    recent: Seq<WorkspaceId>,
) -> mru_jump::TriggerView {
    mru_jump::TriggerView {
        closed: world::numbers(keys),
        is_active: keyed(keys, activity(world)),
        others: keyed(keys, other_windows(world, closed)),
        group_of: keyed(keys, group_number(world)),
        group_workspaces: by_group(world, keys, |n: u64| group_metas(world, n)),
        group_occupied: by_group(world, keys, |n: u64| group_occupied(world, n, closed)),
        recent,
    }
}

impl state::AppView {
    /// The jump that the outcome calls for was made.
    pub open spec fn jumped(self, world: World, outcome: TriggerOutcome) -> (
        state::AppView,
        JumpOutcome,
    ) {
        match outcome {
            TriggerOutcome::NoOp { reason } => (self, JumpOutcome::NoOp { reason }),
            TriggerOutcome::Jump { source, target, group_id } => match world.workspace_numbered(
                target,
            ) {
                None => (self, JumpOutcome::TargetGone { target }),
                Some(i) => match world.manager {
                    Some(manager) => (
                        self.activated(manager, world.workspaces@[i].handle),
                        JumpOutcome::Jumped { source, target, group_id },
                    ),
                    None => (self, JumpOutcome::ActivationFailed { source, target }),
                },
            },
        }
    }

    /// The window `closed` was answered.
    pub open spec fn answered_close(self, world: World, closed: ObjectKey) -> (
        state::AppView,
        JumpOutcome,
    ) {
        match search::first_where(world.toplevels@, is_listed_as(closed)) {
            None => (self, JumpOutcome::ToplevelNotFound),
            Some(i) => self.jumped(
                world,
                trigger_view(
                    world,
                    world.toplevels@[i].workspaces@,
                    closed,
                    self.recent,
                ).outcome(),
            ),
        }
    }
}

/// The window listed under the given handle.
pub(crate) fn find_toplevel(toplevels: &Vec<Toplevel>, key: ObjectKey) -> (found: Option<usize>)
    ensures
        match found {
            Some(i) => i < toplevels@.len() && search::first_where(
                toplevels@,
                is_listed_as(key),
            ) == Some(i as int),
            None => search::first_where(toplevels@, is_listed_as(key)) is None,
        },
{
    let ghost p = is_listed_as(key);
    let mut i: usize = 0;
    while i < toplevels.len()
        invariant
            i <= toplevels@.len(),
            p == is_listed_as(key),
            forall|j: int| 0 <= j < i ==> !p(#[trigger] toplevels@[j]),
        decreases toplevels@.len() - i,
    {
        if toplevels[i].handle == key {
            proof {
                search::lemma_first_where_is(toplevels@, p, i as int);
            }
            return Some(i);
        }
        i += 1;
    }
    proof {
        search::lemma_first_where_none(toplevels@, p);
    }
    None
}

/// Whether the workspace is active.
fn activity_of(world: &World, key: ObjectKey) -> (b: bool)
    ensures
        b == activity(*world)(key),
{
    match world.find_workspace(key) {
        Some(i) => is_active(&world.workspaces[i]),
        None => false,
    }
}

/// How many windows other than `closed` are on the workspace.
fn count_other_windows(world: &World, key: ObjectKey, closed: ObjectKey) -> (n: usize)
    ensures
        n == other_windows(*world, closed)(key),
{
    let ghost p = is_other_on(key, closed);
    let mut n: usize = 0;
    let mut i: usize = 0;
    while i < world.toplevels.len()
        invariant
            i <= world.toplevels@.len(),
            n <= i,
            p == is_other_on(key, closed),
            n == search::all_where(world.toplevels@.take(i as int), p).len(),
        decreases world.toplevels@.len() - i,
    {
        proof {
            assert(world.toplevels@.take(i + 1).drop_last() =~= world.toplevels@.take(i as int));
        }
        if world.toplevels[i].handle != closed && holds(&world.toplevels[i].workspaces, key) {
            n += 1;
        }
        i += 1;
    }
    proof {
        assert(world.toplevels@.take(i as int) =~= world.toplevels@);
    }
    n
}

/// The number of the first group that the workspace is in.
fn group_number_of(world: &World, key: ObjectKey) -> (number: Option<u64>)
    ensures
        number == group_number(*world)(key),
{
    let ghost p = has_member(key);
    let mut i: usize = 0;
    while i < world.groups.len()
        invariant
            i <= world.groups@.len(),
            p == has_member(key),
            forall|j: int| 0 <= j < i ==> !p(#[trigger] world.groups@[j]),
        decreases world.groups@.len() - i,
    {
        if holds(&world.groups[i].workspaces, key) {
            proof {
                search::lemma_first_where_is(world.groups@, p, i as int);
            }
            return Some(protocol_id(world.groups[i].handle));
        }
        i += 1;
    }
    proof {
        search::lemma_first_where_none(world.groups@, p);
    }
    None
}

/// The first group with the given object number.
fn find_group_numbered(groups: &Vec<WorkspaceGroup>, number: u64) -> (found: Option<usize>)
    ensures
        match found {
            Some(i) => i < groups@.len() && search::first_where(groups@, is_numbered(number))
                == Some(i as int),
            None => search::first_where(groups@, is_numbered(number)) is None,
        },
{
    let ghost p = is_numbered(number);
    let mut i: usize = 0;
    while i < groups.len()
        invariant
            i <= groups@.len(),
            p == is_numbered(number),
            forall|j: int| 0 <= j < i ==> !p(#[trigger] groups@[j]),
        decreases groups@.len() - i,
    {
        if protocol_id(groups[i].handle) == number {
            proof {
                search::lemma_first_where_is(groups@, p, i as int);
            }
            return Some(i);
        }
        i += 1;
    }
    proof {
        search::lemma_first_where_none(groups@, p);
    }
    None
}

/// What the selection reads of a group's workspaces.
fn group_metas_of(world: &World, number: u64) -> (metas: Vec<WorkspaceMeta>)
    ensures
        mru_jump::metas_view(metas@) == group_metas(*world, number),
{
    let mut metas: Vec<WorkspaceMeta> = Vec::new();
    let g: usize = match find_group_numbered(&world.groups, number) {
        Some(g) => g,
        None => {
            proof {
                assert(mru_jump::metas_view(metas@) =~= Seq::empty());
            }
            return metas;
        },
    };
    let group: &WorkspaceGroup = &world.groups[g];
    let ghost p = world::is_member(*group);
    let mut i: usize = 0;
    while i < world.workspaces.len()
        invariant
            i <= world.workspaces@.len(),
            p == world::is_member(*group),
            mru_jump::metas_view(metas@) == search::all_where(
                world.workspaces@.take(i as int),
                p,
            ).map_values(|w: Workspace| meta_view(w, number)),
        decreases world.workspaces@.len() - i,
    {
        let w: &Workspace = &world.workspaces[i];
        proof {
            assert(world.workspaces@.take(i + 1).drop_last() =~= world.workspaces@.take(i as int));
        }
        if holds(&group.workspaces, w.handle) {
            let ghost before = metas@;
            let meta: WorkspaceMeta = WorkspaceMeta {
                id: protocol_id(w.handle),
                coordinates: copy_coordinates(&w.coordinates),
                group_id: number,
            };
            metas.push(meta);
            proof {
                let kept = search::all_where(world.workspaces@.take(i as int), p);
                assert(meta@ == meta_view(*w, number));
                assert(mru_jump::metas_view(metas@) =~= mru_jump::metas_view(before).push(meta@));
                assert(kept.push(*w).map_values(|w: Workspace| meta_view(w, number))
                    =~= kept.map_values(|w: Workspace| meta_view(w, number)).push(
                    meta_view(*w, number),
                ));
            }
        }
        i += 1;
    }
    proof {
        assert(world.workspaces@.take(i as int) =~= world.workspaces@);
    }
    metas
}

fn copy_coordinates(coordinates: &Vec<u32>) -> (copy: Vec<u32>)
    ensures
        copy@ == coordinates@,
{
    let mut copy: Vec<u32> = Vec::new();
    let mut i: usize = 0;
    while i < coordinates.len()
        invariant
            i <= coordinates@.len(),
            copy@ == coordinates@.take(i as int),
        decreases coordinates@.len() - i,
    {
        copy.push(coordinates[i]);
        proof {
            assert(coordinates@.take(i + 1) =~= coordinates@.take(i as int).push(
                coordinates@[i as int],
            ));
        }
        i += 1;
    }
    proof {
        assert(coordinates@.take(i as int) =~= coordinates@);
    }
    copy
}

/// The workspaces of a group that windows other than `closed` are on.
fn group_occupied_of(
    world: &World,
    number: u64,
    metas: &Vec<WorkspaceMeta>,
    closed: ObjectKey,
) -> (occupied: HashSet<WorkspaceId>)
    requires
        mru_jump::metas_view(metas@) == group_metas(*world, number),
    ensures
        occupied@ == group_occupied(*world, number, closed),
{
    let ghost views = mru_jump::metas_view(metas@);
    let mut occupied: HashSet<WorkspaceId> = HashSet::new();
    let mut i: usize = 0;
    while i < metas.len()
        invariant
            i <= metas@.len(),
            views == mru_jump::metas_view(metas@),
            forall|id: WorkspaceId|
                occupied@.contains(id) <==> mru_jump::in_group(views.take(i as int), id)
                    && number_occupied(*world, id, closed),
        decreases metas@.len() - i,
    {
        let id: WorkspaceId = metas[i].id;
        let on: bool = match world.find_numbered(id) {
            Some(w) => world.is_occupied_without(world.workspaces[w].handle, closed),
            None => false,
        };
        if on {
            occupied.insert(id);
        }
        proof {
            assert(views[i as int].id == id);
            assert forall|other: WorkspaceId|
                mru_jump::in_group(views.take(i + 1), other) <==> mru_jump::in_group(
                    views.take(i as int),
                    other,
                ) || other == id by {
                if mru_jump::in_group(views.take(i + 1), other) {
                    let j = choose|j: int|
                        0 <= j < i + 1 && (#[trigger] views.take(i + 1)[j]).id == other;
                    if j < i {
                        assert(views.take(i as int)[j].id == other);
                    }
                }
                if mru_jump::in_group(views.take(i as int), other) {
                    let j = choose|j: int|
                        0 <= j < i && (#[trigger] views.take(i as int)[j]).id == other;
                    assert(views.take(i + 1)[j].id == other);
                }
                if other == id {
                    assert(views.take(i + 1)[i as int].id == other);
                }
            }
        }
        i += 1;
    }
    proof {
        assert(views.take(i as int) =~= views);
        assert(occupied@ =~= group_occupied(*world, number, closed));
    }
    occupied
}

/// Switches to another workspace if the window that just closed leaves its
/// workspace active and empty. The snapshot still lists the window.
pub fn handle_empty_workspace_if_triggered(
    app: &mut AppData,
    world: &World,
    closed_id: ObjectKey,
) -> (outcome: JumpOutcome)
    ensures
        (final(app)@, outcome) == old(app)@.answered_close(*world, closed_id),
{
    let t: usize = match find_toplevel(&world.toplevels, closed_id) {
        Some(t) => t,
        None => {
            return JumpOutcome::ToplevelNotFound;
        },
    };
    let keys: &Vec<ObjectKey> = &world.toplevels[t].workspaces;
    let trigger: TriggerOutcome = decide_trigger(app, world, keys, closed_id);
    match trigger {
        TriggerOutcome::NoOp { reason } => JumpOutcome::NoOp { reason },
        TriggerOutcome::Jump { source, target, group_id } => {
            let workspace: ObjectKey = match world.find_numbered(target) {
                Some(i) => world.workspaces[i].handle,
                None => {
                    return JumpOutcome::TargetGone { target };
                },
            };
            match register_activate_with_verification(app, world, workspace) {
                Ok(()) => JumpOutcome::Jumped { source, target, group_id },
                Err(_) => JumpOutcome::ActivationFailed { source, target },
            }
        },
    }
}

/// Reads the snapshot for the decision, and decides.
fn decide_trigger(app: &AppData, world: &World, keys: &Vec<ObjectKey>, closed: ObjectKey) -> (
outcome: TriggerOutcome)
    ensures
        outcome == trigger_view(*world, keys@, closed, app@.recent).outcome(),
{
    let mut numbers: Vec<WorkspaceId> = Vec::new();
    let mut is_active_for: HashMap<WorkspaceId, bool> = HashMap::new();
    let mut others: HashMap<WorkspaceId, usize> = HashMap::new();
    let mut group_id_for: HashMap<WorkspaceId, Option<u64>> = HashMap::new();
    let mut group_workspaces: HashMap<u64, Vec<WorkspaceMeta>> = HashMap::new();
    let mut group_occupied_for: HashMap<u64, HashSet<WorkspaceId>> = HashMap::new();
    let ghost metas_of = |n: u64| group_metas(*world, n);
    let ghost occupied_of = |n: u64| group_occupied(*world, n, closed);
    let ghost views = |v: Vec<WorkspaceMeta>| mru_jump::metas_view(v@);
    let ghost sets = |s: HashSet<WorkspaceId>| s@;
    proof {
        assert(numbers@ =~= world::numbers(keys@.take(0)));
        assert(group_workspaces@.map_values(views) =~= Map::<u64, Seq<mru_jump::MetaView>>::empty());
        assert(group_occupied_for@.map_values(sets) =~= Map::<u64, Set<WorkspaceId>>::empty());
    }
    let mut i: usize = 0;
    while i < keys.len()
        invariant
            i <= keys@.len(),
            metas_of == (|n: u64| group_metas(*world, n)),
            occupied_of == (|n: u64| group_occupied(*world, n, closed)),
            views == (|v: Vec<WorkspaceMeta>| mru_jump::metas_view(v@)),
            sets == (|s: HashSet<WorkspaceId>| s@),
            numbers@ == world::numbers(keys@.take(i as int)),
            is_active_for@ == keyed(keys@.take(i as int), activity(*world)),
            others@ == keyed(keys@.take(i as int), other_windows(*world, closed)),
            group_id_for@ == keyed(keys@.take(i as int), group_number(*world)),
            group_workspaces@.map_values(views) == by_group(*world, keys@.take(i as int), metas_of),
            group_occupied_for@.map_values(sets) == by_group(
                *world,
                keys@.take(i as int),
                occupied_of,
            ),
        decreases keys@.len() - i,
    {
        let key: ObjectKey = keys[i];
        let number: WorkspaceId = protocol_id(key);
        proof {
            assert(keys@.take(i + 1).drop_last() =~= keys@.take(i as int));
            assert(world::numbers(keys@.take(i + 1)) =~= world::numbers(keys@.take(i as int)).push(
                number,
            ));
        }
        numbers.push(number);
        is_active_for.insert(number, activity_of(world, key));
        others.insert(number, count_other_windows(world, key, closed));
        let group: Option<u64> = group_number_of(world, key);
        group_id_for.insert(number, group);
        if let Some(g) = group {
            let metas: Vec<WorkspaceMeta> = group_metas_of(world, g);
            let occupied: HashSet<WorkspaceId> = group_occupied_of(world, g, &metas, closed);
            let ghost workspaces_before = group_workspaces@;
            let ghost occupied_before = group_occupied_for@;
            group_workspaces.insert(g, metas);
            group_occupied_for.insert(g, occupied);
            proof {
                assert(group_workspaces@.map_values(views) =~= workspaces_before.map_values(
                    views,
                ).insert(g, metas_of(g)));
                assert(group_occupied_for@.map_values(sets) =~= occupied_before.map_values(
                    sets,
                ).insert(g, occupied_of(g)));
            }
        }
        i += 1;
    }
    let input: TriggerInput = TriggerInput {
        closed_workspaces: numbers.as_slice(),
        is_active: &is_active_for,
        occupied_excluding_closed: &others,
        group_id_for: &group_id_for,
        group_workspaces: &group_workspaces,
        group_occupied: &group_occupied_for,
        recent_mru: &app.recent_workspaces,
    };
    proof {
        assert(keys@.take(i as int) =~= keys@);
        assert(input@ =~= trigger_view(*world, keys@, closed, app@.recent));
    }
    evaluate_trigger(&input)
}

} // verus!
