//! The words in which what the daemon does is stated: what is in the snapshot,
//! item by item.

use vstd::prelude::*;

use crate::effects;
use crate::ids::ObjectKey;
use crate::world::{Toplevel, Workspace, WorkspaceGroup, World};

verus! {

/// The number of a protocol object: the lower half of its key.
pub open spec fn number(key: ObjectKey) -> u64 {
    key % 0x1_0000_0000
}

/// Whether two lists have an item in common.
pub open spec fn overlap(a: Seq<u64>, b: Seq<u64>) -> bool {
    exists|i: int, j: int|
        0 <= i < a.len() && 0 <= j < b.len() && #[trigger] a[i] == #[trigger] b[j]
}

/// Whether one of `keys` has the number `n`.
pub open spec fn numbered_among(keys: Seq<ObjectKey>, n: u64) -> bool {
    exists|i: int| 0 <= i < keys.len() && number(#[trigger] keys[i]) == n
}

/// Whether two lists of objects have a number in common.
pub open spec fn numbers_overlap(a: Seq<ObjectKey>, b: Seq<ObjectKey>) -> bool {
    exists|i: int, j: int|
        0 <= i < a.len() && 0 <= j < b.len() && number(#[trigger] a[i]) == number(#[trigger] b[j])
}

/// Whether a window is on the workspace.
pub open spec fn has_window(world: World, workspace: ObjectKey) -> bool {
    exists|t: int|
        0 <= t < world.toplevels@.len() && (#[trigger] world.toplevels@[t]).workspaces@.contains(
            workspace,
        )
}

/// Whether a window other than `closed` is on the workspace.
pub open spec fn has_other_window(world: World, workspace: ObjectKey, closed: ObjectKey) -> bool {
    exists|t: int|
        0 <= t < world.toplevels@.len() && (#[trigger] world.toplevels@[t]).handle != closed
            && world.toplevels@[t].workspaces@.contains(workspace)
}

/// Whether the active bit of a workspace is set.
pub open spec fn shown(w: Workspace) -> bool {
    w.state & 1u32 == 1u32
}

/// Whether the bit of a group is set that says that it takes new workspaces.
pub open spec fn takes_new(g: WorkspaceGroup) -> bool {
    g.capabilities & 1u32 == 1u32
}

/// Whether the workspace at place `w` of the snapshot is in the group at place
/// `g`.
pub open spec fn in_group_at(world: World, g: int, w: int) -> bool {
    &&& 0 <= g < world.groups@.len()
    &&& 0 <= w < world.workspaces@.len()
    &&& world.groups@[g].workspaces@.contains(world.workspaces@[w].handle)
}

/// Whether `w` is the place of the first workspace of the group at place `g`
/// that no window is on.
pub open spec fn first_empty_in(world: World, g: int, w: int) -> bool {
    &&& in_group_at(world, g, w)
    &&& !has_window(world, world.workspaces@[w].handle)
    &&& forall|k: int|
        0 <= k < w && in_group_at(world, g, k) ==> has_window(
            world,
            (#[trigger] world.workspaces@[k]).handle,
        )
}

/// What came to be asked for after `before`.
pub open spec fn added(
    before: Seq<effects::EffectView>,
    after: Seq<effects::EffectView>,
) -> Seq<effects::EffectView> {
    after.skip(before.len() as int)
}

/// Whether the window at place `t` is listed under `handle`, and none before
/// it is.
pub open spec fn first_listed(toplevels: Seq<Toplevel>, handle: ObjectKey, t: int) -> bool {
    &&& 0 <= t < toplevels.len()
    &&& toplevels[t].handle == handle
    &&& forall|k: int| 0 <= k < t ==> (#[trigger] toplevels[k]).handle != handle
}

} // verus!
