//! What the compositor announced: a snapshot of its outputs, windows,
//! workspaces and workspace groups.
//!
//! Lists keep the order in which the objects were announced.

use vstd::prelude::*;

use crate::ids;
use crate::ids::{protocol_id, ObjectKey};
use crate::search;
use crate::search::holds;

verus! {

/// The bit of a workspace's state that is set while it is active.
pub const STATE_ACTIVE: u32 = 1;

/// The bit of a group's capabilities that is set where workspaces can be made
/// in it.
pub const CAPABILITY_CREATE_WORKSPACE: u32 = 1;

#[derive(Debug, Clone)]
pub struct Output {
    pub handle: ObjectKey,
    /// The connector's name, such as `DP-1`, where the compositor gave one.
    pub name: Option<String>,
}

#[derive(Debug, Clone)]
pub struct Toplevel {
    /// The handle under which the window is listed.
    pub handle: ObjectKey,
    /// The handle by which the window can be managed.
    pub cosmic_handle: Option<ObjectKey>,
    pub app_id: String,
    pub title: String,
    pub outputs: Vec<ObjectKey>,
    pub workspaces: Vec<ObjectKey>,
}

#[derive(Debug, Clone)]
pub struct Workspace {
    pub handle: ObjectKey,
    pub coordinates: Vec<u32>,
    pub state: u32,
}

#[derive(Debug, Clone)]
pub struct WorkspaceGroup {
    pub handle: ObjectKey,
    pub capabilities: u32,
    pub outputs: Vec<ObjectKey>,
    pub workspaces: Vec<ObjectKey>,
}

#[derive(Debug, Clone)]
pub struct World {
    pub outputs: Vec<Output>,
    pub toplevels: Vec<Toplevel>,
    pub workspaces: Vec<Workspace>,
    pub groups: Vec<WorkspaceGroup>,
    /// The workspace manager, once it is bound.
    pub manager: Option<ObjectKey>,
}

// ---------------------------------------------------------------------------
// Reading the snapshot
// ---------------------------------------------------------------------------

/// Whether all bits of `mask` are set in `bits`.
pub open spec fn has_bits(bits: u32, mask: u32) -> bool {
    bits & mask == mask
}

/// The object numbers of `keys`.
pub open spec fn numbers(keys: Seq<ObjectKey>) -> Seq<u64> {
    keys.map_values(|k: ObjectKey| ids::object_number(k))
}

impl Workspace {
    pub open spec fn is_active(&self) -> bool {
        has_bits(self.state, STATE_ACTIVE)
    }
}

impl WorkspaceGroup {
    pub open spec fn can_create(&self) -> bool {
        has_bits(self.capabilities, CAPABILITY_CREATE_WORKSPACE)
    }
}

/// A workspace of the group.
pub open spec fn is_member(group: WorkspaceGroup) -> spec_fn(Workspace) -> bool {
    |w: Workspace| group.workspaces@.contains(w.handle)
}

/// A workspace with the given handle.
pub open spec fn has_handle(key: ObjectKey) -> spec_fn(Workspace) -> bool {
    |w: Workspace| w.handle == key
}

/// A workspace with the given object number.
pub open spec fn has_number(number: u64) -> spec_fn(Workspace) -> bool {
    |w: Workspace| ids::object_number(w.handle) == number
}

impl World {
    /// The workspaces of a group.
    pub open spec fn members(&self, group: WorkspaceGroup) -> Seq<Workspace> {
        search::all_where(self.workspaces@, is_member(group))
    }

    /// Whether a window is on the workspace.
    pub open spec fn occupied(&self, workspace: ObjectKey) -> bool {
        exists|i: int|
            0 <= i < self.toplevels@.len() && (
            #[trigger] self.toplevels@[i]).workspaces@.contains(workspace)
    }

    /// Whether a window other than `closed` is on the workspace.
    pub open spec fn occupied_without(&self, workspace: ObjectKey, closed: ObjectKey) -> bool {
        exists|i: int|
            0 <= i < self.toplevels@.len() && (#[trigger] self.toplevels@[i]).handle != closed
                && self.toplevels@[i].workspaces@.contains(workspace)
    }

    /// The first workspace with the given object number.
    pub open spec fn workspace_numbered(&self, number: u64) -> Option<int> {
        search::first_where(self.workspaces@, has_number(number))
    }
}

pub fn is_active(workspace: &Workspace) -> (b: bool)
    ensures
        b == workspace.is_active(),
{
    workspace.state & STATE_ACTIVE == STATE_ACTIVE
}

pub fn can_create(group: &WorkspaceGroup) -> (b: bool)
    ensures
        b == group.can_create(),
{
    group.capabilities & CAPABILITY_CREATE_WORKSPACE == CAPABILITY_CREATE_WORKSPACE
}

/// The object numbers of `keys`.
pub fn numbers_of(keys: &Vec<ObjectKey>) -> (out: Vec<u64>)
    ensures
        out@ == numbers(keys@),
{
    let mut out: Vec<u64> = Vec::new();
    let mut i: usize = 0;
    while i < keys.len()
        invariant
            i <= keys@.len(),
            out@ == numbers(keys@.take(i as int)),
        decreases keys@.len() - i,
    {
        out.push(protocol_id(keys[i]));
        proof {
            assert(numbers(keys@.take(i + 1)) =~= numbers(keys@.take(i as int)).push(
                ids::object_number(keys@[i as int]),
            ));
        }
        i += 1;
    }
    proof {
        assert(keys@.take(i as int) =~= keys@);
    }
    out
}

impl World {
    /// The place of the first workspace with the given object number.
    pub fn find_numbered(&self, number: u64) -> (found: Option<usize>)
        ensures
            match found {
                Some(i) => i < self.workspaces@.len() && self.workspace_numbered(number) == Some(
                    i as int,
                ),
                None => self.workspace_numbered(number) is None,
            },
    {
        let ghost p = has_number(number);
        let mut i: usize = 0;
        while i < self.workspaces.len()
            invariant
                i <= self.workspaces@.len(),
                p == has_number(number),
                forall|j: int| 0 <= j < i ==> !p(#[trigger] self.workspaces@[j]),
            decreases self.workspaces@.len() - i,
        {
            if protocol_id(self.workspaces[i].handle) == number {
                proof {
                    search::lemma_first_where_is(self.workspaces@, p, i as int);
                }
                return Some(i);
            }
            i += 1;
        }
        proof {
            search::lemma_first_where_none(self.workspaces@, p);
        }
        None
    }

    /// The place of the first workspace with the given handle.
    pub fn find_workspace(&self, key: ObjectKey) -> (found: Option<usize>)
        ensures
            match found {
                Some(i) => i < self.workspaces@.len() && search::first_where(
                    self.workspaces@,
                    has_handle(key),
                ) == Some(i as int),
                None => search::first_where(self.workspaces@, has_handle(key)) is None,
            },
    {
        let ghost p = has_handle(key);
        let mut i: usize = 0;
        while i < self.workspaces.len()
            invariant
                i <= self.workspaces@.len(),
                p == has_handle(key),
                forall|j: int| 0 <= j < i ==> !p(#[trigger] self.workspaces@[j]),
            decreases self.workspaces@.len() - i,
        {
            if self.workspaces[i].handle == key {
                proof {
                    search::lemma_first_where_is(self.workspaces@, p, i as int);
                }
                return Some(i);
            }
            i += 1;
        }
        proof {
            search::lemma_first_where_none(self.workspaces@, p);
        }
        None
    }

    /// Whether a window is on the workspace.
    pub fn is_occupied(&self, workspace: ObjectKey) -> (b: bool)
        ensures
            b == self.occupied(workspace),
    {
        let mut i: usize = 0;
        while i < self.toplevels.len()
            invariant
                i <= self.toplevels@.len(),
                forall|j: int|
                    0 <= j < i ==> !(#[trigger] self.toplevels@[j]).workspaces@.contains(workspace),
            decreases self.toplevels@.len() - i,
        {
            if holds(&self.toplevels[i].workspaces, workspace) {
                return true;
            }
            i += 1;
        }
        false
    }

    /// Whether a window other than `closed` is on the workspace.
    pub fn is_occupied_without(&self, workspace: ObjectKey, closed: ObjectKey) -> (b: bool)
        ensures
            b == self.occupied_without(workspace, closed),
    {
        let mut i: usize = 0;
        while i < self.toplevels.len()
            invariant
                i <= self.toplevels@.len(),
                forall|j: int|
                    0 <= j < i && (#[trigger] self.toplevels@[j]).handle != closed
                        ==> !self.toplevels@[j].workspaces@.contains(workspace),
            decreases self.toplevels@.len() - i,
        {
            if self.toplevels[i].handle != closed && holds(
                &self.toplevels[i].workspaces,
                workspace,
            ) {
                return true;
            }
            i += 1;
        }
        false
    }

    /// The handles of a group's workspaces.
    pub fn member_handles(&self, group: &WorkspaceGroup) -> (out: Vec<ObjectKey>)
        ensures
            out@ == handles(self.members(*group)),
    {
        let ghost p = is_member(*group);
        let mut out: Vec<ObjectKey> = Vec::new();
        let mut i: usize = 0;
        while i < self.workspaces.len()
            invariant
                i <= self.workspaces@.len(),
                p == is_member(*group),
                out@ == handles(search::all_where(self.workspaces@.take(i as int), p)),
            decreases self.workspaces@.len() - i,
        {
            proof {
                assert(self.workspaces@.take(i + 1).drop_last() =~= self.workspaces@.take(
                    i as int,
                ));
            }
            if holds(&group.workspaces, self.workspaces[i].handle) {
                out.push(self.workspaces[i].handle);
                proof {
                    let kept = search::all_where(self.workspaces@.take(i as int), p);
                    assert(handles(kept.push(self.workspaces@[i as int])) =~= handles(kept).push(
                        self.workspaces@[i as int].handle,
                    ));
                }
            }
            i += 1;
        }
        proof {
            assert(self.workspaces@.take(i as int) =~= self.workspaces@);
        }
        out
    }
}

/// The handles of workspaces.
pub open spec fn handles(workspaces: Seq<Workspace>) -> Seq<ObjectKey> {
    workspaces.map_values(|w: Workspace| w.handle)
}

} // verus!
