//! Following the active workspace, and going back to a recent one when the
//! active one empties.

use std::collections::{HashMap, HashSet, VecDeque};

use vstd::prelude::*;

use crate::ids;
use crate::ids::{protocol_id, WorkspaceId};
use crate::search;
use crate::search::holds;
use crate::world;
use crate::world::{is_active, Workspace, WorkspaceGroup, World};

verus! {

/// How many recent workspaces are remembered.
pub const MRU_CAP: usize = 16;

/// What the selection reads of a workspace.
#[derive(Debug, Clone)]
pub struct WorkspaceMeta {
    pub id: WorkspaceId,
    pub coordinates: Vec<u32>,
    /// The group that the workspace is in.
    pub group_id: u64,
}

/// The model of a [`WorkspaceMeta`].
#[verifier::ext_equal]
pub ghost struct MetaView {
    pub id: WorkspaceId,
    pub coordinates: Seq<u32>,
    pub group_id: u64,
}

impl View for WorkspaceMeta {
    type V = MetaView;

    open spec fn view(&self) -> MetaView {
        MetaView { id: self.id, coordinates: self.coordinates@, group_id: self.group_id }
    }
}

/// The models of `metas`.
pub open spec fn metas_view(metas: Seq<WorkspaceMeta>) -> Seq<MetaView> {
    metas.map_values(|m: WorkspaceMeta| m@)
}

// ---------------------------------------------------------------------------
// Selecting a target
// ---------------------------------------------------------------------------

/// Whether `a` comes before `b` in lexicographic order.
pub open spec fn lex_before(a: Seq<u32>, b: Seq<u32>) -> bool
    decreases a.len(),
{
    if b.len() == 0 {
        false
    } else if a.len() == 0 {
        true
    } else if a[0] != b[0] {
        a[0] < b[0]
    } else {
        lex_before(a.drop_first(), b.drop_first())
    }
}

/// Whether `a` comes before `b`: by coordinates, then by identifier.
pub open spec fn meta_before(a: MetaView, b: MetaView) -> bool {
    lex_before(a.coordinates, b.coordinates) || (a.coordinates == b.coordinates && a.id < b.id)
}

/// Whether the group has a workspace `id`.
pub open spec fn in_group(metas: Seq<MetaView>, id: WorkspaceId) -> bool {
    exists|i: int| 0 <= i < metas.len() && (#[trigger] metas[i]).id == id
}

/// A workspace to go to: another one of the group, with a window on it.
pub open spec fn is_target(
    current: WorkspaceId,
    metas: Seq<MetaView>,
    occupied: Set<WorkspaceId>,
) -> spec_fn(WorkspaceId) -> bool {
    |id: WorkspaceId| id != current && in_group(metas, id) && occupied.contains(id)
}

/// The first workspace to go to, by coordinates and then by identifier.
pub open spec fn lowest_target(
    metas: Seq<MetaView>,
    current: WorkspaceId,
    occupied: Set<WorkspaceId>,
) -> Option<int>
    decreases metas.len(),
{
    if metas.len() == 0 {
        None
    } else {
        let last = metas.len() - 1;
        let best = lowest_target(metas.drop_last(), current, occupied);
        if metas[last].id != current && occupied.contains(metas[last].id) && (best is None
            || meta_before(metas[last], metas[best->Some_0])) {
            Some(last)
        } else {
            best
        }
    }
}

/// The workspace to go to from `current`: the most recent one that will do,
/// else the lowest that will do.
pub open spec fn jump_target(
    current: WorkspaceId,
    metas: Seq<MetaView>,
    occupied: Set<WorkspaceId>,
    recent: Seq<WorkspaceId>,
) -> Option<WorkspaceId> {
    match search::first_where(recent, is_target(current, metas, occupied)) {
        Some(i) => Some(recent[i]),
        None => match lowest_target(metas, current, occupied) {
            Some(i) => Some(metas[i].id),
            None => None,
        },
    }
}

/// Whether `a` comes before `b` in lexicographic order.
fn coordinates_before(a: &Vec<u32>, b: &Vec<u32>) -> (before: bool)
    ensures
        before == lex_before(a@, b@),
{
    let mut i: usize = 0;
    proof {
        assert(a@.skip(0) =~= a@);
        assert(b@.skip(0) =~= b@);
    }
    while i < a.len() && i < b.len() && a[i] == b[i]
        invariant
            i <= a@.len(),
            i <= b@.len(),
            lex_before(a@, b@) == lex_before(a@.skip(i as int), b@.skip(i as int)),
        decreases a@.len() - i,
    {
        proof {
            assert(a@.skip(i as int).drop_first() =~= a@.skip(i + 1));
            assert(b@.skip(i as int).drop_first() =~= b@.skip(i + 1));
        }
        i += 1;
    }
    if i == b.len() {
        false
    } else if i == a.len() {
        true
    } else {
        a[i] < b[i]
    }
}

/// Whether the two are the same.
fn coordinates_equal(a: &Vec<u32>, b: &Vec<u32>) -> (equal: bool)
    ensures
        equal == (a@ == b@),
{
    if a.len() != b.len() {
        return false;
    }
    let mut i: usize = 0;
    while i < a.len()
        invariant
            a@.len() == b@.len(),
            i <= a@.len(),
            forall|j: int| 0 <= j < i ==> a@[j] == b@[j],
        decreases a@.len() - i,
    {
        if a[i] != b[i] {
            return false;
        }
        i += 1;
    }
    proof {
        assert(a@ =~= b@);
    }
    true
}

/// Whether the group has a workspace `id`.
fn group_holds(metas: &[WorkspaceMeta], id: WorkspaceId) -> (b: bool)
    ensures
        b == in_group(metas_view(metas@), id),
{
    let mut i: usize = 0;
    while i < metas.len()
        invariant
            i <= metas@.len(),
            forall|j: int| 0 <= j < i ==> (#[trigger] metas@[j]).id != id,
        decreases metas@.len() - i,
    {
        if metas[i].id == id {
            proof {
                assert(metas_view(metas@)[i as int].id == id);
            }
            return true;
        }
        i += 1;
    }
    proof {
        assert forall|j: int| 0 <= j < metas@.len() implies (#[trigger] metas_view(metas@)[j]).id
            != id by {
            assert(metas@[j].id != id);
        }
    }
    false
}

/// Selects the workspace to go to from `current_ws_id`, which just emptied.
///
/// The most recent workspace counts that is another one of the group with a
/// window on it; else, of those, the one with the lowest coordinates and then
/// the lowest identifier; else none.
pub fn select_jump_target(
    current_ws_id: WorkspaceId,
    group_workspaces: &[WorkspaceMeta],
    occupied: &HashSet<WorkspaceId>,
    recent: &VecDeque<WorkspaceId>,
) -> (target: Option<WorkspaceId>)
    ensures
        target == jump_target(
            current_ws_id,
            metas_view(group_workspaces@),
            occupied@,
            recent@,
        ),
{
    let ghost metas = metas_view(group_workspaces@);
    let ghost p = is_target(current_ws_id, metas, occupied@);
    let mut r: usize = 0;
    while r < recent.len()
        invariant
            r <= recent@.len(),
            metas == metas_view(group_workspaces@),
            p == is_target(current_ws_id, metas, occupied@),
            forall|j: int| 0 <= j < r ==> !p(#[trigger] recent@[j]),
        decreases recent@.len() - r,
    {
        let id: WorkspaceId = recent[r];
        if id != current_ws_id && group_holds(group_workspaces, id) && occupied.contains(&id) {
            proof {
                search::lemma_first_where_is(recent@, p, r as int);
            }
            return Some(id);
        }
        r += 1;
    }
    proof {
        search::lemma_first_where_none(recent@, p);
    }
    let mut best: Option<usize> = None;
    let mut i: usize = 0;
    while i < group_workspaces.len()
        invariant
            i <= group_workspaces@.len(),
            metas == metas_view(group_workspaces@),
            match best {
                Some(b) => b < i && lowest_target(metas.take(i as int), current_ws_id, occupied@)
                    == Some(b as int),
                None => lowest_target(metas.take(i as int), current_ws_id, occupied@) is None,
            },
        decreases group_workspaces@.len() - i,
    {
        let w: &WorkspaceMeta = &group_workspaces[i];
        proof {
            assert(metas.take(i + 1).drop_last() =~= metas.take(i as int));
            assert(metas[i as int] == w@);
        }
        if w.id != current_ws_id && occupied.contains(&w.id) {
            best = match best {
                Some(b) => {
                    let held: &WorkspaceMeta = &group_workspaces[b];
                    proof {
                        assert(metas[b as int] == held@);
                    }
                    if coordinates_before(&w.coordinates, &held.coordinates) || (coordinates_equal(
                        &w.coordinates,
                        &held.coordinates,
                    ) && w.id < held.id) {
                        Some(i)
                    } else {
                        Some(b)
                    }
                },
                None => Some(i),
            };
        }
        i += 1;
    }
    proof {
        assert(metas.take(i as int) =~= metas);
    }
    match best {
        Some(b) => Some(group_workspaces[b].id),
        None => None,
    }
}

// ---------------------------------------------------------------------------
// Remembering recent workspaces
// ---------------------------------------------------------------------------

/// Anything but `id`.
pub open spec fn other_than(id: WorkspaceId) -> spec_fn(WorkspaceId) -> bool {
    |x: WorkspaceId| x != id
}

/// At most the first `cap` items.
pub open spec fn capped(s: Seq<WorkspaceId>, cap: nat) -> Seq<WorkspaceId> {
    if s.len() > cap {
        s.take(cap as int)
    } else {
        s
    }
}

/// `recent` once `id` was visited: `id` first, nothing else moved, and the
/// oldest dropped beyond `cap`.
pub open spec fn recorded(recent: Seq<WorkspaceId>, id: WorkspaceId, cap: nat) -> Seq<WorkspaceId> {
    capped(seq![id] + search::all_where(recent, other_than(id)), cap)
}

/// Puts `ws_id` in front, where it then stands alone, and keeps at most `cap`
/// entries.
pub fn record_mru_transition(deque: &mut VecDeque<WorkspaceId>, ws_id: WorkspaceId, cap: usize)
    ensures
        final(deque)@ == recorded(old(deque)@, ws_id, cap as nat),
{
    let ghost before = deque@;
    let ghost p = other_than(ws_id);
    let mut i: usize = 0;
    let ghost mut seen: int = 0;
    while i < deque.len()
        invariant
            i <= deque@.len(),
            0 <= seen <= before.len(),
            p == other_than(ws_id),
            deque@.len() - i == before.len() - seen,
            deque@.take(i as int) == search::all_where(before.take(seen), p),
            deque@.skip(i as int) == before.skip(seen),
        decreases deque@.len() - i,
    {
        proof {
            assert(deque@[i as int] == deque@.skip(i as int)[0]);
            assert(before[seen] == before.skip(seen)[0]);
            assert(before.take(seen + 1).drop_last() =~= before.take(seen));
            assert(before.skip(seen + 1) =~= before.skip(seen).drop_first());
        }
        if deque[i] == ws_id {
            let ghost held = deque@;
            deque.remove(i);
            proof {
                assert(deque@.take(i as int) =~= held.take(i as int));
                assert(deque@.skip(i as int) =~= held.skip(i as int).drop_first());
            }
        } else {
            proof {
                assert(deque@.take(i + 1) =~= deque@.take(i as int).push(deque@[i as int]));
                assert(deque@.skip(i + 1) =~= deque@.skip(i as int).drop_first());
            }
            i += 1;
        }
        proof {
            seen = seen + 1;
        }
    }
    proof {
        assert(before.take(seen) =~= before);
        assert(deque@.take(i as int) =~= deque@);
    }
    deque.push_front(ws_id);
    proof {
        assert(deque@ =~= seq![ws_id] + search::all_where(before, p));
    }
    if deque.len() > cap {
        deque.truncate(cap);
    }
}

/// `recent` once all of `visited` were visited, in order.
pub open spec fn recorded_all(
    recent: Seq<WorkspaceId>,
    visited: Seq<WorkspaceId>,
    cap: nat,
) -> Seq<WorkspaceId>
    decreases visited.len(),
{
    if visited.len() == 0 {
        recent
    } else {
        recorded(recorded_all(recent, visited.drop_last(), cap), visited.last(), cap)
    }
}

// ---------------------------------------------------------------------------
// Noticing that another workspace became active
// ---------------------------------------------------------------------------

/// The last known active workspace of each group, and the workspaces that
/// became active, once `active` was seen.
pub open spec fn transitions(
    last_known: Map<u64, WorkspaceId>,
    active: Seq<(u64, WorkspaceId)>,
) -> (Map<u64, WorkspaceId>, Seq<WorkspaceId>)
    decreases active.len(),
{
    if active.len() == 0 {
        (last_known, Seq::empty())
    } else {
        let (known, out) = transitions(last_known, active.drop_last());
        let (group, workspace) = active.last();
        if known.contains_key(group) && known[group] == workspace {
            (known, out)
        } else {
            (known.insert(group, workspace), out.push(workspace))
        }
    }
}

/// Compares the active workspace of each group with the last known one, and
/// returns those that became active, in order. A group that is gone keeps its
/// last known workspace.
pub fn detect_transitions_and_update(
    last_known_active: &mut HashMap<u64, WorkspaceId>,
    current_active: &[(u64, WorkspaceId)],
) -> (out: Vec<WorkspaceId>)
    ensures
        (final(last_known_active)@, out@) == transitions(
            old(last_known_active)@,
            current_active@,
        ),
{
    let ghost before = last_known_active@;
    let mut out: Vec<WorkspaceId> = Vec::new();
    let mut i: usize = 0;
    while i < current_active.len()
        invariant
            i <= current_active@.len(),
            (last_known_active@, out@) == transitions(before, current_active@.take(i as int)),
        decreases current_active@.len() - i,
    {
        let (group_id, active_ws_id): (u64, WorkspaceId) = current_active[i];
        proof {
            assert(current_active@.take(i + 1).drop_last() =~= current_active@.take(i as int));
        }
        let unchanged: bool = match last_known_active.get(&group_id) {
            Some(previous) => *previous == active_ws_id,
            None => false,
        };
        if !unchanged {
            last_known_active.insert(group_id, active_ws_id);
            out.push(active_ws_id);
        }
        i += 1;
    }
    proof {
        assert(current_active@.take(i as int) =~= current_active@);
    }
    out
}

/// An active workspace of the group.
pub open spec fn is_active_member(group: WorkspaceGroup) -> spec_fn(Workspace) -> bool {
    |w: Workspace| group.workspaces@.contains(w.handle) && w.is_active()
}

/// The first active workspace of each group that has one.
pub open spec fn active_pairs(
    groups: Seq<WorkspaceGroup>,
    workspaces: Seq<Workspace>,
) -> Seq<(u64, WorkspaceId)>
    decreases groups.len(),
{
    if groups.len() == 0 {
        Seq::empty()
    } else {
        let before = active_pairs(groups.drop_last(), workspaces);
        let group = groups.last();
        match search::first_where(workspaces, is_active_member(group)) {
            Some(i) => before.push(
                (ids::object_number(group.handle), ids::object_number(workspaces[i].handle)),
            ),
            None => before,
        }
    }
}

/// The first active workspace of the group.
fn find_active_member(workspaces: &Vec<Workspace>, group: &WorkspaceGroup) -> (found: Option<usize>)
    ensures
        match found {
            Some(i) => i < workspaces@.len() && search::first_where(
                workspaces@,
                is_active_member(*group),
            ) == Some(i as int),
            None => search::first_where(workspaces@, is_active_member(*group)) is None,
        },
{
    let ghost p = is_active_member(*group);
    let mut i: usize = 0;
    while i < workspaces.len()
        invariant
            i <= workspaces@.len(),
            p == is_active_member(*group),
            forall|j: int| 0 <= j < i ==> !p(#[trigger] workspaces@[j]),
        decreases workspaces@.len() - i,
    {
        if holds(&group.workspaces, workspaces[i].handle) && is_active(&workspaces[i]) {
            proof {
                search::lemma_first_where_is(workspaces@, p, i as int);
            }
            return Some(i);
        }
        i += 1;
    }
    proof {
        search::lemma_first_where_none(workspaces@, p);
    }
    None
}

/// Notices which workspaces became active, and puts them in front of `deque`.
pub fn update_mru_from_active_transitions(
    last_known_active: &mut HashMap<u64, WorkspaceId>,
    deque: &mut VecDeque<WorkspaceId>,
    world: &World,
    cap: usize,
)
    ensures
        ({
            let seen = transitions(
                old(last_known_active)@,
                active_pairs(world.groups@, world.workspaces@),
            );
            &&& final(last_known_active)@ == seen.0
            &&& final(deque)@ == recorded_all(old(deque)@, seen.1, cap as nat)
        }),
{
    let mut current_active: Vec<(u64, WorkspaceId)> = Vec::new();
    let mut g: usize = 0;
    while g < world.groups.len()
        invariant
            g <= world.groups@.len(),
            current_active@ == active_pairs(world.groups@.take(g as int), world.workspaces@),
        decreases world.groups@.len() - g,
    {
        proof {
            assert(world.groups@.take(g + 1).drop_last() =~= world.groups@.take(g as int));
        }
        if let Some(w) = find_active_member(&world.workspaces, &world.groups[g]) {
            current_active.push(
                (protocol_id(world.groups[g].handle), protocol_id(world.workspaces[w].handle)),
            );
        }
        g += 1;
    }
    proof {
        assert(world.groups@.take(g as int) =~= world.groups@);
    }
    let visited: Vec<WorkspaceId> = detect_transitions_and_update(
        last_known_active,
        current_active.as_slice(),
    );
    let ghost before = deque@;
    let mut i: usize = 0;
    while i < visited.len()
        invariant
            i <= visited@.len(),
            deque@ == recorded_all(before, visited@.take(i as int), cap as nat),
        decreases visited@.len() - i,
    {
        proof {
            assert(visited@.take(i + 1).drop_last() =~= visited@.take(i as int));
        }
        record_mru_transition(deque, visited[i], cap);
        i += 1;
    }
    proof {
        assert(visited@.take(i as int) =~= visited@);
    }
}

// ---------------------------------------------------------------------------
// Deciding whether to go back
// ---------------------------------------------------------------------------

/// What the decision reads when a window closes. The maps are keyed by the
/// workspaces that the window was on, and by their groups.
pub struct TriggerInput<'a> {
    pub closed_workspaces: &'a [WorkspaceId],
    pub is_active: &'a HashMap<WorkspaceId, bool>,
    /// How many other windows are on the workspace.
    pub occupied_excluding_closed: &'a HashMap<WorkspaceId, usize>,
    pub group_id_for: &'a HashMap<WorkspaceId, Option<u64>>,
    pub group_workspaces: &'a HashMap<u64, Vec<WorkspaceMeta>>,
    pub group_occupied: &'a HashMap<u64, HashSet<WorkspaceId>>,
    pub recent_mru: &'a VecDeque<WorkspaceId>,
}

/// Why nothing is done.
#[derive(Debug, Clone, Copy, PartialEq, Eq, Structural)]
pub enum NoOpReason {
    /// The window was on no workspace.
    NoWorkspace,
    /// The workspace is not active.
    NotActive,
    /// Other windows are on the workspace.
    StillOccupied { ws: WorkspaceId },
    /// There is no other workspace to go to.
    NoTarget { group_id: u64, source: WorkspaceId },
    /// The workspace is in no group.
    NoGroup { ws: WorkspaceId },
    /// The window was on several workspaces, and none calls for a jump.
    MultiWorkspaceNoMatch { handle_count: usize },
}

#[derive(Debug, Clone, Copy, PartialEq, Eq, Structural)]
pub enum TriggerOutcome {
    Jump { source: WorkspaceId, target: WorkspaceId, group_id: u64 },
    NoOp { reason: NoOpReason },
}

/// The model of a [`TriggerInput`].
#[verifier::ext_equal]
pub ghost struct TriggerView {
    pub closed: Seq<WorkspaceId>,
    pub is_active: Map<WorkspaceId, bool>,
    pub others: Map<WorkspaceId, usize>,
    pub group_of: Map<WorkspaceId, Option<u64>>,
    pub group_workspaces: Map<u64, Seq<MetaView>>,
    pub group_occupied: Map<u64, Set<WorkspaceId>>,
    pub recent: Seq<WorkspaceId>,
}

impl<'a> View for TriggerInput<'a> {
    type V = TriggerView;

    open spec fn view(&self) -> TriggerView {
        TriggerView {
            closed: self.closed_workspaces@,
            is_active: self.is_active@,
            others: self.occupied_excluding_closed@,
            group_of: self.group_id_for@,
            group_workspaces: self.group_workspaces@.map_values(
                |v: Vec<WorkspaceMeta>| metas_view(v@),
            ),
            group_occupied: self.group_occupied@.map_values(|s: HashSet<WorkspaceId>| s@),
            recent: self.recent_mru@,
        }
    }
}

pub open spec fn no_op(reason: NoOpReason) -> TriggerOutcome {
    TriggerOutcome::NoOp { reason }
}

impl TriggerView {
    /// The workspaces of a group; none of a group that is not listed.
    pub open spec fn workspaces_of(self, group: u64) -> Seq<MetaView> {
        if self.group_workspaces.contains_key(group) {
            self.group_workspaces[group]
        } else {
            Seq::empty()
        }
    }

    /// The occupied workspaces of a group; none of a group that is not listed.
    pub open spec fn occupied_of(self, group: u64) -> Set<WorkspaceId> {
        if self.group_occupied.contains_key(group) {
            self.group_occupied[group]
        } else {
            Set::empty()
        }
    }

    /// What one workspace that the window was on calls for.
    pub open spec fn outcome_for(self, ws: WorkspaceId) -> TriggerOutcome {
        if !(self.is_active.contains_key(ws) && self.is_active[ws]) {
            no_op(NoOpReason::NotActive)
        } else if self.others.contains_key(ws) && self.others[ws] > 0 {
            no_op(NoOpReason::StillOccupied { ws })
        } else if !self.group_of.contains_key(ws) || self.group_of[ws] is None {
            no_op(NoOpReason::NoGroup { ws })
        } else {
            let group_id = self.group_of[ws]->Some_0;
            match jump_target(
                ws,
                self.workspaces_of(group_id),
                self.occupied_of(group_id),
                self.recent,
            ) {
                Some(target) => TriggerOutcome::Jump { source: ws, target, group_id },
                None => no_op(NoOpReason::NoTarget { group_id, source: ws }),
            }
        }
    }

    /// A workspace that calls for a jump.
    pub open spec fn jumps(self) -> spec_fn(WorkspaceId) -> bool {
        |ws: WorkspaceId| self.outcome_for(ws) is Jump
    }

    /// What the first workspace that calls for a jump calls for; else why none
    /// does.
    pub open spec fn outcome(self) -> TriggerOutcome {
        match search::first_where(self.closed, self.jumps()) {
            Some(i) => self.outcome_for(self.closed[i]),
            None => if self.closed.len() == 0 {
                no_op(NoOpReason::NoWorkspace)
            } else if self.closed.len() == 1 {
                self.outcome_for(self.closed[0])
            } else {
                no_op(NoOpReason::MultiWorkspaceNoMatch { handle_count: self.closed.len() as usize })
            },
        }
    }
}

/// Decides whether the closed window's workspace calls for a jump.
pub fn evaluate_trigger(input: &TriggerInput) -> (outcome: TriggerOutcome)
    ensures
        outcome == input@.outcome(),
{
    let n: usize = input.closed_workspaces.len();
    let ghost view = input@;
    let ghost p = view.jumps();
    let mut only: TriggerOutcome = TriggerOutcome::NoOp { reason: NoOpReason::NoWorkspace };
    let mut i: usize = 0;
    while i < n
        invariant
            n == input.closed_workspaces@.len(),
            i <= n,
            view == input@,
            p == view.jumps(),
            forall|j: int| 0 <= j < i ==> !p(#[trigger] view.closed[j]),
            i == 0 ==> only == no_op(NoOpReason::NoWorkspace),
            i == 1 ==> only == view.outcome_for(view.closed[0]),
        decreases n - i,
    {
        let ws: WorkspaceId = input.closed_workspaces[i];
        only = evaluate_workspace(input, ws);
        if let TriggerOutcome::Jump { .. } = only {
            proof {
                search::lemma_first_where_is(view.closed, p, i as int);
            }
            return only;
        }
        i += 1;
    }
    proof {
        search::lemma_first_where_none(view.closed, p);
    }
    if n <= 1 {
        only
    } else {
        TriggerOutcome::NoOp { reason: NoOpReason::MultiWorkspaceNoMatch { handle_count: n } }
    }
}

/// What one workspace that the window was on calls for.
fn evaluate_workspace(input: &TriggerInput, ws: WorkspaceId) -> (outcome: TriggerOutcome)
    ensures
        outcome == input@.outcome_for(ws),
{
    let active: bool = match input.is_active.get(&ws) {
        Some(b) => *b,
        None => false,
    };
    if !active {
        return TriggerOutcome::NoOp { reason: NoOpReason::NotActive };
    }
    let others: usize = match input.occupied_excluding_closed.get(&ws) {
        Some(n) => *n,
        None => 0,
    };
    if others > 0 {
        return TriggerOutcome::NoOp { reason: NoOpReason::StillOccupied { ws } };
    }
    let group: Option<u64> = match input.group_id_for.get(&ws) {
        Some(g) => *g,
        None => None,
    };
    let group_id: u64 = match group {
        Some(g) => g,
        None => {
            return TriggerOutcome::NoOp { reason: NoOpReason::NoGroup { ws } };
        },
    };
    let no_workspaces: Vec<WorkspaceMeta> = Vec::new();
    let workspaces: &Vec<WorkspaceMeta> = match input.group_workspaces.get(&group_id) {
        Some(v) => v,
        None => &no_workspaces,
    };
    let none_occupied: HashSet<WorkspaceId> = HashSet::new();
    let occupied: &HashSet<WorkspaceId> = match input.group_occupied.get(&group_id) {
        Some(s) => s,
        None => &none_occupied,
    };
    proof {
        assert(metas_view(Seq::empty()) =~= Seq::empty());
        assert(metas_view(workspaces@) =~= input@.workspaces_of(group_id));
        assert(occupied@ =~= input@.occupied_of(group_id));
    }
    match select_jump_target(ws, workspaces.as_slice(), occupied, input.recent_mru) {
        Some(target) => TriggerOutcome::Jump { source: ws, target, group_id },
        None => TriggerOutcome::NoOp { reason: NoOpReason::NoTarget { group_id, source: ws } },
    }
}

// ---------------------------------------------------------------------------
// Laws
// ---------------------------------------------------------------------------

/// A jump goes to another workspace of the group that has a window on it, and
/// there is a jump wherever there is such a workspace.
pub proof fn law_jump_target(
    current: WorkspaceId,
    metas: Seq<MetaView>,
    occupied: Set<WorkspaceId>,
    recent: Seq<WorkspaceId>,
)
    ensures
        jump_target(current, metas, occupied, recent) matches Some(t) ==> t != current && in_group(
            metas,
            t,
        ) && occupied.contains(t),
        jump_target(current, metas, occupied, recent) is None <==> forall|i: int|
            0 <= i < metas.len() ==> (#[trigger] metas[i]).id == current || !occupied.contains(
                metas[i].id,
            ),
{
    search::lemma_first_where(recent, is_target(current, metas, occupied));
    lemma_lowest_target(metas, current, occupied);
    if let Some(r) = search::first_where(recent, is_target(current, metas, occupied)) {
        let i = choose|i: int| 0 <= i < metas.len() && (#[trigger] metas[i]).id == recent[r];
        assert(metas[i].id != current && occupied.contains(metas[i].id));
    } else if let Some(i) = lowest_target(metas, current, occupied) {
        assert(metas[i].id != current && occupied.contains(metas[i].id));
    }
}

/// Where a recent workspace will do, the most recent such one is the target.
pub proof fn law_most_recent_wins(
    current: WorkspaceId,
    metas: Seq<MetaView>,
    occupied: Set<WorkspaceId>,
    recent: Seq<WorkspaceId>,
    i: int,
)
    requires
        0 <= i < recent.len(),
        is_target(current, metas, occupied)(recent[i]),
        forall|j: int| 0 <= j < i ==> !is_target(current, metas, occupied)(#[trigger] recent[j]),
    ensures
        jump_target(current, metas, occupied, recent) == Some(recent[i]),
{
    search::lemma_first_where_is(recent, is_target(current, metas, occupied), i);
}

proof fn lemma_lex_before_transitive(a: Seq<u32>, b: Seq<u32>, c: Seq<u32>)
    requires
        lex_before(a, b),
        lex_before(b, c),
    ensures
        lex_before(a, c),
    decreases a.len(),
{
    if a.len() > 0 && a[0] == b[0] && b[0] == c[0] {
        lemma_lex_before_transitive(a.drop_first(), b.drop_first(), c.drop_first());
    }
}

proof fn lemma_meta_before_transitive(a: MetaView, b: MetaView, c: MetaView)
    requires
        meta_before(a, b),
        meta_before(b, c),
    ensures
        meta_before(a, c),
{
    if lex_before(a.coordinates, b.coordinates) && lex_before(b.coordinates, c.coordinates) {
        lemma_lex_before_transitive(a.coordinates, b.coordinates, c.coordinates);
    }
}

/// What `lowest_target` picks will do, and none that will do comes before it.
proof fn lemma_lowest_target(metas: Seq<MetaView>, current: WorkspaceId, occupied: Set<WorkspaceId>)
    ensures
        match lowest_target(metas, current, occupied) {
            Some(i) => {
                &&& 0 <= i < metas.len()
                &&& metas[i].id != current
                &&& occupied.contains(metas[i].id)
                &&& forall|j: int|
                    0 <= j < metas.len() && (#[trigger] metas[j]).id != current
                        && occupied.contains(metas[j].id) ==> !meta_before(metas[j], metas[i])
            },
            None => forall|j: int|
                0 <= j < metas.len() ==> (#[trigger] metas[j]).id == current || !occupied.contains(
                    metas[j].id,
                ),
        },
    decreases metas.len(),
{
    if metas.len() > 0 {
        let last = metas.len() - 1;
        let front = metas.drop_last();
        let best = lowest_target(front, current, occupied);
        lemma_lowest_target(front, current, occupied);
        assert forall|j: int| 0 <= j < last implies front[j] == #[trigger] metas[j] by {}
        lemma_lex_before_irreflexive(metas[last].coordinates);
        if lowest_target(metas, current, occupied) == Some(last) && best is Some {
            assert forall|j: int|
                0 <= j < metas.len() && (#[trigger] metas[j]).id != current && occupied.contains(
                    metas[j].id,
                ) implies !meta_before(metas[j], metas[last]) by {
                if j < last && meta_before(metas[j], metas[last]) {
                    lemma_meta_before_transitive(metas[j], metas[last], metas[best->Some_0]);
                }
            }
        }
    }
}

proof fn lemma_lex_before_irreflexive(a: Seq<u32>)
    ensures
        !lex_before(a, a),
    decreases a.len(),
{
    if a.len() > 0 {
        lemma_lex_before_irreflexive(a.drop_first());
    }
}

/// Where no recent workspace will do, the target comes first, by coordinates
/// and then by identifier, of all that will do.
pub proof fn law_fallback_is_lowest(
    current: WorkspaceId,
    metas: Seq<MetaView>,
    occupied: Set<WorkspaceId>,
    recent: Seq<WorkspaceId>,
)
    requires
        forall|j: int|
            0 <= j < recent.len() ==> !is_target(current, metas, occupied)(#[trigger] recent[j]),
    ensures
        jump_target(current, metas, occupied, recent) matches Some(t) ==> exists|i: int|
            0 <= i < metas.len() && (#[trigger] metas[i]).id == t && forall|j: int|
                0 <= j < metas.len() && (#[trigger] metas[j]).id != current && occupied.contains(
                    metas[j].id,
                ) ==> !meta_before(metas[j], metas[i]),
{
    search::lemma_first_where_none(recent, is_target(current, metas, occupied));
    lemma_lowest_target(metas, current, occupied);
}

/// The list of recent workspaces never holds one twice and never holds more
/// than the cap; what was just visited is in front.
pub proof fn law_recorded(recent: Seq<WorkspaceId>, id: WorkspaceId, cap: nat)
    requires
        recent.no_duplicates(),
    ensures
        recorded(recent, id, cap).no_duplicates(),
        recorded(recent, id, cap).len() <= cap,
        cap > 0 ==> recorded(recent, id, cap).len() > 0 && recorded(recent, id, cap)[0] == id,
{
    let rest = search::all_where(recent, other_than(id));
    search::lemma_all_where_distinct(recent, other_than(id));
    search::lemma_all_where(recent, other_than(id));
    let all = seq![id] + rest;
    assert forall|i: int, j: int| 0 <= i < j < all.len() implies all[i] != all[j] by {
        assert(all[j] == rest[j - 1]);
        if i > 0 {
            assert(all[i] == rest[i - 1]);
        }
    }
}

/// The same of any number of visits.
pub proof fn law_recorded_all(recent: Seq<WorkspaceId>, visited: Seq<WorkspaceId>, cap: nat)
    requires
        recent.no_duplicates(),
        recent.len() <= cap,
    ensures
        recorded_all(recent, visited, cap).no_duplicates(),
        recorded_all(recent, visited, cap).len() <= cap,
    decreases visited.len(),
{
    if visited.len() > 0 {
        law_recorded_all(recent, visited.drop_last(), cap);
        law_recorded(recorded_all(recent, visited.drop_last(), cap), visited.last(), cap);
    }
}

/// Visiting a workspace again at once changes nothing.
pub proof fn law_recording_twice(recent: Seq<WorkspaceId>, id: WorkspaceId, cap: nat)
    ensures
        recorded(recorded(recent, id, cap), id, cap) == recorded(recent, id, cap),
{
    let p = other_than(id);
    let rest = search::all_where(recent, p);
    let once = recorded(recent, id, cap);
    search::lemma_all_where(recent, p);
    if once.len() > 0 {
        let tail = once.drop_first();
        assert(once =~= seq![id] + tail);
        assert forall|j: int| 0 <= j < tail.len() implies p(#[trigger] tail[j]) by {
            assert(tail[j] == rest[j]);
        }
        search::lemma_all_where_all(tail, p);
        search::lemma_all_where_concat(seq![id], tail, p);
        assert(seq![id].drop_last() =~= Seq::<WorkspaceId>::empty());
        reveal_with_fuel(search::all_where, 2);
        assert(search::all_where(seq![id], p) =~= Seq::<WorkspaceId>::empty());
        assert(search::all_where(once, p) =~= tail);
    } else {
        assert(search::all_where(once, p) =~= Seq::<WorkspaceId>::empty());
    }
    assert(recorded(once, id, cap) =~= once);
}

/// Seeing a group's active workspace makes it the last known one.
proof fn lemma_transitions_known(
    last_known: Map<u64, WorkspaceId>,
    active: Seq<(u64, WorkspaceId)>,
    i: int,
)
    requires
        0 <= i < active.len(),
        forall|a: int, b: int|
            0 <= a < b < active.len() ==> (#[trigger] active[a]).0 != (#[trigger] active[b]).0,
    ensures
        transitions(last_known, active).0.contains_key(active[i].0),
        transitions(last_known, active).0[active[i].0] == active[i].1,
    decreases active.len(),
{
    let front = active.drop_last();
    if i < front.len() {
        assert forall|a: int, b: int| 0 <= a < b < front.len() implies (#[trigger] front[a]).0 != (
        #[trigger] front[b]).0 by {
            assert(active[a].0 != active[b].0);
        }
        lemma_transitions_known(last_known, front, i);
        assert(active[i].0 != active[active.len() - 1].0);
    }
}

proof fn lemma_no_transitions(known: Map<u64, WorkspaceId>, active: Seq<(u64, WorkspaceId)>)
    requires
        forall|i: int|
            0 <= i < active.len() ==> known.contains_key((#[trigger] active[i]).0)
                && known[active[i].0] == active[i].1,
    ensures
        transitions(known, active) == (known, Seq::<WorkspaceId>::empty()),
    decreases active.len(),
{
    if active.len() > 0 {
        let front = active.drop_last();
        assert forall|i: int| 0 <= i < front.len() implies known.contains_key(
            (#[trigger] front[i]).0,
        ) && known[front[i].0] == front[i].1 by {
            assert(active[i] == front[i]);
        }
        lemma_no_transitions(known, front);
        assert(active.last() == active[active.len() - 1]);
    }
}

/// Seeing the same active workspaces again is no transition, as long as no
/// group is listed twice.
pub proof fn law_no_change_no_transition(
    last_known: Map<u64, WorkspaceId>,
    active: Seq<(u64, WorkspaceId)>,
)
    requires
        forall|a: int, b: int|
            0 <= a < b < active.len() ==> (#[trigger] active[a]).0 != (#[trigger] active[b]).0,
    ensures
        ({
            let known = transitions(last_known, active).0;
            transitions(known, active) == (known, Seq::<WorkspaceId>::empty())
        }),
{
    let known = transitions(last_known, active).0;
    assert forall|i: int| 0 <= i < active.len() implies known.contains_key((#[trigger] active[i]).0)
        && known[active[i].0] == active[i].1 by {
        lemma_transitions_known(last_known, active, i);
    }
    lemma_no_transitions(known, active);
}

/// A jump leaves an active workspace that no other window is on, and goes to
/// another occupied workspace of the same group.
pub proof fn law_jump_only_from_empty_active(input: TriggerView)
    ensures
        input.outcome() matches TriggerOutcome::Jump { source, target, group_id } ==> {
            &&& input.closed.contains(source)
            &&& input.is_active.contains_key(source) && input.is_active[source]
            &&& !(input.others.contains_key(source) && input.others[source] > 0)
            &&& input.group_of.contains_key(source) && input.group_of[source] == Some(group_id)
            &&& target != source
            &&& in_group(input.workspaces_of(group_id), target)
            &&& input.occupied_of(group_id).contains(target)
        },
{
    search::lemma_first_where(input.closed, input.jumps());
    if let TriggerOutcome::Jump { source, target, group_id } = input.outcome() {
        law_jump_target(
            source,
            input.workspaces_of(group_id),
            input.occupied_of(group_id),
            input.recent,
        );
        if input.closed.len() == 1 {
            assert(input.closed[0] == source);
        }
    }
}

} // verus!
