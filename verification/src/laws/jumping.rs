//! What comes of a window that closes, stated over the snapshot.

use vstd::prelude::*;

use crate::effects;
use crate::ids;
use crate::ids::{ObjectKey, WorkspaceId};
use crate::jump;
use crate::jump::JumpOutcome;
use crate::laws;
use crate::laws::placing;
use crate::laws::terms;
use crate::mru_jump;
use crate::mru_jump::{NoOpReason, TriggerOutcome};
use crate::search;
use crate::state;
use crate::world;
use crate::world::{Workspace, World};

verus! {

// ---------------------------------------------------------------------------
// Selecting a target
// ---------------------------------------------------------------------------

/// Whether `a` and `b` are the same before place `p`, and there `a` has the
/// lower number, or ends.
pub open spec fn lower_at(a: Seq<u32>, b: Seq<u32>, p: int) -> bool {
    &&& 0 <= p <= a.len()
    &&& p < b.len()
    &&& forall|q: int| 0 <= q < p ==> a[q] == b[q]
    &&& p == a.len() || a[p] < b[p]
}

/// Whether `a` comes before `b`: at the first place where they differ `a` has
/// the lower number, or ends.
pub open spec fn comes_before(a: Seq<u32>, b: Seq<u32>) -> bool {
    exists|p: int| #[trigger] lower_at(a, b, p)
}

proof fn lemma_comes_before(a: Seq<u32>, b: Seq<u32>)
    ensures
        mru_jump::lex_before(a, b) == comes_before(a, b),
    decreases a.len(),
{
    if b.len() > 0 {
        if a.len() == 0 || a[0] < b[0] {
            assert(lower_at(a, b, 0));
        } else if a[0] == b[0] {
            let (s, t) = (a.drop_first(), b.drop_first());
            lemma_comes_before(s, t);
            if comes_before(s, t) {
                let p = choose|p: int| #[trigger] lower_at(s, t, p);
                assert forall|q: int| 0 <= q < p + 1 implies a[q] == b[q] by {
                    if q > 0 {
                        assert(s[q - 1] == t[q - 1]);
                    }
                }
                assert(lower_at(a, b, p + 1));
            }
            if comes_before(a, b) {
                let p = choose|p: int| #[trigger] lower_at(a, b, p);
                assert forall|q: int| 0 <= q < p - 1 implies s[q] == t[q] by {
                    assert(a[q + 1] == b[q + 1]);
                }
                assert(lower_at(s, t, p - 1));
            }
        } else if comes_before(a, b) {
            let p = choose|p: int| #[trigger] lower_at(a, b, p);
            assert(p == 0);
        }
    }
}

/// Whether a workspace of the group can be gone to.
pub open spec fn will_do(
    current: WorkspaceId,
    metas: Seq<mru_jump::MetaView>,
    occupied: Set<WorkspaceId>,
    m: int,
) -> bool {
    0 <= m < metas.len() && metas[m].id != current && occupied.contains(metas[m].id)
}

/// Whether the recent workspace at place `r` can be gone to.
pub open spec fn recent_will_do(
    current: WorkspaceId,
    metas: Seq<mru_jump::MetaView>,
    occupied: Set<WorkspaceId>,
    recent: Seq<WorkspaceId>,
    r: int,
) -> bool {
    0 <= r < recent.len() && exists|m: int| #[trigger]
        will_do(current, metas, occupied, m) && metas[m].id == recent[r]
}

/// Whether `id` is that of a workspace of the group that can be gone to and
/// that no other such comes before, by coordinates and then by identifier.
pub open spec fn is_lowest(
    current: WorkspaceId,
    metas: Seq<mru_jump::MetaView>,
    occupied: Set<WorkspaceId>,
    id: WorkspaceId,
) -> bool {
    exists|m: int| #[trigger]
        will_do(current, metas, occupied, m) && metas[m].id == id && forall|k: int| #[trigger]
            will_do(current, metas, occupied, k) ==> !comes_before(
                metas[k].coordinates,
                metas[m].coordinates,
            ) && (metas[k].coordinates == metas[m].coordinates ==> id <= metas[k].id)
}

/// Where a recent workspace can be gone to, the target is the first such of
/// the list. Else it is a workspace of the group that can be gone to and that
/// no other such comes before, by coordinates and then by identifier. There is
/// a target wherever there is a workspace of the group that can be gone to.
pub proof fn law_where_to_jump(
    current: WorkspaceId,
    metas: Seq<mru_jump::MetaView>,
    occupied: Set<WorkspaceId>,
    recent: Seq<WorkspaceId>,
)
    ensures
        forall|r: int|
            #[trigger]
            recent_will_do(current, metas, occupied, recent, r) && (forall|k: int|
                0 <= k < r ==> !(#[trigger] recent_will_do(current, metas, occupied, recent, k)))
                ==> mru_jump::jump_target(current, metas, occupied, recent) == Some(recent[r]),
        match mru_jump::jump_target(current, metas, occupied, recent) {
            Some(target) => (exists|r: int| #[trigger]
                recent_will_do(current, metas, occupied, recent, r)) || is_lowest(
                current,
                metas,
                occupied,
                target,
            ),
            None => forall|m: int| !(#[trigger] will_do(current, metas, occupied, m)),
        },
{
    let p = mru_jump::is_target(current, metas, occupied);
    assert forall|r: int| 0 <= r < recent.len() implies p(#[trigger] recent[r]) == recent_will_do(
        current,
        metas,
        occupied,
        recent,
        r,
    ) by {
        if p(recent[r]) {
            let m = choose|m: int| 0 <= m < metas.len() && (#[trigger] metas[m]).id == recent[r];
            assert(will_do(current, metas, occupied, m));
        }
        if recent_will_do(current, metas, occupied, recent, r) {
            let m = choose|m: int| #[trigger]
                will_do(current, metas, occupied, m) && metas[m].id == recent[r];
            assert(metas[m].id == recent[r]);
        }
    }
    search::lemma_first_where(recent, p);
    mru_jump::law_jump_target(current, metas, occupied, recent);
    assert forall|r: int|
        #[trigger]
        recent_will_do(current, metas, occupied, recent, r) && (forall|k: int|
            0 <= k < r ==> !(#[trigger] recent_will_do(current, metas, occupied, recent, k))) implies mru_jump::jump_target(
    current, metas, occupied, recent) == Some(recent[r]) by {
        assert(p(recent[r]));
        assert forall|k: int| 0 <= k < r implies !p(#[trigger] recent[k]) by {
            assert(!recent_will_do(current, metas, occupied, recent, k));
        }
        search::lemma_first_where_is(recent, p, r);
    }
    if !(exists|r: int| #[trigger] recent_will_do(current, metas, occupied, recent, r)) {
        assert forall|j: int| 0 <= j < recent.len() implies !p(#[trigger] recent[j]) by {
            assert(!recent_will_do(current, metas, occupied, recent, j));
        }
        mru_jump::law_fallback_is_lowest(current, metas, occupied, recent);
        if let Some(target) = mru_jump::jump_target(current, metas, occupied, recent) {
            let m = choose|m: int|
                0 <= m < metas.len() && (#[trigger] metas[m]).id == target && forall|j: int|
                    0 <= j < metas.len() && (#[trigger] metas[j]).id != current
                        && occupied.contains(metas[j].id) ==> !mru_jump::meta_before(
                        metas[j],
                        metas[m],
                    );
            assert(will_do(current, metas, occupied, m));
            assert forall|k: int| #[trigger] will_do(current, metas, occupied, k) implies !comes_before(
                metas[k].coordinates,
                metas[m].coordinates,
            ) && (metas[k].coordinates == metas[m].coordinates ==> target <= metas[k].id) by {
                assert(!mru_jump::meta_before(metas[k], metas[m]));
                lemma_comes_before(metas[k].coordinates, metas[m].coordinates);
            }
        }
    }
}

// ---------------------------------------------------------------------------
// What the workspaces of a window call for
// ---------------------------------------------------------------------------

/// The same, of a window that was on this workspace alone.
pub open spec fn alone(input: mru_jump::TriggerView, ws: WorkspaceId) -> mru_jump::TriggerView {
    mru_jump::TriggerView { closed: seq![ws], ..input }
}

proof fn lemma_alone(input: mru_jump::TriggerView, ws: WorkspaceId)
    ensures
        alone(input, ws).outcome() == input.outcome_for(ws),
{
    let one = alone(input, ws);
    search::lemma_first_where(one.closed, one.jumps());
    assert(one.outcome_for(ws) == input.outcome_for(ws));
}

/// Of several workspaces the first that calls for a jump on its own is the one
/// that counts. A window that was on no workspace calls for none; nor does one
/// that was on several of which none does.
pub proof fn law_first_call_counts(input: mru_jump::TriggerView)
    ensures
        forall|i: int|
            #![trigger input.closed[i]]
            0 <= i < input.closed.len() && alone(input, input.closed[i]).outcome() is Jump && (
            forall|k: int|
                0 <= k < i ==> !(alone(input, #[trigger] input.closed[k]).outcome() is Jump))
                ==> input.outcome() == alone(input, input.closed[i]).outcome(),
        input.closed.len() == 0 ==> input.outcome() == (TriggerOutcome::NoOp {
            reason: NoOpReason::NoWorkspace,
        }),
        input.closed.len() > 1 && (forall|k: int|
            0 <= k < input.closed.len() ==> !(alone(
                input,
                #[trigger] input.closed[k],
            ).outcome() is Jump)) ==> input.outcome() == (TriggerOutcome::NoOp {
            reason: NoOpReason::MultiWorkspaceNoMatch {
                handle_count: input.closed.len() as usize,
            },
        }),
{
    let p = input.jumps();
    search::lemma_first_where(input.closed, p);
    assert forall|k: int| 0 <= k < input.closed.len() implies p(#[trigger] input.closed[k]) == (
    alone(input, input.closed[k]).outcome() is Jump) by {
        lemma_alone(input, input.closed[k]);
    }
    assert forall|i: int|
        #![trigger input.closed[i]]
        0 <= i < input.closed.len() && alone(input, input.closed[i]).outcome() is Jump && (forall|
            k: int,
        | 0 <= k < i ==> !(alone(input, #[trigger] input.closed[k]).outcome() is Jump)) implies input.outcome()
        == alone(input, input.closed[i]).outcome() by {
        assert(p(input.closed[i]));
        assert forall|k: int| 0 <= k < i implies !p(#[trigger] input.closed[k]) by {
            assert(!(alone(input, input.closed[k]).outcome() is Jump));
        }
        search::lemma_first_where_is(input.closed, p, i);
        lemma_alone(input, input.closed[i]);
    }
    if forall|k: int|
        0 <= k < input.closed.len() ==> !(alone(
            input,
            #[trigger] input.closed[k],
        ).outcome() is Jump) {
        search::lemma_first_where_none(input.closed, p);
    }
}

/// One workspace calls for a jump if it is known to be active, is not known to
/// be used, is known to be in a group, and the group has a workspace to go to;
/// else the first of these that is not so is the reason for none. What is not
/// known of the group is not there.
pub proof fn law_call_of_one_workspace(input: mru_jump::TriggerView, ws: WorkspaceId)
    ensures
        ({
            let out = alone(input, ws).outcome();
            let active = input.is_active.contains_key(ws) && input.is_active[ws];
            let used = input.others.contains_key(ws) && input.others[ws] > 0;
            let grouped = input.group_of.contains_key(ws) && input.group_of[ws] is Some;
            let g = input.group_of[ws]->Some_0;
            let known = input.group_workspaces.contains_key(g) && input.group_occupied.contains_key(
                g,
            );
            let found = mru_jump::jump_target(
                ws,
                input.group_workspaces[g],
                input.group_occupied[g],
                input.recent,
            );
            &&& out == (TriggerOutcome::NoOp { reason: NoOpReason::NotActive }) <==> !active
            &&& active && used ==> out == (TriggerOutcome::NoOp {
                reason: NoOpReason::StillOccupied { ws },
            })
            &&& active && !used && !grouped ==> out == (TriggerOutcome::NoOp {
                reason: NoOpReason::NoGroup { ws },
            })
            &&& active && !used && grouped && known ==> (match found {
                Some(target) => out == (TriggerOutcome::Jump { source: ws, target, group_id: g }),
                None => out == (TriggerOutcome::NoOp {
                    reason: NoOpReason::NoTarget { group_id: g, source: ws },
                }),
            })
            &&& active && !used && grouped && !known ==> out == (TriggerOutcome::NoOp {
                reason: NoOpReason::NoTarget { group_id: g, source: ws },
            })
        }),
{
    lemma_alone(input, ws);
    if input.group_of.contains_key(ws) && input.group_of[ws] is Some {
        let g = input.group_of[ws]->Some_0;
        mru_jump::law_jump_target(
            ws,
            input.workspaces_of(g),
            input.occupied_of(g),
            input.recent,
        );
    }
}

// ---------------------------------------------------------------------------
// A window closes
// ---------------------------------------------------------------------------

/// Whether no two workspaces share a number.
pub open spec fn workspaces_told_apart(world: World) -> bool {
    forall|i: int, j: int|
        0 <= i < j < world.workspaces@.len() ==> terms::number(
            (#[trigger] world.workspaces@[i]).handle,
        ) != terms::number((#[trigger] world.workspaces@[j]).handle)
}

/// Whether no two groups share a number.
pub open spec fn groups_told_apart(world: World) -> bool {
    forall|i: int, j: int|
        0 <= i < j < world.groups@.len() ==> terms::number((#[trigger] world.groups@[i]).handle)
            != terms::number((#[trigger] world.groups@[j]).handle)
}

/// A window that closes: the state before, the snapshot that still lists it,
/// and its handle.
pub ghost struct Closing {
    pub before: state::AppView,
    pub world: World,
    pub closed: ObjectKey,
}

impl Closing {
    /// The state once the window was dealt with.
    pub open spec fn after(self) -> state::AppView {
        self.before.answered_close(self.world, self.closed).0
    }

    /// How the window was dealt with.
    pub open spec fn outcome(self) -> JumpOutcome {
        self.before.answered_close(self.world, self.closed).1
    }

    /// Whether the window is listed, on these workspaces.
    pub open spec fn was_on(self, keys: Seq<ObjectKey>) -> bool {
        exists|t: int| #[trigger]
            terms::first_listed(self.world.toplevels@, self.closed, t)
                && self.world.toplevels@[t].workspaces@ == keys
    }

    /// Whether the workspace is active.
    pub open spec fn is_active(self, key: ObjectKey) -> bool {
        exists|w: int|
            0 <= w < self.world.workspaces@.len() && (#[trigger] self.world.workspaces@[w]).handle
                == key && terms::shown(self.world.workspaces@[w]) && forall|k: int|
                0 <= k < w ==> (#[trigger] self.world.workspaces@[k]).handle != key
    }

    /// Whether a window that stays is on the workspace.
    pub open spec fn is_still_used(self, key: ObjectKey) -> bool {
        terms::has_other_window(self.world, key, self.closed)
    }

    /// Whether the group at place `g` is the first that the workspace is in.
    pub open spec fn is_in(self, key: ObjectKey, g: int) -> bool {
        &&& 0 <= g < self.world.groups@.len()
        &&& self.world.groups@[g].workspaces@.contains(key)
        &&& forall|k: int|
            0 <= k < g ==> !(#[trigger] self.world.groups@[k]).workspaces@.contains(key)
    }

    /// Whether the workspace at place `w` is another one of the group at place
    /// `g` that a window that stays is on.
    pub open spec fn could_go_to(self, key: ObjectKey, g: int, w: int) -> bool {
        &&& terms::in_group_at(self.world, g, w)
        &&& terms::number(self.world.workspaces@[w].handle) != terms::number(key)
        &&& self.is_still_used(self.world.workspaces@[w].handle)
    }

    /// Whether the recent workspace at place `r` of the list is one of those.
    pub open spec fn could_go_back_to(self, key: ObjectKey, g: int, r: int) -> bool {
        0 <= r < self.before.recent.len() && exists|w: int| #[trigger]
            self.could_go_to(key, g, w) && terms::number(self.world.workspaces@[w].handle)
                == self.before.recent[r]
    }

    /// Whether the workspace at place `w` is the one of those to go to: the
    /// most recent, or where none is recent the first by coordinates and then
    /// by number.
    pub open spec fn goes_to(self, key: ObjectKey, g: int, w: int) -> bool {
        let to = self.world.workspaces@[w];
        &&& self.could_go_to(key, g, w)
        &&& forall|r: int|
            #[trigger]
            self.could_go_back_to(key, g, r) && (forall|k: int|
                0 <= k < r ==> !(#[trigger] self.could_go_back_to(key, g, k)))
                ==> self.before.recent[r] == terms::number(to.handle)
        &&& (forall|r: int| !(#[trigger] self.could_go_back_to(key, g, r))) ==> forall|k: int|
            #[trigger]
            self.could_go_to(key, g, k) ==> !comes_before(
                self.world.workspaces@[k].coordinates@,
                to.coordinates@,
            ) && (self.world.workspaces@[k].coordinates@ == to.coordinates@ ==> terms::number(
                to.handle,
            ) <= terms::number(self.world.workspaces@[k].handle))
    }

    /// Whether the workspace is left empty and active, with one to go to.
    pub open spec fn calls_for_jump(self, key: ObjectKey) -> bool {
        &&& self.is_active(key)
        &&& !self.is_still_used(key)
        &&& exists|g: int, w: int| #[trigger] self.is_in(key, g) && #[trigger] self.could_go_to(key, g, w)
    }

    /// Whether the workspace at place `w` was switched to, from `key` in the
    /// group at place `g`; without a manager it could not be, and nothing
    /// changed.
    pub open spec fn left_for(self, key: ObjectKey, g: int, w: int) -> bool {
        let source = terms::number(key);
        let workspace = self.world.workspaces@[w].handle;
        let target = terms::number(workspace);
        match self.world.manager {
            Some(manager) => {
                &&& self.outcome() == (JumpOutcome::Jumped {
                    source,
                    target,
                    group_id: terms::number(self.world.groups@[g].handle),
                })
                &&& self.after().effects == self.before.effects + placing::switch_requests(
                    self.before,
                    manager,
                    workspace,
                )
                &&& placing::only_switches(self.before, self.after(), workspace)
            },
            None => {
                &&& self.outcome() == JumpOutcome::ActivationFailed { source, target }
                &&& self.after() == self.before
            },
        }
    }

    /// Whether nothing was done, for this reason.
    pub open spec fn stayed(self, reason: NoOpReason) -> bool {
        &&& self.outcome() == JumpOutcome::NoOp { reason }
        &&& self.after() == self.before
    }

    spec fn input(self, keys: Seq<ObjectKey>) -> mru_jump::TriggerView {
        jump::trigger_view(self.world, keys, self.closed, self.before.recent)
    }
}

/// Whether no two of the keys share a number.
pub open spec fn keys_told_apart(keys: Seq<ObjectKey>) -> bool {
    forall|i: int, j: int|
        0 <= i < j < keys.len() ==> terms::number(#[trigger] keys[i]) != terms::number(
            #[trigger] keys[j],
        )
}

proof fn lemma_keyed_at<V>(keys: Seq<ObjectKey>, f: spec_fn(ObjectKey) -> V, i: int)
    requires
        0 <= i < keys.len(),
        keys_told_apart(keys),
    ensures
        jump::keyed(keys, f).contains_key(terms::number(keys[i])),
        jump::keyed(keys, f)[terms::number(keys[i])] == f(keys[i]),
    decreases keys.len(),
{
    let front = keys.drop_last();
    if i < front.len() {
        assert(keys_told_apart(front)) by {
            assert forall|a: int, b: int| 0 <= a < b < front.len() implies terms::number(
                #[trigger] front[a],
            ) != terms::number(#[trigger] front[b]) by {
                assert(terms::number(keys[a]) != terms::number(keys[b]));
            }
        }
        lemma_keyed_at(front, f, i);
        assert(terms::number(keys[i]) != terms::number(keys[keys.len() - 1]));
    }
}

proof fn lemma_by_group_at<V>(world: World, keys: Seq<ObjectKey>, f: spec_fn(u64) -> V, i: int)
    requires
        0 <= i < keys.len(),
        jump::group_number(world)(keys[i]) is Some,
    ensures
        ({
            let n = jump::group_number(world)(keys[i])->Some_0;
            jump::by_group(world, keys, f).contains_key(n) && jump::by_group(world, keys, f)[n] == f(n)
        }),
    decreases keys.len(),
{
    if i < keys.len() - 1 {
        lemma_by_group_at(world, keys.drop_last(), f, i);
    }
}

/// What is read of the snapshot for one workspace.
proof fn lemma_reads(c: Closing, key: ObjectKey)
    ensures
        jump::activity(c.world)(key) == c.is_active(key),
        (jump::other_windows(c.world, c.closed)(key) > 0) == c.is_still_used(key),
        forall|g: int| #[trigger]
            c.is_in(key, g) ==> jump::group_number(c.world)(key) == Some(
                terms::number(c.world.groups@[g].handle),
            ),
        (forall|g: int| !(#[trigger] c.is_in(key, g))) ==> jump::group_number(c.world)(key) is None,
{
    let workspaces = c.world.workspaces@;
    search::lemma_first_where(workspaces, world::has_handle(key));
    match search::first_where(workspaces, world::has_handle(key)) {
        Some(w) => {
            if jump::activity(c.world)(key) {
                assert(workspaces[w].handle == key);
                assert(c.is_active(key));
            }
            if c.is_active(key) {
                let x = choose|x: int|
                    0 <= x < workspaces.len() && (#[trigger] workspaces[x]).handle == key
                        && terms::shown(workspaces[x]) && forall|k: int|
                        0 <= k < x ==> (#[trigger] workspaces[k]).handle != key;
                if w < x {
                    assert(workspaces[w].handle != key);
                }
                assert(x == w);
            }
        },
        None => {
            if c.is_active(key) {
                let x = choose|x: int|
                    0 <= x < workspaces.len() && (#[trigger] workspaces[x]).handle == key
                        && terms::shown(workspaces[x]) && forall|k: int|
                        0 <= k < x ==> (#[trigger] workspaces[k]).handle != key;
                assert(!world::has_handle(key)(workspaces[x]));
            }
        },
    }
    let p = jump::is_other_on(key, c.closed);
    let others = search::all_where(c.world.toplevels@, p);
    search::lemma_all_where(c.world.toplevels@, p);
    laws::lemma_all_where_len(c.world.toplevels@, p);
    assert(c.world.toplevels.len() == c.world.toplevels@.len());
    if others.len() > 0 {
        assert(others.contains(others[0]));
    }
    if c.is_still_used(key) {
        let t = choose|t: int|
            0 <= t < c.world.toplevels@.len() && (#[trigger] c.world.toplevels@[t]).handle
                != c.closed && c.world.toplevels@[t].workspaces@.contains(key);
        assert(others.contains(c.world.toplevels@[t]));
    }
    let q = jump::has_member(key);
    search::lemma_first_where(c.world.groups@, q);
    assert forall|g: int| #[trigger] c.is_in(key, g) implies jump::group_number(c.world)(key)
        == Some(terms::number(c.world.groups@[g].handle)) by {
        search::lemma_first_where_is(c.world.groups@, q, g);
    }
    if let Some(g) = search::first_where(c.world.groups@, q) {
        assert forall|k: int| 0 <= k < g implies !(
        #[trigger] c.world.groups@[k]).workspaces@.contains(key) by {
            assert(!q(c.world.groups@[k]));
        }
        assert(c.is_in(key, g));
    }
}

/// What is read of a group are its workspaces, and of each whether a window
/// that stays is on it.
proof fn lemma_group_read(c: Closing, g: int)
    requires
        workspaces_told_apart(c.world),
        groups_told_apart(c.world),
        0 <= g < c.world.groups@.len(),
    ensures
        ({
            let n = terms::number(c.world.groups@[g].handle);
            jump::group_metas(c.world, n) == c.world.members(c.world.groups@[g]).map_values(
                |w: Workspace| jump::meta_view(w, n),
            )
        }),
        forall|w: int|
            0 <= w < c.world.workspaces@.len() ==> jump::number_occupied(
                c.world,
                terms::number((#[trigger] c.world.workspaces@[w]).handle),
                c.closed,
            ) == c.is_still_used(c.world.workspaces@[w].handle),
{
    let n = terms::number(c.world.groups@[g].handle);
    let ws = c.world.workspaces@;
    assert forall|k: int| 0 <= k < g implies !jump::is_numbered(n)(#[trigger] c.world.groups@[k]) by {
        assert(terms::number(c.world.groups@[k].handle) != n);
    }
    search::lemma_first_where_is(c.world.groups@, jump::is_numbered(n), g);
    assert forall|w: int| 0 <= w < ws.len() implies jump::number_occupied(
        c.world,
        terms::number((#[trigger] ws[w]).handle),
        c.closed,
    ) == c.is_still_used(ws[w].handle) by {
        let id = terms::number(ws[w].handle);
        assert forall|k: int| 0 <= k < w implies !world::has_number(id)(#[trigger] ws[k]) by {
            assert(terms::number(ws[k].handle) != id);
        }
        search::lemma_first_where_is(ws, world::has_number(id), w);
    }
}

/// Whether what was read at place `m` can be gone to.
spec fn read_will_do(c: Closing, key: ObjectKey, g: int, m: int) -> bool {
    let n = terms::number(c.world.groups@[g].handle);
    will_do(
        terms::number(key),
        jump::group_metas(c.world, n),
        jump::group_occupied(c.world, n, c.closed),
        m,
    )
}

/// Whether what was read at place `m` is the workspace at place `w`.
spec fn is_read_of(c: Closing, g: int, m: int, w: int) -> bool {
    let meta = jump::group_metas(c.world, terms::number(c.world.groups@[g].handle))[m];
    &&& meta.id == terms::number(c.world.workspaces@[w].handle)
    &&& meta.coordinates == c.world.workspaces@[w].coordinates@
}

/// What was read and can be gone to is a workspace that can be gone to.
proof fn lemma_workspace_of_read(c: Closing, key: ObjectKey, g: int, m: int) -> (w: int)
    requires
        workspaces_told_apart(c.world),
        groups_told_apart(c.world),
        0 <= g < c.world.groups@.len(),
        read_will_do(c, key, g, m),
    ensures
        c.could_go_to(key, g, w),
        is_read_of(c, g, m, w),
{
    let ws = c.world.workspaces@;
    let p = world::is_member(c.world.groups@[g]);
    let members = c.world.members(c.world.groups@[g]);
    lemma_group_read(c, g);
    search::lemma_all_where(ws, p);
    assert(members.contains(members[m]));
    let w = choose|w: int| 0 <= w < ws.len() && ws[w] == members[m];
    assert(p(ws[w]));
    w
}

/// A workspace that can be gone to was read, and can be gone to.
proof fn lemma_read_of_workspace(c: Closing, key: ObjectKey, g: int, w: int) -> (m: int)
    requires
        workspaces_told_apart(c.world),
        groups_told_apart(c.world),
        c.could_go_to(key, g, w),
    ensures
        read_will_do(c, key, g, m),
        is_read_of(c, g, m, w),
{
    let ws = c.world.workspaces@;
    let p = world::is_member(c.world.groups@[g]);
    let members = c.world.members(c.world.groups@[g]);
    let metas = jump::group_metas(c.world, terms::number(c.world.groups@[g].handle));
    lemma_group_read(c, g);
    search::lemma_all_where(ws, p);
    assert(p(ws[w]));
    assert(members.contains(ws[w]));
    let m = choose|m: int| 0 <= m < members.len() && members[m] == ws[w];
    assert(metas[m].id == terms::number(ws[w].handle));
    assert(mru_jump::in_group(metas, metas[m].id));
    m
}

/// What one workspace that the window was on calls for.
proof fn lemma_outcome_for(c: Closing, keys: Seq<ObjectKey>, i: int)
    requires
        workspaces_told_apart(c.world),
        groups_told_apart(c.world),
        keys_told_apart(keys),
        0 <= i < keys.len(),
    ensures
        ({
            let key = keys[i];
            let source = terms::number(key);
            let out = c.input(keys).outcome_for(source);
            &&& !c.is_active(key) ==> out == mru_jump::no_op(NoOpReason::NotActive)
            &&& c.is_active(key) && c.is_still_used(key) ==> out == mru_jump::no_op(
                NoOpReason::StillOccupied { ws: source },
            )
            &&& c.is_active(key) && !c.is_still_used(key) && (forall|g: int|
                !(#[trigger] c.is_in(key, g))) ==> out == mru_jump::no_op(
                NoOpReason::NoGroup { ws: source },
            )
            &&& forall|g: int|
                c.is_active(key) && !c.is_still_used(key) && #[trigger] c.is_in(key, g) ==> ({
                    let group_id = terms::number(c.world.groups@[g].handle);
                    if exists|w: int| #[trigger] c.could_go_to(key, g, w) {
                        &&& out matches TriggerOutcome::Jump { source: s, target, group_id: n }
                        &&& s == source && n == group_id
                        &&& forall|w: int| #[trigger]
                            c.goes_to(key, g, w) ==> target == terms::number(
                                c.world.workspaces@[w].handle,
                            )
                    } else {
                        out == mru_jump::no_op(NoOpReason::NoTarget { group_id, source })
                    }
                })
        }),
{
    let key = keys[i];
    let source = terms::number(key);
    let input = c.input(keys);
    let out = input.outcome_for(source);
    lemma_reads(c, key);
    lemma_keyed_at(keys, jump::activity(c.world), i);
    lemma_keyed_at(keys, jump::other_windows(c.world, c.closed), i);
    lemma_keyed_at(keys, jump::group_number(c.world), i);
    assert forall|g: int|
        c.is_active(key) && !c.is_still_used(key) && #[trigger] c.is_in(key, g) implies ({
        let group_id = terms::number(c.world.groups@[g].handle);
        if exists|w: int| #[trigger] c.could_go_to(key, g, w) {
            &&& out matches TriggerOutcome::Jump { source: s, target, group_id: n }
            &&& s == source && n == group_id
            &&& forall|w: int| #[trigger]
                c.goes_to(key, g, w) ==> target == terms::number(c.world.workspaces@[w].handle)
        } else {
            out == mru_jump::no_op(NoOpReason::NoTarget { group_id, source })
        }
    }) by {
        let group_id = terms::number(c.world.groups@[g].handle);
        let metas = jump::group_metas(c.world, group_id);
        let occupied = jump::group_occupied(c.world, group_id, c.closed);
        lemma_by_group_at(c.world, keys, |n: u64| jump::group_metas(c.world, n), i);
        lemma_by_group_at(c.world, keys, |n: u64| jump::group_occupied(c.world, n, c.closed), i);
        law_where_to_jump(source, metas, occupied, input.recent);
        let found = mru_jump::jump_target(source, metas, occupied, input.recent);
        if exists|w: int| #[trigger] c.could_go_to(key, g, w) {
            let w = choose|w: int| #[trigger] c.could_go_to(key, g, w);
            let m = lemma_read_of_workspace(c, key, g, w);
            assert(will_do(source, metas, occupied, m));
            assert(found is Some);
            let target = found->Some_0;
            assert forall|w: int| #[trigger] c.goes_to(key, g, w) implies target == terms::number(
                c.world.workspaces@[w].handle,
            ) by {
                lemma_target(c, key, g, w);
            }
        } else {
            if found is Some {
                let target = found->Some_0;
                mru_jump::law_jump_target(source, metas, occupied, input.recent);
                let m = choose|m: int| 0 <= m < metas.len() && (#[trigger] metas[m]).id == target;
                assert(will_do(source, metas, occupied, m));
                let w = lemma_workspace_of_read(c, key, g, m);
            }
        }
    }
}

/// The workspace to go to is the one that is selected.
proof fn lemma_target(c: Closing, key: ObjectKey, g: int, w: int)
    requires
        workspaces_told_apart(c.world),
        groups_told_apart(c.world),
        c.goes_to(key, g, w),
    ensures
        ({
            let n = terms::number(c.world.groups@[g].handle);
            mru_jump::jump_target(
                terms::number(key),
                jump::group_metas(c.world, n),
                jump::group_occupied(c.world, n, c.closed),
                c.before.recent,
            ) == Some(terms::number(c.world.workspaces@[w].handle))
        }),
{
    let n = terms::number(c.world.groups@[g].handle);
    let source = terms::number(key);
    let metas = jump::group_metas(c.world, n);
    let occupied = jump::group_occupied(c.world, n, c.closed);
    let recent = c.before.recent;
    let ws = c.world.workspaces@;
    law_where_to_jump(source, metas, occupied, recent);
    let to = lemma_read_of_workspace(c, key, g, w);
    assert(will_do(source, metas, occupied, to));
    if exists|r: int| #[trigger] c.could_go_back_to(key, g, r) {
        let some = choose|r: int| #[trigger] c.could_go_back_to(key, g, r);
        let r = lemma_first_back(c, key, g, some);
        assert(recent[r] == terms::number(ws[w].handle));
        assert forall|k: int| 0 <= k < r implies !(#[trigger] recent_will_do(
            source,
            metas,
            occupied,
            recent,
            k,
        )) by {
            lemma_same_recent(c, key, g, k);
        }
        lemma_same_recent(c, key, g, r);
    } else {
        assert forall|r: int| !(#[trigger] recent_will_do(source, metas, occupied, recent, r)) by {
            lemma_same_recent(c, key, g, r);
        }
        let target = mru_jump::jump_target(source, metas, occupied, recent)->Some_0;
        let (m, x) = lemma_lowest(c, key, g, target);
        assert(!comes_before(ws[x].coordinates@, ws[w].coordinates@));
        assert(!comes_before(metas[to].coordinates, metas[m].coordinates));
        lemma_either_before(ws[x].coordinates@, ws[w].coordinates@);
    }
}

/// The workspace, as it was read, that none which can be gone to comes before.
proof fn lemma_lowest(c: Closing, key: ObjectKey, g: int, target: WorkspaceId) -> (found: (int, int))
    requires
        workspaces_told_apart(c.world),
        groups_told_apart(c.world),
        0 <= g < c.world.groups@.len(),
        ({
            let n = terms::number(c.world.groups@[g].handle);
            is_lowest(
                terms::number(key),
                jump::group_metas(c.world, n),
                jump::group_occupied(c.world, n, c.closed),
                target,
            )
        }),
    ensures
        ({
            let n = terms::number(c.world.groups@[g].handle);
            let metas = jump::group_metas(c.world, n);
            let occupied = jump::group_occupied(c.world, n, c.closed);
            let (m, x) = found;
            &&& will_do(terms::number(key), metas, occupied, m)
            &&& metas[m].id == target
            &&& c.could_go_to(key, g, x)
            &&& metas[m].id == terms::number(c.world.workspaces@[x].handle)
            &&& metas[m].coordinates == c.world.workspaces@[x].coordinates@
            &&& forall|k: int| #[trigger]
                will_do(terms::number(key), metas, occupied, k) ==> !comes_before(
                    metas[k].coordinates,
                    metas[m].coordinates,
                ) && (metas[k].coordinates == metas[m].coordinates ==> target <= metas[k].id)
        }),
{
    let n = terms::number(c.world.groups@[g].handle);
    let source = terms::number(key);
    let metas = jump::group_metas(c.world, n);
    let occupied = jump::group_occupied(c.world, n, c.closed);
    let m = choose|m: int| #[trigger]
        will_do(source, metas, occupied, m) && metas[m].id == target && forall|k: int| #[trigger]
            will_do(source, metas, occupied, k) ==> !comes_before(
                metas[k].coordinates,
                metas[m].coordinates,
            ) && (metas[k].coordinates == metas[m].coordinates ==> target <= metas[k].id);
    let x = lemma_workspace_of_read(c, key, g, m);
    (m, x)
}

/// The recent workspaces that can be gone back to are the same as they were
/// read.
proof fn lemma_same_recent(c: Closing, key: ObjectKey, g: int, r: int)
    requires
        workspaces_told_apart(c.world),
        groups_told_apart(c.world),
        0 <= g < c.world.groups@.len(),
    ensures
        ({
            let n = terms::number(c.world.groups@[g].handle);
            recent_will_do(
                terms::number(key),
                jump::group_metas(c.world, n),
                jump::group_occupied(c.world, n, c.closed),
                c.before.recent,
                r,
            ) == c.could_go_back_to(key, g, r)
        }),
{
    let n = terms::number(c.world.groups@[g].handle);
    let source = terms::number(key);
    let metas = jump::group_metas(c.world, n);
    let occupied = jump::group_occupied(c.world, n, c.closed);
    let recent = c.before.recent;
    let ws = c.world.workspaces@;
    if recent_will_do(source, metas, occupied, recent, r) {
        let m = choose|m: int| #[trigger]
            will_do(source, metas, occupied, m) && metas[m].id == recent[r];
        let x = lemma_workspace_of_read(c, key, g, m);
        assert(c.could_go_to(key, g, x));
    }
    if c.could_go_back_to(key, g, r) {
        let x = choose|x: int| #[trigger]
            c.could_go_to(key, g, x) && terms::number(ws[x].handle) == recent[r];
        let m = lemma_read_of_workspace(c, key, g, x);
        assert(will_do(source, metas, occupied, m));
    }
}

proof fn lemma_first_back(c: Closing, key: ObjectKey, g: int, r: int) -> (first: int)
    requires
        c.could_go_back_to(key, g, r),
    ensures
        c.could_go_back_to(key, g, first),
        forall|k: int| 0 <= k < first ==> !(#[trigger] c.could_go_back_to(key, g, k)),
    decreases r,
{
    if exists|k: int| 0 <= k < r && #[trigger] c.could_go_back_to(key, g, k) {
        let k = choose|k: int| 0 <= k < r && #[trigger] c.could_go_back_to(key, g, k);
        lemma_first_back(c, key, g, k)
    } else {
        r
    }
}

/// Of two different lists of coordinates one comes before the other.
proof fn lemma_either_before(a: Seq<u32>, b: Seq<u32>)
    ensures
        comes_before(a, b) || comes_before(b, a) || a == b,
    decreases a.len(),
{
    lemma_comes_before(a, b);
    lemma_comes_before(b, a);
    if a.len() > 0 && b.len() > 0 && a[0] == b[0] {
        let (s, t) = (a.drop_first(), b.drop_first());
        lemma_either_before(s, t);
        lemma_comes_before(s, t);
        lemma_comes_before(t, s);
        if s == t {
            assert(a =~= seq![a[0]] + s);
            assert(b =~= seq![b[0]] + t);
        }
    } else if a.len() == 0 && b.len() == 0 {
        assert(a =~= b);
    }
}

/// A window that the snapshot does not list, or that was on no workspace,
/// changes nothing.
pub proof fn law_close_of_window_on_no_workspace(c: Closing)
    ensures
        (forall|t: int|
            0 <= t < c.world.toplevels@.len() ==> (#[trigger] c.world.toplevels@[t]).handle
                != c.closed) ==> c.outcome() == JumpOutcome::ToplevelNotFound && c.after()
            == c.before,
        c.was_on(Seq::empty()) ==> c.stayed(NoOpReason::NoWorkspace),
{
    if c.was_on(Seq::empty()) {
        lemma_was_on(c, Seq::empty());
    }
    search::lemma_first_where(c.world.toplevels@, jump::is_listed_as(c.closed));
}

proof fn lemma_was_on(c: Closing, keys: Seq<ObjectKey>)
    requires
        c.was_on(keys),
    ensures
        (c.after(), c.outcome()) == c.before.jumped(c.world, c.input(keys).outcome()),
{
    let t = choose|t: int| #[trigger]
        terms::first_listed(c.world.toplevels@, c.closed, t) && c.world.toplevels@[t].workspaces@
            == keys;
    search::lemma_first_where_is(c.world.toplevels@, jump::is_listed_as(c.closed), t);
}

/// The jump that a workspace calls for is made.
proof fn lemma_left_for(c: Closing, keys: Seq<ObjectKey>, i: int, g: int, w: int)
    requires
        workspaces_told_apart(c.world),
        groups_told_apart(c.world),
        keys_told_apart(keys),
        c.was_on(keys),
        0 <= i < keys.len(),
        c.input(keys).outcome() == c.input(keys).outcome_for(terms::number(keys[i])),
        c.is_active(keys[i]),
        !c.is_still_used(keys[i]),
        c.is_in(keys[i], g),
        c.goes_to(keys[i], g, w),
    ensures
        c.left_for(keys[i], g, w),
{
    let ws = c.world.workspaces@;
    let target = terms::number(ws[w].handle);
    lemma_outcome_for(c, keys, i);
    lemma_was_on(c, keys);
    assert(c.could_go_to(keys[i], g, w));
    assert forall|k: int| 0 <= k < w implies !world::has_number(target)(#[trigger] ws[k]) by {
        assert(terms::number(ws[k].handle) != target);
    }
    search::lemma_first_where_is(ws, world::has_number(target), w);
    if let Some(manager) = c.world.manager {
        placing::law_switch_requests(c.before, manager, ws[w].handle);
    }
}

/// What a window that was on one workspace leaves behind: nothing is done if
/// the workspace is not active, if a window that stays is on it, if it is in
/// no group, or if there is no other workspace of its group that a window is
/// on. Else the one to go to is switched to.
pub proof fn law_close_of_window_on_one_workspace(c: Closing, key: ObjectKey)
    requires
        workspaces_told_apart(c.world),
        groups_told_apart(c.world),
        c.was_on(seq![key]),
    ensures
        !c.is_active(key) ==> c.stayed(NoOpReason::NotActive),
        c.is_active(key) && c.is_still_used(key) ==> c.stayed(
            NoOpReason::StillOccupied { ws: terms::number(key) },
        ),
        c.is_active(key) && !c.is_still_used(key) && (forall|g: int| !(#[trigger] c.is_in(key, g)))
            ==> c.stayed(NoOpReason::NoGroup { ws: terms::number(key) }),
        forall|g: int|
            c.is_active(key) && !c.is_still_used(key) && #[trigger] c.is_in(key, g) && (forall|w: int|
                !(#[trigger] c.could_go_to(key, g, w))) ==> c.stayed(
                NoOpReason::NoTarget {
                    group_id: terms::number(c.world.groups@[g].handle),
                    source: terms::number(key),
                },
            ),
        forall|g: int, w: int|
            c.is_active(key) && !c.is_still_used(key) && #[trigger] c.is_in(key, g)
                && #[trigger] c.goes_to(key, g, w) ==> c.left_for(key, g, w),
{
    let keys = seq![key];
    let input = c.input(keys);
    assert(keys_told_apart(keys));
    lemma_outcome_for(c, keys, 0);
    lemma_was_on(c, keys);
    assert(input.closed =~= seq![terms::number(key)]);
    search::lemma_first_where(input.closed, input.jumps());
    assert(input.outcome() == input.outcome_for(terms::number(keys[0])));
    assert forall|g: int, w: int|
        c.is_active(key) && !c.is_still_used(key) && #[trigger] c.is_in(key, g)
            && #[trigger] c.goes_to(key, g, w) implies c.left_for(key, g, w) by {
        lemma_left_for(c, keys, 0, g, w);
    }
}

/// Of several workspaces that a window was on, the first that calls for it is
/// left; if none does, nothing is done.
pub proof fn law_close_of_window_on_several_workspaces(c: Closing, keys: Seq<ObjectKey>)
    requires
        workspaces_told_apart(c.world),
        groups_told_apart(c.world),
        keys_told_apart(keys),
        c.was_on(keys),
        keys.len() > 1,
    ensures
        forall|i: int, g: int, w: int|
            0 <= i < keys.len() && c.calls_for_jump(keys[i]) && (forall|k: int|
                0 <= k < i ==> !c.calls_for_jump(#[trigger] keys[k])) && #[trigger] c.is_in(
                keys[i],
                g,
            ) && #[trigger] c.goes_to(keys[i], g, w) ==> c.left_for(keys[i], g, w),
        (forall|k: int| 0 <= k < keys.len() ==> !c.calls_for_jump(#[trigger] keys[k])) ==> c.stayed(
            NoOpReason::MultiWorkspaceNoMatch { handle_count: keys.len() as usize },
        ),
{
    let input = c.input(keys);
    let p = input.jumps();
    lemma_was_on(c, keys);
    assert(input.closed.len() == keys.len());
    assert forall|k: int| 0 <= k < keys.len() implies p(#[trigger] input.closed[k])
        == c.calls_for_jump(keys[k]) by {
        let key = keys[k];
        lemma_outcome_for(c, keys, k);
        assert(input.closed[k] == terms::number(key));
        if c.calls_for_jump(key) {
            let (g, w) = choose|g: int, w: int| #[trigger]
                c.is_in(key, g) && #[trigger] c.could_go_to(key, g, w);
            assert(c.is_in(key, g));
        }
        if p(input.closed[k]) {
            let g = choose|g: int| #[trigger] c.is_in(key, g);
            assert(c.is_in(key, g));
            assert(exists|w: int| #[trigger] c.could_go_to(key, g, w));
            let w = choose|w: int| #[trigger] c.could_go_to(key, g, w);
            assert(c.is_in(key, g) && c.could_go_to(key, g, w));
        }
    }
    assert forall|i: int, g: int, w: int|
        0 <= i < keys.len() && c.calls_for_jump(keys[i]) && (forall|k: int|
            0 <= k < i ==> !c.calls_for_jump(#[trigger] keys[k])) && #[trigger] c.is_in(keys[i], g)
            && #[trigger] c.goes_to(keys[i], g, w) implies c.left_for(keys[i], g, w) by {
        assert(p(input.closed[i]));
        assert forall|k: int| 0 <= k < i implies !p(#[trigger] input.closed[k]) by {
            assert(!c.calls_for_jump(keys[k]));
        }
        search::lemma_first_where_is(input.closed, p, i);
        lemma_left_for(c, keys, i, g, w);
    }
    if forall|k: int| 0 <= k < keys.len() ==> !c.calls_for_jump(#[trigger] keys[k]) {
        assert forall|k: int| 0 <= k < input.closed.len() implies !p(#[trigger] input.closed[k]) by {
            assert(!c.calls_for_jump(keys[k]));
        }
        search::lemma_first_where_none(input.closed, p);
    }
}

/// Where there is a workspace to go to, there is one to prefer.
pub proof fn law_some_workspace_is_preferred(c: Closing, key: ObjectKey, g: int, w: int)
    requires
        workspaces_told_apart(c.world),
        groups_told_apart(c.world),
        c.could_go_to(key, g, w),
    ensures
        exists|x: int| #[trigger] c.goes_to(key, g, x),
{
    let ws = c.world.workspaces@;
    if exists|r: int| #[trigger] c.could_go_back_to(key, g, r) {
        let some = choose|r: int| #[trigger] c.could_go_back_to(key, g, r);
        let r = lemma_first_back(c, key, g, some);
        let x = choose|x: int| #[trigger]
            c.could_go_to(key, g, x) && terms::number(ws[x].handle) == c.before.recent[r];
        assert forall|s: int|
            #[trigger]
            c.could_go_back_to(key, g, s) && (forall|k: int|
                0 <= k < s ==> !(#[trigger] c.could_go_back_to(key, g, k))) implies c.before.recent[s]
            == terms::number(ws[x].handle) by {
            if s < r {
                assert(!c.could_go_back_to(key, g, s));
            }
            if r < s {
                assert(!c.could_go_back_to(key, g, r));
            }
        }
        assert(c.goes_to(key, g, x));
    } else {
        let n = terms::number(c.world.groups@[g].handle);
        let source = terms::number(key);
        let metas = jump::group_metas(c.world, n);
        let occupied = jump::group_occupied(c.world, n, c.closed);
        let empty = Seq::<WorkspaceId>::empty();
        law_where_to_jump(source, metas, occupied, empty);
        let some = lemma_read_of_workspace(c, key, g, w);
        assert(will_do(source, metas, occupied, some));
        assert forall|r: int| !(#[trigger] recent_will_do(source, metas, occupied, empty, r)) by {}
        let target = mru_jump::jump_target(source, metas, occupied, empty)->Some_0;
        let (m, x) = lemma_lowest(c, key, g, target);
        assert forall|k: int| #[trigger] c.could_go_to(key, g, k) implies !comes_before(
            ws[k].coordinates@,
            ws[x].coordinates@,
        ) && (ws[k].coordinates@ == ws[x].coordinates@ ==> terms::number(ws[x].handle)
            <= terms::number(ws[k].handle)) by {
            let j = lemma_read_of_workspace(c, key, g, k);
            assert(will_do(source, metas, occupied, j));
        }
        assert(c.goes_to(key, g, x));
    }
}

/// A jump stays in one group: the workspace that is left and the one that is
/// switched to are both in the group that the outcome names.
pub proof fn law_jump_stays_in_group(c: Closing)
    requires
        groups_told_apart(c.world),
    ensures
        c.outcome() matches JumpOutcome::Jumped { source, target, group_id } ==> exists|
            t: int,
            i: int,
            g: int,
            w: int,
        |
            {
                let keys = c.world.toplevels@[t].workspaces@;
                &&& #[trigger] terms::first_listed(c.world.toplevels@, c.closed, t)
                &&& 0 <= i < keys.len()
                &&& terms::number(#[trigger] c.world.toplevels@[t].workspaces@[i]) == source
                &&& #[trigger] terms::in_group_at(c.world, g, w)
                &&& terms::number(c.world.groups@[g].handle) == group_id
                &&& terms::number(c.world.workspaces@[w].handle) == target
                &&& c.world.groups@[g].workspaces@.contains(keys[i])
                &&& source != target
                &&& c.is_active(keys[i])
                &&& !c.is_still_used(keys[i])
            },
{
    if let JumpOutcome::Jumped { source, target, group_id } = c.outcome() {
        laws::law_jump_leaves_empty_active_workspace(c.before, c.world, c.closed);
        search::lemma_first_where(c.world.toplevels@, jump::is_listed_as(c.closed));
        let t = search::first_where(c.world.toplevels@, jump::is_listed_as(c.closed))->Some_0;
        assert forall|k: int| 0 <= k < t implies (#[trigger] c.world.toplevels@[k]).handle
            != c.closed by {
            assert(!jump::is_listed_as(c.closed)(c.world.toplevels@[k]));
        }
        assert(terms::first_listed(c.world.toplevels@, c.closed, t));
        let keys = c.world.toplevels@[t].workspaces@;
        let i = choose|i: int|
            0 <= i < keys.len() && ids::object_number(#[trigger] keys[i]) == source
                && jump::activity(c.world)(keys[i]) && !c.world.occupied_without(keys[i], c.closed)
                && jump::group_number(c.world)(keys[i]) == Some(group_id);
        lemma_reads(c, keys[i]);
        search::lemma_first_where(c.world.groups@, jump::has_member(keys[i]));
        let g = search::first_where(c.world.groups@, jump::has_member(keys[i]))->Some_0;
        assert forall|k: int| 0 <= k < g implies !jump::is_numbered(group_id)(
            #[trigger] c.world.groups@[k],
        ) by {
            assert(terms::number(c.world.groups@[k].handle) != terms::number(
                c.world.groups@[g].handle,
            ));
        }
        search::lemma_first_where_is(c.world.groups@, jump::is_numbered(group_id), g);
        let metas = jump::group_metas(c.world, group_id);
        let members = c.world.members(c.world.groups@[g]);
        let m = choose|m: int| 0 <= m < metas.len() && (#[trigger] metas[m]).id == target;
        search::lemma_all_where(c.world.workspaces@, world::is_member(c.world.groups@[g]));
        assert(members.contains(members[m]));
        let w = choose|w: int|
            0 <= w < c.world.workspaces@.len() && c.world.workspaces@[w] == members[m];
        assert(terms::in_group_at(c.world, g, w));
        assert(terms::number(c.world.toplevels@[t].workspaces@[i]) == source);
    }
}

/// Where recent workspaces are followed, a window that closes is answered once
/// it is forgotten.
pub proof fn law_closed_window_is_answered(v: state::AppView, world: World, closed: ObjectKey)
    requires
        v.config.jump_on_empty,
    ensures
        ({
            let (after, outcome) = v.closed(world, closed);
            let c = Closing {
                before: state::AppView {
                    handled: v.handled.remove(closed),
                    pending: after.pending,
                    ..v
                },
                world,
                closed,
            };
            &&& after == c.after()
            &&& outcome == Some(c.outcome())
        }),
{
    laws::lemma_answered_close_carries_on(v.forgotten(closed), world, closed);
}

/// A jump asks for one switch, to the workspace that the outcome names, and
/// commits it; where there is no jump, nothing is asked for.
pub proof fn law_jump_switches_to_target(c: Closing)
    ensures
        ({
            let came = terms::added(c.before.effects, c.after().effects);
            match c.outcome() {
                JumpOutcome::Jumped { source, target, group_id } => {
                    &&& came.len() >= 2
                    &&& came[0] matches effects::EffectView::Activate { workspace }
                        && terms::number(workspace) == target && exists|w: int|
                        0 <= w < c.world.workspaces@.len() && (
                        #[trigger] c.world.workspaces@[w]).handle == workspace
                    &&& came[1] matches effects::EffectView::Commit { manager } && c.world.manager
                        == Some(manager)
                    &&& forall|i: int|
                        2 <= i < came.len() ==> (#[trigger] came[i]) is CancelTimer
                            || came[i] is StartTimer
                },
                _ => c.after() == c.before,
            }
        }),
{
    search::lemma_first_where(c.world.toplevels@, jump::is_listed_as(c.closed));
    if let JumpOutcome::Jumped { target, .. } = c.outcome() {
        search::lemma_first_where(c.world.workspaces@, world::has_number(target));
        let w = c.world.workspace_numbered(target)->Some_0;
        let workspace = c.world.workspaces@[w].handle;
        let manager = c.world.manager->Some_0;
        let s = placing::switch_requests(c.before, manager, workspace);
        placing::law_switch_requests(c.before, manager, workspace);
        assert(terms::added(c.before.effects, c.after().effects) =~= s);
        assert(s[0] == (effects::EffectView::Activate { workspace }));
        assert(s[1] == (effects::EffectView::Commit { manager }));
    }
}

} // verus!
