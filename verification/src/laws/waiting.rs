//! What comes of a window that waits for a workspace, stated over the snapshot
//! and over what is asked for.

use vstd::prelude::*;

use crate::config;
use crate::effects;
use crate::effects::Warning;
use crate::ids::ObjectKey;
use crate::jump;
use crate::laws;
use crate::laws::placing;
use crate::laws::terms;
use crate::runtime;
use crate::runtime::{DeferredResult, PendingDecision, PlaceError, PlaceOutcome};
use crate::search;
use crate::state;
use crate::wayland;
use crate::world;
use crate::world::{Workspace, World};

verus! {

/// What is done with a window that waits, given the workspaces of its group:
/// the first that was not there before is used; where all were, it waits on if
/// this is no look yet, and else the first that is not occupied is used, if
/// there is one.
pub proof fn law_pending_decision<Id>(
    before: Set<Id>,
    ids: Seq<Id>,
    occupied: Seq<bool>,
    cycles_waited: u32,
)
    requires
        ids.len() <= usize::MAX,
        occupied.len() <= usize::MAX,
    ensures
        match runtime::pending_decision(before, ids, occupied, cycles_waited) {
            PendingDecision::UseNew { idx } => {
                &&& idx < ids.len()
                &&& !before.contains(ids[idx as int])
                &&& forall|k: int| 0 <= k < idx ==> before.contains(#[trigger] ids[k])
            },
            PendingDecision::DegradeAndWarn { next_free_idx } => {
                &&& forall|k: int| 0 <= k < ids.len() ==> before.contains(#[trigger] ids[k])
                &&& cycles_waited >= 1
                &&& match next_free_idx {
                    Some(i) => i < occupied.len() && !occupied[i as int] && forall|k: int|
                        0 <= k < i ==> #[trigger] occupied[k],
                    None => forall|k: int| 0 <= k < occupied.len() ==> #[trigger] occupied[k],
                }
            },
            PendingDecision::KeepWaiting => {
                &&& forall|k: int| 0 <= k < ids.len() ==> before.contains(#[trigger] ids[k])
                &&& cycles_waited == 0
            },
        },
{
    search::lemma_first_where(ids, runtime::is_new(before));
    search::lemma_first_where(occupied, runtime::is_unoccupied());
    match runtime::first_new(before, ids) {
        Some(i) => {
            assert forall|k: int| 0 <= k < i implies before.contains(#[trigger] ids[k]) by {
                assert(!runtime::is_new(before)(ids[k]));
            }
        },
        None => {
            assert forall|k: int| 0 <= k < ids.len() implies before.contains(
                #[trigger] ids[k],
            ) by {
                assert(!runtime::is_new(before)(ids[k]));
            }
            match runtime::first_free(occupied) {
                Some(i) => {
                    assert forall|k: int| 0 <= k < i implies #[trigger] occupied[k] by {
                        assert(!runtime::is_unoccupied()(occupied[k]));
                    }
                },
                None => {
                    assert forall|k: int| 0 <= k < occupied.len() implies #[trigger] occupied[k] by {
                        assert(!runtime::is_unoccupied()(occupied[k]));
                    }
                },
            }
        },
    }
}

/// Whether the group at place `g` is the first with the handle.
pub open spec fn first_with_handle(world: World, handle: ObjectKey, g: int) -> bool {
    &&& 0 <= g < world.groups@.len()
    &&& world.groups@[g].handle == handle
    &&& forall|k: int| 0 <= k < g ==> (#[trigger] world.groups@[k]).handle != handle
}

/// Whether the workspace at place `w` is the first of the group at place `g`
/// that is not among `before`.
pub open spec fn first_new_in(world: World, before: Set<ObjectKey>, g: int, w: int) -> bool {
    &&& terms::in_group_at(world, g, w)
    &&& !before.contains(world.workspaces@[w].handle)
    &&& forall|k: int|
        0 <= k < w && terms::in_group_at(world, g, k) ==> before.contains(
            (#[trigger] world.workspaces@[k]).handle,
        )
}

/// The warning that a requested workspace did not appear, where it was not
/// given before.
pub open spec fn not_honored(v: state::AppView) -> Seq<effects::EffectView> {
    if v.warned_not_honored {
        Seq::empty()
    } else {
        seq![effects::EffectView::Warn { warning: Warning::CreateWorkspaceNotHonored }]
    }
}

/// Whether a window that waited was placed on the workspace: it is moved there
/// on the output that it was on, then the workspace is switched to where that
/// was wanted and there is a manager, then the window is maximized where that
/// was wanted; and nothing else of the state changes.
pub open spec fn is_placed_on(
    v: state::AppView,
    world: World,
    p: runtime::PendingView,
    workspace: ObjectKey,
    warnings: Seq<effects::EffectView>,
) -> bool {
    let (after, result) = v.resolved(world, p);
    &&& result == (DeferredResult::Placed {
        workspace,
        post_place: p.post_place,
        switch_failed: p.post_place.switch_to && world.manager is None,
    })
    &&& after.effects == v.effects + warnings + placing::placing_requests(
        v,
        world.manager,
        p.cosmic_toplevel,
        workspace,
        p.output,
        p.post_place,
    )
    &&& placing::only_places(v, after, workspace, p.post_place.switch_to && world.manager is Some)
}

proof fn lemma_first_kept(world: World, g: int, r: spec_fn(Workspace) -> bool)
    requires
        0 <= g < world.groups@.len(),
    ensures
        ({
            let kept = world.members(world.groups@[g]);
            match search::first_where(kept, r) {
                Some(k) => 0 <= k < kept.len() && exists|w: int| #[trigger]
                    terms::in_group_at(world, g, w) && world.workspaces@[w] == kept[k] && r(
                        world.workspaces@[w],
                    ) && forall|j: int|
                        0 <= j < w && #[trigger] terms::in_group_at(world, g, j) ==> !r(
                            world.workspaces@[j],
                        ),
                None => forall|j: int| #[trigger]
                    terms::in_group_at(world, g, j) ==> !r(world.workspaces@[j]),
            }
        }),
{
    let group = world.groups@[g];
    let p = world::is_member(group);
    let s = world.workspaces@;
    let kept = world.members(group);
    search::lemma_first_of_kept(s, p, r);
    assert forall|j: int| #[trigger] terms::in_group_at(world, g, j) <==> 0 <= j < s.len() && p(
        s[j],
    ) by {}
    match search::first_where(kept, r) {
        Some(k) => {
            let i = choose|i: int|
                #![trigger s[i]]
                0 <= i < s.len() && s[i] == kept[k] && p(s[i]) && r(s[i]) && forall|j: int|
                    0 <= j < i ==> !(p(#[trigger] s[j]) && r(s[j]));
            assert(terms::in_group_at(world, g, i));
            assert forall|j: int| 0 <= j < i && #[trigger] terms::in_group_at(world, g, j) implies !r(
                world.workspaces@[j],
            ) by {
                assert(!(p(s[j]) && r(s[j])));
            }
        },
        None => {
            assert forall|j: int| #[trigger] terms::in_group_at(world, g, j) implies !r(
                world.workspaces@[j],
            ) by {
                assert(!(p(s[j]) && r(s[j])));
            }
        },
    }
}

/// The first key of a group's workspaces with a property is that of the first
/// workspace with it.
proof fn lemma_first_key(
    world: World,
    g: int,
    p: spec_fn(ObjectKey) -> bool,
)
    requires
        0 <= g < world.groups@.len(),
    ensures
        ({
            let keys = world::handles(world.members(world.groups@[g]));
            match search::first_where(keys, p) {
                Some(k) => 0 <= k < keys.len() && exists|w: int| #[trigger]
                    terms::in_group_at(world, g, w) && world.workspaces@[w].handle == keys[k] && p(
                        keys[k],
                    ) && forall|j: int|
                        0 <= j < w && #[trigger] terms::in_group_at(world, g, j) ==> !p(
                            world.workspaces@[j].handle,
                        ),
                None => forall|j: int| #[trigger]
                    terms::in_group_at(world, g, j) ==> !p(world.workspaces@[j].handle),
            }
        }),
{
    let kept = world.members(world.groups@[g]);
    let keys = world::handles(kept);
    let r = |w: Workspace| p(w.handle);
    lemma_first_kept(world, g, r);
    search::lemma_first_where(kept, r);
    match search::first_where(kept, r) {
        Some(k) => {
            assert forall|j: int| 0 <= j < k implies !p(#[trigger] keys[j]) by {
                assert(!r(kept[j]));
            }
            search::lemma_first_where_is(keys, p, k);
            let w = choose|w: int| #[trigger]
                terms::in_group_at(world, g, w) && world.workspaces@[w] == kept[k] && r(
                    world.workspaces@[w],
                ) && forall|j: int|
                    0 <= j < w && #[trigger] terms::in_group_at(world, g, j) ==> !r(
                        world.workspaces@[j],
                    );
            assert forall|j: int| 0 <= j < w && #[trigger] terms::in_group_at(world, g, j) implies !p(
                world.workspaces@[j].handle,
            ) by {
                assert(!r(world.workspaces@[j]));
            }
            assert(terms::in_group_at(world, g, w) && world.workspaces@[w].handle == keys[k]);
        },
        None => {
            assert forall|j: int| 0 <= j < keys.len() implies !p(#[trigger] keys[j]) by {
                assert(!r(kept[j]));
            }
            search::lemma_first_where_none(keys, p);
            assert forall|j: int| #[trigger] terms::in_group_at(world, g, j) implies !p(
                world.workspaces@[j].handle,
            ) by {
                assert(!r(world.workspaces@[j]));
            }
        },
    }
}

proof fn lemma_group_found(world: World, handle: ObjectKey, g: int)
    requires
        first_with_handle(world, handle, g),
    ensures
        search::first_where(world.groups@, runtime::is_group(handle)) == Some(g),
{
    search::lemma_first_where_is(world.groups@, runtime::is_group(handle), g);
}

/// A window whose group is gone is given up, and nothing changes.
pub proof fn law_group_of_waiting_window_is_gone(
    v: state::AppView,
    world: World,
    p: runtime::PendingView,
)
    requires
        forall|g: int|
            0 <= g < world.groups@.len() ==> (#[trigger] world.groups@[g]).handle != p.group_handle,
    ensures
        v.resolved(world, p) == (v, DeferredResult::GroupGone),
{
    search::lemma_first_where_none(world.groups@, runtime::is_group(p.group_handle));
}

/// A window that waited is placed on the first workspace of its group that was
/// not there when it was requested.
pub proof fn law_waiting_window_takes_new_workspace(
    v: state::AppView,
    world: World,
    p: runtime::PendingView,
    g: int,
    w: int,
)
    requires
        first_with_handle(world, p.group_handle, g),
        first_new_in(world, p.before, g, w),
    ensures
        is_placed_on(v, world, p, world.workspaces@[w].handle, Seq::empty()),
{
    lemma_group_found(world, p.group_handle, g);
    let q = runtime::is_new(p.before);
    lemma_first_key(world, g, q);
    let keys = world::handles(world.members(world.groups@[g]));
    assert(q(world.workspaces@[w].handle));
    let k = search::first_where(keys, q)->Some_0;
    let x = choose|x: int| #[trigger]
        terms::in_group_at(world, g, x) && world.workspaces@[x].handle == keys[k] && q(keys[k])
            && forall|j: int|
            0 <= j < x && #[trigger] terms::in_group_at(world, g, j) ==> !q(
                world.workspaces@[j].handle,
            );
    if x < w {
        assert(p.before.contains(world.workspaces@[x].handle));
    }
    if w < x {
        assert(terms::in_group_at(world, g, w));
    }
    assert(x == w);
    placing::lemma_placing_requests(
        v,
        world.manager,
        p.cosmic_toplevel,
        keys[k],
        p.output,
        p.post_place,
    );
    assert(v.effects + Seq::<effects::EffectView>::empty() =~= v.effects);
}

/// Where no workspace appeared, the operator is warned, once, and the window is
/// placed on the first workspace of its group that no window is on.
pub proof fn law_waiting_window_falls_back(
    v: state::AppView,
    world: World,
    p: runtime::PendingView,
    g: int,
    w: int,
)
    requires
        first_with_handle(world, p.group_handle, g),
        forall|k: int| !(#[trigger] first_new_in(world, p.before, g, k)),
        terms::first_empty_in(world, g, w),
    ensures
        is_placed_on(v, world, p, world.workspaces@[w].handle, not_honored(v)),
        v.resolved(world, p).0.warned_not_honored,
{
    lemma_group_found(world, p.group_handle, g);
    lemma_nothing_new(world, p, g);
    let keys = world::handles(world.members(world.groups@[g]));
    let q = |key: ObjectKey| !world.occupied(key);
    lemma_first_key(world, g, q);
    lemma_first_free_key(world, keys);
    assert(!terms::has_window(world, world.workspaces@[w].handle));
    assert(q(world.workspaces@[w].handle));
    let k = search::first_where(keys, q)->Some_0;
    let x = choose|x: int| #[trigger]
        terms::in_group_at(world, g, x) && world.workspaces@[x].handle == keys[k] && q(keys[k])
            && forall|j: int|
            0 <= j < x && #[trigger] terms::in_group_at(world, g, j) ==> !q(
                world.workspaces@[j].handle,
            );
    if x < w {
        assert(terms::has_window(world, world.workspaces@[x].handle));
    }
    if w < x {
        assert(terms::in_group_at(world, g, w));
    }
    assert(x == w);
    let warned = v.warn_once(Warning::CreateWorkspaceNotHonored);
    assert(warned.effects =~= v.effects + not_honored(v));
    placing::lemma_placing_requests(
        warned,
        world.manager,
        p.cosmic_toplevel,
        keys[k],
        p.output,
        p.post_place,
    );
}

/// Where no workspace appeared and windows are on all workspaces of the group,
/// the operator is warned, once, and the window stays where it is.
pub proof fn law_waiting_window_finds_nothing(
    v: state::AppView,
    world: World,
    p: runtime::PendingView,
    g: int,
)
    requires
        first_with_handle(world, p.group_handle, g),
        forall|k: int| !(#[trigger] first_new_in(world, p.before, g, k)),
        forall|w: int| !(#[trigger] terms::first_empty_in(world, g, w)),
    ensures
        ({
            let (after, result) = v.resolved(world, p);
            &&& result == DeferredResult::NoFallback
            &&& after.effects == v.effects + not_honored(v)
            &&& after.warned_not_honored
            &&& placing::only_asks(v, after)
        }),
{
    lemma_group_found(world, p.group_handle, g);
    lemma_nothing_new(world, p, g);
    let keys = world::handles(world.members(world.groups@[g]));
    let q = |key: ObjectKey| !world.occupied(key);
    lemma_first_key(world, g, q);
    lemma_first_free_key(world, keys);
    if search::first_where(keys, q) is Some {
        let k = search::first_where(keys, q)->Some_0;
        let x = choose|x: int| #[trigger]
            terms::in_group_at(world, g, x) && world.workspaces@[x].handle == keys[k] && q(keys[k])
                && forall|j: int|
                0 <= j < x && #[trigger] terms::in_group_at(world, g, j) ==> !q(
                    world.workspaces@[j].handle,
                );
        assert forall|j: int| 0 <= j < x && terms::in_group_at(world, g, j) implies terms::has_window(
            world,
            (#[trigger] world.workspaces@[j]).handle,
        ) by {
            assert(!q(world.workspaces@[j].handle));
        }
        assert(terms::first_empty_in(world, g, x));
    }
    let warned = v.warn_once(Warning::CreateWorkspaceNotHonored);
    assert(warned.effects =~= v.effects + not_honored(v));
}

proof fn lemma_nothing_new(world: World, p: runtime::PendingView, g: int)
    requires
        0 <= g < world.groups@.len(),
        forall|k: int| !(#[trigger] first_new_in(world, p.before, g, k)),
    ensures
        runtime::first_new(p.before, world::handles(world.members(world.groups@[g]))) is None,
{
    let q = runtime::is_new(p.before);
    lemma_first_key(world, g, q);
    let keys = world::handles(world.members(world.groups@[g]));
    if search::first_where(keys, q) is Some {
        let k = search::first_where(keys, q)->Some_0;
        let x = choose|x: int| #[trigger]
            terms::in_group_at(world, g, x) && world.workspaces@[x].handle == keys[k] && q(keys[k])
                && forall|j: int|
                0 <= j < x && #[trigger] terms::in_group_at(world, g, j) ==> !q(
                    world.workspaces@[j].handle,
                );
        assert forall|j: int| 0 <= j < x && terms::in_group_at(world, g, j) implies p.before.contains(
            (#[trigger] world.workspaces@[j]).handle,
        ) by {
            assert(!q(world.workspaces@[j].handle));
        }
        assert(first_new_in(world, p.before, g, x));
    }
}

proof fn lemma_first_free_key(world: World, keys: Seq<ObjectKey>)
    ensures
        runtime::first_free(runtime::occupancy(world, keys)) == search::first_where(
            keys,
            |key: ObjectKey| !world.occupied(key),
        ),
{
    let q = |key: ObjectKey| !world.occupied(key);
    let occupied = runtime::occupancy(world, keys);
    search::lemma_first_where(keys, q);
    match search::first_where(keys, q) {
        Some(k) => {
            assert forall|j: int| 0 <= j < k implies !runtime::is_unoccupied()(
                #[trigger] occupied[j],
            ) by {
                assert(!q(keys[j]));
            }
            search::lemma_first_where_is(occupied, runtime::is_unoccupied(), k);
        },
        None => {
            assert forall|j: int| 0 <= j < occupied.len() implies !runtime::is_unoccupied()(
                #[trigger] occupied[j],
            ) by {
                assert(!q(keys[j]));
            }
            search::lemma_first_where_none(occupied, runtime::is_unoccupied());
        },
    }
}

/// What is asked for of a window that waited and was placed, item by item: it
/// is moved to that workspace, on the output that it was on, maximized if and
/// only if that was wanted when it was queued, and the workspace is switched to
/// if and only if that was wanted and there is a manager.
pub proof fn law_waiting_window_is_maximized_and_switched_to(
    v: state::AppView,
    world: World,
    p: runtime::PendingView,
)
    ensures
        v.resolved(world, p).1 matches DeferredResult::Placed {
            workspace,
            post_place,
            switch_failed,
        } ==> ({
            let asked = terms::added(v.effects, v.resolved(world, p).0.effects);
            let moved = effects::EffectView::MoveToWorkspace {
                toplevel: p.cosmic_toplevel,
                workspace,
                output: p.output,
            };
            let maximized = effects::EffectView::SetMaximized { toplevel: p.cosmic_toplevel };
            &&& post_place == p.post_place
            &&& switch_failed <==> p.post_place.switch_to && world.manager is None
            &&& asked.contains(moved)
            &&& asked.contains(maximized) <==> p.post_place.maximize
            &&& asked.contains(effects::EffectView::Activate { workspace })
                <==> p.post_place.switch_to && world.manager is Some
            &&& forall|i: int|
                0 <= i < asked.len() && (#[trigger] asked[i]) is MoveToWorkspace ==> asked[i]
                    == moved
            &&& forall|i: int|
                0 <= i < asked.len() && (#[trigger] asked[i]) is SetMaximized ==> asked[i]
                    == maximized
            &&& placing::in_order(asked, moved, workspace, world.manager)
        }),
{
    if let DeferredResult::Placed { workspace, .. } = v.resolved(world, p).1 {
        let after = v.resolved(world, p).0;
        let g = search::first_where(world.groups@, runtime::is_group(p.group_handle))->Some_0;
        let keys = world::handles(world.members(world.groups@[g]));
        let (start, warnings) = if runtime::first_new(p.before, keys) is Some {
            (v, Seq::empty())
        } else {
            (v.warn_once(Warning::CreateWorkspaceNotHonored), not_honored(v))
        };
        assert(start.effects =~= v.effects + warnings);
        placing::lemma_placing_requests(
            start,
            world.manager,
            p.cosmic_toplevel,
            workspace,
            p.output,
            p.post_place,
        );
        let rest = placing::placing_requests(
            start,
            world.manager,
            p.cosmic_toplevel,
            workspace,
            p.output,
            p.post_place,
        );
        assert(after.effects == start.effects + rest);
        assert(terms::added(v.effects, after.effects) =~= warnings + rest);
        placing::lemma_items_of_placing(
            warnings,
            start,
            world.manager,
            p.cosmic_toplevel,
            workspace,
            p.output,
            p.post_place,
        );
    }
}

/// The window that is dealt with at turn `i`: first the first of the queue,
/// then the others from the last to the second.
pub open spec fn at_turn<T>(queue: Seq<T>, i: int) -> T {
    if i == 0 {
        queue[0]
    } else {
        queue[queue.len() - i]
    }
}

/// Whether `states` leads through the windows of the queue, one at each turn,
/// with these outcomes.
pub open spec fn leads_through(
    states: Seq<state::AppView>,
    world: World,
    queue: Seq<runtime::PendingView>,
    outcomes: Seq<runtime::DeferredView>,
) -> bool {
    &&& states.len() == queue.len() + 1
    &&& outcomes.len() == queue.len()
    &&& forall|i: int|
        0 <= i < queue.len() ==> (states[i + 1], (#[trigger] outcomes[i]).result)
            == states[i].resolved(world, at_turn(queue, i)) && outcomes[i].app_id == at_turn(
            queue,
            i,
        ).app_id
}

proof fn lemma_drained_leads(
    v: state::AppView,
    world: World,
    queue: Seq<runtime::PendingView>,
) -> (states: Seq<state::AppView>)
    ensures
        states.len() > 0,
        states[0] == v,
        states.last() == v.drained(world, queue).0,
        leads_through(states, world, queue, v.drained(world, queue).1),
    decreases queue.len(),
{
    if queue.len() == 0 {
        seq![v]
    } else {
        let mid = v.resolved(world, queue[0]).0;
        let rest = runtime::swap_removed(queue);
        let tail = lemma_drained_leads(mid, world, rest);
        let states = seq![v] + tail;
        let outcomes = v.drained(world, queue).1;
        let later = mid.drained(world, rest).1;
        assert forall|i: int| 0 <= i < queue.len() implies (
            states[i + 1],
            (#[trigger] outcomes[i]).result,
        ) == states[i].resolved(world, at_turn(queue, i)) && outcomes[i].app_id == at_turn(
            queue,
            i,
        ).app_id by {
            if i > 0 {
                assert(outcomes[i] == later[i - 1]);
                assert(states[i] == tail[i - 1]);
                assert(states[i + 1] == tail[i]);
                assert(at_turn(rest, i - 1) == at_turn(queue, i));
            }
        }
        states
    }
}

/// All windows that wait are dealt with, each once: first the first, then the
/// others from the last to the second, each with what the one before left.
pub proof fn law_waiting_windows_take_turns(v: state::AppView, world: World)
    ensures
        exists|states: Seq<state::AppView>|
            states.len() > 0 && states[0] == (state::AppView { pending: Seq::empty(), ..v })
                && states.last() == v.scanned(world).0 && #[trigger] leads_through(
                states,
                world,
                v.pending,
                v.scanned(world).1,
            ),
{
    let states = lemma_drained_leads(
        state::AppView { pending: Seq::empty(), ..v },
        world,
        v.pending,
    );
    assert(leads_through(states, world, v.pending, v.scanned(world).1));
}

proof fn lemma_confirmed_beside_queue(v: state::AppView, world: World, n: int)
    ensures
        v.confirmed_among(world, n) == (state::AppView {
            pending: v.pending,
            ..(state::AppView { pending: Seq::empty(), ..v }).confirmed_among(world, n)
        }),
    decreases n,
{
    if n > 0 {
        lemma_confirmed_beside_queue(v, world, n - 1);
    }
}

/// A batch of changes is dealt with as if no window waited, and then those that
/// wait are placed, one after the other.
pub proof fn law_batch_places_windows_last(v: state::AppView, world: World)
    ensures
        ({
            let quiet = (state::AppView { pending: Seq::empty(), ..v }).batch_done(world).0;
            v.batch_done(world) == (state::AppView { pending: v.pending, ..quiet }).scanned(world)
        }),
{
    let n = world.workspaces@.len() as int;
    lemma_confirmed_beside_queue(v.followed(world), world, n);
    let emptied = state::AppView { pending: Seq::empty(), ..v };
    assert(emptied.followed(world) == (state::AppView {
        pending: Seq::empty(),
        ..v.followed(world)
    }));
    lemma_confirmed_beside_queue(emptied.followed(world), world, n);
    let confirmed = emptied.followed(world).confirmed_among(world, n);
    assert(emptied.batch_done(world).0 == (state::AppView { pending: Seq::empty(), ..confirmed }));
}

// ---------------------------------------------------------------------------
// Windows that come and go
// ---------------------------------------------------------------------------

/// A window that appears is dealt with as the snapshot lists it, with what the
/// configured pattern says of its title, and counts as dealt with from then
/// on; one that the snapshot does not list changes nothing.
pub proof fn law_window_appears(v: state::AppView, world: World, handle: ObjectKey)
    ensures
        (forall|t: int|
            0 <= t < world.toplevels@.len() ==> (#[trigger] world.toplevels@[t]).handle != handle)
            ==> v.appeared(world, handle) == (v, None::<Result<PlaceOutcome, PlaceError>>),
        forall|t: int| #[trigger]
            terms::first_listed(world.toplevels@, handle, t) ==> ({
                let window = world.toplevels@[t];
                let excluded = match v.config.excluded_title_regex {
                    Some(regex) => config::regex_matches(regex, window.title@),
                    None => false,
                };
                let (after, outcome) = v.received(world, window, excluded);
                v.appeared(world, handle) == (
                    state::AppView { handled: after.handled.insert(handle), ..after },
                    Some(outcome),
                )
            }),
{
    search::lemma_first_where(world.toplevels@, jump::is_listed_as(handle));
    assert forall|t: int| #[trigger] terms::first_listed(world.toplevels@, handle, t) implies ({
        let window = world.toplevels@[t];
        let excluded = match v.config.excluded_title_regex {
            Some(regex) => config::regex_matches(regex, window.title@),
            None => false,
        };
        let (after, outcome) = v.received(world, window, excluded);
        v.appeared(world, handle) == (
            state::AppView { handled: after.handled.insert(handle), ..after },
            Some(outcome),
        )
    }) by {
        search::lemma_first_where_is(world.toplevels@, jump::is_listed_as(handle), t);
    }
}

/// Of the windows that wait, those of a window that closes go, and all others
/// stay, in their order: what happens to two parts of the queue happens to
/// each, and one alone stays exactly if it is another window's.
pub proof fn law_queue_without_closed_window(
    v: state::AppView,
    world: World,
    handle: ObjectKey,
    a: Seq<runtime::PendingView>,
    b: Seq<runtime::PendingView>,
    p: runtime::PendingView,
)
    ensures
        ({
            let left = |queue: Seq<runtime::PendingView>|
                state::AppView { pending: queue, ..v }.closed(world, handle).0.pending;
            &&& left(a + b) == left(a) + left(b)
            &&& left(seq![p]) == (if p.foreign_toplevel_id == handle {
                Seq::empty()
            } else {
                seq![p]
            })
            &&& left(Seq::empty()) == Seq::<runtime::PendingView>::empty()
        }),
        v.closed(world, handle).0.handled == v.handled.remove(handle),
        !v.config.jump_on_empty ==> v.closed(world, handle).1 is None && v.closed(
            world,
            handle,
        ).0.effects == v.effects,
{
    let keep = wayland::toplevel::is_not_for(handle);
    search::lemma_all_where_concat(a, b, keep);
    reveal_with_fuel(search::all_where, 2);
    assert(seq![p].drop_last() =~= Seq::empty());
    assert(Seq::<runtime::PendingView>::empty().push(p) =~= seq![p]);
    assert forall|queue: Seq<runtime::PendingView>|
        (#[trigger] (state::AppView { pending: queue, ..v }).closed(world, handle)).0.pending
            == search::all_where(queue, keep) by {
        let start = state::AppView { pending: queue, ..v };
        laws::lemma_answered_close_carries_on(start.forgotten(handle), world, handle);
    }
    laws::lemma_answered_close_carries_on(v.forgotten(handle), world, handle);
}

} // verus!
