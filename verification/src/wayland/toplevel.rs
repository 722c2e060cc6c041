//! What happens when windows come and go.

use vstd::prelude::*;

use crate::ids::ObjectKey;
use crate::placement;
use crate::runtime;
use crate::runtime::{handle_new_toplevel, PlaceError, PlaceOutcome};
use crate::search;
use crate::state;
use crate::state::AppData;
use crate::jump;
use crate::jump::{find_toplevel, handle_empty_workspace_if_triggered, JumpOutcome};
use crate::world::World;

verus! {

/// A window that waits and is not listed under the given handle.
pub open spec fn is_not_for(handle: ObjectKey) -> spec_fn(runtime::PendingView) -> bool {
    |p: runtime::PendingView| p.foreign_toplevel_id != handle
}

impl state::AppView {
    /// The window counts as dealt with.
    pub open spec fn handled_too(self, handle: ObjectKey) -> state::AppView {
        state::AppView { handled: self.handled.insert(handle), ..self }
    }

    /// A window appeared. One that is not in the snapshot is left alone; any
    /// other is dealt with, and counts as dealt with from then on.
    pub open spec fn appeared(self, world: World, handle: ObjectKey) -> (
        state::AppView,
        Option<Result<PlaceOutcome, PlaceError>>,
    ) {
        match search::first_where(world.toplevels@, jump::is_listed_as(handle)) {
            None => (self, None),
            Some(i) => {
                let t = world.toplevels@[i];
                let (v, r) = self.received(
                    world,
                    t,
                    placement::title_excluded(self.config, t.title@),
                );
                (v.handled_too(handle), Some(r))
            },
        }
    }

    /// A window is gone: it no longer counts as dealt with, and waits for
    /// nothing.
    pub open spec fn forgotten(self, handle: ObjectKey) -> state::AppView {
        state::AppView {
            handled: self.handled.remove(handle),
            pending: search::all_where(self.pending, is_not_for(handle)),
            ..self
        }
    }

    /// A window closed, and was answered where recent workspaces are followed.
    pub open spec fn closed(self, world: World, handle: ObjectKey) -> (
        state::AppView,
        Option<JumpOutcome>,
    ) {
        let v = self.forgotten(handle);
        if self.config.jump_on_empty {
            let (end, outcome) = v.answered_close(world, handle);
            (end, Some(outcome))
        } else {
            (v, None)
        }
    }
}

/// Deals with a window that appeared, and remembers that it did, whatever came
/// of it. `None` if the snapshot does not list it.
pub fn new_toplevel(app: &mut AppData, world: &World, handle: ObjectKey) -> (r: Option<
    Result<PlaceOutcome, PlaceError>,
>)
    ensures
        (final(app)@, r) == old(app)@.appeared(*world, handle),
{
    let i: usize = match find_toplevel(&world.toplevels, handle) {
        Some(i) => i,
        None => {
            return None;
        },
    };
    let r: Result<PlaceOutcome, PlaceError> = handle_new_toplevel(app, world, &world.toplevels[i]);
    app.handled.insert(handle);
    Some(r)
}

/// Forgets a window that closed, and goes back to a recent workspace where
/// that is wanted. The snapshot still lists the window.
pub fn toplevel_closed(app: &mut AppData, world: &World, handle: ObjectKey) -> (outcome: Option<
    JumpOutcome,
>)
    ensures
        (final(app)@, outcome) == old(app)@.closed(*world, handle),
{
    app.handled.remove(&handle);
    evict_pending(app, handle);
    if app.config.jump_on_empty {
        Some(handle_empty_workspace_if_triggered(app, world, handle))
    } else {
        None
    }
}

/// Has a window that closed wait no more.
fn evict_pending(app: &mut AppData, handle: ObjectKey)
    ensures
        final(app)@ == (state::AppView {
            pending: search::all_where(old(app)@.pending, is_not_for(handle)),
            ..old(app)@
        }),
{
    let ghost start = app@;
    let ghost p = is_not_for(handle);
    let ghost queue = app.pending_placements@;
    let mut i: usize = 0;
    let ghost mut seen: int = 0;
    while i < app.pending_placements.len()
        invariant
            i <= app.pending_placements@.len(),
            0 <= seen <= queue.len(),
            p == is_not_for(handle),
            start.pending == runtime::pending_views(queue),
            app@ == (state::AppView { pending: app@.pending, ..start }),
            app.pending_placements@.len() - i == queue.len() - seen,
            runtime::pending_views(app.pending_placements@.take(i as int)) == search::all_where(
                start.pending.take(seen),
                p,
            ),
            app.pending_placements@.skip(i as int) == queue.skip(seen),
        decreases app.pending_placements@.len() - i,
    {
        let ghost held = app.pending_placements@;
        proof {
            assert(held[i as int] == held.skip(i as int)[0]);
            assert(queue[seen] == queue.skip(seen)[0]);
            assert(start.pending[seen] == queue[seen]@);
            assert(start.pending.take(seen + 1).drop_last() =~= start.pending.take(seen));
            assert(queue.skip(seen + 1) =~= queue.skip(seen).drop_first());
        }
        if app.pending_placements[i].foreign_toplevel_id == handle {
            app.pending_placements.remove(i);
            proof {
                assert(app.pending_placements@.take(i as int) =~= held.take(i as int));
                assert(app.pending_placements@.skip(i as int) =~= held.skip(
                    i as int,
                ).drop_first());
            }
        } else {
            proof {
                assert(runtime::pending_views(held.take(i + 1)) =~= runtime::pending_views(
                    held.take(i as int),
                ).push(held[i as int]@));
                assert(held.skip(i + 1) =~= held.skip(i as int).drop_first());
            }
            i += 1;
        }
        proof {
            seen = seen + 1;
        }
    }
    proof {
        assert(start.pending.take(seen) =~= start.pending);
        assert(app.pending_placements@.take(i as int) =~= app.pending_placements@);
    }
}

} // verus!
