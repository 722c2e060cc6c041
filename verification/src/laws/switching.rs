//! How switches are asked for and checked, stated over what is asked for.

use std::time::Duration;

use vstd::prelude::*;

use crate::config;
use crate::effects;
use crate::effects::Warning;
use crate::ids;
use crate::ids::{ObjectKey, WorkspaceId};
use crate::jump;
use crate::laws;
use crate::laws::placing;
use crate::laws::terms;
use crate::mru_jump;
use crate::placement;
use crate::placement::{PlacementAction, PlacementWarn, PostPlaceActions, WorkspaceTarget};
use crate::runtime;
use crate::search;
use crate::state;
use crate::verify;
use crate::world;
use crate::world::{Toplevel, WorkspaceGroup, World};

verus! {

// ---------------------------------------------------------------------------
// Timers are as configured
// ---------------------------------------------------------------------------

/// Whether request `i` is a switch to the workspace with the number `id`.
pub open spec fn is_switch_to(s: Seq<effects::EffectView>, i: int, id: WorkspaceId) -> bool {
    0 <= i < s.len() && (s[i] matches effects::EffectView::Activate { workspace }
        && terms::number(workspace) == id)
}

/// Whether request `i` is the start of a timer for the workspace with the
/// number `id`.
pub open spec fn is_timer_for(
    s: Seq<effects::EffectView>,
    i: int,
    id: WorkspaceId,
    timeout: Duration,
) -> bool {
    0 <= i < s.len() && s[i] == (effects::EffectView::StartTimer { handle_id: id, timeout })
}

/// Whether, among the requests, timers are only those of switches and run as
/// long as is configured, and each switch has one where one is configured.
pub open spec fn well_timed(s: Seq<effects::EffectView>, configured: Option<Duration>) -> bool {
    &&& forall|i: int, id: WorkspaceId, timeout: Duration| #[trigger]
        is_timer_for(s, i, id, timeout) ==> configured == Some(timeout) && exists|j: int|
            j < i && #[trigger] is_switch_to(s, j, id)
    &&& forall|i: int, id: WorkspaceId|
        #![trigger is_switch_to(s, i, id)]
        is_switch_to(s, i, id) && configured is Some ==> exists|j: int|
            i < j && #[trigger] is_timer_for(s, j, id, configured->Some_0)
}

/// From one state to another, no request is taken back, and those that came
/// are well timed.
spec fn asks(a: state::AppView, b: state::AppView) -> bool {
    &&& a.config == b.config
    &&& a.effects.is_prefix_of(b.effects)
    &&& well_timed(terms::added(a.effects, b.effects), a.config.switch_verify_timeout)
}

proof fn lemma_well_timed_concat(
    a: Seq<effects::EffectView>,
    b: Seq<effects::EffectView>,
    configured: Option<Duration>,
)
    requires
        well_timed(a, configured),
        well_timed(b, configured),
    ensures
        well_timed(a + b, configured),
{
    let s = a + b;
    let n = a.len();
    assert forall|i: int, id: WorkspaceId, timeout: Duration| #[trigger]
        is_timer_for(s, i, id, timeout) implies configured == Some(timeout) && exists|j: int|
        j < i && #[trigger] is_switch_to(s, j, id) by {
        if i < n {
            assert(is_timer_for(a, i, id, timeout));
            let j = choose|j: int| j < i && #[trigger] is_switch_to(a, j, id);
            assert(is_switch_to(s, j, id));
        } else {
            assert(is_timer_for(b, i - n, id, timeout));
            let j = choose|j: int| j < i - n && #[trigger] is_switch_to(b, j, id);
            assert(is_switch_to(s, j + n, id));
        }
    }
    assert forall|i: int, id: WorkspaceId|
        #![trigger is_switch_to(s, i, id)]
        is_switch_to(s, i, id) && configured is Some implies exists|j: int|
        i < j && #[trigger] is_timer_for(s, j, id, configured->Some_0) by {
        let timeout = configured->Some_0;
        if i < n {
            assert(is_switch_to(a, i, id));
            let j = choose|j: int| i < j && #[trigger] is_timer_for(a, j, id, timeout);
            assert(is_timer_for(s, j, id, timeout));
        } else {
            assert(is_switch_to(b, i - n, id));
            let j = choose|j: int| i - n < j && #[trigger] is_timer_for(b, j, id, timeout);
            assert(is_timer_for(s, j + n, id, timeout));
        }
    }
}

/// Requests that hold neither switches nor timers are well timed.
proof fn lemma_well_timed_plain(s: Seq<effects::EffectView>, configured: Option<Duration>)
    requires
        forall|i: int|
            0 <= i < s.len() ==> !((#[trigger] s[i]) is Activate) && !(s[i] is StartTimer),
    ensures
        well_timed(s, configured),
{
    assert forall|i: int, id: WorkspaceId, timeout: Duration| !(#[trigger] is_timer_for(
        s,
        i,
        id,
        timeout,
    )) by {
        if is_timer_for(s, i, id, timeout) {
            assert(s[i] is StartTimer);
        }
    }
    assert forall|i: int, id: WorkspaceId| !(#[trigger] is_switch_to(s, i, id)) by {
        if is_switch_to(s, i, id) {
            assert(s[i] is Activate);
        }
    }
}

proof fn lemma_asks_transitive(a: state::AppView, b: state::AppView, c: state::AppView)
    requires
        asks(a, b),
        asks(b, c),
    ensures
        asks(a, c),
{
    let first = terms::added(a.effects, b.effects);
    let second = terms::added(b.effects, c.effects);
    assert(b.effects =~= a.effects + first) by {
        assert(b.effects.take(a.effects.len() as int) =~= a.effects);
    }
    assert(c.effects =~= b.effects + second) by {
        assert(c.effects.take(b.effects.len() as int) =~= b.effects);
    }
    assert(terms::added(a.effects, c.effects) =~= first + second);
    assert(c.effects.take(a.effects.len() as int) =~= a.effects);
    lemma_well_timed_concat(first, second, a.config.switch_verify_timeout);
}

/// Where what came is well timed, so is the step.
proof fn lemma_asks_added(a: state::AppView, b: state::AppView, came: Seq<effects::EffectView>)
    requires
        a.config == b.config,
        b.effects == a.effects + came,
        well_timed(came, a.config.switch_verify_timeout),
    ensures
        asks(a, b),
{
    assert(b.effects.take(a.effects.len() as int) =~= a.effects);
    assert(terms::added(a.effects, b.effects) =~= came);
}

proof fn lemma_asks_same(a: state::AppView, b: state::AppView)
    requires
        a.config == b.config,
        a.effects == b.effects,
    ensures
        asks(a, b),
{
    assert(b.effects =~= a.effects + Seq::empty());
    lemma_well_timed_plain(Seq::empty(), a.config.switch_verify_timeout);
    lemma_asks_added(a, b, Seq::empty());
}

proof fn lemma_asks_plain(v: state::AppView, b: state::AppView, e: effects::EffectView)
    requires
        b.config == v.config,
        b.effects == v.effects.push(e),
        !(e is Activate),
        !(e is StartTimer),
    ensures
        asks(v, b),
{
    assert(b.effects =~= v.effects + seq![e]);
    lemma_well_timed_plain(seq![e], v.config.switch_verify_timeout);
    lemma_asks_added(v, b, seq![e]);
}

proof fn lemma_asks_switch(v: state::AppView, manager: ObjectKey, workspace: ObjectKey)
    ensures
        asks(v, v.activated(manager, workspace)),
{
    let after = v.activated(manager, workspace);
    let s = placing::switch_requests(v, manager, workspace);
    let configured = v.config.switch_verify_timeout;
    let own = terms::number(workspace);
    placing::law_switch_requests(v, manager, workspace);
    assert(s[0] == (effects::EffectView::Activate { workspace }));
    assert(is_switch_to(s, 0, own));
    assert(forall|i: int| 0 < i < s.len() ==> !((#[trigger] s[i]) is Activate));
    assert forall|i: int, id: WorkspaceId, timeout: Duration| #[trigger]
        is_timer_for(s, i, id, timeout) implies configured == Some(timeout) && exists|j: int|
        j < i && #[trigger] is_switch_to(s, j, id) by {
        assert(id == own);
        assert(i > 0);
        assert(is_switch_to(s, 0, own));
    }
    assert forall|i: int, id: WorkspaceId|
        #![trigger is_switch_to(s, i, id)]
        is_switch_to(s, i, id) && configured is Some implies exists|j: int|
        i < j && #[trigger] is_timer_for(s, j, id, configured->Some_0) by {
        assert(i == 0);
        assert(is_timer_for(s, s.len() - 1, own, configured->Some_0));
    }
    lemma_asks_added(v, after, s);
}

proof fn lemma_asks_placed(
    v: state::AppView,
    manager: Option<ObjectKey>,
    toplevel: ObjectKey,
    workspace: ObjectKey,
    output: ObjectKey,
    post: PostPlaceActions,
)
    ensures
        asks(v, v.placed(manager, toplevel, workspace, output, post)),
{
    let e = effects::EffectView::MoveToWorkspace { toplevel, workspace, output };
    let moved = v.emit(e);
    lemma_asks_plain(v, moved, e);
    let switched = if post.switch_to && manager is Some {
        moved.activated(manager->Some_0, workspace)
    } else {
        moved
    };
    if post.switch_to && manager is Some {
        lemma_asks_switch(moved, manager->Some_0, workspace);
        lemma_asks_transitive(v, moved, switched);
    }
    if post.maximize {
        let m = effects::EffectView::SetMaximized { toplevel };
        lemma_asks_plain(switched, switched.emit(m), m);
        lemma_asks_transitive(v, switched, switched.emit(m));
    }
}

proof fn lemma_asks_warn_once(v: state::AppView, warning: Warning)
    ensures
        asks(v, v.warn_once(warning)),
{
    if v.warned(warning) {
        lemma_asks_same(v, v);
    } else {
        lemma_asks_plain(v, v.warn_once(warning), effects::EffectView::Warn { warning });
    }
}

proof fn lemma_asks_warn_all(v: state::AppView, warns: Seq<PlacementWarn>)
    ensures
        asks(v, v.warn_all(warns)),
    decreases warns.len(),
{
    if warns.len() == 0 {
        lemma_asks_same(v, v);
    } else {
        let before = v.warn_all(warns.drop_last());
        lemma_asks_warn_all(v, warns.drop_last());
        lemma_asks_warn_once(before, runtime::warning_for(warns.last()));
        lemma_asks_transitive(v, before, v.warn_all(warns));
    }
}

proof fn lemma_asks_executed(
    v: state::AppView,
    world: World,
    t: Toplevel,
    target: WorkspaceTarget,
    group: WorkspaceGroup,
    post: PostPlaceActions,
)
    ensures
        asks(v, v.executed(world, t, target, group, post).0),
{
    let after = v.executed(world, t, target, group, post).0;
    lemma_asks_same(v, v);
    if t.cosmic_handle is Some && t.outputs@.len() > 0 {
        let toplevel = t.cosmic_handle->Some_0;
        let output = t.outputs@[0];
        match target {
            WorkspaceTarget::Existing(ws_id) => {
                if let Some(i) = world.workspace_numbered(ws_id) {
                    let workspace = world.workspaces@[i].handle;
                    let e = effects::EffectView::MoveToWorkspace { toplevel, workspace, output };
                    lemma_asks_plain(v, v.emit(e), e);
                    lemma_asks_placed(v, world.manager, toplevel, workspace, output, post);
                }
            },
            WorkspaceTarget::Create => {
                if let Some(manager) = world.manager {
                    let e = effects::EffectView::CreateWorkspace {
                        group: group.handle,
                        name: runtime::workspace_name(t.app_id@, v.counter),
                    };
                    let commit = effects::EffectView::Commit { manager };
                    lemma_asks_plain(v, v.emit(e), e);
                    lemma_asks_plain(v.emit(e), v.emit(e).emit(commit), commit);
                    lemma_asks_transitive(v, v.emit(e), v.emit(e).emit(commit));
                    lemma_asks_same(v.emit(e).emit(commit), after);
                    lemma_asks_transitive(v, v.emit(e).emit(commit), after);
                } else {
                    lemma_asks_same(v, after);
                }
            },
        }
    }
}

proof fn lemma_asks_received(v: state::AppView, world: World, t: Toplevel, title_excluded: bool)
    ensures
        asks(v, v.received(world, t, title_excluded).0),
{
    let d = placement::decision(
        v.config,
        runtime::configured_output(v.config, world),
        title_excluded,
        runtime::info_view(t),
        runtime::group_views(world),
        runtime::number_set(v.handled),
        ids::object_number(t.handle),
    );
    let warned = v.warn_all(d.warns);
    lemma_asks_warn_all(v, d.warns);
    if let PlacementAction::Place { workspace, then } = d.action {
        let group = world.groups@[d.group->Some_0];
        lemma_asks_executed(warned, world, t, workspace, group, then);
        lemma_asks_transitive(v, warned, warned.executed(world, t, workspace, group, then).0);
    }
}

proof fn lemma_asks_resolved(v: state::AppView, world: World, p: runtime::PendingView)
    ensures
        asks(v, v.resolved(world, p).0),
{
    lemma_asks_same(v, v);
    if let Some(g) = search::first_where(world.groups@, runtime::is_group(p.group_handle)) {
        let keys = world::handles(world.members(world.groups@[g]));
        match runtime::first_new(p.before, keys) {
            Some(i) => {
                lemma_asks_placed(
                    v,
                    world.manager,
                    p.cosmic_toplevel,
                    keys[i],
                    p.output,
                    p.post_place,
                );
            },
            None => {
                let warned = v.warn_once(Warning::CreateWorkspaceNotHonored);
                lemma_asks_warn_once(v, Warning::CreateWorkspaceNotHonored);
                if let Some(i) = runtime::first_free(runtime::occupancy(world, keys)) {
                    lemma_asks_placed(
                        warned,
                        world.manager,
                        p.cosmic_toplevel,
                        keys[i],
                        p.output,
                        p.post_place,
                    );
                    lemma_asks_transitive(v, warned, v.resolved(world, p).0);
                }
            },
        }
    }
}

proof fn lemma_asks_drained(v: state::AppView, world: World, queue: Seq<runtime::PendingView>)
    ensures
        asks(v, v.drained(world, queue).0),
    decreases queue.len(),
{
    if queue.len() == 0 {
        lemma_asks_same(v, v);
    } else {
        let mid = v.resolved(world, queue[0]).0;
        lemma_asks_resolved(v, world, queue[0]);
        lemma_asks_drained(mid, world, runtime::swap_removed(queue));
        lemma_asks_transitive(v, mid, v.drained(world, queue).0);
    }
}

proof fn lemma_asks_confirmed(v: state::AppView, world: World, n: int)
    ensures
        asks(v, v.confirmed_among(world, n)),
    decreases n,
{
    if n <= 0 {
        lemma_asks_same(v, v);
    } else {
        let before = v.confirmed_among(world, n - 1);
        lemma_asks_confirmed(v, world, n - 1);
        let id = ids::object_number(world.workspaces@[n - 1].handle);
        let e = effects::EffectView::CancelTimer { token: before.tokens[id] };
        lemma_asks_plain(before, before.confirmed(id), e);
        lemma_asks_transitive(v, before, before.confirmed(id));
    }
}

proof fn lemma_asks_answered(v: state::AppView, world: World, closed: ObjectKey)
    ensures
        asks(v, v.answered_close(world, closed).0),
{
    lemma_asks_same(v, v);
    if let Some(t) = search::first_where(world.toplevels@, jump::is_listed_as(closed)) {
        let outcome = jump::trigger_view(
            world,
            world.toplevels@[t].workspaces@,
            closed,
            v.recent,
        ).outcome();
        if let mru_jump::TriggerOutcome::Jump { target, .. } = outcome {
            if let Some(i) = world.workspace_numbered(target) {
                if let Some(manager) = world.manager {
                    lemma_asks_switch(v, manager, world.workspaces@[i].handle);
                }
            }
        }
    }
}

proof fn lemma_asks_event(v: state::AppView, event: laws::Event)
    ensures
        asks(v, v.after(event)),
{
    let after = v.after(event);
    lemma_asks_same(v, v);
    match event {
        laws::Event::Appeared { world, handle } => {
            if let Some(i) = search::first_where(world.toplevels@, jump::is_listed_as(handle)) {
                let t = world.toplevels@[i];
                let excluded = placement::title_excluded(v.config, t.title@);
                let mid = v.received(world, t, excluded).0;
                lemma_asks_received(v, world, t, excluded);
                lemma_asks_same(mid, after);
                lemma_asks_transitive(v, mid, after);
            }
        },
        laws::Event::Closed { world, handle } => {
            let mid = v.forgotten(handle);
            lemma_asks_same(v, mid);
            lemma_asks_answered(mid, world, handle);
            if v.config.jump_on_empty {
                lemma_asks_transitive(v, mid, after);
            }
        },
        laws::Event::Batch { world } => {
            let followed = v.followed(world);
            let confirmed = followed.confirmed_among(world, world.workspaces@.len() as int);
            let emptied = state::AppView { pending: Seq::empty(), ..confirmed };
            lemma_asks_same(v, followed);
            lemma_asks_confirmed(followed, world, world.workspaces@.len() as int);
            lemma_asks_same(confirmed, emptied);
            lemma_asks_drained(emptied, world, confirmed.pending);
            lemma_asks_transitive(v, followed, confirmed);
            lemma_asks_transitive(v, confirmed, emptied);
            lemma_asks_transitive(v, emptied, after);
        },
        laws::Event::TimerRegistered { handle_id, token } => {
            if token is Some && v.tokens.contains_key(handle_id) {
                lemma_asks_plain(
                    v,
                    after,
                    effects::EffectView::CancelTimer { token: v.tokens[handle_id] },
                );
            } else {
                lemma_asks_same(v, after);
            }
        },
        _ => {
            lemma_asks_same(v, after);
        },
    }
}

/// Whatever happens, the timers that are started are those of the switches
/// asked for, each for as long as is configured; and where a length is
/// configured each switch asked for is followed by the start of its timer.
pub proof fn law_timers_are_as_configured(v: state::AppView, event: laws::Event)
    ensures
        ({
            let came = terms::added(v.effects, v.after(event).effects);
            &&& v.after(event).effects == v.effects + came
            &&& forall|i: int|
                0 <= i < came.len() ==> (#[trigger] came[i] matches effects::EffectView::StartTimer {
                    handle_id,
                    timeout,
                } ==> v.config.switch_verify_timeout == Some(timeout))
            &&& forall|i: int|
                0 <= i < came.len() ==> (#[trigger] came[i] matches effects::EffectView::Activate {
                    workspace,
                } ==> (v.config.switch_verify_timeout matches Some(timeout) ==> exists|j: int|
                    i < j && #[trigger] is_timer_for(came, j, terms::number(workspace), timeout)))
            &&& forall|j: int|
                0 <= j < came.len() ==> (#[trigger] came[j] matches effects::EffectView::StartTimer {
                    handle_id,
                    timeout,
                } ==> exists|i: int| i < j && #[trigger] is_switch_to(came, i, handle_id))
        }),
{
    let after = v.after(event);
    let came = terms::added(v.effects, after.effects);
    lemma_asks_event(v, event);
    assert(after.effects =~= v.effects + came) by {
        assert(after.effects.take(v.effects.len() as int) =~= v.effects);
    }
    assert forall|i: int| 0 <= i < came.len() implies (#[trigger] came[i] matches
        effects::EffectView::StartTimer { handle_id, timeout }
        ==> v.config.switch_verify_timeout == Some(timeout)) by {
        if let effects::EffectView::StartTimer { handle_id, timeout } = came[i] {
            assert(is_timer_for(came, i, handle_id, timeout));
        }
    }
    assert forall|i: int| 0 <= i < came.len() implies (#[trigger] came[i] matches
        effects::EffectView::Activate { workspace } ==> (
    v.config.switch_verify_timeout matches Some(timeout) ==> exists|j: int|
        i < j && #[trigger] is_timer_for(came, j, terms::number(workspace), timeout))) by {
        if let effects::EffectView::Activate { workspace } = came[i] {
            assert(is_switch_to(came, i, terms::number(workspace)));
        }
    }
    assert forall|j: int| 0 <= j < came.len() implies (#[trigger] came[j] matches
        effects::EffectView::StartTimer { handle_id, timeout } ==> exists|i: int|
        i < j && #[trigger] is_switch_to(came, i, handle_id)) by {
        if let effects::EffectView::StartTimer { handle_id, timeout } = came[j] {
            assert(is_timer_for(came, j, handle_id, timeout));
        }
    }
}

// ---------------------------------------------------------------------------
// Switches are confirmed, or not
// ---------------------------------------------------------------------------

/// Whether the first workspace with the number `id` is active.
pub open spec fn is_reached(world: World, id: WorkspaceId) -> bool {
    exists|w: int|
        0 <= w < world.workspaces@.len() && terms::number((#[trigger] world.workspaces@[w]).handle)
            == id && terms::shown(world.workspaces@[w]) && forall|k: int|
            0 <= k < w ==> terms::number((#[trigger] world.workspaces@[k]).handle) != id
}

/// Whether a switch that is awaited is reached.
pub open spec fn is_confirmed(v: state::AppView, world: World, id: WorkspaceId) -> bool {
    v.tokens.contains_key(id) && is_reached(world, id)
}

/// Whether this is the stop of the timer of such a switch.
pub open spec fn is_stop(v: state::AppView, world: World, e: effects::EffectView) -> bool {
    exists|id: WorkspaceId| #[trigger]
        is_confirmed(v, world, id) && e == (effects::EffectView::CancelTimer {
            token: v.tokens[id],
        })
}

spec fn reached_among(world: World, id: WorkspaceId, n: int) -> bool {
    world.workspace_numbered(id) matches Some(w) && w < n && world.workspaces@[w].is_active()
}

/// Whether a switch that is awaited is reached by the first `n` workspaces.
spec fn confirmed_by(v: state::AppView, world: World, id: WorkspaceId, n: int) -> bool {
    v.tokens.contains_key(id) && reached_among(world, id, n)
}

/// Whether of `id` just what should be is held and awaited afterwards.
pub open spec fn settled_at(
    v: state::AppView,
    after: state::AppView,
    id: WorkspaceId,
    confirmed: bool,
) -> bool {
    &&& after.tokens.contains_key(id) == (v.tokens.contains_key(id) && !confirmed)
    &&& after.tokens.contains_key(id) ==> after.tokens[id] == v.tokens[id]
    &&& after.verifier.pending.contains_key(id) == (v.verifier.pending.contains_key(id)
        && !confirmed)
    &&& after.verifier.pending.contains_key(id) ==> after.verifier.pending[id]
        == v.verifier.pending[id]
}

/// Whether this is the stop of the timer of such a switch.
spec fn is_stop_by(v: state::AppView, world: World, n: int, e: effects::EffectView) -> bool {
    exists|id: WorkspaceId| #[trigger]
        confirmed_by(v, world, id, n) && e == (effects::EffectView::CancelTimer {
            token: v.tokens[id],
        })
}

spec fn only_confirms(v: state::AppView, after: state::AppView, some: bool) -> bool {
    &&& after == (state::AppView {
        effects: after.effects,
        tokens: after.tokens,
        verifier: verify::VerifierView {
            pending: after.verifier.pending,
            attempted: if some {
                Set::empty()
            } else {
                v.verifier.attempted
            },
            informed: if some {
                Set::empty()
            } else {
                v.verifier.informed
            },
            ever_confirmed: v.verifier.ever_confirmed || some,
            ..v.verifier
        },
        ..v
    })
}

spec fn confirmed_right(v: state::AppView, world: World, n: int) -> bool {
    let after = v.confirmed_among(world, n);
    let came = terms::added(v.effects, after.effects);
    &&& v.effects.is_prefix_of(after.effects)
    &&& forall|id: WorkspaceId| #[trigger]
        settled_at(v, after, id, confirmed_by(v, world, id, n))
    &&& forall|i: int| 0 <= i < came.len() ==> is_stop_by(v, world, n, #[trigger] came[i])
    &&& forall|id: WorkspaceId| #[trigger]
        confirmed_by(v, world, id, n) ==> came.contains(
            effects::EffectView::CancelTimer { token: v.tokens[id] },
        )
    &&& only_confirms(
        v,
        after,
        exists|id: WorkspaceId| #[trigger] confirmed_by(v, world, id, n),
    )
}

proof fn lemma_confirmed_right(v: state::AppView, world: World, n: int)
    requires
        0 <= n <= world.workspaces@.len(),
    ensures
        confirmed_right(v, world, n),
    decreases n,
{
    let after = v.confirmed_among(world, n);
    let came = terms::added(v.effects, after.effects);
    if n == 0 {
        assert(came =~= Seq::empty());
        assert forall|id: WorkspaceId| !(#[trigger] confirmed_by(v, world, id, 0)) by {
            search::lemma_first_where(world.workspaces@, world::has_number(id));
        }
        assert forall|id: WorkspaceId| #[trigger]
            settled_at(v, after, id, confirmed_by(v, world, id, 0)) by {
            assert(!confirmed_by(v, world, id, 0));
        }
    } else {
        lemma_confirmed_right(v, world, n - 1);
        let before = v.confirmed_among(world, n - 1);
        let earlier = terms::added(v.effects, before.effects);
        let w = world.workspaces@[n - 1];
        let own = ids::object_number(w.handle);
        let hit = w.is_active() && world.workspace_numbered(own) == Some(n - 1);
        assert forall|id: WorkspaceId|
            #![trigger confirmed_by(v, world, id, n)]
            #![trigger confirmed_by(v, world, id, n - 1)]
            confirmed_by(v, world, id, n) == (confirmed_by(v, world, id, n - 1) || (id == own && hit
                && v.tokens.contains_key(own))) by {
            search::lemma_first_where(world.workspaces@, world::has_number(id));
        }
        search::lemma_first_where(world.workspaces@, world::has_number(own));
        assert(hit ==> !confirmed_by(v, world, own, n - 1));
        assert(settled_at(v, before, own, confirmed_by(v, world, own, n - 1)));
        if hit && before.tokens.contains_key(own) {
            lemma_confirmed_step(v, world, n);
        } else {
            assert(after == before);
            assert forall|id: WorkspaceId|
                #![trigger confirmed_by(v, world, id, n)]
                #![trigger confirmed_by(v, world, id, n - 1)]
                confirmed_by(v, world, id, n) == confirmed_by(v, world, id, n - 1) by {}
            assert forall|id: WorkspaceId| #[trigger]
                settled_at(v, after, id, confirmed_by(v, world, id, n)) by {
                assert(settled_at(v, before, id, confirmed_by(v, world, id, n - 1)));
            }
            assert forall|i: int| 0 <= i < came.len() implies is_stop_by(
                v,
                world,
                n,
                #[trigger] came[i],
            ) by {
                assert(is_stop_by(v, world, n - 1, earlier[i]));
                let id = choose|id: WorkspaceId| #[trigger]
                    confirmed_by(v, world, id, n - 1) && earlier[i] == (
                    effects::EffectView::CancelTimer { token: v.tokens[id] });
                assert(confirmed_by(v, world, id, n));
            }
            if exists|id: WorkspaceId| #[trigger] confirmed_by(v, world, id, n) {
                let id = choose|id: WorkspaceId| #[trigger] confirmed_by(v, world, id, n);
                assert(confirmed_by(v, world, id, n - 1));
            }
            if exists|id: WorkspaceId| #[trigger] confirmed_by(v, world, id, n - 1) {
                let id = choose|id: WorkspaceId| #[trigger] confirmed_by(v, world, id, n - 1);
                assert(confirmed_by(v, world, id, n));
            }
        }
    }
}

proof fn lemma_confirmed_step(v: state::AppView, world: World, n: int)
    requires
        0 < n <= world.workspaces@.len(),
        confirmed_right(v, world, n - 1),
        ({
            let w = world.workspaces@[n - 1];
            let own = ids::object_number(w.handle);
            &&& w.is_active()
            &&& world.workspace_numbered(own) == Some(n - 1)
            &&& v.confirmed_among(world, n - 1).tokens.contains_key(own)
            &&& forall|id: WorkspaceId|
                #![trigger confirmed_by(v, world, id, n)]
                #![trigger confirmed_by(v, world, id, n - 1)]
                confirmed_by(v, world, id, n) == (confirmed_by(v, world, id, n - 1) || (id == own
                    && v.tokens.contains_key(own)))
        }),
    ensures
        confirmed_right(v, world, n),
{
    let after = v.confirmed_among(world, n);
    let came = terms::added(v.effects, after.effects);
    let before = v.confirmed_among(world, n - 1);
    let earlier = terms::added(v.effects, before.effects);
    let own = ids::object_number(world.workspaces@[n - 1].handle);
    let e = effects::EffectView::CancelTimer { token: before.tokens[own] };
    assert(settled_at(v, before, own, confirmed_by(v, world, own, n - 1)));
    assert(confirmed_by(v, world, own, n));
    assert(after == before.confirmed(own));
    assert(after.effects == before.effects.push(e));
    assert(came =~= earlier.push(e));
    assert(after.effects.take(v.effects.len() as int) =~= v.effects) by {
        assert(before.effects.take(v.effects.len() as int) =~= v.effects);
    }
    assert forall|id: WorkspaceId| #[trigger]
        settled_at(v, after, id, confirmed_by(v, world, id, n)) by {
        assert(settled_at(v, before, id, confirmed_by(v, world, id, n - 1)));
    }
    assert forall|i: int| 0 <= i < came.len() implies is_stop_by(
        v,
        world,
        n,
        #[trigger] came[i],
    ) by {
        if i < earlier.len() {
            assert(is_stop_by(v, world, n - 1, earlier[i]));
            let id = choose|id: WorkspaceId| #[trigger]
                confirmed_by(v, world, id, n - 1) && earlier[i] == (
                effects::EffectView::CancelTimer { token: v.tokens[id] });
            assert(confirmed_by(v, world, id, n));
        } else {
            assert(confirmed_by(v, world, own, n));
        }
    }
    assert forall|id: WorkspaceId| #[trigger] confirmed_by(v, world, id, n) implies came.contains(
        effects::EffectView::CancelTimer { token: v.tokens[id] },
    ) by {
        let c = effects::EffectView::CancelTimer { token: v.tokens[id] };
        if confirmed_by(v, world, id, n - 1) {
            assert(earlier.contains(c));
            let i = choose|i: int| 0 <= i < earlier.len() && earlier[i] == c;
            assert(came[i] == c);
        } else {
            assert(came[earlier.len() as int] == c);
        }
    }
}

proof fn lemma_reached(world: World, id: WorkspaceId)
    ensures
        reached_among(world, id, world.workspaces@.len() as int) == is_reached(world, id),
{
    let ws = world.workspaces@;
    let p = world::has_number(id);
    search::lemma_first_where(ws, p);
    if let Some(w) = world.workspace_numbered(id) {
        if ws[w].is_active() {
            assert forall|k: int| 0 <= k < w implies terms::number((#[trigger] ws[k]).handle) != id by {
                assert(!p(ws[k]));
            }
            assert(terms::number(ws[w].handle) == id);
        }
    }
    if is_reached(world, id) {
        let w = choose|w: int|
            0 <= w < ws.len() && terms::number((#[trigger] ws[w]).handle) == id && terms::shown(
                ws[w],
            ) && forall|k: int| 0 <= k < w ==> terms::number((#[trigger] ws[k]).handle) != id;
        search::lemma_first_where_is(ws, p, w);
    }
}

/// A batch of changes, with no window waiting, stops the timers of exactly the
/// switches that are awaited and reached. If there is one, a switch has worked
/// and all attempts and reports before it no longer count; else nothing of
/// that changes.
pub proof fn law_batch_confirms_switches(v: state::AppView, world: World)
    requires
        v.pending.len() == 0,
    ensures
        ({
            let after = v.batch_done(world).0;
            let came = terms::added(v.effects, after.effects);
            let some = exists|id: WorkspaceId| #[trigger] is_confirmed(v, world, id);
            &&& after.effects == v.effects + came
            &&& forall|i: int| 0 <= i < came.len() ==> is_stop(v, world, #[trigger] came[i])
            &&& forall|id: WorkspaceId| #[trigger]
                is_confirmed(v, world, id) ==> came.contains(
                    effects::EffectView::CancelTimer { token: v.tokens[id] },
                )
            &&& after == (state::AppView {
                effects: after.effects,
                tokens: after.tokens,
                recent: after.recent,
                last_active: after.last_active,
                verifier: verify::VerifierView {
                    pending: after.verifier.pending,
                    attempted: if some {
                        Set::empty()
                    } else {
                        v.verifier.attempted
                    },
                    informed: if some {
                        Set::empty()
                    } else {
                        v.verifier.informed
                    },
                    ever_confirmed: v.verifier.ever_confirmed || some,
                    ..v.verifier
                },
                ..v
            })
        }),
        forall|id: WorkspaceId| #[trigger]
            settled_at(v, v.batch_done(world).0, id, is_confirmed(v, world, id)),
{
    let n = world.workspaces@.len() as int;
    let followed = v.followed(world);
    let confirmed = followed.confirmed_among(world, n);
    let after = v.batch_done(world).0;
    let some = exists|id: WorkspaceId| #[trigger] is_confirmed(v, world, id);
    lemma_confirmed_right(followed, world, n);
    assert forall|id: WorkspaceId|
        #![trigger is_confirmed(v, world, id)]
        #![trigger confirmed_by(followed, world, id, n)]
        confirmed_by(followed, world, id, n) == is_confirmed(v, world, id) by {
        lemma_reached(world, id);
    }
    assert(some == exists|id: WorkspaceId| #[trigger] confirmed_by(followed, world, id, n)) by {
        if some {
            let id = choose|id: WorkspaceId| #[trigger] is_confirmed(v, world, id);
            assert(confirmed_by(followed, world, id, n));
        }
    }
    assert(confirmed.pending =~= Seq::empty());
    assert(after == confirmed);
    let came = terms::added(v.effects, after.effects);
    assert(after.effects =~= v.effects + came) by {
        assert(after.effects.take(v.effects.len() as int) =~= v.effects);
    }
    assert forall|i: int| 0 <= i < came.len() implies is_stop(v, world, #[trigger] came[i]) by {
        assert(is_stop_by(followed, world, n, came[i]));
        let id = choose|id: WorkspaceId| #[trigger]
            confirmed_by(followed, world, id, n) && came[i] == (effects::EffectView::CancelTimer {
                token: followed.tokens[id],
            });
        assert(is_confirmed(v, world, id));
    }
    assert forall|id: WorkspaceId| #[trigger] is_confirmed(v, world, id) implies came.contains(
        effects::EffectView::CancelTimer { token: v.tokens[id] },
    ) by {
        assert(confirmed_by(followed, world, id, n));
    }
    assert forall|id: WorkspaceId| #[trigger]
        settled_at(v, after, id, is_confirmed(v, world, id)) by {
        assert(settled_at(followed, after, id, confirmed_by(followed, world, id, n)));
    }
}

/// The timer of a switch, once started, is held, in place of one held before,
/// which is stopped; the switch is awaited and counts as attempted. If it could
/// not be started, the switch counts as attempted and nothing else changes.
pub proof fn law_timer_is_held(v: state::AppView, id: WorkspaceId, token: u64)
    ensures
        v.timer_registered(id, Some(token)) == (state::AppView {
            effects: v.effects + (if v.tokens.contains_key(id) {
                seq![effects::EffectView::CancelTimer { token: v.tokens[id] }]
            } else {
                Seq::empty()
            }),
            tokens: v.tokens.insert(id, token),
            verifier: verify::VerifierView {
                pending: v.verifier.pending.insert(id, id),
                attempted: v.verifier.attempted.insert(id),
                ..v.verifier
            },
            ..v
        }),
        v.timer_registered(id, None) == (state::AppView {
            verifier: verify::VerifierView {
                attempted: v.verifier.attempted.insert(id),
                ..v.verifier
            },
            ..v
        }),
{
    let held = v.timer_registered(id, Some(token));
    assert(held.effects =~= v.effects + (if v.tokens.contains_key(id) {
        seq![effects::EffectView::CancelTimer { token: v.tokens[id] }]
    } else {
        Seq::empty()
    }));
    assert(held.tokens =~= v.tokens.insert(id, token));
    assert(held.verifier.pending =~= v.verifier.pending.insert(id, id));
}

/// When the timer of a switch runs out, it is no longer held, the switch is no
/// longer awaited, and its workspace was reported; the operator was warned if
/// that was so before, or if no switch ever worked and as many workspaces were
/// tried as the threshold says. Nothing is asked for.
pub proof fn law_timer_runs_out(v: state::AppView, id: WorkspaceId)
    ensures
        v.timer_expired(id) == (state::AppView {
            tokens: v.tokens.remove(id),
            verifier: verify::VerifierView {
                pending: v.verifier.pending.remove(id),
                informed: v.verifier.informed.insert(id),
                warn_fired: v.verifier.warn_fired || (!v.verifier.ever_confirmed
                    && v.verifier.attempted.len() >= v.verifier.threshold),
                ..v.verifier
            },
            ..v
        }),
        ({
            let event = v.verifier.timeout_event(id);
            let informs = !v.verifier.informed.contains(id);
            let warns = !v.verifier.warn_fired && !v.verifier.ever_confirmed
                && v.verifier.attempted.len() >= v.verifier.threshold;
            &&& event.has_info() <==> informs
            &&& event.has_warn() <==> warns
            &&& event is InfoAndWarn <==> informs && warns
            &&& event is InfoOnceForHandle <==> informs && !warns
            &&& event is WarnOnceForProcess <==> !informs && warns
            &&& event is Nothing <==> !informs && !warns
        }),
{
}

/// The first seat that is announced counts until it is gone, and nothing else
/// changes.
pub proof fn law_seats(v: state::AppView, seat: ObjectKey, other: ObjectKey)
    ensures
        ({
            let none = state::AppView { seat: None, ..v };
            let some = state::AppView { seat: Some(seat), ..v };
            &&& none.seat_added(seat) == some
            &&& some.seat_added(other) == some
            &&& some.seat_removed(seat) == none
            &&& other != seat ==> some.seat_removed(other) == some
            &&& none.seat_removed(seat) == none
        }),
{
}

/// A process starts with nothing held, awaited, known or asked for, and warns
/// of switches once three workspaces were tried in vain. A later session
/// starts the same, but a warning that was given stays given.
pub proof fn law_sessions_start_fresh(first: config::ConfigView, later: config::ConfigView, v: state::AppView)
    ensures
        state::AppView::init(first) == (state::AppView {
            config: first,
            handled: Set::empty(),
            verifier: verify::VerifierView {
                pending: Map::empty(),
                attempted: Set::empty(),
                ever_confirmed: false,
                warn_fired: false,
                informed: Set::empty(),
                threshold: 3,
            },
            tokens: Map::empty(),
            warned_output_fallback: false,
            warned_new_each: false,
            warned_not_honored: false,
            seat: None,
            counter: 0,
            pending: Seq::empty(),
            recent: Seq::empty(),
            last_active: Map::empty(),
            effects: Seq::empty(),
        }),
        v.next_session(later) == (state::AppView {
            warned_output_fallback: v.warned_output_fallback,
            warned_new_each: v.warned_new_each,
            warned_not_honored: v.warned_not_honored,
            verifier: verify::VerifierView {
                warn_fired: v.verifier.warn_fired,
                ..state::AppView::init(later).verifier
            },
            ..state::AppView::init(later)
        }),
{
}

} // verus!
