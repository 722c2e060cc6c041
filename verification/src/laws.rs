//! What holds of the daemon as a whole, whatever happens to it.

pub mod deciding;
pub mod following;
pub mod jumping;
pub mod models;
pub mod placing;
pub mod sessions;
pub mod settings;
pub mod switching;
pub mod terms;
pub mod waiting;

use vstd::prelude::*;

use crate::config;
use crate::effects;
use crate::effects::Warning;
use crate::ids;
use crate::ids::{ObjectKey, WorkspaceId};
use crate::jump;
use crate::jump::JumpOutcome;
use crate::mru_jump;
use crate::mru_jump::MRU_CAP;
use crate::placement;
use crate::placement::{PlacementAction, PlacementWarn, PostPlaceActions, SkipReason, WorkspaceTarget};
use crate::runtime;
use crate::runtime::{DeferredResult, PlaceError, PlaceOutcome};
use crate::search;
use crate::state;
use crate::text;
use crate::wayland;
use crate::world;
use crate::world::{Toplevel, WorkspaceGroup, World};

verus! {

// ---------------------------------------------------------------------------
// Requests are committed, and warnings are given once
// ---------------------------------------------------------------------------

/// Every request that needs a commit is followed by one, and every commit
/// follows such a request.
pub open spec fn committed(s: Seq<effects::EffectView>) -> bool {
    &&& forall|i: int|
        0 <= i < s.len() && (#[trigger] s[i]).needs_commit() ==> i + 1 < s.len() && s[i + 1] is Commit
    &&& forall|i: int|
        0 <= i < s.len() && (#[trigger] s[i]) is Commit ==> i > 0 && s[i - 1].needs_commit()
}

/// How often the warning is in `s`.
pub open spec fn warn_count(s: Seq<effects::EffectView>, w: Warning) -> nat
    decreases s.len(),
{
    if s.len() == 0 {
        0
    } else if s.last() == (effects::EffectView::Warn { warning: w }) {
        warn_count(s.drop_last(), w) + 1
    } else {
        warn_count(s.drop_last(), w)
    }
}

/// From one state to another, a warning once given stays given, and it comes
/// exactly when it first counts as given, once.
pub open spec fn warns_with_latch(a: state::AppView, b: state::AppView, w: Warning) -> bool {
    &&& a.warned(w) ==> b.warned(w)
    &&& warn_count(b.effects, w) == warn_count(a.effects, w) + (if b.warned(w) && !a.warned(w) {
        1nat
    } else {
        0nat
    })
}

/// Whether `s` starts no timer.
pub open spec fn timer_free(s: Seq<effects::EffectView>) -> bool {
    forall|i: int| 0 <= i < s.len() ==> !((#[trigger] s[i]) is StartTimer)
}

/// One state follows another: nothing that was to be carried out is taken
/// back, what was committed stays so, a warning comes exactly when it first
/// counts as given, once, and no timer starts where switches are not checked.
pub open spec fn follows(a: state::AppView, b: state::AppView) -> bool {
    &&& a.config == b.config
    &&& a.effects.is_prefix_of(b.effects)
    &&& committed(a.effects) ==> committed(b.effects)
    &&& a.config.switch_verify_timeout is None && timer_free(a.effects) ==> timer_free(b.effects)
    &&& forall|w: Warning| #[trigger] warns_with_latch(a, b, w)
    &&& a.verifier.warn_fired ==> b.verifier.warn_fired
}

/// From one state to another, the timer of the switch to `id` stays held or is
/// stopped.
pub open spec fn timer_kept(a: state::AppView, b: state::AppView, id: WorkspaceId) -> bool {
    a.tokens.contains_key(id) ==> {
        ||| b.tokens.contains_key(id) && b.tokens[id] == a.tokens[id]
        ||| b.effects.contains(effects::EffectView::CancelTimer { token: a.tokens[id] })
    }
}

/// One state follows another without a timer running out.
spec fn steps(a: state::AppView, b: state::AppView) -> bool {
    &&& follows(a, b)
    &&& a.verifier.warn_fired == b.verifier.warn_fired
    &&& forall|id: WorkspaceId| #[trigger] timer_kept(a, b, id)
}

proof fn lemma_steps_transitive(a: state::AppView, b: state::AppView, c: state::AppView)
    requires
        steps(a, b),
        steps(b, c),
    ensures
        steps(a, c),
{
    assert(a.effects.is_prefix_of(c.effects)) by {
        assert(c.effects.take(b.effects.len() as int).take(a.effects.len() as int)
            =~= c.effects.take(a.effects.len() as int));
    }
    assert forall|w: Warning| #[trigger] warns_with_latch(a, c, w) by {
        assert(warns_with_latch(a, b, w));
        assert(warns_with_latch(b, c, w));
    }
    assert forall|id: WorkspaceId| #[trigger] timer_kept(a, c, id) by {
        assert(timer_kept(a, b, id));
        assert(timer_kept(b, c, id));
        lemma_prefix_contains(
            b.effects,
            c.effects,
            effects::EffectView::CancelTimer { token: a.tokens[id] },
        );
    }
}

proof fn lemma_prefix_contains(
    s: Seq<effects::EffectView>,
    t: Seq<effects::EffectView>,
    e: effects::EffectView,
)
    requires
        s.is_prefix_of(t),
    ensures
        s.contains(e) ==> t.contains(e),
{
    if s.contains(e) {
        let i = choose|i: int| 0 <= i < s.len() && s[i] == e;
        assert(t[i] == t.take(s.len() as int)[i]);
    }
}

/// Something to carry out that is neither a commit, nor needs one, nor warns.
pub open spec fn is_plain(e: effects::EffectView) -> bool {
    !e.needs_commit() && !(e is Commit) && !(e is Warn)
}

proof fn lemma_push_plain(s: Seq<effects::EffectView>, e: effects::EffectView)
    requires
        !e.needs_commit(),
        !(e is Commit),
    ensures
        committed(s) ==> committed(s.push(e)),
        s.is_prefix_of(s.push(e)),
{
    if committed(s) {
        let t = s.push(e);
        assert forall|i: int| 0 <= i < t.len() && (#[trigger] t[i]).needs_commit() implies i + 1
            < t.len() && t[i + 1] is Commit by {
            assert(s[i] == t[i]);
        }
        assert forall|i: int| 0 <= i < t.len() && (#[trigger] t[i]) is Commit implies i > 0
            && t[i - 1].needs_commit() by {
            assert(s[i] == t[i]);
        }
    }
    assert(s.push(e).take(s.len() as int) =~= s);
}

proof fn lemma_warn_count_push(s: Seq<effects::EffectView>, e: effects::EffectView, w: Warning)
    ensures
        warn_count(s.push(e), w) == warn_count(s, w) + (if e == (effects::EffectView::Warn {
            warning: w,
        }) {
            1nat
        } else {
            0nat
        }),
{
    assert(s.push(e).drop_last() =~= s);
}

proof fn lemma_emit_plain(v: state::AppView, e: effects::EffectView)
    requires
        is_plain(e),
        e is StartTimer ==> v.config.switch_verify_timeout is Some,
    ensures
        steps(v, v.emit(e)),
{
    lemma_push_plain(v.effects, e);
    assert forall|w: Warning| #[trigger] warns_with_latch(v, v.emit(e), w) by {
        lemma_warn_count_push(v.effects, e, w);
    }
}

proof fn lemma_emit_committed(v: state::AppView, e: effects::EffectView, manager: ObjectKey)
    requires
        e.needs_commit(),
    ensures
        steps(v, v.emit(e).emit(effects::EffectView::Commit { manager })),
{
    let commit = effects::EffectView::Commit { manager };
    let s = v.effects;
    let t = s.push(e).push(commit);
    if committed(s) {
        assert forall|i: int| 0 <= i < t.len() && (#[trigger] t[i]).needs_commit() implies i + 1
            < t.len() && t[i + 1] is Commit by {
            if i < s.len() {
                assert(s[i] == t[i]);
                assert(t[i + 1] == s[i + 1]);
            }
        }
        assert forall|i: int| 0 <= i < t.len() && (#[trigger] t[i]) is Commit implies i > 0
            && t[i - 1].needs_commit() by {
            if i < s.len() {
                assert(s[i] == t[i]);
            }
        }
    }
    assert(t.take(s.len() as int) =~= s);
    let after = v.emit(e).emit(commit);
    assert forall|w: Warning| #[trigger] warns_with_latch(v, after, w) by {
        lemma_warn_count_push(s, e, w);
        lemma_warn_count_push(s.push(e), commit, w);
    }
}

proof fn lemma_warn_once(v: state::AppView, warning: Warning)
    ensures
        steps(v, v.warn_once(warning)),
        v.warn_once(warning).pending == v.pending,
{
    let after = v.warn_once(warning);
    assert(v.effects.is_prefix_of(v.effects)) by {
        assert(v.effects.take(v.effects.len() as int) =~= v.effects);
    }
    if !v.warned(warning) {
        let e = effects::EffectView::Warn { warning };
        lemma_push_plain(v.effects, e);
        assert forall|w: Warning| #[trigger] warns_with_latch(v, after, w) by {
            lemma_warn_count_push(v.effects, e, w);
        }
    }
}

proof fn lemma_steps_same(a: state::AppView, b: state::AppView)
    requires
        a.config == b.config,
        a.effects == b.effects,
        a.warned_output_fallback == b.warned_output_fallback,
        a.warned_new_each == b.warned_new_each,
        a.warned_not_honored == b.warned_not_honored,
        a.tokens == b.tokens,
        a.verifier.warn_fired == b.verifier.warn_fired,
    ensures
        steps(a, b),
{
    assert(a.effects.take(a.effects.len() as int) =~= a.effects);
}

proof fn lemma_timer_stopped(v: state::AppView, id: WorkspaceId)
    ensures
        steps(v, v.timer_stopped(id)),
{
    let after = v.timer_stopped(id);
    if v.tokens.contains_key(id) {
        let e = effects::EffectView::CancelTimer { token: v.tokens[id] };
        lemma_emit_plain(v, e);
        assert(after.effects[v.effects.len() as int] == e);
        assert forall|w: Warning| #[trigger] warns_with_latch(v, after, w) by {
            assert(warns_with_latch(v, v.emit(e), w));
        }
    } else {
        assert(after.tokens =~= v.tokens);
        lemma_steps_same(v, after);
    }
}

proof fn lemma_activated(v: state::AppView, manager: ObjectKey, workspace: ObjectKey)
    ensures
        steps(v, v.activated(manager, workspace)),
{
    let e = effects::EffectView::Activate { workspace };
    let commit = effects::EffectView::Commit { manager };
    let requested = v.emit(e).emit(commit);
    let handle_id = ids::object_number(workspace);
    let mid = requested.timer_stopped(handle_id);
    lemma_emit_committed(v, e, manager);
    lemma_timer_stopped(requested, handle_id);
    lemma_steps_transitive(v, requested, mid);
    match v.config.switch_verify_timeout {
        Some(timeout) => {
            lemma_emit_plain(mid, effects::EffectView::StartTimer { handle_id, timeout });
        },
        None => {
            lemma_steps_same(mid, v.activated(manager, workspace));
        },
    }
    lemma_steps_transitive(v, mid, v.activated(manager, workspace));
}

proof fn lemma_placed(
    v: state::AppView,
    manager: Option<ObjectKey>,
    toplevel: ObjectKey,
    workspace: ObjectKey,
    output: ObjectKey,
    post: PostPlaceActions,
)
    ensures
        steps(v, v.placed(manager, toplevel, workspace, output, post)),
{
    let moved = v.emit(effects::EffectView::MoveToWorkspace { toplevel, workspace, output });
    lemma_emit_plain(v, effects::EffectView::MoveToWorkspace { toplevel, workspace, output });
    let switched = if post.switch_to && manager is Some {
        moved.activated(manager->Some_0, workspace)
    } else {
        moved
    };
    if post.switch_to && manager is Some {
        lemma_activated(moved, manager->Some_0, workspace);
        lemma_steps_transitive(v, moved, switched);
    }
    if post.maximize {
        lemma_emit_plain(switched, effects::EffectView::SetMaximized { toplevel });
        lemma_steps_transitive(
            v,
            switched,
            switched.emit(effects::EffectView::SetMaximized { toplevel }),
        );
    }
}

proof fn lemma_warn_all(v: state::AppView, warns: Seq<PlacementWarn>)
    ensures
        steps(v, v.warn_all(warns)),
        v.warn_all(warns) == (state::AppView {
            effects: v.warn_all(warns).effects,
            warned_output_fallback: v.warn_all(warns).warned_output_fallback,
            warned_new_each: v.warn_all(warns).warned_new_each,
            ..v
        }),
    decreases warns.len(),
{
    if warns.len() == 0 {
        lemma_steps_same(v, v);
    } else {
        let before = v.warn_all(warns.drop_last());
        lemma_warn_all(v, warns.drop_last());
        lemma_warn_once(before, runtime::warning_for(warns.last()));
        lemma_steps_transitive(v, before, v.warn_all(warns));
    }
}

proof fn lemma_executed(
    v: state::AppView,
    world: World,
    t: Toplevel,
    target: WorkspaceTarget,
    group: WorkspaceGroup,
    post: PostPlaceActions,
)
    ensures
        steps(v, v.executed(world, t, target, group, post).0),
{
    let after = v.executed(world, t, target, group, post).0;
    lemma_steps_same(v, v);
    if t.cosmic_handle is Some && t.outputs@.len() > 0 {
        let toplevel = t.cosmic_handle->Some_0;
        let output = t.outputs@[0];
        match target {
            WorkspaceTarget::Existing(ws_id) => {
                if let Some(i) = world.workspace_numbered(ws_id) {
                    let workspace = world.workspaces@[i].handle;
                    lemma_emit_plain(
                        v,
                        effects::EffectView::MoveToWorkspace { toplevel, workspace, output },
                    );
                    lemma_placed(v, world.manager, toplevel, workspace, output, post);
                }
            },
            WorkspaceTarget::Create => {
                if let Some(manager) = world.manager {
                    let e = effects::EffectView::CreateWorkspace {
                        group: group.handle,
                        name: runtime::workspace_name(t.app_id@, v.counter),
                    };
                    let mid = v.emit(e).emit(effects::EffectView::Commit { manager });
                    lemma_emit_committed(v, e, manager);
                    lemma_steps_same(mid, after);
                    lemma_steps_transitive(v, mid, after);
                } else {
                    lemma_steps_same(v, after);
                }
            },
        }
    }
}

proof fn lemma_received(v: state::AppView, world: World, t: Toplevel, title_excluded: bool)
    ensures
        steps(v, v.received(world, t, title_excluded).0),
{
    let d = placement::decision(
        v.config,
        runtime::configured_output(v.config, world),
        title_excluded,
        runtime::info_view(t),
        runtime::group_views(world),
        runtime::number_set(v.handled),
        ids::object_number(t.handle),
    );
    let warned = v.warn_all(d.warns);
    lemma_warn_all(v, d.warns);
    if let PlacementAction::Place { workspace, then } = d.action {
        let group = world.groups@[d.group->Some_0];
        lemma_executed(warned, world, t, workspace, group, then);
        lemma_steps_transitive(v, warned, warned.executed(world, t, workspace, group, then).0);
    }
}

proof fn lemma_resolved(v: state::AppView, world: World, p: runtime::PendingView)
    ensures
        steps(v, v.resolved(world, p).0),
{
    lemma_steps_same(v, v);
    if let Some(g) = search::first_where(world.groups@, runtime::is_group(p.group_handle)) {
        let keys = world::handles(world.members(world.groups@[g]));
        match runtime::first_new(p.before, keys) {
            Some(i) => {
                lemma_placed(v, world.manager, p.cosmic_toplevel, keys[i], p.output, p.post_place);
            },
            None => {
                let warned = v.warn_once(Warning::CreateWorkspaceNotHonored);
                lemma_warn_once(v, Warning::CreateWorkspaceNotHonored);
                if let Some(i) = runtime::first_free(runtime::occupancy(world, keys)) {
                    lemma_placed(
                        warned,
                        world.manager,
                        p.cosmic_toplevel,
                        keys[i],
                        p.output,
                        p.post_place,
                    );
                    lemma_steps_transitive(v, warned, v.resolved(world, p).0);
                }
            },
        }
    }
}

proof fn lemma_drained(v: state::AppView, world: World, queue: Seq<runtime::PendingView>)
    ensures
        steps(v, v.drained(world, queue).0),
    decreases queue.len(),
{
    if queue.len() == 0 {
        lemma_steps_same(v, v);
    } else {
        let mid = v.resolved(world, queue[0]).0;
        lemma_resolved(v, world, queue[0]);
        lemma_drained(mid, world, runtime::swap_removed(queue));
        lemma_steps_transitive(v, mid, v.drained(world, queue).0);
    }
}

proof fn lemma_confirmed_among(v: state::AppView, world: World, n: int)
    ensures
        steps(v, v.confirmed_among(world, n)),
    decreases n,
{
    if n <= 0 {
        lemma_steps_same(v, v);
    } else {
        let before = v.confirmed_among(world, n - 1);
        lemma_confirmed_among(v, world, n - 1);
        let id = ids::object_number(world.workspaces@[n - 1].handle);
        let e = effects::EffectView::CancelTimer { token: before.tokens[id] };
        let after = before.confirmed(id);
        lemma_emit_plain(before, e);
        assert(after.effects[before.effects.len() as int] == e);
        assert forall|w: Warning| #[trigger] warns_with_latch(before, after, w) by {
            assert(warns_with_latch(before, before.emit(e), w));
        }
        assert(steps(before, after));
        lemma_steps_transitive(v, before, after);
    }
}

proof fn lemma_answered_close(v: state::AppView, world: World, closed: ObjectKey)
    ensures
        steps(v, v.answered_close(world, closed).0),
{
    lemma_steps_same(v, v);
    if let Some(t) = search::first_where(world.toplevels@, jump::is_listed_as(closed)) {
        let outcome = jump::trigger_view(
            world,
            world.toplevels@[t].workspaces@,
            closed,
            v.recent,
        ).outcome();
        if let mru_jump::TriggerOutcome::Jump { target, .. } = outcome {
            if let Some(i) = world.workspace_numbered(target) {
                if let Some(manager) = world.manager {
                    lemma_activated(v, manager, world.workspaces@[i].handle);
                }
            }
        }
    }
}

// ---------------------------------------------------------------------------
// Anything that can happen
// ---------------------------------------------------------------------------

/// One thing that happens to the daemon.
pub ghost enum Event {
    /// A window appeared.
    Appeared { world: World, handle: ObjectKey },
    /// A window closed.
    Closed { world: World, handle: ObjectKey },
    /// A batch of changes to the workspaces was announced.
    Batch { world: World },
    /// The timer of a switch was started, or could not be.
    TimerRegistered { handle_id: WorkspaceId, token: Option<u64> },
    /// The timer of a switch ran out.
    TimerExpired { handle_id: WorkspaceId },
    /// A seat was announced.
    SeatAdded { seat: ObjectKey },
    /// A seat is gone.
    SeatRemoved { seat: ObjectKey },
}

impl state::AppView {
    /// The state once something happened.
    pub open spec fn after(self, event: Event) -> state::AppView {
        match event {
            Event::Appeared { world, handle } => self.appeared(world, handle).0,
            Event::Closed { world, handle } => self.closed(world, handle).0,
            Event::Batch { world } => self.batch_done(world).0,
            Event::TimerRegistered { handle_id, token } => self.timer_registered(handle_id, token),
            Event::TimerExpired { handle_id } => self.timer_expired(handle_id),
            Event::SeatAdded { seat } => self.seat_added(seat),
            Event::SeatRemoved { seat } => self.seat_removed(seat),
        }
    }

    /// The state once what was asked for is carried out.
    pub open spec fn sent_off(self) -> state::AppView {
        state::AppView { effects: Seq::empty(), ..self }
    }

    /// The state once all of `events` happened, in order, and what was asked
    /// for after each was carried out before the next.
    pub open spec fn after_all(self, events: Seq<Event>) -> state::AppView
        decreases events.len(),
    {
        if events.len() == 0 {
            self
        } else {
            self.after_all(events.drop_last()).sent_off().after(events.last())
        }
    }

    /// All that was asked for meanwhile, in order.
    pub open spec fn sent(self, events: Seq<Event>) -> Seq<effects::EffectView>
        decreases events.len(),
    {
        if events.len() == 0 {
            Seq::empty()
        } else {
            self.sent(events.drop_last()) + self.after_all(events).effects
        }
    }
}

proof fn lemma_event(v: state::AppView, event: Event)
    requires
        !(event is TimerExpired),
    ensures
        steps(v, v.after(event)),
{
    let after = v.after(event);
    match event {
        Event::Appeared { world, handle } => {
            lemma_steps_same(v, v);
            if let Some(i) = search::first_where(world.toplevels@, jump::is_listed_as(handle)) {
                let t = world.toplevels@[i];
                let excluded = placement::title_excluded(v.config, t.title@);
                let mid = v.received(world, t, excluded).0;
                lemma_received(v, world, t, excluded);
                lemma_steps_same(mid, after);
                lemma_steps_transitive(v, mid, after);
            }
        },
        Event::Closed { world, handle } => {
            let mid = v.forgotten(handle);
            lemma_steps_same(v, mid);
            lemma_answered_close(mid, world, handle);
            if v.config.jump_on_empty {
                lemma_steps_transitive(v, mid, after);
            }
        },
        Event::Batch { world } => {
            let followed = v.followed(world);
            let confirmed = followed.confirmed_among(world, world.workspaces@.len() as int);
            let emptied = state::AppView { pending: Seq::empty(), ..confirmed };
            lemma_steps_same(v, followed);
            lemma_confirmed_among(followed, world, world.workspaces@.len() as int);
            lemma_steps_same(confirmed, emptied);
            lemma_drained(emptied, world, confirmed.pending);
            lemma_steps_transitive(v, followed, confirmed);
            lemma_steps_transitive(v, confirmed, emptied);
            lemma_steps_transitive(v, emptied, after);
        },
        Event::TimerRegistered { handle_id, token } => {
            if token is Some {
                let mid = v.timer_stopped(handle_id);
                lemma_timer_stopped(v, handle_id);
                assert forall|w: Warning| #[trigger] warns_with_latch(v, after, w) by {
                    assert(warns_with_latch(v, mid, w));
                }
                assert forall|id: WorkspaceId| #[trigger] timer_kept(v, after, id) by {
                    assert(timer_kept(v, mid, id));
                }
            } else {
                lemma_steps_same(v, after);
            }
        },
        _ => {
            lemma_steps_same(v, after);
        },
    }
}

/// Whatever happens, the configuration stays, no request is taken back, every
/// request that needs a commit is followed by one and every commit follows
/// such a request, and a warning comes exactly when it first counts as given.
pub proof fn law_every_event_follows(v: state::AppView, event: Event)
    ensures
        follows(v, v.after(event)),
{
    if event is TimerExpired {
        assert(v.effects.take(v.effects.len() as int) =~= v.effects);
    } else {
        lemma_event(v, event);
    }
}

/// A timer that runs is not lost sight of: until it runs out it stays held, or
/// it is stopped.
pub proof fn law_no_timer_is_lost(v: state::AppView, event: Event, id: WorkspaceId)
    requires
        v.tokens.contains_key(id),
        event != (Event::TimerExpired { handle_id: id }),
    ensures
        ({
            let after = v.sent_off().after(event);
            ||| after.tokens.contains_key(id) && after.tokens[id] == v.tokens[id]
            ||| after.effects.contains(effects::EffectView::CancelTimer { token: v.tokens[id] })
        }),
{
    if !(event is TimerExpired) {
        lemma_event(v.sent_off(), event);
        assert(timer_kept(v.sent_off(), v.sent_off().after(event), id));
    }
}

proof fn lemma_committed_concat(a: Seq<effects::EffectView>, b: Seq<effects::EffectView>)
    requires
        committed(a),
        committed(b),
    ensures
        committed(a + b),
{
    let t = a + b;
    assert forall|i: int| 0 <= i < t.len() && (#[trigger] t[i]).needs_commit() implies i + 1 < t.len()
        && t[i + 1] is Commit by {
        if i < a.len() {
            assert(a[i] == t[i]);
            assert(a[i + 1] == t[i + 1]);
        } else {
            assert(b[i - a.len()] == t[i]);
            assert(b[i - a.len() + 1] == t[i + 1]);
        }
    }
    assert forall|i: int| 0 <= i < t.len() && (#[trigger] t[i]) is Commit implies i > 0
        && t[i - 1].needs_commit() by {
        if i < a.len() {
            assert(a[i] == t[i]);
        } else {
            assert(b[i - a.len()] == t[i]);
            assert(b[i - a.len() - 1] == t[i - 1]);
        }
    }
}

proof fn lemma_warn_count_concat(
    a: Seq<effects::EffectView>,
    b: Seq<effects::EffectView>,
    w: Warning,
)
    ensures
        warn_count(a + b, w) == warn_count(a, w) + warn_count(b, w),
    decreases b.len(),
{
    if b.len() == 0 {
        assert(a + b =~= a);
    } else {
        assert((a + b).drop_last() =~= a + b.drop_last());
        lemma_warn_count_concat(a, b.drop_last(), w);
    }
}

proof fn lemma_sent(v: state::AppView, events: Seq<Event>, w: Warning)
    ensures
        v.after_all(events).config == v.config,
        committed(v.sent(events)),
        v.config.switch_verify_timeout is None ==> timer_free(v.sent(events)),
        v.warned(w) ==> v.after_all(events).warned(w),
        warn_count(v.sent(events), w) == (if v.after_all(events).warned(w) && !v.warned(w) {
            1nat
        } else {
            0nat
        }),
    decreases events.len(),
{
    if events.len() > 0 {
        let before = v.after_all(events.drop_last());
        let after = v.after_all(events);
        lemma_sent(v, events.drop_last(), w);
        law_every_event_follows(before.sent_off(), events.last());
        assert(warns_with_latch(before.sent_off(), after, w));
        lemma_committed_concat(v.sent(events.drop_last()), after.effects);
        lemma_warn_count_concat(v.sent(events.drop_last()), after.effects, w);
        if v.config.switch_verify_timeout is None {
            let first = v.sent(events.drop_last());
            assert forall|i: int| 0 <= i < v.sent(events).len() implies !((#[trigger] v.sent(
                events,
            )[i]) is StartTimer) by {
                if i < first.len() {
                    assert(first[i] == v.sent(events)[i]);
                } else {
                    assert(after.effects[i - first.len()] == v.sent(events)[i]);
                }
            }
        }
    }
}

// ---------------------------------------------------------------------------
// One session after another
// ---------------------------------------------------------------------------

/// The state at the start of the session after `sessions`, each of them given
/// by what happened in it.
pub open spec fn session_start(
    config: config::ConfigView,
    sessions: Seq<Seq<Event>>,
) -> state::AppView
    decreases sessions.len(),
{
    if sessions.len() == 0 {
        state::AppView::init(config)
    } else {
        session_start(config, sessions.drop_last()).after_all(sessions.last()).next_session(config)
    }
}

/// All that was asked for in `sessions`, in order.
pub open spec fn process_sent(
    config: config::ConfigView,
    sessions: Seq<Seq<Event>>,
) -> Seq<effects::EffectView>
    decreases sessions.len(),
{
    if sessions.len() == 0 {
        Seq::empty()
    } else {
        process_sent(config, sessions.drop_last()) + session_start(
            config,
            sessions.drop_last(),
        ).sent(sessions.last())
    }
}

proof fn lemma_process(config: config::ConfigView, sessions: Seq<Seq<Event>>, w: Warning)
    ensures
        session_start(config, sessions).config == config,
        committed(process_sent(config, sessions)),
        config.switch_verify_timeout is None ==> timer_free(process_sent(config, sessions)),
        warn_count(process_sent(config, sessions), w) == (if session_start(
            config,
            sessions,
        ).warned(w) {
            1nat
        } else {
            0nat
        }),
    decreases sessions.len(),
{
    if sessions.len() > 0 {
        let start = session_start(config, sessions.drop_last());
        let first = process_sent(config, sessions.drop_last());
        let rest = start.sent(sessions.last());
        lemma_process(config, sessions.drop_last(), w);
        lemma_sent(start, sessions.last(), w);
        lemma_committed_concat(first, rest);
        lemma_warn_count_concat(first, rest, w);
        if config.switch_verify_timeout is None {
            assert forall|i: int| 0 <= i < (first + rest).len() implies !((#[trigger] (first
                + rest)[i]) is StartTimer) by {
                if i < first.len() {
                    assert(first[i] == (first + rest)[i]);
                } else {
                    assert(rest[i - first.len()] == (first + rest)[i]);
                }
            }
        }
    }
}

/// Whatever happens, in however many sessions, every request to switch to or
/// to make a workspace is followed at once by a commit, and nothing else is
/// committed.
pub proof fn law_requests_are_committed(config: config::ConfigView, sessions: Seq<Seq<Event>>)
    ensures
        committed(process_sent(config, sessions)),
{
    lemma_process(config, sessions, Warning::NewEachUnsupported);
}

/// Where switches are not checked, no timer is ever started.
pub proof fn law_no_timers_when_disabled(config: config::ConfigView, sessions: Seq<Seq<Event>>)
    requires
        config.switch_verify_timeout is None,
    ensures
        timer_free(process_sent(config, sessions)),
{
    lemma_process(config, sessions, Warning::NewEachUnsupported);
}

/// Whatever happens, in however many sessions of one process, each warning is
/// given at most once, and a session starts with it counted as given exactly
/// if it was.
pub proof fn law_each_warning_at_most_once(
    config: config::ConfigView,
    sessions: Seq<Seq<Event>>,
    warning: Warning,
)
    ensures
        warn_count(process_sent(config, sessions), warning) <= 1,
        session_start(config, sessions).warned(warning) <==> warn_count(
            process_sent(config, sessions),
            warning,
        ) == 1,
{
    lemma_process(config, sessions, warning);
}

impl state::AppView {
    /// Whether the warning that the compositor honors no switch is given when
    /// `event` happens.
    pub open spec fn warns_of_switches(self, event: Event) -> bool {
        event matches Event::TimerExpired { handle_id } && self.verifier.timeout_event(
            handle_id,
        ).has_warn()
    }

    /// How often that warning is given when all of `events` happen, in order.
    pub open spec fn switch_warnings(self, events: Seq<Event>) -> nat
        decreases events.len(),
    {
        if events.len() == 0 {
            0
        } else {
            self.switch_warnings(events.drop_last()) + (if self.after_all(
                events.drop_last(),
            ).warns_of_switches(events.last()) {
                1nat
            } else {
                0nat
            })
        }
    }
}

/// How often the warning that the compositor honors no switch is given in
/// `sessions`.
pub open spec fn process_switch_warnings(
    config: config::ConfigView,
    sessions: Seq<Seq<Event>>,
) -> nat
    decreases sessions.len(),
{
    if sessions.len() == 0 {
        0
    } else {
        process_switch_warnings(config, sessions.drop_last()) + session_start(
            config,
            sessions.drop_last(),
        ).switch_warnings(sessions.last())
    }
}

proof fn lemma_switch_warnings(v: state::AppView, events: Seq<Event>)
    ensures
        v.verifier.warn_fired ==> v.after_all(events).verifier.warn_fired,
        v.switch_warnings(events) == (if v.after_all(events).verifier.warn_fired
            && !v.verifier.warn_fired {
            1nat
        } else {
            0nat
        }),
    decreases events.len(),
{
    if events.len() > 0 {
        let before = v.after_all(events.drop_last());
        lemma_switch_warnings(v, events.drop_last());
        if !(events.last() is TimerExpired) {
            lemma_event(before.sent_off(), events.last());
        }
    }
}

proof fn lemma_process_switch_warnings(config: config::ConfigView, sessions: Seq<Seq<Event>>)
    ensures
        process_switch_warnings(config, sessions) == (if session_start(
            config,
            sessions,
        ).verifier.warn_fired {
            1nat
        } else {
            0nat
        }),
    decreases sessions.len(),
{
    if sessions.len() > 0 {
        lemma_process_switch_warnings(config, sessions.drop_last());
        lemma_switch_warnings(session_start(config, sessions.drop_last()), sessions.last());
    }
}

/// Whatever happens, in however many sessions of one process, the warning that
/// the compositor honors no switch is given at most once.
pub proof fn law_switch_warning_at_most_once(
    config: config::ConfigView,
    sessions: Seq<Seq<Event>>,
)
    ensures
        process_switch_warnings(config, sessions) <= 1,
{
    lemma_process_switch_warnings(config, sessions);
}

// ---------------------------------------------------------------------------
// What always holds of the state
// ---------------------------------------------------------------------------

/// Whether a switch to the workspace with the number `id` was requested.
pub open spec fn switched_to(s: Seq<effects::EffectView>, id: WorkspaceId) -> bool {
    exists|i: int|
        0 <= i < s.len() && (#[trigger] s[i] matches effects::EffectView::Activate { workspace }
            && ids::object_number(workspace) == id)
}

/// From one state to another, no timer is added for `id`, and one that is
/// given up makes way for a new switch.
pub open spec fn timer_settles(a: state::AppView, b: state::AppView, id: WorkspaceId) -> bool {
    &&& b.tokens.contains_key(id) ==> a.tokens.contains_key(id) && a.tokens[id] == b.tokens[id]
    &&& a.tokens.contains_key(id) && !b.tokens.contains_key(id) ==> switched_to(b.effects, id)
}

impl state::AppView {
    /// What always holds: every window that waits has yet to be looked at,
    /// recent workspaces are distinct and few, and a timer is held for exactly
    /// the workspaces that the verifier counts as pending.
    pub open spec fn inv(self) -> bool {
        &&& forall|i: int| 0 <= i < self.pending.len() ==> (#[trigger] self.pending[i]).cycles_waited == 0
        &&& self.recent.no_duplicates()
        &&& self.recent.len() <= MRU_CAP
        &&& self.tokens.dom() == self.verifier.pending.dom()
    }

    /// Whether `other` comes after this state, with the same windows waiting
    /// and dealt with and the same recent workspaces, and with no timers but
    /// those that were held.
    pub open spec fn carries_on(self, other: state::AppView) -> bool {
        &&& self.pending == other.pending
        &&& self.recent == other.recent
        &&& self.last_active == other.last_active
        &&& self.handled == other.handled
        &&& self.config == other.config
        &&& self.effects.is_prefix_of(other.effects)
        &&& self.tokens.dom() == self.verifier.pending.dom() ==> other.tokens.dom()
            == other.verifier.pending.dom()
        &&& forall|id: WorkspaceId| #[trigger] timer_settles(self, other, id)
    }
}

proof fn lemma_carries_on_transitive(a: state::AppView, b: state::AppView, c: state::AppView)
    requires
        a.carries_on(b),
        b.carries_on(c),
    ensures
        a.carries_on(c),
{
    assert(c.effects.take(b.effects.len() as int).take(a.effects.len() as int) =~= c.effects.take(
        a.effects.len() as int,
    ));
    assert forall|id: WorkspaceId| #[trigger] timer_settles(a, c, id) by {
        assert(timer_settles(a, b, id));
        assert(timer_settles(b, c, id));
        if switched_to(b.effects, id) {
            let i = choose|i: int|
                0 <= i < b.effects.len() && (#[trigger] b.effects[i] matches
                    effects::EffectView::Activate { workspace } && ids::object_number(workspace)
                    == id);
            assert(c.effects[i] == c.effects.take(b.effects.len() as int)[i]);
            assert(switched_to(c.effects, id));
        }
    }
}

/// Nothing but requests and warnings came.
proof fn lemma_carries_on_same(a: state::AppView, b: state::AppView)
    requires
        a.pending == b.pending,
        a.recent == b.recent,
        a.last_active == b.last_active,
        a.handled == b.handled,
        a.config == b.config,
        a.tokens == b.tokens,
        a.verifier.pending == b.verifier.pending,
        a.effects.is_prefix_of(b.effects),
    ensures
        a.carries_on(b),
{
}

proof fn lemma_activated_carries_on(v: state::AppView, manager: ObjectKey, workspace: ObjectKey)
    ensures
        v.carries_on(v.activated(manager, workspace)),
{
    let after = v.activated(manager, workspace);
    let handle_id = ids::object_number(workspace);
    lemma_activated(v, manager, workspace);
    assert(after.effects[v.effects.len() as int] == (effects::EffectView::Activate { workspace }));
    assert(switched_to(after.effects, handle_id));
    assert(after.tokens == v.tokens.remove(handle_id));
    assert(after.verifier.pending == v.verifier.pending.remove(handle_id));
    if v.tokens.dom() == v.verifier.pending.dom() {
        assert(after.tokens.dom() =~= after.verifier.pending.dom());
    }
    assert forall|id: WorkspaceId| #[trigger] timer_settles(v, after, id) by {}
}

proof fn lemma_placed_carries_on(
    v: state::AppView,
    manager: Option<ObjectKey>,
    toplevel: ObjectKey,
    workspace: ObjectKey,
    output: ObjectKey,
    post: PostPlaceActions,
)
    ensures
        v.carries_on(v.placed(manager, toplevel, workspace, output, post)),
{
    let moved = v.emit(effects::EffectView::MoveToWorkspace { toplevel, workspace, output });
    lemma_emit_plain(v, effects::EffectView::MoveToWorkspace { toplevel, workspace, output });
    lemma_carries_on_same(v, moved);
    let switched = if post.switch_to && manager is Some {
        moved.activated(manager->Some_0, workspace)
    } else {
        moved
    };
    if post.switch_to && manager is Some {
        lemma_activated_carries_on(moved, manager->Some_0, workspace);
        lemma_carries_on_transitive(v, moved, switched);
    }
    if post.maximize {
        let e = effects::EffectView::SetMaximized { toplevel };
        lemma_emit_plain(switched, e);
        lemma_carries_on_same(switched, switched.emit(e));
        lemma_carries_on_transitive(v, switched, switched.emit(e));
    }
}

proof fn lemma_resolved_carries_on(v: state::AppView, world: World, p: runtime::PendingView)
    ensures
        v.carries_on(v.resolved(world, p).0),
{
    let warned = v.warn_once(Warning::CreateWorkspaceNotHonored);
    lemma_steps_same(v, v);
    lemma_carries_on_same(v, v);
    lemma_warn_once(v, Warning::CreateWorkspaceNotHonored);
    lemma_carries_on_same(v, warned);
    if let Some(g) = search::first_where(world.groups@, runtime::is_group(p.group_handle)) {
        let keys = world::handles(world.members(world.groups@[g]));
        if let Some(i) = runtime::first_new(p.before, keys) {
            lemma_placed_carries_on(
                v,
                world.manager,
                p.cosmic_toplevel,
                keys[i],
                p.output,
                p.post_place,
            );
        } else if let Some(i) = runtime::first_free(runtime::occupancy(world, keys)) {
            lemma_placed_carries_on(
                warned,
                world.manager,
                p.cosmic_toplevel,
                keys[i],
                p.output,
                p.post_place,
            );
            lemma_carries_on_transitive(v, warned, v.resolved(world, p).0);
        }
    }
}

proof fn lemma_drained_carries_on(
    v: state::AppView,
    world: World,
    queue: Seq<runtime::PendingView>,
)
    ensures
        v.carries_on(v.drained(world, queue).0),
        v.drained(world, queue).1.len() == queue.len(),
    decreases queue.len(),
{
    if queue.len() > 0 {
        let mid = v.resolved(world, queue[0]).0;
        lemma_resolved_carries_on(v, world, queue[0]);
        lemma_drained_carries_on(mid, world, runtime::swap_removed(queue));
        lemma_carries_on_transitive(v, mid, v.drained(world, queue).0);
    } else {
        lemma_steps_same(v, v);
        lemma_carries_on_same(v, v);
    }
}

proof fn lemma_answered_close_carries_on(v: state::AppView, world: World, closed: ObjectKey)
    ensures
        v.carries_on(v.answered_close(world, closed).0),
{
    lemma_steps_same(v, v);
    lemma_carries_on_same(v, v);
    if let Some(t) = search::first_where(world.toplevels@, jump::is_listed_as(closed)) {
        let outcome = jump::trigger_view(
            world,
            world.toplevels@[t].workspaces@,
            closed,
            v.recent,
        ).outcome();
        if let mru_jump::TriggerOutcome::Jump { target, .. } = outcome {
            if let Some(i) = world.workspace_numbered(target) {
                if let Some(manager) = world.manager {
                    lemma_activated_carries_on(v, manager, world.workspaces@[i].handle);
                }
            }
        }
    }
}

/// Whether the switch to `id` is confirmed by the first `n` workspaces of the
/// snapshot.
pub open spec fn active_among(world: World, id: WorkspaceId, n: int) -> bool {
    exists|i: int|
        0 <= i < n && world.workspace_numbered(id) == Some(i) && (
        #[trigger] world.workspaces@[i]).is_active()
}

proof fn lemma_confirmed_among_tokens(v: state::AppView, world: World, n: int)
    requires
        0 <= n <= world.workspaces@.len(),
        v.tokens.dom() == v.verifier.pending.dom(),
    ensures
        ({
            let after = v.confirmed_among(world, n);
            &&& after.tokens.dom() == after.verifier.pending.dom()
            &&& after.pending == v.pending
            &&& after.recent == v.recent
            &&& after.last_active == v.last_active
            &&& after.config == v.config
            &&& forall|id: WorkspaceId| #[trigger]
                after.tokens.contains_key(id) <==> v.tokens.contains_key(id) && !active_among(
                    world,
                    id,
                    n,
                )
        }),
    decreases n,
{
    let after = v.confirmed_among(world, n);
    if n > 0 {
        let before = v.confirmed_among(world, n - 1);
        lemma_confirmed_among_tokens(v, world, n - 1);
        let w = world.workspaces@[n - 1];
        let this = ids::object_number(w.handle);
        assert(after.tokens.dom() =~= after.verifier.pending.dom());
        assert forall|id: WorkspaceId| #[trigger]
            after.tokens.contains_key(id) <==> v.tokens.contains_key(id) && !active_among(
                world,
                id,
                n,
            ) by {
            search::lemma_first_where(world.workspaces@, world::has_number(id));
            assert(before.tokens.contains_key(id) <==> v.tokens.contains_key(id) && !active_among(
                world,
                id,
                n - 1,
            ));
            if active_among(world, id, n - 1) {
                let i = choose|i: int|
                    0 <= i < n - 1 && world.workspace_numbered(id) == Some(i) && (
                    #[trigger] world.workspaces@[i]).is_active();
                assert(world.workspaces@[i].is_active());
                assert(active_among(world, id, n));
            }
            if active_among(world, id, n) {
                let i = choose|i: int|
                    0 <= i < n && world.workspace_numbered(id) == Some(i) && (
                    #[trigger] world.workspaces@[i]).is_active();
                if i == n - 1 {
                    assert(id == this);
                } else {
                    assert(active_among(world, id, n - 1));
                }
            }
            if id == this && w.is_active() && world.workspace_numbered(id) == Some(n - 1) {
                assert(world.workspaces@[n - 1].is_active());
                assert(active_among(world, id, n));
            }
        }
    }
}

/// At the start of any session what should always hold does.
pub proof fn law_invariant_at_start(config: config::ConfigView, sessions: Seq<Seq<Event>>)
    ensures
        session_start(config, sessions).inv(),
{
    let v = session_start(config, sessions);
    assert(v.tokens.dom() =~= v.verifier.pending.dom());
}

/// Whatever happens, what should always hold goes on holding.
pub proof fn law_invariant_is_kept(v: state::AppView, event: Event)
    requires
        v.inv(),
    ensures
        v.after(event).inv(),
{
    let after = v.after(event);
    match event {
        Event::Appeared { world, handle } => {
            if let Some(i) = search::first_where(world.toplevels@, jump::is_listed_as(handle)) {
                let t = world.toplevels@[i];
                lemma_received_inv(v, world, t, placement::title_excluded(v.config, t.title@));
            }
        },
        Event::Closed { world, handle } => {
            let mid = v.forgotten(handle);
            search::lemma_all_where(v.pending, wayland::toplevel::is_not_for(handle));
            assert forall|i: int| 0 <= i < mid.pending.len() implies (
            #[trigger] mid.pending[i]).cycles_waited == 0 by {
                assert(v.pending.contains(mid.pending[i]));
            }
            lemma_answered_close_carries_on(mid, world, handle);
        },
        Event::Batch { world } => {
            let n = world.workspaces@.len() as int;
            let followed = v.followed(world);
            let confirmed = followed.confirmed_among(world, n);
            if v.config.jump_on_empty {
                mru_jump::law_recorded_all(
                    v.recent,
                    mru_jump::transitions(
                        v.last_active,
                        mru_jump::active_pairs(world.groups@, world.workspaces@),
                    ).1,
                    MRU_CAP as nat,
                );
            }
            lemma_confirmed_among_tokens(followed, world, n);
            lemma_drained_carries_on(
                state::AppView { pending: Seq::empty(), ..confirmed },
                world,
                confirmed.pending,
            );
        },
        Event::TimerRegistered { handle_id, token } => {
            assert(after.tokens.dom() =~= after.verifier.pending.dom());
        },
        Event::TimerExpired { handle_id } => {
            assert(after.tokens.dom() =~= after.verifier.pending.dom());
        },
        _ => {},
    }
}

/// Whatever happens in a session, the first or a later one, what should always
/// hold does.
pub proof fn law_invariant_in_session(
    config: config::ConfigView,
    sessions: Seq<Seq<Event>>,
    events: Seq<Event>,
)
    ensures
        session_start(config, sessions).after_all(events).inv(),
    decreases events.len(),
{
    if events.len() == 0 {
        law_invariant_at_start(config, sessions);
    } else {
        law_invariant_in_session(config, sessions, events.drop_last());
        law_invariant_is_kept(
            session_start(config, sessions).after_all(events.drop_last()).sent_off(),
            events.last(),
        );
    }
}

proof fn lemma_received_inv(v: state::AppView, world: World, t: Toplevel, title_excluded: bool)
    requires
        v.inv(),
    ensures
        v.received(world, t, title_excluded).0.inv(),
        v.received(world, t, title_excluded).0.handled == v.handled,
{
    let d = placement::decision(
        v.config,
        runtime::configured_output(v.config, world),
        title_excluded,
        runtime::info_view(t),
        runtime::group_views(world),
        runtime::number_set(v.handled),
        ids::object_number(t.handle),
    );
    let warned = v.warn_all(d.warns);
    lemma_warn_all(v, d.warns);
    if let PlacementAction::Place { workspace, then } = d.action {
        let (after, r) = warned.executed(
            world,
            t,
            workspace,
            world.groups@[d.group->Some_0],
            then,
        );
        if r == Ok::<_, PlaceError>(PlaceOutcome::Queued) {
            assert forall|i: int| 0 <= i < after.pending.len() implies (
            #[trigger] after.pending[i]).cycles_waited == 0 by {
                if i < v.pending.len() {
                    assert(after.pending[i] == v.pending[i]);
                }
            }
        } else if let Ok(PlaceOutcome::Placed { workspace }) = r {
            lemma_placed_carries_on(
                warned,
                world.manager,
                t.cosmic_handle->Some_0,
                workspace,
                t.outputs@[0],
                then,
            );
        }
    }
}

// ---------------------------------------------------------------------------
// Windows
// ---------------------------------------------------------------------------

/// Once a batch of changes was dealt with, no window waits, and each that did
/// was answered.
pub proof fn law_nothing_waits_after_batch(v: state::AppView, world: World)
    requires
        v.inv(),
    ensures
        v.batch_done(world).0.pending.len() == 0,
        v.batch_done(world).1.len() == v.pending.len(),
{
    let n = world.workspaces@.len() as int;
    let followed = v.followed(world);
    let confirmed = followed.confirmed_among(world, n);
    lemma_confirmed_among_tokens(followed, world, n);
    lemma_drained_carries_on(
        state::AppView { pending: Seq::empty(), ..confirmed },
        world,
        confirmed.pending,
    );
}

/// A window that closed no longer counts as dealt with and waits for nothing;
/// other windows are not touched.
pub proof fn law_closed_window_is_forgotten(v: state::AppView, world: World, handle: ObjectKey)
    ensures
        ({
            let after = v.closed(world, handle).0;
            &&& after.handled == v.handled.remove(handle)
            &&& forall|i: int|
                0 <= i < after.pending.len() ==> (
                #[trigger] after.pending[i]).foreign_toplevel_id != handle && v.pending.contains(
                    after.pending[i],
                )
            &&& forall|i: int|
                0 <= i < v.pending.len() && (#[trigger] v.pending[i]).foreign_toplevel_id != handle
                    ==> after.pending.contains(v.pending[i])
        }),
{
    let mid = v.forgotten(handle);
    search::lemma_all_where(v.pending, wayland::toplevel::is_not_for(handle));
    lemma_answered_close_carries_on(mid, world, handle);
}

/// A window that appears again after it was dealt with is left alone: nothing
/// is requested, no warning is given and the state stays as it is.
pub proof fn law_second_appearance_is_skipped(
    v: state::AppView,
    world: World,
    later: World,
    handle: ObjectKey,
)
    requires
        v.appeared(world, handle).1 is Some,
        search::first_where(later.toplevels@, jump::is_listed_as(handle)) is Some,
    ensures
        ({
            let once = v.appeared(world, handle).0;
            once.appeared(later, handle) == (
                once,
                Some(
                    Ok::<_, PlaceError>(
                        PlaceOutcome::Skipped { reason: SkipReason::AlreadyHandled },
                    ),
                ),
            )
        }),
{
    let once = v.appeared(world, handle).0;
    search::lemma_first_where(later.toplevels@, jump::is_listed_as(handle));
    let i = search::first_where(later.toplevels@, jump::is_listed_as(handle))->Some_0;
    let t = later.toplevels@[i];
    assert(t.handle == handle);
    assert(once.handled.contains(handle));
    assert(runtime::number_set(once.handled).contains(ids::object_number(handle)));
    assert(once.handled.insert(handle) =~= once.handled);
    let d = placement::decision(
        once.config,
        runtime::configured_output(once.config, later),
        placement::title_excluded(once.config, t.title@),
        runtime::info_view(t),
        runtime::group_views(later),
        runtime::number_set(once.handled),
        ids::object_number(handle),
    );
    assert(d.warns =~= Seq::<PlacementWarn>::empty());
    assert(once.warn_all(d.warns) == once);
    assert(once.handled_too(handle) =~= once);
}

/// Where recent workspaces are not followed, closing a window requests
/// nothing, and neither the recent nor the last known workspaces change,
/// whatever happens.
pub proof fn law_not_followed_when_off(v: state::AppView, event: Event)
    requires
        v.inv(),
        !v.config.jump_on_empty,
    ensures
        v.after(event).recent == v.recent,
        v.after(event).last_active == v.last_active,
        event is Closed ==> v.after(event).effects == v.effects,
{
    match event {
        Event::Appeared { world, handle } => {
            if let Some(i) = search::first_where(world.toplevels@, jump::is_listed_as(handle)) {
                let t = world.toplevels@[i];
                let excluded = placement::title_excluded(v.config, t.title@);
                let d = placement::decision(
                    v.config,
                    runtime::configured_output(v.config, world),
                    excluded,
                    runtime::info_view(t),
                    runtime::group_views(world),
                    runtime::number_set(v.handled),
                    ids::object_number(t.handle),
                );
                lemma_warn_all(v, d.warns);
            }
        },
        Event::Batch { world } => {
            let n = world.workspaces@.len() as int;
            let confirmed = v.confirmed_among(world, n);
            lemma_confirmed_among_tokens(v, world, n);
            lemma_drained_carries_on(
                state::AppView { pending: Seq::empty(), ..confirmed },
                world,
                confirmed.pending,
            );
        },
        _ => {},
    }
}

/// Whether the first workspace with the number `id` is active.
pub open spec fn number_active(world: World, id: WorkspaceId) -> bool {
    world.workspace_numbered(id) matches Some(i) && world.workspaces@[i].is_active()
}

/// Once a batch of changes was dealt with, a switch still awaits confirmation
/// only if it did before and its workspace is not active; and one that did
/// still does, unless its workspace is active or was switched to anew.
pub proof fn law_batch_confirms_active(v: state::AppView, world: World, id: WorkspaceId)
    requires
        v.inv(),
    ensures
        ({
            let after = v.batch_done(world).0;
            &&& after.tokens.contains_key(id) ==> v.tokens.contains_key(id) && !number_active(
                world,
                id,
            )
            &&& v.tokens.contains_key(id) && !number_active(world, id)
                ==> after.tokens.contains_key(id) || switched_to(after.effects, id)
        }),
{
    let n = world.workspaces@.len() as int;
    let followed = v.followed(world);
    let confirmed = followed.confirmed_among(world, n);
    lemma_confirmed_among_tokens(followed, world, n);
    lemma_drained_carries_on(
        state::AppView { pending: Seq::empty(), ..confirmed },
        world,
        confirmed.pending,
    );
    search::lemma_first_where(world.workspaces@, world::has_number(id));
    let emptied = state::AppView { pending: Seq::empty(), ..confirmed };
    assert(timer_settles(emptied, v.batch_done(world).0, id));
    assert(confirmed.tokens.contains_key(id) <==> v.tokens.contains_key(id) && !active_among(
        world,
        id,
        n,
    ));
}

/// A window that waited goes to a workspace of its group: to the first that
/// appeared since the request, else, with a warning, to the first that no
/// window is on.
pub proof fn law_deferred_target(v: state::AppView, world: World, p: runtime::PendingView)
    ensures
        v.resolved(world, p).1 matches DeferredResult::Placed { workspace, .. } ==> ({
            let g = search::first_where(world.groups@, runtime::is_group(p.group_handle));
            let group = world.groups@[g->Some_0];
            &&& g is Some && group.handle == p.group_handle
            &&& group.workspaces@.contains(workspace)
            &&& !p.before.contains(workspace) || (!world.occupied(workspace) && v.resolved(
                world,
                p,
            ).0.warned(Warning::CreateWorkspaceNotHonored))
        }),
{
    search::lemma_first_where(world.groups@, runtime::is_group(p.group_handle));
    if let Some(g) = search::first_where(world.groups@, runtime::is_group(p.group_handle)) {
        let group = world.groups@[g];
        let members = world.members(group);
        let keys = world::handles(members);
        search::lemma_all_where(world.workspaces@, world::is_member(group));
        search::lemma_first_where(keys, runtime::is_new(p.before));
        search::lemma_first_where(runtime::occupancy(world, keys), runtime::is_unoccupied());
        if let Some(i) = runtime::first_new(p.before, keys) {
            assert(keys[i] == members[i].handle);
        } else if let Some(i) = runtime::first_free(runtime::occupancy(world, keys)) {
            assert(keys[i] == members[i].handle);
            assert(runtime::occupancy(world, keys)[i] == world.occupied(keys[i]));
        }
    }
}

/// Whether no two workspaces of the snapshot share an object number.
pub open spec fn numbers_distinct(world: World) -> bool {
    forall|i: int, j: int|
        0 <= i < j < world.workspaces@.len() ==> ids::object_number(
            (#[trigger] world.workspaces@[i]).handle,
        ) != ids::object_number((#[trigger] world.workspaces@[j]).handle)
}

/// A new window that is placed at once lands on a workspace that no window is
/// on, as long as no two workspaces share an object number.
pub proof fn law_window_lands_on_free_workspace(
    v: state::AppView,
    world: World,
    t: Toplevel,
    title_excluded: bool,
)
    requires
        numbers_distinct(world),
    ensures
        v.received(world, t, title_excluded).1 matches Ok(PlaceOutcome::Placed { workspace }) ==> {
            &&& !world.occupied(workspace)
            &&& exists|i: int|
                0 <= i < world.groups@.len() && (
                #[trigger] world.groups@[i]).workspaces@.contains(workspace)
        },
{
    let output = runtime::configured_output(v.config, world);
    let info = runtime::info_view(t);
    let groups = runtime::group_views(world);
    let handled = runtime::number_set(v.handled);
    let id = ids::object_number(t.handle);
    let d = placement::decision(v.config, output, title_excluded, info, groups, handled, id);
    if let PlacementAction::Place { workspace: target, then } = d.action {
        if let WorkspaceTarget::Existing(ws_id) = target {
            placement::law_existing_target_is_free(
                v.config,
                output,
                title_excluded,
                info,
                groups,
                handled,
                id,
            );
            let g = placement::selected_group(groups, output, info.output_ids)->Some_0;
            let k = search::first_where(groups[g].workspaces, placement::is_free())->Some_0;
            let group = world.groups@[g];
            let members = world.members(group);
            assert(groups[g] == runtime::group_view(world, group));
            assert(groups[g].workspaces[k] == runtime::workspace_view(world, members[k]));
            assert(!world.occupied(members[k].handle));
            assert(ws_id == ids::object_number(members[k].handle));
            search::lemma_all_where(world.workspaces@, world::is_member(group));
            assert(world.workspaces@.contains(members[k]));
            let at = choose|at: int|
                0 <= at < world.workspaces@.len() && world.workspaces@[at] == members[k];
            search::lemma_first_where(world.workspaces@, world::has_number(ws_id));
            let found = world.workspace_numbered(ws_id)->Some_0;
            assert(world::has_number(ws_id)(world.workspaces@[at]));
            if found < at {
                assert(ids::object_number(world.workspaces@[found].handle) != ids::object_number(
                    world.workspaces@[at].handle,
                ));
            }
            assert(found == at);
        }
    }
}

/// Numbered workspaces have distinct names as long as the counter does not
/// come round.
pub proof fn law_numbered_names_differ(a: u64, b: u64)
    requires
        a != b,
    ensures
        runtime::workspace_name(Seq::empty(), a) != runtime::workspace_name(Seq::empty(), b),
{
    text::lemma_decimal_round_trip(a);
    text::lemma_decimal_round_trip(b);
    let prefix = "auto-"@;
    let n = prefix.len() as int;
    assert((prefix + text::decimal_text(a as nat)).skip(n) =~= text::decimal_text(a as nat));
    assert((prefix + text::decimal_text(b as nat)).skip(n) =~= text::decimal_text(b as nat));
}

/// A window that the policy leaves alone without a look at the workspaces
/// changes nothing: nothing is requested and no warning is given. That holds
/// of excluded windows, and of every window in the mode that leaves windows
/// where they are.
pub proof fn law_left_alone_changes_nothing(
    v: state::AppView,
    world: World,
    t: Toplevel,
    title_excluded: bool,
)
    ensures
        placement::early_skip(
            v.config,
            title_excluded,
            runtime::info_view(t),
            runtime::number_set(v.handled),
            ids::object_number(t.handle),
        ) matches Some(reason) ==> v.received(world, t, title_excluded) == (
            v,
            Ok::<_, PlaceError>(PlaceOutcome::Skipped { reason }),
        ),
        v.config.workspace_mode == config::WorkspaceMode::Same ==> v.received(
            world,
            t,
            title_excluded,
        ).0 == v,
        v.config.excluded_app_ids.contains(t.app_id@) || title_excluded ==> v.received(
            world,
            t,
            title_excluded,
        ).0 == v,
{
    let d = placement::decision(
        v.config,
        runtime::configured_output(v.config, world),
        title_excluded,
        runtime::info_view(t),
        runtime::group_views(world),
        runtime::number_set(v.handled),
        ids::object_number(t.handle),
    );
    if placement::early_skip(
        v.config,
        title_excluded,
        runtime::info_view(t),
        runtime::number_set(v.handled),
        ids::object_number(t.handle),
    ) is Some {
        assert(d.warns.len() == 0);
    }
}

/// Where the configured output is in a group, the first such group is the one
/// that is selected, whatever outputs the window is on.
pub proof fn law_configured_output_takes_all(
    world: World,
    number: u64,
    outputs: Seq<u64>,
    i: int,
)
    requires
        0 <= i < world.groups@.len(),
        world::numbers(world.groups@[i].outputs@).contains(number),
        forall|j: int|
            0 <= j < i ==> !world::numbers((#[trigger] world.groups@[j]).outputs@).contains(number),
    ensures
        placement::selected_group(runtime::group_views(world), Some(number), outputs) == Some(i),
{
    let groups = runtime::group_views(world);
    assert forall|j: int| 0 <= j < i implies !placement::is_on(number)(#[trigger] groups[j]) by {
        assert(!world::numbers(world.groups@[j].outputs@).contains(number));
    }
    search::lemma_first_where_is(groups, placement::is_on(number), i);
}

/// A new workspace is requested in the selected group, and only where that
/// group takes new workspaces; the window then waits for a workspace of that
/// group.
pub proof fn law_new_workspace_is_in_selected_group(
    v: state::AppView,
    world: World,
    t: Toplevel,
    title_excluded: bool,
)
    ensures
        v.received(world, t, title_excluded).1 == Ok::<_, PlaceError>(PlaceOutcome::Queued) ==> ({
            let after = v.received(world, t, title_excluded).0;
            let selected = placement::selected_group(
                runtime::group_views(world),
                runtime::configured_output(v.config, world),
                world::numbers(t.outputs@),
            );
            let group = world.groups@[selected->Some_0];
            &&& selected is Some && 0 <= selected->Some_0 < world.groups@.len()
            &&& group.can_create()
            &&& after.effects.len() >= 2
            &&& after.effects[after.effects.len() - 2] == (effects::EffectView::CreateWorkspace {
                group: group.handle,
                name: runtime::workspace_name(t.app_id@, v.counter),
            })
            &&& after.pending.len() == v.pending.len() + 1
            &&& after.pending.last().group_handle == group.handle
        }),
        forall|i: int|
            v.effects.len() <= i < v.received(world, t, title_excluded).0.effects.len() && (
            #[trigger] v.received(world, t, title_excluded).0.effects[i]) is CreateWorkspace
                ==> v.received(world, t, title_excluded).1 == Ok::<_, PlaceError>(
                PlaceOutcome::Queued,
            ) && i == v.received(world, t, title_excluded).0.effects.len() - 2,
{
    let output = runtime::configured_output(v.config, world);
    let info = runtime::info_view(t);
    let groups = runtime::group_views(world);
    let handled = runtime::number_set(v.handled);
    let id = ids::object_number(t.handle);
    let d = placement::decision(v.config, output, title_excluded, info, groups, handled, id);
    let warned = v.warn_all(d.warns);
    lemma_warn_all(v, d.warns);
    lemma_warn_all_only_warns(v, d.warns);
    placement::law_decision_names_selected_group(
        v.config,
        output,
        title_excluded,
        info,
        groups,
        handled,
        id,
    );
    if let Some(g) = d.group {
        assert(groups[g] == runtime::group_view(world, world.groups@[g]));
    }
}

proof fn lemma_warn_all_only_warns(v: state::AppView, warns: Seq<PlacementWarn>)
    ensures
        forall|i: int|
            v.effects.len() <= i < v.warn_all(warns).effects.len() ==> (#[trigger] v.warn_all(
                warns,
            ).effects[i]) is Warn,
    decreases warns.len(),
{
    if warns.len() > 0 {
        lemma_warn_all_only_warns(v, warns.drop_last());
    }
}

// ---------------------------------------------------------------------------
// Going back to a recent workspace
// ---------------------------------------------------------------------------

/// The place of the key whose value counts for a number.
proof fn lemma_keyed<A, B, C>(
    keys: Seq<ObjectKey>,
    f: spec_fn(ObjectKey) -> A,
    g: spec_fn(ObjectKey) -> B,
    h: spec_fn(ObjectKey) -> C,
    n: u64,
) -> (i: int)
    requires
        jump::keyed(keys, f).contains_key(n),
    ensures
        0 <= i < keys.len(),
        ids::object_number(keys[i]) == n,
        jump::keyed(keys, f)[n] == f(keys[i]),
        jump::keyed(keys, g).contains_key(n) && jump::keyed(keys, g)[n] == g(keys[i]),
        jump::keyed(keys, h).contains_key(n) && jump::keyed(keys, h)[n] == h(keys[i]),
    decreases keys.len(),
{
    let last = keys.len() - 1;
    if ids::object_number(keys[last]) == n {
        last
    } else {
        lemma_keyed(keys.drop_last(), f, g, h, n)
    }
}

proof fn lemma_by_group<V>(world: World, keys: Seq<ObjectKey>, f: spec_fn(u64) -> V, n: u64)
    requires
        jump::by_group(world, keys, f).contains_key(n),
    ensures
        jump::by_group(world, keys, f)[n] == f(n),
    decreases keys.len(),
{
    if keys.len() > 0 && jump::by_group(world, keys.drop_last(), f).contains_key(n) {
        lemma_by_group(world, keys.drop_last(), f, n);
    }
}

/// A jump leaves a workspace that the closed window was on, that is active and
/// that no other window is on, for another workspace of its group that a
/// window other than the closed one is on.
pub proof fn law_jump_leaves_empty_active_workspace(
    v: state::AppView,
    world: World,
    closed: ObjectKey,
)
    ensures
        v.answered_close(world, closed).1 matches JumpOutcome::Jumped {
            source,
            target,
            group_id,
        } ==> ({
            let t = search::first_where(world.toplevels@, jump::is_listed_as(closed))->Some_0;
            let keys = world.toplevels@[t].workspaces@;
            &&& exists|i: int|
                0 <= i < keys.len() && ids::object_number(#[trigger] keys[i]) == source
                    && jump::activity(world)(keys[i]) && !world.occupied_without(keys[i], closed)
                    && jump::group_number(world)(keys[i]) == Some(group_id)
            &&& target != source
            &&& mru_jump::in_group(jump::group_metas(world, group_id), target)
            &&& jump::number_occupied(world, target, closed)
        }),
{
    if let JumpOutcome::Jumped { source, target, group_id } = v.answered_close(world, closed).1 {
        let t = search::first_where(world.toplevels@, jump::is_listed_as(closed))->Some_0;
        let keys = world.toplevels@[t].workspaces@;
        let input = jump::trigger_view(world, keys, closed, v.recent);
        mru_jump::law_jump_only_from_empty_active(input);
        let i = lemma_keyed(
            keys,
            jump::activity(world),
            jump::other_windows(world, closed),
            jump::group_number(world),
            source,
        );
        let others = search::all_where(world.toplevels@, jump::is_other_on(keys[i], closed));
        search::lemma_all_where(world.toplevels@, jump::is_other_on(keys[i], closed));
        lemma_all_where_len(world.toplevels@, jump::is_other_on(keys[i], closed));
        assert(others.len() == 0) by {
            assert(world.toplevels.len() == world.toplevels@.len());
        }
        if world.occupied_without(keys[i], closed) {
            let k = choose|k: int|
                0 <= k < world.toplevels@.len() && (#[trigger] world.toplevels@[k]).handle != closed
                    && world.toplevels@[k].workspaces@.contains(keys[i]);
            assert(others.contains(world.toplevels@[k]));
        }
        let metas_of = |n: u64| jump::group_metas(world, n);
        let occupied_of = |n: u64| jump::group_occupied(world, n, closed);
        assert(input.group_workspaces.contains_key(group_id));
        assert(input.group_occupied.contains_key(group_id));
        lemma_by_group(world, keys, metas_of, group_id);
        lemma_by_group(world, keys, occupied_of, group_id);
    }
}

proof fn lemma_all_where_len<T>(s: Seq<T>, p: spec_fn(T) -> bool)
    ensures
        search::all_where(s, p).len() <= s.len(),
    decreases s.len(),
{
    if s.len() > 0 {
        lemma_all_where_len(s.drop_last(), p);
    }
}

} // verus!
