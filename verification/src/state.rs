//! The daemon's state during one session.

use std::collections::{HashMap, HashSet, VecDeque};
use std::sync::Arc;

use vstd::prelude::*;

use crate::config;
use crate::config::Config;
use crate::effects;
use crate::effects::{Effect, Warning};
use crate::ids::{ObjectKey, WorkspaceId};
use crate::mru_jump::MRU_CAP;
use crate::runtime;
use crate::runtime::PendingPlacement;
use crate::verify;
use crate::verify::{VerifierState, VerifyEvent};

verus! {

/// How many distinct workspaces are tried before the operator is warned that
/// the compositor honors no switch.
pub const WARN_THRESHOLD: usize = 3;

/// All that the daemon remembers. A new session starts with a new one, which
/// keeps of the last only what the operator was warned of.
pub struct AppData {
    pub config: Arc<Config>,
    /// The windows that were dealt with.
    pub handled: HashSet<ObjectKey>,
    pub verifier: VerifierState,
    /// The timer of each switch that awaits confirmation.
    pub pending_tokens: HashMap<WorkspaceId, u64>,
    pub warn_workspace_output_fallback: bool,
    pub warn_new_each_unsupported: bool,
    pub warn_create_workspace_not_honored: bool,
    /// The first seat that was announced.
    pub seat: Option<ObjectKey>,
    /// Numbers the workspaces made for windows without an application name.
    pub new_each_counter: u64,
    /// The windows that wait for their workspace to appear.
    pub pending_placements: Vec<PendingPlacement>,
    /// The workspaces visited, most recent first.
    pub recent_workspaces: VecDeque<WorkspaceId>,
    /// The last known active workspace of each group.
    pub last_known_active: HashMap<u64, WorkspaceId>,
    /// What is to be carried out, in order.
    pub effects: Vec<Effect>,
}

/// The model of an [`AppData`].
#[verifier::ext_equal]
pub ghost struct AppView {
    pub config: config::ConfigView,
    pub handled: Set<ObjectKey>,
    pub verifier: verify::VerifierView,
    pub tokens: Map<WorkspaceId, u64>,
    pub warned_output_fallback: bool,
    pub warned_new_each: bool,
    pub warned_not_honored: bool,
    pub seat: Option<ObjectKey>,
    pub counter: u64,
    pub pending: Seq<runtime::PendingView>,
    pub recent: Seq<WorkspaceId>,
    pub last_active: Map<u64, WorkspaceId>,
    pub effects: Seq<effects::EffectView>,
}

impl View for AppData {
    type V = AppView;

    open spec fn view(&self) -> AppView {
        AppView {
            config: (*self.config)@,
            handled: self.handled@,
            verifier: self.verifier@,
            tokens: self.pending_tokens@,
            warned_output_fallback: self.warn_workspace_output_fallback,
            warned_new_each: self.warn_new_each_unsupported,
            warned_not_honored: self.warn_create_workspace_not_honored,
            seat: self.seat,
            counter: self.new_each_counter,
            pending: runtime::pending_views(self.pending_placements@),
            recent: self.recent_workspaces@,
            last_active: self.last_known_active@,
            effects: effects::views(self.effects@),
        }
    }
}

impl AppView {
    /// The state at the start of a session.
    pub open spec fn init(config: config::ConfigView) -> AppView {
        AppView {
            config,
            handled: Set::empty(),
            verifier: verify::VerifierView::init(WARN_THRESHOLD as nat),
            tokens: Map::empty(),
            warned_output_fallback: false,
            warned_new_each: false,
            warned_not_honored: false,
            seat: None,
            counter: 0,
            pending: Seq::empty(),
            recent: Seq::empty(),
            last_active: Map::empty(),
            effects: Seq::empty(),
        }
    }

    /// The state at the start of the session after the one that ended like
    /// this: only what the operator was warned of is kept.
    pub open spec fn next_session(self, config: config::ConfigView) -> AppView {
        AppView {
            warned_output_fallback: self.warned_output_fallback,
            warned_new_each: self.warned_new_each,
            warned_not_honored: self.warned_not_honored,
            verifier: verify::VerifierView::resumed(
                WARN_THRESHOLD as nat,
                self.verifier.warn_fired,
            ),
            ..AppView::init(config)
        }
    }

    /// One more thing to carry out.
    pub open spec fn emit(self, effect: effects::EffectView) -> AppView {
        AppView { effects: self.effects.push(effect), ..self }
    }

    /// Whether the warning was given.
    pub open spec fn warned(self, warning: Warning) -> bool {
        match warning {
            Warning::WorkspaceOutputFallback => self.warned_output_fallback,
            Warning::NewEachUnsupported => self.warned_new_each,
            Warning::CreateWorkspaceNotHonored => self.warned_not_honored,
        }
    }

    /// The warning counts as given.
    pub open spec fn latch(self, warning: Warning) -> AppView {
        match warning {
            Warning::WorkspaceOutputFallback => AppView { warned_output_fallback: true, ..self },
            Warning::NewEachUnsupported => AppView { warned_new_each: true, ..self },
            Warning::CreateWorkspaceNotHonored => AppView { warned_not_honored: true, ..self },
        }
    }

    /// The warning is given unless it was given before.
    pub open spec fn warn_once(self, warning: Warning) -> AppView {
        if self.warned(warning) {
            self
        } else {
            self.latch(warning).emit(effects::EffectView::Warn { warning })
        }
    }

    /// The timer of an earlier switch to the workspace, if one runs, is
    /// stopped.
    pub open spec fn timer_stopped(self, handle_id: WorkspaceId) -> AppView {
        let v = if self.tokens.contains_key(handle_id) {
            self.emit(effects::EffectView::CancelTimer { token: self.tokens[handle_id] })
        } else {
            self
        };
        AppView {
            verifier: v.verifier.cancel(handle_id),
            tokens: v.tokens.remove(handle_id),
            ..v
        }
    }

    /// The timer of a switch was started, in place of one that may run for the
    /// workspace, or could not be.
    pub open spec fn timer_registered(self, handle_id: WorkspaceId, token: Option<u64>) -> AppView {
        match token {
            Some(t) => {
                let v = self.timer_stopped(handle_id);
                AppView {
                    verifier: v.verifier.attempt(handle_id, Some(handle_id)),
                    tokens: v.tokens.insert(handle_id, t),
                    ..v
                }
            },
            None => AppView { verifier: self.verifier.attempt(handle_id, None), ..self },
        }
    }

    /// The timer of a switch ran out.
    pub open spec fn timer_expired(self, handle_id: WorkspaceId) -> AppView {
        AppView {
            verifier: self.verifier.timeout(handle_id),
            tokens: self.tokens.remove(handle_id),
            ..self
        }
    }

    /// A seat was announced; the first one counts.
    pub open spec fn seat_added(self, seat: ObjectKey) -> AppView {
        AppView {
            seat: match self.seat {
                Some(s) => Some(s),
                None => Some(seat),
            },
            ..self
        }
    }

    /// A seat is gone.
    pub open spec fn seat_removed(self, seat: ObjectKey) -> AppView {
        AppView {
            seat: if self.seat == Some(seat) {
                None
            } else {
                self.seat
            },
            ..self
        }
    }
}

impl AppData {
    /// The state at the start of the first session.
    pub fn new(config: Arc<Config>) -> (app: Self)
        ensures
            app@ == AppView::init((*config)@),
    {
        let app: AppData = AppData {
            config,
            handled: HashSet::new(),
            verifier: VerifierState::new(WARN_THRESHOLD),
            pending_tokens: HashMap::new(),
            warn_workspace_output_fallback: false,
            warn_new_each_unsupported: false,
            warn_create_workspace_not_honored: false,
            seat: None,
            new_each_counter: 0,
            pending_placements: Vec::new(),
            recent_workspaces: VecDeque::with_capacity(MRU_CAP),
            last_known_active: HashMap::new(),
            effects: Vec::new(),
        };
        proof {
            assert(app@ =~= AppView::init((*config)@));
        }
        app
    }

    /// The state at the start of the session after `last`. A warning that was
    /// given is not given again.
    pub fn for_next_session(config: Arc<Config>, last: &AppData) -> (app: Self)
        ensures
            app@ == last@.next_session((*config)@),
    {
        let mut app: AppData = AppData::new(config);
        app.warn_workspace_output_fallback = last.warn_workspace_output_fallback;
        app.warn_new_each_unsupported = last.warn_new_each_unsupported;
        app.warn_create_workspace_not_honored = last.warn_create_workspace_not_honored;
        app.verifier = VerifierState::resumed(WARN_THRESHOLD, last.verifier.process_warn_fired());
        app
    }

    /// One more thing to carry out.
    pub fn emit(&mut self, effect: Effect)
        ensures
            final(self)@ == old(self)@.emit(effect@),
    {
        effects::push(&mut self.effects, effect);
    }

    /// Takes what is to be carried out.
    pub fn take_effects(&mut self) -> (taken: Vec<Effect>)
        ensures
            effects::views(taken@) == old(self)@.effects,
            final(self)@ == (AppView { effects: Seq::empty(), ..old(self)@ }),
    {
        let ghost before = self@;
        let mut taken: Vec<Effect> = Vec::new();
        taken.append(&mut self.effects);
        proof {
            assert(taken@ =~= old(self).effects@);
            assert(self@ =~= (AppView { effects: Seq::empty(), ..before }));
        }
        taken
    }

    /// Warns, once, that the configured output is unknown.
    pub fn warn_once_workspace_output_fallback(&mut self)
        ensures
            final(self)@ == old(self)@.warn_once(Warning::WorkspaceOutputFallback),
    {
        if !self.warn_workspace_output_fallback {
            self.warn_workspace_output_fallback = true;
            self.emit(Effect::Warn { warning: Warning::WorkspaceOutputFallback });
        }
    }

    /// Warns, once, that the compositor makes no workspaces.
    pub fn warn_once_new_each_unsupported(&mut self)
        ensures
            final(self)@ == old(self)@.warn_once(Warning::NewEachUnsupported),
    {
        if !self.warn_new_each_unsupported {
            self.warn_new_each_unsupported = true;
            self.emit(Effect::Warn { warning: Warning::NewEachUnsupported });
        }
    }

    /// Warns, once, that a requested workspace did not appear.
    pub fn warn_once_create_workspace_not_honored(&mut self)
        ensures
            final(self)@ == old(self)@.warn_once(Warning::CreateWorkspaceNotHonored),
    {
        if !self.warn_create_workspace_not_honored {
            self.warn_create_workspace_not_honored = true;
            self.emit(Effect::Warn { warning: Warning::CreateWorkspaceNotHonored });
        }
    }

    /// Stops the timer of an earlier switch to the workspace, if one runs.
    pub fn stop_timer(&mut self, handle_id: WorkspaceId)
        ensures
            final(self)@ == old(self)@.timer_stopped(handle_id),
    {
        let held: Option<u64> = match self.pending_tokens.get(&handle_id) {
            Some(t) => Some(*t),
            None => None,
        };
        if let Some(token) = held {
            self.emit(Effect::CancelTimer { token });
        }
        self.pending_tokens.remove(&handle_id);
        self.verifier.record_cancel(handle_id);
    }

    /// Takes note of the timer of a switch, and stops one that may run for the
    /// workspace; `None` where it could not be started.
    pub fn timer_registered(&mut self, handle_id: WorkspaceId, token: Option<u64>)
        ensures
            final(self)@ == old(self)@.timer_registered(handle_id, token),
    {
        match token {
            Some(t) => {
                self.stop_timer(handle_id);
                self.verifier.record_attempt(handle_id, Some(handle_id));
                self.pending_tokens.insert(handle_id, t);
            },
            None => {
                self.verifier.record_attempt(handle_id, None);
            },
        }
    }

    /// Takes note that the timer of a switch ran out, and says what to log.
    pub fn timer_expired(&mut self, handle_id: WorkspaceId) -> (event: VerifyEvent)
        ensures
            final(self)@ == old(self)@.timer_expired(handle_id),
            event == old(self)@.verifier.timeout_event(handle_id),
    {
        let event: VerifyEvent = self.verifier.record_timeout(handle_id);
        self.pending_tokens.remove(&handle_id);
        event
    }

    /// Takes note of a seat.
    pub fn new_seat(&mut self, seat: ObjectKey)
        ensures
            final(self)@ == old(self)@.seat_added(seat),
    {
        if self.seat.is_none() {
            self.seat = Some(seat);
        }
    }

    /// Takes note that a seat is gone.
    pub fn remove_seat(&mut self, seat: ObjectKey)
        ensures
            final(self)@ == old(self)@.seat_removed(seat),
    {
        if let Some(held) = self.seat {
            if held == seat {
                self.seat = None;
            }
        }
    }
}

} // verus!
