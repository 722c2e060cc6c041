//! Reconnecting after the compositor went away.

use std::sync::Arc;
use std::time::Duration;

use vstd::prelude::*;

use crate::config;
use crate::config::Config;

verus! {

/// The longest sleep between two looks at the shutdown flag, in milliseconds.
pub const SLEEP_POLL_INTERVAL_MILLIS: u64 = 50;

/// The place of the last delay, which is repeated from then on.
pub const LAST_STEP: usize = 4;

/// The delay at place `step` of the sequence, in milliseconds.
pub open spec fn delay_millis(step: nat) -> u64 {
    if step == 0 {
        1_000
    } else if step == 1 {
        2_000
    } else if step == 2 {
        5_000
    } else if step == 3 {
        10_000
    } else {
        30_000
    }
}

/// The place after `step`.
pub open spec fn next_step(step: nat) -> nat {
    if step < LAST_STEP {
        step + 1
    } else {
        LAST_STEP as nat
    }
}

/// The delays before reconnecting: one, two, five, ten and thirty seconds,
/// and thirty from then on.
pub struct BackoffState {
    cursor: usize,
}

impl View for BackoffState {
    type V = nat;

    /// The place in the sequence.
    closed spec fn view(&self) -> nat {
        self.cursor as nat
    }
}

impl BackoffState {
    #[verifier::type_invariant]
    spec fn in_range(self) -> bool {
        self.cursor <= LAST_STEP
    }

    pub fn new() -> (b: Self)
        ensures
            b@ == 0,
    {
        BackoffState { cursor: 0 }
    }

    /// The next delay; the one after it comes next.
    pub fn next_delay(&mut self) -> (delay: Duration)
        ensures
            delay == config::millis_duration(delay_millis(old(self)@)),
            config::whole_millis(delay) == delay_millis(old(self)@),
            final(self)@ == next_step(old(self)@),
    {
        Duration::from_millis(self.next_delay_millis())
    }

    /// The next delay in milliseconds; the one after it comes next.
    pub fn next_delay_millis(&mut self) -> (millis: u64)
        ensures
            millis == delay_millis(old(self)@),
            final(self)@ == next_step(old(self)@),
    {
        proof {
            use_type_invariant(&*self);
        }
        let millis: u64 = if self.cursor == 0 {
            1_000
        } else if self.cursor == 1 {
            2_000
        } else if self.cursor == 2 {
            5_000
        } else if self.cursor == 3 {
            10_000
        } else {
            30_000
        };
        if self.cursor < LAST_STEP {
            self.cursor += 1;
        }
        millis
    }

    /// Starts the sequence over, after a successful reconnect.
    pub fn reset(&mut self)
        ensures
            final(self)@ == 0,
    {
        self.cursor = 0;
    }
}

impl Default for BackoffState {
    fn default() -> (b: Self)
        ensures
            b@ == 0,
    {
        BackoffState::new()
    }
}

/// Why a session ended well.
#[derive(Debug, Clone, Copy, PartialEq, Eq, Structural)]
pub enum ExitReason {
    /// The process was asked to stop.
    Signal,
}

/// Why a session ended badly.
#[derive(Debug, Clone, PartialEq, Eq)]
pub enum RunError {
    /// The session could not start; trying again would not help.
    StartupFailure(String),
    /// The compositor went away.
    BackendDisconnect,
    /// The event loop is at fault; trying again would not help.
    InternalError(String),
}

/// The model of a [`RunError`].
pub ghost enum RunErrorView {
    StartupFailure(Seq<char>),
    BackendDisconnect,
    InternalError(Seq<char>),
}

impl View for RunError {
    type V = RunErrorView;

    open spec fn view(&self) -> RunErrorView {
        match *self {
            RunError::StartupFailure(e) => RunErrorView::StartupFailure(e@),
            RunError::BackendDisconnect => RunErrorView::BackendDisconnect,
            RunError::InternalError(e) => RunErrorView::InternalError(e@),
        }
    }
}

impl RunErrorView {
    pub open spec fn message(self) -> Seq<char> {
        match self {
            RunErrorView::StartupFailure(e) => "startup failure: "@ + e,
            RunErrorView::BackendDisconnect => "Wayland compositor disconnected"@,
            RunErrorView::InternalError(e) => "internal event loop error: "@ + e,
        }
    }
}

impl RunError {
    /// The message for the operator.
    pub fn message(&self) -> (text: String)
        ensures
            text@ == self@.message(),
    {
        match self {
            RunError::StartupFailure(e) => "startup failure: ".to_owned().concat(e.as_str()),
            RunError::BackendDisconnect => "Wayland compositor disconnected".to_owned(),
            RunError::InternalError(e) => "internal event loop error: ".to_owned().concat(
                e.as_str(),
            ),
        }
    }
}

/// What the supervisor does next.
#[derive(Debug, Clone, Copy, PartialEq, Eq, Structural)]
pub enum SupervisorAction {
    /// Return without an error.
    Exit,
    /// Sleep, then look again.
    Sleep { millis: u64 },
    /// Run one session.
    Connect,
}

/// The model of a [`Supervisor`].
pub ghost struct SupervisorView {
    /// The place in the sequence of delays.
    pub step: nat,
    /// What is left of the current delay, in milliseconds.
    pub remaining: nat,
}

/// How a session ended, as far as the supervisor tells cases apart.
pub ghost enum SessionEnd {
    Exited,
    Disconnected,
    Failed(Seq<char>),
}

/// The end that `outcome` is.
pub open spec fn session_end(outcome: Result<ExitReason, RunError>) -> SessionEnd {
    match outcome {
        Ok(ExitReason::Signal) => SessionEnd::Exited,
        Err(RunError::BackendDisconnect) => SessionEnd::Disconnected,
        Err(RunError::StartupFailure(e)) => SessionEnd::Failed(e@),
        Err(RunError::InternalError(e)) => SessionEnd::Failed(e@),
    }
}

impl SupervisorView {
    /// What is done next.
    pub open spec fn action(self, shutdown: bool) -> SupervisorAction {
        if shutdown {
            SupervisorAction::Exit
        } else if self.remaining == 0 {
            SupervisorAction::Connect
        } else if self.remaining < SLEEP_POLL_INTERVAL_MILLIS {
            SupervisorAction::Sleep { millis: self.remaining as u64 }
        } else {
            SupervisorAction::Sleep { millis: SLEEP_POLL_INTERVAL_MILLIS }
        }
    }

    /// The state once that is done.
    pub open spec fn polled(self, shutdown: bool) -> SupervisorView {
        match self.action(shutdown) {
            SupervisorAction::Sleep { millis } => SupervisorView {
                remaining: (self.remaining - millis) as nat,
                ..self
            },
            _ => self,
        }
    }

    /// The state once a session ended.
    pub open spec fn ended(self, end: SessionEnd) -> SupervisorView {
        match end {
            SessionEnd::Disconnected => SupervisorView {
                step: next_step(self.step),
                remaining: delay_millis(self.step) as nat,
            },
            _ => self,
        }
    }
}

/// What the supervisor returns once a session ended; `None` to go on.
pub open spec fn verdict(end: SessionEnd) -> Option<Result<(), Seq<char>>> {
    match end {
        SessionEnd::Exited => Some(Ok(())),
        SessionEnd::Disconnected => None,
        SessionEnd::Failed(e) => Some(Err(e)),
    }
}

/// The model of what a session's end makes the supervisor return.
pub open spec fn verdict_view(v: Option<Result<(), String>>) -> Option<Result<(), Seq<char>>> {
    match v {
        Some(Ok(())) => Some(Ok(())),
        Some(Err(e)) => Some(Err(e@)),
        None => None,
    }
}

/// Runs one session after another: after a disconnect it waits and tries
/// again, after anything else it returns.
///
/// The configuration and the place in the sequence of delays outlive the
/// sessions. `connect_fn` runs one session, and resets the delays once it is
/// connected.
pub struct Supervisor<F> where
    F: FnMut(&Arc<Config>, &mut BackoffState) -> Result<ExitReason, RunError>,
 {
    config: Arc<Config>,
    backoff: BackoffState,
    connect_fn: F,
    remaining_millis: u64,
}

impl<F> View for Supervisor<F> where
    F: FnMut(&Arc<Config>, &mut BackoffState) -> Result<ExitReason, RunError>,
 {
    type V = SupervisorView;

    closed spec fn view(&self) -> SupervisorView {
        SupervisorView { step: self.backoff@, remaining: self.remaining_millis as nat }
    }
}

impl<F> Supervisor<F> where
    F: FnMut(&Arc<Config>, &mut BackoffState) -> Result<ExitReason, RunError>,
 {
    /// The configuration that every session gets.
    pub closed spec fn config(&self) -> Config {
        *self.config
    }

    /// What runs a session.
    pub closed spec fn session(&self) -> F {
        self.connect_fn
    }

    /// Whether a session can be run, whatever it gets.
    pub open spec fn can_connect(&self) -> bool {
        forall|config: &Arc<Config>, backoff: &mut BackoffState|
            call_requires(self.session(), (config, backoff))
    }

    pub fn with_connect_fn(config: Config, connect_fn: F) -> (s: Self)
        ensures
            s@ == (SupervisorView { step: 0, remaining: 0 }),
            s.config() == config,
            s.session() == connect_fn,
    {
        Supervisor {
            config: Arc::new(config),
            backoff: BackoffState::new(),
            connect_fn,
            remaining_millis: 0,
        }
    }

    /// Decides what is done next; `shutdown` says whether the process was
    /// asked to stop.
    pub fn poll(&mut self, shutdown: bool) -> (action: SupervisorAction)
        ensures
            action == old(self)@.action(shutdown),
            final(self)@ == old(self)@.polled(shutdown),
            final(self).config() == old(self).config(),
            final(self).session() == old(self).session(),
    {
        if shutdown {
            return SupervisorAction::Exit;
        }
        if self.remaining_millis == 0 {
            return SupervisorAction::Connect;
        }
        let millis: u64 = if self.remaining_millis < SLEEP_POLL_INTERVAL_MILLIS {
            self.remaining_millis
        } else {
            SLEEP_POLL_INTERVAL_MILLIS
        };
        self.remaining_millis = self.remaining_millis - millis;
        SupervisorAction::Sleep { millis }
    }

    /// Runs one session.
    pub fn connect(&mut self) -> (outcome: Result<ExitReason, RunError>)
        requires
            old(self).can_connect(),
        ensures
            final(self)@.remaining == old(self)@.remaining,
            final(self).config() == old(self).config(),
            final(self).session() == old(self).session(),
            exists|backoff: &mut BackoffState|
                backoff@ == old(self)@.step && final(backoff)@ == final(self)@.step
                    && #[trigger] call_ensures(
                    old(self).session(),
                    (&Arc::new(old(self).config()), backoff),
                    outcome,
                ),
    {
        proof {
            assert(self.session() == self.connect_fn);
            assert(forall|config: &Arc<Config>, backoff: &mut BackoffState|
                call_requires(self.connect_fn, (config, backoff)));
        }
        (self.connect_fn)(&self.config, &mut self.backoff)
    }

    /// Takes note of how a session ended, and says what to return; `None` to
    /// go on.
    pub fn session_ended(&mut self, outcome: Result<ExitReason, RunError>) -> (v: Option<
        Result<(), String>,
    >)
        ensures
            verdict_view(v) == verdict(session_end(outcome)),
            final(self)@ == old(self)@.ended(session_end(outcome)),
            final(self).config() == old(self).config(),
            final(self).session() == old(self).session(),
    {
        match outcome {
            Ok(ExitReason::Signal) => Some(Ok(())),
            Err(RunError::BackendDisconnect) => {
                self.remaining_millis = self.backoff.next_delay_millis();
                None
            },
            Err(RunError::StartupFailure(e)) => Some(Err(e)),
            Err(RunError::InternalError(e)) => Some(Err(e)),
        }
    }
}

// ---------------------------------------------------------------------------
// Laws
// ---------------------------------------------------------------------------

/// The place in the sequence after `n` delays from `step`.
pub open spec fn step_after(step: nat, n: nat) -> nat
    decreases n,
{
    if n == 0 {
        step
    } else {
        next_step(step_after(step, (n - 1) as nat))
    }
}

/// The delays after a reset are one, two, five, ten and thirty seconds, and
/// thirty for ever after.
pub proof fn law_delay_sequence(n: nat)
    ensures
        delay_millis(step_after(0, n)) == delay_millis(n),
        n >= LAST_STEP ==> delay_millis(step_after(0, n)) == 30_000,
        step_after(0, n) == (if n < LAST_STEP {
            n
        } else {
            LAST_STEP as nat
        }),
    decreases n,
{
    if n > 0 {
        law_delay_sequence((n - 1) as nat);
    }
}

/// No delay is shorter than the one before it, and none is longer than thirty
/// seconds.
pub proof fn law_delays_grow_to_cap(step: nat)
    ensures
        delay_millis(step) <= delay_millis(next_step(step)) <= 30_000,
{
}

/// The sleeps that follow one another until the next session, when the
/// process is not asked to stop.
pub open spec fn sleeps(v: SupervisorView) -> Seq<u64>
    decreases v.remaining,
{
    match v.action(false) {
        SupervisorAction::Sleep { millis } => seq![millis] + sleeps(v.polled(false)),
        _ => Seq::empty(),
    }
}

/// The sum of `s`.
pub open spec fn total(s: Seq<u64>) -> nat
    decreases s.len(),
{
    if s.len() == 0 {
        0
    } else {
        s[0] as nat + total(s.drop_first())
    }
}

/// The sleeps of one delay add up to the delay, and none is longer than the
/// interval at which the shutdown flag is looked at.
pub proof fn law_sleeps_add_up(v: SupervisorView)
    ensures
        total(sleeps(v)) == v.remaining,
        forall|i: int|
            0 <= i < sleeps(v).len() ==> 0 < #[trigger] sleeps(v)[i] <= SLEEP_POLL_INTERVAL_MILLIS,
    decreases v.remaining,
{
    if v.remaining > 0 {
        let next = v.polled(false);
        law_sleeps_add_up(next);
        assert(sleeps(v).drop_first() =~= sleeps(next));
        assert forall|i: int| 0 <= i < sleeps(v).len() implies 0 < #[trigger] sleeps(v)[i]
            <= SLEEP_POLL_INTERVAL_MILLIS by {
            if i > 0 {
                assert(sleeps(v)[i] == sleeps(next)[i - 1]);
            }
        }
    }
}

/// Asked to stop, the supervisor returns at once: it neither connects nor
/// sleeps again, whatever it was doing.
pub proof fn law_shutdown_exits(v: SupervisorView)
    ensures
        v.action(true) == SupervisorAction::Exit,
        v.polled(true) == v,
{
}

/// Only a disconnect is tried again; then the supervisor first sleeps for the
/// whole delay.
pub proof fn law_only_disconnects_are_retried(v: SupervisorView, end: SessionEnd)
    ensures
        verdict(end) is None <==> end is Disconnected,
        end is Disconnected ==> total(sleeps(v.ended(end))) == delay_millis(v.step)
            && v.ended(end).step == next_step(v.step) && v.ended(end).action(false) is Sleep,
        end matches SessionEnd::Failed(e) ==> verdict(end) == Some(Err::<(), Seq<char>>(e)),
{
    law_sleeps_add_up(v.ended(end));
}

} // verus!
