//! Starting a session, and telling why one ended.

use vstd::prelude::*;

use crate::reconnect;
use crate::reconnect::{BackoffState, ExitReason, RunError};

verus! {

pub const D8_MISSING_COSMIC_TOPLEVEL_INFO: &'static str =
    "cosmic toplevel-info extension (zcosmic_toplevel_info_v1) not advertised by the \
compositor. This daemon requires a COSMIC compositor that exposes the cosmic \
toplevel-info / toplevel-management / workspace protocols. Confirm you are running \
the COSMIC desktop (System76 cosmic-comp >= 1.0.0-alpha.4 or equivalent) and that \
this process is started via `systemctl --user start cosmic-ext-window-daemon`. \
Run `systemctl --user status cosmic-ext-window-daemon` to inspect the failure. \
Exiting with code 1.";

pub const D8_MISSING_EXT_FOREIGN_TOPLEVEL: &'static str =
    "ext-foreign-toplevel-list-v1 not advertised by the compositor; \
ToplevelInfoState::try_new failed. Ensure a COSMIC compositor is running.";

pub const D8_MISSING_WORKSPACE_MANAGER: &'static str =
    "ext_workspace_manager_v1 not advertised by the compositor; \
workspace placement is impossible. Ensure a COSMIC compositor (cosmic-comp >= 1.0.0-alpha.4) \
is running and the ext-workspace protocol is available.";

pub const MISSING_TOPLEVEL_MANAGER: &'static str =
    "zcosmic_toplevel_manager_v1 not advertised by the compositor; \
ensure COSMIC desktop is running";

pub const MISSING_WAYLAND_SESSION: &'static str =
    "neither WAYLAND_DISPLAY nor WAYLAND_SOCKET is set to a non-empty value; \
cosmic-ext-window-daemon requires a Wayland session";

/// Whether one of the two variables has a value that is not empty.
pub open spec fn names_session(display: Option<&str>, socket: Option<&str>) -> bool {
    (display is Some && display->Some_0@.len() > 0) || (socket is Some && socket->Some_0@.len() > 0)
}

/// Checks that the process was started in a Wayland session.
pub fn check_wayland_session(display: Option<&str>, socket: Option<&str>) -> (r: Result<
    (),
    RunError,
>)
    ensures
        r is Ok <==> names_session(display, socket),
        r matches Err(e) ==> e@ == reconnect::RunErrorView::StartupFailure(
            MISSING_WAYLAND_SESSION@,
        ),
{
    if is_set(display) || is_set(socket) {
        Ok(())
    } else {
        Err(RunError::StartupFailure(MISSING_WAYLAND_SESSION.to_owned()))
    }
}

fn is_set(value: Option<&str>) -> (b: bool)
    ensures
        b == (value is Some && value->Some_0@.len() > 0),
{
    match value {
        Some(v) => !v.is_empty(),
        None => false,
    }
}

/// What is said where one of the two extensions is missing. Where both are,
/// the window extension is the one reported.
pub open spec fn missing_global(
    has_cosmic_toplevel_info: bool,
    has_workspace_manager: bool,
) -> Option<Seq<char>> {
    if !has_cosmic_toplevel_info {
        Some(D8_MISSING_COSMIC_TOPLEVEL_INFO@)
    } else if !has_workspace_manager {
        Some(D8_MISSING_WORKSPACE_MANAGER@)
    } else {
        None
    }
}

/// Checks that the compositor offers both extensions.
pub fn check_required_globals(has_cosmic_toplevel_info: bool, has_workspace_manager: bool) -> (r:
    Result<(), RunError>)
    ensures
        match missing_global(has_cosmic_toplevel_info, has_workspace_manager) {
            None => r is Ok,
            Some(text) => r is Err && r->Err_0@ == reconnect::RunErrorView::StartupFailure(text),
        },
{
    if !has_cosmic_toplevel_info {
        return Err(RunError::StartupFailure(D8_MISSING_COSMIC_TOPLEVEL_INFO.to_owned()));
    }
    if !has_workspace_manager {
        return Err(RunError::StartupFailure(D8_MISSING_WORKSPACE_MANAGER.to_owned()));
    }
    Ok(())
}

/// The steps of a start that can fail, in order.
#[derive(Debug, Clone, Copy, PartialEq, Eq, Structural)]
pub enum StartupStep {
    Connect,
    Registry,
    EventLoop,
    ToplevelInfo,
    ToplevelManager,
    RequiredGlobals,
    WaylandSource,
    Signals,
    SignalSource,
}

/// How many steps a start has.
pub const STARTUP_STEPS: usize = 9;

/// How many steps come before the check of the required extensions.
pub const STEPS_BEFORE_GLOBALS: usize = 5;

/// The step that comes after `passed` others.
pub open spec fn step_at(passed: nat) -> StartupStep {
    if passed == 0 {
        StartupStep::Connect
    } else if passed == 1 {
        StartupStep::Registry
    } else if passed == 2 {
        StartupStep::EventLoop
    } else if passed == 3 {
        StartupStep::ToplevelInfo
    } else if passed == 4 {
        StartupStep::ToplevelManager
    } else if passed == 5 {
        StartupStep::RequiredGlobals
    } else if passed == 6 {
        StartupStep::WaylandSource
    } else if passed == 7 {
        StartupStep::Signals
    } else {
        StartupStep::SignalSource
    }
}

/// What is said of a step that failed. Where an extension is missing, there is
/// no further cause to name; the check of the required extensions says all
/// there is to say.
pub open spec fn startup_message(step: StartupStep, cause: Seq<char>) -> Seq<char> {
    match step {
        StartupStep::Connect => "failed to connect to Wayland compositor: "@ + cause,
        StartupStep::Registry => "registry_queue_init failed: "@ + cause,
        StartupStep::EventLoop => "calloop EventLoop::try_new failed: "@ + cause,
        StartupStep::ToplevelInfo => D8_MISSING_EXT_FOREIGN_TOPLEVEL@,
        StartupStep::ToplevelManager => MISSING_TOPLEVEL_MANAGER@,
        StartupStep::RequiredGlobals => cause,
        StartupStep::WaylandSource => "WaylandSource::insert failed: "@ + cause,
        StartupStep::Signals => "calloop Signals::new failed: "@ + cause,
        StartupStep::SignalSource => "failed to insert signal source: "@ + cause,
    }
}

/// Tells why a start failed.
pub fn startup_error(step: StartupStep, cause: &str) -> (e: RunError)
    ensures
        e@ == reconnect::RunErrorView::StartupFailure(startup_message(step, cause@)),
{
    let text: String = match step {
        StartupStep::Connect => "failed to connect to Wayland compositor: ".to_owned().concat(cause),
        StartupStep::Registry => "registry_queue_init failed: ".to_owned().concat(cause),
        StartupStep::EventLoop => "calloop EventLoop::try_new failed: ".to_owned().concat(cause),
        StartupStep::ToplevelInfo => D8_MISSING_EXT_FOREIGN_TOPLEVEL.to_owned(),
        StartupStep::ToplevelManager => MISSING_TOPLEVEL_MANAGER.to_owned(),
        StartupStep::RequiredGlobals => cause.to_owned(),
        StartupStep::WaylandSource => "WaylandSource::insert failed: ".to_owned().concat(cause),
        StartupStep::Signals => "calloop Signals::new failed: ".to_owned().concat(cause),
        StartupStep::SignalSource => "failed to insert signal source: ".to_owned().concat(cause),
    };
    RunError::StartupFailure(text)
}

/// How far a start has come.
pub struct Startup {
    passed: usize,
}

impl View for Startup {
    type V = nat;

    /// How many steps were passed.
    closed spec fn view(&self) -> nat {
        self.passed as nat
    }
}

impl Startup {
    #[verifier::type_invariant]
    spec fn in_range(self) -> bool {
        self.passed <= STARTUP_STEPS
    }

    /// Begins a start, given the values of `WAYLAND_DISPLAY` and
    /// `WAYLAND_SOCKET`; without a session to connect to there is none.
    pub fn begin(display: Option<&str>, socket: Option<&str>) -> (r: Result<Self, RunError>)
        ensures
            r is Ok <==> names_session(display, socket),
            r matches Ok(s) ==> s@ == 0,
            r matches Err(e) ==> e@ == reconnect::RunErrorView::StartupFailure(
                MISSING_WAYLAND_SESSION@,
            ),
    {
        match check_wayland_session(display, socket) {
            Ok(()) => Ok(Startup { passed: 0 }),
            Err(e) => Err(e),
        }
    }

    /// Takes the outcome of the step that is due: hands on what it gave, or
    /// tells why the start failed. The check of the required extensions is a
    /// step of its own kind.
    pub fn take<T>(&mut self, outcome: Result<T, String>) -> (r: Result<T, RunError>)
        requires
            old(self)@ < STARTUP_STEPS,
            old(self)@ != STEPS_BEFORE_GLOBALS,
        ensures
            match outcome {
                Ok(value) => r == Ok::<T, RunError>(value) && final(self)@ == old(self)@ + 1,
                Err(cause) => r is Err && r->Err_0@ == reconnect::RunErrorView::StartupFailure(
                    startup_message(step_at(old(self)@), cause@),
                ) && final(self)@ == old(self)@,
            },
    {
        match outcome {
            Ok(value) => {
                self.passed = self.passed + 1;
                Ok(value)
            },
            Err(cause) => {
                let step: StartupStep = if self.passed == 0 {
                    StartupStep::Connect
                } else if self.passed == 1 {
                    StartupStep::Registry
                } else if self.passed == 2 {
                    StartupStep::EventLoop
                } else if self.passed == 3 {
                    StartupStep::ToplevelInfo
                } else if self.passed == 4 {
                    StartupStep::ToplevelManager
                } else if self.passed == 6 {
                    StartupStep::WaylandSource
                } else if self.passed == 7 {
                    StartupStep::Signals
                } else {
                    StartupStep::SignalSource
                };
                Err(startup_error(step, cause.as_str()))
            },
        }
    }

    /// Checks the required extensions, which is the step that is due.
    pub fn take_globals(&mut self, has_cosmic_toplevel_info: bool, has_workspace_manager: bool) -> (
    r: Result<(), RunError>)
        requires
            old(self)@ == STEPS_BEFORE_GLOBALS,
        ensures
            match missing_global(has_cosmic_toplevel_info, has_workspace_manager) {
                None => r is Ok && final(self)@ == old(self)@ + 1,
                Some(text) => r is Err && r->Err_0@ == reconnect::RunErrorView::StartupFailure(
                    startup_message(step_at(old(self)@), text),
                ) && final(self)@ == old(self)@,
            },
    {
        match check_required_globals(has_cosmic_toplevel_info, has_workspace_manager) {
            Ok(()) => {
                self.passed = self.passed + 1;
                Ok(())
            },
            Err(e) => Err(e),
        }
    }

    /// Starts the delays over if every step was passed, and says whether it
    /// did. A start that fails on the way leaves them as they are.
    pub fn finish(&self, backoff: &mut BackoffState) -> (finished: bool)
        ensures
            finished == (self@ == STARTUP_STEPS),
            final(backoff)@ == (if finished {
                0
            } else {
                old(backoff)@
            }),
    {
        if self.passed == STARTUP_STEPS {
            backoff.reset();
            true
        } else {
            false
        }
    }
}

/// Why the event loop stopped.
#[derive(Debug, Clone, PartialEq, Eq)]
pub enum LoopError {
    /// A source failed to read or write.
    Io { raw_os_error: Option<i32>, message: String },
    /// Anything else.
    Other { message: String },
}

/// The error that a stopped event loop is for the supervisor, given the
/// system's codes for a protocol error and for a bad message: a violated
/// protocol and a fault of the loop are final, and other failures to read or
/// write mean that the compositor went away.
pub open spec fn loop_failure(
    e: LoopError,
    protocol_error: i32,
    bad_message: i32,
) -> reconnect::RunErrorView {
    match e {
        LoopError::Io { raw_os_error, message } => if raw_os_error == Some(protocol_error)
            || raw_os_error == Some(bad_message) {
            reconnect::RunErrorView::InternalError(
                "Wayland protocol violation (EPROTO/EBADMSG): "@ + message@,
            )
        } else {
            reconnect::RunErrorView::BackendDisconnect
        },
        LoopError::Other { message } => reconnect::RunErrorView::InternalError(
            "calloop internal error: "@ + message@,
        ),
    }
}

/// How a session ended, given how its event loop stopped: without an error
/// because the process was asked to stop, or why it failed.
pub open spec fn session_outcome(
    stopped: Result<(), LoopError>,
    protocol_error: i32,
    bad_message: i32,
) -> Result<ExitReason, reconnect::RunErrorView> {
    match stopped {
        Ok(()) => Ok(ExitReason::Signal),
        Err(e) => Err(loop_failure(e, protocol_error, bad_message)),
    }
}

/// The model of how a session ended.
pub open spec fn outcome_view(outcome: Result<ExitReason, RunError>) -> Result<
    ExitReason,
    reconnect::RunErrorView,
> {
    match outcome {
        Ok(reason) => Ok(reason),
        Err(e) => Err(e@),
    }
}

/// Tells how a session ended, given how its event loop stopped.
pub fn conclude(stopped: Result<(), LoopError>) -> (outcome: Result<ExitReason, RunError>)
    ensures
        match stopped {
            Ok(()) => outcome == Ok::<ExitReason, RunError>(ExitReason::Signal),
            Err(_) => exists|protocol_error: i32, bad_message: i32|
                are_violation_codes(protocol_error, bad_message) && outcome_view(outcome)
                    == #[trigger] session_outcome(stopped, protocol_error, bad_message),
        },
{
    match stopped {
        Ok(()) => Ok(ExitReason::Signal),
        Err(e) => {
            let outcome: Result<ExitReason, RunError> = map_calloop_error(e);
            proof {
                let (protocol_error, bad_message) = choose|protocol_error: i32, bad_message: i32|
                    are_violation_codes(protocol_error, bad_message) && outcome is Err && outcome->Err_0@ == #[trigger] loop_failure(
                        e,
                        protocol_error,
                        bad_message,
                    );
                assert(outcome_view(outcome) == session_outcome(
                    stopped,
                    protocol_error,
                    bad_message,
                ));
            }
            outcome
        },
    }
}

/// `nix::errno::Errno::EPROTO` and `nix::errno::Errno::EBADMSG`: the system's
/// codes for a protocol error and for a bad message. The numbers differ from
/// one system to another, so none is stated.
#[verifier::external_body]
fn protocol_violation_codes() -> (codes: (i32, i32)) {
    (nix::errno::Errno::EPROTO as i32, nix::errno::Errno::EBADMSG as i32)
}

/// Whether the two are the system's codes for a protocol error and for a bad
/// message.
pub closed spec fn are_violation_codes(protocol_error: i32, bad_message: i32) -> bool {
    call_ensures(protocol_violation_codes, (), (protocol_error, bad_message))
}

/// Tells the supervisor why the event loop stopped.
pub fn map_calloop_error(e: LoopError) -> (r: Result<ExitReason, RunError>)
    ensures
        exists|protocol_error: i32, bad_message: i32|
            are_violation_codes(protocol_error, bad_message) && r is Err && r->Err_0@
                == #[trigger] loop_failure(e, protocol_error, bad_message),
{
    let codes: (i32, i32) = protocol_violation_codes();
    map_loop_error_with(e, codes.0, codes.1)
}

/// Tells the supervisor why the event loop stopped, given the system's codes
/// for a protocol error and for a bad message.
pub fn map_loop_error_with(e: LoopError, protocol_error: i32, bad_message: i32) -> (r: Result<
    ExitReason,
    RunError,
>)
    ensures
        r is Err,
        r->Err_0@ == loop_failure(e, protocol_error, bad_message),
{
    match e {
        LoopError::Io { raw_os_error, message } => {
            let violation: bool = match raw_os_error {
                Some(code) => code == protocol_error || code == bad_message,
                None => false,
            };
            if violation {
                Err(
                    RunError::InternalError(
                        "Wayland protocol violation (EPROTO/EBADMSG): ".to_owned().concat(
                            message.as_str(),
                        ),
                    ),
                )
            } else {
                Err(RunError::BackendDisconnect)
            }
        },
        LoopError::Other { message } => Err(
            RunError::InternalError(
                "calloop internal error: ".to_owned().concat(message.as_str()),
            ),
        ),
    }
}

// ---------------------------------------------------------------------------
// Laws
// ---------------------------------------------------------------------------

/// How a start goes on once `passed` steps were passed, where `fault` says
/// what is wrong with each step, if anything: the first fault ends it.
pub open spec fn started(passed: nat, fault: spec_fn(StartupStep) -> Option<Seq<char>>) -> Result<
    (),
    reconnect::RunErrorView,
>
    decreases STARTUP_STEPS - passed,
{
    if passed >= STARTUP_STEPS {
        Ok(())
    } else {
        match fault(step_at(passed)) {
            Some(cause) => Err(
                reconnect::RunErrorView::StartupFailure(startup_message(step_at(passed), cause)),
            ),
            None => started(passed + 1, fault),
        }
    }
}

/// One whole session: the place in the sequence of delays after it, and how it
/// ended. The delays start over once every step of the start was passed.
pub open spec fn session(
    delay_step: nat,
    fault: spec_fn(StartupStep) -> Option<Seq<char>>,
    stopped: Result<(), LoopError>,
    protocol_error: i32,
    bad_message: i32,
) -> (nat, Result<ExitReason, reconnect::RunErrorView>) {
    match started(0, fault) {
        Err(e) => (delay_step, Err(e)),
        Ok(()) => (0, session_outcome(stopped, protocol_error, bad_message)),
    }
}

proof fn lemma_started(passed: nat, fault: spec_fn(StartupStep) -> Option<Seq<char>>)
    ensures
        started(passed, fault) matches Err(e) ==> e is StartupFailure,
        started(passed, fault) is Ok <==> forall|i: nat|
            passed <= i < STARTUP_STEPS ==> fault(#[trigger] step_at(i)) is None,
    decreases STARTUP_STEPS - passed,
{
    if passed < STARTUP_STEPS {
        lemma_started(passed + 1, fault);
        if fault(step_at(passed)) is None && started(passed + 1, fault) is Ok {
            assert forall|i: nat| passed <= i < STARTUP_STEPS implies fault(
                #[trigger] step_at(i),
            ) is None by {
                if i > passed {
                    assert(passed + 1 <= i);
                }
            }
        }
    }
}

/// A session that fails to start leaves the delays as they are, and any other
/// starts them over; it starts exactly if no step is at fault, the check of
/// the required extensions among them.
pub proof fn law_delays_start_over_with_a_session(
    delay_step: nat,
    fault: spec_fn(StartupStep) -> Option<Seq<char>>,
    stopped: Result<(), LoopError>,
    protocol_error: i32,
    bad_message: i32,
)
    ensures
        ({
            let (after, outcome) = session(
                delay_step,
                fault,
                stopped,
                protocol_error,
                bad_message,
            );
            let failed_to_start = outcome matches Err(e) && e is StartupFailure;
            &&& failed_to_start ==> after == delay_step
            &&& !failed_to_start ==> after == 0
            &&& failed_to_start <==> exists|i: nat|
                i < STARTUP_STEPS && fault(#[trigger] step_at(i)) is Some
            &&& fault(StartupStep::RequiredGlobals) is Some ==> failed_to_start
        }),
{
    lemma_started(0, fault);
    assert(step_at(STEPS_BEFORE_GLOBALS as nat) == StartupStep::RequiredGlobals);
}

} // verus!
