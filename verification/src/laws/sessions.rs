//! How sessions start, end and follow one another, stated over what happened.

use vstd::prelude::*;

use crate::app;
use crate::app::{LoopError, StartupStep};
use crate::reconnect;
use crate::reconnect::{ExitReason, RunError, SupervisorAction};
use crate::runtime;
use crate::wayland;

verus! {

/// The delays, in milliseconds: one, two, five, ten and thirty seconds, each
/// after the one before it, and thirty from then on.
pub proof fn law_delays(step: nat)
    ensures
        reconnect::delay_millis(0) == 1_000 && reconnect::next_step(0) == 1,
        reconnect::delay_millis(1) == 2_000 && reconnect::next_step(1) == 2,
        reconnect::delay_millis(2) == 5_000 && reconnect::next_step(2) == 3,
        reconnect::delay_millis(3) == 10_000 && reconnect::next_step(3) == 4,
        step >= 4 ==> reconnect::delay_millis(step) == 30_000 && reconnect::next_step(step) == 4,
{
}

/// Asked to stop, the supervisor exits. Else it connects once nothing is left
/// of the delay, and until then sleeps for what is left, fifty milliseconds at
/// most, which is then left no more.
pub proof fn law_what_is_done_next(v: reconnect::SupervisorView)
    ensures
        v.action(true) == SupervisorAction::Exit && v.polled(true) == v,
        v.remaining == 0 ==> v.action(false) == SupervisorAction::Connect && v.polled(false) == v,
        0 < v.remaining <= 50 ==> v.action(false) == (SupervisorAction::Sleep {
            millis: v.remaining as u64,
        }) && v.polled(false) == (reconnect::SupervisorView { remaining: 0, ..v }),
        v.remaining > 50 ==> v.action(false) == (SupervisorAction::Sleep { millis: 50 })
            && v.polled(false) == (reconnect::SupervisorView {
            remaining: (v.remaining - 50) as nat,
            ..v
        }),
{
}

/// A session that ends because the process was asked to stop ends the process
/// well; one that fails ends it with what went wrong; one that loses the
/// compositor is followed by another, after the delay whose turn it is.
pub proof fn law_what_follows_a_session(
    v: reconnect::SupervisorView,
    outcome: Result<ExitReason, RunError>,
)
    ensures
        ({
            let end = reconnect::session_end(outcome);
            match outcome {
                Ok(_) => {
                    &&& reconnect::verdict(end) == Some(Ok::<(), Seq<char>>(()))
                    &&& v.ended(end) == v
                },
                Err(RunError::StartupFailure(e)) => {
                    &&& reconnect::verdict(end) == Some(Err::<(), Seq<char>>(e@))
                    &&& v.ended(end) == v
                },
                Err(RunError::InternalError(e)) => {
                    &&& reconnect::verdict(end) == Some(Err::<(), Seq<char>>(e@))
                    &&& v.ended(end) == v
                },
                Err(RunError::BackendDisconnect) => {
                    &&& reconnect::verdict(end) is None
                    &&& v.ended(end).remaining == reconnect::delay_millis(v.step)
                    &&& v.ended(end).step == reconnect::next_step(v.step)
                },
            }
        }),
{
}

/// A failure to read or write is final where its code is one of the two that
/// tell of a violated protocol, and else means that the compositor went away;
/// any other failure is final.
pub proof fn law_why_the_loop_stopped(
    code: i32,
    message: String,
    protocol_error: i32,
    bad_message: i32,
)
    ensures
        code == protocol_error || code == bad_message ==> app::loop_failure(
            LoopError::Io { raw_os_error: Some(code), message },
            protocol_error,
            bad_message,
        ) == reconnect::RunErrorView::InternalError(
            "Wayland protocol violation (EPROTO/EBADMSG): "@ + message@,
        ),
        code != protocol_error && code != bad_message ==> app::loop_failure(
            LoopError::Io { raw_os_error: Some(code), message },
            protocol_error,
            bad_message,
        ) == reconnect::RunErrorView::BackendDisconnect,
        app::loop_failure(
            LoopError::Io { raw_os_error: None, message },
            protocol_error,
            bad_message,
        ) == reconnect::RunErrorView::BackendDisconnect,
        app::loop_failure(LoopError::Other { message }, protocol_error, bad_message)
            == reconnect::RunErrorView::InternalError("calloop internal error: "@ + message@),
{
}

/// The steps of a start come in this order.
pub proof fn law_order_of_steps()
    ensures
        forall|i: nat|
            i < 9 ==> #[trigger] app::step_at(i) == seq![
                StartupStep::Connect,
                StartupStep::Registry,
                StartupStep::EventLoop,
                StartupStep::ToplevelInfo,
                StartupStep::ToplevelManager,
                StartupStep::RequiredGlobals,
                StartupStep::WaylandSource,
                StartupStep::Signals,
                StartupStep::SignalSource,
            ][i as int],
        app::STARTUP_STEPS == 9,
        app::STEPS_BEFORE_GLOBALS == 5,
{
}

/// A start goes on past each step that is in order, and ends at the first that
/// is not, with what is said of that step.
pub proof fn law_start_ends_at_first_fault(
    fault: spec_fn(StartupStep) -> Option<Seq<char>>,
    i: nat,
)
    requires
        i < 9,
        fault(app::step_at(i)) is Some,
        forall|k: nat| k < i ==> fault(#[trigger] app::step_at(k)) is None,
    ensures
        app::started(0, fault) == Err::<(), reconnect::RunErrorView>(
            reconnect::RunErrorView::StartupFailure(
                app::startup_message(app::step_at(i), fault(app::step_at(i))->Some_0),
            ),
        ),
{
    lemma_start_ends(0, fault, i);
}

proof fn lemma_start_ends(
    passed: nat,
    fault: spec_fn(StartupStep) -> Option<Seq<char>>,
    i: nat,
)
    requires
        passed <= i < 9,
        fault(app::step_at(i)) is Some,
        forall|k: nat| k < i ==> fault(#[trigger] app::step_at(k)) is None,
    ensures
        app::started(passed, fault) == Err::<(), reconnect::RunErrorView>(
            reconnect::RunErrorView::StartupFailure(
                app::startup_message(app::step_at(i), fault(app::step_at(i))->Some_0),
            ),
        ),
    decreases i - passed,
{
    if passed < i {
        assert(fault(app::step_at(passed)) is None);
        lemma_start_ends(passed + 1, fault, i);
    }
}

/// What is said of each step that fails.
pub proof fn law_what_is_said_of_a_step(cause: Seq<char>)
    ensures
        app::startup_message(StartupStep::Connect, cause)
            == "failed to connect to Wayland compositor: "@ + cause,
        app::startup_message(StartupStep::Registry, cause) == "registry_queue_init failed: "@
            + cause,
        app::startup_message(StartupStep::EventLoop, cause)
            == "calloop EventLoop::try_new failed: "@ + cause,
        app::startup_message(StartupStep::ToplevelInfo, cause)
            == app::D8_MISSING_EXT_FOREIGN_TOPLEVEL@,
        app::startup_message(StartupStep::ToplevelManager, cause) == app::MISSING_TOPLEVEL_MANAGER@,
        app::startup_message(StartupStep::RequiredGlobals, cause) == cause,
        app::startup_message(StartupStep::WaylandSource, cause) == "WaylandSource::insert failed: "@
            + cause,
        app::startup_message(StartupStep::Signals, cause) == "calloop Signals::new failed: "@
            + cause,
        app::startup_message(StartupStep::SignalSource, cause)
            == "failed to insert signal source: "@ + cause,
{
}

/// Of the two extensions that are required, the one for windows is missed
/// first; with both there nothing is missed.
pub proof fn law_missing_extensions(has_workspace_manager: bool)
    ensures
        app::missing_global(false, has_workspace_manager) == Some(
            app::D8_MISSING_COSMIC_TOPLEVEL_INFO@,
        ),
        app::missing_global(true, false) == Some(app::D8_MISSING_WORKSPACE_MANAGER@),
        app::missing_global(true, true) is None,
{
}

/// What the operator reads of a session, of a transaction or of a placement that
/// failed.
pub proof fn law_messages_of_failures(e: String)
    ensures
        reconnect::RunErrorView::StartupFailure(e@).message() == "startup failure: "@ + e@,
        reconnect::RunErrorView::InternalError(e@).message() == "internal event loop error: "@ + e@,
        reconnect::RunErrorView::BackendDisconnect.message() == "Wayland compositor disconnected"@,
        wayland::workspace::WorkspaceTxError::ManagerUnavailable.text()
            == "ext_workspace_manager_v1 not available"@,
        wayland::workspace::WorkspaceTxError::Other(e).text() == "workspace transaction error: "@
            + e@,
        runtime::PlaceError::CreateUnavailable.text() == "workspace manager unavailable: "@
            + "ext_workspace_manager_v1 not available"@,
        runtime::PlaceError::ActivateUnavailable.text()
            == "workspace manager unavailable for activate: "@
            + "ext_workspace_manager_v1 not available"@,
{
}

} // verus!
