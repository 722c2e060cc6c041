use cosmic_ext_window_daemon::app::{
    check_required_globals, check_wayland_session, conclude, map_calloop_error,
    map_loop_error_with, startup_error, LoopError, Startup, StartupStep,
    D8_MISSING_COSMIC_TOPLEVEL_INFO, D8_MISSING_EXT_FOREIGN_TOPLEVEL,
    D8_MISSING_WORKSPACE_MANAGER, STARTUP_STEPS, STEPS_BEFORE_GLOBALS,
};
use cosmic_ext_window_daemon::reconnect::{BackoffState, ExitReason, RunError};

fn loop_error(e: calloop::Error) -> LoopError {
    match e {
        calloop::Error::IoError(io) => LoopError::Io {
            raw_os_error: io.raw_os_error(),
            message: io.to_string(),
        },
        other => LoopError::Other { message: other.to_string() },
    }
}

#[test]
fn map_calloop_error_eproto_routes_to_internal_error() {
    let io_err = std::io::Error::from_raw_os_error(nix::errno::Errno::EPROTO as i32);
    let calloop_err = calloop::Error::IoError(io_err);
    let result = map_calloop_error(loop_error(calloop_err));
    assert!(
        matches!(result, Err(RunError::InternalError(_))),
        "EPROTO must map to InternalError, not BackendDisconnect"
    );
}

#[test]
fn map_calloop_error_ebadmsg_routes_to_internal_error() {
    let io_err = std::io::Error::from_raw_os_error(nix::errno::Errno::EBADMSG as i32);
    let calloop_err = calloop::Error::IoError(io_err);
    let result = map_calloop_error(loop_error(calloop_err));
    assert!(
        matches!(result, Err(RunError::InternalError(_))),
        "EBADMSG must map to InternalError, not BackendDisconnect"
    );
}

#[test]
fn map_calloop_error_generic_io_routes_to_backend_disconnect() {
    // A plain I/O error (e.g. ECONNRESET) must still map to BackendDisconnect.
    let io_err = std::io::Error::from_raw_os_error(nix::errno::Errno::ECONNRESET as i32);
    let calloop_err = calloop::Error::IoError(io_err);
    let result = map_calloop_error(loop_error(calloop_err));
    assert!(
        matches!(result, Err(RunError::BackendDisconnect)),
        "non-EPROTO IoError must map to BackendDisconnect"
    );
}

#[test]
fn check_required_globals_fails_d8_when_cosmic_toplevel_info_missing() {
    let result = check_required_globals(false, true);
    match result {
        Err(RunError::StartupFailure(e)) => {
            assert!(
                e.contains("zcosmic_toplevel_info_v1"),
                "error must name the missing protocol, got: {}",
                e
            );
        }
        other => panic!("expected StartupFailure, got {:?}", other),
    }
}

#[test]
fn check_required_globals_fails_when_workspace_manager_missing() {
    let result = check_required_globals(true, false);
    match result {
        Err(RunError::StartupFailure(e)) => {
            assert!(
                e.contains("ext_workspace_manager_v1"),
                "error must name the missing protocol, got: {}",
                e
            );
        }
        other => panic!("expected StartupFailure, got {:?}", other),
    }
}

#[test]
fn check_required_globals_reports_cosmic_toplevel_first_when_both_missing() {
    let result = check_required_globals(false, false);
    match result {
        Err(RunError::StartupFailure(e)) => {
            assert!(
                e.contains("zcosmic_toplevel_info_v1"),
                "when both missing, must report zcosmic_toplevel_info_v1 first, got: {}",
                e
            );
        }
        other => panic!("expected StartupFailure, got {:?}", other),
    }
}

#[test]
fn d8_cosmic_toplevel_info_error_message_contains_protocol_name() {
    assert!(
        D8_MISSING_COSMIC_TOPLEVEL_INFO.contains("zcosmic_toplevel_info_v1"),
        "error message must name the missing protocol"
    );
}

#[test]
fn d8_cosmic_toplevel_info_error_message_mentions_cosmic_compositor() {
    assert!(
        D8_MISSING_COSMIC_TOPLEVEL_INFO.contains("COSMIC"),
        "error message must mention COSMIC compositor"
    );
}

#[test]
fn d8_workspace_manager_error_message_contains_protocol_name() {
    assert!(
        D8_MISSING_WORKSPACE_MANAGER.contains("ext_workspace_manager_v1"),
        "workspace manager error message must name the missing protocol"
    );
}

#[test]
fn d8_ext_foreign_toplevel_error_message_names_the_protocol() {
    assert!(
        D8_MISSING_EXT_FOREIGN_TOPLEVEL.contains("ext-foreign-toplevel-list-v1"),
        "ext-foreign-toplevel error message must name the missing protocol \
         (ext-foreign-toplevel-list-v1); got: {}",
        D8_MISSING_EXT_FOREIGN_TOPLEVEL
    );
}

#[test]
fn both_globals_present_is_no_error() {
    assert_eq!(check_required_globals(true, true), Ok(()));
}

#[test]
fn loop_errors_carry_their_messages() {
    let io = |code| LoopError::Io { raw_os_error: code, message: "broken".to_string() };
    assert_eq!(
        map_loop_error_with(io(Some(7)), 7, 8),
        Err(RunError::InternalError(
            "Wayland protocol violation (EPROTO/EBADMSG): broken".to_string()
        ))
    );
    assert_eq!(
        map_loop_error_with(io(Some(8)), 7, 8),
        Err(RunError::InternalError(
            "Wayland protocol violation (EPROTO/EBADMSG): broken".to_string()
        ))
    );
    assert_eq!(map_loop_error_with(io(Some(9)), 7, 8), Err(RunError::BackendDisconnect));
    assert_eq!(map_loop_error_with(io(None), 7, 8), Err(RunError::BackendDisconnect));
    assert_eq!(
        map_loop_error_with(LoopError::Other { message: "odd".to_string() }, 7, 8),
        Err(RunError::InternalError("calloop internal error: odd".to_string()))
    );
}

#[test]
fn an_invalid_token_is_a_fault_of_the_loop() {
    let result = map_calloop_error(loop_error(calloop::Error::InvalidToken));
    assert!(matches!(result, Err(RunError::InternalError(e)) if e.starts_with("calloop internal error: ")));
}

#[test]
fn a_session_needs_one_of_two_variables() {
    assert_eq!(check_wayland_session(Some("wayland-0"), None), Ok(()));
    assert_eq!(check_wayland_session(None, Some("3")), Ok(()));
    assert_eq!(check_wayland_session(Some(""), Some("3")), Ok(()));
    let missing = Err(RunError::StartupFailure(
        "neither WAYLAND_DISPLAY nor WAYLAND_SOCKET is set to a non-empty value; \
         cosmic-ext-window-daemon requires a Wayland session"
            .to_string(),
    ));
    assert_eq!(check_wayland_session(None, None), missing);
    assert_eq!(check_wayland_session(Some(""), Some("")), missing);
}

#[test]
fn each_startup_step_has_its_message() {
    let text = |step| match startup_error(step, "why") {
        RunError::StartupFailure(e) => e,
        other => panic!("expected a startup failure, got {:?}", other),
    };
    assert_eq!(text(StartupStep::Connect), "failed to connect to Wayland compositor: why");
    assert_eq!(text(StartupStep::Registry), "registry_queue_init failed: why");
    assert_eq!(text(StartupStep::EventLoop), "calloop EventLoop::try_new failed: why");
    assert_eq!(text(StartupStep::ToplevelInfo), D8_MISSING_EXT_FOREIGN_TOPLEVEL);
    assert_eq!(
        text(StartupStep::ToplevelManager),
        "zcosmic_toplevel_manager_v1 not advertised by the compositor; ensure COSMIC desktop is running"
    );
    assert_eq!(text(StartupStep::RequiredGlobals), "why");
    assert_eq!(text(StartupStep::WaylandSource), "WaylandSource::insert failed: why");
    assert_eq!(text(StartupStep::Signals), "calloop Signals::new failed: why");
    assert_eq!(text(StartupStep::SignalSource), "failed to insert signal source: why");
}

fn begun() -> Startup {
    match Startup::begin(Some("wayland-0"), None) {
        Ok(startup) => startup,
        Err(e) => panic!("expected a start, got {:?}", e),
    }
}

#[test]
fn a_start_needs_a_session() {
    assert!(Startup::begin(None, Some("3")).is_ok());
    match Startup::begin(Some(""), None) {
        Ok(_) => panic!("expected no start"),
        Err(e) => assert_eq!(Err(e), check_wayland_session(None, None)),
    }
}

#[test]
fn a_start_without_the_required_extensions_keeps_the_delays() {
    let mut backoff = BackoffState::new();
    backoff.next_delay_millis();
    let mut startup = begun();
    for i in 0..STEPS_BEFORE_GLOBALS {
        assert_eq!(startup.take(Ok::<usize, String>(i)), Ok(i));
    }
    assert_eq!(startup.take_globals(false, false), check_required_globals(false, false));
    assert_eq!(startup.take_globals(true, false), check_required_globals(true, false));
    assert!(!startup.finish(&mut backoff));
    assert_eq!(backoff.next_delay_millis(), 2_000);
}

#[test]
fn a_session_ends_as_its_event_loop_stops() {
    assert_eq!(conclude(Ok(())), Ok(ExitReason::Signal));
    let reset = std::io::Error::from_raw_os_error(nix::errno::Errno::ECONNRESET as i32);
    assert_eq!(
        conclude(Err(loop_error(calloop::Error::IoError(reset)))),
        Err(RunError::BackendDisconnect)
    );
    let violation = std::io::Error::from_raw_os_error(nix::errno::Errno::EPROTO as i32);
    assert!(matches!(
        conclude(Err(loop_error(calloop::Error::IoError(violation)))),
        Err(RunError::InternalError(_))
    ));
}

#[test]
fn only_a_finished_start_resets_the_delays() {
    let mut backoff = BackoffState::new();
    backoff.next_delay_millis();
    let mut startup = begun();
    for i in 0..STARTUP_STEPS {
        assert!(!startup.finish(&mut backoff));
        if i == STEPS_BEFORE_GLOBALS {
            assert_eq!(startup.take_globals(true, true), Ok(()));
        } else {
            assert_eq!(startup.take(Ok::<usize, String>(i)), Ok(i));
        }
    }
    assert_eq!(backoff.next_delay_millis(), 2_000);
    assert!(startup.finish(&mut backoff));
    assert_eq!(backoff.next_delay_millis(), 1_000);
}

#[test]
fn a_failed_step_is_named_by_its_place() {
    let mut startup = begun();
    assert_eq!(startup.take(Ok::<u8, String>(1)), Ok(1));
    assert_eq!(
        startup.take(Err::<u8, String>("no registry".to_string())),
        Err(startup_error(StartupStep::Registry, "no registry"))
    );
}
