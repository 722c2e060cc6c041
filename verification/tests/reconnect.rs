use std::sync::atomic::{AtomicBool, Ordering};
use std::sync::{Arc, Mutex};
use std::time::Duration;

use cosmic_ext_window_daemon::config::{Config, WorkspaceMode};
use cosmic_ext_window_daemon::reconnect::{
    BackoffState, ExitReason, RunError, Supervisor, SupervisorAction, SLEEP_POLL_INTERVAL_MILLIS,
};

const SLEEP_POLL_INTERVAL: Duration = Duration::from_millis(SLEEP_POLL_INTERVAL_MILLIS);

/// Does what the supervisor asks until it says what to return.
fn run_with_sleep<F>(
    supervisor: &mut Supervisor<F>,
    shutdown_flag: Arc<AtomicBool>,
    mut sleep_fn: impl FnMut(Duration),
) -> Result<(), String>
where
    F: FnMut(&Arc<Config>, &mut BackoffState) -> Result<ExitReason, RunError>,
{
    loop {
        match supervisor.poll(shutdown_flag.load(Ordering::Relaxed)) {
            SupervisorAction::Exit => return Ok(()),
            SupervisorAction::Sleep { millis } => sleep_fn(Duration::from_millis(millis)),
            SupervisorAction::Connect => {
                let outcome = supervisor.connect();
                if let Some(verdict) = supervisor.session_ended(outcome) {
                    return verdict;
                }
            }
        }
    }
}

#[test]
fn backoff_advances_through_sequence() {
    let mut b = BackoffState::new();
    assert_eq!(b.next_delay(), Duration::from_secs(1));
    assert_eq!(b.next_delay(), Duration::from_secs(2));
    assert_eq!(b.next_delay(), Duration::from_secs(5));
    assert_eq!(b.next_delay(), Duration::from_secs(10));
    assert_eq!(b.next_delay(), Duration::from_secs(30));
}

#[test]
fn backoff_caps_at_thirty_seconds() {
    let mut b = BackoffState::new();
    // Drain through the full sequence
    for _ in 0..5 {
        b.next_delay();
    }
    // All subsequent calls return 30s
    assert_eq!(b.next_delay(), Duration::from_secs(30));
    assert_eq!(b.next_delay(), Duration::from_secs(30));
    assert_eq!(b.next_delay(), Duration::from_secs(30));
}

#[test]
fn backoff_resets_to_one_second() {
    let mut b = BackoffState::new();
    b.next_delay(); // 1s
    b.next_delay(); // 2s
    b.next_delay(); // 5s
    b.reset();
    assert_eq!(b.next_delay(), Duration::from_secs(1));
}

#[test]
fn backoff_reset_after_full_sequence_returns_to_one_second() {
    let mut b = BackoffState::new();
    for _ in 0..10 {
        b.next_delay();
    }
    b.reset();
    assert_eq!(b.next_delay(), Duration::from_secs(1));
    assert_eq!(b.next_delay(), Duration::from_secs(2));
}

#[test]
fn backoff_starts_at_one_second_on_new() {
    let mut b = BackoffState::new();
    assert_eq!(b.next_delay(), Duration::from_secs(1));
}

#[test]
fn backoff_default_starts_at_one_second() {
    let mut b = BackoffState::default();
    assert_eq!(b.next_delay(), Duration::from_secs(1));
}

#[test]
fn backoff_sequence_matches_d11_spec_exactly() {
    let mut b = BackoffState::new();
    let expected = [1u64, 2, 5, 10, 30, 30, 30];
    for secs in expected {
        assert_eq!(b.next_delay(), Duration::from_secs(secs));
    }
}

fn test_config() -> Config {
    Config {
        workspace_mode: WorkspaceMode::NextFree,
        maximize: false,
        switch_to_workspace: false,
        switch_verify_timeout: None,
        excluded_app_ids: vec![],
        excluded_title_regex: None,
        workspace_output: None,
        jump_on_empty: false,
    }
}

fn no_shutdown() -> Arc<AtomicBool> {
    Arc::new(AtomicBool::new(false))
}

#[test]
fn supervisor_exits_cleanly_on_signal() {
    // connect_fn immediately returns Signal — Supervisor must return Ok(()).
    let call_count = Arc::new(Mutex::new(0u32));
    let call_count_clone = call_count.clone();

    let mut supervisor = Supervisor::with_connect_fn(test_config(), move |_cfg, _backoff| {
        let mut n = call_count_clone.lock().unwrap();
        *n += 1;
        Ok(ExitReason::Signal)
    });

    let result = run_with_sleep(&mut supervisor, no_shutdown(), |_| {});
    assert!(result.is_ok(), "expected Ok on clean signal, got {:?}", result);
    assert_eq!(*call_count.lock().unwrap(), 1, "connect_fn must be called exactly once");
}

#[test]
fn supervisor_retries_on_backend_disconnect_then_exits_on_signal() {
    // connect_fn: fail twice with BackendDisconnect, then return Signal.
    // Supervisor must retry (call count = 3) and return Ok(()).
    let call_count = Arc::new(Mutex::new(0u32));
    let call_count_clone = call_count.clone();

    let mut supervisor = Supervisor::with_connect_fn(test_config(), move |_cfg, backoff| {
        let mut n = call_count_clone.lock().unwrap();
        *n += 1;
        let attempt = *n;
        drop(n);

        if attempt <= 2 {
            Err(RunError::BackendDisconnect)
        } else {
            // Simulate successful reconnect: reset the backoff cursor.
            backoff.reset();
            Ok(ExitReason::Signal)
        }
    });

    let result = run_with_sleep(&mut supervisor, no_shutdown(), |_| {});
    assert!(result.is_ok(), "expected Ok after reconnect, got {:?}", result);
    assert_eq!(*call_count.lock().unwrap(), 3, "connect_fn must be called 3 times");
}

#[test]
fn supervisor_propagates_startup_failure_without_retry() {
    // connect_fn: return StartupFailure — Supervisor must NOT retry; return Err.
    let call_count = Arc::new(Mutex::new(0u32));
    let call_count_clone = call_count.clone();

    let mut supervisor = Supervisor::with_connect_fn(test_config(), move |_cfg, _backoff| {
        let mut n = call_count_clone.lock().unwrap();
        *n += 1;
        Err(RunError::StartupFailure("missing cosmic extension".to_string()))
    });

    let result = run_with_sleep(&mut supervisor, no_shutdown(), |_| {});
    assert!(result.is_err(), "expected Err on startup failure");
    assert_eq!(*call_count.lock().unwrap(), 1, "must not retry on startup failure");
}

#[test]
fn supervisor_propagates_internal_error_without_retry() {
    // RunError::InternalError must NOT be retried — same fail-fast as StartupFailure.
    let call_count = Arc::new(Mutex::new(0u32));
    let call_count_clone = call_count.clone();

    let mut supervisor = Supervisor::with_connect_fn(test_config(), move |_cfg, _backoff| {
        let mut n = call_count_clone.lock().unwrap();
        *n += 1;
        Err(RunError::InternalError("calloop InvalidToken".to_string()))
    });

    let result = run_with_sleep(&mut supervisor, no_shutdown(), |_| {});
    assert!(result.is_err(), "expected Err on internal error");
    assert_eq!(*call_count.lock().unwrap(), 1, "must not retry on internal error");
}

#[test]
fn shutdown_flag_set_during_backoff_exits_before_next_connect() {
    // The compositor goes away, and the flag is set during the first sleep.
    let call_count = Arc::new(Mutex::new(0u32));
    let call_count_clone = call_count.clone();
    let flag = Arc::new(AtomicBool::new(false));
    let flag_for_sleep = flag.clone();

    let mut supervisor = Supervisor::with_connect_fn(test_config(), move |_cfg, _backoff| {
        let mut n = call_count_clone.lock().unwrap();
        *n += 1;
        Err(RunError::BackendDisconnect)
    });

    let result = run_with_sleep(&mut supervisor, flag.clone(), move |_d| {
        // Set the flag on first sleep call — simulates SIGTERM during backoff.
        flag_for_sleep.store(true, Ordering::Relaxed);
    });

    assert!(result.is_ok(), "expected Ok when shutdown flag set during backoff");
    // connect_fn called once (the disconnect); NOT called a second time
    // because the flag was set during the sleep phase.
    assert_eq!(
        *call_count.lock().unwrap(),
        1,
        "connect_fn must not be called again after shutdown flag set during backoff"
    );
}

#[test]
fn d11_delay_sequence_captured_correctly() {
    let captured = Arc::new(Mutex::new(Vec::<Duration>::new()));
    let captured_sleep = captured.clone();
    let call_count = Arc::new(Mutex::new(0u32));
    let call_count_fn = call_count.clone();

    let mut supervisor = Supervisor::with_connect_fn(test_config(), move |_cfg, backoff| {
        let mut n = call_count_fn.lock().unwrap();
        *n += 1;
        let attempt = *n;
        drop(n);
        if attempt <= 2 {
            Err(RunError::BackendDisconnect)
        } else {
            backoff.reset();
            Ok(ExitReason::Signal)
        }
    });

    // Sleep function accumulates all sub-interval calls.
    run_with_sleep(&mut supervisor, no_shutdown(), |d| {
        captured_sleep.lock().unwrap().push(d);
    }).unwrap();

    let all_sleeps = captured.lock().unwrap().clone();
    let first_delay_total: Duration = all_sleeps.iter().take(
        // Count slices for the first 1s delay
        (Duration::from_secs(1).as_millis() / SLEEP_POLL_INTERVAL.as_millis()) as usize
    ).sum();
    let second_delay_total: Duration = all_sleeps.iter().skip(
        (Duration::from_secs(1).as_millis() / SLEEP_POLL_INTERVAL.as_millis()) as usize
    ).sum();

    assert_eq!(first_delay_total, Duration::from_secs(1),
        "first backoff delay must be 1s");
    assert_eq!(second_delay_total, Duration::from_secs(2),
        "second backoff delay must be 2s");
}

#[test]
fn errors_have_their_messages() {
    assert_eq!(
        RunError::StartupFailure("no session".to_string()).message(),
        "startup failure: no session"
    );
    assert_eq!(RunError::BackendDisconnect.message(), "Wayland compositor disconnected");
    assert_eq!(
        RunError::InternalError("bad token".to_string()).message(),
        "internal event loop error: bad token"
    );
}

#[test]
fn the_supervisor_alternates_between_sleeping_and_connecting() {
    let mut supervisor =
        Supervisor::with_connect_fn(test_config(), |_cfg, _backoff| Err(RunError::BackendDisconnect));
    assert_eq!(supervisor.poll(false), SupervisorAction::Connect);
    let outcome = supervisor.connect();
    assert_eq!(supervisor.session_ended(outcome), None);
    for _ in 0..20 {
        assert_eq!(supervisor.poll(false), SupervisorAction::Sleep { millis: 50 });
    }
    assert_eq!(supervisor.poll(false), SupervisorAction::Connect);
    assert_eq!(supervisor.poll(true), SupervisorAction::Exit);
}

#[test]
fn a_failed_session_returns_its_message() {
    let mut supervisor = Supervisor::with_connect_fn(test_config(), |_cfg, _backoff| {
        Err(RunError::StartupFailure("no compositor".to_string()))
    });
    let result = run_with_sleep(&mut supervisor, no_shutdown(), |_| {});
    assert_eq!(result, Err("no compositor".to_string()));
}

#[test]
fn a_session_gets_the_configuration() {
    let mut config = test_config();
    config.maximize = true;
    let mut supervisor = Supervisor::with_connect_fn(config, |cfg, _backoff| {
        assert!(cfg.maximize);
        Ok(ExitReason::Signal)
    });
    assert_eq!(run_with_sleep(&mut supervisor, no_shutdown(), |_| {}), Ok(()));
}

#[test]
fn a_shutdown_before_the_first_session_starts_none() {
    let mut supervisor = Supervisor::with_connect_fn(
        test_config(),
        |_cfg, _backoff| -> Result<ExitReason, RunError> { panic!("no session may start") },
    );
    let flag = Arc::new(AtomicBool::new(true));
    assert_eq!(run_with_sleep(&mut supervisor, flag, |_| {}), Ok(()));
}
