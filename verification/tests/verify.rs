use cosmic_ext_window_daemon::verify::{VerifierState, VerifyEvent};

fn state(n: usize) -> VerifierState {
    VerifierState::new(n)
}

fn state_default() -> VerifierState {
    VerifierState::new(3)
}

#[test]
fn record_attempt_adds_handle_to_pending_and_attempted_distinct() {
    let mut v = state_default();
    v.record_attempt(1, Some(100));
    assert!(v.is_pending(1));
    assert_eq!(v.attempted_distinct_count(), 1);
}

#[test]
fn record_attempt_with_no_timer_still_tracks_in_attempted_distinct() {
    let mut v = state_default();
    v.record_attempt(1, None);
    assert!(!v.is_pending(1));
    assert_eq!(v.attempted_distinct_count(), 1);
}

#[test]
fn record_confirm_removes_handle_from_pending_and_sets_ever_confirmed() {
    let mut v = state_default();
    v.record_attempt(1, Some(100));
    v.record_confirm(1);
    assert!(!v.is_pending(1));
    assert!(v.ever_confirmed());
}

#[test]
fn record_confirm_clears_attempted_distinct_and_info_emitted() {
    let mut v = state_default();
    v.record_attempt(1, Some(100));
    v.record_attempt(2, Some(200));
    // Manually mark info emitted for handle 1
    let _ = v.record_timeout(1); // advances info_emitted
    v.record_confirm(2);
    assert_eq!(v.attempted_distinct_count(), 0);
    assert!(!v.info_was_emitted(1));
}

#[test]
fn record_confirm_does_not_clear_process_warn_fired() {
    let mut v = state(1); // N=1 so WARN fires on first timeout
    v.record_attempt(1, Some(100));
    let event = v.record_timeout(1);
    assert!(matches!(event, VerifyEvent::InfoAndWarn));
    assert!(v.process_warn_fired());

    // Now confirm handle 2 — process_warn_fired should still be true
    v.record_attempt(2, Some(200));
    v.record_confirm(2);
    assert!(v.process_warn_fired());
}

#[test]
fn verifier_emits_info_once_per_handle_on_first_timeout() {
    let mut v = state_default();
    v.record_attempt(1, Some(100));
    let event = v.record_timeout(1);
    assert!(matches!(event, VerifyEvent::InfoOnceForHandle | VerifyEvent::InfoAndWarn));
    assert!(v.info_was_emitted(1));
}

#[test]
fn verifier_does_not_emit_info_again_for_same_handle_on_second_timeout() {
    let mut v = state_default();
    v.record_attempt(1, Some(100));
    let first = v.record_timeout(1);
    assert!(matches!(first, VerifyEvent::InfoOnceForHandle));

    // Second timeout for the same handle
    let second = v.record_timeout(1);
    assert_eq!(second, VerifyEvent::Nothing);
}

#[test]
fn verifier_emits_warn_once_after_n_distinct_timeouts() {
    let mut v = state(3); // N=3
    v.record_attempt(1, Some(101));
    v.record_attempt(2, Some(102));
    v.record_attempt(3, Some(103));
    // attempted_distinct.len() is now 3 (all attempted before any timeout).
    // First timeout: INFO fires AND WARN fires (N >= 3 and no confirmation yet).

    let e1 = v.record_timeout(1);
    assert!(
        matches!(e1, VerifyEvent::InfoAndWarn),
        "1st timeout when 3 already attempted: INFO + WARN, got {e1:?}"
    );
    assert!(v.process_warn_fired());

    let e2 = v.record_timeout(2);
    assert_eq!(e2, VerifyEvent::InfoOnceForHandle, "2nd timeout: only INFO (WARN already fired)");

    let e3 = v.record_timeout(3);
    assert_eq!(e3, VerifyEvent::InfoOnceForHandle, "3rd timeout: only INFO");
}

#[test]
fn verifier_does_not_emit_warn_again_after_process_warn_fired() {
    let mut v = state(1); // N=1
    v.record_attempt(1, Some(101));
    let e1 = v.record_timeout(1);
    assert!(matches!(e1, VerifyEvent::InfoAndWarn)); // WARN fires here

    // Additional distinct handles timing out
    v.record_attempt(2, Some(102));
    let e2 = v.record_timeout(2);
    assert_eq!(e2, VerifyEvent::InfoOnceForHandle); // No second WARN
}

#[test]
fn verifier_does_not_emit_warn_when_ever_confirmed() {
    let mut v = state(1); // N=1
    v.record_attempt(1, Some(101));
    v.record_confirm(1); // ever_confirmed = true; attempted_distinct cleared

    v.record_attempt(2, Some(102));
    let event = v.record_timeout(2);
    // INFO fires (new handle), but WARN does NOT because ever_confirmed
    assert_eq!(event, VerifyEvent::InfoOnceForHandle);
    assert!(!v.process_warn_fired());
}

#[test]
fn verifier_clears_suspicion_after_confirmation() {
    let mut v = state(3); // N=3
    v.record_attempt(1, Some(101));
    v.record_attempt(2, Some(102));
    let _ = v.record_timeout(1); // 1 distinct timed out
    let _ = v.record_timeout(2); // 2 distinct timed out — not yet N=3

    // Confirm handle 3 before reaching N
    v.record_attempt(3, Some(103));
    v.record_confirm(3);
    assert!(v.ever_confirmed());
    assert_eq!(v.attempted_distinct_count(), 0, "confirm should clear attempted_distinct");

    // Now more handles time out — WARN must NOT fire
    v.record_attempt(4, Some(104));
    v.record_attempt(5, Some(105));
    v.record_attempt(6, Some(106));
    let _ = v.record_timeout(4);
    let _ = v.record_timeout(5);
    let e6 = v.record_timeout(6);
    // ever_confirmed is true → no WARN
    assert!(!matches!(e6, VerifyEvent::WarnOnceForProcess | VerifyEvent::InfoAndWarn));
    assert!(!v.process_warn_fired());
}

#[test]
fn record_timeout_removes_handle_from_pending() {
    let mut v = state_default();
    v.record_attempt(1, Some(100));
    assert!(v.is_pending(1));
    let _ = v.record_timeout(1);
    assert!(!v.is_pending(1));
}

#[test]
fn verifier_warn_fires_when_attempted_distinct_reaches_exactly_threshold() {
    // N=2: both attempts happen first, so the FIRST timeout (with 2 already attempted)
    // triggers the WARN.
    let mut v = state(2); // N=2
    v.record_attempt(1, Some(101));
    v.record_attempt(2, Some(102));
    // attempted_distinct.len() == 2 == N at first timeout.

    let e1 = v.record_timeout(1);
    assert!(
        matches!(e1, VerifyEvent::InfoAndWarn),
        "1st timeout when 2 already attempted (at threshold): WARN expected, got {e1:?}"
    );

    let e2 = v.record_timeout(2);
    assert_eq!(e2, VerifyEvent::InfoOnceForHandle, "2nd timeout: only INFO (warn already fired)");
}

#[test]
fn verifier_warn_fires_on_nth_attempt_not_nth_timeout() {
    // Interleaved: attempt → timeout → attempt → timeout → attempt → timeout.
    // With N=3, WARN fires on the 3rd timeout (3rd distinct attempt, all timed out).
    let mut v = state(3);
    v.record_attempt(1, Some(101));
    let e1 = v.record_timeout(1);
    assert_eq!(e1, VerifyEvent::InfoOnceForHandle, "1 attempted+timed out, only INFO");

    v.record_attempt(2, Some(102));
    let e2 = v.record_timeout(2);
    assert_eq!(e2, VerifyEvent::InfoOnceForHandle, "2 attempted+timed out, only INFO");

    v.record_attempt(3, Some(103));
    let e3 = v.record_timeout(3);
    // Now attempted_distinct.len() == 3 == N: WARN fires.
    assert!(
        matches!(e3, VerifyEvent::InfoAndWarn),
        "3rd distinct attempt+timeout: INFO + WARN expected, got {e3:?}"
    );
}

#[test]
fn a_stopped_timer_makes_way_for_another() {
    let mut v = state_default();
    v.record_attempt(1, Some(100));
    v.record_cancel(1);
    assert!(!v.is_pending(1));
    assert_eq!(v.attempted_distinct_count(), 1);
    v.record_attempt(1, Some(101));
    assert!(v.is_pending(1));
    assert_eq!(v.attempted_distinct_count(), 1);
    v.record_attempt(1, None);
    assert!(v.is_pending(1));
}

#[test]
fn a_verifier_may_start_with_the_warning_given() {
    let mut v = VerifierState::resumed(1, true);
    v.record_attempt(1, Some(100));
    assert_eq!(v.record_timeout(1), VerifyEvent::InfoOnceForHandle);
    assert!(v.process_warn_fired());
    assert!(!VerifierState::resumed(1, false).process_warn_fired());
}

#[test]
fn a_timeout_without_attempt_only_informs() {
    let mut v = state(1);
    assert_eq!(v.record_timeout(99), VerifyEvent::InfoOnceForHandle);
    assert_eq!(v.attempted_distinct_count(), 0);
    assert!(!v.process_warn_fired());
}

#[test]
fn the_warning_can_come_without_the_report() {
    let mut v = state(2);
    v.record_attempt(1, Some(1));
    assert_eq!(v.record_timeout(1), VerifyEvent::InfoOnceForHandle);
    v.record_attempt(2, Some(2));
    assert_eq!(v.record_timeout(1), VerifyEvent::WarnOnceForProcess);
    assert_eq!(v.record_timeout(1), VerifyEvent::Nothing);
}

#[test]
fn a_workspace_is_reported_again_after_a_confirmation() {
    let mut v = state_default();
    v.record_attempt(1, Some(1));
    assert_eq!(v.record_timeout(1), VerifyEvent::InfoOnceForHandle);
    v.record_confirm(2);
    assert_eq!(v.record_timeout(1), VerifyEvent::InfoOnceForHandle);
}

#[test]
fn an_event_says_what_to_log() {
    let says = |e: VerifyEvent| (e.informs(), e.warns());
    assert_eq!(says(VerifyEvent::Nothing), (false, false));
    assert_eq!(says(VerifyEvent::InfoOnceForHandle), (true, false));
    assert_eq!(says(VerifyEvent::WarnOnceForProcess), (false, true));
    assert_eq!(says(VerifyEvent::InfoAndWarn), (true, true));
}
