use std::collections::HashSet;

use cosmic_ext_window_daemon::runtime::{evaluate_pending, PendingDecision};

fn ids(values: &[u32]) -> Vec<u32> {
    values.to_vec()
}

fn snapshot(values: &[u32]) -> HashSet<u32> {
    values.iter().copied().collect()
}

#[test]
fn evaluate_pending_keeps_waiting_on_cycle_zero_with_no_new_workspace() {
    // Just after push: cycles_waited=0, no new workspace yet → KeepWaiting.
    let before = snapshot(&[10, 20]);
    let current = ids(&[10, 20]);
    let occupied = vec![true, true];
    assert_eq!(
        evaluate_pending(&before, &current, &occupied, 0),
        PendingDecision::KeepWaiting,
    );
}

#[test]
fn evaluate_pending_finds_new_workspace_on_first_cycle() {
    // After first done(): cycles_waited=1, a new workspace (30) appeared.
    // UseNew with the index of the new workspace.
    let before = snapshot(&[10, 20]);
    let current = ids(&[10, 20, 30]);
    let occupied = vec![true, true, false];
    assert_eq!(
        evaluate_pending(&before, &current, &occupied, 1),
        PendingDecision::UseNew { idx: 2 },
    );
}

#[test]
fn evaluate_pending_finds_new_workspace_even_on_cycle_zero() {
    // A workspace that is there at once is used at once.
    let before = snapshot(&[10, 20]);
    let current = ids(&[10, 20, 30]);
    let occupied = vec![true, true, false];
    assert_eq!(
        evaluate_pending(&before, &current, &occupied, 0),
        PendingDecision::UseNew { idx: 2 },
    );
}

#[test]
fn evaluate_pending_degrades_after_one_cycle_with_no_new_workspace() {
    // After first done(): cycles_waited=1, no new workspace → degrade.
    // next-free is index 0 (the only empty workspace).
    let before = snapshot(&[10, 20, 30]);
    let current = ids(&[10, 20, 30]);
    let occupied = vec![false, true, true];
    assert_eq!(
        evaluate_pending(&before, &current, &occupied, 1),
        PendingDecision::DegradeAndWarn { next_free_idx: Some(0) },
    );
}

#[test]
fn evaluate_pending_degrades_with_no_fallback_when_group_fully_occupied() {
    // No new workspace, no empty fallback either — caller will skip with a WARN.
    let before = snapshot(&[10, 20]);
    let current = ids(&[10, 20]);
    let occupied = vec![true, true];
    assert_eq!(
        evaluate_pending(&before, &current, &occupied, 1),
        PendingDecision::DegradeAndWarn { next_free_idx: None },
    );
}

#[test]
fn evaluate_pending_picks_first_new_when_multiple_appeared() {
    // If the compositor created multiple workspaces in one cycle, use the
    // first one in iteration order (deterministic per the workspace_state
    // iterator's order).
    let before = snapshot(&[10]);
    let current = ids(&[10, 30, 31]);
    let occupied = vec![true, false, false];
    assert_eq!(
        evaluate_pending(&before, &current, &occupied, 1),
        PendingDecision::UseNew { idx: 1 }, // first new at index 1
    );
}

#[test]
fn evaluate_pending_treats_re_use_of_old_handle_as_no_new_workspace() {
    // Edge case: a workspace from the snapshot was removed AND a new one
    // appeared but with an ID we'd already seen — shouldn't happen in
    // practice (handles are not reused within a session) but defensive.
    let before = snapshot(&[10, 20, 30]);
    let current = ids(&[10, 20]); // 30 disappeared, no new ones
    let occupied = vec![true, true];
    assert_eq!(
        evaluate_pending(&before, &current, &occupied, 1),
        PendingDecision::DegradeAndWarn { next_free_idx: None },
    );
}

#[test]
fn evaluate_pending_takes_lists_of_different_lengths() {
    let before = snapshot(&[10]);
    assert_eq!(
        evaluate_pending(&before, &ids(&[10]), &[true, false], 1),
        PendingDecision::DegradeAndWarn { next_free_idx: Some(1) },
    );
    assert_eq!(
        evaluate_pending(&before, &ids(&[]), &[], 7),
        PendingDecision::DegradeAndWarn { next_free_idx: None },
    );
}
