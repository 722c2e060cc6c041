use std::sync::Arc;
use std::time::Duration;

use cosmic_ext_window_daemon::config::{from_env_source, Config};
use cosmic_ext_window_daemon::effects::{Effect, Warning};
use cosmic_ext_window_daemon::jump::JumpOutcome;
use cosmic_ext_window_daemon::mru_jump::NoOpReason;
use cosmic_ext_window_daemon::placement::{PostPlaceActions, SkipReason};
use cosmic_ext_window_daemon::runtime::{
    emit_verify_event, handle_new_toplevel_given, scan_pending_placements, DeferredResult,
    NotConfirmed, NotHonored, PlaceError, PlaceOutcome, VerifyReport,
};
use cosmic_ext_window_daemon::state::AppData;
use cosmic_ext_window_daemon::verify::VerifyEvent;
use cosmic_ext_window_daemon::wayland::toplevel::{new_toplevel, toplevel_closed};
use cosmic_ext_window_daemon::wayland::workspace::done;
use cosmic_ext_window_daemon::world::{
    Output, Toplevel, Workspace, WorkspaceGroup, World, CAPABILITY_CREATE_WORKSPACE, STATE_ACTIVE,
};

const MANAGER: u64 = 5;
const GROUP: u64 = 10;
const OUTPUT: u64 = 20;

fn config(pairs: &[(&str, &str)]) -> Config {
    from_env_source(|key: &str| {
        pairs.iter().find(|(name, _)| *name == key).map(|(_, value)| value.to_string())
    })
    .unwrap()
}

fn app(pairs: &[(&str, &str)]) -> AppData {
    AppData::new(Arc::new(config(pairs)))
}

fn window(handle: u64, workspaces: &[u64]) -> Toplevel {
    Toplevel {
        handle,
        cosmic_handle: Some(handle + 1000),
        app_id: "foot".to_string(),
        title: "shell".to_string(),
        outputs: vec![OUTPUT],
        workspaces: workspaces.to_vec(),
    }
}

fn workspace(handle: u64, active: bool) -> Workspace {
    Workspace {
        handle,
        coordinates: vec![handle as u32],
        state: if active { STATE_ACTIVE } else { 0 },
    }
}

/// One group on one output, with the workspaces 100 (active), 101 and 102.
fn world(toplevels: Vec<Toplevel>) -> World {
    World {
        outputs: vec![Output { handle: OUTPUT, name: Some("DP-1".to_string()) }],
        toplevels,
        workspaces: vec![workspace(100, true), workspace(101, false), workspace(102, false)],
        groups: vec![WorkspaceGroup {
            handle: GROUP,
            capabilities: CAPABILITY_CREATE_WORKSPACE,
            outputs: vec![OUTPUT],
            workspaces: vec![100, 101, 102],
        }],
        manager: Some(MANAGER),
    }
}

fn moved(window: u64, workspace: u64) -> Effect {
    Effect::MoveToWorkspace { toplevel: window + 1000, workspace, output: OUTPUT }
}

fn commit() -> Effect {
    Effect::Commit { manager: MANAGER }
}

#[test]
fn a_session_starts_with_a_clean_state() {
    let app = app(&[]);
    assert!(app.handled.is_empty());
    assert!(app.pending_placements.is_empty());
    assert!(app.recent_workspaces.is_empty());
    assert!(app.last_known_active.is_empty());
    assert!(app.pending_tokens.is_empty());
    assert!(app.effects.is_empty());
    assert_eq!(app.seat, None);
    assert_eq!(app.new_each_counter, 0);
    assert_eq!(app.verifier.attempted_distinct_count(), 0);
}

#[test]
fn a_warning_is_given_once_in_all_sessions() {
    let pairs = [("WORKSPACE_OUTPUT", "VGA-1")];
    let world = world(vec![window(1, &[])]);
    let mut first = app(&pairs);
    new_toplevel(&mut first, &world, 1);
    assert_eq!(
        first.take_effects(),
        vec![Effect::Warn { warning: Warning::WorkspaceOutputFallback }, moved(1, 100)]
    );
    let mut second = AppData::for_next_session(Arc::new(config(&pairs)), &first);
    new_toplevel(&mut second, &world, 1);
    assert_eq!(second.take_effects(), vec![moved(1, 100)]);
    let mut third = AppData::for_next_session(Arc::new(config(&pairs)), &second);
    third.warn_once_workspace_output_fallback();
    assert!(third.take_effects().is_empty());
    third.warn_once_new_each_unsupported();
    third.warn_once_create_workspace_not_honored();
    assert_eq!(
        third.take_effects(),
        vec![
            Effect::Warn { warning: Warning::NewEachUnsupported },
            Effect::Warn { warning: Warning::CreateWorkspaceNotHonored },
        ]
    );
    let mut fourth = AppData::for_next_session(Arc::new(config(&pairs)), &third);
    fourth.warn_once_workspace_output_fallback();
    fourth.warn_once_new_each_unsupported();
    fourth.warn_once_create_workspace_not_honored();
    assert!(fourth.take_effects().is_empty());
}

#[test]
fn the_warning_about_switches_is_given_once_in_all_sessions() {
    let mut first = app(&[]);
    for id in [100, 101, 102] {
        first.timer_registered(id, Some(id));
    }
    assert_eq!(first.timer_expired(100), VerifyEvent::InfoAndWarn);
    let mut second = AppData::for_next_session(Arc::new(config(&[])), &first);
    for id in [100, 101, 102] {
        second.timer_registered(id, Some(id));
    }
    assert_eq!(second.timer_expired(100), VerifyEvent::InfoOnceForHandle);
    assert!(second.verifier.process_warn_fired());
}

#[test]
fn only_what_was_warned_of_outlives_a_session() {
    let (mut last, world) = waiting(&[("JUMP_ON_EMPTY", "1")]);
    last.new_seat(3);
    last.new_each_counter = 4;
    last.timer_registered(100, Some(1));
    last.timer_registered(101, Some(2));
    done(&mut last, &world);
    assert!(!last.recent_workspaces.is_empty());
    let next = AppData::for_next_session(Arc::new(config(&[])), &last);
    assert!(next.handled.is_empty());
    assert!(next.pending_placements.is_empty());
    assert!(next.recent_workspaces.is_empty());
    assert!(next.last_known_active.is_empty());
    assert!(next.pending_tokens.is_empty());
    assert!(next.effects.is_empty());
    assert_eq!(next.seat, None);
    assert_eq!(next.new_each_counter, 0);
    assert!(!next.verifier.ever_confirmed());
    assert!(!next.verifier.is_pending(101));
    assert!(next.warn_create_workspace_not_honored);
    assert!(!next.warn_new_each_unsupported);
}

#[test]
fn a_second_switch_stops_the_timer_of_the_first() {
    let mut app = app(&[("SWITCH_TO_WORKSPACE", "1")]);
    let world = world(vec![window(1, &[]), window(2, &[])]);
    let start = Effect::StartTimer { handle_id: 100, timeout: Duration::from_millis(250) };
    new_toplevel(&mut app, &world, 1);
    app.take_effects();
    app.timer_registered(100, Some(7));
    new_toplevel(&mut app, &world, 2);
    assert_eq!(
        app.take_effects(),
        vec![
            moved(2, 100),
            Effect::Activate { workspace: 100 },
            commit(),
            Effect::CancelTimer { token: 7 },
            start,
        ]
    );
    assert!(app.pending_tokens.is_empty());
    assert!(!app.verifier.is_pending(100));
    app.timer_registered(100, Some(8));
    assert!(app.take_effects().is_empty());
    assert_eq!(app.pending_tokens.get(&100), Some(&8));
    done(&mut app, &world);
    assert_eq!(app.take_effects(), vec![Effect::CancelTimer { token: 8 }]);
}

#[test]
fn a_timer_that_is_replaced_is_stopped() {
    let mut app = app(&[]);
    app.timer_registered(100, Some(7));
    app.timer_registered(100, Some(8));
    assert_eq!(app.take_effects(), vec![Effect::CancelTimer { token: 7 }]);
    assert_eq!(app.pending_tokens.get(&100), Some(&8));
    app.timer_registered(100, None);
    assert!(app.take_effects().is_empty());
    assert_eq!(app.pending_tokens.get(&100), Some(&8));
    app.stop_timer(100);
    assert_eq!(app.take_effects(), vec![Effect::CancelTimer { token: 8 }]);
    assert!(app.pending_tokens.is_empty());
    app.stop_timer(100);
    assert!(app.take_effects().is_empty());
}

#[test]
fn a_new_workspace_is_made_in_the_selected_group() {
    let mut app = app(&[("WORKSPACE_MODE", "new-each")]);
    let mut world = world(vec![window(1, &[])]);
    world.toplevels[0].outputs = vec![OUTPUT, 21];
    world.groups[0].handle = 12;
    world.groups[0].capabilities = 0;
    world.groups.push(WorkspaceGroup {
        handle: 11,
        capabilities: CAPABILITY_CREATE_WORKSPACE,
        outputs: vec![21],
        workspaces: vec![],
    });
    assert_eq!(new_toplevel(&mut app, &world, 1), Some(Ok(PlaceOutcome::Queued)));
    assert_eq!(
        app.take_effects(),
        vec![Effect::CreateWorkspace { group: 11, name: "foot".to_string() }, commit()]
    );
    assert_eq!(app.pending_placements[0].group_handle, 11);
}

#[test]
fn a_window_goes_to_the_first_free_workspace() {
    let mut app = app(&[]);
    let world = world(vec![window(1, &[]), window(2, &[100])]);
    assert_eq!(
        new_toplevel(&mut app, &world, 1),
        Some(Ok(PlaceOutcome::Placed { workspace: 101 }))
    );
    assert_eq!(app.take_effects(), vec![moved(1, 101)]);
    assert!(app.handled.contains(&1));
    assert!(app.effects.is_empty());
}

#[test]
fn a_switch_is_committed_and_timed_before_the_window_is_maximized() {
    let mut app = app(&[("SWITCH_TO_WORKSPACE", "1"), ("MAXIMIZE", "1")]);
    let world = world(vec![window(1, &[])]);
    new_toplevel(&mut app, &world, 1);
    assert_eq!(
        app.take_effects(),
        vec![
            moved(1, 100),
            Effect::Activate { workspace: 100 },
            commit(),
            Effect::StartTimer { handle_id: 100, timeout: Duration::from_millis(250) },
            Effect::SetMaximized { toplevel: 1001 },
        ]
    );
    assert_eq!(app.verifier.attempted_distinct_count(), 0);
    app.timer_registered(100, Some(77));
    assert!(app.verifier.is_pending(100));
    assert_eq!(app.pending_tokens.get(&100), Some(&77));
}

#[test]
fn without_a_timeout_the_attempt_counts_at_once() {
    let mut app = app(&[("SWITCH_TO_WORKSPACE", "1"), ("SWITCH_VERIFY_TIMEOUT_MS", "0")]);
    let world = world(vec![window(1, &[])]);
    new_toplevel(&mut app, &world, 1);
    assert_eq!(
        app.take_effects(),
        vec![moved(1, 100), Effect::Activate { workspace: 100 }, commit()]
    );
    assert_eq!(app.verifier.attempted_distinct_count(), 1);
    assert!(!app.verifier.is_pending(100));
}

#[test]
fn a_timer_that_could_not_be_started_still_counts_the_attempt() {
    let mut app = app(&[]);
    app.timer_registered(100, None);
    assert_eq!(app.verifier.attempted_distinct_count(), 1);
    assert!(!app.verifier.is_pending(100));
    assert!(app.pending_tokens.is_empty());
}

#[test]
fn without_a_manager_a_switch_fails_after_the_move() {
    let mut app = app(&[("SWITCH_TO_WORKSPACE", "1"), ("MAXIMIZE", "1")]);
    let mut world = world(vec![window(1, &[])]);
    world.manager = None;
    let outcome = new_toplevel(&mut app, &world, 1);
    assert_eq!(outcome, Some(Err(PlaceError::ActivateUnavailable)));
    assert_eq!(app.take_effects(), vec![moved(1, 100)]);
    assert!(app.handled.contains(&1));
    assert_eq!(
        PlaceError::ActivateUnavailable.message(),
        "workspace manager unavailable for activate: ext_workspace_manager_v1 not available"
    );
}

#[test]
fn a_window_that_is_not_listed_is_not_dealt_with() {
    let mut app = app(&[]);
    assert_eq!(new_toplevel(&mut app, &world(vec![]), 1), None);
    assert!(app.handled.is_empty());
}

#[test]
fn a_window_is_dealt_with_once_until_it_closes() {
    let mut app = app(&[]);
    let world = world(vec![window(1, &[])]);
    new_toplevel(&mut app, &world, 1);
    app.take_effects();
    assert_eq!(
        new_toplevel(&mut app, &world, 1),
        Some(Ok(PlaceOutcome::Skipped { reason: SkipReason::AlreadyHandled }))
    );
    assert!(app.effects.is_empty());
    assert_eq!(toplevel_closed(&mut app, &world, 1), None);
    assert_eq!(
        new_toplevel(&mut app, &world, 1),
        Some(Ok(PlaceOutcome::Placed { workspace: 100 }))
    );
}

#[test]
fn a_reused_object_number_counts_as_dealt_with_until_its_window_closes() {
    let mut app = app(&[]);
    let again = 1 + (1u64 << 32);
    let world = world(vec![window(1, &[]), window(again, &[])]);
    new_toplevel(&mut app, &world, 1);
    assert_eq!(
        new_toplevel(&mut app, &world, again),
        Some(Ok(PlaceOutcome::Skipped { reason: SkipReason::AlreadyHandled }))
    );
}

#[test]
fn an_excluded_title_is_left_alone() {
    let mut app = app(&[("EXCLUDED_TITLE_REGEX", "^sh")]);
    let world = world(vec![window(1, &[])]);
    assert_eq!(
        new_toplevel(&mut app, &world, 1),
        Some(Ok(PlaceOutcome::Skipped { reason: SkipReason::ExcludedByTitle }))
    );
    assert!(app.effects.is_empty());
    assert!(app.handled.contains(&1));
}

#[test]
fn windows_stay_where_they_are_in_the_mode_for_it() {
    let mut app = app(&[("WORKSPACE_MODE", "same"), ("WORKSPACE_OUTPUT", "none"), ("MAXIMIZE", "1")]);
    let world = world(vec![window(1, &[])]);
    assert_eq!(
        new_toplevel(&mut app, &world, 1),
        Some(Ok(PlaceOutcome::Skipped { reason: SkipReason::WorkspaceModeSame }))
    );
    assert!(app.effects.is_empty());
}

#[test]
fn a_switch_has_a_timer_exactly_while_it_awaits_confirmation() {
    let mut app = app(&[]);
    let agree = |app: &AppData, ids: &[u64]| {
        ids.iter().all(|id| app.pending_tokens.contains_key(id) == app.verifier.is_pending(*id))
    };
    let ids = [100, 101, 102, 103];
    app.timer_registered(100, Some(1));
    app.timer_registered(101, Some(2));
    app.timer_registered(102, None);
    app.timer_registered(103, Some(3));
    assert!(agree(&app, &ids));
    done(&mut app, &world(vec![]));
    assert!(agree(&app, &ids));
    app.timer_expired(101);
    assert!(agree(&app, &ids));
    assert_eq!(app.pending_tokens.len(), 1);
}

#[test]
fn what_the_title_pattern_says_can_be_given() {
    let mut app = app(&[]);
    let world = world(vec![window(1, &[])]);
    assert_eq!(
        handle_new_toplevel_given(&mut app, &world, &world.toplevels[0], true),
        Ok(PlaceOutcome::Skipped { reason: SkipReason::ExcludedByTitle })
    );
    assert_eq!(
        handle_new_toplevel_given(&mut app, &world, &world.toplevels[0], false),
        Ok(PlaceOutcome::Placed { workspace: 100 })
    );
}

#[test]
fn the_configured_output_is_found_by_name() {
    let mut app = app(&[("WORKSPACE_OUTPUT", "HDMI-A-1")]);
    let mut world = world(vec![window(1, &[])]);
    world.outputs.push(Output { handle: 21, name: Some("HDMI-A-1".to_string()) });
    world.workspaces.push(workspace(200, false));
    world.groups.push(WorkspaceGroup {
        handle: 11,
        capabilities: 0,
        outputs: vec![21],
        workspaces: vec![200],
    });
    assert_eq!(
        new_toplevel(&mut app, &world, 1),
        Some(Ok(PlaceOutcome::Placed { workspace: 200 }))
    );
    assert_eq!(app.take_effects(), vec![moved(1, 200)]);
}

#[test]
fn the_configured_output_may_be_a_number() {
    let mut app = app(&[("WORKSPACE_OUTPUT", "21")]);
    let mut world = world(vec![window(1, &[])]);
    world.workspaces.push(workspace(200, false));
    world.groups.push(WorkspaceGroup {
        handle: 11,
        capabilities: 0,
        outputs: vec![21],
        workspaces: vec![200],
    });
    assert_eq!(
        new_toplevel(&mut app, &world, 1),
        Some(Ok(PlaceOutcome::Placed { workspace: 200 }))
    );
}

#[test]
fn an_unknown_output_is_warned_of_once() {
    let mut app = app(&[("WORKSPACE_OUTPUT", "VGA-1")]);
    let world = world(vec![window(1, &[]), window(2, &[])]);
    new_toplevel(&mut app, &world, 1);
    assert_eq!(
        app.take_effects(),
        vec![Effect::Warn { warning: Warning::WorkspaceOutputFallback }, moved(1, 100)]
    );
    new_toplevel(&mut app, &world, 2);
    assert_eq!(app.take_effects(), vec![moved(2, 100)]);
}

#[test]
fn a_group_without_new_workspaces_is_warned_of_once() {
    let mut app = app(&[("WORKSPACE_MODE", "new-each")]);
    let mut world = world(vec![window(1, &[]), window(2, &[])]);
    world.groups[0].capabilities = 0;
    new_toplevel(&mut app, &world, 1);
    new_toplevel(&mut app, &world, 2);
    assert_eq!(
        app.take_effects(),
        vec![
            Effect::Warn { warning: Warning::NewEachUnsupported },
            moved(1, 100),
            moved(2, 100),
        ]
    );
}

/// A window for which a workspace was requested, and the snapshot it was in.
fn waiting(pairs: &[(&str, &str)]) -> (AppData, World) {
    let mut all = vec![("WORKSPACE_MODE", "new-each")];
    all.extend_from_slice(pairs);
    let mut app = app(&all);
    let world = world(vec![window(1, &[100])]);
    assert_eq!(new_toplevel(&mut app, &world, 1), Some(Ok(PlaceOutcome::Queued)));
    assert_eq!(
        app.take_effects(),
        vec![Effect::CreateWorkspace { group: GROUP, name: "foot".to_string() }, commit()]
    );
    assert_eq!(app.pending_placements.len(), 1);
    (app, world)
}

#[test]
fn a_window_waits_for_its_workspace() {
    let (mut app, mut world) = waiting(&[("SWITCH_TO_WORKSPACE", "1"), ("MAXIMIZE", "1")]);
    world.workspaces.push(workspace(103, false));
    world.groups[0].workspaces.push(103);
    let outcomes = done(&mut app, &world);
    assert_eq!(outcomes.len(), 1);
    assert_eq!(outcomes[0].app_id, "foot");
    assert_eq!(
        outcomes[0].result,
        DeferredResult::Placed {
            workspace: 103,
            post_place: PostPlaceActions { switch_to: true, maximize: true },
            switch_failed: false,
        }
    );
    assert_eq!(
        app.take_effects(),
        vec![
            moved(1, 103),
            Effect::Activate { workspace: 103 },
            commit(),
            Effect::StartTimer { handle_id: 103, timeout: Duration::from_millis(250) },
            Effect::SetMaximized { toplevel: 1001 },
        ]
    );
    assert!(app.pending_placements.is_empty());
}

#[test]
fn a_workspace_that_does_not_appear_is_made_up_for() {
    let (mut app, world) = waiting(&[]);
    let outcomes = done(&mut app, &world);
    assert!(matches!(outcomes[0].result, DeferredResult::Placed { workspace: 101, .. }));
    assert_eq!(
        app.take_effects(),
        vec![Effect::Warn { warning: Warning::CreateWorkspaceNotHonored }, moved(1, 101)]
    );
    assert!(app.pending_placements.is_empty());
    assert!(done(&mut app, &world).is_empty());
}

#[test]
fn a_window_may_find_no_workspace_in_the_end() {
    let (mut app, mut world) = waiting(&[]);
    world.toplevels.push(window(2, &[101, 102]));
    let outcomes = done(&mut app, &world);
    assert_eq!(outcomes[0].result, DeferredResult::NoFallback);
    assert_eq!(
        app.take_effects(),
        vec![Effect::Warn { warning: Warning::CreateWorkspaceNotHonored }]
    );
}

#[test]
fn a_group_may_go_while_a_window_waits() {
    let (mut app, mut world) = waiting(&[]);
    world.groups.clear();
    let outcomes = done(&mut app, &world);
    assert_eq!(outcomes[0].result, DeferredResult::GroupGone);
    assert!(app.take_effects().is_empty());
}

#[test]
fn a_waiting_window_is_placed_without_a_switch_if_the_manager_is_gone() {
    let (mut app, mut world) = waiting(&[("SWITCH_TO_WORKSPACE", "1"), ("MAXIMIZE", "1")]);
    world.manager = None;
    world.workspaces.push(workspace(103, false));
    world.groups[0].workspaces.push(103);
    let outcomes = done(&mut app, &world);
    assert!(matches!(
        outcomes[0].result,
        DeferredResult::Placed { workspace: 103, switch_failed: true, .. }
    ));
    assert_eq!(
        app.take_effects(),
        vec![moved(1, 103), Effect::SetMaximized { toplevel: 1001 }]
    );
}

#[test]
fn a_window_that_closes_waits_no_more() {
    let (mut app, mut world) = waiting(&[]);
    world.toplevels.push(window(2, &[]));
    new_toplevel(&mut app, &world, 2);
    app.take_effects();
    toplevel_closed(&mut app, &world, 1);
    assert_eq!(app.pending_placements.len(), 1);
    assert_eq!(app.pending_placements[0].foreign_toplevel_id, 2);
    assert!(!app.handled.contains(&1));
    assert_eq!(done(&mut app, &world).len(), 1);
}

#[test]
fn waiting_windows_are_taken_from_both_ends() {
    let mut app = app(&[("WORKSPACE_MODE", "new-each")]);
    let mut windows = vec![window(1, &[]), window(2, &[]), window(3, &[]), window(4, &[])];
    for (i, w) in windows.iter_mut().enumerate() {
        w.app_id = format!("app-{}", i);
    }
    let world = world(windows);
    for handle in 1..=4 {
        new_toplevel(&mut app, &world, handle);
    }
    let names: Vec<String> =
        scan_pending_placements(&mut app, &world).into_iter().map(|o| o.app_id).collect();
    assert_eq!(names, vec!["app-0", "app-3", "app-2", "app-1"]);
}

#[test]
fn a_workspace_for_an_unnamed_application_is_numbered() {
    let mut app = app(&[("WORKSPACE_MODE", "new-each")]);
    let mut windows = vec![window(1, &[]), window(2, &[])];
    windows[0].app_id.clear();
    windows[1].app_id.clear();
    let world = world(windows);
    app.new_each_counter = u64::MAX;
    new_toplevel(&mut app, &world, 1);
    new_toplevel(&mut app, &world, 2);
    assert_eq!(
        app.take_effects(),
        vec![
            Effect::CreateWorkspace { group: GROUP, name: "auto-18446744073709551615".to_string() },
            commit(),
            Effect::CreateWorkspace { group: GROUP, name: "auto-0".to_string() },
            commit(),
        ]
    );
    assert_eq!(app.new_each_counter, 1);
}

#[test]
fn without_a_manager_no_workspace_is_requested_but_the_number_is_used() {
    let mut app = app(&[("WORKSPACE_MODE", "new-each")]);
    let mut world = world(vec![window(1, &[])]);
    world.toplevels[0].app_id.clear();
    world.manager = None;
    let outcome = new_toplevel(&mut app, &world, 1);
    assert_eq!(outcome, Some(Err(PlaceError::CreateUnavailable)));
    assert_eq!(
        PlaceError::CreateUnavailable.message(),
        "workspace manager unavailable: ext_workspace_manager_v1 not available"
    );
    assert!(app.take_effects().is_empty());
    assert!(app.pending_placements.is_empty());
    assert_eq!(app.new_each_counter, 1);
}

#[test]
fn a_new_workspace_is_made_on_the_configured_output() {
    let mut app = app(&[("WORKSPACE_MODE", "new-each"), ("WORKSPACE_OUTPUT", "HDMI-A-1")]);
    let mut world = world(vec![window(1, &[])]);
    world.outputs.push(Output { handle: 21, name: Some("HDMI-A-1".to_string()) });
    world.groups.push(WorkspaceGroup {
        handle: 11,
        capabilities: CAPABILITY_CREATE_WORKSPACE,
        outputs: vec![21],
        workspaces: vec![],
    });
    new_toplevel(&mut app, &world, 1);
    assert_eq!(
        app.take_effects(),
        vec![Effect::CreateWorkspace { group: 11, name: "foot".to_string() }, commit()]
    );
}

#[test]
fn an_active_workspace_confirms_its_switch() {
    let mut app = app(&[]);
    app.timer_registered(100, Some(7));
    app.timer_registered(101, Some(8));
    done(&mut app, &world(vec![]));
    assert_eq!(app.take_effects(), vec![Effect::CancelTimer { token: 7 }]);
    assert!(app.verifier.ever_confirmed());
    assert!(!app.verifier.is_pending(100));
    assert!(app.verifier.is_pending(101));
    assert_eq!(app.pending_tokens.len(), 1);
}

#[test]
fn a_timer_that_runs_out_is_reported() {
    let mut app = app(&[]);
    for id in [100, 101, 102] {
        app.timer_registered(id, Some(id));
    }
    assert_eq!(app.timer_expired(100), VerifyEvent::InfoAndWarn);
    assert_eq!(app.timer_expired(101), VerifyEvent::InfoOnceForHandle);
    assert_eq!(app.timer_expired(101), VerifyEvent::Nothing);
    assert_eq!(app.pending_tokens.len(), 1);
    assert!(!app.verifier.is_pending(101));
}

#[test]
fn a_timeout_says_what_is_logged() {
    let mut app = app(&[]);
    for id in [100, 101, 102] {
        app.timer_registered(id, Some(id));
    }
    let timeout = Duration::from_micros(250_999);
    let info = Some(NotConfirmed { workspace_handle_id: 100, timeout_ms: 250 });
    let warn = Some(NotHonored { workspace_handle_id: 100, attempted: 3 });
    let report = |event| emit_verify_event(event, 100, timeout, &app.verifier);
    assert_eq!(report(VerifyEvent::Nothing), VerifyReport { info: None, warn: None });
    assert_eq!(report(VerifyEvent::InfoOnceForHandle), VerifyReport { info, warn: None });
    assert_eq!(report(VerifyEvent::WarnOnceForProcess), VerifyReport { info: None, warn });
    assert_eq!(report(VerifyEvent::InfoAndWarn), VerifyReport { info, warn });
}

/// The second and the first workspace were visited; window 1 is the only one
/// on the first, which is active.
fn following() -> (AppData, World) {
    let mut app = app(&[("JUMP_ON_EMPTY", "1")]);
    let mut world = world(vec![window(1, &[100]), window(2, &[101]), window(3, &[102])]);
    world.workspaces[0].state = 0;
    world.workspaces[2].state = STATE_ACTIVE;
    done(&mut app, &world);
    world.workspaces[2].state = 0;
    world.workspaces[0].state = STATE_ACTIVE;
    done(&mut app, &world);
    assert_eq!(app.recent_workspaces, vec![100u64, 102]);
    assert_eq!(app.last_known_active.get(&GROUP), Some(&100));
    (app, world)
}

#[test]
fn closing_the_last_window_goes_back_to_the_recent_workspace() {
    let (mut app, world) = following();
    assert_eq!(
        toplevel_closed(&mut app, &world, 1),
        Some(JumpOutcome::Jumped { source: 100, target: 102, group_id: GROUP })
    );
    assert_eq!(
        app.take_effects(),
        vec![
            Effect::Activate { workspace: 102 },
            commit(),
            Effect::StartTimer { handle_id: 102, timeout: Duration::from_millis(250) },
        ]
    );
}

#[test]
fn without_recent_workspaces_the_lowest_is_gone_to() {
    let (mut app, world) = following();
    app.recent_workspaces.clear();
    assert_eq!(
        toplevel_closed(&mut app, &world, 1),
        Some(JumpOutcome::Jumped { source: 100, target: 101, group_id: GROUP })
    );
}

#[test]
fn a_close_that_calls_for_no_jump_says_why() {
    let (mut app, world) = following();
    assert_eq!(toplevel_closed(&mut app, &world, 99), Some(JumpOutcome::ToplevelNotFound));
    assert_eq!(
        toplevel_closed(&mut app, &world, 2),
        Some(JumpOutcome::NoOp { reason: NoOpReason::NotActive })
    );

    let (mut app, mut world) = following();
    world.toplevels.push(window(4, &[100]));
    assert_eq!(
        toplevel_closed(&mut app, &world, 1),
        Some(JumpOutcome::NoOp { reason: NoOpReason::StillOccupied { ws: 100 } })
    );

    let (mut app, mut world) = following();
    world.toplevels[0].workspaces.clear();
    assert_eq!(
        toplevel_closed(&mut app, &world, 1),
        Some(JumpOutcome::NoOp { reason: NoOpReason::NoWorkspace })
    );

    let (mut app, mut world) = following();
    world.groups.clear();
    assert_eq!(
        toplevel_closed(&mut app, &world, 1),
        Some(JumpOutcome::NoOp { reason: NoOpReason::NoGroup { ws: 100 } })
    );

    let (mut app, mut world) = following();
    world.toplevels.truncate(1);
    assert_eq!(
        toplevel_closed(&mut app, &world, 1),
        Some(JumpOutcome::NoOp { reason: NoOpReason::NoTarget { group_id: GROUP, source: 100 } })
    );

    let (mut app, mut world) = following();
    world.toplevels[0].workspaces = vec![101, 102];
    assert_eq!(
        toplevel_closed(&mut app, &world, 1),
        Some(JumpOutcome::NoOp { reason: NoOpReason::MultiWorkspaceNoMatch { handle_count: 2 } })
    );
    assert!(app.take_effects().is_empty());
}

#[test]
fn without_a_manager_there_is_no_going_back() {
    let (mut app, mut world) = following();
    world.manager = None;
    assert_eq!(
        toplevel_closed(&mut app, &world, 1),
        Some(JumpOutcome::ActivationFailed { source: 100, target: 102 })
    );
    assert!(app.take_effects().is_empty());
}

#[test]
fn nothing_is_followed_when_it_is_not_wanted() {
    let mut app = app(&[]);
    let world = world(vec![window(1, &[100]), window(2, &[101])]);
    done(&mut app, &world);
    assert!(app.recent_workspaces.is_empty());
    assert!(app.last_known_active.is_empty());
    assert_eq!(toplevel_closed(&mut app, &world, 1), None);
    assert!(app.take_effects().is_empty());
}

#[test]
fn the_first_seat_counts_until_it_is_gone() {
    let mut app = app(&[]);
    app.new_seat(3);
    app.new_seat(4);
    assert_eq!(app.seat, Some(3));
    app.remove_seat(4);
    assert_eq!(app.seat, Some(3));
    app.remove_seat(3);
    assert_eq!(app.seat, None);
    app.new_seat(4);
    assert_eq!(app.seat, Some(4));
}

#[test]
fn every_request_is_committed_whatever_happens() {
    let mut app = app(&[
        ("WORKSPACE_MODE", "new-each"),
        ("SWITCH_TO_WORKSPACE", "1"),
        ("JUMP_ON_EMPTY", "1"),
    ]);
    let mut effects = Vec::new();
    let mut world = world(vec![window(1, &[]), window(2, &[100]), window(3, &[101])]);
    for handle in [1, 2, 3, 1] {
        new_toplevel(&mut app, &world, handle);
        effects.extend(app.take_effects());
    }
    world.workspaces.push(workspace(103, false));
    world.groups[0].workspaces.push(103);
    done(&mut app, &world);
    effects.extend(app.take_effects());
    toplevel_closed(&mut app, &world, 2);
    effects.extend(app.take_effects());
    let mut requests = 0;
    for (i, effect) in effects.iter().enumerate() {
        if matches!(effect, Effect::Activate { .. } | Effect::CreateWorkspace { .. }) {
            requests += 1;
            assert_eq!(effects[i + 1], commit());
        }
    }
    assert_eq!(requests, effects.iter().filter(|e| **e == commit()).count());
    assert_eq!(requests, 7);
}
