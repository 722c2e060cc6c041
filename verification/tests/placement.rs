use std::collections::{HashMap, HashSet};

use cosmic_ext_window_daemon::config::{from_env_source, Config};
use cosmic_ext_window_daemon::placement::{
    decide, decide_given, PlacementAction, PostPlaceActions, SkipReason, ToplevelInfoStub,
    WorkspaceGroupStub, WorkspaceStateStub, WorkspaceStub, WorkspaceTarget,
};

/// Build a Config with defaults plus any overrides.
fn default_config() -> Config {
    from_env_source(|_| None).unwrap()
}

fn config_with_mode(mode: &str) -> Config {
    let map: HashMap<&str, &str> = [("WORKSPACE_MODE", mode)].into_iter().collect();
    from_env_source(|key| map.get(key).map(|v| v.to_string())).unwrap()
}

fn config_with(pairs: &[(&str, &str)]) -> Config {
    let map: HashMap<&str, &str> = pairs.iter().copied().collect();
    from_env_source(|key| map.get(key).map(|v| v.to_string())).unwrap()
}

/// A vanilla ToplevelInfoStub that won't be excluded.
fn valid_info() -> ToplevelInfoStub {
    ToplevelInfoStub {
        app_id: "org.example.App".to_string(),
        title: "My Window".to_string(),
        output_ids: vec![1],
        cosmic_toplevel_present: true,
    }
}

/// A simple workspace state: one group (output 1), two workspaces (one empty, one occupied).
fn simple_workspaces() -> WorkspaceStateStub {
    WorkspaceStateStub {
        groups: vec![WorkspaceGroupStub {
            id: 10,
            output_ids: vec![1],
            can_create_workspace: true,
            workspaces: vec![
                WorkspaceStub { id: 100, toplevel_ids: vec![42] }, // occupied
                WorkspaceStub { id: 101, toplevel_ids: vec![] },   // empty
            ],
        }],
    }
}

fn no_handled() -> HashSet<u64> {
    HashSet::new()
}

#[test]
fn decide_returns_skip_already_handled_when_toplevel_in_handled_set() {
    let mut handled = HashSet::new();
    handled.insert(99u64);
    let result = decide(&default_config(), &valid_info(), &simple_workspaces(), &handled, 99);
    assert_eq!(result, PlacementAction::Skip { reason: SkipReason::AlreadyHandled });
}

#[test]
fn decide_returns_skip_excluded_when_app_id_matches() {
    let cfg = config_with(&[("EXCLUDED_APP_IDS", "org.example.App,foot")]);
    let result = decide(&cfg, &valid_info(), &simple_workspaces(), &no_handled(), 1);
    assert_eq!(result, PlacementAction::Skip { reason: SkipReason::ExcludedByAppId });
}

#[test]
fn decide_does_not_exclude_when_app_id_does_not_match() {
    let cfg = config_with(&[("EXCLUDED_APP_IDS", "foot")]);
    let result = decide(&cfg, &valid_info(), &simple_workspaces(), &no_handled(), 1);
    assert!(matches!(result, PlacementAction::Place { .. }));
}

#[test]
fn decide_exclusion_by_app_id_is_case_sensitive() {
    // "Org.Example.App" should NOT match "org.example.App"
    let cfg = config_with(&[("EXCLUDED_APP_IDS", "Org.Example.App")]);
    let result = decide(&cfg, &valid_info(), &simple_workspaces(), &no_handled(), 1);
    assert!(matches!(result, PlacementAction::Place { .. }));
}

#[test]
fn decide_returns_skip_excluded_when_title_matches_regex() {
    let cfg = config_with(&[("EXCLUDED_TITLE_REGEX", "^Picture-in-Picture")]);
    let mut info = valid_info();
    info.title = "Picture-in-Picture — YouTube".to_string();
    let result = decide(&cfg, &info, &simple_workspaces(), &no_handled(), 1);
    assert_eq!(result, PlacementAction::Skip { reason: SkipReason::ExcludedByTitle });
}

#[test]
fn decide_does_not_exclude_when_title_does_not_match_regex() {
    let cfg = config_with(&[("EXCLUDED_TITLE_REGEX", "^Picture-in-Picture")]);
    let result = decide(&cfg, &valid_info(), &simple_workspaces(), &no_handled(), 1);
    assert!(matches!(result, PlacementAction::Place { .. }));
}

#[test]
fn decide_returns_skip_no_cosmic_toplevel_when_cosmic_handle_missing() {
    let mut info = valid_info();
    info.cosmic_toplevel_present = false;
    let result = decide(&default_config(), &info, &simple_workspaces(), &no_handled(), 1);
    assert_eq!(result, PlacementAction::Skip { reason: SkipReason::NoCosmicToplevel });
}

#[test]
fn decide_returns_skip_no_outputs_when_toplevel_has_no_outputs() {
    let mut info = valid_info();
    info.output_ids = vec![];
    let result = decide(&default_config(), &info, &simple_workspaces(), &no_handled(), 1);
    assert_eq!(result, PlacementAction::Skip { reason: SkipReason::NoOutputs });
}

#[test]
fn decide_returns_skip_workspace_mode_same_when_mode_is_same() {
    let cfg = config_with_mode("same");
    let result = decide(&cfg, &valid_info(), &simple_workspaces(), &no_handled(), 1);
    assert_eq!(result, PlacementAction::Skip { reason: SkipReason::WorkspaceModeSame });
}

#[test]
fn decide_places_on_correct_group_for_output() {
    // Two groups on different outputs; toplevel is on output 2.
    let workspaces = WorkspaceStateStub {
        groups: vec![
            WorkspaceGroupStub {
                id: 10,
                output_ids: vec![1],
                can_create_workspace: true,
                workspaces: vec![WorkspaceStub { id: 100, toplevel_ids: vec![] }],
            },
            WorkspaceGroupStub {
                id: 20,
                output_ids: vec![2],
                can_create_workspace: true,
                workspaces: vec![WorkspaceStub { id: 200, toplevel_ids: vec![] }],
            },
        ],
    };
    let mut info = valid_info();
    info.output_ids = vec![2];
    let result = decide(&default_config(), &info, &workspaces, &no_handled(), 1);
    assert_eq!(
        result,
        PlacementAction::Place {
            workspace: WorkspaceTarget::Existing(200),
            then: PostPlaceActions { switch_to: false, maximize: false },
        }
    );
}

#[test]
fn decide_returns_skip_no_matching_group_when_no_group_for_output() {
    // Group is on output 1, toplevel is on output 99.
    let mut info = valid_info();
    info.output_ids = vec![99];
    let result = decide(&default_config(), &info, &simple_workspaces(), &no_handled(), 1);
    assert_eq!(result, PlacementAction::Skip { reason: SkipReason::NoMatchingGroup });
}

#[test]
fn decide_places_on_first_empty_workspace_in_next_free_mode() {
    // simple_workspaces: workspace 100 is occupied, 101 is empty → should pick 101.
    let result = decide(&default_config(), &valid_info(), &simple_workspaces(), &no_handled(), 1);
    assert_eq!(
        result,
        PlacementAction::Place {
            workspace: WorkspaceTarget::Existing(101),
            then: PostPlaceActions { switch_to: false, maximize: false },
        }
    );
}

#[test]
fn decide_returns_skip_no_matching_group_when_all_workspaces_occupied_next_free() {
    let workspaces = WorkspaceStateStub {
        groups: vec![WorkspaceGroupStub {
            id: 10,
            output_ids: vec![1],
            can_create_workspace: false,
            workspaces: vec![
                WorkspaceStub { id: 100, toplevel_ids: vec![1] },
                WorkspaceStub { id: 101, toplevel_ids: vec![2] },
            ],
        }],
    };
    let result = decide(&default_config(), &valid_info(), &workspaces, &no_handled(), 1);
    assert_eq!(result, PlacementAction::Skip { reason: SkipReason::NoMatchingGroup });
}

#[test]
fn decide_returns_create_target_in_new_each_mode() {
    let cfg = config_with_mode("new-each");
    let result = decide(&cfg, &valid_info(), &simple_workspaces(), &no_handled(), 1);
    assert_eq!(
        result,
        PlacementAction::Place {
            workspace: WorkspaceTarget::Create,
            then: PostPlaceActions { switch_to: false, maximize: false },
        }
    );
}

#[test]
fn decide_degrades_to_next_free_in_new_each_mode_when_create_workspace_not_supported() {
    let cfg = config_with_mode("new-each");
    let workspaces = WorkspaceStateStub {
        groups: vec![WorkspaceGroupStub {
            id: 10,
            output_ids: vec![1],
            can_create_workspace: false, // capability not set
            workspaces: vec![
                WorkspaceStub { id: 100, toplevel_ids: vec![1] },
                WorkspaceStub { id: 101, toplevel_ids: vec![] }, // empty
            ],
        }],
    };
    let result = decide(&cfg, &valid_info(), &workspaces, &no_handled(), 1);
    assert_eq!(
        result,
        PlacementAction::Place {
            workspace: WorkspaceTarget::Existing(101),
            then: PostPlaceActions { switch_to: false, maximize: false },
        }
    );
}

#[test]
fn decide_place_carries_switch_to_true_when_configured() {
    let cfg = config_with(&[("SWITCH_TO_WORKSPACE", "1")]);
    let result = decide(&cfg, &valid_info(), &simple_workspaces(), &no_handled(), 1);
    assert_eq!(
        result,
        PlacementAction::Place {
            workspace: WorkspaceTarget::Existing(101),
            then: PostPlaceActions { switch_to: true, maximize: false },
        }
    );
}

#[test]
fn decide_place_carries_maximize_true_when_configured() {
    let cfg = config_with(&[("MAXIMIZE", "1")]);
    let result = decide(&cfg, &valid_info(), &simple_workspaces(), &no_handled(), 1);
    assert_eq!(
        result,
        PlacementAction::Place {
            workspace: WorkspaceTarget::Existing(101),
            then: PostPlaceActions { switch_to: false, maximize: true },
        }
    );
}

#[test]
fn decide_uses_workspace_output_override_when_output_present() {
    // Two groups. Override points to group with output 2.
    let workspaces = WorkspaceStateStub {
        groups: vec![
            WorkspaceGroupStub {
                id: 10,
                output_ids: vec![1],
                can_create_workspace: true,
                workspaces: vec![WorkspaceStub { id: 100, toplevel_ids: vec![] }],
            },
            WorkspaceGroupStub {
                id: 20,
                output_ids: vec![2],
                can_create_workspace: true,
                workspaces: vec![WorkspaceStub { id: 200, toplevel_ids: vec![] }],
            },
        ],
    };
    // Toplevel is on output 1, but WORKSPACE_OUTPUT overrides to output 2.
    let cfg = config_with(&[("WORKSPACE_OUTPUT", "2")]);
    let result = decide(&cfg, &valid_info(), &workspaces, &no_handled(), 1);
    assert_eq!(
        result,
        PlacementAction::Place {
            workspace: WorkspaceTarget::Existing(200),
            then: PostPlaceActions { switch_to: false, maximize: false },
        }
    );
}

#[test]
fn decide_falls_back_to_per_toplevel_when_workspace_output_absent() {
    // Override points to output 99 (not in any group).
    // Toplevel is on output 1 → should fall back to group 10.
    let cfg = config_with(&[("WORKSPACE_OUTPUT", "99")]);
    let result = decide(&cfg, &valid_info(), &simple_workspaces(), &no_handled(), 1);
    assert_eq!(
        result,
        PlacementAction::Place {
            workspace: WorkspaceTarget::Existing(101),
            then: PostPlaceActions { switch_to: false, maximize: false },
        }
    );
}

#[test]
fn a_decision_names_the_group_that_the_window_goes_to() {
    let mut workspaces = simple_workspaces();
    workspaces.groups.insert(
        0,
        WorkspaceGroupStub { id: 5, output_ids: vec![7], can_create_workspace: true, workspaces: vec![] },
    );
    let cfg = config_with_mode("new-each");
    let placed = decide_given(&cfg, None, false, &valid_info(), &workspaces, &no_handled(), 1);
    assert_eq!(placed.group, Some(1));
    assert!(matches!(placed.action, PlacementAction::Place { .. }));
    let skipped = decide_given(&cfg, None, true, &valid_info(), &workspaces, &no_handled(), 1);
    assert_eq!(skipped.group, None);
    let overridden = decide_given(&cfg, Some(7), false, &valid_info(), &workspaces, &no_handled(), 1);
    assert_eq!(overridden.group, Some(0));
}

#[test]
fn decide_selects_group_with_lowest_id_when_multiple_groups_match() {
    // Both groups contain output 1.
    let workspaces = WorkspaceStateStub {
        groups: vec![
            WorkspaceGroupStub {
                id: 20, // higher id
                output_ids: vec![1],
                can_create_workspace: true,
                workspaces: vec![WorkspaceStub { id: 200, toplevel_ids: vec![] }],
            },
            WorkspaceGroupStub {
                id: 10, // lower id — should be selected
                output_ids: vec![1],
                can_create_workspace: true,
                workspaces: vec![WorkspaceStub { id: 100, toplevel_ids: vec![] }],
            },
        ],
    };
    let result = decide(&default_config(), &valid_info(), &workspaces, &no_handled(), 1);
    assert_eq!(
        result,
        PlacementAction::Place {
            workspace: WorkspaceTarget::Existing(100),
            then: PostPlaceActions { switch_to: false, maximize: false },
        }
    );
}
