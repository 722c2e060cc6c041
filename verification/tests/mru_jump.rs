use std::collections::{HashMap, HashSet, VecDeque};

use cosmic_ext_window_daemon::ids::WorkspaceId;
use cosmic_ext_window_daemon::mru_jump::{
    detect_transitions_and_update, evaluate_trigger, record_mru_transition, select_jump_target,
    NoOpReason, TriggerInput, TriggerOutcome, WorkspaceMeta, MRU_CAP,
};

fn make_meta(id: WorkspaceId, coordinates: Vec<u32>, group_id: u64) -> WorkspaceMeta {
    WorkspaceMeta { id, coordinates, group_id }
}

fn occupied(ids: &[WorkspaceId]) -> HashSet<WorkspaceId> {
    ids.iter().copied().collect()
}

fn recent(ids: &[WorkspaceId]) -> VecDeque<WorkspaceId> {
    ids.iter().copied().collect()
}

#[test]
fn select_jump_target_returns_most_recent_mru_when_available() {
    // deque = [3, 2, 1]; current = 5; group = {1, 2, 3, 5}; occupied = {1, 2, 3}
    // Expects 3 (front of deque, in group, occupied, not current).
    let metas = vec![
        make_meta(1, vec![0], 10),
        make_meta(2, vec![1], 10),
        make_meta(3, vec![2], 10),
        make_meta(5, vec![4], 10),
    ];
    let occ = occupied(&[1, 2, 3]);
    let rec = recent(&[3, 2, 1]);
    assert_eq!(select_jump_target(5, &metas, &occ, &rec), Some(3));
}

#[test]
fn select_jump_target_skips_unoccupied_mru_entries() {
    // deque = [3, 2, 1]; occupied = {1} only; expects 1 (skip 3 and 2).
    let metas = vec![
        make_meta(1, vec![0], 10),
        make_meta(2, vec![1], 10),
        make_meta(3, vec![2], 10),
        make_meta(5, vec![4], 10),
    ];
    let occ = occupied(&[1]);
    let rec = recent(&[3, 2, 1]);
    assert_eq!(select_jump_target(5, &metas, &occ, &rec), Some(1));
}

#[test]
fn select_jump_target_skips_cross_group_mru_entries() {
    // Group A = {1, 2}. deque = [99, 100, 1]; 99 and 100 are in group B (not in metas).
    // Expects 1 (first deque entry that IS in group A).
    let metas = vec![
        make_meta(1, vec![0], 10),
        make_meta(2, vec![1], 10),
    ];
    let occ = occupied(&[1, 2, 99, 100]);
    let rec = recent(&[99, 100, 1]);
    assert_eq!(select_jump_target(5, &metas, &occ, &rec), Some(1));
}

#[test]
fn select_jump_target_skips_current_in_mru() {
    // deque = [5, 2]; current = 5; expects 2 (skip current).
    let metas = vec![
        make_meta(2, vec![1], 10),
        make_meta(5, vec![4], 10),
    ];
    let occ = occupied(&[2, 5]);
    let rec = recent(&[5, 2]);
    assert_eq!(select_jump_target(5, &metas, &occ, &rec), Some(2));
}

#[test]
fn select_jump_target_falls_back_to_lowest_coordinate() {
    // MRU empty; group = {ws1 coord [0], ws5 coord [4]}; occupied = {ws1, ws5}; current = ws3.
    // Expects ws1 (lowest coord).
    let metas = vec![
        make_meta(1, vec![0], 10),
        make_meta(5, vec![4], 10),
        make_meta(3, vec![2], 10),
    ];
    let occ = occupied(&[1, 5]);
    let rec = recent(&[]);
    assert_eq!(select_jump_target(3, &metas, &occ, &rec), Some(1));
}

#[test]
fn select_jump_target_fallback_tiebreaks_on_protocol_id() {
    // Two workspaces share coordinates [0]; lower id wins.
    let metas = vec![
        make_meta(10, vec![0], 20),
        make_meta(7, vec![0], 20),
        make_meta(99, vec![2], 20),
    ];
    let occ = occupied(&[7, 10, 99]);
    let rec = recent(&[]);
    // current = 99, fallback between id=7 and id=10 both at coord [0] → id=7 wins
    assert_eq!(select_jump_target(99, &metas, &occ, &rec), Some(7));
}

#[test]
fn select_jump_target_returns_none_when_current_is_only_workspace() {
    // Single-workspace group; current is the only member → None.
    let metas = vec![make_meta(1, vec![0], 10)];
    let occ = occupied(&[]);
    let rec = recent(&[]);
    assert_eq!(select_jump_target(1, &metas, &occ, &rec), None);
}

#[test]
fn select_jump_target_returns_none_when_fallback_is_current() {
    // Group = {current=1, ws2}; ws2 not occupied; current is only candidate → None.
    let metas = vec![
        make_meta(1, vec![0], 10),
        make_meta(2, vec![1], 10),
    ];
    let occ = occupied(&[]);
    let rec = recent(&[]);
    assert_eq!(select_jump_target(1, &metas, &occ, &rec), None);
}

#[test]
fn record_mru_transition_pushes_to_front() {
    let mut deque = VecDeque::new();
    record_mru_transition(&mut deque, 42, MRU_CAP);
    assert_eq!(deque, vec![42u64]);
}

#[test]
fn record_mru_transition_deduplicates() {
    let mut deque: VecDeque<u64> = vec![1, 2, 3].into();
    // Push 2 again — should move to front, deduplicated.
    record_mru_transition(&mut deque, 2, MRU_CAP);
    assert_eq!(deque, vec![2u64, 1, 3]);
}

#[test]
fn record_mru_transition_caps_at_k() {
    let mut deque = VecDeque::new();
    // Push 17 distinct ids with cap=16.
    for i in 0u64..17 {
        record_mru_transition(&mut deque, i, MRU_CAP);
    }
    assert_eq!(deque.len(), MRU_CAP, "deque must be capped at MRU_CAP={}", MRU_CAP);
    // The oldest push was id=0; it should be evicted (id=16 is front, id=1 is back).
    assert!(!deque.contains(&0), "oldest entry (0) must have been evicted");
    assert_eq!(*deque.front().unwrap(), 16, "most-recent (16) must be at front");
}

#[test]
fn detect_transitions_and_update_no_change_no_transition() {
    let mut last: HashMap<u64, u64> = [(10, 42)].into();
    let current = [(10u64, 42u64)];
    let out = detect_transitions_and_update(&mut last, &current);
    assert!(out.is_empty(), "no transition expected when active workspace unchanged");
    assert_eq!(last[&10], 42);
}

#[test]
fn detect_transitions_and_update_transition_recorded() {
    let mut last: HashMap<u64, u64> = [(10, 42)].into();
    // Active workspace changed from 42 to 99.
    let current = [(10u64, 99u64)];
    let out = detect_transitions_and_update(&mut last, &current);
    assert_eq!(out, vec![99u64]);
    assert_eq!(last[&10], 99);
}

#[test]
fn detect_transitions_and_update_fresh_group_emits_transition() {
    let mut last: HashMap<u64, u64> = HashMap::new();
    // Group 10 seen for the first time.
    let current = [(10u64, 42u64)];
    let out = detect_transitions_and_update(&mut last, &current);
    assert_eq!(out, vec![42u64]);
    assert_eq!(last[&10], 42);
}

#[test]
fn jump_on_empty_false_bookkeeping_and_trigger_inert() {
    let mut last: HashMap<u64, u64> = HashMap::new();
    let deque: VecDeque<u64> = VecDeque::new();

    assert!(deque.is_empty(), "recent_workspaces must start empty");
    assert!(last.is_empty(), "last_known_active must start empty");

    let transitions = detect_transitions_and_update(&mut last, &[(10u64, 42u64)]);
    for _ws_id in &transitions {}
    assert!(deque.is_empty(), "deque must be empty when feature is off (no record_mru_transition calls)");
}

#[test]
fn mru_state_is_fresh_on_new_appdata() {
    let deque1: VecDeque<u64> = VecDeque::with_capacity(MRU_CAP);
    let last1: HashMap<u64, u64> = HashMap::new();

    let deque2: VecDeque<u64> = VecDeque::with_capacity(MRU_CAP);
    let last2: HashMap<u64, u64> = HashMap::new();

    assert!(deque1.is_empty(), "first instance: recent_workspaces must be empty");
    assert!(last1.is_empty(), "first instance: last_known_active must be empty");
    assert!(deque2.is_empty(), "second instance: recent_workspaces must be empty");
    assert!(last2.is_empty(), "second instance: last_known_active must be empty");
}

#[test]
fn trigger_fires_exactly_once_when_workspace_empties_gradually() {
    let metas = vec![
        make_meta(1, vec![0], 10), // ws1
        make_meta(2, vec![1], 10), // ws2 (active, closing)
    ];

    // ws2 is empty once its last window closes; ws1 is occupied.
    let occ_after_tb = occupied(&[1]); // only ws1 still has a toplevel
    let rec = recent(&[]);
    let result = select_jump_target(2, &metas, &occ_after_tb, &rec);
    assert_eq!(result, Some(1), "second close (ws2 empty) must jump to ws1");
}

#[test]
fn occupancy_check_excludes_closing_handle() {
    let metas = vec![
        make_meta(1, vec![0], 10),
        make_meta(2, vec![1], 10),
    ];

    let occ = occupied(&[1]); // ws2 NOT in occupied because closed handle excluded
    let rec = recent(&[]);
    let result = select_jump_target(2, &metas, &occ, &rec);
    assert_eq!(result, Some(1), "must jump to ws1 when closing handle is properly excluded from occupancy");
}

#[test]
fn trigger_fires_only_when_workspace_is_active_and_empty() {
    let metas_single = vec![make_meta(1, vec![0], 10)];
    let occ_with_only_current = occupied(&[1]); // ws1 is "occupied" but also current
    let result = select_jump_target(1, &metas_single, &occ_with_only_current, &recent(&[]));
    assert_eq!(result, None, "sole workspace → None (no valid target)");

    let metas_two = vec![
        make_meta(1, vec![0], 10),
        make_meta(2, vec![1], 10),
    ];
    let occ_empty = occupied(&[]); // nothing occupied
    let result = select_jump_target(2, &metas_two, &occ_empty, &recent(&[]));
    assert_eq!(result, None, "no occupied target → None");
}

#[test]
fn select_jump_target_returns_none_when_current_is_only_occupied() {
    // All workspaces except current are unoccupied.
    let metas = vec![
        make_meta(1, vec![0], 10),
        make_meta(2, vec![1], 10),
        make_meta(3, vec![2], 10),
    ];
    let occ = occupied(&[1]);
    let rec = recent(&[]);
    let result = select_jump_target(1, &metas, &occ, &rec);
    assert_eq!(result, None, "no occupied non-current workspace → None");
}

#[test]
fn shorter_coordinates_come_first() {
    let metas = vec![make_meta(1, vec![0, 0], 10), make_meta(2, vec![0], 10)];
    assert_eq!(select_jump_target(9, &metas, &occupied(&[1, 2]), &recent(&[])), Some(2));
    let metas = vec![make_meta(1, vec![1, 0], 10), make_meta(2, vec![0, 9], 10)];
    assert_eq!(select_jump_target(9, &metas, &occupied(&[1, 2]), &recent(&[])), Some(2));
}

#[test]
fn recording_with_no_room_keeps_nothing() {
    let mut deque = recent(&[1, 2]);
    record_mru_transition(&mut deque, 3, 0);
    assert!(deque.is_empty());
}

#[test]
fn recording_twice_is_recording_once() {
    let mut deque = recent(&[1, 2, 3, 2]);
    record_mru_transition(&mut deque, 2, MRU_CAP);
    assert_eq!(deque, vec![2u64, 1, 3]);
    record_mru_transition(&mut deque, 2, MRU_CAP);
    assert_eq!(deque, vec![2u64, 1, 3]);
}

#[test]
fn several_groups_are_followed_separately() {
    let mut last: HashMap<u64, u64> = [(10, 1), (20, 5)].into();
    let out = detect_transitions_and_update(&mut last, &[(10, 2), (20, 5), (30, 7)]);
    assert_eq!(out, vec![2u64, 7]);
    assert_eq!(last, [(10, 2), (20, 5), (30, 7)].into());
    assert!(detect_transitions_and_update(&mut last, &[(10, 2), (20, 5), (30, 7)]).is_empty());
    assert!(detect_transitions_and_update(&mut last, &[]).is_empty());
    assert_eq!(last[&30], 7);
}

struct Trigger {
    closed: Vec<WorkspaceId>,
    is_active: HashMap<WorkspaceId, bool>,
    others: HashMap<WorkspaceId, usize>,
    group_of: HashMap<WorkspaceId, Option<u64>>,
    group_workspaces: HashMap<u64, Vec<WorkspaceMeta>>,
    group_occupied: HashMap<u64, HashSet<WorkspaceId>>,
    recent: VecDeque<WorkspaceId>,
}

impl Trigger {
    /// The window was on workspace 2 of group 10, which is active; workspace 1
    /// has another window.
    fn ready() -> Trigger {
        Trigger {
            closed: vec![2],
            is_active: [(2, true)].into(),
            others: [(2, 0)].into(),
            group_of: [(2, Some(10))].into(),
            group_workspaces: [(10, vec![make_meta(1, vec![0], 10), make_meta(2, vec![1], 10)])].into(),
            group_occupied: [(10, occupied(&[1]))].into(),
            recent: recent(&[]),
        }
    }

    fn outcome(&self) -> TriggerOutcome {
        evaluate_trigger(&TriggerInput {
            closed_workspaces: &self.closed,
            is_active: &self.is_active,
            occupied_excluding_closed: &self.others,
            group_id_for: &self.group_of,
            group_workspaces: &self.group_workspaces,
            group_occupied: &self.group_occupied,
            recent_mru: &self.recent,
        })
    }

    fn reason(&self) -> NoOpReason {
        match self.outcome() {
            TriggerOutcome::NoOp { reason } => reason,
            other => panic!("expected no jump, got {:?}", other),
        }
    }
}

#[test]
fn an_empty_active_workspace_calls_for_a_jump() {
    assert_eq!(
        Trigger::ready().outcome(),
        TriggerOutcome::Jump { source: 2, target: 1, group_id: 10 }
    );
}

#[test]
fn each_obstacle_to_a_jump_is_named() {
    let mut t = Trigger::ready();
    t.closed = vec![];
    assert_eq!(t.reason(), NoOpReason::NoWorkspace);

    let mut t = Trigger::ready();
    t.is_active = [(2, false)].into();
    assert_eq!(t.reason(), NoOpReason::NotActive);

    let mut t = Trigger::ready();
    t.others = [(2, 1)].into();
    assert_eq!(t.reason(), NoOpReason::StillOccupied { ws: 2 });

    let mut t = Trigger::ready();
    t.group_of = [(2, None)].into();
    assert_eq!(t.reason(), NoOpReason::NoGroup { ws: 2 });

    let mut t = Trigger::ready();
    t.group_occupied = HashMap::new();
    assert_eq!(t.reason(), NoOpReason::NoTarget { group_id: 10, source: 2 });

    let mut t = Trigger::ready();
    t.closed = vec![2, 3];
    t.is_active = HashMap::new();
    assert_eq!(t.reason(), NoOpReason::MultiWorkspaceNoMatch { handle_count: 2 });
}

#[test]
fn of_several_workspaces_the_first_that_calls_for_a_jump_counts() {
    let mut t = Trigger::ready();
    t.closed = vec![7, 2];
    t.is_active = [(7, true), (2, true)].into();
    assert_eq!(t.outcome(), TriggerOutcome::Jump { source: 2, target: 1, group_id: 10 });
}
