use cosmic_ext_window_daemon::effects::Effect;
use cosmic_ext_window_daemon::ids::{object_key, protocol_id};
use cosmic_ext_window_daemon::wayland::workspace::{
    first_empty_workspace_in_group, select_group_for_output, workspace_is_active, WorkspaceManager,
    WorkspaceTx, WorkspaceTxError,
};
use cosmic_ext_window_daemon::world::{
    can_create, Toplevel, Workspace, WorkspaceGroup, World, CAPABILITY_CREATE_WORKSPACE,
    STATE_ACTIVE,
};
use wayland_protocols::ext::workspace::v1::client::ext_workspace_group_handle_v1::GroupCapabilities;
use wayland_protocols::ext::workspace::v1::client::ext_workspace_handle_v1::State;

fn workspace(handle: u64, state: u32) -> Workspace {
    Workspace { handle, coordinates: vec![], state }
}

fn group(handle: u64, outputs: &[u64], workspaces: &[u64]) -> WorkspaceGroup {
    WorkspaceGroup {
        handle,
        capabilities: 0,
        outputs: outputs.to_vec(),
        workspaces: workspaces.to_vec(),
    }
}

fn world(groups: Vec<WorkspaceGroup>, workspaces: Vec<Workspace>, occupied: &[u64]) -> World {
    World {
        outputs: vec![],
        toplevels: vec![Toplevel {
            handle: 1,
            cosmic_handle: None,
            app_id: String::new(),
            title: String::new(),
            outputs: vec![],
            workspaces: occupied.to_vec(),
        }],
        workspaces,
        groups,
        manager: Some(5),
    }
}

#[test]
fn the_bits_are_those_of_the_protocol() {
    assert_eq!(STATE_ACTIVE, State::Active.bits());
    assert_eq!(CAPABILITY_CREATE_WORKSPACE, GroupCapabilities::CreateWorkspace.bits());
}

#[test]
fn a_workspace_is_active_whatever_else_it_is() {
    assert!(workspace_is_active(&workspace(1, State::Active.bits())));
    assert!(workspace_is_active(&workspace(1, (State::Active | State::Urgent).bits())));
    assert!(!workspace_is_active(&workspace(1, State::Urgent.bits())));
    assert!(!workspace_is_active(&workspace(1, 0)));
}

#[test]
fn a_group_says_whether_it_takes_workspaces() {
    let mut g = group(1, &[], &[]);
    assert!(!can_create(&g));
    g.capabilities = GroupCapabilities::CreateWorkspace.bits() | 8;
    assert!(can_create(&g));
}

#[test]
fn the_lowest_group_on_an_output_is_selected() {
    let w = world(vec![group(30, &[7], &[]), group(20, &[8, 7], &[]), group(10, &[8], &[])], vec![], &[]);
    assert_eq!(select_group_for_output(&w, 7).map(|g| g.handle), Some(20));
    assert_eq!(select_group_for_output(&w, 8).map(|g| g.handle), Some(10));
    assert!(select_group_for_output(&w, 9).is_none());
}

#[test]
fn the_lowest_empty_workspace_is_found() {
    let all = vec![workspace(40, 0), workspace(30, 0), workspace(20, 0), workspace(10, 0)];
    let g = group(1, &[], &[40, 30, 20]);
    let w = world(vec![], all.clone(), &[20]);
    assert_eq!(first_empty_workspace_in_group(&w, &g).map(|x| x.handle), Some(30));
    let w = world(vec![], all, &[20, 30, 40]);
    assert!(first_empty_workspace_in_group(&w, &g).is_none());
}

#[test]
fn the_manager_is_there_once_it_is_bound() {
    let mut w = world(vec![], vec![], &[]);
    assert!(WorkspaceManager::from_state(&w).is_ok());
    w.manager = None;
    assert!(matches!(
        WorkspaceManager::from_state(&w),
        Err(WorkspaceTxError::ManagerUnavailable)
    ));
}

#[test]
fn a_transaction_is_committed_once() {
    let manager = WorkspaceManager::new(9);
    let mut outbox = vec![Effect::CancelTimer { token: 1 }];
    let result = manager.transaction(&mut outbox, |tx: &mut WorkspaceTx| {
        tx.create_workspace(3, "mail".to_string()).activate(4);
        Ok(17)
    });
    assert_eq!(result, Ok(17));
    assert_eq!(
        outbox,
        vec![
            Effect::CancelTimer { token: 1 },
            Effect::CreateWorkspace { group: 3, name: "mail".to_string() },
            Effect::Activate { workspace: 4 },
            Effect::Commit { manager: 9 },
        ]
    );
}

#[test]
fn a_failed_transaction_is_not_committed() {
    let manager = WorkspaceManager::new(9);
    let mut outbox = Vec::new();
    let result: Result<(), WorkspaceTxError> =
        manager.transaction(&mut outbox, |tx: &mut WorkspaceTx| {
            tx.activate(4);
            Err(WorkspaceTxError::Other("no".to_string()))
        });
    assert_eq!(result, Err(WorkspaceTxError::Other("no".to_string())));
    assert_eq!(outbox, vec![Effect::Activate { workspace: 4 }]);
}

#[test]
fn transaction_errors_have_their_messages() {
    assert_eq!(
        WorkspaceTxError::ManagerUnavailable.message(),
        "ext_workspace_manager_v1 not available"
    );
    assert_eq!(
        WorkspaceTxError::Other("no".to_string()).message(),
        "workspace transaction error: no"
    );
}

#[test]
fn an_object_number_is_the_lower_half_of_its_key() {
    assert_eq!(protocol_id(0xffff_ffff), 0xffff_ffff);
    assert_eq!(protocol_id(0x7_0000_002a), 42);
}

#[test]
fn a_number_that_is_given_out_again_has_another_key() {
    assert_eq!(object_key(42, 0), 42);
    assert_eq!(object_key(42, 7), 0x7_0000_002a);
    assert_eq!(protocol_id(object_key(u32::MAX, u32::MAX)), u32::MAX as u64);
    assert_ne!(object_key(42, 1), object_key(42, 2));
    assert_ne!(object_key(41, 1), object_key(42, 1));
}
