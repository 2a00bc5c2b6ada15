use nirimap::ipc::NiriWorkspace;
use nirimap::model::{MinimapState, Window, Workspace};

fn create_test_window(id: u64, x: f64, y: f64, width: f64, height: f64) -> Window {
    Window {
        id,
        pos: Some((x.to_bits(), y.to_bits())),
        size: (width.to_bits(), height.to_bits()),
        column_index: 0,
        window_index: 0,
        is_focused: false,
        is_floating: false,
        title: None,
        app_id: None,
    }
}

fn bits(p: (f64, f64)) -> (u64, u64) {
    (p.0.to_bits(), p.1.to_bits())
}

#[test]
fn test_minimap_state_new() {
    let state = MinimapState::new();
    assert!(state.workspaces.is_empty());
    assert_eq!(state.active_workspace_id, None);
    assert_eq!(state.focused_window_id, None);
}

#[test]
fn test_minimap_state_upsert_window_new() {
    let mut state = MinimapState::new();
    let window = create_test_window(1, 0.0, 0.0, 100.0, 200.0);
    state.upsert_window(1, window);

    assert_eq!(state.workspaces.len(), 1);
    assert!(state.workspaces.get(&1).unwrap().windows.contains_key(&1));
}

#[test]
fn test_minimap_state_upsert_window_update() {
    let mut state = MinimapState::new();
    let window1 = create_test_window(1, 0.0, 0.0, 100.0, 200.0);
    state.upsert_window(1, window1);

    let window2 = create_test_window(1, 50.0, 50.0, 150.0, 250.0);
    state.upsert_window(1, window2);

    assert_eq!(state.workspaces.len(), 1);
    let workspace = state.workspaces.get(&1).unwrap();
    assert_eq!(workspace.windows.len(), 1);
    let window = workspace.windows.get(&1).unwrap();
    assert_eq!(window.pos, Some(bits((50.0, 50.0))));
    assert_eq!(window.size, bits((150.0, 250.0)));
}

#[test]
fn test_minimap_state_remove_window() {
    let mut state = MinimapState::new();
    let window1 = create_test_window(1, 0.0, 0.0, 100.0, 200.0);
    let window2 = create_test_window(2, 100.0, 0.0, 100.0, 200.0);
    state.upsert_window(1, window1);
    state.upsert_window(1, window2);

    assert_eq!(state.workspaces.get(&1).unwrap().windows.len(), 2);

    state.remove_window(1);
    assert_eq!(state.workspaces.get(&1).unwrap().windows.len(), 1);
    assert!(!state.workspaces.get(&1).unwrap().windows.contains_key(&1));
}

#[test]
fn test_minimap_state_remove_window_across_workspaces() {
    let mut state = MinimapState::new();
    let window1 = create_test_window(1, 0.0, 0.0, 100.0, 200.0);
    state.upsert_window(1, window1.clone());
    state.upsert_window(2, window1);

    state.remove_window(1);

    assert!(!state.workspaces.get(&1).unwrap().windows.contains_key(&1));
    assert!(!state.workspaces.get(&2).unwrap().windows.contains_key(&1));
}

#[test]
fn test_minimap_state_set_focused_window() {
    let mut state = MinimapState::new();
    let mut window1 = create_test_window(1, 0.0, 0.0, 100.0, 200.0);
    let window2 = create_test_window(2, 100.0, 0.0, 100.0, 200.0);
    window1.is_focused = true;
    state.upsert_window(1, window1);
    state.upsert_window(1, window2);
    state.focused_window_id = Some(1);

    state.set_focused_window(Some(2));

    assert_eq!(state.focused_window_id, Some(2));
    let workspace = state.workspaces.get(&1).unwrap();
    assert!(!workspace.windows.get(&1).unwrap().is_focused);
    assert!(workspace.windows.get(&2).unwrap().is_focused);
}

#[test]
fn test_minimap_state_set_focused_window_none() {
    let mut state = MinimapState::new();
    let mut window1 = create_test_window(1, 0.0, 0.0, 100.0, 200.0);
    window1.is_focused = true;
    state.upsert_window(1, window1);
    state.focused_window_id = Some(1);

    state.set_focused_window(None);

    assert_eq!(state.focused_window_id, None);
    let workspace = state.workspaces.get(&1).unwrap();
    assert!(!workspace.windows.get(&1).unwrap().is_focused);
}

#[test]
fn test_minimap_state_set_active_workspace() {
    let mut state = MinimapState::new();
    let window = create_test_window(1, 0.0, 0.0, 100.0, 200.0);
    state.upsert_window(1, window.clone());
    state.upsert_window(2, window);
    state.workspaces.get_mut(&1).unwrap().is_active = true;
    state.active_workspace_id = Some(1);

    state.set_active_workspace(2);

    assert_eq!(state.active_workspace_id, Some(2));
    assert!(!state.workspaces.get(&1).unwrap().is_active);
    assert!(state.workspaces.get(&2).unwrap().is_active);
}

#[test]
fn test_minimap_state_active_workspace() {
    let mut state = MinimapState::new();
    let window = create_test_window(1, 0.0, 0.0, 100.0, 200.0);
    state.upsert_window(1, window);
    state.set_active_workspace(1);

    let active = state.active_workspace();
    assert!(active.is_some());
    assert!(active.unwrap().is_active);
}

#[test]
fn test_minimap_state_active_workspace_none() {
    let state = MinimapState::new();
    assert!(state.active_workspace().is_none());
}

fn ipc_workspace(id: u64, idx: u8, output: Option<&str>, is_active: bool, is_focused: bool) -> NiriWorkspace {
    NiriWorkspace {
        id,
        idx,
        output: output.map(|s| s.to_string()),
        is_active,
        is_focused,
        active_window_id: None,
    }
}

#[test]
fn test_workspaces_sorted_by_output_then_idx() {
    let mut state = MinimapState::new();
    let incoming = vec![
        ipc_workspace(3, 2, Some("DP-1"), false, false),
        ipc_workspace(1, 1, Some("DP-1"), true, true),
        ipc_workspace(5, 1, Some("HDMI-1"), true, false),
        ipc_workspace(7, 99, None, false, false),
        ipc_workspace(4, 3, Some("DP-1"), false, false),
    ];
    state.replace_workspace_metadata(&incoming);

    let sorted_ids: Vec<u64> = state.workspaces_sorted().iter().map(|w| w.id).collect();
    assert_eq!(sorted_ids, vec![1, 3, 4, 5, 7]);
}

#[test]
fn test_replace_workspace_metadata_preserves_windows() {
    let mut state = MinimapState::new();
    let window = create_test_window(1, 0.0, 0.0, 100.0, 200.0);
    state.upsert_window(1, window);

    assert_eq!(state.workspaces.get(&1).unwrap().windows.len(), 1);

    let incoming = vec![ipc_workspace(1, 0, Some("DP-1"), true, true)];
    state.replace_workspace_metadata(&incoming);

    let ws = state.workspaces.get(&1).unwrap();
    assert_eq!(ws.idx, 0);
    assert_eq!(ws.output.as_deref(), Some("DP-1"));
    assert!(ws.is_active);
    assert_eq!(ws.windows.len(), 1);
    assert_eq!(state.active_workspace_id, Some(1));
}

#[test]
fn test_replace_workspace_metadata_removes_missing() {
    let mut state = MinimapState::new();
    state.upsert_window(1, create_test_window(10, 0.0, 0.0, 100.0, 200.0));
    state.upsert_window(2, create_test_window(20, 0.0, 0.0, 100.0, 200.0));
    state.active_workspace_id = Some(2);

    let incoming = vec![ipc_workspace(1, 0, None, true, true)];
    state.replace_workspace_metadata(&incoming);

    assert!(state.workspaces.contains_key(&1));
    assert!(!state.workspaces.contains_key(&2));
    assert_eq!(state.active_workspace_id, Some(1));
}

#[test]
fn test_replace_workspace_metadata_inserts_new_empty() {
    let mut state = MinimapState::new();
    let incoming = vec![ipc_workspace(1, 0, None, true, true), ipc_workspace(2, 1, None, false, false)];
    state.replace_workspace_metadata(&incoming);

    assert_eq!(state.workspaces.len(), 2);
    assert!(state.workspaces.get(&1).unwrap().windows.is_empty());
    assert!(state.workspaces.get(&2).unwrap().windows.is_empty());
}

#[test]
fn replace_workspace_metadata_keeps_surviving_active_without_focus() {
    let mut state = MinimapState::new();
    state.upsert_window(1, create_test_window(10, 0.0, 0.0, 100.0, 200.0));
    state.upsert_window(2, create_test_window(20, 0.0, 0.0, 100.0, 200.0));
    state.active_workspace_id = Some(2);
    state.replace_workspace_metadata(&[ipc_workspace(1, 0, None, false, false), ipc_workspace(2, 1, None, true, false)]);
    assert_eq!(state.active_workspace_id, Some(2));
    state.replace_workspace_metadata(&[ipc_workspace(1, 0, None, true, false)]);
    assert_eq!(state.active_workspace_id, None);
}

#[test]
fn find_window_across_workspaces() {
    let mut state = MinimapState::new();
    let mut w = create_test_window(4, 0.0, 0.0, 10.0, 10.0);
    w.is_floating = true;
    state.upsert_window(2, w);
    assert!(state.find_window(4).unwrap().is_floating);
    assert!(state.find_window(5).is_none());
}

#[test]
fn workspaces_for_output_and_active_one() {
    let mut state = MinimapState::new();
    state.replace_workspace_metadata(&[
        ipc_workspace(3, 2, Some("DP-1"), false, false),
        ipc_workspace(1, 1, Some("DP-1"), true, true),
        ipc_workspace(5, 1, Some("HDMI-1"), true, false),
    ]);
    let ids: Vec<u64> = state.workspaces_for_output("DP-1").iter().map(|w| w.id).collect();
    assert_eq!(ids, vec![1, 3]);
    assert_eq!(state.active_workspace_for_output("HDMI-1").map(|w| w.id), Some(5));
    assert!(state.active_workspace_for_output("eDP-1").is_none());
    assert!(state.workspaces_for_output("eDP-1").is_empty());
}

#[test]
fn new_empty_workspace() {
    let ws = Workspace::new_empty(9);
    assert_eq!(ws.id, 9);
    assert!(ws.windows.is_empty());
    assert!(!ws.is_active);
}
