use nirimap::config::WorkspaceMode;
use nirimap::layout::{needs_remeasure, sorted_window_cells, tiled_columns, window_highlighted};
use nirimap::model::{MinimapState, Window, Workspace};

fn test_window(id: u64, column_index: usize, window_index: usize, size: (f64, f64)) -> Window {
    Window {
        id,
        pos: Some((0.0f64.to_bits(), 0.0f64.to_bits())),
        size: (size.0.to_bits(), size.1.to_bits()),
        column_index,
        window_index,
        is_focused: false,
        is_floating: false,
        title: None,
        app_id: None,
    }
}

fn workspace(id: u64, idx: u8, output: &str, is_active: bool) -> Workspace {
    let mut ws = Workspace::new_empty(id);
    ws.idx = idx;
    ws.output = Some(output.to_string());
    ws.is_active = is_active;
    ws
}

/// Two windows in one column on workspace 1, output "DP-1".
fn test_state() -> MinimapState {
    let mut state = MinimapState::new();
    let mut ws = workspace(1, 0, "DP-1", true);
    ws.windows.insert(1, test_window(1, 0, 0, (100.0, 50.0)));
    ws.windows.insert(2, test_window(2, 0, 1, (100.0, 50.0)));
    state.workspaces.insert(1, ws);
    state.active_workspace_id = Some(1);
    state
}

#[test]
fn signature_ignores_tile_size_animation() {
    let before = test_state().layout_signature("DP-1", WorkspaceMode::All);

    // Overview animates tile sizes without changing the arrangement.
    let mut state = test_state();
    let ws = state.workspaces.get_mut(&1).unwrap();
    ws.windows.get_mut(&1).unwrap().size = (42.0f64.to_bits(), 21.0f64.to_bits());
    ws.windows.get_mut(&2).unwrap().size = (42.0f64.to_bits(), 21.0f64.to_bits());

    assert_eq!(
        before,
        state.layout_signature("DP-1", WorkspaceMode::All),
        "cell-size animation must not trigger a resize"
    );
}

#[test]
fn signature_changes_when_a_window_moves_to_another_column() {
    let before = test_state().layout_signature("DP-1", WorkspaceMode::All);

    let mut state = test_state();
    let win = state.workspaces.get_mut(&1).unwrap().windows.get_mut(&2).unwrap();
    win.column_index = 1;
    win.window_index = 0;

    assert_ne!(
        before,
        state.layout_signature("DP-1", WorkspaceMode::All),
        "moving a window between columns must re-measure the widget"
    );
}

#[test]
fn signature_changes_when_a_workspace_row_appears() {
    let before = test_state().layout_signature("DP-1", WorkspaceMode::All);

    // A window moved onto a second workspace: `all` mode grows by one row.
    let mut state = test_state();
    let mut ws2 = workspace(2, 1, "DP-1", false);
    ws2.windows.insert(3, test_window(3, 0, 0, (100.0, 50.0)));
    state.workspaces.insert(2, ws2);

    assert_ne!(
        before,
        state.layout_signature("DP-1", WorkspaceMode::All),
        "a new workspace row must re-measure the widget"
    );
}

#[test]
fn signature_is_stable_across_hashmap_iteration_order() {
    // Same arrangement, inserted in the opposite order.
    let mut a = MinimapState::new();
    let mut ws_a = workspace(1, 0, "DP-1", true);
    ws_a.windows.insert(1, test_window(1, 0, 0, (100.0, 50.0)));
    ws_a.windows.insert(2, test_window(2, 0, 1, (100.0, 50.0)));
    a.workspaces.insert(1, ws_a);

    let mut b = MinimapState::new();
    let mut ws_b = workspace(1, 0, "DP-1", true);
    ws_b.windows.insert(2, test_window(2, 0, 1, (100.0, 50.0)));
    ws_b.windows.insert(1, test_window(1, 0, 0, (100.0, 50.0)));
    b.workspaces.insert(1, ws_b);

    assert_eq!(
        a.layout_signature("DP-1", WorkspaceMode::All),
        b.layout_signature("DP-1", WorkspaceMode::All)
    );
}

#[test]
fn signature_ignores_focus_title_and_position() {
    let before = test_state().layout_signature("DP-1", WorkspaceMode::Current);

    let mut state = test_state();
    let ws = state.workspaces.get_mut(&1).unwrap();
    let w = ws.windows.get_mut(&1).unwrap();
    w.is_focused = true;
    w.title = Some("changed".to_string());
    w.pos = None;
    ws.active_window_id = Some(1);

    assert_eq!(before, state.layout_signature("DP-1", WorkspaceMode::Current));
}

#[test]
fn signature_changes_when_the_active_workspace_changes() {
    let mut state = test_state();
    state.workspaces.insert(2, workspace(2, 1, "DP-1", false));
    let before = state.layout_signature("DP-1", WorkspaceMode::Current);

    state.workspaces.get_mut(&1).unwrap().is_active = false;
    state.workspaces.get_mut(&2).unwrap().is_active = true;

    assert_ne!(before, state.layout_signature("DP-1", WorkspaceMode::Current));
}

#[test]
fn shown_rows_in_all_mode_skip_empty_inactive_workspaces() {
    let mut state = test_state();
    state.workspaces.insert(2, workspace(2, 1, "DP-1", false));
    let mut ws3 = workspace(3, 2, "DP-1", false);
    ws3.windows.insert(7, test_window(7, 0, 0, (10.0, 10.0)));
    state.workspaces.insert(3, ws3);
    let mut other = workspace(4, 0, "HDMI-A-1", true);
    other.windows.insert(9, test_window(9, 0, 0, (10.0, 10.0)));
    state.workspaces.insert(4, other);

    assert_eq!(state.shown_workspace_keys("DP-1", WorkspaceMode::All), vec![1, 3]);
    assert_eq!(state.shown_workspace_keys("HDMI-A-1", WorkspaceMode::All), vec![4]);
    assert_eq!(state.shown_workspace_keys("eDP-1", WorkspaceMode::All), Vec::<u64>::new());
}

#[test]
fn shown_rows_in_current_mode_are_the_active_workspace() {
    let mut state = test_state();
    let mut ws3 = workspace(3, 2, "DP-1", false);
    ws3.windows.insert(7, test_window(7, 0, 0, (10.0, 10.0)));
    state.workspaces.insert(3, ws3);

    assert_eq!(state.shown_workspace_keys("DP-1", WorkspaceMode::Current), vec![1]);

    state.workspaces.get_mut(&1).unwrap().is_active = false;
    assert_eq!(
        state.shown_workspace_keys("DP-1", WorkspaceMode::Current),
        Vec::<u64>::new()
    );
}

#[test]
fn window_cells_are_sorted_with_duplicates_kept() {
    let mut ws = workspace(1, 0, "DP-1", true);
    ws.windows.insert(5, test_window(5, 2, 0, (1.0, 1.0)));
    ws.windows.insert(3, test_window(3, 0, 1, (1.0, 1.0)));
    ws.windows.insert(4, test_window(3, 0, 1, (1.0, 1.0)));
    ws.windows.insert(1, test_window(1, 1, 0, (1.0, 1.0)));

    assert_eq!(
        sorted_window_cells(&ws),
        vec![(1, 1, 0), (3, 0, 1), (3, 0, 1), (5, 2, 0)]
    );
}

#[test]
fn tiled_columns_group_by_column_and_order_by_index() {
    let mut ws = workspace(1, 0, "DP-1", true);
    ws.windows.insert(10, test_window(10, 2, 1, (1.0, 1.0)));
    ws.windows.insert(11, test_window(11, 0, 0, (1.0, 1.0)));
    ws.windows.insert(12, test_window(12, 2, 0, (1.0, 1.0)));
    ws.windows.insert(13, test_window(13, 2, 0, (1.0, 1.0)));
    let mut floating = test_window(14, 1, 0, (1.0, 1.0));
    floating.is_floating = true;
    ws.windows.insert(14, floating);

    assert_eq!(tiled_columns(&ws), vec![(0, vec![11]), (2, vec![12, 13, 10])]);
}

#[test]
fn tiled_columns_of_an_empty_workspace() {
    let ws = workspace(1, 0, "DP-1", true);
    assert!(tiled_columns(&ws).is_empty());
}

#[test]
fn overview_animation_does_not_remeasure_but_a_move_does() {
    let before = test_state().layout_signature("DP-1", WorkspaceMode::All);

    let mut animated = test_state();
    animated.workspaces.get_mut(&1).unwrap().windows.get_mut(&1).unwrap().size =
        (42.0f64.to_bits(), 21.0f64.to_bits());
    let sig = animated.layout_signature("DP-1", WorkspaceMode::All);
    assert!(!needs_remeasure(true, sig, before));
    assert!(needs_remeasure(false, sig, before));

    let mut moved = test_state();
    moved.workspaces.get_mut(&1).unwrap().windows.get_mut(&2).unwrap().column_index = 1;
    let sig = moved.layout_signature("DP-1", WorkspaceMode::All);
    assert!(needs_remeasure(true, sig, before));
}

#[test]
fn focus_target_floats_only_for_known_floating_windows() {
    let mut state = test_state();
    let mut popup = test_window(9, 0, 0, (10.0, 10.0));
    popup.is_floating = true;
    state.workspaces.get_mut(&1).unwrap().windows.insert(9, popup);
    assert!(state.window_floats(Some(9)));
    assert!(!state.window_floats(Some(1)));
    assert!(!state.window_floats(Some(77)));
    assert!(!state.window_floats(None));
}

#[test]
fn highlight_follows_focus_and_overview_memory() {
    let mut ws = workspace(1, 0, "DP-1", true);
    ws.active_window_id = Some(2);
    let mut focused = test_window(1, 0, 0, (1.0, 1.0));
    focused.is_focused = true;
    let remembered = test_window(2, 1, 0, (1.0, 1.0));
    let other = test_window(3, 2, 0, (1.0, 1.0));

    assert!(window_highlighted(&ws, &focused, false));
    assert!(!window_highlighted(&ws, &remembered, false));
    assert!(window_highlighted(&ws, &remembered, true));
    assert!(!window_highlighted(&ws, &other, true));
    ws.is_active = false;
    assert!(!window_highlighted(&ws, &remembered, true));
}
