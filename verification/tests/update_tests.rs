use nirimap::ipc::{NiriWorkspace, WindowLayout};
use nirimap::model::{MinimapState, Window};
use nirimap::update::{apply_state_update, Followup, StateUpdate};

fn win(id: u64, column_index: usize, window_index: usize, w: f64, h: f64) -> Window {
    Window {
        id,
        pos: None,
        size: (w.to_bits(), h.to_bits()),
        column_index,
        window_index,
        is_focused: false,
        is_floating: false,
        title: None,
        app_id: None,
    }
}

fn test_ipc_window_layout(col: usize, win_idx: usize, w: f64, h: f64) -> WindowLayout {
    WindowLayout {
        pos_in_scrolling_layout: Some((col, win_idx)),
        tile_size: (w.to_bits(), h.to_bits()),
        tile_pos_in_workspace_view: None,
    }
}

#[test]
fn test_layouts_changed_applied_during_overview() {
    let mut state = MinimapState::new();

    apply_state_update(&mut state, StateUpdate::WindowChanged { window: win(1, 0, 0, 100.0, 50.0), workspace_id: Some(1) });
    apply_state_update(&mut state, StateUpdate::WindowChanged { window: win(2, 0, 1, 100.0, 50.0), workspace_id: Some(1) });

    apply_state_update(&mut state, StateUpdate::OverviewChanged(true));
    assert!(state.overview_open);

    let layout_win1 = test_ipc_window_layout(1, 2, 100.0, 60.0);
    let layout_win2 = test_ipc_window_layout(1, 1, 100.0, 40.0);
    apply_state_update(&mut state, StateUpdate::LayoutsChanged(vec![(1, layout_win1), (2, layout_win2)]));

    let ws = state.workspaces.get(&1).unwrap();
    let w1 = ws.windows.get(&1).unwrap();
    let w2 = ws.windows.get(&2).unwrap();

    assert_eq!(w1.column_index, 0);
    assert_eq!(w1.window_index, 1);
    assert_eq!(w1.size, (100.0f64.to_bits(), 60.0f64.to_bits()));

    assert_eq!(w2.column_index, 0);
    assert_eq!(w2.window_index, 0);
    assert_eq!(w2.size, (100.0f64.to_bits(), 40.0f64.to_bits()));
}

#[test]
fn test_window_changed_workspace_move_and_none() {
    let mut state = MinimapState::new();
    let w = win(10, 0, 0, 100.0, 100.0);

    apply_state_update(&mut state, StateUpdate::WindowChanged { window: w.clone(), workspace_id: Some(1) });
    assert!(state.workspaces.get(&1).unwrap().windows.contains_key(&10));

    apply_state_update(&mut state, StateUpdate::WindowChanged { window: w.clone(), workspace_id: Some(2) });
    assert!(!state.workspaces.get(&1).unwrap().windows.contains_key(&10));
    assert!(state.workspaces.get(&2).unwrap().windows.contains_key(&10));

    apply_state_update(&mut state, StateUpdate::WindowChanged { window: w, workspace_id: None });
    assert!(!state.workspaces.get(&2).unwrap().windows.contains_key(&10));
}

#[test]
fn new_window_on_active_workspace_asks_to_show() {
    let mut state = MinimapState::new();
    apply_state_update(&mut state, StateUpdate::WorkspaceActivated { id: 1, focused: true });
    let mut w = win(5, 0, 0, 10.0, 10.0);
    w.is_floating = true;
    let f = apply_state_update(&mut state, StateUpdate::WindowChanged { window: w.clone(), workspace_id: Some(1) });
    assert_eq!(f, Followup::ShowForNewWindow(true));
    // the same window again is no longer new
    let f = apply_state_update(&mut state, StateUpdate::WindowChanged { window: w.clone(), workspace_id: Some(1) });
    assert_eq!(f, Followup::Nothing);
    // a new window elsewhere does not show
    let f = apply_state_update(&mut state, StateUpdate::WindowChanged { window: win(6, 0, 0, 1.0, 1.0), workspace_id: Some(2) });
    assert_eq!(f, Followup::Nothing);
}

#[test]
fn focused_window_change_moves_focus() {
    let mut state = MinimapState::new();
    let mut a = win(1, 0, 0, 1.0, 1.0);
    a.is_focused = true;
    apply_state_update(&mut state, StateUpdate::WindowChanged { window: a, workspace_id: Some(1) });
    assert_eq!(state.focused_window_id, Some(1));
    let mut b = win(2, 1, 0, 1.0, 1.0);
    b.is_focused = true;
    apply_state_update(&mut state, StateUpdate::WindowChanged { window: b, workspace_id: Some(1) });
    assert_eq!(state.focused_window_id, Some(2));
    assert!(!state.workspaces.get(&1).unwrap().windows.get(&1).unwrap().is_focused);
    assert!(state.workspaces.get(&1).unwrap().windows.get(&2).unwrap().is_focused);
}

#[test]
fn other_updates_and_followups() {
    let mut state = MinimapState::new();
    apply_state_update(&mut state, StateUpdate::WindowChanged { window: win(1, 0, 0, 1.0, 1.0), workspace_id: Some(1) });
    assert_eq!(apply_state_update(&mut state, StateUpdate::FocusChanged(Some(1))), Followup::ShowOnFocusChange(Some(1)));
    assert!(state.workspaces.get(&1).unwrap().windows.get(&1).unwrap().is_focused);
    assert_eq!(apply_state_update(&mut state, StateUpdate::OverviewChanged(true)), Followup::SetOverviewOpen(true));
    assert_eq!(
        apply_state_update(&mut state, StateUpdate::WorkspaceActivated { id: 3, focused: false }),
        Followup::ShowAll
    );
    assert!(!state.workspaces.contains_key(&3));
    assert_eq!(
        apply_state_update(&mut state, StateUpdate::WorkspaceActiveWindowChanged { workspace_id: 1, active_window_id: Some(1) }),
        Followup::Nothing
    );
    assert_eq!(state.workspaces.get(&1).unwrap().active_window_id, Some(1));
    apply_state_update(&mut state, StateUpdate::WorkspaceActiveWindowChanged { workspace_id: 8, active_window_id: Some(1) });
    assert!(!state.workspaces.contains_key(&8));
    assert_eq!(apply_state_update(&mut state, StateUpdate::WindowClosed(1)), Followup::Nothing);
    assert!(state.find_window(1).is_none());
    let ws = vec![NiriWorkspace { id: 4, idx: 1, output: None, is_active: true, is_focused: true, active_window_id: None }];
    assert_eq!(apply_state_update(&mut state, StateUpdate::WorkspacesChanged(ws)), Followup::Nothing);
    assert_eq!(state.active_workspace_id, Some(4));
    assert!(!state.workspaces.contains_key(&1));
    assert_eq!(apply_state_update(&mut state, StateUpdate::FullState(MinimapState::new())), Followup::Nothing);
    assert!(state.workspaces.is_empty());
    assert!(!state.overview_open);
}

fn flagged(state: &MinimapState) -> Vec<u64> {
    let mut out = Vec::new();
    for ws in state.workspaces.values() {
        for (k, w) in &ws.windows {
            if w.is_focused {
                out.push(*k);
            }
        }
    }
    out.sort();
    out
}

fn holders(state: &MinimapState, id: u64) -> Vec<u64> {
    let mut out: Vec<u64> = state
        .workspaces
        .iter()
        .filter(|(_, ws)| ws.windows.contains_key(&id))
        .map(|(k, _)| *k)
        .collect();
    out.sort();
    out
}

#[test]
fn updates_keep_each_window_on_one_workspace_under_its_id() {
    let mut state = MinimapState::new();
    let updates = vec![
        StateUpdate::WindowChanged { window: win(1, 0, 0, 10.0, 10.0), workspace_id: Some(1) },
        StateUpdate::WindowChanged { window: win(2, 1, 0, 10.0, 10.0), workspace_id: Some(1) },
        StateUpdate::WindowChanged { window: win(1, 0, 0, 10.0, 10.0), workspace_id: Some(2) },
        StateUpdate::WorkspaceActivated { id: 2, focused: true },
        StateUpdate::LayoutsChanged(vec![(2, test_ipc_window_layout(3, 1, 5.0, 5.0))]),
        StateUpdate::WindowChanged { window: win(2, 0, 0, 10.0, 10.0), workspace_id: Some(3) },
    ];
    for u in updates {
        apply_state_update(&mut state, u);
        for ws in state.workspaces.values() {
            for (k, w) in &ws.windows {
                assert_eq!(*k, w.id);
                assert_eq!(holders(&state, *k).len(), 1);
            }
        }
    }
    assert_eq!(holders(&state, 1), vec![2]);
    assert_eq!(holders(&state, 2), vec![3]);
}

#[test]
fn updates_keep_the_focus_flag_on_the_focused_window() {
    let mut state = MinimapState::new();
    let mut focused = win(1, 0, 0, 10.0, 10.0);
    focused.is_focused = true;
    apply_state_update(&mut state, StateUpdate::WindowChanged { window: focused, workspace_id: Some(1) });
    apply_state_update(&mut state, StateUpdate::WindowChanged { window: win(2, 1, 0, 10.0, 10.0), workspace_id: Some(1) });
    assert_eq!(flagged(&state), vec![1]);
    assert_eq!(state.focused_window_id, Some(1));

    apply_state_update(&mut state, StateUpdate::FocusChanged(Some(2)));
    assert_eq!(flagged(&state), vec![2]);

    let mut other = win(3, 0, 0, 10.0, 10.0);
    other.is_focused = true;
    apply_state_update(&mut state, StateUpdate::WindowChanged { window: other, workspace_id: Some(2) });
    assert_eq!(flagged(&state), vec![3]);
    assert_eq!(state.focused_window_id, Some(3));

    apply_state_update(&mut state, StateUpdate::FocusChanged(None));
    assert!(flagged(&state).is_empty());
}

#[test]
fn changed_window_is_found_as_reported_and_closed_window_is_not() {
    let mut state = MinimapState::new();
    apply_state_update(&mut state, StateUpdate::WindowChanged { window: win(5, 0, 0, 10.0, 10.0), workspace_id: Some(1) });
    let mut moved = win(5, 2, 1, 30.0, 20.0);
    moved.title = Some("moved".to_string());
    apply_state_update(&mut state, StateUpdate::WindowChanged { window: moved.clone(), workspace_id: Some(4) });
    let found = state.find_window(5).unwrap();
    assert_eq!(found.column_index, 2);
    assert_eq!(found.window_index, 1);
    assert_eq!(found.title, Some("moved".to_string()));
    assert_eq!(holders(&state, 5), vec![4]);

    apply_state_update(&mut state, StateUpdate::WindowClosed(5));
    assert!(state.find_window(5).is_none());
}

#[test]
fn workspaces_changed_keeps_windows_of_listed_workspaces() {
    let mut state = MinimapState::new();
    apply_state_update(&mut state, StateUpdate::WindowChanged { window: win(1, 0, 0, 10.0, 10.0), workspace_id: Some(1) });
    apply_state_update(&mut state, StateUpdate::WindowChanged { window: win(2, 0, 0, 10.0, 10.0), workspace_id: Some(2) });
    let listed = vec![
        NiriWorkspace { id: 2, idx: 0, output: Some("DP-1".to_string()), is_active: true, is_focused: true, active_window_id: Some(2) },
        NiriWorkspace { id: 3, idx: 1, output: Some("DP-1".to_string()), is_active: false, is_focused: false, active_window_id: None },
    ];
    apply_state_update(&mut state, StateUpdate::WorkspacesChanged(listed));
    assert!(!state.workspaces.contains_key(&1));
    assert!(state.workspaces.get(&2).unwrap().windows.contains_key(&2));
    assert!(state.workspaces.get(&3).unwrap().windows.is_empty());
    assert_eq!(state.active_workspace_id, Some(2));
}

#[test]
fn layout_changes_keep_windows_where_they_are() {
    let mut state = MinimapState::new();
    let mut focused = win(1, 0, 0, 10.0, 10.0);
    focused.is_focused = true;
    apply_state_update(&mut state, StateUpdate::WindowChanged { window: focused, workspace_id: Some(1) });
    apply_state_update(&mut state, StateUpdate::WindowChanged { window: win(2, 1, 0, 10.0, 10.0), workspace_id: Some(2) });
    let floating = WindowLayout { pos_in_scrolling_layout: None, tile_size: (5.0f64.to_bits(), 5.0f64.to_bits()), tile_pos_in_workspace_view: None };
    apply_state_update(
        &mut state,
        StateUpdate::LayoutsChanged(vec![(1, floating), (99, test_ipc_window_layout(2, 2, 1.0, 1.0))]),
    );
    assert_eq!(holders(&state, 1), vec![1]);
    assert_eq!(holders(&state, 2), vec![2]);
    assert_eq!(holders(&state, 99), Vec::<u64>::new());
    let w1 = state.workspaces.get(&1).unwrap().windows.get(&1).unwrap();
    assert!(w1.is_focused);
    assert!(w1.is_floating);
    assert_eq!(w1.column_index, 0);
    assert_eq!(state.focused_window_id, Some(1));
}

#[test]
fn focus_change_leaves_exactly_the_focused_window_flagged() {
    let mut state = MinimapState::new();
    let mut first = win(1, 0, 0, 10.0, 10.0);
    first.is_focused = true;
    apply_state_update(&mut state, StateUpdate::WindowChanged { window: first, workspace_id: Some(1) });
    apply_state_update(&mut state, StateUpdate::WindowChanged { window: win(2, 1, 0, 10.0, 10.0), workspace_id: Some(2) });
    state.set_focused_window(Some(2));
    assert_eq!(flagged(&state), vec![2]);
    assert_eq!(state.focused_window_id, Some(2));
    assert!(state.workspaces.get(&2).unwrap().windows.get(&2).unwrap().is_focused);
    state.set_focused_window(Some(1));
    assert_eq!(flagged(&state), vec![1]);
}
