use nirimap::ipc::{
    closes_overview, event_to_update, is_blank_line, reload_requested, FileChange, niri_window_to_model, reconnect_delay, should_reload_config,
    state_from_snapshot, validate_and_convert_indices, validate_socket_path, is_expected_socket_location,
    IpcEvent, NiriWindow, NiriWorkspace, SocketPathError, WindowLayout, CONFIG_RELOAD_DEBOUNCE_MS,
    IPC_RECONNECT_MAX_MS, IPC_RECONNECT_MIN_MS,
};
use nirimap::update::StateUpdate;

#[test]
fn test_validate_socket_path_valid_absolute_paths() {
    assert!(validate_socket_path("/run/user/1000/niri.sock").is_ok());
    assert!(validate_socket_path("/tmp/niri.sock").is_ok());
    assert!(validate_socket_path("/run/user/12345/niri-wayland.sock").is_ok());
}

#[test]
fn test_validate_socket_path_rejects_relative_paths() {
    assert!(validate_socket_path("./niri.sock").is_err());
    assert!(validate_socket_path("../niri.sock").is_err());
    assert!(validate_socket_path("niri.sock").is_err());
}

#[test]
fn test_validate_socket_path_empty() {
    assert!(validate_socket_path("").is_err());
}

#[test]
fn test_validate_socket_path_unexpected_location() {
    assert!(validate_socket_path("/home/user/niri.sock").is_ok());
    assert!(validate_socket_path("/var/niri.sock").is_ok());
}

#[test]
fn socket_path_error_kind_is_not_absolute() {
    assert_eq!(validate_socket_path("niri.sock"), Err(SocketPathError::NotAbsolute));
}

#[test]
fn expected_socket_locations() {
    assert!(is_expected_socket_location("/run/user/1000/niri.sock"));
    assert!(is_expected_socket_location("/tmp/niri.sock"));
    assert!(!is_expected_socket_location("/home/user/niri.sock"));
    assert!(!is_expected_socket_location("/run/user"));
    assert!(!is_expected_socket_location(""));
}

#[test]
fn test_validate_and_convert_indices_normal_conversion() {
    assert_eq!(validate_and_convert_indices(1, 1, 100), (0, 0));
    assert_eq!(validate_and_convert_indices(2, 1, 100), (1, 0));
    assert_eq!(validate_and_convert_indices(1, 2, 100), (0, 1));
    assert_eq!(validate_and_convert_indices(5, 3, 100), (4, 2));
}

#[test]
fn test_validate_and_convert_indices_zero_handling() {
    assert_eq!(validate_and_convert_indices(0, 1, 100), (0, 0));
    assert_eq!(validate_and_convert_indices(1, 0, 100), (0, 0));
    assert_eq!(validate_and_convert_indices(0, 0, 100), (0, 0));
}

#[test]
fn test_validate_and_convert_indices_max_value() {
    assert_eq!(validate_and_convert_indices(usize::MAX, 1, 100), (usize::MAX - 1, 0));
    assert_eq!(validate_and_convert_indices(1, usize::MAX, 100), (0, usize::MAX - 1));
    assert_eq!(
        validate_and_convert_indices(usize::MAX, usize::MAX, 100),
        (usize::MAX - 1, usize::MAX - 1)
    );
}

#[test]
fn test_validate_and_convert_indices_large_values() {
    assert_eq!(validate_and_convert_indices(1000, 500, 100), (999, 499));
    assert_eq!(validate_and_convert_indices(999999, 123456, 100), (999998, 123455));
}

fn layout(pos: Option<(usize, usize)>, w: f64, h: f64) -> WindowLayout {
    WindowLayout {
        pos_in_scrolling_layout: pos,
        tile_size: (w.to_bits(), h.to_bits()),
        tile_pos_in_workspace_view: None,
    }
}

fn niri_window(id: u64, ws: Option<u64>, focused: bool, pos: Option<(usize, usize)>) -> NiriWindow {
    NiriWindow {
        id,
        title: Some("Title".to_string()),
        app_id: Some("app".to_string()),
        workspace_id: ws,
        is_focused: focused,
        layout: layout(pos, 100.0, 50.0),
    }
}

fn niri_workspace(id: u64, idx: u8, output: Option<&str>, active: bool, focused: bool) -> NiriWorkspace {
    NiriWorkspace {
        id,
        idx,
        output: output.map(|s| s.to_string()),
        is_active: active,
        is_focused: focused,
        active_window_id: None,
    }
}

#[test]
fn niri_window_conversion_tiled_and_floating() {
    let tiled = niri_window_to_model(&niri_window(7, Some(1), true, Some((3, 2))));
    assert_eq!(tiled.id, 7);
    assert_eq!(tiled.column_index, 2);
    assert_eq!(tiled.window_index, 1);
    assert!(!tiled.is_floating);
    assert!(tiled.is_focused);
    assert_eq!(tiled.size, (100.0f64.to_bits(), 50.0f64.to_bits()));
    assert_eq!(tiled.title.as_deref(), Some("Title"));

    let floating = niri_window_to_model(&niri_window(8, Some(1), false, None));
    assert!(floating.is_floating);
    assert_eq!((floating.column_index, floating.window_index), (0, 0));
}

#[test]
fn snapshot_builds_state() {
    let workspaces = vec![
        niri_workspace(1, 1, Some("DP-1"), true, true),
        niri_workspace(2, 2, Some("DP-1"), false, false),
    ];
    let windows = vec![
        niri_window(10, Some(1), true, Some((1, 1))),
        niri_window(11, Some(2), false, Some((1, 1))),
        niri_window(12, None, false, None),
    ];
    let state = state_from_snapshot(&workspaces, &windows);
    assert_eq!(state.workspaces.len(), 2);
    assert_eq!(state.active_workspace_id, Some(1));
    assert_eq!(state.focused_window_id, Some(10));
    assert!(state.workspaces.get(&1).unwrap().windows.contains_key(&10));
    assert!(state.workspaces.get(&2).unwrap().windows.contains_key(&11));
    assert!(state.find_window(12).is_none());
    assert_eq!(state.workspaces.get(&1).unwrap().output.as_deref(), Some("DP-1"));
}

#[test]
fn events_map_to_updates() {
    match event_to_update(IpcEvent::WindowClosed { id: 5 }) {
        Some(StateUpdate::WindowClosed(5)) => {}
        other => panic!("unexpected {:?}", other),
    }
    match event_to_update(IpcEvent::WindowOpenedOrChanged { window: niri_window(3, Some(9), false, Some((2, 1))) }) {
        Some(StateUpdate::WindowChanged { window, workspace_id }) => {
            assert_eq!(window.id, 3);
            assert_eq!(window.column_index, 1);
            assert_eq!(workspace_id, Some(9));
        }
        other => panic!("unexpected {:?}", other),
    }
    assert!(event_to_update(IpcEvent::Other).is_none());
    assert!(closes_overview(&IpcEvent::OverviewOpenedOrClosed { is_open: false }));
    assert!(!closes_overview(&IpcEvent::OverviewOpenedOrClosed { is_open: true }));
    assert!(!closes_overview(&IpcEvent::Other));
}

#[test]
fn reconnect_backoff_doubles_and_caps() {
    assert_eq!(reconnect_delay(IPC_RECONNECT_MIN_MS, 10), (250, 500));
    assert_eq!(reconnect_delay(500, 10), (500, 1000));
    assert_eq!(reconnect_delay(20000, 10), (20000, IPC_RECONNECT_MAX_MS));
    assert_eq!(reconnect_delay(IPC_RECONNECT_MAX_MS, 10), (30000, 30000));
    // a connection that lasted long enough resets the backoff
    assert_eq!(reconnect_delay(IPC_RECONNECT_MAX_MS, 30000), (250, 500));
}

#[test]
fn test_config_reload_debounce_constant() {
    assert_eq!(CONFIG_RELOAD_DEBOUNCE_MS, 500);
}

#[test]
fn config_reload_debounce_boundary() {
    assert!(!should_reload_config(100));
    assert!(!should_reload_config(499));
    assert!(should_reload_config(500));
    assert!(should_reload_config(550));
}

#[test]
fn reconnect_backoff_stays_within_bounds() {
    let mut backoff = IPC_RECONNECT_MIN_MS;
    for round in 0..40u64 {
        let connection_ms = if round % 7 == 6 { 45_000 } else { 10 };
        let (wait, next) = reconnect_delay(backoff, connection_ms);
        assert!(IPC_RECONNECT_MIN_MS <= wait && wait <= IPC_RECONNECT_MAX_MS);
        assert!(IPC_RECONNECT_MIN_MS <= next && next <= IPC_RECONNECT_MAX_MS);
        assert!(next >= wait);
        backoff = next;
    }
}

#[test]
fn test_debounce_logic_simulation() {
    // 100 ms after the last reload: too soon.
    assert!(!should_reload_config(100));
    // 550 ms after it: enough time has passed.
    assert!(should_reload_config(550));
    // Immediately after reloading again: too soon.
    assert!(!should_reload_config(0));
}

#[test]
fn test_debounce_edge_case_exact_boundary() {
    assert!(should_reload_config(CONFIG_RELOAD_DEBOUNCE_MS));
}

#[test]
fn test_debounce_multiple_rapid_events() {
    let mut since_last_reload: u64 = 0;
    let mut reload_count = 0;

    // 10 rapid events 20 ms apart, all within the debounce window.
    for _ in 0..10 {
        since_last_reload += 20;
        if should_reload_config(since_last_reload) {
            reload_count += 1;
            since_last_reload = 0;
        }
    }
    assert_eq!(reload_count, 0);

    // 350 ms later (550 ms in all) the debounce has expired.
    since_last_reload += 350;
    if should_reload_config(since_last_reload) {
        reload_count += 1;
    }
    assert_eq!(reload_count, 1);
}

#[test]
fn blank_event_lines_are_skipped() {
    assert!(is_blank_line(""));
    assert!(is_blank_line("   \t\r"));
    assert!(!is_blank_line(" {\"WindowClosed\":{\"id\":1}} "));
}

#[test]
fn only_changes_to_the_config_file_reload() {
    assert!(reload_requested(FileChange::Created, true));
    assert!(reload_requested(FileChange::Modified, true));
    assert!(!reload_requested(FileChange::Other, true));
    assert!(!reload_requested(FileChange::Modified, false));
}

#[test]
fn socket_path_error_names_the_path() {
    let e = validate_socket_path("niri.sock").unwrap_err();
    assert_eq!(e.message("niri.sock"), "NIRI_SOCKET must be an absolute path, got: niri.sock");
}
