use nirimap::stream::{event_stream_reply, line_update, LineOutcome, StreamReply};
use nirimap::update::StateUpdate;

const WINDOW_EVENT: &str = r#"{"WindowOpenedOrChanged":{"window":{"id":3,"title":"GitHub","app_id":"firefox","pid":42,"workspace_id":1,"is_focused":true,"is_floating":false,"is_urgent":false,"layout":{"pos_in_scrolling_layout":[2,1],"tile_size":[100.0,50.0],"window_size":[100,50],"tile_pos_in_workspace_view":[10.0,0.0],"window_offset_in_tile":[0.0,0.0]},"focus_timestamp":null}}}"#;

#[test]
fn blank_lines_are_skipped() {
    assert!(matches!(line_update(""), LineOutcome::Blank));
    assert!(matches!(line_update("  \t"), LineOutcome::Blank));
}

#[test]
fn undecodable_lines_are_unrecognized() {
    assert!(matches!(line_update("not json"), LineOutcome::Unrecognized));
    assert!(matches!(line_update(r#"{"NoSuchEvent":{}}"#), LineOutcome::Unrecognized));
}

#[test]
fn events_give_their_updates() {
    match line_update(r#"{"WindowClosed":{"id":5}}"#) {
        LineOutcome::Event { update: Some(StateUpdate::WindowClosed(5)), refetch: false } => {}
        other => panic!("unexpected {:?}", other),
    }
    match line_update(r#" {"WindowFocusChanged":{"id":null}} "#) {
        LineOutcome::Event { update: Some(StateUpdate::FocusChanged(None)), refetch: false } => {}
        other => panic!("unexpected {:?}", other),
    }
    match line_update(r#"{"WorkspaceActivated":{"id":2,"focused":true}}"#) {
        LineOutcome::Event { update: Some(StateUpdate::WorkspaceActivated { id: 2, focused: true }), refetch: false } => {}
        other => panic!("unexpected {:?}", other),
    }
    match line_update(r#"{"ConfigLoaded":{"failed":false}}"#) {
        LineOutcome::Event { update: None, refetch: false } => {}
        other => panic!("unexpected {:?}", other),
    }
}

#[test]
fn overview_closing_asks_for_a_full_refresh() {
    match line_update(r#"{"OverviewOpenedOrClosed":{"is_open":false}}"#) {
        LineOutcome::Event { update: Some(StateUpdate::OverviewChanged(false)), refetch: true } => {}
        other => panic!("unexpected {:?}", other),
    }
    match line_update(r#"{"OverviewOpenedOrClosed":{"is_open":true}}"#) {
        LineOutcome::Event { update: Some(StateUpdate::OverviewChanged(true)), refetch: false } => {}
        other => panic!("unexpected {:?}", other),
    }
}

#[test]
fn window_events_carry_the_converted_window() {
    match line_update(WINDOW_EVENT) {
        LineOutcome::Event { update: Some(StateUpdate::WindowChanged { window, workspace_id }), refetch: false } => {
            assert_eq!(workspace_id, Some(1));
            assert_eq!(window.id, 3);
            assert_eq!(window.column_index, 1);
            assert_eq!(window.window_index, 0);
            assert_eq!(window.size, (100.0f64.to_bits(), 50.0f64.to_bits()));
            assert_eq!(window.pos, Some((10.0f64.to_bits(), 0.0f64.to_bits())));
            assert!(window.is_focused);
            assert!(!window.is_floating);
            assert_eq!(window.title.as_deref(), Some("GitHub"));
            assert_eq!(window.app_id.as_deref(), Some("firefox"));
        }
        other => panic!("unexpected {:?}", other),
    }
}

#[test]
fn layout_and_workspace_events_are_converted() {
    let line = r#"{"WindowLayoutsChanged":{"changes":[[7,{"pos_in_scrolling_layout":null,"tile_size":[3.0,4.0],"window_size":[3,4],"tile_pos_in_workspace_view":null,"window_offset_in_tile":[0.0,0.0]}]]}}"#;
    match line_update(line) {
        LineOutcome::Event { update: Some(StateUpdate::LayoutsChanged(changes)), refetch: false } => {
            assert_eq!(changes.len(), 1);
            assert_eq!(changes[0].0, 7);
            assert_eq!(changes[0].1.pos_in_scrolling_layout, None);
            assert_eq!(changes[0].1.tile_size, (3.0f64.to_bits(), 4.0f64.to_bits()));
        }
        other => panic!("unexpected {:?}", other),
    }
    let line = r#"{"WorkspacesChanged":{"workspaces":[{"id":4,"idx":2,"name":null,"output":"DP-1","is_urgent":false,"is_active":true,"is_focused":false,"active_window_id":9}]}}"#;
    match line_update(line) {
        LineOutcome::Event { update: Some(StateUpdate::WorkspacesChanged(list)), refetch: false } => {
            assert_eq!(list.len(), 1);
            assert_eq!(list[0].id, 4);
            assert_eq!(list[0].idx, 2);
            assert_eq!(list[0].output.as_deref(), Some("DP-1"));
            assert!(list[0].is_active);
            assert!(!list[0].is_focused);
            assert_eq!(list[0].active_window_id, Some(9));
        }
        other => panic!("unexpected {:?}", other),
    }
}

#[test]
fn stream_reply_is_read() {
    assert_eq!(event_stream_reply(r#"{"Ok":"Handled"}"#), StreamReply::Granted);
    assert_eq!(event_stream_reply(r#"{"Err":"no such request"}"#), StreamReply::Refused("no such request".to_string()));
    assert_eq!(event_stream_reply("garbage"), StreamReply::Unreadable);
}
