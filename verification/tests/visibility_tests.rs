use nirimap::config::BehaviorConfig;
use nirimap::visibility::{Visibility, VisibilityAction};

fn behavior(always_visible: bool, show_on_overview: bool, floating: bool) -> BehaviorConfig {
    BehaviorConfig { show_on_overview, always_visible, hide_timeout_ms: 2000, show_for_floating_windows: floating }
}

#[test]
fn always_visible_shows_without_timeout() {
    let v = Visibility::new();
    assert_eq!(v.show(&behavior(true, true, false)), VisibilityAction::Show { schedule_hide: false });
    assert!(Visibility::initially_visible(&behavior(true, true, false)));
    assert!(!Visibility::initially_visible(&behavior(false, true, false)));
}

#[test]
fn event_driven_show_schedules_hide_unless_overview_keeps_it() {
    let mut v = Visibility::new();
    let b = behavior(false, true, false);
    assert_eq!(v.show(&b), VisibilityAction::Show { schedule_hide: true });
    assert_eq!(v.set_overview_open(&b, true), (true, VisibilityAction::ShowPinned));
    assert_eq!(v.show(&b), VisibilityAction::Show { schedule_hide: false });
    assert_eq!(v.set_overview_open(&b, true), (false, VisibilityAction::Keep));
    assert_eq!(v.set_overview_open(&b, false), (true, VisibilityAction::Hide));
    let b2 = behavior(true, true, false);
    assert_eq!(v.set_overview_open(&b2, true), (true, VisibilityAction::ShowPinned));
    assert_eq!(v.set_overview_open(&b2, false), (true, VisibilityAction::Keep));
}

#[test]
fn focus_change_shows_once_per_window() {
    let mut v = Visibility::new();
    let b = behavior(false, true, false);
    assert_eq!(v.show_on_focus_change(&b, Some(1), false), (true, VisibilityAction::Show { schedule_hide: true }));
    assert_eq!(v.show_on_focus_change(&b, Some(1), false), (false, VisibilityAction::Keep));
    // focus to a floating popup is suppressed and not remembered
    assert_eq!(v.show_on_focus_change(&b, Some(2), true), (false, VisibilityAction::Keep));
    assert_eq!(v.last_shown_focus_id, Some(1));
    // returning to the tile does not show again
    assert_eq!(v.show_on_focus_change(&b, Some(1), false), (false, VisibilityAction::Keep));
    // with floating windows wanted, the popup shows
    let bf = behavior(false, true, true);
    assert_eq!(v.show_on_focus_change(&bf, Some(2), true), (true, VisibilityAction::Show { schedule_hide: true }));
}

#[test]
fn new_floating_window_respects_opt_out() {
    let v = Visibility::new();
    assert_eq!(v.show_for_new_window(&behavior(false, true, false), true), VisibilityAction::Keep);
    assert_eq!(
        v.show_for_new_window(&behavior(false, true, true), true),
        VisibilityAction::Show { schedule_hide: true }
    );
    assert_eq!(
        v.show_for_new_window(&behavior(false, true, false), false),
        VisibilityAction::Show { schedule_hide: true }
    );
}
