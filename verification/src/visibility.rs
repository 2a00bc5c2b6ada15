//! When a minimap overlay shows and hides itself.
//!
//! The widget keeps this small state and performs the returned action on
//! its layer surface: make it visible, arm or cancel the hide timeout, or
//! hide it.

use vstd::prelude::*;

use crate::config::BehaviorConfig;

verus! {

/// What the widget does with its surface.
#[derive(Clone, Copy, Debug, PartialEq, Eq, Structural)]
pub enum VisibilityAction {
    /// Leave the surface as it is
    Keep,
    /// Make the surface visible; when `schedule_hide`, (re)arm the hide
    /// timeout
    Show { schedule_hide: bool },
    /// Cancel any pending hide timeout and make the surface visible
    ShowPinned,
    /// Cancel any pending hide timeout and hide the surface
    Hide,
}

/// Per-widget visibility state.
#[derive(Clone, Copy, Debug, PartialEq, Eq, Structural)]
pub struct Visibility {
    /// Whether Overview is open, as this widget last learned
    pub overview_open: bool,
    /// The window whose focus change last showed the minimap
    pub last_shown_focus_id: Option<u64>,
}

/// The action of an ordinary show: a minimap that is not always visible
/// hides again after the timeout, unless Overview is open and keeps it.
pub open spec fn show_action(v: Visibility, behavior: BehaviorConfig) -> VisibilityAction {
    VisibilityAction::Show {
        schedule_hide: !behavior.always_visible && !(behavior.show_on_overview && v.overview_open),
    }
}

/// Whether a focus change to `window_id` shows the minimap: the focus must
/// move to a different window than the one that last showed it, and, unless
/// floating windows are wanted, not to a floating window.
pub open spec fn focus_change_shows(v: Visibility, behavior: BehaviorConfig, window_id: Option<u64>, target_is_floating: bool) -> bool {
    window_id != v.last_shown_focus_id && (behavior.show_for_floating_windows || !target_is_floating)
}

/// The action when Overview opens or closes (`None` when nothing changed):
/// with `show_on_overview`, opening pins the minimap visible and closing
/// hides it unless it is always visible.
pub open spec fn overview_action(v: Visibility, behavior: BehaviorConfig, is_open: bool) -> VisibilityAction {
    if v.overview_open == is_open {
        VisibilityAction::Keep
    } else if behavior.show_on_overview {
        if is_open {
            VisibilityAction::ShowPinned
        } else if !behavior.always_visible {
            VisibilityAction::Hide
        } else {
            VisibilityAction::Keep
        }
    } else {
        VisibilityAction::Keep
    }
}

/// The action for a newly spawned window: none for a floating window unless
/// floating windows are wanted, else an ordinary show.
pub open spec fn new_window_action(v: Visibility, behavior: BehaviorConfig, is_floating: bool) -> VisibilityAction {
    if is_floating && !behavior.show_for_floating_windows {
        VisibilityAction::Keep
    } else {
        show_action(v, behavior)
    }
}

impl Visibility {
    /// The state of a new widget: Overview closed, nothing shown yet.
    pub fn new() -> (v: Visibility)
        ensures
            !v.overview_open,
            v.last_shown_focus_id is None,
    {
        Visibility { overview_open: false, last_shown_focus_id: None }
    }

    /// Whether a new surface starts visible: only when the minimap is
    /// always visible.
    pub fn initially_visible(behavior: &BehaviorConfig) -> (b: bool)
        ensures
            b == behavior.always_visible,
    {
        behavior.always_visible
    }

    /// Show the minimap, with the auto-hide timeout when configured.
    pub fn show(&self, behavior: &BehaviorConfig) -> (a: VisibilityAction)
        ensures
            a == show_action(*self, *behavior),
    {
        VisibilityAction::Show {
            schedule_hide: !behavior.always_visible && !(behavior.show_on_overview && self.overview_open),
        }
    }

    /// Show the minimap only if focus moved to a different window; returns
    /// whether it showed and the action. A suppressed change (same window,
    /// or a floating window while floating windows are not wanted) leaves
    /// the last shown window as it was.
    pub fn show_on_focus_change(&mut self, behavior: &BehaviorConfig, window_id: Option<u64>, target_is_floating: bool) -> (r: (bool, VisibilityAction))
        ensures
            r.0 == focus_change_shows(*old(self), *behavior, window_id, target_is_floating),
            r.0 ==> r.1 == show_action(*old(self), *behavior) && *final(self) == (Visibility {
                last_shown_focus_id: window_id,
                ..*old(self)
            }),
            !r.0 ==> r.1 == VisibilityAction::Keep && *final(self) == *old(self),
    {
        let same = match (window_id, self.last_shown_focus_id) {
            (Some(a), Some(b)) => a == b,
            (None, None) => true,
            _ => false,
        };
        if same {
            return (false, VisibilityAction::Keep);
        }
        if !behavior.show_for_floating_windows && target_is_floating {
            return (false, VisibilityAction::Keep);
        }
        self.last_shown_focus_id = window_id;
        let a = self.show(behavior);
        (true, a)
    }

    /// Show the minimap for a newly spawned window, unless it floats and
    /// floating windows are not wanted.
    pub fn show_for_new_window(&self, behavior: &BehaviorConfig, is_floating: bool) -> (a: VisibilityAction)
        ensures
            a == new_window_action(*self, *behavior, is_floating),
    {
        if is_floating && !behavior.show_for_floating_windows {
            return VisibilityAction::Keep;
        }
        self.show(behavior)
    }

    /// Track Overview opening or closing; returns whether the state changed
    /// (the geometry is recomputed after a close) and the action.
    pub fn set_overview_open(&mut self, behavior: &BehaviorConfig, is_open: bool) -> (r: (bool, VisibilityAction))
        ensures
            r.0 == (old(self).overview_open != is_open),
            r.1 == overview_action(*old(self), *behavior, is_open),
            *final(self) == (Visibility { overview_open: is_open, ..*old(self) }),
    {
        let was_open = self.overview_open;
        self.overview_open = is_open;
        if was_open == is_open {
            return (false, VisibilityAction::Keep);
        }
        let a = if behavior.show_on_overview {
            if is_open {
                VisibilityAction::ShowPinned
            } else if !behavior.always_visible {
                VisibilityAction::Hide
            } else {
                VisibilityAction::Keep
            }
        } else {
            VisibilityAction::Keep
        };
        (true, a)
    }
}

/// An always-visible minimap is never hidden by events: no show arms the
/// hide timeout, and neither Overview change nor new window nor focus
/// change hides it.
pub proof fn law_always_visible_never_auto_hides(v: Visibility, behavior: BehaviorConfig, is_open: bool)
    requires
        behavior.always_visible,
    ensures
        show_action(v, behavior) == (VisibilityAction::Show { schedule_hide: false }),
        overview_action(v, behavior, is_open) != VisibilityAction::Hide,
{
}

/// Focus returning to the window that last showed the minimap shows
/// nothing: after a focus change that showed, the same change again does
/// not show.
pub proof fn law_focus_change_shows_once(v: Visibility, behavior: BehaviorConfig, window_id: Option<u64>, floating: bool)
    requires
        focus_change_shows(v, behavior, window_id, floating),
    ensures
        !focus_change_shows(Visibility { last_shown_focus_id: window_id, ..v }, behavior, window_id, floating),
{
}

/// With `show_on_overview`, the minimap is visible without a hide timeout
/// while Overview is open: opening pins it, and any show while open arms no
/// timeout.
pub proof fn law_overview_keeps_minimap(v: Visibility, behavior: BehaviorConfig)
    requires
        behavior.show_on_overview,
    ensures
        !v.overview_open ==> overview_action(v, behavior, true) == VisibilityAction::ShowPinned,
        v.overview_open ==> show_action(v, behavior) == (VisibilityAction::Show { schedule_hide: false }),
{
}

/// Unless floating windows are wanted, floating-window activity leaves the
/// minimap alone: focus moving to a floating window shows nothing (and, the
/// state being unchanged, focus returning to the tile that last showed it
/// shows nothing either), and a new floating window shows nothing.
pub proof fn law_floating_activity_stays_quiet(v: Visibility, behavior: BehaviorConfig, popup: Option<u64>, tile: u64)
    requires
        !behavior.show_for_floating_windows,
        v.last_shown_focus_id == Some(tile),
    ensures
        !focus_change_shows(v, behavior, popup, true),
        !focus_change_shows(v, behavior, Some(tile), false),
        new_window_action(v, behavior, true) == VisibilityAction::Keep,
{
}

} // verus!
