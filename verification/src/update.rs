//! How a state update from the compositor changes the model, and what the
//! minimap widgets have to do afterwards.

use vstd::prelude::*;

use crate::ipc::{one_based_to_zero_based, NiriWorkspace, WindowLayout};
use crate::model::{
    activate, apply_metadata, lemma_metadata_domain, lemma_metadata_keeps_windows, map_keys, refocus,
    remove_window_everywhere, remove_window_except, replaced_active, replaced_workspaces, workspace_or_new,
    MinimapState, StateView, Window, Workspace, WorkspaceView,
};

verus! {

/// A state update produced from the compositor's event stream.
#[derive(Debug)]
#[allow(inconsistent_fields)]
pub enum StateUpdate {
    /// Full state refresh
    FullState(MinimapState),
    /// A window was opened or changed
    WindowChanged { window: Window, workspace_id: Option<u64> },
    /// A window was closed
    WindowClosed(u64),
    /// Window focus changed
    FocusChanged(Option<u64>),
    /// Overview opened or closed
    OverviewChanged(bool),
    /// A workspace was activated (focused: it is the focused workspace)
    WorkspaceActivated { id: u64, focused: bool },
    /// Window layouts changed
    LayoutsChanged(Vec<(u64, WindowLayout)>),
    /// Workspace configuration changed (add, remove, reorder)
    WorkspacesChanged(Vec<NiriWorkspace>),
    /// The active window on some workspace changed
    WorkspaceActiveWindowChanged { workspace_id: u64, active_window_id: Option<u64> },
}

/// What every minimap widget does after the shared state was updated and
/// redrawn.
#[derive(Debug, PartialEq, Eq, Structural)]
pub enum Followup {
    /// Nothing more
    Nothing,
    /// A new window opened on the active workspace (argument: it floats)
    ShowForNewWindow(bool),
    /// Focus moved to the given window
    ShowOnFocusChange(Option<u64>),
    /// Overview opened or closed
    SetOverviewOpen(bool),
    /// Show every minimap
    ShowAll,
}

/// A window after a layout change: new position, size and floating state;
/// a tiled window also takes the new zero-based column and row.
pub open spec fn with_layout(w: Window, l: WindowLayout) -> Window {
    let base = Window {
        pos: l.tile_pos_in_workspace_view,
        size: l.tile_size,
        is_floating: l.pos_in_scrolling_layout is None,
        ..w
    };
    match l.pos_in_scrolling_layout {
        Some((c, r)) => Window {
            column_index: one_based_to_zero_based(c),
            window_index: one_based_to_zero_based(r),
            ..base
        },
        None => base,
    }
}

impl WorkspaceView {
    /// The workspace with the layout of window `id` changed, if it holds it.
    pub open spec fn with_window_layout(self, id: u64, l: WindowLayout) -> WorkspaceView {
        if self.windows.contains_key(id) {
            WorkspaceView { windows: self.windows.insert(id, with_layout(self.windows[id], l)), ..self }
        } else {
            self
        }
    }
}

/// Every workspace with the layout of window `id` changed.
pub open spec fn layout_everywhere(m: Map<u64, WorkspaceView>, id: u64, l: WindowLayout) -> Map<u64, WorkspaceView> {
    m.map_values(|w: WorkspaceView| w.with_window_layout(id, l))
}

/// Every workspace after a list of layout changes, applied in order.
pub open spec fn apply_layouts(m: Map<u64, WorkspaceView>, changes: Seq<(u64, WindowLayout)>) -> Map<u64, WorkspaceView>
    decreases changes.len(),
{
    if changes.len() == 0 {
        m
    } else {
        let prev = apply_layouts(m, changes.drop_last());
        layout_everywhere(prev, changes.last().0, changes.last().1)
    }
}

/// The state after a window was opened or changed: a focused window takes
/// the focus first; a window on a workspace is removed from every other
/// workspace and stored on its own (created when missing); a window without
/// a workspace is removed everywhere.
pub open spec fn window_changed_state(s: StateView, window: Window, workspace_id: Option<u64>) -> StateView {
    let s1 = if window.is_focused {
        StateView {
            workspaces: refocus(s.workspaces, s.focused_window_id, Some(window.id)),
            focused_window_id: Some(window.id),
            ..s
        }
    } else {
        s
    };
    match workspace_id {
        Some(ws_id) => {
            let moved = remove_window_except(s1.workspaces, window.id, Some(ws_id));
            StateView {
                workspaces: moved.insert(ws_id, workspace_or_new(moved, ws_id).with_window(window)),
                ..s1
            }
        },
        None => StateView { workspaces: remove_window_everywhere(s1.workspaces, window.id), ..s1 },
    }
}

/// Whether a window change reports a window that is new on the active
/// workspace.
pub open spec fn is_new_on_active(s: StateView, window: Window, workspace_id: Option<u64>) -> bool {
    match workspace_id {
        Some(ws_id) => s.active_workspace_id == Some(ws_id)
            && !workspace_or_new(s.workspaces, ws_id).windows.contains_key(window.id),
        None => false,
    }
}

/// The state after an update.
pub open spec fn updated_state(s: StateView, u: StateUpdate) -> StateView {
    match u {
        StateUpdate::FullState(n) => n@,
        StateUpdate::WindowChanged { window, workspace_id } => window_changed_state(s, window, workspace_id),
        StateUpdate::WindowClosed(id) => StateView {
            workspaces: remove_window_everywhere(s.workspaces, id),
            ..s
        },
        StateUpdate::FocusChanged(id) => StateView {
            workspaces: refocus(s.workspaces, s.focused_window_id, id),
            focused_window_id: id,
            ..s
        },
        StateUpdate::OverviewChanged(open) => StateView { overview_open: open, ..s },
        StateUpdate::WorkspaceActivated { id, focused } => if focused {
            StateView {
                workspaces: activate(s.workspaces, id),
                active_workspace_id: Some(id),
                ..s
            }
        } else {
            s
        },
        StateUpdate::LayoutsChanged(changes) => StateView {
            workspaces: apply_layouts(s.workspaces, changes@),
            ..s
        },
        StateUpdate::WorkspacesChanged(list) => StateView {
            workspaces: replaced_workspaces(s.workspaces, list@),
            active_workspace_id: replaced_active(s.active_workspace_id, list@),
            ..s
        },
        StateUpdate::WorkspaceActiveWindowChanged { workspace_id, active_window_id } => if s.workspaces.contains_key(workspace_id) {
            StateView {
                workspaces: s.workspaces.insert(
                    workspace_id,
                    WorkspaceView { active_window_id, ..s.workspaces[workspace_id] },
                ),
                ..s
            }
        } else {
            s
        },
    }
}

/// What the widgets do after an update.
pub open spec fn followup_of(s: StateView, u: StateUpdate) -> Followup {
    match u {
        StateUpdate::WindowChanged { window, workspace_id } => {
            let s1 = if window.is_focused {
                StateView {
                    workspaces: refocus(s.workspaces, s.focused_window_id, Some(window.id)),
                    focused_window_id: Some(window.id),
                    ..s
                }
            } else {
                s
            };
            if is_new_on_active(s1, window, workspace_id) {
                Followup::ShowForNewWindow(window.is_floating)
            } else {
                Followup::Nothing
            }
        },
        StateUpdate::FocusChanged(id) => Followup::ShowOnFocusChange(id),
        StateUpdate::OverviewChanged(open) => Followup::SetOverviewOpen(open),
        StateUpdate::WorkspaceActivated { .. } => Followup::ShowAll,
        StateUpdate::LayoutsChanged(_) => Followup::ShowAll,
        _ => Followup::Nothing,
    }
}


impl MinimapState {
    /// Apply the layout `l` to window `id` on every workspace that holds it.
    fn set_layout_all(&mut self, id: u64, l: &WindowLayout)
        ensures
            final(self)@ == (StateView {
                workspaces: layout_everywhere(old(self)@.workspaces, id, *l),
                ..old(self)@
            }),
    {
        let ids = map_keys(&self.workspaces);
        let ghost old_ws = self@.workspaces;
        let mut i: usize = 0;
        while i < ids.len()
            invariant
                i <= ids@.len(),
                ids@.no_duplicates(),
                ids@.to_set() == old_ws.dom(),
                self@.workspaces.dom() == old_ws.dom(),
                forall|k: u64| #[trigger] old_ws.contains_key(k) ==> self@.workspaces[k] == (
                    if ids@.take(i as int).contains(k) {
                        old_ws[k].with_window_layout(id, *l)
                    } else {
                        old_ws[k]
                    }),
                self.active_workspace_id == old(self).active_workspace_id,
                self.focused_window_id == old(self).focused_window_id,
                self.overview_open == old(self).overview_open,
                old_ws == old(self)@.workspaces,
            decreases ids@.len() - i,
        {
            let k = ids[i];
            proof {
                assert(ids@.to_set().contains(k));
            }
            let ghost prev = self@.workspaces;
            let mut ws = self.take_workspace(k);
            let ghost before = ws@;
            if ws.windows.contains_key(&id) {
                let mut w = ws.windows.remove(&id).unwrap();
                let ghost w0 = w;
                w.pos = match l.tile_pos_in_workspace_view {
                    Some((x, y)) => Some((x, y)),
                    None => None,
                };
                w.size = (l.tile_size.0, l.tile_size.1);
                w.is_floating = l.pos_in_scrolling_layout.is_none();
                if let Some((c, r)) = l.pos_in_scrolling_layout {
                    let (ci, wi) = crate::ipc::validate_and_convert_indices(c, r, id);
                    w.column_index = ci;
                    w.window_index = wi;
                }
                proof {
                    assert(w == with_layout(w0, *l));
                }
                ws.windows.insert(id, w);
            }
            proof {
                assert(ws@ =~= before.with_window_layout(id, *l));
            }
            self.workspaces.insert(k, ws);
            proof {
                assert(ids@.take(i + 1) =~= ids@.take(i as int).push(k));
                assert(!ids@.take(i as int).contains(k));
                assert forall|j: u64| #[trigger] old_ws.contains_key(j) implies self@.workspaces[j] == (
                    if ids@.take(i + 1).contains(j) {
                        old_ws[j].with_window_layout(id, *l)
                    } else {
                        old_ws[j]
                    }) by {
                    if j == k {
                        assert(prev[k] == old_ws[k]);
                        assert(self@.workspaces[k] == ws@);
                        assert(ids@.take(i + 1)[i as int] == k);
                        assert(ids@.take(i + 1).contains(k));
                    } else {
                        assert(self@.workspaces[j] == prev[j]);
                        assert(ids@.take(i + 1).contains(j) == ids@.take(i as int).contains(j));
                    }
                }
                assert(self@.workspaces.dom() =~= old_ws.dom());
            }
            i += 1;
        }
        proof {
            assert(ids@.take(ids@.len() as int) =~= ids@);
            assert forall|k: u64| old_ws.contains_key(k) implies ids@.contains(k) by {
                assert(ids@.to_set().contains(k));
            }
            assert(self@.workspaces =~= layout_everywhere(old_ws, id, *l));
        }
    }
}

/// Apply a state update to the shared model and say what every minimap
/// widget has to do once the model is redrawn.
pub fn apply_state_update(state: &mut MinimapState, update: StateUpdate) -> (f: Followup)
    ensures
        final(state)@ == updated_state(old(state)@, update),
        f == followup_of(old(state)@, update),
{
    match update {
        StateUpdate::FullState(new_state) => {
            *state = new_state;
            Followup::Nothing
        },
        StateUpdate::WindowChanged { window, workspace_id } => {
            let window_id = window.id;
            let is_floating = window.is_floating;
            if window.is_focused {
                state.set_focused_window(Some(window_id));
            }
            let ghost s1 = state@;
            let mut is_new_window = false;
            let mut is_on_active_workspace = false;
            match workspace_id {
                Some(ws_id) => {
                    is_on_active_workspace = match state.active_workspace_id {
                        Some(a) => a == ws_id,
                        None => false,
                    };
                    state.remove_window_except(window_id, Some(ws_id));
                    let ghost moved = state@.workspaces;
                    let mut ws = if state.workspaces.contains_key(&ws_id) {
                        state.take_workspace(ws_id)
                    } else {
                        Workspace::new_empty(ws_id)
                    };
                    is_new_window = !ws.windows.contains_key(&window_id);
                    let ghost before = ws@;
                    ws.windows.insert(window_id, window);
                    proof {
                        assert(ws@ =~= before.with_window(window));
                        assert(before == workspace_or_new(moved, ws_id));
                    }
                    state.workspaces.insert(ws_id, ws);
                    proof {
                        assert(state@.workspaces =~= moved.insert(ws_id, workspace_or_new(moved, ws_id).with_window(window)));
                        assert(workspace_or_new(moved, ws_id).windows == workspace_or_new(s1.workspaces, ws_id).windows);
                    }
                },
                None => {
                    state.remove_window(window_id);
                },
            }
            if is_on_active_workspace && is_new_window {
                Followup::ShowForNewWindow(is_floating)
            } else {
                Followup::Nothing
            }
        },
        StateUpdate::WindowClosed(window_id) => {
            state.remove_window(window_id);
            Followup::Nothing
        },
        StateUpdate::FocusChanged(window_id) => {
            state.set_focused_window(window_id);
            Followup::ShowOnFocusChange(window_id)
        },
        StateUpdate::OverviewChanged(is_open) => {
            state.overview_open = is_open;
            Followup::SetOverviewOpen(is_open)
        },
        StateUpdate::WorkspaceActivated { id, focused } => {
            if focused {
                state.set_active_workspace(id);
            }
            Followup::ShowAll
        },
        StateUpdate::WorkspacesChanged(workspaces) => {
            state.replace_workspace_metadata(workspaces.as_slice());
            Followup::Nothing
        },
        StateUpdate::WorkspaceActiveWindowChanged { workspace_id, active_window_id } => {
            if state.workspaces.contains_key(&workspace_id) {
                let mut ws = state.take_workspace(workspace_id);
                ws.active_window_id = active_window_id;
                state.workspaces.insert(workspace_id, ws);
                proof {
                    assert(state@.workspaces =~= old(state)@.workspaces.insert(
                        workspace_id,
                        WorkspaceView { active_window_id, ..old(state)@.workspaces[workspace_id] },
                    ));
                }
            }
            Followup::Nothing
        },
        StateUpdate::LayoutsChanged(layouts) => {
            let ghost base = state@.workspaces;
            let mut i: usize = 0;
            while i < layouts.len()
                invariant
                    i <= layouts@.len(),
                    state@ == (StateView {
                        workspaces: apply_layouts(base, layouts@.take(i as int)),
                        ..old(state)@
                    }),
                    base == old(state)@.workspaces,
                decreases layouts@.len() - i,
            {
                let (window_id, layout) = &layouts[i];
                proof {
                    assert(layouts@.take(i + 1).drop_last() =~= layouts@.take(i as int));
                }
                state.set_layout_all(*window_id, layout);
                i += 1;
            }
            proof {
                assert(layouts@.take(layouts@.len() as int) =~= layouts@);
            }
            Followup::ShowAll
        },
    }
}

/// Whether every window is stored under its own id and no window is on two
/// workspaces.
pub open spec fn windows_well_placed(m: Map<u64, WorkspaceView>) -> bool {
    &&& forall|k: u64, id: u64| m.contains_key(k) && #[trigger] m[k].windows.contains_key(id)
        ==> m[k].windows[id].id == id
    &&& forall|a: u64, b: u64, id: u64| m.contains_key(a) && m.contains_key(b)
        && #[trigger] m[a].windows.contains_key(id) && #[trigger] m[b].windows.contains_key(id) ==> a == b
}

/// Whether a window that carries the focus flag is the focused window.
pub open spec fn focus_flags_agree(s: StateView) -> bool {
    forall|k: u64, id: u64| s.workspaces.contains_key(k) && #[trigger] s.workspaces[k].windows.contains_key(id)
        && s.workspaces[k].windows[id].is_focused ==> s.focused_window_id == Some(id)
}

/// Layout changes keep which windows each workspace holds, their ids and
/// their focus flags.
proof fn lemma_layouts_keep_windows(m: Map<u64, WorkspaceView>, changes: Seq<(u64, WindowLayout)>)
    ensures
        apply_layouts(m, changes).dom() == m.dom(),
        forall|k: u64| #[trigger] m.contains_key(k) ==>
            apply_layouts(m, changes)[k].windows.dom() == m[k].windows.dom(),
        forall|k: u64, id: u64| m.contains_key(k) && #[trigger] m[k].windows.contains_key(id) ==>
            apply_layouts(m, changes)[k].windows[id].id == m[k].windows[id].id
            && apply_layouts(m, changes)[k].windows[id].is_focused == m[k].windows[id].is_focused,
    decreases changes.len(),
{
    if changes.len() > 0 {
        lemma_layouts_keep_windows(m, changes.drop_last());
        let prev = apply_layouts(m, changes.drop_last());
        let (id, l) = changes.last();
        assert(layout_everywhere(prev, id, l).dom() =~= prev.dom());
        assert forall|k: u64| #[trigger] m.contains_key(k) implies
            apply_layouts(m, changes)[k].windows.dom() == m[k].windows.dom() by {
            assert(prev.contains_key(k));
            assert(prev[k].with_window_layout(id, l).windows.dom() =~= prev[k].windows.dom());
        }
    }
}

/// Every update but a full refresh keeps each window stored under its own id
/// and on one workspace at most; a full refresh brings the refreshed state.
pub proof fn law_updates_keep_windows_well_placed(s: StateView, u: StateUpdate)
    requires
        windows_well_placed(s.workspaces),
        u matches StateUpdate::FullState(n) ==> windows_well_placed(n@.workspaces),
    ensures
        windows_well_placed(updated_state(s, u).workspaces),
{
    let m = s.workspaces;
    match u {
        StateUpdate::WindowChanged { window, workspace_id } => {
            let s1 = if window.is_focused {
                StateView {
                    workspaces: refocus(s.workspaces, s.focused_window_id, Some(window.id)),
                    focused_window_id: Some(window.id),
                    ..s
                }
            } else {
                s
            };
            let m1 = s1.workspaces;
            assert(m1.dom() == m.dom()) by {
                assert(crate::model::set_focus_flag_everywhere(m, window.id, true).dom() =~= m.dom());
                if let Some(f) = s.focused_window_id {
                    assert(crate::model::set_focus_flag_everywhere(m, f, false).dom() =~= m.dom());
                    assert(crate::model::set_focus_flag_everywhere(crate::model::set_focus_flag_everywhere(m, f, false), window.id, true).dom() =~= m.dom());
                }
            }
            assert forall|k: u64| #[trigger] m1.contains_key(k) implies m1[k].windows.dom() == m[k].windows.dom()
                && forall|id: u64| #[trigger] m[k].windows.contains_key(id) ==> m1[k].windows[id].id == m[k].windows[id].id by {
                assert(m[k].with_focus_flag(window.id, true).windows.dom() =~= m[k].windows.dom());
                if let Some(f) = s.focused_window_id {
                    assert(m[k].with_focus_flag(f, false).windows.dom() =~= m[k].windows.dom());
                    assert(m[k].with_focus_flag(f, false).with_focus_flag(window.id, true).windows.dom() =~= m[k].windows.dom());
                }
            }
            assert(windows_well_placed(m1));
            match workspace_id {
                Some(ws_id) => {
                    let moved = remove_window_except(m1, window.id, Some(ws_id));
                    let out = moved.insert(ws_id, workspace_or_new(moved, ws_id).with_window(window));
                    assert(updated_state(s, u).workspaces == out);
                    assert forall|a: u64, b: u64, id: u64| out.contains_key(a) && out.contains_key(b)
                        && #[trigger] out[a].windows.contains_key(id) && #[trigger] out[b].windows.contains_key(id)
                        implies a == b by {
                        if id != window.id {
                            if a != ws_id {
                                assert(m1[a].windows.contains_key(id));
                            } else if m1.contains_key(a) {
                                assert(m1[a].windows.contains_key(id));
                            }
                            if b != ws_id {
                                assert(m1[b].windows.contains_key(id));
                            } else if m1.contains_key(b) {
                                assert(m1[b].windows.contains_key(id));
                            }
                        }
                    }
                    assert forall|k: u64, id: u64| out.contains_key(k) && #[trigger] out[k].windows.contains_key(id)
                        implies out[k].windows[id].id == id by {
                        if id != window.id {
                            assert(m1[k].windows.contains_key(id));
                        }
                    }
                },
                None => {
                    let out = remove_window_everywhere(m1, window.id);
                    assert forall|a: u64, b: u64, id: u64| out.contains_key(a) && out.contains_key(b)
                        && #[trigger] out[a].windows.contains_key(id) && #[trigger] out[b].windows.contains_key(id)
                        implies a == b by {
                        assert(m1[a].windows.contains_key(id) && m1[b].windows.contains_key(id));
                    }
                    assert forall|k: u64, id: u64| out.contains_key(k) && #[trigger] out[k].windows.contains_key(id)
                        implies out[k].windows[id].id == id by {
                        assert(m1[k].windows.contains_key(id));
                    }
                },
            }
        },
        StateUpdate::WindowClosed(id0) => {
            let out = remove_window_everywhere(m, id0);
            assert forall|a: u64, b: u64, id: u64| out.contains_key(a) && out.contains_key(b)
                && #[trigger] out[a].windows.contains_key(id) && #[trigger] out[b].windows.contains_key(id)
                implies a == b by {
                assert(m[a].windows.contains_key(id) && m[b].windows.contains_key(id));
            }
            assert forall|k: u64, id: u64| out.contains_key(k) && #[trigger] out[k].windows.contains_key(id)
                implies out[k].windows[id].id == id by {
                assert(m[k].windows.contains_key(id));
            }
        },
        StateUpdate::FocusChanged(to) => {
            let out = refocus(m, s.focused_window_id, to);
            assert(out.dom() =~= m.dom()) by {
                if let Some(f) = s.focused_window_id {
                    assert(crate::model::set_focus_flag_everywhere(m, f, false).dom() =~= m.dom());
                }
                if let Some(t) = to {
                    assert(crate::model::set_focus_flag_everywhere(m, t, true).dom() =~= m.dom());
                    if let Some(f) = s.focused_window_id {
                        assert(crate::model::set_focus_flag_everywhere(crate::model::set_focus_flag_everywhere(m, f, false), t, true).dom() =~= m.dom());
                    }
                }
            }
            assert forall|k: u64| #[trigger] out.contains_key(k) implies out[k].windows.dom() == m[k].windows.dom()
                && forall|id: u64| #[trigger] m[k].windows.contains_key(id) ==> out[k].windows[id].id == m[k].windows[id].id by {
                if let Some(f) = s.focused_window_id {
                    assert(m[k].with_focus_flag(f, false).windows.dom() =~= m[k].windows.dom());
                    if let Some(t) = to {
                        assert(m[k].with_focus_flag(f, false).with_focus_flag(t, true).windows.dom() =~= m[k].windows.dom());
                    }
                } else if let Some(t) = to {
                    assert(m[k].with_focus_flag(t, true).windows.dom() =~= m[k].windows.dom());
                }
            }
        },
        StateUpdate::WorkspaceActivated { id, focused } => {
            if focused {
                let out = activate(m, id);
                assert forall|a: u64, b: u64, wid: u64| out.contains_key(a) && out.contains_key(b)
                    && #[trigger] out[a].windows.contains_key(wid) && #[trigger] out[b].windows.contains_key(wid)
                    implies a == b by {
                    assert(m[a].windows.contains_key(wid) && m[b].windows.contains_key(wid));
                }
                assert forall|k: u64, wid: u64| out.contains_key(k) && #[trigger] out[k].windows.contains_key(wid)
                    implies out[k].windows[wid].id == wid by {
                    assert(m[k].windows.contains_key(wid));
                }
            }
        },
        StateUpdate::LayoutsChanged(changes) => {
            let out = apply_layouts(m, changes@);
            lemma_layouts_keep_windows(m, changes@);
            assert forall|a: u64, b: u64, wid: u64| out.contains_key(a) && out.contains_key(b)
                && #[trigger] out[a].windows.contains_key(wid) && #[trigger] out[b].windows.contains_key(wid)
                implies a == b by {
                assert(m.contains_key(a) && m.contains_key(b));
                assert(m[a].windows.contains_key(wid) && m[b].windows.contains_key(wid));
            }
            assert forall|k: u64, wid: u64| out.contains_key(k) && #[trigger] out[k].windows.contains_key(wid)
                implies out[k].windows[wid].id == wid by {
                assert(m.contains_key(k));
                assert(m[k].windows.contains_key(wid));
            }
        },
        StateUpdate::WorkspacesChanged(list) => {
            let r = m.restrict(crate::model::niri_ids(list@));
            let out = replaced_workspaces(m, list@);
            lemma_metadata_keeps_windows(r, list@);
            assert forall|a: u64, b: u64, wid: u64| out.contains_key(a) && out.contains_key(b)
                && #[trigger] out[a].windows.contains_key(wid) && #[trigger] out[b].windows.contains_key(wid)
                implies a == b by {
                assert(r.contains_key(a) && r.contains_key(b));
                assert(m[a].windows.contains_key(wid) && m[b].windows.contains_key(wid));
            }
            assert forall|k: u64, wid: u64| out.contains_key(k) && #[trigger] out[k].windows.contains_key(wid)
                implies out[k].windows[wid].id == wid by {
                assert(r.contains_key(k));
                assert(m[k].windows.contains_key(wid));
            }
        },
        StateUpdate::WorkspaceActiveWindowChanged { workspace_id, active_window_id } => {
            let out = updated_state(s, u).workspaces;
            assert forall|a: u64, b: u64, wid: u64| out.contains_key(a) && out.contains_key(b)
                && #[trigger] out[a].windows.contains_key(wid) && #[trigger] out[b].windows.contains_key(wid)
                implies a == b by {
                assert(m[a].windows.contains_key(wid) && m[b].windows.contains_key(wid));
            }
            assert forall|k: u64, wid: u64| out.contains_key(k) && #[trigger] out[k].windows.contains_key(wid)
                implies out[k].windows[wid].id == wid by {
                assert(m[k].windows.contains_key(wid));
            }
        },
        _ => {},
    }
}

/// After the focus flag moves from the focused window to `to`, a flagged
/// window is `to`.
proof fn lemma_refocus_flags(s: StateView, to: Option<u64>)
    requires
        focus_flags_agree(s),
    ensures
        forall|k: u64, id: u64| refocus(s.workspaces, s.focused_window_id, to).contains_key(k)
            && #[trigger] refocus(s.workspaces, s.focused_window_id, to)[k].windows.contains_key(id)
            && refocus(s.workspaces, s.focused_window_id, to)[k].windows[id].is_focused ==> to == Some(id),
        refocus(s.workspaces, s.focused_window_id, to).dom() == s.workspaces.dom(),
        forall|k: u64| #[trigger] s.workspaces.contains_key(k) ==>
            refocus(s.workspaces, s.focused_window_id, to)[k].windows.dom() == s.workspaces[k].windows.dom(),
{
    let m = s.workspaces;
    let out = refocus(m, s.focused_window_id, to);
    let cleared = match s.focused_window_id {
        Some(f) => crate::model::set_focus_flag_everywhere(m, f, false),
        None => m,
    };
    assert(cleared.dom() =~= m.dom());
    assert forall|k: u64| #[trigger] m.contains_key(k) implies cleared[k].windows.dom() == m[k].windows.dom() by {
        if let Some(f) = s.focused_window_id {
            assert(m[k].with_focus_flag(f, false).windows.dom() =~= m[k].windows.dom());
        }
    }
    assert forall|k: u64, id: u64| cleared.contains_key(k) && #[trigger] cleared[k].windows.contains_key(id)
        implies !cleared[k].windows[id].is_focused by {
        assert(m[k].windows.contains_key(id));
        if m[k].windows[id].is_focused {
            assert(s.focused_window_id == Some(id));
        }
    }
    if let Some(t) = to {
        assert(out.dom() =~= m.dom());
        assert forall|k: u64| #[trigger] m.contains_key(k) implies out[k].windows.dom() == m[k].windows.dom() by {
            assert(cleared[k].with_focus_flag(t, true).windows.dom() =~= cleared[k].windows.dom());
        }
        assert forall|k: u64, id: u64| out.contains_key(k) && #[trigger] out[k].windows.contains_key(id)
            && out[k].windows[id].is_focused implies to == Some(id) by {
            assert(cleared[k].windows.contains_key(id));
        }
    }
}

/// Every update keeps the focus flag on the focused window alone; a full
/// refresh brings the refreshed state.
pub proof fn law_updates_keep_focus_flags(s: StateView, u: StateUpdate)
    requires
        focus_flags_agree(s),
        u matches StateUpdate::FullState(n) ==> focus_flags_agree(n@),
    ensures
        focus_flags_agree(updated_state(s, u)),
{
    let m = s.workspaces;
    let t = updated_state(s, u);
    match u {
        StateUpdate::WindowChanged { window, workspace_id } => {
            let s1 = if window.is_focused {
                StateView {
                    workspaces: refocus(s.workspaces, s.focused_window_id, Some(window.id)),
                    focused_window_id: Some(window.id),
                    ..s
                }
            } else {
                s
            };
            if window.is_focused {
                lemma_refocus_flags(s, Some(window.id));
            }
            assert(focus_flags_agree(s1));
            let m1 = s1.workspaces;
            match workspace_id {
                Some(ws_id) => {
                    let moved = remove_window_except(m1, window.id, Some(ws_id));
                    assert forall|k: u64, id: u64| t.workspaces.contains_key(k) && #[trigger] t.workspaces[k].windows.contains_key(id)
                        && t.workspaces[k].windows[id].is_focused implies t.focused_window_id == Some(id) by {
                        if id != window.id || k != ws_id {
                            if m1.contains_key(k) {
                                assert(m1[k].windows.contains_key(id));
                            }
                        }
                    }
                },
                None => {
                    assert forall|k: u64, id: u64| t.workspaces.contains_key(k) && #[trigger] t.workspaces[k].windows.contains_key(id)
                        && t.workspaces[k].windows[id].is_focused implies t.focused_window_id == Some(id) by {
                        assert(m1[k].windows.contains_key(id));
                    }
                },
            }
        },
        StateUpdate::WindowClosed(id0) => {
            assert forall|k: u64, id: u64| t.workspaces.contains_key(k) && #[trigger] t.workspaces[k].windows.contains_key(id)
                && t.workspaces[k].windows[id].is_focused implies t.focused_window_id == Some(id) by {
                assert(m[k].windows.contains_key(id));
            }
        },
        StateUpdate::FocusChanged(to) => {
            lemma_refocus_flags(s, to);
        },
        StateUpdate::WorkspaceActivated { id, focused } => {
            if focused {
                assert forall|k: u64, wid: u64| t.workspaces.contains_key(k) && #[trigger] t.workspaces[k].windows.contains_key(wid)
                    && t.workspaces[k].windows[wid].is_focused implies t.focused_window_id == Some(wid) by {
                    assert(m[k].windows.contains_key(wid));
                }
            }
        },
        StateUpdate::LayoutsChanged(changes) => {
            lemma_layouts_keep_windows(m, changes@);
            assert forall|k: u64, wid: u64| t.workspaces.contains_key(k) && #[trigger] t.workspaces[k].windows.contains_key(wid)
                && t.workspaces[k].windows[wid].is_focused implies t.focused_window_id == Some(wid) by {
                assert(m.contains_key(k));
                assert(m[k].windows.contains_key(wid));
            }
        },
        StateUpdate::WorkspacesChanged(list) => {
            let r = m.restrict(crate::model::niri_ids(list@));
            lemma_metadata_keeps_windows(r, list@);
            assert forall|k: u64, wid: u64| t.workspaces.contains_key(k) && #[trigger] t.workspaces[k].windows.contains_key(wid)
                && t.workspaces[k].windows[wid].is_focused implies t.focused_window_id == Some(wid) by {
                assert(r.contains_key(k));
                assert(m[k].windows.contains_key(wid));
            }
        },
        StateUpdate::WorkspaceActiveWindowChanged { workspace_id, active_window_id } => {
            assert forall|k: u64, wid: u64| t.workspaces.contains_key(k) && #[trigger] t.workspaces[k].windows.contains_key(wid)
                && t.workspaces[k].windows[wid].is_focused implies t.focused_window_id == Some(wid) by {
                assert(m[k].windows.contains_key(wid));
            }
        },
        _ => {},
    }
}

/// A window reported on a workspace is afterwards held by that workspace,
/// exactly as reported, and by no other.
pub proof fn law_window_changed_then_found(s: StateView, window: Window, ws_id: u64)
    ensures
        updated_state(s, StateUpdate::WindowChanged { window, workspace_id: Some(ws_id) }).workspaces.contains_key(ws_id),
        updated_state(s, StateUpdate::WindowChanged { window, workspace_id: Some(ws_id) }).workspaces[ws_id].windows.contains_key(window.id),
        updated_state(s, StateUpdate::WindowChanged { window, workspace_id: Some(ws_id) }).workspaces[ws_id].windows[window.id] == window,
        forall|k: u64| k != ws_id && #[trigger] updated_state(s, StateUpdate::WindowChanged { window, workspace_id: Some(ws_id) }).workspaces.contains_key(k)
            ==> !updated_state(s, StateUpdate::WindowChanged { window, workspace_id: Some(ws_id) }).workspaces[k].windows.contains_key(window.id),
{
}

/// A closed window is held by no workspace afterwards.
pub proof fn law_window_closed_is_forgotten(s: StateView, id: u64)
    ensures
        !crate::model::window_known(updated_state(s, StateUpdate::WindowClosed(id)).workspaces, id),
{
}

/// A workspace list from the compositor keeps the windows of every listed
/// workspace that was known, brings listed unknown workspaces in empty, and
/// drops unlisted workspaces with their windows.
pub proof fn law_workspaces_changed_keeps_windows(s: StateView, list: Vec<NiriWorkspace>, k: u64)
    ensures
        updated_state(s, StateUpdate::WorkspacesChanged(list)).workspaces.contains_key(k)
            == crate::model::niri_ids(list@).contains(k),
        updated_state(s, StateUpdate::WorkspacesChanged(list)).workspaces.contains_key(k) ==> (
            if s.workspaces.contains_key(k) {
                updated_state(s, StateUpdate::WorkspacesChanged(list)).workspaces[k].windows == s.workspaces[k].windows
            } else {
                updated_state(s, StateUpdate::WorkspacesChanged(list)).workspaces[k].windows.is_empty()
            }),
{
    let r = s.workspaces.restrict(crate::model::niri_ids(list@));
    lemma_metadata_keeps_windows(r, list@);
    lemma_metadata_domain(r, list@);
    assert(r.dom() =~= s.workspaces.dom().intersect(crate::model::niri_ids(list@)));
}

/// Layout changes never add, drop or move windows or workspaces, and keep
/// every window's id and focus flag; only positions, sizes, floating state
/// and places in the columns change.
pub proof fn law_layouts_changed_keeps_windows(s: StateView, changes: Vec<(u64, WindowLayout)>)
    ensures
        updated_state(s, StateUpdate::LayoutsChanged(changes)).workspaces.dom() == s.workspaces.dom(),
        forall|k: u64| #[trigger] s.workspaces.contains_key(k) ==>
            updated_state(s, StateUpdate::LayoutsChanged(changes)).workspaces[k].windows.dom() == s.workspaces[k].windows.dom(),
        forall|k: u64, id: u64| s.workspaces.contains_key(k) && #[trigger] s.workspaces[k].windows.contains_key(id) ==>
            updated_state(s, StateUpdate::LayoutsChanged(changes)).workspaces[k].windows[id].id == s.workspaces[k].windows[id].id
            && updated_state(s, StateUpdate::LayoutsChanged(changes)).workspaces[k].windows[id].is_focused
                == s.workspaces[k].windows[id].is_focused,
        updated_state(s, StateUpdate::LayoutsChanged(changes)).focused_window_id == s.focused_window_id,
        updated_state(s, StateUpdate::LayoutsChanged(changes)).active_workspace_id == s.active_workspace_id,
{
    lemma_layouts_keep_windows(s.workspaces, changes@);
}

/// Whether every window is stored under its own id.
pub open spec fn windows_keyed_by_id(m: Map<u64, WorkspaceView>) -> bool {
    forall|k: u64, id: u64| m.contains_key(k) && #[trigger] m[k].windows.contains_key(id)
        ==> m[k].windows[id].id == id
}

/// Whether exactly the focused window carries the focus flag.
pub open spec fn focus_flags_exact(s: StateView) -> bool {
    forall|k: u64, id: u64| s.workspaces.contains_key(k) && #[trigger] s.workspaces[k].windows.contains_key(id)
        ==> (s.workspaces[k].windows[id].is_focused <==> s.focused_window_id == Some(id))
}

/// Moving the focus (the state `MinimapState::set_focused_window` leaves,
/// which a focus change gives) keeps "a window carries the focus flag
/// exactly when it is the focused window", on states where every window is
/// stored under its own id; workspaces, windows and every other field stay
/// as they were.
pub proof fn law_set_focused_window_keeps_exact_flags(s: StateView, to: Option<u64>)
    requires
        windows_keyed_by_id(s.workspaces),
        focus_flags_exact(s),
    ensures
        focus_flags_exact(updated_state(s, StateUpdate::FocusChanged(to))),
        windows_keyed_by_id(updated_state(s, StateUpdate::FocusChanged(to)).workspaces),
        updated_state(s, StateUpdate::FocusChanged(to)).focused_window_id == to,
        updated_state(s, StateUpdate::FocusChanged(to)).active_workspace_id == s.active_workspace_id,
        updated_state(s, StateUpdate::FocusChanged(to)).workspaces.dom() == s.workspaces.dom(),
        forall|k: u64| #[trigger] s.workspaces.contains_key(k) ==>
            updated_state(s, StateUpdate::FocusChanged(to)).workspaces[k].windows.dom() == s.workspaces[k].windows.dom(),
        forall|k: u64, id: u64| s.workspaces.contains_key(k) && #[trigger] s.workspaces[k].windows.contains_key(id) ==>
            (Window { is_focused: false, ..updated_state(s, StateUpdate::FocusChanged(to)).workspaces[k].windows[id] })
                == (Window { is_focused: false, ..s.workspaces[k].windows[id] }),
        forall|k: u64| #[trigger] s.workspaces.contains_key(k) ==>
            (WorkspaceView { windows: Map::empty(), ..updated_state(s, StateUpdate::FocusChanged(to)).workspaces[k] })
                == (WorkspaceView { windows: Map::empty(), ..s.workspaces[k] }),
{
    let m = s.workspaces;
    let out = refocus(m, s.focused_window_id, to);
    let cleared = match s.focused_window_id {
        Some(f) => crate::model::set_focus_flag_everywhere(m, f, false),
        None => m,
    };
    assert(cleared.dom() =~= m.dom());
    assert(out.dom() =~= m.dom());
    assert forall|k: u64| #[trigger] m.contains_key(k) implies cleared[k].windows.dom() == m[k].windows.dom()
        && out[k].windows.dom() == m[k].windows.dom() by {
        if let Some(f) = s.focused_window_id {
            assert(m[k].with_focus_flag(f, false).windows.dom() =~= m[k].windows.dom());
        }
        if let Some(t) = to {
            assert(cleared[k].with_focus_flag(t, true).windows.dom() =~= cleared[k].windows.dom());
        }
    }
    assert forall|k: u64, id: u64| m.contains_key(k) && #[trigger] m[k].windows.contains_key(id) implies
        (out[k].windows[id].is_focused <==> to == Some(id))
        && (Window { is_focused: false, ..out[k].windows[id] }) == (Window { is_focused: false, ..m[k].windows[id] }) by {
        assert(cleared[k].windows.contains_key(id));
        assert((Window { is_focused: false, ..cleared[k].windows[id] }) == (Window { is_focused: false, ..m[k].windows[id] }));
        assert(cleared[k].windows[id].is_focused <==> (m[k].windows[id].is_focused && s.focused_window_id != Some(id)));
    }
    assert forall|k: u64| #[trigger] m.contains_key(k) implies
        (WorkspaceView { windows: Map::empty(), ..out[k] }) == (WorkspaceView { windows: Map::empty(), ..m[k] }) by {
        assert((WorkspaceView { windows: Map::empty(), ..cleared[k] }) == (WorkspaceView { windows: Map::empty(), ..m[k] }));
    }
    assert forall|k: u64, id: u64| out.contains_key(k) && #[trigger] out[k].windows.contains_key(id)
        implies out[k].windows[id].id == id by {
        assert(m[k].windows.contains_key(id));
    }
}

/// What the widgets are told after each kind of update: a layout change
/// and a workspace activation show every minimap, a focus change and an
/// overview change are handed on with their values, and a closed window, a
/// new workspace list, a full refresh or a changed active window do
/// nothing more.
pub proof fn law_followup_by_update(s: StateView, u: StateUpdate)
    ensures
        u is LayoutsChanged ==> followup_of(s, u) == Followup::ShowAll,
        u is WorkspaceActivated ==> followup_of(s, u) == Followup::ShowAll,
        forall|id: Option<u64>| u == StateUpdate::FocusChanged(id) ==> followup_of(s, u) == Followup::ShowOnFocusChange(id),
        forall|open: bool| u == StateUpdate::OverviewChanged(open) ==> followup_of(s, u) == Followup::SetOverviewOpen(open),
        (u is WindowClosed || u is WorkspacesChanged || u is FullState || u is WorkspaceActiveWindowChanged)
            ==> followup_of(s, u) == Followup::Nothing,
{
}

/// Moving the focus flag never changes which windows a workspace holds.
proof fn lemma_refocus_keeps_window_ids(m: Map<u64, WorkspaceView>, from: Option<u64>, to: Option<u64>, k: u64, id: u64)
    ensures
        refocus(m, from, to).contains_key(k) == m.contains_key(k),
        m.contains_key(k) ==> refocus(m, from, to)[k].windows.contains_key(id) == m[k].windows.contains_key(id),
{
}

/// A window change asks the widgets to show for a new window exactly when
/// it names the active workspace and that workspace did not hold the
/// window before; the request carries whether the window floats.
pub proof fn law_followup_of_window_change(s: StateView, window: Window, workspace_id: Option<u64>)
    ensures
        followup_of(s, StateUpdate::WindowChanged { window, workspace_id }) == (if workspace_id is Some
            && s.active_workspace_id == workspace_id
            && !(s.workspaces.contains_key(workspace_id.unwrap())
                && s.workspaces[workspace_id.unwrap()].windows.contains_key(window.id)) {
            Followup::ShowForNewWindow(window.is_floating)
        } else {
            Followup::Nothing
        }),
{
    if let Some(k) = workspace_id {
        lemma_refocus_keeps_window_ids(s.workspaces, s.focused_window_id, Some(window.id), k, window.id);
    }
}

/// Activating the focused workspace makes it the active workspace and the
/// only one flagged active (creating it empty when unknown), keeping every
/// workspace's windows; an activation that is not focused changes nothing.
pub proof fn law_workspace_activated(s: StateView, id: u64, focused: bool, k: u64)
    ensures
        !focused ==> updated_state(s, StateUpdate::WorkspaceActivated { id, focused }) == s,
        focused ==> updated_state(s, StateUpdate::WorkspaceActivated { id, focused }).active_workspace_id == Some(id),
        focused ==> updated_state(s, StateUpdate::WorkspaceActivated { id, focused }).workspaces.contains_key(k)
            == (k == id || s.workspaces.contains_key(k)),
        focused && updated_state(s, StateUpdate::WorkspaceActivated { id, focused }).workspaces.contains_key(k) ==> (
            updated_state(s, StateUpdate::WorkspaceActivated { id, focused }).workspaces[k].is_active == (k == id)
            && updated_state(s, StateUpdate::WorkspaceActivated { id, focused }).workspaces[k].windows
                == workspace_or_new(s.workspaces, k).windows),
        focused ==> updated_state(s, StateUpdate::WorkspaceActivated { id, focused }).focused_window_id == s.focused_window_id,
{
}

/// After a new workspace list, the active workspace is the first focused
/// entry; without one, the previous active workspace when it is still
/// listed, else none.
pub proof fn law_workspaces_changed_active(s: StateView, list: Vec<NiriWorkspace>)
    ensures
        forall|i: int| 0 <= i < list@.len() && (#[trigger] list@[i]).is_focused
            && (forall|j: int| 0 <= j < i ==> !(#[trigger] list@[j]).is_focused)
            ==> updated_state(s, StateUpdate::WorkspacesChanged(list)).active_workspace_id == Some(list@[i].id),
        (forall|j: int| 0 <= j < list@.len() ==> !(#[trigger] list@[j]).is_focused) ==> (
            updated_state(s, StateUpdate::WorkspacesChanged(list)).active_workspace_id == (match s.active_workspace_id {
                Some(a) => if exists|j: int| 0 <= j < list@.len() && (#[trigger] list@[j]).id == a { Some(a) } else { None },
                None => None,
            })),
{
    assert forall|i: int| 0 <= i < list@.len() && (#[trigger] list@[i]).is_focused
        && (forall|j: int| 0 <= j < i ==> !(#[trigger] list@[j]).is_focused)
        implies crate::model::first_focused(list@) == Some(list@[i].id) by {
        lemma_first_focused_at(list@, i);
    }
    if forall|j: int| 0 <= j < list@.len() ==> !(#[trigger] list@[j]).is_focused {
        lemma_first_focused_none(list@);
    }
}

/// The first focused entry is found where it stands.
proof fn lemma_first_focused_at(l: Seq<NiriWorkspace>, i: int)
    requires
        0 <= i < l.len(),
        l[i].is_focused,
        forall|j: int| 0 <= j < i ==> !(#[trigger] l[j]).is_focused,
    ensures
        crate::model::first_focused(l) == Some(l[i].id),
    decreases i,
{
    if i > 0 {
        assert(!l[0].is_focused);
        assert forall|j: int| 0 <= j < i - 1 implies !(#[trigger] l.drop_first()[j]).is_focused by {
            assert(!l[j + 1].is_focused);
        }
        lemma_first_focused_at(l.drop_first(), i - 1);
    }
}

/// A list without a focused entry has no first focused entry.
proof fn lemma_first_focused_none(l: Seq<NiriWorkspace>)
    requires
        forall|j: int| 0 <= j < l.len() ==> !(#[trigger] l[j]).is_focused,
    ensures
        crate::model::first_focused(l) is None,
    decreases l.len(),
{
    if l.len() > 0 {
        assert(!l[0].is_focused);
        assert forall|j: int| 0 <= j < l.len() - 1 implies !(#[trigger] l.drop_first()[j]).is_focused by {
            assert(!l[j + 1].is_focused);
        }
        lemma_first_focused_none(l.drop_first());
    }
}

/// A changed active window is stored on its workspace when that workspace
/// is known, with nothing else changed; an unknown workspace changes
/// nothing.
pub proof fn law_active_window_changed(s: StateView, workspace_id: u64, active_window_id: Option<u64>)
    ensures
        !s.workspaces.contains_key(workspace_id) ==> updated_state(
            s, StateUpdate::WorkspaceActiveWindowChanged { workspace_id, active_window_id }) == s,
        s.workspaces.contains_key(workspace_id) ==> updated_state(
            s, StateUpdate::WorkspaceActiveWindowChanged { workspace_id, active_window_id }) == (StateView {
                workspaces: s.workspaces.insert(
                    workspace_id,
                    WorkspaceView { active_window_id, ..s.workspaces[workspace_id] },
                ),
                ..s
            }),
{
}

/// An Overview change records whether Overview is open and changes nothing
/// else.
pub proof fn law_overview_changed(s: StateView, open: bool)
    ensures
        updated_state(s, StateUpdate::OverviewChanged(open)) == (StateView { overview_open: open, ..s }),
{
}

} // verus!
