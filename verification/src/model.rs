//! The minimap's model of the compositor: workspaces and their windows.

use std::collections::HashMap;
use vstd::prelude::*;
use vstd::std_specs::iter::IteratorSpec;

use crate::ipc::{last_entry_with_id, NiriWorkspace};

verus! {

/// One window as the minimap knows it.
///
/// Positions and sizes are logical pixels reported by the compositor as
/// IEEE-754 doubles; they are carried here as the raw bit patterns
/// (`f64::to_bits`), since this model only moves them around and never
/// computes with them.
#[derive(Debug)]
pub struct Window {
    /// Unique window identifier from the compositor
    pub id: u64,
    /// Tile position in workspace-view coordinates (bit patterns of x, y),
    /// known only for tiles inside the viewport
    pub pos: Option<(u64, u64)>,
    /// Tile size (bit patterns of width, height)
    pub size: (u64, u64),
    /// Zero-based column index in the scrolling layout
    pub column_index: usize,
    /// Zero-based window index within the column
    pub window_index: usize,
    /// Whether this window is currently focused
    pub is_focused: bool,
    /// Whether this window is floating (not tiled)
    pub is_floating: bool,
    /// Window title, if set
    pub title: Option<String>,
    /// Application id, if set
    pub app_id: Option<String>,
}

/// A copy of an optional string.
pub fn clone_opt_string(s: &Option<String>) -> (r: Option<String>)
    ensures
        r == *s,
{
    match s {
        Some(t) => Some(t.clone()),
        None => None,
    }
}

impl Clone for Window {
    fn clone(&self) -> (r: Self)
        ensures
            r == *self,
    {
        Window {
            id: self.id,
            pos: match self.pos {
                Some((x, y)) => Some((x, y)),
                None => None,
            },
            size: (self.size.0, self.size.1),
            column_index: self.column_index,
            window_index: self.window_index,
            is_focused: self.is_focused,
            is_floating: self.is_floating,
            title: clone_opt_string(&self.title),
            app_id: clone_opt_string(&self.app_id),
        }
    }
}

/// Collect the keys of a map into a vector, each once.
pub fn map_keys<V>(m: &HashMap<u64, V>) -> (keys: Vec<u64>)
    ensures
        keys@.no_duplicates(),
        keys@.to_set() == m@.dom(),
        keys@.len() == m@.dom().len(),
{
    let ghost all = vstd::std_specs::hash::spec_keys_iter(m).remaining();
    let mut keys: Vec<u64> = Vec::new();
    for k in it: m.keys()
        invariant
            it.seq() == all,
            keys@ == all.take(it.index() as int).map_values(|r: &u64| *r),
    {
        proof {
            assert(*k == all[it.index()]);
        }
        keys.push(*k);
        proof {
            assert(keys@ =~= all.take(it.index() + 1).map_values(|r: &u64| *r));
        }
    }
    proof {
        assert(all.take(all.len() as int) =~= all);
        assert(keys@ =~= all.unref());
    }
    keys
}


/// A workspace with the windows on it.
#[derive(Debug)]
pub struct Workspace {
    /// Compositor workspace id (stable across moves and reorders)
    pub id: u64,
    /// Index of the workspace on its monitor (display order)
    pub idx: u8,
    /// Name of the output this workspace is on, if any
    pub output: Option<String>,
    /// Windows on this workspace, keyed by window id
    pub windows: HashMap<u64, Window>,
    /// Whether this workspace is the active one on its output
    pub is_active: bool,
    /// The most recently focused window on this workspace, if any
    pub active_window_id: Option<u64>,
}

/// Mathematical model of a [`Workspace`].
#[verifier::ext_equal]
pub struct WorkspaceView {
    pub id: u64,
    pub idx: u8,
    pub output: Option<String>,
    pub windows: Map<u64, Window>,
    pub is_active: bool,
    pub active_window_id: Option<u64>,
}

impl View for Workspace {
    type V = WorkspaceView;

    open spec fn view(&self) -> WorkspaceView {
        WorkspaceView {
            id: self.id,
            idx: self.idx,
            output: self.output,
            windows: self.windows@,
            is_active: self.is_active,
            active_window_id: self.active_window_id,
        }
    }
}

/// A workspace with the given id and nothing else known about it.
pub open spec fn empty_workspace(id: u64) -> WorkspaceView {
    WorkspaceView {
        id,
        idx: 0,
        output: None,
        windows: Map::empty(),
        is_active: false,
        active_window_id: None,
    }
}

/// The workspace under `id`, or a fresh empty one when there is none.
pub open spec fn workspace_or_new(m: Map<u64, WorkspaceView>, id: u64) -> WorkspaceView {
    if m.contains_key(id) {
        m[id]
    } else {
        empty_workspace(id)
    }
}

impl WorkspaceView {
    /// The workspace with `w` stored under its id.
    pub open spec fn with_window(self, w: Window) -> WorkspaceView {
        WorkspaceView { windows: self.windows.insert(w.id, w), ..self }
    }

    /// The workspace without the window `id`.
    pub open spec fn without_window(self, id: u64) -> WorkspaceView {
        WorkspaceView { windows: self.windows.remove(id), ..self }
    }

    /// The workspace with the focus flag of window `id` set to `flag`, if
    /// that window is on it.
    pub open spec fn with_focus_flag(self, id: u64, flag: bool) -> WorkspaceView {
        if self.windows.contains_key(id) {
            WorkspaceView {
                windows: self.windows.insert(id, Window { is_focused: flag, ..self.windows[id] }),
                ..self
            }
        } else {
            self
        }
    }

    /// The workspace with its active flag set to `flag`.
    pub open spec fn with_active(self, flag: bool) -> WorkspaceView {
        WorkspaceView { is_active: flag, ..self }
    }
}

/// Every workspace except the one under `except` without the window `id`.
pub open spec fn remove_window_except(m: Map<u64, WorkspaceView>, id: u64, except: Option<u64>) -> Map<u64, WorkspaceView> {
    Map::new(
        |k: u64| m.contains_key(k),
        |k: u64| if except == Some(k) { m[k] } else { m[k].without_window(id) },
    )
}

/// Every workspace without the window `id`.
pub open spec fn remove_window_everywhere(m: Map<u64, WorkspaceView>, id: u64) -> Map<u64, WorkspaceView> {
    remove_window_except(m, id, None)
}

/// Every workspace with the focus flag of window `id` set to `flag`.
pub open spec fn set_focus_flag_everywhere(m: Map<u64, WorkspaceView>, id: u64, flag: bool) -> Map<u64, WorkspaceView> {
    m.map_values(|w: WorkspaceView| w.with_focus_flag(id, flag))
}

/// Every workspace with its active flag cleared.
pub open spec fn deactivate_all(m: Map<u64, WorkspaceView>) -> Map<u64, WorkspaceView> {
    m.map_values(|w: WorkspaceView| w.with_active(false))
}

/// Whether some workspace holds the window `id`.
pub open spec fn window_known(m: Map<u64, WorkspaceView>, id: u64) -> bool {
    exists|k: u64| #[trigger] m.contains_key(k) && m[k].windows.contains_key(id)
}

/// The ids named by a list of compositor workspaces.
pub open spec fn niri_ids(s: Seq<NiriWorkspace>) -> Set<u64> {
    Set::new(|id: u64| exists|i: int| 0 <= i < s.len() && #[trigger] s[i].id == id)
}

/// The id of the first focused entry of a compositor workspace list.
pub open spec fn first_focused(s: Seq<NiriWorkspace>) -> Option<u64>
    decreases s.len(),
{
    if s.len() == 0 {
        None
    } else if s[0].is_focused {
        Some(s[0].id)
    } else {
        first_focused(s.drop_first())
    }
}

/// A workspace with its metadata (id, index, output, active flag, active
/// window) replaced by a compositor entry; its windows are kept.
pub open spec fn with_metadata(w: WorkspaceView, ws: NiriWorkspace) -> WorkspaceView {
    WorkspaceView {
        id: ws.id,
        idx: ws.idx,
        output: ws.output,
        is_active: ws.is_active,
        active_window_id: ws.active_window_id,
        ..w
    }
}

/// The workspaces after applying the metadata of each entry in order,
/// creating missing workspaces empty.
pub open spec fn apply_metadata(m: Map<u64, WorkspaceView>, s: Seq<NiriWorkspace>) -> Map<u64, WorkspaceView>
    decreases s.len(),
{
    if s.len() == 0 {
        m
    } else {
        let prev = apply_metadata(m, s.drop_last());
        prev.insert(s.last().id, with_metadata(workspace_or_new(prev, s.last().id), s.last()))
    }
}

/// The workspaces after a metadata snapshot: workspaces missing from it are
/// dropped with their windows, the others take its metadata.
pub open spec fn replaced_workspaces(m: Map<u64, WorkspaceView>, s: Seq<NiriWorkspace>) -> Map<u64, WorkspaceView> {
    apply_metadata(m.restrict(niri_ids(s)), s)
}

/// The active workspace after a metadata snapshot: the first focused entry,
/// else the previous active workspace when it survives, else none.
pub open spec fn replaced_active(active: Option<u64>, s: Seq<NiriWorkspace>) -> Option<u64> {
    match first_focused(s) {
        Some(id) => Some(id),
        None => match active {
            Some(a) => if niri_ids(s).contains(a) { Some(a) } else { None },
            None => None,
        },
    }
}

/// Whether some entry of the list has the id `id`.
pub fn niri_list_contains(s: &[NiriWorkspace], id: u64) -> (b: bool)
    ensures
        b == niri_ids(s@).contains(id),
{
    let mut i: usize = 0;
    while i < s.len()
        invariant
            i <= s@.len(),
            forall|j: int| 0 <= j < i ==> (#[trigger] s@[j]).id != id,
        decreases s@.len() - i,
    {
        if s[i].id == id {
            proof {
                assert(s@[i as int].id == id);
            }
            return true;
        }
        i += 1;
    }
    false
}

/// The workspaces after the focus flag moves from window `from` to window
/// `to`.
pub open spec fn refocus(m: Map<u64, WorkspaceView>, from: Option<u64>, to: Option<u64>) -> Map<u64, WorkspaceView> {
    let cleared = match from {
        Some(id) => set_focus_flag_everywhere(m, id, false),
        None => m,
    };
    match to {
        Some(id) => set_focus_flag_everywhere(cleared, id, true),
        None => cleared,
    }
}

/// The workspaces after `id` becomes the only active one (created when
/// missing).
pub open spec fn activate(m: Map<u64, WorkspaceView>, id: u64) -> Map<u64, WorkspaceView> {
    let cleared = deactivate_all(m);
    cleared.insert(id, workspace_or_new(cleared, id).with_active(true))
}

impl Workspace {
    /// An empty workspace with the given id.
    pub fn new_empty(id: u64) -> (w: Workspace)
        ensures
            w@ == empty_workspace(id),
    {
        Workspace {
            id,
            idx: 0,
            output: None,
            windows: HashMap::new(),
            is_active: false,
            active_window_id: None,
        }
    }
}

/// Everything the minimap knows about the compositor.
#[derive(Debug)]
pub struct MinimapState {
    /// All workspaces, keyed by workspace id
    pub workspaces: HashMap<u64, Workspace>,
    /// Currently active (focused) workspace id
    pub active_workspace_id: Option<u64>,
    /// Currently focused window id
    pub focused_window_id: Option<u64>,
    /// Whether the compositor's Overview is open
    pub overview_open: bool,
}

/// Mathematical model of a [`MinimapState`].
#[verifier::ext_equal]
pub struct StateView {
    pub workspaces: Map<u64, WorkspaceView>,
    pub active_workspace_id: Option<u64>,
    pub focused_window_id: Option<u64>,
    pub overview_open: bool,
}

impl View for MinimapState {
    type V = StateView;

    open spec fn view(&self) -> StateView {
        StateView {
            workspaces: self.workspaces@.map_values(|w: Workspace| w@),
            active_workspace_id: self.active_workspace_id,
            focused_window_id: self.focused_window_id,
            overview_open: self.overview_open,
        }
    }
}

/// The state with no workspaces, nothing focused and Overview closed.
pub open spec fn empty_state() -> StateView {
    StateView {
        workspaces: Map::empty(),
        active_workspace_id: None,
        focused_window_id: None,
        overview_open: false,
    }
}

impl MinimapState {
    /// Create a new empty state.
    pub fn new() -> (s: MinimapState)
        ensures
            s@ == empty_state(),
    {
        let s = MinimapState {
            workspaces: HashMap::new(),
            active_workspace_id: None,
            focused_window_id: None,
            overview_open: false,
        };
        proof {
            assert(s@.workspaces =~= Map::empty());
        }
        s
    }

    /// The currently active workspace, if it is known.
    pub fn active_workspace(&self) -> (r: Option<&Workspace>)
        ensures
            r == (match self.active_workspace_id {
                Some(id) => if self.workspaces@.contains_key(id) {
                    Some(&self.workspaces@[id])
                } else {
                    None
                },
                None => None,
            }),
    {
        match self.active_workspace_id {
            Some(id) => self.workspaces.get(&id),
            None => None,
        }
    }

    /// Find a window by id across all workspaces.
    pub fn find_window(&self, id: u64) -> (r: Option<&Window>)
        ensures
            r is None <==> !window_known(self@.workspaces, id),
            r matches Some(w) ==> exists|k: u64| #[trigger] self@.workspaces.contains_key(k)
                && self@.workspaces[k].windows.contains_key(id) && self@.workspaces[k].windows[id] == *w,
    {
        let ids = map_keys(&self.workspaces);
        let mut i: usize = 0;
        while i < ids.len()
            invariant
                i <= ids@.len(),
                ids@.to_set() == self@.workspaces.dom(),
                forall|j: int| 0 <= j < i ==> !(#[trigger] self@.workspaces[ids@[j]]).windows.contains_key(id),
            decreases ids@.len() - i,
        {
            let k = ids[i];
            proof {
                assert(ids@.to_set().contains(k));
            }
            let ws = self.workspaces.get(&k).unwrap();
            if let Some(w) = ws.windows.get(&id) {
                proof {
                    assert(self@.workspaces.contains_key(k));
                }
                return Some(w);
            }
            i += 1;
        }
        proof {
            assert forall|k: u64| #[trigger] self@.workspaces.contains_key(k) implies
                !self@.workspaces[k].windows.contains_key(id) by {
                assert(ids@.to_set().contains(k));
                let j = ids@.index_of(k);
                assert(ids@[j] == k);
            }
        }
        None
    }

    /// Whether the window `id` is known and floats (used to tell focus
    /// moving to a popup or dialog).
    pub fn window_floats(&self, id: Option<u64>) -> (b: bool)
        ensures
            b ==> (id matches Some(i) && exists|k: u64| #[trigger] self@.workspaces.contains_key(k)
                && self@.workspaces[k].windows.contains_key(i) && self@.workspaces[k].windows[i].is_floating),
            !b ==> (id is None || (id matches Some(i) && (!window_known(self@.workspaces, i)
                || exists|k: u64| #[trigger] self@.workspaces.contains_key(k)
                && self@.workspaces[k].windows.contains_key(i) && !self@.workspaces[k].windows[i].is_floating))),
    {
        match id {
            Some(i) => match self.find_window(i) {
                Some(w) => w.is_floating,
                None => false,
            },
            None => false,
        }
    }

    /// Take the workspace stored under `k` out of the map.
    pub(crate) fn take_workspace(&mut self, k: u64) -> (w: Workspace)
        requires
            old(self).workspaces@.contains_key(k),
        ensures
            w == old(self).workspaces@[k],
            final(self).workspaces@ == old(self).workspaces@.remove(k),
            final(self).active_workspace_id == old(self).active_workspace_id,
            final(self).focused_window_id == old(self).focused_window_id,
            final(self).overview_open == old(self).overview_open,
    {
        self.workspaces.remove(&k).unwrap()
    }

    /// Update or insert a window in the given workspace, creating the
    /// workspace when it is not known yet.
    pub fn upsert_window(&mut self, workspace_id: u64, window: Window)
        ensures
            final(self)@ == (StateView {
                workspaces: old(self)@.workspaces.insert(
                    workspace_id,
                    workspace_or_new(old(self)@.workspaces, workspace_id).with_window(window),
                ),
                ..old(self)@
            }),
    {
        let mut ws = if self.workspaces.contains_key(&workspace_id) {
            self.take_workspace(workspace_id)
        } else {
            Workspace::new_empty(workspace_id)
        };
        let ghost before = ws@;
        ws.windows.insert(window.id, window);
        proof {
            assert(ws@ =~= before.with_window(window));
        }
        self.workspaces.insert(workspace_id, ws);
        proof {
            assert(self@.workspaces =~= old(self)@.workspaces.insert(
                workspace_id,
                workspace_or_new(old(self)@.workspaces, workspace_id).with_window(window),
            ));
        }
    }

    /// Set the focus flag of window `id` to `flag` on every workspace that
    /// holds it.
    pub(crate) fn set_focus_flag_all(&mut self, id: u64, flag: bool)
        ensures
            final(self)@ == (StateView {
                workspaces: set_focus_flag_everywhere(old(self)@.workspaces, id, flag),
                ..old(self)@
            }),
    {
        let ids = map_keys(&self.workspaces);
        let ghost old_ws = self@.workspaces;
        let mut i: usize = 0;
        while i < ids.len()
            invariant
                i <= ids@.len(),
                ids@.no_duplicates(),
                ids@.to_set() == old_ws.dom(),
                self@.workspaces.dom() == old_ws.dom(),
                forall|k: u64| #[trigger] old_ws.contains_key(k) ==> self@.workspaces[k] == (
                    if ids@.take(i as int).contains(k) {
                        old_ws[k].with_focus_flag(id, flag)
                    } else {
                        old_ws[k]
                    }),
                self.active_workspace_id == old(self).active_workspace_id,
                self.focused_window_id == old(self).focused_window_id,
                self.overview_open == old(self).overview_open,
                old_ws == old(self)@.workspaces,
            decreases ids@.len() - i,
        {
            let k = ids[i];
            proof {
                assert(ids@.to_set().contains(k));
            }
            let ghost prev = self@.workspaces;
            let mut ws = self.take_workspace(k);
            let ghost before = ws@;
            if ws.windows.contains_key(&id) {
                let mut w = ws.windows.remove(&id).unwrap();
                w.is_focused = flag;
                ws.windows.insert(id, w);
            }
            proof {
                assert(ws@ =~= before.with_focus_flag(id, flag));
            }
            self.workspaces.insert(k, ws);
            proof {
                assert(ids@.take(i + 1) =~= ids@.take(i as int).push(k));
                assert(!ids@.take(i as int).contains(k));
                assert forall|j: u64| #[trigger] old_ws.contains_key(j) implies self@.workspaces[j] == (
                    if ids@.take(i + 1).contains(j) {
                        old_ws[j].with_focus_flag(id, flag)
                    } else {
                        old_ws[j]
                    }) by {
                    if j == k {
                        assert(prev[k] == old_ws[k]);
                        assert(self@.workspaces[k] == ws@);
                        assert(ids@.take(i + 1)[i as int] == k);
                        assert(ids@.take(i + 1).contains(k));
                    } else {
                        assert(self@.workspaces[j] == prev[j]);
                        assert(ids@.take(i + 1).contains(j) == ids@.take(i as int).contains(j));
                    }
                }
                assert(self@.workspaces.dom() =~= old_ws.dom());
            }
            i += 1;
        }
        proof {
            assert(ids@.take(ids@.len() as int) =~= ids@);
            assert forall|k: u64| old_ws.contains_key(k) implies ids@.contains(k) by {
                assert(ids@.to_set().contains(k));
            }
            assert(self@.workspaces =~= set_focus_flag_everywhere(old_ws, id, flag));
        }
    }

    /// Clear the active flag of every workspace.
    fn deactivate_all_workspaces(&mut self)
        ensures
            final(self)@ == (StateView {
                workspaces: deactivate_all(old(self)@.workspaces),
                ..old(self)@
            }),
    {
        let ids = map_keys(&self.workspaces);
        let ghost old_ws = self@.workspaces;
        let mut i: usize = 0;
        while i < ids.len()
            invariant
                i <= ids@.len(),
                ids@.no_duplicates(),
                ids@.to_set() == old_ws.dom(),
                self@.workspaces.dom() == old_ws.dom(),
                forall|k: u64| #[trigger] old_ws.contains_key(k) ==> self@.workspaces[k] == (
                    if ids@.take(i as int).contains(k) {
                        old_ws[k].with_active(false)
                    } else {
                        old_ws[k]
                    }),
                self.active_workspace_id == old(self).active_workspace_id,
                self.focused_window_id == old(self).focused_window_id,
                self.overview_open == old(self).overview_open,
                old_ws == old(self)@.workspaces,
            decreases ids@.len() - i,
        {
            let k = ids[i];
            proof {
                assert(ids@.to_set().contains(k));
            }
            let ghost prev = self@.workspaces;
            let mut ws = self.take_workspace(k);
            ws.is_active = false;
            self.workspaces.insert(k, ws);
            proof {
                assert(ids@.take(i + 1) =~= ids@.take(i as int).push(k));
                assert(!ids@.take(i as int).contains(k));
                assert forall|j: u64| #[trigger] old_ws.contains_key(j) implies self@.workspaces[j] == (
                    if ids@.take(i + 1).contains(j) {
                        old_ws[j].with_active(false)
                    } else {
                        old_ws[j]
                    }) by {
                    if j == k {
                        assert(prev[k] == old_ws[k]);
                        assert(self@.workspaces[k] == ws@);
                        assert(ws@ =~= old_ws[k].with_active(false));
                        assert(ids@.take(i + 1)[i as int] == k);
                        assert(ids@.take(i + 1).contains(k));
                    } else {
                        assert(self@.workspaces[j] == prev[j]);
                        assert(ids@.take(i + 1).contains(j) == ids@.take(i as int).contains(j));
                    }
                }
                assert(self@.workspaces.dom() =~= old_ws.dom());
            }
            i += 1;
        }
        proof {
            assert(ids@.take(ids@.len() as int) =~= ids@);
            assert forall|k: u64| old_ws.contains_key(k) implies ids@.contains(k) by {
                assert(ids@.to_set().contains(k));
            }
            assert(self@.workspaces =~= deactivate_all(old_ws));
        }
    }

    /// Set the focused window id and move the focus flag: the previously
    /// focused window loses it, the new one gains it.
    pub fn set_focused_window(&mut self, window_id: Option<u64>)
        ensures
            final(self)@ == (StateView {
                workspaces: refocus(old(self)@.workspaces, old(self)@.focused_window_id, window_id),
                focused_window_id: window_id,
                ..old(self)@
            }),
    {
        if let Some(old_id) = self.focused_window_id {
            self.set_focus_flag_all(old_id, false);
        }
        self.focused_window_id = window_id;
        if let Some(new_id) = window_id {
            self.set_focus_flag_all(new_id, true);
        }
    }

    /// Make `workspace_id` the active workspace, creating it when it is not
    /// known yet; every other workspace loses its active flag.
    pub fn set_active_workspace(&mut self, workspace_id: u64)
        ensures
            final(self)@ == (StateView {
                workspaces: activate(old(self)@.workspaces, workspace_id),
                active_workspace_id: Some(workspace_id),
                ..old(self)@
            }),
    {
        self.deactivate_all_workspaces();
        self.active_workspace_id = Some(workspace_id);
        let ghost cleared = self@.workspaces;
        let mut ws = if self.workspaces.contains_key(&workspace_id) {
            self.take_workspace(workspace_id)
        } else {
            Workspace::new_empty(workspace_id)
        };
        ws.is_active = true;
        proof {
            assert(ws@ =~= workspace_or_new(cleared, workspace_id).with_active(true));
        }
        self.workspaces.insert(workspace_id, ws);
        proof {
            assert(self@.workspaces =~= cleared.insert(
                workspace_id,
                workspace_or_new(cleared, workspace_id).with_active(true),
            ));
        }
    }

    /// Drop the workspaces that the list does not name.
    fn retain_listed(&mut self, incoming: &[NiriWorkspace])
        ensures
            final(self)@ == (StateView {
                workspaces: old(self)@.workspaces.restrict(niri_ids(incoming@)),
                ..old(self)@
            }),
    {
        let ids = map_keys(&self.workspaces);
        let ghost old_ws = self@.workspaces;
        let ghost keep = niri_ids(incoming@);
        let mut i: usize = 0;
        while i < ids.len()
            invariant
                i <= ids@.len(),
                ids@.no_duplicates(),
                ids@.to_set() == old_ws.dom(),
                forall|k: u64| #[trigger] self@.workspaces.contains_key(k) <==> (old_ws.contains_key(k)
                    && (ids@.take(i as int).contains(k) ==> keep.contains(k))),
                forall|k: u64| #[trigger] self@.workspaces.contains_key(k) ==> self@.workspaces[k] == old_ws[k],
                self.active_workspace_id == old(self).active_workspace_id,
                self.focused_window_id == old(self).focused_window_id,
                self.overview_open == old(self).overview_open,
                old_ws == old(self)@.workspaces,
                keep == niri_ids(incoming@),
            decreases ids@.len() - i,
        {
            let k = ids[i];
            proof {
                assert(ids@.to_set().contains(k));
                assert(ids@.take(i + 1) =~= ids@.take(i as int).push(k));
                assert(!ids@.take(i as int).contains(k));
                assert(ids@.take(i + 1)[i as int] == k);
            }
            let ghost prev = self@.workspaces;
            if !niri_list_contains(incoming, k) {
                self.workspaces.remove(&k);
                proof {
                    assert forall|j: u64| j != k implies
                        (#[trigger] self@.workspaces.contains_key(j)) == prev.contains_key(j) by {}
                }
            }
            proof {
                assert forall|j: u64| #[trigger] self@.workspaces.contains_key(j) <==> (old_ws.contains_key(j)
                    && (ids@.take(i + 1).contains(j) ==> keep.contains(j))) by {
                    if j != k {
                        assert(ids@.take(i + 1).contains(j) == ids@.take(i as int).contains(j));
                    }
                }
            }
            i += 1;
        }
        proof {
            assert(ids@.take(ids@.len() as int) =~= ids@);
            assert forall|k: u64| old_ws.contains_key(k) implies ids@.contains(k) by {
                assert(ids@.to_set().contains(k));
            }
            assert(self@.workspaces =~= old_ws.restrict(keep));
        }
    }

    /// Replace workspace metadata from a fresh snapshot, preserving the
    /// windows of workspaces that still exist: workspaces missing from the
    /// snapshot are removed with their windows, existing ones take the new
    /// index, output, active flag and active window, new ones are inserted
    /// empty, and the active workspace becomes the snapshot's focused one
    /// (or stays, if it survives and none is focused).
    pub fn replace_workspace_metadata(&mut self, incoming: &[NiriWorkspace])
        ensures
            final(self)@ == (StateView {
                workspaces: replaced_workspaces(old(self)@.workspaces, incoming@),
                active_workspace_id: replaced_active(old(self)@.active_workspace_id, incoming@),
                ..old(self)@
            }),
    {
        self.retain_listed(incoming);
        let ghost base = self@.workspaces;
        let mut i: usize = 0;
        while i < incoming.len()
            invariant
                i <= incoming@.len(),
                self@.workspaces == apply_metadata(base, incoming@.take(i as int)),
                base == old(self)@.workspaces.restrict(niri_ids(incoming@)),
                self.active_workspace_id == old(self).active_workspace_id,
                self.focused_window_id == old(self).focused_window_id,
                self.overview_open == old(self).overview_open,
            decreases incoming@.len() - i,
        {
            let ws = &incoming[i];
            let ghost prev = self@.workspaces;
            let mut w = if self.workspaces.contains_key(&ws.id) {
                self.take_workspace(ws.id)
            } else {
                Workspace::new_empty(ws.id)
            };
            w.id = ws.id;
            w.idx = ws.idx;
            w.output = clone_opt_string(&ws.output);
            w.is_active = ws.is_active;
            w.active_window_id = ws.active_window_id;
            proof {
                assert(w@ =~= with_metadata(workspace_or_new(prev, ws.id), *ws));
            }
            self.workspaces.insert(ws.id, w);
            proof {
                assert(incoming@.take(i + 1).drop_last() =~= incoming@.take(i as int));
                assert(self@.workspaces =~= prev.insert(ws.id, with_metadata(workspace_or_new(prev, ws.id), *ws)));
            }
            i += 1;
        }
        proof {
            assert(incoming@.take(incoming@.len() as int) =~= incoming@);
        }
        let prev_active = self.active_workspace_id;
        let mut focused: Option<u64> = None;
        let mut j: usize = 0;
        while j < incoming.len()
            invariant_except_break
                focused is None,
            invariant
                j <= incoming@.len(),
                first_focused(incoming@) == first_focused(incoming@.skip(j as int)),
            ensures
                focused matches Some(id) ==> first_focused(incoming@) == Some(id),
                focused is None ==> first_focused(incoming@) is None,
            decreases incoming@.len() - j,
        {
            proof {
                assert(incoming@.skip(j as int)[0] == incoming@[j as int]);
                assert(incoming@.skip(j as int).drop_first() =~= incoming@.skip(j + 1));
            }
            if incoming[j].is_focused {
                proof {
                    assert(incoming@.skip(j as int)[0] == incoming@[j as int]);
                }
                focused = Some(incoming[j].id);
                break;
            }
            j += 1;
        }
        self.active_workspace_id = match focused {
            Some(id) => Some(id),
            None => match prev_active {
                Some(a) => if niri_list_contains(incoming, a) { Some(a) } else { None },
                None => None,
            },
        };
    }

    /// Remove a window by id from all workspaces.
    pub fn remove_window(&mut self, window_id: u64)
        ensures
            final(self)@ == (StateView {
                workspaces: remove_window_everywhere(old(self)@.workspaces, window_id),
                ..old(self)@
            }),
    {
        self.remove_window_except(window_id, None);
    }

    /// Remove a window by id from every workspace but `except`.
    pub fn remove_window_except(&mut self, window_id: u64, except: Option<u64>)
        ensures
            final(self)@ == (StateView {
                workspaces: remove_window_except(old(self)@.workspaces, window_id, except),
                ..old(self)@
            }),
    {
        let ids = map_keys(&self.workspaces);
        let ghost old_ws = self@.workspaces;
        let mut i: usize = 0;
        while i < ids.len()
            invariant
                i <= ids@.len(),
                ids@.no_duplicates(),
                ids@.to_set() == old_ws.dom(),
                self@.workspaces.dom() == old_ws.dom(),
                forall|k: u64| #[trigger] old_ws.contains_key(k) ==> self@.workspaces[k] == (
                    if ids@.take(i as int).contains(k) && except != Some(k) {
                        old_ws[k].without_window(window_id)
                    } else {
                        old_ws[k]
                    }),
                self.active_workspace_id == old(self).active_workspace_id,
                self.focused_window_id == old(self).focused_window_id,
                self.overview_open == old(self).overview_open,
                old_ws == old(self)@.workspaces,
            decreases ids@.len() - i,
        {
            let k = ids[i];
            proof {
                assert(ids@.to_set().contains(k));
            }
            let ghost prev = self@.workspaces;
            let skip = match except {
                Some(e) => e == k,
                None => false,
            };
            if !skip {
                let mut ws = self.take_workspace(k);
                ws.windows.remove(&window_id);
                self.workspaces.insert(k, ws);
                proof {
                    assert(ws@ =~= old_ws[k].without_window(window_id));
                }
            }
            proof {
                assert(ids@.take(i + 1) =~= ids@.take(i as int).push(k));
                assert(!ids@.take(i as int).contains(k));
                assert forall|j: u64| #[trigger] old_ws.contains_key(j) implies self@.workspaces[j] == (
                    if ids@.take(i + 1).contains(j) && except != Some(j) {
                        old_ws[j].without_window(window_id)
                    } else {
                        old_ws[j]
                    }) by {
                    if j == k {
                        assert(prev[k] == old_ws[k]);
                        assert(ids@.take(i + 1)[i as int] == k);
                        assert(ids@.take(i + 1).contains(k));
                    } else {
                        assert(self@.workspaces[j] == prev[j]);
                        assert(ids@.take(i + 1).contains(j) == ids@.take(i as int).contains(j));
                    }
                }
                assert(self@.workspaces.dom() =~= old_ws.dom());
            }
            i += 1;
        }
        proof {
            assert(ids@.take(ids@.len() as int) =~= ids@);
            assert forall|k: u64| old_ws.contains_key(k) implies ids@.contains(k) by {
                assert(ids@.to_set().contains(k));
            }
            assert(self@.workspaces =~= remove_window_except(old_ws, window_id, except));
        }
    }
}

} // verus!

verus! {

/// Lexicographic order of byte strings (the order of `str`).
pub open spec fn bytes_lt(a: Seq<u8>, b: Seq<u8>) -> bool
    decreases a.len(),
{
    if a.len() == 0 {
        b.len() > 0
    } else if b.len() == 0 {
        false
    } else if a[0] != b[0] {
        a[0] < b[0]
    } else {
        bytes_lt(a.drop_first(), b.drop_first())
    }
}

/// No byte string sorts before itself.
pub proof fn lemma_bytes_lt_irreflexive(a: Seq<u8>)
    ensures
        !bytes_lt(a, a),
    decreases a.len(),
{
    if a.len() > 0 {
        lemma_bytes_lt_irreflexive(a.drop_first());
    }
}

/// Of two different byte strings exactly one sorts first.
pub proof fn lemma_bytes_lt_total(a: Seq<u8>, b: Seq<u8>)
    ensures
        bytes_lt(a, b) ==> !bytes_lt(b, a),
        a != b ==> bytes_lt(a, b) || bytes_lt(b, a),
    decreases a.len(),
{
    if a.len() > 0 && b.len() > 0 {
        lemma_bytes_lt_total(a.drop_first(), b.drop_first());
        if a != b && a[0] == b[0] {
            assert(a =~= seq![a[0]] + a.drop_first());
            assert(b =~= seq![b[0]] + b.drop_first());
        }
    }
    if a.len() == 0 && b.len() == 0 {
        assert(a =~= b);
    }
}

/// The byte order is transitive.
pub proof fn lemma_bytes_lt_transitive(a: Seq<u8>, b: Seq<u8>, c: Seq<u8>)
    ensures
        bytes_lt(a, b) && bytes_lt(b, c) ==> bytes_lt(a, c),
    decreases a.len(),
{
    if a.len() > 0 && b.len() > 0 && c.len() > 0 {
        lemma_bytes_lt_transitive(a.drop_first(), b.drop_first(), c.drop_first());
    }
}

/// The byte order is a strict total order.
pub proof fn lemma_bytes_lt_order(a: Seq<u8>, b: Seq<u8>, c: Seq<u8>)
    ensures
        !bytes_lt(a, a),
        bytes_lt(a, b) ==> !bytes_lt(b, a),
        a != b ==> bytes_lt(a, b) || bytes_lt(b, a),
        bytes_lt(a, b) && bytes_lt(b, c) ==> bytes_lt(a, c),
{
    lemma_bytes_lt_irreflexive(a);
    lemma_bytes_lt_total(a, b);
    lemma_bytes_lt_transitive(a, b, c);
}

/// Whether byte string `a` sorts before `b`.
pub fn bytes_less(a: &[u8], b: &[u8]) -> (r: bool)
    ensures
        r == bytes_lt(a@, b@),
{
    let mut i: usize = 0;
    proof {
        assert(a@.skip(0) =~= a@);
        assert(b@.skip(0) =~= b@);
    }
    while i < a.len() && i < b.len() && a[i] == b[i]
        invariant
            i <= a@.len(),
            i <= b@.len(),
            bytes_lt(a@, b@) == bytes_lt(a@.skip(i as int), b@.skip(i as int)),
        decreases a@.len() - i,
    {
        proof {
            assert(a@.skip(i as int).drop_first() =~= a@.skip(i + 1));
            assert(b@.skip(i as int).drop_first() =~= b@.skip(i + 1));
        }
        i += 1;
    }
    proof {
        if i < a@.len() {
            assert(a@.skip(i as int)[0] == a@[i as int]);
        }
        if i < b@.len() {
            assert(b@.skip(i as int)[0] == b@[i as int]);
        }
    }
    if i == a.len() {
        i < b.len()
    } else if i == b.len() {
        false
    } else {
        a[i] < b[i]
    }
}

/// The bytes of an output name.
pub open spec fn output_bytes(o: Option<String>) -> Seq<u8> {
    match o {
        Some(s) => vstd::utf8::encode_utf8(s@),
        None => Seq::empty(),
    }
}

/// Display order of workspaces: those with an output first, by output
/// name, then by index, then by id.
pub open spec fn ws_lt(a: WorkspaceView, b: WorkspaceView) -> bool {
    if (a.output is None) != (b.output is None) {
        a.output is Some
    } else if output_bytes(a.output) != output_bytes(b.output) {
        bytes_lt(output_bytes(a.output), output_bytes(b.output))
    } else if a.idx != b.idx {
        a.idx < b.idx
    } else {
        a.id < b.id
    }
}

/// The display order is a strict order whose incomparable pairs agree on
/// every sort key.
pub proof fn lemma_ws_lt_order(a: WorkspaceView, b: WorkspaceView, c: WorkspaceView)
    ensures
        !ws_lt(a, a),
        ws_lt(a, b) ==> !ws_lt(b, a),
        ws_lt(a, b) && ws_lt(b, c) ==> ws_lt(a, c),
        !ws_lt(a, b) && !ws_lt(b, c) ==> !ws_lt(a, c),
{
    let (x, y, z) = (output_bytes(a.output), output_bytes(b.output), output_bytes(c.output));
    lemma_bytes_lt_order(x, y, z);
    lemma_bytes_lt_order(y, z, x);
    lemma_bytes_lt_order(z, x, y);
    lemma_bytes_lt_order(x, z, y);
    lemma_bytes_lt_order(y, x, z);
    lemma_bytes_lt_order(z, y, x);
}

/// Whether workspace `a` sorts before `b`.
fn ws_less(a: &Workspace, b: &Workspace) -> (r: bool)
    ensures
        r == ws_lt(a@, b@),
{
    let (an, bn) = (a.output.is_none(), b.output.is_none());
    if an != bn {
        return !an;
    }
    if let (Some(x), Some(y)) = (&a.output, &b.output) {
        let xb = x.as_str().as_bytes();
        let yb = y.as_str().as_bytes();
        proof {
            assert(xb@ == output_bytes(a.output));
            assert(yb@ == output_bytes(b.output));
            lemma_bytes_lt_order(xb@, yb@, yb@);
        }
        if bytes_less(xb, yb) {
            return true;
        }
        if bytes_less(yb, xb) {
            return false;
        }
        proof {
            lemma_bytes_lt_order(xb@, yb@, yb@);
        }
    }
    if a.idx != b.idx {
        a.idx < b.idx
    } else {
        a.id < b.id
    }
}

/// The display order of workspace keys: by [`ws_lt`] on the workspaces,
/// ties broken by key.
pub open spec fn ws_key_lt(m: Map<u64, WorkspaceView>) -> spec_fn(u64, u64) -> bool {
    |a: u64, b: u64| ws_lt(m[a], m[b]) || (!ws_lt(m[b], m[a]) && a < b)
}

/// Whether `ks` lists the keys of `m` in display order.
pub open spec fn is_display_order(m: Map<u64, WorkspaceView>, ks: Seq<u64>) -> bool {
    ks.to_set() == m.dom() && crate::order::strictly_sorted(ks, ws_key_lt(m))
}

/// The keys of the workspaces in display order.
pub open spec fn display_order(m: Map<u64, WorkspaceView>) -> Seq<u64> {
    choose|ks: Seq<u64>| is_display_order(m, ks)
}

/// The display order is a strict total order on keys.
pub proof fn lemma_ws_key_lt_order(m: Map<u64, WorkspaceView>, a: u64, b: u64, c: u64)
    ensures
        !ws_key_lt(m)(a, a),
        ws_key_lt(m)(a, b) ==> !ws_key_lt(m)(b, a),
        a != b ==> ws_key_lt(m)(a, b) || ws_key_lt(m)(b, a),
        ws_key_lt(m)(a, b) && ws_key_lt(m)(b, c) ==> ws_key_lt(m)(a, c),
{
    lemma_ws_lt_order(m[a], m[b], m[c]);
    lemma_ws_lt_order(m[b], m[c], m[a]);
    lemma_ws_lt_order(m[c], m[a], m[b]);
    lemma_ws_lt_order(m[a], m[c], m[b]);
    lemma_ws_lt_order(m[b], m[a], m[c]);
    lemma_ws_lt_order(m[c], m[b], m[a]);
}

/// Any listing of the keys in display order is the display order.
pub proof fn lemma_display_order_unique(m: Map<u64, WorkspaceView>, ks: Seq<u64>)
    requires
        is_display_order(m, ks),
    ensures
        display_order(m) == ks,
{
    let d = display_order(m);
    assert(is_display_order(m, d));
    assert forall|a: u64, b: u64| d.to_set().contains(a) && d.to_set().contains(b) && #[trigger] ws_key_lt(m)(a, b)
        implies !ws_key_lt(m)(b, a) by {
        lemma_ws_key_lt_order(m, a, b, b);
    }
    crate::order::lemma_sorted_unique(d, ks, ws_key_lt(m));
}

/// Whether key `a` comes before key `b` in display order.
fn ws_key_less(m: &HashMap<u64, Workspace>, a: u64, b: u64) -> (r: bool)
    requires
        m@.contains_key(a),
        m@.contains_key(b),
    ensures
        r == ws_key_lt(m@.map_values(|w: Workspace| w@))(a, b),
{
    let wa = m.get(&a).unwrap();
    let wb = m.get(&b).unwrap();
    ws_less(wa, wb) || (!ws_less(wb, wa) && a < b)
}

impl MinimapState {
    /// The workspace keys in display order.
    pub fn display_keys(&self) -> (ks: Vec<u64>)
        ensures
            ks@ == display_order(self@.workspaces),
            is_display_order(self@.workspaces, ks@),
            ks@.no_duplicates(),
    {
        let ghost m = self@.workspaces;
        let mut rest = map_keys(&self.workspaces);
        let mut out: Vec<u64> = Vec::new();
        while rest.len() > 0
            invariant
                m == self@.workspaces,
                rest@.no_duplicates(),
                forall|x: u64| m.dom().contains(x) <==> (out@.contains(x) || rest@.contains(x)),
                forall|x: u64| out@.contains(x) ==> !rest@.contains(x),
                crate::order::strictly_sorted(out@, ws_key_lt(m)),
                forall|t: int, q: int| #![trigger out@[t], rest@[q]] 0 <= t < out@.len() && 0 <= q < rest@.len() ==>
                    ws_key_lt(m)(out@[t], rest@[q]),
            decreases rest@.len(),
        {
            let mut best: usize = 0;
            let mut j: usize = 1;
            proof {
                assert(rest@.contains(rest@[0]));
            }
            while j < rest.len()
                invariant
                    m == self@.workspaces,
                    forall|x: u64| rest@.contains(x) ==> m.dom().contains(x),
                    1 <= j <= rest@.len(),
                    best < j,
                    forall|q: int| 0 <= q < j ==> !ws_key_lt(m)(#[trigger] rest@[q], rest@[best as int]),
                decreases rest@.len() - j,
            {
                proof {
                    assert(rest@.contains(rest@[j as int]));
                    assert(rest@.contains(rest@[best as int]));
                }
                if ws_key_less(&self.workspaces, rest[j], rest[best]) {
                    proof {
                        assert forall|q: int| 0 <= q < j + 1 implies !ws_key_lt(m)(#[trigger] rest@[q], rest@[j as int]) by {
                            lemma_ws_key_lt_order(m, rest@[q], rest@[j as int], rest@[best as int]);
                        }
                    }
                    best = j;
                }
                j += 1;
            }
            let ghost old_rest = rest@;
            let ghost old_out = out@;
            proof {
                assert forall|q: int| 0 <= q < old_rest.len() && q != best implies
                    ws_key_lt(m)(old_rest[best as int], #[trigger] old_rest[q]) by {
                    lemma_ws_key_lt_order(m, old_rest[best as int], old_rest[q], old_rest[q]);
                }
            }
            let key = rest.remove(best);
            out.push(key);
            proof {
                assert forall|q: int| 0 <= q < rest@.len() implies
                    (#[trigger] rest@[q]) == old_rest[if q < best { q } else { q + 1 }] by {}
                assert forall|x: u64| rest@.contains(x) implies old_rest.contains(x) && x != key by {
                    let q = rest@.index_of(x);
                    let oq = if q < best { q } else { q + 1 };
                    assert(old_rest[oq] == x);
                }
                assert forall|t: int, q: int| #![trigger out@[t], rest@[q]] 0 <= t < out@.len() && 0 <= q < rest@.len() implies
                    ws_key_lt(m)(out@[t], rest@[q]) by {
                    let oq = if q < best { q } else { q + 1 };
                    if t < old_out.len() {
                        assert(out@[t] == old_out[t]);
                        assert(old_out[t] == old_out[t] && old_rest[oq] == old_rest[oq]);
                    } else {
                        assert(out@[t] == key);
                    }
                }
                assert forall|s: int, t: int| 0 <= s < t < out@.len() implies ws_key_lt(m)(out@[s], out@[t]) by {
                    if t < old_out.len() {
                        assert(out@[s] == old_out[s] && out@[t] == old_out[t]);
                    } else {
                        assert(out@[s] == old_out[s] && old_rest[best as int] == old_rest[best as int]);
                    }
                }
                assert forall|x: u64| m.dom().contains(x) <==> (out@.contains(x) || rest@.contains(x)) by {
                    if old_rest.contains(x) && x != key {
                        let q = old_rest.index_of(x);
                        let nq = if q < best { q } else { q - 1 };
                        assert(rest@[nq] == x);
                    }
                    if old_out.contains(x) {
                        let t = old_out.index_of(x);
                        assert(out@[t] == x);
                    }
                    if out@.contains(x) && x != key {
                        let t = out@.index_of(x);
                        assert(old_out[t] == x);
                    }
                    assert(out@[out@.len() - 1] == key);
                }
                assert forall|x: u64| out@.contains(x) implies !rest@.contains(x) by {
                    if x != key {
                        let t = out@.index_of(x);
                        assert(old_out[t] == x);
                        assert(old_out.contains(x));
                    }
                }
            }
        }
        proof {
            assert(out@.to_set() =~= m.dom());
            crate::order::lemma_sorted_no_duplicates(out@, ws_key_lt(m));
            lemma_display_order_unique(m, out@);
        }
        out
    }

    /// Workspaces sorted for display: workspaces with an output first,
    /// ordered by output name, then by index, then by id (ties in that
    /// order are broken by key).
    pub fn workspaces_sorted(&self) -> (r: Vec<&Workspace>)
        ensures
            r@.len() == display_order(self@.workspaces).len(),
            forall|i: int| 0 <= i < r@.len() ==> *r@[i] == self.workspaces@[display_order(self@.workspaces)[i]],
            is_display_order(self@.workspaces, display_order(self@.workspaces)),
    {
        let ks = self.display_keys();
        let mut r: Vec<&Workspace> = Vec::new();
        let mut i: usize = 0;
        while i < ks.len()
            invariant
                i <= ks@.len(),
                ks@.to_set() == self@.workspaces.dom(),
                r@.len() == i,
                forall|t: int| 0 <= t < i ==> *r@[t] == self.workspaces@[ks@[t]],
            decreases ks@.len() - i,
        {
            proof {
                assert(ks@.to_set().contains(ks@[i as int]));
            }
            r.push(self.workspaces.get(&ks[i]).unwrap());
            i += 1;
        }
        r
    }
}

} // verus!

verus! {

/// Whether a workspace is on the output named `output`.
pub open spec fn on_output(w: WorkspaceView, output: Seq<char>) -> bool {
    match w.output {
        Some(o) => o@ == output,
        None => false,
    }
}

/// The keys of the workspaces on an output, in display order.
pub open spec fn output_order(m: Map<u64, WorkspaceView>, output: Seq<char>) -> Seq<u64> {
    display_order(m).filter(|k: u64| on_output(m[k], output))
}

/// The first key of the list whose workspace is active.
pub open spec fn first_active(m: Map<u64, WorkspaceView>, ks: Seq<u64>) -> Option<u64>
    decreases ks.len(),
{
    if ks.len() == 0 {
        None
    } else if m[ks[0]].is_active {
        Some(ks[0])
    } else {
        first_active(m, ks.drop_first())
    }
}

/// Whether a workspace is on the output.
fn is_on_output(w: &Workspace, output: &str) -> (b: bool)
    ensures
        b == on_output(w@, output@),
{
    match &w.output {
        Some(o) => {
            let a = crate::text::chars_of(o.as_str());
            let b = crate::text::chars_of(output);
            crate::text::chars_equal(a.as_slice(), b.as_slice())
        },
        None => false,
    }
}

impl MinimapState {
    /// The keys of the workspaces on one output, in display order.
    pub fn output_keys(&self, output: &str) -> (ks: Vec<u64>)
        ensures
            ks@ == output_order(self@.workspaces, output@),
            is_display_order(self@.workspaces, display_order(self@.workspaces)),
    {
        let all = self.display_keys();
        let ghost m = self@.workspaces;
        let ghost pred = |k: u64| on_output(m[k], output@);
        let mut ks: Vec<u64> = Vec::new();
        let mut i: usize = 0;
        while i < all.len()
            invariant
                i <= all@.len(),
                m == self@.workspaces,
                all@.to_set() == m.dom(),
                pred == (|k: u64| on_output(m[k], output@)),
                ks@ == all@.take(i as int).filter(pred),
            decreases all@.len() - i,
        {
            proof {
                assert(all@.to_set().contains(all@[i as int]));
                assert(all@.take(i + 1).drop_last() =~= all@.take(i as int));
            }
            let w = self.workspaces.get(&all[i]).unwrap();
            let on = is_on_output(w, output);
            proof {
                assert(m[all@[i as int]] == w@);
                assert(pred(all@[i as int]) == on);
            }
            if on {
                ks.push(all[i]);
            }
            proof {
                reveal_with_fuel(Seq::<_>::filter, 1);
                assert(all@.take(i + 1).last() == all@[i as int]);
                assert(ks@ =~= all@.take(i + 1).filter(pred));
            }
            i += 1;
        }
        proof {
            assert(all@.take(all@.len() as int) =~= all@);
        }
        ks
    }

    /// The workspaces on one output, in display order.
    pub fn workspaces_for_output(&self, output: &str) -> (r: Vec<&Workspace>)
        ensures
            r@.len() == output_order(self@.workspaces, output@).len(),
            forall|i: int| 0 <= i < r@.len() ==> *r@[i] == self.workspaces@[output_order(self@.workspaces, output@)[i]],
    {
        let ks = self.output_keys(output);
        let mut r: Vec<&Workspace> = Vec::new();
        let mut i: usize = 0;
        while i < ks.len()
            invariant
                i <= ks@.len(),
                ks@ == output_order(self@.workspaces, output@),
                is_display_order(self@.workspaces, display_order(self@.workspaces)),
                r@.len() == i,
                forall|t: int| 0 <= t < i ==> *r@[t] == self.workspaces@[ks@[t]],
            decreases ks@.len() - i,
        {
            proof {
                lemma_output_order_keys(self@.workspaces, output@);
                assert(ks@.contains(ks@[i as int]));
                assert(self@.workspaces.contains_key(ks@[i as int]));
                assert(self.workspaces@.contains_key(ks@[i as int]));
            }
            r.push(self.workspaces.get(&ks[i]).unwrap());
            i += 1;
        }
        r
    }

    /// The active workspace on one output: the first active one in display
    /// order.
    pub fn active_workspace_for_output(&self, output: &str) -> (r: Option<&Workspace>)
        ensures
            r == (match first_active(self@.workspaces, output_order(self@.workspaces, output@)) {
                Some(k) => Some(&self.workspaces@[k]),
                None => None,
            }),
    {
        let ks = self.output_keys(output);
        let ghost m = self@.workspaces;
        let mut i: usize = 0;
        proof {
            lemma_output_order_keys(m, output@);
            assert(ks@.skip(0) =~= ks@);
        }
        while i < ks.len()
            invariant
                i <= ks@.len(),
                m == self@.workspaces,
                forall|k: u64| ks@.contains(k) ==> m.contains_key(k),
                first_active(m, ks@) == first_active(m, ks@.skip(i as int)),
                ks@ == output_order(m, output@),
            decreases ks@.len() - i,
        {
            proof {
                assert(ks@.contains(ks@[i as int]));
                assert(ks@.skip(i as int)[0] == ks@[i as int]);
                assert(ks@.skip(i as int).drop_first() =~= ks@.skip(i + 1));
            }
            let w = self.workspaces.get(&ks[i]).unwrap();
            if w.is_active {
                return Some(w);
            }
            i += 1;
        }
        None
    }
}

/// The keys listed for an output are keys of the map.
pub proof fn lemma_output_order_keys(m: Map<u64, WorkspaceView>, output: Seq<char>)
    requires
        is_display_order(m, display_order(m)),
    ensures
        forall|k: u64| output_order(m, output).contains(k) ==> m.contains_key(k),
{
    let d = display_order(m);
    let pred = |k: u64| on_output(m[k], output);
    assert forall|k: u64| d.filter(pred).contains(k) implies m.contains_key(k) by {
        d.lemma_filter_contains_rev(pred, k);
        assert(d.to_set().contains(k));
    }
}

/// Applying metadata entries in order gives each entry's id the metadata of
/// its last entry.
proof fn lemma_apply_metadata_entry(m: Map<u64, WorkspaceView>, s: Seq<NiriWorkspace>, i: int)
    requires
        last_entry_with_id(s, i),
    ensures
        apply_metadata(m, s).contains_key(s[i].id),
        apply_metadata(m, s)[s[i].id].id == s[i].id,
        apply_metadata(m, s)[s[i].id].idx == s[i].idx,
        apply_metadata(m, s)[s[i].id].output == s[i].output,
        apply_metadata(m, s)[s[i].id].is_active == s[i].is_active,
        apply_metadata(m, s)[s[i].id].active_window_id == s[i].active_window_id,
    decreases s.len(),
{
    if i < s.len() - 1 {
        let t = s.drop_last();
        assert forall|j: int| i < j < t.len() implies #[trigger] t[j].id != t[i].id by {
            assert(s[j].id != s[i].id);
        }
        assert(s.last().id != s[i].id) by {
            assert(s[s.len() - 1].id != s[i].id);
        }
        lemma_apply_metadata_entry(m, t, i);
    }
}

/// Applying compositor metadata keeps each surviving workspace's windows and
/// creates the others empty.
pub(crate) proof fn lemma_metadata_keeps_windows(m: Map<u64, WorkspaceView>, s: Seq<NiriWorkspace>)
    ensures
        forall|k: u64| #[trigger] apply_metadata(m, s).contains_key(k) ==>
            if m.contains_key(k) {
                apply_metadata(m, s)[k].windows == m[k].windows
            } else {
                apply_metadata(m, s)[k].windows.is_empty()
            },
        forall|k: u64| #[trigger] m.contains_key(k) ==> apply_metadata(m, s).contains_key(k),
    decreases s.len(),
{
    if s.len() > 0 {
        lemma_metadata_keeps_windows(m, s.drop_last());
    }
}

/// Applying compositor metadata adds exactly the listed workspaces.
pub(crate) proof fn lemma_metadata_domain(m: Map<u64, WorkspaceView>, s: Seq<NiriWorkspace>)
    ensures
        apply_metadata(m, s).dom() == m.dom() + niri_ids(s),
    decreases s.len(),
{
    if s.len() > 0 {
        lemma_metadata_domain(m, s.drop_last());
        assert forall|id: u64| niri_ids(s).contains(id) <==>
            (niri_ids(s.drop_last()).contains(id) || s.last().id == id) by {
            if niri_ids(s).contains(id) {
                let i = choose|i: int| 0 <= i < s.len() && #[trigger] s[i].id == id;
                if i < s.len() - 1 {
                    assert(s.drop_last()[i].id == id);
                }
            }
            if niri_ids(s.drop_last()).contains(id) {
                let i = choose|i: int| 0 <= i < s.len() - 1 && #[trigger] s.drop_last()[i].id == id;
                assert(s[i].id == id);
            }
            if s.last().id == id {
                assert(s[s.len() - 1].id == id);
            }
        }
        assert(apply_metadata(m, s).dom() =~= m.dom() + niri_ids(s));
    } else {
        assert(niri_ids(s) =~= Set::empty());
        assert(m.dom() + niri_ids(s) =~= m.dom());
    }
}

/// After a metadata snapshot the workspaces are exactly those the snapshot
/// lists; each takes the id, index, output, active flag and remembered
/// window of its last entry, and keeps the windows it held (none when new).
pub proof fn law_replaced_workspaces_follow_entries(m: Map<u64, WorkspaceView>, s: Seq<NiriWorkspace>, i: int)
    requires
        last_entry_with_id(s, i),
    ensures
        replaced_workspaces(m, s).dom() == niri_ids(s),
        replaced_workspaces(m, s).contains_key(s[i].id),
        replaced_workspaces(m, s)[s[i].id].id == s[i].id,
        replaced_workspaces(m, s)[s[i].id].idx == s[i].idx,
        replaced_workspaces(m, s)[s[i].id].output == s[i].output,
        replaced_workspaces(m, s)[s[i].id].is_active == s[i].is_active,
        replaced_workspaces(m, s)[s[i].id].active_window_id == s[i].active_window_id,
        replaced_workspaces(m, s)[s[i].id].windows == (if m.contains_key(s[i].id) {
            m[s[i].id].windows
        } else {
            Map::<u64, Window>::empty()
        }),
{
    let r = m.restrict(niri_ids(s));
    lemma_apply_metadata_entry(r, s, i);
    lemma_metadata_domain(r, s);
    lemma_metadata_keeps_windows(r, s);
    assert(niri_ids(s).contains(s[i].id));
    assert(replaced_workspaces(m, s).dom() =~= niri_ids(s));
}

/// An output's workspaces are listed by index: an earlier one never has a
/// higher index than a later one.
pub proof fn law_output_order_by_index(m: Map<u64, WorkspaceView>, output: Seq<char>, i: int, j: int)
    requires
        m.dom().finite(),
        0 <= i < j < output_order(m, output).len(),
    ensures
        m.contains_key(output_order(m, output)[i]),
        m.contains_key(output_order(m, output)[j]),
        on_output(m[output_order(m, output)[i]], output),
        on_output(m[output_order(m, output)[j]], output),
        m[output_order(m, output)[i]].idx <= m[output_order(m, output)[j]].idx,
{
    crate::layout::lemma_display_order_exists(m);
    let d = display_order(m);
    let on = |k: u64| on_output(m[k], output);
    let oo = output_order(m, output);
    crate::order::lemma_filter_sorted(d, ws_key_lt(m), on);
    lemma_output_order_keys(m, output);
    d.lemma_filter_pred(on, i);
    d.lemma_filter_pred(on, j);
    assert(oo.contains(oo[i]));
    assert(oo.contains(oo[j]));
    let (a, b) = (m[oo[i]], m[oo[j]]);
    assert(output_bytes(a.output) == output_bytes(b.output));
    assert(ws_key_lt(m)(oo[i], oo[j]));
}

} // verus!
