//! Data exchanged with the compositor and the decisions taken on it.

use vstd::prelude::*;

use crate::update::StateUpdate;
use crate::model::{clone_opt_string, MinimapState, Window, StateView, empty_state, workspace_or_new, WorkspaceView};

verus! {

/// Why a socket path was refused.
#[derive(Debug, PartialEq, Eq, Structural)]
pub enum SocketPathError {
    /// The path is not absolute (relative paths could be redirected)
    NotAbsolute,
}

/// The text shown for a refused socket path.
pub open spec fn socket_path_message(path: Seq<char>) -> Seq<char> {
    "NIRI_SOCKET must be an absolute path, got: "@ + path
}

impl SocketPathError {
    /// The message for this error about the socket path `path`.
    pub fn message(&self, path: &str) -> (r: String)
        ensures
            r@ == socket_path_message(path@),
    {
        let mut v = crate::text::chars_of("NIRI_SOCKET must be an absolute path, got: ");
        let mut p = crate::text::chars_of(path);
        v.append(&mut p);
        crate::text::string_from_chars(v.as_slice())
    }
}

/// Whether a path is absolute: on Unix, whether it starts at the root.
pub open spec fn is_absolute_path(p: Seq<char>) -> bool {
    p.len() > 0 && p[0] == '/'
}

/// Check the compositor socket path: it must be absolute.
pub fn validate_socket_path(socket_path: &str) -> (r: Result<(), SocketPathError>)
    ensures
        r is Ok <==> is_absolute_path(socket_path@),
        r matches Err(e) ==> e == SocketPathError::NotAbsolute,
{
    let chars = crate::text::chars_of(socket_path);
    if chars.len() > 0 && chars[0] == '/' {
        Ok(())
    } else {
        Err(SocketPathError::NotAbsolute)
    }
}

/// Whether the socket lies where the compositor usually puts it: under
/// `/run/user/` or `/tmp/`.
pub open spec fn is_expected_socket_location_spec(p: Seq<char>) -> bool {
    crate::text::has_prefix(p, "/run/user/"@) || crate::text::has_prefix(p, "/tmp/"@)
}

/// Whether the socket lies where the compositor usually puts it (a socket
/// elsewhere is accepted but worth a warning).
pub fn is_expected_socket_location(socket_path: &str) -> (b: bool)
    ensures
        b == is_expected_socket_location_spec(socket_path@),
{
    let chars = crate::text::chars_of(socket_path);
    let run_user = crate::text::chars_of("/run/user/");
    let tmp = crate::text::chars_of("/tmp/");
    crate::text::chars_start_with(chars.as_slice(), run_user.as_slice())
        || crate::text::chars_start_with(chars.as_slice(), tmp.as_slice())
}

/// Subtract one from a one-based index, stopping at zero.
pub open spec fn one_based_to_zero_based(i: usize) -> usize {
    if i == 0 { 0 } else { (i - 1) as usize }
}

/// Convert the one-based (column, window) position reported by the compositor
/// into zero-based indices. Invalid zero indices are clamped to zero.
pub fn validate_and_convert_indices(col: usize, win_idx: usize, window_id: u64) -> (res: (usize, usize))
    ensures
        res.0 == one_based_to_zero_based(col),
        res.1 == one_based_to_zero_based(win_idx),
{
    (col.saturating_sub(1), win_idx.saturating_sub(1))
}


/// Layout of one window as the compositor reports it.
///
/// Sizes and positions are doubles carried as their bit patterns
/// (`f64::to_bits`).
#[derive(Debug)]
pub struct WindowLayout {
    /// One-based (column, window-in-column) position; `None` for floating
    /// windows
    pub pos_in_scrolling_layout: Option<(usize, usize)>,
    /// Tile size (bit patterns of width, height)
    pub tile_size: (u64, u64),
    /// Tile position in the workspace view (bit patterns of x, y), known only
    /// for tiles inside the viewport
    pub tile_pos_in_workspace_view: Option<(u64, u64)>,
}

/// A window as the compositor reports it.
#[derive(Debug)]
pub struct NiriWindow {
    pub id: u64,
    pub title: Option<String>,
    pub app_id: Option<String>,
    /// Workspace the window is on, if any
    pub workspace_id: Option<u64>,
    pub is_focused: bool,
    pub layout: WindowLayout,
}

/// A workspace as the compositor reports it.
#[derive(Debug)]
pub struct NiriWorkspace {
    pub id: u64,
    pub idx: u8,
    pub output: Option<String>,
    pub is_active: bool,
    pub is_focused: bool,
    pub active_window_id: Option<u64>,
}

/// The zero-based (column, window) position of a tiled layout position.
pub open spec fn model_indices(pos: Option<(usize, usize)>) -> (usize, usize) {
    match pos {
        Some((c, w)) => (one_based_to_zero_based(c), one_based_to_zero_based(w)),
        None => (0, 0),
    }
}

/// The model window for a window reported by the compositor.
pub open spec fn window_from_niri(win: NiriWindow) -> Window {
    Window {
        id: win.id,
        pos: win.layout.tile_pos_in_workspace_view,
        size: win.layout.tile_size,
        column_index: model_indices(win.layout.pos_in_scrolling_layout).0,
        window_index: model_indices(win.layout.pos_in_scrolling_layout).1,
        is_focused: win.is_focused,
        is_floating: win.layout.pos_in_scrolling_layout is None,
        title: win.title,
        app_id: win.app_id,
    }
}

/// Convert a window reported by the compositor to the model's window:
/// floating windows are those without a scrolling-layout position, and the
/// one-based position becomes zero-based indices.
pub fn niri_window_to_model(win: &NiriWindow) -> (w: Window)
    ensures
        w == window_from_niri(*win),
{
    let (column_index, window_index) = match win.layout.pos_in_scrolling_layout {
        Some((c, w)) => validate_and_convert_indices(c, w, win.id),
        None => (0, 0),
    };
    Window {
        id: win.id,
        pos: match win.layout.tile_pos_in_workspace_view {
            Some((x, y)) => Some((x, y)),
            None => None,
        },
        size: (win.layout.tile_size.0, win.layout.tile_size.1),
        column_index,
        window_index,
        is_focused: win.is_focused,
        is_floating: win.layout.pos_in_scrolling_layout.is_none(),
        title: clone_opt_string(&win.title),
        app_id: clone_opt_string(&win.app_id),
    }
}

/// The workspace described by a compositor snapshot entry, without windows.
pub open spec fn workspace_from_niri(ws: NiriWorkspace) -> WorkspaceView {
    WorkspaceView {
        id: ws.id,
        idx: ws.idx,
        output: ws.output,
        windows: Map::empty(),
        is_active: ws.is_active,
        active_window_id: ws.active_window_id,
    }
}

/// The state after reading the compositor's workspace list: each entry is
/// stored under its id (a later entry replaces an earlier one) and the last
/// focused entry becomes the active workspace.
pub open spec fn snapshot_workspaces(wss: Seq<NiriWorkspace>) -> StateView
    decreases wss.len(),
{
    if wss.len() == 0 {
        empty_state()
    } else {
        let s = snapshot_workspaces(wss.drop_last());
        let ws = wss.last();
        StateView {
            workspaces: s.workspaces.insert(ws.id, workspace_from_niri(ws)),
            active_workspace_id: if ws.is_focused { Some(ws.id) } else { s.active_workspace_id },
            ..s
        }
    }
}

/// The state after adding the compositor's window list to `s`: windows on
/// a workspace are upserted there, the last focused one becomes the focused
/// window; windows without a workspace are skipped.
pub open spec fn snapshot_windows(s: StateView, wins: Seq<NiriWindow>) -> StateView
    decreases wins.len(),
{
    if wins.len() == 0 {
        s
    } else {
        let t = snapshot_windows(s, wins.drop_last());
        let win = wins.last();
        match win.workspace_id {
            Some(ws_id) => StateView {
                workspaces: t.workspaces.insert(
                    ws_id,
                    workspace_or_new(t.workspaces, ws_id).with_window(window_from_niri(win)),
                ),
                focused_window_id: if win.is_focused { Some(win.id) } else { t.focused_window_id },
                ..t
            },
            None => t,
        }
    }
}

/// Whether entry `i` is the last entry of the list with its id.
pub open spec fn last_entry_with_id(wss: Seq<NiriWorkspace>, i: int) -> bool {
    0 <= i < wss.len() && forall|j: int| i < j < wss.len() ==> #[trigger] wss[j].id != wss[i].id
}

/// Reading the workspace list stores each workspace under its id with the
/// metadata of its last entry.
proof fn lemma_snapshot_workspaces_entry(wss: Seq<NiriWorkspace>, i: int)
    requires
        last_entry_with_id(wss, i),
    ensures
        snapshot_workspaces(wss).workspaces.contains_key(wss[i].id),
        snapshot_workspaces(wss).workspaces[wss[i].id].id == wss[i].id,
        snapshot_workspaces(wss).workspaces[wss[i].id].idx == wss[i].idx,
        snapshot_workspaces(wss).workspaces[wss[i].id].output == wss[i].output,
        snapshot_workspaces(wss).workspaces[wss[i].id].is_active == wss[i].is_active,
        snapshot_workspaces(wss).workspaces[wss[i].id].active_window_id == wss[i].active_window_id,
    decreases wss.len(),
{
    if i < wss.len() - 1 {
        let t = wss.drop_last();
        assert forall|j: int| i < j < t.len() implies #[trigger] t[j].id != t[i].id by {
            assert(wss[j].id != wss[i].id);
        }
        assert(wss.last().id != wss[i].id) by {
            assert(wss[wss.len() - 1].id != wss[i].id);
        }
        lemma_snapshot_workspaces_entry(t, i);
    }
}

/// Adding windows keeps every workspace and its metadata.
proof fn lemma_snapshot_windows_keep_metadata(s: StateView, wins: Seq<NiriWindow>, k: u64)
    requires
        s.workspaces.contains_key(k),
    ensures
        snapshot_windows(s, wins).workspaces.contains_key(k),
        snapshot_windows(s, wins).workspaces[k].id == s.workspaces[k].id,
        snapshot_windows(s, wins).workspaces[k].idx == s.workspaces[k].idx,
        snapshot_windows(s, wins).workspaces[k].output == s.workspaces[k].output,
        snapshot_windows(s, wins).workspaces[k].is_active == s.workspaces[k].is_active,
        snapshot_windows(s, wins).workspaces[k].active_window_id == s.workspaces[k].active_window_id,
    decreases wins.len(),
{
    if wins.len() > 0 {
        lemma_snapshot_windows_keep_metadata(s, wins.drop_last(), k);
    }
}

/// Every workspace of the snapshot is in the state built from it, with the
/// id, index, output, active flag and remembered window of its last entry
/// (each output's active workspace stays active, not only the focused one).
pub proof fn law_snapshot_keeps_workspace_metadata(wss: Seq<NiriWorkspace>, wins: Seq<NiriWindow>, i: int)
    requires
        last_entry_with_id(wss, i),
    ensures
        snapshot_windows(snapshot_workspaces(wss), wins).workspaces.contains_key(wss[i].id),
        snapshot_windows(snapshot_workspaces(wss), wins).workspaces[wss[i].id].id == wss[i].id,
        snapshot_windows(snapshot_workspaces(wss), wins).workspaces[wss[i].id].idx == wss[i].idx,
        snapshot_windows(snapshot_workspaces(wss), wins).workspaces[wss[i].id].output == wss[i].output,
        snapshot_windows(snapshot_workspaces(wss), wins).workspaces[wss[i].id].is_active == wss[i].is_active,
        snapshot_windows(snapshot_workspaces(wss), wins).workspaces[wss[i].id].active_window_id
            == wss[i].active_window_id,
{
    lemma_snapshot_workspaces_entry(wss, i);
    lemma_snapshot_windows_keep_metadata(snapshot_workspaces(wss), wins, wss[i].id);
}

/// Build the complete state from a snapshot of the compositor's workspaces
/// and windows.
pub fn state_from_snapshot(workspaces: &Vec<NiriWorkspace>, windows: &Vec<NiriWindow>) -> (s: MinimapState)
    ensures
        s@ == snapshot_windows(snapshot_workspaces(workspaces@), windows@),
{
    let mut state = MinimapState::new();
    let mut i: usize = 0;
    while i < workspaces.len()
        invariant
            i <= workspaces@.len(),
            state@ == snapshot_workspaces(workspaces@.take(i as int)),
        decreases workspaces@.len() - i,
    {
        let ws = &workspaces[i];
        let mut w = crate::model::Workspace::new_empty(ws.id);
        w.idx = ws.idx;
        w.output = clone_opt_string(&ws.output);
        w.is_active = ws.is_active;
        w.active_window_id = ws.active_window_id;
        proof {
            assert(w@ =~= workspace_from_niri(*ws));
        }
        state.workspaces.insert(ws.id, w);
        if ws.is_focused {
            state.active_workspace_id = Some(ws.id);
        }
        proof {
            assert(workspaces@.take(i + 1).drop_last() =~= workspaces@.take(i as int));
            assert(state@.workspaces =~= snapshot_workspaces(workspaces@.take(i as int)).workspaces.insert(
                ws.id, workspace_from_niri(*ws)));
        }
        i += 1;
    }
    proof {
        assert(workspaces@.take(workspaces@.len() as int) =~= workspaces@);
    }
    let ghost base = state@;
    let mut j: usize = 0;
    while j < windows.len()
        invariant
            j <= windows@.len(),
            state@ == snapshot_windows(base, windows@.take(j as int)),
        decreases windows@.len() - j,
    {
        let win = &windows[j];
        proof {
            assert(windows@.take(j + 1).drop_last() =~= windows@.take(j as int));
        }
        if let Some(ws_id) = win.workspace_id {
            let model = niri_window_to_model(win);
            state.upsert_window(ws_id, model);
            if win.is_focused {
                state.focused_window_id = Some(win.id);
            }
        }
        j += 1;
    }
    proof {
        assert(windows@.take(windows@.len() as int) =~= windows@);
    }
    state
}


/// An event from the compositor's event stream, with the data the minimap
/// reads.
#[derive(Debug)]
#[allow(inconsistent_fields)]
pub enum IpcEvent {
    WindowOpenedOrChanged { window: NiriWindow },
    WindowClosed { id: u64 },
    WindowFocusChanged { id: Option<u64> },
    OverviewOpenedOrClosed { is_open: bool },
    WorkspaceActivated { id: u64, focused: bool },
    WindowLayoutsChanged { changes: Vec<(u64, WindowLayout)> },
    WorkspacesChanged { workspaces: Vec<NiriWorkspace> },
    WorkspaceActiveWindowChanged { workspace_id: u64, active_window_id: Option<u64> },
    /// Any event the minimap does not follow
    Other,
}

/// The state update an event stands for, if any.
pub open spec fn event_update(event: IpcEvent) -> Option<StateUpdate> {
    match event {
        IpcEvent::WindowOpenedOrChanged { window } => Some(StateUpdate::WindowChanged {
            window: window_from_niri(window),
            workspace_id: window.workspace_id,
        }),
        IpcEvent::WindowClosed { id } => Some(StateUpdate::WindowClosed(id)),
        IpcEvent::WindowFocusChanged { id } => Some(StateUpdate::FocusChanged(id)),
        IpcEvent::OverviewOpenedOrClosed { is_open } => Some(StateUpdate::OverviewChanged(is_open)),
        IpcEvent::WorkspaceActivated { id, focused } => Some(StateUpdate::WorkspaceActivated { id, focused }),
        IpcEvent::WindowLayoutsChanged { changes } => Some(StateUpdate::LayoutsChanged(changes)),
        IpcEvent::WorkspacesChanged { workspaces } => Some(StateUpdate::WorkspacesChanged(workspaces)),
        IpcEvent::WorkspaceActiveWindowChanged { workspace_id, active_window_id } => Some(
            StateUpdate::WorkspaceActiveWindowChanged { workspace_id, active_window_id },
        ),
        IpcEvent::Other => None,
    }
}

/// Convert a compositor event to a state update; events the minimap does
/// not follow give none.
pub fn event_to_update(event: IpcEvent) -> (u: Option<StateUpdate>)
    ensures
        u == event_update(event),
{
    match event {
        IpcEvent::WindowOpenedOrChanged { window } => {
            let workspace_id = window.workspace_id;
            let model_window = niri_window_to_model(&window);
            Some(StateUpdate::WindowChanged { window: model_window, workspace_id })
        },
        IpcEvent::WindowClosed { id } => Some(StateUpdate::WindowClosed(id)),
        IpcEvent::WindowFocusChanged { id } => Some(StateUpdate::FocusChanged(id)),
        IpcEvent::OverviewOpenedOrClosed { is_open } => Some(StateUpdate::OverviewChanged(is_open)),
        IpcEvent::WorkspaceActivated { id, focused } => Some(StateUpdate::WorkspaceActivated { id, focused }),
        IpcEvent::WindowLayoutsChanged { changes } => Some(StateUpdate::LayoutsChanged(changes)),
        IpcEvent::WorkspacesChanged { workspaces } => Some(StateUpdate::WorkspacesChanged(workspaces)),
        IpcEvent::WorkspaceActiveWindowChanged { workspace_id, active_window_id } => Some(
            StateUpdate::WorkspaceActiveWindowChanged { workspace_id, active_window_id },
        ),
        IpcEvent::Other => None,
    }
}

/// Whether the event reports that Overview closed; the complete state is
/// fetched again after it, since the compositor emits the final layout
/// right after closing Overview.
pub fn closes_overview(event: &IpcEvent) -> (b: bool)
    ensures
        b == (*event matches IpcEvent::OverviewOpenedOrClosed { is_open } && !is_open),
{
    match event {
        IpcEvent::OverviewOpenedOrClosed { is_open } => !*is_open,
        _ => false,
    }
}

/// Shortest wait before reconnecting to the event stream, in milliseconds.
pub const IPC_RECONNECT_MIN_MS: u64 = 250;

/// Longest wait before reconnecting to the event stream, in milliseconds.
pub const IPC_RECONNECT_MAX_MS: u64 = 30000;

/// How long a connection must last, in milliseconds, to count as healthy
/// and reset the reconnect backoff.
pub const IPC_CONNECTION_STABLE_MS: u64 = 30000;

/// The wait before the next reconnect: the current backoff, or the shortest
/// wait after a connection that lasted long enough.
pub open spec fn reconnect_wait(backoff_ms: u64, connection_ms: u64) -> u64 {
    if connection_ms >= IPC_CONNECTION_STABLE_MS { IPC_RECONNECT_MIN_MS } else { backoff_ms }
}

/// The backoff after waiting `wait` milliseconds: doubled, capped at the
/// longest wait.
pub open spec fn next_backoff(wait: u64) -> u64 {
    if 2 * wait > IPC_RECONNECT_MAX_MS { IPC_RECONNECT_MAX_MS } else { (2 * wait) as u64 }
}

/// Decide how long to wait before reconnecting after the event stream
/// dropped, and the backoff for the attempt after that. Returns
/// (wait, next backoff) in milliseconds.
pub fn reconnect_delay(backoff_ms: u64, connection_ms: u64) -> (r: (u64, u64))
    ensures
        r.0 == reconnect_wait(backoff_ms, connection_ms),
        r.1 == next_backoff(r.0),
{
    let wait = if connection_ms >= IPC_CONNECTION_STABLE_MS { IPC_RECONNECT_MIN_MS } else { backoff_ms };
    let next = if wait > IPC_RECONNECT_MAX_MS / 2 { IPC_RECONNECT_MAX_MS } else { 2 * wait };
    (wait, next)
}

/// The reconnect backoff stays between the shortest and the longest wait:
/// starting in that range, every wait and every next backoff stay in it.
pub proof fn law_backoff_stays_bounded(backoff_ms: u64, connection_ms: u64)
    requires
        IPC_RECONNECT_MIN_MS <= backoff_ms <= IPC_RECONNECT_MAX_MS,
    ensures
        IPC_RECONNECT_MIN_MS <= reconnect_wait(backoff_ms, connection_ms) <= IPC_RECONNECT_MAX_MS,
        IPC_RECONNECT_MIN_MS <= next_backoff(reconnect_wait(backoff_ms, connection_ms)) <= IPC_RECONNECT_MAX_MS,
        next_backoff(reconnect_wait(backoff_ms, connection_ms)) >= reconnect_wait(backoff_ms, connection_ms),
{
}

/// Whether a line of the event stream carries nothing but white space (such
/// lines are skipped).
pub fn is_blank_line(line: &str) -> (b: bool)
    ensures
        b == (crate::text::trim(line@).len() == 0),
{
    let chars = crate::text::chars_of(line);
    let t = crate::text::trim_chars(chars.as_slice(), 0);
    proof {
        assert(chars@.skip(0) =~= chars@);
    }
    t.len() == 0
}

/// What happened to a file in the watched configuration directory.
#[derive(Clone, Copy, Debug, PartialEq, Eq, Structural)]
pub enum FileChange {
    /// The file was created (or replaced)
    Created,
    /// The file was modified
    Modified,
    /// Anything else (access, removal, ...)
    Other,
}

/// Whether a change in the configuration directory asks for a reload: the
/// configuration file itself was created or modified.
pub fn reload_requested(change: FileChange, touches_config_file: bool) -> (b: bool)
    ensures
        b == (touches_config_file && change != FileChange::Other),
{
    touches_config_file && match change {
        FileChange::Created => true,
        FileChange::Modified => true,
        FileChange::Other => false,
    }
}

/// Debounce for configuration reloads, in milliseconds: reloads closer
/// together than this are dropped.
pub const CONFIG_RELOAD_DEBOUNCE_MS: u64 = 500;

/// Whether a configuration change should be applied, given the
/// milliseconds since the last applied reload.
pub fn should_reload_config(elapsed_ms: u64) -> (b: bool)
    ensures
        b == (elapsed_ms >= CONFIG_RELOAD_DEBOUNCE_MS),
{
    elapsed_ms >= CONFIG_RELOAD_DEBOUNCE_MS
}

/// Reading the workspace list makes the last focused entry the active
/// workspace, and leaves none active when no entry is focused.
proof fn lemma_snapshot_workspaces_active(wss: Seq<NiriWorkspace>, i: int)
    requires
        0 <= i < wss.len() ==> wss[i].is_focused,
        forall|j: int| i < j < wss.len() ==> !(#[trigger] wss[j].is_focused),
        i == -1 || 0 <= i < wss.len(),
    ensures
        snapshot_workspaces(wss).active_workspace_id == (if i == -1 { None } else { Some(wss[i].id) }),
    decreases wss.len(),
{
    if wss.len() > 0 {
        if i < wss.len() - 1 {
            assert(!wss[wss.len() - 1].is_focused);
            lemma_snapshot_workspaces_active(wss.drop_last(), i);
        }
    }
}

/// Adding windows keeps the active workspace.
proof fn lemma_snapshot_windows_keep_active(s: StateView, wins: Seq<NiriWindow>)
    ensures
        snapshot_windows(s, wins).active_workspace_id == s.active_workspace_id,
    decreases wins.len(),
{
    if wins.len() > 0 {
        lemma_snapshot_windows_keep_active(s, wins.drop_last());
    }
}

/// The active workspace of the state built from a snapshot is that of the
/// last focused workspace entry; with no focused entry there is none.
pub proof fn law_snapshot_active_workspace(wss: Seq<NiriWorkspace>, wins: Seq<NiriWindow>)
    ensures
        (forall|j: int| 0 <= j < wss.len() ==> !(#[trigger] wss[j].is_focused))
            ==> snapshot_windows(snapshot_workspaces(wss), wins).active_workspace_id is None,
        forall|i: int| 0 <= i < wss.len() && wss[i].is_focused
            && (forall|j: int| i < j < wss.len() ==> !(#[trigger] wss[j].is_focused))
            ==> snapshot_windows(snapshot_workspaces(wss), wins).active_workspace_id == Some(#[trigger] wss[i].id),
{
    lemma_snapshot_windows_keep_active(snapshot_workspaces(wss), wins);
    if forall|j: int| 0 <= j < wss.len() ==> !(#[trigger] wss[j].is_focused) {
        lemma_snapshot_workspaces_active(wss, -1);
    }
    assert forall|i: int| 0 <= i < wss.len() && wss[i].is_focused
        && (forall|j: int| i < j < wss.len() ==> !(#[trigger] wss[j].is_focused))
        implies snapshot_windows(snapshot_workspaces(wss), wins).active_workspace_id == Some(#[trigger] wss[i].id) by {
        lemma_snapshot_workspaces_active(wss, i);
    }
}

/// A window listed last under its id and reported on a workspace is held by
/// that workspace, converted; the last focused window reported on a
/// workspace is the focused window.
proof fn lemma_snapshot_windows_entry(s: StateView, wins: Seq<NiriWindow>, j: int)
    requires
        0 <= j < wins.len(),
        wins[j].workspace_id is Some,
    ensures
        (forall|l: int| j < l < wins.len() ==> #[trigger] wins[l].id != wins[j].id) ==> (
            snapshot_windows(s, wins).workspaces.contains_key(wins[j].workspace_id.unwrap())
            && snapshot_windows(s, wins).workspaces[wins[j].workspace_id.unwrap()].windows.contains_key(wins[j].id)
            && snapshot_windows(s, wins).workspaces[wins[j].workspace_id.unwrap()].windows[wins[j].id]
                == window_from_niri(wins[j])),
        (wins[j].is_focused && forall|l: int| j < l < wins.len() ==>
            !(#[trigger] wins[l].is_focused && wins[l].workspace_id is Some))
            ==> snapshot_windows(s, wins).focused_window_id == Some(wins[j].id),
    decreases wins.len(),
{
    let t = wins.drop_last();
    if j < wins.len() - 1 {
        lemma_snapshot_windows_entry(s, t, j);
        let last = wins[wins.len() - 1];
        if forall|l: int| j < l < wins.len() ==> #[trigger] wins[l].id != wins[j].id {
            assert(last.id != wins[j].id);
            assert forall|l: int| j < l < t.len() implies #[trigger] t[l].id != t[j].id by {
                assert(wins[l].id != wins[j].id);
            }
        }
        if wins[j].is_focused && forall|l: int| j < l < wins.len() ==>
            !(#[trigger] wins[l].is_focused && wins[l].workspace_id is Some) {
            assert(!(last.is_focused && last.workspace_id is Some));
            assert forall|l: int| j < l < t.len() implies !(#[trigger] t[l].is_focused && t[l].workspace_id is Some) by {
                assert(!(wins[l].is_focused && wins[l].workspace_id is Some));
            }
        }
    }
}

/// In the state built from a snapshot, each window reported on a workspace
/// (its last entry, where one id is listed twice) is held there as
/// converted, and the last focused window reported on a workspace is the
/// focused window.
pub proof fn law_snapshot_places_windows(wss: Seq<NiriWorkspace>, wins: Seq<NiriWindow>, j: int)
    requires
        0 <= j < wins.len(),
        wins[j].workspace_id is Some,
    ensures
        (forall|l: int| j < l < wins.len() ==> #[trigger] wins[l].id != wins[j].id) ==> (
            snapshot_windows(snapshot_workspaces(wss), wins).workspaces[wins[j].workspace_id.unwrap()].windows.contains_key(wins[j].id)
            && snapshot_windows(snapshot_workspaces(wss), wins).workspaces[wins[j].workspace_id.unwrap()].windows[wins[j].id]
                == window_from_niri(wins[j])),
        (wins[j].is_focused && forall|l: int| j < l < wins.len() ==>
            !(#[trigger] wins[l].is_focused && wins[l].workspace_id is Some))
            ==> snapshot_windows(snapshot_workspaces(wss), wins).focused_window_id == Some(wins[j].id),
{
    lemma_snapshot_windows_entry(snapshot_workspaces(wss), wins, j);
}

/// How a compositor window becomes a model window: it floats exactly when
/// it has no place in the scrolling layout, a tiled window's one-based
/// column and row become zero-based (a zero stays zero), and its id,
/// focus, title, application id, size and position carry over.
pub proof fn law_window_conversion(win: NiriWindow)
    ensures
        window_from_niri(win).is_floating == (win.layout.pos_in_scrolling_layout is None),
        forall|c: usize, r: usize| win.layout.pos_in_scrolling_layout == Some((c, r)) ==> (
            window_from_niri(win).column_index as int == (if c == 0 { 0 } else { c - 1 })
            && window_from_niri(win).window_index as int == (if r == 0 { 0 } else { r - 1 })),
        window_from_niri(win).id == win.id,
        window_from_niri(win).is_focused == win.is_focused,
        window_from_niri(win).title == win.title,
        window_from_niri(win).app_id == win.app_id,
        window_from_niri(win).size == win.layout.tile_size,
        window_from_niri(win).pos == win.layout.tile_pos_in_workspace_view,
{
}

/// The wait before reconnecting: the shortest after a connection that
/// lasted long enough, else the current backoff; the next backoff doubles
/// the wait up to the longest.
pub proof fn law_reconnect_delay(backoff_ms: u64, connection_ms: u64)
    ensures
        connection_ms >= IPC_CONNECTION_STABLE_MS ==> reconnect_wait(backoff_ms, connection_ms) == IPC_RECONNECT_MIN_MS,
        connection_ms < IPC_CONNECTION_STABLE_MS ==> reconnect_wait(backoff_ms, connection_ms) == backoff_ms,
        forall|w: u64| 2 * w <= IPC_RECONNECT_MAX_MS ==> #[trigger] next_backoff(w) == 2 * w,
        forall|w: u64| 2 * w > IPC_RECONNECT_MAX_MS ==> #[trigger] next_backoff(w) == IPC_RECONNECT_MAX_MS,
{
}

/// Every event the minimap follows gives an update carrying its data, and
/// only the others give none.
pub proof fn law_event_updates(event: IpcEvent)
    ensures
        event_update(event) is None <==> event is Other,
        forall|w: NiriWindow| event == (IpcEvent::WindowOpenedOrChanged { window: w }) ==> event_update(event) == Some(
            StateUpdate::WindowChanged { window: window_from_niri(w), workspace_id: w.workspace_id }),
        forall|id: u64| event == (IpcEvent::WindowClosed { id }) ==> event_update(event) == Some(StateUpdate::WindowClosed(id)),
        forall|id: Option<u64>| event == (IpcEvent::WindowFocusChanged { id }) ==> event_update(event) == Some(StateUpdate::FocusChanged(id)),
        forall|o: bool| event == (IpcEvent::OverviewOpenedOrClosed { is_open: o }) ==> event_update(event) == Some(StateUpdate::OverviewChanged(o)),
        forall|id: u64, f: bool| event == (IpcEvent::WorkspaceActivated { id, focused: f }) ==> event_update(event) == Some(
            StateUpdate::WorkspaceActivated { id, focused: f }),
{
}

} // verus!
