//! The compositor's event stream: what each line of it means to the
//! minimap, and whether the stream was granted.

use niri_ipc::Event;
use niri_ipc::Window as CompositorWindow;
use niri_ipc::WindowLayout as CompositorLayout;
use niri_ipc::Workspace as CompositorWorkspace;
use vstd::prelude::*;

use crate::ipc::{
    closes_overview, event_to_update, event_update, is_blank_line, IpcEvent, NiriWindow,
    NiriWorkspace, WindowLayout,
};
use crate::text::trim;
use crate::update::StateUpdate;

verus! {

#[verifier::external_type_specification]
#[verifier::external_body]
pub struct ExNiriEvent(Event);

#[verifier::external_type_specification]
#[verifier::external_body]
pub struct ExNiriWindow(CompositorWindow);

#[verifier::external_type_specification]
#[verifier::external_body]
pub struct ExNiriWindowLayout(CompositorLayout);

#[verifier::external_type_specification]
#[verifier::external_body]
pub struct ExNiriWorkspace(CompositorWorkspace);

/// What one line of the event stream decodes to: the event it encodes in
/// the compositor's JSON, reduced to the data the minimap reads, or none
/// when it is not an event the compositor's types decode.
pub uninterp spec fn parsed_event(line: Seq<char>) -> Option<IpcEvent>;

/// A compositor window layout in the library's terms, tile size and
/// position as bit patterns. Moves fields of `niri_ipc::WindowLayout`;
/// nothing is stated of the result.
#[verifier::external_body]
fn layout_from_niri(l: &CompositorLayout) -> WindowLayout {
    WindowLayout {
        pos_in_scrolling_layout: l.pos_in_scrolling_layout,
        tile_size: (l.tile_size.0.to_bits(), l.tile_size.1.to_bits()),
        tile_pos_in_workspace_view: match l.tile_pos_in_workspace_view {
            Some((x, y)) => Some((x.to_bits(), y.to_bits())),
            None => None,
        },
    }
}

/// A compositor window in the library's terms. Moves fields of
/// `niri_ipc::Window`; nothing is stated of the result.
#[verifier::external_body]
fn window_from_niri(w: &CompositorWindow) -> NiriWindow {
    NiriWindow {
        id: w.id,
        title: w.title.clone(),
        app_id: w.app_id.clone(),
        workspace_id: w.workspace_id,
        is_focused: w.is_focused,
        layout: layout_from_niri(&w.layout),
    }
}

/// A compositor workspace in the library's terms. Moves fields of
/// `niri_ipc::Workspace`; nothing is stated of the result.
#[verifier::external_body]
fn workspace_from_niri(w: &CompositorWorkspace) -> NiriWorkspace {
    NiriWorkspace {
        id: w.id,
        idx: w.idx,
        output: w.output.clone(),
        is_active: w.is_active,
        is_focused: w.is_focused,
        active_window_id: w.active_window_id,
    }
}

/// The layout changes of an event in the library's terms, in order.
fn layouts_from_niri(changes: &Vec<(u64, CompositorLayout)>) -> (r: Vec<(u64, WindowLayout)>)
    ensures
        r@.len() == changes@.len(),
        forall|i: int| 0 <= i < r@.len() ==> (#[trigger] r@[i]).0 == changes@[i].0,
{
    let mut r: Vec<(u64, WindowLayout)> = Vec::new();
    let mut i: usize = 0;
    while i < changes.len()
        invariant
            i <= changes@.len(),
            r@.len() == i,
            forall|j: int| 0 <= j < i ==> (#[trigger] r@[j]).0 == changes@[j].0,
        decreases changes@.len() - i,
    {
        let (id, l) = &changes[i];
        r.push((*id, layout_from_niri(l)));
        i += 1;
    }
    r
}

/// The workspaces of an event in the library's terms, in order.
fn workspaces_from_niri(list: &Vec<CompositorWorkspace>) -> (r: Vec<NiriWorkspace>)
    ensures
        r@.len() == list@.len(),
{
    let mut r: Vec<NiriWorkspace> = Vec::new();
    let mut i: usize = 0;
    while i < list.len()
        invariant
            i <= list@.len(),
            r@.len() == i,
        decreases list@.len() - i,
    {
        r.push(workspace_from_niri(&list[i]));
        i += 1;
    }
    r
}

/// A compositor event in the library's terms; events the minimap does not
/// follow become `Other`. Tells the variants of `niri_ipc::Event` apart and
/// moves their fields; nothing is stated of the result.
#[verifier::external_body]
fn event_from_niri(e: Event) -> IpcEvent {
    match e {
        Event::WindowOpenedOrChanged { window } => IpcEvent::WindowOpenedOrChanged { window: window_from_niri(&window) },
        Event::WindowClosed { id } => IpcEvent::WindowClosed { id },
        Event::WindowFocusChanged { id } => IpcEvent::WindowFocusChanged { id },
        Event::OverviewOpenedOrClosed { is_open } => IpcEvent::OverviewOpenedOrClosed { is_open },
        Event::WorkspaceActivated { id, focused } => IpcEvent::WorkspaceActivated { id, focused },
        Event::WindowLayoutsChanged { changes } => IpcEvent::WindowLayoutsChanged { changes: layouts_from_niri(&changes) },
        Event::WorkspacesChanged { workspaces } => IpcEvent::WorkspacesChanged { workspaces: workspaces_from_niri(&workspaces) },
        Event::WorkspaceActiveWindowChanged { workspace_id, active_window_id } =>
            IpcEvent::WorkspaceActiveWindowChanged { workspace_id, active_window_id },
        _ => IpcEvent::Other,
    }
}

/// Decode one line of the event stream.
///
/// Calls `serde_json::from_str` for `niri_ipc::Event` and converts a decoded
/// event; the contract only names the result, a function of the line.
#[verifier::external_body]
fn parse_event_line(line: &str) -> (e: Option<IpcEvent>)
    ensures
        e == parsed_event(line@),
{
    match serde_json::from_str::<Event>(line) {
        Ok(event) => Some(event_from_niri(event)),
        Err(_) => None,
    }
}

/// What one line of the event stream asks of the minimap.
#[derive(Debug)]
pub enum LineOutcome {
    /// A blank line: nothing
    Blank,
    /// A line that is no event the compositor's types decode: skipped
    Unrecognized,
    /// An event: the state update it stands for (none for events the
    /// minimap does not follow), and whether the complete state is fetched
    /// again afterwards (Overview closed)
    Event { update: Option<StateUpdate>, refetch: bool },
}

/// What a line asks of the minimap, given what it decodes to.
pub open spec fn line_outcome(line: Seq<char>, decoded: Option<IpcEvent>) -> LineOutcome {
    if trim(line).len() == 0 {
        LineOutcome::Blank
    } else {
        match decoded {
            Some(ev) => LineOutcome::Event {
                update: event_update(ev),
                refetch: ev matches IpcEvent::OverviewOpenedOrClosed { is_open } && !is_open,
            },
            None => LineOutcome::Unrecognized,
        }
    }
}

/// Read one line of the event stream: blank lines are skipped, a line is
/// decoded as a compositor event, and a decoded event gives its state
/// update; after Overview closes the complete state is fetched again.
pub fn line_update(line: &str) -> (r: LineOutcome)
    ensures
        r == line_outcome(line@, parsed_event(line@)),
{
    if is_blank_line(line) {
        return LineOutcome::Blank;
    }
    match parse_event_line(line) {
        Some(ev) => {
            let refetch = closes_overview(&ev);
            LineOutcome::Event { update: event_to_update(ev), refetch }
        },
        None => LineOutcome::Unrecognized,
    }
}

/// What the compositor's first reply on the event stream decodes to: `Ok`
/// for a granted request, `Err` with the compositor's message for a refused
/// one, none when the line is no reply its types decode.
pub uninterp spec fn stream_reply(line: Seq<char>) -> Option<Result<(), Seq<char>>>;

/// The model of a decoded reply.
pub open spec fn reply_view(r: Option<Result<(), String>>) -> Option<Result<(), Seq<char>>> {
    match r {
        Some(Ok(())) => Some(Ok(())),
        Some(Err(e)) => Some(Err(e@)),
        None => None,
    }
}

/// Decode the reply to the event-stream request.
///
/// Calls `serde_json::from_str` for `Result<niri_ipc::Response, String>` and
/// keeps whether it is `Ok` and the error text; the contract only names the
/// result, a function of the line.
#[verifier::external_body]
fn parse_stream_reply(line: &str) -> (r: Option<Result<(), String>>)
    ensures
        reply_view(r) == stream_reply(line@),
{
    match serde_json::from_str::<Result<niri_ipc::Response, String>>(line) {
        Ok(Ok(_)) => Some(Ok(())),
        Ok(Err(e)) => Some(Err(e)),
        Err(_) => None,
    }
}

/// How the compositor answered the event-stream request.
#[derive(Debug, PartialEq, Eq)]
pub enum StreamReply {
    /// The stream was granted
    Granted,
    /// The compositor refused, with this message
    Refused(String),
    /// The reply could not be read
    Unreadable,
}

/// Read the compositor's reply to the event-stream request.
pub fn event_stream_reply(line: &str) -> (r: StreamReply)
    ensures
        match stream_reply(line@) {
            Some(Ok(())) => r == StreamReply::Granted,
            Some(Err(e)) => r matches StreamReply::Refused(m) && m@ == e,
            None => r == StreamReply::Unreadable,
        },
{
    match parse_stream_reply(line) {
        Some(Ok(())) => StreamReply::Granted,
        Some(Err(e)) => StreamReply::Refused(e),
        None => StreamReply::Unreadable,
    }
}

} // verus!
