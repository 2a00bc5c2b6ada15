# nirimap

A workspace minimap overlay for the Niri Wayland compositor, with its logic
verified by Verus.

## Layout

- `src/` — the verified library:
  - `model.rs` — workspaces and windows, the state the compositor reports,
    and the display order of workspaces;
  - `update.rs` — how each update from the compositor changes the state and
    what the widgets do next, with the invariants every update keeps;
  - `ipc.rs` — compositor messages in the library's terms, the initial
    snapshot, event conversion, socket-path checks, reconnect backoff and
    configuration-reload debouncing;
  - `stream.rs` — what each line of the compositor's event stream asks of
    the minimap, and the reply to the event-stream request;
  - `layout.rs` — which workspace rows an output shows, window columns, the
    highlighted window and the structural layout signature that decides
    when the widget is measured again;
  - `visibility.rs` — when an overlay shows and hides itself;
  - `monitors.rs` — keeping one overlay per connected output;
  - `decorations.rs` — label text, desktop-entry parsing, the desktop icon
    index and data directories, the order of the icon lookup and the
    fallback letter;
  - `config.rs` — configuration values the logic reads and hex colors;
  - `order.rs`, `text.rs` — sorted sequences and string utilities.
- `tests/` — tests of the library.
- `app/` — the GTK program around the library: configuration file,
  compositor socket, layer-shell surfaces and cairo drawing (the geometry
  over floating-point tile sizes lives there).
