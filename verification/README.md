# switchbox

A patchbay for PipeWire on the COSMIC desktop: devices and clients are shown
with their nodes and ports in two columns (outputs on the left, inputs on the
right), with the connections drawn between them.

- `src/` is the verified library:
  - `app/graph.rs`: the graph model, its well-formedness, the example graph,
    the theme metrics and the port and box styles;
  - `app/layout.rs`: where every device, node and port sits in the two
    columns, and the connection lines between recorded port positions;
  - `app/mod.rs`, `app/settings.rs`, `app/inspector.rs`: the application
    state and how each message changes it;
  - `pages.rs`: the page-based variant of the application state.
- `app/` is the desktop program: the COSMIC widgets, the PipeWire thread,
  configuration and texts.
- `tests/` runs the library on concrete values.
