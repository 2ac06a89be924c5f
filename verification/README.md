# robodeck

`robodeck` edits `workspace.json` — a zone hierarchy and a navigation graph
over the same site — and runs the server that follows a robot fleet over
Zenoh. This crate holds the model and the rules behind both, written in
Verus with their contracts proved.

## Layout

- `src/` — the library, every function verified:
  - `workspace`, `keyed`: the workspace model; maps are vectors kept in key
    order, with the contents of a `BTreeMap`.
  - `editor`: the map editor as a state machine: each click, button or
    browser answer is an event; the step decides what it does to the
    workspace, the selection, the mode and the status line, and returns
    the action the front end performs; `management`: the same step's
    decisions in the fleet-management view (scheduler panel, node pick,
    robot choice).
  - `zone_edit`, `node_edit`, `graph`, `inspector`: the editor's edits.
  - `sync`: which zones each node and edge lies in; `validate`: the health
    report.
  - `props`: the `key=value` property text and the association text;
    `text`, `order`: trimming, splitting, searching and ordering of text.
  - `map_features`: the features of each map layer.
  - `zenoh_api`, `fleet`, `client`, `roster`: the server's fleet picture, its
    API and the browser's view of it; `scheduler`: the scheduler panel's
    checks and the requests it sends.
  - `platform`: ids, colours, the clock and JSON text, from `uuid`, `rand`,
    `std` and `serde_json`.
- `tests/` — tests of the library on concrete values.
- `app/` — the server binary: HTTP with `axum`, the Zenoh session, ROS
  message decoding with `cdr`, the JSON file format with `serde`, the
  floating-point geometry, and `editor_host`, which the browser front end
  runs around the editor's step (membership from point-in-polygon tests,
  the raw JSON text).

Real numbers (coordinates, weights) travel through the library as the bit
patterns of their `f64` values; the library compares them but never
computes with them.
