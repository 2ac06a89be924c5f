//! robodeck: the model behind an editor for `workspace.json` (a zone
//! hierarchy and a navigation graph over the same site) and behind the
//! server that follows a robot fleet over Zenoh, with their contracts
//! proved.
//!
//! - `workspace`, `keyed`: the workspace model and its key-ordered tables.
//! - `editor`, `management`: the editor's state machine, event by event,
//!   with the fleet-management view's decisions.
//! - `zone_edit`, `node_edit`, `graph`, `inspector`: the editor's edits.
//! - `sync`: zone membership of nodes and edges; `validate`: the health report.
//! - `props`: property and association texts; `text`, `order`: text handling.
//! - `map_features`: what the map draws.
//! - `zenoh_api`, `fleet`, `client`, `roster`: the fleet server and its API.
//! - `scheduler`: the scheduler panel's checks and requests.
//! - `platform`: ids, colours, the clock and JSON text from outside crates.

pub mod text;
pub mod order;
pub mod zenoh_api;
pub mod keyed;
pub mod fleet;
pub mod workspace;
pub mod props;
pub mod validate;
pub mod platform;
pub mod graph;
pub mod zone_edit;
pub mod node_edit;
pub mod sync;
pub mod roster;
pub mod inspector;
pub mod map_features;
pub mod client;
pub mod editor;
pub mod scheduler;
pub mod management;
