//! The map editor's decisions. The front end draws the map, runs the hit
//! tests (which node, edge or zone lies under the pointer, how near a click
//! is to a zone border) and hands the outcome in as an `EditorEvent`;
//! `editor_step` decides what becomes of the workspace, the selection, the
//! editing mode, the zone draft and the status line, and returns the
//! `EditorAction` that the front end then performs.
use vstd::prelude::*;
use crate::graph::{
    edges_without_node, is_new_edge, is_new_node, pick_node_for_edge, place_node_at, remove_edge_by_id,
    remove_node_by_id, same_meta, EdgePick,
};
use crate::inspector::{apply_located_point, located_datum, set_reference_point, set_zone_polygon, zone_updated};
use crate::keyed::{as_map, has_key, key_pos, lookup};
use crate::node_edit::{move_node, node_edited, normalize_workspace_json, workspace_normalized};
use crate::platform::is_uuid_v4_text;
use crate::props::text_map;
use crate::text::{append_decimal, decimal};
use crate::workspace::{texts_of, JsonPoint, Selection, WorkspaceJson, DEFAULT_LAT_BITS, DEFAULT_LON_BITS};
use crate::management::{
    app_mode_switched, fetched_view, on_robot_row_click, on_run_task, on_switch_app_mode, on_tasks_fetched,
    on_toggle_pick, on_toggle_tasks_panel, pick_toggled, robot_chosen, run_requested, scheduler_panel_toggled,
    settle, settled, tasks_fetched, tasks_toggled,
};
use crate::roster::FleetRobot;
use crate::scheduler::SchedulerRunRequest;
use crate::zone_edit::{
    finish_zone_draft, insert_zone_vertex, move_zone_vertex, opt_text, remove_zone, remove_zone_vertex,
    vertex_inserted, vertex_moved, vertex_removed, zone_inserted, zone_removed,
};

verus! {

/// What a click on the map does.
#[derive(Clone, Copy, Debug, PartialEq, Eq, Structural)]
pub enum EditMode {
    Inspect,
    AddNode,
    ConnectEdge,
    PlaceRef,
    PlaceZone,
}

/// The panel open on the right (of the editor, or of the management view).
#[derive(Clone, Copy, Debug, PartialEq, Eq, Structural)]
pub enum RightPanel {
    Details,
    Json,
    Files,
    Scheduler,
    Tasks,
}

/// Whether the map is being edited or the fleet managed.
#[derive(Clone, Copy, Debug, PartialEq, Eq, Structural)]
pub enum AppMode {
    Editor,
    Management,
}

/// The tool buttons that switch a mode on and off.
#[derive(Clone, Copy, Debug, PartialEq, Eq, Structural)]
pub enum ToolButton {
    AddNode,
    ConnectEdge,
    PlaceRef,
}

/// Where a parsed workspace came from.
#[derive(Clone, Copy, Debug, PartialEq, Eq, Structural)]
pub enum JsonSource {
    /// "Apply" on the raw JSON text.
    Applied,
    /// "Format" on the raw JSON text.
    Formatted,
    /// A `workspace.json` file that was opened.
    Opened,
}

/// What is being dragged on the map.
pub enum SceneDrag {
    Node(String),
    ZoneVertex(String, usize),
    /// A zone's body, with the point the pointer was last at.
    ZoneBody(String, JsonPoint),
}

/// What the front end found for a right click near the selected zone.
pub enum VertexHit {
    /// The click is not near the zone's border.
    Far,
    /// A vertex already lies very close to the nearest border point.
    TooClose,
    /// The click is to be ignored (a repeat, or a zone of fewer than two
    /// points).
    Ignored,
    /// Insert this border point at this index of the polygon.
    Insert(usize, JsonPoint),
}

/// What happened in the editor, as the front end saw it.
pub enum EditorEvent {
    /// A left click at `point`, over the node, edge and zone the hit tests
    /// found there (the first of each, if any).
    MapClick { point: JsonPoint, node: Option<String>, edge: Option<String>, zone: Option<String> },
    /// A right click over the node and edge found there, with the vertex
    /// test against the selected zone.
    RightClick { node: Option<String>, edge: Option<String>, vertex: VertexHit },
    /// "Add Root Zone".
    ArmRootZone,
    /// The `+` of a zone: draw a child of it.
    ArmChildZone(String),
    /// A tool button was pressed.
    ToggleTool(ToolButton),
    /// The raw JSON text now reads so.
    JsonText(String),
    /// A workspace was parsed (or failed to parse, with the parser's
    /// message).
    JsonLoaded(JsonSource, Result<WorkspaceJson, String>),
    /// "New".
    NewWorkspace,
    /// "Locate me" was pressed and the browser was asked.
    LocateRequested,
    /// The browser answered with a position, with or without coordinates.
    Located(Option<JsonPoint>),
    /// The browser refused or failed.
    LocateFailed,
    /// A press on a node, a zone vertex or a selected zone's body.
    DragStart(SceneDrag),
    /// The pointer moved to `point` during a drag; `moved_body` is the
    /// dragged zone's polygon shifted along (used for a body drag).
    DragMove { point: JsonPoint, moved_body: Vec<JsonPoint> },
    /// The button was released.
    DragEnd,
    /// A zone's row in the zone tree was clicked.
    ZoneRowClick(String),
    /// A node's row in the graph list was clicked.
    NodeRowClick(String),
    /// An edge's row in the graph list was clicked.
    EdgeRowClick(String),
    /// The delete button of a zone.
    RemoveZone(String),
    /// The delete button of a node.
    RemoveNode(String),
    /// The delete button of an edge.
    RemoveEdge(String),
    /// A handle was dragged to `point`; `moved_body` is the zone's polygon
    /// shifted along (used for the centre handle).
    MarkerDrag { handle: MarkerHandle, point: JsonPoint, moved_body: Vec<JsonPoint> },
    /// A handle was let go.
    MarkerDragEnd(MarkerHandle),
    /// A right click on a handle.
    MarkerRightClick(MarkerHandle),
    /// "Locate me" could not ask the browser, or could not read its answer.
    LocateUnavailable(LocateProblem),
    /// The reference mode was switched (local X/Y or not).
    SetReferenceMode(bool),
    /// The root zone id was typed.
    SetRootZoneId(String),
    /// A datum coordinate was typed (`None`: nothing readable).
    SetDatumAxis { value: Option<u64>, latitude: bool },
    /// The workspace name was typed.
    RenameWorkspace(String),
    /// The view was switched to the editor or to fleet management.
    SwitchAppMode(AppMode),
    /// The scheduler button of the management view.
    ToggleSchedulerPanel,
    /// The tasks button of the management view.
    ToggleTasksPanel,
    /// The fleet was listed again.
    RobotsListed(Vec<FleetRobot>),
    /// The scheduler's "pick node" button.
    ToggleSchedulerPick,
    /// A robot's row in the fleet list, with where it can be shown (none:
    /// it has no mappable position).
    RobotRowClick { name: String, place: Option<JsonPoint> },
    /// The server answered a task-list request: the tasks and its status,
    /// or the error.
    TasksFetched(Result<(Vec<String>, String), String>),
    /// A task was chosen in the task panel.
    ChooseTask(String),
    /// An order was chosen in the scheduler panel.
    ChooseOrder(String),
    /// "Run": the chosen task, or for a schedule the chosen order.
    RunTask { schedule: bool },
    /// The server's answer to a run, shown as it is.
    ServerReply(String),
}

/// What the front end does after a step.
pub enum EditorAction {
    Idle,
    /// Recompute zone membership.
    Sync,
    /// Recompute zone membership and render the raw JSON text again.
    SyncAndRender,
    /// As `SyncAndRender`, then bring this zone into view.
    SyncRenderFocusZone(String),
    /// Bring this point into view.
    FocusPoint(JsonPoint),
    /// Bring this zone into view.
    FocusZone(String),
    /// Bring this node into view.
    FocusNode(String),
    /// Bring this edge into view.
    FocusEdge(String),
    /// Render the raw JSON text again.
    Render,
    /// Fetch the tasks this robot offers.
    FetchTasks(String),
    /// A robot was chosen: fetch its tasks, and look at it where it can be
    /// shown.
    RobotChosen { robot: String, focus: Option<JsonPoint> },
    /// Send this request to the scheduler.
    SendRun(SchedulerRunRequest),
}

/// The editor: the workspace and everything around it.
pub struct EditorState {
    pub workspace: WorkspaceJson,
    pub selection: Selection,
    pub mode: EditMode,
    /// The first node picked while connecting (empty: none yet).
    pub edge_source_id: String,
    /// The points of the zone being drawn.
    pub zone_draft: Vec<JsonPoint>,
    /// The parent of the zone being drawn (none: a root zone).
    pub pending_parent: Option<String>,
    pub raw_json: String,
    pub status: String,
    pub right_panel: Option<RightPanel>,
    pub drag: Option<SceneDrag>,
    pub app_mode: AppMode,
    /// The panel open on the right of the management view.
    pub management_panel: Option<RightPanel>,
    /// Whether the next node selected becomes the scheduler's target.
    pub scheduler_picking: bool,
    /// The scheduler's target node (empty: none).
    pub scheduler_target: String,
    /// The robot chosen in the fleet list (empty: none).
    pub selected_robot: String,
    /// The tasks the chosen robot offers.
    pub task_options: Vec<String>,
    /// The task chosen in the task panel.
    pub scheduler_task: String,
    /// The order chosen in the scheduler panel.
    pub schedule_task: String,
    /// The fleet as last listed.
    pub robots: Vec<FleetRobot>,
}

/// A selection as plain values.
pub enum SelectionView {
    Workspace,
    Zone(Seq<char>),
    Node(Seq<char>),
    Edge(Seq<char>),
}

pub open spec fn selection_view(s: Selection) -> SelectionView {
    match s {
        Selection::Workspace => SelectionView::Workspace,
        Selection::Zone(id) => SelectionView::Zone(id@),
        Selection::Node(id) => SelectionView::Node(id@),
        Selection::Edge(id) => SelectionView::Edge(id@),
    }
}

/// A drag as plain values.
pub enum DragView {
    Node(Seq<char>),
    ZoneVertex(Seq<char>, nat),
    ZoneBody(Seq<char>, JsonPoint),
}

pub open spec fn drag_view(d: SceneDrag) -> DragView {
    match d {
        SceneDrag::Node(id) => DragView::Node(id@),
        SceneDrag::ZoneVertex(id, i) => DragView::ZoneVertex(id@, i as nat),
        SceneDrag::ZoneBody(id, p) => DragView::ZoneBody(id@, p),
    }
}

pub open spec fn opt_drag(d: Option<SceneDrag>) -> Option<DragView> {
    match d {
        Some(d) => Some(drag_view(d)),
        None => None,
    }
}

/// The editor as plain values.
pub struct EditorView {
    pub workspace: WorkspaceJson,
    pub selection: SelectionView,
    pub mode: EditMode,
    pub edge_source: Seq<char>,
    pub draft: Seq<JsonPoint>,
    pub pending_parent: Option<Seq<char>>,
    pub raw_json: Seq<char>,
    pub status: Seq<char>,
    pub panel: Option<RightPanel>,
    pub drag: Option<DragView>,
    pub app_mode: AppMode,
    pub management_panel: Option<RightPanel>,
    pub scheduler_picking: bool,
    pub scheduler_target: Seq<char>,
    pub selected_robot: Seq<char>,
    pub task_options: Seq<Seq<char>>,
    pub scheduler_task: Seq<char>,
    pub schedule_task: Seq<char>,
    pub robots: Seq<FleetRobot>,
}

impl View for EditorState {
    type V = EditorView;

    open spec fn view(&self) -> EditorView {
        EditorView {
            workspace: self.workspace,
            selection: selection_view(self.selection),
            mode: self.mode,
            edge_source: self.edge_source_id@,
            draft: self.zone_draft@,
            pending_parent: opt_text(self.pending_parent),
            raw_json: self.raw_json@,
            status: self.status@,
            panel: self.right_panel,
            drag: opt_drag(self.drag),
            app_mode: self.app_mode,
            management_panel: self.management_panel,
            scheduler_picking: self.scheduler_picking,
            scheduler_target: self.scheduler_target@,
            selected_robot: self.selected_robot@,
            task_options: texts_of(self.task_options@),
            scheduler_task: self.scheduler_task@,
            schedule_task: self.schedule_task@,
            robots: self.robots@,
        }
    }
}

impl EditorState {
    /// The workspace is well formed, and a zone draft exists only while a
    /// zone is being drawn.
    pub open spec fn wf(&self) -> bool {
        &&& self.workspace.wf()
        &&& self.mode != EditMode::PlaceZone ==> self.zone_draft@.len() == 0
    }

    /// Room for one more zone and one more node.
    pub open spec fn has_room(&self) -> bool {
        &&& self.workspace.zones@.len() < u64::MAX
        &&& self.workspace.nodes@.len() < u64::MAX
    }
}

/// `t` is `s` with only the status line changed, to `msg`.
pub open spec fn only_status(s: EditorView, t: EditorView, msg: Seq<char>) -> bool {
    t == (EditorView { status: msg, ..s })
}

/// `t` is `s` with `sel` selected, the details panel open and the status
/// `msg`.
pub open spec fn selected(s: EditorView, t: EditorView, sel: SelectionView, msg: Seq<char>) -> bool {
    t == (EditorView { selection: sel, panel: Some(RightPanel::Details), status: msg, ..s })
}

/// The status while drawing a zone of `n` points.
pub open spec fn draft_status(n: nat) -> Seq<char> {
    "Zone draft: "@ + decimal(n) + " point"@ + (if n == 1 {
        Seq::empty()
    } else {
        "s"@
    }) + " added. Right-click to finish."@
}

/// `after` is `before` with a node placed under `id` at `point`.
pub open spec fn node_placed(before: WorkspaceJson, after: WorkspaceJson, id: Seq<char>, point: JsonPoint) -> bool {
    &&& same_meta(after, before)
    &&& after.zones@ == before.zones@
    &&& after.edges@ == before.edges@
    &&& as_map(after.nodes@).remove(id) == as_map(before.nodes@).remove(id)
    &&& lookup(after.nodes@, id) matches Some(n) && is_new_node(n, id, (before.nodes@.len() + 1) as nat, point)
}

/// `after` is `before` with an edge from `source` to `target` under `id`.
pub open spec fn edge_created(
    before: WorkspaceJson,
    after: WorkspaceJson,
    id: Seq<char>,
    source: Seq<char>,
    target: Seq<char>,
) -> bool {
    &&& same_meta(after, before)
    &&& after.zones@ == before.zones@
    &&& after.nodes@ == before.nodes@
    &&& as_map(after.edges@).remove(id) == as_map(before.edges@).remove(id)
    &&& lookup(after.edges@, id) matches Some(e) && is_new_edge(e, id, source, target)
}

/// `after` is `before` without node `id` and the edges at it.
pub open spec fn node_removed(before: WorkspaceJson, after: WorkspaceJson, id: Seq<char>) -> bool {
    &&& same_meta(after, before)
    &&& after.zones@ == before.zones@
    &&& as_map(after.nodes@) == as_map(before.nodes@).remove(id)
    &&& after.edges@ == edges_without_node(before.edges@, id)
}

/// `after` is `before` without edge `id`.
pub open spec fn edge_removed(before: WorkspaceJson, after: WorkspaceJson, id: Seq<char>) -> bool {
    &&& same_meta(after, before)
    &&& after.zones@ == before.zones@
    &&& after.nodes@ == before.nodes@
    &&& after.edges@ == (if has_key(before.edges@, id) {
        before.edges@.remove(key_pos(before.edges@, id))
    } else {
        before.edges@
    })
}

/// `after` is `before` with the zone drawn as `polygon` under `id` below
/// `parent` (see `zone_inserted`).
pub open spec fn zone_drawn(
    before: WorkspaceJson,
    after: WorkspaceJson,
    id: Seq<char>,
    polygon: Seq<JsonPoint>,
    parent: Option<Seq<char>>,
) -> bool {
    &&& zone_inserted(before, after, id, polygon, parent)
    &&& after.name == before.name
    &&& after.coord_mode == before.coord_mode
    &&& after.ref_point == before.ref_point
    &&& after.local_ref == before.local_ref
    &&& after.datum == before.datum
    &&& after.nodes@ == before.nodes@
    &&& after.edges@ == before.edges@
}

/// `after` is `before` with node `id` moved to `point`.
pub open spec fn node_moved(before: WorkspaceJson, after: WorkspaceJson, id: Seq<char>, point: JsonPoint) -> bool {
    let n0 = as_map(before.nodes@)[id];
    node_edited(before, after, id, n0.name@, point, texts_of(n0.zone_ids@), text_map(n0.properties@))
}

/// `after` is `before` with the polygon of zone `id` replaced.
pub open spec fn zone_reshaped(
    before: WorkspaceJson,
    after: WorkspaceJson,
    id: Seq<char>,
    polygon: Seq<JsonPoint>,
) -> bool {
    let z0 = as_map(before.zones@)[id];
    zone_updated(
        before,
        after,
        id,
        z0.name@,
        z0.zone_type@,
        z0.grid_enabled,
        z0.grid_resolution,
        polygon,
        text_map(z0.properties@),
    )
}

/// The scheduler's node pick is armed in the management view with the
/// scheduler or task panel open: map clicks then reach the map there too.
pub open spec fn pick_active(s: EditorView) -> bool {
    &&& s.app_mode == AppMode::Management
    &&& s.scheduler_picking
    &&& (s.management_panel == Some(RightPanel::Scheduler) || s.management_panel == Some(RightPanel::Tasks))
}

fn pick_is_active(state: &EditorState) -> (r: bool)
    ensures
        r == pick_active(state@),
{
    state.app_mode == AppMode::Management && state.scheduler_picking && (state.management_panel == Some(
        RightPanel::Scheduler,
    ) || state.management_panel == Some(RightPanel::Tasks))
}

/// What a left click at `point`, over `node`, `edge` and `zone`, does: it
/// is ignored outside the editor (unless the scheduler's node pick is
/// active, when a node under the pointer is selected for it) and during a
/// drag; it places the reference point or adds a
/// draft point in those modes; otherwise a node under the pointer is
/// picked (connecting) or selected, then an edge is selected, then a node
/// is placed (adding nodes), then a zone is selected, and a click on
/// nothing selects the workspace and closes the right panel.
pub open spec fn map_clicked(
    s: EditorView,
    point: JsonPoint,
    node: Option<Seq<char>>,
    edge: Option<Seq<char>>,
    zone: Option<Seq<char>>,
    t: EditorView,
    a: EditorAction,
) -> bool {
    if s.app_mode != AppMode::Editor && !pick_active(s) {
        t == s && a is Idle
    } else if s.drag is Some {
        t == s && a is Idle
    } else if s.mode == EditMode::PlaceRef {
        &&& t == (EditorView {
            workspace: WorkspaceJson {
                ref_point: Some(point),
                datum: Some(located_datum(s.workspace.datum, point)),
                ..s.workspace
            },
            mode: EditMode::Inspect,
            status: "Placed reference point."@,
            ..s
        })
        &&& a is SyncAndRender
    } else if s.mode == EditMode::PlaceZone {
        &&& t == (EditorView {
            draft: s.draft.push(point),
            status: draft_status((s.draft.len() + 1) as nat),
            ..s
        })
        &&& a is Idle
    } else if node is Some {
        let n = node->Some_0;
        if pick_active(s) {
            &&& t == (EditorView {
                selection: SelectionView::Node(n),
                status: "Scheduler target node "@ + n + " selected."@,
                ..s
            })
            &&& a is Idle
        } else if s.mode == EditMode::ConnectEdge {
            if s.edge_source.len() == 0 {
                &&& t == (EditorView {
                    edge_source: n,
                    selection: SelectionView::Node(n),
                    panel: Some(RightPanel::Details),
                    status: "Selected edge source. Pick a target node."@,
                    ..s
                })
                &&& a is Idle
            } else if s.edge_source == n {
                t == s && a is Idle
            } else {
                &&& t.selection matches SelectionView::Edge(id) && is_uuid_v4_text(id) && edge_created(
                    s.workspace,
                    t.workspace,
                    id,
                    s.edge_source,
                    n,
                )
                &&& t == (EditorView {
                    workspace: t.workspace,
                    selection: t.selection,
                    edge_source: Seq::empty(),
                    panel: Some(RightPanel::Details),
                    status: "Created edge."@,
                    ..s
                })
                &&& a is SyncAndRender
            }
        } else {
            selected(s, t, SelectionView::Node(n), "Node selected."@) && a is Idle
        }
    } else if edge is Some {
        selected(s, t, SelectionView::Edge(edge->Some_0), "Edge selected."@) && a is Idle
    } else if s.mode == EditMode::AddNode {
        &&& t.selection matches SelectionView::Node(id) && is_uuid_v4_text(id) && node_placed(
            s.workspace,
            t.workspace,
            id,
            point,
        )
        &&& t == (EditorView {
            workspace: t.workspace,
            selection: t.selection,
            panel: Some(RightPanel::Details),
            status: "Placed node."@,
            ..s
        })
        &&& a is SyncAndRender
    } else if zone is Some {
        selected(s, t, SelectionView::Zone(zone->Some_0), "Zone selected."@) && a is Idle
    } else {
        t == (EditorView { selection: SelectionView::Workspace, panel: None, ..s }) && a is Idle
    }
}

/// Writes the status of a draft of `n` points.
fn draft_status_text(n: usize) -> (r: String)
    ensures
        r@ == draft_status(n as nat),
{
    let mut r = String::from_str("Zone draft: ");
    append_decimal(&mut r, n as u64);
    r.append(" point");
    if n != 1 {
        r.append("s");
    }
    r.append(" added. Right-click to finish.");
    proof {
        if n == 1 {
            assert(r@ =~= draft_status(n as nat));
        }
    }
    r
}

fn select_with(state: &mut EditorState, next: Selection, msg: &str)
    ensures
        final(state)@ == (EditorView {
            selection: selection_view(next),
            panel: Some(RightPanel::Details),
            status: msg@,
            ..old(state)@
        }),
        final(state).workspace == old(state).workspace,
        final(state).mode == old(state).mode,
        final(state).zone_draft == old(state).zone_draft,
{
    state.selection = next;
    state.right_panel = Some(RightPanel::Details);
    state.status = String::from_str(msg);
}

fn on_map_click(
    state: &mut EditorState,
    point: JsonPoint,
    node: Option<String>,
    edge: Option<String>,
    zone: Option<String>,
) -> (a: EditorAction)
    requires
        old(state).wf(),
        old(state).has_room(),
    ensures
        final(state).wf(),
        map_clicked(old(state)@, point, opt_text(node), opt_text(edge), opt_text(zone), final(state)@, a),
{
    let picking = pick_is_active(state);
    if state.app_mode != AppMode::Editor && !picking {
        return EditorAction::Idle;
    }
    if state.drag.is_some() {
        return EditorAction::Idle;
    }
    if state.mode == EditMode::PlaceRef {
        set_reference_point(&mut state.workspace, point);
        state.mode = EditMode::Inspect;
        state.status = String::from_str("Placed reference point.");
        return EditorAction::SyncAndRender;
    }
    if state.mode == EditMode::PlaceZone {
        state.zone_draft.push(point);
        state.status = draft_status_text(state.zone_draft.len());
        return EditorAction::Idle;
    }
    if let Some(n) = node {
        if picking {
            let mut text = String::from_str("Scheduler target node ");
            text.append(n.as_str());
            text.append(" selected.");
            state.selection = Selection::Node(n);
            state.status = text;
            return EditorAction::Idle;
        }
        if state.mode == EditMode::ConnectEdge {
            let picked = pick_node_for_edge(&mut state.workspace, &mut state.edge_source_id, n.as_str());
            match picked {
                EdgePick::SourceChosen => {
                    select_with(state, Selection::Node(n), "Selected edge source. Pick a target node.");
                    return EditorAction::Idle;
                },
                EdgePick::Ignored => {
                    return EditorAction::Idle;
                },
                EdgePick::Created(id) => {
                    assert(state.edge_source_id@ =~= Seq::<char>::empty());
                    state.selection = Selection::Edge(id);
                    state.right_panel = Some(RightPanel::Details);
                    state.status = String::from_str("Created edge.");
                    return EditorAction::SyncAndRender;
                },
            }
        }
        select_with(state, Selection::Node(n), "Node selected.");
        return EditorAction::Idle;
    }
    if let Some(e) = edge {
        select_with(state, Selection::Edge(e), "Edge selected.");
        return EditorAction::Idle;
    }
    if state.mode == EditMode::AddNode {
        let id = place_node_at(&mut state.workspace, point);
        state.selection = Selection::Node(id);
        state.right_panel = Some(RightPanel::Details);
        state.status = String::from_str("Placed node.");
        return EditorAction::SyncAndRender;
    }
    if let Some(z) = zone {
        select_with(state, Selection::Zone(z), "Zone selected.");
        return EditorAction::Idle;
    }
    state.selection = Selection::Workspace;
    state.right_panel = None;
    EditorAction::Idle
}

/// The vertex insertion that a right click asks for can be made: the zone
/// exists and `index` is a position of its polygon or its end.
pub open spec fn insertable(ws: WorkspaceJson, zone_id: Seq<char>, index: int) -> bool {
    has_key(ws.zones@, zone_id) && index <= ws.zones@[key_pos(ws.zones@, zone_id)].1.polygon_latlon@.len()
}

/// What a right click does: nothing outside the editor; while drawing it finishes the zone (three
/// points at least); otherwise it removes the node or else the edge under
/// the pointer; otherwise, with a zone selected, it inserts a border
/// vertex as the hit test found, or says why not.
pub open spec fn right_clicked(
    s: EditorView,
    node: Option<Seq<char>>,
    edge: Option<Seq<char>>,
    vertex: VertexHit,
    t: EditorView,
    a: EditorAction,
) -> bool {
    if s.app_mode != AppMode::Editor {
        t == s && a is Idle
    } else if s.mode == EditMode::PlaceZone {
        if s.draft.len() < 3 {
            only_status(s, t, "Need at least 3 points before the zone can be created."@) && a is Idle
        } else {
            &&& t.selection matches SelectionView::Zone(id) && is_uuid_v4_text(id) && zone_drawn(
                s.workspace,
                t.workspace,
                id,
                s.draft,
                s.pending_parent,
            ) && (a matches EditorAction::SyncRenderFocusZone(z) && z@ == id)
            &&& t == (EditorView {
                workspace: t.workspace,
                selection: t.selection,
                mode: EditMode::Inspect,
                draft: Seq::empty(),
                pending_parent: None,
                panel: Some(RightPanel::Details),
                status: "Created zone polygon."@,
                ..s
            })
        }
    } else if node is Some {
        &&& node_removed(s.workspace, t.workspace, node->Some_0)
        &&& t == (EditorView {
            workspace: t.workspace,
            selection: SelectionView::Workspace,
            status: "Removed node."@,
            ..s
        })
        &&& a is SyncAndRender
    } else if edge is Some {
        &&& edge_removed(s.workspace, t.workspace, edge->Some_0)
        &&& t == (EditorView {
            workspace: t.workspace,
            selection: SelectionView::Workspace,
            status: "Removed edge."@,
            ..s
        })
        &&& a is SyncAndRender
    } else if let SelectionView::Zone(z) = s.selection {
        match vertex {
            VertexHit::Far => only_status(s, t, "Right-click near a selected zone border to insert a vertex."@)
                && a is Idle,
            VertexHit::TooClose => only_status(s, t, "Vertex already exists very close to that spot."@)
                && a is Idle,
            VertexHit::Ignored => t == s && a is Idle,
            VertexHit::Insert(i, p) => if insertable(s.workspace, z, i as int) {
                &&& vertex_inserted(s.workspace, t.workspace, z, i as int, p)
                &&& same_meta(t.workspace, s.workspace)
                &&& t.workspace.nodes@ == s.workspace.nodes@
                &&& t.workspace.edges@ == s.workspace.edges@
                &&& t == (EditorView { workspace: t.workspace, status: "Inserted zone vertex."@, ..s })
                &&& a is SyncAndRender
            } else {
                t == s && a is Idle
            },
        }
    } else {
        t == s && a is Idle
    }
}

fn on_right_click(state: &mut EditorState, node: Option<String>, edge: Option<String>, vertex: VertexHit) -> (a:
    EditorAction)
    requires
        old(state).wf(),
        old(state).has_room(),
    ensures
        final(state).wf(),
        right_clicked(old(state)@, opt_text(node), opt_text(edge), vertex, final(state)@, a),
{
    if state.app_mode != AppMode::Editor {
        return EditorAction::Idle;
    }
    if state.mode == EditMode::PlaceZone {
        if state.zone_draft.len() < 3 {
            state.status = String::from_str("Need at least 3 points before the zone can be created.");
            return EditorAction::Idle;
        }
        let mut polygon: Vec<JsonPoint> = Vec::new();
        std::mem::swap(&mut polygon, &mut state.zone_draft);
        let parent = state.pending_parent.take();
        let made = finish_zone_draft(&mut state.workspace, polygon, parent);
        match made {
            Ok(id) => {
                assert(state.zone_draft@ =~= Seq::<JsonPoint>::empty());
                state.mode = EditMode::Inspect;
                state.selection = Selection::Zone(id.clone());
                state.right_panel = Some(RightPanel::Details);
                state.status = String::from_str("Created zone polygon.");
                return EditorAction::SyncRenderFocusZone(id);
            },
            Err(_) => {
                return EditorAction::Idle;
            },
        }
    }
    if let Some(n) = node {
        remove_node_by_id(&mut state.workspace, n.as_str());
        state.selection = Selection::Workspace;
        state.status = String::from_str("Removed node.");
        return EditorAction::SyncAndRender;
    }
    if let Some(e) = edge {
        remove_edge_by_id(&mut state.workspace, e.as_str());
        state.selection = Selection::Workspace;
        state.status = String::from_str("Removed edge.");
        return EditorAction::SyncAndRender;
    }
    let zone_id = match &state.selection {
        Selection::Zone(z) => z.clone(),
        _ => {
            return EditorAction::Idle;
        },
    };
    match vertex {
        VertexHit::Far => {
            state.status = String::from_str("Right-click near a selected zone border to insert a vertex.");
            EditorAction::Idle
        },
        VertexHit::TooClose => {
            state.status = String::from_str("Vertex already exists very close to that spot.");
            EditorAction::Idle
        },
        VertexHit::Ignored => EditorAction::Idle,
        VertexHit::Insert(index, point) => {
            let slot = crate::keyed::find_key(&state.workspace.zones, zone_id.as_str());
            match slot {
                None => EditorAction::Idle,
                Some(k) => {
                    if index > state.workspace.zones[k].1.polygon_latlon.len() {
                        return EditorAction::Idle;
                    }
                    insert_zone_vertex(&mut state.workspace, zone_id.as_str(), index, point);
                    state.status = String::from_str("Inserted zone vertex.");
                    EditorAction::SyncAndRender
                },
            }
        },
    }
}

/// Arming a zone drawing below `parent` (none: a root zone): refused for a
/// root zone while one exists; otherwise the draft starts empty.
pub open spec fn zone_armed(s: EditorView, parent: Option<Seq<char>>, t: EditorView) -> bool {
    if parent is None && s.workspace.root_zone_id@.len() > 0 {
        only_status(s, t, "Root zone already exists. Use the + button on a zone to add a child."@)
    } else {
        t == (EditorView {
            draft: Seq::empty(),
            pending_parent: parent,
            mode: EditMode::PlaceZone,
            status: "Click the map to add zone points. Right-click to finish the polygon."@,
            ..s
        })
    }
}

/// Arming a child zone below `parent`: the draft so far is kept.
pub open spec fn child_zone_armed(s: EditorView, parent: Seq<char>, t: EditorView) -> bool {
    t == (EditorView {
        pending_parent: Some(parent),
        mode: EditMode::PlaceZone,
        status: "Click the map to add child-zone points. Right-click to finish the polygon."@,
        ..s
    })
}

/// The mode a tool button stands for.
pub open spec fn tool_mode(tool: ToolButton) -> EditMode {
    match tool {
        ToolButton::AddNode => EditMode::AddNode,
        ToolButton::ConnectEdge => EditMode::ConnectEdge,
        ToolButton::PlaceRef => EditMode::PlaceRef,
    }
}

/// The mode after pressing `tool` in `mode`: its own mode, or back to
/// inspecting when it was on.
pub open spec fn toggled_mode(mode: EditMode, tool: ToolButton) -> EditMode {
    if mode == tool_mode(tool) {
        EditMode::Inspect
    } else {
        tool_mode(tool)
    }
}

/// The status after pressing `tool`, by the mode it leads to.
pub open spec fn tool_status(tool: ToolButton, next: EditMode) -> Seq<char> {
    if next == EditMode::Inspect {
        "Inspect mode."@
    } else {
        match tool {
            ToolButton::AddNode => "Click the map to place nodes."@,
            ToolButton::ConnectEdge => "Click one node, then another."@,
            ToolButton::PlaceRef => "Click the map to place the reference point."@,
        }
    }
}

/// Pressing a tool button switches its mode on or off; the edge button
/// also forgets a picked source; a zone draft is dropped.
pub open spec fn tool_toggled(s: EditorView, tool: ToolButton, t: EditorView) -> bool {
    let next = toggled_mode(s.mode, tool);
    t == (EditorView {
        mode: next,
        edge_source: if tool == ToolButton::ConnectEdge {
            Seq::empty()
        } else {
            s.edge_source
        },
        draft: Seq::empty(),
        status: tool_status(tool, next),
        ..s
    })
}

fn on_arm_zone(state: &mut EditorState, parent: Option<String>)
    requires
        old(state).wf(),
    ensures
        final(state).wf(),
        zone_armed(old(state)@, opt_text(parent), final(state)@),
{
    if parent.is_none() && state.workspace.root_zone_id.unicode_len() > 0 {
        state.status = String::from_str("Root zone already exists. Use the + button on a zone to add a child.");
        return ;
    }
    state.zone_draft = Vec::new();
    state.pending_parent = parent;
    state.mode = EditMode::PlaceZone;
    state.status = String::from_str("Click the map to add zone points. Right-click to finish the polygon.");
    assert(state.zone_draft@ =~= Seq::<JsonPoint>::empty());
}

fn on_arm_child_zone(state: &mut EditorState, parent: String)
    requires
        old(state).wf(),
    ensures
        final(state).wf(),
        child_zone_armed(old(state)@, parent@, final(state)@),
{
    state.pending_parent = Some(parent);
    state.mode = EditMode::PlaceZone;
    state.status = String::from_str("Click the map to add child-zone points. Right-click to finish the polygon.");
}

fn on_toggle_tool(state: &mut EditorState, tool: ToolButton)
    requires
        old(state).wf(),
    ensures
        final(state).wf(),
        tool_toggled(old(state)@, tool, final(state)@),
{
    let own = match tool {
        ToolButton::AddNode => EditMode::AddNode,
        ToolButton::ConnectEdge => EditMode::ConnectEdge,
        ToolButton::PlaceRef => EditMode::PlaceRef,
    };
    if tool == ToolButton::ConnectEdge {
        state.edge_source_id = String::new();
    }
    let next = if state.mode == own {
        EditMode::Inspect
    } else {
        own
    };
    state.mode = next;
    state.zone_draft = Vec::new();
    state.status = if next == EditMode::Inspect {
        String::from_str("Inspect mode.")
    } else {
        match tool {
            ToolButton::AddNode => String::from_str("Click the map to place nodes."),
            ToolButton::ConnectEdge => String::from_str("Click one node, then another."),
            ToolButton::PlaceRef => String::from_str("Click the map to place the reference point."),
        }
    };
    assert(state.zone_draft@ =~= Seq::<JsonPoint>::empty());
    assert(tool == ToolButton::ConnectEdge ==> state.edge_source_id@ =~= Seq::<char>::empty());
}

/// What a parsed (or refused) workspace does: a refusal only reports the
/// parser's message; a workspace is normalized and replaces the current
/// one, the workspace is selected and the panel of its source opens.
pub open spec fn json_loaded(
    s: EditorView,
    source: JsonSource,
    parsed: Result<WorkspaceJson, Seq<char>>,
    t: EditorView,
    a: EditorAction,
) -> bool {
    match parsed {
        Err(msg) => only_status(s, t, "Invalid JSON: "@ + msg) && a is Idle,
        Ok(ws) => {
            &&& workspace_normalized(ws, t.workspace)
            &&& t == (EditorView {
                workspace: t.workspace,
                selection: SelectionView::Workspace,
                panel: Some(
                    if source == JsonSource::Formatted {
                        RightPanel::Json
                    } else {
                        RightPanel::Files
                    },
                ),
                status: match source {
                    JsonSource::Applied => "Applied raw JSON."@,
                    JsonSource::Formatted => "Formatted current JSON."@,
                    JsonSource::Opened => "Loaded workspace.json."@,
                },
                ..s
            })
            &&& a is SyncAndRender
        },
    }
}

pub open spec fn parsed_view(r: Result<WorkspaceJson, String>) -> Result<WorkspaceJson, Seq<char>> {
    match r {
        Ok(w) => Ok(w),
        Err(e) => Err(e@),
    }
}

/// An empty workspace as `WorkspaceJson::default` makes it.
pub open spec fn blank_workspace(w: WorkspaceJson) -> bool {
    &&& w.name@ == "Workspace"@
    &&& w.root_zone_id@.len() == 0
    &&& w.coord_mode == crate::workspace::CoordMode::Global
    &&& w.ref_point is None
    &&& !w.local_ref
    &&& w.datum == Some(JsonPoint { lat: DEFAULT_LAT_BITS, lon: DEFAULT_LON_BITS })
    &&& w.zones@.len() == 0
    &&& w.nodes@.len() == 0
    &&& w.edges@.len() == 0
}

/// "New": an empty workspace, selected, in inspect mode, with nothing
/// picked or drawn.
pub open spec fn workspace_reset(s: EditorView, t: EditorView) -> bool {
    &&& blank_workspace(t.workspace)
    &&& t == (EditorView {
        workspace: t.workspace,
        selection: SelectionView::Workspace,
        panel: Some(RightPanel::Files),
        mode: EditMode::Inspect,
        edge_source: Seq::empty(),
        draft: Seq::empty(),
        status: "Reset workspace."@,
        ..s
    })
}

/// The browser's answer to "Locate me": a position with coordinates
/// becomes the datum when there is none and is brought into view.
pub open spec fn located(s: EditorView, point: Option<JsonPoint>, t: EditorView, a: EditorAction) -> bool {
    match point {
        None => only_status(s, t, "Browser location did not include coordinates."@) && a is Idle,
        Some(p) => {
            &&& t == (EditorView {
                workspace: WorkspaceJson { datum: Some(located_datum(s.workspace.datum, p)), ..s.workspace },
                status: "Centered map near your current browser location."@,
                ..s
            })
            &&& a == EditorAction::FocusPoint(p)
        },
    }
}

fn on_json_loaded(state: &mut EditorState, source: JsonSource, parsed: Result<WorkspaceJson, String>) -> (a:
    EditorAction)
    requires
        old(state).wf(),
        parsed matches Ok(w) ==> w.wf(),
    ensures
        final(state).wf(),
        json_loaded(old(state)@, source, parsed_view(parsed), final(state)@, a),
{
    match parsed {
        Err(msg) => {
            let mut text = String::from_str("Invalid JSON: ");
            text.append(msg.as_str());
            state.status = text;
            EditorAction::Idle
        },
        Ok(mut next) => {
            normalize_workspace_json(&mut next);
            state.workspace = next;
            state.selection = Selection::Workspace;
            state.right_panel = Some(
                if source == JsonSource::Formatted {
                    RightPanel::Json
                } else {
                    RightPanel::Files
                },
            );
            state.status = match source {
                JsonSource::Applied => String::from_str("Applied raw JSON."),
                JsonSource::Formatted => String::from_str("Formatted current JSON."),
                JsonSource::Opened => String::from_str("Loaded workspace.json."),
            };
            EditorAction::SyncAndRender
        },
    }
}

fn on_new_workspace(state: &mut EditorState)
    requires
        old(state).wf(),
    ensures
        final(state).wf(),
        workspace_reset(old(state)@, final(state)@),
{
    state.workspace = WorkspaceJson::default();
    state.selection = Selection::Workspace;
    state.right_panel = Some(RightPanel::Files);
    state.mode = EditMode::Inspect;
    state.edge_source_id = String::new();
    state.zone_draft = Vec::new();
    state.status = String::from_str("Reset workspace.");
    assert(state.zone_draft@ =~= Seq::<JsonPoint>::empty());
    assert(state.edge_source_id@ =~= Seq::<char>::empty());
}

fn on_located(state: &mut EditorState, point: Option<JsonPoint>) -> (a: EditorAction)
    requires
        old(state).wf(),
    ensures
        final(state).wf(),
        located(old(state)@, point, final(state)@, a),
{
    match point {
        None => {
            state.status = String::from_str("Browser location did not include coordinates.");
            EditorAction::Idle
        },
        Some(p) => {
            apply_located_point(&mut state.workspace, p);
            state.status = String::from_str("Centered map near your current browser location.");
            EditorAction::FocusPoint(p)
        },
    }
}

/// The item a drag is about, selected.
pub open spec fn drag_selection(d: DragView) -> SelectionView {
    match d {
        DragView::Node(id) => SelectionView::Node(id),
        DragView::ZoneVertex(id, _) => SelectionView::Zone(id),
        DragView::ZoneBody(id, _) => SelectionView::Zone(id),
    }
}

/// A press starts a drag only while inspecting in the editor; the dragged item is
/// selected and its details open.
pub open spec fn drag_started(s: EditorView, d: DragView, t: EditorView) -> bool {
    if s.app_mode == AppMode::Editor && s.mode == EditMode::Inspect {
        t == (EditorView {
            drag: Some(d),
            selection: drag_selection(d),
            panel: Some(RightPanel::Details),
            ..s
        })
    } else {
        t == s
    }
}

/// A pointer move to `point` during a drag moves the node, the zone vertex
/// or the whole zone (to `moved_body`, the body's last point becoming
/// `point`); outside the editor or without a drag nothing happens.
pub open spec fn drag_moved(
    s: EditorView,
    point: JsonPoint,
    moved_body: Seq<JsonPoint>,
    t: EditorView,
    a: EditorAction,
) -> bool {
    if s.app_mode != AppMode::Editor {
        t == s && a is Idle
    } else {
        drag_moved_in_editor(s, point, moved_body, t, a)
    }
}

pub open spec fn drag_moved_in_editor(
    s: EditorView,
    point: JsonPoint,
    moved_body: Seq<JsonPoint>,
    t: EditorView,
    a: EditorAction,
) -> bool {
    match s.drag {
        None => t == s && a is Idle,
        Some(DragView::Node(id)) => {
            &&& node_moved(s.workspace, t.workspace, id, point)
            &&& t == (EditorView { workspace: t.workspace, ..s })
            &&& a is Sync
        },
        Some(DragView::ZoneVertex(id, i)) => {
            &&& vertex_moved(s.workspace, t.workspace, id, i as int, point)
            &&& same_meta(t.workspace, s.workspace)
            &&& t.workspace.nodes@ == s.workspace.nodes@
            &&& t.workspace.edges@ == s.workspace.edges@
            &&& t == (EditorView { workspace: t.workspace, ..s })
            &&& a is Sync
        },
        Some(DragView::ZoneBody(id, _)) => {
            &&& zone_reshaped(s.workspace, t.workspace, id, moved_body)
            &&& t == (EditorView {
                workspace: t.workspace,
                drag: Some(DragView::ZoneBody(id, point)),
                ..s
            })
            &&& a is Sync
        },
    }
}

/// Releasing the button ends a drag.
pub open spec fn drag_ended(s: EditorView, t: EditorView, a: EditorAction) -> bool {
    if s.drag is Some {
        t == (EditorView { drag: None, status: "Moved scene item."@, ..s }) && a is SyncAndRender
    } else {
        t == s && a is Idle
    }
}

fn on_drag_start(state: &mut EditorState, drag: SceneDrag)
    requires
        old(state).wf(),
    ensures
        final(state).wf(),
        drag_started(old(state)@, drag_view(drag), final(state)@),
{
    if state.app_mode != AppMode::Editor || state.mode != EditMode::Inspect {
        return ;
    }
    state.selection = match &drag {
        SceneDrag::Node(id) => Selection::Node(id.clone()),
        SceneDrag::ZoneVertex(id, _) => Selection::Zone(id.clone()),
        SceneDrag::ZoneBody(id, _) => Selection::Zone(id.clone()),
    };
    state.drag = Some(drag);
    state.right_panel = Some(RightPanel::Details);
}

fn on_drag_move(state: &mut EditorState, point: JsonPoint, moved_body: Vec<JsonPoint>) -> (a: EditorAction)
    requires
        old(state).wf(),
    ensures
        final(state).wf(),
        drag_moved(old(state)@, point, moved_body@, final(state)@, a),
{
    if state.app_mode != AppMode::Editor {
        return EditorAction::Idle;
    }
    match &state.drag {
        None => EditorAction::Idle,
        Some(SceneDrag::Node(id)) => {
            let id = id.clone();
            move_node(&mut state.workspace, id.as_str(), point);
            EditorAction::Sync
        },
        Some(SceneDrag::ZoneVertex(id, i)) => {
            let id = id.clone();
            let i = *i;
            move_zone_vertex(&mut state.workspace, id.as_str(), i, point);
            EditorAction::Sync
        },
        Some(SceneDrag::ZoneBody(id, _)) => {
            let id = id.clone();
            set_zone_polygon(&mut state.workspace, id.as_str(), moved_body);
            state.drag = Some(SceneDrag::ZoneBody(id, point));
            EditorAction::Sync
        },
    }
}

fn on_drag_end(state: &mut EditorState) -> (a: EditorAction)
    requires
        old(state).wf(),
    ensures
        final(state).wf(),
        drag_ended(old(state)@, final(state)@, a),
{
    if state.drag.is_none() {
        return EditorAction::Idle;
    }
    state.drag = None;
    state.status = String::from_str("Moved scene item.");
    EditorAction::SyncAndRender
}

/// What event `e` does, from `s` to `t`, and the action `a` it hands back.
pub open spec fn event_stepped(s: EditorView, e: EditorEvent, t: EditorView, a: EditorAction) -> bool {
    match e {
        EditorEvent::MapClick { point, node, edge, zone } => map_clicked(
            s,
            point,
            opt_text(node),
            opt_text(edge),
            opt_text(zone),
            t,
            a,
        ),
        EditorEvent::RightClick { node, edge, vertex } => right_clicked(
            s,
            opt_text(node),
            opt_text(edge),
            vertex,
            t,
            a,
        ),
        EditorEvent::ArmRootZone => zone_armed(s, None, t) && a is Idle,
        EditorEvent::ArmChildZone(p) => child_zone_armed(s, p@, t) && a is Idle,
        EditorEvent::ToggleTool(tool) => tool_toggled(s, tool, t) && a is Idle,
        EditorEvent::JsonText(text) => t == (EditorView { raw_json: text@, ..s }) && a is Idle,
        EditorEvent::JsonLoaded(source, parsed) => json_loaded(s, source, parsed_view(parsed), t, a),
        EditorEvent::NewWorkspace => workspace_reset(s, t) && a is SyncAndRender,
        EditorEvent::LocateRequested => only_status(s, t, "Requesting browser location..."@) && a is Idle,
        EditorEvent::Located(point) => located(s, point, t, a),
        EditorEvent::LocateFailed => only_status(s, t, "Browser location request was denied or failed."@)
            && a is Idle,
        EditorEvent::DragStart(d) => drag_started(s, drag_view(d), t) && a is Idle,
        EditorEvent::DragMove { point, moved_body } => drag_moved(s, point, moved_body@, t, a),
        EditorEvent::DragEnd => drag_ended(s, t, a),
        EditorEvent::ZoneRowClick(id) => zone_row_clicked(s, id@, t, a),
        EditorEvent::NodeRowClick(id) => node_row_clicked(s, id@, t, a),
        EditorEvent::EdgeRowClick(id) => edge_row_clicked(s, id@, t, a),
        EditorEvent::RemoveZone(id) => {
            &&& zone_removed(s.workspace, t.workspace, id@)
            &&& t == (EditorView {
                workspace: t.workspace,
                selection: SelectionView::Workspace,
                status: "Removed zone."@,
                ..s
            })
            &&& a is SyncAndRender
        },
        EditorEvent::RemoveNode(id) => {
            &&& node_removed(s.workspace, t.workspace, id@)
            &&& t == (EditorView {
                workspace: t.workspace,
                selection: SelectionView::Workspace,
                status: "Removed node."@,
                ..s
            })
            &&& a is SyncAndRender
        },
        EditorEvent::RemoveEdge(id) => {
            &&& edge_removed(s.workspace, t.workspace, id@)
            &&& t == (EditorView {
                workspace: t.workspace,
                selection: SelectionView::Workspace,
                status: "Removed edge."@,
                ..s
            })
            &&& a is SyncAndRender
        },
        EditorEvent::MarkerDrag { handle, point, moved_body } => marker_dragged(
            s,
            handle_view(handle),
            point,
            moved_body@,
            t,
            a,
        ),
        EditorEvent::MarkerDragEnd(handle) => marker_released(s, handle_view(handle), t, a),
        EditorEvent::MarkerRightClick(handle) => marker_right_clicked(s, handle_view(handle), t, a),
        EditorEvent::LocateUnavailable(p) => only_status(s, t, locate_problem_text(p)) && a is Idle,
        EditorEvent::SetReferenceMode(_) => workspace_field_set(s, e, t, a),
        EditorEvent::SetRootZoneId(_) => workspace_field_set(s, e, t, a),
        EditorEvent::SetDatumAxis { .. } => workspace_field_set(s, e, t, a),
        EditorEvent::RenameWorkspace(_) => workspace_field_set(s, e, t, a),
        EditorEvent::SwitchAppMode(mode) => app_mode_switched(s, mode, t) && a is Idle,
        EditorEvent::ToggleSchedulerPanel => scheduler_panel_toggled(s, t) && a is Idle,
        EditorEvent::ToggleTasksPanel => tasks_toggled(s, t, a),
        EditorEvent::RobotsListed(robots) => t == (EditorView { robots: robots@, ..s }) && a is Idle,
        EditorEvent::ToggleSchedulerPick => pick_toggled(s, t) && a is Idle,
        EditorEvent::RobotRowClick { name, place } => robot_chosen(s, name@, place, t, a),
        EditorEvent::TasksFetched(r) => tasks_fetched(s, fetched_view(r), t) && a is Idle,
        EditorEvent::ChooseTask(x) => t == (EditorView { scheduler_task: x@, ..s }) && a is Idle,
        EditorEvent::ChooseOrder(x) => t == (EditorView { schedule_task: x@, ..s }) && a is Idle,
        EditorEvent::RunTask { schedule } => run_requested(s, schedule, t, a),
        EditorEvent::ServerReply(text) => only_status(s, t, text@) && a is Idle,
    }
}

/// What one step of the editor does with `e`, from `s` to `t`, and the
/// action `a` it hands back: the event's own effect (`event_stepped`), then
/// what follows from it (`settled`): the scheduler's node pick taking a
/// selected node, and the task panel closing for a robot without tasks.
pub open spec fn editor_stepped(s: EditorView, e: EditorEvent, t: EditorView, a: EditorAction) -> bool {
    exists|m: EditorView| #[trigger] event_stepped(s, e, m, a) && t == settled(m)
}

/// A parsed workspace handed in is well formed (as one read from JSON is:
/// its tables come in key order).
pub open spec fn event_wf(e: EditorEvent) -> bool {
    match e {
        EditorEvent::JsonLoaded(_, Ok(w)) => w.wf(),
        _ => true,
    }
}

impl EditorState {
    /// The editor at start: an empty workspace, selected, in inspect mode,
    /// the files panel open, with `raw_json` as the rendered JSON text.
    pub fn new(raw_json: String) -> (r: Self)
        ensures
            r.wf(),
            blank_workspace(r@.workspace),
            r@ == (EditorView {
                workspace: r@.workspace,
                selection: SelectionView::Workspace,
                mode: EditMode::Inspect,
                edge_source: Seq::empty(),
                draft: Seq::empty(),
                pending_parent: None,
                raw_json: raw_json@,
                status: "Ready. Add a root zone or paste workspace JSON."@,
                panel: Some(RightPanel::Files),
                drag: None,
                app_mode: AppMode::Editor,
                management_panel: None,
                scheduler_picking: false,
                scheduler_target: Seq::empty(),
                selected_robot: Seq::empty(),
                task_options: Seq::empty(),
                scheduler_task: Seq::empty(),
                schedule_task: Seq::empty(),
                robots: Seq::empty(),
            }),
    {
        let r = EditorState {
            workspace: WorkspaceJson::default(),
            selection: Selection::Workspace,
            mode: EditMode::Inspect,
            edge_source_id: String::new(),
            zone_draft: Vec::new(),
            pending_parent: None,
            raw_json,
            status: String::from_str("Ready. Add a root zone or paste workspace JSON."),
            right_panel: Some(RightPanel::Files),
            drag: None,
            app_mode: AppMode::Editor,
            management_panel: None,
            scheduler_picking: false,
            scheduler_target: String::new(),
            selected_robot: String::new(),
            task_options: Vec::new(),
            scheduler_task: String::new(),
            schedule_task: String::new(),
            robots: Vec::new(),
        };
        assert(r.zone_draft@ =~= Seq::<JsonPoint>::empty());
        assert(texts_of(r.task_options@) =~= Seq::<Seq<char>>::empty());
        assert(r.scheduler_target@ =~= Seq::<char>::empty());
        assert(r.selected_robot@ =~= Seq::<char>::empty());
        assert(r.scheduler_task@ =~= Seq::<char>::empty());
        assert(r.schedule_task@ =~= Seq::<char>::empty());
        assert(r.robots@ =~= Seq::<FleetRobot>::empty());
        assert(r.edge_source_id@ =~= Seq::<char>::empty());
        r
    }
}

/// Takes one event: decides what it does to the editor (see
/// `editor_stepped`) and returns what the front end does next.
pub fn editor_step(state: &mut EditorState, event: EditorEvent) -> (action: EditorAction)
    requires
        old(state).wf(),
        old(state).has_room(),
        event_wf(event),
    ensures
        final(state).wf(),
        editor_stepped(old(state)@, event, final(state)@, action),
{
    let ghost s = state@;
    let action = apply_event(state, event);
    let ghost m = state@;
    settle(state);
    assert(event_stepped(s, event, m, action) && state@ == settled(m));
    action
}

fn apply_event(state: &mut EditorState, event: EditorEvent) -> (action: EditorAction)
    requires
        old(state).wf(),
        old(state).has_room(),
        event_wf(event),
    ensures
        final(state).wf(),
        event_stepped(old(state)@, event, final(state)@, action),
{
    match event {
        EditorEvent::MapClick { point, node, edge, zone } => on_map_click(state, point, node, edge, zone),
        EditorEvent::RightClick { node, edge, vertex } => on_right_click(state, node, edge, vertex),
        EditorEvent::ArmRootZone => {
            on_arm_zone(state, None);
            EditorAction::Idle
        },
        EditorEvent::ArmChildZone(p) => {
            on_arm_child_zone(state, p);
            EditorAction::Idle
        },
        EditorEvent::ToggleTool(tool) => {
            on_toggle_tool(state, tool);
            EditorAction::Idle
        },
        EditorEvent::JsonText(text) => {
            state.raw_json = text;
            EditorAction::Idle
        },
        EditorEvent::JsonLoaded(source, parsed) => on_json_loaded(state, source, parsed),
        EditorEvent::NewWorkspace => {
            on_new_workspace(state);
            EditorAction::SyncAndRender
        },
        EditorEvent::LocateRequested => {
            state.status = String::from_str("Requesting browser location...");
            EditorAction::Idle
        },
        EditorEvent::Located(point) => on_located(state, point),
        EditorEvent::LocateFailed => {
            state.status = String::from_str("Browser location request was denied or failed.");
            EditorAction::Idle
        },
        EditorEvent::DragStart(d) => {
            on_drag_start(state, d);
            EditorAction::Idle
        },
        EditorEvent::DragMove { point, moved_body } => on_drag_move(state, point, moved_body),
        EditorEvent::DragEnd => on_drag_end(state),
        EditorEvent::ZoneRowClick(id) => on_zone_row_click(state, id),
        EditorEvent::NodeRowClick(id) => on_node_row_click(state, id),
        EditorEvent::EdgeRowClick(id) => on_edge_row_click(state, id),
        EditorEvent::RemoveZone(id) => {
            remove_zone(&mut state.workspace, id.as_str());
            state.selection = Selection::Workspace;
            state.status = String::from_str("Removed zone.");
            EditorAction::SyncAndRender
        },
        EditorEvent::RemoveNode(id) => {
            remove_node_by_id(&mut state.workspace, id.as_str());
            state.selection = Selection::Workspace;
            state.status = String::from_str("Removed node.");
            EditorAction::SyncAndRender
        },
        EditorEvent::RemoveEdge(id) => {
            remove_edge_by_id(&mut state.workspace, id.as_str());
            state.selection = Selection::Workspace;
            state.status = String::from_str("Removed edge.");
            EditorAction::SyncAndRender
        },
        EditorEvent::MarkerDrag { handle, point, moved_body } => on_marker_drag(state, handle, point, moved_body),
        EditorEvent::MarkerDragEnd(handle) => on_marker_release(state, handle),
        EditorEvent::MarkerRightClick(handle) => on_marker_right_click(state, handle),
        EditorEvent::LocateUnavailable(p) => {
            state.status = locate_problem_message(p);
            EditorAction::Idle
        },
        EditorEvent::SetReferenceMode(local) => {
            crate::inspector::set_reference_mode(&mut state.workspace, local);
            state.status = String::from_str("Updated reference mode.");
            EditorAction::SyncAndRender
        },
        EditorEvent::SetRootZoneId(id) => {
            state.workspace.root_zone_id = id;
            state.status = String::from_str("Updated root zone id.");
            EditorAction::SyncAndRender
        },
        EditorEvent::SetDatumAxis { value, latitude } => {
            crate::inspector::set_datum_axis(&mut state.workspace, value, latitude);
            state.status = if latitude {
                String::from_str("Updated datum latitude.")
            } else {
                String::from_str("Updated datum longitude.")
            };
            EditorAction::SyncAndRender
        },
        EditorEvent::RenameWorkspace(name) => {
            state.workspace.name = name;
            EditorAction::Render
        },
        EditorEvent::SwitchAppMode(mode) => {
            on_switch_app_mode(state, mode);
            EditorAction::Idle
        },
        EditorEvent::ToggleSchedulerPanel => {
            state.management_panel = if state.management_panel == Some(RightPanel::Scheduler) {
                None
            } else {
                Some(RightPanel::Scheduler)
            };
            EditorAction::Idle
        },
        EditorEvent::ToggleTasksPanel => on_toggle_tasks_panel(state),
        EditorEvent::RobotsListed(robots) => {
            state.robots = robots;
            EditorAction::Idle
        },
        EditorEvent::ToggleSchedulerPick => {
            on_toggle_pick(state);
            EditorAction::Idle
        },
        EditorEvent::RobotRowClick { name, place } => on_robot_row_click(state, name, place),
        EditorEvent::TasksFetched(r) => {
            on_tasks_fetched(state, r);
            EditorAction::Idle
        },
        EditorEvent::ChooseTask(x) => {
            state.scheduler_task = x;
            EditorAction::Idle
        },
        EditorEvent::ChooseOrder(x) => {
            state.schedule_task = x;
            EditorAction::Idle
        },
        EditorEvent::RunTask { schedule } => on_run_task(state, schedule),
        EditorEvent::ServerReply(text) => {
            state.status = text;
            EditorAction::Idle
        },
    }
}

/// A click on a row of the zone tree selects the zone; a click on the
/// zone already selected brings it into view.
pub open spec fn zone_row_clicked(s: EditorView, id: Seq<char>, t: EditorView, a: EditorAction) -> bool {
    &&& t == (EditorView { selection: SelectionView::Zone(id), ..s })
    &&& if s.selection == SelectionView::Zone(id) {
        a matches EditorAction::FocusZone(z) && z@ == id
    } else {
        a is Idle
    }
}

/// A click on a node's row: while connecting it picks the node as the
/// source or target (creating the edge); otherwise it selects the node,
/// or brings the node already selected into view.
pub open spec fn node_row_clicked(s: EditorView, id: Seq<char>, t: EditorView, a: EditorAction) -> bool {
    if s.mode == EditMode::ConnectEdge {
        if s.edge_source.len() == 0 {
            &&& t == (EditorView {
                edge_source: id,
                status: "Selected edge source. Pick a target node."@,
                ..s
            })
            &&& a is Idle
        } else if s.edge_source == id {
            t == s && a is Idle
        } else {
            &&& t.selection matches SelectionView::Edge(e) && is_uuid_v4_text(e) && edge_created(
                s.workspace,
                t.workspace,
                e,
                s.edge_source,
                id,
            )
            &&& t == (EditorView {
                workspace: t.workspace,
                selection: t.selection,
                edge_source: Seq::empty(),
                panel: Some(RightPanel::Details),
                status: "Created edge."@,
                ..s
            })
            &&& a is SyncAndRender
        }
    } else if s.selection == SelectionView::Node(id) {
        &&& t == (EditorView { panel: Some(RightPanel::Details), ..s })
        &&& a matches EditorAction::FocusNode(n) && n@ == id
    } else {
        selected(s, t, SelectionView::Node(id), "Node selected."@) && a is Idle
    }
}

/// A click on an edge's row selects it, or brings the edge already
/// selected into view.
pub open spec fn edge_row_clicked(s: EditorView, id: Seq<char>, t: EditorView, a: EditorAction) -> bool {
    if s.selection == SelectionView::Edge(id) {
        &&& t == (EditorView { panel: Some(RightPanel::Details), ..s })
        &&& a matches EditorAction::FocusEdge(e) && e@ == id
    } else {
        selected(s, t, SelectionView::Edge(id), "Edge selected."@) && a is Idle
    }
}

/// Whether `sel` is the zone, node or edge `id` (`kind` 0, 1, 2).
fn selection_is(sel: &Selection, kind: u8, id: &str) -> (r: bool)
    ensures
        r == (match kind {
            0 => selection_view(*sel) == SelectionView::Zone(id@),
            1 => selection_view(*sel) == SelectionView::Node(id@),
            _ => selection_view(*sel) == SelectionView::Edge(id@),
        }),
{
    match sel {
        Selection::Zone(z) => kind == 0 && crate::text::text_eq(z.as_str(), id),
        Selection::Node(n) => kind == 1 && crate::text::text_eq(n.as_str(), id),
        Selection::Edge(e) => kind != 0 && kind != 1 && crate::text::text_eq(e.as_str(), id),
        Selection::Workspace => false,
    }
}

fn on_zone_row_click(state: &mut EditorState, id: String) -> (a: EditorAction)
    requires
        old(state).wf(),
    ensures
        final(state).wf(),
        zone_row_clicked(old(state)@, id@, final(state)@, a),
{
    let again = selection_is(&state.selection, 0, id.as_str());
    state.selection = Selection::Zone(id.clone());
    if again {
        EditorAction::FocusZone(id)
    } else {
        EditorAction::Idle
    }
}

fn on_node_row_click(state: &mut EditorState, id: String) -> (a: EditorAction)
    requires
        old(state).wf(),
    ensures
        final(state).wf(),
        node_row_clicked(old(state)@, id@, final(state)@, a),
{
    if state.mode == EditMode::ConnectEdge {
        let picked = pick_node_for_edge(&mut state.workspace, &mut state.edge_source_id, id.as_str());
        match picked {
            EdgePick::SourceChosen => {
                state.status = String::from_str("Selected edge source. Pick a target node.");
                return EditorAction::Idle;
            },
            EdgePick::Ignored => {
                return EditorAction::Idle;
            },
            EdgePick::Created(e) => {
                assert(state.edge_source_id@ =~= Seq::<char>::empty());
                state.selection = Selection::Edge(e);
                state.right_panel = Some(RightPanel::Details);
                state.status = String::from_str("Created edge.");
                return EditorAction::SyncAndRender;
            },
        }
    }
    if selection_is(&state.selection, 1, id.as_str()) {
        state.right_panel = Some(RightPanel::Details);
        return EditorAction::FocusNode(id);
    }
    select_with(state, Selection::Node(id), "Node selected.");
    EditorAction::Idle
}

fn on_edge_row_click(state: &mut EditorState, id: String) -> (a: EditorAction)
    requires
        old(state).wf(),
    ensures
        final(state).wf(),
        edge_row_clicked(old(state)@, id@, final(state)@, a),
{
    if selection_is(&state.selection, 2, id.as_str()) {
        state.right_panel = Some(RightPanel::Details);
        return EditorAction::FocusEdge(id);
    }
    select_with(state, Selection::Edge(id), "Edge selected.");
    EditorAction::Idle
}

/// A handle the map shows for the selection.
pub enum MarkerHandle {
    /// The selected node.
    Node(String),
    /// Vertex `i` of the selected zone.
    Vertex(String, usize),
    /// The centre of the selected zone, which moves the whole zone.
    Center(String),
}

/// A handle as plain values.
pub enum HandleView {
    Node(Seq<char>),
    Vertex(Seq<char>, nat),
    Center(Seq<char>),
}

pub open spec fn handle_view(h: MarkerHandle) -> HandleView {
    match h {
        MarkerHandle::Node(id) => HandleView::Node(id@),
        MarkerHandle::Vertex(id, i) => HandleView::Vertex(id@, i as nat),
        MarkerHandle::Center(id) => HandleView::Center(id@),
    }
}

/// The handles of a selection: the selected node's, or one for each
/// vertex of the selected zone (in polygon order) and then its centre;
/// none for anything that is not stored.
pub open spec fn handles_for(ws: WorkspaceJson, sel: SelectionView) -> Seq<HandleView> {
    match sel {
        SelectionView::Node(id) => if has_key(ws.nodes@, id) {
            seq![HandleView::Node(id)]
        } else {
            Seq::empty()
        },
        SelectionView::Zone(id) => if has_key(ws.zones@, id) {
            let n = ws.zones@[key_pos(ws.zones@, id)].1.polygon_latlon@.len();
            Seq::new(n, |i: int| HandleView::Vertex(id, i as nat)).push(HandleView::Center(id))
        } else {
            Seq::empty()
        },
        _ => Seq::empty(),
    }
}

/// The handles the map shows for `selection` (see `handles_for`).
pub fn marker_handles(ws: &WorkspaceJson, selection: &Selection) -> (r: Vec<MarkerHandle>)
    requires
        ws.wf(),
    ensures
        r@.map_values(|h: MarkerHandle| handle_view(h)) == handles_for(*ws, selection_view(*selection)),
{
    let mut out: Vec<MarkerHandle> = Vec::new();
    match selection {
        Selection::Node(id) => {
            if crate::keyed::find_key(&ws.nodes, id.as_str()).is_some() {
                out.push(MarkerHandle::Node(id.clone()));
            }
            assert(out@.map_values(|h: MarkerHandle| handle_view(h)) =~= handles_for(*ws, selection_view(*selection)));
        },
        Selection::Zone(id) => {
            if let Some(k) = crate::keyed::find_key(&ws.zones, id.as_str()) {
                let n = ws.zones[k].1.polygon_latlon.len();
                let ghost want = Seq::new(n as nat, |i: int| HandleView::Vertex(id@, i as nat));
                let mut i: usize = 0;
                while i < n
                    invariant
                        i <= n,
                        want == Seq::new(n as nat, |i: int| HandleView::Vertex(id@, i as nat)),
                        out@.map_values(|h: MarkerHandle| handle_view(h)) == want.subrange(0, i as int),
                    decreases n - i,
                {
                    let ghost prev = out@;
                    out.push(MarkerHandle::Vertex(id.clone(), i));
                    assert(out@ == prev.push(out@[prev.len() as int]));
                    assert(handle_view(out@[prev.len() as int]) == HandleView::Vertex(id@, i as nat));
                    assert(out@.map_values(|h: MarkerHandle| handle_view(h)) =~= prev.map_values(
                        |h: MarkerHandle| handle_view(h),
                    ).push(HandleView::Vertex(id@, i as nat)));
                    assert(want.subrange(0, i + 1) =~= want.subrange(0, i as int).push(want[i as int]));
                    i = i + 1;
                }
                out.push(MarkerHandle::Center(id.clone()));
                assert(want.subrange(0, n as int) =~= want);
                assert(out@.map_values(|h: MarkerHandle| handle_view(h)) =~= handles_for(*ws, selection_view(*selection)));
            } else {
                assert(out@.map_values(|h: MarkerHandle| handle_view(h)) =~= handles_for(*ws, selection_view(*selection)));
            }
        },
        _ => {
            assert(out@.map_values(|h: MarkerHandle| handle_view(h)) =~= handles_for(*ws, selection_view(*selection)));
        },
    }
    out
}

/// Dragging a handle to `point` moves the node or the vertex; the centre
/// handle moves the whole zone to `moved_body` (its polygon shifted along).
pub open spec fn marker_dragged(
    s: EditorView,
    h: HandleView,
    point: JsonPoint,
    moved_body: Seq<JsonPoint>,
    t: EditorView,
    a: EditorAction,
) -> bool {
    &&& t == (EditorView { workspace: t.workspace, ..s })
    &&& a is Sync
    &&& match h {
        HandleView::Node(id) => node_moved(s.workspace, t.workspace, id, point),
        HandleView::Vertex(id, i) => {
            &&& vertex_moved(s.workspace, t.workspace, id, i as int, point)
            &&& same_meta(t.workspace, s.workspace)
            &&& t.workspace.nodes@ == s.workspace.nodes@
            &&& t.workspace.edges@ == s.workspace.edges@
        },
        HandleView::Center(id) => zone_reshaped(s.workspace, t.workspace, id, moved_body),
    }
}

/// The status when a handle is let go.
pub open spec fn drag_end_status(h: HandleView) -> Seq<char> {
    match h {
        HandleView::Node(_) => "Moved node."@,
        HandleView::Vertex(_, _) => "Adjusted zone boundary."@,
        HandleView::Center(_) => "Moved zone."@,
    }
}

/// Letting go of a handle reports the move and opens the details.
pub open spec fn marker_released(s: EditorView, h: HandleView, t: EditorView, a: EditorAction) -> bool {
    &&& t == (EditorView { status: drag_end_status(h), panel: Some(RightPanel::Details), ..s })
    &&& a is SyncAndRender
}

/// A right click on a handle removes the node, or the zone vertex (the zone
/// stays selected); the centre handle has no such action.
pub open spec fn marker_right_clicked(s: EditorView, h: HandleView, t: EditorView, a: EditorAction) -> bool {
    match h {
        HandleView::Node(id) => {
            &&& node_removed(s.workspace, t.workspace, id)
            &&& t == (EditorView {
                workspace: t.workspace,
                selection: SelectionView::Workspace,
                status: "Removed node."@,
                ..s
            })
            &&& a is SyncAndRender
        },
        HandleView::Vertex(id, i) => {
            &&& vertex_removed(s.workspace, t.workspace, id, i as int)
            &&& same_meta(t.workspace, s.workspace)
            &&& t.workspace.nodes@ == s.workspace.nodes@
            &&& t.workspace.edges@ == s.workspace.edges@
            &&& t == (EditorView {
                workspace: t.workspace,
                selection: SelectionView::Zone(id),
                status: "Removed zone vertex."@,
                ..s
            })
            &&& a is SyncAndRender
        },
        HandleView::Center(_) => t == s && a is Idle,
    }
}

fn on_marker_drag(state: &mut EditorState, handle: MarkerHandle, point: JsonPoint, moved_body: Vec<JsonPoint>) -> (a:
    EditorAction)
    requires
        old(state).wf(),
    ensures
        final(state).wf(),
        marker_dragged(old(state)@, handle_view(handle), point, moved_body@, final(state)@, a),
{
    match handle {
        MarkerHandle::Node(id) => move_node(&mut state.workspace, id.as_str(), point),
        MarkerHandle::Vertex(id, i) => move_zone_vertex(&mut state.workspace, id.as_str(), i, point),
        MarkerHandle::Center(id) => set_zone_polygon(&mut state.workspace, id.as_str(), moved_body),
    }
    EditorAction::Sync
}

fn on_marker_release(state: &mut EditorState, handle: MarkerHandle) -> (a: EditorAction)
    requires
        old(state).wf(),
    ensures
        final(state).wf(),
        marker_released(old(state)@, handle_view(handle), final(state)@, a),
{
    state.status = match handle {
        MarkerHandle::Node(_) => String::from_str("Moved node."),
        MarkerHandle::Vertex(_, _) => String::from_str("Adjusted zone boundary."),
        MarkerHandle::Center(_) => String::from_str("Moved zone."),
    };
    state.right_panel = Some(RightPanel::Details);
    EditorAction::SyncAndRender
}

fn on_marker_right_click(state: &mut EditorState, handle: MarkerHandle) -> (a: EditorAction)
    requires
        old(state).wf(),
    ensures
        final(state).wf(),
        marker_right_clicked(old(state)@, handle_view(handle), final(state)@, a),
{
    match handle {
        MarkerHandle::Node(id) => {
            remove_node_by_id(&mut state.workspace, id.as_str());
            state.selection = Selection::Workspace;
            state.status = String::from_str("Removed node.");
            EditorAction::SyncAndRender
        },
        MarkerHandle::Vertex(id, i) => {
            remove_zone_vertex(&mut state.workspace, id.as_str(), i);
            state.selection = Selection::Zone(id);
            state.status = String::from_str("Removed zone vertex.");
            EditorAction::SyncAndRender
        },
        MarkerHandle::Center(_) => EditorAction::Idle,
    }
}

/// Why "Locate me" could not ask the browser.
#[derive(Clone, Copy, Debug, PartialEq, Eq, Structural)]
pub enum LocateProblem {
    MapNotReady,
    NoWindow,
    NoNavigator,
    NoGeolocation,
    NoPositionApi,
    /// The answer had no readable coordinates object.
    UnreadableAnswer,
}

pub open spec fn locate_problem_text(p: LocateProblem) -> Seq<char> {
    match p {
        LocateProblem::MapNotReady => "Map is not ready for geolocation yet."@,
        LocateProblem::NoWindow => "Window unavailable for geolocation."@,
        LocateProblem::NoNavigator => "Navigator is unavailable in this browser."@,
        LocateProblem::NoGeolocation => "Geolocation is unavailable in this browser."@,
        LocateProblem::NoPositionApi => "Geolocation API is unavailable."@,
        LocateProblem::UnreadableAnswer => "Failed to read browser location."@,
    }
}

fn locate_problem_message(p: LocateProblem) -> (r: String)
    ensures
        r@ == locate_problem_text(p),
{
    match p {
        LocateProblem::MapNotReady => String::from_str("Map is not ready for geolocation yet."),
        LocateProblem::NoWindow => String::from_str("Window unavailable for geolocation."),
        LocateProblem::NoNavigator => String::from_str("Navigator is unavailable in this browser."),
        LocateProblem::NoGeolocation => String::from_str("Geolocation is unavailable in this browser."),
        LocateProblem::NoPositionApi => String::from_str("Geolocation API is unavailable."),
        LocateProblem::UnreadableAnswer => String::from_str("Failed to read browser location."),
    }
}

/// The edits of the workspace panel: each is made and reported; renaming
/// only renders the JSON text again.
pub open spec fn workspace_field_set(s: EditorView, e: EditorEvent, t: EditorView, a: EditorAction) -> bool {
    match e {
        EditorEvent::SetReferenceMode(local) => {
            &&& t == (EditorView {
                workspace: WorkspaceJson {
                    local_ref: local,
                    coord_mode: if local {
                        crate::workspace::CoordMode::Local
                    } else {
                        crate::workspace::CoordMode::Global
                    },
                    ..s.workspace
                },
                status: "Updated reference mode."@,
                ..s
            })
            &&& a is SyncAndRender
        },
        EditorEvent::SetRootZoneId(id) => {
            &&& t.workspace.root_zone_id@ == id@
            &&& t == (EditorView {
                workspace: WorkspaceJson { root_zone_id: t.workspace.root_zone_id, ..s.workspace },
                status: "Updated root zone id."@,
                ..s
            })
            &&& a is SyncAndRender
        },
        EditorEvent::SetDatumAxis { value, latitude } => {
            &&& t == (EditorView {
                workspace: WorkspaceJson {
                    datum: crate::inspector::datum_with_axis(s.workspace.datum, value, latitude),
                    ..s.workspace
                },
                status: if latitude {
                    "Updated datum latitude."@
                } else {
                    "Updated datum longitude."@
                },
                ..s
            })
            &&& a is SyncAndRender
        },
        EditorEvent::RenameWorkspace(name) => {
            &&& t.workspace.name@ == name@
            &&& t == (EditorView {
                workspace: WorkspaceJson { name: t.workspace.name, ..s.workspace },
                ..s
            })
            &&& a is Render
        },
        _ => true,
    }
}

/// The zone tree's delete button and the inspector's "Delete Zone" both
/// send `RemoveZone`, and what it leads to is one outcome: the workspace is
/// selected, the status says "Removed zone.", membership is synced and the
/// JSON rendered again, everything else of the editor stays, and any two
/// outcomes have workspaces that agree (see
/// `lemma_zone_removal_determined`).
pub proof fn lemma_zone_delete_one_outcome(
    s: EditorView,
    id: String,
    t1: EditorView,
    a1: EditorAction,
    t2: EditorView,
    a2: EditorAction,
)
    requires
        editor_stepped(s, EditorEvent::RemoveZone(id), t1, a1),
        editor_stepped(s, EditorEvent::RemoveZone(id), t2, a2),
    ensures
        a1 is SyncAndRender,
        a2 is SyncAndRender,
        zone_removed(s.workspace, t1.workspace, id@),
        t1 == (EditorView {
            workspace: t1.workspace,
            selection: SelectionView::Workspace,
            status: "Removed zone."@,
            ..crate::management::tasks_settled(s)
        }),
        t1 == (EditorView { workspace: t1.workspace, ..t2 }),
        t1.workspace.root_zone_id@ == t2.workspace.root_zone_id@,
        t1.workspace.nodes@ == t2.workspace.nodes@,
        t1.workspace.edges@ == t2.workspace.edges@,
        as_map(t1.workspace.zones@).dom() == as_map(t2.workspace.zones@).dom(),
        forall|k: Seq<char>| #[trigger]
            as_map(t1.workspace.zones@).contains_key(k) ==> crate::workspace::same_zone(
                as_map(t1.workspace.zones@)[k],
                as_map(t2.workspace.zones@)[k],
            ),
{
    let e = EditorEvent::RemoveZone(id);
    let m1 = choose|m: EditorView| #[trigger] event_stepped(s, e, m, a1) && t1 == settled(m);
    let m2 = choose|m: EditorView| #[trigger] event_stepped(s, e, m, a2) && t2 == settled(m);
    crate::zone_edit::lemma_zone_removal_determined(s.workspace, m1.workspace, m2.workspace, id@);
}

} // verus!
