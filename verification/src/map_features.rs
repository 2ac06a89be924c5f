//! What the map draws: the zone outlines, the selected zone, the polygon
//! being drawn, the nodes, the edges with their lanes and arrows, and the
//! edge being drawn. Each function yields the features of one map layer;
//! turning them into GeoJSON for the map is left to the caller.
use vstd::prelude::*;
use crate::keyed::{find_key, keys_sorted, lookup};
use crate::text::text_eq;
use crate::workspace::{JsonPoint, Selection, WorkspaceJson, ZoneJson};

verus! {

/// Whether the bits are those of a NaN.
pub open spec fn is_nan_bits(x: u64) -> bool {
    (x & 0x7ff0000000000000u64) == 0x7ff0000000000000u64 && (x & 0x000fffffffffffffu64) != 0
}

/// `==` on the `f64` values with these bits: never for a NaN, and the two
/// zeros are equal.
pub open spec fn f64_eq_bits(a: u64, b: u64) -> bool {
    !is_nan_bits(a) && !is_nan_bits(b) && (a == b || ((a & 0x7fffffffffffffffu64) == 0 && (b
        & 0x7fffffffffffffffu64) == 0))
}

/// `==` on two points as `f64` pairs.
pub open spec fn point_eq(a: JsonPoint, b: JsonPoint) -> bool {
    f64_eq_bits(a.lon, b.lon) && f64_eq_bits(a.lat, b.lat)
}

pub fn f64_bits_equal(a: u64, b: u64) -> (r: bool)
    ensures
        r == f64_eq_bits(a, b),
{
    let a_nan = (a & 0x7ff0000000000000u64) == 0x7ff0000000000000u64 && (a & 0x000fffffffffffffu64)
        != 0;
    let b_nan = (b & 0x7ff0000000000000u64) == 0x7ff0000000000000u64 && (b & 0x000fffffffffffffu64)
        != 0;
    !a_nan && !b_nan && (a == b || ((a & 0x7fffffffffffffffu64) == 0 && (b & 0x7fffffffffffffffu64)
        == 0))
}

/// A polygon ring as the map wants it: closed by repeating the first point
/// unless the last already equals it.
pub open spec fn closed_ring(ps: Seq<JsonPoint>) -> Seq<JsonPoint> {
    if ps.len() > 0 && !point_eq(ps[ps.len() - 1], ps[0]) {
        ps.push(ps[0])
    } else {
        ps
    }
}

fn close_ring(ps: &Vec<JsonPoint>) -> (r: Vec<JsonPoint>)
    ensures
        r@ == closed_ring(ps@),
{
    let mut ring = ps.clone();
    assert(ring@ == ps@);
    if ring.len() > 0 {
        let first = ring[0];
        let last = ring[ring.len() - 1];
        if !(f64_bits_equal(last.lon, first.lon) && f64_bits_equal(last.lat, first.lat)) {
            ring.push(first);
        }
    }
    ring
}

/// The id of the selected zone, if a zone is selected.
pub open spec fn selected_zone(sel: Selection) -> Option<Seq<char>> {
    match sel {
        Selection::Zone(id) => Some(id@),
        _ => None,
    }
}

/// Whether the selection is the node with this id.
pub open spec fn node_selected(sel: Selection, id: Seq<char>) -> bool {
    match sel {
        Selection::Node(n) => n@ == id,
        _ => false,
    }
}

/// Whether the selection is the edge with this id.
pub open spec fn edge_selected(sel: Selection, id: Seq<char>) -> bool {
    match sel {
        Selection::Edge(e) => e@ == id,
        _ => false,
    }
}

fn selection_is(sel: &Selection, kind: u8, id: &str) -> (r: bool)
    ensures
        r == match sel {
            Selection::Zone(z) => kind == 0 && z@ == id@,
            Selection::Node(n) => kind == 1 && n@ == id@,
            Selection::Edge(e) => kind == 2 && e@ == id@,
            Selection::Workspace => false,
        },
{
    match sel {
        Selection::Zone(z) => kind == 0 && text_eq(z.as_str(), id),
        Selection::Node(n) => kind == 1 && text_eq(n.as_str(), id),
        Selection::Edge(e) => kind == 2 && text_eq(e.as_str(), id),
        Selection::Workspace => false,
    }
}

/// A zone outline on the map.
pub struct ZoneShape {
    pub id: String,
    /// The zone's name; only the selected zone's layer carries it.
    pub name: Option<String>,
    pub selected: bool,
    pub root: bool,
    pub ring: Vec<JsonPoint>,
}

/// `f` is the outline of zone `z` with the given name and selection mark.
pub open spec fn shape_of(f: ZoneShape, z: ZoneJson, ws: WorkspaceJson, name: Option<Seq<char>>, selected: bool) -> bool {
    &&& f.id@ == z.id@
    &&& match (f.name, name) {
        (Some(a), Some(b)) => a@ == b,
        (None, None) => true,
        _ => false,
    }
    &&& f.selected == selected
    &&& f.root == (z.id@ == ws.root_zone_id@)
    &&& f.ring@ == closed_ring(z.polygon_latlon@)
}

/// The zones of the first `n` entries that the outline layer draws: all
/// but the selected one.
pub open spec fn outlined(ws: WorkspaceJson, sel: Option<Seq<char>>, n: nat) -> Seq<ZoneJson>
    decreases n,
{
    if n == 0 {
        Seq::empty()
    } else {
        let prev = outlined(ws, sel, (n - 1) as nat);
        let z = ws.zones@[n - 1].1;
        if sel == Some(z.id@) {
            prev
        } else {
            prev.push(z)
        }
    }
}

/// The outlines of every zone but the selected one, in key order.
pub fn zone_shapes(workspace: &WorkspaceJson, selection: &Selection) -> (r: Vec<ZoneShape>)
    ensures
        ({
            let zs = outlined(*workspace, selected_zone(*selection), workspace.zones@.len());
            &&& r@.len() == zs.len()
            &&& forall|i: int| 0 <= i < zs.len() ==> shape_of(#[trigger] r@[i], zs[i], *workspace, None, false)
        }),
{
    let mut out: Vec<ZoneShape> = Vec::new();
    let mut i: usize = 0;
    while i < workspace.zones.len()
        invariant
            i <= workspace.zones@.len(),
            ({
                let zs = outlined(*workspace, selected_zone(*selection), i as nat);
                &&& out@.len() == zs.len()
                &&& forall|m: int| 0 <= m < zs.len() ==> shape_of(#[trigger] out@[m], zs[m], *workspace, None, false)
            }),
        decreases workspace.zones@.len() - i,
    {
        let z = &workspace.zones[i].1;
        if !selection_is(selection, 0, z.id.as_str()) {
            let shape = ZoneShape {
                id: z.id.clone(),
                name: None,
                selected: false,
                root: text_eq(z.id.as_str(), workspace.root_zone_id.as_str()),
                ring: close_ring(&z.polygon_latlon),
            };
            out.push(shape);
        }
        i = i + 1;
    }
    out
}

/// The outline of the selected zone (looked up by key), with its name; none
/// when no stored zone is selected.
pub fn selected_zone_shapes(workspace: &WorkspaceJson, selection: &Selection) -> (r: Vec<ZoneShape>)
    requires
        keys_sorted(workspace.zones@),
    ensures
        match selected_zone(*selection) {
            Some(id) => match lookup(workspace.zones@, id) {
                Some(z) => r@.len() == 1 && shape_of(r@[0], z, *workspace, Some(z.name@), true),
                None => r@.len() == 0,
            },
            None => r@.len() == 0,
        },
{
    let mut out: Vec<ZoneShape> = Vec::new();
    match selection {
        Selection::Zone(zone_id) => {
            match find_key(&workspace.zones, zone_id.as_str()) {
                Some(k) => {
                    let z = &workspace.zones[k].1;
                    out.push(
                        ZoneShape {
                            id: z.id.clone(),
                            name: Some(z.name.clone()),
                            selected: true,
                            root: text_eq(z.id.as_str(), workspace.root_zone_id.as_str()),
                            ring: close_ring(&z.polygon_latlon),
                        },
                    );
                },
                None => {},
            }
        },
        _ => {},
    }
    out
}

/// A feature of the polygon being drawn.
pub enum DraftFeature {
    /// The points drawn so far, joined up.
    Line(Vec<JsonPoint>),
    /// The area the points enclose, as a closed ring.
    Fill(Vec<JsonPoint>),
    /// One drawn point and its place in the list.
    Point(usize, JsonPoint),
}

/// `f` is the line through `ps`.
pub open spec fn is_line(f: DraftFeature, ps: Seq<JsonPoint>) -> bool {
    f matches DraftFeature::Line(v) && v@ == ps
}

/// `f` is the area inside the closed ring `ps`.
pub open spec fn is_fill(f: DraftFeature, ps: Seq<JsonPoint>) -> bool {
    f matches DraftFeature::Fill(v) && v@ == ps
}

/// `f` is drawn point number `k`, at `p`.
pub open spec fn is_point(f: DraftFeature, k: int, p: JsonPoint) -> bool {
    f matches DraftFeature::Point(a, b) && a == k && b == p
}

/// The features of a polygon being drawn: a line once there are two
/// points, an area once there are three, and every point with its index.
pub fn zone_draft_features(points: &Vec<JsonPoint>) -> (r: Vec<DraftFeature>)
    ensures
        ({
            let n = points@.len();
            let line = if n >= 2 { 1int } else { 0int };
            let fill = if n >= 3 { 1int } else { 0int };
            &&& r@.len() == line + fill + n
            &&& n >= 2 ==> is_line(r@[0], points@)
            &&& n >= 3 ==> is_fill(r@[1], points@.push(points@[0]))
            &&& forall|i: int| 0 <= i < n ==> is_point(r@[line + fill + i], i, #[trigger] points@[i])
        }),
{
    let mut out: Vec<DraftFeature> = Vec::new();
    if points.len() >= 2 {
        out.push(DraftFeature::Line(points.clone()));
    }
    if points.len() >= 3 {
        let mut ring = points.clone();
        ring.push(points[0]);
        out.push(DraftFeature::Fill(ring));
    }
    let base = out.len();
    let mut i: usize = 0;
    while i < points.len()
        invariant
            i <= points@.len(),
            base == (if points@.len() >= 2 { 1int } else { 0int }) + (if points@.len() >= 3 { 1int } else { 0int }),
            out@.len() == base + i,
            points@.len() >= 2 ==> is_line(out@[0], points@),
            points@.len() >= 3 ==> is_fill(out@[1], points@.push(points@[0])),
            forall|m: int| 0 <= m < i ==> is_point(out@[base + m], m, #[trigger] points@[m]),
        decreases points@.len() - i,
    {
        out.push(DraftFeature::Point(i, points[i]));
        i = i + 1;
    }
    out
}

/// A node on the map.
pub struct NodeMarker {
    pub id: String,
    pub selected: bool,
    /// The node is the start of the edge being drawn.
    pub edge_source: bool,
    pub hovered: bool,
    pub at: JsonPoint,
}

/// The markers of all nodes, in key order.
pub fn node_markers(
    workspace: &WorkspaceJson,
    selection: &Selection,
    edge_source_id: &str,
    hovered_node_id: &str,
) -> (r: Vec<NodeMarker>)
    ensures
        r@.len() == workspace.nodes@.len(),
        forall|i: int|
            0 <= i < r@.len() ==> {
                let n = workspace.nodes@[i].1;
                &&& (#[trigger] r@[i]).id@ == n.id@
                &&& r@[i].selected == node_selected(*selection, n.id@)
                &&& r@[i].edge_source == (edge_source_id@ == n.id@)
                &&& r@[i].hovered == (hovered_node_id@ == n.id@)
                &&& r@[i].at == n.latlon
            },
{
    let mut out: Vec<NodeMarker> = Vec::new();
    let mut i: usize = 0;
    while i < workspace.nodes.len()
        invariant
            i <= workspace.nodes@.len(),
            out@.len() == i,
            forall|m: int|
                0 <= m < i ==> {
                    let n = workspace.nodes@[m].1;
                    &&& (#[trigger] out@[m]).id@ == n.id@
                    &&& out@[m].selected == node_selected(*selection, n.id@)
                    &&& out@[m].edge_source == (edge_source_id@ == n.id@)
                    &&& out@[m].hovered == (hovered_node_id@ == n.id@)
                    &&& out@[m].at == n.latlon
                },
        decreases workspace.nodes@.len() - i,
    {
        let n = &workspace.nodes[i].1;
        out.push(
            NodeMarker {
                id: n.id.clone(),
                selected: selection_is(selection, 1, n.id.as_str()),
                edge_source: text_eq(edge_source_id, n.id.as_str()),
                hovered: text_eq(hovered_node_id, n.id.as_str()),
                at: n.latlon,
            },
        );
        i = i + 1;
    }
    out
}

/// The line from the start of the edge being drawn to the pointer, when
/// the start is a stored node and the pointer is on the map.
pub fn edge_preview(workspace: &WorkspaceJson, edge_source_id: &str, pointer: Option<JsonPoint>) -> (r:
    Option<(JsonPoint, JsonPoint)>)
    requires
        keys_sorted(workspace.nodes@),
    ensures
        r == match (lookup(workspace.nodes@, edge_source_id@), pointer) {
            (Some(n), Some(p)) => Some((n.latlon, p)),
            _ => None,
        },
{
    match (find_key(&workspace.nodes, edge_source_id), pointer) {
        (Some(k), Some(p)) => Some((workspace.nodes[k].1.latlon, p)),
        _ => None,
    }
}

/// One drawn lane of an edge.
pub struct EdgeLine {
    pub id: String,
    pub directed: bool,
    pub selected: bool,
    pub hovered: bool,
    /// How far the lane is drawn beside the centre line (in pixels).
    pub lane_offset: u8,
    pub from: JsonPoint,
    pub to: JsonPoint,
}

/// A lane by its values.
pub open spec fn line_view(l: EdgeLine) -> (Seq<char>, bool, bool, bool, u8, JsonPoint, JsonPoint) {
    (l.id@, l.directed, l.selected, l.hovered, l.lane_offset, l.from, l.to)
}

/// The lanes of the first `n` edges: none for an edge whose end is not a
/// stored node, one (offset 0) for a directed edge, and two (offset 3, one
/// each way) for an undirected one.
pub open spec fn edge_lanes(ws: WorkspaceJson, sel: Selection, hovered: Seq<char>, n: nat) -> Seq<
    (Seq<char>, bool, bool, bool, u8, JsonPoint, JsonPoint),
>
    decreases n,
{
    if n == 0 {
        Seq::empty()
    } else {
        let prev = edge_lanes(ws, sel, hovered, (n - 1) as nat);
        let e = ws.edges@[n - 1].1;
        let s = edge_selected(sel, e.id@);
        let h = hovered == e.id@;
        match (lookup(ws.nodes@, e.source_id@), lookup(ws.nodes@, e.target_id@)) {
            (Some(a), Some(b)) => if e.directed {
                prev.push((e.id@, true, s, h, 0u8, a.latlon, b.latlon))
            } else {
                prev.push((e.id@, false, s, h, 3u8, a.latlon, b.latlon)).push(
                    (e.id@, false, s, h, 3u8, b.latlon, a.latlon),
                )
            },
            _ => prev,
        }
    }
}

/// The lanes of all edges, in key order (see `edge_lanes`).
pub fn edge_lines(workspace: &WorkspaceJson, selection: &Selection, hovered_edge_id: &str) -> (r: Vec<
    EdgeLine,
>)
    requires
        keys_sorted(workspace.nodes@),
    ensures
        r@.map_values(|l: EdgeLine| line_view(l)) == edge_lanes(
            *workspace,
            *selection,
            hovered_edge_id@,
            workspace.edges@.len(),
        ),
{
    let mut out: Vec<EdgeLine> = Vec::new();
    let mut i: usize = 0;
    while i < workspace.edges.len()
        invariant
            keys_sorted(workspace.nodes@),
            i <= workspace.edges@.len(),
            out@.map_values(|l: EdgeLine| line_view(l)) == edge_lanes(
                *workspace,
                *selection,
                hovered_edge_id@,
                i as nat,
            ),
        decreases workspace.edges@.len() - i,
    {
        let e = &workspace.edges[i].1;
        let ghost before = out@.map_values(|l: EdgeLine| line_view(l));
        match (find_key(&workspace.nodes, e.source_id.as_str()), find_key(&workspace.nodes, e.target_id.as_str())) {
            (Some(a), Some(b)) => {
                let s = selection_is(selection, 2, e.id.as_str());
                let h = text_eq(hovered_edge_id, e.id.as_str());
                let pa = workspace.nodes[a].1.latlon;
                let pb = workspace.nodes[b].1.latlon;
                if e.directed {
                    out.push(EdgeLine { id: e.id.clone(), directed: true, selected: s, hovered: h, lane_offset: 0, from: pa, to: pb });
                    assert(out@.map_values(|l: EdgeLine| line_view(l)) =~= before.push((e.id@, true, s, h, 0u8, pa, pb)));
                } else {
                    out.push(EdgeLine { id: e.id.clone(), directed: false, selected: s, hovered: h, lane_offset: 3, from: pa, to: pb });
                    out.push(EdgeLine { id: e.id.clone(), directed: false, selected: s, hovered: h, lane_offset: 3, from: pb, to: pa });
                    assert(out@.map_values(|l: EdgeLine| line_view(l)) =~= before.push((e.id@, false, s, h, 3u8, pa, pb)).push((e.id@, false, s, h, 3u8, pb, pa)));
                }
            },
            _ => {},
        }
        i = i + 1;
    }
    out
}

/// A directed edge whose arrowhead the map draws; the arrowhead's shape is
/// worked out from the two ends.
pub struct EdgeArrow {
    pub id: String,
    pub selected: bool,
    pub hovered: bool,
    pub from: JsonPoint,
    pub to: JsonPoint,
}

pub open spec fn arrow_view(a: EdgeArrow) -> (Seq<char>, bool, bool, JsonPoint, JsonPoint) {
    (a.id@, a.selected, a.hovered, a.from, a.to)
}

/// The arrows of the first `n` edges: one for each directed edge whose ends
/// are stored nodes.
pub open spec fn edge_arrow_spec(ws: WorkspaceJson, sel: Selection, hovered: Seq<char>, n: nat) -> Seq<
    (Seq<char>, bool, bool, JsonPoint, JsonPoint),
>
    decreases n,
{
    if n == 0 {
        Seq::empty()
    } else {
        let prev = edge_arrow_spec(ws, sel, hovered, (n - 1) as nat);
        let e = ws.edges@[n - 1].1;
        match (lookup(ws.nodes@, e.source_id@), lookup(ws.nodes@, e.target_id@)) {
            (Some(a), Some(b)) => if e.directed {
                prev.push((e.id@, edge_selected(sel, e.id@), hovered == e.id@, a.latlon, b.latlon))
            } else {
                prev
            },
            _ => prev,
        }
    }
}

/// The arrows of all directed edges, in key order.
pub fn edge_arrows(workspace: &WorkspaceJson, selection: &Selection, hovered_edge_id: &str) -> (r: Vec<
    EdgeArrow,
>)
    requires
        keys_sorted(workspace.nodes@),
    ensures
        r@.map_values(|a: EdgeArrow| arrow_view(a)) == edge_arrow_spec(
            *workspace,
            *selection,
            hovered_edge_id@,
            workspace.edges@.len(),
        ),
{
    let mut out: Vec<EdgeArrow> = Vec::new();
    let mut i: usize = 0;
    while i < workspace.edges.len()
        invariant
            keys_sorted(workspace.nodes@),
            i <= workspace.edges@.len(),
            out@.map_values(|a: EdgeArrow| arrow_view(a)) == edge_arrow_spec(
                *workspace,
                *selection,
                hovered_edge_id@,
                i as nat,
            ),
        decreases workspace.edges@.len() - i,
    {
        let e = &workspace.edges[i].1;
        let ghost before = out@.map_values(|a: EdgeArrow| arrow_view(a));
        if e.directed {
            match (find_key(&workspace.nodes, e.source_id.as_str()), find_key(&workspace.nodes, e.target_id.as_str())) {
                (Some(a), Some(b)) => {
                    let s = selection_is(selection, 2, e.id.as_str());
                    let h = text_eq(hovered_edge_id, e.id.as_str());
                    let pa = workspace.nodes[a].1.latlon;
                    let pb = workspace.nodes[b].1.latlon;
                    out.push(EdgeArrow { id: e.id.clone(), selected: s, hovered: h, from: pa, to: pb });
                    assert(out@.map_values(|a: EdgeArrow| arrow_view(a)) =~= before.push((e.id@, s, h, pa, pb)));
                },
                _ => {},
            }
        }
        i = i + 1;
    }
    out
}

} // verus!
