//! The `workspace.json` model: zones in a hierarchy, graph nodes and edges,
//! each kept in key order as the JSON maps are.
//!
//! Coordinates and other real numbers are carried as the IEEE-754 bit
//! patterns of the `f64` values (`f64::to_bits`); nothing here computes
//! with them.
use vstd::prelude::*;
use crate::keyed::{as_map, has_key, key_pos, keys_of, keys_sorted, lookup};
use crate::text::text_eq;

verus! {

/// A point in latitude and longitude (bit patterns of the degrees).
#[derive(Clone, Copy, Debug, PartialEq, Eq, Structural)]
pub struct JsonPoint {
    pub lat: u64,
    pub lon: u64,
}

/// How the workspace's coordinates are read.
#[derive(Clone, Copy, Debug, PartialEq, Eq, Structural)]
pub enum CoordMode {
    Global,
    Local,
}

impl Default for CoordMode {
    fn default() -> (r: Self)
        ensures
            r == CoordMode::Global,
    {
        CoordMode::Global
    }
}

/// A text property table: keys in order, each once.
pub type Properties = Vec<(String, String)>;

pub struct ZoneJson {
    pub id: String,
    pub name: String,
    pub zone_type: String,
    pub parent_id: String,
    pub child_ids: Vec<String>,
    pub node_ids: Vec<String>,
    pub polygon_latlon: Vec<JsonPoint>,
    pub grid_enabled: bool,
    pub grid_resolution: u64,
    pub properties: Properties,
}

pub struct NodeJson {
    pub id: String,
    pub name: String,
    pub latlon: JsonPoint,
    pub zone_ids: Vec<String>,
    pub properties: Properties,
}

pub struct EdgeJson {
    pub id: String,
    pub source_id: String,
    pub target_id: String,
    pub directed: bool,
    pub weight: u64,
    pub zone_ids: Vec<String>,
    pub properties: Properties,
}

pub struct WorkspaceJson {
    pub name: String,
    pub root_zone_id: String,
    pub coord_mode: CoordMode,
    pub ref_point: Option<JsonPoint>,
    pub local_ref: bool,
    pub datum: Option<JsonPoint>,
    pub zones: Vec<(String, ZoneJson)>,
    pub nodes: Vec<(String, NodeJson)>,
    pub edges: Vec<(String, EdgeJson)>,
}

/// What the editor has selected.
pub enum Selection {
    Workspace,
    Zone(String),
    Node(String),
    Edge(String),
}

pub open spec fn texts_of(v: Seq<String>) -> Seq<Seq<char>> {
    v.map_values(|s: String| s@)
}

pub open spec fn props_of(v: Seq<(String, String)>) -> Seq<(Seq<char>, Seq<char>)> {
    v.map_values(|p: (String, String)| (p.0@, p.1@))
}

/// Two zones hold the same values.
pub open spec fn same_zone(a: ZoneJson, b: ZoneJson) -> bool {
    &&& a.id@ == b.id@
    &&& a.name@ == b.name@
    &&& a.zone_type@ == b.zone_type@
    &&& a.parent_id@ == b.parent_id@
    &&& texts_of(a.child_ids@) == texts_of(b.child_ids@)
    &&& texts_of(a.node_ids@) == texts_of(b.node_ids@)
    &&& a.polygon_latlon@ == b.polygon_latlon@
    &&& a.grid_enabled == b.grid_enabled
    &&& a.grid_resolution == b.grid_resolution
    &&& props_of(a.properties@) == props_of(b.properties@)
}

pub open spec fn same_node(a: NodeJson, b: NodeJson) -> bool {
    &&& a.id@ == b.id@
    &&& a.name@ == b.name@
    &&& a.latlon == b.latlon
    &&& texts_of(a.zone_ids@) == texts_of(b.zone_ids@)
    &&& props_of(a.properties@) == props_of(b.properties@)
}

pub open spec fn same_edge(a: EdgeJson, b: EdgeJson) -> bool {
    &&& a.id@ == b.id@
    &&& a.source_id@ == b.source_id@
    &&& a.target_id@ == b.target_id@
    &&& a.directed == b.directed
    &&& a.weight == b.weight
    &&& texts_of(a.zone_ids@) == texts_of(b.zone_ids@)
    &&& props_of(a.properties@) == props_of(b.properties@)
}

/// A copy of a list of texts.
pub fn clone_texts(v: &Vec<String>) -> (r: Vec<String>)
    ensures
        r@ == v@,
{
    let mut out: Vec<String> = Vec::new();
    let mut i: usize = 0;
    while i < v.len()
        invariant
            i <= v@.len(),
            out@ == v@.subrange(0, i as int),
        decreases v@.len() - i,
    {
        out.push(v[i].clone());
        i = i + 1;
        assert(out@ =~= v@.subrange(0, i as int));
    }
    assert(v@.subrange(0, v@.len() as int) =~= v@);
    out
}

/// A copy of a property table.
pub fn clone_props(v: &Properties) -> (r: Properties)
    ensures
        r@ == v@,
{
    let mut out: Vec<(String, String)> = Vec::new();
    let mut i: usize = 0;
    while i < v.len()
        invariant
            i <= v@.len(),
            out@ == v@.subrange(0, i as int),
        decreases v@.len() - i,
    {
        let (a, b) = (v[i].0.clone(), v[i].1.clone());
        out.push((a, b));
        i = i + 1;
        assert(out@ =~= v@.subrange(0, i as int));
    }
    assert(v@.subrange(0, v@.len() as int) =~= v@);
    out
}

/// A copy of a list of points.
pub fn clone_points(v: &Vec<JsonPoint>) -> (r: Vec<JsonPoint>)
    ensures
        r@ == v@,
{
    let mut out: Vec<JsonPoint> = Vec::new();
    let mut i: usize = 0;
    while i < v.len()
        invariant
            i <= v@.len(),
            out@ == v@.subrange(0, i as int),
        decreases v@.len() - i,
    {
        out.push(v[i]);
        i = i + 1;
        assert(out@ =~= v@.subrange(0, i as int));
    }
    assert(v@.subrange(0, v@.len() as int) =~= v@);
    out
}

impl Clone for ZoneJson {
    fn clone(&self) -> (r: Self)
        ensures
            same_zone(r, *self),
            r.child_ids@ == self.child_ids@,
            r.node_ids@ == self.node_ids@,
            r.properties@ == self.properties@,
    {
        ZoneJson {
            id: self.id.clone(),
            name: self.name.clone(),
            zone_type: self.zone_type.clone(),
            parent_id: self.parent_id.clone(),
            child_ids: clone_texts(&self.child_ids),
            node_ids: clone_texts(&self.node_ids),
            polygon_latlon: clone_points(&self.polygon_latlon),
            grid_enabled: self.grid_enabled,
            grid_resolution: self.grid_resolution,
            properties: clone_props(&self.properties),
        }
    }
}

impl Clone for NodeJson {
    fn clone(&self) -> (r: Self)
        ensures
            same_node(r, *self),
            r.zone_ids@ == self.zone_ids@,
            r.properties@ == self.properties@,
    {
        NodeJson {
            id: self.id.clone(),
            name: self.name.clone(),
            latlon: self.latlon,
            zone_ids: clone_texts(&self.zone_ids),
            properties: clone_props(&self.properties),
        }
    }
}

impl Clone for EdgeJson {
    fn clone(&self) -> (r: Self)
        ensures
            same_edge(r, *self),
            r.zone_ids@ == self.zone_ids@,
            r.properties@ == self.properties@,
    {
        EdgeJson {
            id: self.id.clone(),
            source_id: self.source_id.clone(),
            target_id: self.target_id.clone(),
            directed: self.directed,
            weight: self.weight,
            zone_ids: clone_texts(&self.zone_ids),
            properties: clone_props(&self.properties),
        }
    }
}

impl WorkspaceJson {
    /// Every table is in key order.
    pub open spec fn wf(&self) -> bool {
        &&& keys_sorted(self.zones@)
        &&& keys_sorted(self.nodes@)
        &&& keys_sorted(self.edges@)
        &&& forall|i: int|
            0 <= i < self.zones@.len() ==> keys_sorted((#[trigger] self.zones@[i]).1.properties@)
        &&& forall|i: int|
            0 <= i < self.nodes@.len() ==> keys_sorted((#[trigger] self.nodes@[i]).1.properties@)
        &&& forall|i: int|
            0 <= i < self.edges@.len() ==> keys_sorted((#[trigger] self.edges@[i]).1.properties@)
    }
}

/// The keys of the zone table, as a set.
pub open spec fn zone_keys(zs: Seq<(String, ZoneJson)>) -> Set<Seq<char>> {
    keys_of(zs).to_set()
}

/// The zones reached from `id` by a depth-first walk down `child_ids`
/// that skips ids already in `visited` (each zone once, parent before its
/// children, children in list order); with the visited set afterwards.
/// `fuel` bounds the depth; the walk never needs more than one level per
/// zone.
pub open spec fn dfs(
    zs: Seq<(String, ZoneJson)>,
    id: Seq<char>,
    visited: Set<Seq<char>>,
    fuel: nat,
) -> (Seq<ZoneJson>, Set<Seq<char>>)
    decreases fuel, 0nat,
{
    if fuel == 0 {
        (Seq::empty(), visited)
    } else {
        match lookup(zs, id) {
            None => (Seq::empty(), visited),
            Some(z) => if visited.contains(id) {
                (Seq::empty(), visited)
            } else {
                let r = dfs_all(zs, texts_of(z.child_ids@), visited.insert(id), (fuel - 1) as nat);
                (seq![z] + r.0, r.1)
            },
        }
    }
}

/// `dfs` over a list of ids, left to right, threading the visited set.
pub open spec fn dfs_all(
    zs: Seq<(String, ZoneJson)>,
    ids: Seq<Seq<char>>,
    visited: Set<Seq<char>>,
    fuel: nat,
) -> (Seq<ZoneJson>, Set<Seq<char>>)
    decreases fuel, ids.len(),
{
    if ids.len() == 0 {
        (Seq::empty(), visited)
    } else {
        let a = dfs(zs, ids[0], visited, fuel);
        let b = dfs_all(zs, ids.subrange(1, ids.len() as int), a.1, fuel);
        (a.0 + b.0, b.1)
    }
}

/// The zones of the workspace in tree order: the walk from the root zone
/// (nothing when the root id is empty).
pub open spec fn zone_order(ws: WorkspaceJson) -> Seq<ZoneJson> {
    if ws.root_zone_id@.len() == 0 {
        Seq::empty()
    } else {
        dfs(ws.zones@, ws.root_zone_id@, Set::empty(), (ws.zones@.len() + 1) as nat).0
    }
}

/// Every zone is stored under its own id.
pub open spec fn keyed_by_id(zs: Seq<(String, ZoneJson)>) -> bool {
    forall|i: int| 0 <= i < zs.len() ==> (#[trigger] zs[i]).1.id@ == zs[i].0@
}

/// What a walk from `id` yields: zones newly visited, each once.
proof fn lemma_dfs_once(zs: Seq<(String, ZoneJson)>, id: Seq<char>, visited: Set<Seq<char>>, fuel: nat)
    requires
        keys_sorted(zs),
        keyed_by_id(zs),
    ensures
        visited.subset_of(dfs(zs, id, visited, fuel).1),
        forall|i: int|
            0 <= i < dfs(zs, id, visited, fuel).0.len() ==> dfs(zs, id, visited, fuel).1.contains(
                (#[trigger] dfs(zs, id, visited, fuel).0[i]).id@,
            ) && !visited.contains(dfs(zs, id, visited, fuel).0[i].id@),
        forall|i: int, j: int|
            0 <= i < j < dfs(zs, id, visited, fuel).0.len() ==> (#[trigger] dfs(zs, id, visited, fuel).0[i]).id@
                != (#[trigger] dfs(zs, id, visited, fuel).0[j]).id@,
    decreases fuel, 0nat,
{
    if fuel > 0 {
        match lookup(zs, id) {
            None => {},
            Some(z) => {
                if !visited.contains(id) {
                    let k = key_pos(zs, id);
                    assert(zs[k].1.id@ == zs[k].0@);
                    let v1 = visited.insert(id);
                    let r = dfs_all(zs, texts_of(z.child_ids@), v1, (fuel - 1) as nat);
                    lemma_dfs_all_once(zs, texts_of(z.child_ids@), v1, (fuel - 1) as nat);
                    let out = seq![z] + r.0;
                    assert(dfs(zs, id, visited, fuel).0 == out);
                    assert forall|i: int| 0 <= i < out.len() implies r.1.contains((#[trigger] out[i]).id@)
                        && !visited.contains(out[i].id@) by {
                        if i > 0 {
                            assert(out[i] == r.0[i - 1]);
                        }
                    }
                    assert forall|i: int, j: int| 0 <= i < j < out.len() implies (#[trigger] out[i]).id@
                        != (#[trigger] out[j]).id@ by {
                        assert(out[j] == r.0[j - 1]);
                        if i > 0 {
                            assert(out[i] == r.0[i - 1]);
                        }
                    }
                }
            },
        }
    }
}

/// What a walk over a list of ids yields: zones newly visited, each once.
proof fn lemma_dfs_all_once(
    zs: Seq<(String, ZoneJson)>,
    ids: Seq<Seq<char>>,
    visited: Set<Seq<char>>,
    fuel: nat,
)
    requires
        keys_sorted(zs),
        keyed_by_id(zs),
    ensures
        visited.subset_of(dfs_all(zs, ids, visited, fuel).1),
        forall|i: int|
            0 <= i < dfs_all(zs, ids, visited, fuel).0.len() ==> dfs_all(zs, ids, visited, fuel).1.contains(
                (#[trigger] dfs_all(zs, ids, visited, fuel).0[i]).id@,
            ) && !visited.contains(dfs_all(zs, ids, visited, fuel).0[i].id@),
        forall|i: int, j: int|
            0 <= i < j < dfs_all(zs, ids, visited, fuel).0.len() ==> (#[trigger] dfs_all(
                zs,
                ids,
                visited,
                fuel,
            ).0[i]).id@ != (#[trigger] dfs_all(zs, ids, visited, fuel).0[j]).id@,
    decreases fuel, ids.len(),
{
    if ids.len() > 0 {
        let a = dfs(zs, ids[0], visited, fuel);
        let rest = ids.subrange(1, ids.len() as int);
        let b = dfs_all(zs, rest, a.1, fuel);
        lemma_dfs_once(zs, ids[0], visited, fuel);
        lemma_dfs_all_once(zs, rest, a.1, fuel);
        let out = a.0 + b.0;
        assert(dfs_all(zs, ids, visited, fuel).0 == out);
        assert forall|i: int| 0 <= i < out.len() implies b.1.contains((#[trigger] out[i]).id@)
            && !visited.contains(out[i].id@) by {
            if i < a.0.len() {
                assert(out[i] == a.0[i]);
            } else {
                assert(out[i] == b.0[i - a.0.len()]);
            }
        }
        assert forall|i: int, j: int| 0 <= i < j < out.len() implies (#[trigger] out[i]).id@
            != (#[trigger] out[j]).id@ by {
            if j < a.0.len() {
                assert(out[i] == a.0[i] && out[j] == a.0[j]);
            } else if i >= a.0.len() {
                assert(out[i] == b.0[i - a.0.len()] && out[j] == b.0[j - a.0.len()]);
            } else {
                assert(out[i] == a.0[i] && out[j] == b.0[j - a.0.len()]);
            }
        }
    }
}

/// The tree order lists each zone at most once (zones stored under their
/// own ids; cycles in `child_ids` are cut where they close).
pub proof fn lemma_tree_order_once(ws: WorkspaceJson)
    requires
        keys_sorted(ws.zones@),
        keyed_by_id(ws.zones@),
    ensures
        forall|i: int, j: int|
            0 <= i < j < zone_order(ws).len() ==> (#[trigger] zone_order(ws)[i]).id@ != (#[trigger] zone_order(
                ws,
            )[j]).id@,
{
    if ws.root_zone_id@.len() > 0 {
        lemma_dfs_once(ws.zones@, ws.root_zone_id@, Set::empty(), (ws.zones@.len() + 1) as nat);
    }
}

/// Two zone tables with the same keys, ids and child lists, position by
/// position.
pub open spec fn same_tree(a: Seq<(String, ZoneJson)>, b: Seq<(String, ZoneJson)>) -> bool {
    &&& a.len() == b.len()
    &&& forall|i: int|
        0 <= i < a.len() ==> (#[trigger] a[i]).0@ == b[i].0@ && a[i].1.id@ == b[i].1.id@ && texts_of(
            a[i].1.child_ids@,
        ) == texts_of(b[i].1.child_ids@)
}

/// The ids of a list of zones.
pub open spec fn ids_of(ord: Seq<ZoneJson>) -> Seq<Seq<char>> {
    ord.map_values(|z: ZoneJson| z.id@)
}

/// Tables with the same keys (sorted) find a key at the same position.
proof fn lemma_same_tree_lookup(a: Seq<(String, ZoneJson)>, b: Seq<(String, ZoneJson)>, id: Seq<char>)
    requires
        keys_sorted(a),
        keys_sorted(b),
        same_tree(a, b),
    ensures
        has_key(a, id) == has_key(b, id),
        has_key(a, id) ==> key_pos(a, id) == key_pos(b, id) && 0 <= key_pos(a, id) < a.len(),
{
    if has_key(a, id) {
        let p = key_pos(a, id);
        assert(b[p].0@ == id);
        assert(has_key(b, id));
        let r = key_pos(b, id);
        assert(a[r].0@ == id);
        crate::keyed::lemma_sorted_unique(a, p, r);
    } else if has_key(b, id) {
        let r = key_pos(b, id);
        assert(a[r].0@ == id);
    }
}

/// The walk depends on the keys, ids and child lists alone.
proof fn lemma_dfs_same_tree(
    a: Seq<(String, ZoneJson)>,
    b: Seq<(String, ZoneJson)>,
    id: Seq<char>,
    visited: Set<Seq<char>>,
    fuel: nat,
)
    requires
        keys_sorted(a),
        keys_sorted(b),
        same_tree(a, b),
    ensures
        ids_of(dfs(a, id, visited, fuel).0) == ids_of(dfs(b, id, visited, fuel).0),
        dfs(a, id, visited, fuel).1 == dfs(b, id, visited, fuel).1,
    decreases fuel, 0nat,
{
    if fuel > 0 {
        lemma_same_tree_lookup(a, b, id);
        if has_key(a, id) && !visited.contains(id) {
            let p = key_pos(a, id);
            let za = a[p].1;
            let zb = b[p].1;
            assert(lookup(a, id) == Some(za));
            assert(lookup(b, id) == Some(zb));
            let v1 = visited.insert(id);
            lemma_dfs_all_same_tree(a, b, texts_of(za.child_ids@), v1, (fuel - 1) as nat);
            let ra = dfs_all(a, texts_of(za.child_ids@), v1, (fuel - 1) as nat);
            let rb = dfs_all(b, texts_of(zb.child_ids@), v1, (fuel - 1) as nat);
            assert(ids_of(seq![za] + ra.0) =~= seq![za.id@] + ids_of(ra.0));
            assert(ids_of(seq![zb] + rb.0) =~= seq![zb.id@] + ids_of(rb.0));
        }
    }
}

proof fn lemma_dfs_all_same_tree(
    a: Seq<(String, ZoneJson)>,
    b: Seq<(String, ZoneJson)>,
    ids: Seq<Seq<char>>,
    visited: Set<Seq<char>>,
    fuel: nat,
)
    requires
        keys_sorted(a),
        keys_sorted(b),
        same_tree(a, b),
    ensures
        ids_of(dfs_all(a, ids, visited, fuel).0) == ids_of(dfs_all(b, ids, visited, fuel).0),
        dfs_all(a, ids, visited, fuel).1 == dfs_all(b, ids, visited, fuel).1,
    decreases fuel, ids.len(),
{
    if ids.len() > 0 {
        lemma_dfs_same_tree(a, b, ids[0], visited, fuel);
        let xa = dfs(a, ids[0], visited, fuel);
        let xb = dfs(b, ids[0], visited, fuel);
        let rest = ids.subrange(1, ids.len() as int);
        lemma_dfs_all_same_tree(a, b, rest, xa.1, fuel);
        let ya = dfs_all(a, rest, xa.1, fuel);
        let yb = dfs_all(b, rest, xb.1, fuel);
        assert(ids_of(xa.0 + ya.0) =~= ids_of(xa.0) + ids_of(ya.0));
        assert(ids_of(xb.0 + yb.0) =~= ids_of(xb.0) + ids_of(yb.0));
    }
}

/// Workspaces with the same root and the same tree give the same zone ids
/// in tree order.
pub proof fn lemma_zone_order_same_tree(w1: WorkspaceJson, w2: WorkspaceJson)
    requires
        keys_sorted(w1.zones@),
        keys_sorted(w2.zones@),
        same_tree(w1.zones@, w2.zones@),
        w1.root_zone_id@ == w2.root_zone_id@,
    ensures
        ids_of(zone_order(w1)) == ids_of(zone_order(w2)),
{
    if w1.root_zone_id@.len() > 0 {
        lemma_dfs_same_tree(w1.zones@, w2.zones@, w1.root_zone_id@, Set::empty(), (w1.zones@.len() + 1) as nat);
    }
}

/// The tree order starts at the root: when the root id names a stored
/// zone, that zone comes first; otherwise the order is empty.
pub proof fn lemma_tree_order_root_first(ws: WorkspaceJson)
    ensures
        ws.root_zone_id@.len() > 0 && lookup(ws.zones@, ws.root_zone_id@) is Some ==> zone_order(ws).len()
            > 0 && zone_order(ws)[0] == lookup(ws.zones@, ws.root_zone_id@)->Some_0,
        ws.root_zone_id@.len() == 0 || lookup(ws.zones@, ws.root_zone_id@) is None ==> zone_order(ws).len()
            == 0,
{
    if ws.root_zone_id@.len() > 0 {
        let fuel = (ws.zones@.len() + 1) as nat;
        assert(fuel > 0);
        if let Some(z) = lookup(ws.zones@, ws.root_zone_id@) {
            let r = dfs_all(ws.zones@, texts_of(z.child_ids@), Set::empty().insert(ws.root_zone_id@), (fuel - 1) as nat);
            assert(zone_order(ws) == seq![z] + r.0);
            assert((seq![z] + r.0)[0] == z);
        }
    }
}

pub open spec fn zones_match(a: Seq<ZoneJson>, b: Seq<ZoneJson>) -> bool {
    a.len() == b.len() && forall|i: int| 0 <= i < a.len() ==> same_zone(#[trigger] a[i], b[i])
}

fn visited_contains(visited: &Vec<String>, id: &str) -> (r: bool)
    ensures
        r == texts_of(visited@).to_set().contains(id@),
{
    let mut i: usize = 0;
    while i < visited.len()
        invariant
            i <= visited@.len(),
            forall|m: int| 0 <= m < i ==> (#[trigger] visited@[m])@ != id@,
        decreases visited@.len() - i,
    {
        if text_eq(visited[i].as_str(), id) {
            assert(texts_of(visited@)[i as int] == id@);
            return true;
        }
        i = i + 1;
    }
    assert(!texts_of(visited@).contains(id@)) by {
        if texts_of(visited@).contains(id@) {
            let m = choose|m: int| 0 <= m < visited@.len() && texts_of(visited@)[m] == id@;
            assert(visited@[m]@ == id@);
        }
    }
    false
}

proof fn lemma_keys_finite(zs: Seq<(String, ZoneJson)>)
    ensures
        zone_keys(zs).finite(),
        zone_keys(zs).len() <= zs.len(),
{
    keys_of(zs).lemma_cardinality_of_set();
}

proof fn lemma_has_key_in_keys(zs: Seq<(String, ZoneJson)>, id: Seq<char>)
    requires
        has_key(zs, id),
    ensures
        zone_keys(zs).contains(id),
{
    let i = key_pos(zs, id);
    assert(keys_of(zs)[i] == id);
}

fn walk(
    ws: &WorkspaceJson,
    zone_id: &str,
    visited: &mut Vec<String>,
    ordered: &mut Vec<ZoneJson>,
    Ghost(fuel): Ghost<nat>,
)
    requires
        keys_sorted(ws.zones@),
        texts_of(old(visited)@).to_set().subset_of(zone_keys(ws.zones@)),
        fuel >= 1 + zone_keys(ws.zones@).len() - texts_of(old(visited)@).to_set().len(),
    ensures
        texts_of(final(visited)@).to_set() == dfs(
            ws.zones@,
            zone_id@,
            texts_of(old(visited)@).to_set(),
            fuel,
        ).1,
        texts_of(old(visited)@).to_set().subset_of(texts_of(final(visited)@).to_set()),
        texts_of(final(visited)@).to_set().subset_of(zone_keys(ws.zones@)),
        zones_match(
            final(ordered)@,
            old(ordered)@ + dfs(ws.zones@, zone_id@, texts_of(old(visited)@).to_set(), fuel).0,
        ),
    decreases fuel,
{
    let ghost zs = ws.zones@;
    let ghost v0 = texts_of(visited@).to_set();
    proof {
        lemma_keys_finite(zs);
        vstd::set_lib::lemma_len_subset(v0, zone_keys(zs));
    }
    let i = match crate::keyed::find_key(&ws.zones, zone_id) {
        None => {
            assert(zones_match(ordered@, ordered@ + Seq::<ZoneJson>::empty())) by {
                assert(ordered@ + Seq::<ZoneJson>::empty() =~= ordered@);
            }
            return ;
        },
        Some(i) => i,
    };
    if visited_contains(visited, zone_id) {
        assert(ordered@ + Seq::<ZoneJson>::empty() =~= ordered@);
        return ;
    }
    proof {
        lemma_has_key_in_keys(zs, zone_id@);
        vstd::set_lib::lemma_len_subset(v0.insert(zone_id@), zone_keys(zs));
        vstd::set::axiom_set_insert_len(v0, zone_id@);
        assert(fuel >= 2);
    }
    let zone = &ws.zones[i].1;
    let ghost z = zs[i as int].1;
    visited.push(String::from_str(zone_id));
    proof {
        let tv = texts_of(visited@);
        let to = texts_of(old(visited)@);
        assert(tv =~= to.push(zone_id@));
        assert forall|x: Seq<char>| tv.contains(x) <==> #[trigger] v0.insert(zone_id@).contains(x) by {
            if tv.contains(x) {
                let m = choose|m: int| 0 <= m < tv.len() && tv[m] == x;
                if m < to.len() {
                    assert(to[m] == x);
                }
            }
            if to.contains(x) {
                let m = choose|m: int| 0 <= m < to.len() && to[m] == x;
                assert(tv[m] == x);
            }
            if x == zone_id@ {
                assert(tv[to.len() as int] == x);
            }
        }
        assert(tv.to_set() =~= v0.insert(zone_id@));
    }
    ordered.push(zone.clone());
    let ghost ids = texts_of(z.child_ids@);
    let ghost base = ordered@;
    let ghost start_v = texts_of(visited@).to_set();
    let ghost f1 = (fuel - 1) as nat;
    proof {
        assert(ids.subrange(0, ids.len() as int) =~= ids);
        let t = base + dfs_all(zs, ids, start_v, f1).0;
        assert(zones_match(t, t));
    }
    let mut j: usize = 0;
    while j < zone.child_ids.len()
        invariant
            i < ws.zones@.len(),
            f1 + 1 == fuel,
            zone == &ws.zones@[i as int].1,
            z == ws.zones@[i as int].1,
            zs == ws.zones@,
            keys_sorted(zs),
            ids == texts_of(z.child_ids@),
            0 <= j <= ids.len(),
            start_v.subset_of(texts_of(visited@).to_set()),
            texts_of(visited@).to_set().subset_of(zone_keys(zs)),
            start_v == v0.insert(zone_id@),
            f1 >= 1 + zone_keys(zs).len() - start_v.len(),
            zone_keys(zs).finite(),
            dfs_all(zs, ids, start_v, f1).1 == dfs_all(
                zs,
                ids.subrange(j as int, ids.len() as int),
                texts_of(visited@).to_set(),
                f1,
            ).1,
            ({
                let done = ordered@;
                let rest = dfs_all(
                    zs,
                    ids.subrange(j as int, ids.len() as int),
                    texts_of(visited@).to_set(),
                    f1,
                ).0;
                zones_match(done + rest, base + dfs_all(zs, ids, start_v, f1).0)
            }),
        decreases ids.len() - j,
    {
        let ghost vj = texts_of(visited@).to_set();
        let ghost oj = ordered@;
        proof {
            lemma_keys_finite(zs);
            vstd::set_lib::lemma_len_subset(start_v, vj);
            vstd::set_lib::lemma_len_subset(vj, zone_keys(zs));
        }
        walk(ws, zone.child_ids[j].as_str(), visited, ordered, Ghost(f1));
        proof {
            let rest_j = ids.subrange(j as int, ids.len() as int);
            assert(rest_j[0] == ids[j as int]);
            assert(rest_j.subrange(1, rest_j.len() as int) =~= ids.subrange(j + 1, ids.len() as int));
            let a = dfs(zs, ids[j as int], vj, f1);
            let b = dfs_all(zs, ids.subrange(j + 1, ids.len() as int), a.1, f1);
            assert(dfs_all(zs, rest_j, vj, f1) == (a.0 + b.0, b.1));
            let total = base + dfs_all(zs, ids, start_v, f1).0;
            assert((oj + a.0) + b.0 =~= oj + (a.0 + b.0));
            assert forall|m: int| 0 <= m < total.len() implies same_zone(
                #[trigger] (ordered@ + b.0)[m],
                total[m],
            ) by {
                assert(zones_match(oj + (a.0 + b.0), total));
                assert(zones_match(ordered@, oj + a.0));
                if m < ordered@.len() {
                    assert((ordered@ + b.0)[m] == ordered@[m]);
                    assert((oj + a.0 + b.0)[m] == (oj + a.0)[m]);
                } else {
                    assert((ordered@ + b.0)[m] == b.0[m - ordered@.len()]);
                    assert((oj + a.0 + b.0)[m] == b.0[m - ordered@.len()]);
                }
                assert(same_zone((oj + (a.0 + b.0))[m], total[m]));
            }
        }
        j = j + 1;
    }
    proof {
        let rest = ids.subrange(j as int, ids.len() as int);
        assert(rest.len() == 0);
        assert(ordered@ + dfs_all(zs, rest, texts_of(visited@).to_set(), f1).0 =~= ordered@);
        assert(lookup(zs, zone_id@) == Some(z)) by {
            crate::keyed::lemma_lookup_at(zs, i as int);
        }
        let d = dfs(zs, zone_id@, v0, fuel);
        let x = dfs_all(zs, ids, start_v, f1).0;
        assert(d.0 == seq![z] + x);
        let want = old(ordered)@ + d.0;
        let have = base + x;
        assert forall|m: int| 0 <= m < want.len() implies same_zone(
            #[trigger] ordered@[m],
            want[m],
        ) by {
            assert(same_zone(ordered@[m], have[m]));
            let n = old(ordered)@.len() as int;
            if m < n {
                assert(have[m] == old(ordered)@[m]);
                assert(want[m] == old(ordered)@[m]);
            } else if m == n {
                assert(have[m] == base[n]);
                assert(want[m] == z);
            } else {
                assert(have[m] == x[m - n - 1]);
                assert(want[m] == x[m - n - 1]);
            }
        }
    }
}

/// The zones of the workspace in tree order, from the root zone down
/// (parents before children, children in `child_ids` order, each zone
/// once; zones not reachable from the root are left out).
pub fn ordered_zones(workspace: &WorkspaceJson) -> (r: Vec<ZoneJson>)
    requires
        keys_sorted(workspace.zones@),
    ensures
        zones_match(r@, zone_order(*workspace)),
{
    let mut ordered: Vec<ZoneJson> = Vec::new();
    let mut visited: Vec<String> = Vec::new();
    if workspace.root_zone_id.unicode_len() == 0 {
        return ordered;
    }
    proof {
        lemma_keys_finite(workspace.zones@);
        assert(texts_of(visited@).to_set() =~= Set::<Seq<char>>::empty());
    }
    walk(
        workspace,
        workspace.root_zone_id.as_str(),
        &mut visited,
        &mut ordered,
        Ghost((workspace.zones@.len() + 1) as nat),
    );
    proof {
        let d = dfs(
            workspace.zones@,
            workspace.root_zone_id@,
            Set::empty(),
            (workspace.zones@.len() + 1) as nat,
        ).0;
        assert(Seq::<ZoneJson>::empty() + d =~= d);
    }
    ordered
}

/// The number of parent steps from zone `id` up to a zone with no parent
/// or to a parent id that names no zone; `None` if that takes more than
/// `fuel` steps.
pub open spec fn depth_chain(zs: Seq<(String, ZoneJson)>, id: Seq<char>, fuel: nat) -> Option<
    nat,
>
    decreases fuel,
{
    match lookup(zs, id) {
        None => Some(0),
        Some(z) => if z.parent_id@.len() == 0 {
            Some(0)
        } else if fuel == 0 {
            None
        } else {
            match depth_chain(zs, z.parent_id@, (fuel - 1) as nat) {
                Some(d) => Some(d + 1),
                None => None,
            }
        },
    }
}

/// The depth of a zone: how many parents lie above it. The walk up ends
/// at a zone without a parent or at a parent id that names no zone; a
/// chain of parents that loops never ends, so such a chain is excluded
/// (a chain that ends visits each zone at most once, within the number of
/// zones).
pub fn zone_depth(workspace: &WorkspaceJson, zone_id: &str) -> (r: usize)
    requires
        keys_sorted(workspace.zones@),
        depth_chain(workspace.zones@, zone_id@, workspace.zones@.len() as nat) is Some,
    ensures
        depth_chain(workspace.zones@, zone_id@, workspace.zones@.len() as nat) == Some(r as nat),
{
    let ghost zs = workspace.zones@;
    let ghost n = zs.len() as nat;
    let total = workspace.zones.len();
    let mut depth: usize = 0;
    let mut current: &str = zone_id;
    let ghost mut f: nat = n;
    loop
        invariant
            total == n,
            zs == workspace.zones@,
            n == zs.len(),
            keys_sorted(zs),
            depth + f == n,
            depth_chain(zs, current@, f) is Some,
            depth_chain(zs, zone_id@, n) == Some((depth_chain(zs, current@, f).unwrap() + depth) as nat),
        decreases f,
    {
        match crate::keyed::find_key(&workspace.zones, current) {
            None => {
                return depth;
            },
            Some(i) => {
                let zone = &workspace.zones[i].1;
                if zone.parent_id.unicode_len() == 0 {
                    return depth;
                }
                proof {
                    assert(f > 0);
                }
                depth = depth + 1;
                current = zone.parent_id.as_str();
                proof {
                    f = (f - 1) as nat;
                }
            },
        }
    }
}

/// The name of the zone stored under `id`, or the empty text.
pub open spec fn name_key(zs: Seq<(String, ZoneJson)>, id: Seq<char>) -> Seq<char> {
    match lookup(zs, id) {
        Some(z) => z.name@,
        None => Seq::empty(),
    }
}

/// Where a stable insertion puts key `k` among the sorted keys `ks`
/// (searching from `i`): before the first key greater than `k`.
pub open spec fn insert_pos(ks: Seq<Seq<char>>, k: Seq<char>, i: int) -> int
    decreases ks.len() - i,
{
    if i < 0 || i >= ks.len() {
        ks.len() as int
    } else if crate::order::text_lt(k, ks[i]) {
        i
    } else {
        insert_pos(ks, k, i + 1)
    }
}

pub open spec fn second_of(s: Seq<(Seq<char>, Seq<char>)>) -> Seq<Seq<char>> {
    s.map_values(|p: (Seq<char>, Seq<char>)| p.1)
}

pub open spec fn first_of(s: Seq<(Seq<char>, Seq<char>)>) -> Seq<Seq<char>> {
    s.map_values(|p: (Seq<char>, Seq<char>)| p.0)
}

/// Insertion of `x` into `sorted` after every entry whose key is not
/// greater than `x`'s key.
pub open spec fn stable_insert(
    sorted: Seq<(Seq<char>, Seq<char>)>,
    x: (Seq<char>, Seq<char>),
) -> Seq<(Seq<char>, Seq<char>)> {
    sorted.insert(insert_pos(second_of(sorted), x.1, 0), x)
}

/// `(value, key)` pairs sorted by key, equal keys keeping their order
/// (what `sort_by_key` gives).
pub open spec fn stable_sort(xs: Seq<(Seq<char>, Seq<char>)>) -> Seq<(Seq<char>, Seq<char>)>
    decreases xs.len(),
{
    if xs.len() == 0 {
        xs
    } else {
        stable_insert(stable_sort(xs.subrange(0, xs.len() - 1)), xs[xs.len() - 1])
    }
}

/// The keys (second parts) never go down.
pub open spec fn keys_ordered(s: Seq<(Seq<char>, Seq<char>)>) -> bool {
    forall|i: int, j: int| 0 <= i < j < s.len() ==> !crate::order::text_lt(#[trigger] s[j].1, #[trigger] s[i].1)
}

/// `insert_pos` lands after the keys not above `k` and before one above it.
proof fn lemma_insert_pos(ks: Seq<Seq<char>>, k: Seq<char>, i: int)
    requires
        0 <= i <= ks.len(),
    ensures
        i <= insert_pos(ks, k, i) <= ks.len(),
        forall|m: int| i <= m < insert_pos(ks, k, i) ==> !crate::order::text_lt(k, #[trigger] ks[m]),
        insert_pos(ks, k, i) < ks.len() ==> crate::order::text_lt(k, ks[insert_pos(ks, k, i)]),
    decreases ks.len() - i,
{
    if i < ks.len() && !crate::order::text_lt(k, ks[i]) {
        lemma_insert_pos(ks, k, i + 1);
    }
}

/// The sort puts the pairs in key order and keeps every pair, each as
/// often as it came.
pub proof fn lemma_stable_sort_sorts(xs: Seq<(Seq<char>, Seq<char>)>)
    ensures
        keys_ordered(stable_sort(xs)),
        stable_sort(xs).to_multiset() == xs.to_multiset(),
        stable_sort(xs).len() == xs.len(),
    decreases xs.len(),
{
    broadcast use vstd::seq_lib::lemma_multiset_commutative;
    if xs.len() > 0 {
        let init = xs.subrange(0, xs.len() - 1);
        let x = xs[xs.len() - 1];
        lemma_stable_sort_sorts(init);
        let s = stable_sort(init);
        let ks = second_of(s);
        lemma_insert_pos(ks, x.1, 0);
        let p = insert_pos(ks, x.1, 0);
        let r = s.insert(p, x);
        assert(r == stable_sort(xs));
        assert forall|i: int, j: int| 0 <= i < j < r.len() implies !crate::order::text_lt(
            #[trigger] r[j].1,
            #[trigger] r[i].1,
        ) by {
            if j < p {
                assert(r[i] == s[i] && r[j] == s[j]);
            } else if j == p {
                assert(r[i] == s[i] && r[j] == x);
                assert(ks[i] == s[i].1);
            } else if i > p {
                assert(r[i] == s[i - 1] && r[j] == s[j - 1]);
            } else if i < p {
                assert(r[i] == s[i] && r[j] == s[j - 1]);
            } else {
                assert(r[i] == x && r[j] == s[j - 1]);
                assert(ks[p] == s[p].1);
                crate::order::lemma_text_lt_asymmetric(x.1, s[p].1);
                if crate::order::text_lt(s[j - 1].1, x.1) {
                    if j - 1 > p {
                        crate::order::lemma_text_lt_transitive(s[j - 1].1, x.1, s[p].1);
                    }
                }
            }
        }
        assert(r =~= s.subrange(0, p) + seq![x] + s.subrange(p, s.len() as int));
        assert(s =~= s.subrange(0, p) + s.subrange(p, s.len() as int));
        assert(init.push(x) =~= xs);
        assert(seq![x].to_multiset() =~= vstd::multiset::Multiset::empty().insert(x)) by {
            broadcast use vstd::seq_lib::group_to_multiset_ensures;
            assert(Seq::<(Seq<char>, Seq<char>)>::empty().push(x) =~= seq![x]);
        }
        assert(xs.to_multiset() =~= init.to_multiset().insert(x)) by {
            broadcast use vstd::seq_lib::group_to_multiset_ensures;
        }
    }
}

pub open spec fn pairs_view(v: Seq<(String, Vec<char>)>) -> Seq<(Seq<char>, Seq<char>)> {
    v.map_values(|p: (String, Vec<char>)| (p.0@, p.1@))
}

fn copy_chars(v: &Vec<char>) -> (r: Vec<char>)
    ensures
        r@ == v@,
{
    let mut out: Vec<char> = Vec::new();
    let mut i: usize = 0;
    while i < v.len()
        invariant
            i <= v@.len(),
            out@ == v@.subrange(0, i as int),
        decreases v@.len() - i,
    {
        out.push(v[i]);
        i = i + 1;
        assert(out@ =~= v@.subrange(0, i as int));
    }
    assert(v@.subrange(0, v@.len() as int) =~= v@);
    out
}

/// Sorts `(value, key)` pairs by key, stably.
fn stable_sort_pairs(items: Vec<(String, Vec<char>)>) -> (r: Vec<(String, Vec<char>)>)
    ensures
        pairs_view(r@) == stable_sort(pairs_view(items@)),
{
    let ghost xs = pairs_view(items@);
    let mut out: Vec<(String, Vec<char>)> = Vec::new();
    let mut rest: Vec<(String, Vec<char>)> = Vec::new();
    let mut i = items.len();
    while i > 0
        invariant
            i <= items@.len(),
            xs == pairs_view(items@),
            pairs_view(rest@).reverse() == xs.subrange(i as int, xs.len() as int),
        decreases i,
    {
        i = i - 1;
        let ghost before_rest = pairs_view(rest@);
        let x = (items[i].0.clone(), copy_chars(&items[i].1));
        rest.push(x);
        proof {
            assert(pairs_view(rest@) =~= before_rest.push(xs[i as int]));
            assert(before_rest.push(xs[i as int]).reverse() =~= seq![xs[i as int]]
                + before_rest.reverse());
            assert(seq![xs[i as int]] + xs.subrange(i + 1, xs.len() as int) =~= xs.subrange(
                i as int,
                xs.len() as int,
            ));
        }
    }
    proof {
        assert(xs.subrange(0, 0) =~= Seq::<(Seq<char>, Seq<char>)>::empty());
    }
    let mut j: usize = 0;
    let total = rest.len();
    while rest.len() > 0
        invariant
            total == xs.len(),
            j + rest@.len() == total,
            pairs_view(rest@).reverse() == xs.subrange(j as int, total as int),
            pairs_view(out@) == stable_sort(xs.subrange(0, j as int)),
        decreases rest@.len(),
    {
        let ghost before_rest = pairs_view(rest@);
        let x = rest.pop().unwrap();
        proof {
            assert(before_rest =~= pairs_view(rest@).push((x.0@, x.1@)));
            assert(before_rest.reverse()[0] == (x.0@, x.1@));
            assert(xs[j as int] == (x.0@, x.1@));
            assert(pairs_view(rest@).reverse() =~= xs.subrange(j + 1, total as int)) by {
                assert(before_rest.reverse().subrange(1, before_rest.len() as int)
                    =~= pairs_view(rest@).reverse());
            }
        }
        let ghost ks = second_of(pairs_view(out@));
        let mut p: usize = 0;
        while p < out.len() && !crate::order::text_less(&x.1, &out[p].1)
            invariant
                p <= out@.len(),
                ks == second_of(pairs_view(out@)),
                insert_pos(ks, x.1@, 0) == insert_pos(ks, x.1@, p as int),
            decreases out@.len() - p,
        {
            p = p + 1;
        }
        let ghost before_out = pairs_view(out@);
        out.insert(p, x);
        proof {
            assert(pairs_view(out@) =~= before_out.insert(p as int, (x.0@, x.1@)));
            let t = xs.subrange(0, j + 1);
            assert(t.subrange(0, t.len() - 1) =~= xs.subrange(0, j as int));
            assert(t[t.len() - 1] == xs[j as int]);
        }
        j = j + 1;
    }
    proof {
        assert(xs.subrange(0, total as int) =~= xs);
    }
    out
}

/// The ids of the top-level zones: the root zone first (if the workspace
/// names one that exists), then every other zone without a parent, by
/// name (ties kept in key order).
pub open spec fn root_ids_spec(ws: WorkspaceJson) -> Seq<Seq<char>> {
    let zs = ws.zones@;
    let root = ws.root_zone_id@;
    let head: Seq<Seq<char>> = if root.len() > 0 && has_key(zs, root) {
        seq![root]
    } else {
        Seq::empty()
    };
    head + first_of(stable_sort(root_orphans(zs, root)))
}

/// A zone without a parent, other than `root`.
pub open spec fn is_orphan(root: Seq<char>, p: (String, ZoneJson)) -> bool {
    p.1.parent_id@.len() == 0 && p.1.id@ != root
}

/// A zone's id with the name it is sorted by.
pub open spec fn orphan_entry(zs: Seq<(String, ZoneJson)>, p: (String, ZoneJson)) -> (Seq<char>, Seq<char>) {
    (p.1.id@, name_key(zs, p.1.id@))
}

/// The zones without a parent, other than `root`, in key order, each with
/// its name.
pub open spec fn root_orphans(zs: Seq<(String, ZoneJson)>, root: Seq<char>) -> Seq<(Seq<char>, Seq<char>)> {
    zs.filter(|p: (String, ZoneJson)| is_orphan(root, p)).map_values(|p: (String, ZoneJson)| orphan_entry(zs, p))
}

/// Two zone tables with the same keys and the same zones, position by
/// position.
pub open spec fn tables_agree(a: Seq<(String, ZoneJson)>, b: Seq<(String, ZoneJson)>) -> bool {
    &&& a.len() == b.len()
    &&& forall|i: int| 0 <= i < a.len() ==> (#[trigger] a[i]).0@ == b[i].0@ && same_zone(a[i].1, b[i].1)
}

/// Agreeing sorted tables give every id the same name key.
pub proof fn lemma_name_key_agree(a: Seq<(String, ZoneJson)>, b: Seq<(String, ZoneJson)>, id: Seq<char>)
    requires
        keys_sorted(a),
        keys_sorted(b),
        tables_agree(a, b),
    ensures
        name_key(a, id) == name_key(b, id),
{
    if has_key(a, id) {
        let p = key_pos(a, id);
        assert(b[p].0@ == id);
        assert(has_key(b, id));
        let q = key_pos(b, id);
        assert(a[q].0@ == b[q].0@);
        crate::keyed::lemma_sorted_unique(a, p, q);
    } else if has_key(b, id) {
        let q = key_pos(b, id);
        assert(a[q].0@ == b[q].0@);
    }
}

/// Agreeing lists of zones give the same orphan entries (each list's
/// names looked up in its own table, where those agree).
proof fn lemma_orphans_agree(
    s1: Seq<(String, ZoneJson)>,
    s2: Seq<(String, ZoneJson)>,
    z1: Seq<(String, ZoneJson)>,
    z2: Seq<(String, ZoneJson)>,
    root: Seq<char>,
)
    requires
        tables_agree(s1, s2),
        forall|id: Seq<char>| #[trigger] name_key(z1, id) == name_key(z2, id),
    ensures
        s1.filter(|p: (String, ZoneJson)| is_orphan(root, p)).map_values(
            |p: (String, ZoneJson)| orphan_entry(z1, p),
        ) == s2.filter(|p: (String, ZoneJson)| is_orphan(root, p)).map_values(
            |p: (String, ZoneJson)| orphan_entry(z2, p),
        ),
    decreases s1.len(),
{
    let pred = |p: (String, ZoneJson)| is_orphan(root, p);
    let f1 = |p: (String, ZoneJson)| orphan_entry(z1, p);
    let f2 = |p: (String, ZoneJson)| orphan_entry(z2, p);
    reveal(Seq::filter);
    if s1.len() > 0 {
        let t1 = s1.drop_last();
        let t2 = s2.drop_last();
        assert(tables_agree(t1, t2)) by {
            assert forall|i: int| 0 <= i < t1.len() implies (#[trigger] t1[i]).0@ == t2[i].0@ && same_zone(
                t1[i].1,
                t2[i].1,
            ) by {
                assert(t1[i] == s1[i] && t2[i] == s2[i]);
            }
        }
        lemma_orphans_agree(t1, t2, z1, z2, root);
        let x1 = s1[s1.len() - 1];
        let x2 = s2[s2.len() - 1];
        assert(pred(x1) == pred(x2));
        assert(f1(x1) == f2(x2)) by {
            assert(name_key(z1, x1.1.id@) == name_key(z2, x1.1.id@));
        }
        let a1 = t1.filter(pred);
        let a2 = t2.filter(pred);
        if pred(x1) {
            assert(s1.filter(pred) == a1.push(x1));
            assert(s2.filter(pred) == a2.push(x2));
            assert(a1.push(x1).map_values(f1) =~= a1.map_values(f1).push(f1(x1)));
            assert(a2.push(x2).map_values(f2) =~= a2.map_values(f2).push(f2(x2)));
        } else {
            assert(s1.filter(pred) == a1);
            assert(s2.filter(pred) == a2);
        }
    } else {
        assert(s1.filter(pred) =~= Seq::<(String, ZoneJson)>::empty());
        assert(s2.filter(pred) =~= Seq::<(String, ZoneJson)>::empty());
        assert(s1.filter(pred).map_values(f1) =~= s2.filter(pred).map_values(f2));
    }
}

/// Workspaces with the same root and agreeing sorted zone tables list the
/// same top-level zones.
pub proof fn lemma_root_ids_agree(w1: WorkspaceJson, w2: WorkspaceJson)
    requires
        keys_sorted(w1.zones@),
        keys_sorted(w2.zones@),
        tables_agree(w1.zones@, w2.zones@),
        w1.root_zone_id@ == w2.root_zone_id@,
    ensures
        root_ids_spec(w1) == root_ids_spec(w2),
{
    let z1 = w1.zones@;
    let z2 = w2.zones@;
    assert forall|id: Seq<char>| #[trigger] name_key(z1, id) == name_key(z2, id) by {
        lemma_name_key_agree(z1, z2, id);
    }
    lemma_orphans_agree(z1, z2, z1, z2, w1.root_zone_id@);
    let r = w1.root_zone_id@;
    if has_key(z1, r) {
        let p = key_pos(z1, r);
        assert(z2[p].0@ == r);
    }
    if has_key(z2, r) {
        let q = key_pos(z2, r);
        assert(z1[q].0@ == z2[q].0@);
    }
    assert(root_orphans(z1, r) == root_orphans(z2, r));
}

/// The ids of the zones whose parent is `zone_id`, by name (ties kept in
/// key order).
pub open spec fn child_ids_spec(ws: WorkspaceJson, zone_id: Seq<char>) -> Seq<Seq<char>> {
    let zs = ws.zones@;
    let kids = zs.filter(|p: (String, ZoneJson)| p.1.parent_id@ == zone_id).map_values(
        |p: (String, ZoneJson)| (p.1.id@, name_key(zs, p.1.id@)),
    );
    first_of(stable_sort(kids))
}

/// The name of the zone stored under `id`, or the empty text.
fn zone_name_key(workspace: &WorkspaceJson, id: &str) -> (r: Vec<char>)
    requires
        keys_sorted(workspace.zones@),
    ensures
        r@ == name_key(workspace.zones@, id@),
{
    match crate::keyed::find_key(&workspace.zones, id) {
        Some(i) => crate::text::chars_of(workspace.zones[i].1.name.as_str()),
        None => Vec::new(),
    }
}

/// The ids of the zones that pass `keep`, each with its zone's name.
fn zones_with_names(workspace: &WorkspaceJson, orphans: bool, zone_id: &str) -> (r: Vec<
    (String, Vec<char>),
>)
    requires
        keys_sorted(workspace.zones@),
    ensures
        ({
            let zs = workspace.zones@;
            let keep = if orphans {
                |p: (String, ZoneJson)| p.1.parent_id@.len() == 0 && p.1.id@ != zone_id@
            } else {
                |p: (String, ZoneJson)| p.1.parent_id@ == zone_id@
            };
            pairs_view(r@) == zs.filter(keep).map_values(
                |p: (String, ZoneJson)| (p.1.id@, name_key(zs, p.1.id@)),
            )
        }),
{
    let ghost zs = workspace.zones@;
    let ghost keep = if orphans {
        |p: (String, ZoneJson)| p.1.parent_id@.len() == 0 && p.1.id@ != zone_id@
    } else {
        |p: (String, ZoneJson)| p.1.parent_id@ == zone_id@
    };
    let ghost f = |p: (String, ZoneJson)| (p.1.id@, name_key(zs, p.1.id@));
    let mut out: Vec<(String, Vec<char>)> = Vec::new();
    let mut i: usize = 0;
    assert(zs.subrange(0, 0).filter(keep) =~= Seq::<(String, ZoneJson)>::empty());
    while i < workspace.zones.len()
        invariant
            zs == workspace.zones@,
            keys_sorted(zs),
            i <= zs.len(),
            keep == (if orphans {
                |p: (String, ZoneJson)| p.1.parent_id@.len() == 0 && p.1.id@ != zone_id@
            } else {
                |p: (String, ZoneJson)| p.1.parent_id@ == zone_id@
            }),
            f == (|p: (String, ZoneJson)| (p.1.id@, name_key(zs, p.1.id@))),
            pairs_view(out@) == zs.subrange(0, i as int).filter(keep).map_values(f),
        decreases zs.len() - i,
    {
        let zone = &workspace.zones[i].1;
        let pass = if orphans {
            zone.parent_id.unicode_len() == 0 && !text_eq(zone.id.as_str(), zone_id)
        } else {
            text_eq(zone.parent_id.as_str(), zone_id)
        };
        proof {
            let t = zs.subrange(0, i + 1);
            assert(t.subrange(0, t.len() - 1) =~= zs.subrange(0, i as int));
            assert(t =~= zs.subrange(0, i as int).push(zs[i as int]));
            assert(pass == keep(zs[i as int]));
            Seq::filter_distributes_over_add(
                zs.subrange(0, i as int),
                seq![zs[i as int]],
                keep,
            );
            assert(zs.subrange(0, i as int) + seq![zs[i as int]] =~= t);
            assert(seq![zs[i as int]].filter(keep) =~= (if keep(zs[i as int]) {
                seq![zs[i as int]]
            } else {
                Seq::empty()
            })) by {
                reveal_with_fuel(Seq::filter, 2);
            }
        }
        if pass {
            let key = zone_name_key(workspace, zone.id.as_str());
            let ghost before = pairs_view(out@);
            out.push((zone.id.clone(), key));
            proof {
                assert(pairs_view(out@) =~= before.push(f(zs[i as int])));
                assert(zs.subrange(0, i + 1).filter(keep) =~= zs.subrange(0, i as int).filter(
                    keep,
                ).push(zs[i as int]));
                assert(zs.subrange(0, i + 1).filter(keep).map_values(f) =~= zs.subrange(
                    0,
                    i as int,
                ).filter(keep).map_values(f).push(f(zs[i as int])));
            }
        } else {
            proof {
                assert(zs.subrange(0, i + 1).filter(keep) =~= zs.subrange(0, i as int).filter(
                    keep,
                ));
            }
        }
        i = i + 1;
    }
    assert(zs.subrange(0, zs.len() as int) =~= zs);
    out
}

fn first_texts(v: &Vec<(String, Vec<char>)>) -> (r: Vec<String>)
    ensures
        texts_of(r@) == first_of(pairs_view(v@)),
{
    let mut out: Vec<String> = Vec::new();
    let mut i: usize = 0;
    while i < v.len()
        invariant
            i <= v@.len(),
            texts_of(out@) == first_of(pairs_view(v@)).subrange(0, i as int),
        decreases v@.len() - i,
    {
        let ghost before = texts_of(out@);
        let t = v[i].0.clone();
        assert(first_of(pairs_view(v@))[i as int] == t@);
        out.push(t);
        i = i + 1;
        assert(texts_of(out@) =~= before.push(t@));
        assert(texts_of(out@) =~= first_of(pairs_view(v@)).subrange(0, i as int));
    }
    assert(first_of(pairs_view(v@)).subrange(0, v@.len() as int) =~= first_of(pairs_view(v@)));
    out
}

/// The ids of the top-level zones, root first, the rest by name.
pub fn root_zone_ids(workspace: &WorkspaceJson) -> (r: Vec<String>)
    requires
        keys_sorted(workspace.zones@),
    ensures
        texts_of(r@) == root_ids_spec(*workspace),
{
    let mut ids: Vec<String> = Vec::new();
    let root = workspace.root_zone_id.as_str();
    let has_root = root.unicode_len() > 0 && crate::keyed::find_key(&workspace.zones, root).is_some();
    if has_root {
        ids.push(workspace.root_zone_id.clone());
    }
    proof {
        if has_root {
            assert(texts_of(ids@) =~= seq![root@]);
        } else {
            assert(texts_of(ids@) =~= Seq::<Seq<char>>::empty());
        }
    }
    let orphans = zones_with_names(workspace, true, root);
    let sorted = stable_sort_pairs(orphans);
    let rest = first_texts(&sorted);
    let ghost head = texts_of(ids@);
    let mut k: usize = 0;
    while k < rest.len()
        invariant
            k <= rest@.len(),
            texts_of(ids@) == head + texts_of(rest@).subrange(0, k as int),
        decreases rest@.len() - k,
    {
        let ghost before = texts_of(ids@);
        let t = rest[k].clone();
        ids.push(t);
        k = k + 1;
        assert(texts_of(ids@) =~= before.push(t@));
        assert(texts_of(rest@)[k - 1] == t@);
        assert(texts_of(ids@) =~= head + texts_of(rest@).subrange(0, k as int));
    }
    assert(texts_of(rest@).subrange(0, rest@.len() as int) =~= texts_of(rest@));
    proof {
        let zs = workspace.zones@;
        let rt = workspace.root_zone_id@;
        let k1 = |p: (String, ZoneJson)| p.1.parent_id@.len() == 0 && p.1.id@ != root@;
        let k2 = |p: (String, ZoneJson)| is_orphan(rt, p);
        assert(k1 =~= k2);
        assert(zs.filter(k1) == zs.filter(k2));
        let f1 = |p: (String, ZoneJson)| (p.1.id@, name_key(zs, p.1.id@));
        let f2 = |p: (String, ZoneJson)| orphan_entry(zs, p);
        assert(f1 =~= f2);
        assert(zs.filter(k1).map_values(f1) == zs.filter(k2).map_values(f2));
    }
    ids
}

/// The ids of the children of `zone_id` (zones naming it as parent), by
/// name.
pub fn sorted_child_zone_ids(workspace: &WorkspaceJson, zone_id: &str) -> (r: Vec<String>)
    requires
        keys_sorted(workspace.zones@),
    ensures
        texts_of(r@) == child_ids_spec(*workspace, zone_id@),
{
    let kids = zones_with_names(workspace, false, zone_id);
    let sorted = stable_sort_pairs(kids);
    first_texts(&sorted)
}

/// Whether coordinates are shown relative to the reference point: local
/// mode is on and a reference point exists.
pub open spec fn uses_local(ws: WorkspaceJson) -> bool {
    (ws.coord_mode == CoordMode::Local || ws.local_ref) && ws.ref_point is Some
}

pub fn uses_local_coords(workspace: &WorkspaceJson) -> (r: bool)
    ensures
        r == uses_local(*workspace),
{
    (workspace.coord_mode == CoordMode::Local || workspace.local_ref) && workspace.ref_point.is_some()
}

/// The bits of the `f64` latitude 52.0 of the default datum.
pub const DEFAULT_LAT_BITS: u64 = 0x404a000000000000u64;

/// The bits of the `f64` longitude 5.0 of the default datum.
pub const DEFAULT_LON_BITS: u64 = 0x4014000000000000u64;

impl Default for WorkspaceJson {
    /// An empty workspace named `Workspace`, in global mode, with its datum
    /// at 52° N 5° E.
    fn default() -> (r: Self)
        ensures
            r.name@ == "Workspace"@,
            r.root_zone_id@.len() == 0,
            r.coord_mode == CoordMode::Global,
            r.ref_point is None,
            !r.local_ref,
            r.datum == Some(JsonPoint { lat: DEFAULT_LAT_BITS, lon: DEFAULT_LON_BITS }),
            r.zones@.len() == 0,
            r.nodes@.len() == 0,
            r.edges@.len() == 0,
            r.wf(),
    {
        WorkspaceJson {
            name: String::from_str("Workspace"),
            root_zone_id: String::new(),
            coord_mode: CoordMode::Global,
            ref_point: None,
            local_ref: false,
            datum: Some(JsonPoint { lat: DEFAULT_LAT_BITS, lon: DEFAULT_LON_BITS }),
            zones: Vec::new(),
            nodes: Vec::new(),
            edges: Vec::new(),
        }
    }
}

/// Where the map is centred: the datum, else the reference point, else
/// 52° N 5° E.
pub fn workspace_center(workspace: &WorkspaceJson) -> (r: JsonPoint)
    ensures
        r == (match workspace.datum {
            Some(d) => d,
            None => match workspace.ref_point {
                Some(p) => p,
                None => JsonPoint { lat: DEFAULT_LAT_BITS, lon: DEFAULT_LON_BITS },
            },
        }),
{
    match workspace.datum {
        Some(d) => d,
        None => match workspace.ref_point {
            Some(p) => p,
            None => JsonPoint { lat: DEFAULT_LAT_BITS, lon: DEFAULT_LON_BITS },
        },
    }
}

/// How a node is named in summaries: its name, or the id itself when there
/// is no such node.
pub fn node_summary(workspace: &WorkspaceJson, node_id: &str) -> (r: String)
    requires
        keys_sorted(workspace.nodes@),
    ensures
        r@ == (match lookup(workspace.nodes@, node_id@) {
            Some(n) => n.name@,
            None => node_id@,
        }),
{
    match crate::keyed::find_key(&workspace.nodes, node_id) {
        Some(i) => workspace.nodes[i].1.name.clone(),
        None => String::from_str(node_id),
    }
}

/// Whether the workspace is well formed (`wf`): every table, and every
/// property table in it, in key order.
pub fn is_well_formed(workspace: &WorkspaceJson) -> (r: bool)
    ensures
        r == workspace.wf(),
{
    if !crate::keyed::keys_in_order(&workspace.zones) || !crate::keyed::keys_in_order(&workspace.nodes)
        || !crate::keyed::keys_in_order(&workspace.edges) {
        return false;
    }
    let mut i: usize = 0;
    while i < workspace.zones.len()
        invariant
            i <= workspace.zones@.len(),
            forall|m: int| 0 <= m < i ==> keys_sorted((#[trigger] workspace.zones@[m]).1.properties@),
        decreases workspace.zones@.len() - i,
    {
        if !crate::keyed::keys_in_order(&workspace.zones[i].1.properties) {
            return false;
        }
        i = i + 1;
    }
    let mut j: usize = 0;
    while j < workspace.nodes.len()
        invariant
            j <= workspace.nodes@.len(),
            forall|m: int| 0 <= m < j ==> keys_sorted((#[trigger] workspace.nodes@[m]).1.properties@),
        decreases workspace.nodes@.len() - j,
    {
        if !crate::keyed::keys_in_order(&workspace.nodes[j].1.properties) {
            return false;
        }
        j = j + 1;
    }
    let mut k: usize = 0;
    while k < workspace.edges.len()
        invariant
            k <= workspace.edges@.len(),
            forall|m: int| 0 <= m < k ==> keys_sorted((#[trigger] workspace.edges@[m]).1.properties@),
        decreases workspace.edges@.len() - k,
    {
        if !crate::keyed::keys_in_order(&workspace.edges[k].1.properties) {
            return false;
        }
        k = k + 1;
    }
    true
}

} // verus!
