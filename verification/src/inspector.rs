//! The edits the inspector panel makes to a single zone or edge, and to
//! the workspace's own settings.
use vstd::prelude::*;
use crate::graph::same_meta;
use crate::keyed::{as_map, find_key, keys_sorted};
use crate::node_edit::existing_zone_ids;
use crate::props::{
    bool_set, parse_properties_text, prop_set, props_from_lines, set_bool_prop, set_prop, text_map,
    assoc_ids,
};
use crate::node_edit::known_zones;
use crate::sync::replace_edge;
use crate::text::{raw_lines, trim, trimmed};
use crate::workspace::{texts_of, CoordMode, EdgeJson, JsonPoint, WorkspaceJson, ZoneJson, DEFAULT_LAT_BITS, DEFAULT_LON_BITS};
use crate::zone_edit::replace_zone;

verus! {

/// `a` is edge `b` with the given ends, direction, weight, zones and
/// properties.
pub open spec fn edge_same_except(
    a: EdgeJson,
    b: EdgeJson,
    source: Seq<char>,
    target: Seq<char>,
    directed: bool,
    weight: u64,
    zone_ids: Seq<Seq<char>>,
    props: Map<Seq<char>, Seq<char>>,
) -> bool {
    &&& a.id@ == b.id@
    &&& a.source_id@ == source
    &&& a.target_id@ == target
    &&& a.directed == directed
    &&& a.weight == weight
    &&& texts_of(a.zone_ids@) == zone_ids
    &&& text_map(a.properties@) == props
}

/// `after` is `before` with the edge stored under `id`, if there is one,
/// changed as `edge_same_except` says; all else stays.
pub open spec fn edge_edited(
    before: WorkspaceJson,
    after: WorkspaceJson,
    id: Seq<char>,
    source: Seq<char>,
    target: Seq<char>,
    directed: bool,
    weight: u64,
    zone_ids: Seq<Seq<char>>,
    props: Map<Seq<char>, Seq<char>>,
) -> bool {
    let m0 = as_map(before.edges@);
    let m = as_map(after.edges@);
    &&& same_meta(after, before)
    &&& after.zones@ == before.zones@
    &&& after.nodes@ == before.nodes@
    &&& if m0.contains_key(id) {
        &&& m.dom() == m0.dom()
        &&& forall|k: Seq<char>| #[trigger] m.contains_key(k) && k != id ==> m[k] == m0[k]
        &&& edge_same_except(m[id], m0[id], source, target, directed, weight, zone_ids, props)
    } else {
        after.edges@ == before.edges@
    }
}

/// The position of edge `id` and a copy of it.
fn edge_slot(ws: &WorkspaceJson, id: &str) -> (r: Option<(usize, EdgeJson)>)
    requires
        ws.wf(),
    ensures
        match r {
            Some((i, e)) => {
                &&& i < ws.edges@.len()
                &&& ws.edges@[i as int].0@ == id@
                &&& as_map(ws.edges@).contains_key(id@)
                &&& as_map(ws.edges@)[id@] == ws.edges@[i as int].1
                &&& edge_same_except(
                    e,
                    ws.edges@[i as int].1,
                    ws.edges@[i as int].1.source_id@,
                    ws.edges@[i as int].1.target_id@,
                    ws.edges@[i as int].1.directed,
                    ws.edges@[i as int].1.weight,
                    texts_of(ws.edges@[i as int].1.zone_ids@),
                    text_map(ws.edges@[i as int].1.properties@),
                )
                &&& e.properties@ == ws.edges@[i as int].1.properties@
                &&& keys_sorted(e.properties@)
            },
            None => !as_map(ws.edges@).contains_key(id@),
        },
{
    match find_key(&ws.edges, id) {
        Some(i) => {
            proof {
                crate::keyed::lemma_lookup_at(ws.edges@, i as int);
                assert(keys_sorted(ws.edges@[i as int].1.properties@));
            }
            Some((i, ws.edges[i].1.clone()))
        },
        None => None,
    }
}

/// Stores edge `e` back at position `i`, where edge `id` was.
fn store_edge(ws: &mut WorkspaceJson, i: usize, e: EdgeJson, id: Ghost<Seq<char>>)
    requires
        old(ws).wf(),
        i < old(ws).edges@.len(),
        old(ws).edges@[i as int].0@ == id@,
        keys_sorted(e.properties@),
    ensures
        final(ws).wf(),
        same_meta(*final(ws), *old(ws)),
        final(ws).zones@ == old(ws).zones@,
        final(ws).nodes@ == old(ws).nodes@,
        as_map(final(ws).edges@).dom() == as_map(old(ws).edges@).dom(),
        forall|k: Seq<char>| #[trigger] as_map(final(ws).edges@).contains_key(k) && k != id@
            ==> as_map(final(ws).edges@)[k] == as_map(old(ws).edges@)[k],
        as_map(final(ws).edges@)[id@] == e,
{
    let ghost before = ws.edges@;
    replace_edge(ws, i, e);
    proof {
        crate::keyed::lemma_lookup_at(before, i as int);
        assert(as_map(ws.edges@) == as_map(before).insert(id@, e)) by {
            crate::keyed::lemma_lookup_at(ws.edges@, i as int);
            assert(ws.edges@ == before.update(i as int, (before[i as int].0, e)));
            assert forall|k: Seq<char>| #[trigger] as_map(ws.edges@).contains_key(k) <==> as_map(before).insert(id@, e).contains_key(k) by {
                if crate::keyed::has_key(ws.edges@, k) {
                    let j = crate::keyed::key_pos(ws.edges@, k);
                    assert(before[j].0 == ws.edges@[j].0);
                }
                if crate::keyed::has_key(before, k) {
                    let j = crate::keyed::key_pos(before, k);
                    assert(before[j].0 == ws.edges@[j].0);
                }
            }
            assert forall|k: Seq<char>| #[trigger] as_map(ws.edges@).contains_key(k) implies as_map(ws.edges@)[k] == as_map(before).insert(id@, e)[k] by {
                let j = crate::keyed::key_pos(ws.edges@, k);
                crate::keyed::lemma_lookup_at(ws.edges@, j);
                assert(before[j].0 == ws.edges@[j].0);
                crate::keyed::lemma_lookup_at(before, j);
                if k == id@ {
                    crate::keyed::lemma_sorted_unique(before, j, i as int);
                }
            }
            assert(as_map(ws.edges@) =~= as_map(before).insert(id@, e));
        }
        assert(as_map(ws.edges@).dom() =~= as_map(before).dom());
    }
}

/// `after` is `before` with the ends of edge `id` swapped, if there is
/// such an edge.
pub open spec fn edge_reversed(before: WorkspaceJson, after: WorkspaceJson, id: Seq<char>) -> bool {
    let e0 = as_map(before.edges@)[id];
    edge_edited(
        before,
        after,
        id,
        e0.target_id@,
        e0.source_id@,
        e0.directed,
        e0.weight,
        texts_of(e0.zone_ids@),
        text_map(e0.properties@),
    )
}

/// Reversing an edge twice gives back the workspace: the same tables and
/// settings, every other edge as it was, and the edge with its own ends,
/// direction, weight, zones and properties.
pub proof fn lemma_reverse_twice(w0: WorkspaceJson, w1: WorkspaceJson, w2: WorkspaceJson, id: Seq<char>)
    requires
        edge_reversed(w0, w1, id),
        edge_reversed(w1, w2, id),
    ensures
        same_meta(w2, w0),
        w2.zones@ == w0.zones@,
        w2.nodes@ == w0.nodes@,
        ({
            let m0 = as_map(w0.edges@);
            let m2 = as_map(w2.edges@);
            if m0.contains_key(id) {
                &&& m2.dom() == m0.dom()
                &&& forall|k: Seq<char>| #[trigger] m2.contains_key(k) && k != id ==> m2[k] == m0[k]
                &&& edge_same_except(
                    m2[id],
                    m0[id],
                    m0[id].source_id@,
                    m0[id].target_id@,
                    m0[id].directed,
                    m0[id].weight,
                    texts_of(m0[id].zone_ids@),
                    text_map(m0[id].properties@),
                )
            } else {
                w2.edges@ == w0.edges@
            }
        }),
{
    let m0 = as_map(w0.edges@);
    let m1 = as_map(w1.edges@);
    let m2 = as_map(w2.edges@);
    if m0.contains_key(id) {
        assert(m1.contains_key(id));
        assert forall|k: Seq<char>| #[trigger] m2.contains_key(k) && k != id implies m2[k] == m0[k] by {
            assert(m1.contains_key(k));
        }
    }
}

/// Swaps the ends of edge `edge_id`.
pub fn reverse_edge(ws: &mut WorkspaceJson, edge_id: &str)
    requires
        old(ws).wf(),
    ensures
        final(ws).wf(),
        edge_reversed(*old(ws), *final(ws), edge_id@),
{
    let (i, mut e) = match edge_slot(ws, edge_id) {
        None => {
            return ;
        },
        Some(p) => p,
    };
    core::mem::swap(&mut e.source_id, &mut e.target_id);
    store_edge(ws, i, e, Ghost(edge_id@));
}

/// Sets the start of edge `edge_id` to the trimmed `value`.
pub fn set_edge_source(ws: &mut WorkspaceJson, edge_id: &str, value: &str)
    requires
        old(ws).wf(),
    ensures
        final(ws).wf(),
        ({
            let e0 = as_map(old(ws).edges@)[edge_id@];
            edge_edited(
                *old(ws),
                *final(ws),
                edge_id@,
                trim(value@),
                e0.target_id@,
                e0.directed,
                e0.weight,
                texts_of(e0.zone_ids@),
                text_map(e0.properties@),
            )
        }),
{
    let (i, mut e) = match edge_slot(ws, edge_id) {
        None => {
            return ;
        },
        Some(p) => p,
    };
    e.source_id = trimmed(value);
    store_edge(ws, i, e, Ghost(edge_id@));
}

/// Sets the end of edge `edge_id` to the trimmed `value`.
pub fn set_edge_target(ws: &mut WorkspaceJson, edge_id: &str, value: &str)
    requires
        old(ws).wf(),
    ensures
        final(ws).wf(),
        ({
            let e0 = as_map(old(ws).edges@)[edge_id@];
            edge_edited(
                *old(ws),
                *final(ws),
                edge_id@,
                e0.source_id@,
                trim(value@),
                e0.directed,
                e0.weight,
                texts_of(e0.zone_ids@),
                text_map(e0.properties@),
            )
        }),
{
    let (i, mut e) = match edge_slot(ws, edge_id) {
        None => {
            return ;
        },
        Some(p) => p,
    };
    e.target_id = trimmed(value);
    store_edge(ws, i, e, Ghost(edge_id@));
}

/// Makes edge `edge_id` directed or not.
pub fn set_edge_directed(ws: &mut WorkspaceJson, edge_id: &str, directed: bool)
    requires
        old(ws).wf(),
    ensures
        final(ws).wf(),
        ({
            let e0 = as_map(old(ws).edges@)[edge_id@];
            edge_edited(
                *old(ws),
                *final(ws),
                edge_id@,
                e0.source_id@,
                e0.target_id@,
                directed,
                e0.weight,
                texts_of(e0.zone_ids@),
                text_map(e0.properties@),
            )
        }),
{
    let (i, mut e) = match edge_slot(ws, edge_id) {
        None => {
            return ;
        },
        Some(p) => p,
    };
    e.directed = directed;
    store_edge(ws, i, e, Ghost(edge_id@));
}

/// Sets the weight of edge `edge_id` (the bits of an `f64`).
pub fn set_edge_weight(ws: &mut WorkspaceJson, edge_id: &str, weight: u64)
    requires
        old(ws).wf(),
    ensures
        final(ws).wf(),
        ({
            let e0 = as_map(old(ws).edges@)[edge_id@];
            edge_edited(
                *old(ws),
                *final(ws),
                edge_id@,
                e0.source_id@,
                e0.target_id@,
                e0.directed,
                weight,
                texts_of(e0.zone_ids@),
                text_map(e0.properties@),
            )
        }),
{
    let (i, mut e) = match edge_slot(ws, edge_id) {
        None => {
            return ;
        },
        Some(p) => p,
    };
    e.weight = weight;
    store_edge(ws, i, e, Ghost(edge_id@));
}

/// Sets the zones of edge `edge_id` from the association text: the ids it
/// lists that name stored zones.
pub fn set_edge_zones_text(ws: &mut WorkspaceJson, edge_id: &str, text: &str)
    requires
        old(ws).wf(),
    ensures
        final(ws).wf(),
        ({
            let e0 = as_map(old(ws).edges@)[edge_id@];
            edge_edited(
                *old(ws),
                *final(ws),
                edge_id@,
                e0.source_id@,
                e0.target_id@,
                e0.directed,
                e0.weight,
                known_zones(*old(ws), assoc_ids(raw_lines(text@))),
                text_map(e0.properties@),
            )
        }),
{
    let zone_ids = existing_zone_ids(ws, text);
    let (i, mut e) = match edge_slot(ws, edge_id) {
        None => {
            return ;
        },
        Some(p) => p,
    };
    e.zone_ids = zone_ids;
    store_edge(ws, i, e, Ghost(edge_id@));
}

/// Sets property `key` of edge `edge_id` as `set_prop` does.
pub fn set_edge_prop(ws: &mut WorkspaceJson, edge_id: &str, key: &str, value: String)
    requires
        old(ws).wf(),
    ensures
        final(ws).wf(),
        ({
            let e0 = as_map(old(ws).edges@)[edge_id@];
            edge_edited(
                *old(ws),
                *final(ws),
                edge_id@,
                e0.source_id@,
                e0.target_id@,
                e0.directed,
                e0.weight,
                texts_of(e0.zone_ids@),
                prop_set(text_map(e0.properties@), key@, value@),
            )
        }),
{
    let (i, mut e) = match edge_slot(ws, edge_id) {
        None => {
            return ;
        },
        Some(p) => p,
    };
    set_prop(&mut e.properties, key, value);
    store_edge(ws, i, e, Ghost(edge_id@));
}

/// Sets flag `key` of edge `edge_id` as `set_bool_prop` does.
pub fn set_edge_flag(ws: &mut WorkspaceJson, edge_id: &str, key: &str, value: bool)
    requires
        old(ws).wf(),
    ensures
        final(ws).wf(),
        ({
            let e0 = as_map(old(ws).edges@)[edge_id@];
            edge_edited(
                *old(ws),
                *final(ws),
                edge_id@,
                e0.source_id@,
                e0.target_id@,
                e0.directed,
                e0.weight,
                texts_of(e0.zone_ids@),
                bool_set(text_map(e0.properties@), key@, value),
            )
        }),
{
    let (i, mut e) = match edge_slot(ws, edge_id) {
        None => {
            return ;
        },
        Some(p) => p,
    };
    set_bool_prop(&mut e.properties, key, value);
    store_edge(ws, i, e, Ghost(edge_id@));
}

/// Replaces the properties of edge `edge_id` with those the property text
/// sets.
pub fn set_edge_properties_text(ws: &mut WorkspaceJson, edge_id: &str, text: &str)
    requires
        old(ws).wf(),
    ensures
        final(ws).wf(),
        ({
            let e0 = as_map(old(ws).edges@)[edge_id@];
            edge_edited(
                *old(ws),
                *final(ws),
                edge_id@,
                e0.source_id@,
                e0.target_id@,
                e0.directed,
                e0.weight,
                texts_of(e0.zone_ids@),
                props_from_lines(raw_lines(text@)),
            )
        }),
{
    let (i, mut e) = match edge_slot(ws, edge_id) {
        None => {
            return ;
        },
        Some(p) => p,
    };
    e.properties = parse_properties_text(text);
    store_edge(ws, i, e, Ghost(edge_id@));
}

/// `a` is zone `b` with the given name, type, grid settings, polygon and
/// properties; its place in the hierarchy and its node list stay.
pub open spec fn zone_fields(
    a: ZoneJson,
    b: ZoneJson,
    name: Seq<char>,
    zone_type: Seq<char>,
    grid_enabled: bool,
    grid_resolution: u64,
    polygon: Seq<JsonPoint>,
    props: Map<Seq<char>, Seq<char>>,
) -> bool {
    &&& a.id@ == b.id@
    &&& a.name@ == name
    &&& a.zone_type@ == zone_type
    &&& a.parent_id@ == b.parent_id@
    &&& texts_of(a.child_ids@) == texts_of(b.child_ids@)
    &&& texts_of(a.node_ids@) == texts_of(b.node_ids@)
    &&& a.grid_enabled == grid_enabled
    &&& a.grid_resolution == grid_resolution
    &&& a.polygon_latlon@ == polygon
    &&& text_map(a.properties@) == props
}

/// `after` is `before` with the zone stored under `id`, if there is one,
/// changed as `zone_fields` says; all else stays.
pub open spec fn zone_updated(
    before: WorkspaceJson,
    after: WorkspaceJson,
    id: Seq<char>,
    name: Seq<char>,
    zone_type: Seq<char>,
    grid_enabled: bool,
    grid_resolution: u64,
    polygon: Seq<JsonPoint>,
    props: Map<Seq<char>, Seq<char>>,
) -> bool {
    let m0 = as_map(before.zones@);
    let m = as_map(after.zones@);
    &&& same_meta(after, before)
    &&& after.nodes@ == before.nodes@
    &&& after.edges@ == before.edges@
    &&& if m0.contains_key(id) {
        &&& m.dom() == m0.dom()
        &&& forall|k: Seq<char>| #[trigger] m.contains_key(k) && k != id ==> m[k] == m0[k]
        &&& zone_fields(m[id], m0[id], name, zone_type, grid_enabled, grid_resolution, polygon, props)
    } else {
        after.zones@ == before.zones@
    }
}

/// The position of zone `id` and a copy of it.
fn zone_slot(ws: &WorkspaceJson, id: &str) -> (r: Option<(usize, ZoneJson)>)
    requires
        ws.wf(),
    ensures
        match r {
            Some((i, z)) => {
                let z0 = ws.zones@[i as int].1;
                &&& i < ws.zones@.len()
                &&& ws.zones@[i as int].0@ == id@
                &&& as_map(ws.zones@).contains_key(id@)
                &&& as_map(ws.zones@)[id@] == z0
                &&& zone_fields(
                    z,
                    z0,
                    z0.name@,
                    z0.zone_type@,
                    z0.grid_enabled,
                    z0.grid_resolution,
                    z0.polygon_latlon@,
                    text_map(z0.properties@),
                )
                &&& z.properties@ == z0.properties@
                &&& keys_sorted(z.properties@)
            },
            None => !as_map(ws.zones@).contains_key(id@),
        },
{
    match find_key(&ws.zones, id) {
        Some(i) => {
            proof {
                crate::keyed::lemma_lookup_at(ws.zones@, i as int);
                assert(keys_sorted(ws.zones@[i as int].1.properties@));
            }
            Some((i, ws.zones[i].1.clone()))
        },
        None => None,
    }
}

/// Stores zone `z` back at position `i`, where zone `id` was.
fn store_zone(ws: &mut WorkspaceJson, i: usize, z: ZoneJson, id: Ghost<Seq<char>>)
    requires
        old(ws).wf(),
        i < old(ws).zones@.len(),
        old(ws).zones@[i as int].0@ == id@,
        keys_sorted(z.properties@),
    ensures
        final(ws).wf(),
        same_meta(*final(ws), *old(ws)),
        final(ws).nodes@ == old(ws).nodes@,
        final(ws).edges@ == old(ws).edges@,
        as_map(final(ws).zones@).dom() == as_map(old(ws).zones@).dom(),
        forall|k: Seq<char>| #[trigger] as_map(final(ws).zones@).contains_key(k) && k != id@
            ==> as_map(final(ws).zones@)[k] == as_map(old(ws).zones@)[k],
        as_map(final(ws).zones@)[id@] == z,
{
    replace_zone(ws, i, z);
    assert(as_map(ws.zones@).dom() =~= as_map(old(ws).zones@).dom());
}

/// Renames zone `zone_id`.
pub fn rename_zone(ws: &mut WorkspaceJson, zone_id: &str, name: String)
    requires
        old(ws).wf(),
    ensures
        final(ws).wf(),
        ({
            let z0 = as_map(old(ws).zones@)[zone_id@];
            zone_updated(*old(ws), *final(ws), zone_id@, name@, z0.zone_type@, z0.grid_enabled,
                z0.grid_resolution, z0.polygon_latlon@, text_map(z0.properties@))
        }),
{
    let (i, mut z) = match zone_slot(ws, zone_id) {
        None => {
            return ;
        },
        Some(p) => p,
    };
    z.name = name;
    store_zone(ws, i, z, Ghost(zone_id@));
}

/// Sets the type of zone `zone_id`.
pub fn set_zone_type(ws: &mut WorkspaceJson, zone_id: &str, zone_type: String)
    requires
        old(ws).wf(),
    ensures
        final(ws).wf(),
        ({
            let z0 = as_map(old(ws).zones@)[zone_id@];
            zone_updated(*old(ws), *final(ws), zone_id@, z0.name@, zone_type@, z0.grid_enabled,
                z0.grid_resolution, z0.polygon_latlon@, text_map(z0.properties@))
        }),
{
    let (i, mut z) = match zone_slot(ws, zone_id) {
        None => {
            return ;
        },
        Some(p) => p,
    };
    z.zone_type = zone_type;
    store_zone(ws, i, z, Ghost(zone_id@));
}

/// Turns the grid of zone `zone_id` on or off.
pub fn set_zone_grid_enabled(ws: &mut WorkspaceJson, zone_id: &str, enabled: bool)
    requires
        old(ws).wf(),
    ensures
        final(ws).wf(),
        ({
            let z0 = as_map(old(ws).zones@)[zone_id@];
            zone_updated(*old(ws), *final(ws), zone_id@, z0.name@, z0.zone_type@, enabled,
                z0.grid_resolution, z0.polygon_latlon@, text_map(z0.properties@))
        }),
{
    let (i, mut z) = match zone_slot(ws, zone_id) {
        None => {
            return ;
        },
        Some(p) => p,
    };
    z.grid_enabled = enabled;
    store_zone(ws, i, z, Ghost(zone_id@));
}

/// Sets the grid resolution of zone `zone_id` (the bits of an `f64`).
pub fn set_zone_grid_resolution(ws: &mut WorkspaceJson, zone_id: &str, resolution: u64)
    requires
        old(ws).wf(),
    ensures
        final(ws).wf(),
        ({
            let z0 = as_map(old(ws).zones@)[zone_id@];
            zone_updated(*old(ws), *final(ws), zone_id@, z0.name@, z0.zone_type@, z0.grid_enabled,
                resolution, z0.polygon_latlon@, text_map(z0.properties@))
        }),
{
    let (i, mut z) = match zone_slot(ws, zone_id) {
        None => {
            return ;
        },
        Some(p) => p,
    };
    z.grid_resolution = resolution;
    store_zone(ws, i, z, Ghost(zone_id@));
}

/// Replaces the polygon of zone `zone_id`.
pub fn set_zone_polygon(ws: &mut WorkspaceJson, zone_id: &str, polygon: Vec<JsonPoint>)
    requires
        old(ws).wf(),
    ensures
        final(ws).wf(),
        ({
            let z0 = as_map(old(ws).zones@)[zone_id@];
            zone_updated(*old(ws), *final(ws), zone_id@, z0.name@, z0.zone_type@, z0.grid_enabled,
                z0.grid_resolution, polygon@, text_map(z0.properties@))
        }),
{
    let (i, mut z) = match zone_slot(ws, zone_id) {
        None => {
            return ;
        },
        Some(p) => p,
    };
    z.polygon_latlon = polygon;
    store_zone(ws, i, z, Ghost(zone_id@));
}

/// Sets property `key` of zone `zone_id` as `set_prop` does.
pub fn set_zone_prop(ws: &mut WorkspaceJson, zone_id: &str, key: &str, value: String)
    requires
        old(ws).wf(),
    ensures
        final(ws).wf(),
        ({
            let z0 = as_map(old(ws).zones@)[zone_id@];
            zone_updated(*old(ws), *final(ws), zone_id@, z0.name@, z0.zone_type@, z0.grid_enabled,
                z0.grid_resolution, z0.polygon_latlon@, prop_set(text_map(z0.properties@), key@, value@))
        }),
{
    let (i, mut z) = match zone_slot(ws, zone_id) {
        None => {
            return ;
        },
        Some(p) => p,
    };
    set_prop(&mut z.properties, key, value);
    store_zone(ws, i, z, Ghost(zone_id@));
}

/// Sets flag `key` of zone `zone_id` as `set_bool_prop` does.
pub fn set_zone_flag(ws: &mut WorkspaceJson, zone_id: &str, key: &str, value: bool)
    requires
        old(ws).wf(),
    ensures
        final(ws).wf(),
        ({
            let z0 = as_map(old(ws).zones@)[zone_id@];
            zone_updated(*old(ws), *final(ws), zone_id@, z0.name@, z0.zone_type@, z0.grid_enabled,
                z0.grid_resolution, z0.polygon_latlon@, bool_set(text_map(z0.properties@), key@, value))
        }),
{
    let (i, mut z) = match zone_slot(ws, zone_id) {
        None => {
            return ;
        },
        Some(p) => p,
    };
    set_bool_prop(&mut z.properties, key, value);
    store_zone(ws, i, z, Ghost(zone_id@));
}

/// Replaces the properties of zone `zone_id` with those the property text
/// sets.
pub fn set_zone_properties_text(ws: &mut WorkspaceJson, zone_id: &str, text: &str)
    requires
        old(ws).wf(),
    ensures
        final(ws).wf(),
        ({
            let z0 = as_map(old(ws).zones@)[zone_id@];
            zone_updated(*old(ws), *final(ws), zone_id@, z0.name@, z0.zone_type@, z0.grid_enabled,
                z0.grid_resolution, z0.polygon_latlon@, props_from_lines(raw_lines(text@)))
        }),
{
    let (i, mut z) = match zone_slot(ws, zone_id) {
        None => {
            return ;
        },
        Some(p) => p,
    };
    z.properties = parse_properties_text(text);
    store_zone(ws, i, z, Ghost(zone_id@));
}

/// Switches between latitude/longitude and local X/Y: both the mode and
/// the local-reference mark follow `local`.
pub fn set_reference_mode(ws: &mut WorkspaceJson, local: bool)
    ensures
        *final(ws) == (WorkspaceJson {
            local_ref: local,
            coord_mode: if local {
                CoordMode::Local
            } else {
                CoordMode::Global
            },
            ..*old(ws)
        }),
{
    ws.local_ref = local;
    ws.coord_mode = if local {
        CoordMode::Local
    } else {
        CoordMode::Global
    };
}

/// Places the reference point; it also becomes the datum when there is
/// none.
pub fn set_reference_point(ws: &mut WorkspaceJson, point: JsonPoint)
    ensures
        *final(ws) == (WorkspaceJson {
            ref_point: Some(point),
            datum: Some(located_datum(old(ws).datum, point)),
            ..*old(ws)
        }),
{
    ws.ref_point = Some(point);
    if ws.datum.is_none() {
        ws.datum = Some(point);
    }
}

/// The datum after the browser located the user at `point`: an existing
/// datum is kept, otherwise the located point becomes the datum.
pub open spec fn located_datum(datum: Option<JsonPoint>, point: JsonPoint) -> JsonPoint {
    match datum {
        Some(d) => d,
        None => point,
    }
}

/// Takes the point the browser located the user at: it becomes the datum
/// when there is none; nothing else changes.
pub fn apply_located_point(ws: &mut WorkspaceJson, point: JsonPoint)
    ensures
        *final(ws) == (WorkspaceJson { datum: Some(located_datum(old(ws).datum, point)), ..*old(ws) }),
{
    if ws.datum.is_none() {
        ws.datum = Some(point);
    }
}

/// The datum after one coordinate was typed (see `set_datum_axis`).
pub open spec fn datum_with_axis(datum: Option<JsonPoint>, value: Option<u64>, latitude: bool) -> Option<JsonPoint> {
    match value {
        None => None,
        Some(v) => {
            let current = match datum {
                Some(d) => d,
                None => JsonPoint { lat: DEFAULT_LAT_BITS, lon: DEFAULT_LON_BITS },
            };
            if latitude {
                Some(JsonPoint { lat: v, lon: current.lon })
            } else {
                Some(JsonPoint { lat: current.lat, lon: v })
            }
        },
    }
}

/// Sets one coordinate of the datum (the latitude when `latitude`, else
/// the longitude) from what was typed: `None` (nothing readable) clears
/// the datum; otherwise the other coordinate comes from the current datum,
/// or from the default 52° N 5° E.
pub fn set_datum_axis(ws: &mut WorkspaceJson, value: Option<u64>, latitude: bool)
    ensures
        *final(ws) == (WorkspaceJson { datum: datum_with_axis(old(ws).datum, value, latitude), ..*old(ws) }),
{
    let current = match ws.datum {
        Some(d) => d,
        None => JsonPoint { lat: DEFAULT_LAT_BITS, lon: DEFAULT_LON_BITS },
    };
    ws.datum = match value {
        None => None,
        Some(v) => if latitude {
            Some(JsonPoint { lat: v, lon: current.lon })
        } else {
            Some(JsonPoint { lat: current.lat, lon: v })
        },
    };
}

} // verus!
