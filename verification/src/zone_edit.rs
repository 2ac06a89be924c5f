//! Edits of the zone hierarchy: drawing a new zone, deleting a zone, and
//! deleting a vertex of a zone's polygon.
use vstd::prelude::*;
use crate::graph::{same_meta, ONE_BITS};
use crate::keyed::{as_map, find_key, has_key, insert_key, key_pos, keys_sorted, lookup, remove_key, set_value_at};
use crate::platform::{is_uuid_v4_text, new_id};
use crate::text::{append_decimal, decimal, text_eq};
use crate::workspace::{clone_texts, root_ids_spec, root_zone_ids, same_zone, texts_of, JsonPoint, WorkspaceJson, ZoneJson};

verus! {

/// `a` is `b` with the given parent, children and polygon.
pub open spec fn zone_same_except(
    a: ZoneJson,
    b: ZoneJson,
    parent: Seq<char>,
    children: Seq<Seq<char>>,
    polygon: Seq<JsonPoint>,
) -> bool {
    &&& a.id@ == b.id@
    &&& a.name@ == b.name@
    &&& a.zone_type@ == b.zone_type@
    &&& a.parent_id@ == parent
    &&& texts_of(a.child_ids@) == children
    &&& texts_of(a.node_ids@) == texts_of(b.node_ids@)
    &&& a.polygon_latlon@ == polygon
    &&& a.grid_enabled == b.grid_enabled
    &&& a.grid_resolution == b.grid_resolution
    &&& a.properties@ == b.properties@
}

/// Puts `z` in place of the zone at position `i`.
pub(crate) fn replace_zone(ws: &mut WorkspaceJson, i: usize, z: ZoneJson)
    requires
        old(ws).wf(),
        i < old(ws).zones@.len(),
        keys_sorted(z.properties@),
    ensures
        final(ws).wf(),
        same_meta(*final(ws), *old(ws)),
        final(ws).nodes@ == old(ws).nodes@,
        final(ws).edges@ == old(ws).edges@,
        final(ws).zones@ == old(ws).zones@.update(i as int, (old(ws).zones@[i as int].0, z)),
        as_map(final(ws).zones@) == as_map(old(ws).zones@).insert(old(ws).zones@[i as int].0@, z),
{
    let ghost before = ws.zones@;
    set_value_at(&mut ws.zones, i, z);
    proof {
        assert forall|j: int| 0 <= j < ws.zones@.len() implies keys_sorted(
            (#[trigger] ws.zones@[j]).1.properties@,
        ) by {
            if j != i {
                assert(ws.zones@[j] == before[j]);
            }
        }
    }
}

/// Removing vertex `index` of zone `zone_id`: done where the zone exists,
/// has more than three vertices and such a vertex, else the zone table is
/// unchanged.
pub open spec fn vertex_removed(before: WorkspaceJson, after: WorkspaceJson, zone_id: Seq<char>, index: int) -> bool {
    let zs = before.zones@;
    let p = key_pos(zs, zone_id);
    if has_key(zs, zone_id) && zs[p].1.polygon_latlon@.len() > 3 && 0 <= index < zs[p].1.polygon_latlon@.len() {
        polygon_replaced(before, after, zone_id, zs[p].1.polygon_latlon@.remove(index))
    } else {
        after.zones@ == zs
    }
}

/// Removes vertex `index` of zone `zone_id`'s polygon, unless the zone is
/// missing, the index is out of range, or only three vertices are left.
pub fn remove_zone_vertex(ws: &mut WorkspaceJson, zone_id: &str, index: usize)
    requires
        old(ws).wf(),
    ensures
        final(ws).wf(),
        same_meta(*final(ws), *old(ws)),
        final(ws).nodes@ == old(ws).nodes@,
        final(ws).edges@ == old(ws).edges@,
        vertex_removed(*old(ws), *final(ws), zone_id@, index as int),
{
    let i = match find_key(&ws.zones, zone_id) {
        None => {
            return ;
        },
        Some(i) => i,
    };
    let len = ws.zones[i].1.polygon_latlon.len();
    if len <= 3 || index >= len {
        return ;
    }
    let mut z = ws.zones[i].1.clone();
    z.polygon_latlon.remove(index);
    replace_zone(ws, i, z);
}

/// `after`'s zone table is `before`'s with the polygon of zone `zone_id`
/// (which is stored) replaced by `polygon`, all else of the zone kept.
pub open spec fn polygon_replaced(
    before: WorkspaceJson,
    after: WorkspaceJson,
    zone_id: Seq<char>,
    polygon: Seq<JsonPoint>,
) -> bool {
    let zs = before.zones@;
    let p = key_pos(zs, zone_id);
    &&& after.zones@.len() == zs.len()
    &&& forall|j: int| 0 <= j < zs.len() && j != p ==> #[trigger] after.zones@[j] == zs[j]
    &&& after.zones@[p].0 == zs[p].0
    &&& zone_same_except(
        after.zones@[p].1,
        zs[p].1,
        zs[p].1.parent_id@,
        texts_of(zs[p].1.child_ids@),
        polygon,
    )
}

/// Inserting `point` at `index` into zone `zone_id`'s polygon: done where
/// the zone exists, else the zone table is unchanged.
pub open spec fn vertex_inserted(
    before: WorkspaceJson,
    after: WorkspaceJson,
    zone_id: Seq<char>,
    index: int,
    point: JsonPoint,
) -> bool {
    let zs = before.zones@;
    if has_key(zs, zone_id) {
        polygon_replaced(before, after, zone_id, zs[key_pos(zs, zone_id)].1.polygon_latlon@.insert(index, point))
    } else {
        after.zones@ == zs
    }
}

/// Moving vertex `index` of zone `zone_id` to `point`: done where the zone
/// and the vertex exist, else the zone table is unchanged.
pub open spec fn vertex_moved(
    before: WorkspaceJson,
    after: WorkspaceJson,
    zone_id: Seq<char>,
    index: int,
    point: JsonPoint,
) -> bool {
    let zs = before.zones@;
    let p = key_pos(zs, zone_id);
    if has_key(zs, zone_id) && 0 <= index < zs[p].1.polygon_latlon@.len() {
        polygon_replaced(before, after, zone_id, zs[p].1.polygon_latlon@.update(index, point))
    } else {
        after.zones@ == zs
    }
}

/// Inserts `point` into zone `zone_id`'s polygon at position `index`
/// (nothing happens when there is no such zone).
pub fn insert_zone_vertex(ws: &mut WorkspaceJson, zone_id: &str, index: usize, point: JsonPoint)
    requires
        old(ws).wf(),
        has_key(old(ws).zones@, zone_id@) ==> index <= old(ws).zones@[key_pos(
            old(ws).zones@,
            zone_id@,
        )].1.polygon_latlon@.len(),
    ensures
        final(ws).wf(),
        same_meta(*final(ws), *old(ws)),
        final(ws).nodes@ == old(ws).nodes@,
        final(ws).edges@ == old(ws).edges@,
        vertex_inserted(*old(ws), *final(ws), zone_id@, index as int, point),
{
    let i = match find_key(&ws.zones, zone_id) {
        None => {
            return ;
        },
        Some(i) => i,
    };
    let mut z = ws.zones[i].1.clone();
    z.polygon_latlon.insert(index, point);
    replace_zone(ws, i, z);
}

/// Moves vertex `index` of zone `zone_id`'s polygon to `point`, when the
/// zone exists and has such a vertex.
pub fn move_zone_vertex(ws: &mut WorkspaceJson, zone_id: &str, index: usize, point: JsonPoint)
    requires
        old(ws).wf(),
    ensures
        final(ws).wf(),
        same_meta(*final(ws), *old(ws)),
        final(ws).nodes@ == old(ws).nodes@,
        final(ws).edges@ == old(ws).edges@,
        vertex_moved(*old(ws), *final(ws), zone_id@, index as int, point),
{
    let i = match find_key(&ws.zones, zone_id) {
        None => {
            return ;
        },
        Some(i) => i,
    };
    if index >= ws.zones[i].1.polygon_latlon.len() {
        return ;
    }
    let mut z = ws.zones[i].1.clone();
    z.polygon_latlon.set(index, point);
    replace_zone(ws, i, z);
}

/// The name a newly drawn zone gets: `Root Zone` without a parent,
/// otherwise `Zone n` for the `n`-th zone.
pub open spec fn new_zone_name(is_root: bool, n: nat) -> Seq<char> {
    if is_root {
        "Root Zone"@
    } else {
        "Zone "@ + decimal(n)
    }
}

/// `z` is the zone drawn under `id` as the `n`-th zone with `polygon`
/// below `parent` (none: the root).
pub open spec fn is_new_zone(
    z: ZoneJson,
    id: Seq<char>,
    n: nat,
    polygon: Seq<JsonPoint>,
    parent: Option<Seq<char>>,
) -> bool {
    &&& z.id@ == id
    &&& z.name@ == new_zone_name(parent is None, n)
    &&& z.zone_type@ == (if parent is None {
        "root"@
    } else {
        "zone"@
    })
    &&& z.parent_id@ == (match parent {
        Some(p) => p,
        None => Seq::empty(),
    })
    &&& z.child_ids@.len() == 0
    &&& z.node_ids@.len() == 0
    &&& z.polygon_latlon@ == polygon
    &&& !z.grid_enabled
    &&& z.grid_resolution == ONE_BITS
    &&& z.properties@.len() == 0
}

pub open spec fn opt_text(o: Option<String>) -> Option<Seq<char>> {
    match o {
        Some(p) => Some(p@),
        None => None,
    }
}

/// `after` is `before` with the zone drawn as `polygon` stored under `id`
/// below `parent`: the new zone (see `is_new_zone`), the parent's child
/// list extended by `id` when the parent exists, or `id` as the new root.
pub open spec fn zone_inserted(
    before: WorkspaceJson,
    after: WorkspaceJson,
    id: Seq<char>,
    polygon: Seq<JsonPoint>,
    parent: Option<Seq<char>>,
) -> bool {
    let n = (before.zones@.len() + 1) as nat;
    let m1 = as_map(before.zones@);
    let m = as_map(after.zones@);
    &&& m.dom() == m1.dom().insert(id)
    &&& match parent {
        None => {
            &&& after.root_zone_id@ == id
            &&& m.remove(id) == m1.remove(id)
            &&& is_new_zone(m[id], id, n, polygon, parent)
        },
        Some(p) => {
            &&& after.root_zone_id == before.root_zone_id
            &&& if p == id {
                &&& m.remove(id) == m1.remove(id)
                &&& exists|z: ZoneJson|
                    is_new_zone(z, id, n, polygon, parent) && zone_same_except(
                        m[id],
                        z,
                        z.parent_id@,
                        seq![id],
                        z.polygon_latlon@,
                    )
            } else {
                &&& is_new_zone(m[id], id, n, polygon, parent)
                &&& if m1.contains_key(p) {
                    &&& m.remove(id).remove(p) == m1.remove(id).remove(p)
                    &&& zone_same_except(
                        m[p],
                        m1[p],
                        m1[p].parent_id@,
                        texts_of(m1[p].child_ids@).push(id),
                        m1[p].polygon_latlon@,
                    )
                } else {
                    m.remove(id) == m1.remove(id)
                }
            }
        },
    }
}

/// Linking a new zone into its parent's child list gives `zone_inserted`.
proof fn lemma_child_linked(
    before: WorkspaceJson,
    after: WorkspaceJson,
    stored: ZoneJson,
    p: Seq<char>,
    pz: ZoneJson,
    polygon: Seq<JsonPoint>,
)
    requires
        is_new_zone(stored, stored.id@, (before.zones@.len() + 1) as nat, polygon, Some(p)),
        as_map(before.zones@).insert(stored.id@, stored).contains_key(p),
        as_map(after.zones@) == as_map(before.zones@).insert(stored.id@, stored).insert(p, pz),
        after.root_zone_id == before.root_zone_id,
        ({
            let q = as_map(before.zones@).insert(stored.id@, stored)[p];
            zone_same_except(
                pz,
                q,
                q.parent_id@,
                texts_of(q.child_ids@).push(stored.id@),
                q.polygon_latlon@,
            )
        }),
    ensures
        zone_inserted(before, after, stored.id@, polygon, Some(p)),
{
    let id = stored.id@;
    let m1 = as_map(before.zones@);
    let mm = m1.insert(id, stored);
    let m = as_map(after.zones@);
    assert(m.dom() =~= m1.dom().insert(id));
    if p == id {
        assert(m.remove(id) =~= m1.remove(id));
        assert(texts_of(stored.child_ids@) =~= Seq::<Seq<char>>::empty());
        assert(zone_same_except(m[id], stored, stored.parent_id@, seq![id], stored.polygon_latlon@));
    } else {
        assert(m[id] == stored);
        assert(m1.contains_key(p));
        assert(m.remove(id).remove(p) =~= m1.remove(id).remove(p));
    }
}

/// Adds the zone drawn as `polygon` under `zone_id`: below `parent_id`
/// (which then lists it as a child, if it exists) or, without a parent, as
/// the new root.
pub fn insert_zone(
    ws: &mut WorkspaceJson,
    zone_id: String,
    polygon: Vec<JsonPoint>,
    parent_id: Option<String>,
)
    requires
        old(ws).wf(),
        old(ws).zones@.len() < u64::MAX,
    ensures
        final(ws).wf(),
        final(ws).name == old(ws).name,
        final(ws).coord_mode == old(ws).coord_mode,
        final(ws).ref_point == old(ws).ref_point,
        final(ws).local_ref == old(ws).local_ref,
        final(ws).datum == old(ws).datum,
        final(ws).nodes@ == old(ws).nodes@,
        final(ws).edges@ == old(ws).edges@,
        zone_inserted(*old(ws), *final(ws), zone_id@, polygon@, opt_text(parent_id)),
{
    let count = ws.zones.len() as u64 + 1;
    let is_root = parent_id.is_none();
    let name = if is_root {
        String::from_str("Root Zone")
    } else {
        let mut n = String::from_str("Zone ");
        append_decimal(&mut n, count);
        n
    };
    let zone_type = if is_root {
        String::from_str("root")
    } else {
        String::from_str("zone")
    };
    let parent_text = match &parent_id {
        Some(p) => p.clone(),
        None => String::new(),
    };
    let zone = ZoneJson {
        id: zone_id.clone(),
        name,
        zone_type,
        parent_id: parent_text,
        child_ids: Vec::new(),
        node_ids: Vec::new(),
        polygon_latlon: polygon,
        grid_enabled: false,
        grid_resolution: ONE_BITS,
        properties: Vec::new(),
    };
    let ghost parent: Option<Seq<char>> = opt_text(parent_id);
    let ghost before_ws = *ws;
    let ghost stored = zone;
    let ghost old_zones = ws.zones@;
    proof {
        assert(is_new_zone(stored, zone_id@, count as nat, polygon@, parent));
    }
    insert_key(&mut ws.zones, zone_id.clone(), zone);
    proof {
        assert forall|j: int| 0 <= j < ws.zones@.len() implies keys_sorted(
            (#[trigger] ws.zones@[j]).1.properties@,
        ) by {
            crate::keyed::lemma_lookup_at(ws.zones@, j);
            let q = ws.zones@[j].0@;
            assert(as_map(ws.zones@).contains_key(q));
            assert(ws.zones@[j].1 == as_map(ws.zones@)[q]);
            if q != zone_id@ {
                assert(as_map(old_zones).insert(zone_id@, stored).contains_key(q));
                let o = key_pos(old_zones, q);
                crate::keyed::lemma_lookup_at(old_zones, o);
                assert(as_map(ws.zones@)[q] == as_map(old_zones)[q]);
            }
        }
        assert(as_map(ws.zones@)[zone_id@] == stored);
        assert(as_map(ws.zones@).dom() =~= as_map(old_zones).dom().insert(zone_id@));
        assert(as_map(ws.zones@).remove(zone_id@) =~= as_map(old_zones).remove(zone_id@));
    }
    let ghost mid = ws.zones@;
    match parent_id {
        Some(p) => {
            match find_key(&ws.zones, p.as_str()) {
                Some(pi) => {
                    let mut parent_zone = ws.zones[pi].1.clone();
                    parent_zone.child_ids.push(zone_id);
                    proof {
                        assert(texts_of(parent_zone.child_ids@) =~= texts_of(mid[pi as int].1.child_ids@).push(stored.id@));
                        crate::keyed::lemma_lookup_at(mid, pi as int);
                    }
                    let ghost pz = parent_zone;
                    replace_zone(ws, pi, parent_zone);
                    proof {
                        lemma_child_linked(before_ws, *ws, stored, p@, pz, polygon@);
                        assert(parent == Some(p@));
                        assert(zone_inserted(before_ws, *ws, stored.id@, polygon@, parent));
                    }
                },
                None => {
                    proof {
                        if p@ == stored.id@ {
                            assert(as_map(ws.zones@).contains_key(stored.id@));
                            assert(has_key(ws.zones@, stored.id@));
                        }
                        let m1 = as_map(before_ws.zones@);
                        let m = as_map(ws.zones@);
                        assert(m1.insert(stored.id@, stored).dom() =~= m.dom());
                        assert(!m.contains_key(p@));
                        assert(!m1.contains_key(p@));
                        assert(m[stored.id@] == stored);
                        assert(is_new_zone(m[stored.id@], stored.id@, (before_ws.zones@.len() + 1) as nat, polygon@, parent));
                        assert(m.remove(stored.id@) =~= m1.remove(stored.id@));
                        assert(zone_inserted(before_ws, *ws, stored.id@, polygon@, parent));
                    }
                },
            }
        },
        None => {
            ws.root_zone_id = zone_id;
        },
    }
}

/// `ids` without the occurrences of `id`.
pub open spec fn without_text(ids: Seq<Seq<char>>, id: Seq<char>) -> Seq<Seq<char>> {
    ids.filter(|c: Seq<char>| c != id)
}

/// A copy of `v` without the entries equal to `id` (`retain`).
fn texts_without(v: &Vec<String>, id: &str) -> (r: Vec<String>)
    ensures
        texts_of(r@) == without_text(texts_of(v@), id@),
{
    let ghost keep = |c: Seq<char>| c != id@;
    let ghost tv = texts_of(v@);
    let mut out: Vec<String> = Vec::new();
    let mut i: usize = 0;
    assert(tv.subrange(0, 0).filter(keep) =~= Seq::<Seq<char>>::empty());
    while i < v.len()
        invariant
            tv == texts_of(v@),
            i <= v@.len(),
            keep == (|c: Seq<char>| c != id@),
            texts_of(out@) == tv.subrange(0, i as int).filter(keep),
        decreases v@.len() - i,
    {
        let pass = !text_eq(v[i].as_str(), id);
        proof {
            let t = tv.subrange(0, i + 1);
            assert(t =~= tv.subrange(0, i as int).push(tv[i as int]));
            Seq::filter_distributes_over_add(tv.subrange(0, i as int), seq![tv[i as int]], keep);
            assert(tv.subrange(0, i as int) + seq![tv[i as int]] =~= t);
            assert(seq![tv[i as int]].filter(keep) =~= (if keep(tv[i as int]) {
                seq![tv[i as int]]
            } else {
                Seq::empty()
            })) by {
                reveal_with_fuel(Seq::filter, 2);
            }
        }
        if pass {
            let ghost before = texts_of(out@);
            out.push(v[i].clone());
            assert(texts_of(out@) =~= before.push(tv[i as int]));
        }
        i = i + 1;
    }
    assert(tv.subrange(0, v@.len() as int) =~= tv);
    out
}

/// A zone table whose entries keep the property tables they had in
/// another sorted table keeps them sorted.
proof fn lemma_zone_props_kept(old_s: Seq<(String, ZoneJson)>, ns: Seq<(String, ZoneJson)>)
    requires
        keys_sorted(old_s),
        keys_sorted(ns),
        forall|i: int| 0 <= i < old_s.len() ==> keys_sorted((#[trigger] old_s[i]).1.properties@),
        forall|k: Seq<char>| #[trigger]
            as_map(ns).contains_key(k) ==> as_map(old_s).contains_key(k) && as_map(ns)[k].properties@
                == as_map(old_s)[k].properties@,
    ensures
        forall|i: int| 0 <= i < ns.len() ==> keys_sorted((#[trigger] ns[i]).1.properties@),
{
    assert forall|i: int| 0 <= i < ns.len() implies keys_sorted((#[trigger] ns[i]).1.properties@) by {
        crate::keyed::lemma_lookup_at(ns, i);
        let q = ns[i].0@;
        assert(as_map(ns).contains_key(q));
        let j = key_pos(old_s, q);
        crate::keyed::lemma_lookup_at(old_s, j);
    }
}

/// The parent a zone stored under `k` keeps when zone `z` is deleted: none
/// if `z` lists it as a child.
pub open spec fn detached_parent(z: ZoneJson, k: Seq<char>, before: ZoneJson) -> Seq<char> {
    if texts_of(z.child_ids@).contains(k) {
        Seq::empty()
    } else {
        before.parent_id@
    }
}

/// The children a zone stored under `k` keeps when zone `z`, stored under
/// `id`, is deleted: all but `id` if it is `z`'s parent.
pub open spec fn detached_children(z: ZoneJson, id: Seq<char>, k: Seq<char>, before: ZoneJson) -> Seq<
    Seq<char>,
> {
    if z.parent_id@.len() > 0 && k == z.parent_id@ {
        without_text(texts_of(before.child_ids@), id)
    } else {
        texts_of(before.child_ids@)
    }
}

/// `after` is `before` with zone `id` deleted from the table and from the
/// hierarchy: the zones it lists as children lose their parent, and its
/// parent no longer lists it. Nothing else changes.
pub open spec fn zone_detached(before: WorkspaceJson, after: WorkspaceJson, id: Seq<char>) -> bool {
    let m1 = as_map(before.zones@);
    let z = m1[id];
    let m = as_map(after.zones@);
    &&& same_meta(after, before)
    &&& after.nodes@ == before.nodes@
    &&& after.edges@ == before.edges@
    &&& m.dom() == m1.dom().remove(id)
    &&& forall|k: Seq<char>| #[trigger]
        m.contains_key(k) ==> zone_same_except(
            m[k],
            m1[k],
            detached_parent(z, k, m1[k]),
            detached_children(z, id, k, m1[k]),
            m1[k].polygon_latlon@,
        )
}

/// Deletes zone `zone_id` and unlinks it from its children and its parent;
/// false (and nothing changes) when there is no such zone.
pub fn detach_zone(ws: &mut WorkspaceJson, zone_id: &str) -> (r: bool)
    requires
        old(ws).wf(),
    ensures
        final(ws).wf(),
        r == has_key(old(ws).zones@, zone_id@),
        r ==> zone_detached(*old(ws), *final(ws), zone_id@),
        !r ==> *final(ws) == *old(ws),
{
    let i = match find_key(&ws.zones, zone_id) {
        None => {
            return false;
        },
        Some(i) => i,
    };
    let zone = ws.zones[i].1.clone();
    let ghost before = *ws;
    let ghost m1 = as_map(before.zones@);
    let ghost kids = texts_of(zone.child_ids@);
    proof {
        crate::keyed::lemma_lookup_at(before.zones@, i as int);
        assert(m1[zone_id@] == before.zones@[i as int].1);
        assert(forall|k: Seq<char>| #[trigger] kids.subrange(0, 0).contains(k) ==> false);
    }
    let mut j: usize = 0;
    while j < zone.child_ids.len()
        invariant
            ws.wf(),
            same_meta(*ws, before),
            ws.nodes@ == before.nodes@,
            ws.edges@ == before.edges@,
            m1 == as_map(before.zones@),
            kids == texts_of(zone.child_ids@),
            j <= zone.child_ids@.len(),
            as_map(ws.zones@).dom() == m1.dom(),
            forall|k: Seq<char>| #[trigger]
                as_map(ws.zones@).contains_key(k) ==> zone_same_except(
                    as_map(ws.zones@)[k],
                    m1[k],
                    if kids.subrange(0, j as int).contains(k) {
                        Seq::empty()
                    } else {
                        m1[k].parent_id@
                    },
                    texts_of(m1[k].child_ids@),
                    m1[k].polygon_latlon@,
                ),
        decreases zone.child_ids@.len() - j,
    {
        let ghost prev = as_map(ws.zones@);
        let ghost c = kids[j as int];
        match find_key(&ws.zones, zone.child_ids[j].as_str()) {
            Some(ci) => {
                let mut cz = ws.zones[ci].1.clone();
                cz.parent_id = String::new();
                proof {
                    crate::keyed::lemma_lookup_at(ws.zones@, ci as int);
                }
                replace_zone(ws, ci, cz);
            },
            None => {},
        }
        proof {
            assert(kids.subrange(0, j + 1) =~= kids.subrange(0, j as int).push(c));
            assert(as_map(ws.zones@).dom() =~= m1.dom());
            assert forall|k: Seq<char>| #[trigger] as_map(ws.zones@).contains_key(k) implies zone_same_except(
                as_map(ws.zones@)[k],
                m1[k],
                if kids.subrange(0, j + 1).contains(k) {
                    Seq::empty()
                } else {
                    m1[k].parent_id@
                },
                texts_of(m1[k].child_ids@),
                m1[k].polygon_latlon@,
            ) by {
                assert(prev.contains_key(k));
                if k != c {
                    assert(kids.subrange(0, j + 1).contains(k) == kids.subrange(0, j as int).contains(k)) by {
                        if kids.subrange(0, j + 1).contains(k) {
                            let w = choose|w: int| 0 <= w < j + 1 && #[trigger] kids.subrange(0, j + 1)[w] == k;
                            assert(kids.subrange(0, j as int)[w] == k);
                        }
                    }
                } else {
                    assert(kids.subrange(0, j + 1)[j as int] == c);
                }
            }
        }
        j = j + 1;
    }
    proof {
        assert(kids.subrange(0, kids.len() as int) =~= kids);
    }
    let ghost looped = as_map(ws.zones@);
    if zone.parent_id.unicode_len() > 0 {
        match find_key(&ws.zones, zone.parent_id.as_str()) {
            Some(pi) => {
                let mut pz = ws.zones[pi].1.clone();
                pz.child_ids = texts_without(&pz.child_ids, zone_id);
                proof {
                    crate::keyed::lemma_lookup_at(ws.zones@, pi as int);
                }
                replace_zone(ws, pi, pz);
            },
            None => {},
        }
    }
    let ghost linked = as_map(ws.zones@);
    let ghost pre_remove = ws.zones@;
    proof {
        assert(linked.dom() =~= m1.dom());
        assert forall|k: Seq<char>| #[trigger] linked.contains_key(k) implies zone_same_except(
            linked[k],
            m1[k],
            detached_parent(zone, k, m1[k]),
            detached_children(zone, zone_id@, k, m1[k]),
            m1[k].polygon_latlon@,
        ) by {
            assert(looped.contains_key(k));
        }
    }
    remove_key(&mut ws.zones, zone_id);
    proof {
        lemma_zone_props_kept(pre_remove, ws.zones@);
        let m = as_map(ws.zones@);
        assert(m.dom() =~= m1.dom().remove(zone_id@));
        assert forall|k: Seq<char>| #[trigger] m.contains_key(k) implies zone_same_except(
            m[k],
            m1[k],
            detached_parent(m1[zone_id@], k, m1[k]),
            detached_children(m1[zone_id@], zone_id@, k, m1[k]),
            m1[k].polygon_latlon@,
        ) by {
            assert(linked.contains_key(k));
        }
    }
    true
}

/// The zone that becomes the root when the root zone is deleted: the first
/// top-level zone that is left (see `root_ids_spec`), or none (empty).
pub open spec fn next_root(ws: WorkspaceJson) -> Seq<char> {
    let rs = root_ids_spec(ws);
    if rs.len() > 0 {
        rs[0]
    } else {
        Seq::empty()
    }
}

/// `after` is `mid`, the workspace just after zone `id` was deleted, with a
/// new root when `id` was the root: `next_root(mid)` becomes the root zone
/// and, if it is stored, loses its parent.
pub open spec fn root_reassigned(mid: WorkspaceJson, after: WorkspaceJson, id: Seq<char>) -> bool {
    if mid.root_zone_id@ == id {
        let r = next_root(mid);
        let m0 = as_map(mid.zones@);
        let m = as_map(after.zones@);
        &&& after.root_zone_id@ == r
        &&& after.name == mid.name
        &&& after.coord_mode == mid.coord_mode
        &&& after.ref_point == mid.ref_point
        &&& after.local_ref == mid.local_ref
        &&& after.datum == mid.datum
        &&& after.nodes@ == mid.nodes@
        &&& after.edges@ == mid.edges@
        &&& m.dom() == m0.dom()
        &&& forall|k: Seq<char>| #[trigger] m.contains_key(k) && k != r ==> m[k] == m0[k]
        &&& m0.contains_key(r) ==> zone_same_except(
            m[r],
            m0[r],
            Seq::empty(),
            texts_of(m0[r].child_ids@),
            m0[r].polygon_latlon@,
        )
    } else {
        after == mid
    }
}

/// After zone `removed_id` was deleted: if it was the root, makes the first
/// remaining top-level zone the root (see `root_reassigned`).
pub fn reassign_root(ws: &mut WorkspaceJson, removed_id: &str)
    requires
        old(ws).wf(),
    ensures
        final(ws).wf(),
        root_reassigned(*old(ws), *final(ws), removed_id@),
{
    if !text_eq(ws.root_zone_id.as_str(), removed_id) {
        return ;
    }
    let ghost mid = *ws;
    let roots = root_zone_ids(ws);
    let next = if roots.len() > 0 {
        roots[0].clone()
    } else {
        String::new()
    };
    proof {
        assert(next@ == next_root(mid));
    }
    ws.root_zone_id = next.clone();
    match find_key(&ws.zones, next.as_str()) {
        Some(ri) => {
            let mut rz = ws.zones[ri].1.clone();
            rz.parent_id = String::new();
            proof {
                crate::keyed::lemma_lookup_at(ws.zones@, ri as int);
            }
            replace_zone(ws, ri, rz);
            proof {
                assert(as_map(ws.zones@).dom() =~= as_map(mid.zones@).dom());
            }
        },
        None => {
            proof {
                assert(!as_map(mid.zones@).contains_key(next@));
            }
        },
    }
}

/// `after` is `before` with zone `id` deleted as the editor deletes it:
/// taken out of the table and the hierarchy (giving a well-formed `mid`),
/// then a new root picked if it was the root. Nothing changes when there
/// is no such zone.
pub open spec fn zone_removed(before: WorkspaceJson, after: WorkspaceJson, id: Seq<char>) -> bool {
    &&& !has_key(before.zones@, id) ==> after == before
    &&& has_key(before.zones@, id) ==> exists|mid: WorkspaceJson|
        mid.wf() && zone_detached(before, mid, id) && #[trigger] root_reassigned(mid, after, id)
}

/// Deletes zone `zone_id` as the editor does: unlinks it from its children
/// and parent, takes it out of the table, and picks a new root when it was
/// the root. Nothing changes when there is no such zone.
pub fn remove_zone(ws: &mut WorkspaceJson, zone_id: &str)
    requires
        old(ws).wf(),
    ensures
        final(ws).wf(),
        zone_removed(*old(ws), *final(ws), zone_id@),
{
    if detach_zone(ws, zone_id) {
        let ghost mid = *ws;
        reassign_root(ws, zone_id);
        assert(mid.wf() && zone_detached(*old(ws), mid, zone_id@) && root_reassigned(mid, *ws, zone_id@));
    }
}

/// A zone drawn below a stored parent is linked both ways: it names the
/// parent, and the parent lists it among its children.
pub proof fn lemma_drawn_child_linked(
    before: WorkspaceJson,
    after: WorkspaceJson,
    id: Seq<char>,
    polygon: Seq<JsonPoint>,
    p: Seq<char>,
)
    requires
        zone_inserted(before, after, id, polygon, Some(p)),
        as_map(before.zones@).contains_key(p),
        p != id,
    ensures
        as_map(after.zones@).contains_key(id),
        as_map(after.zones@).contains_key(p),
        as_map(after.zones@)[id].parent_id@ == p,
        texts_of(as_map(after.zones@)[p].child_ids@).contains(id),
{
    let m = as_map(after.zones@);
    let kids = texts_of(m[p].child_ids@);
    assert(m.dom().contains(p));
    assert(kids[kids.len() - 1] == id);
}

/// A deleted zone is gone and unlinked: its children no longer name a
/// parent, and its parent no longer lists it.
pub proof fn lemma_removed_zone_unlinked(before: WorkspaceJson, after: WorkspaceJson, id: Seq<char>)
    requires
        zone_detached(before, after, id),
    ensures
        !as_map(after.zones@).contains_key(id),
        forall|k: Seq<char>|
            #[trigger] as_map(after.zones@).contains_key(k) && texts_of(
                as_map(before.zones@)[id].child_ids@,
            ).contains(k) ==> as_map(after.zones@)[k].parent_id@.len() == 0,
        ({
            let p = as_map(before.zones@)[id].parent_id@;
            p.len() > 0 && as_map(after.zones@).contains_key(p) ==> !texts_of(
                as_map(after.zones@)[p].child_ids@,
            ).contains(id)
        }),
{
    let m1 = as_map(before.zones@);
    let m = as_map(after.zones@);
    let p = m1[id].parent_id@;
    if p.len() > 0 && m.contains_key(p) {
        let kept = without_text(texts_of(m1[p].child_ids@), id);
        assert(texts_of(m[p].child_ids@) == kept);
        if kept.contains(id) {
            let w = choose|w: int| 0 <= w < kept.len() && #[trigger] kept[w] == id;
            texts_of(m1[p].child_ids@).lemma_filter_pred(|c: Seq<char>| c != id, w);
        }
    }
}

/// Deleting a zone has one outcome, whichever of its delete buttons was
/// used: two workspaces that both follow from deleting zone `id` from
/// `before` have the same settings, root, nodes and edges, the same zone
/// keys, and the same zone under each key.
pub proof fn lemma_zone_removal_determined(
    before: WorkspaceJson,
    a1: WorkspaceJson,
    a2: WorkspaceJson,
    id: Seq<char>,
)
    requires
        zone_removed(before, a1, id),
        zone_removed(before, a2, id),
    ensures
        a1.name == a2.name,
        a1.coord_mode == a2.coord_mode,
        a1.ref_point == a2.ref_point,
        a1.local_ref == a2.local_ref,
        a1.datum == a2.datum,
        a1.root_zone_id@ == a2.root_zone_id@,
        a1.nodes@ == a2.nodes@,
        a1.edges@ == a2.edges@,
        as_map(a1.zones@).dom() == as_map(a2.zones@).dom(),
        forall|k: Seq<char>| #[trigger]
            as_map(a1.zones@).contains_key(k) ==> same_zone(as_map(a1.zones@)[k], as_map(a2.zones@)[k]),
{
    if has_key(before.zones@, id) {
        let mid1 = choose|mid: WorkspaceJson|
            mid.wf() && zone_detached(before, mid, id) && #[trigger] root_reassigned(mid, a1, id);
        let mid2 = choose|mid: WorkspaceJson|
            mid.wf() && zone_detached(before, mid, id) && #[trigger] root_reassigned(mid, a2, id);
        let b = as_map(before.zones@);
        let m1 = as_map(mid1.zones@);
        let m2 = as_map(mid2.zones@);
        assert(m1.dom() == m2.dom());
        assert forall|k: Seq<char>| #[trigger] m1.contains_key(k) implies same_zone(m1[k], m2[k]) by {
            assert(m2.contains_key(k));
        }
        let z1 = mid1.zones@;
        let z2 = mid2.zones@;
        assert forall|k: Seq<char>| has_key(z1, k) == has_key(z2, k) by {
            assert(m1.contains_key(k) == has_key(z1, k));
            assert(m2.contains_key(k) == has_key(z2, k));
        }
        crate::keyed::lemma_sorted_same_keys(z1, z2);
        assert(crate::workspace::tables_agree(z1, z2)) by {
            assert forall|i: int| 0 <= i < z1.len() implies (#[trigger] z1[i]).0@ == z2[i].0@ && same_zone(
                z1[i].1,
                z2[i].1,
            ) by {
                crate::keyed::lemma_lookup_at(z1, i);
                crate::keyed::lemma_lookup_at(z2, i);
                let k = z1[i].0@;
                assert(m1.contains_key(k));
                assert(m1[k] == z1[i].1);
                assert(m2[k] == z2[i].1);
            }
        }
        if mid1.root_zone_id@ == id {
            crate::workspace::lemma_root_ids_agree(mid1, mid2);
            let r = next_root(mid1);
            let n1 = as_map(a1.zones@);
            let n2 = as_map(a2.zones@);
            assert forall|k: Seq<char>| #[trigger] n1.contains_key(k) implies same_zone(n1[k], n2[k]) by {
                assert(m1.contains_key(k));
                assert(same_zone(m1[k], m2[k]));
            }
        }
    }
}

/// Why a drawn zone was not created.
#[derive(Clone, Copy, Debug, PartialEq, Eq, Structural)]
pub enum ZoneDraftError {
    /// A polygon needs at least three points.
    TooFewPoints,
}

impl ZoneDraftError {
    pub fn message(self) -> (r: &'static str)
        ensures
            r@ == "Need at least 3 points before the zone can be created."@,
    {
        "Need at least 3 points before the zone can be created."
    }
}

/// Whether a new zone may be drawn: a root zone only while there is none.
pub fn zone_placement_allowed(ws: &WorkspaceJson, parent_id: Option<&str>) -> (r: bool)
    ensures
        r == !(parent_id is None && ws.root_zone_id@.len() > 0),
{
    !(parent_id.is_none() && ws.root_zone_id.unicode_len() > 0)
}

/// Turns a drawn polygon into a zone under a fresh id (returned), or
/// refuses a polygon of fewer than three points.
pub fn finish_zone_draft(ws: &mut WorkspaceJson, polygon: Vec<JsonPoint>, parent_id: Option<String>) -> (r:
    Result<String, ZoneDraftError>)
    requires
        old(ws).wf(),
        old(ws).zones@.len() < u64::MAX,
    ensures
        final(ws).wf(),
        polygon@.len() < 3 <==> r is Err,
        r is Err ==> r == Err::<String, ZoneDraftError>(ZoneDraftError::TooFewPoints)
            && final(ws).zones@ == old(ws).zones@ && final(ws).root_zone_id == old(ws).root_zone_id,
        r matches Ok(id) ==> is_uuid_v4_text(id@) && zone_inserted(
            *old(ws),
            *final(ws),
            id@,
            polygon@,
            opt_text(parent_id),
        ),
        final(ws).name == old(ws).name,
        final(ws).coord_mode == old(ws).coord_mode,
        final(ws).ref_point == old(ws).ref_point,
        final(ws).local_ref == old(ws).local_ref,
        final(ws).datum == old(ws).datum,
        final(ws).nodes@ == old(ws).nodes@,
        final(ws).edges@ == old(ws).edges@,
{
    if polygon.len() < 3 {
        return Err(ZoneDraftError::TooFewPoints);
    }
    let id = new_id();
    insert_zone(ws, id.clone(), polygon, parent_id);
    Ok(id)
}

} // verus!
