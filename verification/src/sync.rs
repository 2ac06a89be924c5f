//! Zone membership: which zones each node lies in, the node lists of the
//! zones, and the zones each edge touches, all recomputed from where the
//! nodes are.
//!
//! Whether a point lies in a polygon is a floating-point question; the
//! caller answers it and hands the answers in as a table of flags, one row
//! per node (in key order) and one column per zone in tree order
//! (`zone_order`).
use vstd::prelude::*;
use crate::fleet::{insert_text_sorted, texts_sorted};
use crate::graph::same_meta;
use crate::keyed::{as_map, find_key, has_key, key_pos, keys_sorted, set_value_at};
use crate::node_edit::{node_copy, node_same_except, replace_node, with_name_prop};
use crate::props::text_map;
use crate::workspace::{
    clone_texts, ids_of, ordered_zones, texts_of, zone_order, zones_match, EdgeJson, WorkspaceJson, ZoneJson,
};
use crate::zone_edit::replace_zone;

verus! {

/// The flag rows as sequences.
pub open spec fn rows_of(inside: Seq<Vec<bool>>) -> Seq<Seq<bool>> {
    inside.map_values(|r: Vec<bool>| r@)
}

/// The ids of the first `n` zones of `ord` whose flag in `row` is set, in
/// order.
pub open spec fn picked(ord: Seq<ZoneJson>, row: Seq<bool>, n: nat) -> Seq<Seq<char>>
    decreases n,
{
    if n == 0 {
        Seq::empty()
    } else {
        let p = picked(ord, row, (n - 1) as nat);
        if row[n - 1] {
            p.push(ord[n - 1].id@)
        } else {
            p
        }
    }
}

/// For each node (in key order), the ids of the zones it lies in, in tree
/// order.
pub open spec fn zone_picks(ws: WorkspaceJson, inside: Seq<Seq<bool>>) -> Seq<Seq<Seq<char>>> {
    let ord = zone_order(ws);
    Seq::new(ws.nodes@.len(), |i: int| picked(ord, inside[i], ord.len()))
}

/// `node` once for each time `k` occurs in `ids`.
pub open spec fn hits(ids: Seq<Seq<char>>, k: Seq<char>, node: Seq<char>) -> Seq<Seq<char>>
    decreases ids.len(),
{
    if ids.len() == 0 {
        Seq::empty()
    } else {
        let h = hits(ids.drop_last(), k, node);
        if ids.last() == k {
            h.push(node)
        } else {
            h
        }
    }
}

/// The keys of the first `n` nodes, each once for each time its picked
/// zones name `k`, in node order: the node list of the zone stored under
/// `k`.
pub open spec fn zone_members(
    nodes: Seq<(String, crate::workspace::NodeJson)>,
    picks: Seq<Seq<Seq<char>>>,
    k: Seq<char>,
    n: nat,
) -> Seq<Seq<char>>
    decreases n,
{
    if n == 0 {
        Seq::empty()
    } else {
        zone_members(nodes, picks, k, (n - 1) as nat) + hits(picks[n - 1], k, nodes[n - 1].0@)
    }
}

/// The picked zones of the node stored under `id`, or none.
pub open spec fn node_picks(
    nodes: Seq<(String, crate::workspace::NodeJson)>,
    picks: Seq<Seq<Seq<char>>>,
    id: Seq<char>,
) -> Seq<Seq<char>> {
    if has_key(nodes, id) {
        picks[key_pos(nodes, id)]
    } else {
        Seq::empty()
    }
}

/// `a` is zone `b` with the node list `ids`.
pub open spec fn zone_with_nodes(a: ZoneJson, b: ZoneJson, ids: Seq<Seq<char>>) -> bool {
    &&& a.id@ == b.id@
    &&& a.name@ == b.name@
    &&& a.zone_type@ == b.zone_type@
    &&& a.parent_id@ == b.parent_id@
    &&& texts_of(a.child_ids@) == texts_of(b.child_ids@)
    &&& texts_of(a.node_ids@) == ids
    &&& a.polygon_latlon@ == b.polygon_latlon@
    &&& a.grid_enabled == b.grid_enabled
    &&& a.grid_resolution == b.grid_resolution
    &&& a.properties@ == b.properties@
}

/// `a` is edge `b` with the zone ids of `ids`, sorted, each once.
pub open spec fn edge_with_zones(a: EdgeJson, b: EdgeJson, ids: Set<Seq<char>>) -> bool {
    &&& a.id@ == b.id@
    &&& a.source_id@ == b.source_id@
    &&& a.target_id@ == b.target_id@
    &&& a.directed == b.directed
    &&& a.weight == b.weight
    &&& a.properties@ == b.properties@
    &&& texts_sorted(texts_of(a.zone_ids@))
    &&& texts_of(a.zone_ids@).to_set() == ids
}

/// `after` is `before` with zone membership recomputed from the flags:
/// each node lists the zones it lies in (tree order) and has its `name`
/// property set to its name; each zone lists the nodes that lie in it
/// (node order); each edge lists, sorted and each once, the zones of its
/// two end nodes. Keys, their order and everything else stay.
pub open spec fn synced(before: WorkspaceJson, after: WorkspaceJson, inside: Seq<Seq<bool>>) -> bool {
    let picks = zone_picks(before, inside);
    let nodes = before.nodes@;
    let zones = before.zones@;
    let edges = before.edges@;
    &&& same_meta(after, before)
    &&& after.nodes@.len() == nodes.len()
    &&& forall|i: int|
        0 <= i < nodes.len() ==> (#[trigger] after.nodes@[i]).0 == nodes[i].0 && node_same_except(
            after.nodes@[i].1,
            nodes[i].1,
            nodes[i].1.name@,
            nodes[i].1.latlon,
            picks[i],
            text_map(nodes[i].1.properties@).insert("name"@, nodes[i].1.name@),
        )
    &&& after.zones@.len() == zones.len()
    &&& forall|q: int|
        0 <= q < zones.len() ==> (#[trigger] after.zones@[q]).0 == zones[q].0 && zone_with_nodes(
            after.zones@[q].1,
            zones[q].1,
            zone_members(nodes, picks, zones[q].0@, nodes.len()),
        )
    &&& after.edges@.len() == edges.len()
    &&& forall|e: int|
        0 <= e < edges.len() ==> (#[trigger] after.edges@[e]).0 == edges[e].0 && edge_with_zones(
            after.edges@[e].1,
            edges[e].1,
            node_picks(nodes, picks, edges[e].1.source_id@).to_set() + node_picks(
                nodes,
                picks,
                edges[e].1.target_id@,
            ).to_set(),
        )
}

/// The ids of the zones of `ordered` whose flag in `row` is set.
fn pick_row(ordered: &Vec<ZoneJson>, row: &Vec<bool>, ord: Ghost<Seq<ZoneJson>>) -> (r: Vec<String>)
    requires
        zones_match(ordered@, ord@),
        row@.len() == ord@.len(),
    ensures
        texts_of(r@) == picked(ord@, row@, ord@.len()),
{
    let mut out: Vec<String> = Vec::new();
    let mut j: usize = 0;
    while j < ordered.len()
        invariant
            zones_match(ordered@, ord@),
            row@.len() == ord@.len(),
            j <= ord@.len(),
            texts_of(out@) == picked(ord@, row@, j as nat),
        decreases ord@.len() - j,
    {
        if row[j] {
            let ghost before = texts_of(out@);
            out.push(ordered[j].id.clone());
            assert(texts_of(out@) =~= before.push(ord@[j as int].id@));
        }
        j = j + 1;
    }
    out
}

/// Adds the texts of `src` to the sorted list `ids`.
fn add_all_sorted(ids: &mut Vec<String>, src: &Vec<String>)
    requires
        texts_sorted(texts_of(old(ids)@)),
    ensures
        texts_sorted(texts_of(final(ids)@)),
        texts_of(final(ids)@).to_set() == texts_of(old(ids)@).to_set() + texts_of(src@).to_set(),
{
    let ghost start = texts_of(ids@).to_set();
    let mut k: usize = 0;
    while k < src.len()
        invariant
            k <= src@.len(),
            texts_sorted(texts_of(ids@)),
            texts_of(ids@).to_set() == start + texts_of(src@).subrange(0, k as int).to_set(),
        decreases src@.len() - k,
    {
        let ghost before = texts_of(ids@).to_set();
        insert_text_sorted(ids, src[k].clone());
        proof {
            let s = texts_of(src@);
            assert(s.subrange(0, k + 1) =~= s.subrange(0, k as int).push(s[k as int]));
            assert(s.subrange(0, k + 1).to_set() =~= s.subrange(0, k as int).to_set().insert(s[k as int])) by {
                s.subrange(0, k as int).lemma_push_to_set_commute(s[k as int]);
            }
            assert(texts_of(ids@).to_set() =~= start + s.subrange(0, k + 1).to_set());
        }
        k = k + 1;
    }
    assert(texts_of(src@).subrange(0, src@.len() as int) =~= texts_of(src@));
}

/// Puts `e` in place of the edge at position `i`.
pub(crate) fn replace_edge(ws: &mut WorkspaceJson, i: usize, e: EdgeJson)
    requires
        old(ws).wf(),
        i < old(ws).edges@.len(),
        keys_sorted(e.properties@),
    ensures
        final(ws).wf(),
        same_meta(*final(ws), *old(ws)),
        final(ws).zones@ == old(ws).zones@,
        final(ws).nodes@ == old(ws).nodes@,
        final(ws).edges@ == old(ws).edges@.update(i as int, (old(ws).edges@[i as int].0, e)),
{
    let ghost before = ws.edges@;
    set_value_at(&mut ws.edges, i, e);
    proof {
        assert forall|j: int| 0 <= j < ws.edges@.len() implies keys_sorted(
            (#[trigger] ws.edges@[j]).1.properties@,
        ) by {
            if j != i {
                assert(ws.edges@[j] == before[j]);
            }
        }
    }
}

/// `hits` over one more id.
proof fn lemma_hits_step(ids: Seq<Seq<char>>, t: int, k: Seq<char>, node: Seq<char>)
    requires
        0 <= t < ids.len(),
    ensures
        hits(ids.subrange(0, t + 1), k, node) == if ids[t] == k {
            hits(ids.subrange(0, t), k, node).push(node)
        } else {
            hits(ids.subrange(0, t), k, node)
        },
{
    assert(ids.subrange(0, t + 1).drop_last() =~= ids.subrange(0, t));
}

/// Recomputes zone membership from the flags (see `synced`).
pub fn sync_associations(ws: &mut WorkspaceJson, inside: &Vec<Vec<bool>>)
    requires
        old(ws).wf(),
        inside@.len() == old(ws).nodes@.len(),
        forall|i: int|
            0 <= i < inside@.len() ==> (#[trigger] inside@[i])@.len() == zone_order(*old(ws)).len(),
    ensures
        final(ws).wf(),
        synced(*old(ws), *final(ws), rows_of(inside@)),
{
    let ghost pre = *ws;
    let ghost ord = zone_order(pre);
    let ghost rows = rows_of(inside@);
    let ghost pk = zone_picks(pre, rows);
    let ghost nodes = pre.nodes@;
    let ghost zones = pre.zones@;
    let ordered = ordered_zones(ws);
    // The zones each node lies in.
    let mut picks: Vec<Vec<String>> = Vec::new();
    let mut i: usize = 0;
    while i < ws.nodes.len()
        invariant
            *ws == pre,
            ord == zone_order(pre),
            rows == rows_of(inside@),
            pk == zone_picks(pre, rows),
            zones_match(ordered@, ord),
            inside@.len() == pre.nodes@.len(),
            forall|m: int| 0 <= m < inside@.len() ==> (#[trigger] inside@[m])@.len() == ord.len(),
            i <= pre.nodes@.len(),
            picks@.len() == i,
            forall|m: int| 0 <= m < i ==> texts_of((#[trigger] picks@[m])@) == pk[m],
        decreases pre.nodes@.len() - i,
    {
        let row = pick_row(&ordered, &inside[i], Ghost(ord));
        assert(rows[i as int] == inside@[i as int]@);
        picks.push(row);
        i = i + 1;
    }
    // Every zone starts with an empty node list.
    let mut q: usize = 0;
    while q < ws.zones.len()
        invariant
            ws.wf(),
            same_meta(*ws, pre),
            ws.nodes@ == nodes,
            ws.edges@ == pre.edges@,
            zones == pre.zones@,
            nodes == pre.nodes@,
            ws.zones@.len() == zones.len(),
            q <= zones.len(),
            forall|p: int| 0 <= p < zones.len() ==> (#[trigger] ws.zones@[p]).0 == zones[p].0,
            forall|p: int| 0 <= p < q ==> zone_with_nodes(#[trigger] ws.zones@[p].1, zones[p].1, Seq::empty()),
            forall|p: int| q <= p < zones.len() ==> #[trigger] ws.zones@[p] == zones[p],
        decreases zones.len() - q,
    {
        let mut z = ws.zones[q].1.clone();
        z.node_ids = Vec::new();
        assert(texts_of(z.node_ids@) =~= Seq::<Seq<char>>::empty());
        let ghost before = ws.zones@;
        replace_zone(ws, q, z);
        proof {
            assert forall|p: int| 0 <= p < q + 1 implies zone_with_nodes(
                #[trigger] ws.zones@[p].1,
                zones[p].1,
                Seq::empty(),
            ) by {
                if p < q {
                    assert(ws.zones@[p] == before[p]);
                }
            }
        }
        q = q + 1;
    }
    // Each node takes its zones; each of those zones takes the node.
    let mut i: usize = 0;
    while i < ws.nodes.len()
        invariant
            ws.wf(),
            same_meta(*ws, pre),
            ws.edges@ == pre.edges@,
            zones == pre.zones@,
            nodes == pre.nodes@,
            pk == zone_picks(pre, rows),
            keys_sorted(nodes),
            picks@.len() == nodes.len(),
            forall|m: int| 0 <= m < nodes.len() ==> texts_of((#[trigger] picks@[m])@) == pk[m],
            i <= nodes.len(),
            ws.nodes@.len() == nodes.len(),
            forall|m: int| 0 <= m < nodes.len() ==> (#[trigger] ws.nodes@[m]).0 == nodes[m].0,
            forall|m: int|
                0 <= m < i ==> node_same_except(
                    (#[trigger] ws.nodes@[m]).1,
                    nodes[m].1,
                    nodes[m].1.name@,
                    nodes[m].1.latlon,
                    pk[m],
                    text_map(nodes[m].1.properties@).insert("name"@, nodes[m].1.name@),
                ),
            forall|m: int| i <= m < nodes.len() ==> #[trigger] ws.nodes@[m] == nodes[m],
            ws.zones@.len() == zones.len(),
            forall|p: int| 0 <= p < zones.len() ==> (#[trigger] ws.zones@[p]).0 == zones[p].0,
            forall|p: int|
                0 <= p < zones.len() ==> zone_with_nodes(
                    (#[trigger] ws.zones@[p]).1,
                    zones[p].1,
                    zone_members(nodes, pk, zones[p].0@, i as nat),
                ),
        decreases nodes.len() - i,
    {
        let mut n = node_copy(&ws.nodes[i].1);
        n.zone_ids = clone_texts(&picks[i]);
        let name = n.name.clone();
        assert(keys_sorted(n.properties@)) by {
            assert(keys_sorted(ws.nodes@[i as int].1.properties@));
        }
        with_name_prop(&mut n.properties, &name);
        let ghost before_nodes = ws.nodes@;
        replace_node(ws, i, n);
        proof {
            assert forall|m: int| 0 <= m < i + 1 implies node_same_except(
                (#[trigger] ws.nodes@[m]).1,
                nodes[m].1,
                nodes[m].1.name@,
                nodes[m].1.latlon,
                pk[m],
                text_map(nodes[m].1.properties@).insert("name"@, nodes[m].1.name@),
            ) by {
                if m < i {
                    assert(ws.nodes@[m] == before_nodes[m]);
                }
            }
        }
        let row = &picks[i];
        let ghost ids = pk[i as int];
        let ghost nk = nodes[i as int].0@;
        let mut t: usize = 0;
        assert(ids.subrange(0, 0) =~= Seq::<Seq<char>>::empty());
        while t < row.len()
            invariant
                ws.wf(),
                same_meta(*ws, pre),
                ws.edges@ == pre.edges@,
                ws.nodes@.len() == nodes.len(),
                forall|m: int| 0 <= m < nodes.len() ==> (#[trigger] ws.nodes@[m]).0 == nodes[m].0,
                i < nodes.len(),
                pk.len() == nodes.len(),
                forall|m: int|
                    0 <= m < i + 1 ==> node_same_except(
                        (#[trigger] ws.nodes@[m]).1,
                        nodes[m].1,
                        nodes[m].1.name@,
                        nodes[m].1.latlon,
                        pk[m],
                        text_map(nodes[m].1.properties@).insert("name"@, nodes[m].1.name@),
                    ),
                forall|m: int| i + 1 <= m < nodes.len() ==> #[trigger] ws.nodes@[m] == nodes[m],
                ids == pk[i as int],
                nk == nodes[i as int].0@,
                texts_of(row@) == ids,
                t <= row@.len(),
                ws.zones@.len() == zones.len(),
                forall|p: int| 0 <= p < zones.len() ==> (#[trigger] ws.zones@[p]).0 == zones[p].0,
                forall|p: int|
                    0 <= p < zones.len() ==> zone_with_nodes(
                        (#[trigger] ws.zones@[p]).1,
                        zones[p].1,
                        zone_members(nodes, pk, zones[p].0@, i as nat) + hits(
                            ids.subrange(0, t as int),
                            zones[p].0@,
                            nk,
                        ),
                    ),
            decreases row@.len() - t,
        {
            let ghost zid = ids[t as int];
            let ghost before = ws.zones@;
            proof {
                assert forall|p: int| 0 <= p < zones.len() implies #[trigger] hits(
                    ids.subrange(0, t + 1),
                    zones[p].0@,
                    nk,
                ) == if zones[p].0@ == zid {
                    hits(ids.subrange(0, t as int), zones[p].0@, nk).push(nk)
                } else {
                    hits(ids.subrange(0, t as int), zones[p].0@, nk)
                } by {
                    lemma_hits_step(ids, t as int, zones[p].0@, nk);
                }
            }
            match find_key(&ws.zones, row[t].as_str()) {
                Some(zi) => {
                    let mut z = ws.zones[zi].1.clone();
                    let ghost old_ids = texts_of(z.node_ids@);
                    z.node_ids.push(ws.nodes[i].0.clone());
                    assert(texts_of(z.node_ids@) =~= old_ids.push(nk));
                    assert(keys_sorted(z.properties@)) by {
                        assert(keys_sorted(ws.zones@[zi as int].1.properties@));
                    }
                    replace_zone(ws, zi, z);
                    proof {
                        assert forall|p: int| 0 <= p < zones.len() implies zone_with_nodes(
                            (#[trigger] ws.zones@[p]).1,
                            zones[p].1,
                            zone_members(nodes, pk, zones[p].0@, i as nat) + hits(
                                ids.subrange(0, t + 1),
                                zones[p].0@,
                                nk,
                            ),
                        ) by {
                            assert(hits(ids.subrange(0, t + 1), zones[p].0@, nk) == if zones[p].0@ == zid {
                                hits(ids.subrange(0, t as int), zones[p].0@, nk).push(nk)
                            } else {
                                hits(ids.subrange(0, t as int), zones[p].0@, nk)
                            });
                            if p == zi {
                                assert((zone_members(nodes, pk, zones[p].0@, i as nat) + hits(
                                    ids.subrange(0, t as int),
                                    zones[p].0@,
                                    nk,
                                )).push(nk) =~= zone_members(nodes, pk, zones[p].0@, i as nat)
                                    + hits(ids.subrange(0, t as int), zones[p].0@, nk).push(nk));
                            } else {
                                assert(ws.zones@[p] == before[p]);
                                if zones[p].0@ == zid {
                                    crate::keyed::lemma_sorted_unique(before, p, zi as int);
                                }
                            }
                        }
                    }
                },
                None => {
                    proof {
                        assert forall|p: int| 0 <= p < zones.len() implies zones[p].0@ != zid by {
                            assert(ws.zones@[p].0 == zones[p].0);
                        }
                    }
                },
            }
            t = t + 1;
        }
        proof {
            assert(ids.subrange(0, ids.len() as int) =~= ids);
            assert forall|p: int| 0 <= p < zones.len() implies zone_members(
                nodes,
                pk,
                zones[p].0@,
                (i + 1) as nat,
            ) == zone_members(nodes, pk, zones[p].0@, i as nat) + hits(ids, zones[p].0@, nk) by {}
        }
        i = i + 1;
    }
    // Each edge takes the zones of its two end nodes.
    let mut e: usize = 0;
    while e < ws.edges.len()
        invariant
            ws.wf(),
            same_meta(*ws, pre),
            zones == pre.zones@,
            nodes == pre.nodes@,
            pk == zone_picks(pre, rows),
            keys_sorted(nodes),
            picks@.len() == nodes.len(),
            forall|m: int| 0 <= m < nodes.len() ==> texts_of((#[trigger] picks@[m])@) == pk[m],
            ws.nodes@.len() == nodes.len(),
            forall|m: int| 0 <= m < nodes.len() ==> (#[trigger] ws.nodes@[m]).0 == nodes[m].0,
            forall|m: int|
                0 <= m < nodes.len() ==> node_same_except(
                    (#[trigger] ws.nodes@[m]).1,
                    nodes[m].1,
                    nodes[m].1.name@,
                    nodes[m].1.latlon,
                    pk[m],
                    text_map(nodes[m].1.properties@).insert("name"@, nodes[m].1.name@),
                ),
            ws.zones@.len() == zones.len(),
            forall|p: int| 0 <= p < zones.len() ==> (#[trigger] ws.zones@[p]).0 == zones[p].0,
            forall|p: int|
                0 <= p < zones.len() ==> zone_with_nodes(
                    (#[trigger] ws.zones@[p]).1,
                    zones[p].1,
                    zone_members(nodes, pk, zones[p].0@, nodes.len()),
                ),
            ws.edges@.len() == pre.edges@.len(),
            e <= pre.edges@.len(),
            forall|m: int| 0 <= m < pre.edges@.len() ==> (#[trigger] ws.edges@[m]).0 == pre.edges@[m].0,
            forall|m: int|
                0 <= m < e ==> edge_with_zones(
                    (#[trigger] ws.edges@[m]).1,
                    pre.edges@[m].1,
                    node_picks(nodes, pk, pre.edges@[m].1.source_id@).to_set() + node_picks(
                        nodes,
                        pk,
                        pre.edges@[m].1.target_id@,
                    ).to_set(),
                ),
            forall|m: int| e <= m < pre.edges@.len() ==> #[trigger] ws.edges@[m] == pre.edges@[m],
        decreases pre.edges@.len() - e,
    {
        let mut ed = ws.edges[e].1.clone();
        let ghost src = ed.source_id@;
        let ghost tgt = ed.target_id@;
        let mut ids: Vec<String> = Vec::new();
        assert(texts_of(ids@) =~= Seq::<Seq<char>>::empty());
        assert(texts_of(ids@).to_set() =~= Set::<Seq<char>>::empty());
        match find_key(&ws.nodes, ed.source_id.as_str()) {
            Some(si) => {
                add_all_sorted(&mut ids, &picks[si]);
                proof {
                    crate::keyed::lemma_lookup_at(nodes, si as int);
                }
            },
            None => {
                proof {
                    if has_key(nodes, src) {
                        let w = key_pos(nodes, src);
                        assert(ws.nodes@[w].0 == nodes[w].0);
                    }
                }
            },
        }
        assert(texts_of(ids@).to_set() =~= node_picks(nodes, pk, src).to_set());
        let ghost mid = texts_of(ids@).to_set();
        match find_key(&ws.nodes, ed.target_id.as_str()) {
            Some(ti) => {
                add_all_sorted(&mut ids, &picks[ti]);
                proof {
                    crate::keyed::lemma_lookup_at(nodes, ti as int);
                }
            },
            None => {
                proof {
                    if has_key(nodes, tgt) {
                        let w = key_pos(nodes, tgt);
                        assert(ws.nodes@[w].0 == nodes[w].0);
                    }
                    assert(mid + Seq::<Seq<char>>::empty().to_set() =~= mid);
                }
            },
        }
        ed.zone_ids = ids;
        assert(keys_sorted(ed.properties@)) by {
            assert(keys_sorted(ws.edges@[e as int].1.properties@));
        }
        let ghost before = ws.edges@;
        replace_edge(ws, e, ed);
        proof {
            assert forall|m: int| 0 <= m < e + 1 implies edge_with_zones(
                (#[trigger] ws.edges@[m]).1,
                pre.edges@[m].1,
                node_picks(nodes, pk, pre.edges@[m].1.source_id@).to_set() + node_picks(
                    nodes,
                    pk,
                    pre.edges@[m].1.target_id@,
                ).to_set(),
            ) by {
                if m < e {
                    assert(ws.edges@[m] == before[m]);
                }
            }
        }
        e = e + 1;
    }
}

/// `node` occurs in `hits(ids, k, node)` exactly when `ids` names `k`, and
/// nothing else occurs there.
proof fn lemma_hits_contains(ids: Seq<Seq<char>>, k: Seq<char>, node: Seq<char>, x: Seq<char>)
    ensures
        hits(ids, k, node).contains(x) <==> (x == node && ids.contains(k)),
    decreases ids.len(),
{
    if ids.len() > 0 {
        let init = ids.drop_last();
        lemma_hits_contains(init, k, node, x);
        let h = hits(init, k, node);
        if ids.contains(k) && ids.last() != k {
            let w = choose|w: int| 0 <= w < ids.len() && #[trigger] ids[w] == k;
            assert(init[w] == k);
        }
        if init.contains(k) {
            let w = choose|w: int| 0 <= w < init.len() && #[trigger] init[w] == k;
            assert(ids[w] == k);
        }
        if ids.last() == k {
            assert(ids[ids.len() - 1] == k);
            assert(h.push(node)[h.len() as int] == node);
            if h.push(node).contains(x) {
                let w = choose|w: int| 0 <= w < h.len() + 1 && #[trigger] h.push(node)[w] == x;
                if w < h.len() {
                    assert(h[w] == x);
                }
            }
            if h.contains(x) {
                let w = choose|w: int| 0 <= w < h.len() && #[trigger] h[w] == x;
                assert(h.push(node)[w] == x);
            }
        }
    }
}

/// Membership in a concatenation.
proof fn lemma_concat_contains(a: Seq<Seq<char>>, b: Seq<Seq<char>>, x: Seq<char>)
    ensures
        (a + b).contains(x) <==> a.contains(x) || b.contains(x),
{
    if (a + b).contains(x) {
        let w = choose|w: int| 0 <= w < (a + b).len() && #[trigger] (a + b)[w] == x;
        if w < a.len() {
            assert(a[w] == x);
        } else {
            assert(b[w - a.len()] == x);
        }
    }
    if a.contains(x) {
        let w = choose|w: int| 0 <= w < a.len() && #[trigger] a[w] == x;
        assert((a + b)[w] == x);
    }
    if b.contains(x) {
        let w = choose|w: int| 0 <= w < b.len() && #[trigger] b[w] == x;
        assert((a + b)[a.len() + w] == x);
    }
}

/// The node list of zone `k` names node `i` exactly when node `i` is among
/// the first `n` and its picked zones name `k`.
proof fn lemma_members_contains(
    nodes: Seq<(String, crate::workspace::NodeJson)>,
    picks: Seq<Seq<Seq<char>>>,
    k: Seq<char>,
    n: nat,
    i: int,
)
    requires
        keys_sorted(nodes),
        n <= nodes.len(),
        0 <= i < nodes.len(),
    ensures
        zone_members(nodes, picks, k, n).contains(nodes[i].0@) <==> (i < n && picks[i].contains(k)),
    decreases n,
{
    if n > 0 {
        let j = n - 1;
        lemma_members_contains(nodes, picks, k, (n - 1) as nat, i);
        lemma_concat_contains(
            zone_members(nodes, picks, k, (n - 1) as nat),
            hits(picks[j], k, nodes[j].0@),
            nodes[i].0@,
        );
        lemma_hits_contains(picks[j], k, nodes[j].0@, nodes[i].0@);
        if nodes[i].0@ == nodes[j].0@ {
            crate::keyed::lemma_sorted_unique(nodes, i, j);
        }
    }
}

/// After membership is recomputed, zone and node agree: the zone stored at
/// position `q` lists the node stored at position `i` exactly when that
/// node lists the zone's key.
pub proof fn lemma_membership_agrees(
    before: WorkspaceJson,
    after: WorkspaceJson,
    inside: Seq<Seq<bool>>,
    i: int,
    q: int,
)
    requires
        before.wf(),
        synced(before, after, inside),
        0 <= i < before.nodes@.len(),
        0 <= q < before.zones@.len(),
    ensures
        texts_of(after.zones@[q].1.node_ids@).contains(after.nodes@[i].0@) <==> texts_of(
            after.nodes@[i].1.zone_ids@,
        ).contains(after.zones@[q].0@),
{
    let nodes = before.nodes@;
    let picks = zone_picks(before, inside);
    assert(after.zones@[q].0 == before.zones@[q].0);
    assert(after.nodes@[i].0 == nodes[i].0);
    lemma_members_contains(nodes, picks, before.zones@[q].0@, nodes.len(), i);
}

/// The zone ids the node stored under `id` lists, as a set (none if there
/// is no such node).
pub open spec fn end_zones(ws: WorkspaceJson, id: Seq<char>) -> Set<Seq<char>> {
    match crate::keyed::lookup(ws.nodes@, id) {
        Some(n) => texts_of(n.zone_ids@).to_set(),
        None => Set::empty(),
    }
}

/// After membership is recomputed, each edge lists exactly the zones its
/// two end nodes list.
pub proof fn lemma_edge_zones_follow_nodes(
    before: WorkspaceJson,
    after: WorkspaceJson,
    inside: Seq<Seq<bool>>,
    e: int,
)
    requires
        before.wf(),
        synced(before, after, inside),
        0 <= e < before.edges@.len(),
    ensures
        texts_of(after.edges@[e].1.zone_ids@).to_set() == end_zones(
            after,
            after.edges@[e].1.source_id@,
        ) + end_zones(after, after.edges@[e].1.target_id@),
{
    let nodes = before.nodes@;
    let picks = zone_picks(before, inside);
    let ed = before.edges@[e].1;
    assert(after.edges@[e].0 == before.edges@[e].0);
    lemma_end_zones(before, after, inside, ed.source_id@);
    lemma_end_zones(before, after, inside, ed.target_id@);
}

/// The zones an end node lists after the sync are its picked zones.
proof fn lemma_end_zones(before: WorkspaceJson, after: WorkspaceJson, inside: Seq<Seq<bool>>, id: Seq<char>)
    requires
        before.wf(),
        synced(before, after, inside),
    ensures
        end_zones(after, id) == node_picks(before.nodes@, zone_picks(before, inside), id).to_set(),
{
    let nodes = before.nodes@;
    let picks = zone_picks(before, inside);
    if has_key(nodes, id) {
        let w = key_pos(nodes, id);
        assert(after.nodes@[w].0 == nodes[w].0);
        assert(has_key(after.nodes@, id));
        let w2 = key_pos(after.nodes@, id);
        assert(after.nodes@[w2].0 == nodes[w2].0);
        crate::keyed::lemma_sorted_unique(nodes, w, w2);
    } else {
        if has_key(after.nodes@, id) {
            let w2 = key_pos(after.nodes@, id);
            assert(after.nodes@[w2].0 == nodes[w2].0);
        }
        assert(Seq::<Seq<char>>::empty().to_set() =~= Set::<Seq<char>>::empty());
    }
}

/// The picked ids are distinct ids among the first `n` of `ord`, when the
/// ids of `ord` are distinct.
proof fn lemma_picked_unique(ord: Seq<ZoneJson>, row: Seq<bool>, n: nat)
    requires
        n <= ord.len(),
        forall|i: int, j: int| 0 <= i < j < ord.len() ==> (#[trigger] ord[i]).id@ != (#[trigger] ord[j]).id@,
    ensures
        picked(ord, row, n).no_duplicates(),
        forall|x: Seq<char>| #[trigger] picked(ord, row, n).contains(x) ==> ids_of(ord).subrange(0, n as int).contains(x),
    decreases n,
{
    if n > 0 {
        let m = (n - 1) as nat;
        lemma_picked_unique(ord, row, m);
        let p = picked(ord, row, m);
        let ids = ids_of(ord);
        assert forall|x: Seq<char>| #[trigger] picked(ord, row, n).contains(x) implies ids.subrange(0, n as int).contains(x) by {
            if p.contains(x) {
                let w = choose|w: int| 0 <= w < m && #[trigger] ids.subrange(0, m as int)[w] == x;
                assert(ids.subrange(0, n as int)[w] == x);
            } else {
                assert(ids.subrange(0, n as int)[m as int] == x);
            }
        }
        if row[m as int] {
            let x = ord[m as int].id@;
            if p.contains(x) {
                let w = choose|w: int| 0 <= w < m && #[trigger] ids.subrange(0, m as int)[w] == x;
                assert(ord[w].id@ == ids[w]);
            }
            let q = p.push(x);
            assert forall|i: int, j: int| 0 <= i < q.len() && 0 <= j < q.len() && i != j implies q[i] != q[j] by {
                if i < p.len() && j < p.len() {
                } else if i < p.len() {
                    assert(p.contains(q[i]));
                } else {
                    assert(p.contains(q[j]));
                }
            }
        }
    }
}

/// A node hits a zone at most once when its zone ids are distinct, and not
/// at all when they do not name the zone.
proof fn lemma_hits_few(ids: Seq<Seq<char>>, k: Seq<char>, node: Seq<char>)
    ensures
        ids.no_duplicates() ==> hits(ids, k, node).len() <= 1,
        !ids.contains(k) ==> hits(ids, k, node).len() == 0,
    decreases ids.len(),
{
    if ids.len() > 0 {
        let init = ids.drop_last();
        lemma_hits_few(init, k, node);
        if ids.no_duplicates() {
            assert(init.no_duplicates()) by {
                assert forall|i: int, j: int| 0 <= i < init.len() && 0 <= j < init.len() && i != j implies init[i] != init[j] by {
                    assert(init[i] == ids[i] && init[j] == ids[j]);
                }
            }
            if ids.last() == k && init.contains(k) {
                let w = choose|w: int| 0 <= w < init.len() && #[trigger] init[w] == k;
                assert(ids[w] == ids[ids.len() - 1]);
            }
        }
        if !ids.contains(k) {
            if init.contains(k) {
                let w = choose|w: int| 0 <= w < init.len() && #[trigger] init[w] == k;
                assert(ids[w] == k);
            }
            assert(ids[ids.len() - 1] != k);
        }
    }
}

/// The node list of zone `k` holds each node once when each node's picked
/// zones are distinct, and is empty when no node picked `k`.
proof fn lemma_members_unique(
    nodes: Seq<(String, crate::workspace::NodeJson)>,
    picks: Seq<Seq<Seq<char>>>,
    k: Seq<char>,
    n: nat,
)
    requires
        keys_sorted(nodes),
        n <= nodes.len(),
    ensures
        (forall|i: int| 0 <= i < n ==> (#[trigger] picks[i]).no_duplicates()) ==> zone_members(
            nodes,
            picks,
            k,
            n,
        ).no_duplicates(),
        (forall|i: int| 0 <= i < n ==> !(#[trigger] picks[i]).contains(k)) ==> zone_members(
            nodes,
            picks,
            k,
            n,
        ).len() == 0,
    decreases n,
{
    if n > 0 {
        let m = (n - 1) as nat;
        lemma_members_unique(nodes, picks, k, m);
        let a = zone_members(nodes, picks, k, m);
        let b = hits(picks[m as int], k, nodes[m as int].0@);
        lemma_hits_few(picks[m as int], k, nodes[m as int].0@);
        if forall|i: int| 0 <= i < n ==> (#[trigger] picks[i]).no_duplicates() {
            assert forall|i: int| 0 <= i < m implies (#[trigger] picks[i]).no_duplicates() by {}
            lemma_members_contains(nodes, picks, k, m, m as int);
            if b.len() == 1 {
                lemma_hits_contains(picks[m as int], k, nodes[m as int].0@, b[0]);
                assert(b.contains(b[0]));
                assert(!a.contains(b[0]));
            }
            let c = a + b;
            assert forall|i: int, j: int| 0 <= i < c.len() && 0 <= j < c.len() && i != j implies c[i] != c[j] by {
                if i >= a.len() && j < a.len() {
                    assert(a.contains(c[j]));
                } else if j >= a.len() && i < a.len() {
                    assert(a.contains(c[i]));
                }
            }
        }
        if forall|i: int| 0 <= i < n ==> !(#[trigger] picks[i]).contains(k) {
            assert forall|i: int| 0 <= i < m implies !(#[trigger] picks[i]).contains(k) by {}
        }
    }
}

/// After membership is recomputed (zones stored under their own ids), no
/// list holds an id twice: not a node's zones, not a zone's nodes, not an
/// edge's zones.
pub proof fn lemma_sync_lists_unique(before: WorkspaceJson, after: WorkspaceJson, inside: Seq<Seq<bool>>)
    requires
        before.wf(),
        crate::workspace::keyed_by_id(before.zones@),
        synced(before, after, inside),
    ensures
        forall|i: int|
            0 <= i < after.nodes@.len() ==> texts_of((#[trigger] after.nodes@[i]).1.zone_ids@).no_duplicates(),
        forall|q: int|
            0 <= q < after.zones@.len() ==> texts_of((#[trigger] after.zones@[q]).1.node_ids@).no_duplicates(),
        forall|e: int|
            0 <= e < after.edges@.len() ==> texts_of((#[trigger] after.edges@[e]).1.zone_ids@).no_duplicates(),
{
    let ord = zone_order(before);
    let nodes = before.nodes@;
    let picks = zone_picks(before, inside);
    crate::workspace::lemma_tree_order_once(before);
    assert forall|i: int| 0 <= i < nodes.len() implies (#[trigger] picks[i]).no_duplicates() by {
        lemma_picked_unique(ord, inside[i], ord.len());
    }
    assert forall|i: int|
        0 <= i < after.nodes@.len() implies texts_of((#[trigger] after.nodes@[i]).1.zone_ids@).no_duplicates() by {
        assert(picks[i].no_duplicates());
    }
    assert forall|q: int|
        0 <= q < after.zones@.len() implies texts_of((#[trigger] after.zones@[q]).1.node_ids@).no_duplicates() by {
        lemma_members_unique(nodes, picks, before.zones@[q].0@, nodes.len());
    }
    assert forall|e: int|
        0 <= e < after.edges@.len() implies texts_of((#[trigger] after.edges@[e]).1.zone_ids@).no_duplicates() by {
        let z = texts_of(after.edges@[e].1.zone_ids@);
        assert forall|i: int, j: int| 0 <= i < z.len() && 0 <= j < z.len() && i != j implies z[i] != z[j] by {
            crate::order::lemma_text_lt_irreflexive(z[i]);
            if i < j {
                assert(crate::order::text_lt(z[i], z[j]));
            } else {
                assert(crate::order::text_lt(z[j], z[i]));
            }
        }
    }
}

/// After membership is recomputed, a zone that the walk from the root does
/// not reach lists no node, and no node lists it.
pub proof fn lemma_sync_unreached_zone_empty(
    before: WorkspaceJson,
    after: WorkspaceJson,
    inside: Seq<Seq<bool>>,
    q: int,
)
    requires
        before.wf(),
        synced(before, after, inside),
        0 <= q < before.zones@.len(),
        !ids_of(zone_order(before)).contains(before.zones@[q].0@),
    ensures
        after.zones@[q].1.node_ids@.len() == 0,
        forall|i: int|
            0 <= i < after.nodes@.len() ==> !texts_of((#[trigger] after.nodes@[i]).1.zone_ids@).contains(
                after.zones@[q].0@,
            ),
{
    let ord = zone_order(before);
    let nodes = before.nodes@;
    let picks = zone_picks(before, inside);
    let k = before.zones@[q].0@;
    assert(after.zones@[q].0 == before.zones@[q].0);
    assert forall|i: int| 0 <= i < nodes.len() implies !(#[trigger] picks[i]).contains(k) by {
        lemma_picked_any(ord, inside[i], ord.len());
        assert(ids_of(ord).subrange(0, ord.len() as int) =~= ids_of(ord));
    }
    lemma_members_unique(nodes, picks, k, nodes.len());
    assert(texts_of(after.zones@[q].1.node_ids@).len() == 0);
    assert forall|i: int|
        0 <= i < after.nodes@.len() implies !texts_of((#[trigger] after.nodes@[i]).1.zone_ids@).contains(k) by {
        assert(!picks[i].contains(k));
    }
}

/// Every picked id is an id among the first `n` of `ord`.
proof fn lemma_picked_any(ord: Seq<ZoneJson>, row: Seq<bool>, n: nat)
    requires
        n <= ord.len(),
    ensures
        forall|x: Seq<char>| #[trigger] picked(ord, row, n).contains(x) ==> ids_of(ord).subrange(0, n as int).contains(x),
    decreases n,
{
    if n > 0 {
        let m = (n - 1) as nat;
        lemma_picked_any(ord, row, m);
        let p = picked(ord, row, m);
        let ids = ids_of(ord);
        assert forall|x: Seq<char>| #[trigger] picked(ord, row, n).contains(x) implies ids.subrange(0, n as int).contains(x) by {
            if p.contains(x) {
                let w = choose|w: int| 0 <= w < m && #[trigger] ids.subrange(0, m as int)[w] == x;
                assert(ids.subrange(0, n as int)[w] == x);
            } else {
                assert(ids.subrange(0, n as int)[m as int] == x);
            }
        }
    }
}

/// Picking depends on the ids of the order alone.
proof fn lemma_picked_same_ids(o1: Seq<ZoneJson>, o2: Seq<ZoneJson>, row: Seq<bool>, n: nat)
    requires
        ids_of(o1) == ids_of(o2),
        n <= o1.len(),
    ensures
        picked(o1, row, n) == picked(o2, row, n),
    decreases n,
{
    if n > 0 {
        lemma_picked_same_ids(o1, o2, row, (n - 1) as nat);
        assert(o1.len() == ids_of(o1).len() && o2.len() == ids_of(o2).len());
        assert(o1[n - 1].id@ == ids_of(o1)[n - 1]);
        assert(o2[n - 1].id@ == ids_of(o2)[n - 1]);
    }
}

/// A zone's node list depends on the node keys alone.
proof fn lemma_members_same_keys(
    n1: Seq<(String, crate::workspace::NodeJson)>,
    n2: Seq<(String, crate::workspace::NodeJson)>,
    picks: Seq<Seq<Seq<char>>>,
    k: Seq<char>,
    n: nat,
)
    requires
        n <= n1.len(),
        n1.len() == n2.len(),
        forall|i: int| 0 <= i < n1.len() ==> (#[trigger] n1[i]).0 == n2[i].0,
    ensures
        zone_members(n1, picks, k, n) == zone_members(n2, picks, k, n),
    decreases n,
{
    if n > 0 {
        lemma_members_same_keys(n1, n2, picks, k, (n - 1) as nat);
        assert(n1[n - 1].0 == n2[n - 1].0);
    }
}

/// Recomputing membership a second time, from the same flags, changes
/// nothing: every node keeps its name, place, zones and properties, every
/// zone its node list, every edge its zones, and all else stays.
pub proof fn lemma_sync_idempotent(
    w0: WorkspaceJson,
    w1: WorkspaceJson,
    w2: WorkspaceJson,
    inside: Seq<Seq<bool>>,
)
    requires
        w0.wf(),
        synced(w0, w1, inside),
        synced(w1, w2, inside),
    ensures
        same_meta(w2, w1),
        w2.nodes@.len() == w1.nodes@.len(),
        forall|i: int|
            0 <= i < w1.nodes@.len() ==> (#[trigger] w2.nodes@[i]).0 == w1.nodes@[i].0 && node_same_except(
                w2.nodes@[i].1,
                w1.nodes@[i].1,
                w1.nodes@[i].1.name@,
                w1.nodes@[i].1.latlon,
                texts_of(w1.nodes@[i].1.zone_ids@),
                text_map(w1.nodes@[i].1.properties@),
            ),
        w2.zones@.len() == w1.zones@.len(),
        forall|q: int|
            0 <= q < w1.zones@.len() ==> (#[trigger] w2.zones@[q]).0 == w1.zones@[q].0 && zone_with_nodes(
                w2.zones@[q].1,
                w1.zones@[q].1,
                texts_of(w1.zones@[q].1.node_ids@),
            ),
        w2.edges@.len() == w1.edges@.len(),
        forall|e: int|
            0 <= e < w1.edges@.len() ==> (#[trigger] w2.edges@[e]).0 == w1.edges@[e].0 && edge_with_zones(
                w2.edges@[e].1,
                w1.edges@[e].1,
                texts_of(w1.edges@[e].1.zone_ids@).to_set(),
            ),
{
    let n0 = w0.nodes@;
    let n1 = w1.nodes@;
    assert(keys_sorted(w1.zones@)) by {
        assert forall|i: int, j: int| 0 <= i < j < w1.zones@.len() implies crate::order::text_lt(
            #[trigger] w1.zones@[i].0@,
            #[trigger] w1.zones@[j].0@,
        ) by {
            assert(w1.zones@[i].0 == w0.zones@[i].0);
            assert(w1.zones@[j].0 == w0.zones@[j].0);
        }
    }
    assert(keys_sorted(n1)) by {
        assert forall|i: int, j: int| 0 <= i < j < n1.len() implies crate::order::text_lt(
            #[trigger] n1[i].0@,
            #[trigger] n1[j].0@,
        ) by {
            assert(n1[i].0 == n0[i].0);
            assert(n1[j].0 == n0[j].0);
        }
    }
    assert(crate::workspace::same_tree(w0.zones@, w1.zones@)) by {
        assert forall|q: int| 0 <= q < w0.zones@.len() implies (#[trigger] w0.zones@[q]).0@ == w1.zones@[q].0@
            && w0.zones@[q].1.id@ == w1.zones@[q].1.id@ && texts_of(w0.zones@[q].1.child_ids@) == texts_of(
            w1.zones@[q].1.child_ids@,
        ) by {
            assert(w1.zones@[q].0 == w0.zones@[q].0);
        }
    }
    crate::workspace::lemma_zone_order_same_tree(w0, w1);
    let o0 = zone_order(w0);
    let o1 = zone_order(w1);
    let p0 = zone_picks(w0, inside);
    let p1 = zone_picks(w1, inside);
    assert(o0.len() == ids_of(o0).len());
    assert(o1.len() == ids_of(o1).len());
    assert forall|i: int| 0 <= i < n0.len() implies #[trigger] p1[i] == p0[i] by {
        lemma_picked_same_ids(o0, o1, inside[i], o0.len());
    }
    assert(p1 =~= p0);
    assert forall|i: int|
        0 <= i < n1.len() implies (#[trigger] w2.nodes@[i]).0 == n1[i].0 && node_same_except(
            w2.nodes@[i].1,
            n1[i].1,
            n1[i].1.name@,
            n1[i].1.latlon,
            texts_of(n1[i].1.zone_ids@),
            text_map(n1[i].1.properties@),
        ) by {
        assert(n1[i].0 == n0[i].0);
        let m0 = text_map(n0[i].1.properties@);
        assert(m0.insert("name"@, n0[i].1.name@).insert("name"@, n0[i].1.name@) =~= m0.insert(
            "name"@,
            n0[i].1.name@,
        ));
    }
    assert forall|q: int|
        0 <= q < w1.zones@.len() implies (#[trigger] w2.zones@[q]).0 == w1.zones@[q].0 && zone_with_nodes(
            w2.zones@[q].1,
            w1.zones@[q].1,
            texts_of(w1.zones@[q].1.node_ids@),
        ) by {
        assert(w1.zones@[q].0 == w0.zones@[q].0);
        assert forall|i: int| 0 <= i < n0.len() implies (#[trigger] n0[i]).0 == n1[i].0 by {
            assert(n1[i].0 == n0[i].0);
        }
        lemma_members_same_keys(n0, n1, p0, w0.zones@[q].0@, n0.len());
    }
    assert forall|e: int|
        0 <= e < w1.edges@.len() implies (#[trigger] w2.edges@[e]).0 == w1.edges@[e].0 && edge_with_zones(
            w2.edges@[e].1,
            w1.edges@[e].1,
            texts_of(w1.edges@[e].1.zone_ids@).to_set(),
        ) by {
        let ed0 = w0.edges@[e].1;
        assert(w1.edges@[e].0 == w0.edges@[e].0);
        lemma_node_picks_same_keys(n0, n1, p0, ed0.source_id@);
        lemma_node_picks_same_keys(n0, n1, p0, ed0.target_id@);
    }
}

/// The picked zones of a node depend on the node keys alone.
proof fn lemma_node_picks_same_keys(
    n0: Seq<(String, crate::workspace::NodeJson)>,
    n1: Seq<(String, crate::workspace::NodeJson)>,
    picks: Seq<Seq<Seq<char>>>,
    id: Seq<char>,
)
    requires
        keys_sorted(n0),
        keys_sorted(n1),
        n0.len() == n1.len(),
        forall|i: int| 0 <= i < n0.len() ==> (#[trigger] n1[i]).0 == n0[i].0,
    ensures
        node_picks(n0, picks, id) == node_picks(n1, picks, id),
{
    if has_key(n0, id) {
        let p = key_pos(n0, id);
        assert(n1[p].0 == n0[p].0);
        assert(has_key(n1, id));
        let r = key_pos(n1, id);
        assert(n1[r].0 == n0[r].0);
        crate::keyed::lemma_sorted_unique(n0, p, r);
    } else if has_key(n1, id) {
        let r = key_pos(n1, id);
        assert(n1[r].0 == n0[r].0);
    }
}

} // verus!
