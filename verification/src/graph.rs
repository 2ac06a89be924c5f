//! Edits of the workspace: placing and removing nodes, edges, zones and
//! zone vertices, as the editor performs them.
use vstd::prelude::*;
use crate::keyed::{as_map, find_key, has_key, insert_key, keys_sorted, lookup, remove_key, set_value_at};
use crate::order::text_lt;
use crate::platform::{is_uuid_v4_text, new_id};
use crate::props::text_map;
use crate::text::{append_decimal, decimal, text_eq};
use crate::workspace::{texts_of, EdgeJson, JsonPoint, NodeJson, WorkspaceJson, ZoneJson};

verus! {

/// The bits of the `f64` value 1.0.
pub const ONE_BITS: u64 = 0x3ff0000000000000u64;

/// Everything but the three tables is the same.
pub open spec fn same_meta(a: WorkspaceJson, b: WorkspaceJson) -> bool {
    &&& a.name == b.name
    &&& a.root_zone_id == b.root_zone_id
    &&& a.coord_mode == b.coord_mode
    &&& a.ref_point == b.ref_point
    &&& a.local_ref == b.local_ref
    &&& a.datum == b.datum
}

/// The name a new node gets: `Node n`.
pub open spec fn node_name_text(n: nat) -> Seq<char> {
    "Node "@ + decimal(n)
}

/// `n` is the node placed as the `count`-th under `id` at `point`.
pub open spec fn is_new_node(n: NodeJson, id: Seq<char>, count: nat, point: JsonPoint) -> bool {
    &&& n.id@ == id
    &&& n.name@ == node_name_text(count)
    &&& n.latlon == point
    &&& n.zone_ids@.len() == 0
    &&& keys_sorted(n.properties@)
    &&& text_map(n.properties@) == map!["name"@ => node_name_text(count)]
}

/// `e` is a new directed edge of weight 1 from `source` to `target`.
pub open spec fn is_new_edge(e: EdgeJson, id: Seq<char>, source: Seq<char>, target: Seq<char>) -> bool {
    &&& e.id@ == id
    &&& e.source_id@ == source
    &&& e.target_id@ == target
    &&& e.directed
    &&& e.weight == ONE_BITS
    &&& e.zone_ids@.len() == 0
    &&& e.properties@.len() == 0
}

proof fn lemma_wf_nodes_after_store(
    old_s: Seq<(String, NodeJson)>,
    ns: Seq<(String, NodeJson)>,
    k: Seq<char>,
    v: NodeJson,
)
    requires
        forall|i: int| 0 <= i < old_s.len() ==> keys_sorted((#[trigger] old_s[i]).1.properties@),
        keys_sorted(old_s),
        keys_sorted(ns),
        as_map(ns) == as_map(old_s).insert(k, v),
        keys_sorted(v.properties@),
    ensures
        forall|i: int| 0 <= i < ns.len() ==> keys_sorted((#[trigger] ns[i]).1.properties@),
{
    assert forall|i: int| 0 <= i < ns.len() implies keys_sorted((#[trigger] ns[i]).1.properties@) by {
        crate::keyed::lemma_lookup_at(ns, i);
        let q = ns[i].0@;
        assert(as_map(ns).contains_key(q));
        assert(ns[i].1 == as_map(ns)[q]);
        if q != k {
            assert(as_map(old_s).insert(k, v).contains_key(q));
            assert(as_map(old_s).contains_key(q));
            let j = crate::keyed::key_pos(old_s, q);
            crate::keyed::lemma_lookup_at(old_s, j);
            assert(as_map(ns)[q] == as_map(old_s)[q]);
            assert(as_map(old_s)[q] == old_s[j].1);
        }
    }
}

proof fn lemma_wf_edges_after_store(
    old_s: Seq<(String, EdgeJson)>,
    ns: Seq<(String, EdgeJson)>,
    k: Seq<char>,
    v: EdgeJson,
)
    requires
        forall|i: int| 0 <= i < old_s.len() ==> keys_sorted((#[trigger] old_s[i]).1.properties@),
        keys_sorted(old_s),
        keys_sorted(ns),
        as_map(ns) == as_map(old_s).insert(k, v),
        keys_sorted(v.properties@),
    ensures
        forall|i: int| 0 <= i < ns.len() ==> keys_sorted((#[trigger] ns[i]).1.properties@),
{
    assert forall|i: int| 0 <= i < ns.len() implies keys_sorted((#[trigger] ns[i]).1.properties@) by {
        crate::keyed::lemma_lookup_at(ns, i);
        let q = ns[i].0@;
        assert(as_map(ns).contains_key(q));
        assert(ns[i].1 == as_map(ns)[q]);
        if q != k {
            assert(as_map(old_s).insert(k, v).contains_key(q));
            assert(as_map(old_s).contains_key(q));
            let j = crate::keyed::key_pos(old_s, q);
            crate::keyed::lemma_lookup_at(old_s, j);
            assert(as_map(ns)[q] == as_map(old_s)[q]);
            assert(as_map(old_s)[q] == old_s[j].1);
        }
    }
}

/// Adds a node under `id` at `point`, named after how many nodes there
/// were: `Node n+1`, its `name` property set likewise.
pub fn insert_node(ws: &mut WorkspaceJson, id: String, point: JsonPoint)
    requires
        old(ws).wf(),
        old(ws).nodes@.len() < u64::MAX,
    ensures
        final(ws).wf(),
        same_meta(*final(ws), *old(ws)),
        final(ws).zones@ == old(ws).zones@,
        final(ws).edges@ == old(ws).edges@,
        as_map(final(ws).nodes@).remove(id@) == as_map(old(ws).nodes@).remove(id@),
        lookup(final(ws).nodes@, id@) matches Some(n) && is_new_node(
            n,
            id@,
            (old(ws).nodes@.len() + 1) as nat,
            point,
        ),
{
    let count = ws.nodes.len() as u64 + 1;
    let mut name = String::from_str("Node ");
    append_decimal(&mut name, count);
    let mut properties: Vec<(String, String)> = Vec::new();
    let ghost empty_props = properties@;
    let name_copy = name.clone();
    insert_key(&mut properties, String::from_str("name"), name_copy);
    proof {
        assert(text_map(empty_props) =~= Map::<Seq<char>, Seq<char>>::empty());
        crate::props::lemma_text_map_insert(empty_props, properties@, "name"@, name_copy);
        assert(text_map(properties@) =~= map!["name"@ => name@]);
    }
    let node = NodeJson {
        id: id.clone(),
        name,
        latlon: point,
        zone_ids: Vec::new(),
        properties,
    };
    let ghost stored = node;
    let ghost old_nodes = ws.nodes@;
    proof {
        assert(is_new_node(stored, id@, (old_nodes.len() + 1) as nat, point));
    }
    insert_key(&mut ws.nodes, id, node);
    proof {
        assert(lookup(ws.nodes@, stored.id@) == Some(stored)) by {
            assert(as_map(ws.nodes@).contains_key(stored.id@));
            assert(has_key(ws.nodes@, stored.id@));
            assert(as_map(ws.nodes@)[stored.id@] == stored);
            assert(as_map(ws.nodes@)[stored.id@] == ws.nodes@[crate::keyed::key_pos(ws.nodes@, stored.id@)].1);
        }
        lemma_wf_nodes_after_store(old_nodes, ws.nodes@, stored.id@, stored);
        assert(as_map(ws.nodes@).contains_key(stored.id@));
        let i = crate::keyed::key_pos(ws.nodes@, stored.id@);
        crate::keyed::lemma_lookup_at(ws.nodes@, i);
        assert(as_map(ws.nodes@).remove(stored.id@) =~= as_map(old_nodes).remove(stored.id@));
    }
}

/// Places a new node at `point` under a fresh id, which it returns.
pub fn place_node_at(ws: &mut WorkspaceJson, point: JsonPoint) -> (r: String)
    requires
        old(ws).wf(),
        old(ws).nodes@.len() < u64::MAX,
    ensures
        is_uuid_v4_text(r@),
        final(ws).wf(),
        same_meta(*final(ws), *old(ws)),
        final(ws).zones@ == old(ws).zones@,
        final(ws).edges@ == old(ws).edges@,
        as_map(final(ws).nodes@).remove(r@) == as_map(old(ws).nodes@).remove(r@),
        lookup(final(ws).nodes@, r@) matches Some(n) && is_new_node(
            n,
            r@,
            (old(ws).nodes@.len() + 1) as nat,
            point,
        ),
{
    let id = new_id();
    insert_node(ws, id.clone(), point);
    id
}

/// Adds a directed edge of weight 1 from `source_id` to `target_id`
/// under `id`.
pub fn insert_edge(ws: &mut WorkspaceJson, id: String, source_id: &str, target_id: &str)
    requires
        old(ws).wf(),
    ensures
        final(ws).wf(),
        same_meta(*final(ws), *old(ws)),
        final(ws).zones@ == old(ws).zones@,
        final(ws).nodes@ == old(ws).nodes@,
        as_map(final(ws).edges@).remove(id@) == as_map(old(ws).edges@).remove(id@),
        lookup(final(ws).edges@, id@) matches Some(e) && is_new_edge(e, id@, source_id@, target_id@),
{
    let edge = EdgeJson {
        id: id.clone(),
        source_id: String::from_str(source_id),
        target_id: String::from_str(target_id),
        directed: true,
        weight: ONE_BITS,
        zone_ids: Vec::new(),
        properties: Vec::new(),
    };
    let ghost stored = edge;
    let ghost old_edges = ws.edges@;
    proof {
        assert(is_new_edge(stored, id@, source_id@, target_id@));
    }
    insert_key(&mut ws.edges, id, edge);
    proof {
        assert(lookup(ws.edges@, stored.id@) == Some(stored)) by {
            assert(as_map(ws.edges@).contains_key(stored.id@));
            assert(has_key(ws.edges@, stored.id@));
            assert(as_map(ws.edges@)[stored.id@] == stored);
            assert(as_map(ws.edges@)[stored.id@] == ws.edges@[crate::keyed::key_pos(ws.edges@, stored.id@)].1);
        }
        lemma_wf_edges_after_store(old_edges, ws.edges@, stored.id@, stored);
        assert(as_map(ws.edges@).contains_key(stored.id@));
        let i = crate::keyed::key_pos(ws.edges@, stored.id@);
        crate::keyed::lemma_lookup_at(ws.edges@, i);
        assert(as_map(ws.edges@).remove(stored.id@) =~= as_map(old_edges).remove(stored.id@));
    }
}

/// What picking a node while connecting did.
pub enum EdgePick {
    /// The node became the pending edge source.
    SourceChosen,
    /// The node is already the pending source; nothing happened.
    Ignored,
    /// An edge from the pending source to the node was made, under this id.
    Created(String),
}

/// Picks `node_id` while drawing an edge: the first pick sets the pending
/// source, picking it again does nothing, another node gets a directed
/// edge from the source and clears the pending source.
pub fn pick_node_for_edge(ws: &mut WorkspaceJson, edge_source_id: &mut String, node_id: &str) -> (r:
    EdgePick)
    requires
        old(ws).wf(),
    ensures
        final(ws).wf(),
        same_meta(*final(ws), *old(ws)),
        final(ws).zones@ == old(ws).zones@,
        final(ws).nodes@ == old(ws).nodes@,
        old(edge_source_id)@.len() == 0 ==> r is SourceChosen && final(edge_source_id)@ == node_id@
            && *final(ws) == *old(ws),
        old(edge_source_id)@.len() != 0 && old(edge_source_id)@ == node_id@ ==> r is Ignored
            && *final(edge_source_id) == *old(edge_source_id) && *final(ws) == *old(ws),
        old(edge_source_id)@.len() != 0 && old(edge_source_id)@ != node_id@ ==> (r matches EdgePick::Created(
            id,
        ) && is_uuid_v4_text(id@) && final(edge_source_id)@.len() == 0 && as_map(
            final(ws).edges@,
        ).remove(id@) == as_map(old(ws).edges@).remove(id@) && (lookup(final(ws).edges@, id@) matches Some(
            e,
        ) && is_new_edge(e, id@, old(edge_source_id)@, node_id@))),
{
    if edge_source_id.unicode_len() == 0 {
        *edge_source_id = String::from_str(node_id);
        return EdgePick::SourceChosen;
    }
    if text_eq(edge_source_id.as_str(), node_id) {
        return EdgePick::Ignored;
    }
    let edge_id = new_id();
    insert_edge(ws, edge_id.clone(), edge_source_id.as_str(), node_id);
    *edge_source_id = String::new();
    EdgePick::Created(edge_id)
}

/// `edges` without the edges touching node `id`.
pub open spec fn edges_without_node(edges: Seq<(String, EdgeJson)>, id: Seq<char>) -> Seq<
    (String, EdgeJson),
> {
    edges.filter(|p: (String, EdgeJson)| p.1.source_id@ != id && p.1.target_id@ != id)
}

/// No edge left after removing node `id` starts or ends at it, and every
/// edge that neither starts nor ends there is kept.
pub proof fn lemma_no_dangling_edges(edges: Seq<(String, EdgeJson)>, id: Seq<char>)
    ensures
        forall|i: int|
            0 <= i < edges_without_node(edges, id).len() ==> (#[trigger] edges_without_node(
                edges,
                id,
            )[i]).1.source_id@ != id && edges_without_node(edges, id)[i].1.target_id@ != id,
        forall|i: int|
            0 <= i < edges.len() && (#[trigger] edges[i]).1.source_id@ != id && edges[i].1.target_id@
                != id ==> edges_without_node(edges, id).contains(edges[i]),
{
    let keep = |p: (String, EdgeJson)| p.1.source_id@ != id && p.1.target_id@ != id;
    assert forall|i: int| 0 <= i < edges.filter(keep).len() implies keep(
        #[trigger] edges.filter(keep)[i],
    ) by {
        edges.lemma_filter_pred(keep, i);
    }
    assert forall|i: int|
        0 <= i < edges.len() && (#[trigger] edges[i]).1.source_id@ != id && edges[i].1.target_id@
            != id implies edges.filter(keep).contains(edges[i]) by {
        edges.lemma_filter_contains(keep, i);
    }
}

/// Removes node `node_id` and every edge that starts or ends at it.
pub fn remove_node_by_id(ws: &mut WorkspaceJson, node_id: &str)
    requires
        old(ws).wf(),
    ensures
        final(ws).wf(),
        same_meta(*final(ws), *old(ws)),
        final(ws).zones@ == old(ws).zones@,
        as_map(final(ws).nodes@) == as_map(old(ws).nodes@).remove(node_id@),
        final(ws).edges@ == edges_without_node(old(ws).edges@, node_id@),
{
    let ghost old_nodes = ws.nodes@;
    remove_key(&mut ws.nodes, node_id);
    proof {
        assert forall|i: int| 0 <= i < ws.nodes@.len() implies keys_sorted(
            (#[trigger] ws.nodes@[i]).1.properties@,
        ) by {
            crate::keyed::lemma_lookup_at(ws.nodes@, i);
            let q = ws.nodes@[i].0@;
            assert(as_map(ws.nodes@).contains_key(q));
            assert(as_map(old_nodes).contains_key(q));
            let j = crate::keyed::key_pos(old_nodes, q);
            crate::keyed::lemma_lookup_at(old_nodes, j);
        }
    }
    let ghost keep = |p: (String, EdgeJson)| p.1.source_id@ != node_id@ && p.1.target_id@ != node_id@;
    let mut rest: Vec<(String, EdgeJson)> = Vec::new();
    core::mem::swap(&mut rest, &mut ws.edges);
    let ghost orig = rest@;
    let ghost pre = *ws;
    let total = rest.len();
    assert(orig.subrange(0, 0).filter(keep) =~= Seq::<(String, EdgeJson)>::empty());
    assert(orig.subrange(0, total as int) =~= orig);
    while rest.len() > 0
        invariant
            same_meta(*ws, pre),
            ws.zones@ == pre.zones@,
            ws.nodes@ == pre.nodes@,
            keep == (|p: (String, EdgeJson)| p.1.source_id@ != node_id@ && p.1.target_id@ != node_id@),
            total == orig.len(),
            keys_sorted(orig),
            forall|i: int| 0 <= i < orig.len() ==> keys_sorted((#[trigger] orig[i]).1.properties@),
            rest@.len() <= total,
            rest@ == orig.subrange(total - rest@.len(), total as int),
            ws.edges@ == orig.subrange(0, total - rest@.len()).filter(keep),
            keys_sorted(ws.edges@),
            forall|i: int| 0 <= i < ws.edges@.len() ==> keys_sorted((#[trigger] ws.edges@[i]).1.properties@),
            forall|m: int, j: int|
                0 <= m < ws.edges@.len() && total - rest@.len() <= j < total ==> text_lt(
                    (#[trigger] ws.edges@[m]).0@,
                    (#[trigger] orig[j]).0@,
                ),
        decreases rest@.len(),
    {
        let ghost k = total - rest@.len();
        let e = rest.remove(0);
        assert(orig[k] == e);
        let pass = !text_eq(e.1.source_id.as_str(), node_id) && !text_eq(e.1.target_id.as_str(), node_id);
        proof {
            let t = orig.subrange(0, k + 1);
            assert(t =~= orig.subrange(0, k).push(orig[k]));
            Seq::filter_distributes_over_add(orig.subrange(0, k), seq![orig[k]], keep);
            assert(orig.subrange(0, k) + seq![orig[k]] =~= t);
            assert(seq![orig[k]].filter(keep) =~= (if keep(orig[k]) {
                seq![orig[k]]
            } else {
                Seq::empty()
            })) by {
                reveal_with_fuel(Seq::filter, 2);
            }
            assert(rest@ =~= orig.subrange(k + 1, total as int));
        }
        let ghost before = ws.edges@;
        if pass {
            ws.edges.push(e);
            proof {
                assert forall|a: int| 0 <= a < before.len() implies text_lt(
                    (#[trigger] before[a]).0@,
                    orig[k].0@,
                ) by {}
            }
        }
        proof {
            assert(forall|a: int| 0 <= a < before.len() ==> ws.edges@[a] == before[a]);
            assert forall|i: int| 0 <= i < ws.edges@.len() implies keys_sorted((#[trigger] ws.edges@[i]).1.properties@) by {
                if i < before.len() {
                    assert(ws.edges@[i] == before[i]);
                } else {
                    assert(ws.edges@[i] == orig[k]);
                }
            }
            assert forall|a: int, b: int| 0 <= a < b < ws.edges@.len() implies text_lt(
                #[trigger] ws.edges@[a].0@,
                #[trigger] ws.edges@[b].0@,
            ) by {
                if b < before.len() {
                    assert(ws.edges@[a] == before[a] && ws.edges@[b] == before[b]);
                } else {
                    assert(ws.edges@[a] == before[a]);
                    assert(ws.edges@[b] == orig[k]);
                }
            }
            assert forall|m: int, j: int|
                0 <= m < ws.edges@.len() && k + 1 <= j < total implies text_lt(
                    (#[trigger] ws.edges@[m]).0@,
                    (#[trigger] orig[j]).0@,
                ) by {
                if pass && m == ws.edges@.len() - 1 {
                } else {
                    assert(text_lt(ws.edges@[m].0@, orig[k].0@));
                    crate::order::lemma_text_lt_transitive(ws.edges@[m].0@, orig[k].0@, orig[j].0@);
                }
            }
        }
    }
}

/// Removes edge `edge_id`, if there is one.
pub fn remove_edge_by_id(ws: &mut WorkspaceJson, edge_id: &str)
    requires
        old(ws).wf(),
    ensures
        final(ws).wf(),
        same_meta(*final(ws), *old(ws)),
        final(ws).zones@ == old(ws).zones@,
        final(ws).nodes@ == old(ws).nodes@,
        as_map(final(ws).edges@) == as_map(old(ws).edges@).remove(edge_id@),
        final(ws).edges@ == (if has_key(old(ws).edges@, edge_id@) {
            old(ws).edges@.remove(crate::keyed::key_pos(old(ws).edges@, edge_id@))
        } else {
            old(ws).edges@
        }),
{
    let ghost old_edges = ws.edges@;
    remove_key(&mut ws.edges, edge_id);
    proof {
        assert forall|i: int| 0 <= i < ws.edges@.len() implies keys_sorted(
            (#[trigger] ws.edges@[i]).1.properties@,
        ) by {
            crate::keyed::lemma_lookup_at(ws.edges@, i);
            let q = ws.edges@[i].0@;
            assert(as_map(ws.edges@).contains_key(q));
            assert(as_map(old_edges).contains_key(q));
            let j = crate::keyed::key_pos(old_edges, q);
            crate::keyed::lemma_lookup_at(old_edges, j);
        }
    }
}

} // verus!
