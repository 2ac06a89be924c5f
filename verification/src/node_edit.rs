//! Edits of single nodes as the inspector performs them, and the clean-up
//! a workspace gets when it is loaded.
use vstd::prelude::*;
use crate::graph::same_meta;
use crate::keyed::{as_map, find_key, has_key, insert_key, key_pos, keys_sorted, lookup, set_value_at};
use crate::props::{assoc_ids, parse_association_lines, parse_properties_text, props_from_lines, text_map};
use crate::text::{raw_lines, trim, trimmed};
use crate::workspace::{texts_of, CoordMode, JsonPoint, NodeJson, WorkspaceJson};

verus! {

/// `a` is node `b` with the given name, position, zone ids and properties.
pub open spec fn node_same_except(
    a: NodeJson,
    b: NodeJson,
    name: Seq<char>,
    latlon: JsonPoint,
    zone_ids: Seq<Seq<char>>,
    props: Map<Seq<char>, Seq<char>>,
) -> bool {
    &&& a.id@ == b.id@
    &&& a.name@ == name
    &&& a.latlon == latlon
    &&& texts_of(a.zone_ids@) == zone_ids
    &&& text_map(a.properties@) == props
}

/// `after` is `before` with the node stored under `id`, if there is one,
/// changed as `node_same_except` says (with the given values); all else
/// stays.
pub open spec fn node_edited(
    before: WorkspaceJson,
    after: WorkspaceJson,
    id: Seq<char>,
    name: Seq<char>,
    latlon: JsonPoint,
    zone_ids: Seq<Seq<char>>,
    props: Map<Seq<char>, Seq<char>>,
) -> bool {
    let m0 = as_map(before.nodes@);
    let m = as_map(after.nodes@);
    &&& same_meta(after, before)
    &&& after.zones@ == before.zones@
    &&& after.edges@ == before.edges@
    &&& if m0.contains_key(id) {
        &&& m.dom() == m0.dom()
        &&& forall|k: Seq<char>| #[trigger] m.contains_key(k) && k != id ==> m[k] == m0[k]
        &&& node_same_except(m[id], m0[id], name, latlon, zone_ids, props)
    } else {
        after.nodes@ == before.nodes@
    }
}

/// Puts `n` in place of the node at position `i`.
pub(crate) fn replace_node(ws: &mut WorkspaceJson, i: usize, n: NodeJson)
    requires
        old(ws).wf(),
        i < old(ws).nodes@.len(),
        keys_sorted(n.properties@),
    ensures
        final(ws).wf(),
        same_meta(*final(ws), *old(ws)),
        final(ws).zones@ == old(ws).zones@,
        final(ws).edges@ == old(ws).edges@,
        final(ws).nodes@ == old(ws).nodes@.update(i as int, (old(ws).nodes@[i as int].0, n)),
        as_map(final(ws).nodes@) == as_map(old(ws).nodes@).insert(old(ws).nodes@[i as int].0@, n),
{
    let ghost before = ws.nodes@;
    set_value_at(&mut ws.nodes, i, n);
    proof {
        assert forall|j: int| 0 <= j < ws.nodes@.len() implies keys_sorted(
            (#[trigger] ws.nodes@[j]).1.properties@,
        ) by {
            if j != i {
                assert(ws.nodes@[j] == before[j]);
            }
        }
    }
}

/// A copy of a node's parts, to be changed and stored back.
pub(crate) fn node_copy(n: &NodeJson) -> (r: NodeJson)
    ensures
        r.id@ == n.id@,
        r.name@ == n.name@,
        r.latlon == n.latlon,
        r.zone_ids@ == n.zone_ids@,
        r.properties@ == n.properties@,
{
    n.clone()
}

/// Stores `name` under the key `name` of `props`.
pub(crate) fn with_name_prop(props: &mut Vec<(String, String)>, name: &String)
    requires
        keys_sorted(old(props)@),
    ensures
        keys_sorted(final(props)@),
        text_map(final(props)@) == text_map(old(props)@).insert("name"@, name@),
{
    let ghost before = props@;
    let v = name.clone();
    insert_key(props, String::from_str("name"), v);
    proof {
        crate::props::lemma_text_map_insert(before, props@, "name"@, v);
    }
}

/// Renames node `node_id`; its `name` property follows.
pub fn rename_node(ws: &mut WorkspaceJson, node_id: &str, name: String)
    requires
        old(ws).wf(),
    ensures
        final(ws).wf(),
        ({
            let n0 = as_map(old(ws).nodes@)[node_id@];
            node_edited(
                *old(ws),
                *final(ws),
                node_id@,
                name@,
                n0.latlon,
                texts_of(n0.zone_ids@),
                text_map(n0.properties@).insert("name"@, name@),
            )
        }),
{
    let i = match find_key(&ws.nodes, node_id) {
        None => {
            return ;
        },
        Some(i) => i,
    };
    let mut n = node_copy(&ws.nodes[i].1);
    proof {
        crate::keyed::lemma_lookup_at(ws.nodes@, i as int);
    }
    with_name_prop(&mut n.properties, &name);
    n.name = name;
    replace_node(ws, i, n);
    proof {
        assert(as_map(ws.nodes@).dom() =~= as_map(old(ws).nodes@).dom());
    }
}

/// Moves node `node_id` to `point`.
pub fn move_node(ws: &mut WorkspaceJson, node_id: &str, point: JsonPoint)
    requires
        old(ws).wf(),
    ensures
        final(ws).wf(),
        ({
            let n0 = as_map(old(ws).nodes@)[node_id@];
            node_edited(
                *old(ws),
                *final(ws),
                node_id@,
                n0.name@,
                point,
                texts_of(n0.zone_ids@),
                text_map(n0.properties@),
            )
        }),
{
    let i = match find_key(&ws.nodes, node_id) {
        None => {
            return ;
        },
        Some(i) => i,
    };
    let mut n = node_copy(&ws.nodes[i].1);
    proof {
        crate::keyed::lemma_lookup_at(ws.nodes@, i as int);
    }
    n.latlon = point;
    replace_node(ws, i, n);
    proof {
        assert(as_map(ws.nodes@).dom() =~= as_map(old(ws).nodes@).dom());
    }
}

/// The ids of `ids` that name a stored zone, in order.
pub open spec fn known_zones(ws: WorkspaceJson, ids: Seq<Seq<char>>) -> Seq<Seq<char>> {
    ids.filter(|z: Seq<char>| has_key(ws.zones@, z))
}

/// The zone ids listed by the association text that name stored zones.
pub(crate) fn existing_zone_ids(ws: &WorkspaceJson, text: &str) -> (r: Vec<String>)
    requires
        ws.wf(),
    ensures
        texts_of(r@) == known_zones(*ws, assoc_ids(raw_lines(text@))),
{
    let ids = parse_association_lines(text);
    let ghost keep = |z: Seq<char>| has_key(ws.zones@, z);
    let ghost tv = texts_of(ids@);
    let mut out: Vec<String> = Vec::new();
    let mut i: usize = 0;
    assert(tv.subrange(0, 0).filter(keep) =~= Seq::<Seq<char>>::empty());
    while i < ids.len()
        invariant
            ws.wf(),
            tv == texts_of(ids@),
            i <= ids@.len(),
            keep == (|z: Seq<char>| has_key(ws.zones@, z)),
            texts_of(out@) == tv.subrange(0, i as int).filter(keep),
        decreases ids@.len() - i,
    {
        let pass = find_key(&ws.zones, ids[i].as_str()).is_some();
        proof {
            let t = tv.subrange(0, i + 1);
            assert(t =~= tv.subrange(0, i as int).push(tv[i as int]));
            Seq::filter_distributes_over_add(tv.subrange(0, i as int), seq![tv[i as int]], keep);
            assert(tv.subrange(0, i as int) + seq![tv[i as int]] =~= t);
            assert(seq![tv[i as int]].filter(keep) =~= (if keep(tv[i as int]) {
                seq![tv[i as int]]
            } else {
                Seq::empty()
            })) by {
                reveal_with_fuel(Seq::filter, 2);
            }
        }
        if pass {
            let ghost before = texts_of(out@);
            out.push(ids[i].clone());
            assert(texts_of(out@) =~= before.push(tv[i as int]));
        }
        i = i + 1;
    }
    assert(tv.subrange(0, ids@.len() as int) =~= tv);
    out
}

/// Sets the zones of node `node_id` from the association text: the ids it
/// lists (see `assoc_ids`) that name stored zones.
pub fn set_node_zones_text(ws: &mut WorkspaceJson, node_id: &str, text: &str)
    requires
        old(ws).wf(),
    ensures
        final(ws).wf(),
        ({
            let n0 = as_map(old(ws).nodes@)[node_id@];
            node_edited(
                *old(ws),
                *final(ws),
                node_id@,
                n0.name@,
                n0.latlon,
                known_zones(*old(ws), assoc_ids(raw_lines(text@))),
                text_map(n0.properties@),
            )
        }),
{
    let zone_ids = existing_zone_ids(ws, text);
    let i = match find_key(&ws.nodes, node_id) {
        None => {
            return ;
        },
        Some(i) => i,
    };
    let mut n = node_copy(&ws.nodes[i].1);
    proof {
        crate::keyed::lemma_lookup_at(ws.nodes@, i as int);
    }
    n.zone_ids = zone_ids;
    replace_node(ws, i, n);
    proof {
        assert(as_map(ws.nodes@).dom() =~= as_map(old(ws).nodes@).dom());
    }
}

/// Replaces the properties of node `node_id` with those the property text
/// sets (see `props_from_lines`), plus `name` set to the node's name.
pub fn set_node_properties_text(ws: &mut WorkspaceJson, node_id: &str, text: &str)
    requires
        old(ws).wf(),
    ensures
        final(ws).wf(),
        ({
            let n0 = as_map(old(ws).nodes@)[node_id@];
            node_edited(
                *old(ws),
                *final(ws),
                node_id@,
                n0.name@,
                n0.latlon,
                texts_of(n0.zone_ids@),
                props_from_lines(raw_lines(text@)).insert("name"@, n0.name@),
            )
        }),
{
    let i = match find_key(&ws.nodes, node_id) {
        None => {
            return ;
        },
        Some(i) => i,
    };
    let mut n = node_copy(&ws.nodes[i].1);
    proof {
        crate::keyed::lemma_lookup_at(ws.nodes@, i as int);
    }
    let mut props = parse_properties_text(text);
    with_name_prop(&mut props, &n.name);
    n.properties = props;
    replace_node(ws, i, n);
    proof {
        assert(as_map(ws.nodes@).dom() =~= as_map(old(ws).nodes@).dom());
    }
}

/// What loading does to a node: a blank name is taken from the `name`
/// property (or becomes `Node`); otherwise the `name` property is set to
/// the name.
pub open spec fn normalized_node(a: NodeJson, b: NodeJson) -> bool {
    let p = text_map(b.properties@);
    if trim(b.name@).len() == 0 {
        node_same_except(
            a,
            b,
            if p.contains_key("name"@) {
                p["name"@]
            } else {
                "Node"@
            },
            b.latlon,
            texts_of(b.zone_ids@),
            p,
        )
    } else {
        node_same_except(a, b, b.name@, b.latlon, texts_of(b.zone_ids@), p.insert("name"@, b.name@))
    }
}

/// What loading does to a workspace: one marked as using a local
/// reference is in local mode, the mark follows the mode, and each node is
/// normalized (see `normalized_node`); all else is kept.
pub open spec fn workspace_normalized(before: WorkspaceJson, after: WorkspaceJson) -> bool {
    &&& after.coord_mode == (if before.local_ref {
        CoordMode::Local
    } else {
        before.coord_mode
    })
    &&& after.local_ref == (after.coord_mode == CoordMode::Local)
    &&& after.name == before.name
    &&& after.root_zone_id == before.root_zone_id
    &&& after.ref_point == before.ref_point
    &&& after.datum == before.datum
    &&& after.zones@ == before.zones@
    &&& after.edges@ == before.edges@
    &&& after.nodes@.len() == before.nodes@.len()
    &&& forall|i: int|
        0 <= i < before.nodes@.len() ==> (#[trigger] after.nodes@[i]).0 == before.nodes@[i].0
            && normalized_node(after.nodes@[i].1, before.nodes@[i].1)
}

/// The name a node gets back from its properties when its own is blank.
fn name_from_props(props: &Vec<(String, String)>) -> (r: String)
    requires
        keys_sorted(props@),
    ensures
        r@ == (if text_map(props@).contains_key("name"@) {
            text_map(props@)["name"@]
        } else {
            "Node"@
        }),
{
    match find_key(props, "name") {
        Some(k) => props[k].1.clone(),
        None => String::from_str("Node"),
    }
}

/// Brings a loaded workspace into the form the editor keeps: a workspace
/// marked as using a local reference is in local mode (and the mark
/// follows the mode), and every node's name and `name` property agree
/// (see `normalized_node`).
pub fn normalize_workspace_json(workspace: &mut WorkspaceJson)
    requires
        old(workspace).wf(),
    ensures
        final(workspace).wf(),
        workspace_normalized(*old(workspace), *final(workspace)),
{
    if workspace.local_ref && workspace.coord_mode == CoordMode::Global {
        workspace.coord_mode = CoordMode::Local;
    }
    workspace.local_ref = workspace.coord_mode == CoordMode::Local;
    let ghost orig = workspace.nodes@;
    let ghost pre = *workspace;
    let mut i: usize = 0;
    while i < workspace.nodes.len()
        invariant
            workspace.wf(),
            pre.wf(),
            orig == pre.nodes@,
            same_meta(*workspace, pre),
            workspace.zones@ == pre.zones@,
            workspace.edges@ == pre.edges@,
            workspace.nodes@.len() == orig.len(),
            i <= orig.len(),
            forall|j: int|
                0 <= j < orig.len() ==> (#[trigger] workspace.nodes@[j]).0 == orig[j].0,
            forall|j: int| 0 <= j < i ==> normalized_node(#[trigger] workspace.nodes@[j].1, orig[j].1),
            forall|j: int| i <= j < orig.len() ==> #[trigger] workspace.nodes@[j].1 == orig[j].1,
        decreases orig.len() - i,
    {
        let mut n = node_copy(&workspace.nodes[i].1);
        let ghost b = orig[i as int].1;
        assert(keys_sorted(b.properties@)) by {
            assert(keys_sorted(pre.nodes@[i as int].1.properties@));
        }
        if trimmed(n.name.as_str()).unicode_len() == 0 {
            n.name = name_from_props(&n.properties);
        } else {
            let name = n.name.clone();
            with_name_prop(&mut n.properties, &name);
        }
        assert(normalized_node(n, b));
        let ghost before = workspace.nodes@;
        replace_node(workspace, i, n);
        proof {
            assert forall|j: int| 0 <= j < i + 1 implies normalized_node(
                #[trigger] workspace.nodes@[j].1,
                orig[j].1,
            ) by {
                if j < i {
                    assert(workspace.nodes@[j] == before[j]);
                }
            }
        }
        i = i + 1;
    }
}

} // verus!
