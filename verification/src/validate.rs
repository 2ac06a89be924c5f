//! The health report of a workspace: every broken reference and malformed
//! zone, one message each, in a fixed order.
use vstd::prelude::*;
use crate::keyed::{find_key, has_key, lookup};
use crate::text::trim;
use crate::workspace::{texts_of, uses_local, CoordMode, EdgeJson, NodeJson, WorkspaceJson, ZoneJson};

verus! {

/// Whether the `f64` with these bits is finite (its exponent field is not
/// all ones).
pub open spec fn bits_finite(b: u64) -> bool {
    (b >> 52u64) & 0x7ffu64 != 0x7ffu64
}

pub open spec fn quoted(a: Seq<char>, x: Seq<char>, b: Seq<char>) -> Seq<char> {
    a + x + b
}

pub open spec fn quoted2(a: Seq<char>, x: Seq<char>, b: Seq<char>, y: Seq<char>, c: Seq<char>) -> Seq<char> {
    a + x + b + y + c
}

pub open spec fn opt(c: bool, m: Seq<char>) -> Seq<Seq<char>> {
    if c {
        seq![m]
    } else {
        Seq::empty()
    }
}

/// The messages for the children a zone lists, in list order.
pub open spec fn child_msgs(ws: WorkspaceJson, z: ZoneJson, kids: Seq<Seq<char>>) -> Seq<Seq<char>>
    decreases kids.len(),
{
    if kids.len() == 0 {
        Seq::empty()
    } else {
        let c = kids[kids.len() - 1];
        let m: Seq<Seq<char>> = match lookup(ws.zones@, c) {
            None => seq![quoted2("Zone '"@, z.name@, "' references missing child '"@, c, "'."@)],
            Some(child) => opt(
                child.parent_id@ != z.id@,
                quoted2(
                    "Zone '"@,
                    z.name@,
                    "' lists child '"@,
                    c,
                    "' but that child does not point back with matching parent_id."@,
                ),
            ),
        };
        child_msgs(ws, z, kids.subrange(0, kids.len() - 1)) + m
    }
}

/// One message per id of `ids` that is not a key of `keys`.
pub open spec fn missing_msgs<V>(
    keys: Seq<(String, V)>,
    ids: Seq<Seq<char>>,
    pre: Seq<char>,
    mid: Seq<char>,
) -> Seq<Seq<char>>
    decreases ids.len(),
{
    if ids.len() == 0 {
        Seq::empty()
    } else {
        let c = ids[ids.len() - 1];
        missing_msgs(keys, ids.subrange(0, ids.len() - 1), pre, mid) + opt(
            !has_key(keys, c),
            pre + mid + c + "'."@,
        )
    }
}

/// The messages about one zone; `unique` is how many distinct points its
/// polygon has.
pub open spec fn zone_msgs(ws: WorkspaceJson, z: ZoneJson, unique: int) -> Seq<Seq<char>> {
    let name = z.name@;
    let parent = z.parent_id@;
    opt(
        z.polygon_latlon@.len() < 3,
        quoted("Zone '"@, name, "' has fewer than 3 polygon points."@),
    ) + opt(unique < 3, quoted("Zone '"@, name, "' has fewer than 3 unique polygon points."@))
        + opt(
        parent.len() != 0 && !has_key(ws.zones@, parent),
        quoted2("Zone '"@, name, "' has a missing parent '"@, parent, "'."@),
    ) + child_msgs(ws, z, texts_of(z.child_ids@)) + opt(
        parent.len() != 0 && (match lookup(ws.zones@, parent) {
            Some(p) => !texts_of(p.child_ids@).contains(z.id@),
            None => false,
        }),
        quoted2(
            "Zone '"@,
            name,
            "' points to parent '"@,
            parent,
            "' but is missing from that parent's child_ids."@,
        ),
    ) + missing_msgs(ws.nodes@, texts_of(z.node_ids@), "Zone '"@ + name, "' references missing node '"@)
}

pub open spec fn all_zone_msgs(ws: WorkspaceJson, unique: Seq<usize>, n: int) -> Seq<Seq<char>>
    decreases n,
{
    if n <= 0 {
        Seq::empty()
    } else {
        all_zone_msgs(ws, unique, n - 1) + zone_msgs(ws, ws.zones@[n - 1].1, unique[n - 1] as int)
    }
}

pub open spec fn node_msgs(ws: WorkspaceJson, node: NodeJson) -> Seq<Seq<char>> {
    missing_msgs(ws.zones@, texts_of(node.zone_ids@), "Node '"@ + node.name@, "' references missing zone '"@)
}

pub open spec fn all_node_msgs(ws: WorkspaceJson, n: int) -> Seq<Seq<char>>
    decreases n,
{
    if n <= 0 {
        Seq::empty()
    } else {
        all_node_msgs(ws, n - 1) + node_msgs(ws, ws.nodes@[n - 1].1)
    }
}

pub open spec fn edge_msgs(ws: WorkspaceJson, e: EdgeJson) -> Seq<Seq<char>> {
    let id = e.id@;
    opt(!has_key(ws.nodes@, e.source_id@), quoted("Edge '"@, id, "' has a missing source node."@))
        + opt(
        !has_key(ws.nodes@, e.target_id@),
        quoted("Edge '"@, id, "' has a missing target node."@),
    ) + opt(!bits_finite(e.weight), quoted("Edge '"@, id, "' has a non-finite weight."@))
        + missing_msgs(ws.zones@, texts_of(e.zone_ids@), "Edge '"@ + id, "' references missing zone '"@)
}

pub open spec fn all_edge_msgs(ws: WorkspaceJson, n: int) -> Seq<Seq<char>>
    decreases n,
{
    if n <= 0 {
        Seq::empty()
    } else {
        all_edge_msgs(ws, n - 1) + edge_msgs(ws, ws.edges@[n - 1].1)
    }
}

/// Everything wrong with the workspace: its name, its coordinate
/// reference, its root, then each zone, node and edge in key order.
pub open spec fn validation(ws: WorkspaceJson, unique: Seq<usize>) -> Seq<Seq<char>> {
    opt(trim(ws.name@).len() == 0, "Workspace name is empty."@) + opt(
        uses_local(ws) && ws.ref_point is None && ws.datum is None,
        "Local coordinate mode requires a ref or datum."@,
    ) + opt(
        ws.root_zone_id@.len() != 0 && !has_key(ws.zones@, ws.root_zone_id@),
        "Root zone id does not point to an existing zone."@,
    ) + all_zone_msgs(ws, unique, ws.zones@.len() as int) + all_node_msgs(
        ws,
        ws.nodes@.len() as int,
    ) + all_edge_msgs(ws, ws.edges@.len() as int)
}

fn cat3(a: &str, x: &str, b: &str) -> (r: String)
    ensures
        r@ == a@ + x@ + b@,
{
    let mut s = String::from_str(a);
    s.append(x);
    s.append(b);
    s
}

fn cat5(a: &str, x: &str, b: &str, y: &str, c: &str) -> (r: String)
    ensures
        r@ == a@ + x@ + b@ + y@ + c@,
{
    let mut s = String::from_str(a);
    s.append(x);
    s.append(b);
    s.append(y);
    s.append(c);
    s
}

fn push_msg(out: &mut Vec<String>, m: String)
    ensures
        texts_of(final(out)@) == texts_of(old(out)@).push(m@),
{
    out.push(m);
    assert(texts_of(out@) =~= texts_of(old(out)@).push(m@));
}

fn add_missing<V>(
    out: &mut Vec<String>,
    keys: &Vec<(String, V)>,
    ids: &Vec<String>,
    pre: &str,
    name: &str,
    mid: &str,
)
    requires
        crate::keyed::keys_sorted(keys@),
    ensures
        texts_of(final(out)@) == texts_of(old(out)@) + missing_msgs(
            keys@,
            texts_of(ids@),
            pre@ + name@,
            mid@,
        ),
{
    let ghost start = texts_of(out@);
    let ghost all = texts_of(ids@);
    let mut i: usize = 0;
    assert(all.subrange(0, 0) =~= Seq::<Seq<char>>::empty());
    assert(start + Seq::<Seq<char>>::empty() =~= start);
    while i < ids.len()
        invariant
            crate::keyed::keys_sorted(keys@),
            all == texts_of(ids@),
            i <= ids@.len(),
            texts_of(out@) == start + missing_msgs(keys@, all.subrange(0, i as int), pre@ + name@, mid@),
        decreases ids@.len() - i,
    {
        let ghost before = texts_of(out@);
        let missing = find_key(keys, ids[i].as_str()).is_none();
        if missing {
            let mut m = cat3(pre, name, mid);
            m.append(ids[i].as_str());
            m.append("'.");
            push_msg(out, m);
        }
        proof {
            let t = all.subrange(0, i + 1);
            assert(t.subrange(0, t.len() - 1) =~= all.subrange(0, i as int));
            assert(t[t.len() - 1] == ids@[i as int]@);
            let o = opt(!has_key(keys@, ids@[i as int]@), pre@ + name@ + mid@ + ids@[i as int]@ + "'."@);
            assert(texts_of(out@) =~= before + o);
        }
        i = i + 1;
    }
    assert(all.subrange(0, ids@.len() as int) =~= all);
}

fn add_child_msgs(out: &mut Vec<String>, ws: &WorkspaceJson, zi: usize)
    requires
        ws.wf(),
        zi < ws.zones@.len(),
    ensures
        texts_of(final(out)@) == texts_of(old(out)@) + child_msgs(
            *ws,
            ws.zones@[zi as int].1,
            texts_of(ws.zones@[zi as int].1.child_ids@),
        ),
{
    let zone = &ws.zones[zi].1;
    let ghost start = texts_of(out@);
    let ghost all = texts_of(zone.child_ids@);
    let mut i: usize = 0;
    assert(all.subrange(0, 0) =~= Seq::<Seq<char>>::empty());
    assert(start + Seq::<Seq<char>>::empty() =~= start);
    while i < zone.child_ids.len()
        invariant
            ws.wf(),
            zone == &ws.zones@[zi as int].1,
            all == texts_of(zone.child_ids@),
            i <= all.len(),
            texts_of(out@) == start + child_msgs(*ws, *zone, all.subrange(0, i as int)),
        decreases all.len() - i,
    {
        let ghost before = texts_of(out@);
        let child_id = &zone.child_ids[i];
        match find_key(&ws.zones, child_id.as_str()) {
            None => {
                push_msg(
                    out,
                    cat5(
                        "Zone '",
                        zone.name.as_str(),
                        "' references missing child '",
                        child_id.as_str(),
                        "'.",
                    ),
                );
            },
            Some(ci) => {
                if !crate::text::text_eq(ws.zones[ci].1.parent_id.as_str(), zone.id.as_str()) {
                    push_msg(
                        out,
                        cat5(
                            "Zone '",
                            zone.name.as_str(),
                            "' lists child '",
                            child_id.as_str(),
                            "' but that child does not point back with matching parent_id.",
                        ),
                    );
                }
            },
        }
        proof {
            let t = all.subrange(0, i + 1);
            assert(t.subrange(0, t.len() - 1) =~= all.subrange(0, i as int));
            assert(t[t.len() - 1] == child_id@);
        }
        i = i + 1;
    }
    assert(all.subrange(0, all.len() as int) =~= all);
}

fn add_zone_msgs(out: &mut Vec<String>, ws: &WorkspaceJson, zi: usize, unique: usize)
    requires
        ws.wf(),
        zi < ws.zones@.len(),
    ensures
        texts_of(final(out)@) == texts_of(old(out)@) + zone_msgs(
            *ws,
            ws.zones@[zi as int].1,
            unique as int,
        ),
{
    let zone = &ws.zones[zi].1;
    let name = zone.name.as_str();
    let ghost s0 = texts_of(out@);
    if zone.polygon_latlon.len() < 3 {
        push_msg(out, cat3("Zone '", name, "' has fewer than 3 polygon points."));
    }
    if unique < 3 {
        push_msg(out, cat3("Zone '", name, "' has fewer than 3 unique polygon points."));
    }
    let parent = zone.parent_id.as_str();
    let has_parent = parent.unicode_len() > 0;
    let parent_index = find_key(&ws.zones, parent);
    if has_parent && parent_index.is_none() {
        push_msg(out, cat5("Zone '", name, "' has a missing parent '", parent, "'."));
    }
    let ghost s3 = texts_of(out@);
    add_child_msgs(out, ws, zi);
    let ghost s4 = texts_of(out@);
    let not_listed = match parent_index {
        Some(pi) => !crate::props::texts_contain(&ws.zones[pi].1.child_ids, zone.id.as_str()),
        None => false,
    };
    if has_parent && not_listed {
        push_msg(
            out,
            cat5(
                "Zone '",
                name,
                "' points to parent '",
                parent,
                "' but is missing from that parent's child_ids.",
            ),
        );
    }
    let ghost s5 = texts_of(out@);
    add_missing(out, &ws.nodes, &zone.node_ids, "Zone '", name, "' references missing node '");
    proof {
        let z = *zone;
        let a = opt(z.polygon_latlon@.len() < 3, quoted("Zone '"@, name@, "' has fewer than 3 polygon points."@));
        let b = opt((unique as int) < 3, quoted("Zone '"@, name@, "' has fewer than 3 unique polygon points."@));
        let c = opt(
            parent@.len() != 0 && !has_key(ws.zones@, parent@),
            quoted2("Zone '"@, name@, "' has a missing parent '"@, parent@, "'."@),
        );
        assert(s3 =~= s0 + a + b + c);
        let e = opt(
            parent@.len() != 0 && (match lookup(ws.zones@, parent@) {
                Some(p) => !texts_of(p.child_ids@).contains(z.id@),
                None => false,
            }),
            quoted2("Zone '"@, name@, "' points to parent '"@, parent@, "' but is missing from that parent's child_ids."@),
        );
        assert(s5 =~= s4 + e);
        let total = texts_of(out@);
        assert(total =~= s0 + zone_msgs(*ws, z, unique as int));
    }
}

fn add_edge_msgs(out: &mut Vec<String>, ws: &WorkspaceJson, ei: usize)
    requires
        ws.wf(),
        ei < ws.edges@.len(),
    ensures
        texts_of(final(out)@) == texts_of(old(out)@) + edge_msgs(*ws, ws.edges@[ei as int].1),
{
    let edge = &ws.edges[ei].1;
    let id = edge.id.as_str();
    let ghost s0 = texts_of(out@);
    if find_key(&ws.nodes, edge.source_id.as_str()).is_none() {
        push_msg(out, cat3("Edge '", id, "' has a missing source node."));
    }
    if find_key(&ws.nodes, edge.target_id.as_str()).is_none() {
        push_msg(out, cat3("Edge '", id, "' has a missing target node."));
    }
    if (edge.weight >> 52u64) & 0x7ffu64 == 0x7ffu64 {
        push_msg(out, cat3("Edge '", id, "' has a non-finite weight."));
    }
    let ghost s3 = texts_of(out@);
    add_missing(out, &ws.zones, &edge.zone_ids, "Edge '", id, "' references missing zone '");
    proof {
        let e = *edge;
        assert(s3 =~= s0 + opt(!has_key(ws.nodes@, e.source_id@), quoted("Edge '"@, id@, "' has a missing source node."@))
            + opt(!has_key(ws.nodes@, e.target_id@), quoted("Edge '"@, id@, "' has a missing target node."@))
            + opt(!bits_finite(e.weight), quoted("Edge '"@, id@, "' has a non-finite weight."@)));
        assert(texts_of(out@) =~= s0 + edge_msgs(*ws, e));
    }
}

/// The health report of a workspace. `unique_points[i]` is the number of
/// distinct points of the polygon of the `i`-th zone (in key order), as
/// told apart by their coordinates printed to nine decimals.
pub fn validation_messages(workspace: &WorkspaceJson, unique_points: &[usize]) -> (r: Vec<String>)
    requires
        workspace.wf(),
        unique_points@.len() == workspace.zones@.len(),
    ensures
        texts_of(r@) == validation(*workspace, unique_points@),
{
    let ws = workspace;
    let mut out: Vec<String> = Vec::new();
    let ghost s0 = texts_of(out@);
    if crate::text::trimmed(ws.name.as_str()).unicode_len() == 0 {
        push_msg(&mut out, String::from_str("Workspace name is empty."));
    }
    if crate::workspace::uses_local_coords(ws) && ws.ref_point.is_none() && ws.datum.is_none() {
        push_msg(&mut out, String::from_str("Local coordinate mode requires a ref or datum."));
    }
    if ws.root_zone_id.unicode_len() > 0 && find_key(&ws.zones, ws.root_zone_id.as_str()).is_none() {
        push_msg(&mut out, String::from_str("Root zone id does not point to an existing zone."));
    }
    let ghost head = texts_of(out@);
    proof {
        assert(head =~= s0 + opt(trim(ws.name@).len() == 0, "Workspace name is empty."@) + opt(
            uses_local(*ws) && ws.ref_point is None && ws.datum is None,
            "Local coordinate mode requires a ref or datum."@,
        ) + opt(
            ws.root_zone_id@.len() != 0 && !has_key(ws.zones@, ws.root_zone_id@),
            "Root zone id does not point to an existing zone."@,
        ));
        assert(head + all_zone_msgs(*ws, unique_points@, 0) =~= head);
    }
    let mut i: usize = 0;
    while i < ws.zones.len()
        invariant
            ws.wf(),
            unique_points@.len() == ws.zones@.len(),
            i <= ws.zones@.len(),
            texts_of(out@) == head + all_zone_msgs(*ws, unique_points@, i as int),
        decreases ws.zones@.len() - i,
    {
        add_zone_msgs(&mut out, ws, i, unique_points[i]);
        i = i + 1;
        assert(texts_of(out@) =~= head + all_zone_msgs(*ws, unique_points@, i as int));
    }
    let ghost head2 = texts_of(out@);
    assert(head2 + all_node_msgs(*ws, 0) =~= head2);
    let mut j: usize = 0;
    while j < ws.nodes.len()
        invariant
            ws.wf(),
            j <= ws.nodes@.len(),
            texts_of(out@) == head2 + all_node_msgs(*ws, j as int),
        decreases ws.nodes@.len() - j,
    {
        let node = &ws.nodes[j].1;
        add_missing(&mut out, &ws.zones, &node.zone_ids, "Node '", node.name.as_str(), "' references missing zone '");
        j = j + 1;
        assert(texts_of(out@) =~= head2 + all_node_msgs(*ws, j as int));
    }
    let ghost head3 = texts_of(out@);
    assert(head3 + all_edge_msgs(*ws, 0) =~= head3);
    let mut k: usize = 0;
    while k < ws.edges.len()
        invariant
            ws.wf(),
            k <= ws.edges@.len(),
            texts_of(out@) == head3 + all_edge_msgs(*ws, k as int),
        decreases ws.edges@.len() - k,
    {
        add_edge_msgs(&mut out, ws, k);
        k = k + 1;
        assert(texts_of(out@) =~= head3 + all_edge_msgs(*ws, k as int));
    }
    assert(texts_of(out@) =~= validation(*ws, unique_points@));
    out
}

/// Every id of `ids` is a key of `keys`.
pub open spec fn all_known<V>(keys: Seq<(String, V)>, ids: Seq<Seq<char>>) -> bool {
    forall|j: int| 0 <= j < ids.len() ==> has_key(keys, #[trigger] ids[j])
}

/// Every child of `z` listed in `kids` exists and names `z` as its parent.
pub open spec fn children_point_back(ws: WorkspaceJson, z: ZoneJson, kids: Seq<Seq<char>>) -> bool {
    forall|j: int|
        0 <= j < kids.len() ==> (lookup(ws.zones@, #[trigger] kids[j]) matches Some(c) && c.parent_id@ == z.id@)
}

/// Zone `z` (with `unique` distinct points) passes every check.
pub open spec fn zone_healthy(ws: WorkspaceJson, z: ZoneJson, unique: int) -> bool {
    let parent = z.parent_id@;
    &&& z.polygon_latlon@.len() >= 3
    &&& unique >= 3
    &&& parent.len() == 0 || has_key(ws.zones@, parent)
    &&& children_point_back(ws, z, texts_of(z.child_ids@))
    &&& (parent.len() != 0 && lookup(ws.zones@, parent) is Some) ==> texts_of(
        lookup(ws.zones@, parent)->Some_0.child_ids@,
    ).contains(z.id@)
    &&& all_known(ws.nodes@, texts_of(z.node_ids@))
}

/// Edge `e` passes every check.
pub open spec fn edge_healthy(ws: WorkspaceJson, e: EdgeJson) -> bool {
    &&& has_key(ws.nodes@, e.source_id@)
    &&& has_key(ws.nodes@, e.target_id@)
    &&& bits_finite(e.weight)
    &&& all_known(ws.zones@, texts_of(e.zone_ids@))
}

/// The workspace passes every check of the health report.
pub open spec fn workspace_healthy(ws: WorkspaceJson, unique: Seq<usize>) -> bool {
    &&& trim(ws.name@).len() != 0
    &&& !(uses_local(ws) && ws.ref_point is None && ws.datum is None)
    &&& ws.root_zone_id@.len() == 0 || has_key(ws.zones@, ws.root_zone_id@)
    &&& forall|i: int| 0 <= i < ws.zones@.len() ==> zone_healthy(ws, (#[trigger] ws.zones@[i]).1, unique[i] as int)
    &&& forall|i: int| 0 <= i < ws.nodes@.len() ==> all_known(ws.zones@, texts_of((#[trigger] ws.nodes@[i]).1.zone_ids@))
    &&& forall|i: int| 0 <= i < ws.edges@.len() ==> edge_healthy(ws, (#[trigger] ws.edges@[i]).1)
}

proof fn lemma_missing_empty<V>(keys: Seq<(String, V)>, ids: Seq<Seq<char>>, pre: Seq<char>, mid: Seq<char>)
    ensures
        missing_msgs(keys, ids, pre, mid).len() == 0 <==> all_known(keys, ids),
    decreases ids.len(),
{
    if ids.len() > 0 {
        let init = ids.subrange(0, ids.len() - 1);
        lemma_missing_empty(keys, init, pre, mid);
        if all_known(keys, ids) {
            assert forall|j: int| 0 <= j < init.len() implies has_key(keys, #[trigger] init[j]) by {
                assert(init[j] == ids[j]);
            }
        }
        if all_known(keys, init) && has_key(keys, ids[ids.len() - 1]) {
            assert forall|j: int| 0 <= j < ids.len() implies has_key(keys, #[trigger] ids[j]) by {
                if j < ids.len() - 1 {
                    assert(init[j] == ids[j]);
                }
            }
        }
    }
}

proof fn lemma_children_empty(ws: WorkspaceJson, z: ZoneJson, kids: Seq<Seq<char>>)
    ensures
        child_msgs(ws, z, kids).len() == 0 <==> children_point_back(ws, z, kids),
    decreases kids.len(),
{
    if kids.len() > 0 {
        let init = kids.subrange(0, kids.len() - 1);
        lemma_children_empty(ws, z, init);
        if children_point_back(ws, z, kids) {
            assert forall|j: int| 0 <= j < init.len() implies (lookup(ws.zones@, #[trigger] init[j]) matches Some(
                c,
            ) && c.parent_id@ == z.id@) by {
                assert(init[j] == kids[j]);
            }
        }
        let last = kids[kids.len() - 1];
        if children_point_back(ws, z, init) && (lookup(ws.zones@, last) matches Some(c) && c.parent_id@
            == z.id@) {
            assert forall|j: int| 0 <= j < kids.len() implies (lookup(ws.zones@, #[trigger] kids[j]) matches Some(
                c,
            ) && c.parent_id@ == z.id@) by {
                if j < kids.len() - 1 {
                    assert(init[j] == kids[j]);
                }
            }
        }
    }
}

proof fn lemma_zone_msgs_empty(ws: WorkspaceJson, z: ZoneJson, unique: int)
    ensures
        zone_msgs(ws, z, unique).len() == 0 <==> zone_healthy(ws, z, unique),
{
    lemma_children_empty(ws, z, texts_of(z.child_ids@));
    lemma_missing_empty(ws.nodes@, texts_of(z.node_ids@), "Zone '"@ + z.name@, "' references missing node '"@);
}

proof fn lemma_all_zones_empty(ws: WorkspaceJson, unique: Seq<usize>, n: int)
    requires
        0 <= n <= ws.zones@.len(),
    ensures
        all_zone_msgs(ws, unique, n).len() == 0 <==> forall|i: int|
            0 <= i < n ==> zone_healthy(ws, (#[trigger] ws.zones@[i]).1, unique[i] as int),
    decreases n,
{
    if n > 0 {
        lemma_all_zones_empty(ws, unique, n - 1);
        lemma_zone_msgs_empty(ws, ws.zones@[n - 1].1, unique[n - 1] as int);
    }
}

proof fn lemma_all_nodes_empty(ws: WorkspaceJson, n: int)
    requires
        0 <= n <= ws.nodes@.len(),
    ensures
        all_node_msgs(ws, n).len() == 0 <==> forall|i: int|
            0 <= i < n ==> all_known(ws.zones@, texts_of((#[trigger] ws.nodes@[i]).1.zone_ids@)),
    decreases n,
{
    if n > 0 {
        lemma_all_nodes_empty(ws, n - 1);
        let node = ws.nodes@[n - 1].1;
        lemma_missing_empty(ws.zones@, texts_of(node.zone_ids@), "Node '"@ + node.name@, "' references missing zone '"@);
    }
}

proof fn lemma_all_edges_empty(ws: WorkspaceJson, n: int)
    requires
        0 <= n <= ws.edges@.len(),
    ensures
        all_edge_msgs(ws, n).len() == 0 <==> forall|i: int|
            0 <= i < n ==> edge_healthy(ws, (#[trigger] ws.edges@[i]).1),
    decreases n,
{
    if n > 0 {
        lemma_all_edges_empty(ws, n - 1);
        let e = ws.edges@[n - 1].1;
        lemma_missing_empty(ws.zones@, texts_of(e.zone_ids@), "Edge '"@ + e.id@, "' references missing zone '"@);
    }
}

/// The health report is empty exactly when the workspace passes every
/// check (see `workspace_healthy`).
pub proof fn lemma_report_empty_iff_healthy(ws: WorkspaceJson, unique: Seq<usize>)
    ensures
        validation(ws, unique).len() == 0 <==> workspace_healthy(ws, unique),
{
    lemma_all_zones_empty(ws, unique, ws.zones@.len() as int);
    lemma_all_nodes_empty(ws, ws.nodes@.len() as int);
    lemma_all_edges_empty(ws, ws.edges@.len() as int);
}

/// The "references missing" messages for `ids` are exactly one per id that
/// is not a key of `keys`, in list order: `pre`, `mid`, the id and `'.`.
pub proof fn lemma_missing_messages_exact<V>(keys: Seq<(String, V)>, ids: Seq<Seq<char>>, pre: Seq<char>, mid: Seq<char>)
    ensures
        missing_msgs(keys, ids, pre, mid) == ids.filter(|c: Seq<char>| !has_key(keys, c)).map_values(
            |c: Seq<char>| pre + mid + c + "'."@,
        ),
        missing_msgs(keys, ids, pre, mid).len() == ids.filter(|c: Seq<char>| !has_key(keys, c)).len(),
    decreases ids.len(),
{
    let pred = |c: Seq<char>| !has_key(keys, c);
    let f = |c: Seq<char>| pre + mid + c + "'."@;
    reveal(Seq::filter);
    if ids.len() == 0 {
        assert(ids.filter(pred) =~= Seq::<Seq<char>>::empty());
        assert(ids.filter(pred).map_values(f) =~= Seq::<Seq<char>>::empty());
    } else {
        let init = ids.subrange(0, ids.len() - 1);
        assert(init =~= ids.drop_last());
        lemma_missing_messages_exact(keys, init, pre, mid);
        let c = ids[ids.len() - 1];
        let a = init.filter(pred);
        if pred(c) {
            assert(ids.filter(pred) == a.push(c));
            assert(a.push(c).map_values(f) =~= a.map_values(f).push(f(c)));
            assert(a.map_values(f) + opt(true, f(c)) =~= a.map_values(f).push(f(c)));
        } else {
            assert(ids.filter(pred) == a);
            assert(a.map_values(f) + opt(false, f(c)) =~= a.map_values(f));
        }
    }
}

proof fn lemma_in_concat(a: Seq<Seq<char>>, b: Seq<Seq<char>>, x: Seq<char>)
    ensures
        a.contains(x) || b.contains(x) ==> (a + b).contains(x),
{
    if a.contains(x) {
        let w = choose|w: int| 0 <= w < a.len() && a[w] == x;
        assert((a + b)[w] == x);
    } else if b.contains(x) {
        let w = choose|w: int| 0 <= w < b.len() && b[w] == x;
        assert((a + b)[a.len() + w] == x);
    }
}

/// A listed id that names no key gets its message.
proof fn lemma_missing_listed<V>(keys: Seq<(String, V)>, ids: Seq<Seq<char>>, pre: Seq<char>, mid: Seq<char>, j: int)
    requires
        0 <= j < ids.len(),
        !has_key(keys, ids[j]),
    ensures
        missing_msgs(keys, ids, pre, mid).contains(pre + mid + ids[j] + "'."@),
{
    let pred = |c: Seq<char>| !has_key(keys, c);
    let f = |c: Seq<char>| pre + mid + c + "'."@;
    lemma_missing_messages_exact(keys, ids, pre, mid);
    ids.lemma_filter_contains(pred, j);
    let fl = ids.filter(pred);
    let w = choose|w: int| 0 <= w < fl.len() && fl[w] == ids[j];
    assert(fl.map_values(f)[w] == f(ids[j]));
}

proof fn lemma_zone_block_in_report(ws: WorkspaceJson, unique: Seq<usize>, n: int, i: int, x: Seq<char>)
    requires
        0 <= i < n <= ws.zones@.len(),
        zone_msgs(ws, ws.zones@[i].1, unique[i] as int).contains(x),
    ensures
        all_zone_msgs(ws, unique, n).contains(x),
    decreases n,
{
    if i < n - 1 {
        lemma_zone_block_in_report(ws, unique, n - 1, i, x);
    }
    lemma_in_concat(all_zone_msgs(ws, unique, n - 1), zone_msgs(ws, ws.zones@[n - 1].1, unique[n - 1] as int), x);
}

proof fn lemma_node_block_in_report(ws: WorkspaceJson, n: int, i: int, x: Seq<char>)
    requires
        0 <= i < n <= ws.nodes@.len(),
        node_msgs(ws, ws.nodes@[i].1).contains(x),
    ensures
        all_node_msgs(ws, n).contains(x),
    decreases n,
{
    if i < n - 1 {
        lemma_node_block_in_report(ws, n - 1, i, x);
    }
    lemma_in_concat(all_node_msgs(ws, n - 1), node_msgs(ws, ws.nodes@[n - 1].1), x);
}

proof fn lemma_edge_block_in_report(ws: WorkspaceJson, n: int, i: int, x: Seq<char>)
    requires
        0 <= i < n <= ws.edges@.len(),
        edge_msgs(ws, ws.edges@[i].1).contains(x),
    ensures
        all_edge_msgs(ws, n).contains(x),
    decreases n,
{
    if i < n - 1 {
        lemma_edge_block_in_report(ws, n - 1, i, x);
    }
    lemma_in_concat(all_edge_msgs(ws, n - 1), edge_msgs(ws, ws.edges@[n - 1].1), x);
}

/// Every id a zone, node or edge lists that names no stored node or zone
/// is reported, by the name (or id) of what lists it and by the id.
pub proof fn lemma_report_lists_every_missing_id(ws: WorkspaceJson, unique: Seq<usize>)
    ensures
        forall|i: int, j: int|
            0 <= i < ws.zones@.len() && 0 <= j < ws.zones@[i].1.node_ids@.len() && !has_key(
                ws.nodes@,
                (#[trigger] ws.zones@[i].1.node_ids@[j])@,
            ) ==> validation(ws, unique).contains(
                "Zone '"@ + ws.zones@[i].1.name@ + "' references missing node '"@ + ws.zones@[i].1.node_ids@[j]@
                    + "'."@,
            ),
        forall|i: int, j: int|
            0 <= i < ws.nodes@.len() && 0 <= j < ws.nodes@[i].1.zone_ids@.len() && !has_key(
                ws.zones@,
                (#[trigger] ws.nodes@[i].1.zone_ids@[j])@,
            ) ==> validation(ws, unique).contains(
                "Node '"@ + ws.nodes@[i].1.name@ + "' references missing zone '"@ + ws.nodes@[i].1.zone_ids@[j]@
                    + "'."@,
            ),
        forall|i: int, j: int|
            0 <= i < ws.edges@.len() && 0 <= j < ws.edges@[i].1.zone_ids@.len() && !has_key(
                ws.zones@,
                (#[trigger] ws.edges@[i].1.zone_ids@[j])@,
            ) ==> validation(ws, unique).contains(
                "Edge '"@ + ws.edges@[i].1.id@ + "' references missing zone '"@ + ws.edges@[i].1.zone_ids@[j]@
                    + "'."@,
            ),
{
    let head = opt(trim(ws.name@).len() == 0, "Workspace name is empty."@) + opt(
        uses_local(ws) && ws.ref_point is None && ws.datum is None,
        "Local coordinate mode requires a ref or datum."@,
    ) + opt(
        ws.root_zone_id@.len() != 0 && !has_key(ws.zones@, ws.root_zone_id@),
        "Root zone id does not point to an existing zone."@,
    );
    let zm = all_zone_msgs(ws, unique, ws.zones@.len() as int);
    let nm = all_node_msgs(ws, ws.nodes@.len() as int);
    let em = all_edge_msgs(ws, ws.edges@.len() as int);
    assert(validation(ws, unique) == head + zm + nm + em);
    assert forall|i: int, j: int|
        0 <= i < ws.zones@.len() && 0 <= j < ws.zones@[i].1.node_ids@.len() && !has_key(
            ws.nodes@,
            (#[trigger] ws.zones@[i].1.node_ids@[j])@,
        ) implies validation(ws, unique).contains(
            "Zone '"@ + ws.zones@[i].1.name@ + "' references missing node '"@ + ws.zones@[i].1.node_ids@[j]@ + "'."@,
        ) by {
        let z = ws.zones@[i].1;
        let ids = texts_of(z.node_ids@);
        let pre = "Zone '"@ + z.name@;
        let mid = "' references missing node '"@;
        assert(ids[j] == z.node_ids@[j]@);
        lemma_missing_listed(ws.nodes@, ids, pre, mid, j);
        let x = pre + mid + ids[j] + "'."@;
        assert(x == "Zone '"@ + z.name@ + "' references missing node '"@ + z.node_ids@[j]@ + "'."@);
        let zz = zone_msgs(ws, z, unique[i] as int);
        lemma_in_concat(zz.subrange(0, zz.len() - missing_msgs(ws.nodes@, ids, pre, mid).len()), missing_msgs(ws.nodes@, ids, pre, mid), x);
        assert(zz =~= zz.subrange(0, zz.len() - missing_msgs(ws.nodes@, ids, pre, mid).len()) + missing_msgs(ws.nodes@, ids, pre, mid));
        lemma_zone_block_in_report(ws, unique, ws.zones@.len() as int, i, x);
        lemma_in_concat(head, zm, x);
        lemma_in_concat(head + zm, nm, x);
        lemma_in_concat(head + zm + nm, em, x);
    }
    assert forall|i: int, j: int|
        0 <= i < ws.nodes@.len() && 0 <= j < ws.nodes@[i].1.zone_ids@.len() && !has_key(
            ws.zones@,
            (#[trigger] ws.nodes@[i].1.zone_ids@[j])@,
        ) implies validation(ws, unique).contains(
            "Node '"@ + ws.nodes@[i].1.name@ + "' references missing zone '"@ + ws.nodes@[i].1.zone_ids@[j]@ + "'."@,
        ) by {
        let nd = ws.nodes@[i].1;
        let ids = texts_of(nd.zone_ids@);
        let pre = "Node '"@ + nd.name@;
        let mid = "' references missing zone '"@;
        assert(ids[j] == nd.zone_ids@[j]@);
        lemma_missing_listed(ws.zones@, ids, pre, mid, j);
        let x = pre + mid + ids[j] + "'."@;
        assert(x == "Node '"@ + nd.name@ + "' references missing zone '"@ + nd.zone_ids@[j]@ + "'."@);
        lemma_node_block_in_report(ws, ws.nodes@.len() as int, i, x);
        lemma_in_concat(head + zm, nm, x);
        lemma_in_concat(head + zm + nm, em, x);
    }
    assert forall|i: int, j: int|
        0 <= i < ws.edges@.len() && 0 <= j < ws.edges@[i].1.zone_ids@.len() && !has_key(
            ws.zones@,
            (#[trigger] ws.edges@[i].1.zone_ids@[j])@,
        ) implies validation(ws, unique).contains(
            "Edge '"@ + ws.edges@[i].1.id@ + "' references missing zone '"@ + ws.edges@[i].1.zone_ids@[j]@ + "'."@,
        ) by {
        let ed = ws.edges@[i].1;
        let ids = texts_of(ed.zone_ids@);
        let pre = "Edge '"@ + ed.id@;
        let mid = "' references missing zone '"@;
        assert(ids[j] == ed.zone_ids@[j]@);
        lemma_missing_listed(ws.zones@, ids, pre, mid, j);
        let x = pre + mid + ids[j] + "'."@;
        assert(x == "Edge '"@ + ed.id@ + "' references missing zone '"@ + ed.zone_ids@[j]@ + "'."@);
        let ee = edge_msgs(ws, ed);
        let mm = missing_msgs(ws.zones@, ids, pre, mid);
        assert(ee =~= ee.subrange(0, ee.len() - mm.len()) + mm);
        lemma_in_concat(ee.subrange(0, ee.len() - mm.len()), mm, x);
        lemma_edge_block_in_report(ws, ws.edges@.len() as int, i, x);
        lemma_in_concat(head + zm + nm, em, x);
    }
}

} // verus!
