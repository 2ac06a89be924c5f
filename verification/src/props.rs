//! Free-form `key=value` properties and the text forms the editor shows
//! and reads back: one property per line, one associated id per line.
use vstd::prelude::*;
use crate::keyed::{find_key, has_key, insert_key, key_pos, keys_sorted, lookup, remove_key};
use crate::text::{
    chars_of, ends_with, find, find_in, join, last_index, raw_lines, rfind_char, split_on,
    split_ranges, substring, text_eq, trim, trim_range,
};
use crate::workspace::{texts_of, Properties, WorkspaceJson};

verus! {

/// A property table as a map of texts.
pub open spec fn text_map(s: Seq<(String, String)>) -> Map<Seq<char>, Seq<char>> {
    Map::new(|k: Seq<char>| has_key(s, k), |k: Seq<char>| s[key_pos(s, k)].1@)
}

/// One line of the property text: the part before the first `=` and the
/// part after it, each trimmed; a line without `=` is all key.
pub open spec fn prop_line(l: Seq<char>) -> (Seq<char>, Seq<char>) {
    match find(l, seq!['=']) {
        Some(i) => (trim(l.subrange(0, i)), trim(l.subrange(i + 1, l.len() as int))),
        None => (trim(l), Seq::empty()),
    }
}

/// The properties a list of lines sets: each non-blank line (trimmed) gives
/// a key and a value; a later line for the same key wins.
pub open spec fn props_from_lines(lines: Seq<Seq<char>>) -> Map<Seq<char>, Seq<char>>
    decreases lines.len(),
{
    if lines.len() == 0 {
        Map::empty()
    } else {
        let m = props_from_lines(lines.subrange(0, lines.len() - 1));
        let l = trim(lines[lines.len() - 1]);
        if l.len() == 0 {
            m
        } else {
            m.insert(prop_line(l).0, prop_line(l).1)
        }
    }
}

/// The `key=value` lines of a property table, in key order.
pub open spec fn prop_lines(s: Seq<(String, String)>) -> Seq<Seq<char>> {
    s.map_values(|p: (String, String)| p.0@ + "="@ + p.1@)
}

/// The ranges of the lines of `cs` (`raw_lines`).
fn line_ranges(cs: &Vec<char>) -> (r: Vec<(usize, usize)>)
    ensures
        r@.len() == raw_lines(cs@).len(),
        forall|k: int|
            0 <= k < r@.len() ==> (#[trigger] r@[k]).0 <= r@[k].1 <= cs@.len() && cs@.subrange(
                r@[k].0 as int,
                r@[k].1 as int,
            ) == raw_lines(cs@)[k],
{
    let mut ranges = split_ranges(cs, 0, cs.len(), '\n');
    assert(cs@.subrange(0, cs@.len() as int) =~= cs@);
    proof {
        crate::text::lemma_split_on_nonempty(cs@, '\n');
    }
    let last = ranges.len() - 1;
    if ranges[last].0 == ranges[last].1 {
        let ghost p = split_on(cs@, '\n');
        assert(p[last as int] =~= cs@.subrange(ranges@[last as int].0 as int, ranges@[last as int].1 as int));
        ranges.pop();
    }
    ranges
}

/// Reads the property text: one `key=value` per line.
pub fn parse_properties_text(text: &str) -> (r: Properties)
    ensures
        keys_sorted(r@),
        text_map(r@) == props_from_lines(raw_lines(text@)),
{
    let cs = chars_of(text);
    let ranges = line_ranges(&cs);
    let ghost lines = raw_lines(text@);
    let mut out: Vec<(String, String)> = Vec::new();
    let mut i: usize = 0;
    proof {
        assert(lines.subrange(0, 0) =~= Seq::<Seq<char>>::empty());
        assert(text_map(out@) =~= Map::<Seq<char>, Seq<char>>::empty());
    }
    while i < ranges.len()
        invariant
            cs@ == text@,
            lines == raw_lines(text@),
            ranges@.len() == lines.len(),
            forall|k: int|
                0 <= k < ranges@.len() ==> (#[trigger] ranges@[k]).0 <= ranges@[k].1 <= cs@.len()
                    && cs@.subrange(ranges@[k].0 as int, ranges@[k].1 as int) == lines[k],
            i <= ranges@.len(),
            keys_sorted(out@),
            text_map(out@) == props_from_lines(lines.subrange(0, i as int)),
        decreases ranges@.len() - i,
    {
        let (a, b) = ranges[i];
        let (x, y) = trim_range(&cs, a, b);
        let ghost l = trim(lines[i as int]);
        proof {
            assert(l == cs@.subrange(x as int, y as int));
            let t = lines.subrange(0, i + 1);
            assert(t.subrange(0, t.len() - 1) =~= lines.subrange(0, i as int));
            assert(t[t.len() - 1] == lines[i as int]);
        }
        if x < y {
            let eq: Vec<char> = vec!['='];
            assert(eq@ =~= seq!['=']);
            let (k, v) = match find_in(&cs, x, y, &eq) {
                Some(e) => {
                    proof {
                        crate::text::lemma_find_from_bounds(l, seq!['='], 0);
                        assert(l.subrange(0, e - x) =~= cs@.subrange(x as int, e as int));
                        assert(l.subrange(e - x + 1, l.len() as int) =~= cs@.subrange(e + 1, y as int));
                    }
                    let (ka, kb) = trim_range(&cs, x, e);
                    let (va, vb) = trim_range(&cs, e + 1, y);
                    (substring(text, ka, kb), substring(text, va, vb))
                },
                None => {
                    let (ka, kb) = trim_range(&cs, x, y);
                    (substring(text, ka, kb), String::new())
                },
            };
            proof {
                assert(k@ == prop_line(l).0);
                assert(v@ == prop_line(l).1);
            }
            let ghost before = out@;
            insert_key(&mut out, k, v);
            proof {
                lemma_text_map_insert(before, out@, k@, v);
            }
        }
        i = i + 1;
    }
    assert(lines.subrange(0, ranges@.len() as int) =~= lines);
    out
}

pub proof fn lemma_text_map_insert(
    before: Seq<(String, String)>,
    after: Seq<(String, String)>,
    k: Seq<char>,
    v: String,
)
    requires
        keys_sorted(before),
        keys_sorted(after),
        crate::keyed::as_map(after) == crate::keyed::as_map(before).insert(k, v),
    ensures
        text_map(after) == text_map(before).insert(k, v@),
{
    assert forall|q: Seq<char>| #[trigger] text_map(after).contains_key(q) <==> text_map(
        before,
    ).insert(k, v@).contains_key(q) by {
        assert(crate::keyed::as_map(after).contains_key(q) == has_key(after, q));
        assert(crate::keyed::as_map(before).contains_key(q) == has_key(before, q));
    }
    assert forall|q: Seq<char>| #[trigger] text_map(after).contains_key(q) implies text_map(
        after,
    )[q] == text_map(before).insert(k, v@)[q] by {
        assert(crate::keyed::as_map(after)[q] == after[key_pos(after, q)].1);
        if q != k {
            assert(crate::keyed::as_map(before).contains_key(q));
            assert(crate::keyed::as_map(before)[q] == before[key_pos(before, q)].1);
        }
    }
    assert(text_map(after) =~= text_map(before).insert(k, v@));
}

/// An entry that the property text carries unchanged: a trimmed key
/// without `=` or line breaks (it may be empty), and a trimmed value without
/// line breaks.
pub open spec fn clean_entry(k: Seq<char>, v: Seq<char>) -> bool {
    &&& trim(k) == k
    &&& !k.contains('=')
    &&& !k.contains('\n')
    &&& trim(v) == v
    &&& !v.contains('\n')
}

/// A sorted table is the table without its last entry plus that entry.
proof fn lemma_text_map_last(s: Seq<(String, String)>)
    requires
        keys_sorted(s),
        s.len() > 0,
    ensures
        text_map(s) == text_map(s.subrange(0, s.len() - 1)).insert(s[s.len() - 1].0@, s[s.len() - 1].1@),
{
    let n = s.len() - 1;
    let init = s.subrange(0, n);
    assert(keys_sorted(init)) by {
        assert forall|i: int, j: int| 0 <= i < j < init.len() implies crate::order::text_lt(
            #[trigger] init[i].0@,
            #[trigger] init[j].0@,
        ) by {
            assert(init[i] == s[i] && init[j] == s[j]);
        }
    }
    let m = text_map(init).insert(s[n].0@, s[n].1@);
    assert forall|q: Seq<char>| #[trigger] text_map(s).contains_key(q) <==> m.contains_key(q) by {
        if has_key(s, q) {
            let w = key_pos(s, q);
            if w < n {
                assert(init[w] == s[w]);
            }
        }
        if has_key(init, q) {
            let w = key_pos(init, q);
            assert(s[w] == init[w]);
        }
    }
    assert forall|q: Seq<char>| #[trigger] text_map(s).contains_key(q) implies text_map(s)[q] == m[q] by {
        let w = key_pos(s, q);
        crate::keyed::lemma_lookup_at(s, w);
        if q != s[n].0@ {
            assert(w != n);
            assert(init[w] == s[w]);
            crate::keyed::lemma_lookup_at(init, w);
        } else {
            crate::keyed::lemma_sorted_unique(s, w, n);
        }
    }
    assert(text_map(s) =~= m);
}

/// The line `k=v` of a clean entry is already trimmed.
#[verifier::spinoff_prover]
proof fn lemma_entry_line_trimmed(k: Seq<char>, v: Seq<char>)
    requires
        clean_entry(k, v),
    ensures
        trim(k + "="@ + v) == k + "="@ + v,
{
    reveal_strlit("=");
    let l = k + "="@ + v;
    crate::text::lemma_trim_shape(k);
    crate::text::lemma_trim_shape(v);
    if k.len() > 0 {
        assert(l[0] == k[0]);
    } else {
        assert(l[0] == '=');
    }
    if v.len() > 0 {
        assert(l[l.len() - 1] == v[v.len() - 1]);
    } else {
        assert(l[l.len() - 1] == '=');
    }
    crate::text::lemma_trim_clean(l);
}

/// The first `=` of the line `k=v` of a clean entry ends the key.
proof fn lemma_entry_line_find(k: Seq<char>, v: Seq<char>)
    requires
        clean_entry(k, v),
    ensures
        crate::text::find(k + "="@ + v, seq!['=']) == Some(k.len() as int),
{
    reveal_strlit("=");
    let l = k + "="@ + v;
    let n = k.len() as int;
    assert(crate::text::occurs_at(l, seq!['='], n)) by {
        assert(l.subrange(n, n + 1) =~= seq!['=']);
    }
    assert forall|j: int| 0 <= j < n implies !crate::text::occurs_at(l, seq!['='], j) by {
        assert(l[j] == k[j]);
        if crate::text::occurs_at(l, seq!['='], j) {
            assert(l.subrange(j, j + 1)[0] == '=');
        }
    }
    crate::text::lemma_find_first(l, seq!['='], 0, n);
}

/// The line `k=v` of a clean entry reads back as `(k, v)`.
proof fn lemma_prop_line_clean(k: Seq<char>, v: Seq<char>)
    requires
        clean_entry(k, v),
    ensures
        trim(k + "="@ + v) == k + "="@ + v,
        prop_line(k + "="@ + v) == (k, v),
{
    reveal_strlit("=");
    lemma_entry_line_trimmed(k, v);
    lemma_entry_line_find(k, v);
    let l = k + "="@ + v;
    let n = k.len() as int;
    assert(l.subrange(0, n) =~= k);
    assert(l.subrange(n + 1, l.len() as int) =~= v);
}

/// The lines of a clean table set exactly the table.
proof fn lemma_lines_give_table(s: Seq<(String, String)>)
    requires
        keys_sorted(s),
        forall|i: int| 0 <= i < s.len() ==> clean_entry((#[trigger] s[i]).0@, s[i].1@),
    ensures
        props_from_lines(prop_lines(s)) == text_map(s),
    decreases s.len(),
{
    if s.len() == 0 {
        assert(text_map(s) =~= Map::<Seq<char>, Seq<char>>::empty());
    } else {
        let n = s.len() - 1;
        let init = s.subrange(0, n);
        lemma_text_map_last(s);
        assert(keys_sorted(init)) by {
            assert forall|i: int, j: int| 0 <= i < j < init.len() implies crate::order::text_lt(
                #[trigger] init[i].0@,
                #[trigger] init[j].0@,
            ) by {
                assert(init[i] == s[i] && init[j] == s[j]);
            }
        }
        assert forall|i: int| 0 <= i < init.len() implies clean_entry((#[trigger] init[i]).0@, init[i].1@) by {
            assert(init[i] == s[i]);
        }
        lemma_lines_give_table(init);
        let lines = prop_lines(s);
        assert(lines.subrange(0, n) =~= prop_lines(init));
        lemma_prop_line_clean(s[n].0@, s[n].1@);
        reveal_strlit("=");
        assert(lines[n] == s[n].0@ + "="@ + s[n].1@);
        assert(trim(lines[n]).len() > 0);
    }
}

/// Writing a property table as text and reading the text back gives the
/// same table, as long as every entry is clean (see `clean_entry`); a key
/// holding `=`, such as `a=b`, reads back split at it.
pub proof fn lemma_properties_text_round_trip(s: Seq<(String, String)>)
    requires
        keys_sorted(s),
        forall|i: int| 0 <= i < s.len() ==> clean_entry((#[trigger] s[i]).0@, s[i].1@),
    ensures
        props_from_lines(raw_lines(join(prop_lines(s), "\n"@))) == text_map(s),
{
    reveal_strlit("\n");
    reveal_strlit("=");
    assert("\n"@ =~= seq!['\n']);
    let lines = prop_lines(s);
    lemma_lines_give_table(s);
    if s.len() == 0 {
        assert(join(lines, "\n"@) =~= Seq::<char>::empty());
        assert(raw_lines(join(lines, "\n"@)) =~= Seq::<Seq<char>>::empty());
        assert(lines =~= Seq::<Seq<char>>::empty());
    } else {
        assert forall|i: int| 0 <= i < lines.len() implies !(#[trigger] lines[i]).contains('\n') by {
            let k = s[i].0@;
            let v = s[i].1@;
            assert(lines[i] == k + "="@ + v);
            if lines[i].contains('\n') {
                let w = choose|w: int| 0 <= w < lines[i].len() && #[trigger] lines[i][w] == '\n';
                if w < k.len() {
                    assert(k[w] == '\n');
                } else if w > k.len() {
                    assert(v[w - k.len() - 1] == '\n');
                }
            }
        }
        crate::text::lemma_split_join(lines, '\n');
        assert(lines[lines.len() - 1].len() > 0);
    }
}

/// The property text: `key=value` lines in key order, joined by newlines.
pub fn properties_text(properties: &Properties) -> (r: String)
    ensures
        r@ == join(prop_lines(properties@), "\n"@),
{
    let mut out = String::new();
    let mut i: usize = 0;
    let ghost lines = prop_lines(properties@);
    while i < properties.len()
        invariant
            lines == prop_lines(properties@),
            i <= properties@.len(),
            out@ == join(lines.subrange(0, i as int), "\n"@),
        decreases properties@.len() - i,
    {
        if i > 0 {
            out.append("\n");
        }
        out.append(properties[i].0.as_str());
        out.append("=");
        out.append(properties[i].1.as_str());
        i = i + 1;
        proof {
            let t = lines.subrange(0, i as int);
            assert(t.subrange(0, t.len() - 1) =~= lines.subrange(0, i - 1));
            assert(t[t.len() - 1] == lines[i - 1]);
            if i == 1 {
                assert(out@ =~= lines[0]);
            } else {
                assert(out@ =~= join(lines.subrange(0, i - 1), "\n"@) + "\n"@ + lines[i - 1]);
            }
        }
    }
    assert(lines.subrange(0, properties@.len() as int) =~= lines);
    out
}

/// The value stored for `key`, or the empty text.
pub open spec fn prop_value(m: Map<Seq<char>, Seq<char>>, key: Seq<char>) -> Seq<char> {
    if m.contains_key(key) {
        m[key]
    } else {
        Seq::empty()
    }
}

/// Whether `key` holds exactly `true`.
pub open spec fn bool_value(m: Map<Seq<char>, Seq<char>>, key: Seq<char>) -> bool {
    m.contains_key(key) && m[key] == "true"@
}

/// The table after `key` is set to `value`: the trimmed value, or no entry
/// when that is empty.
pub open spec fn prop_set(m: Map<Seq<char>, Seq<char>>, key: Seq<char>, value: Seq<char>) -> Map<
    Seq<char>,
    Seq<char>,
> {
    if trim(value).len() == 0 {
        m.remove(key)
    } else {
        m.insert(key, trim(value))
    }
}

/// The table after flag `key` is set: `true`, or no entry.
pub open spec fn bool_set(m: Map<Seq<char>, Seq<char>>, key: Seq<char>, value: bool) -> Map<
    Seq<char>,
    Seq<char>,
> {
    if value {
        m.insert(key, "true"@)
    } else {
        m.remove(key)
    }
}

/// Reading a property after setting it gives the trimmed value (empty when
/// that was blank and the entry went away); other keys read as before.
pub proof fn lemma_get_after_set(
    m: Map<Seq<char>, Seq<char>>,
    key: Seq<char>,
    value: Seq<char>,
    other: Seq<char>,
)
    ensures
        prop_value(prop_set(m, key, value), key) == trim(value),
        other != key ==> prop_value(prop_set(m, key, value), other) == prop_value(m, other),
{
}

/// Reading a flag after setting it gives the value set; other keys read as
/// before.
pub proof fn lemma_flag_after_set(m: Map<Seq<char>, Seq<char>>, key: Seq<char>, value: bool, other: Seq<char>)
    ensures
        bool_value(bool_set(m, key, value), key) == value,
        other != key ==> bool_value(bool_set(m, key, value), other) == bool_value(m, other),
{
}

/// The value of `key`, or the empty text.
pub fn get_prop(properties: &Properties, key: &str) -> (r: String)
    requires
        keys_sorted(properties@),
    ensures
        r@ == prop_value(text_map(properties@), key@),
{
    match find_key(properties, key) {
        Some(i) => properties[i].1.clone(),
        None => String::new(),
    }
}

/// Whether `key` holds exactly `true`.
pub fn get_bool_prop(properties: &Properties, key: &str) -> (r: bool)
    requires
        keys_sorted(properties@),
    ensures
        r == bool_value(text_map(properties@), key@),
{
    match find_key(properties, key) {
        Some(i) => text_eq(properties[i].1.as_str(), "true"),
        None => false,
    }
}

/// Sets `key` to the trimmed value, or removes it when that is empty.
pub fn set_prop(properties: &mut Properties, key: &str, value: String)
    requires
        keys_sorted(old(properties)@),
    ensures
        keys_sorted(final(properties)@),
        text_map(final(properties)@) == prop_set(text_map(old(properties)@), key@, value@),
{
    let trimmed = crate::text::trimmed(value.as_str());
    let ghost before = properties@;
    if trimmed.unicode_len() == 0 {
        remove_key(properties, key);
        proof {
            lemma_text_map_remove(before, properties@, key@);
        }
    } else {
        insert_key(properties, String::from_str(key), trimmed);
        proof {
            lemma_text_map_insert(before, properties@, key@, trimmed);
        }
    }
}

/// Sets `key` to `true`, or removes it.
pub fn set_bool_prop(properties: &mut Properties, key: &str, value: bool)
    requires
        keys_sorted(old(properties)@),
    ensures
        keys_sorted(final(properties)@),
        text_map(final(properties)@) == bool_set(text_map(old(properties)@), key@, value),
{
    let ghost before = properties@;
    if value {
        let t = String::from_str("true");
        insert_key(properties, String::from_str(key), t);
        proof {
            lemma_text_map_insert(before, properties@, key@, t);
        }
    } else {
        remove_key(properties, key);
        proof {
            lemma_text_map_remove(before, properties@, key@);
        }
    }
}

pub proof fn lemma_text_map_remove(before: Seq<(String, String)>, after: Seq<(String, String)>, k: Seq<char>)
    requires
        keys_sorted(before),
        keys_sorted(after),
        crate::keyed::as_map(after) == crate::keyed::as_map(before).remove(k),
    ensures
        text_map(after) == text_map(before).remove(k),
{
    assert forall|q: Seq<char>| #[trigger] text_map(after).contains_key(q) <==> text_map(
        before,
    ).remove(k).contains_key(q) by {
        assert(crate::keyed::as_map(after).contains_key(q) == has_key(after, q));
        assert(crate::keyed::as_map(before).contains_key(q) == has_key(before, q));
    }
    assert forall|q: Seq<char>| #[trigger] text_map(after).contains_key(q) implies text_map(
        after,
    )[q] == text_map(before).remove(k)[q] by {
        assert(crate::keyed::as_map(after)[q] == after[key_pos(after, q)].1);
        assert(crate::keyed::as_map(before).contains_key(q));
        assert(crate::keyed::as_map(before)[q] == before[key_pos(before, q)].1);
    }
    assert(text_map(after) =~= text_map(before).remove(k));
}

/// `name (id)`: how an associated item is listed.
pub open spec fn labelled(name: Seq<char>, id: Seq<char>) -> Seq<char> {
    name + " ("@ + id + ")"@
}

/// The line for a node id: its node's label, or the bare id.
pub open spec fn node_line(ws: WorkspaceJson, id: Seq<char>) -> Seq<char> {
    match lookup(ws.nodes@, id) {
        Some(n) => labelled(n.name@, n.id@),
        None => id,
    }
}

/// The line for a zone id: its zone's label, or the bare id.
pub open spec fn zone_line(ws: WorkspaceJson, id: Seq<char>) -> Seq<char> {
    match lookup(ws.zones@, id) {
        Some(z) => labelled(z.name@, z.id@),
        None => id,
    }
}

fn label_line(name: &String, id: &String) -> (r: String)
    ensures
        r@ == labelled(name@, id@),
{
    let mut out = name.clone();
    out.append(" (");
    out.append(id.as_str());
    out.append(")");
    out
}

/// The lines listing the nodes of zone `zone_id` (none if it does not
/// exist).
pub fn zone_node_lines(workspace: &WorkspaceJson, zone_id: &str) -> (r: Vec<String>)
    requires
        workspace.wf(),
    ensures
        texts_of(r@) == (match lookup(workspace.zones@, zone_id@) {
            None => Seq::empty(),
            Some(z) => texts_of(z.node_ids@).map_values(|id: Seq<char>| node_line(*workspace, id)),
        }),
{
    let mut out: Vec<String> = Vec::new();
    let zi = match find_key(&workspace.zones, zone_id) {
        None => {
            assert(texts_of(out@) =~= Seq::<Seq<char>>::empty());
            return out;
        },
        Some(zi) => zi,
    };
    let ids = &workspace.zones[zi].1.node_ids;
    let ghost want = texts_of(ids@).map_values(|id: Seq<char>| node_line(*workspace, id));
    let mut i: usize = 0;
    while i < ids.len()
        invariant
            workspace.wf(),
            i <= ids@.len(),
            want == texts_of(ids@).map_values(|id: Seq<char>| node_line(*workspace, id)),
            texts_of(out@) == want.subrange(0, i as int),
        decreases ids@.len() - i,
    {
        let id = &ids[i];
        let line = match find_key(&workspace.nodes, id.as_str()) {
            Some(ni) => label_line(&workspace.nodes[ni].1.name, &workspace.nodes[ni].1.id),
            None => id.clone(),
        };
        let ghost before = texts_of(out@);
        let ghost lv = line@;
        assert(lv == want[i as int]);
        out.push(line);
        i = i + 1;
        assert(texts_of(out@) =~= before.push(lv));
        assert(texts_of(out@) =~= want.subrange(0, i as int));
    }
    assert(want.subrange(0, ids@.len() as int) =~= want);
    out
}

/// The lines listing the given zone ids.
pub fn zone_membership_lines(workspace: &WorkspaceJson, zone_ids: &[String]) -> (r: Vec<String>)
    requires
        workspace.wf(),
    ensures
        texts_of(r@) == texts_of(zone_ids@).map_values(|id: Seq<char>| zone_line(*workspace, id)),
{
    let ghost want = texts_of(zone_ids@).map_values(|id: Seq<char>| zone_line(*workspace, id));
    let mut out: Vec<String> = Vec::new();
    let mut i: usize = 0;
    while i < zone_ids.len()
        invariant
            workspace.wf(),
            i <= zone_ids@.len(),
            want == texts_of(zone_ids@).map_values(|id: Seq<char>| zone_line(*workspace, id)),
            texts_of(out@) == want.subrange(0, i as int),
        decreases zone_ids@.len() - i,
    {
        let id = &zone_ids[i];
        let line = match find_key(&workspace.zones, id.as_str()) {
            Some(k) => label_line(&workspace.zones[k].1.name, &workspace.zones[k].1.id),
            None => id.clone(),
        };
        let ghost before = texts_of(out@);
        let ghost lv = line@;
        assert(lv == want[i as int]);
        out.push(line);
        i = i + 1;
        assert(texts_of(out@) =~= before.push(lv));
        assert(texts_of(out@) =~= want.subrange(0, i as int));
    }
    assert(want.subrange(0, zone_ids@.len() as int) =~= want);
    out
}

/// The id a (trimmed, non-blank) association line names: the text inside
/// the last parentheses when the line ends with `)` and they are not
/// empty, otherwise the whole line; trimmed.
pub open spec fn assoc_id(l: Seq<char>) -> Seq<char> {
    let o = last_index(l, '(');
    let inner = if o >= 0 && ends_with(l, ")"@) && o + 1 < l.len() - 1 {
        trim(l.subrange(o + 1, l.len() - 1))
    } else {
        l
    };
    trim(inner)
}

/// The ids named by a list of association lines, first occurrence kept,
/// blank lines and empty ids skipped.
pub open spec fn assoc_ids(lines: Seq<Seq<char>>) -> Seq<Seq<char>>
    decreases lines.len(),
{
    if lines.len() == 0 {
        Seq::empty()
    } else {
        let ids = assoc_ids(lines.subrange(0, lines.len() - 1));
        let l = trim(lines[lines.len() - 1]);
        let id = assoc_id(l);
        if l.len() == 0 || id.len() == 0 || ids.contains(id) {
            ids
        } else {
            ids.push(id)
        }
    }
}

/// The line under a zone's name in the zone tree: its role (`root` for the
/// root zone, otherwise its type) and how many points its polygon has.
pub open spec fn zone_row_text(ws: WorkspaceJson, z: crate::workspace::ZoneJson) -> Seq<char> {
    let role = if z.id@ == ws.root_zone_id@ {
        "root"@
    } else {
        z.zone_type@
    };
    role + " · "@ + crate::text::decimal(z.polygon_latlon@.len()) + " pts"@
}

pub fn zone_row_meta(workspace: &WorkspaceJson, zone: &crate::workspace::ZoneJson) -> (r: String)
    ensures
        r@ == zone_row_text(*workspace, *zone),
{
    let mut out = if text_eq(zone.id.as_str(), workspace.root_zone_id.as_str()) {
        String::from_str("root")
    } else {
        zone.zone_type.clone()
    };
    out.append(" · ");
    crate::text::append_decimal(&mut out, zone.polygon_latlon.len() as u64);
    out.append(" pts");
    out
}

/// An id that association text carries unchanged: not blank, trimmed,
/// without `(` or line breaks.
pub open spec fn clean_id(id: Seq<char>) -> bool {
    &&& id.len() > 0
    &&& trim(id) == id
    &&& !id.contains('(')
    &&& !id.contains('\n')
}

/// The label `name (id)` reads back as `id`.
proof fn lemma_label_reads_back(name: Seq<char>, id: Seq<char>)
    requires
        clean_id(id),
    ensures
        trim(labelled(name, id)).len() > 0,
        assoc_id(trim(labelled(name, id))) == id,
{
    reveal_strlit(" (");
    reveal_strlit(")");
    let l = labelled(name, id);
    let n = name.len() as int;
    assert(l.len() == n + 3 + id.len());
    assert(l[n + 1] == '(');
    assert(l[l.len() - 1] == ')');
    let u = crate::text::strip_lead(l, crate::text::ws_pred());
    crate::text::lemma_strip_lead(l, crate::text::ws_pred());
    let a = l.len() - u.len();
    assert(!crate::text::is_ws('('));
    assert(!crate::text::is_ws(')'));
    assert(a <= n + 1) by {
        if a > n + 1 {
            assert(crate::text::ws_pred()(l[n + 1]));
        }
    }
    assert(u.len() > 0 && u[u.len() - 1] == ')');
    assert(trim(l) == u);
    let t = u;
    let o = n + 1 - a;
    assert(t[o] == '(');
    crate::text::lemma_last_index_bounds(t, '(');
    assert forall|j: int| o < j < t.len() implies t[j] != '(' by {
        if j < t.len() - 1 {
            assert(t[j] == id[j - o - 1]);
            if id[j - o - 1] == '(' {
                assert(id.contains('('));
            }
        }
    }
    assert(last_index(t, '(') == o);
    assert(ends_with(t, ")"@)) by {
        assert(t.subrange(t.len() - 1, t.len() as int) =~= ")"@);
    }
    assert(t.subrange(o + 1, t.len() - 1) =~= id);
}

/// A bare id reads back as itself.
proof fn lemma_bare_id_reads_back(id: Seq<char>)
    requires
        clean_id(id),
    ensures
        trim(id).len() > 0,
        assoc_id(trim(id)) == id,
{
    crate::text::lemma_last_index_bounds(id, '(');
    if last_index(id, '(') >= 0 {
        assert(id.contains('('));
    }
}

/// Lines that each name a different id read back as those ids.
proof fn lemma_lines_read_back(lines: Seq<Seq<char>>, ids: Seq<Seq<char>>)
    requires
        lines.len() == ids.len(),
        forall|i: int| 0 <= i < lines.len() ==> trim(#[trigger] lines[i]).len() > 0 && assoc_id(trim(lines[i])) == ids[i],
        forall|i: int| 0 <= i < ids.len() ==> (#[trigger] ids[i]).len() > 0,
        forall|i: int, j: int| 0 <= i < j < ids.len() ==> #[trigger] ids[i] != #[trigger] ids[j],
    ensures
        assoc_ids(lines) == ids,
    decreases lines.len(),
{
    if lines.len() > 0 {
        let k = lines.len() - 1;
        let li = lines.subrange(0, k);
        let ii = ids.subrange(0, k);
        assert forall|i: int| 0 <= i < li.len() implies trim(#[trigger] li[i]).len() > 0 && assoc_id(trim(li[i])) == ii[i] by {
            assert(li[i] == lines[i] && ii[i] == ids[i]);
        }
        assert forall|i: int, j: int| 0 <= i < j < ii.len() implies #[trigger] ii[i] != #[trigger] ii[j] by {
            assert(ii[i] == ids[i] && ii[j] == ids[j]);
        }
        lemma_lines_read_back(li, ii);
        assert(!ii.contains(ids[k])) by {
            if ii.contains(ids[k]) {
                let w = choose|w: int| 0 <= w < ii.len() && #[trigger] ii[w] == ids[k];
                assert(ids[w] == ids[k]);
            }
        }
        assert(ii.push(ids[k]) =~= ids);
    } else {
        assert(ids =~= Seq::<Seq<char>>::empty());
    }
}

/// The association text of a list of zone ids reads back as the same
/// list, when the ids are clean and each listed once, and every stored zone
/// so listed carries its own id and a name without line breaks. (An id
/// holding `(`, such as `a(b`, reads back otherwise.)
pub proof fn lemma_membership_lines_round_trip(ws: WorkspaceJson, ids: Seq<Seq<char>>)
    requires
        forall|i: int| 0 <= i < ids.len() ==> clean_id(#[trigger] ids[i]),
        forall|i: int, j: int| 0 <= i < j < ids.len() ==> #[trigger] ids[i] != #[trigger] ids[j],
        forall|i: int|
            0 <= i < ids.len() ==> ((#[trigger] lookup(ws.zones@, ids[i])) matches Some(z) ==> z.id@
                == ids[i] && !z.name@.contains('\n')),
    ensures
        assoc_ids(raw_lines(join(ids.map_values(|id: Seq<char>| zone_line(ws, id)), "\n"@))) == ids,
{
    reveal_strlit("\n");
    reveal_strlit(" (");
    reveal_strlit(")");
    assert("\n"@ =~= seq!['\n']);
    let lines = ids.map_values(|id: Seq<char>| zone_line(ws, id));
    assert forall|i: int| 0 <= i < lines.len() implies trim(#[trigger] lines[i]).len() > 0 && assoc_id(
        trim(lines[i]),
    ) == ids[i] && !lines[i].contains('\n') && lines[i].len() > 0 by {
        let id = ids[i];
        assert(lines[i] == zone_line(ws, id));
        match lookup(ws.zones@, id) {
            Some(z) => {
                lemma_label_reads_back(z.name@, id);
                let l = labelled(z.name@, id);
                assert(lines[i] == l);
                if l.contains('\n') {
                    let w = choose|w: int| 0 <= w < l.len() && #[trigger] l[w] == '\n';
                    if w < z.name@.len() {
                        assert(z.name@[w] == '\n');
                    } else if w >= z.name@.len() + 2 && w < l.len() - 1 {
                        assert(id[w - z.name@.len() - 2] == '\n');
                        assert(id.contains('\n'));
                    }
                }
            },
            None => {
                lemma_bare_id_reads_back(id);
            },
        }
    }
    lemma_lines_read_back(lines, ids);
    if ids.len() == 0 {
        assert(join(lines, "\n"@) =~= Seq::<char>::empty());
        assert(raw_lines(join(lines, "\n"@)) =~= Seq::<Seq<char>>::empty());
    } else {
        crate::text::lemma_split_join(lines, '\n');
    }
}

pub fn texts_contain(v: &Vec<String>, t: &str) -> (r: bool)
    ensures
        r == texts_of(v@).contains(t@),
{
    let mut i: usize = 0;
    while i < v.len()
        invariant
            i <= v@.len(),
            forall|m: int| 0 <= m < i ==> (#[trigger] v@[m])@ != t@,
        decreases v@.len() - i,
    {
        if text_eq(v[i].as_str(), t) {
            assert(texts_of(v@)[i as int] == t@);
            return true;
        }
        i = i + 1;
    }
    assert(!texts_of(v@).contains(t@)) by {
        if texts_of(v@).contains(t@) {
            let m = choose|m: int| 0 <= m < v@.len() && texts_of(v@)[m] == t@;
            assert(v@[m]@ == t@);
        }
    }
    false
}

/// Reads association lines (`name (id)` or a bare id per line) back into
/// ids, each once, in order of first mention.
pub fn parse_association_lines(text: &str) -> (r: Vec<String>)
    ensures
        texts_of(r@) == assoc_ids(raw_lines(text@)),
{
    let cs = chars_of(text);
    let ranges = line_ranges(&cs);
    let ghost lines = raw_lines(text@);
    let mut ids: Vec<String> = Vec::new();
    let mut i: usize = 0;
    assert(lines.subrange(0, 0) =~= Seq::<Seq<char>>::empty());
    assert(texts_of(ids@) =~= Seq::<Seq<char>>::empty());
    let close = vec_of_close();
    while i < ranges.len()
        invariant
            cs@ == text@,
            close@ == ")"@,
            lines == raw_lines(text@),
            ranges@.len() == lines.len(),
            forall|k: int|
                0 <= k < ranges@.len() ==> (#[trigger] ranges@[k]).0 <= ranges@[k].1 <= cs@.len()
                    && cs@.subrange(ranges@[k].0 as int, ranges@[k].1 as int) == lines[k],
            i <= ranges@.len(),
            texts_of(ids@) == assoc_ids(lines.subrange(0, i as int)),
        decreases ranges@.len() - i,
    {
        let (a, b) = ranges[i];
        let (x, y) = trim_range(&cs, a, b);
        let ghost l = trim(lines[i as int]);
        proof {
            assert(l == cs@.subrange(x as int, y as int));
            let t = lines.subrange(0, i + 1);
            assert(t.subrange(0, t.len() - 1) =~= lines.subrange(0, i as int));
            assert(t[t.len() - 1] == lines[i as int]);
            crate::text::lemma_last_index_bounds(l, '(');
        }
        if x < y {
            let (p, q) = match rfind_char(&cs, x, y, '(') {
                Some(o) => {
                    if crate::zenoh_api::range_ends_with(&cs, x, y, &close) && o + 1 < y - 1 {
                        assert(l.subrange(o - x + 1, l.len() - 1) =~= cs@.subrange(
                            o + 1,
                            y - 1,
                        ));
                        let (p, q) = trim_range(&cs, o + 1, y - 1);
                        (p, q)
                    } else {
                        (x, y)
                    }
                },
                None => (x, y),
            };
            let (u, w) = trim_range(&cs, p, q);
            proof {
                assert(cs@.subrange(u as int, w as int) == assoc_id(l));
            }
            if u < w {
                let id = substring(text, u, w);
                if !texts_contain(&ids, id.as_str()) {
                    let ghost before = texts_of(ids@);
                    ids.push(id);
                    assert(texts_of(ids@) =~= before.push(assoc_id(l)));
                }
            }
        }
        i = i + 1;
    }
    assert(lines.subrange(0, ranges@.len() as int) =~= lines);
    ids
}

fn vec_of_close() -> (r: Vec<char>)
    ensures
        r@ == ")"@,
{
    chars_of(")")
}

} // verus!
