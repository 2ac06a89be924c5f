//! Text-keyed tables kept as vectors of `(key, value)` pairs in strictly
//! increasing key order: the same contents, and the same iteration order,
//! as a `BTreeMap<String, V>`.
use vstd::prelude::*;
use crate::order::{lemma_text_lt_asymmetric, lemma_text_lt_irreflexive, lemma_text_lt_total, lemma_text_lt_transitive, text_less, text_lt};
use crate::text::{chars_of, text_eq};

verus! {

/// The keys are in strictly increasing order (so each occurs once).
pub open spec fn keys_sorted<V>(s: Seq<(String, V)>) -> bool {
    forall|i: int, j: int| 0 <= i < j < s.len() ==> text_lt(#[trigger] s[i].0@, #[trigger] s[j].0@)
}

pub open spec fn has_key<V>(s: Seq<(String, V)>, k: Seq<char>) -> bool {
    exists|i: int| 0 <= i < s.len() && (#[trigger] s[i]).0@ == k
}

/// The position of key `k` (meaningful when `has_key`).
pub open spec fn key_pos<V>(s: Seq<(String, V)>, k: Seq<char>) -> int {
    choose|i: int| 0 <= i < s.len() && (#[trigger] s[i]).0@ == k
}

/// The value stored under `k`, if any (`BTreeMap::get`).
pub open spec fn lookup<V>(s: Seq<(String, V)>, k: Seq<char>) -> Option<V> {
    if has_key(s, k) {
        Some(s[key_pos(s, k)].1)
    } else {
        None
    }
}

/// The keys, in order.
pub open spec fn keys_of<V>(s: Seq<(String, V)>) -> Seq<Seq<char>> {
    s.map_values(|p: (String, V)| p.0@)
}

/// The contents as a map from key text to value.
pub open spec fn as_map<V>(s: Seq<(String, V)>) -> Map<Seq<char>, V> {
    Map::new(|k: Seq<char>| has_key(s, k), |k: Seq<char>| s[key_pos(s, k)].1)
}

pub proof fn lemma_sorted_unique<V>(s: Seq<(String, V)>, i: int, j: int)
    requires
        keys_sorted(s),
        0 <= i < s.len(),
        0 <= j < s.len(),
        s[i].0@ == s[j].0@,
    ensures
        i == j,
{
    if i < j {
        lemma_text_lt_irreflexive(s[i].0@);
    } else if j < i {
        lemma_text_lt_irreflexive(s[i].0@);
    }
}

/// A sorted table without its last entry holds every key but the last.
proof fn lemma_has_key_drop_last<V>(s: Seq<(String, V)>, k: Seq<char>)
    requires
        keys_sorted(s),
        s.len() > 0,
    ensures
        has_key(s.drop_last(), k) == (has_key(s, k) && k != s[s.len() - 1].0@),
{
    let t = s.drop_last();
    let n = s.len() - 1;
    if has_key(t, k) {
        let j = choose|j: int| 0 <= j < t.len() && (#[trigger] t[j]).0@ == k;
        assert(s[j] == t[j]);
        assert(has_key(s, k));
        assert(text_lt(s[j].0@, s[n].0@));
        lemma_text_lt_irreflexive(k);
    }
    if has_key(s, k) && k != s[n].0@ {
        let j = choose|j: int| 0 <= j < s.len() && (#[trigger] s[j]).0@ == k;
        assert(j != n);
        assert(t[j] == s[j]);
    }
}

/// Two sorted tables with the same keys hold them at the same positions.
pub proof fn lemma_sorted_same_keys<V, W>(s1: Seq<(String, V)>, s2: Seq<(String, W)>)
    requires
        keys_sorted(s1),
        keys_sorted(s2),
        forall|k: Seq<char>| has_key(s1, k) == has_key(s2, k),
    ensures
        s1.len() == s2.len(),
        forall|i: int| 0 <= i < s1.len() ==> (#[trigger] s1[i]).0@ == s2[i].0@,
    decreases s1.len() + s2.len(),
{
    if s1.len() == 0 {
        if s2.len() > 0 {
            assert(has_key(s2, s2[0].0@));
        }
    } else if s2.len() == 0 {
        assert(has_key(s1, s1[0].0@));
    } else {
        let n1 = s1.len() - 1;
        let n2 = s2.len() - 1;
        let k1 = s1[n1].0@;
        let k2 = s2[n2].0@;
        assert(has_key(s1, k1));
        assert(has_key(s2, k2));
        assert(has_key(s2, k1));
        assert(has_key(s1, k2));
        if k1 != k2 {
            let j2 = choose|j: int| 0 <= j < s2.len() && (#[trigger] s2[j]).0@ == k1;
            let j1 = choose|j: int| 0 <= j < s1.len() && (#[trigger] s1[j]).0@ == k2;
            assert(text_lt(s2[j2].0@, s2[n2].0@));
            assert(text_lt(s1[j1].0@, s1[n1].0@));
            lemma_text_lt_asymmetric(k1, k2);
        }
        let t1 = s1.drop_last();
        let t2 = s2.drop_last();
        assert(keys_sorted(t1)) by {
            assert forall|i: int, j: int| 0 <= i < j < t1.len() implies text_lt(
                #[trigger] t1[i].0@,
                #[trigger] t1[j].0@,
            ) by {
                assert(t1[i] == s1[i] && t1[j] == s1[j]);
            }
        }
        assert(keys_sorted(t2)) by {
            assert forall|i: int, j: int| 0 <= i < j < t2.len() implies text_lt(
                #[trigger] t2[i].0@,
                #[trigger] t2[j].0@,
            ) by {
                assert(t2[i] == s2[i] && t2[j] == s2[j]);
            }
        }
        assert forall|k: Seq<char>| has_key(t1, k) == has_key(t2, k) by {
            lemma_has_key_drop_last(s1, k);
            lemma_has_key_drop_last(s2, k);
        }
        lemma_sorted_same_keys(t1, t2);
        assert forall|i: int| 0 <= i < s1.len() implies (#[trigger] s1[i]).0@ == s2[i].0@ by {
            if i < n1 {
                assert(s1[i] == t1[i]);
                assert(s2[i] == t2[i]);
            }
        }
    }
}

/// In a sorted table the key at position `i` is found at `i`.
pub proof fn lemma_lookup_at<V>(s: Seq<(String, V)>, i: int)
    requires
        keys_sorted(s),
        0 <= i < s.len(),
    ensures
        has_key(s, s[i].0@),
        key_pos(s, s[i].0@) == i,
        lookup(s, s[i].0@) == Some(s[i].1),
{
    assert(has_key(s, s[i].0@));
    let p = key_pos(s, s[i].0@);
    lemma_sorted_unique(s, i, p);
}

/// The position of `key`, if the table holds it.
pub fn find_key<V>(s: &Vec<(String, V)>, key: &str) -> (r: Option<usize>)
    requires
        keys_sorted(s@),
    ensures
        match r {
            Some(i) => i < s@.len() && s@[i as int].0@ == key@ && key_pos(s@, key@) == i
                && has_key(s@, key@),
            None => !has_key(s@, key@),
        },
        lookup(s@, key@) == (match r {
            Some(i) => Some(s@[i as int].1),
            None => None,
        }),
{
    let mut i: usize = 0;
    while i < s.len()
        invariant
            keys_sorted(s@),
            i <= s@.len(),
            forall|m: int| 0 <= m < i ==> (#[trigger] s@[m]).0@ != key@,
        decreases s@.len() - i,
    {
        if text_eq(s[i].0.as_str(), key) {
            proof {
                lemma_lookup_at(s@, i as int);
            }
            return Some(i);
        }
        i = i + 1;
    }
    None
}

/// The first position whose key is not below `key`.
fn lower_bound<V>(s: &Vec<(String, V)>, key: &Vec<char>) -> (r: usize)
    requires
        keys_sorted(s@),
    ensures
        r <= s@.len(),
        forall|m: int| 0 <= m < r ==> text_lt((#[trigger] s@[m]).0@, key@),
        r < s@.len() ==> !text_lt(s@[r as int].0@, key@),
{
    let mut i: usize = 0;
    while i < s.len()
        invariant
            keys_sorted(s@),
            i <= s@.len(),
            forall|m: int| 0 <= m < i ==> text_lt((#[trigger] s@[m]).0@, key@),
        decreases s@.len() - i,
    {
        let k = chars_of(s[i].0.as_str());
        if !text_less(&k, key) {
            return i;
        }
        i = i + 1;
    }
    i
}

/// Stores `v` under `key`, replacing what was there (`BTreeMap::insert`).
pub fn insert_key<V>(s: &mut Vec<(String, V)>, key: String, v: V)
    requires
        keys_sorted(old(s)@),
    ensures
        keys_sorted(final(s)@),
        as_map(final(s)@) == as_map(old(s)@).insert(key@, v),
        has_key(old(s)@, key@) ==> final(s)@.len() == old(s)@.len(),
        !has_key(old(s)@, key@) ==> final(s)@.len() == old(s)@.len() + 1,
{
    let kc = chars_of(key.as_str());
    let p = lower_bound(s, &kc);
    let ghost old_s = s@;
    let exists = p < s.len() && text_eq(s[p].0.as_str(), key.as_str());
    if exists {
        s.set(p, (key, v));
        proof {
            assert forall|i: int, j: int| 0 <= i < j < s@.len() implies text_lt(
                #[trigger] s@[i].0@,
                #[trigger] s@[j].0@,
            ) by {
                assert(old_s[i].0@ == s@[i].0@);
                assert(old_s[j].0@ == s@[j].0@);
            }
            lemma_map_after_set(old_s, s@, p as int, key@, v);
        }
    } else {
        s.insert(p, (key, v));
        proof {
            let ns = s@;
            assert forall|m: int| 0 <= m < old_s.len() && old_s[m].0@ == key@ implies false by {
                if m < p {
                    lemma_text_lt_irreflexive(key@);
                } else {
                    if m > p {
                        lemma_text_lt_transitive(old_s[p as int].0@, old_s[m].0@, old_s[m].0@);
                        lemma_text_lt_total(old_s[p as int].0@, key@);
                        lemma_text_lt_asymmetric(old_s[p as int].0@, key@);
                    }
                }
            }
            assert forall|i: int, j: int| 0 <= i < j < ns.len() implies text_lt(
                #[trigger] ns[i].0@,
                #[trigger] ns[j].0@,
            ) by {
                if j < p {
                    assert(ns[i] == old_s[i] && ns[j] == old_s[j]);
                } else if j == p {
                    assert(ns[i] == old_s[i]);
                } else if i < p {
                    assert(ns[i] == old_s[i] && ns[j] == old_s[j - 1]);
                    assert(text_lt(old_s[i].0@, key@));
                    if p < old_s.len() {
                        lemma_text_lt_total(old_s[p as int].0@, key@);
                        lemma_text_lt_asymmetric(old_s[p as int].0@, key@);
                        if j - 1 > p {
                            lemma_text_lt_transitive(key@, old_s[p as int].0@, old_s[j - 1].0@);
                        }
                        lemma_text_lt_transitive(old_s[i].0@, key@, old_s[j - 1].0@);
                    }
                } else if i == p {
                    assert(ns[j] == old_s[j - 1]);
                    lemma_text_lt_total(old_s[p as int].0@, key@);
                    lemma_text_lt_asymmetric(old_s[p as int].0@, key@);
                    if j - 1 > p {
                        lemma_text_lt_transitive(key@, old_s[p as int].0@, old_s[j - 1].0@);
                    }
                } else {
                    assert(ns[i] == old_s[i - 1] && ns[j] == old_s[j - 1]);
                }
            }
            lemma_map_after_insert(old_s, ns, p as int, key@, v);
        }
    }
}

proof fn lemma_map_after_set<V>(
    old_s: Seq<(String, V)>,
    ns: Seq<(String, V)>,
    p: int,
    k: Seq<char>,
    v: V,
)
    requires
        keys_sorted(old_s),
        keys_sorted(ns),
        0 <= p < old_s.len(),
        ns.len() == old_s.len(),
        old_s[p].0@ == k,
        ns[p].0@ == k,
        ns[p].1 == v,
        forall|i: int| 0 <= i < ns.len() && i != p ==> ns[i] == old_s[i],
    ensures
        as_map(ns) == as_map(old_s).insert(k, v),
        has_key(old_s, k),
{
    assert(has_key(old_s, k));
    assert forall|q: Seq<char>| #[trigger] as_map(ns).contains_key(q) <==> as_map(
        old_s,
    ).insert(k, v).contains_key(q) by {
        if has_key(ns, q) {
            let i = key_pos(ns, q);
            if i != p {
                assert(old_s[i].0@ == q);
            }
        }
        if has_key(old_s, q) {
            let i = key_pos(old_s, q);
            if i != p {
                assert(ns[i].0@ == q);
            }
        }
    }
    assert forall|q: Seq<char>| #[trigger] as_map(ns).contains_key(q) implies as_map(ns)[q]
        == as_map(old_s).insert(k, v)[q] by {
        let i = key_pos(ns, q);
        lemma_lookup_at(ns, i);
        if i == p {
        } else {
            assert(old_s[i] == ns[i]);
            lemma_lookup_at(old_s, i);
            if q == k {
                lemma_sorted_unique(ns, i, p);
            }
        }
    }
    assert(as_map(ns) =~= as_map(old_s).insert(k, v));
}

proof fn lemma_map_after_insert<V>(
    old_s: Seq<(String, V)>,
    ns: Seq<(String, V)>,
    p: int,
    k: Seq<char>,
    v: V,
)
    requires
        keys_sorted(old_s),
        keys_sorted(ns),
        0 <= p <= old_s.len(),
        ns == old_s.insert(p, (ns[p].0, v)),
        ns[p].0@ == k,
    ensures
        as_map(ns) == as_map(old_s).insert(k, v),
        !has_key(old_s, k),
{
    assert(!has_key(old_s, k)) by {
        if has_key(old_s, k) {
            let i = key_pos(old_s, k);
            if i < p {
                assert(ns[i] == old_s[i]);
                lemma_sorted_unique(ns, i, p);
            } else {
                assert(ns[i + 1] == old_s[i]);
                lemma_sorted_unique(ns, i + 1, p);
            }
        }
    }
    assert forall|q: Seq<char>| #[trigger] as_map(ns).contains_key(q) <==> as_map(
        old_s,
    ).insert(k, v).contains_key(q) by {
        if has_key(ns, q) {
            let i = key_pos(ns, q);
            if i < p {
                assert(old_s[i] == ns[i]);
            } else if i > p {
                assert(old_s[i - 1] == ns[i]);
            }
        }
        if has_key(old_s, q) {
            let i = key_pos(old_s, q);
            if i < p {
                assert(ns[i] == old_s[i]);
            } else {
                assert(ns[i + 1] == old_s[i]);
            }
        }
    }
    assert forall|q: Seq<char>| #[trigger] as_map(ns).contains_key(q) implies as_map(ns)[q]
        == as_map(old_s).insert(k, v)[q] by {
        let i = key_pos(ns, q);
        lemma_lookup_at(ns, i);
        if i < p {
            assert(old_s[i] == ns[i]);
            lemma_lookup_at(old_s, i);
        } else if i > p {
            assert(old_s[i - 1] == ns[i]);
            lemma_lookup_at(old_s, i - 1);
        }
    }
    assert(as_map(ns) =~= as_map(old_s).insert(k, v));
}

/// Replaces the value at position `i`, keeping its key.
pub fn set_value_at<V>(s: &mut Vec<(String, V)>, i: usize, v: V)
    requires
        keys_sorted(old(s)@),
        i < old(s)@.len(),
    ensures
        keys_sorted(final(s)@),
        final(s)@ == old(s)@.update(i as int, (old(s)@[i as int].0, v)),
        as_map(final(s)@) == as_map(old(s)@).insert(old(s)@[i as int].0@, v),
{
    let k = s[i].0.clone();
    let ghost old_s = s@;
    s.set(i, (k, v));
    proof {
        assert(s@ =~= old_s.update(i as int, (old_s[i as int].0, v)));
        assert forall|a: int, b: int| 0 <= a < b < s@.len() implies text_lt(
            #[trigger] s@[a].0@,
            #[trigger] s@[b].0@,
        ) by {
            assert(old_s[a].0@ == s@[a].0@);
            assert(old_s[b].0@ == s@[b].0@);
        }
        lemma_map_after_set(old_s, s@, i as int, old_s[i as int].0@, v);
    }
}

/// Takes `key` out of the table (`BTreeMap::remove`).
pub fn remove_key<V>(s: &mut Vec<(String, V)>, key: &str) -> (r: Option<V>)
    requires
        keys_sorted(old(s)@),
    ensures
        keys_sorted(final(s)@),
        as_map(final(s)@) == as_map(old(s)@).remove(key@),
        r == lookup(old(s)@, key@),
        match r {
            Some(_) => final(s)@ == old(s)@.remove(key_pos(old(s)@, key@)),
            None => final(s)@ == old(s)@,
        },
{
    match find_key(s, key) {
        None => {
            assert(as_map(s@) =~= as_map(s@).remove(key@));
            None
        },
        Some(i) => {
            let ghost old_s = s@;
            let (_, v) = s.remove(i);
            proof {
                let ns = s@;
                assert forall|a: int, b: int| 0 <= a < b < ns.len() implies text_lt(
                    #[trigger] ns[a].0@,
                    #[trigger] ns[b].0@,
                ) by {
                    let oa = if a < i { a } else { a + 1 };
                    let ob = if b < i { b } else { b + 1 };
                    assert(ns[a] == old_s[oa]);
                    assert(ns[b] == old_s[ob]);
                }
                assert forall|q: Seq<char>| #[trigger] as_map(ns).contains_key(q) <==> as_map(
                    old_s,
                ).remove(key@).contains_key(q) by {
                    if has_key(ns, q) {
                        let j = key_pos(ns, q);
                        let oj = if j < i { j } else { j + 1 };
                        assert(old_s[oj] == ns[j]);
                        if q == key@ {
                            lemma_sorted_unique(old_s, oj, i as int);
                        }
                    }
                    if has_key(old_s, q) && q != key@ {
                        let j = key_pos(old_s, q);
                        if j < i {
                            assert(ns[j] == old_s[j]);
                        } else {
                            assert(j != i);
                            assert(ns[j - 1] == old_s[j]);
                        }
                    }
                }
                assert forall|q: Seq<char>| #[trigger] as_map(ns).contains_key(q) implies as_map(
                    ns,
                )[q] == as_map(old_s).remove(key@)[q] by {
                    let j = key_pos(ns, q);
                    let oj = if j < i { j } else { j + 1 };
                    assert(old_s[oj] == ns[j]);
                    lemma_lookup_at(ns, j);
                    lemma_lookup_at(old_s, oj);
                }
                assert(as_map(ns) =~= as_map(old_s).remove(key@));
            }
            Some(v)
        },
    }
}

/// Whether the keys are in strictly increasing order.
pub fn keys_in_order<V>(s: &Vec<(String, V)>) -> (r: bool)
    ensures
        r == keys_sorted(s@),
{
    let mut i: usize = 1;
    if s.len() == 0 {
        return true;
    }
    while i < s.len()
        invariant
            1 <= i <= s@.len(),
            forall|a: int, b: int| 0 <= a < b < i ==> text_lt(#[trigger] s@[a].0@, #[trigger] s@[b].0@),
        decreases s@.len() - i,
    {
        let prev = chars_of(s[i - 1].0.as_str());
        let cur = chars_of(s[i].0.as_str());
        if !text_less(&prev, &cur) {
            return false;
        }
        proof {
            assert forall|a: int, b: int| 0 <= a < b < i + 1 implies text_lt(
                #[trigger] s@[a].0@,
                #[trigger] s@[b].0@,
            ) by {
                if b == i && a < i - 1 {
                    lemma_text_lt_transitive(s@[a].0@, s@[i - 1].0@, s@[i as int].0@);
                }
            }
        }
        i = i + 1;
    }
    true
}

} // verus!
