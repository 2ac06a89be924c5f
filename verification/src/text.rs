//! Character-level text handling: trimming, splitting, searching and
//! joining, stated over `Seq<char>` and carried out on `Vec<char>`.
use vstd::prelude::*;

verus! {

/// Unicode `White_Space`: the characters that `char::is_whitespace` accepts.
pub open spec fn is_ws(c: char) -> bool {
    let u = c as u32;
    ||| 0x9 <= u <= 0xd
    ||| u == 0x20
    ||| u == 0x85
    ||| u == 0xa0
    ||| u == 0x1680
    ||| 0x2000 <= u <= 0x200a
    ||| u == 0x2028
    ||| u == 0x2029
    ||| u == 0x202f
    ||| u == 0x205f
    ||| u == 0x3000
}

/// `s` without the leading characters that satisfy `p`.
pub open spec fn strip_lead(s: Seq<char>, p: spec_fn(char) -> bool) -> Seq<char>
    decreases s.len(),
{
    if s.len() > 0 && p(s[0]) {
        strip_lead(s.subrange(1, s.len() as int), p)
    } else {
        s
    }
}

/// `s` without the trailing characters that satisfy `p`.
pub open spec fn strip_trail(s: Seq<char>, p: spec_fn(char) -> bool) -> Seq<char>
    decreases s.len(),
{
    if s.len() > 0 && p(s[s.len() - 1]) {
        strip_trail(s.subrange(0, s.len() - 1), p)
    } else {
        s
    }
}

pub open spec fn ws_pred() -> spec_fn(char) -> bool {
    |c: char| is_ws(c)
}

pub open spec fn char_pred(x: char) -> spec_fn(char) -> bool {
    |c: char| c == x
}

/// `str::trim`: both ends stripped of white space.
pub open spec fn trim(s: Seq<char>) -> Seq<char> {
    strip_trail(strip_lead(s, ws_pred()), ws_pred())
}

/// `str::trim_matches(x)`: both ends stripped of the character `x`.
pub open spec fn trim_char(s: Seq<char>, x: char) -> Seq<char> {
    strip_trail(strip_lead(s, char_pred(x)), char_pred(x))
}

/// `str::split(sep)`: the pieces between the occurrences of `sep`
/// (always at least one piece).
pub open spec fn split_on(s: Seq<char>, sep: char) -> Seq<Seq<char>>
    decreases s.len(),
{
    if s.len() == 0 {
        seq![Seq::<char>::empty()]
    } else {
        let p = split_on(s.subrange(0, s.len() - 1), sep);
        if s[s.len() - 1] == sep {
            p.push(Seq::<char>::empty())
        } else {
            p.update(p.len() - 1, p[p.len() - 1].push(s[s.len() - 1]))
        }
    }
}

/// The pieces joined back together with `sep` between them.
pub open spec fn join(pieces: Seq<Seq<char>>, sep: Seq<char>) -> Seq<char>
    decreases pieces.len(),
{
    if pieces.len() == 0 {
        Seq::<char>::empty()
    } else if pieces.len() == 1 {
        pieces[0]
    } else {
        join(pieces.subrange(0, pieces.len() - 1), sep) + sep + pieces[pieces.len() - 1]
    }
}

/// The lines of `s` as `str::lines` cuts them before a caller trims them:
/// the pieces between newlines, without a final empty piece.
pub open spec fn raw_lines(s: Seq<char>) -> Seq<Seq<char>> {
    let p = split_on(s, '\n');
    if p[p.len() - 1].len() == 0 {
        p.subrange(0, p.len() - 1)
    } else {
        p
    }
}

/// Whether `t` occurs in `s` at position `i`.
pub open spec fn occurs_at(s: Seq<char>, t: Seq<char>, i: int) -> bool {
    0 <= i && i + t.len() <= s.len() && s.subrange(i, i + t.len()) =~= t
}

/// The first position at or after `k` where `t` occurs in `s`.
pub open spec fn find_from(s: Seq<char>, t: Seq<char>, k: int) -> Option<int>
    decreases s.len() - k,
{
    if k < 0 || k + t.len() > s.len() {
        None
    } else if occurs_at(s, t, k) {
        Some(k)
    } else {
        find_from(s, t, k + 1)
    }
}

/// The first position where `t` occurs in `s` (`str::find`).
pub open spec fn find(s: Seq<char>, t: Seq<char>) -> Option<int> {
    find_from(s, t, 0)
}

/// `str::contains` with a text pattern.
pub open spec fn contains_text(s: Seq<char>, t: Seq<char>) -> bool {
    find(s, t) is Some
}

pub open spec fn starts_with(s: Seq<char>, t: Seq<char>) -> bool {
    t.len() <= s.len() && s.subrange(0, t.len() as int) =~= t
}

pub open spec fn ends_with(s: Seq<char>, t: Seq<char>) -> bool {
    t.len() <= s.len() && s.subrange(s.len() - t.len(), s.len() as int) =~= t
}

/// The last position of `c` in `s`, or -1 (`str::rfind` with a character).
pub open spec fn last_index(s: Seq<char>, c: char) -> int
    decreases s.len(),
{
    if s.len() == 0 {
        -1
    } else if s[s.len() - 1] == c {
        s.len() - 1
    } else {
        last_index(s.subrange(0, s.len() - 1), c)
    }
}

pub proof fn lemma_find_from_bounds(s: Seq<char>, t: Seq<char>, k: int)
    requires
        k >= 0,
    ensures
        find_from(s, t, k) matches Some(i) ==> k <= i && occurs_at(s, t, i),
        find_from(s, t, k) is None ==> forall|j: int| k <= j ==> !occurs_at(s, t, j),
        find_from(s, t, k) matches Some(i) ==> forall|j: int| k <= j < i ==> !occurs_at(s, t, j),
    decreases s.len() - k,
{
    if k + t.len() > s.len() {
    } else if occurs_at(s, t, k) {
    } else {
        lemma_find_from_bounds(s, t, k + 1);
    }
}

pub proof fn lemma_last_index_bounds(s: Seq<char>, c: char)
    ensures
        -1 <= last_index(s, c) < s.len(),
        last_index(s, c) >= 0 ==> s[last_index(s, c)] == c,
        forall|j: int| last_index(s, c) < j < s.len() ==> s[j] != c,
    decreases s.len(),
{
    if s.len() > 0 && s[s.len() - 1] != c {
        let p = s.subrange(0, s.len() - 1);
        lemma_last_index_bounds(p, c);
        assert forall|j: int| last_index(s, c) < j < s.len() implies s[j] != c by {
            if j < s.len() - 1 {
                assert(s[j] == p[j]);
            }
        }
    }
}

pub proof fn lemma_split_on_nonempty(s: Seq<char>, sep: char)
    ensures
        split_on(s, sep).len() >= 1,
    decreases s.len(),
{
    if s.len() > 0 {
        lemma_split_on_nonempty(s.subrange(0, s.len() - 1), sep);
    }
}

/// The last piece of a split is what follows the last separator.
pub proof fn lemma_split_on_last(s: Seq<char>, sep: char)
    ensures
        split_on(s, sep).len() >= 1,
        split_on(s, sep)[split_on(s, sep).len() - 1] == s.subrange(
            last_index(s, sep) + 1,
            s.len() as int,
        ),
    decreases s.len(),
{
    lemma_split_on_nonempty(s, sep);
    lemma_last_index_bounds(s, sep);
    if s.len() == 0 {
        assert(s.subrange(0, 0) =~= Seq::<char>::empty());
    } else {
        let p = s.subrange(0, s.len() - 1);
        lemma_split_on_last(p, sep);
        lemma_split_on_nonempty(p, sep);
        if s[s.len() - 1] == sep {
            assert(s.subrange(s.len() as int, s.len() as int) =~= Seq::<char>::empty());
        } else {
            lemma_last_index_bounds(p, sep);
            assert(s.subrange(last_index(s, sep) + 1, s.len() as int) =~= p.subrange(
                last_index(p, sep) + 1,
                p.len() as int,
            ).push(s[s.len() - 1]));
        }
    }
}

/// What `strip_lead` leaves: a suffix of `s` that does not start with a
/// stripped character, all that was cut being stripped characters.
pub proof fn lemma_strip_lead(s: Seq<char>, p: spec_fn(char) -> bool)
    ensures
        strip_lead(s, p).len() <= s.len(),
        strip_lead(s, p) == s.subrange(s.len() - strip_lead(s, p).len(), s.len() as int),
        strip_lead(s, p).len() > 0 ==> !p(strip_lead(s, p)[0]),
        forall|i: int| 0 <= i < s.len() - strip_lead(s, p).len() ==> p(#[trigger] s[i]),
    decreases s.len(),
{
    if s.len() > 0 && p(s[0]) {
        let t = s.subrange(1, s.len() as int);
        lemma_strip_lead(t, p);
        let r = strip_lead(t, p);
        assert(r == s.subrange(s.len() - r.len(), s.len() as int));
        assert forall|i: int| 0 <= i < s.len() - r.len() implies p(#[trigger] s[i]) by {
            if i > 0 {
                assert(s[i] == t[i - 1]);
            }
        }
    } else {
        assert(s.subrange(0, s.len() as int) =~= s);
    }
}

/// What `strip_trail` leaves: a prefix of `s` that does not end with a
/// stripped character, all that was cut being stripped characters.
pub proof fn lemma_strip_trail(s: Seq<char>, p: spec_fn(char) -> bool)
    ensures
        strip_trail(s, p).len() <= s.len(),
        strip_trail(s, p) == s.subrange(0, strip_trail(s, p).len() as int),
        strip_trail(s, p).len() > 0 ==> !p(strip_trail(s, p)[strip_trail(s, p).len() - 1]),
        forall|i: int| strip_trail(s, p).len() <= i < s.len() ==> p(#[trigger] s[i]),
    decreases s.len(),
{
    if s.len() > 0 && p(s[s.len() - 1]) {
        let t = s.subrange(0, s.len() - 1);
        lemma_strip_trail(t, p);
        let r = strip_trail(t, p);
        assert(r == s.subrange(0, r.len() as int));
        assert forall|i: int| r.len() <= i < s.len() implies p(#[trigger] s[i]) by {
            if i < s.len() - 1 {
                assert(s[i] == t[i]);
            }
        }
    } else {
        assert(s.subrange(0, s.len() as int) =~= s);
    }
}

/// Stripping the front of `a + b`, where `b` starts with a character that
/// is kept, strips only `a`.
pub proof fn lemma_strip_lead_append(a: Seq<char>, b: Seq<char>, p: spec_fn(char) -> bool)
    requires
        b.len() > 0,
        !p(b[0]),
    ensures
        strip_lead(a + b, p) == strip_lead(a, p) + b,
    decreases a.len(),
{
    if a.len() == 0 {
        assert(a + b =~= b);
        assert(strip_lead(a, p) + b =~= b);
    } else if p(a[0]) {
        let a1 = a.subrange(1, a.len() as int);
        lemma_strip_lead_append(a1, b, p);
        assert((a + b).subrange(1, (a + b).len() as int) =~= a1 + b);
    }
}

/// The last piece of a split holds no separator.
pub proof fn lemma_split_last_clean(s: Seq<char>, sep: char)
    ensures
        split_on(s, sep).len() >= 1,
        !split_on(s, sep)[split_on(s, sep).len() - 1].contains(sep),
{
    lemma_split_on_last(s, sep);
    lemma_last_index_bounds(s, sep);
    let piece = split_on(s, sep)[split_on(s, sep).len() - 1];
    let k = last_index(s, sep) + 1;
    if piece.contains(sep) {
        let w = choose|w: int| 0 <= w < piece.len() && #[trigger] piece[w] == sep;
        assert(s[k + w] == sep);
    }
}

/// A text that neither starts nor ends with white space is its own trim.
pub proof fn lemma_trim_clean(s: Seq<char>)
    requires
        s.len() > 0 ==> !is_ws(s[0]) && !is_ws(s[s.len() - 1]),
    ensures
        trim(s) == s,
{
}

/// What `trim` leaves: a piece of `s` that neither starts nor ends with
/// white space.
pub proof fn lemma_trim_shape(s: Seq<char>)
    ensures
        trim(s).len() > 0 ==> !is_ws(trim(s)[0]) && !is_ws(trim(s)[trim(s).len() - 1]),
        ({
            let a = s.len() - strip_lead(s, ws_pred()).len();
            0 <= a && a + trim(s).len() <= s.len() && trim(s) == s.subrange(a, a + trim(s).len())
        }),
{
    let u = strip_lead(s, ws_pred());
    lemma_strip_lead(s, ws_pred());
    lemma_strip_trail(u, ws_pred());
    let t = trim(s);
    let a = s.len() - u.len();
    if t.len() > 0 {
        assert(t[0] == u[0]);
    }
    assert(t =~= s.subrange(a, a + t.len()));
}

/// Trimming twice is trimming once.
pub proof fn lemma_trim_idempotent(s: Seq<char>)
    ensures
        trim(trim(s)) == trim(s),
{
    lemma_trim_shape(s);
    lemma_trim_clean(trim(s));
}

/// A text without the separator splits into itself.
pub proof fn lemma_split_no_sep(b: Seq<char>, sep: char)
    requires
        !b.contains(sep),
    ensures
        split_on(b, sep) == seq![b],
    decreases b.len(),
{
    if b.len() > 0 {
        let init = b.subrange(0, b.len() - 1);
        assert(!init.contains(sep)) by {
            if init.contains(sep) {
                let w = choose|w: int| 0 <= w < init.len() && #[trigger] init[w] == sep;
                assert(b[w] == sep);
            }
        }
        lemma_split_no_sep(init, sep);
        assert(b[b.len() - 1] != sep);
        assert(init.push(b[b.len() - 1]) =~= b);
        assert(seq![init].update(0, init.push(b[b.len() - 1])) =~= seq![b]);
    } else {
        assert(b =~= Seq::<char>::empty());
    }
}

/// Splitting `a`, a separator and then `b` (which holds none) gives the
/// pieces of `a` followed by `b`.
pub proof fn lemma_split_after_sep(a: Seq<char>, b: Seq<char>, sep: char)
    requires
        !b.contains(sep),
    ensures
        split_on(a + seq![sep] + b, sep) == split_on(a, sep).push(b),
    decreases b.len(),
{
    lemma_split_on_nonempty(a, sep);
    let s = a + seq![sep] + b;
    if b.len() == 0 {
        assert(s.subrange(0, s.len() - 1) =~= a);
        assert(b =~= Seq::<char>::empty());
    } else {
        let init = b.subrange(0, b.len() - 1);
        assert(!init.contains(sep)) by {
            if init.contains(sep) {
                let w = choose|w: int| 0 <= w < init.len() && #[trigger] init[w] == sep;
                assert(b[w] == sep);
            }
        }
        lemma_split_after_sep(a, init, sep);
        assert(s.subrange(0, s.len() - 1) =~= a + seq![sep] + init);
        assert(s[s.len() - 1] == b[b.len() - 1]);
        assert(b[b.len() - 1] != sep);
        let p = split_on(a, sep).push(init);
        assert(init.push(b[b.len() - 1]) =~= b);
        assert(p[p.len() - 1] == init);
        assert(p.update(p.len() - 1, p[p.len() - 1].push(b[b.len() - 1])) =~= split_on(a, sep).push(b));
    }
}

/// Pieces without the separator, joined by it and split again, come back.
pub proof fn lemma_split_join(ps: Seq<Seq<char>>, sep: char)
    requires
        ps.len() > 0,
        forall|i: int| 0 <= i < ps.len() ==> !(#[trigger] ps[i]).contains(sep),
    ensures
        split_on(join(ps, seq![sep]), sep) == ps,
    decreases ps.len(),
{
    if ps.len() == 1 {
        lemma_split_no_sep(ps[0], sep);
        assert(seq![ps[0]] =~= ps);
    } else {
        let init = ps.subrange(0, ps.len() - 1);
        assert forall|i: int| 0 <= i < init.len() implies !(#[trigger] init[i]).contains(sep) by {
            assert(init[i] == ps[i]);
        }
        lemma_split_join(init, sep);
        assert(!ps[ps.len() - 1].contains(sep));
        lemma_split_after_sep(join(init, seq![sep]), ps[ps.len() - 1], sep);
        assert(init.push(ps[ps.len() - 1]) =~= ps);
    }
}

/// The first occurrence of `t` at or after `k` is at `i` when it occurs
/// there and nowhere in between.
pub proof fn lemma_find_first(s: Seq<char>, t: Seq<char>, k: int, i: int)
    requires
        0 <= k <= i,
        occurs_at(s, t, i),
        forall|j: int| k <= j < i ==> !occurs_at(s, t, j),
    ensures
        find_from(s, t, k) == Some(i),
    decreases i - k,
{
    if k < i {
        lemma_find_first(s, t, k + 1, i);
    }
}

/// Whether `c` is Unicode white space.
pub fn is_white_space(c: char) -> (r: bool)
    ensures
        r == is_ws(c),
{
    let u = c as u32;
    (0x9 <= u && u <= 0xd) || u == 0x20 || u == 0x85 || u == 0xa0 || u == 0x1680 || (0x2000 <= u
        && u <= 0x200a) || u == 0x2028 || u == 0x2029 || u == 0x202f || u == 0x205f || u == 0x3000
}

/// The characters of `s`, in order.
pub fn chars_of(s: &str) -> (v: Vec<char>)
    ensures
        v@ == s@,
{
    let mut v: Vec<char> = Vec::new();
    for c in it: s.chars()
        invariant
            v@ == it.seq().take(it.index() as int),
            it.seq() == s@,
    {
        v.push(c);
    }
    v
}

/// The bounds of `trim` applied to `cs[lo..hi]`.
pub fn trim_range(cs: &Vec<char>, lo: usize, hi: usize) -> (r: (usize, usize))
    requires
        lo <= hi <= cs@.len(),
    ensures
        lo <= r.0 <= r.1 <= hi,
        cs@.subrange(r.0 as int, r.1 as int) == trim(cs@.subrange(lo as int, hi as int)),
{
    strip_range(cs, lo, hi, false, ' ')
}

/// The bounds of `trim_char(.., x)` applied to `cs[lo..hi]`.
pub fn trim_char_range(cs: &Vec<char>, lo: usize, hi: usize, x: char) -> (r: (usize, usize))
    requires
        lo <= hi <= cs@.len(),
    ensures
        lo <= r.0 <= r.1 <= hi,
        cs@.subrange(r.0 as int, r.1 as int) == trim_char(cs@.subrange(lo as int, hi as int), x),
{
    strip_range(cs, lo, hi, true, x)
}

fn strips(c: char, by_char: bool, x: char) -> (r: bool)
    ensures
        r == (if by_char { char_pred(x) } else { ws_pred() })(c),
{
    if by_char {
        c == x
    } else {
        is_white_space(c)
    }
}

fn strip_range(cs: &Vec<char>, lo: usize, hi: usize, by_char: bool, x: char) -> (r: (usize, usize))
    requires
        lo <= hi <= cs@.len(),
    ensures
        lo <= r.0 <= r.1 <= hi,
        ({
            let p = if by_char { char_pred(x) } else { ws_pred() };
            cs@.subrange(r.0 as int, r.1 as int) == strip_trail(
                strip_lead(cs@.subrange(lo as int, hi as int), p),
                p,
            )
        }),
{
    let ghost p = if by_char { char_pred(x) } else { ws_pred() };
    let mut i = lo;
    while i < hi && strips(cs[i], by_char, x)
        invariant
            lo <= i <= hi <= cs@.len(),
            p == (if by_char { char_pred(x) } else { ws_pred() }),
            strip_lead(cs@.subrange(lo as int, hi as int), p) == strip_lead(
                cs@.subrange(i as int, hi as int),
                p,
            ),
        decreases hi - i,
    {
        assert(cs@.subrange(i as int, hi as int).subrange(1, (hi - i) as int) =~= cs@.subrange(
            i + 1,
            hi as int,
        ));
        i = i + 1;
    }
    assert(strip_lead(cs@.subrange(i as int, hi as int), p) == cs@.subrange(i as int, hi as int));
    let mut j = hi;
    while j > i && strips(cs[j - 1], by_char, x)
        invariant
            lo <= i <= j <= hi <= cs@.len(),
            p == (if by_char { char_pred(x) } else { ws_pred() }),
            strip_trail(cs@.subrange(i as int, hi as int), p) == strip_trail(
                cs@.subrange(i as int, j as int),
                p,
            ),
        decreases j - i,
    {
        assert(cs@.subrange(i as int, j as int).subrange(0, (j - i - 1) as int) =~= cs@.subrange(
            i as int,
            j - 1,
        ));
        j = j - 1;
    }
    (i, j)
}

/// The bounds of the pieces of `cs[lo..hi]` split at `sep`.
pub fn split_ranges(cs: &Vec<char>, lo: usize, hi: usize, sep: char) -> (r: Vec<(usize, usize)>)
    requires
        lo <= hi <= cs@.len(),
    ensures
        r@.len() == split_on(cs@.subrange(lo as int, hi as int), sep).len(),
        forall|k: int|
            0 <= k < r@.len() ==> lo <= (#[trigger] r@[k]).0 <= r@[k].1 <= hi && cs@.subrange(
                r@[k].0 as int,
                r@[k].1 as int,
            ) == split_on(cs@.subrange(lo as int, hi as int), sep)[k],
{
    let mut done: Vec<(usize, usize)> = Vec::new();
    let mut start = lo;
    let mut i = lo;
    assert(cs@.subrange(lo as int, lo as int) =~= Seq::<char>::empty());
    while i < hi
        invariant
            lo <= start <= i <= hi <= cs@.len(),
            split_on(cs@.subrange(lo as int, i as int), sep).len() == done@.len() + 1,
            forall|k: int|
                0 <= k < done@.len() ==> lo <= (#[trigger] done@[k]).0 <= done@[k].1 <= hi
                    && cs@.subrange(done@[k].0 as int, done@[k].1 as int) == split_on(
                    cs@.subrange(lo as int, i as int),
                    sep,
                )[k],
            split_on(cs@.subrange(lo as int, i as int), sep)[done@.len() as int] == cs@.subrange(
                start as int,
                i as int,
            ),
        decreases hi - i,
    {
        let ghost prev = split_on(cs@.subrange(lo as int, i as int), sep);
        assert(cs@.subrange(lo as int, i + 1).subrange(0, (i - lo) as int) =~= cs@.subrange(
            lo as int,
            i as int,
        ));
        assert(cs@.subrange(lo as int, i + 1)[(i - lo) as int] == cs@[i as int]);
        if cs[i] == sep {
            done.push((start, i));
            start = i + 1;
            assert(cs@.subrange(start as int, i + 1) =~= Seq::<char>::empty());
        } else {
            assert(cs@.subrange(start as int, i + 1) =~= cs@.subrange(start as int, i as int).push(
                cs@[i as int],
            ));
        }
        i = i + 1;
    }
    done.push((start, hi));
    done
}

/// The first position at or after `lo` where `t` occurs in `cs[..hi]`,
/// as `find` on that slice reports it (offset by `lo`).
pub fn find_in(cs: &Vec<char>, lo: usize, hi: usize, t: &Vec<char>) -> (r: Option<usize>)
    requires
        lo <= hi <= cs@.len(),
    ensures
        match find(cs@.subrange(lo as int, hi as int), t@) {
            Some(k) => r == Some((k + lo) as usize),
            None => r is None,
        },
{
    let ghost s = cs@.subrange(lo as int, hi as int);
    if t.len() > hi - lo {
        return None;
    }
    let last = hi - t.len();
    let mut i = lo;
    while i <= last
        invariant
            lo <= i <= last + 1,
            last + t@.len() == hi,
            hi <= cs@.len(),
            s == cs@.subrange(lo as int, hi as int),
            find(s, t@) == find_from(s, t@, i - lo),
        decreases last + 1 - i,
    {
        let mut j: usize = 0;
        let mut same = true;
        while j < t.len()
            invariant
                j <= t@.len(),
                i + t@.len() <= hi <= cs@.len(),
                same <==> forall|m: int| 0 <= m < j ==> cs@[i + m] == t@[m],
            decreases t@.len() - j,
        {
            if cs[i + j] != t[j] {
                same = false;
            }
            j = j + 1;
        }
        proof {
            let k = i - lo;
            if same {
                assert(s.subrange(k, k + t@.len()) =~= t@);
            } else {
                let m = choose|m: int| 0 <= m < t@.len() && cs@[i + m] != t@[m];
                assert(s.subrange(k, k + t@.len())[m] != t@[m]);
            }
        }
        if same {
            return Some(i);
        }
        i = i + 1;
    }
    None
}

/// The last position of `c` in `cs[lo..hi]` (absolute), if any.
pub fn rfind_char(cs: &Vec<char>, lo: usize, hi: usize, c: char) -> (r: Option<usize>)
    requires
        lo <= hi <= cs@.len(),
    ensures
        ({
            let k = last_index(cs@.subrange(lo as int, hi as int), c);
            &&& k < 0 ==> r is None
            &&& k >= 0 ==> r == Some((k + lo) as usize)
        }),
{
    let mut j = hi;
    while j > lo
        invariant
            lo <= j <= hi <= cs@.len(),
            last_index(cs@.subrange(lo as int, hi as int), c) == last_index(
                cs@.subrange(lo as int, j as int),
                c,
            ),
        decreases j - lo,
    {
        assert(cs@.subrange(lo as int, j as int).subrange(0, (j - 1 - lo) as int) =~= cs@.subrange(
            lo as int,
            j - 1,
        ));
        if cs[j - 1] == c {
            return Some(j - 1);
        }
        j = j - 1;
    }
    None
}

/// The text `s[a..b]` (character positions) as a new `String`.
pub fn substring(s: &str, a: usize, b: usize) -> (r: String)
    requires
        a <= b <= s@.len(),
    ensures
        r@ == s@.subrange(a as int, b as int),
{
    String::from_str(s.substring_char(a, b))
}

/// `s.trim()` as a new `String`.
pub fn trimmed(s: &str) -> (r: String)
    ensures
        r@ == trim(s@),
{
    let cs = chars_of(s);
    let (a, b) = trim_range(&cs, 0, cs.len());
    assert(cs@.subrange(0, cs@.len() as int) =~= cs@);
    substring(s, a, b)
}

/// Whether the texts are equal.
pub fn text_eq(a: &str, b: &str) -> (r: bool)
    ensures
        r == (a@ == b@),
{
    let x = chars_of(a);
    let y = chars_of(b);
    if x.len() != y.len() {
        return false;
    }
    let mut i: usize = 0;
    while i < x.len()
        invariant
            x@ == a@,
            y@ == b@,
            x@.len() == y@.len(),
            i <= x@.len(),
            forall|m: int| 0 <= m < i ==> x@[m] == y@[m],
        decreases x@.len() - i,
    {
        if x[i] != y[i] {
            return false;
        }
        i = i + 1;
    }
    assert(x@ =~= y@);
    true
}

/// The decimal digit for `d` (below ten).
pub open spec fn digit_char(d: int) -> char {
    if d == 0 {
        '0'
    } else if d == 1 {
        '1'
    } else if d == 2 {
        '2'
    } else if d == 3 {
        '3'
    } else if d == 4 {
        '4'
    } else if d == 5 {
        '5'
    } else if d == 6 {
        '6'
    } else if d == 7 {
        '7'
    } else if d == 8 {
        '8'
    } else {
        '9'
    }
}

/// `n` written in decimal, as `{}` prints it.
pub open spec fn decimal(n: nat) -> Seq<char>
    decreases n,
{
    if n < 10 {
        seq![digit_char(n as int)]
    } else {
        decimal(n / 10).push(digit_char((n % 10) as int))
    }
}

fn digit_text(d: u64) -> (r: &'static str)
    requires
        d < 10,
    ensures
        r@ == seq![digit_char(d as int)],
{
    proof {
        reveal_strlit("0");
        reveal_strlit("1");
        reveal_strlit("2");
        reveal_strlit("3");
        reveal_strlit("4");
        reveal_strlit("5");
        reveal_strlit("6");
        reveal_strlit("7");
        reveal_strlit("8");
        reveal_strlit("9");
    }
    if d == 0 {
        "0"
    } else if d == 1 {
        "1"
    } else if d == 2 {
        "2"
    } else if d == 3 {
        "3"
    } else if d == 4 {
        "4"
    } else if d == 5 {
        "5"
    } else if d == 6 {
        "6"
    } else if d == 7 {
        "7"
    } else if d == 8 {
        "8"
    } else {
        "9"
    }
}

/// Appends `n` in decimal.
pub fn append_decimal(s: &mut String, n: u64)
    ensures
        final(s)@ == old(s)@ + decimal(n as nat),
    decreases n,
{
    if n >= 10 {
        append_decimal(s, n / 10);
    }
    s.append(digit_text(n % 10));
    assert(s@ =~= old(s)@ + decimal(n as nat));
}

} // verus!
