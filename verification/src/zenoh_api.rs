//! The Zenoh side of the server: connection types and states, the status
//! reports it hands to the browser, locator normalisation, and how topic
//! keys name robots.
use vstd::prelude::*;
use crate::text::{
    chars_of, contains_text, ends_with, find, find_in, join, last_index, rfind_char, split_on,
    split_ranges, starts_with, substring, text_eq, trim, trim_char, trim_char_range, trim_range,
};

verus! {

/// The transport a Zenoh endpoint is reached over.
#[derive(Clone, Copy, Debug, PartialEq, Eq, Structural)]
pub enum ZenohConnectionType {
    Ws,
    Tcp,
    Udp,
    Quic,
}

/// The wire name of a connection type.
pub open spec fn type_text(t: ZenohConnectionType) -> Seq<char> {
    match t {
        ZenohConnectionType::Ws => "ws"@,
        ZenohConnectionType::Tcp => "tcp"@,
        ZenohConnectionType::Udp => "udp"@,
        ZenohConnectionType::Quic => "quic"@,
    }
}

/// The name shown to a person for a connection type.
pub open spec fn display_text(t: ZenohConnectionType) -> Seq<char> {
    match t {
        ZenohConnectionType::Ws => "WebSocket"@,
        ZenohConnectionType::Tcp => "TCP"@,
        ZenohConnectionType::Udp => "UDP"@,
        ZenohConnectionType::Quic => "QUIC"@,
    }
}

/// The connection type a form value selects: anything unknown is `Ws`.
pub open spec fn type_from_text(v: Seq<char>) -> ZenohConnectionType {
    if v == "tcp"@ {
        ZenohConnectionType::Tcp
    } else if v == "udp"@ {
        ZenohConnectionType::Udp
    } else if v == "quic"@ {
        ZenohConnectionType::Quic
    } else {
        ZenohConnectionType::Ws
    }
}

impl ZenohConnectionType {
    pub fn as_str(self) -> (r: &'static str)
        ensures
            r@ == type_text(self),
    {
        match self {
            ZenohConnectionType::Ws => "ws",
            ZenohConnectionType::Tcp => "tcp",
            ZenohConnectionType::Udp => "udp",
            ZenohConnectionType::Quic => "quic",
        }
    }

    pub fn from_value(value: &str) -> (r: Self)
        ensures
            r == type_from_text(value@),
    {
        if text_eq(value, "tcp") {
            ZenohConnectionType::Tcp
        } else if text_eq(value, "udp") {
            ZenohConnectionType::Udp
        } else if text_eq(value, "quic") {
            ZenohConnectionType::Quic
        } else {
            ZenohConnectionType::Ws
        }
    }

    pub fn display_name(self) -> (r: &'static str)
        ensures
            r@ == display_text(self),
    {
        match self {
            ZenohConnectionType::Ws => "WebSocket",
            ZenohConnectionType::Tcp => "TCP",
            ZenohConnectionType::Udp => "UDP",
            ZenohConnectionType::Quic => "QUIC",
        }
    }
}

impl Default for ZenohConnectionType {
    fn default() -> (r: Self)
        ensures
            r == ZenohConnectionType::Tcp,
    {
        ZenohConnectionType::Tcp
    }
}

/// Where the server's Zenoh session stands.
#[derive(Clone, Copy, Debug, PartialEq, Eq, Structural)]
pub enum ZenohConnectionState {
    Disconnected,
    Connecting,
    Connected,
    Error,
}

impl Default for ZenohConnectionState {
    fn default() -> (r: Self)
        ensures
            r == ZenohConnectionState::Disconnected,
    {
        ZenohConnectionState::Disconnected
    }
}

/// What the browser asks to connect to.
pub struct ZenohConnectRequest {
    pub endpoint: String,
    pub connection_type: ZenohConnectionType,
}

/// What the server reports of its Zenoh session.
pub struct ZenohStatusResponse {
    pub state: ZenohConnectionState,
    pub endpoint: String,
    pub connection_type: ZenohConnectionType,
    pub status: String,
}

impl ZenohStatusResponse {
    /// The report of a server with no session.
    pub fn disconnected() -> (r: Self)
        ensures
            r.state == ZenohConnectionState::Disconnected,
            r.endpoint@ == Seq::<char>::empty(),
            r.connection_type == ZenohConnectionType::Tcp,
            r.status@ == "Not connected."@,
    {
        ZenohStatusResponse {
            state: ZenohConnectionState::Disconnected,
            endpoint: String::new(),
            connection_type: ZenohConnectionType::Tcp,
            status: String::from_str("Not connected."),
        }
    }
}

impl Default for ZenohStatusResponse {
    fn default() -> (r: Self)
        ensures
            r.state == ZenohConnectionState::Disconnected,
            r.endpoint@ == Seq::<char>::empty(),
            r.connection_type == ZenohConnectionType::Tcp,
            r.status@ == Seq::<char>::empty(),
    {
        ZenohStatusResponse {
            state: ZenohConnectionState::Disconnected,
            endpoint: String::new(),
            connection_type: ZenohConnectionType::Tcp,
            status: String::new(),
        }
    }
}

impl Clone for ZenohStatusResponse {
    fn clone(&self) -> (r: Self)
        ensures
            r == *self,
    {
        ZenohStatusResponse {
            state: self.state,
            endpoint: self.endpoint.clone(),
            connection_type: self.connection_type,
            status: self.status.clone(),
        }
    }
}

/// Why an endpoint cannot become a locator.
#[derive(Clone, Copy, Debug, PartialEq, Eq, Structural)]
pub enum LocatorError {
    /// The endpoint is empty once trimmed.
    EmptyEndpoint,
}

impl LocatorError {
    pub fn message(self) -> (r: &'static str)
        ensures
            r@ == "empty endpoint"@,
    {
        "empty endpoint"
    }
}

/// The endpoint with a leading `tcp://`, `udp://`, `quic://` or `ws://`
/// taken off (the first that matches, in that order).
pub open spec fn without_scheme(t: Seq<char>) -> Seq<char> {
    if starts_with(t, "tcp://"@) {
        t.subrange(6, t.len() as int)
    } else if starts_with(t, "udp://"@) {
        t.subrange(6, t.len() as int)
    } else if starts_with(t, "quic://"@) {
        t.subrange(7, t.len() as int)
    } else if starts_with(t, "ws://"@) {
        t.subrange(5, t.len() as int)
    } else {
        t
    }
}

/// The Zenoh locator for an endpoint: a trimmed endpoint that already has
/// the `proto/address` shape is kept; otherwise any scheme is dropped and
/// the connection type's name put in front.
pub open spec fn locator_of(t: ZenohConnectionType, endpoint: Seq<char>) -> Result<
    Seq<char>,
    LocatorError,
> {
    let e = trim(endpoint);
    if e.len() == 0 {
        Err(LocatorError::EmptyEndpoint)
    } else if e.contains('/') && !contains_text(e, "://"@) {
        Ok(e)
    } else {
        Ok(type_text(t) + "/"@ + without_scheme(e))
    }
}

/// A connection type read back from its wire name is the same type.
pub proof fn lemma_type_name_round_trip(t: ZenohConnectionType)
    ensures
        type_from_text(type_text(t)) == t,
{
    reveal_strlit("ws");
    reveal_strlit("tcp");
    reveal_strlit("udp");
    reveal_strlit("quic");
    assert("ws"@ != "tcp"@ && "ws"@ != "udp"@ && "ws"@ != "quic"@) by {
        assert("ws"@.len() == 2 && "tcp"@.len() == 3 && "udp"@.len() == 3 && "quic"@.len() == 4);
    }
    assert("udp"@ != "tcp"@) by {
        assert("udp"@[0] != "tcp"@[0]);
    }
    assert("quic"@ != "tcp"@ && "quic"@ != "udp"@) by {
        assert("quic"@.len() == 4 && "tcp"@.len() == 3 && "udp"@.len() == 3);
    }
}

/// Dropping a scheme leaves a suffix.
proof fn lemma_without_scheme_suffix(t: Seq<char>)
    ensures
        without_scheme(t).len() <= t.len(),
        without_scheme(t) == t.subrange(t.len() - without_scheme(t).len(), t.len() as int),
{
    reveal_strlit("tcp://");
    reveal_strlit("udp://");
    reveal_strlit("quic://");
    reveal_strlit("ws://");
    assert(t.subrange(0, t.len() as int) =~= t);
}

/// The schemes an endpoint may be typed with.
pub open spec fn is_scheme(s: Seq<char>) -> bool {
    s == "tcp://"@ || s == "udp://"@ || s == "quic://"@ || s == "ws://"@
}

/// An endpoint typed as a scheme (`tcp://`, `udp://`, `quic://` or
/// `ws://`) and an address without surrounding white space becomes the
/// connection type's name, `/` and the address: the scheme is dropped,
/// whichever it is and whatever the connection type. When the address
/// holds no `/`, the locator holds no `://`.
pub proof fn lemma_scheme_dropped(t: ZenohConnectionType, scheme: Seq<char>, addr: Seq<char>)
    requires
        is_scheme(scheme),
        trim(addr) == addr,
    ensures
        locator_of(t, scheme + addr) == Ok::<Seq<char>, LocatorError>(type_text(t) + "/"@ + addr),
        !addr.contains('/') ==> !contains_text(type_text(t) + "/"@ + addr, "://"@),
{
    reveal_strlit("tcp://");
    reveal_strlit("udp://");
    reveal_strlit("quic://");
    reveal_strlit("ws://");
    reveal_strlit("://");
    reveal_strlit("/");
    reveal_strlit("ws");
    reveal_strlit("tcp");
    reveal_strlit("udp");
    reveal_strlit("quic");
    let e = scheme + addr;
    let n = scheme.len();
    assert(n >= 5);
    assert(e[0] == scheme[0]);
    assert(!crate::text::is_ws(e[0]));
    if addr.len() > 0 {
        crate::text::lemma_trim_shape(addr);
        assert(e[e.len() - 1] == addr[addr.len() - 1]);
    } else {
        assert(e =~= scheme);
        assert(e[e.len() - 1] == '/');
    }
    crate::text::lemma_trim_clean(e);
    assert(trim(e) == e);
    assert(e[n - 1] == '/');
    assert(e.contains('/'));
    assert(crate::text::occurs_at(e, "://"@, n - 3)) by {
        assert(e.subrange(n - 3, n as int) =~= "://"@);
    }
    crate::text::lemma_find_from_bounds(e, "://"@, 0);
    assert(contains_text(e, "://"@));
    assert(e.subrange(0, n as int) =~= scheme);
    assert(e.subrange(n as int, e.len() as int) =~= addr);
    if scheme == "tcp://"@ {
        assert(starts_with(e, "tcp://"@));
    } else if scheme == "udp://"@ {
        assert(!starts_with(e, "tcp://"@)) by {
            assert(e[0] != "tcp://"@[0]);
        }
        assert(starts_with(e, "udp://"@));
    } else if scheme == "quic://"@ {
        assert(!starts_with(e, "tcp://"@)) by {
            assert(e[0] != "tcp://"@[0]);
        }
        assert(!starts_with(e, "udp://"@)) by {
            assert(e[0] != "udp://"@[0]);
        }
        assert(starts_with(e, "quic://"@));
    } else {
        assert(!starts_with(e, "tcp://"@)) by {
            assert(e[0] != "tcp://"@[0]);
        }
        assert(!starts_with(e, "udp://"@)) by {
            assert(e[0] != "udp://"@[0]);
        }
        assert(!starts_with(e, "quic://"@)) by {
            assert(e[0] != "quic://"@[0]);
        }
        assert(starts_with(e, "ws://"@));
    }
    assert(without_scheme(e) == addr);
    let l = type_text(t) + "/"@ + addr;
    let k = type_text(t).len();
    if !addr.contains('/') {
        assert forall|j: int| 0 <= j < l.len() && l[j] == '/' implies j == k by {
            if j < k {
                assert(l[j] == type_text(t)[j]);
            } else if j > k {
                assert(l[j] == addr[j - k - 1]);
            }
        }
        if contains_text(l, "://"@) {
            let i = find(l, "://"@)->Some_0;
            crate::text::lemma_find_from_bounds(l, "://"@, 0);
            let w = l.subrange(i, i + 3);
            assert(w =~= "://"@);
            assert(w[1] == "://"@[1] && w[2] == "://"@[2]);
            assert(w[1] == l[i + 1] && w[2] == l[i + 2]);
            assert(l[i + 1] == '/');
            assert(l[i + 2] == '/');
        }
    }
}

/// An address typed without any `/` (and without surrounding white space)
/// gets the connection type's name and `/` in front.
pub proof fn lemma_plain_address(t: ZenohConnectionType, addr: Seq<char>)
    requires
        addr.len() > 0,
        trim(addr) == addr,
        !addr.contains('/'),
    ensures
        locator_of(t, addr) == Ok::<Seq<char>, LocatorError>(type_text(t) + "/"@ + addr),
{
    reveal_strlit("tcp://");
    reveal_strlit("udp://");
    reveal_strlit("quic://");
    reveal_strlit("ws://");
    assert(!starts_with(addr, "tcp://"@)) by {
        if starts_with(addr, "tcp://"@) {
            assert(addr.subrange(0, 6)[4] == addr[4]);
        }
    }
    assert(!starts_with(addr, "udp://"@)) by {
        if starts_with(addr, "udp://"@) {
            assert(addr.subrange(0, 6)[4] == addr[4]);
        }
    }
    assert(!starts_with(addr, "quic://"@)) by {
        if starts_with(addr, "quic://"@) {
            assert(addr.subrange(0, 7)[5] == addr[5]);
        }
    }
    assert(!starts_with(addr, "ws://"@)) by {
        if starts_with(addr, "ws://"@) {
            assert(addr.subrange(0, 5)[3] == addr[3]);
        }
    }
}

/// An endpoint that already reads `proto/address` (a `/`, no `://`) is
/// kept as typed, without its surrounding white space.
pub proof fn lemma_ready_locator_kept(t: ZenohConnectionType, endpoint: Seq<char>)
    requires
        trim(endpoint).contains('/'),
        !contains_text(trim(endpoint), "://"@),
    ensures
        locator_of(t, endpoint) == Ok::<Seq<char>, LocatorError>(trim(endpoint)),
{
}

/// Only a blank endpoint is refused, and it is refused as empty.
pub proof fn lemma_blank_endpoint_refused(t: ZenohConnectionType, endpoint: Seq<char>)
    ensures
        locator_of(t, endpoint) is Err <==> trim(endpoint).len() == 0,
        locator_of(t, endpoint) is Err ==> locator_of(t, endpoint) == Err::<Seq<char>, LocatorError>(
            LocatorError::EmptyEndpoint,
        ),
{
}

/// Normalising a locator again changes nothing, as long as it holds no
/// `://` (one that does, such as `tcp/a://b` from `tcp://a://b`, is read
/// as still having a scheme).
pub proof fn lemma_locator_stable(t: ZenohConnectionType, endpoint: Seq<char>)
    requires
        locator_of(t, endpoint) is Ok,
        !contains_text(locator_of(t, endpoint)->Ok_0, "://"@),
    ensures
        locator_of(t, locator_of(t, endpoint)->Ok_0) == locator_of(t, endpoint),
{
    let e = trim(endpoint);
    let l = locator_of(t, endpoint)->Ok_0;
    crate::text::lemma_trim_shape(endpoint);
    if e.contains('/') && !contains_text(e, "://"@) {
        crate::text::lemma_trim_idempotent(endpoint);
    } else {
        reveal_strlit("ws");
        reveal_strlit("tcp");
        reveal_strlit("udp");
        reveal_strlit("quic");
        reveal_strlit("/");
        let w = without_scheme(e);
        lemma_without_scheme_suffix(e);
        let n = type_text(t).len();
        assert(l == type_text(t) + "/"@ + w);
        assert(l[n as int] == '/');
        assert(l.contains('/'));
        assert(!crate::text::is_ws(l[0]));
        if w.len() > 0 {
            assert(l[l.len() - 1] == w[w.len() - 1]);
            assert(w[w.len() - 1] == e[e.len() - 1]);
        }
        crate::text::lemma_trim_clean(l);
    }
}

fn vec_of(s: &str) -> (v: Vec<char>)
    ensures
        v@ == s@,
{
    chars_of(s)
}

/// Whether `cs[lo..hi]` starts with `t`.
pub fn range_starts_with(cs: &Vec<char>, lo: usize, hi: usize, t: &Vec<char>) -> (r: bool)
    requires
        lo <= hi <= cs@.len(),
    ensures
        r == starts_with(cs@.subrange(lo as int, hi as int), t@),
{
    if t.len() > hi - lo {
        return false;
    }
    let mut j: usize = 0;
    while j < t.len()
        invariant
            lo + t@.len() <= hi <= cs@.len(),
            j <= t@.len(),
            forall|m: int| 0 <= m < j ==> cs@[lo + m] == t@[m],
        decreases t@.len() - j,
    {
        if cs[lo + j] != t[j] {
            assert(cs@.subrange(lo as int, hi as int).subrange(0, t@.len() as int)[j as int]
                != t@[j as int]);
            return false;
        }
        j = j + 1;
    }
    assert(cs@.subrange(lo as int, hi as int).subrange(0, t@.len() as int) =~= t@);
    true
}

/// Whether `cs[lo..hi]` ends with `t`.
pub fn range_ends_with(cs: &Vec<char>, lo: usize, hi: usize, t: &Vec<char>) -> (r: bool)
    requires
        lo <= hi <= cs@.len(),
    ensures
        r == ends_with(cs@.subrange(lo as int, hi as int), t@),
{
    if t.len() > hi - lo {
        return false;
    }
    let start = hi - t.len();
    let mut j: usize = 0;
    while j < t.len()
        invariant
            lo <= start,
            start + t@.len() == hi,
            hi <= cs@.len(),
            j <= t@.len(),
            forall|m: int| 0 <= m < j ==> cs@[start + m] == t@[m],
        decreases t@.len() - j,
    {
        if cs[start + j] != t[j] {
            let ghost s = cs@.subrange(lo as int, hi as int);
            assert(s.subrange(s.len() - t@.len(), s.len() as int)[j as int] != t@[j as int]);
            return false;
        }
        j = j + 1;
    }
    let ghost s = cs@.subrange(lo as int, hi as int);
    assert(s.subrange(s.len() - t@.len(), s.len() as int) =~= t@);
    true
}

/// Whether `c` occurs in `cs[lo..hi]`.
pub fn range_has_char(cs: &Vec<char>, lo: usize, hi: usize, c: char) -> (r: bool)
    requires
        lo <= hi <= cs@.len(),
    ensures
        r == cs@.subrange(lo as int, hi as int).contains(c),
{
    let mut i = lo;
    while i < hi
        invariant
            lo <= i <= hi <= cs@.len(),
            forall|m: int| lo <= m < i ==> cs@[m] != c,
        decreases hi - i,
    {
        if cs[i] == c {
            assert(cs@.subrange(lo as int, hi as int)[i - lo] == c);
            return true;
        }
        i = i + 1;
    }
    assert forall|m: int| 0 <= m < hi - lo implies cs@.subrange(lo as int, hi as int)[m] != c by {
        assert(cs@.subrange(lo as int, hi as int)[m] == cs@[lo + m]);
    }
    false
}

/// Turns what a person typed into a Zenoh locator (`proto/address`).
pub fn normalize_locator(connection_type: ZenohConnectionType, endpoint: &str) -> (r: Result<
    String,
    LocatorError,
>)
    ensures
        match (r, locator_of(connection_type, endpoint@)) {
            (Ok(s), Ok(t)) => s@ == t,
            (Err(a), Err(b)) => a == b,
            _ => false,
        },
{
    let cs = chars_of(endpoint);
    let (a, b) = trim_range(&cs, 0, cs.len());
    assert(cs@.subrange(0, cs@.len() as int) =~= endpoint@);
    let ghost e = cs@.subrange(a as int, b as int);
    if a == b {
        return Err(LocatorError::EmptyEndpoint);
    }
    let has_slash = range_has_char(&cs, a, b, '/');
    let sep = vec_of("://");
    let has_scheme = find_in(&cs, a, b, &sep).is_some();
    if has_slash && !has_scheme {
        return Ok(substring(endpoint, a, b));
    }
    let tcp = vec_of("tcp://");
    let udp = vec_of("udp://");
    let quic = vec_of("quic://");
    let ws = vec_of("ws://");
    proof {
        reveal_strlit("tcp://");
        reveal_strlit("udp://");
        reveal_strlit("quic://");
        reveal_strlit("ws://");
    }
    let start = if range_starts_with(&cs, a, b, &tcp) {
        a + 6
    } else if range_starts_with(&cs, a, b, &udp) {
        a + 6
    } else if range_starts_with(&cs, a, b, &quic) {
        a + 7
    } else if range_starts_with(&cs, a, b, &ws) {
        a + 5
    } else {
        a
    };
    assert(cs@.subrange(start as int, b as int) =~= without_scheme(e));
    let mut out = String::from_str(connection_type.as_str());
    out.append("/");
    let rest = substring(endpoint, start, b);
    out.append(rest.as_str());
    Ok(out)
}

} // verus!

verus! {

/// The kind of topic a robot publishes on.
#[derive(Clone, Copy, Debug, PartialEq, Eq, Structural)]
pub enum TopicKind {
    Odom,
    Gnss,
}

pub open spec fn strs_view(v: Seq<&str>) -> Seq<Seq<char>> {
    v.map_values(|x: &str| x@)
}

/// Whether a key (given by its `/`-separated segments) belongs to the robot
/// called `name`: a segment contains the name, or the whole key is the name,
/// starts with `name/`, contains `/name/` or ends with `/name`.
pub open spec fn key_names_robot(segs: Seq<Seq<char>>, name: Seq<char>) -> bool {
    let full = join(segs, "/"@);
    ||| exists|i: int| 0 <= i < segs.len() && contains_text(#[trigger] segs[i], name)
    ||| full == name
    ||| starts_with(full, name + "/"@)
    ||| contains_text(full, "/"@ + name + "/"@)
    ||| ends_with(full, "/"@ + name)
}

/// The name of the robot a topic key belongs to: the key without outer
/// slashes, cut before `/odom` at its end (odometry) or before its first
/// `/gnss` (GNSS); then the last `/` segment of that prefix, trimmed, if it
/// is not empty.
pub open spec fn robot_name_of(key: Seq<char>, kind: TopicKind) -> Option<Seq<char>> {
    let t = trim_char(key, '/');
    let prefix: Option<Seq<char>> = match kind {
        TopicKind::Odom => if ends_with(t, "/odom"@) {
            Some(t.subrange(0, t.len() - 5))
        } else {
            None
        },
        TopicKind::Gnss => match find(t, "/gnss"@) {
            Some(i) => Some(t.subrange(0, i)),
            None => None,
        },
    };
    match prefix {
        None => None,
        Some(p) => {
            let pieces = split_on(p, '/');
            let name = trim(pieces[pieces.len() - 1]);
            if name.len() == 0 {
                None
            } else {
                Some(name)
            }
        },
    }
}

/// A key made of a prefix (empty or ending in `/`), a robot name (not
/// empty, trimmed, without `/`) and `/odom` names that robot.
pub proof fn lemma_robot_name_from_odom_key(prefix: Seq<char>, name: Seq<char>)
    requires
        name.len() > 0,
        !name.contains('/'),
        trim(name) == name,
        prefix.len() == 0 || prefix[prefix.len() - 1] == '/',
    ensures
        robot_name_of(prefix + name + "/odom"@, TopicKind::Odom) == Some(name),
{
    reveal_strlit("/odom");
    let tail = "/odom"@;
    let key = prefix + name + tail;
    let c = crate::text::char_pred('/');
    assert(name[0] != '/');
    crate::text::lemma_strip_lead_append(prefix, name + tail, c);
    assert(prefix + (name + tail) =~= key);
    let q = crate::text::strip_lead(prefix, c);
    crate::text::lemma_strip_lead(prefix, c);
    let u = q + (name + tail);
    assert(crate::text::strip_lead(key, c) == u);
    assert(u[u.len() - 1] == 'm');
    assert(trim_char(key, '/') == u);
    assert(ends_with(u, tail));
    let body = q + name;
    assert(u.subrange(0, u.len() - 5) =~= body);
    if q.len() == 0 {
        assert(body =~= name);
        crate::text::lemma_split_no_sep(name, '/');
    } else {
        assert(q[q.len() - 1] == prefix[prefix.len() - 1]);
        let q0 = q.subrange(0, q.len() - 1);
        assert(q0 + seq!['/'] + name =~= body);
        crate::text::lemma_split_after_sep(q0, name, '/');
    }
}

/// A name read from a key is never empty, is trimmed and holds no `/`.
pub proof fn lemma_robot_name_clean(key: Seq<char>, kind: TopicKind)
    ensures
        robot_name_of(key, kind) matches Some(n) ==> n.len() > 0 && trim(n) == n && !n.contains('/'),
{
    if let Some(n) = robot_name_of(key, kind) {
        let t = trim_char(key, '/');
        let p = match kind {
            TopicKind::Odom => t.subrange(0, t.len() - 5),
            TopicKind::Gnss => t.subrange(0, find(t, "/gnss"@)->Some_0),
        };
        let pieces = split_on(p, '/');
        crate::text::lemma_split_last_clean(p, '/');
        let piece = pieces[pieces.len() - 1];
        assert(n == trim(piece));
        crate::text::lemma_trim_idempotent(piece);
        crate::text::lemma_trim_shape(piece);
        let a = piece.len() - crate::text::strip_lead(piece, crate::text::ws_pred()).len();
        if n.contains('/') {
            let w = choose|w: int| 0 <= w < n.len() && #[trigger] n[w] == '/';
            assert(piece[a + w] == '/');
        }
    }
}

fn append_chars(v: &mut Vec<char>, s: &str)
    ensures
        final(v)@ == old(v)@ + s@,
{
    let cs = chars_of(s);
    let mut i: usize = 0;
    while i < cs.len()
        invariant
            cs@ == s@,
            i <= cs@.len(),
            v@ == old(v)@ + cs@.subrange(0, i as int),
        decreases cs@.len() - i,
    {
        v.push(cs[i]);
        i = i + 1;
        assert(cs@.subrange(0, i as int) =~= cs@.subrange(0, i - 1).push(cs@[i - 1]));
    }
    assert(cs@.subrange(0, cs@.len() as int) =~= cs@);
}

/// Whether a topic key, cut into its segments, belongs to the robot called
/// `robot_name`.
pub fn key_matches_robot(segments: &[&str], robot_name: &str) -> (r: bool)
    ensures
        r == key_names_robot(strs_view(segments@), robot_name@),
{
    let ghost segs = strs_view(segments@);
    let name = chars_of(robot_name);
    let mut full: Vec<char> = Vec::new();
    let mut any_segment = false;
    let mut i: usize = 0;
    while i < segments.len()
        invariant
            name@ == robot_name@,
            segs == strs_view(segments@),
            i <= segments@.len(),
            full@ == join(segs.subrange(0, i as int), "/"@),
            any_segment <==> exists|k: int| 0 <= k < i && contains_text(#[trigger] segs[k], name@),
        decreases segments@.len() - i,
    {
        let seg: &str = segments[i];
        let sc = chars_of(seg);
        let found = find_in(&sc, 0, sc.len(), &name).is_some();
        proof {
            assert(sc@.subrange(0, sc@.len() as int) =~= segs[i as int]);
        }
        if found {
            any_segment = true;
        }
        if i > 0 {
            append_chars(&mut full, "/");
        }
        append_chars(&mut full, seg);
        i = i + 1;
        proof {
            let t = segs.subrange(0, i as int);
            assert(t.subrange(0, t.len() - 1) =~= segs.subrange(0, i - 1));
            if i == 1 {
                assert(full@ =~= segs[0]);
            }
        }
    }
    assert(segs.subrange(0, segs.len() as int) =~= segs);
    if any_segment {
        return true;
    }
    let n = full.len();
    if n == name.len() {
        let mut j: usize = 0;
        let mut same = true;
        while j < n
            invariant
                n == full@.len(),
                n == name@.len(),
                j <= n,
                same <==> forall|m: int| 0 <= m < j ==> full@[m] == name@[m],
            decreases n - j,
        {
            if full[j] != name[j] {
                same = false;
            }
            j = j + 1;
        }
        if same {
            assert(full@ =~= name@);
            return true;
        }
    }
    proof {
        if full@ == name@ {
            assert(full@[0] == name@[0]);
        }
    }
    let mut with_slash = name.clone();
    append_chars(&mut with_slash, "/");
    if range_starts_with(&full, 0, n, &with_slash) {
        assert(full@.subrange(0, n as int) =~= full@);
        return true;
    }
    let mut inner: Vec<char> = Vec::new();
    append_chars(&mut inner, "/");
    append_chars(&mut inner, robot_name);
    let mut tail = inner.clone();
    append_chars(&mut inner, "/");
    assert(full@.subrange(0, n as int) =~= full@);
    if find_in(&full, 0, n, &inner).is_some() {
        return true;
    }
    range_ends_with(&full, 0, n, &tail)
}

/// The `/`-separated segments of a topic key once its outer slashes are gone.
pub fn topic_segments(key: &str) -> (r: Vec<String>)
    ensures
        r@.map_values(|x: String| x@) == split_on(trim_char(key@, '/'), '/'),
{
    let cs = chars_of(key);
    assert(cs@.subrange(0, cs@.len() as int) =~= key@);
    let (a, b) = trim_char_range(&cs, 0, cs.len(), '/');
    let ranges = split_ranges(&cs, a, b, '/');
    let mut out: Vec<String> = Vec::new();
    let mut i: usize = 0;
    while i < ranges.len()
        invariant
            cs@ == key@,
            a <= b <= cs@.len(),
            ranges@.len() == split_on(cs@.subrange(a as int, b as int), '/').len(),
            forall|k: int|
                0 <= k < ranges@.len() ==> a <= (#[trigger] ranges@[k]).0 <= ranges@[k].1 <= b
                    && cs@.subrange(ranges@[k].0 as int, ranges@[k].1 as int) == split_on(
                    cs@.subrange(a as int, b as int),
                    '/',
                )[k],
            i <= ranges@.len(),
            out@.len() == i,
            forall|k: int|
                0 <= k < i ==> (#[trigger] out@[k])@ == split_on(
                    cs@.subrange(a as int, b as int),
                    '/',
                )[k],
        decreases ranges@.len() - i,
    {
        let (x, y) = ranges[i];
        out.push(substring(key, x, y));
        i = i + 1;
    }
    assert(out@.map_values(|x: String| x@) =~= split_on(cs@.subrange(a as int, b as int), '/'));
    out
}

/// The robot a topic key names, if any.
pub fn robot_name_from_key(key: &str, topic_kind: TopicKind) -> (r: Option<String>)
    ensures
        match (r, robot_name_of(key@, topic_kind)) {
            (Some(s), Some(t)) => s@ == t,
            (None, None) => true,
            _ => false,
        },
{
    let cs = chars_of(key);
    assert(cs@.subrange(0, cs@.len() as int) =~= key@);
    let (a, b) = trim_char_range(&cs, 0, cs.len(), '/');
    let ghost t = cs@.subrange(a as int, b as int);
    let end = match topic_kind {
        TopicKind::Odom => {
            let suffix = vec_of("/odom");
            proof {
                reveal_strlit("/odom");
            }
            if !range_ends_with(&cs, a, b, &suffix) {
                return None;
            }
            assert(t.subrange(0, t.len() - 5) =~= cs@.subrange(a as int, b - 5));
            b - 5
        },
        TopicKind::Gnss => {
            let pat = vec_of("/gnss");
            match find_in(&cs, a, b, &pat) {
                Some(i) => {
                    proof {
                        crate::text::lemma_find_from_bounds(t, pat@, 0);
                    }
                    assert(t.subrange(0, i - a) =~= cs@.subrange(a as int, i as int));
                    i
                },
                None => {
                    return None;
                },
            }
        },
    };
    let ghost p = cs@.subrange(a as int, end as int);
    proof {
        crate::text::lemma_last_index_bounds(p, '/');
    }
    let start = match rfind_char(&cs, a, end, '/') {
        Some(k) => k + 1,
        None => a,
    };
    proof {
        crate::text::lemma_split_on_last(p, '/');
        crate::text::lemma_last_index_bounds(p, '/');
        assert(p.subrange(last_index(p, '/') + 1, p.len() as int) =~= cs@.subrange(
            start as int,
            end as int,
        ));
    }
    let (x, y) = trim_range(&cs, start, end);
    if x == y {
        return None;
    }
    Some(substring(key, x, y))
}

} // verus!
