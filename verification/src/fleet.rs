//! The server's picture of the robot fleet and of its Zenoh session: what
//! each topic sample does to the robots it knows, and the status reports
//! that connecting and disconnecting produce.
use vstd::prelude::*;
use crate::keyed::{as_map, find_key, has_key, insert_key, keys_sorted, lookup, set_value_at};
use crate::order::{lemma_text_lt_asymmetric, lemma_text_lt_irreflexive, lemma_text_lt_total, lemma_text_lt_transitive, text_less, text_lt};
use crate::text::{chars_of, split_on, text_eq, trim, trim_char, trim_range};
use crate::workspace::texts_of;
use crate::zenoh_api::{
    key_matches_robot, key_names_robot, robot_name_from_key, robot_name_of, topic_segments,
    type_text, TopicKind, ZenohConnectRequest, ZenohConnectionState, ZenohConnectionType,
    ZenohStatusResponse,
};

verus! {

/// What the server knows of one robot. Coordinates are kept as the
/// IEEE-754 bit patterns (`f64::to_bits`) of the values the robot reported.
pub struct RobotSummary {
    pub name: String,
    pub odom_key: String,
    pub gnss_keys: Vec<String>,
    pub gnss_lat: Option<u64>,
    pub gnss_lon: Option<u64>,
    pub odom_x: Option<u64>,
    pub odom_y: Option<u64>,
    pub yaw_rad: Option<u64>,
    pub last_seen_ms: u64,
}

/// Two summaries hold the same values.
pub open spec fn same_robot(a: RobotSummary, b: RobotSummary) -> bool {
    &&& a.name == b.name
    &&& a.odom_key == b.odom_key
    &&& a.gnss_keys@ == b.gnss_keys@
    &&& a.gnss_lat == b.gnss_lat
    &&& a.gnss_lon == b.gnss_lon
    &&& a.odom_x == b.odom_x
    &&& a.odom_y == b.odom_y
    &&& a.yaw_rad == b.yaw_rad
    &&& a.last_seen_ms == b.last_seen_ms
}

impl Clone for RobotSummary {
    fn clone(&self) -> (r: Self)
        ensures
            same_robot(r, *self),
    {
        let keys = self.gnss_keys.clone();
        proof {
            assert forall|i: int| 0 <= i < keys@.len() implies keys@[i] == self.gnss_keys@[i] by {
                assert(vstd::pervasive::cloned(self.gnss_keys@[i], keys@[i]));
            }
            assert(keys@ =~= self.gnss_keys@);
        }
        RobotSummary {
            name: self.name.clone(),
            odom_key: self.odom_key.clone(),
            gnss_keys: keys,
            gnss_lat: self.gnss_lat,
            gnss_lon: self.gnss_lon,
            odom_x: self.odom_x,
            odom_y: self.odom_y,
            yaw_rad: self.yaw_rad,
            last_seen_ms: self.last_seen_ms,
        }
    }
}

/// A decoded odometry message: position and heading (bit patterns).
#[derive(Clone, Copy, Debug, PartialEq, Eq, Structural)]
pub struct OdomPose {
    pub x: u64,
    pub y: u64,
    pub yaw: u64,
}

/// A decoded satellite fix: latitude and longitude (bit patterns).
#[derive(Clone, Copy, Debug, PartialEq, Eq, Structural)]
pub struct GnssFix {
    pub latitude: u64,
    pub longitude: u64,
}

/// Strictly increasing, hence without repeats.
pub open spec fn texts_sorted(s: Seq<Seq<char>>) -> bool {
    forall|i: int, j: int| 0 <= i < j < s.len() ==> text_lt(#[trigger] s[i], #[trigger] s[j])
}

/// A robot entry as the server first records it.
pub open spec fn is_fresh_robot(r: RobotSummary, name: Seq<char>) -> bool {
    &&& r.name@ == name
    &&& r.odom_key@ == Seq::<char>::empty()
    &&& r.gnss_keys@.len() == 0
    &&& r.gnss_lat is None
    &&& r.gnss_lon is None
    &&& r.odom_x is None
    &&& r.odom_y is None
    &&& r.yaw_rad is None
    &&& r.last_seen_ms == 0
}

/// `r` is `prev` after an odometry sample on `key` at `now`.
pub open spec fn odom_applied(
    prev: RobotSummary,
    key: Seq<char>,
    now: u64,
    pose: Option<OdomPose>,
    r: RobotSummary,
) -> bool {
    &&& r.name == prev.name
    &&& r.odom_key@ == key
    &&& r.gnss_keys@ == prev.gnss_keys@
    &&& r.gnss_lat == prev.gnss_lat
    &&& r.gnss_lon == prev.gnss_lon
    &&& r.last_seen_ms == now
    &&& match pose {
        Some(p) => r.odom_x == Some(p.x) && r.odom_y == Some(p.y) && r.yaw_rad == Some(p.yaw),
        None => r.odom_x == prev.odom_x && r.odom_y == prev.odom_y && r.yaw_rad == prev.yaw_rad,
    }
}

/// `r` is `prev` after a GNSS sample on `key` at `now`: the key joins the
/// sorted set of GNSS keys.
pub open spec fn gnss_applied(
    prev: RobotSummary,
    key: Seq<char>,
    now: u64,
    fix: Option<GnssFix>,
    r: RobotSummary,
) -> bool {
    &&& r.name == prev.name
    &&& r.odom_key == prev.odom_key
    &&& texts_sorted(texts_of(r.gnss_keys@))
    &&& texts_of(r.gnss_keys@).to_set() == texts_of(prev.gnss_keys@).to_set().insert(key)
    &&& texts_of(prev.gnss_keys@).contains(key) ==> r.gnss_keys@ == prev.gnss_keys@
    &&& r.odom_x == prev.odom_x
    &&& r.odom_y == prev.odom_y
    &&& r.yaw_rad == prev.yaw_rad
    &&& r.last_seen_ms == now
    &&& match fix {
        Some(f) => r.gnss_lat == Some(f.latitude) && r.gnss_lon == Some(f.longitude),
        None => r.gnss_lat == prev.gnss_lat && r.gnss_lon == prev.gnss_lon,
    }
}

/// Every entry is filed under its robot's name, and each robot's GNSS keys
/// are sorted.
pub open spec fn robots_wf(s: Seq<(String, RobotSummary)>) -> bool {
    &&& keys_sorted(s)
    &&& forall|i: int| 0 <= i < s.len() ==> (#[trigger] s[i]).1.name@ == s[i].0@
    &&& forall|i: int| 0 <= i < s.len() ==> texts_sorted(texts_of((#[trigger] s[i]).1.gnss_keys@))
}

/// The first position whose text is not below `k`.
fn text_lower_bound(v: &Vec<String>, k: &Vec<char>) -> (r: usize)
    ensures
        r <= v@.len(),
        forall|m: int| 0 <= m < r ==> text_lt(#[trigger] texts_of(v@)[m], k@),
        r < v@.len() ==> !text_lt(texts_of(v@)[r as int], k@),
{
    let mut p: usize = 0;
    while p < v.len()
        invariant
            p <= v@.len(),
            forall|m: int| 0 <= m < p ==> text_lt(#[trigger] texts_of(v@)[m], k@),
        decreases v@.len() - p,
    {
        let c = chars_of(v[p].as_str());
        if !text_less(&c, k) {
            return p;
        }
        p = p + 1;
    }
    p
}

/// Inserts `k` into a sorted list of texts unless it is there already.
pub fn insert_text_sorted(v: &mut Vec<String>, k: String)
    requires
        texts_sorted(texts_of(old(v)@)),
    ensures
        texts_sorted(texts_of(final(v)@)),
        texts_of(final(v)@).to_set() == texts_of(old(v)@).to_set().insert(k@),
        texts_of(old(v)@).contains(k@) ==> final(v)@ == old(v)@,
{
    let ghost ov = texts_of(v@);
    let kc = chars_of(k.as_str());
    let p = text_lower_bound(v, &kc);
    if p < v.len() && text_eq(v[p].as_str(), k.as_str()) {
        proof {
            assert(ov[p as int] == k@);
            assert(ov.to_set().insert(k@) =~= ov.to_set());
        }
        return;
    }
    proof {
        assert forall|m: int| 0 <= m < ov.len() implies ov[m] != k@ by {
            if m < p {
                lemma_text_lt_irreflexive(k@);
            } else {
                lemma_text_lt_total(ov[p as int], k@);
                lemma_text_lt_asymmetric(ov[p as int], k@);
                if m > p {
                    lemma_text_lt_transitive(k@, ov[p as int], ov[m]);
                    lemma_text_lt_irreflexive(k@);
                }
            }
        }
    }
    v.insert(p, k);
    proof {
        let nv = texts_of(v@);
        assert(nv =~= ov.insert(p as int, k@));
        assert forall|i: int, j: int| 0 <= i < j < nv.len() implies text_lt(
            #[trigger] nv[i],
            #[trigger] nv[j],
        ) by {
            if j < p {
            } else if j == p {
            } else if i < p {
                assert(nv[j] == ov[j - 1]);
                if p < ov.len() {
                    lemma_text_lt_total(ov[p as int], k@);
                    lemma_text_lt_asymmetric(ov[p as int], k@);
                    if j - 1 > p {
                        lemma_text_lt_transitive(k@, ov[p as int], ov[j - 1]);
                    }
                    lemma_text_lt_transitive(ov[i], k@, ov[j - 1]);
                }
            } else if i == p {
                assert(nv[j] == ov[j - 1]);
                lemma_text_lt_total(ov[p as int], k@);
                lemma_text_lt_asymmetric(ov[p as int], k@);
                if j - 1 > p {
                    lemma_text_lt_transitive(k@, ov[p as int], ov[j - 1]);
                }
            } else {
                assert(nv[i] == ov[i - 1] && nv[j] == ov[j - 1]);
            }
        }
        assert forall|x: Seq<char>| nv.to_set().contains(x) <==> ov.to_set().insert(k@).contains(
            x,
        ) by {
            if nv.contains(x) {
                let i = choose|i: int| 0 <= i < nv.len() && nv[i] == x;
                if i < p {
                    assert(ov[i] == x);
                } else if i > p {
                    assert(ov[i - 1] == x);
                }
            }
            if ov.contains(x) {
                let i = choose|i: int| 0 <= i < ov.len() && ov[i] == x;
                if i < p {
                    assert(nv[i] == x);
                } else {
                    assert(nv[i + 1] == x);
                }
            }
            if x == k@ {
                assert(nv[p as int] == x);
            }
        }
        assert(nv.to_set() =~= ov.to_set().insert(k@));
    }
}

/// `f` is `o` seen again at `now` if the key's segments name it.
pub open spec fn activity_applied(
    o: (String, RobotSummary),
    segs: Seq<Seq<char>>,
    now: u64,
    f: (String, RobotSummary),
) -> bool {
    let (ok, orb) = o;
    let (fk, frb) = f;
    &&& fk == ok
    &&& frb.name == orb.name
    &&& frb.odom_key == orb.odom_key
    &&& frb.gnss_keys@ == orb.gnss_keys@
    &&& frb.gnss_lat == orb.gnss_lat
    &&& frb.gnss_lon == orb.gnss_lon
    &&& frb.odom_x == orb.odom_x
    &&& frb.odom_y == orb.odom_y
    &&& frb.yaw_rad == orb.yaw_rad
    &&& frb.last_seen_ms == (if key_names_robot(segs, orb.name@) {
        now
    } else {
        orb.last_seen_ms
    })
}

/// The robot recorded under `n` after an odometry sample: the earlier
/// entry updated, or a new entry if there was none.
pub open spec fn odom_recorded(
    old_map: Map<Seq<char>, RobotSummary>,
    n: Seq<char>,
    key: Seq<char>,
    now: u64,
    pose: Option<OdomPose>,
    r: RobotSummary,
) -> bool {
    if old_map.contains_key(n) {
        odom_applied(old_map[n], key, now, pose, r)
    } else {
        exists|f: RobotSummary| is_fresh_robot(f, n) && odom_applied(f, key, now, pose, r)
    }
}

/// The robot recorded under `n` after a GNSS sample.
pub open spec fn gnss_recorded(
    old_map: Map<Seq<char>, RobotSummary>,
    n: Seq<char>,
    key: Seq<char>,
    now: u64,
    fix: Option<GnssFix>,
    r: RobotSummary,
) -> bool {
    if old_map.contains_key(n) {
        gnss_applied(old_map[n], key, now, fix, r)
    } else {
        exists|f: RobotSummary| is_fresh_robot(f, n) && gnss_applied(f, key, now, fix, r)
    }
}

proof fn lemma_wf_after_store(
    old_s: Seq<(String, RobotSummary)>,
    ns: Seq<(String, RobotSummary)>,
    n: Seq<char>,
    r: RobotSummary,
)
    requires
        robots_wf(old_s),
        keys_sorted(ns),
        as_map(ns) == as_map(old_s).insert(n, r),
        r.name@ == n,
        texts_sorted(texts_of(r.gnss_keys@)),
    ensures
        robots_wf(ns),
{
    assert forall|i: int| 0 <= i < ns.len() implies (#[trigger] ns[i]).1.name@ == ns[i].0@
        && texts_sorted(texts_of(ns[i].1.gnss_keys@)) by {
        crate::keyed::lemma_lookup_at(ns, i);
        let k = ns[i].0@;
        assert(as_map(ns)[k] == ns[i].1);
        if k != n {
            assert(as_map(ns).contains_key(k));
            assert(as_map(old_s).insert(n, r).contains_key(k));
            assert(as_map(old_s).contains_key(k));
            let j = crate::keyed::key_pos(old_s, k);
            crate::keyed::lemma_lookup_at(old_s, j);
            assert(old_s[j].0@ == k);
        }
    }
}

fn fresh_robot(name: String) -> (r: RobotSummary)
    ensures
        is_fresh_robot(r, name@),
{
    RobotSummary {
        name,
        odom_key: String::new(),
        gnss_keys: Vec::new(),
        gnss_lat: None,
        gnss_lon: None,
        odom_x: None,
        odom_y: None,
        yaw_rad: None,
        last_seen_ms: 0,
    }
}

/// The server's Zenoh state that outlives a request: the robots it has
/// heard of, by name, and the last status it reported.
pub struct ZenohManager {
    pub robots: Vec<(String, RobotSummary)>,
    pub status: ZenohStatusResponse,
}

impl ZenohManager {
    pub open spec fn wf(&self) -> bool {
        robots_wf(self.robots@)
    }

    /// A manager with no robots and no session.
    pub fn new() -> (r: Self)
        ensures
            r.wf(),
            r.robots@.len() == 0,
            r.status.state == ZenohConnectionState::Disconnected,
            r.status.endpoint@ == Seq::<char>::empty(),
            r.status.connection_type == ZenohConnectionType::Tcp,
            r.status.status@ == "Not connected."@,
    {
        ZenohManager { robots: Vec::new(), status: ZenohStatusResponse::disconnected() }
    }

    /// Applies an odometry sample published on `key`; returns whether the
    /// key named a robot (otherwise nothing changes).
    pub fn record_odom_sample(&mut self, key: &str, now_ms: u64, pose: Option<OdomPose>) -> (r:
        bool)
        requires
            old(self).wf(),
        ensures
            final(self).wf(),
            final(self).status == old(self).status,
            match robot_name_of(key@, TopicKind::Odom) {
                None => !r && final(self).robots@ == old(self).robots@,
                Some(n) => r && as_map(final(self).robots@).contains_key(n) && as_map(
                    final(self).robots@,
                ).remove(n) == as_map(old(self).robots@).remove(n) && odom_recorded(
                    as_map(old(self).robots@),
                    n,
                    key@,
                    now_ms,
                    pose,
                    as_map(final(self).robots@)[n],
                ),
            },
    {
        let name = match robot_name_from_key(key, TopicKind::Odom) {
            Some(n) => n,
            None => {
                return false;
            },
        };
        let ghost old_s = self.robots@;
        let found = find_key(&self.robots, name.as_str());
        let mut robot = match found {
            Some(i) => self.robots[i].1.clone(),
            None => fresh_robot(name.clone()),
        };
        let ghost base = robot;
        robot.last_seen_ms = now_ms;
        robot.odom_key = String::from_str(key);
        match pose {
            Some(p) => {
                robot.odom_x = Some(p.x);
                robot.odom_y = Some(p.y);
                robot.yaw_rad = Some(p.yaw);
            },
            None => {},
        }
        proof {
            assert(odom_applied(base, key@, now_ms, pose, robot));
            if let Some(i) = found {
                crate::keyed::lemma_lookup_at(old_s, i as int);
            }
        }
        let ghost stored = robot;
        match found {
            Some(i) => {
                set_value_at(&mut self.robots, i, robot);
            },
            None => {
                insert_key(&mut self.robots, name, robot);
            },
        }
        proof {
            lemma_wf_after_store(old_s, self.robots@, name@, stored);
            assert(as_map(self.robots@).remove(name@) =~= as_map(old_s).remove(name@));
        }
        true
    }

    /// Applies a GNSS sample published on `key`; returns whether the key
    /// named a robot (otherwise nothing changes).
    pub fn record_gnss_sample(&mut self, key: &str, now_ms: u64, fix: Option<GnssFix>) -> (r:
        bool)
        requires
            old(self).wf(),
        ensures
            final(self).wf(),
            final(self).status == old(self).status,
            match robot_name_of(key@, TopicKind::Gnss) {
                None => !r && final(self).robots@ == old(self).robots@,
                Some(n) => r && as_map(final(self).robots@).contains_key(n) && as_map(
                    final(self).robots@,
                ).remove(n) == as_map(old(self).robots@).remove(n) && gnss_recorded(
                    as_map(old(self).robots@),
                    n,
                    key@,
                    now_ms,
                    fix,
                    as_map(final(self).robots@)[n],
                ),
            },
    {
        let name = match robot_name_from_key(key, TopicKind::Gnss) {
            Some(n) => n,
            None => {
                return false;
            },
        };
        let ghost old_s = self.robots@;
        let found = find_key(&self.robots, name.as_str());
        proof {
            if let Some(i) = found {
                crate::keyed::lemma_lookup_at(old_s, i as int);
            }
        }
        let mut robot = match found {
            Some(i) => self.robots[i].1.clone(),
            None => fresh_robot(name.clone()),
        };
        let ghost base = robot;
        proof {
            assert(texts_sorted(texts_of(robot.gnss_keys@)));
        }
        robot.last_seen_ms = now_ms;
        insert_text_sorted(&mut robot.gnss_keys, String::from_str(key));
        match fix {
            Some(f) => {
                robot.gnss_lat = Some(f.latitude);
                robot.gnss_lon = Some(f.longitude);
            },
            None => {},
        }
        proof {
            assert(gnss_applied(base, key@, now_ms, fix, robot));
        }
        let ghost stored = robot;
        match found {
            Some(i) => {
                set_value_at(&mut self.robots, i, robot);
            },
            None => {
                insert_key(&mut self.robots, name, robot);
            },
        }
        proof {
            lemma_wf_after_store(old_s, self.robots@, name@, stored);
            assert(as_map(self.robots@).remove(name@) =~= as_map(old_s).remove(name@));
        }
        true
    }

    /// Marks every robot whose name the key mentions as seen at `now_ms`.
    pub fn record_activity(&mut self, key: &str, now_ms: u64)
        requires
            old(self).wf(),
        ensures
            final(self).wf(),
            final(self).status == old(self).status,
            final(self).robots@.len() == old(self).robots@.len(),
            forall|i: int|
                0 <= i < old(self).robots@.len() ==> activity_applied(
                    #[trigger] old(self).robots@[i],
                    split_on(trim_char(key@, '/'), '/'),
                    now_ms,
                    final(self).robots@[i],
                ),
    {
        let segs = topic_segments(key);
        let ghost sv = split_on(trim_char(key@, '/'), '/');
        let mut refs: Vec<&str> = Vec::new();
        let mut j: usize = 0;
        while j < segs.len()
            invariant
                j <= segs@.len(),
                segs@.map_values(|x: String| x@) == sv,
                refs@.len() == j,
                forall|m: int| 0 <= m < j ==> (#[trigger] refs@[m])@ == segs@[m]@,
            decreases segs@.len() - j,
        {
            refs.push(segs[j].as_str());
            j = j + 1;
        }
        proof {
            assert(crate::zenoh_api::strs_view(refs@) =~= sv);
        }
        let ghost old_s = self.robots@;
        let ghost old_status = self.status;
        let mut i: usize = 0;
        while i < self.robots.len()
            invariant
                self.status == old_status,
                crate::zenoh_api::strs_view(refs@) == sv,
                robots_wf(self.robots@),
                self.robots@.len() == old_s.len(),
                i <= old_s.len(),
                forall|m: int|
                    0 <= m < i ==> activity_applied(#[trigger] old_s[m], sv, now_ms, self.robots@[m]),
                forall|m: int| i <= m < old_s.len() ==> #[trigger] self.robots@[m] == old_s[m],
            decreases old_s.len() - i,
        {
            if key_matches_robot(refs.as_slice(), self.robots[i].1.name.as_str()) {
                let mut robot = self.robots[i].1.clone();
                robot.last_seen_ms = now_ms;
                let ghost before = self.robots@;
                set_value_at(&mut self.robots, i, robot);
                proof {
                    assert forall|a: int| 0 <= a < self.robots@.len() implies (
                    #[trigger] self.robots@[a]).1.name@ == self.robots@[a].0@ && texts_sorted(
                        texts_of(self.robots@[a].1.gnss_keys@),
                    ) by {
                        if a != i {
                            assert(self.robots@[a] == before[a]);
                        }
                    }
                }
            }
            i = i + 1;
        }
    }

    /// Forgets every robot.
    pub fn clear_robots(&mut self)
        ensures
            final(self).wf(),
            final(self).robots@.len() == 0,
            final(self).status == old(self).status,
    {
        self.robots.clear();
    }

    /// The robots in name order, each name once.
    pub fn robots_list(&self) -> (r: Vec<RobotSummary>)
        requires
            self.wf(),
        ensures
            r@.len() == self.robots@.len(),
            forall|i: int| 0 <= i < r@.len() ==> same_robot(#[trigger] r@[i], self.robots@[i].1),
            forall|i: int, j: int| 0 <= i < j < r@.len() ==> text_lt(#[trigger] r@[i].name@, #[trigger] r@[j].name@),
    {
        let mut out: Vec<RobotSummary> = Vec::new();
        let mut i: usize = 0;
        while i < self.robots.len()
            invariant
                i <= self.robots@.len(),
                out@.len() == i,
                forall|m: int| 0 <= m < i ==> same_robot(#[trigger] out@[m], self.robots@[m].1),
            decreases self.robots@.len() - i,
        {
            out.push(self.robots[i].1.clone());
            i = i + 1;
        }
        proof {
            assert forall|i: int, j: int| 0 <= i < j < out@.len() implies text_lt(
                #[trigger] out@[i].name@,
                #[trigger] out@[j].name@,
            ) by {
                assert(self.robots@[i].1.name@ == self.robots@[i].0@);
                assert(self.robots@[j].1.name@ == self.robots@[j].0@);
            }
        }
        out
    }

    /// The last status reported.
    pub fn status_report(&self) -> (r: ZenohStatusResponse)
        ensures
            r == self.status,
    {
        self.status.clone()
    }

    /// Starts handling a connect request. An endpoint that is empty once
    /// trimmed is refused with an error report (also kept as the status);
    /// otherwise the robots are forgotten, the status becomes "connecting",
    /// and the trimmed endpoint is returned for the session to be opened.
    pub fn begin_connect(&mut self, request: &ZenohConnectRequest) -> (r: Result<
        String,
        ZenohStatusResponse,
    >)
        requires
            old(self).wf(),
        ensures
            final(self).wf(),
            match r {
                Err(resp) => {
                    &&& trim(request.endpoint@).len() == 0
                    &&& resp.state == ZenohConnectionState::Error
                    &&& resp.endpoint@ == Seq::<char>::empty()
                    &&& resp.connection_type == request.connection_type
                    &&& resp.status@ == "Enter a Zenoh endpoint first."@
                    &&& final(self).status == resp
                    &&& final(self).robots@ == old(self).robots@
                },
                Ok(e) => {
                    &&& trim(request.endpoint@).len() > 0
                    &&& e@ == trim(request.endpoint@)
                    &&& final(self).robots@.len() == 0
                    &&& final(self).status.state == ZenohConnectionState::Connecting
                    &&& final(self).status.endpoint@ == e@
                    &&& final(self).status.connection_type == request.connection_type
                    &&& final(self).status.status@ == "Connecting to "@ + e@ + " via "@
                        + type_text(request.connection_type) + "..."@
                },
            },
    {
        let endpoint = crate::text::trimmed(request.endpoint.as_str());
        if endpoint.unicode_len() == 0 {
            let response = ZenohStatusResponse {
                state: ZenohConnectionState::Error,
                endpoint: endpoint,
                connection_type: request.connection_type,
                status: String::from_str("Enter a Zenoh endpoint first."),
            };
            self.status = response.clone();
            return Err(response);
        }
        self.robots.clear();
        let mut status = String::from_str("Connecting to ");
        status.append(endpoint.as_str());
        status.append(" via ");
        status.append(request.connection_type.as_str());
        status.append("...");
        self.status = ZenohStatusResponse {
            state: ZenohConnectionState::Connecting,
            endpoint: endpoint.clone(),
            connection_type: request.connection_type,
            status,
        };
        Ok(endpoint)
    }

    /// Records how opening the session went: `None` for success, or the
    /// error's text. Returns the HTTP status code and the report.
    pub fn finish_connect(
        &mut self,
        endpoint: &str,
        connection_type: ZenohConnectionType,
        error: Option<&str>,
    ) -> (r: (u16, ZenohStatusResponse))
        ensures
            final(self).robots@ == old(self).robots@,
            final(self).status == r.1,
            r.1.endpoint@ == endpoint@,
            r.1.connection_type == connection_type,
            match error {
                None => r.0 == 200 && r.1.state == ZenohConnectionState::Connected && r.1.status@
                    == "Connected to "@ + endpoint@ + " via "@ + type_text(connection_type) + "."@,
                Some(e) => r.0 == 502 && r.1.state == ZenohConnectionState::Error && r.1.status@
                    == "Zenoh connect failed: "@ + e@,
            },
    {
        let response = match error {
            None => {
                let mut status = String::from_str("Connected to ");
                status.append(endpoint);
                status.append(" via ");
                status.append(connection_type.as_str());
                status.append(".");
                ZenohStatusResponse {
                    state: ZenohConnectionState::Connected,
                    endpoint: String::from_str(endpoint),
                    connection_type,
                    status,
                }
            },
            Some(e) => {
                let mut status = String::from_str("Zenoh connect failed: ");
                status.append(e);
                ZenohStatusResponse {
                    state: ZenohConnectionState::Error,
                    endpoint: String::from_str(endpoint),
                    connection_type,
                    status,
                }
            },
        };
        self.status = response.clone();
        let code: u16 = if error.is_none() {
            200
        } else {
            502
        };
        (code, response)
    }

    /// Drops the session's robots and reports the disconnected status.
    pub fn disconnect(&mut self) -> (r: ZenohStatusResponse)
        ensures
            final(self).wf(),
            final(self).robots@.len() == 0,
            final(self).status == r,
            r.state == ZenohConnectionState::Disconnected,
            r.endpoint@ == Seq::<char>::empty(),
            r.connection_type == ZenohConnectionType::Tcp,
            r.status@ == "Not connected."@,
    {
        self.robots.clear();
        let response = ZenohStatusResponse::disconnected();
        self.status = response.clone();
        response
    }

    /// Records that subscribing to `key_expr` failed.
    pub fn watcher_failed(&mut self, key_expr: &str, error: &str)
        ensures
            final(self).robots@ == old(self).robots@,
            final(self).status.state == ZenohConnectionState::Error,
            final(self).status.endpoint@ == Seq::<char>::empty(),
            final(self).status.connection_type == ZenohConnectionType::Tcp,
            final(self).status.status@ == "Zenoh robot watcher failed for "@ + key_expr@ + ": "@
                + error@,
    {
        let mut status = String::from_str("Zenoh robot watcher failed for ");
        status.append(key_expr);
        status.append(": ");
        status.append(error);
        self.status = ZenohStatusResponse {
            state: ZenohConnectionState::Error,
            endpoint: String::new(),
            connection_type: ZenohConnectionType::Tcp,
            status,
        };
    }

    /// Records that subscribing to all activity failed.
    pub fn activity_watcher_failed(&mut self, error: &str)
        ensures
            final(self).robots@ == old(self).robots@,
            final(self).status.state == ZenohConnectionState::Error,
            final(self).status.endpoint@ == Seq::<char>::empty(),
            final(self).status.connection_type == ZenohConnectionType::Tcp,
            final(self).status.status@ == "Zenoh activity watcher failed: "@ + error@,
    {
        let mut status = String::from_str("Zenoh activity watcher failed: ");
        status.append(error);
        self.status = ZenohStatusResponse {
            state: ZenohConnectionState::Error,
            endpoint: String::new(),
            connection_type: ZenohConnectionType::Tcp,
            status,
        };
    }
}

} // verus!
