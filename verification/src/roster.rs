//! The browser's list of robots: what the fleet panel shows, which robots
//! can take orders, and the colours the map keeps for them between
//! refreshes.
use vstd::prelude::*;
use crate::text::{join, text_eq};
use crate::workspace::{clone_texts, texts_of, JsonPoint, WorkspaceJson};

verus! {

/// A robot as the browser lists it. Coordinates are the bit patterns of
/// the reported `f64` values.
pub struct FleetRobot {
    pub name: String,
    pub available_tasks: Vec<String>,
    pub odom_key: String,
    pub gnss_keys: Vec<String>,
    pub gnss_lat: Option<u64>,
    pub gnss_lon: Option<u64>,
    pub odom_x: Option<u64>,
    pub odom_y: Option<u64>,
    pub yaw_rad: Option<u64>,
    pub last_seen_ms: u64,
    pub stale: bool,
    pub color: String,
}

/// `a` holds the values of `b`, with colour `color`.
pub open spec fn same_robot_colored(a: FleetRobot, b: FleetRobot, color: Seq<char>) -> bool {
    &&& a.name@ == b.name@
    &&& texts_of(a.available_tasks@) == texts_of(b.available_tasks@)
    &&& a.odom_key@ == b.odom_key@
    &&& texts_of(a.gnss_keys@) == texts_of(b.gnss_keys@)
    &&& a.gnss_lat == b.gnss_lat
    &&& a.gnss_lon == b.gnss_lon
    &&& a.odom_x == b.odom_x
    &&& a.odom_y == b.odom_y
    &&& a.yaw_rad == b.yaw_rad
    &&& a.last_seen_ms == b.last_seen_ms
    &&& a.stale == b.stale
    &&& a.color@ == color
}

impl Clone for FleetRobot {
    fn clone(&self) -> (r: Self)
        ensures
            same_robot_colored(r, *self, self.color@),
    {
        FleetRobot {
            name: self.name.clone(),
            available_tasks: clone_texts(&self.available_tasks),
            odom_key: self.odom_key.clone(),
            gnss_keys: clone_texts(&self.gnss_keys),
            gnss_lat: self.gnss_lat,
            gnss_lon: self.gnss_lon,
            odom_x: self.odom_x,
            odom_y: self.odom_y,
            yaw_rad: self.yaw_rad,
            last_seen_ms: self.last_seen_ms,
            stale: self.stale,
            color: self.color.clone(),
        }
    }
}

/// The robots the fleet panel shows: all of them, in order.
pub fn visible_robots(robots: &[FleetRobot], now_ms: u64) -> (r: Vec<FleetRobot>)
    ensures
        r@.len() == robots@.len(),
        forall|i: int| 0 <= i < r@.len() ==> same_robot_colored(#[trigger] r@[i], robots@[i], robots@[i].color@),
{
    let mut out: Vec<FleetRobot> = Vec::new();
    let mut i: usize = 0;
    while i < robots.len()
        invariant
            i <= robots@.len(),
            out@.len() == i,
            forall|m: int| 0 <= m < i ==> same_robot_colored(#[trigger] out@[m], robots@[m], robots@[m].color@),
        decreases robots@.len() - i,
    {
        out.push(robots[i].clone());
        i = i + 1;
    }
    out
}

/// Whether a robot is shown as stale: what the server said.
pub fn is_robot_stale(robot: &FleetRobot, now_ms: u64) -> (r: bool)
    ensures
        r == robot.stale,
{
    robot.stale
}

/// The position of the first robot called `name`, searching from `i`.
pub open spec fn first_named(rs: Seq<FleetRobot>, name: Seq<char>, i: int) -> Option<int>
    decreases rs.len() - i,
{
    if i < 0 || i >= rs.len() {
        None
    } else if rs[i].name@ == name {
        Some(i)
    } else {
        first_named(rs, name, i + 1)
    }
}

/// Whether orders can be sent to `name`: the name is not empty and the
/// first robot of that name offers at least one task.
pub open spec fn offers_tasks(rs: Seq<FleetRobot>, name: Seq<char>) -> bool {
    name.len() > 0 && match first_named(rs, name, 0) {
        Some(i) => rs[i].available_tasks@.len() > 0,
        None => false,
    }
}

/// Whether orders can be sent to `robot_name` (see `offers_tasks`).
pub fn robot_has_available_tasks(robots: &[FleetRobot], robot_name: &str) -> (r: bool)
    ensures
        r == offers_tasks(robots@, robot_name@),
{
    if robot_name.unicode_len() == 0 {
        return false;
    }
    let mut i: usize = 0;
    while i < robots.len()
        invariant
            i <= robots@.len(),
            robot_name@.len() > 0,
            first_named(robots@, robot_name@, 0) == first_named(robots@, robot_name@, i as int),
        decreases robots@.len() - i,
    {
        if text_eq(robots[i].name.as_str(), robot_name) {
            return robots[i].available_tasks.len() > 0;
        }
        i = i + 1;
    }
    false
}

/// The colour of the last robot called `name` among the first `n`.
pub open spec fn last_color(rs: Seq<FleetRobot>, name: Seq<char>, n: int) -> Option<Seq<char>>
    decreases n,
{
    if n <= 0 || n > rs.len() {
        None
    } else if rs[n - 1].name@ == name {
        Some(rs[n - 1].color@)
    } else {
        last_color(rs, name, n - 1)
    }
}

/// The colour kept for a robot called `name`: that of the last robot of
/// that name in `current`, if any.
fn kept_color(current: &[FleetRobot], name: &str) -> (r: Option<String>)
    ensures
        match r {
            Some(c) => last_color(current@, name@, current@.len() as int) == Some(c@),
            None => last_color(current@, name@, current@.len() as int) is None,
        },
{
    let mut n: usize = current.len();
    while n > 0
        invariant
            n <= current@.len(),
            last_color(current@, name@, current@.len() as int) == last_color(current@, name@, n as int),
        decreases n,
    {
        if text_eq(current[n - 1].name.as_str(), name) {
            return Some(current[n - 1].color.clone());
        }
        n = n - 1;
    }
    None
}

/// Gives each robot of `next` the colour its name had in `current` (the
/// last robot of that name there), so colours survive a refresh; robots
/// with new names keep theirs.
pub fn preserve_robot_colors(current: &[FleetRobot], next: &mut Vec<FleetRobot>)
    ensures
        final(next)@.len() == old(next)@.len(),
        forall|i: int|
            0 <= i < old(next)@.len() ==> same_robot_colored(
                #[trigger] final(next)@[i],
                old(next)@[i],
                match last_color(current@, old(next)@[i].name@, current@.len() as int) {
                    Some(c) => c,
                    None => old(next)@[i].color@,
                },
            ),
{
    let ghost orig = next@;
    let mut i: usize = 0;
    while i < next.len()
        invariant
            next@.len() == orig.len(),
            i <= orig.len(),
            forall|m: int|
                0 <= m < i ==> same_robot_colored(
                    #[trigger] next@[m],
                    orig[m],
                    match last_color(current@, orig[m].name@, current@.len() as int) {
                        Some(c) => c,
                        None => orig[m].color@,
                    },
                ),
            forall|m: int| i <= m < orig.len() ==> #[trigger] next@[m] == orig[m],
        decreases orig.len() - i,
    {
        let mut robot = next[i].clone();
        match kept_color(current, next[i].name.as_str()) {
            Some(c) => {
                robot.color = c;
            },
            None => {},
        }
        let ghost before = next@;
        next.set(i, robot);
        proof {
            assert forall|m: int| 0 <= m < i + 1 implies same_robot_colored(
                #[trigger] next@[m],
                orig[m],
                match last_color(current@, orig[m].name@, current@.len() as int) {
                    Some(c) => c,
                    None => orig[m].color@,
                },
            ) by {
                if m < i {
                    assert(next@[m] == before[m]);
                }
            }
        }
        i = i + 1;
    }
}

/// The texts joined with `sep` between them.
fn join_texts(v: &Vec<String>, sep: &str) -> (r: String)
    ensures
        r@ == join(texts_of(v@), sep@),
{
    let ghost pieces = texts_of(v@);
    let mut out = String::new();
    let mut i: usize = 0;
    while i < v.len()
        invariant
            pieces == texts_of(v@),
            i <= v@.len(),
            out@ == join(pieces.subrange(0, i as int), sep@),
        decreases v@.len() - i,
    {
        if i > 0 {
            out.append(sep);
        }
        out.append(v[i].as_str());
        i = i + 1;
        proof {
            let t = pieces.subrange(0, i as int);
            assert(t.subrange(0, t.len() - 1) =~= pieces.subrange(0, i - 1));
            assert(t[t.len() - 1] == pieces[i - 1]);
            if i == 1 {
                assert(out@ =~= pieces[0]);
            }
        }
    }
    assert(pieces.subrange(0, v@.len() as int) =~= pieces);
    out
}

/// The line under a robot's name in the fleet panel: its odometry key and
/// its GNSS keys, or a note that it has none yet.
pub open spec fn row_meta_text(r: FleetRobot) -> Seq<char> {
    let odom: Seq<Seq<char>> = if r.odom_key@.len() > 0 {
        seq!["odom: "@ + r.odom_key@]
    } else {
        Seq::empty()
    };
    let gnss: Seq<Seq<char>> = if r.gnss_keys@.len() > 0 {
        seq!["gnss: "@ + join(texts_of(r.gnss_keys@), ", "@)]
    } else {
        Seq::empty()
    };
    let parts = odom + gnss;
    if parts.len() == 0 {
        "No odom or gnss keys yet."@
    } else {
        join(parts, " | "@)
    }
}

pub fn robot_row_meta(robot: &FleetRobot) -> (r: String)
    ensures
        r@ == row_meta_text(*robot),
{
    let mut parts: Vec<String> = Vec::new();
    if robot.odom_key.unicode_len() > 0 {
        let mut p = String::from_str("odom: ");
        p.append(robot.odom_key.as_str());
        parts.push(p);
    }
    if robot.gnss_keys.len() > 0 {
        let mut p = String::from_str("gnss: ");
        let keys = join_texts(&robot.gnss_keys, ", ");
        p.append(keys.as_str());
        parts.push(p);
    }
    proof {
        let odom: Seq<Seq<char>> = if robot.odom_key@.len() > 0 {
            seq!["odom: "@ + robot.odom_key@]
        } else {
            Seq::empty()
        };
        let gnss: Seq<Seq<char>> = if robot.gnss_keys@.len() > 0 {
            seq!["gnss: "@ + join(texts_of(robot.gnss_keys@), ", "@)]
        } else {
            Seq::empty()
        };
        assert(texts_of(parts@) =~= odom + gnss);
    }
    if parts.len() == 0 {
        String::from_str("No odom or gnss keys yet.")
    } else {
        join_texts(&parts, " | ")
    }
}

/// Where the map can put a robot: at its GNSS fix, or (when the workspace
/// has a reference point) at its odometry position, in metres from that
/// point, or nowhere yet.
#[derive(Clone, Copy, Debug, PartialEq, Eq, Structural)]
pub enum RobotPlace {
    Fix(JsonPoint),
    Local(u64, u64),
    Unknown,
}

pub fn robot_place(workspace: &WorkspaceJson, robot: &FleetRobot) -> (r: RobotPlace)
    ensures
        r == match (robot.gnss_lat, robot.gnss_lon) {
            (Some(lat), Some(lon)) => RobotPlace::Fix(JsonPoint { lat, lon }),
            _ => match (workspace.ref_point, robot.odom_x, robot.odom_y) {
                (Some(_), Some(x), Some(y)) => RobotPlace::Local(x, y),
                _ => RobotPlace::Unknown,
            },
        },
{
    match (robot.gnss_lat, robot.gnss_lon) {
        (Some(lat), Some(lon)) => RobotPlace::Fix(JsonPoint { lat, lon }),
        _ => match (workspace.ref_point, robot.odom_x, robot.odom_y) {
            (Some(_), Some(x), Some(y)) => RobotPlace::Local(x, y),
            _ => RobotPlace::Unknown,
        },
    }
}

} // verus!
