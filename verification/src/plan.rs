//! Draw planning: turns a built pattern plus a styling policy into exact,
//! symbolic drawing steps. Every decision (colors, bends, collision lanes,
//! dashes, labels, markers) is made here; a caller resolves the symbolic
//! positions to pixels.

use vstd::prelude::*;

use crate::options::{CollisionOption, Color, Intersections, Lines, Marker, OverloadOptions, Point};
use crate::pattern::{count_point, Pattern};
use crate::pattern_utils::{ConnectionPoint, Coord};

verus! {

/// A symbolic planar position on a pattern: the point `num/den` of the way
/// from path point `a` to path point `b` (so `num == 0` is vertex `a`).
#[derive(Debug, Clone, Copy, PartialEq, Eq, Structural)]
pub struct PlanPos {
    pub a: usize,
    pub b: usize,
    pub num: u32,
    pub den: u32,
}

/// The position of path vertex `i`.
pub open spec fn spec_vertex(i: int) -> PlanPos {
    PlanPos { a: i as usize, b: i as usize, num: 0, den: 1 }
}

/// The position of path vertex `i`.
pub fn vertex(i: usize) -> (r: PlanPos)
    ensures
        r == spec_vertex(i as int),
{
    PlanPos { a: i, b: i, num: 0, den: 1 }
}

/// Fraction of a corner segment kept when a revisited corner is bent.
pub const BEND_NUM: u32 = 1;

/// Denominator of the corner bend fraction: corners are cut a fifth of the
/// segment short.
pub const BEND_DEN: u32 = 5;

/// One stop of a single-colored polyline plan: extend the line to `to`, or
/// lift the pen when `drawn` is false.
#[derive(Debug, Clone, Copy, PartialEq, Eq, Structural)]
pub struct MonoStop {
    pub to: PlanPos,
    pub drawn: bool,
}

/// The polyline stops for a single-colored pattern, over the first `n` path
/// points. The pen starts at vertex 0. With `bent` set, a vertex visited
/// more than once is approached only four fifths of the way and left one
/// fifth of the way into the next segment; the final vertex is also cut
/// short.
pub open spec fn spec_mono_stops(path: Seq<Coord>, bent: bool, n: int) -> Seq<MonoStop>
    decreases n,
{
    if n <= 0 {
        Seq::empty()
    } else {
        spec_mono_stops(path, bent, n - 1) + spec_mono_step(path, bent, n - 1)
    }
}

/// The polyline stops contributed by path point `i` alone.
pub open spec fn spec_mono_step(path: Seq<Coord>, bent: bool, i: int) -> Seq<MonoStop> {
    if bent && ((count_point(path, path[i]) > 1 && i != 0) || i == path.len() - 1) {
        let stop = MonoStop {
            to: PlanPos {
                a: (i - 1) as usize,
                b: i as usize,
                num: (BEND_DEN - BEND_NUM) as u32,
                den: BEND_DEN,
            },
            drawn: true,
        };
        if i != path.len() - 1 {
            seq![
                stop,
                MonoStop {
                    to: PlanPos { a: i as usize, b: (i + 1) as usize, num: BEND_NUM, den: BEND_DEN },
                    drawn: true,
                },
            ]
        } else {
            seq![stop]
        }
    } else {
        seq![MonoStop { to: spec_vertex(i), drawn: true }]
    }
}

/// How often `p` occurs in `path`.
fn count_point_exec(path: &Vec<Coord>, p: Coord) -> (r: usize)
    ensures
        r == count_point(path@, p),
{
    let mut count: usize = 0;
    let mut k: usize = 0;
    while k < path.len()
        invariant
            k <= path@.len(),
            count == count_point(path@.subrange(0, k as int), p),
            count <= k,
        decreases path@.len() - k,
    {
        proof {
            assert(path@.subrange(0, k + 1).drop_last() =~= path@.subrange(0, k as int));
        }
        if path[k] == p {
            count = count + 1;
        }
        k = k + 1;
    }
    proof {
        assert(path@.subrange(0, path@.len() as int) =~= path@);
    }
    count
}

/// Plans a single-colored pattern: the polyline stops of the whole path,
/// with corners bent where configured.
pub fn draw_monocolor_lines(pattern: &Pattern, bent_corners: bool) -> (r: Vec<MonoStop>)
    requires
        pattern.valid(),
    ensures
        r@ == spec_mono_stops(pattern.path@, bent_corners, pattern.path@.len() as int),
{
    let path = &pattern.path;
    let mut stops: Vec<MonoStop> = Vec::new();
    let mut i: usize = 0;
    while i < path.len()
        invariant
            pattern.valid(),
            path == &pattern.path,
            i <= path@.len(),
            stops@ == spec_mono_stops(path@, bent_corners, i as int),
        decreases path@.len() - i,
    {
        let visits = if bent_corners {
            count_point_exec(path, path[i])
        } else {
            0
        };
        if bent_corners && ((visits > 1 && i != 0) || i == path.len() - 1) {
            stops.push(
                MonoStop {
                    to: PlanPos { a: i - 1, b: i, num: (BEND_DEN - BEND_NUM) as u32, den: BEND_DEN },
                    drawn: true,
                },
            );
            if i != path.len() - 1 {
                stops.push(
                    MonoStop {
                        to: PlanPos { a: i, b: i + 1, num: BEND_NUM, den: BEND_DEN },
                        drawn: true,
                    },
                );
            }
        } else {
            stops.push(MonoStop { to: vertex(i), drawn: true });
        }
        proof {
            assert(stops@ =~= spec_mono_stops(path@, bent_corners, i as int) + spec_mono_step(
                path@,
                bent_corners,
                i as int,
            ));
        }
        i = i + 1;
    }
    stops
}

/// One edge of a gradient-colored pattern: the gradient stop index and the
/// exact fraction `num/den` of the way from that stop to the next, plus the
/// polyline stops of the edge (two when the corner ahead is bent).
#[derive(Debug, Clone, PartialEq, Eq)]
pub struct GradientStep {
    pub grad_seg: u64,
    pub num: u64,
    pub den: u64,
    pub stops: Vec<MonoStop>,
}

/// Number of gradient colors actually used on a path of `path_len` points:
/// one per `segments_per_color` edges, plus the two endpoints of the running
/// gradient segment, capped by the palette size.
pub open spec fn spec_grad_colors_used(color_count: int, path_len: int, segs_per_color: int) -> int {
    let wanted = path_len / segs_per_color + 2;
    if color_count <= wanted {
        color_count
    } else {
        wanted
    }
}

/// The gradient position of edge `i` (from path point `i - 1` to `i`):
/// progress `(i - 1) / (path_len - 1)` through `used - 1` gradient
/// segments, split into a whole segment index and an exact remainder.
pub open spec fn spec_grad_seg(i: int, path_len: int, used: int) -> (int, int, int) {
    let num = (i - 1) * (used - 1);
    let den = path_len - 1;
    (num / den, num % den, den)
}

/// Plans a gradient-colored pattern. Returns one step per path edge, in
/// path order; the caller shades edge `i` from the color at
/// `grad_seg + num/den` of the previous step to this step's. The palette
/// must have at least two colors (fewer degenerate to a single color, which
/// `draw_pattern` plans as monocolor).
pub fn draw_gradient_lines(
    pattern: &Pattern,
    color_count: usize,
    segs_per_color: usize,
    bent_corners: bool,
) -> (r: Vec<GradientStep>)
    requires
        pattern.valid(),
        color_count >= 2,
        segs_per_color >= 1,
    ensures
        gradient_plan_ok(
            r@,
            pattern.path@,
            color_count as int,
            segs_per_color as int,
            bent_corners,
        ),
{
    let path = &pattern.path;
    let used_wanted = path.len() / segs_per_color + 2;
    let used: usize = if color_count <= used_wanted {
        color_count
    } else {
        used_wanted
    };
    let den: u64 = path.len() as u64 - 1;
    let mut steps: Vec<GradientStep> = Vec::new();
    let mut i: usize = 1;
    while i < path.len()
        invariant
            pattern.valid(),
            path == &pattern.path,
            1 <= i <= path@.len(),
            path@.len() >= 2,
            segs_per_color >= 1,
            color_count >= 2,
            used == spec_grad_colors_used(
                color_count as int,
                path@.len() as int,
                segs_per_color as int,
            ),
            2 <= used <= path@.len() as int / segs_per_color as int + 2,
            den == path@.len() - 1,
            1 <= den,
            steps@.len() == i - 1,
            forall|j: int|
                0 <= j < steps@.len() ==> {
                    let (seg, num, dn) = spec_grad_seg(j + 1, path@.len() as int, used as int);
                    (#[trigger] steps@[j]).grad_seg == seg && steps@[j].num == num && steps@[j].den
                        == dn && steps@[j].stops@ == spec_gradient_stops(
                        path@,
                        bent_corners,
                        j + 1,
                    )
                },
        decreases path@.len() - i,
    {
        let ia: u64 = i as u64 - 1;
        let ub: u64 = used as u64 - 1;
        proof {
            assert(ia * ub <= 0x100002 * 0x100003) by (nonlinear_arith)
                requires
                    ia <= 0x100002,
                    ub <= 0x100003,
            ;
        }
        let num: u64 = ia * ub;
        let grad_seg: u64 = num / den;
        let rem: u64 = num % den;

        let mut stops: Vec<MonoStop> = Vec::new();
        let visits = if bent_corners {
            count_point_exec(path, path[i])
        } else {
            0
        };
        if bent_corners && visits > 1 && i != path.len() - 1 {
            stops.push(
                MonoStop {
                    to: PlanPos { a: i - 1, b: i, num: (BEND_DEN - BEND_NUM) as u32, den: BEND_DEN },
                    drawn: true,
                },
            );
            stops.push(
                MonoStop {
                    to: PlanPos { a: i, b: i + 1, num: BEND_NUM, den: BEND_DEN },
                    drawn: true,
                },
            );
        } else {
            stops.push(MonoStop { to: vertex(i), drawn: true });
        }
        proof {
            assert(stops@ =~= spec_gradient_stops(path@, bent_corners, i as int));
        }
        steps.push(GradientStep { grad_seg, num: rem, den, stops });
        i = i + 1;
    }
    steps
}

/// The polyline stops of gradient edge `i`: cut short and bridged when the
/// vertex ahead is revisited (except at the path's end).
pub open spec fn spec_gradient_stops(path: Seq<Coord>, bent: bool, i: int) -> Seq<MonoStop> {
    if bent && count_point(path, path[i]) > 1 && i != path.len() - 1 {
        seq![
            MonoStop {
                to: PlanPos {
                    a: (i - 1) as usize,
                    b: i as usize,
                    num: (BEND_DEN - BEND_NUM) as u32,
                    den: BEND_DEN,
                },
                drawn: true,
            },
            MonoStop {
                to: PlanPos { a: i as usize, b: (i + 1) as usize, num: BEND_NUM, den: BEND_DEN },
                drawn: true,
            },
        ]
    } else {
        seq![MonoStop { to: spec_vertex(i), drawn: true }]
    }
}


/// Whether the color index `c` occurs in a visited-color list.
pub open spec fn in_color_list(visited: Seq<usize>, c: int) -> bool {
    exists|m: int| 0 <= m < visited.len() && visited[m] == c
}

/// Whether color index `c` occurs in `visited`.
fn contains_color(visited: &Vec<usize>, c: usize) -> (r: bool)
    ensures
        r == in_color_list(visited@, c as int),
{
    let mut k: usize = 0;
    while k < visited.len()
        invariant
            k <= visited@.len(),
            forall|m: int| 0 <= m < k ==> visited@[m] != c,
        decreases visited@.len() - k,
    {
        if visited[k] == c {
            return true;
        }
        k = k + 1;
    }
    false
}

/// The lowest color index at `k` or beyond that is not in `visited`;
/// `fallback` when every index up to the palette size is taken.
pub open spec fn spec_scan_color(visited: Seq<usize>, cc: int, k: int, fallback: int) -> int
    decreases cc - k,
{
    if k >= cc {
        fallback
    } else if !in_color_list(visited, k) {
        k
    } else {
        spec_scan_color(visited, cc, k + 1, fallback)
    }
}

/// The color a segment-colored line switches to at a revisited vertex: the
/// lowest-indexed color not yet used at that vertex, or simply the next
/// color cyclically once every color has been used there.
pub open spec fn spec_next_color(cur: int, visited: Seq<usize>, cc: int) -> int {
    if visited.len() >= cc {
        (cur + 1) % cc
    } else {
        spec_scan_color(visited, cc, 0, cur)
    }
}

/// Picks the next color for a segment-colored line at a revisited vertex.
pub fn get_next_color(cur_color: usize, visited: &Vec<usize>, color_count: usize) -> (r: usize)
    requires
        1 <= color_count < 0x40000000,
        cur_color < color_count,
    ensures
        r as int == spec_next_color(cur_color as int, visited@, color_count as int),
        r < color_count,
{
    proof {
        lemma_scan_color_range(visited@, color_count as int, 0, cur_color as int);
    }
    if visited.len() >= color_count {
        (cur_color + 1) % color_count
    } else {
        let mut k: usize = 0;
        while k < color_count
            invariant
                k <= color_count,
                1 <= color_count < 0x40000000,
                cur_color < color_count,
                visited@.len() < color_count,
                spec_scan_color(visited@, color_count as int, 0, cur_color as int)
                    == spec_scan_color(visited@, color_count as int, k as int, cur_color as int),
            decreases color_count - k,
        {
            if !contains_color(visited, k) {
                proof {
                    assert(spec_scan_color(
                        visited@,
                        color_count as int,
                        k as int,
                        cur_color as int,
                    ) == k as int);
                }
                return k;
            }
            proof {
                assert(spec_scan_color(visited@, color_count as int, k as int, cur_color as int)
                    == spec_scan_color(
                    visited@,
                    color_count as int,
                    k as int + 1,
                    cur_color as int,
                ));
            }
            k = k + 1;
        }
        cur_color
    }
}

/// The color scan stays within the palette.
proof fn lemma_scan_color_range(visited: Seq<usize>, cc: int, k: int, fallback: int)
    requires
        0 <= fallback < cc,
        0 <= k,
    ensures
        0 <= spec_scan_color(visited, cc, k, fallback) < cc,
    decreases cc - k,
{
    if k < cc {
        lemma_scan_color_range(visited, cc, k + 1, fallback);
    }
}

/// The first unused lane index in `lanes`, or `fallback` when all are used.
pub open spec fn spec_first_free_lane(lanes: Seq<bool>, k: int, fallback: int) -> int
    decreases lanes.len() - k,
{
    if k < 0 || k >= lanes.len() {
        fallback
    } else if !lanes[k] {
        k
    } else {
        spec_first_free_lane(lanes, k + 1, fallback)
    }
}

/// Lane memory for colliding edges: which lanes each edge has used so far.
pub open spec fn lanes_wf(travelled: Seq<(ConnectionPoint, Seq<bool>)>) -> bool {
    forall|j1: int, j2: int|
        0 <= j1 < j2 < travelled.len() ==> (#[trigger] travelled[j1]).0 != (
        #[trigger] travelled[j2]).0
}

/// Index of edge `e` in the lane memory, if present.
fn find_lanes(travelled: &Vec<(ConnectionPoint, Vec<bool>)>, e: ConnectionPoint) -> (r: Option<
    usize,
>)
    ensures
        match r {
            Some(i) => 0 <= i < travelled@.len() && travelled@[i as int].0 == e,
            None => forall|m: int| 0 <= m < travelled@.len() ==> (#[trigger] travelled@[m]).0 != e,
        },
{
    let mut k: usize = 0;
    while k < travelled.len()
        invariant
            k <= travelled@.len(),
            forall|m: int| 0 <= m < k ==> (#[trigger] travelled@[m]).0 != e,
        decreases travelled@.len() - k,
    {
        if travelled[k].0 == e {
            return Some(k);
        }
        k = k + 1;
    }
    None
}

/// The lane the previous edge used, folded into this edge's lane count; the
/// starting preference of the round-robin assignment.
pub open spec fn spec_preferred_lane(last_collision_lane: Option<u32>, collisions: u32) -> int {
    (match last_collision_lane {
        Some(l) => l as int,
        None => 0int,
    }) % (collisions as int)
}

/// The lane one more traversal of an already-seen edge takes: the preferred
/// lane when this edge has not used it yet, else the lowest lane it has not
/// used, else the preferred lane again.
pub open spec fn spec_lane_pick(entry: Seq<bool>, pref: int) -> int {
    if 0 <= pref < entry.len() && !entry[pref] {
        pref
    } else {
        spec_first_free_lane(entry, 0, pref)
    }
}

/// Assigns a parallel lane for one more traversal of the colliding edge
/// `connection_point`: the first traversal of an edge takes the preferred
/// lane (the previous edge's lane, for visual continuity) and starts the
/// edge's lane memory; a later traversal keeps the preferred lane if the
/// edge has not used it, else takes the lowest unused lane; the chosen lane
/// is marked used.
pub fn add_lane(
    last_collision_lane: Option<u32>,
    collisions: u32,
    travelled_collisions: &mut Vec<(ConnectionPoint, Vec<bool>)>,
    connection_point: ConnectionPoint,
) -> (lane: u32)
    requires
        collisions >= 1,
        lanes_wf(old(travelled_collisions)@.map_values(
            |p: (ConnectionPoint, Vec<bool>)| (p.0, p.1@),
        )),
        forall|j: int|
            0 <= j < old(travelled_collisions)@.len() && (#[trigger] old(
                travelled_collisions,
            )@[j]).0 == connection_point ==> old(travelled_collisions)@[j].1@.len()
                == collisions,
    ensures
        lane < collisions,
        ({
            let t = final(travelled_collisions)@;
            let o = old(travelled_collisions)@;
            let pref = spec_preferred_lane(last_collision_lane, collisions);
            &&& lanes_wf(t.map_values(|p: (ConnectionPoint, Vec<bool>)| (p.0, p.1@)))
            &&& if exists|j: int| 0 <= j < o.len() && (#[trigger] o[j]).0 == connection_point {
                &&& t.len() == o.len()
                &&& forall|j: int|
                    0 <= j < o.len() ==> if (#[trigger] o[j]).0 == connection_point {
                        lane as int == spec_lane_pick(o[j].1@, pref) && t[j].0
                            == connection_point && t[j].1@ == o[j].1@.update(lane as int, true)
                    } else {
                        t[j] == o[j]
                    }
            } else {
                &&& t.len() == o.len() + 1
                &&& forall|j: int| 0 <= j < o.len() ==> #[trigger] t[j] == o[j]
                &&& lane as int == pref
                &&& t[o.len() as int].0 == connection_point
                &&& t[o.len() as int].1@.len() == collisions
                &&& t[o.len() as int].1@[lane as int]
                &&& forall|m: int|
                    0 <= m < collisions && m != lane ==> !(#[trigger] t[o.len() as int].1@[m])
            }
        }),
{
    let preferred_lane: u32 = match last_collision_lane {
        Some(l) => l,
        None => 0,
    };
    let lane: u32 = preferred_lane % collisions;
    match find_lanes(travelled_collisions, connection_point) {
        Some(i) => {
            let mut lane = lane;
            let ghost entry0 = travelled_collisions@[i as int].1@;
            if travelled_collisions[i].1[lane as usize] {
                let visited = &travelled_collisions[i].1;
                let ghost pref = lane as int;
                let mut j: usize = 0;
                let mut found: bool = false;
                while j < visited.len() && !found
                    invariant
                        j <= visited@.len(),
                        visited@.len() == collisions,
                        visited@ == entry0,
                        0 <= pref < collisions,
                        !found ==> lane as int == pref && spec_first_free_lane(entry0, 0, pref)
                            == spec_first_free_lane(entry0, j as int, pref),
                        found ==> lane < collisions && lane as int == spec_first_free_lane(
                            entry0,
                            0,
                            pref,
                        ),
                    decreases visited@.len() - j + (if found {
                        0int
                    } else {
                        1int
                    }),
                {
                    if !visited[j] {
                        lane = j as u32;
                        found = true;
                        proof {
                            assert(spec_first_free_lane(entry0, j as int, pref) == j as int);
                        }
                    } else {
                        proof {
                            assert(spec_first_free_lane(entry0, j as int, pref)
                                == spec_first_free_lane(entry0, j as int + 1, pref));
                        }
                        j = j + 1;
                    }
                }
                proof {
                    if !found {
                        assert(spec_first_free_lane(entry0, collisions as int, pref)
                            == pref as int);
                    }
                    assert(lane as int == spec_lane_pick(entry0, pref));
                }
            }
            let ghost old_t = travelled_collisions@;
            let mut entry = copy_lanes(&travelled_collisions[i].1);
            entry.set(lane as usize, true);
            let key = travelled_collisions[i].0;
            travelled_collisions.set(i, (key, entry));
            proof {
                lemma_lane_map_update(old_t, travelled_collisions@, i as int);
                assert(travelled_collisions@[i as int].1@ =~= entry0.update(lane as int, true));
                assert forall|j: int|
                    0 <= j < old_t.len() && j != i implies (#[trigger] old_t[j]).0
                    != connection_point by {
                    let m = old_t.map_values(|p: (ConnectionPoint, Vec<bool>)| (p.0, p.1@));
                    assert(m[j].0 == old_t[j].0);
                    assert(m[i as int].0 == old_t[i as int].0);
                }
            }
            lane
        },
        None => {
            let mut vec: Vec<bool> = Vec::new();
            let mut n: u32 = 0;
            while n < collisions
                invariant
                    n <= collisions,
                    vec@.len() == n,
                    forall|m: int| 0 <= m < n ==> !(#[trigger] vec@[m]),
                decreases collisions - n,
            {
                vec.push(false);
                n = n + 1;
            }
            let mut vec = vec;
            vec.set(lane as usize, true);
            let ghost old_t = travelled_collisions@;
            travelled_collisions.push((connection_point, vec));
            proof {
                lemma_lane_map_push(old_t, travelled_collisions@, connection_point);
            }
            lane
        },
    }
}

/// An element-for-element copy of one edge's lane memory.
fn copy_lanes(v: &Vec<bool>) -> (r: Vec<bool>)
    ensures
        r@ == v@,
{
    let mut out: Vec<bool> = Vec::new();
    let mut k: usize = 0;
    while k < v.len()
        invariant
            k <= v@.len(),
            out@ =~= v@.subrange(0, k as int),
        decreases v@.len() - k,
    {
        out.push(v[k]);
        proof {
            assert(out@ =~= v@.subrange(0, k + 1));
        }
        k = k + 1;
    }
    proof {
        assert(out@ =~= v@);
    }
    out
}

/// Updating one entry of the lane memory in place keeps its keys unique and
/// the other entries unchanged.
proof fn lemma_lane_map_update(
    old_t: Seq<(ConnectionPoint, Vec<bool>)>,
    new_t: Seq<(ConnectionPoint, Vec<bool>)>,
    i: int,
)
    requires
        0 <= i < old_t.len(),
        new_t.len() == old_t.len(),
        new_t[i].0 == old_t[i].0,
        new_t[i].1@.len() == old_t[i].1@.len(),
        forall|j: int| 0 <= j < old_t.len() && j != i ==> #[trigger] new_t[j] == old_t[j],
        lanes_wf(old_t.map_values(|p: (ConnectionPoint, Vec<bool>)| (p.0, p.1@))),
    ensures
        lanes_wf(new_t.map_values(|p: (ConnectionPoint, Vec<bool>)| (p.0, p.1@))),
{
    let m = new_t.map_values(|p: (ConnectionPoint, Vec<bool>)| (p.0, p.1@));
    let mo = old_t.map_values(|p: (ConnectionPoint, Vec<bool>)| (p.0, p.1@));
    assert forall|j1: int, j2: int| 0 <= j1 < j2 < m.len() implies (#[trigger] m[j1]).0 != (
    #[trigger] m[j2]).0 by {
        assert(mo[j1].0 == old_t[j1].0);
        assert(mo[j2].0 == old_t[j2].0);
        assert(m[j1].0 == new_t[j1].0);
        assert(m[j2].0 == new_t[j2].0);
    }
}

/// Appending a fresh key to the lane memory keeps its keys unique.
proof fn lemma_lane_map_push(
    old_t: Seq<(ConnectionPoint, Vec<bool>)>,
    new_t: Seq<(ConnectionPoint, Vec<bool>)>,
    key: ConnectionPoint,
)
    requires
        new_t.len() == old_t.len() + 1,
        new_t[new_t.len() - 1].0 == key,
        forall|j: int| 0 <= j < old_t.len() ==> #[trigger] new_t[j] == old_t[j],
        forall|j: int| 0 <= j < old_t.len() ==> (#[trigger] old_t[j]).0 != key,
        lanes_wf(old_t.map_values(|p: (ConnectionPoint, Vec<bool>)| (p.0, p.1@))),
    ensures
        lanes_wf(new_t.map_values(|p: (ConnectionPoint, Vec<bool>)| (p.0, p.1@))),
{
    let m = new_t.map_values(|p: (ConnectionPoint, Vec<bool>)| (p.0, p.1@));
    let mo = old_t.map_values(|p: (ConnectionPoint, Vec<bool>)| (p.0, p.1@));
    assert forall|j1: int, j2: int| 0 <= j1 < j2 < m.len() implies (#[trigger] m[j1]).0 != (
    #[trigger] m[j2]).0 by {
        if j2 < old_t.len() {
            assert(mo[j1].0 == old_t[j1].0);
            assert(mo[j2].0 == old_t[j2].0);
        } else {
            assert(m[j2].0 == key);
            assert(m[j1].0 == old_t[j1].0);
        }
        assert(m[j1].0 == new_t[j1].0);
        assert(m[j2].0 == new_t[j2].0);
    }
}


/// A collision policy, decoded: whether every colliding edge is dashed in a
/// fixed color, whether extra traversals are dashed in the segment's own
/// color, how many parallel lanes are allowed, the dash color, and the
/// optional count label.
#[derive(Debug, Clone, Copy, PartialEq, Eq, Structural)]
pub struct CollisionPolicy {
    pub full_dash: bool,
    pub stripes: bool,
    pub too_many: u32,
    pub bad_color: Color,
    pub label: Option<Marker>,
}

/// The decoded form of a collision option.
pub open spec fn spec_policy(c: CollisionOption) -> CollisionPolicy {
    match c {
        CollisionOption::Dashes(color) => CollisionPolicy {
            full_dash: true,
            stripes: false,
            too_many: u32::MAX,
            bad_color: color,
            label: None,
        },
        CollisionOption::MatchedDashes => CollisionPolicy {
            full_dash: false,
            stripes: true,
            too_many: 1,
            bad_color: Color { r: 255, g: 255, b: 255, a: 255 },
            label: None,
        },
        CollisionOption::ParallelLines => CollisionPolicy {
            full_dash: false,
            stripes: false,
            too_many: u32::MAX,
            bad_color: Color { r: 255, g: 255, b: 255, a: 255 },
            label: None,
        },
        CollisionOption::OverloadedParallel { max_line, overload } => {
            let tm = if max_line < 1 {
                1u32
            } else if max_line > u32::MAX as usize {
                u32::MAX
            } else {
                max_line as u32
            };
            match overload {
                OverloadOptions::Dashes(color) => CollisionPolicy {
                    full_dash: false,
                    stripes: false,
                    too_many: tm,
                    bad_color: color,
                    label: None,
                },
                OverloadOptions::LabeledDashes { color, label } => CollisionPolicy {
                    full_dash: false,
                    stripes: false,
                    too_many: tm,
                    bad_color: color,
                    label: Some(label),
                },
                OverloadOptions::MatchedDashes => CollisionPolicy {
                    full_dash: false,
                    stripes: true,
                    too_many: tm,
                    bad_color: Color { r: 255, g: 255, b: 255, a: 255 },
                    label: None,
                },
            }
        },
    }
}

/// Decodes a collision option.
pub fn decode_policy(c: &CollisionOption) -> (r: CollisionPolicy)
    ensures
        r == spec_policy(*c),
        r.too_many >= 1,
{
    match c {
        CollisionOption::Dashes(color) => CollisionPolicy {
            full_dash: true,
            stripes: false,
            too_many: u32::MAX,
            bad_color: *color,
            label: None,
        },
        CollisionOption::MatchedDashes => CollisionPolicy {
            full_dash: false,
            stripes: true,
            too_many: 1,
            bad_color: Color { r: 255, g: 255, b: 255, a: 255 },
            label: None,
        },
        CollisionOption::ParallelLines => CollisionPolicy {
            full_dash: false,
            stripes: false,
            too_many: u32::MAX,
            bad_color: Color { r: 255, g: 255, b: 255, a: 255 },
            label: None,
        },
        CollisionOption::OverloadedParallel { max_line, overload } => {
            let tm: u32 = if *max_line < 1 {
                1
            } else if *max_line > u32::MAX as usize {
                u32::MAX
            } else {
                *max_line as u32
            };
            match overload {
                OverloadOptions::Dashes(color) => CollisionPolicy {
                    full_dash: false,
                    stripes: false,
                    too_many: tm,
                    bad_color: *color,
                    label: None,
                },
                OverloadOptions::LabeledDashes { color, label } => CollisionPolicy {
                    full_dash: false,
                    stripes: false,
                    too_many: tm,
                    bad_color: *color,
                    label: Some(*label),
                },
                OverloadOptions::MatchedDashes => CollisionPolicy {
                    full_dash: false,
                    stripes: true,
                    too_many: tm,
                    bad_color: Color { r: 255, g: 255, b: 255, a: 255 },
                    label: None,
                },
            }
        },
    }
}

/// The normalized edge entered at path point `i`.
pub open spec fn spec_step_edge(path: Seq<Coord>, i: int) -> ConnectionPoint {
    crate::pattern_utils::spec_edge(path[i - 1], path[i])
}

/// Total traversals of edge `e` when it collides (is traversed more than
/// once over the whole walk), and zero otherwise.
pub open spec fn spec_coll_edge(path: Seq<Coord>, e: ConnectionPoint) -> int {
    let t = crate::pattern::edge_traversals(path, e) as int;
    if t >= 2 {
        t
    } else {
        0
    }
}

/// Total traversals of step `i`'s edge when it collides (is traversed more
/// than once over the whole walk), and zero otherwise; zero for step 0.
pub open spec fn spec_coll(path: Seq<Coord>, i: int) -> int {
    if i < 1 {
        0
    } else {
        spec_coll_edge(path, spec_step_edge(path, i))
    }
}

/// How many times step `i`'s edge was already traversed before step `i`.
pub open spec fn spec_ord(path: Seq<Coord>, i: int) -> int {
    if i < 1 {
        0
    } else {
        crate::pattern::edge_traversals(path.subrange(0, i), spec_step_edge(path, i)) as int
    }
}

/// Traversal count clamped to the lane limit.
pub open spec fn spec_clamp(coll: int, tm: int) -> int {
    if coll > tm {
        tm
    } else {
        coll
    }
}

/// Extra traversals of one colliding edge drawn in the segment's own color
/// as short dash strokes.
#[derive(Debug, Clone, Copy, PartialEq, Eq, Structural)]
pub struct StripeStep {
    /// Which traversal of the edge this is (0-based).
    pub visited_count: u32,
    /// Total traversals of the edge.
    pub lanes: u32,
    /// Whether this first traversal also draws the lead-in stub.
    pub lead_in: bool,
    /// Color index of the stripe.
    pub color: usize,
    /// Whether the stripe runs against the edge's first traversal direction.
    pub flipped: bool,
}

/// A dashed overlay drawn over a colliding edge, on the top layer.
#[derive(Debug, Clone, Copy, PartialEq, Eq)]
pub struct OverlayStep {
    pub color: Color,
    /// Count label beside the edge: marker and the total traversal count.
    pub label: Option<(Marker, u32)>,
}

/// A color switch at the midpoint of a drawn edge.
#[derive(Debug, Clone, Copy, PartialEq, Eq, Structural)]
pub struct SegmentSplit {
    pub new_color: usize,
    /// Decoration queued at the split point, already color-resolved.
    pub triangle: Option<crate::options::Point>,
}

/// Everything decided for one path point of a segment-colored line.
#[derive(Debug, Clone, Copy, PartialEq, Eq)]
pub struct SegmentStep {
    /// Color index in effect when the step begins.
    pub color: usize,
    /// Color index in effect after the step.
    pub color_after: usize,
    /// Parallel lane for a colliding edge: `(lane, lanes)`.
    pub lane: Option<(u32, u32)>,
    /// Whether the edge's main stroke is drawn (pen down) or skipped.
    pub drawn: bool,
    pub split: Option<SegmentSplit>,
    pub stripe: Option<StripeStep>,
    pub overlay: Option<OverlayStep>,
}


/// Index of the first vertex-entry keyed by `c`, or the length if none.
pub open spec fn spec_find_coord_idx(keys: Seq<Coord>, c: Coord) -> int
    decreases keys.len(),
{
    if keys.len() == 0 {
        0
    } else if keys[0] == c {
        0
    } else {
        1 + spec_find_coord_idx(keys.drop_first(), c)
    }
}

/// A key first found at `i` has first-index `i`; an absent key has the
/// list's length.
proof fn lemma_find_coord_idx(keys: Seq<Coord>, c: Coord, i: int)
    requires
        0 <= i <= keys.len(),
        forall|m: int| 0 <= m < i ==> keys[m] != c,
        i < keys.len() ==> keys[i] == c,
    ensures
        spec_find_coord_idx(keys, c) == if i < keys.len() {
            i
        } else {
            keys.len() as int
        },
    decreases i,
{
    if i > 0 {
        lemma_find_coord_idx(keys.drop_first(), c, i - 1);
    }
}

/// Index of the first lane-memory entry keyed by `e`, or the length if none.
pub open spec fn spec_find_lane_idx(lanes: Seq<(ConnectionPoint, Seq<bool>)>, e: ConnectionPoint) -> int
    decreases lanes.len(),
{
    if lanes.len() == 0 {
        0
    } else if lanes[0].0 == e {
        0
    } else {
        1 + spec_find_lane_idx(lanes.drop_first(), e)
    }
}

/// A key first found at `i` has first-index `i`; an absent key has the
/// list's length.
proof fn lemma_find_lane_idx(lanes: Seq<(ConnectionPoint, Seq<bool>)>, e: ConnectionPoint, i: int)
    requires
        0 <= i <= lanes.len(),
        forall|m: int| 0 <= m < i ==> (#[trigger] lanes[m]).0 != e,
        i < lanes.len() ==> lanes[i].0 == e,
    ensures
        spec_find_lane_idx(lanes, e) == if i < lanes.len() {
            i
        } else {
            lanes.len() as int
        },
    decreases i,
{
    if i > 0 {
        lemma_find_lane_idx(lanes.drop_first(), e, i - 1);
    }
}

/// The walking state of the segment planner before one path point is
/// handled: per vertex the colors already departed from it (keys and values
/// in the planner's own renewal order), per colliding edge its lane memory,
/// the previous edge's lane, and the current color index.
pub ghost struct SegState {
    pub vkeys: Seq<Coord>,
    pub vvals: Seq<Seq<usize>>,
    pub lanes: Seq<(ConnectionPoint, Seq<bool>)>,
    pub last_lane: Option<u32>,
    pub cur: int,
}

/// The state before any path point is handled.
pub open spec fn seg_init() -> SegState {
    SegState {
        vkeys: Seq::empty(),
        vvals: Seq::empty(),
        lanes: Seq::empty(),
        last_lane: None,
        cur: 0,
    }
}

/// The colors already departed from `path[i]` in state `st`.
pub open spec fn seg_entry(st: SegState, path: Seq<Coord>, i: int) -> Seq<usize> {
    let vj = spec_find_coord_idx(st.vkeys, path[i]);
    if vj < st.vkeys.len() {
        st.vvals[vj]
    } else {
        Seq::empty()
    }
}

/// Whether step `i` draws its main stroke.
pub open spec fn seg_drawn(path: Seq<Coord>, pol: CollisionPolicy, i: int) -> bool {
    let coll = spec_coll(path, i);
    let ord = spec_ord(path, i);
    !(pol.full_dash && ord > 0) && ord < pol.too_many && !(pol.stripes && coll >= pol.too_many)
}

/// The parallel lane step `i` takes, when it takes one.
pub open spec fn seg_lane(st: SegState, path: Seq<Coord>, pol: CollisionPolicy, i: int) -> int {
    let coll = spec_coll(path, i);
    let clamp = spec_clamp(coll, pol.too_many as int);
    let e = spec_step_edge(path, i);
    let pref = (match st.last_lane {
        Some(l) => l as int,
        None => 0int,
    }) % clamp;
    let j = spec_find_lane_idx(st.lanes, e);
    if j < st.lanes.len() {
        spec_lane_pick(st.lanes[j].1, pref)
    } else {
        pref
    }
}

/// The color in effect after step `i`, from the color it began with.
pub open spec fn seg_cur_after(st: SegState, path: Seq<Coord>, cc: int, pol: CollisionPolicy, i: int) -> int {
    let entry = seg_entry(st, path, i);
    let coll = spec_coll(path, i);
    let cur1 = if seg_drawn(path, pol, i) && in_color_list(entry, st.cur) {
        spec_next_color(st.cur, entry, cc)
    } else {
        st.cur
    };
    if i >= 1 && pol.stripes && coll >= pol.too_many && in_color_list(entry, cur1) {
        spec_next_color(cur1, entry, cc)
    } else {
        cur1
    }
}

/// Handles path point `i`: assigns and remembers a lane for a colliding
/// edge, switches color at a revisited vertex (and once more in the stripe
/// branch), and marks the final color as departed from this vertex.
pub open spec fn seg_step(st: SegState, path: Seq<Coord>, cc: int, pol: CollisionPolicy, i: int) -> SegState {
    let coll = spec_coll(path, i);
    let e = spec_step_edge(path, i);
    let (lanes1, last1) = if i >= 1 && coll != 0 && !pol.full_dash {
        let clamp = spec_clamp(coll, pol.too_many as int);
        let lane = seg_lane(st, path, pol, i);
        let j = spec_find_lane_idx(st.lanes, e);
        if j < st.lanes.len() {
            (st.lanes.update(j, (e, st.lanes[j].1.update(lane, true))), Some(lane as u32))
        } else {
            (st.lanes.push((e, Seq::new(clamp as nat, |m: int| m == lane))), Some(lane as u32))
        }
    } else {
        (st.lanes, None::<u32>)
    };
    let entry = seg_entry(st, path, i);
    let cur2 = seg_cur_after(st, path, cc, pol, i);
    let vj = spec_find_coord_idx(st.vkeys, path[i]);
    let (vkeys1, vvals1) = if vj < st.vkeys.len() {
        (st.vkeys.remove(vj), st.vvals.remove(vj))
    } else {
        (st.vkeys, st.vvals)
    };
    let entry2 = if entry.len() != cc {
        entry.push(cur2 as usize)
    } else {
        entry
    };
    SegState {
        vkeys: vkeys1.push(path[i]),
        vvals: vvals1.push(entry2),
        lanes: lanes1,
        last_lane: last1,
        cur: cur2,
    }
}

/// The planner's state before path point `n` is handled.
pub open spec fn seg_fold(path: Seq<Coord>, cc: int, pol: CollisionPolicy, n: int) -> SegState
    decreases n,
{
    if n <= 0 {
        seg_init()
    } else {
        seg_step(seg_fold(path, cc, pol, n - 1), path, cc, pol, n - 1)
    }
}

/// The exact per-step clauses of a segment plan: the color chain, the split
/// (exactly when the vertex has already departed in the current color), the
/// chosen color and the chosen lane all equal the walk of `seg_fold`.
pub open spec fn segment_step_exact(
    st: SegmentStep,
    path: Seq<Coord>,
    cc: int,
    pol: CollisionPolicy,
    i: int,
) -> bool {
    let fs = seg_fold(path, cc, pol, i);
    let entry = seg_entry(fs, path, i);
    &&& st.color == fs.cur
    &&& st.color_after == seg_cur_after(fs, path, cc, pol, i)
    &&& (st.split is Some <==> seg_drawn(path, pol, i) && in_color_list(entry, fs.cur))
    &&& (st.split matches Some(sp) ==> sp.new_color as int == spec_next_color(fs.cur, entry, cc))
    &&& (st.lane matches Some(l) ==> l.0 as int == seg_lane(fs, path, pol, i))
    &&& (st.stripe matches Some(sp) ==> sp.color as int == seg_cur_after(fs, path, cc, pol, i))
}

/// What every step of a segment plan satisfies; `prev_after` is the color
/// index in effect when the step begins.
pub open spec fn segment_step_ok(
    st: SegmentStep,
    prev_after: int,
    path: Seq<Coord>,
    i: int,
    color_count: int,
    colors: Seq<Color>,
    triangles: crate::options::Triangle,
    pol: CollisionPolicy,
) -> bool {
    let coll = spec_coll(path, i);
    let ord = spec_ord(path, i);
    let clamp = spec_clamp(coll, pol.too_many as int);
    &&& st.color < color_count
    &&& st.color_after < color_count
    &&& st.color == prev_after
    &&& (st.lane is Some <==> i >= 1 && coll != 0 && !pol.full_dash)
    &&& (st.lane matches Some(l) ==> l.1 == clamp && l.0 < l.1)
    &&& st.drawn == (!(pol.full_dash && ord > 0) && ord < pol.too_many && !(pol.stripes && coll
        >= pol.too_many))
    &&& (st.split is Some ==> st.drawn)
    &&& (st.split matches Some(sp) ==> sp.new_color < color_count && st.color_after
        == sp.new_color && sp.triangle == triangles.spec_to_middle_point(colors[st.color as int]))
    &&& (st.stripe is Some <==> i >= 1 && pol.stripes && coll >= pol.too_many)
    &&& (st.stripe matches Some(sp) ==> sp.visited_count == ord && sp.lanes == coll && sp.lead_in
        == (ord == 0) && sp.color == st.color_after && (ord == 0 ==> !sp.flipped))
    &&& (st.overlay is Some <==> i >= 1 && (pol.full_dash && coll > 0 || coll >= pol.too_many)
        && ord == 0 && !(pol.stripes && coll >= pol.too_many))
    &&& (st.overlay matches Some(ov) ==> ov.color == pol.bad_color && ov.label == (if coll
        >= pol.too_many && !pol.full_dash {
        match pol.label {
            Some(m) => Some((m, coll as u32)),
            None => None,
        }
    } else {
        None
    }))
    &&& (st.split is None && st.stripe is None ==> st.color_after == st.color)
}


/// A traversal at step `i` is not counted among the traversals before `i`.
proof fn lemma_prefix_traversals(path: Seq<Coord>, e: ConnectionPoint, i: int)
    requires
        1 <= i < path.len(),
        spec_step_edge(path, i) == e,
    ensures
        crate::pattern::edge_traversals(path.subrange(0, i), e) < crate::pattern::edge_traversals(
            path,
            e,
        ),
    decreases path.len(),
{
    if i == path.len() - 1 {
        assert(path.drop_last() =~= path.subrange(0, i));
    } else {
        lemma_prefix_traversals(path.drop_last(), e, i);
        assert(path.drop_last().subrange(0, i) =~= path.subrange(0, i));
    }
}

/// Index of edge `e` among the keys of the traversal memory, if present.
fn find_visited(visited: &Vec<(ConnectionPoint, (u32, Coord))>, e: ConnectionPoint) -> (r: Option<
    usize,
>)
    ensures
        match r {
            Some(i) => 0 <= i < visited@.len() && visited@[i as int].0 == e,
            None => forall|m: int| 0 <= m < visited@.len() ==> (#[trigger] visited@[m]).0 != e,
        },
{
    let mut k: usize = 0;
    while k < visited.len()
        invariant
            k <= visited@.len(),
            forall|m: int| 0 <= m < k ==> (#[trigger] visited@[m]).0 != e,
        decreases visited@.len() - k,
    {
        if visited[k].0 == e {
            return Some(k);
        }
        k = k + 1;
    }
    None
}

/// Index of the first occurrence of point `p` among a list of keys.
fn find_coord(keys: &Vec<Coord>, p: Coord) -> (r: Option<usize>)
    ensures
        match r {
            Some(i) => 0 <= i < keys@.len() && keys@[i as int] == p && (forall|m: int|
                0 <= m < i ==> keys@[m] != p),
            None => forall|m: int| 0 <= m < keys@.len() ==> keys@[m] != p,
        },
{
    let mut k: usize = 0;
    while k < keys.len()
        invariant
            k <= keys@.len(),
            forall|m: int| 0 <= m < k ==> keys@[m] != p,
        decreases keys@.len() - k,
    {
        if keys[k] == p {
            return Some(k);
        }
        k = k + 1;
    }
    None
}

/// The full plan for a segment-colored pattern.
#[derive(Debug, Clone, PartialEq, Eq)]
pub struct SegmentPlan {
    /// One step per path point, in path order.
    pub steps: Vec<SegmentStep>,
    /// Decoration on the first segment, already color-resolved.
    pub start_triangle: Option<crate::options::Point>,
    /// The color the line ends with, for end markers.
    pub end_color: Color,
}



/// What a gradient plan promises for every edge.
pub open spec fn gradient_plan_ok(
    steps: Seq<GradientStep>,
    path: Seq<Coord>,
    color_count: int,
    segs_per_color: int,
    bent: bool,
) -> bool {
    &&& steps.len() == path.len() - 1
    &&& forall|i: int|
        0 <= i < steps.len() ==> {
            let used = spec_grad_colors_used(color_count, path.len() as int, segs_per_color);
            let (seg, num, den) = spec_grad_seg(i + 1, path.len() as int, used);
            (#[trigger] steps[i]).grad_seg == seg && steps[i].num == num && steps[i].den == den
                && steps[i].stops@ == spec_gradient_stops(path, bent, i + 1)
        }
}

/// What a segment plan promises: one well-formed step per path point, the
/// color chain starting at color 0, the start decoration, and the end color.
pub open spec fn segment_plan_ok(
    plan: SegmentPlan,
    path: Seq<Coord>,
    colors: Seq<Color>,
    triangles: crate::options::Triangle,
    pol: CollisionPolicy,
) -> bool {
    &&& plan.steps@.len() == path.len()
    &&& forall|i: int|
        0 <= i < plan.steps@.len() ==> segment_step_ok(
            #[trigger] plan.steps@[i],
            if i == 0 {
                0int
            } else {
                plan.steps@[i - 1].color_after as int
            },
            path,
            i,
            colors.len() as int,
            colors,
            triangles,
            pol,
        )
    &&& forall|i: int|
        0 <= i < plan.steps@.len() ==> segment_step_exact(
            #[trigger] plan.steps@[i],
            path,
            colors.len() as int,
            pol,
            i,
        )
    &&& plan.steps@[0].color == 0
    &&& plan.start_triangle == triangles.spec_to_start_point(colors[0])
    &&& plan.end_color == if pol.full_dash && spec_coll(path, path.len() - 1) != 0 {
        pol.bad_color
    } else {
        colors[plan.steps@[path.len() - 1].color_after as int]
    }
}


/// Assigns and remembers the lane of one colliding traversal, carrying the
/// planner's ghost state: the lane equals `seg_lane` of the state, and the
/// memory advances to `seg_step`'s.
fn assign_lane(
    last_collision_lane: Option<u32>,
    clamp: u32,
    travelled: &mut Vec<(ConnectionPoint, Vec<bool>)>,
    e: ConnectionPoint,
    Ghost(path): Ghost<Seq<Coord>>,
    Ghost(cc): Ghost<int>,
    Ghost(pol): Ghost<CollisionPolicy>,
    Ghost(i): Ghost<int>,
    Ghost(fs): Ghost<SegState>,
) -> (lane: u32)
    requires
        1 <= i < path.len(),
        pol.too_many >= 1,
        !pol.full_dash,
        spec_coll(path, i) != 0,
        clamp as int == spec_clamp(spec_coll(path, i), pol.too_many as int),
        clamp >= 1,
        e == spec_step_edge(path, i),
        fs.last_lane == last_collision_lane,
        fs.lanes == old(travelled)@.map_values(|p: (ConnectionPoint, Vec<bool>)| (p.0, p.1@)),
        lanes_wf(old(travelled)@.map_values(|p: (ConnectionPoint, Vec<bool>)| (p.0, p.1@))),
        forall|j: int|
            0 <= j < old(travelled)@.len() ==> (#[trigger] old(travelled)@[j]).1@.len()
                == spec_clamp(spec_coll_edge(path, old(travelled)@[j].0), pol.too_many as int),
    ensures
        lane < clamp,
        lane as int == seg_lane(fs, path, pol, i),
        final(travelled)@.map_values(|p: (ConnectionPoint, Vec<bool>)| (p.0, p.1@)) == seg_step(
            fs,
            path,
            cc,
            pol,
            i,
        ).lanes,
        Some(lane) == seg_step(fs, path, cc, pol, i).last_lane,
        lanes_wf(final(travelled)@.map_values(|p: (ConnectionPoint, Vec<bool>)| (p.0, p.1@))),
        forall|j: int|
            0 <= j < final(travelled)@.len() ==> (#[trigger] final(travelled)@[j]).1@.len()
                == spec_clamp(spec_coll_edge(path, final(travelled)@[j].0), pol.too_many as int),
{
    let ghost trav0 = travelled@;
    let lane = add_lane(last_collision_lane, clamp, travelled, e);
    proof {
        assert(clamp as int == spec_clamp(spec_coll_edge(path, e), pol.too_many as int));
        let m0 = trav0.map_values(|p: (ConnectionPoint, Vec<bool>)| (p.0, p.1@));
        let m1 = travelled@.map_values(|p: (ConnectionPoint, Vec<bool>)| (p.0, p.1@));
        assert(m0 == fs.lanes);
        if exists|j0: int| 0 <= j0 < trav0.len() && (#[trigger] trav0[j0]).0 == e {
            let jj = choose|j0: int| 0 <= j0 < trav0.len() && (#[trigger] trav0[j0]).0 == e;
            assert forall|m: int| 0 <= m < jj implies (#[trigger] m0[m]).0 != e by {
                assert(m0[m].0 == trav0[m].0);
                assert(m0[jj].0 == trav0[jj].0);
            }
            assert(m0[jj].0 == e);
            lemma_find_lane_idx(m0, e, jj);
            assert(m0[jj].1 == trav0[jj].1@);
            assert(lane as int == spec_lane_pick(trav0[jj].1@, spec_preferred_lane(
                last_collision_lane,
                clamp,
            )));
            assert(lane as int == seg_lane(fs, path, pol, i));
            assert(m1 =~= fs.lanes.update(jj, (e, fs.lanes[jj].1.update(lane as int, true))));
        } else {
            assert forall|m: int| 0 <= m < m0.len() implies (#[trigger] m0[m]).0 != e by {
                assert(m0[m].0 == trav0[m].0);
            }
            lemma_find_lane_idx(m0, e, m0.len() as int);
            assert(lane as int == spec_preferred_lane(last_collision_lane, clamp));
            assert(lane as int == seg_lane(fs, path, pol, i));
            assert(m1[m1.len() - 1].1 =~= Seq::new(clamp as nat, |m: int| m == lane as int));
            assert(m1 =~= fs.lanes.push((e, Seq::new(clamp as nat, |m: int| m == lane as int))));
        }
        assert forall|j: int| 0 <= j < travelled@.len() implies (
        #[trigger] travelled@[j]).1@.len() == spec_clamp(
            spec_coll_edge(path, travelled@[j].0),
            pol.too_many as int,
        ) by {
            if exists|j0: int| 0 <= j0 < trav0.len() && (#[trigger] trav0[j0]).0 == e {
                if trav0[j].0 == e {
                    assert(travelled@[j].1@ == trav0[j].1@.update(lane as int, true));
                } else {
                    assert(travelled@[j] == trav0[j]);
                }
            } else {
                if j < trav0.len() {
                    assert(travelled@[j] == trav0[j]);
                } else {
                    assert(travelled@[j].0 == e);
                }
            }
        }
    }
    lane
}

/// Plans a segment-colored pattern: walks the path point by point, keeping
/// for each vertex the colors already used there and for each colliding
/// edge its lane memory, and decides for every step its color, parallel
/// lane, splits, stripes and dashed overlays (`segment_step_ok` says
/// exactly what each step satisfies).
#[verifier::rlimit(100)]
pub fn draw_segment_lines(
    pattern: &Pattern,
    colors: &Vec<Color>,
    triangles: &crate::options::Triangle,
    collisions: &CollisionOption,
) -> (r: SegmentPlan)
    requires
        pattern.valid(),
        1 <= colors@.len() < 0x40000000,
    ensures
        segment_plan_ok(r, pattern.path@, colors@, *triangles, spec_policy(*collisions)),
{
    let path = &pattern.path;
    let pol = decode_policy(collisions);
    let ghost gpol = spec_policy(*collisions);

    let mut steps: Vec<SegmentStep> = Vec::new();
    let mut cur_color: usize = 0;
    let mut last_collision_lane: Option<u32> = None;
    let mut travelled: Vec<(ConnectionPoint, Vec<bool>)> = Vec::new();
    let mut visited: Vec<(ConnectionPoint, (u32, Coord))> = Vec::new();
    let mut vp_keys: Vec<Coord> = Vec::new();
    let mut vp_vals: Vec<Vec<usize>> = Vec::new();
    let mut ended_on_collision = false;

    let mut i: usize = 0;
    while i < path.len()
        invariant
            pattern.valid(),
            path == &pattern.path,
            1 <= colors@.len() < 0x40000000,
            pol == gpol,
            gpol == spec_policy(*collisions),
            pol.too_many >= 1,
            i <= path@.len(),
            steps@.len() == i,
            cur_color < colors@.len(),
            i == 0 ==> cur_color == 0,
            i > 0 ==> cur_color == steps@[i - 1].color_after,
            i > 0 ==> steps@[0].color == 0,
            cur_color as int == seg_fold(path@, colors@.len() as int, gpol, i as int).cur,
            vp_keys@ == seg_fold(path@, colors@.len() as int, gpol, i as int).vkeys,
            vp_vals@.map_values(|v: Vec<usize>| v@) == seg_fold(
                path@,
                colors@.len() as int,
                gpol,
                i as int,
            ).vvals,
            travelled@.map_values(|p: (ConnectionPoint, Vec<bool>)| (p.0, p.1@)) == seg_fold(
                path@,
                colors@.len() as int,
                gpol,
                i as int,
            ).lanes,
            last_collision_lane == seg_fold(path@, colors@.len() as int, gpol, i as int).last_lane,
            forall|k: int|
                0 <= k < i ==> segment_step_exact(
                    #[trigger] steps@[k],
                    path@,
                    colors@.len() as int,
                    gpol,
                    k,
                ),
            ended_on_collision == (i > 0 && pol.full_dash && spec_coll(path@, i - 1) != 0),
            forall|k: int|
                0 <= k < i ==> segment_step_ok(
                    #[trigger] steps@[k],
                    if k == 0 {
                        0int
                    } else {
                        steps@[k - 1].color_after as int
                    },
                    path@,
                    k,
                    colors@.len() as int,
                    colors@,
                    *triangles,
                    gpol,
                ),
            vp_keys@.len() == vp_vals@.len(),
            lanes_wf(travelled@.map_values(|p: (ConnectionPoint, Vec<bool>)| (p.0, p.1@))),
            forall|j: int|
                0 <= j < travelled@.len() ==> (#[trigger] travelled@[j]).1@.len() == spec_clamp(
                    spec_coll_edge(path@, travelled@[j].0),
                    pol.too_many as int,
                ),
            forall|j1: int, j2: int|
                0 <= j1 < j2 < visited@.len() ==> (#[trigger] visited@[j1]).0 != (
                #[trigger] visited@[j2]).0,
            forall|j: int|
                0 <= j < visited@.len() ==> (#[trigger] visited@[j]).1.0 as int
                    == crate::pattern::edge_traversals(path@.subrange(0, i as int), visited@[j].0)
                    && visited@[j].1.0 >= 1 && spec_coll_edge(path@, visited@[j].0) != 0,
            forall|e: ConnectionPoint|
                #[trigger] crate::pattern::edge_traversals(path@.subrange(0, i as int), e) >= 1
                    && spec_coll_edge(path@, e) != 0 ==> exists|j: int|
                    0 <= j < visited@.len() && (#[trigger] visited@[j]).0 == e,
        decreases path@.len() - i,
    {
        let step_color = cur_color;
        let ghost pre = path@.subrange(0, i as int);
        let ghost post = path@.subrange(0, i as int + 1);
        let ghost cc = colors@.len() as int;
        let ghost fs = seg_fold(path@, cc, gpol, i as int);

        let e: ConnectionPoint;
        let coll: u32;
        if i == 0 {
            e = ConnectionPoint::new(path[0], path[0]);
            coll = 0;
        } else {
            e = ConnectionPoint::new(path[i], path[i - 1]);
            proof {
                crate::pattern_utils::lemma_edge_symmetric(path@[i as int], path@[i - 1]);
                crate::pattern::lemma_traversals_bound(path@, e);
            }
            let cc = pattern.collision_count(e);
            coll = if cc > 0 {
                cc + 1
            } else {
                0
            };
        }
        proof {
            if i >= 1 {
                assert(e == spec_step_edge(path@, i as int));
                assert(coll as int == spec_coll(path@, i as int));
            }
        }

        let ord: u32;
        let coll_start: Coord;
        match find_visited(&visited, e) {
            Some(j) => {
                ord = visited[j].1.0;
                coll_start = visited[j].1.1;
            },
            None => {
                ord = 0;
                coll_start = path[i];
            },
        }
        proof {
            if i >= 1 {
                lemma_prefix_traversals(path@, e, i as int);
                if coll != 0 {
                    assert(ord as int == spec_ord(path@, i as int));
                } else {
                    assert(crate::pattern::edge_traversals(path@, e) <= 1);
                    assert(crate::pattern::edge_traversals(pre, e) == 0);
                    assert(ord as int == spec_ord(path@, i as int));
                }
            }
        }

        // Parallel lane assignment for a colliding edge.
        let mut step_lane: Option<(u32, u32)> = None;
        if i >= 1 && coll != 0 && !pol.full_dash {
            let clamp: u32 = if coll > pol.too_many {
                pol.too_many
            } else {
                coll
            };
            let lane = assign_lane(
                last_collision_lane,
                clamp,
                &mut travelled,
                e,
                Ghost(path@),
                Ghost(cc),
                Ghost(gpol),
                Ghost(i as int),
                Ghost(fs),
            );
            last_collision_lane = Some(lane);
            step_lane = Some((lane, clamp));
        } else {
            last_collision_lane = None;
        }

        let not_draw_red = pol.full_dash && ord > 0;
        let not_draw_lines = ord >= pol.too_many;
        let not_draw_stripes = pol.stripes && coll >= pol.too_many;
        let drawn = !not_draw_red && !not_draw_lines && !not_draw_stripes;
        proof {
            assert(drawn == seg_drawn(path@, gpol, i as int));
        }

        // Colors already used at this vertex.
        let ghost vk0 = vp_keys@;
        let ghost vv0 = vp_vals@.map_values(|v: Vec<usize>| v@);
        let mut vcolors: Vec<usize>;
        match find_coord(&vp_keys, path[i]) {
            Some(j) => {
                proof {
                    lemma_find_coord_idx(vk0, path@[i as int], j as int);
                }
                let _ = vp_keys.remove(j);
                vcolors = vp_vals.remove(j);
                proof {
                    assert(vcolors@ == seg_entry(fs, path@, i as int));
                    assert(vp_keys@ =~= fs.vkeys.remove(j as int));
                    assert(vp_vals@.map_values(|v: Vec<usize>| v@) =~= fs.vvals.remove(j as int));
                }
            },
            None => {
                vcolors = Vec::new();
                proof {
                    lemma_find_coord_idx(vk0, path@[i as int], vk0.len() as int);
                    assert(vcolors@ =~= seg_entry(fs, path@, i as int));
                }
            },
        }

        // Split the edge at its midpoint when this vertex has already used
        // the current color.
        let mut split: Option<SegmentSplit> = None;
        if drawn && contains_color(&vcolors, cur_color) {
            let triangle = triangles.to_middle_point(colors[cur_color]);
            let new_color = get_next_color(cur_color, &vcolors, colors.len());
            split = Some(SegmentSplit { new_color, triangle });
            cur_color = new_color;
        }

        // Matched-dash stripes once the lane limit is passed.
        let mut stripe: Option<StripeStep> = None;
        if i >= 1 && pol.stripes && coll >= pol.too_many {
            if contains_color(&vcolors, cur_color) {
                cur_color = get_next_color(cur_color, &vcolors, colors.len());
            }
            proof {
                assert(crate::pattern::step_at(path@, i as int));
            }
            let flipped = coll_start == path[i - 1];
            stripe = Some(
                StripeStep {
                    visited_count: ord,
                    lanes: coll,
                    lead_in: ord == 0,
                    color: cur_color,
                    flipped,
                },
            );
        }

        proof {
            assert(cur_color as int == seg_cur_after(fs, path@, cc, gpol, i as int));
        }

        // Dashed overlay (and optional count label) on the top layer.
        let mut overlay: Option<OverlayStep> = None;
        if i >= 1 && (pol.full_dash && coll > 0 || coll >= pol.too_many) && ord == 0 && !(
        pol.stripes && coll >= pol.too_many) {
            let label: Option<(Marker, u32)> = if coll >= pol.too_many && !pol.full_dash {
                match pol.label {
                    Some(m) => Some((m, coll)),
                    None => None,
                }
            } else {
                None
            };
            overlay = Some(OverlayStep { color: pol.bad_color, label });
        }

        ended_on_collision = i >= 1 && pol.full_dash && coll != 0;

        // Remember this traversal.
        let ghost visited0 = visited@;
        if i >= 1 && coll != 0 {
            match find_visited(&visited, e) {
                Some(j) => {
                    let cnt = visited[j].1.0;
                    let start = visited[j].1.1;
                    proof {
                        crate::pattern::lemma_traversals_bound(pre, e);
                    }
                    visited.set(j, (e, (cnt + 1, start)));
                    proof {
                        assert(visited@[j as int].0 == e);
                        assert(exists|m: int|
                            0 <= m < visited@.len() && (#[trigger] visited@[m]).0 == e);
                    }
                },
                None => {
                    visited.push((e, (1, coll_start)));
                    proof {
                        assert(visited@[visited@.len() - 1].0 == e);
                        assert(exists|m: int|
                            0 <= m < visited@.len() && (#[trigger] visited@[m]).0 == e);
                    }
                },
            }
        }
        proof {
            assert(post.drop_last() =~= pre);
            assert forall|e2: ConnectionPoint|
                #[trigger] crate::pattern::edge_traversals(post, e2) == crate::pattern::edge_traversals(
                    pre,
                    e2,
                ) + if i >= 1 && spec_step_edge(path@, i as int) == e2 {
                    1int
                } else {
                    0int
                } by {
                if i >= 1 {
                    assert(post[post.len() - 2] == path@[i - 1]);
                    assert(post[post.len() - 1] == path@[i as int]);
                } else {
                    assert(post.len() < 2);
                }
            }
            if i >= 1 && coll != 0 {
                assert forall|e2: ConnectionPoint|
                    #[trigger] crate::pattern::edge_traversals(post, e2) >= 1 && spec_coll_edge(
                        path@,
                        e2,
                    ) != 0 implies exists|j: int|
                    0 <= j < visited@.len() && (#[trigger] visited@[j]).0 == e2 by {
                    if e2 == e {
                        assert(exists|j: int|
                            0 <= j < visited@.len() && (#[trigger] visited@[j]).0 == e);
                    } else {
                        let j0 = choose|j: int|
                            0 <= j < visited0.len() && (#[trigger] visited0[j]).0 == e2;
                        assert(visited@[j0].0 == e2);
                    }
                }
            } else {
                assert forall|e2: ConnectionPoint|
                    #[trigger] crate::pattern::edge_traversals(post, e2) >= 1 && spec_coll_edge(
                        path@,
                        e2,
                    ) != 0 implies exists|j: int|
                    0 <= j < visited@.len() && (#[trigger] visited@[j]).0 == e2 by {
                    if i >= 1 && e2 == e {
                        assert(spec_coll_edge(path@, e2) == 0);
                    } else {
                        let j0 = choose|j: int|
                            0 <= j < visited0.len() && (#[trigger] visited0[j]).0 == e2;
                        assert(visited@[j0].0 == e2);
                    }
                }
            }
        }

        // Mark the current color as used at this vertex.
        let ghost entry0 = vcolors@;
        if vcolors.len() != colors.len() {
            vcolors.push(cur_color);
        }
        vp_keys.push(path[i]);
        vp_vals.push(vcolors);
        proof {
            let nxt = seg_step(fs, path@, cc, gpol, i as int);
            assert(seg_fold(path@, cc, gpol, i as int + 1) == nxt);
            assert(vp_keys@ =~= nxt.vkeys);
            assert(vp_vals@.map_values(|v: Vec<usize>| v@) =~= nxt.vvals);
            assert(travelled@.map_values(|p: (ConnectionPoint, Vec<bool>)| (p.0, p.1@))
                == nxt.lanes);
            assert(last_collision_lane == nxt.last_lane);
            assert(cur_color as int == nxt.cur);
        }

        let step = SegmentStep {
            color: step_color,
            color_after: cur_color,
            lane: step_lane,
            drawn,
            split,
            stripe,
            overlay,
        };
        steps.push(step);
        proof {
            assert(segment_step_exact(step, path@, cc, gpol, i as int));
            assert(segment_step_ok(
                step,
                if i == 0 {
                    0int
                } else {
                    steps@[i - 1].color_after as int
                },
                path@,
                i as int,
                colors@.len() as int,
                colors@,
                *triangles,
                gpol,
            ));
        }
        i = i + 1;
    }

    let start_triangle = triangles.to_start_point(colors[0]);
    let end_color = if ended_on_collision {
        pol.bad_color
    } else {
        colors[cur_color]
    };
    SegmentPlan { steps, start_triangle, end_color }
}


/// The points of `points` (first `n` of them) that are neither the start
/// nor the end vertex.
pub open spec fn spec_middles(points: Seq<Coord>, s: Coord, e: Coord, n: int) -> Seq<Coord>
    decreases n,
{
    if n <= 0 {
        Seq::empty()
    } else {
        spec_middles(points, s, e, n - 1) + if points[n - 1] != s && points[n - 1] != e {
            seq![points[n - 1]]
        } else {
            Seq::empty()
        }
    }
}

/// The markers drawn at a pattern's vertices: for `UniformPoints` the same
/// marker everywhere; for `EndsAndMiddle` the start vertex in the start
/// marker resolved against `start_color`, the end vertex (when distinct) in
/// the end marker resolved against `end_color`, and every other vertex in
/// the middle marker.
pub open spec fn spec_points_plan(
    path: Seq<Coord>,
    points: Seq<Coord>,
    opts: Intersections,
    start_color: Color,
    end_color: Color,
) -> Seq<(Coord, Point)> {
    match opts {
        Intersections::Nothing => Seq::empty(),
        Intersections::UniformPoints(pt) => points.map_values(|c: Coord| (c, pt)),
        Intersections::EndsAndMiddle { start, end, middle } => {
            let s = path[0];
            let e = path[path.len() - 1];
            let head = seq![(s, start.spec_into_point(start_color))];
            let tail = if e != s {
                seq![(e, end.spec_into_point(end_color))]
            } else {
                Seq::<(Coord, Point)>::empty()
            };
            head + tail + spec_middles(points, s, e, points.len() as int).map_values(
                |c: Coord| (c, middle),
            )
        },
    }
}

/// Builds the vertex-marker list (`spec_points_plan`).
fn plan_points(
    pattern: &Pattern,
    opts: &Intersections,
    start_color: Color,
    end_color: Color,
) -> (r: Vec<(Coord, Point)>)
    requires
        pattern.valid(),
    ensures
        r@ == spec_points_plan(
            pattern.path@,
            pattern.points@,
            *opts,
            start_color,
            end_color,
        ),
{
    let path = &pattern.path;
    let points = &pattern.points;
    match opts {
        Intersections::Nothing => Vec::new(),
        Intersections::UniformPoints(pt) => {
            let mut out: Vec<(Coord, Point)> = Vec::new();
            let mut k: usize = 0;
            while k < points.len()
                invariant
                    k <= points@.len(),
                    out@ =~= points@.subrange(0, k as int).map_values(|c: Coord| (c, *pt)),
                decreases points@.len() - k,
            {
                out.push((points[k], *pt));
                proof {
                    assert(points@.subrange(0, k + 1).drop_last() =~= points@.subrange(
                        0,
                        k as int,
                    ));
                    assert(out@ =~= points@.subrange(0, k + 1).map_values(|c: Coord| (c, *pt)));
                }
                k = k + 1;
            }
            proof {
                assert(points@.subrange(0, points@.len() as int) =~= points@);
            }
            out
        },
        Intersections::EndsAndMiddle { start, end, middle } => {
            let s = path[0];
            let e = path[path.len() - 1];
            let mut out: Vec<(Coord, Point)> = Vec::new();
            out.push((s, start.into_point(start_color)));
            if e != s {
                out.push((e, end.into_point(end_color)));
            }
            let ghost base = out@;
            let mut k: usize = 0;
            while k < points.len()
                invariant
                    k <= points@.len(),
                    out@ =~= base + spec_middles(points@, s, e, k as int).map_values(
                        |c: Coord| (c, *middle),
                    ),
                decreases points@.len() - k,
            {
                let p = points[k];
                if p != s && p != e {
                    out.push((p, *middle));
                }
                proof {
                    assert(out@ =~= base + spec_middles(points@, s, e, k as int + 1).map_values(
                        |c: Coord| (c, *middle),
                    ));
                }
                k = k + 1;
            }
            proof {
                assert(out@ =~= spec_points_plan(path@, points@, *opts, start_color, end_color));
            }
            out
        },
    }
}

/// Minimum doubled planar x over the first `n` path points.
pub open spec fn spec_px2_min(path: Seq<Coord>, n: int) -> int
    decreases n,
{
    if n <= 1 {
        path[0].planar_x2()
    } else {
        let rest = spec_px2_min(path, n - 1);
        let cur = path[n - 1].planar_x2();
        if cur < rest {
            cur
        } else {
            rest
        }
    }
}

/// Maximum doubled planar x over the first `n` path points.
pub open spec fn spec_px2_max(path: Seq<Coord>, n: int) -> int
    decreases n,
{
    if n <= 1 {
        path[0].planar_x2()
    } else {
        let rest = spec_px2_max(path, n - 1);
        let cur = path[n - 1].planar_x2();
        if cur > rest {
            cur
        } else {
            rest
        }
    }
}

/// Rounding of `sy / 2` to the nearest integer, halves away from zero.
pub open spec fn spec_round_half(sy: int) -> int {
    if sy >= 0 {
        (sy + 1) / 2
    } else {
        -((-sy + 1) / 2)
    }
}

/// Truncating division of `t` by four (toward zero).
pub open spec fn spec_div4_trunc(t: int) -> int {
    if t >= 0 {
        t / 4
    } else {
        -((-t) / 4)
    }
}

/// Where a pattern's free center dot lands, if anywhere: the planar centroid
/// of the bounding box, rounded to a lattice point; it is drawn only when
/// that point is not a path vertex and lies strictly inside the pattern's
/// silhouette on its row.
pub open spec fn spec_center_dot(p: Pattern) -> Option<Coord> {
    let path = p.path@;
    let mn = spec_px2_min(path, path.len() as int);
    let mx = spec_px2_max(path, path.len() as int);
    let yc = spec_round_half(p.top_left.1 + p.bottom_right.1);
    let xc = spec_div4_trunc(mn + mx - 2 * yc);
    let c = Coord(xc as i32, yc as i32);
    if p.top_left.1 <= yc <= p.bottom_right.1 && !p.points@.contains(c)
        && p.left_perimiter@[yc - p.top_left.1].0 < xc && xc < p.right_perimiter@[yc
        - p.top_left.1].0 {
        Some(c)
    } else {
        None
    }
}


/// Computes `spec_center_dot` for a built pattern.
fn center_dot_coord(pattern: &Pattern) -> (r: Option<Coord>)
    requires
        pattern.valid(),
    ensures
        r == spec_center_dot(*pattern),
{
    let path = &pattern.path;
    let mut mn: i64 = 2 * (path[0].0 as i64) + path[0].1 as i64;
    let mut mx: i64 = mn;
    let mut k: usize = 1;
    while k < path.len()
        invariant
            pattern.valid(),
            path == &pattern.path,
            1 <= k <= path@.len(),
            mn == spec_px2_min(path@, k as int),
            mx == spec_px2_max(path@, k as int),
            -0x3000000 <= mn <= 0x3000000,
            -0x3000000 <= mx <= 0x3000000,
        decreases path@.len() - k,
    {
        let cur: i64 = 2 * (path[k].0 as i64) + path[k].1 as i64;
        if cur < mn {
            mn = cur;
        }
        if cur > mx {
            mx = cur;
        }
        k = k + 1;
    }
    let sy: i64 = pattern.top_left.1 as i64 + pattern.bottom_right.1 as i64;
    let yc: i64 = if sy >= 0 {
        (((sy + 1) as u64) / 2) as i64
    } else {
        -((((-sy + 1) as u64) / 2) as i64)
    };
    let t: i64 = mn + mx - 2 * yc;
    let xc: i64 = if t >= 0 {
        ((t as u64) / 4) as i64
    } else {
        -(((-t) as u64 / 4) as i64)
    };
    let c = Coord(xc as i32, yc as i32);
    if !(pattern.top_left.1 as i64 <= yc && yc <= pattern.bottom_right.1 as i64) {
        return None;
    }
    let mut contained = false;
    let mut m: usize = 0;
    while m < pattern.points.len()
        invariant
            m <= pattern.points@.len(),
            contained <==> exists|j: int| 0 <= j < m && pattern.points@[j] == c,
        decreases pattern.points@.len() - m,
    {
        if pattern.points[m] == c {
            contained = true;
        }
        m = m + 1;
    }
    if contained {
        proof {
            assert(pattern.points@.contains(c));
        }
        return None;
    }
    proof {
        assert(!pattern.points@.contains(c));
    }
    let idx: usize = (yc as i32 - pattern.top_left.1) as usize;
    if pattern.left_perimiter[idx].0 < xc as i32 && (xc as i32) < pattern.right_perimiter[idx].0 {
        Some(c)
    } else {
        None
    }
}

/// The line part of a full pattern plan.
#[derive(Debug, Clone, PartialEq, Eq)]
pub enum LinesPlan {
    /// One polyline in one color.
    Monocolor { color: Color, stops: Vec<MonoStop> },
    /// One shaded polyline; `used` is how many palette colors take part.
    Gradient { steps: Vec<GradientStep>, used: usize },
    /// Per-step colored segments with collision handling.
    Segments(SegmentPlan),
}

/// Everything to draw for one placed pattern: the line plan, the resolved
/// start and end colors, the vertex markers and the optional center dot.
#[derive(Debug, Clone, PartialEq, Eq)]
pub struct PatternPlan {
    pub lines: LinesPlan,
    /// The color the line starts with, for start markers.
    pub start_color: Color,
    /// The color the line finishes with, for end markers.
    pub end_color: Color,
    pub points: Vec<(Coord, Point)>,
    pub center_dot: Option<(Coord, Point)>,
}

/// A line style the renderer accepts: a gradient needs a positive
/// segments-per-color once it really shades (two colors or more), and
/// segment coloring needs at least one color.
pub open spec fn lines_wf(l: Lines) -> bool {
    match l {
        Lines::Monocolor { .. } => true,
        Lines::Gradient { colors, segments_per_color, .. } => colors@.len() >= 2
            ==> segments_per_color >= 1,
        Lines::SegmentColors { colors, .. } => 1 <= colors@.len() < 0x40000000,
    }
}


impl Pattern {
    /// Plans everything for one pattern under one resolved style: the line
    /// plan for the configured coloring (a gradient of fewer than two
    /// colors degenerates to a single color), the resolved start and end
    /// colors, the vertex markers, and the optional center dot.
    pub fn draw_pattern(
        &self,
        line_options: &Lines,
        point_options: &Intersections,
        center_dot: &Point,
    ) -> (r: PatternPlan)
        requires
            self.valid(),
            lines_wf(*line_options),
        ensures
            (*line_options matches Lines::Monocolor { color, bent } ==> r.lines matches
                LinesPlan::Monocolor { color: c2, stops } && c2 == color && stops@
                == spec_mono_stops(self.path@, bent, self.path@.len() as int) && r.start_color
                == color && r.end_color == color),
            (*line_options matches Lines::Gradient { colors, segments_per_color, bent } ==> {
                if colors@.len() < 2 {
                    let col = if colors@.len() == 0 {
                        Color { r: 255, g: 255, b: 255, a: 255 }
                    } else {
                        colors@[0]
                    };
                    r.lines matches LinesPlan::Monocolor { color: c2, stops } && c2 == col
                        && stops@ == spec_mono_stops(self.path@, bent, self.path@.len() as int)
                        && r.start_color == col && r.end_color == col
                } else {
                    let used = spec_grad_colors_used(
                        colors@.len() as int,
                        self.path@.len() as int,
                        segments_per_color as int,
                    );
                    r.lines matches LinesPlan::Gradient { steps, used: u2 } && gradient_plan_ok(
                        steps@,
                        self.path@,
                        colors@.len() as int,
                        segments_per_color as int,
                        bent,
                    ) && u2 == used && r.start_color == colors@[0] && r.end_color == colors@[used
                        - 1]
                }
            }),
            (*line_options matches Lines::SegmentColors { colors, triangles, collisions } ==> (
            r.lines matches LinesPlan::Segments(plan) && segment_plan_ok(
                plan,
                self.path@,
                colors@,
                triangles,
                spec_policy(collisions),
            ) && r.start_color == colors@[0] && r.end_color == plan.end_color)),
            r.points@ == spec_points_plan(
                self.path@,
                self.points@,
                *point_options,
                r.start_color,
                r.end_color,
            ),
            r.center_dot == match spec_center_dot(*self) {
                Some(c) => Some((c, *center_dot)),
                None => None,
            },
    {
        let lines: LinesPlan;
        let start_color: Color;
        let end_color: Color;
        match line_options {
            Lines::Monocolor { color, bent } => {
                lines = LinesPlan::Monocolor {
                    color: *color,
                    stops: draw_monocolor_lines(self, *bent),
                };
                start_color = *color;
                end_color = *color;
            },
            Lines::Gradient { colors, segments_per_color, bent } => {
                if colors.len() < 2 {
                    let col = if colors.len() == 0 {
                        Color { r: 255, g: 255, b: 255, a: 255 }
                    } else {
                        colors[0]
                    };
                    lines = LinesPlan::Monocolor {
                        color: col,
                        stops: draw_monocolor_lines(self, *bent),
                    };
                    start_color = col;
                    end_color = col;
                } else {
                    let wanted = self.path.len() / *segments_per_color + 2;
                    let used: usize = if colors.len() <= wanted {
                        colors.len()
                    } else {
                        wanted
                    };
                    lines = LinesPlan::Gradient {
                        steps: draw_gradient_lines(self, colors.len(), *segments_per_color, *bent),
                        used,
                    };
                    start_color = colors[0];
                    end_color = colors[used - 1];
                }
            },
            Lines::SegmentColors { colors, triangles, collisions } => {
                let plan = draw_segment_lines(self, colors, triangles, collisions);
                start_color = colors[0];
                end_color = plan.end_color;
                lines = LinesPlan::Segments(plan);
            },
        }
        let points = plan_points(self, point_options, start_color, end_color);
        let dot = match center_dot_coord(self) {
            Some(c) => Some((c, *center_dot)),
            None => None,
        };
        PatternPlan { lines, start_color, end_color, points, center_dot: dot }
    }
}


/// Whether two line styles agree, palettes compared by their contents.
pub open spec fn lines_eq(a: Lines, b: Lines) -> bool {
    match (a, b) {
        (Lines::Monocolor { color: c1, bent: b1 }, Lines::Monocolor { color: c2, bent: b2 }) => c1
            == c2 && b1 == b2,
        (
            Lines::Gradient { colors: cs1, segments_per_color: s1, bent: b1 },
            Lines::Gradient { colors: cs2, segments_per_color: s2, bent: b2 },
        ) => cs1@ == cs2@ && s1 == s2 && b1 == b2,
        (
            Lines::SegmentColors { colors: cs1, triangles: t1, collisions: k1 },
            Lines::SegmentColors { colors: cs2, triangles: t2, collisions: k2 },
        ) => cs1@ == cs2@ && t1 == t2 && k1 == k2,
        _ => false,
    }
}

/// The style a pattern variant is actually drawn with: a `Normal` pattern
/// keeps the grid's pair, a `Monocolor` pattern is flattened to one line in
/// the pair's first color (white for an empty palette) and to the pair's
/// middle marker at every vertex.
pub open spec fn spec_resolved_style(
    variant: crate::pattern::PatternVariant,
    inter: Intersections,
    line: Lines,
) -> (Intersections, Lines) {
    match variant {
        crate::pattern::PatternVariant::Normal(_) => (inter, line),
        crate::pattern::PatternVariant::Monocolor(_) => {
            let first = match line {
                Lines::Monocolor { color, .. } => color,
                Lines::Gradient { colors, .. } => if colors@.len() == 0 {
                    Color { r: 255, g: 255, b: 255, a: 255 }
                } else {
                    colors@[0]
                },
                Lines::SegmentColors { colors, .. } => if colors@.len() == 0 {
                    Color { r: 255, g: 255, b: 255, a: 255 }
                } else {
                    colors@[0]
                },
            };
            let flat = match inter {
                Intersections::Nothing => Intersections::Nothing,
                Intersections::UniformPoints(p) => Intersections::UniformPoints(p),
                Intersections::EndsAndMiddle { middle, .. } => Intersections::UniformPoints(
                    middle,
                ),
            };
            (flat, Lines::Monocolor { color: first, bent: false })
        },
    }
}

/// An element-for-element copy of a palette.
fn clone_colors(v: &Vec<Color>) -> (r: Vec<Color>)
    ensures
        r@ == v@,
{
    let mut out: Vec<Color> = Vec::new();
    let mut k: usize = 0;
    while k < v.len()
        invariant
            k <= v@.len(),
            out@ =~= v@.subrange(0, k as int),
        decreases v@.len() - k,
    {
        out.push(v[k]);
        proof {
            assert(out@ =~= v@.subrange(0, k + 1));
        }
        k = k + 1;
    }
    proof {
        assert(out@ =~= v@);
    }
    out
}

/// Resolves the style one pattern variant is drawn with
/// (`spec_resolved_style`).
pub fn resolved_style(
    variant: &crate::pattern::PatternVariant,
    inter: &Intersections,
    line: &Lines,
) -> (r: (Intersections, Lines))
    ensures
        r.0 == spec_resolved_style(*variant, *inter, *line).0,
        lines_eq(r.1, spec_resolved_style(*variant, *inter, *line).1),
{
    match variant {
        crate::pattern::PatternVariant::Normal(_) => {
            let copy = match line {
                Lines::Monocolor { color, bent } => Lines::Monocolor {
                    color: *color,
                    bent: *bent,
                },
                Lines::Gradient { colors, segments_per_color, bent } => Lines::Gradient {
                    colors: clone_colors(colors),
                    segments_per_color: *segments_per_color,
                    bent: *bent,
                },
                Lines::SegmentColors { colors, triangles, collisions } => Lines::SegmentColors {
                    colors: clone_colors(colors),
                    triangles: *triangles,
                    collisions: *collisions,
                },
            };
            proof {
                assert(lines_eq(copy, *line));
            }
            (*inter, copy)
        },
        crate::pattern::PatternVariant::Monocolor(_) => {
            let first = match line {
                Lines::Monocolor { color, .. } => *color,
                Lines::Gradient { colors, .. } => {
                    if colors.len() == 0 {
                        Color { r: 255, g: 255, b: 255, a: 255 }
                    } else {
                        colors[0]
                    }
                },
                Lines::SegmentColors { colors, .. } => {
                    if colors.len() == 0 {
                        Color { r: 255, g: 255, b: 255, a: 255 }
                    } else {
                        colors[0]
                    }
                },
            };
            let flat = match inter {
                Intersections::Nothing => Intersections::Nothing,
                Intersections::UniformPoints(p) => Intersections::UniformPoints(*p),
                Intersections::EndsAndMiddle { middle, .. } => Intersections::UniformPoints(
                    *middle,
                ),
            };
            (flat, Lines::Monocolor { color: first, bent: false })
        },
    }
}

} // verus!
