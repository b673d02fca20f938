//! Pattern geometry: building the lattice path of a pattern from its start
//! direction and turn sequence, with bounding box, per-row silhouette,
//! deduplicated vertex list and edge-collision counts.

use vstd::prelude::*;

use crate::pattern_utils::{spec_edge, Angle, ConnectionPoint, Coord, Direction};
use crate::MAX_PATTERN_STEPS;

verus! {

/// Heading in effect for the k-th edge of a path that starts out along
/// `start` and then applies `turns` one by one.
pub open spec fn spec_heading(start: Direction, turns: Seq<Angle>, k: int) -> Direction
    decreases k,
{
    if k <= 0 {
        start
    } else {
        Direction::spec_from_index(
            (spec_heading(start, turns, k - 1).as_int() + turns[k - 1].as_int()) % 6,
        )
    }
}

/// The k-th point (as a pair of unbounded integers) of the path generated by
/// `start` and `turns`: point 0 is the origin, and point k+1 is point k moved
/// one step along the heading for edge k.
pub open spec fn spec_path_point(start: Direction, turns: Seq<Angle>, k: int) -> (int, int)
    decreases k,
{
    if k <= 0 {
        (0, 0)
    } else {
        let prev = spec_path_point(start, turns, k - 1);
        let h = spec_heading(start, turns, k - 1);
        (prev.0 + h.spec_dx(), prev.1 + h.spec_dy())
    }
}

/// Every heading is recovered from its own cyclic index.
pub proof fn lemma_dir_from_as_int(d: Direction)
    ensures
        Direction::spec_from_index(d.as_int()) == d,
{
}

/// Path points stay within `k` lattice steps of the origin on both axes.
pub proof fn lemma_path_point_bounds(start: Direction, turns: Seq<Angle>, k: int)
    requires
        0 <= k,
    ensures
        -k <= spec_path_point(start, turns, k).0 <= k,
        -k <= spec_path_point(start, turns, k).1 <= k,
    decreases k,
{
    if k > 0 {
        lemma_path_point_bounds(start, turns, k - 1);
    }
}

/// Whether `b` is exactly one lattice move away from `a`.
pub open spec fn is_step(a: Coord, b: Coord) -> bool {
    let dx = b.0 - a.0;
    let dy = b.1 - a.1;
    (dx == 1 && dy == 0) || (dx == -1 && dy == 0) || (dx == 0 && dy == 1) || (dx == 0 && dy == -1)
        || (dx == 1 && dy == -1) || (dx == -1 && dy == 1)
}

/// Whether the walk makes a unit step at position `k`.
pub open spec fn step_at(path: Seq<Coord>, k: int) -> bool {
    is_step(path[k - 1], path[k])
}

/// Whether a sequence of lattice points is a connected unit-step walk.
pub open spec fn connected_path(path: Seq<Coord>) -> bool {
    forall|k: int| 1 <= k < path.len() ==> #[trigger] step_at(path, k)
}

/// Builds the lattice path for a start direction and turn sequence.
fn build_path(rotation: Direction, links: &Vec<Angle>) -> (path: Vec<Coord>)
    requires
        links@.len() <= MAX_PATTERN_STEPS,
    ensures
        path@.len() == links@.len() + 2,
        forall|k: int|
            0 <= k < path@.len() ==> ((#[trigger] path@[k]).0 as int, path@[k].1 as int)
                == spec_path_point(rotation, links@, k),
{
    let mut path: Vec<Coord> = Vec::new();
    let origin = Coord(0, 0);
    path.push(origin);
    let mut heading = rotation;
    proof {
        lemma_dir_from_as_int(rotation);
    }
    let first = origin.offset(heading);
    path.push(first);
    proof {
        assert(spec_path_point(rotation, links@, 0) == (0int, 0int));
        assert(spec_heading(rotation, links@, 0) == rotation);
        assert(spec_path_point(rotation, links@, 1) == (
            0 + rotation.spec_dx(),
            0 + rotation.spec_dy(),
        ));
    }

    let mut j: usize = 0;
    while j < links.len()
        invariant
            j <= links@.len(),
            links@.len() <= MAX_PATTERN_STEPS,
            path@.len() == j + 2,
            heading == spec_heading(rotation, links@, j as int),
            forall|k: int|
                0 <= k < path@.len() ==> ((#[trigger] path@[k]).0 as int, path@[k].1 as int)
                    == spec_path_point(rotation, links@, k),
        decreases links@.len() - j,
    {
        heading = heading.turned(links[j]);
        proof {
            lemma_dir_from_as_int(heading);
            lemma_path_point_bounds(rotation, links@, j as int + 1);
        }
        let last = path[path.len() - 1];
        let next = last.offset(heading);
        path.push(next);
        proof {
            assert(spec_path_point(rotation, links@, j + 2) == (
                spec_path_point(rotation, links@, j + 1).0 + spec_heading(
                    rotation,
                    links@,
                    j + 1,
                ).spec_dx(),
                spec_path_point(rotation, links@, j + 1).1 + spec_heading(
                    rotation,
                    links@,
                    j + 1,
                ).spec_dy(),
            ));
        }
        j = j + 1;
    }
    path
}

/// Componentwise bounding box of a non-empty point list: both corners bound
/// every point and each corner coordinate is attained by some point.
fn compute_bbox(path: &Vec<Coord>) -> (r: (Coord, Coord))
    requires
        path@.len() >= 1,
    ensures
        forall|k: int|
            0 <= k < path@.len() ==> r.0.0 <= (#[trigger] path@[k]).0 <= r.1.0 && r.0.1
                <= path@[k].1 <= r.1.1,
        exists|k: int| 0 <= k < path@.len() && (#[trigger] path@[k]).0 == r.0.0,
        exists|k: int| 0 <= k < path@.len() && (#[trigger] path@[k]).1 == r.0.1,
        exists|k: int| 0 <= k < path@.len() && (#[trigger] path@[k]).0 == r.1.0,
        exists|k: int| 0 <= k < path@.len() && (#[trigger] path@[k]).1 == r.1.1,
{
    let mut top_left = path[0];
    let mut bottom_right = path[0];
    let mut k: usize = 1;
    while k < path.len()
        invariant
            1 <= k <= path@.len(),
            forall|i: int|
                0 <= i < k ==> top_left.0 <= (#[trigger] path@[i]).0 <= bottom_right.0
                    && top_left.1 <= path@[i].1 <= bottom_right.1,
            exists|i: int| 0 <= i < k && (#[trigger] path@[i]).0 == top_left.0,
            exists|i: int| 0 <= i < k && (#[trigger] path@[i]).1 == top_left.1,
            exists|i: int| 0 <= i < k && (#[trigger] path@[i]).0 == bottom_right.0,
            exists|i: int| 0 <= i < k && (#[trigger] path@[i]).1 == bottom_right.1,
        decreases path@.len() - k,
    {
        top_left = top_left.min_components(path[k]);
        bottom_right = bottom_right.max_components(path[k]);
        k = k + 1;
    }
    (top_left, bottom_right)
}

/// On a unit-step walk, every row between two visited rows is itself
/// visited: the y coordinate changes by at most one per step.
pub proof fn lemma_row_reached(path: Seq<Coord>, i: int, j: int, r: int)
    requires
        connected_path(path),
        0 <= i < path.len(),
        0 <= j < path.len(),
        path[i].1 <= r <= path[j].1,
    ensures
        exists|k: int| 0 <= k < path.len() && (#[trigger] path[k]).1 == r,
    decreases
            if i <= j {
                j - i
            } else {
                i - j
            },
{
    if path[i].1 == r {
        assert(path[i].1 == r);
    } else if path[j].1 == r {
        assert(path[j].1 == r);
    } else if i < j {
        assert(step_at(path, j));
        lemma_row_reached(path, i, j - 1, r);
    } else {
        assert(step_at(path, j + 1));
        lemma_row_reached(path, i, j + 1, r);
    }
}

/// Left and right silhouette of a path whose rows span `top_y..=bottom_y`:
/// entry `i` of each vector is the point with the smallest (respectively
/// largest) x among the path points on row `top_y + i`.
/// The leftmost and rightmost path points on one row, for a path known to
/// touch that row.
fn scan_row(path: &Vec<Coord>, row: i32) -> (r: (Coord, Coord))
    requires
        exists|m: int| 0 <= m < path@.len() && (#[trigger] path@[m]).1 == row,
    ensures
        r.0.1 == row && r.1.1 == row,
        exists|m: int| 0 <= m < path@.len() && path@[m] == r.0,
        exists|m: int| 0 <= m < path@.len() && path@[m] == r.1,
        forall|m: int|
            0 <= m < path@.len() && (#[trigger] path@[m]).1 == row ==> r.0.0 <= path@[m].0
                && r.1.0 >= path@[m].0,
{
    let mut found = false;
    let mut min_pt = Coord(0, 0);
    let mut max_pt = Coord(0, 0);
    let mut k: usize = 0;
    while k < path.len()
        invariant
            k <= path@.len(),
            found <==> exists|m: int| 0 <= m < k && (#[trigger] path@[m]).1 == row,
            found ==> min_pt.1 == row && max_pt.1 == row,
            found ==> exists|m: int| 0 <= m < k && path@[m] == min_pt,
            found ==> exists|m: int| 0 <= m < k && path@[m] == max_pt,
            forall|m: int|
                0 <= m < k && (#[trigger] path@[m]).1 == row ==> found && min_pt.0 <= path@[m].0
                    && max_pt.0 >= path@[m].0,
        decreases path@.len() - k,
    {
        let p = path[k];
        if p.1 == row {
            if !found {
                found = true;
                min_pt = p;
                max_pt = p;
            } else {
                if p.0 < min_pt.0 {
                    min_pt = p;
                }
                if p.0 > max_pt.0 {
                    max_pt = p;
                }
            }
        }
        k = k + 1;
    }
    (min_pt, max_pt)
}

/// Left and right silhouette of a path whose rows span `top_y..=bottom_y`:
/// entry `i` of each vector is the point with the smallest (respectively
/// largest) x among the path points on row `top_y + i`.
#[verifier::spinoff_prover]
#[verifier::rlimit(100)]
fn compute_perimeters(path: &Vec<Coord>, top_y: i32, bottom_y: i32) -> (r: (Vec<Coord>, Vec<
    Coord,
>))
    requires
        path@.len() >= 1,
        connected_path(path@),
        -0x1000000 <= top_y <= bottom_y <= 0x1000000,
        forall|k: int| 0 <= k < path@.len() ==> top_y <= (#[trigger] path@[k]).1 <= bottom_y,
        exists|k: int| 0 <= k < path@.len() && (#[trigger] path@[k]).1 == top_y,
        exists|k: int| 0 <= k < path@.len() && (#[trigger] path@[k]).1 == bottom_y,
    ensures
        r.0@.len() == bottom_y - top_y + 1,
        r.1@.len() == bottom_y - top_y + 1,
        forall|i: int|
            0 <= i < r.0@.len() ==> (#[trigger] r.0@[i]).1 == top_y + i && r.1@[i].1 == top_y + i,
        forall|i: int|
            0 <= i < r.0@.len() ==> exists|k: int|
                0 <= k < path@.len() && path@[k] == #[trigger] r.0@[i],
        forall|i: int|
            0 <= i < r.1@.len() ==> exists|k: int|
                0 <= k < path@.len() && path@[k] == #[trigger] r.1@[i],
        forall|i: int, k: int|
            #![trigger r.0@[i], path@[k]]
            0 <= i < r.0@.len() && 0 <= k < path@.len() && path@[k].1 == top_y + i ==> r.0@[i].0
                <= path@[k].0 && r.1@[i].0 >= path@[k].0,
{
    let rows: usize = (bottom_y - top_y) as usize + 1;
    let mut left: Vec<Coord> = Vec::new();
    let mut right: Vec<Coord> = Vec::new();
    let mut i: usize = 0;
    while i < rows
        invariant
            rows == bottom_y - top_y + 1,
            -0x1000000 <= top_y <= bottom_y <= 0x1000000,
            path@.len() >= 1,
            connected_path(path@),
            forall|k: int| 0 <= k < path@.len() ==> top_y <= (#[trigger] path@[k]).1 <= bottom_y,
            exists|k: int| 0 <= k < path@.len() && (#[trigger] path@[k]).1 == top_y,
            exists|k: int| 0 <= k < path@.len() && (#[trigger] path@[k]).1 == bottom_y,
            i <= rows,
            left@.len() == i,
            right@.len() == i,
            forall|n: int|
                0 <= n < i ==> (#[trigger] left@[n]).1 == top_y + n && right@[n].1 == top_y + n,
            forall|n: int|
                0 <= n < i ==> exists|k: int|
                    0 <= k < path@.len() && path@[k] == #[trigger] left@[n],
            forall|n: int|
                0 <= n < i ==> exists|k: int|
                    0 <= k < path@.len() && path@[k] == #[trigger] right@[n],
            forall|n: int, k: int|
                #![trigger left@[n], path@[k]]
                0 <= n < i && 0 <= k < path@.len() && path@[k].1 == top_y + n ==> left@[n].0
                    <= path@[k].0 && right@[n].0 >= path@[k].0,
        decreases rows - i,
    {
        let row: i32 = top_y + i as i32;
        proof {
            let wit_top = choose|k: int| 0 <= k < path@.len() && (#[trigger] path@[k]).1 == top_y;
            let wit_bot = choose|k: int|
                0 <= k < path@.len() && (#[trigger] path@[k]).1 == bottom_y;
            lemma_row_reached(path@, wit_top, wit_bot, row as int);
        }
        let (min_pt, max_pt) = scan_row(path, row);
        left.push(min_pt);
        right.push(max_pt);
        i = i + 1;
    }
    (left, right)
}

/// `s` with runs of consecutive equal points collapsed to one point.
pub open spec fn spec_dedup(s: Seq<Coord>) -> Seq<Coord>
    decreases s.len(),
{
    if s.len() <= 1 {
        s
    } else {
        let d = spec_dedup(s.drop_last());
        if s[s.len() - 1] == s[s.len() - 2] {
            d
        } else {
            d.push(s.last())
        }
    }
}

/// A non-empty sequence keeps its first and last points when deduplicated.
pub proof fn lemma_dedup_ends(s: Seq<Coord>)
    requires
        s.len() >= 1,
    ensures
        spec_dedup(s).len() >= 1,
        spec_dedup(s).last() == s.last(),
        spec_dedup(s).first() == s.first(),
    decreases s.len(),
{
    if s.len() > 1 {
        lemma_dedup_ends(s.drop_last());
    }
}

/// Collapses runs of consecutive equal points.
fn dedup_points(path: &Vec<Coord>) -> (r: Vec<Coord>)
    ensures
        r@ == spec_dedup(path@),
{
    let mut out: Vec<Coord> = Vec::new();
    let mut k: usize = 0;
    while k < path.len()
        invariant
            k <= path@.len(),
            out@ == spec_dedup(path@.subrange(0, k as int)),
        decreases path@.len() - k,
    {
        proof {
            assert(path@.subrange(0, k + 1).drop_last() =~= path@.subrange(0, k as int));
            if k >= 1 {
                lemma_dedup_ends(path@.subrange(0, k as int));
            }
        }
        let p = path[k];
        if k == 0 {
            out.push(p);
            proof {
                assert(path@.subrange(0, 1) =~= seq![path@[0]]);
            }
        } else {
            let last = out[out.len() - 1];
            if p != last {
                out.push(p);
            }
        }
        k = k + 1;
    }
    proof {
        assert(path@.subrange(0, path@.len() as int) =~= path@);
    }
    out
}


/// How many edges of the walk `path` are the undirected edge `e`: the number
/// of consecutive pairs whose order-normalized edge equals `e`.
pub open spec fn edge_traversals(path: Seq<Coord>, e: ConnectionPoint) -> nat
    decreases path.len(),
{
    if path.len() < 2 {
        0
    } else {
        edge_traversals(path.drop_last(), e) + if spec_edge(
            path[path.len() - 2],
            path[path.len() - 1],
        ) == e {
            1nat
        } else {
            0nat
        }
    }
}

/// A walk of length `n` traverses any single edge at most `n - 1` times.
pub proof fn lemma_traversals_bound(path: Seq<Coord>, e: ConnectionPoint)
    ensures
        path.len() >= 1 ==> edge_traversals(path, e) <= path.len() - 1,
        path.len() == 0 ==> edge_traversals(path, e) == 0,
    decreases path.len(),
{
    if path.len() >= 1 {
        lemma_traversals_bound(path.drop_last(), e);
    }
}

/// Whether an edge list contains `e`.
fn contains_edge(seen: &Vec<ConnectionPoint>, e: ConnectionPoint) -> (r: bool)
    ensures
        r <==> exists|m: int| 0 <= m < seen@.len() && seen@[m] == e,
{
    let mut k: usize = 0;
    while k < seen.len()
        invariant
            k <= seen@.len(),
            forall|m: int| 0 <= m < k ==> seen@[m] != e,
        decreases seen@.len() - k,
    {
        if seen[k] == e {
            return true;
        }
        k = k + 1;
    }
    false
}

/// Index of `e` among the keys of a collision list, if present.
fn find_edge(cols: &Vec<(ConnectionPoint, u32)>, e: ConnectionPoint) -> (r: Option<usize>)
    ensures
        match r {
            Some(i) => 0 <= i < cols@.len() && cols@[i as int].0 == e && (forall|m: int|
                0 <= m < i ==> (#[trigger] cols@[m]).0 != e),
            None => forall|m: int| 0 <= m < cols@.len() ==> (#[trigger] cols@[m]).0 != e,
        },
{
    let mut k: usize = 0;
    while k < cols.len()
        invariant
            k <= cols@.len(),
            forall|m: int| 0 <= m < k ==> (#[trigger] cols@[m]).0 != e,
        decreases cols@.len() - k,
    {
        if cols[k].0 == e {
            return Some(k);
        }
        k = k + 1;
    }
    None
}


/// Index of the first entry keyed by `e`, or the list's length if none.
pub open spec fn spec_find_edge_idx(cols: Seq<(ConnectionPoint, u32)>, e: ConnectionPoint) -> int
    decreases cols.len(),
{
    if cols.len() == 0 {
        0
    } else if cols[0].0 == e {
        0
    } else {
        1 + spec_find_edge_idx(cols.drop_first(), e)
    }
}

/// A key first found at `i` has first-index `i`; an absent key has the
/// list's length.
proof fn lemma_find_edge_idx(cols: Seq<(ConnectionPoint, u32)>, e: ConnectionPoint, i: int)
    requires
        0 <= i <= cols.len(),
        forall|m: int| 0 <= m < i ==> (#[trigger] cols[m]).0 != e,
        i < cols.len() ==> cols[i].0 == e,
    ensures
        spec_find_edge_idx(cols, e) == if i < cols.len() {
            i
        } else {
            cols.len() as int
        },
    decreases i,
{
    if i > 0 {
        lemma_find_edge_idx(cols.drop_first(), e, i - 1);
    }
}

/// The seen-edge set and collision list after the first `n` path points:
/// the exact fold the builder computes, step by step, pinning the collision
/// list's order (edges appear in order of their second traversal).
pub open spec fn spec_collisions_fold(path: Seq<Coord>, n: int) -> (
    Seq<ConnectionPoint>,
    Seq<(ConnectionPoint, u32)>,
)
    decreases n,
{
    if n <= 1 {
        (Seq::empty(), Seq::empty())
    } else {
        let (seen, cols) = spec_collisions_fold(path, n - 1);
        let e = spec_edge(path[n - 2], path[n - 1]);
        let j = spec_find_edge_idx(cols, e);
        if j < cols.len() {
            (seen, cols.update(j, (e, (cols[j].1 + 1) as u32)))
        } else if seen.contains(e) {
            (seen, cols.push((e, 1u32)))
        } else {
            (seen.push(e), cols)
        }
    }
}

/// The collision list of a walk: one entry per edge traversed more than
/// once, keyed by the normalized edge, whose count is the number of extra
/// traversals beyond the first.
pub open spec fn valid_collisions(cols: Seq<(ConnectionPoint, u32)>, path: Seq<Coord>) -> bool {
    &&& forall|j: int|
        0 <= j < cols.len() ==> (#[trigger] cols[j]).1 >= 1 && cols[j].1 + 1 == edge_traversals(
            path,
            cols[j].0,
        )
    &&& forall|j1: int, j2: int|
        0 <= j1 < j2 < cols.len() ==> (#[trigger] cols[j1]).0 != (#[trigger] cols[j2]).0
    &&& forall|a: int|
        1 <= a < path.len() && edge_traversals(path, #[trigger] spec_edge(path[a - 1], path[a]))
            >= 2 ==> exists|j: int|
            0 <= j < cols.len() && (#[trigger] cols[j]).0 == spec_edge(path[a - 1], path[a])
}

/// Counts repeated edge traversals along a walk.
fn compute_collisions(path: &Vec<Coord>) -> (cols: Vec<(ConnectionPoint, u32)>)
    requires
        path@.len() <= MAX_PATTERN_STEPS + 2,
    ensures
        valid_collisions(cols@, path@),
        cols@ == spec_collisions_fold(path@, path@.len() as int).1,
{
    let mut seen: Vec<ConnectionPoint> = Vec::new();
    let mut cols: Vec<(ConnectionPoint, u32)> = Vec::new();
    if path.len() < 2 {
        return cols;
    }
    let mut k: usize = 1;
    while k < path.len()
        invariant
            1 <= k <= path@.len(),
            path@.len() <= MAX_PATTERN_STEPS + 2,
            seen@ == spec_collisions_fold(path@, k as int).0,
            cols@ == spec_collisions_fold(path@, k as int).1,
            forall|e: ConnectionPoint|
                (exists|m: int| 0 <= m < seen@.len() && seen@[m] == e) <==> edge_traversals(
                    path@.subrange(0, k as int),
                    e,
                ) >= 1,
            forall|j: int|
                0 <= j < cols@.len() ==> (#[trigger] cols@[j]).1 >= 1 && cols@[j].1 + 1
                    == edge_traversals(path@.subrange(0, k as int), cols@[j].0),
            forall|j1: int, j2: int|
                0 <= j1 < j2 < cols@.len() ==> (#[trigger] cols@[j1]).0 != (
                #[trigger] cols@[j2]).0,
            forall|e: ConnectionPoint|
                #[trigger] edge_traversals(path@.subrange(0, k as int), e) >= 2 ==> exists|j: int|
                    0 <= j < cols@.len() && (#[trigger] cols@[j]).0 == e,
        decreases path@.len() - k,
    {
        let e = ConnectionPoint::new(path[k], path[k - 1]);
        proof {
            let pre = path@.subrange(0, k as int);
            let post = path@.subrange(0, k as int + 1);
            assert(post.drop_last() =~= pre);
            assert(post[post.len() - 2] == path@[k - 1]);
            assert(post[post.len() - 1] == path@[k as int]);
            crate::pattern_utils::lemma_edge_symmetric(path@[k as int], path@[k - 1]);
            assert(forall|e2: ConnectionPoint|
                #[trigger] edge_traversals(post, e2) == edge_traversals(pre, e2) + if spec_edge(
                    path@[k - 1],
                    path@[k as int],
                ) == e2 {
                    1int
                } else {
                    0int
                });
            lemma_traversals_bound(pre, spec_edge(path@[k - 1], path@[k as int]));
        }
        let ghost pre = path@.subrange(0, k as int);
        let ghost post = path@.subrange(0, k as int + 1);
        let ghost seen_pre = seen@;
        match find_edge(&cols, e) {
            Some(i) => {
                let count = cols[i].1;
                let ghost cols0 = cols@;
                proof {
                    assert(edge_traversals(pre, e) >= 1);
                    lemma_find_edge_idx(cols0, e, i as int);
                }
                cols.set(i, (e, count + 1));
                proof {
                    assert(cols@ =~= cols0.update(i as int, (e, (cols0[i as int].1 + 1) as u32)));
                    assert(seen@ == spec_collisions_fold(path@, k + 1).0);
                    assert(cols@ == spec_collisions_fold(path@, k + 1).1);
                }
                proof {
                    assert forall|e2: ConnectionPoint|
                        (exists|m: int| 0 <= m < seen@.len() && seen@[m] == e2) <==> edge_traversals(
                            post,
                            e2,
                        ) >= 1 by {
                        assert(edge_traversals(post, e2) >= edge_traversals(pre, e2));
                        if e2 != e {
                            assert(edge_traversals(post, e2) == edge_traversals(pre, e2));
                        }
                    }
                    assert forall|e2: ConnectionPoint|
                        #[trigger] edge_traversals(post, e2) >= 2 implies exists|j: int|
                        0 <= j < cols@.len() && (#[trigger] cols@[j]).0 == e2 by {
                        if e2 == e {
                            assert(cols@[i as int].0 == e2);
                        } else {
                            assert(edge_traversals(pre, e2) == edge_traversals(post, e2));
                            let j0 = choose|j: int|
                                0 <= j < cols0.len() && (#[trigger] cols0[j]).0 == e2;
                            assert(cols@[j0].0 == e2);
                        }
                    }
                }
            },
            None => {
                if contains_edge(&seen, e) {
                    proof {
                        assert(edge_traversals(pre, e) >= 1);
                        if edge_traversals(pre, e) >= 2 {
                            let j = choose|j: int|
                                0 <= j < cols@.len() && (#[trigger] cols@[j]).0 == e;
                            assert(false);
                        }
                        assert(edge_traversals(pre, e) == 1);
                        lemma_find_edge_idx(cols@, e, cols@.len() as int);
                        assert(seen@.contains(e));
                    }
                    let ghost cols0 = cols@;
                    cols.push((e, 1));
                    proof {
                        assert(seen@ == spec_collisions_fold(path@, k + 1).0);
                        assert(cols@ == spec_collisions_fold(path@, k + 1).1);
                        let ghost newlen = cols@.len();
                        assert forall|e2: ConnectionPoint|
                            (exists|m: int| 0 <= m < seen@.len() && seen@[m] == e2)
                                <==> edge_traversals(post, e2) >= 1 by {
                            if e2 != e {
                                assert(edge_traversals(post, e2) == edge_traversals(pre, e2));
                            }
                        }
                        assert forall|e2: ConnectionPoint|
                            #[trigger] edge_traversals(post, e2) >= 2 implies exists|j: int|
                            0 <= j < cols@.len() && (#[trigger] cols@[j]).0 == e2 by {
                            if e2 == e {
                                assert(cols@[newlen - 1].0 == e2);
                            } else {
                                assert(edge_traversals(pre, e2) == edge_traversals(post, e2));
                                let j0 = choose|j: int|
                                    0 <= j < cols0.len() && (#[trigger] cols0[j]).0 == e2;
                                assert(cols@[j0].0 == e2);
                            }
                        }
                    }
                } else {
                    proof {
                        assert(edge_traversals(pre, e) == 0);
                        lemma_find_edge_idx(cols@, e, cols@.len() as int);
                        if seen@.contains(e) {
                            let m = choose|m: int| 0 <= m < seen@.len() && seen@[m] == e;
                            assert(false);
                        }
                    }
                    let ghost seen0 = seen@;
                    seen.push(e);
                    proof {
                        assert(seen@ == spec_collisions_fold(path@, k + 1).0);
                        assert(cols@ == spec_collisions_fold(path@, k + 1).1);
                        let ghost slen = seen@.len();
                        assert forall|e2: ConnectionPoint|
                            (exists|m: int| 0 <= m < seen@.len() && seen@[m] == e2)
                                <==> edge_traversals(post, e2) >= 1 by {
                            if e2 == e {
                                assert(seen@[slen - 1] == e2);
                                assert(edge_traversals(post, e2) == 1);
                            } else {
                                assert(edge_traversals(post, e2) == edge_traversals(pre, e2));
                                if exists|m: int| 0 <= m < seen@.len() && seen@[m] == e2 {
                                    let m = choose|m: int| 0 <= m < seen@.len() && seen@[m] == e2;
                                    assert(m < slen - 1);
                                    assert(seen0[m] == e2);
                                }
                                if edge_traversals(pre, e2) >= 1 {
                                    let m = choose|m: int| 0 <= m < seen0.len() && seen0[m] == e2;
                                    assert(seen@[m] == e2);
                                }
                            }
                        }
                        assert forall|e2: ConnectionPoint|
                            #[trigger] edge_traversals(post, e2) >= 2 implies exists|j: int|
                            0 <= j < cols@.len() && (#[trigger] cols@[j]).0 == e2 by {
                            if e2 == e {
                                assert(edge_traversals(post, e2) == 1);
                            } else {
                                assert(edge_traversals(pre, e2) == edge_traversals(post, e2));
                            }
                        }
                    }
                }
            },
        }
        k = k + 1;
    }
    proof {
        assert(path@.subrange(0, path@.len() as int) =~= path@);
    }
    cols
}



/// How many entries of `path` equal the point `p`.
pub open spec fn count_point(path: Seq<Coord>, p: Coord) -> nat
    decreases path.len(),
{
    if path.len() == 0 {
        0
    } else {
        count_point(path.drop_last(), p) + if path.last() == p {
            1nat
        } else {
            0nat
        }
    }
}

/// A built pattern: the lattice path generated by a start direction and a
/// turn sequence, together with derived geometry. Immutable once built.
#[derive(Debug, Clone)]
pub struct Pattern {
    /// The walk itself; `turns.len() + 2` connected lattice points.
    pub path: Vec<Coord>,
    /// Componentwise minimum of all path points.
    pub top_left: Coord,
    /// Componentwise maximum of all path points.
    pub bottom_right: Coord,
    /// Entry `i`: leftmost path point on row `top_left.1 + i`.
    pub left_perimiter: Vec<Coord>,
    /// Entry `i`: rightmost path point on row `top_left.1 + i`.
    pub right_perimiter: Vec<Coord>,
    /// The path with runs of consecutive equal points collapsed.
    pub points: Vec<Coord>,
    /// The turn sequence the pattern was built from.
    pub angles: Vec<Angle>,
    /// One entry per edge traversed more than once: the normalized edge and
    /// the number of extra traversals beyond the first.
    pub collisions: Vec<(ConnectionPoint, u32)>,
}

impl Pattern {
    /// Everything the derived fields promise about the path.
    pub open spec fn valid(self) -> bool {
        &&& self.path@.len() >= 2
        &&& self.path@.len() <= 0x100002
        &&& self.path@.len() == self.angles@.len() + 2
        &&& self.path@[0] == Coord(0, 0)
        &&& connected_path(self.path@)
        &&& forall|k: int|
            0 <= k < self.path@.len() ==> -0x1000000 <= (#[trigger] self.path@[k]).0 <= 0x1000000
                && -0x1000000 <= self.path@[k].1 <= 0x1000000
        &&& forall|k: int|
            0 <= k < self.path@.len() ==> self.top_left.0 <= (#[trigger] self.path@[k]).0
                <= self.bottom_right.0 && self.top_left.1 <= self.path@[k].1
                <= self.bottom_right.1
        &&& exists|k: int|
            0 <= k < self.path@.len() && (#[trigger] self.path@[k]).0 == self.top_left.0
        &&& exists|k: int|
            0 <= k < self.path@.len() && (#[trigger] self.path@[k]).1 == self.top_left.1
        &&& exists|k: int|
            0 <= k < self.path@.len() && (#[trigger] self.path@[k]).0 == self.bottom_right.0
        &&& exists|k: int|
            0 <= k < self.path@.len() && (#[trigger] self.path@[k]).1 == self.bottom_right.1
        &&& self.left_perimiter@.len() == self.bottom_right.1 - self.top_left.1 + 1
        &&& self.right_perimiter@.len() == self.left_perimiter@.len()
        &&& forall|i: int|
            0 <= i < self.left_perimiter@.len() ==> (#[trigger] self.left_perimiter@[i]).1
                == self.top_left.1 + i && self.right_perimiter@[i].1 == self.top_left.1 + i
        &&& forall|i: int|
            0 <= i < self.left_perimiter@.len() ==> exists|k: int|
                0 <= k < self.path@.len() && self.path@[k] == #[trigger] self.left_perimiter@[i]
        &&& forall|i: int|
            0 <= i < self.right_perimiter@.len() ==> exists|k: int|
                0 <= k < self.path@.len() && self.path@[k] == #[trigger] self.right_perimiter@[i]
        &&& forall|i: int, k: int|
            #![trigger self.left_perimiter@[i], self.path@[k]]
            0 <= i < self.left_perimiter@.len() && 0 <= k < self.path@.len() && self.path@[k].1
                == self.top_left.1 + i ==> self.left_perimiter@[i].0 <= self.path@[k].0
                && self.right_perimiter@[i].0 >= self.path@[k].0
        &&& self.points@ == spec_dedup(self.path@)
        &&& valid_collisions(self.collisions@, self.path@)
        &&& self.collisions@ == spec_collisions_fold(self.path@, self.path@.len() as int).1
    }

    /// Lattice height of the bounding box.
    pub open spec fn spec_height(self) -> int {
        self.bottom_right.1 - self.top_left.1
    }

    /// Builds the pattern generated by a start direction and turn sequence:
    /// the walk starts at the origin, makes its first move along `rotation`,
    /// and then one move per turn, each turn rotating the heading.
    #[verifier::spinoff_prover]
    #[verifier::rlimit(100)]
    pub fn new(rotation: Direction, links: Vec<Angle>) -> (r: Pattern)
        requires
            links@.len() <= MAX_PATTERN_STEPS,
        ensures
            r.valid(),
            r.angles@ == links@,
            r.path@.len() == links@.len() + 2,
            forall|k: int|
                0 <= k < r.path@.len() ==> ((#[trigger] r.path@[k]).0 as int, r.path@[k].1 as int)
                    == spec_path_point(rotation, links@, k),
    {
        let path = build_path(rotation, &links);
        proof {
            assert forall|k: int| 0 <= k < path@.len() implies -0x1000000 <= (
            #[trigger] path@[k]).0 <= 0x1000000 && -0x1000000 <= path@[k].1 <= 0x1000000 by {
                lemma_path_point_bounds(rotation, links@, k);
            }
            assert forall|k: int| 1 <= k < path@.len() implies #[trigger] step_at(path@, k) by {
                assert(((path@[k]).0 as int, path@[k].1 as int) == spec_path_point(
                    rotation,
                    links@,
                    k,
                ));
                assert(((path@[k - 1]).0 as int, path@[k - 1].1 as int) == spec_path_point(
                    rotation,
                    links@,
                    k - 1,
                ));
                assert(spec_path_point(rotation, links@, k) == (
                    spec_path_point(rotation, links@, k - 1).0 + spec_heading(
                        rotation,
                        links@,
                        k - 1,
                    ).spec_dx(),
                    spec_path_point(rotation, links@, k - 1).1 + spec_heading(
                        rotation,
                        links@,
                        k - 1,
                    ).spec_dy(),
                ));
            }
        }
        let (top_left, bottom_right) = compute_bbox(&path);
        let (left_perimiter, right_perimiter) = compute_perimeters(
            &path,
            top_left.1,
            bottom_right.1,
        );
        let points = dedup_points(&path);
        let collisions = compute_collisions(&path);
        let r = Pattern {
            path,
            top_left,
            bottom_right,
            left_perimiter,
            right_perimiter,
            points,
            angles: links,
            collisions,
        };
        proof {
            assert(r.path@.len() >= 2);
            assert(r.path@[0] == Coord(0, 0));
            assert(connected_path(r.path@));
            assert(r.left_perimiter@.len() == r.bottom_right.1 - r.top_left.1 + 1);
            assert(forall|i: int|
                0 <= i < r.left_perimiter@.len() ==> (#[trigger] r.left_perimiter@[i]).1
                    == r.top_left.1 + i && r.right_perimiter@[i].1 == r.top_left.1 + i);
            assert(r.points@ == spec_dedup(r.path@));
            assert(valid_collisions(r.collisions@, r.path@));
            assert(r.collisions@ == spec_collisions_fold(r.path@, r.path@.len() as int).1);
            assert(r.valid());
        }
        r
    }


    /// Extra traversals recorded for an edge: zero when the edge is crossed
    /// at most once, and the traversal count minus one otherwise.
    pub fn collision_count(&self, e: ConnectionPoint) -> (r: u32)
        requires
            self.valid(),
        ensures
            edge_traversals(self.path@, e) >= 2 ==> r + 1 == edge_traversals(self.path@, e),
            edge_traversals(self.path@, e) < 2 ==> r == 0,
    {
        proof {
            if edge_traversals(self.path@, e) >= 2 {
                lemma_edge_recorded(self.path@, e);
            }
        }
        match find_edge(&self.collisions, e) {
            Some(i) => self.collisions[i].1,
            None => 0,
        }
    }
}


/// Determinism law: two valid patterns over the same path (and turns) are
/// structurally equal in every derived field — the builder is a function of
/// its inputs.
pub proof fn lemma_pattern_deterministic(p1: Pattern, p2: Pattern)
    requires
        p1.valid(),
        p2.valid(),
        p1.path@ == p2.path@,
        p1.angles@ == p2.angles@,
    ensures
        p1.top_left == p2.top_left,
        p1.bottom_right == p2.bottom_right,
        p1.left_perimiter@ == p2.left_perimiter@,
        p1.right_perimiter@ == p2.right_perimiter@,
        p1.points@ == p2.points@,
        p1.collisions@ == p2.collisions@,
{
    let path = p1.path@;
    let k1 = choose|k: int| 0 <= k < path.len() && (#[trigger] path[k]).0 == p1.top_left.0;
    let k2 = choose|k: int| 0 <= k < path.len() && (#[trigger] path[k]).0 == p2.top_left.0;
    let k3 = choose|k: int| 0 <= k < path.len() && (#[trigger] path[k]).1 == p1.top_left.1;
    let k4 = choose|k: int| 0 <= k < path.len() && (#[trigger] path[k]).1 == p2.top_left.1;
    let k5 = choose|k: int| 0 <= k < path.len() && (#[trigger] path[k]).0 == p1.bottom_right.0;
    let k6 = choose|k: int| 0 <= k < path.len() && (#[trigger] path[k]).0 == p2.bottom_right.0;
    let k7 = choose|k: int| 0 <= k < path.len() && (#[trigger] path[k]).1 == p1.bottom_right.1;
    let k8 = choose|k: int| 0 <= k < path.len() && (#[trigger] path[k]).1 == p2.bottom_right.1;
    assert(p1.top_left.0 <= path[k2].0 && p2.top_left.0 <= path[k1].0);
    assert(p1.top_left.1 <= path[k4].1 && p2.top_left.1 <= path[k3].1);
    assert(p1.bottom_right.0 >= path[k6].0 && p2.bottom_right.0 >= path[k5].0);
    assert(p1.bottom_right.1 >= path[k8].1 && p2.bottom_right.1 >= path[k7].1);
    assert(p1.top_left == p2.top_left);
    assert(p1.bottom_right == p2.bottom_right);
    assert forall|i: int|
        #![trigger p1.left_perimiter@[i]]
        #![trigger p1.right_perimiter@[i]]
        0 <= i < p1.left_perimiter@.len() implies p1.left_perimiter@[i] == p2.left_perimiter@[i]
        && p1.right_perimiter@[i] == p2.right_perimiter@[i] by {
        let m1 = choose|k: int|
            0 <= k < path.len() && path[k] == #[trigger] p1.left_perimiter@[i];
        let m2 = choose|k: int|
            0 <= k < path.len() && path[k] == #[trigger] p2.left_perimiter@[i];
        assert(p1.left_perimiter@[i].0 <= path[m2].0 && p2.left_perimiter@[i].0 <= path[m1].0);
        let m3 = choose|k: int|
            0 <= k < path.len() && path[k] == #[trigger] p1.right_perimiter@[i];
        let m4 = choose|k: int|
            0 <= k < path.len() && path[k] == #[trigger] p2.right_perimiter@[i];
        assert(p1.right_perimiter@[i].0 >= path[m4].0 && p2.right_perimiter@[i].0 >= path[m3].0);
    }
    assert(p1.left_perimiter@ =~= p2.left_perimiter@);
    assert(p1.right_perimiter@ =~= p2.right_perimiter@);
}

/// An edge traversed at least twice somewhere in the walk appears as one of
/// the walk's own consecutive-pair edges.
#[verifier::rlimit(100)]
proof fn lemma_edge_occurs(path: Seq<Coord>, e: ConnectionPoint)
    requires
        edge_traversals(path, e) >= 1,
    ensures
        exists|a: int|
            1 <= a < path.len() && #[trigger] spec_edge(path[a - 1], path[a]) == e,
    decreases path.len(),
{
    if path.len() >= 2 {
        let n = path.len() as int;
        if spec_edge(path[n - 2], path[n - 1]) == e {
            assert(1 <= n - 1 < n && spec_edge(path[n - 1 - 1], path[n - 1]) == e);
        } else {
            assert(edge_traversals(path, e) == edge_traversals(path.drop_last(), e));
            lemma_edge_occurs(path.drop_last(), e);
            let a = choose|a: int|
                1 <= a < path.drop_last().len() && #[trigger] spec_edge(
                    path.drop_last()[a - 1],
                    path.drop_last()[a],
                ) == e;
            assert(path.drop_last()[a - 1] == path[a - 1]);
            assert(path.drop_last()[a] == path[a]);
            assert(1 <= a < n && spec_edge(path[a - 1], path[a]) == e);
        }
    } else {
        assert(false);
    }
}

/// With a valid collision list, any edge traversed at least twice has an
/// entry in the list.
proof fn lemma_edge_recorded(path: Seq<Coord>, e: ConnectionPoint)
    requires
        edge_traversals(path, e) >= 2,
    ensures
        forall|cols: Seq<(ConnectionPoint, u32)>|
            #[trigger] valid_collisions(cols, path) ==> exists|j: int|
                0 <= j < cols.len() && (#[trigger] cols[j]).0 == e,
{
    lemma_edge_occurs(path, e);
}


/// Collision-map law: in a valid pattern, an edge is listed with count `k`
/// exactly when the walk traverses it exactly `k + 1` times (and `k >= 1`).
pub proof fn lemma_collision_iff(p: Pattern, e: ConnectionPoint, k: u32)
    requires
        p.valid(),
    ensures
        (exists|j: int| 0 <= j < p.collisions@.len() && p.collisions@[j] == (e, k)) <==> (k >= 1
            && edge_traversals(p.path@, e) == k + 1),
{
    if exists|j: int| 0 <= j < p.collisions@.len() && p.collisions@[j] == (e, k) {
        let j = choose|j: int| 0 <= j < p.collisions@.len() && p.collisions@[j] == (e, k);
        assert(p.collisions@[j].1 >= 1 && p.collisions@[j].1 + 1 == edge_traversals(
            p.path@,
            p.collisions@[j].0,
        ));
    }
    if k >= 1 && edge_traversals(p.path@, e) == k + 1 {
        lemma_edge_recorded(p.path@, e);
        let j = choose|j: int|
            0 <= j < p.collisions@.len() && (#[trigger] p.collisions@[j]).0 == e;
        assert(p.collisions@[j].1 + 1 == edge_traversals(p.path@, e));
        assert(p.collisions@[j] == (e, k));
    }
}

/// A pattern together with the way it should be recolored: a `Monocolor`
/// pattern is drawn flattened to a single color.
#[derive(Debug, Clone)]
pub enum PatternVariant {
    Normal(Pattern),
    Monocolor(Pattern),
}

impl PatternVariant {
    /// The underlying pattern geometry.
    pub fn get_inner(&self) -> (r: &Pattern)
        ensures
            r == self.spec_inner(),
    {
        match self {
            PatternVariant::Normal(pattern) => pattern,
            PatternVariant::Monocolor(pattern) => pattern,
        }
    }

    /// The underlying pattern geometry.
    pub open spec fn spec_inner(self) -> Pattern {
        match self {
            PatternVariant::Normal(pattern) => pattern,
            PatternVariant::Monocolor(pattern) => pattern,
        }
    }
}


/// Why a pattern token failed to parse.
#[derive(Debug, Clone, PartialEq, Eq)]
pub enum PatternParseError {
    /// The token did not split into exactly a direction and an angle part.
    InvalidParts(String),
    /// A `HexPattern(` opener without the closing parenthesis.
    HangingHexPattern(String),
    /// The first part names no direction.
    InvalidStartDirection { input: String, direction: String },
    /// The angle part holds a character that is no turn.
    InvalidAngle { input: String, angle: char },
}

} // verus!
