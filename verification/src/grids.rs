//! Flow layout: packs a list of patterns into rows under a maximum width,
//! sliding each pattern against the previous pattern's silhouette so that the
//! silhouettes touch without overlapping.
//!
//! All positions are exact: a lattice anchor per pattern, plus one global
//! half-step alignment flag, and the canvas extent in half planar units
//! horizontally and lattice rows vertically.

use vstd::prelude::*;

use crate::pattern::{Pattern, PatternVariant};
use crate::pattern_utils::{Angle, Coord};

verus! {

/// Why a grid could not be built.
#[derive(Debug, Clone, Copy, PartialEq, Eq, Structural)]
pub enum GridCreationError {
    /// A count or padding parameter was zero or negative.
    NegativeInput,
    /// The pattern list was empty.
    EmptyPatternList,
}

/// Most patterns a single grid will lay out; bounds every intermediate
/// coordinate of the layout so that 64-bit arithmetic cannot overflow.
pub const MAX_GRID_PATTERNS: usize = 65536;

/// Planar x, doubled, of lattice point `p` shifted by `(cx, cy - top_y)`.
pub open spec fn lm2(p: Coord, cx: int, cy: int, top_y: int) -> int {
    2 * (p.0 + cx) + (p.1 + cy - top_y)
}

/// Minimum of `lm2` over the first `n` entries of a silhouette.
pub open spec fn spec_left_most2(left: Seq<Coord>, cx: int, cy: int, top_y: int, n: int) -> int
    decreases n,
{
    if n <= 1 {
        lm2(left[0], cx, cy, top_y)
    } else {
        let rest = spec_left_most2(left, cx, cy, top_y, n - 1);
        let cur = lm2(left[n - 1], cx, cy, top_y);
        if cur < rest {
            cur
        } else {
            rest
        }
    }
}

/// Minimum gap `cur_left[i].x - prev_right[i].x` over the first `n` shared
/// silhouette rows.
pub open spec fn spec_min_gap(cur_left: Seq<Coord>, prev_right: Seq<Coord>, n: int) -> int
    decreases n,
{
    if n <= 1 {
        cur_left[0].0 - prev_right[0].0
    } else {
        let rest = spec_min_gap(cur_left, prev_right, n - 1);
        let cur = cur_left[n - 1].0 - prev_right[n - 1].0;
        if cur < rest {
            cur
        } else {
            rest
        }
    }
}

/// Planar x, doubled, of lattice point `p` placed at lattice anchor `loc`.
pub open spec fn rm2(p: Coord, loc: (int, int)) -> int {
    2 * (p.0 + loc.0) + (p.1 + loc.1)
}

/// Maximum of `rm2` over the first `n` entries of a silhouette.
pub open spec fn spec_right_most2(right: Seq<Coord>, loc: (int, int), n: int) -> int
    decreases n,
{
    if n <= 1 {
        rm2(right[0], loc)
    } else {
        let rest = spec_right_most2(right, loc, n - 1);
        let cur = rm2(right[n - 1], loc);
        if cur > rest {
            cur
        } else {
            rest
        }
    }
}

/// The running state of the flow layout, after some prefix of the patterns
/// has been placed.
pub ghost struct LayoutState {
    /// Raw x shift of the pattern being placed, before alignment.
    pub current_x: int,
    /// Row-wide x alignment shift, chosen when a row is opened.
    pub current_x_offset: int,
    /// Lattice row of the top of the current row.
    pub current_y: int,
    /// Largest lattice height among the patterns of the current row.
    pub max_y_row: int,
    /// Right edge, in half planar units, over all closed rows.
    pub max_x2: int,
    /// Whether every final position is nudged left by half a planar unit.
    pub offset_left: bool,
    /// Lattice anchor of each placed pattern.
    pub locations: Seq<(int, int)>,
}

/// The layout state before any pattern is placed.
pub open spec fn layout_init() -> LayoutState {
    LayoutState {
        current_x: 0,
        current_x_offset: 0,
        current_y: 0,
        max_y_row: 0,
        max_x2: 0,
        offset_left: false,
        locations: Seq::empty(),
    }
}

/// Places pattern `index` of `ps`: the first pattern of a row is aligned so
/// its leftmost silhouette point lands at the row's left margin; any other
/// pattern is slid against the previous pattern's right silhouette, wrapping
/// to a new row when the width limit would be passed. The half-step
/// alignment flag is decided once, from the very first pattern.
pub open spec fn layout_step(st: LayoutState, ps: Seq<Pattern>, mw: int, index: int) -> LayoutState {
    let p = ps[index];
    let height = p.bottom_right.1 - p.top_left.1;
    // Open the first row, or slide against the previous pattern.
    let (cx0, cxo0, ol0) = if index == 0 {
        let cx = -p.top_left.0;
        let lm = spec_left_most2(p.left_perimiter@, cx, 0, p.top_left.1 as int, p.left_perimiter@.len() as int);
        (cx, -(lm / 2), lm % 2 == 1)
    } else {
        let prev = ps[index - 1];
        let shared = if p.left_perimiter@.len() <= prev.right_perimiter@.len() {
            p.left_perimiter@.len() as int
        } else {
            prev.right_perimiter@.len() as int
        };
        let gap = spec_min_gap(p.left_perimiter@, prev.right_perimiter@, shared);
        (st.current_x - (gap - 1), st.current_x_offset, st.offset_left)
    };
    // Wrap to a new row when the pattern would reach past the width limit.
    let wrap = index != 0 && 2 * (cx0 + p.bottom_right.0) + st.max_y_row > 2 * mw;
    let (cx, cxo, cy, myr, mx2) = if wrap {
        let cxw = -p.top_left.0;
        let cyw = st.current_y + st.max_y_row + 1;
        let lm = spec_left_most2(p.left_perimiter@, cxw, cyw, p.top_left.1 as int, p.left_perimiter@.len() as int);
        let prev = ps[index - 1];
        let reach = spec_right_most2(
            prev.right_perimiter@,
            st.locations[index - 1],
            prev.right_perimiter@.len() as int,
        );
        let mx2 = if reach > st.max_x2 {
            reach
        } else {
            st.max_x2
        };
        (cxw, -(lm / 2), cyw, 0, mx2)
    } else {
        (cx0, cxo0, st.current_y, st.max_y_row, st.max_x2)
    };
    let myr2 = if height > myr {
        height
    } else {
        myr
    };
    LayoutState {
        current_x: cx,
        current_x_offset: cxo,
        current_y: cy,
        max_y_row: myr2,
        max_x2: mx2,
        offset_left: ol0,
        locations: st.locations.push((cx + cxo, cy - p.top_left.1)),
    }
}

/// The layout state after the first `n` patterns of `ps` are placed under
/// width limit `mw`.
pub open spec fn layout(ps: Seq<Pattern>, mw: int, n: int) -> LayoutState
    decreases n,
{
    if n <= 0 {
        layout_init()
    } else {
        layout_step(layout(ps, mw, n - 1), ps, mw, n - 1)
    }
}

/// The inner geometry of each pattern of a list.
pub open spec fn inner_seq(ps: Seq<PatternVariant>) -> Seq<Pattern> {
    ps.map_values(|pv: PatternVariant| pv.spec_inner())
}


/// Minimum doubled planar x over a silhouette, for a given shift.
fn left_most2_exec(left: &Vec<Coord>, cx: i64, cy: i64, top_y: i32) -> (r: i64)
    requires
        left@.len() >= 1,
        -0x40000000000000 <= cx <= 0x40000000000000,
        0 <= cy <= 0x40000000000000,
        -0x1000000 <= top_y <= 0x1000000,
        forall|i: int|
            0 <= i < left@.len() ==> -0x1000000 <= (#[trigger] left@[i]).0 <= 0x1000000
                && -0x1000000 <= left@[i].1 <= 0x1000000,
    ensures
        r == spec_left_most2(left@, cx as int, cy as int, top_y as int, left@.len() as int),
        -0x100000000000000 <= r <= 0x100000000000000,
{
    let mut best: i64 = 2 * (left[0].0 as i64 + cx) + (left[0].1 as i64 + cy - top_y as i64);
    let mut n: usize = 1;
    while n < left.len()
        invariant
            1 <= n <= left@.len(),
            -0x40000000000000 <= cx <= 0x40000000000000,
            0 <= cy <= 0x40000000000000,
            -0x1000000 <= top_y <= 0x1000000,
            forall|i: int|
                0 <= i < left@.len() ==> -0x1000000 <= (#[trigger] left@[i]).0 <= 0x1000000
                    && -0x1000000 <= left@[i].1 <= 0x1000000,
            best == spec_left_most2(left@, cx as int, cy as int, top_y as int, n as int),
            -0x100000000000000 <= best <= 0x100000000000000,
        decreases left@.len() - n,
    {
        let cur: i64 = 2 * (left[n].0 as i64 + cx) + (left[n].1 as i64 + cy - top_y as i64);
        if cur < best {
            best = cur;
        }
        n = n + 1;
    }
    best
}

/// Minimum gap between a pattern's left silhouette and the previous
/// pattern's right silhouette over their shared rows.
fn min_gap_exec(cur_left: &Vec<Coord>, prev_right: &Vec<Coord>) -> (r: i64)
    requires
        cur_left@.len() >= 1,
        prev_right@.len() >= 1,
        forall|i: int|
            0 <= i < cur_left@.len() ==> -0x1000000 <= (#[trigger] cur_left@[i]).0 <= 0x1000000,
        forall|i: int|
            0 <= i < prev_right@.len() ==> -0x1000000 <= (#[trigger] prev_right@[i]).0
                <= 0x1000000,
    ensures
        ({
            let shared = if cur_left@.len() <= prev_right@.len() {
                cur_left@.len() as int
            } else {
                prev_right@.len() as int
            };
            r == spec_min_gap(cur_left@, prev_right@, shared)
        }),
        -0x2000000 <= r <= 0x2000000,
{
    let shared: usize = if cur_left.len() <= prev_right.len() {
        cur_left.len()
    } else {
        prev_right.len()
    };
    let mut best: i64 = cur_left[0].0 as i64 - prev_right[0].0 as i64;
    let mut n: usize = 1;
    while n < shared
        invariant
            1 <= n <= shared,
            shared <= cur_left@.len(),
            shared <= prev_right@.len(),
            forall|i: int|
                0 <= i < cur_left@.len() ==> -0x1000000 <= (#[trigger] cur_left@[i]).0
                    <= 0x1000000,
            forall|i: int|
                0 <= i < prev_right@.len() ==> -0x1000000 <= (#[trigger] prev_right@[i]).0
                    <= 0x1000000,
            best == spec_min_gap(cur_left@, prev_right@, n as int),
            -0x2000000 <= best <= 0x2000000,
        decreases shared - n,
    {
        let cur: i64 = cur_left[n].0 as i64 - prev_right[n].0 as i64;
        if cur < best {
            best = cur;
        }
        n = n + 1;
    }
    best
}

/// Maximum doubled planar x over a silhouette placed at anchor `loc`.
fn right_most2_exec(right: &Vec<Coord>, loc_x: i64, loc_y: i64) -> (r: i64)
    requires
        right@.len() >= 1,
        -0x40000000000000 <= loc_x <= 0x40000000000000,
        -0x40000000000000 <= loc_y <= 0x40000000000000,
        forall|i: int|
            0 <= i < right@.len() ==> -0x1000000 <= (#[trigger] right@[i]).0 <= 0x1000000
                && -0x1000000 <= right@[i].1 <= 0x1000000,
    ensures
        r == spec_right_most2(right@, (loc_x as int, loc_y as int), right@.len() as int),
        -0x100000000000000 <= r <= 0x100000000000000,
{
    let mut best: i64 = 2 * (right[0].0 as i64 + loc_x) + (right[0].1 as i64 + loc_y);
    let mut n: usize = 1;
    while n < right.len()
        invariant
            1 <= n <= right@.len(),
            -0x40000000000000 <= loc_x <= 0x40000000000000,
            -0x40000000000000 <= loc_y <= 0x40000000000000,
            forall|i: int|
                0 <= i < right@.len() ==> -0x1000000 <= (#[trigger] right@[i]).0 <= 0x1000000
                    && -0x1000000 <= right@[i].1 <= 0x1000000,
            best == spec_right_most2(right@, (loc_x as int, loc_y as int), n as int),
            -0x100000000000000 <= best <= 0x100000000000000,
        decreases right@.len() - n,
    {
        let cur: i64 = 2 * (right[n].0 as i64 + loc_x) + (right[n].1 as i64 + loc_y);
        if cur > best {
            best = cur;
        }
        n = n + 1;
    }
    best
}


/// Every pattern of a list is internally valid.
pub open spec fn all_valid(ps: Seq<Pattern>) -> bool {
    forall|k: int| 0 <= k < ps.len() ==> (#[trigger] ps[k]).valid()
}

/// Bound on a silhouette minimum: it lies between the bounds of the entries.
proof fn lemma_left_most2_range(left: Seq<Coord>, cx: int, cy: int, top_y: int, n: int)
    requires
        1 <= n <= left.len(),
        forall|i: int|
            0 <= i < left.len() ==> -0x1000000 <= (#[trigger] left[i]).0 <= 0x1000000
                && -0x1000000 <= left[i].1 <= 0x1000000,
        -0x1000000 <= top_y <= 0x1000000,
    ensures
        spec_left_most2(left, cx, cy, top_y, n) >= 2 * cx + cy - 0x4000000,
        spec_left_most2(left, cx, cy, top_y, n) <= 2 * cx + cy + 0x4000000,
    decreases n,
{
    if n > 1 {
        lemma_left_most2_range(left, cx, cy, top_y, n - 1);
    }
}

/// Bound on the silhouette gap minimum.
proof fn lemma_min_gap_range(cur_left: Seq<Coord>, prev_right: Seq<Coord>, n: int)
    requires
        1 <= n <= cur_left.len(),
        n <= prev_right.len(),
        forall|i: int|
            0 <= i < cur_left.len() ==> -0x1000000 <= (#[trigger] cur_left[i]).0 <= 0x1000000,
        forall|i: int|
            0 <= i < prev_right.len() ==> -0x1000000 <= (#[trigger] prev_right[i]).0 <= 0x1000000,
    ensures
        -0x2000000 <= spec_min_gap(cur_left, prev_right, n) <= 0x2000000,
    decreases n,
{
    if n > 1 {
        lemma_min_gap_range(cur_left, prev_right, n - 1);
    }
}

/// Bound on a placed silhouette maximum.
proof fn lemma_right_most2_range(right: Seq<Coord>, loc: (int, int), n: int)
    requires
        1 <= n <= right.len(),
        forall|i: int|
            0 <= i < right.len() ==> -0x1000000 <= (#[trigger] right[i]).0 <= 0x1000000
                && -0x1000000 <= right[i].1 <= 0x1000000,
    ensures
        spec_right_most2(right, loc, n) >= 2 * loc.0 + loc.1 - 0x3000000,
        spec_right_most2(right, loc, n) <= 2 * loc.0 + loc.1 + 0x3000000,
    decreases n,
{
    if n > 1 {
        lemma_right_most2_range(right, loc, n - 1);
    }
}


/// A silhouette minimum is nonnegative once the shift puts every entry at or
/// right of the margin.
proof fn lemma_left_most2_nonneg(left: Seq<Coord>, cx: int, cy: int, top_y: int, n: int)
    requires
        1 <= n <= left.len(),
        forall|i: int|
            0 <= i < left.len() ==> (#[trigger] left[i]).0 + cx >= 0 && left[i].1 >= top_y,
        cy >= 0,
    ensures
        spec_left_most2(left, cx, cy, top_y, n) >= 0,
    decreases n,
{
    if n > 1 {
        lemma_left_most2_nonneg(left, cx, cy, top_y, n - 1);
    }
}

/// Bounds on every field of the layout state, linear in the number of
/// patterns placed, so that the layout can be computed in 64-bit arithmetic.
proof fn lemma_layout_bounds(ps: Seq<Pattern>, mw: int, n: int)
    requires
        all_valid(ps),
        ps.len() <= MAX_GRID_PATTERNS,
        0 <= n <= ps.len(),
    ensures
        -0x10000000 * (n + 1) <= layout(ps, mw, n).current_x <= 0x10000000 * (n + 1),
        -0x10000000 * (n + 1) <= layout(ps, mw, n).current_x_offset <= 0,
        0 <= layout(ps, mw, n).current_y <= 0x2000002 * n,
        0 <= layout(ps, mw, n).max_y_row <= 0x2000000,
        0 <= layout(ps, mw, n).max_x2 <= 0x80000000 * (n + 1),
        layout(ps, mw, n).locations.len() == n,
        forall|k: int|
            0 <= k < n ==> -0x20000000 * (n + 1) <= (#[trigger] layout(
                ps,
                mw,
                n,
            ).locations[k]).0 <= 0x20000000 * (n + 1) && -0x3000003 * (n + 1) <= layout(
                ps,
                mw,
                n,
            ).locations[k].1 <= 0x3000003 * (n + 1),
    decreases n,
{
    if n > 0 {
        lemma_layout_bounds(ps, mw, n - 1);
        let st = layout(ps, mw, n - 1);
        let p = ps[n - 1];
        assert(p.valid());
        assert(p.left_perimiter@.len() >= 1);
        assert forall|i: int| 0 <= i < p.left_perimiter@.len() implies -0x1000000 <= (
        #[trigger] p.left_perimiter@[i]).0 <= 0x1000000 && -0x1000000 <= p.left_perimiter@[i].1
            <= 0x1000000 by {
            let k = choose|k: int|
                0 <= k < p.path@.len() && p.path@[k] == #[trigger] p.left_perimiter@[i];
        }
        if n - 1 > 0 {
            let prev = ps[n - 2];
            assert(prev.valid());
            assert forall|i: int| 0 <= i < prev.right_perimiter@.len() implies -0x1000000 <= (
            #[trigger] prev.right_perimiter@[i]).0 <= 0x1000000 && -0x1000000
                <= prev.right_perimiter@[i].1 <= 0x1000000 by {
                let k = choose|k: int|
                    0 <= k < prev.path@.len() && prev.path@[k] == #[trigger] prev.right_perimiter@[i];
            }
            let shared = if p.left_perimiter@.len() <= prev.right_perimiter@.len() {
                p.left_perimiter@.len() as int
            } else {
                prev.right_perimiter@.len() as int
            };
            lemma_min_gap_range(p.left_perimiter@, prev.right_perimiter@, shared);
            lemma_right_most2_range(
                prev.right_perimiter@,
                st.locations[n - 2],
                prev.right_perimiter@.len() as int,
            );
        }
        assert forall|i: int| 0 <= i < p.left_perimiter@.len() implies (
        #[trigger] p.left_perimiter@[i]).0 + (-p.top_left.0 as int) >= 0 && p.left_perimiter@[i].1
            >= p.top_left.1 as int by {
            let k = choose|k: int|
                0 <= k < p.path@.len() && p.path@[k] == #[trigger] p.left_perimiter@[i];
        }
        lemma_left_most2_range(
            p.left_perimiter@,
            -p.top_left.0 as int,
            0,
            p.top_left.1 as int,
            p.left_perimiter@.len() as int,
        );
        lemma_left_most2_nonneg(
            p.left_perimiter@,
            -p.top_left.0 as int,
            0,
            p.top_left.1 as int,
            p.left_perimiter@.len() as int,
        );
        lemma_left_most2_range(
            p.left_perimiter@,
            -p.top_left.0 as int,
            st.current_y + st.max_y_row + 1,
            p.top_left.1 as int,
            p.left_perimiter@.len() as int,
        );
        lemma_left_most2_nonneg(
            p.left_perimiter@,
            -p.top_left.0 as int,
            st.current_y + st.max_y_row + 1,
            p.top_left.1 as int,
            p.left_perimiter@.len() as int,
        );
    }
}


/// A list of patterns packed into rows: each pattern keeps a lattice anchor,
/// and one global flag says whether every final planar position (and the
/// canvas width) is nudged left by half a planar unit.
#[derive(Debug)]
pub struct HexGrid {
    /// The patterns, in input order.
    pub patterns: Vec<PatternVariant>,
    /// Lattice anchor of each pattern; its planar position is the anchor's
    /// planar point, minus half a unit in x when `offset_left` is set.
    pub locations: Vec<(i64, i64)>,
    /// Whether all placements are shifted left by half a planar unit.
    pub offset_left: bool,
    /// Canvas width in half planar units, after the alignment shift.
    pub width_x2: i64,
    /// Canvas height in lattice rows.
    pub height_rows: i64,
}

/// What `HexGrid::new` promises: the grid holds exactly the results of the
/// flow layout of `ps` under width limit `mw`, with the canvas width taking
/// the last row's reach into account.
pub open spec fn hex_grid_matches(g: HexGrid, ps: Seq<PatternVariant>, mw: int) -> bool {
    let inner = inner_seq(ps);
    let n = ps.len() as int;
    let fin = layout(inner, mw, n);
    let last = inner[n - 1];
    let reach = spec_right_most2(
        last.right_perimiter@,
        fin.locations[n - 1],
        last.right_perimiter@.len() as int,
    );
    let mx = if reach > fin.max_x2 {
        reach
    } else {
        fin.max_x2
    };
    &&& g.patterns@ == ps
    &&& g.locations@.len() == n
    &&& forall|k: int|
        0 <= k < n ==> ((#[trigger] g.locations@[k]).0 as int, g.locations@[k].1 as int)
            == fin.locations[k]
    &&& g.offset_left == fin.offset_left
    &&& g.width_x2 as int == mx - (if fin.offset_left {
        1int
    } else {
        0int
    })
    &&& g.height_rows as int == fin.current_y + fin.max_y_row
}

impl HexGrid {
    /// Packs `patterns` into rows at most `max_width` planar units wide.
    /// Fails on an empty list or a zero width; otherwise the anchors, the
    /// alignment flag and the canvas extent are exactly those of the flow
    /// layout (`layout`).
    #[verifier::rlimit(100)]
    pub fn new(patterns: Vec<PatternVariant>, max_width: usize) -> (r: Result<
        HexGrid,
        GridCreationError,
    >)
        requires
            patterns@.len() <= MAX_GRID_PATTERNS,
            all_valid(inner_seq(patterns@)),
        ensures
            patterns@.len() == 0 ==> r == Err::<HexGrid, GridCreationError>(
                GridCreationError::EmptyPatternList,
            ),
            patterns@.len() > 0 && max_width < 1 ==> r == Err::<HexGrid, GridCreationError>(
                GridCreationError::NegativeInput,
            ),
            patterns@.len() > 0 && max_width >= 1 ==> (r matches Ok(g) && hex_grid_matches(
                g,
                patterns@,
                max_width as int,
            )),
    {
        if patterns.len() == 0 {
            return Err(GridCreationError::EmptyPatternList);
        }
        if max_width < 1 {
            return Err(GridCreationError::NegativeInput);
        }
        let ghost inner = inner_seq(patterns@);
        let ghost mw = max_width as int;
        let wide: bool = max_width as u64 >= 0x400000000000u64;

        let mut locations: Vec<(i64, i64)> = Vec::new();
        let mut current_x: i64 = 0;
        let mut current_x_offset: i64 = 0;
        let mut current_y: i64 = 0;
        let mut max_y_row: i64 = 0;
        let mut max_x2: i64 = 0;
        let mut offset_left: bool = false;

        let mut index: usize = 0;
        while index < patterns.len()
            invariant
                patterns@.len() <= MAX_GRID_PATTERNS,
                patterns@.len() >= 1,
                all_valid(inner),
                inner == inner_seq(patterns@),
                inner.len() == patterns@.len(),
                mw == max_width as int,
                mw >= 1,
                wide == (max_width as u64 >= 0x400000000000u64),
                index <= patterns@.len(),
                current_x as int == layout(inner, mw, index as int).current_x,
                current_x_offset as int == layout(inner, mw, index as int).current_x_offset,
                current_y as int == layout(inner, mw, index as int).current_y,
                max_y_row as int == layout(inner, mw, index as int).max_y_row,
                max_x2 as int == layout(inner, mw, index as int).max_x2,
                index > 0 ==> offset_left == layout(inner, mw, index as int).offset_left,
                index == 0 ==> offset_left == false,
                locations@.len() == index,
                forall|k: int|
                    0 <= k < index ==> ((#[trigger] locations@[k]).0 as int,
                    locations@[k].1 as int) == layout(inner, mw, index as int).locations[k],
            decreases patterns@.len() - index,
        {
            proof {
                lemma_layout_bounds(inner, mw, index as int);
                lemma_layout_bounds(inner, mw, index as int + 1);
                assert(inner[index as int] == patterns@[index as int].spec_inner());
                if index > 0 {
                    assert(inner[index as int - 1] == patterns@[index as int - 1].spec_inner());
                }
            }
            let ghost st = layout(inner, mw, index as int);
            let p = patterns[index].get_inner();
            proof {
                assert(p.valid());
                assert forall|i: int| 0 <= i < p.left_perimiter@.len() implies -0x1000000 <= (
                #[trigger] p.left_perimiter@[i]).0 <= 0x1000000 && -0x1000000
                    <= p.left_perimiter@[i].1 <= 0x1000000 && p.left_perimiter@[i].0
                    - p.top_left.0 >= 0 && p.left_perimiter@[i].1 >= p.top_left.1 by {
                    let k = choose|k: int|
                        0 <= k < p.path@.len() && p.path@[k] == #[trigger] p.left_perimiter@[i];
                }
            }
            let height: i64 = p.bottom_right.1 as i64 - p.top_left.1 as i64;

            if index == 0 {
                current_x = -(p.top_left.0 as i64);
                let lm = left_most2_exec(&p.left_perimiter, current_x, 0, p.top_left.1);
                proof {
                    lemma_left_most2_nonneg(
                        p.left_perimiter@,
                        current_x as int,
                        0,
                        p.top_left.1 as int,
                        p.left_perimiter@.len() as int,
                    );
                }
                current_x_offset = -(lm / 2);
                offset_left = lm % 2 == 1;
            } else {
                let prev = patterns[index - 1].get_inner();
                proof {
                    assert(prev.valid());
                    assert forall|i: int| 0 <= i < prev.right_perimiter@.len() implies -0x1000000
                        <= (#[trigger] prev.right_perimiter@[i]).0 <= 0x1000000 && -0x1000000
                        <= prev.right_perimiter@[i].1 <= 0x1000000 by {
                        let k = choose|k: int|
                            0 <= k < prev.path@.len() && prev.path@[k]
                                == #[trigger] prev.right_perimiter@[i];
                    }
                }
                let gap = min_gap_exec(&p.left_perimiter, &prev.right_perimiter);
                current_x = current_x - (gap - 1);
            }

            if index != 0 {
                let lhs: i64 = 2 * (current_x + p.bottom_right.0 as i64) + max_y_row;
                let over: bool = if wide {
                    false
                } else {
                    lhs > 2 * (max_width as i64)
                };
                if over {
                    current_x = -(p.top_left.0 as i64);
                    current_y = current_y + max_y_row + 1;
                    let lm = left_most2_exec(&p.left_perimiter, current_x, current_y, p.top_left.1);
                    proof {
                        lemma_left_most2_nonneg(
                            p.left_perimiter@,
                            current_x as int,
                            current_y as int,
                            p.top_left.1 as int,
                            p.left_perimiter@.len() as int,
                        );
                    }
                    current_x_offset = -(lm / 2);
                    max_y_row = 0;
                    let prev = patterns[index - 1].get_inner();
                    proof {
                        assert(prev.valid());
                        assert forall|i: int|
                            0 <= i < prev.right_perimiter@.len() implies -0x1000000 <= (
                        #[trigger] prev.right_perimiter@[i]).0 <= 0x1000000 && -0x1000000
                            <= prev.right_perimiter@[i].1 <= 0x1000000 by {
                            let k = choose|k: int|
                                0 <= k < prev.path@.len() && prev.path@[k]
                                    == #[trigger] prev.right_perimiter@[i];
                        }
                    }
                    let loc_prev = locations[index - 1];
                    let reach = right_most2_exec(&prev.right_perimiter, loc_prev.0, loc_prev.1);
                    if reach > max_x2 {
                        max_x2 = reach;
                    }
                }
            }

            if height > max_y_row {
                max_y_row = height;
            }
            locations.push((current_x + current_x_offset, current_y - p.top_left.1 as i64));
            proof {
                assert(layout(inner, mw, index as int + 1) == layout_step(
                    st,
                    inner,
                    mw,
                    index as int,
                ));
            }
            index = index + 1;
        }

        proof {
            lemma_layout_bounds(inner, mw, inner.len() as int);
        }
        let last = patterns[patterns.len() - 1].get_inner();
        proof {
            assert(inner[inner.len() - 1] == patterns@[patterns@.len() - 1].spec_inner());
            assert(last.valid());
            assert forall|i: int| 0 <= i < last.right_perimiter@.len() implies -0x1000000 <= (
            #[trigger] last.right_perimiter@[i]).0 <= 0x1000000 && -0x1000000
                <= last.right_perimiter@[i].1 <= 0x1000000 by {
                let k = choose|k: int|
                    0 <= k < last.path@.len() && last.path@[k]
                        == #[trigger] last.right_perimiter@[i];
            }
        }
        let loc_last = locations[locations.len() - 1];
        let reach = right_most2_exec(&last.right_perimiter, loc_last.0, loc_last.1);
        let mx = if reach > max_x2 {
            reach
        } else {
            max_x2
        };
        let width_x2 = mx - (if offset_left {
            1
        } else {
            0
        });
        let height_rows = current_y + max_y_row;
        Ok(HexGrid { patterns, locations, offset_left, width_x2, height_rows })
    }

    /// Packs plain patterns, each drawn in its normal coloring.
    pub fn new_normal(patterns: Vec<Pattern>, max_width: usize) -> (r: Result<
        HexGrid,
        GridCreationError,
    >)
        requires
            patterns@.len() <= MAX_GRID_PATTERNS,
            forall|k: int| 0 <= k < patterns@.len() ==> (#[trigger] patterns@[k]).valid(),
        ensures
            patterns@.len() == 0 ==> r == Err::<HexGrid, GridCreationError>(
                GridCreationError::EmptyPatternList,
            ),
            patterns@.len() > 0 && max_width < 1 ==> r == Err::<HexGrid, GridCreationError>(
                GridCreationError::NegativeInput,
            ),
            patterns@.len() > 0 && max_width >= 1 ==> (r matches Ok(g) && hex_grid_matches(
                g,
                patterns@.map_values(|p: Pattern| PatternVariant::Normal(p)),
                max_width as int,
            )),
    {
        let ghost orig = patterns@;
        let mut patterns = patterns;
        let mut wrapped: Vec<PatternVariant> = Vec::new();
        while patterns.len() != 0
            invariant
                wrapped@.len() + patterns@.len() == orig.len(),
                patterns@ =~= orig.subrange(wrapped@.len() as int, orig.len() as int),
                forall|k: int|
                    0 <= k < wrapped@.len() ==> (#[trigger] wrapped@[k])
                        == PatternVariant::Normal(orig[k]),
            decreases patterns@.len(),
        {
            let ghost done = wrapped@.len() as int;
            let p = patterns.remove(0);
            proof {
                assert(p == orig[done]);
                assert(patterns@ =~= orig.subrange(done + 1, orig.len() as int));
            }
            wrapped.push(PatternVariant::Normal(p));
        }
        proof {
            assert(wrapped@.len() == orig.len());
            assert(wrapped@ =~= orig.map_values(|p: Pattern| PatternVariant::Normal(p)));
            assert forall|k: int| 0 <= k < wrapped@.len() implies (
            #[trigger] inner_seq(wrapped@)[k]).valid() by {
                assert(inner_seq(wrapped@)[k] == wrapped@[k].spec_inner());
                assert(wrapped@[k] == PatternVariant::Normal(orig[k]));
            }
        }
        HexGrid::new(wrapped, max_width)
    }
}


/// Shifting the x anchor shifts a silhouette minimum by twice the shift.
proof fn lemma_left_most2_shift(left: Seq<Coord>, cx: int, d: int, cy: int, top_y: int, n: int)
    requires
        1 <= n <= left.len(),
    ensures
        spec_left_most2(left, cx + d, cy, top_y, n) == spec_left_most2(left, cx, cy, top_y, n) + 2
            * d,
    decreases n,
{
    if n > 1 {
        lemma_left_most2_shift(left, cx, d, cy, top_y, n - 1);
    }
}

/// A silhouette minimum depends on its row shift and top row only through
/// their difference.
proof fn lemma_left_most2_row_shift(left: Seq<Coord>, cx: int, cy: int, top_y: int, e: int, n: int)
    requires
        1 <= n <= left.len(),
    ensures
        spec_left_most2(left, cx, cy + e, top_y + e, n) == spec_left_most2(left, cx, cy, top_y, n),
    decreases n,
{
    if n > 1 {
        lemma_left_most2_row_shift(left, cx, cy, top_y, e, n - 1);
    }
}

/// Margin law: a single pattern laid out alone lands with its leftmost
/// silhouette point exactly at planar x zero, once the grid's half-step
/// alignment shift is applied. `spec_left_most2(left, loc.0, loc.1, 0, n)`
/// is the doubled planar x of the placed pattern's leftmost silhouette
/// point.
pub proof fn lemma_single_pattern_at_margin(p: Pattern, mw: int)
    requires
        p.valid(),
    ensures
        ({
            let fin = layout(seq![p], mw, 1);
            let placed = spec_left_most2(
                p.left_perimiter@,
                fin.locations[0].0,
                fin.locations[0].1,
                0,
                p.left_perimiter@.len() as int,
            );
            placed == if fin.offset_left {
                1int
            } else {
                0int
            }
        }),
{
    let ps = seq![p];
    let n = p.left_perimiter@.len() as int;
    let cx = -p.top_left.0 as int;
    let lm = spec_left_most2(p.left_perimiter@, cx, 0, p.top_left.1 as int, n);
    let cxo = -(lm / 2);
    let fin = layout(ps, mw, 1);
    assert(layout(ps, mw, 0) == layout_init());
    assert(fin == layout_step(layout_init(), ps, mw, 0));
    assert(fin.locations[0] == (cx + cxo, 0 - p.top_left.1 as int));
    assert forall|i: int| 0 <= i < p.left_perimiter@.len() implies (
    #[trigger] p.left_perimiter@[i]).0 + cx >= 0 && p.left_perimiter@[i].1
        >= p.top_left.1 as int by {
        let k = choose|k: int|
            0 <= k < p.path@.len() && p.path@[k] == #[trigger] p.left_perimiter@[i];
    }
    lemma_left_most2_nonneg(p.left_perimiter@, cx, 0, p.top_left.1 as int, n);
    lemma_left_most2_row_shift(
        p.left_perimiter@,
        cx + cxo,
        0,
        p.top_left.1 as int,
        -p.top_left.1 as int,
        n,
    );
    lemma_left_most2_shift(p.left_perimiter@, cx, cxo, 0, p.top_left.1 as int, n);
    vstd::arithmetic::div_mod::lemma_fundamental_div_mod(lm, 2);
}

/// Determinism law: two grids built from the same pattern list and the same
/// width limit place every pattern at the same coordinates and report the
/// same canvas extent and alignment.
pub proof fn lemma_layout_deterministic(
    g1: HexGrid,
    g2: HexGrid,
    ps: Seq<PatternVariant>,
    mw: int,
)
    requires
        ps.len() >= 1,
        hex_grid_matches(g1, ps, mw),
        hex_grid_matches(g2, ps, mw),
    ensures
        g1.locations@ == g2.locations@,
        g1.offset_left == g2.offset_left,
        g1.width_x2 == g2.width_x2,
        g1.height_rows == g2.height_rows,
{
    assert forall|k: int| 0 <= k < g1.locations@.len() implies #[trigger] g1.locations@[k]
        == g2.locations@[k] by {
        let fin = layout(inner_seq(ps), mw, ps.len() as int);
        assert((g1.locations@[k].0 as int, g1.locations@[k].1 as int) == fin.locations[k]);
        assert((g2.locations@[k].0 as int, g2.locations@[k].1 as int) == fin.locations[k]);
    }
    assert(g1.locations@ =~= g2.locations@);
}


/// Whether a turn sequence occurs in a list of trigger sequences.
pub open spec fn in_angle_set(sets: Seq<Seq<Angle>>, a: Seq<Angle>) -> bool {
    exists|j: int| 0 <= j < sets.len() && sets[j] == a
}

/// The style index used for each of the first `n` patterns, and the index
/// in effect afterwards. A pattern whose turn sequence is an "intro"
/// trigger is drawn with the current style and advances the index after it;
/// one whose sequence is a "retro" trigger steps the index back first and
/// is drawn with the new style; both wrap cyclically among `n_styles`.
pub open spec fn spec_style_fold(
    angles: Seq<Seq<Angle>>,
    intros: Seq<Seq<Angle>>,
    retros: Seq<Seq<Angle>>,
    n_styles: int,
    n: int,
) -> (Seq<int>, int)
    decreases n,
{
    if n <= 0 {
        (Seq::empty(), 0)
    } else {
        let (used, cur) = spec_style_fold(angles, intros, retros, n_styles, n - 1);
        let a = angles[n - 1];
        if in_angle_set(intros, a) {
            (used.push(cur), (cur + 1) % n_styles)
        } else if in_angle_set(retros, a) {
            let nc = if cur == 0 {
                n_styles - 1
            } else {
                cur - 1
            };
            (used.push(nc), nc)
        } else {
            (used.push(cur), cur)
        }
    }
}


/// The style fold assigns exactly one index per pattern.
proof fn lemma_style_fold_len(
    angles: Seq<Seq<Angle>>,
    intros: Seq<Seq<Angle>>,
    retros: Seq<Seq<Angle>>,
    n_styles: int,
    n: int,
)
    requires
        n >= 0,
    ensures
        spec_style_fold(angles, intros, retros, n_styles, n).0.len() == n,
    decreases n,
{
    if n > 0 {
        lemma_style_fold_len(angles, intros, retros, n_styles, n - 1);
    }
}

/// Whether two turn sequences are equal.
fn angles_eq(a: &Vec<Angle>, b: &Vec<Angle>) -> (r: bool)
    ensures
        r <==> a@ == b@,
{
    if a.len() != b.len() {
        return false;
    }
    let mut k: usize = 0;
    while k < a.len()
        invariant
            k <= a@.len(),
            a@.len() == b@.len(),
            forall|m: int| 0 <= m < k ==> a@[m] == b@[m],
        decreases a@.len() - k,
    {
        if a[k] != b[k] {
            return false;
        }
        k = k + 1;
    }
    proof {
        assert(a@ =~= b@);
    }
    true
}

/// Whether a turn sequence occurs among trigger sequences.
fn contains_angles(sets: &Vec<Vec<Angle>>, a: &Vec<Angle>) -> (r: bool)
    ensures
        r <==> in_angle_set(sets@.map_values(|v: Vec<Angle>| v@), a@),
{
    let ghost mapped = sets@.map_values(|v: Vec<Angle>| v@);
    let mut k: usize = 0;
    while k < sets.len()
        invariant
            k <= sets@.len(),
            mapped == sets@.map_values(|v: Vec<Angle>| v@),
            forall|m: int| 0 <= m < k ==> mapped[m] != a@,
        decreases sets@.len() - k,
    {
        if angles_eq(&sets[k], a) {
            proof {
                assert(mapped[k as int] == a@);
            }
            return true;
        }
        k = k + 1;
    }
    false
}

/// The turn sequences of each pattern of a list.
pub open spec fn angle_seqs(ps: Seq<PatternVariant>) -> Seq<Seq<Angle>> {
    ps.map_values(|pv: PatternVariant| pv.spec_inner().angles@)
}

/// Which style each pattern of a grid is drawn with, under the trigger
/// state machine of `spec_style_fold`.
pub fn style_indices(
    patterns: &Vec<PatternVariant>,
    n_styles: usize,
    intros: &Vec<Vec<Angle>>,
    retros: &Vec<Vec<Angle>>,
) -> (r: Vec<usize>)
    requires
        1 <= n_styles < 0x40000000,
    ensures
        r@.len() == patterns@.len(),
        forall|k: int|
            0 <= k < r@.len() ==> (#[trigger] r@[k]) as int == spec_style_fold(
                angle_seqs(patterns@),
                intros@.map_values(|v: Vec<Angle>| v@),
                retros@.map_values(|v: Vec<Angle>| v@),
                n_styles as int,
                patterns@.len() as int,
            ).0[k],
{
    let ghost gangles = angle_seqs(patterns@);
    let ghost gintros = intros@.map_values(|v: Vec<Angle>| v@);
    let ghost gretros = retros@.map_values(|v: Vec<Angle>| v@);
    let mut used: Vec<usize> = Vec::new();
    let mut cur: usize = 0;
    let mut k: usize = 0;
    while k < patterns.len()
        invariant
            1 <= n_styles < 0x40000000,
            k <= patterns@.len(),
            gangles == angle_seqs(patterns@),
            gintros == intros@.map_values(|v: Vec<Angle>| v@),
            gretros == retros@.map_values(|v: Vec<Angle>| v@),
            used@.len() == k,
            cur < n_styles,
            cur as int == spec_style_fold(gangles, gintros, gretros, n_styles as int, k as int).1,
            forall|m: int|
                0 <= m < k ==> (#[trigger] used@[m]) as int == spec_style_fold(
                    gangles,
                    gintros,
                    gretros,
                    n_styles as int,
                    k as int,
                ).0[m],
        decreases patterns@.len() - k,
    {
        let angles = &patterns[k].get_inner().angles;
        proof {
            assert(gangles[k as int] == patterns@[k as int].spec_inner().angles@);
        }
        if contains_angles(intros, angles) {
            used.push(cur);
            cur = (cur + 1) % n_styles;
        } else if contains_angles(retros, angles) {
            cur = if cur == 0 {
                n_styles - 1
            } else {
                cur - 1
            };
            used.push(cur);
        } else {
            used.push(cur);
        }
        proof {
            let fold_next = spec_style_fold(gangles, gintros, gretros, n_styles as int, k + 1);
            let fold_prev = spec_style_fold(gangles, gintros, gretros, n_styles as int, k as int);
            lemma_style_fold_len(gangles, gintros, gretros, n_styles as int, k as int);
            lemma_style_fold_len(gangles, gintros, gretros, n_styles as int, k + 1);
            assert(fold_next.0 =~= fold_prev.0.push(used@[k as int] as int));
            assert forall|m: int| 0 <= m < k + 1 implies (#[trigger] used@[m]) as int
                == fold_next.0[m] by {
                if m < k {
                    assert(fold_next.0[m] == fold_prev.0[m]);
                }
            }
        }
        k = k + 1;
    }
    used
}


/// The tile of the alternate square layout that pattern `index` occupies:
/// row `index / max_width`, column `index % max_width`.
pub fn tile_slot(index: usize, max_width: usize) -> (r: (usize, usize))
    requires
        max_width >= 1,
    ensures
        r.0 == index / max_width,
        r.1 == index % max_width,
        index == r.0 * max_width + r.1,
{
    let row = index / max_width;
    let col = index % max_width;
    proof {
        vstd::arithmetic::div_mod::lemma_fundamental_div_mod(index as int, max_width as int);
        assert((index as int / max_width as int) * (max_width as int) == (max_width as int) * (
        index as int / max_width as int)) by (nonlinear_arith);
    }
    (row, col)
}

} // verus!
