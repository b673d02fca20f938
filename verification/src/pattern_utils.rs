//! Value types for the triangular lattice: turn angles, headings, integer
//! lattice coordinates, order-normalized edges, and a growable list indexed
//! by signed integers.

use vstd::prelude::*;

verus! {

/// A relative turn, added to the current heading to get the next one.
/// In textual notation the six turns are written `w`, `e`, `d`, `s`, `a`, `q`.
#[derive(Debug, Clone, Copy, PartialEq, Eq, Structural, Hash)]
pub enum Angle {
    Forward,
    Right,
    BackRight,
    Back,
    BackLeft,
    Left,
}

/// The character was not one of `w`, `e`, `d`, `s`, `a`, `q`.
#[derive(Debug, Clone, Copy, PartialEq, Eq, Structural)]
pub struct AngleParseError(pub char);

impl Angle {
    /// Offset 0..6 that this turn adds to a heading, modulo 6.
    pub open spec fn as_int(self) -> int {
        match self {
            Angle::Forward => 0,
            Angle::Right => 1,
            Angle::BackRight => 2,
            Angle::Back => 3,
            Angle::BackLeft => 4,
            Angle::Left => 5,
        }
    }

    /// The turn denoted by a notation character, if any.
    pub open spec fn spec_from_char(value: char) -> Result<Angle, AngleParseError> {
        match value {
            'w' => Ok(Angle::Forward),
            'e' => Ok(Angle::Right),
            'd' => Ok(Angle::BackRight),
            's' => Ok(Angle::Back),
            'a' => Ok(Angle::BackLeft),
            'q' => Ok(Angle::Left),
            _ => Err(AngleParseError(value)),
        }
    }

    pub fn index(self) -> (r: u8)
        ensures
            r as int == self.as_int(),
    {
        match self {
            Angle::Forward => 0,
            Angle::Right => 1,
            Angle::BackRight => 2,
            Angle::Back => 3,
            Angle::BackLeft => 4,
            Angle::Left => 5,
        }
    }

    /// Parses one notation character: `w`, `e`, `d`, `s`, `a` or `q`.
    pub fn try_from(value: char) -> (r: Result<Angle, AngleParseError>)
        ensures
            r == Angle::spec_from_char(value),
    {
        match value {
            'w' => Ok(Angle::Forward),
            'e' => Ok(Angle::Right),
            'd' => Ok(Angle::BackRight),
            's' => Ok(Angle::Back),
            'a' => Ok(Angle::BackLeft),
            'q' => Ok(Angle::Left),
            _ => Err(AngleParseError(value)),
        }
    }
}

/// A heading on the lattice, one of six compass directions, cyclic with
/// period 6 in the order listed.
#[derive(Debug, Clone, Copy, PartialEq, Eq, Structural, Hash)]
pub enum Direction {
    East,
    SouthEast,
    SouthWest,
    West,
    NorthWest,
    NorthEast,
}

/// Why a number or a name failed to denote a direction.
#[derive(Debug, Clone, PartialEq, Eq)]
pub enum DirectionParseError {
    InvalidNumber(u8),
    InvalidStr(String),
}

impl Direction {
    /// Index 0..6 of this heading in cyclic order.
    pub open spec fn as_int(self) -> int {
        match self {
            Direction::East => 0,
            Direction::SouthEast => 1,
            Direction::SouthWest => 2,
            Direction::West => 3,
            Direction::NorthWest => 4,
            Direction::NorthEast => 5,
        }
    }

    /// Lattice x step of one move along this heading.
    pub open spec fn spec_dx(self) -> int {
        match self {
            Direction::East => 1,
            Direction::SouthEast => 0,
            Direction::SouthWest => -1,
            Direction::West => -1,
            Direction::NorthWest => 0,
            Direction::NorthEast => 1,
        }
    }

    /// Lattice y step of one move along this heading.
    pub open spec fn spec_dy(self) -> int {
        match self {
            Direction::East => 0,
            Direction::SouthEast => 1,
            Direction::SouthWest => 1,
            Direction::West => 0,
            Direction::NorthWest => -1,
            Direction::NorthEast => -1,
        }
    }

    /// The heading with the given cyclic index.
    pub open spec fn spec_from_index(value: int) -> Direction {
        if value == 0 {
            Direction::East
        } else if value == 1 {
            Direction::SouthEast
        } else if value == 2 {
            Direction::SouthWest
        } else if value == 3 {
            Direction::West
        } else if value == 4 {
            Direction::NorthWest
        } else {
            Direction::NorthEast
        }
    }

    pub fn index(self) -> (r: u8)
        ensures
            r as int == self.as_int(),
    {
        match self {
            Direction::East => 0,
            Direction::SouthEast => 1,
            Direction::SouthWest => 2,
            Direction::West => 3,
            Direction::NorthWest => 4,
            Direction::NorthEast => 5,
        }
    }

    pub fn from_index(value: u8) -> (r: Direction)
        requires
            value < 6,
        ensures
            r == Direction::spec_from_index(value as int),
            r.as_int() == value as int,
    {
        if value == 0 {
            Direction::East
        } else if value == 1 {
            Direction::SouthEast
        } else if value == 2 {
            Direction::SouthWest
        } else if value == 3 {
            Direction::West
        } else if value == 4 {
            Direction::NorthWest
        } else {
            Direction::NorthEast
        }
    }

    /// Accepts 0 through 5, in the cyclic order of the headings.
    pub fn try_from(value: u8) -> (r: Result<Direction, DirectionParseError>)
        ensures
            value < 6 ==> r == Ok::<Direction, DirectionParseError>(
                Direction::spec_from_index(value as int),
            ),
            value >= 6 ==> r == Err::<Direction, DirectionParseError>(
                DirectionParseError::InvalidNumber(value),
            ),
    {
        if value < 6 {
            Ok(Direction::from_index(value))
        } else {
            Err(DirectionParseError::InvalidNumber(value))
        }
    }

    /// The heading after taking a relative turn: indices add modulo 6.
    pub fn turned(self, rhs: Angle) -> (r: Direction)
        ensures
            r.as_int() == (self.as_int() + rhs.as_int()) % 6,
    {
        let idx: u8 = (self.index() + rhs.index()) % 6;
        Direction::from_index(idx)
    }

    /// The opposite heading: one move along it undoes a move along `self`.
    pub fn get_reverse(self) -> (r: Direction)
        ensures
            r.as_int() == (self.as_int() + 3) % 6,
            r.spec_dx() == -self.spec_dx(),
            r.spec_dy() == -self.spec_dy(),
    {
        match self {
            Direction::East => Direction::West,
            Direction::West => Direction::East,
            Direction::NorthEast => Direction::SouthWest,
            Direction::SouthWest => Direction::NorthEast,
            Direction::NorthWest => Direction::SouthEast,
            Direction::SouthEast => Direction::NorthWest,
        }
    }

    /// Lattice step of one move along this heading, as `(dx, dy)`.
    pub fn delta(self) -> (r: (i32, i32))
        ensures
            r.0 as int == self.spec_dx(),
            r.1 as int == self.spec_dy(),
    {
        match self {
            Direction::East => (1, 0),
            Direction::SouthEast => (0, 1),
            Direction::SouthWest => (-1, 1),
            Direction::West => (-1, 0),
            Direction::NorthWest => (0, -1),
            Direction::NorthEast => (1, -1),
        }
    }
}

/// A point of the lattice in axial integer coordinates `(x, y)`. Its planar
/// position is `(x + y/2, y * sqrt(3)/2)`; the planar x doubled,
/// `2*x + y`, is therefore an exact integer ("half units").
#[derive(Debug, Clone, Copy, PartialEq, Eq, Structural, Hash)]
pub struct Coord(pub i32, pub i32);

impl Coord {
    /// Planar x position doubled, an exact integer.
    pub open spec fn planar_x2(self) -> int {
        2 * self.0 + self.1
    }

    /// Componentwise minimum.
    pub fn min_components(self, rhs: Self) -> (r: Self)
        ensures
            r.0 == if self.0 < rhs.0 { self.0 } else { rhs.0 },
            r.1 == if self.1 < rhs.1 { self.1 } else { rhs.1 },
    {
        Coord(
            if self.0 < rhs.0 { self.0 } else { rhs.0 },
            if self.1 < rhs.1 { self.1 } else { rhs.1 },
        )
    }

    /// Componentwise maximum.
    pub fn max_components(self, rhs: Self) -> (r: Self)
        ensures
            r.0 == if self.0 > rhs.0 { self.0 } else { rhs.0 },
            r.1 == if self.1 > rhs.1 { self.1 } else { rhs.1 },
    {
        Coord(
            if self.0 > rhs.0 { self.0 } else { rhs.0 },
            if self.1 > rhs.1 { self.1 } else { rhs.1 },
        )
    }

    /// Whether `self` comes before `rhs` in (x, y) lexicographic order.
    pub open spec fn spec_before(self, rhs: Self) -> bool {
        self.0 < rhs.0 || (self.0 == rhs.0 && self.1 < rhs.1)
    }

    /// Orders two points lexicographically by x, then y; on equality the
    /// arguments come back swapped (the values are then the same).
    pub fn order_by_x(self, rhs: Self) -> (r: (Self, Self))
        ensures
            r == if self.spec_before(rhs) { (self, rhs) } else { (rhs, self) },
    {
        if self.0 < rhs.0 || (self.0 == rhs.0 && self.1 < rhs.1) {
            (self, rhs)
        } else {
            (rhs, self)
        }
    }

    /// The neighbouring lattice point one move along `d`.
    pub fn offset(self, d: Direction) -> (r: Self)
        requires
            i32::MIN <= self.0 + d.spec_dx() <= i32::MAX,
            i32::MIN <= self.1 + d.spec_dy() <= i32::MAX,
        ensures
            r.0 == self.0 + d.spec_dx(),
            r.1 == self.1 + d.spec_dy(),
    {
        let (dx, dy) = d.delta();
        Coord(self.0 + dx, self.1 + dy)
    }
}

/// Componentwise minimum of two lattice points.
pub fn get_min_components(a: Coord, b: Coord) -> (r: Coord)
    ensures
        r.0 == if b.0 < a.0 { b.0 } else { a.0 },
        r.1 == if b.1 < a.1 { b.1 } else { a.1 },
{
    let mut res = a;
    if b.0 < res.0 {
        res.0 = b.0;
    }
    if b.1 < res.1 {
        res.1 = b.1;
    }
    res
}

/// Componentwise maximum of two lattice points.
pub fn get_max_components(a: Coord, b: Coord) -> (r: Coord)
    ensures
        r.0 == if b.0 > a.0 { b.0 } else { a.0 },
        r.1 == if b.1 > a.1 { b.1 } else { a.1 },
{
    let mut res = a;
    if b.0 > res.0 {
        res.0 = b.0;
    }
    if b.1 > res.1 {
        res.1 = b.1;
    }
    res
}

/// An undirected lattice edge: the unordered pair of its endpoints, stored
/// in lexicographic order so that `(a, b)` and `(b, a)` compare equal.
#[derive(Debug, Clone, Copy, PartialEq, Eq, Structural, Hash)]
pub struct ConnectionPoint(pub Coord, pub Coord);

/// The canonical form of the edge between `a` and `b`.
pub open spec fn spec_edge(a: Coord, b: Coord) -> ConnectionPoint {
    if a.spec_before(b) {
        ConnectionPoint(a, b)
    } else {
        ConnectionPoint(b, a)
    }
}

/// An edge does not depend on the order its endpoints are given in.
pub proof fn lemma_edge_symmetric(a: Coord, b: Coord)
    ensures
        spec_edge(a, b) == spec_edge(b, a),
{
}

impl ConnectionPoint {
    /// Builds the canonical (order-normalized) edge between `a` and `b`.
    pub fn new(a: Coord, b: Coord) -> (r: Self)
        ensures
            r == spec_edge(a, b),
    {
        let (a, b) = a.order_by_x(b);
        ConnectionPoint(a, b)
    }
}


/// The non-empty entries of a slot sequence, in order.
pub open spec fn spec_compact<T>(s: Seq<Option<T>>) -> Seq<T>
    decreases s.len(),
{
    if s.len() == 0 {
        Seq::empty()
    } else {
        match s.last() {
            Some(v) => spec_compact(s.drop_last()).push(v),
            None => spec_compact(s.drop_last()),
        }
    }
}

/// A list indexed by signed integers that grows on demand in both
/// directions. New storage is padded by ten slots beyond the index that
/// forced the growth, so neighbouring indices can be set without moving the
/// contents again.
pub struct DynamicList<T> {
    /// Signed index of the first storage slot.
    pub lower_bound: i32,
    /// Storage slots for indices `lower_bound..lower_bound + contents.len()`.
    pub contents: Vec<Option<T>>,
}

/// Padding kept beyond the smallest and largest index stored so far.
pub const DEFAULT_BOUND: i32 = 10;

impl<T> DynamicList<T> {
    /// Storage stays inside a fixed index window, so that index arithmetic
    /// never overflows.
    pub open spec fn wf(self) -> bool {
        &&& -0x31000000 <= self.lower_bound
        &&& self.lower_bound + self.contents@.len() <= 0x31000000
    }

    /// The entry stored at signed index `i`, `None` outside the window.
    pub open spec fn spec_get(self, i: int) -> Option<T> {
        if self.lower_bound <= i < self.lower_bound + self.contents@.len() {
            self.contents@[i - self.lower_bound]
        } else {
            None
        }
    }

    /// The stored entries in increasing index order.
    pub open spec fn spec_entries(self) -> Seq<T> {
        spec_compact(self.contents@)
    }

    /// An empty list, with ten slots of headroom on both sides of zero.
    pub fn new() -> (r: DynamicList<T>)
        ensures
            r.wf(),
            forall|i: int| r.spec_get(i) is None,
    {
        let mut contents: Vec<Option<T>> = Vec::new();
        let mut n: i32 = 0;
        while n < DEFAULT_BOUND * 2
            invariant
                0 <= n <= DEFAULT_BOUND * 2,
                contents@.len() == n,
                forall|i: int| 0 <= i < n ==> (#[trigger] contents@[i]) is None,
            decreases DEFAULT_BOUND * 2 - n,
        {
            contents.push(None);
            n = n + 1;
        }
        DynamicList { lower_bound: -DEFAULT_BOUND, contents }
    }

    /// Stores `val` at signed index `index`, growing the window if needed;
    /// all other indices keep their entries.
    pub fn set(&mut self, index: i32, val: T)
        requires
            old(self).wf(),
            -0x30000000 <= index <= 0x30000000,
        ensures
            final(self).wf(),
            final(self).spec_get(index as int) == Some(val),
            forall|i: int| i != index ==> final(self).spec_get(i) == old(self).spec_get(i),
    {
        let len: i32 = self.contents.len() as i32;
        let upper_bound: i32 = self.lower_bound + len;

        if index >= self.lower_bound && index < upper_bound {
            let offset_index: usize = (index - self.lower_bound) as usize;
            self.contents.set(offset_index, Some(val));
        } else if index < self.lower_bound {
            let mut old_contents: Vec<Option<T>> = Vec::new();
            core::mem::swap(&mut old_contents, &mut self.contents);
            let ghost orig = old_contents@;
            let ghost lb = self.lower_bound;

            let new_bound: i32 = index - DEFAULT_BOUND;
            let pad: i32 = self.lower_bound - new_bound;
            let mut n: i32 = 0;
            while n < pad
                invariant
                    0 <= n <= pad,
                    self.lower_bound == lb,
                    self.contents@.len() == n,
                    forall|i: int| 0 <= i < n ==> (#[trigger] self.contents@[i]) is None,
                decreases pad - n,
            {
                self.contents.push(None);
                n = n + 1;
            }
            self.contents.append(&mut old_contents);
            proof {
                assert(self.contents@.len() == pad + orig.len());
                assert(forall|i: int| 0 <= i < pad ==> (#[trigger] self.contents@[i]) is None);
                assert(forall|i: int|
                    pad <= i < self.contents@.len() ==> #[trigger] self.contents@[i] == orig[
                        i - pad
                    ]);
            }
            self.lower_bound = new_bound;
            let offset_index: usize = (index - self.lower_bound) as usize;
            self.contents.set(offset_index, Some(val));
        } else {
            let grow: i32 = index - upper_bound + DEFAULT_BOUND;
            let ghost orig = self.contents@;
            let ghost lb = self.lower_bound;
            let mut n: i32 = 0;
            while n < grow
                invariant
                    0 <= n <= grow,
                    1 <= grow,
                    grow == index - (lb + orig.len()) + DEFAULT_BOUND,
                    -0x30000000 <= index <= 0x30000000,
                    -0x31000000 <= lb,
                    lb + orig.len() <= index,
                    self.lower_bound == lb,
                    self.contents@.len() == orig.len() + n,
                    self.contents@.subrange(0, orig.len() as int) =~= orig,
                    forall|i: int|
                        orig.len() <= i < self.contents@.len() ==> (
                        #[trigger] self.contents@[i]) is None,
                decreases grow - n,
            {
                self.contents.push(None);
                n = n + 1;
            }
            let offset_index: usize = (index - self.lower_bound) as usize;
            self.contents.set(offset_index, Some(val));
        }
    }

    /// The entry at signed index `index`; `None` outside the stored window.
    pub fn get(&self, index: i32) -> (r: &Option<T>)
        requires
            self.wf(),
        ensures
            *r == self.spec_get(index as int),
    {
        let len: i32 = self.contents.len() as i32;
        if index >= self.lower_bound && index < self.lower_bound + len {
            let offset_index: usize = (index - self.lower_bound) as usize;
            &self.contents[offset_index]
        } else {
            &None
        }
    }

    /// Discards the empty slots and returns the stored entries in increasing
    /// index order.
    pub fn into_vector(self) -> (r: Vec<T>)
        ensures
            r@ == self.spec_entries(),
    {
        let DynamicList { lower_bound: _, contents } = self;
        let ghost all = contents@;
        let mut contents = contents;
        let total: usize = contents.len();
        let mut out: Vec<T> = Vec::new();
        let mut k: usize = 0;
        while contents.len() != 0
            invariant
                all.len() == total,
                k <= all.len(),
                contents@ =~= all.subrange(k as int, all.len() as int),
                out@ == spec_compact(all.subrange(0, k as int)),
            decreases all.len() - k,
        {
            let item = contents.remove(0);
            proof {
                assert(all.subrange(0, k + 1).drop_last() =~= all.subrange(0, k as int));
                assert(all.subrange(0, k + 1).last() == all[k as int]);
                assert(contents@ =~= all.subrange(k + 1, all.len() as int));
                assert(contents@.len() == all.len() - k - 1);
                assert(k + 1 <= all.len());
            }
            match item {
                Some(v) => out.push(v),
                None => (),
            }
            k = k + 1;
        }
        proof {
            assert(all.subrange(0, all.len() as int) =~= all);
            assert(k == all.len());
        }
        out
    }
}

} // verus!
