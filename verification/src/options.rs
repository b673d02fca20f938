//! The styling configuration: line coloring policies, collision policies,
//! vertex markers and grid-wide options. Radii and line thickness are exact
//! integers in thousandths of a lattice unit; colors are 8-bit RGBA.

use vstd::prelude::*;

use crate::pattern_utils::Angle;

verus! {

/// An 8-bit RGBA color.
#[derive(Debug, Clone, Copy, PartialEq, Eq, Structural, Hash)]
pub struct Color {
    pub r: u8,
    pub g: u8,
    pub b: u8,
    pub a: u8,
}

impl Color {
    /// An opaque color from its three channels.
    pub fn from_rgb8(r: u8, g: u8, b: u8) -> (c: Color)
        ensures
            c == (Color { r, g, b, a: 255 }),
    {
        Color { r, g, b, a: 255 }
    }

    /// A color from all four channels.
    pub fn from_rgba8(r: u8, g: u8, b: u8, a: u8) -> (c: Color)
        ensures
            c == (Color { r, g, b, a }),
    {
        Color { r, g, b, a }
    }

    /// Opaque white.
    pub fn white() -> (c: Color)
        ensures
            c == (Color { r: 255, g: 255, b: 255, a: 255 }),
    {
        Color { r: 255, g: 255, b: 255, a: 255 }
    }
}

/// Default line thickness, in thousandths of a lattice unit.
pub const LINE_THICKNESS: u32 = 120;

/// Default number of path segments per gradient color.
pub const SEGS_PER_COLOR: usize = 15;

/// A filled dot: a color and a radius in thousandths of a lattice unit.
#[derive(Debug, Clone, Copy, PartialEq, Eq, Structural)]
pub struct Marker {
    pub color: Color,
    pub radius: u32,
}

/// What to draw at a vertex: nothing, one dot, or two concentric dots.
#[derive(Debug, Clone, Copy, PartialEq, Eq, Structural)]
pub enum Point {
    Nothing,
    Single(Marker),
    Double { inner: Marker, outer: Marker },
}

impl Point {
    /// The largest radius this marker can paint.
    pub open spec fn spec_max_radius(self) -> int {
        match self {
            Point::Nothing => 0,
            Point::Single(marker) => marker.radius as int,
            Point::Double { inner, outer } => if inner.radius > outer.radius {
                inner.radius as int
            } else {
                outer.radius as int
            },
        }
    }

    /// The largest radius this marker can paint.
    pub fn get_max_radius(&self) -> (r: u32)
        ensures
            r as int == self.spec_max_radius(),
    {
        match self {
            Point::Nothing => 0,
            Point::Single(marker) => marker.radius,
            Point::Double { inner, outer } => {
                if inner.radius > outer.radius {
                    inner.radius
                } else {
                    outer.radius
                }
            },
        }
    }
}

/// A marker for one end of a path, possibly colored like the line itself.
#[derive(Debug, Clone, Copy, PartialEq, Eq, Structural)]
pub enum EndPoint {
    Point(Point),
    Match { radius: u32 },
    BorderedMatch { match_radius: u32, border: Marker },
}

impl EndPoint {
    /// The marker actually drawn once the line's end color is known. For a
    /// bordered match the two dots are ordered so the larger is the outer
    /// one, whichever field it came from.
    pub open spec fn spec_into_point(self, end_color: Color) -> Point {
        match self {
            EndPoint::Point(point) => point,
            EndPoint::Match { radius } => Point::Single(Marker { color: end_color, radius }),
            EndPoint::BorderedMatch { match_radius, border } => {
                let match_marker = Marker { color: end_color, radius: match_radius };
                if match_radius > border.radius {
                    Point::Double { inner: border, outer: match_marker }
                } else {
                    Point::Double { inner: match_marker, outer: border }
                }
            },
        }
    }

    /// The marker actually drawn once the line's end color is known.
    pub fn into_point(self, end_color: Color) -> (r: Point)
        ensures
            r == self.spec_into_point(end_color),
    {
        match self {
            EndPoint::Point(point) => point,
            EndPoint::Match { radius } => Point::Single(Marker { color: end_color, radius }),
            EndPoint::BorderedMatch { match_radius, border } => {
                let match_marker = Marker { color: end_color, radius: match_radius };
                if match_radius > border.radius {
                    Point::Double { inner: border, outer: match_marker }
                } else {
                    Point::Double { inner: match_marker, outer: border }
                }
            },
        }
    }

    /// The largest radius this end marker can paint.
    pub open spec fn spec_max_radius(self) -> int {
        match self {
            EndPoint::Point(point) => point.spec_max_radius(),
            EndPoint::Match { radius } => radius as int,
            EndPoint::BorderedMatch { match_radius, border } => if match_radius > border.radius {
                match_radius as int
            } else {
                border.radius as int
            },
        }
    }

    /// The largest radius this end marker can paint.
    pub fn get_max_radius(&self) -> (r: u32)
        ensures
            r as int == self.spec_max_radius(),
    {
        match self {
            EndPoint::Point(point) => point.get_max_radius(),
            EndPoint::Match { radius } => *radius,
            EndPoint::BorderedMatch { match_radius, border } => {
                if *match_radius > border.radius {
                    *match_radius
                } else {
                    border.radius
                }
            },
        }
    }
}

/// The decoration drawn where a segment-colored line switches color.
#[derive(Debug, Clone, Copy, PartialEq, Eq, Structural)]
pub enum Triangle {
    Nothing,
    Match { radius: u32 },
    BorderMatch { match_radius: u32, border: Marker },
    BorderStartMatch { match_radius: u32, border: Marker },
}

impl Triangle {
    /// The marker drawn at a mid-path color switch, in the color being
    /// switched to; `BorderStartMatch` draws its border at the start only.
    pub open spec fn spec_to_middle_point(self, color: Color) -> Option<Point> {
        match self {
            Triangle::Nothing => None,
            Triangle::Match { radius } => Some(Point::Single(Marker { color, radius })),
            Triangle::BorderStartMatch { match_radius, border: _ } => Some(
                Point::Single(Marker { color, radius: match_radius }),
            ),
            Triangle::BorderMatch { match_radius, border } => {
                let match_marker = Marker { color, radius: match_radius };
                if match_radius > border.radius {
                    Some(Point::Double { inner: border, outer: match_marker })
                } else {
                    Some(Point::Double { inner: match_marker, outer: border })
                }
            },
        }
    }

    /// The marker drawn at a mid-path color switch.
    pub fn to_middle_point(&self, color: Color) -> (r: Option<Point>)
        ensures
            r == self.spec_to_middle_point(color),
    {
        match self {
            Triangle::Nothing => None,
            Triangle::Match { radius } => Some(Point::Single(Marker { color, radius: *radius })),
            Triangle::BorderStartMatch { match_radius, border: _ } => Some(
                Point::Single(Marker { color, radius: *match_radius }),
            ),
            Triangle::BorderMatch { match_radius, border } => {
                let match_marker = Marker { color, radius: *match_radius };
                if *match_radius > border.radius {
                    Some(Point::Double { inner: *border, outer: match_marker })
                } else {
                    Some(Point::Double { inner: match_marker, outer: *border })
                }
            },
        }
    }

    /// The marker drawn on the path's first segment, in the start color.
    pub open spec fn spec_to_start_point(self, start_color: Color) -> Option<Point> {
        match self {
            Triangle::Nothing => None,
            Triangle::Match { radius } => Some(
                Point::Single(Marker { color: start_color, radius }),
            ),
            Triangle::BorderMatch { match_radius, border }
            | Triangle::BorderStartMatch { match_radius, border } => {
                let match_marker = Marker { color: start_color, radius: match_radius };
                if match_radius > border.radius {
                    Some(Point::Double { inner: border, outer: match_marker })
                } else {
                    Some(Point::Double { inner: match_marker, outer: border })
                }
            },
        }
    }

    /// The marker drawn on the path's first segment, in the start color.
    pub fn to_start_point(&self, start_color: Color) -> (r: Option<Point>)
        ensures
            r == self.spec_to_start_point(start_color),
    {
        match self {
            Triangle::Nothing => None,
            Triangle::Match { radius } => Some(
                Point::Single(Marker { color: start_color, radius: *radius }),
            ),
            Triangle::BorderMatch { match_radius, border }
            | Triangle::BorderStartMatch { match_radius, border } => {
                let match_marker = Marker { color: start_color, radius: *match_radius };
                if *match_radius > border.radius {
                    Some(Point::Double { inner: *border, outer: match_marker })
                } else {
                    Some(Point::Double { inner: match_marker, outer: *border })
                }
            },
        }
    }

    /// The largest radius this decoration can paint.
    pub open spec fn spec_max_radius(self) -> int {
        match self {
            Triangle::Nothing => 0,
            Triangle::Match { radius } => radius as int,
            Triangle::BorderMatch { match_radius, border }
            | Triangle::BorderStartMatch { match_radius, border } => if match_radius
                > border.radius {
                match_radius as int
            } else {
                border.radius as int
            },
        }
    }

    /// The largest radius this decoration can paint.
    pub fn get_max_radius(&self) -> (r: u32)
        ensures
            r as int == self.spec_max_radius(),
    {
        match self {
            Triangle::Nothing => 0,
            Triangle::Match { radius } => *radius,
            Triangle::BorderMatch { match_radius, border }
            | Triangle::BorderStartMatch { match_radius, border } => {
                if *match_radius > border.radius {
                    *match_radius
                } else {
                    border.radius
                }
            },
        }
    }
}

/// What to do when the path traverses the same edge more than once.
#[derive(Debug, Clone, Copy, PartialEq, Eq, Structural)]
pub enum CollisionOption {
    /// Draw every colliding edge as a dashed overlay in one fixed color.
    Dashes(Color),
    /// Dash each extra traversal in the segment's own color.
    MatchedDashes,
    /// Offset simultaneous traversals into side-by-side parallel lanes.
    ParallelLines,
    /// Parallel lanes up to `max_line` traversals, then fall back.
    OverloadedParallel { max_line: usize, overload: OverloadOptions },
}

/// Fallback once a colliding edge has used up its parallel lanes.
#[derive(Debug, Clone, Copy, PartialEq, Eq, Structural)]
pub enum OverloadOptions {
    /// A dashed overlay in a fixed color.
    Dashes(Color),
    /// A dashed overlay plus a count label drawn beside the edge.
    LabeledDashes { color: Color, label: Marker },
    /// A dashed overlay in the segment's own color.
    MatchedDashes,
}

/// Markers drawn at the lattice points the path visits.
#[derive(Debug, Clone, Copy, PartialEq, Eq, Structural)]
pub enum Intersections {
    Nothing,
    /// The same marker at every visited vertex.
    UniformPoints(Point),
    /// Distinct markers for the first vertex, the last vertex and the rest.
    EndsAndMiddle { start: EndPoint, end: EndPoint, middle: Point },
}

impl Intersections {
    /// The largest radius any of the markers can paint.
    pub open spec fn spec_max_radius(self) -> int {
        match self {
            Intersections::Nothing => 0,
            Intersections::UniformPoints(point) => point.spec_max_radius(),
            Intersections::EndsAndMiddle { start, end, middle } => {
                let s = start.spec_max_radius();
                let e = end.spec_max_radius();
                let m = middle.spec_max_radius();
                let se = if s > e {
                    s
                } else {
                    e
                };
                if se > m {
                    se
                } else {
                    m
                }
            },
        }
    }

    /// The largest radius any of the markers can paint.
    pub fn get_max_radius(&self) -> (r: u32)
        ensures
            r as int == self.spec_max_radius(),
    {
        match self {
            Intersections::Nothing => 0,
            Intersections::UniformPoints(point) => point.get_max_radius(),
            Intersections::EndsAndMiddle { start, end, middle } => {
                let s = start.get_max_radius();
                let e = end.get_max_radius();
                let m = middle.get_max_radius();
                let se = if s > e {
                    s
                } else {
                    e
                };
                if se > m {
                    se
                } else {
                    m
                }
            },
        }
    }
}

/// How the path's segments are colored.
#[derive(Debug, Clone, PartialEq, Eq)]
pub enum Lines {
    /// One color for the whole path; `bent` rounds revisited corners.
    Monocolor { color: Color, bent: bool },
    /// Interpolate through `colors`, advancing every `segments_per_color`
    /// path edges.
    Gradient { colors: Vec<Color>, segments_per_color: usize, bent: bool },
    /// Switch colors at revisited vertices, decorating each switch and
    /// resolving overlapping edges per `collisions`.
    SegmentColors { colors: Vec<Color>, triangles: Triangle, collisions: CollisionOption },
}

impl Lines {
    /// The largest radius the line's own decorations can paint.
    pub open spec fn spec_max_radius(self) -> int {
        match self {
            Lines::Monocolor { .. } => 0,
            Lines::Gradient { .. } => 0,
            Lines::SegmentColors { colors: _, triangles, collisions: _ } => {
                triangles.spec_max_radius()
            },
        }
    }

    /// The largest radius the line's own decorations can paint.
    pub fn get_max_radius(&self) -> (r: u32)
        ensures
            r as int == self.spec_max_radius(),
    {
        match self {
            Lines::Monocolor { .. } => 0,
            Lines::Gradient { .. } => 0,
            Lines::SegmentColors { colors: _, triangles, collisions: _ } => {
                triangles.get_max_radius()
            },
        }
    }
}

/// Per-pattern styling for a whole grid: one fixed pair of policies, or a
/// list of pairs cycled through by trigger turn-sequences (see
/// `style_indices`).
#[derive(Debug, Clone, PartialEq, Eq)]
pub enum GridPatternOptions {
    Uniform(Intersections, Lines),
    Changing {
        variations: Vec<(Intersections, Lines)>,
        intros: Vec<Vec<Angle>>,
        retros: Vec<Vec<Angle>>,
    },
}

/// Grid-wide drawing options.
#[derive(Debug, Clone, PartialEq, Eq)]
pub struct GridOptions {
    /// Stroke width in thousandths of a lattice unit.
    pub line_thickness: u32,
    /// The per-pattern styling.
    pub pattern_options: GridPatternOptions,
    /// Marker drawn at a pattern's free centroid, if any.
    pub center_dot: Point,
}

impl GridPatternOptions {
    /// The largest radius any variation can paint.
    pub open spec fn spec_max_radius(self) -> int
        decreases self,
    {
        match self {
            GridPatternOptions::Uniform(intersection, line) => {
                let i = intersection.spec_max_radius();
                let l = line.spec_max_radius();
                if i > l {
                    i
                } else {
                    l
                }
            },
            GridPatternOptions::Changing { variations, .. } => spec_variations_max_radius(
                variations@,
                variations@.len() as int,
            ),
        }
    }

    /// The largest radius any variation can paint.
    pub fn get_max_radius(&self) -> (r: u32)
        ensures
            r as int == self.spec_max_radius(),
    {
        match self {
            GridPatternOptions::Uniform(intersection, line) => {
                let i = intersection.get_max_radius();
                let l = line.get_max_radius();
                if i > l {
                    i
                } else {
                    l
                }
            },
            GridPatternOptions::Changing { variations, .. } => {
                let mut best: u32 = 0;
                let mut n: usize = 0;
                while n < variations.len()
                    invariant
                        n <= variations@.len(),
                        best as int == spec_variations_max_radius(variations@, n as int),
                    decreases variations@.len() - n,
                {
                    let i = variations[n].0.get_max_radius();
                    let l = variations[n].1.get_max_radius();
                    let il = if i > l {
                        i
                    } else {
                        l
                    };
                    if il > best {
                        best = il;
                    }
                    n = n + 1;
                }
                best
            },
        }
    }

    /// Builds a `Changing` styling where every variation shares one
    /// intersection policy.
    pub fn generate_changing(
        intersection: Intersections,
        lines: Vec<Lines>,
        intros: Vec<Vec<Angle>>,
        retros: Vec<Vec<Angle>>,
    ) -> (r: GridPatternOptions)
        ensures
            r matches GridPatternOptions::Changing { variations, intros: i, retros: e }
                && variations@.len() == lines@.len() && (forall|k: int|
                0 <= k < lines@.len() ==> #[trigger] variations@[k] == (intersection, lines@[k]))
                && i@ == intros@ && e@ == retros@,
    {
        let ghost lines0 = lines@;
        let mut lines = lines;
        let mut parts: Vec<(Intersections, Lines)> = Vec::new();
        while lines.len() != 0
            invariant
                parts@.len() + lines@.len() == lines0.len(),
                lines@ =~= lines0.subrange(parts@.len() as int, lines0.len() as int),
                forall|k: int|
                    0 <= k < parts@.len() ==> #[trigger] parts@[k] == (intersection, lines0[k]),
            decreases lines@.len(),
        {
            let ghost done = parts@.len() as int;
            let line = lines.remove(0);
            proof {
                assert(line == lines0[done]);
                assert(lines@ =~= lines0.subrange(done + 1, lines0.len() as int));
            }
            parts.push((intersection, line));
        }
        GridPatternOptions::Changing { variations: parts, intros, retros }
    }

    /// The default trigger sequences: three left turns advance to the next
    /// variation, three right turns return to the previous one.
    pub fn generate_default_changing(intersection: Intersections, lines: Vec<Lines>) -> (r:
        GridPatternOptions)
        ensures
            r matches GridPatternOptions::Changing { variations, intros, retros }
                && variations@.len() == lines@.len() && (forall|k: int|
                0 <= k < lines@.len() ==> #[trigger] variations@[k] == (intersection, lines@[k]))
                && intros@.len() == 1 && intros@[0]@ == seq![
                Angle::Left,
                Angle::Left,
                Angle::Left,
            ] && retros@.len() == 1 && retros@[0]@ == seq![
                Angle::Right,
                Angle::Right,
                Angle::Right,
            ],
    {
        let mut intro: Vec<Angle> = Vec::new();
        intro.push(Angle::Left);
        intro.push(Angle::Left);
        intro.push(Angle::Left);
        let mut intros: Vec<Vec<Angle>> = Vec::new();
        intros.push(intro);
        let mut retro: Vec<Angle> = Vec::new();
        retro.push(Angle::Right);
        retro.push(Angle::Right);
        retro.push(Angle::Right);
        let mut retros: Vec<Vec<Angle>> = Vec::new();
        retros.push(retro);
        proof {
            assert(intros@[0]@ =~= seq![Angle::Left, Angle::Left, Angle::Left]);
            assert(retros@[0]@ =~= seq![Angle::Right, Angle::Right, Angle::Right]);
        }
        GridPatternOptions::generate_changing(intersection, lines, intros, retros)
    }
}

/// Maximum marker radius over the first `n` style variations.
pub open spec fn spec_variations_max_radius(vs: Seq<(Intersections, Lines)>, n: int) -> int
    decreases n,
{
    if n <= 0 {
        0
    } else {
        let rest = spec_variations_max_radius(vs, n - 1);
        let i = vs[n - 1].0.spec_max_radius();
        let l = vs[n - 1].1.spec_max_radius();
        let il = if i > l {
            i
        } else {
            l
        };
        if il > rest {
            il
        } else {
            rest
        }
    }
}

impl GridOptions {
    /// Options with the default line thickness.
    pub fn generate(pattern_options: GridPatternOptions, center_dot: Point) -> (r: GridOptions)
        ensures
            r == (GridOptions { line_thickness: LINE_THICKNESS, pattern_options, center_dot }),
    {
        GridOptions { line_thickness: LINE_THICKNESS, pattern_options, center_dot }
    }

    /// The border margin the canvas needs: the largest of the stroke width,
    /// the center dot radius and any marker radius.
    pub open spec fn spec_max_radius(self) -> int {
        let t = self.line_thickness as int;
        let c = self.center_dot.spec_max_radius();
        let p = self.pattern_options.spec_max_radius();
        let tc = if t > c {
            t
        } else {
            c
        };
        if tc > p {
            tc
        } else {
            p
        }
    }

    /// The border margin the canvas needs.
    pub fn get_max_radius(&self) -> (r: u32)
        ensures
            r as int == self.spec_max_radius(),
    {
        let t = self.line_thickness;
        let c = self.center_dot.get_max_radius();
        let p = self.pattern_options.get_max_radius();
        let tc = if t > c {
            t
        } else {
            c
        };
        if tc > p {
            tc
        } else {
            p
        }
    }
}


impl GridPatternOptions {
    /// A default-trigger `Changing` styling with one monocolor line per
    /// color.
    pub fn gen_changing_monocolor(intersection: Intersections, colors: Vec<Color>) -> (r:
        GridPatternOptions)
        ensures
            r matches GridPatternOptions::Changing { variations, .. } && variations@.len()
                == colors@.len() && (forall|k: int|
                0 <= k < colors@.len() ==> #[trigger] variations@[k] == (
                intersection,
                Lines::Monocolor { color: colors@[k], bent: false },
            )),
    {
        let ghost colors0 = colors@;
        let mut colors = colors;
        let mut lines: Vec<Lines> = Vec::new();
        while colors.len() != 0
            invariant
                lines@.len() + colors@.len() == colors0.len(),
                colors@ =~= colors0.subrange(lines@.len() as int, colors0.len() as int),
                forall|k: int|
                    0 <= k < lines@.len() ==> #[trigger] lines@[k] == (Lines::Monocolor {
                        color: colors0[k],
                        bent: false,
                    }),
            decreases colors@.len(),
        {
            let ghost done = lines@.len() as int;
            let color = colors.remove(0);
            proof {
                assert(color == colors0[done]);
                assert(colors@ =~= colors0.subrange(done + 1, colors0.len() as int));
            }
            lines.push(Lines::Monocolor { color, bent: false });
        }
        GridPatternOptions::generate_default_changing(intersection, lines)
    }

    /// A default-trigger `Changing` styling with one gradient line per
    /// palette, at the default segments-per-color.
    pub fn gen_changing_gradient(
        intersection: Intersections,
        colors: Vec<Vec<Color>>,
        bent: bool,
    ) -> (r: GridPatternOptions)
        ensures
            r matches GridPatternOptions::Changing { variations, .. } && variations@.len()
                == colors@.len() && (forall|k: int|
                0 <= k < colors@.len() ==> #[trigger] variations@[k] == (
                intersection,
                Lines::Gradient {
                    colors: colors@[k],
                    segments_per_color: SEGS_PER_COLOR as usize,
                    bent,
                },
            )),
    {
        let ghost colors0 = colors@;
        let mut colors = colors;
        let mut lines: Vec<Lines> = Vec::new();
        while colors.len() != 0
            invariant
                lines@.len() + colors@.len() == colors0.len(),
                colors@ =~= colors0.subrange(lines@.len() as int, colors0.len() as int),
                forall|k: int|
                    0 <= k < lines@.len() ==> #[trigger] lines@[k] == (Lines::Gradient {
                        colors: colors0[k],
                        segments_per_color: SEGS_PER_COLOR as usize,
                        bent,
                    }),
            decreases colors@.len(),
        {
            let ghost done = lines@.len() as int;
            let palette = colors.remove(0);
            proof {
                assert(palette == colors0[done]);
                assert(colors@ =~= colors0.subrange(done + 1, colors0.len() as int));
            }
            lines.push(Lines::Gradient { colors: palette, segments_per_color: SEGS_PER_COLOR, bent });
        }
        GridPatternOptions::generate_default_changing(intersection, lines)
    }

    /// A default-trigger `Changing` styling with one segment-colored line
    /// per palette.
    pub fn gen_changing_segment(
        intersection: Intersections,
        colors: Vec<Vec<Color>>,
        triangles: Triangle,
        collisions: CollisionOption,
    ) -> (r: GridPatternOptions)
        ensures
            r matches GridPatternOptions::Changing { variations, .. } && variations@.len()
                == colors@.len() && (forall|k: int|
                0 <= k < colors@.len() ==> #[trigger] variations@[k] == (
                intersection,
                Lines::SegmentColors { colors: colors@[k], triangles, collisions },
            )),
    {
        let ghost colors0 = colors@;
        let mut colors = colors;
        let mut lines: Vec<Lines> = Vec::new();
        while colors.len() != 0
            invariant
                lines@.len() + colors@.len() == colors0.len(),
                colors@ =~= colors0.subrange(lines@.len() as int, colors0.len() as int),
                forall|k: int|
                    0 <= k < lines@.len() ==> #[trigger] lines@[k] == (Lines::SegmentColors {
                        colors: colors0[k],
                        triangles,
                        collisions,
                    }),
            decreases colors@.len(),
        {
            let ghost done = lines@.len() as int;
            let palette = colors.remove(0);
            proof {
                assert(palette == colors0[done]);
                assert(colors@ =~= colors0.subrange(done + 1, colors0.len() as int));
            }
            lines.push(Lines::SegmentColors { colors: palette, triangles, collisions });
        }
        GridPatternOptions::generate_default_changing(intersection, lines)
    }
}

} // verus!
