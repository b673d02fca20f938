use hex_renderer::options::{
    CollisionOption, Color, Intersections, Lines, Marker, OverloadOptions, Point, Triangle,
};
use hex_renderer::pattern::Pattern;
use hex_renderer::pattern_utils::{Angle, Coord, Direction};
use hex_renderer::plan::{LinesPlan, MonoStop, PlanPos};

fn red() -> Color {
    Color::from_rgb8(255, 0, 0)
}

fn blue() -> Color {
    Color::from_rgb8(0, 0, 255)
}

fn green() -> Color {
    Color::from_rgb8(0, 255, 0)
}

#[test]
fn monocolor_walks_every_vertex() {
    let p = Pattern::new(Direction::East, vec![Angle::Right, Angle::Left]);
    let plan = p.draw_pattern(
        &Lines::Monocolor { color: red(), bent: false },
        &Intersections::Nothing,
        &Point::Nothing,
    );
    match plan.lines {
        LinesPlan::Monocolor { color, stops } => {
            assert_eq!(color, red());
            assert_eq!(stops.len(), p.path.len());
            for (i, stop) in stops.iter().enumerate() {
                assert_eq!(stop.to, PlanPos { a: i, b: i, num: 0, den: 1 });
                assert!(stop.drawn);
            }
        }
        _ => panic!("expected a monocolor plan"),
    }
    assert_eq!(plan.start_color, red());
    assert_eq!(plan.end_color, red());
}

#[test]
fn bent_monocolor_cuts_final_corner() {
    let p = Pattern::new(Direction::East, vec![Angle::Back]);
    let plan = p.draw_pattern(
        &Lines::Monocolor { color: red(), bent: true },
        &Intersections::Nothing,
        &Point::Nothing,
    );
    match plan.lines {
        LinesPlan::Monocolor { stops, .. } => {
            // Vertices 0 and 1 are reached plainly, the final revisited
            // vertex only four fifths of the way.
            assert_eq!(
                stops,
                vec![
                    MonoStop { to: PlanPos { a: 0, b: 0, num: 0, den: 1 }, drawn: true },
                    MonoStop { to: PlanPos { a: 1, b: 1, num: 0, den: 1 }, drawn: true },
                    MonoStop { to: PlanPos { a: 1, b: 2, num: 4, den: 5 }, drawn: true },
                ]
            );
        }
        _ => panic!("expected a monocolor plan"),
    }
}

#[test]
fn gradient_with_one_color_degenerates_to_monocolor() {
    let p = Pattern::new(Direction::East, vec![Angle::Left, Angle::Left]);
    let plan = p.draw_pattern(
        &Lines::Gradient { colors: vec![blue()], segments_per_color: 15, bent: false },
        &Intersections::Nothing,
        &Point::Nothing,
    );
    match plan.lines {
        LinesPlan::Monocolor { color, stops } => {
            assert_eq!(color, blue());
            assert_eq!(stops.len(), p.path.len());
        }
        _ => panic!("one gradient color must degenerate to monocolor"),
    }
    assert_eq!(plan.start_color, blue());
    assert_eq!(plan.end_color, blue());
}

#[test]
fn gradient_with_no_color_degenerates_to_white() {
    let p = Pattern::new(Direction::East, vec![]);
    let plan = p.draw_pattern(
        &Lines::Gradient { colors: vec![], segments_per_color: 15, bent: false },
        &Intersections::Nothing,
        &Point::Nothing,
    );
    assert_eq!(plan.end_color, Color::white());
}

#[test]
fn gradient_divides_path_exactly() {
    // Four edges, two colors in use: one gradient segment, progress in
    // exact quarters.
    let p = Pattern::new(
        Direction::East,
        vec![Angle::Forward, Angle::Forward, Angle::Forward],
    );
    let plan = p.draw_pattern(
        &Lines::Gradient { colors: vec![red(), blue()], segments_per_color: 15, bent: false },
        &Intersections::Nothing,
        &Point::Nothing,
    );
    match plan.lines {
        LinesPlan::Gradient { steps, used } => {
            assert_eq!(used, 2);
            assert_eq!(steps.len(), 4);
            for (i, st) in steps.iter().enumerate() {
                assert_eq!(st.grad_seg, 0);
                assert_eq!(st.num, i as u64);
                assert_eq!(st.den, 4);
            }
        }
        _ => panic!("expected a gradient plan"),
    }
    assert_eq!(plan.start_color, red());
    assert_eq!(plan.end_color, blue());
}

#[test]
fn overloaded_parallel_draws_three_lanes_then_dashes() {
    // One edge traversed five times under a three-lane limit.
    let p = Pattern::new(
        Direction::East,
        vec![Angle::Back, Angle::Back, Angle::Back, Angle::Back],
    );
    let label = Marker { color: Color::white(), radius: 100 };
    let style = Lines::SegmentColors {
        colors: vec![red(), blue(), green()],
        triangles: Triangle::Nothing,
        collisions: CollisionOption::OverloadedParallel {
            max_line: 3,
            overload: OverloadOptions::LabeledDashes { color: Color::white(), label },
        },
    };
    let plan = p.draw_pattern(&style, &Intersections::Nothing, &Point::Nothing);
    match plan.lines {
        LinesPlan::Segments(seg) => {
            assert_eq!(seg.steps.len(), p.path.len());
            let drawn_lanes: Vec<_> =
                seg.steps.iter().filter(|s| s.drawn && s.lane.is_some()).collect();
            assert_eq!(drawn_lanes.len(), 3);
            for st in &drawn_lanes {
                let (lane, lanes) = st.lane.unwrap();
                assert_eq!(lanes, 3);
                assert!(lane < 3);
            }
            let overlays: Vec<_> =
                seg.steps.iter().filter_map(|s| s.overlay.as_ref()).collect();
            assert_eq!(overlays.len(), 1);
            assert_eq!(overlays[0].label, Some((label, 5)));
            // Traversals beyond the lane limit are not drawn as main strokes.
            let skipped = seg.steps.iter().filter(|s| !s.drawn).count();
            assert_eq!(skipped, 2);
        }
        _ => panic!("expected a segment plan"),
    }
}

#[test]
fn matched_dashes_stripe_every_extra_traversal() {
    let p = Pattern::new(Direction::East, vec![Angle::Back, Angle::Back]);
    let style = Lines::SegmentColors {
        colors: vec![red(), blue()],
        triangles: Triangle::Nothing,
        collisions: CollisionOption::MatchedDashes,
    };
    let plan = p.draw_pattern(&style, &Intersections::Nothing, &Point::Nothing);
    match plan.lines {
        LinesPlan::Segments(seg) => {
            let stripes: Vec<_> = seg.steps.iter().filter_map(|s| s.stripe).collect();
            assert_eq!(stripes.len(), 3);
            assert!(stripes[0].lead_in);
            assert!(!stripes[1].lead_in);
            assert_eq!(stripes[0].lanes, 3);
            assert_eq!(stripes[1].visited_count, 1);
        }
        _ => panic!("expected a segment plan"),
    }
}

#[test]
fn segment_colors_switch_at_revisited_vertex() {
    // Walking back over the first edge returns to the origin with the first
    // color already used there, so the edge splits and the color advances.
    let p = Pattern::new(Direction::East, vec![Angle::Back]);
    let style = Lines::SegmentColors {
        colors: vec![red(), blue()],
        triangles: Triangle::Match { radius: 160 },
        collisions: CollisionOption::ParallelLines,
    };
    let plan = p.draw_pattern(&style, &Intersections::Nothing, &Point::Nothing);
    match plan.lines {
        LinesPlan::Segments(seg) => {
            assert_eq!(seg.steps[0].color, 0);
            let splits: Vec<_> = seg.steps.iter().filter_map(|s| s.split).collect();
            assert!(!splits.is_empty());
            assert_eq!(splits[0].new_color, 1);
            assert_eq!(
                splits[0].triangle,
                Some(Point::Single(Marker { color: red(), radius: 160 }))
            );
        }
        _ => panic!("expected a segment plan"),
    }
    assert_eq!(plan.start_color, red());
    assert_eq!(plan.end_color, blue());
}

#[test]
fn ends_and_middle_markers_resolve_colors() {
    let p = Pattern::new(Direction::East, vec![Angle::Forward]);
    let middle = Point::Single(Marker { color: Color::white(), radius: 70 });
    let plan = p.draw_pattern(
        &Lines::Monocolor { color: blue(), bent: false },
        &Intersections::EndsAndMiddle {
            start: hex_renderer::options::EndPoint::Match { radius: 50 },
            end: hex_renderer::options::EndPoint::Match { radius: 60 },
            middle,
        },
        &Point::Nothing,
    );
    assert_eq!(plan.points.len(), 3);
    assert_eq!(
        plan.points[0],
        (Coord(0, 0), Point::Single(Marker { color: blue(), radius: 50 }))
    );
    assert_eq!(
        plan.points[1],
        (Coord(2, 0), Point::Single(Marker { color: blue(), radius: 60 }))
    );
    assert_eq!(plan.points[2], (Coord(1, 0), middle));
}

#[test]
fn hexagon_gets_a_center_dot() {
    let p = Pattern::new(
        Direction::East,
        vec![Angle::Right, Angle::Right, Angle::Right, Angle::Right, Angle::Right],
    );
    let dot = Point::Single(Marker { color: Color::white(), radius: 100 });
    let plan = p.draw_pattern(
        &Lines::Monocolor { color: red(), bent: false },
        &Intersections::Nothing,
        &dot,
    );
    assert_eq!(plan.center_dot, Some((Coord(0, 1), dot)));
}

#[test]
fn open_line_has_no_center_dot() {
    let p = Pattern::new(Direction::East, vec![Angle::Forward]);
    let plan = p.draw_pattern(
        &Lines::Monocolor { color: red(), bent: false },
        &Intersections::Nothing,
        &Point::Nothing,
    );
    assert_eq!(plan.center_dot, None);
}

#[test]
fn color_switch_takes_lowest_unused() {
    // The walk doubles back over its first edge (switching to color 1),
    // reaches two fresh vertices while color 1 is current, and then doubles
    // back again: the revisited vertex has departed only in color 1, so the
    // switch takes the lowest unused color, which is 0.
    let p = Pattern::new(
        Direction::East,
        vec![Angle::Back, Angle::Back, Angle::Forward, Angle::Forward, Angle::Back],
    );
    let style = Lines::SegmentColors {
        colors: vec![red(), blue(), green()],
        triangles: Triangle::Nothing,
        collisions: CollisionOption::ParallelLines,
    };
    let plan = p.draw_pattern(&style, &Intersections::Nothing, &Point::Nothing);
    match plan.lines {
        LinesPlan::Segments(seg) => {
            let splits: Vec<_> = seg.steps.iter().filter_map(|s| s.split).collect();
            assert_eq!(splits.len(), 2);
            assert_eq!(splits[0].new_color, 1);
            assert_eq!(splits[1].new_color, 0);
        }
        _ => panic!("expected a segment plan"),
    }
}
