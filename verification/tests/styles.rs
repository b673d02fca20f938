use hex_renderer::grids::style_indices;
use hex_renderer::options::{
    Color, EndPoint, GridOptions, GridPatternOptions, Intersections, Lines, Marker, Point,
    Triangle, LINE_THICKNESS,
};
use hex_renderer::pattern::{Pattern, PatternVariant};
use hex_renderer::pattern_utils::{Angle, Direction};

fn marker(radius: u32) -> Marker {
    Marker { color: Color::white(), radius }
}

#[test]
fn max_radius_takes_the_largest() {
    let inter = Intersections::EndsAndMiddle {
        start: EndPoint::BorderedMatch { match_radius: 50, border: marker(70) },
        end: EndPoint::Match { radius: 60 },
        middle: Point::Single(marker(70)),
    };
    assert_eq!(inter.get_max_radius(), 70);
    let line = Lines::SegmentColors {
        colors: vec![Color::white()],
        triangles: Triangle::BorderStartMatch { match_radius: 160, border: marker(240) },
        collisions: hex_renderer::options::CollisionOption::ParallelLines,
    };
    assert_eq!(line.get_max_radius(), 240);
    let opts = GridOptions::generate(
        GridPatternOptions::Uniform(inter, line),
        Point::Single(marker(100)),
    );
    assert_eq!(opts.line_thickness, LINE_THICKNESS);
    assert_eq!(opts.get_max_radius(), 240);
}

#[test]
fn into_point_orders_radii() {
    let end = EndPoint::BorderedMatch { match_radius: 50, border: marker(70) };
    match end.into_point(Color::from_rgb8(1, 2, 3)) {
        Point::Double { inner, outer } => {
            assert_eq!(inner.radius, 50);
            assert_eq!(inner.color, Color::from_rgb8(1, 2, 3));
            assert_eq!(outer.radius, 70);
        }
        _ => panic!("expected a double marker"),
    }
    let swapped = EndPoint::BorderedMatch { match_radius: 90, border: marker(70) };
    match swapped.into_point(Color::from_rgb8(1, 2, 3)) {
        Point::Double { inner, outer } => {
            assert_eq!(inner.radius, 70);
            assert_eq!(outer.radius, 90);
        }
        _ => panic!("expected a double marker"),
    }
}

#[test]
fn triangle_points_resolve_current_color() {
    let t = Triangle::BorderStartMatch { match_radius: 160, border: marker(240) };
    assert_eq!(
        t.to_middle_point(Color::from_rgb8(9, 9, 9)),
        Some(Point::Single(Marker { color: Color::from_rgb8(9, 9, 9), radius: 160 }))
    );
    match t.to_start_point(Color::from_rgb8(9, 9, 9)) {
        Some(Point::Double { inner, outer }) => {
            assert_eq!(inner.radius, 160);
            assert_eq!(outer.radius, 240);
        }
        _ => panic!("expected a double start marker"),
    }
    assert_eq!(Triangle::Nothing.to_middle_point(Color::white()), None);
}

fn normal(direction: Direction, turns: Vec<Angle>) -> PatternVariant {
    PatternVariant::Normal(Pattern::new(direction, turns))
}

#[test]
fn intro_advances_after_retro_steps_back_before() {
    // Three left turns advance the style after that pattern; three right
    // turns step back before drawing.
    let triple_left = vec![Angle::Left, Angle::Left, Angle::Left];
    let triple_right = vec![Angle::Right, Angle::Right, Angle::Right];
    let patterns = vec![
        normal(Direction::East, triple_left.clone()),
        normal(Direction::East, vec![Angle::Forward]),
        normal(Direction::East, triple_right.clone()),
        normal(Direction::East, vec![Angle::Forward]),
    ];
    let intros = vec![triple_left];
    let retros = vec![triple_right];
    let used = style_indices(&patterns, 3, &intros, &retros);
    // The intro itself is drawn with the old style; the retro with the new.
    assert_eq!(used, vec![0, 1, 0, 0]);
}

#[test]
fn style_index_wraps_cyclically() {
    let triple_left = vec![Angle::Left, Angle::Left, Angle::Left];
    let triple_right = vec![Angle::Right, Angle::Right, Angle::Right];
    let patterns = vec![
        normal(Direction::East, triple_right.clone()),
        normal(Direction::East, triple_left.clone()),
        normal(Direction::East, triple_left.clone()),
        normal(Direction::East, vec![]),
    ];
    let used = style_indices(&patterns, 2, &vec![triple_left], &vec![triple_right]);
    // Retro at index 0 wraps to 1; two intros then cycle 1 -> 0 -> 1.
    assert_eq!(used, vec![1, 1, 0, 1]);
}

#[test]
fn uniform_grid_has_no_triggers() {
    let patterns = vec![
        normal(Direction::East, vec![Angle::Left, Angle::Left, Angle::Left]),
        normal(Direction::West, vec![]),
    ];
    let used = style_indices(&patterns, 1, &vec![], &vec![]);
    assert_eq!(used, vec![0, 0]);
}

#[test]
fn generate_changing_pairs_each_line() {
    let lines = vec![
        Lines::Monocolor { color: Color::white(), bent: false },
        Lines::Monocolor { color: Color::from_rgb8(1, 1, 1), bent: true },
    ];
    match GridPatternOptions::generate_default_changing(Intersections::Nothing, lines) {
        GridPatternOptions::Changing { variations, intros, retros } => {
            assert_eq!(variations.len(), 2);
            assert_eq!(intros, vec![vec![Angle::Left, Angle::Left, Angle::Left]]);
            assert_eq!(retros, vec![vec![Angle::Right, Angle::Right, Angle::Right]]);
        }
        _ => panic!("expected a changing configuration"),
    }
}

#[test]
fn gen_changing_monocolor_uses_each_color() {
    let colors = vec![Color::from_rgb8(1, 0, 0), Color::from_rgb8(0, 1, 0)];
    match GridPatternOptions::gen_changing_monocolor(Intersections::Nothing, colors.clone()) {
        GridPatternOptions::Changing { variations, .. } => {
            assert_eq!(variations.len(), 2);
            for (i, (_, line)) in variations.iter().enumerate() {
                match line {
                    Lines::Monocolor { color, bent } => {
                        assert_eq!(*color, colors[i]);
                        assert!(!bent);
                    }
                    _ => panic!("expected monocolor lines"),
                }
            }
        }
        _ => panic!("expected a changing configuration"),
    }
}
