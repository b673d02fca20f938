use hex_renderer::grids::{tile_slot, GridCreationError, HexGrid};
use hex_renderer::pattern::{Pattern, PatternVariant};
use hex_renderer::pattern_utils::{Angle, Direction};

fn sample(direction: Direction, turns: Vec<Angle>) -> Pattern {
    Pattern::new(direction, turns)
}

#[test]
fn empty_list_is_rejected() {
    let r = HexGrid::new(vec![], 10);
    assert_eq!(r.err(), Some(GridCreationError::EmptyPatternList));
    let r2 = HexGrid::new(vec![], 1);
    assert_eq!(r2.err(), Some(GridCreationError::EmptyPatternList));
}

#[test]
fn zero_width_is_rejected() {
    let p = sample(Direction::East, vec![Angle::Left]);
    let r = HexGrid::new_normal(vec![p], 0);
    assert_eq!(r.err(), Some(GridCreationError::NegativeInput));
}

/// The doubled planar x of the leftmost silhouette point of pattern `i` of
/// the grid, after the grid's alignment shift.
fn placed_leftmost2(grid: &HexGrid, i: usize) -> i64 {
    let p = grid.patterns[i].get_inner();
    let (lx, ly) = grid.locations[i];
    let mut best = i64::MAX;
    for pt in &p.left_perimiter {
        let v = 2 * (pt.0 as i64 + lx) + (pt.1 as i64 + ly);
        if v < best {
            best = v;
        }
    }
    best - if grid.offset_left { 1 } else { 0 }
}

#[test]
fn single_pattern_lands_at_margin() {
    for turns in [
        vec![],
        vec![Angle::Left, Angle::Left, Angle::Left],
        vec![Angle::Forward, Angle::Right, Angle::BackLeft],
    ] {
        let p = sample(Direction::SouthEast, turns);
        let grid = HexGrid::new_normal(vec![p], 40).unwrap();
        assert_eq!(placed_leftmost2(&grid, 0), 0);
    }
}

#[test]
fn layout_is_deterministic() {
    let make = || {
        vec![
            sample(Direction::East, vec![Angle::Left, Angle::Left]),
            sample(Direction::SouthWest, vec![Angle::Forward, Angle::Right]),
            sample(Direction::NorthEast, vec![Angle::Back, Angle::BackLeft, Angle::Forward]),
        ]
    };
    let g1 = HexGrid::new_normal(make(), 6).unwrap();
    let g2 = HexGrid::new_normal(make(), 6).unwrap();
    assert_eq!(g1.locations, g2.locations);
    assert_eq!(g1.offset_left, g2.offset_left);
    assert_eq!(g1.width_x2, g2.width_x2);
    assert_eq!(g1.height_rows, g2.height_rows);
}

#[test]
fn narrow_width_wraps_rows() {
    let ps = vec![
        sample(Direction::East, vec![Angle::Forward, Angle::Forward]),
        sample(Direction::East, vec![Angle::Forward, Angle::Forward]),
        sample(Direction::East, vec![Angle::Forward, Angle::Forward]),
    ];
    let narrow = HexGrid::new_normal(ps, 2).unwrap();
    // With a two-unit limit each flat three-step pattern needs its own row.
    assert!(narrow.height_rows > 0);
    let ps2 = vec![
        sample(Direction::East, vec![Angle::Forward, Angle::Forward]),
        sample(Direction::East, vec![Angle::Forward, Angle::Forward]),
        sample(Direction::East, vec![Angle::Forward, Angle::Forward]),
    ];
    let wide = HexGrid::new_normal(ps2, 1000).unwrap();
    assert_eq!(wide.height_rows, 0);
    assert!(narrow.height_rows > wide.height_rows);
}

#[test]
fn grid_keeps_patterns_in_order() {
    let ps = vec![
        PatternVariant::Normal(sample(Direction::East, vec![])),
        PatternVariant::Monocolor(sample(Direction::West, vec![Angle::Left])),
    ];
    let grid = HexGrid::new(ps, 20).unwrap();
    assert_eq!(grid.patterns.len(), 2);
    assert_eq!(grid.locations.len(), 2);
    assert!(matches!(grid.patterns[0], PatternVariant::Normal(_)));
    assert!(matches!(grid.patterns[1], PatternVariant::Monocolor(_)));
}

#[test]
fn tile_slots_walk_rows() {
    assert_eq!(tile_slot(0, 3), (0, 0));
    assert_eq!(tile_slot(2, 3), (0, 2));
    assert_eq!(tile_slot(3, 3), (1, 0));
    assert_eq!(tile_slot(7, 3), (2, 1));
}
