use hex_renderer::pattern::{Pattern, PatternVariant};
use hex_renderer::pattern_utils::{
    get_max_components, get_min_components, Angle, ConnectionPoint, Coord, Direction, DynamicList,
};

#[test]
fn single_edge_pattern() {
    let p = Pattern::new(Direction::East, vec![]);
    assert_eq!(p.path, vec![Coord(0, 0), Coord(1, 0)]);
    assert_eq!(p.top_left, Coord(0, 0));
    assert_eq!(p.bottom_right, Coord(1, 0));
    assert!(p.collisions.is_empty());
    assert_eq!(p.points, vec![Coord(0, 0), Coord(1, 0)]);
    assert_eq!(p.left_perimiter, vec![Coord(0, 0)]);
    assert_eq!(p.right_perimiter, vec![Coord(1, 0)]);
}

#[test]
fn path_length_and_origin() {
    let turns = vec![Angle::Left, Angle::BackRight, Angle::Forward, Angle::Back];
    let p = Pattern::new(Direction::SouthWest, turns.clone());
    assert_eq!(p.path.len(), turns.len() + 2);
    assert_eq!(p.path[0], Coord(0, 0));
    assert_eq!(p.angles, turns);
}

#[test]
fn bounding_box_contains_path() {
    let p = Pattern::new(
        Direction::NorthEast,
        vec![Angle::Left, Angle::Right, Angle::Back, Angle::BackLeft, Angle::Forward],
    );
    assert!(p.top_left.0 <= p.bottom_right.0);
    assert!(p.top_left.1 <= p.bottom_right.1);
    for c in &p.path {
        assert!(p.top_left.0 <= c.0 && c.0 <= p.bottom_right.0);
        assert!(p.top_left.1 <= c.1 && c.1 <= p.bottom_right.1);
    }
}

#[test]
fn three_left_turns_arc() {
    let p = Pattern::new(Direction::East, vec![Angle::Left, Angle::Left, Angle::Left]);
    assert_eq!(p.path.len(), 5);
    assert_eq!(
        p.path,
        vec![Coord(0, 0), Coord(1, 0), Coord(2, -1), Coord(2, -2), Coord(1, -2)]
    );
    assert!(p.collisions.is_empty());
}

#[test]
fn back_turn_revisits_vertices() {
    // A back turn walks straight back over the same edge.
    let p = Pattern::new(Direction::East, vec![Angle::Back]);
    assert_eq!(p.path, vec![Coord(0, 0), Coord(1, 0), Coord(0, 0)]);
    assert_eq!(p.points.len(), p.path.len());
    assert_eq!(p.collisions.len(), 1);
}

#[test]
fn collision_counts_extra_traversals() {
    // Four back turns walk the same edge five times in total.
    let p = Pattern::new(
        Direction::East,
        vec![Angle::Back, Angle::Back, Angle::Back, Angle::Back],
    );
    assert_eq!(p.path.len(), 6);
    let edge = ConnectionPoint::new(Coord(0, 0), Coord(1, 0));
    assert_eq!(p.collisions.len(), 1);
    assert_eq!(p.collisions[0], (edge, 4));
    // The deduplicated vertex list keeps the alternation.
    assert_eq!(p.points.len(), 6);
}

#[test]
fn no_collision_on_simple_bends() {
    let p = Pattern::new(Direction::East, vec![Angle::Right, Angle::Right]);
    assert!(p.collisions.is_empty());
}

#[test]
fn perimeter_rows_cover_height() {
    let p = Pattern::new(
        Direction::SouthEast,
        vec![Angle::Forward, Angle::Forward, Angle::Left, Angle::Forward],
    );
    let rows = (p.bottom_right.1 - p.top_left.1 + 1) as usize;
    assert_eq!(p.left_perimiter.len(), rows);
    assert_eq!(p.right_perimiter.len(), rows);
    for (i, l) in p.left_perimiter.iter().enumerate() {
        assert_eq!(l.1, p.top_left.1 + i as i32);
        assert!(l.0 <= p.right_perimiter[i].0);
    }
}

#[test]
fn direction_turning_and_reverse() {
    assert_eq!(Direction::East.turned(Angle::Left), Direction::NorthEast);
    assert_eq!(Direction::East.turned(Angle::Right), Direction::SouthEast);
    assert_eq!(Direction::East.turned(Angle::Back), Direction::West);
    assert_eq!(Direction::NorthWest.get_reverse(), Direction::SouthEast);
    assert_eq!(Direction::try_from(3u8), Ok(Direction::West));
    assert!(Direction::try_from(6u8).is_err());
}

#[test]
fn angle_characters() {
    assert_eq!(Angle::try_from('w'), Ok(Angle::Forward));
    assert_eq!(Angle::try_from('q'), Ok(Angle::Left));
    assert!(Angle::try_from('x').is_err());
}

#[test]
fn coord_helpers() {
    let a = Coord(3, -2);
    let b = Coord(-1, 5);
    assert_eq!(a.min_components(b), Coord(-1, -2));
    assert_eq!(a.max_components(b), Coord(3, 5));
    assert_eq!(a.order_by_x(b), (b, a));
    assert_eq!(ConnectionPoint::new(a, b), ConnectionPoint::new(b, a));
}

#[test]
fn pattern_variant_inner() {
    let p = Pattern::new(Direction::West, vec![Angle::Forward]);
    let path = p.path.clone();
    let v = PatternVariant::Monocolor(p);
    assert_eq!(v.get_inner().path, path);
}

#[test]
fn dynamic_list_grows_both_ways() {
    let mut list: DynamicList<i32> = DynamicList::new();
    list.set(0, 10);
    list.set(-12, 20);
    list.set(25, 30);
    assert_eq!(list.get(0), &Some(10));
    assert_eq!(list.get(-12), &Some(20));
    assert_eq!(list.get(25), &Some(30));
    assert_eq!(list.get(7), &None);
    assert_eq!(list.get(-100), &None);
    assert_eq!(list.get(100), &None);
    assert_eq!(list.into_vector(), vec![20, 10, 30]);
}

#[test]
fn dynamic_list_overwrites() {
    let mut list: DynamicList<u8> = DynamicList::new();
    list.set(4, 1);
    list.set(4, 2);
    assert_eq!(list.get(4), &Some(2));
    assert_eq!(list.into_vector(), vec![2]);
}

#[test]
fn min_max_component_helpers() {
    assert_eq!(get_min_components(Coord(1, 9), Coord(4, -3)), Coord(1, -3));
    assert_eq!(get_max_components(Coord(1, 9), Coord(4, -3)), Coord(4, 9));
}
