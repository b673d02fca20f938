use hex_renderer::pattern::{Pattern, PatternParseError};
use hex_renderer::pattern_utils::{Angle, Coord, Direction};
use hex_renderer::text::{not_zero, parse_str, to_text};

#[test]
fn parses_wrapped_token() {
    let p = Pattern::try_from("HexPattern(EAST aqaa)").unwrap();
    assert_eq!(p.angles, vec![Angle::BackLeft, Angle::Left, Angle::BackLeft, Angle::BackLeft]);
    assert_eq!(p.path[0], Coord(0, 0));
    assert_eq!(p.path[1], Coord(1, 0));
    assert_eq!(p.path.len(), 6);
}

#[test]
fn parses_bare_token_case_insensitively() {
    let p = Pattern::try_from("  south_east wq  ").unwrap();
    assert_eq!(p.angles, vec![Angle::Forward, Angle::Left]);
    assert_eq!(p.path[1], Coord(0, 1));
    let q = Pattern::try_from("hexpattern(NE d)").unwrap();
    assert_eq!(q.path[1], Coord(1, -1));
}

#[test]
fn rejects_wrong_part_count() {
    assert!(matches!(
        Pattern::try_from("EAST"),
        Err(PatternParseError::InvalidParts(_))
    ));
    assert!(matches!(
        Pattern::try_from("EAST a q"),
        Err(PatternParseError::InvalidParts(_))
    ));
}

#[test]
fn rejects_hanging_opener() {
    assert!(matches!(
        Pattern::try_from("HexPattern(EAST aqaa"),
        Err(PatternParseError::HangingHexPattern(_))
    ));
}

#[test]
fn rejects_unknown_direction() {
    match Pattern::try_from("NORTHISH aqaa") {
        Err(PatternParseError::InvalidStartDirection { input, direction }) => {
            assert_eq!(input, "NORTHISH aqaa");
            assert_eq!(direction, "NORTHISH");
        }
        other => panic!("expected a direction error, got {:?}", other.map(|p| p.angles)),
    }
}

#[test]
fn rejects_bad_angle_character() {
    match Pattern::try_from("EAST aqxa") {
        Err(PatternParseError::InvalidAngle { input, angle }) => {
            assert_eq!(input, "EAST aqxa");
            assert_eq!(angle, 'x');
        }
        other => panic!("expected an angle error, got {:?}", other.map(|p| p.angles)),
    }
}

#[test]
fn text_round_trip_all_directions() {
    let turn_sets = [
        vec![],
        vec![Angle::Left, Angle::Left, Angle::Left],
        vec![Angle::Forward, Angle::Right, Angle::BackRight, Angle::Back, Angle::BackLeft],
    ];
    let directions = [
        Direction::East,
        Direction::SouthEast,
        Direction::SouthWest,
        Direction::West,
        Direction::NorthWest,
        Direction::NorthEast,
    ];
    for d in directions {
        for turns in &turn_sets {
            let text = to_text(d, turns);
            let parsed = Pattern::try_from(&text).unwrap();
            let direct = Pattern::new(d, turns.clone());
            assert_eq!(parsed.path, direct.path);
            assert_eq!(parsed.angles, direct.angles);
        }
    }
}

#[test]
fn to_text_is_canonical() {
    assert_eq!(
        to_text(Direction::East, &vec![Angle::BackLeft, Angle::Left]),
        "HexPattern(EAST aq)"
    );
    assert_eq!(to_text(Direction::NorthWest, &vec![]), "HexPattern(NORTH_WEST )");
}

#[test]
fn parse_str_splits_and_collects() {
    let r = parse_str("HexPattern(EAST aqaa), what is this, NORTH_EAST qaq,, west w");
    assert_eq!(r.valid.len(), 3);
    assert_eq!(r.valid[0].path.len(), 6);
    assert_eq!(r.valid[1].angles, vec![Angle::Left, Angle::BackLeft, Angle::Left]);
    assert_eq!(r.valid[2].angles, vec![Angle::Forward]);
    assert_eq!(r.invalid, vec!["what is this".to_string()]);
}

#[test]
fn parse_str_of_garbage_only() {
    let r = parse_str("12.5, (1,2,3)");
    assert!(r.valid.is_empty());
    assert_eq!(r.invalid, vec!["12.5", "(1", "2", "3)"]);
}

#[test]
fn parse_str_empty_input() {
    let r = parse_str("   ");
    assert!(r.valid.is_empty());
    assert!(r.invalid.is_empty());
}

#[test]
fn not_zero_accepts_positive_counts() {
    assert_eq!(not_zero("1"), Ok(1));
    assert_eq!(not_zero("5017"), Ok(5017));
}

#[test]
fn not_zero_rejects_zero_and_junk() {
    assert!(not_zero("0").is_err());
    assert!(not_zero("").is_err());
    assert!(not_zero("12x").is_err());
    assert!(not_zero("-4").is_err());
    assert!(not_zero("99999999999999999999999999").is_err());
}
