use block_game::fx::Fx;
use block_game::parse::{parse_block_list, parse_fx};
use block_game::shapes::{Color, SceneError, ShapeKind};

fn units(u: i64) -> Fx {
    Fx(u * 1000)
}

#[test]
fn it_works() {
    assert_eq!(2 + 2, 4);
}

#[test]
fn test_parse_block_list() {
    let content = "- Rect
    P, 32.0, 32.0
    C, 0.0, 1.0, 1.0, 1.0
    V, 3.0, 0.0

";
    let mut point_list: Vec<Vec<Fx>> = Vec::new();
    let blocks = parse_block_list(content.as_bytes(), &mut point_list).expect("scene parses");
    assert_eq!(blocks[0].shape, ShapeKind::Rect);
    assert_eq!(point_list[0], vec![units(32), units(32)]);
}

#[test]
fn scene_round_trip() {
    let content = "- R
P, 32.0, 32.0
C, 0.0, 1.0, 1.0, 1.0
V, 3.0, 0.0
#
";
    let mut point_list: Vec<Vec<Fx>> = Vec::new();
    let blocks = parse_block_list(content.as_bytes(), &mut point_list).expect("scene parses");
    assert_eq!(blocks.len(), 1);
    assert_eq!(blocks[0].shape, ShapeKind::Rect);
    assert_eq!(blocks[0].index, 0);
    assert_eq!(point_list[0], vec![units(32), units(32)]);
    assert_eq!(
        blocks[0].color,
        Color { r: units(0), g: units(1), b: units(1), a: units(1) }
    );
    assert_eq!(blocks[0].dx, units(3));
    assert_eq!(blocks[0].dy, units(0));
}

#[test]
fn every_marker_opens_its_kind() {
    for (m, kind) in [
        ("R", ShapeKind::Rect),
        ("E", ShapeKind::Ellipse),
        ("L", ShapeKind::Line),
        ("P", ShapeKind::Polygon),
        ("C", ShapeKind::Circle),
    ] {
        let content = format!("- {}\nP, 1.0, 2.0\n#\n", m);
        let mut point_list: Vec<Vec<Fx>> = Vec::new();
        let blocks =
            parse_block_list(content.as_bytes(), &mut point_list).expect("scene parses");
        assert_eq!(blocks.len(), 1);
        assert_eq!(blocks[0].shape, kind);
    }
}

#[test]
fn unknown_marker_is_an_invalid_shape() {
    let mut point_list: Vec<Vec<Fx>> = Vec::new();
    let r = parse_block_list("- X\n".as_bytes(), &mut point_list);
    assert_eq!(r.unwrap_err(), SceneError::InvalidShape);
}

#[test]
fn malformed_number_fails_the_parse() {
    let mut point_list: Vec<Vec<Fx>> = Vec::new();
    let r = parse_block_list("- R\nP, 1.0, abc\n#\n".as_bytes(), &mut point_list);
    assert_eq!(r.unwrap_err(), SceneError::MalformedNumber);
}

#[test]
fn oversized_number_is_out_of_range() {
    let mut point_list: Vec<Vec<Fx>> = Vec::new();
    let r = parse_block_list("- R\nP, 99999999999.0\n#\n".as_bytes(), &mut point_list);
    assert_eq!(r.unwrap_err(), SceneError::NumberOutOfRange);
}

#[test]
fn hash_without_kind_is_missing_kind() {
    let mut point_list: Vec<Vec<Fx>> = Vec::new();
    let r = parse_block_list("P, 1.0\n#\n".as_bytes(), &mut point_list);
    assert_eq!(r.unwrap_err(), SceneError::MissingKind);
}

#[test]
fn hash_without_points_is_missing_points() {
    let mut point_list: Vec<Vec<Fx>> = Vec::new();
    let r = parse_block_list("- R\n#\n".as_bytes(), &mut point_list);
    assert_eq!(r.unwrap_err(), SceneError::MissingPoints);
}

#[test]
fn short_color_line_fails() {
    let mut point_list: Vec<Vec<Fx>> = Vec::new();
    let r = parse_block_list("- R\nP, 1.0\nC, 0.5\n#\n".as_bytes(), &mut point_list);
    assert_eq!(r.unwrap_err(), SceneError::ShortColor);
}

#[test]
fn short_velocity_line_fails() {
    let mut point_list: Vec<Vec<Fx>> = Vec::new();
    let r = parse_block_list("- R\nP, 1.0\nV, 0.5\n#\n".as_bytes(), &mut point_list);
    assert_eq!(r.unwrap_err(), SceneError::ShortVelocity);
}

#[test]
fn unknown_data_lines_are_ignored() {
    let content = "- R\njunk line\nP, 1.0, 2.0\nX, 9.9\n#\n";
    let mut point_list: Vec<Vec<Fx>> = Vec::new();
    let blocks = parse_block_list(content.as_bytes(), &mut point_list).expect("scene parses");
    assert_eq!(blocks.len(), 1);
    assert_eq!(point_list.len(), 1);
}

#[test]
fn empty_scene_has_no_blocks() {
    let mut point_list: Vec<Vec<Fx>> = Vec::new();
    let blocks = parse_block_list("".as_bytes(), &mut point_list).expect("empty scene parses");
    assert!(blocks.is_empty());
    assert!(point_list.is_empty());
}

#[test]
fn incomplete_trailing_block_is_discarded() {
    let mut point_list: Vec<Vec<Fx>> = Vec::new();
    let blocks = parse_block_list("- R\n".as_bytes(), &mut point_list).expect("scene parses");
    assert!(blocks.is_empty());
}

#[test]
fn two_blocks_share_the_point_collection() {
    let content = "- R\nP, 1.0, 1.0\n#\n- C\nP, 5.0, 5.0, 2.0\n#\n";
    let mut point_list: Vec<Vec<Fx>> = Vec::new();
    let blocks = parse_block_list(content.as_bytes(), &mut point_list).expect("scene parses");
    assert_eq!(blocks.len(), 2);
    assert_eq!(blocks[0].index, 0);
    assert_eq!(blocks[1].index, 1);
    assert_eq!(point_list.len(), 2);
    assert_eq!(point_list[1], vec![units(5), units(5), units(2)]);
}

#[test]
fn registration_appends_after_existing_buffers() {
    let mut point_list: Vec<Vec<Fx>> = vec![vec![units(7)]];
    let blocks =
        parse_block_list("- R\nP, 1.5\n#\n".as_bytes(), &mut point_list).expect("scene parses");
    assert_eq!(blocks[0].index, 1);
    assert_eq!(point_list[0], vec![units(7)]);
    assert_eq!(point_list[1], vec![Fx(1500)]);
}

#[test]
fn numbers_parse_to_thousandths() {
    assert_eq!(parse_fx(&b"32.0".to_vec()), Ok(Fx(32000)));
    assert_eq!(parse_fx(&b"-3.5".to_vec()), Ok(Fx(-3500)));
    assert_eq!(parse_fx(&b"+0.25".to_vec()), Ok(Fx(250)));
    assert_eq!(parse_fx(&b"0.1239".to_vec()), Ok(Fx(123)));
    assert_eq!(parse_fx(&b"7".to_vec()), Ok(Fx(7000)));
    assert_eq!(parse_fx(&b"".to_vec()), Err(SceneError::MalformedNumber));
    assert_eq!(parse_fx(&b"5.".to_vec()), Err(SceneError::MalformedNumber));
    assert_eq!(parse_fx(&b"1.2.3".to_vec()), Err(SceneError::MalformedNumber));
    assert_eq!(parse_fx(&b"1000001".to_vec()), Err(SceneError::NumberOutOfRange));
    assert_eq!(parse_fx(&b"1000000".to_vec()), Ok(Fx(1_000_000_000)));
}
