use block_game::fx::Fx;
use block_game::motion::{update_position, wrap_coord, wrap_line, wrap_points, wrap_polygon};
use block_game::shapes::ShapeKind;

fn units(u: i64) -> Fx {
    Fx(u * 1000)
}

#[test]
fn wrap_in_range_is_identity() {
    for v in [0i64, 1, 57, 199] {
        let (ox, oy) = wrap_points(units(v), units(v), units(200));
        assert_eq!(ox, units(v));
        assert_eq!(oy, units(v));
    }
}

#[test]
fn wrap_pulls_coordinates_back_onto_the_board() {
    let (ox, oy) = wrap_points(units(-1), units(201), units(200));
    assert_eq!(ox, units(199));
    assert_eq!(oy, units(1));
    let (ox, oy) = wrap_points(units(200), units(-200), units(200));
    assert_eq!(ox, units(0));
    assert_eq!(oy, units(0));
}

#[test]
fn wrap_coord_single_axis() {
    assert_eq!(wrap_coord(units(250), units(200)), units(50));
    assert_eq!(wrap_coord(units(-5), units(200)), units(195));
    assert_eq!(wrap_coord(units(100), units(200)), units(100));
}

#[test]
fn line_wrap_preserves_span() {
    // First endpoint has crossed the right edge: the segment is
    // re-anchored at zero and keeps the magnitude of its span.
    let mut pts = vec![units(203), units(10), units(208), units(13)];
    wrap_line(&mut pts, units(200), units(200));
    assert_eq!(pts, vec![units(0), units(10), units(5), units(13)]);
}

#[test]
fn line_wrap_back_over_zero() {
    // Second endpoint has crossed back past zero: re-anchored against
    // the far edge.
    let mut pts = vec![units(4), units(10), units(-3), units(13)];
    wrap_line(&mut pts, units(200), units(200));
    assert_eq!(pts, vec![units(193), units(10), units(200), units(13)]);
}

#[test]
fn update_rect_advances_and_wraps() {
    let mut pts = vec![units(32), units(32), units(20), units(20)];
    // dx = 3 units/s for one second.
    update_position(
        ShapeKind::Rect,
        units(1),
        &mut pts,
        units(3),
        units(0),
        units(200),
        units(200),
    );
    assert_eq!(pts, vec![units(35), units(32), units(20), units(20)]);
}

#[test]
fn update_rect_wraps_at_edge() {
    let mut pts = vec![units(199), units(10)];
    update_position(
        ShapeKind::Rect,
        units(1),
        &mut pts,
        units(3),
        units(0),
        units(200),
        units(200),
    );
    assert_eq!(pts, vec![units(2), units(10)]);
}

#[test]
fn update_uses_fractional_time() {
    // Half a second at 8 units per second moves four units.
    let mut pts = vec![units(10), units(10)];
    update_position(
        ShapeKind::Circle,
        Fx(500),
        &mut pts,
        units(8),
        units(0),
        units(200),
        units(200),
    );
    assert_eq!(pts, vec![units(14), units(10)]);
}

#[test]
fn update_line_moves_both_endpoints() {
    let mut pts = vec![units(40), units(40), units(55), units(58)];
    update_position(
        ShapeKind::Line,
        units(1),
        &mut pts,
        units(10),
        units(3),
        units(200),
        units(200),
    );
    assert_eq!(pts, vec![units(50), units(43), units(65), units(61)]);
}

#[test]
fn update_polygon_translates_every_pair() {
    let mut pts = vec![units(10), units(10), units(20), units(10), units(20), units(20)];
    update_position(
        ShapeKind::Polygon,
        units(1),
        &mut pts,
        units(1),
        units(2),
        units(200),
        units(200),
    );
    assert_eq!(
        pts,
        vec![units(11), units(12), units(21), units(12), units(21), units(22)]
    );
}

#[test]
fn wrap_polygon_applies_edge_rule_in_order() {
    // One edge with its leading x past the right edge.
    let mut pts = vec![units(201), units(5), units(205), units(7)];
    wrap_polygon(&mut pts, units(200), units(200));
    assert_eq!(pts, vec![units(0), units(5), units(4), units(7)]);
}
