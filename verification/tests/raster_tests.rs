use block_game::board::{get_pixel, PixelMap};
use block_game::fx::Fx;
use block_game::raster::{
    draw_circle, draw_ellipse, draw_line, draw_polygon, draw_rectangle, draw_shapes,
    draw_straight_line,
};
use block_game::shapes::{black, green, red, Block, Color, ShapeKind};

fn units(u: i64) -> Fx {
    Fx(u * 1000)
}

#[test]
fn rect_covers_exactly_its_grid_cells() {
    let mut pm = PixelMap::new();
    let c = red();
    draw_rectangle(0, 0, 3, 2, &mut pm, c);
    assert_eq!(pm.len(), 6);
    for (x, y) in [(0, 0), (0, 1), (1, 0), (1, 1), (2, 0), (2, 1)] {
        let p = get_pixel(&pm, x, y).expect("pixel must be drawn");
        assert_eq!(p.color, c);
    }
    assert!(get_pixel(&pm, 3, 0).is_none());
    assert!(get_pixel(&pm, 0, 2).is_none());
}

#[test]
fn empty_rect_draws_nothing() {
    let mut pm = PixelMap::new();
    draw_rectangle(5, 5, 0, 4, &mut pm, red());
    assert_eq!(pm.len(), 0);
}

#[test]
fn horizontal_line_shortcut_fills_inclusively() {
    let mut pm = PixelMap::new();
    let c = green();
    draw_line(2, 5, 7, 5, &mut pm, c);
    assert_eq!(pm.len(), 6);
    for x in 2..=7 {
        let p = get_pixel(&pm, x, 5).expect("pixel on the run");
        assert_eq!(p.color, c);
    }
}

#[test]
fn vertical_line_shortcut_fills_inclusively() {
    let mut pm = PixelMap::new();
    draw_line(4, 9, 4, 3, &mut pm, red());
    assert_eq!(pm.len(), 7);
    for y in 3..=9 {
        assert!(get_pixel(&pm, 4, y).is_some());
    }
}

#[test]
fn straight_line_orders_its_endpoints() {
    let mut pm = PixelMap::new();
    draw_straight_line(5, 7, 2, &mut pm, red(), false);
    assert_eq!(pm.len(), 6);
    for x in 2..=7 {
        assert!(get_pixel(&pm, x, 5).is_some());
    }
}

#[test]
fn diagonal_line_is_exact() {
    let mut pm = PixelMap::new();
    draw_line(0, 0, 3, 3, &mut pm, red());
    assert_eq!(pm.len(), 4);
    for t in 0..=3 {
        assert!(get_pixel(&pm, t, t).is_some());
    }
}

#[test]
fn line_reaches_both_endpoints_in_every_octant() {
    for (x2, y2) in [(6, 2), (2, 6), (-6, 2), (2, -6), (-6, -2), (6, -2), (-2, 6), (-2, -6)] {
        let mut pm = PixelMap::new();
        draw_line(0, 0, x2, y2, &mut pm, red());
        assert!(get_pixel(&pm, 0, 0).is_some());
        assert!(get_pixel(&pm, x2, y2).is_some());
    }
}

#[test]
fn unit_circle_plots_its_four_neighbours() {
    let mut pm = PixelMap::new();
    draw_circle(5, 5, 1, &mut pm, red());
    assert_eq!(pm.len(), 4);
    for (x, y) in [(5, 4), (5, 6), (4, 5), (6, 5)] {
        assert!(get_pixel(&pm, x, y).is_some());
    }
}

#[test]
fn negative_radius_circle_is_empty() {
    let mut pm = PixelMap::new();
    draw_circle(5, 5, -2, &mut pm, red());
    assert_eq!(pm.len(), 0);
}

#[test]
fn unit_ellipse_plots_a_ring() {
    let mut pm = PixelMap::new();
    draw_ellipse(10, 10, 1, 1, &mut pm, red());
    assert_eq!(pm.len(), 8);
    for (x, y) in [
        (10, 9),
        (10, 11),
        (9, 9),
        (9, 10),
        (9, 11),
        (11, 9),
        (11, 10),
        (11, 11),
    ] {
        assert!(get_pixel(&pm, x, y).is_some());
    }
}

#[test]
fn polygon_closes_its_loop() {
    // The triangle drawn as a polygon covers the same pixels as its
    // three segments drawn one by one, the closing edge included.
    let mut poly = PixelMap::new();
    let mut point_list: Vec<Vec<Fx>> = Vec::new();
    let block = Block::new(
        vec![units(10), units(10), units(20), units(10), units(20), units(20)],
        green(),
        units(0),
        units(0),
        ShapeKind::Polygon,
        &mut point_list,
    );
    draw_polygon(&point_list, &block, &mut poly);

    let mut lines = PixelMap::new();
    draw_line(10, 10, 20, 10, &mut lines, green());
    draw_line(20, 10, 20, 20, &mut lines, green());
    draw_line(20, 20, 10, 10, &mut lines, green());

    assert_eq!(poly.len(), lines.len());
    for x in 0..32i64 {
        for y in 0..32i64 {
            assert_eq!(get_pixel(&poly, x, y).is_some(), get_pixel(&lines, x, y).is_some());
        }
    }
}

#[test]
fn later_shape_overwrites_earlier_at_collisions() {
    let mut point_list: Vec<Vec<Fx>> = Vec::new();
    let a = Block::new(
        vec![units(3), units(3), units(5), units(5)],
        red(),
        units(0),
        units(0),
        ShapeKind::Rect,
        &mut point_list,
    );
    let b = Block::new(
        vec![units(5), units(5), units(4), units(4)],
        green(),
        units(0),
        units(0),
        ShapeKind::Rect,
        &mut point_list,
    );
    let pm = draw_shapes(&vec![a, b], &point_list);
    // (5, 5) is covered by both; the later block wins.
    let p = get_pixel(&pm, 5, 5).expect("collision pixel drawn");
    assert_eq!(p.color, green());
    // A pixel only the first block covers keeps its colour.
    let q = get_pixel(&pm, 3, 3).expect("first block pixel drawn");
    assert_eq!(q.color, red());
}

#[test]
fn draw_shapes_applies_anchor_offsets() {
    let mut point_list: Vec<Vec<Fx>> = Vec::new();
    let mut b = Block::new(
        vec![units(1), units(1), units(2), units(1)],
        black(),
        units(0),
        units(0),
        ShapeKind::Rect,
        &mut point_list,
    );
    b.set_shape_position(units(10), units(20));
    let pm = draw_shapes(&vec![b], &point_list);
    assert_eq!(pm.len(), 2);
    assert!(get_pixel(&pm, 11, 21).is_some());
    assert!(get_pixel(&pm, 12, 21).is_some());
}

#[test]
fn fractional_coordinates_floor_to_the_grid() {
    let mut point_list: Vec<Vec<Fx>> = Vec::new();
    // Anchor at 2.7: the rectangle starts at pixel 2.
    let b = Block::new(
        vec![Fx(2700), Fx(2700), units(1), units(1)],
        red(),
        units(0),
        units(0),
        ShapeKind::Rect,
        &mut point_list,
    );
    let pm = draw_shapes(&vec![b], &point_list);
    assert_eq!(pm.len(), 1);
    assert!(get_pixel(&pm, 2, 2).is_some());
}

#[test]
fn colors_have_their_channels() {
    assert_eq!(red(), Color { r: Fx(1000), g: Fx(0), b: Fx(0), a: Fx(1000) });
    assert_eq!(green().g, Fx(1000));
    assert_eq!(black().r, Fx(0));
}
