use block_game::board::{get_pixel, make_key, set_pixel, GameBoard, PixelMap};
use block_game::fx::Fx;
use block_game::ppm::write_ppm_image;
use block_game::shapes::{black, green, red, BlockBuilder, Color, SceneError, ShapeKind};

#[test]
fn set_and_get_round_trip() {
    let mut pm = PixelMap::new();
    set_pixel(&mut pm, 3, -4, red());
    let p = get_pixel(&pm, 3, -4).expect("stored pixel");
    assert_eq!(p.x, 3);
    assert_eq!(p.y, -4);
    assert_eq!(p.color, red());
    assert!(get_pixel(&pm, -4, 3).is_none());
    assert_eq!(pm.len(), 1);
}

#[test]
fn later_write_overwrites_the_pixel() {
    let mut pm = PixelMap::new();
    set_pixel(&mut pm, 5, 5, red());
    set_pixel(&mut pm, 5, 5, green());
    assert_eq!(pm.len(), 1);
    assert_eq!(get_pixel(&pm, 5, 5).unwrap().color, green());
}

#[test]
fn keys_distinguish_nearby_coordinates() {
    assert_ne!(make_key(0, 1), make_key(1, 0));
    assert_ne!(make_key(-1, 0), make_key(0, -1));
    assert_eq!(make_key(7, 9), make_key(7, 9));
}

#[test]
fn a_new_board_is_empty() {
    let board = GameBoard::new();
    assert_eq!(board.pixels.len(), 0);
}

#[test]
fn ppm_of_an_empty_frame_is_black() {
    let pm = PixelMap::new();
    let bytes = write_ppm_image(&pm, 1, 1);
    assert_eq!(String::from_utf8(bytes).unwrap(), "P3\n1 1\n255\n0 0 0\n");
}

#[test]
fn ppm_scales_channels_and_walks_rows() {
    let mut pm = PixelMap::new();
    set_pixel(&mut pm, 0, 0, red());
    set_pixel(&mut pm, 1, 1, Color { r: Fx(500), g: Fx(0), b: Fx(1000), a: Fx(1000) });
    let bytes = write_ppm_image(&pm, 2, 2);
    assert_eq!(
        String::from_utf8(bytes).unwrap(),
        "P3\n2 2\n255\n255 0 0\n0 0 0\n0 0 0\n127 0 255\n"
    );
}

#[test]
fn builder_requires_kind_and_points() {
    let empty = BlockBuilder::empty();
    assert_eq!(empty.build().unwrap_err(), SceneError::MissingKind);

    let rect = BlockBuilder::rect(Fx(0), Fx(0));
    assert_eq!(rect.build().unwrap_err(), SceneError::MissingPoints);
}

#[test]
fn builder_produces_a_complete_block() {
    let mut point_list: Vec<Vec<Fx>> = Vec::new();
    let block = BlockBuilder::line(Fx(0), Fx(0))
        .points(vec![Fx(40_000), Fx(40_000), Fx(55_000), Fx(58_000)], &mut point_list)
        .color(&vec![Fx(0), Fx(1000), Fx(0), Fx(1000)])
        .velocity(&vec![Fx(10_000), Fx(3_000)])
        .build()
        .expect("complete builder builds");
    assert_eq!(block.shape, ShapeKind::Line);
    assert_eq!(block.index, 0);
    assert_eq!(block.color, green());
    assert_eq!(block.dx, Fx(10_000));
    assert_eq!(block.dy, Fx(3_000));
    assert_eq!(point_list.len(), 1);
}

#[test]
fn block_getters_expose_kind_index_and_buffer() {
    let mut point_list: Vec<Vec<Fx>> = Vec::new();
    let block = BlockBuilder::circle(Fx(0), Fx(0))
        .points(vec![Fx(5_000), Fx(5_000), Fx(2_000)], &mut point_list)
        .build()
        .unwrap();
    assert_eq!(block.get_shape_kind(), ShapeKind::Circle);
    assert_eq!(block.get_index(), 0);
    assert_eq!(block.get_shape_info(&point_list), vec![Fx(5_000), Fx(5_000), Fx(2_000)]);
    assert_eq!(block.get_movement_rate(), (Fx(0), Fx(0)));
    let _ = black();
}

#[test]
fn register_points_returns_stable_indices() {
    let mut point_list: Vec<Vec<Fx>> = Vec::new();
    let a = block_game::shapes::register_points(vec![Fx(1000)], &mut point_list);
    let b = block_game::shapes::register_points(vec![Fx(2000), Fx(3000)], &mut point_list);
    assert_eq!((a, b), (0, 1));
    assert_eq!(point_list[a], vec![Fx(1000)]);
    assert_eq!(point_list[b], vec![Fx(2000), Fx(3000)]);
}
