use baby_core::geometry::{Aabb, Vec2i};
use baby_core::tilemap::{
    debug_check_mouse, load_map, map_bitmap, save_map, tile_grid, Tile, TileEdit, PLACE_MAX,
};

fn at(x: i64, y: i64, tag: u8) -> (Vec2i, Tile) {
    (Vec2i { x, y }, Tile(tag))
}

#[test]
fn grid_rows_start_at_the_lowest_tile() {
    let tiles = vec![at(100, 50, 4), at(0, 0, 1), at(0, 50, 3), at(50, 0, 2)];
    let m = tile_grid(&tiles, 50).unwrap();
    assert_eq!(m.origin, Vec2i { x: 0, y: 0 });
    assert_eq!(m.width, 3);
    assert_eq!(m.rows, vec![vec![1, 2, 0], vec![3, 0, 4]]);
}

#[test]
fn grid_origin_is_the_smallest_x_and_y() {
    let tiles = vec![at(-200, -350, 1), at(-150, -400, 2), at(-100, -300, 6)];
    let m = tile_grid(&tiles, 50).unwrap();
    assert_eq!(m.origin, Vec2i { x: -200, y: -400 });
    assert_eq!(m.width, 3);
    assert_eq!(m.rows, vec![vec![0, 2, 0], vec![1, 0, 0], vec![0, 0, 6]]);
}

#[test]
fn single_tile_is_a_grid_of_one_cell() {
    let m = tile_grid(&vec![at(7, -9, 5)], 50).unwrap();
    assert_eq!(m.origin, Vec2i { x: 7, y: -9 });
    assert_eq!(m.width, 1);
    assert_eq!(m.rows, vec![vec![5]]);
}

#[test]
fn tiles_off_the_grid_fall_into_the_cell_below_them() {
    let tiles = vec![at(0, 0, 1), at(49, 49, 2), at(50, 99, 3), at(100, 100, 4)];
    let m = tile_grid(&tiles, 50).unwrap();
    assert_eq!(m.rows, vec![vec![2, 0, 0], vec![0, 3, 0], vec![0, 0, 4]]);
}

#[test]
fn of_tiles_in_one_cell_the_last_by_y_then_x_then_place_holds_it() {
    let first = vec![at(10, 0, 5), at(0, 0, 1), at(0, 10, 2), at(60, 0, 3)];
    assert_eq!(tile_grid(&first, 50).unwrap().rows, vec![vec![2, 3]]);
    let second = vec![at(0, 10, 2), at(10, 0, 5), at(0, 0, 1), at(60, 0, 3)];
    assert_eq!(tile_grid(&second, 50).unwrap().rows, vec![vec![2, 3]]);
    let same = vec![at(0, 0, 1), at(0, 0, 4), at(0, 0, 2)];
    assert_eq!(tile_grid(&same, 50).unwrap().rows, vec![vec![2]]);
    let by_x = vec![at(20, 0, 6), at(0, 0, 1), at(10, 0, 3)];
    assert_eq!(tile_grid(&by_x, 50).unwrap().rows, vec![vec![6]]);
}

#[test]
fn large_grid() {
    let side = 1024;
    let tiles = vec![at(0, 0, 1), at(side - 1, side - 1, 2), at(-PLACE_MAX, 0, 3)];
    let m = tile_grid(&tiles[..2].to_vec(), 1).unwrap();
    assert_eq!(m.rows.len(), side as usize);
    assert_eq!(m.width, side as usize);
    assert_eq!(m.rows[0][0], 1);
    assert_eq!(m.rows[side as usize - 1][side as usize - 1], 2);
    let m = tile_grid(&tiles, PLACE_MAX).unwrap();
    assert_eq!(m.origin, Vec2i { x: -PLACE_MAX, y: 0 });
    assert_eq!(m.rows, vec![vec![3, 2]]);
    let (m, bmp) = save_map(&tiles, PLACE_MAX).unwrap();
    assert_eq!(m.width, 2);
    assert_eq!(bmp.len(), 54 + 8);
}

#[test]
fn bitmap_of_a_small_grid() {
    let rows = vec![vec![1u8, 2, 0], vec![3, 0, 4]];
    let bmp = map_bitmap(&rows);
    let expected: Vec<u8> = vec![
        0x42, 0x4D, 78, 0, 0, 0, 0, 0, 0, 0, 0x36, 0, 0, 0, //
        0x28, 0, 0, 0, 4, 0, 0, 0, 2, 0, 0, 0, 1, 0, 0x18, 0, //
        0, 0, 0, 0, 24, 0, 0, 0, 0x13, 0x0B, 0, 0, 0x13, 0x0B, 0, 0, //
        0, 0, 0, 0, 0, 0, 0, 0, //
        0xff, 0xff, 0xff, 0x00, 0x00, 0xff, 0x00, 0x00, 0x00, 0, 0, 0, //
        0xff, 0x00, 0x00, 0x00, 0x00, 0x00, 0x00, 0xff, 0x00, 0, 0, 0,
    ];
    assert_eq!(bmp, expected);
}

#[test]
fn bitmap_colours_and_row_padding() {
    let bmp = map_bitmap(&vec![vec![5u8, 6, 0, 1]]);
    assert_eq!(bmp.len(), 54 + 12);
    assert_eq!(&bmp[2..6], &[66, 0, 0, 0]);
    assert_eq!(&bmp[0x12..0x16], &[4, 0, 0, 0]);
    assert_eq!(&bmp[0x16..0x1A], &[1, 0, 0, 0]);
    assert_eq!(&bmp[0x22..0x26], &[12, 0, 0, 0]);
    assert_eq!(&bmp[54..], &[0x00, 0x88, 0xff, 0x00, 0xff, 0xff, 0, 0, 0, 0xff, 0xff, 0xff]);
    let bmp = map_bitmap(&vec![vec![1u8, 1]]);
    assert_eq!(bmp.len(), 54 + 8);
    assert_eq!(&bmp[0x12..0x16], &[4, 0, 0, 0]);
    assert_eq!(&bmp[54..], &[0xff, 0xff, 0xff, 0xff, 0xff, 0xff, 0, 0]);
    let bmp = map_bitmap(&vec![vec![], vec![]]);
    assert_eq!(bmp.len(), 54);
    assert_eq!(&bmp[0x12..0x16], &[0, 0, 0, 0]);
    assert_eq!(&bmp[0x16..0x1A], &[2, 0, 0, 0]);
}

#[test]
fn bitmap_sizes_take_several_bytes() {
    let rows: Vec<Vec<u8>> = (0..300).map(|_| vec![2u8; 300]).collect();
    let bmp = map_bitmap(&rows);
    assert_eq!(bmp.len(), 54 + 300 * 900);
    assert_eq!(&bmp[2..6], &(270054u32).to_le_bytes());
    assert_eq!(&bmp[0x12..0x16], &(300u32).to_le_bytes());
    assert_eq!(&bmp[0x16..0x1A], &(300u32).to_le_bytes());
    assert_eq!(&bmp[0x22..0x26], &(270000u32).to_le_bytes());
    assert_eq!(&bmp[54..57], &[0x00, 0x00, 0xff]);
}

#[test]
fn save_map_gives_grid_and_bitmap() {
    let tiles = vec![at(100, 50, 4), at(0, 0, 1), at(0, 50, 3), at(50, 0, 2)];
    let (m, bmp) = save_map(&tiles, 50).unwrap();
    assert_eq!(m.rows, vec![vec![1, 2, 0], vec![3, 0, 4]]);
    assert_eq!(bmp, map_bitmap(&m.rows));
    assert_eq!(bmp.len(), 78);
}

#[test]
fn level_list_places_tiles_from_the_bottom_right() {
    let origin = Vec2i { x: -200, y: -400 };
    let tags = vec![1u8, 0, 2, 0, 3, 0];
    let tiles = load_map(origin, 3, &tags, 50);
    assert_eq!(tiles, vec![at(-150, -400, 3), at(-100, -350, 2), at(-200, -350, 1)]);
    assert_eq!(load_map(origin, 3, &vec![0, 0, 0], 50), vec![]);
    assert_eq!(load_map(origin, 1, &vec![], 50), vec![]);
    assert_eq!(load_map(origin, 4, &vec![7], 50), vec![at(-50, -400, 7)]);
}

#[test]
fn level_list_comes_back_from_the_grid() {
    let tags = vec![
        1u8, 0, 0, 6, //
        1, 0, 2, 0, //
        1, 3, 0, 0, //
        1, 1, 1, 1,
    ];
    let tiles = load_map(Vec2i { x: -200, y: -400 }, 4, &tags, 50);
    assert_eq!(tiles.len(), 10);
    let m = tile_grid(&tiles, 50).unwrap();
    assert_eq!(m.origin, Vec2i { x: -200, y: -400 });
    assert_eq!(m.width, 4);
    let back: Vec<u8> = m.rows.iter().rev().flatten().copied().collect();
    assert_eq!(back, tags);
}

#[test]
fn click_on_a_tile_gives_it_the_next_tag() {
    let half = Vec2i { x: 25, y: 25 };
    let tiles = vec![
        (Aabb::new(Vec2i { x: 0, y: 0 }, half), Tile(1)),
        (Aabb::new(Vec2i { x: 50, y: 0 }, half), Tile(5)),
        (Aabb::new(Vec2i { x: 0, y: 0 }, half), Tile(3)),
    ];
    let click = |x: i64, y: i64| debug_check_mouse(Vec2i { x, y }, &tiles, 6, 50);
    assert_eq!(click(10, 10), TileEdit::Retag(0, Tile(2)));
    assert_eq!(click(-25, 25), TileEdit::Retag(0, Tile(2)));
    assert_eq!(click(25, 0), TileEdit::Retag(0, Tile(2)));
    assert_eq!(click(26, 0), TileEdit::Remove(1));
    assert_eq!(click(75, -25), TileEdit::Remove(1));
    let wide = vec![(Aabb::new(Vec2i { x: 0, y: 0 }, half), Tile(255))];
    assert_eq!(
        debug_check_mouse(Vec2i { x: 0, y: 0 }, &wide, 255, 50),
        TileEdit::Retag(0, Tile(1))
    );
    assert_eq!(
        debug_check_mouse(Vec2i { x: 0, y: 0 }, &wide, 1, 50),
        TileEdit::Remove(0)
    );
}

#[test]
fn click_on_nothing_puts_a_tile_on_the_nearest_grid_point() {
    let none: Vec<(Aabb, Tile)> = vec![];
    let click = |x: i64, y: i64| debug_check_mouse(Vec2i { x, y }, &none, 6, 50);
    assert_eq!(click(130, -80), TileEdit::Insert(Vec2i { x: 150, y: -100 }));
    assert_eq!(click(124, -24), TileEdit::Insert(Vec2i { x: 100, y: 0 }));
    assert_eq!(click(125, -25), TileEdit::Insert(Vec2i { x: 150, y: -50 }));
    assert_eq!(click(0, 0), TileEdit::Insert(Vec2i { x: 0, y: 0 }));
    assert_eq!(click(-1, 49), TileEdit::Insert(Vec2i { x: 0, y: 50 }));
    assert_eq!(
        debug_check_mouse(Vec2i { x: PLACE_MAX, y: -PLACE_MAX }, &none, 6, 1 << 20),
        TileEdit::Insert(Vec2i { x: PLACE_MAX, y: -PLACE_MAX })
    );
}
