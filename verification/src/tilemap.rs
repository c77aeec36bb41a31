//! Export of a level's tiles: the placed tiles laid out as a grid of tags,
//! and that grid drawn as a bitmap file.

use vstd::prelude::*;
use crate::geometry::{Aabb, Vec2i};

verus! {

/// The tag of a tile: what kind it is. Tag zero means no tile.
#[derive(Clone, Copy, Debug, PartialEq, Eq, Structural)]
pub struct Tile(pub u8);

/// Largest magnitude of a tile's coordinate: 2^60.
pub const PLACE_MAX: i64 = 0x1000_0000_0000_0000;

/// Highest tag that the bitmap has a colour for.
pub const TAG_MAX: u8 = 6;

/// Bytes before the pixel rows of a bitmap.
pub const HEADER_LEN: usize = 54;

/// The smallest x among the first `i` tiles; of no tiles, the first tile's.
pub open spec fn min_x_at(tiles: Seq<(Vec2i, Tile)>, i: int) -> int
    decreases i,
{
    if i <= 1 {
        tiles[0].0.x as int
    } else if tiles[i - 1].0.x < min_x_at(tiles, i - 1) {
        tiles[i - 1].0.x as int
    } else {
        min_x_at(tiles, i - 1)
    }
}

/// The largest x among the first `i` tiles.
pub open spec fn max_x_at(tiles: Seq<(Vec2i, Tile)>, i: int) -> int
    decreases i,
{
    if i <= 1 {
        tiles[0].0.x as int
    } else if tiles[i - 1].0.x > max_x_at(tiles, i - 1) {
        tiles[i - 1].0.x as int
    } else {
        max_x_at(tiles, i - 1)
    }
}

/// The smallest y among the first `i` tiles.
pub open spec fn min_y_at(tiles: Seq<(Vec2i, Tile)>, i: int) -> int
    decreases i,
{
    if i <= 1 {
        tiles[0].0.y as int
    } else if tiles[i - 1].0.y < min_y_at(tiles, i - 1) {
        tiles[i - 1].0.y as int
    } else {
        min_y_at(tiles, i - 1)
    }
}

/// The largest y among the first `i` tiles.
pub open spec fn max_y_at(tiles: Seq<(Vec2i, Tile)>, i: int) -> int
    decreases i,
{
    if i <= 1 {
        tiles[0].0.y as int
    } else if tiles[i - 1].0.y > max_y_at(tiles, i - 1) {
        tiles[i - 1].0.y as int
    } else {
        max_y_at(tiles, i - 1)
    }
}

/// The corner of the grid: the smallest x and the smallest y of all tiles.
pub open spec fn origin_of(tiles: Seq<(Vec2i, Tile)>) -> (int, int) {
    (min_x_at(tiles, tiles.len() as int), min_y_at(tiles, tiles.len() as int))
}

/// Columns of the grid: the tiles' spread in x, counted in tile sizes.
pub open spec fn width_of(tiles: Seq<(Vec2i, Tile)>, size: int) -> int {
    (max_x_at(tiles, tiles.len() as int) - min_x_at(tiles, tiles.len() as int)) / size + 1
}

/// Rows of the grid: the tiles' spread in y, counted in tile sizes.
pub open spec fn height_of(tiles: Seq<(Vec2i, Tile)>, size: int) -> int {
    (max_y_at(tiles, tiles.len() as int) - min_y_at(tiles, tiles.len() as int)) / size + 1
}

/// Whether the tile at `b` comes at or after the one at `a` when tiles are
/// ordered by y and then by x.
pub open spec fn not_before(a: Vec2i, b: Vec2i) -> bool {
    a.y < b.y || (a.y == b.y && a.x <= b.x)
}

/// Whether tile `k` falls into the cell at `row`, `col`.
pub open spec fn in_cell(tiles: Seq<(Vec2i, Tile)>, size: int, k: int, row: int, col: int) -> bool {
    &&& (tiles[k].0.y - origin_of(tiles).1) / size == row
    &&& (tiles[k].0.x - origin_of(tiles).0) / size == col
}

/// The tile among the first `i` that holds the cell at `row`, `col`: of
/// those that fall into it, the last in the order by y, then x, then place
/// in the list.
pub open spec fn holder_at(tiles: Seq<(Vec2i, Tile)>, size: int, row: int, col: int, i: int)
    -> Option<int>
    decreases i,
{
    if i <= 0 {
        None
    } else {
        let prev = holder_at(tiles, size, row, col, i - 1);
        if in_cell(tiles, size, i - 1, row, col) && (prev is None || not_before(
            tiles[prev->0].0,
            tiles[i - 1].0,
        )) {
            Some(i - 1)
        } else {
            prev
        }
    }
}

/// The tag in the cell at `row`, `col`: that of the tile that holds it, or
/// zero for an empty cell.
pub open spec fn cell_tag(tiles: Seq<(Vec2i, Tile)>, size: int, row: int, col: int) -> u8 {
    match holder_at(tiles, size, row, col, tiles.len() as int) {
        Some(k) => tiles[k].1.0,
        None => 0,
    }
}

/// Every tile is placed within `PLACE_MAX` of the origin of coordinates.
pub open spec fn placed_in_limits(tiles: Seq<(Vec2i, Tile)>) -> bool {
    forall|i: int|
        0 <= i < tiles.len() ==> -PLACE_MAX <= (#[trigger] tiles[i]).0.x <= PLACE_MAX && -PLACE_MAX
            <= tiles[i].0.y <= PLACE_MAX
}

/// The tiles of a level as a grid of tags, row by row from the lowest y.
pub struct TileMap {
    /// The corner of the grid: smallest x and y of any tile.
    pub origin: Vec2i,
    /// Cells per row.
    pub width: usize,
    /// The tags, one row per tile size in y.
    pub rows: Vec<Vec<u8>>,
}

/// The bounds found over a prefix are bounds of every tile in it, and are
/// reached by one.
pub proof fn lemma_bounds(tiles: Seq<(Vec2i, Tile)>, i: int, k: int)
    requires
        0 <= k < i <= tiles.len(),
    ensures
        min_x_at(tiles, i) <= tiles[k].0.x <= max_x_at(tiles, i),
        min_y_at(tiles, i) <= tiles[k].0.y <= max_y_at(tiles, i),
    decreases i,
{
    if i > 1 && k < i - 1 {
        lemma_bounds(tiles, i - 1, k);
    }
}

/// A row of `width` empty cells.
fn empty_row(width: usize) -> (row: Vec<Option<usize>>)
    ensures
        row@.len() == width,
        forall|i: int| 0 <= i < width ==> row@[i] is None,
{
    let mut row: Vec<Option<usize>> = Vec::new();
    let mut i: usize = 0;
    while i < width
        invariant
            i <= width,
            row@.len() == i,
            forall|k: int| 0 <= k < i ==> row@[k] is None,
        decreases width - i,
    {
        row.push(None);
        i += 1;
    }
    row
}

/// Lays the tiles out as a grid of tags.
///
/// The grid starts at the smallest x and y of any tile and has one cell per
/// `tile_sz` in each direction, up to the largest x and y. A cell holds the
/// tag of the tile that falls into it, and zero where none does; of several
/// tiles in one cell, the last in the order by y, then x, then place in the
/// list. Returns `None` exactly when a side of the grid has more cells than
/// a list can hold.
#[verifier::rlimit(50)]
pub fn tile_grid(tiles: &Vec<(Vec2i, Tile)>, tile_sz: i64) -> (r: Option<TileMap>)
    requires
        tiles@.len() > 0,
        0 < tile_sz,
        placed_in_limits(tiles@),
    ensures
        r is Some <==> width_of(tiles@, tile_sz as int) <= usize::MAX && height_of(
            tiles@,
            tile_sz as int,
        ) <= usize::MAX,
        match r {
            Some(m) => {
                &&& m.origin.x == origin_of(tiles@).0
                &&& m.origin.y == origin_of(tiles@).1
                &&& m.width == width_of(tiles@, tile_sz as int)
                &&& m.rows@.len() == height_of(tiles@, tile_sz as int)
                &&& forall|row: int|
                    0 <= row < m.rows@.len() ==> (#[trigger] m.rows@[row])@.len() == m.width
                &&& forall|row: int, col: int|
                    0 <= row < m.rows@.len() && 0 <= col < m.width ==> #[trigger] m.rows@[row]@[col]
                        == cell_tag(tiles@, tile_sz as int, row, col)
            },
            None => true,
        },
{
    let n: usize = tiles.len();
    let ghost size = tile_sz as int;
    let mut min_x: i64 = tiles[0].0.x;
    let mut max_x: i64 = tiles[0].0.x;
    let mut min_y: i64 = tiles[0].0.y;
    let mut max_y: i64 = tiles[0].0.y;
    let mut i: usize = 1;
    while i < n
        invariant
            1 <= i <= n,
            n == tiles@.len(),
            min_x == min_x_at(tiles@, i as int),
            max_x == max_x_at(tiles@, i as int),
            min_y == min_y_at(tiles@, i as int),
            max_y == max_y_at(tiles@, i as int),
        decreases n - i,
    {
        let p = tiles[i].0;
        if p.x < min_x {
            min_x = p.x;
        }
        if p.x > max_x {
            max_x = p.x;
        }
        if p.y < min_y {
            min_y = p.y;
        }
        if p.y > max_y {
            max_y = p.y;
        }
        i += 1;
    }
    proof {
        lemma_bounds(tiles@, n as int, 0);
        assert(-PLACE_MAX <= min_x <= max_x <= PLACE_MAX && -PLACE_MAX <= min_y <= max_y
            <= PLACE_MAX) by {
            lemma_extremes_placed(tiles@, n as int);
        }
        vstd::arithmetic::div_mod::lemma_div_pos_is_pos(max_x - min_x, size);
        vstd::arithmetic::div_mod::lemma_div_pos_is_pos(max_y - min_y, size);
        vstd::arithmetic::div_mod::lemma_div_is_ordered(max_x - min_x, 2 * PLACE_MAX, size);
        vstd::arithmetic::div_mod::lemma_div_is_ordered(max_y - min_y, 2 * PLACE_MAX, size);
        lemma_div_shrinks(2 * PLACE_MAX, size);
    }
    let width: u64 = ((max_x - min_x) / tile_sz) as u64 + 1;
    let height: u64 = ((max_y - min_y) / tile_sz) as u64 + 1;
    if width > usize::MAX as u64 || height > usize::MAX as u64 {
        return None;
    }
    let w: usize = width as usize;
    let h: usize = height as usize;
    let mut holders: Vec<Vec<Option<usize>>> = Vec::new();
    let mut r: usize = 0;
    while r < h
        invariant
            r <= h,
            holders@.len() == r,
            forall|row: int| 0 <= row < r ==> (#[trigger] holders@[row])@.len() == w,
            forall|row: int, col: int|
                0 <= row < r && 0 <= col < w ==> (#[trigger] holders@[row]@[col]) is None,
        decreases h - r,
    {
        holders.push(empty_row(w));
        r += 1;
    }
    let mut k: usize = 0;
    while k < n
        invariant
            k <= n,
            n == tiles@.len(),
            0 < tile_sz,
            size == tile_sz,
            placed_in_limits(tiles@),
            min_x == origin_of(tiles@).0,
            min_y == origin_of(tiles@).1,
            -PLACE_MAX <= min_x <= PLACE_MAX,
            -PLACE_MAX <= min_y <= PLACE_MAX,
            max_x == max_x_at(tiles@, n as int),
            max_y == max_y_at(tiles@, n as int),
            w == (max_x - min_x) / size + 1,
            h == (max_y - min_y) / size + 1,
            holders@.len() == h,
            forall|row: int| 0 <= row < h ==> (#[trigger] holders@[row])@.len() == w,
            forall|row: int, col: int|
                0 <= row < h && 0 <= col < w ==> match #[trigger] holders@[row]@[col] {
                    Some(j) => holder_at(tiles@, size, row, col, k as int) == Some(j as int),
                    None => holder_at(tiles@, size, row, col, k as int) is None,
                },
            forall|row: int, col: int|
                0 <= row < h && 0 <= col < w && (#[trigger] holders@[row]@[col]) is Some
                    ==> holders@[row]@[col]->0 < k,
        decreases n - k,
    {
        let p = tiles[k].0;
        proof {
            assert(-PLACE_MAX <= tiles@[k as int].0.x <= PLACE_MAX);
            lemma_bounds(tiles@, n as int, k as int);
            vstd::arithmetic::div_mod::lemma_div_pos_is_pos(p.x - min_x, size);
            vstd::arithmetic::div_mod::lemma_div_pos_is_pos(p.y - min_y, size);
            vstd::arithmetic::div_mod::lemma_div_is_ordered(p.x - min_x, max_x - min_x, size);
            vstd::arithmetic::div_mod::lemma_div_is_ordered(p.y - min_y, max_y - min_y, size);
        }
        let row: usize = ((p.y - min_y) / tile_sz) as usize;
        let col: usize = ((p.x - min_x) / tile_sz) as usize;
        let take: bool = match holders[row][col] {
            Some(j) => {
                let q = tiles[j].0;
                q.y < p.y || (q.y == p.y && q.x <= p.x)
            },
            None => true,
        };
        if take {
            holders[row][col] = Some(k);
        }
        k += 1;
    }
    let mut rows: Vec<Vec<u8>> = Vec::new();
    let mut r: usize = 0;
    while r < h
        invariant
            r <= h,
            n == tiles@.len(),
            holders@.len() == h,
            forall|row: int| 0 <= row < h ==> (#[trigger] holders@[row])@.len() == w,
            forall|row: int, col: int|
                0 <= row < h && 0 <= col < w ==> match #[trigger] holders@[row]@[col] {
                    Some(j) => j < n && holder_at(tiles@, size, row, col, n as int) == Some(
                        j as int,
                    ),
                    None => holder_at(tiles@, size, row, col, n as int) is None,
                },
            rows@.len() == r,
            forall|row: int| 0 <= row < r ==> (#[trigger] rows@[row])@.len() == w,
            forall|row: int, col: int|
                0 <= row < r && 0 <= col < w ==> #[trigger] rows@[row]@[col] == cell_tag(
                    tiles@,
                    size,
                    row,
                    col,
                ),
        decreases h - r,
    {
        let mut tags: Vec<u8> = Vec::new();
        let mut c: usize = 0;
        while c < w
            invariant
                c <= w,
                r < h,
                n == tiles@.len(),
                holders@.len() == h,
                holders@[r as int]@.len() == w,
                forall|col: int|
                    0 <= col < w ==> match #[trigger] holders@[r as int]@[col] {
                        Some(j) => j < n && holder_at(tiles@, size, r as int, col, n as int)
                            == Some(j as int),
                        None => holder_at(tiles@, size, r as int, col, n as int) is None,
                    },
                tags@.len() == c,
                forall|col: int|
                    0 <= col < c ==> #[trigger] tags@[col] == cell_tag(tiles@, size, r as int, col),
            decreases w - c,
        {
            let tag: u8 = match holders[r][c] {
                Some(j) => tiles[j].1.0,
                None => 0,
            };
            tags.push(tag);
            c += 1;
        }
        rows.push(tags);
        r += 1;
    }
    Some(TileMap { origin: Vec2i { x: min_x, y: min_y }, width: w, rows })
}

/// The bounds of tiles placed within limits are within limits.
proof fn lemma_extremes_placed(tiles: Seq<(Vec2i, Tile)>, i: int)
    requires
        1 <= i <= tiles.len(),
        placed_in_limits(tiles),
    ensures
        -PLACE_MAX <= min_x_at(tiles, i) <= max_x_at(tiles, i) <= PLACE_MAX,
        -PLACE_MAX <= min_y_at(tiles, i) <= max_y_at(tiles, i) <= PLACE_MAX,
    decreases i,
{
    assert(-PLACE_MAX <= tiles[i - 1].0.x <= PLACE_MAX);
    assert(-PLACE_MAX <= tiles[0].0.x <= PLACE_MAX);
    if i > 1 {
        lemma_extremes_placed(tiles, i - 1);
    }
}

/// Dividing a number that is not negative by a positive one does not make it
/// larger.
proof fn lemma_div_shrinks(x: int, d: int)
    requires
        0 <= x,
        0 < d,
    ensures
        x / d <= x,
{
    vstd::arithmetic::div_mod::lemma_div_is_ordered_by_denominator(x, 1, d);
}

/// The colour of a tag, as blue, green, red.
pub open spec fn color_of(tag: u8) -> Seq<u8> {
    if tag == 0 {
        seq![0x00u8, 0x00u8, 0x00u8]
    } else if tag == 1 {
        seq![0xffu8, 0xffu8, 0xffu8]
    } else if tag == 2 {
        seq![0x00u8, 0x00u8, 0xffu8]
    } else if tag == 3 {
        seq![0xffu8, 0x00u8, 0x00u8]
    } else if tag == 4 {
        seq![0x00u8, 0xffu8, 0x00u8]
    } else if tag == 5 {
        seq![0x00u8, 0x88u8, 0xffu8]
    } else {
        seq![0x00u8, 0xffu8, 0xffu8]
    }
}

/// The pixels of the first `i` cells of a row.
pub open spec fn row_pixels(row: Seq<u8>, i: int) -> Seq<u8>
    decreases i,
{
    if i <= 0 {
        Seq::empty()
    } else {
        row_pixels(row, i - 1) + color_of(row[i - 1])
    }
}

/// Zero bytes that fill a row of `cells` pixels up to a multiple of four
/// bytes.
pub open spec fn padding_of(cells: int) -> int {
    if (cells * 3) % 4 == 0 {
        0
    } else {
        4 - (cells * 3) % 4
    }
}

/// The bytes of one row: its pixels and its padding.
pub open spec fn row_bytes(row: Seq<u8>) -> Seq<u8> {
    row_pixels(row, row.len() as int) + Seq::new(padding_of(row.len() as int) as nat, |k: int| 0u8)
}

/// The bytes of the first `i` rows.
pub open spec fn pixel_data(rows: Seq<Vec<u8>>, i: int) -> Seq<u8>
    decreases i,
{
    if i <= 0 {
        Seq::empty()
    } else {
        pixel_data(rows, i - 1) + row_bytes(rows[i - 1]@)
    }
}

/// The low 32 bits of `v`, lowest byte first.
pub open spec fn le_bytes(v: int) -> Seq<u8> {
    seq![
        (v % 256) as u8,
        ((v / 256) % 256) as u8,
        ((v / 65536) % 256) as u8,
        ((v / 16777216) % 256) as u8,
    ]
}

/// The width that the header states: the cells of the first row, rounded up
/// to a multiple of four.
pub open spec fn stated_width(cells: int) -> int {
    if cells % 4 != 0 {
        cells + 4 - cells % 4
    } else {
        cells
    }
}

/// The 54 bytes of the file and image headers, for 24 bits per pixel.
pub open spec fn header_of(file_len: int, width: int, height: int, data_len: int) -> Seq<u8> {
    seq![0x42u8, 0x4Du8] + le_bytes(file_len) + seq![
        0x00u8,
        0x00u8,
        0x00u8,
        0x00u8,
        0x36u8,
        0x00u8,
        0x00u8,
        0x00u8,
        0x28u8,
        0x00u8,
        0x00u8,
        0x00u8,
    ] + le_bytes(width) + le_bytes(height) + seq![
        0x01u8,
        0x00u8,
        0x18u8,
        0x00u8,
        0x00u8,
        0x00u8,
        0x00u8,
        0x00u8,
    ] + le_bytes(data_len) + seq![
        0x13u8,
        0x0Bu8,
        0x00u8,
        0x00u8,
        0x13u8,
        0x0Bu8,
        0x00u8,
        0x00u8,
        0x00u8,
        0x00u8,
        0x00u8,
        0x00u8,
        0x00u8,
        0x00u8,
        0x00u8,
        0x00u8,
    ]
}

/// The bitmap file of a grid: the headers, then the rows in the grid's
/// order, three bytes per cell.
pub open spec fn bitmap_of(rows: Seq<Vec<u8>>) -> Seq<u8> {
    let data = pixel_data(rows, rows.len() as int);
    header_of(
        HEADER_LEN + data.len(),
        stated_width(rows[0]@.len() as int),
        rows.len() as int,
        data.len() as int,
    ) + data
}

/// Every tag of the grid has a colour.
pub open spec fn tags_in_limits(rows: Seq<Vec<u8>>) -> bool {
    forall|r: int, c: int|
        0 <= r < rows.len() && 0 <= c < rows[r]@.len() ==> #[trigger] rows[r]@[c] <= TAG_MAX
}

/// Appends the low 32 bits of `v`, lowest byte first.
fn push_le(out: &mut Vec<u8>, v: usize)
    ensures
        final(out)@ == old(out)@ + le_bytes(v as int),
{
    let wide: u64 = v as u64;
    out.push((wide % 256) as u8);
    out.push(((wide / 256) % 256) as u8);
    out.push(((wide / 65536) % 256) as u8);
    out.push(((wide / 16777216) % 256) as u8);
    assert(out@ =~= old(out)@ + le_bytes(v as int));
}

/// Appends the bytes of one row.
#[verifier::rlimit(50)]
fn push_row(out: &mut Vec<u8>, row: &Vec<u8>)
    requires
        forall|c: int| 0 <= c < row@.len() ==> #[trigger] row@[c] <= TAG_MAX,
    ensures
        final(out)@ == old(out)@ + row_bytes(row@),
{
    let mut c: usize = 0;
    while c < row.len()
        invariant
            c <= row@.len(),
            forall|k: int| 0 <= k < row@.len() ==> #[trigger] row@[k] <= TAG_MAX,
            out@ == old(out)@ + row_pixels(row@, c as int),
        decreases row@.len() - c,
    {
        let ghost before = out@;
        let tag: u8 = row[c];
        assert(tag <= TAG_MAX);
        if tag == 0 {
            out.push(0x00);
            out.push(0x00);
            out.push(0x00);
        } else if tag == 1 {
            out.push(0xff);
            out.push(0xff);
            out.push(0xff);
        } else if tag == 2 {
            out.push(0x00);
            out.push(0x00);
            out.push(0xff);
        } else if tag == 3 {
            out.push(0xff);
            out.push(0x00);
            out.push(0x00);
        } else if tag == 4 {
            out.push(0x00);
            out.push(0xff);
            out.push(0x00);
        } else if tag == 5 {
            out.push(0x00);
            out.push(0x88);
            out.push(0xff);
        } else {
            out.push(0x00);
            out.push(0xff);
            out.push(0xff);
        }
        assert(out@ =~= before + color_of(tag));
        assert(out@ =~= old(out)@ + row_pixels(row@, c as int + 1));
        c += 1;
    }
    let rest: usize = (row.len() % 4 * 3) % 4;
    assert(rest == (row@.len() * 3) % 4) by (nonlinear_arith)
        requires
            rest == (row@.len() % 4 * 3) % 4,
    ;
    let pad: usize = if rest == 0 {
        0
    } else {
        4 - rest
    };
    let ghost pixels = out@;
    let mut k: usize = 0;
    while k < pad
        invariant
            k <= pad,
            out@ == pixels + Seq::new(k as nat, |j: int| 0u8),
        decreases pad - k,
    {
        out.push(0x00);
        k += 1;
        assert(out@ =~= pixels + Seq::new(k as nat, |j: int| 0u8));
    }
    assert(out@ =~= old(out)@ + row_bytes(row@));
}

/// Draws a grid of tags as a bitmap file, 24 bits per pixel, first row at
/// the bottom of the picture.
#[verifier::rlimit(50)]
pub fn map_bitmap(rows: &Vec<Vec<u8>>) -> (bmp: Vec<u8>)
    requires
        rows@.len() > 0,
        tags_in_limits(rows@),
    ensures
        bmp@ == bitmap_of(rows@),
{
    let mut data: Vec<u8> = Vec::new();
    let mut r: usize = 0;
    while r < rows.len()
        invariant
            r <= rows@.len(),
            tags_in_limits(rows@),
            data@ == pixel_data(rows@, r as int),
        decreases rows@.len() - r,
    {
        assert forall|c: int| 0 <= c < rows@[r as int]@.len() implies #[trigger] rows@[r as int]@[c]
            <= TAG_MAX by {
            assert(rows@[r as int]@[c] <= TAG_MAX);
        }
        push_row(&mut data, &rows[r]);
        r += 1;
    }
    let cells: usize = rows[0].len();
    let mut bmp: Vec<u8> = Vec::new();
    bmp.push(0x42);
    bmp.push(0x4D);
    push_file_len(&mut bmp, data.len());
    bmp.push(0x00);
    bmp.push(0x00);
    bmp.push(0x00);
    bmp.push(0x00);
    bmp.push(0x36);
    bmp.push(0x00);
    bmp.push(0x00);
    bmp.push(0x00);
    bmp.push(0x28);
    bmp.push(0x00);
    bmp.push(0x00);
    bmp.push(0x00);
    push_stated_width(&mut bmp, cells);
    push_le(&mut bmp, rows.len());
    bmp.push(0x01);
    bmp.push(0x00);
    bmp.push(0x18);
    bmp.push(0x00);
    bmp.push(0x00);
    bmp.push(0x00);
    bmp.push(0x00);
    bmp.push(0x00);
    push_le(&mut bmp, data.len());
    bmp.push(0x13);
    bmp.push(0x0B);
    bmp.push(0x00);
    bmp.push(0x00);
    bmp.push(0x13);
    bmp.push(0x0B);
    bmp.push(0x00);
    bmp.push(0x00);
    bmp.push(0x00);
    bmp.push(0x00);
    bmp.push(0x00);
    bmp.push(0x00);
    bmp.push(0x00);
    bmp.push(0x00);
    bmp.push(0x00);
    bmp.push(0x00);
    let ghost head = bmp@;
    assert(head =~= header_of(
        HEADER_LEN + data@.len(),
        stated_width(cells as int),
        rows@.len() as int,
        data@.len() as int,
    ));
    let mut i: usize = 0;
    while i < data.len()
        invariant
            i <= data@.len(),
            bmp@ == head + data@.take(i as int),
        decreases data@.len() - i,
    {
        bmp.push(data[i]);
        i += 1;
        assert(bmp@ =~= head + data@.take(i as int));
    }
    assert(data@.take(data@.len() as int) =~= data@);
    bmp
}

/// Appends the low 32 bits of the file's length: the header's and the
/// data's.
fn push_file_len(out: &mut Vec<u8>, data_len: usize)
    ensures
        final(out)@ == old(out)@ + le_bytes(HEADER_LEN + data_len),
{
    let wide: u128 = data_len as u128 + 54;
    out.push((wide % 256) as u8);
    out.push(((wide / 256) % 256) as u8);
    out.push(((wide / 65536) % 256) as u8);
    out.push(((wide / 16777216) % 256) as u8);
    assert(out@ =~= old(out)@ + le_bytes(HEADER_LEN + data_len));
}

/// Appends the low 32 bits of the stated width of a row of `cells`.
fn push_stated_width(out: &mut Vec<u8>, cells: usize)
    ensures
        final(out)@ == old(out)@ + le_bytes(stated_width(cells as int)),
{
    let wide: u128 = if cells % 4 != 0 {
        cells as u128 + 4 - (cells % 4) as u128
    } else {
        cells as u128
    };
    out.push((wide % 256) as u8);
    out.push(((wide / 256) % 256) as u8);
    out.push(((wide / 65536) % 256) as u8);
    out.push(((wide / 16777216) % 256) as u8);
    assert(out@ =~= old(out)@ + le_bytes(stated_width(cells as int)));
}

/// The export of a level: the tiles as a grid of tags, and the grid as a
/// bitmap file. `None` where a side of the grid has more cells than a list
/// can hold.
pub fn save_map(tiles: &Vec<(Vec2i, Tile)>, tile_sz: i64) -> (r: Option<(TileMap, Vec<u8>)>)
    requires
        tiles@.len() > 0,
        0 < tile_sz,
        placed_in_limits(tiles@),
        forall|i: int| 0 <= i < tiles@.len() ==> (#[trigger] tiles@[i]).1.0 <= TAG_MAX,
    ensures
        r is Some <==> width_of(tiles@, tile_sz as int) <= usize::MAX && height_of(
            tiles@,
            tile_sz as int,
        ) <= usize::MAX,
        match r {
            Some((m, bmp)) => {
                &&& m.origin.x == origin_of(tiles@).0
                &&& m.origin.y == origin_of(tiles@).1
                &&& m.width == width_of(tiles@, tile_sz as int)
                &&& m.rows@.len() == height_of(tiles@, tile_sz as int)
                &&& forall|row: int|
                    0 <= row < m.rows@.len() ==> (#[trigger] m.rows@[row])@.len() == m.width
                &&& forall|row: int, col: int|
                    0 <= row < m.rows@.len() && 0 <= col < m.width ==> #[trigger] m.rows@[row]@[col]
                        == cell_tag(tiles@, tile_sz as int, row, col)
                &&& bmp@ == bitmap_of(m.rows@)
            },
            None => true,
        },
{
    match tile_grid(tiles, tile_sz) {
        Some(m) => {
            proof {
                vstd::arithmetic::div_mod::lemma_div_pos_is_pos(
                    max_y_at(tiles@, tiles@.len() as int) - min_y_at(tiles@, tiles@.len() as int),
                    tile_sz as int,
                );
                lemma_bounds(tiles@, tiles@.len() as int, 0);
                assert forall|r: int, c: int|
                    0 <= r < m.rows@.len() && 0 <= c < m.rows@[r]@.len() implies #[trigger] m.rows@[r]@[c]
                    <= TAG_MAX by {
                    assert(m.rows@[r]@.len() == m.width);
                    assert(m.rows@[r]@[c] == cell_tag(tiles@, tile_sz as int, r, c));
                    lemma_holder_in_range(tiles@, tile_sz as int, r, c, tiles@.len() as int);
                }
            }
            let bmp = map_bitmap(&m.rows);
            Some((m, bmp))
        },
        None => None,
    }
}

/// The holder of a cell comes last among the tiles that fall into it: none
/// of them is placed after it in the order by y and then x, and of those
/// placed where it is, none stands later in the list.
pub proof fn lemma_holder_is_last(
    tiles: Seq<(Vec2i, Tile)>,
    size: int,
    row: int,
    col: int,
    i: int,
    k: int,
)
    requires
        0 <= k < i <= tiles.len(),
        in_cell(tiles, size, k, row, col),
    ensures
        holder_at(tiles, size, row, col, i) is Some,
        not_before(tiles[k].0, tiles[holder_at(tiles, size, row, col, i)->0].0),
        tiles[k].0 == tiles[holder_at(tiles, size, row, col, i)->0].0 ==> k <= holder_at(
            tiles,
            size,
            row,
            col,
            i,
        )->0,
    decreases i,
{
    lemma_holder_in_range(tiles, size, row, col, i - 1);
    if k < i - 1 {
        lemma_holder_is_last(tiles, size, row, col, i - 1, k);
    }
}

/// The holder of a cell is one of the tiles.
pub proof fn lemma_holder_in_range(
    tiles: Seq<(Vec2i, Tile)>,
    size: int,
    row: int,
    col: int,
    i: int,
)
    requires
        0 <= i <= tiles.len(),
    ensures
        match holder_at(tiles, size, row, col, i) {
            Some(k) => 0 <= k < i && in_cell(tiles, size, k, row, col),
            None => true,
        },
    decreases i,
{
    if i > 0 {
        lemma_holder_in_range(tiles, size, row, col, i - 1);
    }
}

/// Largest tile size that a level is laid out or edited with: 2^20.
pub const TILE_SIZE_MAX: i64 = 0x10_0000;

/// Largest number of tags in a level's list, and of tags in a row: 2^40.
/// With the largest tile size a level then spans no more than 2^60.
pub const LEVEL_MAX: u64 = 0x100_0000_0000;

/// The tile for place `i`, counted from the end of a level's list of tags:
/// the list runs row by row from the top, each row from the left, and
/// places run from the bottom right.
pub open spec fn placed_at(origin: Vec2i, width: int, tags: Seq<u8>, size: int, i: int) -> (
    Vec2i,
    Tile,
) {
    (
        Vec2i {
            x: (origin.x + (width - i % width - 1) * size) as i64,
            y: (origin.y + (i / width) * size) as i64,
        },
        Tile(tags[tags.len() - 1 - i]),
    )
}

/// The tiles of the first `i` places, those with tag zero left out.
pub open spec fn loaded_at(origin: Vec2i, width: int, tags: Seq<u8>, size: int, i: int) -> Seq<
    (Vec2i, Tile),
>
    decreases i,
{
    if i <= 0 {
        Seq::empty()
    } else if tags[tags.len() - i] == 0 {
        loaded_at(origin, width, tags, size, i - 1)
    } else {
        loaded_at(origin, width, tags, size, i - 1).push(
            placed_at(origin, width, tags, size, i - 1),
        )
    }
}

/// Places the tiles of a level from its list of tags.
///
/// The list holds the rows of the level from top to bottom, `width` tags
/// each, left to right. The last tag lies at `origin` plus `width - 1` tiles
/// in x; tags before it lie to the left, and rows before the last lie
/// higher. Tag zero places nothing.
#[verifier::rlimit(50)]
pub fn load_map(origin: Vec2i, width: usize, tags: &Vec<u8>, tile_sz: i64) -> (tiles: Vec<
    (Vec2i, Tile),
>)
    requires
        0 < width,
        0 < tile_sz <= TILE_SIZE_MAX,
        tags@.len() <= LEVEL_MAX,
        width <= LEVEL_MAX,
        -PLACE_MAX <= origin.x <= PLACE_MAX,
        -PLACE_MAX <= origin.y <= PLACE_MAX,
    ensures
        tiles@ == loaded_at(origin, width as int, tags@, tile_sz as int, tags@.len() as int),
{
    let n: usize = tags.len();
    let mut tiles: Vec<(Vec2i, Tile)> = Vec::new();
    let mut i: usize = 0;
    while i < n
        invariant
            i <= n,
            n == tags@.len(),
            n <= LEVEL_MAX,
            0 < width <= LEVEL_MAX,
            0 < tile_sz <= TILE_SIZE_MAX,
            -PLACE_MAX <= origin.x <= PLACE_MAX,
            -PLACE_MAX <= origin.y <= PLACE_MAX,
            tiles@ == loaded_at(origin, width as int, tags@, tile_sz as int, i as int),
        decreases n - i,
    {
        let t: u8 = tags[n - 1 - i];
        if t != 0 {
            let col: i64 = (width - i % width - 1) as i64;
            let row: i64 = (i / width) as i64;
            proof {
                vstd::arithmetic::div_mod::lemma_div_is_ordered_by_denominator(
                    i as int,
                    1,
                    width as int,
                );
                assert(0 <= col * tile_sz <= LEVEL_MAX * TILE_SIZE_MAX) by (nonlinear_arith)
                    requires
                        0 <= col <= LEVEL_MAX,
                        0 < tile_sz <= TILE_SIZE_MAX,
                ;
                assert(0 <= row * tile_sz <= LEVEL_MAX * TILE_SIZE_MAX) by (nonlinear_arith)
                    requires
                        0 <= row <= LEVEL_MAX,
                        0 < tile_sz <= TILE_SIZE_MAX,
                ;
            }
            let x: i64 = origin.x + col * tile_sz;
            let y: i64 = origin.y + row * tile_sz;
            tiles.push((Vec2i { x, y }, Tile(t)));
        }
        i += 1;
    }
    tiles
}

/// The multiple of `size` nearest to `x`; midway, the one farther from
/// zero.
pub open spec fn snapped(x: int, size: int) -> int {
    if x >= 0 {
        ((2 * x + size) / (2 * size)) * size
    } else {
        -(((-2 * x + size) / (2 * size)) * size)
    }
}

/// A snapped coordinate is a multiple of the size, at most half a size away.
pub proof fn lemma_snapped(x: int, size: int)
    requires
        0 < size,
    ensures
        snapped(x, size) % size == 0,
        -size <= 2 * (snapped(x, size) - x) <= size,
{
    let m = if x >= 0 {
        x
    } else {
        -x
    };
    let q = (2 * m + size) / (2 * size);
    vstd::arithmetic::div_mod::lemma_fundamental_div_mod(2 * m + size, 2 * size);
    let r = (2 * m + size) % (2 * size);
    assert(0 <= r < 2 * size);
    assert((2 * size) * q == 2 * (q * size)) by (nonlinear_arith);
    assert(2 * (q * size - m) == size - r);
    vstd::arithmetic::div_mod::lemma_mod_multiples_basic(q, size);
    vstd::arithmetic::div_mod::lemma_mod_multiples_basic(-q, size);
    assert(-(q * size) == (-q) * size) by (nonlinear_arith);
    if x < 0 {
        assert(-2 * x == 2 * m);
    }
}

/// What a click in the level editor does.
#[derive(Clone, Copy, Debug, PartialEq, Eq, Structural)]
pub enum TileEdit {
    /// The tile at this index gets this tag.
    Retag(usize, Tile),
    /// The tile at this index is taken away.
    Remove(usize),
    /// A tile is put here.
    Insert(Vec2i),
}

/// Whether the point lies in the box, its border included.
pub open spec fn holds_point(b: Aabb, p: Vec2i) -> bool {
    &&& b@.min_x() <= p.x <= b@.max_x()
    &&& b@.min_y() <= p.y <= b@.max_y()
}

/// Index of the first of the first `i` tiles whose box holds the point.
pub open spec fn tile_under(tiles: Seq<(Aabb, Tile)>, p: Vec2i, i: int) -> Option<int>
    decreases i,
{
    if i <= 0 {
        None
    } else {
        match tile_under(tiles, p, i - 1) {
            Some(k) => Some(k),
            None => if holds_point(tiles[i - 1].0, p) {
                Some(i - 1)
            } else {
                None
            },
        }
    }
}

/// The edit for a click at `cursor`.
///
/// The first tile under the cursor gets the next of `kinds` tags, and is
/// taken away where that is tag zero. With no tile under the cursor a tile
/// goes in at the nearest grid point.
pub open spec fn edited(cursor: Vec2i, tiles: Seq<(Aabb, Tile)>, kinds: u8, size: int) -> TileEdit {
    match tile_under(tiles, cursor, tiles.len() as int) {
        Some(k) => {
            let next = (tiles[k].1.0 + 1) % (kinds as int);
            if next == 0 {
                TileEdit::Remove(k as usize)
            } else {
                TileEdit::Retag(k as usize, Tile(next as u8))
            }
        },
        None => TileEdit::Insert(
            Vec2i { x: snapped(cursor.x as int, size) as i64, y: snapped(cursor.y as int, size) as i64 },
        ),
    }
}

/// The multiple of `size` nearest to `x`.
fn snap(x: i64, size: i64) -> (r: i64)
    requires
        -PLACE_MAX <= x <= PLACE_MAX,
        0 < size <= TILE_SIZE_MAX,
    ensures
        r == snapped(x as int, size as int),
        -2 * PLACE_MAX <= r <= 2 * PLACE_MAX,
{
    let m: i64 = if x >= 0 {
        x
    } else {
        -x
    };
    proof {
        lemma_snapped(x as int, size as int);
        if x < 0 {
            assert(-2 * (x as int) + size == 2 * m + size);
        }
        vstd::arithmetic::div_mod::lemma_div_pos_is_pos(2 * m + size, 2 * size);
    }
    let q: i64 = (2 * m + size) / (2 * size);
    assert(-2 * PLACE_MAX <= q * size <= 2 * PLACE_MAX) by {
        if x >= 0 {
            assert(q * size == snapped(x as int, size as int));
        } else {
            assert(q * size == -snapped(x as int, size as int));
        }
    }
    if x >= 0 {
        q * size
    } else {
        -(q * size)
    }
}

/// Decides what a click at `cursor` does to the level's tiles.
#[verifier::rlimit(50)]
pub fn debug_check_mouse(cursor: Vec2i, tiles: &Vec<(Aabb, Tile)>, kinds: u8, tile_sz: i64) -> (r:
    TileEdit)
    requires
        0 < kinds,
        0 < tile_sz <= TILE_SIZE_MAX,
        -PLACE_MAX <= cursor.x <= PLACE_MAX,
        -PLACE_MAX <= cursor.y <= PLACE_MAX,
        forall|i: int| 0 <= i < tiles@.len() ==> (#[trigger] tiles@[i]).0.wf(),
    ensures
        r == edited(cursor, tiles@, kinds, tile_sz as int),
{
    let mut i: usize = 0;
    while i < tiles.len()
        invariant
            i <= tiles@.len(),
            0 < kinds,
            forall|k: int| 0 <= k < tiles@.len() ==> (#[trigger] tiles@[k]).0.wf(),
            tile_under(tiles@, cursor, i as int) is None,
        decreases tiles@.len() - i,
    {
        let (b, tile) = tiles[i];
        assert(tiles@[i as int].0.wf());
        if b.center.x - b.half.x <= cursor.x && cursor.x <= b.center.x + b.half.x && b.center.y
            - b.half.y <= cursor.y && cursor.y <= b.center.y + b.half.y {
            proof {
                lemma_tile_under_stays(tiles@, cursor, i as int + 1, tiles@.len() as int);
            }
            let next: u16 = (tile.0 as u16 + 1) % (kinds as u16);
            if next == 0 {
                return TileEdit::Remove(i);
            } else {
                return TileEdit::Retag(i, Tile(next as u8));
            }
        }
        i += 1;
    }
    TileEdit::Insert(Vec2i { x: snap(cursor.x, tile_sz), y: snap(cursor.y, tile_sz) })
}

/// Once a tile under the point is found, later tiles do not change it.
proof fn lemma_tile_under_stays(tiles: Seq<(Aabb, Tile)>, p: Vec2i, i: int, j: int)
    requires
        0 <= i <= j,
        tile_under(tiles, p, i) is Some,
    ensures
        tile_under(tiles, p, j) == tile_under(tiles, p, i),
    decreases j,
{
    if i < j {
        lemma_tile_under_stays(tiles, p, i, j - 1);
    }
}

} // verus!
