//! Building static terrain from an authored tile map: one collider per
//! placed tile, and a composite raster of the placed tiles.
use vstd::prelude::*;
use vstd::arithmetic::div_mod::{lemma_fundamental_div_mod, lemma_fundamental_div_mod_converse};
use vstd::utf8::encode_utf8;
use crate::collider::{BoxCollider, Vec2};
use crate::tile_id::{decimal_u32, parse_tile_id};
use crate::tiles::lemma_flat_index;
use crate::{fits_i64, UNIT};

verus! {

/// One authored tile: a tileset index written in decimal, and its cell.
pub struct PlacedTile {
    pub id: String,
    pub x: u32,
    pub y: u32,
}

/// A named list of placed tiles.
pub struct Layer {
    /// Whether the author marked this layer as a collision layer.
    pub collider: bool,
    pub name: String,
    pub tiles: Vec<PlacedTile>,
}

/// An authored tile map: grid extents in cells, the cell size in pixels,
/// and its layers in declaration order.
pub struct Tilemap {
    pub map_width: u32,
    pub map_height: u32,
    pub tile_size: u32,
    pub layers: Vec<Layer>,
}

/// An RGBA image, row by row: pixel `(x, y)` is `pixels[y * width + x]`.
pub struct Raster {
    pub width: u32,
    pub height: u32,
    pub pixels: Vec<[u8; 4]>,
}

/// How a tile's pixels are copied into the composite.
#[derive(Clone, Copy, Debug, PartialEq, Eq, Structural)]
pub enum BlitMode {
    /// Only fully opaque source pixels are copied.
    OpaqueOnly,
    /// Every source pixel is copied.
    Overwrite,
}

/// Choices left open by the authored format.
#[derive(Clone, Copy, Debug, PartialEq, Eq, Structural)]
pub struct TerrainOptions {
    pub blit: BlitMode,
    /// Make colliders only for tiles of layers marked as collision layers.
    pub flagged_layers_only: bool,
}

/// Why a tile map cannot be built.
#[derive(Clone, Copy, Debug, PartialEq, Eq, Structural)]
pub enum TerrainError {
    /// The cell size is zero.
    ZeroTileSize,
    /// The target width is too small to give a tile a positive size.
    ScaleTooSmall,
    /// The composite raster would not fit in memory.
    ImageTooLarge,
    /// A tile identifier is not a decimal `u32`.
    BadTileId,
    /// A tile lies outside the map grid.
    TileOutsideMap,
    /// A tile's source block lies outside the tileset.
    TileOutsideTileset,
    /// A tile's world position does not fit in an `i64`.
    CoordinateOverflow,
}

/// The static terrain of a level.
pub struct TilesetManager {
    /// One box per placed tile, in placement order.
    pub colliders: Vec<BoxCollider>,
    /// The composite raster of all placed tiles.
    pub image: Raster,
}

impl Raster {
    /// The pixel vector holds exactly `width * height` pixels.
    pub open spec fn wf(self) -> bool {
        self.pixels@.len() == self.width * self.height
    }
}

/// The tileset index of a tile.
pub open spec fn tile_id_of(t: PlacedTile) -> Option<u32> {
    decimal_u32(encode_utf8(t.id@))
}

/// Number of tile columns in the tileset.
pub open spec fn columns(map: Tilemap, tileset: Raster) -> int {
    tileset.width as int / map.tile_size as int
}

/// Source block of tile index `id`, in tile units: `(id % columns, id / columns)`.
pub open spec fn source_col(map: Tilemap, tileset: Raster, id: int) -> int {
    id % columns(map, tileset)
}

pub open spec fn source_row(map: Tilemap, tileset: Raster, id: int) -> int {
    id / columns(map, tileset)
}

/// The source block of tile index `id` lies inside the tileset.
pub open spec fn in_tileset(map: Tilemap, tileset: Raster, id: int) -> bool {
    &&& columns(map, tileset) > 0
    &&& (source_col(map, tileset, id) + 1) * map.tile_size <= tileset.width
    &&& (source_row(map, tileset, id) + 1) * map.tile_size <= tileset.height
}

/// Side of a tile's collider: the map spans `target` world units.
pub open spec fn tile_span(map: Tilemap, target: u32) -> int {
    target * UNIT / map.map_width as int
}

/// World position of the center of cell `i` of a row of `cells` cells,
/// with the map centered on the origin and the axis flipped:
/// `-(i * span - cells * span / 2) - span / 2`, rounded down.
pub open spec fn tile_center(map: Tilemap, target: u32, cells: int, i: int) -> int {
    (target * UNIT * (cells - 2 * i - 1)) / (2 * map.map_width)
}

/// The collider of a placed tile.
pub open spec fn collider_of(map: Tilemap, target: u32, t: PlacedTile) -> BoxCollider {
    BoxCollider {
        pos: Vec2 {
            x: tile_center(map, target, map.map_width as int, t.x as int) as i64,
            y: tile_center(map, target, map.map_height as int, t.y as int) as i64,
        },
        size: Vec2 { x: tile_span(map, target) as i64, y: tile_span(map, target) as i64 },
    }
}

/// A tile has a readable index, lies inside the map, and takes its block
/// from inside the tileset.
pub open spec fn tile_placeable(map: Tilemap, tileset: Raster, t: PlacedTile) -> bool {
    &&& tile_id_of(t) is Some
    &&& t.x < map.map_width
    &&& t.y < map.map_height
    &&& in_tileset(map, tileset, tile_id_of(t).unwrap() as int)
}

/// What is wrong with one placed tile, if anything.
pub open spec fn tile_error(map: Tilemap, tileset: Raster, target: u32, t: PlacedTile) -> Option<
    TerrainError,
> {
    match tile_id_of(t) {
        None => Some(TerrainError::BadTileId),
        Some(id) => if t.x >= map.map_width || t.y >= map.map_height {
            Some(TerrainError::TileOutsideMap)
        } else if !in_tileset(map, tileset, id as int) {
            Some(TerrainError::TileOutsideTileset)
        } else if !fits_i64(tile_center(map, target, map.map_width as int, t.x as int))
            || !fits_i64(tile_center(map, target, map.map_height as int, t.y as int)) {
            Some(TerrainError::CoordinateOverflow)
        } else {
            None
        },
    }
}

/// The error of the first faulty tile of `ts`.
pub open spec fn tiles_error(map: Tilemap, tileset: Raster, target: u32, ts: Seq<PlacedTile>) -> Option<
    TerrainError,
>
    decreases ts.len(),
{
    if ts.len() == 0 {
        None
    } else {
        match tiles_error(map, tileset, target, ts.drop_last()) {
            Some(e) => Some(e),
            None => tile_error(map, tileset, target, ts.last()),
        }
    }
}

/// The error of the first faulty tile of the first layer of `ls` that has one.
pub open spec fn layers_error(map: Tilemap, tileset: Raster, target: u32, ls: Seq<Layer>) -> Option<
    TerrainError,
>
    decreases ls.len(),
{
    if ls.len() == 0 {
        None
    } else {
        match layers_error(map, tileset, target, ls.drop_last()) {
            Some(e) => Some(e),
            None => tiles_error(map, tileset, target, ls.last().tiles@),
        }
    }
}

/// Width of the composite raster in pixels.
pub open spec fn image_width(map: Tilemap) -> int {
    map.map_width * map.tile_size
}

/// Height of the composite raster in pixels.
pub open spec fn image_height(map: Tilemap) -> int {
    map.map_height * map.tile_size
}

/// The first error that building `map` against `tileset` at world width
/// `target` meets: checks on the whole map, then each tile in declaration
/// order.
pub open spec fn map_error(map: Tilemap, tileset: Raster, target: u32) -> Option<TerrainError> {
    if map.tile_size == 0 {
        Some(TerrainError::ZeroTileSize)
    } else if target * UNIT < map.map_width {
        Some(TerrainError::ScaleTooSmall)
    } else if image_width(map) > u32::MAX || image_height(map) > u32::MAX || image_width(map)
        * image_height(map) > usize::MAX {
        Some(TerrainError::ImageTooLarge)
    } else {
        layers_error(map, tileset, target, map.layers@)
    }
}

/// Pixel `k` of `img` (rows of `w` pixels) after copying the `ts`-square
/// block at `(sx0, sy0)` of `src` (rows of `sw` pixels) to `(dx0, dy0)`.
pub open spec fn blit_pixel(
    img: Seq<[u8; 4]>,
    w: int,
    src: Seq<[u8; 4]>,
    sw: int,
    ts: int,
    dx0: int,
    dy0: int,
    sx0: int,
    sy0: int,
    mode: BlitMode,
    k: int,
) -> [u8; 4] {
    let px = k % w;
    let py = k / w;
    if dx0 <= px < dx0 + ts && dy0 <= py < dy0 + ts {
        let s = src[(sy0 + py - dy0) * sw + sx0 + px - dx0];
        if mode == BlitMode::Overwrite || s[3] == 255 {
            s
        } else {
            img[k]
        }
    } else {
        img[k]
    }
}

/// `img` after copying one block of `src` into it.
pub open spec fn blit(
    img: Seq<[u8; 4]>,
    w: int,
    src: Seq<[u8; 4]>,
    sw: int,
    ts: int,
    dx0: int,
    dy0: int,
    sx0: int,
    sy0: int,
    mode: BlitMode,
) -> Seq<[u8; 4]> {
    Seq::new(img.len(), |k: int| blit_pixel(img, w, src, sw, ts, dx0, dy0, sx0, sy0, mode, k))
}

/// `img` after drawing tile `t` into it.
pub open spec fn paint_tile(
    map: Tilemap,
    tileset: Raster,
    mode: BlitMode,
    img: Seq<[u8; 4]>,
    t: PlacedTile,
) -> Seq<[u8; 4]> {
    let ts = map.tile_size as int;
    let id = tile_id_of(t).unwrap() as int;
    blit(
        img,
        image_width(map),
        tileset.pixels@,
        tileset.width as int,
        ts,
        t.x * ts,
        t.y * ts,
        source_col(map, tileset, id) * ts,
        source_row(map, tileset, id) * ts,
        mode,
    )
}

/// `img` after drawing the tiles of `ts` in order.
pub open spec fn paint_tiles(
    map: Tilemap,
    tileset: Raster,
    mode: BlitMode,
    img: Seq<[u8; 4]>,
    ts: Seq<PlacedTile>,
) -> Seq<[u8; 4]>
    decreases ts.len(),
{
    if ts.len() == 0 {
        img
    } else {
        paint_tile(map, tileset, mode, paint_tiles(map, tileset, mode, img, ts.drop_last()), ts.last())
    }
}

/// `img` after drawing layers `k..` of the map, the last layer first, so
/// that earlier layers end up on top.
pub open spec fn paint_layers_from(
    map: Tilemap,
    tileset: Raster,
    mode: BlitMode,
    img: Seq<[u8; 4]>,
    k: int,
) -> Seq<[u8; 4]>
    decreases map.layers@.len() - k,
{
    if k < 0 || k >= map.layers@.len() {
        img
    } else {
        paint_tiles(
            map,
            tileset,
            mode,
            paint_layers_from(map, tileset, mode, img, k + 1),
            map.layers@[k].tiles@,
        )
    }
}

/// A fully transparent raster of `n` pixels.
pub open spec fn blank(n: int) -> Seq<[u8; 4]> {
    Seq::new(n as nat, |k: int| [0u8, 0u8, 0u8, 0u8])
}

/// The composite raster of the whole map.
pub open spec fn composite(map: Tilemap, tileset: Raster, mode: BlitMode) -> Seq<[u8; 4]> {
    paint_layers_from(map, tileset, mode, blank(image_width(map) * image_height(map)), 0)
}

/// The colliders made for layer `l`.
pub open spec fn layer_colliders(map: Tilemap, target: u32, options: TerrainOptions, l: Layer) -> Seq<
    BoxCollider,
> {
    if options.flagged_layers_only && !l.collider {
        Seq::empty()
    } else {
        l.tiles@.map_values(|t: PlacedTile| collider_of(map, target, t))
    }
}

/// The colliders of layers `k..`, the last layer first.
pub open spec fn colliders_from(map: Tilemap, target: u32, options: TerrainOptions, k: int) -> Seq<
    BoxCollider,
>
    decreases map.layers@.len() - k,
{
    if k < 0 || k >= map.layers@.len() {
        Seq::empty()
    } else {
        colliders_from(map, target, options, k + 1) + layer_colliders(
            map,
            target,
            options,
            map.layers@[k],
        )
    }
}

proof fn lemma_mul_le(a: int, b: int, c: int, d: int)
    requires
        0 <= a <= c,
        0 <= b <= d,
    ensures
        0 <= a * b <= c * d,
{
    assert(0 <= a * b <= c * d) by (nonlinear_arith)
        requires
            0 <= a <= c,
            0 <= b <= d,
    ;
}

proof fn lemma_tiles_error_prefix(map: Tilemap, tileset: Raster, target: u32, ts: Seq<PlacedTile>, j: int)
    requires
        0 <= j <= ts.len(),
        tiles_error(map, tileset, target, ts.take(j)) is Some,
    ensures
        tiles_error(map, tileset, target, ts) == tiles_error(map, tileset, target, ts.take(j)),
    decreases ts.len() - j,
{
    if j < ts.len() {
        assert(ts.take(j + 1).drop_last() =~= ts.take(j));
        lemma_tiles_error_prefix(map, tileset, target, ts, j + 1);
    } else {
        assert(ts.take(j) =~= ts);
    }
}

proof fn lemma_layers_error_prefix(map: Tilemap, tileset: Raster, target: u32, ls: Seq<Layer>, j: int)
    requires
        0 <= j <= ls.len(),
        layers_error(map, tileset, target, ls.take(j)) is Some,
    ensures
        layers_error(map, tileset, target, ls) == layers_error(map, tileset, target, ls.take(j)),
    decreases ls.len() - j,
{
    if j < ls.len() {
        assert(ls.take(j + 1).drop_last() =~= ls.take(j));
        lemma_layers_error_prefix(map, tileset, target, ls, j + 1);
    } else {
        assert(ls.take(j) =~= ls);
    }
}

proof fn lemma_tiles_all_valid(map: Tilemap, tileset: Raster, target: u32, ts: Seq<PlacedTile>)
    requires
        tiles_error(map, tileset, target, ts) is None,
    ensures
        forall|j: int| 0 <= j < ts.len() ==> #[trigger] tile_error(map, tileset, target, ts[j]) is None,
    decreases ts.len(),
{
    if ts.len() > 0 {
        lemma_tiles_all_valid(map, tileset, target, ts.drop_last());
        assert forall|j: int| 0 <= j < ts.len() implies #[trigger] tile_error(map, tileset, target, ts[j]) is None by {
            if j < ts.len() - 1 {
                assert(ts.drop_last()[j] == ts[j]);
            }
        }
    }
}

proof fn lemma_layers_all_valid(map: Tilemap, tileset: Raster, target: u32, ls: Seq<Layer>)
    requires
        layers_error(map, tileset, target, ls) is None,
    ensures
        forall|k: int| 0 <= k < ls.len() ==> #[trigger] tiles_error(map, tileset, target, ls[k].tiles@) is None,
    decreases ls.len(),
{
    if ls.len() > 0 {
        lemma_layers_all_valid(map, tileset, target, ls.drop_last());
        assert forall|k: int| 0 <= k < ls.len() implies #[trigger] tiles_error(map, tileset, target, ls[k].tiles@) is None by {
            if k < ls.len() - 1 {
                assert(ls.drop_last()[k] == ls[k]);
            }
        }
    }
}

/// `num / den`, rounded down.
fn floor_div(num: i128, den: i128) -> (r: i128)
    requires
        den > 0,
        -0x1_0000_0000_0000_0000_0000_0000i128 <= num <= 0x1_0000_0000_0000_0000_0000_0000i128,
        den <= 0x1_0000_0000_0000_0000i128,
    ensures
        r == num / den,
{
    if num >= 0 {
        let q = (num as u128) / (den as u128);
        q as i128
    } else {
        let m: u128 = (-num) as u128;
        let d: u128 = den as u128;
        let q: u128 = (m + d - 1) / d;
        proof {
            let x = (m + d - 1) as int;
            lemma_fundamental_div_mod(x, d as int);
            let rem = x % (d as int);
            assert(q as int == x / (d as int));
            assert(num as int == (-(q as int)) * (d as int) + (d - 1 - rem)) by (nonlinear_arith)
                requires
                    x == (d as int) * (q as int) + rem,
                    x == m + d - 1,
                    m == -num,
            ;
            lemma_fundamental_div_mod_converse(num as int, d as int, -(q as int), d - 1 - rem);
        }
        -(q as i128)
    }
}

/// `tile_center` on machine integers.
fn tile_center_exec(map: &Tilemap, target: u32, cells: u32, i: u32) -> (r: i128)
    requires
        map.map_width > 0,
    ensures
        r == tile_center(*map, target, cells as int, i as int),
{
    let a: i128 = (target as i128) * (UNIT as i128);
    let k: i128 = (cells as i128) - 2 * (i as i128) - 1;
    proof {
        let bound = 0x1_0000_0000_0000i128;
        assert(-0x2_0000_0000i128 <= k <= 0x2_0000_0000i128);
        assert(0 <= a <= 0x10_0000_0000_0000i128);
        assert(-0x20_0000_0000_0000_0000_0000i128 <= a * k <= 0x20_0000_0000_0000_0000_0000i128) by (nonlinear_arith)
            requires
                -0x2_0000_0000i128 <= k <= 0x2_0000_0000i128,
                0 <= a <= 0x10_0000_0000_0000i128,
        ;
    }
    floor_div(a * k, 2 * (map.map_width as i128))
}

/// The first error among one tile's checks, if any.
fn check_tile(map: &Tilemap, tileset: &Raster, target: u32, t: &PlacedTile) -> (r: Option<TerrainError>)
    requires
        map.tile_size > 0,
    ensures
        r == tile_error(*map, *tileset, target, *t),
{
    let id = match parse_tile_id(t.id.as_str()) {
        None => {
            return Some(TerrainError::BadTileId);
        },
        Some(id) => id,
    };
    if t.x >= map.map_width || t.y >= map.map_height {
        return Some(TerrainError::TileOutsideMap);
    }
    let ts = map.tile_size;
    let cols = tileset.width / ts;
    if cols == 0 {
        return Some(TerrainError::TileOutsideTileset);
    }
    let col = (id % cols) as u64;
    let row = (id / cols) as u64;
    proof {
        lemma_mul_le(col + 1, ts as int, 0x1_0000_0000, 0xffff_ffff);
        lemma_mul_le(row + 1, ts as int, 0x1_0000_0000, 0xffff_ffff);
    }
    if (col + 1) * (ts as u64) > tileset.width as u64 || (row + 1) * (ts as u64) > tileset.height as u64 {
        return Some(TerrainError::TileOutsideTileset);
    }
    let cx = tile_center_exec(map, target, map.map_width, t.x);
    let cy = tile_center_exec(map, target, map.map_height, t.y);
    if cx < i64::MIN as i128 || cx > i64::MAX as i128 || cy < i64::MIN as i128 || cy > i64::MAX as i128 {
        return Some(TerrainError::CoordinateOverflow);
    }
    None
}

fn check_tiles(map: &Tilemap, tileset: &Raster, target: u32, tiles: &Vec<PlacedTile>) -> (r: Option<TerrainError>)
    requires
        map.tile_size > 0,
    ensures
        r == tiles_error(*map, *tileset, target, tiles@),
{
    let mut j: usize = 0;
    while j < tiles.len()
        invariant
            map.tile_size > 0,
            j <= tiles.len(),
            tiles_error(*map, *tileset, target, tiles@.take(j as int)) is None,
        decreases tiles.len() - j,
    {
        assert(tiles@.take(j + 1).drop_last() =~= tiles@.take(j as int));
        let e = check_tile(map, tileset, target, &tiles[j]);
        if e.is_some() {
            proof {
                lemma_tiles_error_prefix(*map, *tileset, target, tiles@, j + 1);
            }
            return e;
        }
        j = j + 1;
    }
    assert(tiles@.take(j as int) =~= tiles@);
    None
}

/// The first error that building `map` meets, if any.
pub fn check_map(map: &Tilemap, tileset: &Raster, target: u32) -> (r: Option<TerrainError>)
    ensures
        r == map_error(*map, *tileset, target),
{
    let ts = map.tile_size;
    if ts == 0 {
        return Some(TerrainError::ZeroTileSize);
    }
    if (target as u64) * (UNIT as u64) < map.map_width as u64 {
        return Some(TerrainError::ScaleTooSmall);
    }
    proof {
        lemma_mul_le(map.map_width as int, ts as int, 0xffff_ffff, 0xffff_ffff);
        lemma_mul_le(map.map_height as int, ts as int, 0xffff_ffff, 0xffff_ffff);
    }
    let w: u64 = (map.map_width as u64) * (ts as u64);
    let h: u64 = (map.map_height as u64) * (ts as u64);
    if w > u32::MAX as u64 || h > u32::MAX as u64 {
        return Some(TerrainError::ImageTooLarge);
    }
    proof {
        lemma_mul_le(w as int, h as int, 0xffff_ffff, 0xffff_ffff);
    }
    if (w as u128) * (h as u128) > usize::MAX as u128 {
        return Some(TerrainError::ImageTooLarge);
    }
    assert(map_error(*map, *tileset, target) == layers_error(*map, *tileset, target, map.layers@));
    let mut k: usize = 0;
    while k < map.layers.len()
        invariant
            map.tile_size > 0,
            map_error(*map, *tileset, target) == layers_error(*map, *tileset, target, map.layers@),
            k <= map.layers.len(),
            layers_error(*map, *tileset, target, map.layers@.take(k as int)) is None,
        decreases map.layers.len() - k,
    {
        assert(map.layers@.take(k + 1).drop_last() =~= map.layers@.take(k as int));
        let e = check_tiles(map, tileset, target, &map.layers[k].tiles);
        if e.is_some() {
            proof {
                lemma_layers_error_prefix(*map, *tileset, target, map.layers@, k + 1);
            }
            return e;
        }
        k = k + 1;
    }
    assert(map.layers@.take(k as int) =~= map.layers@);
    None
}

/// Pixel `k` has been visited by a column-major walk of the block that
/// stands at column `x`, row `y`.
spec fn blit_done(k: int, w: int, dx0: int, dy0: int, x: int, y: int) -> bool {
    let rx = k % w - dx0;
    let ry = k / w - dy0;
    rx < x || (rx == x && ry < y)
}

/// Copies the `ts`-square block at `(sx0, sy0)` of `src` to `(dx0, dy0)`
/// of `pixels`.
fn blit_block(
    pixels: &mut Vec<[u8; 4]>,
    w: usize,
    h: usize,
    src: &Vec<[u8; 4]>,
    sw: usize,
    sh: usize,
    ts: usize,
    dx0: usize,
    dy0: usize,
    sx0: usize,
    sy0: usize,
    mode: BlitMode,
)
    requires
        old(pixels)@.len() == w * h,
        w * h <= usize::MAX,
        sw * sh <= usize::MAX,
        src@.len() == sw * sh,
        dx0 + ts <= w,
        dy0 + ts <= h,
        sx0 + ts <= sw,
        sy0 + ts <= sh,
    ensures
        final(pixels)@ == blit(
            old(pixels)@,
            w as int,
            src@,
            sw as int,
            ts as int,
            dx0 as int,
            dy0 as int,
            sx0 as int,
            sy0 as int,
            mode,
        ),
{
    let ghost orig = pixels@;
    let ghost wi = w as int;
    let mut x: usize = 0;
    while x < ts
        invariant
            x <= ts,
            pixels@.len() == orig.len(),
            orig.len() == w * h,
            w * h <= usize::MAX,
            sw * sh <= usize::MAX,
            wi == w as int,
            src@.len() == sw * sh,
            dx0 + ts <= w,
            dy0 + ts <= h,
            sx0 + ts <= sw,
            sy0 + ts <= sh,
            forall|k: int|
                0 <= k < orig.len() ==> #[trigger] pixels@[k] == (if blit_done(k, wi, dx0 as int, dy0 as int, x as int, 0) {
                    blit_pixel(orig, wi, src@, sw as int, ts as int, dx0 as int, dy0 as int, sx0 as int, sy0 as int, mode, k)
                } else {
                    orig[k]
                }),
        decreases ts - x,
    {
        let mut y: usize = 0;
        while y < ts
            invariant
                x < ts,
                y <= ts,
                pixels@.len() == orig.len(),
                orig.len() == w * h,
                w * h <= usize::MAX,
                sw * sh <= usize::MAX,
                wi == w as int,
            w * h <= usize::MAX,
            sw * sh <= usize::MAX,
            wi == w as int,
                src@.len() == sw * sh,
                dx0 + ts <= w,
                dy0 + ts <= h,
                sx0 + ts <= sw,
                sy0 + ts <= sh,
                forall|k: int|
                    0 <= k < orig.len() ==> #[trigger] pixels@[k] == (if blit_done(k, wi, dx0 as int, dy0 as int, x as int, y as int) {
                        blit_pixel(orig, wi, src@, sw as int, ts as int, dx0 as int, dy0 as int, sx0 as int, sy0 as int, mode, k)
                    } else {
                        orig[k]
                    }),
            decreases ts - y,
        {
            proof {
                lemma_flat_index((dy0 + y) as int, (dx0 + x) as int, h as int, w as int);
                lemma_flat_index((sy0 + y) as int, (sx0 + x) as int, sh as int, sw as int);
                assert((h as int) * (w as int) == (w as int) * (h as int)) by (nonlinear_arith);
                assert((sh as int) * (sw as int) == (sw as int) * (sh as int)) by (nonlinear_arith);
            }
            let k0: usize = (dy0 + y) * w + (dx0 + x);
            let si: usize = (sy0 + y) * sw + (sx0 + x);
            let s = src[si];
            let ghost before = pixels@;
            proof {
                lemma_fundamental_div_mod_converse(k0 as int, wi, (dy0 + y) as int, (dx0 + x) as int);
            }
            if mode == BlitMode::Overwrite || s[3] == 255u8 {
                pixels.set(k0, s);
            }
            proof {
                assert forall|k: int|
                    0 <= k < orig.len() implies #[trigger] pixels@[k] == (if blit_done(k, wi, dx0 as int, dy0 as int, x as int, y + 1) {
                        blit_pixel(orig, wi, src@, sw as int, ts as int, dx0 as int, dy0 as int, sx0 as int, sy0 as int, mode, k)
                    } else {
                        orig[k]
                    }) by {
                    let bd = blit_done(k, wi, dx0 as int, dy0 as int, x as int, y as int);
                    let bp = blit_pixel(orig, wi, src@, sw as int, ts as int, dx0 as int, dy0 as int, sx0 as int, sy0 as int, mode, k);
                    assert(before[k] == (if bd { bp } else { orig[k] }));
                    if k == k0 {
                        assert(!bd);
                        assert(src@[si as int] == s);
                    } else {
                        lemma_fundamental_div_mod(k, wi);
                        if k % wi == dx0 + x && k / wi == dy0 + y {
                            assert(k == wi * (dy0 + y) + (dx0 + x));
                            assert(k0 == (dy0 + y) * wi + (dx0 + x));
                            assert(wi * (dy0 + y) == (dy0 + y) * wi) by (nonlinear_arith);
                        }
                        assert(before[k] == pixels@[k]);
                    }
                }
            }
            y = y + 1;
        }
        proof {
            assert forall|k: int|
                0 <= k < orig.len() implies #[trigger] pixels@[k] == (if blit_done(k, wi, dx0 as int, dy0 as int, x + 1, 0) {
                    blit_pixel(orig, wi, src@, sw as int, ts as int, dx0 as int, dy0 as int, sx0 as int, sy0 as int, mode, k)
                } else {
                    orig[k]
                }) by {
                assert(blit_done(k, wi, dx0 as int, dy0 as int, x as int, ts as int) == blit_done(k, wi, dx0 as int, dy0 as int, x as int, y as int));
            }
        }
        x = x + 1;
    }
    assert(pixels@ =~= blit(orig, wi, src@, sw as int, ts as int, dx0 as int, dy0 as int, sx0 as int, sy0 as int, mode));
}

/// Draws tile `t` into the composite `pixels`.
fn paint_tile_exec(
    pixels: &mut Vec<[u8; 4]>,
    map: &Tilemap,
    tileset: &Raster,
    mode: BlitMode,
    t: &PlacedTile,
    w: usize,
    h: usize,
)
    requires
        tileset.wf(),
        map.tile_size > 0,
        w == image_width(*map),
        h == image_height(*map),
        w * h <= usize::MAX,
        old(pixels)@.len() == w * h,
        tile_placeable(*map, *tileset, *t),
    ensures
        final(pixels)@ == paint_tile(*map, *tileset, mode, old(pixels)@, *t),
{
    let id = parse_tile_id(t.id.as_str()).unwrap();
    let ts = map.tile_size;
    let cols = tileset.width / ts;
    let col = id % cols;
    let row = id / cols;
    let tsu = ts as usize;
    proof {
        lemma_mul_le(t.x + 1, ts as int, map.map_width as int, ts as int);
        lemma_mul_le(t.y + 1, ts as int, map.map_height as int, ts as int);
        lemma_mul_le(tileset.width as int, tileset.height as int, 0xffff_ffff, 0xffff_ffff);
        lemma_mul_le(col as int, ts as int, 0xffff_ffff, 0xffff_ffff);
        lemma_mul_le(row as int, ts as int, 0xffff_ffff, 0xffff_ffff);
        assert(t.x * ts + ts == (t.x + 1) * ts) by (nonlinear_arith);
        assert(t.y * ts + ts == (t.y + 1) * ts) by (nonlinear_arith);
        assert(col == source_col(*map, *tileset, id as int));
        assert(row == source_row(*map, *tileset, id as int));
        assert(col * ts + ts == (col + 1) * ts) by (nonlinear_arith);
        assert(row * ts + ts == (row + 1) * ts) by (nonlinear_arith);
    }
    let dx0 = (t.x as usize) * tsu;
    let dy0 = (t.y as usize) * tsu;
    let sx0 = (col as usize) * tsu;
    let sy0 = (row as usize) * tsu;
    let src_len = tileset.pixels.len();
    assert(tileset.width * tileset.height == src_len);
    blit_block(
        pixels,
        w,
        h,
        &tileset.pixels,
        tileset.width as usize,
        tileset.height as usize,
        tsu,
        dx0,
        dy0,
        sx0,
        sy0,
        mode,
    );
}

proof fn lemma_span_positive(map: Tilemap, target: u32)
    requires
        map.map_width > 0,
        target * UNIT >= map.map_width,
    ensures
        1 <= tile_span(map, target) <= target * UNIT,
{
    let a = target * UNIT;
    let d = map.map_width as int;
    lemma_fundamental_div_mod(a, d);
    assert(1 <= a / d <= a) by (nonlinear_arith)
        requires
            a == d * (a / d) + a % d,
            0 <= a % d < d,
            a >= d,
            d > 0,
    ;
}

/// The collider of a tile that passed validation.
fn collider_exec(map: &Tilemap, target: u32, t: &PlacedTile) -> (r: BoxCollider)
    requires
        t.x < map.map_width,
        target * UNIT >= map.map_width,
        fits_i64(tile_center(*map, target, map.map_width as int, t.x as int)),
        fits_i64(tile_center(*map, target, map.map_height as int, t.y as int)),
    ensures
        r == collider_of(*map, target, *t),
        r.wf(),
{
    proof {
        lemma_span_positive(*map, target);
    }
    let cx = tile_center_exec(map, target, map.map_width, t.x) as i64;
    let cy = tile_center_exec(map, target, map.map_height, t.y) as i64;
    let span = ((target as u64) * (UNIT as u64) / (map.map_width as u64)) as i64;
    BoxCollider::new(Vec2::new(cx, cy), Vec2::new(span, span))
}

impl TilesetManager {
    /// The terrain that building `map` against `tileset` at world width
    /// `target` produces.
    pub open spec fn built_from(
        self,
        map: Tilemap,
        tileset: Raster,
        target: u32,
        options: TerrainOptions,
    ) -> bool {
        &&& self.colliders@ == colliders_from(map, target, options, 0)
        &&& forall|i: int| 0 <= i < self.colliders@.len() ==> (#[trigger] self.colliders@[i]).wf()
        &&& self.image.width == image_width(map)
        &&& self.image.height == image_height(map)
        &&& self.image.wf()
        &&& self.image.pixels@ == composite(map, tileset, options.blit)
    }

    /// Builds the terrain of `map`, scaled so that the map spans
    /// `map_width` world units, with the given options.
    pub fn build(map: &Tilemap, tileset: &Raster, map_width: u32, options: TerrainOptions) -> (r: Result<
        TilesetManager,
        TerrainError,
    >)
        requires
            tileset.wf(),
        ensures
            match map_error(*map, *tileset, map_width) {
                Some(e) => r == Err::<TilesetManager, TerrainError>(e),
                None => r is Ok && r->Ok_0.built_from(*map, *tileset, map_width, options),
            },
    {
        if let Some(e) = check_map(map, tileset, map_width) {
            return Err(e);
        }
        proof {
            lemma_layers_all_valid(*map, *tileset, map_width, map.layers@);
        }
        let ts = map.tile_size as usize;
        let w = (map.map_width as usize) * ts;
        let h = (map.map_height as usize) * ts;
        let n = w * h;
        let mut pixels: Vec<[u8; 4]> = Vec::new();
        while pixels.len() < n
            invariant
                pixels@.len() <= n,
                forall|k: int| 0 <= k < pixels@.len() ==> #[trigger] pixels@[k] == [0u8, 0u8, 0u8, 0u8],
            decreases n - pixels@.len(),
        {
            pixels.push([0u8, 0u8, 0u8, 0u8]);
        }
        let ghost blank_img = blank(n as int);
        assert(pixels@ =~= blank_img);
        let mode = options.blit;
        let mut colliders: Vec<BoxCollider> = Vec::new();
        let mut k: usize = map.layers.len();
        while k > 0
            invariant
                k <= map.layers.len(),
                tileset.wf(),
                map_error(*map, *tileset, map_width) is None,
                forall|kk: int|
                    0 <= kk < map.layers@.len() ==> #[trigger] tiles_error(*map, *tileset, map_width, map.layers@[kk].tiles@) is None,
                w == image_width(*map),
                h == image_height(*map),
                n == w * h,
                pixels@.len() == n,
                mode == options.blit,
                blank_img == blank(image_width(*map) * image_height(*map)),
                pixels@ == paint_layers_from(*map, *tileset, mode, blank_img, k as int),
                colliders@ == colliders_from(*map, map_width, options, k as int),
                forall|i: int| 0 <= i < colliders@.len() ==> (#[trigger] colliders@[i]).wf(),
            decreases k,
        {
            k = k - 1;
            let layer = &map.layers[k];
            let makes_colliders = !options.flagged_layers_only || layer.collider;
            proof {
                lemma_tiles_all_valid(*map, *tileset, map_width, layer.tiles@);
            }
            let ghost base = pixels@;
            let ghost cbase = colliders@;
            let ghost f = |t: PlacedTile| collider_of(*map, map_width, t);
            let mut j: usize = 0;
            while j < layer.tiles.len()
                invariant
                    j <= layer.tiles.len(),
                    k < map.layers@.len(),
                    layer == map.layers@[k as int],
                    pixels@.len() == n,
                    tileset.wf(),
                    map_error(*map, *tileset, map_width) is None,
                    forall|jj: int|
                        0 <= jj < layer.tiles@.len() ==> #[trigger] tile_error(*map, *tileset, map_width, layer.tiles@[jj]) is None,
                    w == image_width(*map),
                    h == image_height(*map),
                    n == w * h,
                    mode == options.blit,
                    makes_colliders == !(options.flagged_layers_only && !layer.collider),
                    f == (|t: PlacedTile| collider_of(*map, map_width, t)),
                    pixels@ == paint_tiles(*map, *tileset, mode, base, layer.tiles@.take(j as int)),
                    colliders@ == cbase + (if makes_colliders {
                        layer.tiles@.take(j as int).map_values(f)
                    } else {
                        Seq::empty()
                    }),
                    forall|i: int| 0 <= i < colliders@.len() ==> (#[trigger] colliders@[i]).wf(),
                decreases layer.tiles.len() - j,
            {
                let t = &layer.tiles[j];
                assert(tile_error(*map, *tileset, map_width, layer.tiles@[j as int]) is None);
                assert(layer.tiles@.take(j + 1).drop_last() =~= layer.tiles@.take(j as int));
                paint_tile_exec(&mut pixels, map, tileset, mode, t, w, h);
                if makes_colliders {
                    let c = collider_exec(map, map_width, t);
                    colliders.push(c);
                    assert(layer.tiles@.take(j + 1).map_values(f) =~= layer.tiles@.take(j as int).map_values(f).push(c));
                }
                j = j + 1;
            }
            assert(layer.tiles@.take(j as int) =~= layer.tiles@);
            assert(colliders@ =~= colliders_from(*map, map_width, options, k as int));
        }
        let image = Raster { width: w as u32, height: h as u32, pixels };
        Ok(TilesetManager { colliders, image })
    }

    /// Builds the terrain of `map` the way the authored levels expect: every
    /// layer gives colliders, and only opaque tile pixels are drawn.
    pub fn new(map: &Tilemap, tileset: &Raster, map_width: u32) -> (r: Result<TilesetManager, TerrainError>)
        requires
            tileset.wf(),
        ensures
            match map_error(*map, *tileset, map_width) {
                Some(e) => r == Err::<TilesetManager, TerrainError>(e),
                None => r is Ok && r->Ok_0.built_from(
                    *map,
                    *tileset,
                    map_width,
                    TerrainOptions { blit: BlitMode::OpaqueOnly, flagged_layers_only: false },
                ),
            },
    {
        Self::build(map, tileset, map_width, TerrainOptions { blit: BlitMode::OpaqueOnly, flagged_layers_only: false })
    }
}

} // verus!
