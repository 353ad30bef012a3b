use platformer::collider::{BoxCollider, Vec2};
use platformer::tile_id::parse_tile_id;
use platformer::tileset::{
    check_map, BlitMode, Layer, PlacedTile, Raster, TerrainError, TerrainOptions, Tilemap,
    TilesetManager,
};

const RED: [u8; 4] = [255, 0, 0, 255];
const GREEN_HALF: [u8; 4] = [0, 255, 0, 128];
const CLEAR: [u8; 4] = [0, 0, 0, 0];

fn tile(id: &str, x: u32, y: u32) -> PlacedTile {
    PlacedTile { id: id.to_string(), x, y }
}

fn layer(collider: bool, tiles: Vec<PlacedTile>) -> Layer {
    Layer { collider, name: "layer".to_string(), tiles }
}

fn map(w: u32, h: u32, ts: u32, layers: Vec<Layer>) -> Tilemap {
    Tilemap { map_width: w, map_height: h, tile_size: ts, layers }
}

fn solid_tileset(w: u32, h: u32) -> Raster {
    Raster { width: w, height: h, pixels: vec![RED; (w * h) as usize] }
}

/// Two one-pixel tiles: 0 is opaque red, 1 is half-transparent green.
fn two_tileset() -> Raster {
    Raster { width: 2, height: 1, pixels: vec![RED, GREEN_HALF] }
}

#[test]
fn parse_tile_ids() {
    assert_eq!(parse_tile_id("0"), Some(0));
    assert_eq!(parse_tile_id("12"), Some(12));
    assert_eq!(parse_tile_id("007"), Some(7));
    assert_eq!(parse_tile_id("+7"), Some(7));
    assert_eq!(parse_tile_id("4294967295"), Some(4294967295));
    assert_eq!(parse_tile_id("4294967296"), None);
    assert_eq!(parse_tile_id("99999999999999999999"), None);
    assert_eq!(parse_tile_id(""), None);
    assert_eq!(parse_tile_id("+"), None);
    assert_eq!(parse_tile_id("-1"), None);
    assert_eq!(parse_tile_id("1a"), None);
    assert_eq!(parse_tile_id(" 1"), None);
    assert_eq!(parse_tile_id("١"), None);
}

#[test]
fn single_tile_collider() {
    // mapWidth 2, mapHeight 1, tileSize 16, one tile at (0, 0), target width 32
    let m = map(2, 1, 16, vec![layer(true, vec![tile("0", 0, 0)])]);
    let t = TilesetManager::new(&m, &solid_tileset(16, 16), 32).unwrap();
    assert_eq!(t.colliders.len(), 1);
    // -(0 - 2*16/2) - 16/2 = 8 and -(0 - 1*16/2) - 16/2 = 0, in world units
    assert_eq!(
        t.colliders[0],
        BoxCollider::new(Vec2::new(8_000_000, 0), Vec2::new(16_000_000, 16_000_000))
    );
    assert_eq!(t.image.width, 32);
    assert_eq!(t.image.height, 16);
    assert_eq!(t.image.pixels.len(), 32 * 16);
    for y in 0..16 {
        for x in 0..32 {
            let expected = if x < 16 { RED } else { CLEAR };
            assert_eq!(t.image.pixels[y * 32 + x], expected);
        }
    }
}

#[test]
fn colliders_are_centered_and_scaled() {
    let m = map(4, 2, 8, vec![layer(true, vec![tile("0", 0, 0), tile("0", 3, 1)])]);
    let t = TilesetManager::new(&m, &solid_tileset(8, 8), 400).unwrap();
    // span = 400 / 4 = 100 units
    assert_eq!(t.colliders[0].size, Vec2::new(100_000_000, 100_000_000));
    assert_eq!(t.colliders[0].pos, Vec2::new(150_000_000, 50_000_000));
    assert_eq!(t.colliders[1].pos, Vec2::new(-150_000_000, -50_000_000));
}

#[test]
fn centers_round_down() {
    // span = 1 / 3 world unit; center of cell 0 = 1_000_000 * 2 / 6
    let m = map(3, 1, 1, vec![layer(true, vec![tile("0", 0, 0), tile("0", 2, 0)])]);
    let t = TilesetManager::new(&m, &solid_tileset(1, 1), 1).unwrap();
    assert_eq!(t.colliders[0].size, Vec2::new(333_333, 333_333));
    assert_eq!(t.colliders[0].pos, Vec2::new(333_333, 0));
    assert_eq!(t.colliders[1].pos, Vec2::new(-333_334, 0));
}

#[test]
fn earlier_layers_are_drawn_on_top() {
    let m = map(
        2,
        1,
        1,
        vec![layer(true, vec![tile("1", 0, 0)]), layer(true, vec![tile("0", 0, 0), tile("1", 1, 0)])],
    );
    let opaque = TilesetManager::new(&m, &two_tileset(), 2).unwrap();
    assert_eq!(opaque.image.pixels, vec![RED, CLEAR]);
    let options = TerrainOptions { blit: BlitMode::Overwrite, flagged_layers_only: false };
    let over = TilesetManager::build(&m, &two_tileset(), 2, options).unwrap();
    assert_eq!(over.image.pixels, vec![GREEN_HALF, GREEN_HALF]);
}

#[test]
fn colliders_follow_processing_order() {
    let m = map(
        2,
        1,
        1,
        vec![layer(true, vec![tile("1", 0, 0)]), layer(false, vec![tile("0", 0, 0), tile("1", 1, 0)])],
    );
    let all = TilesetManager::new(&m, &two_tileset(), 2).unwrap();
    let xs: Vec<i64> = all.colliders.iter().map(|c| c.pos.x).collect();
    assert_eq!(xs, vec![500_000, -500_000, 500_000]);
    for c in all.colliders.iter() {
        assert_eq!(c.size, Vec2::new(1_000_000, 1_000_000));
        assert_eq!(c.pos.y, 0);
    }
    let options = TerrainOptions { blit: BlitMode::OpaqueOnly, flagged_layers_only: true };
    let flagged = TilesetManager::build(&m, &two_tileset(), 2, options).unwrap();
    assert_eq!(flagged.colliders.len(), 1);
    assert_eq!(flagged.colliders[0].pos, Vec2::new(500_000, 0));
    // the unflagged layer is still drawn
    assert_eq!(flagged.image.pixels, vec![RED, CLEAR]);
}

#[test]
fn blit_uses_the_source_block() {
    // tileset of 2 columns and 2 rows of 2-pixel tiles
    let mut pixels = vec![CLEAR; 16];
    for y in 0..4 {
        for x in 0..4 {
            pixels[y * 4 + x] = [x as u8, y as u8, 7, 255];
        }
    }
    let tileset = Raster { width: 4, height: 4, pixels };
    let m = map(1, 1, 2, vec![layer(true, vec![tile("3", 0, 0)])]);
    let t = TilesetManager::new(&m, &tileset, 1).unwrap();
    assert_eq!(t.image.pixels, vec![[2, 2, 7, 255], [3, 2, 7, 255], [2, 3, 7, 255], [3, 3, 7, 255]]);
}

#[test]
fn empty_map_builds() {
    let m = map(0, 0, 16, vec![]);
    let t = TilesetManager::new(&m, &solid_tileset(16, 16), 100).unwrap();
    assert!(t.colliders.is_empty());
    assert!(t.image.pixels.is_empty());
}

#[test]
fn each_error_variant() {
    let ts = solid_tileset(2, 1);
    let one = |id: &str, x: u32, y: u32| vec![layer(true, vec![tile(id, x, y)])];
    let err = |m: &Tilemap, target: u32| TilesetManager::new(m, &ts, target).err();
    assert_eq!(err(&map(2, 1, 0, one("0", 0, 0)), 10), Some(TerrainError::ZeroTileSize));
    assert_eq!(err(&map(2, 1, 1, one("0", 0, 0)), 0), Some(TerrainError::ScaleTooSmall));
    assert_eq!(err(&map(70_000, 1, 70_000, vec![]), 10), Some(TerrainError::ImageTooLarge));
    assert_eq!(err(&map(2, 1, 1, one("x", 0, 0)), 10), Some(TerrainError::BadTileId));
    assert_eq!(err(&map(2, 1, 1, one("0", 2, 0)), 10), Some(TerrainError::TileOutsideMap));
    assert_eq!(err(&map(2, 1, 1, one("0", 0, 1)), 10), Some(TerrainError::TileOutsideMap));
    assert_eq!(err(&map(2, 1, 1, one("2", 0, 0)), 10), Some(TerrainError::TileOutsideTileset));
    assert_eq!(err(&map(2, 1, 3, one("0", 0, 0)), 10), Some(TerrainError::TileOutsideTileset));
    assert_eq!(
        err(&map(1, 10_000, 1, one("0", 0, 0)), u32::MAX),
        Some(TerrainError::CoordinateOverflow)
    );
    assert_eq!(err(&map(2, 1, 1, one("1", 1, 0)), 10), None);
}

#[test]
fn first_error_in_declaration_order() {
    let ts = solid_tileset(2, 1);
    let m = map(
        2,
        1,
        1,
        vec![layer(true, vec![tile("0", 0, 0), tile("0", 5, 0)]), layer(true, vec![tile("z", 0, 0)])],
    );
    assert_eq!(check_map(&m, &ts, 10), Some(TerrainError::TileOutsideMap));
    assert_eq!(TilesetManager::new(&m, &ts, 10).err(), Some(TerrainError::TileOutsideMap));
}
