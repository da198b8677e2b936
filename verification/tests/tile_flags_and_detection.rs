use gm2tiled::convert_detection::detect_room_tile_size;
use gm2tiled::schema::{BackgroundDef, Gms2TileLayer, RoomData, TileData};
use gm2tiled::tile_flags;

fn background(
    name: &str,
    texture_page_index: usize,
    source_width: u32,
    source_height: u32,
    gms2_tile_width: u32,
    gms2_tile_height: u32,
) -> BackgroundDef {
    BackgroundDef {
        name: name.to_string(),
        texture_page_index,
        source_x: 0,
        source_y: 0,
        source_width,
        source_height,
        gms2_tile_width,
        gms2_tile_height,
        gms2_output_border_x: 0,
        gms2_output_border_y: 0,
        gms2_tile_columns: 0,
        gms2_tile_count: 0,
    }
}

fn empty_room() -> RoomData {
    RoomData {
        width: 40,
        height: 40,
        speed: 30,
        background_color: 0xFF000000,
        draw_background_color: true,
        tiles: Vec::new(),
        game_objects: Vec::new(),
        views: Vec::new(),
        gms2_tile_layers: Vec::new(),
    }
}

fn tile(x: i32, y: i32, source_x: u32, source_y: u32, width: u32, height: u32, depth: i32, background: &str) -> TileData {
    TileData { x, y, source_x, source_y, width, height, depth, background: background.to_string() }
}

fn gms2_layer(name: &str, depth: i32, background: &str, tile_data: Vec<Vec<u32>>) -> Gms2TileLayer {
    let tiles_y = tile_data.len() as u32;
    let tiles_x = tile_data.first().map_or(0, |row| row.len() as u32);
    Gms2TileLayer {
        name: name.to_string(),
        depth,
        background: background.to_string(),
        tiles_x,
        tiles_y,
        tile_data,
    }
}

#[test]
fn gms2_flags_map_to_expected_tiled_bits() {
    let idx = 0x35;
    let first_gid = 7;
    let cases = [
        (0, 0),
        (tile_flags::GMS2_TILE_MIRROR_FLAG, 0x8000_0000),
        (tile_flags::GMS2_TILE_FLIP_FLAG, 0x4000_0000),
        (tile_flags::GMS2_TILE_MIRROR_FLAG | tile_flags::GMS2_TILE_FLIP_FLAG, 0xC000_0000),
        (tile_flags::GMS2_TILE_ROTATE_FLAG, 0xA000_0000),
        (tile_flags::GMS2_TILE_ROTATE_FLAG | tile_flags::GMS2_TILE_MIRROR_FLAG, 0xE000_0000),
        (tile_flags::GMS2_TILE_ROTATE_FLAG | tile_flags::GMS2_TILE_FLIP_FLAG, 0x2000_0000),
        (
            tile_flags::GMS2_TILE_ROTATE_FLAG | tile_flags::GMS2_TILE_MIRROR_FLAG | tile_flags::GMS2_TILE_FLIP_FLAG,
            0x6000_0000,
        ),
    ];

    for (gms2_flags, tiled_flags) in cases {
        let raw = idx | gms2_flags;
        assert_eq!(tile_flags::gms2_tile_index(raw), idx);
        assert_eq!(tile_flags::gms2_tile_flags(raw), gms2_flags);
        assert_eq!(tile_flags::gms2_raw_to_tiled_transform_flags(raw), tiled_flags);
        assert_eq!(tile_flags::gms2_raw_to_tiled_gid(raw, first_gid), (first_gid + idx) | tiled_flags);
    }
}

#[test]
fn detect_room_tile_size_prefers_dominant_square_gms2_tiles() {
    let mut room = empty_room();
    room.gms2_tile_layers.push(gms2_layer("main", 0, "bg40", vec![vec![1, 1, 1], vec![1, 0, 1]]));
    room.gms2_tile_layers.push(gms2_layer("small", 0, "bg20", vec![vec![1]]));

    let backgrounds = vec![background("bg40", 0, 80, 80, 40, 40), background("bg20", 0, 40, 40, 20, 20)];

    assert_eq!(detect_room_tile_size(&room, &backgrounds, 16), 40);
}

#[test]
fn detect_room_tile_size_uses_aligned_gms1_candidates_before_fallback() {
    let mut room = empty_room();
    room.gms2_tile_layers.clear();
    room.tiles = vec![
        tile(0, 0, 0, 0, 20, 20, 0, "bg"),
        tile(20, 0, 20, 0, 20, 20, 0, "bg"),
        tile(0, 20, 0, 20, 40, 40, 0, "bg"),
        tile(-5, 0, 0, 0, 10, 10, 0, "bg"),
    ];

    assert_eq!(detect_room_tile_size(&room, &Vec::new(), 16), 20);
}

#[test]
fn detect_room_tile_size_falls_back_when_room_has_no_tiles() {
    let room = empty_room();
    assert_eq!(detect_room_tile_size(&room, &Vec::new(), 0), 1);
}

#[test]
fn detection_does_not_depend_on_the_order_of_tiles_or_layers() {
    let backgrounds = vec![background("bg40", 0, 80, 40, 40, 40), background("bg20", 0, 40, 20, 20, 20)];
    let make = |reverse: bool| {
        let mut room = empty_room();
        let mut tiles = vec![tile(0, 0, 0, 0, 16, 16, 0, "x"), tile(16, 0, 0, 0, 16, 16, 0, "x"), tile(0, 20, 0, 0, 20, 20, 0, "x")];
        let mut layers = vec![
            gms2_layer("a", 0, "bg40", vec![vec![1, 1]]),
            gms2_layer("b", 0, "bg20", vec![vec![1, 1]]),
        ];
        if reverse {
            tiles.reverse();
            layers.reverse();
        }
        room.tiles = tiles;
        room.gms2_tile_layers = layers;
        room
    };
    assert_eq!(
        detect_room_tile_size(&make(false), &backgrounds, 7),
        detect_room_tile_size(&make(true), &backgrounds, 7)
    );
    let mut gms1_only = make(false);
    gms1_only.gms2_tile_layers.clear();
    let mut reversed = make(true);
    reversed.gms2_tile_layers.clear();
    assert_eq!(detect_room_tile_size(&gms1_only, &backgrounds, 7), detect_room_tile_size(&reversed, &backgrounds, 7));
}
