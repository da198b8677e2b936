use gm2tiled::convert;
use gm2tiled::model::{Layer, MapObject, TileLayer, TileObjectData, TiledMap, Tileset, TilesetRef};
use gm2tiled::raster::{crop_region, transform_tile, Pixmap, Rgba, TransformKind};
use gm2tiled::render::{
    self, build_render_tilesets, compare_images, parse_hex_rgb, plan_reference_room_static, plan_tiled_map_static,
    room_background, tiled_background, tileset_for_gid, tileset_name_from_path, DrawOp, RenderError, RenderTileset,
};
use gm2tiled::schema::{BackgroundDef, Gms2TileLayer, RoomData, TileData, ViewData};
use gm2tiled::text::argb_to_hex;
use gm2tiled::tile_flags;

fn rgba(r: u8, g: u8, b: u8, a: u8) -> Rgba {
    Rgba { r, g, b, a }
}

fn blank(width: u32, height: u32) -> Pixmap {
    Pixmap { width, height, pixels: vec![rgba(0, 0, 0, 0); (width * height) as usize] }
}

fn put(img: &mut Pixmap, x: u32, y: u32, p: Rgba) {
    let idx = (y * img.width + x) as usize;
    img.pixels[idx] = p;
}

fn get(img: &Pixmap, x: u32, y: u32) -> Rgba {
    img.pixels[(y * img.width + x) as usize]
}

fn filled(width: u32, height: u32, p: Rgba) -> Pixmap {
    Pixmap { width, height, pixels: vec![p; (width * height) as usize] }
}

/// Carries out drawing steps whose pixels are opaque or fully transparent, as the blending of
/// such pixels does.
fn draw(canvas: &mut Pixmap, page: &Pixmap, ops: &[DrawOp]) {
    for op in ops {
        let r = op.region;
        let region = crop_region(page, r.source_x, r.source_y, r.source_width, r.source_height);
        let tile = transform_tile(&region, op.kind, op.bits);
        for ty in 0..tile.height {
            for tx in 0..tile.width {
                let dx = op.x + tx as i64;
                let dy = op.y + ty as i64;
                if dx < 0 || dy < 0 || dx >= canvas.width as i64 || dy >= canvas.height as i64 {
                    continue;
                }
                let p = get(&tile, tx, ty);
                if p.a == 0 {
                    continue;
                }
                assert_eq!(p.a, 255, "only opaque pixels are drawn here");
                put(canvas, dx as u32, dy as u32, p);
            }
        }
    }
}

fn background(
    name: &str,
    texture_page_index: usize,
    source_width: u32,
    source_height: u32,
    gms2_tile_width: u32,
    gms2_tile_height: u32,
) -> BackgroundDef {
    BackgroundDef {
        name: name.to_string(),
        texture_page_index,
        source_x: 0,
        source_y: 0,
        source_width,
        source_height,
        gms2_tile_width,
        gms2_tile_height,
        gms2_output_border_x: 0,
        gms2_output_border_y: 0,
        gms2_tile_columns: 0,
        gms2_tile_count: 0,
    }
}

fn empty_room() -> RoomData {
    RoomData {
        width: 40,
        height: 40,
        speed: 30,
        background_color: 0xFF000000,
        draw_background_color: true,
        tiles: Vec::new(),
        game_objects: Vec::new(),
        views: Vec::new(),
        gms2_tile_layers: Vec::new(),
    }
}

fn tile(x: i32, y: i32, source_x: u32, source_y: u32, width: u32, height: u32, depth: i32, background: &str) -> TileData {
    TileData { x, y, source_x, source_y, width, height, depth, background: background.to_string() }
}

fn gms2_layer(name: &str, depth: i32, background: &str, tile_data: Vec<Vec<u32>>) -> Gms2TileLayer {
    let tiles_y = tile_data.len() as u32;
    let tiles_x = tile_data.first().map_or(0, |row| row.len() as u32);
    Gms2TileLayer {
        name: name.to_string(),
        depth,
        background: background.to_string(),
        tiles_x,
        tiles_y,
        tile_data,
    }
}

fn single_tileset(name: &str, columns: u32, tile_count: u32, tile_size: u32) -> Tileset {
    Tileset {
        name: name.to_string(),
        tile_width: tile_size,
        tile_height: tile_size,
        image_path: format!("../textures/{name}.png"),
        image_width: tile_size * columns,
        image_height: tile_size,
        margin_x: 0,
        margin_y: 0,
        spacing_x: 0,
        spacing_y: 0,
        columns,
        tile_count,
        source_texture_page_index: 0,
        source_x: 0,
        source_y: 0,
    }
}

fn map_with(tilesets: Vec<TilesetRef>, layers: Vec<Layer>) -> TiledMap {
    TiledMap {
        width_tiles: 1,
        height_tiles: 1,
        tile_width: 2,
        tile_height: 2,
        background_color: None,
        tilesets,
        layers,
        next_layer_id: 2,
        next_object_id: 1,
        speed: 30,
    }
}

#[test]
fn render_pipeline_matches_reference_for_transformed_gms2_tiles() {
    let mut page = blank(4, 2);
    put(&mut page, 2, 0, rgba(255, 0, 0, 255));
    put(&mut page, 3, 0, rgba(0, 255, 0, 255));
    put(&mut page, 2, 1, rgba(0, 0, 255, 255));
    put(&mut page, 3, 1, rgba(255, 255, 0, 255));

    let backgrounds = vec![background("bg", 0, 4, 2, 2, 2)];

    let mut room = empty_room();
    room.width = 2;
    room.height = 2;
    room.gms2_tile_layers.push(gms2_layer(
        "main",
        0,
        "bg",
        vec![vec![1 | tile_flags::GMS2_TILE_MIRROR_FLAG]],
    ));

    let (ops, stats) = plan_reference_room_static(&room, &backgrounds);
    let mut reference = filled(room.width, room.height, room_background(&room));
    draw(&mut reference, &page, &ops);
    assert_eq!(stats.gms2_flagged_tiles, 1);
    assert_eq!(get(&reference, 0, 0), rgba(0, 255, 0, 255));
    assert_eq!(get(&reference, 1, 0), rgba(255, 0, 0, 255));
    assert_eq!(get(&reference, 0, 1), rgba(255, 255, 0, 255));
    assert_eq!(get(&reference, 1, 1), rgba(0, 0, 255, 255));

    let (map, tilesets, _, _) = convert::convert_room(&room, &backgrounds, 2).expect("convert");
    let map_ops = plan_tiled_map_static(&map, &tilesets).expect("render tiled");
    let mut rendered = filled(room.width, room.height, tiled_background(&map));
    draw(&mut rendered, &page, &map_ops);
    let diff = compare_images(&reference, &rendered);
    assert_eq!(diff.metrics.ae_pixels, 0);
}

#[test]
fn render_tiled_map_applies_tiled_flip_flags() {
    let mut page = blank(2, 2);
    put(&mut page, 0, 0, rgba(1, 2, 3, 255));
    put(&mut page, 1, 0, rgba(4, 5, 6, 255));
    put(&mut page, 0, 1, rgba(7, 8, 9, 255));
    put(&mut page, 1, 1, rgba(10, 11, 12, 255));

    let map = map_with(
        vec![TilesetRef { first_gid: 1, tsx_path: "tilesets/single.tsx".to_string() }],
        vec![Layer::Tile(TileLayer { id: 1, name: "base".to_string(), width: 1, height: 1, data: vec![1 | 0x2000_0000] })],
    );
    let tilesets = vec![Tileset {
        name: "single".to_string(),
        tile_width: 2,
        tile_height: 2,
        image_path: "../textures/0.png".to_string(),
        image_width: 2,
        image_height: 2,
        margin_x: 0,
        margin_y: 0,
        spacing_x: 0,
        spacing_y: 0,
        columns: 1,
        tile_count: 1,
        source_texture_page_index: 0,
        source_x: 0,
        source_y: 0,
    }];

    let ops = plan_tiled_map_static(&map, &tilesets).expect("render tiled");
    let mut rendered = filled(2, 2, tiled_background(&map));
    draw(&mut rendered, &page, &ops);

    assert_eq!(get(&rendered, 0, 0), rgba(1, 2, 3, 255));
    assert_eq!(get(&rendered, 1, 0), rgba(7, 8, 9, 255));
    assert_eq!(get(&rendered, 0, 1), rgba(4, 5, 6, 255));
    assert_eq!(get(&rendered, 1, 1), rgba(10, 11, 12, 255));
}

#[test]
fn compare_images_reports_size_mismatch_and_changed_pixels() {
    let mut left = blank(1, 1);
    put(&mut left, 0, 0, rgba(1, 2, 3, 255));
    let mut right = blank(2, 1);
    put(&mut right, 0, 0, rgba(9, 9, 9, 255));
    put(&mut right, 1, 0, rgba(1, 1, 1, 255));

    let diff = compare_images(&left, &right);
    let m = diff.metrics;
    let rmse = (m.squared_error as f64 / (m.total_pixels as f64 * 4.0 * 255.0 * 255.0)).sqrt();
    assert!(!m.size_match);
    assert_eq!(m.ae_pixels, 2);
    assert!(rmse > 0.0);
}

#[test]
fn compare_images_sums_squared_channel_differences_and_marks_alpha_only_changes() {
    let mut left = blank(2, 1);
    put(&mut left, 0, 0, rgba(10, 20, 30, 255));
    put(&mut left, 1, 0, rgba(5, 5, 5, 100));
    let mut right = blank(2, 1);
    put(&mut right, 0, 0, rgba(13, 16, 30, 255));
    put(&mut right, 1, 0, rgba(5, 5, 5, 200));

    let diff = compare_images(&left, &right);
    assert!(diff.metrics.size_match);
    assert_eq!(diff.metrics.ae_pixels, 2);
    assert_eq!(diff.metrics.squared_error, 9 + 16 + 100 * 100);
    assert_eq!(diff.metrics.total_pixels, 2);
    assert_eq!(get(&diff.diff_image, 0, 0), rgba(3, 4, 0, 255));
    assert_eq!(get(&diff.diff_image, 1, 0), rgba(255, 0, 255, 255));

    let same = compare_images(&left, &left);
    assert_eq!(same.metrics.ae_pixels, 0);
    assert_eq!(same.metrics.squared_error, 0);
    assert_eq!(get(&same.diff_image, 0, 0), rgba(0, 0, 0, 0));

    let empty = compare_images(&blank(0, 0), &blank(0, 0));
    assert_eq!(empty.metrics.total_pixels, 1);
    assert_eq!(empty.metrics.ae_pixels, 0);
}

#[test]
fn reference_plan_orders_tiles_by_depth_and_counts_views() {
    let backgrounds = vec![background("bg", 3, 40, 20, 0, 0)];
    let mut room = empty_room();
    room.tiles = vec![
        tile(0, 0, 0, 0, 20, 20, 5, "bg"),
        tile(20, 0, 20, 0, 20, 20, 100, "bg"),
        tile(40, 0, 0, 0, 20, 20, 5, "unknown"),
        tile(-3, 7, 20, 0, 10, 10, 5, "bg"),
    ];
    let mut view = ViewData {
        enabled: true,
        view_x: 0,
        view_y: 0,
        view_width: 10,
        view_height: 10,
        port_x: 0,
        port_y: 0,
        port_width: 10,
        port_height: 10,
    };
    room.views.push(ViewData { ..view });
    view.enabled = false;
    room.views.push(view);

    let (ops, stats) = plan_reference_room_static(&room, &backgrounds);
    assert_eq!(ops.len(), 3);
    assert_eq!((ops[0].x, ops[0].y, ops[0].region.source_x), (20, 0, 20));
    assert_eq!((ops[1].x, ops[1].y, ops[1].region.source_x), (0, 0, 0));
    assert_eq!((ops[2].x, ops[2].y, ops[2].region.source_width), (-3, 7, 10));
    assert_eq!(ops[2].region.texture_page_index, 3);
    assert_eq!(stats.static_draw_ops, 3);
    assert_eq!(stats.gms2_flagged_tiles, 0);
    assert_eq!(stats.instance_count, 0);
    assert_eq!(stats.enabled_view_count, 1);
}

#[test]
fn reference_plan_lays_gms2_tiles_out_with_borders() {
    let mut bg = background("bg", 0, 24, 12, 4, 4);
    bg.gms2_output_border_x = 1;
    bg.gms2_output_border_y = 2;
    let backgrounds = vec![bg];
    let mut room = empty_room();
    room.gms2_tile_layers.push(gms2_layer("top", 10, "bg", vec![vec![0, 5], vec![2 | 0x4000_0000, 0]]));
    let (ops, stats) = plan_reference_room_static(&room, &backgrounds);
    // 24 pixels hold 4 tiles of 4 + 2 pixels: tile 5 is column 1 of row 1.
    assert_eq!(ops.len(), 2);
    assert_eq!((ops[0].region.source_x, ops[0].region.source_y), (1 + 6, 2 + 8));
    assert_eq!((ops[0].x, ops[0].y), (4, 0));
    assert_eq!((ops[1].region.source_x, ops[1].region.source_y), (1 + 12, 2));
    assert_eq!((ops[1].x, ops[1].y), (0, 4));
    assert_eq!(ops[1].kind, TransformKind::Gms2);
    assert_eq!(stats.gms2_flagged_tiles, 1);
}

#[test]
fn tiled_plan_reports_a_tileset_without_reference() {
    let map = map_with(
        vec![TilesetRef { first_gid: 1, tsx_path: "tilesets/other.tsx".to_string() }],
        vec![],
    );
    let tilesets = vec![single_tileset("single", 1, 1, 2)];
    match plan_tiled_map_static(&map, &tilesets) {
        Err(RenderError::MissingFirstGid(name)) => assert_eq!(name, "single"),
        Ok(_) => panic!("a tileset without reference must fail"),
    }
}

#[test]
fn tiled_plan_draws_tile_objects_from_their_bottom_left_corner() {
    let map = map_with(
        vec![
            TilesetRef { first_gid: 1, tsx_path: "tilesets/a.tsx".to_string() },
            TilesetRef { first_gid: 3, tsx_path: "tilesets/b.tsx".to_string() },
        ],
        vec![Layer::Object(gm2tiled::model::ObjectLayer {
            id: 1,
            name: "objs".to_string(),
            objects: vec![
                MapObject::TileObject(TileObjectData { id: 1, gid: 4 | 0x8000_0000, x: 5, y: 30, width: 8, height: 6 }),
                MapObject::TileObject(TileObjectData { id: 2, gid: 9, x: 0, y: 0, width: 1, height: 1 }),
            ],
        })],
    );
    let tilesets = vec![single_tileset("a", 2, 2, 8), single_tileset("b", 2, 2, 8)];
    let ops = plan_tiled_map_static(&map, &tilesets).expect("plan");
    assert_eq!(ops.len(), 1);
    assert_eq!((ops[0].x, ops[0].y), (5, 24));
    assert_eq!((ops[0].region.source_x, ops[0].region.source_width, ops[0].region.source_height), (8, 8, 6));
    assert_eq!(ops[0].bits, 0x8000_0000);
}

#[test]
fn tileset_lookup_prefers_the_lowest_first_gid() {
    let rt = |first_gid: u32, last_gid: u64| RenderTileset {
        first_gid,
        last_gid,
        texture_page_index: 0,
        source_x: 0,
        source_y: 0,
        tile_width: 1,
        tile_height: 1,
        columns: 1,
        margin_x: 0,
        margin_y: 0,
        spacing_x: 0,
        spacing_y: 0,
    };
    let ts = vec![rt(5, 20), rt(3, 10), rt(3, 4), rt(30, 30)];
    assert_eq!(tileset_for_gid(&ts, 0), None);
    assert_eq!(tileset_for_gid(&ts, 4), Some(1));
    assert_eq!(tileset_for_gid(&ts, 12), Some(0));
    assert_eq!(tileset_for_gid(&ts, 30), Some(3));
    assert_eq!(tileset_for_gid(&ts, 25), None);
}

#[test]
fn render_tilesets_take_the_last_reference_and_cover_their_tiles() {
    let map = map_with(
        vec![
            TilesetRef { first_gid: 1, tsx_path: "tilesets/a.tsx".to_string() },
            TilesetRef { first_gid: 7, tsx_path: "other/a.tsx".to_string() },
        ],
        vec![],
    );
    let tilesets = vec![single_tileset("a", 0, 0, 0)];
    let rts = build_render_tilesets(&map, &tilesets).expect("tilesets");
    assert_eq!(rts.len(), 1);
    assert_eq!((rts[0].first_gid, rts[0].last_gid), (7, 7));
    assert_eq!((rts[0].columns, rts[0].tile_width, rts[0].tile_height), (1, 1, 1));
}

#[test]
fn tileset_names_come_from_the_last_path_segment() {
    assert_eq!(tileset_name_from_path("tilesets/bg.tsx"), "bg");
    assert_eq!(tileset_name_from_path("a/b/c.tsx.tsx"), "c");
    assert_eq!(tileset_name_from_path("plain"), "plain");
    assert_eq!(tileset_name_from_path("dir/"), "");
    // The name a converted map gives a tileset reads back as the tileset's name.
    for name in ["bg_ruins", "spr_x_1_2_3x4", "t"] {
        assert_eq!(tileset_name_from_path(&format!("tilesets/{name}.tsx")), name);
    }
}

#[test]
fn hex_colours_parse_back_and_others_are_transparent() {
    assert_eq!(parse_hex_rgb("#112233"), Some(rgba(0x11, 0x22, 0x33, 255)));
    assert_eq!(parse_hex_rgb("#aBcDeF"), Some(rgba(0xAB, 0xCD, 0xEF, 255)));
    assert_eq!(parse_hex_rgb("#+12345"), Some(rgba(0x01, 0x23, 0x45, 255)));
    assert_eq!(parse_hex_rgb("#12345"), None);
    assert_eq!(parse_hex_rgb("112233"), None);
    assert_eq!(parse_hex_rgb("#GG0000"), None);
    assert_eq!(parse_hex_rgb("#1234567"), None);
    for color in [0xFF11_2233u32, 0x0000_0000, 0x80FF_00FF] {
        let written = argb_to_hex(color);
        let back = parse_hex_rgb(&written).expect("parses");
        assert_eq!(back, rgba((color >> 16) as u8, (color >> 8) as u8, color as u8, 255));
    }
    let mut map = map_with(vec![], vec![]);
    assert_eq!(tiled_background(&map), rgba(0, 0, 0, 0));
    map.background_color = Some("#0a0b0c".to_string());
    assert_eq!(tiled_background(&map), rgba(10, 11, 12, 255));
    map.background_color = Some("nope".to_string());
    assert_eq!(tiled_background(&map), rgba(0, 0, 0, 0));
}

#[test]
fn room_backgrounds_keep_the_alpha_byte() {
    let mut room = empty_room();
    room.background_color = 0x80_10_20_30;
    assert_eq!(room_background(&room), rgba(0x10, 0x20, 0x30, 0x80));
    assert_eq!(render::argb_to_rgba(0xFF00_0000), rgba(0, 0, 0, 255));
    room.draw_background_color = false;
    assert_eq!(room_background(&room), rgba(0, 0, 0, 0));
}

#[test]
fn crops_are_clamped_to_the_page() {
    let mut page = blank(3, 2);
    put(&mut page, 2, 1, rgba(9, 9, 9, 9));
    let inside = crop_region(&page, 1, 1, 5, 5);
    assert_eq!((inside.width, inside.height), (2, 1));
    assert_eq!(get(&inside, 1, 0), rgba(9, 9, 9, 9));
    let outside = crop_region(&page, 10, 0, 2, 2);
    assert_eq!((outside.width, outside.height), (0, 2));
    assert!(outside.pixels.is_empty());
}

#[test]
fn gms2_tiles_transform_alike_in_both_pictures() {
    let mut tile = blank(3, 2);
    for y in 0..2 {
        for x in 0..3 {
            put(&mut tile, x, y, rgba((y * 3 + x) as u8, 0, 0, 255));
        }
    }
    for flags in 0..8u32 {
        let raw = 1 | (flags << 28);
        let gms2 = transform_tile(&tile, TransformKind::Gms2, raw);
        let tiled = transform_tile(
            &tile,
            TransformKind::Tiled,
            tile_flags::gms2_raw_to_tiled_transform_flags(raw),
        );
        assert_eq!((gms2.width, gms2.height), (tiled.width, tiled.height));
        assert_eq!(gms2.pixels, tiled.pixels);
    }
    let rotated = transform_tile(&tile, TransformKind::Gms2, tile_flags::GMS2_TILE_ROTATE_FLAG);
    assert_eq!((rotated.width, rotated.height), (2, 3));
    // A clockwise quarter turn puts the bottom-left pixel in the top-left corner.
    assert_eq!(get(&rotated, 0, 0), rgba(3, 0, 0, 255));
}

#[test]
fn converted_maps_resolve_their_tilesets_to_disjoint_id_ranges() {
    let backgrounds = vec![background("bg", 0, 40, 20, 0, 0), background("bg2", 1, 20, 20, 0, 0)];
    let mut room = empty_room();
    room.tiles = vec![
        tile(0, 0, 0, 0, 20, 20, 100, "bg"),
        tile(7, 3, 20, 0, 10, 20, 100, "bg"),
        tile(20, 20, 0, 0, 20, 20, 50, "bg2"),
    ];
    let (map, tilesets, _, free) = convert::convert_room(&room, &backgrounds, 20).expect("convert");
    assert_eq!(free.len(), 1);
    let rts = build_render_tilesets(&map, &tilesets).expect("every tileset has a reference");
    assert_eq!(rts.len(), map.tilesets.len());
    for (rt, r) in rts.iter().zip(map.tilesets.iter()) {
        assert_eq!(rt.first_gid, r.first_gid);
    }
    for pair in rts.windows(2) {
        assert!(pair[0].last_gid < pair[1].first_gid as u64);
    }
    assert!(gm2tiled::render::tile_layers_are_complete(&map));
}

#[test]
fn gms1_grid_tiles_are_drawn_alike_from_the_map() {
    let backgrounds = vec![background("bg", 2, 40, 20, 0, 0)];
    let mut room = empty_room();
    room.tiles = vec![tile(20, 0, 20, 0, 20, 20, 100, "bg"), tile(0, 20, 0, 0, 20, 20, 100, "bg")];
    let (reference, _) = plan_reference_room_static(&room, &backgrounds);
    let (map, tilesets, _, _) = convert::convert_room(&room, &backgrounds, 20).expect("convert");
    let drawn = plan_tiled_map_static(&map, &tilesets).expect("plan");
    assert_eq!(reference.len(), 2);
    for op in &reference {
        assert!(drawn.iter().any(|d| d.region == op.region && d.x == op.x && d.y == op.y && d.bits == 0));
    }
}

#[test]
fn render_tilesets_come_out_in_order_of_first_gid() {
    let map = map_with(
        vec![
            TilesetRef { first_gid: 10, tsx_path: "tilesets/late.tsx".to_string() },
            TilesetRef { first_gid: 1, tsx_path: "tilesets/early.tsx".to_string() },
            TilesetRef { first_gid: 5, tsx_path: "tilesets/mid.tsx".to_string() },
        ],
        vec![],
    );
    let tilesets = vec![single_tileset("late", 1, 1, 2), single_tileset("early", 2, 4, 2), single_tileset("mid", 1, 1, 2)];
    let rts = build_render_tilesets(&map, &tilesets).expect("tilesets");
    let firsts: Vec<u32> = rts.iter().map(|t| t.first_gid).collect();
    assert_eq!(firsts, vec![1, 5, 10]);
    assert_eq!(rts[0].last_gid, 4);
}

#[test]
fn ids_with_bit_28_set_are_not_drawn() {
    let map = map_with(
        vec![TilesetRef { first_gid: 1, tsx_path: "tilesets/single.tsx".to_string() }],
        vec![Layer::Tile(TileLayer { id: 1, name: "base".to_string(), width: 2, height: 1, data: vec![1 | 0x1000_0000, 1] })],
    );
    let tilesets = vec![single_tileset("single", 1, 1, 2)];
    let ops = plan_tiled_map_static(&map, &tilesets).expect("plan");
    assert_eq!(ops.len(), 1);
    assert_eq!(ops[0].x, 2);
}

#[test]
fn comparing_in_either_order_gives_the_same_result() {
    let mut left = blank(2, 1);
    put(&mut left, 0, 0, rgba(10, 20, 30, 255));
    let mut right = blank(1, 2);
    put(&mut right, 0, 1, rgba(1, 2, 3, 4));
    let a = compare_images(&left, &right);
    let b = compare_images(&right, &left);
    assert_eq!(a.metrics.ae_pixels, b.metrics.ae_pixels);
    assert_eq!(a.metrics.squared_error, b.metrics.squared_error);
    assert_eq!(a.metrics.total_pixels, b.metrics.total_pixels);
    assert_eq!(a.metrics.size_match, b.metrics.size_match);
    assert_eq!((a.diff_image.width, a.diff_image.height), (b.diff_image.width, b.diff_image.height));
    assert_eq!(a.diff_image.pixels, b.diff_image.pixels);
}

#[test]
fn canvases_are_filled_with_their_background() {
    let c = gm2tiled::raster::new_canvas(3, 2, rgba(1, 2, 3, 4));
    assert_eq!((c.width, c.height, c.pixels.len()), (3, 2, 6));
    assert!(c.pixels.iter().all(|p| *p == rgba(1, 2, 3, 4)));
    let empty = gm2tiled::raster::new_canvas(0, 5, rgba(0, 0, 0, 0));
    assert!(empty.pixels.is_empty());
}

#[test]
fn a_picture_compared_with_itself_shows_no_difference() {
    let mut pic = blank(2, 2);
    put(&mut pic, 1, 0, rgba(5, 6, 7, 8));
    put(&mut pic, 0, 1, rgba(9, 9, 9, 255));
    let d = compare_images(&pic, &pic);
    assert!(d.metrics.size_match);
    assert_eq!((d.metrics.ae_pixels, d.metrics.squared_error, d.metrics.total_pixels), (0, 0, 4));
    assert_eq!((d.diff_image.width, d.diff_image.height), (2, 2));
    assert!(d.diff_image.pixels.iter().all(|p| *p == rgba(0, 0, 0, 0)));
}
