use gm2tiled::convert;
use gm2tiled::model::{Layer, MapObject, TileLayer};
use gm2tiled::schema::{BackgroundDef, GameObjectData, Gms2TileLayer, RoomData, TileData, ViewData};
use gm2tiled::tile_flags;

fn background(
    name: &str,
    texture_page_index: usize,
    source_width: u32,
    source_height: u32,
    gms2_tile_width: u32,
    gms2_tile_height: u32,
) -> BackgroundDef {
    BackgroundDef {
        name: name.to_string(),
        texture_page_index,
        source_x: 0,
        source_y: 0,
        source_width,
        source_height,
        gms2_tile_width,
        gms2_tile_height,
        gms2_output_border_x: 0,
        gms2_output_border_y: 0,
        gms2_tile_columns: 0,
        gms2_tile_count: 0,
    }
}

fn empty_room() -> RoomData {
    RoomData {
        width: 40,
        height: 40,
        speed: 30,
        background_color: 0xFF000000,
        draw_background_color: true,
        tiles: Vec::new(),
        game_objects: Vec::new(),
        views: Vec::new(),
        gms2_tile_layers: Vec::new(),
    }
}

fn tile(x: i32, y: i32, source_x: u32, source_y: u32, width: u32, height: u32, depth: i32, background: &str) -> TileData {
    TileData { x, y, source_x, source_y, width, height, depth, background: background.to_string() }
}

fn gms2_layer(name: &str, depth: i32, background: &str, tile_data: Vec<Vec<u32>>) -> Gms2TileLayer {
    let tiles_y = tile_data.len() as u32;
    let tiles_x = tile_data.first().map_or(0, |row| row.len() as u32);
    Gms2TileLayer {
        name: name.to_string(),
        depth,
        background: background.to_string(),
        tiles_x,
        tiles_y,
        tile_data,
    }
}

fn game_object(name: &str, sprite_page: i32, sprite_w: u32, sprite_h: u32) -> GameObjectData {
    GameObjectData {
        x: 12,
        y: 18,
        object_name: name.to_string(),
        instance_id: 99,
        sprite_page,
        sprite_source_x: 0,
        sprite_source_y: 0,
        sprite_source_width: sprite_w,
        sprite_source_height: sprite_h,
        sprite_origin_x: 2,
        sprite_origin_y: 3,
    }
}

fn enabled_view() -> ViewData {
    ViewData {
        enabled: true,
        view_x: 1,
        view_y: 2,
        view_width: 30,
        view_height: 20,
        port_x: 3,
        port_y: 4,
        port_width: 60,
        port_height: 40,
    }
}

#[test]
fn convert_room_builds_gms1_free_tiles_objects_and_views() {
    let mut room = empty_room();
    room.tiles = vec![tile(0, 0, 0, 0, 20, 20, 100, "bg"), tile(7, 3, 20, 0, 10, 20, 100, "bg")];
    room.game_objects.push(game_object("obj_marker", 0, 8, 6));
    room.views.push(enabled_view());

    let backgrounds = vec![background("bg", 0, 40, 20, 0, 0)];
    let (map, tilesets, sprite_sources, free_tile_sources) =
        convert::convert_room(&room, &backgrounds, 20).expect("convert room");

    assert_eq!(map.tile_width, 20);
    assert_eq!(tilesets.len(), 3);
    assert_eq!(sprite_sources.len(), 1);
    assert_eq!(free_tile_sources.len(), 1);

    assert!(map.layers.iter().any(|layer| matches!(layer, Layer::Tile(TileLayer { data, .. }) if data.iter().any(|gid| *gid != 0))));
    assert!(map.layers.iter().any(|layer| {
        matches!(layer, Layer::Object(obj) if obj.objects.iter().any(|object| matches!(object, MapObject::TileObject(_))))
    }));
    assert!(map.layers.iter().any(|layer| matches!(layer, Layer::Object(obj) if obj.name == "objects")));
    assert!(map.layers.iter().any(|layer| matches!(layer, Layer::Object(obj) if obj.name == "views")));

    let objects_layer = map
        .layers
        .iter()
        .find_map(|layer| match layer {
            Layer::Object(obj) if obj.name == "objects" => Some(obj),
            _ => None,
        })
        .expect("objects layer");
    let instance = objects_layer
        .objects
        .iter()
        .find_map(|object| match object {
            MapObject::Instance(instance) => Some(instance),
            _ => None,
        })
        .expect("instance object");
    assert!(instance.gid.is_some());
    assert_eq!(instance.x as f32, 10.0);
    assert_eq!(instance.y as f32, 21.0);
}

#[test]
fn convert_room_preserves_gms2_transform_flags_and_mixed_sizes() {
    let mut room = empty_room();
    room.gms2_tile_layers.push(gms2_layer("main", 0, "bg20", vec![vec![1 | tile_flags::GMS2_TILE_MIRROR_FLAG]]));
    room.gms2_tile_layers.push(gms2_layer("fine", -10, "bg10", vec![vec![1 | tile_flags::GMS2_TILE_ROTATE_FLAG]]));

    let backgrounds = vec![background("bg20", 0, 40, 20, 20, 20), background("bg10", 0, 20, 10, 10, 10)];
    let (map, _tilesets, _sprite_sources, _free_tile_sources) =
        convert::convert_room(&room, &backgrounds, 20).expect("convert room");

    let main_layer = map
        .layers
        .iter()
        .find_map(|layer| match layer {
            Layer::Tile(tile_layer) if tile_layer.name == "main" => Some(tile_layer),
            _ => None,
        })
        .expect("main tile layer");
    assert_eq!(main_layer.data[0], 0x8000_0002);

    let fine_layer = map
        .layers
        .iter()
        .find_map(|layer| match layer {
            Layer::Object(obj) if obj.name == "fine_objects" => Some(obj),
            _ => None,
        })
        .expect("fine object layer");
    let tile_object = fine_layer
        .objects
        .iter()
        .find_map(|object| match object {
            MapObject::TileObject(tile_object) => Some(tile_object),
            _ => None,
        })
        .expect("tile object");
    assert_eq!(tile_object.gid, 0xA000_0004);
}

#[test]
fn free_tiles_without_area_still_become_tile_objects() {
    let mut room = empty_room();
    room.tiles = vec![
        tile(1, 0, 0, 0, 20, 20, 7, "bg"),
        tile(41, 0, 0, 0, 20, 20, 7, "bg"),
        tile(3, 4, 25, 0, 0, 20, 7, "bg"),
        tile(5, 6, 21, 3, 7, 5, 7, "bg"),
    ];
    let backgrounds = vec![background("bg", 0, 40, 20, 0, 0)];
    let (map, _, _, free) = convert::convert_room(&room, &backgrounds, 20).expect("convert room");
    assert_eq!(free.len(), 1);
    let objects: Vec<_> = map
        .layers
        .iter()
        .filter_map(|layer| match layer {
            Layer::Object(obj) if obj.name == "depth_7_tiles" => Some(obj),
            _ => None,
        })
        .flat_map(|obj| obj.objects.iter())
        .collect();
    assert_eq!(objects.len(), 4);
    match objects[2] {
        MapObject::TileObject(t) => {
            assert_eq!((t.x, t.y, t.width, t.height), (3, 24, 0, 20));
            assert_eq!(t.gid, 2);
        }
        _ => panic!("tile object expected"),
    }
}
