//! The Tiled map and tileset model that a room converts into.
//!
//! Object positions and sizes are whole pixels: every one of them is computed from integer
//! room data.
use vstd::prelude::*;

verus! {

/// A Tiled map (a `.tmx` file).
#[derive(Debug)]
pub struct TiledMap {
    pub width_tiles: u32,
    pub height_tiles: u32,
    pub tile_width: u32,
    pub tile_height: u32,
    pub background_color: Option<String>,
    pub tilesets: Vec<TilesetRef>,
    pub layers: Vec<Layer>,
    pub next_layer_id: u32,
    pub next_object_id: u32,
    pub speed: u32,
}

/// A map's reference to an external tileset.
#[derive(Debug)]
pub struct TilesetRef {
    pub first_gid: u32,
    pub tsx_path: String,
}

/// A map layer.
#[derive(Debug)]
pub enum Layer {
    Tile(TileLayer),
    Object(ObjectLayer),
}

/// A grid of global tile ids, row by row.
#[derive(Debug)]
pub struct TileLayer {
    pub id: u32,
    pub name: String,
    pub width: u32,
    pub height: u32,
    pub data: Vec<u32>,
}

/// A layer of free-standing objects.
#[derive(Debug)]
pub struct ObjectLayer {
    pub id: u32,
    pub name: String,
    pub objects: Vec<MapObject>,
}

/// An object of an object layer.
#[derive(Debug)]
pub enum MapObject {
    Instance(InstanceObject),
    TileObject(TileObjectData),
    View(ViewObject),
}

/// A placed game object; with a sprite tile when the object has a sprite.
#[derive(Debug)]
pub struct InstanceObject {
    pub id: u32,
    pub obj_type: String,
    pub x: i64,
    pub y: i64,
    pub width: i64,
    pub height: i64,
    pub instance_id: u32,
    pub gid: Option<u32>,
}

/// A tile placed off the map grid. Tiled anchors tile objects at their bottom-left corner.
#[derive(Clone, Copy, Debug, PartialEq, Eq)]
pub struct TileObjectData {
    pub id: u32,
    pub gid: u32,
    pub x: i64,
    pub y: i64,
    pub width: i64,
    pub height: i64,
}

/// A room view, with its port as properties.
#[derive(Clone, Copy, Debug, PartialEq, Eq)]
pub struct ViewObject {
    pub id: u32,
    pub x: i64,
    pub y: i64,
    pub width: i64,
    pub height: i64,
    pub port_x: i32,
    pub port_y: i32,
    pub port_width: u32,
    pub port_height: u32,
}

/// A tileset (a `.tsx` file) and where its image comes from.
#[derive(Debug)]
pub struct Tileset {
    pub name: String,
    pub tile_width: u32,
    pub tile_height: u32,
    pub image_path: String,
    pub image_width: u32,
    pub image_height: u32,
    pub margin_x: u32,
    pub margin_y: u32,
    pub spacing_x: u32,
    pub spacing_y: u32,
    pub columns: u32,
    pub tile_count: u32,
    pub source_texture_page_index: usize,
    pub source_x: u32,
    pub source_y: u32,
}

// ---------------------------------------------------------------------------------------------
// Mathematical views: the same records with character sequences in place of strings.
// ---------------------------------------------------------------------------------------------

pub struct TilesetRefView {
    pub first_gid: u32,
    pub tsx_path: Seq<char>,
}

pub struct TileLayerView {
    pub id: u32,
    pub name: Seq<char>,
    pub width: u32,
    pub height: u32,
    pub data: Seq<u32>,
}

pub struct InstanceObjectView {
    pub id: u32,
    pub obj_type: Seq<char>,
    pub x: i64,
    pub y: i64,
    pub width: i64,
    pub height: i64,
    pub instance_id: u32,
    pub gid: Option<u32>,
}

pub enum MapObjectView {
    Instance(InstanceObjectView),
    TileObject(TileObjectData),
    View(ViewObject),
}

pub struct ObjectLayerView {
    pub id: u32,
    pub name: Seq<char>,
    pub objects: Seq<MapObjectView>,
}

pub enum LayerView {
    Tile(TileLayerView),
    Object(ObjectLayerView),
}

pub struct TiledMapView {
    pub width_tiles: u32,
    pub height_tiles: u32,
    pub tile_width: u32,
    pub tile_height: u32,
    pub background_color: Option<Seq<char>>,
    pub tilesets: Seq<TilesetRefView>,
    pub layers: Seq<LayerView>,
    pub next_layer_id: u32,
    pub next_object_id: u32,
    pub speed: u32,
}

pub struct TilesetView {
    pub name: Seq<char>,
    pub tile_width: u32,
    pub tile_height: u32,
    pub image_path: Seq<char>,
    pub image_width: u32,
    pub image_height: u32,
    pub margin_x: u32,
    pub margin_y: u32,
    pub spacing_x: u32,
    pub spacing_y: u32,
    pub columns: u32,
    pub tile_count: u32,
    pub source_texture_page_index: usize,
    pub source_x: u32,
    pub source_y: u32,
}

impl View for TilesetRef {
    type V = TilesetRefView;

    open spec fn view(&self) -> TilesetRefView {
        TilesetRefView { first_gid: self.first_gid, tsx_path: self.tsx_path@ }
    }
}

impl View for TileLayer {
    type V = TileLayerView;

    open spec fn view(&self) -> TileLayerView {
        TileLayerView {
            id: self.id,
            name: self.name@,
            width: self.width,
            height: self.height,
            data: self.data@,
        }
    }
}

impl View for InstanceObject {
    type V = InstanceObjectView;

    open spec fn view(&self) -> InstanceObjectView {
        InstanceObjectView {
            id: self.id,
            obj_type: self.obj_type@,
            x: self.x,
            y: self.y,
            width: self.width,
            height: self.height,
            instance_id: self.instance_id,
            gid: self.gid,
        }
    }
}

impl View for MapObject {
    type V = MapObjectView;

    open spec fn view(&self) -> MapObjectView {
        match self {
            MapObject::Instance(o) => MapObjectView::Instance(o@),
            MapObject::TileObject(o) => MapObjectView::TileObject(*o),
            MapObject::View(o) => MapObjectView::View(*o),
        }
    }
}

pub open spec fn objects_view(objects: Seq<MapObject>) -> Seq<MapObjectView> {
    objects.map_values(|o: MapObject| o@)
}

impl View for ObjectLayer {
    type V = ObjectLayerView;

    open spec fn view(&self) -> ObjectLayerView {
        ObjectLayerView { id: self.id, name: self.name@, objects: objects_view(self.objects@) }
    }
}

impl View for Layer {
    type V = LayerView;

    open spec fn view(&self) -> LayerView {
        match self {
            Layer::Tile(l) => LayerView::Tile(l@),
            Layer::Object(l) => LayerView::Object(l@),
        }
    }
}

pub open spec fn layers_view(layers: Seq<Layer>) -> Seq<LayerView> {
    layers.map_values(|l: Layer| l@)
}

pub open spec fn refs_view(refs: Seq<TilesetRef>) -> Seq<TilesetRefView> {
    refs.map_values(|r: TilesetRef| r@)
}

pub open spec fn opt_string_view(s: Option<String>) -> Option<Seq<char>> {
    match s {
        Some(s) => Some(s@),
        None => None,
    }
}

impl View for TiledMap {
    type V = TiledMapView;

    open spec fn view(&self) -> TiledMapView {
        TiledMapView {
            width_tiles: self.width_tiles,
            height_tiles: self.height_tiles,
            tile_width: self.tile_width,
            tile_height: self.tile_height,
            background_color: opt_string_view(self.background_color),
            tilesets: refs_view(self.tilesets@),
            layers: layers_view(self.layers@),
            next_layer_id: self.next_layer_id,
            next_object_id: self.next_object_id,
            speed: self.speed,
        }
    }
}

impl View for Tileset {
    type V = TilesetView;

    open spec fn view(&self) -> TilesetView {
        TilesetView {
            name: self.name@,
            tile_width: self.tile_width,
            tile_height: self.tile_height,
            image_path: self.image_path@,
            image_width: self.image_width,
            image_height: self.image_height,
            margin_x: self.margin_x,
            margin_y: self.margin_y,
            spacing_x: self.spacing_x,
            spacing_y: self.spacing_y,
            columns: self.columns,
            tile_count: self.tile_count,
            source_texture_page_index: self.source_texture_page_index,
            source_x: self.source_x,
            source_y: self.source_y,
        }
    }
}

pub open spec fn tilesets_view(ts: Seq<Tileset>) -> Seq<TilesetView> {
    ts.map_values(|t: Tileset| t@)
}

} // verus!
