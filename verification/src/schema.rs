//! Room, background and sprite records as extracted from a GameMaker data file.
use vstd::prelude::*;

verus! {

/// A background (GMS1) or tileset (GMS2) resource: a region of a texture page.
#[derive(Debug)]
pub struct BackgroundDef {
    pub name: String,
    pub texture_page_index: usize,
    pub source_x: u32,
    pub source_y: u32,
    pub source_width: u32,
    pub source_height: u32,
    /// GMS2 tile width stored in the resource (0 = not a GMS2 tileset).
    pub gms2_tile_width: u32,
    /// GMS2 tile height stored in the resource (0 = not a GMS2 tileset).
    pub gms2_tile_height: u32,
    /// Pixels of border GMS2 keeps left and right of every tile on the texture page.
    pub gms2_output_border_x: u32,
    /// Pixels of border GMS2 keeps above and below every tile on the texture page.
    pub gms2_output_border_y: u32,
    /// Tile columns recorded by GMS2 (0 = not recorded).
    pub gms2_tile_columns: u32,
    /// Tile count recorded by GMS2 (0 = not recorded).
    pub gms2_tile_count: u32,
}

/// One room.
#[derive(Debug)]
pub struct RoomData {
    pub width: u32,
    pub height: u32,
    pub speed: u32,
    pub background_color: u32,
    pub draw_background_color: bool,
    pub tiles: Vec<TileData>,
    pub game_objects: Vec<GameObjectData>,
    pub views: Vec<ViewData>,
    pub gms2_tile_layers: Vec<Gms2TileLayer>,
}

/// A GMS1 tile: a rectangle of a background drawn at a room position.
#[derive(Debug)]
pub struct TileData {
    pub x: i32,
    pub y: i32,
    pub source_x: u32,
    pub source_y: u32,
    pub width: u32,
    pub height: u32,
    pub depth: i32,
    pub background: String,
}

/// An object instance placed in a room, with the first frame of its sprite.
#[derive(Debug)]
pub struct GameObjectData {
    pub x: i32,
    pub y: i32,
    pub object_name: String,
    pub instance_id: u32,
    /// Texture page of the sprite's first frame (negative = no sprite).
    pub sprite_page: i32,
    pub sprite_source_x: u32,
    pub sprite_source_y: u32,
    pub sprite_source_width: u32,
    pub sprite_source_height: u32,
    pub sprite_origin_x: i32,
    pub sprite_origin_y: i32,
}

/// The texture page that stands for "no sprite" when the record leaves it out.
pub fn neg_one_i32() -> (r: i32)
    ensures
        r == -1,
{
    -1
}

/// A room view (camera) and its port on screen.
#[derive(Debug)]
pub struct ViewData {
    pub enabled: bool,
    pub view_x: i32,
    pub view_y: i32,
    pub view_width: u32,
    pub view_height: u32,
    pub port_x: i32,
    pub port_y: i32,
    pub port_width: u32,
    pub port_height: u32,
}

/// A GMS2 tile layer: a grid of tile words over one tileset.
#[derive(Debug)]
pub struct Gms2TileLayer {
    pub name: String,
    pub depth: i32,
    pub background: String,
    pub tiles_x: u32,
    pub tiles_y: u32,
    pub tile_data: Vec<Vec<u32>>,
}

/// One frame of a sprite: a region of a texture page.
#[derive(Debug)]
pub struct SpriteFrame {
    pub texture_page_index: usize,
    pub source_x: u32,
    pub source_y: u32,
    pub source_width: u32,
    pub source_height: u32,
}

/// A sprite and its frames.
#[derive(Debug)]
pub struct SpriteDef {
    pub name: String,
    pub frames: Vec<SpriteFrame>,
}

/// The index of the background called `name`: when several carry that name, the last one,
/// as a name-keyed table built from the list in order would hold it.
pub open spec fn background_index(bgs: Seq<BackgroundDef>, name: Seq<char>) -> Option<int>
    decreases bgs.len(),
{
    if bgs.len() == 0 {
        None
    } else if bgs.last().name@ == name {
        Some(bgs.len() - 1)
    } else {
        background_index(bgs.drop_last(), name)
    }
}

/// Facts about `background_index`: a found index points at an entry of that name, and
/// no later entry carries the name.
pub proof fn lemma_background_index(bgs: Seq<BackgroundDef>, name: Seq<char>)
    ensures
        background_index(bgs, name) matches Some(i) ==> {
            &&& 0 <= i < bgs.len()
            &&& bgs[i].name@ == name
            &&& forall|j: int| i < j < bgs.len() ==> bgs[j].name@ != name
        },
        background_index(bgs, name) is None ==> forall|j: int|
            0 <= j < bgs.len() ==> bgs[j].name@ != name,
    decreases bgs.len(),
{
    if bgs.len() > 0 && bgs.last().name@ != name {
        lemma_background_index(bgs.drop_last(), name);
        assert forall|j: int| 0 <= j < bgs.len() - 1 implies bgs[j] == bgs.drop_last()[j] by {}
    }
}

/// Finds the background called `name` (the last one of that name).
pub fn find_background(bgs: &Vec<BackgroundDef>, name: &String) -> (r: Option<usize>)
    ensures
        r matches Some(i) ==> background_index(bgs@, name@) == Some(i as int),
        r is None ==> background_index(bgs@, name@) is None,
{
    let mut i = bgs.len();
    assert(bgs@.subrange(0, i as int) =~= bgs@);
    while i > 0
        invariant
            i <= bgs@.len(),
            background_index(bgs@, name@) == background_index(bgs@.subrange(0, i as int), name@),
        decreases i,
    {
        let ghost prefix = bgs@.subrange(0, i as int);
        if bgs[i - 1].name == *name {
            return Some(i - 1);
        }
        assert(prefix.drop_last() =~= bgs@.subrange(0, i - 1));
        i -= 1;
    }
    assert(bgs@.subrange(0, 0) =~= Seq::<BackgroundDef>::empty());
    None
}

} // verus!
