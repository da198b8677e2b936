//! Converting a room into a Tiled map, its tilesets and the images they need.
use vstd::prelude::*;

use crate::model::{
    layers_view, objects_view, refs_view, tilesets_view, InstanceObject, InstanceObjectView, Layer,
    LayerView, MapObject, MapObjectView, ObjectLayer, ObjectLayerView, TileLayer, TileLayerView,
    TileObjectData, TiledMap, TiledMapView, Tileset, TilesetRef, TilesetRefView, TilesetView,
    ViewObject,
};
use crate::text::{argb_to_hex, dec_int, dec_nat, push_char, push_dec_i64, push_dec_u64, spec_argb_to_hex};
use crate::schema::{
    background_index, find_background, BackgroundDef, GameObjectData, Gms2TileLayer, RoomData, TileData,
    ViewData,
};
use crate::tile_flags::{gms2_raw_to_tiled_gid, spec_transform_flags};

verus! {

broadcast use vstd::string::group_string_axioms;

// ---------------------------------------------------------------------------------------------
// Backgrounds a room uses
// ---------------------------------------------------------------------------------------------

/// Adds a background name to the list unless it is empty or listed already.
pub open spec fn add_name(acc: Seq<Seq<char>>, name: Seq<char>) -> Seq<Seq<char>> {
    if name.len() == 0 || acc.contains(name) {
        acc
    } else {
        acc.push(name)
    }
}

/// Background names of the first `n` GMS1 tiles, in order of first use.
pub open spec fn names_from_tiles(acc: Seq<Seq<char>>, tiles: Seq<TileData>, n: int) -> Seq<Seq<char>>
    decreases n,
{
    if n <= 0 {
        acc
    } else {
        add_name(names_from_tiles(acc, tiles, n - 1), tiles[n - 1].background@)
    }
}

/// Background names of the first `n` GMS2 layers added to `acc`, in order of first use.
pub open spec fn names_from_layers(
    acc: Seq<Seq<char>>,
    layers: Seq<crate::schema::Gms2TileLayer>,
    n: int,
) -> Seq<Seq<char>>
    decreases n,
{
    if n <= 0 {
        acc
    } else {
        add_name(names_from_layers(acc, layers, n - 1), layers[n - 1].background@)
    }
}

/// The non-empty background names that the room's tiles and then its GMS2 layers use,
/// each once, in order of first use.
pub open spec fn used_backgrounds(room: RoomData) -> Seq<Seq<char>> {
    let from_tiles = names_from_tiles(seq![], room.tiles@, room.tiles@.len() as int);
    names_from_layers(from_tiles, room.gms2_tile_layers@, room.gms2_tile_layers@.len() as int)
}

pub open spec fn strings_view(v: Seq<String>) -> Seq<Seq<char>> {
    v.map_values(|s: String| s@)
}

fn list_has(list: &Vec<String>, name: &String) -> (r: bool)
    ensures
        r == strings_view(list@).contains(name@),
{
    let mut i: usize = 0;
    while i < list.len()
        invariant
            i <= list@.len(),
            forall|j: int| 0 <= j < i ==> list@[j]@ != name@,
        decreases list.len() - i,
    {
        if list[i] == *name {
            assert(strings_view(list@)[i as int] == name@);
            return true;
        }
        i += 1;
    }
    assert(!strings_view(list@).contains(name@)) by {
        if strings_view(list@).contains(name@) {
            let j = choose|j: int| 0 <= j < strings_view(list@).len() && strings_view(list@)[j] == name@;
            assert(list@[j]@ == name@);
        }
    }
    false
}

fn add_name_exec(list: &mut Vec<String>, name: &String)
    ensures
        strings_view(final(list)@) == add_name(strings_view(old(list)@), name@),
{
    if !name.as_str().is_empty() && !list_has(list, name) {
        list.push(name.clone());
        assert(strings_view(list@) =~= strings_view(old(list)@).push(name@));
    } else {
        assert(name@.len() == 0 || strings_view(list@).contains(name@));
    }
}

/// The non-empty background names the room uses, each once, in order of first use.
pub fn collect_used_backgrounds(room: &RoomData) -> (r: Vec<String>)
    ensures
        strings_view(r@) == used_backgrounds(*room),
{
    let mut used: Vec<String> = Vec::new();
    let mut i: usize = 0;
    assert(strings_view(used@) =~= seq![]);
    while i < room.tiles.len()
        invariant
            i <= room.tiles@.len(),
            strings_view(used@) == names_from_tiles(seq![], room.tiles@, i as int),
        decreases room.tiles.len() - i,
    {
        add_name_exec(&mut used, &room.tiles[i].background);
        i += 1;
    }
    let ghost from_tiles = strings_view(used@);
    let mut j: usize = 0;
    while j < room.gms2_tile_layers.len()
        invariant
            j <= room.gms2_tile_layers@.len(),
            from_tiles == names_from_tiles(seq![], room.tiles@, room.tiles@.len() as int),
            strings_view(used@) == names_from_layers(from_tiles, room.gms2_tile_layers@, j as int),
        decreases room.gms2_tile_layers.len() - j,
    {
        add_name_exec(&mut used, &room.gms2_tile_layers[j].background);
        j += 1;
    }
    used
}

// ---------------------------------------------------------------------------------------------
// Tileset geometry
// ---------------------------------------------------------------------------------------------

/// Number of the first `n` tiles drawn from background `name` with size `w` x `h`.
pub open spec fn dims_count(tiles: Seq<TileData>, name: Seq<char>, w: u32, h: u32, n: int) -> nat
    decreases n,
{
    if n <= 0 {
        0
    } else {
        dims_count(tiles, name, w, h, n - 1) + if tiles[n - 1].background@ == name && tiles[n
            - 1].width == w && tiles[n - 1].height == h {
            1nat
        } else {
            0nat
        }
    }
}

/// Among the first `n` tiles drawn from background `name`, the size that the most of all
/// such tiles have; of equally common sizes, the one met first.
pub open spec fn best_dims(tiles: Seq<TileData>, name: Seq<char>, n: int) -> Option<(u32, u32)>
    decreases n,
{
    if n <= 0 {
        None
    } else {
        let prev = best_dims(tiles, name, n - 1);
        let t = tiles[n - 1];
        let total = tiles.len() as int;
        if t.background@ != name {
            prev
        } else {
            match prev {
                None => Some((t.width, t.height)),
                Some(d) => if dims_count(tiles, name, t.width, t.height, total) > dims_count(
                    tiles,
                    name,
                    d.0,
                    d.1,
                    total,
                ) {
                    Some((t.width, t.height))
                } else {
                    prev
                },
            }
        }
    }
}

/// Tile size of a background used by GMS1 tiles only: the most common size of the tiles
/// drawn from it, or the map's tile size when none is.
pub open spec fn gms1_tile_dims(room: RoomData, name: Seq<char>, tile_size: u32) -> (u32, u32) {
    match best_dims(room.tiles@, name, room.tiles@.len() as int) {
        Some(d) => d,
        None => (tile_size, tile_size),
    }
}

/// Whether some GMS2 layer of the room draws from background `name`.
pub open spec fn used_by_gms2_layer(room: RoomData, name: Seq<char>) -> bool {
    exists|i: int|
        0 <= i < room.gms2_tile_layers@.len() && room.gms2_tile_layers@[i].background@ == name
}

/// The tileset takes the tile size GMS2 recorded: a GMS2 layer uses the background and the
/// record has one. Legacy backgrounds can carry GMS2 sizes that their GMS1 tiles do not use.
pub open spec fn uses_gms2_dims(room: RoomData, name: Seq<char>, bg: BackgroundDef) -> bool {
    used_by_gms2_layer(room, name) && bg.gms2_tile_width > 0 && bg.gms2_tile_height > 0
}

/// Layout of a tileset image.
#[derive(Clone, Copy, Debug, PartialEq, Eq)]
pub struct Geometry {
    pub tile_width: u32,
    pub tile_height: u32,
    pub columns: u32,
    pub tile_count: u32,
    pub margin_x: u32,
    pub margin_y: u32,
    pub spacing_x: u32,
    pub spacing_y: u32,
}

pub open spec fn max1(v: int) -> int {
    if v < 1 {
        1
    } else {
        v
    }
}

/// Layout of the tileset made from background `bg` (called `name`), or none when a count
/// does not fit 32 bits. A GMS2 tileset keeps a border around every tile: the border is the
/// margin, twice the border the spacing.
pub open spec fn spec_geometry(room: RoomData, name: Seq<char>, bg: BackgroundDef, tile_size: u32) -> Option<Geometry> {
    if uses_gms2_dims(room, name, bg) {
        let tw = bg.gms2_tile_width as int;
        let th = bg.gms2_tile_height as int;
        let sx = 2 * bg.gms2_output_border_x;
        let sy = 2 * bg.gms2_output_border_y;
        if sx > u32::MAX || sy > u32::MAX || tw + sx > u32::MAX || th + sy > u32::MAX {
            None
        } else {
            let columns: int = if bg.gms2_tile_columns > 0 {
                bg.gms2_tile_columns as int
            } else {
                bg.source_width as int / (tw + sx)
            };
            let rows: int = bg.source_height as int / (th + sy);
            let count: int = if bg.gms2_tile_count > 0 {
                bg.gms2_tile_count as int
            } else {
                columns * rows
            };
            if count > u32::MAX {
                None
            } else {
                Some(
                    Geometry {
                        tile_width: tw as u32,
                        tile_height: th as u32,
                        columns: columns as u32,
                        tile_count: count as u32,
                        margin_x: bg.gms2_output_border_x,
                        margin_y: bg.gms2_output_border_y,
                        spacing_x: sx as u32,
                        spacing_y: sy as u32,
                    },
                )
            }
        }
    } else {
        let d = gms1_tile_dims(room, name, tile_size);
        let columns = bg.source_width as int / max1(d.0 as int);
        let rows = bg.source_height as int / max1(d.1 as int);
        if columns * rows > u32::MAX {
            None
        } else {
            Some(
                Geometry {
                    tile_width: d.0,
                    tile_height: d.1,
                    columns: columns as u32,
                    tile_count: (columns * rows) as u32,
                    margin_x: 0,
                    margin_y: 0,
                    spacing_x: 0,
                    spacing_y: 0,
                },
            )
        }
    }
}

fn count_dims(tiles: &Vec<TileData>, name: &String, w: u32, h: u32) -> (r: usize)
    ensures
        r == dims_count(tiles@, name@, w, h, tiles@.len() as int),
{
    let mut count: usize = 0;
    let mut i: usize = 0;
    while i < tiles.len()
        invariant
            i <= tiles@.len(),
            count == dims_count(tiles@, name@, w, h, i as int),
            count <= i,
        decreases tiles.len() - i,
    {
        let t = &tiles[i];
        if t.background == *name && t.width == w && t.height == h {
            count += 1;
        }
        i += 1;
    }
    count
}

/// The most common size of the tiles drawn from background `name` (the first met of equally
/// common ones), or `tile_size` square when no tile uses it.
fn determine_tile_dims_gms1(name: &String, room: &RoomData, tile_size: u32) -> (r: (u32, u32))
    ensures
        r == gms1_tile_dims(*room, name@, tile_size),
{
    let ghost tiles = room.tiles@;
    let mut best: Option<(u32, u32, usize)> = None;
    let mut i: usize = 0;
    while i < room.tiles.len()
        invariant
            tiles == room.tiles@,
            i <= tiles.len(),
            match best {
                None => best_dims(tiles, name@, i as int) is None,
                Some(b) => best_dims(tiles, name@, i as int) == Some((b.0, b.1)) && b.2
                    == dims_count(tiles, name@, b.0, b.1, tiles.len() as int),
            },
        decreases tiles.len() - i,
    {
        let t = &room.tiles[i];
        if t.background == *name {
            let c = count_dims(&room.tiles, name, t.width, t.height);
            match best {
                None => {
                    best = Some((t.width, t.height, c));
                },
                Some((_, _, bc)) => {
                    if c > bc {
                        best = Some((t.width, t.height, c));
                    }
                },
            }
        }
        i += 1;
    }
    match best {
        Some((w, h, _)) => (w, h),
        None => (tile_size, tile_size),
    }
}

fn has_gms2_layer_for(room: &RoomData, name: &String) -> (r: bool)
    ensures
        r == used_by_gms2_layer(*room, name@),
{
    let mut i: usize = 0;
    while i < room.gms2_tile_layers.len()
        invariant
            i <= room.gms2_tile_layers@.len(),
            forall|j: int| 0 <= j < i ==> room.gms2_tile_layers@[j].background@ != name@,
        decreases room.gms2_tile_layers.len() - i,
    {
        if room.gms2_tile_layers[i].background == *name {
            return true;
        }
        i += 1;
    }
    false
}

/// Layout of the tileset made from a background; `None` when a count does not fit 32 bits.
fn tileset_geometry(name: &String, room: &RoomData, bg: &BackgroundDef, tile_size: u32) -> (r: Option<Geometry>)
    ensures
        r == spec_geometry(*room, name@, *bg, tile_size),
{
    if has_gms2_layer_for(room, name) && bg.gms2_tile_width > 0 && bg.gms2_tile_height > 0 {
        let tw = bg.gms2_tile_width;
        let th = bg.gms2_tile_height;
        let sx = match bg.gms2_output_border_x.checked_mul(2) {
            Some(v) => v,
            None => return None,
        };
        let sy = match bg.gms2_output_border_y.checked_mul(2) {
            Some(v) => v,
            None => return None,
        };
        let cw = match tw.checked_add(sx) {
            Some(v) => v,
            None => return None,
        };
        let ch = match th.checked_add(sy) {
            Some(v) => v,
            None => return None,
        };
        let columns = if bg.gms2_tile_columns > 0 {
            bg.gms2_tile_columns
        } else {
            bg.source_width / cw
        };
        let rows = bg.source_height / ch;
        let count = if bg.gms2_tile_count > 0 {
            bg.gms2_tile_count
        } else {
            match columns.checked_mul(rows) {
                Some(v) => v,
                None => return None,
            }
        };
        Some(
            Geometry {
                tile_width: tw,
                tile_height: th,
                columns,
                tile_count: count,
                margin_x: bg.gms2_output_border_x,
                margin_y: bg.gms2_output_border_y,
                spacing_x: sx,
                spacing_y: sy,
            },
        )
    } else {
        let (tw, th) = determine_tile_dims_gms1(name, room, tile_size);
        let columns = bg.source_width / (if tw < 1 { 1 } else { tw });
        let rows = bg.source_height / (if th < 1 { 1 } else { th });
        let count = match columns.checked_mul(rows) {
            Some(v) => v,
            None => return None,
        };
        Some(
            Geometry {
                tile_width: tw,
                tile_height: th,
                columns,
                tile_count: count,
                margin_x: 0,
                margin_y: 0,
                spacing_x: 0,
                spacing_y: 0,
            },
        )
    }
}

// ---------------------------------------------------------------------------------------------
// Background tilesets and their global tile ids
// ---------------------------------------------------------------------------------------------

/// Why a room cannot be converted.
#[derive(Debug)]
pub enum ConvertError {
    /// The room uses a background that the background list lacks.
    MissingBackground(String),
    /// A GMS2 layer uses a background that has no tileset.
    MissingTileset(String),
    /// A count, id or coordinate does not fit its integer type.
    Overflow,
}

pub enum ConvertErrorView {
    MissingBackground(Seq<char>),
    MissingTileset(Seq<char>),
    Overflow,
}

impl View for ConvertError {
    type V = ConvertErrorView;

    open spec fn view(&self) -> ConvertErrorView {
        match self {
            ConvertError::MissingBackground(n) => ConvertErrorView::MissingBackground(n@),
            ConvertError::MissingTileset(n) => ConvertErrorView::MissingTileset(n@),
            ConvertError::Overflow => ConvertErrorView::Overflow,
        }
    }
}

/// A background tileset of the map: its layout, first global tile id and image source.
#[derive(Debug)]
pub struct TilesetInfo {
    pub name: String,
    pub first_gid: u32,
    pub geometry: Geometry,
    pub texture_page_index: usize,
    pub source_x: u32,
    pub source_y: u32,
    pub source_width: u32,
    pub source_height: u32,
}

pub struct TilesetInfoView {
    pub name: Seq<char>,
    pub first_gid: u32,
    pub geometry: Geometry,
    pub texture_page_index: usize,
    pub source_x: u32,
    pub source_y: u32,
    pub source_width: u32,
    pub source_height: u32,
}

impl View for TilesetInfo {
    type V = TilesetInfoView;

    open spec fn view(&self) -> TilesetInfoView {
        TilesetInfoView {
            name: self.name@,
            first_gid: self.first_gid,
            geometry: self.geometry,
            texture_page_index: self.texture_page_index,
            source_x: self.source_x,
            source_y: self.source_y,
            source_width: self.source_width,
            source_height: self.source_height,
        }
    }
}

pub open spec fn infos_view(v: Seq<TilesetInfo>) -> Seq<TilesetInfoView> {
    v.map_values(|i: TilesetInfo| i@)
}

/// The first of the first `n` used names that no background carries.
pub open spec fn first_missing(bgs: Seq<BackgroundDef>, used: Seq<Seq<char>>, n: int) -> Option<Seq<char>>
    decreases n,
{
    if n <= 0 {
        None
    } else {
        match first_missing(bgs, used, n - 1) {
            Some(m) => Some(m),
            None => if background_index(bgs, used[n - 1]) is None {
                Some(used[n - 1])
            } else {
                None
            },
        }
    }
}

/// Tilesets for the first `n` used backgrounds, with the next free global tile id; `None`
/// when a count or id does not fit 32 bits. Ids are handed out from 1 in order of use; a
/// tileset takes as many ids as it has tiles, and at least one.
pub open spec fn spec_tileset_infos(
    room: RoomData,
    bgs: Seq<BackgroundDef>,
    tile_size: u32,
    used: Seq<Seq<char>>,
    n: int,
) -> Option<(Seq<TilesetInfoView>, u32)>
    decreases n,
{
    if n <= 0 {
        Some((seq![], 1u32))
    } else {
        match spec_tileset_infos(room, bgs, tile_size, used, n - 1) {
            None => None,
            Some((infos, next)) => {
                let name = used[n - 1];
                match background_index(bgs, name) {
                    None => None,
                    Some(bi) => {
                        let bg = bgs[bi];
                        match spec_geometry(room, name, bg, tile_size) {
                            None => None,
                            Some(geo) => {
                                let after = next + max1(geo.tile_count as int);
                                if after > u32::MAX {
                                    None
                                } else {
                                    Some(
                                        (
                                            infos.push(
                                                TilesetInfoView {
                                                    name,
                                                    first_gid: next,
                                                    geometry: geo,
                                                    texture_page_index: bg.texture_page_index,
                                                    source_x: bg.source_x,
                                                    source_y: bg.source_y,
                                                    source_width: bg.source_width,
                                                    source_height: bg.source_height,
                                                },
                                            ),
                                            after as u32,
                                        ),
                                    )
                                }
                            },
                        }
                    },
                }
            },
        }
    }
}

proof fn lemma_first_missing_stays(bgs: Seq<BackgroundDef>, used: Seq<Seq<char>>, i: int, n: int)
    requires
        0 <= i <= n,
        first_missing(bgs, used, i) is Some,
    ensures
        first_missing(bgs, used, n) == first_missing(bgs, used, i),
    decreases n - i,
{
    if n > i {
        lemma_first_missing_stays(bgs, used, i, n - 1);
    }
}

proof fn lemma_infos_none_stays(
    room: RoomData,
    bgs: Seq<BackgroundDef>,
    tile_size: u32,
    used: Seq<Seq<char>>,
    i: int,
    n: int,
)
    requires
        0 <= i <= n,
        spec_tileset_infos(room, bgs, tile_size, used, i) is None,
    ensures
        spec_tileset_infos(room, bgs, tile_size, used, n) is None,
    decreases n - i,
{
    if n > i {
        lemma_infos_none_stays(room, bgs, tile_size, used, i, n - 1);
    }
}

/// Index of the first used name that no background carries.
fn find_missing_background(used: &Vec<String>, backgrounds: &Vec<BackgroundDef>) -> (r: Option<usize>)
    ensures
        r matches Some(i) ==> i < used@.len() && first_missing(backgrounds@, strings_view(used@), used@.len() as int)
            == Some(used@[i as int]@),
        r is None ==> first_missing(backgrounds@, strings_view(used@), used@.len() as int) is None,
{
    let ghost names = strings_view(used@);
    let mut i: usize = 0;
    while i < used.len()
        invariant
            names == strings_view(used@),
            i <= used@.len(),
            first_missing(backgrounds@, names, i as int) is None,
        decreases used.len() - i,
    {
        if find_background(backgrounds, &used[i]).is_none() {
            assert(names[i as int] == used@[i as int]@);
            proof {
                lemma_first_missing_stays(backgrounds@, names, i + 1, used@.len() as int);
            }
            return Some(i);
        }
        i += 1;
    }
    None
}

/// Tilesets for the used backgrounds, with the next free global tile id.
fn build_tileset_map(room: &RoomData, backgrounds: &Vec<BackgroundDef>, tile_size: u32, used: &Vec<String>) -> (r:
    Option<(Vec<TilesetInfo>, u32)>)
    ensures
        r matches Some((infos, next)) ==> spec_tileset_infos(
            *room,
            backgrounds@,
            tile_size,
            strings_view(used@),
            used@.len() as int,
        ) == Some((infos_view(infos@), next)),
        r is None ==> spec_tileset_infos(*room, backgrounds@, tile_size, strings_view(used@), used@.len() as int)
            is None,
{
    let ghost names = strings_view(used@);
    let mut infos: Vec<TilesetInfo> = Vec::new();
    let mut next_gid: u32 = 1;
    let mut i: usize = 0;
    while i < used.len()
        invariant
            names == strings_view(used@),
            i <= used@.len(),
            spec_tileset_infos(*room, backgrounds@, tile_size, names, i as int) == Some(
                (infos_view(infos@), next_gid),
            ),
        decreases used.len() - i,
    {
        let name = &used[i];
        assert(names[i as int] == name@);
        proof {
            crate::schema::lemma_background_index(backgrounds@, name@);
        }
        let bi = match find_background(backgrounds, name) {
            Some(bi) => bi,
            None => {
                proof {
                    lemma_infos_none_stays(*room, backgrounds@, tile_size, names, i + 1, used@.len() as int);
                }
                return None;
            },
        };
        let bg = &backgrounds[bi];
        let geo = match tileset_geometry(name, room, bg, tile_size) {
            Some(g) => g,
            None => {
                proof {
                    lemma_infos_none_stays(*room, backgrounds@, tile_size, names, i + 1, used@.len() as int);
                }
                return None;
            },
        };
        let span: u32 = if geo.tile_count < 1 { 1 } else { geo.tile_count };
        let after = match next_gid.checked_add(span) {
            Some(v) => v,
            None => {
                proof {
                    lemma_infos_none_stays(*room, backgrounds@, tile_size, names, i + 1, used@.len() as int);
                }
                return None;
            },
        };
        let ghost old_infos = infos@;
        infos.push(
            TilesetInfo {
                name: name.clone(),
                first_gid: next_gid,
                geometry: geo,
                texture_page_index: bg.texture_page_index,
                source_x: bg.source_x,
                source_y: bg.source_y,
                source_width: bg.source_width,
                source_height: bg.source_height,
            },
        );
        assert(infos_view(infos@) =~= infos_view(old_infos).push(infos@.last()@));
        next_gid = after;
        i += 1;
    }
    Some((infos, next_gid))
}

// ---------------------------------------------------------------------------------------------
// Name lookups
// ---------------------------------------------------------------------------------------------

/// Index of the first of the first `n` tilesets called `name`.
pub open spec fn info_index(infos: Seq<TilesetInfoView>, name: Seq<char>, n: int) -> Option<int>
    decreases n,
{
    if n <= 0 {
        None
    } else {
        match info_index(infos, name, n - 1) {
            Some(j) => Some(j),
            None => if infos[n - 1].name == name {
                Some(n - 1)
            } else {
                None
            },
        }
    }
}

/// The background tileset called `name`, if any.
pub open spec fn info_for(infos: Seq<TilesetInfoView>, name: Seq<char>) -> Option<TilesetInfoView> {
    match info_index(infos, name, infos.len() as int) {
        Some(j) => Some(infos[j]),
        None => None,
    }
}

proof fn lemma_info_index(infos: Seq<TilesetInfoView>, name: Seq<char>, n: int)
    requires
        0 <= n <= infos.len(),
    ensures
        info_index(infos, name, n) matches Some(j) ==> 0 <= j < n && infos[j].name == name,
        info_index(infos, name, n) is None ==> forall|j: int| 0 <= j < n ==> infos[j].name != name,
    decreases n,
{
    if n > 0 {
        lemma_info_index(infos, name, n - 1);
    }
}

/// Finds the background tileset called `name`.
fn find_info<'a>(infos: &'a Vec<TilesetInfo>, name: &String) -> (r: Option<&'a TilesetInfo>)
    ensures
        r matches Some(info) ==> info_for(infos_view(infos@), name@) == Some(info@),
        r is None ==> info_for(infos_view(infos@), name@) is None,
{
    let ghost v = infos_view(infos@);
    let mut i: usize = 0;
    while i < infos.len()
        invariant
            v == infos_view(infos@),
            i <= infos@.len(),
            info_index(v, name@, i as int) is None,
        decreases infos.len() - i,
    {
        if infos[i].name == *name {
            proof {
                lemma_info_index_stays(v, name@, i + 1, v.len() as int);
            }
            return Some(&infos[i]);
        }
        i += 1;
    }
    None
}

proof fn lemma_info_index_stays(infos: Seq<TilesetInfoView>, name: Seq<char>, i: int, n: int)
    requires
        0 <= i <= n,
        info_index(infos, name, i) is Some,
    ensures
        info_index(infos, name, n) == info_index(infos, name, i),
    decreases n - i,
{
    if n > i {
        lemma_info_index_stays(infos, name, i, n - 1);
    }
}

// ---------------------------------------------------------------------------------------------
// Sprite tilesets
// ---------------------------------------------------------------------------------------------

/// A one-tile tileset for the sprite of an object type.
#[derive(Debug)]
pub struct SpriteTilesetInfo {
    pub name: String,
    pub first_gid: u32,
    pub source_width: u32,
    pub source_height: u32,
    pub texture_page_index: usize,
    pub source_x: u32,
    pub source_y: u32,
    pub origin_x: i32,
    pub origin_y: i32,
}

pub struct SpriteInfoView {
    pub name: Seq<char>,
    pub first_gid: u32,
    pub source_width: u32,
    pub source_height: u32,
    pub texture_page_index: usize,
    pub source_x: u32,
    pub source_y: u32,
    pub origin_x: i32,
    pub origin_y: i32,
}

impl View for SpriteTilesetInfo {
    type V = SpriteInfoView;

    open spec fn view(&self) -> SpriteInfoView {
        SpriteInfoView {
            name: self.name@,
            first_gid: self.first_gid,
            source_width: self.source_width,
            source_height: self.source_height,
            texture_page_index: self.texture_page_index,
            source_x: self.source_x,
            source_y: self.source_y,
            origin_x: self.origin_x,
            origin_y: self.origin_y,
        }
    }
}

pub open spec fn sprites_view(v: Seq<SpriteTilesetInfo>) -> Seq<SpriteInfoView> {
    v.map_values(|i: SpriteTilesetInfo| i@)
}

/// Index of the first of the first `n` sprite tilesets called `name`.
pub open spec fn sprite_index(sprites: Seq<SpriteInfoView>, name: Seq<char>, n: int) -> Option<int>
    decreases n,
{
    if n <= 0 {
        None
    } else {
        match sprite_index(sprites, name, n - 1) {
            Some(j) => Some(j),
            None => if sprites[n - 1].name == name {
                Some(n - 1)
            } else {
                None
            },
        }
    }
}

/// The sprite tileset for object type `name`, if any.
pub open spec fn sprite_for(sprites: Seq<SpriteInfoView>, name: Seq<char>) -> Option<SpriteInfoView> {
    match sprite_index(sprites, name, sprites.len() as int) {
        Some(j) => Some(sprites[j]),
        None => None,
    }
}

/// Sprite tilesets for the first `n` objects, with the next free global tile id; `None` when
/// an id does not fit 32 bits. An object type gets one when an object of it has a sprite
/// frame of non-zero size; its first such object gives the frame.
pub open spec fn spec_sprite_infos(objs: Seq<GameObjectData>, start: u32, n: int) -> Option<(Seq<SpriteInfoView>, u32)>
    decreases n,
{
    if n <= 0 {
        Some((seq![], start))
    } else {
        match spec_sprite_infos(objs, start, n - 1) {
            None => None,
            Some((sprites, next)) => {
                let o = objs[n - 1];
                if o.sprite_page < 0 || o.sprite_source_width == 0 || o.sprite_source_height == 0
                    || sprite_for(sprites, o.object_name@) is Some {
                    Some((sprites, next))
                } else if next >= u32::MAX {
                    None
                } else {
                    Some(
                        (
                            sprites.push(
                                SpriteInfoView {
                                    name: o.object_name@,
                                    first_gid: next,
                                    source_width: o.sprite_source_width,
                                    source_height: o.sprite_source_height,
                                    texture_page_index: o.sprite_page as usize,
                                    source_x: o.sprite_source_x,
                                    source_y: o.sprite_source_y,
                                    origin_x: o.sprite_origin_x,
                                    origin_y: o.sprite_origin_y,
                                },
                            ),
                            (next + 1) as u32,
                        ),
                    )
                }
            },
        }
    }
}

proof fn lemma_sprite_index_stays(sprites: Seq<SpriteInfoView>, name: Seq<char>, i: int, n: int)
    requires
        0 <= i <= n,
        sprite_index(sprites, name, i) is Some,
    ensures
        sprite_index(sprites, name, n) == sprite_index(sprites, name, i),
    decreases n - i,
{
    if n > i {
        lemma_sprite_index_stays(sprites, name, i, n - 1);
    }
}

/// Finds the sprite tileset for object type `name`.
fn find_sprite<'a>(sprites: &'a Vec<SpriteTilesetInfo>, name: &String) -> (r: Option<&'a SpriteTilesetInfo>)
    ensures
        r matches Some(info) ==> sprite_for(sprites_view(sprites@), name@) == Some(info@),
        r is None ==> sprite_for(sprites_view(sprites@), name@) is None,
{
    let ghost v = sprites_view(sprites@);
    let mut i: usize = 0;
    while i < sprites.len()
        invariant
            v == sprites_view(sprites@),
            i <= sprites@.len(),
            sprite_index(v, name@, i as int) is None,
        decreases sprites.len() - i,
    {
        if sprites[i].name == *name {
            proof {
                lemma_sprite_index_stays(v, name@, i + 1, v.len() as int);
            }
            return Some(&sprites[i]);
        }
        i += 1;
    }
    None
}

proof fn lemma_sprites_none_stays(objs: Seq<GameObjectData>, start: u32, i: int, n: int)
    requires
        0 <= i <= n,
        spec_sprite_infos(objs, start, i) is None,
    ensures
        spec_sprite_infos(objs, start, n) is None,
    decreases n - i,
{
    if n > i {
        lemma_sprites_none_stays(objs, start, i, n - 1);
    }
}

/// Sprite tilesets for the room's object types, with global tile ids from `start` on.
fn build_sprite_tileset_map(room: &RoomData, start: u32) -> (r: Option<(Vec<SpriteTilesetInfo>, u32)>)
    ensures
        r matches Some((sprites, next)) ==> spec_sprite_infos(
            room.game_objects@,
            start,
            room.game_objects@.len() as int,
        ) == Some((sprites_view(sprites@), next)),
        r is None ==> spec_sprite_infos(room.game_objects@, start, room.game_objects@.len() as int) is None,
{
    let ghost objs = room.game_objects@;
    let mut sprites: Vec<SpriteTilesetInfo> = Vec::new();
    let mut next_gid = start;
    let mut i: usize = 0;
    while i < room.game_objects.len()
        invariant
            objs == room.game_objects@,
            i <= objs.len(),
            spec_sprite_infos(objs, start, i as int) == Some((sprites_view(sprites@), next_gid)),
        decreases objs.len() - i,
    {
        let o = &room.game_objects[i];
        let skip = o.sprite_page < 0 || o.sprite_source_width == 0 || o.sprite_source_height == 0
            || find_sprite(&sprites, &o.object_name).is_some();
        if !skip {
            if next_gid == u32::MAX {
                proof {
                    lemma_sprites_none_stays(objs, start, i + 1, objs.len() as int);
                }
                return None;
            }
            let ghost old_sprites = sprites@;
            sprites.push(
                SpriteTilesetInfo {
                    name: o.object_name.clone(),
                    first_gid: next_gid,
                    source_width: o.sprite_source_width,
                    source_height: o.sprite_source_height,
                    texture_page_index: o.sprite_page as usize,
                    source_x: o.sprite_source_x,
                    source_y: o.sprite_source_y,
                    origin_x: o.sprite_origin_x,
                    origin_y: o.sprite_origin_y,
                },
            );
            assert(sprites_view(sprites@) =~= sprites_view(old_sprites).push(sprites@.last()@));
            next_gid = next_gid + 1;
        }
        i += 1;
    }
    Some((sprites, next_gid))
}

// ---------------------------------------------------------------------------------------------
// Placing GMS1 tiles
// ---------------------------------------------------------------------------------------------

/// The tile is one cell of the map grid.
pub open spec fn grid_aligned(t: TileData, tile_size: u32) -> bool {
    &&& t.width == tile_size
    &&& t.height == tile_size
    &&& t.x >= 0
    &&& t.y >= 0
    &&& (t.x as int) % (tile_size as int) == 0
    &&& (t.y as int) % (tile_size as int) == 0
}

/// Column of the tileset cell at (or left of) a tile's source rectangle.
pub open spec fn cell_col(t: TileData, g: Geometry) -> int {
    if t.source_x >= g.margin_x {
        (t.source_x - g.margin_x) / max1(g.tile_width + g.spacing_x)
    } else {
        0
    }
}

/// Row of the tileset cell at (or above) a tile's source rectangle.
pub open spec fn cell_row(t: TileData, g: Geometry) -> int {
    if t.source_y >= g.margin_y {
        (t.source_y - g.margin_y) / max1(g.tile_height + g.spacing_y)
    } else {
        0
    }
}

/// Global tile id of the tileset cell a tile is drawn from (before any range check).
pub open spec fn tile_gid(t: TileData, info: TilesetInfoView) -> int {
    info.first_gid + cell_row(t, info.geometry) * info.geometry.columns + cell_col(t, info.geometry)
}

/// The tile's source rectangle is exactly one cell of the tileset.
pub open spec fn matches_cell(t: TileData, g: Geometry) -> bool {
    &&& t.width == g.tile_width
    &&& t.height == g.tile_height
    &&& t.source_x >= g.margin_x
    &&& t.source_y >= g.margin_y
    &&& (t.source_x - g.margin_x) % max1(g.tile_width + g.spacing_x) == 0
    &&& (t.source_y - g.margin_y) % max1(g.tile_height + g.spacing_y) == 0
}

/// An image cut from a texture page for a tileset of its own.
#[derive(Debug)]
pub struct SpriteSourceInfo {
    pub name: String,
    pub texture_page_index: usize,
    pub source_x: u32,
    pub source_y: u32,
    pub source_width: u32,
    pub source_height: u32,
}

pub struct SourceView {
    pub name: Seq<char>,
    pub texture_page_index: usize,
    pub source_x: u32,
    pub source_y: u32,
    pub source_width: u32,
    pub source_height: u32,
}

impl View for SpriteSourceInfo {
    type V = SourceView;

    open spec fn view(&self) -> SourceView {
        SourceView {
            name: self.name@,
            texture_page_index: self.texture_page_index,
            source_x: self.source_x,
            source_y: self.source_y,
            source_width: self.source_width,
            source_height: self.source_height,
        }
    }
}

pub open spec fn sources_view(v: Seq<SpriteSourceInfo>) -> Seq<SourceView> {
    v.map_values(|i: SpriteSourceInfo| i@)
}

/// Name of the image cut for a free tile: background, source position and size.
pub open spec fn crop_name(t: TileData) -> Seq<char> {
    t.background@ + seq!['_'] + dec_nat(t.source_x as nat) + seq!['_'] + dec_nat(t.source_y as nat)
        + seq!['_'] + dec_nat(t.width as nat) + seq!['x'] + dec_nat(t.height as nat)
}

/// A tile off the map grid that is not one cell of its tileset gets an image of its own
/// (when it has an area).
pub open spec fn needs_crop(t: TileData, infos: Seq<TilesetInfoView>, tile_size: u32) -> bool {
    &&& !grid_aligned(t, tile_size)
    &&& info_for(infos, t.background@) matches Some(info)
    &&& !matches_cell(t, info.geometry)
    &&& t.width > 0
    &&& t.height > 0
}

/// Index of the first of the first `n` cut images called `name`.
pub open spec fn source_index(srcs: Seq<SourceView>, name: Seq<char>, n: int) -> Option<int>
    decreases n,
{
    if n <= 0 {
        None
    } else {
        match source_index(srcs, name, n - 1) {
            Some(j) => Some(j),
            None => if srcs[n - 1].name == name {
                Some(n - 1)
            } else {
                None
            },
        }
    }
}

/// Images to cut for the free tiles among the first `n`, each once, in order of first use;
/// `None` when a source position does not fit 32 bits.
pub open spec fn spec_crop_sources(tiles: Seq<TileData>, infos: Seq<TilesetInfoView>, tile_size: u32, n: int) -> Option<
    Seq<SourceView>,
>
    decreases n,
{
    if n <= 0 {
        Some(seq![])
    } else {
        match spec_crop_sources(tiles, infos, tile_size, n - 1) {
            None => None,
            Some(srcs) => {
                let t = tiles[n - 1];
                if !needs_crop(t, infos, tile_size) || source_index(
                    srcs,
                    crop_name(t),
                    srcs.len() as int,
                ) is Some {
                    Some(srcs)
                } else {
                    let info = info_for(infos, t.background@)->0;
                    let x = info.source_x + t.source_x;
                    let y = info.source_y + t.source_y;
                    if x > u32::MAX || y > u32::MAX {
                        None
                    } else {
                        Some(
                            srcs.push(
                                SourceView {
                                    name: crop_name(t),
                                    texture_page_index: info.texture_page_index,
                                    source_x: x as u32,
                                    source_y: y as u32,
                                    source_width: t.width,
                                    source_height: t.height,
                                },
                            ),
                        )
                    }
                }
            },
        }
    }
}

fn is_grid_aligned(t: &TileData, tile_size: u32) -> (r: bool)
    requires
        tile_size > 0,
    ensures
        r == grid_aligned(*t, tile_size),
{
    t.width == tile_size && t.height == tile_size && t.x >= 0 && t.y >= 0 && (t.x as u32) % tile_size
        == 0 && (t.y as u32) % tile_size == 0
}

fn tile_matches_cell(t: &TileData, g: &Geometry) -> (r: bool)
    ensures
        r == matches_cell(*t, *g),
{
    if t.width != g.tile_width || t.height != g.tile_height || t.source_x < g.margin_x || t.source_y
        < g.margin_y {
        return false;
    }
    let cw: u64 = g.tile_width as u64 + g.spacing_x as u64;
    let ch: u64 = g.tile_height as u64 + g.spacing_y as u64;
    let cw1 = if cw < 1 { 1 } else { cw };
    let ch1 = if ch < 1 { 1 } else { ch };
    (t.source_x - g.margin_x) as u64 % cw1 == 0 && (t.source_y - g.margin_y) as u64 % ch1 == 0
}

fn crop_name_exec(t: &TileData) -> (r: String)
    ensures
        r@ == crop_name(*t),
{
    let mut s = t.background.clone();
    push_char(&mut s, '_');
    push_dec_u64(&mut s, t.source_x as u64);
    push_char(&mut s, '_');
    push_dec_u64(&mut s, t.source_y as u64);
    push_char(&mut s, '_');
    push_dec_u64(&mut s, t.width as u64);
    push_char(&mut s, 'x');
    push_dec_u64(&mut s, t.height as u64);
    assert(s@ =~= crop_name(*t));
    s
}

proof fn lemma_source_index_stays(srcs: Seq<SourceView>, name: Seq<char>, i: int, n: int)
    requires
        0 <= i <= n,
        source_index(srcs, name, i) is Some,
    ensures
        source_index(srcs, name, n) == source_index(srcs, name, i),
    decreases n - i,
{
    if n > i {
        lemma_source_index_stays(srcs, name, i, n - 1);
    }
}

proof fn lemma_source_index(srcs: Seq<SourceView>, name: Seq<char>, n: int)
    requires
        0 <= n <= srcs.len(),
    ensures
        source_index(srcs, name, n) matches Some(j) ==> 0 <= j < n && srcs[j].name == name,
    decreases n,
{
    if n > 0 {
        lemma_source_index(srcs, name, n - 1);
    }
}

/// Finds the cut image called `name`.
fn find_source(srcs: &Vec<SpriteSourceInfo>, name: &String) -> (r: Option<usize>)
    ensures
        r matches Some(j) ==> source_index(sources_view(srcs@), name@, srcs@.len() as int) == Some(j as int),
        r is None ==> source_index(sources_view(srcs@), name@, srcs@.len() as int) is None,
{
    let ghost v = sources_view(srcs@);
    let mut i: usize = 0;
    while i < srcs.len()
        invariant
            v == sources_view(srcs@),
            i <= srcs@.len(),
            source_index(v, name@, i as int) is None,
        decreases srcs.len() - i,
    {
        if srcs[i].name == *name {
            proof {
                lemma_source_index_stays(v, name@, i + 1, v.len() as int);
            }
            return Some(i);
        }
        i += 1;
    }
    None
}

proof fn lemma_crops_none_stays(tiles: Seq<TileData>, infos: Seq<TilesetInfoView>, tile_size: u32, i: int, n: int)
    requires
        0 <= i <= n,
        spec_crop_sources(tiles, infos, tile_size, i) is None,
    ensures
        spec_crop_sources(tiles, infos, tile_size, n) is None,
    decreases n - i,
{
    if n > i {
        lemma_crops_none_stays(tiles, infos, tile_size, i, n - 1);
    }
}

/// Images to cut for the room's free tiles.
fn collect_free_tile_sources(room: &RoomData, infos: &Vec<TilesetInfo>, tile_size: u32) -> (r: Option<
    Vec<SpriteSourceInfo>,
>)
    requires
        tile_size > 0,
    ensures
        r matches Some(srcs) ==> spec_crop_sources(
            room.tiles@,
            infos_view(infos@),
            tile_size,
            room.tiles@.len() as int,
        ) == Some(sources_view(srcs@)),
        r is None ==> spec_crop_sources(room.tiles@, infos_view(infos@), tile_size, room.tiles@.len() as int)
            is None,
{
    let ghost tiles = room.tiles@;
    let ghost iv = infos_view(infos@);
    let mut srcs: Vec<SpriteSourceInfo> = Vec::new();
    let mut i: usize = 0;
    while i < room.tiles.len()
        invariant
            tiles == room.tiles@,
            iv == infos_view(infos@),
            tile_size > 0,
            i <= tiles.len(),
            spec_crop_sources(tiles, iv, tile_size, i as int) == Some(sources_view(srcs@)),
        decreases tiles.len() - i,
    {
        let t = &room.tiles[i];
        if !is_grid_aligned(t, tile_size) && t.width > 0 && t.height > 0 {
            if let Some(info) = find_info(infos, &t.background) {
                if !tile_matches_cell(t, &info.geometry) {
                    let name = crop_name_exec(t);
                    if find_source(&srcs, &name).is_none() {
                        let x = match info.source_x.checked_add(t.source_x) {
                            Some(v) => v,
                            None => {
                                proof {
                                    lemma_crops_none_stays(tiles, iv, tile_size, i + 1, tiles.len() as int);
                                }
                                return None;
                            },
                        };
                        let y = match info.source_y.checked_add(t.source_y) {
                            Some(v) => v,
                            None => {
                                proof {
                                    lemma_crops_none_stays(tiles, iv, tile_size, i + 1, tiles.len() as int);
                                }
                                return None;
                            },
                        };
                        let ghost old_srcs = srcs@;
                        srcs.push(
                            SpriteSourceInfo {
                                name,
                                texture_page_index: info.texture_page_index,
                                source_x: x,
                                source_y: y,
                                source_width: t.width,
                                source_height: t.height,
                            },
                        );
                        assert(sources_view(srcs@) =~= sources_view(old_srcs).push(srcs@.last()@));
                    }
                }
            }
        }
        i += 1;
    }
    Some(srcs)
}

// ---------------------------------------------------------------------------------------------
// Depth order
// ---------------------------------------------------------------------------------------------

pub open spec fn strictly_desc(s: Seq<i32>) -> bool {
    forall|i: int, j: int| 0 <= i < j < s.len() ==> s[i] > s[j]
}

pub open spec fn same_members(a: Seq<i32>, b: Seq<i32>) -> bool {
    forall|x: i32| a.contains(x) <==> b.contains(x)
}

/// The distinct values of `values`, from the greatest down.
pub open spec fn depths_desc(values: Seq<i32>) -> Seq<i32> {
    choose|s: Seq<i32>| strictly_desc(s) && same_members(s, values)
}

/// Two decreasing sequences with the same members are equal.
pub proof fn lemma_desc_unique(a: Seq<i32>, b: Seq<i32>)
    requires
        strictly_desc(a),
        strictly_desc(b),
        same_members(a, b),
    ensures
        a == b,
    decreases a.len(),
{
    if a.len() == 0 {
        if b.len() > 0 {
            assert(b.contains(b[0]));
        }
        assert(a =~= b);
    } else {
        assert(a.contains(a[0]));
        assert(b.len() > 0);
        assert(b.contains(b[0]));
        let ja = choose|j: int| 0 <= j < b.len() && b[j] == a[0];
        let jb = choose|j: int| 0 <= j < a.len() && a[j] == b[0];
        assert(a[0] == b[0]) by {
            if ja > 0 {
                assert(b[0] > b[ja]);
            }
            if jb > 0 {
                assert(a[0] > a[jb]);
            }
        }
        let a1 = a.drop_first();
        let b1 = b.drop_first();
        assert forall|x: i32| a1.contains(x) implies b1.contains(x) by {
            let i = choose|i: int| 0 <= i < a1.len() && a1[i] == x;
            assert(a.contains(x) && a[i + 1] == x);
            let j = choose|j: int| 0 <= j < b.len() && b[j] == x;
            assert(j != 0);
            assert(b1[j - 1] == x);
        }
        assert forall|x: i32| b1.contains(x) implies a1.contains(x) by {
            let i = choose|i: int| 0 <= i < b1.len() && b1[i] == x;
            assert(b.contains(x) && b[i + 1] == x);
            let j = choose|j: int| 0 <= j < a.len() && a[j] == x;
            assert(j != 0);
            assert(a1[j - 1] == x);
        }
        lemma_desc_unique(a1, b1);
        assert(a =~= b) by {
            assert forall|i: int| 0 <= i < a.len() implies a[i] == b[i] by {
                if i > 0 {
                    assert(a[i] == a1[i - 1]);
                    assert(b[i] == b1[i - 1]);
                }
            }
        }
    }
}

/// The distinct values, from the greatest down.
pub fn sorted_distinct_desc(values: &Vec<i32>) -> (r: Vec<i32>)
    ensures
        r@ == depths_desc(values@),
        strictly_desc(r@),
        same_members(r@, values@),
{
    let mut out: Vec<i32> = Vec::new();
    let mut i: usize = 0;
    while i < values.len()
        invariant
            i <= values@.len(),
            strictly_desc(out@),
            same_members(out@, values@.subrange(0, i as int)),
        decreases values.len() - i,
    {
        let v = values[i];
        let mut p: usize = 0;
        while p < out.len() && out[p] > v
            invariant
                p <= out@.len(),
                forall|k: int| 0 <= k < p ==> out@[k] > v,
            decreases out.len() - p,
        {
            p += 1;
        }
        let ghost before = out@;
        let ghost prefix = values@.subrange(0, i as int);
        let ghost next_prefix = values@.subrange(0, i + 1);
        assert(next_prefix =~= prefix.push(v));
        if p < out.len() && out[p] == v {
            assert forall|x: i32| out@.contains(x) <==> next_prefix.contains(x) by {
                if next_prefix.contains(x) && x != v {
                    let j = choose|j: int| 0 <= j < next_prefix.len() && next_prefix[j] == x;
                    assert(prefix.contains(x) && prefix[j] == x);
                }
                if x == v {
                    assert(out@[p as int] == v);
                    assert(next_prefix[i as int] == v);
                }
                if out@.contains(x) {
                    assert(prefix.contains(x));
                    let j = choose|j: int| 0 <= j < prefix.len() && prefix[j] == x;
                    assert(next_prefix[j] == x);
                }
            }
        } else {
            out.insert(p, v);
            assert(out@ =~= before.insert(p as int, v));
            assert forall|a: int, b: int| 0 <= a < b < out@.len() implies out@[a] > out@[b] by {
                if a < p as int && b == p as int {
                } else if a == p as int && b > p as int {
                    assert(out@[b] == before[b - 1]);
                    if b - 1 > p as int {
                        assert(before[p as int] > before[b - 1]);
                    }
                } else if a < p as int && b > p as int {
                    assert(out@[b] == before[b - 1]);
                } else if a > p as int {
                    assert(out@[a] == before[a - 1] && out@[b] == before[b - 1]);
                }
            }
            assert forall|x: i32| out@.contains(x) <==> next_prefix.contains(x) by {
                if next_prefix.contains(x) {
                    let j = choose|j: int| 0 <= j < next_prefix.len() && next_prefix[j] == x;
                    if x == v {
                        assert(out@[p as int] == v);
                    } else {
                        assert(prefix[j] == x);
                        assert(prefix.contains(x));
                        assert(before.contains(x));
                        let k = choose|k: int| 0 <= k < before.len() && before[k] == x;
                        if k < p as int {
                            assert(out@[k] == x);
                        } else {
                            assert(out@[k + 1] == x);
                        }
                    }
                }
                if out@.contains(x) {
                    let k = choose|k: int| 0 <= k < out@.len() && out@[k] == x;
                    if k == p as int {
                        assert(next_prefix[i as int] == x);
                    } else {
                        let kb = if k < p as int { k } else { k - 1 };
                        assert(before[kb] == x);
                        assert(before.contains(x));
                        assert(prefix.contains(x));
                        let j = choose|j: int| 0 <= j < prefix.len() && prefix[j] == x;
                        assert(next_prefix[j] == x);
                    }
                }
            }
        }
        i += 1;
    }
    assert(values@.subrange(0, values@.len() as int) =~= values@);
    proof {
        let c = depths_desc(values@);
        assert(strictly_desc(out@) && same_members(out@, values@));
        lemma_desc_unique(c, out@);
    }
    out
}

// ---------------------------------------------------------------------------------------------
// GMS1 layers
// ---------------------------------------------------------------------------------------------

/// Grid cells of a tile layer for the grid-aligned tiles at `depth` among the first `n`:
/// each such tile sets its cell (later tiles over earlier ones); tiles outside the map are
/// dropped. `None` when a tile id does not fit 32 bits.
pub open spec fn gms1_data(
    tiles: Seq<TileData>,
    infos: Seq<TilesetInfoView>,
    map_w: u32,
    map_h: u32,
    tile_size: u32,
    depth: i32,
    n: int,
) -> Option<Seq<u32>>
    decreases n,
{
    if n <= 0 {
        Some(Seq::new((map_w * map_h) as nat, |i: int| 0u32))
    } else {
        match gms1_data(tiles, infos, map_w, map_h, tile_size, depth, n - 1) {
            None => None,
            Some(data) => {
                let t = tiles[n - 1];
                if t.depth == depth && grid_aligned(t, tile_size) && info_for(infos, t.background@) is Some {
                    let gid = tile_gid(t, info_for(infos, t.background@)->0);
                    let col = (t.x as int) / (tile_size as int);
                    let row = (t.y as int) / (tile_size as int);
                    if gid > u32::MAX {
                        None
                    } else if col < map_w && row < map_h {
                        Some(data.update(row * map_w + col, gid as u32))
                    } else {
                        Some(data)
                    }
                } else {
                    Some(data)
                }
            },
        }
    }
}

/// Global tile id of a free tile: its tileset cell (the cell at its source position) when it
/// is exactly that cell or has no area to cut, else its own cut image.
pub open spec fn free_tile_gid(t: TileData, info: TilesetInfoView, srcs: Seq<SourceView>, crop_base: u32) -> Option<int> {
    if matches_cell(t, info.geometry) || t.width == 0 || t.height == 0 {
        Some(tile_gid(t, info))
    } else {
        match source_index(srcs, crop_name(t), srcs.len() as int) {
            Some(j) => Some(crop_base + j),
            None => None,
        }
    }
}

/// Tile objects for the free tiles at `depth` among the first `n`, with ids from `first_id`
/// on, and the next free object id. `None` when an id does not fit 32 bits.
pub open spec fn gms1_free_objects(
    tiles: Seq<TileData>,
    infos: Seq<TilesetInfoView>,
    srcs: Seq<SourceView>,
    crop_base: u32,
    tile_size: u32,
    depth: i32,
    first_id: u32,
    n: int,
) -> Option<(Seq<MapObjectView>, u32)>
    decreases n,
{
    if n <= 0 {
        Some((seq![], first_id))
    } else {
        match gms1_free_objects(tiles, infos, srcs, crop_base, tile_size, depth, first_id, n - 1) {
            None => None,
            Some((objs, oid)) => {
                let t = tiles[n - 1];
                if t.depth == depth && !grid_aligned(t, tile_size) && info_for(infos, t.background@) is Some {
                    match free_tile_gid(t, info_for(infos, t.background@)->0, srcs, crop_base) {
                        None => Some((objs, oid)),
                        Some(gid) => if gid > u32::MAX || oid == u32::MAX {
                            None
                        } else {
                            Some(
                                (
                                    objs.push(
                                        MapObjectView::TileObject(
                                            TileObjectData {
                                                id: oid,
                                                gid: gid as u32,
                                                x: t.x as i64,
                                                y: (t.y + t.height) as i64,
                                                width: t.width as i64,
                                                height: t.height as i64,
                                            },
                                        ),
                                    ),
                                    (oid + 1) as u32,
                                ),
                            )
                        },
                    }
                } else {
                    Some((objs, oid))
                }
            },
        }
    }
}

pub open spec fn has_grid_tile(tiles: Seq<TileData>, tile_size: u32, depth: i32) -> bool {
    exists|i: int| 0 <= i < tiles.len() && tiles[i].depth == depth && grid_aligned(tiles[i], tile_size)
}

pub open spec fn has_free_tile(tiles: Seq<TileData>, tile_size: u32, depth: i32) -> bool {
    exists|i: int| 0 <= i < tiles.len() && tiles[i].depth == depth && !grid_aligned(tiles[i], tile_size)
}

/// Everything a GMS1 layer is built from.
pub struct Gms1Ctx {
    pub tiles: Seq<TileData>,
    pub infos: Seq<TilesetInfoView>,
    pub srcs: Seq<SourceView>,
    pub crop_base: u32,
    pub map_w: u32,
    pub map_h: u32,
    pub tile_size: u32,
}

/// Layers for the tiles of one depth: a tile layer `depth_<d>` for its grid-aligned tiles
/// and an object layer `depth_<d>_tiles` for the others, each only when there are such
/// tiles; with the next free layer and object ids.
pub open spec fn gms1_depth_layers(ctx: Gms1Ctx, depth: i32, lid: u32, oid: u32) -> Option<(Seq<LayerView>, u32, u32)> {
    let grid_part: Option<(Seq<LayerView>, u32)> = if has_grid_tile(ctx.tiles, ctx.tile_size, depth) {
        if ctx.map_w * ctx.map_h > u32::MAX || lid == u32::MAX {
            None
        } else {
            match gms1_data(
                ctx.tiles,
                ctx.infos,
                ctx.map_w,
                ctx.map_h,
                ctx.tile_size,
                depth,
                ctx.tiles.len() as int,
            ) {
                None => None,
                Some(data) => Some(
                    (
                        seq![
                            LayerView::Tile(
                                TileLayerView {
                                    id: lid,
                                    name: "depth_"@ + dec_int(depth as int),
                                    width: ctx.map_w,
                                    height: ctx.map_h,
                                    data,
                                },
                            ),
                        ],
                        (lid + 1) as u32,
                    ),
                ),
            }
        }
    } else {
        Some((seq![], lid))
    };
    match grid_part {
        None => None,
        Some((layers, lid2)) => if has_free_tile(ctx.tiles, ctx.tile_size, depth) {
            match gms1_free_objects(
                ctx.tiles,
                ctx.infos,
                ctx.srcs,
                ctx.crop_base,
                ctx.tile_size,
                depth,
                oid,
                ctx.tiles.len() as int,
            ) {
                None => None,
                Some((objs, oid2)) => if lid2 == u32::MAX {
                    None
                } else {
                    Some(
                        (
                            layers.push(
                                LayerView::Object(
                                    ObjectLayerView {
                                        id: lid2,
                                        name: "depth_"@ + dec_int(depth as int) + "_tiles"@,
                                        objects: objs,
                                    },
                                ),
                            ),
                            (lid2 + 1) as u32,
                            oid2,
                        ),
                    )
                },
            }
        } else {
            Some((layers, lid2, oid))
        },
    }
}

/// Layers for the first `k` depths of the GMS1 tiles, greatest depth first.
pub open spec fn gms1_layers(ctx: Gms1Ctx, depths: Seq<i32>, k: int, lid: u32, oid: u32) -> Option<
    (Seq<LayerView>, u32, u32),
>
    decreases k,
{
    if k <= 0 {
        Some((seq![], lid, oid))
    } else {
        match gms1_layers(ctx, depths, k - 1, lid, oid) {
            None => None,
            Some((layers, l, o)) => match gms1_depth_layers(ctx, depths[k - 1], l, o) {
                None => None,
                Some((more, l2, o2)) => Some((layers + more, l2, o2)),
            },
        }
    }
}

proof fn lemma_gms1_data_none_stays(
    tiles: Seq<TileData>,
    infos: Seq<TilesetInfoView>,
    map_w: u32,
    map_h: u32,
    tile_size: u32,
    depth: i32,
    i: int,
    n: int,
)
    requires
        0 <= i <= n,
        gms1_data(tiles, infos, map_w, map_h, tile_size, depth, i) is None,
    ensures
        gms1_data(tiles, infos, map_w, map_h, tile_size, depth, n) is None,
    decreases n - i,
{
    if n > i {
        lemma_gms1_data_none_stays(tiles, infos, map_w, map_h, tile_size, depth, i, n - 1);
    }
}

proof fn lemma_gms1_data_len(
    tiles: Seq<TileData>,
    infos: Seq<TilesetInfoView>,
    map_w: u32,
    map_h: u32,
    tile_size: u32,
    depth: i32,
    n: int,
)
    requires
        tile_size > 0,
    ensures
        gms1_data(tiles, infos, map_w, map_h, tile_size, depth, n) matches Some(d) ==> d.len() == map_w
            * map_h,
    decreases n,
{
    if n > 0 {
        lemma_gms1_data_len(tiles, infos, map_w, map_h, tile_size, depth, n - 1);
        let t = tiles[n - 1];
        if t.depth == depth && grid_aligned(t, tile_size) {
            let col = (t.x as int) / (tile_size as int);
            let row = (t.y as int) / (tile_size as int);
            if col < map_w && row < map_h {
                assert(0 <= col && 0 <= row) by (nonlinear_arith)
                    requires
                        col == (t.x as int) / (tile_size as int),
                        row == (t.y as int) / (tile_size as int),
                        t.x >= 0,
                        t.y >= 0,
                        tile_size > 0,
                ;
                assert(row * map_w + col < map_w * map_h) by (nonlinear_arith)
                    requires
                        0 <= col < map_w,
                        0 <= row < map_h,
                ;
            }
        }
    } else {
        assert(map_w * map_h >= 0) by (nonlinear_arith);
    }
}

/// Global tile id of the tileset cell a tile is drawn from; `None` above 32 bits.
fn tile_gid_exec(t: &TileData, info: &TilesetInfo) -> (r: Option<u32>)
    ensures
        r matches Some(g) ==> tile_gid(*t, info@) == g,
        r is None ==> tile_gid(*t, info@) > u32::MAX,
{
    let g = info.geometry;
    let cw: u64 = g.tile_width as u64 + g.spacing_x as u64;
    let ch: u64 = g.tile_height as u64 + g.spacing_y as u64;
    let cw1 = if cw < 1 { 1 } else { cw };
    let ch1 = if ch < 1 { 1 } else { ch };
    let col: u64 = if t.source_x >= g.margin_x {
        (t.source_x - g.margin_x) as u64 / cw1
    } else {
        0
    };
    let row: u64 = if t.source_y >= g.margin_y {
        (t.source_y - g.margin_y) as u64 / ch1
    } else {
        0
    };
    assert(col <= u32::MAX && row <= u32::MAX) by {
        assert(((t.source_x - g.margin_x) as u64) / cw1 <= (t.source_x - g.margin_x) as u64) by (nonlinear_arith)
            requires
                cw1 >= 1,
        ;
        assert(((t.source_y - g.margin_y) as u64) / ch1 <= (t.source_y - g.margin_y) as u64) by (nonlinear_arith)
            requires
                ch1 >= 1,
        ;
    }
    let r128: u128 = row as u128;
    let c128: u128 = g.columns as u128;
    assert(r128 * c128 <= u64::MAX) by (nonlinear_arith)
        requires
            r128 <= u32::MAX,
            c128 <= u32::MAX,
    ;
    let prod: u128 = r128 * c128;
    let total: u128 = info.first_gid as u128 + prod + col as u128;
    if total > u32::MAX as u128 {
        None
    } else {
        Some(total as u32)
    }
}

/// A tile layer for the grid-aligned tiles at `depth`.
fn build_tile_layer_gms1(
    room: &RoomData,
    infos: &Vec<TilesetInfo>,
    map_w: u32,
    map_h: u32,
    tile_size: u32,
    depth: i32,
) -> (r: Option<Vec<u32>>)
    requires
        tile_size > 0,
        map_w * map_h <= u32::MAX,
    ensures
        r matches Some(d) ==> gms1_data(
            room.tiles@,
            infos_view(infos@),
            map_w,
            map_h,
            tile_size,
            depth,
            room.tiles@.len() as int,
        ) == Some(d@),
        r is None ==> gms1_data(
            room.tiles@,
            infos_view(infos@),
            map_w,
            map_h,
            tile_size,
            depth,
            room.tiles@.len() as int,
        ) is None,
{
    let ghost tiles = room.tiles@;
    let ghost iv = infos_view(infos@);
    let size = map_w * map_h;
    let mut data: Vec<u32> = Vec::new();
    let mut k: u32 = 0;
    while k < size
        invariant
            k <= size,
            data@ == Seq::new(k as nat, |i: int| 0u32),
        decreases size - k,
    {
        data.push(0);
        assert(data@ =~= Seq::new((k + 1) as nat, |i: int| 0u32));
        k += 1;
    }
    assert(data@ =~= Seq::new((map_w * map_h) as nat, |i: int| 0u32));
    let mut i: usize = 0;
    while i < room.tiles.len()
        invariant
            tiles == room.tiles@,
            iv == infos_view(infos@),
            tile_size > 0,
            map_w * map_h <= u32::MAX,
            i <= tiles.len(),
            gms1_data(tiles, iv, map_w, map_h, tile_size, depth, i as int) == Some(data@),
            data@.len() == map_w * map_h,
        decreases tiles.len() - i,
    {
        let t = &room.tiles[i];
        if t.depth == depth && is_grid_aligned(t, tile_size) {
            if let Some(info) = find_info(infos, &t.background) {
                let gid = match tile_gid_exec(t, info) {
                    Some(g) => g,
                    None => {
                        proof {
                            lemma_gms1_data_none_stays(tiles, iv, map_w, map_h, tile_size, depth, i + 1, tiles.len() as int);
                        }
                        return None;
                    },
                };
                let col = (t.x as u32) / tile_size;
                let row = (t.y as u32) / tile_size;
                if col < map_w && row < map_h {
                    assert(row * map_w + col < map_w * map_h) by (nonlinear_arith)
                        requires
                            col < map_w,
                            row < map_h,
                    ;
                    data.set((row * map_w + col) as usize, gid);
                }
            }
        }
        i += 1;
    }
    Some(data)
}

proof fn lemma_free_objects_none_stays(
    tiles: Seq<TileData>,
    infos: Seq<TilesetInfoView>,
    srcs: Seq<SourceView>,
    crop_base: u32,
    tile_size: u32,
    depth: i32,
    first_id: u32,
    i: int,
    n: int,
)
    requires
        0 <= i <= n,
        gms1_free_objects(tiles, infos, srcs, crop_base, tile_size, depth, first_id, i) is None,
    ensures
        gms1_free_objects(tiles, infos, srcs, crop_base, tile_size, depth, first_id, n) is None,
    decreases n - i,
{
    if n > i {
        lemma_free_objects_none_stays(tiles, infos, srcs, crop_base, tile_size, depth, first_id, i, n - 1);
    }
}

/// Tile objects for the free tiles at `depth`, and the next free object id.
fn build_object_layer_tiles(
    room: &RoomData,
    infos: &Vec<TilesetInfo>,
    srcs: &Vec<SpriteSourceInfo>,
    crop_base: u32,
    tile_size: u32,
    depth: i32,
    first_id: u32,
) -> (r: Option<(Vec<MapObject>, u32)>)
    requires
        tile_size > 0,
    ensures
        r matches Some((objs, next)) ==> gms1_free_objects(
            room.tiles@,
            infos_view(infos@),
            sources_view(srcs@),
            crop_base,
            tile_size,
            depth,
            first_id,
            room.tiles@.len() as int,
        ) == Some((objects_view(objs@), next)),
        r is None ==> gms1_free_objects(
            room.tiles@,
            infos_view(infos@),
            sources_view(srcs@),
            crop_base,
            tile_size,
            depth,
            first_id,
            room.tiles@.len() as int,
        ) is None,
{
    let ghost tiles = room.tiles@;
    let ghost iv = infos_view(infos@);
    let ghost sv = sources_view(srcs@);
    let mut objects: Vec<MapObject> = Vec::new();
    let mut oid = first_id;
    let mut i: usize = 0;
    while i < room.tiles.len()
        invariant
            tiles == room.tiles@,
            iv == infos_view(infos@),
            sv == sources_view(srcs@),
            tile_size > 0,
            i <= tiles.len(),
            gms1_free_objects(tiles, iv, sv, crop_base, tile_size, depth, first_id, i as int) == Some(
                (objects_view(objects@), oid),
            ),
        decreases tiles.len() - i,
    {
        let t = &room.tiles[i];
        if t.depth == depth && !is_grid_aligned(t, tile_size) {
            if let Some(info) = find_info(infos, &t.background) {
                let gid: Option<u32> = if tile_matches_cell(t, &info.geometry) || t.width == 0 || t.height == 0 {
                    match tile_gid_exec(t, info) {
                        Some(g) => Some(g),
                        None => {
                            proof {
                                lemma_free_objects_none_stays(
                                    tiles,
                                    iv,
                                    sv,
                                    crop_base,
                                    tile_size,
                                    depth,
                                    first_id,
                                    i + 1,
                                    tiles.len() as int,
                                );
                            }
                            return None;
                        },
                    }
                } else {
                    let name = crop_name_exec(t);
                    match find_source(srcs, &name) {
                        Some(j) => {
                            if j as u64 > (u32::MAX - crop_base) as u64 {
                                proof {
                                    lemma_free_objects_none_stays(
                                        tiles,
                                        iv,
                                        sv,
                                        crop_base,
                                        tile_size,
                                        depth,
                                        first_id,
                                        i + 1,
                                        tiles.len() as int,
                                    );
                                }
                                return None;
                            }
                            Some(crop_base + j as u32)
                        },
                        None => None,
                    }
                };
                if let Some(g) = gid {
                    if oid == u32::MAX {
                        proof {
                            lemma_free_objects_none_stays(
                                tiles,
                                iv,
                                sv,
                                crop_base,
                                tile_size,
                                depth,
                                first_id,
                                i + 1,
                                tiles.len() as int,
                            );
                        }
                        return None;
                    }
                    let ghost old_objects = objects@;
                    objects.push(
                        MapObject::TileObject(
                            TileObjectData {
                                id: oid,
                                gid: g,
                                x: t.x as i64,
                                y: t.y as i64 + t.height as i64,
                                width: t.width as i64,
                                height: t.height as i64,
                            },
                        ),
                    );
                    assert(objects_view(objects@) =~= objects_view(old_objects).push(objects@.last()@));
                    oid = oid + 1;
                }
            }
        }
        i += 1;
    }
    Some((objects, oid))
}

pub open spec fn tile_depths(tiles: Seq<TileData>) -> Seq<i32> {
    tiles.map_values(|t: TileData| t.depth)
}

pub(crate) fn collect_tile_depths(room: &RoomData) -> (r: Vec<i32>)
    ensures
        r@ == tile_depths(room.tiles@),
{
    let mut v: Vec<i32> = Vec::new();
    let mut i: usize = 0;
    while i < room.tiles.len()
        invariant
            i <= room.tiles@.len(),
            v@ == tile_depths(room.tiles@.subrange(0, i as int)),
        decreases room.tiles.len() - i,
    {
        v.push(room.tiles[i].depth);
        assert(tile_depths(room.tiles@.subrange(0, i + 1)) =~= tile_depths(room.tiles@.subrange(0, i as int)).push(
            room.tiles@[i as int].depth,
        ));
        i += 1;
    }
    assert(room.tiles@.subrange(0, room.tiles@.len() as int) =~= room.tiles@);
    v
}

fn depth_has_tiles(room: &RoomData, tile_size: u32, depth: i32, grid: bool) -> (r: bool)
    requires
        tile_size > 0,
    ensures
        grid ==> r == has_grid_tile(room.tiles@, tile_size, depth),
        !grid ==> r == has_free_tile(room.tiles@, tile_size, depth),
{
    let mut i: usize = 0;
    while i < room.tiles.len()
        invariant
            tile_size > 0,
            i <= room.tiles@.len(),
            forall|j: int|
                0 <= j < i ==> !(room.tiles@[j].depth == depth && grid_aligned(room.tiles@[j], tile_size)
                    == grid),
        decreases room.tiles.len() - i,
    {
        let t = &room.tiles[i];
        if t.depth == depth && is_grid_aligned(t, tile_size) == grid {
            return true;
        }
        i += 1;
    }
    false
}

fn depth_layer_name(depth: i32, free: bool) -> (r: String)
    ensures
        !free ==> r@ == "depth_"@ + dec_int(depth as int),
        free ==> r@ == "depth_"@ + dec_int(depth as int) + "_tiles"@,
{
    let mut s = String::new();
    s.append("depth_");
    push_dec_i64(&mut s, depth as i64);
    if free {
        s.append("_tiles");
    }
    assert(!free ==> s@ =~= "depth_"@ + dec_int(depth as int));
    assert(free ==> s@ =~= "depth_"@ + dec_int(depth as int) + "_tiles"@);
    s
}

pub open spec fn gms1_ctx(
    room: RoomData,
    infos: Seq<TilesetInfoView>,
    srcs: Seq<SourceView>,
    crop_base: u32,
    map_w: u32,
    map_h: u32,
    tile_size: u32,
) -> Gms1Ctx {
    Gms1Ctx { tiles: room.tiles@, infos, srcs, crop_base, map_w, map_h, tile_size }
}

/// Layers for the tiles of one depth, with the next free layer and object ids.
fn build_depth_layers(
    room: &RoomData,
    infos: &Vec<TilesetInfo>,
    srcs: &Vec<SpriteSourceInfo>,
    crop_base: u32,
    map_w: u32,
    map_h: u32,
    tile_size: u32,
    depth: i32,
    lid: u32,
    oid: u32,
) -> (r: Option<(Vec<Layer>, u32, u32)>)
    requires
        tile_size > 0,
    ensures
        ({
            let ctx = gms1_ctx(*room, infos_view(infos@), sources_view(srcs@), crop_base, map_w, map_h, tile_size);
            &&& r matches Some((layers, l, o)) ==> gms1_depth_layers(ctx, depth, lid, oid) == Some(
                (crate::model::layers_view(layers@), l, o),
            )
            &&& r is None ==> gms1_depth_layers(ctx, depth, lid, oid) is None
        }),
{
    let mut layers: Vec<Layer> = Vec::new();
    let mut l = lid;
    if depth_has_tiles(room, tile_size, depth, true) {
        if map_w.checked_mul(map_h).is_none() || l == u32::MAX {
            return None;
        }
        let data = match build_tile_layer_gms1(room, infos, map_w, map_h, tile_size, depth) {
            Some(d) => d,
            None => return None,
        };
        layers.push(
            Layer::Tile(
                TileLayer {
                    id: l,
                    name: depth_layer_name(depth, false),
                    width: map_w,
                    height: map_h,
                    data,
                },
            ),
        );
        l = l + 1;
    }
    let ghost grid_layers = crate::model::layers_view(layers@);
    assert(layers@.len() == 0 ==> grid_layers =~= seq![]);
    assert(layers@.len() == 1 ==> grid_layers =~= seq![layers@[0]@]);
    let mut o = oid;
    if depth_has_tiles(room, tile_size, depth, false) {
        let (objects, next) = match build_object_layer_tiles(room, infos, srcs, crop_base, tile_size, depth, oid) {
            Some(v) => v,
            None => return None,
        };
        if l == u32::MAX {
            return None;
        }
        layers.push(Layer::Object(ObjectLayer { id: l, name: depth_layer_name(depth, true), objects }));
        assert(crate::model::layers_view(layers@) =~= grid_layers.push(layers@.last()@));
        l = l + 1;
        o = next;
    }
    Some((layers, l, o))
}

/// Layers for the room's GMS1 tiles, greatest depth first, with the next free ids.
fn build_gms1_layers(
    room: &RoomData,
    infos: &Vec<TilesetInfo>,
    srcs: &Vec<SpriteSourceInfo>,
    crop_base: u32,
    map_w: u32,
    map_h: u32,
    tile_size: u32,
    lid: u32,
    oid: u32,
) -> (r: Option<(Vec<Layer>, u32, u32)>)
    requires
        tile_size > 0,
    ensures
        ({
            let ctx = gms1_ctx(*room, infos_view(infos@), sources_view(srcs@), crop_base, map_w, map_h, tile_size);
            let depths = depths_desc(tile_depths(room.tiles@));
            &&& r matches Some((layers, l, o)) ==> gms1_layers(ctx, depths, depths.len() as int, lid, oid) == Some(
                (crate::model::layers_view(layers@), l, o),
            )
            &&& r is None ==> gms1_layers(ctx, depths, depths.len() as int, lid, oid) is None
        }),
{
    let ghost ctx = gms1_ctx(*room, infos_view(infos@), sources_view(srcs@), crop_base, map_w, map_h, tile_size);
    let all_depths = collect_tile_depths(room);
    let depths = sorted_distinct_desc(&all_depths);
    let mut layers: Vec<Layer> = Vec::new();
    let mut l = lid;
    let mut o = oid;
    let mut k: usize = 0;
    assert(crate::model::layers_view(layers@) =~= seq![]);
    while k < depths.len()
        invariant
            tile_size > 0,
            ctx == gms1_ctx(*room, infos_view(infos@), sources_view(srcs@), crop_base, map_w, map_h, tile_size),
            k <= depths@.len(),
            depths@ == depths_desc(tile_depths(room.tiles@)),
            gms1_layers(ctx, depths@, k as int, lid, oid) == Some((crate::model::layers_view(layers@), l, o)),
        decreases depths.len() - k,
    {
        let (more, l2, o2) = match build_depth_layers(
            room,
            infos,
            srcs,
            crop_base,
            map_w,
            map_h,
            tile_size,
            depths[k],
            l,
            o,
        ) {
            Some(v) => v,
            None => {
                assert(gms1_depth_layers(ctx, depths@[k as int], l, o) is None);
                assert(gms1_layers(ctx, depths@, k + 1, lid, oid) is None);
                proof {
                    lemma_gms1_layers_none_stays(ctx, depths@, k + 1, depths@.len() as int, lid, oid);
                }
                return None;
            },
        };
        let ghost before = crate::model::layers_view(layers@);
        let mut more = more;
        let ghost more_view = crate::model::layers_view(more@);
        layers.append(&mut more);
        assert(crate::model::layers_view(layers@) =~= before + more_view);
        l = l2;
        o = o2;
        k += 1;
    }
    Some((layers, l, o))
}

proof fn lemma_gms1_layers_none_stays(ctx: Gms1Ctx, depths: Seq<i32>, i: int, n: int, lid: u32, oid: u32)
    requires
        0 <= i <= n,
        gms1_layers(ctx, depths, i, lid, oid) is None,
    ensures
        gms1_layers(ctx, depths, n, lid, oid) is None,
    decreases n - i,
{
    if n > i {
        lemma_gms1_layers_none_stays(ctx, depths, i, n - 1, lid, oid);
    }
}

// ---------------------------------------------------------------------------------------------
// GMS2 layers
// ---------------------------------------------------------------------------------------------

/// Global tile id, with Tiled transform bits, of a GMS2 tile word in a tileset starting at
/// `first`; `None` when the id does not fit 32 bits.
pub open spec fn gms2_gid(raw: u32, first: u32) -> Option<u32> {
    if first + raw % 0x8_0000 > u32::MAX {
        None
    } else {
        Some(((first + raw % 0x8_0000) as u32) | spec_transform_flags(raw))
    }
}

/// Cells of a tile layer after the first `c` words of row `r` (of width `w`); zero words
/// leave their cell empty, words outside the layer are dropped.
pub open spec fn gms2_row_data(data: Seq<u32>, row: Seq<u32>, r: int, w: u32, first: u32, c: int) -> Option<Seq<u32>>
    decreases c,
{
    if c <= 0 {
        Some(data)
    } else {
        match gms2_row_data(data, row, r, w, first, c - 1) {
            None => None,
            Some(d) => {
                let raw = row[c - 1];
                if raw == 0 {
                    Some(d)
                } else {
                    match gms2_gid(raw, first) {
                        None => None,
                        Some(gid) => {
                            let pos = r * w + (c - 1);
                            if pos < d.len() {
                                Some(d.update(pos, gid))
                            } else {
                                Some(d)
                            }
                        },
                    }
                }
            },
        }
    }
}

/// Cells of the tile layer for the first `r` rows of a GMS2 layer.
pub open spec fn gms2_data(layer: Gms2TileLayer, first: u32, r: int) -> Option<Seq<u32>>
    decreases r,
{
    if r <= 0 {
        Some(Seq::new((layer.tiles_x * layer.tiles_y) as nat, |i: int| 0u32))
    } else {
        match gms2_data(layer, first, r - 1) {
            None => None,
            Some(d) => {
                let row = layer.tile_data@[r - 1]@;
                gms2_row_data(d, row, r - 1, layer.tiles_x, first, row.len() as int)
            },
        }
    }
}

/// Tile objects after the first `c` words of row `r`, for a tileset whose tiles are
/// `g.tile_width` x `g.tile_height`: one per non-zero word, at the bottom-left corner of its
/// cell; with the next free object id.
pub open spec fn gms2_row_objects(
    acc: Seq<MapObjectView>,
    oid: u32,
    row: Seq<u32>,
    r: int,
    g: Geometry,
    first: u32,
    c: int,
) -> Option<(Seq<MapObjectView>, u32)>
    decreases c,
{
    if c <= 0 {
        Some((acc, oid))
    } else {
        match gms2_row_objects(acc, oid, row, r, g, first, c - 1) {
            None => None,
            Some((objs, o)) => {
                let raw = row[c - 1];
                if raw == 0 {
                    Some((objs, o))
                } else {
                    let x = (c - 1) * g.tile_width;
                    let y = r * g.tile_height + g.tile_height;
                    match gms2_gid(raw, first) {
                        None => None,
                        Some(gid) => if o == u32::MAX || x > i64::MAX || y > i64::MAX {
                            None
                        } else {
                            Some(
                                (
                                    objs.push(
                                        MapObjectView::TileObject(
                                            TileObjectData {
                                                id: o,
                                                gid,
                                                x: x as i64,
                                                y: y as i64,
                                                width: g.tile_width as i64,
                                                height: g.tile_height as i64,
                                            },
                                        ),
                                    ),
                                    (o + 1) as u32,
                                ),
                            )
                        },
                    }
                }
            },
        }
    }
}

/// Tile objects for the first `r` rows of a GMS2 layer, with the next free object id.
pub open spec fn gms2_objects(layer: Gms2TileLayer, info: TilesetInfoView, oid: u32, r: int) -> Option<
    (Seq<MapObjectView>, u32),
>
    decreases r,
{
    if r <= 0 {
        Some((seq![], oid))
    } else {
        match gms2_objects(layer, info, oid, r - 1) {
            None => None,
            Some((objs, o)) => {
                let row = layer.tile_data@[r - 1]@;
                gms2_row_objects(objs, o, row, r - 1, info.geometry, info.first_gid, row.len() as int)
            },
        }
    }
}

/// The layer for one GMS2 layer (none when it names no background): a tile layer when its
/// tiles are map cells, else an object layer `<name>_objects` of tile objects.
pub open spec fn gms2_layer_step(
    layer: Gms2TileLayer,
    infos: Seq<TilesetInfoView>,
    tile_size: u32,
    lid: u32,
    oid: u32,
) -> Result<Option<(LayerView, u32, u32)>, ConvertErrorView> {
    if layer.background@.len() == 0 {
        Ok(None)
    } else {
        match info_for(infos, layer.background@) {
            None => Err(ConvertErrorView::MissingTileset(layer.background@)),
            Some(info) => if info.geometry.tile_width == tile_size && info.geometry.tile_height == tile_size {
                if layer.tiles_x * layer.tiles_y > u32::MAX || lid == u32::MAX {
                    Err(ConvertErrorView::Overflow)
                } else {
                    match gms2_data(layer, info.first_gid, layer.tile_data@.len() as int) {
                        None => Err(ConvertErrorView::Overflow),
                        Some(data) => Ok(
                            Some(
                                (
                                    LayerView::Tile(
                                        TileLayerView {
                                            id: lid,
                                            name: layer.name@,
                                            width: layer.tiles_x,
                                            height: layer.tiles_y,
                                            data,
                                        },
                                    ),
                                    (lid + 1) as u32,
                                    oid,
                                ),
                            ),
                        ),
                    }
                }
            } else {
                match gms2_objects(layer, info, oid, layer.tile_data@.len() as int) {
                    None => Err(ConvertErrorView::Overflow),
                    Some((objs, o)) => if lid == u32::MAX {
                        Err(ConvertErrorView::Overflow)
                    } else {
                        Ok(
                            Some(
                                (
                                    LayerView::Object(
                                        ObjectLayerView {
                                            id: lid,
                                            name: layer.name@ + "_objects"@,
                                            objects: objs,
                                        },
                                    ),
                                    (lid + 1) as u32,
                                    o,
                                ),
                            ),
                        )
                    },
                }
            },
        }
    }
}

/// Layers for the GMS2 layers at positions `order`, in that order, with the next free ids.
pub open spec fn gms2_layers(
    layers: Seq<Gms2TileLayer>,
    order: Seq<int>,
    infos: Seq<TilesetInfoView>,
    tile_size: u32,
    lid: u32,
    oid: u32,
) -> Result<(Seq<LayerView>, u32, u32), ConvertErrorView>
    decreases order.len(),
{
    if order.len() == 0 {
        Ok((seq![], lid, oid))
    } else {
        match gms2_layers(layers, order.drop_last(), infos, tile_size, lid, oid) {
            Err(e) => Err(e),
            Ok((out, l, o)) => match gms2_layer_step(layers[order.last()], infos, tile_size, l, o) {
                Err(e) => Err(e),
                Ok(None) => Ok((out, l, o)),
                Ok(Some((lv, l2, o2))) => Ok((out.push(lv), l2, o2)),
            },
        }
    }
}

pub open spec fn layer_depths(layers: Seq<Gms2TileLayer>) -> Seq<i32> {
    layers.map_values(|l: Gms2TileLayer| l.depth)
}

/// Positions of the first `n` layers that lie at `depth`.
pub open spec fn indices_at_depth(layers: Seq<Gms2TileLayer>, depth: i32, n: int) -> Seq<int>
    decreases n,
{
    if n <= 0 {
        seq![]
    } else if layers[n - 1].depth == depth {
        indices_at_depth(layers, depth, n - 1).push(n - 1)
    } else {
        indices_at_depth(layers, depth, n - 1)
    }
}

/// Positions of the layers at the first `k` depths: greatest depth first, in list order
/// within a depth.
pub open spec fn depth_order(layers: Seq<Gms2TileLayer>, depths: Seq<i32>, k: int) -> Seq<int>
    decreases k,
{
    if k <= 0 {
        seq![]
    } else {
        depth_order(layers, depths, k - 1) + indices_at_depth(layers, depths[k - 1], layers.len() as int)
    }
}

/// The order in which GMS2 layers become map layers: greatest depth first, in list order
/// within a depth.
pub open spec fn gms2_order(layers: Seq<Gms2TileLayer>) -> Seq<int> {
    let depths = depths_desc(layer_depths(layers));
    depth_order(layers, depths, depths.len() as int)
}

fn gms2_gid_exec(raw: u32, first: u32) -> (r: Option<u32>)
    ensures
        r == gms2_gid(raw, first),
{
    if raw % 0x8_0000 > u32::MAX - first {
        None
    } else {
        Some(gms2_raw_to_tiled_gid(raw, first))
    }
}

/// Cells of the tile layer for a GMS2 layer whose tiles are map cells.
fn build_gms2_tile_data(layer: &Gms2TileLayer, first: u32) -> (r: Option<Vec<u32>>)
    requires
        layer.tiles_x * layer.tiles_y <= u32::MAX,
    ensures
        r matches Some(d) ==> gms2_data(*layer, first, layer.tile_data@.len() as int) == Some(d@),
        r is None ==> gms2_data(*layer, first, layer.tile_data@.len() as int) is None,
{
    let size = layer.tiles_x * layer.tiles_y;
    let w = layer.tiles_x;
    let mut data: Vec<u32> = Vec::new();
    let mut k: u32 = 0;
    while k < size
        invariant
            k <= size,
            data@ == Seq::new(k as nat, |i: int| 0u32),
        decreases size - k,
    {
        data.push(0);
        assert(data@ =~= Seq::new((k + 1) as nat, |i: int| 0u32));
        k += 1;
    }
    assert(data@ =~= Seq::new((layer.tiles_x * layer.tiles_y) as nat, |i: int| 0u32));
    let mut r: usize = 0;
    while r < layer.tile_data.len()
        invariant
            w == layer.tiles_x,
            r <= layer.tile_data@.len(),
            gms2_data(*layer, first, r as int) == Some(data@),
        decreases layer.tile_data.len() - r,
    {
        let row = &layer.tile_data[r];
        let ghost start = data@;
        let mut c: usize = 0;
        while c < row.len()
            invariant
                w == layer.tiles_x,
                r < layer.tile_data@.len(),
                gms2_data(*layer, first, r as int) == Some(start),
                row@ == layer.tile_data@[r as int]@,
                c <= row@.len(),
                gms2_row_data(start, row@, r as int, w, first, c as int) == Some(data@),
            decreases row.len() - c,
        {
            let raw = row[c];
            if raw != 0 {
                let gid = match gms2_gid_exec(raw, first) {
                    Some(g) => g,
                    None => {
                        proof {
                            lemma_row_data_none_stays(start, row@, r as int, w, first, c + 1, row@.len() as int);
                            lemma_gms2_data_none_stays(*layer, first, r + 1, layer.tile_data@.len() as int);
                        }
                        return None;
                    },
                };
                let r128 = r as u128;
                let w128 = w as u128;
                assert(r128 * w128 <= u64::MAX * u32::MAX) by (nonlinear_arith)
                    requires
                        r128 <= u64::MAX,
                        w128 <= u32::MAX,
                ;
                let pos: u128 = r128 * w128 + c as u128;
                if pos < data.len() as u128 {
                    data.set(pos as usize, gid);
                }
            }
            c += 1;
        }
        r += 1;
    }
    Some(data)
}

proof fn lemma_row_data_none_stays(data: Seq<u32>, row: Seq<u32>, r: int, w: u32, first: u32, i: int, n: int)
    requires
        0 <= i <= n,
        gms2_row_data(data, row, r, w, first, i) is None,
    ensures
        gms2_row_data(data, row, r, w, first, n) is None,
    decreases n - i,
{
    if n > i {
        lemma_row_data_none_stays(data, row, r, w, first, i, n - 1);
    }
}

proof fn lemma_gms2_data_none_stays(layer: Gms2TileLayer, first: u32, i: int, n: int)
    requires
        0 <= i <= n,
        gms2_data(layer, first, i) is None,
    ensures
        gms2_data(layer, first, n) is None,
    decreases n - i,
{
    if n > i {
        lemma_gms2_data_none_stays(layer, first, i, n - 1);
    }
}

proof fn lemma_row_objects_none_stays(
    acc: Seq<MapObjectView>,
    oid: u32,
    row: Seq<u32>,
    r: int,
    g: Geometry,
    first: u32,
    i: int,
    n: int,
)
    requires
        0 <= i <= n,
        gms2_row_objects(acc, oid, row, r, g, first, i) is None,
    ensures
        gms2_row_objects(acc, oid, row, r, g, first, n) is None,
    decreases n - i,
{
    if n > i {
        lemma_row_objects_none_stays(acc, oid, row, r, g, first, i, n - 1);
    }
}

proof fn lemma_gms2_objects_none_stays(layer: Gms2TileLayer, info: TilesetInfoView, oid: u32, i: int, n: int)
    requires
        0 <= i <= n,
        gms2_objects(layer, info, oid, i) is None,
    ensures
        gms2_objects(layer, info, oid, n) is None,
    decreases n - i,
{
    if n > i {
        lemma_gms2_objects_none_stays(layer, info, oid, i, n - 1);
    }
}

/// Tile objects for a GMS2 layer whose tiles are not map cells, with the next free id.
fn build_gms2_objects(layer: &Gms2TileLayer, info: &TilesetInfo, oid: u32) -> (r: Option<(Vec<MapObject>, u32)>)
    ensures
        r matches Some((objs, o)) ==> gms2_objects(*layer, info@, oid, layer.tile_data@.len() as int) == Some(
            (objects_view(objs@), o),
        ),
        r is None ==> gms2_objects(*layer, info@, oid, layer.tile_data@.len() as int) is None,
{
    let g = info.geometry;
    let mut objects: Vec<MapObject> = Vec::new();
    let mut o = oid;
    let mut r: usize = 0;
    assert(objects_view(objects@) =~= seq![]);
    while r < layer.tile_data.len()
        invariant
            g == info.geometry,
            r <= layer.tile_data@.len(),
            gms2_objects(*layer, info@, oid, r as int) == Some((objects_view(objects@), o)),
        decreases layer.tile_data.len() - r,
    {
        let row = &layer.tile_data[r];
        let ghost start = objects_view(objects@);
        let ghost start_o = o;
        let mut c: usize = 0;
        while c < row.len()
            invariant
                g == info.geometry,
                r < layer.tile_data@.len(),
                gms2_objects(*layer, info@, oid, r as int) == Some((start, start_o)),
                row@ == layer.tile_data@[r as int]@,
                c <= row@.len(),
                gms2_row_objects(start, start_o, row@, r as int, g, info.first_gid, c as int) == Some(
                    (objects_view(objects@), o),
                ),
            decreases row.len() - c,
        {
            let raw = row[c];
            if raw != 0 {
                let c128 = c as u128;
                let r128 = r as u128;
                let tw128 = g.tile_width as u128;
                let th128 = g.tile_height as u128;
                assert(c128 * tw128 <= u64::MAX * u32::MAX && r128 * th128 <= u64::MAX * u32::MAX)
                    by (nonlinear_arith)
                    requires
                        c128 <= u64::MAX,
                        r128 <= u64::MAX,
                        tw128 <= u32::MAX,
                        th128 <= u32::MAX,
                ;
                let x: u128 = c128 * tw128;
                let y: u128 = r128 * th128 + th128;
                let gid = gms2_gid_exec(raw, info.first_gid);
                if gid.is_none() || o == u32::MAX || x > i64::MAX as u128 || y > i64::MAX as u128 {
                    proof {
                        lemma_row_objects_none_stays(
                            start,
                            start_o,
                            row@,
                            r as int,
                            g,
                            info.first_gid,
                            c + 1,
                            row@.len() as int,
                        );
                        lemma_gms2_objects_none_stays(*layer, info@, oid, r + 1, layer.tile_data@.len() as int);
                    }
                    return None;
                }
                let ghost before = objects@;
                objects.push(
                    MapObject::TileObject(
                        TileObjectData {
                            id: o,
                            gid: gid.unwrap(),
                            x: x as i64,
                            y: y as i64,
                            width: g.tile_width as i64,
                            height: g.tile_height as i64,
                        },
                    ),
                );
                assert(objects_view(objects@) =~= objects_view(before).push(objects@.last()@));
                o = o + 1;
            }
            c += 1;
        }
        r += 1;
    }
    Some((objects, o))
}

fn objects_layer_name(name: &String) -> (r: String)
    ensures
        r@ == name@ + "_objects"@,
{
    let mut s = name.clone();
    s.append("_objects");
    s
}

/// The map layer for one GMS2 layer.
fn build_gms2_layer_step(
    layer: &Gms2TileLayer,
    infos: &Vec<TilesetInfo>,
    tile_size: u32,
    lid: u32,
    oid: u32,
) -> (r: Result<Option<(Layer, u32, u32)>, ConvertError>)
    ensures
        r matches Ok(Some((lv, l, o))) ==> gms2_layer_step(*layer, infos_view(infos@), tile_size, lid, oid) == Ok::<
            Option<(LayerView, u32, u32)>,
            ConvertErrorView,
        >(Some((lv@, l, o))),
        r matches Ok(None) ==> gms2_layer_step(*layer, infos_view(infos@), tile_size, lid, oid) == Ok::<
            Option<(LayerView, u32, u32)>,
            ConvertErrorView,
        >(None),
        r matches Err(e) ==> gms2_layer_step(*layer, infos_view(infos@), tile_size, lid, oid) == Err::<
            Option<(LayerView, u32, u32)>,
            ConvertErrorView,
        >(e@),
{
    if layer.background.as_str().is_empty() {
        return Ok(None);
    }
    let info = match find_info(infos, &layer.background) {
        Some(info) => info,
        None => return Err(ConvertError::MissingTileset(layer.background.clone())),
    };
    if info.geometry.tile_width == tile_size && info.geometry.tile_height == tile_size {
        if layer.tiles_x.checked_mul(layer.tiles_y).is_none() || lid == u32::MAX {
            return Err(ConvertError::Overflow);
        }
        let data = match build_gms2_tile_data(layer, info.first_gid) {
            Some(d) => d,
            None => return Err(ConvertError::Overflow),
        };
        Ok(
            Some(
                (
                    Layer::Tile(
                        TileLayer {
                            id: lid,
                            name: layer.name.clone(),
                            width: layer.tiles_x,
                            height: layer.tiles_y,
                            data,
                        },
                    ),
                    lid + 1,
                    oid,
                ),
            ),
        )
    } else {
        let (objects, o) = match build_gms2_objects(layer, info, oid) {
            Some(v) => v,
            None => return Err(ConvertError::Overflow),
        };
        if lid == u32::MAX {
            return Err(ConvertError::Overflow);
        }
        Ok(
            Some(
                (
                    Layer::Object(ObjectLayer { id: lid, name: objects_layer_name(&layer.name), objects }),
                    lid + 1,
                    o,
                ),
            ),
        )
    }
}

pub(crate) fn collect_layer_depths(room: &RoomData) -> (r: Vec<i32>)
    ensures
        r@ == layer_depths(room.gms2_tile_layers@),
{
    let mut v: Vec<i32> = Vec::new();
    let mut i: usize = 0;
    while i < room.gms2_tile_layers.len()
        invariant
            i <= room.gms2_tile_layers@.len(),
            v@ == layer_depths(room.gms2_tile_layers@.subrange(0, i as int)),
        decreases room.gms2_tile_layers.len() - i,
    {
        v.push(room.gms2_tile_layers[i].depth);
        assert(layer_depths(room.gms2_tile_layers@.subrange(0, i + 1)) =~= layer_depths(
            room.gms2_tile_layers@.subrange(0, i as int),
        ).push(room.gms2_tile_layers@[i as int].depth));
        i += 1;
    }
    assert(room.gms2_tile_layers@.subrange(0, room.gms2_tile_layers@.len() as int) =~= room.gms2_tile_layers@);
    v
}

proof fn lemma_gms2_layers_err_stays(
    layers: Seq<Gms2TileLayer>,
    order: Seq<int>,
    rest: Seq<int>,
    infos: Seq<TilesetInfoView>,
    tile_size: u32,
    lid: u32,
    oid: u32,
)
    requires
        gms2_layers(layers, order, infos, tile_size, lid, oid) is Err,
    ensures
        gms2_layers(layers, order + rest, infos, tile_size, lid, oid) == gms2_layers(
            layers,
            order,
            infos,
            tile_size,
            lid,
            oid,
        ),
    decreases rest.len(),
{
    if rest.len() == 0 {
        assert(order + rest =~= order);
    } else {
        lemma_gms2_layers_err_stays(layers, order, rest.drop_last(), infos, tile_size, lid, oid);
        assert((order + rest).drop_last() =~= order + rest.drop_last());
    }
}

/// Layers for the room's GMS2 layers, greatest depth first, with the next free ids.
fn build_gms2_layers(room: &RoomData, infos: &Vec<TilesetInfo>, tile_size: u32, lid: u32, oid: u32) -> (r: Result<
    (Vec<Layer>, u32, u32),
    ConvertError,
>)
    ensures
        r matches Ok((out, l, o)) ==> gms2_layers(
            room.gms2_tile_layers@,
            gms2_order(room.gms2_tile_layers@),
            infos_view(infos@),
            tile_size,
            lid,
            oid,
        ) == Ok::<(Seq<LayerView>, u32, u32), ConvertErrorView>((crate::model::layers_view(out@), l, o)),
        r matches Err(e) ==> gms2_layers(
            room.gms2_tile_layers@,
            gms2_order(room.gms2_tile_layers@),
            infos_view(infos@),
            tile_size,
            lid,
            oid,
        ) == Err::<(Seq<LayerView>, u32, u32), ConvertErrorView>(e@),
{
    let ghost layers = room.gms2_tile_layers@;
    let ghost iv = infos_view(infos@);
    let all_depths = collect_layer_depths(room);
    let depths = sorted_distinct_desc(&all_depths);
    let mut out: Vec<Layer> = Vec::new();
    let mut l = lid;
    let mut o = oid;
    let ghost mut done: Seq<int> = seq![];
    assert(crate::model::layers_view(out@) =~= seq![]);
    let mut k: usize = 0;
    while k < depths.len()
        invariant
            layers == room.gms2_tile_layers@,
            iv == infos_view(infos@),
            depths@ == depths_desc(layer_depths(layers)),
            k <= depths@.len(),
            done == depth_order(layers, depths@, k as int),
            gms2_layers(layers, done, iv, tile_size, lid, oid) == Ok::<
                (Seq<LayerView>, u32, u32),
                ConvertErrorView,
            >((crate::model::layers_view(out@), l, o)),
        decreases depths.len() - k,
    {
        let d = depths[k];
        let ghost base = done;
        let mut j: usize = 0;
        while j < room.gms2_tile_layers.len()
            invariant
                layers == room.gms2_tile_layers@,
                iv == infos_view(infos@),
                depths@ == depths_desc(layer_depths(layers)),
                k < depths@.len(),
                d == depths@[k as int],
                base == depth_order(layers, depths@, k as int),
                j <= layers.len(),
                done == base + indices_at_depth(layers, d, j as int),
                gms2_layers(layers, done, iv, tile_size, lid, oid) == Ok::<
                    (Seq<LayerView>, u32, u32),
                    ConvertErrorView,
                >((crate::model::layers_view(out@), l, o)),
            decreases layers.len() - j,
        {
            if room.gms2_tile_layers[j].depth == d {
                let ghost prev_done = done;
                proof {
                    done = done.push(j as int);
                }
                assert(done.drop_last() =~= prev_done);
                assert(done =~= base + indices_at_depth(layers, d, j + 1));
                match build_gms2_layer_step(&room.gms2_tile_layers[j], infos, tile_size, l, o) {
                    Err(e) => {
                        proof {
                            let full = gms2_order(layers);
                            lemma_indices_prefix(layers, d, j + 1, layers.len() as int);
                            lemma_depth_order_prefix(layers, depths@, k + 1, depths@.len() as int);
                            let dk1 = depth_order(layers, depths@, k + 1);
                            assert(dk1 == base + indices_at_depth(layers, d, layers.len() as int));
                            assert(done =~= dk1.subrange(0, done.len() as int));
                            assert(done =~= full.subrange(0, done.len() as int));
                            let rest = full.subrange(done.len() as int, full.len() as int);
                            assert(full =~= done + rest);
                            lemma_gms2_layers_err_stays(layers, done, rest, iv, tile_size, lid, oid);
                        }
                        return Err(e);
                    },
                    Ok(None) => {},
                    Ok(Some((lv, l2, o2))) => {
                        let ghost before = crate::model::layers_view(out@);
                        out.push(lv);
                        assert(crate::model::layers_view(out@) =~= before.push(out@.last()@));
                        l = l2;
                        o = o2;
                    },
                }
            }
            j += 1;
        }
        assert(done == depth_order(layers, depths@, k + 1));
        k += 1;
    }
    Ok((out, l, o))
}

/// The positions at depth `d` among the first `i` layers are a prefix of those among the
/// first `n`.
proof fn lemma_indices_prefix(layers: Seq<Gms2TileLayer>, d: i32, i: int, n: int)
    requires
        0 <= i <= n,
    ensures
        indices_at_depth(layers, d, i).len() <= indices_at_depth(layers, d, n).len(),
        indices_at_depth(layers, d, i) == indices_at_depth(layers, d, n).subrange(
            0,
            indices_at_depth(layers, d, i).len() as int,
        ),
    decreases n - i,
{
    if n > i {
        lemma_indices_prefix(layers, d, i, n - 1);
        let a = indices_at_depth(layers, d, i);
        let b = indices_at_depth(layers, d, n - 1);
        let c = indices_at_depth(layers, d, n);
        if layers[n - 1].depth == d {
            assert(c == b.push(n - 1));
            assert(a =~= c.subrange(0, a.len() as int));
        }
    } else {
        let a = indices_at_depth(layers, d, i);
        assert(a =~= a.subrange(0, a.len() as int));
    }
}

/// The layer order for the first `k` depths is a prefix of that for the first `n`.
proof fn lemma_depth_order_prefix(layers: Seq<Gms2TileLayer>, depths: Seq<i32>, k: int, n: int)
    requires
        0 <= k <= n,
    ensures
        depth_order(layers, depths, k).len() <= depth_order(layers, depths, n).len(),
        depth_order(layers, depths, k) == depth_order(layers, depths, n).subrange(
            0,
            depth_order(layers, depths, k).len() as int,
        ),
    decreases n - k,
{
    if n > k {
        lemma_depth_order_prefix(layers, depths, k, n - 1);
        let a = depth_order(layers, depths, k);
        let b = depth_order(layers, depths, n - 1);
        let c = depth_order(layers, depths, n);
        assert(a =~= c.subrange(0, a.len() as int));
    } else {
        let a = depth_order(layers, depths, k);
        assert(a =~= a.subrange(0, a.len() as int));
    }
}

// ---------------------------------------------------------------------------------------------
// Object instances and views
// ---------------------------------------------------------------------------------------------

/// The object for a game object instance: with its sprite tile, placed so that the sprite's
/// origin lies on the instance position, when its type has a sprite tileset; else a point.
pub open spec fn instance_object(o: GameObjectData, sprites: Seq<SpriteInfoView>, id: u32) -> InstanceObjectView {
    match sprite_for(sprites, o.object_name@) {
        Some(spr) => InstanceObjectView {
            id,
            obj_type: o.object_name@,
            x: (o.x - spr.origin_x) as i64,
            y: (o.y - spr.origin_y + spr.source_height) as i64,
            width: spr.source_width as i64,
            height: spr.source_height as i64,
            instance_id: o.instance_id,
            gid: Some(spr.first_gid),
        },
        None => InstanceObjectView {
            id,
            obj_type: o.object_name@,
            x: o.x as i64,
            y: o.y as i64,
            width: 0,
            height: 0,
            instance_id: o.instance_id,
            gid: None,
        },
    }
}

/// Objects for the first `n` game objects, with ids from `oid` on.
pub open spec fn instance_objects(objs: Seq<GameObjectData>, sprites: Seq<SpriteInfoView>, oid: u32, n: int) -> Option<
    (Seq<MapObjectView>, u32),
>
    decreases n,
{
    if n <= 0 {
        Some((seq![], oid))
    } else {
        match instance_objects(objs, sprites, oid, n - 1) {
            None => None,
            Some((out, o)) => if o == u32::MAX {
                None
            } else {
                Some(
                    (
                        out.push(MapObjectView::Instance(instance_object(objs[n - 1], sprites, o))),
                        (o + 1) as u32,
                    ),
                )
            },
        }
    }
}

/// The `objects` layer (none for a room without objects), with the next free ids.
pub open spec fn objects_layer(room: RoomData, sprites: Seq<SpriteInfoView>, lid: u32, oid: u32) -> Option<
    (Seq<LayerView>, u32, u32),
> {
    let objs = room.game_objects@;
    if objs.len() == 0 {
        Some((seq![], lid, oid))
    } else {
        match instance_objects(objs, sprites, oid, objs.len() as int) {
            None => None,
            Some((out, o)) => if lid == u32::MAX {
                None
            } else {
                Some(
                    (
                        seq![LayerView::Object(ObjectLayerView { id: lid, name: "objects"@, objects: out })],
                        (lid + 1) as u32,
                        o,
                    ),
                )
            },
        }
    }
}

pub open spec fn view_object(v: ViewData, id: u32) -> ViewObject {
    ViewObject {
        id,
        x: v.view_x as i64,
        y: v.view_y as i64,
        width: v.view_width as i64,
        height: v.view_height as i64,
        port_x: v.port_x,
        port_y: v.port_y,
        port_width: v.port_width,
        port_height: v.port_height,
    }
}

/// Objects for the enabled views among the first `n`, with ids from `oid` on.
pub open spec fn view_objects(views: Seq<ViewData>, oid: u32, n: int) -> Option<(Seq<MapObjectView>, u32)>
    decreases n,
{
    if n <= 0 {
        Some((seq![], oid))
    } else {
        match view_objects(views, oid, n - 1) {
            None => None,
            Some((out, o)) => if !views[n - 1].enabled {
                Some((out, o))
            } else if o == u32::MAX {
                None
            } else {
                Some((out.push(MapObjectView::View(view_object(views[n - 1], o))), (o + 1) as u32))
            },
        }
    }
}

pub open spec fn has_enabled_view(views: Seq<ViewData>) -> bool {
    exists|i: int| 0 <= i < views.len() && views[i].enabled
}

/// The `views` layer (none for a room without enabled views), with the next free ids.
pub open spec fn views_layer(room: RoomData, lid: u32, oid: u32) -> Option<(Seq<LayerView>, u32, u32)> {
    let views = room.views@;
    if !has_enabled_view(views) {
        Some((seq![], lid, oid))
    } else {
        match view_objects(views, oid, views.len() as int) {
            None => None,
            Some((out, o)) => if lid == u32::MAX {
                None
            } else {
                Some(
                    (
                        seq![LayerView::Object(ObjectLayerView { id: lid, name: "views"@, objects: out })],
                        (lid + 1) as u32,
                        o,
                    ),
                )
            },
        }
    }
}

proof fn lemma_instances_none_stays(objs: Seq<GameObjectData>, sprites: Seq<SpriteInfoView>, oid: u32, i: int, n: int)
    requires
        0 <= i <= n,
        instance_objects(objs, sprites, oid, i) is None,
    ensures
        instance_objects(objs, sprites, oid, n) is None,
    decreases n - i,
{
    if n > i {
        lemma_instances_none_stays(objs, sprites, oid, i, n - 1);
    }
}

proof fn lemma_views_none_stays(views: Seq<ViewData>, oid: u32, i: int, n: int)
    requires
        0 <= i <= n,
        view_objects(views, oid, i) is None,
    ensures
        view_objects(views, oid, n) is None,
    decreases n - i,
{
    if n > i {
        lemma_views_none_stays(views, oid, i, n - 1);
    }
}

fn literal_string(s: &str) -> (r: String)
    ensures
        r@ == s@,
{
    let mut r = String::new();
    r.append(s);
    r
}

/// The `objects` layer for the room's game objects, if it has any.
fn build_objects_layer(room: &RoomData, sprites: &Vec<SpriteTilesetInfo>, lid: u32, oid: u32) -> (r: Option<
    (Vec<Layer>, u32, u32),
>)
    ensures
        r matches Some((out, l, o)) ==> objects_layer(*room, sprites_view(sprites@), lid, oid) == Some(
            (layers_view(out@), l, o),
        ),
        r is None ==> objects_layer(*room, sprites_view(sprites@), lid, oid) is None,
{
    let ghost objs = room.game_objects@;
    let ghost sv = sprites_view(sprites@);
    let mut out: Vec<Layer> = Vec::new();
    if room.game_objects.len() == 0 {
        assert(layers_view(out@) =~= seq![]);
        return Some((out, lid, oid));
    }
    let mut objects: Vec<MapObject> = Vec::new();
    let mut o = oid;
    let mut i: usize = 0;
    assert(objects_view(objects@) =~= seq![]);
    while i < room.game_objects.len()
        invariant
            objs == room.game_objects@,
            sv == sprites_view(sprites@),
            i <= objs.len(),
            instance_objects(objs, sv, oid, i as int) == Some((objects_view(objects@), o)),
        decreases objs.len() - i,
    {
        let obj = &room.game_objects[i];
        if o == u32::MAX {
            proof {
                lemma_instances_none_stays(objs, sv, oid, i + 1, objs.len() as int);
            }
            return None;
        }
        let inst = match find_sprite(sprites, &obj.object_name) {
            Some(spr) => InstanceObject {
                id: o,
                obj_type: obj.object_name.clone(),
                x: obj.x as i64 - spr.origin_x as i64,
                y: obj.y as i64 - spr.origin_y as i64 + spr.source_height as i64,
                width: spr.source_width as i64,
                height: spr.source_height as i64,
                instance_id: obj.instance_id,
                gid: Some(spr.first_gid),
            },
            None => InstanceObject {
                id: o,
                obj_type: obj.object_name.clone(),
                x: obj.x as i64,
                y: obj.y as i64,
                width: 0,
                height: 0,
                instance_id: obj.instance_id,
                gid: None,
            },
        };
        let ghost before = objects@;
        objects.push(MapObject::Instance(inst));
        assert(objects_view(objects@) =~= objects_view(before).push(objects@.last()@));
        o = o + 1;
        i += 1;
    }
    if lid == u32::MAX {
        return None;
    }
    out.push(Layer::Object(ObjectLayer { id: lid, name: literal_string("objects"), objects }));
    assert(layers_view(out@) =~= seq![out@[0]@]);
    Some((out, lid + 1, o))
}

/// The `views` layer for the room's enabled views, if it has any.
fn build_views_layer(room: &RoomData, lid: u32, oid: u32) -> (r: Option<(Vec<Layer>, u32, u32)>)
    ensures
        r matches Some((out, l, o)) ==> views_layer(*room, lid, oid) == Some((layers_view(out@), l, o)),
        r is None ==> views_layer(*room, lid, oid) is None,
{
    let ghost views = room.views@;
    let mut out: Vec<Layer> = Vec::new();
    let mut objects: Vec<MapObject> = Vec::new();
    let mut o = oid;
    let mut any = false;
    let mut i: usize = 0;
    assert(objects_view(objects@) =~= seq![]);
    while i < room.views.len()
        invariant
            views == room.views@,
            i <= views.len(),
            view_objects(views, oid, i as int) == Some((objects_view(objects@), o)),
            any == exists|j: int| 0 <= j < i && views[j].enabled,
        decreases views.len() - i,
    {
        let v = &room.views[i];
        if v.enabled {
            if o == u32::MAX {
                proof {
                    lemma_views_none_stays(views, oid, i + 1, views.len() as int);
                }
                return None;
            }
            let ghost before = objects@;
            objects.push(
                MapObject::View(
                    ViewObject {
                        id: o,
                        x: v.view_x as i64,
                        y: v.view_y as i64,
                        width: v.view_width as i64,
                        height: v.view_height as i64,
                        port_x: v.port_x,
                        port_y: v.port_y,
                        port_width: v.port_width,
                        port_height: v.port_height,
                    },
                ),
            );
            assert(objects_view(objects@) =~= objects_view(before).push(objects@.last()@));
            o = o + 1;
            any = true;
        }
        i += 1;
    }
    if !any {
        assert(layers_view(out@) =~= seq![]);
        return Some((out, lid, oid));
    }
    if lid == u32::MAX {
        return None;
    }
    out.push(Layer::Object(ObjectLayer { id: lid, name: literal_string("views"), objects }));
    assert(layers_view(out@) =~= seq![out@[0]@]);
    Some((out, lid + 1, o))
}

// ---------------------------------------------------------------------------------------------
// Tileset files and the whole conversion
// ---------------------------------------------------------------------------------------------

/// Path of a tileset file as the map refers to it.
pub open spec fn tsx_path(name: Seq<char>) -> Seq<char> {
    "tilesets/"@ + name + ".tsx"@
}

pub open spec fn bg_tileset(i: TilesetInfoView) -> TilesetView {
    TilesetView {
        name: i.name,
        tile_width: i.geometry.tile_width,
        tile_height: i.geometry.tile_height,
        image_path: "../textures/"@ + i.name + ".png"@,
        image_width: i.source_width,
        image_height: i.source_height,
        margin_x: i.geometry.margin_x,
        margin_y: i.geometry.margin_y,
        spacing_x: i.geometry.spacing_x,
        spacing_y: i.geometry.spacing_y,
        columns: i.geometry.columns,
        tile_count: i.geometry.tile_count,
        source_texture_page_index: i.texture_page_index,
        source_x: i.source_x,
        source_y: i.source_y,
    }
}

pub open spec fn sprite_tileset(s: SpriteInfoView) -> TilesetView {
    TilesetView {
        name: s.name,
        tile_width: s.source_width,
        tile_height: s.source_height,
        image_path: "../sprites/"@ + s.name + ".png"@,
        image_width: s.source_width,
        image_height: s.source_height,
        margin_x: 0,
        margin_y: 0,
        spacing_x: 0,
        spacing_y: 0,
        columns: 1,
        tile_count: 1,
        source_texture_page_index: s.texture_page_index,
        source_x: s.source_x,
        source_y: s.source_y,
    }
}

pub open spec fn crop_tileset(c: SourceView) -> TilesetView {
    TilesetView {
        name: c.name,
        tile_width: c.source_width,
        tile_height: c.source_height,
        image_path: "../tile_objects/"@ + c.name + ".png"@,
        image_width: c.source_width,
        image_height: c.source_height,
        margin_x: 0,
        margin_y: 0,
        spacing_x: 0,
        spacing_y: 0,
        columns: 1,
        tile_count: 1,
        source_texture_page_index: c.texture_page_index,
        source_x: c.source_x,
        source_y: c.source_y,
    }
}

pub open spec fn sprite_source(s: SpriteInfoView) -> SourceView {
    SourceView {
        name: s.name,
        texture_page_index: s.texture_page_index,
        source_x: s.source_x,
        source_y: s.source_y,
        source_width: s.source_width,
        source_height: s.source_height,
    }
}

/// Tilesets of the map: background tilesets, then sprite tilesets, then cut images.
pub open spec fn all_tilesets(infos: Seq<TilesetInfoView>, sprites: Seq<SpriteInfoView>, crops: Seq<SourceView>) -> Seq<
    TilesetView,
> {
    infos.map_values(|i: TilesetInfoView| bg_tileset(i)) + sprites.map_values(|s: SpriteInfoView| sprite_tileset(s))
        + crops.map_values(|c: SourceView| crop_tileset(c))
}

/// The map's tileset references, in the same order; cut image `i` starts at
/// `crop_base + i`.
pub open spec fn all_refs(
    infos: Seq<TilesetInfoView>,
    sprites: Seq<SpriteInfoView>,
    crops: Seq<SourceView>,
    crop_base: u32,
) -> Seq<TilesetRefView> {
    infos.map_values(|i: TilesetInfoView| TilesetRefView { first_gid: i.first_gid, tsx_path: tsx_path(i.name) })
        + sprites.map_values(
        |s: SpriteInfoView| TilesetRefView { first_gid: s.first_gid, tsx_path: tsx_path(s.name) },
    ) + crops.map(
        |i: int, c: SourceView| TilesetRefView { first_gid: (crop_base + i) as u32, tsx_path: tsx_path(c.name) },
    )
}

/// Number of map cells needed to cover `pixels`.
pub open spec fn cells(pixels: u32, tile_size: u32) -> u32 {
    (pixels as int / tile_size as int + if pixels as int % tile_size as int != 0 {
        1int
    } else {
        0int
    }) as u32
}

/// The result of converting a room: the map, its tilesets, the sprite images and the images
/// cut for free tiles.
pub type ConvertedView = (TiledMapView, Seq<TilesetView>, Seq<SourceView>, Seq<SourceView>);

/// What converting a room gives.
///
/// - The map grid is `tile_size` square and covers the room.
/// - Every background that the room's tiles and GMS2 layers use becomes a tileset (an error
///   when the background list lacks one), then every object type with a sprite a one-tile
///   tileset, then every distinct free tile that is not one cell of its tileset a one-tile
///   tileset of its own; global tile ids are handed out in that order from 1.
/// - Layers: for every depth of the GMS1 tiles, greatest first, a tile layer of its
///   grid-aligned tiles and an object layer of the others; then every GMS2 layer, greatest
///   depth first, as a tile layer when its tiles are map cells, else as an object layer;
///   then the game objects; then the enabled views.
/// - Layer ids and object ids are handed out from 1 in that order.
/// - An error when a count, id or coordinate does not fit its integer type.
pub open spec fn spec_convert_room(room: RoomData, bgs: Seq<BackgroundDef>, tile_size: u32) -> Result<
    ConvertedView,
    ConvertErrorView,
> {
    let used = used_backgrounds(room);
    match first_missing(bgs, used, used.len() as int) {
        Some(m) => Err(ConvertErrorView::MissingBackground(m)),
        None => match spec_tileset_infos(room, bgs, tile_size, used, used.len() as int) {
            None => Err(ConvertErrorView::Overflow),
            Some((infos, bg_next)) => match spec_sprite_infos(
                room.game_objects@,
                bg_next,
                room.game_objects@.len() as int,
            ) {
                None => Err(ConvertErrorView::Overflow),
                Some((sprites, crop_base)) => match spec_crop_sources(
                    room.tiles@,
                    infos,
                    tile_size,
                    room.tiles@.len() as int,
                ) {
                    None => Err(ConvertErrorView::Overflow),
                    Some(crops) => if crop_base + crops.len() > u32::MAX {
                        Err(ConvertErrorView::Overflow)
                    } else {
                        let map_w = cells(room.width, tile_size);
                        let map_h = cells(room.height, tile_size);
                        let ctx = Gms1Ctx { tiles: room.tiles@, infos, srcs: crops, crop_base, map_w, map_h, tile_size };
                        let depths = depths_desc(tile_depths(room.tiles@));
                        match gms1_layers(ctx, depths, depths.len() as int, 1, 1) {
                            None => Err(ConvertErrorView::Overflow),
                            Some((l1, lid1, oid1)) => match gms2_layers(
                                room.gms2_tile_layers@,
                                gms2_order(room.gms2_tile_layers@),
                                infos,
                                tile_size,
                                lid1,
                                oid1,
                            ) {
                                Err(e) => Err(e),
                                Ok((l2, lid2, oid2)) => match objects_layer(room, sprites, lid2, oid2) {
                                    None => Err(ConvertErrorView::Overflow),
                                    Some((l3, lid3, oid3)) => match views_layer(room, lid3, oid3) {
                                        None => Err(ConvertErrorView::Overflow),
                                        Some((l4, lid4, oid4)) => Ok(
                                            (
                                                TiledMapView {
                                                    width_tiles: map_w,
                                                    height_tiles: map_h,
                                                    tile_width: tile_size,
                                                    tile_height: tile_size,
                                                    background_color: if room.draw_background_color {
                                                        Some(spec_argb_to_hex(room.background_color))
                                                    } else {
                                                        None
                                                    },
                                                    tilesets: all_refs(infos, sprites, crops, crop_base),
                                                    layers: l1 + l2 + l3 + l4,
                                                    next_layer_id: lid4,
                                                    next_object_id: oid4,
                                                    speed: room.speed,
                                                },
                                                all_tilesets(infos, sprites, crops),
                                                sprites.map_values(|s: SpriteInfoView| sprite_source(s)),
                                                crops,
                                            ),
                                        ),
                                    },
                                },
                            },
                        }
                    },
                },
            },
        },
    }
}

fn path_string(prefix: &str, name: &String, suffix: &str) -> (r: String)
    ensures
        r@ == prefix@ + name@ + suffix@,
{
    let mut s = String::new();
    s.append(prefix);
    s.append(name.as_str());
    s.append(suffix);
    assert(s@ =~= prefix@ + name@ + suffix@);
    s
}

/// Tileset files, references and image sources for the map's tilesets, in global tile id
/// order.
fn build_tileset_lists(
    infos: &Vec<TilesetInfo>,
    sprites: &Vec<SpriteTilesetInfo>,
    crops: &Vec<SpriteSourceInfo>,
    crop_base: u32,
) -> (r: (Vec<Tileset>, Vec<TilesetRef>, Vec<SpriteSourceInfo>))
    requires
        crop_base + crops@.len() <= u32::MAX,
    ensures
        tilesets_view(r.0@) == all_tilesets(infos_view(infos@), sprites_view(sprites@), sources_view(crops@)),
        refs_view(r.1@) == all_refs(infos_view(infos@), sprites_view(sprites@), sources_view(crops@), crop_base),
        sources_view(r.2@) == sprites_view(sprites@).map_values(|s: SpriteInfoView| sprite_source(s)),
{
    let ghost iv = infos_view(infos@);
    let ghost sv = sprites_view(sprites@);
    let ghost cv = sources_view(crops@);
    let mut tilesets: Vec<Tileset> = Vec::new();
    let mut refs: Vec<TilesetRef> = Vec::new();
    let mut sources: Vec<SpriteSourceInfo> = Vec::new();
    let mut i: usize = 0;
    while i < infos.len()
        invariant
            iv == infos_view(infos@),
            i <= iv.len(),
            tilesets_view(tilesets@) == iv.subrange(0, i as int).map_values(|i: TilesetInfoView| bg_tileset(i)),
            refs_view(refs@) == iv.subrange(0, i as int).map_values(
                |i: TilesetInfoView| TilesetRefView { first_gid: i.first_gid, tsx_path: tsx_path(i.name) },
            ),
        decreases iv.len() - i,
    {
        let info = &infos[i];
        let ghost tb = tilesets_view(tilesets@);
        let ghost rb = refs_view(refs@);
        refs.push(TilesetRef { first_gid: info.first_gid, tsx_path: path_string("tilesets/", &info.name, ".tsx") });
        tilesets.push(
            Tileset {
                name: info.name.clone(),
                tile_width: info.geometry.tile_width,
                tile_height: info.geometry.tile_height,
                image_path: path_string("../textures/", &info.name, ".png"),
                image_width: info.source_width,
                image_height: info.source_height,
                margin_x: info.geometry.margin_x,
                margin_y: info.geometry.margin_y,
                spacing_x: info.geometry.spacing_x,
                spacing_y: info.geometry.spacing_y,
                columns: info.geometry.columns,
                tile_count: info.geometry.tile_count,
                source_texture_page_index: info.texture_page_index,
                source_x: info.source_x,
                source_y: info.source_y,
            },
        );
        assert(iv.subrange(0, i + 1) =~= iv.subrange(0, i as int).push(iv[i as int]));
        assert(tilesets_view(tilesets@) =~= tb.push(tilesets@.last()@));
        assert(refs_view(refs@) =~= rb.push(refs@.last()@));
        i += 1;
    }
    assert(iv.subrange(0, iv.len() as int) =~= iv);
    let ghost t1 = tilesets_view(tilesets@);
    let ghost r1 = refs_view(refs@);
    let mut j: usize = 0;
    assert(sources_view(sources@) =~= seq![]);
    while j < sprites.len()
        invariant
            sv == sprites_view(sprites@),
            j <= sv.len(),
            tilesets_view(tilesets@) == t1 + sv.subrange(0, j as int).map_values(|s: SpriteInfoView| sprite_tileset(s)),
            refs_view(refs@) == r1 + sv.subrange(0, j as int).map_values(
                |s: SpriteInfoView| TilesetRefView { first_gid: s.first_gid, tsx_path: tsx_path(s.name) },
            ),
            sources_view(sources@) == sv.subrange(0, j as int).map_values(|s: SpriteInfoView| sprite_source(s)),
        decreases sv.len() - j,
    {
        let spr = &sprites[j];
        let ghost tb = tilesets_view(tilesets@);
        let ghost rb = refs_view(refs@);
        let ghost sb = sources_view(sources@);
        refs.push(TilesetRef { first_gid: spr.first_gid, tsx_path: path_string("tilesets/", &spr.name, ".tsx") });
        tilesets.push(
            Tileset {
                name: spr.name.clone(),
                tile_width: spr.source_width,
                tile_height: spr.source_height,
                image_path: path_string("../sprites/", &spr.name, ".png"),
                image_width: spr.source_width,
                image_height: spr.source_height,
                margin_x: 0,
                margin_y: 0,
                spacing_x: 0,
                spacing_y: 0,
                columns: 1,
                tile_count: 1,
                source_texture_page_index: spr.texture_page_index,
                source_x: spr.source_x,
                source_y: spr.source_y,
            },
        );
        sources.push(
            SpriteSourceInfo {
                name: spr.name.clone(),
                texture_page_index: spr.texture_page_index,
                source_x: spr.source_x,
                source_y: spr.source_y,
                source_width: spr.source_width,
                source_height: spr.source_height,
            },
        );
        assert(sv.subrange(0, j + 1) =~= sv.subrange(0, j as int).push(sv[j as int]));
        assert(tilesets_view(tilesets@) =~= tb.push(tilesets@.last()@));
        assert(refs_view(refs@) =~= rb.push(refs@.last()@));
        assert(sources_view(sources@) =~= sb.push(sources@.last()@));
        j += 1;
    }
    assert(sv.subrange(0, sv.len() as int) =~= sv);
    let ghost t2 = tilesets_view(tilesets@);
    let ghost r2 = refs_view(refs@);
    let mut k: usize = 0;
    while k < crops.len()
        invariant
            cv == sources_view(crops@),
            crop_base + cv.len() <= u32::MAX,
            k <= cv.len(),
            tilesets_view(tilesets@) == t2 + cv.subrange(0, k as int).map_values(|c: SourceView| crop_tileset(c)),
            refs_view(refs@) == r2 + cv.subrange(0, k as int).map(
                |i: int, c: SourceView| TilesetRefView { first_gid: (crop_base + i) as u32, tsx_path: tsx_path(c.name) },
            ),
        decreases cv.len() - k,
    {
        let c = &crops[k];
        let ghost tb = tilesets_view(tilesets@);
        let ghost rb = refs_view(refs@);
        refs.push(TilesetRef { first_gid: crop_base + k as u32, tsx_path: path_string("tilesets/", &c.name, ".tsx") });
        tilesets.push(
            Tileset {
                name: c.name.clone(),
                tile_width: c.source_width,
                tile_height: c.source_height,
                image_path: path_string("../tile_objects/", &c.name, ".png"),
                image_width: c.source_width,
                image_height: c.source_height,
                margin_x: 0,
                margin_y: 0,
                spacing_x: 0,
                spacing_y: 0,
                columns: 1,
                tile_count: 1,
                source_texture_page_index: c.texture_page_index,
                source_x: c.source_x,
                source_y: c.source_y,
            },
        );
        assert(cv.subrange(0, k + 1) =~= cv.subrange(0, k as int).push(cv[k as int]));
        assert(tilesets_view(tilesets@) =~= tb.push(tilesets@.last()@));
        assert(refs_view(refs@) =~= rb.push(refs@.last()@));
        k += 1;
    }
    assert(cv.subrange(0, cv.len() as int) =~= cv);
    (tilesets, refs, sources)
}

/// The mathematical view of a conversion result.
pub open spec fn converted_view(
    r: (TiledMap, Vec<Tileset>, Vec<SpriteSourceInfo>, Vec<SpriteSourceInfo>),
) -> ConvertedView {
    (r.0@, tilesets_view(r.1@), sources_view(r.2@), sources_view(r.3@))
}

fn cells_exec(pixels: u32, tile_size: u32) -> (r: u32)
    requires
        tile_size > 0,
    ensures
        r == cells(pixels, tile_size),
{
    let q = pixels / tile_size;
    let extra: u32 = if pixels % tile_size != 0 { 1 } else { 0 };
    assert(q <= pixels) by (nonlinear_arith)
        requires
            q == pixels / tile_size,
            tile_size > 0,
    ;
    assert(q + extra <= u32::MAX) by {
        if extra == 1 {
            assert(q < pixels) by (nonlinear_arith)
                requires
                    q == pixels / tile_size,
                    pixels % tile_size != 0,
                    tile_size > 0,
            ;
        }
    }
    q + extra
}

/// Converts a room into a Tiled map on a `tile_size` grid, the tilesets the map refers to,
/// the sprite images of its object types and the images cut for its free tiles.
pub fn convert_room(room: &RoomData, backgrounds: &Vec<BackgroundDef>, tile_size: u32) -> (r: Result<
    (TiledMap, Vec<Tileset>, Vec<SpriteSourceInfo>, Vec<SpriteSourceInfo>),
    ConvertError,
>)
    requires
        tile_size > 0,
    ensures
        r matches Ok(v) ==> spec_convert_room(*room, backgrounds@, tile_size) == Ok::<
            ConvertedView,
            ConvertErrorView,
        >(converted_view(v)),
        r matches Err(e) ==> spec_convert_room(*room, backgrounds@, tile_size) == Err::<
            ConvertedView,
            ConvertErrorView,
        >(e@),
{
    let used = collect_used_backgrounds(room);
    if let Some(i) = find_missing_background(&used, backgrounds) {
        return Err(ConvertError::MissingBackground(used[i].clone()));
    }
    let (infos, bg_next) = match build_tileset_map(room, backgrounds, tile_size, &used) {
        Some(v) => v,
        None => return Err(ConvertError::Overflow),
    };
    let (sprites, crop_base) = match build_sprite_tileset_map(room, bg_next) {
        Some(v) => v,
        None => return Err(ConvertError::Overflow),
    };
    let crops = match collect_free_tile_sources(room, &infos, tile_size) {
        Some(v) => v,
        None => return Err(ConvertError::Overflow),
    };
    if crops.len() as u64 > (u32::MAX - crop_base) as u64 {
        return Err(ConvertError::Overflow);
    }
    let map_w = cells_exec(room.width, tile_size);
    let map_h = cells_exec(room.height, tile_size);
    let (mut layers, lid1, oid1) = match build_gms1_layers(
        room,
        &infos,
        &crops,
        crop_base,
        map_w,
        map_h,
        tile_size,
        1,
        1,
    ) {
        Some(v) => v,
        None => return Err(ConvertError::Overflow),
    };
    let (mut l2, lid2, oid2) = match build_gms2_layers(room, &infos, tile_size, lid1, oid1) {
        Ok(v) => v,
        Err(e) => return Err(e),
    };
    let (mut l3, lid3, oid3) = match build_objects_layer(room, &sprites, lid2, oid2) {
        Some(v) => v,
        None => return Err(ConvertError::Overflow),
    };
    let (mut l4, lid4, oid4) = match build_views_layer(room, lid3, oid3) {
        Some(v) => v,
        None => return Err(ConvertError::Overflow),
    };
    let ghost v1 = layers_view(layers@);
    let ghost v2 = layers_view(l2@);
    let ghost v3 = layers_view(l3@);
    let ghost v4 = layers_view(l4@);
    layers.append(&mut l2);
    layers.append(&mut l3);
    layers.append(&mut l4);
    assert(layers_view(layers@) =~= v1 + v2 + v3 + v4);
    let (tilesets, refs, sprite_sources) = build_tileset_lists(&infos, &sprites, &crops, crop_base);
    let background_color = if room.draw_background_color {
        Some(argb_to_hex(room.background_color))
    } else {
        None
    };
    let map = TiledMap {
        width_tiles: map_w,
        height_tiles: map_h,
        tile_width: tile_size,
        tile_height: tile_size,
        background_color,
        tilesets: refs,
        layers,
        next_layer_id: lid4,
        next_object_id: oid4,
        speed: room.speed,
    };
    Ok((map, tilesets, sprite_sources, crops))
}

} // verus!
