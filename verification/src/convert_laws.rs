//! Properties that every successful room conversion has.
use vstd::prelude::*;

use crate::convert::{
    all_refs, all_tilesets, crop_name, depths_desc, grid_aligned, info_for, matches_cell, needs_crop, source_index, gms1_depth_layers, gms1_free_objects, gms1_layers, gms2_layer_step,
    gms2_layers, gms2_objects, gms2_order, gms2_row_objects, instance_objects, max1, objects_layer,
    spec_convert_room, spec_crop_sources, spec_sprite_infos, spec_tileset_infos, tile_depths, tsx_path,
    used_backgrounds, view_objects, views_layer, Geometry, Gms1Ctx, SourceView, SpriteInfoView,
    TilesetInfoView,
};
use crate::model::{LayerView, MapObjectView};
use crate::schema::{BackgroundDef, GameObjectData, Gms2TileLayer, RoomData, TileData, ViewData};

verus! {

/// Background tilesets take consecutive id ranges from 1: each starts where the previous one
/// ends, and the next free id is where the last one ends.
proof fn lemma_infos_ids(room: RoomData, bgs: Seq<BackgroundDef>, tile_size: u32, used: Seq<Seq<char>>, n: int)
    requires
        0 <= n <= used.len(),
        spec_tileset_infos(room, bgs, tile_size, used, n) is Some,
    ensures
        ({
            let (infos, next) = spec_tileset_infos(room, bgs, tile_size, used, n)->0;
            &&& infos.len() == n
            &&& next >= 1
            &&& infos.len() > 0 ==> infos[0].first_gid == 1
            &&& infos.len() == 0 ==> next == 1
            &&& forall|i: int|
                0 <= i < infos.len() - 1 ==> #[trigger] infos[i].first_gid + max1(infos[i].geometry.tile_count as int)
                    == infos[i + 1].first_gid
            &&& infos.len() > 0 ==> infos.last().first_gid + max1(infos.last().geometry.tile_count as int) == next
        }),
    decreases n,
{
    if n > 0 {
        lemma_infos_ids(room, bgs, tile_size, used, n - 1);
    }
}

/// Sprite tilesets take one id each, consecutively from `start`.
proof fn lemma_sprite_ids(objs: Seq<GameObjectData>, start: u32, n: int)
    requires
        0 <= n <= objs.len(),
        spec_sprite_infos(objs, start, n) is Some,
    ensures
        ({
            let (sprites, next) = spec_sprite_infos(objs, start, n)->0;
            &&& next == start + sprites.len()
            &&& forall|i: int| 0 <= i < sprites.len() ==> #[trigger] sprites[i].first_gid == start + i
        }),
    decreases n,
{
    if n > 0 {
        lemma_sprite_ids(objs, start, n - 1);
    }
}

/// Global tile ids are handed out from 1 without gaps or overlaps: the map refers to every
/// tileset, in order, each range starting where the one before ends; a tileset's range is as
/// long as its tile count, and at least one id.
pub proof fn lemma_tileset_ids_partition(room: RoomData, bgs: Seq<BackgroundDef>, tile_size: u32)
    requires
        spec_convert_room(room, bgs, tile_size) is Ok,
    ensures
        ({
            let (map, tilesets, _, _) = spec_convert_room(room, bgs, tile_size)->Ok_0;
            let refs = map.tilesets;
            &&& refs.len() == tilesets.len()
            &&& forall|i: int| 0 <= i < refs.len() ==> #[trigger] refs[i].tsx_path == tsx_path(tilesets[i].name)
            &&& refs.len() > 0 ==> refs[0].first_gid == 1
            &&& forall|i: int|
                0 <= i < refs.len() - 1 ==> #[trigger] refs[i].first_gid + max1(tilesets[i].tile_count as int)
                    == refs[i + 1].first_gid
        }),
{
    let used = used_backgrounds(room);
    let (infos, bg_next) = spec_tileset_infos(room, bgs, tile_size, used, used.len() as int)->0;
    let objs = room.game_objects@;
    let (sprites, crop_base) = spec_sprite_infos(objs, bg_next, objs.len() as int)->0;
    let crops = spec_crop_sources(room.tiles@, infos, tile_size, room.tiles@.len() as int)->0;
    lemma_infos_ids(room, bgs, tile_size, used, used.len() as int);
    lemma_sprite_ids(objs, bg_next, objs.len() as int);
    let (map, tilesets, _, _) = spec_convert_room(room, bgs, tile_size)->Ok_0;
    let refs = map.tilesets;
    assert(refs == all_refs(infos, sprites, crops, crop_base));
    assert(tilesets == all_tilesets(infos, sprites, crops));
    let a = infos.len() as int;
    let b = sprites.len() as int;
    assert forall|i: int| 0 <= i < refs.len() implies #[trigger] refs[i].tsx_path == tsx_path(tilesets[i].name) by {
        if i < a {
        } else if i < a + b {
        } else {
        }
    }
    assert(refs.len() > 0 ==> refs[0].first_gid == 1) by {
        if refs.len() > 0 {
            if a > 0 {
            } else if b > 0 {
                assert(bg_next == 1);
            } else {
                assert(crop_base == bg_next);
            }
        }
    }
    assert forall|i: int| 0 <= i < refs.len() - 1 implies #[trigger] refs[i].first_gid + max1(
        tilesets[i].tile_count as int,
    ) == refs[i + 1].first_gid by {
        if i < a - 1 {
            assert(refs[i].first_gid == infos[i].first_gid);
            assert(refs[i + 1].first_gid == infos[i + 1].first_gid);
        } else if i == a - 1 {
            assert(refs[i].first_gid == infos[i].first_gid);
            if b > 0 {
                assert(sprites[0].first_gid == bg_next);
            } else {
                assert(crop_base == bg_next);
            }
        } else if i < a + b - 1 {
            assert(sprites[i - a].first_gid == bg_next + (i - a));
            assert(sprites[i + 1 - a].first_gid == bg_next + (i + 1 - a));
        } else if i == a + b - 1 {
            assert(sprites[i - a].first_gid == bg_next + (i - a));
        } else {
        }
    }
}

// ---------------------------------------------------------------------------------------------
// Layer and object ids
// ---------------------------------------------------------------------------------------------

pub open spec fn layer_id(l: LayerView) -> u32 {
    match l {
        LayerView::Tile(t) => t.id,
        LayerView::Object(o) => o.id,
    }
}

pub open spec fn object_id(o: MapObjectView) -> u32 {
    match o {
        MapObjectView::Instance(i) => i.id,
        MapObjectView::TileObject(t) => t.id,
        MapObjectView::View(v) => v.id,
    }
}

pub open spec fn layer_objects(l: LayerView) -> Seq<MapObjectView> {
    match l {
        LayerView::Tile(_) => seq![],
        LayerView::Object(o) => o.objects,
    }
}

/// The objects of all object layers, layer by layer.
pub open spec fn all_objects(layers: Seq<LayerView>) -> Seq<MapObjectView>
    decreases layers.len(),
{
    if layers.len() == 0 {
        seq![]
    } else {
        all_objects(layers.drop_last()) + layer_objects(layers.last())
    }
}

/// Objects carry the ids `start`, `start + 1`, ... in order, and `next` follows the last.
pub open spec fn objects_numbered(objs: Seq<MapObjectView>, start: int, next: int) -> bool {
    &&& next == start + objs.len()
    &&& forall|j: int| 0 <= j < objs.len() ==> #[trigger] object_id(objs[j]) == start + j
}

/// Layers carry the ids `l0`, `l0 + 1`, ... in order with `l1` next; their objects carry the
/// ids `o0`, `o0 + 1`, ... in order with `o1` next.
pub open spec fn numbered(layers: Seq<LayerView>, l0: int, o0: int, l1: int, o1: int) -> bool {
    &&& l1 == l0 + layers.len()
    &&& forall|i: int| 0 <= i < layers.len() ==> #[trigger] layer_id(layers[i]) == l0 + i
    &&& objects_numbered(all_objects(layers), o0, o1)
}

proof fn lemma_all_objects_concat(a: Seq<LayerView>, b: Seq<LayerView>)
    ensures
        all_objects(a + b) == all_objects(a) + all_objects(b),
    decreases b.len(),
{
    if b.len() == 0 {
        assert(a + b =~= a);
        assert(all_objects(b) =~= seq![]);
        assert(all_objects(a) + all_objects(b) =~= all_objects(a));
    } else {
        lemma_all_objects_concat(a, b.drop_last());
        assert((a + b).drop_last() =~= a + b.drop_last());
        assert((a + b).last() == b.last());
        assert(all_objects(a) + all_objects(b) =~= all_objects(a) + all_objects(b.drop_last()) + layer_objects(
            b.last(),
        ));
    }
}

proof fn lemma_numbered_concat(a: Seq<LayerView>, b: Seq<LayerView>, l0: int, o0: int, l1: int, o1: int, l2: int, o2: int)
    requires
        numbered(a, l0, o0, l1, o1),
        numbered(b, l1, o1, l2, o2),
    ensures
        numbered(a + b, l0, o0, l2, o2),
{
    lemma_all_objects_concat(a, b);
    let oa = all_objects(a);
    let ob = all_objects(b);
    assert forall|i: int| 0 <= i < (a + b).len() implies #[trigger] layer_id((a + b)[i]) == l0 + i by {
        if i >= a.len() {
            assert((a + b)[i] == b[i - a.len()]);
        }
    }
    assert forall|j: int| 0 <= j < (oa + ob).len() implies #[trigger] object_id((oa + ob)[j]) == o0 + j by {
        if j >= oa.len() {
            assert((oa + ob)[j] == ob[j - oa.len()]);
        }
    }
}

proof fn lemma_numbered_push(a: Seq<LayerView>, lv: LayerView, l0: int, o0: int, l1: int, o1: int, o2: int)
    requires
        numbered(a, l0, o0, l1, o1),
        layer_id(lv) == l1,
        objects_numbered(layer_objects(lv), o1, o2),
    ensures
        numbered(a.push(lv), l0, o0, l1 + 1, o2),
{
    let b = seq![lv];
    assert(all_objects(b) =~= layer_objects(lv)) by {
        assert(b.drop_last() =~= seq![]);
        assert(all_objects(b.drop_last()) =~= seq![]);
    }
    assert(numbered(b, l1, o1, l1 + 1, o2));
    lemma_numbered_concat(a, b, l0, o0, l1, o1, l1 + 1, o2);
    assert(a + b =~= a.push(lv));
}

proof fn lemma_free_objects_numbered(
    tiles: Seq<TileData>,
    infos: Seq<TilesetInfoView>,
    srcs: Seq<SourceView>,
    crop_base: u32,
    tile_size: u32,
    depth: i32,
    first_id: u32,
    n: int,
)
    requires
        gms1_free_objects(tiles, infos, srcs, crop_base, tile_size, depth, first_id, n) is Some,
    ensures
        ({
            let (objs, next) = gms1_free_objects(tiles, infos, srcs, crop_base, tile_size, depth, first_id, n)->0;
            objects_numbered(objs, first_id as int, next as int)
        }),
    decreases n,
{
    if n > 0 {
        lemma_free_objects_numbered(tiles, infos, srcs, crop_base, tile_size, depth, first_id, n - 1);
    }
}

proof fn lemma_depth_layers_numbered(ctx: Gms1Ctx, depth: i32, lid: u32, oid: u32)
    requires
        gms1_depth_layers(ctx, depth, lid, oid) is Some,
    ensures
        ({
            let (ls, l, o) = gms1_depth_layers(ctx, depth, lid, oid)->0;
            numbered(ls, lid as int, oid as int, l as int, o as int)
        }),
{
    let (ls, l, o) = gms1_depth_layers(ctx, depth, lid, oid)->0;
    let empty: Seq<LayerView> = seq![];
    assert(all_objects(empty) =~= seq![]);
    assert(numbered(empty, lid as int, oid as int, lid as int, oid as int));
    let n = ctx.tiles.len() as int;
    if crate::convert::has_grid_tile(ctx.tiles, ctx.tile_size, depth) {
        let data = crate::convert::gms1_data(ctx.tiles, ctx.infos, ctx.map_w, ctx.map_h, ctx.tile_size, depth, n)->0;
        let first = ls[0];
        assert(layer_objects(first) =~= seq![]);
        lemma_numbered_push(empty, first, lid as int, oid as int, lid as int, oid as int, oid as int);
        assert(empty.push(first) =~= seq![first]);
        if crate::convert::has_free_tile(ctx.tiles, ctx.tile_size, depth) {
            lemma_free_objects_numbered(ctx.tiles, ctx.infos, ctx.srcs, ctx.crop_base, ctx.tile_size, depth, oid, n);
            lemma_numbered_push(seq![first], ls[1], lid as int, oid as int, lid + 1, oid as int, o as int);
            assert(seq![first].push(ls[1]) =~= ls);
        } else {
            assert(ls =~= seq![first]);
        }
    } else {
        if crate::convert::has_free_tile(ctx.tiles, ctx.tile_size, depth) {
            lemma_free_objects_numbered(ctx.tiles, ctx.infos, ctx.srcs, ctx.crop_base, ctx.tile_size, depth, oid, n);
            lemma_numbered_push(empty, ls[0], lid as int, oid as int, lid as int, oid as int, o as int);
            assert(empty.push(ls[0]) =~= ls);
        } else {
            assert(ls =~= empty);
        }
    }
}

proof fn lemma_gms1_layers_numbered(ctx: Gms1Ctx, depths: Seq<i32>, k: int, lid: u32, oid: u32)
    requires
        gms1_layers(ctx, depths, k, lid, oid) is Some,
    ensures
        ({
            let (ls, l, o) = gms1_layers(ctx, depths, k, lid, oid)->0;
            numbered(ls, lid as int, oid as int, l as int, o as int)
        }),
    decreases k,
{
    if k <= 0 {
        let empty: Seq<LayerView> = seq![];
        assert(all_objects(empty) =~= seq![]);
    } else {
        lemma_gms1_layers_numbered(ctx, depths, k - 1, lid, oid);
        let (ls, l, o) = gms1_layers(ctx, depths, k - 1, lid, oid)->0;
        lemma_depth_layers_numbered(ctx, depths[k - 1], l, o);
        let (more, l2, o2) = gms1_depth_layers(ctx, depths[k - 1], l, o)->0;
        lemma_numbered_concat(ls, more, lid as int, oid as int, l as int, o as int, l2 as int, o2 as int);
    }
}

proof fn lemma_row_objects_numbered(
    acc: Seq<MapObjectView>,
    oid: u32,
    row: Seq<u32>,
    r: int,
    g: Geometry,
    first: u32,
    start: int,
    c: int,
)
    requires
        objects_numbered(acc, start, oid as int),
        gms2_row_objects(acc, oid, row, r, g, first, c) is Some,
    ensures
        ({
            let (objs, next) = gms2_row_objects(acc, oid, row, r, g, first, c)->0;
            objects_numbered(objs, start, next as int)
        }),
    decreases c,
{
    if c > 0 {
        lemma_row_objects_numbered(acc, oid, row, r, g, first, start, c - 1);
    }
}

proof fn lemma_gms2_objects_numbered(layer: Gms2TileLayer, info: TilesetInfoView, oid: u32, r: int)
    requires
        gms2_objects(layer, info, oid, r) is Some,
    ensures
        ({
            let (objs, next) = gms2_objects(layer, info, oid, r)->0;
            objects_numbered(objs, oid as int, next as int)
        }),
    decreases r,
{
    if r > 0 {
        lemma_gms2_objects_numbered(layer, info, oid, r - 1);
        let (objs, o) = gms2_objects(layer, info, oid, r - 1)->0;
        let row = layer.tile_data@[r - 1]@;
        lemma_row_objects_numbered(objs, o, row, r - 1, info.geometry, info.first_gid, oid as int, row.len() as int);
    }
}

proof fn lemma_gms2_layers_numbered(
    layers: Seq<Gms2TileLayer>,
    order: Seq<int>,
    infos: Seq<TilesetInfoView>,
    tile_size: u32,
    lid: u32,
    oid: u32,
)
    requires
        gms2_layers(layers, order, infos, tile_size, lid, oid) is Ok,
    ensures
        ({
            let (ls, l, o) = gms2_layers(layers, order, infos, tile_size, lid, oid)->Ok_0;
            numbered(ls, lid as int, oid as int, l as int, o as int)
        }),
    decreases order.len(),
{
    if order.len() == 0 {
        let empty: Seq<LayerView> = seq![];
        assert(all_objects(empty) =~= seq![]);
    } else {
        lemma_gms2_layers_numbered(layers, order.drop_last(), infos, tile_size, lid, oid);
        let (out, l, o) = gms2_layers(layers, order.drop_last(), infos, tile_size, lid, oid)->Ok_0;
        let layer = layers[order.last()];
        match gms2_layer_step(layer, infos, tile_size, l, o) {
            Ok(Some((lv, l2, o2))) => {
                let info = crate::convert::info_for(infos, layer.background@)->0;
                if info.geometry.tile_width == tile_size && info.geometry.tile_height == tile_size {
                    assert(layer_objects(lv) =~= seq![]);
                } else {
                    lemma_gms2_objects_numbered(layer, info, o, layer.tile_data@.len() as int);
                }
                lemma_numbered_push(out, lv, lid as int, oid as int, l as int, o as int, o2 as int);
            },
            _ => {},
        }
    }
}

proof fn lemma_instances_numbered(objs: Seq<GameObjectData>, sprites: Seq<SpriteInfoView>, oid: u32, n: int)
    requires
        instance_objects(objs, sprites, oid, n) is Some,
    ensures
        ({
            let (out, next) = instance_objects(objs, sprites, oid, n)->0;
            objects_numbered(out, oid as int, next as int)
        }),
    decreases n,
{
    if n > 0 {
        lemma_instances_numbered(objs, sprites, oid, n - 1);
    }
}

proof fn lemma_views_numbered(views: Seq<ViewData>, oid: u32, n: int)
    requires
        view_objects(views, oid, n) is Some,
    ensures
        ({
            let (out, next) = view_objects(views, oid, n)->0;
            objects_numbered(out, oid as int, next as int)
        }),
    decreases n,
{
    if n > 0 {
        lemma_views_numbered(views, oid, n - 1);
    }
}

proof fn lemma_single_layer_numbered(ls: Seq<LayerView>, lid: int, oid: int, l: int, o: int)
    requires
        ls.len() == 1,
        layer_id(ls[0]) == lid,
        l == lid + 1,
        objects_numbered(layer_objects(ls[0]), oid, o),
    ensures
        numbered(ls, lid, oid, l, o),
{
    let empty: Seq<LayerView> = seq![];
    assert(all_objects(empty) =~= seq![]);
    lemma_numbered_push(empty, ls[0], lid, oid, lid, oid, o);
    assert(empty.push(ls[0]) =~= ls);
}

/// Layer ids and object ids of a converted map are handed out from 1 in order, without gaps:
/// the layers carry 1, 2, ... and the map's next layer id follows the last; the objects of
/// all object layers, layer by layer, carry 1, 2, ... and the map's next object id follows
/// the last.
pub proof fn lemma_ids_numbered(room: RoomData, bgs: Seq<BackgroundDef>, tile_size: u32)
    requires
        spec_convert_room(room, bgs, tile_size) is Ok,
    ensures
        ({
            let map = spec_convert_room(room, bgs, tile_size)->Ok_0.0;
            numbered(map.layers, 1, 1, map.next_layer_id as int, map.next_object_id as int)
        }),
{
    let used = used_backgrounds(room);
    let (infos, bg_next) = spec_tileset_infos(room, bgs, tile_size, used, used.len() as int)->0;
    let objs = room.game_objects@;
    let (sprites, crop_base) = spec_sprite_infos(objs, bg_next, objs.len() as int)->0;
    let crops = spec_crop_sources(room.tiles@, infos, tile_size, room.tiles@.len() as int)->0;
    let map_w = crate::convert::cells(room.width, tile_size);
    let map_h = crate::convert::cells(room.height, tile_size);
    let ctx = Gms1Ctx { tiles: room.tiles@, infos, srcs: crops, crop_base, map_w, map_h, tile_size };
    let depths = depths_desc(tile_depths(room.tiles@));
    lemma_gms1_layers_numbered(ctx, depths, depths.len() as int, 1, 1);
    let (l1, lid1, oid1) = gms1_layers(ctx, depths, depths.len() as int, 1, 1)->0;
    let order = gms2_order(room.gms2_tile_layers@);
    lemma_gms2_layers_numbered(room.gms2_tile_layers@, order, infos, tile_size, lid1, oid1);
    let (l2, lid2, oid2) = gms2_layers(room.gms2_tile_layers@, order, infos, tile_size, lid1, oid1)->Ok_0;
    let (l3, lid3, oid3) = objects_layer(room, sprites, lid2, oid2)->0;
    if objs.len() == 0 {
        assert(all_objects(l3) =~= seq![]);
    } else {
        lemma_instances_numbered(objs, sprites, oid2, objs.len() as int);
        lemma_single_layer_numbered(l3, lid2 as int, oid2 as int, lid3 as int, oid3 as int);
    }
    let (l4, lid4, oid4) = views_layer(room, lid3, oid3)->0;
    if !crate::convert::has_enabled_view(room.views@) {
        assert(all_objects(l4) =~= seq![]);
    } else {
        lemma_views_numbered(room.views@, oid3, room.views@.len() as int);
        lemma_single_layer_numbered(l4, lid3 as int, oid3 as int, lid4 as int, oid4 as int);
    }
    lemma_numbered_concat(l1, l2, 1, 1, lid1 as int, oid1 as int, lid2 as int, oid2 as int);
    lemma_numbered_concat(l1 + l2, l3, 1, 1, lid2 as int, oid2 as int, lid3 as int, oid3 as int);
    lemma_numbered_concat(l1 + l2 + l3, l4, 1, 1, lid3 as int, oid3 as int, lid4 as int, oid4 as int);
}


/// How many of the first `n` tiles lie at `depth` off the map grid with a tileset for their
/// background.
pub open spec fn free_tile_count(
    tiles: Seq<TileData>,
    infos: Seq<TilesetInfoView>,
    tile_size: u32,
    depth: i32,
    n: int,
) -> nat
    decreases n,
{
    if n <= 0 {
        0
    } else {
        let t = tiles[n - 1];
        free_tile_count(tiles, infos, tile_size, depth, n - 1) + if t.depth == depth && !grid_aligned(t, tile_size)
            && info_for(infos, t.background@) is Some {
            1nat
        } else {
            0nat
        }
    }
}

proof fn lemma_source_index_exists(srcs: Seq<SourceView>, name: Seq<char>, m: int)
    requires
        0 <= m <= srcs.len(),
    ensures
        source_index(srcs, name, m) is Some <==> exists|j: int| 0 <= j < m && srcs[j].name == name,
    decreases m,
{
    if m > 0 {
        lemma_source_index_exists(srcs, name, m - 1);
    }
}

/// Every free tile that needs an image of its own finds it among the images to cut.
pub proof fn lemma_crop_sources_cover(tiles: Seq<TileData>, infos: Seq<TilesetInfoView>, tile_size: u32, n: int)
    requires
        0 <= n <= tiles.len(),
    ensures
        spec_crop_sources(tiles, infos, tile_size, n) matches Some(srcs) ==> forall|k: int|
            0 <= k < n && needs_crop(#[trigger] tiles[k], infos, tile_size) ==> exists|j: int|
                0 <= j < srcs.len() && srcs[j].name == crop_name(tiles[k]),
    decreases n,
{
    if n > 0 {
        lemma_crop_sources_cover(tiles, infos, tile_size, n - 1);
        if let Some(prev) = spec_crop_sources(tiles, infos, tile_size, n - 1) {
            let t = tiles[n - 1];
            lemma_source_index_exists(prev, crop_name(t), prev.len() as int);
            if let Some(srcs) = spec_crop_sources(tiles, infos, tile_size, n) {
                assert forall|k: int| 0 <= k < n && needs_crop(#[trigger] tiles[k], infos, tile_size) implies exists|j: int|
                    0 <= j < srcs.len() && srcs[j].name == crop_name(tiles[k]) by {
                    if k < n - 1 {
                        let j = choose|j: int| 0 <= j < prev.len() && prev[j].name == crop_name(tiles[k]);
                        assert(srcs[j] == prev[j]);
                    } else if srcs.len() > prev.len() {
                        assert(srcs[prev.len() as int].name == crop_name(t));
                    }
                }
            }
        }
    }
}

/// Every free tile at `depth` whose background has a tileset becomes one tile object, with
/// consecutive ids, when every free tile that needs an image of its own finds it among the
/// images to cut (as those of a conversion do, by `lemma_crop_sources_cover`).
pub proof fn lemma_free_tiles_become_objects(
    tiles: Seq<TileData>,
    infos: Seq<TilesetInfoView>,
    srcs: Seq<SourceView>,
    crop_base: u32,
    tile_size: u32,
    depth: i32,
    first_id: u32,
    n: int,
)
    requires
        0 <= n <= tiles.len(),
        forall|k: int|
            0 <= k < tiles.len() && needs_crop(#[trigger] tiles[k], infos, tile_size) ==> exists|j: int|
                0 <= j < srcs.len() && srcs[j].name == crop_name(tiles[k]),
    ensures
        gms1_free_objects(tiles, infos, srcs, crop_base, tile_size, depth, first_id, n) matches Some((objs, next))
            ==> objs.len() == free_tile_count(tiles, infos, tile_size, depth, n) && next == first_id + objs.len(),
    decreases n,
{
    if n > 0 {
        lemma_free_tiles_become_objects(tiles, infos, srcs, crop_base, tile_size, depth, first_id, n - 1);
        let t = tiles[n - 1];
        lemma_source_index_exists(srcs, crop_name(t), srcs.len() as int);
        if t.depth == depth && !grid_aligned(t, tile_size) && info_for(infos, t.background@) is Some {
            let info = info_for(infos, t.background@)->0;
            if !(matches_cell(t, info.geometry) || t.width == 0 || t.height == 0) {
                assert(needs_crop(t, infos, tile_size));
            }
        }
    }
}


/// A view object shows a room view: the view's rectangle in the room, and its port on screen
/// as the port properties.
pub open spec fn shows_view(o: MapObjectView, v: ViewData) -> bool {
    &&& o matches MapObjectView::View(vo)
    &&& vo.x == v.view_x
    &&& vo.y == v.view_y
    &&& vo.width == v.view_width
    &&& vo.height == v.view_height
    &&& vo.port_x == v.port_x
    &&& vo.port_y == v.port_y
    &&& vo.port_width == v.port_width
    &&& vo.port_height == v.port_height
}

pub open spec fn is_enabled(v: ViewData) -> bool {
    v.enabled
}

proof fn lemma_view_objects_show_views(views: Seq<ViewData>, oid: u32, n: int)
    requires
        0 <= n <= views.len(),
    ensures
        view_objects(views, oid, n) matches Some((out, _)) ==> {
            let e = views.take(n).filter(|v: ViewData| is_enabled(v));
            &&& out.len() == e.len()
            &&& forall|i: int| 0 <= i < out.len() ==> shows_view(#[trigger] out[i], e[i])
        },
    decreases n,
{
    if n == 0 {
        reveal(Seq::filter);
        assert(views.take(0).filter(|v: ViewData| is_enabled(v)) =~= Seq::<ViewData>::empty());
    } else {
        lemma_view_objects_show_views(views, oid, n - 1);
        assert(views.take(n) =~= views.take(n - 1).push(views[n - 1]));
        views.take(n - 1).lemma_filter_push(views[n - 1], |v: ViewData| is_enabled(v));
    }
}

/// A converted room with an enabled view ends with the `views` object layer, which holds one
/// view object per enabled view, in the room's order, each with the view's position and size
/// in the room and its port as properties.
pub proof fn lemma_views_layer_shows_the_views(room: RoomData, bgs: Seq<BackgroundDef>, tile_size: u32)
    requires
        spec_convert_room(room, bgs, tile_size) is Ok,
        exists|i: int| 0 <= i < room.views@.len() && room.views@[i].enabled,
    ensures
        ({
            let map = spec_convert_room(room, bgs, tile_size)->Ok_0.0;
            let e = room.views@.filter(|v: ViewData| is_enabled(v));
            &&& map.layers.len() > 0
            &&& map.layers.last() matches LayerView::Object(ol)
            &&& ol.name == "views"@
            &&& ol.objects.len() == e.len()
            &&& forall|i: int| 0 <= i < e.len() ==> shows_view(#[trigger] ol.objects[i], e[i])
        }),
{
    let used = used_backgrounds(room);
    let (infos, bg_next) = spec_tileset_infos(room, bgs, tile_size, used, used.len() as int)->0;
    let objs = room.game_objects@;
    let (sprites, crop_base) = spec_sprite_infos(objs, bg_next, objs.len() as int)->0;
    let crops = spec_crop_sources(room.tiles@, infos, tile_size, room.tiles@.len() as int)->0;
    let map_w = crate::convert::cells(room.width, tile_size);
    let map_h = crate::convert::cells(room.height, tile_size);
    let ctx = Gms1Ctx { tiles: room.tiles@, infos, srcs: crops, crop_base, map_w, map_h, tile_size };
    let depths = depths_desc(tile_depths(room.tiles@));
    let (l1, lid1, oid1) = gms1_layers(ctx, depths, depths.len() as int, 1, 1)->0;
    let order = gms2_order(room.gms2_tile_layers@);
    let (l2, lid2, oid2) = gms2_layers(room.gms2_tile_layers@, order, infos, tile_size, lid1, oid1)->Ok_0;
    let (l3, lid3, oid3) = objects_layer(room, sprites, lid2, oid2)->0;
    let (l4, lid4, oid4) = views_layer(room, lid3, oid3)->0;
    let map = spec_convert_room(room, bgs, tile_size)->Ok_0.0;
    assert(map.layers == l1 + l2 + l3 + l4);
    assert(crate::convert::has_enabled_view(room.views@));
    let views = room.views@;
    lemma_view_objects_show_views(views, oid3, views.len() as int);
    assert(views.take(views.len() as int) =~= views);
    assert(l4.len() == 1);
    assert(map.layers.last() == l4[0]);
}

} // verus!
