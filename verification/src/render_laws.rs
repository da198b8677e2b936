//! What holds between the room as GameMaker draws it and the converted map as Tiled draws it.
use vstd::prelude::*;

use crate::convert::{
    bg_tileset, cell_col, cell_row, grid_aligned, matches_cell, tile_gid, depths_desc, gms1_data, gms1_depth_layers, gms1_layers, gms2_data, gms2_gid, gms2_layer_step,
    gms2_layers, gms2_order, gms2_row_data, max1, objects_layer, spec_convert_room, spec_crop_sources,
    spec_geometry, spec_sprite_infos, spec_tileset_infos, tile_depths, used_backgrounds, uses_gms2_dims, views_layer,
    Geometry, Gms1Ctx, TilesetInfoView,
};
use crate::convert_laws::lemma_tileset_ids_partition;
use crate::model::{LayerView, TiledMapView, TilesetRefView, TilesetView};
use crate::raster::{lemma_gms2_tile_renders_alike_in_tiled, transformed_pixels, Pixmap, Rgba, TransformKind};
use crate::render::{
    ae_count, cell_op, gms1_depth_ops, gms1_ref_ops, gms2_layer_ops, gms2_ref_ops, gms2_row_ops, gms2_rows_ops,
    layer_ops, spec_reference_ops, diff_height, diff_width, gms1_op, covers, diff_pixel, ends_with_tsx, pair_at, pixel_sq_error, sq_error_sum, gms2_op, lemma_tileset_for_gid, lemma_tileset_name_of_tsx_path, ref_first_gid,
    gid_sorted, lemma_sort_by_gid_sorted, map_ops, spec_plan_tiled_map, spec_sorted_render_tilesets, spec_render_tileset, spec_render_tilesets, spec_tileset_for, spec_tileset_name,
    tile_layers_complete, DrawOp, RenderTileset,
};
use crate::schema::{background_index, BackgroundDef, Gms2TileLayer, RoomData, TileData};
use crate::tile_flags::spec_transform_flags;

verus! {

proof fn lemma_flag_bits(raw: u32)
    ensures
        spec_transform_flags(raw) & 0x1FFF_FFFF == 0,
{
    let f = spec_transform_flags(raw);
    assert(0x8000_0000u32 | 0x4000_0000u32 == 0xC000_0000u32) by (bit_vector);
    assert(0x8000_0000u32 | 0u32 == 0x8000_0000u32) by (bit_vector);
    assert(0u32 | 0x4000_0000u32 == 0x4000_0000u32) by (bit_vector);
    assert(0u32 | 0u32 == 0u32) by (bit_vector);
    assert(f == 0 || f == 0x8000_0000 || f == 0x4000_0000 || f == 0xC000_0000 || f == 0xA000_0000 || f
        == 0xE000_0000 || f == 0x2000_0000 || f == 0x6000_0000);
    assert(f == 0 || f == 0x8000_0000 || f == 0x4000_0000 || f == 0xC000_0000 || f == 0xA000_0000 || f
        == 0xE000_0000 || f == 0x2000_0000 || f == 0x6000_0000 ==> f & 0x1FFF_FFFF == 0) by (bit_vector);
}

proof fn lemma_id_and_flags(v: u32, f: u32)
    requires
        v < 0x2000_0000,
        f & 0x1FFF_FFFF == 0,
    ensures
        (v | f) & 0x1FFF_FFFF == v,
        (v | f) & 0xE000_0000 == f,
{
    assert((v | f) & 0x1FFF_FFFF == v && (v | f) & 0xE000_0000 == f) by (bit_vector)
        requires
            v < 0x2000_0000,
            f & 0x1FFF_FFFF == 0,
    ;
}

/// A GMS2 tile word that lands in a tile layer of the converted map is drawn alike by both
/// pictures: the map cell that holds its global id is drawn from the same texture page
/// region, at the same place, and its Tiled flip bits turn any picture of that region into
/// what GameMaker's transform bits make of it.
///
/// The cell is cell `r * lw + c` of a layer `lw` cells wide whose cells are `tile_size`
/// square, the tile's size in the background; the background's tileset starts at `first`
/// and holds the tile index, and no other tileset of the map covers its global id.
pub proof fn lemma_gms2_cell_drawn_as_reference(
    room: RoomData,
    name: Seq<char>,
    bg: BackgroundDef,
    tile_size: u32,
    geo: Geometry,
    first: u32,
    ts: Seq<RenderTileset>,
    i: int,
    raw: u32,
    r: int,
    c: int,
    lw: u32,
    data: Seq<u32>,
    tile: Pixmap,
)
    requires
        uses_gms2_dims(room, name, bg),
        spec_geometry(room, name, bg, tile_size) == Some(geo),
        geo.columns > 0,
        geo.tile_width == tile_size,
        geo.tile_height == tile_size,
        0 <= i < ts.len(),
        ts[i] == spec_render_tileset(bg_tileset(background_info(name, first, geo, bg)), first),
        first >= 1,
        raw % 0x8_0000 < geo.tile_count,
        first + raw % 0x8_0000 < 0x2000_0000,
        forall|j: int| 0 <= j < ts.len() && j != i ==> !covers(ts[j], first + raw % 0x8_0000),
        0 <= c < lw,
        0 <= r,
        0 <= r * lw + c < data.len(),
        gms2_gid(raw, first) == Some(data[r * lw + c]),
    ensures
        ({
            let g = gms2_op(bg, raw, r, c);
            cell_op(ts, tile_size, tile_size, lw, data, r * lw + c) matches Some(op) && op.region == g.region
                && op.x == g.x && op.y == g.y && op.kind == TransformKind::Tiled && op.bits
                == spec_transform_flags(raw) && transformed_pixels(tile, op.kind, op.bits) == transformed_pixels(
                tile,
                g.kind,
                g.bits,
            )
        }),
{
    let idx = (raw % 0x8_0000) as int;
    let k = r * lw + c;
    let gid = data[k];
    assert(raw & 0x7_FFFF == raw % 0x8_0000) by (bit_vector);
    lemma_flag_bits(raw);
    lemma_id_and_flags((first + idx) as u32, spec_transform_flags(raw));
    let id = gid & 0x1FFF_FFFF;
    assert(id == first + idx);
    assert(gid & 0xE000_0000 == spec_transform_flags(raw));
    let t = ts[i];
    assert(covers(t, id as int));
    lemma_tileset_for_gid(ts, id as int);
    assert(spec_tileset_for(ts, id as int) == Some(i));
    assert(k % (lw as int) == c && k / (lw as int) == r) by {
        vstd::arithmetic::div_mod::lemma_fundamental_div_mod_converse(k, lw as int, r, c);
    }
    lemma_gms2_tile_renders_alike_in_tiled(tile, raw);
    let g = gms2_op(bg, raw, r, c);
    let op = cell_op(ts, tile_size, tile_size, lw, data, k)->0;
    assert(t.columns == geo.columns);
    assert(t.tile_width == tile_size && t.tile_height == tile_size);
    assert(t.margin_x == bg.gms2_output_border_x);
    assert(t.spacing_x == 2 * bg.gms2_output_border_x);
    assert(crate::render::gms2_tile_w(bg) == tile_size);
    assert(crate::render::gms2_columns(bg) == geo.columns);
    let cols = geo.columns as int;
    let sx = (tile_size + 2 * bg.gms2_output_border_x) as int;
    let sy = (tile_size + 2 * bg.gms2_output_border_y) as int;
    assert(0 <= idx % cols <= idx && 0 <= idx / cols <= idx) by (nonlinear_arith)
        requires
            cols > 0,
            idx >= 0,
    ;
    assert((idx % cols) * sx <= 0x8_0000 * 0x3_0000_0000) by (nonlinear_arith)
        requires
            0 <= idx % cols <= idx < 0x8_0000,
            0 <= sx <= 0x3_0000_0000,
    ;
    assert((idx / cols) * sy <= 0x8_0000 * 0x3_0000_0000) by (nonlinear_arith)
        requires
            0 <= idx / cols <= idx < 0x8_0000,
            0 <= sy <= 0x3_0000_0000,
    ;
    assert(op.region == g.region);
    assert(op.x == g.x);
    assert(op.y == g.y);
}


/// A GMS1 tile on the map grid whose source is one cell of its tileset is drawn alike by both
/// pictures: the map cell that holds its global id gives exactly the drawing step of the
/// tile itself, the same page region at the same place, untransformed.
///
/// The tileset keeps the grid's tile size; the tile's cell lies inside the tileset's columns
/// and its id inside the tileset's range, which no other tileset of the map covers; the
/// layer is `lw` cells wide and reaches the tile's column.
pub proof fn lemma_gms1_cell_drawn_as_reference(
    room: RoomData,
    name: Seq<char>,
    bg: BackgroundDef,
    tile_size: u32,
    geo: Geometry,
    first: u32,
    ts: Seq<RenderTileset>,
    i: int,
    t: TileData,
    lw: u32,
    data: Seq<u32>,
)
    requires
        tile_size > 0,
        !uses_gms2_dims(room, name, bg),
        spec_geometry(room, name, bg, tile_size) == Some(geo),
        geo.tile_width == tile_size,
        geo.tile_height == tile_size,
        grid_aligned(t, tile_size),
        matches_cell(t, geo),
        cell_col(t, geo) < geo.columns,
        0 <= i < ts.len(),
        ts[i] == spec_render_tileset(bg_tileset(background_info(name, first, geo, bg)), first),
        first >= 1,
        tile_gid(t, background_info(name, first, geo, bg)) < first + max1(geo.tile_count as int),
        tile_gid(t, background_info(name, first, geo, bg)) < 0x2000_0000,
        forall|j: int|
            0 <= j < ts.len() && j != i ==> !covers(ts[j], tile_gid(t, background_info(name, first, geo, bg))),
        (t.x as int) / (tile_size as int) < lw,
        0 <= ((t.y as int) / (tile_size as int)) * lw + (t.x as int) / (tile_size as int) < data.len(),
        data[((t.y as int) / (tile_size as int)) * lw + (t.x as int) / (tile_size as int)] == tile_gid(
            t,
            background_info(name, first, geo, bg),
        ),
    ensures
        cell_op(
            ts,
            tile_size,
            tile_size,
            lw,
            data,
            ((t.y as int) / (tile_size as int)) * lw + (t.x as int) / (tile_size as int),
        ) == Some(gms1_op(t, bg)),
{
    let info = background_info(name, first, geo, bg);
    let ts_i = ts[i];
    let tsz = tile_size as int;
    let col = (t.x as int) / tsz;
    let row = (t.y as int) / tsz;
    let k = row * lw + col;
    let gid = data[k];
    let cc = cell_col(t, geo);
    let cr = cell_row(t, geo);
    assert(cc == (t.source_x as int) / tsz && cr == (t.source_y as int) / tsz);
    assert(cc >= 0 && cr >= 0) by (nonlinear_arith)
        requires
            cc == (t.source_x as int) / tsz,
            cr == (t.source_y as int) / tsz,
            tsz > 0,
    ;
    assert(gid & 0x1FFF_FFFF == gid && gid & 0xE000_0000 == 0) by (bit_vector)
        requires
            gid < 0x2000_0000,
    ;
    assert(covers(ts_i, gid as int));
    lemma_tileset_for_gid(ts, gid as int);
    assert(spec_tileset_for(ts, gid as int) == Some(i));
    let local = gid - first;
    let cols = geo.columns as int;
    assert(local == cr * cols + cc);
    assert(local % cols == cc && local / cols == cr) by {
        vstd::arithmetic::div_mod::lemma_fundamental_div_mod_converse(local, cols, cr, cc);
    }
    assert(cc * tsz == t.source_x && cr * tsz == t.source_y) by {
        vstd::arithmetic::div_mod::lemma_fundamental_div_mod(t.source_x as int, tsz);
        vstd::arithmetic::div_mod::lemma_fundamental_div_mod(t.source_y as int, tsz);
        assert(tsz * cc == cc * tsz) by (nonlinear_arith);
        assert(tsz * cr == cr * tsz) by (nonlinear_arith);
    }
    assert(col >= 0 && row >= 0) by (nonlinear_arith)
        requires
            col == (t.x as int) / tsz,
            row == (t.y as int) / tsz,
            t.x >= 0,
            t.y >= 0,
            tsz > 0,
    ;
    assert(k % (lw as int) == col && k / (lw as int) == row) by {
        vstd::arithmetic::div_mod::lemma_fundamental_div_mod_converse(k, lw as int, row, col);
    }
    assert(col * tsz == t.x && row * tsz == t.y) by {
        vstd::arithmetic::div_mod::lemma_fundamental_div_mod(t.x as int, tsz);
        vstd::arithmetic::div_mod::lemma_fundamental_div_mod(t.y as int, tsz);
        assert(tsz * col == col * tsz) by (nonlinear_arith);
        assert(tsz * row == row * tsz) by (nonlinear_arith);
    }
    let op = cell_op(ts, tile_size, tile_size, lw, data, k)->0;
    let g = gms1_op(t, bg);
    assert(op.region == g.region);
    assert(op == g);
}

/// The background tileset record that a conversion makes for background `bg`.
pub open spec fn background_info(name: Seq<char>, first: u32, geo: Geometry, bg: BackgroundDef) -> TilesetInfoView {
    TilesetInfoView {
        name,
        first_gid: first,
        geometry: geo,
        texture_page_index: bg.texture_page_index,
        source_x: bg.source_x,
        source_y: bg.source_y,
        source_width: bg.source_width,
        source_height: bg.source_height,
    }
}

/// The first id that the references give a name, found at reference `i` when no later
/// reference names it.
proof fn lemma_ref_first_gid_at(refs: Seq<TilesetRefView>, name: Seq<char>, i: int)
    requires
        0 <= i < refs.len(),
        spec_tileset_name(refs[i].tsx_path) == name,
        forall|j: int| i < j < refs.len() ==> spec_tileset_name(#[trigger] refs[j].tsx_path) != name,
    ensures
        ref_first_gid(refs, name) == Some(refs[i].first_gid),
    decreases refs.len(),
{
    if i < refs.len() - 1 {
        let r = refs.drop_last();
        assert forall|j: int| i < j < r.len() implies spec_tileset_name(#[trigger] r[j].tsx_path) != name by {
            assert(r[j] == refs[j]);
        }
        lemma_ref_first_gid_at(r, name, i);
    }
}

/// The tilesets of a converted map as the map's references name them.
pub open spec fn resolved_tilesets(refs: Seq<TilesetRefView>, tilesets: Seq<TilesetView>) -> Seq<RenderTileset> {
    Seq::new(tilesets.len(), |i: int| spec_render_tileset(tilesets[i], refs[i].first_gid))
}

/// Names that read back from their reference paths: no `/`, no trailing `.tsx`, and no two
/// alike.
pub open spec fn plain_distinct_names(tilesets: Seq<TilesetView>) -> bool {
    &&& forall|i: int|
        0 <= i < tilesets.len() ==> !(#[trigger] tilesets[i].name).contains('/') && !ends_with_tsx(tilesets[i].name)
    &&& forall|i: int, j: int|
        0 <= i < j < tilesets.len() ==> (#[trigger] tilesets[i]).name != (#[trigger] tilesets[j]).name
}

/// Drawing a converted map finds every tileset through the map's references, with the first
/// id the map gives it, in the map's own order (already in order of first id), when the
/// tileset names are plain and distinct; so planning the map succeeds.
pub proof fn lemma_converted_tilesets_resolve(room: RoomData, bgs: Seq<BackgroundDef>, tile_size: u32)
    requires
        spec_convert_room(room, bgs, tile_size) is Ok,
        plain_distinct_names(spec_convert_room(room, bgs, tile_size)->Ok_0.1),
    ensures
        ({
            let (map, tilesets, _, _) = spec_convert_room(room, bgs, tile_size)->Ok_0;
            let rts = resolved_tilesets(map.tilesets, tilesets);
            &&& spec_render_tilesets(map.tilesets, tilesets, tilesets.len() as int) == Ok::<
                Seq<RenderTileset>,
                Seq<char>,
            >(rts)
            &&& spec_sorted_render_tilesets(map.tilesets, tilesets) == Ok::<Seq<RenderTileset>, Seq<char>>(rts)
            &&& spec_plan_tiled_map(map, tilesets) == Ok::<Seq<DrawOp>, Seq<char>>(
                map_ops(rts, map, map.layers.len() as int),
            )
        }),
{
    lemma_tileset_ids_partition(room, bgs, tile_size);
    let (map, tilesets, _, _) = spec_convert_room(room, bgs, tile_size)->Ok_0;
    let refs = map.tilesets;
    assert forall|i: int| 0 <= i < refs.len() implies spec_tileset_name(#[trigger] refs[i].tsx_path)
        == tilesets[i].name by {
        lemma_tileset_name_of_tsx_path(tilesets[i].name);
    }
    lemma_resolve_prefix(refs, tilesets, tilesets.len() as int);
    let rts = resolved_tilesets(refs, tilesets);
    assert(rts.subrange(0, tilesets.len() as int) =~= rts);
    lemma_resolved_sorted(refs, tilesets);
    lemma_sort_by_gid_sorted(rts);
    assert(spec_sorted_render_tilesets(refs, tilesets) == Ok::<Seq<RenderTileset>, Seq<char>>(rts));
}

/// Tilesets whose id ranges follow one another are in order of first id.
proof fn lemma_resolved_sorted(refs: Seq<TilesetRefView>, tilesets: Seq<TilesetView>)
    requires
        refs.len() == tilesets.len(),
        forall|i: int|
            0 <= i < refs.len() - 1 ==> #[trigger] refs[i].first_gid + max1(tilesets[i].tile_count as int)
                == refs[i + 1].first_gid,
    ensures
        gid_sorted(resolved_tilesets(refs, tilesets)),
{
    let rts = resolved_tilesets(refs, tilesets);
    assert forall|i: int, j: int| 0 <= i < j < rts.len() implies (#[trigger] rts[i]).first_gid <= (
    #[trigger] rts[j]).first_gid by {
        lemma_first_gids_grow(refs, tilesets, i, j);
    }
}

proof fn lemma_resolve_prefix(refs: Seq<TilesetRefView>, tilesets: Seq<TilesetView>, n: int)
    requires
        0 <= n <= tilesets.len(),
        refs.len() == tilesets.len(),
        plain_distinct_names(tilesets),
        forall|i: int| 0 <= i < refs.len() ==> spec_tileset_name(#[trigger] refs[i].tsx_path) == tilesets[i].name,
    ensures
        spec_render_tilesets(refs, tilesets, n) == Ok::<Seq<RenderTileset>, Seq<char>>(
            resolved_tilesets(refs, tilesets).subrange(0, n),
        ),
    decreases n,
{
    if n > 0 {
        lemma_resolve_prefix(refs, tilesets, n - 1);
        let i = n - 1;
        assert forall|j: int| i < j < refs.len() implies spec_tileset_name(#[trigger] refs[j].tsx_path)
            != tilesets[i].name by {
            assert(spec_tileset_name(refs[j].tsx_path) == tilesets[j].name);
        }
        lemma_ref_first_gid_at(refs, tilesets[i].name, i);
        assert(resolved_tilesets(refs, tilesets).subrange(0, n) =~= resolved_tilesets(refs, tilesets).subrange(
            0,
            n - 1,
        ).push(spec_render_tileset(tilesets[i], refs[i].first_gid)));
    } else {
        assert(resolved_tilesets(refs, tilesets).subrange(0, 0) =~= Seq::<RenderTileset>::empty());
    }
}

/// The id ranges of a converted map's tilesets, as drawing sees them, do not overlap: each
/// ends before the next one starts. So no global id is covered by two tilesets.
pub proof fn lemma_converted_ranges_disjoint(room: RoomData, bgs: Seq<BackgroundDef>, tile_size: u32)
    requires
        spec_convert_room(room, bgs, tile_size) is Ok,
    ensures
        ({
            let (map, tilesets, _, _) = spec_convert_room(room, bgs, tile_size)->Ok_0;
            let rts = resolved_tilesets(map.tilesets, tilesets);
            forall|j: int, k: int| 0 <= j < k < rts.len() ==> (#[trigger] rts[j]).last_gid < (#[trigger] rts[k]).first_gid
        }),
{
    lemma_tileset_ids_partition(room, bgs, tile_size);
    let (map, tilesets, _, _) = spec_convert_room(room, bgs, tile_size)->Ok_0;
    let refs = map.tilesets;
    let rts = resolved_tilesets(refs, tilesets);
    assert forall|j: int, k: int| 0 <= j < k < rts.len() implies (#[trigger] rts[j]).last_gid < (
    #[trigger] rts[k]).first_gid by {
        lemma_first_gids_grow(refs, tilesets, j + 1, k);
        assert(refs[j].first_gid + max1(tilesets[j].tile_count as int) == refs[j + 1].first_gid);
    }
}

proof fn lemma_first_gids_grow(refs: Seq<TilesetRefView>, tilesets: Seq<TilesetView>, a: int, b: int)
    requires
        0 <= a <= b < refs.len(),
        refs.len() == tilesets.len(),
        forall|i: int|
            0 <= i < refs.len() - 1 ==> #[trigger] refs[i].first_gid + max1(tilesets[i].tile_count as int)
                == refs[i + 1].first_gid,
    ensures
        refs[a].first_gid <= refs[b].first_gid,
    decreases b - a,
{
    if a < b {
        lemma_first_gids_grow(refs, tilesets, a, b - 1);
        assert(refs[b - 1].first_gid + max1(tilesets[b - 1].tile_count as int) == refs[b].first_gid);
    }
}


/// A picture compared with itself differs nowhere: no pixel differs, the squared error is
/// zero and the difference picture is transparent throughout.
pub proof fn lemma_picture_matches_itself(a: Pixmap, n: int)
    requires
        n >= 0,
    ensures
        ae_count(a, a, n) == 0,
        sq_error_sum(a, a, n) == 0,
        forall|p: Rgba| #[trigger] diff_pixel(p, p) == crate::raster::transparent(),
    decreases n,
{
    if n > 0 {
        lemma_picture_matches_itself(a, n - 1);
    }
}

proof fn lemma_pixel_error_zero(l: Rgba, r: Rgba)
    ensures
        (pixel_sq_error(l, r) == 0) == (l == r),
{
    let dr = l.r - r.r;
    let dg = l.g - r.g;
    let db = l.b - r.b;
    let da = l.a - r.a;
    assert(dr * dr >= 0 && dg * dg >= 0 && db * db >= 0 && da * da >= 0) by (nonlinear_arith);
    assert(dr * dr == 0 <==> dr == 0) by (nonlinear_arith);
    assert(dg * dg == 0 <==> dg == 0) by (nonlinear_arith);
    assert(db * db == 0 <==> db == 0) by (nonlinear_arith);
    assert(da * da == 0 <==> da == 0) by (nonlinear_arith);
    let sum = dr * dr + dg * dg + db * db + da * da;
    assert(pixel_sq_error(l, r) == sum);
    if sum == 0 {
        assert(l.r == r.r && l.g == r.g && l.b == r.b && l.a == r.a);
        assert(l == r);
    }
}

/// The squared error of two pictures is zero exactly when no pixel differs, so the RMSE is
/// zero exactly when the comparison counts no differing pixel.
pub proof fn lemma_error_zero_iff_no_pixel_differs(a: Pixmap, b: Pixmap, n: int)
    requires
        n >= 0,
    ensures
        (sq_error_sum(a, b, n) == 0) == (ae_count(a, b, n) == 0),
    decreases n,
{
    if n > 0 {
        lemma_error_zero_iff_no_pixel_differs(a, b, n - 1);
        let (l, r) = pair_at(a, b, n - 1);
        lemma_pixel_error_zero(l, r);
    }
}


/// Every tile layer among `ls` holds a tile id for each of its cells.
pub open spec fn layers_complete(ls: Seq<LayerView>) -> bool {
    forall|i: int|
        0 <= i < ls.len() ==> (#[trigger] ls[i] matches LayerView::Tile(t) ==> t.data.len() >= t.width * t.height)
}

proof fn lemma_complete_concat(a: Seq<LayerView>, b: Seq<LayerView>)
    requires
        layers_complete(a),
        layers_complete(b),
    ensures
        layers_complete(a + b),
{
    assert forall|i: int| 0 <= i < (a + b).len() implies ((#[trigger] (a + b)[i]) matches LayerView::Tile(t)
        ==> t.data.len() >= t.width * t.height) by {
        if i < a.len() {
            assert((a + b)[i] == a[i]);
        } else {
            assert((a + b)[i] == b[i - a.len()]);
        }
    }
}

proof fn lemma_gms1_data_len(
    tiles: Seq<TileData>,
    infos: Seq<TilesetInfoView>,
    map_w: u32,
    map_h: u32,
    tile_size: u32,
    depth: i32,
    n: int,
)
    requires
        tile_size > 0,
    ensures
        gms1_data(tiles, infos, map_w, map_h, tile_size, depth, n) matches Some(d) ==> d.len() == map_w * map_h,
    decreases n,
{
    assert(map_w * map_h >= 0) by (nonlinear_arith);
    if n > 0 {
        lemma_gms1_data_len(tiles, infos, map_w, map_h, tile_size, depth, n - 1);
        if let Some(d) = gms1_data(tiles, infos, map_w, map_h, tile_size, depth, n - 1) {
            let t = tiles[n - 1];
            if grid_aligned(t, tile_size) {
                let col = (t.x as int) / (tile_size as int);
                let row = (t.y as int) / (tile_size as int);
                assert(col >= 0 && row >= 0) by (nonlinear_arith)
                    requires
                        col == (t.x as int) / (tile_size as int),
                        row == (t.y as int) / (tile_size as int),
                        t.x >= 0,
                        t.y >= 0,
                        tile_size > 0,
                ;
                if col < map_w && row < map_h {
                    assert(0 <= row * map_w + col < map_w * map_h) by (nonlinear_arith)
                        requires
                            0 <= col < map_w,
                            0 <= row < map_h,
                    ;
                }
            }
        }
    }
}

proof fn lemma_gms1_layers_complete(ctx: Gms1Ctx, depths: Seq<i32>, k: int, lid: u32, oid: u32)
    requires
        ctx.tile_size > 0,
    ensures
        gms1_layers(ctx, depths, k, lid, oid) matches Some((ls, _, _)) ==> layers_complete(ls),
    decreases k,
{
    if k > 0 {
        lemma_gms1_layers_complete(ctx, depths, k - 1, lid, oid);
        if let Some((ls, l, o)) = gms1_layers(ctx, depths, k - 1, lid, oid) {
            if let Some((more, _, _)) = gms1_depth_layers(ctx, depths[k - 1], l, o) {
                lemma_gms1_data_len(
                    ctx.tiles,
                    ctx.infos,
                    ctx.map_w,
                    ctx.map_h,
                    ctx.tile_size,
                    depths[k - 1],
                    ctx.tiles.len() as int,
                );
                assert(layers_complete(more));
                lemma_complete_concat(ls, more);
            }
        }
    } else {
        assert(layers_complete(seq![]));
    }
}

proof fn lemma_gms2_row_data_len(data: Seq<u32>, row: Seq<u32>, r: int, w: u32, first: u32, c: int)
    requires
        r >= 0,
    ensures
        gms2_row_data(data, row, r, w, first, c) matches Some(d) ==> d.len() == data.len(),
    decreases c,
{
    if c > 0 {
        lemma_gms2_row_data_len(data, row, r, w, first, c - 1);
        assert(r * w + (c - 1) >= 0) by (nonlinear_arith)
            requires
                r >= 0,
                c >= 1,
        ;
    }
}

proof fn lemma_gms2_data_len(layer: Gms2TileLayer, first: u32, r: int)
    ensures
        gms2_data(layer, first, r) matches Some(d) ==> d.len() == layer.tiles_x * layer.tiles_y,
    decreases r,
{
    if r > 0 {
        lemma_gms2_data_len(layer, first, r - 1);
        if let Some(d) = gms2_data(layer, first, r - 1) {
            let row = layer.tile_data@[r - 1]@;
            lemma_gms2_row_data_len(d, row, r - 1, layer.tiles_x, first, row.len() as int);
        }
    }
}

proof fn lemma_gms2_layers_complete(
    layers: Seq<Gms2TileLayer>,
    order: Seq<int>,
    infos: Seq<TilesetInfoView>,
    tile_size: u32,
    lid: u32,
    oid: u32,
)
    ensures
        gms2_layers(layers, order, infos, tile_size, lid, oid) matches Ok((ls, _, _)) ==> layers_complete(ls),
    decreases order.len(),
{
    if order.len() > 0 {
        lemma_gms2_layers_complete(layers, order.drop_last(), infos, tile_size, lid, oid);
        if let Ok((out, l, o)) = gms2_layers(layers, order.drop_last(), infos, tile_size, lid, oid) {
            let layer = layers[order.last()];
            lemma_gms2_data_len(layer, crate::convert::info_for(infos, layer.background@)->0.first_gid, layer.tile_data@.len() as int);
            if let Ok(Some((lv, _, _))) = gms2_layer_step(layer, infos, tile_size, l, o) {
                assert(layers_complete(seq![lv]));
                lemma_complete_concat(out, seq![lv]);
                assert(out.push(lv) =~= out + seq![lv]);
            }
        }
    } else {
        assert(layers_complete(seq![]));
    }
}

/// Every tile layer of a converted map holds a tile id for each of its cells, so a converted
/// map can always be planned for drawing.
pub proof fn lemma_converted_tile_layers_complete(room: RoomData, bgs: Seq<BackgroundDef>, tile_size: u32)
    requires
        tile_size > 0,
        spec_convert_room(room, bgs, tile_size) is Ok,
    ensures
        tile_layers_complete(spec_convert_room(room, bgs, tile_size)->Ok_0.0),
{
    let used = used_backgrounds(room);
    let (infos, bg_next) = spec_tileset_infos(room, bgs, tile_size, used, used.len() as int)->0;
    let objs = room.game_objects@;
    let (sprites, crop_base) = spec_sprite_infos(objs, bg_next, objs.len() as int)->0;
    let crops = spec_crop_sources(room.tiles@, infos, tile_size, room.tiles@.len() as int)->0;
    let map_w = crate::convert::cells(room.width, tile_size);
    let map_h = crate::convert::cells(room.height, tile_size);
    let ctx = Gms1Ctx { tiles: room.tiles@, infos, srcs: crops, crop_base, map_w, map_h, tile_size };
    let depths = depths_desc(tile_depths(room.tiles@));
    lemma_gms1_layers_complete(ctx, depths, depths.len() as int, 1, 1);
    let (l1, lid1, oid1) = gms1_layers(ctx, depths, depths.len() as int, 1, 1)->0;
    let order = gms2_order(room.gms2_tile_layers@);
    lemma_gms2_layers_complete(room.gms2_tile_layers@, order, infos, tile_size, lid1, oid1);
    let (l2, lid2, oid2) = gms2_layers(room.gms2_tile_layers@, order, infos, tile_size, lid1, oid1)->Ok_0;
    let (l3, lid3, oid3) = objects_layer(room, sprites, lid2, oid2)->0;
    let (l4, lid4, oid4) = views_layer(room, lid3, oid3)->0;
    assert(layers_complete(l3));
    assert(layers_complete(l4));
    lemma_complete_concat(l1, l2);
    lemma_complete_concat(l1 + l2, l3);
    lemma_complete_concat(l1 + l2 + l3, l4);
    let map = spec_convert_room(room, bgs, tile_size)->Ok_0.0;
    assert(map.layers == l1 + l2 + l3 + l4);
}


/// Comparing two pictures gives the same result whichever comes first: the same area, the
/// same differing pixels, the same squared error and the same difference picture.
pub proof fn lemma_comparison_is_symmetric(a: Pixmap, b: Pixmap, n: int)
    requires
        n >= 0,
    ensures
        diff_width(a, b) == diff_width(b, a),
        diff_height(a, b) == diff_height(b, a),
        ae_count(a, b, n) == ae_count(b, a, n),
        sq_error_sum(a, b, n) == sq_error_sum(b, a, n),
        forall|l: Rgba, r: Rgba| #[trigger] diff_pixel(l, r) == diff_pixel(r, l),
    decreases n,
{
    if n > 0 {
        lemma_comparison_is_symmetric(a, b, n - 1);
        let (l, r) = pair_at(a, b, n - 1);
        assert(pair_at(b, a, n - 1) == (r, l));
        lemma_pixel_error_symmetric(l, r);
    }
}

proof fn lemma_pixel_error_symmetric(l: Rgba, r: Rgba)
    ensures
        pixel_sq_error(l, r) == pixel_sq_error(r, l),
{
    assert((l.r - r.r) * (l.r - r.r) == (r.r - l.r) * (r.r - l.r)) by (nonlinear_arith);
    assert((l.g - r.g) * (l.g - r.g) == (r.g - l.g) * (r.g - l.g)) by (nonlinear_arith);
    assert((l.b - r.b) * (l.b - r.b) == (r.b - l.b) * (r.b - l.b)) by (nonlinear_arith);
    assert((l.a - r.a) * (l.a - r.a) == (r.a - l.a) * (r.a - l.a)) by (nonlinear_arith);
}


/// A map is drawn layer after layer in the map's order: its plan is the steps of the first
/// layer, then those of the second, and so on, each layer's steps together.
pub proof fn lemma_map_drawn_in_layer_order(ts: Seq<RenderTileset>, m: TiledMapView)
    ensures
        map_ops(ts, m, m.layers.len() as int) == m.layers.map_values(
            |l: LayerView| layer_ops(ts, m.tile_width, m.tile_height, l),
        ).flatten(),
{
    lemma_map_ops_prefix(ts, m, m.layers.len() as int);
    assert(m.layers.take(m.layers.len() as int) =~= m.layers);
}

proof fn lemma_map_ops_prefix(ts: Seq<RenderTileset>, m: TiledMapView, n: int)
    requires
        0 <= n <= m.layers.len(),
    ensures
        map_ops(ts, m, n) == m.layers.take(n).map_values(
            |l: LayerView| layer_ops(ts, m.tile_width, m.tile_height, l),
        ).flatten(),
    decreases n,
{
    let f = |l: LayerView| layer_ops(ts, m.tile_width, m.tile_height, l);
    if n == 0 {
        assert(m.layers.take(0).map_values(f) =~= Seq::<Seq<DrawOp>>::empty());
    } else {
        lemma_map_ops_prefix(ts, m, n - 1);
        let prev = m.layers.take(n - 1).map_values(f);
        assert(m.layers.take(n).map_values(f) =~= prev.push(f(m.layers[n - 1])));
        prev.lemma_flatten_push(f(m.layers[n - 1]));
    }
}

/// The plan of a map that can be drawn is its layers' steps in the map's layer order.
pub proof fn lemma_plan_in_layer_order(m: TiledMapView, tilesets: Seq<TilesetView>)
    ensures
        spec_plan_tiled_map(m, tilesets) matches Ok(ops) ==> spec_sorted_render_tilesets(m.tilesets, tilesets) matches Ok(
            rts,
        ) && ops == m.layers.map_values(|l: LayerView| layer_ops(rts, m.tile_width, m.tile_height, l)).flatten(),
{
    if let Ok(rts) = spec_sorted_render_tilesets(m.tilesets, tilesets) {
        lemma_map_drawn_in_layer_order(rts, m);
    }
}

/// How a GMS1 tile is drawn: the `width` x `height` region of its background's page at the
/// background's position plus the tile's source position, placed at the tile's position,
/// untransformed.
pub open spec fn draws_tile(op: DrawOp, t: TileData, bgs: Seq<BackgroundDef>) -> bool {
    &&& background_index(bgs, t.background@) matches Some(b)
    &&& op.region.texture_page_index == bgs[b].texture_page_index
    &&& op.region.source_x == bgs[b].source_x + t.source_x
    &&& op.region.source_y == bgs[b].source_y + t.source_y
    &&& op.region.source_width == t.width
    &&& op.region.source_height == t.height
    &&& op.x == t.x
    &&& op.y == t.y
    &&& op.bits == 0
}

proof fn lemma_gms1_depth_ops_draw_tiles(tiles: Seq<TileData>, bgs: Seq<BackgroundDef>, d: i32, n: int)
    requires
        0 <= n <= tiles.len(),
    ensures
        forall|k: int|
            0 <= k < gms1_depth_ops(tiles, bgs, d, n).len() ==> {
                &&& (#[trigger] gms1_depth_ops(tiles, bgs, d, n)[k]).kind == TransformKind::Tiled
                &&& exists|i: int|
                    0 <= i < n && tiles[i].depth == d && draws_tile(gms1_depth_ops(tiles, bgs, d, n)[k], tiles[i], bgs)
            },
    decreases n,
{
    if n > 0 {
        lemma_gms1_depth_ops_draw_tiles(tiles, bgs, d, n - 1);
        let prev = gms1_depth_ops(tiles, bgs, d, n - 1);
        let cur = gms1_depth_ops(tiles, bgs, d, n);
        assert forall|k: int| 0 <= k < cur.len() implies {
            &&& (#[trigger] cur[k]).kind == TransformKind::Tiled
            &&& exists|i: int| 0 <= i < n && tiles[i].depth == d && draws_tile(cur[k], tiles[i], bgs)
        } by {
            if k < prev.len() {
                assert(cur[k] == prev[k]);
                let i = choose|i: int| 0 <= i < n - 1 && tiles[i].depth == d && draws_tile(prev[k], tiles[i], bgs);
            } else {
                assert(draws_tile(cur[k], tiles[n - 1], bgs));
            }
        }
    }
}

proof fn lemma_gms1_ref_ops_draw_tiles(tiles: Seq<TileData>, bgs: Seq<BackgroundDef>, depths: Seq<i32>, k: int)
    requires
        0 <= k <= depths.len(),
    ensures
        forall|j: int|
            0 <= j < gms1_ref_ops(tiles, bgs, depths, k).len() ==> {
                &&& (#[trigger] gms1_ref_ops(tiles, bgs, depths, k)[j]).kind == TransformKind::Tiled
                &&& exists|i: int| 0 <= i < tiles.len() && draws_tile(gms1_ref_ops(tiles, bgs, depths, k)[j], tiles[i], bgs)
            },
    decreases k,
{
    if k > 0 {
        lemma_gms1_ref_ops_draw_tiles(tiles, bgs, depths, k - 1);
        lemma_gms1_depth_ops_draw_tiles(tiles, bgs, depths[k - 1], tiles.len() as int);
        let a = gms1_ref_ops(tiles, bgs, depths, k - 1);
        let b = gms1_depth_ops(tiles, bgs, depths[k - 1], tiles.len() as int);
        let c = gms1_ref_ops(tiles, bgs, depths, k);
        assert(c == a + b);
        assert forall|j: int| 0 <= j < c.len() implies {
            &&& (#[trigger] c[j]).kind == TransformKind::Tiled
            &&& exists|i: int| 0 <= i < tiles.len() && draws_tile(c[j], tiles[i], bgs)
        } by {
            if j < a.len() {
                assert(c[j] == a[j]);
                let i = choose|i: int| 0 <= i < tiles.len() && draws_tile(a[j], tiles[i], bgs);
            } else {
                assert(c[j] == b[j - a.len()]);
                let i = choose|i: int|
                    0 <= i < tiles.len() && tiles[i].depth == depths[k - 1] && draws_tile(b[j - a.len()], tiles[i], bgs);
            }
        }
    }
}

proof fn lemma_gms2_ops_kind(layers: Seq<Gms2TileLayer>, bgs: Seq<BackgroundDef>, order: Seq<int>)
    ensures
        forall|j: int|
            0 <= j < gms2_ref_ops(layers, bgs, order).len() ==> (#[trigger] gms2_ref_ops(layers, bgs, order)[j]).kind
                == TransformKind::Gms2,
    decreases order.len(),
{
    if order.len() > 0 {
        lemma_gms2_ops_kind(layers, bgs, order.drop_last());
        let l = layers[order.last()];
        if let Some(b) = background_index(bgs, l.background@) {
            lemma_gms2_layer_ops_kind(bgs[b], l);
        }
    }
}

proof fn lemma_gms2_layer_ops_kind(bg: BackgroundDef, l: Gms2TileLayer)
    ensures
        forall|j: int| 0 <= j < gms2_layer_ops(bg, l).len() ==> (#[trigger] gms2_layer_ops(bg, l)[j]).kind == TransformKind::Gms2,
{
    lemma_gms2_rows_kind(bg, l.tile_data@, l.tile_data@.len() as int);
}

proof fn lemma_gms2_rows_kind(bg: BackgroundDef, rows: Seq<Vec<u32>>, n: int)
    ensures
        forall|j: int| 0 <= j < gms2_rows_ops(bg, rows, n).len() ==> (#[trigger] gms2_rows_ops(bg, rows, n)[j]).kind == TransformKind::Gms2,
    decreases n,
{
    if n > 0 {
        lemma_gms2_rows_kind(bg, rows, n - 1);
        lemma_gms2_row_kind(bg, rows[n - 1]@, n - 1, rows[n - 1]@.len() as int);
        let a = gms2_rows_ops(bg, rows, n - 1);
        let b = gms2_row_ops(bg, rows[n - 1]@, n - 1, rows[n - 1]@.len() as int);
        assert forall|j: int| 0 <= j < (a + b).len() implies (#[trigger] (a + b)[j]).kind == TransformKind::Gms2 by {
            if j < a.len() {
                assert((a + b)[j] == a[j]);
            } else {
                assert((a + b)[j] == b[j - a.len()]);
            }
        }
    }
}

proof fn lemma_gms2_row_kind(bg: BackgroundDef, row: Seq<u32>, r: int, n: int)
    ensures
        forall|j: int| 0 <= j < gms2_row_ops(bg, row, r, n).len() ==> (#[trigger] gms2_row_ops(bg, row, r, n)[j]).kind == TransformKind::Gms2,
    decreases n,
{
    if n > 0 {
        lemma_gms2_row_kind(bg, row, r, n - 1);
    }
}

/// Every untransformed step of a room's reference plan draws one of the room's GMS1 tiles:
/// the tile's own width by its own height, from its background's page at the background's
/// position plus the tile's source position, at the tile's position. (GMS2 tiles are drawn
/// with their transform bits.)
pub proof fn lemma_reference_steps_draw_tiles(room: RoomData, bgs: Seq<BackgroundDef>)
    ensures
        forall|k: int|
            0 <= k < spec_reference_ops(room, bgs).len() && (#[trigger] spec_reference_ops(room, bgs)[k]).kind
                == TransformKind::Tiled ==> exists|i: int|
                0 <= i < room.tiles@.len() && draws_tile(spec_reference_ops(room, bgs)[k], room.tiles@[i], bgs),
{
    let depths = depths_desc(tile_depths(room.tiles@));
    let a = gms1_ref_ops(room.tiles@, bgs, depths, depths.len() as int);
    let b = gms2_ref_ops(room.gms2_tile_layers@, bgs, gms2_order(room.gms2_tile_layers@));
    lemma_gms1_ref_ops_draw_tiles(room.tiles@, bgs, depths, depths.len() as int);
    lemma_gms2_ops_kind(room.gms2_tile_layers@, bgs, gms2_order(room.gms2_tile_layers@));
    let ops = spec_reference_ops(room, bgs);
    assert(ops == a + b);
    assert forall|k: int| 0 <= k < ops.len() && (#[trigger] ops[k]).kind == TransformKind::Tiled implies exists|i: int|
        0 <= i < room.tiles@.len() && draws_tile(ops[k], room.tiles@[i], bgs) by {
        if k < a.len() {
            assert(ops[k] == a[k]);
            let i = choose|i: int| 0 <= i < room.tiles@.len() && draws_tile(a[k], room.tiles@[i], bgs);
        } else {
            assert(ops[k] == b[k - a.len()]);
        }
    }
}

} // verus!
