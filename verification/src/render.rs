//! Planning the static picture of a room and of a Tiled map, to compare the two.
//!
//! Drawing is planned here as a list of operations: which texture page region goes where,
//! with which transform. Blending the pixels is left to the caller.
use vstd::prelude::*;

use crate::model::{
    objects_view, refs_view, tilesets_view, Layer, LayerView, MapObject, MapObjectView, TileLayer, TileLayerView, TiledMap, TiledMapView, Tileset,
    TilesetRefView, TilesetView,
};
use crate::raster::{Pixmap, Rgba, TransformKind};
use crate::convert::{
    collect_layer_depths, collect_tile_depths, depth_order, depths_desc, gms2_order, indices_at_depth, layer_depths,
    sorted_distinct_desc, tile_depths,
};
use crate::schema::{background_index, find_background, lemma_background_index, BackgroundDef, Gms2TileLayer, RoomData, TileData, ViewData};
use crate::text::{chars_of, hex2, hex_digit_char, push_chars, spec_argb_to_hex};

verus! {

broadcast use vstd::string::group_string_axioms;

// ---------------------------------------------------------------------------------------------
// Colours
// ---------------------------------------------------------------------------------------------

/// Value of a hexadecimal digit (either case).
pub open spec fn hex_val(c: char) -> Option<int> {
    if '0' <= c && c <= '9' {
        Some(c as int - '0' as int)
    } else if 'a' <= c && c <= 'f' {
        Some(c as int - 'a' as int + 10)
    } else if 'A' <= c && c <= 'F' {
        Some(c as int - 'A' as int + 10)
    } else {
        None
    }
}

pub open spec fn all_hex(s: Seq<char>) -> bool {
    forall|i: int| 0 <= i < s.len() ==> hex_val(#[trigger] s[i]) is Some
}

/// Value of a sequence of hexadecimal digits.
pub open spec fn hex_value(s: Seq<char>) -> int
    decreases s.len(),
{
    if s.len() == 0 {
        0
    } else {
        hex_value(s.drop_last()) * 16 + hex_val(s.last())->0
    }
}

/// The colour with the red, green and blue bytes of `n` and full alpha.
pub open spec fn rgb_of(n: int) -> Rgba {
    Rgba { r: ((n / 0x1_0000) % 256) as u8, g: ((n / 0x100) % 256) as u8, b: (n % 256) as u8, a: 255 }
}

/// A `#rrggbb` colour: `#` and six characters that read as one unsigned hexadecimal number
/// (digits of either case, with an optional leading `+`). Anything else is no colour.
pub open spec fn spec_parse_hex_rgb(v: Seq<char>) -> Option<Rgba> {
    if v.len() == 7 && v[0] == '#' {
        let d = v.subrange(1, 7);
        let digits = if d[0] == '+' {
            d.subrange(1, 6)
        } else {
            d
        };
        if all_hex(digits) {
            Some(rgb_of(hex_value(digits)))
        } else {
            None
        }
    } else {
        None
    }
}

fn hex_digit_value(c: char) -> (r: Option<u32>)
    ensures
        r matches Some(v) ==> hex_val(c) == Some(v as int) && v < 16,
        r is None ==> hex_val(c) is None,
{
    if '0' <= c && c <= '9' {
        Some(c as u32 - '0' as u32)
    } else if 'a' <= c && c <= 'f' {
        Some(c as u32 - 'a' as u32 + 10)
    } else if 'A' <= c && c <= 'F' {
        Some(c as u32 - 'A' as u32 + 10)
    } else {
        None
    }
}

/// Parses a `#rrggbb` colour into an opaque colour.
pub fn parse_hex_rgb(value: &str) -> (r: Option<Rgba>)
    ensures
        r == spec_parse_hex_rgb(value@),
{
    let v = chars_of(value);
    if v.len() != 7 || v[0] != '#' {
        return None;
    }
    let start: usize = if v[1] == '+' { 2 } else { 1 };
    let ghost digits = v@.subrange(start as int, 7);
    assert(digits == (if v@.subrange(1, 7)[0] == '+' {
        v@.subrange(1, 7).subrange(1, 6)
    } else {
        v@.subrange(1, 7)
    })) by {
        assert(v@.subrange(1, 7).subrange(1, 6) =~= v@.subrange(2, 7));
    }
    let mut n: u32 = 0;
    let mut i: usize = start;
    while i < 7
        invariant
            v@ == value@,
            v@.len() == 7,
            v@[0] == '#',
            digits == (if v@.subrange(1, 7)[0] == '+' {
                v@.subrange(1, 7).subrange(1, 6)
            } else {
                v@.subrange(1, 7)
            }),
            1 <= start <= 2,
            start <= i <= 7,
            digits == v@.subrange(start as int, 7),
            all_hex(v@.subrange(start as int, i as int)),
            n == hex_value(v@.subrange(start as int, i as int)),
            n < pow16(i - start),
        decreases 7 - i,
    {
        match hex_digit_value(v[i]) {
            Some(d) => {
                assert(v@.subrange(start as int, i + 1).drop_last() =~= v@.subrange(start as int, i as int));
                assert(n * 16 + d < pow16(i + 1 - start)) by (nonlinear_arith)
                    requires
                        n < pow16(i - start),
                        d < 16,
                        pow16(i + 1 - start) == pow16(i - start) * 16,
                ;
                assert(pow16(i + 1 - start) <= 0x100_0000) by {
                    lemma_pow16_bound((i + 1 - start) as nat);
                }
                n = n * 16 + d;
                i += 1;
            },
            None => {
                assert(!all_hex(digits)) by {
                    assert(digits[i - start] == v@[i as int]);
                    assert(hex_val(digits[i - start]) is None);
                }
                return None;
            },
        }
    }
    assert(v@.subrange(start as int, 7) =~= digits);
    let r = (n >> 16) & 0xFF;
    let g = (n >> 8) & 0xFF;
    let b = n & 0xFF;
    assert(r == (n / 0x1_0000) % 256 && g == (n / 0x100) % 256 && b == n % 256) by (bit_vector)
        requires
            r == (n >> 16) & 0xFF,
            g == (n >> 8) & 0xFF,
            b == n & 0xFF,
    ;
    Some(Rgba { r: r as u8, g: g as u8, b: b as u8, a: 255 })
}

pub open spec fn pow16(k: int) -> int
    decreases k,
{
    if k <= 0 {
        1
    } else {
        16 * pow16(k - 1)
    }
}

proof fn lemma_pow16_bound(k: nat)
    requires
        k <= 6,
    ensures
        pow16(k as int) <= 0x100_0000,
        pow16(k as int) >= 1,
{
    reveal_with_fuel(pow16, 7);
    if k == 0 {
    } else if k == 1 {
    } else if k == 2 {
    } else if k == 3 {
    } else if k == 4 {
    } else if k == 5 {
    } else {
        assert(k == 6);
    }
}

proof fn lemma_hex_digit_roundtrip(d: int)
    requires
        0 <= d < 16,
    ensures
        hex_val(hex_digit_char(d)) == Some(d),
{
}

/// A colour written by `argb_to_hex` reads back as its red, green and blue bytes, opaque.
pub proof fn lemma_hex_colour_roundtrip(color: u32)
    ensures
        spec_parse_hex_rgb(spec_argb_to_hex(color)) == Some(rgb_of(color as int)),
{
    let r = ((color / 0x1_0000) % 256) as int;
    let g = ((color / 0x100) % 256) as int;
    let b = (color % 256) as int;
    let s = spec_argb_to_hex(color);
    let digits = s.subrange(1, 7);
    assert(digits =~= hex2(r) + hex2(g) + hex2(b));
    lemma_hex_digit_roundtrip(r / 16);
    lemma_hex_digit_roundtrip(r % 16);
    lemma_hex_digit_roundtrip(g / 16);
    lemma_hex_digit_roundtrip(g % 16);
    lemma_hex_digit_roundtrip(b / 16);
    lemma_hex_digit_roundtrip(b % 16);
    assert(digits[0] != '+');
    assert(all_hex(digits));
    let n = hex_value(digits);
    assert(digits.drop_last() =~= digits.subrange(0, 5));
    assert(digits.subrange(0, 5).drop_last() =~= digits.subrange(0, 4));
    assert(digits.subrange(0, 4).drop_last() =~= digits.subrange(0, 3));
    assert(digits.subrange(0, 3).drop_last() =~= digits.subrange(0, 2));
    assert(digits.subrange(0, 2).drop_last() =~= digits.subrange(0, 1));
    assert(digits.subrange(0, 1).drop_last() =~= seq![]);
    assert(hex_value(seq![]) == 0);
    assert(hex_value(digits.subrange(0, 1)) == r / 16);
    assert(hex_value(digits.subrange(0, 2)) == (r / 16) * 16 + r % 16);
    assert(hex_value(digits.subrange(0, 2)) == r);
    assert(hex_value(digits.subrange(0, 3)) == r * 16 + g / 16);
    assert(hex_value(digits.subrange(0, 4)) == (r * 16 + g / 16) * 16 + g % 16);
    assert(hex_value(digits.subrange(0, 4)) == r * 256 + g);
    assert(hex_value(digits.subrange(0, 5)) == (r * 256 + g) * 16 + b / 16);
    assert(hex_value(digits) == ((r * 256 + g) * 16 + b / 16) * 16 + b % 16);
    assert(n == r * 0x1_0000 + g * 0x100 + b);
    assert(rgb_of(n) == rgb_of(color as int)) by {
        assert((r * 0x1_0000 + g * 0x100 + b) / 0x1_0000 % 256 == r) by (nonlinear_arith)
            requires
                0 <= r < 256,
                0 <= g < 256,
                0 <= b < 256,
        ;
        assert((r * 0x1_0000 + g * 0x100 + b) / 0x100 % 256 == g) by (nonlinear_arith)
            requires
                0 <= r < 256,
                0 <= g < 256,
                0 <= b < 256,
        ;
        assert((r * 0x1_0000 + g * 0x100 + b) % 256 == b) by (nonlinear_arith)
            requires
                0 <= r < 256,
                0 <= g < 256,
                0 <= b < 256,
        ;
    }
}

/// The colour of an ARGB word, alpha included.
pub open spec fn spec_argb_to_rgba(color: u32) -> Rgba {
    Rgba {
        r: ((color / 0x1_0000) % 256) as u8,
        g: ((color / 0x100) % 256) as u8,
        b: (color % 256) as u8,
        a: ((color / 0x100_0000) % 256) as u8,
    }
}

/// The colour of an ARGB word, alpha included.
pub fn argb_to_rgba(color: u32) -> (r: Rgba)
    ensures
        r == spec_argb_to_rgba(color),
{
    let r = (color >> 16) & 0xFF;
    let g = (color >> 8) & 0xFF;
    let b = color & 0xFF;
    let a = (color >> 24) & 0xFF;
    assert(r == (color / 0x1_0000) % 256 && g == (color / 0x100) % 256 && b == color % 256 && a == (color
        / 0x100_0000) % 256) by (bit_vector)
        requires
            r == (color >> 16) & 0xFF,
            g == (color >> 8) & 0xFF,
            b == color & 0xFF,
            a == (color >> 24) & 0xFF,
    ;
    Rgba { r: r as u8, g: g as u8, b: b as u8, a: a as u8 }
}

/// The backdrop of a room: its background colour when it draws one, else transparent.
pub fn room_background(room: &RoomData) -> (r: Rgba)
    ensures
        r == (if room.draw_background_color {
            spec_argb_to_rgba(room.background_color)
        } else {
            crate::raster::transparent()
        }),
{
    if room.draw_background_color {
        argb_to_rgba(room.background_color)
    } else {
        Rgba { r: 0, g: 0, b: 0, a: 0 }
    }
}

/// The backdrop of a map: its background colour when it has a readable one, else
/// transparent.
pub fn tiled_background(map: &TiledMap) -> (r: Rgba)
    ensures
        r == (match map.background_color {
            Some(c) => match spec_parse_hex_rgb(c@) {
                Some(rgb) => rgb,
                None => crate::raster::transparent(),
            },
            None => crate::raster::transparent(),
        }),
{
    match &map.background_color {
        Some(c) => match parse_hex_rgb(c.as_str()) {
            Some(rgb) => rgb,
            None => Rgba { r: 0, g: 0, b: 0, a: 0 },
        },
        None => Rgba { r: 0, g: 0, b: 0, a: 0 },
    }
}


// ---------------------------------------------------------------------------------------------
// Tileset names
// ---------------------------------------------------------------------------------------------

/// The position just after the last `/` among the first `n` characters of `p` (0 when there
/// is none).
pub open spec fn after_last_slash(p: Seq<char>, n: int) -> int
    decreases n,
{
    if n <= 0 {
        0
    } else if p[n - 1] == '/' {
        n
    } else {
        after_last_slash(p, n - 1)
    }
}

pub open spec fn ends_with_tsx(s: Seq<char>) -> bool {
    s.len() >= 4 && s.subrange(s.len() - 4, s.len() as int) == ".tsx"@
}

/// `s` without every `.tsx` at its end.
pub open spec fn trim_tsx(s: Seq<char>) -> Seq<char>
    decreases s.len(),
{
    if ends_with_tsx(s) {
        trim_tsx(s.subrange(0, s.len() - 4))
    } else {
        s
    }
}

/// The name of the tileset a path refers to: the last path segment without `.tsx`.
pub open spec fn spec_tileset_name(p: Seq<char>) -> Seq<char> {
    trim_tsx(p.subrange(after_last_slash(p, p.len() as int), p.len() as int))
}

/// The name of the tileset a `.tsx` path refers to: the part after the last `/`, with every
/// trailing `.tsx` taken off.
pub fn tileset_name_from_path(path: &str) -> (r: String)
    ensures
        r@ == spec_tileset_name(path@),
{
    let v = chars_of(path);
    let len = v.len();
    let mut start = len;
    while start > 0 && v[start - 1] != '/'
        invariant
            len == v@.len(),
            start <= len,
            after_last_slash(v@, len as int) == after_last_slash(v@, start as int),
        decreases start,
    {
        start -= 1;
    }
    assert(after_last_slash(v@, start as int) == start as int);
    let mut end = len;
    assert(v@.subrange(start as int, len as int) =~= v@.subrange(start as int, end as int));
    while end - start >= 4 && v[end - 4] == '.' && v[end - 3] == 't' && v[end - 2] == 's' && v[end - 1] == 'x'
        invariant
            len == v@.len(),
            start <= end <= len,
            trim_tsx(v@.subrange(start as int, len as int)) == trim_tsx(v@.subrange(start as int, end as int)),
        decreases end,
    {
        let ghost s = v@.subrange(start as int, end as int);
        proof {
            reveal_strlit(".tsx");
        }
        assert(s.subrange(s.len() - 4, s.len() as int) =~= ".tsx"@);
        assert(s.subrange(0, s.len() - 4) =~= v@.subrange(start as int, end - 4));
        end -= 4;
    }
    let ghost s = v@.subrange(start as int, end as int);
    assert(!ends_with_tsx(s)) by {
        reveal_strlit(".tsx");
        if s.len() >= 4 {
            let t = s.subrange(s.len() - 4, s.len() as int);
            if t == ".tsx"@ {
                assert(t[0] == v@[end - 4]);
                assert(t[1] == v@[end - 3]);
                assert(t[2] == v@[end - 2]);
                assert(t[3] == v@[end - 1]);
            }
        }
    }
    let mut out = String::new();
    push_chars(&mut out, &v, start, end);
    assert(out@ =~= s);
    out
}

proof fn lemma_no_slash_after(p: Seq<char>, m: int, n: int)
    requires
        0 <= m <= n <= p.len(),
        forall|k: int| m <= k < n ==> p[k] != '/',
    ensures
        after_last_slash(p, n) == after_last_slash(p, m),
    decreases n - m,
{
    if n > m {
        lemma_no_slash_after(p, m, n - 1);
    }
}

/// A tileset's reference path gives back its name: for a name without `/` that does not
/// end in `.tsx`, the name read from `tilesets/<name>.tsx` is the name.
pub proof fn lemma_tileset_name_of_tsx_path(name: Seq<char>)
    requires
        !name.contains('/'),
        !ends_with_tsx(name),
    ensures
        spec_tileset_name(crate::convert::tsx_path(name)) == name,
{
    let p = crate::convert::tsx_path(name);
    let prefix = "tilesets/"@;
    reveal_strlit("tilesets/");
    reveal_strlit(".tsx");
    assert(prefix.len() == 9);
    assert(".tsx"@.len() == 4);
    assert(p.len() == name.len() + 13);
    assert forall|k: int| 9 <= k < p.len() implies p[k] != '/' by {
        if k < 9 + name.len() {
            assert(p[k] == name[k - 9]);
            if name[k - 9] == '/' {
                assert(name.contains('/'));
            }
        } else {
            assert(p[k] == ".tsx"@[k - 9 - name.len()]);
        }
    }
    lemma_no_slash_after(p, 9, p.len() as int);
    assert(p[8] == '/');
    assert(after_last_slash(p, 9) == 9);
    let seg = p.subrange(9, p.len() as int);
    assert(seg =~= name + ".tsx"@);
    assert(seg.subrange(seg.len() - 4, seg.len() as int) =~= ".tsx"@);
    assert(seg.subrange(0, seg.len() - 4) =~= name);
    assert(ends_with_tsx(seg));
    assert(trim_tsx(seg) == trim_tsx(name));
    assert(trim_tsx(name) == name);
    assert(after_last_slash(p, p.len() as int) == 9);
}


// ---------------------------------------------------------------------------------------------
// Drawing steps
// ---------------------------------------------------------------------------------------------

/// A rectangle of a texture page.
#[derive(Clone, Copy, Debug, PartialEq, Eq, Hash, Structural)]
pub struct RegionKey {
    pub texture_page_index: usize,
    pub source_x: u64,
    pub source_y: u64,
    pub source_width: u64,
    pub source_height: u64,
}

/// One drawing step: the texture page region, drawn with the transform, its top-left corner
/// at (`x`, `y`) of the canvas.
#[derive(Clone, Copy, Debug)]
pub struct DrawOp {
    pub region: RegionKey,
    pub x: i64,
    pub y: i64,
    pub kind: TransformKind,
    pub bits: u32,
}

/// `v` as a `u64`, at most `u64::MAX`. A page coordinate that large lies outside every page,
/// as the exact one does.
pub open spec fn sat_u64(v: int) -> u64 {
    if v > u64::MAX {
        u64::MAX
    } else if v < 0 {
        0
    } else {
        v as u64
    }
}

/// `v` as an `i64`, cut to the type's range. A canvas position that far out lies outside every
/// canvas, as the exact one does.
pub open spec fn sat_i64(v: int) -> i64 {
    if v > i64::MAX {
        i64::MAX
    } else if v < i64::MIN {
        i64::MIN
    } else {
        v as i64
    }
}

fn sat_u64_of(v: u128) -> (r: u64)
    ensures
        r == sat_u64(v as int),
{
    if v > u64::MAX as u128 {
        u64::MAX
    } else {
        v as u64
    }
}

fn sat_i64_of(v: i128) -> (r: i64)
    ensures
        r == sat_i64(v as int),
{
    if v > i64::MAX as i128 {
        i64::MAX
    } else if v < i64::MIN as i128 {
        i64::MIN
    } else {
        v as i64
    }
}

// ---------------------------------------------------------------------------------------------
// Tilesets of a map, for drawing
// ---------------------------------------------------------------------------------------------

/// A tileset with the global tile ids it covers.
#[derive(Clone, Copy, Debug)]
pub struct RenderTileset {
    pub first_gid: u32,
    pub last_gid: u64,
    pub texture_page_index: usize,
    pub source_x: u32,
    pub source_y: u32,
    pub tile_width: u32,
    pub tile_height: u32,
    pub columns: u32,
    pub margin_x: u32,
    pub margin_y: u32,
    pub spacing_x: u32,
    pub spacing_y: u32,
}

/// Why a map cannot be drawn.
#[derive(Debug)]
pub enum RenderError {
    /// No tileset reference of the map names this tileset.
    MissingFirstGid(String),
}

pub open spec fn max1u(v: u32) -> u32 {
    if v == 0 {
        1
    } else {
        v
    }
}

/// A tileset that starts at `first_gid` and covers its `tile_count` ids (at least one); its
/// tile size and column count are at least one.
pub open spec fn spec_render_tileset(t: TilesetView, first_gid: u32) -> RenderTileset {
    RenderTileset {
        first_gid,
        last_gid: (first_gid + if t.tile_count > 0 {
            t.tile_count - 1
        } else {
            0
        }) as u64,
        texture_page_index: t.source_texture_page_index,
        source_x: t.source_x,
        source_y: t.source_y,
        tile_width: max1u(t.tile_width),
        tile_height: max1u(t.tile_height),
        columns: max1u(t.columns),
        margin_x: t.margin_x,
        margin_y: t.margin_y,
        spacing_x: t.spacing_x,
        spacing_y: t.spacing_y,
    }
}

pub open spec fn render_tileset_wf(t: RenderTileset) -> bool {
    t.columns >= 1 && t.tile_width >= 1 && t.tile_height >= 1 && t.first_gid <= t.last_gid
}

/// The first global id that the map's references give the tileset called `name`: the last
/// reference whose path names it wins, as in a table filled from the references in order.
pub open spec fn ref_first_gid(refs: Seq<TilesetRefView>, name: Seq<char>) -> Option<u32>
    decreases refs.len(),
{
    if refs.len() == 0 {
        None
    } else if spec_tileset_name(refs.last().tsx_path) == name {
        Some(refs.last().first_gid)
    } else {
        ref_first_gid(refs.drop_last(), name)
    }
}

/// The first `n` tilesets with their id ranges, or the name of the first of them that no
/// reference names.
pub open spec fn spec_render_tilesets(refs: Seq<TilesetRefView>, ts: Seq<TilesetView>, n: int) -> Result<
    Seq<RenderTileset>,
    Seq<char>,
>
    decreases n,
{
    if n <= 0 {
        Ok(seq![])
    } else {
        match spec_render_tilesets(refs, ts, n - 1) {
            Err(e) => Err(e),
            Ok(s) => match ref_first_gid(refs, ts[n - 1].name) {
                None => Err(ts[n - 1].name),
                Some(f) => Ok(s.push(spec_render_tileset(ts[n - 1], f))),
            },
        }
    }
}

proof fn lemma_render_tilesets_err_stays(refs: Seq<TilesetRefView>, ts: Seq<TilesetView>, i: int, n: int)
    requires
        0 <= i <= n,
        spec_render_tilesets(refs, ts, i) is Err,
    ensures
        spec_render_tilesets(refs, ts, n) == spec_render_tilesets(refs, ts, i),
    decreases n - i,
{
    if n > i {
        lemma_render_tilesets_err_stays(refs, ts, i, n - 1);
    }
}

/// `s` with `x` placed after every tileset whose first id is at most `x`'s.
pub open spec fn insert_by_gid(s: Seq<RenderTileset>, x: RenderTileset) -> Seq<RenderTileset>
    decreases s.len(),
{
    if s.len() == 0 {
        seq![x]
    } else if s.last().first_gid <= x.first_gid {
        s.push(x)
    } else {
        insert_by_gid(s.drop_last(), x).push(s.last())
    }
}

/// `s` ordered by first id; tilesets with the same first id keep their order.
pub open spec fn sort_by_gid(s: Seq<RenderTileset>) -> Seq<RenderTileset>
    decreases s.len(),
{
    if s.len() == 0 {
        s
    } else {
        insert_by_gid(sort_by_gid(s.drop_last()), s.last())
    }
}

/// The tilesets are in order of first id.
pub open spec fn gid_sorted(s: Seq<RenderTileset>) -> bool {
    forall|i: int, j: int| 0 <= i < j < s.len() ==> (#[trigger] s[i]).first_gid <= (#[trigger] s[j]).first_gid
}

/// The tilesets with their id ranges, in order of first id, or the name of the first tileset
/// that no reference names.
pub open spec fn spec_sorted_render_tilesets(refs: Seq<TilesetRefView>, ts: Seq<TilesetView>) -> Result<
    Seq<RenderTileset>,
    Seq<char>,
> {
    match spec_render_tilesets(refs, ts, ts.len() as int) {
        Ok(s) => Ok(sort_by_gid(s)),
        Err(e) => Err(e),
    }
}

proof fn lemma_insert_by_gid(s: Seq<RenderTileset>, x: RenderTileset)
    requires
        gid_sorted(s),
    ensures
        gid_sorted(insert_by_gid(s, x)),
        insert_by_gid(s, x).len() == s.len() + 1,
        insert_by_gid(s, x).to_multiset() == s.to_multiset().insert(x),
    decreases s.len(),
{
    broadcast use vstd::seq_lib::to_multiset_build, vstd::multiset::group_multiset_axioms;

    if s.len() > 0 {
        if s.last().first_gid > x.first_gid {
            let p = s.drop_last();
            assert(gid_sorted(p));
            lemma_insert_by_gid(p, x);
            let q = insert_by_gid(p, x);
            assert(s =~= p.push(s.last()));
            assert forall|i: int, j: int| 0 <= i < j < q.push(s.last()).len() implies (#[trigger] q.push(
                s.last(),
            )[i]).first_gid <= (#[trigger] q.push(s.last())[j]).first_gid by {
                if j == q.len() {
                    // every element of q is x or an element of p
                    assert(q.contains(q[i]));
                    vstd::seq_lib::to_multiset_contains(q, q[i]);
                    assert(q.to_multiset() == p.to_multiset().insert(x));
                    if q[i] != x {
                        assert(p.to_multiset().count(q[i]) > 0);
                        vstd::seq_lib::to_multiset_contains(p, q[i]);
                        assert(p.contains(q[i]));
                        let k = choose|k: int| 0 <= k < p.len() && p[k] == q[i];
                        assert(s[k] == q[i]);
                    }
                }
            }
            assert(insert_by_gid(s, x) == q.push(s.last()));
            assert(p.push(s.last()).to_multiset() == p.to_multiset().insert(s.last()));
            assert(q.push(s.last()).to_multiset() == q.to_multiset().insert(s.last()));
            assert(s.to_multiset().insert(x) =~= p.to_multiset().insert(x).insert(s.last()));
        } else {
            assert(s.push(x).to_multiset() == s.to_multiset().insert(x));
        }
    } else {
        assert(s.push(x).to_multiset() == s.to_multiset().insert(x));
        assert(s.push(x) =~= seq![x]);
    }
}

/// Ordering by first id keeps every tileset, as often as given, and puts them in order.
pub proof fn lemma_sort_by_gid(s: Seq<RenderTileset>)
    ensures
        gid_sorted(sort_by_gid(s)),
        sort_by_gid(s).len() == s.len(),
        sort_by_gid(s).to_multiset() == s.to_multiset(),
    decreases s.len(),
{
    broadcast use vstd::seq_lib::to_multiset_build;

    if s.len() > 0 {
        lemma_sort_by_gid(s.drop_last());
        lemma_insert_by_gid(sort_by_gid(s.drop_last()), s.last());
        assert(s =~= s.drop_last().push(s.last()));
        assert(s.drop_last().push(s.last()).to_multiset() == s.drop_last().to_multiset().insert(s.last()));
    }
}

/// Tilesets already in order of first id stay as they are.
pub proof fn lemma_sort_by_gid_sorted(s: Seq<RenderTileset>)
    requires
        gid_sorted(s),
    ensures
        sort_by_gid(s) == s,
    decreases s.len(),
{
    if s.len() > 0 {
        assert(gid_sorted(s.drop_last()));
        lemma_sort_by_gid_sorted(s.drop_last());
        assert(s.drop_last().push(s.last()) =~= s);
    }
}

/// `insert_by_gid(s, x)` is `s` with `x` inserted at position `p`, when the tilesets from `p`
/// on start after `x` and the one before `p` (if any) does not.
proof fn lemma_insert_at(s: Seq<RenderTileset>, x: RenderTileset, p: int)
    requires
        0 <= p <= s.len(),
        forall|k: int| p <= k < s.len() ==> (#[trigger] s[k]).first_gid > x.first_gid,
        p > 0 ==> s[p - 1].first_gid <= x.first_gid,
    ensures
        insert_by_gid(s, x) == s.insert(p, x),
    decreases s.len(),
{
    if s.len() == 0 {
        assert(s.insert(p, x) =~= seq![x]);
    } else if p == s.len() {
        assert(s.insert(p, x) =~= s.push(x));
    } else {
        let d = s.drop_last();
        lemma_insert_at(d, x, p);
        assert(s.insert(p, x) =~= d.insert(p, x).push(s.last()));
    }
}

fn sort_render_tilesets(v: Vec<RenderTileset>) -> (r: Vec<RenderTileset>)
    requires
        forall|i: int| 0 <= i < v@.len() ==> render_tileset_wf(#[trigger] v@[i]),
    ensures
        r@ == sort_by_gid(v@),
        forall|i: int| 0 <= i < r@.len() ==> render_tileset_wf(#[trigger] r@[i]),
{
    let mut out: Vec<RenderTileset> = Vec::new();
    let mut k: usize = 0;
    while k < v.len()
        invariant
            k <= v@.len(),
            forall|i: int| 0 <= i < v@.len() ==> render_tileset_wf(#[trigger] v@[i]),
            out@ == sort_by_gid(v@.subrange(0, k as int)),
            forall|i: int| 0 <= i < out@.len() ==> render_tileset_wf(#[trigger] out@[i]),
        decreases v.len() - k,
    {
        let x = v[k];
        let mut p = out.len();
        while p > 0 && out[p - 1].first_gid > x.first_gid
            invariant
                p <= out@.len(),
                forall|q: int| p <= q < out@.len() ==> (#[trigger] out@[q]).first_gid > x.first_gid,
            decreases p,
        {
            p -= 1;
        }
        proof {
            lemma_insert_at(out@, x, p as int);
            assert(v@.subrange(0, k + 1).drop_last() =~= v@.subrange(0, k as int));
        }
        out.insert(p, x);
        k += 1;
    }
    assert(v@.subrange(0, v@.len() as int) =~= v@);
    out
}

fn render_tileset_of(t: &Tileset, first_gid: u32) -> (r: RenderTileset)
    ensures
        r == spec_render_tileset(t@, first_gid),
        render_tileset_wf(r),
{
    let extra: u32 = if t.tile_count > 0 { t.tile_count - 1 } else { 0 };
    RenderTileset {
        first_gid,
        last_gid: first_gid as u64 + extra as u64,
        texture_page_index: t.source_texture_page_index,
        source_x: t.source_x,
        source_y: t.source_y,
        tile_width: if t.tile_width == 0 { 1 } else { t.tile_width },
        tile_height: if t.tile_height == 0 { 1 } else { t.tile_height },
        columns: if t.columns == 0 { 1 } else { t.columns },
        margin_x: t.margin_x,
        margin_y: t.margin_y,
        spacing_x: t.spacing_x,
        spacing_y: t.spacing_y,
    }
}

/// The tilesets of a map with the id ranges its references give them, in order of first id
/// (tilesets with the same first id in the order given), one for each tileset given. An
/// error names the first tileset that no reference names.
pub fn build_render_tilesets(map: &TiledMap, tilesets: &Vec<Tileset>) -> (r: Result<Vec<RenderTileset>, RenderError>)
    ensures
        r matches Ok(v) ==> spec_sorted_render_tilesets(map@.tilesets, tilesets_view(tilesets@)) == Ok::<
            Seq<RenderTileset>,
            Seq<char>,
        >(v@),
        r matches Ok(v) ==> spec_render_tilesets(map@.tilesets, tilesets_view(tilesets@), tilesets@.len() as int)
            matches Ok(s) && v@.to_multiset() == s.to_multiset(),
        r matches Ok(v) ==> gid_sorted(v@) && v@.len() == tilesets@.len(),
        r matches Ok(v) ==> forall|i: int| 0 <= i < v@.len() ==> render_tileset_wf(#[trigger] v@[i]),
        r matches Err(RenderError::MissingFirstGid(name)) ==> spec_render_tilesets(
            map@.tilesets,
            tilesets_view(tilesets@),
            tilesets@.len() as int,
        ) == Err::<Seq<RenderTileset>, Seq<char>>(name@),
{
    let ghost refs = map@.tilesets;
    let ghost tsv = tilesets_view(tilesets@);
    let mut names: Vec<String> = Vec::new();
    let mut i: usize = 0;
    while i < map.tilesets.len()
        invariant
            refs == refs_view(map.tilesets@),
            i <= map.tilesets@.len(),
            names@.len() == i,
            forall|j: int| 0 <= j < i ==> #[trigger] names@[j]@ == spec_tileset_name(refs[j].tsx_path),
        decreases map.tilesets.len() - i,
    {
        names.push(tileset_name_from_path(map.tilesets[i].tsx_path.as_str()));
        i += 1;
    }
    let mut out: Vec<RenderTileset> = Vec::new();
    let mut k: usize = 0;
    while k < tilesets.len()
        invariant
            refs == refs_view(map.tilesets@),
            tsv == tilesets_view(tilesets@),
            names@.len() == refs.len(),
            forall|j: int| 0 <= j < refs.len() ==> #[trigger] names@[j]@ == spec_tileset_name(refs[j].tsx_path),
            k <= tilesets@.len(),
            spec_render_tilesets(refs, tsv, k as int) == Ok::<Seq<RenderTileset>, Seq<char>>(out@),
            forall|j: int| 0 <= j < out@.len() ==> render_tileset_wf(#[trigger] out@[j]),
        decreases tilesets.len() - k,
    {
        let name = &tilesets[k].name;
        let mut j = names.len();
        assert(refs.subrange(0, j as int) =~= refs);
        while j > 0 && names[j - 1] != *name
            invariant
                names@.len() == refs.len(),
                forall|q: int| 0 <= q < refs.len() ==> #[trigger] names@[q]@ == spec_tileset_name(refs[q].tsx_path),
                j <= refs.len(),
                ref_first_gid(refs, name@) == ref_first_gid(refs.subrange(0, j as int), name@),
            decreases j,
        {
            assert(refs.subrange(0, j as int).drop_last() =~= refs.subrange(0, j - 1));
            j -= 1;
        }
        if j == 0 {
            assert(refs.subrange(0, 0) =~= Seq::<TilesetRefView>::empty());
            assert(tsv[k as int].name == name@);
            assert(spec_render_tilesets(refs, tsv, k + 1) == Err::<Seq<RenderTileset>, Seq<char>>(name@));
            proof {
                lemma_render_tilesets_err_stays(refs, tsv, k + 1, tsv.len() as int);
            }
            let missing = name.clone();
            return Err(RenderError::MissingFirstGid(missing));
        }
        let first = map.tilesets[j - 1].first_gid;
        assert(refs.subrange(0, j as int).last() == refs[j - 1]);
        let t = render_tileset_of(&tilesets[k], first);
        out.push(t);
        k += 1;
    }
    proof {
        lemma_render_tilesets_len(refs, tsv, tsv.len() as int);
        lemma_sort_by_gid(out@);
    }
    Ok(sort_render_tilesets(out))
}

proof fn lemma_render_tilesets_len(refs: Seq<TilesetRefView>, ts: Seq<TilesetView>, n: int)
    requires
        n >= 0,
    ensures
        spec_render_tilesets(refs, ts, n) matches Ok(s) ==> s.len() == n,
    decreases n,
{
    if n > 0 {
        lemma_render_tilesets_len(refs, ts, n - 1);
    }
}


/// Whether the tileset covers tile id `id`.
pub open spec fn covers(t: RenderTileset, id: int) -> bool {
    t.first_gid <= id <= t.last_gid
}

/// Among the first `n` tilesets, the one covering `id` that comes first in first-id order
/// (the earlier one when two start at the same id).
pub open spec fn best_tileset(ts: Seq<RenderTileset>, id: int, n: int) -> Option<int>
    decreases n,
{
    if n <= 0 {
        None
    } else {
        match best_tileset(ts, id, n - 1) {
            None => if covers(ts[n - 1], id) {
                Some(n - 1)
            } else {
                None
            },
            Some(b) => if covers(ts[n - 1], id) && ts[n - 1].first_gid < ts[b].first_gid {
                Some(n - 1)
            } else {
                Some(b)
            },
        }
    }
}

/// The tileset that draws tile id `id` (none for id 0).
pub open spec fn spec_tileset_for(ts: Seq<RenderTileset>, id: int) -> Option<int> {
    if id == 0 {
        None
    } else {
        best_tileset(ts, id, ts.len() as int)
    }
}

proof fn lemma_best_tileset(ts: Seq<RenderTileset>, id: int, n: int)
    requires
        0 <= n <= ts.len(),
    ensures
        best_tileset(ts, id, n) matches Some(i) ==> {
            &&& 0 <= i < n
            &&& covers(ts[i], id)
            &&& forall|j: int|
                0 <= j < n && covers(ts[j], id) ==> ts[i].first_gid < ts[j].first_gid || (ts[i].first_gid
                    == ts[j].first_gid && i <= j)
        },
        best_tileset(ts, id, n) is None ==> forall|j: int| 0 <= j < n ==> !covers(ts[j], id),
    decreases n,
{
    if n > 0 {
        lemma_best_tileset(ts, id, n - 1);
    }
}

/// A tile id is drawn from the tileset covering it that has the lowest first id, the earlier
/// one in the list on a tie; no tileset draws id 0 or an id that none covers.
pub proof fn lemma_tileset_for_gid(ts: Seq<RenderTileset>, id: int)
    ensures
        spec_tileset_for(ts, id) matches Some(i) ==> {
            &&& id != 0
            &&& 0 <= i < ts.len()
            &&& covers(ts[i], id)
            &&& forall|j: int|
                0 <= j < ts.len() && covers(ts[j], id) ==> ts[i].first_gid < ts[j].first_gid || (ts[i].first_gid
                    == ts[j].first_gid && i <= j)
        },
        spec_tileset_for(ts, id) is None ==> id == 0 || forall|j: int| 0 <= j < ts.len() ==> !covers(ts[j], id),
{
    lemma_best_tileset(ts, id, ts.len() as int);
}

/// The tileset that draws tile id `id`: among those covering it, the one with the lowest
/// first id.
pub fn tileset_for_gid(ts: &Vec<RenderTileset>, id: u32) -> (r: Option<usize>)
    ensures
        r matches Some(i) ==> spec_tileset_for(ts@, id as int) == Some(i as int),
        r is None ==> spec_tileset_for(ts@, id as int) is None,
{
    if id == 0 {
        return None;
    }
    let mut best: Option<usize> = None;
    let mut k: usize = 0;
    while k < ts.len()
        invariant
            k <= ts@.len(),
            best matches Some(b) ==> best_tileset(ts@, id as int, k as int) == Some(b as int) && b < k,
            best is None ==> best_tileset(ts@, id as int, k as int) is None,
        decreases ts.len() - k,
    {
        let t = ts[k];
        if t.first_gid as u64 <= id as u64 && id as u64 <= t.last_gid {
            match best {
                None => {
                    best = Some(k);
                },
                Some(b) => {
                    if t.first_gid < ts[b].first_gid {
                        best = Some(k);
                    }
                },
            }
        }
        k += 1;
    }
    best
}

/// The id part of a global tile id, without the flip bits (bits 29 to 31).
pub open spec fn gid_id(gid: u32) -> u32 {
    gid & 0x1FFF_FFFF
}

/// The flip bits of a global tile id that drawing honours.
pub open spec fn gid_flip_bits(gid: u32) -> u32 {
    gid & 0xE000_0000
}

/// The region of tile `local` of a tileset, `w` x `h` pixels from the tile's corner.
pub open spec fn tile_region(t: RenderTileset, local: int, w: u64, h: u64) -> RegionKey {
    RegionKey {
        texture_page_index: t.texture_page_index,
        source_x: sat_u64(t.source_x + t.margin_x + (local % (t.columns as int)) * (t.tile_width + t.spacing_x)),
        source_y: sat_u64(t.source_y + t.margin_y + (local / (t.columns as int)) * (t.tile_height + t.spacing_y)),
        source_width: w,
        source_height: h,
    }
}

fn tile_region_of(t: &RenderTileset, local: u32, w: u64, h: u64) -> (r: RegionKey)
    requires
        render_tileset_wf(*t),
    ensures
        r == tile_region(*t, local as int, w, h),
{
    let col = (local % t.columns) as u128;
    let row = (local / t.columns) as u128;
    let sw = t.tile_width as u128 + t.spacing_x as u128;
    let sh = t.tile_height as u128 + t.spacing_y as u128;
    assert(col * sw <= u32::MAX * (2 * u32::MAX)) by (nonlinear_arith)
        requires
            col <= u32::MAX,
            sw <= 2 * u32::MAX,
    ;
    assert(row * sh <= u32::MAX * (2 * u32::MAX)) by (nonlinear_arith)
        requires
            row <= u32::MAX,
            sh <= 2 * u32::MAX,
    ;
    let x = t.source_x as u128 + t.margin_x as u128 + col * sw;
    let y = t.source_y as u128 + t.margin_y as u128 + row * sh;
    RegionKey {
        texture_page_index: t.texture_page_index,
        source_x: sat_u64_of(x),
        source_y: sat_u64_of(y),
        source_width: w,
        source_height: h,
    }
}

/// The drawing step for cell `k` of a tile layer `lw` cells wide, if its id is drawn.
pub open spec fn cell_op(ts: Seq<RenderTileset>, tw: u32, th: u32, lw: u32, data: Seq<u32>, k: int) -> Option<
    DrawOp,
> {
    let gid = data[k];
    let id = gid_id(gid);
    match spec_tileset_for(ts, id as int) {
        None => None,
        Some(i) => Some(
            DrawOp {
                region: tile_region(ts[i], id - ts[i].first_gid, ts[i].tile_width as u64, ts[i].tile_height as u64),
                x: sat_i64((k % (lw as int)) * tw),
                y: sat_i64((k / (lw as int)) * th),
                kind: TransformKind::Tiled,
                bits: gid_flip_bits(gid),
            },
        ),
    }
}

/// The drawing steps for the first `n` cells of a tile layer, row by row.
pub open spec fn cells_ops(ts: Seq<RenderTileset>, tw: u32, th: u32, l: TileLayerView, n: int) -> Seq<DrawOp>
    decreases n,
{
    if n <= 0 {
        seq![]
    } else {
        let prev = cells_ops(ts, tw, th, l, n - 1);
        match cell_op(ts, tw, th, l.width, l.data, n - 1) {
            Some(op) => prev.push(op),
            None => prev,
        }
    }
}

/// The drawing step for a tile object, if its id is drawn: the region is the object's size,
/// placed at the object's top-left corner.
pub open spec fn object_op(ts: Seq<RenderTileset>, o: MapObjectView) -> Option<DrawOp> {
    match o {
        MapObjectView::TileObject(t) => {
            let id = gid_id(t.gid);
            match spec_tileset_for(ts, id as int) {
                None => None,
                Some(i) => Some(
                    DrawOp {
                        region: tile_region(ts[i], id - ts[i].first_gid, sat_u64(t.width as int), sat_u64(t.height as int)),
                        x: t.x,
                        y: sat_i64(t.y - t.height),
                        kind: TransformKind::Tiled,
                        bits: gid_flip_bits(t.gid),
                    },
                ),
            }
        },
        _ => None,
    }
}

/// The drawing steps for the first `n` objects of an object layer, in order.
pub open spec fn objects_ops(ts: Seq<RenderTileset>, objs: Seq<MapObjectView>, n: int) -> Seq<DrawOp>
    decreases n,
{
    if n <= 0 {
        seq![]
    } else {
        let prev = objects_ops(ts, objs, n - 1);
        match object_op(ts, objs[n - 1]) {
            Some(op) => prev.push(op),
            None => prev,
        }
    }
}

pub open spec fn layer_ops(ts: Seq<RenderTileset>, tw: u32, th: u32, l: LayerView) -> Seq<DrawOp> {
    match l {
        LayerView::Tile(t) => cells_ops(ts, tw, th, t, t.width * t.height),
        LayerView::Object(o) => objects_ops(ts, o.objects, o.objects.len() as int),
    }
}

/// The drawing steps for the first `n` layers of a map, layer after layer.
pub open spec fn map_ops(ts: Seq<RenderTileset>, m: TiledMapView, n: int) -> Seq<DrawOp>
    decreases n,
{
    if n <= 0 {
        seq![]
    } else {
        map_ops(ts, m, n - 1) + layer_ops(ts, m.tile_width, m.tile_height, m.layers[n - 1])
    }
}

/// Every tile layer of the map holds a tile id for each of its cells.
pub open spec fn tile_layers_complete(m: TiledMapView) -> bool {
    forall|i: int|
        0 <= i < m.layers.len() ==> (#[trigger] m.layers[i] matches LayerView::Tile(t) ==> t.data.len() >= t.width
            * t.height)
}

/// How a map is drawn: every tile of its tile layers and every tile object, layer after layer,
/// from the tileset that covers its id (looked up among the tilesets in order of first id),
/// with its flip bits; or the name of a tileset that no reference names.
pub open spec fn spec_plan_tiled_map(m: TiledMapView, tilesets: Seq<TilesetView>) -> Result<Seq<DrawOp>, Seq<char>> {
    match spec_sorted_render_tilesets(m.tilesets, tilesets) {
        Err(name) => Err(name),
        Ok(rts) => Ok(map_ops(rts, m, m.layers.len() as int)),
    }
}


fn plan_cells(ts: &Vec<RenderTileset>, tw: u32, th: u32, layer: &TileLayer, out: &mut Vec<DrawOp>)
    requires
        forall|i: int| 0 <= i < ts@.len() ==> render_tileset_wf(#[trigger] ts@[i]),
        layer.data@.len() >= layer.width * layer.height,
    ensures
        final(out)@ == old(out)@ + cells_ops(ts@, tw, th, layer@, layer.width * layer.height),
{
    let ghost base = out@;
    let len = layer.data.len();
    let lw = layer.width as u64;
    let total: u64 = layer.width as u64 * layer.height as u64;
    let mut k: u64 = 0;
    assert(out@ =~= base + cells_ops(ts@, tw, th, layer@, 0));
    while k < total
        invariant
            forall|i: int| 0 <= i < ts@.len() ==> render_tileset_wf(#[trigger] ts@[i]),
            len == layer.data@.len(),
            lw == layer.width,
            total == layer.width * layer.height,
            total <= len,
            k <= total,
            out@ == base + cells_ops(ts@, tw, th, layer@, k as int),
        decreases total - k,
    {
        assert(lw > 0) by (nonlinear_arith)
            requires
                k < total,
                total == lw * layer.height,
        ;
        let gid = layer.data[k as usize];
        let id = gid & 0x1FFF_FFFF;
        match tileset_for_gid(ts, id) {
            None => {
                assert(out@ =~= base + cells_ops(ts@, tw, th, layer@, k + 1));
            },
            Some(i) => {
                proof {
                    lemma_tileset_for_gid(ts@, id as int);
                }
                let t = ts[i];
                let local = id - t.first_gid;
                let region = tile_region_of(&t, local, t.tile_width as u64, t.tile_height as u64);
                let col = k % lw;
                let row = k / lw;
                assert(col * tw <= u32::MAX * u32::MAX) by (nonlinear_arith)
                    requires
                        col < lw,
                        lw <= u32::MAX,
                ;
                assert(row <= k) by (nonlinear_arith)
                    requires
                        row == k / lw,
                        lw > 0,
                ;
                assert(row * th <= u64::MAX * u32::MAX) by (nonlinear_arith)
                    requires
                        row <= u64::MAX,
                ;
                let x = sat_i64_of((col as i128) * (tw as i128));
                let y = sat_i64_of((row as i128) * (th as i128));
                let op = DrawOp { region, x, y, kind: TransformKind::Tiled, bits: gid & 0xE000_0000 };
                out.push(op);
                assert(out@ =~= base + cells_ops(ts@, tw, th, layer@, k + 1));
            },
        }
        k += 1;
    }
}

fn plan_objects(ts: &Vec<RenderTileset>, objs: &Vec<MapObject>, out: &mut Vec<DrawOp>)
    requires
        forall|i: int| 0 <= i < ts@.len() ==> render_tileset_wf(#[trigger] ts@[i]),
    ensures
        final(out)@ == old(out)@ + objects_ops(ts@, objects_view(objs@), objs@.len() as int),
{
    let ghost base = out@;
    let ghost ov = objects_view(objs@);
    let mut k: usize = 0;
    assert(out@ =~= base + objects_ops(ts@, ov, 0));
    while k < objs.len()
        invariant
            forall|i: int| 0 <= i < ts@.len() ==> render_tileset_wf(#[trigger] ts@[i]),
            ov == objects_view(objs@),
            k <= objs@.len(),
            out@ == base + objects_ops(ts@, ov, k as int),
        decreases objs.len() - k,
    {
        assert(ov[k as int] == objs@[k as int]@);
        match &objs[k] {
            MapObject::TileObject(o) => {
                let id = o.gid & 0x1FFF_FFFF;
                match tileset_for_gid(ts, id) {
                    None => {
                        assert(out@ =~= base + objects_ops(ts@, ov, k + 1));
                    },
                    Some(i) => {
                        proof {
                            lemma_tileset_for_gid(ts@, id as int);
                        }
                        let t = ts[i];
                        let local = id - t.first_gid;
                        let w: u64 = if o.width < 0 { 0 } else { o.width as u64 };
                        let h: u64 = if o.height < 0 { 0 } else { o.height as u64 };
                        let region = tile_region_of(&t, local, w, h);
                        let y = sat_i64_of(o.y as i128 - o.height as i128);
                        let op = DrawOp { region, x: o.x, y, kind: TransformKind::Tiled, bits: o.gid & 0xE000_0000 };
                        out.push(op);
                        assert(out@ =~= base + objects_ops(ts@, ov, k + 1));
                    },
                }
            },
            _ => {
                assert(out@ =~= base + objects_ops(ts@, ov, k + 1));
            },
        }
        k += 1;
    }
}

/// Whether every tile layer of the map holds a tile id for each of its cells.
pub fn tile_layers_are_complete(map: &TiledMap) -> (r: bool)
    ensures
        r == tile_layers_complete(map@),
{
    let mut i: usize = 0;
    while i < map.layers.len()
        invariant
            i <= map.layers@.len(),
            forall|j: int|
                0 <= j < i ==> (#[trigger] map@.layers[j] matches LayerView::Tile(t) ==> t.data.len() >= t.width
                    * t.height),
        decreases map.layers.len() - i,
    {
        assert(map@.layers[i as int] == map.layers@[i as int]@);
        match &map.layers[i] {
            Layer::Tile(t) => {
                assert(t.width * t.height <= u32::MAX * u32::MAX) by (nonlinear_arith);
                if (t.data.len() as u64) < (t.width as u64) * (t.height as u64) {
                    return false;
                }
            },
            Layer::Object(_) => {},
        }
        i += 1;
    }
    true
}

/// Plans drawing a map: every tile of its tile layers and every tile object, layer after
/// layer, each from the tileset that covers its id, with its flip bits. Fails when a tileset
/// has no reference in the map.
pub fn plan_tiled_map_static(map: &TiledMap, tilesets: &Vec<Tileset>) -> (r: Result<Vec<DrawOp>, RenderError>)
    requires
        tile_layers_complete(map@),
    ensures
        r matches Ok(ops) ==> spec_plan_tiled_map(map@, tilesets_view(tilesets@)) == Ok::<
            Seq<DrawOp>,
            Seq<char>,
        >(ops@),
        r matches Err(RenderError::MissingFirstGid(name)) ==> spec_plan_tiled_map(
            map@,
            tilesets_view(tilesets@),
        ) == Err::<Seq<DrawOp>, Seq<char>>(name@),
{
    let rts = match build_render_tilesets(map, tilesets) {
        Ok(v) => v,
        Err(e) => {
            return Err(e);
        },
    };
    let ghost m = map@;
    let mut out: Vec<DrawOp> = Vec::new();
    let mut i: usize = 0;
    assert(out@ =~= map_ops(rts@, m, 0));
    while i < map.layers.len()
        invariant
            m == map@,
            tile_layers_complete(m),
            forall|j: int| 0 <= j < rts@.len() ==> render_tileset_wf(#[trigger] rts@[j]),
            i <= map.layers@.len(),
            out@ == map_ops(rts@, m, i as int),
        decreases map.layers.len() - i,
    {
        assert(m.layers[i as int] == map.layers@[i as int]@);
        let ghost before = out@;
        match &map.layers[i] {
            Layer::Tile(t) => {
                plan_cells(&rts, map.tile_width, map.tile_height, t, &mut out);
            },
            Layer::Object(o) => {
                plan_objects(&rts, &o.objects, &mut out);
            },
        }
        assert(out@ =~= map_ops(rts@, m, i + 1));
        i += 1;
    }
    Ok(out)
}


// ---------------------------------------------------------------------------------------------
// The room as GameMaker draws it
// ---------------------------------------------------------------------------------------------

/// Counts gathered while planning a room.
#[derive(Clone, Copy, Debug)]
pub struct ReferenceStats {
    pub static_draw_ops: u64,
    pub gms2_flagged_tiles: u64,
    pub instance_count: usize,
    pub enabled_view_count: usize,
}

/// The drawing step for a GMS1 tile of background `bg`.
pub open spec fn gms1_op(t: TileData, bg: BackgroundDef) -> DrawOp {
    DrawOp {
        region: RegionKey {
            texture_page_index: bg.texture_page_index,
            source_x: (bg.source_x + t.source_x) as u64,
            source_y: (bg.source_y + t.source_y) as u64,
            source_width: t.width as u64,
            source_height: t.height as u64,
        },
        x: t.x as i64,
        y: t.y as i64,
        kind: TransformKind::Tiled,
        bits: 0,
    }
}

/// The drawing steps for the tiles at depth `d` among the first `n`, in list order; a tile
/// whose background is unknown is not drawn.
pub open spec fn gms1_depth_ops(tiles: Seq<TileData>, bgs: Seq<BackgroundDef>, d: i32, n: int) -> Seq<DrawOp>
    decreases n,
{
    if n <= 0 {
        seq![]
    } else {
        let prev = gms1_depth_ops(tiles, bgs, d, n - 1);
        let t = tiles[n - 1];
        if t.depth == d {
            match background_index(bgs, t.background@) {
                Some(b) => prev.push(gms1_op(t, bgs[b])),
                None => prev,
            }
        } else {
            prev
        }
    }
}

/// The drawing steps for the tiles at the first `k` depths.
pub open spec fn gms1_ref_ops(tiles: Seq<TileData>, bgs: Seq<BackgroundDef>, depths: Seq<i32>, k: int) -> Seq<
    DrawOp,
>
    decreases k,
{
    if k <= 0 {
        seq![]
    } else {
        gms1_ref_ops(tiles, bgs, depths, k - 1) + gms1_depth_ops(tiles, bgs, depths[k - 1], tiles.len() as int)
    }
}

/// Tile size of a GMS2 background (at least one pixel each way).
pub open spec fn gms2_tile_w(bg: BackgroundDef) -> int {
    max1u(bg.gms2_tile_width) as int
}

pub open spec fn gms2_tile_h(bg: BackgroundDef) -> int {
    max1u(bg.gms2_tile_height) as int
}

/// Tile columns of a GMS2 background on its page: the recorded count, else as many tiles
/// with their borders as fit its width.
pub open spec fn gms2_columns(bg: BackgroundDef) -> int {
    if bg.gms2_tile_columns > 0 {
        bg.gms2_tile_columns as int
    } else {
        bg.source_width as int / (gms2_tile_w(bg) + 2 * bg.gms2_output_border_x)
    }
}

/// The drawing step for the tile word `raw` at row `r`, column `c` of a GMS2 layer: the tile
/// with index `raw`'s low 19 bits, inside its border, drawn with `raw`'s transform bits.
pub open spec fn gms2_op(bg: BackgroundDef, raw: u32, r: int, c: int) -> DrawOp {
    let tw = gms2_tile_w(bg);
    let th = gms2_tile_h(bg);
    let idx = (raw & 0x7_FFFF) as int;
    let cols = gms2_columns(bg);
    DrawOp {
        region: RegionKey {
            texture_page_index: bg.texture_page_index,
            source_x: (bg.source_x + bg.gms2_output_border_x + (idx % cols) * (tw + 2 * bg.gms2_output_border_x)) as u64,
            source_y: (bg.source_y + bg.gms2_output_border_y + (idx / cols) * (th + 2 * bg.gms2_output_border_y)) as u64,
            source_width: tw as u64,
            source_height: th as u64,
        },
        x: sat_i64(c * tw),
        y: sat_i64(r * th),
        kind: TransformKind::Gms2,
        bits: raw,
    }
}

/// The drawing steps for the first `n` words of row `r`; a zero word is no tile.
pub open spec fn gms2_row_ops(bg: BackgroundDef, row: Seq<u32>, r: int, n: int) -> Seq<DrawOp>
    decreases n,
{
    if n <= 0 {
        seq![]
    } else {
        let prev = gms2_row_ops(bg, row, r, n - 1);
        if row[n - 1] != 0 {
            prev.push(gms2_op(bg, row[n - 1], r, n - 1))
        } else {
            prev
        }
    }
}

/// The drawing steps for the first `n` rows of a GMS2 layer.
pub open spec fn gms2_rows_ops(bg: BackgroundDef, rows: Seq<Vec<u32>>, n: int) -> Seq<DrawOp>
    decreases n,
{
    if n <= 0 {
        seq![]
    } else {
        gms2_rows_ops(bg, rows, n - 1) + gms2_row_ops(bg, rows[n - 1]@, n - 1, rows[n - 1]@.len() as int)
    }
}

/// The drawing steps for a GMS2 layer drawn from `bg`: none when no column fits the page.
pub open spec fn gms2_layer_ops(bg: BackgroundDef, layer: Gms2TileLayer) -> Seq<DrawOp> {
    if gms2_columns(bg) == 0 {
        seq![]
    } else {
        gms2_rows_ops(bg, layer.tile_data@, layer.tile_data@.len() as int)
    }
}

/// The drawing steps for the GMS2 layers at the given positions, in that order; a layer whose
/// background is unknown is not drawn.
pub open spec fn gms2_ref_ops(layers: Seq<Gms2TileLayer>, bgs: Seq<BackgroundDef>, order: Seq<int>) -> Seq<DrawOp>
    decreases order.len(),
{
    if order.len() == 0 {
        seq![]
    } else {
        let l = layers[order.last()];
        gms2_ref_ops(layers, bgs, order.drop_last()) + match background_index(bgs, l.background@) {
            Some(b) => gms2_layer_ops(bgs[b], l),
            None => seq![],
        }
    }
}

/// How GameMaker draws a room's tiles: the GMS1 tiles, greatest depth first and in list order
/// within a depth; then the GMS2 layers, greatest depth first and in list order within a
/// depth, each row by row.
pub open spec fn spec_reference_ops(room: RoomData, bgs: Seq<BackgroundDef>) -> Seq<DrawOp> {
    let depths = depths_desc(tile_depths(room.tiles@));
    gms1_ref_ops(room.tiles@, bgs, depths, depths.len() as int) + gms2_ref_ops(
        room.gms2_tile_layers@,
        bgs,
        gms2_order(room.gms2_tile_layers@),
    )
}

/// Whether a step draws a GMS2 tile word with bits set above the tile index.
pub open spec fn is_flagged(op: DrawOp) -> bool {
    op.kind == TransformKind::Gms2 && op.bits & 0xFFF8_0000 != 0
}

/// How many of the first `n` steps draw a GMS2 tile word with bits above the index.
pub open spec fn flagged_count(ops: Seq<DrawOp>, n: int) -> nat
    decreases n,
{
    if n <= 0 {
        0
    } else {
        flagged_count(ops, n - 1) + if is_flagged(ops[n - 1]) {
            1nat
        } else {
            0nat
        }
    }
}

/// How many of the first `n` views are enabled.
pub open spec fn enabled_count(views: Seq<ViewData>, n: int) -> nat
    decreases n,
{
    if n <= 0 {
        0
    } else {
        enabled_count(views, n - 1) + if views[n - 1].enabled {
            1nat
        } else {
            0nat
        }
    }
}


fn plan_gms1_depth(tiles: &Vec<TileData>, bgs: &Vec<BackgroundDef>, d: i32, out: &mut Vec<DrawOp>)
    ensures
        final(out)@ == old(out)@ + gms1_depth_ops(tiles@, bgs@, d, tiles@.len() as int),
{
    let ghost base = out@;
    let mut i: usize = 0;
    assert(out@ =~= base + gms1_depth_ops(tiles@, bgs@, d, 0));
    while i < tiles.len()
        invariant
            i <= tiles@.len(),
            out@ == base + gms1_depth_ops(tiles@, bgs@, d, i as int),
        decreases tiles.len() - i,
    {
        let t = &tiles[i];
        if t.depth == d {
            match find_background(bgs, &t.background) {
                Some(b) => {
                    proof {
                        lemma_background_index(bgs@, t.background@);
                    }
                    let bg = &bgs[b];
                    let op = DrawOp {
                        region: RegionKey {
                            texture_page_index: bg.texture_page_index,
                            source_x: bg.source_x as u64 + t.source_x as u64,
                            source_y: bg.source_y as u64 + t.source_y as u64,
                            source_width: t.width as u64,
                            source_height: t.height as u64,
                        },
                        x: t.x as i64,
                        y: t.y as i64,
                        kind: TransformKind::Tiled,
                        bits: 0,
                    };
                    out.push(op);
                },
                None => {},
            }
        }
        assert(out@ =~= base + gms1_depth_ops(tiles@, bgs@, d, i + 1));
        i += 1;
    }
}

fn plan_gms2_layer(bg: &BackgroundDef, layer: &Gms2TileLayer, out: &mut Vec<DrawOp>)
    ensures
        final(out)@ == old(out)@ + gms2_layer_ops(*bg, *layer),
{
    let ghost base = out@;
    let tw: u64 = if bg.gms2_tile_width == 0 { 1 } else { bg.gms2_tile_width as u64 };
    let th: u64 = if bg.gms2_tile_height == 0 { 1 } else { bg.gms2_tile_height as u64 };
    let bx = bg.gms2_output_border_x as u64;
    let by = bg.gms2_output_border_y as u64;
    let stride_x = tw + 2 * bx;
    let stride_y = th + 2 * by;
    let columns: u64 = if bg.gms2_tile_columns > 0 {
        bg.gms2_tile_columns as u64
    } else {
        bg.source_width as u64 / stride_x
    };
    if columns == 0 {
        assert(out@ =~= base + gms2_layer_ops(*bg, *layer));
        return;
    }
    let rows = &layer.tile_data;
    let mut r: usize = 0;
    assert(out@ =~= base + gms2_rows_ops(*bg, rows@, 0));
    while r < rows.len()
        invariant
            rows == layer.tile_data,
            tw == gms2_tile_w(*bg),
            th == gms2_tile_h(*bg),
            bx == bg.gms2_output_border_x,
            by == bg.gms2_output_border_y,
            stride_x == tw + 2 * bx,
            stride_y == th + 2 * by,
            columns == gms2_columns(*bg),
            columns > 0,
            r <= rows@.len(),
            out@ == base + gms2_rows_ops(*bg, rows@, r as int),
        decreases rows.len() - r,
    {
        let row = &rows[r];
        let ghost row_base = out@;
        let mut c: usize = 0;
        assert(out@ =~= row_base + gms2_row_ops(*bg, row@, r as int, 0));
        while c < row.len()
            invariant
                row == rows@[r as int],
                tw == gms2_tile_w(*bg),
                th == gms2_tile_h(*bg),
                bx == bg.gms2_output_border_x,
                by == bg.gms2_output_border_y,
                stride_x == tw + 2 * bx,
                stride_y == th + 2 * by,
                columns == gms2_columns(*bg),
                columns > 0,
                c <= row@.len(),
                out@ == row_base + gms2_row_ops(*bg, row@, r as int, c as int),
            decreases row.len() - c,
        {
            let raw = row[c];
            if raw != 0 {
                let masked = raw & 0x7_FFFF;
                assert(masked <= 0x7_FFFF) by (bit_vector)
                    requires
                        masked == raw & 0x7_FFFF,
                ;
                let idx = masked as u64;
                let col = idx % columns;
                let rrow = idx / columns;
                assert(col <= idx && rrow <= idx) by (nonlinear_arith)
                    requires
                        col == idx % columns,
                        rrow == idx / columns,
                        columns > 0,
                ;
                assert(col * stride_x <= 0x7_FFFF * (3 * u32::MAX)) by (nonlinear_arith)
                    requires
                        col <= 0x7_FFFF,
                        stride_x <= 3 * u32::MAX,
                ;
                assert(rrow * stride_y <= 0x7_FFFF * (3 * u32::MAX)) by (nonlinear_arith)
                    requires
                        rrow <= 0x7_FFFF,
                        stride_y <= 3 * u32::MAX,
                ;
                assert((c as int) * (tw as int) <= usize::MAX * u32::MAX) by (nonlinear_arith)
                    requires
                        c <= usize::MAX,
                        tw <= u32::MAX,
                ;
                assert((r as int) * (th as int) <= usize::MAX * u32::MAX) by (nonlinear_arith)
                    requires
                        r <= usize::MAX,
                        th <= u32::MAX,
                ;
                let op = DrawOp {
                    region: RegionKey {
                        texture_page_index: bg.texture_page_index,
                        source_x: bg.source_x as u64 + bx + col * stride_x,
                        source_y: bg.source_y as u64 + by + rrow * stride_y,
                        source_width: tw,
                        source_height: th,
                    },
                    x: sat_i64_of((c as i128) * (tw as i128)),
                    y: sat_i64_of((r as i128) * (th as i128)),
                    kind: TransformKind::Gms2,
                    bits: raw,
                };
                out.push(op);
            }
            assert(out@ =~= row_base + gms2_row_ops(*bg, row@, r as int, c + 1));
            c += 1;
        }
        assert(out@ =~= base + gms2_rows_ops(*bg, rows@, r + 1));
        r += 1;
    }
}


fn plan_gms1_tiles(room: &RoomData, bgs: &Vec<BackgroundDef>, out: &mut Vec<DrawOp>)
    ensures
        final(out)@ == old(out)@ + {
            let depths = depths_desc(tile_depths(room.tiles@));
            gms1_ref_ops(room.tiles@, bgs@, depths, depths.len() as int)
        },
{
    let ghost base = out@;
    let all = collect_tile_depths(room);
    let depths = sorted_distinct_desc(&all);
    let mut k: usize = 0;
    assert(out@ =~= base + gms1_ref_ops(room.tiles@, bgs@, depths@, 0));
    while k < depths.len()
        invariant
            k <= depths@.len(),
            out@ == base + gms1_ref_ops(room.tiles@, bgs@, depths@, k as int),
        decreases depths.len() - k,
    {
        plan_gms1_depth(&room.tiles, bgs, depths[k], out);
        assert(out@ =~= base + gms1_ref_ops(room.tiles@, bgs@, depths@, k + 1));
        k += 1;
    }
}

fn plan_gms2_layers(room: &RoomData, bgs: &Vec<BackgroundDef>, out: &mut Vec<DrawOp>)
    ensures
        final(out)@ == old(out)@ + gms2_ref_ops(room.gms2_tile_layers@, bgs@, gms2_order(room.gms2_tile_layers@)),
{
    let ghost base = out@;
    let ghost layers = room.gms2_tile_layers@;
    let all = collect_layer_depths(room);
    let depths = sorted_distinct_desc(&all);
    let ghost mut done: Seq<int> = seq![];
    assert(out@ =~= base + gms2_ref_ops(layers, bgs@, done));
    let mut k: usize = 0;
    while k < depths.len()
        invariant
            layers == room.gms2_tile_layers@,
            depths@ == depths_desc(layer_depths(layers)),
            k <= depths@.len(),
            done == depth_order(layers, depths@, k as int),
            out@ == base + gms2_ref_ops(layers, bgs@, done),
        decreases depths.len() - k,
    {
        let d = depths[k];
        let ghost start = done;
        let mut j: usize = 0;
        assert(done =~= start + indices_at_depth(layers, d, 0));
        while j < room.gms2_tile_layers.len()
            invariant
                layers == room.gms2_tile_layers@,
                j <= layers.len(),
                done == start + indices_at_depth(layers, d, j as int),
                out@ == base + gms2_ref_ops(layers, bgs@, done),
            decreases layers.len() - j,
        {
            let layer = &room.gms2_tile_layers[j];
            if layer.depth == d {
                let ghost prev = done;
                proof {
                    done = done.push(j as int);
                }
                assert(done.drop_last() =~= prev);
                assert(done =~= start + indices_at_depth(layers, d, j + 1));
                match find_background(bgs, &layer.background) {
                    Some(b) => {
                        proof {
                            lemma_background_index(bgs@, layer.background@);
                        }
                        plan_gms2_layer(&bgs[b], layer, out);
                    },
                    None => {},
                }
                assert(out@ =~= base + gms2_ref_ops(layers, bgs@, done));
            }
            j += 1;
        }
        assert(done == depth_order(layers, depths@, k + 1));
        k += 1;
    }
}

/// Plans drawing a room's tiles as GameMaker draws them (see `spec_reference_ops`), and counts
/// the steps, the GMS2 tile words with bits above the tile index, the instances and the
/// enabled views.
pub fn plan_reference_room_static(room: &RoomData, backgrounds: &Vec<BackgroundDef>) -> (r: (
    Vec<DrawOp>,
    ReferenceStats,
))
    ensures
        r.0@ == spec_reference_ops(*room, backgrounds@),
        r.1.static_draw_ops == r.0@.len(),
        r.1.gms2_flagged_tiles == flagged_count(r.0@, r.0@.len() as int),
        r.1.instance_count == room.game_objects@.len(),
        r.1.enabled_view_count == enabled_count(room.views@, room.views@.len() as int),
{
    let mut ops: Vec<DrawOp> = Vec::new();
    plan_gms1_tiles(room, backgrounds, &mut ops);
    plan_gms2_layers(room, backgrounds, &mut ops);
    assert(ops@ =~= spec_reference_ops(*room, backgrounds@));
    let mut flagged: u64 = 0;
    let mut i: usize = 0;
    while i < ops.len()
        invariant
            i <= ops@.len(),
            flagged == flagged_count(ops@, i as int),
            flagged <= i,
        decreases ops.len() - i,
    {
        let op = ops[i];
        let hit = match op.kind {
            TransformKind::Gms2 => op.bits & 0xFFF8_0000 != 0,
            TransformKind::Tiled => false,
        };
        if hit {
            flagged += 1;
        }
        i += 1;
    }
    let mut views: usize = 0;
    let mut v: usize = 0;
    while v < room.views.len()
        invariant
            v <= room.views@.len(),
            views == enabled_count(room.views@, v as int),
            views <= v,
        decreases room.views.len() - v,
    {
        if room.views[v].enabled {
            views += 1;
        }
        v += 1;
    }
    let stats = ReferenceStats {
        static_draw_ops: ops.len() as u64,
        gms2_flagged_tiles: flagged,
        instance_count: room.game_objects.len(),
        enabled_view_count: views,
    };
    (ops, stats)
}


// ---------------------------------------------------------------------------------------------
// Comparing two pictures
// ---------------------------------------------------------------------------------------------

/// How far two pictures differ. `squared_error` sums the squared channel differences over the
/// compared area; `total_pixels` is that area, at least one.
#[derive(Clone, Copy, Debug)]
pub struct PixelDiffMetrics {
    pub ae_pixels: u64,
    pub squared_error: u128,
    pub total_pixels: u64,
    pub size_match: bool,
}

/// A picture of where two pictures differ, and how much.
#[derive(Debug)]
pub struct PixelDiffResult {
    pub diff_image: Pixmap,
    pub metrics: PixelDiffMetrics,
}

/// The pixel at (`x`, `y`), transparent outside the picture.
pub open spec fn spec_pixel_or_transparent(img: Pixmap, x: int, y: int) -> Rgba {
    if 0 <= x < img.width && 0 <= y < img.height {
        img.at(x, y)
    } else {
        crate::raster::transparent()
    }
}

/// The pixel at (`x`, `y`), transparent outside the picture.
pub fn pixel_or_transparent(img: &Pixmap, x: u32, y: u32) -> (r: Rgba)
    requires
        img.wf(),
    ensures
        r == spec_pixel_or_transparent(*img, x as int, y as int),
{
    if x < img.width && y < img.height {
        let len = img.pixels.len();
        assert(len == img.width * img.height);
        img.pixels[pixel_index_of(img.width, img.height, x, y)]
    } else {
        Rgba { r: 0, g: 0, b: 0, a: 0 }
    }
}

fn pixel_index_of(w: u32, h: u32, x: u32, y: u32) -> (r: usize)
    requires
        x < w,
        y < h,
        w * h <= usize::MAX,
    ensures
        r == y * w + x,
        r < w * h,
{
    assert(y * w + x < w * h) by (nonlinear_arith)
        requires
            x < w,
            y < h,
    ;
    (y as usize) * (w as usize) + (x as usize)
}

pub open spec fn channel_diff(a: u8, b: u8) -> u8 {
    if a >= b {
        (a - b) as u8
    } else {
        (b - a) as u8
    }
}

/// The pixel of the difference picture for a pixel of each picture: transparent where they
/// agree, magenta where only the alpha differs, else the colour differences, opaque.
pub open spec fn diff_pixel(l: Rgba, r: Rgba) -> Rgba {
    let dr = channel_diff(l.r, r.r);
    let dg = channel_diff(l.g, r.g);
    let db = channel_diff(l.b, r.b);
    let da = channel_diff(l.a, r.a);
    if dr == 0 && dg == 0 && db == 0 && da == 0 {
        crate::raster::transparent()
    } else if dr == 0 && dg == 0 && db == 0 {
        Rgba { r: 255, g: 0, b: 255, a: 255 }
    } else {
        Rgba { r: dr, g: dg, b: db, a: 255 }
    }
}

pub open spec fn pixel_sq_error(l: Rgba, r: Rgba) -> nat {
    ((l.r - r.r) * (l.r - r.r) + (l.g - r.g) * (l.g - r.g) + (l.b - r.b) * (l.b - r.b) + (l.a - r.a) * (
    l.a - r.a)) as nat
}

/// The compared area: wide and high enough for both pictures.
pub open spec fn diff_width(a: Pixmap, b: Pixmap) -> int {
    if a.width >= b.width {
        a.width as int
    } else {
        b.width as int
    }
}

pub open spec fn diff_height(a: Pixmap, b: Pixmap) -> int {
    if a.height >= b.height {
        a.height as int
    } else {
        b.height as int
    }
}

/// The two pixels compared at position `k` of the area, row by row.
pub open spec fn pair_at(a: Pixmap, b: Pixmap, k: int) -> (Rgba, Rgba) {
    let w = diff_width(a, b);
    (spec_pixel_or_transparent(a, k % w, k / w), spec_pixel_or_transparent(b, k % w, k / w))
}

/// How many of the first `n` positions hold different pixels.
pub open spec fn ae_count(a: Pixmap, b: Pixmap, n: int) -> nat
    decreases n,
{
    if n <= 0 {
        0
    } else {
        let (l, r) = pair_at(a, b, n - 1);
        ae_count(a, b, n - 1) + if l != r {
            1nat
        } else {
            0nat
        }
    }
}

/// The squared channel differences summed over the first `n` positions.
pub open spec fn sq_error_sum(a: Pixmap, b: Pixmap, n: int) -> nat
    decreases n,
{
    if n <= 0 {
        0
    } else {
        let (l, r) = pair_at(a, b, n - 1);
        sq_error_sum(a, b, n - 1) + pixel_sq_error(l, r)
    }
}

fn square_of(d: u8) -> (r: u32)
    ensures
        r == d * d,
        r <= 65025,
{
    assert(d * d <= 255 * 255) by (nonlinear_arith)
        requires
            d <= 255,
    ;
    (d as u32) * (d as u32)
}

fn channel_diff_of(a: u8, b: u8) -> (r: u8)
    ensures
        r == channel_diff(a, b),
{
    if a >= b {
        a - b
    } else {
        b - a
    }
}

/// The metrics of comparing `a` with `b` over the area that covers both.
pub open spec fn spec_diff_metrics(a: Pixmap, b: Pixmap) -> PixelDiffMetrics {
    let n = diff_width(a, b) * diff_height(a, b);
    PixelDiffMetrics {
        ae_pixels: ae_count(a, b, n) as u64,
        squared_error: sq_error_sum(a, b, n) as u128,
        total_pixels: (if n == 0 {
            1
        } else {
            n
        }) as u64,
        size_match: a.width == b.width && a.height == b.height,
    }
}

/// The pixels of the difference picture of `a` and `b`, row by row.
pub open spec fn spec_diff_pixels(a: Pixmap, b: Pixmap) -> Seq<Rgba> {
    Seq::new(
        (diff_width(a, b) * diff_height(a, b)) as nat,
        |k: int| diff_pixel(pair_at(a, b, k).0, pair_at(a, b, k).1),
    )
}

/// Compares two pictures over the area that covers both, a missing pixel counting as
/// transparent: the pixels that differ, the summed squared channel differences, and a picture
/// of the differences.
pub fn compare_images(reference: &Pixmap, rendered: &Pixmap) -> (r: PixelDiffResult)
    requires
        reference.wf(),
        rendered.wf(),
        diff_width(*reference, *rendered) * diff_height(*reference, *rendered) <= usize::MAX,
    ensures
        r.diff_image.wf(),
        r.diff_image.width == diff_width(*reference, *rendered),
        r.diff_image.height == diff_height(*reference, *rendered),
        forall|x: int, y: int|
            0 <= x < r.diff_image.width && 0 <= y < r.diff_image.height ==> #[trigger] r.diff_image.at(x, y)
                == diff_pixel(
                spec_pixel_or_transparent(*reference, x, y),
                spec_pixel_or_transparent(*rendered, x, y),
            ),
        r.metrics.size_match == (reference.width == rendered.width && reference.height == rendered.height),
        r.metrics.total_pixels == (if r.diff_image.width * r.diff_image.height == 0 {
            1
        } else {
            r.diff_image.width * r.diff_image.height
        }),
        r.metrics.ae_pixels == ae_count(*reference, *rendered, r.diff_image.width * r.diff_image.height),
        r.metrics.squared_error == sq_error_sum(*reference, *rendered, r.diff_image.width * r.diff_image.height),
        r.metrics == spec_diff_metrics(*reference, *rendered),
        r.diff_image.pixels@ == spec_diff_pixels(*reference, *rendered),
{
    let ghost a = *reference;
    let ghost b = *rendered;
    let w: u32 = if reference.width >= rendered.width { reference.width } else { rendered.width };
    let h: u32 = if reference.height >= rendered.height { reference.height } else { rendered.height };
    let total: usize = (w as usize) * (h as usize);
    let mut pixels: Vec<Rgba> = Vec::new();
    let mut ae: u64 = 0;
    let mut sq: u128 = 0;
    let mut k: usize = 0;
    while k < total
        invariant
            reference.wf(),
            rendered.wf(),
            a == *reference,
            b == *rendered,
            w == diff_width(a, b),
            h == diff_height(a, b),
            total == w * h,
            k <= total,
            pixels@.len() == k,
            forall|j: int|
                0 <= j < k ==> #[trigger] pixels@[j] == diff_pixel(pair_at(a, b, j).0, pair_at(a, b, j).1),
            ae == ae_count(a, b, k as int),
            ae <= k,
            sq == sq_error_sum(a, b, k as int),
            sq <= k * 260100,
        decreases total - k,
    {
        assert(w > 0) by (nonlinear_arith)
            requires
                k < w * h,
        ;
        proof {
            crate::raster::lemma_row_major(k as int, w as int, h as int);
        }
        let x = (k % (w as usize)) as u32;
        let y = (k / (w as usize)) as u32;
        let l = pixel_or_transparent(reference, x, y);
        let rr = pixel_or_transparent(rendered, x, y);
        assert(pair_at(a, b, k as int) == (l, rr));
        if l != rr {
            ae += 1;
        }
        let dr = channel_diff_of(l.r, rr.r);
        let dg = channel_diff_of(l.g, rr.g);
        let db = channel_diff_of(l.b, rr.b);
        let da = channel_diff_of(l.a, rr.a);
        let e: u128 = square_of(dr) as u128 + square_of(dg) as u128 + square_of(db) as u128 + square_of(da) as u128;
        assert(e == pixel_sq_error(l, rr) && e <= 260100) by (nonlinear_arith)
            requires
                e == dr * dr + dg * dg + db * db + da * da,
                dr == channel_diff(l.r, rr.r),
                dg == channel_diff(l.g, rr.g),
                db == channel_diff(l.b, rr.b),
                da == channel_diff(l.a, rr.a),
        ;
        assert(sq + e <= (k + 1) * 260100) by (nonlinear_arith)
            requires
                sq <= k * 260100,
                e <= 260100,
        ;
        sq = sq + e;
        let p = if dr == 0 && dg == 0 && db == 0 && da == 0 {
            Rgba { r: 0, g: 0, b: 0, a: 0 }
        } else if dr == 0 && dg == 0 && db == 0 {
            Rgba { r: 255, g: 0, b: 255, a: 255 }
        } else {
            Rgba { r: dr, g: dg, b: db, a: 255 }
        };
        pixels.push(p);
        k += 1;
    }
    assert(pixels@ =~= spec_diff_pixels(a, b));
    let diff_image = Pixmap { width: w, height: h, pixels };
    assert forall|x: int, y: int| 0 <= x < w && 0 <= y < h implies #[trigger] diff_image.at(x, y) == diff_pixel(
        spec_pixel_or_transparent(a, x, y),
        spec_pixel_or_transparent(b, x, y),
    ) by {
        lemma_position(x, y, w as int, h as int);
    }
    let size_match = reference.width == rendered.width && reference.height == rendered.height;
    let total_pixels: u64 = if total == 0 { 1 } else { total as u64 };
    PixelDiffResult {
        diff_image,
        metrics: PixelDiffMetrics { ae_pixels: ae, squared_error: sq, total_pixels, size_match },
    }
}

/// A picture compared with itself: the area is the picture, the sizes match, no pixel
/// differs, the squared error is zero (so the RMSE and the share of differing pixels are
/// zero), and the difference picture is transparent throughout.
pub proof fn lemma_compare_with_itself(a: Pixmap)
    ensures
        diff_width(a, a) == a.width,
        diff_height(a, a) == a.height,
        spec_diff_metrics(a, a).size_match,
        spec_diff_metrics(a, a).ae_pixels == 0,
        spec_diff_metrics(a, a).squared_error == 0,
        spec_diff_metrics(a, a).total_pixels == (if a.width * a.height == 0 {
            1
        } else {
            a.width * a.height
        }),
        spec_diff_pixels(a, a).len() == a.width * a.height,
        forall|k: int|
            0 <= k < spec_diff_pixels(a, a).len() ==> #[trigger] spec_diff_pixels(a, a)[k]
                == crate::raster::transparent(),
{
    let n = a.width * a.height;
    assert(0 <= n <= 0xFFFF_FFFE_0000_0001) by (nonlinear_arith)
        requires
            n == a.width * a.height,
            0 <= a.width <= 0xFFFF_FFFF,
            0 <= a.height <= 0xFFFF_FFFF,
    ;
    crate::render_laws::lemma_picture_matches_itself(a, n);
}

/// Comparing two pictures in either order gives the same metrics and the same difference
/// picture (and so the same RMSE and share of differing pixels).
pub proof fn lemma_compare_either_order(a: Pixmap, b: Pixmap)
    ensures
        diff_width(a, b) == diff_width(b, a),
        diff_height(a, b) == diff_height(b, a),
        spec_diff_metrics(a, b) == spec_diff_metrics(b, a),
        spec_diff_pixels(a, b) == spec_diff_pixels(b, a),
{
    let n = diff_width(a, b) * diff_height(a, b);
    assert(n >= 0) by (nonlinear_arith)
        requires
            n == diff_width(a, b) * diff_height(a, b),
            diff_width(a, b) >= 0,
            diff_height(a, b) >= 0,
    ;
    crate::render_laws::lemma_comparison_is_symmetric(a, b, n);
    assert(spec_diff_pixels(a, b) =~= spec_diff_pixels(b, a));
}

proof fn lemma_position(x: int, y: int, w: int, h: int)
    requires
        0 <= x < w,
        0 <= y < h,
    ensures
        0 <= y * w + x < w * h,
        (y * w + x) % w == x,
        (y * w + x) / w == y,
{
    assert(0 <= y * w + x < w * h) by (nonlinear_arith)
        requires
            0 <= x < w,
            0 <= y < h,
    ;
    vstd::arithmetic::div_mod::lemma_fundamental_div_mod_converse(y * w + x, w, y, x);
}

} // verus!
