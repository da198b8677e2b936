//! GameMaker Studio 2 tile words and the Tiled global tile ids that stand for them.
use vstd::prelude::*;

verus! {

/// Bits of a GMS2 tile word that hold the tile index.
pub const GMS2_TILE_INDEX_MASK: u32 = 0x0007_FFFF;
/// GMS2 horizontal mirror bit.
pub const GMS2_TILE_MIRROR_FLAG: u32 = 0x1000_0000;
/// GMS2 vertical flip bit.
pub const GMS2_TILE_FLIP_FLAG: u32 = 0x2000_0000;
/// GMS2 clockwise quarter-turn bit.
pub const GMS2_TILE_ROTATE_FLAG: u32 = 0x4000_0000;
/// All GMS2 transform bits.
pub const GMS2_TILE_FLAG_MASK: u32 = 0x7000_0000;

/// Tiled horizontal flip bit of a global tile id.
pub const TILED_FLIP_HORIZONTAL_FLAG: u32 = 0x8000_0000;
/// Tiled vertical flip bit of a global tile id.
pub const TILED_FLIP_VERTICAL_FLAG: u32 = 0x4000_0000;
/// Tiled anti-diagonal flip bit of a global tile id.
pub const TILED_FLIP_DIAGONAL_FLAG: u32 = 0x2000_0000;

/// The Tiled flag bits that stand for a combination of GMS2 mirror, flip and rotate bits.
pub open spec fn spec_tiled_flags_for(mirror: bool, flip: bool, rotate: bool) -> u32 {
    if !rotate {
        (if mirror { 0x8000_0000u32 } else { 0u32 }) | (if flip { 0x4000_0000u32 } else { 0u32 })
    } else {
        match (mirror, flip) {
            (false, false) => 0xA000_0000u32,
            (true, false) => 0xE000_0000u32,
            (false, true) => 0x2000_0000u32,
            (true, true) => 0x6000_0000u32,
        }
    }
}

/// The Tiled transform bits for the GMS2 transform bits held in `raw`.
pub open spec fn spec_transform_flags(raw: u32) -> u32 {
    spec_tiled_flags_for(
        raw & GMS2_TILE_MIRROR_FLAG != 0,
        raw & GMS2_TILE_FLIP_FLAG != 0,
        raw & GMS2_TILE_ROTATE_FLAG != 0,
    )
}

/// The tile index held in a GMS2 tile word.
pub fn gms2_tile_index(raw: u32) -> (r: u32)
    ensures
        r == raw & GMS2_TILE_INDEX_MASK,
        r == raw % 0x8_0000,
        r < 0x8_0000,
{
    assert(raw & 0x0007_FFFFu32 == raw % 0x8_0000 && raw & 0x0007_FFFFu32 < 0x8_0000) by (bit_vector);
    raw & GMS2_TILE_INDEX_MASK
}

/// The transform bits held in a GMS2 tile word.
pub fn gms2_tile_flags(raw: u32) -> (r: u32)
    ensures
        r == raw & GMS2_TILE_FLAG_MASK,
        r & GMS2_TILE_MIRROR_FLAG == raw & GMS2_TILE_MIRROR_FLAG,
        r & GMS2_TILE_FLIP_FLAG == raw & GMS2_TILE_FLIP_FLAG,
        r & GMS2_TILE_ROTATE_FLAG == raw & GMS2_TILE_ROTATE_FLAG,
        r & !GMS2_TILE_FLAG_MASK == 0,
{
    let r = raw & GMS2_TILE_FLAG_MASK;
    assert(r == raw & 0x7000_0000u32 ==> {
        &&& r & 0x1000_0000u32 == raw & 0x1000_0000u32
        &&& r & 0x2000_0000u32 == raw & 0x2000_0000u32
        &&& r & 0x4000_0000u32 == raw & 0x4000_0000u32
        &&& r & !0x7000_0000u32 == 0
    }) by (bit_vector);
    r
}

/// Tiled transform bits for a set of GMS2 transform bits.
///
/// GameMaker stores mirror and flip as flips along the tile's own axes, applied before the
/// clockwise quarter turn; Tiled applies its diagonal flip first, then its horizontal and
/// vertical flips. The table below matches the two.
fn gms2_flags_to_tiled_flags(flags: u32) -> (r: u32)
    ensures
        r == spec_tiled_flags_for(
            flags & GMS2_TILE_MIRROR_FLAG != 0,
            flags & GMS2_TILE_FLIP_FLAG != 0,
            flags & GMS2_TILE_ROTATE_FLAG != 0,
        ),
{
    let mirror = flags & GMS2_TILE_MIRROR_FLAG != 0;
    let flip = flags & GMS2_TILE_FLIP_FLAG != 0;
    let rotate = flags & GMS2_TILE_ROTATE_FLAG != 0;
    assert({
        &&& (0x8000_0000u32 | 0x4000_0000u32) == 0xC000_0000u32
        &&& (0x8000_0000u32 | 0u32) == 0x8000_0000u32
        &&& (0u32 | 0x4000_0000u32) == 0x4000_0000u32
        &&& (0u32 | 0u32) == 0u32
        &&& (0x2000_0000u32 | 0x8000_0000u32) == 0xA000_0000u32
        &&& (0x2000_0000u32 | 0x8000_0000u32 | 0x4000_0000u32) == 0xE000_0000u32
        &&& (0x2000_0000u32 | 0x4000_0000u32) == 0x6000_0000u32
    }) by (bit_vector);
    match (mirror, flip, rotate) {
        (false, false, false) => 0,
        (true, false, false) => TILED_FLIP_HORIZONTAL_FLAG,
        (false, true, false) => TILED_FLIP_VERTICAL_FLAG,
        (true, true, false) => TILED_FLIP_HORIZONTAL_FLAG | TILED_FLIP_VERTICAL_FLAG,
        (false, false, true) => TILED_FLIP_DIAGONAL_FLAG | TILED_FLIP_HORIZONTAL_FLAG,
        (true, false, true) => TILED_FLIP_DIAGONAL_FLAG | TILED_FLIP_HORIZONTAL_FLAG
            | TILED_FLIP_VERTICAL_FLAG,
        (false, true, true) => TILED_FLIP_DIAGONAL_FLAG,
        (true, true, true) => TILED_FLIP_DIAGONAL_FLAG | TILED_FLIP_VERTICAL_FLAG,
    }
}

/// Tiled transform bits for the GMS2 transform bits of a tile word.
pub fn gms2_raw_to_tiled_transform_flags(raw: u32) -> (r: u32)
    ensures
        r == spec_transform_flags(raw),
{
    let flags = gms2_tile_flags(raw);
    gms2_flags_to_tiled_flags(flags)
}

/// The Tiled global tile id, with transform bits, of a GMS2 tile word in a tileset that
/// starts at `first_gid`.
pub fn gms2_raw_to_tiled_gid(raw: u32, first_gid: u32) -> (r: u32)
    requires
        first_gid + raw % 0x8_0000 <= u32::MAX,
    ensures
        r == ((first_gid + raw % 0x8_0000) as u32) | spec_transform_flags(raw),
{
    let idx = gms2_tile_index(raw);
    (first_gid + idx) | gms2_raw_to_tiled_transform_flags(raw)
}

} // verus!
