//! Pixel images, tile transforms and image comparison.
use vstd::prelude::*;

use crate::tile_flags::{spec_transform_flags, GMS2_TILE_FLIP_FLAG, GMS2_TILE_MIRROR_FLAG, GMS2_TILE_ROTATE_FLAG};

verus! {

/// An 8-bit RGBA colour.
#[derive(Clone, Copy, Debug, PartialEq, Eq, Structural)]
pub struct Rgba {
    pub r: u8,
    pub g: u8,
    pub b: u8,
    pub a: u8,
}

/// Fully transparent black.
pub open spec fn transparent() -> Rgba {
    Rgba { r: 0, g: 0, b: 0, a: 0 }
}

/// An image: `width` x `height` pixels, row by row.
#[derive(Debug)]
pub struct Pixmap {
    pub width: u32,
    pub height: u32,
    pub pixels: Vec<Rgba>,
}

impl Pixmap {
    /// The pixel vector holds exactly `width * height` pixels.
    pub open spec fn wf(&self) -> bool {
        self.pixels@.len() == self.width * self.height
    }

    /// The pixel at column `x`, row `y`.
    pub open spec fn at(&self, x: int, y: int) -> Rgba {
        self.pixels@[y * self.width + x]
    }
}

/// Whether the Tiled id bits hold the anti-diagonal, horizontal and vertical flip.
pub open spec fn tiled_d(flags: u32) -> bool {
    flags & 0x2000_0000 != 0
}

pub open spec fn tiled_h(flags: u32) -> bool {
    flags & 0x8000_0000 != 0
}

pub open spec fn tiled_v(flags: u32) -> bool {
    flags & 0x4000_0000 != 0
}

/// Size of a `w` x `h` tile drawn with Tiled flags: the anti-diagonal flip swaps the sides.
pub open spec fn tiled_dims(flags: u32, w: int, h: int) -> (int, int) {
    if tiled_d(flags) {
        (h, w)
    } else {
        (w, h)
    }
}

/// The source pixel that Tiled draws at (`x`, `y`) of a `w` x `h` tile with the given flags.
/// Tiled flips anti-diagonally first, then horizontally, then vertically; each step is its
/// own inverse, so the source is found by undoing them in reverse order.
pub open spec fn tiled_source(flags: u32, w: int, h: int, x: int, y: int) -> (int, int) {
    let (dw, dh) = tiled_dims(flags, w, h);
    let y1 = if tiled_v(flags) {
        dh - 1 - y
    } else {
        y
    };
    let x1 = if tiled_h(flags) {
        dw - 1 - x
    } else {
        x
    };
    if tiled_d(flags) {
        (y1, x1)
    } else {
        (x1, y1)
    }
}

pub open spec fn gms2_mirror(raw: u32) -> bool {
    raw & GMS2_TILE_MIRROR_FLAG != 0
}

pub open spec fn gms2_flip(raw: u32) -> bool {
    raw & GMS2_TILE_FLIP_FLAG != 0
}

pub open spec fn gms2_rotate(raw: u32) -> bool {
    raw & GMS2_TILE_ROTATE_FLAG != 0
}

/// Size of a `w` x `h` tile drawn by GameMaker with the transform bits of `raw`.
pub open spec fn gms2_dims(raw: u32, w: int, h: int) -> (int, int) {
    if gms2_rotate(raw) {
        (h, w)
    } else {
        (w, h)
    }
}

/// The source pixel that GameMaker draws at (`x`, `y`) of a `w` x `h` tile with the
/// transform bits of `raw`: mirror and flip along the tile's own axes, then a clockwise
/// quarter turn.
pub open spec fn gms2_source(raw: u32, w: int, h: int, x: int, y: int) -> (int, int) {
    let (px, py) = if gms2_rotate(raw) {
        (y, h - 1 - x)
    } else {
        (x, y)
    };
    (if gms2_mirror(raw) {
        w - 1 - px
    } else {
        px
    }, if gms2_flip(raw) {
        h - 1 - py
    } else {
        py
    })
}

proof fn lemma_transform_bits(raw: u32)
    ensures
        tiled_d(spec_transform_flags(raw)) == gms2_rotate(raw),
        tiled_h(spec_transform_flags(raw)) == ((gms2_rotate(raw) && !gms2_flip(raw)) || (!gms2_rotate(raw)
            && gms2_mirror(raw))),
        tiled_v(spec_transform_flags(raw)) == ((gms2_rotate(raw) && gms2_mirror(raw)) || (!gms2_rotate(raw)
            && gms2_flip(raw))),
{
    let f = spec_transform_flags(raw);
    assert({
        &&& ((0x8000_0000u32 | 0u32) & 0x2000_0000u32 == 0)
        &&& ((0x8000_0000u32 | 0u32) & 0x8000_0000u32 != 0)
        &&& ((0x8000_0000u32 | 0u32) & 0x4000_0000u32 == 0)
        &&& ((0u32 | 0x4000_0000u32) & 0x2000_0000u32 == 0)
        &&& ((0u32 | 0x4000_0000u32) & 0x8000_0000u32 == 0)
        &&& ((0u32 | 0x4000_0000u32) & 0x4000_0000u32 != 0)
        &&& ((0x8000_0000u32 | 0x4000_0000u32) & 0x2000_0000u32 == 0)
        &&& ((0x8000_0000u32 | 0x4000_0000u32) & 0x8000_0000u32 != 0)
        &&& ((0x8000_0000u32 | 0x4000_0000u32) & 0x4000_0000u32 != 0)
        &&& ((0u32 | 0u32) & 0x2000_0000u32 == 0)
        &&& ((0u32 | 0u32) & 0x8000_0000u32 == 0)
        &&& ((0u32 | 0u32) & 0x4000_0000u32 == 0)
        &&& (0xA000_0000u32 & 0x2000_0000u32 != 0)
        &&& (0xA000_0000u32 & 0x8000_0000u32 != 0)
        &&& (0xA000_0000u32 & 0x4000_0000u32 == 0)
        &&& (0xE000_0000u32 & 0x2000_0000u32 != 0)
        &&& (0xE000_0000u32 & 0x8000_0000u32 != 0)
        &&& (0xE000_0000u32 & 0x4000_0000u32 != 0)
        &&& (0x2000_0000u32 & 0x2000_0000u32 != 0)
        &&& (0x2000_0000u32 & 0x8000_0000u32 == 0)
        &&& (0x2000_0000u32 & 0x4000_0000u32 == 0)
        &&& (0x6000_0000u32 & 0x2000_0000u32 != 0)
        &&& (0x6000_0000u32 & 0x8000_0000u32 == 0)
        &&& (0x6000_0000u32 & 0x4000_0000u32 != 0)
    }) by (bit_vector);
}

/// Drawing a GMS2 tile with the Tiled flags that stand for its transform bits gives the
/// same picture as GameMaker draws: the same size, and at every position the same source
/// pixel.
pub proof fn lemma_gms2_and_tiled_transforms_agree(raw: u32, w: int, h: int, x: int, y: int)
    ensures
        tiled_dims(spec_transform_flags(raw), w, h) == gms2_dims(raw, w, h),
        tiled_source(spec_transform_flags(raw), w, h, x, y) == gms2_source(raw, w, h, x, y),
{
    lemma_transform_bits(raw);
}

/// The pixels of a tile image drawn with a transform, row by row.
pub open spec fn transformed_pixels(tile: Pixmap, kind: TransformKind, bits: u32) -> Seq<Rgba> {
    let (dw, dh) = transform_dims(kind, bits, tile.width as int, tile.height as int);
    Seq::new(
        (dw * dh) as nat,
        |k: int|
            {
                let (sx, sy) = transform_source(kind, bits, tile.width as int, tile.height as int, k % dw, k / dw);
                tile.at(sx, sy)
            },
    )
}

/// A GMS2 tile drawn with the Tiled flags that stand for its transform bits is the same
/// image as the tile drawn by GameMaker.
pub proof fn lemma_gms2_tile_renders_alike_in_tiled(tile: Pixmap, raw: u32)
    ensures
        transformed_pixels(tile, TransformKind::Tiled, spec_transform_flags(raw)) == transformed_pixels(
            tile,
            TransformKind::Gms2,
            raw,
        ),
{
    let w = tile.width as int;
    let h = tile.height as int;
    lemma_transform_bits(raw);
    let a = transformed_pixels(tile, TransformKind::Tiled, spec_transform_flags(raw));
    let b = transformed_pixels(tile, TransformKind::Gms2, raw);
    let (dw, dh) = gms2_dims(raw, w, h);
    assert forall|k: int| 0 <= k < a.len() implies a[k] == b[k] by {
        lemma_gms2_and_tiled_transforms_agree(raw, w, h, k % dw, k / dw);
    }
    assert(a =~= b);
}

/// Row-major position of column `x`, row `y` in an image `w` pixels wide.
fn pixel_index(w: u32, h: u32, x: u32, y: u32) -> (r: usize)
    requires
        x < w,
        y < h,
        w * h <= usize::MAX,
    ensures
        r == y * w + x,
        r < w * h,
{
    assert(y * w + x < w * h) by (nonlinear_arith)
        requires
            x < w,
            y < h,
    ;
    assert(y * w + x <= usize::MAX);
    (y as usize) * (w as usize) + (x as usize)
}

pub(crate) proof fn lemma_row_major(k: int, dw: int, dh: int)
    requires
        0 <= k < dw * dh,
        dw > 0,
    ensures
        0 <= k % dw < dw,
        0 <= k / dw < dh,
        (k / dw) * dw + k % dw == k,
{
    vstd::arithmetic::div_mod::lemma_fundamental_div_mod(k, dw);
    vstd::arithmetic::div_mod::lemma_mod_pos_bound(k, dw);
    assert(k / dw >= 0) by {
        vstd::arithmetic::div_mod::lemma_div_pos_is_pos(k, dw);
    }
    let q = k / dw;
    let r = k % dw;
    assert(k == dw * q + r);
    assert(q * dw == dw * q) by (nonlinear_arith);
    assert(q < dh) by (nonlinear_arith)
        requires
            k == q * dw + r,
            0 <= r,
            k < dw * dh,
            dw > 0,
    ;
}

proof fn lemma_row_major_converse(x: int, y: int, dw: int, dh: int)
    requires
        0 <= x < dw,
        0 <= y < dh,
    ensures
        0 <= y * dw + x < dw * dh,
        (y * dw + x) % dw == x,
        (y * dw + x) / dw == y,
{
    assert(0 <= y * dw + x < dw * dh) by (nonlinear_arith)
        requires
            0 <= x < dw,
            0 <= y < dh,
    ;
    vstd::arithmetic::div_mod::lemma_fundamental_div_mod_converse(y * dw + x, dw, y, x);
}

/// A `width` x `height` picture filled with one colour.
pub fn new_canvas(width: u32, height: u32, background: Rgba) -> (r: Pixmap)
    requires
        width * height <= usize::MAX,
    ensures
        r.wf(),
        r.width == width,
        r.height == height,
        forall|x: int, y: int| 0 <= x < width && 0 <= y < height ==> #[trigger] r.at(x, y) == background,
{
    let total: usize = (width as usize) * (height as usize);
    let mut pixels: Vec<Rgba> = Vec::new();
    let mut k: usize = 0;
    while k < total
        invariant
            k <= total,
            pixels@.len() == k,
            forall|j: int| 0 <= j < k ==> #[trigger] pixels@[j] == background,
        decreases total - k,
    {
        pixels.push(background);
        k += 1;
    }
    let r = Pixmap { width, height, pixels };
    assert forall|x: int, y: int| 0 <= x < width && 0 <= y < height implies #[trigger] r.at(x, y) == background by {
        lemma_row_major_converse(x, y, width as int, height as int);
    }
    r
}

/// The window that cropping keeps of a `img_w` x `img_h` image: the corner is moved inside
/// the image and the size cut to what is left of it. Gives the corner and the size.
pub open spec fn crop_window(img_w: u32, img_h: u32, x: u64, y: u64, w: u64, h: u64) -> (int, int, int, int) {
    let cx: int = if x < img_w { x as int } else { img_w as int };
    let cy: int = if y < img_h { y as int } else { img_h as int };
    let cw: int = if w < img_w - cx { w as int } else { img_w - cx };
    let ch: int = if h < img_h - cy { h as int } else { img_h - cy };
    (cx, cy, cw, ch)
}

/// The part of an image inside a rectangle, clamped to the image the way `image`'s
/// `crop_imm` clamps it.
pub fn crop_region(img: &Pixmap, x: u64, y: u64, w: u64, h: u64) -> (r: Pixmap)
    requires
        img.wf(),
    ensures
        r.wf(),
        ({
            let (cx, cy, cw, ch) = crop_window(img.width, img.height, x, y, w, h);
            &&& r.width == cw
            &&& r.height == ch
            &&& forall|i: int, j: int|
                0 <= i < cw && 0 <= j < ch ==> #[trigger] r.at(i, j) == img.at(cx + i, cy + j)
        }),
{
    let iw = img.width;
    let ih = img.height;
    let cx: u32 = if x < iw as u64 { x as u32 } else { iw };
    let cy: u32 = if y < ih as u64 { y as u32 } else { ih };
    let cw: u32 = if w < (iw - cx) as u64 { w as u32 } else { iw - cx };
    let ch: u32 = if h < (ih - cy) as u64 { h as u32 } else { ih - cy };
    let total_img = img.pixels.len();
    assert(cw * ch <= iw * ih) by (nonlinear_arith)
        requires
            cw <= iw,
            ch <= ih,
    ;
    let total: usize = (cw as usize) * (ch as usize);
    let mut out: Vec<Rgba> = Vec::new();
    let mut k: usize = 0;
    while k < total
        invariant
            img.wf(),
            total_img == img.pixels@.len(),
            iw == img.width,
            ih == img.height,
            cx + cw <= iw,
            cy + ch <= ih,
            total == cw * ch,
            k <= total,
            out@.len() == k,
            forall|j: int|
                0 <= j < k ==> #[trigger] out@[j] == img.at(cx + j % (cw as int), cy + j / (cw as int)),
        decreases total - k,
    {
        assert(cw > 0) by (nonlinear_arith)
            requires
                k < cw * ch,
        ;
        proof {
            lemma_row_major(k as int, cw as int, ch as int);
        }
        let i = (k % (cw as usize)) as u32;
        let j = (k / (cw as usize)) as u32;
        let idx = pixel_index(iw, ih, cx + i, cy + j);
        out.push(img.pixels[idx]);
        k += 1;
    }
    let r = Pixmap { width: cw, height: ch, pixels: out };
    assert forall|i: int, j: int| 0 <= i < cw && 0 <= j < ch implies #[trigger] r.at(i, j) == img.at(
        cx + i,
        cy + j,
    ) by {
        lemma_row_major_converse(i, j, cw as int, ch as int);
    }
    r
}

/// Which transform a tile is drawn with.
#[derive(Clone, Copy, Debug, PartialEq, Eq, Structural)]
pub enum TransformKind {
    /// Tiled flags of a global tile id.
    Tiled,
    /// GMS2 transform bits of a tile word.
    Gms2,
}

pub open spec fn transform_dims(kind: TransformKind, bits: u32, w: int, h: int) -> (int, int) {
    match kind {
        TransformKind::Tiled => tiled_dims(bits, w, h),
        TransformKind::Gms2 => gms2_dims(bits, w, h),
    }
}

pub open spec fn transform_source(kind: TransformKind, bits: u32, w: int, h: int, x: int, y: int) -> (int, int) {
    match kind {
        TransformKind::Tiled => tiled_source(bits, w, h, x, y),
        TransformKind::Gms2 => gms2_source(bits, w, h, x, y),
    }
}

fn source_of(kind: &TransformKind, bits: u32, w: u32, h: u32, x: u32, y: u32) -> (r: (u32, u32))
    requires
        ({
            let (dw, dh) = transform_dims(*kind, bits, w as int, h as int);
            x < dw && y < dh
        }),
    ensures
        (r.0 as int, r.1 as int) == transform_source(*kind, bits, w as int, h as int, x as int, y as int),
        r.0 < w,
        r.1 < h,
{
    match kind {
        TransformKind::Tiled => {
            let d = bits & 0x2000_0000 != 0;
            let hf = bits & 0x8000_0000 != 0;
            let vf = bits & 0x4000_0000 != 0;
            let (dw, dh) = if d { (h, w) } else { (w, h) };
            let y1 = if vf { dh - 1 - y } else { y };
            let x1 = if hf { dw - 1 - x } else { x };
            if d { (y1, x1) } else { (x1, y1) }
        },
        TransformKind::Gms2 => {
            let m = bits & GMS2_TILE_MIRROR_FLAG != 0;
            let f = bits & GMS2_TILE_FLIP_FLAG != 0;
            let rot = bits & GMS2_TILE_ROTATE_FLAG != 0;
            let (px, py) = if rot { (y, h - 1 - x) } else { (x, y) };
            (if m { w - 1 - px } else { px }, if f { h - 1 - py } else { py })
        },
    }
}

/// A tile image drawn with a transform: Tiled flags or GMS2 transform bits.
pub fn transform_tile(tile: &Pixmap, kind: TransformKind, bits: u32) -> (r: Pixmap)
    requires
        tile.wf(),
    ensures
        r.wf(),
        (r.width as int, r.height as int) == transform_dims(kind, bits, tile.width as int, tile.height as int),
        r.pixels@ == transformed_pixels(*tile, kind, bits),
        forall|x: int, y: int|
            0 <= x < r.width && 0 <= y < r.height ==> {
                let (sx, sy) = transform_source(kind, bits, tile.width as int, tile.height as int, x, y);
                #[trigger] r.at(x, y) == tile.at(sx, sy)
            },
{
    let w = tile.width;
    let h = tile.height;
    let swap = match kind {
        TransformKind::Tiled => bits & 0x2000_0000 != 0,
        TransformKind::Gms2 => bits & GMS2_TILE_ROTATE_FLAG != 0,
    };
    let (dw, dh) = if swap { (h, w) } else { (w, h) };
    assert(dw * dh == w * h) by (nonlinear_arith)
        requires
            (dw == h && dh == w) || (dw == w && dh == h),
    ;
    let total = tile.pixels.len();
    let mut out: Vec<Rgba> = Vec::new();
    let mut k: usize = 0;
    while k < total
        invariant
            total == tile.pixels@.len(),
            tile.wf(),
            w == tile.width,
            h == tile.height,
            (dw as int, dh as int) == transform_dims(kind, bits, w as int, h as int),
            dw * dh == total,
            k <= total,
            out@.len() == k,
            forall|j: int|
                0 <= j < k ==> {
                    let (sx, sy) = transform_source(kind, bits, w as int, h as int, j % (dw as int), j / (dw as int));
                    #[trigger] out@[j] == tile.at(sx, sy)
                },
        decreases total - k,
    {
        assert(dw > 0) by (nonlinear_arith)
            requires
                k < dw * dh,
        ;
        proof {
            lemma_row_major(k as int, dw as int, dh as int);
        }
        let x = (k % (dw as usize)) as u32;
        let y = (k / (dw as usize)) as u32;
        let (sx, sy) = source_of(&kind, bits, w, h, x, y);
        let idx = pixel_index(w, h, sx, sy);
        out.push(tile.pixels[idx]);
        k += 1;
    }
    let r = Pixmap { width: dw, height: dh, pixels: out };
    assert(r.pixels@ =~= transformed_pixels(*tile, kind, bits));
    assert forall|x: int, y: int| 0 <= x < r.width && 0 <= y < r.height implies {
        let (sx, sy) = transform_source(kind, bits, tile.width as int, tile.height as int, x, y);
        #[trigger] r.at(x, y) == tile.at(sx, sy)
    } by {
        lemma_row_major_converse(x, y, dw as int, dh as int);
    }
    r
}

} // verus!
