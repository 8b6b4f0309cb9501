use vstd::prelude::*;
use vstd::arithmetic::div_mod::lemma_fundamental_div_mod_converse_div;
use vstd::arithmetic::div_mod::lemma_fundamental_div_mod;

verus! {

// Lengths and positions in the logical canvas are fixed-point numbers with 16 fractional
// bits: the value 65536 stands for one logical pixel.
/// The fixed-point representation of one.
pub const FIXED_ONE: u32 = 65536;

/// Side of the square logical canvas, in logical pixels, that the user frames a portrait in.
pub const LOGICAL_CANVAS_SIZE: u32 = 450;

/// A rectangle of the logical canvas, in fixed-point logical pixels.
#[derive(Clone, Copy, PartialEq, Eq, Structural, Debug)]
pub struct BoundingBox {
    pub left: u32,
    pub top: u32,
    pub width: u32,
    pub height: u32,
}

/// How the user zoomed and panned a portrait before committing a crop: `scale` is the zoom
/// factor, the positions are the pan offsets in logical pixels, all in fixed point.
#[derive(Clone, Copy, PartialEq, Eq, Structural, Debug)]
pub struct TransformStateObject {
    pub scale: u32,
    pub position_x: i32,
    pub position_y: i32,
}

/// A rectangle of source-image pixels.
#[derive(Clone, Copy, PartialEq, Eq, Structural, Debug)]
pub struct CropRect {
    pub x: u32,
    pub y: u32,
    pub width: u32,
    pub height: u32,
}

/// The frame of a token's face in the logical canvas: left 129 3/4, top 115, width 190 1/2,
/// height 220 logical pixels.
pub open spec fn icon_frame_spec() -> BoundingBox {
    BoundingBox {
        left: (519 * FIXED_ONE / 4) as u32,
        top: (115 * FIXED_ONE) as u32,
        width: (381 * FIXED_ONE / 2) as u32,
        height: (220 * FIXED_ONE) as u32,
    }
}

/// The frame of a token's face in the logical canvas.
pub fn icon_frame() -> (r: BoundingBox)
    ensures
        r == icon_frame_spec(),
{
    BoundingBox { left: 8503296, top: 7536640, width: 12484608, height: 14417920 }
}

/// The integer nearest to `v` inside the range of `u32`.
pub open spec fn saturate_u32(v: int) -> u32 {
    if v < 0 {
        0
    } else if v > u32::MAX {
        u32::MAX
    } else {
        v as u32
    }
}

/// A logical length `offset / scale` (both fixed point) taken to source pixels, for a source
/// `resolution` pixels across the logical canvas, and rounded down.
pub open spec fn source_pixels(offset: int, scale: int, resolution: int) -> u32 {
    saturate_u32((offset * resolution) / (LOGICAL_CANVAS_SIZE * scale))
}

/// The source-pixel rectangle that `frame` shows once the source, `resolution_width` by
/// `resolution_height` pixels, is zoomed and panned by `transform` on the logical canvas.
pub open spec fn viewport_spec(
    frame: BoundingBox,
    transform: TransformStateObject,
    resolution_width: u32,
    resolution_height: u32,
) -> CropRect {
    CropRect {
        x: source_pixels(frame.left - transform.position_x, transform.scale as int, resolution_width as int),
        y: source_pixels(frame.top - transform.position_y, transform.scale as int, resolution_height as int),
        width: source_pixels(frame.width as int, transform.scale as int, resolution_width as int),
        height: source_pixels(frame.height as int, transform.scale as int, resolution_height as int),
    }
}

/// `offset * resolution / (LOGICAL_CANVAS_SIZE * scale)`, rounded down and kept inside `u32`.
fn scaled_floor(offset: i64, scale: u32, resolution: u32) -> (r: u32)
    requires
        scale > 0,
        -0x2_0000_0000 <= offset <= 0x2_0000_0000,
    ensures
        r == source_pixels(offset as int, scale as int, resolution as int),
{
    proof {
        assert(-0x2_0000_0000 * 0xffff_ffff <= (offset as int) * (resolution as int)
            <= 0x2_0000_0000 * 0xffff_ffff) by (nonlinear_arith)
            requires -0x2_0000_0000 <= offset <= 0x2_0000_0000, 0 <= resolution <= 0xffff_ffff;
    }
    let n: i128 = (offset as i128) * (resolution as i128);
    assert(0 < 450 * (scale as int) <= 450 * 0xffff_ffff);
    let d: i128 = 450 * (scale as i128);
    assert(d == LOGICAL_CANVAS_SIZE * scale);
    let q: i128;
    if n >= 0 {
        q = n / d;
    } else {
        let m: i128 = -n;
        let c: i128 = (m + d - 1) / d;
        proof {
            let x = m + d - 1;
            lemma_fundamental_div_mod(x as int, d as int);
            let k = x % (d as int);
            assert(x == d * c + k);
            assert(c * d == x - k) by (nonlinear_arith)
                requires x == d * c + k;
            assert(n == (-c) * d + (c * d - m)) by (nonlinear_arith)
                requires m == -n;
            lemma_fundamental_div_mod_converse_div(n as int, d as int, -c, c * d - m);
        }
        q = -c;
    }
    if q < 0 {
        0
    } else if q > 0xffff_ffff {
        0xffff_ffff
    } else {
        q as u32
    }
}

/// Maps the fixed frame, as panned and zoomed in the logical canvas, to source pixels:
/// each coordinate is `(frame − position) / scale × resolution / 450`, each extent
/// `frame / scale × resolution / 450`, rounded down and kept inside `u32`.
pub fn viewport_crop(
    frame: &BoundingBox,
    transform: &TransformStateObject,
    resolution_width: u32,
    resolution_height: u32,
) -> (r: CropRect)
    requires
        transform.scale > 0,
    ensures
        r == viewport_spec(*frame, *transform, resolution_width, resolution_height),
{
    let x = scaled_floor(
        frame.left as i64 - transform.position_x as i64,
        transform.scale,
        resolution_width,
    );
    let y = scaled_floor(
        frame.top as i64 - transform.position_y as i64,
        transform.scale,
        resolution_height,
    );
    let width = scaled_floor(frame.width as i64, transform.scale, resolution_width);
    let height = scaled_floor(frame.height as i64, transform.scale, resolution_height);
    CropRect { x, y, width, height }
}

} // verus!
