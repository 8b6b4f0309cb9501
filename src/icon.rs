use vstd::prelude::*;
use crate::canvas::{Canvas, Pixel, transparent, crop_len, crop_origin};
use crate::text::str_equals;
use crate::mask::{create_hex_mask, filled_polygon, mask_color, moderate_vertices};
use crate::canvas::{pixel_of_bytes, pixel_index};
use crate::viewport::{CropRect, TransformStateObject, icon_frame, icon_frame_spec, viewport_crop, viewport_spec};

verus! {

/// Width in pixels of the coloured border drawn around a token icon.
pub const STROKE_WIDTH: u32 = 20;

pub open spec fn red() -> Pixel {
    Pixel { r: 255, g: 0, b: 0, a: 255 }
}

pub open spec fn white() -> Pixel {
    Pixel { r: 255, g: 255, b: 255, a: 255 }
}

/// The border colour of a token: red for the allegiance `"evil"`, white for any other.
pub open spec fn stroke_color_of(allegiance: Seq<char>) -> Pixel {
    if allegiance == "evil"@ {
        red()
    } else {
        white()
    }
}

/// A source pixel seen through a mask pixel: kept where the mask is not transparent.
pub open spec fn masked(p: Pixel, m: Pixel) -> Pixel {
    if m.a > 0 {
        p
    } else {
        transparent()
    }
}

/// The pixel at `(x, y)` of a stroked icon: the image, shifted by the stroke width, where it is
/// not transparent; else the stroke colour where the enlarged hexagon covers; else nothing.
pub open spec fn stroked(image: Canvas, stroke_mask: Canvas, color: Pixel, x: int, y: int) -> Pixel {
    let s = STROKE_WIDTH as int;
    if s <= x < image.width + s && s <= y < image.height + s && image.opaque_at(x - s, y - s) {
        image.at(x - s, y - s)
    } else if stroke_mask.opaque_at(x, y) {
        color
    } else {
        transparent()
    }
}

/// The border colour for an allegiance.
pub fn stroke_color(allegiance: &str) -> (r: Pixel)
    ensures
        r == stroke_color_of(allegiance@),
{
    if str_equals(allegiance, "evil") {
        Pixel { r: 255, g: 0, b: 0, a: 255 }
    } else {
        Pixel { r: 255, g: 255, b: 255, a: 255 }
    }
}

/// Keeps the pixels of `image` where `mask` is not transparent and clears the others.
pub fn apply_mask(image: &Canvas, mask: &Canvas) -> (r: Canvas)
    requires
        image.wf(),
        mask.wf(),
        image.width <= mask.width,
        image.height <= mask.height,
    ensures
        r.wf(),
        r.width == image.width,
        r.height == image.height,
        forall|x: int, y: int|
            r.in_bounds(x, y) ==> #[trigger] r.at(x, y) == masked(image.at(x, y), mask.at(x, y)),
{
    let width = image.width;
    let height = image.height;
    image.size_fits_in_memory();
    let mut out = Canvas::new(width, height);
    let mut y: u32 = 0;
    while y < height
        invariant
            image.wf(),
            mask.wf(),
            width == image.width,
            height == image.height,
            width <= mask.width,
            height <= mask.height,
            out.wf(),
            out.width == width,
            out.height == height,
            y <= height,
            forall|i: int, j: int|
                out.in_bounds(i, j) && j < y ==> #[trigger] out.at(i, j) == masked(
                    image.at(i, j),
                    mask.at(i, j),
                ),
        decreases height - y,
    {
        let mut x: u32 = 0;
        while x < width
            invariant
                image.wf(),
                mask.wf(),
                width == image.width,
                height == image.height,
                width <= mask.width,
                height <= mask.height,
                out.wf(),
                out.width == width,
                out.height == height,
                y < height,
                x <= width,
                forall|i: int, j: int|
                    out.in_bounds(i, j) && (j < y || (j == y && i < x)) ==> #[trigger] out.at(i, j)
                        == masked(image.at(i, j), mask.at(i, j)),
            decreases width - x,
        {
            let m = mask.get_pixel(x, y);
            if m.a > 0 {
                let p = image.get_pixel(x, y);
                out.put_pixel(x, y, p);
            } else {
                out.put_pixel(x, y, Pixel { r: 0, g: 0, b: 0, a: 0 });
            }
            x = x + 1;
        }
        y = y + 1;
    }
    out
}

/// Frames `image` with a border: a canvas larger by the stroke width on every side, filled
/// with the allegiance's colour where `stroke_mask` (a hexagon of that larger size) covers it,
/// with the non-transparent pixels of `image` laid on top, centred.
pub fn add_hex_stroke(image: &Canvas, stroke_mask: &Canvas, allegiance: &str) -> (r: Canvas)
    requires
        image.wf(),
        stroke_mask.wf(),
        image.width + 2 * STROKE_WIDTH <= u32::MAX,
        image.height + 2 * STROKE_WIDTH <= u32::MAX,
        stroke_mask.width == image.width + 2 * STROKE_WIDTH,
        stroke_mask.height == image.height + 2 * STROKE_WIDTH,
    ensures
        r.wf(),
        r.width == image.width + 2 * STROKE_WIDTH,
        r.height == image.height + 2 * STROKE_WIDTH,
        forall|x: int, y: int|
            r.in_bounds(x, y) ==> #[trigger] r.at(x, y) == stroked(
                *image,
                *stroke_mask,
                stroke_color_of(allegiance@),
                x,
                y,
            ),
{
    let color = stroke_color(allegiance);
    let width = stroke_mask.width;
    let height = stroke_mask.height;
    stroke_mask.size_fits_in_memory();
    let mut out = Canvas::new(width, height);
    let mut y: u32 = 0;
    while y < height
        invariant
            image.wf(),
            stroke_mask.wf(),
            width == stroke_mask.width,
            height == stroke_mask.height,
            width == image.width + 2 * STROKE_WIDTH,
            height == image.height + 2 * STROKE_WIDTH,
            color == stroke_color_of(allegiance@),
            out.wf(),
            out.width == width,
            out.height == height,
            y <= height,
            forall|i: int, j: int|
                out.in_bounds(i, j) && j < y ==> #[trigger] out.at(i, j) == stroked(
                    *image,
                    *stroke_mask,
                    color,
                    i,
                    j,
                ),
        decreases height - y,
    {
        let mut x: u32 = 0;
        while x < width
            invariant
                image.wf(),
                stroke_mask.wf(),
                width == stroke_mask.width,
                height == stroke_mask.height,
                width == image.width + 2 * STROKE_WIDTH,
                height == image.height + 2 * STROKE_WIDTH,
                color == stroke_color_of(allegiance@),
                out.wf(),
                out.width == width,
                out.height == height,
                y < height,
                x <= width,
                forall|i: int, j: int|
                    out.in_bounds(i, j) && (j < y || (j == y && i < x)) ==> #[trigger] out.at(i, j)
                        == stroked(*image, *stroke_mask, color, i, j),
            decreases width - x,
        {
            let inside = STROKE_WIDTH <= x && x < image.width + STROKE_WIDTH && STROKE_WIDTH <= y
                && y < image.height + STROKE_WIDTH;
            let mut p = Pixel { r: 0, g: 0, b: 0, a: 0 };
            if stroke_mask.get_pixel(x, y).a > 0 {
                p = color;
            }
            if inside {
                let q = image.get_pixel(x - STROKE_WIDTH, y - STROKE_WIDTH);
                if q.a > 0 {
                    p = q;
                }
            }
            out.put_pixel(x, y, p);
            x = x + 1;
        }
        y = y + 1;
    }
    out
}

/// Whether some pixel of the canvas is not fully transparent.
pub open spec fn has_content(c: Canvas) -> bool {
    exists|x: int, y: int| c.in_bounds(x, y) && #[trigger] c.opaque_at(x, y)
}

/// The rectangle at `(left, top)` spanning `width` by `height` is the smallest one holding every
/// non-transparent pixel of `c`: it holds them all, and one of them lies on each of its edges.
pub open spec fn is_content_box(c: Canvas, left: int, top: int, width: int, height: int) -> bool {
    &&& 0 <= left
    &&& 0 <= top
    &&& 0 < width
    &&& 0 < height
    &&& left + width <= c.width
    &&& top + height <= c.height
    &&& forall|x: int, y: int|
        c.in_bounds(x, y) && #[trigger] c.opaque_at(x, y) ==> left <= x < left + width && top <= y
            < top + height
    &&& exists|y: int| 0 <= y < c.height && #[trigger] c.opaque_at(left, y)
    &&& exists|y: int| 0 <= y < c.height && #[trigger] c.opaque_at(left + width - 1, y)
    &&& exists|x: int| 0 <= x < c.width && #[trigger] c.opaque_at(x, top)
    &&& exists|x: int| 0 <= x < c.width && #[trigger] c.opaque_at(x, top + height - 1)
}

/// `r` is `c` cropped to the bounding box of its non-transparent pixels, or `c` itself where
/// it has none.
pub open spec fn is_trimmed(c: Canvas, r: Canvas) -> bool {
    &&& !has_content(c) ==> {
        &&& r.width == c.width
        &&& r.height == c.height
        &&& forall|x: int, y: int| r.in_bounds(x, y) ==> #[trigger] r.at(x, y) == c.at(x, y)
    }
    &&& has_content(c) ==> exists|left: int, top: int|
        {
            &&& is_content_box(c, left, top, r.width as int, r.height as int)
            &&& forall|x: int, y: int|
                r.in_bounds(x, y) ==> #[trigger] r.at(x, y) == c.at(left + x, top + y)
        }
}

/// Crops the canvas to the bounding box of its non-transparent pixels; a canvas with none is
/// returned as it is. The canvas itself is left unchanged.
pub fn crop_to_content(image: &mut Canvas) -> (r: Canvas)
    requires
        old(image).wf(),
    ensures
        *final(image) == *old(image),
        r.wf(),
        is_trimmed(*old(image), r),
{
    let width = image.width;
    let height = image.height;
    let mut found = false;
    let mut left: u32 = 0;
    let mut right: u32 = 0;
    let mut top: u32 = 0;
    let mut bottom: u32 = 0;
    let ghost mut wl: int = 0;
    let ghost mut wr: int = 0;
    let ghost mut wt: int = 0;
    let ghost mut wb: int = 0;
    let mut y: u32 = 0;
    while y < height
        invariant
            image.wf(),
            width == image.width,
            height == image.height,
            y <= height,
            !found ==> forall|i: int, j: int|
                image.in_bounds(i, j) && j < y ==> !#[trigger] image.opaque_at(i, j),
            found ==> {
                &&& left <= right < width
                &&& top <= bottom < y
                &&& forall|i: int, j: int|
                    image.in_bounds(i, j) && j < y && #[trigger] image.opaque_at(i, j) ==> left
                        <= i <= right && top <= j <= bottom
                &&& 0 <= wl < height && image.opaque_at(left as int, wl)
                &&& 0 <= wr < height && image.opaque_at(right as int, wr)
                &&& 0 <= wt < width && image.opaque_at(wt, top as int)
                &&& 0 <= wb < width && image.opaque_at(wb, bottom as int)
            },
        decreases height - y,
    {
        let mut x: u32 = 0;
        while x < width
            invariant
                image.wf(),
                width == image.width,
                height == image.height,
                y < height,
                x <= width,
                !found ==> forall|i: int, j: int|
                    image.in_bounds(i, j) && (j < y || (j == y && i < x)) ==> !#[trigger] image.opaque_at(i, j),
                found ==> {
                    &&& left <= right < width
                    &&& top <= bottom <= y
                    &&& forall|i: int, j: int|
                        image.in_bounds(i, j) && (j < y || (j == y && i < x))
                            && #[trigger] image.opaque_at(i, j) ==> left <= i <= right && top <= j
                            <= bottom
                    &&& 0 <= wl < height && image.opaque_at(left as int, wl)
                    &&& 0 <= wr < height && image.opaque_at(right as int, wr)
                    &&& 0 <= wt < width && image.opaque_at(wt, top as int)
                    &&& 0 <= wb < width && image.opaque_at(wb, bottom as int)
                },
            decreases width - x,
        {
            if image.get_pixel(x, y).a > 0 {
                if !found {
                    found = true;
                    left = x;
                    right = x;
                    top = y;
                    bottom = y;
                    proof {
                        wl = y as int;
                        wr = y as int;
                        wt = x as int;
                        wb = x as int;
                    }
                } else {
                    if x < left {
                        left = x;
                        proof {
                            wl = y as int;
                        }
                    }
                    if x > right {
                        right = x;
                        proof {
                            wr = y as int;
                        }
                    }
                    if y > bottom {
                        bottom = y;
                        proof {
                            wb = x as int;
                        }
                    }
                }
            }
            x = x + 1;
        }
        y = y + 1;
    }
    if !found {
        return image.crop(0, 0, width, height);
    }
    let r = image.crop(left, top, right - left + 1, bottom - top + 1);
    proof {
        let c = *image;
        assert(r.width == right - left + 1);
        assert(r.height == bottom - top + 1);
        let w = r.width as int;
        let h = r.height as int;
        assert(c.opaque_at(left as int, wl));
        assert(c.opaque_at(left + w - 1, wr));
        assert(c.opaque_at(wt, top as int));
        assert(c.opaque_at(wb, top + h - 1));
        assert(forall|x: int, y: int|
            c.in_bounds(x, y) && #[trigger] c.opaque_at(x, y) ==> left <= x < left + w && top <= y
                < top + h);
        assert(is_content_box(c, left as int, top as int, r.width as int, r.height as int));
        assert(forall|x: int, y: int|
            r.in_bounds(x, y) ==> #[trigger] r.at(x, y) == c.at(left + x, top + y));
    }
    r
}

/// The pixel at `(x, y)` of the mask filled through `vertices` on a `width` by `height` canvas.
pub open spec fn mask_pixel(width: u32, height: u32, vertices: Seq<(i32, i32)>, x: int, y: int) -> Pixel {
    pixel_of_bytes(filled_polygon(width, height, vertices, mask_color()), pixel_index(width as int, x, y))
}

/// The pixel at `(x, y)` of a stroked icon, before trimming: the cropped portrait, seen through
/// the hexagon on `rect`'s size and shifted by the stroke width, where that is not transparent;
/// else the stroke colour where the enlarged hexagon covers; else nothing.
pub open spec fn icon_layer(
    cropped: Canvas,
    rect: CropRect,
    mask_vertices: Seq<(i32, i32)>,
    stroke_vertices: Seq<(i32, i32)>,
    color: Pixel,
    x: int,
    y: int,
) -> Pixel {
    let s = STROKE_WIDTH as int;
    let face = masked(
        cropped.at(x - s, y - s),
        mask_pixel(rect.width, rect.height, mask_vertices, x - s, y - s),
    );
    let w = (cropped.width + 2 * STROKE_WIDTH) as u32;
    let h = (cropped.height + 2 * STROKE_WIDTH) as u32;
    if s <= x < cropped.width + s && s <= y < cropped.height + s && face.a > 0 {
        face
    } else if mask_pixel(w, h, stroke_vertices, x, y).a > 0 {
        color
    } else {
        transparent()
    }
}

/// Cuts from `source` the pixels that the icon frame shows under `transform`; returns the
/// rectangle asked for and the pixels cut, clamped to the source.
pub fn crop_icon_source(source: &Canvas, transform: &TransformStateObject) -> (r: (CropRect, Canvas))
    requires
        source.wf(),
        transform.scale > 0,
    ensures
        r.0 == viewport_spec(icon_frame_spec(), *transform, source.width, source.height),
        r.1.wf(),
        r.1.width == crop_len(r.0.x, r.0.width, source.width),
        r.1.height == crop_len(r.0.y, r.0.height, source.height),
        forall|i: int, j: int|
            r.1.in_bounds(i, j) ==> #[trigger] r.1.at(i, j) == source.at(
                crop_origin(r.0.x, source.width) + i,
                crop_origin(r.0.y, source.height) + j,
            ),
{
    let frame = icon_frame();
    let rect = viewport_crop(&frame, transform, source.width, source.height);
    let cropped = source.crop(rect.x, rect.y, rect.width, rect.height);
    (rect, cropped)
}

/// Turns a cropped portrait into a token icon: masks it with the hexagon through
/// `mask_vertices` on `rect`'s size, frames it with the allegiance's colour in the hexagon
/// through `stroke_vertices` on a canvas larger by the stroke width on each side, and trims
/// the result to its non-transparent pixels.
pub fn finish_icon(
    cropped: &Canvas,
    rect: &CropRect,
    mask_vertices: &Vec<(i32, i32)>,
    stroke_vertices: &Vec<(i32, i32)>,
    allegiance: &str,
) -> (r: Canvas)
    requires
        cropped.wf(),
        cropped.width <= rect.width,
        cropped.height <= rect.height,
        0 < rect.width < 0x8000_0000,
        0 < rect.height < 0x8000_0000,
        cropped.width + 2 * STROKE_WIDTH < 0x8000_0000,
        cropped.height + 2 * STROKE_WIDTH < 0x8000_0000,
        4 * (rect.width as int * rect.height as int) <= usize::MAX,
        cropped.width + 2 * STROKE_WIDTH <= u32::MAX,
        cropped.height + 2 * STROKE_WIDTH <= u32::MAX,
        4 * ((cropped.width + 2 * STROKE_WIDTH) * (cropped.height + 2 * STROKE_WIDTH)) <= usize::MAX,
        mask_vertices@.len() == 6,
        mask_vertices@[0] != mask_vertices@[5],
        moderate_vertices(mask_vertices@),
        stroke_vertices@.len() == 6,
        stroke_vertices@[0] != stroke_vertices@[5],
        moderate_vertices(stroke_vertices@),
    ensures
        r.wf(),
        exists|layer: Canvas|
            {
                &&& layer.wf()
                &&& layer.width == cropped.width + 2 * STROKE_WIDTH
                &&& layer.height == cropped.height + 2 * STROKE_WIDTH
                &&& forall|x: int, y: int|
                    layer.in_bounds(x, y) ==> #[trigger] layer.at(x, y) == icon_layer(
                        *cropped,
                        *rect,
                        mask_vertices@,
                        stroke_vertices@,
                        stroke_color_of(allegiance@),
                        x,
                        y,
                    )
                &&& is_trimmed(layer, r)
            },
{
    let mask = create_hex_mask(rect.width, rect.height, mask_vertices);
    let face = apply_mask(cropped, &mask);
    let stroke_mask = create_hex_mask(
        face.width + 2 * STROKE_WIDTH,
        face.height + 2 * STROKE_WIDTH,
        stroke_vertices,
    );
    let mut layer = add_hex_stroke(&face, &stroke_mask, allegiance);
    let ghost before = layer;
    let r = crop_to_content(&mut layer);
    proof {
        assert forall|x: int, y: int| before.in_bounds(x, y) implies #[trigger] before.at(x, y)
            == icon_layer(
            *cropped,
            *rect,
            mask_vertices@,
            stroke_vertices@,
            stroke_color_of(allegiance@),
            x,
            y,
        ) by {
            let s = STROKE_WIDTH as int;
            if s <= x < cropped.width + s && s <= y < cropped.height + s {
                assert(face.at(x - s, y - s) == masked(cropped.at(x - s, y - s), mask.at(x - s, y - s)));
            }
        }
    }
    r
}

} // verus!
