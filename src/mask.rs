use vstd::prelude::*;
use crate::canvas::{Canvas, Pixel, pixel_of_bytes, pixel_index, transparent};

verus! {

/// The RGBA bytes of a transparent `width` by `height` image on which the polygon through
/// `vertices` has been filled in `color`.
pub uninterp spec fn filled_polygon(
    width: u32,
    height: u32,
    vertices: Seq<(i32, i32)>,
    color: (u8, u8, u8, u8),
) -> Seq<u8>;

/// Every vertex lies within 2^22 pixels of the origin, so that the fill's integer differences
/// fit in `i32` and every value its line drawer computes in `f32` (the ends, their differences
/// and halves of them) is exact.
pub open spec fn moderate_vertices(vertices: Seq<(i32, i32)>) -> bool {
    forall|i: int|
        0 <= i < vertices.len() ==> -0x40_0000 <= #[trigger] vertices[i].0 <= 0x40_0000
            && -0x40_0000 <= vertices[i].1 <= 0x40_0000
}

/// Row `y` lies above every vertex or below every vertex.
pub open spec fn row_outside(vertices: Seq<(i32, i32)>, y: int) -> bool {
    (forall|i: int| 0 <= i < vertices.len() ==> y < #[trigger] vertices[i].1)
        || (forall|i: int| 0 <= i < vertices.len() ==> #[trigger] vertices[i].1 < y)
}

pub open spec fn pixel_of_color(color: (u8, u8, u8, u8)) -> Pixel {
    Pixel { r: color.0, g: color.1, b: color.2, a: color.3 }
}

/// Relies on imageproc::drawing::draw_polygon_mut, on a fresh image::RgbaImage of the given
/// size, to fill the polygon through `vertices` in `color`: the bytes that come back depend on
/// the arguments alone, four per pixel, row by row; each pixel is left transparent or set to
/// `color`; no pixel is set on a row above or below every vertex (the scanlines run between the
/// vertices' rows and each edge is drawn from end to end); and each vertex inside the image is
/// set, as the edge drawer passes through both ends of every edge. Sides are below 2^31, as
/// the fill computes `side as i32 - 1`.
#[verifier::external_body]
fn polygon_fill(width: u32, height: u32, vertices: &Vec<(i32, i32)>, color: (u8, u8, u8, u8)) -> (r: Vec<u8>)
    requires
        0 < width < 0x8000_0000,
        0 < height < 0x8000_0000,
        4 * (width as int * height as int) <= usize::MAX,
        vertices@.len() > 0 ==> vertices@[0] != vertices@[vertices@.len() - 1],
        moderate_vertices(vertices@),
    ensures
        r@ == filled_polygon(width, height, vertices@, color),
        r@.len() == 4 * (width as int * height as int),
        forall|k: int|
            0 <= k < width as int * height as int ==> #[trigger] pixel_of_bytes(r@, k) == transparent()
                || pixel_of_bytes(r@, k) == pixel_of_color(color),
        forall|x: int, y: int|
            0 <= x < width && 0 <= y < height && row_outside(vertices@, y) ==> #[trigger] pixel_of_bytes(
                r@,
                pixel_index(width as int, x, y),
            ) == transparent(),
        forall|i: int|
            0 <= i < vertices@.len() && 0 <= vertices@[i].0 < width && 0 <= vertices@[i].1 < height
                ==> #[trigger] pixel_of_bytes(
                r@,
                pixel_index(width as int, vertices@[i].0 as int, vertices@[i].1 as int),
            ) == pixel_of_color(color),
{
    let mut image = image::RgbaImage::new(width, height);
    let points: Vec<imageproc::point::Point<i32>> = vertices.iter().map(
        |&(x, y)| imageproc::point::Point::new(x, y),
    ).collect();
    let rgba = image::Rgba([color.0, color.1, color.2, color.3]);
    imageproc::drawing::draw_polygon_mut(&mut image, &points, rgba);
    image.into_raw()
}

/// The colour of a hexagon mask: opaque white.
pub open spec fn mask_color() -> (u8, u8, u8, u8) {
    (255, 255, 255, 255)
}

/// A transparent `width` by `height` canvas holding one opaque hexagon, the polygon through the
/// six `vertices` (the corners at 30 + 60 k degrees of the largest hexagon that fits).
pub fn create_hex_mask(width: u32, height: u32, vertices: &Vec<(i32, i32)>) -> (r: Canvas)
    requires
        0 < width < 0x8000_0000,
        0 < height < 0x8000_0000,
        4 * (width as int * height as int) <= usize::MAX,
        vertices@.len() == 6,
        vertices@[0] != vertices@[5],
        moderate_vertices(vertices@),
    ensures
        r.wf(),
        r.width == width,
        r.height == height,
        forall|x: int, y: int|
            r.in_bounds(x, y) ==> #[trigger] r.at(x, y) == pixel_of_bytes(
                filled_polygon(width, height, vertices@, mask_color()),
                pixel_index(width as int, x, y),
            ),
        forall|x: int, y: int|
            r.in_bounds(x, y) ==> #[trigger] r.at(x, y) == transparent() || r.at(x, y)
                == pixel_of_color(mask_color()),
        forall|x: int, y: int|
            r.in_bounds(x, y) && row_outside(vertices@, y) ==> #[trigger] r.at(x, y) == transparent(),
        forall|i: int|
            0 <= i < 6 && r.in_bounds(vertices@[i].0 as int, vertices@[i].1 as int) ==> r.at(
                #[trigger] vertices@[i].0 as int,
                vertices@[i].1 as int,
            ) == pixel_of_color(mask_color()),
{
    let bytes = polygon_fill(width, height, vertices, (255, 255, 255, 255));
    match Canvas::from_rgba_bytes(width, height, &bytes) {
        Some(c) => {
            proof {
                assert forall|x: int, y: int| c.in_bounds(x, y) implies #[trigger] c.at(x, y)
                    == pixel_of_bytes(bytes@, pixel_index(width as int, x, y)) && (c.at(x, y)
                    == transparent() || c.at(x, y) == pixel_of_color(mask_color())) by {
                    crate::canvas::lemma_pixel_index_bounds(width as int, height as int, x, y);
                    assert(pixel_of_bytes(bytes@, pixel_index(width as int, x, y)) == transparent()
                        || pixel_of_bytes(bytes@, pixel_index(width as int, x, y))
                        == pixel_of_color(mask_color()));
                }
            }
            proof {
                assert forall|i: int|
                    0 <= i < 6 && c.in_bounds(vertices@[i].0 as int, vertices@[i].1 as int) implies c.at(
                    #[trigger] vertices@[i].0 as int,
                    vertices@[i].1 as int,
                ) == pixel_of_color(mask_color()) by {
                    let x = vertices@[i].0 as int;
                    let y = vertices@[i].1 as int;
                    crate::canvas::lemma_pixel_index_bounds(width as int, height as int, x, y);
                    assert(pixel_of_bytes(bytes@, pixel_index(width as int, x, y)) == pixel_of_color(
                        mask_color(),
                    ));
                }
            }
            c
        },
        None => {
            // the fill returns four bytes per pixel, so the bytes always make a canvas
            proof {
                assert(false);
            }
            Canvas::new(width, height)
        },
    }
}

} // verus!
