use vstd::prelude::*;
use vstd::arithmetic::div_mod::{lemma_fundamental_div_mod, lemma_div_pos_is_pos};
use crate::canvas::{Canvas, pixel_of_bytes, pixel_index, lemma_pixel_index_bounds};
use crate::mask::pixel_of_color;

verus! {

/// `p / q` rounded to the nearest integer, halves away from zero.
pub open spec fn round_div(p: int, q: int) -> int {
    if p >= 0 {
        (2 * p + q) / (2 * q)
    } else {
        -((2 * -p + q) / (2 * q))
    }
}

/// `n` is the whole part of the square root of `d`.
pub open spec fn is_floor_sqrt(n: int, d: int) -> bool {
    0 <= n && n * n <= d < (n + 1) * (n + 1)
}

/// The whole part of the Euclidean length of the segment from `start` to `end`.
pub open spec fn segment_steps(start: (i32, i32), end: (i32, i32)) -> int {
    choose|n: int| is_floor_sqrt(n, squared_length(start, end))
}

/// The squared Euclidean length of the segment from `start` to `end`.
pub open spec fn squared_length(start: (i32, i32), end: (i32, i32)) -> int {
    (end.0 - start.0) * (end.0 - start.0) + (end.1 - start.1) * (end.1 - start.1)
}

/// Point `step` of `steps` along the segment from `start` to `end`, rounded to whole pixels;
/// a segment of no steps has only its start.
pub open spec fn segment_point(start: (i32, i32), end: (i32, i32), steps: int, step: int) -> (i32, i32) {
    if steps == 0 {
        start
    } else {
        (
            (start.0 + round_div(step * (end.0 - start.0), steps)) as i32,
            (start.1 + round_div(step * (end.1 - start.1), steps)) as i32,
        )
    }
}

/// The points at which a thick line from `start` to `end` is stamped: one per unit of its
/// length, both ends included.
pub open spec fn segment_points(start: (i32, i32), end: (i32, i32)) -> Seq<(i32, i32)> {
    let n = segment_steps(start, end);
    Seq::new((n + 1) as nat, |k: int| segment_point(start, end, n, k))
}

/// The squared length of the segment fits in `i32`.
pub open spec fn short_segment(start: (i32, i32), end: (i32, i32)) -> bool {
    squared_length(start, end) <= i32::MAX
}

/// The stamp points of the closed outline through `vertices`, edge after edge, for the first
/// `edges` edges (edge `i` runs from vertex `i` to the next, the last back to the first).
pub open spec fn outline_points(vertices: Seq<(i32, i32)>, edges: int) -> Seq<(i32, i32)>
    decreases edges,
{
    if edges <= 0 {
        Seq::empty()
    } else {
        outline_points(vertices, edges - 1) + segment_points(
            vertices[edges - 1],
            vertices[edges % (vertices.len() as int)],
        )
    }
}

proof fn lemma_floor_sqrt_unique(a: int, b: int, d: int)
    requires
        is_floor_sqrt(a, d),
        is_floor_sqrt(b, d),
    ensures
        a == b,
{
    if a < b {
        assert((a + 1) * (a + 1) <= b * b) by (nonlinear_arith)
            requires 0 <= a + 1 <= b;
    } else if b < a {
        assert((b + 1) * (b + 1) <= a * a) by (nonlinear_arith)
            requires 0 <= b + 1 <= a;
    }
}

/// The whole part of the square root of `d`.
fn floor_sqrt(d: u64) -> (n: u64)
    requires
        d <= i32::MAX,
    ensures
        is_floor_sqrt(n as int, d as int),
        n <= 46340,
{
    let mut lo: u64 = 0;
    let mut hi: u64 = 46341;
    assert(46341 * 46341 > i32::MAX);
    while hi - lo > 1
        invariant
            lo < hi <= 46341,
            (lo as int) * (lo as int) <= d,
            d < (hi as int) * (hi as int),
        decreases hi - lo,
    {
        let mid: u64 = lo + (hi - lo) / 2;
        assert((mid as int) * (mid as int) <= 46341 * 46341) by (nonlinear_arith)
            requires 0 <= mid <= 46341;
        if mid * mid <= d {
            lo = mid;
        } else {
            hi = mid;
        }
    }
    lo
}

/// `|round_div(step * delta, steps)|` is at most `|delta|`, with the sign of `delta`.
proof fn lemma_round_div_between(step: int, delta: int, steps: int)
    requires
        0 <= step <= steps,
        steps > 0,
    ensures
        delta >= 0 ==> 0 <= round_div(step * delta, steps) <= delta,
        delta < 0 ==> delta <= round_div(step * delta, steps) <= 0,
{
    let q = 2 * steps;
    if delta >= 0 {
        let p = step * delta;
        assert(0 <= p <= steps * delta) by (nonlinear_arith)
            requires 0 <= step <= steps, delta >= 0, p == step * delta;
        lemma_div_pos_is_pos(2 * p + steps, q);
        lemma_fundamental_div_mod(2 * p + steps, q);
        let c = (2 * p + steps) / q;
        let r = (2 * p + steps) % q;
        assert(c <= delta) by (nonlinear_arith)
            requires 2 * p + steps == q * c + r, 0 <= r, p <= steps * delta, q == 2 * steps,
                steps > 0;
    } else {
        let m = step * -delta;
        assert(0 <= m <= steps * -delta) by (nonlinear_arith)
            requires 0 <= step <= steps, delta < 0, m == step * -delta;
        assert(step * delta == -m) by (nonlinear_arith)
            requires m == step * -delta;
        lemma_div_pos_is_pos(2 * m + steps, q);
        lemma_fundamental_div_mod(2 * m + steps, q);
        let c = (2 * m + steps) / q;
        let r = (2 * m + steps) % q;
        assert(c <= -delta) by (nonlinear_arith)
            requires 2 * m + steps == q * c + r, 0 <= r, m <= steps * -delta, q == 2 * steps,
                steps > 0;
        if m == 0 {
            assert(c <= 0) by (nonlinear_arith)
                requires m == 0, 2 * m + steps == q * c + r, r >= 0, q == 2 * steps, steps > 0;
            assert(round_div(step * delta, steps) == c);
        } else {
            assert(round_div(step * delta, steps) == -c);
        }
    }
}

/// `start + round_div(step * (end - start), steps)`, which lies between `start` and `end`.
fn stepped(start: i32, end: i32, step: u64, steps: u64) -> (r: i32)
    requires
        step <= steps,
        0 < steps <= 46340,
    ensures
        r == start + round_div(step * (end - start), steps as int),
{
    let delta: i64 = end as i64 - start as i64;
    proof {
        lemma_round_div_between(step as int, delta as int, steps as int);
        assert(-0x1_0000_0000 * 46340 <= step * delta <= 0x1_0000_0000 * 46340) by (nonlinear_arith)
            requires 0 <= step <= 46340, -0x1_0000_0000 <= delta <= 0x1_0000_0000;
    }
    let p: i64 = (step as i64) * delta;
    let q: i64 = 2 * (steps as i64);
    let offset: i64 = if p >= 0 {
        (2 * p + steps as i64) / q
    } else {
        -((2 * -p + steps as i64) / q)
    };
    (start as i64 + offset) as i32
}

/// The points at which a two-pixel line from `start` to `end` stamps a filled circle: it steps
/// along the segment at unit-pixel resolution, `floor(length) + 1` points from `start` to `end`.
pub fn thick_line_points(start: (i32, i32), end: (i32, i32)) -> (r: Vec<(i32, i32)>)
    requires
        short_segment(start, end),
    ensures
        r@ == segment_points(start, end),
{
    let dx: i64 = end.0 as i64 - start.0 as i64;
    let dy: i64 = end.1 as i64 - start.1 as i64;
    assert(dx * dx >= 0 && dy * dy >= 0) by (nonlinear_arith);
    let steps = floor_sqrt((dx * dx + dy * dy) as u64);
    proof {
        let c = segment_steps(start, end);
        let d = squared_length(start, end);
        assert(d == dx * dx + dy * dy);
        assert(is_floor_sqrt(steps as int, d));
        assert(is_floor_sqrt(c, d));
        lemma_floor_sqrt_unique(c, steps as int, d);
    }
    let mut points: Vec<(i32, i32)> = Vec::new();
    let mut k: u64 = 0;
    while k <= steps
        invariant
            steps == segment_steps(start, end),
            steps <= 46340,
            k <= steps + 1,
            points@.len() == k,
            forall|m: int| 0 <= m < k ==> #[trigger] points@[m] == segment_point(start, end, steps as int, m),
        decreases steps + 1 - k,
    {
        if steps == 0 {
            points.push(start);
        } else {
            let x = stepped(start.0, end.0, k, steps);
            let y = stepped(start.1, end.1, k, steps);
            points.push((x, y));
        }
        k = k + 1;
    }
    assert(points@ =~= segment_points(start, end));
    points
}

/// The stamp points of a hexagon's outline, edge after edge: from each of the six vertices to
/// the next, and from the last back to the first.
pub fn hexagon_outline_points(vertices: &Vec<(i32, i32)>) -> (r: Vec<(i32, i32)>)
    requires
        vertices@.len() == 6,
        forall|i: int| 0 <= i < 6 ==> short_segment(#[trigger] vertices@[i], vertices@[(i + 1) % 6]),
    ensures
        r@ == outline_points(vertices@, 6),
{
    let mut points: Vec<(i32, i32)> = Vec::new();
    let mut i: usize = 0;
    while i < 6
        invariant
            vertices@.len() == 6,
            forall|e: int| 0 <= e < 6 ==> short_segment(#[trigger] vertices@[e], vertices@[(e + 1) % 6]),
            i <= 6,
            points@ == outline_points(vertices@, i as int),
        decreases 6 - i,
    {
        let next: usize = (i + 1) % 6;
        assert(short_segment(vertices@[i as int], vertices@[(i + 1) % 6]));
        let mut edge = thick_line_points(vertices[i], vertices[next]);
        points.append(&mut edge);
        i = i + 1;
    }
    points
}

/// Colour of the grid lines: opaque grey.
pub open spec fn line_color() -> (u8, u8, u8, u8) {
    (122, 122, 122, 255)
}

/// Radius of the discs stamped along a grid line: half its two-pixel thickness.
pub const LINE_RADIUS: i32 = 1;

/// Whether pixel `(x, y)` is `center` or one of its four neighbours: the disc of radius one.
pub open spec fn in_plus(center: (i32, i32), x: int, y: int) -> bool {
    (x == center.0 && center.1 - 1 <= y <= center.1 + 1) || (y == center.1 && center.0 - 1 <= x
        <= center.0 + 1)
}

/// Relies on imageproc::drawing::draw_filled_circle_mut, on the image::RgbaImage whose raw
/// buffer is `pixels`: at radius one its loop runs once and draws four line segments, which set
/// the centre and its four neighbours that lie in the image to `color` and leave every other
/// pixel as it was. The centre is within 2^23 pixels of the origin, where the segments' `f32`
/// ends are exact, and the sides are below 2^31, where `side as i32` keeps its value.
#[verifier::external_body]
fn stamp_disc(
    pixels: Vec<u8>,
    width: u32,
    height: u32,
    center: (i32, i32),
    radius: i32,
    color: (u8, u8, u8, u8),
) -> (r: Vec<u8>)
    requires
        pixels@.len() == 4 * (width as int * height as int),
        width < 0x8000_0000,
        height < 0x8000_0000,
        -0x80_0000 <= center.0 <= 0x80_0000,
        -0x80_0000 <= center.1 <= 0x80_0000,
        radius == 1,
    ensures
        r@.len() == pixels@.len(),
        forall|x: int, y: int|
            0 <= x < width && 0 <= y < height ==> #[trigger] pixel_of_bytes(
                r@,
                pixel_index(width as int, x, y),
            ) == if in_plus(center, x, y) {
                pixel_of_color(color)
            } else {
                pixel_of_bytes(pixels@, pixel_index(width as int, x, y))
            },
{
    let mut image = image::RgbaImage::from_raw(width, height, pixels).expect("four bytes per pixel");
    let rgba = image::Rgba([color.0, color.1, color.2, color.3]);
    imageproc::drawing::draw_filled_circle_mut(&mut image, center, radius, rgba);
    image.into_raw()
}

/// Whether some point of `points` stamps a disc of radius one over pixel `(x, y)`.
pub open spec fn covered(points: Seq<(i32, i32)>, x: int, y: int) -> bool {
    exists|k: int| 0 <= k < points.len() && #[trigger] in_plus(points[k], x, y)
}

proof fn lemma_covered_push(points: Seq<(i32, i32)>, p: (i32, i32), x: int, y: int)
    ensures
        covered(points.push(p), x, y) <==> (covered(points, x, y) || in_plus(p, x, y)),
{
    if covered(points, x, y) {
        let k = choose|k: int| 0 <= k < points.len() && #[trigger] in_plus(points[k], x, y);
        assert(points.push(p)[k] == points[k]);
    }
    if in_plus(p, x, y) {
        assert(points.push(p)[points.len() as int] == p);
    }
    if covered(points.push(p), x, y) {
        let k = choose|k: int| 0 <= k < points.push(p).len() && #[trigger] in_plus(points.push(p)[k], x, y);
        if k < points.len() {
            assert(points.push(p)[k] == points[k]);
        }
    }
}

/// The stamp points of the outlines of the first `n` hexagons, one hexagon after another.
pub open spec fn grid_outline(hexagons: Seq<Vec<(i32, i32)>>, n: int) -> Seq<(i32, i32)>
    decreases n,
{
    if n <= 0 {
        Seq::empty()
    } else {
        grid_outline(hexagons, n - 1) + outline_points(hexagons[n - 1]@, 6)
    }
}

/// Every vertex lies within 2^23 pixels of the origin.
pub open spec fn small_vertices(vertices: Seq<(i32, i32)>) -> bool {
    forall|i: int|
        0 <= i < vertices.len() ==> -0x80_0000 <= #[trigger] vertices[i].0 <= 0x80_0000
            && -0x80_0000 <= vertices[i].1 <= 0x80_0000
}

/// A hexagon the renderer can draw: six corners within 2^23 pixels of the origin, each edge
/// short enough that its squared length fits in `i32`.
pub open spec fn drawable_hexagon(vertices: Seq<(i32, i32)>) -> bool {
    &&& vertices.len() == 6
    &&& small_vertices(vertices)
    &&& forall|i: int| 0 <= i < 6 ==> short_segment(#[trigger] vertices[i], vertices[(i + 1) % 6])
}

/// Every stamp point of a segment lies between its ends.
proof fn lemma_segment_points_between(start: (i32, i32), end: (i32, i32), k: int)
    requires
        0 <= k < segment_points(start, end).len(),
    ensures
        ({
            let p = segment_points(start, end)[k];
            &&& (start.0 <= p.0 <= end.0 || end.0 <= p.0 <= start.0)
            &&& (start.1 <= p.1 <= end.1 || end.1 <= p.1 <= start.1)
        }),
{
    let n = segment_steps(start, end);
    if n != 0 {
        let d = squared_length(start, end);
        assert(d >= 0) by (nonlinear_arith)
            requires d == (end.0 - start.0) * (end.0 - start.0) + (end.1 - start.1) * (end.1 - start.1);
        lemma_floor_sqrt_exists(0, d);
        lemma_round_div_between(k, end.0 - start.0, n);
        lemma_round_div_between(k, end.1 - start.1, n);
    }
}

/// Some `n` is the whole square root of `d >= m * m`.
proof fn lemma_floor_sqrt_exists(m: int, d: int)
    requires
        0 <= m,
        m * m <= d,
    ensures
        exists|n: int| is_floor_sqrt(n, d),
    decreases d - m * m,
{
    if d < (m + 1) * (m + 1) {
        assert(is_floor_sqrt(m, d));
    } else {
        assert((m + 1) * (m + 1) > m * m) by (nonlinear_arith)
            requires m >= 0;
        lemma_floor_sqrt_exists(m + 1, d);
    }
}

/// Every stamp point of a drawable hexagon's outline lies within 2^23 pixels of the origin.
proof fn lemma_outline_points_small(vertices: Seq<(i32, i32)>, edges: int)
    requires
        drawable_hexagon(vertices),
        0 <= edges <= 6,
    ensures
        forall|k: int| 0 <= k < outline_points(vertices, edges).len() ==> {
            let p = #[trigger] outline_points(vertices, edges)[k];
            &&& -0x80_0000 <= p.0 <= 0x80_0000
            &&& -0x80_0000 <= p.1 <= 0x80_0000
        },
    decreases edges,
{
    if edges > 0 {
        lemma_outline_points_small(vertices, edges - 1);
        let prefix = outline_points(vertices, edges - 1);
        let a = vertices[edges - 1];
        let b = vertices[edges % 6];
        let seg = segment_points(a, b);
        assert(outline_points(vertices, edges) == prefix + seg);
        assert forall|k: int| 0 <= k < outline_points(vertices, edges).len() implies {
            let p = #[trigger] outline_points(vertices, edges)[k];
            &&& -0x80_0000 <= p.0 <= 0x80_0000
            &&& -0x80_0000 <= p.1 <= 0x80_0000
        } by {
            if k >= prefix.len() {
                lemma_segment_points_between(a, b, k - prefix.len());
                assert(small_vertices(vertices));
                assert(-0x80_0000 <= vertices[edges - 1].0 <= 0x80_0000);
                assert(-0x80_0000 <= vertices[edges % 6].0 <= 0x80_0000);
            } else {
                assert(outline_points(vertices, edges)[k] == prefix[k]);
            }
        }
    }
}

/// Colour of a grid canvas before any line is drawn: opaque black.
pub open spec fn grid_background() -> (u8, u8, u8, u8) {
    (0, 0, 0, 255)
}

/// Draws the outline of each hexagon, two pixels thick in grey, on an opaque `width` by
/// `height` canvas of the grid background: a disc of radius one is stamped at every point of
/// every edge.
pub fn render_hex_outlines(width: u32, height: u32, hexagons: &Vec<Vec<(i32, i32)>>) -> (r: Canvas)
    requires
        width < 0x8000_0000,
        height < 0x8000_0000,
        4 * (width as int * height as int) <= usize::MAX,
        forall|h: int| 0 <= h < hexagons@.len() ==> drawable_hexagon(#[trigger] hexagons@[h]@),
    ensures
        r.wf(),
        r.width == width,
        r.height == height,
        forall|x: int, y: int|
            r.in_bounds(x, y) ==> #[trigger] r.at(x, y) == if covered(
                grid_outline(hexagons@, hexagons@.len() as int),
                x,
                y,
            ) {
                pixel_of_color(line_color())
            } else {
                pixel_of_color(grid_background())
            },
{
    let count: usize = (width as usize) * (height as usize);
    let total: usize = 4 * count;
    let mut bytes: Vec<u8> = Vec::with_capacity(total);
    let mut i: usize = 0;
    while i < count
        invariant
            i <= count,
            count == width as int * height as int,
            total == 4 * count,
            bytes@.len() == 4 * i,
            forall|k: int| 0 <= k < i ==> #[trigger] pixel_of_bytes(bytes@, k) == pixel_of_color(
                grid_background(),
            ),
        decreases count - i,
    {
        let ghost before = bytes@;
        bytes.push(0u8);
        bytes.push(0u8);
        bytes.push(0u8);
        bytes.push(255u8);
        assert forall|k: int| 0 <= k < i + 1 implies #[trigger] pixel_of_bytes(bytes@, k)
            == pixel_of_color(grid_background()) by {
            if k < i {
                assert(pixel_of_bytes(bytes@, k) == pixel_of_bytes(before, k));
            }
        }
        i = i + 1;
    }
    proof {
        assert forall|x: int, y: int| 0 <= x < width && 0 <= y < height implies #[trigger] pixel_of_bytes(
            bytes@,
            pixel_index(width as int, x, y),
        ) == pixel_of_color(grid_background()) by {
            lemma_pixel_index_bounds(width as int, height as int, x, y);
        }
    }
    let color: (u8, u8, u8, u8) = (122, 122, 122, 255);
    let mut h: usize = 0;
    while h < hexagons.len()
        invariant
            h <= hexagons@.len(),
            width < 0x8000_0000,
            height < 0x8000_0000,
            total == 4 * (width as int * height as int),
            color == line_color(),
            forall|g: int| 0 <= g < hexagons@.len() ==> drawable_hexagon(#[trigger] hexagons@[g]@),
            bytes@.len() == total,
            forall|x: int, y: int| 0 <= x < width && 0 <= y < height ==> #[trigger] pixel_of_bytes(
                bytes@,
                pixel_index(width as int, x, y),
            ) == if covered(grid_outline(hexagons@, h as int), x, y) {
                pixel_of_color(line_color())
            } else {
                pixel_of_color(grid_background())
            },
        decreases hexagons@.len() - h,
    {
        assert(drawable_hexagon(hexagons@[h as int]@));
        let points = hexagon_outline_points(&hexagons[h]);
        proof {
            lemma_outline_points_small(hexagons@[h as int]@, 6);
        }
        let ghost done = grid_outline(hexagons@, h as int);
        let mut j: usize = 0;
        while j < points.len()
            invariant
                j <= points@.len(),
                width < 0x8000_0000,
                height < 0x8000_0000,
                points@ == outline_points(hexagons@[h as int]@, 6),
                forall|k: int| 0 <= k < points@.len() ==> {
                    let p = #[trigger] points@[k];
                    &&& -0x80_0000 <= p.0 <= 0x80_0000
                    &&& -0x80_0000 <= p.1 <= 0x80_0000
                },
                total == 4 * (width as int * height as int),
                color == line_color(),
                bytes@.len() == total,
                forall|x: int, y: int| 0 <= x < width && 0 <= y < height ==> #[trigger] pixel_of_bytes(
                    bytes@,
                    pixel_index(width as int, x, y),
                ) == if covered(done + points@.subrange(0, j as int), x, y) {
                    pixel_of_color(line_color())
                } else {
                    pixel_of_color(grid_background())
                },
            decreases points@.len() - j,
        {
            let p = points[j];
            let ghost before = bytes@;
            bytes = stamp_disc(bytes, width, height, p, LINE_RADIUS, color);
            proof {
                let prev = done + points@.subrange(0, j as int);
                assert(done + points@.subrange(0, j + 1) =~= prev.push(p));
                assert forall|x: int, y: int| 0 <= x < width && 0 <= y < height implies #[trigger] pixel_of_bytes(
                    bytes@,
                    pixel_index(width as int, x, y),
                ) == if covered(prev.push(p), x, y) {
                    pixel_of_color(line_color())
                } else {
                    pixel_of_color(grid_background())
                } by {
                    lemma_covered_push(prev, p, x, y);
                    assert(pixel_of_bytes(before, pixel_index(width as int, x, y)) == if covered(prev, x, y) {
                        pixel_of_color(line_color())
                    } else {
                        pixel_of_color(grid_background())
                    });
                }
            }
            j = j + 1;
        }
        proof {
            assert(done + points@.subrange(0, j as int) =~= grid_outline(hexagons@, h + 1));
        }
        h = h + 1;
    }
    match Canvas::from_rgba_bytes(width, height, &bytes) {
        Some(c) => {
            proof {
                assert forall|x: int, y: int| c.in_bounds(x, y) implies #[trigger] c.at(x, y)
                    == pixel_of_bytes(bytes@, pixel_index(width as int, x, y)) by {
                    lemma_pixel_index_bounds(width as int, height as int, x, y);
                }
            }
            c
        },
        None => {
            // the buffer holds four bytes per pixel, so it always makes a canvas
            proof {
                assert(false);
            }
            Canvas::new(width, height)
        },
    }
}

} // verus!
