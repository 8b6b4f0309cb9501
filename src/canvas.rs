use vstd::prelude::*;

verus! {

/// One RGBA pixel with 8 bits per channel.
#[derive(Clone, Copy, PartialEq, Eq, Structural, Debug)]
pub struct Pixel {
    pub r: u8,
    pub g: u8,
    pub b: u8,
    pub a: u8,
}

/// A fully transparent pixel, the value of every pixel of a fresh canvas.
pub open spec fn transparent() -> Pixel {
    Pixel { r: 0, g: 0, b: 0, a: 0 }
}

/// A rectangular RGBA pixel buffer, stored row by row.
pub struct Canvas {
    pub width: u32,
    pub height: u32,
    pub pixels: Vec<Pixel>,
}

/// Position of pixel `(x, y)` in the row-major pixel sequence of a canvas `width` wide.
pub open spec fn pixel_index(width: int, x: int, y: int) -> int {
    y * width + x
}

pub proof fn lemma_pixel_index_bounds(width: int, height: int, x: int, y: int)
    requires
        0 <= x < width,
        0 <= y < height,
    ensures
        0 <= pixel_index(width, x, y) < width * height,
        pixel_index(width, x, y) + 1 <= width * height,
{
    assert(y * width + x < width * height) by (nonlinear_arith)
        requires
            0 <= x < width,
            0 <= y < height,
    ;
    assert(0 <= y * width) by (nonlinear_arith)
        requires
            0 <= y,
            0 <= width,
    ;
}

impl Canvas {
    /// The pixel buffer holds exactly one pixel per position.
    pub open spec fn wf(&self) -> bool {
        self.pixels@.len() == self.width as int * self.height as int
    }

    pub open spec fn in_bounds(&self, x: int, y: int) -> bool {
        0 <= x < self.width && 0 <= y < self.height
    }

    /// The pixel at column `x`, row `y`.
    pub open spec fn at(&self, x: int, y: int) -> Pixel {
        self.pixels@[pixel_index(self.width as int, x, y)]
    }

    /// Whether the pixel at `(x, y)` is not fully transparent.
    pub open spec fn opaque_at(&self, x: int, y: int) -> bool {
        self.at(x, y).a > 0
    }

    /// The pixels are held in memory, so their count `width * height` fits in `usize`.
    pub fn size_fits_in_memory(&self)
        requires
            self.wf(),
        ensures
            self.width as int * self.height as int <= usize::MAX,
    {
        self.pixels.len();
    }

    /// A transparent canvas of the given size.
    pub fn new(width: u32, height: u32) -> (r: Canvas)
        requires
            width as int * height as int <= usize::MAX,
        ensures
            r.wf(),
            r.width == width,
            r.height == height,
            forall|x: int, y: int| r.in_bounds(x, y) ==> #[trigger] r.at(x, y) == transparent(),
    {
        let n: usize = (width as usize) * (height as usize);
        let mut pixels: Vec<Pixel> = Vec::with_capacity(n);
        let mut i: usize = 0;
        while i < n
            invariant
                i <= n,
                pixels@.len() == i,
                forall|k: int| 0 <= k < i ==> #[trigger] pixels@[k] == transparent(),
            decreases n - i,
        {
            pixels.push(Pixel { r: 0, g: 0, b: 0, a: 0 });
            i = i + 1;
        }
        let r = Canvas { width, height, pixels };
        assert forall|x: int, y: int| r.in_bounds(x, y) implies #[trigger] r.at(x, y)
            == transparent() by {
            lemma_pixel_index_bounds(width as int, height as int, x, y);
        }
        r
    }

    /// The pixel at column `x`, row `y`.
    pub fn get_pixel(&self, x: u32, y: u32) -> (p: Pixel)
        requires
            self.wf(),
            x < self.width,
            y < self.height,
        ensures
            p == self.at(x as int, y as int),
    {
        self.pixels[self.index_of(x, y)]
    }

    /// Position of pixel `(x, y)` in `pixels`.
    fn index_of(&self, x: u32, y: u32) -> (i: usize)
        requires
            self.wf(),
            x < self.width,
            y < self.height,
        ensures
            i == pixel_index(self.width as int, x as int, y as int),
            i < self.pixels@.len(),
    {
        self.size_fits_in_memory();
        proof {
            lemma_pixel_index_bounds(self.width as int, self.height as int, x as int, y as int);
            assert((y as int) * (self.width as int) <= (y as int) * (self.width as int) + x);
        }
        (y as usize) * (self.width as usize) + (x as usize)
    }

    /// Overwrites the pixel at column `x`, row `y`; every other pixel is kept.
    pub fn put_pixel(&mut self, x: u32, y: u32, p: Pixel)
        requires
            old(self).wf(),
            x < old(self).width,
            y < old(self).height,
        ensures
            final(self).wf(),
            final(self).width == old(self).width,
            final(self).height == old(self).height,
            final(self).at(x as int, y as int) == p,
            forall|i: int, j: int|
                final(self).in_bounds(i, j) && !(i == x && j == y)
                    ==> #[trigger] final(self).at(i, j) == old(self).at(i, j),
    {
        let idx: usize = self.index_of(x, y);
        self.pixels.set(idx, p);
        proof {
            assert forall|i: int, j: int|
                self.in_bounds(i, j) && !(i == x && j == y)
                    implies #[trigger] self.at(i, j) == old(self).at(i, j) by {
                lemma_pixel_index_bounds(self.width as int, self.height as int, i, j);
                lemma_index_injective(self.width as int, i, j, x as int, y as int);
            }
        }
    }
}

/// The pixel stored at position `k` of a row-major RGBA byte sequence.
pub open spec fn pixel_of_bytes(bytes: Seq<u8>, k: int) -> Pixel {
    Pixel { r: bytes[4 * k], g: bytes[4 * k + 1], b: bytes[4 * k + 2], a: bytes[4 * k + 3] }
}

/// Where a crop starting at `start` along an axis of `extent` pixels begins: inside the image.
pub open spec fn crop_origin(start: u32, extent: u32) -> u32 {
    if start < extent {
        start
    } else {
        extent
    }
}

/// How many pixels a crop of `len` from `start` keeps along an axis of `extent` pixels.
pub open spec fn crop_len(start: u32, len: u32, extent: u32) -> u32 {
    let origin = crop_origin(start, extent);
    if len <= extent - origin {
        len
    } else {
        (extent - origin) as u32
    }
}

impl Canvas {
    /// Reads a canvas from row-major RGBA bytes, four per pixel; `None` when the byte count
    /// does not match the size.
    pub fn from_rgba_bytes(width: u32, height: u32, bytes: &Vec<u8>) -> (r: Option<Canvas>)
        ensures
            r is Some <==> bytes@.len() == 4 * (width as int * height as int),
            r matches Some(c) ==> {
                &&& c.wf()
                &&& c.width == width
                &&& c.height == height
                &&& forall|k: int| 0 <= k < c.pixels@.len() ==> #[trigger] c.pixels@[k]
                    == pixel_of_bytes(bytes@, k)
            },
    {
        let total: usize = bytes.len();
        proof {
            assert(width as int * height as int <= 0xffff_ffff * 0xffff_ffff) by (nonlinear_arith)
                requires width <= 0xffff_ffff, height <= 0xffff_ffff, width >= 0, height >= 0;
            assert(width as int * height as int >= 0) by (nonlinear_arith)
                requires width >= 0, height >= 0;
        }
        let n: u128 = (width as u128) * (height as u128);
        if n * 4 != total as u128 {
            return None;
        }
        let n: usize = n as usize;
        let mut pixels: Vec<Pixel> = Vec::with_capacity(n);
        let mut k: usize = 0;
        while k < n
            invariant
                k <= n,
                4 * n == bytes@.len(),
                total == bytes@.len(),
                pixels@.len() == k,
                forall|m: int| 0 <= m < k ==> #[trigger] pixels@[m] == pixel_of_bytes(bytes@, m),
            decreases n - k,
        {
            let p = Pixel {
                r: bytes[4 * k],
                g: bytes[4 * k + 1],
                b: bytes[4 * k + 2],
                a: bytes[4 * k + 3],
            };
            pixels.push(p);
            k = k + 1;
        }
        Some(Canvas { width, height, pixels })
    }

    /// The pixels as row-major RGBA bytes, four per pixel.
    pub fn to_rgba_bytes(&self) -> (r: Vec<u8>)
        requires
            4 * self.pixels@.len() <= usize::MAX,
        ensures
            r@.len() == 4 * self.pixels@.len(),
            forall|k: int| 0 <= k < self.pixels@.len() ==> pixel_of_bytes(r@, k)
                == #[trigger] self.pixels@[k],
    {
        let n = self.pixels.len();
        let mut bytes: Vec<u8> = Vec::with_capacity(4 * n);
        let mut k: usize = 0;
        while k < n
            invariant
                k <= n,
                n == self.pixels@.len(),
                4 * n <= usize::MAX,
                bytes@.len() == 4 * k,
                forall|m: int| 0 <= m < k ==> pixel_of_bytes(bytes@, m) == #[trigger] self.pixels@[m],
            decreases n - k,
        {
            let p = self.pixels[k];
            let ghost before = bytes@;
            bytes.push(p.r);
            bytes.push(p.g);
            bytes.push(p.b);
            bytes.push(p.a);
            assert forall|m: int| 0 <= m < k + 1 implies pixel_of_bytes(bytes@, m)
                == #[trigger] self.pixels@[m] by {
                if m < k {
                    assert(pixel_of_bytes(bytes@, m) == pixel_of_bytes(before, m));
                }
            }
            k = k + 1;
        }
        bytes
    }

    /// The part of the canvas that starts at `(x, y)` and spans `width` by `height` pixels,
    /// both clamped to the canvas: the origin to its edge, the extent to what is left of it.
    pub fn crop(&self, x: u32, y: u32, width: u32, height: u32) -> (r: Canvas)
        requires
            self.wf(),
        ensures
            r.wf(),
            r.width == crop_len(x, width, self.width),
            r.height == crop_len(y, height, self.height),
            forall|i: int, j: int|
                r.in_bounds(i, j) ==> #[trigger] r.at(i, j) == self.at(
                    crop_origin(x, self.width) + i,
                    crop_origin(y, self.height) + j,
                ),
    {
        let cx: u32 = if x < self.width { x } else { self.width };
        let cy: u32 = if y < self.height { y } else { self.height };
        let cw: u32 = if width <= self.width - cx { width } else { self.width - cx };
        let ch: u32 = if height <= self.height - cy { height } else { self.height - cy };
        self.size_fits_in_memory();
        proof {
            assert(cw as int * ch as int <= self.width as int * self.height as int)
                by (nonlinear_arith)
                requires cw <= self.width, ch <= self.height, cw >= 0, ch >= 0;
        }
        let mut out = Canvas::new(cw, ch);
        let mut j: u32 = 0;
        while j < ch
            invariant
                self.wf(),
                out.wf(),
                out.width == cw,
                out.height == ch,
                cx + cw <= self.width,
                cy + ch <= self.height,
                j <= ch,
                forall|i2: int, j2: int|
                    out.in_bounds(i2, j2) && j2 < j ==> #[trigger] out.at(i2, j2) == self.at(
                        cx + i2,
                        cy + j2,
                    ),
            decreases ch - j,
        {
            let mut i: u32 = 0;
            while i < cw
                invariant
                    self.wf(),
                    out.wf(),
                    out.width == cw,
                    out.height == ch,
                    cx + cw <= self.width,
                    cy + ch <= self.height,
                    j < ch,
                    i <= cw,
                    forall|i2: int, j2: int|
                        out.in_bounds(i2, j2) && (j2 < j || (j2 == j && i2 < i))
                            ==> #[trigger] out.at(i2, j2) == self.at(cx + i2, cy + j2),
                decreases cw - i,
            {
                let p = self.get_pixel(cx + i, cy + j);
                out.put_pixel(i, j, p);
                i = i + 1;
            }
            j = j + 1;
        }
        out
    }
}

pub proof fn lemma_index_injective(width: int, x1: int, y1: int, x2: int, y2: int)
    requires
        0 <= x1 < width,
        0 <= x2 < width,
        0 <= y1,
        0 <= y2,
        !(x1 == x2 && y1 == y2),
    ensures
        pixel_index(width, x1, y1) != pixel_index(width, x2, y2),
{
    if y1 == y2 {
    } else if y1 < y2 {
        assert(y1 * width + width <= y2 * width) by (nonlinear_arith)
            requires
                y1 < y2,
                0 <= width,
        ;
    } else {
        assert(y2 * width + width <= y1 * width) by (nonlinear_arith)
            requires
                y2 < y1,
                0 <= width,
        ;
    }
}

} // verus!
