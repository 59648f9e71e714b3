//! A fixed-size RGBA8 pixel buffer.
//!
//! The image is a `width x height` grid stored row by row. Every render owns
//! its canvas exclusively; the blank template is copied with `clone`, never
//! shared.

use vstd::prelude::*;

verus! {

/// One RGBA8 pixel: red, green, blue, alpha.
#[derive(Clone, Copy, Debug, PartialEq, Eq, Structural)]
pub struct Rgba {
    pub r: u8,
    pub g: u8,
    pub b: u8,
    pub a: u8,
}

impl Rgba {
    /// A pixel from its four channels.
    pub fn new(r: u8, g: u8, b: u8, a: u8) -> (p: Rgba)
        ensures
            p == (Rgba { r, g, b, a }),
    {
        Rgba { r, g, b, a }
    }

    /// The same colour with another alpha.
    pub open spec fn with_alpha(self, a: u8) -> Rgba {
        Rgba { r: self.r, g: self.g, b: self.b, a }
    }
}

/// The mathematical image: its size and its pixels, row by row.
pub struct RasterView {
    pub width: nat,
    pub height: nat,
    pub pixels: Seq<Rgba>,
}

impl RasterView {
    /// Whether `(x, y)` names a pixel of the image.
    pub open spec fn contains(self, x: int, y: int) -> bool {
        0 <= x < self.width && 0 <= y < self.height
    }

    /// The pixel at column `x` of row `y`.
    pub open spec fn at(self, x: int, y: int) -> Rgba
        recommends
            self.contains(x, y),
    {
        self.pixels[y * self.width + x]
    }
}

/// A `width x height` grid of RGBA8 pixels.
pub struct RasterImage {
    width: u32,
    height: u32,
    pixels: Vec<Rgba>,
}

/// The position of pixel `(x, y)` in a row-major grid stays inside the grid.
pub proof fn lemma_index_in_grid(width: nat, height: nat, x: nat, y: nat)
    requires
        x < width,
        y < height,
    ensures
        0 <= y * width + x < width * height,
{
    assert(y * width + x < width * height) by (nonlinear_arith)
        requires
            x < width,
            y < height,
    {
        assert((y + 1) * width <= height * width);
    }
}

/// Two pixels of a row-major grid share a position only if they are the same
/// pixel.
pub proof fn lemma_index_distinct(width: nat, x1: nat, y1: nat, x2: nat, y2: nat)
    requires
        x1 < width,
        x2 < width,
        y1 * width + x1 == y2 * width + x2,
    ensures
        x1 == x2,
        y1 == y2,
{
    if y1 < y2 {
        assert(y1 * width + x1 < y2 * width + x2) by (nonlinear_arith)
            requires
                y1 < y2,
                x1 < width,
        {
            assert((y1 + 1) * width <= y2 * width);
        }
    } else if y2 < y1 {
        assert(y2 * width + x2 < y1 * width + x1) by (nonlinear_arith)
            requires
                y2 < y1,
                x2 < width,
        {
            assert((y2 + 1) * width <= y1 * width);
        }
    }
}

impl View for RasterImage {
    type V = RasterView;

    closed spec fn view(&self) -> RasterView {
        RasterView {
            width: self.width as nat,
            height: self.height as nat,
            pixels: self.pixels@,
        }
    }
}

impl RasterImage {
    /// The invariant of the buffer: it holds exactly one pixel per grid cell.
    pub closed spec fn wf(&self) -> bool {
        self.pixels@.len() == self.width as nat * self.height as nat
    }

    /// An image of the given size with every pixel equal to `pixel`.
    pub fn from_pixel(width: u32, height: u32, pixel: Rgba) -> (img: RasterImage)
        requires
            width as nat * height as nat <= usize::MAX,
        ensures
            img.wf(),
            img@.width == width,
            img@.height == height,
            forall|k: int| 0 <= k < img@.pixels.len() ==> img@.pixels[k] == pixel,
            forall|x: int, y: int| img@.contains(x, y) ==> #[trigger] img@.at(x, y) == pixel,
    {
        let total: usize = grid_len(width, height);
        let pixels: Vec<Rgba> = vec![pixel; total];
        let img = RasterImage { width, height, pixels };
        proof {
            assert forall|x: int, y: int| img@.contains(x, y) implies #[trigger] img@.at(x, y)
                == pixel by {
                lemma_index_in_grid(width as nat, height as nat, x as nat, y as nat);
            }
        }
        img
    }

    /// An image over pixels that are already laid out row by row; `None`
    /// when their number is not `width * height`.
    pub fn from_pixels(width: u32, height: u32, pixels: Vec<Rgba>) -> (img: Option<RasterImage>)
        ensures
            img is Some <==> pixels@.len() == width as nat * height as nat,
            img matches Some(i) ==> i.wf() && i@.width == width && i@.height == height
                && i@.pixels == pixels@,
    {
        proof {
            assert(width as nat * height as nat <= 0xffff_ffff * 0xffff_ffff) by (nonlinear_arith)
                requires
                    width <= 0xffff_ffff,
                    height <= 0xffff_ffff,
            ;
        }
        let fits = (width as u128) * (height as u128) == pixels.len() as u128;
        if fits {
            Some(RasterImage { width, height, pixels })
        } else {
            None
        }
    }

    /// Gives the pixels back, row by row.
    pub fn into_pixels(self) -> (pixels: Vec<Rgba>)
        ensures
            pixels@ == self@.pixels,
    {
        self.pixels
    }

    /// Number of pixels held.
    pub fn pixel_count(&self) -> (n: usize)
        ensures
            n == self@.pixels.len(),
            self.wf() ==> n == self@.width * self@.height,
    {
        self.pixels.len()
    }

    /// Number of pixel columns.
    pub fn width(&self) -> (w: u32)
        ensures
            w == self@.width,
    {
        self.width
    }

    /// Number of pixel rows.
    pub fn height(&self) -> (h: u32)
        ensures
            h == self@.height,
    {
        self.height
    }

    /// Width and height, in that order.
    pub fn dimensions(&self) -> (d: (u32, u32))
        ensures
            d.0 == self@.width,
            d.1 == self@.height,
    {
        (self.width, self.height)
    }

    /// The pixel at column `x` of row `y`.
    pub fn get_pixel(&self, x: u32, y: u32) -> (p: Rgba)
        requires
            self.wf(),
            self@.contains(x as int, y as int),
        ensures
            p == self@.at(x as int, y as int),
    {
        let k = self.index_of(x, y);
        self.pixels[k]
    }

    /// The pixel at column `x` of row `y`, or `None` outside the image.
    pub fn pixel_at(&self, x: u32, y: u32) -> (p: Option<Rgba>)
        requires
            self.wf(),
        ensures
            p == if self@.contains(x as int, y as int) {
                Some(self@.at(x as int, y as int))
            } else {
                None::<Rgba>
            },
    {
        if x < self.width && y < self.height {
            Some(self.get_pixel(x, y))
        } else {
            None
        }
    }

    /// Replaces the pixel at column `x` of row `y`; every other pixel stays.
    pub fn put_pixel(&mut self, x: u32, y: u32, pixel: Rgba)
        requires
            old(self).wf(),
            old(self)@.contains(x as int, y as int),
        ensures
            final(self).wf(),
            final(self)@.width == old(self)@.width,
            final(self)@.height == old(self)@.height,
            final(self)@.at(x as int, y as int) == pixel,
            forall|x2: int, y2: int|
                old(self)@.contains(x2, y2) && (x2 != x || y2 != y) ==> #[trigger] final(self)@.at(
                    x2,
                    y2,
                ) == old(self)@.at(x2, y2),
    {
        let k = self.index_of(x, y);
        self.pixels.set(k, pixel);
        proof {
            let w = self.width as nat;
            assert forall|x2: int, y2: int|
                old(self)@.contains(x2, y2) && (x2 != x || y2 != y) implies #[trigger] self@.at(
                x2,
                y2,
            ) == old(self)@.at(x2, y2) by {
                lemma_index_in_grid(w, self.height as nat, x2 as nat, y2 as nat);
                if y2 * w + x2 == y * w + x {
                    lemma_index_distinct(w, x2 as nat, y2 as nat, x as nat, y as nat);
                }
            }
        }
    }

    /// Replaces the alpha of the pixel at column `x` of row `y`; its colour
    /// and every other pixel stay.
    pub fn set_alpha(&mut self, x: u32, y: u32, alpha: u8)
        requires
            old(self).wf(),
            old(self)@.contains(x as int, y as int),
        ensures
            final(self).wf(),
            final(self)@.width == old(self)@.width,
            final(self)@.height == old(self)@.height,
            final(self)@.at(x as int, y as int) == old(self)@.at(x as int, y as int).with_alpha(
                alpha,
            ),
            forall|x2: int, y2: int|
                old(self)@.contains(x2, y2) && (x2 != x || y2 != y) ==> #[trigger] final(self)@.at(
                    x2,
                    y2,
                ) == old(self)@.at(x2, y2),
    {
        let p = self.get_pixel(x, y);
        self.put_pixel(x, y, Rgba { r: p.r, g: p.g, b: p.b, a: alpha });
    }

    /// The bytes of the image, four per pixel (red, green, blue, alpha), row
    /// by row.
    pub fn to_bytes(&self) -> (bytes: Vec<u8>)
        requires
            self@.pixels.len() * 4 <= usize::MAX,
        ensures
            bytes@ == pixel_bytes(self@.pixels),
    {
        let mut bytes: Vec<u8> = Vec::new();
        let n = self.pixels.len();
        let mut k: usize = 0;
        while k < n
            invariant
                n == self.pixels@.len(),
                k <= n,
                bytes@ == pixel_bytes(self.pixels@.take(k as int)),
            decreases n - k,
        {
            let p = self.pixels[k];
            bytes.push(p.r);
            bytes.push(p.g);
            bytes.push(p.b);
            bytes.push(p.a);
            proof {
                let next = self.pixels@.take(k + 1);
                assert(next.drop_last() == self.pixels@.take(k as int));
                assert(next.last() == p);
            }
            k = k + 1;
        }
        proof {
            assert(self.pixels@.take(n as int) == self.pixels@);
        }
        bytes
    }

    fn index_of(&self, x: u32, y: u32) -> (k: usize)
        requires
            self.wf(),
            self@.contains(x as int, y as int),
        ensures
            k == y as nat * self@.width + x as nat,
            k < self.pixels@.len(),
    {
        let n = self.pixels.len();
        proof {
            lemma_index_in_grid(self.width as nat, self.height as nat, x as nat, y as nat);
            assert((y as nat) * (self.width as nat) + (x as nat) < (n as nat));
        }
        (y as usize) * (self.width as usize) + (x as usize)
    }
}

impl Clone for RasterImage {
    /// A deep copy: the same size and the same pixels.
    fn clone(&self) -> (copy: RasterImage)
        ensures
            copy@ == self@,
            copy.wf() == self.wf(),
    {
        let pixels = self.pixels.clone();
        proof {
            assert(pixels@ =~= self.pixels@);
        }
        RasterImage { width: self.width, height: self.height, pixels }
    }
}

/// The bytes of a run of pixels: red, green, blue, alpha of each in turn.
pub open spec fn pixel_bytes(pixels: Seq<Rgba>) -> Seq<u8>
    decreases pixels.len(),
{
    if pixels.len() == 0 {
        Seq::<u8>::empty()
    } else {
        let p = pixels.last();
        pixel_bytes(pixels.drop_last()).push(p.r).push(p.g).push(p.b).push(p.a)
    }
}

/// A run of pixels takes four bytes per pixel.
pub proof fn lemma_pixel_bytes_len(pixels: Seq<Rgba>)
    ensures
        pixel_bytes(pixels).len() == 4 * pixels.len(),
    decreases pixels.len(),
{
    if pixels.len() > 0 {
        lemma_pixel_bytes_len(pixels.drop_last());
    }
}

/// `width * height` as a `usize`.
fn grid_len(width: u32, height: u32) -> (n: usize)
    requires
        width as nat * height as nat <= usize::MAX,
    ensures
        n == width as nat * height as nat,
{
    (width as usize) * (height as usize)
}

} // verus!
