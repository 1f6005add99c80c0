//! RGBA8 images: the pixel, the mathematical raster that contracts speak of,
//! and the owned buffer that the segmenter mutates in place.

use vstd::prelude::*;

verus! {

/// One RGBA8 pixel.
#[derive(Copy, Clone, Debug, PartialEq, Eq, Structural)]
pub struct Pixel {
    pub r: u8,
    pub g: u8,
    pub b: u8,
    pub a: u8,
}

/// The value that a cleared pixel holds: black, fully transparent.
pub open spec fn cleared() -> Pixel {
    Pixel { r: 0, g: 0, b: 0, a: 0 }
}

impl Pixel {
    /// The value of a cleared pixel.
    pub fn transparent() -> (p: Pixel)
        ensures
            p == cleared(),
    {
        Pixel { r: 0, g: 0, b: 0, a: 0 }
    }
}

/// An image as contracts see it: its size and its pixels, row by row from
/// the top, each row from the left.
pub struct Raster {
    pub width: nat,
    pub height: nat,
    pub pixels: Seq<Pixel>,
}

impl Raster {
    /// There is exactly one pixel for each position.
    pub open spec fn wf(self) -> bool {
        self.pixels.len() == self.width * self.height
    }

    /// Whether `(x, y)` is a position of the image.
    pub open spec fn contains(self, x: int, y: int) -> bool {
        0 <= x < self.width && 0 <= y < self.height
    }

    /// Where the pixel at `(x, y)` stands in `pixels`.
    pub open spec fn offset(self, x: int, y: int) -> int {
        y * self.width + x
    }

    /// The pixel at `(x, y)`.
    pub open spec fn at(self, x: int, y: int) -> Pixel {
        self.pixels[self.offset(x, y)]
    }

    /// The image of the given size whose pixel at `(x, y)` is `f(x, y)`.
    pub open spec fn build(width: nat, height: nat, f: spec_fn(int, int) -> Pixel) -> Raster {
        Raster {
            width,
            height,
            pixels: Seq::new(
                width * height,
                |i: int| f(i % (width as int), i / (width as int)),
            ),
        }
    }

    /// The same image with the pixel at `(x, y)` replaced by `p`.
    pub open spec fn with_pixel(self, x: int, y: int, p: Pixel) -> Raster {
        Raster { pixels: self.pixels.update(self.offset(x, y), p), ..self }
    }

    /// Whether `self` has the size of `other` and each of its pixels is either
    /// the pixel of `other` at that position or cleared.
    pub open spec fn only_clears(self, other: Raster) -> bool {
        &&& self.width == other.width
        &&& self.height == other.height
        &&& self.pixels.len() == other.pixels.len()
        &&& forall|i: int|
            0 <= i < self.pixels.len() ==> #[trigger] self.pixels[i] == other.pixels[i]
                || self.pixels[i] == cleared()
    }
}

/// A position inside a `width` by `height` grid has an offset inside the buffer.
pub proof fn lemma_offset_in_range(width: nat, height: nat, x: int, y: int)
    requires
        0 <= x < width,
        0 <= y < height,
    ensures
        0 <= y * width + x < width * height,
{
    assert(0 <= y * width && y * width + width <= height * width) by (nonlinear_arith)
        requires
            0 <= y < height,
            0 <= width,
    ;
    assert(height * width == width * height) by (nonlinear_arith);
}

/// Distinct positions of one row width have distinct offsets.
pub proof fn lemma_offset_injective(width: nat, x1: int, y1: int, x2: int, y2: int)
    requires
        0 <= x1 < width,
        0 <= x2 < width,
        y1 * width + x1 == y2 * width + x2,
    ensures
        x1 == x2,
        y1 == y2,
{
    if y1 < y2 {
        assert(y1 * width + width <= y2 * width) by (nonlinear_arith)
            requires
                y1 < y2,
                0 <= width,
        ;
    } else if y2 < y1 {
        assert(y2 * width + width <= y1 * width) by (nonlinear_arith)
            requires
                y2 < y1,
                0 <= width,
        ;
    }
}

/// Every offset inside the buffer is the offset of exactly the position
/// `(i % width, i / width)`.
pub proof fn lemma_offset_split(width: nat, height: nat, i: int)
    requires
        0 <= i < width * height,
    ensures
        width > 0,
        0 <= i % (width as int) < width,
        0 <= i / (width as int) < height,
        (i / (width as int)) * width + i % (width as int) == i,
{
    if width == 0 {
        assert(width * height == 0) by (nonlinear_arith)
            requires
                width == 0,
        ;
    }
    let w = width as int;
    vstd::arithmetic::div_mod::lemma_fundamental_div_mod(i, w);
    vstd::arithmetic::div_mod::lemma_mod_bound(i, w);
    let q = i / w;
    assert(w * q == q * w) by (nonlinear_arith);
    assert(0 <= q) by (nonlinear_arith)
        requires
            0 <= i,
            w > 0,
            q == i / w,
    ;
    if q >= height {
        assert(q * w >= height * w) by (nonlinear_arith)
            requires
                q >= height,
                w > 0,
        ;
        assert(height * w == width * height) by (nonlinear_arith)
            requires
                w == width,
        ;
    }
}

/// The position that `lemma_offset_split` names is the only one with that offset.
pub proof fn lemma_offset_unsplit(width: nat, x: int, y: int)
    requires
        0 <= x < width,
        0 <= y,
    ensures
        (y * width + x) % (width as int) == x,
        (y * width + x) / (width as int) == y,
{
    let w = width as int;
    let i = y * w + x;
    assert(0 <= y * w) by (nonlinear_arith)
        requires
            0 <= y,
            0 < w,
    ;
    vstd::arithmetic::div_mod::lemma_fundamental_div_mod(i, w);
    vstd::arithmetic::div_mod::lemma_mod_bound(i, w);
    let q = i / w;
    let r = i % w;
    assert(w * q == q * w) by (nonlinear_arith);
    lemma_offset_injective(width, r, q, x, y);
}

impl Raster {
    /// `build` puts `f(x, y)` at `(x, y)`.
    pub proof fn lemma_build_at(width: nat, height: nat, f: spec_fn(int, int) -> Pixel, x: int, y: int)
        requires
            0 <= x < width,
            0 <= y < height,
        ensures
            Raster::build(width, height, f).at(x, y) == f(x, y),
            Raster::build(width, height, f).wf(),
    {
        lemma_offset_in_range(width, height, x, y);
        lemma_offset_unsplit(width, x, y);
    }

    /// `build` gives an image of the size that it was asked for.
    pub proof fn lemma_build_wf(width: nat, height: nat, f: spec_fn(int, int) -> Pixel)
        ensures
            Raster::build(width, height, f).wf(),
            Raster::build(width, height, f).width == width,
            Raster::build(width, height, f).height == height,
    {
    }

    /// Two images of one size that agree at every position are equal.
    pub proof fn lemma_equal_by_positions(self, other: Raster)
        requires
            self.wf(),
            other.wf(),
            self.width == other.width,
            self.height == other.height,
            forall|x: int, y: int| self.contains(x, y) ==> self.at(x, y) == other.at(x, y),
        ensures
            self == other,
    {
        assert forall|i: int| 0 <= i < self.pixels.len() implies self.pixels[i]
            == other.pixels[i] by {
            lemma_offset_split(self.width, self.height, i);
            let x = i % (self.width as int);
            let y = i / (self.width as int);
            assert(self.contains(x, y));
            assert(self.at(x, y) == other.at(x, y));
        }
        assert(self.pixels =~= other.pixels);
    }

    /// Replacing one pixel changes that position and no other.
    pub proof fn lemma_with_pixel_at(self, x: int, y: int, p: Pixel, x2: int, y2: int)
        requires
            self.wf(),
            self.contains(x, y),
            self.contains(x2, y2),
        ensures
            self.with_pixel(x, y, p).wf(),
            self.with_pixel(x, y, p).at(x2, y2) == if x2 == x && y2 == y {
                p
            } else {
                self.at(x2, y2)
            },
    {
        lemma_offset_in_range(self.width, self.height, x, y);
        lemma_offset_in_range(self.width, self.height, x2, y2);
        if self.offset(x, y) == self.offset(x2, y2) {
            lemma_offset_injective(self.width, x, y, x2, y2);
        }
    }
}

/// An owned RGBA8 image: `width * height` pixels, four bytes each, row by row.
pub struct Image {
    width: u32,
    height: u32,
    data: Vec<u8>,
}

impl View for Image {
    type V = Raster;

    closed spec fn view(&self) -> Raster {
        Raster {
            width: self.width as nat,
            height: self.height as nat,
            pixels: Seq::new(
                (self.width * self.height) as nat,
                |i: int|
                    Pixel {
                        r: self.data@[4 * i],
                        g: self.data@[4 * i + 1],
                        b: self.data@[4 * i + 2],
                        a: self.data@[4 * i + 3],
                    },
            ),
        }
    }
}

/// The raw bytes of an image: the four channels of each pixel in turn.
pub open spec fn raw_bytes(r: Raster) -> Seq<u8> {
    Seq::new(
        4 * r.pixels.len(),
        |k: int|
            {
                let p = r.pixels[k / 4];
                if k % 4 == 0 {
                    p.r
                } else if k % 4 == 1 {
                    p.g
                } else if k % 4 == 2 {
                    p.b
                } else {
                    p.a
                }
            },
    )
}

/// The image of the given size whose raw bytes begin `data`.
pub open spec fn raster_of_raw(width: u32, height: u32, data: Seq<u8>) -> Raster {
    Raster {
        width: width as nat,
        height: height as nat,
        pixels: Seq::new(
            (width * height) as nat,
            |i: int|
                Pixel { r: data[4 * i], g: data[4 * i + 1], b: data[4 * i + 2], a: data[4 * i + 3] },
        ),
    }
}

impl Image {
    #[verifier::type_invariant]
    spec fn well_formed(self) -> bool {
        self.data@.len() == 4 * (self.width * self.height)
    }

    /// Takes `width * height` RGBA8 pixels from the front of `data`.
    /// Returns `None` where `data` is too short for that.
    pub fn from_raw(width: u32, height: u32, data: Vec<u8>) -> (image: Option<Image>)
        ensures
            image is Some <==> data@.len() >= 4 * (width * height),
            image matches Some(img) ==> img@ == raster_of_raw(width, height, data@) && img@.wf(),
    {
        let pixels: u64 = mul_u32(width, height);
        if (data.len() / 4) as u64 >= pixels {
            let mut data = data;
            let ghost before = data@;
            data.truncate((4 * pixels) as usize);
            let image = Image { width, height, data };
            assert(image@.pixels =~= raster_of_raw(width, height, before).pixels);
            Some(image)
        } else {
            None
        }
    }

    /// The number of pixels in a row.
    pub fn width(&self) -> (w: u32)
        ensures
            w == self@.width,
            self@.wf(),
    {
        proof {
            use_type_invariant(self);
        }
        self.width
    }

    /// The number of rows.
    pub fn height(&self) -> (h: u32)
        ensures
            h == self@.height,
            self@.wf(),
    {
        proof {
            use_type_invariant(self);
        }
        self.height
    }

    /// The raw bytes: the four channels of each pixel in turn.
    pub fn as_raw(&self) -> (raw: &Vec<u8>)
        ensures
            raw@ == raw_bytes(self@),
            raw@.len() == 4 * (self@.width * self@.height),
            self@.wf(),
    {
        proof {
            use_type_invariant(self);
            assert(self.data@ =~= raw_bytes(self@));
        }
        &self.data
    }

    /// Gives up the image for its raw bytes.
    pub fn into_raw(self) -> (raw: Vec<u8>)
        ensures
            raw@ == raw_bytes(self@),
            raw@.len() == 4 * (self@.width * self@.height),
    {
        proof {
            use_type_invariant(&self);
            assert(self.data@ =~= raw_bytes(self@));
        }
        self.data
    }

    fn byte_offset(&self, x: u32, y: u32) -> (k: usize)
        requires
            x < self@.width,
            y < self@.height,
        ensures
            k == 4 * self@.offset(x as int, y as int),
            0 <= self@.offset(x as int, y as int) < self@.pixels.len(),
            self@.pixels.len() == self.width * self.height,
            k + 3 < self.data@.len(),
            self.data@.len() == 4 * self@.pixels.len(),
    {
        proof {
            use_type_invariant(self);
            let w = self.width as int;
            let h = self.height as int;
            assert(self.data@.len() == self.data.len());
            assert(0 <= y * w && y * w + x < w * h) by (nonlinear_arith)
                requires
                    0 <= x < w,
                    0 <= y < h,
            ;
        }
        4 * (y as usize * self.width as usize + x as usize)
    }

    /// The pixel at `(x, y)`.
    pub fn get_pixel(&self, x: u32, y: u32) -> (p: Pixel)
        requires
            self@.contains(x as int, y as int),
        ensures
            p == self@.at(x as int, y as int),
    {
        let k = self.byte_offset(x, y);
        Pixel { r: self.data[k], g: self.data[k + 1], b: self.data[k + 2], a: self.data[k + 3] }
    }

    /// Replaces the pixel at `(x, y)` by `p`.
    pub fn put_pixel(&mut self, x: u32, y: u32, p: Pixel)
        requires
            old(self)@.contains(x as int, y as int),
        ensures
            final(self)@ == old(self)@.with_pixel(x as int, y as int, p),
    {
        let k = self.byte_offset(x, y);
        self.data[k] = p.r;
        self.data[k + 1] = p.g;
        self.data[k + 2] = p.b;
        self.data[k + 3] = p.a;
        proof {
            assert(self@.pixels =~= old(self)@.with_pixel(x as int, y as int, p).pixels);
        }
    }
}

/// The product of two `u32` values, which always fits in a `u64`.
pub fn mul_u32(a: u32, b: u32) -> (p: u64)
    ensures
        p == a * b,
        a * b <= 0xFFFF_FFFE_0000_0001,
{
    assert(a * b <= 0xFFFF_FFFE_0000_0001) by (nonlinear_arith)
        requires
            a <= 0xFFFF_FFFF,
            b <= 0xFFFF_FFFF,
    ;
    a as u64 * b as u64
}

} // verus!
