//! Eight-bit single-channel rasters.

use vstd::prelude::*;
use crate::rect::Rect;

verus! {

/// A grayscale raster: `width * height` samples, stored row by row.
#[derive(Debug, Clone)]
pub struct GrayImage {
    /// Number of columns.
    pub width: u32,
    /// Number of rows.
    pub height: u32,
    /// The samples, row by row, each row from left to right.
    pub data: Vec<u8>,
}

/// A raster as a mathematical value.
pub struct Raster {
    /// Number of columns.
    pub width: u32,
    /// Number of rows.
    pub height: u32,
    /// The samples, row by row.
    pub data: Seq<u8>,
}

impl Raster {
    /// The raster holds exactly `width * height` samples and is within the
    /// size limit.
    pub open spec fn wf(self) -> bool {
        &&& self.data.len() == self.width * self.height
        &&& size_supported(self.width as int, self.height as int)
    }

    /// The sample at column `x` of row `y`.
    pub open spec fn pixel(self, x: int, y: int) -> u8 {
        self.data[sample_index(self.width as int, x, y)]
    }

    /// Tells whether `rect` lies inside the raster.
    pub open spec fn holds(self, rect: Rect) -> bool {
        rect.fits(self.width as int, self.height as int)
    }
}

impl View for GrayImage {
    type V = Raster;

    open spec fn view(&self) -> Raster {
        Raster { width: self.width, height: self.height, data: self.data@ }
    }
}

/// Tells whether a raster of the given size is within the size limit of this
/// crate: its summed-area table, which has one more row and one more column
/// than the raster, can be indexed with 32 bits.
pub open spec fn size_supported(width: int, height: int) -> bool {
    (width + 1) * (height + 1) <= u32::MAX
}

/// Position of the sample at column `x` of row `y` in row-major data.
pub open spec fn sample_index(width: int, x: int, y: int) -> int {
    y * width + x
}

/// A product of two bounded factors is bounded by the product of the bounds.
pub proof fn lemma_index_in_range(width: int, height: int, x: int, y: int)
    requires
        0 <= x < width,
        0 <= y < height,
    ensures
        0 <= sample_index(width, x, y) < width * height,
        y * width <= (height - 1) * width,
{
    assert(y * width <= (height - 1) * width) by (nonlinear_arith)
        requires
            0 <= y <= height - 1,
            0 <= width,
    ;
    assert((height - 1) * width == width * height - width) by (nonlinear_arith);
    assert(0 <= y * width) by (nonlinear_arith)
        requires
            0 <= y,
            0 <= width,
    ;
}

/// The raster size limit bounds both sides and the number of samples.
pub proof fn lemma_size_supported(width: int, height: int)
    requires
        0 <= width,
        0 <= height,
        size_supported(width, height),
    ensures
        width < u32::MAX,
        height < u32::MAX,
        width * height < u32::MAX,
{
    assert((width + 1) * (height + 1) == width * height + width + height + 1)
        by (nonlinear_arith);
    assert(0 <= width * height) by (nonlinear_arith)
        requires
            0 <= width,
            0 <= height,
    ;
}

/// Executable form of [`size_supported`].
pub fn size_is_supported(width: u32, height: u32) -> (r: bool)
    ensures
        r == size_supported(width as int, height as int),
{
    if width == u32::MAX || height == u32::MAX {
        assert((width + 1) * (height + 1) >= 0x1_0000_0000) by (nonlinear_arith)
            requires
                width == 0xffff_ffff || height == 0xffff_ffff,
                0 <= width,
                0 <= height,
        ;
        return false;
    }
    assert((width + 1) * (height + 1) <= 0xffff_ffff * 0xffff_ffff) by (nonlinear_arith)
        requires
            0 <= width + 1 <= 0xffff_ffff,
            0 <= height + 1 <= 0xffff_ffff,
    ;
    (width as u64 + 1) * (height as u64 + 1) <= u32::MAX as u64
}

/// Executable form of [`sample_index`] for a raster within the size limit.
pub fn sample_offset(width: u32, height: u32, x: u32, y: u32) -> (i: usize)
    requires
        size_supported(width as int, height as int),
        x < width,
        y < height,
    ensures
        i == sample_index(width as int, x as int, y as int),
        i < width * height,
{
    proof {
        lemma_index_in_range(width as int, height as int, x as int, y as int);
        lemma_size_supported(width as int, height as int);
    }
    y as usize * width as usize + x as usize
}

impl GrayImage {
    /// The raster holds exactly `width * height` samples and is within the
    /// size limit.
    pub open spec fn wf(&self) -> bool {
        &&& self.data@.len() == self.width * self.height
        &&& size_supported(self.width as int, self.height as int)
    }

    /// The sample at column `x` of row `y`.
    pub open spec fn pixel(&self, x: int, y: int) -> u8 {
        self.data@[sample_index(self.width as int, x, y)]
    }

    /// Makes a raster from its size and its samples.
    ///
    /// Returns `None` when the number of samples is not `width * height` or
    /// the size is beyond the limit.
    pub fn from_raw(width: u32, height: u32, data: Vec<u8>) -> (r: Option<GrayImage>)
        ensures
            r.is_some() <==> (data@.len() == width * height && size_supported(
                width as int,
                height as int,
            )),
            r matches Some(img) ==> img.wf() && img.width == width && img.height == height
                && img.data@ == data@,
    {
        if !size_is_supported(width, height) {
            return None;
        }
        proof {
            lemma_size_supported(width as int, height as int);
        }
        let count: u64 = width as u64 * height as u64;
        if data.len() as u64 != count {
            return None;
        }
        Some(GrayImage { width, height, data })
    }

    /// Makes a raster of the given size with every sample set to `value`.
    ///
    /// Returns `None` when the size is beyond the limit.
    pub fn filled(width: u32, height: u32, value: u8) -> (r: Option<GrayImage>)
        ensures
            r.is_some() <==> size_supported(width as int, height as int),
            r matches Some(img) ==> img.wf() && img.width == width && img.height == height
                && forall|i: int| 0 <= i < img.data@.len() ==> img.data@[i] == value,
    {
        if !size_is_supported(width, height) {
            return None;
        }
        proof {
            lemma_size_supported(width as int, height as int);
        }
        let count: usize = (width as u64 * height as u64) as usize;
        let mut data: Vec<u8> = Vec::new();
        let mut i: usize = 0;
        while i < count
            invariant
                i <= count,
                data@.len() == i,
                forall|k: int| 0 <= k < i ==> data@[k] == value,
            decreases count - i,
        {
            data.push(value);
            i += 1;
        }
        Some(GrayImage { width, height, data })
    }

    /// Width and height of the raster.
    pub fn dimensions(&self) -> (d: (u32, u32))
        ensures
            d == (self.width, self.height),
    {
        (self.width, self.height)
    }

    /// Reads the sample at column `x` of row `y`.
    pub fn get_pixel(&self, x: u32, y: u32) -> (p: u8)
        requires
            self.wf(),
            x < self.width,
            y < self.height,
        ensures
            p == self.pixel(x as int, y as int),
    {
        self.data[sample_offset(self.width, self.height, x, y)]
    }
}

/// The part of `img` that `rect` covers.
pub open spec fn cropped(img: Raster, rect: Rect) -> Raster {
    Raster {
        width: rect.width,
        height: rect.height,
        data: Seq::new(
            (rect.width * rect.height) as nat,
            |i: int| img.pixel(rect.x + i % (rect.width as int), rect.y + i / (rect.width as int)),
        ),
    }
}

/// A sample is light when it is above `percent / 100` of full scale.
pub open spec fn is_light(p: u8, percent: u8) -> bool {
    100 * p > percent * 255
}

/// `img` with every light sample set to white and every other to black.
pub open spec fn binarized(img: Raster, percent: u8) -> Raster {
    Raster {
        width: img.width,
        height: img.height,
        data: Seq::new(
            img.data.len(),
            |i: int|
                if is_light(img.data[i], percent) {
                    255u8
                } else {
                    0u8
                },
        ),
    }
}

/// A part of a raster within the size limit is within the size limit.
pub proof fn lemma_part_supported(width: int, height: int, w: int, h: int)
    requires
        0 <= w <= width,
        0 <= h <= height,
        size_supported(width, height),
    ensures
        size_supported(w, h),
        0 <= w * h <= width * height,
{
    assert((w + 1) * (h + 1) <= (width + 1) * (height + 1)) by (nonlinear_arith)
        requires
            0 <= w <= width,
            0 <= h <= height,
    ;
    assert(0 <= w * h <= width * height) by (nonlinear_arith)
        requires
            0 <= w <= width,
            0 <= h <= height,
    ;
}

impl GrayImage {
    /// Tells whether the raster is well formed.
    pub fn is_valid(&self) -> (r: bool)
        ensures
            r == self.wf(),
    {
        if !size_is_supported(self.width, self.height) {
            return false;
        }
        proof {
            lemma_size_supported(self.width as int, self.height as int);
        }
        self.data.len() as u64 == self.width as u64 * self.height as u64
    }

    /// Copies the part of the raster that `rect` covers.
    pub fn crop(&self, rect: Rect) -> (r: GrayImage)
        requires
            self.wf(),
            self@.holds(rect),
        ensures
            r@ == cropped(self@, rect),
            r.wf(),
    {
        proof {
            lemma_part_supported(
                self.width as int,
                self.height as int,
                rect.width as int,
                rect.height as int,
            );
            lemma_size_supported(self.width as int, self.height as int);
        }
        let ghost w = rect.width as int;
        let mut data: Vec<u8> = Vec::new();
        let mut j: u32 = 0;
        while j < rect.height
            invariant
                self.wf(),
                self@.holds(rect),
                w == rect.width,
                j <= rect.height,
                data@.len() == j * w,
                forall|i: int|
                    0 <= i < data@.len() ==> data@[i] == self@.pixel(rect.x + i % w, rect.y + i / w),
            decreases rect.height - j,
        {
            let mut i: u32 = 0;
            while i < rect.width
                invariant
                    self.wf(),
                    self@.holds(rect),
                    w == rect.width,
                    j < rect.height,
                    i <= rect.width,
                    data@.len() == j * w + i,
                    forall|k: int|
                        0 <= k < data@.len() ==> data@[k] == self@.pixel(
                            rect.x + k % w,
                            rect.y + k / w,
                        ),
                decreases rect.width - i,
            {
                proof {
                    vstd::arithmetic::div_mod::lemma_fundamental_div_mod_converse(
                        j * w + i,
                        w,
                        j as int,
                        i as int,
                    );
                }
                let p = self.get_pixel(rect.x + i, rect.y + j);
                data.push(p);
                i += 1;
            }
            proof {
                assert((j + 1) * w == j * w + w) by (nonlinear_arith);
            }
            j += 1;
        }
        assert(rect.height * w == rect.width * rect.height) by (nonlinear_arith)
            requires
                w == rect.width,
        ;
        assert(data@ =~= cropped(self@, rect).data);
        GrayImage { width: rect.width, height: rect.height, data }
    }

    /// Makes the black and white form of the raster: every sample above
    /// `percent / 100` of full scale becomes white, every other black.
    pub fn binarize(&self, percent: u8) -> (r: GrayImage)
        ensures
            r@ == binarized(self@, percent),
            self.wf() ==> r.wf(),
    {
        let mut data: Vec<u8> = Vec::new();
        let mut i: usize = 0;
        while i < self.data.len()
            invariant
                i <= self.data@.len(),
                data@.len() == i,
                forall|k: int|
                    0 <= k < i ==> data@[k] == (if is_light(self.data@[k], percent) {
                        255u8
                    } else {
                        0u8
                    }),
            decreases self.data@.len() - i,
        {
            let p: u8 = self.data[i];
            let q: u8 = if 100 * (p as u32) > (percent as u32) * 255 {
                255
            } else {
                0
            };
            data.push(q);
            i += 1;
        }
        assert(data@ =~= binarized(self@, percent).data);
        GrayImage { width: self.width, height: self.height, data }
    }
}

} // verus!
