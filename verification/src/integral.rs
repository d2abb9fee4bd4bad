//! Summed-area tables: sums over any rectangle of a raster in constant time.

use vstd::prelude::*;
use crate::gray::{lemma_size_supported, sample_index, size_supported, GrayImage};
use crate::rect::Rect;

verus! {

/// What one sample contributes to a sum: its value, or the square of its
/// value when `squared` is set.
pub open spec fn weight(p: u8, squared: bool) -> int {
    if squared {
        p as int * p as int
    } else {
        p as int
    }
}

/// The largest contribution of one sample.
pub open spec fn max_weight(squared: bool) -> int {
    if squared {
        65025
    } else {
        255
    }
}

/// Sum of the contributions of `len` samples of row `row`, starting at column
/// `x0`, in row-major `data` of the given `width`.
pub open spec fn span_sum(
    data: Seq<u8>,
    width: int,
    row: int,
    x0: int,
    len: int,
    squared: bool,
) -> int
    decreases len,
{
    if len <= 0 {
        0
    } else {
        span_sum(data, width, row, x0, len - 1, squared) + weight(
            data[sample_index(width, x0 + len - 1, row)],
            squared,
        )
    }
}

/// Sum of the contributions of the samples in the rectangle of `w` columns
/// and `h` rows whose top left corner is `(x0, y0)`.
pub open spec fn area_sum(
    data: Seq<u8>,
    width: int,
    x0: int,
    y0: int,
    w: int,
    h: int,
    squared: bool,
) -> int
    decreases h,
{
    if h <= 0 {
        0
    } else {
        area_sum(data, width, x0, y0, w, h - 1, squared) + span_sum(
            data,
            width,
            y0 + h - 1,
            x0,
            w,
            squared,
        )
    }
}

/// A span is the sum of its two parts.
pub proof fn lemma_span_split(
    data: Seq<u8>,
    width: int,
    row: int,
    x0: int,
    a: int,
    b: int,
    squared: bool,
)
    requires
        0 <= a,
        0 <= b,
    ensures
        span_sum(data, width, row, x0, a + b, squared) == span_sum(
            data,
            width,
            row,
            x0,
            a,
            squared,
        ) + span_sum(data, width, row, x0 + a, b, squared),
    decreases b,
{
    if b > 0 {
        lemma_span_split(data, width, row, x0, a, b - 1, squared);
    }
}

/// A rectangle cut by a vertical line is the sum of its two parts.
pub proof fn lemma_area_split_columns(
    data: Seq<u8>,
    width: int,
    x0: int,
    y0: int,
    a: int,
    b: int,
    h: int,
    squared: bool,
)
    requires
        0 <= a,
        0 <= b,
    ensures
        area_sum(data, width, x0, y0, a + b, h, squared) == area_sum(
            data,
            width,
            x0,
            y0,
            a,
            h,
            squared,
        ) + area_sum(data, width, x0 + a, y0, b, h, squared),
    decreases h,
{
    if h > 0 {
        lemma_area_split_columns(data, width, x0, y0, a, b, h - 1, squared);
        lemma_span_split(data, width, y0 + h - 1, x0, a, b, squared);
    }
}

/// A rectangle cut by a horizontal line is the sum of its two parts.
pub proof fn lemma_area_split_rows(
    data: Seq<u8>,
    width: int,
    x0: int,
    y0: int,
    w: int,
    a: int,
    b: int,
    squared: bool,
)
    requires
        0 <= a,
        0 <= b,
    ensures
        area_sum(data, width, x0, y0, w, a + b, squared) == area_sum(
            data,
            width,
            x0,
            y0,
            w,
            a,
            squared,
        ) + area_sum(data, width, x0, y0 + a, w, b, squared),
    decreases b,
{
    if b > 0 {
        lemma_area_split_rows(data, width, x0, y0, w, a, b - 1, squared);
    }
}

/// Inclusion and exclusion: the sum over a rectangle from the sums over the
/// four rectangles that reach from the origin to its corners.
pub proof fn lemma_inclusion_exclusion(
    data: Seq<u8>,
    width: int,
    x0: int,
    y0: int,
    w: int,
    h: int,
    squared: bool,
)
    requires
        0 <= x0,
        0 <= y0,
        0 <= w,
        0 <= h,
    ensures
        area_sum(data, width, x0, y0, w, h, squared) == area_sum(
            data,
            width,
            0,
            0,
            x0 + w,
            y0 + h,
            squared,
        ) - area_sum(data, width, 0, 0, x0, y0 + h, squared) - area_sum(
            data,
            width,
            0,
            0,
            x0 + w,
            y0,
            squared,
        ) + area_sum(data, width, 0, 0, x0, y0, squared),
{
    lemma_area_split_rows(data, width, 0, 0, x0 + w, y0, h, squared);
    lemma_area_split_columns(data, width, 0, y0, x0, w, h, squared);
    lemma_area_split_rows(data, width, 0, 0, x0, y0, h, squared);
}

/// A span sum is at least zero and at most the largest contribution times
/// the number of samples.
pub proof fn lemma_span_bounds(
    data: Seq<u8>,
    width: int,
    row: int,
    x0: int,
    len: int,
    squared: bool,
)
    requires
        0 <= len,
    ensures
        0 <= span_sum(data, width, row, x0, len, squared) <= max_weight(squared) * len,
    decreases len,
{
    if len > 0 {
        lemma_span_bounds(data, width, row, x0, len - 1, squared);
        let p = data[sample_index(width, x0 + len - 1, row)];
        assert(0 <= p as int * p as int <= 65025) by (nonlinear_arith)
            requires
                0 <= p <= 255,
        ;
        assert(max_weight(squared) * len == max_weight(squared) * (len - 1) + max_weight(
            squared,
        )) by (nonlinear_arith);
    }
}

/// A rectangle sum is at least zero and at most the largest contribution
/// times the number of samples.
pub proof fn lemma_area_bounds(
    data: Seq<u8>,
    width: int,
    x0: int,
    y0: int,
    w: int,
    h: int,
    squared: bool,
)
    requires
        0 <= w,
        0 <= h,
    ensures
        0 <= area_sum(data, width, x0, y0, w, h, squared) <= max_weight(squared) * (w * h),
    decreases h,
{
    if h > 0 {
        lemma_area_bounds(data, width, x0, y0, w, h - 1, squared);
        lemma_span_bounds(data, width, y0 + h - 1, x0, w, squared);
        assert(max_weight(squared) * (w * h) == max_weight(squared) * (w * (h - 1))
            + max_weight(squared) * w) by (nonlinear_arith);
    } else {
        assert(max_weight(squared) * (w * h) == 0) by (nonlinear_arith)
            requires
                h == 0,
        ;
    }
}

/// A rectangle sum grows with the rectangle, as long as the corner stays.
pub proof fn lemma_area_monotonic(
    data: Seq<u8>,
    width: int,
    x0: int,
    y0: int,
    w1: int,
    h1: int,
    w2: int,
    h2: int,
    squared: bool,
)
    requires
        0 <= w1 <= w2,
        0 <= h1 <= h2,
    ensures
        area_sum(data, width, x0, y0, w1, h1, squared) <= area_sum(
            data,
            width,
            x0,
            y0,
            w2,
            h2,
            squared,
        ),
{
    lemma_area_split_columns(data, width, x0, y0, w1, w2 - w1, h1, squared);
    lemma_area_bounds(data, width, x0 + w1, y0, w2 - w1, h1, squared);
    lemma_area_split_rows(data, width, x0, y0, w2, h1, h2 - h1, squared);
    lemma_area_bounds(data, width, x0, y0 + h1, w2, h2 - h1, squared);
}

/// The sum over a span of the squares `(b * p - a)²`, written out in the
/// two sums of the span, is not negative.
pub proof fn lemma_span_squares(
    data: Seq<u8>,
    width: int,
    row: int,
    x0: int,
    len: int,
    a: int,
    b: int,
)
    requires
        0 <= len,
    ensures
        b * b * span_sum(data, width, row, x0, len, true) - 2 * (a * b) * span_sum(
            data,
            width,
            row,
            x0,
            len,
            false,
        ) + len * (a * a) >= 0,
    decreases len,
{
    if len > 0 {
        lemma_span_squares(data, width, row, x0, len - 1, a, b);
        let p = data[sample_index(width, x0 + len - 1, row)] as int;
        let q = span_sum(data, width, row, x0, len - 1, true);
        let s = span_sum(data, width, row, x0, len - 1, false);
        let bb = b * b;
        let ab = a * b;
        let aa = a * a;
        let pp = p * p;
        let bp = b * p;
        assert(bb * (q + pp) == bb * q + bb * pp) by (nonlinear_arith);
        assert((2 * ab) * (s + p) == (2 * ab) * s + 2 * (ab * p)) by (nonlinear_arith);
        assert(len * aa == (len - 1) * aa + aa) by (nonlinear_arith);
        assert(bp * bp == bb * pp) by (nonlinear_arith)
            requires
                bp == b * p,
                bb == b * b,
                pp == p * p,
        ;
        assert(a * bp == ab * p) by (nonlinear_arith)
            requires
                bp == b * p,
                ab == a * b,
        ;
        assert((bp - a) * (bp - a) == bp * bp - 2 * (a * bp) + aa) by (nonlinear_arith)
            requires
                aa == a * a,
        ;
        assert((bp - a) * (bp - a) >= 0) by (nonlinear_arith);
    } else {
        assert(b * b * 0 - 2 * (a * b) * 0 + 0 * (a * a) == 0) by (nonlinear_arith);
    }
}

/// The sum over a rectangle of the squares `(b * p - a)²`, written out in
/// the two sums of the rectangle, is not negative.
pub proof fn lemma_area_squares(
    data: Seq<u8>,
    width: int,
    x0: int,
    y0: int,
    w: int,
    h: int,
    a: int,
    b: int,
)
    requires
        0 <= w,
        0 <= h,
    ensures
        b * b * area_sum(data, width, x0, y0, w, h, true) - 2 * (a * b) * area_sum(
            data,
            width,
            x0,
            y0,
            w,
            h,
            false,
        ) + (w * h) * (a * a) >= 0,
    decreases h,
{
    if h > 0 {
        lemma_area_squares(data, width, x0, y0, w, h - 1, a, b);
        lemma_span_squares(data, width, y0 + h - 1, x0, w, a, b);
        let q = area_sum(data, width, x0, y0, w, h - 1, true);
        let s = area_sum(data, width, x0, y0, w, h - 1, false);
        let q1 = span_sum(data, width, y0 + h - 1, x0, w, true);
        let s1 = span_sum(data, width, y0 + h - 1, x0, w, false);
        let bb = b * b;
        let ab = a * b;
        let aa = a * a;
        assert(bb * (q + q1) == bb * q + bb * q1) by (nonlinear_arith);
        assert((2 * ab) * (s + s1) == (2 * ab) * s + (2 * ab) * s1) by (nonlinear_arith);
        assert(w * h == w * (h - 1) + w) by (nonlinear_arith);
        assert((w * (h - 1) + w) * aa == (w * (h - 1)) * aa + w * aa) by (nonlinear_arith);
    } else {
        assert(b * b * 0 - 2 * (a * b) * 0 + (w * h) * (a * a) == 0) by (nonlinear_arith)
            requires
                h == 0,
        ;
    }
}

/// The variance of the samples in a rectangle is never negative: the number
/// of samples times the sum of their squares is at least the square of
/// their sum.
pub proof fn lemma_variance_not_negative(
    data: Seq<u8>,
    width: int,
    x0: int,
    y0: int,
    w: int,
    h: int,
)
    requires
        0 <= w,
        0 <= h,
    ensures
        (w * h) * area_sum(data, width, x0, y0, w, h, true) >= area_sum(
            data,
            width,
            x0,
            y0,
            w,
            h,
            false,
        ) * area_sum(data, width, x0, y0, w, h, false),
{
    let n = w * h;
    let q = area_sum(data, width, x0, y0, w, h, true);
    let s = area_sum(data, width, x0, y0, w, h, false);
    lemma_area_squares(data, width, x0, y0, w, h, s, n);
    lemma_area_bounds(data, width, x0, y0, w, h, false);
    assert(0 <= n) by (nonlinear_arith)
        requires
            n == w * h,
            0 <= w,
            0 <= h,
    ;
    if n > 0 {
        let ss = s * s;
        let nq = n * q;
        assert(n * n * q == n * nq) by (nonlinear_arith)
            requires
                nq == n * q,
        ;
        let sn = s * n;
        assert(sn * s == n * ss) by (nonlinear_arith)
            requires
                sn == s * n,
                ss == s * s,
        ;
        assert((2 * sn) * s == 2 * (sn * s)) by (nonlinear_arith);
        assert(n * n * q - 2 * sn * s + n * ss >= 0);
        assert(n * nq - 2 * (n * ss) + n * ss == n * (nq - ss)) by (nonlinear_arith);
        assert(nq - ss >= 0) by (nonlinear_arith)
            requires
                n > 0,
                n * (nq - ss) >= 0,
        ;
    } else {
        assert(s == 0);
        assert(n * q == 0) by (nonlinear_arith)
            requires
                n == 0,
        ;
    }
}

/// Position of the entry for corner `(x, y)` in a table over a raster of the
/// given `width`; the table has one entry more per row than the raster.
pub open spec fn table_index(width: int, x: int, y: int) -> int {
    y * (width + 1) + x
}

/// Where the entries of a table lie.
pub proof fn lemma_table_index(width: int, x: int, y: int, rows: int)
    requires
        0 <= x <= width,
        0 <= y < rows,
    ensures
        0 <= table_index(width, x, y) < rows * (width + 1),
        table_index(width, x, y + 1) == table_index(width, x, y) + width + 1,
        table_index(width, x, y) < table_index(width, 0, y + 1),
{
    assert(0 <= y * (width + 1)) by (nonlinear_arith)
        requires
            0 <= y,
            0 <= width,
    ;
    assert((y + 1) * (width + 1) <= rows * (width + 1)) by (nonlinear_arith)
        requires
            y + 1 <= rows,
            0 <= width,
    ;
    assert((y + 1) * (width + 1) == y * (width + 1) + width + 1) by (nonlinear_arith);
}

/// A summed-area table over a raster: for every corner `(x, y)` the sum of
/// the contributions of all samples to the left of column `x` and above row
/// `y`.
pub struct IntegralTable {
    /// Number of columns of the raster.
    pub width: u32,
    /// Number of rows of the raster.
    pub height: u32,
    /// Whether the table sums squares of samples rather than samples.
    pub squared: bool,
    /// The sums, one row of `width + 1` corners after the other.
    pub sums: Vec<u64>,
    /// The samples of the raster that the table was built from.
    pub source: Ghost<Seq<u8>>,
}

impl IntegralTable {
    /// Every entry holds the sum that belongs to its corner.
    pub open spec fn wf(&self) -> bool {
        &&& size_supported(self.width as int, self.height as int)
        &&& self.source@.len() == self.width * self.height
        &&& self.sums@.len() == (self.height + 1) * (self.width + 1)
        &&& forall|x: int, y: int|
            0 <= x <= self.width && 0 <= y <= self.height ==> self.sums@[#[trigger] table_index(
                self.width as int,
                x,
                y,
            )] == area_sum(self.source@, self.width as int, 0, 0, x, y, self.squared)
    }

    /// The sum that the table gives for a rectangle.
    pub open spec fn sum_of(&self, rect: Rect) -> int {
        area_sum(
            self.source@,
            self.width as int,
            rect.x as int,
            rect.y as int,
            rect.width as int,
            rect.height as int,
            self.squared,
        )
    }

    /// Builds the table of a raster in one pass over its samples.
    pub fn new(img: &GrayImage, squared: bool) -> (t: IntegralTable)
        requires
            img.wf(),
        ensures
            t.wf(),
            t.width == img.width,
            t.height == img.height,
            t.squared == squared,
            t.source@ == img.data@,
    {
        let w: usize = img.width as usize;
        let h: usize = img.height as usize;
        let ghost data = img.data@;
        let ghost wi = w as int;
        proof {
            lemma_size_supported(w as int, h as int);
        }
        let mut sums: Vec<u64> = Vec::new();
        let mut x: usize = 0;
        while x <= w
            invariant
                w < u32::MAX,
                x <= w + 1,
                sums@.len() == x,
                forall|k: int| 0 <= k < x ==> sums@[k] == 0,
            decreases w + 1 - x,
        {
            sums.push(0);
            x += 1;
        }
        assert forall|xx: int, yy: int| 0 <= xx <= w && 0 <= yy <= 0 implies sums@[#[trigger] table_index(
            wi,
            xx,
            yy,
        )] == area_sum(data, wi, 0, 0, xx, yy, squared) by {
            assert(table_index(wi, xx, yy) == xx);
        }
        let mut y: usize = 0;
        let mut k: usize = 0;
        while y < h
            invariant
                img.wf(),
                data == img.data@,
                wi == w,
                w == img.width,
                h == img.height,
                y <= h,
                k == y * w,
                sums@.len() == table_index(wi, 0, y + 1),
                forall|xx: int, yy: int|
                    0 <= xx <= w && 0 <= yy <= y ==> sums@[#[trigger] table_index(wi, xx, yy)]
                        == area_sum(data, wi, 0, 0, xx, yy, squared),
            decreases h - y,
        {
            let ghost before = sums@;
            sums.push(0);
            let mut acc: u64 = 0;
            let mut x: usize = 0;
            proof {
                lemma_area_bounds(data, wi, 0, 0, 0, y + 1, squared);
                assert(0 * (y + 1) == 0);
                assert forall|xx: int, yy: int| 0 <= xx <= w && 0 <= yy <= y implies sums@[#[trigger] table_index(
                    wi,
                    xx,
                    yy,
                )] == area_sum(data, wi, 0, 0, xx, yy, squared) by {
                    lemma_table_index(wi, xx, yy, y + 1);
                    assert(sums@[table_index(wi, xx, yy)] == before[table_index(wi, xx, yy)]);
                }
            }
            while x < w
                invariant
                    img.wf(),
                    data == img.data@,
                    wi == w,
                    w == img.width,
                    h == img.height,
                    y < h,
                    x <= w,
                    k == y * w + x,
                    sums@.len() == table_index(wi, x as int, y + 1) + 1,
                    acc == span_sum(data, wi, y as int, 0, x as int, squared),
                    forall|xx: int, yy: int|
                        0 <= xx <= w && 0 <= yy <= y ==> sums@[#[trigger] table_index(wi, xx, yy)]
                            == area_sum(data, wi, 0, 0, xx, yy, squared),
                    forall|xx: int|
                        0 <= xx <= x ==> sums@[#[trigger] table_index(wi, xx, y + 1)] == area_sum(
                            data,
                            wi,
                            0,
                            0,
                            xx,
                            y + 1,
                            squared,
                        ),
                decreases w - x,
            {
                let ghost prev = sums@;
                proof {
                    lemma_size_supported(w as int, h as int);
                    crate::gray::lemma_index_in_range(wi, h as int, x as int, y as int);
                    lemma_table_index(wi, x + 1, y as int, h + 1);
                    lemma_table_index(wi, x as int, y + 1, h + 1);
                    lemma_span_bounds(data, wi, y as int, 0, x + 1, squared);
                    lemma_area_bounds(data, wi, 0, 0, x + 1, y + 1, squared);
                    assert((x + 1) * (y + 1) <= w * h) by (nonlinear_arith)
                        requires
                            0 <= x + 1 <= w,
                            0 <= y + 1 <= h,
                    ;
                    assert(max_weight(squared) * ((x + 1) * (y + 1)) <= 65025 * 0xffff_ffff)
                        by (nonlinear_arith)
                        requires
                            0 <= (x + 1) * (y + 1) <= 0xffff_ffff,
                            0 <= max_weight(squared) <= 65025,
                    ;
                    assert(max_weight(squared) * (x + 1) <= 65025 * 0xffff_ffff)
                        by (nonlinear_arith)
                        requires
                            0 <= x + 1 <= 0xffff_ffff,
                            0 <= max_weight(squared) <= 65025,
                    ;
                }
                let p: u64 = img.data[k] as u64;
                assert(p == data[sample_index(wi, x as int, y as int)]);
                let term: u64 = if squared {
                    assert(p * p <= 65025) by (nonlinear_arith)
                        requires
                            0 <= p <= 255,
                    ;
                    p * p
                } else {
                    p
                };
                assert(term == weight(data[sample_index(wi, x as int, y as int)], squared));
                assert(acc + term == span_sum(data, wi, y as int, 0, x + 1, squared));
                acc = acc + term;
                let above: u64 = sums[sums.len() - (w + 1)];
                assert(above == area_sum(data, wi, 0, 0, x + 1, y as int, squared)) by {
                    assert(sums@.len() - (w + 1) == table_index(wi, x + 1, y as int));
                }
                assert(above + acc == area_sum(data, wi, 0, 0, x + 1, y + 1, squared));
                sums.push(above + acc);
                x += 1;
                k += 1;
                proof {
                    assert forall|xx: int, yy: int| 0 <= xx <= w && 0 <= yy <= y implies sums@[#[trigger] table_index(
                        wi,
                        xx,
                        yy,
                    )] == area_sum(data, wi, 0, 0, xx, yy, squared) by {
                        lemma_table_index(wi, xx, yy, y + 1);
                        assert(sums@[table_index(wi, xx, yy)] == prev[table_index(wi, xx, yy)]);
                    }
                    assert forall|xx: int| 0 <= xx <= x implies sums@[#[trigger] table_index(
                        wi,
                        xx,
                        y + 1,
                    )] == area_sum(data, wi, 0, 0, xx, y + 1, squared) by {
                        if xx < x {
                            assert(sums@[table_index(wi, xx, y + 1)] == prev[table_index(
                                wi,
                                xx,
                                y + 1,
                            )]);
                        }
                    }
                }
            }
            proof {
                lemma_table_index(wi, w as int, y + 1, h + 1);
                assert((y + 1) * w == y * w + w) by (nonlinear_arith);
            }
            y += 1;
        }
        IntegralTable { width: img.width, height: img.height, squared, sums, source: Ghost(data) }
    }

    /// Reads the entry for corner `(x, y)`.
    fn corner(&self, x: u32, y: u32) -> (s: u64)
        requires
            self.wf(),
            x <= self.width,
            y <= self.height,
        ensures
            s == area_sum(self.source@, self.width as int, 0, 0, x as int, y as int, self.squared),
    {
        proof {
            lemma_size_supported(self.width as int, self.height as int);
            lemma_table_index(self.width as int, x as int, y as int, self.height + 1);
        }
        self.sums[y as usize * (self.width as usize + 1) + x as usize]
    }

    /// Sums the contributions of the samples in `rect` from four entries of
    /// the table.
    pub fn rect_sum(&self, rect: &Rect) -> (s: u64)
        requires
            self.wf(),
            rect.fits(self.width as int, self.height as int),
        ensures
            s == self.sum_of(*rect),
            s <= max_weight(self.squared) * rect.area(),
    {
        let x0: u32 = rect.x;
        let y0: u32 = rect.y;
        let x1: u32 = rect.x + rect.width;
        let y1: u32 = rect.y + rect.height;
        let a: u64 = self.corner(x1, y1);
        let b: u64 = self.corner(x0, y1);
        let c: u64 = self.corner(x1, y0);
        let d: u64 = self.corner(x0, y0);
        proof {
            let data = self.source@;
            let w = self.width as int;
            lemma_inclusion_exclusion(
                data,
                w,
                x0 as int,
                y0 as int,
                rect.width as int,
                rect.height as int,
                self.squared,
            );
            lemma_area_bounds(
                data,
                w,
                x0 as int,
                y0 as int,
                rect.width as int,
                rect.height as int,
                self.squared,
            );
            lemma_area_monotonic(data, w, 0, 0, x0 as int, y0 as int, x1 as int, y0 as int, self.squared);
            lemma_area_monotonic(data, w, 0, 0, x0 as int, y0 as int, x0 as int, y1 as int, self.squared);
        }
        (a - b) - (c - d)
    }
}

} // verus!
