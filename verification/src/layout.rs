//! The layout of a screenshot: where the board and the rack are, and where
//! their rows and columns begin and end.

use vstd::prelude::*;
use crate::error::Error;
use crate::gray::{lemma_size_supported, GrayImage, Raster};
use crate::integral::{area_sum, IntegralTable};
use crate::rect::Rect;
use crate::segment::{
    column_scan, row_scan, scan_columns, scan_rows, spans_ordered, ScanModel, Segment,
    BOARD_COLUMN_LEVEL, BOARD_SIZE, RACK_COLUMN_LEVEL, RACK_SIZE,
};
use crate::select::selected;
use crate::stats::{spread, AreaStats, Ratio};

verus! {

/// Percentage of full scale above which the mean of a cell shows a tile.
pub const THRESHOLD: u8 = 65;

/// The layout of a screenshot, together with the summed-area tables from
/// which it is measured.
pub struct Layout {
    /// Sums of samples.
    pub integral: IntegralTable,
    /// Sums of squares of samples.
    pub integral_squared: IntegralTable,
    /// The whole screenshot.
    pub screen: Rect,
    /// The board.
    pub board_area: Rect,
    /// The rack.
    pub rack_area: Rect,
    /// First and last row of each row of the board.
    pub rows: Vec<(usize, usize)>,
    /// First and last column of each column of the board.
    pub cols: Vec<(usize, usize)>,
    /// First and last row of the rack.
    pub rack_rows: Vec<(usize, usize)>,
    /// First and last column of each tile of the rack.
    pub rack_cols: Vec<(usize, usize)>,
}

/// The lines of a profile over `bounds`: row `i` across the width of
/// `bounds` when `horizontal` is set, else column `i` down its height.
pub open spec fn profile_line(bounds: Rect, horizontal: bool, i: int) -> Rect {
    if horizontal {
        Rect { x: bounds.x, y: i as u32, width: bounds.width, height: 1 }
    } else {
        Rect { x: i as u32, y: bounds.y, width: 1, height: bounds.height }
    }
}

/// Number of lines of a profile over `bounds`.
pub open spec fn profile_len(bounds: Rect, horizontal: bool) -> int {
    if horizontal {
        bounds.height as int
    } else {
        bounds.width as int
    }
}

/// The height differs from the width by at most two percent of the width.
pub open spec fn near_square(width: int, height: int) -> bool {
    if height >= width {
        50 * (height - width) <= width
    } else {
        50 * (width - height) <= width
    }
}

/// Tells whether an area of the given size is square within two percent.
pub fn is_near_square(width: u32, height: u32) -> (r: bool)
    ensures
        r == near_square(width as int, height as int),
{
    let diff: u64 = if height >= width {
        (height - width) as u64
    } else {
        (width - height) as u64
    };
    50 * diff <= width as u64
}

/// What a segmentation finds, as a mathematical value.
pub struct LayoutModel {
    /// The board.
    pub board_area: Rect,
    /// The rack.
    pub rack_area: Rect,
    /// First and last row of each row of the board.
    pub rows: Seq<(usize, usize)>,
    /// First and last column of each column of the board.
    pub cols: Seq<(usize, usize)>,
    /// First and last row of the rack.
    pub rack_rows: Seq<(usize, usize)>,
    /// First and last column of each tile of the rack.
    pub rack_cols: Seq<(usize, usize)>,
}

/// Every interval ends no earlier than it starts, and before `limit`.
pub open spec fn spans_valid(spans: Seq<(usize, usize)>, limit: int) -> bool {
    forall|k: int| 0 <= k < spans.len() ==> (#[trigger] spans[k]).0 <= spans[k].1 < limit
}

/// Sum of the extents `last - first` of the first `n` intervals.
pub open spec fn extent_sum(spans: Seq<(usize, usize)>, n: int) -> int
    decreases n,
{
    if n <= 0 {
        0
    } else {
        extent_sum(spans, n - 1) + (spans[n - 1].1 - spans[n - 1].0)
    }
}

/// Mean of the extents of all intervals, rounded down; zero when there is
/// none.
pub open spec fn mean_extent(spans: Seq<(usize, usize)>) -> int {
    if spans.len() == 0 {
        0
    } else {
        extent_sum(spans, spans.len() as int) / (spans.len() as int)
    }
}

/// The cell in row `r` and column `c` of the grid over the given intervals:
/// it starts where its row and its column start, and has the mean extents
/// as its size.
pub open spec fn cell_at(rows: Seq<(usize, usize)>, cols: Seq<(usize, usize)>, r: int, c: int) -> Rect {
    Rect {
        x: cols[c].0 as u32,
        y: rows[r].0 as u32,
        width: mean_extent(cols) as u32,
        height: mean_extent(rows) as u32,
    }
}

/// The cells of the grid over the given intervals, row by row.
pub open spec fn grid_cells(rows: Seq<(usize, usize)>, cols: Seq<(usize, usize)>) -> Seq<Rect> {
    if rows.len() == 0 || cols.len() == 0 {
        Seq::empty()
    } else {
        Seq::new(
            rows.len() * cols.len(),
            |i: int| cell_at(rows, cols, i / (cols.len() as int), i % (cols.len() as int)),
        )
    }
}

/// The sum of extents of valid intervals is bounded by their number times
/// the limit.
pub proof fn lemma_extent_sum_bounds(spans: Seq<(usize, usize)>, n: int, limit: int)
    requires
        0 <= n <= spans.len(),
        spans_valid(spans, limit),
    ensures
        0 <= extent_sum(spans, n) <= n * (limit - 1),
    decreases n,
{
    if n > 0 {
        lemma_extent_sum_bounds(spans, n - 1, limit);
        assert(spans[n - 1].0 <= spans[n - 1].1 < limit);
        assert(n * (limit - 1) == (n - 1) * (limit - 1) + (limit - 1)) by (nonlinear_arith);
    } else {
        assert(n * (limit - 1) == 0) by (nonlinear_arith)
            requires
                n == 0,
        ;
    }
}

/// The mean extent of valid intervals is below the limit.
pub proof fn lemma_mean_extent_bounds(spans: Seq<(usize, usize)>, limit: int)
    requires
        spans_valid(spans, limit),
        0 <= limit,
    ensures
        0 <= mean_extent(spans) <= limit,
        spans.len() > 0 ==> mean_extent(spans) < limit,
{
    let n = spans.len() as int;
    if n > 0 {
        lemma_extent_sum_bounds(spans, n, limit);
        let total = extent_sum(spans, n);
        assert(0 <= total / n <= limit - 1) by (nonlinear_arith)
            requires
                0 < n,
                0 <= total <= n * (limit - 1),
        ;
    }
}

/// Among complete intervals in order, a later one ends no earlier than an
/// earlier one starts.
pub proof fn lemma_spans_increase(spans: Seq<(usize, usize)>, closed: int, i: int, a: int, b: int)
    requires
        spans_ordered(spans, closed, i),
        0 <= a <= b < closed,
        b < spans.len(),
    ensures
        spans[a].0 <= spans[b].1,
        spans[a].0 <= spans[b].0,
    decreases b - a,
{
    if a < b {
        lemma_spans_increase(spans, closed, i, a, b - 1);
        assert(spans[b - 1].0 <= spans[b - 1].1);
        assert(spans[b - 1].1 < spans[b].0);
        assert(spans[b].0 <= spans[b].1);
    } else {
        assert(spans[a].0 <= spans[a].1);
    }
}

/// Complete intervals in order are valid intervals.
pub proof fn lemma_ordered_is_valid(spans: Seq<(usize, usize)>, closed: int, i: int)
    requires
        spans_ordered(spans, closed, i),
        spans.len() <= closed,
    ensures
        spans_valid(spans, i),
{
    assert forall|k: int| 0 <= k < spans.len() implies (#[trigger] spans[k]).0 <= spans[k].1 < i by {
        assert(0 <= k < closed && k < spans.len());
    }
}

/// Computes the mean extent of the given intervals.
fn mean_span(spans: &Vec<(usize, usize)>) -> (m: u32)
    requires
        spans_valid(spans@, 0x1_0000_0000),
    ensures
        m == mean_extent(spans@),
{
    if spans.len() == 0 {
        return 0;
    }
    let mut total: u128 = 0;
    let mut k: usize = 0;
    while k < spans.len()
        invariant
            spans_valid(spans@, 0x1_0000_0000),
            k <= spans@.len(),
            total == extent_sum(spans@, k as int),
            total <= k * 0xffff_ffff,
        decreases spans@.len() - k,
    {
        let (first, last) = spans[k];
        proof {
            lemma_extent_sum_bounds(spans@, k + 1, 0x1_0000_0000);
            assert(k * 0xffff_ffff <= 0xffff_ffff_ffff_ffff * 0xffff_ffff) by (nonlinear_arith)
                requires
                    0 <= k <= 0xffff_ffff_ffff_ffff,
            ;
        }
        total = total + (last - first) as u128;
        k += 1;
    }
    proof {
        lemma_mean_extent_bounds(spans@, 0x1_0000_0000);
    }
    let mean: u128 = total / (spans.len() as u128);
    mean as u32
}

/// The extent of a raster.
pub open spec fn screen_of(img: Raster) -> Rect {
    Rect { x: 0, y: 0, width: img.width, height: img.height }
}

/// The three sums of the samples of `img` in `rect`.
pub open spec fn stats_of(img: Raster, rect: Rect) -> AreaStats {
    AreaStats {
        count: rect.area() as u64,
        sum: area_sum(
            img.data,
            img.width as int,
            rect.x as int,
            rect.y as int,
            rect.width as int,
            rect.height as int,
            false,
        ) as u64,
        sum_sq: area_sum(
            img.data,
            img.width as int,
            rect.x as int,
            rect.y as int,
            rect.width as int,
            rect.height as int,
            true,
        ) as u64,
    }
}

/// The variance of the samples of a raster in a rectangle is exactly
/// `(sum_sq - sum² / count) / count`: the guard that keeps it from going
/// below zero never acts.
pub proof fn lemma_variance_exact(img: Raster, rect: Rect)
    ensures
        spread(
            rect.area(),
            area_sum(
                img.data,
                img.width as int,
                rect.x as int,
                rect.y as int,
                rect.width as int,
                rect.height as int,
                false,
            ),
            area_sum(
                img.data,
                img.width as int,
                rect.x as int,
                rect.y as int,
                rect.width as int,
                rect.height as int,
                true,
            ),
        ) == rect.area() * area_sum(
            img.data,
            img.width as int,
            rect.x as int,
            rect.y as int,
            rect.width as int,
            rect.height as int,
            true,
        ) - area_sum(
            img.data,
            img.width as int,
            rect.x as int,
            rect.y as int,
            rect.width as int,
            rect.height as int,
            false,
        ) * area_sum(
            img.data,
            img.width as int,
            rect.x as int,
            rect.y as int,
            rect.width as int,
            rect.height as int,
            false,
        ),
{
    crate::integral::lemma_variance_not_negative(
        img.data,
        img.width as int,
        rect.x as int,
        rect.y as int,
        rect.width as int,
        rect.height as int,
    );
}

/// Entry `i` of the profile of `img` over `bounds`: mean and variance of
/// line `i`, in whole levels.
pub open spec fn profile_entry(img: Raster, bounds: Rect, horizontal: bool, i: int) -> (u32, u32) {
    let st = stats_of(img, profile_line(bounds, horizontal, i));
    (st.mean_level() as u32, st.variance_level() as u32)
}

/// The profile of `img` over `bounds`.
pub open spec fn profile(img: Raster, bounds: Rect, horizontal: bool) -> Seq<(u32, u32)> {
    Seq::new(
        profile_len(bounds, horizontal) as nat,
        |i: int| profile_entry(img, bounds, horizontal, i),
    )
}

/// The findings of the pass over the rows of the whole screenshot.
pub open spec fn row_findings(img: Raster) -> ScanModel {
    row_scan(profile(img, screen_of(img), true), img.height as int)
}

/// The board, from the first row of its first interval to the last row of
/// its last, across the whole width.
pub open spec fn board_of(img: Raster, rows: ScanModel) -> Rect {
    Rect {
        x: 0,
        y: rows.spans[0].0 as u32,
        width: img.width,
        height: (rows.spans[14].1 - rows.spans[0].0) as u32,
    }
}

/// The rack, across the whole width.
pub open spec fn rack_of(img: Raster, rows: ScanModel) -> Rect {
    Rect { x: 0, y: rows.rack_y as u32, width: img.width, height: rows.rack_height as u32 }
}

/// The findings of a pass over the columns of `area`.
pub open spec fn column_findings(img: Raster, area: Rect, level: u32, maxcols: usize) -> ScanModel {
    column_scan(profile(img, area, false), level, maxcols, area.width as int)
}

/// What segmenting a screenshot gives: the layout, or the reason why there
/// is none.
///
/// The pass over rows must find the board and the rack.  The board must be
/// square within two percent.  The pass over the columns of the board must
/// find all fifteen.  The pass over the columns of the rack may find fewer
/// than seven tiles, but must not end inside one.
pub open spec fn segmentation(img: Raster) -> Result<LayoutModel, Error> {
    let rows = row_findings(img);
    let board = board_of(img, rows);
    let rack = rack_of(img, rows);
    let cols = column_findings(img, board, BOARD_COLUMN_LEVEL, BOARD_SIZE);
    let rack_cols = column_findings(img, rack, RACK_COLUMN_LEVEL, RACK_SIZE);
    if rows.state != Segment::Done {
        Err(Error::LayoutFailed(rows.state))
    } else if !near_square(board.width as int, board.height as int) {
        Err(Error::BoardNotSquare { width: board.width, height: board.height })
    } else if cols.state != Segment::Done {
        Err(Error::LayoutFailed(cols.state))
    } else if rack_cols.state is InTile {
        Err(Error::LayoutFailed(rack_cols.state))
    } else {
        Ok(
            LayoutModel {
                board_area: board,
                rack_area: rack,
                rows: rows.spans,
                cols: cols.spans,
                rack_rows: seq![(rows.rack_y, (rows.rack_y + rows.rack_height - 1) as usize)],
                rack_cols: rack_cols.spans,
            },
        )
    }
}

/// Whatever the screenshot, a layout that segmentation gives has fifteen
/// rows and fifteen columns on the board, one row and at most seven tiles on
/// the rack, intervals that end no earlier than they start and lie inside
/// the screenshot, and a board that is square within two percent.
pub proof fn lemma_segmentation_shape(img: Raster)
    ensures
        segmentation(img) matches Ok(m) ==> {
            &&& m.rows.len() == 15
            &&& m.cols.len() == 15
            &&& m.rack_rows.len() == 1
            &&& m.rack_cols.len() <= 7
            &&& spans_valid(m.rows, img.height as int)
            &&& spans_valid(m.cols, img.width as int)
            &&& spans_valid(m.rack_rows, img.height as int)
            &&& spans_valid(m.rack_cols, img.width as int)
            &&& near_square(m.board_area.width as int, m.board_area.height as int)
            &&& m.board_area.width == img.width
            &&& m.rack_area.width == img.width
            &&& m.board_area.y + m.board_area.height < img.height
            &&& m.rack_area.y + m.rack_area.height < img.height
            &&& m.rack_area.height >= 1
        },
{
    let rows = row_findings(img);
    let board = board_of(img, rows);
    let rack = rack_of(img, rows);
    let cols = column_findings(img, board, BOARD_COLUMN_LEVEL, BOARD_SIZE);
    let rack_cols = column_findings(img, rack, RACK_COLUMN_LEVEL, RACK_SIZE);
    crate::segment::lemma_row_scan_inv(profile(img, screen_of(img), true), img.height as int);
    crate::segment::lemma_column_scan_inv(
        profile(img, board, false),
        BOARD_COLUMN_LEVEL,
        BOARD_SIZE,
        board.width as int,
    );
    crate::segment::lemma_column_scan_inv(
        profile(img, rack, false),
        RACK_COLUMN_LEVEL,
        RACK_SIZE,
        rack.width as int,
    );
    if segmentation(img) is Ok {
        lemma_ordered_is_valid(rows.spans, 15, img.height as int);
        lemma_spans_increase(rows.spans, 15, img.height as int, 0, 14);
        lemma_ordered_is_valid(cols.spans, 15, img.width as int);
        lemma_ordered_is_valid(rack_cols.spans, rack_cols.spans.len() as int, img.width as int);
    }
}

/// A cell shows a tile when its mean is above the occupancy threshold.
pub open spec fn occupied(img: Raster, cell: Rect) -> bool {
    stats_of(img, cell).mean_ratio().above(THRESHOLD as int, 100)
}

/// For each cell, whether it shows a tile.
pub open spec fn occupied_flags(img: Raster, cells: Seq<Rect>) -> Seq<bool> {
    Seq::new(cells.len(), |i: int| occupied(img, cells[i]))
}

/// The indices of the cells that show a tile, in increasing order.
pub open spec fn occupied_indices(img: Raster, cells: Seq<Rect>) -> Seq<usize> {
    selected(occupied_flags(img, cells), cells.len() as int)
}

impl Layout {
    /// Both tables are those of one raster, and `screen` is its extent.
    pub open spec fn wf(&self) -> bool {
        &&& self.integral.wf()
        &&& self.integral_squared.wf()
        &&& !self.integral.squared
        &&& self.integral_squared.squared
        &&& self.integral.source@ == self.integral_squared.source@
        &&& self.integral.width == self.integral_squared.width
        &&& self.integral.height == self.integral_squared.height
        &&& self.screen == (Rect {
            x: 0,
            y: 0,
            width: self.integral.width,
            height: self.integral.height,
        })
    }

    /// The screenshot that the layout measures.
    pub open spec fn raster(&self) -> Raster {
        Raster {
            width: self.integral.width,
            height: self.integral.height,
            data: self.integral.source@,
        }
    }

    /// Makes the layout of a screenshot that has not been segmented yet:
    /// the tables are built, `screen` is set, everything else is empty.
    pub fn new(img: &GrayImage) -> (l: Layout)
        requires
            img.wf(),
        ensures
            l.wf(),
            l.raster() == img@,
            l.screen == (Rect { x: 0, y: 0, width: img.width, height: img.height }),
            l.board_area == (Rect { x: 0, y: 0, width: 0, height: 0 }),
            l.rack_area == (Rect { x: 0, y: 0, width: 0, height: 0 }),
            l.rows@.len() == 0,
            l.cols@.len() == 0,
            l.rack_rows@.len() == 0,
            l.rack_cols@.len() == 0,
    {
        let integral = IntegralTable::new(img, false);
        let integral_squared = IntegralTable::new(img, true);
        Layout {
            integral,
            integral_squared,
            screen: Rect { x: 0, y: 0, width: img.width, height: img.height },
            board_area: Rect { x: 0, y: 0, width: 0, height: 0 },
            rack_area: Rect { x: 0, y: 0, width: 0, height: 0 },
            rows: Vec::new(),
            cols: Vec::new(),
            rack_rows: Vec::new(),
            rack_cols: Vec::new(),
        }
    }

    /// Computes the three sums of the samples in `rect`, from which mean and
    /// variance follow.
    pub fn area_stats(&self, rect: &Rect) -> (st: AreaStats)
        requires
            self.wf(),
            self.raster().holds(*rect),
        ensures
            st == stats_of(self.raster(), *rect),
            st.wf(),
    {
        proof {
            lemma_size_supported(self.screen.width as int, self.screen.height as int);
            assert(rect.width * rect.height <= self.screen.width * self.screen.height)
                by (nonlinear_arith)
                requires
                    0 <= rect.width <= self.screen.width,
                    0 <= rect.height <= self.screen.height,
            ;
            assert(0 <= rect.width * rect.height) by (nonlinear_arith)
                requires
                    0 <= rect.width,
                    0 <= rect.height,
            ;
        }
        let count: u64 = rect.width as u64 * rect.height as u64;
        let sum: u64 = self.integral.rect_sum(rect);
        let sum_sq: u64 = self.integral_squared.rect_sum(rect);
        AreaStats { count, sum, sum_sq }
    }

    /// Computes the mean of the samples in `rect` as a fraction of full
    /// scale.
    pub fn mean(&self, rect: &Rect) -> (m: Ratio)
        requires
            self.wf(),
            self.raster().holds(*rect),
        ensures
            m == stats_of(self.raster(), *rect).mean_ratio(),
            m.wf(),
    {
        self.area_stats(rect).mean()
    }

    /// Computes the profile over `bounds`: for each of its rows (when
    /// `horizontal` is set) or columns, the mean and the variance of the
    /// samples on that line, in whole levels.
    pub fn stats(&self, bounds: Rect, horizontal: bool) -> (entries: Vec<(u32, u32)>)
        requires
            self.wf(),
            self.raster().holds(bounds),
        ensures
            entries@ == profile(self.raster(), bounds, horizontal),
    {
        let dim: u32 = if horizontal {
            bounds.height
        } else {
            bounds.width
        };
        let mut entries: Vec<(u32, u32)> = Vec::new();
        let mut i: u32 = 0;
        while i < dim
            invariant
                self.wf(),
                self.raster().holds(bounds),
                dim == profile_len(bounds, horizontal),
                i <= dim,
                entries@.len() == i,
                forall|k: int|
                    0 <= k < i ==> entries@[k] == profile_entry(self.raster(), bounds, horizontal, k),
            decreases dim - i,
        {
            let line = if horizontal {
                Rect { x: bounds.x, y: i, width: bounds.width, height: 1 }
            } else {
                Rect { x: i, y: bounds.y, width: 1, height: bounds.height }
            };
            assert(line == profile_line(bounds, horizontal, i as int));
            let st = self.area_stats(&line);
            let entry = st.levels();
            entries.push(entry);
            i += 1;
        }
        assert(entries@ =~= profile(self.raster(), bounds, horizontal));
        entries
    }
}

impl Layout {
    /// What the layout holds, as a mathematical value.
    pub open spec fn model(&self) -> LayoutModel {
        LayoutModel {
            board_area: self.board_area,
            rack_area: self.rack_area,
            rows: self.rows@,
            cols: self.cols@,
            rack_rows: self.rack_rows@,
            rack_cols: self.rack_cols@,
        }
    }

    /// What holds of every layout that a segmentation has given: fifteen
    /// rows and fifteen columns on the board, one row and at most seven
    /// tiles on the rack, every interval inside the screenshot, and board
    /// and rack inside the screenshot.
    pub open spec fn segmented(&self) -> bool {
        &&& self.rows@.len() == 15
        &&& self.cols@.len() == 15
        &&& self.rack_rows@.len() == 1
        &&& self.rack_cols@.len() <= 7
        &&& spans_valid(self.rows@, self.screen.height as int)
        &&& spans_valid(self.cols@, self.screen.width as int)
        &&& spans_valid(self.rack_rows@, self.screen.height as int)
        &&& spans_valid(self.rack_cols@, self.screen.width as int)
        &&& self.raster().holds(self.board_area)
        &&& self.raster().holds(self.rack_area)
        &&& near_square(self.board_area.width as int, self.board_area.height as int)
    }

    /// Segments the screenshot: finds the board and the rack, and in both
    /// the first and last index of every row and column.
    ///
    /// Fails with the cursor of the pass that did not come to its end, or
    /// with the size of a board that is not square.
    pub fn segment(self) -> (r: Result<Layout, Error>)
        requires
            self.wf(),
        ensures
            match r {
                Ok(l) => {
                    &&& segmentation(self.raster()) == Ok::<LayoutModel, Error>(l.model())
                    &&& l.wf()
                    &&& l.segmented()
                    &&& l.raster() == self.raster()
                    &&& l.screen == self.screen
                },
                Err(e) => segmentation(self.raster()) == Err::<LayoutModel, Error>(e),
            },
    {
        let width: u32 = self.screen.width;
        let height: u32 = self.screen.height;
        let rowstats = self.stats(self.screen, true);
        let rows = scan_rows(&rowstats);
        match rows.state {
            Segment::Done => {},
            _ => {
                return Err(Error::LayoutFailed(rows.state));
            },
        }
        assert(rows@.spans.len() == 15);
        assert(spans_ordered(rows@.spans, 15, height as int));
        let y0: usize = rows.spans[0].0;
        let y1: usize = rows.spans[14].1;
        proof {
            lemma_spans_increase(rows@.spans, 15, height as int, 0, 14);
            lemma_ordered_is_valid(rows@.spans, 15, height as int);
        }
        let board_area = Rect { x: 0, y: y0 as u32, width, height: (y1 - y0) as u32 };
        let rack_area = Rect {
            x: 0,
            y: rows.rack_y as u32,
            width,
            height: rows.rack_height as u32,
        };
        assert(board_area == board_of(self.raster(), rows@));
        assert(rack_area == rack_of(self.raster(), rows@));
        if !is_near_square(board_area.width, board_area.height) {
            return Err(Error::BoardNotSquare { width: board_area.width, height: board_area.height });
        }
        let colstats = self.stats(board_area, false);
        let cols = scan_columns(BOARD_COLUMN_LEVEL, BOARD_SIZE, &colstats);
        match cols.state {
            Segment::Done => {},
            _ => {
                return Err(Error::LayoutFailed(cols.state));
            },
        }
        let rackstats = self.stats(rack_area, false);
        let rack_cols = scan_columns(RACK_COLUMN_LEVEL, RACK_SIZE, &rackstats);
        match rack_cols.state {
            Segment::InTile(_) => {
                return Err(Error::LayoutFailed(rack_cols.state));
            },
            _ => {},
        }
        let mut rack_rows: Vec<(usize, usize)> = Vec::new();
        rack_rows.push((rows.rack_y, rows.rack_y + rows.rack_height - 1));
        proof {
            lemma_ordered_is_valid(cols@.spans, 15, width as int);
            lemma_ordered_is_valid(rack_cols@.spans, rack_cols@.spans.len() as int, width as int);
            assert(rack_rows@ =~= seq![
                (rows@.rack_y, (rows@.rack_y + rows@.rack_height - 1) as usize),
            ]);
        }
        Ok(
            Layout {
                integral: self.integral,
                integral_squared: self.integral_squared,
                screen: self.screen,
                board_area,
                rack_area,
                rows: rows.spans,
                cols: cols.spans,
                rack_rows,
                rack_cols: rack_cols.spans,
            },
        )
    }

    /// Makes the cells of the grid over the given row and column intervals,
    /// row by row.  All cells have the same size: the mean extent of the
    /// column intervals by the mean extent of the row intervals.  Without
    /// rows or without columns there are no cells.
    pub fn get_cells(rows: &Vec<(usize, usize)>, cols: &Vec<(usize, usize)>) -> (cells: Vec<Rect>)
        requires
            spans_valid(rows@, 0x1_0000_0000),
            spans_valid(cols@, 0x1_0000_0000),
        ensures
            cells@ == grid_cells(rows@, cols@),
    {
        let mut cells: Vec<Rect> = Vec::new();
        if rows.len() == 0 || cols.len() == 0 {
            assert(cells@ =~= grid_cells(rows@, cols@));
            return cells;
        }
        let tile_height: u32 = mean_span(rows);
        let tile_width: u32 = mean_span(cols);
        let ghost m = cols@.len() as int;
        let mut r: usize = 0;
        while r < rows.len()
            invariant
                spans_valid(rows@, 0x1_0000_0000),
                spans_valid(cols@, 0x1_0000_0000),
                m == cols@.len(),
                m > 0,
                r <= rows@.len(),
                tile_height == mean_extent(rows@),
                tile_width == mean_extent(cols@),
                cells@.len() == r * m,
                forall|i: int|
                    0 <= i < cells@.len() ==> cells@[i] == cell_at(rows@, cols@, i / m, i % m),
            decreases rows@.len() - r,
        {
            let y0: usize = rows[r].0;
            let mut c: usize = 0;
            while c < cols.len()
                invariant
                    spans_valid(rows@, 0x1_0000_0000),
                    spans_valid(cols@, 0x1_0000_0000),
                    m == cols@.len(),
                    m > 0,
                    r < rows@.len(),
                    c <= m,
                    y0 == rows@[r as int].0,
                    tile_height == mean_extent(rows@),
                    tile_width == mean_extent(cols@),
                    cells@.len() == r * m + c,
                    forall|i: int|
                        0 <= i < cells@.len() ==> cells@[i] == cell_at(rows@, cols@, i / m, i % m),
                decreases m - c,
            {
                let x0: usize = cols[c].0;
                proof {
                    vstd::arithmetic::div_mod::lemma_fundamental_div_mod_converse(
                        r * m + c,
                        m,
                        r as int,
                        c as int,
                    );
                    assert(rows@[r as int].0 <= rows@[r as int].1);
                    assert(cols@[c as int].0 <= cols@[c as int].1);
                }
                cells.push(Rect { x: x0 as u32, y: y0 as u32, width: tile_width, height: tile_height });
                c += 1;
            }
            proof {
                assert((r + 1) * m == r * m + m) by (nonlinear_arith);
            }
            r += 1;
        }
        assert(cells@ =~= grid_cells(rows@, cols@));
        cells
    }

    /// Lists the indices of the cells whose mean is above the occupancy
    /// threshold, in increasing order.
    pub fn get_tile_index(&self, cells: &Vec<Rect>) -> (index: Vec<usize>)
        requires
            self.wf(),
            forall|i: int| 0 <= i < cells@.len() ==> self.raster().holds(#[trigger] cells@[i]),
        ensures
            index@ == occupied_indices(self.raster(), cells@),
    {
        let mut index: Vec<usize> = Vec::new();
        let mut i: usize = 0;
        while i < cells.len()
            invariant
                self.wf(),
                forall|k: int| 0 <= k < cells@.len() ==> self.raster().holds(#[trigger] cells@[k]),
                i <= cells@.len(),
                index@ == selected(occupied_flags(self.raster(), cells@), i as int),
            decreases cells@.len() - i,
        {
            let cell = cells[i];
            assert(self.raster().holds(cells@[i as int]));
            if self.area_stats(&cell).mean_exceeds(THRESHOLD) {
                index.push(i);
            }
            i += 1;
        }
        index
    }
}

/// Computes the variance of the samples in the rectangle with the given
/// first and last column and first and last row, from a table of sums and a
/// table of sums of squares of one raster.
pub fn variance(
    integral_image: &IntegralTable,
    integral_squared_image: &IntegralTable,
    left: u32,
    top: u32,
    right: u32,
    bottom: u32,
) -> (v: Ratio)
    requires
        integral_image.wf(),
        integral_squared_image.wf(),
        !integral_image.squared,
        integral_squared_image.squared,
        integral_image.width == integral_squared_image.width,
        integral_image.height == integral_squared_image.height,
        left <= right < integral_image.width,
        top <= bottom < integral_image.height,
    ensures
        v.wf(),
        v == (AreaStats {
            count: ((right - left + 1) * (bottom - top + 1)) as u64,
            sum: integral_image.sum_of(
                Rect {
                    x: left,
                    y: top,
                    width: (right - left + 1) as u32,
                    height: (bottom - top + 1) as u32,
                },
            ) as u64,
            sum_sq: integral_squared_image.sum_of(
                Rect {
                    x: left,
                    y: top,
                    width: (right - left + 1) as u32,
                    height: (bottom - top + 1) as u32,
                },
            ) as u64,
        }).variance_ratio(),
{
    let rect = Rect { x: left, y: top, width: right - left + 1, height: bottom - top + 1 };
    proof {
        lemma_size_supported(integral_image.width as int, integral_image.height as int);
        assert(rect.width * rect.height <= integral_image.width * integral_image.height)
            by (nonlinear_arith)
            requires
                0 <= rect.width <= integral_image.width,
                0 <= rect.height <= integral_image.height,
        ;
        assert(0 <= rect.width * rect.height) by (nonlinear_arith)
            requires
                0 <= rect.width,
                0 <= rect.height,
        ;
    }
    let count: u64 = rect.width as u64 * rect.height as u64;
    let sum: u64 = integral_image.rect_sum(&rect);
    let sum_sq: u64 = integral_squared_image.rect_sum(&rect);
    (AreaStats { count, sum, sum_sq }).variance()
}

} // verus!
