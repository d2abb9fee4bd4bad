//! Classification of cells: which letter a tile shows, which bonus a square
//! of the board carries, and the result of reading a whole screenshot.

use vstd::prelude::*;
use vstd::string::StringExecFns;
use crate::error::Error;
use crate::gray::{binarized, cropped, GrayImage, Raster};
use crate::layout::{
    grid_cells, occupied, occupied_flags, occupied_indices, segmentation, spans_valid, stats_of,
    Layout, LayoutModel, THRESHOLD,
};
use crate::matching::{
    candidate_scores, first_min, lanczos3, lowercase, match_of, match_template, resize_lanczos3,
    templates_usable, to_lowercase,
};
use crate::rect::Rect;
use crate::select::{
    all_indices, index_range, lemma_all_listed, lemma_selected, lemma_selected_listed, listed,
    selected,
};

verus! {

/// Side of a tile of the board, in pixels, at the resolution of the
/// templates.
pub const TILE_SIZE: u32 = 67;

/// Index of the start square in the middle of the board.
pub const START_SQUARE: usize = 112;

/// Percentage of full scale below which the mean of a square shows plain
/// background.
pub const BACKGROUND: u8 = 25;

/// The part of a tile in which its letter is matched.
pub open spec fn tile_region() -> Rect {
    Rect { x: 6, y: 3, width: 40, height: 62 }
}

/// The part of a square in which its bonus marking is matched.
pub open spec fn bonus_region() -> Rect {
    Rect { x: 8, y: 21, width: 48, height: 28 }
}

/// `percent / 100` of `length`, rounded to the nearest integer, halves up.
pub open spec fn percent_of(length: int, percent: int) -> int {
    (percent * length + 50) / 100
}

/// The small rectangle in the top right corner of a cell in which a
/// wildcard carries its mark: it starts at 73 % of the width and 6 % of the
/// height, and is 18 % of the width wide and 27 % of the height high.
pub open spec fn corner_of(cell: Rect) -> Rect {
    Rect {
        x: (cell.x + percent_of(cell.width as int, 73)) as u32,
        y: (cell.y + percent_of(cell.height as int, 6)) as u32,
        width: percent_of(cell.width as int, 18) as u32,
        height: percent_of(cell.height as int, 27) as u32,
    }
}

/// The corner rectangle lies inside its cell.
pub proof fn lemma_corner_inside(cell: Rect)
    ensures
        cell.x <= cell.x + percent_of(cell.width as int, 73),
        cell.x + percent_of(cell.width as int, 73) + percent_of(cell.width as int, 18) <= cell.x
            + cell.width,
        cell.y <= cell.y + percent_of(cell.height as int, 6),
        cell.y + percent_of(cell.height as int, 6) + percent_of(cell.height as int, 27) <= cell.y
            + cell.height,
{
}

/// Computes `percent / 100` of `length`, rounded to the nearest integer.
fn rounded_percent(length: u32, percent: u32) -> (r: u32)
    requires
        percent <= 100,
    ensures
        r == percent_of(length as int, percent as int),
        r <= length,
{
    assert(0 <= percent * length <= 100 * length) by (nonlinear_arith)
        requires
            0 <= percent <= 100,
            0 <= length,
    ;
    let scaled: u64 = (percent as u64) * (length as u64) + 50;
    (scaled / 100) as u32
}

/// Computes the corner rectangle of a cell that lies within 32-bit
/// coordinates.
pub fn topright(cell: Rect) -> (r: Rect)
    requires
        cell.x + cell.width <= u32::MAX,
        cell.y + cell.height <= u32::MAX,
    ensures
        r == corner_of(cell),
        r.x + r.width <= cell.x + cell.width,
        r.y + r.height <= cell.y + cell.height,
{
    proof {
        lemma_corner_inside(cell);
    }
    Rect {
        x: cell.x + rounded_percent(cell.width, 73),
        y: cell.y + rounded_percent(cell.height, 6),
        width: rounded_percent(cell.width, 18),
        height: rounded_percent(cell.height, 27),
    }
}

/// A tile without a letter: nearly white all over.  Its mean is above 0.9
/// of full scale and its standard deviation below 0.2 of full scale.
pub open spec fn is_blank(img: Raster, cell: Rect) -> bool {
    let st = stats_of(img, cell);
    st.mean_ratio().above(90, 100) && st.deviation_under(2)
}

/// A tile that stands for a letter of the player's choice: its corner
/// rectangle is evenly light.  The mean of the corner is above 0.8 of full
/// scale and its standard deviation below 0.1 of full scale.
pub open spec fn is_wildcard(img: Raster, cell: Rect) -> bool {
    let st = stats_of(img, corner_of(cell));
    st.mean_ratio().above(80, 100) && st.deviation_under(1)
}

/// The region of a tile in which its letter is matched: the cell in black
/// and white, brought to the size of a tile of the board when it is wider,
/// and of that the inner part.  There is none when the cell is too small to
/// hold the inner part.
pub open spec fn tile_area(img: Raster, cell: Rect) -> Option<Raster> {
    let tile = binarized(cropped(img, cell), THRESHOLD);
    if cell.width > TILE_SIZE {
        if cell.height == 0 {
            None
        } else {
            Some(
                cropped(
                    Raster {
                        width: TILE_SIZE,
                        height: TILE_SIZE,
                        data: lanczos3(
                            tile.data,
                            cell.width as int,
                            cell.height as int,
                            TILE_SIZE as int,
                            TILE_SIZE as int,
                        ),
                    },
                    tile_region(),
                ),
            )
        }
    } else if cell.width >= 46 && cell.height >= 65 {
        Some(cropped(tile, tile_region()))
    } else {
        None
    }
}

/// The region of a square in which its bonus marking is matched.  There is
/// none when the cell is too small to hold it.
pub open spec fn bonus_area(img: Raster, cell: Rect) -> Option<Raster> {
    if cell.width >= 56 && cell.height >= 49 {
        Some(cropped(cropped(img, cell), bonus_region()))
    } else {
        None
    }
}

/// What reading a cell gives, as a mathematical value.
pub struct ReadingModel {
    /// The symbol that is entered in the grid.
    pub symbol: Seq<char>,
    /// The tag that is entered in the statistics.
    pub tag: Seq<char>,
    /// The score of the match.
    pub score: u32,
    /// The place of the match.
    pub location: (u32, u32),
}

/// What reading a cell gives.
#[derive(Debug)]
pub struct CellReading {
    /// The symbol that is entered in the grid.
    pub symbol: String,
    /// The tag that is entered in the statistics.
    pub tag: String,
    /// The score of the match.
    pub score: u32,
    /// The place of the match.
    pub location: (u32, u32),
}

impl View for CellReading {
    type V = ReadingModel;

    open spec fn view(&self) -> ReadingModel {
        ReadingModel {
            symbol: self.symbol@,
            tag: self.tag@,
            score: self.score,
            location: self.location,
        }
    }
}

/// What a tile reads as.  A blank tile reads as `*` without any matching.
/// Any other tile reads as the label of the template that matches its
/// region best: in lowercase, or as the label stands when the tile is a
/// wildcard.  A tile without a region or without a match cannot be read.
pub open spec fn tile_reading(img: Raster, cell: Rect, templates: Seq<(String, GrayImage)>) -> Option<
    ReadingModel,
> {
    if is_blank(img, cell) {
        Some(ReadingModel { symbol: "*"@, tag: "*"@, score: 0, location: (0, 0) })
    } else {
        match tile_area(img, cell) {
            None => None,
            Some(area) => match match_of(area, templates) {
                None => None,
                Some(m) => Some(
                    ReadingModel {
                        symbol: if is_wildcard(img, cell) {
                            m.label
                        } else {
                            lowercase(m.label)
                        },
                        tag: m.label,
                        score: m.score,
                        location: m.location,
                    },
                ),
            },
        }
    }
}

/// What a bonus square reads as: the label, in lowercase, of the template
/// that matches its region best.
pub open spec fn bonus_reading(img: Raster, cell: Rect, templates: Seq<(String, GrayImage)>) -> Option<
    ReadingModel,
> {
    match bonus_area(img, cell) {
        None => None,
        Some(area) => match match_of(area, templates) {
            None => None,
            Some(m) => Some(
                ReadingModel {
                    symbol: lowercase(m.label),
                    tag: lowercase(m.label),
                    score: m.score,
                    location: m.location,
                },
            ),
        },
    }
}

/// What a cell reads as: as a bonus square when `bonus` is set, else as a
/// tile.
pub open spec fn cell_reading(
    img: Raster,
    cell: Rect,
    templates: Seq<(String, GrayImage)>,
    bonus: bool,
) -> Option<ReadingModel> {
    if bonus {
        bonus_reading(img, cell, templates)
    } else {
        tile_reading(img, cell, templates)
    }
}

/// Cuts the region of a tile in which its letter is matched.
pub fn tile_interior(img: &GrayImage, cell: Rect) -> (r: Option<GrayImage>)
    requires
        img.wf(),
        img@.holds(cell),
    ensures
        match r {
            Some(area) => tile_area(img@, cell) == Some(area@) && area.wf(),
            None => tile_area(img@, cell) is None,
        },
{
    let region = Rect { x: 6, y: 3, width: 40, height: 62 };
    if cell.width > TILE_SIZE {
        if cell.height == 0 {
            return None;
        }
        let tile = img.crop(cell).binarize(THRESHOLD);
        let resized = resize_lanczos3(&tile, TILE_SIZE, TILE_SIZE);
        Some(resized.crop(region))
    } else if cell.width >= 46 && cell.height >= 65 {
        let tile = img.crop(cell).binarize(THRESHOLD);
        Some(tile.crop(region))
    } else {
        None
    }
}

/// Cuts the region of a square in which its bonus marking is matched.
pub fn bonus_interior(img: &GrayImage, cell: Rect) -> (r: Option<GrayImage>)
    requires
        img.wf(),
        img@.holds(cell),
    ensures
        match r {
            Some(area) => bonus_area(img@, cell) == Some(area@) && area.wf(),
            None => bonus_area(img@, cell) is None,
        },
{
    if cell.width >= 56 && cell.height >= 49 {
        let tile = img.crop(cell);
        Some(tile.crop(Rect { x: 8, y: 21, width: 48, height: 28 }))
    } else {
        None
    }
}

/// Reads a tile.
pub fn read_tile(
    img: &GrayImage,
    layout: &Layout,
    cell: Rect,
    templates: &Vec<(String, GrayImage)>,
) -> (r: Option<CellReading>)
    requires
        img.wf(),
        layout.wf(),
        layout.raster() == img@,
        img@.holds(cell),
        templates_usable(templates@),
    ensures
        match r {
            Some(reading) => tile_reading(img@, cell, templates@) == Some(reading@),
            None => tile_reading(img@, cell, templates@) is None,
        },
{
    let st = layout.area_stats(&cell);
    if st.mean_exceeds(90) && st.deviation_below(2) {
        return Some(
            CellReading {
                symbol: String::from_str("*"),
                tag: String::from_str("*"),
                score: 0,
                location: (0, 0),
            },
        );
    }
    let corner = topright(cell);
    let cst = layout.area_stats(&corner);
    let wildcard: bool = cst.mean_exceeds(80) && cst.deviation_below(1);
    match tile_interior(img, cell) {
        None => None,
        Some(area) => match match_template(&area, templates) {
            None => None,
            Some(m) => {
                let symbol: String = if wildcard {
                    m.0.clone()
                } else {
                    to_lowercase(&m.0)
                };
                Some(CellReading { symbol, tag: m.0, score: m.1, location: m.2 })
            },
        },
    }
}

/// Reads a bonus square.
pub fn read_bonus(img: &GrayImage, cell: Rect, templates: &Vec<(String, GrayImage)>) -> (r: Option<
    CellReading,
>)
    requires
        img.wf(),
        img@.holds(cell),
        templates_usable(templates@),
    ensures
        match r {
            Some(reading) => bonus_reading(img@, cell, templates@) == Some(reading@),
            None => bonus_reading(img@, cell, templates@) is None,
        },
{
    match bonus_interior(img, cell) {
        None => None,
        Some(area) => match match_template(&area, templates) {
            None => None,
            Some(m) => {
                let symbol: String = to_lowercase(&m.0);
                let tag: String = symbol.clone();
                Some(CellReading { symbol, tag, score: m.1, location: m.2 })
            },
        },
    }
}

/// Recognized symbols, organized as a grid: a list of rows, each a list of
/// symbols.
#[derive(Debug, Clone, Default)]
pub struct Ocr(pub Vec<Vec<String>>);

impl Ocr {
    /// The grid has `rows` rows of `cols` symbols each.
    pub open spec fn shape(&self, rows: int, cols: int) -> bool {
        &&& self.0@.len() == rows
        &&& forall|r: int| 0 <= r < rows ==> (#[trigger] self.0@[r])@.len() == cols
    }

    /// The symbol in row `r` and column `c`.
    pub open spec fn cell(&self, r: int, c: int) -> Seq<char> {
        self.0@[r]@[c]@
    }
}

/// What the matcher found for one cell.
#[derive(Debug)]
pub struct OcrStat {
    /// Index of the cell in its grid, row by row.
    pub index: usize,
    /// Label of the template that matched best.
    pub tag: String,
    /// Score of the match: the lowest over all templates and places, as the
    /// bit pattern of a single-precision number.
    pub min_value: u32,
    /// Column and row of the place of the match.
    pub min_value_location: (u32, u32),
}

/// What the matcher found for one cell, as a mathematical value.
pub struct StatModel {
    /// Index of the cell in its grid.
    pub index: usize,
    /// Label of the template that matched best.
    pub tag: Seq<char>,
    /// Score of the match.
    pub min_value: u32,
    /// Place of the match.
    pub min_value_location: (u32, u32),
}

impl View for OcrStat {
    type V = StatModel;

    open spec fn view(&self) -> StatModel {
        StatModel {
            index: self.index,
            tag: self.tag@,
            min_value: self.min_value,
            min_value_location: self.min_value_location,
        }
    }
}

/// The statistics that belong to the reading of the cell with the given
/// index.
pub open spec fn stat_of(index: usize, reading: ReadingModel) -> StatModel {
    StatModel {
        index,
        tag: reading.tag,
        min_value: reading.score,
        min_value_location: reading.location,
    }
}

/// The sentinel of a grid: `--` for a square without a bonus, `.` for a
/// cell without a tile.
pub open spec fn sentinel(bonus: bool) -> Seq<char> {
    if bonus {
        "--"@
    } else {
        "."@
    }
}

/// Every cell that `index` lists can be read.
pub open spec fn all_readable(
    img: Raster,
    cells: Seq<Rect>,
    index: Seq<usize>,
    templates: Seq<(String, GrayImage)>,
    bonus: bool,
) -> bool {
    forall|k: int|
        0 <= k < index.len() ==> cell_reading(
            img,
            cells[#[trigger] index[k] as int],
            templates,
            bonus,
        ) is Some
}

/// The symbol of cell `i` of a grid in which the cells that `index` lists
/// have been read: what the cell reads as when it is listed, else the
/// sentinel.
pub open spec fn symbol_at(
    img: Raster,
    cells: Seq<Rect>,
    index: Seq<usize>,
    n: int,
    templates: Seq<(String, GrayImage)>,
    bonus: bool,
    i: int,
) -> Seq<char> {
    if listed(index, n, i) {
        cell_reading(img, cells[i], templates, bonus).unwrap().symbol
    } else {
        sentinel(bonus)
    }
}

/// Makes a list of `count` copies of a symbol.
fn repeated(symbol: &str, count: usize) -> (v: Vec<String>)
    ensures
        v@.len() == count,
        forall|i: int| 0 <= i < count ==> (#[trigger] v@[i])@ == symbol@,
{
    let mut v: Vec<String> = Vec::new();
    let mut i: usize = 0;
    while i < count
        invariant
            i <= count,
            v@.len() == i,
            forall|k: int| 0 <= k < i ==> (#[trigger] v@[k])@ == symbol@,
        decreases count - i,
    {
        v.push(String::from_str(symbol));
        i += 1;
    }
    v
}

/// Arranges a list of `rows * cols` symbols as a grid, row by row.
fn into_grid(flat: &Vec<String>, rows: usize, cols: usize) -> (ocr: Ocr)
    requires
        flat@.len() == rows * cols,
    ensures
        ocr.shape(rows as int, cols as int),
        forall|r: int, c: int|
            0 <= r < rows && 0 <= c < cols ==> #[trigger] ocr.cell(r, c) == flat@[r * cols + c]@,
{
    let mut grid: Vec<Vec<String>> = Vec::new();
    let mut r: usize = 0;
    let mut k: usize = 0;
    let n: usize = flat.len();
    while r < rows
        invariant
            flat@.len() == rows * cols,
            n == rows * cols,
            r <= rows,
            k == r * cols,
            grid@.len() == r,
            forall|a: int| 0 <= a < r ==> (#[trigger] grid@[a])@.len() == cols,
            forall|a: int, c: int|
                0 <= a < r && 0 <= c < cols ==> (#[trigger] grid@[a]@[c])@ == flat@[a * cols + c]@,
        decreases rows - r,
    {
        let mut row: Vec<String> = Vec::new();
        let mut c: usize = 0;
        proof {
            assert((r + 1) * cols == r * cols + cols) by (nonlinear_arith);
            assert((r + 1) * cols <= rows * cols) by (nonlinear_arith)
                requires
                    r + 1 <= rows,
                    0 <= cols,
            ;
        }
        while c < cols
            invariant
                flat@.len() == rows * cols,
                n == rows * cols,
                r < rows,
                c <= cols,
                k == r * cols + c,
                r * cols + cols <= rows * cols,
                row@.len() == c,
                forall|b: int| 0 <= b < c ==> (#[trigger] row@[b])@ == flat@[r * cols + b]@,
            decreases cols - c,
        {
            row.push(flat[k].clone());
            c += 1;
            k += 1;
        }
        grid.push(row);
        r += 1;
    }
    Ocr(grid)
}

/// Reads the cells that `index` lists and enters what they read as in a
/// list of `total` symbols that otherwise holds the sentinel.  Gives that
/// list and the statistics of the cells read, in the order of `index`, or
/// `None` when one of the cells cannot be read.
fn read_cells(
    img: &GrayImage,
    layout: &Layout,
    index: &Vec<usize>,
    cells: &Vec<Rect>,
    templates: &Vec<(String, GrayImage)>,
    total: usize,
    bonus: bool,
) -> (r: Option<(Vec<String>, Vec<OcrStat>)>)
    requires
        img.wf(),
        layout.wf(),
        layout.raster() == img@,
        templates_usable(templates@),
        forall|i: int| 0 <= i < cells@.len() ==> img@.holds(#[trigger] cells@[i]),
        forall|k: int| 0 <= k < index@.len() ==> #[trigger] index@[k] < cells@.len() && index@[k] < total,
    ensures
        r is Some <==> all_readable(img@, cells@, index@, templates@, bonus),
        r matches Some((flat, stats)) ==> {
            &&& flat@.len() == total
            &&& forall|i: int|
                0 <= i < total ==> (#[trigger] flat@[i])@ == symbol_at(
                    img@,
                    cells@,
                    index@,
                    index@.len() as int,
                    templates@,
                    bonus,
                    i,
                )
            &&& stats@.len() == index@.len()
            &&& forall|k: int|
                0 <= k < index@.len() ==> (#[trigger] stats@[k])@ == stat_of(
                    index@[k],
                    cell_reading(img@, cells@[index@[k] as int], templates@, bonus).unwrap(),
                )
        },
{
    let mut flat: Vec<String> = if bonus {
        repeated("--", total)
    } else {
        repeated(".", total)
    };
    let mut stats: Vec<OcrStat> = Vec::new();
    let mut j: usize = 0;
    while j < index.len()
        invariant
            img.wf(),
            layout.wf(),
            layout.raster() == img@,
            templates_usable(templates@),
            forall|i: int| 0 <= i < cells@.len() ==> img@.holds(#[trigger] cells@[i]),
            forall|k: int|
                0 <= k < index@.len() ==> #[trigger] index@[k] < cells@.len() && index@[k] < total,
            j <= index@.len(),
            flat@.len() == total,
            forall|k: int|
                0 <= k < j ==> cell_reading(
                    img@,
                    cells@[#[trigger] index@[k] as int],
                    templates@,
                    bonus,
                ) is Some,
            forall|i: int|
                0 <= i < total ==> (#[trigger] flat@[i])@ == symbol_at(
                    img@,
                    cells@,
                    index@,
                    j as int,
                    templates@,
                    bonus,
                    i,
                ),
            stats@.len() == j,
            forall|k: int|
                0 <= k < j ==> (#[trigger] stats@[k])@ == stat_of(
                    index@[k],
                    cell_reading(img@, cells@[index@[k] as int], templates@, bonus).unwrap(),
                ),
        decreases index@.len() - j,
    {
        let i: usize = index[j];
        let cell: Rect = cells[i];
        assert(img@.holds(cells@[i as int]));
        let reading = if bonus {
            read_bonus(img, cell, templates)
        } else {
            read_tile(img, layout, cell, templates)
        };
        match reading {
            None => {
                assert(cell_reading(img@, cells@[index@[j as int] as int], templates@, bonus) is None);
                return None;
            },
            Some(found) => {
                let ghost before = flat@;
                let ghost model = found@;
                flat.set(i, found.symbol);
                stats.push(
                    OcrStat {
                        index: i,
                        tag: found.tag,
                        min_value: found.score,
                        min_value_location: found.location,
                    },
                );
                proof {
                    assert forall|a: int| 0 <= a < total implies (#[trigger] flat@[a])@
                        == symbol_at(img@, cells@, index@, j + 1, templates@, bonus, a) by {
                        if a == i {
                            assert(index@[j as int] == a);
                            assert(listed(index@, j + 1, a));
                        } else {
                            assert(flat@[a] == before[a]);
                            if listed(index@, j as int, a) {
                                let k = choose|k: int| 0 <= k < j && #[trigger] index@[k] == a;
                                assert(0 <= k < j + 1 && index@[k] == a);
                                assert(listed(index@, j + 1, a));
                            } else {
                                if listed(index@, j + 1, a) {
                                    let k = choose|k: int|
                                        0 <= k < j + 1 && #[trigger] index@[k] == a;
                                    assert(k < j);
                                    assert(listed(index@, j as int, a));
                                }
                            }
                        }
                    }
                }
            },
        }
        j += 1;
    }
    Some((flat, stats))
}

/// A square of the board may carry a bonus marking when it is not the
/// start square and its mean is neither above the occupancy threshold, where
/// a tile lies, nor below the background level.
pub open spec fn is_bonus_candidate(img: Raster, cell: Rect, i: int) -> bool {
    let mean = stats_of(img, cell).mean_ratio();
    i != START_SQUARE && !mean.above(THRESHOLD as int, 100) && !mean.under(BACKGROUND as int, 100)
}

/// For each square, whether it may carry a bonus marking.
pub open spec fn bonus_flags(img: Raster, cells: Seq<Rect>) -> Seq<bool> {
    Seq::new(cells.len(), |i: int| is_bonus_candidate(img, cells[i], i))
}

/// The indices of the squares that may carry a bonus marking, in increasing
/// order.
pub open spec fn bonus_candidates(img: Raster, cells: Seq<Rect>) -> Seq<usize> {
    selected(bonus_flags(img, cells), cells.len() as int)
}

/// The symbol of square `i` of the bonus grid: `ss` on the start square,
/// what the square reads as where it may carry a marking, else `--`.
pub open spec fn bonus_symbol(
    img: Raster,
    cells: Seq<Rect>,
    templates: Seq<(String, GrayImage)>,
    i: int,
) -> Seq<char> {
    if i == START_SQUARE {
        "ss"@
    } else if is_bonus_candidate(img, cells[i], i) {
        bonus_reading(img, cells[i], templates).unwrap().symbol
    } else {
        "--"@
    }
}

/// The statistics of the cells that `index` lists, in that order.
pub open spec fn stats_match(
    stats: Seq<OcrStat>,
    img: Raster,
    cells: Seq<Rect>,
    index: Seq<usize>,
    templates: Seq<(String, GrayImage)>,
    bonus: bool,
) -> bool {
    &&& stats.len() == index.len()
    &&& forall|k: int|
        0 <= k < index.len() ==> (#[trigger] stats[k])@ == stat_of(
            index[k],
            cell_reading(img, cells[index[k] as int], templates, bonus).unwrap(),
        )
}

/// Every cell lies inside the raster.
pub open spec fn all_inside(img: Raster, cells: Seq<Rect>) -> bool {
    forall|i: int| 0 <= i < cells.len() ==> img.holds(#[trigger] cells[i])
}

/// Tells whether every cell lies inside the raster.
pub fn cells_inside(img: &GrayImage, cells: &Vec<Rect>) -> (r: bool)
    ensures
        r == all_inside(img@, cells@),
{
    let mut i: usize = 0;
    while i < cells.len()
        invariant
            i <= cells@.len(),
            forall|k: int| 0 <= k < i ==> img@.holds(#[trigger] cells@[k]),
        decreases cells@.len() - i,
    {
        if !cells[i].fits_in(img.width, img.height) {
            assert(!img@.holds(cells@[i as int]));
            return false;
        }
        i += 1;
    }
    true
}

/// Tells whether a list of templates can be used: every bitmap is a
/// well-formed raster that is not empty, and all have the same size.
pub fn templates_are_usable(templates: &Vec<(String, GrayImage)>) -> (r: bool)
    ensures
        r == templates_usable(templates@),
{
    let mut i: usize = 0;
    while i < templates.len()
        invariant
            i <= templates@.len(),
            forall|k: int|
                0 <= k < i ==> {
                    &&& (#[trigger] templates@[k]).1.wf()
                    &&& templates@[k].1.width > 0
                    &&& templates@[k].1.height > 0
                    &&& templates@[k].1.width == templates@[0].1.width
                    &&& templates@[k].1.height == templates@[0].1.height
                },
        decreases templates@.len() - i,
    {
        let t = &templates[i].1;
        let first = &templates[0].1;
        if !t.is_valid() || t.width == 0 || t.height == 0 || t.width != first.width || t.height
            != first.height {
            assert(!{
                &&& templates@[i as int].1.wf()
                &&& templates@[i as int].1.width > 0
                &&& templates@[i as int].1.height > 0
                &&& templates@[i as int].1.width == templates@[0].1.width
                &&& templates@[i as int].1.height == templates@[0].1.height
            });
            return false;
        }
        i += 1;
    }
    true
}

/// The result of reading a screenshot.
#[derive(Debug)]
pub struct OcrResults {
    /// The tiles on the board, fifteen rows of fifteen symbols.
    pub tiles_ocr: Ocr,
    /// The bonus squares of the board, fifteen rows of fifteen symbols.
    pub grid_ocr: Ocr,
    /// The tiles on the rack, one row of seven symbols.
    pub rack_ocr: Ocr,
    /// What the matcher found for the tiles on the board.
    pub tiles_stats: Vec<OcrStat>,
    /// What the matcher found for the bonus squares.
    pub grid_stats: Vec<OcrStat>,
    /// What the matcher found for the tiles on the rack.
    pub rack_stats: Vec<OcrStat>,
    /// The board.
    pub board_area: Rect,
    /// The rack.
    pub rack_area: Rect,
}

/// The cells of the board of a layout.
pub open spec fn board_cells(m: LayoutModel) -> Seq<Rect> {
    grid_cells(m.rows, m.cols)
}

/// The cells of the rack of a layout.
pub open spec fn rack_cells(m: LayoutModel) -> Seq<Rect> {
    grid_cells(m.rack_rows, m.rack_cols)
}

/// Every cell of the layout lies inside the screenshot, and every cell that
/// has to be read can be read.
pub open spec fn layout_readable(
    img: Raster,
    m: LayoutModel,
    templates: Seq<(String, GrayImage)>,
    bonus_templates: Seq<(String, GrayImage)>,
) -> bool {
    &&& all_inside(img, board_cells(m))
    &&& all_readable(
        img,
        board_cells(m),
        occupied_indices(img, board_cells(m)),
        templates,
        false,
    )
    &&& all_readable(
        img,
        board_cells(m),
        bonus_candidates(img, board_cells(m)),
        bonus_templates,
        true,
    )
    &&& all_inside(img, rack_cells(m))
    &&& all_readable(
        img,
        rack_cells(m),
        all_indices(rack_cells(m).len() as int),
        templates,
        false,
    )
}

/// Why a screenshot cannot be read, if it cannot: the reason why it has no
/// layout, or that a cell of its layout cannot be read.
pub open spec fn failure(
    img: Raster,
    templates: Seq<(String, GrayImage)>,
    bonus_templates: Seq<(String, GrayImage)>,
) -> Option<Error> {
    match segmentation(img) {
        Err(e) => Some(e),
        Ok(m) => if layout_readable(img, m, templates, bonus_templates) {
            None
        } else {
            Some(Error::CellUnreadable)
        },
    }
}

/// The symbol of cell `i` of a grid of tiles: what the cell reads as when
/// it shows a tile, else `.`.
pub open spec fn tile_symbol(
    img: Raster,
    cells: Seq<Rect>,
    templates: Seq<(String, GrayImage)>,
    i: int,
) -> Seq<char> {
    if 0 <= i < cells.len() && occupied(img, cells[i]) {
        tile_reading(img, cells[i], templates).unwrap().symbol
    } else {
        "."@
    }
}

/// The symbol of place `i` of the rack: what cell `i` reads as when there
/// is one, else `.`.
pub open spec fn rack_symbol(
    img: Raster,
    cells: Seq<Rect>,
    templates: Seq<(String, GrayImage)>,
    i: int,
) -> Seq<char> {
    if 0 <= i < cells.len() {
        tile_reading(img, cells[i], templates).unwrap().symbol
    } else {
        "."@
    }
}

impl OcrResults {
    /// The result is what reading the screenshot `img` with the given
    /// templates gives: the areas of its layout, the three grids with the
    /// symbol of every cell, and what the matcher found for every cell read.
    pub open spec fn reads(
        &self,
        img: Raster,
        templates: Seq<(String, GrayImage)>,
        bonus_templates: Seq<(String, GrayImage)>,
    ) -> bool {
        let m = layout_of(img);
        &&& self.board_area == m.board_area
        &&& self.rack_area == m.rack_area
        &&& self.tiles_ocr.shape(15, 15)
        &&& self.grid_ocr.shape(15, 15)
        &&& self.rack_ocr.shape(1, 7)
        &&& forall|a: int, c: int|
            0 <= a < 15 && 0 <= c < 15 ==> #[trigger] self.tiles_ocr.cell(a, c) == tile_symbol(
                img,
                board_cells(m),
                templates,
                a * 15 + c,
            )
        &&& forall|a: int, c: int|
            0 <= a < 15 && 0 <= c < 15 ==> #[trigger] self.grid_ocr.cell(a, c) == bonus_symbol(
                img,
                board_cells(m),
                bonus_templates,
                a * 15 + c,
            )
        &&& forall|c: int|
            0 <= c < 7 ==> #[trigger] self.rack_ocr.cell(0, c) == rack_symbol(
                img,
                rack_cells(m),
                templates,
                c,
            )
        &&& stats_match(
            self.tiles_stats@,
            img,
            board_cells(m),
            occupied_indices(img, board_cells(m)),
            templates,
            false,
        )
        &&& stats_match(
            self.grid_stats@,
            img,
            board_cells(m),
            bonus_candidates(img, board_cells(m)),
            bonus_templates,
            true,
        )
        &&& stats_match(
            self.rack_stats@,
            img,
            rack_cells(m),
            all_indices(rack_cells(m).len() as int),
            templates,
            false,
        )
        &&& rack_cells(m).len() <= 7
    }

    /// Two results agree in everything: areas, symbols and what the matcher
    /// found.
    pub open spec fn agrees(&self, other: &OcrResults) -> bool {
        &&& self.board_area == other.board_area
        &&& self.rack_area == other.rack_area
        &&& forall|a: int, c: int|
            0 <= a < 15 && 0 <= c < 15 ==> #[trigger] self.tiles_ocr.cell(a, c)
                == other.tiles_ocr.cell(a, c)
        &&& forall|a: int, c: int|
            0 <= a < 15 && 0 <= c < 15 ==> #[trigger] self.grid_ocr.cell(a, c)
                == other.grid_ocr.cell(a, c)
        &&& forall|c: int| 0 <= c < 7 ==> #[trigger] self.rack_ocr.cell(0, c) == other.rack_ocr.cell(0, c)
        &&& self.tiles_stats@.len() == other.tiles_stats@.len()
        &&& forall|k: int|
            0 <= k < self.tiles_stats@.len() ==> (#[trigger] self.tiles_stats@[k])@
                == other.tiles_stats@[k]@
        &&& self.grid_stats@.len() == other.grid_stats@.len()
        &&& forall|k: int|
            0 <= k < self.grid_stats@.len() ==> (#[trigger] self.grid_stats@[k])@
                == other.grid_stats@[k]@
        &&& self.rack_stats@.len() == other.rack_stats@.len()
        &&& forall|k: int|
            0 <= k < self.rack_stats@.len() ==> (#[trigger] self.rack_stats@[k])@
                == other.rack_stats@[k]@
    }
}

/// Reading is a function of the screenshot and the templates: two results
/// of reading the same screenshot with the same templates agree in
/// everything.
pub proof fn lemma_reading_is_determined(
    first: OcrResults,
    second: OcrResults,
    img: Raster,
    templates: Seq<(String, GrayImage)>,
    bonus_templates: Seq<(String, GrayImage)>,
)
    requires
        first.reads(img, templates, bonus_templates),
        second.reads(img, templates, bonus_templates),
    ensures
        first.agrees(&second),
{
    let m = layout_of(img);
    assert forall|k: int| 0 <= k < first.tiles_stats@.len() implies (#[trigger] first.tiles_stats@[k])@
        == second.tiles_stats@[k]@ by {
        assert(second.tiles_stats@[k]@ == stat_of(
            occupied_indices(img, board_cells(m))[k],
            cell_reading(
                img,
                board_cells(m)[occupied_indices(img, board_cells(m))[k] as int],
                templates,
                false,
            ).unwrap(),
        ));
    }
    assert forall|k: int| 0 <= k < first.grid_stats@.len() implies (#[trigger] first.grid_stats@[k])@
        == second.grid_stats@[k]@ by {
        assert(second.grid_stats@[k]@ == stat_of(
            bonus_candidates(img, board_cells(m))[k],
            cell_reading(
                img,
                board_cells(m)[bonus_candidates(img, board_cells(m))[k] as int],
                bonus_templates,
                true,
            ).unwrap(),
        ));
    }
    assert forall|k: int| 0 <= k < first.rack_stats@.len() implies (#[trigger] first.rack_stats@[k])@
        == second.rack_stats@[k]@ by {
        assert(second.rack_stats@[k]@ == stat_of(
            all_indices(rack_cells(m).len() as int)[k],
            cell_reading(
                img,
                rack_cells(m)[all_indices(rack_cells(m).len() as int)[k] as int],
                templates,
                false,
            ).unwrap(),
        ));
    }
}

/// A blank tile reads as `*` with score zero at place zero, whatever the
/// templates are: nothing is matched.
pub proof fn lemma_blank_reads_star(img: Raster, cell: Rect, templates: Seq<(String, GrayImage)>)
    requires
        is_blank(img, cell),
    ensures
        tile_reading(img, cell, templates) == Some(
            ReadingModel { symbol: "*"@, tag: "*"@, score: 0, location: (0, 0) },
        ),
{
}

/// A wildcard that is not blank reads as the label of its best template as
/// that label stands; any other tile that is not blank reads as that label
/// in lowercase.
pub proof fn lemma_wildcard_keeps_label(img: Raster, cell: Rect, templates: Seq<(String, GrayImage)>)
    requires
        !is_blank(img, cell),
        tile_reading(img, cell, templates) is Some,
    ensures
        tile_area(img, cell) is Some,
        match_of(tile_area(img, cell).unwrap(), templates) is Some,
        tile_reading(img, cell, templates).unwrap().tag == match_of(
            tile_area(img, cell).unwrap(),
            templates,
        ).unwrap().label,
        is_wildcard(img, cell) ==> tile_reading(img, cell, templates).unwrap().symbol
            == tile_reading(img, cell, templates).unwrap().tag,
        !is_wildcard(img, cell) ==> tile_reading(img, cell, templates).unwrap().symbol
            == lowercase(tile_reading(img, cell, templates).unwrap().tag),
{
}

/// A template that is matched against itself, with no other template, is
/// found at place zero, and the match carries its label.
pub proof fn lemma_self_match(label: String, template: GrayImage)
    requires
        template.wf(),
        template.width > 0,
        template.height > 0,
    ensures
        match_of(template@, seq![(label, template)]) matches Some(m) && m.label == label@
            && m.location == (0u32, 0u32),
{
    let templates = seq![(label, template)];
    assert(templates[0].1 == template);
    assert(first_min(candidate_scores(template@, templates, 1), 1) == 0);
    let across = template.width - template.width + 1;
    let down = template.height - template.height + 1;
    assert(across * down == 1) by (nonlinear_arith)
        requires
            across == 1,
            down == 1,
    ;
}

/// The recognizer: the templates of the letters and the templates of the
/// bonus markings.
#[derive(Debug, Clone)]
pub struct Board {
    /// Label and bitmap of every letter, in the order in which ties are
    /// decided.
    pub templates: Vec<(String, GrayImage)>,
    /// Label and bitmap of every bonus marking.
    pub bonus_templates: Vec<(String, GrayImage)>,
}

impl Board {
    /// Both lists of templates can be used.
    pub open spec fn wf(&self) -> bool {
        templates_usable(self.templates@) && templates_usable(self.bonus_templates@)
    }

    /// Makes a recognizer from the templates of the letters and of the
    /// bonus markings.  Gives `None` when a bitmap is not a well-formed
    /// raster or is empty, or when the bitmaps of one list differ in size.
    pub fn new(
        templates: Vec<(String, GrayImage)>,
        bonus_templates: Vec<(String, GrayImage)>,
    ) -> (r: Option<Board>)
        ensures
            r is Some <==> templates_usable(templates@) && templates_usable(bonus_templates@),
            r matches Some(b) ==> b.wf() && b.templates@ == templates@ && b.bonus_templates@
                == bonus_templates@,
    {
        if templates_are_usable(&templates) && templates_are_usable(&bonus_templates) {
            Some(Board { templates, bonus_templates })
        } else {
            None
        }
    }

    /// Reads the cells that `tile_index` lists as tiles and enters them in a
    /// grid of `size.0` rows and `size.1` columns, in which every other cell
    /// holds `.`.  Gives the grid and what the matcher found for each cell
    /// read, in the order of `tile_index`.
    ///
    /// Fails when one of the cells cannot be read.
    pub fn recognize_tiles(
        &self,
        img: &GrayImage,
        layout: &Layout,
        tile_index: &Vec<usize>,
        cells: &Vec<Rect>,
        templates: &Vec<(String, GrayImage)>,
        size: (usize, usize),
    ) -> (r: Result<(Ocr, Vec<OcrStat>), Error>)
        requires
            img.wf(),
            layout.wf(),
            layout.raster() == img@,
            templates_usable(templates@),
            all_inside(img@, cells@),
            size.0 * size.1 <= usize::MAX,
            forall|k: int|
                0 <= k < tile_index@.len() ==> #[trigger] tile_index@[k] < cells@.len()
                    && tile_index@[k] < size.0 * size.1,
        ensures
            r is Ok <==> all_readable(img@, cells@, tile_index@, templates@, false),
            r matches Err(e) ==> e == Error::CellUnreadable,
            r matches Ok((ocr, stats)) ==> {
                &&& ocr.shape(size.0 as int, size.1 as int)
                &&& forall|a: int, c: int|
                    0 <= a < size.0 && 0 <= c < size.1 ==> #[trigger] ocr.cell(a, c) == symbol_at(
                        img@,
                        cells@,
                        tile_index@,
                        tile_index@.len() as int,
                        templates@,
                        false,
                        a * size.1 + c,
                    )
                &&& stats_match(stats@, img@, cells@, tile_index@, templates@, false)
            },
    {
        let total: usize = size.0 * size.1;
        match read_cells(img, layout, tile_index, cells, templates, total, false) {
            None => Err(Error::CellUnreadable),
            Some((flat, stats)) => {
                let ocr = into_grid(&flat, size.0, size.1);
                proof {
                    assert forall|a: int, c: int| 0 <= a < size.0 && 0 <= c < size.1 implies #[trigger] ocr.cell(
                        a,
                        c,
                    ) == symbol_at(
                        img@,
                        cells@,
                        tile_index@,
                        tile_index@.len() as int,
                        templates@,
                        false,
                        a * size.1 + c,
                    ) by {
                        lemma_grid_index(size.0 as int, size.1 as int, a, c);
                    }
                }
                Ok((ocr, stats))
            },
        }
    }

    /// Reads the bonus markings of the fifteen by fifteen squares of the
    /// board.  The start square holds `ss`.  A square whose mean shows a
    /// tile or plain background holds `--`.  Every other square is matched
    /// against the templates and holds the label of the best, in lowercase.
    /// Gives the grid and what the matcher found for each square matched, in
    /// increasing order of the squares.
    ///
    /// Fails when one of the squares to be matched cannot be read.
    pub fn recognize_board(
        &self,
        img: &GrayImage,
        layout: &Layout,
        cells: &Vec<Rect>,
        templates: &Vec<(String, GrayImage)>,
    ) -> (r: Result<(Ocr, Vec<OcrStat>), Error>)
        requires
            img.wf(),
            layout.wf(),
            layout.raster() == img@,
            templates_usable(templates@),
            all_inside(img@, cells@),
            cells@.len() == 225,
        ensures
            r is Ok <==> all_readable(
                img@,
                cells@,
                bonus_candidates(img@, cells@),
                templates@,
                true,
            ),
            r matches Err(e) ==> e == Error::CellUnreadable,
            r matches Ok((ocr, stats)) ==> {
                &&& ocr.shape(15, 15)
                &&& forall|a: int, c: int|
                    0 <= a < 15 && 0 <= c < 15 ==> #[trigger] ocr.cell(a, c) == bonus_symbol(
                        img@,
                        cells@,
                        templates@,
                        a * 15 + c,
                    )
                &&& stats_match(
                    stats@,
                    img@,
                    cells@,
                    bonus_candidates(img@, cells@),
                    templates@,
                    true,
                )
            },
    {
        let mut index: Vec<usize> = Vec::new();
        let mut i: usize = 0;
        while i < cells.len()
            invariant
                layout.wf(),
                layout.raster() == img@,
                all_inside(img@, cells@),
                i <= cells@.len(),
                index@ == selected(bonus_flags(img@, cells@), i as int),
            decreases cells@.len() - i,
        {
            let cell = cells[i];
            assert(img@.holds(cells@[i as int]));
            let st = layout.area_stats(&cell);
            if i != START_SQUARE && !st.mean_exceeds(THRESHOLD) && !st.mean_below(BACKGROUND) {
                index.push(i);
            }
            i += 1;
        }
        proof {
            lemma_selected(bonus_flags(img@, cells@), 225);
        }
        match read_cells(img, layout, &index, cells, templates, 225, true) {
            None => Err(Error::CellUnreadable),
            Some((flat, stats)) => {
                let mut flat = flat;
                let ghost before = flat@;
                flat.set(START_SQUARE, String::from_str("ss"));
                let ocr = into_grid(&flat, 15, 15);
                proof {
                    assert forall|a: int, c: int| 0 <= a < 15 && 0 <= c < 15 implies #[trigger] ocr.cell(
                        a,
                        c,
                    ) == bonus_symbol(img@, cells@, templates@, a * 15 + c) by {
                        let i = a * 15 + c;
                        lemma_selected_listed(bonus_flags(img@, cells@), 225, i);
                        if i != START_SQUARE {
                            assert(flat@[i] == before[i]);
                        }
                    }
                }
                Ok((ocr, stats))
            },
        }
    }
}

/// The layout of a screenshot that has one.
pub open spec fn layout_of(img: Raster) -> LayoutModel {
    match segmentation(img) {
        Ok(m) => m,
        Err(_) => arbitrary(),
    }
}

impl Board {
    /// Reads a screenshot: segments it, cuts the board and the rack into
    /// cells, reads the tiles of the board, the bonus squares of the board
    /// and the tiles of the rack, and puts the three grids, what the matcher
    /// found and the areas of board and rack into one result.
    ///
    /// Fails, and gives nothing else, when the screenshot has no layout or
    /// when a cell of the layout cannot be read.
    pub fn recognize_screenshot(&self, screenshot: &GrayImage) -> (r: Result<OcrResults, Error>)
        requires
            self.wf(),
            screenshot.wf(),
        ensures
            match r {
                Err(e) => failure(screenshot@, self.templates@, self.bonus_templates@) == Some(e),
                Ok(res) => failure(screenshot@, self.templates@, self.bonus_templates@) is None
                    && res.reads(screenshot@, self.templates@, self.bonus_templates@),
            },
    {
        let ghost img = screenshot@;
        let layout = match Layout::new(screenshot).segment() {
            Err(e) => {
                return Err(e);
            },
            Ok(l) => l,
        };
        let ghost m = layout.model();
        assert(segmentation(img) == Ok::<LayoutModel, Error>(m));
        proof {
            lemma_widen_spans(layout.rows@, layout.screen.height as int, 0x1_0000_0000);
            lemma_widen_spans(layout.cols@, layout.screen.width as int, 0x1_0000_0000);
            lemma_widen_spans(layout.rack_rows@, layout.screen.height as int, 0x1_0000_0000);
            lemma_widen_spans(layout.rack_cols@, layout.screen.width as int, 0x1_0000_0000);
        }
        let cells = Layout::get_cells(&layout.rows, &layout.cols);
        assert(cells@ == board_cells(m));
        assert(cells@.len() == 225) by {
            assert(layout.rows@.len() * layout.cols@.len() == 225) by (nonlinear_arith)
                requires
                    layout.rows@.len() == 15,
                    layout.cols@.len() == 15,
            ;
        }
        if !cells_inside(screenshot, &cells) {
            return Err(Error::CellUnreadable);
        }
        let tile_index = layout.get_tile_index(&cells);
        proof {
            lemma_selected(occupied_flags(img, cells@), 225);
        }
        let (tiles_ocr, tiles_stats) = match self.recognize_tiles(
            screenshot,
            &layout,
            &tile_index,
            &cells,
            &self.templates,
            (15, 15),
        ) {
            Err(_) => {
                return Err(Error::CellUnreadable);
            },
            Ok(found) => found,
        };
        let (grid_ocr, grid_stats) = match self.recognize_board(
            screenshot,
            &layout,
            &cells,
            &self.bonus_templates,
        ) {
            Err(_) => {
                return Err(Error::CellUnreadable);
            },
            Ok(found) => found,
        };
        let rack = Layout::get_cells(&layout.rack_rows, &layout.rack_cols);
        assert(rack@ == rack_cells(m));
        assert(rack@.len() <= 7) by {
            if layout.rack_cols@.len() > 0 {
                assert(layout.rack_rows@.len() * layout.rack_cols@.len() == layout.rack_cols@.len())
                    by (nonlinear_arith)
                    requires
                        layout.rack_rows@.len() == 1,
                ;
            }
        }
        if !cells_inside(screenshot, &rack) {
            return Err(Error::CellUnreadable);
        }
        let index = index_range(rack.len());
        let rack_size: (usize, usize) = (1, 7);
        assert(rack_size.0 * rack_size.1 == 7) by (nonlinear_arith)
            requires
                rack_size.0 == 1,
                rack_size.1 == 7,
        ;
        let (rack_ocr, rack_stats) = match self.recognize_tiles(
            screenshot,
            &layout,
            &index,
            &rack,
            &self.templates,
            rack_size,
        ) {
            Err(_) => {
                return Err(Error::CellUnreadable);
            },
            Ok(found) => found,
        };
        proof {
            assert forall|a: int, c: int| 0 <= a < 15 && 0 <= c < 15 implies #[trigger] tiles_ocr.cell(
                a,
                c,
            ) == tile_symbol(img, board_cells(m), self.templates@, a * 15 + c) by {
                lemma_selected_listed(occupied_flags(img, cells@), 225, a * 15 + c);
            }
            assert forall|c: int| 0 <= c < 7 implies #[trigger] rack_ocr.cell(0, c) == rack_symbol(
                img,
                rack_cells(m),
                self.templates@,
                c,
            ) by {
                lemma_all_listed(rack@.len() as int, c);
                assert(0 * 7 + c == c);
            }
        }
        Ok(
            OcrResults {
                tiles_ocr,
                grid_ocr,
                rack_ocr,
                tiles_stats,
                grid_stats,
                rack_stats,
                board_area: layout.board_area,
                rack_area: layout.rack_area,
            },
        )
    }
}

/// Intervals that end before one limit end before any greater limit.
pub proof fn lemma_widen_spans(spans: Seq<(usize, usize)>, limit: int, wider: int)
    requires
        spans_valid(spans, limit),
        limit <= wider,
    ensures
        spans_valid(spans, wider),
{
    assert forall|k: int| 0 <= k < spans.len() implies (#[trigger] spans[k]).0 <= spans[k].1
        < wider by {
        assert(spans[k].0 <= spans[k].1 < limit);
    }
}

/// The cell in row `a` and column `c` of a grid has an index inside the
/// grid.
pub proof fn lemma_grid_index(rows: int, cols: int, a: int, c: int)
    requires
        0 <= a < rows,
        0 <= c < cols,
    ensures
        0 <= a * cols + c < rows * cols,
{
    assert(0 <= a * cols) by (nonlinear_arith)
        requires
            0 <= a,
            0 <= cols,
    ;
    assert(a * cols + cols <= rows * cols) by (nonlinear_arith)
        requires
            a + 1 <= rows,
            0 <= cols,
    ;
}

} // verus!
