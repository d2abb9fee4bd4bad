//! The cursor of the one-dimensional segmentation passes and the rules by
//! which it advances over an intensity profile.

use vstd::prelude::*;

verus! {

/// Position of a segmentation pass within the screenshot.
///
/// The variants are listed in the order in which a pass over the row profile
/// visits them; a pass never returns to a variant it has left.
#[derive(Debug, Clone, Copy, PartialEq, Eq, Structural)]
pub enum Segment {
    /// Counting rows of the border above the board; holds the rows counted.
    LookForTopBorder(usize),
    /// Inside the border above the board.
    InTopBorder,
    /// In the grout before the tile interval with the given number.
    LookForRisingEdge(usize),
    /// Inside the tile interval with the given number.
    InTile(usize),
    /// Counting rows of the border below the board; holds the rows counted.
    LookForBottomBorder(usize),
    /// Inside the border below the board.
    InBottomBorder,
    /// In the uniform area between the board and the rack.
    LookForRack,
    /// Inside the rack.
    InRack,
    /// The pass has found everything it looks for.
    Done,
}

/// Distance between two intensity levels.
pub open spec fn level_distance(a: int, b: int) -> int {
    if a >= b {
        a - b
    } else {
        b - a
    }
}

/// Tells whether `a` lies within `tol` levels of `b`, both ends included.
pub fn close(a: u32, b: u32, tol: u32) -> (r: bool)
    ensures
        r == (level_distance(a as int, b as int) <= tol),
{
    if a >= b {
        a - b <= tol
    } else {
        b - a <= tol
    }
}

/// Mean level of the borders above and below the board.
pub const BORDER_LEVEL: u32 = 51;

/// Mean level of the grout between tiles.
pub const GROUT_LEVEL: u32 = 24;

/// Tolerance, in levels, of the pass over rows.
pub const ROW_TOLERANCE: u32 = 2;

/// Tolerance, in levels, of the passes over columns.
pub const COLUMN_TOLERANCE: u32 = 5;

/// Number of rows and of columns of the board.
pub const BOARD_SIZE: usize = 15;

/// Largest number of tiles on the rack.
pub const RACK_SIZE: usize = 7;

/// Level above which a column of the board belongs to a tile, less the
/// tolerance.
pub const BOARD_COLUMN_LEVEL: u32 = 24;

/// Level above which a column of the rack belongs to a tile, less the
/// tolerance.
pub const RACK_COLUMN_LEVEL: u32 = 48;

/// What a pass has found so far, as a mathematical value.
pub struct ScanModel {
    /// The cursor.
    pub state: Segment,
    /// First and last index of each interval found; the last index of an
    /// interval that is still open is zero.
    pub spans: Seq<(usize, usize)>,
    /// Index at which the rack starts, once found.
    pub rack_y: usize,
    /// Number of profile entries that the rack covers, once found.
    pub rack_height: usize,
}

/// What a pass has found so far.
#[derive(Debug)]
pub struct Scan {
    /// The cursor.
    pub state: Segment,
    /// First and last index of each interval found; the last index of an
    /// interval that is still open is zero.
    pub spans: Vec<(usize, usize)>,
    /// Index at which the rack starts, once found.
    pub rack_y: usize,
    /// Number of profile entries that the rack covers, once found.
    pub rack_height: usize,
}

impl View for Scan {
    type V = ScanModel;

    open spec fn view(&self) -> ScanModel {
        ScanModel {
            state: self.state,
            spans: self.spans@,
            rack_y: self.rack_y,
            rack_height: self.rack_height,
        }
    }
}

impl ScanModel {
    /// The same findings with another cursor.
    pub open spec fn at(self, state: Segment) -> ScanModel {
        ScanModel { state, ..self }
    }

    /// The findings with a new interval opened at index `i`.
    pub open spec fn opened(self, i: int, state: Segment) -> ScanModel {
        ScanModel { state, spans: self.spans.push((i as usize, 0usize)), ..self }
    }

    /// The findings with interval `n` closed before index `i`.
    pub open spec fn closed(self, n: int, i: int, state: Segment) -> ScanModel {
        ScanModel {
            state,
            spans: self.spans.update(n, (self.spans[n].0, (i - 1) as usize)),
            ..self
        }
    }
}

/// Where every pass over rows starts.
pub open spec fn row_start() -> ScanModel {
    ScanModel { state: Segment::LookForTopBorder(0), spans: Seq::empty(), rack_y: 0, rack_height: 0 }
}

/// Where every pass over columns starts.
pub open spec fn column_start() -> ScanModel {
    ScanModel { state: Segment::LookForRisingEdge(0), spans: Seq::empty(), rack_y: 0, rack_height: 0 }
}

/// A profile entry that looks like a border: mean near the border level and
/// low variance.
pub open spec fn border_like(mean: u32, var: u32) -> bool {
    level_distance(mean as int, BORDER_LEVEL as int) <= ROW_TOLERANCE && var < 25
}

/// A profile entry whose mean is near the grout level, within `tol`.
pub open spec fn grout_like(mean: u32, tol: u32) -> bool {
    level_distance(mean as int, GROUT_LEVEL as int) <= tol
}

/// One step of the pass over rows: the findings after profile entry `i`,
/// which has the given mean and variance.
pub open spec fn row_step(s: ScanModel, i: int, mean: u32, var: u32) -> ScanModel {
    match s.state {
        Segment::LookForTopBorder(n) => {
            if n > 3 {
                s.at(Segment::InTopBorder)
            } else if border_like(mean, var) {
                s.at(Segment::LookForTopBorder((n + 1) as usize))
            } else {
                s
            }
        },
        Segment::InTopBorder => {
            if grout_like(mean, ROW_TOLERANCE) {
                s.at(Segment::LookForRisingEdge(0))
            } else {
                s
            }
        },
        Segment::LookForRisingEdge(n) => {
            if mean > GROUT_LEVEL + ROW_TOLERANCE {
                s.opened(i, Segment::InTile(n))
            } else {
                s
            }
        },
        Segment::InTile(n) => {
            if grout_like(mean, ROW_TOLERANCE) {
                if n < 14 {
                    s.closed(n as int, i, Segment::LookForRisingEdge((n + 1) as usize))
                } else {
                    s.closed(n as int, i, Segment::LookForBottomBorder(0))
                }
            } else {
                s
            }
        },
        Segment::LookForBottomBorder(n) => {
            if n > 5 {
                s.at(Segment::InBottomBorder)
            } else if border_like(mean, var) {
                s.at(Segment::LookForBottomBorder((n + 1) as usize))
            } else {
                s
            }
        },
        Segment::InBottomBorder => {
            if grout_like(mean, ROW_TOLERANCE) && var < 10 {
                s.at(Segment::LookForRack)
            } else {
                s
            }
        },
        Segment::LookForRack => {
            if var > 100 {
                ScanModel { state: Segment::InRack, rack_y: i as usize, ..s }
            } else {
                s
            }
        },
        Segment::InRack => {
            if grout_like(mean, ROW_TOLERANCE) && var == 0 {
                ScanModel { state: Segment::Done, rack_height: (i - s.rack_y) as usize, ..s }
            } else {
                s
            }
        },
        Segment::Done => s,
    }
}

/// One step of a pass over columns that looks for at most `maxcols`
/// intervals whose mean rises above `level` by more than the tolerance.
pub open spec fn column_step(s: ScanModel, i: int, mean: u32, level: u32, maxcols: usize) -> ScanModel {
    match s.state {
        Segment::LookForRisingEdge(n) => {
            if mean > level + COLUMN_TOLERANCE {
                s.opened(i, Segment::InTile(n))
            } else {
                s
            }
        },
        Segment::InTile(n) => {
            if grout_like(mean, COLUMN_TOLERANCE) {
                if n + 1 < maxcols {
                    s.closed(n as int, i, Segment::LookForRisingEdge((n + 1) as usize))
                } else {
                    s.closed(n as int, i, Segment::Done)
                }
            } else {
                s
            }
        },
        _ => s,
    }
}

/// The findings of the pass over rows after the first `n` entries of
/// `profile`.
pub open spec fn row_scan(profile: Seq<(u32, u32)>, n: int) -> ScanModel
    decreases n,
{
    if n <= 0 {
        row_start()
    } else {
        row_step(row_scan(profile, n - 1), n - 1, profile[n - 1].0, profile[n - 1].1)
    }
}

/// The findings of a pass over columns after the first `n` entries of
/// `profile`.
pub open spec fn column_scan(profile: Seq<(u32, u32)>, level: u32, maxcols: usize, n: int) -> ScanModel
    decreases n,
{
    if n <= 0 {
        column_start()
    } else {
        column_step(
            column_scan(profile, level, maxcols, n - 1),
            n - 1,
            profile[n - 1].0,
            level,
            maxcols,
        )
    }
}

/// Place of a cursor in the order in which a pass visits the cursors.
pub open spec fn rank(state: Segment) -> (int, int) {
    match state {
        Segment::LookForTopBorder(n) => (0, n as int),
        Segment::InTopBorder => (1, 0),
        Segment::LookForRisingEdge(n) => (2, 2 * n),
        Segment::InTile(n) => (2, 2 * n + 1),
        Segment::LookForBottomBorder(n) => (3, n as int),
        Segment::InBottomBorder => (4, 0),
        Segment::LookForRack => (5, 0),
        Segment::InRack => (6, 0),
        Segment::Done => (7, 0),
    }
}

/// `a` comes no later than `b` in the order of the cursors.
pub open spec fn not_after(a: Segment, b: Segment) -> bool {
    rank(a).0 < rank(b).0 || (rank(a).0 == rank(b).0 && rank(a).1 <= rank(b).1)
}

/// The first `closed` intervals are complete, in increasing order and apart
/// from each other, and every interval starts before index `i`.
pub open spec fn spans_ordered(spans: Seq<(usize, usize)>, closed: int, i: int) -> bool {
    &&& forall|k: int| 0 <= k < spans.len() ==> (#[trigger] spans[k]).0 < i
    &&& forall|k: int| 0 <= k < closed && k < spans.len() ==> (#[trigger] spans[k]).0 <= spans[k].1 < i
    &&& forall|k: int|
        0 <= k < closed && k + 1 < spans.len() ==> (#[trigger] spans[k]).1 < spans[k + 1].0
}

/// What holds of the findings of a pass that has read `i` profile entries
/// and looks for at most `max` intervals.
pub open spec fn scan_inv(s: ScanModel, i: int, max: int) -> bool {
    match s.state {
        Segment::LookForTopBorder(n) => n <= 4 && s.spans.len() == 0,
        Segment::InTopBorder => s.spans.len() == 0,
        Segment::LookForRisingEdge(n) => n < max && s.spans.len() == n && spans_ordered(
            s.spans,
            n as int,
            i,
        ),
        Segment::InTile(n) => n < max && s.spans.len() == n + 1 && spans_ordered(
            s.spans,
            n as int,
            i,
        ),
        Segment::LookForBottomBorder(n) => n <= 6 && s.spans.len() == max && spans_ordered(
            s.spans,
            max,
            i,
        ),
        Segment::InBottomBorder => s.spans.len() == max && spans_ordered(s.spans, max, i),
        Segment::LookForRack => s.spans.len() == max && spans_ordered(s.spans, max, i),
        Segment::InRack => s.spans.len() == max && spans_ordered(s.spans, max, i) && s.rack_y < i
            && (max > 0 ==> s.spans[max - 1].1 < s.rack_y),
        Segment::Done => 1 <= s.spans.len() <= max && spans_ordered(s.spans, max, i),
    }
}

/// What holds in addition once the pass over rows is done: the rack lies
/// below the board and inside the profile.
pub open spec fn rack_found(s: ScanModel, i: int) -> bool {
    s.state == Segment::Done ==> s.spans.len() == 15 && s.spans[14].1 < s.rack_y && s.rack_height
        >= 1 && s.rack_y + s.rack_height < i
}

/// A step of the pass over rows never moves the cursor backwards.
pub proof fn lemma_row_step_forward(s: ScanModel, i: int, mean: u32, var: u32)
    requires
        scan_inv(s, i, 15),
    ensures
        not_after(s.state, row_step(s, i, mean, var).state),
{
}

/// A step of a pass over columns never moves the cursor backwards.
pub proof fn lemma_column_step_forward(s: ScanModel, i: int, mean: u32, level: u32, maxcols: usize)
    requires
        scan_inv(s, i, if maxcols == 0 { 1 } else { maxcols as int }),
    ensures
        not_after(s.state, column_step(s, i, mean, level, maxcols).state),
{
}

/// A step of the pass over rows keeps what holds of its findings.
pub proof fn lemma_row_step_inv(s: ScanModel, i: int, mean: u32, var: u32)
    requires
        0 <= i < usize::MAX,
        scan_inv(s, i, 15),
        rack_found(s, i),
    ensures
        scan_inv(row_step(s, i, mean, var), i + 1, 15),
        rack_found(row_step(s, i, mean, var), i + 1),
{
    let t = row_step(s, i, mean, var);
    match s.state {
        Segment::LookForRisingEdge(n) => {
            if mean > GROUT_LEVEL + ROW_TOLERANCE {
                assert(t.spans == s.spans.push((i as usize, 0usize)));
                assert forall|k: int| 0 <= k < t.spans.len() implies (#[trigger] t.spans[k]).0 < i
                    + 1 by {
                    if k < s.spans.len() {
                        assert(t.spans[k] == s.spans[k]);
                    }
                }
                assert forall|k: int| 0 <= k < n && k < t.spans.len() implies (#[trigger] t.spans[k]).0
                    <= t.spans[k].1 < i + 1 by {
                    assert(t.spans[k] == s.spans[k]);
                }
                assert forall|k: int| 0 <= k < n && k + 1 < t.spans.len() implies (#[trigger] t.spans[k]).1
                    < t.spans[k + 1].0 by {
                    assert(t.spans[k] == s.spans[k]);
                    if k + 1 < s.spans.len() {
                        assert(t.spans[k + 1] == s.spans[k + 1]);
                    }
                }
            }
        },
        Segment::InTile(n) => {
            if grout_like(mean, ROW_TOLERANCE) {
                lemma_close_interval(s.spans, n as int, i);
            }
        },
        _ => {},
    }
}

/// Closing the last interval before index `i` keeps the intervals in order.
pub proof fn lemma_close_interval(spans: Seq<(usize, usize)>, n: int, i: int)
    requires
        0 <= i < usize::MAX,
        0 <= n,
        spans.len() == n + 1,
        spans_ordered(spans, n, i),
    ensures
        spans_ordered(spans.update(n, (spans[n].0, (i - 1) as usize)), n + 1, i + 1),
{
    let t = spans.update(n, (spans[n].0, (i - 1) as usize));
    assert(spans[n].0 < i);
    assert forall|k: int| 0 <= k < t.len() implies (#[trigger] t[k]).0 < i + 1 by {
        if k < n {
            assert(t[k] == spans[k]);
        }
    }
    assert forall|k: int| 0 <= k < n + 1 && k < t.len() implies (#[trigger] t[k]).0 <= t[k].1 < i
        + 1 by {
        if k < n {
            assert(t[k] == spans[k]);
        }
    }
    assert forall|k: int| 0 <= k < n + 1 && k + 1 < t.len() implies (#[trigger] t[k]).1 < t[k
        + 1].0 by {
        assert(t[k] == spans[k]);
        if k + 1 < n {
            assert(t[k + 1] == spans[k + 1]);
        }
    }
}

/// The number of intervals that a pass over columns looks for: `maxcols`,
/// but at least one.
pub open spec fn column_goal(maxcols: usize) -> int {
    if maxcols == 0 {
        1
    } else {
        maxcols as int
    }
}

/// A pass over columns that is done has found all the intervals it looked
/// for.
pub open spec fn columns_found(s: ScanModel, maxcols: usize) -> bool {
    s.state == Segment::Done ==> s.spans.len() == column_goal(maxcols)
}

/// A pass over columns visits three cursors only.
pub open spec fn column_state(state: Segment) -> bool {
    state is LookForRisingEdge || state is InTile || state is Done
}

/// A step of a pass over columns keeps what holds of its findings.
pub proof fn lemma_column_step_inv(s: ScanModel, i: int, mean: u32, level: u32, maxcols: usize)
    requires
        0 <= i < usize::MAX,
        column_state(s.state),
        scan_inv(s, i, column_goal(maxcols)),
        columns_found(s, maxcols),
    ensures
        column_state(column_step(s, i, mean, level, maxcols).state),
        scan_inv(column_step(s, i, mean, level, maxcols), i + 1, column_goal(maxcols)),
        columns_found(column_step(s, i, mean, level, maxcols), maxcols),
{
    let t = column_step(s, i, mean, level, maxcols);
    match s.state {
        Segment::LookForRisingEdge(n) => {
            if mean > level + COLUMN_TOLERANCE {
                assert(t.spans == s.spans.push((i as usize, 0usize)));
                assert forall|k: int| 0 <= k < t.spans.len() implies (#[trigger] t.spans[k]).0 < i
                    + 1 by {
                    if k < s.spans.len() {
                        assert(t.spans[k] == s.spans[k]);
                    }
                }
                assert forall|k: int| 0 <= k < n && k < t.spans.len() implies (#[trigger] t.spans[k]).0
                    <= t.spans[k].1 < i + 1 by {
                    assert(t.spans[k] == s.spans[k]);
                }
                assert forall|k: int| 0 <= k < n && k + 1 < t.spans.len() implies (#[trigger] t.spans[k]).1
                    < t.spans[k + 1].0 by {
                    assert(t.spans[k] == s.spans[k]);
                    if k + 1 < s.spans.len() {
                        assert(t.spans[k + 1] == s.spans[k + 1]);
                    }
                }
            }
        },
        Segment::InTile(n) => {
            if grout_like(mean, COLUMN_TOLERANCE) {
                lemma_close_interval(s.spans, n as int, i);
            }
        },
        _ => {},
    }
}

/// Runs the pass over rows on a profile of `(mean, variance)` pairs, one per
/// row of the screenshot.
pub fn scan_rows(profile: &Vec<(u32, u32)>) -> (r: Scan)
    ensures
        r@ == row_scan(profile@, profile@.len() as int),
        scan_inv(r@, profile@.len() as int, 15),
        rack_found(r@, profile@.len() as int),
{
    let mut state = Segment::LookForTopBorder(0);
    let mut spans: Vec<(usize, usize)> = Vec::new();
    let mut rack_y: usize = 0;
    let mut rack_height: usize = 0;
    let mut i: usize = 0;
    while i < profile.len()
        invariant
            i <= profile@.len(),
            (ScanModel { state, spans: spans@, rack_y, rack_height }) == row_scan(
                profile@,
                i as int,
            ),
            scan_inv(row_scan(profile@, i as int), i as int, 15),
            rack_found(row_scan(profile@, i as int), i as int),
        decreases profile@.len() - i,
    {
        let (mean, var) = profile[i];
        let ghost before = ScanModel { state, spans: spans@, rack_y, rack_height };
        proof {
            lemma_row_step_inv(before, i as int, mean, var);
        }
        match state {
            Segment::LookForTopBorder(n) => {
                if n > 3 {
                    state = Segment::InTopBorder;
                } else if close(mean, BORDER_LEVEL, ROW_TOLERANCE) && var < 25 {
                    state = Segment::LookForTopBorder(n + 1);
                }
            },
            Segment::InTopBorder => {
                if close(mean, GROUT_LEVEL, ROW_TOLERANCE) {
                    state = Segment::LookForRisingEdge(0);
                }
            },
            Segment::LookForRisingEdge(n) => {
                if mean > GROUT_LEVEL + ROW_TOLERANCE {
                    spans.push((i, 0));
                    state = Segment::InTile(n);
                }
            },
            Segment::InTile(n) => {
                if close(mean, GROUT_LEVEL, ROW_TOLERANCE) {
                    let start: usize = spans[n].0;
                    assert(start < i);
                    spans.set(n, (start, i - 1));
                    if n < 14 {
                        state = Segment::LookForRisingEdge(n + 1);
                    } else {
                        state = Segment::LookForBottomBorder(0);
                    }
                }
            },
            Segment::LookForBottomBorder(n) => {
                if n > 5 {
                    state = Segment::InBottomBorder;
                } else if close(mean, BORDER_LEVEL, ROW_TOLERANCE) && var < 25 {
                    state = Segment::LookForBottomBorder(n + 1);
                }
            },
            Segment::InBottomBorder => {
                if close(mean, GROUT_LEVEL, ROW_TOLERANCE) && var < 10 {
                    state = Segment::LookForRack;
                }
            },
            Segment::LookForRack => {
                if var > 100 {
                    rack_y = i;
                    state = Segment::InRack;
                }
            },
            Segment::InRack => {
                if close(mean, GROUT_LEVEL, ROW_TOLERANCE) && var == 0 {
                    rack_height = i - rack_y;
                    state = Segment::Done;
                }
            },
            Segment::Done => {},
        }
        assert((ScanModel { state, spans: spans@, rack_y, rack_height }) == row_step(
            before,
            i as int,
            mean,
            var,
        ));
        i += 1;
    }
    Scan { state, spans, rack_y, rack_height }
}

/// Runs a pass over columns on a profile of `(mean, variance)` pairs, one
/// per column: it looks for at most `maxcols` intervals whose mean rises
/// more than the tolerance above `level`, each ended by a column near the
/// grout level.
pub fn scan_columns(level: u32, maxcols: usize, profile: &Vec<(u32, u32)>) -> (r: Scan)
    ensures
        r@ == column_scan(profile@, level, maxcols, profile@.len() as int),
        column_state(r@.state),
        scan_inv(r@, profile@.len() as int, column_goal(maxcols)),
        columns_found(r@, maxcols),
{
    let mut state = Segment::LookForRisingEdge(0);
    let mut spans: Vec<(usize, usize)> = Vec::new();
    let mut i: usize = 0;
    while i < profile.len()
        invariant
            i <= profile@.len(),
            (ScanModel { state, spans: spans@, rack_y: 0, rack_height: 0 }) == column_scan(
                profile@,
                level,
                maxcols,
                i as int,
            ),
            column_state(state),
            scan_inv(column_scan(profile@, level, maxcols, i as int), i as int, column_goal(maxcols)),
            columns_found(column_scan(profile@, level, maxcols, i as int), maxcols),
        decreases profile@.len() - i,
    {
        let mean: u32 = profile[i].0;
        let ghost before = ScanModel { state, spans: spans@, rack_y: 0, rack_height: 0 };
        proof {
            lemma_column_step_inv(before, i as int, mean, level, maxcols);
        }
        match state {
            Segment::LookForRisingEdge(n) => {
                if mean > level && mean - level > COLUMN_TOLERANCE {
                    spans.push((i, 0));
                    state = Segment::InTile(n);
                }
            },
            Segment::InTile(n) => {
                if close(mean, GROUT_LEVEL, COLUMN_TOLERANCE) {
                    let start: usize = spans[n].0;
                    assert(start < i);
                    spans.set(n, (start, i - 1));
                    if n + 1 < maxcols {
                        state = Segment::LookForRisingEdge(n + 1);
                    } else {
                        state = Segment::Done;
                    }
                }
            },
            _ => {},
        }
        assert((ScanModel { state, spans: spans@, rack_y: 0, rack_height: 0 }) == column_step(
            before,
            i as int,
            mean,
            level,
            maxcols,
        ));
        i += 1;
    }
    Scan { state, spans, rack_y: 0, rack_height: 0 }
}

/// Whatever the profile, the findings of the pass over rows are in order
/// after any number of entries: the intervals found are complete but the
/// last, they increase and lie before the entry that is read next, and a
/// pass that is done has found fifteen of them and the rack below them.
pub proof fn lemma_row_scan_inv(profile: Seq<(u32, u32)>, n: int)
    requires
        0 <= n <= usize::MAX,
    ensures
        scan_inv(row_scan(profile, n), n, 15),
        rack_found(row_scan(profile, n), n),
    decreases n,
{
    if n > 0 {
        lemma_row_scan_inv(profile, n - 1);
        lemma_row_step_inv(row_scan(profile, n - 1), n - 1, profile[n - 1].0, profile[n - 1].1);
    }
}

/// Whatever the profile, the findings of a pass over columns are in order
/// after any number of entries, and a pass that is done has found as many
/// intervals as it looked for.
pub proof fn lemma_column_scan_inv(profile: Seq<(u32, u32)>, level: u32, maxcols: usize, n: int)
    requires
        0 <= n <= usize::MAX,
    ensures
        column_state(column_scan(profile, level, maxcols, n).state),
        scan_inv(column_scan(profile, level, maxcols, n), n, column_goal(maxcols)),
        columns_found(column_scan(profile, level, maxcols, n), maxcols),
    decreases n,
{
    if n > 0 {
        lemma_column_scan_inv(profile, level, maxcols, n - 1);
        lemma_column_step_inv(
            column_scan(profile, level, maxcols, n - 1),
            n - 1,
            profile[n - 1].0,
            level,
            maxcols,
        );
    }
}

/// The pass over rows only moves forward: the cursor after `i` entries
/// comes no later than the cursor after `j >= i` entries, so a cursor that
/// the pass has left is never taken again.
pub proof fn lemma_row_scan_forward(profile: Seq<(u32, u32)>, i: int, j: int)
    requires
        0 <= i <= j <= usize::MAX,
    ensures
        not_after(row_scan(profile, i).state, row_scan(profile, j).state),
    decreases j - i,
{
    if i < j {
        lemma_row_scan_forward(profile, i, j - 1);
        lemma_row_scan_inv(profile, j - 1);
        lemma_row_step_forward(row_scan(profile, j - 1), j - 1, profile[j - 1].0, profile[j - 1].1);
    }
}

/// A pass over columns only moves forward: the cursor after `i` entries
/// comes no later than the cursor after `j >= i` entries.
pub proof fn lemma_column_scan_forward(
    profile: Seq<(u32, u32)>,
    level: u32,
    maxcols: usize,
    i: int,
    j: int,
)
    requires
        0 <= i <= j <= usize::MAX,
    ensures
        not_after(
            column_scan(profile, level, maxcols, i).state,
            column_scan(profile, level, maxcols, j).state,
        ),
    decreases j - i,
{
    if i < j {
        lemma_column_scan_forward(profile, level, maxcols, i, j - 1);
        lemma_column_scan_inv(profile, level, maxcols, j - 1);
        lemma_column_step_forward(
            column_scan(profile, level, maxcols, j - 1),
            j - 1,
            profile[j - 1].0,
            level,
            maxcols,
        );
    }
}

/// A pass over rows that looks for the rack stays there as long as no entry
/// has a variance above one hundred.
pub proof fn lemma_rack_not_found(profile: Seq<(u32, u32)>, i: int, j: int)
    requires
        0 <= i <= j,
        row_scan(profile, i).state == Segment::LookForRack,
        forall|k: int| i <= k < j ==> (#[trigger] profile[k]).1 <= 100,
    ensures
        row_scan(profile, j).state == Segment::LookForRack,
    decreases j - i,
{
    if i < j {
        lemma_rack_not_found(profile, i, j - 1);
        assert(profile[j - 1].1 <= 100);
    }
}

} // verus!
