//! The tiling layout: a master column and a stack column of equal rows.

use crate::config::{
    EDGE, INNER, MASTER_COUNT, MASTER_FACTOR, MAX_MASTER_FACTOR, MAX_WINDOWS, MIN_MASTER_FACTOR,
    SINGLE_BORDER,
};
use crate::geometry::{Point, Rect, Size, AREA_LIMIT, GEO_LIMIT};
use vstd::arithmetic::div_mod::{lemma_div_is_ordered, lemma_fundamental_div_mod, lemma_mod_bound};
use vstd::prelude::*;

verus! {

/// Largest magnitude of a coordinate or extent of a column for which the
/// rows are known to lie within the limit for window rectangles.
pub const COLUMN_LIMIT: i32 = 0x400_0000;

/// Largest gap between two rows of a column.
pub const MAX_GAP: i32 = 8;

/// `v` is a value of `i32`.
pub open spec fn in_i32(v: int) -> bool {
    i32::MIN <= v <= i32::MAX
}

/// Quotient of `a` by a positive `b`, rounded towards zero.
pub open spec fn trunc_div(a: int, b: int) -> int {
    if a >= 0 {
        a / b
    } else {
        -((-a) / b)
    }
}

pub(crate) fn div_trunc(a: i64, b: i64) -> (q: i64)
    requires
        b > 0,
        a > i64::MIN,
    ensures
        q == trunc_div(a as int, b as int),
{
    if a >= 0 {
        a / b
    } else {
        -((-a) / b)
    }
}

/// A quotient rounded towards zero has the sign of the dividend and, times
/// the divisor, stays within the dividend, less than one divisor away.
pub proof fn lemma_trunc_div_bounds(a: int, b: int)
    requires
        b > 0,
    ensures
        a >= 0 ==> 0 <= trunc_div(a, b) && b * trunc_div(a, b) <= a < b * trunc_div(a, b) + b,
        a <= 0 ==> trunc_div(a, b) <= 0 && b * trunc_div(a, b) - b < a <= b * trunc_div(a, b),
{
    if a >= 0 {
        lemma_fundamental_div_mod(a, b);
        lemma_mod_bound(a, b);
        assert(0 <= a / b) by (nonlinear_arith)
            requires
                b > 0,
                a == b * (a / b) + (a % b),
                0 <= a % b < b,
                a >= 0,
        ;
    } else {
        lemma_fundamental_div_mod(-a, b);
        lemma_mod_bound(-a, b);
        let q = (-a) / b;
        assert(0 <= q) by (nonlinear_arith)
            requires
                b > 0,
                -a == b * q + ((-a) % b),
                0 <= (-a) % b < b,
                -a >= 0,
        ;
        assert(b * (-q) == -(b * q)) by (nonlinear_arith);
    }
}

/// Height of each of `rows` rows that share a column with `gap` between
/// neighbours. What the division leaves over stays below the last row.
pub open spec fn row_height(column: Rect, rows: int, gap: int) -> int {
    trunc_div(column.size.h - gap * (rows - 1), rows)
}

/// Top of row `i` of `rows` equal rows of a column.
pub open spec fn row_top(column: Rect, rows: int, i: int, gap: int) -> int {
    column.loc.y + i * (row_height(column, rows, gap) + gap)
}

/// Row `i` of `rows` equal rows of a column, top to bottom.
pub open spec fn row(column: Rect, rows: int, i: int, gap: int) -> Rect {
    Rect {
        loc: Point { x: column.loc.x, y: row_top(column, rows, i, gap) as i32 },
        size: Size { w: column.size.w, h: row_height(column, rows, gap) as i32 },
    }
}

/// The top of every row of the column is a value of `i32`.
pub open spec fn rows_fit(column: Rect, rows: int, gap: int) -> bool {
    forall|i: int| 0 <= i < rows ==> in_i32(#[trigger] row_top(column, rows, i, gap))
}

/// The height of a row is a value of `i32`, whatever the column.
pub proof fn lemma_row_height_fits(column: Rect, rows: int, gap: int)
    requires
        1 <= rows <= i32::MAX,
        0 <= gap <= MAX_GAP,
    ensures
        -0x8000_0000 <= row_height(column, rows, gap) <= 0x7fff_ffff,
        0 <= gap * (rows - 1) <= 0x4_0000_0000,
{
    let total = gap * (rows - 1);
    assert(0 <= total <= 0x4_0000_0000 && total <= 8 * rows && (rows == 1 ==> total == 0))
        by (nonlinear_arith)
        requires
            total == gap * (rows - 1),
            1 <= rows <= 0x7fff_ffff,
            0 <= gap <= 8,
    ;
    let d = column.size.h - total;
    let h = trunc_div(d, rows);
    lemma_trunc_div_bounds(d, rows);
    if rows == 1 {
        assert(h == d) by (nonlinear_arith)
            requires
                rows == 1,
                d >= 0 ==> 0 <= h && rows * h <= d < rows * h + rows,
                d <= 0 ==> h <= 0 && rows * h - rows < d <= rows * h,
        ;
    } else {
        assert(-0x4000_0010 <= h <= 0x4000_0010) by (nonlinear_arith)
            requires
                2 <= rows,
                -0x8000_0000 - 8 * rows <= d <= 0x8000_0000,
                d >= 0 ==> 0 <= h && rows * h <= d,
                d <= 0 ==> h <= 0 && d <= rows * h,
        ;
    }
}

/// Where the rows fit, a row is what the formulas say, with the width and
/// the left edge of its column.
pub proof fn lemma_row_fits(column: Rect, rows: int, i: int, gap: int)
    requires
        1 <= rows <= i32::MAX,
        0 <= i < rows,
        0 <= gap <= MAX_GAP,
        rows_fit(column, rows, gap),
    ensures
        row(column, rows, i, gap).loc.y == row_top(column, rows, i, gap),
        row(column, rows, i, gap).size.h == row_height(column, rows, gap),
        row(column, rows, i, gap).loc.x == column.loc.x,
        row(column, rows, i, gap).size.w == column.size.w,
        -0x1_0000_0000 <= i * (row_height(column, rows, gap) + gap) <= 0x1_0000_0000,
{
    lemma_row_height_fits(column, rows, gap);
    assert(in_i32(row_top(column, rows, i, gap)));
}

/// Bounds on the height and the offset of a row of a column within
/// `COLUMN_LIMIT`.
pub proof fn lemma_row_bounds(column: Rect, rows: int, i: int, gap: int)
    requires
        column.within(COLUMN_LIMIT as int),
        1 <= rows <= MAX_WINDOWS,
        0 <= i < rows,
        0 <= gap <= MAX_GAP,
    ensures
        -0x480_0000 <= row_height(column, rows, gap) <= 0x480_0000,
        -0x500_0000 <= i * (row_height(column, rows, gap) + gap) <= 0x500_0000,
        0 <= gap * (rows - 1) <= 0x80_0000,
        in_i32(row_top(column, rows, i, gap)),
        row(column, rows, i, gap).within(GEO_LIMIT as int),
{
    let total = gap * (rows - 1);
    assert(0 <= total <= 0x80_0000) by (nonlinear_arith)
        requires
            total == gap * (rows - 1),
            1 <= rows <= 0x10_0000,
            0 <= gap <= 8,
    ;
    let d = column.size.h - total;
    let h = trunc_div(d, rows);
    lemma_trunc_div_bounds(d, rows);
    assert(-0x480_0000 <= h <= 0x480_0000 && -0x480_0000 <= i * h <= 0x480_0000)
        by (nonlinear_arith)
        requires
            1 <= rows,
            0 <= i < rows,
            -0x480_0000 <= d <= 0x480_0000,
            d >= 0 ==> 0 <= h && rows * h <= d,
            d <= 0 ==> h <= 0 && d <= rows * h,
    ;
    assert(0 <= i * gap <= 0x80_0000) by (nonlinear_arith)
        requires
            0 <= i < rows,
            rows <= 0x10_0000,
            0 <= gap <= 8,
    ;
    assert(i * (h + gap) == i * h + i * gap) by (nonlinear_arith);
}

/// The rows of a column within `COLUMN_LIMIT` fit.
pub proof fn lemma_rows_fit_within(column: Rect, rows: int, gap: int)
    requires
        column.within(COLUMN_LIMIT as int),
        0 <= rows <= MAX_WINDOWS,
        0 <= gap <= MAX_GAP,
    ensures
        rows_fit(column, rows, gap),
{
    assert forall|i: int| 0 <= i < rows implies in_i32(#[trigger] row_top(column, rows, i, gap)) by {
        lemma_row_bounds(column, rows, i, gap);
    }
}

/// Parameters of the tiling layout of one tag.
#[derive(Clone, Copy, Debug, PartialEq, Eq, Structural)]
pub struct TilingLayout {
    /// Number of windows in the master column.
    pub master_count: usize,
    /// Share of the usable width that the master column takes, in
    /// hundredths.
    pub master_factor: u32,
}

impl Default for TilingLayout {
    fn default() -> (l: Self)
        ensures
            l == (TilingLayout { master_count: MASTER_COUNT, master_factor: MASTER_FACTOR }),
    {
        TilingLayout { master_count: MASTER_COUNT, master_factor: MASTER_FACTOR }
    }
}

impl TilingLayout {
    /// The master factor lies between its bounds.
    pub open spec fn wf(self) -> bool {
        MIN_MASTER_FACTOR <= self.master_factor <= MAX_MASTER_FACTOR
    }

    /// Number of windows that go to the master column when `count` are
    /// laid out.
    pub open spec fn masters(self, count: int) -> int {
        if self.master_count <= count {
            self.master_count as int
        } else {
            count
        }
    }

    /// A lone window fills the area, without margins.
    pub open spec fn full_bleed(count: int) -> bool {
        !SINGLE_BORDER && count == 1
    }

    /// The area less the edge margin on all four sides.
    pub open spec fn usable(area: Rect) -> Rect {
        Rect {
            loc: Point { x: (area.loc.x + EDGE) as i32, y: (area.loc.y + EDGE) as i32 },
            size: Size { w: (area.size.w - 2 * EDGE) as i32, h: (area.size.h - 2 * EDGE) as i32 },
        }
    }

    /// The usable part of the area is a rectangle of `i32` values.
    pub open spec fn usable_fits(area: Rect) -> bool {
        &&& in_i32(area.loc.x + EDGE)
        &&& in_i32(area.loc.y + EDGE)
        &&& in_i32(area.size.w - 2 * EDGE)
        &&& in_i32(area.size.h - 2 * EDGE)
    }

    /// Offset of the split between the two columns in a usable width.
    pub open spec fn split(self, width: int) -> int {
        trunc_div(width * self.master_factor, 100)
    }

    /// Width of the master column in a usable width.
    pub open spec fn master_width(self, width: int) -> int {
        self.split(width) - INNER / 2
    }

    /// Width of the stack column in a usable width.
    pub open spec fn stack_width(self, width: int) -> int {
        width - self.split(width) - INNER + INNER / 2
    }

    pub open spec fn master_column(self, usable: Rect) -> Rect {
        Rect {
            loc: usable.loc,
            size: Size { w: self.master_width(usable.size.w as int) as i32, h: usable.size.h },
        }
    }

    pub open spec fn stack_column(self, usable: Rect) -> Rect {
        Rect {
            loc: Point {
                x: (usable.loc.x + self.split(usable.size.w as int) + INNER - INNER / 2) as i32,
                y: usable.loc.y,
            },
            size: Size { w: self.stack_width(usable.size.w as int) as i32, h: usable.size.h },
        }
    }

    /// The two columns of the usable part are rectangles of `i32` values.
    pub open spec fn columns_fit(self, usable: Rect) -> bool {
        &&& in_i32(self.master_width(usable.size.w as int))
        &&& in_i32(usable.loc.x + self.split(usable.size.w as int) + INNER - INNER / 2)
        &&& in_i32(self.stack_width(usable.size.w as int))
    }

    /// Every rectangle of the layout of `count` windows in `area` is a
    /// rectangle of `i32` values.
    pub open spec fn fits(self, count: int, area: Rect) -> bool {
        let m = self.masters(count);
        let usable = Self::usable(area);
        &&& count <= i32::MAX
        &&& Self::usable_fits(area)
        &&& if m == count {
            rows_fit(usable, count, INNER as int)
        } else {
            &&& self.columns_fit(usable)
            &&& rows_fit(self.master_column(usable), m, INNER as int)
            &&& rows_fit(self.stack_column(usable), count - m, INNER as int)
        }
    }

    /// The layout of `count` windows in `area` can be computed: there is
    /// nothing to compute for no window and for a lone window that fills
    /// the area; otherwise the master factor is valid and the rectangles
    /// are rectangles of `i32` values.
    pub open spec fn computable(self, count: int, area: Rect) -> bool {
        count == 0 || Self::full_bleed(count) || (self.wf() && self.fits(count, area))
    }

    /// Rectangle of window `i` of `count` tiled windows in `area`.
    pub open spec fn rect_at(self, count: int, area: Rect, i: int) -> Rect {
        let m = self.masters(count);
        let usable = Self::usable(area);
        if Self::full_bleed(count) {
            area
        } else if m == count {
            row(usable, count, i, INNER as int)
        } else if i < m {
            row(self.master_column(usable), m, i, INNER as int)
        } else {
            row(self.stack_column(usable), count - m, i - m, INNER as int)
        }
    }

    /// Rectangles of `count` tiled windows in `area`, in layout order.
    pub open spec fn rects(self, count: int, area: Rect) -> Seq<Rect> {
        Seq::new(count as nat, |i: int| self.rect_at(count, area, i))
    }

    /// The area leaves room for the margins and for the gaps of its
    /// fullest column.
    pub open spec fn roomy(self, count: int, area: Rect) -> bool {
        let m = self.masters(count);
        let rows = if m >= count - m { m } else { count - m };
        Self::full_bleed(count) || (area.size.w >= 2 * EDGE && area.size.h - 2 * EDGE >= INNER * (rows - 1))
    }

    /// The area has no negative extent and leaves room, and where there
    /// are two columns each has a width that is not negative.
    pub open spec fn spacious(self, count: int, area: Rect) -> bool {
        let m = self.masters(count);
        let width = area.size.w - 2 * EDGE;
        &&& area.size.w >= 0
        &&& area.size.h >= 0
        &&& self.roomy(count, area)
        &&& Self::full_bleed(count) || m == count || (self.master_width(width) >= 0
            && self.stack_width(width) >= 0)
    }

    /// The area and the number of windows lie within the limits of a
    /// monitor.
    pub open spec fn within_limits(count: int, area: Rect) -> bool {
        count <= MAX_WINDOWS && area.within(AREA_LIMIT as int)
    }

    /// Whether the layout, the number of windows and the area lie within
    /// the limits of a monitor, within which every layout can be computed.
    pub fn in_limits(&self, count: usize, area: Rect) -> (b: bool)
        ensures
            b == (self.wf() && Self::within_limits(count as int, area)),
            b ==> self.computable(count as int, area),
    {
        let b = MIN_MASTER_FACTOR <= self.master_factor && self.master_factor <= MAX_MASTER_FACTOR
            && count <= MAX_WINDOWS && area.fits(AREA_LIMIT);
        proof {
            if b {
                self.lemma_computable(count as int, area);
            }
        }
        b
    }

    /// Splits `area` among `count` tiled windows.
    pub fn compute_rects(&self, count: usize, area: Rect) -> (rects: Vec<Rect>)
        requires
            self.computable(count as int, area),
        ensures
            rects@ == self.rects(count as int, area),
            rects.len() == count,
            count == 1 && !SINGLE_BORDER ==> rects@ == seq![area],
            forall|i: int, j: int|
                0 <= i < j < count ==> !(#[trigger] rects[i]).meets(#[trigger] rects[j]),
            self.roomy(count as int, area) ==> forall|i: int|
                0 <= i < count ==> area.encloses(#[trigger] rects[i]),
            self.spacious(count as int, area) ==> forall|i: int|
                0 <= i < count ==> (#[trigger] rects[i]).size.w >= 0 && rects[i].size.h >= 0,
            self.wf() && Self::within_limits(count as int, area) ==> forall|i: int|
                0 <= i < count ==> (#[trigger] rects[i]).within(GEO_LIMIT as int),
    {
        proof {
            assert forall|i: int, j: int| 0 <= i < j < count
                implies !(#[trigger] self.rect_at(count as int, area, i)).meets(
                #[trigger] self.rect_at(count as int, area, j),
            ) by {
                self.lemma_rects_disjoint(count as int, area, i, j);
            }
            if self.roomy(count as int, area) {
                assert forall|i: int| 0 <= i < count
                    implies area.encloses(#[trigger] self.rect_at(count as int, area, i)) by {
                    self.lemma_rect_inside(count as int, area, i);
                }
            }
            if self.spacious(count as int, area) {
                assert forall|i: int| 0 <= i < count
                    implies (#[trigger] self.rect_at(count as int, area, i)).size.w >= 0 && self.rect_at(
                    count as int,
                    area,
                    i,
                ).size.h >= 0 by {
                    self.lemma_rect_extent(count as int, area, i);
                }
            }
            if self.wf() && Self::within_limits(count as int, area) {
                assert forall|i: int| 0 <= i < count
                    implies (#[trigger] self.rect_at(count as int, area, i)).within(GEO_LIMIT as int) by {
                    self.lemma_rect_bounded(count as int, area, i);
                }
            }
        }
        if count == 0 {
            let rects: Vec<Rect> = Vec::new();
            assert(rects@ =~= self.rects(count as int, area));
            return rects;
        }
        if !SINGLE_BORDER && count == 1 {
            let mut rects: Vec<Rect> = Vec::new();
            rects.push(area);
            assert(rects@ =~= self.rects(count as int, area));
            assert(rects@ =~= seq![area]);
            return rects;
        }
        let master_count: usize = if self.master_count < count {
            self.master_count
        } else {
            count
        };
        let stack_count: usize = count - master_count;
        let usable = Rect {
            loc: Point { x: area.loc.x + EDGE, y: area.loc.y + EDGE },
            size: Size { w: area.size.w - 2 * EDGE, h: area.size.h - 2 * EDGE },
        };
        if stack_count == 0 {
            let rects = Self::stack_rects(count, usable, INNER);
            assert(rects@ =~= self.rects(count as int, area));
            rects
        } else {
            let half: i32 = INNER / 2;
            proof {
                self.lemma_split_bounds(usable.size.w as int);
            }
            let mw: i64 = div_trunc(usable.size.w as i64 * self.master_factor as i64, 100);
            let gap: i64 = INNER as i64 - half as i64;
            let master_area = Rect {
                loc: usable.loc,
                size: Size { w: (mw - half as i64) as i32, h: usable.size.h },
            };
            let stack_area = Rect {
                loc: Point { x: (usable.loc.x as i64 + mw + gap) as i32, y: usable.loc.y },
                size: Size { w: (usable.size.w as i64 - mw - gap) as i32, h: usable.size.h },
            };
            let mut rects = Self::stack_rects(master_count, master_area, INNER);
            let mut rest = Self::stack_rects(stack_count, stack_area, INNER);
            rects.append(&mut rest);
            assert(rects@ =~= self.rects(count as int, area));
            rects
        }
    }

    /// Splits a column into `count` rows of equal height with `gap` between
    /// neighbours.
    fn stack_rects(count: usize, area: Rect, gap: i32) -> (rects: Vec<Rect>)
        requires
            count <= i32::MAX,
            0 <= gap <= MAX_GAP,
            rows_fit(area, count as int, gap as int),
        ensures
            rects@ == Seq::new(count as nat, |i: int| row(area, count as int, i, gap as int)),
    {
        let mut rects: Vec<Rect> = Vec::new();
        if count == 0 {
            assert(rects@ =~= Seq::new(count as nat, |i: int| row(area, count as int, i, gap as int)));
            return rects;
        }
        proof {
            lemma_row_height_fits(area, count as int, gap as int);
        }
        let n: i64 = count as i64;
        let gap_total: i64 = gap as i64 * (n - 1);
        let h: i64 = div_trunc(area.size.h as i64 - gap_total, n);
        let mut i: usize = 0;
        while i < count
            invariant
                0 <= i <= count,
                1 <= count <= i32::MAX,
                0 <= gap <= MAX_GAP,
                rows_fit(area, count as int, gap as int),
                h == row_height(area, count as int, gap as int),
                -0x8000_0000 <= h <= 0x7fff_ffff,
                rects.len() == i,
                forall|k: int| 0 <= k < i ==> rects[k] == row(area, count as int, k, gap as int),
            decreases count - i,
        {
            proof {
                lemma_row_fits(area, count as int, i as int, gap as int);
            }
            let step: i64 = h + gap as i64;
            assert(-0x1_0000_0000 <= (i as i64) * step <= 0x1_0000_0000);
            let y: i64 = area.loc.y as i64 + (i as i64) * step;
            rects.push(
                Rect {
                    loc: Point { x: area.loc.x, y: y as i32 },
                    size: Size { w: area.size.w, h: h as i32 },
                },
            );
            i += 1;
        }
        assert(rects@ =~= Seq::new(count as nat, |i: int| row(area, count as int, i, gap as int)));
        rects
    }

    /// The split of a width lies between zero and the width.
    pub proof fn lemma_split_bounds(self, width: int)
        requires
            self.wf(),
            in_i32(width),
        ensures
            width >= 0 ==> 0 <= self.split(width) <= width,
            width <= 0 ==> width <= self.split(width) <= 0,
            -0x100_0000_0000 < width * self.master_factor < 0x100_0000_0000,
    {
        let f = self.master_factor as int;
        assert(-0x100_0000_0000 < width * f < 0x100_0000_0000) by (nonlinear_arith)
            requires
                -0x8000_0000 <= width <= 0x8000_0000,
                10 <= f <= 90,
        ;
        lemma_trunc_div_bounds(width * f, 100);
        let q = self.split(width);
        assert((width >= 0 ==> width * f >= 0) && (width <= 0 ==> width * f <= 0))
            by (nonlinear_arith)
            requires
                10 <= f <= 90,
        ;
        if width >= 0 {
            assert(0 <= q <= width) by (nonlinear_arith)
                requires
                    width >= 0,
                    10 <= f <= 90,
                    0 <= q,
                    100 * q <= width * f,
            ;
        } else {
            assert(width <= q <= 0) by (nonlinear_arith)
                requires
                    width <= 0,
                    10 <= f <= 90,
                    q <= 0,
                    width * f <= 100 * q,
            ;
        }
    }

    /// Within the limits of a monitor every layout can be computed.
    pub proof fn lemma_computable(self, count: int, area: Rect)
        requires
            self.wf(),
            0 <= count,
            Self::within_limits(count, area),
        ensures
            self.computable(count, area),
    {
        let m = self.masters(count);
        let usable = Self::usable(area);
        self.lemma_split_bounds(usable.size.w as int);
        lemma_rows_fit_within(usable, count, INNER as int);
        lemma_rows_fit_within(self.master_column(usable), m, INNER as int);
        lemma_rows_fit_within(self.stack_column(usable), count - m, INNER as int);
    }

    /// Within the limits of a monitor every rectangle of a layout lies
    /// within the limit for window rectangles.
    pub proof fn lemma_rect_bounded(self, count: int, area: Rect, i: int)
        requires
            self.wf(),
            0 <= i < count,
            Self::within_limits(count, area),
        ensures
            self.rect_at(count, area, i).within(GEO_LIMIT as int),
    {
        let m = self.masters(count);
        let usable = Self::usable(area);
        self.lemma_split_bounds(usable.size.w as int);
        if Self::full_bleed(count) {
        } else if m == count {
            lemma_row_bounds(usable, count, i, INNER as int);
        } else if i < m {
            lemma_row_bounds(self.master_column(usable), m, i, INNER as int);
        } else {
            lemma_row_bounds(self.stack_column(usable), count - m, i - m, INNER as int);
        }
    }

    /// No two rectangles of a layout share a pixel.
    pub proof fn lemma_rects_disjoint(self, count: int, area: Rect, i: int, j: int)
        requires
            self.computable(count, area),
            0 <= i < j < count,
        ensures
            !self.rect_at(count, area, i).meets(self.rect_at(count, area, j)),
    {
        let m = self.masters(count);
        let usable = Self::usable(area);
        self.lemma_split_bounds(usable.size.w as int);
        if m == count {
            lemma_rows_disjoint(usable, count, i, j, INNER as int);
        } else if j < m {
            lemma_rows_disjoint(self.master_column(usable), m, i, j, INNER as int);
        } else if i >= m {
            lemma_rows_disjoint(self.stack_column(usable), count - m, i - m, j - m, INNER as int);
        } else {
            lemma_row_fits(self.master_column(usable), m, i, INNER as int);
            lemma_row_fits(self.stack_column(usable), count - m, j - m, INNER as int);
        }
    }

    /// Where the area leaves room, it encloses every rectangle of the
    /// layout.
    pub proof fn lemma_rect_inside(self, count: int, area: Rect, i: int)
        requires
            self.computable(count, area),
            0 <= i < count,
            self.roomy(count, area),
        ensures
            area.encloses(self.rect_at(count, area, i)),
    {
        let m = self.masters(count);
        let usable = Self::usable(area);
        if Self::full_bleed(count) {
        } else {
            self.lemma_split_bounds(usable.size.w as int);
            if m == count {
                lemma_row_inside(usable, count, i, INNER as int);
            } else if i < m {
                lemma_row_inside(self.master_column(usable), m, i, INNER as int);
            } else {
                lemma_row_inside(self.stack_column(usable), count - m, i - m, INNER as int);
            }
        }
    }

    /// Where the area leaves room and the columns have widths that are
    /// not negative, no rectangle of the layout has a negative extent.
    pub proof fn lemma_rect_extent(self, count: int, area: Rect, i: int)
        requires
            self.computable(count, area),
            0 <= i < count,
            self.spacious(count, area),
        ensures
            self.rect_at(count, area, i).size.w >= 0,
            self.rect_at(count, area, i).size.h >= 0,
    {
        let m = self.masters(count);
        let usable = Self::usable(area);
        if Self::full_bleed(count) {
        } else {
            self.lemma_split_bounds(usable.size.w as int);
            if m == count {
                lemma_row_inside(usable, count, i, INNER as int);
            } else if i < m {
                lemma_row_inside(self.master_column(usable), m, i, INNER as int);
            } else {
                lemma_row_inside(self.stack_column(usable), count - m, i - m, INNER as int);
            }
        }
    }
}

/// Two rows of one column share no pixel.
pub proof fn lemma_rows_disjoint(column: Rect, rows: int, i: int, j: int, gap: int)
    requires
        rows_fit(column, rows, gap),
        0 <= i < j < rows <= i32::MAX,
        0 <= gap <= MAX_GAP,
    ensures
        !row(column, rows, i, gap).meets(row(column, rows, j, gap)),
{
    lemma_row_fits(column, rows, i, gap);
    lemma_row_fits(column, rows, j, gap);
    let h = row_height(column, rows, gap);
    if h > 0 {
        assert(j * (h + gap) >= i * (h + gap) + h) by (nonlinear_arith)
            requires
                0 <= i < j,
                h > 0,
                gap >= 0,
        ;
    }
}

/// A row of a column that is tall enough for its gaps lies between the
/// top and the bottom of the column, and its height is not negative.
pub proof fn lemma_row_inside(column: Rect, rows: int, i: int, gap: int)
    requires
        rows_fit(column, rows, gap),
        0 <= i < rows <= i32::MAX,
        0 <= gap <= MAX_GAP,
        column.size.h >= gap * (rows - 1),
    ensures
        row(column, rows, i, gap).loc.y >= column.loc.y,
        row(column, rows, i, gap).bottom() <= column.loc.y + column.size.h,
        row(column, rows, i, gap).loc.x == column.loc.x,
        row(column, rows, i, gap).size.w == column.size.w,
        row(column, rows, i, gap).size.h >= 0,
{
    lemma_row_fits(column, rows, i, gap);
    let h = row_height(column, rows, gap);
    let d = column.size.h - gap * (rows - 1);
    lemma_trunc_div_bounds(d, rows);
    assert(0 <= i * (h + gap) && i * (h + gap) + h <= column.size.h) by (nonlinear_arith)
        requires
            0 <= i < rows,
            0 <= h,
            0 <= gap,
            rows * h <= d,
            d == column.size.h - gap * (rows - 1),
    ;
}

/// For a usable width that is not negative, a larger master factor gives
/// a master column at least as wide and a stack column at most as wide;
/// strictly so where the width is a hundred pixels or more.
pub proof fn lemma_master_factor_monotone(a: TilingLayout, b: TilingLayout, width: int)
    requires
        a.wf(),
        b.wf(),
        a.master_factor <= b.master_factor,
        0 <= width,
    ensures
        a.master_width(width) <= b.master_width(width),
        a.stack_width(width) >= b.stack_width(width),
        width >= 100 && a.master_factor < b.master_factor ==> a.master_width(width) < b.master_width(
            width,
        ) && a.stack_width(width) > b.stack_width(width),
{
    let fa = a.master_factor as int;
    let fb = b.master_factor as int;
    assert(0 <= width * fa <= width * fb) by (nonlinear_arith)
        requires
            0 <= width,
            0 <= fa <= fb,
    ;
    lemma_div_is_ordered(width * fa, width * fb, 100);
    if width >= 100 && fa < fb {
        assert(width * fa + 100 <= width * fb) by (nonlinear_arith)
            requires
                100 <= width,
                0 <= fa < fb,
        ;
        lemma_div_is_ordered(width * fa + 100, width * fb, 100);
        lemma_fundamental_div_mod(width * fa, 100);
        lemma_mod_bound(width * fa, 100);
        vstd::arithmetic::div_mod::lemma_fundamental_div_mod_converse(
            width * fa + 100,
            100,
            (width * fa) / 100 + 1,
            (width * fa) % 100,
        );
    }
}

/// Of two layouts that differ in the master factor alone, the one with
/// the larger factor gives no master window a narrower rectangle and no
/// stack window a wider one, in an area that is at least as wide as its
/// margins. Where there are two columns, the width of a master window,
/// the width of a stack window and the gap between them span the usable
/// width.
pub proof fn lemma_factor_widens_master(a: TilingLayout, b: TilingLayout, count: int, area: Rect, i: int)
    requires
        a.computable(count, area),
        b.computable(count, area),
        a.wf(),
        b.wf(),
        a.master_count == b.master_count,
        a.master_factor <= b.master_factor,
        0 <= i < count,
        area.size.w >= 2 * EDGE,
    ensures
        i < a.masters(count) ==> a.rect_at(count, area, i).size.w <= b.rect_at(count, area, i).size.w,
        i >= a.masters(count) ==> a.rect_at(count, area, i).size.w >= b.rect_at(count, area, i).size.w,
        0 < a.masters(count) < count ==> a.rect_at(count, area, 0).size.w + a.rect_at(
            count,
            area,
            count - 1,
        ).size.w + INNER == area.size.w - 2 * EDGE,
{
    let usable = TilingLayout::usable(area);
    if !TilingLayout::full_bleed(count) {
        lemma_master_factor_monotone(a, b, usable.size.w as int);
        a.lemma_split_bounds(usable.size.w as int);
        b.lemma_split_bounds(usable.size.w as int);
    }
}

/// Neighbouring rows of a column are one gap apart.
pub proof fn lemma_row_gap(column: Rect, rows: int, i: int, gap: int)
    requires
        rows_fit(column, rows, gap),
        0 <= i,
        i + 1 < rows <= i32::MAX,
        0 <= gap <= MAX_GAP,
    ensures
        row(column, rows, i + 1, gap).loc.y - (row(column, rows, i, gap).loc.y + row(
            column,
            rows,
            i,
            gap,
        ).size.h) == gap,
        row(column, rows, i + 1, gap).size == row(column, rows, i, gap).size,
        row(column, rows, i + 1, gap).loc.x == row(column, rows, i, gap).loc.x,
{
    lemma_row_fits(column, rows, i, gap);
    lemma_row_fits(column, rows, i + 1, gap);
    let h = row_height(column, rows, gap);
    assert((i + 1) * (h + gap) == i * (h + gap) + (h + gap)) by (nonlinear_arith);
}

/// The master column and the stack column are one inner gap apart,
/// whatever the rounding of the split, and together with the gap they span
/// the usable width.
pub proof fn lemma_column_gap(layout: TilingLayout, area: Rect)
    requires
        layout.wf(),
        TilingLayout::usable_fits(area),
        layout.columns_fit(TilingLayout::usable(area)),
    ensures
        ({
            let usable = TilingLayout::usable(area);
            let master = layout.master_column(usable);
            let stack = layout.stack_column(usable);
            &&& stack.loc.x - (master.loc.x + master.size.w) == INNER
            &&& master.loc.x == usable.loc.x
            &&& stack.loc.x + stack.size.w == usable.loc.x + usable.size.w
            &&& master.size.h == usable.size.h
            &&& stack.size.h == usable.size.h
        }),
{
    layout.lemma_split_bounds(TilingLayout::usable(area).size.w as int);
}

} // verus!
