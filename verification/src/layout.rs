//! The page slot grid: for each 1-indexed slot, where its column character
//! and its half-width annotation characters sit on the canvas.
//!
//! Slots are enumerated in the traditional reading order: right to left,
//! top to bottom, one band after another. Index 0 of each table is an
//! origin sentinel.

use vstd::prelude::*;
use crate::config::{BookConfig, CanvasConfig, ConfigError, COORD_LIMIT, COUNT_LIMIT};
use crate::multirows::MultiRowsMode;
use vstd::arithmetic::div_mod::{
    lemma_div_nonincreasing, lemma_div_pos_is_pos, lemma_mod_division_less_than_divisor,
    lemma_multiply_divide_lt,
};

verus! {

/// Bound on any coordinate a built layout can hold, in milli-units.
pub const POS_LIMIT: i64 = 1_000_000_000_000_000_000;

/// One grid position, in milli-units.
#[derive(Debug, Clone, Copy, PartialEq, Eq, Structural)]
pub struct Cell {
    pub x: i64,
    pub y: i64,
}

/// Integer division truncating toward zero, as the machine division does.
pub open spec fn div_trunc(a: int, b: int) -> int {
    if a >= 0 {
        a / b
    } else {
        -((-a) / b)
    }
}

/// Truncating division for a positive divisor.
pub fn div_i64_pub(a: i64, b: i64) -> (r: i64)
    requires
        b > 0,
    ensures
        r == div_trunc(a as int, b as int),
        a >= 0 ==> 0 <= r <= a,
        a < 0 ==> a <= r <= 0,
{
    proof {
        if a > 0 {
            lemma_div_nonincreasing(a as int, b as int);
            lemma_div_pos_is_pos(a as int, b as int);
        }
        if a < 0 {
            lemma_div_nonincreasing(-(a as int), b as int);
            lemma_div_pos_is_pos(-(a as int), b as int);
        }
    }
    match a.checked_div(b) {
        Some(q) => q,
        None => {
            proof {
                assert(false);
            }
            0
        },
    }
}

/// The band, column and row of 1-indexed slot `k`: reading order is rows
/// within a column, columns within a band, bands in turn — except that the
/// page-level split enumerates the left-half columns of every band before
/// any right-half column.
pub open spec fn slot_decomp(mode: MultiRowsMode, columns: int, rpc: int, k: int) -> (int, int, int) {
    let t = k - 1;
    match mode {
        MultiRowsMode::HorizontalPage { rows } => {
            let half = columns / 2;
            let sz1 = (rows * half) * rpc;
            if t < sz1 {
                ((t / (half * rpc)), ((t % (half * rpc)) / rpc + 1), (t % rpc + 1))
            } else {
                let t2 = t - sz1;
                let cols2 = columns - half;
                ((t2 / (cols2 * rpc)), (half + 1 + (t2 % (cols2 * rpc)) / rpc), (t % rpc + 1))
            }
        },
        _ => {
            let band = columns * rpc;
            ((t / band), ((t % band) / rpc + 1), (t % rpc + 1))
        },
    }
}

/// The x origin of column `i`: measured leftwards from the right margin,
/// with the center gutter additionally subtracted past the half-way point.
pub open spec fn slot_x(canvas: CanvasConfig, cw: int, columns: int, i: int) -> int {
    if 2 * i <= columns {
        canvas.canvas_width - canvas.margins_right - cw * i
    } else {
        canvas.canvas_width - canvas.margins_right - cw * i - canvas.leaf_center_width
    }
}

/// The y origin of row `j` of band `rid`, measured down from the top
/// margin, shifted by the book's per-row delta.
pub open spec fn slot_y(
    canvas: CanvasConfig,
    book: BookConfig,
    rh: int,
    rpc: int,
    rid: int,
    j: int,
) -> int {
    canvas.canvas_height - canvas.margins_top - (rid * rpc + j) * rh + book.row_delta_y
}

/// The fixed page slot grid.
#[derive(Debug, Clone)]
pub struct Layout {
    /// Slots per page: `columns * rows_per_column * multirows_bands`.
    pub per_page: usize,
    /// Main positions, indices `0..=per_page`; index 0 is the sentinel.
    pub pos_l: Vec<Cell>,
    /// Annotation positions: the right half of each column.
    pub pos_r: Vec<Cell>,
    /// Column width in milli-units.
    pub cw: i64,
    /// Row height in milli-units.
    pub rh: i64,
    pub canvas_width: i64,
    pub canvas_height: i64,
    pub margins_top: i64,
    pub margins_bottom: i64,
    pub rows_per_column: usize,
    pub columns: usize,
    pub multirows_bands: usize,
}

/// Both coordinates within the layout bound.
pub open spec fn cell_bounded(c: Cell) -> bool {
    -POS_LIMIT <= c.x <= POS_LIMIT && -POS_LIMIT <= c.y <= POS_LIMIT
}

impl Layout {
    /// The structural invariant every built layout satisfies.
    pub open spec fn wf(self) -> bool {
        &&& 1 <= self.columns <= COUNT_LIMIT
        &&& 1 <= self.rows_per_column
        &&& 1 <= self.multirows_bands
        &&& self.rows_per_column * self.multirows_bands <= COUNT_LIMIT
        &&& self.per_page == self.columns * self.rows_per_column * self.multirows_bands
        &&& self.pos_l@.len() == self.per_page + 1
        &&& self.pos_r@.len() == self.per_page + 1
        &&& -4 * (COORD_LIMIT as int) <= self.cw <= 4 * (COORD_LIMIT as int)
        &&& -3 * (COORD_LIMIT as int) <= self.rh <= 3 * (COORD_LIMIT as int)
        &&& forall|k: int|
            0 <= k < self.pos_l@.len() ==> cell_bounded(#[trigger] self.pos_l@[k]) && cell_bounded(
                self.pos_r@[k],
            )
    }

    /// Slots per page.
    pub fn capacity(&self) -> (r: usize)
        ensures
            r == self.per_page,
    {
        self.per_page
    }

    /// The main position of slot `idx`, if the index is within the table.
    pub fn pos_left(&self, idx: usize) -> (r: Option<Cell>)
        ensures
            r == (if idx < self.pos_l@.len() {
                Some(self.pos_l@[idx as int])
            } else {
                None::<Cell>
            }),
    {
        if idx < self.pos_l.len() {
            Some(self.pos_l[idx])
        } else {
            None
        }
    }

    /// The annotation position of slot `idx`, if the index is within the
    /// table.
    pub fn pos_right(&self, idx: usize) -> (r: Option<Cell>)
        ensures
            r == (if idx < self.pos_r@.len() {
                Some(self.pos_r@[idx as int])
            } else {
                None::<Cell>
            }),
    {
        if idx < self.pos_r.len() {
            Some(self.pos_r[idx])
        } else {
            None
        }
    }
}

/// The band, column and row of slot `k`, with their ranges.
#[verifier::rlimit(60)]
fn decomp_exec(mode: MultiRowsMode, columns: usize, rpc: usize, bands: usize, k: usize) -> (r: (
    usize,
    usize,
    usize,
))
    requires
        1 <= columns <= COUNT_LIMIT,
        1 <= rpc,
        1 <= bands,
        rpc * bands <= COUNT_LIMIT,
        1 <= k <= columns * rpc * bands,
        mode.bands() == bands,
    ensures
        (r.0 as int, r.1 as int, r.2 as int) == slot_decomp(mode, columns as int, rpc as int, k as int),
        r.0 < bands,
        1 <= r.1 <= columns,
        1 <= r.2 <= rpc,
        r.0 * rpc + r.2 <= rpc * bands,
{
    let t: usize = k - 1;
    proof {
        assert(columns * rpc <= 100_000_000 && columns * rpc * bands <= 100_000_000 && (columns * rpc) * bands == columns * rpc * bands && columns * rpc
            >= 1) by (nonlinear_arith)
            requires
                1 <= columns <= COUNT_LIMIT,
                1 <= rpc,
                1 <= bands,
                rpc * bands <= COUNT_LIMIT,
                COUNT_LIMIT == 10_000usize,
        ;
        lemma_mod_division_less_than_divisor(t as int, rpc as int);
    }
    let j: usize = t % rpc + 1;
    match mode {
        MultiRowsMode::HorizontalPage { rows: _ } => {
            let half: usize = columns / 2;
            proof {
                lemma_div_nonincreasing(columns as int, 2);
                lemma_div_pos_is_pos(columns as int, 2);
                assert(bands <= 10_000 && rpc <= 10_000) by (nonlinear_arith)
                    requires
                        1 <= rpc,
                        1 <= bands,
                        rpc * bands <= COUNT_LIMIT,
                        COUNT_LIMIT == 10_000usize,
                ;
                assert(bands * half <= 100_000_000) by (nonlinear_arith)
                    requires
                        0 <= bands <= 10_000,
                        0 <= half <= 10_000,
                ;
                assert((bands * half) * rpc == (rpc * bands) * half) by (nonlinear_arith);
                assert((rpc * bands) * half <= 100_000_000) by (nonlinear_arith)
                    requires
                        0 <= rpc * bands <= 10_000,
                        0 <= half <= 10_000,
                ;
                assert((bands * half) * rpc <= columns * rpc * bands && (bands * half) * rpc
                    == bands * (half * rpc)) by (nonlinear_arith)
                    requires
                        1 <= columns,
                        1 <= rpc,
                        1 <= bands,
                        0 <= half <= columns,
                ;
                assert(half * rpc <= 100_000_000) by (nonlinear_arith)
                    requires
                        0 <= half <= 10_000,
                        0 <= rpc <= 10_000,
                ;
            }
            let sz1: usize = bands * half * rpc;
            if t < sz1 {
                let cell: usize = half * rpc;
                proof {
                    assert(half >= 1 && cell >= 1) by (nonlinear_arith)
                        requires
                            cell == half * rpc,
                            1 <= rpc,
                            t < bands * (half * rpc),
                            t < (bands * half) * rpc,
                            (bands * half) * rpc == bands * (half * rpc),
                            0 <= t,
                            1 <= bands,
                            0 <= half,
                    ;
                    assert(t < cell * bands) by (nonlinear_arith)
                        requires
                            cell == half * rpc,
                            t < (bands * half) * rpc,
                    ;
                    lemma_multiply_divide_lt(t as int, cell as int, bands as int);
                    lemma_mod_division_less_than_divisor(t as int, cell as int);
                    assert((t % cell) < rpc * half) by (nonlinear_arith)
                        requires
                            (t % cell) < cell,
                            cell == half * rpc,
                            1 <= rpc,
                            1 <= half,
                    ;
                    lemma_multiply_divide_lt((t % cell) as int, rpc as int, half as int);
                }
                let rid: usize = t / cell;
                let i: usize = (t % cell) / rpc + 1;
                proof {
                    assert(rid * rpc + j <= rpc * bands) by (nonlinear_arith)
                        requires
                            rid < bands,
                            1 <= j <= rpc,
                            0 <= rid,
                            1 <= rpc,
                            1 <= bands,
                    ;
                }
                (rid, i, j)
            } else {
                let t2: usize = t - sz1;
                let cols2: usize = columns - half;
                proof {
                    assert(cols2 >= 1 && cols2 * rpc >= 1 && cols2 * rpc <= 100_000_000 && t2 < bands * (cols2 * rpc) && t2 < (cols2 * rpc) * bands)
                        by (nonlinear_arith)
                        requires
                            1 <= columns <= COUNT_LIMIT,
                            0 <= half <= columns / 2 < columns,
                            cols2 == columns - half,
                            1 <= rpc,
                            1 <= bands,
                            rpc * bands <= COUNT_LIMIT,
                            COUNT_LIMIT == 10_000usize,
                            t2 == t - (bands * half) * rpc,
                            (bands * half) * rpc <= t,
                            t < columns * rpc * bands,
                    ;
                }
                let cell: usize = cols2 * rpc;
                proof {
                    lemma_multiply_divide_lt(t2 as int, cell as int, bands as int);
                    lemma_mod_division_less_than_divisor(t2 as int, cell as int);
                    assert((t2 % cell) < rpc * cols2) by (nonlinear_arith)
                        requires
                            (t2 % cell) < cell,
                            cell == cols2 * rpc,
                            1 <= rpc,
                            1 <= cols2,
                    ;
                    lemma_multiply_divide_lt((t2 % cell) as int, rpc as int, cols2 as int);
                }
                let rid: usize = t2 / cell;
                let i: usize = half + 1 + (t2 % cell) / rpc;
                proof {
                    assert(rid * rpc + j <= rpc * bands) by (nonlinear_arith)
                        requires
                            rid < bands,
                            1 <= j <= rpc,
                            0 <= rid,
                            1 <= rpc,
                            1 <= bands,
                    ;
                }
                (rid, i, j)
            }
        },
        _ => {
            let band: usize = columns * rpc;
            proof {
                lemma_multiply_divide_lt(t as int, band as int, bands as int);
                lemma_mod_division_less_than_divisor(t as int, band as int);
                assert((t % band) < rpc * columns) by (nonlinear_arith)
                    requires
                        (t % band) < band,
                        band == columns * rpc,
                        1 <= rpc,
                        1 <= columns,
                ;
                lemma_multiply_divide_lt((t % band) as int, rpc as int, columns as int);
            }
            let rid: usize = t / band;
            let i: usize = (t % band) / rpc + 1;
            proof {
                assert(rid * rpc + j <= rpc * bands) by (nonlinear_arith)
                    requires
                        rid < bands,
                        1 <= j <= rpc,
                        0 <= rid,
                        1 <= rpc,
                        1 <= bands,
                ;
            }
            (rid, i, j)
        },
    }
}

/// The main position of the slot at band `rid`, column `i`, row `j`.
fn cell_at(
    canvas: &CanvasConfig,
    book: &BookConfig,
    cw: i64,
    rh: i64,
    rpc: usize,
    columns: usize,
    rid: usize,
    i: usize,
    j: usize,
) -> (c: Cell)
    requires
        canvas.wf(),
        book.wf(),
        -4 * (COORD_LIMIT as int) <= cw <= 4 * (COORD_LIMIT as int),
        -3 * (COORD_LIMIT as int) <= rh <= 3 * (COORD_LIMIT as int),
        1 <= i <= columns <= COUNT_LIMIT,
        1 <= j <= rpc,
        rid * rpc + j <= COUNT_LIMIT,
    ensures
        c.x == slot_x(*canvas, cw as int, columns as int, i as int),
        c.y == slot_y(*canvas, *book, rh as int, rpc as int, rid as int, j as int),
        -800_000_000_000_000_000 <= c.x <= 800_000_000_000_000_000,
        -800_000_000_000_000_000 <= c.y <= 800_000_000_000_000_000,
{
    proof {
        assert(-400_000_000_000_000_000 <= (cw as int) * (i as int) <= 400_000_000_000_000_000)
            by (nonlinear_arith)
            requires
                -4 * (COORD_LIMIT as int) <= cw <= 4 * (COORD_LIMIT as int),
                1 <= i <= COUNT_LIMIT,
                COORD_LIMIT == 100_000_000_000i64,
                COUNT_LIMIT == 10_000usize,
        ;
        assert(0 <= (rid as int) * (rpc as int) + (j as int) <= COUNT_LIMIT) by (nonlinear_arith)
            requires
                0 <= rid,
                1 <= j,
                0 <= rpc,
                rid * rpc + j <= COUNT_LIMIT,
        ;
        assert(-300_000_000_000_000_000 <= ((rid * rpc + j) as int) * (rh as int)
            <= 300_000_000_000_000_000) by (nonlinear_arith)
            requires
                0 <= (rid * rpc + j) as int <= COUNT_LIMIT as int,
                -3 * (COORD_LIMIT as int) <= rh <= 3 * (COORD_LIMIT as int),
                COORD_LIMIT == 100_000_000_000i64,
                COUNT_LIMIT == 10_000usize,
        ;
    }
    let xi: i64 = cw * (i as i64);
    let mut x: i64 = canvas.canvas_width - canvas.margins_right - xi;
    if 2 * i > columns {
        x = x - canvas.leaf_center_width;
    }
    let m: usize = rid * rpc + j;
    let y: i64 = canvas.canvas_height - canvas.margins_top - (m as i64) * rh + book.row_delta_y;
    Cell { x, y }
}

impl Layout {
    /// Builds the slot grid. Fails on zero columns or rows, and on a band
    /// count that does not evenly divide the rows per leaf; otherwise both
    /// tables hold exactly `capacity + 1` cells, index 0 the origin
    /// sentinel, and every slot sits at its reading-order grid position,
    /// the annotation position half a column to the right.
    #[verifier::loop_isolation(false)]
    #[verifier::rlimit(60)]
    pub fn build(book: &BookConfig, canvas: &CanvasConfig, multirows: MultiRowsMode) -> (r: Result<
        Layout,
        ConfigError,
    >)
        requires
            book.wf(),
            canvas.wf(),
            multirows.bands() <= COUNT_LIMIT as nat,
        ensures
            match r {
                Ok(l) => {
                    &&& l.wf()
                    &&& canvas.leaf_col >= 1
                    &&& book.row_num >= 1
                    &&& l.columns == canvas.leaf_col
                    &&& l.multirows_bands as nat == multirows.bands()
                    &&& l.rows_per_column * l.multirows_bands == book.row_num
                    &&& l.per_page == canvas.leaf_col * book.row_num
                    &&& l.cw == div_trunc(
                        canvas.canvas_width - canvas.margins_left - canvas.margins_right
                            - canvas.leaf_center_width,
                        canvas.leaf_col as int,
                    )
                    &&& l.rh == div_trunc(
                        canvas.canvas_height - canvas.margins_top - canvas.margins_bottom,
                        book.row_num as int,
                    )
                    &&& l.canvas_width == canvas.canvas_width
                    &&& l.canvas_height == canvas.canvas_height
                    &&& l.margins_top == canvas.margins_top
                    &&& l.margins_bottom == canvas.margins_bottom
                    &&& l.pos_l@[0] == (Cell { x: 0i64, y: 0i64 })
                    &&& l.pos_r@[0] == (Cell { x: 0i64, y: 0i64 })
                    &&& forall|k: int|
                        1 <= k <= l.per_page ==> {
                            let d = slot_decomp(
                                multirows,
                                l.columns as int,
                                l.rows_per_column as int,
                                k,
                            );
                            #[trigger] l.pos_l@[k].x == slot_x(*canvas, l.cw as int, l.columns as int, d.1)
                                && l.pos_l@[k].y == slot_y(
                                *canvas,
                                *book,
                                l.rh as int,
                                l.rows_per_column as int,
                                d.0,
                                d.2,
                            ) && l.pos_r@[k].x == l.pos_l@[k].x + div_trunc(l.cw as int, 2)
                                && l.pos_r@[k].y == l.pos_l@[k].y
                        }
                },
                Err(e) => {
                    &&& (canvas.leaf_col == 0 || book.row_num == 0 || match multirows {
                        MultiRowsMode::Disabled => false,
                        MultiRowsMode::HorizontalLeaf { rows } => rows == 0 || book.row_num % rows
                            != 0,
                        MultiRowsMode::HorizontalPage { rows } => rows == 0 || book.row_num % rows
                            != 0,
                    })
                    &&& e == (if canvas.leaf_col == 0 {
                        ConfigError::ZeroColumns
                    } else if book.row_num == 0 {
                        ConfigError::ZeroRows
                    } else {
                        ConfigError::BandsDoNotDivideRows
                    })
                },
            },
    {
        let col_num = canvas.leaf_col;
        let row_num = book.row_num;
        if col_num == 0 {
            return Err(ConfigError::ZeroColumns);
        }
        if row_num == 0 {
            return Err(ConfigError::ZeroRows);
        }

        let inner_w = canvas.canvas_width - canvas.margins_left - canvas.margins_right
            - canvas.leaf_center_width;
        let cw = div_i64_pub(inner_w, col_num as i64);
        let inner_h = canvas.canvas_height - canvas.margins_top - canvas.margins_bottom;
        let rh = div_i64_pub(inner_h, row_num as i64);

        let (rows_per_column, bands): (usize, usize) = match multirows {
            MultiRowsMode::Disabled => (row_num, 1),
            MultiRowsMode::HorizontalLeaf { rows } => {
                if rows == 0 || row_num % rows != 0 {
                    return Err(ConfigError::BandsDoNotDivideRows);
                }
                proof {
                    assert((row_num / rows) * rows == row_num && row_num / rows >= 1)
                        by (nonlinear_arith)
                        requires
                            1 <= rows,
                            1 <= row_num,
                            row_num % rows == 0,
                    ;
                }
                (row_num / rows, rows)
            },
            MultiRowsMode::HorizontalPage { rows } => {
                if rows == 0 || row_num % rows != 0 {
                    return Err(ConfigError::BandsDoNotDivideRows);
                }
                proof {
                    assert((row_num / rows) * rows == row_num && row_num / rows >= 1)
                        by (nonlinear_arith)
                        requires
                            1 <= rows,
                            1 <= row_num,
                            row_num % rows == 0,
                    ;
                }
                (row_num / rows, rows)
            },
        };
        proof {
            assert(rows_per_column * bands == row_num && rows_per_column >= 1);
        }

        proof {
            assert(col_num * row_num <= 100_000_000 && col_num * rows_per_column
                * bands == col_num * row_num) by (nonlinear_arith)
                requires
                    1 <= col_num <= COUNT_LIMIT,
                    1 <= row_num <= COUNT_LIMIT,
                    rows_per_column * bands == row_num,
                    COUNT_LIMIT == 10_000usize,
            ;
        }
        let per_page: usize = col_num * row_num;

        let half_cw = div_i64_pub(cw, 2);
        let mut pos_l: Vec<Cell> = Vec::new();
        let mut pos_r: Vec<Cell> = Vec::new();
        pos_l.push(Cell { x: 0, y: 0 });
        pos_r.push(Cell { x: 0, y: 0 });

        let mut k: usize = 1;
        while k <= per_page
            invariant
                1 <= k <= per_page + 1,
                pos_l@.len() == k,
                pos_r@.len() == k,
                pos_l@[0] == (Cell { x: 0i64, y: 0i64 }),
                pos_r@[0] == (Cell { x: 0i64, y: 0i64 }),
                forall|m: int|
                    0 <= m < k ==> cell_bounded(#[trigger] pos_l@[m]) && cell_bounded(pos_r@[m]),
                forall|m: int|
                    1 <= m < k ==> {
                        let d = slot_decomp(multirows, col_num as int, rows_per_column as int, m);
                        #[trigger] pos_l@[m].x == slot_x(*canvas, cw as int, col_num as int, d.1)
                            && pos_l@[m].y == slot_y(
                            *canvas,
                            *book,
                            rh as int,
                            rows_per_column as int,
                            d.0,
                            d.2,
                        ) && pos_r@[m].x == pos_l@[m].x + div_trunc(cw as int, 2) && pos_r@[m].y
                            == pos_l@[m].y
                    },
            decreases per_page + 1 - k,
        {
            let (rid, i, j) = decomp_exec(multirows, col_num, rows_per_column, bands, k);
            let c = cell_at(canvas, book, cw, rh, rows_per_column, col_num, rid, i, j);
            pos_l.push(c);
            pos_r.push(Cell { x: c.x + half_cw, y: c.y });
            proof {
                assert(pos_l@[k as int] == c);
                assert(pos_r@[k as int] == (Cell { x: (c.x + half_cw) as i64, y: c.y }));
                assert(cell_bounded(pos_l@[k as int]));
                assert(cell_bounded(pos_r@[k as int]));
            }
            k = k + 1;
        }

        Ok(
            Layout {
                per_page,
                pos_l,
                pos_r,
                cw,
                rh,
                canvas_width: canvas.canvas_width,
                canvas_height: canvas.canvas_height,
                margins_top: canvas.margins_top,
                margins_bottom: canvas.margins_bottom,
                rows_per_column,
                columns: col_num,
                multirows_bands: bands,
            },
        )
    }
}

} // verus!


