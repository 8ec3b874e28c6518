//! One side (bids or asks) of the depth ring: a row-major grid of sizes with the
//! maximum of each column and of each block of rows kept beside it.
use crate::math;
use vstd::prelude::*;

verus! {

/// How many rows of a column share one cached block maximum.
pub const Y_MAX_BLOCK_HEIGHT_BINS: usize = 16;

/// How many rows the grid has: price bins around the anchor.
pub const GRID_TEX_H: usize = 2048;

/// How many blocks of rows a column has.
pub const GRID_BLOCKS: usize = 128;

/// The widest grid that is ever laid out.
pub const GRID_MAX_W: usize = 0x8000;

/// The row-major position of the cell in column `x` and row `y`.
pub open spec fn at(w: int, x: int, y: int) -> int {
    y * w + x
}

/// The cells of column `x`, from the lowest row up.
pub open spec fn column(cells: Seq<u32>, w: int, x: int) -> Seq<u32> {
    Seq::new(GRID_TEX_H as nat, |y: int| cells[at(w, x, y)])
}

/// The rows of one block of a column.
pub open spec fn block(col: Seq<u32>, by: int) -> Seq<u32> {
    col.subrange(by * Y_MAX_BLOCK_HEIGHT_BINS, (by + 1) * Y_MAX_BLOCK_HEIGHT_BINS)
}

/// A column in which nothing is present.
pub open spec fn empty_column() -> Seq<u32> {
    Seq::new(GRID_TEX_H as nat, |y: int| 0u32)
}

/// `col` where `present` holds, and 0 elsewhere.
pub open spec fn masked(col: Seq<u32>, present: Seq<bool>) -> Seq<u32> {
    Seq::new(col.len(), |y: int| if present[y] { col[y] } else { 0u32 })
}

/// Which rows of a column hold something.
pub open spec fn presence(col: Seq<u32>) -> Seq<bool> {
    Seq::new(col.len(), |y: int| col[y] > 0)
}

/// One side of the ring with its cached maxima.
#[derive(Debug, Clone)]
pub struct SideGrid {
    pub cells: Vec<u32>,
    pub col_max: Vec<u32>,
    pub block_max: Vec<u32>,
}

pub proof fn lemma_at_bounds(w: int, h: int, x: int, y: int)
    requires
        0 <= x < w,
        0 <= y < h,
    ensures
        0 <= at(w, x, y) < w * h,
{
    assert(0 <= y * w + x < w * h) by (nonlinear_arith)
        requires
            0 <= x < w,
            0 <= y < h,
    ;
}

pub proof fn lemma_at_injective(w: int, x1: int, y1: int, x2: int, y2: int)
    requires
        0 <= x1 < w,
        0 <= x2 < w,
        at(w, x1, y1) == at(w, x2, y2),
    ensures
        x1 == x2,
        y1 == y2,
{
    assert(y1 == y2) by (nonlinear_arith)
        requires
            0 <= x1 < w,
            0 <= x2 < w,
            y1 * w + x1 == y2 * w + x2,
    ;
}

/// Every position of the grid is that of one cell.
pub proof fn lemma_at_covers(w: int, h: int, i: int)
    requires
        0 < w,
        0 <= i < w * h,
    ensures
        0 <= i % w < w,
        0 <= i / w < h,
        i == at(w, i % w, i / w),
{
    assert(0 <= i % w < w && 0 <= i / w < h && i == (i / w) * w + i % w) by (nonlinear_arith)
        requires
            0 < w,
            0 <= i < w * h,
    ;
}

impl SideGrid {
    /// The cells of column `x`.
    pub open spec fn col(&self, w: int, x: int) -> Seq<u32> {
        column(self.cells@, w, x)
    }

    /// The three buffers have the sizes of a grid of width `w`.
    pub open spec fn sized(&self, w: int) -> bool {
        &&& 0 <= w <= GRID_MAX_W
        &&& self.cells@.len() == w * GRID_TEX_H
        &&& self.col_max@.len() == w
        &&& self.block_max@.len() == w * GRID_BLOCKS
    }

    /// The cached maxima of column `x` are those of its cells.
    pub open spec fn column_stats(&self, w: int, x: int) -> bool {
        &&& self.col_max@[x] == math::seq_max(self.col(w, x))
        &&& forall|by: int|
            0 <= by < GRID_BLOCKS ==> #[trigger] self.block_max@[at(w, x, by)] == math::seq_max(
                block(self.col(w, x), by),
            )
    }

    /// The buffers fit the width, and every cached maximum is that of its cells.
    pub open spec fn wf(&self, w: int) -> bool {
        &&& self.sized(w)
        &&& forall|x: int| 0 <= x < w ==> #[trigger] self.column_stats(w, x)
    }

    /// A grid without columns.
    pub fn empty() -> (g: SideGrid)
        ensures
            g.wf(0),
            g.cells@ == Seq::<u32>::empty(),
    {
        SideGrid { cells: Vec::new(), col_max: Vec::new(), block_max: Vec::new() }
    }

    /// A grid of width `w` in which nothing is present.
    pub fn zeroed(w: usize) -> (g: SideGrid)
        requires
            w <= GRID_MAX_W,
        ensures
            g.wf(w as int),
            g.cells@ == Seq::new((w * GRID_TEX_H) as nat, |i: int| 0u32),
    {
        let g = SideGrid {
            cells: vec![0u32; w * GRID_TEX_H],
            col_max: vec![0u32; w],
            block_max: vec![0u32; w * GRID_BLOCKS],
        };
        proof {
            g.lemma_all_zero(w as int);
        }
        g
    }

    proof fn lemma_all_zero(&self, w: int)
        requires
            self.sized(w),
            forall|i: int| 0 <= i < self.cells@.len() ==> self.cells@[i] == 0,
            forall|i: int| 0 <= i < self.col_max@.len() ==> self.col_max@[i] == 0,
            forall|i: int| 0 <= i < self.block_max@.len() ==> self.block_max@[i] == 0,
        ensures
            self.wf(w),
            forall|x: int| 0 <= x < w ==> #[trigger] self.col(w, x) == empty_column(),
    {
        assert forall|x: int| 0 <= x < w implies #[trigger] self.col(w, x) == empty_column() by {
            assert forall|y: int| 0 <= y < GRID_TEX_H implies self.col(w, x)[y] == 0 by {
                lemma_at_bounds(w, GRID_TEX_H as int, x, y);
            }
            assert(self.col(w, x) =~= empty_column());
        }
        assert forall|x: int| 0 <= x < w implies #[trigger] self.column_stats(w, x) by {
            assert(self.col(w, x) == empty_column());
            math::lemma_max_of_zeros(empty_column());
            assert forall|by: int| 0 <= by < GRID_BLOCKS implies #[trigger] self.block_max@[at(
                w,
                x,
                by,
            )] == math::seq_max(block(self.col(w, x), by)) by {
                lemma_at_bounds(w, GRID_BLOCKS as int, x, by);
                math::lemma_max_of_zeros(block(empty_column(), by));
            }
        }
    }

    /// What a write to column `x` leaves of the other columns.
    pub open spec fn only_column(&self, before: &SideGrid, w: int, x: int) -> bool {
        &&& forall|x2: int, y: int|
            0 <= x2 < w && x2 != x && 0 <= y < GRID_TEX_H ==> #[trigger] self.cells@[at(w, x2, y)]
                == before.cells@[at(w, x2, y)]
        &&& forall|x2: int|
            0 <= x2 < w && x2 != x ==> #[trigger] self.col_max@[x2] == before.col_max@[x2]
        &&& forall|x2: int, by: int|
            0 <= x2 < w && x2 != x && 0 <= by < GRID_BLOCKS ==> #[trigger] self.block_max@[at(
                w,
                x2,
                by,
            )] == before.block_max@[at(w, x2, by)]
    }

    proof fn lemma_only_column(&self, before: &SideGrid, w: int, x: int)
        requires
            before.wf(w),
            self.sized(w),
            0 <= x < w,
            self.only_column(before, w, x),
            self.column_stats(w, x),
        ensures
            self.wf(w),
            forall|x2: int|
                0 <= x2 < w && x2 != x ==> #[trigger] self.col(w, x2) == before.col(w, x2),
    {
        assert forall|x2: int| 0 <= x2 < w && x2 != x implies #[trigger] self.col(w, x2)
            == before.col(w, x2) by {
            assert(self.col(w, x2) =~= before.col(w, x2));
        }
        assert forall|x2: int| 0 <= x2 < w implies #[trigger] self.column_stats(w, x2) by {
            if x2 != x {
                assert(before.column_stats(w, x2));
                assert(self.col(w, x2) == before.col(w, x2));
            }
        }
    }

    /// Empties column `x`.
    pub fn clear_column(&mut self, w: usize, x: usize)
        requires
            old(self).wf(w as int),
            x < w,
        ensures
            final(self).wf(w as int),
            final(self).col(w as int, x as int) == empty_column(),
            forall|x2: int|
                0 <= x2 < w && x2 != x ==> #[trigger] final(self).col(w as int, x2) == old(self).col(w as int, x2),
    {
        let ghost before = *self;
        let mut y: usize = 0;
        while y < GRID_TEX_H
            invariant
                y <= GRID_TEX_H,
                x < w,
                before.wf(w as int),
                self.sized(w as int),
                self.col_max == before.col_max,
                self.block_max == before.block_max,
                forall|x2: int, y2: int|
                    0 <= x2 < w && 0 <= y2 < GRID_TEX_H ==> #[trigger] self.cells@[at(
                        w as int,
                        x2,
                        y2,
                    )] == if x2 == x && y2 < y {
                        0u32
                    } else {
                        before.cells@[at(w as int, x2, y2)]
                    },
            decreases GRID_TEX_H - y,
        {
            proof {
                lemma_at_bounds(w as int, GRID_TEX_H as int, x as int, y as int);
                assert(y * w <= at(w as int, x as int, y as int));
            }
            let idx: usize = y * w + x;
            let ghost prev = self.cells@;
            self.cells.set(idx, 0);
            proof {
                assert forall|x2: int, y2: int|
                    0 <= x2 < w && 0 <= y2 < GRID_TEX_H implies #[trigger] self.cells@[at(
                    w as int,
                    x2,
                    y2,
                )] == if x2 == x && y2 < y + 1 {
                    0u32
                } else {
                    before.cells@[at(w as int, x2, y2)]
                } by {
                    lemma_at_bounds(w as int, GRID_TEX_H as int, x2, y2);
                    if at(w as int, x2, y2) == idx {
                        lemma_at_injective(w as int, x2, y2, x as int, y as int);
                    }
                    assert(prev[at(w as int, x2, y2)] == if x2 == x && y2 < y {
                        0u32
                    } else {
                        before.cells@[at(w as int, x2, y2)]
                    });
                }
            }
            y += 1;
        }
        self.col_max.set(x, 0);
        let mut by: usize = 0;
        let ghost cleared = self.cells@;
        let ghost col_max = self.col_max@;
        while by < GRID_BLOCKS
            invariant
                by <= GRID_BLOCKS,
                x < w,
                self.sized(w as int),
                before.sized(w as int),
                self.cells@ == cleared,
                self.col_max@ == col_max,
                forall|x2: int, b2: int|
                    0 <= x2 < w && 0 <= b2 < GRID_BLOCKS ==> #[trigger] self.block_max@[at(
                        w as int,
                        x2,
                        b2,
                    )] == if x2 == x && b2 < by {
                        0u32
                    } else {
                        before.block_max@[at(w as int, x2, b2)]
                    },
            decreases GRID_BLOCKS - by,
        {
            proof {
                lemma_at_bounds(w as int, GRID_BLOCKS as int, x as int, by as int);
                assert(by * w <= at(w as int, x as int, by as int));
            }
            let idx: usize = by * w + x;
            let ghost prev = self.block_max@;
            self.block_max.set(idx, 0);
            proof {
                assert forall|x2: int, b2: int|
                    0 <= x2 < w && 0 <= b2 < GRID_BLOCKS implies #[trigger] self.block_max@[at(
                    w as int,
                    x2,
                    b2,
                )] == if x2 == x && b2 < by + 1 {
                    0u32
                } else {
                    before.block_max@[at(w as int, x2, b2)]
                } by {
                    lemma_at_bounds(w as int, GRID_BLOCKS as int, x2, b2);
                    if at(w as int, x2, b2) == idx {
                        lemma_at_injective(w as int, x2, b2, x as int, by as int);
                    }
                    assert(prev[at(w as int, x2, b2)] == if x2 == x && b2 < by {
                        0u32
                    } else {
                        before.block_max@[at(w as int, x2, b2)]
                    });
                }
            }
            by += 1;
        }
        proof {
            assert(self.col(w as int, x as int) =~= empty_column());
            math::lemma_max_of_zeros(empty_column());
            assert forall|b2: int| 0 <= b2 < GRID_BLOCKS implies #[trigger] self.block_max@[at(
                w as int,
                x as int,
                b2,
            )] == math::seq_max(block(self.col(w as int, x as int), b2)) by {
                math::lemma_max_of_zeros(block(empty_column(), b2));
            }
            self.lemma_only_column(&before, w as int, x as int);
        }
    }

    /// Makes column `to` equal to column `from`.
    pub fn copy_column(&mut self, w: usize, from: usize, to: usize)
        requires
            old(self).wf(w as int),
            from < w,
            to < w,
            from != to,
        ensures
            final(self).wf(w as int),
            final(self).col(w as int, to as int) == old(self).col(w as int, from as int),
            forall|x2: int|
                0 <= x2 < w && x2 != to ==> #[trigger] final(self).col(w as int, x2) == old(self).col(w as int, x2),
    {
        let ghost before = *self;
        let mut y: usize = 0;
        while y < GRID_TEX_H
            invariant
                y <= GRID_TEX_H,
                from < w,
                to < w,
                from != to,
                before.wf(w as int),
                self.sized(w as int),
                self.col_max == before.col_max,
                self.block_max == before.block_max,
                forall|x2: int, y2: int|
                    0 <= x2 < w && 0 <= y2 < GRID_TEX_H ==> #[trigger] self.cells@[at(
                        w as int,
                        x2,
                        y2,
                    )] == if x2 == to && y2 < y {
                        before.cells@[at(w as int, from as int, y2)]
                    } else {
                        before.cells@[at(w as int, x2, y2)]
                    },
            decreases GRID_TEX_H - y,
        {
            proof {
                lemma_at_bounds(w as int, GRID_TEX_H as int, from as int, y as int);
                lemma_at_bounds(w as int, GRID_TEX_H as int, to as int, y as int);
                assert(y * w <= at(w as int, from as int, y as int));
                assert(self.cells@[at(w as int, from as int, y as int)] == before.cells@[at(
                    w as int,
                    from as int,
                    y as int,
                )]);
            }
            let from_idx: usize = y * w + from;
            let to_idx: usize = y * w + to;
            let ghost prev = self.cells@;
            let v: u32 = self.cells[from_idx];
            self.cells.set(to_idx, v);
            proof {
                assert forall|x2: int, y2: int|
                    0 <= x2 < w && 0 <= y2 < GRID_TEX_H implies #[trigger] self.cells@[at(
                    w as int,
                    x2,
                    y2,
                )] == if x2 == to && y2 < y + 1 {
                    before.cells@[at(w as int, from as int, y2)]
                } else {
                    before.cells@[at(w as int, x2, y2)]
                } by {
                    lemma_at_bounds(w as int, GRID_TEX_H as int, x2, y2);
                    if at(w as int, x2, y2) == to_idx {
                        lemma_at_injective(w as int, x2, y2, to as int, y as int);
                    }
                    assert(prev[at(w as int, x2, y2)] == if x2 == to && y2 < y {
                        before.cells@[at(w as int, from as int, y2)]
                    } else {
                        before.cells@[at(w as int, x2, y2)]
                    });
                }
            }
            y += 1;
        }
        let m: u32 = self.col_max[from];
        self.col_max.set(to, m);
        let mut by: usize = 0;
        let ghost copied = self.cells@;
        let ghost col_max = self.col_max@;
        while by < GRID_BLOCKS
            invariant
                by <= GRID_BLOCKS,
                from < w,
                to < w,
                from != to,
                self.sized(w as int),
                before.sized(w as int),
                self.cells@ == copied,
                self.col_max@ == col_max,
                forall|x2: int, b2: int|
                    0 <= x2 < w && 0 <= b2 < GRID_BLOCKS ==> #[trigger] self.block_max@[at(
                        w as int,
                        x2,
                        b2,
                    )] == if x2 == to && b2 < by {
                        before.block_max@[at(w as int, from as int, b2)]
                    } else {
                        before.block_max@[at(w as int, x2, b2)]
                    },
            decreases GRID_BLOCKS - by,
        {
            proof {
                lemma_at_bounds(w as int, GRID_BLOCKS as int, from as int, by as int);
                lemma_at_bounds(w as int, GRID_BLOCKS as int, to as int, by as int);
                assert(by * w <= at(w as int, from as int, by as int));
                assert(self.block_max@[at(w as int, from as int, by as int)]
                    == before.block_max@[at(w as int, from as int, by as int)]);
            }
            let from_idx: usize = by * w + from;
            let to_idx: usize = by * w + to;
            let ghost prev = self.block_max@;
            let v: u32 = self.block_max[from_idx];
            self.block_max.set(to_idx, v);
            proof {
                assert forall|x2: int, b2: int|
                    0 <= x2 < w && 0 <= b2 < GRID_BLOCKS implies #[trigger] self.block_max@[at(
                    w as int,
                    x2,
                    b2,
                )] == if x2 == to && b2 < by + 1 {
                    before.block_max@[at(w as int, from as int, b2)]
                } else {
                    before.block_max@[at(w as int, x2, b2)]
                } by {
                    lemma_at_bounds(w as int, GRID_BLOCKS as int, x2, b2);
                    if at(w as int, x2, b2) == to_idx {
                        lemma_at_injective(w as int, x2, b2, to as int, by as int);
                    }
                    assert(prev[at(w as int, x2, b2)] == if x2 == to && b2 < by {
                        before.block_max@[at(w as int, from as int, b2)]
                    } else {
                        before.block_max@[at(w as int, x2, b2)]
                    });
                }
            }
            by += 1;
        }
        proof {
            assert(before.column_stats(w as int, from as int));
            assert(self.col(w as int, to as int) =~= before.col(w as int, from as int));
            assert(self.column_stats(w as int, to as int));
            self.lemma_only_column(&before, w as int, to as int);
        }
    }

    /// Raises the cell in column `x` and row `y` to at least `q`.
    pub fn raise(&mut self, w: usize, x: usize, y: usize, q: u32)
        requires
            old(self).wf(w as int),
            x < w,
            y < GRID_TEX_H,
        ensures
            final(self).wf(w as int),
            final(self).col(w as int, x as int) == old(self).col(w as int, x as int).update(
                y as int,
                math::max_u32(old(self).col(w as int, x as int)[y as int], q),
            ),
            forall|x2: int|
                0 <= x2 < w && x2 != x ==> #[trigger] final(self).col(w as int, x2) == old(self).col(w as int, x2),
    {
        let ghost before = *self;
        let by: usize = y / Y_MAX_BLOCK_HEIGHT_BINS;
        proof {
            lemma_at_bounds(w as int, GRID_TEX_H as int, x as int, y as int);
            lemma_at_bounds(w as int, GRID_BLOCKS as int, x as int, by as int);
            assert(y * w <= at(w as int, x as int, y as int));
            assert(by * w <= at(w as int, x as int, by as int));
            assert(before.column_stats(w as int, x as int));
        }
        let idx: usize = y * w + x;
        let bidx: usize = by * w + x;
        if self.cells[idx] < q {
            self.cells.set(idx, q);
        }
        if self.col_max[x] < q {
            self.col_max.set(x, q);
        }
        if self.block_max[bidx] < q {
            self.block_max.set(bidx, q);
        }
        proof {
            let before_col = before.col(w as int, x as int);
            let after_col = self.col(w as int, x as int);
            assert forall|x2: int, y2: int|
                0 <= x2 < w && 0 <= y2 < GRID_TEX_H && (x2 != x || y2
                    != y) implies #[trigger] self.cells@[at(w as int, x2, y2)]
                == before.cells@[at(w as int, x2, y2)] by {
                lemma_at_bounds(w as int, GRID_TEX_H as int, x2, y2);
                if at(w as int, x2, y2) == idx {
                    lemma_at_injective(w as int, x2, y2, x as int, y as int);
                }
            }
            assert forall|x2: int, b2: int|
                0 <= x2 < w && 0 <= b2 < GRID_BLOCKS && (x2 != x || b2
                    != by) implies #[trigger] self.block_max@[at(w as int, x2, b2)]
                == before.block_max@[at(w as int, x2, b2)] by {
                lemma_at_bounds(w as int, GRID_BLOCKS as int, x2, b2);
                if at(w as int, x2, b2) == bidx {
                    lemma_at_injective(w as int, x2, b2, x as int, by as int);
                }
            }
            assert(after_col =~= before_col.update(y as int, math::max_u32(before_col[y as int], q)));
            math::lemma_max_raise(before_col, y as int, q);
            assert forall|b2: int| 0 <= b2 < GRID_BLOCKS implies #[trigger] self.block_max@[at(
                w as int,
                x as int,
                b2,
            )] == math::seq_max(block(after_col, b2)) by {
                assert(before.block_max@[at(w as int, x as int, b2)] == math::seq_max(
                    block(before_col, b2),
                ));
                if b2 == by {
                    let inner = y as int - by * Y_MAX_BLOCK_HEIGHT_BINS;
                    math::lemma_max_raise(block(before_col, b2), inner, q);
                    assert(block(after_col, b2) =~= block(before_col, b2).update(
                        inner,
                        math::max_u32(block(before_col, b2)[inner], q),
                    ));
                } else {
                    assert(block(after_col, b2) =~= block(before_col, b2));
                }
            }
            assert(self.column_stats(w as int, x as int));
            self.lemma_only_column(&before, w as int, x as int);
        }
    }

    /// The cells of column `x`.
    pub fn extract_column(&self, w: usize, x: usize) -> (out: Vec<u32>)
        requires
            self.sized(w as int),
            x < w,
        ensures
            out@ == self.col(w as int, x as int),
    {
        let mut out: Vec<u32> = Vec::with_capacity(GRID_TEX_H);
        let mut y: usize = 0;
        while y < GRID_TEX_H
            invariant
                y <= GRID_TEX_H,
                x < w,
                self.sized(w as int),
                out@ == self.col(w as int, x as int).take(y as int),
            decreases GRID_TEX_H - y,
        {
            proof {
                lemma_at_bounds(w as int, GRID_TEX_H as int, x as int, y as int);
                assert(y * w <= at(w as int, x as int, y as int));
            }
            out.push(self.cells[y * w + x]);
            proof {
                assert(out@ =~= self.col(w as int, x as int).take(y + 1));
            }
            y += 1;
        }
        proof {
            assert(out@ =~= self.col(w as int, x as int));
        }
        out
    }

    /// Which rows of column `x` hold something.
    pub fn column_presence(&self, w: usize, x: usize) -> (out: Vec<bool>)
        requires
            self.sized(w as int),
            x < w,
        ensures
            out@ == presence(self.col(w as int, x as int)),
    {
        let mut out: Vec<bool> = Vec::with_capacity(GRID_TEX_H);
        let mut y: usize = 0;
        while y < GRID_TEX_H
            invariant
                y <= GRID_TEX_H,
                x < w,
                self.sized(w as int),
                out@ == presence(self.col(w as int, x as int)).take(y as int),
            decreases GRID_TEX_H - y,
        {
            proof {
                lemma_at_bounds(w as int, GRID_TEX_H as int, x as int, y as int);
                assert(y * w <= at(w as int, x as int, y as int));
            }
            out.push(self.cells[y * w + x] > 0);
            proof {
                assert(out@ =~= presence(self.col(w as int, x as int)).take(y + 1));
            }
            y += 1;
        }
        proof {
            assert(out@ =~= presence(self.col(w as int, x as int)));
        }
        out
    }

    /// Empties the rows of column `x` that `present` does not keep, and says whether
    /// that changed anything. The cached maxima of the column are left as they were.
    fn mask_cells(&mut self, w: usize, x: usize, present: &Vec<bool>) -> (changed: bool)
        requires
            old(self).sized(w as int),
            x < w,
            present@.len() == GRID_TEX_H,
        ensures
            final(self).sized(w as int),
            final(self).col_max == old(self).col_max,
            final(self).block_max == old(self).block_max,
            final(self).col(w as int, x as int) == masked(
                old(self).col(w as int, x as int),
                present@,
            ),
            forall|x2: int, y2: int|
                0 <= x2 < w && x2 != x && 0 <= y2 < GRID_TEX_H ==> #[trigger] final(self).cells@[at(w as int, x2, y2)] == old(self).cells@[at(w as int, x2, y2)],
            changed <==> final(self).col(w as int, x as int) != old(self).col(
                w as int,
                x as int,
            ),
    {
        let ghost before = *self;
        let mut changed = false;
        let mut y: usize = 0;
        while y < GRID_TEX_H
            invariant
                y <= GRID_TEX_H,
                x < w,
                present@.len() == GRID_TEX_H,
                before.sized(w as int),
                self.sized(w as int),
                self.col_max == before.col_max,
                self.block_max == before.block_max,
                forall|x2: int, y2: int|
                    0 <= x2 < w && 0 <= y2 < GRID_TEX_H ==> #[trigger] self.cells@[at(
                        w as int,
                        x2,
                        y2,
                    )] == if x2 == x && y2 < y && !present@[y2] {
                        0u32
                    } else {
                        before.cells@[at(w as int, x2, y2)]
                    },
                changed <==> exists|y2: int|
                    0 <= y2 < y && #[trigger] self.cells@[at(w as int, x as int, y2)]
                        != before.cells@[at(w as int, x as int, y2)],
            decreases GRID_TEX_H - y,
        {
            proof {
                lemma_at_bounds(w as int, GRID_TEX_H as int, x as int, y as int);
                assert(y * w <= at(w as int, x as int, y as int));
            }
            let idx: usize = y * w + x;
            let ghost prev = self.cells@;
            let ghost was_changed = changed;
            assert(prev[at(w as int, x as int, y as int)] == before.cells@[at(
                w as int,
                x as int,
                y as int,
            )]);
            if !present[y] && self.cells[idx] != 0 {
                self.cells.set(idx, 0);
                changed = true;
            }
            proof {
                assert forall|x2: int, y2: int|
                    0 <= x2 < w && 0 <= y2 < GRID_TEX_H implies #[trigger] self.cells@[at(
                    w as int,
                    x2,
                    y2,
                )] == if x2 == x && y2 < y + 1 && !present@[y2] {
                    0u32
                } else {
                    before.cells@[at(w as int, x2, y2)]
                } by {
                    lemma_at_bounds(w as int, GRID_TEX_H as int, x2, y2);
                    if at(w as int, x2, y2) == idx {
                        lemma_at_injective(w as int, x2, y2, x as int, y as int);
                    }
                    assert(prev[at(w as int, x2, y2)] == if x2 == x && y2 < y && !present@[y2] {
                        0u32
                    } else {
                        before.cells@[at(w as int, x2, y2)]
                    });
                }
                assert forall|y2: int| 0 <= y2 < y implies prev[at(w as int, x as int, y2)]
                    == #[trigger] self.cells@[at(w as int, x as int, y2)] by {
                    lemma_at_bounds(w as int, GRID_TEX_H as int, x as int, y2);
                    if at(w as int, x as int, y2) == idx {
                        lemma_at_injective(w as int, x as int, y2, x as int, y as int);
                    }
                }
                if was_changed {
                    let y2 = choose|y2: int|
                        0 <= y2 < y && #[trigger] prev[at(w as int, x as int, y2)]
                            != before.cells@[at(w as int, x as int, y2)];
                    assert(self.cells@[at(w as int, x as int, y2)] != before.cells@[at(
                        w as int,
                        x as int,
                        y2,
                    )]);
                } else if changed {
                    assert(self.cells@[at(w as int, x as int, y as int)] != before.cells@[at(
                        w as int,
                        x as int,
                        y as int,
                    )]);
                } else {
                    assert forall|y2: int| 0 <= y2 < y + 1 implies #[trigger] self.cells@[at(
                        w as int,
                        x as int,
                        y2,
                    )] == before.cells@[at(w as int, x as int, y2)] by {
                        if y2 < y {
                            assert(prev[at(w as int, x as int, y2)] == before.cells@[at(
                                w as int,
                                x as int,
                                y2,
                            )]);
                        }
                    }
                }
            }
            y += 1;
        }
        proof {
            let after_col = self.col(w as int, x as int);
            let before_col = before.col(w as int, x as int);
            assert(after_col =~= masked(before_col, present@));
            if changed {
                let y2 = choose|y2: int|
                    0 <= y2 < y && #[trigger] self.cells@[at(w as int, x as int, y2)]
                        != before.cells@[at(w as int, x as int, y2)];
                assert(after_col[y2] != before_col[y2]);
            } else {
                assert(after_col =~= before_col);
            }
        }
        changed
    }

    /// Recomputes the cached maxima of column `x` from its cells.
    fn recompute_column_stats(&mut self, w: usize, x: usize)
        requires
            old(self).sized(w as int),
            x < w,
        ensures
            final(self).sized(w as int),
            final(self).cells == old(self).cells,
            final(self).only_column(old(self), w as int, x as int),
            final(self).column_stats(w as int, x as int),
    {
        let ghost before = *self;
        let ghost col = self.col(w as int, x as int);
        let mut col_max: u32 = 0;
        let mut by: usize = 0;
        while by < GRID_BLOCKS
            invariant
                by <= GRID_BLOCKS,
                x < w,
                before.sized(w as int),
                self.sized(w as int),
                self.cells == before.cells,
                self.col_max == before.col_max,
                col == self.col(w as int, x as int),
                col_max == math::seq_max(col.take(by * Y_MAX_BLOCK_HEIGHT_BINS)),
                forall|x2: int, b2: int|
                    0 <= x2 < w && 0 <= b2 < GRID_BLOCKS ==> #[trigger] self.block_max@[at(
                        w as int,
                        x2,
                        b2,
                    )] == if x2 == x && b2 < by {
                        math::seq_max(block(col, b2))
                    } else {
                        before.block_max@[at(w as int, x2, b2)]
                    },
            decreases GRID_BLOCKS - by,
        {
            let mut m: u32 = 0;
            let y0: usize = by * Y_MAX_BLOCK_HEIGHT_BINS;
            let mut k: usize = 0;
            proof {
                assert(block(col, by as int).take(0) =~= Seq::<u32>::empty());
                assert(col.take(y0 + 0) =~= col.take(by * Y_MAX_BLOCK_HEIGHT_BINS));
            }
            while k < Y_MAX_BLOCK_HEIGHT_BINS
                invariant
                    k <= Y_MAX_BLOCK_HEIGHT_BINS,
                    by < GRID_BLOCKS,
                    y0 == by * Y_MAX_BLOCK_HEIGHT_BINS,
                    x < w,
                    self.sized(w as int),
                    col == self.col(w as int, x as int),
                    m == math::seq_max(block(col, by as int).take(k as int)),
                    col_max == math::seq_max(col.take(y0 + k)),
                decreases Y_MAX_BLOCK_HEIGHT_BINS - k,
            {
                let y: usize = y0 + k;
                proof {
                    lemma_at_bounds(w as int, GRID_TEX_H as int, x as int, y as int);
                    assert(y * w <= at(w as int, x as int, y as int));
                    let b = block(col, by as int);
                    assert(b.take(k + 1).drop_last() =~= b.take(k as int));
                    assert(b.take(k + 1).last() == col[y as int]);
                    assert(col.take(y0 + k + 1).drop_last() =~= col.take(y0 + k));
                    assert(col.take(y0 + k + 1).last() == col[y as int]);
                }
                let v: u32 = self.cells[y * w + x];
                if v > m {
                    m = v;
                }
                if v > col_max {
                    col_max = v;
                }
                k += 1;
            }
            proof {
                assert(block(col, by as int).take(Y_MAX_BLOCK_HEIGHT_BINS as int) =~= block(
                    col,
                    by as int,
                ));
                lemma_at_bounds(w as int, GRID_BLOCKS as int, x as int, by as int);
                assert(by * w <= at(w as int, x as int, by as int));
            }
            let idx: usize = by * w + x;
            let ghost prev = self.block_max@;
            self.block_max.set(idx, m);
            proof {
                assert forall|x2: int, b2: int|
                    0 <= x2 < w && 0 <= b2 < GRID_BLOCKS implies #[trigger] self.block_max@[at(
                    w as int,
                    x2,
                    b2,
                )] == if x2 == x && b2 < by + 1 {
                    math::seq_max(block(col, b2))
                } else {
                    before.block_max@[at(w as int, x2, b2)]
                } by {
                    lemma_at_bounds(w as int, GRID_BLOCKS as int, x2, b2);
                    if at(w as int, x2, b2) == idx {
                        lemma_at_injective(w as int, x2, b2, x as int, by as int);
                    }
                    assert(prev[at(w as int, x2, b2)] == if x2 == x && b2 < by {
                        math::seq_max(block(col, b2))
                    } else {
                        before.block_max@[at(w as int, x2, b2)]
                    });
                }
            }
            by += 1;
        }
        proof {
            assert(col.take(GRID_TEX_H as int) =~= col);
        }
        self.col_max.set(x, col_max);
        proof {
            assert(self.column_stats(w as int, x as int));
        }
    }

    /// Empties the rows of column `x` that `present` does not keep, and says whether
    /// that changed anything.
    pub fn retain_rows(&mut self, w: usize, x: usize, present: &Vec<bool>) -> (changed: bool)
        requires
            old(self).wf(w as int),
            x < w,
            present@.len() == GRID_TEX_H,
        ensures
            final(self).wf(w as int),
            final(self).col(w as int, x as int) == masked(
                old(self).col(w as int, x as int),
                present@,
            ),
            forall|x2: int|
                0 <= x2 < w && x2 != x ==> #[trigger] final(self).col(w as int, x2) == old(self).col(w as int, x2),
            changed <==> final(self).col(w as int, x as int) != old(self).col(
                w as int,
                x as int,
            ),
    {
        let ghost before = *self;
        let changed: bool = self.mask_cells(w, x, present);
        if changed {
            self.recompute_column_stats(w, x);
        }
        proof {
            assert(before.column_stats(w as int, x as int));
            assert(self.column_stats(w as int, x as int));
            self.lemma_only_column(&before, w as int, x as int);
        }
        changed
    }

    /// Empties every column.
    pub fn clear_all(&mut self, w: usize)
        requires
            old(self).wf(w as int),
        ensures
            final(self).wf(w as int),
            final(self).cells@ == Seq::new((w * GRID_TEX_H) as nat, |i: int| 0u32),
            forall|x: int| 0 <= x < w ==> #[trigger] final(self).col(w as int, x) == empty_column(),
    {
        *self = SideGrid::zeroed(w);
        proof {
            assert forall|x: int| 0 <= x < w implies #[trigger] self.col(w as int, x)
                == empty_column() by {
                assert forall|y: int| 0 <= y < GRID_TEX_H implies self.col(w as int, x)[y] == 0 by {
                    lemma_at_bounds(w as int, GRID_TEX_H as int, x, y);
                }
                assert(self.col(w as int, x) =~= empty_column());
            }
        }
    }
}

} // verus!
