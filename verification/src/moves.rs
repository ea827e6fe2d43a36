use vstd::prelude::*;

use crate::board::BoardModel;
use crate::board::MNKBoard;
use crate::board::lemma_idx_bounds;
use crate::board::lemma_idx_injective;

verus! {

impl BoardModel {
    /// Number of empty cells among the first `bound` row-major positions.
    pub open spec fn empty_in_prefix(self, bound: int) -> int
        decreases bound,
    {
        if bound <= 0 {
            0
        } else {
            self.empty_in_prefix(bound - 1) + if self.grid[bound - 1] is None {
                1int
            } else {
                0int
            }
        }
    }

    /// Number of occupied cells among the first `bound` row-major positions.
    pub open spec fn occupied_in_prefix(self, bound: int) -> int
        decreases bound,
    {
        if bound <= 0 {
            0
        } else {
            self.occupied_in_prefix(bound - 1) + if self.grid[bound - 1] is Some {
                1int
            } else {
                0int
            }
        }
    }

    /// Number of empty cells on the whole board.
    pub open spec fn count_empty(self) -> int {
        self.empty_in_prefix(self.grid.len() as int)
    }

    /// Number of occupied cells on the whole board.
    pub open spec fn count_occupied(self) -> int {
        self.occupied_in_prefix(self.grid.len() as int)
    }

    /// First row-major position a move scan looks at: the position right
    /// after `last`, or the top-left corner when there is no `last`.
    pub open spec fn start_index(self, last: Option<(usize, usize)>) -> int {
        match last {
            None => 0,
            Some(mv) => self.idx(mv.0 as int, mv.1 as int) + 1,
        }
    }
}

proof fn lemma_prefix_partition(b: BoardModel, bound: int)
    requires
        0 <= bound,
    ensures
        b.empty_in_prefix(bound) + b.occupied_in_prefix(bound) == bound,
    decreases bound,
{
    if bound > 0 {
        lemma_prefix_partition(b, bound - 1);
    }
}

/// Every cell is exactly one of empty or occupied, so the number of legal
/// moves plus the number of occupied cells equals the cell count `M * N`.
pub proof fn lemma_moves_plus_occupied(b: BoardModel)
    requires
        b.wf(),
    ensures
        b.count_empty() + b.count_occupied() == b.width * b.height,
{
    lemma_prefix_partition(b, b.grid.len() as int);
    vstd::arithmetic::mul::lemma_mul_is_commutative(b.width, b.height);
}

/// Splits a row-major position into its column and row.
pub(crate) proof fn lemma_div_mod_decompose(i: int, w: int, h: int)
    by (nonlinear_arith)
    requires
        0 < w,
        0 <= i,
        i < h * w,
    ensures
        0 <= i % w < w,
        0 <= i / w < h,
        (i / w) * w + (i % w) == i,
{
}

impl MNKBoard {
    /// The first empty cell at or after the row-major position that follows
    /// `last_move` (the top-left corner when `last_move` is absent), or
    /// nothing when no empty cell remains from there on.
    pub fn next_move(&self, last_move: Option<(usize, usize)>) -> (r: Option<(usize, usize)>)
        requires
            self@.wf(),
            last_move matches Some(mv) ==> self@.in_bounds(mv.0 as int, mv.1 as int),
        ensures
            r matches Some(mv) ==> self@.in_bounds(mv.0 as int, mv.1 as int) && self@.cell(
                mv.0 as int,
                mv.1 as int,
            ) is None,
            r matches Some(mv) ==> self@.start_index(last_move) <= self@.idx(
                mv.0 as int,
                mv.1 as int,
            ),
            r matches Some(mv) ==> forall|j: int|
                self@.start_index(last_move) <= j < self@.idx(mv.0 as int, mv.1 as int)
                    ==> self@.grid[j] is Some,
            r is None ==> forall|j: int|
                self@.start_index(last_move) <= j < self@.grid.len() ==> self@.grid[j] is Some,
    {
        let w = self.width();
        let h = self.height();
        let total = h * w;
        let start: usize = match last_move {
            None => 0,
            Some((x, y)) => {
                proof {
                    lemma_idx_bounds(w as int, h as int, x as int, y as int);
                }
                y * w + x + 1
            },
        };
        let mut i: usize = start;
        while i < total
            invariant
                self@.wf(),
                w == self@.width,
                h == self@.height,
                total == h * w,
                start == self@.start_index(last_move),
                start <= i <= total,
                forall|j: int| start <= j < i ==> self@.grid[j] is Some,
            decreases total - i,
        {
            proof {
                lemma_div_mod_decompose(i as int, w as int, h as int);
            }
            let x = i % w;
            let y = i / w;
            if self.cell(x, y).is_none() {
                return Some((x, y));
            }
            i = i + 1;
        }
        None
    }

    /// All empty cells, in row-major order: the move sequence produced by
    /// scanning with `next_move` from the start of the board.
    pub fn moves(&self) -> (r: Vec<(usize, usize)>)
        requires
            self@.wf(),
        ensures
            r@.len() == self@.count_empty(),
            forall|t: int|
                0 <= t < r@.len() ==> self@.in_bounds(r@[t].0 as int, r@[t].1 as int)
                    && self@.cell(r@[t].0 as int, r@[t].1 as int) is None,
            forall|t1: int, t2: int|
                0 <= t1 < t2 < r@.len() ==> self@.idx(r@[t1].0 as int, r@[t1].1 as int)
                    < self@.idx(r@[t2].0 as int, r@[t2].1 as int),
            forall|x: int, y: int|
                self@.in_bounds(x, y) && self@.cell(x, y) is None ==> exists|t: int|
                    0 <= t < r@.len() && r@[t].0 as int == x && r@[t].1 as int == y,
    {
        let w = self.width();
        let h = self.height();
        let total = h * w;
        let mut out: Vec<(usize, usize)> = Vec::new();
        let mut i: usize = 0;
        while i < total
            invariant
                self@.wf(),
                w == self@.width,
                h == self@.height,
                total == h * w,
                i <= total,
                out@.len() == self@.empty_in_prefix(i as int),
                forall|t: int|
                    0 <= t < out@.len() ==> self@.in_bounds(out@[t].0 as int, out@[t].1 as int)
                        && self@.cell(out@[t].0 as int, out@[t].1 as int) is None && self@.idx(
                        out@[t].0 as int,
                        out@[t].1 as int,
                    ) < i,
                forall|t1: int, t2: int|
                    0 <= t1 < t2 < out@.len() ==> self@.idx(out@[t1].0 as int, out@[t1].1 as int)
                        < self@.idx(out@[t2].0 as int, out@[t2].1 as int),
                forall|x: int, y: int|
                    self@.in_bounds(x, y) && self@.cell(x, y) is None && self@.idx(x, y) < i
                        ==> exists|t: int| 0 <= t < out@.len() && out@[t].0 as int == x && out@[t].1 as int == y,
            decreases total - i,
        {
            proof {
                lemma_div_mod_decompose(i as int, w as int, h as int);
            }
            let x = i % w;
            let y = i / w;
            let ghost prev = out@;
            if self.cell(x, y).is_none() {
                out.push((x, y));
            }
            proof {
                assert forall|x2: int, y2: int|
                    self@.in_bounds(x2, y2) && self@.cell(x2, y2) is None && self@.idx(x2, y2) < i
                        + 1 implies exists|t: int|
                    0 <= t < out@.len() && out@[t].0 as int == x2 && out@[t].1 as int == y2 by {
                    if self@.idx(x2, y2) < i {
                        let t = choose|t: int|
                            0 <= t < prev.len() && prev[t].0 as int == x2 && prev[t].1 as int == y2;
                        assert(out@[t].0 as int == x2 && out@[t].1 as int == y2);
                    } else {
                        lemma_idx_injective(w as int, x2, y2, x as int, y as int);
                        let t = out@.len() - 1;
                        assert(out@[t].0 as int == x2 && out@[t].1 as int == y2);
                    }
                }
            }
            i = i + 1;
        }
        proof {
            assert forall|x: int, y: int|
                self@.in_bounds(x, y) && self@.cell(x, y) is None implies exists|t: int|
                0 <= t < out@.len() && out@[t].0 as int == x && out@[t].1 as int == y by {
                lemma_idx_bounds(w as int, h as int, x, y);
            }
        }
        out
    }
}

} // verus!
