use vstd::prelude::*;

use crate::board::BoardModel;
use crate::board::GameResult;
use crate::board::MNKBoard;
use crate::board::lemma_idx_bounds;
use crate::player::Player;

verus! {

/// One of the four canonical line directions, as a (column step, row step)
/// pair: horizontal, vertical, and the two diagonals.
pub open spec fn is_dir(dx: int, dy: int) -> bool {
    ||| (dx == 1 && dy == 0)
    ||| (dx == 0 && dy == 1)
    ||| (dx == 1 && dy == 1)
    ||| (dx == 1 && dy == -1)
}

/// The coordinate `i` steps from `s` along a per-step displacement `d`.
pub open spec fn step_coord(s: int, d: int, i: int) -> int {
    s + i * d
}

impl BoardModel {
    /// The cell `j` steps from (`x`, `y`) along (`dx`, `dy`) is in bounds
    /// and holds `p`'s mark.
    pub open spec fn ray_ok(self, p: Player, x: int, y: int, dx: int, dy: int, j: int) -> bool {
        self.in_bounds(x + j * dx, y + j * dy) && self.cell(x + j * dx, y + j * dy) == Some(p)
    }

    /// `K` consecutive cells of `p`'s marks starting at (`x`, `y`) and
    /// stepping by (`dx`, `dy`).
    pub open spec fn line_at(self, p: Player, x: int, y: int, dx: int, dy: int) -> bool {
        forall|j: int| 0 <= j < self.win_len ==> self.ray_ok(p, x, y, dx, dy, j)
    }

    /// Some complete run along (`dx`, `dy`) passes through (`x`, `y`).
    pub open spec fn run_through(self, p: Player, x: int, y: int, dx: int, dy: int) -> bool {
        exists|i: int|
            -self.win_len < i <= 0 && self.line_at(
                p,
                step_coord(x, dx, i),
                step_coord(y, dy, i),
                dx,
                dy,
            )
    }

    /// Player `p` has `K` in a row somewhere on the board, along one of the
    /// four canonical directions.
    pub open spec fn has_line(self, p: Player) -> bool {
        exists|x: int, y: int, dx: int, dy: int| is_dir(dx, dy) && self.line_at(p, x, y, dx, dy)
    }

    /// The cell (`x`, `y`) is occupied and lies on a complete run of its
    /// owner's marks.
    pub open spec fn winning_cell(self, x: int, y: int) -> bool {
        self.cell(x, y) is Some && exists|dx: int, dy: int|
            is_dir(dx, dy) && self.run_through(self.cell(x, y)->0, x, y, dx, dy)
    }
}

pub(crate) proof fn lemma_mul_identities(a: int, d: int)
    by (nonlinear_arith)
    ensures
        (a + 1) * d == a * d + d,
        0 * d == 0,
        a * (-d) == -(a * d),
        (-a) * d == -(a * d),
        1 * d == d,
{
}

pub(crate) proof fn lemma_shift(s: int, d: int, a: int, b: int)
    by (nonlinear_arith)
    ensures
        (s - a * d) + b * d == s + (b - a) * d,
{
}

pub(crate) proof fn lemma_dim_bound(w: int, h: int)
    by (nonlinear_arith)
    requires
        1 <= w,
        1 <= h,
    ensures
        w <= h * w,
        h <= h * w,
{
}

/// The counted runs on each side of an occupied cell add up to `K` or more
/// exactly when a complete run passes through the cell.
proof fn lemma_run_counts(
    b: BoardModel,
    p: Player,
    x: int,
    y: int,
    dx: int,
    dy: int,
    ndx: int,
    ndy: int,
    fwd: int,
    rev: int,
)
    requires
        b.wf(),
        b.in_bounds(x, y),
        b.cell(x, y) == Some(p),
        -1 <= dx <= 1,
        -1 <= dy <= 1,
        !(dx == 0 && dy == 0),
        ndx == -dx,
        ndy == -dy,
        0 <= fwd,
        0 <= rev,
        forall|j: int| 1 <= j <= fwd ==> b.ray_ok(p, x, y, dx, dy, j),
        !b.ray_ok(p, x, y, dx, dy, fwd + 1),
        forall|j: int| 1 <= j <= rev ==> b.ray_ok(p, x, y, ndx, ndy, j),
        !b.ray_ok(p, x, y, ndx, ndy, rev + 1),
    ensures
        (fwd + rev + 1 >= b.win_len) <==> b.run_through(p, x, y, dx, dy),
{
    let k = b.win_len;
    if fwd + rev + 1 >= k {
        let i = if rev < k - 1 {
            rev
        } else {
            k - 1
        };
        let sx = x - i * dx;
        let sy = y - i * dy;
        assert forall|j: int| 0 <= j < k implies b.ray_ok(p, sx, sy, dx, dy, j) by {
            lemma_shift(x, dx, i, j);
            lemma_shift(y, dy, i, j);
            if j < i {
                assert(b.ray_ok(p, x, y, ndx, ndy, i - j));
                lemma_mul_identities(i - j, dx);
                lemma_mul_identities(i - j, dy);
                assert(x + (i - j) * (-dx) == sx + j * dx);
                assert(y + (i - j) * (-dy) == sy + j * dy);
            } else if j == i {
                assert(sx + j * dx == x);
                assert(sy + j * dy == y);
            } else {
                assert(b.ray_ok(p, x, y, dx, dy, j - i));
                assert(x + (j - i) * dx == sx + j * dx);
                assert(y + (j - i) * dy == sy + j * dy);
            }
        }
        assert(b.line_at(p, sx, sy, dx, dy));
        lemma_mul_identities(i, dx);
        lemma_mul_identities(i, dy);
        assert(step_coord(x, dx, -i) == sx);
        assert(step_coord(y, dy, -i) == sy);
        assert(b.run_through(p, x, y, dx, dy));
    }
    if b.run_through(p, x, y, dx, dy) {
        let t = choose|t: int|
            -b.win_len < t <= 0 && b.line_at(
                p,
                step_coord(x, dx, t),
                step_coord(y, dy, t),
                dx,
                dy,
            );
        let i = -t;
        let sx = step_coord(x, dx, t);
        let sy = step_coord(y, dy, t);
        lemma_mul_identities(i, dx);
        lemma_mul_identities(i, dy);
        assert(t * dx == -(i * dx));
        assert(sx == x - i * dx);
        assert(sy == y - i * dy);
        if rev < i {
            let j = i - (rev + 1);
            assert(b.ray_ok(p, sx, sy, dx, dy, j));
            lemma_shift(x, dx, i, j);
            lemma_shift(y, dy, i, j);
            lemma_mul_identities(rev + 1, dx);
            lemma_mul_identities(rev + 1, dy);
            assert(sx + j * dx == x + (rev + 1) * ndx);
            assert(sy + j * dy == y + (rev + 1) * ndy);
            assert(b.ray_ok(p, x, y, ndx, ndy, rev + 1));
            assert(false);
        }
        if fwd < k - 1 - i {
            let j = i + fwd + 1;
            assert(b.ray_ok(p, sx, sy, dx, dy, j));
            lemma_shift(x, dx, i, j);
            lemma_shift(y, dy, i, j);
            assert(sx + j * dx == x + (fwd + 1) * dx);
            assert(sy + j * dy == y + (fwd + 1) * dy);
            assert(b.ray_ok(p, x, y, dx, dy, fwd + 1));
            assert(false);
        }
        assert(fwd + rev + 1 >= k);
    }
}

/// A board with a complete line somewhere has a winning cell: the start of
/// that line.
pub(crate) proof fn lemma_line_gives_winning_cell(b: BoardModel, p: Player)
    requires
        b.wf(),
        b.has_line(p),
    ensures
        exists|x: int, y: int| b.in_bounds(x, y) && #[trigger] b.winning_cell(x, y),
{
    let (sx, sy, dx, dy) = choose|sx: int, sy: int, dx: int, dy: int|
        is_dir(dx, dy) && b.line_at(p, sx, sy, dx, dy);
    assert(b.ray_ok(p, sx, sy, dx, dy, 0));
    lemma_mul_identities(0, dx);
    lemma_mul_identities(0, dy);
    assert(sx + 0 * dx == sx);
    assert(sy + 0 * dy == sy);
    assert(b.cell(sx, sy) == Some(p));
    assert(step_coord(sx, dx, 0) == sx);
    assert(step_coord(sy, dy, 0) == sy);
    assert(b.run_through(p, sx, sy, dx, dy));
    assert(b.cell(sx, sy)->0 == p);
    assert(b.run_through(b.cell(sx, sy)->0, sx, sy, dx, dy));
    assert(b.winning_cell(sx, sy));
}

/// A winning cell owned by `p` witnesses a complete line of `p`'s marks.
pub(crate) proof fn lemma_winning_cell_gives_line(b: BoardModel, x: int, y: int, p: Player)
    requires
        b.wf(),
        b.in_bounds(x, y),
        b.cell(x, y) == Some(p),
        b.winning_cell(x, y),
    ensures
        b.has_line(p),
{
    let (dx, dy) = choose|dx: int, dy: int|
        is_dir(dx, dy) && b.run_through(b.cell(x, y)->0, x, y, dx, dy);
    assert(b.cell(x, y)->0 == p);
    let t = choose|t: int|
        -b.win_len < t <= 0 && b.line_at(p, step_coord(x, dx, t), step_coord(y, dy, t), dx, dy);
    assert(b.line_at(p, step_coord(x, dx, t), step_coord(y, dy, t), dx, dy));
    assert(b.has_line(p));
}

impl MNKBoard {
    /// Number of consecutive cells that hold `p`'s mark strictly after
    /// (`x`, `y`) along direction (`dx`, `dy`), up to the first other cell
    /// or the edge of the board.
    fn count_run(&self, p: Player, x: usize, y: usize, dx: i8, dy: i8) -> (c: usize)
        requires
            self@.wf(),
            self@.in_bounds(x as int, y as int),
            -1 <= dx as int <= 1,
            -1 <= dy as int <= 1,
            !(dx == 0 && dy == 0),
        ensures
            forall|j: int|
                1 <= j <= c ==> self@.ray_ok(p, x as int, y as int, dx as int, dy as int, j),
            !self@.ray_ok(p, x as int, y as int, dx as int, dy as int, c + 1),
            dx as int == 1 ==> x + c < self@.width,
            dx as int == -1 ==> c <= x,
            dy as int == 1 ==> y + c < self@.height,
            dy as int == -1 ==> c <= y,
    {
        let w = self.width();
        let h = self.height();
        let mut c: usize = 0;
        let mut cx = x;
        let mut cy = y;
        loop
            invariant
                self@.wf(),
                w == self@.width,
                h == self@.height,
                self@.in_bounds(x as int, y as int),
                -1 <= dx as int <= 1,
                -1 <= dy as int <= 1,
                !(dx == 0 && dy == 0),
                self@.in_bounds(cx as int, cy as int),
                cx as int == x as int + (c as int) * (dx as int),
                cy as int == y as int + (c as int) * (dy as int),
                forall|j: int|
                    1 <= j <= c ==> self@.ray_ok(p, x as int, y as int, dx as int, dy as int, j),
            ensures
                self@.in_bounds(cx as int, cy as int),
                cx as int == x as int + (c as int) * (dx as int),
                cy as int == y as int + (c as int) * (dy as int),
                forall|j: int|
                    1 <= j <= c ==> self@.ray_ok(p, x as int, y as int, dx as int, dy as int, j),
                !self@.ray_ok(p, x as int, y as int, dx as int, dy as int, c as int + 1),
            decreases (if dx as int == 1 {
                w - cx
            } else if dx as int == -1 {
                cx as int
            } else if dy as int == 1 {
                h - cy
            } else {
                cy as int
            }),
        {
            proof {
                lemma_mul_identities(c as int, dx as int);
                lemma_mul_identities(c as int, dy as int);
            }
            let nx: usize;
            if dx == 1 {
                if cx + 1 >= w {
                    break ;
                }
                nx = cx + 1;
            } else if dx == -1 {
                if cx == 0 {
                    break ;
                }
                nx = cx - 1;
            } else {
                nx = cx;
            }
            let ny: usize;
            if dy == 1 {
                if cy + 1 >= h {
                    break ;
                }
                ny = cy + 1;
            } else if dy == -1 {
                if cy == 0 {
                    break ;
                }
                ny = cy - 1;
            } else {
                ny = cy;
            }
            let keep = match self.cell(nx, ny) {
                Some(q) => q == p,
                None => false,
            };
            if !keep {
                break ;
            }
            c = c + 1;
            cx = nx;
            cy = ny;
        }
        proof {
            lemma_mul_identities(c as int, dx as int);
            lemma_mul_identities(c as int, dy as int);
        }
        c
    }

    /// Whether some complete run of `p`'s marks along direction
    /// (`dx`, `dy`) passes through the occupied cell (`x`, `y`).
    fn dir_win(&self, p: Player, x: usize, y: usize, dx: i8, dy: i8) -> (r: bool)
        requires
            self@.wf(),
            self@.in_bounds(x as int, y as int),
            self@.cell(x as int, y as int) == Some(p),
            -1 <= dx as int <= 1,
            -1 <= dy as int <= 1,
            !(dx == 0 && dy == 0),
        ensures
            r == self@.run_through(p, x as int, y as int, dx as int, dy as int),
    {
        let fwd = self.count_run(p, x, y, dx, dy);
        let ndx = -dx;
        let ndy = -dy;
        let rev = self.count_run(p, x, y, ndx, ndy);
        let k = self.win_len();
        proof {
            lemma_dim_bound(self@.width, self@.height);
            lemma_run_counts(
                self@,
                p,
                x as int,
                y as int,
                dx as int,
                dy as int,
                ndx as int,
                ndy as int,
                fwd as int,
                rev as int,
            );
        }
        fwd + rev + 1 >= k
    }

    /// Whether the mark at `mv` is part of a contiguous run of length at
    /// least `K` along one of the four canonical directions. An empty cell
    /// never wins.
    pub fn winning_move(&self, mv: (usize, usize)) -> (r: bool)
        requires
            self@.wf(),
            self@.in_bounds(mv.0 as int, mv.1 as int),
        ensures
            r == self@.winning_cell(mv.0 as int, mv.1 as int),
    {
        let (x, y) = mv;
        match self.cell(x, y) {
            None => false,
            Some(p) => {
                let r1 = self.dir_win(p, x, y, 1, 0);
                let r2 = self.dir_win(p, x, y, 0, 1);
                let r3 = self.dir_win(p, x, y, 1, 1);
                let r4 = self.dir_win(p, x, y, 1, -1);
                let r = r1 || r2 || r3 || r4;
                proof {
                    let xi = x as int;
                    let yi = y as int;
                    assert(self@.cell(xi, yi)->0 == p);
                    assert(is_dir(1, 0) && is_dir(0, 1) && is_dir(1, 1) && is_dir(1, -1));
                    if r1 {
                        assert(self@.run_through(self@.cell(xi, yi)->0, xi, yi, 1, 0));
                        assert(self@.winning_cell(xi, yi));
                    } else if r2 {
                        assert(self@.run_through(self@.cell(xi, yi)->0, xi, yi, 0, 1));
                        assert(self@.winning_cell(xi, yi));
                    } else if r3 {
                        assert(self@.run_through(self@.cell(xi, yi)->0, xi, yi, 1, 1));
                        assert(self@.winning_cell(xi, yi));
                    } else if r4 {
                        assert(self@.run_through(self@.cell(xi, yi)->0, xi, yi, 1, -1));
                        assert(self@.winning_cell(xi, yi));
                    } else if self@.winning_cell(xi, yi) {
                        let (dx, dy) = choose|dx: int, dy: int|
                            is_dir(dx, dy) && self@.run_through(
                                self@.cell(xi, yi)->0,
                                xi,
                                yi,
                                dx,
                                dy,
                            );
                        assert(self@.cell(xi, yi) == Some(p));
                        if dx == 1 && dy == 0 {
                            assert(!self@.run_through(p, xi, yi, 1, 0));
                        } else if dx == 0 && dy == 1 {
                            assert(!self@.run_through(p, xi, yi, 0, 1));
                        } else if dx == 1 && dy == 1 {
                            assert(!self@.run_through(p, xi, yi, 1, 1));
                        } else {
                            assert(dx == 1 && dy == -1);
                            assert(!self@.run_through(p, xi, yi, 1, -1));
                        }
                        assert(false);
                    }
                }
                r
            },
        }
    }

    /// The game's outcome so far: the first winning cell's owner in
    /// row-major order, a draw when the board is full with no winner, and
    /// nothing while no one has won and moves remain.
    pub fn winner(&self) -> (r: Option<GameResult>)
        requires
            self@.wf(),
        ensures
            (exists|p: Player| self@.has_line(p)) <==> (r matches Some(g) && g
                matches GameResult::PlayerWon(p2) && self@.has_line(p2)),
            r == Some(GameResult::Draw) <==> ((forall|p: Player| !self@.has_line(p))
                && !self@.has_empty()),
            r is None <==> ((forall|p: Player| !self@.has_line(p)) && self@.has_empty()),
    {
        let w = self.width();
        let h = self.height();
        let mut y: usize = 0;
        while y < h
            invariant
                self@.wf(),
                w == self@.width,
                h == self@.height,
                y <= h,
                forall|x2: int, y2: int|
                    0 <= y2 < y && 0 <= x2 < w ==> !self@.winning_cell(x2, y2),
            decreases h - y,
        {
            let mut x: usize = 0;
            while x < w
                invariant
                    self@.wf(),
                    w == self@.width,
                    h == self@.height,
                    y < h,
                    x <= w,
                    forall|x2: int, y2: int|
                        0 <= y2 < y && 0 <= x2 < w ==> !self@.winning_cell(x2, y2),
                    forall|x2: int| 0 <= x2 < x ==> !self@.winning_cell(x2, y as int),
                decreases w - x,
            {
                match self.cell(x, y) {
                    Some(p) => {
                        if self.winning_move((x, y)) {
                            proof {
                                lemma_winning_cell_gives_line(self@, x as int, y as int, p);
                            }
                            return Some(GameResult::PlayerWon(p));
                        }
                    },
                    None => {},
                }
                x = x + 1;
            }
            y = y + 1;
        }
        proof {
            assert forall|p: Player| !self@.has_line(p) by {
                if self@.has_line(p) {
                    lemma_line_gives_winning_cell(self@, p);
                    assert(false);
                }
            }
        }
        match self.next_move(None) {
            Some(_) => None,
            None => {
                proof {
                    if self@.has_empty() {
                        let (ex, ey) = choose|ex: int, ey: int|
                            self@.in_bounds(ex, ey) && self@.cell(ex, ey) is None;
                        lemma_idx_bounds(self@.width, self@.height, ex, ey);
                        assert(false);
                    }
                }
                Some(GameResult::Draw)
            },
        }
    }
}

} // verus!
