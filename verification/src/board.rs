use vstd::prelude::*;
use vstd::pervasive::VecAdditionalExecFns;

use crate::player::Player;

verus! {

/// Outcome of a finished game: somebody completed a line, or the board
/// filled up with no line anywhere.
#[derive(Clone, Copy, Debug, PartialEq, Eq, Structural)]
pub enum GameResult {
    PlayerWon(Player),
    Draw,
}

/// A rejected mutation. Every variant is a recoverable condition reported to
/// the caller; the board is left unchanged.
#[derive(Clone, Copy, Debug, PartialEq, Eq, Structural)]
pub enum GameError {
    /// The coordinates lie outside the grid.
    OutOfBounds,
    /// A move was attempted on a cell that already holds a mark.
    PositionOccupied,
    /// An undo was attempted on a cell that holds no mark.
    PositionEmpty,
}

/// The mathematical content of a board: its dimensions, the required run
/// length, the grid in row-major order, and the player to move next.
#[verifier::ext_equal]
pub ghost struct BoardModel {
    pub width: int,
    pub height: int,
    pub win_len: int,
    /// Row-major: the cell at column `x`, row `y` is `grid[y * width + x]`.
    pub grid: Seq<Option<Player>>,
    pub current: Player,
}

impl BoardModel {
    /// A well-formed board: positive dimensions that fit the machine, a run
    /// length that fits along some axis, and a grid of exactly
    /// `height * width` cells.
    pub open spec fn wf(self) -> bool {
        &&& 1 <= self.width
        &&& 1 <= self.height
        &&& 1 <= self.win_len
        &&& (self.win_len <= self.width || self.win_len <= self.height)
        &&& self.grid.len() == self.height * self.width
        &&& self.height * self.width <= usize::MAX
    }

    pub open spec fn in_bounds(self, x: int, y: int) -> bool {
        0 <= x < self.width && 0 <= y < self.height
    }

    /// Row-major position of the cell at column `x`, row `y`.
    pub open spec fn idx(self, x: int, y: int) -> int {
        y * self.width + x
    }

    pub open spec fn cell(self, x: int, y: int) -> Option<Player> {
        self.grid[self.idx(x, y)]
    }

    pub open spec fn has_empty(self) -> bool {
        exists|x: int, y: int| self.in_bounds(x, y) && self.cell(x, y) is None
    }

    /// The board after a successful move at (`x`, `y`): the cell takes the
    /// mover's mark and the turn passes to the opponent.
    pub open spec fn place(self, x: int, y: int) -> BoardModel {
        BoardModel {
            grid: self.grid.update(self.idx(x, y), Some(self.current)),
            current: self.current.other(),
            ..self
        }
    }

    /// The board after a successful undo at (`x`, `y`): the cell is cleared
    /// and the turn passes back.
    pub open spec fn clear(self, x: int, y: int) -> BoardModel {
        BoardModel {
            grid: self.grid.update(self.idx(x, y), None),
            current: self.current.other(),
            ..self
        }
    }
}

/// Row-major positions of in-bounds cells are themselves in bounds.
pub(crate) proof fn lemma_idx_bounds(w: int, h: int, x: int, y: int)
    by (nonlinear_arith)
    requires
        0 <= x < w,
        0 <= y < h,
    ensures
        0 <= y * w + x < h * w,
{
}

/// Distinct in-bounds cells have distinct row-major positions.
pub(crate) proof fn lemma_idx_injective(w: int, x1: int, y1: int, x2: int, y2: int)
    by (nonlinear_arith)
    requires
        0 <= x1 < w,
        0 <= x2 < w,
        y1 * w + x1 == y2 * w + x2,
    ensures
        x1 == x2,
        y1 == y2,
{
}

pub(crate) proof fn lemma_row_step(y: int, m: int)
    by (nonlinear_arith)
    ensures
        (y + 1) * m == y * m + m,
{
}

pub(crate) proof fn lemma_mul_mono(a: int, b: int, m: int)
    by (nonlinear_arith)
    requires
        a <= b,
        0 <= m,
    ensures
        a * m <= b * m,
{
}

/// A successful move followed by a successful undo of the same cell restores
/// the exact prior board: same grid contents and same player to move.
pub proof fn lemma_execute_undo_roundtrip(b: BoardModel, x: int, y: int)
    requires
        b.wf(),
        b.in_bounds(x, y),
        b.cell(x, y) is None,
    ensures
        b.place(x, y).clear(x, y) == b,
{
    lemma_idx_bounds(b.width, b.height, x, y);
    assert(b.place(x, y).clear(x, y).grid =~= b.grid);
    assert(b.place(x, y).clear(x, y) =~= b);
}

/// After a move at (`x`, `y`) the target cell holds the mover's mark and
/// every other cell is unchanged.
pub proof fn lemma_place_cells(b: BoardModel, x: int, y: int)
    requires
        b.wf(),
        b.in_bounds(x, y),
    ensures
        b.place(x, y).cell(x, y) == Some(b.current),
        forall|x2: int, y2: int|
            b.in_bounds(x2, y2) && (x2 != x || y2 != y) ==> b.place(x, y).cell(x2, y2) == b.cell(
                x2,
                y2,
            ),
{
    lemma_idx_bounds(b.width, b.height, x, y);
    assert forall|x2: int, y2: int|
        b.in_bounds(x2, y2) && (x2 != x || y2 != y) implies b.place(x, y).cell(x2, y2) == b.cell(
        x2,
        y2,
    ) by {
        lemma_idx_bounds(b.width, b.height, x2, y2);
        if b.idx(x2, y2) == b.idx(x, y) {
            lemma_idx_injective(b.width, x2, y2, x, y);
        }
    }
}

/// After an undo at (`x`, `y`) the target cell is empty and every other cell
/// is unchanged.
pub proof fn lemma_clear_cells(b: BoardModel, x: int, y: int)
    requires
        b.wf(),
        b.in_bounds(x, y),
    ensures
        b.clear(x, y).cell(x, y) is None,
        forall|x2: int, y2: int|
            b.in_bounds(x2, y2) && (x2 != x || y2 != y) ==> b.clear(x, y).cell(x2, y2) == b.cell(
                x2,
                y2,
            ),
{
    lemma_idx_bounds(b.width, b.height, x, y);
    assert forall|x2: int, y2: int|
        b.in_bounds(x2, y2) && (x2 != x || y2 != y) implies b.clear(x, y).cell(x2, y2) == b.cell(
        x2,
        y2,
    ) by {
        lemma_idx_bounds(b.width, b.height, x2, y2);
        if b.idx(x2, y2) == b.idx(x, y) {
            lemma_idx_injective(b.width, x2, y2, x, y);
        }
    }
}

/// An `M`-wide by `N`-tall board on which `K` in a row wins.
#[derive(Clone)]
pub struct MNKBoard {
    width: usize,
    height: usize,
    win_len: usize,
    /// Row-major grid of `height * width` cells.
    grid: Vec<Option<Player>>,
    current_player: Player,
}

impl View for MNKBoard {
    type V = BoardModel;

    closed spec fn view(&self) -> BoardModel {
        BoardModel {
            width: self.width as int,
            height: self.height as int,
            win_len: self.win_len as int,
            grid: self.grid@,
            current: self.current_player,
        }
    }
}

impl MNKBoard {
    /// An empty `m` by `n` board that needs `k` in a row, with `Player1` to
    /// move.
    pub fn new(m: usize, n: usize, k: usize) -> (b: MNKBoard)
        requires
            1 <= m,
            1 <= n,
            1 <= k,
            k <= m || k <= n,
            m * n <= usize::MAX,
        ensures
            b@.wf(),
            b@.width == m,
            b@.height == n,
            b@.win_len == k,
            b@.current == Player::Player1,
            forall|x: int, y: int| b@.in_bounds(x, y) ==> (#[trigger] b@.cell(x, y)) is None,
    {
        proof {
            vstd::arithmetic::mul::lemma_mul_is_commutative(m as int, n as int);
        }
        let total = n * m;
        let mut grid: Vec<Option<Player>> = Vec::new();
        let mut i: usize = 0;
        while i < total
            invariant
                i <= total,
                grid@.len() == i,
                forall|j: int| 0 <= j < i ==> grid@[j] is None,
            decreases total - i,
        {
            grid.push(None);
            i = i + 1;
        }
        let b = MNKBoard { width: m, height: n, win_len: k, grid, current_player: Player::Player1 };
        proof {
            assert forall|x: int, y: int| b@.in_bounds(x, y) implies b@.cell(x, y) is None by {
                lemma_idx_bounds(m as int, n as int, x, y);
            }
        }
        b
    }

    /// A board built from explicit row contents: `rows[y][x]` becomes the
    /// cell at column `x`, row `y`.
    pub fn from_rows(k: usize, rows: Vec<Vec<Option<Player>>>, current: Player) -> (b: MNKBoard)
        requires
            1 <= rows@.len(),
            1 <= rows@[0]@.len(),
            forall|y: int| 0 <= y < rows@.len() ==> (#[trigger] rows@[y])@.len() == rows@[0]@.len(),
            1 <= k,
            k <= rows@[0]@.len() || k <= rows@.len(),
            rows@.len() * rows@[0]@.len() <= usize::MAX,
        ensures
            b@.wf(),
            b@.width == rows@[0]@.len(),
            b@.height == rows@.len(),
            b@.win_len == k,
            b@.current == current,
            forall|x: int, y: int| b@.in_bounds(x, y) ==> #[trigger] b@.cell(x, y) == rows@[y]@[x],
    {
        let m = rows[0].len();
        let n = rows.len();
        let mut grid: Vec<Option<Player>> = Vec::new();
        let mut y: usize = 0;
        while y < n
            invariant
                y <= n,
                n == rows@.len(),
                m == rows@[0]@.len(),
                1 <= m,
                forall|r: int| 0 <= r < n ==> rows@[r]@.len() == m,
                n * m <= usize::MAX,
                grid@.len() == y * m,
                forall|x2: int, y2: int|
                    0 <= y2 < y && 0 <= x2 < m ==> grid@[y2 * m + x2] == rows@[y2]@[x2],
            decreases n - y,
        {
            proof {
                lemma_mul_mono(y as int + 1, n as int, m as int);
                lemma_row_step(y as int, m as int);
            }
            let row = &rows[y];
            let mut x: usize = 0;
            while x < m
                invariant
                    x <= m,
                    y < n,
                    n == rows@.len(),
                    m == rows@[0]@.len(),
                    forall|r: int| 0 <= r < n ==> rows@[r]@.len() == m,
                    row@ == rows@[y as int]@,
                    (y + 1) * m <= n * m <= usize::MAX,
                    (y + 1) * m == y * m + m,
                    grid@.len() == y * m + x,
                    forall|x2: int, y2: int|
                        0 <= y2 < y && 0 <= x2 < m ==> grid@[y2 * m + x2] == rows@[y2]@[x2],
                    forall|x2: int|
                        0 <= x2 < x ==> grid@[y as int * m + x2] == rows@[y as int]@[x2],
                decreases m - x,
            {
                grid.push(row[x]);
                proof {
                    assert forall|x2: int, y2: int|
                        0 <= y2 < y && 0 <= x2 < m implies grid@[y2 * m + x2] == rows@[y2]@[x2] by {
                        lemma_idx_bounds(m as int, y as int, x2, y2);
                        lemma_mul_mono(y as int, y as int, m as int);
                    }
                }
                x = x + 1;
            }
            y = y + 1;
        }
        let b = MNKBoard { width: m, height: n, win_len: k, grid, current_player: current };
        proof {
            assert forall|x: int, y2: int|
                b@.in_bounds(x, y2) implies b@.cell(x, y2) == rows@[y2]@[x] by {
                lemma_idx_bounds(m as int, n as int, x, y2);
            }
        }
        b
    }

    /// The board's width `M`.
    pub fn width(&self) -> (r: usize)
        ensures
            r == self@.width,
    {
        self.width
    }

    /// The board's height `N`.
    pub fn height(&self) -> (r: usize)
        ensures
            r == self@.height,
    {
        self.height
    }

    /// The run length `K` needed to win.
    pub fn win_len(&self) -> (r: usize)
        ensures
            r == self@.win_len,
    {
        self.win_len
    }

    /// The player who moves next.
    pub fn current_player(&self) -> (r: Player)
        ensures
            r == self@.current,
    {
        self.current_player
    }

    /// The mark at column `x`, row `y`, if any.
    pub fn cell(&self, x: usize, y: usize) -> (c: Option<Player>)
        requires
            self@.wf(),
            self@.in_bounds(x as int, y as int),
        ensures
            c == self@.cell(x as int, y as int),
    {
        proof {
            lemma_idx_bounds(self.width as int, self.height as int, x as int, y as int);
        }
        let i = y * self.width + x;
        self.grid[i]
    }

    /// Marks the cell at `mv` for the current player and passes the turn,
    /// or reports why the move is illegal and leaves the board unchanged.
    pub fn execute_move(&mut self, mv: (usize, usize)) -> (r: Result<(), GameError>)
        requires
            old(self)@.wf(),
        ensures
            final(self)@.wf(),
            r is Ok <==> old(self)@.in_bounds(mv.0 as int, mv.1 as int) && old(self)@.cell(
                mv.0 as int,
                mv.1 as int,
            ) is None,
            !old(self)@.in_bounds(mv.0 as int, mv.1 as int) ==> r == Err::<(), GameError>(
                GameError::OutOfBounds,
            ) && *final(self) == *old(self),
            old(self)@.in_bounds(mv.0 as int, mv.1 as int) && old(self)@.cell(
                mv.0 as int,
                mv.1 as int,
            ) is Some ==> r == Err::<(), GameError>(GameError::PositionOccupied) && *final(self)
                == *old(self),
            r is Ok ==> final(self)@ == old(self)@.place(mv.0 as int, mv.1 as int),
            r is Ok ==> final(self)@.current == old(self)@.current.other(),
    {
        let (x, y) = mv;
        if x >= self.width || y >= self.height {
            return Err(GameError::OutOfBounds);
        }
        proof {
            lemma_idx_bounds(self.width as int, self.height as int, x as int, y as int);
        }
        let i = y * self.width + x;
        match self.grid[i] {
            Some(_) => Err(GameError::PositionOccupied),
            None => {
                let p = self.current_player;
                self.grid.set(i, Some(p));
                self.current_player = p.get_next();
                proof {
                    assert(self@ =~= old(self)@.place(x as int, y as int));
                }
                Ok(())
            },
        }
    }

    /// Clears the cell at `mv` and passes the turn back, or reports why the
    /// undo is illegal and leaves the board unchanged.
    pub fn undo_move(&mut self, mv: (usize, usize)) -> (r: Result<(), GameError>)
        requires
            old(self)@.wf(),
        ensures
            final(self)@.wf(),
            r is Ok <==> old(self)@.in_bounds(mv.0 as int, mv.1 as int) && old(self)@.cell(
                mv.0 as int,
                mv.1 as int,
            ) is Some,
            !old(self)@.in_bounds(mv.0 as int, mv.1 as int) ==> r == Err::<(), GameError>(
                GameError::OutOfBounds,
            ) && *final(self) == *old(self),
            old(self)@.in_bounds(mv.0 as int, mv.1 as int) && old(self)@.cell(
                mv.0 as int,
                mv.1 as int,
            ) is None ==> r == Err::<(), GameError>(GameError::PositionEmpty) && *final(self)
                == *old(self),
            r is Ok ==> final(self)@ == old(self)@.clear(mv.0 as int, mv.1 as int),
            r is Ok ==> final(self)@.current == old(self)@.current.other(),
    {
        let (x, y) = mv;
        if x >= self.width || y >= self.height {
            return Err(GameError::OutOfBounds);
        }
        proof {
            lemma_idx_bounds(self.width as int, self.height as int, x as int, y as int);
        }
        let i = y * self.width + x;
        match self.grid[i] {
            None => Err(GameError::PositionEmpty),
            Some(_) => {
                self.grid.set(i, None);
                self.current_player = self.current_player.get_last();
                proof {
                    assert(self@ =~= old(self)@.clear(x as int, y as int));
                }
                Ok(())
            },
        }
    }
}

} // verus!
