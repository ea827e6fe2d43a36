use vstd::prelude::*;

use crate::board::BoardModel;
use crate::board::MNKBoard;
use crate::player::Player;

verus! {

/// The one character a cell shows when rendered: a space when empty, the
/// owner's mark otherwise.
pub open spec fn mark_of(c: Option<Player>) -> char {
    match c {
        None => ' ',
        Some(p) => p.mark_spec(),
    }
}

impl BoardModel {
    /// Row `y` as rendered: the cells' marks separated by `'|'`, which is
    /// `2 * width - 1` characters.
    pub open spec fn row_chars(self, y: int) -> Seq<char> {
        Seq::new(
            (2 * self.width - 1) as nat,
            |i: int|
                if i % 2 == 0 {
                    mark_of(self.cell(i / 2, y))
                } else {
                    '|'
                },
        )
    }

    /// The separator between rendered rows: a line of dashes as wide as a
    /// rendered row, with a newline on each side.
    pub open spec fn sep_chars(self) -> Seq<char> {
        seq!['\n'] + Seq::new((2 * self.width - 1) as nat, |i: int| '-') + seq!['\n']
    }

    /// The first `rows` rendered rows, joined by separators.
    pub open spec fn render_rows(self, rows: int) -> Seq<char>
        decreases rows,
    {
        if rows <= 0 {
            Seq::empty()
        } else if rows == 1 {
            self.row_chars(0)
        } else {
            self.render_rows(rows - 1) + self.sep_chars() + self.row_chars(rows - 1)
        }
    }

    /// The whole rendering: every row, separators between rows, and a
    /// trailing newline.
    pub open spec fn render_spec(self) -> Seq<char> {
        self.render_rows(self.height) + seq!['\n']
    }
}

impl MNKBoard {
    /// The textual rendering of the board, one character per cell, with
    /// `'|'` between cells and dashed separator lines between rows.
    pub fn render(&self) -> (r: Vec<char>)
        requires
            self@.wf(),
            2 * self@.width - 1 <= usize::MAX,
        ensures
            r@ == self@.render_spec(),
    {
        let w = self.width();
        let h = self.height();
        let sepw = w - 1 + w;
        let mut out: Vec<char> = Vec::new();
        let mut y: usize = 0;
        while y < h
            invariant
                self@.wf(),
                w == self@.width,
                h == self@.height,
                sepw == 2 * self@.width - 1,
                y <= h,
                out@ == self@.render_rows(y as int),
            decreases h - y,
        {
            if y > 0 {
                out.push('\n');
                let ghost dash_base = out@;
                let mut d: usize = 0;
                while d < sepw
                    invariant
                        d <= sepw,
                        out@ == dash_base + Seq::new(d as nat, |i: int| '-'),
                    decreases sepw - d,
                {
                    out.push('-');
                    proof {
                        assert(out@ =~= dash_base + Seq::new((d + 1) as nat, |i: int| '-'));
                    }
                    d = d + 1;
                }
                out.push('\n');
                proof {
                    assert(out@ =~= self@.render_rows(y as int) + self@.sep_chars());
                }
            }
            let ghost base = out@;
            let mut x: usize = 0;
            while x < w
                invariant
                    self@.wf(),
                    w == self@.width,
                    h == self@.height,
                    y < h,
                    x <= w,
                    out@ == base + self@.row_chars(y as int).take(
                        if x == 0 {
                            0
                        } else {
                            2 * x - 1
                        },
                    ),
                decreases w - x,
            {
                if x > 0 {
                    out.push('|');
                }
                let c = match self.cell(x, y) {
                    None => ' ',
                    Some(p) => p.mark(),
                };
                out.push(c);
                proof {
                    assert(out@ =~= base + self@.row_chars(y as int).take(2 * (x + 1) - 1));
                }
                x = x + 1;
            }
            proof {
                assert(self@.row_chars(y as int).take(2 * w - 1) =~= self@.row_chars(y as int));
                if y == 0 {
                    assert(out@ =~= self@.render_rows(y as int + 1));
                } else {
                    assert(out@ =~= self@.render_rows(y as int + 1));
                }
            }
            y = y + 1;
        }
        out.push('\n');
        proof {
            assert(out@ =~= self@.render_spec());
        }
        out
    }
}

} // verus!
