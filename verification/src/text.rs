use vstd::prelude::*;

use crate::board::{Board, BoardView};
use crate::stone::{stone_glyph, Stone};

verus! {

/// Characters stripped before cells are read: ASCII whitespace.
pub open spec fn is_space(c: char) -> bool {
    c == ' ' || c == '\t' || c == '\n' || c == '\r' || c == '\u{0B}' || c == '\u{0C}'
}

/// The symbol table for reading a board from text: a few characters denote
/// each color, and any other character denotes an empty cell.
pub open spec fn parse_cell(c: char) -> Stone {
    if c == 'B' || c == 'X' || c == 'x' || c == '#' {
        Stone::Black
    } else if c == 'W' || c == 'O' || c == 'o' || c == '0' {
        Stone::White
    } else {
        Stone::Empty
    }
}

/// The cells read from a text: whitespace dropped, every remaining character
/// mapped through the symbol table, in order.
pub open spec fn cells_of(s: Seq<char>) -> Seq<Stone>
    decreases s.len(),
{
    if s.len() == 0 {
        Seq::empty()
    } else {
        let rest = cells_of(s.drop_last());
        if is_space(s.last()) {
            rest
        } else {
            rest.push(parse_cell(s.last()))
        }
    }
}

/// `r` is the integer square root of `n`.
pub open spec fn is_isqrt(n: int, r: int) -> bool {
    0 <= r && r * r <= n < (r + 1) * (r + 1)
}

/// What reading a board from text yields: the side length is the integer
/// square root of the cell count, and the grid holds the first `size * size`
/// cells. A cell count that is not a perfect square silently truncates.
pub open spec fn parsed_board(s: Seq<char>, v: BoardView) -> bool {
    &&& is_isqrt(cells_of(s).len() as int, v.size as int)
    &&& v.grid == cells_of(s).take(v.size * v.size)
}

/// Whether `p` is a star point (hoshi) on a board of side length `size`;
/// only the canonical sizes 9, 13 and 19 have star points.
pub open spec fn is_star(size: usize, p: (usize, usize)) -> bool {
    if size == 9 {
        (p.0 == 4 && p.1 == 4) || ((p.0 == 2 || p.0 == 6) && (p.1 == 2 || p.1 == 6))
    } else if size == 13 {
        (p.0 == 6 && p.1 == 6) || ((p.0 == 3 || p.0 == 9) && (p.1 == 3 || p.1 == 9))
    } else if size == 19 {
        (p.0 == 3 || p.0 == 9 || p.0 == 15) && (p.1 == 3 || p.1 == 9 || p.1 == 15)
    } else {
        false
    }
}

/// The glyph cell `p` is drawn with: an empty star point gets a bullet,
/// every other cell the glyph of its stone.
pub open spec fn glyph_at(v: BoardView, p: (usize, usize)) -> char {
    if v.at(p) == Stone::Empty && is_star(v.size, p) {
        '\u{2022}'
    } else {
        stone_glyph(v.at(p))
    }
}

/// The first `x` cells of row `y`, rendered with single-space separators.
pub open spec fn row_text(v: BoardView, y: usize, x: int) -> Seq<char>
    decreases x,
{
    if x <= 0 {
        Seq::empty()
    } else if x == 1 {
        seq![glyph_at(v, (0, y))]
    } else {
        row_text(v, y, x - 1) + seq![' ', glyph_at(v, ((x - 1) as usize, y))]
    }
}

/// The first `y` rows of the board's rendering, joined by newlines, with no
/// trailing characters.
pub open spec fn grid_text(v: BoardView, y: int) -> Seq<char>
    decreases y,
{
    if y <= 0 {
        Seq::empty()
    } else if y == 1 {
        row_text(v, 0, v.size as int)
    } else {
        grid_text(v, y - 1) + seq!['\n'] + row_text(v, (y - 1) as usize, v.size as int)
    }
}

/// The full text a board is displayed as.
pub open spec fn board_text(v: BoardView) -> Seq<char> {
    grid_text(v, v.size as int)
}

/// Whether `c` is stripped as whitespace before cells are read.
fn space_char(c: char) -> (r: bool)
    ensures
        r == is_space(c),
{
    c == ' ' || c == '\t' || c == '\n' || c == '\r' || c == '\u{0B}' || c == '\u{0C}'
}

/// The cell state a single character denotes.
fn cell_of_char(c: char) -> (r: Stone)
    ensures
        r == parse_cell(c),
{
    if c == 'B' || c == 'X' || c == 'x' || c == '#' {
        Stone::Black
    } else if c == 'W' || c == 'O' || c == 'o' || c == '0' {
        Stone::White
    } else {
        Stone::Empty
    }
}

/// The integer square root: the largest `r` with `r * r <= n`.
fn isqrt(n: usize) -> (r: usize)
    ensures
        is_isqrt(n as int, r as int),
{
    let mut r: usize = 0;
    while r + 1 <= n / (r + 1)
        invariant
            r < usize::MAX,
            r <= n,
            (r as int) * (r as int) <= n,
        decreases n - r,
    {
        proof {
            let a = (r + 1) as int;
            vstd::arithmetic::div_mod::lemma_fundamental_div_mod(n as int, a);
            assert(a * a <= n) by (nonlinear_arith)
                requires
                    a > 0,
                    a <= (n as int) / a,
                    n as int == a * ((n as int) / a) + (n as int) % a,
                    (n as int) % a >= 0,
            ;
            assert(a < usize::MAX) by (nonlinear_arith)
                requires
                    a > 0,
                    a * a <= n,
                    n <= usize::MAX,
                    usize::MAX >= 2,
            ;
        }
        r += 1;
    }
    proof {
        let a = (r + 1) as int;
        vstd::arithmetic::div_mod::lemma_fundamental_div_mod(n as int, a);
        assert(n < a * a) by (nonlinear_arith)
            requires
                a > 0,
                a > (n as int) / a,
                n as int == a * ((n as int) / a) + (n as int) % a,
                0 <= (n as int) % a < a,
        ;
    }
    r
}

impl Board {
    /// Creates a `Board` from a string representation of the board state:
    /// whitespace is stripped, each remaining character is read through the
    /// symbol table, and the side length is inferred as the integer square
    /// root of the cell count.
    pub fn from_str(board: &str) -> (r: Board)
        ensures
            r@.wf(),
            parsed_board(board@, r@),
    {
        let n = board.unicode_len();
        let mut state: Vec<Stone> = Vec::new();
        let mut i: usize = 0;
        while i < n
            invariant
                n == board@.len(),
                i <= n,
                state@ == cells_of(board@.take(i as int)),
            decreases n - i,
        {
            let c = board.get_char(i);
            proof {
                assert(board@.take(i + 1).drop_last() =~= board@.take(i as int));
                assert(board@.take(i + 1).last() == board@[i as int]);
            }
            if !space_char(c) {
                state.push(cell_of_char(c));
            }
            i += 1;
        }
        proof {
            assert(board@.take(n as int) =~= board@);
            assert(state.len() == state@.len());
        }
        let count = state.len();
        let size = isqrt(count);
        proof {
            assert((size as int) * (size as int) <= count);
        }
        state.truncate(size * size);
        proof {
            assert(state@ =~= cells_of(board@).take(size * size));
        }
        Board { state, size }
    }

    /// Whether `(x, y)` is a star point (hoshi) for the board's size.
    pub fn star_point(&self, x: usize, y: usize) -> (r: bool)
        ensures
            r == is_star(self@.size, (x, y)),
    {
        match self.size {
            9 => (x == 4 && y == 4) || ((x == 2 || x == 6) && (y == 2 || y == 6)),
            13 => (x == 6 && y == 6) || ((x == 3 || x == 9) && (y == 3 || y == 9)),
            19 => (x == 3 || x == 9 || x == 15) && (y == 3 || y == 9 || y == 15),
            _ => false,
        }
    }

    /// The glyph cell `(x, y)` is drawn with, as a one-character string.
    fn cell_glyph(&self, x: usize, y: usize) -> (r: &'static str)
        requires
            self@.wf(),
            self@.in_bounds((x, y)),
        ensures
            r@ == seq![glyph_at(self@, (x, y))],
    {
        let s = self.get(x, y);
        if s == Stone::Black {
            proof {
                reveal_strlit("\u{25CF}");
            }
            "\u{25CF}"
        } else if s == Stone::White {
            proof {
                reveal_strlit("\u{25CB}");
            }
            "\u{25CB}"
        } else if self.star_point(x, y) {
            proof {
                reveal_strlit("\u{2022}");
            }
            "\u{2022}"
        } else {
            proof {
                reveal_strlit("\u{22C5}");
            }
            "\u{22C5}"
        }
    }

    /// One row of the rendering: the row's glyphs, single-space separated.
    fn render_row(&self, y: usize) -> (r: String)
        requires
            self@.wf(),
            y < self@.size,
        ensures
            r@ == row_text(self@, y, self@.size as int),
    {
        let mut out = String::new();
        let mut x: usize = 0;
        while x < self.size
            invariant
                self@.wf(),
                y < self@.size,
                x <= self@.size,
                out@ == row_text(self@, y, x as int),
            decreases self@.size - x,
        {
            if x > 0 {
                proof {
                    reveal_strlit(" ");
                }
                out.append(" ");
            }
            let g = self.cell_glyph(x, y);
            out.append(g);
            proof {
                if x == 0 {
                    assert(out@ =~= row_text(self@, y, 1));
                } else {
                    assert(out@ =~= row_text(self@, y, x as int) + seq![' ', glyph_at(self@, (x, y))]);
                }
            }
            x += 1;
        }
        out
    }

    /// The board's display text: one line per row, each cell drawn as its
    /// glyph, cells single-space separated, rows joined by newlines.
    pub fn render(&self) -> (r: String)
        requires
            self@.wf(),
        ensures
            r@ == board_text(self@),
    {
        let mut out = String::new();
        let mut y: usize = 0;
        while y < self.size
            invariant
                self@.wf(),
                y <= self@.size,
                out@ == grid_text(self@, y as int),
            decreases self@.size - y,
        {
            if y > 0 {
                proof {
                    reveal_strlit("\n");
                }
                out.append("\n");
            }
            let row = self.render_row(y);
            out.append(row.as_str());
            proof {
                if y == 0 {
                    assert(out@ =~= grid_text(self@, 1));
                } else {
                    assert(out@ =~= grid_text(self@, y as int) + seq!['\n'] + row_text(
                        self@,
                        y,
                        self@.size as int,
                    ));
                }
            }
            y += 1;
        }
        out
    }
}

} // verus!
