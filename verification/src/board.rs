use vstd::prelude::*;

use crate::stone::{opponent, Stone};

verus! {

/// The mathematical model of a board: a flat sequence of cell states indexed
/// row by row, together with the side length of the square grid.
#[verifier::ext_equal]
pub struct BoardView {
    pub grid: Seq<Stone>,
    pub size: usize,
}

impl BoardView {
    /// A board is well formed when its grid holds exactly `size * size` cells.
    pub open spec fn wf(self) -> bool {
        self.grid.len() == self.size * self.size
    }

    /// Whether `p` names an intersection of the grid.
    pub open spec fn in_bounds(self, p: (usize, usize)) -> bool {
        p.0 < self.size && p.1 < self.size
    }

    /// The position of `p` in the flat grid sequence.
    pub open spec fn index(self, p: (usize, usize)) -> int {
        p.1 * self.size + p.0
    }

    /// The cell state at `p`.
    pub open spec fn at(self, p: (usize, usize)) -> Stone {
        self.grid[self.index(p)]
    }
}

/// Orthogonal adjacency of two intersections: they share a row or a column
/// and differ by one in the other coordinate.
pub open spec fn adjacent(p: (usize, usize), q: (usize, usize)) -> bool {
    ||| (p.1 == q.1 && (p.0 + 1 == q.0 || q.0 + 1 == p.0))
    ||| (p.0 == q.0 && (p.1 + 1 == q.1 || q.1 + 1 == p.1))
}

/// The intersection addressed by flat grid position `i` on a board of side
/// length `size`.
pub open spec fn coord_of(size: usize, i: int) -> (usize, usize) {
    ((i % (size as int)) as usize, (i / (size as int)) as usize)
}

/// A walk through the grid along cells that all hold `c`, each step moving to
/// an orthogonally adjacent intersection.
pub open spec fn stone_path(v: BoardView, c: Stone, path: Seq<(usize, usize)>) -> bool {
    &&& forall|i: int|
        0 <= i < path.len() ==> v.in_bounds(#[trigger] path[i]) && v.at(path[i]) == c
    &&& forall|i: int| 0 < i < path.len() ==> adjacent(path[i - 1], #[trigger] path[i])
}

/// Whether `q` can be reached from `p` along a chain of cells holding `c`.
pub open spec fn connected(v: BoardView, c: Stone, p: (usize, usize), q: (usize, usize)) -> bool {
    exists|path: Seq<(usize, usize)>|
        #[trigger] stone_path(v, c, path) && path.len() > 0 && path[0] == p && path.last() == q
}

/// The maximal same-colored connected component holding the stone at `p`,
/// or the empty set when `p` holds no stone.
pub open spec fn chain_set(v: BoardView, p: (usize, usize)) -> Set<(usize, usize)> {
    if v.at(p) == Stone::Empty {
        Set::empty()
    } else {
        Set::new(|q: (usize, usize)| connected(v, v.at(p), p, q))
    }
}

/// The liberties of the chain through `p`: every empty intersection
/// orthogonally adjacent to some stone of that chain.
pub open spec fn liberty_set(v: BoardView, p: (usize, usize)) -> Set<(usize, usize)> {
    if v.at(p) == Stone::Empty {
        Set::empty()
    } else {
        Set::new(
            |l: (usize, usize)|
                v.in_bounds(l) && v.at(l) == Stone::Empty && exists|q: (usize, usize)|
                    #[trigger] adjacent(q, l) && connected(v, v.at(p), p, q),
        )
    }
}

/// The board after writing `c` into cell `p`.
pub open spec fn place(v: BoardView, c: Stone, p: (usize, usize)) -> BoardView {
    BoardView { grid: v.grid.update(v.index(p), c), size: v.size }
}

/// Whether `n` is an opposing neighbour of `p` whose chain would be captured
/// by a `c` stone played at `p`: its sole liberty is `p` itself.
pub open spec fn is_captured_neighbour(
    v: BoardView,
    c: Stone,
    p: (usize, usize),
    n: (usize, usize),
) -> bool {
    &&& v.in_bounds(n)
    &&& adjacent(n, p)
    &&& v.at(n) == opponent(c)
    &&& liberty_set(v, n) == set![p]
}

/// Whether playing `c` at `p` captures at least one adjacent opposing chain.
pub open spec fn captures_at(v: BoardView, c: Stone, p: (usize, usize)) -> bool {
    exists|n: (usize, usize)| #[trigger] is_captured_neighbour(v, c, p, n)
}

/// Whether playing `c` at `p` would leave the placed stone's own chain with
/// no liberties.
pub open spec fn is_suicide(v: BoardView, c: Stone, p: (usize, usize)) -> bool {
    liberty_set(place(v, c, p), p).is_empty()
}

/// Legality of playing `c` at `p`: the color must be a stone, the target an
/// empty in-bounds cell, and the move must either capture an adjacent
/// opposing chain or not be a self-capture.
pub open spec fn move_legal(v: BoardView, c: Stone, p: (usize, usize)) -> bool {
    &&& c != Stone::Empty
    &&& v.in_bounds(p)
    &&& v.at(p) == Stone::Empty
    &&& (captures_at(v, c, p) || !is_suicide(v, c, p))
}

/// Whether cell `q` is removed by a `c` stone played at `p`: it belongs to
/// some adjacent opposing chain whose sole liberty is `p`.
pub open spec fn captured(v: BoardView, c: Stone, p: (usize, usize), q: (usize, usize)) -> bool {
    exists|n: (usize, usize)|
        #[trigger] is_captured_neighbour(v, c, p, n) && connected(v, opponent(c), n, q)
}

/// The state of cell `q` after a legal `c` stone is played at `p`.
pub open spec fn move_cell(v: BoardView, c: Stone, p: (usize, usize), q: (usize, usize)) -> Stone {
    if q == p {
        c
    } else if captured(v, c, p, q) {
        Stone::Empty
    } else {
        v.at(q)
    }
}

/// The whole board after a legal `c` stone is played at `p`: the stone is
/// written to `p` and every captured opposing chain is emptied.
pub open spec fn move_result(v: BoardView, c: Stone, p: (usize, usize)) -> BoardView {
    BoardView {
        size: v.size,
        grid: Seq::new(v.grid.len(), |i: int| move_cell(v, c, p, coord_of(v.size, i))),
    }
}

/// On a well-formed board, an in-bounds intersection addresses a cell of the
/// grid, and the flat position maps back to the same intersection.
pub proof fn lemma_index_bounds(v: BoardView, p: (usize, usize))
    requires
        v.wf(),
        v.in_bounds(p),
    ensures
        0 <= v.index(p) < v.grid.len(),
        coord_of(v.size, v.index(p)) == p,
{
    let s = v.size as int;
    let x = p.0 as int;
    let y = p.1 as int;
    assert(y * s + x < s * s) by (nonlinear_arith)
        requires
            0 <= x < s,
            0 <= y < s,
    ;
    assert((y * s + x) % s == x && (y * s + x) / s == y) by (nonlinear_arith)
        requires
            0 <= x < s,
            0 <= y,
    ;
}

/// Distinct in-bounds intersections address distinct cells of the grid.
pub proof fn lemma_index_injective(v: BoardView, p: (usize, usize), q: (usize, usize))
    requires
        v.in_bounds(p),
        v.in_bounds(q),
        v.index(p) == v.index(q),
    ensures
        p == q,
{
    let s = v.size as int;
    assert(p.0 == q.0 && p.1 == q.1) by (nonlinear_arith)
        requires
            0 <= p.0 < s,
            0 <= q.0 < s,
            0 <= p.1 < s,
            0 <= q.1 < s,
            p.1 * s + p.0 == q.1 * s + q.0,
    ;
}

/// Every cell of a well-formed grid is addressed by the intersection
/// `coord_of` computes for it.
pub proof fn lemma_index_inverse(v: BoardView, i: int)
    requires
        v.wf(),
        0 <= i < v.grid.len(),
    ensures
        v.in_bounds(coord_of(v.size, i)),
        v.index(coord_of(v.size, i)) == i,
{
    let s = v.size as int;
    assert(s > 0) by (nonlinear_arith)
        requires
            s >= 0,
            0 <= i < s * s,
    ;
    assert(0 <= i % s < s && 0 <= i / s < s && (i / s) * s + i % s == i) by (nonlinear_arith)
        requires
            s > 0,
            0 <= i < s * s,
    ;
}

/// A square grid of intersections holding stones. The grid is stored flat,
/// row by row; `size` is the side length.
#[derive(Debug)]
pub struct Board {
    pub state: Vec<Stone>,
    pub size: usize,
}

impl View for Board {
    type V = BoardView;

    open spec fn view(&self) -> BoardView {
        BoardView { grid: self.state@, size: self.size }
    }
}

impl PartialEq for Board {
    /// Structural equality: two boards are equal when the sizes match and
    /// every cell matches.
    fn eq(&self, other: &Board) -> (r: bool) {
        if self.size != other.size {
            return false;
        }
        if self.state.len() != other.state.len() {
            return false;
        }
        let mut i: usize = 0;
        while i < self.state.len()
            invariant
                i <= self.state@.len(),
                self.state@.len() == other.state@.len(),
                forall|j: int| 0 <= j < i ==> self.state@[j] == other.state@[j],
            decreases self.state@.len() - i,
        {
            let a = self.state[i];
            let b = other.state[i];
            if a != b {
                return false;
            }
            i += 1;
        }
        proof {
            assert(self.state@ =~= other.state@);
        }
        true
    }
}

impl vstd::std_specs::cmp::PartialEqSpecImpl for Board {
    open spec fn obeys_eq_spec() -> bool {
        true
    }

    open spec fn eq_spec(&self, other: &Board) -> bool {
        self@ == other@
    }
}

/// An element-by-element copy of a grid of stones.
fn copy_stones(v: &Vec<Stone>) -> (r: Vec<Stone>)
    ensures
        r@ == v@,
{
    let mut r: Vec<Stone> = Vec::new();
    let mut i: usize = 0;
    while i < v.len()
        invariant
            i <= v@.len(),
            r@.len() == i,
            forall|j: int| 0 <= j < i ==> r@[j] == v@[j],
        decreases v@.len() - i,
    {
        r.push(v[i]);
        i += 1;
    }
    proof {
        assert(r@ =~= v@);
    }
    r
}

impl Clone for Board {
    /// A deep copy of the board: the clone owns its own grid.
    fn clone(&self) -> (r: Board)
        ensures
            r@ == self@,
    {
        Board { state: copy_stones(&self.state), size: self.size }
    }
}

impl Board {
    /// Creates a new 19x19 `Board`.
    pub fn new() -> (r: Board)
        ensures
            r@.wf(),
            r@.size == 19,
            forall|i: int| 0 <= i < r@.grid.len() ==> r@.grid[i] == Stone::Empty,
    {
        Self::with_size(19)
    }

    /// Creates a new empty `Board` with a given `size`.
    pub fn with_size(size: usize) -> (r: Board)
        requires
            size * size <= usize::MAX,
        ensures
            r@.wf(),
            r@.size == size,
            forall|i: int| 0 <= i < r@.grid.len() ==> r@.grid[i] == Stone::Empty,
    {
        let n = size * size;
        let mut state: Vec<Stone> = Vec::new();
        let mut i: usize = 0;
        while i < n
            invariant
                i <= n,
                state@.len() == i,
                forall|j: int| 0 <= j < i ==> state@[j] == Stone::Empty,
            decreases n - i,
        {
            state.push(Stone::Empty);
            i += 1;
        }
        Board { state, size }
    }

    /// Reads the cell at `(x, y)`. Callers must stay in bounds: out-of-range
    /// access is a contract violation, not a recoverable error.
    pub fn get(&self, x: usize, y: usize) -> (r: Stone)
        requires
            self@.wf(),
            self@.in_bounds((x, y)),
        ensures
            r == self@.at((x, y)),
    {
        proof {
            lemma_index_bounds(self@, (x, y));
            assert(self@.index((x, y)) == y * self.size + x);
            assert(self@.grid.len() == self.state@.len());
            assert(self.state.len() == self.state@.len());
        }
        self.state[y * self.size + x]
    }

    /// Writes `stone` into the cell at `(x, y)`. Callers must stay in bounds.
    pub fn set(&mut self, x: usize, y: usize, stone: Stone)
        requires
            old(self)@.wf(),
            old(self)@.in_bounds((x, y)),
        ensures
            final(self)@ == place(old(self)@, stone, (x, y)),
            final(self)@.wf(),
    {
        proof {
            lemma_index_bounds(old(self)@, (x, y));
            assert(old(self)@.index((x, y)) == y * self.size + x);
            assert(old(self)@.grid.len() == self.state@.len());
            assert(self.state.len() == self.state@.len());
        }
        let i = y * self.size + x;
        self.state.set(i, stone);
        proof {
            assert(self@ =~= place(old(self)@, stone, (x, y)));
        }
    }

    /// The orthogonally adjacent in-bounds intersections of `(x, y)`:
    /// two at a corner, three on an edge, four in the interior.
    pub fn neighbours(&self, x: usize, y: usize) -> (r: Vec<(usize, usize)>)
        requires
            self@.in_bounds((x, y)),
        ensures
            r@.no_duplicates(),
            forall|q: (usize, usize)|
                #[trigger] r@.contains(q) <==> (self@.in_bounds(q) && adjacent(q, (x, y))),
    {
        let mut r: Vec<(usize, usize)> = Vec::new();
        if x > 0 {
            r.push((x - 1, y));
        }
        if y > 0 {
            r.push((x, y - 1));
        }
        if x + 1 < self.size {
            r.push((x + 1, y));
        }
        if y + 1 < self.size {
            r.push((x, y + 1));
        }
        proof {
            broadcast use vstd::seq_lib::lemma_seq_contains_after_push;

            assert(x > 0 ==> r@.contains(((x - 1) as usize, y)));
            assert(y > 0 ==> r@.contains((x, (y - 1) as usize)));
            assert(x + 1 < self.size ==> r@.contains(((x + 1) as usize, y)));
            assert(y + 1 < self.size ==> r@.contains((x, (y + 1) as usize)));
            assert forall|q: (usize, usize)|
                #[trigger] r@.contains(q) <==> (self@.in_bounds(q) && adjacent(q, (x, y))) by {
                if self@.in_bounds(q) && adjacent(q, (x, y)) {
                    if q.1 == y && q.0 + 1 == x {
                        assert(q == ((x - 1) as usize, y));
                    } else if q.1 == y && x + 1 == q.0 {
                        assert(q == ((x + 1) as usize, y));
                    } else if q.0 == x && q.1 + 1 == y {
                        assert(q == (x, (y - 1) as usize));
                    } else {
                        assert(q == (x, (y + 1) as usize));
                    }
                    assert(r@.contains(q));
                }
                if r@.contains(q) {
                    let i = choose|i: int| 0 <= i < r@.len() && r@[i] == q;
                    assert(self@.in_bounds(q) && adjacent(q, (x, y)));
                }
            }
        }
        r
    }
}

} // verus!
