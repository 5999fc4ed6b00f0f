use vstd::prelude::*;

use crate::board::{
    adjacent, captured, captures_at, chain_set, connected, is_captured_neighbour, is_suicide,
    lemma_index_bounds, lemma_index_injective, liberty_set, move_cell, move_legal, move_result,
    place, stone_path, BoardView,
};
use crate::flood::{lemma_connected_refl, lemma_connected_sym, lemma_connected_trans};
use crate::game::{game_step, move_allowed, GameView};
use crate::stone::Stone;
use crate::text::{
    board_text, cells_of, glyph_at, grid_text, is_isqrt, is_space, parse_cell, parsed_board,
    row_text,
};

verus! {

/// On an empty board of side length at least two, any stone may be placed at
/// any intersection, and the move produces the board with exactly that one
/// cell set. (On a one-cell board the lone intersection has no liberties, so
/// the first move would be a self-capture and is rejected.)
pub proof fn lemma_first_move_on_empty_board(v: BoardView, c: Stone, x: usize, y: usize)
    requires
        v.wf(),
        v.size >= 2,
        forall|i: int| 0 <= i < v.grid.len() ==> v.grid[i] == Stone::Empty,
        c != Stone::Empty,
        v.in_bounds((x, y)),
    ensures
        move_legal(v, c, (x, y)),
        move_result(v, c, (x, y)) == place(v, c, (x, y)),
{
    let p = (x, y);
    lemma_index_bounds(v, p);
    assert(v.at(p) == Stone::Empty);

    // No opposing stones exist, so nothing is captured.
    assert forall|n: (usize, usize)| !is_captured_neighbour(v, c, p, n) by {
        if v.in_bounds(n) {
            lemma_index_bounds(v, n);
            assert(v.at(n) == Stone::Empty);
        }
    }
    assert(!captures_at(v, c, p));
    assert(forall|q: (usize, usize)| !captured(v, c, p, q));

    // The placed stone keeps a liberty: some neighbour exists and is empty.
    let b = place(v, c, p);
    let l = if x + 1 < v.size {
        ((x + 1) as usize, y)
    } else {
        ((x - 1) as usize, y)
    };
    assert(adjacent(p, l));
    assert(b.in_bounds(l));
    lemma_index_bounds(b, l);
    lemma_index_bounds(b, p);
    if v.index(p) == v.index(l) {
        lemma_index_injective(v, p, l);
    }
    assert(b.at(l) == Stone::Empty);
    assert(b.at(p) == c);
    lemma_connected_refl(b, c, p);
    assert(liberty_set(b, p).contains(l));
    assert(!is_suicide(v, c, p));
    assert(move_legal(v, c, p));

    // With nothing captured, the result is exactly the one-cell update.
    assert forall|i: int| 0 <= i < v.grid.len() implies move_result(v, c, p).grid[i] == place(
        v,
        c,
        p,
    ).grid[i] by {
        crate::board::lemma_index_inverse(v, i);
        let q = crate::board::coord_of(v.size, i);
        assert(move_result(v, c, p).grid[i] == move_cell(v, c, p, q));
        if q != p {
            if v.index(q) == v.index(p) {
                lemma_index_injective(v, q, p);
            }
        }
    }
    assert(move_result(v, c, p) =~= place(v, c, p));
}

/// Chain and liberty symmetry: two positions in the same connected chain
/// see exactly the same chain and exactly the same liberties.
pub proof fn lemma_chain_liberty_symmetry(v: BoardView, p: (usize, usize), q: (usize, usize))
    requires
        v.in_bounds(p),
        v.at(p) != Stone::Empty,
        chain_set(v, p).contains(q),
    ensures
        v.at(q) == v.at(p),
        chain_set(v, q) == chain_set(v, p),
        liberty_set(v, q) == liberty_set(v, p),
{
    let c = v.at(p);
    assert(connected(v, c, p, q));
    let path = choose|path: Seq<(usize, usize)>|
        #[trigger] stone_path(v, c, path) && path.len() > 0 && path[0] == p && path.last() == q;
    assert(v.at(path.last()) == c);
    lemma_connected_sym(v, c, p, q);
    assert forall|r: (usize, usize)| #[trigger] chain_set(v, q).contains(r) implies chain_set(
        v,
        p,
    ).contains(r) by {
        lemma_connected_trans(v, c, p, q, r);
    }
    assert forall|r: (usize, usize)| #[trigger] chain_set(v, p).contains(r) implies chain_set(
        v,
        q,
    ).contains(r) by {
        lemma_connected_trans(v, c, q, p, r);
    }
    assert(chain_set(v, q) =~= chain_set(v, p));
    assert forall|l: (usize, usize)| #[trigger] liberty_set(v, q).contains(l) implies liberty_set(
        v,
        p,
    ).contains(l) by {
        let m = choose|m: (usize, usize)| #[trigger] adjacent(m, l) && connected(v, c, q, m);
        lemma_connected_trans(v, c, p, q, m);
    }
    assert forall|l: (usize, usize)| #[trigger] liberty_set(v, p).contains(l) implies liberty_set(
        v,
        q,
    ).contains(l) by {
        let m = choose|m: (usize, usize)| #[trigger] adjacent(m, l) && connected(v, c, p, m);
        lemma_connected_trans(v, c, q, p, m);
    }
    assert(liberty_set(v, q) =~= liberty_set(v, p));
}

/// Capture atomicity: a legal move empties exactly the cells of the adjacent
/// opposing chains whose sole liberty was the played point — every stone of
/// every such chain — writes the played stone, and alters nothing else.
pub proof fn lemma_capture_atomicity(v: BoardView, c: Stone, p: (usize, usize), q: (usize, usize))
    requires
        v.wf(),
        v.in_bounds(p),
        v.in_bounds(q),
    ensures
        move_result(v, c, p).at(p) == c,
        q != p && captured(v, c, p, q) ==> move_result(v, c, p).at(q) == Stone::Empty,
        q != p && !captured(v, c, p, q) ==> move_result(v, c, p).at(q) == v.at(q),
{
    lemma_index_bounds(v, p);
    lemma_index_bounds(v, q);
    assert(move_result(v, c, p).at(q) == move_cell(v, c, p, q));
    assert(move_result(v, c, p).at(p) == move_cell(v, c, p, p));
}

/// Suicide prevention: a placement that would leave its own chain without
/// liberties, and captures no adjacent opposing chain, is not legal — so
/// `make_move` rejects it and leaves the board unchanged.
pub proof fn lemma_suicide_rejected(v: BoardView, c: Stone, p: (usize, usize))
    requires
        !captures_at(v, c, p),
        is_suicide(v, c, p),
    ensures
        !move_legal(v, c, p),
{
}

/// Idempotence of failed moves: a rejected move leaves the game exactly as
/// it was, so repeating the same rejected move fails again and the state
/// never drifts.
pub proof fn lemma_failed_move_idempotent(g: GameView, c: Stone, x: usize, y: usize)
    requires
        !move_allowed(g, c, x, y),
    ensures
        game_step(g, c, x, y) == g,
        !move_allowed(game_step(g, c, x, y), c, x, y),
        game_step(game_step(g, c, x, y), c, x, y) == g,
{
}

/// Reading cells out of a text is a homomorphism over concatenation.
pub proof fn lemma_cells_of_concat(a: Seq<char>, b: Seq<char>)
    ensures
        cells_of(a + b) == cells_of(a) + cells_of(b),
    decreases b.len(),
{
    if b.len() == 0 {
        assert(a + b =~= a);
        assert(cells_of(b) =~= Seq::<Stone>::empty());
        assert(cells_of(a) + cells_of(b) =~= cells_of(a));
    } else {
        assert((a + b).drop_last() =~= a + b.drop_last());
        assert((a + b).last() == b.last());
        assert((a + b).len() > 0);
        lemma_cells_of_concat(a, b.drop_last());
        if is_space(b.last()) {
            assert(cells_of(a + b) == cells_of(a) + cells_of(b.drop_last()));
        } else {
            assert(cells_of(a + b) == (cells_of(a) + cells_of(b.drop_last())).push(
                parse_cell(b.last()),
            ));
            assert((cells_of(a) + cells_of(b.drop_last())).push(parse_cell(b.last())) =~= cells_of(
                a,
            ) + cells_of(b.drop_last()).push(parse_cell(b.last())));
        }
        assert(cells_of(a + b) =~= cells_of(a) + cells_of(b));
    }
}

/// No display glyph is whitespace.
proof fn lemma_glyph_not_space(v: BoardView, p: (usize, usize))
    ensures
        !is_space(glyph_at(v, p)),
{
}

/// The cells read back from one rendered row are exactly that row's cells.
proof fn lemma_row_cells(v: BoardView, y: usize, x: int)
    requires
        v.wf(),
        y < v.size,
        0 <= x <= v.size,
        forall|p: (usize, usize)| v.in_bounds(p) ==> parse_cell(#[trigger] glyph_at(v, p)) == v.at(p),
    ensures
        cells_of(row_text(v, y, x)).len() == x,
        forall|i: int| 0 <= i < x ==> cells_of(row_text(v, y, x))[i] == v.at((i as usize, y)),
    decreases x,
{
    if x <= 0 {
    } else if x == 1 {
        let g = glyph_at(v, (0, y));
        let t = seq![g];
        assert(t.drop_last() =~= Seq::<char>::empty());
        assert(cells_of(t.drop_last()) =~= Seq::<Stone>::empty());
        lemma_glyph_not_space(v, (0, y));
        assert(v.in_bounds((0, y)));
        assert(cells_of(t) =~= seq![v.at((0, y))]);
    } else {
        lemma_row_cells(v, y, x - 1);
        let q = (((x - 1) as usize), y);
        let g = glyph_at(v, q);
        let tail = seq![' ', g];
        lemma_cells_of_concat(row_text(v, y, x - 1), tail);
        assert(tail.drop_last() =~= seq![' ']);
        assert(seq![' '].drop_last() =~= Seq::<char>::empty());
        assert(cells_of(Seq::<char>::empty()) =~= Seq::<Stone>::empty());
        assert(cells_of(seq![' ']) =~= Seq::<Stone>::empty());
        lemma_glyph_not_space(v, q);
        assert(v.in_bounds(q));
        assert(cells_of(tail) =~= seq![v.at(q)]);
        assert(cells_of(row_text(v, y, x)) =~= cells_of(row_text(v, y, x - 1)) + seq![v.at(q)]);
    }
}

/// The cells read back from the first `y` rendered rows are exactly the
/// first `y` rows of the grid.
proof fn lemma_grid_cells(v: BoardView, y: int)
    requires
        v.wf(),
        v.size >= 1,
        0 <= y <= v.size,
        forall|p: (usize, usize)| v.in_bounds(p) ==> parse_cell(#[trigger] glyph_at(v, p)) == v.at(p),
    ensures
        cells_of(grid_text(v, y)) == v.grid.take(y * v.size),
    decreases y,
{
    let s = v.size as int;
    if y <= 0 {
        assert(cells_of(grid_text(v, y)) =~= v.grid.take(0));
    } else {
        assert(0 <= (y - 1) * s && y * s <= s * s) by (nonlinear_arith)
            requires
                0 < y <= s,
        ;
        assert((y - 1) * s + s == y * s) by (nonlinear_arith);
        if y == 1 {
            lemma_row_cells(v, 0, s);
            assert forall|i: int| 0 <= i < s implies cells_of(grid_text(v, 1))[i] == v.grid.take(
                y * s,
            )[i] by {
                assert(cells_of(row_text(v, 0, s))[i] == v.at((i as usize, 0)));
                assert(v.index((i as usize, 0)) == i);
            }
            assert(cells_of(grid_text(v, y)) =~= v.grid.take(y * s));
        } else {
            lemma_grid_cells(v, y - 1);
            let yy = ((y - 1) as usize);
            lemma_row_cells(v, yy, s);
            let head = grid_text(v, y - 1);
            let nl = seq!['\n'];
            let row = row_text(v, yy, s);
            assert(grid_text(v, y) == head + nl + row);
            lemma_cells_of_concat(head + nl, row);
            lemma_cells_of_concat(head, nl);
            assert(nl.drop_last() =~= Seq::<char>::empty());
            assert(cells_of(Seq::<char>::empty()) =~= Seq::<Stone>::empty());
            assert(cells_of(nl) =~= Seq::<Stone>::empty());
            assert(cells_of(head + nl) =~= cells_of(head));
            assert(cells_of(grid_text(v, y)) =~= cells_of(head) + cells_of(row));
            assert forall|i: int| 0 <= i < y * s implies (cells_of(head) + cells_of(row))[i]
                == v.grid.take(y * s)[i] by {
                if i < (y - 1) * s {
                    assert((cells_of(head) + cells_of(row))[i] == cells_of(head)[i]);
                } else {
                    let o = i - (y - 1) * s;
                    assert(cells_of(row)[o] == v.at((o as usize, yy)));
                    assert(v.index((o as usize, yy)) == (y - 1) * s + o);
                }
            }
            assert(cells_of(head) + cells_of(row) =~= v.grid.take(y * s));
        }
    }
}

/// Round trip: rendering a board and re-parsing the text through the same
/// symbol table reproduces the board exactly, provided every cell's display
/// glyph reads back as that same cell. (The stone glyphs themselves are not
/// in the parser's symbol table, so this premise confines the law to boards
/// whose cells all read back — in particular, all-empty boards.)
pub proof fn lemma_render_parse_round_trip(v: BoardView)
    requires
        v.wf(),
        v.size >= 1,
        forall|p: (usize, usize)| v.in_bounds(p) ==> parse_cell(#[trigger] glyph_at(v, p)) == v.at(p),
    ensures
        parsed_board(board_text(v), v),
{
    let s = v.size as int;
    lemma_grid_cells(v, s);
    assert(v.grid.take(s * s) =~= v.grid);
    assert(cells_of(board_text(v)) == v.grid);
    assert(is_isqrt(s * s, s)) by (nonlinear_arith)
        requires
            s >= 1,
    ;
    assert(v.grid == cells_of(board_text(v)).take(v.size * v.size));
}

/// A text determines the parsed board completely: the inferred side length
/// is unique, and with it the grid.
pub proof fn lemma_parsed_board_unique(s: Seq<char>, a: BoardView, b: BoardView)
    requires
        parsed_board(s, a),
        parsed_board(s, b),
    ensures
        a == b,
{
    let n = cells_of(s).len() as int;
    assert(a.size == b.size) by (nonlinear_arith)
        requires
            is_isqrt(n, a.size as int),
            is_isqrt(n, b.size as int),
    ;
    assert(a =~= b);
}

} // verus!
