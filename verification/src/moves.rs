use vstd::prelude::*;

use crate::board::{
    adjacent, captured, captures_at, chain_set, connected, coord_of, is_captured_neighbour,
    lemma_index_injective, lemma_index_inverse, move_cell, move_legal, move_result, place, Board,
    BoardView,
};
use crate::stone::{opponent, Stone};

verus! {

/// Whether `q` is captured through one of the first `i` entries of `nbrs`:
/// some such entry is a captured opposing neighbour whose chain holds `q`.
spec fn captured_via_prefix(
    v: BoardView,
    c: Stone,
    p: (usize, usize),
    nbrs: Seq<(usize, usize)>,
    i: int,
    q: (usize, usize),
) -> bool {
    exists|k: int|
        0 <= k < i && is_captured_neighbour(v, c, p, #[trigger] nbrs[k]) && connected(
            v,
            opponent(c),
            nbrs[k],
            q,
        )
}

impl Board {
    /// Whether placing `stone` at `(x, y)` is a legal play: the cell must be
    /// an empty in-bounds intersection, and the move must either capture an
    /// adjacent opposing chain or keep at least one liberty for its own
    /// chain. The ko rule is handled at the `Game` level, since `Board`
    /// stores no history.
    pub fn legal_move(&mut self, stone: Stone, x: usize, y: usize) -> (r: bool)
        requires
            old(self)@.wf(),
        ensures
            final(self)@ == old(self)@,
            r == move_legal(old(self)@, stone, (x, y)),
    {
        let ghost v = old(self)@;
        if stone == Stone::Empty {
            return false;
        }
        if x >= self.size || y >= self.size {
            return false;
        }
        if self.get(x, y) != Stone::Empty {
            return false;
        }
        let opp = stone.not();
        let nbrs = self.neighbours(x, y);
        let mut i: usize = 0;
        while i < nbrs.len()
            invariant
                v == self@,
                v.wf(),
                v.in_bounds((x, y)),
                v.at((x, y)) == Stone::Empty,
                stone != Stone::Empty,
                opp == opponent(stone),
                i <= nbrs@.len(),
                forall|q: (usize, usize)| #[trigger]
                    nbrs@.contains(q) <==> (v.in_bounds(q) && adjacent(q, (x, y))),
                forall|k: int|
                    0 <= k < i ==> !is_captured_neighbour(v, stone, (x, y), #[trigger] nbrs@[k]),
            decreases nbrs@.len() - i,
        {
            let (nx, ny) = nbrs[i];
            proof {
                assert(nbrs@.contains(nbrs@[i as int]));
            }
            if self.get(nx, ny) == opp {
                let libs = self.liberties(nx, ny);
                if libs.is_only(x, y) {
                    proof {
                        assert(is_captured_neighbour(v, stone, (x, y), (nx, ny)));
                        assert(captures_at(v, stone, (x, y)));
                    }
                    return true;
                }
            }
            i += 1;
        }
        proof {
            assert forall|n: (usize, usize)| !is_captured_neighbour(
                v,
                stone,
                (x, y),
                n,
            ) by {
                if is_captured_neighbour(v, stone, (x, y), n) {
                    assert(nbrs@.contains(n));
                    let k = choose|k: int| 0 <= k < nbrs@.len() && nbrs@[k] == n;
                    assert(!is_captured_neighbour(v, stone, (x, y), nbrs@[k]));
                }
            }
            assert(!captures_at(v, stone, (x, y)));
        }
        self.set(x, y, stone);
        let libs = self.liberties(x, y);
        proof {
            crate::board::lemma_index_bounds(v, (x, y));
            assert(self@ == place(v, stone, (x, y)));
            assert(self@.at((x, y)) == stone);
        }
        let empty = libs.is_empty();
        self.set(x, y, Stone::Empty);
        proof {
            assert(self@.grid =~= v.grid);
            assert(self@ =~= v);
        }
        !empty
    }

    /// Places `stone` at `(x, y)`, returning whether the play succeeded.
    /// A successful play removes every adjacent opposing chain whose sole
    /// remaining liberty was `(x, y)` — all such chains at once, judged
    /// against the board as it stood before the placement — and then writes
    /// the stone. A failed play leaves the board entirely unchanged.
    pub fn make_move(&mut self, stone: Stone, x: usize, y: usize) -> (r: bool)
        requires
            old(self)@.wf(),
        ensures
            r == move_legal(old(self)@, stone, (x, y)),
            final(self)@.wf(),
            !r ==> final(self)@ == old(self)@,
            r ==> final(self)@ == move_result(old(self)@, stone, (x, y)),
    {
        let ghost v = old(self)@;
        let ghost p0 = (x, y);
        if x >= self.size || y >= self.size {
            return false;
        }
        if self.get(x, y) != Stone::Empty {
            return false;
        }
        if stone == Stone::Empty {
            return false;
        }
        if !self.legal_move(stone, x, y) {
            return false;
        }
        let opp = stone.not();
        let pre = self.clone();
        let nbrs = pre.neighbours(x, y);
        let mut i: usize = 0;
        while i < nbrs.len()
            invariant
                pre@ == v,
                v.wf(),
                v.in_bounds(p0),
                p0 == (x, y),
                v.at(p0) == Stone::Empty,
                stone != Stone::Empty,
                opp == opponent(stone),
                self@.wf(),
                self@.size == v.size,
                i <= nbrs@.len(),
                forall|q: (usize, usize)| #[trigger]
                    nbrs@.contains(q) <==> (v.in_bounds(q) && adjacent(q, p0)),
                forall|q: (usize, usize)|
                    v.in_bounds(q) ==> #[trigger] self@.at(q) == (if captured_via_prefix(
                        v,
                        stone,
                        p0,
                        nbrs@,
                        i as int,
                        q,
                    ) {
                        Stone::Empty
                    } else {
                        v.at(q)
                    }),
            decreases nbrs@.len() - i,
        {
            let (nx, ny) = nbrs[i];
            let ghost n0 = (nx, ny);
            proof {
                assert(nbrs@.contains(nbrs@[i as int]));
            }
            let mut qualified = false;
            if pre.get(nx, ny) == opp {
                let libs = pre.liberties(nx, ny);
                if libs.is_only(x, y) {
                    qualified = true;
                    proof {
                        assert(is_captured_neighbour(v, stone, p0, n0));
                    }
                    let chain = pre.chain_at(nx, ny);
                    proof {
                        chain.lemma_items();
                        assert(chain@ == chain_set(v, n0));
                    }
                    let n = chain.len();
                    let mut j: usize = 0;
                    while j < n
                        invariant
                            pre@ == v,
                            v.wf(),
                            v.in_bounds(p0),
                            p0 == (x, y),
                            n0 == (nx, ny),
                            stone != Stone::Empty,
                            opp == opponent(stone),
                            self@.wf(),
                            self@.size == v.size,
                            i < nbrs@.len(),
                            n0 == nbrs@[i as int],
                            is_captured_neighbour(v, stone, p0, n0),
                            chain.wf(),
                            chain.side() == v.size,
                            chain@ == chain_set(v, n0),
                            chain.items().to_set() == chain@,
                            n == chain.items().len(),
                            j <= n,
                            forall|t: int|
                                0 <= t < chain.items().len() ==> v.in_bounds(
                                    #[trigger] chain.items()[t],
                                ),
                            forall|q: (usize, usize)|
                                v.in_bounds(q) ==> #[trigger] self@.at(q) == (if captured_via_prefix(
                                    v,
                                    stone,
                                    p0,
                                    nbrs@,
                                    i as int,
                                    q,
                                ) || chain.items().take(j as int).to_set().contains(q) {
                                    Stone::Empty
                                } else {
                                    v.at(q)
                                }),
                        decreases n - j,
                    {
                        broadcast use vstd::prelude::Seq::lemma_push_to_set_commute;

                        let (cx, cy) = chain.get(j);
                        let ghost before = self@;
                        self.set(cx, cy, Stone::Empty);
                        proof {
                            let q0 = (cx, cy);
                            assert(chain.items().take(j + 1) =~= chain.items().take(
                                j as int,
                            ).push(chain.items()[j as int]));
                            assert forall|q: (usize, usize)| v.in_bounds(q) implies #[trigger] self@
                                .at(q) == (if captured_via_prefix(
                                v,
                                stone,
                                p0,
                                nbrs@,
                                i as int,
                                q,
                            ) || chain.items().take(j + 1).to_set().contains(q) {
                                Stone::Empty
                            } else {
                                v.at(q)
                            }) by {
                                crate::board::lemma_index_bounds(v, q);
                                crate::board::lemma_index_bounds(v, q0);
                                if q == q0 {
                                    assert(self@.at(q) == Stone::Empty);
                                    assert(chain.items().take(j + 1).to_set().contains(q));
                                } else {
                                    if v.index(q) == v.index(q0) {
                                        lemma_index_injective(v, q, q0);
                                    }
                                    assert(self@.at(q) == before.at(q));
                                }
                            }
                        }
                        j += 1;
                    }
                    proof {
                        assert(chain.items().take(n as int) =~= chain.items());
                        assert(forall|q: (usize, usize)|
                            v.in_bounds(q) ==> #[trigger] self@.at(q) == (if captured_via_prefix(
                                v,
                                stone,
                                p0,
                                nbrs@,
                                i as int,
                                q,
                            ) || chain_set(v, n0).contains(q) {
                                Stone::Empty
                            } else {
                                v.at(q)
                            }));
                    }
                }
            }
            proof {
                if qualified {
                    assert forall|q: (usize, usize)| v.in_bounds(q) implies #[trigger] self@.at(q)
                        == (if captured_via_prefix(v, stone, p0, nbrs@, i + 1, q) {
                        Stone::Empty
                    } else {
                        v.at(q)
                    }) by {
                        if captured_via_prefix(v, stone, p0, nbrs@, i + 1, q) {
                            let k = choose|k: int|
                                0 <= k < i + 1 && is_captured_neighbour(
                                    v,
                                    stone,
                                    p0,
                                    #[trigger] nbrs@[k],
                                ) && connected(v, opponent(stone), nbrs@[k], q);
                            if k == i {
                                assert(chain_set(v, n0).contains(q));
                            } else {
                                assert(captured_via_prefix(v, stone, p0, nbrs@, i as int, q));
                            }
                        } else {
                            assert(!captured_via_prefix(v, stone, p0, nbrs@, i as int, q));
                            assert(!chain_set(v, n0).contains(q));
                        }
                    }
                } else {
                    assert(!is_captured_neighbour(v, stone, p0, n0));
                    assert forall|q: (usize, usize)| v.in_bounds(q) implies #[trigger] self@.at(q)
                        == (if captured_via_prefix(v, stone, p0, nbrs@, i + 1, q) {
                        Stone::Empty
                    } else {
                        v.at(q)
                    }) by {
                        if captured_via_prefix(v, stone, p0, nbrs@, i + 1, q) {
                            let k = choose|k: int|
                                0 <= k < i + 1 && is_captured_neighbour(
                                    v,
                                    stone,
                                    p0,
                                    #[trigger] nbrs@[k],
                                ) && connected(v, opponent(stone), nbrs@[k], q);
                            assert(k != i);
                            assert(captured_via_prefix(v, stone, p0, nbrs@, i as int, q));
                        } else {
                            assert(!captured_via_prefix(v, stone, p0, nbrs@, i as int, q));
                        }
                    }
                }
            }
            i += 1;
        }
        let ghost cleared = self@;
        self.set(x, y, stone);
        proof {
            crate::board::lemma_index_bounds(v, p0);
            assert forall|idx: int| 0 <= idx < self@.grid.len() implies self@.grid[idx]
                == move_result(v, stone, p0).grid[idx] by {
                lemma_index_inverse(v, idx);
                let q = coord_of(v.size, idx);
                assert(move_result(v, stone, p0).grid[idx] == move_cell(v, stone, p0, q));
                assert(self@.at(q) == self@.grid[idx]);
                if q == p0 {
                    assert(self@.at(q) == stone);
                } else {
                    if v.index(q) == v.index(p0) {
                        lemma_index_injective(v, q, p0);
                    }
                    assert(self@.at(q) == cleared.at(q));
                    assert(captured_via_prefix(v, stone, p0, nbrs@, nbrs@.len() as int, q)
                        <==> captured(v, stone, p0, q)) by {
                        if captured(v, stone, p0, q) {
                            let m = choose|m: (usize, usize)|
                                #[trigger] is_captured_neighbour(v, stone, p0, m) && connected(
                                    v,
                                    opponent(stone),
                                    m,
                                    q,
                                );
                            assert(nbrs@.contains(m));
                            let k = choose|k: int| 0 <= k < nbrs@.len() && nbrs@[k] == m;
                            assert(captured_via_prefix(v, stone, p0, nbrs@, nbrs@.len() as int, q));
                        }
                        if captured_via_prefix(v, stone, p0, nbrs@, nbrs@.len() as int, q) {
                            let k = choose|k: int|
                                0 <= k < nbrs@.len() && is_captured_neighbour(
                                    v,
                                    stone,
                                    p0,
                                    #[trigger] nbrs@[k],
                                ) && connected(v, opponent(stone), nbrs@[k], q);
                            assert(captured(v, stone, p0, q));
                        }
                    }
                }
            }
            assert(self@ =~= move_result(v, stone, p0));
        }
        true
    }
}

} // verus!
