use vstd::prelude::*;

use crate::board::{adjacent, chain_set, connected, liberty_set, stone_path, Board, BoardView};
use crate::coords::CoordSet;
use crate::stone::Stone;

verus! {

/// A cell holding `c` is connected to itself.
pub proof fn lemma_connected_refl(v: BoardView, c: Stone, p: (usize, usize))
    requires
        v.in_bounds(p),
        v.at(p) == c,
    ensures
        connected(v, c, p, p),
{
    let path = seq![p];
    assert(stone_path(v, c, path));
    assert(path[0] == p && path.last() == p);
}

/// Connectivity extends across one adjacency step to another cell of the
/// same color.
pub proof fn lemma_connected_step(
    v: BoardView,
    c: Stone,
    p: (usize, usize),
    q: (usize, usize),
    r: (usize, usize),
)
    requires
        connected(v, c, p, q),
        adjacent(q, r),
        v.in_bounds(r),
        v.at(r) == c,
    ensures
        connected(v, c, p, r),
{
    let path = choose|path: Seq<(usize, usize)>|
        #[trigger] stone_path(v, c, path) && path.len() > 0 && path[0] == p && path.last() == q;
    let ext = path.push(r);
    assert(stone_path(v, c, ext)) by {
        assert(forall|i: int| 0 <= i < path.len() ==> ext[i] == #[trigger] path[i]);
        assert(ext[ext.len() - 1] == r);
        assert(ext[path.len() - 1] == q);
    }
    assert(ext[0] == p && ext.last() == r);
}

/// Connectivity composes: a walk from `p` to `q` and a walk from `q` to `r`
/// join into a walk from `p` to `r`.
pub proof fn lemma_connected_trans(
    v: BoardView,
    c: Stone,
    p: (usize, usize),
    q: (usize, usize),
    r: (usize, usize),
)
    requires
        connected(v, c, p, q),
        connected(v, c, q, r),
    ensures
        connected(v, c, p, r),
{
    let one = choose|path: Seq<(usize, usize)>|
        #[trigger] stone_path(v, c, path) && path.len() > 0 && path[0] == p && path.last() == q;
    let two = choose|path: Seq<(usize, usize)>|
        #[trigger] stone_path(v, c, path) && path.len() > 0 && path[0] == q && path.last() == r;
    let joined = one + two.drop_first();
    assert(stone_path(v, c, joined)) by {
        assert(forall|i: int| 0 <= i < one.len() ==> joined[i] == #[trigger] one[i]);
        assert(forall|i: int|
            one.len() <= i < joined.len() ==> joined[i] == #[trigger] two[i - one.len() + 1]);
        assert forall|i: int| 0 < i < joined.len() implies adjacent(
            joined[i - 1],
            #[trigger] joined[i],
        ) by {
            if i == one.len() {
                assert(joined[i - 1] == q);
                if two.len() > 1 {
                    assert(joined[i] == two[1]);
                    assert(adjacent(two[0], two[1]));
                }
            }
        }
    }
    assert(joined[0] == p);
    assert(joined.last() == r);
}

/// Every cell of a same-colored walk is connected back to the walk's start.
proof fn lemma_path_reverses(v: BoardView, c: Stone, path: Seq<(usize, usize)>)
    requires
        stone_path(v, c, path),
        path.len() > 0,
    ensures
        connected(v, c, path.last(), path[0]),
    decreases path.len(),
{
    if path.len() == 1 {
        lemma_connected_refl(v, c, path[0]);
    } else {
        let pre = path.drop_last();
        assert(stone_path(v, c, pre)) by {
            assert(forall|i: int| 0 <= i < pre.len() ==> pre[i] == #[trigger] path[i]);
        }
        lemma_path_reverses(v, c, pre);
        assert(adjacent(path[path.len() - 2], path[path.len() - 1]));
        let back = seq![path.last(), pre.last()];
        assert(stone_path(v, c, back));
        assert(connected(v, c, path.last(), pre.last()));
        lemma_connected_trans(v, c, path.last(), pre.last(), path[0]);
    }
}

/// Connectivity is symmetric: a walk from `p` to `q` reverses into a walk
/// from `q` to `p`.
pub proof fn lemma_connected_sym(v: BoardView, c: Stone, p: (usize, usize), q: (usize, usize))
    requires
        connected(v, c, p, q),
    ensures
        connected(v, c, q, p),
{
    let path = choose|path: Seq<(usize, usize)>|
        #[trigger] stone_path(v, c, path) && path.len() > 0 && path[0] == p && path.last() == q;
    lemma_path_reverses(v, c, path);
}

/// Any set that holds the start of a same-colored walk and is closed under
/// same-colored adjacency holds the walk's end as well.
pub proof fn lemma_closed_reaches(
    v: BoardView,
    c: Stone,
    s: Set<(usize, usize)>,
    path: Seq<(usize, usize)>,
)
    requires
        stone_path(v, c, path),
        path.len() > 0,
        s.contains(path[0]),
        forall|a: (usize, usize), b: (usize, usize)|
            s.contains(a) && #[trigger] adjacent(a, b) && v.in_bounds(b) && v.at(b) == c
                ==> s.contains(b),
    ensures
        s.contains(path.last()),
    decreases path.len(),
{
    if path.len() > 1 {
        let pre = path.drop_last();
        assert(stone_path(v, c, pre)) by {
            assert(forall|i: int| 0 <= i < pre.len() ==> pre[i] == #[trigger] path[i]);
        }
        lemma_closed_reaches(v, c, s, pre);
        assert(pre.last() == path[path.len() - 2]);
        assert(adjacent(path[path.len() - 2], path[path.len() - 1]));
        assert(s.contains(path.last()));
    }
}

impl Board {
    /// Walks the connected component of the stone at `(x, y)` and collects
    /// both its cells and its liberties in one traversal.
    fn flood(&self, x: usize, y: usize) -> (r: (CoordSet, CoordSet))
        requires
            self@.wf(),
            self@.in_bounds((x, y)),
            self@.at((x, y)) != Stone::Empty,
        ensures
            r.0.wf(),
            r.0.side() == self@.size,
            r.0@ == chain_set(self@, (x, y)),
            r.1.wf(),
            r.1.side() == self@.size,
            r.1@ == liberty_set(self@, (x, y)),
    {
        broadcast use vstd::set::group_set_axioms;

        let ghost v = self@;
        let ghost start = (x, y);
        let c = self.get(x, y);
        proof {
            assert(self.state.len() == self.state@.len());
        }
        let mut seen = CoordSet::new(self.size);
        let mut libs = CoordSet::new(self.size);
        let mut horizon: Vec<(usize, usize)> = Vec::new();
        seen.insert(x, y);
        horizon.push((x, y));
        proof {
            lemma_connected_refl(v, c, start);
            seen.lemma_len_le();
            assert(horizon@[0] == start);
            assert(horizon@.contains(start));
        }
        while horizon.len() > 0
            invariant
                v == self@,
                v.wf(),
                v.in_bounds(start),
                v.at(start) == c,
                c != Stone::Empty,
                seen.wf(),
                seen.side() == v.size,
                libs.wf(),
                libs.side() == v.size,
                seen@.finite(),
                seen@.len() <= v.size * v.size,
                seen@.contains(start),
                forall|p: (usize, usize)| #[trigger]
                    seen@.contains(p) ==> connected(v, c, start, p),
                forall|l: (usize, usize)| #[trigger]
                    libs@.contains(l) ==> v.in_bounds(l) && v.at(l) == Stone::Empty
                        && exists|q: (usize, usize)| #[trigger] adjacent(q, l) && seen@.contains(q),
                forall|i: int| 0 <= i < horizon@.len() ==> seen@.contains(#[trigger] horizon@[i]),
                forall|a: (usize, usize), b: (usize, usize)|
                    seen@.contains(a) && !horizon@.contains(a) && #[trigger] adjacent(a, b)
                        && v.in_bounds(b)
                        ==> (v.at(b) == c ==> seen@.contains(b)) && (v.at(b) == Stone::Empty
                        ==> libs@.contains(b)),
            decreases v.size * v.size - seen@.len() + horizon@.len(),
        {
            let ghost h_pre = horizon@;
            let p = horizon.pop().unwrap();
            let (px, py) = p;
            proof {
                assert(seen@.contains(p));
                assert(p == h_pre[h_pre.len() - 1]);
                assert forall|a: (usize, usize), b: (usize, usize)|
                    seen@.contains(a) && a != p && !horizon@.contains(a) && #[trigger] adjacent(
                        a,
                        b,
                    ) && v.in_bounds(b) implies (v.at(b) == c ==> seen@.contains(b)) && (v.at(b)
                    == Stone::Empty ==> libs@.contains(b)) by {
                    if h_pre.contains(a) {
                        let j = choose|j: int| 0 <= j < h_pre.len() && h_pre[j] == a;
                        if j < h_pre.len() - 1 {
                            assert(horizon@[j] == a);
                            assert(horizon@.contains(a));
                        }
                        assert(false);
                    }
                }
            }
            let ghost m0 = v.size * v.size - seen@.len() + horizon@.len();
            let nbrs = self.neighbours(px, py);
            let mut i: usize = 0;
            while i < nbrs.len()
                invariant
                    v == self@,
                    v.wf(),
                    v.in_bounds(start),
                    v.at(start) == c,
                    c != Stone::Empty,
                    seen.wf(),
                    seen.side() == v.size,
                    libs.wf(),
                    libs.side() == v.size,
                    seen@.finite(),
                    seen@.len() <= v.size * v.size,
                    seen@.contains(start),
                    seen@.contains(p),
                    p == (px, py),
                    i <= nbrs@.len(),
                    forall|q: (usize, usize)| #[trigger]
                        nbrs@.contains(q) <==> (v.in_bounds(q) && adjacent(q, p)),
                    forall|q: (usize, usize)| #[trigger]
                        seen@.contains(q) ==> connected(v, c, start, q),
                    forall|l: (usize, usize)| #[trigger]
                        libs@.contains(l) ==> v.in_bounds(l) && v.at(l) == Stone::Empty
                            && exists|q: (usize, usize)| #[trigger] adjacent(q, l)
                            && seen@.contains(q),
                    forall|j: int| 0 <= j < horizon@.len() ==> seen@.contains(#[trigger] horizon@[j]),
                    forall|a: (usize, usize), b: (usize, usize)|
                        seen@.contains(a) && a != p && !horizon@.contains(a) && #[trigger] adjacent(
                            a,
                            b,
                        ) && v.in_bounds(b)
                            ==> (v.at(b) == c ==> seen@.contains(b)) && (v.at(b) == Stone::Empty
                            ==> libs@.contains(b)),
                    forall|k: int|
                        0 <= k < i ==> (v.at(#[trigger] nbrs@[k]) == c ==> seen@.contains(nbrs@[k]))
                            && (v.at(nbrs@[k]) == Stone::Empty ==> libs@.contains(nbrs@[k])),
                    v.size * v.size - seen@.len() + horizon@.len() == m0,
                decreases nbrs@.len() - i,
            {
                broadcast use vstd::seq_lib::lemma_seq_contains_after_push;

                let (nx, ny) = nbrs[i];
                let ghost b0 = (nx, ny);
                proof {
                    assert(nbrs@.contains(nbrs@[i as int]));
                    assert(adjacent(b0, p) && adjacent(p, b0));
                }
                let s = self.get(nx, ny);
                if s == Stone::Empty {
                    let ghost libs_pre = libs@;
                    libs.insert(nx, ny);
                    proof {
                        assert forall|l: (usize, usize)| #[trigger]
                            libs@.contains(l) implies v.in_bounds(l) && v.at(l) == Stone::Empty
                            && exists|q: (usize, usize)| #[trigger] adjacent(q, l)
                            && seen@.contains(q) by {
                            if l == b0 {
                                assert(adjacent(p, l) && seen@.contains(p));
                            } else {
                                assert(libs_pre.contains(l));
                            }
                        }
                    }
                } else if s == c {
                    if !seen.contains(nx, ny) {
                        let ghost seen_pre = seen@;
                        let ghost h_in = horizon@;
                        seen.insert(nx, ny);
                        horizon.push((nx, ny));
                        proof {
                            lemma_connected_step(v, c, start, p, b0);
                            seen.lemma_len_le();
                            assert(horizon@[horizon@.len() - 1] == b0);
                            assert(horizon@.contains(b0));
                            assert forall|a: (usize, usize), b: (usize, usize)|
                                seen@.contains(a) && a != p && !horizon@.contains(a)
                                && #[trigger] adjacent(a, b) && v.in_bounds(b) implies (v.at(b)
                                == c ==> seen@.contains(b)) && (v.at(b) == Stone::Empty
                                ==> libs@.contains(b)) by {
                                assert(a != b0);
                                assert(seen_pre.contains(a));
                                assert(!h_in.contains(a));
                            }
                            assert forall|l: (usize, usize)| #[trigger]
                                libs@.contains(l) implies v.in_bounds(l) && v.at(l) == Stone::Empty
                                && exists|q: (usize, usize)| #[trigger] adjacent(q, l)
                                && seen@.contains(q) by {
                                let q = choose|q: (usize, usize)|
                                    #[trigger] adjacent(q, l) && seen_pre.contains(q);
                                assert(seen@.contains(q));
                            }
                        }
                    }
                }
                i += 1;
            }
            proof {
                assert forall|a: (usize, usize), b: (usize, usize)|
                    seen@.contains(a) && !horizon@.contains(a) && #[trigger] adjacent(a, b)
                    && v.in_bounds(b) implies (v.at(b) == c ==> seen@.contains(b)) && (v.at(b)
                    == Stone::Empty ==> libs@.contains(b)) by {
                    if a == p {
                        assert(nbrs@.contains(b));
                        let k = choose|k: int| 0 <= k < nbrs@.len() && nbrs@[k] == b;
                        assert((v.at(nbrs@[k]) == c ==> seen@.contains(nbrs@[k])) && (v.at(
                            nbrs@[k],
                        ) == Stone::Empty ==> libs@.contains(nbrs@[k])));
                    }
                }
            }
        }
        proof {
            assert forall|q: (usize, usize)| connected(v, c, start, q) implies seen@.contains(
                q,
            ) by {
                let path = choose|path: Seq<(usize, usize)>|
                    #[trigger] stone_path(v, c, path) && path.len() > 0 && path[0] == start
                        && path.last() == q;
                lemma_closed_reaches(v, c, seen@, path);
            }
            assert(seen@ =~= chain_set(v, start));
            assert forall|l: (usize, usize)| liberty_set(v, start).contains(l) implies libs@
                .contains(l) by {
                let q = choose|q: (usize, usize)|
                    #[trigger] adjacent(q, l) && connected(v, v.at(start), start, q);
                assert(seen@.contains(q));
            }
            assert(libs@ =~= liberty_set(v, start));
        }
        (seen, libs)
    }

    /// The set of all positions connected to the stone at `(x, y)`: its
    /// maximal same-colored chain, or the empty set if the cell is empty.
    pub fn chain_at(&self, x: usize, y: usize) -> (r: CoordSet)
        requires
            self@.wf(),
            self@.in_bounds((x, y)),
        ensures
            r.wf(),
            r.side() == self@.size,
            r@ == chain_set(self@, (x, y)),
    {
        if self.get(x, y) == Stone::Empty {
            proof {
                assert(self.state.len() == self.state@.len());
            }
            CoordSet::new(self.size)
        } else {
            let (chain, _) = self.flood(x, y);
            chain
        }
    }

    /// The set of liberties of the chain through `(x, y)`: every empty
    /// position adjacent to that chain, or the empty set if the cell is empty.
    pub fn liberties(&self, x: usize, y: usize) -> (r: CoordSet)
        requires
            self@.wf(),
            self@.in_bounds((x, y)),
        ensures
            r.wf(),
            r.side() == self@.size,
            r@ == liberty_set(self@, (x, y)),
    {
        if self.get(x, y) == Stone::Empty {
            proof {
                assert(self.state.len() == self.state@.len());
            }
            CoordSet::new(self.size)
        } else {
            let (_, libs) = self.flood(x, y);
            libs
        }
    }
}

} // verus!
