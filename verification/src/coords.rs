use vstd::prelude::*;

use vstd::seq_lib::lemma_seq_contains_after_push;
use vstd::set_lib::lemma_int_range;
use vstd::set_lib::lemma_len_subset;
use vstd::set_lib::set_int_range;

verus! {

/// Whether `p` names an intersection of a square grid of side length `size`.
pub open spec fn within(size: usize, p: (usize, usize)) -> bool {
    p.0 < size && p.1 < size
}

/// A set of intersections of a square grid, as produced by chain discovery
/// and liberty computation. Membership is set-like: insertion order does not
/// matter and duplicates are never stored.
#[derive(Debug)]
pub struct CoordSet {
    size: usize,
    elems: Vec<(usize, usize)>,
}

impl View for CoordSet {
    type V = Set<(usize, usize)>;

    closed spec fn view(&self) -> Set<(usize, usize)> {
        self.elems@.to_set()
    }
}

/// Whether every entry of `a` occurs somewhere in `b`.
fn all_members_of(a: &Vec<(usize, usize)>, b: &Vec<(usize, usize)>) -> (r: bool)
    ensures
        r == forall|i: int| 0 <= i < a@.len() ==> b@.contains(#[trigger] a@[i]),
{
    let mut i: usize = 0;
    while i < a.len()
        invariant
            i <= a@.len(),
            forall|j: int| 0 <= j < i ==> b@.contains(#[trigger] a@[j]),
        decreases a@.len() - i,
    {
        let (x, y) = a[i];
        let mut found = false;
        let mut k: usize = 0;
        while k < b.len()
            invariant
                k <= b@.len(),
                found ==> b@.contains((x, y)),
                !found ==> forall|j: int| 0 <= j < k ==> b@[j] != (x, y),
            decreases b@.len() - k,
        {
            let (u, w) = b[k];
            if u == x && w == y {
                found = true;
            }
            k += 1;
        }
        if !found {
            proof {
                assert(!b@.contains((x, y)));
                assert(a@[i as int] == (x, y));
            }
            return false;
        }
        i += 1;
    }
    true
}

impl PartialEq for CoordSet {
    /// Set equality: each holds exactly the same members, whatever the
    /// order they were collected in.
    fn eq(&self, other: &CoordSet) -> (r: bool) {
        let r = all_members_of(&self.elems, &other.elems) && all_members_of(
            &other.elems,
            &self.elems,
        );
        proof {
            if r {
                assert forall|p: (usize, usize)| self.elems@.to_set().contains(p)
                    <==> other.elems@.to_set().contains(p) by {
                    if self.elems@.to_set().contains(p) {
                        let i = choose|i: int| 0 <= i < self.elems@.len() && self.elems@[i] == p;
                        assert(other.elems@.contains(self.elems@[i]));
                    }
                    if other.elems@.to_set().contains(p) {
                        let i = choose|i: int| 0 <= i < other.elems@.len() && other.elems@[i] == p;
                        assert(self.elems@.contains(other.elems@[i]));
                    }
                }
                assert(self.elems@.to_set() =~= other.elems@.to_set());
            } else {
                if exists|i: int|
                    0 <= i < self.elems@.len() && !other.elems@.contains(#[trigger] self.elems@[i]) {
                    let i = choose|i: int|
                        0 <= i < self.elems@.len() && !other.elems@.contains(
                            #[trigger] self.elems@[i],
                        );
                    assert(self@.contains(self.elems@[i]));
                    assert(!other@.contains(self.elems@[i]));
                } else {
                    let i = choose|i: int|
                        0 <= i < other.elems@.len() && !self.elems@.contains(
                            #[trigger] other.elems@[i],
                        );
                    assert(other@.contains(other.elems@[i]));
                    assert(!self@.contains(other.elems@[i]));
                }
            }
        }
        r
    }
}

impl vstd::std_specs::cmp::PartialEqSpecImpl for CoordSet {
    open spec fn obeys_eq_spec() -> bool {
        true
    }

    open spec fn eq_spec(&self, other: &CoordSet) -> bool {
        self@ == other@
    }
}

impl CoordSet {
    /// The side length of the grid this set draws its members from.
    pub closed spec fn side(self) -> usize {
        self.size
    }

    /// The members, in insertion order.
    pub closed spec fn items(self) -> Seq<(usize, usize)> {
        self.elems@
    }

    /// Well-formedness: no duplicate members, and every member lies within
    /// the grid.
    pub closed spec fn wf(self) -> bool {
        &&& self.elems@.no_duplicates()
        &&& forall|i: int| 0 <= i < self.elems@.len() ==> within(self.size, #[trigger] self.elems@[i])
        &&& self.size * self.size <= usize::MAX
    }

    /// The member sequence enumerates the set exactly once, inside the grid.
    pub proof fn lemma_items(self)
        requires
            self.wf(),
        ensures
            self.items().no_duplicates(),
            self.items().to_set() == self@,
            self.items().len() == self@.len(),
            forall|i: int| 0 <= i < self.items().len() ==> within(self.side(), #[trigger] self.items()[i]),
    {
        self.elems@.unique_seq_to_set();
    }

    /// A well-formed set has no more members than the grid has cells.
    pub proof fn lemma_len_le(self)
        requires
            self.wf(),
        ensures
            self@.finite(),
            self@.len() <= self.side() * self.side(),
            self.items().len() <= self.side() * self.side(),
    {
        broadcast use vstd::seq_lib::seq_to_set_is_finite;

        let s = self.elems@;
        let n = self.size as int;
        let idxs = s.map_values(|p: (usize, usize)| p.1 * self.size + p.0);
        assert forall|i: int, j: int| 0 <= i < j < idxs.len() implies idxs[i] != idxs[j] by {
            let p = s[i];
            let q = s[j];
            assert(p != q);
            assert(p.1 * n + p.0 != q.1 * n + q.0) by (nonlinear_arith)
                requires
                    0 <= p.0 < n,
                    0 <= q.0 < n,
                    0 <= p.1 < n,
                    0 <= q.1 < n,
                    !(p.0 == q.0 && p.1 == q.1),
            ;
        }
        assert(idxs.no_duplicates());
        idxs.unique_seq_to_set();
        assert forall|k: int| idxs.to_set().contains(k) implies set_int_range(0, n * n).contains(k) by {
            let i = choose|i: int| 0 <= i < idxs.len() && idxs[i] == k;
            let p = s[i];
            assert(0 <= p.1 * n + p.0 < n * n) by (nonlinear_arith)
                requires
                    0 <= p.0 < n,
                    0 <= p.1 < n,
            ;
        }
        lemma_int_range(0, n * n);
        lemma_len_subset(idxs.to_set(), set_int_range(0, n * n));
        s.unique_seq_to_set();
    }

    /// Creates an empty set over a grid of side length `size`.
    pub fn new(size: usize) -> (r: CoordSet)
        requires
            size * size <= usize::MAX,
        ensures
            r.wf(),
            r.side() == size,
            r@ == Set::<(usize, usize)>::empty(),
            r.items() == Seq::<(usize, usize)>::empty(),
    {
        let r = CoordSet { size, elems: Vec::new() };
        proof {
            assert(r.elems@.to_set() =~= Set::<(usize, usize)>::empty());
        }
        r
    }

    /// Whether `(x, y)` is a member.
    pub fn contains(&self, x: usize, y: usize) -> (r: bool)
        ensures
            r == self@.contains((x, y)),
    {
        let mut i: usize = 0;
        while i < self.elems.len()
            invariant
                i <= self.elems@.len(),
                forall|j: int| 0 <= j < i ==> self.elems@[j] != (x, y),
            decreases self.elems@.len() - i,
        {
            let (a, b) = self.elems[i];
            if a == x && b == y {
                return true;
            }
            i += 1;
        }
        proof {
            assert(!self.elems@.contains((x, y)));
        }
        false
    }

    /// Adds `(x, y)` as a member; adding an existing member changes nothing.
    pub fn insert(&mut self, x: usize, y: usize)
        requires
            old(self).wf(),
            within(old(self).side(), (x, y)),
        ensures
            final(self).wf(),
            final(self).side() == old(self).side(),
            final(self)@ == old(self)@.insert((x, y)),
            old(self)@.contains((x, y)) ==> final(self).items() == old(self).items(),
            !old(self)@.contains((x, y)) ==> final(self).items() == old(self).items().push((x, y)),
    {
        if !self.contains(x, y) {
            self.elems.push((x, y));
            proof {
                broadcast use lemma_seq_contains_after_push;

                assert(final(self).elems@.to_set() =~= old(self).elems@.to_set().insert((x, y)));
            }
        } else {
            proof {
                assert(final(self).elems@.to_set() =~= old(self).elems@.to_set().insert((x, y)));
            }
        }
    }

    /// The number of members.
    pub fn len(&self) -> (r: usize)
        requires
            self.wf(),
        ensures
            r == self@.len(),
            r == self.items().len(),
    {
        proof {
            self.elems@.unique_seq_to_set();
        }
        self.elems.len()
    }

    /// The member at position `i` of the enumeration.
    pub fn get(&self, i: usize) -> (r: (usize, usize))
        requires
            i < self.items().len(),
        ensures
            r == self.items()[i as int],
            self@.contains(r),
    {
        self.elems[i]
    }

    /// Whether the set has no members.
    pub fn is_empty(&self) -> (r: bool)
        ensures
            r == (self@ == Set::<(usize, usize)>::empty()),
    {
        if self.elems.len() == 0 {
            proof {
                assert(self.elems@.to_set() =~= Set::<(usize, usize)>::empty());
            }
            true
        } else {
            proof {
                assert(self.elems@.contains(self.elems@[0]));
                assert(self@.contains(self.elems@[0]));
            }
            false
        }
    }

    /// Whether the set is exactly the singleton `{(x, y)}`.
    pub fn is_only(&self, x: usize, y: usize) -> (r: bool)
        requires
            self.wf(),
        ensures
            r == (self@ == set![(x, y)]),
    {
        if self.elems.len() == 1 {
            let (a, b) = self.elems[0];
            if a == x && b == y {
                proof {
                    assert(self.elems@ =~= seq![(x, y)]);
                    assert(self.elems@.to_set() =~= set![(x, y)]);
                }
                true
            } else {
                proof {
                    assert(self@.contains(self.elems@[0]));
                    assert(!(set![(x, y)]).contains(self.elems@[0]));
                }
                false
            }
        } else {
            proof {
                self.elems@.unique_seq_to_set();
                vstd::set_lib::lemma_set_empty_equivalency_len(Set::<(usize, usize)>::empty());
                assert(set![(x, y)] =~= Set::<(usize, usize)>::empty().insert((x, y)));
                assert(set![(x, y)].len() == 1);
                assert(self@.len() != 1);
            }
            false
        }
    }

    /// Builds a set over a grid of side length `size` from a list of
    /// coordinates; duplicates collapse.
    pub fn from_coords(size: usize, coords: Vec<(usize, usize)>) -> (r: CoordSet)
        requires
            size * size <= usize::MAX,
            forall|i: int| 0 <= i < coords@.len() ==> within(size, #[trigger] coords@[i]),
        ensures
            r.wf(),
            r.side() == size,
            r@ == coords@.to_set(),
    {
        let mut r = CoordSet::new(size);
        let mut i: usize = 0;
        while i < coords.len()
            invariant
                i <= coords@.len(),
                r.wf(),
                r.side() == size,
                r@ == coords@.take(i as int).to_set(),
                forall|j: int| 0 <= j < coords@.len() ==> within(size, #[trigger] coords@[j]),
            decreases coords@.len() - i,
        {
            let (a, b) = coords[i];
            r.insert(a, b);
            proof {
                broadcast use vstd::prelude::Seq::lemma_push_to_set_commute;

                assert(coords@.take(i + 1) =~= coords@.take(i as int).push(coords@[i as int]));
            }
            i += 1;
        }
        proof {
            assert(coords@.take(coords@.len() as int) =~= coords@);
        }
        r
    }
}

} // verus!
