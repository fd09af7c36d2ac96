//! The sparse set of currently-alive coordinates.
//!
//! `LiveSet` is the entire simulation state: a duplicate-free vector of
//! positions, viewed in specifications as a mathematical set of integer
//! pairs.  Membership order carries no meaning for the simulation.

use vstd::prelude::*;

use crate::grid::Grid;
use crate::grid::Position;

verus! {

/// The set of live cells, stored sparsely.
pub struct LiveSet {
    pub cells: Vec<Position>,
}

impl View for LiveSet {
    type V = Set<(int, int)>;

    open spec fn view(&self) -> Set<(int, int)> {
        self.coords().to_set()
    }
}

impl LiveSet {
    /// The stored positions as a sequence of integer pairs.
    pub open spec fn coords(self) -> Seq<(int, int)> {
        self.cells@.map_values(|p: Position| p@)
    }

    /// No coordinate is stored twice.
    pub open spec fn wf(self) -> bool {
        self.coords().no_duplicates()
    }

    /// Every member lies inside the grid rectangle.
    pub open spec fn all_within(self, g: Grid) -> bool {
        forall|q: (int, int)| self@.contains(q) ==> g.in_bounds_s(q.0, q.1)
    }

    pub fn new() -> (s: Self)
        ensures
            s.wf(),
            s@ == Set::<(int, int)>::empty(),
            s.cells@.len() == 0,
    {
        let s = LiveSet { cells: Vec::new() };
        proof {
            assert(s@ =~= Set::<(int, int)>::empty());
        }
        s
    }

    /// Membership test against the stored set.
    pub fn contains_pos(&self, p: Position) -> (r: bool)
        ensures
            r == self@.contains(p@),
    {
        let n = self.cells.len();
        let mut i: usize = 0;
        while i < n
            invariant
                n == self.cells@.len(),
                i <= n,
                forall|j: int| 0 <= j < i ==> self.coords()[j] != p@,
            decreases n - i,
        {
            if self.cells[i] == p {
                proof {
                    assert(self.coords()[i as int] == p@);
                    assert(self.coords().contains(p@));
                }
                return true;
            }
            i += 1;
        }
        proof {
            assert(!self.coords().contains(p@));
        }
        false
    }

    /// Add a position; inserting an already-present one is a no-op.
    pub fn insert_pos(&mut self, p: Position)
        requires
            old(self).wf(),
        ensures
            final(self).wf(),
            final(self)@ == old(self)@.insert(p@),
    {
        if !self.contains_pos(p) {
            let ghost before = self.coords();
            self.cells.push(p);
            proof {
                assert(self.coords() =~= before.push(p@));
                assert forall|q: (int, int)| self.coords().contains(q)
                    <==> (before.contains(q) || q == p@) by {
                    if self.coords().contains(q) {
                        let k = choose|k: int|
                            0 <= k < self.coords().len() && self.coords()[k] == q;
                        if k < before.len() {
                            assert(before[k] == q);
                        }
                    }
                    if before.contains(q) {
                        let k = choose|k: int| 0 <= k < before.len() && before[k] == q;
                        assert(self.coords()[k] == q);
                    }
                    if q == p@ {
                        assert(self.coords()[before.len() as int] == q);
                    }
                }
                assert(self@ =~= old(self)@.insert(p@));
                assert(!before.contains(p@));
                assert(self.coords().no_duplicates());
            }
        } else {
            proof {
                assert(self@ =~= old(self)@.insert(p@));
            }
        }
    }

    /// Drop a position; removing an absent one is a no-op.
    pub fn remove_pos(&mut self, p: Position)
        requires
            old(self).wf(),
        ensures
            final(self).wf(),
            final(self)@ == old(self)@.remove(p@),
    {
        let n = self.cells.len();
        let mut i: usize = 0;
        while i < n
            invariant
                n == self.cells@.len(),
                i <= n,
                *self == *old(self),
                self.wf(),
                forall|j: int| 0 <= j < i ==> self.coords()[j] != p@,
            decreases n - i,
        {
            if self.cells[i] == p {
                let ghost before = self.coords();
                let ghost at = i as int;
                proof {
                    assert(before.no_duplicates());
                }
                self.cells.remove(i);
                proof {
                    assert(self.coords() =~= before.remove(at)) by {
                        before.remove_ensures(at);
                    }
                    before.remove_ensures(at);
                    assert(before[at] == p@);
                    assert forall|q: (int, int)| self.coords().contains(q)
                        <==> (before.contains(q) && q != p@) by {
                        if self.coords().contains(q) {
                            let k = choose|k: int|
                                0 <= k < self.coords().len() && self.coords()[k] == q;
                            if k < at {
                                assert(before[k] == q);
                                assert(before[k] != before[at]);
                            } else {
                                assert(before[k + 1] == q);
                                assert(before[k + 1] != before[at]);
                            }
                        }
                        if before.contains(q) && q != p@ {
                            let k = choose|k: int| 0 <= k < before.len() && before[k] == q;
                            if k < at {
                                assert(self.coords()[k] == q);
                            } else {
                                assert(k > at);
                                assert(self.coords()[k - 1] == q);
                            }
                        }
                    }
                    assert(self@ =~= old(self)@.remove(p@));
                    assert(self.coords().no_duplicates()) by {
                        assert forall|a: int, b: int|
                            0 <= a < self.coords().len() && 0 <= b < self.coords().len()
                                && a != b implies self.coords()[a] != self.coords()[b] by {
                            let a0: int = if a < at { a } else { a + 1 };
                            let b0: int = if b < at { b } else { b + 1 };
                            assert(self.coords()[a] == before[a0]);
                            assert(self.coords()[b] == before[b0]);
                        }
                    }
                }
                return;
            }
            i += 1;
        }
        proof {
            assert(!self.coords().contains(p@));
            assert(self@ =~= old(self)@.remove(p@));
        }
    }

    /// Empty the set.
    pub fn clear_all(&mut self)
        ensures
            final(self).wf(),
            final(self)@ == Set::<(int, int)>::empty(),
    {
        self.cells.clear();
        proof {
            assert(self@ =~= Set::<(int, int)>::empty());
        }
    }

    /// Number of live cells.
    pub fn count(&self) -> (r: usize)
        requires
            self.wf(),
        ensures
            self@.finite(),
            r == self@.len(),
    {
        proof {
            broadcast use vstd::seq_lib::seq_to_set_is_finite;

            self.coords().unique_seq_to_set();
        }
        self.cells.len()
    }

    /// Whether no cell is alive.
    pub fn is_empty(&self) -> (r: bool)
        requires
            self.wf(),
        ensures
            r == (self@ =~= Set::<(int, int)>::empty()),
    {
        let r = self.cells.len() == 0;
        proof {
            if self.cells@.len() == 0 {
                assert(self@ =~= Set::<(int, int)>::empty());
            } else {
                assert(self@.contains(self.coords()[0])) by {
                    assert(self.coords().contains(self.coords()[0]));
                }
            }
        }
        r
    }

    /// Read access to the stored positions, for rendering and iteration.
    pub fn positions(&self) -> (r: &Vec<Position>)
        ensures
            r@.map_values(|p: Position| p@) == self.coords(),
            forall|j: int| 0 <= j < r@.len() ==> self@.contains(#[trigger] r@[j]@),
    {
        proof {
            assert forall|j: int| 0 <= j < self.cells@.len()
                implies self@.contains(self.cells@[j]@) by {
                assert(self.coords()[j] == self.cells@[j]@);
                assert(self.coords().contains(self.cells@[j]@));
            }
        }
        &self.cells
    }
}

} // verus!
