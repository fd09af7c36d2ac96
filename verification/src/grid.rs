//! Cell coordinates and board topology.
//!
//! A `Grid` fixes the board's dimensions and its boundary mode.  Every
//! insertion into the live set goes through `accept`, which canonicalizes a
//! raw coordinate under wrap-around mode or rejects an out-of-bounds one
//! under bounded mode.

use vstd::prelude::*;

use crate::live::LiveSet;

verus! {

/// A cell coordinate in the grid.
#[derive(Clone, Copy, PartialEq, Eq, Structural, Debug)]
pub struct Position(pub i32, pub i32);

impl View for Position {
    type V = (int, int);

    open spec fn view(&self) -> (int, int) {
        (self.0 as int, self.1 as int)
    }
}

impl Position {
    pub fn new(x: i32, y: i32) -> (p: Self)
        ensures
            p@ == (x as int, y as int),
    {
        Position(x, y)
    }

    pub fn x(&self) -> (r: i32)
        ensures
            r == self.0,
    {
        self.0
    }

    pub fn y(&self) -> (r: i32)
        ensures
            r == self.1,
    {
        self.1
    }
}

/// Reduction of a raw coordinate into `[0, m)` by a floor-style modulo.
/// In spec arithmetic `%` is Euclidean, so the result is non-negative for
/// a positive modulus.
pub open spec fn canon1(v: int, m: int) -> int {
    v % m
}

/// Grid properties and utilities for the simulation.
pub struct Grid {
    pub width: i32,
    pub height: i32,
    pub wrap_world: bool,
}

impl Grid {
    /// Dimensions must be positive; degenerate boards are rejected at
    /// construction time.
    pub open spec fn wf(self) -> bool {
        self.width > 0 && self.height > 0
    }

    pub open spec fn in_bounds_s(self, x: int, y: int) -> bool {
        0 <= x < self.width && 0 <= y < self.height
    }

    pub open spec fn canon_s(self, x: int, y: int) -> (int, int) {
        (canon1(x, self.width as int), canon1(y, self.height as int))
    }

    /// The single chokepoint through which every insertion passes: under
    /// wrap-around mode every coordinate is accepted after
    /// canonicalization; under bounded mode only in-bounds coordinates
    /// are accepted, unchanged.
    pub open spec fn accept_s(self, x: int, y: int) -> Option<(int, int)> {
        if self.wrap_world {
            Some(self.canon_s(x, y))
        } else if self.in_bounds_s(x, y) {
            Some((x, y))
        } else {
            None
        }
    }

    pub fn new(width: i32, height: i32) -> (g: Self)
        requires
            width > 0,
            height > 0,
        ensures
            g.width == width,
            g.height == height,
            !g.wrap_world,
            g.wf(),
    {
        Self { width, height, wrap_world: false }
    }

    pub fn in_bounds(&self, x: i32, y: i32) -> (r: bool)
        ensures
            r == self.in_bounds_s(x as int, y as int),
    {
        0 <= x && x < self.width && 0 <= y && y < self.height
    }

    /// Canonicalize a raw coordinate into the board rectangle, correcting
    /// negative remainders toward the positive range.
    pub fn wrap(&self, x: i32, y: i32) -> (p: Position)
        requires
            self.wf(),
        ensures
            p@ == self.canon_s(x as int, y as int),
            self.in_bounds_s(p@.0, p@.1),
    {
        proof {
            vstd::arithmetic::div_mod::lemma_mod_bound(x as int, self.width as int);
            vstd::arithmetic::div_mod::lemma_mod_bound(y as int, self.height as int);
        }
        let nx = match x.checked_rem_euclid(self.width) {
            Some(v) => v,
            None => 0,
        };
        let ny = match y.checked_rem_euclid(self.height) {
            Some(v) => v,
            None => 0,
        };
        Position(nx, ny)
    }

    /// Accept a raw coordinate: canonicalize it under wrap-around mode,
    /// keep it if in bounds under bounded mode, drop it otherwise.
    pub fn accept(&self, x: i32, y: i32) -> (r: Option<Position>)
        requires
            self.wf(),
        ensures
            match r {
                Some(p) => self.accept_s(x as int, y as int) == Some(p@)
                    && self.in_bounds_s(p@.0, p@.1),
                None => self.accept_s(x as int, y as int) is None,
            },
    {
        if self.wrap_world {
            Some(self.wrap(x, y))
        } else if self.in_bounds(x, y) {
            Some(Position(x, y))
        } else {
            None
        }
    }
}

/// The 8 relative neighbor offsets, in a fixed order.
pub open spec fn offsets_s() -> Seq<(int, int)> {
    seq![
        (-1int, -1int), (0int, -1int), (1int, -1int),
        (-1int, 0int), (1int, 0int),
        (-1int, 1int), (0int, 1int), (1int, 1int),
    ]
}

/// The 8 neighboring cell offsets as values.
pub fn neighbor_offsets() -> (r: Vec<(i32, i32)>)
    ensures
        r@.len() == 8,
        forall|k: int| 0 <= k < 8 ==> (#[trigger] r@[k]).0 == offsets_s()[k].0
            && r@[k].1 == offsets_s()[k].1,
{
    let r: Vec<(i32, i32)> = vec![
        (-1, -1), (0, -1), (1, -1),
        (-1, 0), (1, 0),
        (-1, 1), (0, 1), (1, 1),
    ];
    proof {
        assert forall|k: int| 0 <= k < 8 implies (#[trigger] r@[k]).0 == offsets_s()[k].0
            && r@[k].1 == offsets_s()[k].1 by {
            if k == 0 {} else if k == 1 {} else if k == 2 {} else if k == 3 {}
            else if k == 4 {} else if k == 5 {} else if k == 6 {} else {}
        }
    }
    r
}

impl Grid {
    /// Whether the cell that can contribute to `p`'s neighbor count
    /// through the relative offset `(dx, dy)` is alive.  Under wrap-around
    /// mode that cell is the canonical form of `p - (dx, dy)`; under
    /// bounded mode it is `p - (dx, dy)` itself.
    pub open spec fn live_source(self, live: Set<(int, int)>, p: (int, int), dx: int, dy: int)
        -> bool {
        if self.wrap_world {
            live.contains(self.canon_s(p.0 - dx, p.1 - dy))
        } else {
            live.contains((p.0 - dx, p.1 - dy))
        }
    }

    pub open spec fn count_one(self, live: Set<(int, int)>, p: (int, int), dx: int, dy: int)
        -> int {
        if self.live_source(live, p, dx, dy) {
            1
        } else {
            0
        }
    }

    /// The number of live neighbors of `p`, each of the 8 offsets counted
    /// independently.  Under wrap-around on a narrow board two offsets can
    /// lead to the same cell, and then that cell is counted once per
    /// offset; a cell can even count as its own neighbor.
    pub open spec fn neighbor_count_s(self, live: Set<(int, int)>, p: (int, int)) -> int {
        self.count_one(live, p, -1, -1) + self.count_one(live, p, 0, -1)
            + self.count_one(live, p, 1, -1) + self.count_one(live, p, -1, 0)
            + self.count_one(live, p, 1, 0) + self.count_one(live, p, -1, 1)
            + self.count_one(live, p, 0, 1) + self.count_one(live, p, 1, 1)
    }

    /// The standard transition rule: a cell is alive in the next
    /// generation iff its neighbor count is exactly 3, or it is exactly 2
    /// and the cell was alive.  Only cells of the board rectangle can be
    /// alive.
    pub open spec fn lives_next_s(self, live: Set<(int, int)>, p: (int, int)) -> bool {
        self.in_bounds_s(p.0, p.1) && {
            let n = self.neighbor_count_s(live, p);
            n == 3 || (n == 2 && live.contains(p))
        }
    }

    /// One generation of the whole board.
    pub open spec fn step_s(self, live: Set<(int, int)>) -> Set<(int, int)> {
        Set::new(|p: (int, int)| self.lives_next_s(live, p))
    }

    /// Where a live cell's neighborhood contribution lands: the accepted
    /// form of `c + o`.
    pub open spec fn neighbor_target(self, c: (int, int), o: (int, int)) -> Option<(int, int)> {
        self.accept_s(c.0 + o.0, c.1 + o.1)
    }

    /// Whether the neighbor target of `c` through `o`, if any, is a
    /// member of `cset`.
    pub open spec fn target_covered(self, c: (int, int), o: (int, int), cset: Set<(int, int)>)
        -> bool {
        match self.neighbor_target(c, o) {
            Some(t) => cset.contains(t),
            None => true,
        }
    }

    /// A canonical coordinate canonicalizes to itself.
    pub proof fn lemma_canon_small(self, x: int, y: int)
        requires
            self.wf(),
            self.in_bounds_s(x, y),
        ensures
            self.canon_s(x, y) == (x, y),
    {
        vstd::arithmetic::div_mod::lemma_fundamental_div_mod_converse_mod(
            x, self.width as int, 0, x);
        vstd::arithmetic::div_mod::lemma_fundamental_div_mod_converse_mod(
            y, self.height as int, 0, y);
    }

    /// If the source cell of `p` through offset `(dx, dy)` is alive, then
    /// `p` is that cell's accepted neighbor through the same offset.
    proof fn lemma_source_is_candidate(
        self,
        live: Set<(int, int)>,
        p: (int, int),
        dx: int,
        dy: int,
    )
        requires
            self.wf(),
            self.in_bounds_s(p.0, p.1),
            self.live_source(live, p, dx, dy),
        ensures
            ({
                let c = if self.wrap_world {
                    self.canon_s(p.0 - dx, p.1 - dy)
                } else {
                    (p.0 - dx, p.1 - dy)
                };
                live.contains(c) && self.neighbor_target(c, (dx, dy)) == Some(p)
            }),
    {
        if self.wrap_world {
            let w = self.width as int;
            let h = self.height as int;
            let c = self.canon_s(p.0 - dx, p.1 - dy);
            vstd::arithmetic::div_mod::lemma_add_mod_noop_right(dx, p.0 - dx, w);
            vstd::arithmetic::div_mod::lemma_add_mod_noop_right(dy, p.1 - dy, h);
            assert(c.0 + dx == dx + ((p.0 - dx) % w));
            assert(canon1(c.0 + dx, w) == p.0 % w);
            assert(canon1(c.1 + dy, h) == p.1 % h);
            self.lemma_canon_small(p.0, p.1);
        }
    }

    /// Bridge from a live source of `p` to the candidate set built by the
    /// forward sweep: if every accepted neighbor of every live cell is in
    /// `cset`, then `p` is in `cset`.
    proof fn lemma_live_source_covered(
        self,
        lv: Seq<(int, int)>,
        cset: Set<(int, int)>,
        p: (int, int),
        dx: int,
        dy: int,
        k: int,
    )
        requires
            self.wf(),
            self.in_bounds_s(p.0, p.1),
            0 <= k < 8,
            offsets_s()[k] == (dx, dy),
            self.live_source(lv.to_set(), p, dx, dy),
            forall|j: int, kk: int| 0 <= j < lv.len() && 0 <= kk < 8
                ==> self.target_covered(#[trigger] lv[j], #[trigger] offsets_s()[kk], cset),
        ensures
            cset.contains(p),
    {
        let c = if self.wrap_world {
            self.canon_s(p.0 - dx, p.1 - dy)
        } else {
            (p.0 - dx, p.1 - dy)
        };
        self.lemma_source_is_candidate(lv.to_set(), p, dx, dy);
        assert(lv.contains(c));
        let j = choose|j: int| 0 <= j < lv.len() && lv[j] == c;
        assert(self.target_covered(lv[j], offsets_s()[k], cset));
    }

    /// Whether the contribution source of `p` through `(dx, dy)` is alive.
    fn source_alive(&self, live: &LiveSet, p: Position, dx: i32, dy: i32) -> (r: bool)
        requires
            self.wf(),
            self.in_bounds_s(p@.0, p@.1),
            -1 <= dx <= 1,
            -1 <= dy <= 1,
        ensures
            r == self.live_source(live@, p@, dx as int, dy as int),
    {
        let sx = p.0 - dx;
        let sy = p.1 - dy;
        if self.wrap_world {
            let q = self.wrap(sx, sy);
            live.contains_pos(q)
        } else {
            live.contains_pos(Position(sx, sy))
        }
    }

    /// The neighbor count of `p`, one test per offset.
    fn count_live_neighbors(&self, live: &LiveSet, p: Position) -> (n: u8)
        requires
            self.wf(),
            self.in_bounds_s(p@.0, p@.1),
        ensures
            n as int == self.neighbor_count_s(live@, p@),
    {
        let mut n: u8 = 0;
        if self.source_alive(live, p, -1, -1) {
            n += 1;
        }
        if self.source_alive(live, p, 0, -1) {
            n += 1;
        }
        if self.source_alive(live, p, 1, -1) {
            n += 1;
        }
        if self.source_alive(live, p, -1, 0) {
            n += 1;
        }
        if self.source_alive(live, p, 1, 0) {
            n += 1;
        }
        if self.source_alive(live, p, -1, 1) {
            n += 1;
        }
        if self.source_alive(live, p, 0, 1) {
            n += 1;
        }
        if self.source_alive(live, p, 1, 1) {
            n += 1;
        }
        n
    }

    /// Calculate the next generation of cells.
    ///
    /// The sweep is driven by the live cells, not by the board area: every
    /// accepted neighbor of a live cell is a candidate, and a candidate
    /// survives by the standard rule.  Cells without live neighbors are
    /// never touched; in particular they never resurrect, and a live cell
    /// with no recorded neighbor dies by omission.
    pub fn next_generation(&self, live: &LiveSet) -> (next: LiveSet)
        requires
            self.wf(),
            live.wf(),
            live.all_within(*self),
        ensures
            next.wf(),
            next.all_within(*self),
            next@ == self.step_s(live@),
    {
        let offs = neighbor_offsets();
        let src = live.positions();
        let n = src.len();

        // Forward sweep: collect every accepted neighbor of a live cell.
        let mut cands = LiveSet::new();
        let mut i: usize = 0;
        while i < n
            invariant
                self.wf(),
                live.wf(),
                live.all_within(*self),
                n == src@.len(),
                src@.map_values(|p: Position| p@) == live.coords(),
                offs@.len() == 8,
                forall|k: int| 0 <= k < 8 ==> (#[trigger] offs@[k]).0 == offsets_s()[k].0
                    && offs@[k].1 == offsets_s()[k].1,
                i <= n,
                cands.wf(),
                forall|q: (int, int)| cands@.contains(q) ==> self.in_bounds_s(q.0, q.1),
                forall|j: int, kk: int| 0 <= j < i && 0 <= kk < 8
                    ==> self.target_covered(
                        #[trigger] live.coords()[j], #[trigger] offsets_s()[kk], cands@),
            decreases n - i,
        {
            let c = src[i];
            proof {
                assert(live.coords()[i as int] == c@);
                assert(live.coords().contains(c@));
                assert(live@.contains(c@));
            }
            let mut k: usize = 0;
            while k < 8
                invariant
                    self.wf(),
                    live.wf(),
                    live.all_within(*self),
                    n == src@.len(),
                    src@.map_values(|p: Position| p@) == live.coords(),
                    offs@.len() == 8,
                    forall|kk: int| 0 <= kk < 8 ==> (#[trigger] offs@[kk]).0 == offsets_s()[kk].0
                        && offs@[kk].1 == offsets_s()[kk].1,
                    i < n,
                    live.coords()[i as int] == c@,
                    self.in_bounds_s(c@.0, c@.1),
                    k <= 8,
                    cands.wf(),
                    forall|q: (int, int)| cands@.contains(q) ==> self.in_bounds_s(q.0, q.1),
                    forall|j: int, kk: int| 0 <= j < i && 0 <= kk < 8
                        ==> self.target_covered(
                            #[trigger] live.coords()[j], #[trigger] offsets_s()[kk], cands@),
                    forall|kk: int| 0 <= kk < k
                        ==> self.target_covered(c@, #[trigger] offsets_s()[kk], cands@),
                decreases 8 - k,
            {
                let (dx, dy) = offs[k];
                let tx = c.0 + dx;
                let ty = c.1 + dy;
                match self.accept(tx, ty) {
                    Some(t) => {
                        cands.insert_pos(t);
                        proof {
                            assert(self.neighbor_target(c@, offsets_s()[k as int]) == Some(t@));
                        }
                    },
                    None => {
                        proof {
                            assert(self.neighbor_target(c@, offsets_s()[k as int]) is None);
                        }
                    },
                }
                k += 1;
            }
            i += 1;
        }

        // Every cell that the rule keeps alive is a candidate.
        proof {
            assert forall|q: (int, int)| self.lives_next_s(live@, q)
                implies cands@.contains(q) by {
                let lv = live.coords();
                assert(lv.to_set() == live@);
                if self.live_source(live@, q, -1, -1) {
                    self.lemma_live_source_covered(lv, cands@, q, -1, -1, 0);
                } else if self.live_source(live@, q, 0, -1) {
                    self.lemma_live_source_covered(lv, cands@, q, 0, -1, 1);
                } else if self.live_source(live@, q, 1, -1) {
                    self.lemma_live_source_covered(lv, cands@, q, 1, -1, 2);
                } else if self.live_source(live@, q, -1, 0) {
                    self.lemma_live_source_covered(lv, cands@, q, -1, 0, 3);
                } else if self.live_source(live@, q, 1, 0) {
                    self.lemma_live_source_covered(lv, cands@, q, 1, 0, 4);
                } else if self.live_source(live@, q, -1, 1) {
                    self.lemma_live_source_covered(lv, cands@, q, -1, 1, 5);
                } else if self.live_source(live@, q, 0, 1) {
                    self.lemma_live_source_covered(lv, cands@, q, 0, 1, 6);
                } else if self.live_source(live@, q, 1, 1) {
                    self.lemma_live_source_covered(lv, cands@, q, 1, 1, 7);
                } else {
                    assert(self.neighbor_count_s(live@, q) == 0);
                }
            }
        }

        // Backward check: a candidate lives iff the rule says so.
        let m = cands.cells.len();
        let mut next = LiveSet::new();
        let mut idx: usize = 0;
        while idx < m
            invariant
                self.wf(),
                live.wf(),
                live.all_within(*self),
                cands.wf(),
                forall|q: (int, int)| cands@.contains(q) ==> self.in_bounds_s(q.0, q.1),
                m == cands.cells@.len(),
                idx <= m,
                next.wf(),
                forall|q: (int, int)| next@.contains(q) ==> self.lives_next_s(live@, q),
                forall|j: int| 0 <= j < idx && self.lives_next_s(live@, #[trigger] cands.coords()[j])
                    ==> next@.contains(cands.coords()[j]),
            decreases m - idx,
        {
            let p = cands.cells[idx];
            proof {
                assert(cands.coords()[idx as int] == p@);
                assert(cands.coords().contains(p@));
                assert(cands@.contains(p@));
            }
            let cnt = self.count_live_neighbors(live, p);
            if cnt == 3 || (cnt == 2 && live.contains_pos(p)) {
                next.insert_pos(p);
            }
            idx += 1;
        }

        proof {
            assert(next@ =~= self.step_s(live@)) by {
                assert forall|q: (int, int)| self.step_s(live@).contains(q)
                    implies next@.contains(q) by {
                    assert(self.lives_next_s(live@, q));
                    assert(cands@.contains(q));
                    assert(cands.coords().contains(q));
                    let j = choose|j: int|
                        0 <= j < cands.coords().len() && cands.coords()[j] == q;
                    assert(self.lives_next_s(live@, cands.coords()[j]));
                }
                assert forall|q: (int, int)| next@.contains(q)
                    implies self.step_s(live@).contains(q) by {
                    assert(self.lives_next_s(live@, q));
                }
            }
            assert forall|q: (int, int)| next@.contains(q)
                implies self.in_bounds_s(q.0, q.1) by {
                assert(self.lives_next_s(live@, q));
            }
        }
        next
    }
}

} // verus!
