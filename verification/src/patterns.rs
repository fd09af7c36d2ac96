//! Named cell clusters and their placement onto the board.
//!
//! A pattern is a fixed list of relative offsets.  Stamping materializes
//! it at an anchor coordinate, one cell at a time, through the same
//! acceptance chokepoint as manual insertion: a pattern anchored near an
//! edge is clipped (bounded mode) or wrapped (wrap-around mode) cell by
//! cell, never rejected wholesale.  The pseudo-pattern `Random` has no
//! fixed offsets; the host fills the board cell by cell through the
//! session's insertion path, drawing each cell with its configured
//! density.

use vstd::prelude::*;

use crate::grid::Grid;
use crate::live::LiveSet;

verus! {

/// A closed enumeration of the available patterns, in menu order.
#[derive(Clone, Copy, PartialEq, Eq, Structural, Debug)]
pub enum PatternKind {
    Glider,
    Random,
    Block,
    Blinker,
    Beacon,
    RPentomino,
    Acorn,
    Diehard,
    GosperGun,
    Pentadecathlon,
}

/// An offset pair as mathematical integers.
pub open spec fn pair_view(t: (i32, i32)) -> (int, int) {
    (t.0 as int, t.1 as int)
}

/// An offset list as mathematical integer pairs.
pub open spec fn pairs_view(s: Seq<(i32, i32)>) -> Seq<(int, int)> {
    s.map_values(|t: (i32, i32)| pair_view(t))
}

/// Whether a value fits the coordinate type.
pub open spec fn fits_i32(v: int) -> bool {
    i32::MIN <= v <= i32::MAX
}

/// Whether the pattern cell at `o` relative to anchor `(ax, ay)` lands,
/// accepted, on `q`.  A target whose raw coordinate overflows the
/// coordinate type is treated as out of bounds and dropped.
pub open spec fn stamp_hit_s(g: Grid, ax: int, ay: int, o: (int, int), q: (int, int)) -> bool {
    fits_i32(ax + o.0) && fits_i32(ay + o.1) && g.accept_s(ax + o.0, ay + o.1) == Some(q)
}

/// One stamped cell: the set grown by the accepted target of `o`, if any.
pub open spec fn stamp_one_s(g: Grid, s: Set<(int, int)>, ax: int, ay: int, o: (int, int))
    -> Set<(int, int)> {
    if fits_i32(ax + o.0) && fits_i32(ay + o.1) {
        match g.accept_s(ax + o.0, ay + o.1) {
            Some(q) => s.insert(q),
            None => s,
        }
    } else {
        s
    }
}

/// The set grown by stamping every offset of `offs` at anchor `(ax, ay)`,
/// front to back.
pub open spec fn stamp_s(g: Grid, s: Set<(int, int)>, offs: Seq<(int, int)>, ax: int, ay: int)
    -> Set<(int, int)>
    decreases offs.len(),
{
    if offs.len() == 0 {
        s
    } else {
        stamp_s(g, stamp_one_s(g, s, ax, ay, offs[0]), offs.subrange(1, offs.len() as int), ax, ay)
    }
}

/// Stamping offsets one further offset at the back stamps that offset onto
/// the result of stamping the front.
pub proof fn lemma_stamp_snoc(
    g: Grid,
    s: Set<(int, int)>,
    offs: Seq<(int, int)>,
    ax: int,
    ay: int,
    o: (int, int),
)
    ensures
        stamp_s(g, s, offs.push(o), ax, ay) == stamp_one_s(g, stamp_s(g, s, offs, ax, ay), ax, ay, o),
    decreases offs.len(),
{
    let whole = offs.push(o);
    if offs.len() == 0 {
        assert(whole[0] == o);
        assert(whole.subrange(1, whole.len() as int) =~= Seq::<(int, int)>::empty());
        assert(stamp_s(g, s, whole, ax, ay) == stamp_s(g, stamp_one_s(g, s, ax, ay, o),
            Seq::<(int, int)>::empty(), ax, ay));
        assert(stamp_s(g, stamp_one_s(g, s, ax, ay, o), Seq::<(int, int)>::empty(), ax, ay)
            == stamp_one_s(g, s, ax, ay, o));
        assert(stamp_s(g, s, offs, ax, ay) == s);
    } else {
        let rest = offs.subrange(1, offs.len() as int);
        let s1 = stamp_one_s(g, s, ax, ay, offs[0]);
        assert(whole[0] == offs[0]);
        assert(whole.subrange(1, whole.len() as int) =~= rest.push(o));
        assert(stamp_s(g, s, whole, ax, ay) == stamp_s(g, s1, rest.push(o), ax, ay));
        lemma_stamp_snoc(g, s1, rest, ax, ay, o);
        assert(stamp_s(g, s, offs, ax, ay) == stamp_s(g, s1, rest, ax, ay));
    }
}

/// A cell is in the stamped set iff it was there before or some offset of
/// the pattern lands, accepted, on it.
pub proof fn lemma_stamp_membership(
    g: Grid,
    s: Set<(int, int)>,
    offs: Seq<(int, int)>,
    ax: int,
    ay: int,
)
    ensures
        forall|q: (int, int)| #![trigger stamp_s(g, s, offs, ax, ay).contains(q)]
            stamp_s(g, s, offs, ax, ay).contains(q)
                <==> (s.contains(q) || exists|k: int|
                    0 <= k < offs.len() && stamp_hit_s(g, ax, ay, #[trigger] offs[k], q)),
    decreases offs.len(),
{
    if offs.len() == 0 {
    } else {
        let rest = offs.subrange(1, offs.len() as int);
        let s1 = stamp_one_s(g, s, ax, ay, offs[0]);
        lemma_stamp_membership(g, s1, rest, ax, ay);
        assert(stamp_s(g, s, offs, ax, ay) == stamp_s(g, s1, rest, ax, ay));
        assert forall|q: (int, int)| #![trigger stamp_s(g, s, offs, ax, ay).contains(q)]
            stamp_s(g, s, offs, ax, ay).contains(q)
                <==> (s.contains(q) || exists|k: int|
                    0 <= k < offs.len() && stamp_hit_s(g, ax, ay, #[trigger] offs[k], q)) by {
            if stamp_s(g, s, offs, ax, ay).contains(q) {
                assert(stamp_s(g, s1, rest, ax, ay).contains(q));
                if s1.contains(q) {
                    if !s.contains(q) {
                        assert(stamp_hit_s(g, ax, ay, offs[0], q));
                    }
                } else {
                    let k = choose|k: int| 0 <= k < rest.len()
                        && stamp_hit_s(g, ax, ay, #[trigger] rest[k], q);
                    assert(rest[k] == offs[k + 1]);
                    assert(stamp_hit_s(g, ax, ay, offs[k + 1], q));
                }
            }
            if s.contains(q) {
                assert(s1.contains(q));
                assert(stamp_s(g, s1, rest, ax, ay).contains(q));
            } else if exists|k: int|
                0 <= k < offs.len() && stamp_hit_s(g, ax, ay, #[trigger] offs[k], q) {
                let k = choose|k: int| 0 <= k < offs.len()
                    && stamp_hit_s(g, ax, ay, #[trigger] offs[k], q);
                if k == 0 {
                    assert(s1.contains(q));
                } else {
                    assert(rest[k - 1] == offs[k]);
                    assert(stamp_hit_s(g, ax, ay, rest[k - 1], q));
                    assert(exists|j: int| 0 <= j < rest.len()
                        && stamp_hit_s(g, ax, ay, #[trigger] rest[j], q));
                }
                assert(stamp_s(g, s1, rest, ax, ay).contains(q));
            }
        }
    }
}

impl PatternKind {
    /// The pattern's fixed relative offsets.  `Random` has none: its
    /// cells are drawn by the host, not listed here.
    pub open spec fn offsets_spec(self) -> Seq<(int, int)> {
        match self {
            PatternKind::Glider => seq![(1int, 0int), (2int, 1int), (0int, 2int), (1int, 2int), (2int, 2int)],
            PatternKind::Random => Seq::<(int, int)>::empty(),
            PatternKind::Block => seq![(0int, 0int), (0int, 1int), (1int, 0int), (1int, 1int)],
            PatternKind::Blinker => seq![(0int, 0int), (1int, 0int), (2int, 0int)],
            PatternKind::Beacon => seq![(0int, 0int), (1int, 0int), (0int, 1int), (2int, 3int), (3int, 2int), (3int, 3int)],
            PatternKind::RPentomino => seq![(1int, 0int), (2int, 0int), (0int, 1int), (1int, 1int), (1int, 2int)],
            PatternKind::Acorn => seq![(1int, 0int), (3int, 1int), (0int, 2int), (1int, 2int), (4int, 2int), (5int, 2int), (6int, 2int)],
            PatternKind::Diehard => seq![(6int, 0int), (0int, 1int), (1int, 1int), (1int, 2int), (5int, 2int), (6int, 2int), (7int, 2int)],
            PatternKind::GosperGun => seq![
                (24int, 0int), (22int, 1int), (24int, 1int), (12int, 2int), (13int, 2int),
                (20int, 2int), (21int, 2int), (34int, 2int), (35int, 2int),
                (11int, 3int), (15int, 3int), (20int, 3int), (21int, 3int), (34int, 3int),
                (35int, 3int), (0int, 4int), (1int, 4int), (10int, 4int), (16int, 4int),
                (20int, 4int), (21int, 4int), (0int, 5int), (1int, 5int), (10int, 5int),
                (14int, 5int), (16int, 5int), (17int, 5int), (22int, 5int), (24int, 5int),
                (10int, 6int), (16int, 6int), (24int, 6int), (11int, 7int), (15int, 7int),
                (12int, 8int), (13int, 8int),
            ],
            PatternKind::Pentadecathlon => seq![
                (0int, 0int), (1int, 0int), (2int, 0int), (3int, 0int), (1int, -1int),
                (1int, 1int), (4int, -1int), (4int, 1int), (5int, 0int), (6int, 0int),
                (7int, 0int), (8int, 0int),
            ],
        }
    }

    /// The pattern's fixed relative offsets as values.
    pub fn offsets(&self) -> (r: Vec<(i32, i32)>)
        ensures
            pairs_view(r@) == self.offsets_spec(),
    {
        match self {
            PatternKind::Glider => {
                let r: Vec<(i32, i32)> = vec![(1, 0), (2, 1), (0, 2), (1, 2), (2, 2)];
                proof {
                    assert(pairs_view(r@) =~= self.offsets_spec());
                }
                r
            },
            PatternKind::Random => {
                let r: Vec<(i32, i32)> = Vec::new();
                proof {
                    assert(pairs_view(r@) =~= self.offsets_spec());
                }
                r
            },
            PatternKind::Block => {
                let r: Vec<(i32, i32)> = vec![(0, 0), (0, 1), (1, 0), (1, 1)];
                proof {
                    assert(pairs_view(r@) =~= self.offsets_spec());
                }
                r
            },
            PatternKind::Blinker => {
                let r: Vec<(i32, i32)> = vec![(0, 0), (1, 0), (2, 0)];
                proof {
                    assert(pairs_view(r@) =~= self.offsets_spec());
                }
                r
            },
            PatternKind::Beacon => {
                let r: Vec<(i32, i32)> = vec![(0, 0), (1, 0), (0, 1), (2, 3), (3, 2), (3, 3)];
                proof {
                    assert(pairs_view(r@) =~= self.offsets_spec());
                }
                r
            },
            PatternKind::RPentomino => {
                let r: Vec<(i32, i32)> = vec![(1, 0), (2, 0), (0, 1), (1, 1), (1, 2)];
                proof {
                    assert(pairs_view(r@) =~= self.offsets_spec());
                }
                r
            },
            PatternKind::Acorn => {
                let r: Vec<(i32, i32)> = vec![
                    (1, 0), (3, 1), (0, 2), (1, 2), (4, 2), (5, 2), (6, 2),
                ];
                proof {
                    assert(pairs_view(r@) =~= self.offsets_spec());
                }
                r
            },
            PatternKind::Diehard => {
                let r: Vec<(i32, i32)> = vec![
                    (6, 0), (0, 1), (1, 1), (1, 2), (5, 2), (6, 2), (7, 2),
                ];
                proof {
                    assert(pairs_view(r@) =~= self.offsets_spec());
                }
                r
            },
            PatternKind::GosperGun => {
                let r: Vec<(i32, i32)> = vec![
                    (24, 0), (22, 1), (24, 1), (12, 2), (13, 2),
                    (20, 2), (21, 2), (34, 2), (35, 2),
                    (11, 3), (15, 3), (20, 3), (21, 3), (34, 3),
                    (35, 3), (0, 4), (1, 4), (10, 4), (16, 4),
                    (20, 4), (21, 4), (0, 5), (1, 5), (10, 5),
                    (14, 5), (16, 5), (17, 5), (22, 5), (24, 5),
                    (10, 6), (16, 6), (24, 6), (11, 7), (15, 7),
                    (12, 8), (13, 8),
                ];
                proof {
                    assert(pairs_view(r@) =~= self.offsets_spec());
                }
                r
            },
            PatternKind::Pentadecathlon => {
                let r: Vec<(i32, i32)> = vec![
                    (0, 0), (1, 0), (2, 0), (3, 0), (1, -1),
                    (1, 1), (4, -1), (4, 1), (5, 0), (6, 0),
                    (7, 0), (8, 0),
                ];
                proof {
                    assert(pairs_view(r@) =~= self.offsets_spec());
                }
                r
            },
        }
    }

    /// Stamp the pattern onto `cells` at anchor `(x, y)`, every cell
    /// through the acceptance chokepoint.  A target whose raw coordinate
    /// overflows the coordinate type is dropped, like any other
    /// out-of-bounds cell.
    pub fn apply(&self, cells: &mut LiveSet, grid: &Grid, x: i32, y: i32)
        requires
            grid.wf(),
            old(cells).wf(),
        ensures
            final(cells).wf(),
            final(cells)@ == stamp_s(*grid, old(cells)@, self.offsets_spec(), x as int, y as int),
            old(cells).all_within(*grid) ==> final(cells).all_within(*grid),
    {
        let offs = self.offsets();
        let n = offs.len();
        let ghost spec_offs = self.offsets_spec();
        let mut i: usize = 0;
        while i < n
            invariant
                grid.wf(),
                n == offs@.len(),
                pairs_view(offs@) == spec_offs,
                i <= n,
                cells.wf(),
                cells@ == stamp_s(*grid, old(cells)@, spec_offs.subrange(0, i as int),
                    x as int, y as int),
            decreases n - i,
        {
            let (dx, dy) = offs[i];
            let ghost before = cells@;
            let ghost o = spec_offs[i as int];
            proof {
                assert(o == pair_view(offs@[i as int]));
            }
            match (x.checked_add(dx), y.checked_add(dy)) {
                (Some(tx), Some(ty)) => {
                    match grid.accept(tx, ty) {
                        Some(p) => {
                            cells.insert_pos(p);
                        },
                        None => {},
                    }
                },
                _ => {
                    proof {
                        assert(!(fits_i32(x + o.0) && fits_i32(y + o.1)));
                    }
                },
            }
            proof {
                assert(cells@ == stamp_one_s(*grid, before, x as int, y as int, o));
                lemma_stamp_snoc(*grid, old(cells)@,
                    spec_offs.subrange(0, i as int), x as int, y as int, o);
                assert(spec_offs.subrange(0, i as int).push(o) =~= spec_offs.subrange(
                    0, i as int + 1));
            }
            i += 1;
        }
        proof {
            assert(spec_offs.subrange(0, n as int) =~= spec_offs);
            if old(cells).all_within(*grid) {
                lemma_stamp_membership(*grid, old(cells)@, spec_offs, x as int, y as int);
                assert forall|q: (int, int)| cells@.contains(q)
                    implies grid.in_bounds_s(q.0, q.1) by {
                    if !old(cells)@.contains(q) {
                        let k = choose|k: int| 0 <= k < spec_offs.len()
                            && stamp_hit_s(*grid, x as int, y as int, #[trigger] spec_offs[k], q);
                        if grid.wrap_world {
                            vstd::arithmetic::div_mod::lemma_mod_bound(
                                x + spec_offs[k].0, grid.width as int);
                            vstd::arithmetic::div_mod::lemma_mod_bound(
                                y + spec_offs[k].1, grid.height as int);
                        }
                    }
                }
            }
        }
    }

    /// The pattern's display name.
    pub fn name(&self) -> (r: &'static str)
        ensures
            r@ == self.name_spec(),
    {
        match self {
            PatternKind::Glider => "Glider",
            PatternKind::Random => "Random",
            PatternKind::Block => "Block",
            PatternKind::Blinker => "Blinker",
            PatternKind::Beacon => "Beacon",
            PatternKind::RPentomino => "R-pentomino",
            PatternKind::Acorn => "Acorn",
            PatternKind::Diehard => "Diehard",
            PatternKind::GosperGun => "Gosper Gun",
            PatternKind::Pentadecathlon => "Pentadecathlon",
        }
    }

    pub open spec fn name_spec(self) -> Seq<char> {
        match self {
            PatternKind::Glider => "Glider"@,
            PatternKind::Random => "Random"@,
            PatternKind::Block => "Block"@,
            PatternKind::Blinker => "Blinker"@,
            PatternKind::Beacon => "Beacon"@,
            PatternKind::RPentomino => "R-pentomino"@,
            PatternKind::Acorn => "Acorn"@,
            PatternKind::Diehard => "Diehard"@,
            PatternKind::GosperGun => "Gosper Gun"@,
            PatternKind::Pentadecathlon => "Pentadecathlon"@,
        }
    }
}

/// The pattern at a menu index; an index past the menu falls back to the
/// glider.
pub open spec fn pattern_for_index_s(index: int) -> PatternKind {
    if index == 0 {
        PatternKind::Glider
    } else if index == 1 {
        PatternKind::Random
    } else if index == 2 {
        PatternKind::Block
    } else if index == 3 {
        PatternKind::Blinker
    } else if index == 4 {
        PatternKind::Beacon
    } else if index == 5 {
        PatternKind::RPentomino
    } else if index == 6 {
        PatternKind::Acorn
    } else if index == 7 {
        PatternKind::Diehard
    } else if index == 8 {
        PatternKind::GosperGun
    } else if index == 9 {
        PatternKind::Pentadecathlon
    } else {
        PatternKind::Glider
    }
}

/// Get a pattern by index for menu selection.
pub fn get_pattern_by_index(index: usize) -> (r: PatternKind)
    ensures
        r == pattern_for_index_s(index as int),
{
    match index {
        0 => PatternKind::Glider,
        1 => PatternKind::Random,
        2 => PatternKind::Block,
        3 => PatternKind::Blinker,
        4 => PatternKind::Beacon,
        5 => PatternKind::RPentomino,
        6 => PatternKind::Acorn,
        7 => PatternKind::Diehard,
        8 => PatternKind::GosperGun,
        9 => PatternKind::Pentadecathlon,
        _ => PatternKind::Glider,
    }
}

/// Get all pattern names for the menu, in index order.
pub fn get_pattern_names() -> (r: Vec<&'static str>)
    ensures
        r@.len() == 10,
        forall|i: int| 0 <= i < 10
            ==> (#[trigger] r@[i])@ == pattern_for_index_s(i).name_spec(),
{
    let r: Vec<&'static str> = vec![
        "Glider", "Random", "Block", "Blinker", "Beacon",
        "R-pentomino", "Acorn", "Diehard", "Gosper Gun", "Pentadecathlon",
    ];
    proof {
        assert forall|i: int| 0 <= i < 10
            implies (#[trigger] r@[i])@ == pattern_for_index_s(i).name_spec() by {
            if i == 0 {} else if i == 1 {} else if i == 2 {} else if i == 3 {}
            else if i == 4 {} else if i == 5 {} else if i == 6 {} else if i == 7 {}
            else if i == 8 {} else {}
        }
    }
    r
}

} // verus!
