//! Board-level laws of the engine, proved once and for all inputs.

use vstd::prelude::*;

use crate::game::GameOfLife;
use crate::grid::canon1;
use crate::grid::Grid;
use crate::patterns::fits_i32;
use crate::patterns::stamp_hit_s;
use crate::patterns::stamp_s;
use crate::patterns::PatternKind;

verus! {

/// An empty board stays empty: no cell has a live neighbor, so no cell is
/// born and none survives.
pub proof fn lemma_empty_board_stays_empty(g: Grid)
    requires
        g.wf(),
    ensures
        g.step_s(Set::<(int, int)>::empty()) == Set::<(int, int)>::empty(),
{
    assert(g.step_s(Set::<(int, int)>::empty()) =~= Set::<(int, int)>::empty());
}

/// Canonicalization is total: whatever the raw coordinate, the canonical
/// form lies in the board rectangle.
pub proof fn lemma_canonicalize_total(g: Grid, x: int, y: int)
    requires
        g.wf(),
    ensures
        g.in_bounds_s(g.canon_s(x, y).0, g.canon_s(x, y).1),
{
    vstd::arithmetic::div_mod::lemma_mod_bound(x, g.width as int);
    vstd::arithmetic::div_mod::lemma_mod_bound(y, g.height as int);
}

/// Canonicalization is idempotent: an already-canonical coordinate is
/// returned unchanged, so canonicalizing twice equals canonicalizing once.
pub proof fn lemma_canonicalize_idempotent(g: Grid, x: int, y: int)
    requires
        g.wf(),
    ensures
        g.in_bounds_s(x, y) ==> g.canon_s(x, y) == (x, y),
        g.canon_s(g.canon_s(x, y).0, g.canon_s(x, y).1) == g.canon_s(x, y),
{
    if g.in_bounds_s(x, y) {
        g.lemma_canon_small(x, y);
    }
    lemma_canonicalize_total(g, x, y);
    g.lemma_canon_small(g.canon_s(x, y).0, g.canon_s(x, y).1);
}

/// Toggling the same raw coordinate twice is the identity on the live
/// set, whether or not the coordinate is accepted.
pub proof fn lemma_toggle_twice_identity(g: Grid, s: Set<(int, int)>, x: int, y: int)
    ensures
        GameOfLife::toggle_s(g, GameOfLife::toggle_s(g, s, x, y), x, y) == s,
{
    match g.accept_s(x, y) {
        Some(q) => {
            if s.contains(q) {
                assert(s.remove(q).insert(q) =~= s);
            } else {
                assert(s.insert(q).remove(q) =~= s);
            }
        },
        None => {},
    }
}

/// Stamping reads back: a pattern cell whose accepted coordinate exists is
/// alive after stamping — always under wrap-around mode, exactly when in
/// bounds under bounded mode — and a rejected cell's raw coordinate stays
/// dead when the board held only in-bounds cells before.
pub proof fn lemma_stamp_readback(
    g: Grid,
    s: Set<(int, int)>,
    offs: Seq<(int, int)>,
    ax: int,
    ay: int,
    k: int,
)
    requires
        g.wf(),
        0 <= k < offs.len(),
        fits_i32(ax + offs[k].0),
        fits_i32(ay + offs[k].1),
        forall|q: (int, int)| s.contains(q) ==> g.in_bounds_s(q.0, q.1),
    ensures
        ({
            let tx = ax + offs[k].0;
            let ty = ay + offs[k].1;
            match g.accept_s(tx, ty) {
                Some(q) => stamp_s(g, s, offs, ax, ay).contains(q),
                None => !stamp_s(g, s, offs, ax, ay).contains((tx, ty)),
            }
        }),
{
    let tx = ax + offs[k].0;
    let ty = ay + offs[k].1;
    crate::patterns::lemma_stamp_membership(g, s, offs, ax, ay);
    match g.accept_s(tx, ty) {
        Some(q) => {
            assert(stamp_hit_s(g, ax, ay, offs[k], q));
        },
        None => {
            assert(!g.wrap_world && !g.in_bounds_s(tx, ty));
            if stamp_s(g, s, offs, ax, ay).contains((tx, ty)) {
                if !s.contains((tx, ty)) {
                    let j = choose|j: int| 0 <= j < offs.len()
                        && stamp_hit_s(g, ax, ay, #[trigger] offs[j], (tx, ty));
                    assert(g.accept_s(ax + offs[j].0, ay + offs[j].1) == Some((tx, ty)));
                    assert(g.in_bounds_s(tx, ty));
                }
                assert(false);
            }
        },
    }
}

/// The canonical form of a coordinate at most one step outside the board:
/// a coordinate just past an edge wraps to the opposite edge.
proof fn lemma_canon_near(v: int, m: int)
    requires
        0 < m,
        -1 <= v <= m,
    ensures
        canon1(v, m) == (if v == -1 {
            m - 1
        } else if v == m {
            0int
        } else {
            v
        }),
{
    if v == -1 {
        vstd::arithmetic::div_mod::lemma_fundamental_div_mod_converse_mod(v, m, -1, m - 1);
    } else if v == m {
        vstd::arithmetic::div_mod::lemma_fundamental_div_mod_converse_mod(v, m, 1, 0);
    } else {
        vstd::arithmetic::div_mod::lemma_fundamental_div_mod_converse_mod(v, m, 0, v);
    }
}

/// For a live set that keeps one cell of margin from every edge, the
/// wrap-around neighbor source of an in-bounds cell is live exactly when
/// the plain (unwrapped) source cell is a member: a source that would
/// wrap lands on an edge, where such a set has no cells.
proof fn lemma_wrap_source_plain(g: Grid, b: Set<(int, int)>, p: (int, int), dx: int, dy: int)
    requires
        g.wf(),
        g.wrap_world,
        g.in_bounds_s(p.0, p.1),
        -1 <= dx <= 1,
        -1 <= dy <= 1,
        forall|q: (int, int)| b.contains(q)
            ==> 1 <= q.0 <= g.width - 2 && 1 <= q.1 <= g.height - 2,
    ensures
        g.live_source(b, p, dx, dy) == b.contains((p.0 - dx, p.1 - dy)),
{
    lemma_canon_near(p.0 - dx, g.width as int);
    lemma_canon_near(p.1 - dy, g.height as int);
}

/// The same, for bounded mode, where it holds by definition.
proof fn lemma_source_plain(g: Grid, b: Set<(int, int)>, p: (int, int), dx: int, dy: int)
    requires
        g.wf(),
        g.in_bounds_s(p.0, p.1),
        -1 <= dx <= 1,
        -1 <= dy <= 1,
        forall|q: (int, int)| b.contains(q)
            ==> 1 <= q.0 <= g.width - 2 && 1 <= q.1 <= g.height - 2,
    ensures
        g.live_source(b, p, dx, dy) == b.contains((p.0 - dx, p.1 - dy)),
{
    if g.wrap_world {
        lemma_wrap_source_plain(g, b, p, dx, dy);
    }
}

/// For a live set with one cell of margin from every edge, the neighbor
/// count of any in-bounds cell is the plain count of its 8 unwrapped
/// neighbors, in both boundary modes.
proof fn lemma_count_plain(g: Grid, b: Set<(int, int)>, p: (int, int))
    requires
        g.wf(),
        g.in_bounds_s(p.0, p.1),
        forall|q: (int, int)| b.contains(q)
            ==> 1 <= q.0 <= g.width - 2 && 1 <= q.1 <= g.height - 2,
    ensures
        g.neighbor_count_s(b, p) ==
            (if b.contains((p.0 + 1, p.1 + 1)) { 1int } else { 0 })
            + (if b.contains((p.0, p.1 + 1)) { 1int } else { 0 })
            + (if b.contains((p.0 - 1, p.1 + 1)) { 1int } else { 0 })
            + (if b.contains((p.0 + 1, p.1)) { 1int } else { 0 })
            + (if b.contains((p.0 - 1, p.1)) { 1int } else { 0 })
            + (if b.contains((p.0 + 1, p.1 - 1)) { 1int } else { 0 })
            + (if b.contains((p.0, p.1 - 1)) { 1int } else { 0 })
            + (if b.contains((p.0 - 1, p.1 - 1)) { 1int } else { 0 }),
{
    lemma_source_plain(g, b, p, -1, -1);
    lemma_source_plain(g, b, p, 0, -1);
    lemma_source_plain(g, b, p, 1, -1);
    lemma_source_plain(g, b, p, -1, 0);
    lemma_source_plain(g, b, p, 1, 0);
    lemma_source_plain(g, b, p, -1, 1);
    lemma_source_plain(g, b, p, 0, 1);
    lemma_source_plain(g, b, p, 1, 1);
}

/// The four cells of a block stamped at `(x, y)`.
pub open spec fn block_cells_s(x: int, y: int) -> Set<(int, int)> {
    set![(x, y), (x + 1, y), (x, y + 1), (x + 1, y + 1)]
}

/// A block with one cell of margin from every edge is a fixed point of
/// the transition, in both boundary modes: each of its cells has exactly
/// 3 live neighbors, and no other cell reaches 3.
pub proof fn lemma_block_fixed_point(g: Grid, x: int, y: int)
    requires
        g.wf(),
        1 <= x,
        x + 2 < g.width,
        1 <= y,
        y + 2 < g.height,
    ensures
        g.step_s(block_cells_s(x, y)) == block_cells_s(x, y),
{
    let b = block_cells_s(x, y);
    assert forall|p: (int, int)|
        #[trigger] g.step_s(b).contains(p) == b.contains(p) by {
        if g.in_bounds_s(p.0, p.1) {
            lemma_count_plain(g, b, p);
        }
    }
    assert(g.step_s(b) =~= b);
}

/// Stamping the block pattern on an empty board at an interior anchor
/// yields exactly the four block cells.
pub proof fn lemma_block_stamp(g: Grid, x: int, y: int)
    requires
        g.wf(),
        1 <= x,
        x + 2 < g.width,
        1 <= y,
        y + 2 < g.height,
    ensures
        stamp_s(g, Set::<(int, int)>::empty(), PatternKind::Block.offsets_spec(), x, y)
            == block_cells_s(x, y),
{
    let offs = PatternKind::Block.offsets_spec();
    let empty = Set::<(int, int)>::empty();
    let stamped = stamp_s(g, empty, offs, x, y);
    crate::patterns::lemma_stamp_membership(g, empty, offs, x, y);
    assert(offs.len() == 4);
    assert(offs[0] == (0int, 0int));
    assert(offs[1] == (0int, 1int));
    assert(offs[2] == (1int, 0int));
    assert(offs[3] == (1int, 1int));
    assert forall|q: (int, int)| stamped.contains(q) == block_cells_s(x, y).contains(q) by {
        assert forall|k: int| 0 <= k < 4 implies
            g.accept_s(x + (#[trigger] offs[k]).0, y + offs[k].1)
                == Some((x + offs[k].0, y + offs[k].1)) by {
            if g.wrap_world {
                g.lemma_canon_small(x + offs[k].0, y + offs[k].1);
            }
        }
        if block_cells_s(x, y).contains(q) {
            if q == (x, y) {
                assert(stamp_hit_s(g, x, y, offs[0], q));
            } else if q == (x, y + 1) {
                assert(stamp_hit_s(g, x, y, offs[1], q));
            } else if q == (x + 1, y) {
                assert(stamp_hit_s(g, x, y, offs[2], q));
            } else {
                assert(stamp_hit_s(g, x, y, offs[3], q));
            }
            assert(stamped.contains(q));
        }
        if stamped.contains(q) {
            let k = choose|k: int| 0 <= k < offs.len()
                && stamp_hit_s(g, x, y, #[trigger] offs[k], q);
            assert(q == (x + offs[k].0, y + offs[k].1));
            assert(block_cells_s(x, y).contains(q));
        }
    }
    assert(stamped =~= block_cells_s(x, y));
}

/// The block pattern stamped at an interior anchor is a fixed point of
/// `advance`.
pub proof fn lemma_block_stamp_fixed_point(g: Grid, x: int, y: int)
    requires
        g.wf(),
        1 <= x,
        x + 2 < g.width,
        1 <= y,
        y + 2 < g.height,
    ensures
        ({
            let b = stamp_s(g, Set::<(int, int)>::empty(), PatternKind::Block.offsets_spec(),
                x, y);
            g.step_s(b) == b
        }),
{
    lemma_block_stamp(g, x, y);
    lemma_block_fixed_point(g, x, y);
}

/// The three cells of a horizontal blinker.
pub open spec fn blinker_h_cells_s(x: int, y: int) -> Set<(int, int)> {
    set![(x, y), (x + 1, y), (x + 2, y)]
}

/// The three cells of the vertical blinker it turns into.
pub open spec fn blinker_v_cells_s(x: int, y: int) -> Set<(int, int)> {
    set![(x + 1, y - 1), (x + 1, y), (x + 1, y + 1)]
}

/// One step turns the horizontal blinker into the vertical one and the
/// vertical one back, given a margin that keeps both away from the edges.
pub proof fn lemma_blinker_step(g: Grid, x: int, y: int)
    requires
        g.wf(),
        1 <= x,
        x + 2 <= g.width - 2,
        2 <= y,
        y + 1 <= g.height - 2,
    ensures
        g.step_s(blinker_h_cells_s(x, y)) == blinker_v_cells_s(x, y),
        g.step_s(blinker_v_cells_s(x, y)) == blinker_h_cells_s(x, y),
{
    let bh = blinker_h_cells_s(x, y);
    let bv = blinker_v_cells_s(x, y);
    assert forall|p: (int, int)|
        #[trigger] g.step_s(bh).contains(p) == bv.contains(p) by {
        if g.in_bounds_s(p.0, p.1) {
            lemma_count_plain(g, bh, p);
        }
    }
    assert(g.step_s(bh) =~= bv);
    assert forall|p: (int, int)|
        #[trigger] g.step_s(bv).contains(p) == bh.contains(p) by {
        if g.in_bounds_s(p.0, p.1) {
            lemma_count_plain(g, bv, p);
        }
    }
    assert(g.step_s(bv) =~= bh);
}

/// A horizontal blinker at an interior anchor has period 2: two steps
/// return the original set.
pub proof fn lemma_blinker_period_two(g: Grid, x: int, y: int)
    requires
        g.wf(),
        1 <= x,
        x + 2 <= g.width - 2,
        2 <= y,
        y + 1 <= g.height - 2,
    ensures
        g.step_s(g.step_s(blinker_h_cells_s(x, y))) == blinker_h_cells_s(x, y),
{
    lemma_blinker_step(g, x, y);
}

} // verus!
