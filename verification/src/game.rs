//! The simulation session: live set, topology and generation counter.
//!
//! Rendering configuration (cell pixel size, grid-line visibility) rides
//! along as plain fields; colors, input decoding and the frame loop are
//! the host's business.

use vstd::prelude::*;

use crate::grid::Grid;
use crate::live::LiveSet;
use crate::patterns::stamp_s;
use crate::patterns::PatternKind;

verus! {

/// Core state for a Conway's Game of Life simulation.
pub struct GameOfLife {
    pub live: LiveSet,
    pub grid: Grid,
    /// Visual size of each cell in pixels.
    pub cell: i32,
    /// Current generation count.
    pub generation: u64,
    /// Whether the host should draw grid lines.
    pub show_grid: bool,
}

impl GameOfLife {
    /// The session invariant: positive dimensions, a duplicate-free live
    /// set, and every live cell inside the board rectangle.
    pub open spec fn wf(self) -> bool {
        self.grid.wf() && self.live.wf() && self.live.all_within(self.grid)
    }

    /// The live set grown by the accepted form of `(x, y)`, if any.
    pub open spec fn insert_accepted_s(g: Grid, s: Set<(int, int)>, x: int, y: int)
        -> Set<(int, int)> {
        match g.accept_s(x, y) {
            Some(q) => s.insert(q),
            None => s,
        }
    }

    /// The live set with the accepted form of `(x, y)` flipped: removed if
    /// present, inserted if absent; unchanged if nothing is accepted.
    pub open spec fn toggle_s(g: Grid, s: Set<(int, int)>, x: int, y: int) -> Set<(int, int)> {
        match g.accept_s(x, y) {
            Some(q) => if s.contains(q) {
                s.remove(q)
            } else {
                s.insert(q)
            },
            None => s,
        }
    }

    /// Create a new session with the given board dimensions, empty and in
    /// bounded mode.
    pub fn new(width: i32, height: i32, cell_size: i32) -> (g: Self)
        requires
            width > 0,
            height > 0,
        ensures
            g.wf(),
            g.grid.width == width,
            g.grid.height == height,
            !g.grid.wrap_world,
            g.live@ == Set::<(int, int)>::empty(),
            g.cell == cell_size,
            g.generation == 0,
            g.show_grid,
    {
        GameOfLife {
            live: LiveSet::new(),
            grid: Grid::new(width, height),
            cell: cell_size,
            generation: 0,
            show_grid: true,
        }
    }

    /// Add a live cell at the given raw coordinate, through acceptance:
    /// wrapped under wrap-around mode, dropped when out of bounds under
    /// bounded mode.  Adding an already-live cell is a no-op.
    pub fn add_cell(&mut self, x: i32, y: i32)
        requires
            old(self).wf(),
        ensures
            final(self).wf(),
            final(self).live@ == Self::insert_accepted_s(
                old(self).grid, old(self).live@, x as int, y as int),
            final(self).grid == old(self).grid,
            final(self).cell == old(self).cell,
            final(self).generation == old(self).generation,
            final(self).show_grid == old(self).show_grid,
    {
        match self.grid.accept(x, y) {
            Some(p) => self.live.insert_pos(p),
            None => {},
        }
    }

    /// Toggle the cell at the given raw coordinate between alive and
    /// dead; a coordinate that is not accepted is a no-op.
    pub fn toggle_cell(&mut self, x: i32, y: i32)
        requires
            old(self).wf(),
        ensures
            final(self).wf(),
            final(self).live@ == Self::toggle_s(
                old(self).grid, old(self).live@, x as int, y as int),
            final(self).grid == old(self).grid,
            final(self).cell == old(self).cell,
            final(self).generation == old(self).generation,
            final(self).show_grid == old(self).show_grid,
    {
        match self.grid.accept(x, y) {
            Some(p) => {
                if self.live.contains_pos(p) {
                    self.live.remove_pos(p);
                } else {
                    self.live.insert_pos(p);
                }
            },
            None => {},
        }
    }

    /// Remove all cells and reset the generation count to zero.  The two
    /// resets are coupled by design: a cleared board with a stale counter
    /// would desynchronize the displayed generation from board history.
    pub fn clear(&mut self)
        ensures
            old(self).grid.wf() ==> final(self).wf(),
            final(self).live@ == Set::<(int, int)>::empty(),
            final(self).live.wf(),
            final(self).generation == 0,
            final(self).grid == old(self).grid,
            final(self).cell == old(self).cell,
            final(self).show_grid == old(self).show_grid,
    {
        self.live.clear_all();
        self.generation = 0;
    }

    /// Switch the boundary mode.  Already-live cells are not touched:
    /// both modes only ever store canonical in-bounds coordinates, so the
    /// invariant carries over unchanged.
    pub fn set_wrap(&mut self, wrap: bool)
        requires
            old(self).wf(),
        ensures
            final(self).wf(),
            final(self).grid.wrap_world == wrap,
            final(self).grid.width == old(self).grid.width,
            final(self).grid.height == old(self).grid.height,
            final(self).live == old(self).live,
            final(self).cell == old(self).cell,
            final(self).generation == old(self).generation,
            final(self).show_grid == old(self).show_grid,
    {
        self.grid.wrap_world = wrap;
    }

    /// Advance the board one generation and count it.
    pub fn next_generation(&mut self)
        requires
            old(self).wf(),
            old(self).generation < u64::MAX,
        ensures
            final(self).wf(),
            final(self).live@ == old(self).grid.step_s(old(self).live@),
            final(self).generation == old(self).generation + 1,
            final(self).grid == old(self).grid,
            final(self).cell == old(self).cell,
            final(self).show_grid == old(self).show_grid,
    {
        self.live = self.grid.next_generation(&self.live);
        self.generation = self.generation + 1;
    }

    /// Stamp a pattern at the given anchor, cell by cell through
    /// acceptance.  The `Random` pseudo-pattern stamps nothing here: the
    /// host draws its cells and adds them through `add_cell`.
    pub fn apply_pattern(&mut self, pattern: PatternKind, x: i32, y: i32)
        requires
            old(self).wf(),
        ensures
            final(self).wf(),
            final(self).live@ == stamp_s(old(self).grid, old(self).live@,
                pattern.offsets_spec(), x as int, y as int),
            final(self).grid == old(self).grid,
            final(self).cell == old(self).cell,
            final(self).generation == old(self).generation,
            final(self).show_grid == old(self).show_grid,
    {
        pattern.apply(&mut self.live, &self.grid, x, y);
    }
}

} // verus!
