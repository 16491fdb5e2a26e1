//! The generation-transition rule: neighbor counting and the birth/death
//! rules of Conway's Game of Life.
//!
//! A cell's neighbors are the up-to-8 grid-adjacent cells (sharing an edge or
//! a corner). Positions outside `[0, N)` are never counted: the grid clamps at
//! its edges rather than wrapping around.

use vstd::prelude::*;

use crate::grid::Grid;
use crate::grid::lemma_wf_bound;

verus! {

impl Grid {
    /// 1 if `(x, y)` is an in-range live cell, 0 otherwise. Out-of-range
    /// positions contribute nothing, so edges and corners see fewer than 8
    /// candidate neighbors.
    pub open spec fn occupancy(self, x: int, y: int) -> int {
        if 0 <= x < self.side() && 0 <= y < self.side() && self.alive(x, y) {
            1int
        } else {
            0int
        }
    }

    /// How many of the up-to-8 neighbors of `(x, y)` are alive.
    pub open spec fn neighbor_count(self, x: int, y: int) -> int {
        self.occupancy(x - 1, y - 1) + self.occupancy(x - 1, y) + self.occupancy(x - 1, y + 1)
            + self.occupancy(x, y - 1) + self.occupancy(x, y + 1)
            + self.occupancy(x + 1, y - 1) + self.occupancy(x + 1, y) + self.occupancy(x + 1, y + 1)
    }

    /// The state of cell `(x, y)` in the next generation: a live cell
    /// survives with 2 or 3 live neighbors, a dead cell is born with exactly
    /// 3, and every other cell is dead.
    pub open spec fn next_cell(self, x: int, y: int) -> bool {
        if self.alive(x, y) {
            self.neighbor_count(x, y) == 2 || self.neighbor_count(x, y) == 3
        } else {
            self.neighbor_count(x, y) == 3
        }
    }

    /// `next` is the generation that follows `self`: same dimensions, and
    /// every cell follows the transition rule.
    pub open spec fn steps_to(self, next: Grid) -> bool {
        &&& next.side() == self.side()
        &&& forall|x: int, y: int|
            0 <= x < self.side() && 0 <= y < self.side() ==> next.alive(x, y) == self.next_cell(
                x,
                y,
            )
    }

    /// Count the live cells among the up-to-8 neighbors of `(x, y)`,
    /// never looking outside `[0, N)`.
    pub fn count_neighbors(&self, x: usize, y: usize) -> (k: usize)
        requires
            self.wf(),
            x < self.side(),
            y < self.side(),
        ensures
            k == self.neighbor_count(x as int, y as int),
    {
        let n = self.size();
        let mut k: usize = 0;
        if x > 0 && y > 0 && self.get(x - 1, y - 1) {
            k = k + 1;
        }
        if x > 0 && self.get(x - 1, y) {
            k = k + 1;
        }
        if x > 0 && y + 1 < n && self.get(x - 1, y + 1) {
            k = k + 1;
        }
        if y > 0 && self.get(x, y - 1) {
            k = k + 1;
        }
        if y + 1 < n && self.get(x, y + 1) {
            k = k + 1;
        }
        if x + 1 < n && y > 0 && self.get(x + 1, y - 1) {
            k = k + 1;
        }
        if x + 1 < n && self.get(x + 1, y) {
            k = k + 1;
        }
        if x + 1 < n && y + 1 < n && self.get(x + 1, y + 1) {
            k = k + 1;
        }
        k
    }

    /// Compute the next generation. The input grid is read immutably and a
    /// new grid of the same dimensions is returned, every cell of which
    /// follows the birth/death rules.
    pub fn next_generation(&self) -> (g: Grid)
        requires
            self.wf(),
        ensures
            g.wf(),
            self.steps_to(g),
    {
        proof {
            lemma_wf_bound(*self);
        }
        let n = self.size();
        let mut g = Grid::new(n);
        let mut x: usize = 0;
        while x < n
            invariant
                self.wf(),
                self.side() == n,
                g.wf(),
                g.side() == n,
                x <= n,
                forall|i: int, j: int|
                    0 <= i < x && 0 <= j < n ==> g.alive(i, j) == self.next_cell(i, j),
            decreases n - x,
        {
            let mut y: usize = 0;
            while y < n
                invariant
                    self.wf(),
                    self.side() == n,
                    g.wf(),
                    g.side() == n,
                    x < n,
                    y <= n,
                    forall|i: int, j: int|
                        0 <= i < x && 0 <= j < n ==> g.alive(i, j) == self.next_cell(i, j),
                    forall|j: int| 0 <= j < y ==> g.alive(x as int, j) == self.next_cell(
                        x as int,
                        j,
                    ),
                decreases n - y,
            {
                let was_alive = self.get(x, y);
                let k = self.count_neighbors(x, y);
                let v = if was_alive {
                    k == 2 || k == 3
                } else {
                    k == 3
                };
                g.set(x, y, v);
                y = y + 1;
            }
            x = x + 1;
        }
        g
    }
}

/// Underpopulation: a live cell with fewer than 2 live neighbors is dead in
/// the next generation.
pub proof fn lemma_underpopulation(prev: Grid, next: Grid, x: int, y: int)
    requires
        prev.steps_to(next),
        0 <= x < prev.side(),
        0 <= y < prev.side(),
        prev.alive(x, y),
        prev.neighbor_count(x, y) <= 1,
    ensures
        !next.alive(x, y),
{
}

/// Survival: a live cell with exactly 2 or 3 live neighbors is alive in the
/// next generation.
pub proof fn lemma_survival(prev: Grid, next: Grid, x: int, y: int)
    requires
        prev.steps_to(next),
        0 <= x < prev.side(),
        0 <= y < prev.side(),
        prev.alive(x, y),
        prev.neighbor_count(x, y) == 2 || prev.neighbor_count(x, y) == 3,
    ensures
        next.alive(x, y),
{
}

/// Overpopulation: a live cell with 4 or more live neighbors is dead in the
/// next generation.
pub proof fn lemma_overpopulation(prev: Grid, next: Grid, x: int, y: int)
    requires
        prev.steps_to(next),
        0 <= x < prev.side(),
        0 <= y < prev.side(),
        prev.alive(x, y),
        prev.neighbor_count(x, y) >= 4,
    ensures
        !next.alive(x, y),
{
}

/// Birth: a dead cell with exactly 3 live neighbors is alive in the next
/// generation; with any other neighbor count it stays dead.
pub proof fn lemma_birth(prev: Grid, next: Grid, x: int, y: int)
    requires
        prev.steps_to(next),
        0 <= x < prev.side(),
        0 <= y < prev.side(),
        !prev.alive(x, y),
    ensures
        next.alive(x, y) <==> prev.neighbor_count(x, y) == 3,
{
}

/// The corner cell (0, 0) counts only its three in-range neighbors: positions
/// outside `[0, N)` contribute nothing, in every grid.
pub proof fn lemma_corner_counts_inside_only(g: Grid)
    ensures
        g.neighbor_count(0, 0) == g.occupancy(0, 1) + g.occupancy(1, 0) + g.occupancy(1, 1),
{
}

/// A cell never has fewer than 0 or more than 8 live neighbors.
pub proof fn lemma_neighbor_count_bounds(g: Grid, x: int, y: int)
    ensures
        0 <= g.neighbor_count(x, y) <= 8,
{
}

} // verus!
