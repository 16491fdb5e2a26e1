//! The grid data model: a fixed-size square matrix of boolean cell states,
//! stored row-major in a flat vector.

use vstd::prelude::*;

verus! {

/// A square grid of cells, each alive (`true`) or dead (`false`).
///
/// The side length is fixed at creation and never changes; the cells are
/// stored row-major, so the cell at row `x` and column `y` sits at flat
/// index `x * n + y`.
pub struct Grid {
    n: usize,
    cells: Vec<bool>,
}

/// A flat row-major index of an in-range coordinate pair lies within the
/// `n * n` cell storage.
proof fn lemma_flat_index(n: int, x: int, y: int)
    by (nonlinear_arith)
    requires
        0 <= x < n,
        0 <= y < n,
    ensures
        0 <= x * n + y < n * n,
{
}

/// Distinct in-range coordinate pairs have distinct flat indices.
proof fn lemma_flat_index_injective(n: int, x1: int, y1: int, x2: int, y2: int)
    by (nonlinear_arith)
    requires
        0 <= x1 < n,
        0 <= y1 < n,
        0 <= x2 < n,
        0 <= y2 < n,
        !(x1 == x2 && y1 == y2),
    ensures
        x1 * n + y1 != x2 * n + y2,
{
}

/// A well-formed grid stores its N * N cells in a vector, so that count fits
/// in `usize`.
pub proof fn lemma_wf_bound(g: Grid)
    requires
        g.wf(),
    ensures
        g.side() * g.side() <= usize::MAX,
{
}

/// A row's live count never exceeds the number of columns looked at.
proof fn lemma_row_live_bound(g: Grid, x: int, y: int)
    requires
        0 <= y,
    ensures
        0 <= g.row_live(x, y) <= y,
    decreases y,
{
    if y > 0 {
        lemma_row_live_bound(g, x, y - 1);
    }
}

/// The rows `[0, x)` hold at most `x * N` live cells in total.
proof fn lemma_live_upto_bound(g: Grid, x: int)
    requires
        0 <= x,
        0 <= g.side(),
    ensures
        0 <= g.live_upto(x) <= x * g.side(),
    decreases x,
{
    if x > 0 {
        lemma_live_upto_bound(g, x - 1);
        lemma_row_live_bound(g, x - 1, g.side());
        assert((x - 1) * g.side() + g.side() == x * g.side()) by (nonlinear_arith);
    }
}

impl Grid {
    /// The side length N of the square grid.
    pub closed spec fn side(self) -> int {
        self.n as int
    }

    /// Well-formed: the flat storage holds exactly N * N cells.
    pub closed spec fn wf(self) -> bool {
        self.cells.len() == self.n * self.n
    }

    /// Whether the cell at row `x`, column `y` is alive.
    pub closed spec fn alive(self, x: int, y: int) -> bool {
        self.cells[x * (self.n as int) + y]
    }

    /// An all-dead grid of side length `n`.
    pub fn new(n: usize) -> (g: Grid)
        requires
            n * n <= usize::MAX,
        ensures
            g.wf(),
            g.side() == n,
            forall|x: int, y: int| 0 <= x < n && 0 <= y < n ==> !g.alive(x, y),
    {
        let total: usize = n * n;
        let mut cells: Vec<bool> = Vec::new();
        let mut i: usize = 0;
        while i < total
            invariant
                i <= total,
                cells.len() == i,
                forall|k: int| 0 <= k < i ==> !cells[k],
            decreases total - i,
        {
            cells.push(false);
            i = i + 1;
        }
        let g = Grid { n, cells };
        proof {
            assert forall|x: int, y: int| 0 <= x < n && 0 <= y < n implies !g.alive(x, y) by {
                lemma_flat_index(n as int, x, y);
            }
        }
        g
    }

    /// The side length, as an executable value.
    pub fn size(&self) -> (n: usize)
        ensures
            n == self.side(),
    {
        self.n
    }

    /// Read the cell at row `x`, column `y`.
    pub fn get(&self, x: usize, y: usize) -> (b: bool)
        requires
            self.wf(),
            x < self.side(),
            y < self.side(),
        ensures
            b == self.alive(x as int, y as int),
    {
        proof {
            lemma_flat_index(self.n as int, x as int, y as int);
        }
        self.cells[x * self.n + y]
    }

    /// How many live cells row `x` holds among columns `[0, y)`.
    pub open spec fn row_live(self, x: int, y: int) -> int
        decreases y,
    {
        if y <= 0 {
            0
        } else {
            self.row_live(x, y - 1) + if self.alive(x, y - 1) {
                1int
            } else {
                0int
            }
        }
    }

    /// How many live cells rows `[0, x)` hold in total.
    pub open spec fn live_upto(self, x: int) -> int
        decreases x,
    {
        if x <= 0 {
            0
        } else {
            self.live_upto(x - 1) + self.row_live(x - 1, self.side())
        }
    }

    /// The number of live cells in the whole grid.
    pub open spec fn live_cells(self) -> int {
        self.live_upto(self.side())
    }

    /// Count the live cells of the grid.
    pub fn population(&self) -> (p: usize)
        requires
            self.wf(),
        ensures
            p == self.live_cells(),
    {
        proof {
            lemma_wf_bound(*self);
        }
        let n = self.size();
        let mut p: usize = 0;
        let mut x: usize = 0;
        while x < n
            invariant
                self.wf(),
                self.side() == n,
                x <= n,
                p == self.live_upto(x as int),
            decreases n - x,
        {
            proof {
                lemma_live_upto_bound(*self, x as int);
            }
            let mut y: usize = 0;
            while y < n
                invariant
                    self.wf(),
                    self.side() == n,
                    x < n,
                    y <= n,
                    p == self.live_upto(x as int) + self.row_live(x as int, y as int),
                decreases n - y,
            {
                if self.get(x, y) {
                    proof {
                        lemma_wf_bound(*self);
                        lemma_live_upto_bound(*self, x as int);
                        lemma_row_live_bound(*self, x as int, y as int);
                        lemma_flat_index(self.side(), x as int, y as int);
                    }
                    p = p + 1;
                }
                y = y + 1;
            }
            x = x + 1;
        }
        p
    }

    /// Count the live cells of the grid; a synonym for [`Grid::population`].
    pub fn census(&self) -> (p: usize)
        requires
            self.wf(),
        ensures
            p == self.live_cells(),
    {
        self.population()
    }

    /// Write the cell at row `x`, column `y`, leaving every other cell as it was.
    pub fn set(&mut self, x: usize, y: usize, v: bool)
        requires
            old(self).wf(),
            x < old(self).side(),
            y < old(self).side(),
        ensures
            final(self).wf(),
            final(self).side() == old(self).side(),
            final(self).alive(x as int, y as int) == v,
            forall|i: int, j: int|
                0 <= i < old(self).side() && 0 <= j < old(self).side() && !(i == x && j == y)
                    ==> final(self).alive(i, j) == old(self).alive(i, j),
    {
        proof {
            lemma_flat_index(self.n as int, x as int, y as int);
        }
        let idx: usize = x * self.n + y;
        self.cells.set(idx, v);
        proof {
            assert forall|i: int, j: int|
                0 <= i < old(self).side() && 0 <= j < old(self).side() && !(i == x && j == y)
                    implies self.alive(i, j) == old(self).alive(i, j) by {
                lemma_flat_index(self.n as int, i, j);
                lemma_flat_index_injective(self.n as int, i, j, x as int, y as int);
            }
        }
    }
}

impl Grid {
    /// Structural equality: same side length and the same cell storage.
    pub closed spec fn same_as(self, other: Grid) -> bool {
        self.n == other.n && self.cells@ == other.cells@
    }
}

impl PartialEq for Grid {
    fn eq(&self, other: &Grid) -> (r: bool) {
        if self.n != other.n {
            return false;
        }
        if self.cells.len() != other.cells.len() {
            return false;
        }
        let len = self.cells.len();
        let mut i: usize = 0;
        while i < len
            invariant
                len == self.cells.len(),
                len == other.cells.len(),
                i <= len,
                forall|k: int| 0 <= k < i ==> self.cells[k] == other.cells[k],
            decreases len - i,
        {
            if self.cells[i] != other.cells[i] {
                return false;
            }
            i = i + 1;
        }
        proof {
            assert(self.cells@ =~= other.cells@);
        }
        true
    }
}

impl vstd::std_specs::cmp::PartialEqSpecImpl for Grid {
    open spec fn obeys_eq_spec() -> bool {
        true
    }

    open spec fn eq_spec(&self, other: &Grid) -> bool {
        self.same_as(*other)
    }
}

} // verus!
