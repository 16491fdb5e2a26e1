//! Two classic patterns, stated over every grid size and position: the block,
//! which is stable, and the blinker, which oscillates with period 2.

use vstd::prelude::*;

use crate::grid::Grid;

verus! {

/// `g` holds exactly a 2x2 square of live cells whose top-left corner is
/// `(bx, by)`; every other cell is dead.
pub open spec fn is_block(g: Grid, bx: int, by: int) -> bool {
    forall|x: int, y: int|
        0 <= x < g.side() && 0 <= y < g.side() ==> ((#[trigger] g.alive(x, y)) <==> (bx <= x <= bx
            + 1 && by <= y <= by + 1))
}

/// `g` holds exactly three live cells in a row: `(r, c-1)`, `(r, c)`,
/// `(r, c+1)`; every other cell is dead.
pub open spec fn is_horizontal_bar(g: Grid, r: int, c: int) -> bool {
    forall|x: int, y: int|
        0 <= x < g.side() && 0 <= y < g.side() ==> ((#[trigger] g.alive(x, y)) <==> (x == r && c - 1
            <= y <= c + 1))
}

/// `g` holds exactly three live cells in a column: `(r-1, c)`, `(r, c)`,
/// `(r+1, c)`; every other cell is dead.
pub open spec fn is_vertical_bar(g: Grid, r: int, c: int) -> bool {
    forall|x: int, y: int|
        0 <= x < g.side() && 0 <= y < g.side() ==> ((#[trigger] g.alive(x, y)) <==> (y == c && r - 1
            <= x <= r + 1))
}

/// The block is stable: a grid that is exactly a 2x2 block, positioned away
/// from any edge, steps to itself.
pub proof fn lemma_block_stable(g: Grid, next: Grid, bx: int, by: int)
    requires
        g.steps_to(next),
        1 <= bx && bx + 2 < g.side(),
        1 <= by && by + 2 < g.side(),
        is_block(g, bx, by),
    ensures
        is_block(next, bx, by),
{
    assert forall|x: int, y: int| 0 <= x < next.side() && 0 <= y < next.side() implies ((
    #[trigger] next.alive(x, y)) <==> (bx <= x <= bx + 1 && by <= y <= by + 1)) by {
        assert(next.alive(x, y) == g.next_cell(x, y));
    }
}

/// Half an oscillation: a horizontal bar away from the edges steps to the
/// vertical bar through the same center.
pub proof fn lemma_blinker_turns(g: Grid, next: Grid, r: int, c: int)
    requires
        g.steps_to(next),
        1 <= r && r + 1 < g.side(),
        1 <= c && c + 1 < g.side(),
        is_horizontal_bar(g, r, c),
    ensures
        is_vertical_bar(next, r, c),
{
    assert forall|x: int, y: int| 0 <= x < next.side() && 0 <= y < next.side() implies ((
    #[trigger] next.alive(x, y)) <==> (y == c && r - 1 <= x <= r + 1)) by {
        assert(next.alive(x, y) == g.next_cell(x, y));
    }
}

/// The other half: a vertical bar away from the edges steps back to the
/// horizontal bar through the same center.
pub proof fn lemma_blinker_turns_back(g: Grid, next: Grid, r: int, c: int)
    requires
        g.steps_to(next),
        1 <= r && r + 1 < g.side(),
        1 <= c && c + 1 < g.side(),
        is_vertical_bar(g, r, c),
    ensures
        is_horizontal_bar(next, r, c),
{
    assert forall|x: int, y: int| 0 <= x < next.side() && 0 <= y < next.side() implies ((
    #[trigger] next.alive(x, y)) <==> (x == r && c - 1 <= y <= c + 1)) by {
        assert(next.alive(x, y) == g.next_cell(x, y));
    }
}

/// The blinker oscillates with period 2: two steps after a horizontal bar,
/// the grid holds exactly that bar again.
pub proof fn lemma_blinker_period_two(g: Grid, once: Grid, twice: Grid, r: int, c: int)
    requires
        g.steps_to(once),
        once.steps_to(twice),
        1 <= r && r + 1 < g.side(),
        1 <= c && c + 1 < g.side(),
        is_horizontal_bar(g, r, c),
    ensures
        is_vertical_bar(once, r, c),
        is_horizontal_bar(twice, r, c),
{
    lemma_blinker_turns(g, once, r, c);
    lemma_blinker_turns_back(once, twice, r, c);
}

} // verus!
