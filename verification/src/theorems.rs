//! Facts about the model that relate several operations.

use vstd::prelude::*;
use crate::grid::{
    lemma_block_is_count, lemma_coords_in_range, lemma_index_in_bounds, lemma_step_wf,
    lemma_wrap_step, rule, Grid, AGE_CAP,
};

verus! {

/// In the blank grid every cell of every coordinate is dead, with age 0.
pub proof fn blank_grid_is_dead(width: nat, height: nat, row: int, col: int)
    requires
        Grid::blank(width, height).in_range(row, col),
    ensures
        Grid::blank(width, height).wf(),
        Grid::blank(width, height).cells[Grid::blank(width, height).index(row, col)] == 0,
        !Grid::blank(width, height).alive(Grid::blank(width, height).index(row, col)),
{
    lemma_index_in_bounds(Grid::blank(width, height), row, col);
}

/// Two coordinates of the grid with the same row-major position are the same
/// coordinate.
pub proof fn index_is_injective(g: Grid, row1: int, col1: int, row2: int, col2: int)
    requires
        g.in_range(row1, col1),
        g.in_range(row2, col2),
        g.index(row1, col1) == g.index(row2, col2),
    ensures
        row1 == row2,
        col1 == col2,
{
    lemma_index_in_bounds(g, row1, col1);
    lemma_index_in_bounds(g, row2, col2);
}

/// The positions of the coordinates of the grid are exactly `0` up to, not
/// including, `width * height`: each coordinate lands there, and each such
/// position is that of some coordinate.
pub proof fn index_covers_the_grid(g: Grid, row: int, col: int, i: int)
    requires
        g.width > 0,
        g.height > 0,
    ensures
        g.in_range(row, col) ==> 0 <= g.index(row, col) < g.width * g.height,
        0 <= i < g.width * g.height ==> exists|r: int, c: int|
            g.in_range(r, c) && #[trigger] g.index(r, c) == i,
{
    if g.in_range(row, col) {
        lemma_index_in_bounds(g, row, col);
    }
    if 0 <= i < g.width * g.height {
        lemma_coords_in_range(g, i);
        assert(g.in_range(g.row_of(i), g.col_of(i)) && g.index(g.row_of(i), g.col_of(i)) == i);
    }
}

/// The grid is a torus: one step up from the top row is the bottom row, one
/// step down from the bottom row is the top row, and likewise for the leftmost
/// and rightmost columns.
pub proof fn edges_wrap_around(g: Grid, row: int, col: int)
    requires
        g.wf(),
        g.in_range(row, col),
    ensures
        row == 0 ==> g.neighbour(g.index(row, col), -1, 0) == g.index(g.height - 1, col),
        row == g.height - 1 ==> g.neighbour(g.index(row, col), 1, 0) == g.index(0, col),
        col == 0 ==> g.neighbour(g.index(row, col), 0, -1) == g.index(row, g.width - 1),
        col == g.width - 1 ==> g.neighbour(g.index(row, col), 0, 1) == g.index(row, 0),
{
    lemma_index_in_bounds(g, row, col);
    lemma_wrap_step(row, -1, g.height as int);
    lemma_wrap_step(row, 0, g.height as int);
    lemma_wrap_step(row, 1, g.height as int);
    lemma_wrap_step(col, -1, g.width as int);
    lemma_wrap_step(col, 0, g.width as int);
    lemma_wrap_step(col, 1, g.width as int);
}

/// The transition table, column by column: with fewer than two live
/// neighbours or more than three a cell is dead next, with two it keeps its
/// state, with three it is alive.
pub proof fn rule_follows_table(alive: bool, live_neighbours: nat)
    ensures
        live_neighbours <= 1 ==> !rule(alive, live_neighbours),
        live_neighbours == 2 ==> rule(alive, live_neighbours) == alive,
        live_neighbours == 3 ==> rule(alive, live_neighbours),
        live_neighbours >= 4 ==> !rule(alive, live_neighbours),
{
}

/// Every cell of a grid has between zero and eight live neighbours, and its
/// next state is the table's entry for its state and that count.
pub proof fn next_state_follows_table(g: Grid, i: int)
    requires
        g.wf(),
        0 <= i < g.cells.len(),
    ensures
        g.live_neighbours(i) <= 8,
        g.live_neighbours(i) <= 1 ==> !g.next_alive(i),
        g.live_neighbours(i) == 2 ==> g.next_alive(i) == g.alive(i),
        g.live_neighbours(i) == 3 ==> g.next_alive(i),
        g.live_neighbours(i) >= 4 ==> !g.next_alive(i),
{
    lemma_block_is_count(g, i);
}

/// A generation is computed from the one before it and from nothing else:
/// each cell of the next grid is the rule applied to this grid, so two grids
/// that agree on a cell and on the states around it agree on that cell's next
/// age, whatever else they hold.
pub proof fn step_reads_the_old_grid(g: Grid, other: Grid, i: int)
    requires
        g.wf(),
        other.wf(),
        g.width == other.width,
        g.height == other.height,
        0 <= i < g.cells.len(),
        g.cells[i] == other.cells[i],
        forall|dr: int, dc: int|
            -1 <= dr <= 1 && -1 <= dc <= 1 ==> g.alive(#[trigger] g.neighbour(i, dr, dc))
                == other.alive(g.neighbour(i, dr, dc)),
    ensures
        g.step().cells[i] == g.next_age(i),
        g.step().cells[i] == other.step().cells[i],
{
    assert(g.cells.len() == other.cells.len());
    assert(g.neighbour(i, -1, -1) == other.neighbour(i, -1, -1));
    assert(g.neighbour(i, -1, 0) == other.neighbour(i, -1, 0));
    assert(g.neighbour(i, -1, 1) == other.neighbour(i, -1, 1));
    assert(g.neighbour(i, 0, -1) == other.neighbour(i, 0, -1));
    assert(g.neighbour(i, 0, 1) == other.neighbour(i, 0, 1));
    assert(g.neighbour(i, 1, -1) == other.neighbour(i, 1, -1));
    assert(g.neighbour(i, 1, 0) == other.neighbour(i, 1, 0));
    assert(g.neighbour(i, 1, 1) == other.neighbour(i, 1, 1));
}

/// Clearing a cleared grid changes nothing, and a cleared grid has only dead
/// cells.
pub proof fn clear_is_idempotent(g: Grid)
    ensures
        g.cleared().cleared() == g.cleared(),
        forall|i: int| 0 <= i < g.width * g.height ==> !#[trigger] g.cleared().alive(i),
{
}

/// However many generations pass, the grid keeps its size and no age exceeds
/// the cap.
pub proof fn ages_stay_capped(g: Grid, n: nat)
    requires
        g.wf(),
    ensures
        g.after(n).wf(),
        g.after(n).width == g.width,
        g.after(n).height == g.height,
        g.after(n).cells.len() == g.cells.len(),
    decreases n,
{
    if n > 0 {
        ages_stay_capped(g, (n - 1) as nat);
        lemma_step_wf(g.after((n - 1) as nat));
    }
}

/// A cell that is alive in each of the next `n` generations has, after them,
/// its age raised by `n`, stopped at the cap. So after at least as many
/// generations as the cap its age is the cap exactly.
pub proof fn age_saturates(g: Grid, i: int, n: nat)
    requires
        g.wf(),
        0 <= i < g.cells.len(),
        forall|k: nat| 1 <= k <= n ==> (#[trigger] g.after(k)).alive(i),
    ensures
        g.after(n).cells[i] == if g.cells[i] + n <= AGE_CAP {
            g.cells[i] + n
        } else {
            AGE_CAP as int
        },
        n >= AGE_CAP ==> g.after(n).cells[i] == AGE_CAP,
    decreases n,
{
    if n > 0 {
        let before = g.after((n - 1) as nat);
        age_saturates(g, i, (n - 1) as nat);
        ages_stay_capped(g, (n - 1) as nat);
        assert(g.after(n).alive(i));
        assert(g.after(n).cells[i] == before.next_age(i));
    }
}

/// A cell has age 0 in a generation exactly when the rule made it dead in that
/// generation: its age is reset the moment it dies, and stays 0 for as long
/// as it stays dead.
pub proof fn age_resets_on_death(g: Grid, i: int, n: nat)
    requires
        g.wf(),
        0 <= i < g.cells.len(),
    ensures
        !g.after(n).next_alive(i) <==> g.after(n + 1).cells[i] == 0,
        !g.after(n + 1).alive(i) <==> g.after(n + 1).cells[i] == 0,
{
    ages_stay_capped(g, n);
    assert(g.after(n + 1) == g.after(n).step());
    assert(g.after(n + 1).cells[i] == g.after(n).next_age(i));
}

} // verus!
