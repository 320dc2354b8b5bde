//! The mathematical model of the automaton.
//!
//! A cell is a single age counter: `0` means dead, any positive value means
//! alive and counts the generations the cell has been alive, saturating at
//! [`AGE_CAP`]. Cells are laid out row by row.

use vstd::prelude::*;

verus! {

/// The largest age a cell ever reports.
pub const AGE_CAP: u32 = 256;

/// A grid as a mathematical value.
pub struct Grid {
    pub width: nat,
    pub height: nat,
    pub cells: Seq<u32>,
}

/// Wraps a coordinate onto `[0, n)`: the non-negative remainder.
pub open spec fn wrap(x: int, n: int) -> int {
    x % n
}

/// The transition rule: a cell is alive in the next generation exactly when it
/// has three live neighbours, or is alive now and has two.
pub open spec fn rule(alive: bool, live_neighbours: nat) -> bool {
    live_neighbours == 3 || (alive && live_neighbours == 2)
}

/// The age after one more generation alive: one more, but never above the cap.
pub open spec fn aged(age: u32) -> u32 {
    if age < AGE_CAP {
        (age + 1) as u32
    } else {
        AGE_CAP
    }
}

impl Grid {
    /// Positive dimensions, one cell per coordinate, no age above the cap.
    pub open spec fn wf(self) -> bool {
        &&& self.width > 0
        &&& self.height > 0
        &&& self.cells.len() == self.width * self.height
        &&& forall|i: int| 0 <= i < self.cells.len() ==> #[trigger] self.cells[i] <= AGE_CAP
    }

    /// The grid of the given size with every cell dead.
    pub open spec fn blank(width: nat, height: nat) -> Grid {
        Grid { width, height, cells: Seq::new(width * height, |i: int| 0u32) }
    }

    pub open spec fn in_range(self, row: int, col: int) -> bool {
        0 <= row < self.height && 0 <= col < self.width
    }

    /// Row-major position of a coordinate.
    pub open spec fn index(self, row: int, col: int) -> int {
        row * self.width + col
    }

    pub open spec fn row_of(self, i: int) -> int {
        i / (self.width as int)
    }

    pub open spec fn col_of(self, i: int) -> int {
        i % (self.width as int)
    }

    pub open spec fn alive(self, i: int) -> bool {
        self.cells[i] > 0
    }

    /// The cell reached from cell `i` by the offset `(dr, dc)` on the torus.
    pub open spec fn neighbour(self, i: int, dr: int, dc: int) -> int {
        self.index(
            wrap(self.row_of(i) + dr, self.height as int),
            wrap(self.col_of(i) + dc, self.width as int),
        )
    }

    /// What the offset `(dr, dc)` adds to the neighbour count of cell `i`: one
    /// if it leads to a live cell other than `i` itself, else nothing.
    pub open spec fn counts(self, i: int, dr: int, dc: int) -> nat {
        let j = self.neighbour(i, dr, dc);
        if j != i && self.alive(j) {
            1
        } else {
            0
        }
    }

    /// The number of live neighbours of cell `i`, over the eight offsets around it.
    pub open spec fn live_neighbours(self, i: int) -> nat {
        self.counts(i, -1, -1) + self.counts(i, -1, 0) + self.counts(i, -1, 1)
            + self.counts(i, 0, -1) + self.counts(i, 0, 1)
            + self.counts(i, 1, -1) + self.counts(i, 1, 0) + self.counts(i, 1, 1)
    }

    /// The part of the count that the first `n` columns of the offset row `dr`
    /// give, going from left to right. The zero offset is among them; it adds nothing.
    pub open spec fn row_prefix(self, i: int, dr: int, n: int) -> nat {
        (if n >= 1 { self.counts(i, dr, -1) } else { 0 })
            + (if n >= 2 { self.counts(i, dr, 0) } else { 0 })
            + (if n >= 3 { self.counts(i, dr, 1) } else { 0 })
    }

    /// The part of the count that the first `m` offset rows give, going from the top.
    pub open spec fn block_prefix(self, i: int, m: int) -> nat {
        (if m >= 1 { self.row_prefix(i, -1, 3) } else { 0 })
            + (if m >= 2 { self.row_prefix(i, 0, 3) } else { 0 })
            + (if m >= 3 { self.row_prefix(i, 1, 3) } else { 0 })
    }

    /// Whether cell `i` is alive in the next generation.
    pub open spec fn next_alive(self, i: int) -> bool {
        rule(self.alive(i), self.live_neighbours(i))
    }

    /// The age of cell `i` in the next generation.
    pub open spec fn next_age(self, i: int) -> u32 {
        if self.next_alive(i) {
            aged(self.cells[i])
        } else {
            0
        }
    }

    /// The next generation: every cell computed from this grid alone.
    pub open spec fn step(self) -> Grid {
        Grid {
            width: self.width,
            height: self.height,
            cells: Seq::new(self.cells.len(), |i: int| self.next_age(i)),
        }
    }

    /// The grid `n` generations later.
    pub open spec fn after(self, n: nat) -> Grid
        decreases n,
    {
        if n == 0 {
            self
        } else {
            self.after((n - 1) as nat).step()
        }
    }

    /// The grid with the cell at `(row, col)` flipped: a dead cell becomes alive
    /// with age 1, a live cell dies. A coordinate off the grid changes nothing.
    pub open spec fn toggled(self, row: int, col: int) -> Grid {
        if self.in_range(row, col) {
            let i = self.index(row, col);
            Grid {
                width: self.width,
                height: self.height,
                cells: self.cells.update(i, if self.cells[i] == 0 { 1u32 } else { 0u32 }),
            }
        } else {
            self
        }
    }

    /// The grid with the cell at `(row, col)` alive with age 1. A coordinate off
    /// the grid changes nothing.
    pub open spec fn with_alive(self, row: int, col: int) -> Grid {
        if self.in_range(row, col) {
            Grid {
                width: self.width,
                height: self.height,
                cells: self.cells.update(self.index(row, col), 1u32),
            }
        } else {
            self
        }
    }

    /// Whether some coordinate of the list lies on the grid at position `i`.
    pub open spec fn listed(self, coords: Seq<(u32, u32)>, i: int) -> bool {
        exists|k: int|
            0 <= k < coords.len() && self.in_range((#[trigger] coords[k]).0 as int, coords[k].1 as int)
                && self.index(coords[k].0 as int, coords[k].1 as int) == i
    }

    /// The grid with each listed cell alive with age 1 and every other cell as
    /// it was. Coordinates off the grid change nothing.
    pub open spec fn seeded(self, coords: Seq<(u32, u32)>) -> Grid {
        Grid {
            width: self.width,
            height: self.height,
            cells: Seq::new(
                self.cells.len(),
                |i: int|
                    if self.listed(coords, i) {
                        1u32
                    } else {
                        self.cells[i]
                    },
            ),
        }
    }

    /// The grid of the same size with every cell dead.
    pub open spec fn cleared(self) -> Grid {
        Grid::blank(self.width, self.height)
    }
}

/// A valid coordinate has a position inside the cell sequence.
pub proof fn lemma_index_in_bounds(g: Grid, row: int, col: int)
    requires
        g.in_range(row, col),
    ensures
        0 <= g.index(row, col) < g.width * g.height,
        g.row_of(g.index(row, col)) == row,
        g.col_of(g.index(row, col)) == col,
{
    let w = g.width as int;
    let h = g.height as int;
    assert(0 <= row * w) by (nonlinear_arith)
        requires 0 <= row, 0 < w;
    assert(row * w + w <= h * w) by (nonlinear_arith)
        requires row < h, 0 < w;
    assert(h * w == w * h) by (nonlinear_arith);
    vstd::arithmetic::div_mod::lemma_fundamental_div_mod_converse(row * w + col, w, row, col);
}

/// A position inside the cell sequence splits into a valid coordinate.
pub proof fn lemma_coords_in_range(g: Grid, i: int)
    requires
        g.width > 0,
        0 <= i < g.width * g.height,
    ensures
        g.in_range(g.row_of(i), g.col_of(i)),
        g.index(g.row_of(i), g.col_of(i)) == i,
{
    let w = g.width as int;
    let h = g.height as int;
    vstd::arithmetic::div_mod::lemma_fundamental_div_mod(i, w);
    vstd::arithmetic::div_mod::lemma_mod_bound(i, w);
    vstd::arithmetic::div_mod::lemma_div_pos_is_pos(i, w);
    vstd::arithmetic::div_mod::lemma_multiply_divide_lt(i, w, h);
    assert(w * (i / w) == (i / w) * w) by (nonlinear_arith);
}

/// Wrapping a coordinate that is at most one step off `[0, n)`.
pub proof fn lemma_wrap_step(x: int, d: int, n: int)
    requires
        0 <= x < n,
        -1 <= d <= 1,
    ensures
        0 <= wrap(x + d, n) < n,
        wrap(x + d, n) == (x + d + n) % n,
        wrap(x + d, n) == if x + d < 0 {
            n - 1
        } else if x + d >= n {
            0
        } else {
            x + d
        },
{
    vstd::arithmetic::div_mod::lemma_mod_bound(x + d, n);
    vstd::arithmetic::div_mod::lemma_mod_add_multiples_vanish(x + d, n);
    if x + d < 0 {
        vstd::arithmetic::div_mod::lemma_small_mod((n - 1) as nat, n as nat);
    } else if x + d >= n {
        vstd::arithmetic::div_mod::lemma_mod_self_0(n);
    } else {
        vstd::arithmetic::div_mod::lemma_small_mod((x + d) as nat, n as nat);
    }
}

/// Every offset of at most one step leads to a cell of the grid, and the zero
/// offset leads back to the cell itself.
pub proof fn lemma_neighbour_in_bounds(g: Grid, i: int, dr: int, dc: int)
    requires
        g.wf(),
        0 <= i < g.cells.len(),
        -1 <= dr <= 1,
        -1 <= dc <= 1,
    ensures
        0 <= g.neighbour(i, dr, dc) < g.cells.len(),
        g.neighbour(i, 0, 0) == i,
{
    lemma_coords_in_range(g, i);
    lemma_wrap_step(g.row_of(i), dr, g.height as int);
    lemma_wrap_step(g.col_of(i), dc, g.width as int);
    lemma_wrap_step(g.row_of(i), 0, g.height as int);
    lemma_wrap_step(g.col_of(i), 0, g.width as int);
    lemma_index_in_bounds(
        g,
        wrap(g.row_of(i) + dr, g.height as int),
        wrap(g.col_of(i) + dc, g.width as int),
    );
}

/// Counting row by row over all nine offsets gives the neighbour count, and
/// that count is at most eight.
pub proof fn lemma_block_is_count(g: Grid, i: int)
    requires
        g.wf(),
        0 <= i < g.cells.len(),
    ensures
        g.block_prefix(i, 3) == g.live_neighbours(i),
        g.live_neighbours(i) <= 8,
{
    lemma_neighbour_in_bounds(g, i, 0, 0);
}

/// One generation keeps a grid well formed.
pub proof fn lemma_step_wf(g: Grid)
    requires
        g.wf(),
    ensures
        g.step().wf(),
{
}

/// Flipping a cell keeps a grid well formed.
pub proof fn lemma_toggled_wf(g: Grid, row: int, col: int)
    requires
        g.wf(),
    ensures
        g.toggled(row, col).wf(),
{
    if g.in_range(row, col) {
        lemma_index_in_bounds(g, row, col);
    }
}

/// Making a cell alive keeps a grid well formed.
pub proof fn lemma_with_alive_wf(g: Grid, row: int, col: int)
    requires
        g.wf(),
    ensures
        g.with_alive(row, col).wf(),
{
    if g.in_range(row, col) {
        lemma_index_in_bounds(g, row, col);
    }
}

/// Seeding with no coordinates changes nothing.
pub proof fn lemma_seeded_empty(g: Grid)
    ensures
        g.seeded(Seq::empty()) == g,
{
    assert(g.seeded(Seq::empty()).cells =~= g.cells);
}

/// Seeding with one more coordinate is seeding with the others and then
/// making that one cell alive.
pub proof fn lemma_seeded_push(g: Grid, coords: Seq<(u32, u32)>, last: (u32, u32))
    requires
        g.wf(),
    ensures
        g.seeded(coords.push(last)) == g.seeded(coords).with_alive(last.0 as int, last.1 as int),
{
    let more = coords.push(last);
    let row = last.0 as int;
    let col = last.1 as int;
    let target = g.seeded(coords).with_alive(row, col);
    if g.in_range(row, col) {
        lemma_index_in_bounds(g, row, col);
    }
    assert forall|i: int| 0 <= i < g.cells.len() implies g.seeded(more).cells[i]
        == target.cells[i] by {
        if g.listed(coords, i) {
            let k = choose|k: int|
                0 <= k < coords.len() && g.in_range(
                    (#[trigger] coords[k]).0 as int,
                    coords[k].1 as int,
                ) && g.index(coords[k].0 as int, coords[k].1 as int) == i;
            assert(more[k] == coords[k]);
        }
        if g.in_range(row, col) && g.index(row, col) == i {
            assert(more[coords.len() as int] == last);
        }
        if g.listed(more, i) {
            let k = choose|k: int|
                0 <= k < more.len() && g.in_range((#[trigger] more[k]).0 as int, more[k].1 as int)
                    && g.index(more[k].0 as int, more[k].1 as int) == i;
            if k < coords.len() {
                assert(coords[k] == more[k]);
            }
        }
    }
    assert(g.seeded(more).cells =~= target.cells);
}

} // verus!
