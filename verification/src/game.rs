//! The executable engine.

use vstd::prelude::*;
use crate::grid::{
    lemma_block_is_count, lemma_coords_in_range, lemma_index_in_bounds, lemma_seeded_empty,
    lemma_seeded_push, lemma_step_wf, lemma_toggled_wf, lemma_with_alive_wf, lemma_wrap_step, wrap,
    Grid, AGE_CAP,
};

verus! {

/// Why a grid of the requested size cannot be built.
#[derive(Clone, Copy, Debug, PartialEq, Eq, Structural)]
pub enum SizeError {
    /// The width or the height is zero.
    Empty,
    /// The number of cells is above `u32::MAX`.
    TooLarge,
}

/// A Game of Life on a torus. Each cell is one age counter, `0` for a dead cell.
pub struct Game {
    grid: Vec<u32>,
    width: u32,
    height: u32,
}

impl View for Game {
    type V = Grid;

    closed spec fn view(&self) -> Grid {
        Grid { width: self.width as nat, height: self.height as nat, cells: self.grid@ }
    }
}

/// Moves a coordinate `x` of `[0, n)` by `step - 1` and wraps it back onto `[0, n)`.
fn wrap_step(x: u32, step: u32, n: u32) -> (wrapped: u32)
    requires
        x < n,
        step <= 2,
    ensures
        wrapped == wrap(x + step - 1, n as int),
        wrapped < n,
{
    proof {
        lemma_wrap_step(x as int, step - 1, n as int);
    }
    ((x as u64 + n as u64 + step as u64 - 1) % (n as u64)) as u32
}

/// Writes one age into the cell buffer.
fn write_age(grid: &mut Vec<u32>, index: usize, age: u32)
    requires
        index < old(grid)@.len(),
    ensures
        final(grid)@ == old(grid)@.update(index as int, age),
    no_unwind
{
    grid[index] = age;
}

impl Game {
    /// Every engine holds a well-formed grid.
    #[verifier::type_invariant]
    spec fn inv(self) -> bool {
        self@.wf()
    }

    /// A grid of the given size with every cell dead. Both dimensions are
    /// positive, and the number of cells is at most `u32::MAX`.
    pub fn new(width: u32, height: u32) -> (game: Self)
        requires
            width > 0,
            height > 0,
            width * height <= u32::MAX,
        ensures
            game@ == Grid::blank(width as nat, height as nat),
            game@.wf(),
            forall|row: int, col: int|
                game@.in_range(row, col) ==> game@.cells[#[trigger] game@.index(row, col)] == 0,
    {
        let count: u32 = width * height;
        let game = Self { grid: vec![0u32; count as usize], width, height };
        proof {
            assert(game.grid@ =~= Grid::blank(width as nat, height as nat).cells);
            assert forall|row: int, col: int| game@.in_range(row, col) implies game@.cells[
                #[trigger] game@.index(row, col)] == 0 by {
                lemma_index_in_bounds(game@, row, col);
            }
        }
        game
    }

    /// A grid of the given size with every cell dead, or the reason why that
    /// size is refused: a dimension is zero, or there would be more than
    /// `u32::MAX` cells.
    pub fn try_new(width: u32, height: u32) -> (made: Result<Self, SizeError>)
        ensures
            match made {
                Ok(game) => {
                    &&& width > 0 && height > 0
                    &&& width * height <= u32::MAX
                    &&& game@ == Grid::blank(width as nat, height as nat)
                    &&& game@.wf()
                },
                Err(SizeError::Empty) => width == 0 || height == 0,
                Err(SizeError::TooLarge) => width > 0 && height > 0 && width * height > u32::MAX,
            },
    {
        if width == 0 || height == 0 {
            return Err(SizeError::Empty);
        }
        assert(width * height <= 0xffff_ffff * 0xffff_ffff) by (nonlinear_arith)
            requires
                width <= 0xffff_ffff,
                height <= 0xffff_ffff,
        ;
        let count: u64 = width as u64 * height as u64;
        if count > 0xffff_ffff {
            return Err(SizeError::TooLarge);
        }
        Ok(Game::new(width, height))
    }

    /// The number of columns.
    pub fn width(&self) -> (width: u32)
        ensures
            width == self@.width,
            self@.wf(),
    {
        proof {
            use_type_invariant(self);
        }
        self.width
    }

    /// The number of rows.
    pub fn height(&self) -> (height: u32)
        ensures
            height == self@.height,
            self@.wf(),
    {
        proof {
            use_type_invariant(self);
        }
        self.height
    }

    /// Advances the grid by one generation. Every cell is computed from the
    /// grid as it was before the call.
    pub fn tick(&mut self)
        ensures
            final(self)@ == old(self)@.step(),
            final(self)@.wf(),
    {
        proof {
            use_type_invariant(&*self);
        }
        let mut new_grid: Vec<u32> = Vec::new();

        for row in 0..self.height
            invariant
                *self == *old(self),
                self@.wf(),
                new_grid@.len() == row * self.width,
                forall|i: int| 0 <= i < new_grid@.len() ==> new_grid@[i] == self@.next_age(i),
        {
            for col in 0..self.width
                invariant
                    *self == *old(self),
                    self@.wf(),
                    row < self.height,
                    new_grid@.len() == row * self.width + col,
                    forall|i: int| 0 <= i < new_grid@.len() ==> new_grid@[i] == self@.next_age(i),
            {
                let index = self.get_cell_index(row, col);
                let is_alive = self.is_cell_alive(index);

                let lifetime: u32 = if is_alive {
                    if self.grid[index] < AGE_CAP {
                        self.grid[index] + 1
                    } else {
                        AGE_CAP
                    }
                } else {
                    0
                };

                new_grid.push(lifetime);
            }
            assert((row + 1) * self.width == row * self.width + self.width) by (nonlinear_arith);
        }

        proof {
            assert(self.height * self.width == self.width * self.height) by (nonlinear_arith);
            assert(new_grid@ =~= self@.step().cells);
            lemma_step_wf(self@);
        }
        self.grid = new_grid;
    }

    /// Flips the cell at `(row, col)`: a dead cell becomes alive with age 1, a
    /// live cell dies. A coordinate off the grid is ignored.
    pub fn toggle_cell(&mut self, row: u32, col: u32)
        ensures
            final(self)@ == old(self)@.toggled(row as int, col as int),
            final(self)@.wf(),
    {
        proof {
            use_type_invariant(&*self);
        }
        if row >= self.height || col >= self.width {
            return ;
        }
        let index = self.get_cell_index(row, col);
        proof {
            lemma_toggled_wf(self@, row as int, col as int);
        }

        let age: u32 = if self.grid[index] == 0 {
            1
        } else {
            0
        };
        write_age(&mut self.grid, index, age);
    }

    /// The cell buffer, row by row.
    pub fn cells(&self) -> (cells: &Vec<u32>)
        ensures
            cells@ == self@.cells,
            self@.wf(),
    {
        proof {
            use_type_invariant(self);
        }
        &self.grid
    }

    /// Makes every cell dead.
    pub fn clear_grid(&mut self)
        ensures
            final(self)@ == old(self)@.cleared(),
            final(self)@.wf(),
    {
        proof {
            use_type_invariant(&*self);
        }
        let width = self.width;
        let height = self.height;
        for row in 0..height
            invariant
                self@.wf(),
                self.width == width,
                self.height == height,
                self@.width == old(self)@.width,
                self@.height == old(self)@.height,
                forall|i: int| 0 <= i < row * width ==> self@.cells[i] == 0,
        {
            for col in 0..width
                invariant
                    self@.wf(),
                    self.width == width,
                    self.height == height,
                    self@.width == old(self)@.width,
                    self@.height == old(self)@.height,
                    row < height,
                    forall|i: int| 0 <= i < row * width + col ==> self@.cells[i] == 0,
            {
                let index = self.get_cell_index(row, col);

                write_age(&mut self.grid, index, 0);
            }
            assert((row + 1) * width == row * width + width) by (nonlinear_arith);
        }
        proof {
            assert(height * width == width * height) by (nonlinear_arith);
            assert(self.grid@ =~= old(self)@.cleared().cells);
        }
    }

    /// Whether the cell at `index` is alive in the next generation.
    pub fn is_cell_alive(&self, index: usize) -> (alive: bool)
        requires
            index < self@.cells.len(),
        ensures
            alive == self@.next_alive(index as int),
    {
        proof {
            use_type_invariant(self);
        }
        let neigbours_count = self.get_live_neighbours(index);

        if self.grid[index] == 0 {
            neigbours_count == 3
        } else {
            neigbours_count == 2 || neigbours_count == 3
        }
    }

    /// The number of live neighbours of the cell at `index`, on the torus. The
    /// cell itself is never counted.
    pub fn get_live_neighbours(&self, index: usize) -> (count: u32)
        requires
            index < self@.cells.len(),
        ensures
            count == self@.live_neighbours(index as int),
            count <= 8,
    {
        proof {
            use_type_invariant(self);
            lemma_coords_in_range(self@, index as int);
            lemma_block_is_count(self@, index as int);
        }
        let row = (index / (self.width as usize)) as u32;
        let col = (index % (self.width as usize)) as u32;

        let mut neighbours: u32 = 0;

        for row_step in 0..3u32
            invariant
                self@.wf(),
                index < self@.cells.len(),
                row == self@.row_of(index as int),
                col == self@.col_of(index as int),
                row < self.height,
                col < self.width,
                neighbours == self@.block_prefix(index as int, row_step as int),
        {
            let curr_row = wrap_step(row, row_step, self.height);
            for col_step in 0..3u32
                invariant
                    self@.wf(),
                    index < self@.cells.len(),
                    row == self@.row_of(index as int),
                    col == self@.col_of(index as int),
                    row < self.height,
                    col < self.width,
                    row_step < 3,
                    curr_row < self.height,
                    curr_row == wrap(row + row_step - 1, self.height as int),
                    neighbours == self@.block_prefix(index as int, row_step as int)
                        + self@.row_prefix(index as int, row_step - 1, col_step as int),
            {
                let curr_col = wrap_step(col, col_step, self.width);

                let curr_index = self.get_cell_index(curr_row, curr_col);

                if self.grid[curr_index] > 0 && curr_index != index {
                    neighbours += 1;
                }
            }
        }

        neighbours
    }

    /// The row-major position of the cell at `(row, col)`.
    pub fn get_cell_index(&self, row: u32, col: u32) -> (index: usize)
        requires
            self@.in_range(row as int, col as int),
        ensures
            index == self@.index(row as int, col as int),
            index < self@.cells.len(),
    {
        proof {
            use_type_invariant(self);
            lemma_index_in_bounds(self@, row as int, col as int);
            assert(0 <= row * self.width) by (nonlinear_arith);
            assert(self.grid@.len() == self.grid.len());
        }
        row as usize * self.width as usize + col as usize
    }

    /// Whether `(row, col)` is a coordinate of the grid.
    pub fn is_valid_cell(&self, row: i32, col: i32) -> (valid: bool)
        ensures
            valid == self@.in_range(row as int, col as int),
    {
        row >= 0 && col >= 0 && (row as u32) < self.height && (col as u32) < self.width
    }

    /// The cell buffer as a slice, row by row.
    pub fn get_cells(&self) -> (cells: &[u32])
        ensures
            cells@ == self@.cells,
            self@.wf(),
    {
        proof {
            use_type_invariant(self);
        }
        self.grid.as_slice()
    }

    /// Makes each listed cell alive, with age 1. A coordinate off the grid is
    /// ignored.
    pub fn set_cells(&mut self, cells: &[(u32, u32)])
        ensures
            final(self)@ == old(self)@.seeded(cells@),
            final(self)@.wf(),
    {
        proof {
            use_type_invariant(&*self);
            lemma_seeded_empty(self@);
            assert(cells@.take(0) =~= Seq::empty());
        }
        for k in 0..cells.len()
            invariant
                old(self)@.wf(),
                self@.wf(),
                self@ == old(self)@.seeded(cells@.take(k as int)),
        {
            let (row, col) = cells[k];
            proof {
                assert(cells@.take(k + 1) =~= cells@.take(k as int).push((row, col)));
                lemma_seeded_push(old(self)@, cells@.take(k as int), (row, col));
                lemma_with_alive_wf(self@, row as int, col as int);
            }
            if row < self.height && col < self.width {
                let idx = self.get_cell_index(row, col);

                write_age(&mut self.grid, idx, 1);
            }
        }
        assert(cells@.take(cells@.len() as int) =~= cells@);
    }
}

} // verus!
