//! The grid engine: cells in row-major order, their precomputed neighbor
//! lists, and the two-phase generation step.

use itertools::Itertools;
use vstd::prelude::*;

use crate::rules::{
    adjacent_indices, count_alive, in_bounds, index_of, lemma_count_alive_bounds,
    lemma_count_alive_push, lemma_index_in_grid, lemma_index_position, lemma_neighbors_upto,
    lemma_position_index, neighbors_upto, step, unit_square,
};

verus! {

/// Relies on itertools::Itertools::cartesian_product: it yields every pair
/// (a[i], b[j]), with the index into `a` varying slowest.
#[verifier::external_body]
fn cartesian_pairs(a: &Vec<i32>, b: &Vec<i32>) -> (r: Vec<(i32, i32)>)
    ensures
        r@.len() == a@.len() * b@.len(),
        forall|k: int|
            0 <= k < r@.len() ==> #[trigger] r@[k] == (a@[k / b@.len() as int], b@[k
                % b@.len() as int]),
{
    a.iter().copied().cartesian_product(b.iter().copied()).collect()
}

/// The alive flags of `cells`, in the same order.
pub open spec fn states_of(cells: Seq<GolCell>) -> Seq<bool> {
    cells.map_values(|c: GolCell| c.alive)
}

/// Dimensions whose coordinates fit `i32` and whose row-major indices fit `u32`.
pub open spec fn dims_fit(w: int, h: int) -> bool {
    0 <= w <= i32::MAX && 0 <= h <= i32::MAX && w * h <= u32::MAX
}

/// One position of the lattice.
pub struct GolCell {
    /// The (x, y) coordinate, 0-indexed.
    pub index: (u32, u32),
    /// Row-major positions of the neighboring cells in the owning grid;
    /// set once when the grid is built.
    pub neighbors: Vec<usize>,
    pub alive: bool,
}

impl GolCell {
    /// A dead cell at (x, y) with no neighbors yet.
    pub fn new(x: u32, y: u32) -> (r: GolCell)
        ensures
            r.index == (x, y),
            !r.alive,
            r.neighbors@ == Seq::<usize>::empty(),
    {
        GolCell { index: (x, y), neighbors: Vec::new(), alive: false }
    }

    /// The number of this cell's neighbors that are alive in `cells` now.
    pub fn neighbors_alive(&self, cells: &Vec<GolCell>) -> (r: usize)
        requires
            forall|m: int|
                0 <= m < self.neighbors@.len() ==> (#[trigger] self.neighbors@[m] as int)
                    < cells@.len(),
        ensures
            r == count_alive(states_of(cells@), self.neighbors@),
    {
        let ghost s = states_of(cells@);
        let mut n: usize = 0;
        for m in 0..self.neighbors.len()
            invariant
                s == states_of(cells@),
                forall|q: int|
                    0 <= q < self.neighbors@.len() ==> (#[trigger] self.neighbors@[q] as int)
                        < cells@.len(),
                n == count_alive(s, self.neighbors@.subrange(0, m as int)),
        {
            let j = self.neighbors[m];
            proof {
                let prev = self.neighbors@.subrange(0, m as int);
                assert(self.neighbors@.subrange(0, m + 1) =~= prev.push(j));
                lemma_count_alive_push(s, prev, j);
                lemma_count_alive_bounds(s, prev);
            }
            if cells[j].alive {
                n = n + 1;
            }
        }
        proof {
            assert(self.neighbors@.subrange(0, self.neighbors@.len() as int) =~= self.neighbors@);
        }
        n
    }
}

/// A fixed-size grid of cells in row-major order.
pub struct Game {
    /// The number of columns and rows, fixed at construction.
    pub cells_counts: (u32, u32),
    pub cells: Vec<GolCell>,
}

impl Game {
    /// The number of columns.
    pub open spec fn width(&self) -> int {
        self.cells_counts.0 as int
    }

    /// The number of rows.
    pub open spec fn height(&self) -> int {
        self.cells_counts.1 as int
    }

    /// The alive flags of all cells, row-major.
    pub open spec fn states(&self) -> Seq<bool> {
        states_of(self.cells@)
    }

    /// One cell per position, each at its row-major index, each linked to
    /// exactly its in-bounds 8-connected neighbors.
    pub open spec fn wf(&self) -> bool {
        let w = self.width();
        let h = self.height();
        &&& dims_fit(w, h)
        &&& self.cells@.len() == w * h
        &&& forall|i: int|
            0 <= i < self.cells@.len() ==> {
                &&& (#[trigger] self.cells@[i]).index == ((i % w) as u32, (i / w) as u32)
                &&& self.cells@[i].neighbors@ == adjacent_indices(w, h, i % w, i / w)
            }
    }

    /// A grid of `count_x` columns and `count_y` rows, every cell dead, in
    /// row-major order, each linked to its in-bounds 8-connected neighbors.
    pub fn new(count_x: u32, count_y: u32) -> (game: Game)
        requires
            dims_fit(count_x as int, count_y as int),
        ensures
            game.wf(),
            game.cells_counts == (count_x, count_y),
            game.cells@.len() == count_x * count_y,
            forall|i: int| 0 <= i < game.cells@.len() ==> !(#[trigger] game.cells@[i]).alive,
            forall|x: int, y: int|
                in_bounds(count_x as int, count_y as int, x, y) ==> (#[trigger] game.cells@[index_of(
                    count_x as int,
                    x,
                    y,
                )]).index == (x as u32, y as u32),
            forall|i: int, j: int|
                0 <= i < game.cells@.len() && 0 <= j < game.cells@.len() && i != j ==> (
                #[trigger] game.cells@[i]).index != (#[trigger] game.cells@[j]).index,
    {
        let ghost w = count_x as int;
        let ghost h = count_y as int;
        let mut game = Game { cells_counts: (count_x, count_y), cells: Vec::new() };
        for y in 0..count_y
            invariant
                game.cells_counts == (count_x, count_y),
                w == count_x,
                h == count_y,
                dims_fit(w, h),
                game.cells@.len() == y * w,
                forall|i: int|
                    0 <= i < game.cells@.len() ==> (#[trigger] game.cells@[i]).index == ((i % w) as u32, (i
                        / w) as u32) && !game.cells@[i].alive,
        {
            for x in 0..count_x
                invariant
                    game.cells_counts == (count_x, count_y),
                    w == count_x,
                    h == count_y,
                    dims_fit(w, h),
                    y < h,
                    game.cells@.len() == y * w + x,
                    forall|i: int|
                        0 <= i < game.cells@.len() ==> (#[trigger] game.cells@[i]).index == ((i % w) as u32,
                            (i / w) as u32) && !game.cells@[i].alive,
            {
                proof {
                    lemma_index_position(w, x as int, y as int);
                }
                game.cells.push(GolCell::new(x, y));
            }
            assert(game.cells@.len() == (y + 1) * w) by (nonlinear_arith)
                requires
                    game.cells@.len() == y * w + w,
            ;
        }
        assert(game.cells@.len() == w * h) by (nonlinear_arith)
            requires
                game.cells@.len() == h * w,
        ;
        game.populate_neighbors();
        proof {
            assert forall|x: int, y: int| in_bounds(w, h, x, y) implies (#[trigger] game.cells@[index_of(
                w,
                x,
                y,
            )]).index == (x as u32, y as u32) by {
                lemma_index_in_grid(w, h, x, y);
                lemma_index_position(w, x, y);
            }
            assert forall|i: int, j: int|
                0 <= i < game.cells@.len() && 0 <= j < game.cells@.len() && i != j implies (
            #[trigger] game.cells@[i]).index != (#[trigger] game.cells@[j]).index by {
                lemma_position_index(w, h, i);
                lemma_position_index(w, h, j);
            }
        }
        game
    }

    /// The cell at (index_x, index_y), or `None` when that position is off the grid.
    pub fn cell_at_index(&self, index_x: i32, index_y: i32) -> (r: Option<&GolCell>)
        requires
            self.wf(),
        ensures
            match r {
                Some(c) => in_bounds(self.width(), self.height(), index_x as int, index_y as int)
                    && *c == self.cells@[index_of(self.width(), index_x as int, index_y as int)],
                None => !in_bounds(self.width(), self.height(), index_x as int, index_y as int),
            },
    {
        match self.position_index(index_x, index_y) {
            Some(i) => {
                proof {
                    lemma_index_in_grid(self.width(), self.height(), index_x as int, index_y as int);
                }
                Some(&self.cells[i])
            },
            None => None,
        }
    }

    /// Advances the grid by one generation: every cell's next state is
    /// computed from the current states first, and only then written.
    pub fn iteration(&mut self)
        requires
            old(self).wf(),
        ensures
            final(self).wf(),
            final(self).cells_counts == old(self).cells_counts,
            final(self).cells@.len() == old(self).cells@.len(),
            final(self).states() == step(old(self).width(), old(self).height(), old(self).states()),
    {
        let ghost w = self.width();
        let ghost h = self.height();
        let ghost s = self.states();
        let n = self.cells.len();
        let mut next_state: Vec<bool> = Vec::new();
        for i in 0..n
            invariant
                self.wf(),
                w == self.width(),
                h == self.height(),
                s == self.states(),
                n == self.cells@.len(),
                next_state@.len() == i,
                forall|j: int| 0 <= j < i ==> next_state@[j] == #[trigger] step(w, h, s)[j],
        {
            let cell = &self.cells[i];
            proof {
                lemma_position_index(w, h, i as int);
                lemma_neighbors_upto(s, w, h, i as int % w, i as int / w, 9);
            }
            let count = cell.neighbors_alive(&self.cells);
            next_state.push(
                match count {
                    2 => cell.alive,
                    3 => true,
                    _ => false,
                },
            );
        }
        for i in 0..n
            invariant
                self.cells_counts == old(self).cells_counts,
                n == self.cells@.len(),
                n == old(self).cells@.len(),
                next_state@.len() == n,
                forall|j: int|
                    0 <= j < n ==> (#[trigger] self.cells@[j]).index == old(self).cells@[j].index
                        && self.cells@[j].neighbors == old(self).cells@[j].neighbors,
                forall|j: int| 0 <= j < i ==> (#[trigger] self.cells@[j]).alive == next_state@[j],
        {
            self.cells[i].alive = next_state[i];
        }
        proof {
            assert(self.states() =~= step(w, h, s));
        }
    }

    /// The row-major index of (x, y), or `None` when it is off the grid.
    fn position_index(&self, x: i32, y: i32) -> (r: Option<usize>)
        requires
            dims_fit(self.width(), self.height()),
        ensures
            r == if in_bounds(self.width(), self.height(), x as int, y as int) {
                Some(index_of(self.width(), x as int, y as int) as usize)
            } else {
                None::<usize>
            },
    {
        if x < 0 || y < 0 || x >= self.cells_counts.0 as i32 || y >= self.cells_counts.1 as i32 {
            None
        } else {
            proof {
                lemma_index_in_grid(self.width(), self.height(), x as int, y as int);
                assert(self.width() * y == y * self.width()) by (nonlinear_arith);
            }
            Some((self.cells_counts.0 * (y as u32) + x as u32) as usize)
        }
    }

    /// The row-major positions of the neighbors of (x, y), in the order of `offsets`.
    fn neighbors_of(&self, x: u32, y: u32, offsets: &Vec<(i32, i32)>) -> (r: Vec<usize>)
        requires
            dims_fit(self.width(), self.height()),
            in_bounds(self.width(), self.height(), x as int, y as int),
            offsets@ == unit_square(),
        ensures
            r@ == adjacent_indices(self.width(), self.height(), x as int, y as int),
    {
        let ghost w = self.width();
        let ghost h = self.height();
        let mut r: Vec<usize> = Vec::new();
        for k in 0..offsets.len()
            invariant
                dims_fit(w, h),
                w == self.width(),
                h == self.height(),
                in_bounds(w, h, x as int, y as int),
                offsets@ == unit_square(),
                r@ == neighbors_upto(w, h, x as int, y as int, k as nat),
        {
            let (dx, dy) = offsets[k];
            if dx != 0 || dy != 0 {
                if let Some(j) = self.position_index(x as i32 + dx, y as i32 + dy) {
                    r.push(j);
                }
            }
        }
        r
    }

    /// Links every cell to its in-bounds 8-connected neighbors.
    fn populate_neighbors(&mut self)
        requires
            dims_fit(old(self).width(), old(self).height()),
            old(self).cells@.len() == old(self).width() * old(self).height(),
            forall|i: int|
                0 <= i < old(self).cells@.len() ==> (#[trigger] old(self).cells@[i]).index == ((i
                    % old(self).width()) as u32, (i / old(self).width()) as u32),
        ensures
            final(self).wf(),
            final(self).cells_counts == old(self).cells_counts,
            final(self).cells@.len() == old(self).cells@.len(),
            forall|i: int|
                0 <= i < old(self).cells@.len() ==> (#[trigger] final(self).cells@[i]).alive == old(
                    self,
                ).cells@[i].alive,
    {
        let steps: Vec<i32> = vec![-1, 0, 1];
        let offsets = cartesian_pairs(&steps, &steps);
        proof {
            assert(steps@ == seq![-1i32, 0i32, 1i32]);
            assert(offsets@.len() == 9) by (nonlinear_arith)
                requires
                    offsets@.len() == steps@.len() * steps@.len(),
                    steps@.len() == 3,
            ;
            assert(offsets@[0] == unit_square()[0]);
            assert(offsets@[1] == unit_square()[1]);
            assert(offsets@[2] == unit_square()[2]);
            assert(offsets@[3] == unit_square()[3]);
            assert(offsets@[4] == unit_square()[4]);
            assert(offsets@[5] == unit_square()[5]);
            assert(offsets@[6] == unit_square()[6]);
            assert(offsets@[7] == unit_square()[7]);
            assert(offsets@[8] == unit_square()[8]);
            assert(offsets@ =~= unit_square());
        }
        let ghost w = self.width();
        let ghost h = self.height();
        let n = self.cells.len();
        for i in 0..n
            invariant
                self.cells_counts == old(self).cells_counts,
                w == self.width(),
                h == self.height(),
                dims_fit(w, h),
                n == w * h,
                self.cells@.len() == n,
                old(self).cells@.len() == n,
                forall|j: int|
                    0 <= j < n ==> (#[trigger] old(self).cells@[j]).index == ((j % w) as u32, (j
                        / w) as u32),
                offsets@ == unit_square(),
                forall|j: int|
                    0 <= j < n ==> (#[trigger] self.cells@[j]).index == old(self).cells@[j].index
                        && self.cells@[j].alive == old(self).cells@[j].alive,
                forall|j: int|
                    0 <= j < i ==> (#[trigger] self.cells@[j]).neighbors@ == adjacent_indices(
                        w,
                        h,
                        j % w,
                        j / w,
                    ),
        {
            let (x, y) = self.cells[i].index;
            proof {
                lemma_position_index(w, h, i as int);
                assert(x as int == i as int % w && y as int == i as int / w);
            }
            let nb = self.neighbors_of(x, y, &offsets);
            self.cells[i].neighbors = nb;
        }
    }
}

} // verus!
