//! Properties of the rule and of the neighborhood, stated over the model.

use vstd::prelude::*;

use crate::gameoflife::Game;
use crate::rules::{
    adjacent_indices, in_bounds, index_of, lemma_states_equal, lemma_step_at, live_neighbors,
    lemma_adjacent_indices_proper, lemma_live_neighbors_pattern,
    lemma_position_index, neighbors_upto, step,
};

verus! {

/// On a grid of at least 3 x 3, an interior cell has 8 neighbors, a cell on
/// an edge but not in a corner has 5, and a corner cell has 3.
pub proof fn lemma_neighbor_count(w: int, h: int, x: int, y: int)
    requires
        w >= 3,
        h >= 3,
        in_bounds(w, h, x, y),
    ensures
        adjacent_indices(w, h, x, y).len() == if (x == 0 || x == w - 1) && (y == 0 || y == h
            - 1) {
            3int
        } else if x == 0 || x == w - 1 || y == 0 || y == h - 1 {
            5int
        } else {
            8int
        },
{
    reveal_with_fuel(neighbors_upto, 10);
}

/// In a well-formed grid no cell is its own neighbor and no neighbor is
/// listed twice.
pub proof fn lemma_grid_neighbors_proper(g: Game, i: int)
    requires
        g.wf(),
        0 <= i < g.cells@.len(),
    ensures
        g.cells@[i].neighbors@.no_duplicates(),
        !g.cells@[i].neighbors@.contains(i as usize),
{
    lemma_position_index(g.width(), g.height(), i);
    lemma_adjacent_indices_proper(g.width(), g.height(), i % g.width(), i / g.width());
}

/// A generation depends on nothing but the dimensions and the alive flags:
/// two well-formed grids that agree on those step to the same states.
pub proof fn lemma_step_determined(a: Game, b: Game)
    requires
        a.wf(),
        b.wf(),
        a.cells_counts == b.cells_counts,
        a.states() == b.states(),
    ensures
        step(a.width(), a.height(), a.states()) == step(b.width(), b.height(), b.states()),
{
}

/// A 2 x 2 block of live cells, with every other cell dead, is unchanged by a
/// generation.
pub proof fn lemma_block_still_life(w: int, h: int, s: Seq<bool>, bx: int, by: int)
    requires
        s.len() == w * h,
        in_bounds(w, h, bx, by),
        in_bounds(w, h, bx + 1, by + 1),
        forall|x: int, y: int|
            in_bounds(w, h, x, y) ==> s[index_of(w, x, y)] == (bx <= x <= bx + 1 && by <= y <= by
                + 1),
    ensures
        step(w, h, s) == s,
{
    let block = |x: int, y: int| bx <= x <= bx + 1 && by <= y <= by + 1;
    assert forall|x: int, y: int| in_bounds(w, h, x, y) implies step(w, h, s)[index_of(
        w,
        x,
        y,
    )] == s[index_of(w, x, y)] by {
        lemma_step_at(w, h, s, x, y);
        lemma_live_neighbors_pattern(s, w, h, block, x, y);
    }
    lemma_states_equal(w, h, step(w, h, s), s);
}

/// Three live cells in a row, centred at (cx, cy), with every other cell
/// dead, become three live cells in a column centred at the same cell.
pub proof fn lemma_blinker_turns_vertical(w: int, h: int, s: Seq<bool>, cx: int, cy: int)
    requires
        s.len() == w * h,
        1 <= cx,
        cx + 1 < w,
        1 <= cy,
        cy + 1 < h,
        forall|x: int, y: int|
            in_bounds(w, h, x, y) ==> s[index_of(w, x, y)] == (y == cy && cx - 1 <= x <= cx + 1),
    ensures
        forall|x: int, y: int|
            in_bounds(w, h, x, y) ==> step(w, h, s)[index_of(w, x, y)] == (x == cx && cy - 1 <= y
                <= cy + 1),
{
    let row = |x: int, y: int| y == cy && cx - 1 <= x <= cx + 1;
    assert forall|x: int, y: int| in_bounds(w, h, x, y) implies step(w, h, s)[index_of(
        w,
        x,
        y,
    )] == (x == cx && cy - 1 <= y <= cy + 1) by {
        lemma_step_at(w, h, s, x, y);
        lemma_live_neighbors_pattern(s, w, h, row, x, y);
    }
}

/// Three live cells in a column, centred at (cx, cy), with every other cell
/// dead, become three live cells in a row centred at the same cell.
pub proof fn lemma_blinker_turns_horizontal(w: int, h: int, s: Seq<bool>, cx: int, cy: int)
    requires
        s.len() == w * h,
        1 <= cx,
        cx + 1 < w,
        1 <= cy,
        cy + 1 < h,
        forall|x: int, y: int|
            in_bounds(w, h, x, y) ==> s[index_of(w, x, y)] == (x == cx && cy - 1 <= y <= cy + 1),
    ensures
        forall|x: int, y: int|
            in_bounds(w, h, x, y) ==> step(w, h, s)[index_of(w, x, y)] == (y == cy && cx - 1 <= x
                <= cx + 1),
{
    let column = |x: int, y: int| x == cx && cy - 1 <= y <= cy + 1;
    assert forall|x: int, y: int| in_bounds(w, h, x, y) implies step(w, h, s)[index_of(
        w,
        x,
        y,
    )] == (y == cy && cx - 1 <= x <= cx + 1) by {
        lemma_step_at(w, h, s, x, y);
        lemma_live_neighbors_pattern(s, w, h, column, x, y);
    }
}

/// The blinker oscillates with period two: a horizontal row of three live
/// cells becomes a vertical column after one generation and the same row
/// again after the second.
pub proof fn lemma_blinker_period_two(w: int, h: int, s: Seq<bool>, cx: int, cy: int)
    requires
        s.len() == w * h,
        1 <= cx,
        cx + 1 < w,
        1 <= cy,
        cy + 1 < h,
        forall|x: int, y: int|
            in_bounds(w, h, x, y) ==> s[index_of(w, x, y)] == (y == cy && cx - 1 <= x <= cx + 1),
    ensures
        forall|x: int, y: int|
            in_bounds(w, h, x, y) ==> step(w, h, s)[index_of(w, x, y)] == (x == cx && cy - 1 <= y
                <= cy + 1),
        step(w, h, step(w, h, s)) == s,
{
    lemma_blinker_turns_vertical(w, h, s, cx, cy);
    lemma_blinker_turns_horizontal(w, h, step(w, h, s), cx, cy);
    lemma_states_equal(w, h, step(w, h, step(w, h, s)), s);
}

/// A cell without alive neighbors is dead after a generation, whether it was
/// alive or not.
pub proof fn lemma_isolated_cell_dies(w: int, h: int, s: Seq<bool>, x: int, y: int)
    requires
        s.len() == w * h,
        in_bounds(w, h, x, y),
        live_neighbors(s, w, h, x, y) == 0,
    ensures
        !step(w, h, s)[index_of(w, x, y)],
{
    lemma_step_at(w, h, s, x, y);
}

/// A dead cell with exactly three alive neighbors is born; with two or four it
/// stays dead.
pub proof fn lemma_birth(w: int, h: int, s: Seq<bool>, x: int, y: int)
    requires
        s.len() == w * h,
        in_bounds(w, h, x, y),
        !s[index_of(w, x, y)],
    ensures
        live_neighbors(s, w, h, x, y) == 3 ==> step(w, h, s)[index_of(w, x, y)],
        live_neighbors(s, w, h, x, y) == 2 ==> !step(w, h, s)[index_of(w, x, y)],
        live_neighbors(s, w, h, x, y) == 4 ==> !step(w, h, s)[index_of(w, x, y)],
{
    lemma_step_at(w, h, s, x, y);
}

} // verus!
