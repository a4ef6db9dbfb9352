//! The mathematical model of the game: positions on a bounded grid, the
//! 8-connected neighborhood, and one generation of the birth/survival rule.

use vstd::prelude::*;

verus! {

/// Whether (x, y) lies on a grid of `w` columns and `h` rows.
pub open spec fn in_bounds(w: int, h: int, x: int, y: int) -> bool {
    0 <= x < w && 0 <= y < h
}

/// Row-major position of (x, y) on a grid of `w` columns.
pub open spec fn index_of(w: int, x: int, y: int) -> int {
    y * w + x
}

/// The nine offsets of {-1, 0, 1} x {-1, 0, 1}, horizontal component first.
pub open spec fn unit_square() -> Seq<(i32, i32)> {
    seq![
        (-1i32, -1i32),
        (-1i32, 0i32),
        (-1i32, 1i32),
        (0i32, -1i32),
        (0i32, 0i32),
        (0i32, 1i32),
        (1i32, -1i32),
        (1i32, 0i32),
        (1i32, 1i32),
    ]
}

/// Whether the `k`-th offset of `unit_square` leads from (x, y) to another
/// position of the grid.
pub open spec fn offset_reaches(w: int, h: int, x: int, y: int, k: int) -> bool {
    let (dx, dy) = unit_square()[k];
    (dx != 0 || dy != 0) && in_bounds(w, h, x + dx, y + dy)
}

/// Row-major positions of the neighbors of (x, y) that the first `k` offsets
/// of `unit_square` reach, in that order.
pub open spec fn neighbors_upto(w: int, h: int, x: int, y: int, k: nat) -> Seq<usize>
    decreases k,
{
    if k == 0 || k > 9 {
        seq![]
    } else {
        let prev = neighbors_upto(w, h, x, y, (k - 1) as nat);
        let (dx, dy) = unit_square()[k - 1];
        if offset_reaches(w, h, x, y, k - 1) {
            prev.push(index_of(w, x + dx, y + dy) as usize)
        } else {
            prev
        }
    }
}

/// Row-major positions of all in-bounds 8-connected neighbors of (x, y).
pub open spec fn adjacent_indices(w: int, h: int, x: int, y: int) -> Seq<usize> {
    neighbors_upto(w, h, x, y, 9)
}

/// Whether (x, y) is on the grid and alive in the row-major state `s`.
pub open spec fn alive_at(s: Seq<bool>, w: int, h: int, x: int, y: int) -> bool {
    in_bounds(w, h, x, y) && s[index_of(w, x, y)]
}

/// How many of the positions that the first `k` offsets reach from (x, y) are alive.
pub open spec fn live_upto(s: Seq<bool>, w: int, h: int, x: int, y: int, k: nat) -> int
    decreases k,
{
    if k == 0 || k > 9 {
        0
    } else {
        let (dx, dy) = unit_square()[k - 1];
        live_upto(s, w, h, x, y, (k - 1) as nat) + if (dx != 0 || dy != 0) && alive_at(
            s,
            w,
            h,
            x + dx,
            y + dy,
        ) {
            1int
        } else {
            0int
        }
    }
}

/// The number of alive 8-connected neighbors of (x, y); no wrap-around.
pub open spec fn live_neighbors(s: Seq<bool>, w: int, h: int, x: int, y: int) -> int {
    live_upto(s, w, h, x, y, 9)
}

/// 1 for true, 0 for false.
pub open spec fn one_if(b: bool) -> int {
    if b {
        1
    } else {
        0
    }
}

/// The number of the eight positions around (x, y) that lie on the grid and
/// satisfy `p`.
pub open spec fn count_around(p: spec_fn(int, int) -> bool, w: int, h: int, x: int, y: int) -> int {
    let at = |a: int, b: int| one_if(in_bounds(w, h, a, b) && p(a, b));
    at(x - 1, y - 1) + at(x - 1, y) + at(x - 1, y + 1) + at(x, y - 1) + at(x, y + 1) + at(
        x + 1,
        y - 1,
    ) + at(x + 1, y) + at(x + 1, y + 1)
}

/// The rule: two alive neighbors keep the state, three make the cell alive,
/// any other count makes it dead.
pub open spec fn next_alive(alive: bool, n: int) -> bool {
    if n == 2 {
        alive
    } else {
        n == 3
    }
}

/// One generation of a row-major state of a grid with `w` columns and `h` rows.
pub open spec fn step(w: int, h: int, s: Seq<bool>) -> Seq<bool> {
    Seq::new(s.len(), |i: int| next_alive(s[i], live_neighbors(s, w, h, i % w, i / w)))
}

/// How many of the positions `nbrs` are alive in `s`.
pub open spec fn count_alive(s: Seq<bool>, nbrs: Seq<usize>) -> int
    decreases nbrs.len(),
{
    if nbrs.len() == 0 {
        0
    } else {
        count_alive(s, nbrs.drop_last()) + if s[nbrs.last() as int] {
            1int
        } else {
            0int
        }
    }
}

/// Appending a position adds one to the count exactly when it is alive.
pub proof fn lemma_count_alive_push(s: Seq<bool>, nbrs: Seq<usize>, i: usize)
    ensures
        count_alive(s, nbrs.push(i)) == count_alive(s, nbrs) + if s[i as int] {
            1int
        } else {
            0int
        },
{
    assert(nbrs.push(i).drop_last() =~= nbrs);
}

/// The count lies between zero and the number of positions counted.
pub proof fn lemma_count_alive_bounds(s: Seq<bool>, nbrs: Seq<usize>)
    ensures
        0 <= count_alive(s, nbrs) <= nbrs.len(),
    decreases nbrs.len(),
{
    if nbrs.len() > 0 {
        lemma_count_alive_bounds(s, nbrs.drop_last());
    }
}

/// A position on the grid has a row-major index inside the grid.
pub proof fn lemma_index_in_grid(w: int, h: int, x: int, y: int)
    requires
        in_bounds(w, h, x, y),
    ensures
        0 <= index_of(w, x, y) < w * h,
{
    assert(0 <= y * w) by (nonlinear_arith)
        requires
            0 <= y,
            0 < w,
    ;
    assert(y * w + x < w * h) by (nonlinear_arith)
        requires
            0 <= x < w,
            0 <= y < h,
    ;
}

/// The row-major index of a position gives back its column and row.
pub proof fn lemma_index_position(w: int, x: int, y: int)
    requires
        0 <= x < w,
        0 <= y,
    ensures
        index_of(w, x, y) % w == x,
        index_of(w, x, y) / w == y,
{
    vstd::arithmetic::div_mod::lemma_fundamental_div_mod_converse(index_of(w, x, y), w, y, x);
}

/// Each index of the grid is the row-major index of its column and row.
pub proof fn lemma_position_index(w: int, h: int, i: int)
    requires
        0 <= w,
        0 <= h,
        0 <= i < w * h,
    ensures
        in_bounds(w, h, i % w, i / w),
        index_of(w, i % w, i / w) == i,
{
    assert(w > 0) by (nonlinear_arith)
        requires
            0 <= w,
            0 <= h,
            0 <= i < w * h,
    ;
    vstd::arithmetic::div_mod::lemma_fundamental_div_mod(i, w);
    assert(w * (i / w) == (i / w) * w) by (nonlinear_arith);
    assert(i / w < h) by (nonlinear_arith)
        requires
            w > 0,
            i < w * h,
            i == w * (i / w) + i % w,
            0 <= i % w,
    ;
    assert(0 <= i / w) by (nonlinear_arith)
        requires
            w > 0,
            0 <= i,
            i == w * (i / w) + i % w,
            i % w < w,
    ;
}

/// Every neighbor position lies inside the grid, and counting the alive ones
/// among them gives the alive count of the same offsets.
pub proof fn lemma_neighbors_upto(s: Seq<bool>, w: int, h: int, x: int, y: int, k: nat)
    requires
        k <= 9,
        w * h <= u32::MAX,
    ensures
        forall|m: int|
            0 <= m < neighbors_upto(w, h, x, y, k).len() ==> (#[trigger] neighbors_upto(
                w,
                h,
                x,
                y,
                k,
            )[m] as int) < w * h,
        count_alive(s, neighbors_upto(w, h, x, y, k)) == live_upto(s, w, h, x, y, k),
    decreases k,
{
    if k > 0 {
        lemma_neighbors_upto(s, w, h, x, y, (k - 1) as nat);
        let prev = neighbors_upto(w, h, x, y, (k - 1) as nat);
        let (dx, dy) = unit_square()[k - 1];
        if offset_reaches(w, h, x, y, k - 1) {
            lemma_index_in_grid(w, h, x + dx, y + dy);
            let j = index_of(w, x + dx, y + dy) as usize;
            assert(j as int == index_of(w, x + dx, y + dy));
            lemma_count_alive_push(s, prev, j);
        }
    }
}

/// The next state of the cell at (x, y) follows the rule from its current
/// state and its alive neighbors.
pub proof fn lemma_step_at(w: int, h: int, s: Seq<bool>, x: int, y: int)
    requires
        s.len() == w * h,
        in_bounds(w, h, x, y),
    ensures
        step(w, h, s)[index_of(w, x, y)] == next_alive(
            s[index_of(w, x, y)],
            live_neighbors(s, w, h, x, y),
        ),
{
    lemma_index_in_grid(w, h, x, y);
    lemma_index_position(w, x, y);
}

/// Where a state holds exactly the positions that satisfy `p`, the alive
/// neighbors of a cell are its neighbors that satisfy `p`.
pub proof fn lemma_live_neighbors_pattern(
    s: Seq<bool>,
    w: int,
    h: int,
    p: spec_fn(int, int) -> bool,
    x: int,
    y: int,
)
    requires
        forall|a: int, b: int| in_bounds(w, h, a, b) ==> s[index_of(w, a, b)] == p(a, b),
    ensures
        live_neighbors(s, w, h, x, y) == count_around(p, w, h, x, y),
{
    reveal_with_fuel(live_upto, 10);
    assert(alive_at(s, w, h, x - 1, y - 1) == (in_bounds(w, h, x - 1, y - 1) && p(x - 1, y - 1)));
    assert(alive_at(s, w, h, x - 1, y) == (in_bounds(w, h, x - 1, y) && p(x - 1, y)));
    assert(alive_at(s, w, h, x - 1, y + 1) == (in_bounds(w, h, x - 1, y + 1) && p(x - 1, y + 1)));
    assert(alive_at(s, w, h, x, y - 1) == (in_bounds(w, h, x, y - 1) && p(x, y - 1)));
    assert(alive_at(s, w, h, x, y + 1) == (in_bounds(w, h, x, y + 1) && p(x, y + 1)));
    assert(alive_at(s, w, h, x + 1, y - 1) == (in_bounds(w, h, x + 1, y - 1) && p(x + 1, y - 1)));
    assert(alive_at(s, w, h, x + 1, y) == (in_bounds(w, h, x + 1, y) && p(x + 1, y)));
    assert(alive_at(s, w, h, x + 1, y + 1) == (in_bounds(w, h, x + 1, y + 1) && p(x + 1, y + 1)));
}

/// Lexicographic order on offsets, horizontal component first: the order of
/// `unit_square`.
pub open spec fn offset_le(a: (int, int), b: (int, int)) -> bool {
    a.0 < b.0 || (a.0 == b.0 && a.1 <= b.1)
}

/// Whether the row-major index `v` names a position that is on the grid, is
/// one step from (x, y) in each direction at most, and is not (x, y) itself;
/// `bound` is the greatest offset, in `offset_le` order, that it may lie at.
pub open spec fn is_neighbor_index(
    w: int,
    h: int,
    x: int,
    y: int,
    v: int,
    bound: (int, int),
) -> bool {
    let (a, b) = (v % w, v / w);
    &&& in_bounds(w, h, a, b)
    &&& index_of(w, a, b) == v
    &&& (a, b) != (x, y)
    &&& -1 <= a - x <= 1
    &&& -1 <= b - y <= 1
    &&& offset_le((a - x, b - y), bound)
}

/// The first `k` offsets give distinct proper neighbors, each at an offset no
/// greater than the last one tried.
proof fn lemma_neighbors_upto_proper(w: int, h: int, x: int, y: int, k: nat)
    requires
        in_bounds(w, h, x, y),
        w * h <= u32::MAX,
        1 <= k <= 9,
    ensures
        neighbors_upto(w, h, x, y, k).no_duplicates(),
        forall|m: int|
            0 <= m < neighbors_upto(w, h, x, y, k).len() ==> is_neighbor_index(
                w,
                h,
                x,
                y,
                #[trigger] neighbors_upto(w, h, x, y, k)[m] as int,
                (unit_square()[k - 1].0 as int, unit_square()[k - 1].1 as int),
            ),
    decreases k,
{
    let prev = neighbors_upto(w, h, x, y, (k - 1) as nat);
    let (dx, dy) = unit_square()[k - 1];
    let bound = (dx as int, dy as int);
    if k > 1 {
        lemma_neighbors_upto_proper(w, h, x, y, (k - 1) as nat);
        let (pdx, pdy) = unit_square()[k - 2];
        assert(offset_le((pdx as int, pdy as int), bound) && (pdx, pdy) != (dx, dy));
        assert forall|m: int| 0 <= m < prev.len() implies is_neighbor_index(
            w,
            h,
            x,
            y,
            #[trigger] prev[m] as int,
            bound,
        ) by {
            let v = prev[m] as int;
            assert(is_neighbor_index(w, h, x, y, v, (pdx as int, pdy as int)));
        }
    } else {
        assert(prev.len() == 0);
    }
    if offset_reaches(w, h, x, y, k - 1) {
        let v = index_of(w, x + dx, y + dy);
        lemma_index_in_grid(w, h, x + dx, y + dy);
        lemma_index_position(w, x + dx, y + dy);
        assert(v as usize as int == v);
        assert(is_neighbor_index(w, h, x, y, v, bound));
        if k > 1 {
            let (pdx, pdy) = unit_square()[k - 2];
            assert forall|m: int| 0 <= m < prev.len() implies #[trigger] prev[m] != v as usize by {
                let u = prev[m] as int;
                assert(is_neighbor_index(w, h, x, y, u, (pdx as int, pdy as int)));
            }
        }
        let next = prev.push(v as usize);
        assert forall|m: int| 0 <= m < next.len() implies is_neighbor_index(
            w,
            h,
            x,
            y,
            #[trigger] next[m] as int,
            bound,
        ) by {
            if m < prev.len() {
                assert(next[m] == prev[m]);
            }
        }
    }
}

/// The neighbor list of a cell names each neighbor once, never the cell
/// itself, and only positions of the grid one step away from it.
pub proof fn lemma_adjacent_indices_proper(w: int, h: int, x: int, y: int)
    requires
        in_bounds(w, h, x, y),
        w * h <= u32::MAX,
    ensures
        adjacent_indices(w, h, x, y).no_duplicates(),
        !adjacent_indices(w, h, x, y).contains(index_of(w, x, y) as usize),
        forall|m: int|
            0 <= m < adjacent_indices(w, h, x, y).len() ==> is_neighbor_index(
                w,
                h,
                x,
                y,
                #[trigger] adjacent_indices(w, h, x, y)[m] as int,
                (1, 1),
            ),
{
    lemma_neighbors_upto_proper(w, h, x, y, 9);
    lemma_index_position(w, x, y);
    let adj = adjacent_indices(w, h, x, y);
    if adj.contains(index_of(w, x, y) as usize) {
        let m = choose|m: int| 0 <= m < adj.len() && adj[m] == index_of(w, x, y) as usize;
        assert(is_neighbor_index(w, h, x, y, adj[m] as int, (1, 1)));
        lemma_index_in_grid(w, h, x, y);
    }
}

/// Two states of a grid that agree at every position are equal.
pub proof fn lemma_states_equal(w: int, h: int, a: Seq<bool>, b: Seq<bool>)
    requires
        0 <= w,
        0 <= h,
        a.len() == w * h,
        b.len() == w * h,
        forall|x: int, y: int| in_bounds(w, h, x, y) ==> a[index_of(w, x, y)] == b[index_of(w, x, y)],
    ensures
        a == b,
{
    assert forall|i: int| 0 <= i < a.len() implies a[i] == b[i] by {
        lemma_position_index(w, h, i);
    }
    assert(a =~= b);
}

} // verus!
