use gameoflife::gameoflife::{Game, GolCell};

fn idx(game: &Game, x: u32, y: u32) -> usize {
    (y * game.cells_counts.0 + x) as usize
}

fn set_alive(game: &mut Game, cells: &[(u32, u32)]) {
    for &(x, y) in cells {
        let i = idx(game, x, y);
        game.cells[i].alive = true;
    }
}

fn alive_positions(game: &Game) -> Vec<(u32, u32)> {
    game.cells.iter().filter(|c| c.alive).map(|c| c.index).collect()
}

fn states(game: &Game) -> Vec<bool> {
    game.cells.iter().map(|c| c.alive).collect()
}

#[test]
fn new_cell_is_dead_and_unlinked() {
    let c = GolCell::new(4, 7);
    assert_eq!(c.index, (4, 7));
    assert!(!c.alive);
    assert!(c.neighbors.is_empty());
}

#[test]
fn new_grid_positions_row_major_each_once() {
    let game = Game::new(4, 3);
    assert_eq!(game.cells.len(), 12);
    assert_eq!(game.cells_counts, (4, 3));
    for y in 0..3u32 {
        for x in 0..4u32 {
            let c = &game.cells[(y * 4 + x) as usize];
            assert_eq!(c.index, (x, y));
            assert!(!c.alive);
            let n = game.cells.iter().filter(|d| d.index == (x, y)).count();
            assert_eq!(n, 1);
        }
    }
}

#[test]
fn neighbor_counts_interior_edge_corner() {
    let game = Game::new(4, 3);
    let count = |x: u32, y: u32| game.cells[(y * 4 + x) as usize].neighbors.len();
    assert_eq!(count(0, 0), 3);
    assert_eq!(count(3, 0), 3);
    assert_eq!(count(0, 2), 3);
    assert_eq!(count(3, 2), 3);
    assert_eq!(count(1, 0), 5);
    assert_eq!(count(0, 1), 5);
    assert_eq!(count(3, 1), 5);
    assert_eq!(count(2, 2), 5);
    assert_eq!(count(1, 1), 8);
    assert_eq!(count(2, 1), 8);
}

#[test]
fn neighbor_lists_in_offset_order() {
    let game = Game::new(3, 3);
    assert_eq!(game.cells[0].neighbors, vec![3, 1, 4]);
    assert_eq!(game.cells[4].neighbors, vec![0, 3, 6, 1, 7, 2, 5, 8]);
    assert_eq!(game.cells[5].neighbors, vec![1, 4, 7, 2, 8]);
}

#[test]
fn neighbor_lists_never_hold_the_cell_itself_or_repeats() {
    let game = Game::new(5, 4);
    for (i, c) in game.cells.iter().enumerate() {
        assert!(!c.neighbors.contains(&i));
        let mut sorted = c.neighbors.clone();
        sorted.sort();
        sorted.dedup();
        assert_eq!(sorted.len(), c.neighbors.len());
    }
}

#[test]
fn single_row_and_column_grids() {
    let game = Game::new(3, 1);
    assert_eq!(game.cells[0].neighbors, vec![1]);
    assert_eq!(game.cells[1].neighbors, vec![0, 2]);
    let game = Game::new(1, 1);
    assert!(game.cells[0].neighbors.is_empty());
}

#[test]
fn empty_grid_has_no_cells() {
    let mut game = Game::new(0, 5);
    assert!(game.cells.is_empty());
    game.iteration();
    assert!(game.cells.is_empty());
    assert!(game.cell_at_index(0, 0).is_none());
}

#[test]
fn cell_at_index_in_and_out_of_bounds() {
    let game = Game::new(4, 3);
    assert_eq!(game.cell_at_index(2, 1).map(|c| c.index), Some((2, 1)));
    assert_eq!(game.cell_at_index(3, 2).map(|c| c.index), Some((3, 2)));
    assert_eq!(game.cell_at_index(0, 0).map(|c| c.index), Some((0, 0)));
    assert!(game.cell_at_index(-1, 0).is_none());
    assert!(game.cell_at_index(0, -1).is_none());
    assert!(game.cell_at_index(4, 0).is_none());
    assert!(game.cell_at_index(0, 3).is_none());
}

#[test]
fn neighbors_alive_counts_current_states() {
    let mut game = Game::new(3, 3);
    set_alive(&mut game, &[(0, 0), (1, 0), (2, 2), (1, 1)]);
    assert_eq!(game.cells[4].neighbors_alive(&game.cells), 3);
    assert_eq!(game.cells[0].neighbors_alive(&game.cells), 2);
    assert_eq!(game.cells[8].neighbors_alive(&game.cells), 1);
    game.cells[0].alive = false;
    assert_eq!(game.cells[4].neighbors_alive(&game.cells), 2);
}

#[test]
fn iteration_is_deterministic() {
    let pattern = [(1, 1), (2, 1), (3, 2), (0, 3), (2, 3), (4, 4)];
    let mut a = Game::new(6, 5);
    let mut b = Game::new(6, 5);
    set_alive(&mut a, &pattern);
    set_alive(&mut b, &pattern);
    a.iteration();
    b.iteration();
    assert_eq!(states(&a), states(&b));
    a.iteration();
    b.iteration();
    assert_eq!(states(&a), states(&b));
}

#[test]
fn block_is_a_still_life() {
    let mut game = Game::new(6, 6);
    set_alive(&mut game, &[(2, 2), (3, 2), (2, 3), (3, 3)]);
    let before = states(&game);
    game.iteration();
    assert_eq!(states(&game), before);
    game.iteration();
    assert_eq!(states(&game), before);
}

#[test]
fn block_in_corner_is_a_still_life() {
    let mut game = Game::new(4, 4);
    set_alive(&mut game, &[(0, 0), (1, 0), (0, 1), (1, 1)]);
    let before = states(&game);
    game.iteration();
    assert_eq!(states(&game), before);
}

#[test]
fn blinker_oscillates() {
    let mut game = Game::new(5, 5);
    set_alive(&mut game, &[(1, 3), (2, 3), (3, 3)]);
    game.iteration();
    assert_eq!(alive_positions(&game), vec![(2, 2), (2, 3), (2, 4)]);
    game.iteration();
    assert_eq!(alive_positions(&game), vec![(1, 3), (2, 3), (3, 3)]);
}

#[test]
fn isolated_cell_dies() {
    let mut game = Game::new(5, 5);
    set_alive(&mut game, &[(2, 2)]);
    assert_eq!(game.cells[12].neighbors_alive(&game.cells), 0);
    game.iteration();
    assert!(alive_positions(&game).is_empty());
}

#[test]
fn dead_cell_with_three_neighbors_is_born() {
    let mut game = Game::new(5, 5);
    set_alive(&mut game, &[(1, 1), (3, 1), (2, 3)]);
    game.iteration();
    assert!(game.cells[12].alive);
}

#[test]
fn dead_cell_with_two_neighbors_stays_dead() {
    let mut game = Game::new(5, 5);
    set_alive(&mut game, &[(1, 1), (3, 3)]);
    game.iteration();
    assert!(!game.cells[12].alive);
}

#[test]
fn dead_cell_with_four_neighbors_stays_dead() {
    let mut game = Game::new(5, 5);
    set_alive(&mut game, &[(1, 1), (3, 1), (1, 3), (3, 3)]);
    game.iteration();
    assert!(!game.cells[12].alive);
}

#[test]
fn live_cell_survives_with_two_or_three_and_dies_otherwise() {
    let mut game = Game::new(5, 5);
    set_alive(&mut game, &[(2, 2), (1, 1), (3, 3)]);
    game.iteration();
    assert!(game.cells[12].alive);

    let mut game = Game::new(5, 5);
    set_alive(&mut game, &[(2, 2), (1, 1), (3, 1), (1, 3), (3, 3)]);
    game.iteration();
    assert!(!game.cells[12].alive);

    let mut game = Game::new(5, 5);
    set_alive(&mut game, &[(2, 2), (1, 1)]);
    game.iteration();
    assert!(!game.cells[12].alive);
}

#[test]
fn no_wrap_around_at_edges() {
    let mut game = Game::new(5, 5);
    set_alive(&mut game, &[(0, 1), (0, 2), (0, 3)]);
    game.iteration();
    assert_eq!(alive_positions(&game), vec![(0, 2), (1, 2)]);
    assert!(!game.cells[idx(&game, 4, 2)].alive);
}
