use matgol::grid::MatGol;
use matgol::life::next;

fn grid_from(rows: usize, cols: usize, alive: &[(usize, usize)]) -> MatGol {
    let mut grid = MatGol::empty(rows, cols);
    for &(row, col) in alive {
        grid = grid.live(row, col);
    }
    grid
}

#[test]
fn block_is_a_still_life() {
    let block = grid_from(4, 4, &[(1, 1), (1, 2), (2, 1), (2, 2)]);
    let after = next(block.clone());
    assert_eq!(after, block);
    assert_eq!(after.matrix, vec![0, 0, 0, 0, 0, 1, 1, 0, 0, 1, 1, 0, 0, 0, 0, 0]);
}

#[test]
fn dead_cell_with_three_live_neighbours_is_born() {
    let grid = grid_from(3, 3, &[(0, 0), (0, 1), (1, 0)]);
    assert_eq!(grid.at(1, 1), 0);
    let after = next(grid);
    assert_eq!(after.at(1, 1), 1);
    assert_eq!(after.matrix, vec![1, 1, 0, 1, 1, 0, 0, 0, 0]);
}

#[test]
fn nothing_is_born_on_a_dead_grid() {
    let after = next(MatGol::empty(6, 9));
    assert_eq!(after, MatGol::empty(6, 9));
    assert_eq!(after.matrix, vec![0u8; 54]);
}

#[test]
fn isolated_cell_dies() {
    let grid = grid_from(5, 5, &[(2, 2)]);
    let after = next(grid);
    assert_eq!(after.at(2, 2), 0);
    assert_eq!(after, MatGol::empty(5, 5));
}

#[test]
fn cell_with_one_live_neighbour_dies() {
    let after = next(grid_from(5, 5, &[(2, 2), (2, 3)]));
    assert_eq!(after, MatGol::empty(5, 5));
}

#[test]
fn cell_with_four_live_neighbours_dies() {
    let plus = grid_from(3, 3, &[(0, 1), (1, 0), (1, 1), (1, 2), (2, 1)]);
    let after = next(plus);
    assert_eq!(after.at(1, 1), 0);
    assert_eq!(after.matrix, vec![1, 1, 1, 1, 0, 1, 1, 1, 1]);
}

#[test]
fn cell_with_eight_live_neighbours_dies() {
    let mut full = MatGol::empty(3, 3);
    for row in 0..3 {
        for col in 0..3 {
            full = full.live(row, col);
        }
    }
    let after = next(full);
    assert_eq!(after.matrix, vec![1, 0, 1, 0, 0, 0, 1, 0, 1]);
}

#[test]
fn cell_with_two_live_neighbours_survives_and_none_is_born() {
    let diagonal = grid_from(3, 3, &[(0, 0), (1, 1), (2, 2)]);
    let after = next(diagonal);
    assert_eq!(after.matrix, vec![0, 0, 0, 0, 1, 0, 0, 0, 0]);
}

#[test]
fn blinker_turns_and_turns_back() {
    let flat = grid_from(5, 5, &[(2, 1), (2, 2), (2, 3)]);
    let upright = grid_from(5, 5, &[(1, 2), (2, 2), (3, 2)]);
    let once = next(flat.clone());
    assert_eq!(once, upright);
    let twice = next(once);
    assert_eq!(twice, flat);
}

#[test]
fn blinker_against_the_border_sees_dead_cells_outside() {
    let flat = grid_from(3, 3, &[(0, 0), (0, 1), (0, 2)]);
    let after = next(flat);
    assert_eq!(after.matrix, vec![0, 1, 0, 0, 1, 0, 0, 0, 0]);
}

#[test]
fn glider_takes_its_next_shape() {
    let glider = grid_from(51, 80, &[(4, 13), (5, 14), (6, 12), (6, 13), (6, 14)]);
    let expected = grid_from(51, 80, &[(5, 12), (5, 14), (6, 13), (6, 14), (7, 13)]);
    assert_eq!(next(glider), expected);
}

#[test]
fn glider_moves_one_cell_down_and_right_in_four_steps() {
    let mut grid = grid_from(12, 12, &[(1, 2), (2, 3), (3, 1), (3, 2), (3, 3)]);
    for _ in 0..4 {
        grid = next(grid);
    }
    assert_eq!(grid, grid_from(12, 12, &[(2, 3), (3, 4), (4, 2), (4, 3), (4, 4)]));
}

#[test]
fn next_keeps_the_dimensions() {
    let after = next(grid_from(3, 7, &[(1, 1), (1, 2), (1, 3)]));
    assert_eq!((after.rows, after.cols), (3, 7));
    assert_eq!(after.matrix.len(), 21);
    assert!(after.is_well_formed());
}

#[test]
fn next_of_a_grid_without_cells_is_that_grid() {
    assert_eq!(next(MatGol::empty(0, 0)), MatGol::empty(0, 0));
    assert_eq!(next(MatGol::empty(0, 5)), MatGol::empty(0, 5));
    assert_eq!(next(MatGol::empty(5, 0)), MatGol::empty(5, 0));
}

#[test]
fn single_cell_grid_dies_out() {
    assert_eq!(next(MatGol::empty(1, 1).live(0, 0)), MatGol::empty(1, 1));
    assert_eq!(next(MatGol::empty(1, 1)), MatGol::empty(1, 1));
}

#[test]
fn single_row_keeps_only_cells_between_two_neighbours() {
    let row = grid_from(1, 5, &[(0, 0), (0, 1), (0, 2), (0, 4)]);
    assert_eq!(next(row).matrix, vec![0, 1, 0, 0, 0]);
}

#[test]
fn next_gives_equal_grids_for_equal_grids() {
    let grid = grid_from(6, 6, &[(0, 1), (1, 2), (2, 0), (2, 1), (2, 2), (5, 5), (4, 5)]);
    let first = next(grid.clone());
    let second = next(grid);
    assert_eq!(first, second);
}

#[test]
fn convolution_counts_neighbours_once_and_the_centre_ten_times() {
    let block = grid_from(4, 4, &[(1, 1), (1, 2), (2, 1), (2, 2)]);
    assert_eq!(block.convolution(1, 1), 13);
    assert_eq!(block.convolution(0, 0), 1);
    assert_eq!(block.convolution(0, 1), 2);
    assert_eq!(block.convolution(3, 3), 1);
    assert_eq!(block.convolution(0, 3), 1);
    assert_eq!(block.convolution(1, 0), 2);
    let single = grid_from(3, 3, &[(1, 1)]);
    assert_eq!(single.convolution(1, 1), 10);
    assert_eq!(single.convolution(0, 0), 1);
    assert_eq!(single.convolution(2, 1), 1);
    let far = grid_from(5, 5, &[(0, 0)]);
    assert_eq!(far.convolution(2, 2), 0);
    assert_eq!(far.convolution(4, 4), 0);
}

#[test]
fn convolution_of_a_full_neighbourhood_is_eighteen() {
    let mut full = MatGol::empty(3, 3);
    for row in 0..3 {
        for col in 0..3 {
            full = full.live(row, col);
        }
    }
    assert_eq!(full.convolution(1, 1), 18);
    assert_eq!(full.convolution(0, 0), 13);
    assert_eq!(full.convolution(0, 1), 15);
    assert_eq!(full.dead(1, 1).convolution(1, 1), 8);
}

#[test]
fn convolution_at_the_border_ignores_what_lies_outside() {
    let corner = grid_from(2, 2, &[(0, 0), (0, 1), (1, 0), (1, 1)]);
    assert_eq!(corner.convolution(0, 0), 13);
    assert_eq!(corner.convolution(1, 1), 13);
    let lone = MatGol::empty(1, 1).live(0, 0);
    assert_eq!(lone.convolution(0, 0), 10);
}
