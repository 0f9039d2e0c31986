use life_sim::error::GridError;
use life_sim::grid::Grid;
use life_sim::rule::{live_around, neighbors_of, next_generation};

fn grid_with(width: usize, alive: &[usize]) -> Grid {
    let mut grid = Grid::new(width).unwrap();
    for index in alive {
        grid.toggle(*index).unwrap();
    }
    grid
}

fn advance(grid: &mut Grid) {
    let next = next_generation(grid);
    grid.replace(next).unwrap();
}

#[test]
fn neighbors_of_a_corner_are_three() {
    assert_eq!(neighbors_of(0, 5), Ok(vec![1, 5, 6]));
    assert_eq!(neighbors_of(4, 5), Ok(vec![3, 8, 9]));
    assert_eq!(neighbors_of(20, 5), Ok(vec![15, 16, 21]));
    assert_eq!(neighbors_of(24, 5), Ok(vec![18, 19, 23]));
}

#[test]
fn neighbors_of_an_edge_cell_are_five() {
    assert_eq!(neighbors_of(2, 5), Ok(vec![1, 3, 6, 7, 8]));
    assert_eq!(neighbors_of(10, 5), Ok(vec![5, 6, 11, 15, 16]));
    assert_eq!(neighbors_of(14, 5), Ok(vec![8, 9, 13, 18, 19]));
    assert_eq!(neighbors_of(22, 5), Ok(vec![16, 17, 18, 21, 23]));
}

#[test]
fn neighbors_of_an_inner_cell_are_eight() {
    assert_eq!(neighbors_of(12, 5), Ok(vec![6, 7, 8, 11, 13, 16, 17, 18]));
    assert_eq!(neighbors_of(6, 5), Ok(vec![0, 1, 2, 5, 7, 10, 11, 12]));
}

#[test]
fn neighbors_do_not_wrap_around_the_edges() {
    let right_edge = neighbors_of(199, 100).unwrap();
    assert_eq!(right_edge, vec![98, 99, 198, 298, 299]);
    assert!(!right_edge.contains(&200));
    assert!(!right_edge.contains(&100));
    let left_edge = neighbors_of(200, 100).unwrap();
    assert_eq!(left_edge, vec![100, 101, 201, 300, 301]);
    assert!(!left_edge.contains(&199));
}

#[test]
fn neighbors_on_the_smallest_fields() {
    assert_eq!(neighbors_of(0, 1), Ok(Vec::new()));
    assert_eq!(neighbors_of(0, 2), Ok(vec![1, 2, 3]));
    assert_eq!(neighbors_of(3, 2), Ok(vec![0, 1, 2]));
}

#[test]
fn neighbors_are_in_range_distinct_and_never_the_cell_itself() {
    for width in 1..=7usize {
        for index in 0..width * width {
            let list = neighbors_of(index, width).unwrap();
            let row = index / width;
            let col = index % width;
            let on_row_border = row == 0 || row == width - 1;
            let on_col_border = col == 0 || col == width - 1;
            if width >= 2 {
                let expected = match (on_row_border, on_col_border) {
                    (true, true) => 3,
                    (false, false) => 8,
                    _ => 5,
                };
                assert_eq!(list.len(), expected);
            }
            for pair in list.windows(2) {
                assert!(pair[0] < pair[1]);
            }
            for other in &list {
                assert!(*other < width * width);
                assert_ne!(*other, index);
                assert!((other / width).abs_diff(row) <= 1);
                assert!((other % width).abs_diff(col) <= 1);
            }
        }
    }
}

#[test]
fn neighbors_of_an_index_off_the_field_are_refused() {
    assert_eq!(neighbors_of(25, 5), Err(GridError::OutOfRange));
    assert_eq!(neighbors_of(0, 0), Err(GridError::OutOfRange));
    assert_eq!(neighbors_of(usize::MAX, 100), Err(GridError::OutOfRange));
}

#[test]
fn live_around_counts_the_live_neighbours() {
    let grid = grid_with(4, &[0, 1, 2, 4, 6, 8, 9, 10, 15]);
    assert_eq!(live_around(&grid, 5), Ok(8));
    assert_eq!(live_around(&grid, 0), Ok(2));
    assert_eq!(live_around(&grid, 3), Ok(2));
    assert_eq!(live_around(&grid, 15), Ok(1));
    assert_eq!(live_around(&grid, 12), Ok(2));
    assert_eq!(live_around(&grid, 16), Err(GridError::OutOfRange));
}

#[test]
fn a_dead_grid_stays_dead() {
    for width in 1..=6usize {
        let grid = Grid::new(width).unwrap();
        assert_eq!(next_generation(&grid), vec![false; width * width]);
    }
}

#[test]
fn a_lone_cell_dies() {
    for index in 0..25 {
        let grid = grid_with(5, &[index]);
        assert_eq!(live_around(&grid, index), Ok(0));
        assert_eq!(next_generation(&grid), vec![false; 25]);
    }
}

#[test]
fn two_live_neighbours_leave_a_cell_as_it_is() {
    // A diagonal of three: the middle cell has two live neighbours and
    // lives on, the ends have one and die, and the dead cells beside the
    // middle have two or three.
    let grid = grid_with(3, &[0, 4, 8]);
    assert_eq!(
        next_generation(&grid),
        vec![false, false, false, false, true, false, false, false, false]
    );
}

#[test]
fn three_live_neighbours_bring_a_cell_to_life() {
    let grid = grid_with(3, &[0, 1, 3]);
    assert_eq!(live_around(&grid, 4), Ok(3));
    let next = next_generation(&grid);
    assert!(next[4]);
    assert_eq!(next, vec![true, true, false, true, true, false, false, false, false]);
}

#[test]
fn more_than_three_live_neighbours_kill_a_cell() {
    let grid = grid_with(3, &[0, 1, 2, 3, 4]);
    assert_eq!(live_around(&grid, 4), Ok(4));
    let next = next_generation(&grid);
    assert!(!next[4]);
    assert_eq!(next, vec![true, false, true, true, false, true, false, false, false]);
}

#[test]
fn every_cell_is_counted_against_the_old_generation() {
    // Updated in place from left to right, cell 1 of this row of three
    // would see cell 0 already dead and die too.
    let grid = grid_with(3, &[3, 4, 5]);
    assert_eq!(
        next_generation(&grid),
        vec![false, true, false, false, true, false, false, true, false]
    );
    assert_eq!(grid.cells(), &vec![false, false, false, true, true, true, false, false, false]);
}

#[test]
fn a_block_is_a_still_life() {
    let mut grid = grid_with(6, &[14, 15, 20, 21]);
    let block = grid.cells().clone();
    for _ in 0..8 {
        advance(&mut grid);
        assert_eq!(grid.cells(), &block);
    }
}

#[test]
fn a_block_in_the_corner_is_a_still_life() {
    let mut grid = grid_with(4, &[0, 1, 4, 5]);
    let block = grid.cells().clone();
    for _ in 0..5 {
        advance(&mut grid);
        assert_eq!(grid.cells(), &block);
    }
    let mut filled = grid_with(2, &[0, 1, 2, 3]);
    for _ in 0..5 {
        advance(&mut filled);
        assert_eq!(filled.cells(), &vec![true; 4]);
    }
}

#[test]
fn a_blinker_has_period_two() {
    let mut grid = grid_with(5, &[11, 12, 13]);
    let lying = grid.cells().clone();
    let standing = grid_with(5, &[7, 12, 17]).cells().clone();
    for _ in 0..4 {
        advance(&mut grid);
        assert_eq!(grid.cells(), &standing);
        advance(&mut grid);
        assert_eq!(grid.cells(), &lying);
    }
}

#[test]
fn a_blinker_on_the_edge_does_not_oscillate() {
    // The field is bounded: the arm that would stand above the top row is
    // missing, and the shape dies out.
    let mut grid = grid_with(5, &[1, 2, 3]);
    advance(&mut grid);
    assert_eq!(grid.cells(), grid_with(5, &[2, 7]).cells());
    advance(&mut grid);
    assert_eq!(grid.cells(), &vec![false; 25]);
}

#[test]
fn next_generation_is_deterministic() {
    let grid = grid_with(6, &[1, 8, 12, 13, 14, 20, 27, 33]);
    let first = next_generation(&grid);
    let second = next_generation(&grid);
    assert_eq!(first, second);
    assert_eq!(first.len(), 36);
}

#[test]
fn a_glider_moves_one_cell_down_and_right_in_four_generations() {
    let mut grid = grid_with(6, &[1, 8, 12, 13, 14]);
    for _ in 0..4 {
        advance(&mut grid);
    }
    assert_eq!(grid.cells(), grid_with(6, &[8, 15, 19, 20, 21]).cells());
}
