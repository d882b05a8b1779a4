use conways_life::cell::Cell;
use conways_life::grid::Grid;
use conways_life::influence::apply_influence;
use conways_life::rules::step;

fn live_indices(g: &Grid) -> Vec<usize> {
    let mut out = Vec::new();
    for (i, c) in g.cells.iter().enumerate() {
        if *c == Cell::Live {
            out.push(i);
        }
    }
    out
}

#[test]
fn empty_grid_is_a_fixed_point() {
    let g = Grid::new(7, 5).unwrap();
    let s = step(&g);
    assert_eq!((s.cols, s.rows), (7, 5));
    assert_eq!(s.cells, g.cells);
}

#[test]
fn step_leaves_its_input_alone() {
    let g = Grid::create_with_seed(5, 5, &vec![11, 12, 13]).unwrap();
    let before = g.cells.clone();
    let a = step(&g);
    let b = step(&g);
    assert_eq!(g.cells, before);
    assert_eq!(a.cells, b.cells);
}

#[test]
fn block_is_still() {
    // 2x2 block with its top-left corner at (1, 1) on a 4x4 grid.
    let g = Grid::create_with_seed(4, 4, &vec![5, 6, 9, 10]).unwrap();
    assert_eq!(step(&g).cells, g.cells);
    // Against an edge it is still too.
    let corner = Grid::create_with_seed(4, 4, &vec![0, 1, 4, 5]).unwrap();
    assert_eq!(step(&corner).cells, corner.cells);
}

#[test]
fn blinker_has_period_two() {
    // Row of three centred on (2, 2) in a 5x5 grid.
    let g = Grid::create_with_seed(5, 5, &vec![11, 12, 13]).unwrap();
    let once = step(&g);
    assert_eq!(live_indices(&once), vec![7, 12, 17]);
    let twice = step(&once);
    assert_eq!(twice.cells, g.cells);
}

#[test]
fn corner_cell_does_not_wrap() {
    // Alone in the corner, the cell dies and nothing is born on the far edges.
    let g = Grid::create_with_seed(4, 4, &vec![0]).unwrap();
    assert_eq!(step(&g).count_alive(), 0);
    // Three live cells on the far edges would give (0, 0) three neighbours
    // only if the field wrapped around.
    let far = Grid::create_with_seed(4, 4, &vec![3, 12, 15]).unwrap();
    assert_eq!(step(&far).cells[0], Cell::Dead);
    // Its three real neighbours bring it to life.
    let near = Grid::create_with_seed(4, 4, &vec![1, 4, 5]).unwrap();
    assert_eq!(live_indices(&step(&near)), vec![0, 1, 4, 5]);
}

#[test]
fn overcrowded_cell_dies() {
    // The centre of a plus sign has four neighbours.
    let g = Grid::create_with_seed(3, 3, &vec![1, 3, 4, 5, 7]).unwrap();
    let s = step(&g);
    assert_eq!(s.cells[4], Cell::Dead);
    assert_eq!(live_indices(&s), vec![0, 1, 2, 3, 5, 6, 7, 8]);
}

#[test]
fn influence_reaches_cells_within_radius() {
    let g = Grid::new(4, 4).unwrap();
    // Cursor on the centre of cell (0, 0) with 10 pixel cells.
    let only = apply_influence(&g, (5, 5), 0, 10);
    assert_eq!(live_indices(&only), vec![0]);
    // Radius 6: centres 10 pixels away are within 5 + 6, diagonal ones are not.
    let wider = apply_influence(&g, (5, 5), 6, 10);
    assert_eq!(live_indices(&wider), vec![0, 1, 4]);
    // Far outside the field nothing is reached.
    let none = apply_influence(&g, (-500, -500), 25, 10);
    assert_eq!(none.count_alive(), 0);
}

#[test]
fn influence_never_kills() {
    let g = Grid::create_with_seed(4, 4, &vec![10, 15]).unwrap();
    let r = apply_influence(&g, (5, 5), 6, 10);
    assert_eq!(live_indices(&r), vec![0, 1, 4, 10, 15]);
    assert_eq!((r.cols, r.rows), (4, 4));
}
