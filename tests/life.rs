use conway::array::Array2d;
use conway::life::{buff_from_draws, random_buff, Buff, Cell, GameOfLife};

fn grid_with(w: usize, h: usize, alive: &[(usize, usize)]) -> Buff {
    let mut b = Buff::new(w, h, Cell::Dead);
    for &(i, j) in alive {
        b.set((i, j), Cell::Alive);
    }
    b
}

fn alive_cells(b: &Buff) -> Vec<(usize, usize)> {
    let (w, h) = b.dims();
    let mut out = Vec::new();
    for i in 0..h {
        for j in 0..w {
            if *b.index((i, j)) == Cell::Alive {
                out.push((i, j));
            }
        }
    }
    out
}

fn same_cells(a: &Buff, b: &Buff) -> bool {
    a.dims() == b.dims() && alive_cells(a) == alive_cells(b)
}

#[test]
fn new_with_fills_row_major() {
    let a = Array2d::new_with(3, 2, |i, j| i * 10 + j);
    assert_eq!(a.dims(), (3, 2));
    assert_eq!(*a.index((0, 0)), 0);
    assert_eq!(*a.index((0, 2)), 2);
    assert_eq!(*a.index((1, 0)), 10);
    assert_eq!(*a.index((1, 2)), 12);
}

#[test]
fn new_default_and_new_fill_every_cell() {
    let a: Array2d<u8> = Array2d::new_default(4, 3);
    assert_eq!(a.dims(), (4, 3));
    assert_eq!(*a.index((2, 3)), 0);
    let b = Array2d::new(2, 5, 7u32);
    assert_eq!(b.dims(), (2, 5));
    assert_eq!(*b.index((4, 1)), 7);
}

#[test]
fn set_changes_only_its_cell() {
    let mut a = Array2d::new(3, 3, 0u8);
    a.set((1, 2), 9);
    assert_eq!(*a.index((1, 2)), 9);
    assert_eq!(*a.index((2, 1)), 0);
    assert_eq!(*a.index((1, 1)), 0);
}

#[test]
fn isolated_cell_dies() {
    let b = grid_with(6, 6, &[(3, 3)]);
    assert_eq!(GameOfLife::cell_evolution(&b, 3, 3), Cell::Dead);
    let mut g = GameOfLife::new(b);
    g.update();
    assert!(alive_cells(g.state()).is_empty());
}

#[test]
fn block_is_stable() {
    let cells = [(2, 2), (2, 3), (3, 2), (3, 3)];
    let b = grid_with(6, 6, &cells);
    let mut g = GameOfLife::new(b);
    g.update();
    assert_eq!(alive_cells(g.state()), cells.to_vec());
    g.update();
    assert_eq!(alive_cells(g.state()), cells.to_vec());
}

#[test]
fn blinker_has_period_two() {
    let horizontal = [(3, 2), (3, 3), (3, 4)];
    let vertical = [(2, 3), (3, 3), (4, 3)];
    let mut g = GameOfLife::new(grid_with(6, 6, &horizontal));
    g.update();
    assert_eq!(alive_cells(g.state()), vertical.to_vec());
    g.update();
    assert_eq!(alive_cells(g.state()), horizontal.to_vec());
}

#[test]
fn birth_needs_exactly_three() {
    let b = grid_with(5, 5, &[(1, 1), (1, 2), (1, 3)]);
    assert_eq!(GameOfLife::cell_evolution(&b, 2, 2), Cell::Alive);
    assert_eq!(GameOfLife::cell_evolution(&b, 0, 2), Cell::Alive);
    assert_eq!(GameOfLife::cell_evolution(&b, 2, 0), Cell::Dead);
    assert_eq!(GameOfLife::cell_evolution(&b, 1, 1), Cell::Dead);
    assert_eq!(GameOfLife::cell_evolution(&b, 1, 2), Cell::Alive);
}

#[test]
fn overpopulation_kills() {
    let b = grid_with(5, 5, &[(2, 2), (1, 1), (1, 3), (3, 1), (3, 3)]);
    assert_eq!(GameOfLife::cell_evolution(&b, 2, 2), Cell::Dead);
}

#[test]
fn wrap_reaches_opposite_corner() {
    // The three cells diagonal, above and left of (0, 0) on the torus.
    let (w, h) = (7, 5);
    let b = grid_with(w, h, &[(h - 1, w - 1), (h - 1, 0), (0, w - 1)]);
    assert_eq!(GameOfLife::cell_evolution(&b, 0, 0), Cell::Alive);
    // And from (h - 1, w - 1) the cells below and right wrap to row and column 0.
    let b = grid_with(w, h, &[(0, 0), (0, w - 1), (h - 1, 0)]);
    assert_eq!(GameOfLife::cell_evolution(&b, h - 1, w - 1), Cell::Alive);
}

#[test]
fn glider_crosses_the_edge() {
    let glider = [(0, 1), (1, 2), (2, 0), (2, 1), (2, 2)];
    let mut g = GameOfLife::new(grid_with(8, 8, &glider));
    for _ in 0..32 {
        g.update();
    }
    // A glider moves one cell diagonally every four generations; after 32 on
    // an 8 by 8 torus it is back where it started.
    assert_eq!(alive_cells(g.state()), glider.to_vec());
}

#[test]
fn update_keeps_dimensions() {
    let mut g = GameOfLife::new(grid_with(9, 4, &[(1, 1), (1, 2), (2, 1)]));
    for _ in 0..3 {
        g.update();
        assert_eq!(g.state().dims(), (9, 4));
    }
}

#[test]
fn state_read_twice_is_identical() {
    let mut g = GameOfLife::new(grid_with(6, 6, &[(3, 2), (3, 3), (3, 4)]));
    g.update();
    let first = alive_cells(g.state());
    let second = alive_cells(g.state());
    assert_eq!(first, second);
    assert!(std::ptr::eq(g.state(), g.state()));
}

#[test]
fn update_is_deterministic() {
    let start = [(0, 0), (1, 2), (2, 1), (3, 3), (4, 4), (4, 0), (2, 2)];
    let mut a = GameOfLife::new(grid_with(7, 6, &start));
    let mut b = GameOfLife::new(grid_with(7, 6, &start));
    for _ in 0..5 {
        a.update();
        b.update();
        assert!(same_cells(a.state(), b.state()));
    }
}

#[test]
fn random_buff_extremes() {
    let dead = random_buff(5, 4, 0, 10);
    assert_eq!(dead.dims(), (5, 4));
    assert!(alive_cells(&dead).is_empty());
    let alive = random_buff(5, 4, 10, 10);
    assert_eq!(alive_cells(&alive).len(), 20);
}

#[test]
fn draws_fill_row_major() {
    let draws = vec![true, false, false, false, true, true];
    let b = buff_from_draws(3, 2, &draws);
    assert_eq!(b.dims(), (3, 2));
    assert_eq!(alive_cells(&b), vec![(0, 0), (1, 1), (1, 2)]);
}

#[test]
fn lone_cell_dies_on_small_and_uneven_grids() {
    for &(w, h, cell) in &[(3, 3, (1, 1)), (3, 3, (0, 0)), (5, 4, (3, 4)), (7, 3, (2, 0))] {
        let mut g = GameOfLife::new(grid_with(w, h, &[cell]));
        g.update();
        assert!(alive_cells(g.state()).is_empty());
    }
}

#[test]
fn blinker_across_the_corner_has_period_two() {
    // A row of three centred on (0, 0) of a 4 by 4 torus.
    let row = [(0, 0), (0, 1), (0, 3)];
    let column = [(0, 0), (1, 0), (3, 0)];
    let mut g = GameOfLife::new(grid_with(4, 4, &row));
    g.update();
    assert_eq!(alive_cells(g.state()), column.to_vec());
    g.update();
    assert_eq!(alive_cells(g.state()), row.to_vec());
}
