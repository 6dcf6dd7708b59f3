use diamond_los::{Coord, Grid};

#[test]
fn grid_non_square_uses_width_as_row_stride() {
    let mut g = Grid::new((3, 2), 0u8);
    assert_eq!(g.inner.len(), 6);
    g.set(Coord(2, 0), 7);
    g.set(Coord(0, 1), 9);
    assert_eq!(g.inner, vec![0, 0, 7, 9, 0, 0]);
    assert_eq!(*g.get(Coord(2, 0)), 7);
    assert_eq!(*g.get(Coord(0, 1)), 9);
    assert_eq!(*g.get(Coord(1, 1)), 0);
}

#[test]
fn grid_bounds_follow_width_and_height() {
    let g = Grid::new((4, 1), false);
    assert!(g.in_bounds(Coord(3, 0)));
    assert!(!g.in_bounds(Coord(0, 1)));
    assert!(!g.in_bounds(Coord(-1, 0)));
    assert!(!g.in_bounds(Coord(4, 0)));
}

#[test]
fn grid_fill_overwrites_every_cell() {
    let mut g = Grid::new((2, 3), 1i32);
    g.set(Coord(1, 2), 5);
    g.fill(-2);
    assert_eq!(g.inner, vec![-2; 6]);
}

#[test]
fn coord_addition_is_componentwise() {
    assert_eq!(Coord(1, -2) + Coord(3, 4), Coord(4, 2));
    assert_eq!(Coord(1, -2) + (-1, 2), Coord(0, 0));
    assert_eq!(Coord::default(), Coord(0, 0));
}
