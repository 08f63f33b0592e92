use cozy_core::grid::{Grid, GridPos};

#[test]
fn new_grid_is_default_filled() {
    let g: Grid<i64> = Grid::new(3, 2);
    assert_eq!(g.width(), 3);
    assert_eq!(g.height(), 2);
    for y in 0..2 {
        for x in 0..3 {
            assert_eq!(*g.get(GridPos::new(x, y)), 0);
        }
    }
}

#[test]
fn set_then_get_roundtrip() {
    let mut g: Grid<i64> = Grid::new(4, 4);
    g.set(GridPos::new(2, 3), 99);
    assert_eq!(*g.get(GridPos::new(2, 3)), 99);
    assert_eq!(*g.get(GridPos::new(3, 2)), 0);
}

#[test]
fn wrap_full_width_period() {
    // reading one full width to the right lands on the same cell
    let mut g: Grid<i64> = Grid::new(5, 4);
    g.set(GridPos::new(1, 2), 7);
    assert_eq!(*g.get(GridPos::new(1 + 5, 2)), 7);
    assert_eq!(*g.get(GridPos::new(1, 2 + 4)), 7);
    assert_eq!(*g.get(GridPos::new(1 + 10, 2 + 8)), 7);
}

#[test]
fn wrap_negative_coordinates() {
    let mut g: Grid<i64> = Grid::new(5, 4);
    g.set(GridPos::new(4, 3), 11);
    assert_eq!(*g.get(GridPos::new(-1, -1)), 11);
    assert_eq!(*g.get(GridPos::new(-6, -5)), 11);
}

#[test]
fn wrap_writes_alias_too() {
    let mut g: Grid<i64> = Grid::new(3, 3);
    g.set(GridPos::new(3, 0), 5);
    assert_eq!(*g.get(GridPos::new(0, 0)), 5);
}

#[test]
fn get_mut_writes_through() {
    let mut g: Grid<i64> = Grid::new(2, 2);
    *g.get_mut(GridPos::new(1, 1)) = 42;
    assert_eq!(*g.get(GridPos::new(1, 1)), 42);
}

#[test]
fn iter_is_row_major() {
    let mut g: Grid<i64> = Grid::new(2, 2);
    g.set(GridPos::new(0, 0), 10);
    g.set(GridPos::new(1, 0), 20);
    g.set(GridPos::new(0, 1), 30);
    g.set(GridPos::new(1, 1), 40);

    let mut it = g.iter();
    let mut seen: Vec<(i32, i32, i64)> = Vec::new();
    while let Some((pos, v)) = it.next() {
        seen.push((pos.x, pos.y, *v));
    }
    assert_eq!(seen, vec![(0, 0, 10), (1, 0, 20), (0, 1, 30), (1, 1, 40)]);
}

#[test]
fn iter_len_counts_down() {
    let g: Grid<i64> = Grid::new(3, 2);
    let mut it = g.iter();
    assert_eq!(it.len(), 6);
    it.next();
    assert_eq!(it.len(), 5);
    for _ in 0..5 {
        it.next();
    }
    assert_eq!(it.len(), 0);
    assert!(it.next().is_none());
}

#[test]
fn iter_mut_matches_iter() {
    let mut g: Grid<u32> = Grid::new(2, 1);
    g.set(GridPos::new(1, 0), 9);
    let mut it = g.iter_mut();
    let first = it.next().unwrap();
    assert_eq!((first.0.x, first.0.y, *first.1), (0, 0, 0));
    let second = it.next().unwrap();
    assert_eq!((second.0.x, second.0.y, *second.1), (1, 0, 9));
    assert!(it.next().is_none());
}
