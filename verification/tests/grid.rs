use std::collections::HashSet;

use commons::geometry::{xy, XY};
use commons::grid::Grid;

#[test]
fn grid_test_width() {
    let grid = Grid::<bool>::default(4, 5);

    assert_eq!(grid.width(), 4);
}

#[test]
fn grid_test_height() {
    let grid = Grid::<bool>::default(4, 5);

    assert_eq!(grid.height(), 5);
}

#[test]
fn test_default() {
    let grid = Grid::<bool>::default(4, 5);

    assert_eq!(grid, Grid::from_vec(4, 5, vec![false; 20]));
}

#[test]
fn test_from_element() {
    let grid = Grid::from_element(4, 5, Some(3));

    assert_eq!(grid, Grid::from_vec(4, 5, vec![Some(3); 20]));
}

#[test]
fn test_from_element_max_u32() {
    Grid::from_element(u32::MAX, 2, false);
}

#[test]
fn test_from_vec() {
    let grid = Grid::from_vec(
        2,
        3,
        vec![
            (0, 0),
            (1, 0), //
            (0, 1),
            (1, 1), //
            (0, 2),
            (1, 2), //
        ],
    );

    assert_eq!(grid.width(), 2);
    assert_eq!(grid.height(), 3);
    assert_eq!(
        grid.iter().into_iter().map(|p| *grid.get(p)).collect::<Vec<_>>(),
        vec![
            (0, 0),
            (1, 0), //
            (0, 1),
            (1, 1), //
            (0, 2),
            (1, 2), //
        ]
    );
}

#[test]
fn test_from_vec_max_u32() {
    Grid::from_vec(u32::MAX, 2, vec![false; u32::MAX as usize * 2]);
}

#[test]
fn test_from_fn() {
    let grid = Grid::from_fn(2, 3, |t| t);

    assert_eq!(
        grid,
        Grid::from_vec(
            2,
            3,
            vec![
                xy(0, 0), xy(1, 0),
                xy(0, 1), xy(1, 1),
                xy(0, 2), xy(1, 2),
            ]
        )
    );
}

#[test]
fn grid_test_index() {
    let grid = Grid::from_element(2, 3, false);

    assert_eq!(grid.index(xy(0, 0)), 0);
    assert_eq!(grid.index(xy(1, 0)), 1);
    assert_eq!(grid.index(xy(0, 1)), 2);
    assert_eq!(grid.index(xy(1, 1)), 3);
    assert_eq!(grid.index(xy(0, 2)), 4);
    assert_eq!(grid.index(xy(1, 2)), 5);
}

#[test]
fn grid_test_index_traits() {
    let mut grid = Grid::from_element(2, 3, false);

    grid.set(xy(1, 2), true);

    assert!(*grid.get(xy(1, 2)));
}

#[test]
fn grid_test_xy() {
    let grid = Grid::from_element(2, 3, false);

    assert_eq!(grid.xy(0), xy(0, 0));
    assert_eq!(grid.xy(1), xy(1, 0));
    assert_eq!(grid.xy(2), xy(0, 1));
    assert_eq!(grid.xy(3), xy(1, 1));
    assert_eq!(grid.xy(4), xy(0, 2));
    assert_eq!(grid.xy(5), xy(1, 2));
}

#[test]
fn grid_test_in_bounds() {
    let grid = Grid::from_element(2, 3, false);

    assert!(grid.in_bounds(xy(0, 0)));
    assert!(grid.in_bounds(xy(1, 0)));
    assert!(!grid.in_bounds(xy(2, 0)));
    assert!(grid.in_bounds(xy(0, 1)));
    assert!(grid.in_bounds(xy(1, 1)));
    assert!(!grid.in_bounds(xy(2, 1)));
    assert!(grid.in_bounds(xy(0, 2)));
    assert!(grid.in_bounds(xy(1, 2)));
    assert!(!grid.in_bounds(xy(2, 2)));
    assert!(!grid.in_bounds(xy(0, 3)));
    assert!(!grid.in_bounds(xy(1, 3)));
    assert!(!grid.in_bounds(xy(2, 3)));
}

#[test]
fn test_is_border() {
    let grid = Grid::from_element(3, 3, false);

    assert!(grid.is_border(xy(0, 0)));
    assert!(grid.is_border(xy(1, 0)));
    assert!(grid.is_border(xy(2, 0)));
    assert!(grid.is_border(xy(0, 1)));
    assert!(!grid.is_border(xy(1, 1)));
    assert!(grid.is_border(xy(2, 1)));
    assert!(grid.is_border(xy(0, 2)));
    assert!(grid.is_border(xy(1, 2)));
    assert!(grid.is_border(xy(2, 2)));
}

#[test]
fn grid_test_map() {
    let grid = Grid::from_element(2, 3, 1);

    assert_eq!(
        grid.map(|XY { x, y }, z| x + y + z),
        Grid::from_vec(
            2,
            3,
            vec![
                1, 2, //
                2, 3, //
                3, 4, //
            ]
        )
    );
}

#[test]
fn grid_test_offset() {
    let grid = Grid::from_element(2, 3, false);

    assert_eq!(grid.offset(xy(1, 1), xy(-1, 1)), Some(xy(0, 2)));
}

#[test]
fn grid_test_offset_out_of_bounds_negative() {
    let grid = Grid::from_element(2, 3, false);

    assert_eq!(grid.offset(xy(0, 1), xy(-1, 1)), None);
}

#[test]
fn grid_test_offset_out_of_bounds_positive() {
    let grid = Grid::from_element(2, 3, false);

    assert_eq!(grid.offset(xy(1, 1), xy(2, 1)), None);
}

#[test]
fn test_offset_with_max_u32() {
    let grid = Grid::from_element(u32::MAX, 2, false);

    assert_eq!(
        grid.offset(xy(u32::MAX - 2, 0), xy(1, 1)),
        Some(xy(u32::MAX - 1, 1))
    );
}

#[test]
fn test_offset_with_max_i32() {
    let grid = Grid::from_element(u32::MAX, 1, false);

    assert_eq!(
        grid.offset(xy(u32::MAX - i32::MAX as u32 - 1, 0), xy(i32::MAX, 0)),
        Some(xy(u32::MAX - 1, 0))
    );
}

#[test]
fn test_offset_with_min_i32() {
    let grid = Grid::from_element(u32::MAX, 1, false);

    assert_eq!(
        grid.offset(xy(i32::MAX as u32 + 1, 0), xy(i32::MIN, 0)),
        Some(xy(0, 0))
    );
}

#[test]
fn test_offset_overflow() {
    let grid = Grid::from_element(u32::MAX, 2, false);

    assert_eq!(grid.offset(xy(u32::MAX, 0), xy(i32::MAX, 1)), None);
}

#[test]
fn grid_test_offsets() {
    let grid = Grid::from_element(2, 3, false);

    assert_eq!(
        grid.offsets(xy(0, 1), &[xy(1, 0), xy(0, 1), xy(-1, -1)])
            .into_iter()
            .collect::<HashSet<_>>(),
        HashSet::from([xy(1, 1), xy(0, 2)])
    );
}

#[test]
fn test_neighbours_4_in_middle() {
    let grid = Grid::from_element(3, 3, false);

    assert_eq!(
        grid.neighbours_4(xy(1, 1)).into_iter().collect::<HashSet<_>>(),
        HashSet::from([xy(2, 1), xy(1, 2), xy(0, 1), xy(1, 0)])
    );
}

#[test]
fn test_neighbours_4_in_corner() {
    let grid = Grid::from_element(3, 3, false);

    assert_eq!(
        grid.neighbours_4(xy(0, 0)).into_iter().collect::<HashSet<_>>(),
        HashSet::from([xy(1, 0), xy(0, 1)])
    );
}

#[test]
fn test_neighbours_8_in_middle() {
    let grid = Grid::from_element(3, 3, false);

    assert_eq!(
        grid.neighbours_8(xy(1, 1)).into_iter().collect::<HashSet<_>>(),
        HashSet::from([
            xy(2, 1),
            xy(2, 2),
            xy(1, 2),
            xy(0, 2),
            xy(0, 1),
            xy(0, 0),
            xy(1, 0),
            xy(2, 0)
        ])
    );
}

#[test]
fn test_neighbours_8_in_corner() {
    let grid = Grid::from_element(3, 3, false);

    assert_eq!(
        grid.neighbours_4(xy(0, 0)).into_iter().collect::<HashSet<_>>(),
        HashSet::from([xy(1, 0), xy(0, 1)])
    );
}

#[test]
fn test_iter_0x0() {
    let grid = Grid::<bool>::default(0, 0);

    assert_eq!(grid.iter(), Vec::<XY<u32>>::new());
}

#[test]
fn test_iter_0x1() {
    let grid = Grid::<bool>::default(0, 1);

    assert_eq!(grid.iter(), Vec::<XY<u32>>::new());
}

#[test]
fn test_iter_0x2() {
    let grid = Grid::<bool>::default(0, 2);

    assert_eq!(grid.iter(), Vec::<XY<u32>>::new());
}

#[test]
fn test_iter_0x3() {
    let grid = Grid::<bool>::default(0, 3);

    assert_eq!(grid.iter(), Vec::<XY<u32>>::new());
}

#[test]
fn test_iter_1x0() {
    let grid = Grid::<bool>::default(1, 0);

    assert_eq!(grid.iter(), Vec::<XY<u32>>::new());
}

#[test]
fn test_iter_1x1() {
    let grid = Grid::<bool>::default(1, 1);

    assert_eq!(grid.iter(), vec![xy(0, 0)]);
}

#[test]
fn test_iter_1x2() {
    let grid = Grid::<bool>::default(1, 2);

    assert_eq!(grid.iter(), vec![xy(0, 0), xy(0, 1)]);
}

#[test]
fn test_iter_1x3() {
    let grid = Grid::<bool>::default(1, 3);

    assert_eq!(grid.iter(), vec![xy(0, 0), xy(0, 1), xy(0, 2)]);
}

#[test]
fn test_iter_2x0() {
    let grid = Grid::<bool>::default(2, 0);

    assert_eq!(grid.iter(), Vec::<XY<u32>>::new());
}

#[test]
fn test_iter_2x1() {
    let grid = Grid::<bool>::default(2, 1);

    assert_eq!(grid.iter(), vec![xy(0, 0), xy(1, 0)]);
}

#[test]
fn test_iter_2x2() {
    let grid = Grid::<bool>::default(2, 2);

    assert_eq!(grid.iter(), vec![xy(0, 0), xy(1, 0), xy(0, 1), xy(1, 1)]);
}

#[test]
fn grid_test_iter_2x3() {
    let grid = Grid::<bool>::default(2, 3);

    assert_eq!(grid.iter(), vec![xy(0, 0), xy(1, 0), xy(0, 1), xy(1, 1), xy(0, 2), xy(1, 2)]);
}

#[test]
fn test_iter_3x0() {
    let grid = Grid::<bool>::default(3, 0);

    assert_eq!(grid.iter(), Vec::<XY<u32>>::new());
}

#[test]
fn test_iter_3x1() {
    let grid = Grid::<bool>::default(3, 1);

    assert_eq!(grid.iter(), vec![xy(0, 0), xy(1, 0), xy(2, 0)]);
}

#[test]
fn test_iter_3x2() {
    let grid = Grid::<bool>::default(3, 2);

    assert_eq!(grid.iter(), vec![xy(0, 0), xy(1, 0), xy(2, 0), xy(0, 1), xy(1, 1), xy(2, 1)]);
}

#[test]
fn test_iter_3x3() {
    let grid = Grid::<bool>::default(3, 3);

    assert_eq!(grid.iter(), vec![xy(0, 0), xy(1, 0), xy(2, 0), xy(0, 1), xy(1, 1), xy(2, 1), xy(0, 2), xy(1, 2), xy(2, 2)]);
}

#[test]
fn test_add() {
    let a = Grid::from_element(2, 3, 4);
    let b = Grid::from_element(2, 3, 5);

    assert_eq!(a + b, Grid::from_element(2, 3, 9));
}

#[test]
fn test_sub() {
    let a = Grid::from_element(2, 3, 5);
    let b = Grid::from_element(2, 3, 4);

    assert_eq!(a - b, Grid::from_element(2, 3, 1));
}

#[test]
fn test_min() {
    let grid = Grid::from_fn(3, 3, |p: XY<u32>| (p.x + p.y) as f32 + 1.0);

    assert_eq!(grid.min(), 1.0);
}

#[test]
fn test_max() {
    let grid = Grid::from_fn(3, 3, |p: XY<u32>| (p.x + p.y) as f32 + 1.0);

    assert_eq!(grid.max(), 5.0);
}

/// A value ordered by its key alone, so that equal keys can be told apart by their tag.
#[derive(Clone, Copy, Debug, PartialEq)]
struct Keyed(i32, char);

impl PartialOrd for Keyed {
    fn partial_cmp(&self, other: &Self) -> Option<std::cmp::Ordering> {
        self.0.partial_cmp(&other.0)
    }
}

#[test]
fn min_keeps_the_first_least_cell_and_max_the_last_greatest() {
    let grid = Grid::from_vec(
        3,
        2,
        vec![
            Keyed(4, 'a'),
            Keyed(1, 'b'),
            Keyed(9, 'c'),
            Keyed(1, 'd'),
            Keyed(9, 'e'),
            Keyed(2, 'f'),
        ],
    );

    assert_eq!(grid.min(), Keyed(1, 'b'));
    assert_eq!(grid.max(), Keyed(9, 'e'));
}
