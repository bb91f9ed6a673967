use std::collections::HashSet;

use commons::geometry::{xy, XYRectangle, XY};
use commons::grid::Grid;
use commons::origin_grid::OriginGrid;

#[test]
fn origin_grid_test_width() {
    let grid = OriginGrid::new(xy(1, 2), Grid::<bool>::default(4, 5));

    assert_eq!(grid.width(), 4);
}

#[test]
fn origin_grid_test_height() {
    let grid = OriginGrid::new(xy(1, 2), Grid::<bool>::default(4, 5));

    assert_eq!(grid.height(), 5);
}

#[test]
fn origin_grid_test_index() {
    let grid = OriginGrid::new(xy(1, 2), Grid::from_element(2, 3, false));

    assert_eq!(grid.index(xy(1, 2)), 0);
    assert_eq!(grid.index(xy(2, 2)), 1);
    assert_eq!(grid.index(xy(1, 3)), 2);
    assert_eq!(grid.index(xy(2, 3)), 3);
    assert_eq!(grid.index(xy(1, 4)), 4);
    assert_eq!(grid.index(xy(2, 4)), 5);
}

#[test]
fn origin_grid_test_index_traits() {
    let mut grid = OriginGrid::new(xy(1, 2), Grid::from_element(2, 3, false));

    grid.set(xy(2, 4), true);

    assert!(*grid.get(xy(2, 4)));
}

#[test]
fn origin_grid_test_xy() {
    let grid = OriginGrid::new(xy(1, 2), Grid::from_element(2, 3, false));

    assert_eq!(grid.xy(0), xy(1, 2));
    assert_eq!(grid.xy(1), xy(2, 2));
    assert_eq!(grid.xy(2), xy(1, 3));
    assert_eq!(grid.xy(3), xy(2, 3));
    assert_eq!(grid.xy(4), xy(1, 4));
    assert_eq!(grid.xy(5), xy(2, 4));
}

#[test]
fn origin_grid_test_in_bounds() {
    let grid = OriginGrid::new(xy(1, 2), Grid::from_element(2, 3, false));

    assert!(!grid.in_bounds(xy(0, 1)));
    assert!(!grid.in_bounds(xy(1, 1)));
    assert!(!grid.in_bounds(xy(2, 1)));
    assert!(!grid.in_bounds(xy(3, 1)));
    assert!(!grid.in_bounds(xy(0, 2)));
    assert!(grid.in_bounds(xy(1, 2)));
    assert!(grid.in_bounds(xy(2, 2)));
    assert!(!grid.in_bounds(xy(3, 2)));
    assert!(!grid.in_bounds(xy(0, 3)));
    assert!(grid.in_bounds(xy(1, 3)));
    assert!(grid.in_bounds(xy(2, 3)));
    assert!(!grid.in_bounds(xy(3, 3)));
    assert!(!grid.in_bounds(xy(0, 4)));
    assert!(grid.in_bounds(xy(1, 4)));
    assert!(grid.in_bounds(xy(2, 4)));
    assert!(!grid.in_bounds(xy(3, 4)));
    assert!(!grid.in_bounds(xy(0, 5)));
    assert!(!grid.in_bounds(xy(1, 5)));
    assert!(!grid.in_bounds(xy(2, 5)));
    assert!(!grid.in_bounds(xy(3, 5)));
}

#[test]
fn origin_grid_test_offset() {
    let grid = OriginGrid::new(xy(1, 2), Grid::<bool>::default(2, 3));

    assert_eq!(grid.offset(xy(2, 3), xy(-1, -1)), Some(xy(1, 2)));
}

#[test]
fn origin_grid_test_offset_out_of_bounds_negative() {
    let grid = OriginGrid::new(xy(1, 2), Grid::<bool>::default(2, 3));

    assert_eq!(grid.offset(xy(1, 2), xy(-1, -1)), None);
}

#[test]
fn origin_grid_test_offset_out_of_bounds_positive() {
    let grid = OriginGrid::new(xy(1, 2), Grid::<bool>::default(2, 3));

    assert_eq!(grid.offset(xy(3, 4), xy(1, 1)), None);
}

#[test]
fn origin_grid_test_offsets() {
    let grid = OriginGrid::new(xy(1, 2), Grid::<bool>::default(2, 3));

    assert_eq!(
        grid.offsets(xy(3, 2), &[xy(-1, -1), xy(-1, 1), xy(1, 1)])
            .into_iter()
            .collect::<HashSet<_>>(),
        HashSet::from([xy(2, 3)])
    );
}

#[test]
fn origin_grid_test_iter_2x3() {
    let grid = OriginGrid::new(xy(1, 2), Grid::<bool>::default(2, 3));

    assert_eq!(
        grid.iter(),
        vec![xy(1, 2), xy(2, 2), xy(1, 3), xy(2, 3), xy(1, 4), xy(2, 4),]
    );
}

#[test]
fn origin_grid_test_map() {
    let grid = OriginGrid::new(xy(1, 2), Grid::from_fn(2, 3, |XY { x, y }| x + y));

    assert_eq!(
        grid.map(|XY { x, y }, value| x + y + value),
        OriginGrid::new(
            xy(1, 2),
            Grid::from_vec(
                2,
                3,
                vec![
                    3, 5, //
                    5, 7, //
                    7, 9, //
                ]
            )
        )
    );
}

#[test]
fn test_paste() {
    let grid_1 = OriginGrid::new(xy(2, 4), Grid::from_element(3, 2, 1));
    let grid_2 = OriginGrid::new(xy(1, 2), Grid::from_element(2, 3, 2));

    assert_eq!(
        grid_1.paste(&grid_2),
        OriginGrid::new(
            xy(1, 2),
            Grid::from_vec(
                4,
                4,
                vec![
                    2, 2, 0, 0, //
                    2, 2, 0, 0, //
                    2, 2, 1, 1, //
                    0, 1, 1, 1, //
                ]
            )
        )
    );
}

#[test]
fn test_crop() {
    let grid = OriginGrid::new(
        xy(1, 2),
        Grid::from_vec(
            4,
            5,
            vec![
                0, 0, 0, 0, //
                0, 1, 0, 0, //
                0, 0, 1, 0, //
                0, 1, 0, 0, //
                0, 0, 0, 0, //
            ],
        ),
    );

    assert_eq!(
        grid.crop(),
        Some(OriginGrid::new(
            xy(2, 3),
            Grid::from_vec(
                2,
                3,
                vec![
                    1, 0, //
                    0, 1, //
                    1, 0, //
                ]
            )
        ))
    );
}

#[test]
fn test_crop_empty() {
    let grid = OriginGrid::new(
        xy(1, 2),
        Grid::from_vec(
            2,
            2,
            vec![
                0, 0, //
                0, 0, //
            ],
        ),
    );

    assert_eq!(grid.crop(), None);
}

#[test]
fn test_from_rectangle() {
    // given
    let rectangle = XYRectangle {
        from: xy(1, 2),
        to: xy(3, 5),
    };

    // when
    let result = OriginGrid::from_rectangle(rectangle, true);

    // then
    assert_eq!(
        result,
        OriginGrid::new(xy(1, 2), Grid::from_element(3, 4, true))
    );
}

#[test]
fn test_rectangle() {
    // given
    let rectangle = XYRectangle {
        from: xy(1, 2),
        to: xy(3, 5),
    };

    let grid = OriginGrid::from_rectangle(rectangle, true);

    // when
    let result = grid.rectangle();

    // then
    assert_eq!(result, Ok(rectangle));
}

#[test]
fn test_rectangle_zero_width_grid() {
    // given
    let grid = OriginGrid::new(xy(0, 0), Grid::from_element(0, 1, true));

    // when
    let result = grid.rectangle();

    // then
    assert_eq!(
        result,
        Err("XYRectangle cannot be computed for an OriginGrid with width (0) == 0 or height (1) == 0".to_string()),
    );
}

#[test]
fn test_rectangle_zero_height_grid() {
    // given
    let grid = OriginGrid::new(xy(0, 0), Grid::from_element(1, 0, true));

    // when
    let result = grid.rectangle();

    // then
    assert_eq!(
        result,
        Err("XYRectangle cannot be computed for an OriginGrid with width (1) == 0 or height (0) == 0".to_string()),
    );
}
