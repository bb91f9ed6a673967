use std::cmp::Ordering;

use commons::color::{Rgb, Rgba};
use commons::geometry::{xy, xyz, XYRectangle};
use commons::grid::Grid;
use commons::origin_grid::OriginGrid;
use commons::text::push_decimal;
use commons::unsafe_float_ordering;
use commons::unsafe_ordering::unsafe_ordering;

#[test]
fn colours_hold_their_components() {
    assert_eq!(Rgb::new(1, 2, 3), Rgb { r: 1, g: 2, b: 3 });
    assert_eq!(Rgba::new(1, 2, 3, 4), Rgba { r: 1, g: 2, b: 3, a: 4 });
}

#[test]
fn decimal_notation() {
    let mut text = String::from("n=");
    push_decimal(&mut text, 0);
    assert_eq!(text, "n=0");
    let mut text = String::new();
    push_decimal(&mut text, 4294967295);
    assert_eq!(text, "4294967295");
    let mut text = String::new();
    push_decimal(&mut text, 1070);
    assert_eq!(text, "1070");
}

#[test]
fn orderings() {
    assert_eq!(unsafe_ordering(&1, &2), Ordering::Less);
    assert_eq!(unsafe_ordering(&2, &2), Ordering::Equal);
    assert_eq!(unsafe_float_ordering(&3u8, &2u8), Ordering::Greater);
}

#[test]
fn positions_order_by_x_then_y() {
    assert_eq!(xy(1, 5).partial_cmp(&xy(2, 0)), Some(Ordering::Less));
    assert_eq!(xy(2, 5).partial_cmp(&xy(2, 0)), Some(Ordering::Greater));
    assert_eq!(xy(2, 0).partial_cmp(&xy(2, 0)), Some(Ordering::Equal));
    assert!(xy(1, 9) < xy(2, 0));
}

#[test]
fn positions_as_arrays() {
    let a: [i32; 2] = xy(1, 2).into();
    let b: [i32; 3] = xyz(1, 2, 3).into();
    assert_eq!(a, [1, 2]);
    assert_eq!(b, [1, 2, 3]);
}

#[test]
fn expand_saturates_at_bounds() {
    let rectangle: XYRectangle<u32> = XYRectangle {
        from: xy(1, 2),
        to: xy(u32::MAX - 1, 5),
    };
    assert_eq!(
        rectangle.expand(3),
        XYRectangle {
            from: xy(0, 0),
            to: xy(u32::MAX, 8),
        }
    );
}

#[test]
fn expanded_rectangle_keeps_cells() {
    let rectangle: XYRectangle<u32> = XYRectangle {
        from: xy(4, 4),
        to: xy(6, 7),
    };
    let expanded = rectangle.expand(1);
    for cell in rectangle.iter() {
        assert!(rectangle.contains(cell));
        assert!(expanded.contains(cell));
    }
}

#[test]
fn rectangle_iter_column_by_column() {
    let rectangle = XYRectangle {
        from: xy(1u32, 2),
        to: xy(2, 3),
    };
    assert_eq!(
        rectangle.iter(),
        vec![xy(1, 2), xy(1, 3), xy(2, 2), xy(2, 3)]
    );
    let empty = XYRectangle {
        from: xy(3u32, 2),
        to: xy(2, 3),
    };
    assert!(empty.iter().is_empty());
}

#[test]
fn index_and_xy_are_inverse() {
    let grid = Grid::from_element(4, 3, 0u8);
    for (i, position) in grid.iter().into_iter().enumerate() {
        assert_eq!(grid.index(position), i);
        assert_eq!(grid.xy(i), position);
    }
}

#[test]
fn offset_round_trip() {
    let grid = Grid::from_element(5, 5, 0u8);
    let there = grid.offset(xy(1, 3), xy(2, -2)).unwrap();
    assert_eq!(there, xy(3, 1));
    assert_eq!(grid.offset(there, xy(-2, 2)), Some(xy(1, 3)));
}

#[test]
fn origin_grid_index_and_xy_are_inverse() {
    let grid = OriginGrid::new(xy(3, 7), Grid::from_element(2, 4, 0u8));
    for (i, position) in grid.iter().into_iter().enumerate() {
        assert_eq!(grid.index(position), i);
        assert_eq!(grid.xy(i), position);
    }
}

#[test]
fn paste_over_disjoint_grids_fills_gap_with_default() {
    let a = OriginGrid::new(xy(0, 0), Grid::from_element(1, 1, 5));
    let b = OriginGrid::new(xy(2, 1), Grid::from_element(1, 1, 7));
    assert_eq!(
        a.paste(&b),
        OriginGrid::new(xy(0, 0), Grid::from_vec(3, 2, vec![5, 0, 0, 0, 0, 7]))
    );
}

#[test]
fn paste_prefers_other() {
    let a = OriginGrid::new(xy(1, 1), Grid::from_element(2, 2, 1));
    let b = OriginGrid::new(xy(1, 1), Grid::from_element(2, 2, 2));
    assert_eq!(a.paste(&b), b);
}

#[test]
fn crop_single_cell() {
    let grid = OriginGrid::new(
        xy(10, 20),
        Grid::from_vec(3, 2, vec![false, false, false, false, false, true]),
    );
    assert_eq!(
        grid.crop(),
        Some(OriginGrid::new(xy(12, 21), Grid::from_element(1, 1, true)))
    );
}

#[test]
fn crop_of_cropped_grid_is_unchanged() {
    let grid = OriginGrid::new(
        xy(1, 1),
        Grid::from_vec(3, 3, vec![0, 0, 0, 0, 4, 3, 0, 2, 0]),
    );
    let cropped = grid.crop().unwrap();
    assert_eq!(cropped.crop(), Some(cropped.clone()));
}
