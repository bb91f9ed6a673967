use std::collections::HashSet;

use commons::geometry::{xy, xyz, XYRectangle};

#[test]
fn test_xy_add() {
    // given
    let a = xy(1, 2);
    let b = xy(3, 4);

    // when
    let result = a + b;

    // then
    assert_eq!(result, xy(4, 6));
}

#[test]
fn test_xy_sub() {
    // given
    let a = xy(1, 2);
    let b = xy(3, 4);

    // when
    let result = b - a;

    // then
    assert_eq!(result, xy(2, 2));
}

#[test]
fn test_xy_mul() {
    // given
    let a = xy(1, 2);

    // when
    let result = a * 2;

    // then
    assert_eq!(result, xy(2, 4));
}

#[test]
fn test_xy_div() {
    // given
    let a = xy(2, 4);

    // when
    let result = a / 2;

    // then
    assert_eq!(result, xy(1, 2));
}

#[test]
fn test_xy_dot() {
    // given
    let a = xy(2, 4);
    let b = xy(3, 5);

    // when
    let result = a.dot(&b);

    // then
    assert_eq!(result, 26);
}

#[test]
fn test_xyz_xy() {
    // given
    let a = xyz(3, 4, 5);

    // when
    let result = a.xy();

    // then
    assert_eq!(result, xy(3, 4));
}

#[test]
fn test_xyz_add() {
    // given
    let a = xyz(1, 2, 3);
    let b = xyz(4, 5, 6);

    // when
    let result = a + b;

    // then
    assert_eq!(result, xyz(5, 7, 9));
}

#[test]
fn test_xyz_sub() {
    // given
    let a = xyz(1, 2, 3);
    let b = xyz(4, 5, 6);

    // when
    let result = b - a;

    // then
    assert_eq!(result, xyz(3, 3, 3));
}

#[test]
fn test_xyz_mul() {
    // given
    let a = xyz(1, 2, 3);

    // when
    let result = a * 2;

    // then
    assert_eq!(result, xyz(2, 4, 6));
}

#[test]
fn test_xyz_div() {
    // given
    let a = xyz(2, 4, 6);

    // when
    let result = a / 2;

    // then
    assert_eq!(result, xyz(1, 2, 3));
}

#[test]
fn test_xyz_dot() {
    // given
    let a = xyz(2, 4, 6);
    let b = xyz(3, 5, 7);

    // when
    let result = a.dot(&b);

    // then
    assert_eq!(result, 68);
}

#[test]
fn test_xy_rectangle_width() {
    // given
    let rectangle = XYRectangle {
        from: xy(1, 2),
        to: xy(3, 5),
    };

    // when
    let result = rectangle.width();

    // then
    assert_eq!(result, 3);
}

#[test]
fn test_xy_rectangle_height() {
    // given
    let rectangle = XYRectangle {
        from: xy(1, 2),
        to: xy(3, 5),
    };

    // when
    let result = rectangle.height();

    // then
    assert_eq!(result, 4);
}

#[test]
fn test_xy_rectangle_contains() {
    // given
    let rectangle = XYRectangle {
        from: xy(1, 2),
        to: xy(3, 5),
    };

    // then
    assert!(rectangle.contains(xy(2, 3)));
    assert!(!rectangle.contains(xy(0, 3)));
    assert!(!rectangle.contains(xy(4, 3)));
    assert!(!rectangle.contains(xy(2, 1)));
    assert!(!rectangle.contains(xy(2, 6)));
}

#[test]
fn test_xy_rectangle_expand() {
    // given
    let rectangle: XYRectangle<u32> = XYRectangle {
        from: xy(1, 2),
        to: xy(3, 5),
    };

    // then
    assert_eq!(
        rectangle.expand(2),
        XYRectangle {
            from: xy(0, 0),
            to: xy(5, 7),
        }
    );
}

#[test]
fn test_xy_rectangle_iter_u32() {
    // given
    let rectangle = XYRectangle {
        from: xy(1u32, 2),
        to: xy(3, 5),
    };

    // when
    let result = rectangle.iter().into_iter().collect::<HashSet<_>>();

    // then
    assert_eq!(
        result,
        HashSet::from([
            xy(1, 2),
            xy(1, 3),
            xy(1, 4),
            xy(1, 5),
            xy(2, 2),
            xy(2, 3),
            xy(2, 4),
            xy(2, 5),
            xy(3, 2),
            xy(3, 3),
            xy(3, 4),
            xy(3, 5),
        ])
    );
}

#[test]
fn test_xy_rectangle_iter_u64() {
    // given
    let rectangle = XYRectangle {
        from: xy(1u64, 2),
        to: xy(3, 5),
    };

    // when
    let result = rectangle.iter().into_iter().collect::<HashSet<_>>();

    // then
    assert_eq!(
        result,
        HashSet::from([
            xy(1, 2),
            xy(1, 3),
            xy(1, 4),
            xy(1, 5),
            xy(2, 2),
            xy(2, 3),
            xy(2, 4),
            xy(2, 5),
            xy(3, 2),
            xy(3, 3),
            xy(3, 4),
            xy(3, 5),
        ])
    );
}

#[test]
fn test_xy_rectangle_iter_usize() {
    // given
    let rectangle = XYRectangle {
        from: xy(1usize, 2),
        to: xy(3, 5),
    };

    // when
    let result = rectangle.iter().into_iter().collect::<HashSet<_>>();

    // then
    assert_eq!(
        result,
        HashSet::from([
            xy(1, 2),
            xy(1, 3),
            xy(1, 4),
            xy(1, 5),
            xy(2, 2),
            xy(2, 3),
            xy(2, 4),
            xy(2, 5),
            xy(3, 2),
            xy(3, 3),
            xy(3, 4),
            xy(3, 5),
        ])
    );
}

#[test]
fn test_overlaps_partially() {
    let rectangle = XYRectangle {
        from: xy(1usize, 2),
        to: xy(4, 5),
    };
    let other = XYRectangle {
        from: xy(3usize, 4),
        to: xy(5, 6),
    };
    assert!(rectangle.overlaps(other));
    assert!(other.overlaps(rectangle));
}

#[test]
fn test_overlaps_rectangle_contains_other_rectangle() {
    let rectangle = XYRectangle {
        from: xy(1usize, 2),
        to: xy(4, 5),
    };
    let other = XYRectangle {
        from: xy(2usize, 3),
        to: xy(3, 4),
    };
    assert!(rectangle.overlaps(other));
    assert!(other.overlaps(rectangle));
}

#[test]
fn test_overlaps_x_only() {
    let rectangle = XYRectangle {
        from: xy(1usize, 2),
        to: xy(4, 5),
    };
    let other = XYRectangle {
        from: xy(2usize, 6),
        to: xy(3, 7),
    };
    assert!(!rectangle.overlaps(other));
    assert!(!other.overlaps(rectangle));
}

#[test]
fn test_overlaps_y_only() {
    let rectangle = XYRectangle {
        from: xy(1usize, 2),
        to: xy(4, 5),
    };
    let other = XYRectangle {
        from: xy(5usize, 3),
        to: xy(6, 4),
    };
    assert!(!rectangle.overlaps(other));
    assert!(!other.overlaps(rectangle));
}
