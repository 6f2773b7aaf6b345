use tilt_compass::line_drawing::{Point, UPoint};

#[test]
fn round_trip_returns_the_point() {
    let zeros = [
        UPoint { x: 0, y: 0 },
        UPoint { x: 2, y: 2 },
        UPoint { x: 0, y: 4 },
        UPoint { x: 7, y: 1 },
    ];
    let points = [
        Point { x: 0, y: 0 },
        Point { x: -7, y: 1 },
        Point { x: 3, y: -5 },
        Point { x: -1, y: -1 },
        Point { x: 12, y: 0 },
    ];
    let mut converted = 0;
    for zero in zeros.iter() {
        for point in points.iter() {
            if let Some(cell) = point.to_upoint(zero) {
                assert_eq!(cell.to_point(zero), *point);
                converted += 1;
            }
        }
    }
    assert_eq!(converted, 15);
}

#[test]
fn to_upoint_adds_x_and_subtracts_y() {
    let zero = UPoint { x: 3, y: 5 };
    assert_eq!(Point { x: 4, y: 2 }.to_upoint(&zero), Some(UPoint { x: 7, y: 3 }));
    assert_eq!(Point { x: -3, y: 5 }.to_upoint(&zero), Some(UPoint { x: 0, y: 0 }));
    assert_eq!(Point { x: 0, y: -6 }.to_upoint(&zero), Some(UPoint { x: 3, y: 11 }));
}

#[test]
fn to_upoint_fails_left_of_the_array() {
    let zero = UPoint { x: 2, y: 2 };
    assert_eq!(Point { x: -3, y: 0 }.to_upoint(&zero), None);
    assert_eq!(Point { x: isize::MIN, y: 0 }.to_upoint(&zero), None);
}

#[test]
fn to_upoint_fails_above_the_array() {
    let zero = UPoint { x: 2, y: 2 };
    assert_eq!(Point { x: 0, y: 3 }.to_upoint(&zero), None);
    assert_eq!(Point { x: 0, y: isize::MAX }.to_upoint(&zero), None);
}

#[test]
fn to_upoint_fails_beyond_the_largest_index() {
    let zero = UPoint { x: usize::MAX, y: usize::MAX };
    assert_eq!(Point { x: 1, y: 0 }.to_upoint(&zero), None);
    assert_eq!(Point { x: 0, y: -1 }.to_upoint(&zero), None);
    assert_eq!(
        Point { x: 0, y: 0 }.to_upoint(&zero),
        Some(UPoint { x: usize::MAX, y: usize::MAX })
    );
}

#[test]
fn to_upoint_takes_the_lowest_row_coordinate() {
    let zero = UPoint { x: 0, y: 0 };
    let lowest = Point { x: 0, y: isize::MIN };
    let cell = lowest.to_upoint(&zero).unwrap();
    assert_eq!(cell, UPoint { x: 0, y: isize::MAX as usize + 1 });
    assert_eq!(cell.to_point(&zero), lowest);
}

#[test]
fn to_point_subtracts_the_origin() {
    let zero = UPoint { x: 1, y: 1 };
    assert_eq!(UPoint { x: 3, y: 4 }.to_point(&zero), Point { x: 2, y: -3 });
    assert_eq!(UPoint { x: 0, y: 0 }.to_point(&zero), Point { x: -1, y: 1 });
    assert_eq!(UPoint { x: 1, y: 1 }.to_point(&zero), Point { x: 0, y: 0 });
}

#[test]
fn to_point_reaches_both_ends_of_the_range() {
    let far = isize::MAX as usize + 1;
    assert_eq!(
        UPoint { x: 0, y: far }.to_point(&UPoint { x: far, y: 0 }),
        Point { x: isize::MIN, y: isize::MIN }
    );
    assert_eq!(
        UPoint { x: far - 1, y: 0 }.to_point(&UPoint { x: 0, y: far - 1 }),
        Point { x: isize::MAX, y: isize::MAX }
    );
}

#[test]
fn to_point_wraps_an_offset_that_does_not_fit() {
    let zero = UPoint { x: 0, y: 0 };
    assert_eq!(
        UPoint { x: usize::MAX, y: usize::MAX }.to_point(&zero),
        Point { x: -1, y: 1 }
    );
    let far = isize::MAX as usize + 1;
    assert_eq!(
        UPoint { x: far, y: 0 }.to_point(&zero),
        Point { x: isize::MIN, y: 0 }
    );
    assert_eq!(
        UPoint { x: 0, y: 0 }.to_point(&UPoint { x: far + 1, y: 0 }),
        Point { x: isize::MAX, y: 0 }
    );
}
