use tilt_compass::line_drawing::{draw_line, FourQuadrantMatrix, Line, Point, UPoint};

#[test]
fn point_upoint_conv() {
    let zero_coord = UPoint { x: 2, y: 2 };
    let point = Point { x: -1, y: -1 };
    let upoint = point.to_upoint(&zero_coord).unwrap();
    assert_eq!(upoint, UPoint { x: 1, y: 3 });
    assert_eq!(upoint.to_point(&zero_coord), point);

    let point = Point { x: -2, y: 1 };
    let upoint = point.to_upoint(&zero_coord).unwrap();
    assert_eq!(upoint, UPoint { x: 0, y: 1 });
    assert_eq!(upoint.to_point(&zero_coord), point);

    let point = Point { x: 2, y: 2 };
    let upoint = point.to_upoint(&zero_coord).unwrap();
    assert_eq!(upoint, UPoint { x: 4, y: 0 });
    assert_eq!(upoint.to_point(&zero_coord), point);
}

#[test]
fn four_quadrant_matrix() {
    let mut canvas: FourQuadrantMatrix<5, 5, u8> = FourQuadrantMatrix::new(UPoint { x: 2, y: 2 });
    canvas[Point { x: 0, y: 0 }] = 1;
    assert_eq!(
        <FourQuadrantMatrix<5, 5, u8> as Into<[[u8; 5]; 5]>>::into(canvas),
        [
            [0, 0, 0, 0, 0],
            [0, 0, 0, 0, 0],
            [0, 0, 1, 0, 0],
            [0, 0, 0, 0, 0],
            [0, 0, 0, 0, 0],
        ]
    );
    canvas[Point { x: -2, y: 1 }] = 1;
    assert_eq!(
        <FourQuadrantMatrix<5, 5, u8> as Into<[[u8; 5]; 5]>>::into(canvas),
        [
            [0, 0, 0, 0, 0],
            [1, 0, 0, 0, 0],
            [0, 0, 1, 0, 0],
            [0, 0, 0, 0, 0],
            [0, 0, 0, 0, 0]
        ]
    );
}

#[test]
fn diagonal_unsigned_line() {
    let mut canvas: FourQuadrantMatrix<5, 5, u8> = FourQuadrantMatrix::new(UPoint { x: 0, y: 4 });
    draw_line(
        &Line(Point { x: 0, y: 0 }, Point { x: 4, y: 4 }),
        &mut canvas,
    );
    assert_eq!(
        <FourQuadrantMatrix<5, 5, u8> as Into<[[u8; 5]; 5]>>::into(canvas),
        [
            [0, 0, 0, 0, 1],
            [0, 0, 0, 1, 0],
            [0, 0, 1, 0, 0],
            [0, 1, 0, 0, 0],
            [1, 0, 0, 0, 0],
        ]
    )
}

#[test]
fn diagonal_signed_line() {
    let mut canvas: FourQuadrantMatrix<5, 5, u8> = FourQuadrantMatrix::new(UPoint { x: 2, y: 2 });
    draw_line(
        &Line(Point { x: -2, y: -2 }, Point { x: 2, y: 2 }),
        &mut canvas,
    );
    assert_eq!(
        <FourQuadrantMatrix<5, 5, u8> as Into<[[u8; 5]; 5]>>::into(canvas),
        [
            [0, 0, 0, 0, 1],
            [0, 0, 0, 1, 0],
            [0, 0, 1, 0, 0],
            [0, 1, 0, 0, 0],
            [1, 0, 0, 0, 0],
        ]
    )
}

#[test]
fn diagonal_signed_both_oob_line() {
    let mut canvas: FourQuadrantMatrix<5, 5, u8> = FourQuadrantMatrix::new(UPoint { x: 2, y: 2 });
    draw_line(
        &Line(Point { x: -10, y: -10 }, Point { x: 10, y: 10 }),
        &mut canvas,
    );
    assert_eq!(
        <FourQuadrantMatrix<5, 5, u8> as Into<[[u8; 5]; 5]>>::into(canvas),
        [
            [0, 0, 0, 0, 1],
            [0, 0, 0, 1, 0],
            [0, 0, 1, 0, 0],
            [0, 1, 0, 0, 0],
            [1, 0, 0, 0, 0],
        ]
    );
}

#[test]
fn diagonal_signed_first_oob_line() {
    let mut canvas: FourQuadrantMatrix<5, 5, u8> = FourQuadrantMatrix::new(UPoint { x: 2, y: 2 });
    draw_line(
        &Line(Point { x: -10, y: -10 }, Point { x: 2, y: 2 }),
        &mut canvas,
    );
    assert_eq!(
        <FourQuadrantMatrix<5, 5, u8> as Into<[[u8; 5]; 5]>>::into(canvas),
        [
            [0, 0, 0, 0, 1],
            [0, 0, 0, 1, 0],
            [0, 0, 1, 0, 0],
            [0, 1, 0, 0, 0],
            [1, 0, 0, 0, 0],
        ]
    );
}

#[test]
fn diagonal_signed_second_oob_line() {
    let mut canvas: FourQuadrantMatrix<5, 5, u8> = FourQuadrantMatrix::new(UPoint { x: 2, y: 2 });
    draw_line(
        &Line(Point { x: -2, y: -2 }, Point { x: 10, y: 10 }),
        &mut canvas,
    );
    assert_eq!(
        <FourQuadrantMatrix<5, 5, u8> as Into<[[u8; 5]; 5]>>::into(canvas),
        [
            [0, 0, 0, 0, 1],
            [0, 0, 0, 1, 0],
            [0, 0, 1, 0, 0],
            [0, 1, 0, 0, 0],
            [1, 0, 0, 0, 0],
        ]
    );
}

#[test]
fn vertical_signed_both_oob_line() {
    let mut canvas: FourQuadrantMatrix<5, 5, u8> = FourQuadrantMatrix::new(UPoint { x: 2, y: 2 });
    draw_line(
        &Line(Point { x: 0, y: -10 }, Point { x: 0, y: 10 }),
        &mut canvas,
    );
    assert_eq!(
        <FourQuadrantMatrix<5, 5, u8> as Into<[[u8; 5]; 5]>>::into(canvas),
        [
            [0, 0, 1, 0, 0],
            [0, 0, 1, 0, 0],
            [0, 0, 1, 0, 0],
            [0, 0, 1, 0, 0],
            [0, 0, 1, 0, 0],
        ]
    );
}

#[test]
fn vertical_signed_first_oob_line() {
    let mut canvas: FourQuadrantMatrix<5, 5, u8> = FourQuadrantMatrix::new(UPoint { x: 2, y: 2 });
    draw_line(
        &Line(Point { x: 0, y: -10 }, Point { x: 0, y: 0 }),
        &mut canvas,
    );
    assert_eq!(
        <FourQuadrantMatrix<5, 5, u8> as Into<[[u8; 5]; 5]>>::into(canvas),
        [
            [0, 0, 0, 0, 0],
            [0, 0, 0, 0, 0],
            [0, 0, 1, 0, 0],
            [0, 0, 1, 0, 0],
            [0, 0, 1, 0, 0],
        ]
    );
}

#[test]
fn vertical_signed_second_oob_line() {
    let mut canvas: FourQuadrantMatrix<5, 5, u8> = FourQuadrantMatrix::new(UPoint { x: 2, y: 2 });
    draw_line(
        &Line(Point { x: 0, y: 0 }, Point { x: 0, y: 10 }),
        &mut canvas,
    );
    assert_eq!(
        <FourQuadrantMatrix<5, 5, u8> as Into<[[u8; 5]; 5]>>::into(canvas),
        [
            [0, 0, 1, 0, 0],
            [0, 0, 1, 0, 0],
            [0, 0, 1, 0, 0],
            [0, 0, 0, 0, 0],
            [0, 0, 0, 0, 0],
        ]
    );
}

#[test]
fn cross_signed_line() {
    let mut canvas: FourQuadrantMatrix<5, 5, u8> = FourQuadrantMatrix::new(UPoint { x: 2, y: 2 });
    draw_line(
        &Line(Point { x: 0, y: -2 }, Point { x: 0, y: 2 }),
        &mut canvas,
    );
    draw_line(
        &Line(Point { x: -2, y: 0 }, Point { x: 2, y: 0 }),
        &mut canvas,
    );
    assert_eq!(
        <FourQuadrantMatrix<5, 5, u8> as Into<[[u8; 5]; 5]>>::into(canvas),
        [
            [0, 0, 1, 0, 0],
            [0, 0, 1, 0, 0],
            [1, 1, 1, 1, 1],
            [0, 0, 1, 0, 0],
            [0, 0, 1, 0, 0],
        ]
    )
}
