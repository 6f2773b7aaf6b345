use tilt_compass::calibration::{calibrate, calibrated_measurement, Calibration, RawMeasurement};

fn sample(x: i32, y: i32, z: i32) -> RawMeasurement {
    RawMeasurement { x, y, z }
}

#[test]
fn offset_is_the_middle_of_the_smallest_and_the_largest_reading() {
    let window = [
        sample(-10, 30, 0),
        sample(30, -10, 5),
        sample(0, 0, -10),
        sample(5, 5, 30),
    ];
    let calibration = calibrate(&window).unwrap();
    assert_eq!(calibration, Calibration { x: 10, y: 10, z: 10 });
    assert_eq!(calibrated_measurement(sample(10, 10, 10), &calibration), sample(0, 0, 0));
}

#[test]
fn each_axis_has_its_own_offset() {
    let window = [sample(0, 100, -7), sample(8, 300, -7), sample(2, 200, -7)];
    assert_eq!(calibrate(&window), Some(Calibration { x: 4, y: 200, z: -7 }));
}

#[test]
fn an_empty_window_has_no_offsets() {
    assert_eq!(calibrate(&[]), None);
}

#[test]
fn an_axis_that_did_not_move_has_its_reading_as_offset() {
    assert_eq!(calibrate(&[sample(5, -7, 0)]), Some(Calibration { x: 5, y: -7, z: 0 }));
    assert_eq!(
        calibrate(&[sample(5, -7, 0), sample(5, -7, 0), sample(5, -7, 0)]),
        Some(Calibration { x: 5, y: -7, z: 0 })
    );
}

#[test]
fn offset_is_rounded_towards_zero() {
    let window = [sample(-3, -3, 3), sample(-2, 2, 4)];
    assert_eq!(calibrate(&window), Some(Calibration { x: -2, y: 0, z: 3 }));
}

#[test]
fn offset_of_the_widest_window_does_not_overflow() {
    let window = [sample(i32::MIN, i32::MAX, i32::MIN), sample(i32::MAX, i32::MAX, i32::MIN)];
    assert_eq!(calibrate(&window), Some(Calibration { x: 0, y: i32::MAX, z: i32::MIN }));
}

#[test]
fn offset_lies_between_the_smallest_and_the_largest_reading() {
    let window = [
        sample(17, -40, 3),
        sample(-5, -41, 900),
        sample(64, -39, -900),
        sample(0, -40, 12),
    ];
    let calibration = calibrate(&window).unwrap();
    assert!(-5 <= calibration.x && calibration.x <= 64);
    assert!(-41 <= calibration.y && calibration.y <= -39);
    assert!(-900 <= calibration.z && calibration.z <= 900);
    assert_eq!(calibration, Calibration { x: 29, y: -40, z: 0 });
}

#[test]
fn the_order_of_the_samples_does_not_matter() {
    let window = [sample(1, 2, 3), sample(-9, 8, 0), sample(4, -6, 11)];
    let reversed = [window[2], window[1], window[0]];
    assert_eq!(calibrate(&window), calibrate(&reversed));
}

#[test]
fn calibrating_again_replaces_the_offsets() {
    let first = calibrate(&[sample(0, 0, 0), sample(10, 10, 10)]).unwrap();
    let second = calibrate(&[sample(100, 100, 100), sample(300, 300, 300)]).unwrap();
    assert_eq!(first, Calibration { x: 5, y: 5, z: 5 });
    assert_eq!(second, Calibration { x: 200, y: 200, z: 200 });
}

#[test]
fn calibrated_measurement_takes_the_offset_off_each_axis() {
    let calibration = Calibration { x: 10, y: -20, z: 7 };
    assert_eq!(
        calibrated_measurement(sample(100, -50, 7), &calibration),
        sample(90, -30, 0)
    );
    assert_eq!(
        calibrated_measurement(sample(i32::MAX, i32::MIN, 0), &Calibration { x: 1, y: -1, z: 0 }),
        sample(i32::MAX - 1, i32::MIN + 1, 0)
    );
}
