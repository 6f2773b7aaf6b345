//! Conversion of sensor readings from the board's frame into the north-east-down
//! frame that the heading math works in.

use vstd::prelude::*;
use crate::calibration::RawMeasurement;

verus! {

/// A reading in the north-east-down frame: `x` forward (north), `y` to the right
/// (east), `z` down. It holds whole sensor units, in a width that every converted
/// reading fits.
#[derive(Debug, Clone, Copy, PartialEq, Eq, Structural)]
pub struct NedMeasurement {
    pub x: i64,
    pub y: i64,
    pub z: i64,
}

/// The reading that `measurement` is in the north-east-down frame. The board has
/// forward in its `+y` direction, right in its `-x` direction and down in its `-z`
/// direction.
pub open spec fn spec_swd_to_ned(measurement: RawMeasurement) -> NedMeasurement {
    NedMeasurement {
        x: (-measurement.y) as i64,
        y: (-measurement.x) as i64,
        z: (-measurement.z) as i64,
    }
}

/// Converts a reading from the board's frame into the north-east-down frame.
pub fn swd_to_ned(measurement: RawMeasurement) -> (ned: NedMeasurement)
    ensures
        ned == spec_swd_to_ned(measurement),
        ned.x == -measurement.y,
        ned.y == -measurement.x,
        ned.z == -measurement.z,
{
    NedMeasurement {
        x: -(measurement.y as i64),
        y: -(measurement.x as i64),
        z: -(measurement.z as i64),
    }
}

} // verus!
