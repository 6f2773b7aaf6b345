//! The state that the compass loop carries from cycle to cycle, and the integer
//! stage of each cycle.

use vstd::prelude::*;
use crate::calibration::{calibrate, calibrated_measurement, Calibration, RawMeasurement};
use crate::frame::{spec_swd_to_ned, swd_to_ned, NedMeasurement};

verus! {

/// What the loop owns between cycles: the calibration in force, and whether the
/// heading is taken from the tilt-compensated magnetic vector.
#[derive(Debug, Clone, Copy, PartialEq, Eq, Structural)]
pub struct LoopState {
    pub calibration: Calibration,
    pub tilt_correction_enabled: bool,
}

/// What one cycle hands to the heading math.
#[derive(Debug, Clone, Copy, PartialEq, Eq, Structural)]
pub struct HeadingInputs {
    /// The calibrated magnetic vector in the north-east-down frame.
    pub magnetic: NedMeasurement,
    /// The gravity vector in the north-east-down frame.
    pub gravity: NedMeasurement,
    /// Whether the magnetic vector is to be tilt-compensated before the heading is
    /// taken from it, or used as it is.
    pub compensate_tilt: bool,
}

/// What to do after one look at the sensors' "new data" flags.
#[derive(Debug, Clone, Copy, PartialEq, Eq, Structural)]
pub enum Poll {
    /// Both sensors have new data: read the samples.
    Ready,
    /// Look again, with this budget of further looks (`None`: without limit).
    Retry { polls_left: Option<u32> },
    /// The budget is used up and a sensor still has no new data.
    TimedOut,
}

/// Whether a cycle may read its samples: only when both the magnetometer and the
/// accelerometer report new data.
pub fn new_data_ready(mag_new_data: bool, accel_new_data: bool) -> (ready: bool)
    ensures
        ready == (mag_new_data && accel_new_data),
{
    mag_new_data && accel_new_data
}

/// What follows from one look at the two flags, for a caller that may look
/// `polls_left` more times: without a budget it looks again for as long as a sensor
/// has no new data; with one it gives up when the budget is used up.
pub open spec fn spec_poll(mag_new_data: bool, accel_new_data: bool, polls_left: Option<u32>) -> Poll {
    if mag_new_data && accel_new_data {
        Poll::Ready
    } else {
        match polls_left {
            None => Poll::Retry { polls_left: None },
            Some(left) => if left == 0 {
                Poll::TimedOut
            } else {
                Poll::Retry { polls_left: Some((left - 1) as u32) }
            },
        }
    }
}

/// Decides what to do after one look at the sensors' "new data" flags.
pub fn poll(mag_new_data: bool, accel_new_data: bool, polls_left: Option<u32>) -> (step: Poll)
    ensures
        step == spec_poll(mag_new_data, accel_new_data, polls_left),
{
    if new_data_ready(mag_new_data, accel_new_data) {
        Poll::Ready
    } else {
        match polls_left {
            None => Poll::Retry { polls_left: None },
            Some(left) => if left == 0 {
                Poll::TimedOut
            } else {
                Poll::Retry { polls_left: Some(left - 1) }
            },
        }
    }
}

impl LoopState {
    /// The state at start-up: the given calibration, and tilt correction switched on.
    pub fn new(calibration: Calibration) -> (state: Self)
        ensures
            state.calibration == calibration,
            state.tilt_correction_enabled,
    {
        LoopState { calibration, tilt_correction_enabled: true }
    }

    /// Consumes one "toggle tilt compensation" event.
    pub fn toggle_tilt_correction(&mut self)
        ensures
            final(self).tilt_correction_enabled == !old(self).tilt_correction_enabled,
            final(self).calibration == old(self).calibration,
    {
        self.tilt_correction_enabled = !self.tilt_correction_enabled;
    }

    /// Consumes one "recalibrate" event with the window of samples that was taken
    /// for it. The offsets of the window replace the calibration in force, whatever
    /// that was; an empty window leaves it in force. Returns whether it was replaced.
    pub fn recalibrate(&mut self, samples: &[RawMeasurement]) -> (replaced: bool)
        ensures
            replaced <==> samples@.len() > 0,
            replaced ==> final(self).calibration == Calibration::of(samples@),
            !replaced ==> final(self).calibration == old(self).calibration,
            final(self).tilt_correction_enabled == old(self).tilt_correction_enabled,
    {
        match calibrate(samples) {
            Some(calibration) => {
                self.calibration = calibration;
                true
            },
            None => false,
        }
    }

    /// The integer stage of one cycle: takes the calibration off the magnetometer
    /// sample, and brings both samples into the north-east-down frame.
    pub fn heading_inputs(&self, mag: RawMeasurement, accel: RawMeasurement) -> (inputs:
        HeadingInputs)
        requires
            self.calibration.applies_to(mag),
        ensures
            inputs.magnetic.x == -(mag.y - self.calibration.y),
            inputs.magnetic.y == -(mag.x - self.calibration.x),
            inputs.magnetic.z == -(mag.z - self.calibration.z),
            inputs.gravity == spec_swd_to_ned(accel),
            inputs.compensate_tilt == self.tilt_correction_enabled,
    {
        let corrected = calibrated_measurement(mag, &self.calibration);
        HeadingInputs {
            magnetic: swd_to_ned(corrected),
            gravity: swd_to_ned(accel),
            compensate_tilt: self.tilt_correction_enabled,
        }
    }
}

} // verus!
