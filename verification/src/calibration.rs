//! Hard-iron calibration: per-axis offsets estimated from a window of raw samples
//! taken while the device is turned through its orientations.

use vstd::prelude::*;

verus! {

/// One reading of a three-axis sensor, in the sensor's own frame and units.
#[derive(Debug, Clone, Copy, PartialEq, Eq, Structural)]
pub struct RawMeasurement {
    pub x: i32,
    pub y: i32,
    pub z: i32,
}

/// The offset to take off each axis of a raw reading.
#[derive(Debug, Clone, Copy, PartialEq, Eq, Structural)]
pub struct Calibration {
    pub x: i32,
    pub y: i32,
    pub z: i32,
}

/// The three axes of a sensor.
#[derive(Debug, Clone, Copy, PartialEq, Eq, Structural)]
pub enum Axis {
    X,
    Y,
    Z,
}

/// Half of `lo + hi`, rounded towards zero.
pub open spec fn midpoint(lo: int, hi: int) -> int {
    if lo + hi >= 0 {
        (lo + hi) / 2
    } else {
        -((-(lo + hi)) / 2)
    }
}

impl RawMeasurement {
    /// The reading on one axis.
    pub open spec fn on(self, axis: Axis) -> int {
        match axis {
            Axis::X => self.x as int,
            Axis::Y => self.y as int,
            Axis::Z => self.z as int,
        }
    }
}

/// The readings that a window of samples holds on one axis, in order.
pub open spec fn readings(samples: Seq<RawMeasurement>, axis: Axis) -> Seq<int> {
    Seq::new(samples.len(), |i: int| samples[i].on(axis))
}

/// Whether `lo` is the smallest and `hi` the largest of the first `upto` readings
/// of `samples` on `axis`.
pub open spec fn spans(samples: Seq<RawMeasurement>, axis: Axis, upto: int, lo: int, hi: int) -> bool {
    &&& forall|i: int| 0 <= i < upto ==> lo <= (#[trigger] samples[i]).on(axis) <= hi
    &&& exists|i: int| 0 <= i < upto && (#[trigger] samples[i]).on(axis) == lo
    &&& exists|i: int| 0 <= i < upto && (#[trigger] samples[i]).on(axis) == hi
}

impl Calibration {
    /// The offsets of a window of samples: on each axis, the middle between the
    /// smallest and the largest reading.
    pub open spec fn of(samples: Seq<RawMeasurement>) -> Calibration {
        Calibration {
            x: midpoint(readings(samples, Axis::X).min(), readings(samples, Axis::X).max()) as i32,
            y: midpoint(readings(samples, Axis::Y).min(), readings(samples, Axis::Y).max()) as i32,
            z: midpoint(readings(samples, Axis::Z).min(), readings(samples, Axis::Z).max()) as i32,
        }
    }

    /// The offset on one axis.
    pub open spec fn on(self, axis: Axis) -> int {
        match axis {
            Axis::X => self.x as int,
            Axis::Y => self.y as int,
            Axis::Z => self.z as int,
        }
    }

    /// Whether taking the offsets off `raw` stays within the range of a reading.
    pub open spec fn applies_to(self, raw: RawMeasurement) -> bool {
        &&& i32::MIN <= raw.x - self.x <= i32::MAX
        &&& i32::MIN <= raw.y - self.y <= i32::MAX
        &&& i32::MIN <= raw.z - self.z <= i32::MAX
    }
}

/// The middle between two bounds lies between them.
pub proof fn lemma_midpoint_between(lo: int, hi: int)
    requires
        lo <= hi,
    ensures
        lo <= midpoint(lo, hi) <= hi,
        lo == hi ==> midpoint(lo, hi) == lo,
{
}

/// The smallest and the largest of the readings of a window are the bounds that
/// [`spans`] describes, and no others are.
pub proof fn lemma_spans_min_max(samples: Seq<RawMeasurement>, axis: Axis, lo: int, hi: int)
    requires
        samples.len() > 0,
    ensures
        spans(samples, axis, samples.len() as int, lo, hi) <==> (lo == readings(samples, axis).min()
            && hi == readings(samples, axis).max()),
{
    let r = readings(samples, axis);
    r.min_ensures();
    r.max_ensures();
    let i_min = choose|i: int| 0 <= i < r.len() && r[i] == r.min();
    let i_max = choose|i: int| 0 <= i < r.len() && r[i] == r.max();
    assert(samples[i_min].on(axis) == r.min());
    assert(samples[i_max].on(axis) == r.max());
    if spans(samples, axis, samples.len() as int, lo, hi) {
        let j_lo = choose|i: int| 0 <= i < samples.len() && (#[trigger] samples[i]).on(axis) == lo;
        let j_hi = choose|i: int| 0 <= i < samples.len() && (#[trigger] samples[i]).on(axis) == hi;
        assert(r[j_lo] == lo);
        assert(r[j_hi] == hi);
    }
    if lo == r.min() && hi == r.max() {
        assert forall|i: int| 0 <= i < samples.len() implies lo <= (#[trigger] samples[i]).on(axis)
            <= hi by {
            assert(r[i] == samples[i].on(axis));
        }
    }
}

/// Each offset of a window lies between the smallest and the largest reading of its
/// axis, and is that reading where the axis saw only one.
pub proof fn lemma_offset_within_readings(samples: Seq<RawMeasurement>, axis: Axis)
    requires
        samples.len() > 0,
    ensures
        readings(samples, axis).min() <= Calibration::of(samples).on(axis) <= readings(
            samples,
            axis,
        ).max(),
        readings(samples, axis).min() == readings(samples, axis).max() ==> Calibration::of(
            samples,
        ).on(axis) == readings(samples, axis).min(),
        i32::MIN <= readings(samples, axis).min() <= readings(samples, axis).max() <= i32::MAX,
{
    let r = readings(samples, axis);
    r.min_ensures();
    r.max_ensures();
    let i_min = choose|i: int| 0 <= i < r.len() && r[i] == r.min();
    let i_max = choose|i: int| 0 <= i < r.len() && r[i] == r.max();
    assert(r[i_min] == samples[i_min].on(axis));
    assert(r[i_max] == samples[i_max].on(axis));
    assert(r.min() <= r[i_max]);
    lemma_midpoint_between(r.min(), r.max());
}

/// Half of the sum of two readings, rounded towards zero.
fn middle(lo: i32, hi: i32) -> (mid: i32)
    requires
        lo <= hi,
    ensures
        mid == midpoint(lo as int, hi as int),
{
    let sum: i64 = lo as i64 + hi as i64;
    (sum / 2) as i32
}

/// Estimates the hard-iron offsets from a window of samples: on each axis the middle
/// between the smallest and the largest reading, rounded towards zero. An empty
/// window has no offsets.
pub fn calibrate(samples: &[RawMeasurement]) -> (calibration: Option<Calibration>)
    ensures
        calibration.is_some() <==> samples@.len() > 0,
        calibration matches Some(c) ==> c == Calibration::of(samples@),
        calibration matches Some(c) ==> forall|axis: Axis|
            readings(samples@, axis).min() <= #[trigger] c.on(axis) <= readings(samples@, axis).max(),
{
    if samples.len() == 0 {
        return None;
    }
    let mut min = samples[0];
    let mut max = samples[0];
    let mut i: usize = 1;
    while i < samples.len()
        invariant
            1 <= i <= samples.len(),
            spans(samples@, Axis::X, i as int, min.x as int, max.x as int),
            spans(samples@, Axis::Y, i as int, min.y as int, max.y as int),
            spans(samples@, Axis::Z, i as int, min.z as int, max.z as int),
        decreases samples.len() - i,
    {
        let sample = samples[i];
        let ghost (lo, hi) = (min, max);
        if sample.x < min.x {
            min.x = sample.x;
        }
        if sample.x > max.x {
            max.x = sample.x;
        }
        if sample.y < min.y {
            min.y = sample.y;
        }
        if sample.y > max.y {
            max.y = sample.y;
        }
        if sample.z < min.z {
            min.z = sample.z;
        }
        if sample.z > max.z {
            max.z = sample.z;
        }
        proof {
            lemma_spans_extend(samples@, Axis::X, i as int, lo.x as int, hi.x as int);
            lemma_spans_extend(samples@, Axis::Y, i as int, lo.y as int, hi.y as int);
            lemma_spans_extend(samples@, Axis::Z, i as int, lo.z as int, hi.z as int);
        }
        i = i + 1;
    }
    proof {
        lemma_spans_min_max(samples@, Axis::X, min.x as int, max.x as int);
        lemma_spans_min_max(samples@, Axis::Y, min.y as int, max.y as int);
        lemma_spans_min_max(samples@, Axis::Z, min.z as int, max.z as int);
        assert forall|axis: Axis|
            readings(samples@, axis).min() <= #[trigger] Calibration::of(samples@).on(axis)
                <= readings(samples@, axis).max() by {
            lemma_offset_within_readings(samples@, axis);
        }
    }
    Some(Calibration { x: middle(min.x, max.x), y: middle(min.y, max.y), z: middle(min.z, max.z) })
}

/// Taking one more reading into a window moves its bounds out to that reading
/// where it lies beyond them.
proof fn lemma_spans_extend(samples: Seq<RawMeasurement>, axis: Axis, upto: int, lo: int, hi: int)
    requires
        0 < upto < samples.len(),
        spans(samples, axis, upto, lo, hi),
    ensures
        spans(
            samples,
            axis,
            upto + 1,
            if samples[upto].on(axis) < lo { samples[upto].on(axis) } else { lo },
            if samples[upto].on(axis) > hi { samples[upto].on(axis) } else { hi },
        ),
{
    let next = samples[upto].on(axis);
    let i_lo = choose|i: int| 0 <= i < upto && (#[trigger] samples[i]).on(axis) == lo;
    let i_hi = choose|i: int| 0 <= i < upto && (#[trigger] samples[i]).on(axis) == hi;
    let new_lo = if next < lo { next } else { lo };
    let new_hi = if next > hi { next } else { hi };
    assert(samples[if next < lo { upto } else { i_lo }].on(axis) == new_lo);
    assert(samples[if next > hi { upto } else { i_hi }].on(axis) == new_hi);
}

/// Takes the offsets of `calibration` off a raw reading, axis by axis.
pub fn calibrated_measurement(measurement: RawMeasurement, calibration: &Calibration) -> (corrected:
    RawMeasurement)
    requires
        calibration.applies_to(measurement),
    ensures
        corrected.x == measurement.x - calibration.x,
        corrected.y == measurement.y - calibration.y,
        corrected.z == measurement.z - calibration.z,
{
    RawMeasurement {
        x: measurement.x - calibration.x,
        y: measurement.y - calibration.y,
        z: measurement.z - calibration.z,
    }
}

} // verus!
