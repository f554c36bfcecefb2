use vstd::prelude::*;

verus! {

/// The fixed-point value of a fully right pan position (`1.0`).
pub const PAN_UNIT: i32 = 16777216;

/// A position inside the pan range `[-PAN_UNIT, PAN_UNIT]`.
pub open spec fn in_pan_range(p: int) -> bool {
    -PAN_UNIT <= p <= PAN_UNIT
}

/// The nearest position of the pan range to `v`.
pub open spec fn clamped(v: int) -> int {
    if v < -PAN_UNIT {
        -PAN_UNIT as int
    } else if v > PAN_UNIT {
        PAN_UNIT as int
    } else {
        v
    }
}

/// Brings any requested value into the pan range; out-of-range requests are
/// a normal input and land on the nearest bound.
pub fn clamp_pan(v: i32) -> (r: i32)
    ensures
        r == clamped(v as int),
        in_pan_range(r as int),
{
    if v < -PAN_UNIT {
        -PAN_UNIT
    } else if v > PAN_UNIT {
        PAN_UNIT
    } else {
        v
    }
}

/// The pan control as the host sees it: the latest requested target,
/// always inside the pan range, starting at the centre.
pub struct PanParams {
    target: i32,
}

impl PanParams {
    /// The target currently requested.
    pub closed spec fn spec_target(&self) -> int {
        self.target as int
    }

    pub open spec fn wf(&self) -> bool {
        in_pan_range(self.spec_target())
    }

    /// A control at its default position, the centre.
    pub fn new() -> (r: PanParams)
        ensures
            r.wf(),
            r.spec_target() == 0,
    {
        PanParams { target: 0 }
    }

    /// The lowest value of the range (hard left).
    pub fn min_value() -> (r: i32)
        ensures
            r == -PAN_UNIT,
    {
        -PAN_UNIT
    }

    /// The highest value of the range (hard right).
    pub fn max_value() -> (r: i32)
        ensures
            r == PAN_UNIT,
    {
        PAN_UNIT
    }

    /// The value a fresh control starts at (the centre).
    pub fn default_value() -> (r: i32)
        ensures
            r == 0,
    {
        0
    }

    /// The host identifier of the control.
    pub fn id() -> (r: &'static str)
        ensures
            r@ == seq!['p', 'a', 'n'],
    {
        proof {
            reveal_strlit("pan");
        }
        "pan"
    }

    /// Stores a new target, clamped into the range.
    pub fn set_target(&mut self, v: i32)
        ensures
            final(self).wf(),
            final(self).spec_target() == clamped(v as int),
    {
        self.target = clamp_pan(v);
    }

    /// The latest requested target.
    pub fn target(&self) -> (r: i32)
        requires
            self.wf(),
        ensures
            r == self.spec_target(),
            in_pan_range(r as int),
    {
        self.target
    }
}

impl Default for PanParams {
    fn default() -> (r: PanParams)
        ensures
            r.wf(),
            r.spec_target() == 0,
    {
        PanParams::new()
    }
}

} // verus!
