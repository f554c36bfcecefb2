//! A stereo panning engine in fixed point.
//!
//! A pan position is an `i32` in `[-PAN_UNIT, PAN_UNIT]`, where `-PAN_UNIT`
//! is hard left, `0` the centre and `PAN_UNIT` hard right. A smoother ramps
//! the effective position linearly toward the latest target, one step per
//! sample. A gain law turns each smoothed position into a pair of channel
//! gains over the fixed denominator `GAIN_UNIT`, and the buffer processor
//! scales the first two channels of every frame by them.

pub mod param;
pub mod smoother;
pub mod gain;
pub mod engine;

pub use param::{clamp_pan, PanParams, PAN_UNIT};
pub use smoother::{ramp_samples, Smoother};
pub use gain::{GainLaw, GainPair, GAIN_UNIT};
pub use engine::{Pan, SAMPLE_UNIT};
