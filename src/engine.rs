use vstd::prelude::*;
use crate::gain::{law_gains, GainLaw, GainPair, GAIN_UNIT};
use crate::param::{clamped, in_pan_range, PanParams};
use crate::smoother::{lemma_advanced_by, RampState, Smoother};

verus! {

/// The fixed-point value of a full-scale sample (`1.0`) when samples are
/// exchanged with a floating-point host. The processor itself works on any
/// scale: it only multiplies by gains.
pub const SAMPLE_UNIT: i32 = 16777216;

/// `sample` scaled by `gain / GAIN_UNIT`, rounded toward zero.
pub open spec fn scaled(sample: int, gain: int) -> int {
    if sample >= 0 {
        sample * gain / (GAIN_UNIT as int)
    } else {
        -((-sample) * gain / (GAIN_UNIT as int))
    }
}

/// The smoothed pan position used for frame `i` of a block whose first
/// frame starts from the smoother state `st`: one step is taken per frame.
pub open spec fn frame_position(st: RampState, i: int) -> int {
    st.advanced_by((i + 1) as nat).current()
}

/// The target that automation requests just before frame `i`, if any.
pub open spec fn event_at(targets: Seq<Option<i32>>, i: int) -> Option<i32> {
    if 0 <= i < targets.len() {
        targets[i]
    } else {
        None
    }
}

/// The smoother state just before the step of frame `i`, starting from `st`,
/// with the automation `targets` applied in frame order.
pub open spec fn before_frame(st: RampState, targets: Seq<Option<i32>>, i: nat) -> RampState
    decreases i,
{
    let prev = if i == 0 {
        st
    } else {
        before_frame(st, targets, (i - 1) as nat).advanced()
    };
    match event_at(targets, i as int) {
        Some(v) => prev.retargeted(v as int),
        None => prev,
    }
}

/// The smoother state after `n` frames of a block.
pub open spec fn after_frames(st: RampState, targets: Seq<Option<i32>>, n: nat) -> RampState {
    if n == 0 {
        st
    } else {
        before_frame(st, targets, (n - 1) as nat).advanced()
    }
}

/// The smoothed pan position used for frame `i` under automation.
pub open spec fn automated_position(st: RampState, targets: Seq<Option<i32>>, i: int) -> int {
    before_frame(st, targets, i as nat).advanced().current()
}

/// Every channel of the buffer has the same number of frames.
pub open spec fn rectangular(b: Seq<Vec<i32>>) -> bool {
    forall|c: int| 0 <= c < b.len() ==> #[trigger] b[c]@.len() == b[0]@.len()
}

/// The number of frames of a buffer: the length of its channels.
pub open spec fn frame_count(b: Seq<Vec<i32>>) -> nat {
    if b.len() == 0 {
        0
    } else {
        b[0]@.len()
    }
}

/// `after` is `before` panned frame by frame, where `gains(i)` is the pair
/// of gains of frame `i`: with two channels or more, frame `i` of the first
/// channel is scaled by the left gain and that of the second by the right
/// gain; further channels are left as they are. A mono buffer has no second
/// channel to pan toward and passes through unchanged.
pub open spec fn panned(
    before: Seq<Vec<i32>>,
    after: Seq<Vec<i32>>,
    gains: spec_fn(int) -> (int, int),
) -> bool {
    &&& after.len() == before.len()
    &&& forall|c: int| 0 <= c < before.len() ==> #[trigger] after[c]@.len() == before[c]@.len()
    &&& if before.len() >= 2 {
        &&& forall|i: int|
            0 <= i < frame_count(before) ==> #[trigger] after[0]@[i] == scaled(
                before[0]@[i] as int,
                gains(i).0,
            )
        &&& forall|i: int|
            0 <= i < frame_count(before) ==> #[trigger] after[1]@[i] == scaled(
                before[1]@[i] as int,
                gains(i).1,
            )
        &&& forall|c: int| 2 <= c < before.len() ==> #[trigger] after[c]@ == before[c]@
    } else {
        forall|c: int| 0 <= c < before.len() ==> #[trigger] after[c]@ == before[c]@
    }
}

/// Without automation, frame `i` takes the smoother's `i + 1`-th step.
proof fn lemma_no_events(st: RampState, i: nat)
    ensures
        before_frame(st, Seq::empty(), i) == st.advanced_by(i),
    decreases i,
{
    if i > 0 {
        lemma_no_events(st, (i - 1) as nat);
    }
}

/// Scales one sample by a gain.
fn scale_sample(sample: i32, gain: u32) -> (r: i32)
    requires
        gain <= GAIN_UNIT,
    ensures
        r == scaled(sample as int, gain as int),
{
    let magnitude: u64 = if sample >= 0 {
        sample as u64
    } else {
        (-(sample as i64)) as u64
    };
    assert(magnitude * gain <= magnitude * GAIN_UNIT) by (nonlinear_arith)
        requires
            gain <= GAIN_UNIT,
    ;
    assert(magnitude * gain >= 0) by (nonlinear_arith);
    assert(magnitude * gain / (GAIN_UNIT as int) <= magnitude) by (nonlinear_arith)
        requires
            magnitude * gain <= magnitude * GAIN_UNIT,
            magnitude * gain >= 0,
    ;
    let part: u64 = magnitude * (gain as u64) / (GAIN_UNIT as u64);
    if sample >= 0 {
        part as i32
    } else {
        -(part as i64) as i32
    }
}

/// The state of the panning engine.
pub ghost struct PanState {
    /// The pan target last requested, inside the pan range.
    pub target: int,
    /// The smoother's ramp.
    pub ramp: RampState,
    /// The gain law in use.
    pub law: GainLaw,
}

/// The panning effect: a pan control, the smoother that follows it and the
/// gain law applied to every frame.
pub struct Pan {
    params: PanParams,
    smoother: Smoother,
    law: GainLaw,
}

impl View for Pan {
    type V = PanState;

    closed spec fn view(&self) -> PanState {
        PanState { target: self.params.spec_target(), ramp: self.smoother@, law: self.law }
    }
}

impl Pan {
    pub closed spec fn wf(&self) -> bool {
        &&& self.params.wf()
        &&& self.smoother.wf()
        &&& self.smoother@.target == self.params.spec_target()
    }

    /// What the invariant of an effect tells its callers: the smoother's ramp
    /// is well formed, so every position it yields lies in the pan range, and
    /// it heads for the target last requested.
    pub proof fn lemma_wf_view(&self)
        requires
            self.wf(),
        ensures
            self@.ramp.wf(),
            self@.ramp.target == self@.target,
            in_pan_range(self@.target),
    {
    }

    /// An effect at rest on the centre, with ramps of `ramp_samples` samples.
    pub fn new(law: GainLaw, ramp_samples: u32) -> (r: Pan)
        ensures
            r.wf(),
            r@ == (PanState {
                target: 0,
                ramp: RampState { start: 0, target: 0, duration: ramp_samples as nat, elapsed: 0 },
                law,
            }),
    {
        Pan { params: PanParams::new(), smoother: Smoother::new(ramp_samples), law }
    }

    /// Primes the smoother for processing: it comes to rest on the current
    /// target, and its ramps last `ramp_samples` samples from now on.
    pub fn initialize(&mut self, ramp_samples: u32)
        requires
            old(self).wf(),
        ensures
            final(self).wf(),
            final(self)@ == (PanState {
                ramp: RampState {
                    start: old(self)@.target,
                    target: old(self)@.target,
                    duration: ramp_samples as nat,
                    elapsed: 0,
                },
                ..old(self)@
            }),
    {
        let t = self.params.target();
        self.smoother = Smoother::new(ramp_samples);
        self.smoother.reset(t);
    }

    /// Requests pan position `v`, clamped into the pan range; the smoother
    /// ramps toward it from the value in effect now.
    pub fn set_target(&mut self, v: i32)
        requires
            old(self).wf(),
        ensures
            final(self).wf(),
            final(self)@ == (PanState {
                target: clamped(v as int),
                ramp: old(self)@.ramp.retargeted(v as int),
                ..old(self)@
            }),
    {
        self.params.set_target(v);
        self.smoother.set_target(v);
    }

    /// The pan target last requested.
    pub fn target(&self) -> (r: i32)
        requires
            self.wf(),
        ensures
            r == self@.target,
    {
        self.params.target()
    }

    /// The smoothed pan position in effect now, for display.
    pub fn current(&self) -> (r: i32)
        requires
            self.wf(),
        ensures
            r == self@.ramp.current(),
            in_pan_range(r as int),
    {
        self.smoother.current()
    }

    /// The gain law in use.
    pub fn law(&self) -> (r: GainLaw)
        ensures
            r == self@.law,
    {
        self.law
    }

    /// The pan control.
    pub fn params(&self) -> (r: &PanParams)
        requires
            self.wf(),
        ensures
            r.wf(),
            r.spec_target() == self@.target,
    {
        &self.params
    }

    /// Advances the smoother by one sample and returns the gains of the new
    /// position.
    pub fn next_gains(&mut self) -> (r: GainPair)
        requires
            old(self).wf(),
        ensures
            final(self).wf(),
            final(self)@ == (PanState { ramp: old(self)@.ramp.advanced(), ..old(self)@ }),
            (r.left as int, r.right as int) == law_gains(old(self)@.law, final(self)@.ramp.current()),
            r.left <= GAIN_UNIT,
            r.right <= GAIN_UNIT,
    {
        let p = self.smoother.next();
        self.law.gains(p)
    }

    /// Pans one block of audio in place, channel by channel, taking one
    /// smoother step per frame.
    pub fn process(&mut self, buffer: &mut Vec<Vec<i32>>)
        requires
            old(self).wf(),
            rectangular(old(buffer)@),
        ensures
            final(self).wf(),
            final(self)@ == (PanState {
                ramp: old(self)@.ramp.advanced_by(frame_count(old(buffer)@)),
                ..old(self)@
            }),
            panned(
                old(buffer)@,
                final(buffer)@,
                |i: int| law_gains(old(self)@.law, frame_position(old(self)@.ramp, i)),
            ),
    {
        let none: Vec<Option<i32>> = Vec::new();
        self.process_automated(buffer, &none);
        proof {
            let st = old(self)@.ramp;
            let n = frame_count(old(buffer)@);
            assert(none@ == Seq::<Option<i32>>::empty());
            if n > 0 {
                lemma_no_events(st, (n - 1) as nat);
                assert(st.advanced_by(n) == st.advanced_by((n - 1) as nat).advanced());
            }
            lemma_advanced_by(st, n);
            assert forall|i: int| 0 <= i < n implies automated_position(st, none@, i)
                == frame_position(st, i) by {
                lemma_no_events(st, i as nat);
            }
        }
    }

    /// Pans one block of audio in place with sample-accurate automation:
    /// `targets[i]`, where present, is a new target requested just before
    /// frame `i`. Frames past the end of `targets` bring no request.
    pub fn process_automated(&mut self, buffer: &mut Vec<Vec<i32>>, targets: &Vec<Option<i32>>)
        requires
            old(self).wf(),
            rectangular(old(buffer)@),
        ensures
            final(self).wf(),
            final(self)@ == (PanState {
                target: after_frames(old(self)@.ramp, targets@, frame_count(old(buffer)@)).target,
                ramp: after_frames(old(self)@.ramp, targets@, frame_count(old(buffer)@)),
                ..old(self)@
            }),
            panned(
                old(buffer)@,
                final(buffer)@,
                |i: int| law_gains(old(self)@.law, automated_position(old(self)@.ramp, targets@, i)),
            ),
    {
        let ghost before = buffer@;
        let ghost st = self@.ramp;
        let ghost law = self@.law;
        let frames: usize = if buffer.len() == 0 {
            0
        } else {
            buffer[0].len()
        };
        let stereo = buffer.len() >= 2;
        let mut i: usize = 0;
        while i < frames
            invariant
                self.wf(),
                self@.ramp == after_frames(st, targets@, i as nat),
                self@.target == self@.ramp.target,
                self@.law == law,
                i == 0 ==> self@ == old(self)@,
                st == old(self)@.ramp,
                law == old(self)@.law,
                before == old(buffer)@,
                rectangular(before),
                frames == frame_count(before),
                stereo == (before.len() >= 2),
                0 <= i <= frames,
                buffer@.len() == before.len(),
                forall|c: int| 0 <= c < before.len() ==> #[trigger] buffer@[c]@.len() == before[c]@.len(),
                stereo ==> forall|j: int|
                    0 <= j < i ==> #[trigger] buffer@[0]@[j] == scaled(
                        before[0]@[j] as int,
                        law_gains(law, automated_position(st, targets@, j)).0,
                    ),
                stereo ==> forall|j: int|
                    0 <= j < i ==> #[trigger] buffer@[1]@[j] == scaled(
                        before[1]@[j] as int,
                        law_gains(law, automated_position(st, targets@, j)).1,
                    ),
                stereo ==> forall|j: int| i <= j < frames ==> #[trigger] buffer@[0]@[j] == before[0]@[j],
                stereo ==> forall|j: int| i <= j < frames ==> #[trigger] buffer@[1]@[j] == before[1]@[j],
                stereo ==> forall|c: int| 2 <= c < before.len() ==> #[trigger] buffer@[c]@ == before[c]@,
                !stereo ==> forall|c: int| 0 <= c < before.len() ==> #[trigger] buffer@[c]@ == before[c]@,
            decreases frames - i,
        {
            if i < targets.len() {
                if let Some(v) = targets[i] {
                    self.set_target(v);
                }
            }
            assert(self@.ramp == before_frame(st, targets@, i as nat));
            let g = self.next_gains();
            if stereo {
                let a = buffer[0][i];
                buffer[0][i] = scale_sample(a, g.left);
                let b = buffer[1][i];
                buffer[1][i] = scale_sample(b, g.right);
            }
            i = i + 1;
        }
    }
}

impl Default for Pan {
    /// The linear law with no smoothing: each frame takes the target as it is.
    fn default() -> (r: Pan)
        ensures
            r.wf(),
            r@ == (PanState {
                target: 0,
                ramp: RampState { start: 0, target: 0, duration: 0, elapsed: 0 },
                law: GainLaw::Linear,
            }),
    {
        Pan::new(GainLaw::Linear, 0)
    }
}

} // verus!
