use minimal_vst_pan::{ramp_samples, clamp_pan, GainLaw, GainPair, Pan, PanParams, Smoother};
use minimal_vst_pan::{GAIN_UNIT, PAN_UNIT, SAMPLE_UNIT};

fn ratio(g: u32) -> f64 {
    g as f64 / GAIN_UNIT as f64
}

fn positions() -> Vec<i32> {
    vec![-PAN_UNIT, -10_000_000, -PAN_UNIT / 2, -1, 0, 1, 12345, PAN_UNIT / 2, PAN_UNIT - 1, PAN_UNIT]
}

fn stereo_block(frames: usize, value: i32) -> Vec<Vec<i32>> {
    vec![vec![value; frames], vec![value; frames]]
}

#[test]
fn linear_gains_sum_to_unity() {
    for p in positions() {
        let g = GainLaw::Linear.gains(p);
        assert_eq!(g.left + g.right, GAIN_UNIT);
        assert!((ratio(g.left) + ratio(g.right) - 1.0).abs() < 1e-9);
    }
}

#[test]
fn equal_power_squares_sum_to_unity() {
    for p in positions() {
        let g = GainLaw::EqualPower.gains(p);
        let power = ratio(g.left).powi(2) + ratio(g.right).powi(2);
        assert!((power - 1.0).abs() < 1e-6, "p = {p}: {power}");
    }
}

#[test]
fn hard_left_gains() {
    assert_eq!(GainLaw::Linear.gains(-PAN_UNIT), GainPair { left: GAIN_UNIT, right: 0 });
    assert_eq!(GainLaw::EqualPower.gains(-PAN_UNIT), GainPair { left: GAIN_UNIT, right: 0 });
}

#[test]
fn hard_right_gains() {
    assert_eq!(GainLaw::Linear.gains(PAN_UNIT), GainPair { left: 0, right: GAIN_UNIT });
    assert_eq!(GainLaw::EqualPower.gains(PAN_UNIT), GainPair { left: 0, right: GAIN_UNIT });
}

#[test]
fn centre_gains() {
    let lin = GainLaw::Linear.gains(0);
    assert_eq!(lin, GainPair { left: GAIN_UNIT / 2, right: GAIN_UNIT / 2 });
    assert_eq!(ratio(lin.left), 0.5);
    let eq = GainLaw::EqualPower.gains(0);
    assert_eq!(eq, GainPair { left: 23726566, right: 23726566 });
    assert!((ratio(eq.left) - 0.70711).abs() < 1e-5);
    assert!((ratio(eq.right) - 0.70711).abs() < 1e-5);
    assert!((ratio(eq.left) - 0.5f64.sqrt()).abs() < 1e-7);
}

#[test]
fn equal_power_quarter_right() {
    // sqrt(0.5 * (1 - 0.5)) = 0.5, sqrt(0.5 * (1 + 0.5)) = 0.8660..
    let g = GainLaw::EqualPower.gains(PAN_UNIT / 2);
    assert_eq!(g.left, 16777216);
    assert_eq!(g.right, 29058990);
}

#[test]
fn gains_are_idempotent() {
    for law in [GainLaw::Linear, GainLaw::EqualPower] {
        for p in positions() {
            assert_eq!(law.gains(p), law.gains(p));
        }
    }
}

#[test]
fn smoother_rises_monotonically_to_target() {
    for d in [1u32, 3, 7, 8, 100] {
        let mut s = Smoother::new(d);
        s.set_target(PAN_UNIT);
        assert_eq!(s.current(), 0);
        let mut last = 0;
        let mut seen = Vec::new();
        for _ in 0..d {
            let v = s.next();
            assert!(v >= last, "d = {d}: {v} after {last}");
            assert!(v <= PAN_UNIT);
            last = v;
            seen.push(v);
        }
        assert_eq!(last, PAN_UNIT);
        assert_eq!(s.next(), PAN_UNIT);
        if d == 8 {
            assert_eq!(seen, (1..=8).map(|k| k * (PAN_UNIT / 8)).collect::<Vec<i32>>());
        }
    }
}

#[test]
fn smoother_falls_monotonically_to_target() {
    let mut s = Smoother::new(3);
    s.reset(PAN_UNIT);
    s.set_target(-PAN_UNIT);
    assert_eq!(s.next(), 5592406);
    assert_eq!(s.next(), -5592405);
    assert_eq!(s.next(), -PAN_UNIT);
    assert_eq!(s.next(), -PAN_UNIT);
}

#[test]
fn smoother_retarget_mid_ramp_has_no_jump() {
    let d: u32 = 10;
    let max_step = (2 * PAN_UNIT + d as i32 - 1) / d as i32;
    let mut s = Smoother::new(d);
    s.set_target(PAN_UNIT);
    for _ in 0..4 {
        s.next();
    }
    let before = s.current();
    assert_eq!(before, 6710886);
    s.set_target(-PAN_UNIT);
    assert_eq!(s.current(), before);
    let mut last = before;
    for _ in 0..d {
        let v = s.next();
        assert!((v - last).abs() <= max_step, "{v} after {last}");
        let step = (v - last).abs() as f64 / PAN_UNIT as f64;
        assert!(step <= 2.0 / d as f64 + 1e-6);
        assert!(v <= last);
        last = v;
    }
    assert_eq!(last, -PAN_UNIT);
}

#[test]
fn smoother_with_zero_duration_takes_target_at_once() {
    let mut s = Smoother::new(0);
    s.set_target(30000);
    assert_eq!(s.current(), 0);
    assert_eq!(s.next(), 30000);
    assert_eq!(s.next(), 30000);
    s.set_target(30000);
    assert_eq!(s.next(), 30000);
}

#[test]
fn smoother_clamps_targets() {
    let mut s = Smoother::new(0);
    s.set_target(i32::MAX);
    assert_eq!(s.next(), PAN_UNIT);
    assert_eq!(s.target(), PAN_UNIT);
    s.set_target(i32::MIN);
    assert_eq!(s.next(), -PAN_UNIT);
}

#[test]
fn smoother_set_duration_keeps_value() {
    let mut s = Smoother::new(4);
    s.set_target(PAN_UNIT);
    s.next();
    assert_eq!(s.current(), PAN_UNIT / 4);
    s.set_duration(2);
    assert_eq!(s.duration(), 2);
    assert_eq!(s.current(), PAN_UNIT / 4);
    assert_eq!(s.next(), 5 * PAN_UNIT / 8);
    assert_eq!(s.next(), PAN_UNIT);
}

#[test]
fn clamp_pan_keeps_range() {
    assert_eq!(clamp_pan(-PAN_UNIT - 1), -PAN_UNIT);
    assert_eq!(clamp_pan(PAN_UNIT + 1), PAN_UNIT);
    assert_eq!(clamp_pan(i32::MIN), -PAN_UNIT);
    assert_eq!(clamp_pan(-5), -5);
}

#[test]
fn params_default_and_range() {
    let mut p = PanParams::default();
    assert_eq!(p.target(), 0);
    assert_eq!(PanParams::default_value(), 0);
    assert_eq!(PanParams::min_value(), -PAN_UNIT);
    assert_eq!(PanParams::max_value(), PAN_UNIT);
    assert_eq!(PanParams::id(), "pan");
    p.set_target(1 << 30);
    assert_eq!(p.target(), PAN_UNIT);
    p.set_target(-1000);
    assert_eq!(p.target(), -1000);
}

#[test]
fn ramp_samples_from_time() {
    assert_eq!(ramp_samples(48000, 10), 480);
    assert_eq!(ramp_samples(44100, 1), 44);
    assert_eq!(ramp_samples(0, 50), 0);
    assert_eq!(ramp_samples(u32::MAX, u32::MAX), u32::MAX);
}

#[test]
fn centre_buffer_halves_both_channels() {
    let mut pan = Pan::default();
    let mut buffer = stereo_block(4, SAMPLE_UNIT);
    pan.process(&mut buffer);
    assert_eq!(buffer, stereo_block(4, SAMPLE_UNIT / 2));
    for ch in &buffer {
        for &s in ch {
            assert_eq!(s as f64 / SAMPLE_UNIT as f64, 0.5);
        }
    }
}

#[test]
fn hard_left_buffer_silences_right() {
    let mut pan = Pan::default();
    pan.set_target(-PAN_UNIT);
    let mut buffer = stereo_block(4, SAMPLE_UNIT);
    pan.process(&mut buffer);
    assert_eq!(buffer[0], vec![SAMPLE_UNIT; 4]);
    assert_eq!(buffer[1], vec![0; 4]);
}

#[test]
fn mono_buffer_passes_through() {
    let mut pan = Pan::new(GainLaw::Linear, 4);
    pan.set_target(PAN_UNIT);
    let mut buffer = vec![vec![100, -200, 300]];
    pan.process(&mut buffer);
    assert_eq!(buffer, vec![vec![100, -200, 300]]);
    // the smoother still took one step per frame
    assert_eq!(pan.current(), 3 * PAN_UNIT / 4);
}

#[test]
fn empty_buffer_is_untouched() {
    let mut pan = Pan::default();
    let mut buffer: Vec<Vec<i32>> = Vec::new();
    pan.process(&mut buffer);
    assert!(buffer.is_empty());
    let mut no_frames = vec![Vec::new(), Vec::new()];
    pan.process(&mut no_frames);
    assert_eq!(no_frames, vec![Vec::<i32>::new(), Vec::new()]);
}

#[test]
fn extra_channels_pass_through() {
    let mut pan = Pan::default();
    pan.set_target(PAN_UNIT);
    let mut buffer = vec![vec![1000, 1000], vec![1000, 1000], vec![7, 8], vec![-9, 10]];
    pan.process(&mut buffer);
    assert_eq!(buffer, vec![vec![0, 0], vec![1000, 1000], vec![7, 8], vec![-9, 10]]);
}

#[test]
fn ramped_buffer_follows_smoother() {
    let mut pan = Pan::new(GainLaw::Linear, 4);
    pan.set_target(PAN_UNIT);
    let full = GAIN_UNIT as i32;
    let mut buffer = stereo_block(5, full);
    pan.process(&mut buffer);
    // positions PAN_UNIT / 4 * k, then at rest on PAN_UNIT; a sample of
    // GAIN_UNIT comes out as the gain itself
    let q = PAN_UNIT / 4;
    assert_eq!(buffer[0], vec![3 * q, 2 * q, q, 0, 0]);
    assert_eq!(buffer[1], vec![5 * q, 6 * q, 7 * q, full, full]);
    assert_eq!(pan.current(), PAN_UNIT);
}

#[test]
fn negative_samples_round_toward_zero() {
    let mut pan = Pan::new(GainLaw::EqualPower, 0);
    let mut buffer = vec![vec![-3, 3], vec![-3, 3]];
    pan.process(&mut buffer);
    // 3 * 0.7071.. = 2.12..
    assert_eq!(buffer, vec![vec![-2, 2], vec![-2, 2]]);
}

#[test]
fn extreme_samples_do_not_overflow() {
    let mut pan = Pan::default();
    pan.set_target(-PAN_UNIT);
    let mut buffer = vec![vec![i32::MIN, i32::MAX], vec![i32::MIN, i32::MAX]];
    pan.process(&mut buffer);
    assert_eq!(buffer, vec![vec![i32::MIN, i32::MAX], vec![0, 0]]);
}

#[test]
fn automation_retargets_at_its_frame() {
    let mut pan = Pan::new(GainLaw::Linear, 0);
    let full = GAIN_UNIT as i32;
    let half = full / 2;
    let mut buffer = stereo_block(4, full);
    let targets = vec![None, Some(-PAN_UNIT), None, Some(PAN_UNIT)];
    pan.process_automated(&mut buffer, &targets);
    assert_eq!(buffer[0], vec![half, full, full, 0]);
    assert_eq!(buffer[1], vec![half, 0, 0, full]);
    assert_eq!(pan.target(), PAN_UNIT);
}

#[test]
fn automation_ramps_from_current_value() {
    let mut pan = Pan::new(GainLaw::Linear, 2);
    let full = GAIN_UNIT as i32;
    let mut buffer = stereo_block(4, full);
    let targets = vec![Some(PAN_UNIT), None, Some(0)];
    pan.process_automated(&mut buffer, &targets);
    // positions: PAN_UNIT / 2, PAN_UNIT, then back toward 0: PAN_UNIT / 2, 0
    let h = PAN_UNIT / 2;
    assert_eq!(buffer[1], vec![PAN_UNIT + h, full, PAN_UNIT + h, PAN_UNIT]);
    assert_eq!(pan.current(), 0);
}

#[test]
fn initialize_primes_smoother_on_target() {
    let mut pan = Pan::new(GainLaw::Linear, 100);
    pan.set_target(-PAN_UNIT);
    pan.initialize(10);
    assert_eq!(pan.current(), -PAN_UNIT);
    assert_eq!(pan.target(), -PAN_UNIT);
    assert_eq!(pan.params().target(), -PAN_UNIT);
    assert_eq!(pan.law(), GainLaw::Linear);
    let g = pan.next_gains();
    assert_eq!(g, GainPair { left: GAIN_UNIT, right: 0 });
}
