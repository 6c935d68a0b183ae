use poc_com::vad::{VadEvent, VadState, VadTracker};

fn bits(x: f32) -> Option<u32> {
    Some(x.to_bits())
}

fn calibrated(rate: u32, noise: f32) -> VadTracker {
    let mut tracker = VadTracker::new(rate);
    for i in 0..10 {
        assert!(tracker.accepts(noise.to_bits()));
        assert_eq!(tracker.poll(bits(noise), i * 100), VadEvent::Nothing);
    }
    tracker
}

#[test]
fn the_noise_floor_is_the_median() {
    let mut tracker = VadTracker::new(48_000);
    assert_eq!(tracker.status_label(), "Calibrating to ambient noise...");
    for (i, e) in [9.0f32, 1.0, 8.0, 2.0, 7.0, 3.0, 6.0, 4.0, 5.0, 0.0].iter().enumerate() {
        assert_eq!(tracker.poll(bits(*e), i), VadEvent::Nothing);
    }
    assert_eq!(f32::from_bits(tracker.noise_floor), 5.0);
    assert_eq!(tracker.status_label(), "Listening for a transmission...");
}

#[test]
fn a_transmission_becomes_a_segment() {
    let rate = 48_000usize;
    let mut tracker = calibrated(rate as u32, 0.001);
    // Four times the floor is above the smallest threshold here.
    assert_eq!(tracker.poll(bits(0.004), 100_000), VadEvent::Nothing);
    assert_eq!(tracker.status_label(), "Listening for a transmission...");
    assert_eq!(tracker.poll(bits(0.0041), 100_000), VadEvent::Nothing);
    assert_eq!(tracker.status_label(), "Signal detected -- receiving...");
    assert_eq!(tracker.poll(bits(0.5), 150_000), VadEvent::Nothing);
    // Quiet, loud again, then quiet for two seconds.
    assert_eq!(tracker.poll(bits(0.0), 200_000), VadEvent::Nothing);
    assert_eq!(tracker.poll(bits(0.5), 250_000), VadEvent::Nothing);
    assert_eq!(tracker.poll(bits(0.0), 300_000), VadEvent::Nothing);
    assert_eq!(tracker.poll(bits(0.0), 300_000 + 2 * rate - 1), VadEvent::Nothing);
    assert_eq!(
        tracker.poll(bits(0.0), 300_000 + 2 * rate),
        VadEvent::SegmentReady { start_idx: 100_000 - 4_800, end_idx: 300_000 }
    );
    assert!(matches!(tracker.state, VadState::Waiting));
}

#[test]
fn the_smallest_threshold_holds_in_silence() {
    let mut tracker = calibrated(8_000, 0.0);
    tracker.poll(bits(0.003), 1_000);
    assert!(matches!(tracker.state, VadState::Waiting));
    tracker.poll(bits(0.0030001), 1_000);
    assert!(matches!(tracker.state, VadState::Active { start_idx: 200, quiet_since_idx: None }));
}

#[test]
fn a_stuck_channel_is_cut_off() {
    let rate = 8_000usize;
    let mut tracker = calibrated(rate as u32, 0.001);
    tracker.poll(bits(1.0), 800);
    assert_eq!(tracker.poll(bits(1.0), 600 * rate - 1), VadEvent::Nothing);
    assert_eq!(tracker.poll(bits(1.0), 600 * rate), VadEvent::SegmentReady { start_idx: 0, end_idx: 600 * rate });
}

#[test]
fn ten_minutes_are_counted_in_single_precision() {
    // At 48 kHz one sample less than ten minutes already counts as ten.
    let mut tracker = calibrated(48_000, 0.001);
    tracker.poll(bits(1.0), 4_800);
    assert_eq!(tracker.poll(bits(1.0), 28_799_998), VadEvent::Nothing);
    assert_eq!(
        tracker.poll(bits(1.0), 28_799_999),
        VadEvent::SegmentReady { start_idx: 0, end_idx: 28_799_999 }
    );
    assert!(28_799_999f32 / 48_000f32 >= 600.0);
    // Short by no more than one part in 4,194,304.
    assert!(28_799_999u64 * 4_194_304 >= 600 * 48_000 * 4_194_303);
}

#[test]
fn ten_minutes_are_exact_at_low_rates() {
    let rate = 27_962usize;
    let mut tracker = calibrated(rate as u32, 0.001);
    tracker.poll(bits(1.0), 2_000);
    assert_eq!(tracker.poll(bits(1.0), 600 * rate - 1), VadEvent::Nothing);
    assert_eq!(tracker.poll(bits(1.0), 600 * rate), VadEvent::SegmentReady { start_idx: 0, end_idx: 600 * rate });
}

#[test]
fn an_empty_capture_and_odd_energies_change_nothing() {
    let mut tracker = VadTracker::new(48_000);
    assert_eq!(tracker.poll(None, 0), VadEvent::Nothing);
    assert!(matches!(&tracker.state, VadState::Calibrating { energies } if energies.is_empty()));
    for i in 0..9 {
        tracker.poll(bits(0.1), i);
    }
    assert!(!tracker.accepts(f32::NAN.to_bits()));
    assert!(!tracker.accepts((-1.0f32).to_bits()));
    assert!(tracker.accepts(f32::INFINITY.to_bits()));
    tracker.poll(bits(0.1), 9);
    assert!(tracker.accepts(f32::NAN.to_bits()));
    assert_eq!(tracker.poll(bits(f32::NAN), 10), VadEvent::Nothing);
    assert!(matches!(tracker.state, VadState::Waiting));
}

#[test]
fn thresholds_agree_with_floating_point() {
    for noise in [0.0f32, 1e-40, 0.0005, 0.00075, 0.00076, 0.001, 0.37, 1.0, 3e37, 8.5e37, 1e38, f32::INFINITY] {
        let threshold = (noise * 4.0f32).max(0.003);
        for energy in [0.0f32, 0.003, 0.0030000001, threshold, f32::from_bits(threshold.to_bits().wrapping_sub(1)), 1.0, f32::INFINITY] {
            let mut tracker = calibrated(8_000, noise);
            tracker.poll(bits(energy), 10_000);
            assert_eq!(matches!(tracker.state, VadState::Active { .. }), energy > threshold, "{energy} over {noise}");
        }
    }
}

#[test]
fn windows_and_intervals() {
    assert_eq!(VadTracker::poll_interval(), 100);
    assert_eq!(VadTracker::new(48_000).window_len(), 4_800);
    assert_eq!(VadTracker::new(5).window_len(), 1);
    assert_eq!(VadTracker::new(0).window_len(), 1);
}
