use poc_com::error::AudioIoError;
use poc_com::pipeline::PreparedTx;
use poc_com::send::{
    counter_text, countdown_text, failed_text, playing_window, port_warning_text, ready_text, SendPhase, SendState,
    PTT_LEAD_IN_NS, PTT_POST_DELAY_NS,
};
use std::time::Duration;

type State = SendState<f32, u8, u16, &'static str>;

fn prepared() -> PreparedTx<f32> {
    PreparedTx { wave: vec![0.5, -0.5], sample_rate: 48_000, spoken_text: "Ready".to_string() }
}

fn ready() -> State {
    let mut state = State::new();
    assert!(state.free());
    state.prepare(1);
    assert!(!state.free());
    state.prepared(Ok(prepared()));
    state
}

fn launched(key: Option<Result<&'static str, AudioIoError>>) -> State {
    let mut state = ready();
    state.choose_action(true, false, None, 1_000);
    assert!(state.take_launch(1_000 + PTT_LEAD_IN_NS).is_some());
    state.launched(key, Ok(7));
    state
}

#[test]
fn a_message_is_prepared_counted_down_and_sent() {
    let mut state = ready();
    assert!(matches!(state.phase, SendPhase::Prepared { .. }));
    assert_eq!(state.cached_wave, Some((vec![0.5, -0.5], 48_000)));
    assert!(!state.engaged());
    state.choose_action(true, true, Some("ignored".to_string()), 5);
    assert!(state.engaged());
    assert_eq!(state.remaining(5), PTT_LEAD_IN_NS);
    assert!(state.take_launch(5 + PTT_LEAD_IN_NS - 1).is_none());
    assert!(matches!(state.phase, SendPhase::Countdown { .. }));
    let launch = state.take_launch(5 + PTT_LEAD_IN_NS).unwrap();
    assert_eq!(launch.wave, vec![0.5, -0.5]);
    assert!(matches!(&state.phase, SendPhase::Failed(e) if e == "internal state error"));
    state.launched(None, Ok(7));
    assert!(matches!(state.phase, SendPhase::Transmitting { tx: 7, ptt: None }));
    state.audio_polled(false, 9);
    assert!(state.engaged());
    state.audio_polled(true, 9);
    assert!(matches!(state.phase, SendPhase::Done));
    assert!(state.free());
}

#[test]
fn a_keyed_port_is_held_a_little_longer() {
    let mut state = launched(Some(Ok("port")));
    assert!(state.ptt_warning.is_none());
    state.audio_polled(true, 100);
    assert!(matches!(state.phase, SendPhase::Releasing { ptt: Some("port"), .. }));
    state.hold_polled(100 + PTT_POST_DELAY_NS - 1);
    assert!(matches!(state.phase, SendPhase::Releasing { ptt: Some("port"), .. }));
    state.hold_polled(100 + PTT_POST_DELAY_NS);
    assert!(matches!(state.phase, SendPhase::Done));
}

#[test]
fn a_port_that_fails_is_only_a_warning() {
    let mut state = launched(Some(Err(AudioIoError::Ptt("busy".to_string()))));
    assert_eq!(state.ptt_warning.as_deref(), Some("PTT serial port error: busy"));
    assert!(matches!(state.phase, SendPhase::Transmitting { ptt: None, .. }));
    state.audio_polled(true, 1);
    assert!(matches!(state.phase, SendPhase::Done));
}

#[test]
fn failures_can_be_tried_again() {
    let mut state = State::new();
    state.prepare(1);
    state.prepared(Err("upload failed: x".to_string()));
    assert!(matches!(&state.phase, SendPhase::Failed(e) if e == "upload failed: x"));
    assert!(state.free());
    state.try_again();
    assert!(matches!(state.phase, SendPhase::Idle));

    let mut state = ready();
    state.choose_action(true, false, None, 0);
    state.take_launch(PTT_LEAD_IN_NS);
    state.launched(Some(Ok("port")), Err(AudioIoError::DeviceNotFound("spk".to_string())));
    assert!(matches!(&state.phase, SendPhase::Failed(e) if e == "audio device not found: spk"));
}

#[test]
fn choices_have_their_order() {
    let mut state = ready();
    state.choose_action(false, true, Some("disk full".to_string()), 0);
    assert!(matches!(state.phase, SendPhase::Idle));
    assert!(state.cached_wave.is_none());

    let mut state = ready();
    state.choose_action(false, false, Some("disk full".to_string()), 0);
    assert!(matches!(&state.phase, SendPhase::Failed(e) if e == "disk full"));
    assert!(state.cached_wave.is_some());

    let mut state = ready();
    state.choose_action(false, false, None, 0);
    assert!(matches!(state.phase, SendPhase::Prepared { .. }));
    state.reset();
    assert!(matches!(state.phase, SendPhase::Idle));
    assert!(state.cached_wave.is_none());
}

#[test]
fn the_waterfall_follows_playback() {
    assert_eq!(playing_window(0, 100, 1000, 3248), (0, 0));
    assert_eq!(playing_window(50, 100, 10_000, 3248), (1752, 5000));
    assert_eq!(playing_window(200, 100, 10_000, 3248), (6752, 10_000));
    assert_eq!(playing_window(0, 0, 10, 4), (6, 10));
}

#[test]
fn the_user_is_told_what_goes_on() {
    assert_eq!(ready_text(96_000, 48_000), "Ready: 2.0s of speech at 48000 Hz");
    assert_eq!(ready_text(48_000 * 61, 48_000), "Ready: 1m01s of speech at 48000 Hz");
    let odd = 5.0f32 / 0.0;
    assert_eq!(
        ready_text(5, 0),
        format!("Ready: {:.0}m{:02.0}s of speech at 0 Hz", (odd / 60.0).floor(), odd % 60.0)
    );
    let nothing = 0.0f32 / 0.0;
    assert_eq!(
        ready_text(0, 0),
        format!("Ready: {:.0}m{:02.0}s of speech at 0 Hz", (nothing / 60.0).floor(), nothing % 60.0)
    );
    for ns in [0u64, 1, 400_000_000, 1_000_000_000, 2_000_000_001, 2_999_999_999, 3_000_000_000] {
        let seconds = Duration::from_nanos(ns).as_secs_f32().ceil();
        assert_eq!(countdown_text(true, ns), format!("🎙 PTT will key automatically -- starting in {seconds:.0}s"));
        assert_eq!(countdown_text(false, ns), format!("🎙 Press and hold PTT now -- starting in {seconds:.0}s"));
    }
    assert_eq!(port_warning_text("busy"), "⚠ PTT port didn't respond, sending with manual PTT: busy");
    assert_eq!(failed_text("x"), "Failed: x");
    assert_eq!(counter_text("héllo", 60), "5/60 chars");
}
