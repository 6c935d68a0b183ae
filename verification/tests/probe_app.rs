use poc_com::device::{device_lists, DeviceInfo};
use poc_com::error::AudioIoError;
use poc_com::probe_app::{capture_length_text, meter_window, ChannelProbeApp, TxState};
use std::time::Duration;

type App = ChannelProbeApp<&'static str, u8, &'static str>;

fn devices(names: &[&str]) -> Vec<DeviceInfo> {
    names.iter().map(|n| DeviceInfo { name: n.to_string() }).collect()
}

fn app(inputs: &[&str], outputs: &[&str]) -> App {
    App::new(device_lists(Ok(devices(inputs)), Ok(devices(outputs))), 0)
}

#[test]
fn devices_are_picked_and_refreshed() {
    let mut app = app(&["a", "b"], &["c"]);
    assert_eq!(app.status, "Idle. Pick devices, then \"Start Listening\".");
    assert_eq!((app.selected_input.as_deref(), app.selected_output.as_deref()), (Some("a"), Some("c")));
    app.selected_input = Some("b".to_string());
    app.refresh_devices(Ok(devices(&["x", "b"])), Ok(devices(&["y"])));
    assert_eq!((app.selected_input.as_deref(), app.selected_output.as_deref()), (Some("b"), Some("y")));
    app.refresh_devices(Err(AudioIoError::NoHostDevices("gone".to_string())), Ok(devices(&[])));
    assert_eq!(app.device_error.as_deref(), Some("could not enumerate audio devices: gone"));
    assert_eq!(app.input_devices.len(), 2);
    app.refresh_devices(Ok(devices(&[])), Ok(devices(&[])));
    assert!(app.device_error.is_none() && app.selected_input.is_none() && app.selected_output.is_none());
}

#[test]
fn listening_is_started_stopped_and_analyzed() {
    let mut app = app(&["mic"], &[]);
    assert!(!app.is_live());
    app.start_listening(Some(Err(AudioIoError::StreamBuild("x".to_string()))));
    assert_eq!(app.status, "Failed to start capture: failed to build audio stream: x");
    app.start_listening(Some(Ok("reception")));
    assert_eq!(app.status, "Listening on \"mic\"...");
    assert!(app.is_live());
    assert!(!app.feed_due(14_999_999));
    assert!(app.feed_due(15_000_000));
    assert!(!app.feed_due(15_000_001));
    assert_eq!(app.take_reception(), Some("reception"));
    assert!(!app.feed_due(u64::MAX));
    app.analyzed(123_456, true, "report", Some("capture.wav".to_string()));
    assert_eq!(
        app.status,
        format!("Analyzed {:.2}s capture -- start marker found cleanly.", 123_456f32 / 48_000.0)
    );
    assert_eq!(app.last_save_path.as_deref(), Some("capture.wav"));
    app.analyzed(1, false, "second", None);
    assert_eq!(
        app.status,
        "Analyzed capture -- start marker was NOT found reliably (see warning below). Check PTT/levels/routing."
    );
    assert_eq!(app.last_save_path.as_deref(), Some("capture.wav"));
    assert_eq!(app.last_report, Some("second"));
    assert_eq!(app.take_reception(), None);
    assert_eq!(app.status, "Not currently listening.");
    app.selected_input = None;
    app.start_listening(None);
    assert_eq!(app.status, "No input device selected.");
}

#[test]
fn the_signal_plays_after_its_countdown() {
    let mut silent = app(&[], &[]);
    silent.start_play_countdown(0);
    assert_eq!(silent.status, "No output device selected.");
    assert!(!silent.tx_busy());

    let mut app = app(&[], &["spk"]);
    app.start_play_countdown(500);
    assert!(app.tx_busy() && app.is_live());
    for ns in [0u64, 1, 1_500_000_000, 2_949_999_999, 2_950_000_001, 2_999_999_900, 2_999_999_999, 3_000_000_000, 4_000_000_000] {
        let elapsed = Duration::from_nanos(ns).as_secs_f32();
        assert_eq!(app.playback_due(500 + ns), elapsed >= 3.0, "{ns}");
        let remaining = (3.0 - elapsed).max(0.0);
        assert_eq!(app.tx_label(500 + ns), Some(format!("Key up PTT now -- playback in {remaining:.1}s")), "{ns}");
    }
    app.playback_started(Ok(3));
    assert_eq!(app.status, "Playing diagnostic signal...");
    assert_eq!(app.tx_label(0).as_deref(), Some("Transmitting..."));
    assert!(!app.playback_due(u64::MAX));
    app.playback_polled(false);
    assert!(matches!(app.tx, TxState::Playing { handle: 3 }));
    app.playback_polled(true);
    assert_eq!(app.status, "Playback finished.");
    assert_eq!(app.tx_label(0), None);
    app.start_play_countdown(0);
    app.playback_started(Err(AudioIoError::DeviceNotFound("spk".to_string())));
    assert_eq!(app.status, "Failed to start playback: audio device not found: spk");
    assert!(!app.tx_busy());
}

#[test]
fn lengths_and_meters() {
    for n in [0usize, 1, 239, 240, 241, 48_000, 1_234_567] {
        assert_eq!(capture_length_text(n), format!("{:.2}", n as f32 / 48_000.0));
    }
    assert_eq!(meter_window(48_000), 4_800);
    assert_eq!(meter_window(3), 1);
}
