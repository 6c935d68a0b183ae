use poc_com::error::AudioIoError;
use poc_com::listen::{drain_pending, progress_text, save_error_text, ListenState, Polled, ReceivePhase};
use poc_com::pipeline::{DecodedSocial, ReceivedPayload};
use std::time::Duration;

type State = ListenState<&'static str, u8, f32>;

fn post(author: &str) -> ReceivedPayload {
    ReceivedPayload::Social(DecodedSocial {
        author: author.to_string(),
        post: String::new(),
        media_url: None,
        origin_grid: None,
    })
}

fn author(payload: &ReceivedPayload) -> &str {
    match payload {
        ReceivedPayload::Social(s) => &s.author,
        ReceivedPayload::Mail(m) => &m.from,
    }
}

#[test]
fn finished_decodes_are_drained_in_order() {
    let mut state = State::new();
    for i in 1..=6 {
        state.decode_started(vec![i as f32], i);
    }
    assert!(state.is_decoding());
    assert_eq!(state.last_raw_capture, Some(vec![6.0]));
    let results = drain_pending(
        &mut state,
        vec![
            Polled::Finished(Ok(post("a"))),
            Polled::Running,
            Polled::Finished(Err("first".to_string())),
            Polled::Gone,
            Polled::Finished(Ok(post("b"))),
            Polled::Finished(Err("second".to_string())),
        ],
    );
    let authors: Vec<&str> = results.iter().map(author).collect();
    assert_eq!(authors, vec!["a", "b"]);
    assert_eq!(state.pending, vec![2]);
    assert_eq!(state.error.as_deref(), Some("second"));
    assert!(drain_pending(&mut state, vec![Polled::Running]).is_empty());
    assert_eq!(state.pending, vec![2]);
    assert!(drain_pending(&mut state, vec![Polled::Gone]).is_empty());
    assert!(!state.is_decoding());
    assert_eq!(state.error.as_deref(), Some("second"));
}

#[test]
fn a_session_starts_polls_and_stops() {
    let mut state = State::new();
    assert_eq!(state.status_label(), "Not listening.");
    state.start(Err(AudioIoError::DeviceNotFound("mic".to_string())), 0);
    assert_eq!(state.error.as_deref(), Some("audio device not found: mic"));
    assert!(matches!(state.phase, ReceivePhase::Idle));
    assert_eq!(state.energy_window(), None);
    assert!(!state.poll_due(u64::MAX));

    state.start(Ok(("reception", 8_000)), 1_000);
    assert!(state.error.is_none());
    assert_eq!(state.status_label(), "Calibrating to ambient noise...");
    assert_eq!(state.energy_window(), Some(800));
    assert!(!state.poll_due(1_000 + 99_999_999));
    assert!(state.poll_due(1_000 + 100_000_000));
    assert!(!state.poll_due(0));
    assert_eq!(state.elapsed(1_500), 500);
    assert_eq!(state.elapsed(0), 0);

    let quiet = 0.0005f32.to_bits();
    let loud = 0.5f32.to_bits();
    for i in 0..10 {
        assert!(state.accepts(quiet));
        assert_eq!(state.poll(Some(quiet), 800 * i, i as u64), None);
    }
    assert_eq!(state.status_label(), "Listening for a transmission...");
    assert_eq!(state.poll(Some(loud), 20_000, 11), None);
    assert_eq!(state.status_label(), "Signal detected -- receiving...");
    assert_eq!(state.poll(Some(quiet), 30_000, 12), None);
    assert_eq!(state.poll(None, 0, 13), None);
    assert_eq!(state.poll(Some(quiet), 46_000, 14), Some((19_200, 30_000)));
    assert_eq!(state.stop(), Some("reception"));
    assert_eq!(state.stop(), None);
    assert_eq!(state.poll(Some(loud), 50_000, 15), None);
}

#[test]
fn energies_that_are_not_numbers_are_told_apart() {
    let mut state = State::new();
    assert!(state.accepts(f32::NAN.to_bits()));
    state.start(Ok(("reception", 8_000)), 0);
    assert!(state.accepts(f32::NAN.to_bits()));
    for i in 0..9 {
        state.poll(Some(0), i, 0);
    }
    assert!(!state.accepts(f32::NAN.to_bits()));
}

#[test]
fn the_session_reports_its_progress() {
    for ns in [0u64, 49_999_999, 50_000_000, 1_250_000_000, 61_000_000_000] {
        let elapsed = Duration::from_nanos(ns).as_secs_f32();
        assert_eq!(
            progress_text(ns, 4800, 2),
            format!("Elapsed: {elapsed:.1}s -- {} samples captured -- {} pending decode(s)", 4800, 2)
        );
    }
    assert_eq!(save_error_text("disk full"), "couldn't save raw capture: disk full");
    let mut state = State::new();
    state.fail("no data chunk found in WAV".to_string());
    assert_eq!(state.error.as_deref(), Some("no data chunk found in WAV"));
}
