use poc_com::device::{
    device_lists, find_input_device, find_output_device, first_device, keep_selection, list_input_devices,
    list_output_devices, DeviceInfo,
};
use poc_com::error::AudioIoError;
use poc_com::ptt::{
    after_key_step, after_release_step, command_bytes, key, release, PttStep, BAUD_RATES, DEFAULT_BAUD,
};
use poc_com::rx::{frames, segment_of, Capture, Frame};
use poc_com::tx::{fill_frames, is_over, progress, samples_played, Playback};

fn found(names: &[Option<&str>]) -> Result<Vec<Option<String>>, String> {
    Ok(names.iter().map(|n| n.map(|s| s.to_string())).collect())
}

fn devices(names: &[&str]) -> Vec<DeviceInfo> {
    names.iter().map(|n| DeviceInfo { name: n.to_string() }).collect()
}

#[test]
fn errors_say_what_went_wrong() {
    let text = |e: AudioIoError| e.message();
    assert_eq!(text(AudioIoError::NoHostDevices("x".to_string())), "could not enumerate audio devices: x");
    assert_eq!(text(AudioIoError::DeviceNotFound("x".to_string())), "audio device not found: x");
    assert_eq!(text(AudioIoError::UnsupportedConfig("x".to_string())), "unsupported device audio config: x");
    assert_eq!(text(AudioIoError::StreamBuild("x".to_string())), "failed to build audio stream: x");
    assert_eq!(text(AudioIoError::StreamPlay("x".to_string())), "failed to start audio stream: x");
    assert_eq!(text(AudioIoError::Ptt("x".to_string())), "PTT serial port error: x");
}

#[test]
fn devices_are_listed_and_found_by_name() {
    let names = [Some("mic"), None, Some("line"), Some("mic")];
    assert_eq!(list_input_devices(found(&names)).unwrap(), devices(&["mic", "line", "mic"]));
    assert_eq!(list_output_devices(found(&[])).unwrap(), devices(&[]));
    assert_eq!(find_input_device(found(&names), "mic").unwrap(), 0);
    assert_eq!(find_output_device(found(&names), "line").unwrap(), 2);
    assert_eq!(
        find_input_device(found(&names), "Mic").err().unwrap().message(),
        "audio device not found: Mic"
    );
    assert_eq!(
        list_input_devices(Err("no host".to_string())).err().unwrap().message(),
        "could not enumerate audio devices: no host"
    );
    assert_eq!(
        find_output_device(Err("no host".to_string()), "x").err().unwrap().message(),
        "could not enumerate audio devices: no host"
    );
}

#[test]
fn one_failed_list_leaves_no_devices() {
    let lists = device_lists(Ok(devices(&["a"])), Ok(devices(&["b", "c"])));
    assert_eq!((lists.inputs.len(), lists.outputs.len(), lists.error), (1, 2, None));
    let lists = device_lists(Ok(devices(&["a"])), Err(AudioIoError::NoHostDevices("out".to_string())));
    assert_eq!((lists.inputs.len(), lists.outputs.len()), (0, 0));
    assert_eq!(lists.error.unwrap(), "could not enumerate audio devices: out");
    let lists = device_lists(
        Err(AudioIoError::NoHostDevices("in".to_string())),
        Err(AudioIoError::NoHostDevices("out".to_string())),
    );
    assert_eq!(lists.error.unwrap(), "could not enumerate audio devices: in");
}

#[test]
fn a_selection_stays_while_it_is_on_offer() {
    let list = devices(&["a", "b"]);
    assert_eq!(first_device(&list), Some("a".to_string()));
    assert_eq!(first_device(&devices(&[])), None);
    assert_eq!(keep_selection(&list, Some("b".to_string())), Some("b".to_string()));
    assert_eq!(keep_selection(&list, Some("gone".to_string())), Some("a".to_string()));
    assert_eq!(keep_selection(&list, None), Some("a".to_string()));
    assert_eq!(keep_selection(&devices(&[]), Some("b".to_string())), None);
}

#[test]
fn keying_goes_on_without_all_but_the_port_and_its_line() {
    let mut step = key();
    let mut steps = Vec::new();
    while step != PttStep::Keyed {
        steps.push(step);
        let outcome = match step {
            PttStep::Open | PttStep::Rts { .. } => Ok(()),
            _ => Err("ignored".to_string()),
        };
        step = after_key_step(step, "COM3", outcome).unwrap();
    }
    assert_eq!(
        steps,
        vec![
            PttStep::Open,
            PttStep::Rts { on: true },
            PttStep::Dtr { on: true },
            PttStep::Command { transmit: true },
            PttStep::Flush,
            PttStep::Settle,
        ]
    );
    let open = after_key_step(PttStep::Open, "COM3", Err("busy".to_string()));
    assert_eq!(open.err().unwrap().message(), "PTT serial port error: couldn't open COM3: busy");
    let rts = after_key_step(PttStep::Rts { on: true }, "COM3", Err("io".to_string()));
    assert_eq!(rts.err().unwrap().message(), "PTT serial port error: RTS key-up on COM3 failed: io");
}

#[test]
fn releasing_never_stops_early() {
    let mut step = release();
    let mut steps = Vec::new();
    while step != PttStep::Released {
        steps.push(step);
        step = after_release_step(step);
    }
    assert_eq!(
        steps,
        vec![PttStep::Rts { on: false }, PttStep::Dtr { on: false }, PttStep::Command { transmit: false }, PttStep::Flush]
    );
    assert_eq!(command_bytes(true), b"TX;".to_vec());
    assert_eq!(command_bytes(false), b"RX;".to_vec());
    assert!(BAUD_RATES.contains(&DEFAULT_BAUD));
}

#[test]
fn playback_hands_out_every_sample_and_then_silence() {
    let mut playback = Playback::new(vec![3i16, 4, 5]);
    assert_eq!(playback.next_sample(0), 3);
    assert_eq!((playback.cursor, playback.played), (1, 1));
    assert_eq!(fill_frames(&mut playback, 4, 0), vec![4, 5, 0, 0]);
    assert_eq!((playback.cursor, playback.played), (5, 3));
    assert_eq!(fill_frames(&mut playback, 2, 0), vec![0, 0]);
    assert_eq!((playback.cursor, playback.played), (7, 3));
    let mut partly = Playback::new(vec![3i16, 4, 5]);
    assert_eq!(fill_frames(&mut partly, 0, 0), Vec::<i16>::new());
    assert_eq!((partly.cursor, partly.played), (0, 0));
    assert_eq!(fill_frames(&mut partly, 2, 0), vec![3, 4]);
    assert_eq!((partly.cursor, partly.played), (2, 2));
    assert_eq!(samples_played(2, 3), 2);
    assert_eq!(samples_played(9, 3), 3);
    assert_eq!(progress(1, 4), (1, 4));
    assert_eq!(progress(9, 4), (4, 4));
    assert_eq!(progress(0, 0), (1, 1));
    assert!(is_over(true, 0, 5));
    assert!(is_over(false, 5, 5));
    assert!(!is_over(false, 4, 5));
}

#[test]
fn a_capture_is_read_from_its_tail() {
    let mut capture: Capture<i32> = Capture::new(48_000);
    capture.append(&vec![1, 2, 3]);
    capture.append(&vec![4]);
    assert_eq!(capture.device_rate, 48_000);
    assert_eq!(capture.samples_captured(), 4);
    assert_eq!(capture.snapshot(), vec![1, 2, 3, 4]);
    assert_eq!(capture.tail(2), vec![3, 4]);
    assert_eq!(capture.tail(9), vec![1, 2, 3, 4]);
    assert_eq!(capture.tail(0), Vec::<i32>::new());
    assert_eq!(segment_of(&capture.snapshot(), 1, 3), vec![2, 3]);
    assert_eq!(segment_of(&capture.snapshot(), 1, 30), vec![2, 3, 4]);
    assert_eq!(segment_of(&capture.snapshot(), 10, 30), Vec::<i32>::new());
}

#[test]
fn frames_are_cut_as_chunks_are() {
    for len in 0..20usize {
        for channels in 0..5usize {
            let data: Vec<usize> = (0..len).collect();
            let expected: Vec<Frame> = data
                .chunks(channels.max(1))
                .map(|c| Frame { start: c[0], end: c[c.len() - 1] + 1 })
                .collect();
            assert_eq!(frames(len, channels), expected);
        }
    }
}
