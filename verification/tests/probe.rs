use poc_com::probe::{
    best_found, build_signal, coarse_offsets, drift_samples, end_search, find_marker as search, fine_offsets,
    locate_signal, measured_segments, pick_best, search_limit, tone_frequency, Found, SegmentKind, GAP_SAMPLES, LOWEST_SCORE,
    MARKER_HIGH_HZ, MARKER_LOW_HZ, MARKER_SAMPLES, SAMPLE_RATE, SILENCE_SAMPLES, TONE_COUNT, TONE_END_HZ, TONE_SAMPLES,
    TONE_START_HZ, TONE_STEP_HZ,
};
use std::f32::consts::PI;

fn chirp() -> Vec<f32> {
    let duration = MARKER_SAMPLES as f32 / SAMPLE_RATE as f32;
    let low = MARKER_LOW_HZ as f32;
    let bw = MARKER_HIGH_HZ as f32 - low;
    (0..MARKER_SAMPLES)
        .map(|n| {
            let t = n as f32 / SAMPLE_RATE as f32;
            (2.0 * PI * (low * t + (bw / (2.0 * duration)) * t * t)).sin()
        })
        .collect()
}

fn tone(hz: u32) -> Vec<f32> {
    (0..TONE_SAMPLES).map(|n| (2.0 * PI * hz as f32 * n as f32 / SAMPLE_RATE as f32).sin()).collect()
}

fn normalize_peak(buf: &mut [f32], target_peak: f32) {
    let peak = buf.iter().fold(0.0f32, |acc, &x| acc.max(x.abs()));
    if peak > 1e-9 {
        let scale = target_peak / peak;
        for x in buf.iter_mut() {
            *x *= scale;
        }
    }
}

fn signal() -> (Vec<f32>, Vec<poc_com::probe::Segment>) {
    let tones: Vec<Vec<f32>> = (0..TONE_COUNT).map(|i| tone(tone_frequency(i))).collect();
    let (mut wave, segments) = build_signal(&chirp(), &tones, 0.0);
    normalize_peak(&mut wave, 0.9);
    (wave, segments)
}

/// Eight products at a time, which keeps the searches below quick.
fn dot(a: &[f32], b: &[f32]) -> f32 {
    let mut sum = 0.0f32;
    let mut xs = a.chunks_exact(8);
    let mut ys = b.chunks_exact(8);
    while let (Some(x), Some(y)) = (xs.next(), ys.next()) {
        sum += x[0] * y[0] + x[1] * y[1] + x[2] * y[2] + x[3] * y[3] + x[4] * y[4] + x[5] * y[5] + x[6] * y[6] + x[7] * y[7];
    }
    for (x, y) in xs.remainder().iter().zip(ys.remainder().iter()) {
        sum += x * y;
    }
    sum
}

fn norm(a: &[f32]) -> f32 {
    dot(a, a).sqrt()
}

fn rms(samples: &[f32]) -> f32 {
    if samples.is_empty() {
        0.0
    } else {
        (samples.iter().map(|x| x * x).sum::<f32>() / samples.len() as f32).sqrt()
    }
}

fn goertzel_mag(samples: &[f32], freq: f32) -> f32 {
    let n = samples.len();
    if n == 0 {
        return 0.0;
    }
    let k = (0.5 + (n as f32 * freq) / SAMPLE_RATE as f32) as usize;
    let w = 2.0 * PI * k as f32 / n as f32;
    let coeff = 2.0 * w.cos();
    let mut s1 = 0.0f32;
    let mut s2 = 0.0f32;
    for &x in samples {
        let s0 = x + coeff * s1 - s2;
        s2 = s1;
        s1 = s0;
    }
    (s1 * s1 + s2 * s2 - coeff * s1 * s2).sqrt()
}

fn find_marker(audio: &[f32], template: &[f32], norm: f32, range: std::ops::Range<usize>) -> (usize, f32) {
    let n = template.len();
    let found = search(audio.len(), n, range.start, range.end, &|offset: usize| {
        let score = if norm < 1e-9 { 0.0 } else { dot(&audio[offset..offset + n], template) / norm };
        score.to_bits()
    });
    (found.offset, f32::from_bits(found.score))
}

struct Tone {
    freq: u32,
    ratio_db: f32,
}

struct Report {
    start_offset: usize,
    start_score: f32,
    marker_norm: f32,
    end_offset: usize,
    drift_samples: i64,
    noise_floor: f32,
    tones: Vec<Tone>,
}

impl Report {
    fn looks_reliable(&self) -> bool {
        self.start_score >= self.marker_norm * 0.05
    }
}

/// Measures a capture around what the library decides.
fn analyze_samples(captured: &[f32]) -> Report {
    let (reference, segments) = signal();
    let marker = segments[0];
    let marker_ref = &reference[marker.start_sample..marker.start_sample + marker.len_samples];
    let marker_norm = norm(marker_ref);
    let located = locate_signal(&segments, captured.len(), &|offset: usize| {
        (dot(&captured[offset..offset + marker_ref.len()], marker_ref) / marker_norm).to_bits()
    });
    let mut noise_floor = 0.0f32;
    let mut tones = Vec::new();
    for m in &located.rows {
        let rx = &captured[m.start..m.end];
        match m.segment.kind {
            SegmentKind::Silence => noise_floor = rms(rx),
            SegmentKind::Tone(freq) => {
                let at = m.segment.start_sample;
                let ref_mag = goertzel_mag(&reference[at..at + m.segment.len_samples], freq as f32);
                let rx_mag = goertzel_mag(rx, freq as f32);
                let ratio_db = 20.0 * (rx_mag.max(1e-9) / ref_mag.max(1e-9)).log10();
                tones.push(Tone { freq, ratio_db });
            }
            SegmentKind::Marker => {}
        }
    }
    Report {
        start_offset: located.start.offset,
        start_score: f32::from_bits(located.start.score),
        marker_norm,
        end_offset: located.end.offset,
        drift_samples: located.drift,
        noise_floor,
        tones,
    }
}

#[test]
fn signal_round_trip_finds_all_segments_at_their_exact_offsets() {
    let (wave, segments) = signal();
    let (reference, _) = signal();
    assert_eq!(wave, reference, "build_signal should be fully deterministic");

    let marker_segment = segments[0];
    let marker_ref = &reference[marker_segment.start_sample..marker_segment.start_sample + marker_segment.len_samples];
    let marker_norm = norm(marker_ref);

    let lead_in = vec![0.0f32; 5_000];
    let mut captured = lead_in.clone();
    captured.extend(&wave);

    let (start_offset, score) = find_marker(&captured, marker_ref, marker_norm, 0..captured.len());
    assert_eq!(start_offset, lead_in.len());
    assert!(score > marker_norm * 0.9);
}

#[test]
fn analyze_samples_reports_clean_signal_as_reliable_with_zero_drift() {
    let (wave, _) = signal();
    let report = analyze_samples(&wave);
    assert!(report.looks_reliable());
    assert_eq!(report.drift_samples, 0);
    assert!(report.noise_floor < 1e-6);
    assert_eq!(report.tones.len(), TONE_COUNT);
    for tone in &report.tones {
        assert!(tone.ratio_db.abs() < 0.1, "clean signal should show ~0dB ratio at {}: {}", tone.freq, tone.ratio_db);
    }
}

#[test]
fn analyze_samples_flags_a_near_silent_capture_as_unreliable() {
    let noisy = vec![0.001f32; SAMPLE_RATE as usize * 10];
    let report = analyze_samples(&noisy);
    assert!(!report.looks_reliable());
}

#[test]
fn the_measured_segments_of_a_clean_signal_are_its_parts() {
    let tones: Vec<Vec<f32>> = (0..TONE_COUNT).map(|i| tone(tone_frequency(i))).collect();
    let (wave, segments) = build_signal(&chirp(), &tones, 0.0);
    let measured = measured_segments(&segments, 0, wave.len());
    assert_eq!(measured.len(), segments.len());
    for m in &measured {
        let slice = &wave[m.start..m.end];
        match m.segment.kind {
            SegmentKind::Marker => assert_eq!(slice, &chirp()[..]),
            SegmentKind::Silence => assert!(slice.iter().all(|&x| x == 0.0)),
            SegmentKind::Tone(hz) => assert_eq!(slice, &tone(hz)[..]),
        }
    }
}

#[test]
fn tone_sweep_covers_the_expected_band() {
    let (_wave, segments) = signal();
    let tones: Vec<u32> = segments
        .iter()
        .filter_map(|s| match s.kind {
            SegmentKind::Tone(f) => Some(f),
            _ => None,
        })
        .collect();
    assert_eq!(*tones.first().unwrap(), TONE_START_HZ);
    assert!(*tones.last().unwrap() >= TONE_END_HZ - TONE_STEP_HZ);
    assert!(tones.len() >= 10);
}

#[test]
fn the_layout_is_what_the_durations_give() {
    assert_eq!(MARKER_SAMPLES, (SAMPLE_RATE as f32 * 0.25).round() as usize);
    assert_eq!(SILENCE_SAMPLES, (SAMPLE_RATE as f32 * 0.7).round() as usize);
    assert_eq!(TONE_SAMPLES, (SAMPLE_RATE as f32 * 0.3).round() as usize);
    assert_eq!(GAP_SAMPLES, (SAMPLE_RATE as f32 * 0.1).round() as usize);
    let mut tones = Vec::new();
    let mut freq = 300.0f32;
    while freq <= 3_300.0 + 1e-3 {
        tones.push(freq as u32);
        freq += 200.0;
    }
    let ours: Vec<u32> = (0..TONE_COUNT).map(tone_frequency).collect();
    assert_eq!(ours, tones);
    let (wave, segments) = signal();
    assert_eq!(segments.len(), 19);
    let last = segments[18];
    assert_eq!(last.start_sample + last.len_samples, wave.len());
    assert_eq!(wave.len(), 364_800);
}

#[test]
fn the_search_takes_the_first_of_equals() {
    let found = |offset: usize, score: f32| Found { offset, score: score.to_bits() };
    let before = Found { offset: 7, score: LOWEST_SCORE };
    let row = vec![found(0, -3.0), found(8, -1.0), found(16, f32::NAN), found(24, -1.0)];
    assert_eq!(pick_best(before, &row), found(8, -1.0));
    assert_eq!(pick_best(before, &vec![found(0, f32::NAN), found(8, f32::NEG_INFINITY)]), before);
    assert_eq!(pick_best(found(1, 0.0), &vec![found(2, -0.0)]), found(1, 0.0));
    assert_eq!(pick_best(found(1, 0.5), &vec![found(2, f32::INFINITY)]).offset, 2);
    assert_eq!(f32::MIN.to_bits(), LOWEST_SCORE);
}

#[test]
fn offsets_cover_the_range() {
    assert_eq!(coarse_offsets(100, 10, 0, 100), Some((0..91).step_by(8).collect()));
    assert_eq!(coarse_offsets(100, 10, 5, 22), Some(vec![5, 13, 21]));
    assert_eq!(coarse_offsets(9, 10, 0, 100), None);
    assert_eq!(coarse_offsets(100, 10, 91, 100), None);
    assert_eq!(coarse_offsets(100, 10, 20, 20), None);
    assert_eq!(coarse_offsets(usize::MAX, 0, usize::MAX - 1, usize::MAX), Some(vec![usize::MAX - 1]));
    assert_eq!(search_limit(100, 10, 0, 100), Some(91));
    assert_eq!(search_limit(100, 10, 5, 22), Some(22));
    assert_eq!(search_limit(100, 10, 91, 100), None);
    assert_eq!(fine_offsets(4, 4, 6), vec![4, 5]);
    assert_eq!(fine_offsets(36, 40, 91), (36..49).collect::<Vec<usize>>());
    assert_eq!(fine_offsets(0, 3, 91), (0..12).collect::<Vec<usize>>());
    assert_eq!(fine_offsets(0, 40, 91), (32..49).collect::<Vec<usize>>());
    assert_eq!(fine_offsets(2, 90, 91), (82..91).collect::<Vec<usize>>());
}

#[test]
fn the_end_is_searched_around_where_it_is_expected() {
    let search = end_search(1_000, 400_000);
    assert_eq!((search.expected, search.low, search.high), (353_800, 329_800, 377_800));
    assert_eq!(end_search(1_000, 360_000).high, 360_000);
    assert_eq!(drift_samples(5, 9), -4);
    let (_, segments) = signal();
    assert_eq!(measured_segments(&segments, 0, 46_000).len(), 2);
    assert_eq!(measured_segments(&segments, 0, 0).len(), 0);
}

#[test]
fn the_search_stays_in_its_range() {
    let audio = [5.0, 0.0, 0.0, 0.0, 1.0, 0.0];
    assert_eq!(find_marker(&audio, &[1.0], 1.0, 4..6), (4, 1.0));
    assert_eq!(find_marker(&audio, &[1.0], 1.0, 0..6), (0, 5.0));
    assert_eq!(find_marker(&audio, &[1.0], 1.0, 5..9), (5, 0.0));
    // Nothing to search.
    assert_eq!(find_marker(&audio, &[1.0], 1.0, 6..9), (6, 0.0));
    assert_eq!(find_marker(&audio, &[1.0], 1.0, 3..3), (3, 0.0));
    assert_eq!(find_marker(&audio, &[1.0; 7], 1.0, 2..6), (2, 0.0));
    // The fine pass finds what the strides step over, on either side.
    let mut spiked = vec![0.0f32; 64];
    spiked[24] = 1.0;
    spiked[27] = 3.0;
    assert_eq!(find_marker(&spiked, &[1.0], 1.0, 0..64), (27, 3.0));
    spiked[20] = 4.0;
    assert_eq!(find_marker(&spiked, &[1.0], 1.0, 0..64), (20, 4.0));
    assert_eq!(find_marker(&spiked, &[1.0], 1.0, 24..64), (27, 3.0));
}

#[test]
fn the_best_of_both_passes_is_found() {
    let found = |offset: usize, score: f32| Found { offset, score: score.to_bits() };
    let coarse = vec![found(4, 1.0)];
    assert_eq!(best_found(6, 1, 4, 6, &coarse, &vec![found(4, 1.0), found(5, 0.0)]), found(4, 1.0));
    assert_eq!(best_found(6, 1, 4, 6, &coarse, &vec![found(4, 1.0), found(5, 2.0)]), found(5, 2.0));
    assert_eq!(best_found(6, 7, 4, 6, &vec![], &vec![]), found(4, 0.0));
}

#[test]
fn the_signal_is_silent_between_its_parts() {
    let tones = vec![vec![2u8; TONE_SAMPLES]; TONE_COUNT];
    let (wave, segments) = build_signal(&vec![1u8; MARKER_SAMPLES], &tones, 0u8);
    let mut expected = vec![0u8; wave.len()];
    for pair in segments.windows(2) {
        assert!(pair[0].start_sample + pair[0].len_samples <= pair[1].start_sample);
    }
    for s in &segments {
        let value = match s.kind {
            SegmentKind::Marker => 1,
            SegmentKind::Silence => 0,
            SegmentKind::Tone(_) => 2,
        };
        expected[s.start_sample..s.start_sample + s.len_samples].fill(value);
    }
    assert_eq!(wave, expected);
}

#[test]
fn a_later_start_only_shifts_what_is_measured() {
    let (_, segments) = signal();
    for len in [0usize, 12_000, 46_000, 200_000, 364_800] {
        let at_once = measured_segments(&segments, 0, len);
        let shifted = measured_segments(&segments, 777, len + 777);
        assert_eq!(at_once.len(), shifted.len());
        for (a, b) in at_once.iter().zip(shifted.iter()) {
            assert_eq!(a.segment, b.segment);
            assert_eq!((a.start + 777, a.end + 777), (b.start, b.end));
        }
    }
}

#[test]
fn leading_silence_only_shifts_the_analysis() {
    let (wave, _) = signal();
    let mut captured = vec![0.0f32; 4_000];
    captured.extend(&wave);
    let report = analyze_samples(&captured);
    assert_eq!(report.start_offset, 4_000);
    assert_eq!(report.end_offset, 4_000 + 352_800);
    assert_eq!(report.drift_samples, 0);
    assert_eq!(report.noise_floor, 0.0);
    assert_eq!(report.tones.len(), TONE_COUNT);
    for tone in &report.tones {
        assert_eq!(tone.ratio_db, 0.0);
    }
}

#[test]
fn a_signal_is_located_by_its_scores() {
    let (_, segments) = signal();
    let peaks = |at: usize, end: usize| {
        move |offset: usize| {
            let score = if offset == at { 3.0f32 } else if offset == end { 2.0 } else { -1.0 };
            score.to_bits()
        }
    };
    let clean = locate_signal(&segments, 400_000, &peaks(80, 352_880));
    assert_eq!((clean.start.offset, f32::from_bits(clean.start.score)), (80, 3.0));
    assert_eq!((clean.search.expected, clean.search.low, clean.search.high), (352_880, 328_880, 376_880));
    assert_eq!((clean.end.offset, f32::from_bits(clean.end.score)), (352_880, 2.0));
    assert_eq!(clean.drift, 0);
    assert_eq!(clean.rows, measured_segments(&segments, 80, 400_000));
    // The same, sixteen samples later.
    let later = locate_signal(&segments, 400_016, &peaks(96, 352_896));
    assert_eq!((later.start.offset, later.end.offset, later.drift), (96, 352_896, 0));
    for (a, b) in clean.rows.iter().zip(later.rows.iter()) {
        assert_eq!((a.start + 16, a.end + 16), (b.start, b.end));
    }
    // The closing marker has drifted by a whole number of strides.
    let drifted = locate_signal(&segments, 400_000, &peaks(80, 352_880 - 40));
    assert_eq!(drifted.drift, -40);
    // Too short for a marker.
    let short = locate_signal(&segments, 100, &|_: usize| 7);
    assert_eq!((short.start, short.end), (Found { offset: 0, score: 0 }, Found { offset: 328_800, score: 0 }));
    assert_eq!(short.drift, -24_000);
    assert!(short.rows.is_empty());
}
