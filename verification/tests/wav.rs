use poc_com::wav::{bounded, decode_sample, encode_wav, parse_frame_sums, parse_wav, pcm_sample, RawSample, WavError};

fn to_pcm(samples: &[f32]) -> Vec<i16> {
    samples.iter().map(|s| (s.clamp(-1.0, 1.0) * i16::MAX as f32) as i16).collect()
}

fn to_float(sample: RawSample) -> f32 {
    match sample {
        RawSample::Float { bits } => f32::from_bits(bits),
        RawSample::Pcm { value, full_scale } => value as f32 / full_scale as f32,
        RawSample::Silence => 0.0,
    }
}

fn chunk(out: &mut Vec<u8>, id: &[u8], body: &[u8]) {
    out.extend_from_slice(id);
    out.extend_from_slice(&(body.len() as u32).to_le_bytes());
    out.extend_from_slice(body);
    if body.len() % 2 == 1 {
        out.push(0);
    }
}

fn file(format: u16, channels: u16, rate: u32, bits: u16, data: &[u8]) -> Vec<u8> {
    let mut fmt = Vec::new();
    fmt.extend_from_slice(&format.to_le_bytes());
    fmt.extend_from_slice(&channels.to_le_bytes());
    fmt.extend_from_slice(&rate.to_le_bytes());
    fmt.extend_from_slice(&0u32.to_le_bytes());
    fmt.extend_from_slice(&0u16.to_le_bytes());
    fmt.extend_from_slice(&bits.to_le_bytes());
    let mut out = b"RIFF\0\0\0\0WAVE".to_vec();
    chunk(&mut out, b"LIST", b"odd");
    chunk(&mut out, b"fmt ", &fmt);
    chunk(&mut out, b"data", data);
    out
}

#[test]
fn written_waves_are_read_back() {
    let samples: Vec<f32> = (0..4800).map(|i| (i as f32 * 0.02).sin() * 0.5).collect();
    let bytes = encode_wav(48_000, &to_pcm(&samples));
    let audio = parse_wav(&bytes).expect("read should succeed");
    assert_eq!(audio.sample_rate, 48_000);
    assert_eq!(audio.channels, 1);
    assert_eq!(audio.samples.len(), samples.len());
    for (a, b) in samples.iter().zip(audio.samples.iter()) {
        assert!((a - to_float(*b)).abs() < 0.001);
    }
    let sums = parse_frame_sums(&bytes).expect("read should succeed");
    assert_eq!(sums.sample_rate, 48_000);
    assert_eq!(sums.sums.len(), samples.len());
}

#[test]
fn the_header_is_the_canonical_one() {
    let bytes = encode_wav(8_000, &[1, -2]);
    let mut expected = b"RIFF".to_vec();
    expected.extend_from_slice(&40u32.to_le_bytes());
    expected.extend_from_slice(b"WAVEfmt ");
    expected.extend_from_slice(&16u32.to_le_bytes());
    expected.extend_from_slice(&1u16.to_le_bytes());
    expected.extend_from_slice(&1u16.to_le_bytes());
    expected.extend_from_slice(&8_000u32.to_le_bytes());
    expected.extend_from_slice(&16_000u32.to_le_bytes());
    expected.extend_from_slice(&2u16.to_le_bytes());
    expected.extend_from_slice(&16u16.to_le_bytes());
    expected.extend_from_slice(b"data");
    expected.extend_from_slice(&4u32.to_le_bytes());
    expected.extend_from_slice(&1i16.to_le_bytes());
    expected.extend_from_slice(&(-2i16).to_le_bytes());
    assert_eq!(bytes, expected);
}

#[test]
fn every_encoding_is_decoded() {
    let float = 0.25f32;
    assert_eq!(decode_sample(&float.to_le_bytes(), 32, true), RawSample::Float { bits: float.to_bits() });
    assert_eq!(decode_sample(&[0], 8, false), RawSample::Pcm { value: -128, full_scale: 128 });
    assert_eq!(decode_sample(&[0, 0x80], 16, false), RawSample::Pcm { value: -32768, full_scale: 32768 });
    assert_eq!(decode_sample(&[0xFF, 0xFF, 0xFF], 24, false), RawSample::Pcm { value: -1, full_scale: 8_388_608 });
    assert_eq!(decode_sample(&[1, 0, 0], 24, false), RawSample::Pcm { value: 1, full_scale: 8_388_608 });
    assert_eq!(
        decode_sample(&i32::MIN.to_le_bytes(), 32, false),
        RawSample::Pcm { value: i32::MIN, full_scale: 2_147_483_648 }
    );
    assert_eq!(decode_sample(&[1, 2], 12, false), RawSample::Silence);
    assert_eq!(decode_sample(&[1, 2], 16, true), RawSample::Silence);
}

#[test]
fn chunks_are_walked_word_aligned() {
    let bytes = file(1, 2, 44_100, 16, &[1, 0, 2, 0, 3, 0, 4, 0, 5]);
    let audio = parse_wav(&bytes).unwrap();
    assert_eq!(audio.sample_rate, 44_100);
    assert_eq!(audio.channels, 2);
    let values: Vec<f32> = audio.samples.iter().map(|s| to_float(*s) * 32768.0).collect();
    assert_eq!(values, vec![1.0, 2.0, 3.0, 4.0]);
    let sums = parse_frame_sums(&bytes).unwrap();
    assert_eq!(sums.channels, 2);
    assert_eq!(sums.sums, vec![3, 7]);
}

#[test]
fn what_is_no_wave_is_turned_down() {
    assert_eq!(parse_wav(b"RIFF").err(), Some(WavError::NotRiffWave));
    assert_eq!(parse_wav(b"RIFX\0\0\0\0WAVE").err(), Some(WavError::NotRiffWave));
    assert_eq!(parse_wav(b"RIFF\0\0\0\0WAVE").err(), Some(WavError::NoDataChunk));
    assert_eq!(WavError::NotRiffWave.message(), "not a valid RIFF/WAVE file");
    assert_eq!(WavError::NoDataChunk.message(), "no data chunk found in WAV");
    // A data chunk that announces more than the file holds is cut short.
    let mut cut = b"RIFF\0\0\0\0WAVEdata".to_vec();
    cut.extend_from_slice(&1000u32.to_le_bytes());
    cut.extend_from_slice(&[7, 0]);
    assert_eq!(parse_wav(&cut).unwrap().samples, vec![RawSample::Pcm { value: 7, full_scale: 32768 }]);
}

#[test]
fn mixed_samples_stay_from_minus_one_to_one() {
    let level = |x: f32| f32::from_bits(bounded(x.to_bits()));
    for x in [0.0f32, 0.25, -0.25, 1.0, -1.0, f32::MIN_POSITIVE] {
        assert_eq!(level(x).to_bits(), x.to_bits());
    }
    assert_eq!(level(-0.0).to_bits(), (-0.0f32).to_bits());
    assert_eq!(level(2.0), 1.0);
    assert_eq!(level(-2.0), -1.0);
    assert_eq!(level(f32::INFINITY), 1.0);
    assert_eq!(level(f32::NEG_INFINITY), -1.0);
    assert_eq!(level(f32::NAN), 0.0);
    assert_eq!(level(-f32::NAN), 0.0);
    for i in -4000..4000 {
        let x = i as f32 * 0.001;
        assert_eq!(level(x), x.clamp(-1.0, 1.0));
    }
}

#[test]
fn levels_are_scaled_as_single_precision_scales_them() {
    let scaled = |x: f32| (x.clamp(-1.0, 1.0) * i16::MAX as f32) as i16;
    let mut levels = vec![
        0.0f32, -0.0, 1.0, -1.0, 2.0, -2.0, f32::MIN_POSITIVE, f32::from_bits(1), f32::from_bits(0x007F_FFFF), f32::MAX,
        f32::INFINITY, f32::NEG_INFINITY, f32::NAN, f32::EPSILON,
    ];
    for v in 0..=32_767u32 {
        let exact = v as f32 / 32_767.0;
        levels.extend([exact, -exact, f32::from_bits(exact.to_bits() + 1), v as f32 / 32_768.0]);
        if exact > 0.0 {
            levels.push(f32::from_bits(exact.to_bits() - 1));
        }
    }
    levels.extend((0..0x3F80_0000u32).step_by(10_007).map(f32::from_bits));
    for x in levels {
        assert_eq!(pcm_sample(x.to_bits()), scaled(x), "{x} ({:#x})", x.to_bits());
    }
}

#[test]
fn written_levels_come_back_within_a_thousandth() {
    let samples: Vec<f32> = (0..4800).map(|i| (i as f32 * 0.02).sin() * 0.5).collect();
    let pcm: Vec<i16> = samples.iter().map(|s| pcm_sample(s.to_bits())).collect();
    let audio = parse_wav(&encode_wav(48_000, &pcm)).unwrap();
    assert_eq!((audio.sample_rate, audio.channels, audio.samples.len()), (48_000, 1, samples.len()));
    for (a, b) in samples.iter().zip(audio.samples.iter()) {
        match b {
            RawSample::Pcm { value, full_scale } => assert!((a - *value as f32 / *full_scale as f32).abs() < 0.001),
            other => panic!("not a whole number: {other:?}"),
        }
    }
}
