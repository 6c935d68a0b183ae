use poc_com::resample::{resample, resamples, Resampled};

/// Mixes the taps as the audio side does.
fn mixed(input: &[f32], from_rate: u32, to_rate: u32) -> Vec<f32> {
    match resample(input, from_rate, to_rate) {
        Resampled::Same(samples) => samples,
        Resampled::Taps(taps) => taps
            .iter()
            .map(|tap| {
                let fraction = match tap.fraction {
                    Some(f) => (f.mantissa as f64 / 2f64.powi(f.shift as i32)) as f32,
                    None => f32::NAN,
                };
                tap.a + (tap.b - tap.a) * fraction
            })
            .collect(),
    }
}

/// The same in floating point throughout.
fn reference(input: &[f32], from_rate: u32, to_rate: u32) -> Vec<f32> {
    if from_rate == to_rate || input.is_empty() {
        return input.to_vec();
    }
    let ratio = from_rate as f32 / to_rate as f32;
    let out_len = ((input.len() as f32) / ratio).max(1.0) as usize;
    (0..out_len)
        .map(|i| {
            let src_pos = i as f32 * ratio;
            let idx = src_pos.floor() as usize;
            let frac = src_pos - idx as f32;
            let a = *input.get(idx).unwrap_or_else(|| input.last().unwrap());
            let b = *input.get(idx + 1).unwrap_or_else(|| input.last().unwrap());
            a + (b - a) * frac
        })
        .collect()
}

#[test]
fn same_rate_is_identity() {
    let input = vec![1.0, 2.0, 3.0, 4.0];
    assert_eq!(mixed(&input, 48_000, 48_000), input);
}

#[test]
fn downsampling_shrinks_length_proportionally() {
    let input: Vec<f32> = (0..4800).map(|i| (i as f32 * 0.01).sin()).collect();
    let out = mixed(&input, 48_000, 8_000);
    let expected = input.len() / 6;
    assert!((out.len() as isize - expected as isize).abs() <= 1);
}

#[test]
fn upsampling_grows_length_proportionally() {
    let input: Vec<f32> = (0..800).map(|i| (i as f32 * 0.05).sin()).collect();
    let out = mixed(&input, 8_000, 48_000);
    let expected = input.len() * 6;
    assert!((out.len() as isize - expected as isize).abs() <= 6);
}

#[test]
fn resampling_agrees_with_floating_point_bit_for_bit() {
    let input: Vec<f32> = (0..5000).map(|i| (i as f32 * 0.037).sin()).collect();
    for (from, to) in [(48_000, 8_000), (8_000, 48_000), (44_100, 48_000), (48_000, 44_100), (1, 3), (7, 5), (192_000, 11_025)] {
        for len in [1usize, 2, 3, 17, 5000] {
            let out = mixed(&input[..len], from, to);
            let expected = reference(&input[..len], from, to);
            assert_eq!(out.len(), expected.len());
            for (a, b) in out.iter().zip(expected.iter()) {
                assert_eq!(a.to_bits(), b.to_bits(), "{from} to {to}");
            }
        }
    }
}

#[test]
fn odd_rates_are_told_apart() {
    assert!(resamples(10, 0, 0));
    assert!(resamples(0, 0, 8));
    assert!(!resamples(10, 0, 8));
    assert!(resamples(10, 8, 0));
    assert!(resamples(10, 1, u32::MAX));
    let out = mixed(&[1.0, 2.0], 8, 0);
    assert_eq!(out.len(), 1);
    assert!(out[0].is_nan());
    assert_eq!(mixed(&[], 8, 9), Vec::<f32>::new());
}
