use poc_com::single::{
    divide, format_duration, lasts_at_least, one_decimal_text, playback_position, power_of_two, seconds_left_after, seconds_of,
    span_seconds, span_seconds_up, tenth, to_single, two_decimals_text, Single,
};
use std::time::Duration;

fn value(s: Single) -> f64 {
    s.mantissa as f64 / 2f64.powi(s.shift as i32)
}

fn counts() -> Vec<u64> {
    let mut all: Vec<u64> = (0..200).collect();
    for shift in 0..64 {
        for off in [0u64, 1, 2, 3, 5, 7, 127, 128, 129] {
            all.push((1u64 << shift).wrapping_add(off));
            all.push((1u64 << shift).wrapping_sub(off));
            all.push((3u64 << (shift % 62)).wrapping_mul(5).wrapping_add(off));
        }
    }
    all
}

#[test]
fn whole_numbers_round_as_single_precision_does() {
    for n in counts() {
        assert_eq!(to_single(n as u128) as f64, n as f32 as f64, "{n}");
    }
}

#[test]
fn quotients_round_as_single_precision_does() {
    for n in counts() {
        for d in [1u64, 2, 3, 7, 10, 1000, 44_100, 48_000, 192_000, 4_294_967_295, 1 << 40] {
            let quotient = divide(to_single(n as u128), to_single(d as u128));
            assert_eq!(value(quotient), (n as f32 / d as f32) as f64, "{n}/{d}");
        }
    }
}

#[test]
fn durations_are_compared_as_single_precision_does() {
    for rate in [1u32, 8_000, 11_025, 44_100, 48_000, 96_000, u32::MAX] {
        for seconds in [2u32, 600] {
            for off in -3i64..=3 {
                let samples = (rate as i64 * seconds as i64 + off).max(0) as usize;
                let expected = samples as f32 / rate as f32 >= seconds as f32;
                assert_eq!(lasts_at_least(samples, rate, seconds), expected);
                assert_eq!(seconds_of(samples, rate).at_least(seconds), expected);
            }
        }
    }
    assert!(lasts_at_least(1, 0, 2));
    assert!(!lasts_at_least(0, 0, 2));
}

#[test]
fn a_tenth_is_rounded_down_as_single_precision_does() {
    for n in counts() {
        let n = n as u32;
        assert_eq!(tenth(n), (n as f32 * 0.1) as usize, "{n}");
    }
    assert_eq!(tenth(48_000), 4800);
    assert_eq!(tenth(44_100), 4410);
}

fn duration_text(seconds: f32) -> String {
    if seconds < 60.0 {
        format!("{seconds:.1}s")
    } else {
        format!("{:.0}m{:02.0}s", (seconds / 60.0).floor(), seconds % 60.0)
    }
}

#[test]
fn durations_are_written_as_single_precision_writes_them() {
    assert_eq!(format_duration(seconds_of(48_000, 48_000)), "1.0s");
    assert_eq!(format_duration(seconds_of(48_000 * 75, 48_000)), "1m15s");
    for n in counts() {
        let n = n as usize;
        for rate in [7u32, 8_000, 44_100, 48_000] {
            let expected = duration_text(n as f32 / rate as f32);
            assert_eq!(format_duration(seconds_of(n, rate)), expected, "{n} at {rate}");
        }
    }
    for n in (0..20_000usize).map(|i| i * 977) {
        assert_eq!(format_duration(seconds_of(n, 48_000)), duration_text(n as f32 / 48_000.0), "{n}");
    }
}

#[test]
fn decimals_are_written_as_single_precision_writes_them() {
    for n in (0..5_000u64).map(|i| i * 31) {
        let x = n as f32 / 1024.0;
        assert_eq!(one_decimal_text(n as u128, 1024), format!("{x:.1}"));
        assert_eq!(two_decimals_text(n as u128, 1024), format!("{x:.2}"));
    }
    assert_eq!(one_decimal_text(1, 4), "0.2");
    assert_eq!(one_decimal_text(3, 4), "0.8");
    assert_eq!(two_decimals_text(5, 1), "5.00");
}

#[test]
fn spans_are_seconds_as_the_standard_library_has_them() {
    let mut spans: Vec<u64> = (0..3000).map(|i| i * 1_000_003).collect();
    spans.extend((0..40).map(|i| 2_999_999_980 + i));
    spans.extend((0..64).map(|s| (1u64 << s) - 1));
    spans.extend([1_000_000_000, 1_000_000_001, 1_999_999_999, 2_000_000_000, u64::MAX]);
    for ns in spans {
        let seconds = Duration::from_nanos(ns).as_secs_f32();
        let span = span_seconds(ns);
        assert_eq!(value(span), seconds as f64, "{ns}");
        assert_eq!(span_seconds_up(ns), seconds.ceil() as u128, "{ns}");
        assert_eq!(span.at_least(3), seconds >= 3.0, "{ns}");
        let left = seconds_left_after(3, ns);
        assert_eq!(value(left), (3.0 - seconds).max(0.0) as f64, "{ns}");
        assert_eq!(one_decimal_text(span.mantissa, power_of_two(span.shift)), format!("{seconds:.1}"), "{ns}");
    }
}

#[test]
fn playback_positions_are_what_single_precision_makes_of_them() {
    for total in [0usize, 1, 3, 1000, 48_000, 16_777_217, 33_554_435] {
        for part in 0..=20 {
            let played = total / 20 * part + total % 20 * part / 20;
            let progress = if total == 0 { 1.0 } else { played as f32 / total as f32 };
            for len in [0usize, 1, 5, 48_000, 100_000_001] {
                let expected = ((progress * len as f32) as usize).min(len);
                assert_eq!(playback_position(played, total, len), expected, "{played}/{total} of {len}");
            }
        }
    }
}
