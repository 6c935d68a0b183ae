use poc_com::maidenhead::{is_valid_locator, to_latlon_center, to_locator};

#[test]
fn known_locator_round_trips() {
    // IO80 covers most of the English south-west: its center is well inside
    // its own square, so converting there and back must land on IO80.
    let (lat, lon) = to_latlon_center("IO80").expect("valid locator");
    assert_eq!(to_locator(lat, lon), "IO80");
    assert_eq!((lat, lon), (50_500_000, -3_000_000));
}

#[test]
fn locator_is_case_insensitive() {
    assert_eq!(to_latlon_center("io80"), to_latlon_center("IO80"));
    assert_eq!(to_latlon_center(" iO80\n"), to_latlon_center("IO80"));
}

#[test]
fn extremes_do_not_panic() {
    assert_eq!(to_locator(90_000_000, 180_000_000).len(), 4);
    assert_eq!(to_locator(-90_000_000, -180_000_000).len(), 4);
    assert_eq!(to_locator(90_000_000, 180_000_000), "RR99");
    assert_eq!(to_locator(-90_000_000, -180_000_000), "AA00");
    assert_eq!(to_locator(i64::MAX, i64::MIN), "AR09");
}

#[test]
fn malformed_locators_are_rejected_not_panicking() {
    assert!(to_latlon_center("").is_none());
    assert!(to_latlon_center("XX").is_none());
    assert!(to_latlon_center("ZZ99").is_none()); // Z is past 'R'
    assert!(to_latlon_center("IOXX").is_none()); // digits required
    assert!(to_latlon_center("Ridge Site 2").is_none()); // freeform text
    assert!(!is_valid_locator("IO8"));
    assert!(is_valid_locator("AA00"));
}

#[test]
fn grid_covers_whole_globe_without_overlap_at_boundaries() {
    // Every field-corner boundary should still produce a valid 4-char code.
    for lat in [-90.0, -45.0, 0.0, 45.0, 89.9] {
        for lon in [-180.0, -90.0, 0.0, 90.0, 179.9] {
            let locator = to_locator((lat * 1e6_f64).round() as i64, (lon * 1e6_f64).round() as i64);
            assert_eq!(locator.len(), 4);
            assert!(to_latlon_center(&locator).is_some());
        }
    }
}

#[test]
fn every_position_is_within_half_a_square_of_its_center() {
    for lat in [-90_000_000i64, -12_345_678, 0, 1, 51_999_999, 89_999_999] {
        for lon in [-180_000_000i64, -77_000_001, 0, 1_999_999, 2_000_000, 179_999_999] {
            let (center_lat, center_lon) = to_latlon_center(&to_locator(lat, lon)).unwrap();
            assert!((center_lat - lat).abs() <= 500_000);
            assert!((center_lon - lon).abs() <= 1_000_000);
        }
    }
}

#[test]
fn whole_degrees_agree_with_floating_point() {
    for lat in -90i64..=90 {
        for lon in -180i64..=180 {
            let east = ((lon as f64).clamp(-180.0, 180.0) + 180.0).min(359.999_999);
            let north = ((lat as f64).clamp(-90.0, 90.0) + 90.0).min(179.999_999);
            let expected = format!(
                "{}{}{}{}",
                (b'A' + (east / 20.0).floor() as u8) as char,
                (b'A' + (north / 10.0).floor() as u8) as char,
                ((east % 20.0) / 2.0).floor() as u8,
                (north % 10.0).floor() as u8
            );
            assert_eq!(to_locator(lat * 1_000_000, lon * 1_000_000), expected);
        }
    }
}
