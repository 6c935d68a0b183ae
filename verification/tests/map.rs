use poc_com::map::{
    contact_label, contact_spots, decode_outlines, encode_outlines, field_label, grid_lines, pick, square_of, Contact,
    ContactVia, LandPoint, MapMode, Spot,
};

fn contact(locator: &str, label: &str) -> Contact {
    Contact { locator: locator.to_string(), label: label.to_string(), last_heard: 0, via: ContactVia::Mail }
}

fn point(lat: f32, lon: f32) -> LandPoint {
    LandPoint { lat: lat.to_bits(), lon: lon.to_bits() }
}

#[test]
fn outlines_are_read_back() {
    let rings = vec![vec![point(1.5, -2.25), point(89.0, 180.0)], vec![], vec![point(0.0, -0.0)]];
    let bytes = encode_outlines(&rings);
    assert_eq!(bytes.len(), 4 + (4 + 16) + 4 + (4 + 8));
    assert_eq!(&bytes[0..8], &[3, 0, 0, 0, 2, 0, 0, 0]);
    assert_eq!(&bytes[8..12], &1.5f32.to_le_bytes());
    assert_eq!(decode_outlines(&bytes), Some(rings));
    assert_eq!(encode_outlines(&vec![]), vec![0, 0, 0, 0]);
    assert_eq!(decode_outlines(&[0, 0, 0, 0, 9]), Some(vec![]));
}

#[test]
fn outlines_that_break_off_are_turned_down() {
    let bytes = encode_outlines(&vec![vec![point(1.0, 2.0)], vec![point(3.0, 4.0)]]);
    for len in 0..bytes.len() {
        assert_eq!(decode_outlines(&bytes[..len]), None, "{len}");
    }
    assert_eq!(decode_outlines(&[255, 255, 255, 255, 255, 255, 255, 255]), None);
}

#[test]
fn grid_lines_step_evenly() {
    assert_eq!(grid_lines(-9, -140, 20), vec![-180, -160, -140]);
    assert_eq!(grid_lines(0, -1, 10), Vec::<i64>::new());
    assert_eq!(grid_lines(-90, -88, 1), vec![-90, -89, -88]);
    assert_eq!(grid_lines(-90, 180, 2).len(), 181);
    assert_eq!(grid_lines(i32::MAX, i32::MAX, i32::MAX), Vec::<i64>::new());
}

#[test]
fn fields_are_labelled_with_their_letters() {
    let label = field_label(50, -20);
    assert_eq!((label.lat, label.lon, label.text.as_str()), (55, -10, "IO"));
    assert_eq!(field_label(-90, -180).text, "AA");
    assert_eq!(field_label(80, 160).text, "RR");
}

#[test]
fn contacts_are_drawn_where_they_are() {
    let contacts = vec![contact("IO80", "a"), contact("nowhere", "b"), contact("aa00", "c")];
    assert_eq!(
        contact_spots(&contacts),
        vec![
            Spot { contact: 0, lat: 50_500_000, lon: -3_000_000 },
            Spot { contact: 2, lat: -89_500_000, lon: -179_000_000 },
        ]
    );
    assert_eq!(contact_label(&contacts[0]), "a (IO80)");
    let square = square_of("IO80").unwrap();
    assert_eq!((square.north, square.south, square.west, square.east), (51_000_000, 50_000_000, -4_000_000, -2_000_000));
    assert!(square_of("IO8").is_none());
}

#[test]
fn clicking_picks_a_square() {
    let mut home: Option<String> = None;
    let mode = MapMode::Pick { selected: &mut home };
    if let MapMode::Pick { selected } = mode {
        pick(selected, 50_100_000, -2_500_000);
    }
    assert_eq!(home.as_deref(), Some("IO80"));
}
