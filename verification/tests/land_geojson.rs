use poc_com::land_geojson::{
    extract_rings, find, parse_node, skip_ws, spells_number, summary_text, total_points, Node, RingPoint, Span,
};

fn numbers(text: &str, ring: &[RingPoint]) -> Vec<(f32, f32)> {
    let value = |s: Span| text[s.start..s.end].parse::<f64>().unwrap() as f32;
    ring.iter().map(|p| (value(p.lat), value(p.lon))).collect()
}

#[test]
fn white_space_is_skipped_byte_by_byte() {
    for b in 0..=255u8 {
        let expected = if (b as char).is_whitespace() { 1 } else { 0 };
        assert_eq!(skip_ws(&[b, b'x'], 0), expected);
    }
    assert_eq!(skip_ws(b" \n\t", 0), 3);
    assert_eq!(skip_ws(b"", 7), 7);
}

#[test]
fn needles_are_found_where_they_first_stand() {
    assert_eq!(find(b"abcabc", b"bc", 0), Some(1));
    assert_eq!(find(b"abcabc", b"bc", 2), Some(4));
    assert_eq!(find(b"abcabc", b"bc", 5), None);
    assert_eq!(find(b"ab", b"abc", 0), None);
    assert_eq!(find(b"ab", b"b", 9), None);
}

#[test]
fn numbers_are_what_the_standard_library_parses() {
    let letters = ["", "1", "-", "+", ".", "e", "E", "0"];
    let mut texts: Vec<String> = vec![String::new()];
    for _ in 0..5 {
        let mut next = Vec::new();
        for t in &texts {
            for l in letters {
                next.push(format!("{t}{l}"));
            }
        }
        texts = next;
    }
    for t in texts {
        assert_eq!(spells_number(t.as_bytes()), t.parse::<f64>().is_ok(), "{t}");
    }
}

#[test]
fn values_are_parsed() {
    match parse_node(b" [1, [2.5 -3e1,], []] rest", 0) {
        Some((Node::Array(items), next)) => {
            assert_eq!(next, 21);
            assert_eq!(items.len(), 3);
            assert!(matches!(items[0], Node::Number(Span { start: 2, end: 3 })));
            assert!(matches!(&items[1], Node::Array(inner) if inner.len() == 2));
            assert!(matches!(&items[2], Node::Array(inner) if inner.is_empty()));
        }
        _ => panic!("expected an array"),
    }
    for bad in ["", "  ", "[1, 2", "[1,", "[x]", "x", "[1 ", "--1", "[[1]"] {
        assert!(parse_node(bad.as_bytes(), 0).is_none(), "{bad}");
    }
}

#[test]
fn rings_are_found_however_deep() {
    let text = r#"{"features":[{"geometry":{"type":"Polygon","coordinates":[[[1.5,2.5],[3,-4]]]}},
        {"coordinates": [[[[10,20]]],[[[30,40],[50,60]],[[7,8]]]] }, {"coordinates":5}, {"coordinates":[[1,2,3]]}]}"#;
    let rings = extract_rings(text.as_bytes()).unwrap();
    let values: Vec<Vec<(f32, f32)>> = rings.iter().map(|r| numbers(text, r)).collect();
    assert_eq!(
        values,
        vec![
            vec![(2.5, 1.5), (-4.0, 3.0)],
            vec![(20.0, 10.0)],
            vec![(40.0, 30.0), (60.0, 50.0)],
            vec![(8.0, 7.0)],
        ]
    );
    assert_eq!(total_points(&rings), 6);
    assert_eq!(summary_text(rings.len(), 6, 68, "out.bin"), "4 rings, 6 points, 68 bytes -> out.bin");
    assert_eq!(extract_rings(b"{}"), Some(vec![]));
    assert_eq!(extract_rings(b"\"coordinates\":[[1,2]"), None);
    assert_eq!(extract_rings(b"\"coordinates\":"), None);
}
