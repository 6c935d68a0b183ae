use poc_com::waterfall::{
    row_windows, transform_input, RowWindow, Rows, WaterfallWindow, FEED_INTERVAL_NS, FEED_WINDOW_SAMPLES, FFT_SIZE, HOP,
    MAX_ROWS, NUM_BINS, PROBE_MAX_ROWS,
};

#[test]
fn rows_step_through_the_feed() {
    for len in [0usize, 511, 512, 1000, 2047, 2048, 2049, 2247, 2248, 2249, 3248, 10_000] {
        let mut expected = Vec::new();
        if len >= FFT_SIZE / 4 {
            let mut pos = FFT_SIZE.min(len);
            loop {
                expected.push(RowWindow { start: pos.saturating_sub(FFT_SIZE), end: pos });
                if pos >= len {
                    break;
                }
                pos = (pos + HOP).min(len);
            }
        }
        assert_eq!(row_windows(len, 48_000), expected, "{len}");
        assert_eq!(row_windows(len, 0), vec![]);
    }
    assert_eq!(row_windows(FEED_WINDOW_SAMPLES, 48_000).len(), 7);
}

#[test]
fn every_sample_is_in_some_row() {
    for len in [512usize, 2048, 2100, 5000] {
        let rows = row_windows(len, 48_000);
        assert_eq!(rows[rows.len() - 1].end, len);
        for i in 0..len {
            assert!(rows.iter().any(|r| r.start <= i && i < r.end));
        }
    }
}

#[test]
fn short_stretches_are_filled_up_in_front() {
    let input = transform_input(&[1i32, 2, 3], 0);
    assert_eq!(input.len(), FFT_SIZE);
    assert!(input[..FFT_SIZE - 3].iter().all(|&x| x == 0));
    assert_eq!(&input[FFT_SIZE - 3..], &[1, 2, 3]);
    let long: Vec<usize> = (0..FFT_SIZE + 5).collect();
    let input = transform_input(&long, 0);
    assert_eq!((input[0], input[FFT_SIZE - 1]), (5, FFT_SIZE + 4));
}

#[test]
fn the_newest_rows_are_kept() {
    let mut rows: Rows<u32> = Rows::new(3);
    for n in 1..=5u32 {
        rows.push(vec![n; NUM_BINS]);
    }
    let cells = rows.render(0);
    assert_eq!(cells.len(), 3 * NUM_BINS);
    assert_eq!((cells[0], cells[NUM_BINS], cells[2 * NUM_BINS], cells[3 * NUM_BINS - 1]), (5, 4, 3, 3));
    let mut rows: Rows<u32> = Rows::new(MAX_ROWS);
    rows.push((0..NUM_BINS as u32).collect());
    let cells = rows.render(77);
    assert_eq!(cells.len(), MAX_ROWS * NUM_BINS);
    assert_eq!((cells[0], cells[NUM_BINS - 1], cells[NUM_BINS]), (0, NUM_BINS as u32 - 1, 77));
    assert_eq!(Rows::<u8>::new(PROBE_MAX_ROWS).render(1).len(), 400 * NUM_BINS);
}

#[test]
fn the_window_is_fed_while_it_is_open() {
    let mut window = WaterfallWindow::new(10);
    assert!(!window.wants_feed(10 + FEED_INTERVAL_NS));
    window.toggle();
    assert!(window.wants_feed(10 + FEED_INTERVAL_NS));
    assert!(!window.wants_feed(10 + FEED_INTERVAL_NS - 1));
    assert!(!window.wants_feed(0));
    assert_eq!(window.feed(2248, 48_000, 99), row_windows(2248, 48_000));
    assert_eq!(window.last_feed, 99);
    window.close();
    assert!(!window.open);
}
