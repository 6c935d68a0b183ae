use poc_com::settings::{load, save, shown_value, Identity};

fn identity(name: &str, grid: Option<&str>, port: Option<&str>, baud: u32) -> Identity {
    Identity {
        display_name: name.to_string(),
        home_grid: grid.map(|s| s.to_string()),
        ptt_port: port.map(|s| s.to_string()),
        ptt_baud: baud,
    }
}

fn same(a: &Identity, b: &Identity) -> bool {
    a.display_name == b.display_name && a.home_grid == b.home_grid && a.ptt_port == b.ptt_port && a.ptt_baud == b.ptt_baud
}

#[test]
fn without_a_file_the_identity_is_unset() {
    let unset = identity("", None, None, 4800);
    assert!(same(&load(None), &unset));
    assert!(same(&Identity::default(), &unset));
    assert!(same(&load(Some("")), &unset));
}

#[test]
fn what_was_saved_is_loaded() {
    for i in [
        identity("KJ4ABC", Some("IO80"), Some("/dev/ttyUSB0"), 9600),
        identity(" spaced name ", None, Some("COM3"), 0),
        identity("", Some("AA00"), None, u32::MAX),
        identity("é\t", None, None, 4800),
    ] {
        assert!(same(&load(Some(&save(&i))), &i));
    }
    assert_eq!(save(&identity("a", Some("b"), None, 7)), "a\nb\n\n7\n");
}

#[test]
fn older_and_odd_files_are_read() {
    assert!(same(&load(Some("G4ABC\r\n IO80 \r\n")), &identity("G4ABC", Some("IO80"), None, 4800)));
    assert!(same(&load(Some("G4ABC\n\n  \nfast\n")), &identity("G4ABC", None, None, 4800)));
    assert!(same(&load(Some("G4ABC\nIO80\nCOM1\n +1200 ")), &identity("G4ABC", Some("IO80"), Some("COM1"), 1200)));
    assert!(same(&load(Some("x\ny\nz\n4294967296\nmore")), &identity("x", Some("y"), Some("z"), 4800)));
}

#[test]
fn a_name_that_is_not_one_line_does_not_survive() {
    let two_lines = identity("a\nb", None, None, 4800);
    assert!(!same(&load(Some(&save(&two_lines))), &two_lines));
    let with_return = identity("a\r", None, None, 4800);
    assert_eq!(load(Some(&save(&with_return))).display_name, "a");
}

#[test]
fn loading_settles() {
    for text in ["a\n b \nc\n12", "", "\n\n\n\n", "x\r\n\u{3000}\nport\nnope"] {
        let once = load(Some(text));
        assert!(same(&load(Some(&save(&once))), &once));
    }
}

#[test]
fn a_blank_field_is_not_set() {
    assert_eq!(shown_value(Some("G4ABC")), Some("G4ABC"));
    assert_eq!(shown_value(Some(" \t")), None);
    assert_eq!(shown_value(None), None);
}
