use poc_com::mail::{display_or_dash, format_hms, identity_ready, ComposeState, InboxItem, InboxState};
use poc_com::pipeline::MailFields;
use poc_com::send::SendPhase;
use poc_com::settings::Identity;

type Compose = ComposeState<f32, u8, u16, u32>;

fn letter(from: &str, to: &str, subject: &str) -> MailFields {
    MailFields {
        from: from.to_string(),
        to: to.to_string(),
        location: "IO80".to_string(),
        subject: subject.to_string(),
        message: "hello".to_string(),
    }
}

fn inbox(subjects: &[&str]) -> InboxState {
    let mut state = InboxState::default();
    for (i, s) in subjects.iter().rev().enumerate() {
        state.push_message(letter("g4abc", "base", s), i as u64);
    }
    state
}

fn subjects(state: &InboxState) -> Vec<String> {
    state.items.iter().map(|i| i.message.subject.clone()).collect()
}

fn identity(name: &str, grid: Option<&str>) -> Identity {
    Identity { display_name: name.to_string(), home_grid: grid.map(|s| s.to_string()), ptt_port: None, ptt_baud: 4800 }
}

#[test]
fn a_message_needs_an_identity_and_words() {
    let mut state = Compose::new();
    let me = identity("G4ABC", Some("IO80"));
    assert!(identity_ready(&me));
    assert!(!identity_ready(&identity(" ", Some("IO80"))));
    assert!(!identity_ready(&identity("G4ABC", None)));
    assert!(!state.can_prepare(&me));
    assert_eq!(state.hint(&me), Some("Write a message before sending."));
    assert_eq!(
        state.hint(&identity("", None)),
        Some("Set your callsign and home locator in Settings (⚙) before sending.")
    );
    state.message = "all quiet".to_string();
    assert!(state.can_prepare(&me));
    assert_eq!(state.hint(&me), None);
    assert!(!state.can_prepare(&identity("G4ABC", None)));
    state.send.prepare(1);
    assert!(!state.can_prepare(&me));
}

#[test]
fn the_identity_signs_what_is_sent() {
    let mut state = Compose::new();
    state.to = "Base".to_string();
    state.subject = "Status".to_string();
    state.message = "All quiet".to_string();
    let mail = state.outgoing(&identity("KJ4ABC", Some("IO80")));
    assert_eq!(
        (mail.from.as_str(), mail.to.as_str(), mail.location.as_str(), mail.subject.as_str(), mail.message.as_str()),
        ("KJ4ABC", "Base", "IO80", "Status", "All quiet")
    );
    assert_eq!(state.outgoing(&identity("x", None)).location, "");
    state.reset_for_next_message();
    assert_eq!(state.to, "Base");
    assert_eq!((state.subject.as_str(), state.message.as_str()), ("", ""));
    assert!(matches!(state.send.phase, SendPhase::Idle));
}

#[test]
fn the_newest_message_comes_first_and_the_popover_stays() {
    let mut state = inbox(&["b", "a"]);
    state.open_item(1);
    assert!(state.items[1].read);
    state.push_message(letter("x", "y", "c"), 9);
    assert_eq!(subjects(&state), vec!["c", "b", "a"]);
    assert_eq!(state.reading, Some(2));
    assert!(state.take_just_received());
    assert!(!state.take_just_received());
    assert!(!state.items[0].read);
}

#[test]
fn deleting_keeps_everything_in_step() {
    let mut state = inbox(&["c", "b", "a"]);
    state.set_checked(2, true);
    state.open_item(2);
    state.delete_at(0);
    assert_eq!(subjects(&state), vec!["b", "a"]);
    assert_eq!(state.reading, Some(1));
    assert_eq!(state.checked, vec![false, true]);
    state.delete_at(7);
    assert_eq!(subjects(&state), vec!["b", "a"]);
    state.delete_at(1);
    assert_eq!(state.reading, None);

    // Deleting the newest undoes its arrival.
    let mut state = inbox(&["b", "a"]);
    state.open_item(0);
    state.push_message(letter("x", "y", "c"), 9);
    state.delete_at(0);
    assert_eq!(subjects(&state), vec!["b", "a"]);
    assert_eq!(state.reading, Some(0));
}

#[test]
fn bulk_delete_removes_what_is_checked() {
    let mut state = inbox(&["e", "d", "c", "b", "a"]);
    for i in [0, 1, 4] {
        state.set_checked(i, true);
    }
    state.open_item(2);
    assert_eq!(state.checked_count(), 3);
    assert_eq!(state.delete_button_text(), "Delete (3)");
    state.delete_checked();
    assert_eq!(subjects(&state), vec!["c", "b"]);
    assert_eq!(state.checked, vec![false, false]);
    assert_eq!(state.reading, None);
    assert_eq!(state.checked_count(), 0);
}

#[test]
fn filters_look_for_text_whatever_the_case() {
    let mut state = InboxState::default();
    assert_eq!(state.list_note(), Some("No messages received yet."));
    state.push_message(letter("G4ABC", "Base", "1"), 0);
    state.push_message(letter("m7usd", "BASE CAMP", "2"), 0);
    state.push_message(letter("ÉCLAIR", "other", "3"), 0);
    assert_eq!(state.visible_rows(), vec![0, 1, 2]);
    assert_eq!(state.list_note(), None);
    state.only_mine("base");
    assert_eq!(state.visible_rows(), vec![1, 2]);
    state.filter_from_enabled = true;
    state.filter_from = "USD".to_string();
    assert_eq!(state.visible_rows(), vec![1]);
    assert!(state.shows(1));
    assert!(!state.shows(2));
    state.filter_from = "nobody".to_string();
    assert_eq!(state.visible_rows(), Vec::<usize>::new());
    assert_eq!(state.list_note(), Some("No messages match the current filter."));
    state.filter_to_enabled = false;
    state.filter_from = "éclair".to_string();
    assert_eq!(state.visible_rows(), vec![0]);
}

#[test]
fn clicks_delete_before_they_open() {
    let mut state = inbox(&["b", "a"]);
    state.clicked(Some(0), Some(1));
    assert_eq!(subjects(&state), vec!["a"]);
    assert_eq!(state.reading, None);
    state.clicked(None, Some(0));
    assert_eq!(state.reading, Some(0));
    state.clicked(None, None);
    assert_eq!(state.reading, Some(0));
    state.close_reading();
    assert_eq!(state.reading, None);
}

#[test]
fn a_row_shows_subject_sender_and_time() {
    let mut item = InboxItem { message: letter("g4abc", "base", "Status"), received_at: 3_661, read: false };
    assert_eq!(item.row_text(), "● Status\ng4abc · 01:01:01 UTC");
    item.read = true;
    item.message.from = "  ".to_string();
    item.message.subject = String::new();
    assert_eq!(item.row_text(), "(no subject)\n-- · 01:01:01 UTC");
    assert_eq!(item.title(), "(no subject)");
    assert_eq!(display_or_dash("x"), "x");
    assert_eq!(display_or_dash("\t"), "--");
    assert_eq!(format_hms(0), "00:00:00 UTC");
    assert_eq!(format_hms(86_399), "23:59:59 UTC");
    assert_eq!(format_hms(1_700_000_000), "22:13:20 UTC");
}
