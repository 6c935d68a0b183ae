use poc_com::app::{payload_wants_fetch, record_contact, Mode, PocComApp, TestAction, MODES};
use poc_com::board::Media;
use poc_com::device::{device_lists, DeviceInfo};
use poc_com::error::AudioIoError;
use poc_com::map::{Contact, ContactVia};
use poc_com::pipeline::{DecodedSocial, MailFields, PreparedTx, ReceivedPayload};
use poc_com::send::PTT_LEAD_IN_NS;
use poc_com::settings::Identity;

type App = PocComApp<f32, u8, u16, &'static str, u32, u64, i8, i16>;

fn app() -> App {
    let devices = vec![DeviceInfo { name: "dev".to_string() }];
    let lists = device_lists(Ok(devices.clone()), Ok(devices));
    App::new(lists, Identity::default(), vec!["COM1".to_string()], 0)
}

fn mail(from: &str, location: &str) -> ReceivedPayload {
    ReceivedPayload::Mail(MailFields {
        from: from.to_string(),
        to: "base".to_string(),
        location: location.to_string(),
        subject: "s".to_string(),
        message: "m".to_string(),
    })
}

fn social(url: Option<&str>, grid: Option<&str>) -> ReceivedPayload {
    ReceivedPayload::Social(DecodedSocial {
        author: "g4abc".to_string(),
        post: "p".to_string(),
        media_url: url.map(|s| s.to_string()),
        origin_grid: grid.map(|s| s.to_string()),
    })
}

#[test]
fn the_application_starts_in_mail_mode() {
    let app = app();
    assert_eq!(app.mode, Mode::Mail);
    assert_eq!(app.selected_input.as_deref(), Some("dev"));
    assert_eq!(app.selected_output.as_deref(), Some("dev"));
    assert!(!app.current_mode_is_transmitting());
    assert!(!app.mail_feed.filter_to_enabled && !app.mail_feed.filter_from_enabled);
    assert!(app.mail_feed.filter_to.is_empty() && app.mail_feed.filter_from.is_empty());
    assert!(!app.mail_feed.just_received && !app.social_feed.just_received);
    assert!(app.mail_compose.to.is_empty() && app.social_compose.post.is_empty());
    assert!(app.social_compose.attachment.is_none());
    assert!(app.listen.error.is_none() && app.listen.last_raw_capture.is_none());
    assert_eq!(MODES[0].label(), "Mail");
    assert_eq!(MODES[1].label(), "Social");
}

#[test]
fn messages_are_routed_whichever_mode_is_on_screen() {
    let mut app = app();
    app.select_mode(Mode::Social);
    app.route_received_payload(mail("kj4abc", "io80"), None, 7);
    assert_eq!(app.mail_feed.items.len(), 1);
    assert_eq!(app.mail_feed.items[0].received_at, 7);
    assert!(app.social_feed.posts.is_empty());
    app.select_mode(Mode::Mail);
    let payload = social(Some("https://x/a.png"), Some("IO80"));
    assert!(payload_wants_fetch(&payload));
    app.route_received_payload(payload, Some(4), 9);
    assert!(matches!(&app.social_feed.posts[0].media, Media::ImageLoading(u, 4) if u == "https://x/a.png"));
    assert_eq!(app.mail_feed.items.len(), 1);
    assert!(!payload_wants_fetch(&mail("a", "b")));
    assert!(!payload_wants_fetch(&social(Some("x.pdf"), None)));

    // One contact for the square, refreshed by the later message.
    assert_eq!(app.contacts.len(), 1);
    let c = &app.contacts[0];
    assert_eq!((c.locator.as_str(), c.label.as_str(), c.last_heard, c.via), ("io80", "g4abc", 9, ContactVia::Social));
    app.route_received_payload(social(None, None), None, 10);
    assert_eq!(app.contacts.len(), 1);
}

#[test]
fn contacts_are_kept_by_square() {
    let mut contacts: Vec<Contact> = Vec::new();
    record_contact(&mut contacts, "a", "IO80", ContactVia::Mail, 1);
    record_contact(&mut contacts, " ", "JN18", ContactVia::Mail, 2);
    record_contact(&mut contacts, "c", "somewhere", ContactVia::Mail, 3);
    record_contact(&mut contacts, "d", "jn18", ContactVia::Social, 4);
    assert_eq!(contacts.len(), 2);
    assert_eq!((contacts[0].locator.as_str(), contacts[0].label.as_str()), ("IO80", "a"));
    assert_eq!((contacts[1].locator.as_str(), contacts[1].label.as_str(), contacts[1].last_heard), ("JN18", "d", 4));
    record_contact(&mut contacts, "", "jn18", ContactVia::Mail, 5);
    assert_eq!(contacts[1].label, "(unknown)");
}

#[test]
fn modes_do_not_change_while_ptt_is_engaged() {
    let mut app = app();
    app.mail_compose.send.prepare(1);
    app.mail_compose.send.prepared(Ok(PreparedTx { wave: vec![0.0], sample_rate: 8, spoken_text: String::new() }));
    assert!(app.can_select(Mode::Social));
    app.mail_compose.send.choose_action(true, false, None, 0);
    assert!(app.current_mode_is_transmitting());
    assert!(app.can_select(Mode::Mail));
    assert!(!app.can_select(Mode::Social));
    app.select_mode(Mode::Social);
    assert_eq!(app.mode, Mode::Mail);
    app.mail_compose.send.take_launch(PTT_LEAD_IN_NS);
    app.mail_compose.send.launched(None, Ok(1));
    app.mail_compose.send.audio_polled(true, 0);
    app.select_mode(Mode::Social);
    assert_eq!(app.mode, Mode::Social);
}

#[test]
fn a_test_is_never_left_keyed() {
    let mut app = app();
    assert!(matches!(app.test_clicked(), TestAction::Settled));
    app.identity.ptt_port = Some("COM1".to_string());
    assert_eq!(app.test_button_text(), "🔘 Test PTT");
    match app.test_clicked() {
        TestAction::Key { port, baud } => assert_eq!((port.as_str(), baud), ("COM1", 4800)),
        TestAction::Settled => panic!("expected to key"),
    }
    app.test_keyed(Err(AudioIoError::Ptt("busy".to_string())));
    assert_eq!(app.ptt_test_error.as_deref(), Some("PTT serial port error: busy"));
    assert!(app.ptt_test.is_none());
    app.test_keyed(Ok("keyed"));
    assert_eq!(app.test_button_text(), "⏹ Release PTT");
    assert!(matches!(app.test_clicked(), TestAction::Settled));
    assert!(app.ptt_test.is_none());

    // Nothing changed: the test goes on, and nothing is saved.
    app.test_keyed(Ok("keyed"));
    app.settings_open = true;
    let before = app.settings_now();
    assert!(!app.settle_settings(before, false));
    assert_eq!(app.ptt_test, Some("keyed"));
    // Another grid is saved.
    let before = app.settings_now();
    app.identity.home_grid = Some("IO80".to_string());
    assert!(app.settle_settings(before, false));
    assert_eq!(app.ptt_test, Some("keyed"));
    // So is another name alone, and then no more.
    let before = app.settings_now();
    app.identity.display_name = "M7USD".to_string();
    assert!(app.settle_settings(before, false));
    assert_eq!(app.ptt_test, Some("keyed"));
    assert!(app.settings_open);
    let before = app.settings_now();
    assert!(!app.settle_settings(before, false));
    // Another baud rate releases the test.
    let before = app.settings_now();
    app.identity.ptt_baud = 9600;
    assert!(app.settle_settings(before, false));
    assert_eq!(app.ptt_test, None);
    // So does another port, and closing.
    app.test_keyed(Ok("keyed"));
    let before = app.settings_now();
    app.identity.ptt_port = None;
    assert!(app.settle_settings(before, false));
    assert_eq!(app.ptt_test, None);
    app.test_keyed(Ok("keyed"));
    let before = app.settings_now();
    assert!(app.settle_settings(before, true));
    assert!(!app.settings_open);
    assert_eq!(app.ptt_test, None);
}
