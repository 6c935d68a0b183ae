use poc_com::board::{
    decode_fetched, display_or_dash, format_hms, looks_like_audio, looks_like_image, looks_like_video, url_extension,
    wants_fetch, Attachment, ComposeState, FeedState, Media, MAX_ATTACHMENT_BYTES,
};
use poc_com::send::SendPhase;
use poc_com::settings::Identity;

type Compose = ComposeState<f32, u8, u16, u32>;
type Feed = FeedState<u8, &'static str>;

fn identity(name: &str, grid: Option<&str>) -> Identity {
    Identity { display_name: name.to_string(), home_grid: grid.map(|s| s.to_string()), ptt_port: None, ptt_baud: 4800 }
}

#[test]
fn a_post_needs_an_identity_and_something_to_say() {
    let me = identity("G4ABC", Some("IO80"));
    let mut state = Compose::new();
    assert!(!state.can_post(&me));
    assert_eq!(state.hint(&me), Some("Write a post or attach a file before sending."));
    assert_eq!(
        state.hint(&identity("", None)),
        Some("Set your callsign and home locator in Settings (⚙) before sending.")
    );
    state.attach(Some("cat.png".to_string()), Ok(vec![1, 2, 3]));
    assert!(state.can_post(&me));
    assert_eq!(state.hint(&me), None);
    state.remove_attachment();
    assert!(!state.can_post(&me));
    state.post = "ridge copy".to_string();
    assert!(state.can_post(&me));
    state.send.prepare(1);
    assert!(!state.can_post(&me));
    assert_eq!(state.hint(&identity("", None)), None);
}

#[test]
fn attachments_are_capped() {
    let mut state = Compose::new();
    state.attach(Some("ok".to_string()), Ok(vec![0; 2048]));
    state.attach(None, Ok(vec![0; MAX_ATTACHMENT_BYTES as usize + 1]));
    assert_eq!(state.attachment_warning.as_deref(), Some("25.0 MB is too large (max 25.0 MB)"));
    assert_eq!(state.attachment.as_ref().unwrap().label(), "ok (2.0 KB)");
    state.attach(None, Err("denied".to_string()));
    assert_eq!(state.attachment_warning.as_deref(), Some("couldn't read file: denied"));
    state.attach(None, Ok(vec![0; MAX_ATTACHMENT_BYTES as usize]));
    assert!(state.attachment_warning.is_none());
    let attachment = state.attachment.as_ref().unwrap();
    assert_eq!(attachment.label(), "? (25.0 MB)");
    assert_eq!(attachment.upload_name(), "attachment");
    assert_eq!(Attachment { name: Some("a.b".to_string()), bytes: vec![] }.upload_name(), "a.b");
}

#[test]
fn a_sent_post_is_cleared() {
    let mut state = Compose::new();
    assert_eq!(state.preparing_text(), "Assembling audio...");
    state.post = "x".to_string();
    state.attach(None, Ok(vec![1]));
    assert_eq!(state.preparing_text(), "Uploading attachment and assembling audio...");
    state.attach(None, Err("gone".to_string()));
    state.reset_for_next_post();
    assert_eq!(state.post, "");
    assert!(state.attachment.is_none() && state.attachment_warning.is_none());
    assert!(matches!(state.send.phase, SendPhase::Idle));
}

#[test]
fn extensions_are_cut_out_of_links() {
    for url in ["https://a.b/c.JPG?x=1.2", "https://a.b/c.JPG?x=1", "noext", "", "a.", ".", "a.b?", "x.TAR.GZ", "a.ÄÖ", "?.png", "a?b.png"] {
        let expected = url.split('.').next_back().unwrap_or("").split('?').next().unwrap_or("").to_lowercase();
        assert_eq!(url_extension(url), expected, "{url}");
    }
    assert_eq!(url_extension("https://litter.catbox.moe/abc.JPG?dl=1"), "jpg");
}

#[test]
fn links_have_their_kinds() {
    for e in ["jpg", "jpeg", "png", "gif", "webp", "avif", "bmp", "PNG"] {
        let url = format!("https://x/y.{e}");
        assert!(looks_like_image(&url) && !looks_like_video(&url) && !looks_like_audio(&url));
    }
    for e in ["mp4", "webm", "mov", "mkv", "avi", "Mp4"] {
        let url = format!("https://x/y.{e}?t=1");
        assert!(!looks_like_image(&url) && looks_like_video(&url) && !looks_like_audio(&url));
    }
    for e in ["mp3", "wav", "ogg", "flac", "m4a", "opus", "aac", "FLAC"] {
        let url = format!("https://x/y.{e}");
        assert!(!looks_like_image(&url) && !looks_like_video(&url) && looks_like_audio(&url));
    }
    for url in ["https://x/y", "https://x/y.pdf", "", "jpgx"] {
        assert!(!looks_like_image(url) && !looks_like_video(url) && !looks_like_audio(url));
    }
}

#[test]
fn posts_land_in_the_feed_with_their_media() {
    let mut feed = Feed::new();
    let push = |feed: &mut Feed, url: Option<&str>| {
        let url = url.map(|u| u.to_string());
        let fetch = if wants_fetch(&url) { Some(9) } else { None };
        feed.push_post("a".to_string(), "p".to_string(), url, fetch, 5);
    };
    push(&mut feed, None);
    push(&mut feed, Some("https://x/a.png"));
    push(&mut feed, Some("https://x/a.mp4"));
    push(&mut feed, Some("https://x/a.mp3"));
    push(&mut feed, Some("https://x/a.pdf"));
    assert!(feed.just_received);
    assert!(matches!(feed.posts[0].media, Media::Absent));
    assert!(matches!(&feed.posts[1].media, Media::ImageLoading(u, 9) if u == "https://x/a.png"));
    assert!(matches!(&feed.posts[2].media, Media::Video(u) if u == "https://x/a.mp4"));
    assert!(matches!(&feed.posts[3].media, Media::Audio(u) if u == "https://x/a.mp3"));
    assert!(matches!(&feed.posts[4].media, Media::Link(u) if u == "https://x/a.pdf"));
    assert_eq!(feed.posts[4].received_at, 5);
}

#[test]
fn a_failed_image_can_be_fetched_again() {
    let mut feed = Feed::new();
    feed.push_post("a".to_string(), "p".to_string(), Some("u.png".to_string()), Some(1), 0);
    feed.resolve_image(0, Err("504".to_string()));
    assert!(matches!(&feed.posts[0].media, Media::ImageFailed(u, e) if u == "u.png" && e == "504"));
    assert_eq!(feed.failed_link(0), Some(&"u.png".to_string()));
    feed.retry_image(0, 2);
    assert!(matches!(&feed.posts[0].media, Media::ImageLoading(u, 2) if u == "u.png"));
    assert_eq!(feed.failed_link(0), None);
    feed.resolve_image(0, Ok("texture"));
    assert!(matches!(&feed.posts[0].media, Media::ImageReady(u, "texture") if u == "u.png"));
    feed.resolve_image(0, Err("late".to_string()));
    feed.retry_image(0, 3);
    assert!(matches!(&feed.posts[0].media, Media::ImageReady(_, "texture")));
}

/// A bitmap of one row: red, then green.
fn bitmap() -> Vec<u8> {
    let mut out = b"BM".to_vec();
    out.extend_from_slice(&62u32.to_le_bytes());
    out.extend_from_slice(&0u32.to_le_bytes());
    out.extend_from_slice(&54u32.to_le_bytes());
    out.extend_from_slice(&40u32.to_le_bytes());
    out.extend_from_slice(&2i32.to_le_bytes());
    out.extend_from_slice(&1i32.to_le_bytes());
    out.extend_from_slice(&1u16.to_le_bytes());
    out.extend_from_slice(&24u16.to_le_bytes());
    out.extend_from_slice(&[0; 24]);
    out.extend_from_slice(&[0, 0, 255, 0, 255, 0, 0, 0]);
    out
}

#[test]
fn fetched_images_are_decoded() {
    let image = match decode_fetched(Ok(bitmap())) {
        Ok(image) => image,
        Err(e) => panic!("{e}"),
    };
    assert_eq!((image.width, image.height), (2, 1));
    assert_eq!(image.pixels, vec![255, 0, 0, 255, 0, 255, 0, 255]);
}

#[test]
fn what_cannot_be_decoded_fails_with_a_message() {
    match decode_fetched(Ok(b"not an image".to_vec())) {
        Ok(_) => panic!("decoded nonsense"),
        Err(e) => assert_eq!(e, image::load_from_memory(b"not an image").err().unwrap().to_string()),
    }
    match decode_fetched(Err("fetch failed: 404".to_string())) {
        Ok(_) => panic!("decoded nothing"),
        Err(e) => assert_eq!(e, "fetch failed: 404"),
    }
}

#[test]
fn authors_may_be_anonymous() {
    assert_eq!(display_or_dash("G4ABC"), "G4ABC");
    assert_eq!(display_or_dash(" "), "Anonymous");
    assert_eq!(format_hms(45_296), "12:34:56 UTC");
}

#[test]
fn the_case_of_a_link_does_not_change_its_kind() {
    for url in ["https://a.b/c.jpg", "https://a.b/c.Webm?x=Y", "https://a.b/c.OPUS", "https://ä.b/é.pdf", "none", ""] {
        for other in [url.to_ascii_uppercase(), url.to_ascii_lowercase()] {
            assert_eq!(url_extension(url), url_extension(&other));
            assert_eq!(looks_like_image(url), looks_like_image(&other));
            assert_eq!(looks_like_video(url), looks_like_video(&other));
            assert_eq!(looks_like_audio(url), looks_like_audio(&other));
        }
    }
    assert!(looks_like_image("HTTPS://A.B/C.JPG"));
    assert!(looks_like_video("https://a.b/c.Webm?x=Y"));
    assert!(looks_like_audio("https://a.b/c.OPUS"));
}
