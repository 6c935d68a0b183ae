use poc_com::pipeline::{
    decode_any_reception, decode_social, expand_media_url, fetch_blob, format_bytes, prepare_social_transmission,
    sanitize_filename, shorten_media_url, synthesize, upload_attachment, uploaded_link, Exchange, MailFields,
    ReceivedPayload, SocialFields, Transcription,
};

const LITTERBOX_PREFIX: &str = "https://litter.catbox.moe/";

fn mail() -> MailFields {
    MailFields {
        from: "kj4abc".to_string(),
        to: "base".to_string(),
        location: "io80".to_string(),
        subject: "status".to_string(),
        message: "all quiet".to_string(),
    }
}

fn social(link: Option<&str>, grid: Option<&str>) -> SocialFields {
    SocialFields {
        author: "g4abc".to_string(),
        post: "ridge copy".to_string(),
        link: link.map(|s| s.to_string()),
        grid: grid.map(|s| s.to_string()),
    }
}

#[test]
fn shorten_and_expand_media_url_round_trip() {
    let full = format!("{LITTERBOX_PREFIX}abc123.jpg");
    let short = shorten_media_url(&full);
    assert_eq!(short, "abc123.jpg");
    assert_eq!(expand_media_url(&short), full);
}

#[test]
fn other_links_are_spoken_whole() {
    assert_eq!(shorten_media_url("https://example.org/a.png"), "https://example.org/a.png");
    assert_eq!(shorten_media_url(LITTERBOX_PREFIX), "");
    assert_eq!(shorten_media_url(""), "");
    assert_eq!(expand_media_url(""), LITTERBOX_PREFIX);
}

#[test]
fn sizes_are_written_as_single_precision_writes_them() {
    assert_eq!(format_bytes(0), "0 B");
    assert_eq!(format_bytes(1023), "1023 B");
    assert_eq!(format_bytes(1024), "1.0 KB");
    assert_eq!(format_bytes(1536), "1.5 KB");
    assert_eq!(format_bytes(26_214_400), "25.0 MB");
    let mut samples: Vec<u64> = (0..4000u64).map(|i| 1024 + i * 7).collect();
    samples.extend((0..4000u64).map(|i| 1_048_576 + i * 104_857));
    samples.extend((10..64).map(|s| (1u64 << s) - 1));
    samples.extend((10..64).map(|s| (1u64 << s) + 3));
    samples.push(u64::MAX);
    for bytes in samples {
        let expected = if bytes < 1024 {
            format!("{bytes} B")
        } else if bytes < 1024 * 1024 {
            format!("{:.1} KB", bytes as f32 / 1024.0)
        } else {
            format!("{:.1} MB", bytes as f32 / (1024.0 * 1024.0))
        };
        assert_eq!(format_bytes(bytes), expected, "{bytes}");
    }
}

#[test]
fn a_file_name_cannot_break_out_of_its_header() {
    assert_eq!(sanitize_filename("a\"b\r\nc.png"), "a_b__c.png");
    assert_eq!(sanitize_filename("plain name.jpg"), "plain name.jpg");
    assert_eq!(sanitize_filename("ünï.png"), "ünï.png");
}

#[test]
fn an_upload_is_a_multipart_form() {
    let request = upload_attachment(&[1, 2, 0, 255], "ü\".png");
    assert_eq!(request.url, "https://litterbox.catbox.moe/resources/internals/api.php");
    assert_eq!(request.content_type, "multipart/form-data; boundary=----poc-social-boundary-7f3a9c");
    let boundary = "----poc-social-boundary-7f3a9c";
    let mut expected = Vec::new();
    expected.extend_from_slice(
        format!("--{boundary}\r\nContent-Disposition: form-data; name=\"reqtype\"\r\n\r\nfileupload\r\n").as_bytes(),
    );
    expected.extend_from_slice(
        format!("--{boundary}\r\nContent-Disposition: form-data; name=\"time\"\r\n\r\n72h\r\n").as_bytes(),
    );
    expected.extend_from_slice(
        format!(
            "--{boundary}\r\nContent-Disposition: form-data; name=\"fileToUpload\"; filename=\"ü_.png\"\r\nContent-Type: application/octet-stream\r\n\r\n"
        )
        .as_bytes(),
    );
    expected.extend_from_slice(&[1, 2, 0, 255]);
    expected.extend_from_slice(format!("\r\n--{boundary}--\r\n").as_bytes());
    assert_eq!(request.body, expected);
}

#[test]
fn an_upload_succeeds_only_with_a_link() {
    let ok = uploaded_link(Exchange::Reply(" https://litter.catbox.moe/x.png\n".to_string()));
    assert_eq!(ok, Ok("https://litter.catbox.moe/x.png".to_string()));
    let odd = uploaded_link(Exchange::Reply("no space left\n".to_string()));
    assert_eq!(odd, Err("upload failed: unexpected response (no space left)".to_string()));
    let sent = uploaded_link(Exchange::SendFailed("timeout".to_string()));
    assert_eq!(sent, Err("upload failed: timeout".to_string()));
    let read = uploaded_link(Exchange::ReadFailed("eof".to_string()));
    assert_eq!(read, Err("upload response read failed: eof".to_string()));
}

#[test]
fn a_fetch_reports_what_failed() {
    assert_eq!(fetch_blob(Exchange::Reply(vec![7, 8])), Ok(vec![7, 8]));
    assert_eq!(fetch_blob(Exchange::SendFailed("404".to_string())), Err("fetch failed: 404".to_string()));
    assert_eq!(fetch_blob(Exchange::ReadFailed("eof".to_string())), Err("fetch read failed: eof".to_string()));
}

#[test]
fn only_the_suffix_and_a_valid_grid_are_spoken() {
    let extras = prepare_social_transmission(Some("https://litter.catbox.moe/abc.jpg"), Some("IO80"));
    assert_eq!(extras.link, Some("abc.jpg".to_string()));
    assert_eq!(extras.grid, Some("IO80".to_string()));
    let extras = prepare_social_transmission(None, Some("Ridge Site 2"));
    assert_eq!(extras.link, None);
    assert_eq!(extras.grid, None);
    let extras = prepare_social_transmission(None, None);
    assert!(extras.link.is_none() && extras.grid.is_none());
}

#[test]
fn the_preview_says_what_is_spoken() {
    let words: Vec<String> = ["Ready", "Writer", "Golf"].iter().map(|w| w.to_string()).collect();
    let prepared = synthesize(&words, vec![0.5f32, 0.25], 48_000);
    assert_eq!(prepared.spoken_text, "Ready Writer Golf");
    assert_eq!(prepared.wave, vec![0.5, 0.25]);
    assert_eq!(prepared.sample_rate, 48_000);
    assert_eq!(synthesize(&Vec::new(), Vec::<f32>::new(), 1).spoken_text, "");
}

#[test]
fn mail_wins_over_social() {
    let payload = decode_any_reception(Transcription::Transcript("x".to_string()), Some(mail()), Some(social(None, None)));
    match payload {
        Ok(ReceivedPayload::Mail(m)) => {
            assert_eq!(m.from, "kj4abc");
            assert_eq!(m.message, "all quiet");
        }
        _ => panic!("expected a Mail decode"),
    }
}

#[test]
fn a_social_post_is_completed() {
    let payload =
        decode_any_reception(Transcription::Transcript("x".to_string()), None, Some(social(Some("a.png"), Some("io80"))));
    match payload {
        Ok(ReceivedPayload::Social(post)) => {
            assert_eq!(post.author, "g4abc");
            assert_eq!(post.post, "ridge copy");
            assert_eq!(post.media_url.as_deref(), Some("https://litter.catbox.moe/a.png"));
            assert_eq!(post.origin_grid.as_deref(), Some("io80"));
        }
        _ => panic!("expected a Social decode"),
    }
    let post = decode_social(social(None, Some("nowhere")));
    assert!(post.media_url.is_none());
    assert!(post.origin_grid.is_none());
}

#[test]
fn what_cannot_be_decoded_says_why() {
    let error = |t: Transcription| match decode_any_reception(t, None, None) {
        Err(e) => e,
        Ok(_) => panic!("expected no decode"),
    };
    assert_eq!(
        error(Transcription::Transcript("static".to_string())),
        "couldn't find a recognized message format in the transcript: \"static\""
    );
    assert_eq!(error(Transcription::LockPoisoned), "Whisper decoder lock poisoned by an earlier panic");
    assert_eq!(error(Transcription::LoadFailed("no file".to_string())), "Whisper model failed to load: no file");
    assert_eq!(error(Transcription::Failed("nan".to_string())), "nan");
    let with_mail = decode_any_reception(Transcription::Failed("nan".to_string()), Some(mail()), None);
    assert!(with_mail.is_err());
}

#[test]
fn a_link_survives_being_spoken_and_heard() {
    let url = "https://litter.catbox.moe/q7.webp";
    let spoken = prepare_social_transmission(Some(url), None).link;
    let heard = decode_social(SocialFields { author: "a".to_string(), post: "b".to_string(), link: spoken, grid: None });
    assert_eq!(heard.media_url.as_deref(), Some(url));
}
