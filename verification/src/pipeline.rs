//! The seam between what a mode wants to say and how it goes out and comes
//! back over audio: which words are spoken, which link and grid square go
//! along, and which kind of message a transcript turns out to be.
//!
//! There is no compression, no bit-packing and no forward error correction:
//! a message is spelled out in a small, fixed, pre-rendered vocabulary, and
//! decoding it is asking the speech recognizer what it heard.
//!
//! Receive is auto-detecting, not mode-scoped: whichever mode's marker words
//! show up in the transcript wins, Mail first.

use vstd::prelude::*;
use vstd::string::*;
use vstd::utf8::encode_utf8;
use crate::maidenhead::{center_of, is_valid_locator};
use crate::single::{one_decimal, one_decimal_text, rounding_is_fine, single_of, to_single};
use crate::text::{
    chars_of, copy_of, decimal, decimal_text, join_words, said, spaced, starts_with, strip_prefix,
    together, together3, trim, trimmed, without_prefix,
};

verus! {

// Soft guardrails on field length. They are no protocol limits: every extra
// character costs a whole spoken clip plus a gap.
pub const MAX_FROM_CHARS: usize = 12;

pub const MAX_TO_CHARS: usize = 12;

pub const MAX_SUBJECT_CHARS: usize = 24;

pub const MAX_MESSAGE_CHARS: usize = 60;

pub const MAX_POST_CHARS: usize = 60;

/// Milliseconds of silence between consecutive clips.
pub const GAP_MS: u32 = 200;

// ---------------------------------------------------------------------
// Links
// ---------------------------------------------------------------------

/// The fixed host that every attachment goes to. Only what follows this is
/// spoken; the receiver puts it back.
pub open spec fn litterbox_prefix() -> Seq<char> {
    "https://litter.catbox.moe/"@
}

/// The part of a link that is spoken.
pub fn shorten_media_url(url: &str) -> (short: String)
    ensures
        short@ == without_prefix(url@, litterbox_prefix()),
{
    strip_prefix(url, "https://litter.catbox.moe/")
}

/// The link that a spoken part stands for.
pub fn expand_media_url(short: &str) -> (url: String)
    ensures
        url@ == litterbox_prefix() + short@,
{
    together("https://litter.catbox.moe/", short)
}

/// A link to the fixed host comes back as it was, and whatever part was heard
/// is the part that its link would be shortened to.
pub proof fn shortened_links_are_expanded_back(url: Seq<char>, short: Seq<char>)
    ensures
        litterbox_prefix().is_prefix_of(url) ==> litterbox_prefix() + without_prefix(
            url,
            litterbox_prefix(),
        ) == url,
        without_prefix(litterbox_prefix() + short, litterbox_prefix()) == short,
{
    let prefix = litterbox_prefix();
    if prefix.is_prefix_of(url) {
        assert(prefix + url.skip(prefix.len() as int) == url);
    }
    let whole = prefix + short;
    assert(whole.subrange(0, prefix.len() as int) == prefix);
    assert(whole.skip(prefix.len() as int) == short);
}

// ---------------------------------------------------------------------
// Sizes
// ---------------------------------------------------------------------

/// A size: in bytes below a kilobyte, else in kilobytes or megabytes with one
/// decimal, counted in single precision.
pub open spec fn bytes_text(bytes: nat) -> Seq<char> {
    if bytes < 1024 {
        decimal(bytes) + " B"@
    } else if bytes < 1_048_576 {
        one_decimal(single_of(bytes), 1024) + " KB"@
    } else {
        one_decimal(single_of(bytes), 1_048_576) + " MB"@
    }
}

pub fn format_bytes(bytes: u64) -> (text: String)
    ensures
        text@ == bytes_text(bytes as nat),
{
    if bytes < 1024 {
        let number = decimal_text(bytes as u128);
        together(&number, " B")
    } else if bytes < 1_048_576 {
        let number = one_decimal_text(to_single(bytes as u128), 1024);
        together(&number, " KB")
    } else {
        let number = one_decimal_text(to_single(bytes as u128), 1_048_576);
        together(&number, " MB")
    }
}

// ---------------------------------------------------------------------
// Sending
// ---------------------------------------------------------------------

/// A transmission that is ready to be played. `S` is a sample.
pub struct PreparedTx<S> {
    pub wave: Vec<S>,
    pub sample_rate: u32,
    /// What the assembled clips say, word for word, so that a listener on the
    /// radio and someone reading the preview see the same thing.
    pub spoken_text: String,
}

/// Puts a transmission together from the words that are spoken and the wave
/// that speaks them.
pub fn synthesize<S>(words: &Vec<String>, wave: Vec<S>, sample_rate: u32) -> (prepared: PreparedTx<
    S,
>)
    ensures
        prepared.wave == wave,
        prepared.sample_rate == sample_rate,
        prepared.spoken_text@ == spaced(words@.map_values(|w: String| w@)),
{
    PreparedTx { wave, sample_rate, spoken_text: join_words(words) }
}

/// A grid square, if it is a valid locator.
pub open spec fn valid_grid(grid: Option<Seq<char>>) -> Option<Seq<char>> {
    match grid {
        Some(g) => if center_of(g) is Some {
            Some(g)
        } else {
            None
        },
        None => None,
    }
}

/// What is spoken of a post besides its author and text.
pub struct SocialExtras {
    pub link: Option<String>,
    pub grid: Option<String>,
}

/// The link and the grid square that go along with a post. `media_url` is the
/// full link of the uploaded attachment; only what follows the known host is
/// spoken. A grid square that is no valid locator is dropped rather than
/// spoken as garbage.
pub fn prepare_social_transmission(media_url: Option<&str>, grid: Option<&str>) -> (extras:
    SocialExtras)
    ensures
        said(extras.link) == (match media_url {
            Some(url) => Some(without_prefix(url@, litterbox_prefix())),
            None => None,
        }),
        said(extras.grid) == valid_grid(
            match grid {
                Some(g) => Some(g@),
                None => None,
            },
        ),
{
    let link = match media_url {
        Some(url) => Some(shorten_media_url(url)),
        None => None,
    };
    let grid = match grid {
        Some(g) => if is_valid_locator(g) {
            Some(copy_of(g))
        } else {
            None
        },
        None => None,
    };
    SocialExtras { link, grid }
}

// ---------------------------------------------------------------------
// Uploading an attachment. Its bytes never ride the audio channel: they go to
// remote blob storage and only the link is spoken.
// ---------------------------------------------------------------------

/// A character of a file name, an underscore where it would break out of the
/// header that the name is put in.
pub open spec fn safe_char(c: char) -> char {
    if c == '"' || c == '\r' || c == '\n' {
        '_'
    } else {
        c
    }
}

/// The file name with every character made safe.
pub open spec fn safe_name(name: Seq<char>) -> Seq<char> {
    name.map_values(|c: char| safe_char(c))
}

pub fn sanitize_filename(name: &str) -> (safe: String)
    ensures
        safe@ == safe_name(name@),
{
    let chars = chars_of(name);
    let mut safe = String::new();
    for i in 0..chars.len()
        invariant
            chars@ == name@,
            safe@ == safe_name(name@).take(i as int),
    {
        let c = chars[i];
        safe.push(
            if c == '"' || c == '\r' || c == '\n' {
                '_'
            } else {
                c
            },
        );
        assert(safe@ == safe_name(name@).take(i + 1));
    }
    assert(safe_name(name@).take(name@.len() as int) == safe_name(name@));
    safe
}

/// A sanitized name stays within its quotes and on its line, keeps its length,
/// and sanitizing it again changes nothing.
pub proof fn sanitized_names_stay_in_their_header(name: Seq<char>)
    ensures
        !safe_name(name).contains('"'),
        !safe_name(name).contains('\r'),
        !safe_name(name).contains('\n'),
        safe_name(name).len() == name.len(),
        safe_name(safe_name(name)) == safe_name(name),
{
    assert(safe_name(safe_name(name)) == safe_name(name));
}

/// The text in front of the file's bytes.
pub open spec fn upload_head(filename: Seq<char>) -> Seq<char> {
    "------poc-social-boundary-7f3a9c\r\nContent-Disposition: form-data; name=\"reqtype\"\r\n\r\nfileupload\r\n------poc-social-boundary-7f3a9c\r\nContent-Disposition: form-data; name=\"time\"\r\n\r\n72h\r\n------poc-social-boundary-7f3a9c\r\nContent-Disposition: form-data; name=\"fileToUpload\"; filename=\""@
        + safe_name(filename) + "\"\r\nContent-Type: application/octet-stream\r\n\r\n"@
}

/// The text behind the file's bytes.
pub open spec fn upload_tail() -> Seq<char> {
    "\r\n------poc-social-boundary-7f3a9c--\r\n"@
}

/// A request to the blob storage.
pub struct UploadRequest {
    pub url: String,
    pub content_type: String,
    pub body: Vec<u8>,
}

/// The request that uploads an attachment to a free anonymous temporary file
/// host, to be kept for 72 hours.
pub fn upload_attachment(bytes: &[u8], filename: &str) -> (request: UploadRequest)
    ensures
        request.url@ == "https://litterbox.catbox.moe/resources/internals/api.php"@,
        request.content_type@ == "multipart/form-data; boundary=----poc-social-boundary-7f3a9c"@,
        request.body@ == encode_utf8(upload_head(filename@)) + bytes@ + encode_utf8(upload_tail()),
{
    let safe = sanitize_filename(filename);
    let head = together3(
        "------poc-social-boundary-7f3a9c\r\nContent-Disposition: form-data; name=\"reqtype\"\r\n\r\nfileupload\r\n------poc-social-boundary-7f3a9c\r\nContent-Disposition: form-data; name=\"time\"\r\n\r\n72h\r\n------poc-social-boundary-7f3a9c\r\nContent-Disposition: form-data; name=\"fileToUpload\"; filename=\"",
        &safe,
        "\"\r\nContent-Type: application/octet-stream\r\n\r\n",
    );
    let mut body: Vec<u8> = Vec::new();
    body.extend_from_slice(head.as_str().as_bytes());
    assert(body@ == encode_utf8(upload_head(filename@)));
    body.extend_from_slice(bytes);
    assert(body@ == encode_utf8(upload_head(filename@)) + bytes@);
    let tail = "\r\n------poc-social-boundary-7f3a9c--\r\n";
    body.extend_from_slice(tail.as_bytes());
    assert(body@ == encode_utf8(upload_head(filename@)) + bytes@ + encode_utf8(upload_tail()));
    UploadRequest {
        url: copy_of("https://litterbox.catbox.moe/resources/internals/api.php"),
        content_type: copy_of("multipart/form-data; boundary=----poc-social-boundary-7f3a9c"),
        body,
    }
}

/// How an exchange with a remote host went: the request failed, reading the
/// reply failed, or the reply is there.
pub enum Exchange<T> {
    SendFailed(String),
    ReadFailed(String),
    Reply(T),
}

/// What an upload comes to: the link in the reply, if it is one.
pub open spec fn upload_outcome(exchange: Exchange<String>) -> Result<Seq<char>, Seq<char>> {
    match exchange {
        Exchange::SendFailed(e) => Err("upload failed: "@ + e@),
        Exchange::ReadFailed(e) => Err("upload response read failed: "@ + e@),
        Exchange::Reply(text) => if "http"@.is_prefix_of(trimmed(text@)) {
            Ok(trimmed(text@))
        } else {
            Err("upload failed: unexpected response ("@ + trimmed(text@) + ")"@)
        },
    }
}

/// What a result says.
pub open spec fn result_said(result: Result<String, String>) -> Result<Seq<char>, Seq<char>> {
    match result {
        Ok(text) => Ok(text@),
        Err(e) => Err(e@),
    }
}

/// The link of an uploaded attachment.
pub fn uploaded_link(exchange: Exchange<String>) -> (link: Result<String, String>)
    ensures
        result_said(link) == upload_outcome(exchange),
{
    match exchange {
        Exchange::SendFailed(e) => Err(together("upload failed: ", &e)),
        Exchange::ReadFailed(e) => Err(together("upload response read failed: ", &e)),
        Exchange::Reply(text) => {
            let url = trim(&text);
            if starts_with(&url, "http") {
                Ok(url)
            } else {
                Err(together3("upload failed: unexpected response (", &url, ")"))
            }
        },
    }
}

/// What was fetched, or why nothing was.
pub fn fetch_blob(exchange: Exchange<Vec<u8>>) -> (blob: Result<Vec<u8>, String>)
    ensures
        match exchange {
            Exchange::SendFailed(e) => blob matches Err(s) && s@ == "fetch failed: "@ + e@,
            Exchange::ReadFailed(e) => blob matches Err(s) && s@ == "fetch read failed: "@ + e@,
            Exchange::Reply(bytes) => blob == Ok::<Vec<u8>, String>(bytes),
        },
{
    match exchange {
        Exchange::SendFailed(e) => Err(together("fetch failed: ", &e)),
        Exchange::ReadFailed(e) => Err(together("fetch read failed: ", &e)),
        Exchange::Reply(bytes) => Ok(bytes),
    }
}

// ---------------------------------------------------------------------
// Receiving: transcribe once, try both known formats.
// ---------------------------------------------------------------------

/// The fields of a Mail message.
pub struct MailFields {
    pub from: String,
    pub to: String,
    pub location: String,
    pub subject: String,
    pub message: String,
}

/// The fields of a Social post as they were heard.
pub struct SocialFields {
    pub author: String,
    pub post: String,
    pub link: Option<String>,
    pub grid: Option<String>,
}

pub struct DecodedSocial {
    pub author: String,
    pub post: String,
    pub media_url: Option<String>,
    pub origin_grid: Option<String>,
}

pub enum ReceivedPayload {
    Mail(MailFields),
    Social(DecodedSocial),
}

/// What became of a transcription. The recognizer is loaded once and shared:
/// its lock may be poisoned, it may have failed to load, or it ran.
pub enum Transcription {
    LockPoisoned,
    LoadFailed(String),
    Failed(String),
    Transcript(String),
}

/// Why there is no transcript, if there is none.
pub open spec fn transcription_error(transcription: Transcription) -> Option<Seq<char>> {
    match transcription {
        Transcription::LockPoisoned => Some(
            "Whisper decoder lock poisoned by an earlier panic"@,
        ),
        Transcription::LoadFailed(e) => Some("Whisper model failed to load: "@ + e@),
        Transcription::Failed(e) => Some(e@),
        Transcription::Transcript(_) => None,
    }
}

/// The post that heard fields make up: the link completed, and the grid
/// square dropped where it is no valid locator.
pub open spec fn post_from(social: SocialFields, post: DecodedSocial) -> bool {
    &&& post.author@ == social.author@
    &&& post.post@ == social.post@
    &&& said(post.media_url) == (match social.link {
        Some(link) => Some(litterbox_prefix() + link@),
        None => None,
    })
    &&& said(post.origin_grid) == valid_grid(said(social.grid))
}

/// The post that heard fields make up.
pub fn decode_social(social: SocialFields) -> (post: DecodedSocial)
    ensures
        post_from(social, post),
{
    let media_url = match &social.link {
        Some(link) => Some(expand_media_url(link)),
        None => None,
    };
    let origin_grid = match social.grid {
        Some(g) => if is_valid_locator(&g) {
            Some(g)
        } else {
            None
        },
        None => None,
    };
    DecodedSocial { author: social.author, post: social.post, media_url, origin_grid }
}

/// The message in a transcript: a Mail message where the transcript parsed as
/// one, else a Social post where it parsed as one. Neither means that no real
/// transmission was present, or that too many words were misheard.
pub fn decode_any_reception(
    transcription: Transcription,
    mail: Option<MailFields>,
    social: Option<SocialFields>,
) -> (payload: Result<ReceivedPayload, String>)
    ensures
        match transcription_error(transcription) {
            Some(text) => payload matches Err(e) && e@ == text,
            None => match (mail, social) {
                (Some(m), _) => payload == Ok::<ReceivedPayload, String>(ReceivedPayload::Mail(m)),
                (None, Some(s)) => payload matches Ok(ReceivedPayload::Social(post)) && post_from(
                    s,
                    post,
                ),
                (None, None) => payload matches Err(e) && e@
                    == "couldn't find a recognized message format in the transcript: \""@
                    + transcription->Transcript_0@ + "\""@,
            },
        },
{
    let transcript = match transcription {
        Transcription::LockPoisoned => {
            return Err(copy_of("Whisper decoder lock poisoned by an earlier panic"));
        },
        Transcription::LoadFailed(e) => {
            return Err(together("Whisper model failed to load: ", &e));
        },
        Transcription::Failed(e) => {
            return Err(e);
        },
        Transcription::Transcript(text) => text,
    };
    if let Some(m) = mail {
        return Ok(ReceivedPayload::Mail(m));
    }
    if let Some(s) = social {
        return Ok(ReceivedPayload::Social(decode_social(s)));
    }
    Err(
        together3(
            "couldn't find a recognized message format in the transcript: \"",
            &transcript,
            "\"",
        ),
    )
}

/// The link that was spoken of an attachment is the link that is received: a
/// receiver who hears it as it was sent gets the full link back.
pub proof fn a_spoken_link_arrives(url: Seq<char>, heard: SocialFields, post: DecodedSocial)
    requires
        litterbox_prefix().is_prefix_of(url),
        said(heard.link) == Some(without_prefix(url, litterbox_prefix())),
        post_from(heard, post),
    ensures
        said(post.media_url) == Some(url),
{
    shortened_links_are_expanded_back(url, Seq::empty());
}

// ---------------------------------------------------------------------
// Laws
// ---------------------------------------------------------------------

/// A size is written in the largest of bytes, kilobytes and megabytes that
/// there is one of, in full or with one decimal. The digits are then within a
/// half of ten times the size, and within one part in 16,777,216.
pub proof fn sizes_are_written_to_the_nearest_tenth(bytes: nat)
    ensures
        bytes < 1024 ==> bytes_text(bytes) == decimal(bytes) + " B"@,
        1024 <= bytes < 1024 * 1024 ==> exists|near: nat|
            bytes_text(bytes) == #[trigger] one_decimal(near, 1024) + " KB"@ && 0xFF_FFFF * bytes
                <= 0x100_0000 * near <= 0x100_0001 * bytes,
        bytes >= 1024 * 1024 ==> exists|near: nat|
            bytes_text(bytes) == #[trigger] one_decimal(near, 1024 * 1024) + " MB"@ && 0xFF_FFFF
                * bytes <= 0x100_0000 * near <= 0x100_0001 * bytes,
{
    let near = single_of(bytes);
    rounding_is_fine(bytes);
    if 1024 <= bytes < 1024 * 1024 {
        assert(bytes_text(bytes) == one_decimal(near, 1024) + " KB"@);
    } else if bytes >= 1024 * 1024 {
        assert(bytes_text(bytes) == one_decimal(near, 1024 * 1024) + " MB"@);
    }
}

/// A file name keeps every character that is harmless, in its place, and has an
/// underscore for every quote and every line break.
pub proof fn only_harmful_characters_are_replaced(name: Seq<char>, i: int)
    requires
        0 <= i < name.len(),
    ensures
        safe_name(name).len() == name.len(),
        name[i] == '"' || name[i] == '\r' || name[i] == '\n' ==> safe_name(name)[i] == '_',
        name[i] != '"' && name[i] != '\r' && name[i] != '\n' ==> safe_name(name)[i] == name[i],
{
}

/// What stands in front of the file in an upload depends on the file name only
/// where the name stands.
pub proof fn uploads_differ_in_the_name_alone(a: Seq<char>, b: Seq<char>)
    ensures
        exists|front: Seq<char>, back: Seq<char>|
            upload_head(a) == #[trigger] (front + safe_name(a) + back) && upload_head(b) == front
                + safe_name(b) + back,
{
    let front = "------poc-social-boundary-7f3a9c\r\nContent-Disposition: form-data; name=\"reqtype\"\r\n\r\nfileupload\r\n------poc-social-boundary-7f3a9c\r\nContent-Disposition: form-data; name=\"time\"\r\n\r\n72h\r\n------poc-social-boundary-7f3a9c\r\nContent-Disposition: form-data; name=\"fileToUpload\"; filename=\""@;
    let back = "\"\r\nContent-Type: application/octet-stream\r\n\r\n"@;
    assert(upload_head(a) == front + safe_name(a) + back);
}

/// An upload succeeds exactly where the reply, trimmed, starts like a link, and
/// that is then the link; every failure names what came back.
pub proof fn an_upload_gives_the_link_in_the_reply(reply: String, error: String)
    ensures
        ({
            let link = trimmed(reply@);
            let is_link = link.len() >= 4 && link[0] == 'h' && link[1] == 't' && link[2] == 't'
                && link[3] == 'p';
            &&& is_link ==> upload_outcome(Exchange::Reply(reply)) == Ok::<Seq<char>, Seq<char>>(
                link,
            )
            &&& !is_link ==> upload_outcome(Exchange::Reply(reply)) == Err::<Seq<char>, Seq<char>>(
                "upload failed: unexpected response ("@ + link + ")"@,
            )
        }),
        upload_outcome(Exchange::SendFailed(error)) is Err,
        upload_outcome(Exchange::ReadFailed(error)) is Err,
{
    reveal_strlit("http");
    let link = trimmed(reply@);
    let http = "http"@;
    assert(http.len() == 4 && http[0] == 'h' && http[1] == 't' && http[2] == 't' && http[3] == 'p');
    if link.len() >= 4 && link[0] == 'h' && link[1] == 't' && link[2] == 't' && link[3] == 'p' {
        assert(link.subrange(0, 4) == http);
    }
    if http.is_prefix_of(link) {
        assert(link.subrange(0, 4) == http);
        assert(link[0] == link.subrange(0, 4)[0] && link[1] == link.subrange(0, 4)[1] && link[2]
            == link.subrange(0, 4)[2] && link[3] == link.subrange(0, 4)[3]);
    }
}

/// A grid square goes along as it is where it is a valid locator, and not at
/// all where it is not.
pub proof fn only_valid_grids_go_along(grid: Seq<char>)
    ensures
        center_of(grid) is Some ==> valid_grid(Some(grid)) == Some(grid),
        center_of(grid) is None ==> valid_grid(Some(grid)) is None,
        valid_grid(None) is None,
{
}

/// A post arrives as it was heard: its author and its text unchanged, its link
/// completed, and its grid square where that is a valid locator.
pub proof fn a_post_arrives_as_it_was_heard(heard: SocialFields, post: DecodedSocial)
    requires
        post_from(heard, post),
    ensures
        post.author@ == heard.author@,
        post.post@ == heard.post@,
        heard.link is None ==> post.media_url is None,
        heard.link matches Some(link) ==> (post.media_url matches Some(url) && url@
            == "https://litter.catbox.moe/"@ + link@),
        heard.grid is None ==> post.origin_grid is None,
        heard.grid matches Some(grid) ==> {
            &&& center_of(grid@) is Some ==> (post.origin_grid matches Some(g) && g@ == grid@)
            &&& center_of(grid@) is None ==> post.origin_grid is None
        },
{
}

/// Only a transcript is read; everything else is an error, which says what
/// failed.
pub proof fn only_transcripts_are_read(transcription: Transcription)
    ensures
        transcription_error(transcription) is None <==> transcription is Transcript,
        transcription matches Transcription::Failed(e) ==> transcription_error(transcription)
            == Some(e@),
        transcription matches Transcription::LoadFailed(e) ==> {
            &&& transcription_error(transcription) matches Some(text)
            &&& e@.len() <= text.len()
            &&& text.skip(text.len() - e@.len()) == e@
        },
{
    if let Transcription::LoadFailed(e) = transcription {
        let text = "Whisper model failed to load: "@ + e@;
        assert(text.skip(text.len() - e@.len()) == e@);
    }
}

/// A result says what it holds.
pub proof fn a_result_says_what_it_holds(text: String)
    ensures
        result_said(Ok(text)) == Ok::<Seq<char>, Seq<char>>(text@),
        result_said(Err(text)) == Err::<Seq<char>, Seq<char>>(text@),
{
}

} // verus!
