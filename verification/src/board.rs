//! Social mode: composing a post, text plus an optional single attachment, and
//! the feed that lists what has been received, oldest first. There are no
//! accounts and no encryption: this is an open ledger, readable by anyone in
//! range, as the audio itself already is.
//!
//! Attachments never ride the audio channel: they are uploaded and only the
//! link's short suffix travels over the air, spoken as part of the post.

use vstd::prelude::*;
use vstd::string::*;
use crate::mail::{hms_text, identity_is_ready, identity_ready};
use crate::pipeline::{bytes_text, format_bytes};
use crate::send::{is_free, SendPhase, SendState};
use crate::settings::Identity;
use crate::text::{
    all_ascii, ascii_lower, blank, case_is_lost_in_lower_case, chars_of, copy_of, is_blank, lowered,
    same_but_for_case, same_text, said, string_of, to_lowercase, together, together3, white_space,
};

verus! {

/// A finite sanity cap. It keeps a stray multi-gigabyte pick from hanging the
/// upload; there is no airtime reason for it.
pub const MAX_ATTACHMENT_BYTES: u64 = 26_214_400;

// ---------------------------------------------------------------------
// Composing
// ---------------------------------------------------------------------

/// A file that was picked to go along with a post.
pub struct Attachment {
    /// The file's name, where it can be read as text.
    pub name: Option<String>,
    pub bytes: Vec<u8>,
}

pub struct ComposeState<S, R, H, K> {
    pub post: String,
    pub attachment: Option<Attachment>,
    pub attachment_warning: Option<String>,
    pub send: SendState<S, R, H, K>,
}

/// Whether there is anything to post, somebody to post it, and nothing under
/// way.
pub open spec fn is_postable<S, R, H, K>(
    state: ComposeState<S, R, H, K>,
    identity: Identity,
) -> bool {
    &&& identity_is_ready(identity)
    &&& !blank(state.post@) || state.attachment is Some
    &&& is_free(state.send.phase)
}

impl<S: Copy, R, H, K> ComposeState<S, R, H, K> {
    /// An empty post, with nothing under way.
    pub fn new() -> (state: Self)
        ensures
            state.post@ == Seq::<char>::empty(),
            state.attachment is None,
            state.attachment_warning is None,
            state.send.phase == SendPhase::<S, R, H, K>::Idle,
            state.send.cached_wave is None,
            state.send.ptt_warning is None,
    {
        let state = ComposeState {
            post: String::new(),
            attachment: None,
            attachment_warning: None,
            send: SendState::new(),
        };
        assert(state.post@ == Seq::<char>::empty());
        state
    }

    /// A file has been picked and read, or could not be: one that is too large
    /// is turned down, and whatever was attached before stays.
    pub fn attach(&mut self, name: Option<String>, read: Result<Vec<u8>, String>)
        ensures
            match read {
                Ok(bytes) => if bytes@.len() > 25 * 1024 * 1024 {
                    &&& final(self).attachment == old(self).attachment
                    &&& said(final(self).attachment_warning) == Some(
                        bytes_text(bytes@.len()) + " is too large (max "@ + bytes_text(
                            MAX_ATTACHMENT_BYTES as nat,
                        ) + ")"@,
                    )
                } else {
                    &&& final(self).attachment == Some(Attachment { name, bytes })
                    &&& final(self).attachment_warning is None
                },
                Err(e) => {
                    &&& final(self).attachment == old(self).attachment
                    &&& said(final(self).attachment_warning) == Some("couldn't read file: "@ + e@)
                },
            },
            final(self).post == old(self).post,
            final(self).send == old(self).send,
    {
        match read {
            Ok(bytes) => {
                if bytes.len() as u64 > MAX_ATTACHMENT_BYTES {
                    let size = format_bytes(bytes.len() as u64);
                    let most = format_bytes(MAX_ATTACHMENT_BYTES);
                    let front = together(&size, " is too large (max ");
                    self.attachment_warning = Some(together3(&front, &most, ")"));
                } else {
                    self.attachment_warning = None;
                    self.attachment = Some(Attachment { name, bytes });
                }
            },
            Err(e) => {
                self.attachment_warning = Some(together("couldn't read file: ", &e));
            },
        }
    }

    /// Takes the attachment away again.
    pub fn remove_attachment(&mut self)
        ensures
            final(self).attachment is None,
            final(self).attachment_warning == old(self).attachment_warning,
            final(self).post == old(self).post,
            final(self).send == old(self).send,
    {
        self.attachment = None;
    }

    /// Whether the post can be prepared.
    pub fn can_post(&self, identity: &Identity) -> (yes: bool)
        ensures
            yes == is_postable(*self, *identity),
    {
        identity_ready(identity) && (!is_blank(&self.post) || self.attachment.is_some())
            && self.send.free()
    }

    /// What is still missing, if anything is, while nothing is under way.
    pub fn hint(&self, identity: &Identity) -> (text: Option<&'static str>)
        ensures
            match text {
                Some(t) => self.send.phase is Idle && if !identity_is_ready(*identity) {
                    t@ == "Set your callsign and home locator in Settings (⚙) before sending."@
                } else {
                    !is_postable(*self, *identity) && t@
                        == "Write a post or attach a file before sending."@
                },
                None => !(self.send.phase is Idle) || (identity_is_ready(*identity) && is_postable(
                    *self,
                    *identity,
                )),
            },
    {
        if let SendPhase::Idle = self.send.phase {
            if !identity_ready(identity) {
                Some("Set your callsign and home locator in Settings (⚙) before sending.")
            } else if !self.can_post(identity) {
                Some("Write a post or attach a file before sending.")
            } else {
                None
            }
        } else {
            None
        }
    }

    /// What is happening while a post is being prepared.
    pub fn preparing_text(&self) -> (text: &'static str)
        ensures
            text@ == (if self.attachment is Some {
                "Uploading attachment and assembling audio..."@
            } else {
                "Assembling audio..."@
            }),
    {
        if self.attachment.is_some() {
            "Uploading attachment and assembling audio..."
        } else {
            "Assembling audio..."
        }
    }

    /// Clears the post and its attachment after a send.
    pub fn reset_for_next_post(&mut self)
        ensures
            final(self).post@ == Seq::<char>::empty(),
            final(self).attachment is None,
            final(self).attachment_warning is None,
            final(self).send.phase == SendPhase::<S, R, H, K>::Idle,
            final(self).send.cached_wave is None,
            final(self).send.ptt_warning == old(self).send.ptt_warning,
    {
        self.post = String::new();
        self.attachment = None;
        self.attachment_warning = None;
        self.send.reset();
        assert(self.post@ == Seq::<char>::empty());
    }
}

impl Attachment {
    /// The attachment in words: its name and its size.
    pub fn label(&self) -> (text: String)
        ensures
            text@ == (match self.name {
                Some(name) => name@,
                None => "?"@,
            }) + " ("@ + bytes_text(self.bytes@.len()) + ")"@,
    {
        let size = format_bytes(self.bytes.len() as u64);
        let front = match &self.name {
            Some(name) => together(name, " ("),
            None => together("?", " ("),
        };
        together3(&front, &size, ")")
    }

    /// The name to upload it under.
    pub fn upload_name(&self) -> (name: String)
        ensures
            name@ == (match self.name {
                Some(name) => name@,
                None => "attachment"@,
            }),
    {
        match &self.name {
            Some(name) => copy_of(name),
            None => copy_of("attachment"),
        }
    }
}

// ---------------------------------------------------------------------
// Kinds of links
// ---------------------------------------------------------------------

/// What stands behind the last dot, all of it without one.
pub open spec fn after_last_dot(text: Seq<char>) -> Seq<char>
    decreases text.len(),
{
    if text.len() == 0 {
        text
    } else if text.last() == '.' {
        Seq::empty()
    } else {
        after_last_dot(text.drop_last()).push(text.last())
    }
}

/// What stands in front of the first question mark, all of it without one.
pub open spec fn before_question_mark(text: Seq<char>) -> Seq<char>
    decreases text.len(),
{
    if text.len() == 0 || text[0] == '?' {
        Seq::empty()
    } else {
        seq![text[0]] + before_question_mark(text.drop_first())
    }
}

/// The extension of a link's file, in lower case: what stands behind its last
/// dot, without a query.
pub open spec fn extension_of(url: Seq<char>) -> Seq<char> {
    lowered(before_question_mark(after_last_dot(url)))
}

pub fn url_extension(url: &str) -> (extension: String)
    ensures
        extension@ == extension_of(url@),
{
    let chars = chars_of(url);
    let n: usize = chars.len();
    let mut from: usize = n;
    assert(chars@.take(n as int) == chars@);
    assert(chars@.subrange(n as int, n as int) == Seq::<char>::empty());
    assert(after_last_dot(chars@) == after_last_dot(chars@.take(n as int)) + chars@.subrange(
        n as int,
        n as int,
    ));
    while from > 0 && chars[from - 1] != '.'
        invariant
            n == chars@.len(),
            from <= n,
            after_last_dot(chars@) == after_last_dot(chars@.take(from as int)) + chars@.subrange(
                from as int,
                n as int,
            ),
        decreases from,
    {
        let ghost front = chars@.take(from as int);
        assert(front.last() == chars@[from - 1]);
        assert(front.drop_last() == chars@.take(from - 1));
        assert(after_last_dot(front) + chars@.subrange(from as int, n as int) == after_last_dot(
            chars@.take(from - 1),
        ) + chars@.subrange(from - 1, n as int));
        from = from - 1;
    }
    let ghost tail = chars@.subrange(from as int, n as int);
    assert(after_last_dot(chars@) == tail) by {
        let front = chars@.take(from as int);
        if from > 0 {
            assert(front.last() == '.');
        }
        assert(after_last_dot(front) == Seq::<char>::empty());
        assert(Seq::<char>::empty() + tail == tail);
    }
    let mut to: usize = from;
    assert(tail.skip(0) == tail);
    assert(chars@.subrange(from as int, from as int) + before_question_mark(tail)
        == before_question_mark(tail));
    while to < n && chars[to] != '?'
        invariant
            n == chars@.len(),
            from <= to <= n,
            tail == chars@.subrange(from as int, n as int),
            before_question_mark(tail) == chars@.subrange(from as int, to as int)
                + before_question_mark(tail.skip(to - from)),
        decreases n - to,
    {
        let ghost rest = tail.skip(to - from);
        assert(rest[0] == chars@[to as int]);
        assert(rest.drop_first() == tail.skip(to - from + 1));
        assert(chars@.subrange(from as int, to as int) + before_question_mark(rest)
            == chars@.subrange(from as int, to + 1) + before_question_mark(rest.drop_first()));
        to = to + 1;
    }
    assert(before_question_mark(tail) == chars@.subrange(from as int, to as int)) by {
        let rest = tail.skip(to - from);
        if to < n {
            assert(rest[0] == '?');
        }
        assert(before_question_mark(rest) == Seq::<char>::empty());
        assert(chars@.subrange(from as int, to as int) + Seq::<char>::empty() == chars@.subrange(
            from as int,
            to as int,
        ));
    }
    let part = string_of(&chars[from..to]);
    to_lowercase(&part)
}

pub open spec fn is_image_extension(e: Seq<char>) -> bool {
    e == "jpg"@ || e == "jpeg"@ || e == "png"@ || e == "gif"@ || e == "webp"@ || e == "avif"@ || e
        == "bmp"@
}

pub open spec fn is_video_extension(e: Seq<char>) -> bool {
    e == "mp4"@ || e == "webm"@ || e == "mov"@ || e == "mkv"@ || e == "avi"@
}

pub open spec fn is_audio_extension(e: Seq<char>) -> bool {
    e == "mp3"@ || e == "wav"@ || e == "ogg"@ || e == "flac"@ || e == "m4a"@ || e == "opus"@ || e
        == "aac"@
}

/// Whether an extension, in lower case, is that of a raster image.
pub fn image_extension(e: &str) -> (yes: bool)
    ensures
        yes == is_image_extension(e@),
{
    same_text(e, "jpg") || same_text(e, "jpeg") || same_text(e, "png") || same_text(e, "gif")
        || same_text(e, "webp") || same_text(e, "avif") || same_text(e, "bmp")
}

/// Whether an extension, in lower case, is that of a video.
pub fn video_extension(e: &str) -> (yes: bool)
    ensures
        yes == is_video_extension(e@),
{
    same_text(e, "mp4") || same_text(e, "webm") || same_text(e, "mov") || same_text(e, "mkv")
        || same_text(e, "avi")
}

/// Whether an extension, in lower case, is that of an audio file.
pub fn audio_extension(e: &str) -> (yes: bool)
    ensures
        yes == is_audio_extension(e@),
{
    same_text(e, "mp3") || same_text(e, "wav") || same_text(e, "ogg") || same_text(e, "flac")
        || same_text(e, "m4a") || same_text(e, "opus") || same_text(e, "aac")
}

pub fn looks_like_image(url: &str) -> (yes: bool)
    ensures
        yes == is_image_extension(extension_of(url@)),
{
    let e = url_extension(url);
    image_extension(&e)
}

pub fn looks_like_video(url: &str) -> (yes: bool)
    ensures
        yes == is_video_extension(extension_of(url@)),
{
    let e = url_extension(url);
    video_extension(&e)
}

pub fn looks_like_audio(url: &str) -> (yes: bool)
    ensures
        yes == is_audio_extension(extension_of(url@)),
{
    let e = url_extension(url);
    audio_extension(&e)
}

// ---------------------------------------------------------------------
// Decoding images
// ---------------------------------------------------------------------

/// A raster image: four bytes for each pixel, row by row.
pub struct RgbaImage {
    pub width: u32,
    pub height: u32,
    pub pixels: Vec<u8>,
}

/// What `image::load_from_memory` makes of a file's bytes, turned into RGBA by
/// `DynamicImage::to_rgba8`: width, height and pixels, or its error's message.
pub uninterp spec fn image_in(bytes: Seq<u8>) -> Result<(u32, u32, Seq<u8>), Seq<char>>;

/// What a decoded image, or the error in its place, says.
pub open spec fn image_said(image: Result<RgbaImage, String>) -> Result<
    (u32, u32, Seq<u8>),
    Seq<char>,
> {
    match image {
        Ok(i) => Ok((i.width, i.height, i.pixels@)),
        Err(e) => Err(e@),
    }
}

/// Calls `image::load_from_memory` and turns its image into plain RGBA bytes
/// with `DynamicImage::to_rgba8`. Claimed of it: the outcome depends on the
/// bytes alone, as long as no decoding hooks are registered, which nothing
/// here does; and an image comes with four bytes for each of its pixels. What
/// the decoders make of given bytes is not written out.
#[verifier::external_body]
pub(crate) fn load_image(bytes: &[u8]) -> (image: Result<RgbaImage, String>)
    ensures
        image_said(image) == image_in(bytes@),
        image matches Ok(i) ==> i.pixels@.len() == 4 * i.width * i.height,
{
    match image::load_from_memory(bytes) {
        Ok(img) => {
            let rgba = img.to_rgba8();
            Ok(RgbaImage { width: rgba.width(), height: rgba.height(), pixels: rgba.into_raw() })
        },
        Err(e) => Err(e.to_string()),
    }
}

/// The image in what was fetched, or why there is none.
pub fn decode_fetched(fetched: Result<Vec<u8>, String>) -> (image: Result<RgbaImage, String>)
    ensures
        match fetched {
            Ok(bytes) => image_said(image) == image_in(bytes@),
            Err(e) => image matches Err(s) && s@ == e@,
        },
        image matches Ok(i) ==> i.pixels@.len() == 4 * i.width * i.height,
{
    match fetched {
        Ok(bytes) => load_image(&bytes),
        Err(e) => Err(e),
    }
}

// ---------------------------------------------------------------------
// The feed
// ---------------------------------------------------------------------

/// What a post's link leads to. Everything but images opens in the system
/// browser rather than in the application: a link comes from an
/// unauthenticated post, so anyone in range can put one in someone's feed.
/// Decoding raster bytes carries none of that risk. `F` is what a fetch in the
/// background is received through, `T` an image ready to be drawn.
pub enum Media<F, T> {
    Absent,
    Video(String),
    Audio(String),
    /// Anything else with a link.
    Link(String),
    ImageLoading(String, F),
    ImageReady(String, T),
    ImageFailed(String, String),
}

pub struct FeedPost<F, T> {
    pub author: String,
    pub post: String,
    /// Seconds since the epoch.
    pub received_at: u64,
    pub media: Media<F, T>,
}

pub struct FeedState<F, T> {
    pub posts: Vec<FeedPost<F, T>>,
    pub just_received: bool,
}

/// Whether a link leads to an image, which is fetched.
pub open spec fn is_fetched(media_url: Option<Seq<char>>) -> bool {
    media_url matches Some(url) && is_image_extension(extension_of(url))
}

/// What a link is shown as, images being fetched with `fetch`.
pub open spec fn media_for<F, T>(media_url: Option<String>, fetch: Option<F>) -> Media<F, T> {
    match media_url {
        Some(url) => {
            let e = extension_of(url@);
            if is_image_extension(e) {
                Media::ImageLoading(url, fetch->0)
            } else if is_video_extension(e) {
                Media::Video(url)
            } else if is_audio_extension(e) {
                Media::Audio(url)
            } else {
                Media::Link(url)
            }
        },
        None => Media::Absent,
    }
}

/// Whether a post's image has to be fetched.
pub fn wants_fetch(media_url: &Option<String>) -> (yes: bool)
    ensures
        yes == is_fetched(said(*media_url)),
{
    match media_url {
        Some(url) => looks_like_image(url),
        None => false,
    }
}

/// What a post's media becomes when its image arrives, or fails to.
pub open spec fn media_resolved<F, T>(media: Media<F, T>, outcome: Result<T, String>) -> Media<
    F,
    T,
> {
    match media {
        Media::ImageLoading(url, _) => match outcome {
            Ok(texture) => Media::ImageReady(url, texture),
            Err(e) => Media::ImageFailed(url, e),
        },
        _ => media,
    }
}

/// What a post's media becomes when a failed image is fetched again.
pub open spec fn media_retried<F, T>(media: Media<F, T>, fetch: F) -> Media<F, T> {
    match media {
        Media::ImageFailed(url, _) => Media::ImageLoading(url, fetch),
        _ => media,
    }
}

impl<F, T> FeedState<F, T> {
    pub fn new() -> (state: Self)
        ensures
            state.posts@ == Seq::<FeedPost<F, T>>::empty(),
            !state.just_received,
    {
        FeedState { posts: Vec::new(), just_received: false }
    }

    /// A decoded post lands here, whichever tab was on screen. `fetch` is the
    /// fetch of its image, if it has one.
    pub fn push_post(
        &mut self,
        author: String,
        post: String,
        media_url: Option<String>,
        fetch: Option<F>,
        received_at: u64,
    )
        requires
            is_fetched(said(media_url)) ==> fetch is Some,
        ensures
            final(self).posts@ == old(self).posts@.push(
                FeedPost { author, post, received_at, media: media_for(media_url, fetch) },
            ),
            final(self).just_received,
    {
        let media: Media<F, T> = match media_url {
            Some(url) => {
                let e = url_extension(&url);
                if image_extension(&e) {
                    match fetch {
                        Some(f) => Media::ImageLoading(url, f),
                        None => Media::Link(url),
                    }
                } else if video_extension(&e) {
                    Media::Video(url)
                } else if audio_extension(&e) {
                    Media::Audio(url)
                } else {
                    Media::Link(url)
                }
            },
            None => Media::Absent,
        };
        self.posts.push(FeedPost { author, post, received_at, media });
        self.just_received = true;
    }

    fn replace_media(&mut self, i: usize, media: Media<F, T>) -> (before: Media<F, T>)
        requires
            i < old(self).posts@.len(),
        ensures
            before == old(self).posts@[i as int].media,
            final(self).posts@ == old(self).posts@.update(
                i as int,
                FeedPost { media, ..old(self).posts@[i as int] },
            ),
            final(self).just_received == old(self).just_received,
    {
        let mut media = media;
        core::mem::swap(&mut media, &mut self.posts[i].media);
        media
    }

    /// The image of a post has arrived, or failed to.
    pub fn resolve_image(&mut self, i: usize, outcome: Result<T, String>)
        requires
            i < old(self).posts@.len(),
        ensures
            final(self).posts@ == old(self).posts@.update(
                i as int,
                FeedPost {
                    media: media_resolved(old(self).posts@[i as int].media, outcome),
                    ..old(self).posts@[i as int]
                },
            ),
            final(self).just_received == old(self).just_received,
    {
        let before = self.replace_media(i, Media::Absent);
        let after: Media<F, T> = match before {
            Media::ImageLoading(url, _) => match outcome {
                Ok(texture) => Media::ImageReady(url, texture),
                Err(e) => Media::ImageFailed(url, e),
            },
            other => other,
        };
        self.replace_media(i, after);
        assert(self.posts@ == old(self).posts@.update(
            i as int,
            FeedPost {
                media: media_resolved(old(self).posts@[i as int].media, outcome),
                ..old(self).posts@[i as int]
            },
        ));
    }

    /// Whether the image of a post has failed to load, and from where to fetch
    /// it again: the storage is best-effort, so a failed fetch is no dead end.
    pub fn failed_link(&self, i: usize) -> (url: Option<&String>)
        requires
            i < self.posts@.len(),
        ensures
            url == (match self.posts@[i as int].media {
                Media::ImageFailed(url, _) => Some(&url),
                _ => None,
            }),
    {
        match &self.posts[i].media {
            Media::ImageFailed(url, _) => Some(url),
            _ => None,
        }
    }

    /// A failed image is being fetched again.
    pub fn retry_image(&mut self, i: usize, fetch: F)
        requires
            i < old(self).posts@.len(),
        ensures
            final(self).posts@ == old(self).posts@.update(
                i as int,
                FeedPost {
                    media: media_retried(old(self).posts@[i as int].media, fetch),
                    ..old(self).posts@[i as int]
                },
            ),
            final(self).just_received == old(self).just_received,
    {
        let before = self.replace_media(i, Media::Absent);
        let after: Media<F, T> = match before {
            Media::ImageFailed(url, _) => Media::ImageLoading(url, fetch),
            other => other,
        };
        self.replace_media(i, after);
        assert(self.posts@ == old(self).posts@.update(
            i as int,
            FeedPost {
                media: media_retried(old(self).posts@[i as int].media, fetch),
                ..old(self).posts@[i as int]
            },
        ));
    }
}

// ---------------------------------------------------------------------
// What a post looks like
// ---------------------------------------------------------------------

/// An author, or a stand-in for one that says nothing.
pub open spec fn author_or_anonymous(text: Seq<char>) -> Seq<char> {
    if blank(text) {
        "Anonymous"@
    } else {
        text
    }
}

pub fn display_or_dash(s: &str) -> (shown: &str)
    ensures
        shown@ == author_or_anonymous(s@),
{
    if is_blank(s) {
        "Anonymous"
    } else {
        s
    }
}

pub fn format_hms(secs: u64) -> (text: String)
    ensures
        text@ == hms_text(secs as nat),
{
    crate::mail::format_hms(secs)
}

// ---------------------------------------------------------------------
// Laws
// ---------------------------------------------------------------------

/// No extension is of two kinds, so the order in which they are tried does not
/// matter.
pub proof fn kinds_do_not_overlap(e: Seq<char>)
    ensures
        !(is_image_extension(e) && is_video_extension(e)),
        !(is_image_extension(e) && is_audio_extension(e)),
        !(is_video_extension(e) && is_audio_extension(e)),
{
    reveal_strlit("jpg");
    reveal_strlit("jpeg");
    reveal_strlit("png");
    reveal_strlit("gif");
    reveal_strlit("webp");
    reveal_strlit("avif");
    reveal_strlit("bmp");
    reveal_strlit("mp4");
    reveal_strlit("webm");
    reveal_strlit("mov");
    reveal_strlit("mkv");
    reveal_strlit("avi");
    reveal_strlit("mp3");
    reveal_strlit("wav");
    reveal_strlit("ogg");
    reveal_strlit("flac");
    reveal_strlit("m4a");
    reveal_strlit("opus");
    reveal_strlit("aac");
    if is_image_extension(e) {
        assert((e.len() == 3 && e[0] == 'j' && e[1] == 'p' && e[2] == 'g') || (e.len() == 4 && e[0] == 'j' && e[1] == 'p' && e[2] == 'e' && e[3] == 'g') || (e.len() == 3 && e[0] == 'p' && e[1] == 'n' && e[2] == 'g') || (e.len() == 3 && e[0] == 'g' && e[1] == 'i' && e[2] == 'f') || (e.len() == 4 && e[0] == 'w' && e[1] == 'e' && e[2] == 'b' && e[3] == 'p') || (e.len() == 4 && e[0] == 'a' && e[1] == 'v' && e[2] == 'i' && e[3] == 'f') || (e.len() == 3 && e[0] == 'b' && e[1] == 'm' && e[2] == 'p'));
    }
    if is_video_extension(e) {
        assert((e.len() == 3 && e[0] == 'm' && e[1] == 'p' && e[2] == '4') || (e.len() == 4 && e[0] == 'w' && e[1] == 'e' && e[2] == 'b' && e[3] == 'm') || (e.len() == 3 && e[0] == 'm' && e[1] == 'o' && e[2] == 'v') || (e.len() == 3 && e[0] == 'm' && e[1] == 'k' && e[2] == 'v') || (e.len() == 3 && e[0] == 'a' && e[1] == 'v' && e[2] == 'i'));
    }
    if is_audio_extension(e) {
        assert((e.len() == 3 && e[0] == 'm' && e[1] == 'p' && e[2] == '3') || (e.len() == 3 && e[0] == 'w' && e[1] == 'a' && e[2] == 'v') || (e.len() == 3 && e[0] == 'o' && e[1] == 'g' && e[2] == 'g') || (e.len() == 4 && e[0] == 'f' && e[1] == 'l' && e[2] == 'a' && e[3] == 'c') || (e.len() == 3 && e[0] == 'm' && e[1] == '4' && e[2] == 'a') || (e.len() == 4 && e[0] == 'o' && e[1] == 'p' && e[2] == 'u' && e[3] == 's') || (e.len() == 3 && e[0] == 'a' && e[1] == 'a' && e[2] == 'c'));
    }
}

/// The case of a link's ASCII letters does not change its kind: links that
/// differ in it alone have the same extension. Stated where the extension is
/// ASCII; whatever stands before it may be any text.
pub proof fn case_does_not_change_the_kind(a: Seq<char>, b: Seq<char>)
    requires
        same_but_for_case(a, b),
        all_ascii(before_question_mark(after_last_dot(a))),
    ensures
        extension_of(a) == extension_of(b),
        is_image_extension(extension_of(a)) == is_image_extension(extension_of(b)),
        is_video_extension(extension_of(a)) == is_video_extension(extension_of(b)),
        is_audio_extension(extension_of(a)) == is_audio_extension(extension_of(b)),
{
    case_of_the_last_part(a, b);
    case_before_the_query(after_last_dot(a), after_last_dot(b));
    case_is_lost_in_lower_case(
        before_question_mark(after_last_dot(a)),
        before_question_mark(after_last_dot(b)),
    );
}

proof fn case_of_the_last_part(a: Seq<char>, b: Seq<char>)
    requires
        same_but_for_case(a, b),
    ensures
        same_but_for_case(after_last_dot(a), after_last_dot(b)),
    decreases a.len(),
{
    if a.len() > 0 {
        let (front_a, front_b) = (a.drop_last(), b.drop_last());
        assert(ascii_lower(a[a.len() - 1]) == ascii_lower(b[a.len() - 1]));
        assert forall|i: int| 0 <= i < front_a.len() implies ascii_lower(#[trigger] front_a[i])
            == ascii_lower(front_b[i]) by {
            assert(ascii_lower(a[i]) == ascii_lower(b[i]));
        }
        case_of_the_last_part(front_a, front_b);
    }
}

proof fn case_before_the_query(a: Seq<char>, b: Seq<char>)
    requires
        same_but_for_case(a, b),
    ensures
        same_but_for_case(before_question_mark(a), before_question_mark(b)),
    decreases a.len(),
{
    if a.len() > 0 {
        let (rest_a, rest_b) = (a.drop_first(), b.drop_first());
        assert(ascii_lower(a[0]) == ascii_lower(b[0]));
        assert forall|i: int| 0 <= i < rest_a.len() implies ascii_lower(#[trigger] rest_a[i])
            == ascii_lower(rest_b[i]) by {
            assert(ascii_lower(a[i + 1]) == ascii_lower(b[i + 1]));
        }
        case_before_the_query(rest_a, rest_b);
        let (part_a, part_b) = (before_question_mark(a), before_question_mark(b));
        assert forall|i: int| 0 <= i < part_a.len() implies ascii_lower(#[trigger] part_a[i])
            == ascii_lower(part_b[i]) by {
            if i > 0 {
                assert(part_a[i] == before_question_mark(rest_a)[i - 1]);
                assert(part_b[i] == before_question_mark(rest_b)[i - 1]);
            }
        }
    }
}

/// The extension holds neither a dot nor a query, before it is lower-cased.
pub proof fn an_extension_is_one_word(url: Seq<char>)
    ensures
        !before_question_mark(after_last_dot(url)).contains('.'),
        !before_question_mark(after_last_dot(url)).contains('?'),
{
    no_dot_behind_the_last(url);
    no_question_mark_before_the_first(after_last_dot(url));
}

proof fn no_dot_behind_the_last(text: Seq<char>)
    ensures
        !after_last_dot(text).contains('.'),
    decreases text.len(),
{
    if text.len() > 0 && text.last() != '.' {
        no_dot_behind_the_last(text.drop_last());
        let front = after_last_dot(text.drop_last());
        if after_last_dot(text).contains('.') {
            let i = choose|i: int|
                0 <= i < after_last_dot(text).len() && after_last_dot(text)[i] == '.';
            assert(front[i] == '.');
        }
    }
}

proof fn no_question_mark_before_the_first(text: Seq<char>)
    ensures
        !before_question_mark(text).contains('?'),
        forall|c: char| before_question_mark(text).contains(c) ==> text.contains(c),
    decreases text.len(),
{
    if text.len() > 0 && text[0] != '?' {
        let rest = text.drop_first();
        no_question_mark_before_the_first(rest);
        let part = before_question_mark(text);
        assert forall|c: char| part.contains(c) implies text.contains(c) && c != '?' by {
            let i = choose|i: int| 0 <= i < part.len() && part[i] == c;
            if i == 0 {
                assert(text[0] == c);
            } else {
                assert(before_question_mark(rest)[i - 1] == c);
                assert(rest.contains(c));
                let k = choose|k: int| 0 <= k < rest.len() && rest[k] == c;
                assert(text[k + 1] == c);
            }
        }
    }
}

/// A failed image keeps its link, so that it can be fetched again: retried and
/// arrived, the post shows the image under the link it came with.
pub proof fn a_failed_image_can_be_fetched_again<F, T>(
    url: String,
    first: F,
    error: String,
    second: F,
    texture: T,
)
    ensures
        ({
            let loading = Media::<F, T>::ImageLoading(url, first);
            let failed = media_resolved(loading, Err(error));
            let again = media_retried(failed, second);
            media_resolved(again, Ok(texture)) == Media::<F, T>::ImageReady(url, texture)
        }),
{
}

proof fn the_last_part_of(front: Seq<char>, part: Seq<char>)
    requires
        !part.contains('.'),
    ensures
        after_last_dot(front + seq!['.'] + part) == part,
        after_last_dot(part) == part,
    decreases part.len(),
{
    let text = front + seq!['.'] + part;
    if part.len() == 0 {
        assert(text.last() == '.');
    } else {
        let rest = part.drop_last();
        assert(!rest.contains('.')) by {
            if rest.contains('.') {
                let i = choose|i: int| 0 <= i < rest.len() && rest[i] == '.';
                assert(part[i] == '.');
            }
        }
        the_last_part_of(front, rest);
        assert(part[part.len() - 1] == part.last());
        assert(part.contains(part.last()));
        assert(text.last() == part.last());
        assert(text.drop_last() == front + seq!['.'] + rest);
        assert(rest.push(part.last()) == part);
    }
}

proof fn the_part_before_the_query(part: Seq<char>, query: Seq<char>)
    requires
        !part.contains('?'),
    ensures
        before_question_mark(part + seq!['?'] + query) == part,
        before_question_mark(part) == part,
    decreases part.len(),
{
    let text = part + seq!['?'] + query;
    if part.len() == 0 {
        assert(text[0] == '?');
    } else {
        let rest = part.drop_first();
        assert(!rest.contains('?')) by {
            if rest.contains('?') {
                let i = choose|i: int| 0 <= i < rest.len() && rest[i] == '?';
                assert(part[i + 1] == '?');
            }
        }
        the_part_before_the_query(rest, query);
        assert(part.contains(part[0]));
        assert(text[0] == part[0]);
        assert(text.drop_first() == rest + seq!['?'] + query);
        assert(seq![part[0]] + rest == part);
    }
}

/// The extension is what stands behind the last dot, in lower case, up to a
/// question mark if one follows; without a dot it is all of the link.
pub proof fn the_extension_stands_behind_the_last_dot(
    front: Seq<char>,
    word: Seq<char>,
    query: Seq<char>,
)
    requires
        !word.contains('.'),
        !word.contains('?'),
        !query.contains('.'),
    ensures
        extension_of(front + seq!['.'] + word) == lowered(word),
        extension_of(front + seq!['.'] + word + seq!['?'] + query) == lowered(word),
        extension_of(word) == lowered(word),
        extension_of(word + seq!['?'] + query) == lowered(word),
{
    let long = word + seq!['?'] + query;
    assert(!long.contains('.')) by {
        if long.contains('.') {
            let i = choose|i: int| 0 <= i < long.len() && long[i] == '.';
            if i < word.len() {
                assert(word[i] == '.');
            } else {
                assert(query[i - word.len() - 1] == '.');
            }
        }
    }
    the_last_part_of(front, word);
    the_last_part_of(front, long);
    the_part_before_the_query(word, query);
    assert(front + seq!['.'] + word + seq!['?'] + query == front + seq!['.'] + long);
}

/// Which extensions are those of images, of videos and of audio.
pub proof fn these_are_the_kinds(e: Seq<char>)
    ensures
        is_image_extension(e) <==> e == seq!['j', 'p', 'g'] || e == seq!['j', 'p', 'e', 'g'] || e
            == seq!['p', 'n', 'g'] || e == seq!['g', 'i', 'f'] || e == seq!['w', 'e', 'b', 'p']
            || e == seq!['a', 'v', 'i', 'f'] || e == seq!['b', 'm', 'p'],
        is_video_extension(e) <==> e == seq!['m', 'p', '4'] || e == seq!['w', 'e', 'b', 'm'] || e
            == seq!['m', 'o', 'v'] || e == seq!['m', 'k', 'v'] || e == seq!['a', 'v', 'i'],
        is_audio_extension(e) <==> e == seq!['m', 'p', '3'] || e == seq!['w', 'a', 'v'] || e
            == seq!['o', 'g', 'g'] || e == seq!['f', 'l', 'a', 'c'] || e == seq!['m', '4', 'a'] || e
            == seq!['o', 'p', 'u', 's'] || e == seq!['a', 'a', 'c'],
{
    reveal_strlit("jpg");
    reveal_strlit("jpeg");
    reveal_strlit("png");
    reveal_strlit("gif");
    reveal_strlit("webp");
    reveal_strlit("avif");
    reveal_strlit("bmp");
    reveal_strlit("mp4");
    reveal_strlit("webm");
    reveal_strlit("mov");
    reveal_strlit("mkv");
    reveal_strlit("avi");
    reveal_strlit("mp3");
    reveal_strlit("wav");
    reveal_strlit("ogg");
    reveal_strlit("flac");
    reveal_strlit("m4a");
    reveal_strlit("opus");
    reveal_strlit("aac");
    assert("jpg"@ == seq!['j', 'p', 'g']);
    assert("jpeg"@ == seq!['j', 'p', 'e', 'g']);
    assert("png"@ == seq!['p', 'n', 'g']);
    assert("gif"@ == seq!['g', 'i', 'f']);
    assert("webp"@ == seq!['w', 'e', 'b', 'p']);
    assert("avif"@ == seq!['a', 'v', 'i', 'f']);
    assert("bmp"@ == seq!['b', 'm', 'p']);
    assert("mp4"@ == seq!['m', 'p', '4']);
    assert("webm"@ == seq!['w', 'e', 'b', 'm']);
    assert("mov"@ == seq!['m', 'o', 'v']);
    assert("mkv"@ == seq!['m', 'k', 'v']);
    assert("avi"@ == seq!['a', 'v', 'i']);
    assert("mp3"@ == seq!['m', 'p', '3']);
    assert("wav"@ == seq!['w', 'a', 'v']);
    assert("ogg"@ == seq!['o', 'g', 'g']);
    assert("flac"@ == seq!['f', 'l', 'a', 'c']);
    assert("m4a"@ == seq!['m', '4', 'a']);
    assert("opus"@ == seq!['o', 'p', 'u', 's']);
    assert("aac"@ == seq!['a', 'a', 'c']);
}

/// Every link is shown by its kind and keeps its text, and images alone are
/// fetched; a post without a link shows none.
pub proof fn links_are_shown_by_their_kind<F, T>(url: String, fetch: F)
    ensures
        ({
            let e = extension_of(url@);
            let media = media_for::<F, T>(Some(url), Some(fetch));
            &&& is_image_extension(e) ==> media == Media::<F, T>::ImageLoading(url, fetch)
            &&& is_video_extension(e) ==> media == Media::<F, T>::Video(url)
            &&& is_audio_extension(e) ==> media == Media::<F, T>::Audio(url)
            &&& !is_image_extension(e) && !is_video_extension(e) && !is_audio_extension(e) ==> media
                == Media::<F, T>::Link(url)
            &&& is_fetched(Some(url@)) <==> is_image_extension(e)
            &&& !is_image_extension(e) ==> media_for::<F, T>(Some(url), None) == media
        }),
        media_for::<F, T>(None, None) is Absent,
        !is_fetched(None),
{
    kinds_do_not_overlap(extension_of(url@));
}

/// The arrival of an image touches only one that is loading, and a retry only
/// one that failed; whatever becomes of them, they keep their link.
pub proof fn only_loading_images_arrive<F, T>(
    media: Media<F, T>,
    texture: T,
    error: String,
    fetch: F,
)
    ensures
        media matches Media::ImageLoading(url, _) ==> {
            &&& media_resolved(media, Ok(texture)) == Media::<F, T>::ImageReady(url, texture)
            &&& media_resolved(media, Err(error)) == Media::<F, T>::ImageFailed(url, error)
        },
        !(media is ImageLoading) ==> media_resolved(media, Ok(texture)) == media && media_resolved(
            media,
            Err(error),
        ) == media,
        media matches Media::ImageFailed(url, _) ==> media_retried(media, fetch) == Media::<
            F,
            T,
        >::ImageLoading(url, fetch),
        !(media is ImageFailed) ==> media_retried(media, fetch) == media,
{
}

/// A post needs somebody to post it, with a name and a locator, something to
/// say or an attachment, and nothing else under way.
pub proof fn a_post_needs_an_author_and_contents<S, R, H, K>(
    state: ComposeState<S, R, H, K>,
    identity: Identity,
)
    ensures
        is_postable(state, identity) <==> {
            &&& exists|i: int|
                0 <= i < identity.display_name@.len() && !white_space(
                    #[trigger] identity.display_name@[i],
                )
            &&& identity.home_grid is Some
            &&& state.attachment is Some || exists|i: int|
                0 <= i < state.post@.len() && !white_space(#[trigger] state.post@[i])
            &&& state.send.phase is Idle || state.send.phase is Done || state.send.phase is Failed
        },
        (exists|i: int|
            0 <= i < identity.display_name@.len() && !white_space(
                #[trigger] identity.display_name@[i],
            )) ==> author_or_anonymous(identity.display_name@) == identity.display_name@,
        (forall|i: int|
            0 <= i < identity.display_name@.len() ==> white_space(
                #[trigger] identity.display_name@[i],
            )) ==> author_or_anonymous(identity.display_name@) == "Anonymous"@,
{
}

/// An image is what its decoder made of it.
pub proof fn an_image_says_what_it_holds(image: RgbaImage, error: String)
    ensures
        image_said(Ok(image)) == Ok::<(u32, u32, Seq<u8>), Seq<char>>(
            (image.width, image.height, image.pixels@),
        ),
        image_said(Err(error)) == Err::<(u32, u32, Seq<u8>), Seq<char>>(error@),
{
}

} // verus!
