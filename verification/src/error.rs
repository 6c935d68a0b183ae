//! What can go wrong between the application and an audio device or the
//! serial port that keys the radio.

use vstd::prelude::*;
use crate::text::together;

verus! {

#[derive(Debug)]
pub enum AudioIoError {
    NoHostDevices(String),
    DeviceNotFound(String),
    UnsupportedConfig(String),
    StreamBuild(String),
    StreamPlay(String),
    Ptt(String),
}

/// The message for an error.
pub open spec fn error_text(error: AudioIoError) -> Seq<char> {
    match error {
        AudioIoError::NoHostDevices(s) => "could not enumerate audio devices: "@ + s@,
        AudioIoError::DeviceNotFound(name) => "audio device not found: "@ + name@,
        AudioIoError::UnsupportedConfig(s) => "unsupported device audio config: "@ + s@,
        AudioIoError::StreamBuild(s) => "failed to build audio stream: "@ + s@,
        AudioIoError::StreamPlay(s) => "failed to start audio stream: "@ + s@,
        AudioIoError::Ptt(s) => "PTT serial port error: "@ + s@,
    }
}

impl AudioIoError {
    /// What to tell the user.
    pub fn message(&self) -> (text: String)
        ensures
            text@ == error_text(*self),
    {
        match self {
            AudioIoError::NoHostDevices(s) => together("could not enumerate audio devices: ", s),
            AudioIoError::DeviceNotFound(name) => together("audio device not found: ", name),
            AudioIoError::UnsupportedConfig(s) => together("unsupported device audio config: ", s),
            AudioIoError::StreamBuild(s) => together("failed to build audio stream: ", s),
            AudioIoError::StreamPlay(s) => together("failed to start audio stream: ", s),
            AudioIoError::Ptt(s) => together("PTT serial port error: ", s),
        }
    }
}

/// Every message ends with what went wrong, and says nothing else that depends
/// on it.
pub proof fn messages_end_with_their_detail(a: String, b: String)
    ensures
        exists|front: Seq<char>|
            error_text(AudioIoError::NoHostDevices(a)) == #[trigger] (front + a@) && error_text(
                AudioIoError::NoHostDevices(b),
            ) == front + b@,
        exists|front: Seq<char>|
            error_text(AudioIoError::DeviceNotFound(a)) == #[trigger] (front + a@) && error_text(
                AudioIoError::DeviceNotFound(b),
            ) == front + b@,
        exists|front: Seq<char>|
            error_text(AudioIoError::UnsupportedConfig(a)) == #[trigger] (front + a@) && error_text(
                AudioIoError::UnsupportedConfig(b),
            ) == front + b@,
        exists|front: Seq<char>|
            error_text(AudioIoError::StreamBuild(a)) == #[trigger] (front + a@) && error_text(
                AudioIoError::StreamBuild(b),
            ) == front + b@,
        exists|front: Seq<char>|
            error_text(AudioIoError::StreamPlay(a)) == #[trigger] (front + a@) && error_text(
                AudioIoError::StreamPlay(b),
            ) == front + b@,
        exists|front: Seq<char>|
            error_text(AudioIoError::Ptt(a)) == #[trigger] (front + a@) && error_text(
                AudioIoError::Ptt(b),
            ) == front + b@,
{
    assert(error_text(AudioIoError::NoHostDevices(a)) == "could not enumerate audio devices: "@
        + a@);
    assert(error_text(AudioIoError::DeviceNotFound(a)) == "audio device not found: "@ + a@);
    assert(error_text(AudioIoError::UnsupportedConfig(a)) == "unsupported device audio config: "@
        + a@);
    assert(error_text(AudioIoError::StreamBuild(a)) == "failed to build audio stream: "@ + a@);
    assert(error_text(AudioIoError::StreamPlay(a)) == "failed to start audio stream: "@ + a@);
    assert(error_text(AudioIoError::Ptt(a)) == "PTT serial port error: "@ + a@);
}

} // verus!
