use vstd::prelude::*;
use crate::domain::{AudioClip, Transcript, TranscriptionOptions, VadOutcome};

verus! {

/// Errors that the adapters report to the core.
#[derive(Debug, Clone, PartialEq, Eq)]
pub enum PortError {
    AudioUnavailable(String),
    ProviderRejected { status: u16, message: String },
    Network(String),
    DeliveryFailed(String),
    Storage(String),
    Other(String),
}

/// A failure worth a second attempt: the network dropped, or the provider is
/// overloaded (429 or any 5xx). Other rejections are permanent.
pub open spec fn spec_is_transient(error: PortError) -> bool {
    match error {
        PortError::Network(_) => true,
        PortError::ProviderRejected { status, .. } => status == 429 || status >= 500,
        _ => false,
    }
}

pub fn is_transient(error: &PortError) -> (r: bool)
    ensures
        r == spec_is_transient(*error),
{
    match error {
        PortError::Network(_) => true,
        PortError::ProviderRejected { status, .. } => *status == 429 || *status >= 500,
        _ => false,
    }
}

/// The central port: audio in, transcription out. The remote API and the
/// embedded engine both implement it.
pub trait Transcriber: Send + Sync {
    fn transcribe(&self, clip: &AudioClip, options: &TranscriptionOptions) -> Result<Transcript, PortError>;
}

/// Audio capture from the microphone.
pub trait AudioSource: Send + Sync {
    fn start(&self) -> Result<(), PortError>;

    fn stop(&self) -> Result<AudioClip, PortError>;

    /// Discards the capture under way without producing a clip.
    fn abort(&self);
}

/// Speech detection: gate (do not send silence) and trim (cut the edges).
/// It does not fail the flow: in doubt, the whole clip is speech.
pub trait Vad: Send + Sync {
    fn gate_and_trim(&self, clip: &AudioClip) -> VadOutcome;
}

/// Delivers the text to the focused application.
pub trait TextSink: Send + Sync {
    fn deliver(&self, text: &str) -> Result<(), PortError>;
}

/// Recordings kept when a transcription fails, until a retry succeeds.
pub trait RecordingStore: Send + Sync {
    /// Persists the clip and returns the key that retrieves it.
    fn save(&self, clip: &AudioClip) -> Result<String, PortError>;

    fn load(&self, key: &str) -> Result<AudioClip, PortError>;

    /// Best effort: a failure to delete does not interrupt the flow.
    fn delete(&self, key: &str);
}

/// The clock, a port so that the core does not depend on real time.
pub trait Clock: Send + Sync {
    fn now_ms(&self) -> u64;
}

} // verus!
