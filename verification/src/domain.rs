//! Domain values shared by the core and the adapters.

use vstd::prelude::*;

verus! {

/// Captured audio: PCM i16 mono samples.
#[derive(Debug)]
pub struct AudioClip {
    pub samples: Vec<i16>,
    pub sample_rate: u32,
    pub duration_ms: u64,
}

/// What the speech detector decided about a clip.
#[derive(Debug)]
pub enum VadOutcome {
    /// The clip holds speech: the trimmed clip and the milliseconds of speech
    /// that were detected.
    Speech { clip: AudioClip, speech_ms: u64 },
    /// No speech at all: the clip is not worth sending.
    NoSpeech,
}

impl AudioClip {
    /// A copy of the clip.
    pub fn duplicate(&self) -> (r: AudioClip)
        ensures
            r.samples@ == self.samples@,
            r.sample_rate == self.sample_rate,
            r.duration_ms == self.duration_ms,
    {
        AudioClip {
            samples: vstd::slice::slice_to_vec(self.samples.as_slice()),
            sample_rate: self.sample_rate,
            duration_ms: self.duration_ms,
        }
    }
}


/// How a provider transcribes.
#[derive(Clone, Copy, PartialEq, Eq, Structural, Debug)]
pub enum ProviderKind {
    /// An OpenAI-compatible API (cloud, or a local server).
    RemoteApi,
    /// The embedded engine (a worker subprocess).
    Embedded,
}

/// A configured transcription provider.
#[derive(Debug)]
pub struct ProviderConfig {
    pub id: String,
    pub label: String,
    pub kind: ProviderKind,
    pub base_url: String,
    pub api_key: Option<String>,
    pub model: String,
    /// Whether the audio leaves the machine.
    pub sends_audio_externally: bool,
}

/// Options of one transcription request.
#[derive(Debug)]
pub struct TranscriptionOptions {
    /// ISO 639-1 code; `None` lets the provider detect it.
    pub language: Option<String>,
    /// Prior context for the model (vocabulary, style).
    pub prompt: Option<String>,
}

/// A transcription and where it came from.
#[derive(Debug)]
pub struct Transcript {
    pub text: String,
    pub language: Option<String>,
    pub provider_id: String,
    pub model: String,
    pub audio_duration_ms: u64,
    pub latency_ms: u64,
    pub created_at_ms: u64,
    pub recorded_duration_ms: Option<u64>,
}

/// `t` is the transcript a provider answers: the given text, language,
/// provider and model, with every timing at zero and no recorded duration.
pub open spec fn is_partial_transcript(
    t: Transcript,
    text: String,
    language: Option<String>,
    provider_id: Seq<char>,
    model: Seq<char>,
) -> bool {
    &&& t.text == text
    &&& t.language == language
    &&& t.provider_id@ == provider_id
    &&& t.model@ == model
    &&& t.audio_duration_ms == 0
    &&& t.latency_ms == 0
    &&& t.created_at_ms == 0
    &&& t.recorded_duration_ms is None
}

/// The transcript as a provider answers it: its text and language, who
/// answered and with which model. The durations, latency and creation time
/// are the dictation service's to fill; they start at zero, and no recorded
/// duration is known.
pub fn partial_transcript(text: String, language: Option<String>, provider_id: &str, model: &str) -> (r: Transcript)
    ensures
        is_partial_transcript(r, text, language, provider_id@, model@),
{
    Transcript {
        text,
        language,
        provider_id: provider_id.to_owned(),
        model: model.to_owned(),
        audio_duration_ms: 0,
        latency_ms: 0,
        created_at_ms: 0,
        recorded_duration_ms: None,
    }
}

/// The position of the provider whose id is `id` (the first, if several
/// share it), among the configured providers' ids.
pub fn provider_position(ids: &Vec<String>, id: &str) -> (r: Option<usize>)
    ensures
        match r {
            Some(k) => k < ids@.len() && ids@[k as int]@ == id@ && forall|x: int| 0 <= x < k ==> ids@[x]@ != id@,
            None => forall|x: int| 0 <= x < ids@.len() ==> ids@[x]@ != id@,
        },
{
    let target = id.to_owned();
    let mut k: usize = 0;
    while k < ids.len()
        invariant
            k <= ids.len(),
            target@ == id@,
            forall|x: int| 0 <= x < k ==> ids@[x]@ != id@,
        decreases ids.len() - k,
    {
        if ids[k] == target {
            return Some(k);
        }
        k += 1;
    }
    None
}

} // verus!
