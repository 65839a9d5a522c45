//! The parent side of the embedded engine: where the worker lives, and how
//! its reply (exit status, stderr, the lines of stdout) becomes a transcript
//! or an error. Spawning the worker and the pipes are the application's.

use vstd::prelude::*;
use std::path::PathBuf;
use crate::domain::{is_partial_transcript, partial_transcript, Transcript};
use crate::ports::PortError;
use crate::protocol::WorkerResult;
use crate::text::{concat, spec_trim, trim_text};

verus! {

/// The provider id of embedded transcriptions (tells them apart from the
/// remote providers in the history and the telemetry).
pub const PROVIDER_ID: &'static str = "embedded";

/// The embedded transcriber: the model directory handed to the worker, and
/// the worker's executable (the app itself, run with the hidden subcommand).
pub struct EmbeddedTranscriber {
    model_dir: PathBuf,
    worker_exe: PathBuf,
}

impl EmbeddedTranscriber {
    pub closed spec fn spec_model_dir(&self) -> PathBuf {
        self.model_dir
    }

    pub closed spec fn spec_worker_exe(&self) -> PathBuf {
        self.worker_exe
    }

    /// A transcriber for the model in `model_dir`, run by `worker_exe`.
    pub fn with_worker(model_dir: PathBuf, worker_exe: PathBuf) -> (r: Self)
        ensures
            r.spec_model_dir() == model_dir,
            r.spec_worker_exe() == worker_exe,
    {
        EmbeddedTranscriber { model_dir, worker_exe }
    }

    pub fn model_dir(&self) -> (r: &PathBuf)
        ensures
            *r == self.spec_model_dir(),
    {
        &self.model_dir
    }

    pub fn worker_exe(&self) -> (r: &PathBuf)
        ensures
            *r == self.spec_worker_exe(),
    {
        &self.worker_exe
    }
}

/// The message of a worker that exited with failure: its stderr, trimmed,
/// or, when that is empty, `transcription worker failed (<status>)`.
pub open spec fn spec_worker_failure_message(stderr: Seq<char>, status: Seq<char>) -> Seq<char> {
    if spec_trim(stderr).len() == 0 {
        "transcription worker failed ("@ + status + ")"@
    } else {
        spec_trim(stderr)
    }
}

/// The result of the last stdout line that held one (`parsed[k]`: what line
/// `k` held, `None` for noise).
pub open spec fn last_parsed(parsed: Seq<Option<WorkerResult>>) -> Option<WorkerResult>
    decreases parsed.len(),
{
    if parsed.len() == 0 {
        None
    } else if parsed.last() is Some {
        parsed.last()
    } else {
        last_parsed(parsed.drop_last())
    }
}

/// What `format!("{:?}", s)` writes for a text `s`: the text between double
/// quotes, with quotes, backslashes and non-printable characters escaped.
pub uninterp spec fn debug_quoted(s: Seq<char>) -> Seq<char>;

/// `<str as Debug>::fmt`, through `format!`: the text quoted and escaped.
/// The contract names the result, which depends on the text alone.
#[verifier::external_body]
fn quoted(s: &str) -> (r: String)
    ensures
        r@ == debug_quoted(s@),
{
    format!("{:?}", s)
}

/// The message of a failed worker.
pub fn worker_failure_message(stderr: &str, status: &str) -> (r: String)
    ensures
        r@ == spec_worker_failure_message(stderr@, status@),
{
    let trimmed = trim_text(stderr);
    if trimmed.as_str().is_empty() {
        let a = concat("transcription worker failed (", status);
        concat(a.as_str(), ")")
    } else {
        trimmed
    }
}

/// The last result among the parsed lines of stdout.
pub fn take_last_parsed(parsed: Vec<Option<WorkerResult>>) -> (r: Option<WorkerResult>)
    ensures
        r == last_parsed(parsed@),
{
    let mut rest = parsed;
    while rest.len() > 0
        invariant
            last_parsed(rest@) == last_parsed(parsed@),
        decreases rest.len(),
    {
        let ghost before = rest@;
        let line = rest.pop().unwrap();
        assert(rest@ =~= before.drop_last());
        if line.is_some() {
            return line;
        }
    }
    None
}

/// The model id reported with an embedded transcript: the last component
/// of the model directory, or the whole directory when it has none.
pub open spec fn model_name(model_file_name: Option<String>, model_dir_text: String) -> Seq<char> {
    match model_file_name {
        Some(n) => n@,
        None => model_dir_text@,
    }
}

/// How the worker's reply becomes the transcriber's answer.
///
/// A worker that did not exit with success is an `Other` error carrying its
/// trimmed stderr (or its exit status when stderr is empty). Otherwise the
/// result is the last line of stdout that held one; without one, the error
/// quotes the trimmed stdout. The transcript carries the worker's text and
/// language, the provider `embedded` and the model's name.
pub fn worker_outcome(
    exit_ok: bool,
    status: &str,
    stderr: &str,
    stdout: &str,
    parsed: Vec<Option<WorkerResult>>,
    model_file_name: Option<String>,
    model_dir_text: String,
) -> (r: Result<Transcript, PortError>)
    ensures
        match r {
            Ok(t) => exit_ok && match last_parsed(parsed@) {
                Some(w) => is_partial_transcript(
                    t,
                    w.text,
                    w.language,
                    PROVIDER_ID@,
                    model_name(model_file_name, model_dir_text),
                ),
                None => false,
            },
            Err(PortError::Other(msg)) => if !exit_ok {
                msg@ == spec_worker_failure_message(stderr@, status@)
            } else {
                &&& last_parsed(parsed@) is None
                &&& msg@ == "unexpected worker output (no JSON line): "@ + debug_quoted(spec_trim(stdout@))
            },
            Err(_) => false,
        },
{
    if !exit_ok {
        return Err(PortError::Other(worker_failure_message(stderr, status)));
    }
    match take_last_parsed(parsed) {
        None => {
            let trimmed = trim_text(stdout);
            let shown = quoted(trimmed.as_str());
            Err(PortError::Other(concat("unexpected worker output (no JSON line): ", shown.as_str())))
        },
        Some(w) => {
            let model = match model_file_name {
                Some(n) => n,
                None => model_dir_text,
            };
            Ok(partial_transcript(w.text, w.language, PROVIDER_ID, model.as_str()))
        },
    }
}

/// The error when the worker could not be started.
pub fn start_failure(description: &str) -> (r: PortError)
    ensures
        r == PortError::Other(r->Other_0) && r->Other_0@ == "failed to start the transcription worker: "@
            + description@,
{
    PortError::Other(concat("failed to start the transcription worker: ", description))
}

/// The error when waiting for the worker failed.
pub fn wait_failure(description: &str) -> (r: PortError)
    ensures
        r == PortError::Other(r->Other_0) && r->Other_0@ == "failed to wait for the worker: "@ + description@,
{
    PortError::Other(concat("failed to wait for the worker: ", description))
}

} // verus!
