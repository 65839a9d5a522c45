//! The download of a model, as a sequence of decisions: for each file of
//! the catalog, skip it when it is already intact, or fetch it into a
//! `.part` file, count its bytes, check their digest and publish it; a
//! transfer that fails removes its `.part`, so no half file is ever left.
//! The application performs each action (disk, network) and reports what
//! happened.

use vstd::prelude::*;
use crate::models::{
    check_download, file_is_intact, http_status_error, sha256, sha256_hex, spec_eq_ignore_ascii_case,
    spec_file_is_intact, spec_hex_lower, DownloadProgress, DownloadTracker, ModelFile, ModelInfo, Sha256Stream,
};
use crate::ports::PortError;
use crate::text::{concat, spec_decimal};

verus! {

/// Where a model download stands; `k` is the file at hand (the files
/// before it are done).
pub enum DownloadPhase {
    /// Not started.
    Idle,
    /// Looking at file `k` on disk.
    Probing(usize),
    /// File `k` was intact: reporting the progress, then the next file.
    Skipping(usize),
    /// Requesting file `k`.
    Requesting(usize),
    /// Creating the `.part` file of file `k`.
    Creating(usize),
    /// Reading the next chunk of file `k`.
    Reading(usize),
    /// Writing a chunk of `n` bytes of file `k`.
    Writing(usize, u64),
    /// Reporting the progress, then reading on.
    Streaming(usize),
    /// Flushing the `.part` file of file `k` to disk.
    Finalizing(usize),
    /// Renaming the `.part` file of file `k` into place.
    Publishing(usize),
    /// Removing the `.part` file of file `k` after the failure `e`.
    Discarding(usize, PortError),
    /// Over, with its result.
    Done(Result<(), PortError>),
}

/// What the application reports after performing an action.
pub enum DownloadEvent {
    /// The download begins.
    Start,
    /// The file on disk: its size when it is a non-empty regular file, and
    /// its content when its digest was asked for and it could be read.
    Probed { len: Option<u64>, content: Option<Vec<u8>> },
    /// The request was answered with this status, or could not be sent.
    Sent(Result<u16, String>),
    /// The `.part` file was created, or why not (the full message).
    Created(Result<(), String>),
    /// The chunk read (empty at the end of the body), or why the read
    /// failed.
    Chunk(Result<Vec<u8>, String>),
    /// The chunk was written, or why not (the full message).
    Written(Result<(), String>),
    /// The progress was reported.
    Reported,
    /// The `.part` file was flushed and synced, or why not (the full message).
    Finalized(Result<(), String>),
    /// The `.part` file was renamed into place, or why not (the full message).
    Renamed(Result<(), String>),
    /// The `.part` file was removed (whatever the outcome).
    Removed,
}

/// The next thing the application does.
pub enum DownloadAction {
    /// Look at the file `name` in the model directory; read its content
    /// when `with_digest` (and it exists).
    Probe { name: String, with_digest: bool },
    /// Report this progress.
    Report(DownloadProgress),
    /// Send `GET url`.
    Fetch { url: String },
    /// Create the file `part` in the model directory.
    CreatePart { part: String },
    /// Read the next chunk of the body.
    ReadChunk,
    /// Write the chunk just read to the `.part` file.
    WriteChunk,
    /// Flush and sync the `.part` file, and close it.
    Finalize,
    /// Rename `part` to `name`.
    Publish { part: String, name: String },
    /// Remove `part`.
    RemovePart { part: String },
    /// Nothing more: the result is in the phase.
    Finished,
}

/// The download of one model.
pub struct ModelDownload {
    pub files: Vec<ModelFile>,
    pub tracker: DownloadTracker,
    pub phase: DownloadPhase,
    /// The bytes received for the file at hand, when the catalog has its hash.
    pub received: Sha256Stream,
}

pub open spec fn opt_view(o: Option<String>) -> Option<Seq<char>> {
    match o {
        Some(s) => Some(s@),
        None => None,
    }
}

/// A status of success (2xx).
pub open spec fn is_success(status: u16) -> bool {
    200 <= status <= 299
}

/// The phase's file index is in range.
pub open spec fn download_wf(d: ModelDownload) -> bool {
    let n = d.files@.len();
    match d.phase {
        DownloadPhase::Probing(k) => k < n,
        DownloadPhase::Skipping(k) => k < n,
        DownloadPhase::Requesting(k) => k < n,
        DownloadPhase::Creating(k) => k < n,
        DownloadPhase::Reading(k) => k < n,
        DownloadPhase::Writing(k, _) => k < n,
        DownloadPhase::Streaming(k) => k < n,
        DownloadPhase::Finalizing(k) => k < n,
        DownloadPhase::Publishing(k) => k < n,
        DownloadPhase::Discarding(k, _) => k < n,
        _ => true,
    }
}

/// The event answers the phase's action.
pub open spec fn fits(phase: DownloadPhase, ev: DownloadEvent) -> bool {
    match phase {
        DownloadPhase::Idle => ev is Start,
        DownloadPhase::Probing(_) => ev is Probed,
        DownloadPhase::Skipping(_) => ev is Reported,
        DownloadPhase::Requesting(_) => ev is Sent,
        DownloadPhase::Creating(_) => ev is Created,
        DownloadPhase::Reading(_) => ev is Chunk,
        DownloadPhase::Writing(_, _) => ev is Written,
        DownloadPhase::Streaming(_) => ev is Reported,
        DownloadPhase::Finalizing(_) => ev is Finalized,
        DownloadPhase::Publishing(_) => ev is Renamed,
        DownloadPhase::Discarding(_, _) => ev is Removed,
        DownloadPhase::Done(_) => true,
    }
}

/// The `.part` file of the file at hand exists in this phase.
pub open spec fn part_exists(phase: DownloadPhase) -> bool {
    ||| phase is Reading
    ||| phase is Writing
    ||| phase is Streaming
    ||| phase is Finalizing
    ||| phase is Publishing
    ||| phase is Discarding
}

/// Moving on after file `k`: the next file is probed, or the download is over.
pub open spec fn next_file(d: ModelDownload, k: int, d2: ModelDownload, a: DownloadAction) -> bool {
    if k + 1 < d.files@.len() {
        &&& d2.phase == DownloadPhase::Probing((k + 1) as usize)
        &&& probes(d.files@[k + 1], a)
    } else {
        &&& d2.phase == DownloadPhase::Done(Ok(()))
        &&& a is Finished
    }
}

/// `a` probes file `f`.
pub open spec fn probes(f: ModelFile, a: DownloadAction) -> bool {
    a matches DownloadAction::Probe { name, with_digest } && name@ == f.name@ && with_digest == f.sha256 is Some
}

/// `a` reports the tracker's progress.
pub open spec fn reports(t: DownloadTracker, a: DownloadAction) -> bool {
    a matches DownloadAction::Report(p) && p.downloaded == t.downloaded && p.total == t.total
}

/// The tracker after counting `bytes` more (saturating).
pub open spec fn advanced(t: DownloadTracker, bytes: u64) -> DownloadTracker {
    DownloadTracker {
        downloaded: if t.downloaded + bytes <= u64::MAX { (t.downloaded + bytes) as u64 } else { u64::MAX },
        total: t.total,
    }
}

/// The name of a file's `.part`.
pub open spec fn part_name(f: ModelFile) -> Seq<char> {
    f.name@ + ".part"@
}

/// The lowercase hexadecimal digest of a file's content, when it was read.
pub open spec fn content_digest(content: Option<Vec<u8>>) -> Option<Seq<char>> {
    match content {
        Some(c) => Some(spec_hex_lower(sha256(c@))),
        None => None,
    }
}

/// File `k` on disk is intact: present and, when the catalog has its hash,
/// with content whose digest matches it (ignoring case).
pub open spec fn probed_intact(f: ModelFile, len: Option<u64>, content: Option<Vec<u8>>) -> bool {
    spec_file_is_intact(len is Some, opt_view(f.sha256), content_digest(content))
}

/// What was received for file `f` passes the catalog's check: there is no
/// hash, or the digest of the bytes matches it (ignoring case).
pub open spec fn received_ok(f: ModelFile, received: Seq<u8>) -> bool {
    match f.sha256 {
        None => true,
        Some(want) => spec_eq_ignore_ascii_case(spec_hex_lower(sha256(received)), want@),
    }
}

/// Failing without a `.part` on disk: the download is over with `e`.
pub open spec fn fails(d2: ModelDownload, a: DownloadAction, e: PortError) -> bool {
    d2.phase == DownloadPhase::Done(Err(e)) && a is Finished
}

/// Failing on file `k` once its `.part` exists: the `.part` is removed
/// first, then the download is over with `e`.
pub open spec fn discards(f: ModelFile, k: usize, d2: ModelDownload, a: DownloadAction, e: PortError) -> bool {
    &&& d2.phase == DownloadPhase::Discarding(k, e)
    &&& a matches DownloadAction::RemovePart { part } && part@ == part_name(f)
}

/// One step of the download: from `d` and the event `ev`, the download
/// `d2` and the action `a`.
pub open spec fn download_step(d: ModelDownload, ev: DownloadEvent, d2: ModelDownload, a: DownloadAction) -> bool {
    let files = d.files@;
    &&& d2.files == d.files
    &&& d2.tracker.total == d.tracker.total
    &&& match d.phase {
        DownloadPhase::Idle => d2.tracker == d.tracker && if files.len() == 0 {
            d2.phase == DownloadPhase::Done(Ok(())) && a is Finished
        } else {
            d2.phase == DownloadPhase::Probing(0) && probes(files[0], a)
        },
        DownloadPhase::Probing(k) => match ev {
            DownloadEvent::Probed { len, content } => if probed_intact(files[k as int], len, content) {
                let t = advanced(d.tracker, match len { Some(l) => l, None => 0 });
                d2.tracker == t && d2.phase == DownloadPhase::Skipping(k) && reports(t, a)
            } else {
                &&& d2.tracker == d.tracker
                &&& d2.phase == DownloadPhase::Requesting(k)
                &&& a matches DownloadAction::Fetch { url } && url@ == files[k as int].url@
            },
            _ => false,
        },
        DownloadPhase::Skipping(k) => d2.tracker == d.tracker && next_file(d, k as int, d2, a),
        DownloadPhase::Requesting(k) => d2.tracker == d.tracker && match ev {
            DownloadEvent::Sent(Err(e)) => a is Finished && (d2.phase matches DownloadPhase::Done(
                Err(PortError::Network(m)),
            ) && m@ == "GET "@ + files[k as int].url@ + ": "@ + e@),
            DownloadEvent::Sent(Ok(status)) => if is_success(status) {
                &&& d2.phase == DownloadPhase::Creating(k)
                &&& d2.received.seen() == Seq::<u8>::empty()
                &&& a matches DownloadAction::CreatePart { part } && part@ == part_name(files[k as int])
            } else {
                a is Finished && (d2.phase matches DownloadPhase::Done(Err(PortError::Network(m))) && m@ == "HTTP "@
                    + spec_decimal(status as nat) + " while downloading "@ + files[k as int].name@)
            },
            _ => false,
        },
        DownloadPhase::Creating(k) => d2.tracker == d.tracker && d2.received == d.received && match ev {
            DownloadEvent::Created(Err(m)) => fails(d2, a, PortError::Storage(m)),
            DownloadEvent::Created(Ok(())) => d2.phase == DownloadPhase::Reading(k) && a is ReadChunk,
            _ => false,
        },
        DownloadPhase::Reading(k) => d2.tracker == d.tracker && match ev {
            DownloadEvent::Chunk(Err(e)) => d2.received == d.received && discards(files[k as int], k, d2, a, d2.phase->Discarding_1)
                && (d2.phase->Discarding_1 matches PortError::Network(m) && m@ == "reading "@ + files[k as int].name@
                + ": "@ + e@),
            DownloadEvent::Chunk(Ok(bytes)) => if bytes@.len() == 0 {
                d2.received == d.received && d2.phase == DownloadPhase::Finalizing(k) && a is Finalize
            } else {
                &&& d2.phase == DownloadPhase::Writing(k, bytes@.len() as u64)
                &&& a is WriteChunk
                &&& d2.received.seen() == if files[k as int].sha256 is Some {
                    d.received.seen() + bytes@
                } else {
                    d.received.seen()
                }
            },
            _ => false,
        },
        DownloadPhase::Writing(k, n) => d2.received == d.received && match ev {
            DownloadEvent::Written(Err(m)) => d2.tracker == d.tracker && discards(files[k as int], k, d2, a, PortError::Storage(m)),
            DownloadEvent::Written(Ok(())) => {
                let t = advanced(d.tracker, n);
                d2.tracker == t && d2.phase == DownloadPhase::Streaming(k) && reports(t, a)
            },
            _ => false,
        },
        DownloadPhase::Streaming(k) => d2.tracker == d.tracker && d2.received == d.received && d2.phase
            == DownloadPhase::Reading(k) && a is ReadChunk,
        DownloadPhase::Finalizing(k) => d2.tracker == d.tracker && d2.received == d.received && match ev {
            DownloadEvent::Finalized(Err(m)) => discards(files[k as int], k, d2, a, PortError::Storage(m)),
            DownloadEvent::Finalized(Ok(())) => if received_ok(files[k as int], d.received.seen()) {
                &&& d2.phase == DownloadPhase::Publishing(k)
                &&& a matches DownloadAction::Publish { part, name } && part@ == part_name(files[k as int]) && name@
                    == files[k as int].name@
            } else {
                discards(files[k as int], k, d2, a, d2.phase->Discarding_1) && (d2.phase->Discarding_1 matches PortError::Other(m)
                    && m@ == "sha256 mismatch in "@ + files[k as int].name@ + ": expected "@
                    + files[k as int].sha256->0@ + ", got "@ + spec_hex_lower(sha256(d.received.seen())))
            },
            _ => false,
        },
        DownloadPhase::Publishing(k) => d2.tracker == d.tracker && d2.received == d.received && match ev {
            DownloadEvent::Renamed(Ok(())) => next_file(d, k as int, d2, a),
            DownloadEvent::Renamed(Err(m)) => discards(files[k as int], k, d2, a, PortError::Storage(m)),
            _ => false,
        },
        DownloadPhase::Discarding(_, e) => d2.tracker == d.tracker && d2.received == d.received && fails(d2, a, e),
        DownloadPhase::Done(r) => d2.tracker == d.tracker && d2.received == d.received && d2.phase == DownloadPhase::Done(r)
            && a is Finished,
    }
}

/// Downloading is idempotent: a file already intact on disk is not fetched
/// again; probing it only reports its bytes as progress.
pub proof fn lemma_intact_file_is_not_fetched(d: ModelDownload, ev: DownloadEvent, d2: ModelDownload, a: DownloadAction)
    requires
        download_step(d, ev, d2, a),
        d.phase matches DownloadPhase::Probing(k) && ev matches DownloadEvent::Probed { len, content }
            && probed_intact(d.files@[k as int], len, content),
    ensures
        a is Report,
        d2.tracker.downloaded >= d.tracker.downloaded,
{
}

/// A file is published only once all of it was flushed to disk and, when
/// the catalog has its hash, the digest of the bytes received matched it.
pub proof fn lemma_published_only_when_checked(d: ModelDownload, ev: DownloadEvent, d2: ModelDownload, a: DownloadAction)
    requires
        download_wf(d),
        download_step(d, ev, d2, a),
        a is Publish,
    ensures
        d.phase matches DownloadPhase::Finalizing(k) && ev matches DownloadEvent::Finalized(Ok(()))
            && received_ok(d.files@[k as int], d.received.seen()),
{
}

/// No half file is left behind: once the `.part` of a file exists, the
/// download never ends directly; it ends only after the `.part` was
/// published under the file's name, or removed.
pub proof fn lemma_part_is_never_abandoned(d: ModelDownload, ev: DownloadEvent, d2: ModelDownload, a: DownloadAction)
    requires
        download_wf(d),
        download_step(d, ev, d2, a),
        part_exists(d.phase),
    ensures
        d2.phase is Done ==> (d.phase is Publishing && ev matches DownloadEvent::Renamed(Ok(())))
            || d.phase is Discarding,
        d2.phase is Discarding && !(d.phase is Discarding) ==> a is RemovePart,
{
}

/// A run of the download: `ds[i]` steps to `ds[i + 1]` on the event
/// `evs[i]`, asking for `acts[i]`.
pub open spec fn is_run(ds: Seq<ModelDownload>, evs: Seq<DownloadEvent>, acts: Seq<DownloadAction>) -> bool {
    &&& ds.len() == evs.len() + 1
    &&& acts.len() == evs.len()
    &&& forall|i: int|
        0 <= i < evs.len() ==> download_wf(ds[i]) && fits(ds[i].phase, evs[i]) && #[trigger] download_step(
            ds[i],
            evs[i],
            ds[i + 1],
            acts[i],
        )
}

/// The progress count after the first `n` steps of a run: the count it
/// started from, plus the size of each file probed (saturating).
pub open spec fn probed_bytes(ds: Seq<ModelDownload>, evs: Seq<DownloadEvent>, n: int) -> u64
    decreases n,
{
    if n <= 0 {
        ds[0].tracker.downloaded
    } else {
        let prev = probed_bytes(ds, evs, n - 1);
        if ds[n - 1].phase is Probing && evs[n - 1] is Probed {
            let l = match evs[n - 1]->Probed_len {
                Some(l) => l,
                None => 0,
            };
            if prev + l <= u64::MAX { (prev + l) as u64 } else { u64::MAX }
        } else {
            prev
        }
    }
}

/// The phases of a run over files that are all intact.
pub open spec fn only_probing(p: DownloadPhase) -> bool {
    p is Idle || p is Probing || p is Skipping || p == DownloadPhase::Done(Ok(()))
}

/// The files probed in a run are all intact.
pub open spec fn all_probed_intact(ds: Seq<ModelDownload>, evs: Seq<DownloadEvent>) -> bool {
    forall|i: int|
        0 <= i < evs.len() && (#[trigger] ds[i]).phase is Probing ==> (evs[i] matches DownloadEvent::Probed {
            len,
            content,
        } && probed_intact(ds[i].files@[ds[i].phase->Probing_0 as int], len, content))
}

proof fn lemma_intact_run_prefix(ds: Seq<ModelDownload>, evs: Seq<DownloadEvent>, acts: Seq<DownloadAction>, n: int)
    requires
        is_run(ds, evs, acts),
        ds[0].phase == DownloadPhase::Idle,
        all_probed_intact(ds, evs),
        0 <= n <= evs.len(),
    ensures
        forall|i: int| 0 <= i <= n ==> only_probing(#[trigger] ds[i].phase),
        forall|i: int| 0 <= i <= n ==> #[trigger] ds[i].tracker.downloaded == probed_bytes(ds, evs, i),
        forall|i: int|
            0 <= i < n ==> {
                &&& !(#[trigger] acts[i] is Fetch)
                &&& !(acts[i] is CreatePart)
                &&& !(acts[i] is Publish)
                &&& !(acts[i] is RemovePart)
                &&& (acts[i] is Report <==> ds[i].phase is Probing)
            },
    decreases n,
{
    if n > 0 {
        lemma_intact_run_prefix(ds, evs, acts, n - 1);
        let i = n - 1;
        assert(download_step(ds[i], evs[i], ds[i + 1], acts[i]));
        assert(only_probing(ds[i].phase));
        assert(ds[i].tracker.downloaded == probed_bytes(ds, evs, i));
        if ds[i].phase is Probing {
            assert(evs[i] matches DownloadEvent::Probed { len, content } && probed_intact(
                ds[i].files@[ds[i].phase->Probing_0 as int],
                len,
                content,
            ));
        }
    }
}

/// Downloading a model already intact on disk changes nothing: no request
/// is sent, no file is created, renamed or removed, the run goes through
/// probing alone and ends in success, progress is reported once per file,
/// and the count reached is the sum of the files' sizes (saturating).
pub proof fn lemma_intact_model_is_not_fetched(ds: Seq<ModelDownload>, evs: Seq<DownloadEvent>, acts: Seq<DownloadAction>)
    requires
        is_run(ds, evs, acts),
        ds[0].phase == DownloadPhase::Idle,
        all_probed_intact(ds, evs),
    ensures
        forall|i: int|
            0 <= i < acts.len() ==> {
                &&& !(#[trigger] acts[i] is Fetch)
                &&& !(acts[i] is CreatePart)
                &&& !(acts[i] is Publish)
                &&& !(acts[i] is RemovePart)
                &&& (acts[i] is Report <==> ds[i].phase is Probing)
            },
        forall|i: int| 0 <= i < ds.len() ==> only_probing(#[trigger] ds[i].phase),
        forall|i: int| 0 <= i < ds.len() ==> #[trigger] ds[i].tracker.downloaded == probed_bytes(ds, evs, i),
{
    lemma_intact_run_prefix(ds, evs, acts, evs.len() as int);
}

impl ModelDownload {
    /// The download of a catalog model: its files, the progress out of its
    /// aggregate size, not started.
    pub fn new(info: ModelInfo) -> (r: Self)
        ensures
            r.files == info.files,
            r.tracker.downloaded == 0,
            r.tracker.total == info.size_bytes,
            r.phase == DownloadPhase::Idle,
            r.received.seen() == Seq::<u8>::empty(),
    {
        ModelDownload {
            files: info.files,
            tracker: DownloadTracker::new(info.size_bytes),
            phase: DownloadPhase::Idle,
            received: Sha256Stream::new(),
        }
    }

    /// Whether `ev` answers the action the download is waiting on.
    pub fn accepts(&self, ev: &DownloadEvent) -> (r: bool)
        ensures
            r == fits(self.phase, *ev),
    {
        match &self.phase {
            DownloadPhase::Idle => matches!(ev, DownloadEvent::Start),
            DownloadPhase::Probing(_) => matches!(ev, DownloadEvent::Probed { .. }),
            DownloadPhase::Skipping(_) => matches!(ev, DownloadEvent::Reported),
            DownloadPhase::Requesting(_) => matches!(ev, DownloadEvent::Sent(_)),
            DownloadPhase::Creating(_) => matches!(ev, DownloadEvent::Created(_)),
            DownloadPhase::Reading(_) => matches!(ev, DownloadEvent::Chunk(_)),
            DownloadPhase::Writing(_, _) => matches!(ev, DownloadEvent::Written(_)),
            DownloadPhase::Streaming(_) => matches!(ev, DownloadEvent::Reported),
            DownloadPhase::Finalizing(_) => matches!(ev, DownloadEvent::Finalized(_)),
            DownloadPhase::Publishing(_) => matches!(ev, DownloadEvent::Renamed(_)),
            DownloadPhase::Discarding(_, _) => matches!(ev, DownloadEvent::Removed),
            DownloadPhase::Done(_) => true,
        }
    }

    fn probe_action(&self, k: usize) -> (a: DownloadAction)
        requires
            k < self.files@.len(),
        ensures
            probes(self.files@[k as int], a),
    {
        let f = &self.files[k];
        DownloadAction::Probe { name: f.name.clone(), with_digest: f.sha256.is_some() }
    }

    fn part_of(&self, k: usize) -> (r: String)
        requires
            k < self.files@.len(),
        ensures
            r@ == part_name(self.files@[k as int]),
    {
        concat(self.files[k].name.as_str(), ".part")
    }

    /// After file `k`: the next file, or the end.
    fn after_file(&mut self, k: usize) -> (a: DownloadAction)
        requires
            k < old(self).files@.len(),
        ensures
            final(self).files == old(self).files,
            final(self).tracker == old(self).tracker,
            final(self).received == old(self).received,
            next_file(*old(self), k as int, *final(self), a),
    {
        let n = self.files.len();
        if k + 1 < n {
            self.phase = DownloadPhase::Probing(k + 1);
            self.probe_action(k + 1)
        } else {
            self.phase = DownloadPhase::Done(Ok(()));
            DownloadAction::Finished
        }
    }

    fn fail(&mut self, e: PortError) -> (a: DownloadAction)
        ensures
            final(self).files == old(self).files,
            final(self).tracker == old(self).tracker,
            final(self).received == old(self).received,
            fails(*final(self), a, e),
    {
        self.phase = DownloadPhase::Done(Err(e));
        DownloadAction::Finished
    }

    /// Removes the `.part` of file `k`, then ends with `e`.
    fn discard(&mut self, k: usize, e: PortError) -> (a: DownloadAction)
        requires
            k < old(self).files@.len(),
        ensures
            final(self).files == old(self).files,
            final(self).tracker == old(self).tracker,
            final(self).received == old(self).received,
            discards(old(self).files@[k as int], k, *final(self), a, e),
    {
        let part = self.part_of(k);
        self.phase = DownloadPhase::Discarding(k, e);
        DownloadAction::RemovePart { part }
    }

    /// One step: what happened (`ev`, which must answer the action asked
    /// for last) moves the download on and gives the next action (see
    /// `download_step`).
    pub fn step(&mut self, ev: DownloadEvent) -> (a: DownloadAction)
        requires
            download_wf(*old(self)),
            fits(old(self).phase, ev),
        ensures
            download_wf(*final(self)),
            download_step(*old(self), ev, *final(self), a),
            final(self).tracker.downloaded >= old(self).tracker.downloaded,
    {
        let mut phase = DownloadPhase::Idle;
        std::mem::swap(&mut phase, &mut self.phase);
        match phase {
            DownloadPhase::Idle => {
                if self.files.len() == 0 {
                    self.phase = DownloadPhase::Done(Ok(()));
                    DownloadAction::Finished
                } else {
                    self.phase = DownloadPhase::Probing(0);
                    self.probe_action(0)
                }
            },
            DownloadPhase::Probing(k) => match ev {
                DownloadEvent::Probed { len, content } => {
                    let present = len.is_some();
                    let digest = match &content {
                        Some(c) => Some(sha256_hex(c.as_slice())),
                        None => None,
                    };
                    let intact = match (&self.files[k].sha256, &digest) {
                        (Some(want), Some(got)) => file_is_intact(present, Some(want.as_str()), Some(got.as_str())),
                        (Some(want), None) => file_is_intact(present, Some(want.as_str()), None),
                        (None, Some(got)) => file_is_intact(present, None, Some(got.as_str())),
                        (None, None) => file_is_intact(present, None, None),
                    };
                    if intact {
                        let bytes = match len {
                            Some(l) => l,
                            None => 0,
                        };
                        let p = self.tracker.advance(bytes);
                        self.phase = DownloadPhase::Skipping(k);
                        DownloadAction::Report(p)
                    } else {
                        self.phase = DownloadPhase::Requesting(k);
                        DownloadAction::Fetch { url: self.files[k].url.clone() }
                    }
                },
                _ => DownloadAction::Finished,
            },
            DownloadPhase::Skipping(k) => self.after_file(k),
            DownloadPhase::Requesting(k) => match ev {
                DownloadEvent::Sent(Err(e)) => {
                    let a = concat("GET ", self.files[k].url.as_str());
                    let b = concat(a.as_str(), ": ");
                    self.fail(PortError::Network(concat(b.as_str(), e.as_str())))
                },
                DownloadEvent::Sent(Ok(status)) => {
                    if 200 <= status && status <= 299 {
                        self.received = Sha256Stream::new();
                        self.phase = DownloadPhase::Creating(k);
                        DownloadAction::CreatePart { part: self.part_of(k) }
                    } else {
                        let e = http_status_error(status, self.files[k].name.as_str());
                        self.fail(e)
                    }
                },
                _ => DownloadAction::Finished,
            },
            DownloadPhase::Creating(k) => match ev {
                DownloadEvent::Created(Err(m)) => self.fail(PortError::Storage(m)),
                DownloadEvent::Created(Ok(())) => {
                    self.phase = DownloadPhase::Reading(k);
                    DownloadAction::ReadChunk
                },
                _ => DownloadAction::Finished,
            },
            DownloadPhase::Reading(k) => match ev {
                DownloadEvent::Chunk(Err(e)) => {
                    let a = concat("reading ", self.files[k].name.as_str());
                    let b = concat(a.as_str(), ": ");
                    self.discard(k, PortError::Network(concat(b.as_str(), e.as_str())))
                },
                DownloadEvent::Chunk(Ok(bytes)) => {
                    if bytes.len() == 0 {
                        self.phase = DownloadPhase::Finalizing(k);
                        DownloadAction::Finalize
                    } else {
                        if self.files[k].sha256.is_some() {
                            self.received.update(bytes.as_slice());
                        }
                        self.phase = DownloadPhase::Writing(k, bytes.len() as u64);
                        DownloadAction::WriteChunk
                    }
                },
                _ => DownloadAction::Finished,
            },
            DownloadPhase::Writing(k, n) => match ev {
                DownloadEvent::Written(Err(m)) => self.discard(k, PortError::Storage(m)),
                DownloadEvent::Written(Ok(())) => {
                    let p = self.tracker.advance(n);
                    self.phase = DownloadPhase::Streaming(k);
                    DownloadAction::Report(p)
                },
                _ => DownloadAction::Finished,
            },
            DownloadPhase::Streaming(k) => {
                self.phase = DownloadPhase::Reading(k);
                DownloadAction::ReadChunk
            },
            DownloadPhase::Finalizing(k) => match ev {
                DownloadEvent::Finalized(Err(m)) => self.discard(k, PortError::Storage(m)),
                DownloadEvent::Finalized(Ok(())) => {
                    let checked = match &self.files[k].sha256 {
                        Some(want) => {
                            let got = self.received.finalize_hex();
                            check_download(self.files[k].name.as_str(), Some(want.as_str()), got.as_str())
                        },
                        None => Ok(()),
                    };
                    match checked {
                        Ok(()) => {
                            self.phase = DownloadPhase::Publishing(k);
                            DownloadAction::Publish { part: self.part_of(k), name: self.files[k].name.clone() }
                        },
                        Err(e) => self.discard(k, e),
                    }
                },
                _ => DownloadAction::Finished,
            },
            DownloadPhase::Publishing(k) => match ev {
                DownloadEvent::Renamed(Ok(())) => self.after_file(k),
                DownloadEvent::Renamed(Err(m)) => self.discard(k, PortError::Storage(m)),
                _ => DownloadAction::Finished,
            },
            DownloadPhase::Discarding(_, e) => self.fail(e),
            DownloadPhase::Done(r) => {
                self.phase = DownloadPhase::Done(r);
                DownloadAction::Finished
            },
        }
    }
}

} // verus!
