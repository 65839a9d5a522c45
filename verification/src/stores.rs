//! The persistence adapters' values (their file locations) and the list
//! logic of the history and telemetry files; reading and writing the files
//! is the application's.

use vstd::prelude::*;
use std::path::PathBuf;
use std::sync::Mutex;
use std::time::{Duration, SystemTime, SystemTimeError, UNIX_EPOCH};
use crate::domain::AudioClip;
use crate::ports::{Clock, PortError};
use crate::preprocess::{clip_from_pcm, duration_ms_of, spec_downmix};
use crate::text::{
    chars_of, concat, decimal, fields, parse_u64, spec_decimal, spec_parse_u64, split_fields, string_from_chars,
};

verus! {

#[verifier::external_type_specification]
#[verifier::external_body]
pub struct ExPathBuf(PathBuf);

#[verifier::external_type_specification]
#[verifier::external_body]
#[verifier::reject_recursive_types(T)]
pub struct ExMutex<T: ?Sized>(Mutex<T>);

/// `Mutex::new(())`: a fresh, unlocked lock. Nothing is stated of it.
#[verifier::external_body]
fn new_lock() -> Mutex<()> {
    Mutex::new(())
}

/// Settings in one JSON file.
pub struct JsonSettingsStore {
    path: PathBuf,
}

/// History in a JSON Lines file (one entry per line), guarded by a lock.
pub struct JsonlHistoryStore {
    path: PathBuf,
    lock: Mutex<()>,
}

/// Recordings kept as WAV files in a directory.
pub struct WavRecordingStore {
    dir: PathBuf,
}

/// Session metrics in a JSON Lines file, guarded by a lock.
pub struct JsonlTelemetryStore {
    path: PathBuf,
    lock: Mutex<()>,
}

impl JsonSettingsStore {
    pub closed spec fn spec_path(&self) -> PathBuf {
        self.path
    }

    pub fn new(path: PathBuf) -> (r: Self)
        ensures
            r.spec_path() == path,
    {
        JsonSettingsStore { path }
    }

    pub fn path(&self) -> (r: &PathBuf)
        ensures
            *r == self.spec_path(),
    {
        &self.path
    }
}

impl JsonlHistoryStore {
    pub closed spec fn spec_path(&self) -> PathBuf {
        self.path
    }

    pub fn new(path: PathBuf) -> (r: Self)
        ensures
            r.spec_path() == path,
    {
        JsonlHistoryStore { path, lock: new_lock() }
    }

    pub fn path(&self) -> (r: &PathBuf)
        ensures
            *r == self.spec_path(),
    {
        &self.path
    }

    pub closed spec fn spec_lock(&self) -> Mutex<()> {
        self.lock
    }

    /// The lock that serializes the file's readers and writers.
    pub fn lock(&self) -> (r: &Mutex<()>)
        ensures
            *r == self.spec_lock(),
    {
        &self.lock
    }
}

impl WavRecordingStore {
    pub closed spec fn spec_dir(&self) -> PathBuf {
        self.dir
    }

    pub fn new(dir: PathBuf) -> (r: Self)
        ensures
            r.spec_dir() == dir,
    {
        WavRecordingStore { dir }
    }

    pub fn dir(&self) -> (r: &PathBuf)
        ensures
            *r == self.spec_dir(),
    {
        &self.dir
    }
}

impl JsonlTelemetryStore {
    pub closed spec fn spec_path(&self) -> PathBuf {
        self.path
    }

    pub fn new(path: PathBuf) -> (r: Self)
        ensures
            r.spec_path() == path,
    {
        JsonlTelemetryStore { path, lock: new_lock() }
    }

    pub fn path(&self) -> (r: &PathBuf)
        ensures
            *r == self.spec_path(),
    {
        &self.path
    }

    pub closed spec fn spec_lock(&self) -> Mutex<()> {
        self.lock
    }

    /// The lock that serializes the file's readers and writers.
    pub fn lock(&self) -> (r: &Mutex<()>)
        ensures
            *r == self.spec_lock(),
    {
        &self.lock
    }
}

/// What hound reads from WAV bytes as 16-bit samples: the interleaved
/// samples, the sample rate and the channel count, or hound's error message
/// when it refuses the bytes (not a WAV it reads, or samples wider than 16
/// bits).
pub uninterp spec fn wav_pcm(bytes: Seq<u8>) -> Result<(Seq<i16>, u32, u16), Seq<char>>;

/// `hound::WavReader::new` over the bytes, then `samples::<i16>()`: the
/// samples with the file's rate and channel count, or the error's text. The
/// contract names the result, which depends on the bytes alone.
#[verifier::external_body]
fn parse_wav(bytes: &[u8]) -> (r: Result<(Vec<i16>, u32, u16), String>)
    ensures
        match r {
            Ok(t) => wav_pcm(bytes@) == Ok::<(Seq<i16>, u32, u16), Seq<char>>((t.0@, t.1, t.2)),
            Err(e) => wav_pcm(bytes@) == Err::<(Seq<i16>, u32, u16), Seq<char>>(e@),
        },
{
    let mut reader = hound::WavReader::new(std::io::Cursor::new(bytes)).map_err(|e| e.to_string())?;
    let spec = reader.spec();
    let raw: Vec<i16> = reader.samples::<i16>().collect::<Result<_, _>>().map_err(|e| e.to_string())?;
    Ok((raw, spec.sample_rate, spec.channels))
}

/// A recording read back from its WAV bytes: the samples hound reads,
/// downmixed to mono by frame averages at the file's own rate (no
/// resampling), and the duration recomputed from the mono length. Bytes
/// hound refuses give `PortError::Storage` with its message; a recording
/// whose duration in milliseconds would not fit 64 bits gives
/// `PortError::Storage("recording too long")`.
pub fn load_clip(wav: &[u8]) -> (r: Result<AudioClip, PortError>)
    ensures
        match wav_pcm(wav@) {
            Ok(t) => if t.0.len() * 1000 <= u64::MAX {
                r matches Ok(c) && c.samples@ == spec_downmix(t.0, t.2 as nat) && c.sample_rate == t.1
                    && c.duration_ms == duration_ms_of(c.samples@.len(), t.1)
            } else {
                r matches Err(PortError::Storage(m)) && m@ == "recording too long"@
            },
            Err(e) => r matches Err(PortError::Storage(m)) && m@ == e,
        },
{
    match parse_wav(wav) {
        Err(e) => Err(PortError::Storage(e)),
        Ok((raw, rate, channels)) => {
            if raw.len() as u128 * 1000 > u64::MAX as u128 {
                return Err(PortError::Storage("recording too long".to_owned()));
            }
            Ok(clip_from_pcm(raw.as_slice(), rate, channels))
        },
    }
}

/// The file name of a recording saved at `now_ms`: `rec-<now_ms>.wav`, or,
/// for the `n`-th name tried after that one was taken, `rec-<now_ms>-<n>.wav`.
pub fn recording_file_name(now_ms: u64, n: u64) -> (r: String)
    ensures
        r@ == (if n == 0 {
            "rec-"@ + spec_decimal(now_ms as nat) + ".wav"@
        } else {
            "rec-"@ + spec_decimal(now_ms as nat) + "-"@ + spec_decimal(n as nat) + ".wav"@
        }),
{
    let stem = concat("rec-", decimal(now_ms).as_str());
    if n == 0 {
        concat(stem.as_str(), ".wav")
    } else {
        let a = concat(stem.as_str(), "-");
        let b = concat(a.as_str(), decimal(n).as_str());
        concat(b.as_str(), ".wav")
    }
}

/// The resident memory, in bytes, that a line of `/proc/self/statm`
/// reports: its second field, a count of 4 KiB pages. `None` when the field
/// is missing or not a number, or when its bytes would not fit 64 bits.
pub open spec fn spec_rss_from_statm(statm: Seq<char>) -> Option<u64> {
    let f = fields(statm);
    if f.len() < 2 {
        None
    } else {
        match spec_parse_u64(f[1]) {
            None => None,
            Some(p) => if p * 4096 <= u64::MAX { Some((p * 4096) as u64) } else { None },
        }
    }
}

/// The resident memory a `/proc/self/statm` line reports, in bytes.
pub fn rss_from_statm(statm: &str) -> (r: Option<u64>)
    ensures
        r == spec_rss_from_statm(statm@),
{
    let cs = chars_of(statm);
    let f = split_fields(&cs);
    proof {
        assert(f@.map_values(|v: Vec<char>| v@).len() == f@.len());
    }
    if f.len() < 2 {
        return None;
    }
    let second = string_from_chars(f[1].as_slice());
    proof {
        assert(f@.map_values(|v: Vec<char>| v@)[1] == f@[1]@);
    }
    match parse_u64(second.as_str()) {
        None => None,
        Some(p) => p.checked_mul(4096),
    }
}

/// Position of the last `c` in `s`.
pub open spec fn last_index_of(s: Seq<char>, c: char) -> Option<int> {
    if exists|k: int| 0 <= k < s.len() && s[k] == c {
        Some(choose|k: int| 0 <= k < s.len() && s[k] == c && forall|j: int| k < j < s.len() ==> s[j] != c)
    } else {
        None
    }
}

/// The process's CPU time (user and system) in clock ticks that a line of
/// `/proc/self/stat` reports: fields 14 and 15, counted after the closing
/// parenthesis of the command name (which may itself hold spaces and
/// parentheses) as the 12th and 13th fields. `None` when they are missing
/// or not numbers, or when their sum does not fit 64 bits.
pub open spec fn spec_cpu_ticks_from_stat(stat: Seq<char>) -> Option<u64> {
    match last_index_of(stat, ')') {
        None => None,
        Some(p) => {
            let f = fields(stat.skip(p + 1));
            if f.len() < 13 {
                None
            } else {
                match (spec_parse_u64(f[11]), spec_parse_u64(f[12])) {
                    (Some(u), Some(t)) => if u + t <= u64::MAX { Some((u + t) as u64) } else { None },
                    _ => None,
                }
            }
        },
    }
}

/// The CPU ticks a `/proc/self/stat` line reports.
pub fn cpu_ticks_from_stat(stat: &str) -> (r: Option<u64>)
    ensures
        r == spec_cpu_ticks_from_stat(stat@),
{
    let cs = chars_of(stat);
    let mut k: usize = cs.len();
    while k > 0 && cs[k - 1] != ')'
        invariant
            k <= cs.len(),
            forall|j: int| k <= j < cs.len() ==> cs@[j] != ')',
        decreases k,
    {
        k -= 1;
    }
    if k == 0 {
        assert(!exists|x: int| 0 <= x < stat@.len() && stat@[x] == ')');
        return None;
    }
    let p = k - 1;
    proof {
        assert(cs@[p as int] == ')');
        let q = last_index_of(stat@, ')')->0;
        assert(0 <= q < stat@.len() && stat@[q] == ')' && forall|j: int| q < j < stat@.len() ==> stat@[j] != ')');
        assert(q == p) by {
            if q < p {
                assert(stat@[p as int] == ')');
            }
        }
    }
    let mut rest: Vec<char> = Vec::new();
    let mut i: usize = k;
    while i < cs.len()
        invariant
            k <= i <= cs.len(),
            rest@ == cs@.subrange(k as int, i as int),
        decreases cs.len() - i,
    {
        rest.push(cs[i]);
        i += 1;
        assert(rest@ =~= cs@.subrange(k as int, i as int));
    }
    assert(rest@ =~= stat@.skip(p + 1));
    let f = split_fields(&rest);
    proof {
        assert(f@.map_values(|v: Vec<char>| v@).len() == f@.len());
    }
    if f.len() < 13 {
        return None;
    }
    let utime = string_from_chars(f[11].as_slice());
    let stime = string_from_chars(f[12].as_slice());
    proof {
        assert(f@.map_values(|v: Vec<char>| v@)[11] == f@[11]@);
        assert(f@.map_values(|v: Vec<char>| v@)[12] == f@[12]@);
    }
    match (parse_u64(utime.as_str()), parse_u64(stime.as_str())) {
        (Some(u), Some(t)) => u.checked_add(t),
        _ => None,
    }
}

/// The last `limit` entries of a log (all of them if there are fewer), most
/// recent first.
pub open spec fn spec_most_recent_first<T>(all: Seq<T>, limit: nat) -> Seq<T> {
    let start = if all.len() >= limit { all.len() - limit } else { 0 };
    all.skip(start).reverse()
}

/// The last `limit` entries of a log, most recent first (the log is in
/// writing order).
pub fn most_recent_first<T>(all: Vec<T>, limit: usize) -> (r: Vec<T>)
    ensures
        r@ == spec_most_recent_first(all@, limit as nat),
{
    let start = all.len().saturating_sub(limit);
    let mut rest = all;
    let ghost whole = rest@;
    let mut out: Vec<T> = Vec::new();
    while rest.len() > start
        invariant
            start <= rest.len() <= whole.len(),
            start == if whole.len() >= limit { whole.len() - limit } else { 0 },
            rest@ == whole.take(rest.len() as int),
            out@ == whole.skip(rest.len() as int).reverse(),
        decreases rest.len(),
    {
        let ghost n = rest.len();
        let x = rest.pop().unwrap();
        out.push(x);
        assert(rest@ =~= whole.take(rest.len() as int));
        assert(out@ =~= whole.skip(rest.len() as int).reverse());
    }
    out
}

/// Index of the first entry whose creation time is `created_at_ms`.
pub fn position_of_created_at(created: &[u64], created_at_ms: u64) -> (r: Option<usize>)
    ensures
        match r {
            Some(k) => k < created@.len() && created@[k as int] == created_at_ms && forall|x: int|
                0 <= x < k ==> created@[x] != created_at_ms,
            None => forall|x: int| 0 <= x < created@.len() ==> created@[x] != created_at_ms,
        },
{
    let mut k: usize = 0;
    while k < created.len()
        invariant
            k <= created.len(),
            forall|x: int| 0 <= x < k ==> created@[x] != created_at_ms,
        decreases created.len() - k,
    {
        if created[k] == created_at_ms {
            return Some(k);
        }
        k += 1;
    }
    None
}

#[verifier::external_type_specification]
#[verifier::external_body]
pub struct ExSystemTime(SystemTime);

#[verifier::external_type_specification]
#[verifier::external_body]
pub struct ExSystemTimeError(SystemTimeError);

/// `SystemTime::now`: the current time of the system clock. Nothing is
/// stated of it.
#[verifier::external_body]
fn system_now() -> SystemTime {
    SystemTime::now()
}

/// `SystemTime::duration_since(UNIX_EPOCH)`: the time elapsed since the
/// epoch, or an error for a time before it. Nothing is stated of it.
#[verifier::external_body]
fn since_epoch(t: &SystemTime) -> Result<Duration, SystemTimeError> {
    t.duration_since(UNIX_EPOCH)
}

/// `Duration::as_millis`: the whole milliseconds of a duration. Nothing is
/// stated of it.
#[verifier::external_body]
fn whole_millis(d: &Duration) -> u128 {
    d.as_millis()
}

/// The system clock: milliseconds since the Unix epoch.
pub struct SystemClock;

impl Clock for SystemClock {
    /// Milliseconds since the epoch (truncated to 64 bits), or 0 when the
    /// system clock is set before the epoch.
    fn now_ms(&self) -> u64 {
        match since_epoch(&system_now()) {
            Ok(d) => whole_millis(&d) as u64,
            Err(_) => 0,
        }
    }
}

} // verus!
