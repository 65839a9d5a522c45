//! The model catalog of the embedded engine and the decisions of its
//! download: which files are already intact, the aggregate progress, and the
//! integrity check against the catalog's hash.

use vstd::prelude::*;
use sha2::Digest;
use crate::ports::PortError;
use crate::text::{chars_of, concat, decimal, spec_decimal, string_from_chars};

verus! {

/// A file that makes up a model (downloaded on its own).
pub struct ModelFile {
    pub name: String,
    pub url: String,
    /// Integrity hash, when known; `None`: only existence and size are checked.
    pub sha256: Option<String>,
}

/// An entry of the curated catalog.
pub struct ModelInfo {
    pub id: String,
    pub label: String,
    /// ISO 639-1, or "auto".
    pub language: String,
    pub size_bytes: u64,
    pub files: Vec<ModelFile>,
}

/// Aggregate progress of a download (all of the model's files).
#[derive(Clone, Copy)]
pub struct DownloadProgress {
    pub downloaded: u64,
    pub total: u64,
}

pub open spec fn catalog_base_url() -> Seq<char> {
    "https://huggingface.co/smcleod/parakeet-tdt-0.6b-v3-int8/resolve/main"@
}

pub open spec fn catalog_file_names() -> Seq<Seq<char>> {
    seq![
        "config.json"@,
        "vocab.txt"@,
        "nemo128.onnx"@,
        "decoder_joint-model.int8.onnx"@,
        "encoder-model.int8.onnx"@,
    ]
}

/// The one model of the catalog: Parakeet V3 int8 (multilingual, CPU),
/// about 640 MB in five files under the same base URL, no hashes.
pub open spec fn is_catalog_model(m: ModelInfo) -> bool {
    &&& m.id@ == "parakeet-v3-int8"@
    &&& m.label@ == "Parakeet V3 (multilingual, CPU)"@
    &&& m.language@ == "auto"@
    &&& m.size_bytes == 640 * 1024 * 1024
    &&& m.files@.len() == 5
    &&& forall|k: int|
        0 <= k < 5 ==> {
            &&& (#[trigger] m.files@[k]).name@ == catalog_file_names()[k]
            &&& m.files@[k].url@ == catalog_base_url() + "/"@ + catalog_file_names()[k]
            &&& m.files@[k].sha256 is None
        }
}

fn catalog_file(base: &str, name: &str) -> (f: ModelFile)
    ensures
        f.name@ == name@,
        f.url@ == base@ + "/"@ + name@,
        f.sha256 is None,
{
    let with_slash = concat(base, "/");
    ModelFile { name: name.to_owned(), url: concat(with_slash.as_str(), name), sha256: None }
}

/// The curated catalog (static): one entry, Parakeet V3 int8.
pub fn catalog() -> (r: Vec<ModelInfo>)
    ensures
        r@.len() == 1,
        is_catalog_model(r@[0]),
{
    let base = "https://huggingface.co/smcleod/parakeet-tdt-0.6b-v3-int8/resolve/main";
    let mut files: Vec<ModelFile> = Vec::new();
    files.push(catalog_file(base, "config.json"));
    files.push(catalog_file(base, "vocab.txt"));
    files.push(catalog_file(base, "nemo128.onnx"));
    files.push(catalog_file(base, "decoder_joint-model.int8.onnx"));
    files.push(catalog_file(base, "encoder-model.int8.onnx"));
    let mut r: Vec<ModelInfo> = Vec::new();
    r.push(ModelInfo {
        id: "parakeet-v3-int8".to_owned(),
        label: "Parakeet V3 (multilingual, CPU)".to_owned(),
        language: "auto".to_owned(),
        size_bytes: 640 * 1024 * 1024,
        files,
    });
    r
}

/// The catalog entry of `id`, or `PortError::Other("unknown model in the
/// catalog: <id>")`.
pub fn find_model(id: &str) -> (r: Result<ModelInfo, PortError>)
    ensures
        match r {
            Ok(m) => is_catalog_model(m) && m.id@ == id@,
            Err(PortError::Other(msg)) => id@ != "parakeet-v3-int8"@ && msg@ == "unknown model in the catalog: "@
                + id@,
            Err(_) => false,
        },
{
    let mut models = catalog();
    let m = models.pop().unwrap();
    if m.id == id.to_owned() {
        Ok(m)
    } else {
        Err(PortError::Other(concat("unknown model in the catalog: ", id)))
    }
}


/// The lowercase hexadecimal digit of `d` (0 to 15).
pub open spec fn hex_digit(d: int) -> char {
    if d < 10 { (48 + d) as char } else { (87 + d) as char }
}

/// Lowercase hexadecimal of bytes: two digits per byte, high nibble first.
pub open spec fn spec_hex_lower(bytes: Seq<u8>) -> Seq<char> {
    Seq::new(
        2 * bytes.len(),
        |k: int| if k % 2 == 0 { hex_digit(bytes[k / 2] as int / 16) } else { hex_digit(bytes[k / 2] as int % 16) },
    )
}

fn hex_char(d: u8) -> (c: char)
    requires
        d < 16,
    ensures
        c == hex_digit(d as int),
{
    if d < 10 {
        (48 + d) as char
    } else {
        (87 + d) as char
    }
}

/// Bytes as lowercase hexadecimal (a digest as the catalog writes it).
pub fn hex_lower(bytes: &[u8]) -> (r: String)
    requires
        bytes.len() * 2 <= usize::MAX,
    ensures
        r@ == spec_hex_lower(bytes@),
{
    let mut cs: Vec<char> = Vec::new();
    let mut i: usize = 0;
    while i < bytes.len()
        invariant
            i <= bytes.len(),
            bytes.len() * 2 <= usize::MAX,
            cs@ == spec_hex_lower(bytes@.take(i as int)),
        decreases bytes.len() - i,
    {
        let b = bytes[i];
        cs.push(hex_char(b / 16));
        cs.push(hex_char(b % 16));
        i += 1;
        assert(cs@ =~= spec_hex_lower(bytes@.take(i as int)));
    }
    assert(bytes@.take(bytes.len() as int) =~= bytes@);
    string_from_chars(cs.as_slice())
}

/// ASCII lowercase of one character; other characters unchanged.
pub open spec fn ascii_lower(c: char) -> char {
    if 'A' <= c && c <= 'Z' { ((c as int) + 32) as char } else { c }
}

/// Equal texts, ignoring the case of ASCII letters.
pub open spec fn spec_eq_ignore_ascii_case(a: Seq<char>, b: Seq<char>) -> bool {
    a.len() == b.len() && forall|k: int| 0 <= k < a.len() ==> ascii_lower(#[trigger] a[k]) == ascii_lower(b[k])
}

fn lower_ascii(c: char) -> (r: char)
    ensures
        r == ascii_lower(c),
{
    if 'A' <= c && c <= 'Z' {
        ((c as u8) + 32) as char
    } else {
        c
    }
}

/// Text equality that ignores the case of ASCII letters (as
/// `str::eq_ignore_ascii_case`).
pub fn eq_ignore_ascii_case(a: &str, b: &str) -> (r: bool)
    ensures
        r == spec_eq_ignore_ascii_case(a@, b@),
{
    let x = chars_of(a);
    let y = chars_of(b);
    if x.len() != y.len() {
        return false;
    }
    let mut i: usize = 0;
    while i < x.len()
        invariant
            i <= x.len(),
            x.len() == y.len(),
            x@ == a@,
            y@ == b@,
            forall|k: int| 0 <= k < i ==> ascii_lower(#[trigger] x@[k]) == ascii_lower(y@[k]),
        decreases x.len() - i,
    {
        if lower_ascii(x[i]) != lower_ascii(y[i]) {
            return false;
        }
        i += 1;
    }
    true
}

/// The SHA-256 digest of bytes (`sha2::Sha256::digest`).
pub uninterp spec fn sha256(bytes: Seq<u8>) -> Seq<u8>;

/// `sha2::Sha256::digest`: the SHA-256 digest of the bytes, 32 bytes long.
/// The contract names it; it depends on the bytes alone.
#[verifier::external_body]
fn sha256_digest(bytes: &[u8]) -> (r: Vec<u8>)
    ensures
        r@ == sha256(bytes@),
        r@.len() == 32,
{
    sha2::Sha256::digest(bytes).to_vec()
}

/// The lowercase hexadecimal SHA-256 digest of bytes.
pub fn sha256_hex(bytes: &[u8]) -> (r: String)
    ensures
        r@ == spec_hex_lower(sha256(bytes@)),
{
    let d = sha256_digest(bytes);
    hex_lower(d.as_slice())
}

/// The bytes received for a file, in order, and their digest once they
/// are all in.
pub struct Sha256Stream {
    seen: Vec<u8>,
}

impl Sha256Stream {
    /// The bytes received so far.
    pub closed spec fn seen(&self) -> Seq<u8> {
        self.seen@
    }

    pub fn new() -> (r: Self)
        ensures
            r.seen() == Seq::<u8>::empty(),
    {
        Sha256Stream { seen: Vec::new() }
    }

    /// Takes in the next chunk.
    pub fn update(&mut self, chunk: &[u8])
        ensures
            final(self).seen() == old(self).seen() + chunk@,
    {
        let ghost before = self.seen@;
        let mut i: usize = 0;
        while i < chunk.len()
            invariant
                i <= chunk.len(),
                self.seen@ == before + chunk@.take(i as int),
            decreases chunk.len() - i,
        {
            self.seen.push(chunk[i]);
            i += 1;
            assert(self.seen@ =~= before + chunk@.take(i as int));
        }
        assert(chunk@.take(chunk.len() as int) =~= chunk@);
    }

    /// The lowercase hexadecimal digest of everything received.
    pub fn finalize_hex(&self) -> (r: String)
        ensures
            r@ == spec_hex_lower(sha256(self.seen())),
    {
        sha256_hex(self.seen.as_slice())
    }
}

/// A file already on disk satisfies the catalog: it exists and is not empty
/// and, when the catalog has a hash, its digest (`actual_sha`, `None` when
/// it could not be computed) matches, ignoring case. Without a hash, presence
/// is enough.
pub open spec fn spec_file_is_intact(present: bool, expected_sha: Option<Seq<char>>, actual_sha: Option<Seq<char>>) -> bool {
    present && match expected_sha {
        None => true,
        Some(want) => match actual_sha {
            Some(got) => spec_eq_ignore_ascii_case(got, want),
            None => false,
        },
    }
}

pub fn file_is_intact(present: bool, expected_sha: Option<&str>, actual_sha: Option<&str>) -> (r: bool)
    ensures
        r == spec_file_is_intact(
            present,
            match expected_sha { Some(w) => Some(w@), None => None },
            match actual_sha { Some(g) => Some(g@), None => None },
        ),
{
    if !present {
        return false;
    }
    match expected_sha {
        None => true,
        Some(want) => match actual_sha {
            Some(got) => eq_ignore_ascii_case(got, want),
            None => false,
        },
    }
}

/// A model is installed when its directory exists and every one of its
/// files is present with a size above zero (`file_sizes[k]`: the size of
/// file `k`, `None` when absent or not a regular file).
pub fn model_is_installed(dir_exists: bool, file_sizes: &[Option<u64>]) -> (r: bool)
    ensures
        r == (dir_exists && forall|k: int| 0 <= k < file_sizes@.len() ==> match #[trigger] file_sizes@[k] {
            Some(n) => n > 0,
            None => false,
        }),
{
    if !dir_exists {
        return false;
    }
    let mut i: usize = 0;
    while i < file_sizes.len()
        invariant
            i <= file_sizes.len(),
            forall|k: int| 0 <= k < i ==> match #[trigger] file_sizes@[k] {
                Some(n) => n > 0,
                None => false,
            },
        decreases file_sizes.len() - i,
    {
        match file_sizes[i] {
            Some(n) => {
                if n == 0 {
                    return false;
                }
            },
            None => {
                return false;
            },
        }
        i += 1;
    }
    true
}

/// What the application found on disk for one catalog model: whether its
/// directory exists, and the size of each of its files in catalog order
/// (`None` when the file is absent or not a regular file).
pub struct ModelPresence {
    pub dir_exists: bool,
    pub file_sizes: Vec<Option<u64>>,
}

/// The model with `file_count` files is installed: its directory exists and
/// each of its files is there, with a size above zero.
pub open spec fn spec_installed(p: ModelPresence, file_count: nat) -> bool {
    &&& p.dir_exists
    &&& p.file_sizes@.len() == file_count
    &&& forall|k: int| 0 <= k < file_count ==> match #[trigger] p.file_sizes@[k] {
        Some(n) => n > 0,
        None => false,
    }
}

/// The ids of the catalog models that are installed (`observed[k]`: what was
/// found for the `k`-th model of the catalog). A model without an
/// observation, or with a missing or empty file, is not listed.
pub fn local_models(observed: &[ModelPresence]) -> (r: Vec<String>)
    ensures
        r@.len() == (if observed@.len() > 0 && spec_installed(observed@[0], 5) { 1int } else { 0int }),
        r@.len() == 1 ==> r@[0]@ == "parakeet-v3-int8"@,
{
    let models = catalog();
    let mut out: Vec<String> = Vec::new();
    if observed.len() > 0 {
        let p = &observed[0];
        let m = &models[0];
        if p.file_sizes.len() == m.files.len() && model_is_installed(p.dir_exists, p.file_sizes.as_slice()) {
            out.push(m.id.clone());
        }
    }
    out
}

/// The aggregate progress of a model download: bytes so far (saturating at
/// `u64::MAX`) over a fixed total.
pub struct DownloadTracker {
    pub downloaded: u64,
    pub total: u64,
}

impl DownloadTracker {
    pub fn new(total: u64) -> (r: Self)
        ensures
            r.downloaded == 0,
            r.total == total,
    {
        DownloadTracker { downloaded: 0, total }
    }

    /// Counts `bytes` more (a file found intact, or a chunk received) and
    /// returns the progress to report.
    pub fn advance(&mut self, bytes: u64) -> (r: DownloadProgress)
        ensures
            final(self).total == old(self).total,
            final(self).downloaded as int == if old(self).downloaded + bytes <= u64::MAX {
                old(self).downloaded + bytes
            } else {
                u64::MAX as int
            },
            final(self).downloaded >= old(self).downloaded,
            r.downloaded == final(self).downloaded,
            r.total == final(self).total,
    {
        self.downloaded = self.downloaded.saturating_add(bytes);
        DownloadProgress { downloaded: self.downloaded, total: self.total }
    }
}

/// The error for a download answered with a status other than success:
/// `PortError::Network("HTTP <status> while downloading <name>")`.
pub fn http_status_error(status: u16, name: &str) -> (r: PortError)
    ensures
        match r {
            PortError::Network(msg) => msg@ == "HTTP "@ + spec_decimal(status as nat) + " while downloading "@ + name@,
            _ => false,
        },
{
    let code = decimal(status as u64);
    let a = concat("HTTP ", code.as_str());
    let b = concat(a.as_str(), " while downloading ");
    PortError::Network(concat(b.as_str(), name))
}

/// Integrity check of a downloaded file: with a hash in the catalog, the
/// digest of what was received must match it, ignoring case; otherwise
/// `PortError::Other("sha256 mismatch in <name>: expected <want>, got <got>")`.
/// Without a hash there is nothing to check.
pub fn check_download(name: &str, expected_sha: Option<&str>, got_sha: &str) -> (r: Result<(), PortError>)
    ensures
        match expected_sha {
            None => r is Ok,
            Some(want) => if spec_eq_ignore_ascii_case(got_sha@, want@) {
                r is Ok
            } else {
                match r {
                    Err(PortError::Other(msg)) => msg@ == "sha256 mismatch in "@ + name@ + ": expected "@ + want@
                        + ", got "@ + got_sha@,
                    _ => false,
                }
            },
        },
{
    match expected_sha {
        None => Ok(()),
        Some(want) => {
            if eq_ignore_ascii_case(got_sha, want) {
                Ok(())
            } else {
                let a = concat("sha256 mismatch in ", name);
                let b = concat(a.as_str(), ": expected ");
                let c = concat(b.as_str(), want);
                let d = concat(c.as_str(), ", got ");
                Err(PortError::Other(concat(d.as_str(), got_sha)))
            }
        },
    }
}

} // verus!
