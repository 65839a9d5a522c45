//! The decisions of the adapter for OpenAI-compatible transcription APIs:
//! endpoints, the content of the upload, error mapping, retry policy and
//! the model list filter.

use vstd::prelude::*;
use crate::alignment::views;
use crate::domain::{ProviderConfig, TranscriptionOptions};
use crate::download::opt_view;
use crate::ports::{PortError, spec_is_transient, is_transient};
use crate::text::{chars_of, concat, lowercase, string_from_chars, to_lowercase};

verus! {

/// Wait between the first and the second attempt (ms).
pub const RETRY_BACKOFF_MS: u64 = 750;

/// Longest provider message kept in a rejection (characters).
pub const MAX_REJECTION_CHARS: usize = 500;

/// The text without its trailing slashes.
pub open spec fn trim_trailing_slashes(s: Seq<char>) -> Seq<char>
    decreases s.len(),
{
    if s.len() > 0 && s.last() == '/' {
        trim_trailing_slashes(s.drop_last())
    } else {
        s
    }
}

fn trimmed_len(cs: &Vec<char>) -> (n: usize)
    ensures
        n <= cs.len(),
        cs@.take(n as int) == trim_trailing_slashes(cs@),
{
    let mut n = cs.len();
    assert(cs@.take(n as int) =~= cs@);
    while n > 0 && cs[n - 1] == '/'
        invariant
            n <= cs.len(),
            trim_trailing_slashes(cs@.take(n as int)) == trim_trailing_slashes(cs@),
        decreases n,
    {
        assert(cs@.take(n as int).drop_last() =~= cs@.take(n - 1));
        n -= 1;
    }
    assert(cs@.take(n as int) == trim_trailing_slashes(cs@.take(n as int)));
    n
}

/// `base_url` without trailing slashes, followed by `path`.
pub fn join_url(base_url: &str, path: &str) -> (r: String)
    ensures
        r@ == trim_trailing_slashes(base_url@) + path@,
{
    let cs = chars_of(base_url);
    let n = trimmed_len(&cs);
    let mut out: Vec<char> = Vec::new();
    let mut i: usize = 0;
    while i < n
        invariant
            i <= n,
            n <= cs.len(),
            out@ == cs@.take(i as int),
        decreases n - i,
    {
        out.push(cs[i]);
        i += 1;
        assert(out@ =~= cs@.take(i as int));
    }
    let head = string_from_chars(out.as_slice());
    concat(head.as_str(), path)
}

/// `POST {base_url}/audio/transcriptions`.
pub fn transcription_endpoint(base_url: &str) -> (r: String)
    ensures
        r@ == trim_trailing_slashes(base_url@) + "/audio/transcriptions"@,
{
    join_url(base_url, "/audio/transcriptions")
}

/// `GET {base_url}/models`.
pub fn models_endpoint(base_url: &str) -> (r: String)
    ensures
        r@ == trim_trailing_slashes(base_url@) + "/models"@,
{
    join_url(base_url, "/models")
}

/// The first `max` characters of a text.
pub fn truncate_chars(text: &str, max: usize) -> (r: String)
    ensures
        r@ == (if text@.len() <= max { text@ } else { text@.take(max as int) }),
{
    let cs = chars_of(text);
    let mut out: Vec<char> = Vec::new();
    let mut i: usize = 0;
    while i < cs.len() && i < max
        invariant
            i <= cs.len(),
            i <= max,
            out@ == cs@.take(i as int),
        decreases cs.len() - i,
    {
        out.push(cs[i]);
        i += 1;
        assert(out@ =~= cs@.take(i as int));
    }
    assert(text@.len() <= max ==> cs@.take(i as int) =~= text@);
    string_from_chars(out.as_slice())
}

/// A provider's answer with an unsuccessful status: the status and at most
/// the first 500 characters of the body.
pub fn rejection(status: u16, body: &str) -> (r: PortError)
    ensures
        match r {
            PortError::ProviderRejected { status: s, message } => s == status && message@ == (if body@.len() <= 500 {
                body@
            } else {
                body@.take(500)
            }),
            _ => false,
        },
{
    PortError::ProviderRejected { status, message: truncate_chars(body, MAX_REJECTION_CHARS) }
}

/// A request that could not be sent: a timeout is not worth retrying
/// (`Other`, "timed out talking to the provider: ..."), any other failure is
/// a network error.
pub fn send_failure(timed_out: bool, description: &str) -> (r: PortError)
    ensures
        timed_out ==> r == PortError::Other(r->Other_0) && r->Other_0@ == "timed out talking to the provider: "@
            + description@,
        !timed_out ==> r == PortError::Network(r->Network_0) && r->Network_0@ == description@,
        timed_out == !spec_is_transient(r),
{
    if timed_out {
        PortError::Other(concat("timed out talking to the provider: ", description))
    } else {
        PortError::Network(description.to_owned())
    }
}

/// After an attempt fails, whether to make the second and last one: only
/// after a first attempt, and only for a transient failure.
pub fn should_retry(attempt: u32, error: &PortError) -> (r: bool)
    ensures
        r == (attempt == 1 && spec_is_transient(*error)),
{
    attempt == 1 && is_transient(error)
}

/// Substring test.
pub open spec fn contains_seq(hay: Seq<char>, needle: Seq<char>) -> bool {
    exists|i: int| 0 <= i && i + needle.len() <= hay.len() && #[trigger] hay.subrange(i, i + needle.len()) == needle
}

fn matches_at(hay: &Vec<char>, needle: &Vec<char>, i: usize) -> (r: bool)
    requires
        i + needle.len() <= hay.len(),
    ensures
        r == (hay@.subrange(i as int, i + needle.len()) == needle@),
{
    let mut k: usize = 0;
    while k < needle.len()
        invariant
            k <= needle.len(),
            i + needle.len() <= hay.len(),
            forall|x: int| 0 <= x < k ==> hay@[i + x] == needle@[x],
        decreases needle.len() - k,
    {
        if hay[i + k] != needle[k] {
            assert(hay@.subrange(i as int, i + needle.len())[k as int] != needle@[k as int]);
            return false;
        }
        k += 1;
    }
    assert(hay@.subrange(i as int, i + needle.len()) =~= needle@);
    true
}

pub(crate) fn contains_chars(hay: &Vec<char>, needle: &Vec<char>) -> (r: bool)
    ensures
        r == contains_seq(hay@, needle@),
{
    if needle.len() > hay.len() {
        return false;
    }
    let last = hay.len() - needle.len();
    let mut i: usize = 0;
    loop
        invariant
            last + needle.len() == hay.len(),
            i <= last,
            forall|x: int| 0 <= x < i ==> #[trigger] hay@.subrange(x, x + needle.len()) != needle@,
        decreases last - i,
    {
        if matches_at(hay, needle, i) {
            return true;
        }
        if i == last {
            return false;
        }
        i += 1;
    }
}

/// A model id that names a transcription model: its lowercase form contains
/// "whisper" or "transcribe".
pub open spec fn is_transcription_model(id: Seq<char>) -> bool {
    contains_seq(lowercase(id), "whisper"@) || contains_seq(lowercase(id), "transcribe"@)
}

fn transcription_model(id: &String) -> (r: bool)
    ensures
        r == is_transcription_model(id@),
{
    let lower = chars_of(to_lowercase(id.as_str()).as_str());
    let w = chars_of("whisper");
    let t = chars_of("transcribe");
    contains_chars(&lower, &w) || contains_chars(&lower, &t)
}

/// Lexicographic order of texts by code point (the order of `String`'s
/// `Ord`: UTF-8 byte order follows code point order).
pub open spec fn lex_lt(a: Seq<char>, b: Seq<char>) -> bool
    decreases a.len(),
{
    if a.len() == 0 {
        b.len() > 0
    } else if b.len() == 0 {
        false
    } else if a[0] != b[0] {
        (a[0] as int) < (b[0] as int)
    } else {
        lex_lt(a.drop_first(), b.drop_first())
    }
}

proof fn lemma_lex_trichotomy(a: Seq<char>, b: Seq<char>)
    ensures
        lex_lt(a, b) || a == b || lex_lt(b, a),
        !(lex_lt(a, b) && lex_lt(b, a)),
        !lex_lt(a, a),
    decreases a.len(),
{
    if a.len() > 0 && b.len() > 0 {
        lemma_lex_trichotomy(a.drop_first(), b.drop_first());
        if a[0] == b[0] && a.drop_first() == b.drop_first() {
            assert forall|k: int| 0 <= k < a.len() implies a[k] == b[k] by {
                if k > 0 {
                    assert(a[k] == a.drop_first()[k - 1]);
                    assert(b[k] == b.drop_first()[k - 1]);
                }
            }
            assert(a =~= b);
        }
    }
    if a.len() > 0 {
        lemma_lex_trichotomy(a.drop_first(), a.drop_first());
    }
    if a.len() == 0 && b.len() == 0 {
        assert(a =~= b);
    }
}

proof fn lemma_lex_transitive(a: Seq<char>, b: Seq<char>, c: Seq<char>)
    requires
        lex_lt(a, b),
        lex_lt(b, c),
    ensures
        lex_lt(a, c),
    decreases a.len(),
{
    if a.len() > 0 && b.len() > 0 && c.len() > 0 && a[0] == b[0] && b[0] == c[0] {
        lemma_lex_transitive(a.drop_first(), b.drop_first(), c.drop_first());
    }
}

fn lex_less(a: &Vec<char>, b: &Vec<char>) -> (r: bool)
    ensures
        r == lex_lt(a@, b@),
{
    let mut i: usize = 0;
    assert(a@.skip(0) =~= a@ && b@.skip(0) =~= b@);
    while i < a.len() && i < b.len() && a[i] == b[i]
        invariant
            i <= a.len(),
            i <= b.len(),
            lex_lt(a@, b@) == lex_lt(a@.skip(i as int), b@.skip(i as int)),
        decreases a.len() - i,
    {
        assert(a@.skip(i as int).drop_first() =~= a@.skip(i + 1));
        assert(b@.skip(i as int).drop_first() =~= b@.skip(i + 1));
        i += 1;
    }
    assert(a@.skip(i as int).len() == a.len() - i);
    assert(b@.skip(i as int).len() == b.len() - i);
    if i == a.len() {
        i < b.len()
    } else if i == b.len() {
        false
    } else {
        assert(a@.skip(i as int)[0] == a@[i as int]);
        assert(b@.skip(i as int)[0] == b@[i as int]);
        a[i] < b[i]
    }
}

proof fn lemma_push_contains(s: Seq<Seq<char>>, v: Seq<char>, x: Seq<char>)
    ensures
        s.push(v).contains(x) <==> (s.contains(x) || x == v),
{
    if s.contains(x) {
        let w = choose|w: int| 0 <= w < s.len() && s[w] == x;
        assert(s.push(v)[w] == x);
    }
    if x == v {
        assert(s.push(v)[s.len() as int] == x);
    }
    if s.push(v).contains(x) {
        let w = choose|w: int| 0 <= w < s.len() + 1 && s.push(v)[w] == x;
        if w < s.len() {
            assert(s[w] == x);
        }
    }
}

/// Strictly increasing: sorted, without duplicates.
pub open spec fn strictly_sorted(s: Seq<Seq<char>>) -> bool {
    forall|i: int, j: int| 0 <= i < j < s.len() ==> lex_lt(#[trigger] s[i], #[trigger] s[j])
}

/// From a provider's model ids, the transcription models (see
/// `is_transcription_model`), sorted and without duplicates.
pub fn select_transcription_models(ids: &Vec<String>) -> (r: Vec<String>)
    ensures
        strictly_sorted(views(r@)),
        forall|x: Seq<char>|
            #![trigger views(r@).contains(x)]
            #![trigger views(ids@).contains(x)]
            views(r@).contains(x) <==> (views(ids@).contains(x) && is_transcription_model(x)),
{
    let ghost ids_v = views(ids@);
    let mut out: Vec<String> = Vec::new();
    let mut keys: Vec<Vec<char>> = Vec::new();
    let mut i: usize = 0;
    while i < ids.len()
        invariant
            i <= ids.len(),
            ids_v == views(ids@),
            keys@.len() == out@.len(),
            forall|k: int| 0 <= k < keys@.len() ==> #[trigger] keys@[k]@ == out@[k]@,
            strictly_sorted(views(out@)),
            forall|x: Seq<char>|
                #![trigger views(out@).contains(x)]
                #![trigger ids_v.take(i as int).contains(x)]
                views(out@).contains(x) <==> (ids_v.take(i as int).contains(x)
                    && is_transcription_model(x)),
        decreases ids.len() - i,
    {
        let ghost before = views(out@);
        let id = &ids[i];
        assert(ids_v.take(i + 1) =~= ids_v.take(i as int).push(id@));
        assert(forall|x: Seq<char>| #[trigger] ids_v.take(i + 1).contains(x) <==> (ids_v.take(i as int).contains(x) || x == id@)) by {
            assert forall|x: Seq<char>| #[trigger] ids_v.take(i + 1).contains(x) <==> (ids_v.take(i as int).contains(x) || x == id@) by {
                lemma_push_contains(ids_v.take(i as int), id@, x);
            }
        }
        if transcription_model(id) {
            let key = chars_of(id.as_str());
            // position of the first element not below the new one
            let mut p: usize = 0;
            while p < keys.len() && lex_less(&keys[p], &key)
                invariant
                    p <= keys.len(),
                    keys@.len() == out@.len(),
                    forall|k: int| 0 <= k < keys@.len() ==> #[trigger] keys@[k]@ == out@[k]@,
                    forall|k: int| 0 <= k < p ==> lex_lt(#[trigger] out@[k]@, key@),
                decreases keys.len() - p,
            {
                p += 1;
            }
            let duplicate = p < keys.len() && !lex_less(&key, &keys[p]);
            if duplicate {
                proof {
                    lemma_lex_trichotomy(out@[p as int]@, key@);
                    assert(before[p as int] == key@);
                    assert(before.contains(id@));
                }
            } else {
                proof {
                    if p < keys.len() {
                        lemma_lex_trichotomy(out@[p as int]@, key@);
                    }
                }
                out.insert(p, id.clone());
                keys.insert(p, key);
                let ghost after = views(out@);
                assert(after =~= before.insert(p as int, id@));
                assert forall|a: int, b: int| 0 <= a < b < after.len() implies lex_lt(#[trigger] after[a], #[trigger] after[b]) by {
                    if a < p && b == p {
                    } else if a == p && b > p {
                        if b - 1 > p {
                            lemma_lex_transitive(after[a], before[p as int], before[b - 1]);
                        }
                    } else if a < p && b > p {
                        assert(after[a] == before[a]);
                        assert(after[b] == before[b - 1]);
                    } else if b < p {
                        assert(after[a] == before[a] && after[b] == before[b]);
                    } else {
                        assert(after[a] == before[a - 1] && after[b] == before[b - 1]);
                    }
                }
                assert forall|x: Seq<char>|
                    #![trigger after.contains(x)]
                    #![trigger ids_v.take(i + 1).contains(x)]
                    after.contains(x) <==> (ids_v.take(i + 1).contains(x) && is_transcription_model(x)) by {
                    assert(ids_v.take(i + 1).contains(x) <==> (ids_v.take(i as int).contains(x) || x == id@));
                    assert(before.contains(x) <==> (ids_v.take(i as int).contains(x) && is_transcription_model(x)));
                    if after.contains(x) {
                        let w = choose|w: int| 0 <= w < after.len() && after[w] == x;
                        if w != p {
                            let v = if w < p { w } else { w - 1 };
                            assert(before[v] == x);
                        }
                    }
                    if before.contains(x) {
                        let w = choose|w: int| 0 <= w < before.len() && before[w] == x;
                        let v = if w < p { w } else { w + 1 };
                        assert(after[v] == x);
                    }
                    if x == id@ {
                        assert(after[p as int] == x);
                    }
                }
            }
        }
        i += 1;
    }
    assert(ids_v.take(ids.len() as int) =~= ids_v);
    assert forall|x: Seq<char>|
        views(out@).contains(x) <==> (views(ids@).contains(x)
            && is_transcription_model(x)) by {
        assert(views(out@).contains(x) <==> (ids_v.take(ids.len() as int).contains(x)
            && is_transcription_model(x)));
    }
    out
}

/// A status of success (2xx).
pub fn is_success_status(status: u16) -> (r: bool)
    ensures
        r == (200 <= status <= 299),
{
    200 <= status && status <= 299
}

/// The multipart upload of one transcription attempt: where it goes, the
/// audio part's file name and type, the text fields in order, and the
/// bearer token, if any.
pub struct UploadRequest {
    pub url: String,
    pub file_name: String,
    pub mime: String,
    pub fields: Vec<(String, String)>,
    pub bearer: Option<String>,
}

/// The text fields of an upload: the model, `response_format=json`,
/// `temperature=0` (deterministic, less hallucination in an ambiguous
/// stretch), then the language and the prompt when they are given.
pub open spec fn upload_fields(model: Seq<char>, language: Option<Seq<char>>, prompt: Option<Seq<char>>) -> Seq<
    (Seq<char>, Seq<char>),
> {
    let base = seq![("model"@, model), ("response_format"@, "json"@), ("temperature"@, "0"@)];
    let with_language = match language {
        Some(l) => base.push(("language"@, l)),
        None => base,
    };
    match prompt {
        Some(p) => with_language.push(("prompt"@, p)),
        None => with_language,
    }
}

/// The views of text fields.
pub open spec fn field_views(fields: Seq<(String, String)>) -> Seq<(Seq<char>, Seq<char>)> {
    fields.map_values(|f: (String, String)| (f.0@, f.1@))
}

fn field(name: &str, value: &String) -> (r: (String, String))
    ensures
        r.0@ == name@,
        r.1@ == value@,
{
    (name.to_owned(), value.clone())
}

/// The upload of a transcription attempt to the provider: `POST
/// {base_url}/audio/transcriptions` with the audio as `audio.flac`
/// (`audio/flac`), the fields of `upload_fields`, and the API key as bearer
/// token when the provider has one.
pub fn transcription_upload(config: &ProviderConfig, options: &TranscriptionOptions) -> (r: UploadRequest)
    ensures
        r.url@ == trim_trailing_slashes(config.base_url@) + "/audio/transcriptions"@,
        r.file_name@ == "audio.flac"@,
        r.mime@ == "audio/flac"@,
        field_views(r.fields@) == upload_fields(config.model@, opt_view(options.language), opt_view(options.prompt)),
        opt_view(r.bearer) == opt_view(config.api_key),
{
    let mut fields: Vec<(String, String)> = Vec::new();
    fields.push(field("model", &config.model));
    fields.push(("response_format".to_owned(), "json".to_owned()));
    fields.push(("temperature".to_owned(), "0".to_owned()));
    let ghost base = field_views(fields@);
    assert(base =~= seq![("model"@, config.model@), ("response_format"@, "json"@), ("temperature"@, "0"@)]);
    match &options.language {
        Some(l) => {
            fields.push(field("language", l));
        },
        None => {},
    }
    let ghost with_language = field_views(fields@);
    assert(with_language =~= match opt_view(options.language) {
        Some(l) => base.push(("language"@, l)),
        None => base,
    });
    match &options.prompt {
        Some(p) => {
            fields.push(field("prompt", p));
        },
        None => {},
    }
    assert(field_views(fields@) =~= match opt_view(options.prompt) {
        Some(p) => with_language.push(("prompt"@, p)),
        None => with_language,
    });
    let bearer = match &config.api_key {
        Some(k) => Some(k.clone()),
        None => None,
    };
    UploadRequest {
        url: transcription_endpoint(config.base_url.as_str()),
        file_name: "audio.flac".to_owned(),
        mime: "audio/flac".to_owned(),
        fields,
        bearer,
    }
}

} // verus!
