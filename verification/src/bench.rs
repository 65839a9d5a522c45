//! The command line of the transcription benchmark, and its per-sample
//! decisions.

use vstd::prelude::*;
use crate::alignment::views;
use crate::domain::{AudioClip, ProviderConfig, ProviderKind, VadOutcome};
use crate::remote::{contains_chars, contains_seq};
use crate::text::{
    chars_of, concat, find_char, find_first, lemma_replace_all_chars, lemma_replace_all_removes, parse_u64,
    replace_all,
    replace_text, spec_parse_u64,
    spec_trim, split_chars, split_on, string_from_chars, trim_chars, trim_end_chars, trim_end_ws,
};

verus! {

/// Speech below this (ms) is not worth a request: the use case's gate.
pub const MIN_SPEECH_MS: u64 = 300;
/// Default threshold of pause compression (ms), as in the app.
pub const DEFAULT_COMPRESS_OVER_MS: u64 = 2000;

/// The speech-detector variant a sample is sent through.
#[derive(Clone, Copy, PartialEq, Eq, Structural, Debug)]
pub enum Variant {
    /// No detector: the normalized clip as it is.
    SemVad,
    /// Gate and edge trim.
    Vad,
    /// Gate, edge trim and pause compression.
    VadPausas,
}

pub open spec fn variant_name(v: Variant) -> Seq<char> {
    match v {
        Variant::SemVad => "sem-vad"@,
        Variant::Vad => "vad"@,
        Variant::VadPausas => "vad+pausas"@,
    }
}

/// The variant with this name.
pub open spec fn variant_named(s: Seq<char>) -> Option<Variant> {
    if s == "sem-vad"@ {
        Some(Variant::SemVad)
    } else if s == "vad"@ {
        Some(Variant::Vad)
    } else if s == "vad+pausas"@ {
        Some(Variant::VadPausas)
    } else {
        None
    }
}

pub open spec fn all_variants() -> Seq<Variant> {
    seq![Variant::SemVad, Variant::Vad, Variant::VadPausas]
}

fn same_text(a: &str, b: &str) -> (r: bool)
    ensures
        r == (a@ == b@),
{
    a.to_owned() == b.to_owned()
}

impl Variant {
    pub fn name(self) -> (r: &'static str)
        ensures
            r@ == variant_name(self),
    {
        match self {
            Variant::SemVad => "sem-vad",
            Variant::Vad => "vad",
            Variant::VadPausas => "vad+pausas",
        }
    }

    pub fn parse(s: &str) -> (r: Option<Variant>)
        ensures
            r == variant_named(s@),
    {
        if same_text(s, "sem-vad") {
            Some(Variant::SemVad)
        } else if same_text(s, "vad") {
            Some(Variant::Vad)
        } else if same_text(s, "vad+pausas") {
            Some(Variant::VadPausas)
        } else {
            None
        }
    }
}

/// The names of a list, as the flags take them: separated by commas,
/// trimmed, empty ones dropped.
pub open spec fn kept_items(pieces: Seq<Seq<char>>) -> Seq<Seq<char>>
    decreases pieces.len(),
{
    if pieces.len() == 0 {
        Seq::empty()
    } else {
        let prev = kept_items(pieces.drop_last());
        let t = spec_trim(pieces.last());
        if t.len() > 0 { prev.push(t) } else { prev }
    }
}

pub open spec fn list_items(v: Seq<char>) -> Seq<Seq<char>> {
    kept_items(split_on(v, ','))
}

/// The non-empty trimmed comma-separated items of a text.
pub fn split_list(v: &str) -> (r: Vec<String>)
    ensures
        views(r@) == list_items(v@),
{
    let cs = chars_of(v);
    let pieces = split_chars(&cs, ',');
    let ghost pv = pieces@.map_values(|p: Vec<char>| p@);
    let mut out: Vec<String> = Vec::new();
    let mut k: usize = 0;
    while k < pieces.len()
        invariant
            k <= pieces.len(),
            pv == pieces@.map_values(|p: Vec<char>| p@),
            views(out@) == kept_items(pv.take(k as int)),
        decreases pieces.len() - k,
    {
        assert(pv.take(k + 1).drop_last() =~= pv.take(k as int));
        let t = trim_chars(&pieces[k]);
        if t.len() > 0 {
            out.push(string_from_chars(t.as_slice()));
        }
        k += 1;
        assert(views(out@) =~= kept_items(pv.take(k as int)));
    }
    assert(pv.take(pieces.len() as int) =~= pv);
    out
}

/// The variants named by a list, in order, without repetition; the first
/// unknown name is an error.
pub open spec fn parse_variants(items: Seq<Seq<char>>) -> Result<Seq<Variant>, Seq<char>>
    decreases items.len(),
{
    if items.len() == 0 {
        Ok(Seq::empty())
    } else {
        match parse_variants(items.drop_last()) {
            Err(e) => Err(e),
            Ok(vs) => match variant_named(items.last()) {
                None => Err("unknown variant: "@ + items.last() + " (use sem-vad, vad, vad+pausas)"@),
                Some(v) => Ok(if vs.contains(v) { vs } else { vs.push(v) }),
            },
        }
    }
}

/// The benchmark's options.
pub struct Args {
    /// `None`: every sample of the manifest.
    pub samples: Option<Vec<String>>,
    pub variants: Vec<Variant>,
    pub compress_over_ms: u64,
    pub quiet: bool,
}

/// The options, as values.
pub struct ArgsView {
    pub samples: Option<Seq<Seq<char>>>,
    pub variants: Seq<Variant>,
    pub compress_over_ms: u64,
    pub quiet: bool,
}

impl Args {
    pub open spec fn view(self) -> ArgsView {
        ArgsView {
            samples: match self.samples {
                Some(s) => Some(views(s@)),
                None => None,
            },
            variants: self.variants@,
            compress_over_ms: self.compress_over_ms,
            quiet: self.quiet,
        }
    }
}

pub open spec fn default_args() -> ArgsView {
    ArgsView { samples: None, variants: all_variants(), compress_over_ms: DEFAULT_COMPRESS_OVER_MS, quiet: false }
}

/// The flag of an argument: what precedes the first `=`, or all of it.
pub open spec fn flag_part(arg: Seq<char>) -> Seq<char> {
    match find_first(arg, '=') {
        Some(p) => arg.take(p),
        None => arg,
    }
}

/// The value given inline after the first `=`, if any.
pub open spec fn inline_part(arg: Seq<char>) -> Option<Seq<char>> {
    match find_first(arg, '=') {
        Some(p) => Some(arg.skip(p + 1)),
        None => None,
    }
}

pub open spec fn takes_value(flag: Seq<char>) -> bool {
    flag == "--samples"@ || flag == "--variants"@ || flag == "--compress-over-ms"@
}

/// The options with a flag's value applied.
pub open spec fn apply_value(flag: Seq<char>, v: Seq<char>, st: ArgsView) -> Result<ArgsView, Seq<char>> {
    if flag == "--samples"@ {
        Ok(ArgsView { samples: Some(list_items(v)), ..st })
    } else if flag == "--variants"@ {
        match parse_variants(list_items(v)) {
            Err(e) => Err(e),
            Ok(vs) => if vs.len() == 0 {
                Err("--variants requires at least one variant"@)
            } else {
                Ok(ArgsView { variants: vs, ..st })
            },
        }
    } else {
        match spec_parse_u64(v) {
            None => Err("--compress-over-ms requires an integer in ms, got: "@ + v),
            Some(n) => Ok(ArgsView { compress_over_ms: n, ..st }),
        }
    }
}

/// The command line from argument `i` on, with options `st` so far.
/// `Ok(None)`: help was asked for. A flag takes its value after `=` or as
/// the next argument.
pub open spec fn parse_from(argv: Seq<Seq<char>>, i: int, st: ArgsView) -> Result<Option<ArgsView>, Seq<char>>
    decreases argv.len() - i,
{
    if i < 0 || i >= argv.len() {
        Ok(Some(st))
    } else {
        let arg = argv[i];
        let flag = flag_part(arg);
        if flag == "--help"@ || flag == "-h"@ {
            Ok(None)
        } else if flag == "--quiet"@ {
            parse_from(argv, i + 1, ArgsView { quiet: true, ..st })
        } else if takes_value(flag) {
            let next = if inline_part(arg) is Some { i } else { i + 1 };
            let value = match inline_part(arg) {
                Some(v) => Some(v),
                None => if i + 1 < argv.len() { Some(argv[i + 1]) } else { None },
            };
            match value {
                None => Err(flag + " requires a value (see --help)"@),
                Some(v) => match apply_value(flag, v, st) {
                    Err(e) => Err(e),
                    Ok(st2) => parse_from(argv, next + 1, st2),
                },
            }
        } else {
            Err("unknown flag: "@ + flag + " (see --help)"@)
        }
    }
}

/// The command line's options: `Ok(None)` when help was asked for.
pub open spec fn spec_parse_args(argv: Seq<Seq<char>>) -> Result<Option<ArgsView>, Seq<char>> {
    parse_from(argv, 0, default_args())
}


fn sub_string(cs: &Vec<char>, a: usize, b: usize) -> (r: String)
    requires
        a <= b <= cs.len(),
    ensures
        r@ == cs@.subrange(a as int, b as int),
{
    let mut out: Vec<char> = Vec::new();
    let mut k: usize = a;
    while k < b
        invariant
            a <= k <= b,
            b <= cs.len(),
            out@ == cs@.subrange(a as int, k as int),
        decreases b - k,
    {
        out.push(cs[k]);
        k += 1;
        assert(out@ =~= cs@.subrange(a as int, k as int));
    }
    string_from_chars(out.as_slice())
}

fn contains_variant(vs: &Vec<Variant>, v: Variant) -> (r: bool)
    ensures
        r == vs@.contains(v),
{
    let mut k: usize = 0;
    while k < vs.len()
        invariant
            k <= vs.len(),
            forall|x: int| 0 <= x < k ==> vs@[x] != v,
        decreases vs.len() - k,
    {
        if vs[k] == v {
            assert(vs@[k as int] == v);
            return true;
        }
        k += 1;
    }
    false
}

/// The variants named by the items (see `parse_variants`).
pub fn parse_variant_list(items: &Vec<String>) -> (r: Result<Vec<Variant>, String>)
    ensures
        match r {
            Ok(vs) => parse_variants(views(items@)) == Ok::<Seq<Variant>, Seq<char>>(vs@),
            Err(e) => parse_variants(views(items@)) == Err::<Seq<Variant>, Seq<char>>(e@),
        },
{
    let ghost iv = views(items@);
    let mut vs: Vec<Variant> = Vec::new();
    let mut k: usize = 0;
    while k < items.len()
        invariant
            k <= items.len(),
            iv == views(items@),
            parse_variants(iv.take(k as int)) == Ok::<Seq<Variant>, Seq<char>>(vs@),
        decreases items.len() - k,
    {
        assert(iv.take(k + 1).drop_last() =~= iv.take(k as int));
        assert(iv.take(k + 1).last() == items@[k as int]@);
        match Variant::parse(items[k].as_str()) {
            None => {
                let a = concat("unknown variant: ", items[k].as_str());
                let e = concat(a.as_str(), " (use sem-vad, vad, vad+pausas)");
                proof {
                    lemma_parse_variants_err_stays(iv, (k + 1) as int);
                }
                return Err(e);
            },
            Some(v) => {
                if !contains_variant(&vs, v) {
                    vs.push(v);
                }
            },
        }
        k += 1;
    }
    assert(iv.take(items.len() as int) =~= iv);
    Ok(vs)
}

/// An error in the first `k` items is the error of the whole list.
proof fn lemma_parse_variants_err_stays(items: Seq<Seq<char>>, k: int)
    requires
        0 <= k <= items.len(),
        parse_variants(items.take(k)) is Err,
    ensures
        parse_variants(items) == parse_variants(items.take(k)),
    decreases items.len(),
{
    if k < items.len() {
        assert(items.drop_last().take(k) =~= items.take(k));
        lemma_parse_variants_err_stays(items.drop_last(), k);
    } else {
        assert(items.take(k) =~= items);
    }
}

fn apply_flag_value(flag: &str, v: &str, args: &mut Args) -> (r: Result<(), String>)
    requires
        takes_value(flag@),
    ensures
        match apply_value(flag@, v@, old(args).view()) {
            Ok(st) => r is Ok && final(args).view() == st,
            Err(e) => r matches Err(m) && m@ == e,
        },
{
    if same_text(flag, "--samples") {
        args.samples = Some(split_list(v));
        Ok(())
    } else if same_text(flag, "--variants") {
        let items = split_list(v);
        match parse_variant_list(&items) {
            Err(e) => Err(e),
            Ok(vs) => {
                if vs.len() == 0 {
                    Err("--variants requires at least one variant".to_owned())
                } else {
                    args.variants = vs;
                    Ok(())
                }
            },
        }
    } else {
        match parse_u64(v) {
            None => Err(concat("--compress-over-ms requires an integer in ms, got: ", v)),
            Some(n) => {
                args.compress_over_ms = n;
                Ok(())
            },
        }
    }
}

/// Parses the benchmark's arguments (`--samples a,b`, `--variants a,b`,
/// `--compress-over-ms N`, `--quiet`, `--help`); a flag's value comes after
/// `=` or as the next argument. `Ok(None)`: `--help` (or `-h`) was given.
pub fn parse_args(argv: &[String]) -> (r: Result<Option<Args>, String>)
    ensures
        match r {
            Ok(None) => spec_parse_args(views(argv@)) == Ok::<Option<ArgsView>, Seq<char>>(None),
            Ok(Some(a)) => spec_parse_args(views(argv@)) == Ok::<Option<ArgsView>, Seq<char>>(Some(a.view())),
            Err(e) => spec_parse_args(views(argv@)) == Err::<Option<ArgsView>, Seq<char>>(e@),
        },
{
    let ghost av = views(argv@);
    let mut variants: Vec<Variant> = Vec::new();
    variants.push(Variant::SemVad);
    variants.push(Variant::Vad);
    variants.push(Variant::VadPausas);
    let mut args = Args { samples: None, variants, compress_over_ms: DEFAULT_COMPRESS_OVER_MS, quiet: false };
    assert(args.view().variants =~= all_variants());
    let mut i: usize = 0;
    while i < argv.len()
        invariant
            i <= argv.len(),
            av == views(argv@),
            spec_parse_args(av) == parse_from(av, i as int, args.view()),
        decreases argv.len() - i,
    {
        let arg = &argv[i];
        assert(av[i as int] == arg@);
        let cs = chars_of(arg.as_str());
        let (flag, inline) = match find_char(&cs, '=') {
            Some(p) => (sub_string(&cs, 0, p), Some(sub_string(&cs, p + 1, cs.len()))),
            None => (arg.clone(), None),
        };
        assert(flag@ == flag_part(arg@)) by {
            if find_first(arg@, '=') is None {
            } else {
                assert(cs@.subrange(0, find_first(arg@, '=')->0) =~= arg@.take(find_first(arg@, '=')->0));
            }
        }
        assert(match inline { Some(x) => inline_part(arg@) == Some(x@), None => inline_part(arg@) is None }) by {
            if find_first(arg@, '=') is Some {
                let p = find_first(arg@, '=')->0;
                assert(cs@.subrange(p + 1, cs@.len() as int) =~= arg@.skip(p + 1));
            }
        }
        if same_text(flag.as_str(), "--help") || same_text(flag.as_str(), "-h") {
            return Ok(None);
        } else if same_text(flag.as_str(), "--quiet") {
            args.quiet = true;
        } else if same_text(flag.as_str(), "--samples") || same_text(flag.as_str(), "--variants")
            || same_text(flag.as_str(), "--compress-over-ms") {
            let v = match inline {
                Some(v) => v,
                None => {
                    i += 1;
                    if i < argv.len() {
                        assert(av[i as int] == argv@[i as int]@);
                        argv[i].clone()
                    } else {
                        return Err(concat(flag.as_str(), " requires a value (see --help)"));
                    }
                },
            };
            match apply_flag_value(flag.as_str(), v.as_str(), &mut args) {
                Err(e) => {
                    return Err(e);
                },
                Ok(()) => {},
            }
        } else {
            let a = concat("unknown flag: ", flag.as_str());
            return Err(concat(a.as_str(), " (see --help)"));
        }
        i += 1;
    }
    Ok(Some(args))
}


/// The speech-detector setting of a variant: `None` when the variant skips
/// the detector, else the pause-compression threshold to use (`None`: no
/// compression).
pub fn variant_detector(variant: Variant, compress_over_ms: u64) -> (r: Option<Option<u64>>)
    ensures
        r == match variant {
            Variant::SemVad => None,
            Variant::Vad => Some(None),
            Variant::VadPausas => Some(Some(compress_over_ms)),
        },
{
    match variant {
        Variant::SemVad => None,
        Variant::Vad => Some(None),
        Variant::VadPausas => Some(Some(compress_over_ms)),
    }
}

/// The clip to send after the speech detector, or `None` when it is not
/// worth a request: no speech, or less than 300 ms of it.
pub fn gated_clip(outcome: VadOutcome) -> (r: Option<AudioClip>)
    ensures
        match outcome {
            VadOutcome::NoSpeech => r is None,
            VadOutcome::Speech { clip, speech_ms } => if speech_ms < MIN_SPEECH_MS {
                r is None
            } else {
                r == Some(clip)
            },
        },
{
    match outcome {
        VadOutcome::NoSpeech => None,
        VadOutcome::Speech { clip, speech_ms } => {
            if speech_ms < MIN_SPEECH_MS {
                None
            } else {
                Some(clip)
            }
        },
    }
}

/// Longest error summary (characters) before it is cut.
pub const MAX_SUMMARY_CHARS: usize = 60;

/// Line breaks replaced by spaces.
pub open spec fn one_line(s: Seq<char>) -> Seq<char> {
    s.map_values(|c: char| if c == '\n' || c == '\r' { ' ' } else { c })
}

/// The summary of an error message for the results table: one line, the
/// API key (when given and not empty) replaced by `***`, cut at 60
/// characters with an ellipsis.
pub open spec fn spec_error_summary(message: Seq<char>, api_key: Option<Seq<char>>) -> Seq<char> {
    let a = one_line(message);
    let b = match api_key {
        Some(k) => if k.len() > 0 { replace_all(a, k, "***"@) } else { a },
        None => a,
    };
    if b.len() > 60 { b.take(60) + "\u{2026}"@ } else { b }
}

/// The API key never shows in an error summary: a key that is not empty and
/// holds neither `*` (the mask) nor `…` (the cut mark) occurs in no summary.
pub proof fn lemma_error_summary_hides_key(message: Seq<char>, key: Seq<char>)
    requires
        key.len() > 0,
        !key.contains('*'),
        !key.contains('\u{2026}'),
    ensures
        !contains_seq(spec_error_summary(message, Some(key)), key),
{
    reveal_strlit("***");
    reveal_strlit("\u{2026}");
    let mask = "***"@;
    let a = one_line(message);
    let b = replace_all(a, key, mask);
    let n = key.len() as int;
    assert forall|j: int| 0 <= j < mask.len() implies !key.contains(#[trigger] mask[j]) by {
        assert(mask[j] == '*');
    }
    assert forall|i: int| 0 <= i && i + n <= b.len() implies #[trigger] b.subrange(i, i + n) != key by {
        lemma_replace_all_removes(a, key, mask, i);
    }
    let out = spec_error_summary(message, Some(key));
    if b.len() > 60 {
        assert(out == b.take(60) + "\u{2026}"@);
        assert forall|i: int| 0 <= i && i + n <= out.len() implies #[trigger] out.subrange(i, i + n) != key by {
            if i + n <= 60 {
                assert(out.subrange(i, i + n) =~= b.subrange(i, i + n));
            } else if out.subrange(i, i + n) == key {
                assert(out[60] == '\u{2026}');
                assert(key[60 - i] == out.subrange(i, i + n)[60 - i]);
                assert(key.contains('\u{2026}'));
            }
        }
    }
}

/// An error summary is one line: it holds no line break, whatever the
/// message and the key.
pub proof fn lemma_error_summary_is_one_line(message: Seq<char>, api_key: Option<Seq<char>>)
    ensures
        !spec_error_summary(message, api_key).contains('\n'),
        !spec_error_summary(message, api_key).contains('\r'),
        spec_error_summary(message, api_key).len() <= 61,
{
    reveal_strlit("***");
    reveal_strlit("\u{2026}");
    let a = one_line(message);
    assert(!a.contains('\n') && !a.contains('\r'));
    assert(!"***"@.contains('\n') && !"***"@.contains('\r'));
    let b = match api_key {
        Some(k) => if k.len() > 0 { replace_all(a, k, "***"@) } else { a },
        None => a,
    };
    if let Some(k) = api_key {
        lemma_replace_all_chars(a, k, "***"@, '\n');
        lemma_replace_all_chars(a, k, "***"@, '\r');
    }
    let out = spec_error_summary(message, api_key);
    if b.len() > 60 {
        assert(out == b.take(60) + "\u{2026}"@);
        assert forall|j: int| 0 <= j < out.len() implies out[j] != '\n' && out[j] != '\r' by {
            if j < 60 {
                assert(out[j] == b[j]);
            }
        }
    }
}

/// A short, safe summary of an error's message (see `spec_error_summary`).
pub fn error_summary(message: &str, api_key: Option<&str>) -> (r: String)
    ensures
        r@ == spec_error_summary(message@, match api_key { Some(k) => Some(k@), None => None }),
{
    let cs = chars_of(message);
    let mut line: Vec<char> = Vec::new();
    let mut i: usize = 0;
    while i < cs.len()
        invariant
            i <= cs.len(),
            line@ == one_line(cs@.take(i as int)),
        decreases cs.len() - i,
    {
        let c = cs[i];
        line.push(if c == '\n' || c == '\r' { ' ' } else { c });
        i += 1;
        assert(line@ =~= one_line(cs@.take(i as int)));
    }
    assert(cs@.take(cs.len() as int) =~= cs@);
    let mut msg = string_from_chars(line.as_slice());
    if let Some(key) = api_key {
        if !key.is_empty() {
            msg = replace_text(msg.as_str(), key, "***");
        }
    }
    let mc = chars_of(msg.as_str());
    if mc.len() > MAX_SUMMARY_CHARS {
        let mut head: Vec<char> = Vec::new();
        let mut k: usize = 0;
        while k < MAX_SUMMARY_CHARS
            invariant
                k <= MAX_SUMMARY_CHARS,
                MAX_SUMMARY_CHARS < mc.len(),
                head@ == mc@.take(k as int),
            decreases MAX_SUMMARY_CHARS - k,
        {
            head.push(mc[k]);
            k += 1;
            assert(head@ =~= mc@.take(k as int));
        }
        let h = string_from_chars(head.as_slice());
        concat(h.as_str(), "\u{2026}")
    } else {
        msg
    }
}

/// The error when neither the settings nor the overrides give a provider.
pub const NO_PROVIDER_MESSAGE: &'static str = "no active provider in settings.json and incomplete overrides \u{2014} set WREN_BENCH_BASE_URL and WREN_BENCH_MODEL (and, if needed, WREN_BENCH_API_KEY)";

/// The provider the benchmark uses: the active one from the settings, with
/// each override (base URL, model, API key) replacing its field. Without an
/// active provider, the base URL and model overrides must both be given; the
/// provider built from them is a remote API that sends audio out unless the
/// URL points at `localhost` or `127.0.0.1`.
pub fn provider_with_overrides(
    active: Option<ProviderConfig>,
    base_url: Option<String>,
    model: Option<String>,
    api_key: Option<String>,
) -> (r: Result<ProviderConfig, String>)
    ensures
        match r {
            Ok(p) => {
                &&& match base_url {
                    Some(b) => p.base_url@ == b@,
                    None => active matches Some(a) && p.base_url == a.base_url,
                }
                &&& match model {
                    Some(m) => p.model@ == m@,
                    None => active matches Some(a) && p.model == a.model,
                }
                &&& match api_key {
                    Some(k) => p.api_key == Some(k),
                    None => p.api_key == match active {
                        Some(a) => a.api_key,
                        None => None,
                    },
                }
                &&& match active {
                    Some(a) => p.id == a.id && p.label == a.label && p.kind == a.kind
                        && p.sends_audio_externally == a.sends_audio_externally,
                    None => p.id@ == "bench-env"@ && p.label@ == "Env override"@ && p.kind
                        == ProviderKind::RemoteApi && p.sends_audio_externally == !(contains_seq(
                        p.base_url@,
                        "localhost"@,
                    ) || contains_seq(p.base_url@, "127.0.0.1"@)),
                }
            },
            Err(e) => active is None && (base_url is None || model is None) && e@ == NO_PROVIDER_MESSAGE@,
        },
{
    let mut provider = match active {
        Some(p) => p,
        None => {
            match (&base_url, &model) {
                (Some(bu), Some(m)) => {
                    let bc = chars_of(bu.as_str());
                    let local = contains_chars(&bc, &chars_of("localhost")) || contains_chars(
                        &bc,
                        &chars_of("127.0.0.1"),
                    );
                    ProviderConfig {
                        id: "bench-env".to_owned(),
                        label: "Env override".to_owned(),
                        kind: ProviderKind::RemoteApi,
                        base_url: bu.clone(),
                        api_key: None,
                        model: m.clone(),
                        sends_audio_externally: !local,
                    }
                },
                _ => {
                    return Err(NO_PROVIDER_MESSAGE.to_owned());
                },
            }
        },
    };
    if let Some(bu) = base_url {
        provider.base_url = bu;
    }
    if let Some(m) = model {
        provider.model = m;
    }
    if let Some(k) = api_key {
        provider.api_key = Some(k);
    }
    Ok(provider)
}

/// The error when a requested sample is not in the manifest.
pub open spec fn unknown_sample_message(id: Seq<char>) -> Seq<char> {
    "unknown sample in manifest: "@ + id
}

/// Index of the first requested id that the manifest lacks.
pub open spec fn first_unknown(manifest: Seq<Seq<char>>, wanted: Seq<Seq<char>>) -> Option<int> {
    if exists|w: int| 0 <= w < wanted.len() && !manifest.contains(#[trigger] wanted[w]) {
        Some(choose|w: int| 0 <= w < wanted.len() && !manifest.contains(#[trigger] wanted[w])
            && forall|v: int| 0 <= v < w ==> manifest.contains(#[trigger] wanted[v]))
    } else {
        None
    }
}

/// The manifest positions of the samples to run, in manifest order: all of
/// them, or those whose id was requested.
pub open spec fn selected_positions(manifest: Seq<Seq<char>>, wanted: Option<Seq<Seq<char>>>) -> Seq<usize> {
    Seq::new(manifest.len(), |k: int| k as usize).filter(
        |k: usize| match wanted {
            None => true,
            Some(w) => w.contains(manifest[k as int]),
        },
    )
}

/// Which samples of the manifest a run takes (`manifest`: the sample ids in
/// manifest order; `wanted`: the ids asked for, or `None` for all). A
/// requested id missing from the manifest is an error naming the first such
/// id; a selection that leaves nothing is `no samples to run`.
pub fn select_samples(manifest: &Vec<String>, wanted: Option<&Vec<String>>) -> (r: Result<Vec<usize>, String>)
    ensures
        match r {
            Ok(ks) => {
                &&& ks@ == selected_positions(views(manifest@), match wanted { Some(w) => Some(views(w@)), None => None })
                &&& ks@.len() > 0
                &&& match wanted { Some(w) => first_unknown(views(manifest@), views(w@)) is None, None => true }
            },
            Err(e) => match wanted {
                Some(w) => match first_unknown(views(manifest@), views(w@)) {
                    Some(u) => e@ == unknown_sample_message(views(w@)[u]),
                    None => e@ == "no samples to run"@ && selected_positions(views(manifest@), Some(views(w@))).len() == 0,
                },
                None => e@ == "no samples to run"@ && manifest@.len() == 0,
            },
        },
{
    let ghost mv = views(manifest@);
    if let Some(ids) = wanted {
        let ghost iv = views(ids@);
        let mut w: usize = 0;
        while w < ids.len()
            invariant
                w <= ids.len(),
                wanted == Some(ids),
                mv == views(manifest@),
                iv == views(ids@),
                forall|v: int| 0 <= v < w ==> mv.contains(#[trigger] iv[v]),
            decreases ids.len() - w,
        {
            let mut found = false;
            let mut k: usize = 0;
            while k < manifest.len()
                invariant
                    k <= manifest.len(),
                    w < ids.len(),
                    mv == views(manifest@),
                    iv == views(ids@),
                    found ==> mv.contains(iv[w as int]),
                    !found ==> forall|x: int| 0 <= x < k ==> mv[x] != iv[w as int],
                decreases manifest.len() - k,
            {
                assert(mv[k as int] == manifest@[k as int]@);
                assert(iv[w as int] == ids@[w as int]@);
                if manifest[k] == ids[w] {
                    found = true;
                }
                k += 1;
            }
            if !found {
                proof {
                    let u = w as int;
                    assert(!mv.contains(iv[u]));
                    assert(0 <= u < iv.len() && !mv.contains(iv[u]) && forall|v: int|
                        0 <= v < u ==> mv.contains(#[trigger] iv[v]));
                    assert(exists|x: int| 0 <= x < iv.len() && !mv.contains(#[trigger] iv[x]));
                    assert(exists|x: int| 0 <= x < iv.len() && !mv.contains(#[trigger] iv[x]) && forall|v: int|
                        0 <= v < x ==> mv.contains(#[trigger] iv[v]));
                    let c = first_unknown(mv, iv)->0;
                    assert(0 <= c < iv.len() && !mv.contains(iv[c]) && forall|v: int|
                        0 <= v < c ==> mv.contains(#[trigger] iv[v]));
                    assert(c == u) by {
                        if c < u {
                            assert(mv.contains(iv[c]));
                        } else if c > u {
                            assert(mv.contains(iv[u]));
                        }
                    }
                    assert(iv[u] == ids@[u]@);
                }
                let msg = concat("unknown sample in manifest: ", ids[w].as_str());
                return Err(msg);
            }
            w += 1;
        }
        assert(first_unknown(mv, iv) is None);
    }
    let ghost wv = match wanted { Some(w) => Some(views(w@)), None => None };
    let ghost all = Seq::new(manifest@.len(), |k: int| k as usize);
    let ghost keep = |k: usize| match wv {
        None => true,
        Some(w) => w.contains(mv[k as int]),
    };
    let mut out: Vec<usize> = Vec::new();
    let mut k: usize = 0;
    while k < manifest.len()
        invariant
            k <= manifest.len(),
            mv == views(manifest@),
            all == Seq::new(manifest@.len(), |k: int| k as usize),
            out@ == all.take(k as int).filter(keep),
            wanted is None ==> out@.len() == k,
            wv == match wanted { Some(w) => Some(views(w@)), None => None },
            keep == (|k: usize| match wv {
                None => true,
                Some(w) => w.contains(mv[k as int]),
            }),
        decreases manifest.len() - k,
    {
        let take = match wanted {
            None => true,
            Some(ids) => {
                let ghost iv = views(ids@);
                let mut hit = false;
                let mut j: usize = 0;
                while j < ids.len()
                    invariant
                        j <= ids.len(),
                        k < manifest.len(),
                        mv == views(manifest@),
                        iv == views(ids@),
                        hit == exists|x: int| 0 <= x < j && iv[x] == mv[k as int],
                    decreases ids.len() - j,
                {
                    assert(mv[k as int] == manifest@[k as int]@);
                    assert(iv[j as int] == ids@[j as int]@);
                    if ids[j] == manifest[k] {
                        hit = true;
                    }
                    j += 1;
                }
                assert(hit == iv.contains(mv[k as int]));
                hit
            },
        };
        assert(take == keep(k as usize));
        if take {
            out.push(k);
        }
        k += 1;
        proof {
            reveal(Seq::filter);
            assert(all.take(k as int).drop_last() =~= all.take(k - 1));
            assert(all.take(k as int).last() == all[k - 1]);
        }
    }
    assert(all.take(manifest.len() as int) =~= all);
    if out.len() == 0 {
        return Err("no samples to run".to_owned());
    }
    Ok(out)
}

/// Width of column `c` of a table: its longest cell, in characters.
pub open spec fn column_width(rows: Seq<Vec<String>>, c: int) -> nat
    decreases rows.len(),
{
    if rows.len() == 0 {
        0
    } else {
        let w = column_width(rows.drop_last(), c);
        let l = rows.last()@[c]@.len();
        if l > w { l } else { w }
    }
}

/// The width of each of the `columns` columns of a table (header included).
pub fn column_widths(rows: &Vec<Vec<String>>, columns: usize) -> (r: Vec<usize>)
    requires
        forall|k: int| 0 <= k < rows@.len() ==> #[trigger] rows@[k]@.len() == columns,
    ensures
        r@.len() == columns,
        forall|c: int| 0 <= c < columns ==> #[trigger] r@[c] as nat == column_width(rows@, c),
{
    let mut widths: Vec<usize> = Vec::new();
    let mut c: usize = 0;
    while c < columns
        invariant
            c <= columns,
            widths@.len() == c,
            forall|k: int| 0 <= k < rows@.len() ==> #[trigger] rows@[k]@.len() == columns,
            forall|x: int| 0 <= x < c ==> #[trigger] widths@[x] as nat == column_width(rows@, x),
        decreases columns - c,
    {
        let mut w: usize = 0;
        let mut k: usize = 0;
        while k < rows.len()
            invariant
                k <= rows.len(),
                c < columns,
                forall|q: int| 0 <= q < rows@.len() ==> #[trigger] rows@[q]@.len() == columns,
                w as nat == column_width(rows@.take(k as int), c as int),
            decreases rows.len() - k,
        {
            let l = rows[k][c].as_str().unicode_len();
            assert(rows@.take(k + 1).drop_last() =~= rows@.take(k as int));
            if l > w {
                w = l;
            }
            k += 1;
        }
        assert(rows@.take(rows.len() as int) =~= rows@);
        widths.push(w);
        c += 1;
    }
    widths
}

/// A cell padded with spaces to `width`: on the right when it is
/// left-aligned, on the left otherwise.
pub open spec fn padded_cell(cell: Seq<char>, width: nat, left: bool) -> Seq<char> {
    let pad = Seq::new((width - cell.len()) as nat, |i: int| ' ');
    if left { cell + pad } else { pad + cell }
}

/// The first `n` cells of a row, padded to their widths and separated by
/// two spaces; the first two columns (sample and variant) are left-aligned,
/// the metrics right-aligned.
pub open spec fn row_text(cells: Seq<Seq<char>>, widths: Seq<usize>, n: int) -> Seq<char>
    decreases n,
{
    if n <= 0 {
        Seq::empty()
    } else {
        let sep = if n - 1 > 0 { "  "@ } else { Seq::empty() };
        row_text(cells, widths, n - 1) + sep + padded_cell(cells[n - 1], widths[n - 1] as nat, n - 1 < 2)
    }
}

fn spaces(n: usize) -> (r: Vec<char>)
    ensures
        r@ == Seq::new(n as nat, |i: int| ' '),
{
    let mut out: Vec<char> = Vec::new();
    while out.len() < n
        invariant
            out@.len() <= n,
            forall|i: int| 0 <= i < out@.len() ==> out@[i] == ' ',
        decreases n - out.len(),
    {
        out.push(' ');
    }
    assert(out@ =~= Seq::new(n as nat, |i: int| ' '));
    out
}

/// One line of the results table (see `row_text`), without trailing
/// whitespace.
pub fn table_line(cells: &Vec<String>, widths: &Vec<usize>) -> (r: String)
    requires
        cells@.len() == widths@.len(),
        forall|k: int| 0 <= k < cells@.len() ==> #[trigger] cells@[k]@.len() <= widths@[k],
    ensures
        r@ == trim_end_ws(row_text(views(cells@), widths@, cells@.len() as int)),
{
    let ghost cv = views(cells@);
    let mut out: Vec<char> = Vec::new();
    let mut i: usize = 0;
    while i < cells.len()
        invariant
            i <= cells.len(),
            cells@.len() == widths@.len(),
            cv == views(cells@),
            forall|k: int| 0 <= k < cells@.len() ==> #[trigger] cells@[k]@.len() <= widths@[k],
            out@ == row_text(cv, widths@, i as int),
        decreases cells.len() - i,
    {
        let ghost before = out@;
        if i > 0 {
            out.push(' ');
            out.push(' ');
        }
        let cell = chars_of(cells[i].as_str());
        assert(cv[i as int] == cells@[i as int]@);
        let pad = spaces(widths[i] - cell.len());
        let (first, second) = if i < 2 { (cell, pad) } else { (pad, cell) };
        let ghost mid = out@;
        let mut k: usize = 0;
        while k < first.len()
            invariant
                k <= first.len(),
                out@ == mid + first@.take(k as int),
            decreases first.len() - k,
        {
            out.push(first[k]);
            k += 1;
            assert(out@ =~= mid + first@.take(k as int));
        }
        let ghost mid2 = out@;
        let mut k: usize = 0;
        while k < second.len()
            invariant
                k <= second.len(),
                out@ == mid2 + second@.take(k as int),
            decreases second.len() - k,
        {
            out.push(second[k]);
            k += 1;
            assert(out@ =~= mid2 + second@.take(k as int));
        }
        assert(first@.take(first.len() as int) =~= first@);
        assert(second@.take(second.len() as int) =~= second@);
        proof {
            reveal_strlit("  ");
            let sep: Seq<char> = if i > 0 { "  "@ } else { Seq::empty() };
            assert(mid == before + sep);
            assert(first@ + second@ == padded_cell(cv[i as int], widths@[i as int] as nat, i < 2));
        }
        i += 1;
        assert(out@ =~= row_text(cv, widths@, i as int));
    }
    let trimmed = trim_end_chars(&out);
    string_from_chars(trimmed.as_slice())
}

/// The sum of the first `n` widths.
pub open spec fn widths_sum(widths: Seq<usize>, n: int) -> int
    decreases n,
{
    if n <= 0 { 0 } else { widths_sum(widths, n - 1) + widths[n - 1] }
}

/// The rule under the header: as many dashes as the table is wide (the
/// widths and the two-space separators).
pub fn rule_line(widths: &Vec<usize>) -> (r: String)
    requires
        widths@.len() > 0,
        widths_sum(widths@, widths@.len() as int) + 2 * (widths@.len() - 1) <= usize::MAX,
    ensures
        r@ == Seq::new((widths_sum(widths@, widths@.len() as int) + 2 * (widths@.len() - 1)) as nat, |i: int| '-'),
{
    let mut total: usize = 0;
    let mut i: usize = 0;
    while i < widths.len()
        invariant
            i <= widths.len(),
            total == widths_sum(widths@, i as int),
            widths_sum(widths@, widths@.len() as int) + 2 * (widths@.len() - 1) <= usize::MAX,
        decreases widths.len() - i,
    {
        proof {
            lemma_widths_sum_monotone(widths@, i as int + 1, widths@.len() as int);
        }
        total = total + widths[i];
        i += 1;
    }
    total = total + 2 * (widths.len() - 1);
    let mut out: Vec<char> = Vec::new();
    while out.len() < total
        invariant
            out@.len() <= total,
            forall|k: int| 0 <= k < out@.len() ==> out@[k] == '-',
        decreases total - out.len(),
    {
        out.push('-');
    }
    assert(out@ =~= Seq::new(total as nat, |k: int| '-'));
    string_from_chars(out.as_slice())
}

proof fn lemma_widths_sum_monotone(widths: Seq<usize>, a: int, b: int)
    requires
        0 <= a <= b <= widths.len(),
    ensures
        widths_sum(widths, a) <= widths_sum(widths, b),
    decreases b - a,
{
    if a < b {
        lemma_widths_sum_monotone(widths, a, b - 1);
    }
}

} // verus!
