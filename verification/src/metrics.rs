//! Metrics that compare a transcription with its reference text: word
//! distance (content), punctuation errors and capitalization mismatches.

use vstd::prelude::*;
use crate::alignment::{
    align, alignment, aligns, edit_distance, lemma_aligns_in_range,
    lemma_alignment_realizes_distance, lemma_edit_distance_zero_iff_equal, op_in_range, views, Op,
};
use crate::text::{
    chars_of, is_whitespace, lowercase, push_char, spec_is_whitespace, to_lowercase,
};

verus! {

/// Punctuation removed during normalization. It includes typographic quotes
/// and dashes; the hyphen is here too, so "guarda-chuva" is two words.
pub open spec fn spec_is_punctuation(c: char) -> bool {
    ||| c == '.' || c == ',' || c == ';' || c == ':' || c == '!' || c == '?'
    ||| c == '\u{2026}' || c == '"' || c == '\'' || c == '(' || c == ')'
    ||| c == '\u{2014}' || c == '\u{2013}' || c == '-'
    ||| c == '\u{201C}' || c == '\u{201D}' || c == '\u{2018}' || c == '\u{2019}'
    ||| c == '\u{AB}' || c == '\u{BB}'
}

pub fn is_punctuation(c: char) -> (r: bool)
    ensures
        r == spec_is_punctuation(c),
{
    c == '.' || c == ',' || c == ';' || c == ':' || c == '!' || c == '?' || c == '\u{2026}'
        || c == '"' || c == '\'' || c == '(' || c == ')' || c == '\u{2014}' || c == '\u{2013}'
        || c == '-' || c == '\u{201C}' || c == '\u{201D}' || c == '\u{2018}' || c == '\u{2019}'
        || c == '\u{AB}' || c == '\u{BB}'
}

/// The marks that the punctuation error rate evaluates.
pub open spec fn spec_is_per_mark(c: char) -> bool {
    c == '.' || c == ',' || c == '!' || c == '?'
}

fn is_per_mark(c: char) -> (r: bool)
    ensures
        r == spec_is_per_mark(c),
{
    c == '.' || c == ',' || c == '!' || c == '?'
}

/// A character that ends a word.
pub open spec fn spec_is_separator(c: char) -> bool {
    spec_is_whitespace(c) || spec_is_punctuation(c)
}

/// A word of a text as the metrics see it: its characters as written (case
/// kept, punctuation gone) and the first punctuation mark found after it,
/// before the next word.
pub struct WordSpec {
    pub original: Seq<char>,
    pub mark: Option<char>,
}

/// The state of the left-to-right scan: the words closed so far and the
/// characters of the word being read.
pub struct ScanState {
    pub words: Seq<WordSpec>,
    pub current: Seq<char>,
}

/// Closes the word being read, if any.
pub open spec fn close_word(words: Seq<WordSpec>, current: Seq<char>) -> Seq<WordSpec> {
    if current.len() > 0 {
        words.push(WordSpec { original: current, mark: None })
    } else {
        words
    }
}

/// One step of the scan. A separator closes the current word; a mark among
/// `. , ! ?` then goes to the last word, unless that word already has one.
/// A mark before the first word is dropped.
pub open spec fn scan_step(st: ScanState, c: char) -> ScanState {
    if spec_is_separator(c) {
        let words = close_word(st.words, st.current);
        let words = if spec_is_per_mark(c) && words.len() > 0 && words.last().mark is None {
            words.update(words.len() - 1, WordSpec { original: words.last().original, mark: Some(c) })
        } else {
            words
        };
        ScanState { words, current: Seq::empty() }
    } else {
        ScanState { words: st.words, current: st.current.push(c) }
    }
}

pub open spec fn scan(text: Seq<char>) -> ScanState
    decreases text.len(),
{
    if text.len() == 0 {
        ScanState { words: Seq::empty(), current: Seq::empty() }
    } else {
        scan_step(scan(text.drop_last()), text.last())
    }
}

/// The words of a text, in order.
pub open spec fn spec_words(text: Seq<char>) -> Seq<WordSpec> {
    close_word(scan(text).words, scan(text).current)
}

/// A word of a text with its normalized (lowercase) form.
pub struct Token {
    pub original: String,
    pub normalized: String,
    pub mark: Option<char>,
}

impl Token {
    pub open spec fn word(self) -> WordSpec {
        WordSpec { original: self.original@, mark: self.mark }
    }

    pub open spec fn wf(self) -> bool {
        self.normalized@ == lowercase(self.original@)
    }
}

pub open spec fn token_words(ts: Seq<Token>) -> Seq<WordSpec> {
    ts.map_values(|t: Token| t.word())
}

pub open spec fn tokens_wf(ts: Seq<Token>) -> bool {
    forall|k: int| 0 <= k < ts.len() ==> #[trigger] ts[k].wf()
}

fn new_token(original: String) -> (t: Token)
    ensures
        t.original@ == original@,
        t.mark is None,
        t.wf(),
{
    let normalized = to_lowercase(original.as_str());
    Token { original, normalized, mark: None }
}

/// Splits a text into words, keeping for each word the punctuation mark that
/// follows it (see `scan_step`).
pub fn tokenize(text: &str) -> (r: Vec<Token>)
    ensures
        token_words(r@) == spec_words(text@),
        tokens_wf(r@),
{
    let cs = chars_of(text);
    let mut tokens: Vec<Token> = Vec::new();
    let mut current = String::new();
    let mut i: usize = 0;
    while i < cs.len()
        invariant
            i <= cs.len(),
            cs@ == text@,
            token_words(tokens@) == scan(cs@.take(i as int)).words,
            current@ == scan(cs@.take(i as int)).current,
            tokens_wf(tokens@),
        decreases cs.len() - i,
    {
        let c = cs[i];
        proof {
            assert(cs@.take(i + 1).drop_last() =~= cs@.take(i as int));
        }
        if is_whitespace(c) || is_punctuation(c) {
            if !current.as_str().is_empty() {
                let word = current;
                current = String::new();
                tokens.push(new_token(word));
                assert(token_words(tokens@) =~= close_word(scan(cs@.take(i as int)).words, scan(cs@.take(i as int)).current));
            } else {
                assert(token_words(tokens@) =~= close_word(scan(cs@.take(i as int)).words, scan(cs@.take(i as int)).current));
            }
            if is_per_mark(c) && tokens.len() > 0 {
                let ghost before = tokens@;
                let last = tokens.pop().unwrap();
                assert(last == before[before.len() - 1]);
                assert(last.wf());
                if last.mark.is_none() {
                    tokens.push(Token { original: last.original, normalized: last.normalized, mark: Some(c) });
                } else {
                    tokens.push(last);
                }
                assert forall|k: int| 0 <= k < tokens@.len() implies #[trigger] tokens@[k].wf() by {
                    if k < tokens@.len() - 1 {
                        assert(tokens@[k] == before[k]);
                    }
                }
            }
            current = String::new();
        } else {
            push_char(&mut current, c);
        }
        i += 1;
        assert(token_words(tokens@) =~= scan(cs@.take(i as int)).words);
    }
    if !current.as_str().is_empty() {
        tokens.push(new_token(current));
    }
    assert(cs@.take(cs.len() as int) =~= cs@);
    assert(token_words(tokens@) =~= spec_words(text@));
    tokens
}


/// The normalized (lowercase) forms of a list of words.
pub open spec fn lowered(ws: Seq<WordSpec>) -> Seq<Seq<char>> {
    ws.map_values(|w: WordSpec| lowercase(w.original))
}

/// The normalized words of a text: lowercase, punctuation removed (accents
/// kept), split at whitespace and punctuation.
pub open spec fn normalized_words(text: Seq<char>) -> Seq<Seq<char>> {
    lowered(spec_words(text))
}

proof fn lemma_scan_len(text: Seq<char>)
    ensures
        scan(text).words.len() + (if scan(text).current.len() > 0 { 1int } else { 0 }) <= text.len(),
        scan(text).current.len() <= text.len(),
    decreases text.len(),
{
    if text.len() > 0 {
        lemma_scan_len(text.drop_last());
    }
}

/// A text has no more words than characters.
pub proof fn lemma_words_len(text: Seq<char>)
    ensures
        spec_words(text).len() <= text.len(),
{
    lemma_scan_len(text);
}

proof fn lemma_tokens_lowered(ts: Seq<Token>, ns: Seq<String>)
    requires
        tokens_wf(ts),
        ns.len() == ts.len(),
        forall|k: int| 0 <= k < ts.len() ==> #[trigger] ns[k]@ == ts[k].normalized@,
    ensures
        views(ns) == lowered(token_words(ts)),
{
    assert(views(ns) =~= lowered(token_words(ts))) by {
        assert forall|k: int| 0 <= k < ns.len() implies #[trigger] views(ns)[k] == lowered(token_words(ts))[k] by {
            assert(ts[k].wf());
        }
    }
}

fn normalized_of(tokens: &Vec<Token>) -> (r: Vec<String>)
    requires
        tokens_wf(tokens@),
    ensures
        views(r@) == lowered(token_words(tokens@)),
        r.len() == tokens.len(),
{
    let mut out: Vec<String> = Vec::new();
    let mut k: usize = 0;
    while k < tokens.len()
        invariant
            k <= tokens.len(),
            out@.len() == k,
            forall|q: int| 0 <= q < k ==> #[trigger] out@[q]@ == tokens@[q].normalized@,
        decreases tokens.len() - k,
    {
        out.push(tokens[k].normalized.clone());
        k += 1;
    }
    proof {
        lemma_tokens_lowered(tokens@, out@);
    }
    out
}

/// Normalizes a text for content comparison: lowercase, punctuation removed
/// (accents and diacritics kept), whitespace collapsed. A hyphen separates
/// words: "guarda-chuva" gives "guarda" and "chuva".
pub fn normalize_words(text: &str) -> (r: Vec<String>)
    ensures
        views(r@) == normalized_words(text@),
{
    let tokens = tokenize(text);
    normalized_of(&tokens)
}

/// Word errors of a hypothesis against a reference, and the number of
/// reference words they are divided by: the word error rate is their
/// quotient. An empty reference counts as one word, which any hypothesis
/// word gets wrong.
pub open spec fn spec_word_errors(reference: Seq<char>, hypothesis: Seq<char>) -> (nat, nat) {
    let r = normalized_words(reference);
    let h = normalized_words(hypothesis);
    if r.len() == 0 {
        (if h.len() == 0 { 0 } else { 1 }, 1)
    } else {
        (edit_distance(r, h), r.len())
    }
}

/// A hypothesis has no word error exactly when its normalized words are the
/// reference's: punctuation and case never count as errors.
pub proof fn lemma_no_word_errors_iff_same_words(reference: Seq<char>, hypothesis: Seq<char>)
    ensures
        spec_word_errors(reference, hypothesis).0 == 0 <==> normalized_words(reference) == normalized_words(
            hypothesis,
        ),
{
    let r = normalized_words(reference);
    let h = normalized_words(hypothesis);
    if r.len() == 0 {
        if h.len() == 0 {
            assert(r =~= h);
        }
    } else {
        lemma_edit_distance_zero_iff_equal(r, h);
    }
}

/// `(errors, words)`: the Levenshtein distance between the normalized words
/// of the texts and the number of reference words (see `spec_word_errors`).
/// Punctuation and case do not count.
pub fn word_errors(reference: &str, hypothesis: &str) -> (r: (usize, usize))
    requires
        reference@.len() < usize::MAX,
        hypothesis@.len() < usize::MAX,
    ensures
        (r.0 as nat, r.1 as nat) == spec_word_errors(reference@, hypothesis@),
{
    let rw = normalize_words(reference);
    let hw = normalize_words(hypothesis);
    proof {
        lemma_words_len(reference@);
        lemma_words_len(hypothesis@);
        assert(views(rw@).len() == rw@.len());
        assert(views(hw@).len() == hw@.len());
    }
    if rw.len() == 0 {
        return (if hw.len() == 0 { 0 } else { 1 }, 1);
    }
    let (dist, _) = align(rw.as_slice(), hw.as_slice());
    (dist, rw.len())
}

/// Capitalization counts along an alignment: for each pair of aligned equal
/// words, whether their written forms differ.
pub open spec fn cap_counts(rw: Seq<WordSpec>, hw: Seq<WordSpec>, ops: Seq<Op>) -> (nat, nat)
    decreases ops.len(),
{
    if ops.len() == 0 {
        (0, 0)
    } else {
        let prev = cap_counts(rw, hw, ops.drop_last());
        match ops.last() {
            Op::Equal(i, j) => (
                prev.0 + (if rw[i as int].original != hw[j as int].original { 1nat } else { 0 }),
                prev.1 + 1,
            ),
            _ => prev,
        }
    }
}

/// `(mismatches, pairs)` over the pairs of aligned words that are equal once
/// normalized: a pair is a mismatch when the words as written differ, that
/// is, in case.
pub open spec fn spec_cap_mismatches(reference: Seq<char>, hypothesis: Seq<char>) -> (nat, nat) {
    let rw = spec_words(reference);
    let hw = spec_words(hypothesis);
    cap_counts(rw, hw, alignment(lowered(rw), lowered(hw)))
}

/// Punctuation errors along an alignment: an aligned pair whose marks differ,
/// a deleted reference word that had a mark, an inserted word that has one.
pub open spec fn mark_errors(rw: Seq<WordSpec>, hw: Seq<WordSpec>, ops: Seq<Op>) -> nat
    decreases ops.len(),
{
    if ops.len() == 0 {
        0
    } else {
        let prev = mark_errors(rw, hw, ops.drop_last());
        let e: nat = match ops.last() {
            Op::Equal(i, j) => if rw[i as int].mark != hw[j as int].mark { 1 } else { 0 },
            Op::Substitution(i, j) => if rw[i as int].mark != hw[j as int].mark { 1 } else { 0 },
            Op::Deletion(i) => if rw[i as int].mark is Some { 1 } else { 0 },
            Op::Insertion(j) => if hw[j as int].mark is Some { 1 } else { 0 },
        };
        prev + e
    }
}

/// Number of words that carry a mark.
pub open spec fn count_marks(ws: Seq<WordSpec>) -> nat
    decreases ws.len(),
{
    if ws.len() == 0 {
        0
    } else {
        count_marks(ws.drop_last()) + (if ws.last().mark is Some { 1nat } else { 0 })
    }
}

/// `Some((errors, marks))`: punctuation errors and the number of marks in
/// the reference, whose quotient is the punctuation error rate; `None` when
/// the reference has no mark.
pub open spec fn spec_punctuation_errors(reference: Seq<char>, hypothesis: Seq<char>) -> Option<(nat, nat)> {
    let rw = spec_words(reference);
    let hw = spec_words(hypothesis);
    if count_marks(rw) == 0 {
        None
    } else {
        Some((mark_errors(rw, hw, alignment(lowered(rw), lowered(hw))), count_marks(rw)))
    }
}

fn same_mark(x: Option<char>, y: Option<char>) -> (r: bool)
    ensures
        r == (x == y),
{
    match (x, y) {
        (Some(p), Some(q)) => p == q,
        (None, None) => true,
        _ => false,
    }
}

/// The tokens of both texts, their normalized words and the alignment of
/// those words.
fn aligned_tokens(reference: &str, hypothesis: &str) -> (r: (Vec<Token>, Vec<Token>, Vec<Op>))
    requires
        reference@.len() < usize::MAX,
        hypothesis@.len() < usize::MAX,
    ensures
        token_words(r.0@) == spec_words(reference@),
        token_words(r.1@) == spec_words(hypothesis@),
        r.2@ == alignment(lowered(spec_words(reference@)), lowered(spec_words(hypothesis@))),
        forall|k: int| 0 <= k < r.2@.len() ==> op_in_range(#[trigger] r.2@[k], r.0@.len() as int, r.1@.len() as int),
{
    let rt = tokenize(reference);
    let ht = tokenize(hypothesis);
    let rw = normalized_of(&rt);
    let hw = normalized_of(&ht);
    proof {
        lemma_words_len(reference@);
        lemma_words_len(hypothesis@);
        assert(token_words(rt@).len() == rt@.len());
        assert(token_words(ht@).len() == ht@.len());
        lemma_alignment_realizes_distance(views(rw@), views(hw@));
        lemma_aligns_in_range(views(rw@), views(hw@), alignment(views(rw@), views(hw@)), rw@.len() as int, hw@.len() as int);
    }
    let (_, ops) = align(rw.as_slice(), hw.as_slice());
    (rt, ht, ops)
}

/// Punctuation errors (marks `. , ! ?`) of the hypothesis against the
/// reference and the number of reference marks; `None` when the reference
/// has no mark.
pub fn punctuation_errors(reference: &str, hypothesis: &str) -> (r: Option<(usize, usize)>)
    requires
        reference@.len() < usize::MAX,
        hypothesis@.len() < usize::MAX,
    ensures
        match r {
            Some((e, t)) => spec_punctuation_errors(reference@, hypothesis@) == Some((e as nat, t as nat)),
            None => spec_punctuation_errors(reference@, hypothesis@) is None,
        },
{
    let (rt, ht, ops) = aligned_tokens(reference, hypothesis);
    let ghost rw = token_words(rt@);
    let ghost hw = token_words(ht@);
    let mut total: usize = 0;
    let mut k: usize = 0;
    while k < rt.len()
        invariant
            k <= rt.len(),
            rw == token_words(rt@),
            total == count_marks(rw.take(k as int)),
            total <= k,
        decreases rt.len() - k,
    {
        assert(rw.take(k + 1).drop_last() =~= rw.take(k as int));
        if rt[k].mark.is_some() {
            total += 1;
        }
        k += 1;
    }
    assert(rw.take(rt.len() as int) =~= rw);
    if total == 0 {
        return None;
    }
    let mut errors: usize = 0;
    let mut q: usize = 0;
    while q < ops.len()
        invariant
            q <= ops.len(),
            rw == token_words(rt@),
            hw == token_words(ht@),
            forall|x: int| 0 <= x < ops@.len() ==> op_in_range(#[trigger] ops@[x], rt@.len() as int, ht@.len() as int),
            errors == mark_errors(rw, hw, ops@.take(q as int)),
            errors <= q,
        decreases ops.len() - q,
    {
        assert(ops@.take(q + 1).drop_last() =~= ops@.take(q as int));
        assert(op_in_range(ops@[q as int], rt@.len() as int, ht@.len() as int));
        let wrong = match ops[q] {
            Op::Equal(i, j) => !same_mark(rt[i].mark, ht[j].mark),
            Op::Substitution(i, j) => !same_mark(rt[i].mark, ht[j].mark),
            Op::Deletion(i) => rt[i].mark.is_some(),
            Op::Insertion(j) => ht[j].mark.is_some(),
        };
        if wrong {
            errors += 1;
        }
        q += 1;
    }
    assert(ops@.take(ops.len() as int) =~= ops@);
    Some((errors, total))
}

/// Capitalization mismatches between aligned pairs of words that are equal
/// once normalized: `(mismatches, pairs compared)`. Substituted, deleted and
/// inserted words are left out; they are content errors.
pub fn cap_mismatches(reference: &str, hypothesis: &str) -> (r: (usize, usize))
    requires
        reference@.len() < usize::MAX,
        hypothesis@.len() < usize::MAX,
    ensures
        (r.0 as nat, r.1 as nat) == spec_cap_mismatches(reference@, hypothesis@),
{
    let (rt, ht, ops) = aligned_tokens(reference, hypothesis);
    let ghost rw = token_words(rt@);
    let ghost hw = token_words(ht@);
    let mut mismatches: usize = 0;
    let mut total: usize = 0;
    let mut q: usize = 0;
    while q < ops.len()
        invariant
            q <= ops.len(),
            rw == token_words(rt@),
            hw == token_words(ht@),
            forall|x: int| 0 <= x < ops@.len() ==> op_in_range(#[trigger] ops@[x], rt@.len() as int, ht@.len() as int),
            (mismatches as nat, total as nat) == cap_counts(rw, hw, ops@.take(q as int)),
            mismatches <= total,
            total <= q,
        decreases ops.len() - q,
    {
        assert(ops@.take(q + 1).drop_last() =~= ops@.take(q as int));
        assert(op_in_range(ops@[q as int], rt@.len() as int, ht@.len() as int));
        if let Op::Equal(i, j) = ops[q] {
            total += 1;
            if !(rt[i].original == ht[j].original) {
                mismatches += 1;
            }
        }
        q += 1;
    }
    assert(ops@.take(ops.len() as int) =~= ops@);
    (mismatches, total)
}


proof fn lemma_cap_counts_bounded(
    rw: Seq<WordSpec>,
    hw: Seq<WordSpec>,
    ops: Seq<Op>,
    i: int,
    j: int,
)
    requires
        aligns(lowered(rw), lowered(hw), ops, i, j),
    ensures
        cap_counts(rw, hw, ops).0 <= cap_counts(rw, hw, ops).1,
        cap_counts(rw, hw, ops).1 <= i,
        cap_counts(rw, hw, ops).1 <= j,
    decreases ops.len(),
{
    if ops.len() > 0 {
        let rest = ops.drop_last();
        match ops.last() {
            Op::Equal(_, _) => lemma_cap_counts_bounded(rw, hw, rest, i - 1, j - 1),
            Op::Substitution(_, _) => lemma_cap_counts_bounded(rw, hw, rest, i - 1, j - 1),
            Op::Deletion(_) => lemma_cap_counts_bounded(rw, hw, rest, i - 1, j),
            Op::Insertion(_) => lemma_cap_counts_bounded(rw, hw, rest, i, j - 1),
        }
    }
}

/// Capitalization mismatches never exceed the pairs compared, and no more
/// pairs are compared than either text has words.
pub proof fn lemma_cap_mismatches_bounded(reference: Seq<char>, hypothesis: Seq<char>)
    requires
        reference.len() <= usize::MAX,
        hypothesis.len() <= usize::MAX,
    ensures
        spec_cap_mismatches(reference, hypothesis).0 <= spec_cap_mismatches(reference, hypothesis).1,
        spec_cap_mismatches(reference, hypothesis).1 <= spec_words(reference).len(),
        spec_cap_mismatches(reference, hypothesis).1 <= spec_words(hypothesis).len(),
{
    let rw = spec_words(reference);
    let hw = spec_words(hypothesis);
    lemma_words_len(reference);
    lemma_words_len(hypothesis);
    lemma_alignment_realizes_distance(lowered(rw), lowered(hw));
    lemma_cap_counts_bounded(rw, hw, alignment(lowered(rw), lowered(hw)), rw.len() as int, hw.len() as int);
}

} // verus!
