use vstd::prelude::*;

verus! {

/// The characters of a text, in order.
pub fn chars_of(text: &str) -> (r: Vec<char>)
    ensures
        r@ == text@,
{
    broadcast use vstd::string::axiom_spec_iter;
    let mut out: Vec<char> = Vec::new();
    for c in it: text.chars()
        invariant
            out@ == it.seq().take(it.index() as int),
    {
        out.push(c);
    }
    out
}

/// The Unicode `White_Space` property (PropList.txt): the characters that
/// `char::is_whitespace` accepts.
pub open spec fn spec_is_whitespace(c: char) -> bool {
    ||| c == ' '
    ||| ('\u{9}' <= c && c <= '\u{d}')
    ||| c == '\u{85}'
    ||| c == '\u{a0}'
    ||| c == '\u{1680}'
    ||| ('\u{2000}' <= c && c <= '\u{200a}')
    ||| c == '\u{2028}'
    ||| c == '\u{2029}'
    ||| c == '\u{202f}'
    ||| c == '\u{205f}'
    ||| c == '\u{3000}'
}

/// Whitespace as Unicode defines it (the same set as `char::is_whitespace`).
pub fn is_whitespace(c: char) -> (r: bool)
    ensures
        r == spec_is_whitespace(c),
{
    c == ' ' || ('\u{9}' <= c && c <= '\u{d}') || c == '\u{85}' || c == '\u{a0}'
        || c == '\u{1680}' || ('\u{2000}' <= c && c <= '\u{200a}') || c == '\u{2028}'
        || c == '\u{2029}' || c == '\u{202f}' || c == '\u{205f}' || c == '\u{3000}'
}

/// What `str::to_lowercase` returns for a text: Unicode lowercase mapping,
/// with the context rule for a final capital sigma.
pub uninterp spec fn lowercase(s: Seq<char>) -> Seq<char>;

/// `str::to_lowercase`: the Unicode lowercase form of the text. The
/// contract names the result and says nothing more of it; it depends on the
/// text alone.
#[verifier::external_body]
pub(crate) fn to_lowercase(s: &str) -> (r: String)
    ensures
        r@ == lowercase(s@),
{
    s.to_lowercase()
}

/// `String::push`: appends one character.
#[verifier::external_body]
pub(crate) fn push_char(s: &mut String, c: char)
    ensures
        final(s)@ == old(s)@.push(c),
{
    s.push(c)
}

/// A `String` holding the given characters, in order.
pub fn string_from_chars(cs: &[char]) -> (r: String)
    ensures
        r@ == cs@,
{
    let mut s = String::new();
    let mut i: usize = 0;
    while i < cs.len()
        invariant
            i <= cs.len(),
            s@ == cs@.take(i as int),
        decreases cs.len() - i,
    {
        push_char(&mut s, cs[i]);
        i += 1;
        assert(s@ =~= cs@.take(i as int));
    }
    assert(cs@.take(cs.len() as int) =~= cs@);
    s
}


/// `a` followed by `b`.
pub fn concat(a: &str, b: &str) -> (r: String)
    ensures
        r@ == a@ + b@,
{
    let mut all = chars_of(a);
    let bs = chars_of(b);
    let mut i: usize = 0;
    while i < bs.len()
        invariant
            i <= bs.len(),
            all@ == a@ + bs@.take(i as int),
        decreases bs.len() - i,
    {
        all.push(bs[i]);
        i += 1;
        assert(all@ =~= a@ + bs@.take(i as int));
    }
    assert(bs@.take(bs.len() as int) =~= bs@);
    string_from_chars(all.as_slice())
}


/// The decimal digit `d` (0 to 9) as a character.
pub open spec fn digit_char(d: int) -> char {
    (48 + d) as char
}

/// The decimal representation of `n`, as `u64`'s `Display` writes it.
pub open spec fn spec_decimal(n: nat) -> Seq<char>
    decreases n,
{
    if n < 10 {
        seq![digit_char(n as int)]
    } else {
        spec_decimal(n / 10).push(digit_char((n % 10) as int))
    }
}

fn digit(d: u64) -> (c: char)
    requires
        d < 10,
    ensures
        c == digit_char(d as int),
{
    let b: u8 = 48 + d as u8;
    b as char
}

/// The decimal representation of `n`.
pub fn decimal(n: u64) -> (r: String)
    ensures
        r@ == spec_decimal(n as nat),
{
    let mut rev: Vec<char> = Vec::new();
    let mut m: u64 = n;
    while m >= 10
        invariant
            spec_decimal(n as nat) == spec_decimal(m as nat) + rev@.reverse(),
        decreases m,
    {
        let ghost before = rev@;
        rev.push(digit(m % 10));
        assert(rev@.reverse() =~= seq![digit_char((m % 10) as int)] + before.reverse());
        assert(spec_decimal(m as nat) == spec_decimal((m / 10) as nat).push(digit_char((m % 10) as int)));
        assert(spec_decimal(m as nat) + before.reverse() =~= spec_decimal((m / 10) as nat) + rev@.reverse());
        m = m / 10;
    }
    let ghost before = rev@;
    rev.push(digit(m));
    assert(rev@.reverse() =~= seq![digit_char(m as int)] + before.reverse());
    let mut out: Vec<char> = Vec::new();
    let mut k: usize = rev.len();
    while k > 0
        invariant
            k <= rev.len(),
            out@ == rev@.reverse().take((rev.len() - k) as int),
        decreases k,
    {
        k -= 1;
        out.push(rev[k]);
        assert(out@ =~= rev@.reverse().take((rev.len() - k) as int));
    }
    assert(out@ =~= rev@.reverse());
    assert(spec_decimal(n as nat) =~= rev@.reverse());
    string_from_chars(out.as_slice())
}


/// The text without its leading whitespace.
pub open spec fn trim_start_ws(s: Seq<char>) -> Seq<char>
    decreases s.len(),
{
    if s.len() > 0 && spec_is_whitespace(s[0]) {
        trim_start_ws(s.drop_first())
    } else {
        s
    }
}

/// The text without its trailing whitespace.
pub open spec fn trim_end_ws(s: Seq<char>) -> Seq<char>
    decreases s.len(),
{
    if s.len() > 0 && spec_is_whitespace(s.last()) {
        trim_end_ws(s.drop_last())
    } else {
        s
    }
}

/// The text without leading and trailing whitespace (`str::trim`).
pub open spec fn spec_trim(s: Seq<char>) -> Seq<char> {
    trim_end_ws(trim_start_ws(s))
}

/// `str::trim`, on characters.
pub fn trim_chars(s: &Vec<char>) -> (r: Vec<char>)
    ensures
        r@ == spec_trim(s@),
{
    let mut a: usize = 0;
    assert(s@.skip(0) =~= s@);
    while a < s.len() && is_whitespace(s[a])
        invariant
            a <= s.len(),
            trim_start_ws(s@) == trim_start_ws(s@.skip(a as int)),
        decreases s.len() - a,
    {
        assert(s@.skip(a as int).drop_first() =~= s@.skip(a + 1));
        a += 1;
    }
    assert(trim_start_ws(s@) == s@.skip(a as int)) by {
        if a < s.len() {
            assert(s@.skip(a as int)[0] == s@[a as int]);
        } else {
            assert(s@.skip(a as int).len() == 0);
        }
    }
    let mut b: usize = s.len();
    assert(s@.subrange(a as int, b as int) =~= s@.skip(a as int));
    while b > a && is_whitespace(s[b - 1])
        invariant
            a <= b <= s.len(),
            spec_trim(s@) == trim_end_ws(s@.subrange(a as int, b as int)),
        decreases b,
    {
        assert(s@.subrange(a as int, b as int).drop_last() =~= s@.subrange(a as int, b - 1));
        b -= 1;
    }
    assert(trim_end_ws(s@.subrange(a as int, b as int)) == s@.subrange(a as int, b as int)) by {
        if b > a {
            assert(s@.subrange(a as int, b as int).last() == s@[b - 1]);
        }
    }
    let mut out: Vec<char> = Vec::new();
    let mut k: usize = a;
    while k < b
        invariant
            a <= k <= b,
            b <= s.len(),
            out@ == s@.subrange(a as int, k as int),
        decreases b - k,
    {
        out.push(s[k]);
        k += 1;
        assert(out@ =~= s@.subrange(a as int, k as int));
    }
    out
}

/// `str::trim_end`, on characters.
pub fn trim_end_chars(s: &Vec<char>) -> (r: Vec<char>)
    ensures
        r@ == trim_end_ws(s@),
{
    let mut b: usize = s.len();
    assert(s@.take(b as int) =~= s@);
    while b > 0 && is_whitespace(s[b - 1])
        invariant
            b <= s.len(),
            trim_end_ws(s@) == trim_end_ws(s@.take(b as int)),
        decreases b,
    {
        assert(s@.take(b as int).drop_last() =~= s@.take(b - 1));
        b -= 1;
    }
    assert(trim_end_ws(s@.take(b as int)) == s@.take(b as int)) by {
        if b > 0 {
            assert(s@.take(b as int).last() == s@[b - 1]);
        }
    }
    let mut out: Vec<char> = Vec::new();
    let mut k: usize = 0;
    while k < b
        invariant
            k <= b,
            b <= s.len(),
            out@ == s@.take(k as int),
        decreases b - k,
    {
        out.push(s[k]);
        k += 1;
        assert(out@ =~= s@.take(k as int));
    }
    out
}

/// The whitespace-separated fields of `s` from position `i` on, `cur` being
/// the field under way.
pub open spec fn fields_from(s: Seq<char>, i: int, cur: Seq<char>) -> Seq<Seq<char>>
    decreases s.len() - i,
{
    let pending = if cur.len() > 0 { seq![cur] } else { Seq::<Seq<char>>::empty() };
    if i < 0 || i >= s.len() {
        pending
    } else if spec_is_whitespace(s[i]) {
        pending + fields_from(s, i + 1, Seq::empty())
    } else {
        fields_from(s, i + 1, cur.push(s[i]))
    }
}

/// The fields of a text: its maximal runs of non-whitespace characters
/// (`str::split_whitespace`).
pub open spec fn fields(s: Seq<char>) -> Seq<Seq<char>> {
    fields_from(s, 0, Seq::empty())
}

/// `str::split_whitespace`, on characters.
pub fn split_fields(s: &Vec<char>) -> (r: Vec<Vec<char>>)
    ensures
        r@.map_values(|f: Vec<char>| f@) == fields(s@),
{
    let mut out: Vec<Vec<char>> = Vec::new();
    let mut cur: Vec<char> = Vec::new();
    let mut i: usize = 0;
    while i < s.len()
        invariant
            i <= s.len(),
            out@.map_values(|f: Vec<char>| f@) + fields_from(s@, i as int, cur@) == fields(s@),
        decreases s.len() - i,
    {
        let ghost before = out@.map_values(|f: Vec<char>| f@);
        let ghost cv = cur@;
        if is_whitespace(s[i]) {
            if cur.len() > 0 {
                out.push(cur);
                cur = Vec::new();
                assert(out@.map_values(|f: Vec<char>| f@) =~= before.push(cv));
                assert(before.push(cv) + fields_from(s@, i + 1, Seq::empty()) =~= before + (seq![cv]
                    + fields_from(s@, i + 1, Seq::empty())));
            } else {
                assert(cv =~= Seq::<char>::empty());
                assert(Seq::<Seq<char>>::empty() + fields_from(s@, i + 1, cv) =~= fields_from(s@, i + 1, cv));
            }
        } else {
            cur.push(s[i]);
        }
        i += 1;
    }
    let ghost before = out@.map_values(|f: Vec<char>| f@);
    let ghost cv = cur@;
    if cur.len() > 0 {
        out.push(cur);
        assert(out@.map_values(|f: Vec<char>| f@) =~= before.push(cv));
        assert(before + seq![cv] =~= before.push(cv));
    } else {
        assert(before + Seq::<Seq<char>>::empty() =~= before);
    }
    out
}

/// `str::trim`: the text without leading and trailing whitespace.
pub fn trim_text(s: &str) -> (r: String)
    ensures
        r@ == spec_trim(s@),
{
    let cs = chars_of(s);
    let t = trim_chars(&cs);
    string_from_chars(t.as_slice())
}

/// The pieces of a text between occurrences of `sep` (`str::split` with a
/// character): an empty text is one empty piece.
pub open spec fn split_on(s: Seq<char>, sep: char) -> Seq<Seq<char>>
    decreases s.len(),
{
    if s.len() == 0 {
        seq![Seq::empty()]
    } else {
        let prev = split_on(s.drop_last(), sep);
        if s.last() == sep {
            prev.push(Seq::empty())
        } else {
            prev.update(prev.len() - 1, prev.last().push(s.last()))
        }
    }
}

proof fn lemma_split_on_nonempty(s: Seq<char>, sep: char)
    ensures
        split_on(s, sep).len() >= 1,
    decreases s.len(),
{
    if s.len() > 0 {
        lemma_split_on_nonempty(s.drop_last(), sep);
    }
}

/// `str::split` on a character.
pub fn split_chars(s: &Vec<char>, sep: char) -> (r: Vec<Vec<char>>)
    ensures
        r@.map_values(|p: Vec<char>| p@) == split_on(s@, sep),
{
    let mut done: Vec<Vec<char>> = Vec::new();
    let mut current: Vec<char> = Vec::new();
    let mut k: usize = 0;
    while k < s.len()
        invariant
            k <= s.len(),
            done@.map_values(|p: Vec<char>| p@).push(current@) == split_on(s@.take(k as int), sep),
        decreases s.len() - k,
    {
        proof {
            assert(s@.take(k + 1).drop_last() =~= s@.take(k as int));
            lemma_split_on_nonempty(s@.take(k as int), sep);
        }
        let ghost prev = split_on(s@.take(k as int), sep);
        if s[k] == sep {
            let piece = current;
            current = Vec::new();
            done.push(piece);
            assert(done@.map_values(|p: Vec<char>| p@).push(current@) =~= prev.push(Seq::empty()));
        } else {
            current.push(s[k]);
            assert(done@.map_values(|p: Vec<char>| p@).push(current@) =~= prev.update(prev.len() - 1, prev.last().push(s@[k as int])));
        }
        k += 1;
    }
    assert(s@.take(s.len() as int) =~= s@);
    done.push(current);
    assert(done@.map_values(|p: Vec<char>| p@) =~= split_on(s@, sep));
    done
}

/// Position of the first occurrence of `c`.
pub open spec fn find_first(s: Seq<char>, c: char) -> Option<int>
    decreases s.len(),
{
    if s.len() == 0 {
        None
    } else {
        match find_first(s.drop_last(), c) {
            Some(p) => Some(p),
            None => if s.last() == c { Some(s.len() - 1) } else { None },
        }
    }
}

pub fn find_char(s: &Vec<char>, c: char) -> (r: Option<usize>)
    ensures
        match r {
            Some(p) => find_first(s@, c) == Some(p as int) && p < s.len(),
            None => find_first(s@, c) is None,
        },
{
    let mut k: usize = 0;
    while k < s.len()
        invariant
            k <= s.len(),
            find_first(s@.take(k as int), c) is None,
        decreases s.len() - k,
    {
        assert(s@.take(k + 1).drop_last() =~= s@.take(k as int));
        if s[k] == c {
            proof {
                lemma_find_first_extend(s@, c, k as int);
            }
            return Some(k);
        }
        k += 1;
    }
    assert(s@.take(s.len() as int) =~= s@);
    None
}

proof fn lemma_find_first_extend(s: Seq<char>, c: char, k: int)
    requires
        0 <= k < s.len(),
        find_first(s.take(k), c) is None,
        s[k] == c,
    ensures
        find_first(s, c) == Some(k),
    decreases s.len(),
{
    if s.len() > k + 1 {
        assert(s.drop_last().take(k) =~= s.take(k));
        lemma_find_first_extend(s.drop_last(), c, k);
    } else {
        assert(s.drop_last() =~= s.take(k));
    }
}

/// A decimal digit.
pub open spec fn is_digit(c: char) -> bool {
    '0' <= c && c <= '9'
}

/// The value of a string of decimal digits.
pub open spec fn digits_value(s: Seq<char>) -> nat
    decreases s.len(),
{
    if s.len() == 0 {
        0
    } else {
        digits_value(s.drop_last()) * 10 + ((s.last() as int) - 48) as nat
    }
}

/// The text without a leading `+`.
pub open spec fn unsigned_digits(s: Seq<char>) -> Seq<char> {
    if s.len() > 0 && s[0] == '+' { s.drop_first() } else { s }
}

/// Only decimal digits.
pub open spec fn all_digits(d: Seq<char>) -> bool {
    forall|k: int| 0 <= k < d.len() ==> is_digit(#[trigger] d[k])
}

/// What `str::parse::<u64>` accepts: an optional `+`, then at least one
/// decimal digit, with a value that fits in `u64`.
pub open spec fn spec_parse_u64(s: Seq<char>) -> Option<u64> {
    let d = unsigned_digits(s);
    if d.len() > 0 && all_digits(d) && digits_value(d) <= u64::MAX {
        Some(digits_value(d) as u64)
    } else {
        None
    }
}

proof fn lemma_digits_prefix_le(s: Seq<char>, k: int)
    requires
        0 <= k <= s.len(),
        forall|x: int| 0 <= x < s.len() ==> is_digit(#[trigger] s[x]),
    ensures
        digits_value(s.take(k)) <= digits_value(s),
    decreases s.len(),
{
    if k < s.len() {
        assert(s.drop_last().take(k) =~= s.take(k));
        lemma_digits_prefix_le(s.drop_last(), k);
    } else {
        assert(s.take(k) =~= s);
    }
}

/// `str::parse::<u64>`.
pub fn parse_u64(s: &str) -> (r: Option<u64>)
    ensures
        r == spec_parse_u64(s@),
{
    let cs = chars_of(s);
    let start: usize = if cs.len() > 0 && cs[0] == '+' { 1 } else { 0 };
    let ghost d = unsigned_digits(s@);
    assert(d =~= cs@.skip(start as int));
    if start >= cs.len() {
        return None;
    }
    let mut k: usize = start;
    while k < cs.len()
        invariant
            start <= k <= cs.len(),
            cs@ == s@,
            d == cs@.skip(start as int),
            d == unsigned_digits(s@),
            forall|x: int| 0 <= x < k - start ==> is_digit(#[trigger] d[x]),
        decreases cs.len() - k,
    {
        if !('0' <= cs[k] && cs[k] <= '9') {
            assert(!is_digit(d[k - start]));
            assert(!(forall|x: int| 0 <= x < d.len() ==> is_digit(#[trigger] d[x])));
            assert(d == unsigned_digits(s@));
            assert(spec_parse_u64(s@) is None);
            return None;
        }
        k += 1;
    }
    let mut value: u64 = 0;
    let mut k: usize = start;
    while k < cs.len()
        invariant
            start <= k <= cs.len(),
            cs@ == s@,
            d == cs@.skip(start as int),
            d == unsigned_digits(s@),
            forall|x: int| 0 <= x < d.len() ==> is_digit(#[trigger] d[x]),
            value == digits_value(d.take(k - start)),
        decreases cs.len() - k,
    {
        assert(d.take(k - start + 1).drop_last() =~= d.take(k - start));
        assert(is_digit(d[k - start]));
        assert(d[k - start] == cs@[k as int]);
        let c = cs[k];
        let digit: u64 = (c as u32 - 48u32) as u64;
        assert(digits_value(d.take(k - start + 1)) == value * 10 + digit);
        proof {
            lemma_digits_prefix_le(d, k - start + 1);
        }
        match value.checked_mul(10) {
            Some(v10) => match v10.checked_add(digit) {
                Some(v) => {
                    value = v;
                },
                None => {
                    assert(digits_value(d) > u64::MAX);
                    assert(spec_parse_u64(s@) is None);
                    return None;
                },
            },
            None => {
                assert(digits_value(d) > u64::MAX);
                assert(spec_parse_u64(s@) is None);
                return None;
            },
        }
        k += 1;
    }
    assert(d.take(d.len() as int) =~= d);
    assert(spec_parse_u64(s@) == Some(value));
    Some(value)
}


/// Every occurrence of `pat` (non-empty) replaced by `rep`, scanning left to
/// right without overlaps (`str::replace`).
pub open spec fn replace_all(s: Seq<char>, pat: Seq<char>, rep: Seq<char>) -> Seq<char>
    decreases s.len(),
{
    if pat.len() == 0 || s.len() < pat.len() {
        s
    } else if s.take(pat.len() as int) == pat {
        rep + replace_all(s.skip(pat.len() as int), pat, rep)
    } else {
        seq![s[0]] + replace_all(s.drop_first(), pat, rep)
    }
}

/// Up to its first replacement, a replaced text is the text itself: a
/// prefix of the result holding no character of a (non-empty) replacement
/// is a prefix of the original.
pub proof fn lemma_replace_all_prefix(s: Seq<char>, pat: Seq<char>, rep: Seq<char>, m: int)
    requires
        rep.len() > 0,
        0 <= m <= replace_all(s, pat, rep).len(),
        forall|j: int| 0 <= j < m ==> !rep.contains(#[trigger] replace_all(s, pat, rep)[j]),
    ensures
        m <= s.len(),
        replace_all(s, pat, rep).take(m) == s.take(m),
    decreases s.len(),
{
    let r = replace_all(s, pat, rep);
    if pat.len() == 0 || s.len() < pat.len() {
    } else if s.take(pat.len() as int) == pat {
        if m > 0 {
            assert(r[0] == rep[0]);
            assert(rep.contains(rep[0]));
        }
        assert(r.take(m) =~= s.take(m));
    } else if m > 0 {
        let t = replace_all(s.drop_first(), pat, rep);
        assert forall|j: int| 0 <= j < m - 1 implies !rep.contains(#[trigger] t[j]) by {
            assert(r[j + 1] == t[j]);
        }
        lemma_replace_all_prefix(s.drop_first(), pat, rep, m - 1);
        assert(r.take(m) =~= s.take(m)) by {
            assert forall|j: int| 0 <= j < m implies r.take(m)[j] == s.take(m)[j] by {
                if j > 0 {
                    assert(r[j] == t[j - 1]);
                    assert(t.take(m - 1)[j - 1] == s.drop_first().take(m - 1)[j - 1]);
                }
            }
        }
    }
}

/// When no character of the (non-empty) replacement occurs in the pattern,
/// the replaced text holds no occurrence of the pattern.
pub proof fn lemma_replace_all_removes(s: Seq<char>, pat: Seq<char>, rep: Seq<char>, i: int)
    requires
        pat.len() > 0,
        rep.len() > 0,
        forall|j: int| 0 <= j < rep.len() ==> !pat.contains(#[trigger] rep[j]),
        0 <= i,
        i + pat.len() <= replace_all(s, pat, rep).len(),
    ensures
        replace_all(s, pat, rep).subrange(i, i + pat.len()) != pat,
    decreases s.len(),
{
    let r = replace_all(s, pat, rep);
    let n = pat.len() as int;
    if s.len() < pat.len() {
    } else if s.take(n) == pat {
        let t = replace_all(s.skip(n), pat, rep);
        if i < rep.len() {
            if r.subrange(i, i + n) == pat {
                assert(r.subrange(i, i + n)[0] == rep[i]);
                assert(pat.contains(rep[i]));
            }
        } else {
            lemma_replace_all_removes(s.skip(n), pat, rep, i - rep.len());
            assert(r.subrange(i, i + n) =~= t.subrange(i - rep.len(), i - rep.len() + n));
        }
    } else {
        let t = replace_all(s.drop_first(), pat, rep);
        if i > 0 {
            lemma_replace_all_removes(s.drop_first(), pat, rep, i - 1);
            assert(r.subrange(i, i + n) =~= t.subrange(i - 1, i - 1 + n));
        } else if r.subrange(0, n) == pat {
            assert forall|j: int| 0 <= j < n - 1 implies !rep.contains(#[trigger] t[j]) by {
                assert(t[j] == r.subrange(0, n)[j + 1]);
                if rep.contains(t[j]) {
                    let q = choose|q: int| 0 <= q < rep.len() && rep[q] == t[j];
                    assert(pat.contains(rep[q])) by {
                        assert(pat[j + 1] == rep[q]);
                    }
                }
            }
            lemma_replace_all_prefix(s.drop_first(), pat, rep, n - 1);
            assert(s.take(n) =~= pat) by {
                assert forall|j: int| 0 <= j < n implies s.take(n)[j] == pat[j] by {
                    if j > 0 {
                        assert(t.take(n - 1)[j - 1] == s.drop_first().take(n - 1)[j - 1]);
                        assert(pat[j] == r.subrange(0, n)[j]);
                    }
                }
            }
        }
    }
}

/// Replacing never brings in a character that is neither in the text nor
/// in the replacement.
pub proof fn lemma_replace_all_chars(s: Seq<char>, pat: Seq<char>, rep: Seq<char>, c: char)
    requires
        !s.contains(c),
        !rep.contains(c),
    ensures
        !replace_all(s, pat, rep).contains(c),
    decreases s.len(),
{
    let r = replace_all(s, pat, rep);
    if pat.len() == 0 || s.len() < pat.len() {
    } else if s.take(pat.len() as int) == pat {
        let rest = s.skip(pat.len() as int);
        assert(!rest.contains(c)) by {
            if rest.contains(c) {
                let j = choose|j: int| 0 <= j < rest.len() && rest[j] == c;
                assert(s[j + pat.len()] == c);
            }
        }
        lemma_replace_all_chars(rest, pat, rep, c);
        let t = replace_all(rest, pat, rep);
        if r.contains(c) {
            let j = choose|j: int| 0 <= j < r.len() && r[j] == c;
            if j < rep.len() {
                assert(rep[j] == c);
            } else {
                assert(t[j - rep.len()] == c);
            }
        }
    } else {
        let rest = s.drop_first();
        assert(!rest.contains(c)) by {
            if rest.contains(c) {
                let j = choose|j: int| 0 <= j < rest.len() && rest[j] == c;
                assert(s[j + 1] == c);
            }
        }
        lemma_replace_all_chars(rest, pat, rep, c);
        let t = replace_all(rest, pat, rep);
        if r.contains(c) {
            let j = choose|j: int| 0 <= j < r.len() && r[j] == c;
            if j == 0 {
                assert(s[0] == c);
            } else {
                assert(t[j - 1] == c);
            }
        }
    }
}

fn starts_at(s: &Vec<char>, pat: &Vec<char>, i: usize) -> (r: bool)
    requires
        i <= s.len(),
    ensures
        r == (s.len() - i >= pat.len() && s@.skip(i as int).take(pat.len() as int) == pat@),
{
    if s.len() - i < pat.len() {
        return false;
    }
    let mut k: usize = 0;
    while k < pat.len()
        invariant
            k <= pat.len(),
            s.len() - i >= pat.len(),
            forall|x: int| 0 <= x < k ==> s@[i + x] == pat@[x],
        decreases pat.len() - k,
    {
        if s[i + k] != pat[k] {
            assert(s@.skip(i as int).take(pat.len() as int)[k as int] != pat@[k as int]);
            return false;
        }
        k += 1;
    }
    assert(s@.skip(i as int).take(pat.len() as int) =~= pat@);
    true
}

/// `str::replace` with a non-empty pattern.
pub fn replace_text(s: &str, pat: &str, rep: &str) -> (r: String)
    ensures
        r@ == replace_all(s@, pat@, rep@),
{
    let cs = chars_of(s);
    let ps = chars_of(pat);
    let rs = chars_of(rep);
    if ps.len() == 0 {
        return string_from_chars(cs.as_slice());
    }
    let mut out: Vec<char> = Vec::new();
    let mut i: usize = 0;
    assert(cs@.skip(0) =~= cs@);
    while i < cs.len()
        invariant
            i <= cs.len(),
            ps.len() > 0,
            ps@ == pat@,
            rs@ == rep@,
            out@ + replace_all(cs@.skip(i as int), ps@, rs@) == replace_all(cs@, ps@, rs@),
        decreases cs.len() - i,
    {
        let ghost before = out@;
        let ghost rest = cs@.skip(i as int);
        if starts_at(&cs, &ps, i) {
            let mut k: usize = 0;
            while k < rs.len()
                invariant
                    k <= rs.len(),
                    out@ == before + rs@.take(k as int),
                decreases rs.len() - k,
            {
                out.push(rs[k]);
                k += 1;
                assert(out@ =~= before + rs@.take(k as int));
            }
            assert(rs@.take(rs.len() as int) =~= rs@);
            assert(rest.skip(ps.len() as int) =~= cs@.skip(i + ps.len()));
            assert(out@ + replace_all(cs@.skip(i + ps.len()), ps@, rs@) =~= before + replace_all(rest, ps@, rs@));
            i = i + ps.len();
        } else {
            out.push(cs[i]);
            assert(rest.drop_first() =~= cs@.skip(i + 1));
            assert(rest[0] == cs@[i as int]);
            assert(out@ + replace_all(cs@.skip(i + 1), ps@, rs@) =~= before + replace_all(rest, ps@, rs@));
            i += 1;
        }
    }
    assert(replace_all(cs@.skip(i as int), ps@, rs@) == Seq::<char>::empty());
    assert(out@ =~= replace_all(s@, pat@, rep@));
    string_from_chars(out.as_slice())
}

} // verus!
