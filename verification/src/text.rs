//! Character-level text operations shared by the extraction rules.
//!
//! Strings are modelled by their sequence of characters. Everything here is
//! stated over `Seq<char>` and proved; only Unicode lower-casing is taken from
//! the standard library on trust.

use vstd::prelude::*;
use vstd::std_specs::iter::IteratorSpec;
use vstd::string::StrSliceExecFns;
use vstd::string::StringExecFns;
use vstd::string::StringSliceAdditionalSpecFns;
use vstd::utf8::encode_utf8_decode_utf8;

verus! {

/// The lower-case form of a text under the Unicode case mapping.
pub uninterp spec fn to_lower(s: Seq<char>) -> Seq<char>;

/// Calls `str::to_lowercase`. The result is the Unicode lower-case mapping of
/// the argument; the mapping itself is not spelled out here, only named.
#[verifier::external_body]
pub(crate) fn lowercase(s: &str) -> (r: String)
    ensures
        r@ == to_lower(s@),
{
    s.to_lowercase()
}

/// The characters of `s`, in order.
pub fn chars_of(s: &str) -> (r: Vec<char>)
    ensures
        r@ == s@,
{
    broadcast use vstd::string::group_string_axioms;

    let mut out: Vec<char> = Vec::new();
    let mut it = s.chars();
    loop
        invariant_except_break
            out@ + it.remaining() == s@,
            it.decrease() is Some,
        ensures
            out@ == s@,
        decreases it.decrease()->0,
    {
        match it.next() {
            Some(c) => {
                out.push(c);
            },
            None => {
                break ;
            },
        }
    }
    out
}

/// Whether `c` has the Unicode property White_Space.
pub open spec fn is_whitespace(c: char) -> bool {
    ||| '\u{9}' <= c <= '\u{d}'
    ||| c == ' '
    ||| c == '\u{85}'
    ||| c == '\u{a0}'
    ||| c == '\u{1680}'
    ||| '\u{2000}' <= c <= '\u{200a}'
    ||| c == '\u{2028}'
    ||| c == '\u{2029}'
    ||| c == '\u{202f}'
    ||| c == '\u{205f}'
    ||| c == '\u{3000}'
}

/// Whether `c` has the Unicode property White_Space.
pub fn char_is_whitespace(c: char) -> (r: bool)
    ensures
        r == is_whitespace(c),
{
    (c >= '\u{9}' && c <= '\u{d}') || c == ' ' || c == '\u{85}' || c == '\u{a0}' || c
        == '\u{1680}' || (c >= '\u{2000}' && c <= '\u{200a}') || c == '\u{2028}' || c
        == '\u{2029}' || c == '\u{202f}' || c == '\u{205f}' || c == '\u{3000}'
}

/// `s` without its leading white space.
pub open spec fn skip_leading(s: Seq<char>) -> Seq<char>
    decreases s.len(),
{
    if s.len() > 0 && is_whitespace(s[0]) {
        skip_leading(s.drop_first())
    } else {
        s
    }
}

/// `s` without its trailing white space.
pub open spec fn skip_trailing(s: Seq<char>) -> Seq<char>
    decreases s.len(),
{
    if s.len() > 0 && is_whitespace(s.last()) {
        skip_trailing(s.drop_last())
    } else {
        s
    }
}

/// `s` without leading and trailing white space.
pub open spec fn trimmed(s: Seq<char>) -> Seq<char> {
    skip_trailing(skip_leading(s))
}

/// Whether `s` holds nothing but white space.
pub open spec fn is_blank(s: Seq<char>) -> bool {
    forall|i: int| 0 <= i < s.len() ==> is_whitespace(#[trigger] s[i])
}

/// Skipping `k` leading white-space characters that end at a visible character
/// or at the end of the text is `skip_leading`.
pub proof fn lemma_skip_leading(s: Seq<char>, k: int)
    requires
        0 <= k <= s.len(),
        forall|i: int| 0 <= i < k ==> is_whitespace(#[trigger] s[i]),
        k == s.len() || !is_whitespace(s[k]),
    ensures
        skip_leading(s) == s.skip(k),
    decreases k,
{
    if k == 0 {
        assert(s.skip(0) =~= s);
    } else {
        let t = s.drop_first();
        assert forall|i: int| 0 <= i < k - 1 implies is_whitespace(#[trigger] t[i]) by {
            assert(t[i] == s[i + 1]);
        }
        lemma_skip_leading(t, k - 1);
        assert(t.skip(k - 1) =~= s.skip(k));
    }
}

/// Dropping the trailing white space back to a visible character at `k - 1`,
/// or back to the start, is `skip_trailing`.
pub proof fn lemma_skip_trailing(s: Seq<char>, k: int)
    requires
        0 <= k <= s.len(),
        forall|i: int| k <= i < s.len() ==> is_whitespace(#[trigger] s[i]),
        k == 0 || !is_whitespace(s[k - 1]),
    ensures
        skip_trailing(s) == s.take(k),
    decreases s.len() - k,
{
    if k == s.len() {
        assert(s.take(k) =~= s);
    } else {
        let t = s.drop_last();
        lemma_skip_trailing(t, k);
        assert(t.take(k) =~= s.take(k));
    }
}

/// A text is blank exactly when trimming leaves nothing.
pub proof fn lemma_blank_trims_to_empty(s: Seq<char>)
    ensures
        is_blank(s) <==> trimmed(s).len() == 0,
        skip_leading(s).len() <= s.len(),
        trimmed(s).len() <= s.len(),
    decreases s.len(),
{
    lemma_skip_shrink(s);
    if s.len() > 0 && is_whitespace(s[0]) {
        let t = s.drop_first();
        lemma_blank_trims_to_empty(t);
        if is_blank(s) {
            assert forall|i: int| 0 <= i < t.len() implies is_whitespace(#[trigger] t[i]) by {
                assert(t[i] == s[i + 1]);
            }
        }
        if is_blank(t) {
            assert forall|i: int| 0 <= i < s.len() implies is_whitespace(#[trigger] s[i]) by {
                if i > 0 {
                    assert(s[i] == t[i - 1]);
                }
            }
        }
    } else if s.len() > 0 {
        assert(skip_leading(s) == s);
        lemma_trailing_keeps_visible_head(s);
        assert(!is_blank(s));
    } else {
        assert(skip_leading(s) == s);
    }
}

proof fn lemma_skip_shrink(s: Seq<char>)
    ensures
        skip_leading(s).len() <= s.len(),
        skip_trailing(s).len() <= s.len(),
        skip_trailing(skip_leading(s)).len() <= s.len(),
    decreases s.len(),
{
    if s.len() > 0 {
        lemma_skip_shrink(s.drop_first());
        lemma_skip_shrink(s.drop_last());
    }
    lemma_trailing_shrink(skip_leading(s));
}

proof fn lemma_trailing_shrink(s: Seq<char>)
    ensures
        skip_trailing(s).len() <= s.len(),
    decreases s.len(),
{
    if s.len() > 0 {
        lemma_trailing_shrink(s.drop_last());
    }
}

proof fn lemma_trailing_keeps_visible_head(s: Seq<char>)
    requires
        s.len() > 0,
        !is_whitespace(s[0]),
    ensures
        skip_trailing(s).len() > 0,
        skip_trailing(s)[0] == s[0],
    decreases s.len(),
{
    if is_whitespace(s.last()) {
        assert(s.len() > 1);
        lemma_trailing_keeps_visible_head(s.drop_last());
    }
}

/// `s` without leading and trailing white space, as a slice of `s`.
pub fn trim(s: &str) -> (r: &str)
    ensures
        r@ == trimmed(s@),
{
    let chars = chars_of(s);
    let n = chars.len();
    let mut start: usize = 0;
    while start < n && char_is_whitespace(chars[start])
        invariant
            start <= n,
            n == chars@.len(),
            forall|i: int| 0 <= i < start ==> is_whitespace(#[trigger] chars@[i]),
        decreases n - start,
    {
        start += 1;
    }
    let mut end: usize = n;
    while end > start && char_is_whitespace(chars[end - 1])
        invariant
            start <= end <= n,
            n == chars@.len(),
            forall|i: int| end <= i < n ==> is_whitespace(#[trigger] chars@[i]),
        decreases end,
    {
        end -= 1;
    }
    proof {
        let full = chars@;
        lemma_skip_leading(full, start as int);
        let rest = full.skip(start as int);
        assert forall|i: int| end - start <= i < rest.len() implies is_whitespace(
            #[trigger] rest[i],
        ) by {
            assert(rest[i] == full[i + start]);
        }
        if end > start {
            assert(rest[end - start - 1] == full[end - 1]);
        }
        lemma_skip_trailing(rest, end - start);
        assert(rest.take(end - start) =~= full.subrange(start as int, end as int));
    }
    s.substring_char(start, end)
}

/// Whether `s` holds nothing but white space.
pub fn is_blank_text(s: &str) -> (r: bool)
    ensures
        r == is_blank(s@),
{
    let chars = chars_of(s);
    let n = chars.len();
    let mut i: usize = 0;
    while i < n
        invariant
            i <= n,
            n == chars@.len(),
            chars@ == s@,
            forall|j: int| 0 <= j < i ==> is_whitespace(#[trigger] chars@[j]),
        decreases n - i,
    {
        if !char_is_whitespace(chars[i]) {
            assert(!is_whitespace(s@[i as int]));
            return false;
        }
        i += 1;
    }
    true
}

/// Whether `p` occurs in `s` at position `at`.
pub open spec fn occurs_at(p: Seq<char>, s: Seq<char>, at: int) -> bool {
    0 <= at && at + p.len() <= s.len() && s.subrange(at, at + p.len()) == p
}

/// Whether `p` occurs somewhere in `s` as a run of consecutive characters.
pub open spec fn is_substring(p: Seq<char>, s: Seq<char>) -> bool {
    exists|at: int| occurs_at(p, s, at)
}

fn matches_at(s: &Vec<char>, p: &Vec<char>, at: usize) -> (r: bool)
    requires
        at + p@.len() <= s@.len(),
    ensures
        r == occurs_at(p@, s@, at as int),
{
    let m = p.len();
    let n = s.len();
    let mut j: usize = 0;
    while j < m
        invariant
            j <= m,
            m == p@.len(),
            n == s@.len(),
            at + m <= n,
            forall|k: int| 0 <= k < j ==> s@[at + k] == #[trigger] p@[k],
        decreases m - j,
    {
        if s[at + j] != p[j] {
            proof {
                let window = s@.subrange(at as int, at + m);
                assert(window[j as int] == s@[at + j]);
            }
            return false;
        }
        j += 1;
    }
    assert(s@.subrange(at as int, at + m) =~= p@);
    true
}

/// Whether `p` occurs in `s`.
pub fn chars_contain(s: &Vec<char>, p: &Vec<char>) -> (r: bool)
    ensures
        r == is_substring(p@, s@),
{
    let n = s.len();
    let m = p.len();
    if m > n {
        return false;
    }
    let last = n - m;
    let mut at: usize = 0;
    loop
        invariant
            at <= last,
            last == n - m,
            n == s@.len(),
            m == p@.len(),
            forall|k: int| 0 <= k < at ==> !occurs_at(p@, s@, k),
        decreases last - at,
    {
        if matches_at(s, p, at) {
            return true;
        }
        if at == last {
            return false;
        }
        at += 1;
    }
}

/// Whether `p` occurs in `s`.
pub fn contains(s: &str, p: &str) -> (r: bool)
    ensures
        r == is_substring(p@, s@),
{
    let sc = chars_of(s);
    let pc = chars_of(p);
    chars_contain(&sc, &pc)
}

/// The order of two texts by code points, character by character; a proper
/// prefix comes first.
pub open spec fn lex_le(a: Seq<char>, b: Seq<char>) -> bool
    decreases a.len(),
{
    if a.len() == 0 {
        true
    } else if b.len() == 0 {
        false
    } else if a[0] != b[0] {
        a[0] < b[0]
    } else {
        lex_le(a.drop_first(), b.drop_first())
    }
}

/// Any two texts are ordered one way or the other.
pub proof fn lemma_lex_le_total(a: Seq<char>, b: Seq<char>)
    ensures
        lex_le(a, b) || lex_le(b, a),
    decreases a.len(),
{
    if a.len() > 0 && b.len() > 0 && a[0] == b[0] {
        lemma_lex_le_total(a.drop_first(), b.drop_first());
    }
}

/// Every text is ordered before itself.
pub proof fn lemma_lex_le_reflexive(a: Seq<char>)
    ensures
        lex_le(a, a),
    decreases a.len(),
{
    if a.len() > 0 {
        lemma_lex_le_reflexive(a.drop_first());
    }
}

/// Two texts ordered both ways are the same text.
pub proof fn lemma_lex_le_antisymmetric(a: Seq<char>, b: Seq<char>)
    requires
        lex_le(a, b),
        lex_le(b, a),
    ensures
        a == b,
    decreases a.len(),
{
    if a.len() == 0 || b.len() == 0 {
        assert(a =~= b);
    } else {
        lemma_lex_le_antisymmetric(a.drop_first(), b.drop_first());
        assert(a =~= seq![a[0]] + a.drop_first());
        assert(b =~= seq![b[0]] + b.drop_first());
    }
}

/// The order is transitive.
pub proof fn lemma_lex_le_transitive(a: Seq<char>, b: Seq<char>, c: Seq<char>)
    requires
        lex_le(a, b),
        lex_le(b, c),
    ensures
        lex_le(a, c),
    decreases a.len(),
{
    if a.len() > 0 && b.len() > 0 && c.len() > 0 && a[0] == b[0] && b[0] == c[0] {
        lemma_lex_le_transitive(a.drop_first(), b.drop_first(), c.drop_first());
    }
}

/// Whether `a` comes before `b`, or equals it, in code-point order.
pub fn text_le(a: &str, b: &str) -> (r: bool)
    ensures
        r == lex_le(a@, b@),
{
    let ac = chars_of(a);
    let bc = chars_of(b);
    let n = ac.len();
    let m = bc.len();
    let mut i: usize = 0;
    assert(ac@.skip(0) =~= ac@ && bc@.skip(0) =~= bc@);
    while i < n && i < m
        invariant
            i <= n,
            i <= m,
            n == ac@.len(),
            m == bc@.len(),
            ac@ == a@,
            bc@ == b@,
            lex_le(ac@, bc@) == lex_le(ac@.skip(i as int), bc@.skip(i as int)),
        decreases n - i,
    {
        let ghost ra = ac@.skip(i as int);
        let ghost rb = bc@.skip(i as int);
        assert(ra[0] == ac@[i as int] && rb[0] == bc@[i as int]);
        if ac[i] != bc[i] {
            return ac[i] < bc[i];
        }
        assert(ra.drop_first() =~= ac@.skip(i + 1));
        assert(rb.drop_first() =~= bc@.skip(i + 1));
        i += 1;
    }
    i == n
}

/// The code point of `c` with the ASCII capitals mapped onto the ASCII small
/// letters.
pub open spec fn ascii_fold(c: char) -> u32 {
    if 'A' <= c <= 'Z' {
        (c as u32 + 32) as u32
    } else {
        c as u32
    }
}

/// Whether `s` and `word` are the same text once ASCII letter case is ignored.
pub open spec fn same_ignoring_ascii_case(s: Seq<char>, word: Seq<char>) -> bool {
    &&& s.len() == word.len()
    &&& forall|i: int| 0 <= i < s.len() ==> ascii_fold(#[trigger] s[i]) == ascii_fold(word[i])
}

fn fold_char(c: char) -> (r: u32)
    ensures
        r == ascii_fold(c),
{
    if c >= 'A' && c <= 'Z' {
        c as u32 + 32
    } else {
        c as u32
    }
}

/// Whether `s` and `word` are the same text once ASCII letter case is ignored.
pub fn eq_ignore_ascii_case(s: &Vec<char>, word: &str) -> (r: bool)
    ensures
        r == same_ignoring_ascii_case(s@, word@),
{
    let w = chars_of(word);
    if s.len() != w.len() {
        return false;
    }
    let n = s.len();
    let mut i: usize = 0;
    while i < n
        invariant
            i <= n,
            n == s@.len(),
            n == w@.len(),
            w@ == word@,
            forall|j: int| 0 <= j < i ==> ascii_fold(#[trigger] s@[j]) == ascii_fold(w@[j]),
        decreases n - i,
    {
        if fold_char(s[i]) != fold_char(w[i]) {
            return false;
        }
        i += 1;
    }
    true
}

/// Whether `c` is one of the digits `0` to `9`.
pub open spec fn is_ascii_digit(c: char) -> bool {
    '0' <= c <= '9'
}

/// The number that the digit `c` stands for.
pub open spec fn digit_value(c: char) -> int {
    c as u32 - '0' as u32
}

/// The year that the first four characters of `s` spell in decimal digits, if
/// they do.
pub open spec fn leading_year(s: Seq<char>) -> Option<int> {
    if s.len() >= 4 && is_ascii_digit(s[0]) && is_ascii_digit(s[1]) && is_ascii_digit(s[2])
        && is_ascii_digit(s[3]) {
        Some(
            1000 * digit_value(s[0]) + 100 * digit_value(s[1]) + 10 * digit_value(s[2])
                + digit_value(s[3]),
        )
    } else {
        None
    }
}

fn digit_of(c: char) -> (r: Option<u32>)
    ensures
        r is Some <==> is_ascii_digit(c),
        r is Some ==> r->0 == digit_value(c) && r->0 <= 9,
{
    if c >= '0' && c <= '9' {
        Some(c as u32 - '0' as u32)
    } else {
        None
    }
}

/// The year that the first four characters of `s` spell in decimal digits, if
/// they do.
pub fn parse_leading_year(s: &str) -> (r: Option<u32>)
    ensures
        r is Some <==> leading_year(s@) is Some,
        r is Some ==> r->0 == leading_year(s@)->0,
{
    let chars = chars_of(s);
    if chars.len() < 4 {
        return None;
    }
    match (digit_of(chars[0]), digit_of(chars[1]), digit_of(chars[2]), digit_of(chars[3])) {
        (Some(a), Some(b), Some(c), Some(d)) => Some(1000 * a + 100 * b + 10 * c + d),
        _ => None,
    }
}

/// The white-space-separated words of `s`, in order.
pub open spec fn words(s: Seq<char>) -> Seq<Seq<char>>
    decreases s.len(),
    via words_decreases
{
    let t = skip_leading(s);
    if t.len() == 0 {
        Seq::empty()
    } else {
        let k = word_len(t);
        seq![t.take(k)] + words(t.skip(k))
    }
}

/// The number of characters of `t` before its first white space.
pub open spec fn word_len(t: Seq<char>) -> int
    decreases t.len(),
{
    if t.len() == 0 || is_whitespace(t[0]) {
        0
    } else {
        1 + word_len(t.drop_first())
    }
}

#[via_fn]
proof fn words_decreases(s: Seq<char>) {
    let t = skip_leading(s);
    lemma_skip_shrink(s);
    if t.len() != 0 {
        lemma_leading_lands_on_visible(s);
        lemma_word_len(t);
    }
}

/// What is left after skipping leading white space starts with a visible
/// character.
pub proof fn lemma_leading_lands_on_visible(s: Seq<char>)
    ensures
        skip_leading(s).len() > 0 ==> !is_whitespace(skip_leading(s)[0]),
    decreases s.len(),
{
    if s.len() > 0 && is_whitespace(s[0]) {
        lemma_leading_lands_on_visible(s.drop_first());
    }
}

/// `word_len` stays inside the text, covers visible characters only, and
/// stops at white space or at the end.
pub proof fn lemma_word_len(t: Seq<char>)
    ensures
        0 <= word_len(t) <= t.len(),
        t.len() > 0 && !is_whitespace(t[0]) ==> word_len(t) > 0,
        forall|i: int| 0 <= i < word_len(t) ==> !is_whitespace(#[trigger] t[i]),
        word_len(t) < t.len() ==> is_whitespace(t[word_len(t)]),
    decreases t.len(),
{
    if t.len() == 0 || is_whitespace(t[0]) {
    } else {
        let r = t.drop_first();
        lemma_word_len(r);
        assert forall|i: int| 0 <= i < word_len(t) implies !is_whitespace(#[trigger] t[i]) by {
            if i > 0 {
                assert(t[i] == r[i - 1]);
            }
        }
        if word_len(t) < t.len() {
            assert(t[word_len(t)] == r[word_len(r)]);
        }
    }
}

/// The words joined by single spaces.
pub open spec fn join_with_space(ws: Seq<Seq<char>>) -> Seq<char>
    decreases ws.len(),
{
    if ws.len() == 0 {
        Seq::empty()
    } else if ws.len() == 1 {
        ws[0]
    } else {
        ws[0] + seq![' '] + join_with_space(ws.drop_first())
    }
}

/// `s` with every run of white space replaced by one space, and none at
/// either end.
pub open spec fn collapsed(s: Seq<char>) -> Seq<char> {
    join_with_space(words(s))
}

/// `word_len` is the length of the leading run of visible characters.
pub proof fn lemma_word_len_is(t: Seq<char>, m: int)
    requires
        0 <= m <= t.len(),
        forall|i: int| 0 <= i < m ==> !is_whitespace(#[trigger] t[i]),
        m == t.len() || is_whitespace(t[m]),
    ensures
        word_len(t) == m,
    decreases m,
{
    if m > 0 {
        let r = t.drop_first();
        assert forall|i: int| 0 <= i < m - 1 implies !is_whitespace(#[trigger] r[i]) by {
            assert(r[i] == t[i + 1]);
        }
        lemma_word_len_is(r, m - 1);
    }
}

/// What has been written so far, followed by the words still to come.
pub open spec fn glued(out: Seq<char>, rest: Seq<Seq<char>>) -> Seq<char> {
    if rest.len() == 0 {
        out
    } else if out.len() == 0 {
        join_with_space(rest)
    } else {
        out + seq![' '] + join_with_space(rest)
    }
}

proof fn lemma_glue_step(out: Seq<char>, w: Seq<char>, rest: Seq<Seq<char>>)
    requires
        w.len() > 0,
    ensures
        glued(out, seq![w] + rest) == glued(
            if out.len() == 0 {
                w
            } else {
                out + seq![' '] + w
            },
            rest,
        ),
{
    let all = seq![w] + rest;
    assert(all[0] == w);
    assert(all.drop_first() =~= rest);
    if rest.len() == 0 {
        assert(all.len() == 1);
    } else {
        assert(join_with_space(all) == w + seq![' '] + join_with_space(rest));
        if out.len() > 0 {
            assert(out + seq![' '] + (w + seq![' '] + join_with_space(rest)) =~= (out + seq![' ']
                + w) + seq![' '] + join_with_space(rest));
        }
    }
}

/// `s` with every run of white space replaced by one space, and none at
/// either end.
pub fn collapse_whitespace(s: &str) -> (r: String)
    ensures
        r@ == collapsed(s@),
{
    let chars = chars_of(s);
    let n = chars.len();
    let mut out = String::new();
    let mut empty = true;
    let mut i: usize = 0;
    assert(chars@.skip(0) =~= chars@);
    loop
        invariant_except_break
            i <= n,
            n == chars@.len(),
            chars@ == s@,
            empty <==> out@.len() == 0,
            collapsed(s@) == glued(out@, words(chars@.skip(i as int))),
        ensures
            out@ == collapsed(s@),
        decreases n - i,
    {
        let ghost rest = chars@.skip(i as int);
        let mut j: usize = i;
        while j < n && char_is_whitespace(chars[j])
            invariant
                i <= j <= n,
                n == chars@.len(),
                forall|x: int| i <= x < j ==> is_whitespace(#[trigger] chars@[x]),
            decreases n - j,
        {
            j += 1;
        }
        proof {
            assert forall|x: int| 0 <= x < j - i implies is_whitespace(#[trigger] rest[x]) by {
                assert(rest[x] == chars@[x + i]);
            }
            if j < n {
                assert(rest[j - i] == chars@[j as int]);
            }
            lemma_skip_leading(rest, j - i);
            assert(rest.skip(j - i) =~= chars@.skip(j as int));
        }
        if j == n {
            break ;
        }
        let ghost t = chars@.skip(j as int);
        let mut k: usize = j;
        while k < n && !char_is_whitespace(chars[k])
            invariant
                j <= k <= n,
                n == chars@.len(),
                forall|x: int| j <= x < k ==> !is_whitespace(#[trigger] chars@[x]),
            decreases n - k,
        {
            k += 1;
        }
        let word = s.substring_char(j, k);
        proof {
            assert forall|x: int| 0 <= x < k - j implies !is_whitespace(#[trigger] t[x]) by {
                assert(t[x] == chars@[x + j]);
            }
            if k < n {
                assert(t[k - j] == chars@[k as int]);
            }
            lemma_word_len_is(t, k - j);
            assert(t.take(k - j) =~= word@);
            assert(t.skip(k - j) =~= chars@.skip(k as int));
            assert(words(rest) == seq![word@] + words(chars@.skip(k as int)));
            lemma_glue_step(out@, word@, words(chars@.skip(k as int)));
            reveal_strlit(" ");
            assert(" "@ =~= seq![' ']);
        }
        if !empty {
            out.append(" ");
        }
        out.append(word);
        empty = false;
        i = k;
    }
    out
}

/// Whether `a` and `b` are the same text.
pub fn same_text(a: &str, b: &str) -> (r: bool)
    ensures
        r == (a@ == b@),
{
    let x = a.as_bytes();
    let y = b.as_bytes();
    proof {
        encode_utf8_decode_utf8(a@);
        encode_utf8_decode_utf8(b@);
    }
    if x.len() != y.len() {
        return false;
    }
    let n = x.len();
    let mut i: usize = 0;
    while i < n
        invariant
            i <= n,
            n == x@.len(),
            n == y@.len(),
            x@ == a.spec_bytes(),
            y@ == b.spec_bytes(),
            forall|k: int| 0 <= k < i ==> x@[k] == y@[k],
        decreases n - i,
    {
        if x[i] != y[i] {
            return false;
        }
        i += 1;
    }
    assert(x@ =~= y@);
    true
}

/// Whether one of `texts` is the text `word`.
pub fn has_text(texts: &Vec<String>, word: &str) -> (r: bool)
    ensures
        r == texts.deep_view().contains(word@),
{
    let n = texts.len();
    let mut i: usize = 0;
    while i < n
        invariant
            i <= n,
            n == texts@.len(),
            forall|k: int| 0 <= k < i ==> #[trigger] texts.deep_view()[k] != word@,
        decreases n - i,
    {
        if same_text(texts[i].as_str(), word) {
            assert(texts.deep_view()[i as int] == word@);
            return true;
        }
        i += 1;
    }
    false
}

/// Whether `w` is a word: not empty, and without white space.
pub open spec fn is_word(w: Seq<char>) -> bool {
    &&& w.len() > 0
    &&& forall|i: int| 0 <= i < w.len() ==> !is_whitespace(#[trigger] w[i])
}

/// Whether every item of `ws` is a word.
pub open spec fn all_words(ws: Seq<Seq<char>>) -> bool {
    forall|i: int| 0 <= i < ws.len() ==> is_word(#[trigger] ws[i])
}

/// The words of a text are words.
pub proof fn lemma_words_are_words(s: Seq<char>)
    ensures
        all_words(words(s)),
    decreases s.len(),
{
    let t = skip_leading(s);
    lemma_skip_shrink(s);
    if t.len() > 0 {
        lemma_leading_lands_on_visible(s);
        lemma_word_len(t);
        let k = word_len(t);
        lemma_words_are_words(t.skip(k));
        let first = t.take(k);
        let rest = words(t.skip(k));
        assert forall|i: int| 0 <= i < k implies !is_whitespace(#[trigger] first[i]) by {
            assert(first[i] == t[i]);
        }
        assert(is_word(first));
        assert forall|i: int| 0 <= i < words(s).len() implies is_word(#[trigger] words(s)[i]) by {
            if i > 0 {
                assert(words(s)[i] == rest[i - 1]);
            }
        }
    }
}

/// Words joined by spaces start with the first character of the first word.
proof fn lemma_join_starts_visible(ws: Seq<Seq<char>>)
    requires
        all_words(ws),
        ws.len() > 0,
    ensures
        join_with_space(ws).len() > 0,
        join_with_space(ws)[0] == ws[0][0],
        !is_whitespace(join_with_space(ws)[0]),
{
    assert(is_word(ws[0]));
    assert(!is_whitespace(ws[0][0]));
}

/// The words of words joined by spaces are those words.
pub proof fn lemma_words_of_join(ws: Seq<Seq<char>>)
    requires
        all_words(ws),
    ensures
        words(join_with_space(ws)) == ws,
    decreases ws.len(),
{
    let joined = join_with_space(ws);
    if ws.len() == 0 {
        assert(skip_leading(joined) == joined);
        assert(words(joined) =~= ws);
    } else {
        let w = ws[0];
        let rest = ws.drop_first();
        assert(is_word(w));
        assert forall|i: int| 0 <= i < rest.len() implies is_word(#[trigger] rest[i]) by {
            assert(rest[i] == ws[i + 1]);
        }
        lemma_words_of_join(rest);
        lemma_join_starts_visible(ws);
        assert(skip_leading(joined) == joined);
        if ws.len() == 1 {
            assert(joined == w);
            lemma_word_len_is(joined, w.len() as int);
            assert(joined.take(w.len() as int) =~= w);
            let tail = joined.skip(w.len() as int);
            assert(tail.len() == 0);
            assert(skip_leading(tail) == tail);
            assert(words(tail) =~= Seq::<Seq<char>>::empty());
            assert(words(joined) =~= ws);
        } else {
            let after = join_with_space(rest);
            assert(joined == w + seq![' '] + after);
            assert forall|i: int| 0 <= i < w.len() implies !is_whitespace(#[trigger] joined[i]) by {
                assert(joined[i] == w[i]);
            }
            assert(joined[w.len() as int] == ' ');
            lemma_word_len_is(joined, w.len() as int);
            assert(joined.take(w.len() as int) =~= w);
            let tail = joined.skip(w.len() as int);
            assert(tail =~= seq![' '] + after);
            lemma_join_starts_visible(rest);
            assert(tail.drop_first() =~= after);
            assert(skip_leading(after) == after);
            assert(skip_leading(tail) == after);
            lemma_words_skip_leading(tail);
            lemma_words_skip_leading(after);
            assert(words(tail) == rest);
            assert(seq![w] + rest =~= ws);
        }
    }
}

/// Leading white space has no part in the words of a text.
proof fn lemma_words_skip_leading(s: Seq<char>)
    ensures
        words(s) == words(skip_leading(s)),
{
    lemma_skip_leading_idempotent(s);
}

proof fn lemma_skip_leading_idempotent(s: Seq<char>)
    ensures
        skip_leading(skip_leading(s)) == skip_leading(s),
    decreases s.len(),
{
    if s.len() > 0 && is_whitespace(s[0]) {
        lemma_skip_leading_idempotent(s.drop_first());
    }
}

/// Collapsing a collapsed text changes nothing.
pub proof fn lemma_collapsed_idempotent(s: Seq<char>)
    ensures
        collapsed(collapsed(s)) == collapsed(s),
{
    lemma_words_are_words(s);
    lemma_words_of_join(words(s));
}

} // verus!
