//! Character-level text operations: white space, trimming, ordering,
//! searching and joining, each over the sequence of characters of a string.
use vstd::prelude::*;

verus! {

// ---------------------------------------------------------------------------
// Conversions between strings and character vectors
// ---------------------------------------------------------------------------

/// Appends one character to a string (`String::push`).
#[verifier::external_body]
pub(crate) fn push_char(s: &mut String, c: char)
    ensures
        final(s)@ == old(s)@.push(c),
{
    s.push(c);
}

/// The characters of a string slice, in order.
pub fn chars_of(s: &str) -> (v: Vec<char>)
    ensures
        v@ == s@,
{
    let mut v: Vec<char> = Vec::new();
    for c in it: s.chars()
        invariant
            v@ == it.seq().take(it.index() as int),
            it.seq() == s@,
    {
        v.push(c);
    }
    v
}

/// A string holding exactly the given characters.
pub fn string_of(v: &Vec<char>) -> (s: String)
    ensures
        s@ == v@,
{
    let mut s = String::new();
    let mut i: usize = 0;
    while i < v.len()
        invariant
            i <= v.len(),
            s@ == v@.take(i as int),
        decreases v.len() - i,
    {
        push_char(&mut s, v[i]);
        i = i + 1;
        assert(v@.take(i as int) =~= v@.take((i - 1) as int).push(v@[i - 1]));
    }
    assert(v@.take(v.len() as int) =~= v@);
    s
}

/// Appends characters to a character vector.
pub fn extend_chars(v: &mut Vec<char>, more: &Vec<char>)
    ensures
        final(v)@ == old(v)@ + more@,
{
    let mut i: usize = 0;
    while i < more.len()
        invariant
            i <= more.len(),
            v@ == old(v)@ + more@.take(i as int),
        decreases more.len() - i,
    {
        v.push(more[i]);
        i = i + 1;
        assert(more@.take(i as int) =~= more@.take((i - 1) as int).push(more@[i - 1]));
    }
    assert(more@.take(more.len() as int) =~= more@);
}

/// Appends the characters of a string slice to a character vector.
pub fn extend_str(v: &mut Vec<char>, more: &str)
    ensures
        final(v)@ == old(v)@ + more@,
{
    let cs = chars_of(more);
    extend_chars(v, &cs);
}

/// Whether two string slices hold the same characters.
pub fn text_eq(a: &str, b: &str) -> (r: bool)
    ensures
        r == (a@ == b@),
{
    let x = chars_of(a);
    let y = chars_of(b);
    chars_eq(&x, &y)
}

/// Whether two character vectors are equal.
pub fn chars_eq(x: &Vec<char>, y: &Vec<char>) -> (r: bool)
    ensures
        r == (x@ == y@),
{
    if x.len() != y.len() {
        return false;
    }
    let mut i: usize = 0;
    while i < x.len()
        invariant
            x.len() == y.len(),
            i <= x.len(),
            forall|k: int| 0 <= k < i ==> x@[k] == y@[k],
        decreases x.len() - i,
    {
        if x[i] != y[i] {
            return false;
        }
        i = i + 1;
    }
    assert(x@ =~= y@);
    true
}

// ---------------------------------------------------------------------------
// White space and trimming
// ---------------------------------------------------------------------------

/// The Unicode `White_Space` property, which `char::is_whitespace` and
/// `str::trim` use.
pub open spec fn is_white_space(c: char) -> bool {
    ||| ('\u{9}' <= c && c <= '\u{d}')
    ||| c == ' '
    ||| c == '\u{85}'
    ||| c == '\u{a0}'
    ||| c == '\u{1680}'
    ||| ('\u{2000}' <= c && c <= '\u{200a}')
    ||| c == '\u{2028}'
    ||| c == '\u{2029}'
    ||| c == '\u{202f}'
    ||| c == '\u{205f}'
    ||| c == '\u{3000}'
}

pub fn is_whitespace(c: char) -> (b: bool)
    ensures
        b == is_white_space(c),
{
    ('\u{9}' <= c && c <= '\u{d}') || c == ' ' || c == '\u{85}' || c == '\u{a0}' || c == '\u{1680}'
        || ('\u{2000}' <= c && c <= '\u{200a}') || c == '\u{2028}' || c == '\u{2029}' || c
        == '\u{202f}' || c == '\u{205f}' || c == '\u{3000}'
}

/// `s` without its leading white space.
pub open spec fn trim_start(s: Seq<char>) -> Seq<char>
    decreases s.len(),
{
    if s.len() > 0 && is_white_space(s[0]) {
        trim_start(s.drop_first())
    } else {
        s
    }
}

/// `s` without its trailing white space.
pub open spec fn trim_end(s: Seq<char>) -> Seq<char>
    decreases s.len(),
{
    if s.len() > 0 && is_white_space(s.last()) {
        trim_end(s.drop_last())
    } else {
        s
    }
}

/// `s` without leading and trailing white space (`str::trim`).
pub open spec fn trim(s: Seq<char>) -> Seq<char> {
    trim_end(trim_start(s))
}

/// Whether every character of `s` is white space.
pub open spec fn all_white_space(s: Seq<char>) -> bool {
    forall|k: int| 0 <= k < s.len() ==> is_white_space(#[trigger] s[k])
}

pub proof fn lemma_trim_start_suffix(s: Seq<char>, i: int)
    requires
        0 <= i <= s.len(),
        forall|k: int| 0 <= k < i ==> is_white_space(#[trigger] s[k]),
    ensures
        trim_start(s) == trim_start(s.subrange(i, s.len() as int)),
    decreases i,
{
    if i == 0 {
        assert(s.subrange(0, s.len() as int) =~= s);
    } else {
        assert(is_white_space(s[0]));
        assert(s.drop_first() =~= s.subrange(1, s.len() as int));
        let t = s.drop_first();
        assert forall|k: int| 0 <= k < i - 1 implies is_white_space(#[trigger] t[k]) by {
            assert(t[k] == s[k + 1]);
        }
        lemma_trim_start_suffix(t, i - 1);
        assert(t.subrange(i - 1, t.len() as int) =~= s.subrange(i, s.len() as int));
    }
}

pub proof fn lemma_trim_end_prefix(s: Seq<char>, j: int)
    requires
        0 <= j <= s.len(),
        forall|k: int| j <= k < s.len() ==> is_white_space(#[trigger] s[k]),
    ensures
        trim_end(s) == trim_end(s.subrange(0, j)),
    decreases s.len() - j,
{
    if j == s.len() {
        assert(s.subrange(0, j) =~= s);
    } else {
        assert(is_white_space(s[s.len() - 1]));
        let t = s.drop_last();
        assert forall|k: int| j <= k < t.len() implies is_white_space(#[trigger] t[k]) by {
            assert(t[k] == s[k]);
        }
        lemma_trim_end_prefix(t, j);
        assert(t.subrange(0, j) =~= s.subrange(0, j));
    }
}

/// The trimmed text is empty exactly when every character is white space.
pub proof fn lemma_trim_empty(s: Seq<char>)
    ensures
        (trim(s).len() == 0) == all_white_space(s),
    decreases s.len(),
{
    if s.len() > 0 && is_white_space(s[0]) {
        let t = s.drop_first();
        lemma_trim_empty(t);
        if all_white_space(t) {
            assert forall|k: int| 0 <= k < s.len() implies is_white_space(#[trigger] s[k]) by {
                if k > 0 {
                    assert(s[k] == t[k - 1]);
                }
            }
        } else {
            let k = choose|k: int| 0 <= k < t.len() && !is_white_space(#[trigger] t[k]);
            assert(!is_white_space(s[k + 1]));
        }
    } else if s.len() > 0 {
        assert(trim_start(s) == s);
        lemma_trim_end_keeps_first(s);
    }
}

proof fn lemma_trim_end_keeps_first(s: Seq<char>)
    requires
        s.len() > 0,
        !is_white_space(s[0]),
    ensures
        trim_end(s).len() > 0,
    decreases s.len(),
{
    if is_white_space(s.last()) {
        lemma_trim_end_keeps_first(s.drop_last());
    }
}

/// `s` with its leading and trailing white space removed.
pub fn trim_chars(s: &Vec<char>) -> (r: Vec<char>)
    ensures
        r@ == trim(s@),
{
    let n = s.len();
    let mut i: usize = 0;
    while i < n && is_whitespace(s[i])
        invariant
            i <= n,
            n == s.len(),
            forall|k: int| 0 <= k < i ==> is_white_space(#[trigger] s@[k]),
        decreases n - i,
    {
        i = i + 1;
    }
    proof {
        lemma_trim_start_suffix(s@, i as int);
        let t = s@.subrange(i as int, n as int);
        if i < n {
            assert(t[0] == s@[i as int]);
        }
        assert(trim_start(t) == t);
    }
    let mut j: usize = n;
    while j > i && is_whitespace(s[j - 1])
        invariant
            i <= j <= n,
            n == s.len(),
            forall|k: int| j <= k < n ==> is_white_space(#[trigger] s@[k]),
        decreases j - i,
    {
        j = j - 1;
    }
    proof {
        let t = s@.subrange(i as int, n as int);
        assert forall|k: int| j - i <= k < t.len() implies is_white_space(#[trigger] t[k]) by {
            assert(t[k] == s@[k + i]);
        }
        lemma_trim_end_prefix(t, j - i);
        let u = t.subrange(0, j - i);
        assert(u =~= s@.subrange(i as int, j as int));
        if j > i {
            assert(u.last() == s@[j - 1]);
        }
        assert(trim_end(u) == u);
    }
    let mut r: Vec<char> = Vec::new();
    let mut k: usize = i;
    while k < j
        invariant
            i <= k <= j <= n,
            n == s.len(),
            r@ == s@.subrange(i as int, k as int),
        decreases j - k,
    {
        r.push(s[k]);
        k = k + 1;
        assert(r@ =~= s@.subrange(i as int, k as int));
    }
    r
}

/// Whether a string slice is empty once trimmed.
pub fn is_blank(s: &str) -> (b: bool)
    ensures
        b == (trim(s@).len() == 0),
        b == all_white_space(s@),
{
    let cs = chars_of(s);
    let t = trim_chars(&cs);
    proof {
        lemma_trim_empty(s@);
    }
    t.len() == 0
}

// ---------------------------------------------------------------------------
// Prefixes and substrings
// ---------------------------------------------------------------------------

/// The first `n` characters of `s`, or all of them when there are fewer.
pub open spec fn take_at_most(s: Seq<char>, n: nat) -> Seq<char> {
    if s.len() <= n {
        s
    } else {
        s.take(n as int)
    }
}

pub fn take_chars(s: &Vec<char>, n: usize) -> (r: Vec<char>)
    ensures
        r@ == take_at_most(s@, n as nat),
{
    let mut r: Vec<char> = Vec::new();
    let mut k: usize = 0;
    while k < n && k < s.len()
        invariant
            k <= s.len(),
            k <= n,
            r@ == s@.take(k as int),
        decreases s.len() - k,
    {
        r.push(s[k]);
        k = k + 1;
        assert(r@ =~= s@.take(k as int));
    }
    assert(s.len() <= n ==> s@.take(k as int) =~= s@);
    r
}

/// Whether `s` begins with `prefix`.
pub open spec fn has_prefix(s: Seq<char>, prefix: Seq<char>) -> bool {
    prefix.len() <= s.len() && s.take(prefix.len() as int) == prefix
}

pub fn starts_with(s: &Vec<char>, prefix: &str) -> (b: bool)
    ensures
        b == has_prefix(s@, prefix@),
{
    let p = chars_of(prefix);
    if p.len() > s.len() {
        return false;
    }
    let mut k: usize = 0;
    while k < p.len()
        invariant
            p.len() <= s.len(),
            k <= p.len(),
            p@ == prefix@,
            forall|m: int| 0 <= m < k ==> s@[m] == p@[m],
        decreases p.len() - k,
    {
        if s[k] != p[k] {
            assert(s@.take(p.len() as int)[k as int] != p@[k as int]);
            return false;
        }
        k = k + 1;
    }
    assert(s@.take(p.len() as int) =~= p@);
    true
}

/// Whether `pattern` occurs in `text` as a run of consecutive characters.
pub open spec fn occurs_in(text: Seq<char>, pattern: Seq<char>) -> bool {
    exists|i: int|
        0 <= i && i + pattern.len() <= text.len() && #[trigger] text.subrange(
            i,
            i + pattern.len(),
        ) == pattern
}

fn matches_at(text: &Vec<char>, pattern: &Vec<char>, i: usize) -> (b: bool)
    requires
        i + pattern.len() <= text.len(),
    ensures
        b == (text@.subrange(i as int, i + pattern.len()) == pattern@),
{
    let mut k: usize = 0;
    while k < pattern.len()
        invariant
            i + pattern.len() <= text.len(),
            k <= pattern.len(),
            forall|m: int| 0 <= m < k ==> text@[i + m] == pattern@[m],
        decreases pattern.len() - k,
    {
        if text[i + k] != pattern[k] {
            assert(text@.subrange(i as int, i + pattern.len())[k as int] != pattern@[k as int]);
            return false;
        }
        k = k + 1;
    }
    assert(text@.subrange(i as int, i + pattern.len()) =~= pattern@);
    true
}

/// Whether `pattern` occurs in `text` (`str::contains`).
pub fn contains_chars(text: &Vec<char>, pattern: &Vec<char>) -> (b: bool)
    ensures
        b == occurs_in(text@, pattern@),
{
    if pattern.len() > text.len() {
        return false;
    }
    let last = text.len() - pattern.len();
    let mut i: usize = 0;
    loop
        invariant
            last + pattern.len() == text.len(),
            i <= last,
            forall|k: int|
                0 <= k < i ==> #[trigger] text@.subrange(k, k + pattern.len()) != pattern@,
        decreases last - i,
    {
        if matches_at(text, pattern, i) {
            return true;
        }
        if i == last {
            return false;
        }
        i = i + 1;
    }
}

// ---------------------------------------------------------------------------
// Lexicographic order
// ---------------------------------------------------------------------------

/// Lexicographic order by code point, which is the order of `str` and
/// `String` (their UTF-8 bytes compare in the same order).
pub open spec fn seq_lt(a: Seq<char>, b: Seq<char>) -> bool
    decreases a.len(),
{
    if a.len() == 0 {
        b.len() > 0
    } else if b.len() == 0 {
        false
    } else if a[0] != b[0] {
        a[0] < b[0]
    } else {
        seq_lt(a.drop_first(), b.drop_first())
    }
}

pub proof fn lemma_seq_lt_irreflexive(a: Seq<char>)
    ensures
        !seq_lt(a, a),
    decreases a.len(),
{
    if a.len() > 0 {
        lemma_seq_lt_irreflexive(a.drop_first());
    }
}

pub proof fn lemma_seq_lt_transitive(a: Seq<char>, b: Seq<char>, c: Seq<char>)
    requires
        seq_lt(a, b),
        seq_lt(b, c),
    ensures
        seq_lt(a, c),
    decreases a.len(),
{
    if a.len() > 0 && b.len() > 0 && c.len() > 0 {
        if a[0] == b[0] && b[0] == c[0] {
            lemma_seq_lt_transitive(a.drop_first(), b.drop_first(), c.drop_first());
        }
    }
}

/// Two different sequences are ordered one way or the other.
pub proof fn lemma_seq_lt_total(a: Seq<char>, b: Seq<char>)
    ensures
        a == b || seq_lt(a, b) || seq_lt(b, a),
    decreases a.len(),
{
    if a.len() > 0 && b.len() > 0 && a[0] == b[0] {
        lemma_seq_lt_total(a.drop_first(), b.drop_first());
        if a.drop_first() == b.drop_first() {
            assert(a =~= seq![a[0]] + a.drop_first());
            assert(b =~= seq![b[0]] + b.drop_first());
        }
    } else if a.len() == 0 && b.len() == 0 {
        assert(a =~= b);
    }
}

pub proof fn lemma_seq_lt_asymmetric(a: Seq<char>, b: Seq<char>)
    ensures
        !(seq_lt(a, b) && seq_lt(b, a)),
{
    if seq_lt(a, b) && seq_lt(b, a) {
        lemma_seq_lt_transitive(a, b, a);
        lemma_seq_lt_irreflexive(a);
    }
}

/// Whether `a` orders strictly before `b`.
pub fn chars_lt(a: &Vec<char>, b: &Vec<char>) -> (r: bool)
    ensures
        r == seq_lt(a@, b@),
{
    let mut i: usize = 0;
    assert(a@.skip(0) =~= a@ && b@.skip(0) =~= b@);
    while i < a.len() && i < b.len() && a[i] == b[i]
        invariant
            i <= a.len(),
            i <= b.len(),
            seq_lt(a@, b@) == seq_lt(a@.skip(i as int), b@.skip(i as int)),
        decreases a.len() - i,
    {
        proof {
            let x = a@.skip(i as int);
            let y = b@.skip(i as int);
            assert(x.drop_first() =~= a@.skip(i + 1));
            assert(y.drop_first() =~= b@.skip(i + 1));
        }
        i = i + 1;
    }
    let ghost x = a@.skip(i as int);
    let ghost y = b@.skip(i as int);
    if i == a.len() {
        i < b.len()
    } else if i == b.len() {
        false
    } else {
        assert(x[0] == a@[i as int] && y[0] == b@[i as int]);
        a[i] < b[i]
    }
}

/// Whether the string slice `a` orders strictly before `b`.
pub fn text_lt(a: &str, b: &str) -> (r: bool)
    ensures
        r == seq_lt(a@, b@),
{
    let x = chars_of(a);
    let y = chars_of(b);
    chars_lt(&x, &y)
}

// ---------------------------------------------------------------------------
// Joining
// ---------------------------------------------------------------------------

/// The parts, in order, with `sep` between each two (`[..].join(sep)`).
pub open spec fn join(parts: Seq<Seq<char>>, sep: Seq<char>) -> Seq<char>
    decreases parts.len(),
{
    if parts.len() == 0 {
        Seq::empty()
    } else if parts.len() == 1 {
        parts[0]
    } else {
        join(parts.drop_last(), sep) + sep + parts.last()
    }
}

/// The character views of a list of strings.
pub open spec fn views(v: Seq<String>) -> Seq<Seq<char>> {
    v.map_values(|s: String| s@)
}

/// Appends the parts, joined by `sep`, to `out`.
pub fn push_joined(out: &mut Vec<char>, parts: &Vec<String>, sep: &str)
    ensures
        final(out)@ == old(out)@ + join(views(parts@), sep@),
{
    let ghost start = out@;
    let mut i: usize = 0;
    while i < parts.len()
        invariant
            i <= parts.len(),
            out@ == start + join(views(parts@).take(i as int), sep@),
        decreases parts.len() - i,
    {
        let ghost before = out@;
        if i > 0 {
            extend_str(out, sep);
        }
        extend_str(out, parts[i].as_str());
        proof {
            let t = views(parts@).take(i + 1);
            assert(t.drop_last() =~= views(parts@).take(i as int));
            if i == 0 {
                assert(views(parts@).take(0) =~= Seq::<Seq<char>>::empty());
            }
            assert(out@ =~= start + join(t, sep@));
        }
        i = i + 1;
    }
    assert(views(parts@).take(parts.len() as int) =~= views(parts@));
}

// ---------------------------------------------------------------------------
// Numbers
// ---------------------------------------------------------------------------

pub open spec fn is_digit_char(c: char) -> bool {
    '0' <= c && c <= '9'
}

pub open spec fn all_digits(s: Seq<char>) -> bool {
    forall|k: int| 0 <= k < s.len() ==> is_digit_char(#[trigger] s[k])
}

pub open spec fn digit_value(c: char) -> int {
    c as int - '0' as int
}

/// The number that a run of decimal digits spells.
pub open spec fn digits_value(s: Seq<char>) -> int
    decreases s.len(),
{
    if s.len() == 0 {
        0
    } else {
        10 * digits_value(s.drop_last()) + digit_value(s.last())
    }
}

proof fn lemma_digits_value_nonneg(s: Seq<char>)
    requires
        all_digits(s),
    ensures
        digits_value(s) >= 0,
        forall|k: int| 0 <= k <= s.len() ==> digits_value(s.take(k)) <= digits_value(s),
    decreases s.len(),
{
    if s.len() > 0 {
        let t = s.drop_last();
        assert(all_digits(t)) by {
            assert forall|k: int| 0 <= k < t.len() implies is_digit_char(#[trigger] t[k]) by {
                assert(t[k] == s[k]);
            }
        }
        lemma_digits_value_nonneg(t);
        assert forall|k: int| 0 <= k <= s.len() implies digits_value(s.take(k)) <= digits_value(
            s,
        ) by {
            if k < s.len() {
                assert(s.take(k) =~= t.take(k));
            } else {
                assert(s.take(k) =~= s);
            }
        }
    }
}

/// What `str::parse::<u16>` gives: an optional `+`, then one or more
/// decimal digits whose value fits in 16 bits.
pub open spec fn parse_u16(s: Seq<char>) -> Option<u16> {
    let d = if s.len() > 1 && s[0] == '+' {
        s.drop_first()
    } else {
        s
    };
    if d.len() > 0 && all_digits(d) && digits_value(d) <= u16::MAX {
        Some(digits_value(d) as u16)
    } else {
        None
    }
}

/// The value of a run of decimal digits when it fits in 16 bits.
pub fn digits_to_u16(d: &Vec<char>, start: usize) -> (r: Option<u16>)
    requires
        start <= d.len(),
    ensures
        ({
            let s = d@.skip(start as int);
            r == if all_digits(s) && digits_value(s) <= u16::MAX {
                Some(digits_value(s) as u16)
            } else {
                None
            }
        }),
{
    let ghost s = d@.skip(start as int);
    let mut value: u32 = 0;
    let mut i: usize = start;
    while i < d.len()
        invariant
            start <= i <= d.len(),
            s == d@.skip(start as int),
            all_digits(s.take(i - start)),
            value == digits_value(s.take(i - start)),
            value <= u16::MAX,
        decreases d.len() - i,
    {
        let c = d[i];
        let ghost p = s.take(i - start + 1);
        proof {
            assert(p.drop_last() =~= s.take(i - start));
            assert(p.last() == c);
        }
        if !('0' <= c && c <= '9') {
            proof {
                assert(s[i - start] == c);
            }
            return None;
        }
        let digit = (c as u32) - ('0' as u32);
        value = value * 10 + digit;
        proof {
            assert forall|k: int| 0 <= k < p.len() implies is_digit_char(#[trigger] p[k]) by {
                if k < p.len() - 1 {
                    assert(p[k] == s.take(i - start)[k]);
                }
            }
        }
        if value > 65535 {
            proof {
                assert(all_digits(p));
                if all_digits(s) {
                    lemma_digits_value_nonneg(s);
                    assert(s.take(p.len() as int) =~= p);
                }
            }
            return None;
        }
        i = i + 1;
    }
    proof {
        assert(s.take(i - start) =~= s);
    }
    Some(value as u16)
}

/// `str::parse::<u16>`.
pub fn parse_u16_text(s: &str) -> (r: Option<u16>)
    ensures
        r == parse_u16(s@),
{
    let cs = chars_of(s);
    let start: usize = if cs.len() > 1 && cs[0] == '+' {
        1
    } else {
        0
    };
    proof {
        if start == 1 {
            assert(cs@.skip(1) =~= s@.drop_first());
        } else {
            assert(cs@.skip(0) =~= s@);
        }
    }
    if cs.len() == start {
        return None;
    }
    digits_to_u16(&cs, start)
}

/// The decimal digit character for `d`.
pub open spec fn digit_char(d: int) -> char {
    ('0' as int + d) as char
}

/// The decimal spelling of `n`, without leading zeros.
pub open spec fn decimal(n: nat) -> Seq<char>
    decreases n,
{
    if n < 10 {
        seq![digit_char(n as int)]
    } else {
        decimal(n / 10).push(digit_char((n % 10) as int))
    }
}

/// Appends the decimal spelling of `n` (`n.to_string()`).
pub fn push_decimal(out: &mut Vec<char>, n: u64)
    ensures
        final(out)@ == old(out)@ + decimal(n as nat),
    decreases n,
{
    if n >= 10 {
        push_decimal(out, n / 10);
    }
    let d = (n % 10) as u8;
    let c = (48u8 + d) as char;
    assert(c == digit_char((n % 10) as int));
    out.push(c);
    assert(decimal(n as nat) == if n < 10 {
        seq![digit_char(n as int)]
    } else {
        decimal((n / 10) as nat).push(digit_char((n % 10) as int))
    });
}

// ---------------------------------------------------------------------------
// ASCII classes
// ---------------------------------------------------------------------------

pub open spec fn is_ascii_alnum(c: char) -> bool {
    ('0' <= c && c <= '9') || ('a' <= c && c <= 'z') || ('A' <= c && c <= 'Z')
}

/// `c` with ASCII capitals made small (`char::to_ascii_lowercase`).
pub open spec fn ascii_lower(c: char) -> char {
    if 'A' <= c && c <= 'Z' {
        (c as int + 32) as char
    } else {
        c
    }
}

/// `str::to_ascii_lowercase`.
pub open spec fn ascii_lowercase(s: Seq<char>) -> Seq<char> {
    s.map_values(|c: char| ascii_lower(c))
}

pub fn to_ascii_lower(c: char) -> (r: char)
    ensures
        r == ascii_lower(c),
{
    if 'A' <= c && c <= 'Z' {
        let b = (c as u8) + 32;
        proof {
            assert(c as int == c as u8 as int);
        }
        b as char
    } else {
        c
    }
}

pub fn ascii_lowercase_chars(s: &Vec<char>) -> (r: Vec<char>)
    ensures
        r@ == ascii_lowercase(s@),
{
    let mut r: Vec<char> = Vec::new();
    let mut i: usize = 0;
    while i < s.len()
        invariant
            i <= s.len(),
            r@ == ascii_lowercase(s@.take(i as int)),
        decreases s.len() - i,
    {
        r.push(to_ascii_lower(s[i]));
        i = i + 1;
        assert(r@ =~= ascii_lowercase(s@.take(i as int)));
    }
    assert(s@.take(s.len() as int) =~= s@);
    r
}

} // verus!

verus! {

proof fn lemma_trim_start_shape(s: Seq<char>)
    ensures
        trim_start(s).len() > 0 ==> !is_white_space(trim_start(s)[0]),
        trim_start(s).len() <= s.len(),
        trim_start(s) == s.skip(s.len() - trim_start(s).len()),
    decreases s.len(),
{
    if s.len() > 0 && is_white_space(s[0]) {
        lemma_trim_start_shape(s.drop_first());
        assert(s.drop_first().skip(s.drop_first().len() - trim_start(s).len()) =~= s.skip(
            s.len() - trim_start(s).len(),
        ));
    } else {
        assert(s.skip(0) =~= s);
    }
}

proof fn lemma_trim_end_shape(s: Seq<char>)
    ensures
        trim_end(s).len() > 0 ==> !is_white_space(trim_end(s).last()),
        trim_end(s).len() <= s.len(),
        trim_end(s) == s.take(trim_end(s).len() as int),
    decreases s.len(),
{
    if s.len() > 0 && is_white_space(s.last()) {
        lemma_trim_end_shape(s.drop_last());
        assert(s.drop_last().take(trim_end(s).len() as int) =~= s.take(trim_end(s).len() as int));
    } else {
        assert(s.take(s.len() as int) =~= s);
    }
}

/// Trimming a trimmed text changes nothing.
pub proof fn lemma_trim_idempotent(s: Seq<char>)
    ensures
        trim(trim(s)) == trim(s),
{
    let u = trim_start(s);
    let t = trim_end(u);
    lemma_trim_start_shape(s);
    lemma_trim_end_shape(u);
    if t.len() > 0 {
        assert(t[0] == u[0]);
    }
    assert(trim_start(t) == t);
    lemma_trim_end_shape(t);
    assert(trim_end(t) == t);
}

} // verus!

verus! {

/// Two strictly ascending sequences, under an asymmetric relation, that
/// hold the same elements are the same sequence.
pub proof fn lemma_strictly_sorted_unique<A>(s1: Seq<A>, s2: Seq<A>, lt: spec_fn(A, A) -> bool)
    requires
        forall|x: A, y: A| #[trigger] lt(x, y) ==> !lt(y, x),
        forall|i: int, j: int| 0 <= i < j < s1.len() ==> lt(#[trigger] s1[i], #[trigger] s1[j]),
        forall|i: int, j: int| 0 <= i < j < s2.len() ==> lt(#[trigger] s2[i], #[trigger] s2[j]),
        forall|x: A| s1.contains(x) <==> s2.contains(x),
    ensures
        s1 == s2,
    decreases s1.len(),
{
    if s1.len() == 0 {
        if s2.len() > 0 {
            assert(s2.contains(s2[0]));
        }
        assert(s1 =~= s2);
    } else {
        let x = s1[0];
        assert(s1.contains(x));
        let l = choose|l: int| 0 <= l < s2.len() && s2[l] == x;
        if l > 0 {
            let y = s2[0];
            assert(s2.contains(y));
            let k = choose|k: int| 0 <= k < s1.len() && s1[k] == y;
            assert(lt(s2[0], s2[l]));
            if k > 0 {
                assert(lt(s1[0], s1[k]));
            }
        }
        let t1 = s1.drop_first();
        let t2 = s2.drop_first();
        assert forall|z: A| t1.contains(z) <==> t2.contains(z) by {
            if t1.contains(z) {
                let k = choose|k: int| 0 <= k < t1.len() && t1[k] == z;
                assert(s1[k + 1] == z);
                assert(lt(s1[0], s1[k + 1]));
                assert(s2.contains(z));
                let m = choose|m: int| 0 <= m < s2.len() && s2[m] == z;
                assert(m != 0);
                assert(t2[m - 1] == z);
            }
            if t2.contains(z) {
                let k = choose|k: int| 0 <= k < t2.len() && t2[k] == z;
                assert(s2[k + 1] == z);
                assert(lt(s2[0], s2[k + 1]));
                assert(s1.contains(z));
                let m = choose|m: int| 0 <= m < s1.len() && s1[m] == z;
                assert(m != 0);
                assert(t1[m - 1] == z);
            }
        }
        assert forall|i: int, j: int| 0 <= i < j < t1.len() implies lt(
            #[trigger] t1[i],
            #[trigger] t1[j],
        ) by {
            assert(t1[i] == s1[i + 1] && t1[j] == s1[j + 1]);
        }
        assert forall|i: int, j: int| 0 <= i < j < t2.len() implies lt(
            #[trigger] t2[i],
            #[trigger] t2[j],
        ) by {
            assert(t2[i] == s2[i + 1] && t2[j] == s2[j + 1]);
        }
        lemma_strictly_sorted_unique(t1, t2, lt);
        assert(s1 =~= seq![x] + t1);
        assert(s2 =~= seq![x] + t2);
    }
}

} // verus!

verus! {

/// For sequences of one length, the order splits at any position: first by
/// the first `n` characters, then by the rest.
pub proof fn lemma_seq_lt_split(a: Seq<char>, b: Seq<char>, n: int)
    requires
        a.len() == b.len(),
        0 <= n <= a.len(),
    ensures
        seq_lt(a, b) == (seq_lt(a.take(n), b.take(n)) || (a.take(n) == b.take(n) && seq_lt(
            a.skip(n),
            b.skip(n),
        ))),
    decreases n,
{
    if n == 0 {
        assert(a.take(0) =~= b.take(0));
        assert(a.skip(0) =~= a);
        assert(b.skip(0) =~= b);
        lemma_seq_lt_irreflexive(a.take(0));
    } else {
        let ta = a.take(n);
        let tb = b.take(n);
        assert(ta[0] == a[0] && tb[0] == b[0]);
        if a[0] != b[0] {
            assert(ta != tb);
        } else {
            let a1 = a.drop_first();
            let b1 = b.drop_first();
            lemma_seq_lt_split(a1, b1, n - 1);
            assert(ta.drop_first() =~= a1.take(n - 1));
            assert(tb.drop_first() =~= b1.take(n - 1));
            assert(a1.skip(n - 1) =~= a.skip(n));
            assert(b1.skip(n - 1) =~= b.skip(n));
            if a1.take(n - 1) == b1.take(n - 1) {
                assert forall|k: int| 0 <= k < n implies ta[k] == tb[k] by {
                    if k > 0 {
                        assert(ta[k] == a1.take(n - 1)[k - 1]);
                        assert(tb[k] == b1.take(n - 1)[k - 1]);
                    }
                }
                assert(ta =~= tb);
            }
            if ta == tb {
                assert(a1.take(n - 1) =~= b1.take(n - 1));
            }
        }
    }
}

/// For runs of decimal digits of one length, the order of the texts is the
/// order of the numbers they spell, and equal texts spell equal numbers.
pub proof fn lemma_digits_order(a: Seq<char>, b: Seq<char>)
    requires
        a.len() == b.len(),
        all_digits(a),
        all_digits(b),
    ensures
        seq_lt(a, b) == (digits_value(a) < digits_value(b)),
        (a == b) == (digits_value(a) == digits_value(b)),
    decreases a.len(),
{
    if a.len() == 0 {
        assert(a =~= b);
        lemma_seq_lt_irreflexive(a);
    } else {
        let n = a.len() - 1;
        let a1 = a.drop_last();
        let b1 = b.drop_last();
        assert(all_digits(a1)) by {
            assert forall|k: int| 0 <= k < a1.len() implies is_digit_char(#[trigger] a1[k]) by {
                assert(a1[k] == a[k]);
            }
        }
        assert(all_digits(b1)) by {
            assert forall|k: int| 0 <= k < b1.len() implies is_digit_char(#[trigger] b1[k]) by {
                assert(b1[k] == b[k]);
            }
        }
        lemma_digits_order(a1, b1);
        lemma_seq_lt_split(a, b, n);
        assert(a.take(n) =~= a1);
        assert(b.take(n) =~= b1);
        let la = a.skip(n);
        let lb = b.skip(n);
        assert(la.len() == 1 && la[0] == a[n] && lb[0] == b[n]);
        assert(la.drop_first() =~= Seq::<char>::empty());
        assert(lb.drop_first() =~= Seq::<char>::empty());
        assert(is_digit_char(a[n]) && is_digit_char(b[n]));
        assert(a.last() == a[n] && b.last() == b[n]);
        assert(0 <= digit_value(a[n]) <= 9);
        assert(0 <= digit_value(b[n]) <= 9);
        assert((a[n] < b[n]) == (digit_value(a[n]) < digit_value(b[n])));
        assert((a[n] == b[n]) == (digit_value(a[n]) == digit_value(b[n])));
        lemma_seq_lt_irreflexive(Seq::<char>::empty());
        assert(seq_lt(la, lb) == (a[n] < b[n]));
        assert(digits_value(a) == 10 * digits_value(a1) + digit_value(a[n]));
        assert(digits_value(b) == 10 * digits_value(b1) + digit_value(b[n]));
        lemma_seq_lt_total(a1, b1);
        if a1 == b1 && a[n] == b[n] {
            assert forall|k: int| 0 <= k < a.len() implies a[k] == b[k] by {
                if k < n {
                    assert(a1[k] == a[k] && b1[k] == b[k]);
                }
            }
            assert(a =~= b);
        }
    }
}

} // verus!

verus! {

/// A text occurs in any text made by putting something before and after it.
pub proof fn lemma_occurs_in_middle(x: Seq<char>, p: Seq<char>, y: Seq<char>)
    ensures
        occurs_in(x + p + y, p),
{
    let t = x + p + y;
    assert(t.subrange(x.len() as int, (x.len() + p.len()) as int) =~= p);
}

/// What occurs in a text occurs in any text that holds it.
pub proof fn lemma_occurs_in_extend(x: Seq<char>, t: Seq<char>, y: Seq<char>, p: Seq<char>)
    requires
        occurs_in(t, p),
    ensures
        occurs_in(x + t + y, p),
{
    let i = choose|i: int|
        0 <= i && i + p.len() <= t.len() && #[trigger] t.subrange(i, i + p.len()) == p;
    let s = x + t + y;
    assert(s.subrange(x.len() + i, x.len() + i + p.len()) =~= t.subrange(i, i + p.len()));
}

/// Every part occurs in the parts joined.
pub proof fn lemma_join_holds_parts(parts: Seq<Seq<char>>, sep: Seq<char>, i: int)
    requires
        0 <= i < parts.len(),
    ensures
        occurs_in(join(parts, sep), parts[i]),
    decreases parts.len(),
{
    let e = Seq::<char>::empty();
    if parts.len() == 1 {
        lemma_occurs_in_middle(e, parts[0], e);
        assert(e + parts[0] + e =~= parts[0]);
    } else {
        let head = join(parts.drop_last(), sep);
        if i == parts.len() - 1 {
            lemma_occurs_in_middle(head + sep, parts.last(), e);
            assert(head + sep + parts.last() + e =~= join(parts, sep));
        } else {
            lemma_join_holds_parts(parts.drop_last(), sep, i);
            assert(parts.drop_last()[i] == parts[i]);
            lemma_occurs_in_extend(e, head, sep + parts.last(), parts[i]);
            assert(e + head + (sep + parts.last()) =~= join(parts, sep));
        }
    }
}

/// A text occurs in itself.
pub proof fn lemma_occurs_in_itself(t: Seq<char>)
    ensures
        occurs_in(t, t),
{
    let e = Seq::<char>::empty();
    lemma_occurs_in_middle(e, t, e);
    assert(e + t + e =~= t);
}

} // verus!
