//! Character classes and scanning over the characters of a line.

use vstd::prelude::*;
use vstd::string::*;

verus! {

/// The character classes that the schema grammar is built from.
#[derive(Clone, Copy, PartialEq, Eq, Debug)]
pub enum CharClass {
    /// Unicode white space.
    Space,
    /// `[a-zA-Z0-9_/]`: the characters of a type token.
    TypeChar,
    /// `[a-zA-Z0-9_]`: the characters of a field name after its first letter.
    NameChar,
    /// `[0-9]`.
    Digit,
}

pub open spec fn is_letter(c: char) -> bool {
    ('a' <= c && c <= 'z') || ('A' <= c && c <= 'Z')
}

pub open spec fn is_digit(c: char) -> bool {
    '0' <= c && c <= '9'
}

/// The Unicode `White_Space` property.
pub open spec fn is_space(c: char) -> bool {
    ('\t' <= c && c <= '\r') || c == ' ' || c == '\u{85}' || c == '\u{a0}' || c == '\u{1680}'
        || ('\u{2000}' <= c && c <= '\u{200a}') || c == '\u{2028}' || c == '\u{2029}'
        || c == '\u{202f}' || c == '\u{205f}' || c == '\u{3000}'
}

pub open spec fn in_class(c: char, k: CharClass) -> bool {
    match k {
        CharClass::Space => is_space(c),
        CharClass::TypeChar => is_letter(c) || is_digit(c) || c == '_' || c == '/',
        CharClass::NameChar => is_letter(c) || is_digit(c) || c == '_',
        CharClass::Digit => is_digit(c),
    }
}

/// The end of the longest run of characters of class `k` that starts at `i`.
pub open spec fn run_end(s: Seq<char>, i: int, k: CharClass) -> int
    decreases s.len() - i,
{
    if 0 <= i < s.len() && in_class(s[i], k) {
        run_end(s, i + 1, k)
    } else {
        i
    }
}

/// Where the characters that remain after leading white space begin.
pub open spec fn trim_start(s: Seq<char>) -> int {
    run_end(s, 0, CharClass::Space)
}

/// Moving back from `j`, but not below `lo`, the end of `s` without trailing white space.
pub open spec fn trim_stop(s: Seq<char>, lo: int, j: int) -> int
    decreases j - lo,
{
    if lo < j && is_space(s[j - 1]) {
        trim_stop(s, lo, j - 1)
    } else {
        j
    }
}

/// `s` without leading and trailing white space.
pub open spec fn trimmed(s: Seq<char>) -> Seq<char> {
    s.subrange(trim_start(s), trim_stop(s, trim_start(s), s.len() as int))
}

/// The position of the first `c` in `s` at or after `i`, or the length of `s`.
pub open spec fn find_from(s: Seq<char>, i: int, c: char) -> int
    decreases s.len() - i,
{
    if 0 <= i < s.len() && s[i] != c {
        find_from(s, i + 1, c)
    } else {
        i
    }
}

pub proof fn lemma_run_end_bounds(s: Seq<char>, i: int, k: CharClass)
    requires
        0 <= i <= s.len(),
    ensures
        i <= run_end(s, i, k) <= s.len(),
        forall|j: int| i <= j < run_end(s, i, k) ==> in_class(#[trigger] s[j], k),
        run_end(s, i, k) < s.len() ==> !in_class(s[run_end(s, i, k)], k),
    decreases s.len() - i,
{
    if i < s.len() && in_class(s[i], k) {
        lemma_run_end_bounds(s, i + 1, k);
    }
}

pub proof fn lemma_trim_stop_bounds(s: Seq<char>, lo: int, j: int)
    requires
        0 <= lo <= j <= s.len(),
    ensures
        lo <= trim_stop(s, lo, j) <= j,
    decreases j - lo,
{
    if lo < j && is_space(s[j - 1]) {
        lemma_trim_stop_bounds(s, lo, j - 1);
    }
}

pub proof fn lemma_find_bounds(s: Seq<char>, i: int, c: char)
    requires
        0 <= i <= s.len(),
    ensures
        i <= find_from(s, i, c) <= s.len(),
        forall|j: int| i <= j < find_from(s, i, c) ==> #[trigger] s[j] != c,
        find_from(s, i, c) < s.len() ==> s[find_from(s, i, c)] == c,
    decreases s.len() - i,
{
    if i < s.len() && s[i] != c {
        lemma_find_bounds(s, i + 1, c);
    }
}

/// Every character of `s` is white space.
pub open spec fn all_space(s: Seq<char>) -> bool {
    forall|j: int| 0 <= j < s.len() ==> is_space(#[trigger] s[j])
}

proof fn lemma_run_skip(s: Seq<char>, i: int, m: int, k: CharClass)
    requires
        0 <= i <= m <= s.len(),
        forall|j: int| i <= j < m ==> in_class(#[trigger] s[j], k),
    ensures
        run_end(s, i, k) == run_end(s, m, k),
    decreases m - i,
{
    if i < m {
        lemma_run_skip(s, i + 1, m, k);
    }
}

proof fn lemma_run_shift(pre: Seq<char>, x: Seq<char>, post: Seq<char>, j: int, k: CharClass)
    requires
        0 <= j <= x.len(),
        run_end(x, j, k) < x.len(),
    ensures
        run_end(pre + x + post, pre.len() + j, k) == pre.len() + run_end(x, j, k),
    decreases x.len() - j,
{
    let s = pre + x + post;
    if j < x.len() {
        assert(s[pre.len() + j] == x[j]);
        if in_class(x[j], k) {
            lemma_run_shift(pre, x, post, j + 1, k);
        }
    }
}

proof fn lemma_stop_shift(pre: Seq<char>, x: Seq<char>, post: Seq<char>, lo: int, j: int)
    requires
        0 <= lo <= j <= x.len(),
    ensures
        trim_stop(pre + x + post, pre.len() + lo, pre.len() + j) == pre.len() + trim_stop(x, lo, j),
    decreases j - lo,
{
    let s = pre + x + post;
    if lo < j {
        assert(s[pre.len() + j - 1] == x[j - 1]);
        lemma_stop_shift(pre, x, post, lo, j - 1);
    }
}

proof fn lemma_stop_skip(s: Seq<char>, lo: int, m: int, j: int)
    requires
        0 <= lo < m <= j <= s.len(),
        forall|i: int| m <= i < j ==> is_space(#[trigger] s[i]),
    ensures
        trim_stop(s, lo, j) == trim_stop(s, lo, m),
    decreases j - m,
{
    if m < j {
        lemma_stop_skip(s, lo, m, j - 1);
    }
}

/// White space around a text does not change it once trimmed.
pub proof fn lemma_trim_surrounding(w1: Seq<char>, x: Seq<char>, w2: Seq<char>)
    requires
        all_space(w1),
        all_space(w2),
    ensures
        trimmed(w1 + x + w2) == trimmed(x),
{
    let s = w1 + x + w2;
    assert forall|j: int| 0 <= j < w1.len() implies in_class(#[trigger] s[j], CharClass::Space) by {
        assert(s[j] == w1[j]);
    }
    lemma_run_skip(s, 0, w1.len() as int, CharClass::Space);
    lemma_run_end_bounds(x, 0, CharClass::Space);
    let a = trim_start(x);
    if a == x.len() {
        assert forall|j: int| w1.len() <= j < s.len() implies in_class(#[trigger] s[j], CharClass::Space) by {
            if j < w1.len() + x.len() {
                assert(s[j] == x[j - w1.len()]);
            } else {
                assert(s[j] == w2[j - w1.len() - x.len()]);
            }
        }
        lemma_run_skip(s, w1.len() as int, s.len() as int, CharClass::Space);
        assert(trim_start(s) == s.len());
        assert(trimmed(s) =~= Seq::<char>::empty());
        assert(trimmed(x) =~= Seq::<char>::empty());
    } else {
        lemma_run_shift(w1, x, w2, 0, CharClass::Space);
        assert(trim_start(s) == w1.len() + a);
        let m = (w1.len() + x.len()) as int;
        assert forall|i: int| m <= i < s.len() implies is_space(#[trigger] s[i]) by {
            assert(s[i] == w2[i - m]);
        }
        lemma_stop_skip(s, w1.len() + a, m, s.len() as int);
        lemma_stop_shift(w1, x, w2, a, x.len() as int);
        lemma_trim_stop_bounds(x, a, x.len() as int);
        let b = trim_stop(x, a, x.len() as int);
        assert(s.subrange(w1.len() + a, w1.len() + b) =~= x.subrange(a, b));
    }
}

pub fn is_in_class(c: char, k: CharClass) -> (r: bool)
    ensures
        r == in_class(c, k),
{
    let letter = ('a' <= c && c <= 'z') || ('A' <= c && c <= 'Z');
    let digit = '0' <= c && c <= '9';
    match k {
        CharClass::Space => ('\t' <= c && c <= '\r') || c == ' ' || c == '\u{85}' || c == '\u{a0}'
            || c == '\u{1680}' || ('\u{2000}' <= c && c <= '\u{200a}') || c == '\u{2028}'
            || c == '\u{2029}' || c == '\u{202f}' || c == '\u{205f}' || c == '\u{3000}',
        CharClass::TypeChar => letter || digit || c == '_' || c == '/',
        CharClass::NameChar => letter || digit || c == '_',
        CharClass::Digit => digit,
    }
}

/// The characters of `s`, one per element.
pub fn chars_of(s: &str) -> (r: Vec<char>)
    ensures
        r@ == s@,
{
    let n = s.unicode_len();
    let mut v: Vec<char> = Vec::new();
    let mut i: usize = 0;
    while i < n
        invariant
            n == s@.len(),
            i <= n,
            v@ == s@.subrange(0, i as int),
        decreases n - i,
    {
        v.push(s.get_char(i));
        i = i + 1;
        assert(v@ =~= s@.subrange(0, i as int));
    }
    assert(v@ =~= s@);
    v
}

/// The end of the run of class `k` that starts at `i`.
pub fn scan(v: &Vec<char>, i: usize, k: CharClass) -> (r: usize)
    requires
        i <= v@.len(),
    ensures
        r == run_end(v@, i as int, k),
        i <= r <= v@.len(),
{
    let mut j = i;
    while j < v.len() && is_in_class(v[j], k)
        invariant
            i <= j <= v@.len(),
            run_end(v@, i as int, k) == run_end(v@, j as int, k),
        decreases v@.len() - j,
    {
        j = j + 1;
    }
    j
}

/// The position of the first `c` in `v` at or after `from`, or its length.
pub fn find_char(v: &Vec<char>, from: usize, c: char) -> (r: usize)
    requires
        from <= v@.len(),
    ensures
        r == find_from(v@, from as int, c),
        from <= r <= v@.len(),
{
    let mut j: usize = from;
    while j < v.len() && v[j] != c
        invariant
            from <= j <= v@.len(),
            find_from(v@, from as int, c) == find_from(v@, j as int, c),
        decreases v@.len() - j,
    {
        j = j + 1;
    }
    j
}

/// The bounds of `v` without leading and trailing white space.
pub fn trim_bounds(v: &Vec<char>) -> (r: (usize, usize))
    ensures
        r.0 == trim_start(v@),
        r.1 == trim_stop(v@, trim_start(v@), v@.len() as int),
        r.0 <= r.1 <= v@.len(),
{
    let start = scan(v, 0, CharClass::Space);
    let mut stop = v.len();
    while start < stop && is_in_class(v[stop - 1], CharClass::Space)
        invariant
            start <= stop <= v@.len(),
            start == trim_start(v@),
            trim_stop(v@, start as int, v@.len() as int) == trim_stop(v@, start as int, stop as int),
        decreases stop,
    {
        stop = stop - 1;
    }
    (start, stop)
}

/// Whether `v` holds exactly the characters of `w`.
pub fn equals_str(v: &Vec<char>, w: &str) -> (r: bool)
    ensures
        r == (v@ == w@),
{
    let n = w.unicode_len();
    if v.len() != n {
        return false;
    }
    let mut i: usize = 0;
    while i < n
        invariant
            n == w@.len(),
            n == v@.len(),
            i <= n,
            forall|j: int| 0 <= j < i ==> v@[j] == w@[j],
        decreases n - i,
    {
        if v[i] != w.get_char(i) {
            return false;
        }
        i = i + 1;
    }
    assert(v@ =~= w@);
    true
}

/// The value of a run of decimal digits.
pub open spec fn digits_value(s: Seq<char>) -> nat
    decreases s.len(),
{
    if s.len() == 0 {
        0
    } else {
        digits_value(s.drop_last()) * 10 + ((s.last() as u32 - '0' as u32) as nat)
    }
}

/// The text of one decimal digit.
pub open spec fn digit_text(d: nat) -> Seq<char> {
    if d == 0 {
        "0"@
    } else if d == 1 {
        "1"@
    } else if d == 2 {
        "2"@
    } else if d == 3 {
        "3"@
    } else if d == 4 {
        "4"@
    } else if d == 5 {
        "5"@
    } else if d == 6 {
        "6"@
    } else if d == 7 {
        "7"@
    } else if d == 8 {
        "8"@
    } else {
        "9"@
    }
}

/// The decimal text of `n`, without leading zeros.
pub open spec fn decimal_text(n: nat) -> Seq<char>
    decreases n,
{
    if n < 10 {
        digit_text(n)
    } else {
        decimal_text(n / 10) + digit_text(n % 10)
    }
}

pub proof fn lemma_digits_prefix(s: Seq<char>, k: int)
    requires
        0 <= k <= s.len(),
    ensures
        digits_value(s.subrange(0, k)) <= digits_value(s),
    decreases s.len(),
{
    if k < s.len() {
        lemma_digits_prefix(s.drop_last(), k);
        assert(s.drop_last().subrange(0, k) =~= s.subrange(0, k));
    } else {
        assert(s.subrange(0, k) =~= s);
    }
}

/// The value of the digits `v[lo..hi]`, or `None` where it exceeds `usize`.
pub fn parse_digits(v: &Vec<char>, lo: usize, hi: usize) -> (r: Option<usize>)
    requires
        lo <= hi <= v@.len(),
        forall|j: int| lo <= j < hi ==> is_digit(#[trigger] v@[j]),
    ensures
        match r {
            Some(n) => n == digits_value(v@.subrange(lo as int, hi as int)),
            None => digits_value(v@.subrange(lo as int, hi as int)) > usize::MAX,
        },
{
    let ghost whole = v@.subrange(lo as int, hi as int);
    let mut val: usize = 0;
    let mut j = lo;
    assert(v@.subrange(lo as int, lo as int) =~= Seq::<char>::empty());
    while j < hi
        invariant
            lo <= j <= hi <= v@.len(),
            whole == v@.subrange(lo as int, hi as int),
            forall|i: int| lo <= i < hi ==> is_digit(#[trigger] v@[i]),
            val == digits_value(v@.subrange(lo as int, j as int)),
        decreases hi - j,
    {
        let ghost next = v@.subrange(lo as int, j + 1);
        assert(next.drop_last() =~= v@.subrange(lo as int, j as int));
        assert(whole.subrange(0, j + 1 - lo) =~= next);
        let d = (v[j] as u32 - '0' as u32) as usize;
        proof {
            lemma_digits_prefix(whole, j + 1 - lo);
        }
        match val.checked_mul(10) {
            None => {
                return None;
            },
            Some(m) => match m.checked_add(d) {
                None => {
                    return None;
                },
                Some(x) => {
                    val = x;
                },
            },
        }
        j = j + 1;
    }
    assert(v@.subrange(lo as int, j as int) =~= whole);
    Some(val)
}

fn digit_str(d: usize) -> (r: &'static str)
    requires
        d < 10,
    ensures
        r@ == digit_text(d as nat),
{
    if d == 0 {
        "0"
    } else if d == 1 {
        "1"
    } else if d == 2 {
        "2"
    } else if d == 3 {
        "3"
    } else if d == 4 {
        "4"
    } else if d == 5 {
        "5"
    } else if d == 6 {
        "6"
    } else if d == 7 {
        "7"
    } else if d == 8 {
        "8"
    } else {
        "9"
    }
}

/// Appends the decimal text of `n` to `out`.
pub fn push_decimal(out: &mut String, n: usize)
    ensures
        final(out)@ == old(out)@ + decimal_text(n as nat),
    decreases n,
{
    if n >= 10 {
        push_decimal(out, n / 10);
    }
    out.append(digit_str(n % 10));
    assert(final(out)@ =~= old(out)@ + decimal_text(n as nat));
}

/// Whether `v` begins with the characters of `w`.
pub fn starts_with_str(v: &Vec<char>, w: &str) -> (r: bool)
    ensures
        r == (w@.len() <= v@.len() && v@.subrange(0, w@.len() as int) == w@),
{
    let n = w.unicode_len();
    if v.len() < n {
        return false;
    }
    let mut i: usize = 0;
    while i < n
        invariant
            n == w@.len(),
            n <= v@.len(),
            i <= n,
            forall|j: int| 0 <= j < i ==> v@[j] == w@[j],
        decreases n - i,
    {
        if v[i] != w.get_char(i) {
            assert(v@.subrange(0, n as int)[i as int] != w@[i as int]);
            return false;
        }
        i = i + 1;
    }
    assert(v@.subrange(0, n as int) =~= w@);
    true
}

pub fn is_letter_char(c: char) -> (r: bool)
    ensures
        r == is_letter(c),
{
    ('a' <= c && c <= 'z') || ('A' <= c && c <= 'Z')
}

} // verus!
