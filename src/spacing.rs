//! White space between the tokens of a line does not matter.
//!
//! Two lines `x + w1 + y` and `x + w2 + y` that differ only in one run of white
//! space are compared position by position: a position in `x` stands for
//! itself, one in `y` moves by the difference of the two widths. Lines `x + y`
//! and `x + w + y`, where the grammar allows but does not need space at the
//! seam, are compared the same way, the seam standing for both ends of `w`.

use vstd::prelude::*;
use crate::error::SchemaErrorView;
use crate::field::{
    array_form, const_numeric_form, const_string_form, field_form, lemma_find_at, line_result, name_end,
    stripped, vector_form, FieldInfoView,
};
use crate::text::{
    all_space, find_from, in_class, is_letter, is_space, lemma_run_end_bounds, run_end, trim_start,
    trim_stop, trimmed, CharClass,
};

verus! {

/// Where position `p` of the line with run width `n1` stands in the line with
/// run width `n2`, the run beginning at `m`.
pub open spec fn moved(p: int, m: int, n1: int, n2: int) -> int {
    if p <= m {
        p
    } else {
        p - n1 + n2
    }
}

/// The positions that have a counterpart: none strictly inside the run.
pub open spec fn outside(p: int, m: int, n1: int) -> bool {
    p <= m || m + n1 <= p
}

/// The two lines differ in one run of white space, which has a token on both
/// sides.
pub open spec fn respaced(x: Seq<char>, w1: Seq<char>, w2: Seq<char>, y: Seq<char>) -> bool {
    &&& x.len() > 0 && !is_space(x.last())
    &&& y.len() > 0 && !is_space(y[0])
    &&& w1.len() > 0 && all_space(w1)
    &&& w2.len() > 0 && all_space(w2)
}

/// The value of the string constant that `d` reads as.
pub open spec fn string_value(d: Seq<char>) -> Seq<char> {
    let (_, _, v) = const_string_form(d)->0;
    v
}

proof fn lemma_run_suffix(pre: Seq<char>, y: Seq<char>, j: int, k: CharClass)
    requires
        0 <= j <= y.len(),
    ensures
        run_end(pre + y, pre.len() + j, k) == pre.len() + run_end(y, j, k),
    decreases y.len() - j,
{
    if j < y.len() {
        assert((pre + y)[pre.len() + j] == y[j]);
        lemma_run_suffix(pre, y, j + 1, k);
    }
}

proof fn lemma_run_moved(x: Seq<char>, w1: Seq<char>, w2: Seq<char>, y: Seq<char>, p: int, k: CharClass)
    requires
        respaced(x, w1, w2, y),
        0 <= p <= x.len() + w1.len() + y.len(),
        outside(p, x.len() as int, w1.len() as int),
    ensures
        outside(run_end(x + w1 + y, p, k), x.len() as int, w1.len() as int),
        run_end(x + w2 + y, moved(p, x.len() as int, w1.len() as int, w2.len() as int), k) == moved(
            run_end(x + w1 + y, p, k),
            x.len() as int,
            w1.len() as int,
            w2.len() as int,
        ),
    decreases x.len() - p,
{
    let s1 = x + w1 + y;
    let s2 = x + w2 + y;
    let m = x.len() as int;
    if p >= m + w1.len() {
        lemma_run_suffix(x + w1, y, p - m - w1.len(), k);
        lemma_run_suffix(x + w2, y, p - m - w1.len(), k);
        lemma_run_end_bounds(y, p - m - w1.len(), k);
    } else if p == m {
        assert(s1[m] == w1[0] && s2[m] == w2[0]);
        if k == CharClass::Space {
            lemma_skip_space(x, w1, y);
            lemma_skip_space(x, w2, y);
        }
    } else {
        assert(s1[p] == x[p] && s2[p] == x[p]);
        if in_class(x[p], k) {
            if p + 1 == m {
                assert(x[p] == x.last());
            }
            lemma_run_moved(x, w1, w2, y, p + 1, k);
        }
    }
}

proof fn lemma_skip_space(x: Seq<char>, w: Seq<char>, y: Seq<char>)
    requires
        w.len() > 0,
        all_space(w),
        y.len() > 0,
        !is_space(y[0]),
    ensures
        run_end(x + w + y, x.len() as int, CharClass::Space) == x.len() + w.len(),
    decreases w.len(),
{
    let s = x + w + y;
    assert(s[x.len() as int] == w[0]);
    assert(is_space(w[0]));
    assert(run_end(s, x.len() as int, CharClass::Space) == run_end(s, x.len() + 1 as int, CharClass::Space));
    if w.len() == 1 {
        assert(s[x.len() + 1 as int] == y[0]);
    } else {
        let x2 = x.push(w[0]);
        let w2 = w.drop_first();
        assert(x2 + w2 + y =~= s);
        assert forall|j: int| 0 <= j < w2.len() implies is_space(#[trigger] w2[j]) by {
            assert(w2[j] == w[j + 1]);
        }
        lemma_skip_space(x2, w2, y);
    }
}

proof fn lemma_char_moved(x: Seq<char>, w1: Seq<char>, w2: Seq<char>, y: Seq<char>, p: int)
    requires
        respaced(x, w1, w2, y),
        0 <= p < x.len() + w1.len() + y.len(),
        outside(p, x.len() as int, w1.len() as int),
    ensures
        0 <= moved(p, x.len() as int, w1.len() as int, w2.len() as int) < x.len() + w2.len() + y.len(),
        p == x.len() ==> is_space((x + w1 + y)[p]) && is_space((x + w2 + y)[p]),
        p != x.len() ==> (x + w1 + y)[p] == (x + w2 + y)[moved(p, x.len() as int, w1.len() as int, w2.len() as int)],
        p != x.len() ==> outside(p + 1, x.len() as int, w1.len() as int) && moved(p + 1, x.len() as int, w1.len() as int, w2.len() as int)
            == moved(p, x.len() as int, w1.len() as int, w2.len() as int) + 1,
{
    let m = x.len() as int;
    if p == m {
        assert((x + w1 + y)[p] == w1[0]);
        assert((x + w2 + y)[p] == w2[0]);
    } else if p < m {
        assert((x + w1 + y)[p] == x[p]);
        assert((x + w2 + y)[p] == x[p]);
    } else {
        assert((x + w1 + y)[p] == y[p - m - w1.len()]);
        assert((x + w2 + y)[p - w1.len() + w2.len()] == y[p - m - w1.len()]);
    }
}

proof fn lemma_part_moved(x: Seq<char>, w1: Seq<char>, w2: Seq<char>, y: Seq<char>, p: int, q: int)
    requires
        respaced(x, w1, w2, y),
        0 <= p <= q <= x.len() + w1.len() + y.len(),
        outside(p, x.len() as int, w1.len() as int),
        outside(q, x.len() as int, w1.len() as int),
        !(p <= x.len() < q),
    ensures
        (x + w1 + y).subrange(p, q) == (x + w2 + y).subrange(
            moved(p, x.len() as int, w1.len() as int, w2.len() as int),
            moved(q, x.len() as int, w1.len() as int, w2.len() as int),
        ),
{
    let m = x.len() as int;
    if q <= m {
        assert((x + w1 + y).subrange(p, q) =~= x.subrange(p, q));
        assert((x + w2 + y).subrange(p, q) =~= x.subrange(p, q));
    } else {
        let d = m + w1.len();
        assert((x + w1 + y).subrange(p, q) =~= y.subrange(p - d, q - d));
        assert((x + w2 + y).subrange(p - w1.len() + w2.len(), q - w1.len() + w2.len()) =~= y.subrange(p - d, q - d));
    }
}

/// A token of a class without white space keeps its text.
proof fn lemma_token_moved(x: Seq<char>, w1: Seq<char>, w2: Seq<char>, y: Seq<char>, p: int, k: CharClass)
    requires
        respaced(x, w1, w2, y),
        k != CharClass::Space,
        0 <= p <= x.len() + w1.len() + y.len(),
        outside(p, x.len() as int, w1.len() as int),
    ensures
        outside(run_end(x + w1 + y, p, k), x.len() as int, w1.len() as int),
        run_end(x + w2 + y, moved(p, x.len() as int, w1.len() as int, w2.len() as int), k)
            == moved(run_end(x + w1 + y, p, k), x.len() as int, w1.len() as int, w2.len() as int),
        (x + w1 + y).subrange(p, run_end(x + w1 + y, p, k)) == (x + w2 + y).subrange(
            moved(p, x.len() as int, w1.len() as int, w2.len() as int),
            run_end(x + w2 + y, moved(p, x.len() as int, w1.len() as int, w2.len() as int), k),
        ),
        p <= x.len() ==> run_end(x + w1 + y, p, k) <= x.len(),
{
    let s1 = x + w1 + y;
    let m = x.len() as int;
    lemma_run_moved(x, w1, w2, y, p, k);
    lemma_run_end_bounds(s1, p, k);
    let r = run_end(s1, p, k);
    if p <= m && m < r {
        assert(s1[m] == w1[0]);
        assert(in_class(s1[m], k));
    }
    lemma_part_moved(x, w1, w2, y, p, r);
}

/// A field name keeps its text.
proof fn lemma_name_moved(x: Seq<char>, w1: Seq<char>, w2: Seq<char>, y: Seq<char>, p: int)
    requires
        respaced(x, w1, w2, y),
        0 <= p <= x.len() + w1.len() + y.len(),
        outside(p, x.len() as int, w1.len() as int),
    ensures
        p <= name_end(x + w1 + y, p) <= x.len() + w1.len() + y.len(),
        outside(name_end(x + w1 + y, p), x.len() as int, w1.len() as int),
        name_end(x + w2 + y, moved(p, x.len() as int, w1.len() as int, w2.len() as int))
            == moved(name_end(x + w1 + y, p), x.len() as int, w1.len() as int, w2.len() as int),
        (x + w1 + y).subrange(p, name_end(x + w1 + y, p)) == (x + w2 + y).subrange(
            moved(p, x.len() as int, w1.len() as int, w2.len() as int),
            name_end(x + w2 + y, moved(p, x.len() as int, w1.len() as int, w2.len() as int)),
        ),
{
    let s1 = x + w1 + y;
    let s2 = x + w2 + y;
    let m = x.len() as int;
    if p < s1.len() {
        lemma_char_moved(x, w1, w2, y, p);
        if p != m && is_letter(s1[p]) {
            lemma_token_moved(x, w1, w2, y, p + 1, CharClass::NameChar);
            lemma_run_end_bounds(s1, p + 1, CharClass::NameChar);
            let r = run_end(s1, p + 1, CharClass::NameChar);
            lemma_part_moved(x, w1, w2, y, p, r);
        } else {
            assert(s1.subrange(p, p) =~= s2.subrange(moved(p, m, w1.len() as int, w2.len() as int), moved(p, m, w1.len() as int, w2.len() as int)));
        }
    } else {
        assert(s1.subrange(p, p) =~= s2.subrange(moved(p, m, w1.len() as int, w2.len() as int), moved(p, m, w1.len() as int, w2.len() as int)));
    }
}

proof fn lemma_field_form_moved(x: Seq<char>, w1: Seq<char>, w2: Seq<char>, y: Seq<char>)
    requires
        respaced(x, w1, w2, y),
    ensures
        field_form(x + w1 + y) == field_form(x + w2 + y),
{
    let s1 = x + w1 + y;
    let s2 = x + w2 + y;
    let (m, n1, n2) = (x.len() as int, w1.len() as int, w2.len() as int);
    lemma_token_moved(x, w1, w2, y, 0, CharClass::TypeChar);
    let a = run_end(s1, 0, CharClass::TypeChar);
    lemma_run_end_bounds(s1, 0, CharClass::TypeChar);
    lemma_run_moved(x, w1, w2, y, a, CharClass::Space);
    let b = run_end(s1, a, CharClass::Space);
    lemma_run_end_bounds(s1, a, CharClass::Space);
    lemma_name_moved(x, w1, w2, y, b);
    let c = name_end(s1, b);
    assert(moved(s1.len() as int, m, n1, n2) == s2.len());
}

proof fn lemma_vector_form_moved(x: Seq<char>, w1: Seq<char>, w2: Seq<char>, y: Seq<char>)
    requires
        respaced(x, w1, w2, y),
    ensures
        vector_form(x + w1 + y) == vector_form(x + w2 + y),
{
    let s1 = x + w1 + y;
    let s2 = x + w2 + y;
    let (m, n1, n2) = (x.len() as int, w1.len() as int, w2.len() as int);
    assert(moved(s1.len() as int, m, n1, n2) == s2.len());
    lemma_token_moved(x, w1, w2, y, 0, CharClass::TypeChar);
    let a = run_end(s1, 0, CharClass::TypeChar);
    lemma_run_end_bounds(s1, 0, CharClass::TypeChar);
    lemma_run_moved(x, w1, w2, y, a, CharClass::Space);
    let b = run_end(s1, a, CharClass::Space);
    lemma_run_end_bounds(s1, a, CharClass::Space);
    if b < s1.len() {
        lemma_char_moved(x, w1, w2, y, b);
        if s1[b] == '[' {
            lemma_run_moved(x, w1, w2, y, b + 1, CharClass::Space);
            let c = run_end(s1, b + 1, CharClass::Space);
            lemma_run_end_bounds(s1, b + 1, CharClass::Space);
            if c < s1.len() {
                lemma_char_moved(x, w1, w2, y, c);
                if s1[c] == ']' {
                    lemma_run_moved(x, w1, w2, y, c + 1, CharClass::Space);
                    let e = run_end(s1, c + 1, CharClass::Space);
                    lemma_run_end_bounds(s1, c + 1, CharClass::Space);
                    lemma_name_moved(x, w1, w2, y, e);
                }
            }
        }
    } else {
        assert(moved(b, m, n1, n2) == s2.len());
    }
}

proof fn lemma_array_form_moved(x: Seq<char>, w1: Seq<char>, w2: Seq<char>, y: Seq<char>)
    requires
        respaced(x, w1, w2, y),
    ensures
        array_form(x + w1 + y) == array_form(x + w2 + y),
{
    let s1 = x + w1 + y;
    let s2 = x + w2 + y;
    let (m, n1, n2) = (x.len() as int, w1.len() as int, w2.len() as int);
    assert(moved(s1.len() as int, m, n1, n2) == s2.len());
    lemma_token_moved(x, w1, w2, y, 0, CharClass::TypeChar);
    let a = run_end(s1, 0, CharClass::TypeChar);
    lemma_run_end_bounds(s1, 0, CharClass::TypeChar);
    lemma_run_moved(x, w1, w2, y, a, CharClass::Space);
    let b = run_end(s1, a, CharClass::Space);
    lemma_run_end_bounds(s1, a, CharClass::Space);
    if b < s1.len() {
        lemma_char_moved(x, w1, w2, y, b);
        if s1[b] == '[' {
            lemma_run_moved(x, w1, w2, y, b + 1, CharClass::Space);
            let c = run_end(s1, b + 1, CharClass::Space);
            lemma_run_end_bounds(s1, b + 1, CharClass::Space);
            lemma_token_moved(x, w1, w2, y, c, CharClass::Digit);
            let g = run_end(s1, c, CharClass::Digit);
            lemma_run_end_bounds(s1, c, CharClass::Digit);
            lemma_run_moved(x, w1, w2, y, g, CharClass::Space);
            let h = run_end(s1, g, CharClass::Space);
            lemma_run_end_bounds(s1, g, CharClass::Space);
            if h < s1.len() {
                lemma_char_moved(x, w1, w2, y, h);
                if s1[h] == ']' {
                    lemma_run_moved(x, w1, w2, y, h + 1, CharClass::Space);
                    let e = run_end(s1, h + 1, CharClass::Space);
                    lemma_run_end_bounds(s1, h + 1, CharClass::Space);
                    lemma_name_moved(x, w1, w2, y, e);
                }
            } else {
                assert(moved(h, m, n1, n2) == s2.len());
            }
        }
    } else {
        assert(moved(b, m, n1, n2) == s2.len());
    }
}

proof fn lemma_const_numeric_form_moved(x: Seq<char>, w1: Seq<char>, w2: Seq<char>, y: Seq<char>)
    requires
        respaced(x, w1, w2, y),
    ensures
        const_numeric_form(x + w1 + y) == const_numeric_form(x + w2 + y),
{
    let s1 = x + w1 + y;
    let s2 = x + w2 + y;
    let (m, n1, n2) = (x.len() as int, w1.len() as int, w2.len() as int);
    assert(moved(s1.len() as int, m, n1, n2) == s2.len());
    lemma_token_moved(x, w1, w2, y, 0, CharClass::TypeChar);
    let a = run_end(s1, 0, CharClass::TypeChar);
    lemma_run_end_bounds(s1, 0, CharClass::TypeChar);
    lemma_run_moved(x, w1, w2, y, a, CharClass::Space);
    let b = run_end(s1, a, CharClass::Space);
    lemma_run_end_bounds(s1, a, CharClass::Space);
    lemma_name_moved(x, w1, w2, y, b);
    let c = name_end(s1, b);
    lemma_run_moved(x, w1, w2, y, c, CharClass::Space);
    let e = run_end(s1, c, CharClass::Space);
    lemma_run_end_bounds(s1, c, CharClass::Space);
    if e < s1.len() {
        lemma_char_moved(x, w1, w2, y, e);
        if s1[e] == '=' {
            lemma_run_moved(x, w1, w2, y, e + 1, CharClass::Space);
            let f = run_end(s1, e + 1, CharClass::Space);
            lemma_run_end_bounds(s1, e + 1, CharClass::Space);
            if f < s1.len() {
                lemma_char_moved(x, w1, w2, y, f);
                let g = if s1[f] == '-' {
                    f + 1
                } else {
                    f
                };
                lemma_token_moved(x, w1, w2, y, g, CharClass::Digit);
                lemma_run_end_bounds(s1, g, CharClass::Digit);
                let h = run_end(s1, g, CharClass::Digit);
                if g < h && h == s1.len() {
                    if f <= m {
                        assert(s1[m] == w1[0]);
                        assert(g <= m);
                    }
                    lemma_part_moved(x, w1, w2, y, f, s1.len() as int);
                }
            } else {
                assert(moved(f, m, n1, n2) == s2.len());
            }
        }
    } else {
        assert(moved(e, m, n1, n2) == s2.len());
    }
}

proof fn lemma_find_suffix(pre: Seq<char>, y: Seq<char>, j: int, c: char)
    requires
        0 <= j <= y.len(),
    ensures
        find_from(pre + y, pre.len() + j, c) == pre.len() + find_from(y, j, c),
    decreases y.len() - j,
{
    if j < y.len() {
        assert((pre + y)[pre.len() + j] == y[j]);
        lemma_find_suffix(pre, y, j + 1, c);
    }
}

/// The value of a string constant whose value lies after the run.
proof fn lemma_const_string_form_moved(x: Seq<char>, w1: Seq<char>, w2: Seq<char>, y: Seq<char>)
    requires
        respaced(x, w1, w2, y),
        const_string_form(x + w1 + y) is Some ==> string_value(x + w1 + y).len() <= y.len(),
        const_string_form(x + w2 + y) is Some ==> string_value(x + w2 + y).len() <= y.len(),
    ensures
        const_string_form(x + w1 + y) == const_string_form(x + w2 + y),
{
    reveal_strlit("string");
    let s1 = x + w1 + y;
    let s2 = x + w2 + y;
    let (m, n1, n2) = (x.len() as int, w1.len() as int, w2.len() as int);
    let ws = "string"@;
    assert(moved(s1.len() as int, m, n1, n2) == s2.len());
    if m < ws.len() {
        assert(s1[m] == w1[0] && s2[m] == w2[0]);
        if ws.len() <= s1.len() {
            assert(s1.subrange(0, ws.len() as int)[m] == s1[m]);
        }
        if ws.len() <= s2.len() {
            assert(s2.subrange(0, ws.len() as int)[m] == s2[m]);
        }
    } else {
        assert(s1.subrange(0, ws.len() as int) =~= x.subrange(0, ws.len() as int));
        assert(s2.subrange(0, ws.len() as int) =~= x.subrange(0, ws.len() as int));
        lemma_run_moved(x, w1, w2, y, ws.len() as int, CharClass::Space);
        let b = run_end(s1, ws.len() as int, CharClass::Space);
        lemma_run_end_bounds(s1, ws.len() as int, CharClass::Space);
        lemma_name_moved(x, w1, w2, y, b);
        let c = name_end(s1, b);
        lemma_run_moved(x, w1, w2, y, c, CharClass::Space);
        let e = run_end(s1, c, CharClass::Space);
        lemma_run_end_bounds(s1, c, CharClass::Space);
        if e < s1.len() {
            lemma_char_moved(x, w1, w2, y, e);
            if s1[e] == '=' {
                lemma_run_moved(x, w1, w2, y, e + 1, CharClass::Space);
                let f = run_end(s1, e + 1, CharClass::Space);
                lemma_run_end_bounds(s1, e + 1, CharClass::Space);
                if f > m {
                    lemma_part_moved(x, w1, w2, y, f, s1.len() as int);
                    lemma_find_suffix(x + w1, y, f - m - n1, '\n');
                    lemma_find_suffix(x + w2, y, f - m - n1, '\n');
                }
            }
        } else {
            assert(moved(e, m, n1, n2) == s2.len());
        }
    }
}

proof fn lemma_line_is_field_text(x: Seq<char>, w: Seq<char>, y: Seq<char>)
    requires
        x.len() > 0 && !is_space(x[0]),
        y.len() > 0 && !is_space(y.last()),
        all_space(w),
        !x.contains('#'),
        !y.contains('#'),
    ensures
        trimmed(x + w + y) == x + w + y,
        stripped(x + w + y) == x + w + y,
{
    let s = x + w + y;
    assert(s[0] == x[0]);
    assert(s[s.len() - 1] == y.last());
    assert(trim_start(s) == 0);
    assert(trim_stop(s, 0, s.len() as int) == s.len());
    assert(s.subrange(0, s.len() as int) =~= s);
    assert forall|j: int| 0 <= j < s.len() implies #[trigger] s[j] != '#' by {
        if j < x.len() {
            assert(s[j] == x[j]);
            assert(x.contains(x[j]));
        } else if j < x.len() + w.len() {
            assert(s[j] == w[j - x.len()]);
            assert(is_space(w[j - x.len()]));
        } else {
            assert(s[j] == y[j - x.len() - w.len()]);
            assert(y.contains(y[j - x.len() - w.len()]));
        }
    }
    lemma_find_at(s, 0, s.len() as int, '#');
}

/// The width of the white space between two tokens of a line changes
/// nothing: the line reads as the same field, or the same error, where the
/// line has no comment and no white space around it. A line that no form
/// matches is reported with its own text. The value of a string constant is
/// the exception, since a run inside it is part of it; so where a line reads
/// as a string constant, its value lies after the run.
pub proof fn lemma_inner_space_ignored(x: Seq<char>, w1: Seq<char>, w2: Seq<char>, y: Seq<char>)
    requires
        respaced(x, w1, w2, y),
        !is_space(x[0]),
        !is_space(y.last()),
        !x.contains('#'),
        !y.contains('#'),
        const_string_form(x + w1 + y) is Some ==> string_value(x + w1 + y).len() <= y.len(),
        const_string_form(x + w2 + y) is Some ==> string_value(x + w2 + y).len() <= y.len(),
    ensures
        line_result(x + w1 + y) == line_result(x + w2 + y) || (line_result(x + w1 + y)
            == Some(Err::<FieldInfoView, SchemaErrorView>(SchemaErrorView::MalformedField(x + w1 + y)))
            && line_result(x + w2 + y)
            == Some(Err::<FieldInfoView, SchemaErrorView>(SchemaErrorView::MalformedField(x + w2 + y)))),
{
    lemma_line_is_field_text(x, w1, y);
    lemma_line_is_field_text(x, w2, y);
    lemma_const_string_form_moved(x, w1, w2, y);
    lemma_field_form_moved(x, w1, w2, y);
    lemma_vector_form_moved(x, w1, w2, y);
    lemma_array_form_moved(x, w1, w2, y);
    lemma_const_numeric_form_moved(x, w1, w2, y);
}

/// White space may stand at the seam of `x` and `y` without being needed
/// there: after `[` or `=`, or before `[`, `]` or `=`.
pub open spec fn optional_seam(x: Seq<char>, y: Seq<char>) -> bool {
    x.last() == '[' || x.last() == '=' || y[0] == '[' || y[0] == ']' || y[0] == '='
}

/// `x + w + y` is `x + y` with white space added where it is optional.
pub open spec fn space_added(x: Seq<char>, w: Seq<char>, y: Seq<char>) -> bool {
    &&& x.len() > 0 && !is_space(x.last())
    &&& y.len() > 0 && !is_space(y[0])
    &&& w.len() > 0 && all_space(w)
    &&& optional_seam(x, y)
}

/// Position `p` of `x + y` and position `q` of `x + w + y` stand for the same
/// place: before the seam, or after the added space.
pub open spec fn same_place(p: int, q: int, m: int, n: int) -> bool {
    (p <= m && q == p) || (p >= m && q == p + n)
}

proof fn lemma_run_added(x: Seq<char>, w: Seq<char>, y: Seq<char>, p: int, q: int, k: CharClass)
    requires
        space_added(x, w, y),
        0 <= p <= x.len() + y.len(),
        same_place(p, q, x.len() as int, w.len() as int),
        p == x.len() && q == p ==> k == CharClass::Space || !in_class(y[0], k),
    ensures
        same_place(run_end(x + y, p, k), run_end(x + w + y, q, k), x.len() as int, w.len() as int),
        k == CharClass::Space ==> !(run_end(x + y, p, k) == x.len() && run_end(x + w + y, q, k) == x.len()),
        p >= x.len() && q == p + w.len() ==> run_end(x + w + y, q, k) == run_end(x + y, p, k) + w.len(),
        k != CharClass::Space && p < x.len() ==> run_end(x + y, p, k) <= x.len(),
        p < x.len() && run_end(x + y, p, k) <= x.len() ==> run_end(x + w + y, q, k) == run_end(x + y, p, k),
    decreases x.len() + y.len() - p,
{
    let s1 = x + y;
    let s2 = x + w + y;
    let m = x.len() as int;
    lemma_run_end_bounds(s2, q, k);
    assert(s2[m] == w[0]);
    if p >= m && q == p + w.len() {
        lemma_run_suffix(x, y, p - m, k);
        lemma_run_suffix(x + w, y, p - m, k);
        lemma_run_end_bounds(y, p - m, k);
        if p == m && k != CharClass::Space {
            assert(s1[m] == y[0]);
        }
    } else if p == m {
        assert(s1[m] == y[0]);
        if k == CharClass::Space {
            lemma_skip_space(x, w, y);
        }
    } else {
        assert(s1[p] == x[p] && s2[p] == x[p]);
        if in_class(x[p], k) {
            if p + 1 == m {
                assert(x[p] == x.last());
                assert(s1[m] == y[0] && s2[m] == w[0]);
                assert(is_space(w[0]));
                if k != CharClass::Space {
                    assert(!in_class(y[0], k));
                    assert(run_end(s1, m, k) == m);
                    assert(run_end(s2, m, k) == m);
                }
            } else {
                lemma_run_added(x, w, y, p + 1, q + 1, k);
            }
        }
    }
}

proof fn lemma_char_added(x: Seq<char>, w: Seq<char>, y: Seq<char>, p: int, q: int)
    requires
        space_added(x, w, y),
        0 <= p < x.len() + y.len(),
        same_place(p, q, x.len() as int, w.len() as int),
        !(p == x.len() && q == p),
    ensures
        (x + y)[p] == (x + w + y)[q],
        0 <= q < x.len() + w.len() + y.len(),
        same_place(p + 1, q + 1, x.len() as int, w.len() as int),
        !(p + 1 == x.len() && q + 1 == p + 1) || (x + y)[p] == x.last(),
{
    let m = x.len() as int;
    if p < m {
        assert((x + y)[p] == x[p]);
        assert((x + w + y)[p] == x[p]);
    } else {
        assert((x + y)[p] == y[p - m]);
        assert((x + w + y)[q] == y[p - m]);
    }
}

proof fn lemma_part_added(x: Seq<char>, w: Seq<char>, y: Seq<char>, p: int, q: int, r: int, t: int)
    requires
        space_added(x, w, y),
        0 <= p <= r <= x.len() + y.len(),
        (r <= x.len() && q == p && t == r) || (p >= x.len() && q == p + w.len() && t == r + w.len()),
    ensures
        (x + y).subrange(p, r) == (x + w + y).subrange(q, t),
{
    let m = x.len() as int;
    if r <= m {
        assert((x + y).subrange(p, r) =~= x.subrange(p, r));
        assert((x + w + y).subrange(q, t) =~= x.subrange(p, r));
    } else {
        assert((x + y).subrange(p, r) =~= y.subrange(p - m, r - m));
        assert((x + w + y).subrange(q, t) =~= y.subrange(p - m, r - m));
    }
}

proof fn lemma_token_added(x: Seq<char>, w: Seq<char>, y: Seq<char>, p: int, q: int, k: CharClass)
    requires
        space_added(x, w, y),
        k != CharClass::Space,
        0 <= p <= x.len() + y.len(),
        same_place(p, q, x.len() as int, w.len() as int),
        p == x.len() && q == p ==> !in_class(y[0], k),
    ensures
        same_place(run_end(x + y, p, k), run_end(x + w + y, q, k), x.len() as int, w.len() as int),
        (x + y).subrange(p, run_end(x + y, p, k)) == (x + w + y).subrange(q, run_end(x + w + y, q, k)),
        p <= run_end(x + y, p, k) <= x.len() + y.len(),
{
    let s1 = x + y;
    let s2 = x + w + y;
    let m = x.len() as int;
    lemma_run_added(x, w, y, p, q, k);
    lemma_run_end_bounds(s1, p, k);
    lemma_run_end_bounds(s2, q, k);
    let r = run_end(s1, p, k);
    let t = run_end(s2, q, k);
    if p == m && q == p {
        assert(s1[m] == y[0]);
        assert(r == m);
        assert(s2[m] == w[0]);
        assert(t == m);
    }
    lemma_part_added(x, w, y, p, q, r, t);
}

proof fn lemma_name_added(x: Seq<char>, w: Seq<char>, y: Seq<char>, p: int, q: int)
    requires
        space_added(x, w, y),
        0 <= p <= x.len() + y.len(),
        same_place(p, q, x.len() as int, w.len() as int),
        !(p == x.len() && q == p),
    ensures
        same_place(name_end(x + y, p), name_end(x + w + y, q), x.len() as int, w.len() as int),
        !(name_end(x + y, p) == x.len() && name_end(x + w + y, q) == x.len()) || !in_class(y[0], CharClass::NameChar),
        (x + y).subrange(p, name_end(x + y, p)) == (x + w + y).subrange(q, name_end(x + w + y, q)),
        p <= name_end(x + y, p) <= x.len() + y.len(),
{
    let s1 = x + y;
    let s2 = x + w + y;
    let m = x.len() as int;
    if p < s1.len() {
        lemma_char_added(x, w, y, p, q);
        if is_letter(s1[p]) {
            lemma_token_added(x, w, y, p + 1, q + 1, CharClass::NameChar);
            lemma_run_end_bounds(s1, p + 1, CharClass::NameChar);
            lemma_run_end_bounds(s2, q + 1, CharClass::NameChar);
            let r = run_end(s1, p + 1, CharClass::NameChar);
            let t = run_end(s2, q + 1, CharClass::NameChar);
            assert(s1.subrange(p, r) =~= seq![s1[p]] + s1.subrange(p + 1, r));
            assert(s2.subrange(q, t) =~= seq![s2[q]] + s2.subrange(q + 1, t));
        } else {
            assert(s1.subrange(p, p) =~= s2.subrange(q, q));
        }
    } else {
        assert(s1.subrange(p, p) =~= s2.subrange(q, q));
    }
}

proof fn lemma_field_form_added(x: Seq<char>, w: Seq<char>, y: Seq<char>)
    requires
        space_added(x, w, y),
    ensures
        field_form(x + y) == field_form(x + w + y),
{
    let s1 = x + y;
    let s2 = x + w + y;
    assert(s1[x.len() - 1] == x.last());
    assert(s1[x.len() as int] == y[0]);
    assert(s2[x.len() as int] == w[0]);
    assert(is_space(w[0]));
    let m0 = x.len() as int;
    lemma_run_end_bounds(s1, 0, CharClass::TypeChar);
    lemma_run_added(x, w, y, 0, 0, CharClass::TypeChar);
    if run_end(s1, 0, CharClass::TypeChar) == m0 {
        assert(s2[m0 + w.len()] == y[0]);
        assert(in_class(s1[m0 - 1], CharClass::TypeChar));
    }
    lemma_token_added(x, w, y, 0, 0, CharClass::TypeChar);
    let a1 = run_end(s1, 0, CharClass::TypeChar);
    let a2 = run_end(s2, 0, CharClass::TypeChar);
    lemma_run_added(x, w, y, a1, a2, CharClass::Space);
    lemma_run_end_bounds(s1, a1, CharClass::Space);
    let b1 = run_end(s1, a1, CharClass::Space);
    let b2 = run_end(s2, a2, CharClass::Space);
    lemma_name_added(x, w, y, b1, b2);
}

proof fn lemma_vector_form_added(x: Seq<char>, w: Seq<char>, y: Seq<char>)
    requires
        space_added(x, w, y),
    ensures
        vector_form(x + y) == vector_form(x + w + y),
{
    let s1 = x + y;
    let s2 = x + w + y;
    lemma_token_added(x, w, y, 0, 0, CharClass::TypeChar);
    let a1 = run_end(s1, 0, CharClass::TypeChar);
    let a2 = run_end(s2, 0, CharClass::TypeChar);
    lemma_run_added(x, w, y, a1, a2, CharClass::Space);
    lemma_run_end_bounds(s1, a1, CharClass::Space);
    let b1 = run_end(s1, a1, CharClass::Space);
    let b2 = run_end(s2, a2, CharClass::Space);
    if b1 < s1.len() {
        lemma_char_added(x, w, y, b1, b2);
        if s1[b1] == '[' {
            lemma_run_added(x, w, y, b1 + 1, b2 + 1, CharClass::Space);
            lemma_run_end_bounds(s1, b1 + 1, CharClass::Space);
            let c1 = run_end(s1, b1 + 1, CharClass::Space);
            let c2 = run_end(s2, b2 + 1, CharClass::Space);
            if c1 < s1.len() {
                lemma_char_added(x, w, y, c1, c2);
                if s1[c1] == ']' {
                    lemma_run_added(x, w, y, c1 + 1, c2 + 1, CharClass::Space);
                    lemma_run_end_bounds(s1, c1 + 1, CharClass::Space);
                    let e1 = run_end(s1, c1 + 1, CharClass::Space);
                    let e2 = run_end(s2, c2 + 1, CharClass::Space);
                    lemma_name_added(x, w, y, e1, e2);
                }
            }
        }
    }
}

proof fn lemma_array_form_added(x: Seq<char>, w: Seq<char>, y: Seq<char>)
    requires
        space_added(x, w, y),
    ensures
        array_form(x + y) == array_form(x + w + y),
{
    let s1 = x + y;
    let s2 = x + w + y;
    lemma_token_added(x, w, y, 0, 0, CharClass::TypeChar);
    let a1 = run_end(s1, 0, CharClass::TypeChar);
    let a2 = run_end(s2, 0, CharClass::TypeChar);
    lemma_run_added(x, w, y, a1, a2, CharClass::Space);
    lemma_run_end_bounds(s1, a1, CharClass::Space);
    let b1 = run_end(s1, a1, CharClass::Space);
    let b2 = run_end(s2, a2, CharClass::Space);
    if b1 < s1.len() {
        lemma_char_added(x, w, y, b1, b2);
        if s1[b1] == '[' {
            lemma_run_added(x, w, y, b1 + 1, b2 + 1, CharClass::Space);
            lemma_run_end_bounds(s1, b1 + 1, CharClass::Space);
            let c1 = run_end(s1, b1 + 1, CharClass::Space);
            let c2 = run_end(s2, b2 + 1, CharClass::Space);
            lemma_token_added(x, w, y, c1, c2, CharClass::Digit);
            let g1 = run_end(s1, c1, CharClass::Digit);
            let g2 = run_end(s2, c2, CharClass::Digit);
            if c1 < g1 {
                lemma_run_added(x, w, y, g1, g2, CharClass::Space);
                lemma_run_end_bounds(s1, g1, CharClass::Space);
                let h1 = run_end(s1, g1, CharClass::Space);
                let h2 = run_end(s2, g2, CharClass::Space);
                if h1 < s1.len() {
                    lemma_char_added(x, w, y, h1, h2);
                    if s1[h1] == ']' {
                        lemma_run_added(x, w, y, h1 + 1, h2 + 1, CharClass::Space);
                        lemma_run_end_bounds(s1, h1 + 1, CharClass::Space);
                        let e1 = run_end(s1, h1 + 1, CharClass::Space);
                        let e2 = run_end(s2, h2 + 1, CharClass::Space);
                        lemma_name_added(x, w, y, e1, e2);
                    }
                }
            }
        }
    }
}

proof fn lemma_const_numeric_form_added(x: Seq<char>, w: Seq<char>, y: Seq<char>)
    requires
        space_added(x, w, y),
    ensures
        const_numeric_form(x + y) == const_numeric_form(x + w + y),
{
    let s1 = x + y;
    let s2 = x + w + y;
    assert(s1[x.len() - 1] == x.last());
    assert(s1[x.len() as int] == y[0]);
    assert(s2[x.len() as int] == w[0]);
    assert(is_space(w[0]));
    let m0 = x.len() as int;
    lemma_run_end_bounds(s1, 0, CharClass::TypeChar);
    lemma_run_added(x, w, y, 0, 0, CharClass::TypeChar);
    if run_end(s1, 0, CharClass::TypeChar) == m0 {
        assert(s2[m0 + w.len()] == y[0]);
        assert(in_class(s1[m0 - 1], CharClass::TypeChar));
    }
    let m = x.len() as int;
    lemma_token_added(x, w, y, 0, 0, CharClass::TypeChar);
    let a1 = run_end(s1, 0, CharClass::TypeChar);
    let a2 = run_end(s2, 0, CharClass::TypeChar);
    lemma_run_added(x, w, y, a1, a2, CharClass::Space);
    lemma_run_end_bounds(s1, a1, CharClass::Space);
    let b1 = run_end(s1, a1, CharClass::Space);
    let b2 = run_end(s2, a2, CharClass::Space);
    lemma_name_added(x, w, y, b1, b2);
    let c1 = name_end(s1, b1);
    let c2 = name_end(s2, b2);
    lemma_run_added(x, w, y, c1, c2, CharClass::Space);
    lemma_run_end_bounds(s1, c1, CharClass::Space);
    let e1 = run_end(s1, c1, CharClass::Space);
    let e2 = run_end(s2, c2, CharClass::Space);
    if e1 < s1.len() {
        lemma_char_added(x, w, y, e1, e2);
        if s1[e1] == '=' {
            lemma_run_added(x, w, y, e1 + 1, e2 + 1, CharClass::Space);
            lemma_run_end_bounds(s1, e1 + 1, CharClass::Space);
            let f1 = run_end(s1, e1 + 1, CharClass::Space);
            let f2 = run_end(s2, e2 + 1, CharClass::Space);
            if f1 < s1.len() {
                lemma_char_added(x, w, y, f1, f2);
                let g1 = if s1[f1] == '-' { f1 + 1 } else { f1 };
                let g2 = if s2[f2] == '-' { f2 + 1 } else { f2 };
                lemma_token_added(x, w, y, g1, g2, CharClass::Digit);
                lemma_run_end_bounds(s1, g1, CharClass::Digit);
                let h1 = run_end(s1, g1, CharClass::Digit);
                if g1 < h1 && h1 == s1.len() {
                    if f1 < m {
                        assert(s1[m - 1] == x.last());
                        assert(s1[m] == y[0]);
                    }
                    lemma_part_added(x, w, y, f1, f2, s1.len() as int, s2.len() as int);
                }
            }
        }
    }
}

proof fn lemma_const_string_form_added(x: Seq<char>, w: Seq<char>, y: Seq<char>)
    requires
        space_added(x, w, y),
        const_string_form(x + y) is Some ==> string_value(x + y).len() <= y.len(),
        const_string_form(x + w + y) is Some ==> string_value(x + w + y).len() <= y.len(),
    ensures
        const_string_form(x + y) == const_string_form(x + w + y),
{
    reveal_strlit("string");
    let s1 = x + y;
    let s2 = x + w + y;
    assert(s1[x.len() - 1] == x.last());
    assert(s1[x.len() as int] == y[0]);
    assert(s2[x.len() as int] == w[0]);
    assert(is_space(w[0]));
    let m = x.len() as int;
    let ws = "string"@;
    assert(ws =~= seq!['s', 't', 'r', 'i', 'n', 'g']);
    if m == ws.len() {
        assert(s2[m + w.len()] == y[0]);
    }
    if m < ws.len() {
        assert(s1[m] == y[0] && s2[m] == w[0] && s1[m - 1] == x.last());
        if ws.len() <= s1.len() {
            assert(s1.subrange(0, ws.len() as int)[m] == s1[m]);
            assert(s1.subrange(0, ws.len() as int)[m - 1] == s1[m - 1]);
        }
        if ws.len() <= s2.len() {
            assert(s2.subrange(0, ws.len() as int)[m] == s2[m]);
        }
    } else {
        assert(s1.subrange(0, ws.len() as int) =~= x.subrange(0, ws.len() as int));
        assert(s2.subrange(0, ws.len() as int) =~= x.subrange(0, ws.len() as int));
        let b0 = ws.len() as int;
        lemma_run_added(x, w, y, b0, b0, CharClass::Space);
        lemma_run_end_bounds(s1, b0, CharClass::Space);
        let b1 = run_end(s1, b0, CharClass::Space);
        let b2 = run_end(s2, b0, CharClass::Space);
        lemma_name_added(x, w, y, b1, b2);
        let c1 = name_end(s1, b1);
        let c2 = name_end(s2, b2);
        lemma_run_added(x, w, y, c1, c2, CharClass::Space);
        lemma_run_end_bounds(s1, c1, CharClass::Space);
        let e1 = run_end(s1, c1, CharClass::Space);
        let e2 = run_end(s2, c2, CharClass::Space);
        if e1 < s1.len() {
            lemma_char_added(x, w, y, e1, e2);
            if s1[e1] == '=' {
                lemma_run_added(x, w, y, e1 + 1, e2 + 1, CharClass::Space);
                lemma_run_end_bounds(s1, e1 + 1, CharClass::Space);
                let f1 = run_end(s1, e1 + 1, CharClass::Space);
                let f2 = run_end(s2, e2 + 1, CharClass::Space);
                if f1 >= m {
                    lemma_part_added(x, w, y, f1, f2, s1.len() as int, s2.len() as int);
                    lemma_find_suffix(x, y, f1 - m, '\n');
                    lemma_find_suffix(x + w, y, f1 - m, '\n');
                }
            }
        }
    }
}

/// White space added where the grammar allows it but needs none (after `[`
/// or `=`, before `[`, `]` or `=`) changes nothing: the line reads as the same
/// field, or the same error, where the line has no comment and no white space
/// around it. A line that no form matches is reported with its own text. The
/// value of a string constant is the exception, since space inside it is part
/// of it; so where a line reads as a string constant, its value lies after
/// the added space.
pub proof fn lemma_optional_space_ignored(x: Seq<char>, w: Seq<char>, y: Seq<char>)
    requires
        space_added(x, w, y),
        !is_space(x[0]),
        !is_space(y.last()),
        !x.contains('#'),
        !y.contains('#'),
        const_string_form(x + y) is Some ==> string_value(x + y).len() <= y.len(),
        const_string_form(x + w + y) is Some ==> string_value(x + w + y).len() <= y.len(),
    ensures
        line_result(x + y) == line_result(x + w + y) || (line_result(x + y)
            == Some(Err::<FieldInfoView, SchemaErrorView>(SchemaErrorView::MalformedField(x + y)))
            && line_result(x + w + y)
            == Some(Err::<FieldInfoView, SchemaErrorView>(SchemaErrorView::MalformedField(x + w + y)))),
{
    assert(x + Seq::<char>::empty() + y =~= x + y);
    lemma_line_is_field_text(x, Seq::empty(), y);
    lemma_line_is_field_text(x, w, y);
    lemma_const_string_form_added(x, w, y);
    lemma_field_form_added(x, w, y);
    lemma_vector_form_added(x, w, y);
    lemma_array_form_added(x, w, y);
    lemma_const_numeric_form_added(x, w, y);
}

} // verus!
