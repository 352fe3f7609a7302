//! The fields of a message schema, and the grammar of one schema line.

use vstd::prelude::*;
use vstd::string::*;
use crate::datatype::{datatype_of, primitive_of, parse_datatype, type_text, dependency_of, missing_of, DataType, DataTypeView};
use crate::error::{SchemaError, SchemaErrorView};
use crate::table::MsgHashes;
use crate::text::{
    all_space, chars_of, decimal_text, digits_value, find_char, find_from, is_letter, is_letter_char, is_space, lemma_find_bounds, lemma_trim_surrounding,
    lemma_run_end_bounds, parse_digits, push_decimal, run_end, scan, starts_with_str, trim_bounds,
    trimmed, CharClass,
};

verus! {

/// The type token and the name read from a field line.
#[derive(Debug, PartialEq)]
pub struct FieldLine {
    pub field_type: String,
    pub field_name: String,
}

/// How many values of its type a field holds.
#[derive(Debug, PartialEq)]
pub enum FieldCase {
    /// One value.
    Unit,
    /// A sequence of any length.
    Vector,
    /// A sequence of the given length.
    Array(usize),
    /// A constant, with the text of its value.
    Const(String),
}

pub ghost enum FieldCaseView {
    Unit,
    Vector,
    Array(nat),
    Const(Seq<char>),
}

impl View for FieldCase {
    type V = FieldCaseView;

    open spec fn view(&self) -> FieldCaseView {
        match self {
            FieldCase::Unit => FieldCaseView::Unit,
            FieldCase::Vector => FieldCaseView::Vector,
            FieldCase::Array(n) => FieldCaseView::Array(*n as nat),
            FieldCase::Const(v) => FieldCaseView::Const(v@),
        }
    }
}

/// One field of a message.
#[derive(Debug, PartialEq)]
pub struct FieldInfo {
    pub datatype: DataType,
    pub name: String,
    pub case: FieldCase,
}

pub ghost struct FieldInfoView {
    pub datatype: DataTypeView,
    pub name: Seq<char>,
    pub case: FieldCaseView,
}

impl View for FieldInfo {
    type V = FieldInfoView;

    open spec fn view(&self) -> FieldInfoView {
        FieldInfoView { datatype: self.datatype@, name: self.name@, case: self.case@ }
    }
}

/// The end of a field name that starts at `i`: a letter, then letters,
/// digits and underscores; `i` itself where no letter stands there.
pub open spec fn name_end(s: Seq<char>, i: int) -> int {
    if 0 <= i < s.len() && is_letter(s[i]) {
        run_end(s, i + 1, CharClass::NameChar)
    } else {
        i
    }
}

/// `<type> <name>`: the type token and the name.
pub open spec fn field_form(d: Seq<char>) -> Option<(Seq<char>, Seq<char>)> {
    let a = run_end(d, 0, CharClass::TypeChar);
    let b = run_end(d, a, CharClass::Space);
    let c = name_end(d, b);
    if 0 < a < b < c && c == d.len() {
        Some((d.subrange(0, a), d.subrange(b, c)))
    } else {
        None
    }
}

/// `<type>[] <name>`, with white space allowed before and inside the brackets.
pub open spec fn vector_form(d: Seq<char>) -> Option<(Seq<char>, Seq<char>)> {
    let a = run_end(d, 0, CharClass::TypeChar);
    let b = run_end(d, a, CharClass::Space);
    let c = run_end(d, b + 1, CharClass::Space);
    let e = run_end(d, c + 1, CharClass::Space);
    let f = name_end(d, e);
    if 0 < a && b < d.len() && d[b] == '[' && c < d.len() && d[c] == ']' && c + 1 < e < f
        && f == d.len() {
        Some((d.subrange(0, a), d.subrange(e, f)))
    } else {
        None
    }
}

/// `<type>[<n>] <name>`: the type token, the name and `n`, which must fit in
/// `usize`.
pub open spec fn array_form(d: Seq<char>) -> Option<(Seq<char>, Seq<char>, nat)> {
    let a = run_end(d, 0, CharClass::TypeChar);
    let b = run_end(d, a, CharClass::Space);
    let c = run_end(d, b + 1, CharClass::Space);
    let g = run_end(d, c, CharClass::Digit);
    let h = run_end(d, g, CharClass::Space);
    let e = run_end(d, h + 1, CharClass::Space);
    let f = name_end(d, e);
    let n = digits_value(d.subrange(c, g));
    if 0 < a && b < d.len() && d[b] == '[' && c < g && h < d.len() && d[h] == ']' && h + 1 < e < f
        && f == d.len() && n <= usize::MAX {
        Some((d.subrange(0, a), d.subrange(e, f), n))
    } else {
        None
    }
}

/// `string <name> = <value>`, where the value is all the rest of the line after
/// white space, `#` included, and holds no line break.
pub open spec fn const_string_form(d: Seq<char>) -> Option<(Seq<char>, Seq<char>, Seq<char>)> {
    let w = "string"@;
    let b = run_end(d, w.len() as int, CharClass::Space);
    let c = name_end(d, b);
    let e = run_end(d, c, CharClass::Space);
    let f = run_end(d, e + 1, CharClass::Space);
    if w.len() <= d.len() && d.subrange(0, w.len() as int) == w && w.len() < b < c && e < d.len()
        && d[e] == '=' && find_from(d, f, '\n') == d.len() {
        Some((w, d.subrange(b, c), d.subrange(f, d.len() as int)))
    } else {
        None
    }
}

/// `<type> <name> = <integer>`: the type token, the name and the integer's text.
pub open spec fn const_numeric_form(d: Seq<char>) -> Option<(Seq<char>, Seq<char>, Seq<char>)> {
    let a = run_end(d, 0, CharClass::TypeChar);
    let b = run_end(d, a, CharClass::Space);
    let c = name_end(d, b);
    let e = run_end(d, c, CharClass::Space);
    let f = run_end(d, e + 1, CharClass::Space);
    let g = if f < d.len() && d[f] == '-' {
        f + 1
    } else {
        f
    };
    let h = run_end(d, g, CharClass::Digit);
    if 0 < a < b < c && e < d.len() && d[e] == '=' && g < h && h == d.len() {
        Some((d.subrange(0, a), d.subrange(b, c), d.subrange(f, d.len() as int)))
    } else {
        None
    }
}

/// A line without the comment that the first `#` starts, trimmed.
pub open spec fn stripped(s: Seq<char>) -> Seq<char> {
    trimmed(s.subrange(0, find_from(s, 0, '#')))
}

/// The field of type token `t`, name `n` and case `k`. A token that names no
/// type, or a constant whose type is not a primitive, is an unsupported type.
pub open spec fn field_result(t: Seq<char>, n: Seq<char>, k: FieldCaseView) -> Result<FieldInfoView, SchemaErrorView> {
    match datatype_of(t) {
        Some(d) => if k is Const && primitive_of(t) is None {
            Err(SchemaErrorView::UnsupportedType(t))
        } else {
            Ok(FieldInfoView { datatype: d, name: n, case: k })
        },
        None => Err(SchemaErrorView::UnsupportedType(t)),
    }
}

/// What one schema line holds: nothing (blank or comment), a field, or an error.
pub open spec fn line_result(s: Seq<char>) -> Option<Result<FieldInfoView, SchemaErrorView>> {
    let t = trimmed(s);
    let d = stripped(s);
    if const_string_form(t) is Some {
        let (ty, n, v) = const_string_form(t)->0;
        Some(field_result(ty, n, FieldCaseView::Const(v)))
    } else if d.len() == 0 {
        None
    } else if field_form(d) is Some {
        let (ty, n) = field_form(d)->0;
        Some(field_result(ty, n, FieldCaseView::Unit))
    } else if vector_form(d) is Some {
        let (ty, n) = vector_form(d)->0;
        Some(field_result(ty, n, FieldCaseView::Vector))
    } else if array_form(d) is Some {
        let (ty, n, len) = array_form(d)->0;
        Some(field_result(ty, n, FieldCaseView::Array(len)))
    } else if const_numeric_form(d) is Some {
        let (ty, n, v) = const_numeric_form(d)->0;
        Some(field_result(ty, n, FieldCaseView::Const(v)))
    } else {
        Some(Err(SchemaErrorView::MalformedField(d)))
    }
}

/// The fields of the lines of `s` from position `i` on, lines ending at each
/// `\n`; the error of the first line that has one.
pub open spec fn fields_from(s: Seq<char>, i: int) -> Result<Seq<FieldInfoView>, SchemaErrorView>
    decreases s.len() - i,
{
    let e = find_from(s, i, '\n');
    let rest = if 0 <= i <= e < s.len() {
        fields_from(s, e + 1)
    } else {
        Ok(Seq::empty())
    };
    match line_result(s.subrange(i, e)) {
        Some(Err(err)) => Err(err),
        Some(Ok(f)) => match rest {
            Ok(fs) => Ok(seq![f] + fs),
            Err(err) => Err(err),
        },
        None => rest,
    }
}

/// The fields of a whole schema text.
pub open spec fn schema_fields(s: Seq<char>) -> Result<Seq<FieldInfoView>, SchemaErrorView> {
    fields_from(s, 0)
}

/// The fields `a` ahead of those that `r` holds, or the error of `r`.
pub open spec fn prepend_fields(a: Seq<FieldInfoView>, r: Result<Seq<FieldInfoView>, SchemaErrorView>) -> Result<Seq<FieldInfoView>, SchemaErrorView> {
    match r {
        Ok(fs) => Ok(a + fs),
        Err(e) => Err(e),
    }
}

pub open spec fn field_views(v: Seq<FieldInfo>) -> Seq<FieldInfoView> {
    v.map_values(|f: FieldInfo| f@)
}

pub open spec fn line_view(r: Option<Result<FieldInfo, SchemaError>>) -> Option<Result<FieldInfoView, SchemaErrorView>> {
    match r {
        None => None,
        Some(Ok(f)) => Some(Ok(f@)),
        Some(Err(e)) => Some(Err(e@)),
    }
}

pub open spec fn result_view(r: Result<FieldInfo, SchemaError>) -> Result<FieldInfoView, SchemaErrorView> {
    match r {
        Ok(f) => Ok(f@),
        Err(e) => Err(e@),
    }
}

/// The text of a field in the canonical representation of a message of
/// `package`.
pub open spec fn field_text(f: FieldInfoView, package: Seq<char>, hashes: MsgHashes) -> Option<Seq<char>> {
    match type_text(f.datatype, package, hashes) {
        None => None,
        Some(t) => Some(
            match f.case {
                FieldCaseView::Unit => t + " "@ + f.name,
                FieldCaseView::Vector => t + "[] "@ + f.name,
                FieldCaseView::Array(n) => t + "["@ + decimal_text(n) + "] "@ + f.name,
                FieldCaseView::Const(v) => t + " "@ + f.name + "="@ + v,
            },
        ),
    }
}

fn name_scan(v: &Vec<char>, i: usize) -> (r: usize)
    requires
        i <= v@.len(),
    ensures
        r == name_end(v@, i as int),
        i <= r <= v@.len(),
{
    if i < v.len() && is_letter_char(v[i]) {
        scan(v, i + 1, CharClass::NameChar)
    } else {
        i
    }
}

fn owned_part(data: &str, from: usize, to: usize) -> (r: String)
    requires
        from <= to <= data@.len(),
    ensures
        r@ == data@.subrange(from as int, to as int),
{
    data.substring_char(from, to).to_owned()
}

/// Reads `<type> <name>`.
pub fn match_field(data: &str) -> (r: Option<FieldLine>)
    ensures
        match r {
            Some(l) => field_form(data@) == Some((l.field_type@, l.field_name@)),
            None => field_form(data@) is None,
        },
{
    let v = chars_of(data);
    let a = scan(&v, 0, CharClass::TypeChar);
    let b = scan(&v, a, CharClass::Space);
    let c = name_scan(&v, b);
    if 0 < a && a < b && b < c && c == v.len() {
        Some(FieldLine { field_type: owned_part(data, 0, a), field_name: owned_part(data, b, c) })
    } else {
        None
    }
}

/// Reads `<type>[] <name>`.
pub fn match_vector_field(data: &str) -> (r: Option<FieldLine>)
    ensures
        match r {
            Some(l) => vector_form(data@) == Some((l.field_type@, l.field_name@)),
            None => vector_form(data@) is None,
        },
{
    let v = chars_of(data);
    let a = scan(&v, 0, CharClass::TypeChar);
    let b = scan(&v, a, CharClass::Space);
    if !(0 < a && b < v.len() && v[b] == '[') {
        return None;
    }
    let c = scan(&v, b + 1, CharClass::Space);
    if !(c < v.len() && v[c] == ']') {
        return None;
    }
    let e = scan(&v, c + 1, CharClass::Space);
    let f = name_scan(&v, e);
    if c + 1 < e && e < f && f == v.len() {
        Some(FieldLine { field_type: owned_part(data, 0, a), field_name: owned_part(data, e, f) })
    } else {
        None
    }
}

/// Reads `<type>[<n>] <name>`.
pub fn match_array_field(data: &str) -> (r: Option<(FieldLine, usize)>)
    ensures
        match r {
            Some((l, n)) => array_form(data@) == Some((l.field_type@, l.field_name@, n as nat)),
            None => array_form(data@) is None,
        },
{
    let v = chars_of(data);
    let a = scan(&v, 0, CharClass::TypeChar);
    let b = scan(&v, a, CharClass::Space);
    if !(0 < a && b < v.len() && v[b] == '[') {
        return None;
    }
    let c = scan(&v, b + 1, CharClass::Space);
    let g = scan(&v, c, CharClass::Digit);
    let h = scan(&v, g, CharClass::Space);
    if !(c < g && h < v.len() && v[h] == ']') {
        return None;
    }
    let e = scan(&v, h + 1, CharClass::Space);
    let f = name_scan(&v, e);
    if !(h + 1 < e && e < f && f == v.len()) {
        return None;
    }
    proof {
        lemma_run_end_bounds(v@, c as int, CharClass::Digit);
    }
    match parse_digits(&v, c, g) {
        Some(n) => Some(
            (FieldLine { field_type: owned_part(data, 0, a), field_name: owned_part(data, e, f) }, n),
        ),
        None => None,
    }
}

/// Reads `string <name> = <value>`; the value runs to the end of the line.
pub fn match_const_string(data: &str) -> (r: Option<(FieldLine, String)>)
    ensures
        match r {
            Some((l, s)) => const_string_form(data@) == Some((l.field_type@, l.field_name@, s@)),
            None => const_string_form(data@) is None,
        },
{
    let v = chars_of(data);
    if !starts_with_str(&v, "string") {
        return None;
    }
    let w = "string".unicode_len();
    let b = scan(&v, w, CharClass::Space);
    let c = name_scan(&v, b);
    let e = scan(&v, c, CharClass::Space);
    if !(w < b && b < c && e < v.len() && v[e] == '=') {
        return None;
    }
    let f = scan(&v, e + 1, CharClass::Space);
    if find_char(&v, f, '\n') < v.len() {
        return None;
    }
    Some((FieldLine { field_type: "string".to_owned(), field_name: owned_part(data, b, c) }, owned_part(data, f, v.len())))
}

/// Reads `<type> <name> = <integer>`.
pub fn match_const_numeric(data: &str) -> (r: Option<(FieldLine, String)>)
    ensures
        match r {
            Some((l, s)) => const_numeric_form(data@) == Some((l.field_type@, l.field_name@, s@)),
            None => const_numeric_form(data@) is None,
        },
{
    let v = chars_of(data);
    let a = scan(&v, 0, CharClass::TypeChar);
    let b = scan(&v, a, CharClass::Space);
    let c = name_scan(&v, b);
    let e = scan(&v, c, CharClass::Space);
    if !(0 < a && a < b && b < c && e < v.len() && v[e] == '=') {
        return None;
    }
    let f = scan(&v, e + 1, CharClass::Space);
    let g = if f < v.len() && v[f] == '-' {
        f + 1
    } else {
        f
    };
    let h = scan(&v, g, CharClass::Digit);
    if g < h && h == v.len() {
        Some((FieldLine { field_type: owned_part(data, 0, a), field_name: owned_part(data, b, c) }, owned_part(data, f, v.len())))
    } else {
        None
    }
}

/// `data` without leading and trailing white space.
pub fn trim_str(data: &str) -> (r: &str)
    ensures
        r@ == trimmed(data@),
{
    let v = chars_of(data);
    let (a, b) = trim_bounds(&v);
    data.substring_char(a, b)
}

/// A line without its comment, trimmed.
pub fn strip_useless(data: &str) -> (r: &str)
    ensures
        r@ == stripped(data@),
{
    let v = chars_of(data);
    let i = find_char(&v, 0, '#');
    trim_str(data.substring_char(0, i))
}

impl FieldInfo {
    /// The field of type token `datatype`; an unknown type is an error.
    pub fn new(datatype: &str, name: &str, case: FieldCase) -> (r: Result<FieldInfo, SchemaError>)
        ensures
            result_view(r) == field_result(datatype@, name@, case@),
    {
        match parse_datatype(datatype) {
            Some(d) => {
                let is_struct = match &d {
                    DataType::LocalStruct(_) | DataType::RemoteStruct(_, _) => true,
                    _ => false,
                };
                let is_const = match &case {
                    FieldCase::Const(_) => true,
                    _ => false,
                };
                if is_const && is_struct {
                    Err(SchemaError::UnsupportedType(datatype.to_owned()))
                } else {
                    Ok(FieldInfo { datatype: d, name: name.to_owned(), case })
                }
            },
            None => Err(SchemaError::UnsupportedType(datatype.to_owned())),
        }
    }

    /// Whether this field is a constant.
    pub fn is_constant(&self) -> (r: bool)
        ensures
            r == (self.case is Const),
    {
        match self.case {
            FieldCase::Const(..) => true,
            _ => false,
        }
    }

    /// The text of this field in the canonical representation of a message
    /// of `package`; a struct reference whose hash `hashes` lacks is an error.
    pub fn md5_string(&self, package: &str, hashes: &MsgHashes) -> (r: Result<String, SchemaError>)
        ensures
            match r {
                Ok(t) => field_text(self@, package@, *hashes) == Some(t@),
                Err(e) => field_text(self@, package@, *hashes) is None && e is MissingDependency
                    && dependency_of(self@.datatype, package@) == Some((missing_of(e@).0, missing_of(e@).1)),
            },
    {
        let mut out = match self.datatype.md5_string(package, hashes) {
            Ok(t) => t,
            Err(e) => {
                return Err(e);
            },
        };
        match &self.case {
            FieldCase::Unit => {
                out.append(" ");
                out.append(self.name.as_str());
            },
            FieldCase::Vector => {
                out.append("[] ");
                out.append(self.name.as_str());
            },
            FieldCase::Array(l) => {
                out.append("[");
                push_decimal(&mut out, *l);
                out.append("] ");
                out.append(self.name.as_str());
            },
            FieldCase::Const(v) => {
                out.append(" ");
                out.append(self.name.as_str());
                out.append("=");
                out.append(v.as_str());
            },
        }
        Ok(out)
    }
}

pub proof fn lemma_find_at(s: Seq<char>, i: int, k: int, c: char)
    requires
        0 <= i <= k <= s.len(),
        forall|j: int| i <= j < k ==> #[trigger] s[j] != c,
        k == s.len() || s[k] == c,
    ensures
        find_from(s, i, c) == k,
    decreases k - i,
{
    if i < k {
        lemma_find_at(s, i + 1, k, c);
    }
}

/// A comment changes nothing: a line without `#` reads as the same field, or
/// the same nothing or error, with a comment after it. String constants are
/// the exception, since they take `#` and what follows into their value; so
/// neither the line nor the line with the comment reads as one.
pub proof fn lemma_comment_ignored(line: Seq<char>, comment: Seq<char>)
    requires
        !line.contains('#'),
        const_string_form(trimmed(line)) is None,
        const_string_form(trimmed(line + seq!['#'] + comment)) is None,
    ensures
        line_result(line + seq!['#'] + comment) == line_result(line),
{
    let s = line + seq!['#'] + comment;
    assert forall|j: int| 0 <= j < line.len() implies #[trigger] s[j] != '#' by {
        assert(s[j] == line[j]);
        assert(line.contains(line[j]));
    }
    lemma_find_at(s, 0, line.len() as int, '#');
    assert forall|j: int| 0 <= j < line.len() implies #[trigger] line[j] != '#' by {
        assert(line.contains(line[j]));
    }
    lemma_find_at(line, 0, line.len() as int, '#');
    assert(s.subrange(0, line.len() as int) =~= line);
    assert(line.subrange(0, line.len() as int) =~= line);
    assert(stripped(s) == stripped(line));
}

/// White space before and after a line changes nothing: it reads as the same
/// field, or the same nothing or error.
pub proof fn lemma_surrounding_space_ignored(before: Seq<char>, line: Seq<char>, after: Seq<char>)
    requires
        all_space(before),
        all_space(after),
    ensures
        line_result(before + line + after) == line_result(line),
{
    let s = before + line + after;
    lemma_trim_surrounding(before, line, after);
    lemma_find_bounds(line, 0, '#');
    let p = find_from(line, 0, '#');
    assert forall|j: int| 0 <= j < before.len() + p implies #[trigger] s[j] != '#' by {
        if j < before.len() {
            assert(s[j] == before[j]);
            assert(is_space(before[j]));
        } else {
            assert(s[j] == line[j - before.len()]);
        }
    }
    if p < line.len() {
        assert(s[before.len() + p] == line[p]);
        lemma_find_at(s, 0, before.len() + p, '#');
        assert(s.subrange(0, before.len() + p) =~= before + line.subrange(0, p) + Seq::<char>::empty());
        lemma_trim_surrounding(before, line.subrange(0, p), Seq::<char>::empty());
    } else {
        assert forall|j: int| 0 <= j < s.len() implies #[trigger] s[j] != '#' by {
            if j >= before.len() + line.len() {
                assert(s[j] == after[j - before.len() - line.len()]);
                assert(is_space(after[j - before.len() - line.len()]));
            }
        }
        lemma_find_at(s, 0, s.len() as int, '#');
        assert(s.subrange(0, s.len() as int) =~= s);
        assert(line.subrange(0, p) =~= line);
    }
    assert(stripped(s) == stripped(line));
}

/// What the lines of `s` from position `i` on read as, blank and comment
/// lines left out.
pub open spec fn readings_from(s: Seq<char>, i: int) -> Seq<Result<FieldInfoView, SchemaErrorView>>
    decreases s.len() - i,
{
    let e = find_from(s, i, '\n');
    let rest = if 0 <= i <= e < s.len() {
        readings_from(s, e + 1)
    } else {
        Seq::empty()
    };
    match line_result(s.subrange(i, e)) {
        Some(r) => seq![r] + rest,
        None => rest,
    }
}

/// What the non-blank lines of a schema text read as, in order.
pub open spec fn line_readings(s: Seq<char>) -> Seq<Result<FieldInfoView, SchemaErrorView>> {
    readings_from(s, 0)
}

/// The fields that readings give, or the first error among them.
pub open spec fn collect_readings(rs: Seq<Result<FieldInfoView, SchemaErrorView>>) -> Result<Seq<FieldInfoView>, SchemaErrorView>
    decreases rs.len(),
{
    if rs.len() == 0 {
        Ok(Seq::empty())
    } else {
        match rs[0] {
            Err(e) => Err(e),
            Ok(f) => match collect_readings(rs.drop_first()) {
                Ok(fs) => Ok(seq![f] + fs),
                Err(e) => Err(e),
            },
        }
    }
}

proof fn lemma_fields_are_readings(s: Seq<char>, i: int)
    requires
        0 <= i <= s.len(),
    ensures
        fields_from(s, i) == collect_readings(readings_from(s, i)),
    decreases s.len() - i,
{
    lemma_find_bounds(s, i, '\n');
    let e = find_from(s, i, '\n');
    if e < s.len() {
        lemma_fields_are_readings(s, e + 1);
    }
    let rest = if e < s.len() {
        readings_from(s, e + 1)
    } else {
        Seq::empty()
    };
    match line_result(s.subrange(i, e)) {
        Some(r) => {
            assert((seq![r] + rest).drop_first() =~= rest);
            assert((seq![r] + rest)[0] == r);
            assert(collect_readings(seq![r] + rest) == match r {
                Err(err) => Err(err),
                Ok(f) => match collect_readings(rest) {
                    Ok(fs) => Ok(seq![f] + fs),
                    Err(err) => Err::<Seq<FieldInfoView>, SchemaErrorView>(err),
                },
            });
        },
        None => {},
    }
    assert(collect_readings(Seq::empty()) == Ok::<Seq<FieldInfoView>, SchemaErrorView>(Seq::empty()));
}

/// The fields that a schema text reads as, and so its hash, depend only on
/// what its non-blank lines read as, in order: texts that differ in blank and
/// comment lines, or in lines that read alike, read as the same fields.
pub proof fn lemma_fields_follow_readings(source1: Seq<char>, source2: Seq<char>)
    requires
        line_readings(source1) == line_readings(source2),
    ensures
        schema_fields(source1) == schema_fields(source2),
        schema_fields(source1) == collect_readings(line_readings(source1)),
{
    lemma_fields_are_readings(source1, 0);
    lemma_fields_are_readings(source2, 0);
}

proof fn lemma_fields_suffix(pre: Seq<char>, q: Seq<char>, j: int)
    requires
        0 <= j <= q.len(),
    ensures
        fields_from(pre + q, pre.len() + j) == fields_from(q, j),
    decreases q.len() - j,
{
    let s = pre + q;
    lemma_find_bounds(q, j, '\n');
    let e = find_from(q, j, '\n');
    assert forall|i: int| pre.len() + j <= i < pre.len() + e implies #[trigger] s[i] != '\n' by {
        assert(s[i] == q[i - pre.len()]);
    }
    if e < q.len() {
        assert(s[pre.len() + e] == q[e]);
    }
    lemma_find_at(s, pre.len() + j, pre.len() + e, '\n');
    assert(s.subrange(pre.len() + j, pre.len() + e) =~= q.subrange(j, e));
    if e < q.len() {
        lemma_fields_suffix(pre, q, e + 1);
    }
}

proof fn lemma_fields_line_replaced(before: Seq<char>, line1: Seq<char>, line2: Seq<char>, after: Seq<char>, i: int)
    requires
        0 <= i <= before.len(),
        before.len() == 0 || before.last() == '\n',
        after.len() == 0 || after[0] == '\n',
        !line1.contains('\n'),
        !line2.contains('\n'),
        line_result(line1) == line_result(line2),
    ensures
        fields_from(before + line1 + after, i) == fields_from(before + line2 + after, i),
    decreases before.len() - i,
{
    let s1 = before + line1 + after;
    let s2 = before + line2 + after;
    if i == before.len() {
        assert forall|j: int| i <= j < i + line1.len() implies #[trigger] s1[j] != '\n' by {
            assert(s1[j] == line1[j - i]);
            assert(line1.contains(line1[j - i]));
        }
        assert forall|j: int| i <= j < i + line2.len() implies #[trigger] s2[j] != '\n' by {
            assert(s2[j] == line2[j - i]);
            assert(line2.contains(line2[j - i]));
        }
        if after.len() > 0 {
            assert(s1[i + line1.len()] == after[0]);
            assert(s2[i + line2.len()] == after[0]);
            lemma_fields_suffix(before + line1, after, 1);
            lemma_fields_suffix(before + line2, after, 1);
        }
        lemma_find_at(s1, i, i + line1.len(), '\n');
        lemma_find_at(s2, i, i + line2.len(), '\n');
        assert(s1.subrange(i, i + line1.len()) =~= line1);
        assert(s2.subrange(i, i + line2.len()) =~= line2);
    } else {
        lemma_find_bounds(before, i, '\n');
        let e = find_from(before, i, '\n');
        assert(e < before.len()) by {
            if e == before.len() {
                assert(before[before.len() - 1] == '\n');
            }
        }
        assert forall|j: int| i <= j < e implies #[trigger] s1[j] != '\n' && s2[j] != '\n' by {
            assert(s1[j] == before[j] && s2[j] == before[j]);
        }
        assert(s1[e] == before[e] && s2[e] == before[e]);
        lemma_find_at(s1, i, e, '\n');
        lemma_find_at(s2, i, e, '\n');
        assert(s1.subrange(i, e) =~= before.subrange(i, e));
        assert(s2.subrange(i, e) =~= before.subrange(i, e));
        lemma_fields_line_replaced(before, line1, line2, after, e + 1);
    }
}

/// Replacing one line of a schema text by a line that reads alike (as the
/// same field, the same nothing or the same error) keeps the fields that the
/// text reads as, and so its hash.
pub proof fn lemma_line_replaced(before: Seq<char>, line1: Seq<char>, line2: Seq<char>, after: Seq<char>)
    requires
        before.len() == 0 || before.last() == '\n',
        after.len() == 0 || after[0] == '\n',
        !line1.contains('\n'),
        !line2.contains('\n'),
        line_result(line1) == line_result(line2),
    ensures
        schema_fields(before + line1 + after) == schema_fields(before + line2 + after),
{
    lemma_fields_line_replaced(before, line1, line2, after, 0);
}

/// Reads one schema line: `None` for a blank or comment line.
pub fn match_line(data: &str) -> (r: Option<Result<FieldInfo, SchemaError>>)
    ensures
        line_view(r) == line_result(data@),
{
    let t = trim_str(data);
    if let Some((info, value)) = match_const_string(t) {
        return Some(FieldInfo::new(info.field_type.as_str(), info.field_name.as_str(), FieldCase::Const(value)));
    }
    let d = strip_useless(data);
    if d.unicode_len() == 0 {
        return None;
    }
    if let Some(info) = match_field(d) {
        return Some(FieldInfo::new(info.field_type.as_str(), info.field_name.as_str(), FieldCase::Unit));
    }
    if let Some(info) = match_vector_field(d) {
        return Some(FieldInfo::new(info.field_type.as_str(), info.field_name.as_str(), FieldCase::Vector));
    }
    if let Some((info, count)) = match_array_field(d) {
        return Some(FieldInfo::new(info.field_type.as_str(), info.field_name.as_str(), FieldCase::Array(count)));
    }
    if let Some((info, value)) = match_const_numeric(d) {
        return Some(FieldInfo::new(info.field_type.as_str(), info.field_name.as_str(), FieldCase::Const(value)));
    }
    Some(Err(SchemaError::MalformedField(d.to_owned())))
}

/// Reads every line of a schema text, in order; the first error stops it.
pub fn match_lines(data: &str) -> (r: Result<Vec<FieldInfo>, SchemaError>)
    ensures
        match r {
            Ok(fs) => schema_fields(data@) == Ok::<Seq<FieldInfoView>, SchemaErrorView>(field_views(fs@)),
            Err(e) => schema_fields(data@) == Err::<Seq<FieldInfoView>, SchemaErrorView>(e@),
        },
{
    let v = chars_of(data);
    let mut fields: Vec<FieldInfo> = Vec::new();
    let mut i: usize = 0;
    assert(field_views(fields@) =~= Seq::<FieldInfoView>::empty());
    assert(prepend_fields(Seq::empty(), fields_from(data@, 0)) == fields_from(data@, 0)) by {
        match fields_from(data@, 0) {
            Ok(fs) => assert(Seq::<FieldInfoView>::empty() + fs =~= fs),
            Err(e) => {},
        }
    }
    loop
        invariant
            v@ == data@,
            i <= v@.len(),
            schema_fields(data@) == prepend_fields(field_views(fields@), fields_from(data@, i as int)),
        decreases v@.len() - i,
    {
        let e = find_char(&v, i, '\n');
        let line = data.substring_char(i, e);
        let ghost before = fields@;
        let ghost rest = if e < v@.len() {
            fields_from(data@, e + 1)
        } else {
            Ok(Seq::empty())
        };
        assert(fields_from(data@, i as int) == match line_result(line@) {
            Some(Err(err)) => Err(err),
            Some(Ok(f)) => match rest {
                Ok(fs) => Ok(seq![f] + fs),
                Err(err) => Err(err),
            },
            None => rest,
        });
        match match_line(line) {
            Some(Err(err)) => {
                return Err(err);
            },
            Some(Ok(f)) => {
                fields.push(f);
                proof {
                    assert(field_views(fields@) =~= field_views(before) + seq![fields@.last()@]);
                    match rest {
                        Ok(fs) => assert(field_views(before) + (seq![fields@.last()@] + fs) =~= field_views(fields@) + fs),
                        Err(_) => {},
                    }
                }
            },
            None => {},
        }
        if e < v.len() {
            i = e + 1;
        } else {
            assert(field_views(fields@) + Seq::<FieldInfoView>::empty() =~= field_views(fields@));
            return Ok(fields);
        }
    }
}

} // verus!
