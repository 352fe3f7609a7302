//! A message schema: its fields, the messages it depends on, and its hash.

use crypto::digest::Digest;
use vstd::prelude::*;
use vstd::string::*;
use crate::datatype::{dependency_of, missing_of};
use crate::error::{SchemaError, SchemaErrorView};
use crate::field::{
    field_text, field_views, lemma_fields_follow_readings, line_readings, match_lines, schema_fields,
    FieldInfo, FieldInfoView,
};
use crate::table::MsgHashes;

verus! {

/// The lowercase hex MD5 digest of the UTF-8 bytes of `s`.
pub uninterp spec fn md5_hex_of(s: Seq<char>) -> Seq<char>;

/// A lowercase hexadecimal digit.
pub open spec fn is_lower_hex(c: char) -> bool {
    ('0' <= c && c <= '9') || ('a' <= c && c <= 'f')
}

/// Relies on `crypto::md5::Md5` with `Digest::input_str` and
/// `Digest::result_str`: the digest of the UTF-8 bytes of `s`, written as 32
/// lowercase hex digits.
#[verifier::external_body]
fn md5_hex(s: &str) -> (r: String)
    ensures
        r@ == md5_hex_of(s@),
        r@.len() == 32,
        forall|i: int| 0 <= i < r@.len() ==> is_lower_hex(#[trigger] r@[i]),
{
    let mut hasher = crypto::md5::Md5::new();
    hasher.input_str(s);
    hasher.result_str()
}

/// The struct references of the non-constant fields among the first `i` of
/// `fs`, each once, in order of first appearance; local ones read in `package`.
pub open spec fn dependencies_upto(fs: Seq<FieldInfoView>, package: Seq<char>, i: int) -> Seq<(Seq<char>, Seq<char>)>
    decreases i,
{
    if i <= 0 {
        Seq::empty()
    } else {
        let before = dependencies_upto(fs, package, i - 1);
        let f = fs[i - 1];
        match dependency_of(f.datatype, package) {
            Some(k) => if f.case is Const || before.contains(k) {
                before
            } else {
                before.push(k)
            },
            None => before,
        }
    }
}

/// The struct references of the non-constant fields of `fs`.
pub open spec fn dependencies_of(fs: Seq<FieldInfoView>, package: Seq<char>) -> Seq<(Seq<char>, Seq<char>)> {
    dependencies_upto(fs, package, fs.len() as int)
}

pub open spec fn pair_views(v: Seq<(String, String)>) -> Seq<(Seq<char>, Seq<char>)> {
    v.map_values(|p: (String, String)| (p.0@, p.1@))
}

pub open spec fn string_views(v: Seq<String>) -> Seq<Seq<char>> {
    v.map_values(|s: String| s@)
}

/// The texts of the first `i` fields of `fs` that are constants (`consts`) or
/// not, in order; or the reference of the first of them whose hash is unknown.
pub open spec fn texts_upto(
    fs: Seq<FieldInfoView>,
    package: Seq<char>,
    hashes: MsgHashes,
    consts: bool,
    i: int,
) -> Result<Seq<Seq<char>>, (Seq<char>, Seq<char>)>
    decreases i,
{
    if i <= 0 {
        Ok(Seq::empty())
    } else {
        match texts_upto(fs, package, hashes, consts, i - 1) {
            Err(k) => Err(k),
            Ok(ts) => if (fs[i - 1].case is Const) != consts {
                Ok(ts)
            } else {
                match field_text(fs[i - 1], package, hashes) {
                    Some(t) => Ok(ts.push(t)),
                    None => Err(dependency_of(fs[i - 1].datatype, package)->0),
                }
            },
        }
    }
}

proof fn lemma_texts_error_stays(
    fs: Seq<FieldInfoView>,
    package: Seq<char>,
    hashes: MsgHashes,
    consts: bool,
    i: int,
    j: int,
)
    requires
        0 <= i <= j,
        texts_upto(fs, package, hashes, consts, i) is Err,
    ensures
        texts_upto(fs, package, hashes, consts, j) == texts_upto(fs, package, hashes, consts, i),
    decreases j - i,
{
    if i < j {
        lemma_texts_error_stays(fs, package, hashes, consts, i, j - 1);
    }
}

/// The lines of `ts` joined by `\n`.
pub open spec fn join_lines(ts: Seq<Seq<char>>) -> Seq<char>
    decreases ts.len(),
{
    if ts.len() == 0 {
        Seq::empty()
    } else if ts.len() == 1 {
        ts[0]
    } else {
        join_lines(ts.drop_last()) + "\n"@ + ts.last()
    }
}

/// The canonical representation of a message of `package` with fields `fs`:
/// the texts of the constants, then of the other fields, one per line; or the
/// first reference whose hash is unknown.
pub open spec fn canonical_of(fs: Seq<FieldInfoView>, package: Seq<char>, hashes: MsgHashes) -> Result<Seq<char>, (Seq<char>, Seq<char>)> {
    match texts_upto(fs, package, hashes, true, fs.len() as int) {
        Err(k) => Err(k),
        Ok(cs) => match texts_upto(fs, package, hashes, false, fs.len() as int) {
            Err(k) => Err(k),
            Ok(ns) => Ok(join_lines(cs + ns)),
        },
    }
}

/// Whether a non-constant field among the first `i` of `fs` refers to `k`.
pub open spec fn referenced_upto(fs: Seq<FieldInfoView>, package: Seq<char>, i: int, k: (Seq<char>, Seq<char>)) -> bool {
    exists|j: int| 0 <= j < i && !(fs[j].case is Const) && #[trigger] dependency_of(fs[j].datatype, package) == Some(k)
}

proof fn lemma_dependencies_upto(fs: Seq<FieldInfoView>, package: Seq<char>, i: int)
    requires
        0 <= i <= fs.len(),
    ensures
        dependencies_upto(fs, package, i).no_duplicates(),
        forall|k: (Seq<char>, Seq<char>)| #[trigger] dependencies_upto(fs, package, i).contains(k)
            <==> referenced_upto(fs, package, i, k),
    decreases i,
{
    if i > 0 {
        lemma_dependencies_upto(fs, package, i - 1);
        let before = dependencies_upto(fs, package, i - 1);
        let f = fs[i - 1];
        assert forall|k: (Seq<char>, Seq<char>)| #[trigger] dependencies_upto(fs, package, i).contains(k)
            <==> referenced_upto(fs, package, i, k) by {
            if referenced_upto(fs, package, i, k) {
                let j = choose|j: int| 0 <= j < i && !(fs[j].case is Const)
                    && #[trigger] dependency_of(fs[j].datatype, package) == Some(k);
                if j < i - 1 {
                    assert(referenced_upto(fs, package, i - 1, k));
                } else if !before.contains(k) {
                    assert(before.push(k)[before.len() as int] == k);
                }
            }
            if dependencies_upto(fs, package, i).contains(k) && !before.contains(k) {
                assert(dependency_of(f.datatype, package) == Some(k)) by {
                    let n = choose|n: int| 0 <= n < before.len() + 1 && before.push(
                        dependency_of(f.datatype, package)->0,
                    )[n] == k;
                    if n < before.len() {
                        assert(before.contains(before[n]));
                    }
                }
            }
            if before.contains(k) {
                let n = choose|n: int| 0 <= n < before.len() && before[n] == k;
                match dependency_of(f.datatype, package) {
                    Some(d) => if !(f.case is Const || before.contains(d)) {
                        assert(before.push(d)[n] == k);
                    },
                    None => {},
                }
            }
            if referenced_upto(fs, package, i - 1, k) {
                let j = choose|j: int| 0 <= j < i - 1 && !(fs[j].case is Const)
                    && #[trigger] dependency_of(fs[j].datatype, package) == Some(k);
                assert(0 <= j < i && !(fs[j].case is Const) && dependency_of(fs[j].datatype, package) == Some(k));
            }
        }
    }
}

/// The dependencies of a message are exactly the struct references of its
/// non-constant fields, local ones read in its package, each listed once.
pub proof fn lemma_dependencies_exact(fs: Seq<FieldInfoView>, package: Seq<char>)
    ensures
        dependencies_of(fs, package).no_duplicates(),
        forall|k: (Seq<char>, Seq<char>)| #[trigger] dependencies_of(fs, package).contains(k) <==> exists|j: int|
            0 <= j < fs.len() && !(fs[j].case is Const) && #[trigger] dependency_of(fs[j].datatype, package) == Some(k),
{
    lemma_dependencies_upto(fs, package, fs.len() as int);
}

/// The hash of a message is a function of its package, the known hashes and
/// what the non-blank lines of its source read as: two sources whose
/// non-blank lines read alike, in order, have the same canonical
/// representation and so the same hash, whatever their comments, blank lines
/// and white space.
pub proof fn lemma_hash_follows_readings(
    source1: Seq<char>,
    source2: Seq<char>,
    package: Seq<char>,
    hashes: MsgHashes,
)
    requires
        line_readings(source1) == line_readings(source2),
    ensures
        schema_fields(source1) == schema_fields(source2),
        schema_fields(source1) is Ok ==> canonical_of(schema_fields(source1)->Ok_0, package, hashes)
            == canonical_of(schema_fields(source2)->Ok_0, package, hashes),
        schema_fields(source1) is Ok && canonical_of(schema_fields(source1)->Ok_0, package, hashes) is Ok
            ==> md5_hex_of(canonical_of(schema_fields(source1)->Ok_0, package, hashes)->Ok_0) == md5_hex_of(
            canonical_of(schema_fields(source2)->Ok_0, package, hashes)->Ok_0,
        ),
{
    lemma_fields_follow_readings(source1, source2);
}

/// A parsed message schema.
#[derive(Debug)]
pub struct Msg {
    pub package: String,
    pub name: String,
    pub fields: Vec<FieldInfo>,
    /// The `(package, name)` of each message that a non-constant field refers
    /// to, each once.
    pub dependencies: Vec<(String, String)>,
    pub source: String,
}

fn contains_pair(v: &Vec<(String, String)>, k: &(String, String)) -> (r: bool)
    ensures
        r == pair_views(v@).contains((k.0@, k.1@)),
{
    let mut i: usize = 0;
    while i < v.len()
        invariant
            i <= v@.len(),
            forall|j: int| 0 <= j < i ==> pair_views(v@)[j] != (k.0@, k.1@),
        decreases v@.len() - i,
    {
        if v[i].0 == k.0 && v[i].1 == k.1 {
            assert(pair_views(v@)[i as int] == (k.0@, k.1@));
            return true;
        }
        i = i + 1;
    }
    false
}

fn collect_dependencies(fields: &Vec<FieldInfo>, package: &str) -> (r: Vec<(String, String)>)
    ensures
        pair_views(r@) == dependencies_of(field_views(fields@), package@),
{
    let ghost fs = field_views(fields@);
    let mut deps: Vec<(String, String)> = Vec::new();
    let mut i: usize = 0;
    assert(pair_views(deps@) =~= Seq::<(Seq<char>, Seq<char>)>::empty());
    while i < fields.len()
        invariant
            i <= fields@.len(),
            fs == field_views(fields@),
            pair_views(deps@) == dependencies_upto(fs, package@, i as int),
        decreases fields@.len() - i,
    {
        let f = &fields[i];
        assert(fs[i as int] == f@);
        let key = match &f.datatype {
            crate::datatype::DataType::LocalStruct(n) => Some((package.to_owned(), n.clone())),
            crate::datatype::DataType::RemoteStruct(p, n) => Some((p.clone(), n.clone())),
            _ => None,
        };
        if let Some(k) = key {
            if !f.is_constant() && !contains_pair(&deps, &k) {
                let ghost before = deps@;
                deps.push(k);
                assert(pair_views(deps@) =~= pair_views(before).push(pair_views(deps@).last()));
            }
        }
        i = i + 1;
    }
    deps
}

fn field_texts(fields: &Vec<FieldInfo>, package: &str, hashes: &MsgHashes, consts: bool) -> (r: Result<Vec<String>, SchemaError>)
    ensures
        match r {
            Ok(ts) => texts_upto(field_views(fields@), package@, *hashes, consts, fields@.len() as int)
                == Ok::<Seq<Seq<char>>, (Seq<char>, Seq<char>)>(string_views(ts@)),
            Err(e) => e is MissingDependency && texts_upto(field_views(fields@), package@, *hashes, consts, fields@.len() as int)
                == Err::<Seq<Seq<char>>, (Seq<char>, Seq<char>)>(missing_of(e@)),
        },
{
    let ghost fs = field_views(fields@);
    let mut ts: Vec<String> = Vec::new();
    let mut i: usize = 0;
    assert(string_views(ts@) =~= Seq::<Seq<char>>::empty());
    while i < fields.len()
        invariant
            i <= fields@.len(),
            fs == field_views(fields@),
            texts_upto(fs, package@, *hashes, consts, i as int)
                == Ok::<Seq<Seq<char>>, (Seq<char>, Seq<char>)>(string_views(ts@)),
        decreases fields@.len() - i,
    {
        let f = &fields[i];
        assert(fs[i as int] == f@);
        if f.is_constant() == consts {
            match f.md5_string(package, hashes) {
                Ok(t) => {
                    let ghost before = ts@;
                    ts.push(t);
                    assert(string_views(ts@) =~= string_views(before).push(t@));
                },
                Err(e) => {
                    proof {
                        let m = missing_of(e@);
                        assert((m.0, m.1) == m);
                        lemma_texts_error_stays(fs, package@, *hashes, consts, i + 1, fields@.len() as int);
                    }
                    return Err(e);
                },
            }
        }
        i = i + 1;
    }
    Ok(ts)
}

fn join_texts(ts: &Vec<String>) -> (r: String)
    ensures
        r@ == join_lines(string_views(ts@)),
{
    let mut out = String::new();
    let mut i: usize = 0;
    assert(string_views(ts@).subrange(0, 0) =~= Seq::<Seq<char>>::empty());
    while i < ts.len()
        invariant
            i <= ts@.len(),
            out@ == join_lines(string_views(ts@).subrange(0, i as int)),
        decreases ts@.len() - i,
    {
        let ghost next = string_views(ts@).subrange(0, i + 1);
        assert(next.drop_last() =~= string_views(ts@).subrange(0, i as int));
        if i > 0 {
            out.append("\n");
        } else {
            assert(out@ =~= Seq::<char>::empty());
        }
        out.append(ts[i].as_str());
        if i == 0 {
            assert(out@ =~= next[0]);
        }
        i = i + 1;
    }
    assert(string_views(ts@).subrange(0, i as int) =~= string_views(ts@));
    out
}

impl Msg {
    /// Reads the schema text `source` of message `name` of `package`.
    pub fn new(package: &str, name: &str, source: &str) -> (r: Result<Msg, SchemaError>)
        ensures
            match r {
                Ok(m) => {
                    &&& schema_fields(source@) == Ok::<Seq<FieldInfoView>, SchemaErrorView>(field_views(m.fields@))
                    &&& m.package@ == package@
                    &&& m.name@ == name@
                    &&& m.source@ == source@
                    &&& pair_views(m.dependencies@) == dependencies_of(field_views(m.fields@), package@)
                },
                Err(e) => schema_fields(source@) == Err::<Seq<FieldInfoView>, SchemaErrorView>(e@),
            },
    {
        let fields = match match_lines(source) {
            Ok(fs) => fs,
            Err(e) => {
                return Err(e);
            },
        };
        let dependencies = collect_dependencies(&fields, package);
        Ok(Msg {
            package: package.to_owned(),
            name: name.to_owned(),
            fields,
            dependencies,
            source: source.to_owned(),
        })
    }

    /// The canonical representation of this message: the text of each
    /// constant, then of each other field, one per line, struct references
    /// written as the hashes in `hashes`.
    pub fn canonical_representation(&self, hashes: &MsgHashes) -> (r: Result<String, SchemaError>)
        ensures
            match r {
                Ok(s) => canonical_of(field_views(self.fields@), self.package@, *hashes)
                    == Ok::<Seq<char>, (Seq<char>, Seq<char>)>(s@),
                Err(e) => e is MissingDependency && canonical_of(field_views(self.fields@), self.package@, *hashes)
                    == Err::<Seq<char>, (Seq<char>, Seq<char>)>(missing_of(e@)),
            },
    {
        let package = self.package.as_str();
        let mut consts = match field_texts(&self.fields, package, hashes, true) {
            Ok(ts) => ts,
            Err(e) => {
                return Err(e);
            },
        };
        let mut others = match field_texts(&self.fields, package, hashes, false) {
            Ok(ts) => ts,
            Err(e) => {
                return Err(e);
            },
        };
        let ghost cs = consts@;
        let ghost ns = others@;
        consts.append(&mut others);
        assert(string_views(consts@) =~= string_views(cs) + string_views(ns));
        Ok(join_texts(&consts))
    }

    /// The MD5 content hash of this message, given the hashes of the messages
    /// it depends on.
    pub fn calculate_md5(&self, hashes: &MsgHashes) -> (r: Result<String, SchemaError>)
        ensures
            match r {
                Ok(h) => {
                    &&& canonical_of(field_views(self.fields@), self.package@, *hashes) matches Ok(s)
                        && h@ == md5_hex_of(s)
                    &&& h@.len() == 32
                    &&& forall|i: int| 0 <= i < h@.len() ==> is_lower_hex(#[trigger] h@[i])
                },
                Err(e) => e is MissingDependency && canonical_of(field_views(self.fields@), self.package@, *hashes)
                    == Err::<Seq<char>, (Seq<char>, Seq<char>)>(missing_of(e@)),
            },
    {
        match self.canonical_representation(hashes) {
            Ok(s) => Ok(md5_hex(s.as_str())),
            Err(e) => Err(e),
        }
    }
}

} // verus!
