//! The type of a message field, and its text in a canonical representation.

use vstd::prelude::*;
use vstd::string::*;
use crate::error::{SchemaError, SchemaErrorView};
use crate::table::MsgHashes;
use crate::text::{chars_of, equals_str, find_char, find_from, lemma_find_bounds};

verus! {

/// The type of a field: a primitive, or a reference to another message.
#[derive(Debug, PartialEq, Eq)]
pub enum DataType {
    Bool,
    I8,
    I16,
    I32,
    I64,
    U8,
    U16,
    U32,
    U64,
    F32,
    F64,
    String,
    Time,
    Duration,
    /// A message of the same package, by name.
    LocalStruct(String),
    /// A message of another package: package, then name.
    RemoteStruct(String, String),
}

pub ghost enum DataTypeView {
    Bool,
    I8,
    I16,
    I32,
    I64,
    U8,
    U16,
    U32,
    U64,
    F32,
    F64,
    String,
    Time,
    Duration,
    LocalStruct(Seq<char>),
    RemoteStruct(Seq<char>, Seq<char>),
}

impl View for DataType {
    type V = DataTypeView;

    open spec fn view(&self) -> DataTypeView {
        match self {
            DataType::Bool => DataTypeView::Bool,
            DataType::I8 => DataTypeView::I8,
            DataType::I16 => DataTypeView::I16,
            DataType::I32 => DataTypeView::I32,
            DataType::I64 => DataTypeView::I64,
            DataType::U8 => DataTypeView::U8,
            DataType::U16 => DataTypeView::U16,
            DataType::U32 => DataTypeView::U32,
            DataType::U64 => DataTypeView::U64,
            DataType::F32 => DataTypeView::F32,
            DataType::F64 => DataTypeView::F64,
            DataType::String => DataTypeView::String,
            DataType::Time => DataTypeView::Time,
            DataType::Duration => DataTypeView::Duration,
            DataType::LocalStruct(n) => DataTypeView::LocalStruct(n@),
            DataType::RemoteStruct(p, n) => DataTypeView::RemoteStruct(p@, n@),
        }
    }
}

/// The primitive that a type token names, if it names one.
pub open spec fn primitive_of(s: Seq<char>) -> Option<DataTypeView> {
    if s == "bool"@ {
        Some(DataTypeView::Bool)
    } else if s == "int8"@ || s == "byte"@ {
        Some(DataTypeView::I8)
    } else if s == "int16"@ {
        Some(DataTypeView::I16)
    } else if s == "int32"@ {
        Some(DataTypeView::I32)
    } else if s == "int64"@ {
        Some(DataTypeView::I64)
    } else if s == "uint8"@ || s == "char"@ {
        Some(DataTypeView::U8)
    } else if s == "uint16"@ {
        Some(DataTypeView::U16)
    } else if s == "uint32"@ {
        Some(DataTypeView::U32)
    } else if s == "uint64"@ {
        Some(DataTypeView::U64)
    } else if s == "float32"@ {
        Some(DataTypeView::F32)
    } else if s == "float64"@ {
        Some(DataTypeView::F64)
    } else if s == "string"@ {
        Some(DataTypeView::String)
    } else if s == "time"@ {
        Some(DataTypeView::Time)
    } else if s == "duration"@ {
        Some(DataTypeView::Duration)
    } else {
        None
    }
}

/// The type that a type token names: a primitive, `Header` for the standard
/// header message, `name` for a message of the same package, `package/name`
/// for one of another package. Anything else, empty parts included, names none.
pub open spec fn datatype_of(s: Seq<char>) -> Option<DataTypeView> {
    if primitive_of(s) is Some {
        primitive_of(s)
    } else if s == "Header"@ {
        Some(DataTypeView::RemoteStruct("std_msgs"@, "Header"@))
    } else {
        let i = find_from(s, 0, '/');
        if i == s.len() {
            if s.len() == 0 {
                None
            } else {
                Some(DataTypeView::LocalStruct(s))
            }
        } else {
            let rest = s.subrange(i + 1, s.len() as int);
            if find_from(rest, 0, '/') < rest.len() || i == 0 || rest.len() == 0 {
                None
            } else {
                Some(DataTypeView::RemoteStruct(s.subrange(0, i), rest))
            }
        }
    }
}

/// The canonical name of a primitive.
pub open spec fn primitive_name(d: DataTypeView) -> Seq<char> {
    match d {
        DataTypeView::Bool => "bool"@,
        DataTypeView::I8 => "int8"@,
        DataTypeView::I16 => "int16"@,
        DataTypeView::I32 => "int32"@,
        DataTypeView::I64 => "int64"@,
        DataTypeView::U8 => "uint8"@,
        DataTypeView::U16 => "uint16"@,
        DataTypeView::U32 => "uint32"@,
        DataTypeView::U64 => "uint64"@,
        DataTypeView::F32 => "float32"@,
        DataTypeView::F64 => "float64"@,
        DataTypeView::String => "string"@,
        DataTypeView::Time => "time"@,
        DataTypeView::Duration => "duration"@,
        _ => Seq::empty(),
    }
}

/// The text of a type in the canonical representation of a message of
/// `package`: a primitive's name, or the known hash of the referenced message.
pub open spec fn type_text(d: DataTypeView, package: Seq<char>, hashes: MsgHashes) -> Option<Seq<char>> {
    match d {
        DataTypeView::LocalStruct(n) => hashes.spec_get(package, n),
        DataTypeView::RemoteStruct(p, n) => hashes.spec_get(p, n),
        _ => Some(primitive_name(d)),
    }
}

/// The package and name that a missing-dependency error holds.
pub open spec fn missing_of(e: SchemaErrorView) -> (Seq<char>, Seq<char>) {
    match e {
        SchemaErrorView::MissingDependency(p, n) => (p, n),
        _ => (Seq::empty(), Seq::empty()),
    }
}

/// The struct reference in `d` as `(package, name)`, with a local reference
/// read in `package`.
pub open spec fn dependency_of(d: DataTypeView, package: Seq<char>) -> Option<(Seq<char>, Seq<char>)> {
    match d {
        DataTypeView::LocalStruct(n) => Some((package, n)),
        DataTypeView::RemoteStruct(p, n) => Some((p, n)),
        _ => None,
    }
}

fn primitive_from(v: &Vec<char>) -> (r: Option<DataType>)
    ensures
        match r {
            Some(d) => primitive_of(v@) == Some(d@),
            None => primitive_of(v@) is None,
        },
{
    if equals_str(v, "bool") {
        Some(DataType::Bool)
    } else if equals_str(v, "int8") || equals_str(v, "byte") {
        Some(DataType::I8)
    } else if equals_str(v, "int16") {
        Some(DataType::I16)
    } else if equals_str(v, "int32") {
        Some(DataType::I32)
    } else if equals_str(v, "int64") {
        Some(DataType::I64)
    } else if equals_str(v, "uint8") || equals_str(v, "char") {
        Some(DataType::U8)
    } else if equals_str(v, "uint16") {
        Some(DataType::U16)
    } else if equals_str(v, "uint32") {
        Some(DataType::U32)
    } else if equals_str(v, "uint64") {
        Some(DataType::U64)
    } else if equals_str(v, "float32") {
        Some(DataType::F32)
    } else if equals_str(v, "float64") {
        Some(DataType::F64)
    } else if equals_str(v, "string") {
        Some(DataType::String)
    } else if equals_str(v, "time") {
        Some(DataType::Time)
    } else if equals_str(v, "duration") {
        Some(DataType::Duration)
    } else {
        None
    }
}

/// Reads a type token.
pub fn parse_datatype(datatype: &str) -> (r: Option<DataType>)
    ensures
        match r {
            Some(d) => datatype_of(datatype@) == Some(d@),
            None => datatype_of(datatype@) is None,
        },
{
    let v = chars_of(datatype);
    if let Some(d) = primitive_from(&v) {
        return Some(d);
    }
    if equals_str(&v, "Header") {
        return Some(DataType::RemoteStruct("std_msgs".to_owned(), "Header".to_owned()));
    }
    let i = find_char(&v, 0, '/');
    if i == v.len() {
        if v.len() == 0 {
            return None;
        }
        return Some(DataType::LocalStruct(datatype.to_owned()));
    }
    let rest = datatype.substring_char(i + 1, v.len());
    let w = chars_of(rest);
    let j = find_char(&w, 0, '/');
    if j < w.len() || i == 0 || w.len() == 0 {
        return None;
    }
    Some(DataType::RemoteStruct(datatype.substring_char(0, i).to_owned(), rest.to_owned()))
}

impl DataType {
    /// The text of this type in the canonical representation of a message of
    /// `package`; a struct reference whose hash `hashes` lacks is an error.
    pub fn md5_string(&self, package: &str, hashes: &MsgHashes) -> (r: Result<String, SchemaError>)
        ensures
            match r {
                Ok(t) => type_text(self@, package@, *hashes) == Some(t@),
                Err(e) => type_text(self@, package@, *hashes) is None && dependency_of(self@, package@)
                    == Some((missing_of(e@).0, missing_of(e@).1)) && e is MissingDependency,
            },
    {
        let name = match self {
            DataType::Bool => "bool",
            DataType::I8 => "int8",
            DataType::I16 => "int16",
            DataType::I32 => "int32",
            DataType::I64 => "int64",
            DataType::U8 => "uint8",
            DataType::U16 => "uint16",
            DataType::U32 => "uint32",
            DataType::U64 => "uint64",
            DataType::F32 => "float32",
            DataType::F64 => "float64",
            DataType::String => "string",
            DataType::Time => "time",
            DataType::Duration => "duration",
            DataType::LocalStruct(n) => {
                return lookup_hash((package.to_owned(), n.clone()), hashes);
            },
            DataType::RemoteStruct(p, n) => {
                return lookup_hash((p.clone(), n.clone()), hashes);
            },
        };
        Ok(name.to_owned())
    }
}

fn lookup_hash(key: (String, String), hashes: &MsgHashes) -> (r: Result<String, SchemaError>)
    ensures
        match r {
            Ok(t) => hashes.spec_get(key.0@, key.1@) == Some(t@),
            Err(e) => hashes.spec_get(key.0@, key.1@) is None
                && e@ == SchemaErrorView::MissingDependency(key.0@, key.1@),
        },
{
    match hashes.get(&key) {
        Some(h) => Ok(h.clone()),
        None => Err(SchemaError::MissingDependency(key.0, key.1)),
    }
}

} // verus!
