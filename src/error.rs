//! The errors of schema handling.

use vstd::prelude::*;

verus! {

/// What can go wrong while reading a schema or computing its hash.
#[derive(Debug, PartialEq, Eq)]
pub enum SchemaError {
    /// A non-empty line that no field form matches; holds the line.
    MalformedField(String),
    /// A type token that names no type; holds the token.
    UnsupportedType(String),
    /// A referenced message whose hash is not known yet: its package and name.
    MissingDependency(String, String),
}

pub ghost enum SchemaErrorView {
    MalformedField(Seq<char>),
    UnsupportedType(Seq<char>),
    MissingDependency(Seq<char>, Seq<char>),
}

impl View for SchemaError {
    type V = SchemaErrorView;

    open spec fn view(&self) -> SchemaErrorView {
        match self {
            SchemaError::MalformedField(l) => SchemaErrorView::MalformedField(l@),
            SchemaError::UnsupportedType(t) => SchemaErrorView::UnsupportedType(t@),
            SchemaError::MissingDependency(p, n) => SchemaErrorView::MissingDependency(p@, n@),
        }
    }
}

} // verus!
