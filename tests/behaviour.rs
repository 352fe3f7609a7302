use rosrust::{
    match_line, parse_datatype, strip_useless, DataType, FieldCase, FieldInfo, Msg, MsgHashes,
    SchemaError,
};

#[test]
fn comment_after_field_changes_nothing() {
    assert_eq!(match_line("int32 x"), match_line("int32 x# a note"));
    assert_eq!(match_line("float64[9] cov"), match_line("float64[9] cov   # row major"));
}

#[test]
fn comment_is_part_of_string_constant() {
    assert_eq!(
        match_line("string s = a # b").unwrap().unwrap().case,
        FieldCase::Const("a # b".into())
    );
}

#[test]
fn surrounding_space_changes_nothing() {
    assert_eq!(match_line(" \t int32 x \t "), match_line("int32 x"));
    assert_eq!(match_line("\u{a0}uint8 y\u{3000}"), match_line("uint8 y"));
}

#[test]
fn same_fields_give_same_hash() {
    let a = Msg::new("geometry_msgs", "Point", "float64 x\nfloat64 y\nfloat64 z").unwrap();
    let b = Msg::new("geometry_msgs", "Point", "# a point\n  float64   x # first\n\nfloat64\ty\n float64 z  ")
        .unwrap();
    let hashes = MsgHashes::new();
    assert_eq!(a.calculate_md5(&hashes).unwrap(), b.calculate_md5(&hashes).unwrap());
    assert_eq!(a.calculate_md5(&hashes).unwrap(), "4a842b65f413084dc2b10fb484ea7f17");
}

#[test]
fn empty_source_has_no_fields() {
    let m = Msg::new("p", "Empty", "").unwrap();
    assert!(m.fields.is_empty());
    assert!(m.dependencies.is_empty());
    assert_eq!(m.canonical_representation(&MsgHashes::new()).unwrap(), "");
    assert_eq!(m.calculate_md5(&MsgHashes::new()).unwrap(), "d41d8cd98f00b204e9800998ecf8427e");
}

#[test]
fn constants_come_first_in_canonical_form() {
    let m = Msg::new("p", "M", "int32 a\nuint8[] b\nint32 LIMIT = -3\nstring NAME = x y").unwrap();
    assert_eq!(
        m.canonical_representation(&MsgHashes::new()).unwrap(),
        "int32 LIMIT=-3\nstring NAME=x y\nint32 a\nuint8[] b"
    );
}

#[test]
fn dependencies_listed_once() {
    let m = Msg::new(
        "geometry_msgs",
        "Pair",
        "Point a\ngeometry_msgs/Point b\nPoint[] c\nint32 T = 4\nHeader h",
    )
    .unwrap();
    assert_eq!(
        m.dependencies,
        vec![
            ("geometry_msgs".to_owned(), "Point".to_owned()),
            ("std_msgs".to_owned(), "Header".to_owned())
        ]
    );
}

#[test]
fn malformed_line_is_rejected() {
    assert_eq!(
        match_line("  int32 x y  # c"),
        Some(Err(SchemaError::MalformedField("int32 x y".into())))
    );
    assert!(matches!(Msg::new("p", "M", "int32 x\nint32 [2 y"), Err(SchemaError::MalformedField(_))));
}

#[test]
fn array_length_beyond_usize_is_rejected() {
    assert_eq!(
        match_line("int32[99999999999999999999999] x"),
        Some(Err(SchemaError::MalformedField("int32[99999999999999999999999] x".into())))
    );
}

#[test]
fn unknown_type_is_rejected() {
    assert_eq!(
        match_line("a/b/c name"),
        Some(Err(SchemaError::UnsupportedType("a/b/c".into())))
    );
    assert_eq!(
        FieldInfo::new("a//b", "n", FieldCase::Unit),
        Err(SchemaError::UnsupportedType("a//b".into()))
    );
}

#[test]
fn missing_dependency_is_reported() {
    let m = Msg::new("p", "M", "int32 x\nOther o").unwrap();
    assert_eq!(
        m.calculate_md5(&MsgHashes::new()),
        Err(SchemaError::MissingDependency("p".into(), "Other".into()))
    );
    let mut hashes = MsgHashes::new();
    hashes.insert(("p".into(), "Other".into()), "0123".into());
    assert_eq!(m.canonical_representation(&hashes).unwrap(), "int32 x\n0123 o");
}

#[test]
fn datatype_tokens() {
    assert_eq!(parse_datatype("byte"), Some(DataType::I8));
    assert_eq!(parse_datatype("char"), Some(DataType::U8));
    assert_eq!(parse_datatype("duration"), Some(DataType::Duration));
    assert_eq!(
        parse_datatype("Header"),
        Some(DataType::RemoteStruct("std_msgs".into(), "Header".into()))
    );
    assert_eq!(parse_datatype("Foo"), Some(DataType::LocalStruct("Foo".into())));
    assert_eq!(parse_datatype("p/Foo"), Some(DataType::RemoteStruct("p".into(), "Foo".into())));
    assert_eq!(parse_datatype(""), None);
    assert_eq!(parse_datatype("/Foo"), None);
    assert_eq!(parse_datatype("p/"), None);
}

#[test]
fn strip_useless_drops_comment_and_space() {
    assert_eq!(strip_useless("  int32 x # c "), "int32 x");
    assert_eq!(strip_useless("# only"), "");
}

#[test]
fn array_text_writes_length() {
    let f = FieldInfo::new("float64", "covariance", FieldCase::Array(36)).unwrap();
    assert_eq!(f.md5_string("", &MsgHashes::new()).unwrap(), "float64[36] covariance");
    let f = FieldInfo::new("uint8", "b", FieldCase::Array(0)).unwrap();
    assert_eq!(f.md5_string("", &MsgHashes::new()).unwrap(), "uint8[0] b");
}

#[test]
fn later_hash_replaces_earlier() {
    let mut hashes = MsgHashes::new();
    hashes.insert(("p".into(), "A".into()), "one".into());
    hashes.insert(("p".into(), "A".into()), "two".into());
    assert_eq!(hashes.get(&("p".into(), "A".into())), Some(&"two".to_owned()));
    assert_eq!(hashes.get(&("p".into(), "B".into())), None);
}

#[test]
fn width_of_inner_space_changes_nothing() {
    assert_eq!(match_line("int32 x"), match_line("int32 \t  x"));
    assert_eq!(match_line("uint8[] b"), match_line("uint8   [ \t ]   b"));
    assert_eq!(match_line("uint8[3] b"), match_line("uint8 [  3 ]   b"));
    assert_eq!(match_line("int8 K=-1"), match_line("int8   K   =   -1"));
    assert_eq!(match_line("string s = a b"), match_line("string   s = a b"));
    assert_ne!(match_line("string s = a b"), match_line("string s = a   b"));
}

#[test]
fn replacing_line_by_equal_reading_keeps_hash() {
    let a = Msg::new("p", "M", "int32 a\nuint8[4] b\nstring S = x # y\n").unwrap();
    let b = Msg::new("p", "M", "int32    a   # first\n  uint8 [ 4 ]  b\nstring   S = x # y\n").unwrap();
    let hashes = MsgHashes::new();
    assert_eq!(a.fields, b.fields);
    assert_eq!(a.calculate_md5(&hashes).unwrap(), b.calculate_md5(&hashes).unwrap());
}

#[test]
fn constant_on_struct_type_is_rejected() {
    assert_eq!(match_line("p/T x=1"), Some(Err(SchemaError::UnsupportedType("p/T".into()))));
    assert_eq!(
        match_line("Header h = 3"),
        Some(Err(SchemaError::UnsupportedType("Header".into())))
    );
    assert_eq!(
        FieldInfo::new("Point", "p", FieldCase::Const("1".into())),
        Err(SchemaError::UnsupportedType("Point".into()))
    );
    assert_eq!(
        Msg::new("p", "M", "int32 a\nOther K = 2").unwrap_err(),
        SchemaError::UnsupportedType("Other".into())
    );
    assert!(FieldInfo::new("int8", "k", FieldCase::Const("1".into())).is_ok());
}

#[test]
fn optional_space_changes_nothing() {
    assert_eq!(match_line("uint8[3] b"), match_line("uint8 [3] b"));
    assert_eq!(match_line("uint8[3] b"), match_line("uint8[ 3] b"));
    assert_eq!(match_line("uint8[3] b"), match_line("uint8[3 ] b"));
    assert_eq!(match_line("uint8[] b"), match_line("uint8[ ] b"));
    assert_eq!(match_line("int8 K=-1"), match_line("int8 K =-1"));
    assert_eq!(match_line("int8 K=-1"), match_line("int8 K= -1"));
    assert_eq!(match_line("string s=v w"), match_line("string s = v w"));
    assert_ne!(match_line("uint8[] b"), match_line("uint8[]b"));
}

#[test]
fn hash_is_lowercase_hex() {
    let h = Msg::new("p", "M", "int32 x").unwrap().calculate_md5(&MsgHashes::new()).unwrap();
    assert_eq!(h.len(), 32);
    assert!(h.chars().all(|c| c.is_ascii_digit() || ('a'..='f').contains(&c)));
}
