use ch2rs::codegen::{generate, generate_enums, generate_row, make_attribute, prepare_name_ident};
use ch2rs::options::Options;
use ch2rs::schema::{Column, SqlType, Table};

fn bare_options() -> Options {
    Options {
        url: "localhost:8123".to_string(),
        user: None,
        password: None,
        database: "default".to_string(),
        table: "t".to_string(),
        serialize: false,
        deserialize: false,
        owned: false,
        types: Vec::new(),
        overrides: Vec::new(),
        bytes: Vec::new(),
    }
}

fn column(name: &str, raw_type: &str) -> Column {
    Column {
        name: name.to_string(),
        type_: ch2rs::parse::parse_type(raw_type).unwrap(),
        comment: String::new(),
    }
}

fn table(columns: Vec<Column>) -> Table {
    Table {
        database: "default".to_string(),
        name: "t".to_string(),
        columns,
    }
}

#[test]
fn variant_labels_become_identifiers() {
    assert_eq!(prepare_name_ident(""), "Empty");
    assert_eq!(prepare_name_ident("   "), "Empty");
    assert_eq!(prepare_name_ident("Foo Bar"), "FooBar");
    assert_eq!(prepare_name_ident("fooBar"), "FooBar");
    assert_eq!(prepare_name_ident("foo_bar"), "FooBar");
}

#[test]
fn enum_declaration_preserves_order_and_values() {
    let t = table(vec![column("shipment_state", "Enum8('' = -128, 'Foo Bar' = 0)")]);
    let enums = generate_enums(&t, &bare_options());
    assert_eq!(
        enums,
        "#[derive(Debug)]\n#[repr(i8)]\npub enum ShipmentState {\n    Empty = -128,\n    FooBar = 0,\n}\n\n"
    );
}

#[test]
fn extended_enum_gets_the_wide_representation() {
    let t = table(vec![column("kind", "Enum16('a' = 1024)")]);
    let mut options = bare_options();
    options.serialize = true;
    options.deserialize = true;
    let enums = generate_enums(&t, &options);
    assert_eq!(
        enums,
        "#[derive(Debug)]\n#[derive(serde_repr::Serialize_repr)]\n#[derive(serde_repr::Deserialize_repr)]\n#[repr(i16)]\npub enum Kind {\n    A = 1024,\n}\n\n"
    );
}

#[test]
fn enum_discovery_reaches_through_wrappers() {
    let t = table(vec![
        column("plain", "UInt8"),
        column("wrapped", "Nullable(Array(Enum8('x' = 1)))"),
        column("in_tuple", "Tuple(UInt8, Enum8('y' = 2))"),
    ]);
    let enums = generate_enums(&t, &bare_options());
    assert!(enums.contains("pub enum Wrapped {\n    X = 1,\n}"));
    assert!(enums.contains("pub enum InTuple {\n    Y = 2,\n}"));
}

#[test]
fn one_enum_per_column_even_when_more_nest() {
    let t = table(vec![column("pair", "Tuple(Enum8('x' = 1), Enum8('y' = 2))")]);
    let enums = generate_enums(&t, &bare_options());
    assert!(enums.contains("X = 1"));
    assert!(!enums.contains("Y = 2"));
}

#[test]
fn plain_record_for_integer_columns() {
    let t = table(vec![column("a", "UInt8"), column("b", "Int64")]);
    let row = generate_row(&t, &bare_options()).unwrap();
    assert_eq!(
        row,
        "#[derive(Debug, clickhouse::Row)]\npub struct Row {\n    pub a: u8,\n    pub b: i64,\n}\n"
    );
}

#[test]
fn borrowed_record_for_a_borrowed_string_column() {
    let t = table(vec![column("a", "UInt8"), column("s", "String")]);
    let row = generate_row(&t, &bare_options()).unwrap();
    assert!(row.contains("pub struct Row<'a> {"));
    assert!(row.contains("    pub s: &'a str,"));
}

#[test]
fn owned_strings_leave_the_record_plain() {
    let t = table(vec![column("s", "String")]);
    let mut options = bare_options();
    options.owned = true;
    let row = generate_row(&t, &options).unwrap();
    assert!(row.contains("pub struct Row {"));
    assert!(!row.contains("<'a>"));
}

#[test]
fn an_override_can_make_the_record_borrowed() {
    let t = table(vec![column("s", "String")]);
    let mut options = bare_options();
    options.owned = true;
    options
        .overrides
        .push(ch2rs::options::parse_override("s=&'a [u8]").unwrap());
    let row = generate_row(&t, &options).unwrap();
    assert!(row.contains("pub struct Row<'a> {"));
}

#[test]
fn byte_marked_column_gets_the_bytes_attribute() {
    let t = table(vec![column("blob", "String")]);
    let mut options = bare_options();
    options.owned = true;
    options.bytes.push("blob".to_string());
    let row = generate_row(&t, &options).unwrap();
    assert!(row.contains("    #[serde(with = \"serde_bytes\")]\n    pub blob: String,"));
}

#[test]
fn uuid_column_gets_the_uuid_attribute_unless_overridden() {
    let t = table(vec![column("id", "UUID")]);
    let row = generate_row(&t, &bare_options()).unwrap();
    assert!(row.contains("    #[serde(with = \"::clickhouse::serde::uuid\")]\n    pub id: ::uuid::Uuid,"));

    let c = column("id", "UUID");
    let mut options = bare_options();
    options.types.push(ch2rs::options::parse_type("UUID=[u8; 16]").unwrap());
    assert!(make_attribute(&c, &options).is_none());
}

#[test]
fn derive_lines_follow_the_flags() {
    let t = table(vec![column("a", "UInt8")]);
    let mut options = bare_options();
    options.serialize = true;
    options.deserialize = true;
    let row = generate_row(&t, &options).unwrap();
    assert!(row.starts_with(
        "#[derive(Debug, clickhouse::Row)]\n#[derive(serde::Serialize)]\n#[derive(serde::Deserialize)]\npub struct Row {"
    ));
}

#[test]
fn field_names_are_snake_cased() {
    let t = table(vec![column("someColumnName", "UInt8")]);
    let row = generate_row(&t, &bare_options()).unwrap();
    assert!(row.contains("    pub some_column_name: u8,"));
}

#[test]
fn whole_generation_for_a_small_table() {
    let t = table(vec![column("id", "UInt8")]);
    let mut options = bare_options();
    options.owned = true;
    let code = generate(&t, &options).unwrap();
    let expected = "// GENERATED CODE (ch2rs v0.1.0)\n#![cfg_attr(rustfmt, rustfmt::skip)]\n#![allow(warnings)]\n#![allow(clippy::all)]\n\n// Generated with the following options:\n/*\nch2rs t --owned\n*/\n\n#[derive(Debug, clickhouse::Row)]\npub struct Row {\n    pub id: u8,\n}";
    assert_eq!(code, expected);
}

#[test]
fn generation_fails_naming_the_first_bad_column() {
    let t = table(vec![
        column("good", "UInt8"),
        column("bad", "Date"),
        column("worse", "IPv4"),
    ]);
    let err = generate(&t, &bare_options()).unwrap_err();
    assert_eq!(err.column, "bad");
    assert_eq!(err.type_text, "Date");
    assert_eq!(
        err.message(),
        "failed to generate the `bad` field: there is no default impl for Date, use -T or -O to specify it"
    );
}

#[test]
fn make_table_keeps_column_order() {
    let raw = vec![
        ch2rs::parse::RawColumn {
            name: "a".to_string(),
            type_: "UInt8".to_string(),
            comment: "first".to_string(),
        },
        ch2rs::parse::RawColumn {
            name: "b".to_string(),
            type_: "String".to_string(),
            comment: String::new(),
        },
    ];
    let t = ch2rs::parse::make_table(raw, &bare_options()).unwrap();
    assert_eq!(t.database, "default");
    assert_eq!(t.name, "t");
    assert_eq!(t.columns.len(), 2);
    assert_eq!(t.columns[0].name, "a");
    assert_eq!(t.columns[0].comment, "first");
    assert_eq!(t.columns[0].type_, SqlType::UInt8);
    assert_eq!(t.columns[1].name, "b");
    assert_eq!(t.columns[1].type_, SqlType::String);
}

#[test]
fn make_table_reports_the_failing_column() {
    let raw = vec![
        ch2rs::parse::RawColumn {
            name: "ok".to_string(),
            type_: "UInt8".to_string(),
            comment: String::new(),
        },
        ch2rs::parse::RawColumn {
            name: "broken".to_string(),
            type_: "Nonsense".to_string(),
            comment: String::new(),
        },
    ];
    let err = ch2rs::parse::make_table(raw, &bare_options()).unwrap_err();
    assert_eq!(err.column, "broken");
    assert!(err.message().starts_with("failed to handle the `broken` column:"));
}
