use ch2rs::codegen::do_make_type;
use ch2rs::options::Options;
use ch2rs::schema::SqlType;

fn bare_options() -> Options {
    Options {
        url: "localhost:8123".to_string(),
        user: None,
        password: None,
        database: "default".to_string(),
        table: "t".to_string(),
        serialize: false,
        deserialize: false,
        owned: false,
        types: Vec::new(),
        overrides: Vec::new(),
        bytes: Vec::new(),
    }
}

#[test]
fn builtin_defaults() {
    let options = bare_options();
    let cases = [
        (SqlType::UInt8, "u8"),
        (SqlType::UInt16, "u16"),
        (SqlType::UInt32, "u32"),
        (SqlType::UInt64, "u64"),
        (SqlType::UInt128, "u128"),
        (SqlType::Int8, "i8"),
        (SqlType::Int16, "i16"),
        (SqlType::Int32, "i32"),
        (SqlType::Int64, "i64"),
        (SqlType::Int128, "i128"),
        (SqlType::Bool, "bool"),
        (SqlType::Float32, "f32"),
        (SqlType::Float64, "f64"),
        (SqlType::UUID, "::uuid::Uuid"),
    ];
    for (sql, expected) in cases {
        assert_eq!(do_make_type("c", &sql, &options).unwrap(), expected);
    }
}

#[test]
fn string_follows_the_owned_flag() {
    let mut options = bare_options();
    assert_eq!(do_make_type("c", &SqlType::String, &options).unwrap(), "&'a str");
    options.owned = true;
    assert_eq!(do_make_type("c", &SqlType::String, &options).unwrap(), "String");
}

#[test]
fn owned_flag_reaches_nested_strings() {
    let mut options = bare_options();
    options.owned = true;
    let t = ch2rs::parse::parse_type("Nullable(Array(String))").unwrap();
    assert_eq!(do_make_type("c", &t, &options).unwrap(), "Option<Vec<String>>");
}

#[test]
fn nullable_array_resolves_recursively() {
    let mut options = bare_options();
    options.owned = true;
    let t = ch2rs::parse::parse_type("Nullable(Array(UInt8))").unwrap();
    assert_eq!(do_make_type("c", &t, &options).unwrap(), "Option<Vec<u8>>");
}

#[test]
fn tuple_resolves_elementwise() {
    let options = bare_options();
    let t = ch2rs::parse::parse_type("Tuple(UInt8, Int64)").unwrap();
    assert_eq!(do_make_type("c", &t, &options).unwrap(), "(u8, i64, )");
}

#[test]
fn enum_default_is_the_camel_cased_column_name() {
    let options = bare_options();
    let t = ch2rs::parse::parse_type("Enum8('a' = 1)").unwrap();
    assert_eq!(do_make_type("shipment_state", &t, &options).unwrap(), "ShipmentState");
    // Two differently named columns of the same shape get two names.
    assert_eq!(do_make_type("other_state", &t, &options).unwrap(), "OtherState");
}

#[test]
fn type_override_takes_precedence_over_default() {
    let mut options = bare_options();
    options.types.push(ch2rs::options::parse_type("UInt8=MyByte").unwrap());
    assert_eq!(do_make_type("c", &SqlType::UInt8, &options).unwrap(), "MyByte");
}

#[test]
fn column_override_beats_type_override() {
    let mut options = bare_options();
    options.types.push(ch2rs::options::parse_type("UInt8=FromTypeOverride").unwrap());
    options
        .overrides
        .push(ch2rs::options::parse_override("c=FromColumnOverride").unwrap());
    assert_eq!(do_make_type("c", &SqlType::UInt8, &options).unwrap(), "FromColumnOverride");
    // Another column still sees the type override.
    assert_eq!(do_make_type("d", &SqlType::UInt8, &options).unwrap(), "FromTypeOverride");
}

#[test]
fn no_default_without_override_fails() {
    let options = bare_options();
    let err = do_make_type("c", &SqlType::FixedString(5), &options).unwrap_err();
    assert_eq!(err.type_text, "FixedString(5)");
    assert_eq!(
        err.message(),
        "there is no default impl for FixedString(5), use -T or -O to specify it"
    );
    for raw in ["Date", "DateTime", "DateTime64(9)", "IPv4", "IPv6", "Decimal(18, 9)"] {
        let t = ch2rs::parse::parse_type(raw).unwrap();
        assert!(do_make_type("c", &t, &options).is_err(), "`{}` must have no default", raw);
    }
}

#[test]
fn override_supplies_the_missing_default() {
    let mut options = bare_options();
    options.types.push(ch2rs::options::parse_type("FixedString(5)=[u8; 5]").unwrap());
    assert_eq!(do_make_type("c", &SqlType::FixedString(5), &options).unwrap(), "[u8; 5]");
}

#[test]
fn failure_inside_a_composite_names_the_nested_type() {
    let options = bare_options();
    let t = ch2rs::parse::parse_type("Array(Date)").unwrap();
    let err = do_make_type("c", &t, &options).unwrap_err();
    assert_eq!(err.type_text, "Date");
}

#[test]
fn map_resolves_like_the_tuple_array() {
    let mut options = bare_options();
    options.owned = true;
    let m = ch2rs::parse::parse_type("Map(String, UInt32)").unwrap();
    let a = ch2rs::parse::parse_type("Array(Tuple(String, UInt32))").unwrap();
    assert_eq!(
        do_make_type("c", &m, &options).unwrap(),
        do_make_type("c", &a, &options).unwrap()
    );
    assert_eq!(do_make_type("c", &m, &options).unwrap(), "Vec<(String, u32, )>");
}

#[test]
fn map_honors_an_override_for_the_tuple_array_form() {
    let mut options = bare_options();
    options
        .types
        .push(ch2rs::options::parse_type("Array(Tuple(String, UInt32))=MyMap").unwrap());
    let m = ch2rs::parse::parse_type("Map(String, UInt32)").unwrap();
    assert_eq!(do_make_type("c", &m, &options).unwrap(), "MyMap");
}

#[test]
fn override_matching_is_structural() {
    let mut options = bare_options();
    options
        .types
        .push(ch2rs::options::parse_type("Tuple(String, UInt32)=MyPair").unwrap());
    let same_shape = SqlType::Tuple(vec![SqlType::String, SqlType::UInt32]);
    let other_shape = SqlType::Tuple(vec![SqlType::String, SqlType::UInt64]);
    assert_eq!(do_make_type("c", &same_shape, &options).unwrap(), "MyPair");
    assert_eq!(do_make_type("c", &other_shape, &options).unwrap(), "(&'a str, u64, )");
}

#[test]
fn override_strings_split_at_the_first_equals_sign() {
    let t = ch2rs::options::parse_type("UInt8=Wrapper<u8>=odd").unwrap();
    assert_eq!(t.sql, SqlType::UInt8);
    assert_eq!(t.type_, "Wrapper<u8>=odd");
    let o = ch2rs::options::parse_override("col=Vec<u8>").unwrap();
    assert_eq!(o.column, "col");
    assert_eq!(o.type_, "Vec<u8>");
    assert!(ch2rs::options::parse_override("no separator").is_err());
    assert!(ch2rs::options::parse_type("Unknown=x").is_err());
}
