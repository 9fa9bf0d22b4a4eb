use ch2rs::parse::parse_type;
use ch2rs::schema::SqlType;

#[test]
fn zero_argument_names() {
    assert_eq!(parse_type("UInt8").unwrap(), SqlType::UInt8);
    assert_eq!(parse_type("UInt16").unwrap(), SqlType::UInt16);
    assert_eq!(parse_type("UInt32").unwrap(), SqlType::UInt32);
    assert_eq!(parse_type("UInt64").unwrap(), SqlType::UInt64);
    assert_eq!(parse_type("UInt128").unwrap(), SqlType::UInt128);
    assert_eq!(parse_type("Int8").unwrap(), SqlType::Int8);
    assert_eq!(parse_type("Int16").unwrap(), SqlType::Int16);
    assert_eq!(parse_type("Int32").unwrap(), SqlType::Int32);
    assert_eq!(parse_type("Int64").unwrap(), SqlType::Int64);
    assert_eq!(parse_type("Int128").unwrap(), SqlType::Int128);
    assert_eq!(parse_type("Bool").unwrap(), SqlType::Bool);
    assert_eq!(parse_type("String").unwrap(), SqlType::String);
    assert_eq!(parse_type("Float32").unwrap(), SqlType::Float32);
    assert_eq!(parse_type("Float64").unwrap(), SqlType::Float64);
    assert_eq!(parse_type("Date").unwrap(), SqlType::Date);
    assert_eq!(parse_type("DateTime").unwrap(), SqlType::DateTime(None));
    assert_eq!(parse_type("IPv4").unwrap(), SqlType::IPv4);
    assert_eq!(parse_type("IPv6").unwrap(), SqlType::IPv6);
    assert_eq!(parse_type("UUID").unwrap(), SqlType::UUID);
}

#[test]
fn low_cardinality_is_transparent() {
    assert_eq!(parse_type("LowCardinality(String)").unwrap(), SqlType::String);
    assert_eq!(
        parse_type("Array(LowCardinality(String))").unwrap(),
        SqlType::Array(Box::new(SqlType::String))
    );
}

#[test]
fn nested_nullable_array() {
    assert_eq!(
        parse_type("Nullable(Array(UInt8))").unwrap(),
        SqlType::Nullable(Box::new(SqlType::Array(Box::new(SqlType::UInt8))))
    );
}

#[test]
fn datetime_with_zone() {
    assert_eq!(
        parse_type("DateTime(Europe/Moscow)").unwrap(),
        SqlType::DateTime(Some("Europe/Moscow".to_string()))
    );
}

#[test]
fn datetime64_forms() {
    assert_eq!(parse_type("DateTime64(9)").unwrap(), SqlType::DateTime64(9, None));
    assert_eq!(
        parse_type("DateTime64(3, UTC)").unwrap(),
        SqlType::DateTime64(3, Some("UTC".to_string()))
    );
}

#[test]
fn fixed_string_and_decimal() {
    assert_eq!(parse_type("FixedString(5)").unwrap(), SqlType::FixedString(5));
    assert_eq!(parse_type("Decimal(18, 9)").unwrap(), SqlType::Decimal(18, 9));
}

#[test]
fn enum8_round_trip_variants() {
    let parsed = parse_type("Enum8('' = -128, 'Foo Bar' = 0)").unwrap();
    assert_eq!(
        parsed,
        SqlType::Enum8(vec![("".to_string(), -128), ("Foo Bar".to_string(), 0)])
    );
}

#[test]
fn enum16_extreme_values() {
    let parsed = parse_type("Enum16('lo' = -2147483648, 'hi' = 2147483647)").unwrap();
    assert_eq!(
        parsed,
        SqlType::Enum16(vec![("lo".to_string(), -2147483648), ("hi".to_string(), 2147483647)])
    );
}

#[test]
fn tuple_with_nested_composite_argument() {
    // The separator inside the nested argument list must not split the
    // tuple: splitting is depth-aware.
    assert_eq!(
        parse_type("Tuple(Decimal(18, 9), String)").unwrap(),
        SqlType::Tuple(vec![SqlType::Decimal(18, 9), SqlType::String])
    );
    assert_eq!(
        parse_type("Tuple(String, LowCardinality(String))").unwrap(),
        SqlType::Tuple(vec![SqlType::String, SqlType::String])
    );
}

#[test]
fn map_of_key_and_value() {
    assert_eq!(
        parse_type("Map(String, UInt32)").unwrap(),
        SqlType::Dict(Box::new(SqlType::String), Box::new(SqlType::UInt32))
    );
    assert_eq!(
        parse_type("Map(Tuple(UInt8, UInt16), String)").unwrap(),
        SqlType::Dict(
            Box::new(SqlType::Tuple(vec![SqlType::UInt8, SqlType::UInt16])),
            Box::new(SqlType::String)
        )
    );
}

#[test]
fn unknown_name_is_rejected() {
    let err = parse_type("Unknown").unwrap_err();
    assert_eq!(err.raw, "Unknown");
    assert!(err.message().contains("unknown type"));
}

#[test]
fn malformed_arguments_are_rejected() {
    assert!(parse_type("FixedString(x)").is_err());
    assert!(parse_type("FixedString()").is_err());
    assert!(parse_type("DateTime64(x)").is_err());
    assert!(parse_type("Decimal(18)").is_err());
    assert!(parse_type("Enum8('a' = b)").is_err());
    assert!(parse_type("Enum8(a = 1)").is_err());
    assert!(parse_type("Enum8()").is_err());
    assert!(parse_type("Tuple()").is_err());
    assert!(parse_type("Map(String)").is_err());
    assert!(parse_type("Nullable(Unknown)").is_err());
}

#[test]
fn canonical_text_round_trips() {
    for raw in [
        "UInt8",
        "String",
        "FixedString(5)",
        "DateTime",
        "DateTime(UTC)",
        "DateTime64(9)",
        "DateTime64(3, UTC)",
        "Decimal(18, 9)",
        "Enum8('' = -128, 'Foo Bar' = 0)",
        "Array(UInt8)",
        "Tuple(Decimal(18, 9), String)",
        "Map(String, UInt32)",
        "Nullable(Array(UInt8))",
    ] {
        let parsed = parse_type(raw).unwrap();
        assert_eq!(parsed.text(), raw, "canonical text of `{}`", raw);
        let reparsed = parse_type(&parsed.text()).unwrap();
        assert_eq!(reparsed, parsed, "round trip of `{}`", raw);
    }
}

#[test]
fn structural_equality_compares_contents() {
    let a = parse_type("Tuple(String, Enum8('x' = 1))").unwrap();
    let b = parse_type("Tuple(String, Enum8('x' = 1))").unwrap();
    let c = parse_type("Tuple(String, Enum8('y' = 1))").unwrap();
    assert!(a.same_as(&b));
    assert!(!a.same_as(&c));
}
