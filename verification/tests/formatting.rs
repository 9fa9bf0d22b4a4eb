use ch2rs::options::Options;

fn base_options() -> Options {
    Options {
        url: "localhost:8123".to_string(),
        user: None,
        password: None,
        database: "default".to_string(),
        table: "t".to_string(),
        serialize: false,
        deserialize: false,
        owned: false,
        types: Vec::new(),
        overrides: Vec::new(),
        bytes: Vec::new(),
    }
}

#[test]
fn bare_invocation() {
    assert_eq!(base_options().format(), "ch2rs t");
}

#[test]
fn scalar_flags_in_fixed_order() {
    let mut o = base_options();
    o.database = "db".to_string();
    o.serialize = true;
    o.deserialize = true;
    o.owned = true;
    assert_eq!(o.format(), "ch2rs t -d db -S -D --owned");
}

#[test]
fn overrides_render_sorted() {
    let mut o = base_options();
    o.types.push(ch2rs::options::parse_type("UUID=[u8; 16]").unwrap());
    o.types.push(ch2rs::options::parse_type("Date=u16").unwrap());
    o.overrides.push(ch2rs::options::parse_override("zz=u8").unwrap());
    o.overrides.push(ch2rs::options::parse_override("aa=u8").unwrap());
    o.bytes.push("second".to_string());
    o.bytes.push("first".to_string());
    let expected = "ch2rs t \\\n    -T 'Date=u16' \\\n    -T 'UUID=[u8; 16]' \\\n    -O 'aa=u8' \\\n    -O 'zz=u8' \\\n    -B 'first' \\\n    -B 'second'";
    assert_eq!(o.format(), expected);
}

#[test]
fn insertion_order_does_not_show() {
    let mut a = base_options();
    a.types.push(ch2rs::options::parse_type("Date=u16").unwrap());
    a.types.push(ch2rs::options::parse_type("IPv4=u32").unwrap());
    a.overrides.push(ch2rs::options::parse_override("x=u8").unwrap());
    a.overrides.push(ch2rs::options::parse_override("y=u8").unwrap());
    a.bytes.push("m".to_string());
    a.bytes.push("n".to_string());

    let mut b = base_options();
    b.types.push(ch2rs::options::parse_type("IPv4=u32").unwrap());
    b.types.push(ch2rs::options::parse_type("Date=u16").unwrap());
    b.overrides.push(ch2rs::options::parse_override("y=u8").unwrap());
    b.overrides.push(ch2rs::options::parse_override("x=u8").unwrap());
    b.bytes.push("n".to_string());
    b.bytes.push("m".to_string());

    assert_eq!(a.format(), b.format());
}

#[test]
fn header_block_reflects_the_options() {
    let t = ch2rs::schema::Table {
        database: "default".to_string(),
        name: "t".to_string(),
        columns: vec![ch2rs::schema::Column {
            name: "a".to_string(),
            type_: ch2rs::schema::SqlType::UInt8,
            comment: String::new(),
        }],
    };
    let mut o = base_options();
    o.types.push(ch2rs::options::parse_type("Date=u16").unwrap());
    let code = ch2rs::codegen::generate(&t, &o).unwrap();
    // The rendered configuration is indented as a block comment, its
    // continuation lines four spaces deep.
    assert!(code.contains("/*\nch2rs t \\\n        -T 'Date=u16'\n*/"));
}
