//! The type grammar parser: `Name` or `Name(arg, arg, ...)`, recursively for
//! composite types. The whole grammar is written down once, as spec
//! functions, and the executable parser is proved to decide them.

use crate::schema::{view_of, Column, SqlType, Table, TypeV};
use crate::text::{args_sep, find_at, find_from, first_sep_from, parse_i32_exec, parse_i32_spec,
    parse_u32_exec, parse_u32_spec, starts_with_exec, str_eq};
use vstd::prelude::*;
use vstd::string::StrSliceExecFns;
use vstd::string::StringExecFns;

verus! {

/// The separator between an enumeration variant's label and its value.
pub open spec fn eq_sep() -> Seq<char> {
    seq![' ', '=', ' ']
}

/// Whether `s` reads `w` followed by a parenthesized argument text:
/// `w(...)`.
pub open spec fn wrapped_by(s: Seq<char>, w: Seq<char>) -> bool {
    &&& s.len() >= w.len() + 2
    &&& s.subrange(0, w.len() as int) == w
    &&& s[w.len() as int] == '('
    &&& s.last() == ')'
}

/// The text between the outer parentheses of `w(...)`.
pub open spec fn inner_of(s: Seq<char>, w: Seq<char>) -> Seq<char> {
    s.subrange(w.len() as int + 1, s.len() as int - 1)
}

/// The type a grammar string denotes, if it is well formed. A wrapping
/// `LowCardinality` marker is stripped and has no effect on the result.
pub open spec fn parse_spec(s: Seq<char>) -> Option<TypeV>
    decreases s.len(), 1int,
{
    if wrapped_by(s, "LowCardinality"@) {
        parse_body(inner_of(s, "LowCardinality"@))
    } else {
        parse_body(s)
    }
}

/// Dispatch after the transparent marker is stripped: an exact zero-argument
/// name, or one of the known parameterized wrappers.
pub open spec fn parse_body(s: Seq<char>) -> Option<TypeV>
    decreases s.len(), 0int,
{
    if s == "UInt8"@ {
        Option::Some(TypeV::UInt8)
    } else if s == "UInt16"@ {
        Option::Some(TypeV::UInt16)
    } else if s == "UInt32"@ {
        Option::Some(TypeV::UInt32)
    } else if s == "UInt64"@ {
        Option::Some(TypeV::UInt64)
    } else if s == "UInt128"@ {
        Option::Some(TypeV::UInt128)
    } else if s == "Int8"@ {
        Option::Some(TypeV::Int8)
    } else if s == "Int16"@ {
        Option::Some(TypeV::Int16)
    } else if s == "Int32"@ {
        Option::Some(TypeV::Int32)
    } else if s == "Int64"@ {
        Option::Some(TypeV::Int64)
    } else if s == "Int128"@ {
        Option::Some(TypeV::Int128)
    } else if s == "Bool"@ {
        Option::Some(TypeV::Bool)
    } else if s == "String"@ {
        Option::Some(TypeV::String)
    } else if s == "Float32"@ {
        Option::Some(TypeV::Float32)
    } else if s == "Float64"@ {
        Option::Some(TypeV::Float64)
    } else if s == "Date"@ {
        Option::Some(TypeV::Date)
    } else if s == "DateTime"@ {
        Option::Some(TypeV::DateTime(Option::None))
    } else if s == "IPv4"@ {
        Option::Some(TypeV::IPv4)
    } else if s == "IPv6"@ {
        Option::Some(TypeV::IPv6)
    } else if s == "UUID"@ {
        Option::Some(TypeV::UUID)
    } else if wrapped_by(s, "Nullable"@) {
        match parse_spec(inner_of(s, "Nullable"@)) {
            Option::Some(t) => Option::Some(TypeV::Nullable(Box::new(t))),
            Option::None => Option::None,
        }
    } else if wrapped_by(s, "DateTime"@) {
        Option::Some(TypeV::DateTime(Option::Some(inner_of(s, "DateTime"@))))
    } else if wrapped_by(s, "DateTime64"@) {
        parse_dt64_args(inner_of(s, "DateTime64"@))
    } else if wrapped_by(s, "Enum8"@) {
        match parse_kvs(inner_of(s, "Enum8"@)) {
            Option::Some(vs) => Option::Some(TypeV::Enum8(vs)),
            Option::None => Option::None,
        }
    } else if wrapped_by(s, "Enum16"@) {
        match parse_kvs(inner_of(s, "Enum16"@)) {
            Option::Some(vs) => Option::Some(TypeV::Enum16(vs)),
            Option::None => Option::None,
        }
    } else if wrapped_by(s, "Decimal"@) {
        parse_decimal_args(inner_of(s, "Decimal"@))
    } else if wrapped_by(s, "FixedString"@) {
        match parse_u32_spec(inner_of(s, "FixedString"@)) {
            Option::Some(n) => Option::Some(TypeV::FixedString(n)),
            Option::None => Option::None,
        }
    } else if wrapped_by(s, "Array"@) {
        match parse_spec(inner_of(s, "Array"@)) {
            Option::Some(t) => Option::Some(TypeV::Array(Box::new(t))),
            Option::None => Option::None,
        }
    } else if wrapped_by(s, "Tuple"@) {
        match parse_args(inner_of(s, "Tuple"@)) {
            Option::Some(ts) => Option::Some(TypeV::Tuple(ts)),
            Option::None => Option::None,
        }
    } else if wrapped_by(s, "Map"@) {
        let t = inner_of(s, "Map"@);
        let j = first_sep_from(t, 0, 0);
        if 0 <= j && j + 2 <= t.len() {
            match parse_spec(t.subrange(0, j)) {
                Option::Some(k) => match parse_spec(t.subrange(j + 2, t.len() as int)) {
                    Option::Some(v) => Option::Some(TypeV::Dict(Box::new(k), Box::new(v))),
                    Option::None => Option::None,
                },
                Option::None => Option::None,
            }
        } else {
            Option::None
        }
    } else {
        Option::None
    }
}

/// The arguments of `DateTime64`: a precision, optionally followed by a
/// time-zone label.
pub open spec fn parse_dt64_args(t: Seq<char>) -> Option<TypeV> {
    let j = find_at(t, args_sep(), 0);
    if 0 <= j && j + 2 <= t.len() {
        match parse_u32_spec(t.subrange(0, j)) {
            Option::Some(p) => Option::Some(
                TypeV::DateTime64(p, Option::Some(t.subrange(j + 2, t.len() as int))),
            ),
            Option::None => Option::None,
        }
    } else {
        match parse_u32_spec(t) {
            Option::Some(p) => Option::Some(TypeV::DateTime64(p, Option::None)),
            Option::None => Option::None,
        }
    }
}

/// The arguments of `Decimal`: a width and a scale.
pub open spec fn parse_decimal_args(t: Seq<char>) -> Option<TypeV> {
    let j = find_at(t, args_sep(), 0);
    if 0 <= j && j + 2 <= t.len() {
        match parse_u32_spec(t.subrange(0, j)) {
            Option::Some(p) => match parse_u32_spec(t.subrange(j + 2, t.len() as int)) {
                Option::Some(sc) => Option::Some(TypeV::Decimal(p, sc)),
                Option::None => Option::None,
            },
            Option::None => Option::None,
        }
    } else {
        Option::None
    }
}

/// One enumeration variant, written `'label' = value`. The label is what
/// stands between the quotes; the value is a signed 32-bit number.
pub open spec fn parse_kv(p: Seq<char>) -> Option<(Seq<char>, i32)> {
    let j = find_at(p, eq_sep(), 0);
    if 0 <= j && j + 3 <= p.len() {
        let k = p.subrange(0, j);
        let v = p.subrange(j + 3, p.len() as int);
        if k.len() >= 2 && k[0] == '\'' && k.last() == '\'' {
            match parse_i32_spec(v) {
                Option::Some(n) => Option::Some((k.subrange(1, k.len() - 1), n)),
                Option::None => Option::None,
            }
        } else {
            Option::None
        }
    } else {
        Option::None
    }
}

/// A `", "`-separated list of enumeration variants, in source order.
pub open spec fn parse_kvs(t: Seq<char>) -> Option<Seq<(Seq<char>, i32)>>
    decreases t.len(),
{
    let j = find_at(t, args_sep(), 0);
    if 0 <= j && j + 2 <= t.len() {
        match parse_kv(t.subrange(0, j)) {
            Option::Some(kv) => match parse_kvs(t.subrange(j + 2, t.len() as int)) {
                Option::Some(rest) => Option::Some(seq![kv] + rest),
                Option::None => Option::None,
            },
            Option::None => Option::None,
        }
    } else {
        match parse_kv(t) {
            Option::Some(kv) => Option::Some(seq![kv]),
            Option::None => Option::None,
        }
    }
}

/// A list of types separated by `", "` at parenthesis depth zero: a `", "`
/// inside a nested argument list does not split.
pub open spec fn parse_args(t: Seq<char>) -> Option<Seq<TypeV>>
    decreases t.len(), 2int,
{
    let j = first_sep_from(t, 0, 0);
    if 0 <= j && j + 2 <= t.len() {
        match parse_spec(t.subrange(0, j)) {
            Option::Some(ty) => match parse_args(t.subrange(j + 2, t.len() as int)) {
                Option::Some(rest) => Option::Some(seq![ty] + rest),
                Option::None => Option::None,
            },
            Option::None => Option::None,
        }
    } else {
        match parse_spec(t) {
            Option::Some(ty) => Option::Some(seq![ty]),
            Option::None => Option::None,
        }
    }
}

/// A failure to read a grammar string: the text that did not parse and a
/// short account of what was expected.
#[derive(Debug)]
pub struct ParseError {
    pub raw: String,
    pub detail: String,
}

/// What a parse error reads like: the offending text, then the account.
pub open spec fn parse_error_text(raw: Seq<char>, detail: Seq<char>) -> Seq<char> {
    "failed to parse `"@ + raw + "`: "@ + detail
}

impl ParseError {
    /// Renders the error for display.
    pub fn message(&self) -> (r: String)
        ensures
            r@ == parse_error_text(self.raw@, self.detail@),
    {
        let mut s = "failed to parse `".to_owned();
        s.append(self.raw.as_str());
        s.append("`: ");
        s.append(self.detail.as_str());
        proof {
            assert(s@ =~= parse_error_text(self.raw@, self.detail@));
        }
        s
    }
}

fn parse_fail(raw: &str, detail: &str) -> (r: ParseError)
    ensures
        r.raw@ == raw@,
        r.detail@ == detail@,
{
    ParseError { raw: raw.to_owned(), detail: detail.to_owned() }
}

/// Strips `wrapper(...)` from `raw`, handing back the argument text.
pub fn extract_inner<'a>(raw: &'a str, wrapper: &str) -> (r: Option<&'a str>)
    ensures
        match r {
            Option::Some(i) => wrapped_by(raw@, wrapper@) && i@ == inner_of(raw@, wrapper@),
            Option::None => !wrapped_by(raw@, wrapper@),
        },
{
    let n = raw.unicode_len();
    let m = wrapper.unicode_len();
    if n < 2 || m > n - 2 {
        return Option::None;
    }
    if !starts_with_exec(raw, wrapper) {
        return Option::None;
    }
    if raw.get_char(m) != '(' {
        return Option::None;
    }
    if raw.get_char(n - 1) != ')' {
        return Option::None;
    }
    Option::Some(raw.substring_char(m + 1, n - 1))
}

/// Reads a grammar string into a type. Succeeds on exactly the strings the
/// grammar admits, and then returns the type the string denotes.
pub fn parse_type(raw: &str) -> (r: Result<SqlType, ParseError>)
    ensures
        match r {
            Result::Ok(t) => parse_spec(raw@) == Option::Some(view_of(t)),
            Result::Err(_) => parse_spec(raw@) is None,
        },
    decreases raw@.len(), 1int,
{
    match extract_inner(raw, "LowCardinality") {
        Option::Some(inner) => parse_body_exec(inner),
        Option::None => parse_body_exec(raw),
    }
}

fn parse_body_exec(s: &str) -> (r: Result<SqlType, ParseError>)
    ensures
        match r {
            Result::Ok(t) => parse_body(s@) == Option::Some(view_of(t)),
            Result::Err(_) => parse_body(s@) is None,
        },
    decreases s@.len(), 0int,
{
    if str_eq(s, "UInt8") {
        return Result::Ok(SqlType::UInt8);
    }
    if str_eq(s, "UInt16") {
        return Result::Ok(SqlType::UInt16);
    }
    if str_eq(s, "UInt32") {
        return Result::Ok(SqlType::UInt32);
    }
    if str_eq(s, "UInt64") {
        return Result::Ok(SqlType::UInt64);
    }
    if str_eq(s, "UInt128") {
        return Result::Ok(SqlType::UInt128);
    }
    if str_eq(s, "Int8") {
        return Result::Ok(SqlType::Int8);
    }
    if str_eq(s, "Int16") {
        return Result::Ok(SqlType::Int16);
    }
    if str_eq(s, "Int32") {
        return Result::Ok(SqlType::Int32);
    }
    if str_eq(s, "Int64") {
        return Result::Ok(SqlType::Int64);
    }
    if str_eq(s, "Int128") {
        return Result::Ok(SqlType::Int128);
    }
    if str_eq(s, "Bool") {
        return Result::Ok(SqlType::Bool);
    }
    if str_eq(s, "String") {
        return Result::Ok(SqlType::String);
    }
    if str_eq(s, "Float32") {
        return Result::Ok(SqlType::Float32);
    }
    if str_eq(s, "Float64") {
        return Result::Ok(SqlType::Float64);
    }
    if str_eq(s, "Date") {
        return Result::Ok(SqlType::Date);
    }
    if str_eq(s, "DateTime") {
        return Result::Ok(SqlType::DateTime(Option::None));
    }
    if str_eq(s, "IPv4") {
        return Result::Ok(SqlType::IPv4);
    }
    if str_eq(s, "IPv6") {
        return Result::Ok(SqlType::IPv6);
    }
    if str_eq(s, "UUID") {
        return Result::Ok(SqlType::UUID);
    }
    if let Option::Some(inner) = extract_inner(s, "Nullable") {
        return match parse_type(inner) {
            Result::Ok(t) => Result::Ok(SqlType::Nullable(Box::new(t))),
            Result::Err(e) => Result::Err(e),
        };
    }
    if let Option::Some(inner) = extract_inner(s, "DateTime") {
        return Result::Ok(SqlType::DateTime(Option::Some(inner.to_owned())));
    }
    if let Option::Some(inner) = extract_inner(s, "DateTime64") {
        proof {
            reveal_strlit(", ");
            assert(", "@ =~= args_sep());
        }
        let n = inner.unicode_len();
        return match find_from(inner, ", ", 0) {
            Option::Some(j) => {
                let prec_text = inner.substring_char(0, j);
                let tz = inner.substring_char(j + 2, n);
                match parse_u32_exec(prec_text) {
                    Option::Some(p) => Result::Ok(
                        SqlType::DateTime64(p, Option::Some(tz.to_owned())),
                    ),
                    Option::None => Result::Err(parse_fail(inner, "invalid precision")),
                }
            },
            Option::None => match parse_u32_exec(inner) {
                Option::Some(p) => Result::Ok(SqlType::DateTime64(p, Option::None)),
                Option::None => Result::Err(parse_fail(inner, "invalid precision")),
            },
        };
    }
    if let Option::Some(inner) = extract_inner(s, "Enum8") {
        return match parse_kvs_exec(inner) {
            Option::Some(vs) => Result::Ok(SqlType::Enum8(vs)),
            Option::None => Result::Err(parse_fail(inner, "invalid enum")),
        };
    }
    if let Option::Some(inner) = extract_inner(s, "Enum16") {
        return match parse_kvs_exec(inner) {
            Option::Some(vs) => Result::Ok(SqlType::Enum16(vs)),
            Option::None => Result::Err(parse_fail(inner, "invalid enum")),
        };
    }
    if let Option::Some(inner) = extract_inner(s, "Decimal") {
        proof {
            reveal_strlit(", ");
            assert(", "@ =~= args_sep());
        }
        let n = inner.unicode_len();
        return match find_from(inner, ", ", 0) {
            Option::Some(j) => {
                let prec_text = inner.substring_char(0, j);
                let scale_text = inner.substring_char(j + 2, n);
                match parse_u32_exec(prec_text) {
                    Option::Some(p) => match parse_u32_exec(scale_text) {
                        Option::Some(sc) => Result::Ok(SqlType::Decimal(p, sc)),
                        Option::None => Result::Err(parse_fail(inner, "invalid scale")),
                    },
                    Option::None => Result::Err(parse_fail(inner, "invalid width")),
                }
            },
            Option::None => Result::Err(parse_fail(inner, "invalid decimal")),
        };
    }
    if let Option::Some(inner) = extract_inner(s, "FixedString") {
        return match parse_u32_exec(inner) {
            Option::Some(n) => Result::Ok(SqlType::FixedString(n)),
            Option::None => Result::Err(parse_fail(inner, "invalid size")),
        };
    }
    if let Option::Some(inner) = extract_inner(s, "Array") {
        return match parse_type(inner) {
            Result::Ok(t) => Result::Ok(SqlType::Array(Box::new(t))),
            Result::Err(e) => Result::Err(e),
        };
    }
    if let Option::Some(inner) = extract_inner(s, "Tuple") {
        return match parse_args_exec(inner) {
            Option::Some(ts) => Result::Ok(SqlType::Tuple(ts)),
            Option::None => Result::Err(parse_fail(inner, "invalid tuple")),
        };
    }
    if let Option::Some(inner) = extract_inner(s, "Map") {
        let n = inner.unicode_len();
        return match find_top_sep_pub(inner) {
            Option::Some(j) => {
                let key_text = inner.substring_char(0, j);
                let value_text = inner.substring_char(j + 2, n);
                match parse_type(key_text) {
                    Result::Ok(k) => match parse_type(value_text) {
                        Result::Ok(v) => Result::Ok(
                            SqlType::Dict(Box::new(k), Box::new(v)),
                        ),
                        Result::Err(e) => Result::Err(e),
                    },
                    Result::Err(e) => Result::Err(e),
                }
            },
            Option::None => Result::Err(parse_fail(inner, "invalid map")),
        };
    }
    Result::Err(parse_fail(s, "unknown type"))
}

/// One column as the server describes it: its name, its type as a raw
/// grammar string, and its comment.
#[derive(Debug)]
pub struct RawColumn {
    pub name: String,
    pub type_: String,
    pub comment: String,
}

/// A column whose raw description could not be handled: the column's name
/// and the parse failure underneath.
#[derive(Debug)]
pub struct ColumnError {
    pub column: String,
    pub cause: ParseError,
}

/// What a column error reads like: the column, then the cause.
pub open spec fn column_error_text(column: Seq<char>, cause_raw: Seq<char>, cause_detail: Seq<
    char,
>) -> Seq<char> {
    "failed to handle the `"@ + column + "` column: "@ + parse_error_text(cause_raw, cause_detail)
}

impl ColumnError {
    /// Renders the error for display.
    pub fn message(&self) -> (r: String)
        ensures
            r@ == column_error_text(self.column@, self.cause.raw@, self.cause.detail@),
    {
        let mut s = "failed to handle the `".to_owned();
        s.append(self.column.as_str());
        s.append("` column: ");
        let tail = self.cause.message();
        s.append(tail.as_str());
        proof {
            assert(s@ =~= column_error_text(self.column@, self.cause.raw@, self.cause.detail@));
        }
        s
    }
}

/// Whether `c` is the parsed form of the raw column `rc`: same name, same
/// comment, and the type its type string denotes.
pub open spec fn column_parsed(rc: RawColumn, c: Column) -> bool {
    &&& c.name@ == rc.name@
    &&& c.comment@ == rc.comment@
    &&& parse_spec(rc.type_@) == Option::Some(view_of(c.type_))
}

/// Whether `cols` is the parsed form of the raw columns `raw`, one for
/// one, in order.
pub open spec fn columns_parsed(raw: Seq<RawColumn>, cols: Seq<Column>) -> bool
    decreases raw.len(),
{
    &&& cols.len() == raw.len()
    &&& (raw.len() == 0 || (column_parsed(raw[0], cols[0]) && columns_parsed(
        raw.drop_first(),
        cols.drop_first(),
    )))
}

/// Whether `name` names the first raw column whose type string does not
/// parse.
pub open spec fn first_unparsed_is(raw: Seq<RawColumn>, name: Seq<char>) -> bool
    decreases raw.len(),
{
    &&& raw.len() > 0
    &&& if parse_spec(raw[0].type_@) is None {
        name == raw[0].name@
    } else {
        first_unparsed_is(raw.drop_first(), name)
    }
}

/// Turns one raw column into a parsed column, keeping its name and comment.
pub fn make_column(raw: RawColumn) -> (r: Result<Column, ParseError>)
    ensures
        match r {
            Result::Ok(c) => {
                &&& parse_spec(raw.type_@) == Option::Some(view_of(c.type_))
                &&& c.name@ == raw.name@
                &&& c.comment@ == raw.comment@
            },
            Result::Err(_) => parse_spec(raw.type_@) is None,
        },
{
    match parse_type(raw.type_.as_str()) {
        Result::Ok(type_) => Result::Ok(
            Column { name: raw.name, type_, comment: raw.comment },
        ),
        Result::Err(e) => Result::Err(e),
    }
}

/// Groups the raw columns of one table, in their given order, into a
/// table. Succeeds exactly when every column's type string parses; fails
/// naming the first column that does not.
pub fn make_table(raw_columns: Vec<RawColumn>, options: &crate::options::Options) -> (r: Result<
    Table,
    ColumnError,
>)
    ensures
        match r {
            Result::Ok(t) => {
                &&& t.database@ == options.database@
                &&& t.name@ == options.table@
                &&& columns_parsed(raw_columns@, t.columns@)
            },
            Result::Err(e) => first_unparsed_is(raw_columns@, e.column@),
        },
{
    proof {
        assert(raw_columns@.skip(0) =~= raw_columns@);
    }
    match make_columns(&raw_columns, 0) {
        Result::Ok(columns) => Result::Ok(
            Table {
                database: options.database.clone(),
                name: options.table.clone(),
                columns,
            },
        ),
        Result::Err(e) => Result::Err(e),
    }
}

/// Parses the raw columns `raw[from..]`, in order, stopping at the first
/// one whose type string does not parse.
fn make_columns(raw: &Vec<RawColumn>, from: usize) -> (r: Result<Vec<Column>, ColumnError>)
    requires
        from <= raw@.len(),
    ensures
        match r {
            Result::Ok(cols) => columns_parsed(raw@.skip(from as int), cols@),
            Result::Err(e) => first_unparsed_is(raw@.skip(from as int), e.column@),
        },
    decreases raw@.len() - from,
{
    let ghost sub = raw@.skip(from as int);
    if from == raw.len() {
        return Result::Ok(Vec::new());
    }
    proof {
        assert(sub[0] == raw@[from as int]);
        assert(sub.drop_first() =~= raw@.skip(from as int + 1));
    }
    let rc = &raw[from];
    let raw_column = RawColumn {
        name: rc.name.clone(),
        type_: rc.type_.clone(),
        comment: rc.comment.clone(),
    };
    let col_name = rc.name.clone();
    match make_column(raw_column) {
        Result::Ok(column) => {
            match make_columns(raw, from + 1) {
                Result::Ok(mut rest) => {
                    let ghost rest0 = rest@;
                    let mut cols: Vec<Column> = Vec::new();
                    cols.push(column);
                    cols.append(&mut rest);
                    proof {
                        assert(cols@.drop_first() =~= rest0);
                    }
                    Result::Ok(cols)
                },
                Result::Err(e) => Result::Err(e),
            }
        },
        Result::Err(e) => Result::Err(ColumnError { column: col_name, cause: e }),
    }
}

/// Finds the first depth-zero `", "` separator of `s`.
fn find_top_sep_pub(s: &str) -> (r: Option<usize>)
    ensures
        match r {
            Option::Some(j) => first_sep_from(s@, 0, 0) == j as int && j + 2 <= s@.len(),
            Option::None => first_sep_from(s@, 0, 0) == -1,
        },
{
    let n = s.unicode_len();
    let mut i: usize = 0;
    let mut d: i128 = 0;
    while i < n
        invariant
            n == s@.len(),
            0 <= i <= n,
            -(i as int) <= d as int <= i as int,
            first_sep_from(s@, 0, 0) == first_sep_from(s@, i as int, d as int),
        decreases n - i,
    {
        let c = s.get_char(i);
        if d == 0 && c == ',' && i + 1 < n {
            if s.get_char(i + 1) == ' ' {
                return Option::Some(i);
            }
        }
        if c == '(' {
            d = d + 1;
        } else if c == ')' {
            d = d - 1;
        }
        i = i + 1;
    }
    Option::None
}

fn parse_kv_exec(p: &str) -> (r: Option<(String, i32)>)
    ensures
        match r {
            Option::Some(kv) => parse_kv(p@) == Option::Some((kv.0@, kv.1)),
            Option::None => parse_kv(p@) is None,
        },
{
    proof {
        reveal_strlit(" = ");
        assert(" = "@ =~= eq_sep());
    }
    let n = p.unicode_len();
    match find_from(p, " = ", 0) {
        Option::Some(j) => {
            let v = p.substring_char(j + 3, n);
            if j >= 2 && p.get_char(0) == '\'' && p.get_char(j - 1) == '\'' {
                proof {
                    let k = p@.subrange(0, j as int);
                    assert(k[0] == p@[0]);
                    assert(k.last() == p@[j - 1]);
                }
                match parse_i32_exec(v) {
                    Option::Some(val) => {
                        let label = p.substring_char(1, j - 1);
                        proof {
                            let k = p@.subrange(0, j as int);
                            assert(k.subrange(1, k.len() - 1) =~= p@.subrange(1, j - 1));
                        }
                        Option::Some((label.to_owned(), val))
                    },
                    Option::None => Option::None,
                }
            } else {
                proof {
                    let k = p@.subrange(0, j as int);
                    if k.len() >= 2 {
                        assert(k[0] == p@[0]);
                        assert(k.last() == p@[j - 1]);
                    }
                }
                Option::None
            }
        },
        Option::None => Option::None,
    }
}

fn parse_kvs_exec(t: &str) -> (r: Option<Vec<(String, i32)>>)
    ensures
        match r {
            Option::Some(vs) => parse_kvs(t@) == Option::Some(crate::schema::pairs_view(vs@)),
            Option::None => parse_kvs(t@) is None,
        },
    decreases t@.len(),
{
    proof {
        reveal_strlit(", ");
        assert(", "@ =~= args_sep());
    }
    let n = t.unicode_len();
    match find_from(t, ", ", 0) {
        Option::Some(j) => {
            let head = t.substring_char(0, j);
            let rest = t.substring_char(j + 2, n);
            match parse_kv_exec(head) {
                Option::Some(kv) => match parse_kvs_exec(rest) {
                    Option::Some(mut tail) => {
                        let ghost tail0 = tail@;
                        let mut out: Vec<(String, i32)> = Vec::new();
                        out.push(kv);
                        out.append(&mut tail);
                        proof {
                            let ghost kvv = (out@[0].0@, out@[0].1);
                            assert(out@.drop_first() =~= tail0);
                            assert(crate::schema::pairs_view(out@) =~= seq![kvv]
                                + crate::schema::pairs_view(tail0)) by {
                                assert forall|i: int|
                                    0 <= i < crate::schema::pairs_view(out@).len() implies
                                    crate::schema::pairs_view(out@)[i] == (seq![kvv]
                                    + crate::schema::pairs_view(tail0))[i] by {
                                    if i > 0 {
                                        assert(out@[i] == tail0[i - 1]);
                                    }
                                }
                            };
                        }
                        Option::Some(out)
                    },
                    Option::None => Option::None,
                },
                Option::None => Option::None,
            }
        },
        Option::None => match parse_kv_exec(t) {
            Option::Some(kv) => {
                let mut out: Vec<(String, i32)> = Vec::new();
                out.push(kv);
                proof {
                    let ghost kvv = (out@[0].0@, out@[0].1);
                    assert(crate::schema::pairs_view(out@) =~= seq![kvv]);
                }
                Option::Some(out)
            },
            Option::None => Option::None,
        },
    }
}

fn parse_args_exec(t: &str) -> (r: Option<Vec<SqlType>>)
    ensures
        match r {
            Option::Some(ts) => parse_args(t@) == Option::Some(crate::schema::seq_view(ts@)),
            Option::None => parse_args(t@) is None,
        },
    decreases t@.len(), 2int,
{
    let n = t.unicode_len();
    match find_top_sep_pub(t) {
        Option::Some(j) => {
            let head = t.substring_char(0, j);
            let rest = t.substring_char(j + 2, n);
            match parse_type(head) {
                Result::Ok(ty) => match parse_args_exec(rest) {
                    Option::Some(mut tail) => {
                        let ghost tail0 = tail@;
                        let mut out: Vec<SqlType> = Vec::new();
                        out.push(ty);
                        out.append(&mut tail);
                        proof {
                            crate::schema::lemma_seq_view_index(out@);
                            crate::schema::lemma_seq_view_index(tail0);
                            assert(crate::schema::seq_view(out@) =~= seq![view_of(out@[0])]
                                + crate::schema::seq_view(tail0)) by {
                                assert forall|i: int|
                                    0 <= i < crate::schema::seq_view(out@).len() implies
                                    crate::schema::seq_view(out@)[i] == (seq![view_of(out@[0])]
                                    + crate::schema::seq_view(tail0))[i] by {
                                    if i > 0 {
                                        assert(out@[i] == tail0[i - 1]);
                                    }
                                }
                            };
                        }
                        Option::Some(out)
                    },
                    Option::None => Option::None,
                },
                Result::Err(_) => Option::None,
            }
        },
        Option::None => match parse_type(t) {
            Result::Ok(ty) => {
                let mut out: Vec<SqlType> = Vec::new();
                out.push(ty);
                proof {
                    crate::schema::lemma_seq_view_index(out@);
                    assert(crate::schema::seq_view(out@) =~= seq![view_of(out@[0])]);
                }
                Option::Some(out)
            },
            Result::Err(_) => Option::None,
        },
    }
}

} // verus!
