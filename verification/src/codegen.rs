//! The type resolver and the code emitter: from a table and a configuration
//! to the text of a record declaration and its enumeration declarations.

use crate::options::{format_text, Options, Override, Type};
use crate::schema::{
    clone_variants, lemma_seq_view_index, lemma_weight_expand, lemma_weight_pos,
    lemma_weight_seq_element, pairs_view, seq_view, text_of, view_of, weight, weight_seq, Column,
    SqlType, Table, TypeV,
};
use crate::text::{contains_seq, int_text, is_blank, replace_nl, trim_ws};
use vstd::prelude::*;
use vstd::string::StrSliceExecFns;
use vstd::string::StringExecFns;

verus! {

/// What heck's upper-camel-case conversion returns for the given characters.
pub uninterp spec fn camel_of(s: Seq<char>) -> Seq<char>;

/// What heck's snake-case conversion returns for the given characters.
pub uninterp spec fn snake_of(s: Seq<char>) -> Seq<char>;

/// Relies on heck's `ToUpperCamelCase` for `str`: the result is a function
/// of the input characters alone.
#[verifier::external_body]
fn to_camel_case(s: &str) -> (r: String)
    ensures
        r@ == camel_of(s@),
{
    heck::ToUpperCamelCase::to_upper_camel_case(s)
}

/// Relies on heck's `ToSnakeCase` for `str`: the result is a function of
/// the input characters alone.
#[verifier::external_body]
fn to_snake_case(s: &str) -> (r: String)
    ensures
        r@ == snake_of(s@),
{
    heck::ToSnakeCase::to_snake_case(s)
}

/// The first column-name override for `name`, if any.
pub open spec fn col_override(ovs: Seq<Override>, name: Seq<char>) -> Option<Seq<char>>
    decreases ovs.len(),
{
    if ovs.len() == 0 {
        Option::None
    } else if ovs[0].column@ == name {
        Option::Some(ovs[0].type_@)
    } else {
        col_override(ovs.drop_first(), name)
    }
}

/// The first type-signature override structurally equal to `tv`, if any.
pub open spec fn type_override(ts: Seq<Type>, tv: TypeV) -> Option<Seq<char>>
    decreases ts.len(),
{
    if ts.len() == 0 {
        Option::None
    } else if view_of(ts[0].sql) == tv {
        Option::Some(ts[0].type_@)
    } else {
        type_override(ts.drop_first(), tv)
    }
}

/// The override that applies to a column of name `name` and type `tv`: a
/// column-name override first, a type-signature override second.
pub open spec fn find_override_spec(name: Seq<char>, tv: TypeV, o: Options) -> Option<Seq<char>> {
    match col_override(o.overrides@, name) {
        Option::Some(s) => Option::Some(s),
        Option::None => type_override(o.types@, tv),
    }
}

/// Looks up the override for a column, column-name overrides first.
pub fn find_override(name: &str, sql_type: &SqlType, options: &Options) -> (r: Option<String>)
    ensures
        match r {
            Option::Some(s) => find_override_spec(name@, view_of(*sql_type), *options)
                == Option::Some(s@),
            Option::None => find_override_spec(name@, view_of(*sql_type), *options) is None,
        },
{
    proof {
        assert(options.overrides@.skip(0) =~= options.overrides@);
        assert(options.types@.skip(0) =~= options.types@);
    }
    let novs = options.overrides.len();
    let mut i: usize = 0;
    while i < novs
        invariant
            novs == options.overrides@.len(),
            0 <= i <= novs,
            col_override(options.overrides@, name@) == col_override(
                options.overrides@.skip(i as int),
                name@,
            ),
        decreases novs - i,
    {
        let o = &options.overrides[i];
        proof {
            assert(options.overrides@.skip(i as int)[0] == options.overrides@[i as int]);
            assert(options.overrides@.skip(i as int).drop_first() =~= options.overrides@.skip(
                i + 1,
            ));
        }
        if crate::text::str_eq(o.column.as_str(), name) {
            return Option::Some(o.type_.clone());
        }
        i = i + 1;
    }
    proof {
        assert(options.types@.skip(0) =~= options.types@);
    }
    let nts = options.types.len();
    let mut j: usize = 0;
    while j < nts
        invariant
            nts == options.types@.len(),
            0 <= j <= nts,
            col_override(options.overrides@, name@) is None,
            type_override(options.types@, view_of(*sql_type)) == type_override(
                options.types@.skip(j as int),
                view_of(*sql_type),
            ),
        decreases nts - j,
    {
        let t = &options.types[j];
        proof {
            assert(options.types@.skip(j as int)[0] == options.types@[j as int]);
            assert(options.types@.skip(j as int).drop_first() =~= options.types@.skip(j + 1));
        }
        if t.sql.same_as(sql_type) {
            return Option::Some(t.type_.clone());
        }
        j = j + 1;
    }
    Option::None
}

/// What a column of name `name` and type `tv` resolves to: the applicable
/// override if one is configured, otherwise the built-in default. `Err`
/// carries the canonical text of the nested type that has neither an
/// override nor a default.
pub open spec fn resolve_spec(name: Seq<char>, tv: TypeV, o: Options) -> Result<Seq<char>, Seq<
    char,
>>
    decreases weight(tv), 0int,
    via resolve_spec_dec
{
    match find_override_spec(name, tv, o) {
        Option::Some(s) => Result::Ok(s),
        Option::None => match tv {
            TypeV::UInt8 => Result::Ok("u8"@),
            TypeV::UInt16 => Result::Ok("u16"@),
            TypeV::UInt32 => Result::Ok("u32"@),
            TypeV::UInt64 => Result::Ok("u64"@),
            TypeV::UInt128 => Result::Ok("u128"@),
            TypeV::Int8 => Result::Ok("i8"@),
            TypeV::Int16 => Result::Ok("i16"@),
            TypeV::Int32 => Result::Ok("i32"@),
            TypeV::Int64 => Result::Ok("i64"@),
            TypeV::Int128 => Result::Ok("i128"@),
            TypeV::Bool => Result::Ok("bool"@),
            TypeV::String => Result::Ok(
                if o.owned {
                    "String"@
                } else {
                    "&'a str"@
                },
            ),
            TypeV::Float32 => Result::Ok("f32"@),
            TypeV::Float64 => Result::Ok("f64"@),
            TypeV::UUID => Result::Ok("::uuid::Uuid"@),
            TypeV::Enum8(_) => Result::Ok(camel_of(name)),
            TypeV::Enum16(_) => Result::Ok(camel_of(name)),
            TypeV::Array(inner) => match resolve_spec(name, *inner, o) {
                Result::Ok(s) => Result::Ok("Vec<"@ + s + ">"@),
                Result::Err(e) => Result::Err(e),
            },
            TypeV::Tuple(ts) => match resolve_args(name, ts, o) {
                Result::Ok(s) => Result::Ok(seq!['('] + s + seq![')']),
                Result::Err(e) => Result::Err(e),
            },
            TypeV::Dict(k, v) => resolve_spec(
                name,
                TypeV::Array(Box::new(TypeV::Tuple(seq![*k, *v]))),
                o,
            ),
            TypeV::Nullable(inner) => match resolve_spec(name, *inner, o) {
                Result::Ok(s) => Result::Ok("Option<"@ + s + ">"@),
                Result::Err(e) => Result::Err(e),
            },
            _ => Result::Err(text_of(tv)),
        },
    }
}

/// The resolved elements of a tuple, each followed by `", "`.
pub open spec fn resolve_args(name: Seq<char>, ts: Seq<TypeV>, o: Options) -> Result<
    Seq<char>,
    Seq<char>,
>
    decreases weight_seq(ts), 1int,
    via resolve_args_dec
{
    if ts.len() == 0 {
        Result::Ok(Seq::empty())
    } else {
        match resolve_spec(name, ts[0], o) {
            Result::Ok(s) => match resolve_args(name, ts.drop_first(), o) {
                Result::Ok(rest) => Result::Ok(s + crate::text::args_sep() + rest),
                Result::Err(e) => Result::Err(e),
            },
            Result::Err(e) => Result::Err(e),
        }
    }
}

#[via_fn]
proof fn resolve_spec_dec(name: Seq<char>, tv: TypeV, o: Options) {
    match tv {
        TypeV::Dict(k, v) => {
            lemma_weight_expand(*k, *v);
        },
        _ => {},
    }
}

#[via_fn]
proof fn resolve_args_dec(name: Seq<char>, ts: Seq<TypeV>, o: Options) {
    if ts.len() > 0 {
        lemma_weight_pos(ts[0]);
    }
}

/// A type that resolution could not map: it has no override configured and
/// no built-in default.
#[derive(Debug)]
pub struct ResolveError {
    pub type_text: String,
}

/// What a resolution error reads like.
pub open spec fn resolve_error_text(t: Seq<char>) -> Seq<char> {
    "there is no default impl for "@ + t + ", use -T or -O to specify it"@
}

impl ResolveError {
    /// Renders the error for display.
    pub fn message(&self) -> (r: String)
        ensures
            r@ == resolve_error_text(self.type_text@),
    {
        let mut s = "there is no default impl for ".to_owned();
        s.append(self.type_text.as_str());
        s.append(", use -T or -O to specify it");
        proof {
            assert(s@ =~= resolve_error_text(self.type_text@));
        }
        s
    }
}

/// Resolves the type of the column `name`, overrides first, recursing into
/// composite types with the same column name and configuration.
pub fn do_make_type(name: &str, sql_type: &SqlType, options: &Options) -> (r: Result<
    String,
    ResolveError,
>)
    ensures
        match r {
            Result::Ok(s) => resolve_spec(name@, view_of(*sql_type), *options) == Result::Ok::<
                Seq<char>,
                Seq<char>,
            >(s@),
            Result::Err(e) => resolve_spec(name@, view_of(*sql_type), *options) == Result::Err::<
                Seq<char>,
                Seq<char>,
            >(e.type_text@),
        },
    decreases weight(view_of(*sql_type)), 0int,
{
    if let Option::Some(s) = find_override(name, sql_type, options) {
        return Result::Ok(s);
    }
    match sql_type {
        SqlType::UInt8 => Result::Ok("u8".to_owned()),
        SqlType::UInt16 => Result::Ok("u16".to_owned()),
        SqlType::UInt32 => Result::Ok("u32".to_owned()),
        SqlType::UInt64 => Result::Ok("u64".to_owned()),
        SqlType::UInt128 => Result::Ok("u128".to_owned()),
        SqlType::Int8 => Result::Ok("i8".to_owned()),
        SqlType::Int16 => Result::Ok("i16".to_owned()),
        SqlType::Int32 => Result::Ok("i32".to_owned()),
        SqlType::Int64 => Result::Ok("i64".to_owned()),
        SqlType::Int128 => Result::Ok("i128".to_owned()),
        SqlType::Bool => Result::Ok("bool".to_owned()),
        SqlType::String => {
            if options.owned {
                Result::Ok("String".to_owned())
            } else {
                Result::Ok("&'a str".to_owned())
            }
        },
        SqlType::Float32 => Result::Ok("f32".to_owned()),
        SqlType::Float64 => Result::Ok("f64".to_owned()),
        SqlType::UUID => Result::Ok("::uuid::Uuid".to_owned()),
        SqlType::Enum8(_) => Result::Ok(to_camel_case(name)),
        SqlType::Enum16(_) => Result::Ok(to_camel_case(name)),
        SqlType::Array(inner) => {
            match do_make_type(name, inner, options) {
                Result::Ok(s) => {
                    let mut out = "Vec<".to_owned();
                    out.append(s.as_str());
                    out.append(">");
                    proof {
                        assert(out@ =~= "Vec<"@ + s@ + ">"@);
                    }
                    Result::Ok(out)
                },
                Result::Err(e) => Result::Err(e),
            }
        },
        SqlType::Tuple(v) => {
            proof {
                assert(v@.subrange(0, v@.len() as int) =~= v@);
            }
            match resolve_args_exec(name, v, 0, options) {
                Result::Ok(s) => {
                    let mut out = "(".to_owned();
                    out.append(s.as_str());
                    out.append(")");
                    proof {
                        reveal_strlit("(");
                        reveal_strlit(")");
                        assert("("@ =~= seq!['(']);
                        assert(")"@ =~= seq![')']);
                        assert(out@ =~= seq!['('] + s@ + seq![')']);
                    }
                    Result::Ok(out)
                },
                Result::Err(e) => Result::Err(e),
            }
        },
        SqlType::Dict(k, v) => {
            let d1 = k.duplicate();
            let d2 = v.duplicate();
            proof {
                assert(view_of(d1) == view_of(**k));
                assert(view_of(d2) == view_of(**v));
            }
            let mut two: Vec<SqlType> = Vec::new();
            two.push(d1);
            two.push(d2);
            let ghost twov = two@;
            proof {
                assert(twov.len() == 2);
                assert(view_of(twov[0]) == view_of(**k));
                assert(view_of(twov[1]) == view_of(**v));
            }
            let rewritten = SqlType::Array(Box::new(SqlType::Tuple(two)));
            proof {
                reveal_with_fuel(view_of, 3);
                lemma_seq_view_index(twov);
                assert(seq_view(twov) =~= seq![view_of(**k), view_of(**v)]);
                assert(view_of(rewritten) == TypeV::Array(
                    Box::new(TypeV::Tuple(seq![view_of(**k), view_of(**v)])),
                ));
                assert(view_of(*sql_type) == TypeV::Dict(
                    Box::new(view_of(**k)),
                    Box::new(view_of(**v)),
                ));
                lemma_weight_expand(view_of(**k), view_of(**v));
            }
            do_make_type(name, &rewritten, options)
        },
        SqlType::Nullable(inner) => {
            match do_make_type(name, inner, options) {
                Result::Ok(s) => {
                    let mut out = "Option<".to_owned();
                    out.append(s.as_str());
                    out.append(">");
                    proof {
                        assert(out@ =~= "Option<"@ + s@ + ">"@);
                    }
                    Result::Ok(out)
                },
                Result::Err(e) => Result::Err(e),
            }
        },
        _ => Result::Err(ResolveError { type_text: sql_type.text() }),
    }
}

/// Resolves the tuple elements `v[from..]`, each followed by `", "`.
fn resolve_args_exec(name: &str, v: &Vec<SqlType>, from: usize, options: &Options) -> (r: Result<
    String,
    ResolveError,
>)
    requires
        from <= v@.len(),
    ensures
        match r {
            Result::Ok(s) => resolve_args(
                name@,
                seq_view(v@.subrange(from as int, v@.len() as int)),
                *options,
            ) == Result::Ok::<Seq<char>, Seq<char>>(s@),
            Result::Err(e) => resolve_args(
                name@,
                seq_view(v@.subrange(from as int, v@.len() as int)),
                *options,
            ) == Result::Err::<Seq<char>, Seq<char>>(e.type_text@),
        },
    decreases weight_seq(seq_view(v@.subrange(from as int, v@.len() as int))), 1int,
{
    let ghost sub = v@.subrange(from as int, v@.len() as int);
    proof {
        lemma_seq_view_index(sub);
    }
    if from == v.len() {
        proof {
            assert(seq_view(sub).len() == 0);
        }
        Result::Ok(String::new())
    } else {
        proof {
            assert(sub[0] == v@[from as int]);
            assert(seq_view(sub)[0] == view_of(v@[from as int]));
            lemma_weight_seq_element(seq_view(sub), 0);
        }
        match do_make_type(name, &v[from], options) {
            Result::Ok(s) => {
                proof {
                    let subn = v@.subrange(from + 1, v@.len() as int);
                    lemma_seq_view_index(subn);
                    assert(seq_view(sub).drop_first() =~= seq_view(subn)) by {
                        assert forall|i: int| 0 <= i < seq_view(subn).len() implies seq_view(
                            sub,
                        ).drop_first()[i] == seq_view(subn)[i] by {
                            assert(sub[i + 1] == v@[from + 1 + i]);
                            assert(subn[i] == v@[from + 1 + i]);
                        }
                    };
                    lemma_weight_pos(seq_view(sub)[0]);
                }
                match resolve_args_exec(name, v, from + 1, options) {
                    Result::Ok(rest) => {
                        let mut out = s;
                        out.append(", ");
                        out.append(rest.as_str());
                        proof {
                            reveal_strlit(", ");
                            assert(", "@ =~= crate::text::args_sep());
                            assert(out@ =~= resolve_args(name@, seq_view(sub), *options)->Ok_0);
                        }
                        Result::Ok(out)
                    },
                    Result::Err(e) => Result::Err(e),
                }
            },
            Result::Err(e) => Result::Err(e),
        }
    }
}

/// Resolves a column's output type.
pub fn make_type(column: &Column, options: &Options) -> (r: Result<String, ResolveError>)
    ensures
        match r {
            Result::Ok(s) => resolve_spec(column.name@, view_of(column.type_), *options)
                == Result::Ok::<Seq<char>, Seq<char>>(s@),
            Result::Err(e) => resolve_spec(column.name@, view_of(column.type_), *options)
                == Result::Err::<Seq<char>, Seq<char>>(e.type_text@),
        },
{
    do_make_type(column.name.as_str(), &column.type_, options)
}

/// Whether the configuration marks the column named `name` for byte-buffer
/// serialization.
pub open spec fn bytes_marked(bs: Seq<String>, name: Seq<char>) -> bool {
    exists|i: int| 0 <= i < bs.len() && #[trigger] bs[i]@ == name
}

fn bytes_contain(bs: &Vec<String>, name: &str) -> (r: bool)
    ensures
        r == bytes_marked(bs@, name@),
{
    let n = bs.len();
    let mut i: usize = 0;
    while i < n
        invariant
            n == bs@.len(),
            0 <= i <= n,
            forall|j: int| 0 <= j < i ==> #[trigger] bs@[j]@ != name@,
        decreases n - i,
    {
        if crate::text::str_eq(bs[i].as_str(), name) {
            return true;
        }
        i = i + 1;
    }
    false
}

/// The attribute line a column's field carries: a byte-buffer request for a
/// marked column; nothing for an overridden column; a UUID helper for a
/// UUID column; nothing otherwise.
pub open spec fn attr_text(c: Column, o: Options) -> Seq<char> {
    if bytes_marked(o.bytes@, c.name@) {
        "    #[serde(with = \"serde_bytes\")]\n"@
    } else if find_override_spec(c.name@, view_of(c.type_), o) is Some {
        Seq::empty()
    } else if view_of(c.type_) == TypeV::UUID {
        "    #[serde(with = \"::clickhouse::serde::uuid\")]\n"@
    } else {
        Seq::empty()
    }
}

/// The attribute a column's field carries, if any.
pub fn make_attribute(column: &Column, options: &Options) -> (r: Option<String>)
    ensures
        match r {
            Option::Some(s) => s@ == attr_text(*column, *options) && s@.len() > 0,
            Option::None => attr_text(*column, *options) == Seq::<char>::empty(),
        },
{
    if bytes_contain(&options.bytes, column.name.as_str()) {
        let s: String = "    #[serde(with = \"serde_bytes\")]\n".to_owned();
        proof {
            reveal_strlit("    #[serde(with = \"serde_bytes\")]\n");
        }
        return Option::Some(s);
    }
    if let Option::Some(_) = find_override(column.name.as_str(), &column.type_, options) {
        return Option::None;
    }
    if column.type_.same_as(&SqlType::UUID) {
        let s: String = "    #[serde(with = \"::clickhouse::serde::uuid\")]\n".to_owned();
        proof {
            reveal_strlit("    #[serde(with = \"::clickhouse::serde::uuid\")]\n");
        }
        return Option::Some(s);
    }
    Option::None
}

/// The text of one record field: its attribute line, then
/// `    pub <snake-cased name>: <resolved type>,`.
pub open spec fn field_text(c: Column, o: Options) -> Result<Seq<char>, Seq<char>> {
    match resolve_spec(c.name@, view_of(c.type_), o) {
        Result::Ok(t) => Result::Ok(
            attr_text(c, o) + "    pub "@ + snake_of(c.name@) + ": "@ + t + ",\n"@,
        ),
        Result::Err(e) => Result::Err(e),
    }
}

/// Generates one record field.
pub fn generate_field(column: &Column, options: &Options) -> (r: Result<String, ResolveError>)
    ensures
        match r {
            Result::Ok(s) => field_text(*column, *options) == Result::Ok::<Seq<char>, Seq<char>>(
                s@,
            ),
            Result::Err(e) => field_text(*column, *options) == Result::Err::<Seq<char>, Seq<char>>(
                e.type_text@,
            ),
        },
{
    let ty = match make_type(column, options) {
        Result::Ok(t) => t,
        Result::Err(e) => {
            return Result::Err(e);
        },
    };
    let mut s = match make_attribute(column, options) {
        Option::Some(a) => a,
        Option::None => String::new(),
    };
    s.append("    pub ");
    let name = to_snake_case(column.name.as_str());
    s.append(name.as_str());
    s.append(": ");
    s.append(ty.as_str());
    s.append(",\n");
    proof {
        assert(s@ =~= attr_text(*column, *options) + "    pub "@ + snake_of(column.name@) + ": "@
            + ty@ + ",\n"@);
    }
    Result::Ok(s)
}

/// Whether a column's resolved type text carries the borrowed-string
/// marker `'a`.
pub open spec fn field_borrowed(c: Column, o: Options) -> bool {
    match resolve_spec(c.name@, view_of(c.type_), o) {
        Result::Ok(t) => contains_seq(t, seq!['\'', 'a']),
        Result::Err(_) => false,
    }
}

/// Whether any column's resolved type text carries the borrowed-string
/// marker.
pub open spec fn has_borrow(cs: Seq<Column>, o: Options) -> bool
    decreases cs.len(),
{
    if cs.len() == 0 {
        false
    } else {
        field_borrowed(cs[0], o) || has_borrow(cs.drop_first(), o)
    }
}

/// The concatenated field texts of the columns, or the first column that
/// fails to resolve, named together with its unresolved type.
pub open spec fn fields_text(cs: Seq<Column>, o: Options) -> Result<Seq<char>, (Seq<char>, Seq<
    char,
>)>
    decreases cs.len(),
{
    if cs.len() == 0 {
        Result::Ok(Seq::empty())
    } else {
        match field_text(cs[0], o) {
            Result::Err(e) => Result::Err((cs[0].name@, e)),
            Result::Ok(t) => match fields_text(cs.drop_first(), o) {
                Result::Ok(rest) => Result::Ok(t + rest),
                Result::Err(p) => Result::Err(p),
            },
        }
    }
}

/// A column whose generation failed: the column and the unresolved type.
#[derive(Debug)]
pub struct GenError {
    pub column: String,
    pub type_text: String,
}

/// What a generation error reads like.
pub open spec fn gen_error_text(column: Seq<char>, t: Seq<char>) -> Seq<char> {
    "failed to generate the `"@ + column + "` field: "@ + resolve_error_text(t)
}

impl GenError {
    /// Renders the error for display.
    pub fn message(&self) -> (r: String)
        ensures
            r@ == gen_error_text(self.column@, self.type_text@),
    {
        let mut s = "failed to generate the `".to_owned();
        s.append(self.column.as_str());
        s.append("` field: ");
        let inner = ResolveError { type_text: self.type_text.clone() };
        let tail = inner.message();
        s.append(tail.as_str());
        proof {
            assert(s@ =~= gen_error_text(self.column@, self.type_text@));
        }
        s
    }
}

/// Generates the fields of the columns `cs[from..]`, also reporting whether
/// any of them is borrowed.
fn generate_fields(cs: &Vec<Column>, from: usize, options: &Options) -> (r: Result<
    (String, bool),
    GenError,
>)
    requires
        from <= cs@.len(),
    ensures
        match r {
            Result::Ok(p) => fields_text(cs@.skip(from as int), *options) == Result::Ok::<
                Seq<char>,
                (Seq<char>, Seq<char>),
            >(p.0@) && p.1 == has_borrow(cs@.skip(from as int), *options),
            Result::Err(e) => fields_text(cs@.skip(from as int), *options) == Result::Err::<
                Seq<char>,
                (Seq<char>, Seq<char>),
            >((e.column@, e.type_text@)),
        },
    decreases cs@.len() - from,
{
    let ghost sub = cs@.skip(from as int);
    if from == cs.len() {
        return Result::Ok((String::new(), false));
    }
    proof {
        assert(sub[0] == cs@[from as int]);
        assert(sub.drop_first() =~= cs@.skip(from as int + 1));
    }
    let column = &cs[from];
    let head = match generate_field(column, options) {
        Result::Ok(t) => t,
        Result::Err(e) => {
            return Result::Err(
                GenError { column: column.name.clone(), type_text: e.type_text },
            );
        },
    };
    // The per-column borrow test reruns resolution; it cannot fail here,
    // since the field above resolved.
    let borrowed = match make_type(column, options) {
        Result::Ok(t) => crate::text::contains_exec(t.as_str(), "'a"),
        Result::Err(_) => false,
    };
    proof {
        reveal_strlit("'a");
        assert("'a"@ =~= seq!['\'', 'a']);
    }
    match generate_fields(cs, from + 1, options) {
        Result::Ok(p) => {
            let mut s = head;
            s.append(p.0.as_str());
            proof {
                assert(s@ =~= fields_text(sub, *options)->Ok_0);
            }
            Result::Ok((s, borrowed || p.1))
        },
        Result::Err(e) => Result::Err(e),
    }
}

/// The record declaration: its derive lines, the struct header carrying a
/// lifetime exactly when some field borrows, the fields in column order,
/// and the closing brace.
pub open spec fn row_text(t: Table, o: Options) -> Result<Seq<char>, (Seq<char>, Seq<char>)> {
    match fields_text(t.columns@, o) {
        Result::Err(p) => Result::Err(p),
        Result::Ok(body) => Result::Ok(
            "#[derive(Debug, clickhouse::Row)]\n"@ + (if o.serialize {
                "#[derive(serde::Serialize)]\n"@
            } else {
                Seq::<char>::empty()
            }) + (if o.deserialize {
                "#[derive(serde::Deserialize)]\n"@
            } else {
                Seq::<char>::empty()
            }) + (if has_borrow(t.columns@, o) {
                "pub struct Row<'a> {\n"@
            } else {
                "pub struct Row {\n"@
            }) + body + "}\n"@,
        ),
    }
}

/// Generates the record declaration for the table.
pub fn generate_row(table: &Table, options: &Options) -> (r: Result<String, GenError>)
    ensures
        match r {
            Result::Ok(s) => row_text(*table, *options) == Result::Ok::<
                Seq<char>,
                (Seq<char>, Seq<char>),
            >(s@),
            Result::Err(e) => row_text(*table, *options) == Result::Err::<
                Seq<char>,
                (Seq<char>, Seq<char>),
            >((e.column@, e.type_text@)),
        },
{
    proof {
        assert(table.columns@.skip(0) =~= table.columns@);
    }
    let (body, borrowed) = match generate_fields(&table.columns, 0, options) {
        Result::Ok(p) => p,
        Result::Err(e) => {
            return Result::Err(e);
        },
    };
    let mut s = "#[derive(Debug, clickhouse::Row)]\n".to_owned();
    if options.serialize {
        s.append("#[derive(serde::Serialize)]\n");
    }
    if options.deserialize {
        s.append("#[derive(serde::Deserialize)]\n");
    }
    if borrowed {
        s.append("pub struct Row<'a> {\n");
    } else {
        s.append("pub struct Row {\n");
    }
    s.append(body.as_str());
    s.append("}\n");
    proof {
        assert(s@ =~= row_text(*table, *options)->Ok_0);
    }
    Result::Ok(s)
}

/// The first enumeration nested in a type, found depth first through
/// arrays, tuples and nullables: whether it is the 16-bit kind, and its
/// variants. A column contributes at most this one enumeration, however
/// many its type nests.
pub open spec fn find_enum_spec(tv: TypeV) -> Option<(bool, Seq<(Seq<char>, i32)>)>
    decreases tv, 0int,
{
    match tv {
        TypeV::Enum8(vs) => Option::Some((false, vs)),
        TypeV::Enum16(vs) => Option::Some((true, vs)),
        TypeV::Array(inner) => find_enum_spec(*inner),
        TypeV::Tuple(ts) => find_enum_seq(ts),
        TypeV::Nullable(inner) => find_enum_spec(*inner),
        _ => Option::None,
    }
}

/// The first enumeration nested in any of the types, in element order.
pub open spec fn find_enum_seq(ts: Seq<TypeV>) -> Option<(bool, Seq<(Seq<char>, i32)>)>
    decreases ts, 1int,
{
    if ts.len() == 0 {
        Option::None
    } else {
        match find_enum_spec(ts[0]) {
            Option::Some(e) => Option::Some(e),
            Option::None => find_enum_seq(ts.drop_first()),
        }
    }
}

/// Finds the first enumeration nested in a column's type.
fn find_enum(t: &SqlType) -> (r: Option<(bool, Vec<(String, i32)>)>)
    ensures
        match r {
            Option::Some(p) => find_enum_spec(view_of(*t)) == Option::Some(
                (p.0, pairs_view(p.1@)),
            ),
            Option::None => find_enum_spec(view_of(*t)) is None,
        },
    decreases *t, 0int,
{
    match t {
        SqlType::Enum8(vs) => Option::Some((false, clone_variants(vs))),
        SqlType::Enum16(vs) => Option::Some((true, clone_variants(vs))),
        SqlType::Array(inner) => find_enum(inner),
        SqlType::Tuple(ts) => {
            proof {
                assert(ts@.skip(0) =~= ts@);
                lemma_seq_view_index(ts@);
            }
            find_enum_in_list(ts, 0)
        },
        SqlType::Nullable(inner) => find_enum(inner),
        _ => Option::None,
    }
}

/// Finds the first enumeration nested in any of the types `ts[from..]`.
fn find_enum_in_list(ts: &Vec<SqlType>, from: usize) -> (r: Option<(bool, Vec<(String, i32)>)>)
    requires
        from <= ts@.len(),
    ensures
        match r {
            Option::Some(p) => find_enum_seq(seq_view(ts@.skip(from as int))) == Option::Some(
                (p.0, pairs_view(p.1@)),
            ),
            Option::None => find_enum_seq(seq_view(ts@.skip(from as int))) is None,
        },
    decreases ts@, 1int, ts@.len() - from,
{
    let ghost sub = seq_view(ts@.skip(from as int));
    proof {
        lemma_seq_view_index(ts@.skip(from as int));
    }
    if from == ts.len() {
        return Option::None;
    }
    proof {
        assert(ts@.skip(from as int)[0] == ts@[from as int]);
        assert(sub[0] == view_of(ts@[from as int]));
    }
    match find_enum(&ts[from]) {
        Option::Some(p) => Option::Some(p),
        Option::None => {
            proof {
                assert(sub.drop_first() =~= seq_view(ts@.skip(from as int + 1))) by {
                    lemma_seq_view_index(ts@.skip(from as int + 1));
                    assert forall|i: int| 0 <= i < sub.drop_first().len() implies
                        sub.drop_first()[i] == seq_view(ts@.skip(from as int + 1))[i] by {
                        assert(ts@.skip(from as int)[i + 1] == ts@[from + 1 + i]);
                        assert(ts@.skip(from as int + 1)[i] == ts@[from + 1 + i]);
                    }
                };
            }
            find_enum_in_list(ts, from + 1)
        },
    }
}

/// The name an enumeration variant is emitted under: a fixed placeholder
/// for a blank label, otherwise the camel-cased label.
pub open spec fn ident_of(label: Seq<char>) -> Seq<char> {
    if is_blank(label) {
        "Empty"@
    } else {
        camel_of(label)
    }
}

/// Prepares a variant label for emission as an identifier.
pub fn prepare_name_ident(name: &str) -> (r: String)
    ensures
        r@ == ident_of(name@),
{
    if crate::text::is_blank_exec(name) {
        "Empty".to_owned()
    } else {
        to_camel_case(name)
    }
}

/// The text of one emitted enumeration variant.
pub open spec fn variant_line(p: (Seq<char>, i32)) -> Seq<char> {
    "    "@ + ident_of(p.0) + " = "@ + int_text(p.1 as int) + ",\n"@
}

/// The emitted variants, in source order.
pub open spec fn variant_lines(vs: Seq<(Seq<char>, i32)>) -> Seq<char>
    decreases vs.len(),
{
    if vs.len() == 0 {
        Seq::empty()
    } else {
        variant_line(vs[0]) + variant_lines(vs.drop_first())
    }
}

fn generate_variants(vs: &Vec<(String, i32)>, from: usize) -> (r: String)
    requires
        from <= vs@.len(),
    ensures
        r@ == variant_lines(pairs_view(vs@.skip(from as int))),
    decreases vs@.len() - from,
{
    let ghost sub = pairs_view(vs@.skip(from as int));
    if from == vs.len() {
        return String::new();
    }
    proof {
        assert(vs@.skip(from as int)[0] == vs@[from as int]);
        assert(sub[0] == (vs@[from as int].0@, vs@[from as int].1));
        assert(sub.drop_first() =~= pairs_view(vs@.skip(from as int + 1))) by {
            assert forall|i: int| 0 <= i < sub.drop_first().len() implies sub.drop_first()[i]
                == pairs_view(vs@.skip(from as int + 1))[i] by {
                assert(vs@.skip(from as int)[i + 1] == vs@[from + 1 + i]);
                assert(vs@.skip(from as int + 1)[i] == vs@[from + 1 + i]);
            }
        };
    }
    let p = &vs[from];
    let mut s = "    ".to_owned();
    let ident = prepare_name_ident(p.0.as_str());
    s.append(ident.as_str());
    s.append(" = ");
    let num = crate::text::i32_string(p.1);
    s.append(num.as_str());
    s.append(",\n");
    let rest = generate_variants(vs, from + 1);
    s.append(rest.as_str());
    proof {
        assert(s@ =~= variant_lines(sub));
    }
    s
}

/// The text of one emitted enumeration declaration.
pub open spec fn enum_decl_text(name: Seq<char>, is_extended: bool, vs: Seq<(Seq<char>, i32)>, o: Options) -> Seq<
    char,
> {
    "#[derive(Debug)]\n"@ + (if o.serialize {
        "#[derive(serde_repr::Serialize_repr)]\n"@
    } else {
        Seq::<char>::empty()
    }) + (if o.deserialize {
        "#[derive(serde_repr::Deserialize_repr)]\n"@
    } else {
        Seq::<char>::empty()
    }) + (if is_extended {
        "#[repr(i16)]\n"@
    } else {
        "#[repr(i8)]\n"@
    }) + "pub enum "@ + name + " {\n"@ + variant_lines(vs) + "}\n"@
}

/// Generates one enumeration declaration under the given (already
/// camel-cased) name.
pub fn generate_enum(
    name: &str,
    is_extended: bool,
    variants: &Vec<(String, i32)>,
    options: &Options,
) -> (r: String)
    ensures
        r@ == enum_decl_text(name@, is_extended, pairs_view(variants@), *options),
{
    let mut s = "#[derive(Debug)]\n".to_owned();
    if options.serialize {
        s.append("#[derive(serde_repr::Serialize_repr)]\n");
    }
    if options.deserialize {
        s.append("#[derive(serde_repr::Deserialize_repr)]\n");
    }
    if is_extended {
        s.append("#[repr(i16)]\n");
    } else {
        s.append("#[repr(i8)]\n");
    }
    s.append("pub enum ");
    s.append(name);
    s.append(" {\n");
    proof {
        assert(variants@.skip(0) =~= variants@);
    }
    let body = generate_variants(variants, 0);
    s.append(body.as_str());
    s.append("}\n");
    proof {
        assert(s@ =~= enum_decl_text(name@, is_extended, pairs_view(variants@), *options));
    }
    s
}

/// The enumeration declarations a column contributes: one for the first
/// enumeration nested in its type, named by the camel-cased column name,
/// followed by a blank line; nothing when its type nests none.
pub open spec fn col_enum_text(c: Column, o: Options) -> Seq<char> {
    match find_enum_spec(view_of(c.type_)) {
        Option::Some(p) => enum_decl_text(camel_of(c.name@), p.0, p.1, o) + seq!['\n'],
        Option::None => Seq::empty(),
    }
}

/// The enumeration declarations of all columns, in column order.
pub open spec fn enums_text(cs: Seq<Column>, o: Options) -> Seq<char>
    decreases cs.len(),
{
    if cs.len() == 0 {
        Seq::empty()
    } else {
        col_enum_text(cs[0], o) + enums_text(cs.drop_first(), o)
    }
}

fn generate_enums_from(cs: &Vec<Column>, from: usize, options: &Options) -> (r: String)
    requires
        from <= cs@.len(),
    ensures
        r@ == enums_text(cs@.skip(from as int), *options),
    decreases cs@.len() - from,
{
    let ghost sub = cs@.skip(from as int);
    if from == cs.len() {
        return String::new();
    }
    proof {
        assert(sub[0] == cs@[from as int]);
        assert(sub.drop_first() =~= cs@.skip(from as int + 1));
    }
    let column = &cs[from];
    let mut s = match find_enum(&column.type_) {
        Option::Some(p) => {
            let name = to_camel_case(column.name.as_str());
            let mut t = generate_enum(name.as_str(), p.0, &p.1, options);
            t.append("\n");
            proof {
                reveal_strlit("\n");
                assert("\n"@ =~= seq!['\n']);
                assert(t@ =~= col_enum_text(cs@[from as int], *options));
            }
            t
        },
        Option::None => String::new(),
    };
    let rest = generate_enums_from(cs, from + 1, options);
    s.append(rest.as_str());
    proof {
        assert(s@ =~= enums_text(sub, *options));
    }
    s
}

/// Generates the enumeration declarations of the table's columns.
pub fn generate_enums(table: &Table, options: &Options) -> (r: String)
    ensures
        r@ == enums_text(table.columns@, *options),
{
    proof {
        assert(table.columns@.skip(0) =~= table.columns@);
    }
    generate_enums_from(&table.columns, 0, options)
}

/// The header block: fixed marker lines, then the configuration the run
/// was driven by, rendered in its canonical order and indented as a block
/// comment.
pub open spec fn prelude_text(o: Options) -> Seq<char> {
    "// GENERATED CODE (ch2rs v0.1.0)\n"@ + "#![cfg_attr(rustfmt, rustfmt::skip)]\n"@
        + "#![allow(warnings)]\n"@ + "#![allow(clippy::all)]\n"@
        + "\n// Generated with the following options:\n"@ + "/*\n"@ + replace_nl(format_text(o))
        + "\n*/\n"@
}

/// Generates the header block.
pub fn generate_prelude(options: &Options) -> (r: String)
    ensures
        r@ == prelude_text(*options),
{
    let mut s = "// GENERATED CODE (ch2rs v0.1.0)\n".to_owned();
    s.append("#![cfg_attr(rustfmt, rustfmt::skip)]\n");
    s.append("#![allow(warnings)]\n");
    s.append("#![allow(clippy::all)]\n");
    s.append("\n// Generated with the following options:\n");
    s.append("/*\n");
    let formatted = options.format();
    let indented = crate::text::replace_nl_exec(formatted.as_str());
    s.append(indented.as_str());
    s.append("\n*/\n");
    proof {
        assert(s@ =~= prelude_text(*options));
    }
    s
}

/// The whole generated text: the header, the record declaration, and the
/// enumeration declarations, with surrounding whitespace trimmed; or the
/// first column that failed to resolve, named with its unresolved type.
pub open spec fn generate_text(t: Table, o: Options) -> Result<Seq<char>, (Seq<char>, Seq<char>)> {
    match row_text(t, o) {
        Result::Err(p) => Result::Err(p),
        Result::Ok(row) => Result::Ok(
            trim_ws(prelude_text(o) + seq!['\n'] + row + seq!['\n'] + enums_text(t.columns@, o)),
        ),
    }
}

/// Generates the declaration text for the table under the configuration:
/// the header block, one record declaration with a field per column, and
/// one enumeration declaration per column that nests one. Succeeds exactly
/// when every column resolves to an output type.
pub fn generate(table: &Table, options: &Options) -> (r: Result<String, GenError>)
    ensures
        match r {
            Result::Ok(s) => generate_text(*table, *options) == Result::Ok::<
                Seq<char>,
                (Seq<char>, Seq<char>),
            >(s@),
            Result::Err(e) => generate_text(*table, *options) == Result::Err::<
                Seq<char>,
                (Seq<char>, Seq<char>),
            >((e.column@, e.type_text@)),
        },
{
    let mut code = generate_prelude(options);
    code.append("\n");
    let row = match generate_row(table, options) {
        Result::Ok(s) => s,
        Result::Err(e) => {
            return Result::Err(e);
        },
    };
    code.append(row.as_str());
    code.append("\n");
    let enums = generate_enums(table, options);
    code.append(enums.as_str());
    proof {
        reveal_strlit("\n");
        assert("\n"@ =~= seq!['\n']);
        assert(code@ =~= prelude_text(*options) + seq!['\n'] + row_text(*table, *options)->Ok_0
            + seq!['\n'] + enums_text(table.columns@, *options));
    }
    Result::Ok(crate::text::trim_ws_exec(code.as_str()))
}

/// With no overrides configured, every zero-argument type with a built-in
/// default resolves to exactly that default, whatever the column is named.
pub proof fn lemma_builtin_defaults(name: Seq<char>, o: Options)
    requires
        o.overrides@.len() == 0,
        o.types@.len() == 0,
    ensures
        resolve_spec(name, TypeV::UInt8, o) == Result::Ok::<Seq<char>, Seq<char>>("u8"@),
        resolve_spec(name, TypeV::UInt16, o) == Result::Ok::<Seq<char>, Seq<char>>("u16"@),
        resolve_spec(name, TypeV::UInt32, o) == Result::Ok::<Seq<char>, Seq<char>>("u32"@),
        resolve_spec(name, TypeV::UInt64, o) == Result::Ok::<Seq<char>, Seq<char>>("u64"@),
        resolve_spec(name, TypeV::UInt128, o) == Result::Ok::<Seq<char>, Seq<char>>("u128"@),
        resolve_spec(name, TypeV::Int8, o) == Result::Ok::<Seq<char>, Seq<char>>("i8"@),
        resolve_spec(name, TypeV::Int16, o) == Result::Ok::<Seq<char>, Seq<char>>("i16"@),
        resolve_spec(name, TypeV::Int32, o) == Result::Ok::<Seq<char>, Seq<char>>("i32"@),
        resolve_spec(name, TypeV::Int64, o) == Result::Ok::<Seq<char>, Seq<char>>("i64"@),
        resolve_spec(name, TypeV::Int128, o) == Result::Ok::<Seq<char>, Seq<char>>("i128"@),
        resolve_spec(name, TypeV::Bool, o) == Result::Ok::<Seq<char>, Seq<char>>("bool"@),
        resolve_spec(name, TypeV::Float32, o) == Result::Ok::<Seq<char>, Seq<char>>("f32"@),
        resolve_spec(name, TypeV::Float64, o) == Result::Ok::<Seq<char>, Seq<char>>("f64"@),
        resolve_spec(name, TypeV::UUID, o) == Result::Ok::<Seq<char>, Seq<char>>(
            "::uuid::Uuid"@,
        ),
        resolve_spec(name, TypeV::String, o) == Result::Ok::<Seq<char>, Seq<char>>(
            if o.owned {
                "String"@
            } else {
                "&'a str"@
            },
        ),
{
}

/// A column-name override decides the column's type by itself: whatever the
/// column's type is, and whatever type-signature overrides are configured,
/// resolution returns the column-name mapping.
pub proof fn lemma_column_override_wins(name: Seq<char>, tv: TypeV, o: Options, s: Seq<char>)
    requires
        col_override(o.overrides@, name) == Option::Some(s),
    ensures
        resolve_spec(name, tv, o) == Result::Ok::<Seq<char>, Seq<char>>(s),
{
}

/// When no column-name override applies, the first matching type-signature
/// override decides, taking precedence over any built-in default.
pub proof fn lemma_type_override_applies(name: Seq<char>, tv: TypeV, o: Options, s: Seq<char>)
    requires
        col_override(o.overrides@, name) is None,
        type_override(o.types@, tv) == Option::Some(s),
    ensures
        resolve_spec(name, tv, o) == Result::Ok::<Seq<char>, Seq<char>>(s),
{
}

/// A configured type-signature override for a type is always found: the
/// lookup returns some mapping for it (the first one configured).
pub proof fn lemma_type_override_found(ts: Seq<Type>, tv: TypeV, i: int)
    requires
        0 <= i < ts.len(),
        view_of(ts[i].sql) == tv,
    ensures
        type_override(ts, tv) is Some,
    decreases i,
{
    if i > 0 && view_of(ts[0].sql) != tv {
        lemma_type_override_found(ts.drop_first(), tv, i - 1);
    }
}

/// A map resolves exactly as the array of its key/value pairs does, under
/// the same column name and configuration — unless a type-signature
/// override is configured for the map form itself, which applies only to
/// the map.
pub proof fn lemma_map_tuple_array_equivalence(name: Seq<char>, k: TypeV, v: TypeV, o: Options)
    requires
        type_override(o.types@, TypeV::Dict(Box::new(k), Box::new(v))) is None,
    ensures
        resolve_spec(name, TypeV::Dict(Box::new(k), Box::new(v)), o) == resolve_spec(
            name,
            TypeV::Array(Box::new(TypeV::Tuple(seq![k, v]))),
            o,
        ),
{
}

/// A match of the borrow marker cannot start with a character the text
/// does not hold.
proof fn lemma_no_quote_no_marker(s: Seq<char>)
    requires
        forall|i: int| 0 <= i < s.len() ==> s[i] != '\'',
    ensures
        !contains_seq(s, seq!['\'', 'a']),
{
    crate::text::lemma_find_at_first(s, seq!['\'', 'a'], 0);
    let r = crate::text::find_at(s, seq!['\'', 'a'], 0);
    if r >= 0 {
        assert(s.subrange(r, r + 2) == seq!['\'', 'a']);
        assert(s[r] == s.subrange(r, r + 2)[0]);
    }
}

/// The marker stands in the text wherever a match of it stands.
proof fn lemma_marker_at(s: Seq<char>, j: int)
    requires
        0 <= j,
        j + 2 <= s.len(),
        s[j] == '\'',
        s[j + 1] == 'a',
    ensures
        contains_seq(s, seq!['\'', 'a']),
{
    assert(s.subrange(j, j + 2) =~= seq!['\'', 'a']);
    assert(crate::text::matches_at(s, seq!['\'', 'a'], j));
    crate::text::lemma_find_at_first(s, seq!['\'', 'a'], 0);
    if crate::text::find_at(s, seq!['\'', 'a'], 0) == -1 {
        assert(!crate::text::matches_at(s, seq!['\'', 'a'], j));
    }
}

/// The fixed-width integer shapes.
pub open spec fn is_integer_type(tv: TypeV) -> bool {
    ||| tv == TypeV::UInt8
    ||| tv == TypeV::UInt16
    ||| tv == TypeV::UInt32
    ||| tv == TypeV::UInt64
    ||| tv == TypeV::UInt128
    ||| tv == TypeV::Int8
    ||| tv == TypeV::Int16
    ||| tv == TypeV::Int32
    ||| tv == TypeV::Int64
    ||| tv == TypeV::Int128
}

/// A table of only fixed-width integer columns, with no overrides
/// configured, emits a plain record: every column resolves, and no field
/// carries the borrow marker, so the record takes no lifetime parameter.
pub proof fn lemma_plain_record(t: Table, o: Options)
    requires
        o.overrides@.len() == 0,
        o.types@.len() == 0,
        forall|i: int|
            0 <= i < t.columns@.len() ==> is_integer_type(
                view_of(#[trigger] t.columns@[i].type_),
            ),
    ensures
        !has_borrow(t.columns@, o),
        row_text(t, o) is Ok,
{
    lemma_plain_record_from(t.columns@, o);
}

proof fn lemma_plain_record_from(cs: Seq<Column>, o: Options)
    requires
        o.overrides@.len() == 0,
        o.types@.len() == 0,
        forall|i: int|
            0 <= i < cs.len() ==> is_integer_type(view_of(#[trigger] cs[i].type_)),
    ensures
        !has_borrow(cs, o),
        fields_text(cs, o) is Ok,
    decreases cs.len(),
{
    if cs.len() > 0 {
        let tv = view_of(cs[0].type_);
        lemma_builtin_defaults(cs[0].name@, o);
        let resolved = resolve_spec(cs[0].name@, tv, o)->Ok_0;
        assert(!field_borrowed(cs[0], o)) by {
            reveal_strlit("u8");
            reveal_strlit("u16");
            reveal_strlit("u32");
            reveal_strlit("u64");
            reveal_strlit("u128");
            reveal_strlit("i8");
            reveal_strlit("i16");
            reveal_strlit("i32");
            reveal_strlit("i64");
            reveal_strlit("i128");
            lemma_no_quote_no_marker(resolved);
        }
        lemma_plain_record_from(cs.drop_first(), o);
    }
}

/// A column of plain string type, resolved with the owned flag off and no
/// override applying, makes the record borrowed: its field carries the
/// borrow marker, so the record takes the lifetime parameter.
pub proof fn lemma_borrowed_record(t: Table, o: Options, i: int)
    requires
        0 <= i < t.columns@.len(),
        view_of(t.columns@[i].type_) == TypeV::String,
        !o.owned,
        find_override_spec(t.columns@[i].name@, TypeV::String, o) is None,
    ensures
        has_borrow(t.columns@, o),
{
    let c = t.columns@[i];
    assert(field_borrowed(c, o)) by {
        assert(resolve_spec(c.name@, TypeV::String, o) == Result::Ok::<Seq<char>, Seq<char>>(
            "&'a str"@,
        ));
        reveal_strlit("&'a str");
        lemma_marker_at("&'a str"@, 1);
    }
    lemma_has_borrow_at(t.columns@, o, i);
}

proof fn lemma_has_borrow_at(cs: Seq<Column>, o: Options, i: int)
    requires
        0 <= i < cs.len(),
        field_borrowed(cs[i], o),
    ensures
        has_borrow(cs, o),
    decreases i,
{
    if i > 0 {
        lemma_has_borrow_at(cs.drop_first(), o, i - 1);
    }
}

} // verus!
