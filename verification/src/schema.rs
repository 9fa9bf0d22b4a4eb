//! The recursive model of a column's storage type, and the columns and tables
//! built from it.

use crate::text::{args_sep, i32_string, int_text, nat_text, u32_string};
use vstd::prelude::*;
use vstd::string::StringExecFns;

verus! {

/// A column type as the server describes it: scalars, parameterized leaves,
/// and composites that nest other types.
#[derive(Debug, PartialEq, Eq)]
pub enum SqlType {
    UInt8,
    UInt16,
    UInt32,
    UInt64,
    UInt128,
    Int8,
    Int16,
    Int32,
    Int64,
    Int128,
    Bool,
    String,
    FixedString(u32),
    Float32,
    Float64,
    Date,
    DateTime(Option<String>),
    DateTime64(u32, Option<String>),
    IPv4,
    IPv6,
    UUID,
    Decimal(u32, u32),
    Enum8(Vec<(String, i32)>),
    Enum16(Vec<(String, i32)>),
    Array(Box<SqlType>),
    Tuple(Vec<SqlType>),
    Dict(Box<SqlType>, Box<SqlType>),
    Nullable(Box<SqlType>),
}

/// The mathematical shape of a `SqlType`: the same tree with every string
/// replaced by its character sequence. Contracts speak of this shape.
pub enum TypeV {
    UInt8,
    UInt16,
    UInt32,
    UInt64,
    UInt128,
    Int8,
    Int16,
    Int32,
    Int64,
    Int128,
    Bool,
    String,
    FixedString(u32),
    Float32,
    Float64,
    Date,
    DateTime(Option<Seq<char>>),
    DateTime64(u32, Option<Seq<char>>),
    IPv4,
    IPv6,
    UUID,
    Decimal(u32, u32),
    Enum8(Seq<(Seq<char>, i32)>),
    Enum16(Seq<(Seq<char>, i32)>),
    Array(Box<TypeV>),
    Tuple(Seq<TypeV>),
    Dict(Box<TypeV>, Box<TypeV>),
    Nullable(Box<TypeV>),
}

/// One column of a table: its name, its parsed type, and a free-text comment.
#[derive(Debug)]
pub struct Column {
    pub name: String,
    pub type_: SqlType,
    pub comment: String,
}

/// A table: where it lives and its columns, in declaration order.
#[derive(Debug)]
pub struct Table {
    pub database: String,
    pub name: String,
    pub columns: Vec<Column>,
}

/// The view of an optional string.
pub open spec fn opt_view(o: Option<String>) -> Option<Seq<char>> {
    match o {
        Option::None => Option::None,
        Option::Some(s) => Option::Some(s@),
    }
}

/// The views of a list of enumeration variants.
pub open spec fn pairs_view(vs: Seq<(String, i32)>) -> Seq<(Seq<char>, i32)> {
    vs.map_values(|p: (String, i32)| (p.0@, p.1))
}

/// The shape of a type: the same tree over character sequences.
pub open spec fn view_of(t: SqlType) -> TypeV
    decreases t,
{
    match t {
        SqlType::UInt8 => TypeV::UInt8,
        SqlType::UInt16 => TypeV::UInt16,
        SqlType::UInt32 => TypeV::UInt32,
        SqlType::UInt64 => TypeV::UInt64,
        SqlType::UInt128 => TypeV::UInt128,
        SqlType::Int8 => TypeV::Int8,
        SqlType::Int16 => TypeV::Int16,
        SqlType::Int32 => TypeV::Int32,
        SqlType::Int64 => TypeV::Int64,
        SqlType::Int128 => TypeV::Int128,
        SqlType::Bool => TypeV::Bool,
        SqlType::String => TypeV::String,
        SqlType::FixedString(n) => TypeV::FixedString(n),
        SqlType::Float32 => TypeV::Float32,
        SqlType::Float64 => TypeV::Float64,
        SqlType::Date => TypeV::Date,
        SqlType::DateTime(tz) => TypeV::DateTime(opt_view(tz)),
        SqlType::DateTime64(p, tz) => TypeV::DateTime64(p, opt_view(tz)),
        SqlType::IPv4 => TypeV::IPv4,
        SqlType::IPv6 => TypeV::IPv6,
        SqlType::UUID => TypeV::UUID,
        SqlType::Decimal(p, s) => TypeV::Decimal(p, s),
        SqlType::Enum8(v) => TypeV::Enum8(pairs_view(v@)),
        SqlType::Enum16(v) => TypeV::Enum16(pairs_view(v@)),
        SqlType::Array(inner) => TypeV::Array(Box::new(view_of(*inner))),
        SqlType::Tuple(v) => TypeV::Tuple(seq_view(v@)),
        SqlType::Dict(k, v) => TypeV::Dict(Box::new(view_of(*k)), Box::new(view_of(*v))),
        SqlType::Nullable(inner) => TypeV::Nullable(Box::new(view_of(*inner))),
    }
}

/// The shapes of a list of types.
pub open spec fn seq_view(ts: Seq<SqlType>) -> Seq<TypeV>
    decreases ts,
{
    if ts.len() == 0 {
        Seq::empty()
    } else {
        seq![view_of(ts[0])] + seq_view(ts.drop_first())
    }
}

/// `seq_view` maps the sequence elementwise.
pub proof fn lemma_seq_view_index(ts: Seq<SqlType>)
    ensures
        seq_view(ts).len() == ts.len(),
        forall|i: int| 0 <= i < ts.len() ==> seq_view(ts)[i] == view_of(#[trigger] ts[i]),
    decreases ts.len(),
{
    if ts.len() > 0 {
        lemma_seq_view_index(ts.drop_first());
        assert forall|i: int| 0 <= i < ts.len() implies seq_view(ts)[i] == view_of(
            #[trigger] ts[i],
        ) by {
            if i > 0 {
                assert(ts.drop_first()[i - 1] == ts[i]);
                assert(seq_view(ts)[i] == seq_view(ts.drop_first())[i - 1]);
            }
        }
    }
}

/// Structural equality of two types, comparing every embedded string by its
/// contents. This is the equality that override lookup goes by.
pub open spec fn teq(a: SqlType, b: SqlType) -> bool {
    view_of(a) == view_of(b)
}

/// Equivalence of enumeration variant lists: same length, and pairwise the
/// same label text and the same backing value.
pub open spec fn variants_eqv(a: Seq<(String, i32)>, b: Seq<(String, i32)>) -> bool {
    a.len() == b.len() && forall|i: int|
        0 <= i < a.len() ==> (#[trigger] a[i]).0@ == b[i].0@ && a[i].1 == b[i].1
}

impl SqlType {
    /// Decides structural equality, string contents included.
    pub fn same_as(&self, other: &SqlType) -> (r: bool)
        ensures
            r == teq(*self, *other),
        decreases self,
    {
        match (self, other) {
            (SqlType::UInt8, SqlType::UInt8) => true,
            (SqlType::UInt16, SqlType::UInt16) => true,
            (SqlType::UInt32, SqlType::UInt32) => true,
            (SqlType::UInt64, SqlType::UInt64) => true,
            (SqlType::UInt128, SqlType::UInt128) => true,
            (SqlType::Int8, SqlType::Int8) => true,
            (SqlType::Int16, SqlType::Int16) => true,
            (SqlType::Int32, SqlType::Int32) => true,
            (SqlType::Int64, SqlType::Int64) => true,
            (SqlType::Int128, SqlType::Int128) => true,
            (SqlType::Bool, SqlType::Bool) => true,
            (SqlType::String, SqlType::String) => true,
            (SqlType::FixedString(x), SqlType::FixedString(y)) => x == y,
            (SqlType::Float32, SqlType::Float32) => true,
            (SqlType::Float64, SqlType::Float64) => true,
            (SqlType::Date, SqlType::Date) => true,
            (SqlType::DateTime(x), SqlType::DateTime(y)) => opt_string_eq(x, y),
            (SqlType::DateTime64(p, x), SqlType::DateTime64(q, y)) => {
                p == q && opt_string_eq(x, y)
            },
            (SqlType::IPv4, SqlType::IPv4) => true,
            (SqlType::IPv6, SqlType::IPv6) => true,
            (SqlType::UUID, SqlType::UUID) => true,
            (SqlType::Decimal(p, s), SqlType::Decimal(q, t)) => p == q && s == t,
            (SqlType::Enum8(x), SqlType::Enum8(y)) => {
                let r = variants_eq(x, y);
                proof {
                    lemma_variants_eqv_is_view_eq(x@, y@);
                }
                r
            },
            (SqlType::Enum16(x), SqlType::Enum16(y)) => {
                let r = variants_eq(x, y);
                proof {
                    lemma_variants_eqv_is_view_eq(x@, y@);
                }
                r
            },
            (SqlType::Array(x), SqlType::Array(y)) => x.same_as(y),
            (SqlType::Tuple(x), SqlType::Tuple(y)) => {
                let r = types_eq(x, y);
                proof {
                    lemma_elementwise_view_eq(x@, y@);
                }
                r
            },
            (SqlType::Dict(k1, v1), SqlType::Dict(k2, v2)) => {
                k1.same_as(k2) && v1.same_as(v2)
            },
            (SqlType::Nullable(x), SqlType::Nullable(y)) => x.same_as(y),
            _ => false,
        }
    }

    /// Builds an identically shaped copy of the type.
    pub fn duplicate(&self) -> (r: SqlType)
        ensures
            view_of(r) == view_of(*self),
        decreases *self, 0int,
    {
        match self {
            SqlType::UInt8 => SqlType::UInt8,
            SqlType::UInt16 => SqlType::UInt16,
            SqlType::UInt32 => SqlType::UInt32,
            SqlType::UInt64 => SqlType::UInt64,
            SqlType::UInt128 => SqlType::UInt128,
            SqlType::Int8 => SqlType::Int8,
            SqlType::Int16 => SqlType::Int16,
            SqlType::Int32 => SqlType::Int32,
            SqlType::Int64 => SqlType::Int64,
            SqlType::Int128 => SqlType::Int128,
            SqlType::Bool => SqlType::Bool,
            SqlType::String => SqlType::String,
            SqlType::FixedString(n) => SqlType::FixedString(*n),
            SqlType::Float32 => SqlType::Float32,
            SqlType::Float64 => SqlType::Float64,
            SqlType::Date => SqlType::Date,
            SqlType::DateTime(tz) => SqlType::DateTime(clone_opt(tz)),
            SqlType::DateTime64(p, tz) => SqlType::DateTime64(*p, clone_opt(tz)),
            SqlType::IPv4 => SqlType::IPv4,
            SqlType::IPv6 => SqlType::IPv6,
            SqlType::UUID => SqlType::UUID,
            SqlType::Decimal(p, s) => SqlType::Decimal(*p, *s),
            SqlType::Enum8(v) => SqlType::Enum8(clone_variants(v)),
            SqlType::Enum16(v) => SqlType::Enum16(clone_variants(v)),
            SqlType::Array(inner) => SqlType::Array(Box::new(inner.duplicate())),
            SqlType::Tuple(v) => {
                let out = duplicate_list(v, 0);
                proof {
                    assert(v@.subrange(0, v@.len() as int) =~= v@);
                    lemma_elementwise_view_eq(out@, v@);
                }
                SqlType::Tuple(out)
            },
            SqlType::Dict(k, v) => {
                SqlType::Dict(Box::new(k.duplicate()), Box::new(v.duplicate()))
            },
            SqlType::Nullable(inner) => SqlType::Nullable(Box::new(inner.duplicate())),
        }
    }
}

/// Builds identically shaped copies of the types `v[from..]`.
fn duplicate_list(v: &Vec<SqlType>, from: usize) -> (r: Vec<SqlType>)
    requires
        from <= v@.len(),
    ensures
        r@.len() == v@.len() - from,
        forall|j: int| 0 <= j < r@.len() ==> view_of(#[trigger] r@[j]) == view_of(v@[from + j]),
    decreases v@, v@.len() - from,
{
    if from == v.len() {
        Vec::new()
    } else {
        let d = v[from].duplicate();
        let mut rest = duplicate_list(v, from + 1);
        let mut out: Vec<SqlType> = Vec::new();
        out.push(d);
        out.append(&mut rest);
        out
    }
}

/// Elementwise equal shapes make equal shape sequences, and conversely.
proof fn lemma_elementwise_view_eq(a: Seq<SqlType>, b: Seq<SqlType>)
    ensures
        (a.len() == b.len() && forall|i: int|
            0 <= i < a.len() ==> view_of(#[trigger] a[i]) == view_of(b[i])) <==> seq_view(a)
            == seq_view(b),
{
    lemma_seq_view_index(a);
    lemma_seq_view_index(b);
    if a.len() == b.len() && forall|i: int|
        0 <= i < a.len() ==> view_of(#[trigger] a[i]) == view_of(b[i]) {
        assert forall|i: int| 0 <= i < seq_view(a).len() implies seq_view(a)[i] == seq_view(
            b,
        )[i] by {
            assert(view_of(a[i]) == view_of(b[i]));
        }
        assert(seq_view(a) =~= seq_view(b));
    }
    if seq_view(a) == seq_view(b) {
        assert(a.len() == b.len());
        assert forall|i: int| 0 <= i < a.len() implies view_of(#[trigger] a[i]) == view_of(
            b[i],
        ) by {
            assert(seq_view(a)[i] == seq_view(b)[i]);
        }
    }
}

/// Equivalent variant lists have equal views, and conversely.
proof fn lemma_variants_eqv_is_view_eq(a: Seq<(String, i32)>, b: Seq<(String, i32)>)
    ensures
        variants_eqv(a, b) <==> pairs_view(a) == pairs_view(b),
{
    if variants_eqv(a, b) {
        assert(pairs_view(a) =~= pairs_view(b));
    }
    if pairs_view(a) == pairs_view(b) {
        assert(pairs_view(a).len() == a.len());
        assert(pairs_view(b).len() == b.len());
        assert(a.len() == b.len());
        assert forall|i: int|
            0 <= i < a.len() implies (#[trigger] a[i]).0@ == b[i].0@ && a[i].1 == b[i].1 by {
            assert(pairs_view(a)[i] == pairs_view(b)[i]);
        }
    }
}

fn opt_string_eq(a: &Option<String>, b: &Option<String>) -> (r: bool)
    ensures
        r == (opt_view(*a) == opt_view(*b)),
{
    match (a, b) {
        (Option::None, Option::None) => true,
        (Option::Some(x), Option::Some(y)) => x.eq(y),
        _ => false,
    }
}

fn clone_opt(a: &Option<String>) -> (r: Option<String>)
    ensures
        opt_view(r) == opt_view(*a),
{
    match a {
        Option::None => Option::None,
        Option::Some(x) => Option::Some(x.clone()),
    }
}

pub(crate) fn clone_variants(a: &Vec<(String, i32)>) -> (r: Vec<(String, i32)>)
    ensures
        pairs_view(r@) == pairs_view(a@),
{
    let mut out: Vec<(String, i32)> = Vec::new();
    let n = a.len();
    let mut i: usize = 0;
    while i < n
        invariant
            n == a@.len(),
            0 <= i <= n,
            out@.len() == i,
            forall|j: int| 0 <= j < i ==> (#[trigger] out@[j]).0@ == a@[j].0@ && out@[j].1
                == a@[j].1,
        decreases n - i,
    {
        let p = &a[i];
        out.push((p.0.clone(), p.1));
        i = i + 1;
    }
    proof {
        assert(pairs_view(out@) =~= pairs_view(a@));
    }
    out
}

fn variants_eq(a: &Vec<(String, i32)>, b: &Vec<(String, i32)>) -> (r: bool)
    ensures
        r == variants_eqv(a@, b@),
{
    if a.len() != b.len() {
        return false;
    }
    let n = a.len();
    let mut i: usize = 0;
    while i < n
        invariant
            n == a@.len() == b@.len(),
            0 <= i <= n,
            forall|j: int| 0 <= j < i ==> (#[trigger] a@[j]).0@ == b@[j].0@ && a@[j].1 == b@[j].1,
        decreases n - i,
    {
        let la = &a[i];
        let lb = &b[i];
        if !(la.0 == lb.0 && la.1 == lb.1) {
            return false;
        }
        i = i + 1;
    }
    true
}

fn types_eq(a: &Vec<SqlType>, b: &Vec<SqlType>) -> (r: bool)
    ensures
        r == (a@.len() == b@.len() && forall|i: int|
            0 <= i < a@.len() ==> view_of(#[trigger] a@[i]) == view_of(b@[i])),
    decreases a,
{
    if a.len() != b.len() {
        return false;
    }
    let n = a.len();
    let mut i: usize = 0;
    while i < n
        invariant
            n == a@.len() == b@.len(),
            0 <= i <= n,
            forall|j: int| 0 <= j < i ==> view_of(#[trigger] a@[j]) == view_of(b@[j]),
        decreases n - i,
    {
        if !a[i].same_as(&b[i]) {
            return false;
        }
        i = i + 1;
    }
    true
}

/// The canonical text of a type shape, in the same grammar the parser reads.
pub open spec fn text_of(t: TypeV) -> Seq<char>
    decreases t,
{
    match t {
        TypeV::UInt8 => "UInt8"@,
        TypeV::UInt16 => "UInt16"@,
        TypeV::UInt32 => "UInt32"@,
        TypeV::UInt64 => "UInt64"@,
        TypeV::UInt128 => "UInt128"@,
        TypeV::Int8 => "Int8"@,
        TypeV::Int16 => "Int16"@,
        TypeV::Int32 => "Int32"@,
        TypeV::Int64 => "Int64"@,
        TypeV::Int128 => "Int128"@,
        TypeV::Bool => "Bool"@,
        TypeV::String => "String"@,
        TypeV::FixedString(n) => "FixedString("@ + nat_text(n as int) + ")"@,
        TypeV::Float32 => "Float32"@,
        TypeV::Float64 => "Float64"@,
        TypeV::Date => "Date"@,
        TypeV::DateTime(Option::None) => "DateTime"@,
        TypeV::DateTime(Option::Some(tz)) => "DateTime("@ + tz + ")"@,
        TypeV::DateTime64(p, Option::None) => "DateTime64("@ + nat_text(p as int) + ")"@,
        TypeV::DateTime64(p, Option::Some(tz)) => "DateTime64("@ + nat_text(p as int) + args_sep()
            + tz + ")"@,
        TypeV::IPv4 => "IPv4"@,
        TypeV::IPv6 => "IPv6"@,
        TypeV::UUID => "UUID"@,
        TypeV::Decimal(p, s) => "Decimal("@ + nat_text(p as int) + args_sep() + nat_text(s as int)
            + ")"@,
        TypeV::Enum8(vs) => "Enum8("@ + kvs_text(vs) + ")"@,
        TypeV::Enum16(vs) => "Enum16("@ + kvs_text(vs) + ")"@,
        TypeV::Array(inner) => "Array("@ + text_of(*inner) + ")"@,
        TypeV::Tuple(ts) => "Tuple("@ + args_text(ts) + ")"@,
        TypeV::Dict(k, v) => "Map("@ + text_of(*k) + args_sep() + text_of(*v) + ")"@,
        TypeV::Nullable(inner) => "Nullable("@ + text_of(*inner) + ")"@,
    }
}

/// The text of an argument list, the arguments separated by `", "`.
pub open spec fn args_text(ts: Seq<TypeV>) -> Seq<char>
    decreases ts,
{
    if ts.len() == 0 {
        Seq::empty()
    } else if ts.len() == 1 {
        text_of(ts[0])
    } else {
        text_of(ts[0]) + args_sep() + args_text(ts.drop_first())
    }
}

/// The text of one enumeration variant: `'label' = value`.
pub open spec fn kv_text(p: (Seq<char>, i32)) -> Seq<char> {
    seq!['\''] + p.0 + "' = "@ + int_text(p.1 as int)
}

/// The text of a variant list, the variants separated by `", "`.
pub open spec fn kvs_text(vs: Seq<(Seq<char>, i32)>) -> Seq<char>
    decreases vs.len(),
{
    if vs.len() == 0 {
        Seq::empty()
    } else if vs.len() == 1 {
        kv_text(vs[0])
    } else {
        kv_text(vs[0]) + args_sep() + kvs_text(vs.drop_first())
    }
}

impl SqlType {
    /// Renders the type in its canonical grammar text.
    pub fn text(&self) -> (r: String)
        ensures
            r@ == text_of(view_of(*self)),
        decreases *self, 0int,
    {
        match self {
            SqlType::UInt8 => "UInt8".to_owned(),
            SqlType::UInt16 => "UInt16".to_owned(),
            SqlType::UInt32 => "UInt32".to_owned(),
            SqlType::UInt64 => "UInt64".to_owned(),
            SqlType::UInt128 => "UInt128".to_owned(),
            SqlType::Int8 => "Int8".to_owned(),
            SqlType::Int16 => "Int16".to_owned(),
            SqlType::Int32 => "Int32".to_owned(),
            SqlType::Int64 => "Int64".to_owned(),
            SqlType::Int128 => "Int128".to_owned(),
            SqlType::Bool => "Bool".to_owned(),
            SqlType::String => "String".to_owned(),
            SqlType::FixedString(n) => {
                let mut s = "FixedString(".to_owned();
                let num = u32_string(*n);
                s.append(num.as_str());
                s.append(")");
                proof {
                    assert(s@ =~= text_of(view_of(*self)));
                }
                s
            },
            SqlType::Float32 => "Float32".to_owned(),
            SqlType::Float64 => "Float64".to_owned(),
            SqlType::Date => "Date".to_owned(),
            SqlType::DateTime(tz) => {
                match tz {
                    Option::None => "DateTime".to_owned(),
                    Option::Some(z) => {
                        let mut s = "DateTime(".to_owned();
                        s.append(z.as_str());
                        s.append(")");
                        proof {
                            assert(s@ =~= text_of(view_of(*self)));
                        }
                        s
                    },
                }
            },
            SqlType::DateTime64(p, tz) => {
                let mut s = "DateTime64(".to_owned();
                let num = u32_string(*p);
                s.append(num.as_str());
                match tz {
                    Option::None => {},
                    Option::Some(z) => {
                        s.append(", ");
                        s.append(z.as_str());
                    },
                }
                s.append(")");
                proof {
                    reveal_strlit(", ");
                    assert(s@ =~= text_of(view_of(*self)));
                }
                s
            },
            SqlType::IPv4 => "IPv4".to_owned(),
            SqlType::IPv6 => "IPv6".to_owned(),
            SqlType::UUID => "UUID".to_owned(),
            SqlType::Decimal(p, sc) => {
                let mut s = "Decimal(".to_owned();
                let num = u32_string(*p);
                s.append(num.as_str());
                s.append(", ");
                let num2 = u32_string(*sc);
                s.append(num2.as_str());
                s.append(")");
                proof {
                    reveal_strlit(", ");
                    assert(s@ =~= text_of(view_of(*self)));
                }
                s
            },
            SqlType::Enum8(v) => {
                let mut s = "Enum8(".to_owned();
                let body = render_kvs(v, 0);
                s.append(body.as_str());
                s.append(")");
                proof {
                    assert(v@.subrange(0, v@.len() as int) =~= v@);
                    assert(s@ =~= text_of(view_of(*self)));
                }
                s
            },
            SqlType::Enum16(v) => {
                let mut s = "Enum16(".to_owned();
                let body = render_kvs(v, 0);
                s.append(body.as_str());
                s.append(")");
                proof {
                    assert(v@.subrange(0, v@.len() as int) =~= v@);
                    assert(s@ =~= text_of(view_of(*self)));
                }
                s
            },
            SqlType::Array(inner) => {
                let mut s = "Array(".to_owned();
                let body = inner.text();
                s.append(body.as_str());
                s.append(")");
                proof {
                    assert(s@ =~= text_of(view_of(*self)));
                }
                s
            },
            SqlType::Tuple(v) => {
                let mut s = "Tuple(".to_owned();
                let body = render_args(v, 0);
                s.append(body.as_str());
                s.append(")");
                proof {
                    assert(v@.subrange(0, v@.len() as int) =~= v@);
                    assert(s@ =~= text_of(view_of(*self)));
                }
                s
            },
            SqlType::Dict(k, val) => {
                let mut s = "Map(".to_owned();
                let kt = k.text();
                s.append(kt.as_str());
                s.append(", ");
                let vt = val.text();
                s.append(vt.as_str());
                s.append(")");
                proof {
                    reveal_strlit(", ");
                    assert(s@ =~= text_of(view_of(*self)));
                }
                s
            },
            SqlType::Nullable(inner) => {
                let mut s = "Nullable(".to_owned();
                let body = inner.text();
                s.append(body.as_str());
                s.append(")");
                proof {
                    assert(s@ =~= text_of(view_of(*self)));
                }
                s
            },
        }
    }
}

/// Renders the argument list `v[from..]`.
fn render_args(v: &Vec<SqlType>, from: usize) -> (r: String)
    requires
        from <= v@.len(),
    ensures
        r@ == args_text(seq_view(v@.subrange(from as int, v@.len() as int))),
    decreases v@, v@.len() - from,
{
    let ghost sub = v@.subrange(from as int, v@.len() as int);
    proof {
        lemma_seq_view_index(sub);
    }
    if from == v.len() {
        proof {
            assert(seq_view(sub).len() == 0);
        }
        String::new()
    } else {
        proof {
            assert(sub[0] == v@[from as int]);
        }
        let mut s = v[from].text();
        proof {
            assert(seq_view(sub)[0] == view_of(v@[from as int]));
        }
        if from + 1 < v.len() {
            s.append(", ");
            let rest = render_args(v, from + 1);
            s.append(rest.as_str());
            proof {
                let subn = v@.subrange(from + 1, v@.len() as int);
                lemma_seq_view_index(subn);
                assert(seq_view(sub).drop_first() =~= seq_view(subn)) by {
                    assert forall|i: int| 0 <= i < seq_view(subn).len() implies seq_view(
                        sub,
                    ).drop_first()[i] == seq_view(subn)[i] by {
                        assert(sub[i + 1] == v@[from + 1 + i]);
                        assert(subn[i] == v@[from + 1 + i]);
                    }
                };
                reveal_strlit(", ");
                assert(args_sep() =~= ", "@);
                assert(s@ =~= args_text(seq_view(sub)));
            }
        } else {
            proof {
                assert(seq_view(sub).len() == 1);
            }
        }
        s
    }
}

/// Renders the variant list `v[from..]`.
fn render_kvs(v: &Vec<(String, i32)>, from: usize) -> (r: String)
    requires
        from <= v@.len(),
    ensures
        r@ == kvs_text(pairs_view(v@.subrange(from as int, v@.len() as int))),
    decreases v@.len() - from,
{
    let ghost sub = v@.subrange(from as int, v@.len() as int);
    if from == v.len() {
        String::new()
    } else {
        let p = &v[from];
        let mut s = "'".to_owned();
        s.append(p.0.as_str());
        s.append("' = ");
        let num = i32_string(p.1);
        s.append(num.as_str());
        proof {
            reveal_strlit("'");
            assert("'"@ =~= seq!['\'']);
            assert(pairs_view(sub)[0] == (v@[from as int].0@, v@[from as int].1));
            assert(s@ =~= kv_text(pairs_view(sub)[0]));
        }
        if from + 1 < v.len() {
            s.append(", ");
            let rest = render_kvs(v, from + 1);
            s.append(rest.as_str());
            proof {
                let subn = v@.subrange(from + 1, v@.len() as int);
                assert(pairs_view(sub).drop_first() =~= pairs_view(subn)) by {
                    assert forall|i: int| 0 <= i < pairs_view(subn).len() implies pairs_view(
                        sub,
                    ).drop_first()[i] == pairs_view(subn)[i] by {
                        assert(sub[i + 1] == v@[from + 1 + i]);
                        assert(subn[i] == v@[from + 1 + i]);
                    }
                };
                reveal_strlit(", ");
                assert(args_sep() =~= ", "@);
                assert(s@ =~= kvs_text(pairs_view(sub)));
            }
        } else {
            proof {
                assert(pairs_view(sub).len() == 1);
            }
        }
        s
    }
}

/// A measure under which the resolver's rewriting of a map into an array of
/// pairs still shrinks.
pub open spec fn weight(t: TypeV) -> nat
    decreases t,
{
    match t {
        TypeV::Array(inner) => weight(*inner) + 1,
        TypeV::Tuple(ts) => weight_seq(ts) + 1,
        TypeV::Dict(k, v) => weight(*k) + weight(*v) + 3,
        TypeV::Nullable(inner) => weight(*inner) + 1,
        _ => 1,
    }
}

/// The summed weight of a list of type shapes.
pub open spec fn weight_seq(ts: Seq<TypeV>) -> nat
    decreases ts,
{
    if ts.len() == 0 {
        0
    } else {
        weight(ts[0]) + weight_seq(ts.drop_first())
    }
}

/// Every type shape has positive weight.
pub proof fn lemma_weight_pos(t: TypeV)
    ensures
        weight(t) >= 1,
{
}

/// Rewriting a map into an array of key/value pairs shrinks the weight, so
/// the resolver's rewriting terminates.
pub proof fn lemma_weight_expand(k: TypeV, v: TypeV)
    ensures
        weight_seq(seq![k, v]) == weight(k) + weight(v),
        weight(TypeV::Tuple(seq![k, v])) == weight(k) + weight(v) + 1,
        weight(TypeV::Array(Box::new(TypeV::Tuple(seq![k, v])))) < weight(
            TypeV::Dict(Box::new(k), Box::new(v)),
        ),
{
    let s = seq![k, v];
    assert(s.drop_first() =~= seq![v]);
    assert(seq![v].drop_first() =~= Seq::<TypeV>::empty());
    assert(weight_seq(s) == weight(k) + weight_seq(seq![v]));
    assert(weight_seq(seq![v]) == weight(v) + weight_seq(Seq::<TypeV>::empty()));
}

/// An element weighs no more than its whole list.
pub proof fn lemma_weight_seq_element(ts: Seq<TypeV>, i: int)
    requires
        0 <= i < ts.len(),
    ensures
        weight(ts[i]) <= weight_seq(ts),
    decreases ts.len(),
{
    if i > 0 {
        lemma_weight_seq_element(ts.drop_first(), i - 1);
    }
}

} // verus!
