//! Canonicity of the rendered type grammar: a well-formed type, rendered to
//! its canonical text and parsed back, comes back unchanged. This is what
//! makes the renderer's output a faithful key for type-signature overrides.

use crate::parse::{eq_sep, inner_of, parse_args, parse_body, parse_kv, parse_kvs, parse_spec,
    wrapped_by};
use crate::schema::{args_text, kv_text, kvs_text, text_of, TypeV};
use crate::text::{all_digits, args_sep, contains_seq, find_at, first_sep_from,
    int_text, matches_at, nat_text, paren_delta, parse_i32_spec, parse_u32_spec, pd, sep_trigger};
use vstd::prelude::*;

verus! {

/// A label that survives the grammar: it holds no argument separator, no
/// label/value separator, and no parenthesis.
pub open spec fn label_ok(l: Seq<char>) -> bool {
    &&& !contains_seq(l, args_sep())
    &&& !contains_seq(l, eq_sep())
    &&& paren_free(l)
}

/// Whether `s` holds no parenthesis.
pub open spec fn paren_free(s: Seq<char>) -> bool {
    forall|i: int| 0 <= i < s.len() ==> #[trigger] s[i] != '(' && s[i] != ')'
}

/// A type whose canonical text parses back to it: time-zone labels hold no
/// parentheses, enumeration labels are `label_ok` and enumerations are
/// nonempty, tuples are nonempty, and the condition holds recursively.
pub open spec fn wf(t: TypeV) -> bool
    decreases t,
{
    match t {
        TypeV::DateTime(tz) => match tz {
            Option::Some(z) => paren_free(z),
            Option::None => true,
        },
        TypeV::DateTime64(_, tz) => match tz {
            Option::Some(z) => paren_free(z),
            Option::None => true,
        },
        TypeV::Enum8(vs) => vs.len() > 0 && forall|i: int|
            0 <= i < vs.len() ==> label_ok((#[trigger] vs[i]).0),
        TypeV::Enum16(vs) => vs.len() > 0 && forall|i: int|
            0 <= i < vs.len() ==> label_ok((#[trigger] vs[i]).0),
        TypeV::Array(x) => wf(*x),
        TypeV::Tuple(ts) => ts.len() > 0 && forall|i: int|
            0 <= i < ts.len() ==> wf(#[trigger] ts[i]),
        TypeV::Dict(k, v) => wf(*k) && wf(*v),
        TypeV::Nullable(x) => wf(*x),
        _ => true,
    }
}

/// Depth never falls below zero along `s`.
pub open spec fn nonneg_depth(s: Seq<char>) -> bool {
    forall|j: int| 0 <= j <= s.len() ==> pd(s, j) >= 0
}

/// The parentheses of `s` close completely.
pub open spec fn closed_depth(s: Seq<char>) -> bool {
    pd(s, s.len() as int) == 0
}

/// No comma of `s` stands at depth zero.
pub open spec fn no_low_comma(s: Seq<char>) -> bool {
    forall|j: int| 0 <= j < s.len() && pd(s, j) == 0 ==> #[trigger] s[j] != ','
}

/// The shape of every canonical render: balanced, never dipping below the
/// surface, and with every comma inside parentheses.
pub open spec fn tidy(s: Seq<char>) -> bool {
    nonneg_depth(s) && closed_depth(s) && no_low_comma(s)
}

/// A paren-free text stays at depth zero.
proof fn lemma_flat_depth(s: Seq<char>)
    requires
        paren_free(s),
    ensures
        forall|j: int| 0 <= j <= s.len() ==> pd(s, j) == 0,
{
    assert forall|j: int| 0 <= j <= s.len() implies pd(s, j) == 0 by {
        crate::text::lemma_pd_flat(s, j);
    }
}

/// Digit characters are not parentheses and not commas.
proof fn lemma_digit_char_classes(c: char)
    requires
        crate::text::is_digit(c),
    ensures
        c != '(',
        c != ')',
        c != ',',
        c != '-',
        c != ' ',
        c != '\'',
        c != '=',
    {
}

/// The decimal text of an integer holds only digits and possibly a leading
/// minus sign: no parentheses, commas, spaces, quotes, or equals signs.
proof fn lemma_int_text_classes(v: int)
    ensures
        int_text(v).len() >= 1,
        forall|i: int| 0 <= i < int_text(v).len() ==> {
            &&& #[trigger] int_text(v)[i] != '('
            &&& int_text(v)[i] != ')'
            &&& int_text(v)[i] != ','
            &&& int_text(v)[i] != ' '
            &&& int_text(v)[i] != '\''
            &&& int_text(v)[i] != '='
        },
{
    if v < 0 {
        crate::text::lemma_nat_text_digits(-v);
        let s = int_text(v);
        assert forall|i: int| 0 <= i < s.len() implies {
            &&& #[trigger] s[i] != '('
            &&& s[i] != ')'
            &&& s[i] != ','
            &&& s[i] != ' '
            &&& s[i] != '\''
            &&& s[i] != '='
        } by {
            if i == 0 {
            } else {
                assert(s[i] == nat_text(-v)[i - 1]);
                lemma_digit_char_classes(nat_text(-v)[i - 1]);
            }
        }
    } else {
        crate::text::lemma_nat_text_digits(v);
        let s = int_text(v);
        assert forall|i: int| 0 <= i < s.len() implies {
            &&& #[trigger] s[i] != '('
            &&& s[i] != ')'
            &&& s[i] != ','
            &&& s[i] != ' '
            &&& s[i] != '\''
            &&& s[i] != '='
        } by {
            lemma_digit_char_classes(s[i]);
        }
    }
}

/// Depth facts for a wrapper text `w ++ body ++ ")"`, where `w` is a name
/// followed by an opening parenthesis and `body` is balanced: the whole is
/// tidy.
proof fn lemma_tidy_wrap(w: Seq<char>, body: Seq<char>, s: Seq<char>)
    requires
        w.len() >= 1,
        w.last() == '(',
        forall|k: int| 0 <= k < w.len() - 1 ==> paren_delta(#[trigger] w[k]) == 0 && w[k] != ',',
        nonneg_depth(body),
        closed_depth(body),
        s == w + body + ")"@,
    ensures
        tidy(s),
        s.len() == w.len() + body.len() + 1,
    decreases 0int,
{
    reveal_strlit(")");
    let close = ")"@;
    assert(close.len() == 1 && close[0] == ')');
    let a = w + body;
    assert(s =~= a + close);
    let w0 = w.drop_last();
    assert(w =~= w0 + seq!['(']);
    // Depth along the name: zero; after the opening parenthesis: one.
    assert forall|j: int| 0 <= j < w.len() implies pd(w, j) == 0 by {
        assert forall|k: int| 0 <= k < w0.len() implies paren_delta(#[trigger] w0[k]) == 0 by {
            assert(w0[k] == w[k]);
        }
        crate::text::lemma_pd_prefix(w0, seq!['('], j);
        crate::text::lemma_pd_flat(w0, j);
    }
    assert(pd(w, w.len() as int) == 1) by {
        assert(pd(w, w.len() as int) == pd(w, w.len() - 1) + paren_delta(w[w.len() - 1]));
    }
    // Depth along the whole text.
    assert forall|j: int| 0 <= j <= s.len() implies pd(s, j) == spec_wrap_depth(w, body, j) by {
        if j <= w.len() {
            crate::text::lemma_pd_prefix(w, body + close, j);
            assert(s =~= w + (body + close));
            assert(pd(s, j) == pd(w, j));
        } else if j <= w.len() + body.len() {
            assert(s =~= w + (body + close));
            crate::text::lemma_pd_suffix(w, body + close, j - w.len());
            crate::text::lemma_pd_prefix(body, close, j - w.len());
            assert(pd(s, j) == 1 + pd(body, j - w.len()));
        } else {
            assert(j == s.len());
            assert(s =~= w + (body + close));
            crate::text::lemma_pd_suffix(w, body + close, j - w.len());
            crate::text::lemma_pd_suffix(body, close, 1);
            assert(pd(body + close, body.len() + 1int) == pd(body, body.len() as int) + pd(
                close,
                1,
            ));
            assert(pd(close, 0) == 0);
            assert(pd(close, 1) == paren_delta(')'));
            assert(pd(s, j) == 1 + 0 + (-1));
        }
    }
    assert(closed_depth(s));
    assert(nonneg_depth(s)) by {
        assert forall|j: int| 0 <= j <= s.len() implies pd(s, j) >= 0 by {
            assert(pd(s, j) == spec_wrap_depth(w, body, j));
        }
    }
    assert(no_low_comma(s)) by {
        assert forall|j: int| 0 <= j < s.len() && pd(s, j) == 0 implies #[trigger] s[j] != ',' by {
            assert(pd(s, j) == spec_wrap_depth(w, body, j));
            if j < w.len() - 1 {
                assert(s[j] == w[j]);
            } else if j == w.len() - 1 {
                assert(s[j] == w[j]);
                assert(s[j] == '(');
            } else if j < w.len() + body.len() {
                // Inside the body the depth is at least one.
                assert(pd(body, j - w.len()) >= 0);
                assert(false);
            } else {
                assert(s[j] == ')');
            }
        }
    }
}

/// The depth of `w ++ body ++ ")"` at `j`: zero along the name, one more
/// than the body's own depth inside the parentheses, zero at the end.
pub open spec fn spec_wrap_depth(w: Seq<char>, body: Seq<char>, j: int) -> int {
    if j <= w.len() - 1 {
        0
    } else if j <= w.len() + body.len() {
        1 + pd(body, j - w.len())
    } else {
        0
    }
}

/// Joining two balanced texts with the argument separator keeps them
/// balanced; depth along the left part and the separator is the left
/// part's own.
proof fn lemma_depth_cat_sep(x: Seq<char>, y: Seq<char>, s: Seq<char>)
    requires
        nonneg_depth(x),
        closed_depth(x),
        nonneg_depth(y),
        closed_depth(y),
        s == x + args_sep() + y,
    ensures
        nonneg_depth(s),
        closed_depth(s),
        forall|j: int| 0 <= j <= x.len() ==> pd(s, j) == pd(x, j),
        forall|j: int| 0 <= j <= y.len() ==> pd(s, x.len() + 2 + j) == pd(y, j),
        pd(s, x.len() + 1int) == 0,
    decreases 0int,
{
    let sep = args_sep();
    assert(paren_delta(sep[0]) == 0 && paren_delta(sep[1]) == 0);
    let a = x + sep;
    assert(s =~= a + y);
    assert(forall|j: int| 0 <= j <= x.len() ==> pd(a, j) == pd(x, j)) by {
        assert forall|j: int| 0 <= j <= x.len() implies pd(a, j) == pd(x, j) by {
            crate::text::lemma_pd_prefix(x, sep, j);
        }
    }
    assert(pd(a, x.len() + 1int) == 0) by {
        crate::text::lemma_pd_suffix(x, sep, 1);
    }
    assert(pd(a, x.len() + 2int) == 0) by {
        crate::text::lemma_pd_suffix(x, sep, 2);
    }
    assert forall|j: int| 0 <= j <= a.len() implies pd(s, j) == pd(a, j) by {
        crate::text::lemma_pd_prefix(a, y, j);
    }
    assert forall|j: int| 0 <= j <= y.len() implies pd(s, a.len() + j) == pd(y, j) by {
        crate::text::lemma_pd_suffix(a, y, j);
    }
    assert(closed_depth(s)) by {
        assert(pd(s, a.len() + y.len() as int) == pd(y, y.len() as int));
    }
    assert(nonneg_depth(s)) by {
        assert forall|j: int| 0 <= j <= s.len() implies pd(s, j) >= 0 by {
            if j <= x.len() {
                assert(pd(s, j) == pd(x, j));
            } else if j <= a.len() {
                assert(pd(s, j) == pd(a, j));
                if j == x.len() + 1 {
                } else {
                    assert(j == x.len() + 2);
                }
            } else {
                assert(pd(s, j) == pd(y, j - a.len()));
            }
        }
    }
}

/// The decimal text of an unsigned 32-bit number parses back to it.
proof fn lemma_parse_u32_text(n: u32)
    ensures
        parse_u32_spec(nat_text(n as int)) == Option::Some(n),
        all_digits(nat_text(n as int)),
        nat_text(n as int).len() >= 1,
{
    crate::text::lemma_nat_text_digits(n as int);
}

/// The decimal text of a signed 32-bit number parses back to it.
proof fn lemma_parse_i32_text(v: i32)
    ensures
        parse_i32_spec(int_text(v as int)) == Option::Some(v),
{
    let s = int_text(v as int);
    if v >= 0 {
        crate::text::lemma_nat_text_digits(v as int);
        assert(s[0] != '-') by {
            lemma_digit_char_classes(s[0]);
        }
    } else {
        crate::text::lemma_nat_text_digits(-(v as int));
        let m = s.subrange(1, s.len() as int);
        assert(m =~= nat_text(-(v as int)));
        assert(s[0] == '-');
    }
}

/// A digit text holds no argument separator.
proof fn lemma_digits_no_sep(s: Seq<char>)
    requires
        all_digits(s),
    ensures
        find_at(s, args_sep(), 0) == -1,
{
    assert forall|j: int| !matches_at(s, args_sep(), j) by {
        if matches_at(s, args_sep(), j) {
            assert(s.subrange(j, j + 2)[0] == s[j]);
            assert(s[j] == ',');
            lemma_digit_char_classes(s[j]);
        }
    }
    crate::text::lemma_find_at_none(s, args_sep());
}

/// A text ending in a closing parenthesis equals no zero-argument name.
proof fn lemma_wrapped_not_zero_arg(s: Seq<char>)
    requires
        s.len() > 0,
        s.last() == ')',
    ensures
        s != "UInt8"@ && s != "UInt16"@ && s != "UInt32"@ && s != "UInt64"@ && s != "UInt128"@,
        s != "Int8"@ && s != "Int16"@ && s != "Int32"@ && s != "Int64"@ && s != "Int128"@,
        s != "Bool"@ && s != "String"@ && s != "Float32"@ && s != "Float64"@,
        s != "Date"@ && s != "DateTime"@ && s != "IPv4"@ && s != "IPv6"@ && s != "UUID"@,
{
    reveal_strlit("UInt8");
    reveal_strlit("UInt16");
    reveal_strlit("UInt32");
    reveal_strlit("UInt64");
    reveal_strlit("UInt128");
    reveal_strlit("Int8");
    reveal_strlit("Int16");
    reveal_strlit("Int32");
    reveal_strlit("Int64");
    reveal_strlit("Int128");
    reveal_strlit("Bool");
    reveal_strlit("String");
    reveal_strlit("Float32");
    reveal_strlit("Float64");
    reveal_strlit("Date");
    reveal_strlit("DateTime");
    reveal_strlit("IPv4");
    reveal_strlit("IPv6");
    reveal_strlit("UUID");
}

/// A text whose first character differs from the wrapper name's is not
/// wrapped by it.
proof fn lemma_not_wrapped_first(s: Seq<char>, w: Seq<char>)
    requires
        w.len() > 0,
        s.len() == 0 || s[0] != w[0],
    ensures
        !wrapped_by(s, w),
{
    if wrapped_by(s, w) {
        assert(s.subrange(0, w.len() as int)[0] == s[0]);
    }
}

/// A text differing from the wrapper name at some position is not wrapped
/// by it.
proof fn lemma_not_wrapped_at(s: Seq<char>, w: Seq<char>, k: int)
    requires
        0 <= k < w.len(),
        k < s.len(),
        s[k] != w[k],
    ensures
        !wrapped_by(s, w),
{
    if wrapped_by(s, w) {
        assert(s.subrange(0, w.len() as int)[k] == s[k]);
    }
}

/// A text without an opening parenthesis after the wrapper name is not
/// wrapped by it.
proof fn lemma_not_wrapped_open(s: Seq<char>, w: Seq<char>)
    requires
        w.len() < s.len(),
        s[w.len() as int] != '(',
    ensures
        !wrapped_by(s, w),
{
}

/// `w ++ "(" ++ body ++ ")"` is wrapped by `w`, with `body` between the
/// outer parentheses. `wo` is the name together with its opening
/// parenthesis.
proof fn lemma_wrapped_intro(s: Seq<char>, w: Seq<char>, wo: Seq<char>, body: Seq<char>)
    requires
        wo.len() == w.len() + 1,
        forall|k: int| 0 <= k < w.len() ==> #[trigger] wo[k] == w[k],
        wo.last() == '(',
        s == wo + body + ")"@,
    ensures
        wrapped_by(s, w),
        inner_of(s, w) == body,
        s.len() > 0 && s.last() == ')',
        s.len() == wo.len() + body.len() + 1,
        forall|k: int| 0 <= k < wo.len() ==> #[trigger] s[k] == wo[k],
{
    reveal_strlit(")");
    assert(")"@.len() == 1 && ")"@[0] == ')');
    assert(s =~= wo + body + ")"@);
    assert(s.len() == wo.len() + body.len() + 1);
    assert forall|k: int| 0 <= k < wo.len() implies #[trigger] s[k] == wo[k] by {}
    assert(s.subrange(0, w.len() as int) =~= w);
    assert(s[w.len() as int] == '(');
    assert(s.last() == ')');
    assert(inner_of(s, w) =~= body);
}

/// A name without parentheses or commas is tidy.
proof fn lemma_name_tidy(s: Seq<char>)
    requires
        forall|k: int| 0 <= k < s.len() ==> #[trigger] s[k] != '(' && s[k] != ')' && s[k] != ',',
    ensures
        tidy(s),
{
    assert forall|j: int| 0 <= j <= s.len() implies pd(s, j) == 0 by {
        crate::text::lemma_pd_flat(s, j);
    }
}

/// Every zero-argument name parses to its type, and is tidy.
#[verifier::rlimit(100)]
#[verifier::spinoff_prover]
proof fn lemma_zero_arg_names_parse()
    ensures
        parse_spec("UInt8"@) == Option::Some(TypeV::UInt8),
        parse_spec("UInt16"@) == Option::Some(TypeV::UInt16),
        parse_spec("UInt32"@) == Option::Some(TypeV::UInt32),
        parse_spec("UInt64"@) == Option::Some(TypeV::UInt64),
        parse_spec("UInt128"@) == Option::Some(TypeV::UInt128),
        parse_spec("Int8"@) == Option::Some(TypeV::Int8),
        parse_spec("Int16"@) == Option::Some(TypeV::Int16),
        parse_spec("Int32"@) == Option::Some(TypeV::Int32),
        parse_spec("Int64"@) == Option::Some(TypeV::Int64),
        parse_spec("Int128"@) == Option::Some(TypeV::Int128),
        parse_spec("Bool"@) == Option::Some(TypeV::Bool),
        parse_spec("String"@) == Option::Some(TypeV::String),
        parse_spec("Float32"@) == Option::Some(TypeV::Float32),
        parse_spec("Float64"@) == Option::Some(TypeV::Float64),
        parse_spec("Date"@) == Option::Some(TypeV::Date),
        parse_spec("DateTime"@) == Option::Some(TypeV::DateTime(Option::None)),
        parse_spec("IPv4"@) == Option::Some(TypeV::IPv4),
        parse_spec("IPv6"@) == Option::Some(TypeV::IPv6),
        parse_spec("UUID"@) == Option::Some(TypeV::UUID),
        tidy("UInt8"@) && tidy("UInt16"@) && tidy("UInt32"@) && tidy("UInt64"@) && tidy(
            "UInt128"@,
        ),
        tidy("Int8"@) && tidy("Int16"@) && tidy("Int32"@) && tidy("Int64"@) && tidy("Int128"@),
        tidy("Bool"@) && tidy("String"@) && tidy("Float32"@) && tidy("Float64"@),
        tidy("Date"@) && tidy("DateTime"@) && tidy("IPv4"@) && tidy("IPv6"@) && tidy("UUID"@),
        "UInt8"@.len() >= 1 && "UInt16"@.len() >= 1 && "UInt32"@.len() >= 1 && "UInt64"@.len()
            >= 1 && "UInt128"@.len() >= 1,
        "Int8"@.len() >= 1 && "Int16"@.len() >= 1 && "Int32"@.len() >= 1 && "Int64"@.len() >= 1
            && "Int128"@.len() >= 1,
        "Bool"@.len() >= 1 && "String"@.len() >= 1 && "Float32"@.len() >= 1 && "Float64"@.len()
            >= 1,
        "Date"@.len() >= 1 && "DateTime"@.len() >= 1 && "IPv4"@.len() >= 1 && "IPv6"@.len() >= 1
            && "UUID"@.len() >= 1,
{
    reveal_strlit("UInt8");
    reveal_strlit("UInt16");
    reveal_strlit("UInt32");
    reveal_strlit("UInt64");
    reveal_strlit("UInt128");
    reveal_strlit("Int8");
    reveal_strlit("Int16");
    reveal_strlit("Int32");
    reveal_strlit("Int64");
    reveal_strlit("Int128");
    reveal_strlit("Bool");
    reveal_strlit("String");
    reveal_strlit("Float32");
    reveal_strlit("Float64");
    reveal_strlit("Date");
    reveal_strlit("DateTime");
    reveal_strlit("IPv4");
    reveal_strlit("IPv6");
    reveal_strlit("UUID");
    reveal_strlit("LowCardinality");
    lemma_name_tidy("UInt8"@);
    lemma_name_tidy("UInt16"@);
    lemma_name_tidy("UInt32"@);
    lemma_name_tidy("UInt64"@);
    lemma_name_tidy("UInt128"@);
    lemma_name_tidy("Int8"@);
    lemma_name_tidy("Int16"@);
    lemma_name_tidy("Int32"@);
    lemma_name_tidy("Int64"@);
    lemma_name_tidy("Int128"@);
    lemma_name_tidy("Bool"@);
    lemma_name_tidy("String"@);
    lemma_name_tidy("Float32"@);
    lemma_name_tidy("Float64"@);
    lemma_name_tidy("Date"@);
    lemma_name_tidy("DateTime"@);
    lemma_name_tidy("IPv4"@);
    lemma_name_tidy("IPv6"@);
    lemma_name_tidy("UUID"@);
}

/// No comma of `s` is followed by a space.
pub open spec fn no_comma_space(s: Seq<char>) -> bool {
    forall|j: int| 0 <= j && j + 1 < s.len() ==> !((#[trigger] s[j]) == ',' && s[j + 1] == ' ')
}

/// The character at position `i` of a rendered variant `'label' = value`.
spec fn kv_char(l: Seq<char>, num: Seq<char>, i: int) -> char {
    if i == 0 {
        '\''
    } else if i <= l.len() {
        l[i - 1]
    } else if i == l.len() + 1 {
        '\''
    } else if i == l.len() + 2 {
        ' '
    } else if i == l.len() + 3 {
        '='
    } else if i == l.len() + 4 {
        ' '
    } else {
        num[i - l.len() - 5]
    }
}

/// A rendered variant parses back to itself, holds no parentheses, no
/// comma-space, and does not end in a comma.
#[verifier::rlimit(60)]
#[verifier::spinoff_prover]
proof fn lemma_variant_text_parses(p: (Seq<char>, i32))
    requires
        label_ok(p.0),
    ensures
        parse_kv(kv_text(p)) == Option::Some(p),
        paren_free(kv_text(p)),
        no_comma_space(kv_text(p)),
        kv_text(p).len() >= 6,
        kv_text(p).last() != ',',
{
    reveal_strlit("' = ");
    let l = p.0;
    let num = int_text(p.1 as int);
    let mid = "' = "@;
    assert(mid.len() == 4 && mid[0] == '\'' && mid[1] == ' ' && mid[2] == '=' && mid[3] == ' ');
    lemma_int_text_classes(p.1 as int);
    crate::text::lemma_no_match_of_not_contains(l, args_sep());
    crate::text::lemma_no_match_of_not_contains(l, eq_sep());
    let s = kv_text(p);
    assert(s == seq!['\''] + l + mid + num);
    assert(s.len() == l.len() + 5 + num.len());
    assert forall|i: int| 0 <= i < s.len() implies #[trigger] s[i] == kv_char(l, num, i) by {}
    assert(s.len() >= 6);
    assert(s.last() == num.last());
    assert(s.last() != ',');
    assert(paren_free(s)) by {
        assert forall|i: int| 0 <= i < s.len() implies #[trigger] s[i] != '(' && s[i] != ')' by {
            assert(s[i] == kv_char(l, num, i));
        }
    }
    assert(no_comma_space(s)) by {
        assert forall|j: int| 0 <= j && j + 1 < s.len() implies !((#[trigger] s[j]) == ','
            && s[j + 1] == ' ') by {
            if s[j] == ',' && s[j + 1] == ' ' {
                assert(s[j] == kv_char(l, num, j));
                assert(s[j + 1] == kv_char(l, num, j + 1));
                assert(1 <= j <= l.len());
                assert(j + 1 <= l.len());
                assert(l.subrange(j - 1, j + 1) =~= args_sep());
                crate::text::lemma_contains_of_match(l, args_sep(), j - 1);
            }
        }
    }
    // The label/value separator stands right after the closing quote, and
    // nowhere earlier.
    let m = l.len() + 2int;
    assert(matches_at(s, eq_sep(), m)) by {
        assert(s.subrange(m, m + 3) =~= eq_sep());
    }
    assert forall|j: int| 0 <= j < m implies !matches_at(s, eq_sep(), j) by {
        if matches_at(s, eq_sep(), j) {
            assert(s.subrange(j, j + 3)[0] == s[j]);
            assert(s.subrange(j, j + 3)[1] == s[j + 1]);
            assert(s.subrange(j, j + 3)[2] == s[j + 2]);
            assert(s[j] == ' ' && s[j + 1] == '=' && s[j + 2] == ' ');
            assert(s[j] == kv_char(l, num, j));
            assert(s[j + 1] == kv_char(l, num, j + 1));
            assert(s[j + 2] == kv_char(l, num, j + 2));
            assert(1 <= j + 1 && j + 1 <= l.len());
            assert(1 <= j && j + 2 <= l.len());
            assert(l.subrange(j - 1, j + 2) =~= eq_sep());
            crate::text::lemma_contains_of_match(l, eq_sep(), j - 1);
        }
    }
    crate::text::lemma_find_at_exact(s, eq_sep(), m);
    let k = s.subrange(0, m);
    assert(k.len() >= 2);
    assert(k[0] == '\'');
    assert(k.last() == s[l.len() + 1int]);
    assert(k.last() == '\'');
    let v = s.subrange(m + 3, s.len() as int);
    assert(v =~= num);
    lemma_parse_i32_text(p.1);
    assert(k.subrange(1, k.len() - 1) =~= l);
    assert(parse_kv(s) == Option::Some((l, p.1)));
    assert((l, p.1) == p);
}

/// A rendered variant list parses back to itself and holds no parentheses.
#[verifier::rlimit(60)]
#[verifier::spinoff_prover]
proof fn lemma_variant_list_parses(vs: Seq<(Seq<char>, i32)>)
    requires
        vs.len() > 0,
        forall|i: int| 0 <= i < vs.len() ==> label_ok((#[trigger] vs[i]).0),
    ensures
        parse_kvs(kvs_text(vs)) == Option::Some(vs),
        paren_free(kvs_text(vs)),
    decreases vs.len(),
{
    let s = kvs_text(vs);
    lemma_variant_text_parses(vs[0]);
    let kv0 = kv_text(vs[0]);
    if vs.len() == 1 {
        assert(s == kv0);
        assert forall|j: int| !matches_at(s, args_sep(), j) by {
            if matches_at(s, args_sep(), j) {
                assert(s.subrange(j, j + 2)[0] == s[j]);
                assert(s.subrange(j, j + 2)[1] == s[j + 1]);
                assert(s[j] == ',' && s[j + 1] == ' ');
            }
        }
        crate::text::lemma_find_at_none(s, args_sep());
        assert(vs =~= seq![vs[0]]);
    } else {
        let rest = kvs_text(vs.drop_first());
        assert(s == kv0 + args_sep() + rest);
        assert forall|i: int| 0 <= i < vs.drop_first().len() implies label_ok(
            (#[trigger] vs.drop_first()[i]).0,
        ) by {
            assert(vs.drop_first()[i] == vs[i + 1]);
        }
        lemma_variant_list_parses(vs.drop_first());
        let m = kv0.len() as int;
        assert(s =~= kv0 + (args_sep() + rest));
        assert(s[m] == ',' && s[m + 1] == ' ');
        assert(matches_at(s, args_sep(), m)) by {
            assert(s.subrange(m, m + 2) =~= args_sep());
        }
        assert forall|j: int| 0 <= j < m implies !matches_at(s, args_sep(), j) by {
            if matches_at(s, args_sep(), j) {
                assert(s.subrange(j, j + 2)[0] == s[j]);
                assert(s.subrange(j, j + 2)[1] == s[j + 1]);
                assert(s[j] == ',' && s[j + 1] == ' ');
                assert(s[j] == kv0[j]);
                if j + 1 < m {
                    assert(s[j + 1] == kv0[j + 1]);
                } else {
                    assert(j == m - 1);
                    assert(kv0.last() == ',');
                }
            }
        }
        crate::text::lemma_find_at_exact(s, args_sep(), m);
        assert(s.subrange(0, m) =~= kv0);
        assert(s.subrange(m + 2, s.len() as int) =~= rest);
        assert(parse_kvs(s) == Option::Some(seq![vs[0]] + vs.drop_first()));
        assert(seq![vs[0]] + vs.drop_first() =~= vs);
        assert(paren_free(s)) by {
            assert forall|i: int| 0 <= i < s.len() implies #[trigger] s[i] != '(' && s[i]
                != ')' by {
                if i < m {
                    assert(s[i] == kv0[i]);
                } else if i == m || i == m + 1 {
                } else {
                    assert(s[i] == rest[i - m - 2]);
                }
            }
        }
    }
}

/// A parsed type is canonical: whatever well-formed grammar string it was
/// read from, rendering it and parsing the render gives the same type
/// back.
pub proof fn lemma_reparse(s: Seq<char>, t: TypeV)
    requires
        parse_spec(s) == Option::Some(t),
        wf(t),
    ensures
        parse_spec(text_of(t)) == Option::Some(t),
{
    lemma_canonical_text(t);
}

/// A concatenation of three paren-free texts is paren-free.
proof fn lemma_paren_free_cat3(a: Seq<char>, b: Seq<char>, c: Seq<char>)
    requires
        paren_free(a),
        paren_free(b),
        paren_free(c),
    ensures
        paren_free(a + b + c),
{
    let s = a + b + c;
    assert forall|i: int| 0 <= i < s.len() implies #[trigger] s[i] != '(' && s[i] != ')' by {
        if i < a.len() {
            assert(s[i] == a[i]);
        } else if i < a.len() + b.len() {
            assert(s[i] == b[i - a.len()]);
        } else {
            assert(s[i] == c[i - a.len() - b.len()]);
        }
    }
}

/// The decimal text of a nonnegative number is paren-free.
proof fn lemma_nat_paren_free(n: int)
    requires
        n >= 0,
    ensures
        paren_free(nat_text(n)),
        nat_text(n).len() >= 1,
{
    crate::text::lemma_nat_text_digits(n);
    assert forall|i: int| 0 <= i < nat_text(n).len() implies #[trigger] nat_text(n)[i] != '('
        && nat_text(n)[i] != ')' by {
        lemma_digit_char_classes(nat_text(n)[i]);
    }
}
/// The canonical text of a well-formed type parses back to exactly that
/// type: rendering loses nothing, and the renderer's output is a faithful
/// key. The text is also tidy: balanced, and with every comma nested.
pub proof fn lemma_canonical_text(t: TypeV)
    requires
        wf(t),
    ensures
        parse_spec(text_of(t)) == Option::Some(t),
        tidy(text_of(t)),
        text_of(t).len() >= 1,
    decreases t, 0int,
{
    match t {
        TypeV::FixedString(n) => {
            lemma_fixed_string_parses(n);
        },
        TypeV::DateTime(tz) => {
            match tz {
                Option::None => {
                    lemma_zero_arg_names_parse();
                },
                Option::Some(z) => {
                    lemma_datetime_zone_parses(z);
                },
            }
        },
        TypeV::DateTime64(p, tz) => {
            lemma_datetime64_parses(p, tz);
        },
        TypeV::Decimal(p, sc) => {
            lemma_decimal_parses(p, sc);
        },
        TypeV::Enum8(vs) => {
            lemma_enum8_parses(vs);
        },
        TypeV::Enum16(vs) => {
            lemma_enum16_parses(vs);
        },
        TypeV::Nullable(inner) => {
            lemma_canonical_text(*inner);
            lemma_nullable_parses(*inner);
            assert(t == TypeV::Nullable(Box::new(*inner)));
        },
        TypeV::Array(inner) => {
            lemma_canonical_text(*inner);
            lemma_array_parses(*inner);
            assert(t == TypeV::Array(Box::new(*inner)));
        },
        TypeV::Tuple(ts) => {
            lemma_argument_list_parses(ts);
            lemma_tuple_parses(ts);
        },
        TypeV::Dict(k, v) => {
            lemma_canonical_text(*k);
            lemma_canonical_text(*v);
            lemma_map_parses(*k, *v);
            assert(t == TypeV::Dict(Box::new(*k), Box::new(*v)));
        },
        _ => {
            lemma_zero_arg_names_parse();
        },
    }
}

#[verifier::rlimit(100)]
#[verifier::spinoff_prover]
proof fn lemma_fixed_string_parses(n: u32)
    ensures
        parse_spec(text_of(TypeV::FixedString(n))) == Option::Some(TypeV::FixedString(n)),
        tidy(text_of(TypeV::FixedString(n))),
        text_of(TypeV::FixedString(n)).len() >= 1,
{
    reveal_strlit("LowCardinality");
    reveal_strlit("Nullable");
    reveal_strlit("DateTime");
    reveal_strlit("DateTime64");
    reveal_strlit("Enum8");
    reveal_strlit("Enum16");
    reveal_strlit("Decimal");
    reveal_strlit("FixedString");
    reveal_strlit("FixedString(");
    let s = text_of(TypeV::FixedString(n));
    let body = nat_text(n as int);
    lemma_nat_paren_free(n as int);
    lemma_flat_depth(body);
    assert(s == "FixedString("@ + body + ")"@);
    lemma_wrapped_intro(s, "FixedString"@, "FixedString("@, body);
    lemma_tidy_wrap("FixedString("@, body, s);
    lemma_wrapped_not_zero_arg(s);
    lemma_not_wrapped_first(s, "LowCardinality"@);
    lemma_not_wrapped_at(s, "Nullable"@, 0);
    lemma_not_wrapped_at(s, "DateTime"@, 0);
    lemma_not_wrapped_at(s, "DateTime64"@, 0);
    lemma_not_wrapped_at(s, "Enum8"@, 0);
    lemma_not_wrapped_at(s, "Enum16"@, 0);
    lemma_not_wrapped_at(s, "Decimal"@, 0);
    crate::text::lemma_nat_text_digits(n as int);
    lemma_digits_no_sep(body);
    lemma_parse_u32_text(n);
}

#[verifier::rlimit(100)]
#[verifier::spinoff_prover]
proof fn lemma_datetime_zone_parses(z: Seq<char>)
    requires
        paren_free(z),
    ensures
        parse_spec(text_of(TypeV::DateTime(Option::Some(z)))) == Option::Some(
            TypeV::DateTime(Option::Some(z)),
        ),
        tidy(text_of(TypeV::DateTime(Option::Some(z)))),
        text_of(TypeV::DateTime(Option::Some(z))).len() >= 1,
{
    reveal_strlit("LowCardinality");
    reveal_strlit("Nullable");
    reveal_strlit("DateTime");
    reveal_strlit("DateTime(");
    let s = text_of(TypeV::DateTime(Option::Some(z)));
    let body = z;
    lemma_flat_depth(z);
    assert(s == "DateTime("@ + body + ")"@);
    lemma_wrapped_intro(s, "DateTime"@, "DateTime("@, body);
    lemma_tidy_wrap("DateTime("@, body, s);
    lemma_wrapped_not_zero_arg(s);
    lemma_not_wrapped_first(s, "LowCardinality"@);
    lemma_not_wrapped_at(s, "Nullable"@, 0);
}

#[verifier::rlimit(100)]
#[verifier::spinoff_prover]
proof fn lemma_datetime64_parses(p: u32, tz: Option<Seq<char>>)
    requires
        match tz {
            Option::Some(z) => paren_free(z),
            Option::None => true,
        },
    ensures
        parse_spec(text_of(TypeV::DateTime64(p, tz))) == Option::Some(TypeV::DateTime64(p, tz)),
        tidy(text_of(TypeV::DateTime64(p, tz))),
        text_of(TypeV::DateTime64(p, tz)).len() >= 1,
{
    reveal_strlit("LowCardinality");
    reveal_strlit("Nullable");
    reveal_strlit("DateTime");
    reveal_strlit("DateTime64");
    reveal_strlit("DateTime64(");
    let s = text_of(TypeV::DateTime64(p, tz));
    let num = nat_text(p as int);
    lemma_nat_paren_free(p as int);
    crate::text::lemma_nat_text_digits(p as int);
    lemma_parse_u32_text(p);
    match tz {
        Option::None => {
            let body = num;
            lemma_flat_depth(body);
            assert(s == "DateTime64("@ + body + ")"@);
            lemma_wrapped_intro(s, "DateTime64"@, "DateTime64("@, body);
            lemma_tidy_wrap("DateTime64("@, body, s);
            lemma_wrapped_not_zero_arg(s);
            lemma_not_wrapped_first(s, "LowCardinality"@);
            lemma_not_wrapped_at(s, "Nullable"@, 0);
            lemma_not_wrapped_open(s, "DateTime"@);
            lemma_digits_no_sep(body);
        },
        Option::Some(z) => {
            let body = num + args_sep() + z;
            assert(paren_free(args_sep()));
            lemma_paren_free_cat3(num, args_sep(), z);
            assert(paren_free(body));
            lemma_flat_depth(body);
            assert(s == "DateTime64("@ + body + ")"@);
            lemma_wrapped_intro(s, "DateTime64"@, "DateTime64("@, body);
            lemma_tidy_wrap("DateTime64("@, body, s);
            lemma_wrapped_not_zero_arg(s);
            lemma_not_wrapped_first(s, "LowCardinality"@);
            lemma_not_wrapped_at(s, "Nullable"@, 0);
            lemma_not_wrapped_open(s, "DateTime"@);
            let m = num.len() as int;
            assert(body[m] == ',' && body[m + 1] == ' ');
            assert(matches_at(body, args_sep(), m)) by {
                assert(body.subrange(m, m + 2) =~= args_sep());
            }
            assert forall|j: int| 0 <= j < m implies !matches_at(body, args_sep(), j) by {
                if matches_at(body, args_sep(), j) {
                    assert(body.subrange(j, j + 2)[0] == body[j]);
                    assert(body[j] == ',');
                    assert(body[j] == num[j]);
                    lemma_digit_char_classes(num[j]);
                }
            }
            crate::text::lemma_find_at_exact(body, args_sep(), m);
            assert(body.subrange(0, m) =~= num);
            assert(body.subrange(m + 2, body.len() as int) =~= z);
        },
    }
}

#[verifier::rlimit(100)]
#[verifier::spinoff_prover]
proof fn lemma_decimal_parses(p: u32, sc: u32)
    ensures
        parse_spec(text_of(TypeV::Decimal(p, sc))) == Option::Some(TypeV::Decimal(p, sc)),
        tidy(text_of(TypeV::Decimal(p, sc))),
        text_of(TypeV::Decimal(p, sc)).len() >= 1,
{
    reveal_strlit("LowCardinality");
    reveal_strlit("Nullable");
    reveal_strlit("DateTime");
    reveal_strlit("DateTime64");
    reveal_strlit("Enum8");
    reveal_strlit("Enum16");
    reveal_strlit("Decimal");
    reveal_strlit("Decimal(");
    let s = text_of(TypeV::Decimal(p, sc));
    let n1 = nat_text(p as int);
    let n2 = nat_text(sc as int);
    lemma_nat_paren_free(p as int);
    lemma_nat_paren_free(sc as int);
    crate::text::lemma_nat_text_digits(p as int);
    crate::text::lemma_nat_text_digits(sc as int);
    lemma_parse_u32_text(p);
    lemma_parse_u32_text(sc);
    let body = n1 + args_sep() + n2;
    assert(paren_free(args_sep()));
    lemma_paren_free_cat3(n1, args_sep(), n2);
    lemma_flat_depth(body);
    assert(s == "Decimal("@ + body + ")"@);
    lemma_wrapped_intro(s, "Decimal"@, "Decimal("@, body);
    lemma_tidy_wrap("Decimal("@, body, s);
    lemma_wrapped_not_zero_arg(s);
    lemma_not_wrapped_first(s, "LowCardinality"@);
    lemma_not_wrapped_at(s, "Nullable"@, 0);
    lemma_not_wrapped_at(s, "DateTime"@, 1);
    lemma_not_wrapped_at(s, "DateTime64"@, 1);
    lemma_not_wrapped_at(s, "Enum8"@, 0);
    lemma_not_wrapped_at(s, "Enum16"@, 0);
    let m = n1.len() as int;
    assert(body[m] == ',' && body[m + 1] == ' ');
    assert(matches_at(body, args_sep(), m)) by {
        assert(body.subrange(m, m + 2) =~= args_sep());
    }
    assert forall|j: int| 0 <= j < m implies !matches_at(body, args_sep(), j) by {
        if matches_at(body, args_sep(), j) {
            assert(body.subrange(j, j + 2)[0] == body[j]);
            assert(body[j] == ',');
            assert(body[j] == n1[j]);
            lemma_digit_char_classes(n1[j]);
        }
    }
    crate::text::lemma_find_at_exact(body, args_sep(), m);
    assert(body.subrange(0, m) =~= n1);
    assert(body.subrange(m + 2, body.len() as int) =~= n2);
}

#[verifier::rlimit(100)]
#[verifier::spinoff_prover]
proof fn lemma_enum8_parses(vs: Seq<(Seq<char>, i32)>)
    requires
        vs.len() > 0,
        forall|i: int| 0 <= i < vs.len() ==> label_ok((#[trigger] vs[i]).0),
    ensures
        parse_spec(text_of(TypeV::Enum8(vs))) == Option::Some(TypeV::Enum8(vs)),
        tidy(text_of(TypeV::Enum8(vs))),
        text_of(TypeV::Enum8(vs)).len() >= 1,
{
    reveal_strlit("LowCardinality");
    reveal_strlit("Nullable");
    reveal_strlit("DateTime");
    reveal_strlit("DateTime64");
    reveal_strlit("Enum8");
    reveal_strlit("Enum8(");
    let s = text_of(TypeV::Enum8(vs));
    lemma_variant_list_parses(vs);
    let body = kvs_text(vs);
    lemma_flat_depth(body);
    assert(s == "Enum8("@ + body + ")"@);
    lemma_wrapped_intro(s, "Enum8"@, "Enum8("@, body);
    lemma_tidy_wrap("Enum8("@, body, s);
    lemma_wrapped_not_zero_arg(s);
    lemma_not_wrapped_first(s, "LowCardinality"@);
    lemma_not_wrapped_at(s, "Nullable"@, 0);
    lemma_not_wrapped_at(s, "DateTime"@, 0);
    lemma_not_wrapped_at(s, "DateTime64"@, 0);
}

#[verifier::rlimit(100)]
#[verifier::spinoff_prover]
proof fn lemma_enum16_shape(vs: Seq<(Seq<char>, i32)>)
    requires
        vs.len() > 0,
        forall|i: int| 0 <= i < vs.len() ==> label_ok((#[trigger] vs[i]).0),
    ensures
        tidy(text_of(TypeV::Enum16(vs))),
        text_of(TypeV::Enum16(vs)).len() >= 1,
        wrapped_by(text_of(TypeV::Enum16(vs)), "Enum16"@),
        inner_of(text_of(TypeV::Enum16(vs)), "Enum16"@) == kvs_text(vs),
        text_of(TypeV::Enum16(vs)).last() == ')',
        text_of(TypeV::Enum16(vs))[0] == 'E',
        text_of(TypeV::Enum16(vs))[4] == '1',
{
    reveal_strlit("Enum16");
    reveal_strlit("Enum16(");
    let s = text_of(TypeV::Enum16(vs));
    lemma_variant_list_parses(vs);
    let body = kvs_text(vs);
    lemma_flat_depth(body);
    assert(s == "Enum16("@ + body + ")"@);
    lemma_wrapped_intro(s, "Enum16"@, "Enum16("@, body);
    lemma_tidy_wrap("Enum16("@, body, s);
    assert(s[0] == "Enum16("@[0]);
    assert(s[4] == "Enum16("@[4]);
}

#[verifier::rlimit(100)]
#[verifier::spinoff_prover]
proof fn lemma_parse_body_enum16_branch(s: Seq<char>)
    requires
        s.len() > 0,
        s.last() == ')',
        s[0] == 'E',
        4 < s.len(),
        s[4] == '1',
        wrapped_by(s, "Enum16"@),
    ensures
        parse_spec(s) == parse_body(s),
        parse_body(s) == (match parse_kvs(inner_of(s, "Enum16"@)) {
            Option::Some(vs) => Option::Some(TypeV::Enum16(vs)),
            Option::None => Option::None,
        }),
{
    reveal_strlit("LowCardinality");
    reveal_strlit("Nullable");
    reveal_strlit("DateTime");
    reveal_strlit("DateTime64");
    reveal_strlit("Enum8");
    reveal_strlit("Enum16");
    lemma_wrapped_not_zero_arg(s);
    lemma_not_wrapped_first(s, "LowCardinality"@);
    lemma_not_wrapped_at(s, "Nullable"@, 0);
    lemma_not_wrapped_at(s, "DateTime"@, 0);
    lemma_not_wrapped_at(s, "DateTime64"@, 0);
    lemma_not_wrapped_at(s, "Enum8"@, 4);
}

#[verifier::rlimit(100)]
#[verifier::spinoff_prover]
proof fn lemma_enum16_parses(vs: Seq<(Seq<char>, i32)>)
    requires
        vs.len() > 0,
        forall|i: int| 0 <= i < vs.len() ==> label_ok((#[trigger] vs[i]).0),
    ensures
        parse_spec(text_of(TypeV::Enum16(vs))) == Option::Some(TypeV::Enum16(vs)),
        tidy(text_of(TypeV::Enum16(vs))),
        text_of(TypeV::Enum16(vs)).len() >= 1,
{
    let s = text_of(TypeV::Enum16(vs));
    lemma_enum16_shape(vs);
    lemma_variant_list_parses(vs);
    lemma_parse_body_enum16_branch(s);
}

#[verifier::rlimit(100)]
#[verifier::spinoff_prover]
proof fn lemma_nullable_parses(inner: TypeV)
    requires
        parse_spec(text_of(inner)) == Option::Some(inner),
        tidy(text_of(inner)),
        text_of(inner).len() >= 1,
    ensures
        parse_spec(text_of(TypeV::Nullable(Box::new(inner)))) == Option::Some(
            TypeV::Nullable(Box::new(inner)),
        ),
        tidy(text_of(TypeV::Nullable(Box::new(inner)))),
        text_of(TypeV::Nullable(Box::new(inner))).len() >= 1,
{
    reveal_strlit("LowCardinality");
    reveal_strlit("Nullable");
    reveal_strlit("Nullable(");
    let s = text_of(TypeV::Nullable(Box::new(inner)));
    let body = text_of(inner);
    assert(s == "Nullable("@ + body + ")"@);
    lemma_wrapped_intro(s, "Nullable"@, "Nullable("@, body);
    lemma_tidy_wrap("Nullable("@, body, s);
    lemma_wrapped_not_zero_arg(s);
    lemma_not_wrapped_first(s, "LowCardinality"@);
}

#[verifier::rlimit(100)]
#[verifier::spinoff_prover]
proof fn lemma_array_parses(inner: TypeV)
    requires
        parse_spec(text_of(inner)) == Option::Some(inner),
        tidy(text_of(inner)),
        text_of(inner).len() >= 1,
    ensures
        parse_spec(text_of(TypeV::Array(Box::new(inner)))) == Option::Some(
            TypeV::Array(Box::new(inner)),
        ),
        tidy(text_of(TypeV::Array(Box::new(inner)))),
        text_of(TypeV::Array(Box::new(inner))).len() >= 1,
{
    reveal_strlit("LowCardinality");
    reveal_strlit("Nullable");
    reveal_strlit("DateTime");
    reveal_strlit("DateTime64");
    reveal_strlit("Enum8");
    reveal_strlit("Enum16");
    reveal_strlit("Decimal");
    reveal_strlit("FixedString");
    reveal_strlit("Array");
    reveal_strlit("Array(");
    let s = text_of(TypeV::Array(Box::new(inner)));
    let body = text_of(inner);
    assert(s == "Array("@ + body + ")"@);
    lemma_wrapped_intro(s, "Array"@, "Array("@, body);
    lemma_tidy_wrap("Array("@, body, s);
    lemma_wrapped_not_zero_arg(s);
    lemma_not_wrapped_first(s, "LowCardinality"@);
    lemma_not_wrapped_at(s, "Nullable"@, 0);
    lemma_not_wrapped_at(s, "DateTime"@, 0);
    lemma_not_wrapped_at(s, "DateTime64"@, 0);
    lemma_not_wrapped_at(s, "Enum8"@, 0);
    lemma_not_wrapped_at(s, "Enum16"@, 0);
    lemma_not_wrapped_at(s, "Decimal"@, 0);
    lemma_not_wrapped_at(s, "FixedString"@, 0);
}

#[verifier::rlimit(100)]
#[verifier::spinoff_prover]
proof fn lemma_tuple_parses(ts: Seq<TypeV>)
    requires
        parse_args(args_text(ts)) == Option::Some(ts),
        nonneg_depth(args_text(ts)),
        closed_depth(args_text(ts)),
        args_text(ts).len() >= 1,
    ensures
        parse_spec(text_of(TypeV::Tuple(ts))) == Option::Some(TypeV::Tuple(ts)),
        tidy(text_of(TypeV::Tuple(ts))),
        text_of(TypeV::Tuple(ts)).len() >= 1,
{
    reveal_strlit("LowCardinality");
    reveal_strlit("Nullable");
    reveal_strlit("DateTime");
    reveal_strlit("DateTime64");
    reveal_strlit("Enum8");
    reveal_strlit("Enum16");
    reveal_strlit("Decimal");
    reveal_strlit("FixedString");
    reveal_strlit("Array");
    reveal_strlit("Tuple");
    reveal_strlit("Tuple(");
    let s = text_of(TypeV::Tuple(ts));
    let body = args_text(ts);
    assert(s == "Tuple("@ + body + ")"@);
    lemma_wrapped_intro(s, "Tuple"@, "Tuple("@, body);
    lemma_tidy_wrap("Tuple("@, body, s);
    lemma_wrapped_not_zero_arg(s);
    lemma_not_wrapped_first(s, "LowCardinality"@);
    lemma_not_wrapped_at(s, "Nullable"@, 0);
    lemma_not_wrapped_at(s, "DateTime"@, 0);
    lemma_not_wrapped_at(s, "DateTime64"@, 0);
    lemma_not_wrapped_at(s, "Enum8"@, 0);
    lemma_not_wrapped_at(s, "Enum16"@, 0);
    lemma_not_wrapped_at(s, "Decimal"@, 0);
    lemma_not_wrapped_at(s, "FixedString"@, 0);
    lemma_not_wrapped_at(s, "Array"@, 0);
}


/// Joining two tidy nonempty texts with the argument separator: the first
/// depth-zero separator of the join stands exactly between them.
proof fn lemma_sep_split(x: Seq<char>, y: Seq<char>, body: Seq<char>)
    requires
        tidy(x),
        x.len() >= 1,
        nonneg_depth(y),
        closed_depth(y),
        y.len() >= 1,
        body == x + args_sep() + y,
    ensures
        nonneg_depth(body),
        closed_depth(body),
        first_sep_from(body, 0, 0) == x.len() as int,
        body.subrange(0, x.len() as int) == x,
        body.subrange(x.len() + 2int, body.len() as int) == y,
        body.len() == x.len() + 2 + y.len(),
{
    lemma_depth_cat_sep(x, y, body);
    let m = x.len() as int;
    assert forall|j: int| 0 <= j < m implies !sep_trigger(body, j) by {
        assert(pd(body, j) == pd(x, j));
        if pd(x, j) == 0 {
            assert(body[j] == x[j]);
        }
    }
    assert(pd(body, m) == pd(x, m));
    assert(body[m] == ',' && body[m + 1] == ' ');
    assert(m + 1 < body.len());
    crate::text::lemma_fsf_at(body, m);
    assert(body.subrange(0, m) =~= x);
    assert(body.subrange(m + 2, body.len() as int) =~= y);
}

#[verifier::rlimit(100)]
#[verifier::spinoff_prover]
proof fn lemma_map_shape(k: TypeV, v: TypeV)
    requires
        tidy(text_of(k)),
        text_of(k).len() >= 1,
        tidy(text_of(v)),
        text_of(v).len() >= 1,
    ensures
        tidy(text_of(TypeV::Dict(Box::new(k), Box::new(v)))),
        text_of(TypeV::Dict(Box::new(k), Box::new(v))).len() >= 1,
        wrapped_by(text_of(TypeV::Dict(Box::new(k), Box::new(v))), "Map"@),
        inner_of(text_of(TypeV::Dict(Box::new(k), Box::new(v))), "Map"@) == text_of(k)
            + args_sep() + text_of(v),
        text_of(TypeV::Dict(Box::new(k), Box::new(v))).last() == ')',
        text_of(TypeV::Dict(Box::new(k), Box::new(v)))[0] == 'M',
{
    reveal_strlit("Map");
    reveal_strlit("Map(");
    let s = text_of(TypeV::Dict(Box::new(k), Box::new(v)));
    let x = text_of(k);
    let y = text_of(v);
    let body = x + args_sep() + y;
    lemma_depth_cat_sep(x, y, body);
    assert(s == "Map("@ + body + ")"@);
    lemma_wrapped_intro(s, "Map"@, "Map("@, body);
    lemma_tidy_wrap("Map("@, body, s);
    assert(s[0] == "Map("@[0]);
}

#[verifier::rlimit(100)]
#[verifier::spinoff_prover]
proof fn lemma_parse_body_map_branch(s: Seq<char>)
    requires
        s.len() > 0,
        s.last() == ')',
        s[0] == 'M',
        wrapped_by(s, "Map"@),
    ensures
        parse_spec(s) == parse_body(s),
        parse_body(s) == ({
            let t = inner_of(s, "Map"@);
            let j = first_sep_from(t, 0, 0);
            if 0 <= j && j + 2 <= t.len() {
                match parse_spec(t.subrange(0, j)) {
                    Option::Some(kk) => match parse_spec(t.subrange(j + 2, t.len() as int)) {
                        Option::Some(vv) => Option::Some(
                            TypeV::Dict(Box::new(kk), Box::new(vv)),
                        ),
                        Option::None => Option::None,
                    },
                    Option::None => Option::None,
                }
            } else {
                Option::None
            }
        }),
{
    reveal_strlit("LowCardinality");
    reveal_strlit("Nullable");
    reveal_strlit("DateTime");
    reveal_strlit("DateTime64");
    reveal_strlit("Enum8");
    reveal_strlit("Enum16");
    reveal_strlit("Decimal");
    reveal_strlit("FixedString");
    reveal_strlit("Array");
    reveal_strlit("Tuple");
    reveal_strlit("Map");
    lemma_wrapped_not_zero_arg(s);
    lemma_not_wrapped_first(s, "LowCardinality"@);
    lemma_not_wrapped_at(s, "Nullable"@, 0);
    lemma_not_wrapped_at(s, "DateTime"@, 0);
    lemma_not_wrapped_at(s, "DateTime64"@, 0);
    lemma_not_wrapped_at(s, "Enum8"@, 0);
    lemma_not_wrapped_at(s, "Enum16"@, 0);
    lemma_not_wrapped_at(s, "Decimal"@, 0);
    lemma_not_wrapped_at(s, "FixedString"@, 0);
    lemma_not_wrapped_at(s, "Array"@, 0);
    lemma_not_wrapped_at(s, "Tuple"@, 0);
}

#[verifier::rlimit(100)]
#[verifier::spinoff_prover]
proof fn lemma_map_parses(k: TypeV, v: TypeV)
    requires
        parse_spec(text_of(k)) == Option::Some(k),
        tidy(text_of(k)),
        text_of(k).len() >= 1,
        parse_spec(text_of(v)) == Option::Some(v),
        tidy(text_of(v)),
        text_of(v).len() >= 1,
    ensures
        parse_spec(text_of(TypeV::Dict(Box::new(k), Box::new(v)))) == Option::Some(
            TypeV::Dict(Box::new(k), Box::new(v)),
        ),
        tidy(text_of(TypeV::Dict(Box::new(k), Box::new(v)))),
        text_of(TypeV::Dict(Box::new(k), Box::new(v))).len() >= 1,
{
    let s = text_of(TypeV::Dict(Box::new(k), Box::new(v)));
    let x = text_of(k);
    let y = text_of(v);
    let body = x + args_sep() + y;
    lemma_map_shape(k, v);
    lemma_sep_split(x, y, body);
    lemma_parse_body_map_branch(s);
    assert(inner_of(s, "Map"@) == body);
    assert(first_sep_from(body, 0, 0) == x.len() as int);
    assert(body.subrange(0, x.len() as int) == x);
    assert(body.subrange(x.len() + 2int, body.len() as int) == y);
}

/// A rendered nonempty argument list of well-formed types parses back to
/// exactly those types, and its parentheses are balanced.
#[verifier::rlimit(100)]
#[verifier::spinoff_prover]
proof fn lemma_argument_list_parses(ts: Seq<TypeV>)
    requires
        ts.len() > 0,
        forall|i: int| 0 <= i < ts.len() ==> wf(#[trigger] ts[i]),
    ensures
        parse_args(args_text(ts)) == Option::Some(ts),
        nonneg_depth(args_text(ts)),
        closed_depth(args_text(ts)),
        args_text(ts).len() >= 1,
    decreases ts, 0int,
{
    let s = args_text(ts);
    lemma_canonical_text(ts[0]);
    let x = text_of(ts[0]);
    if ts.len() == 1 {
        assert(s == x);
        assert forall|j: int| 0 <= j < s.len() implies !sep_trigger(s, j) by {
            if pd(s, j) == 0 {
                assert(s[j] != ',');
            }
        }
        crate::text::lemma_fsf_none(s);
        assert(ts =~= seq![ts[0]]);
    } else {
        let y = args_text(ts.drop_first());
        assert(s == x + args_sep() + y);
        assert forall|i: int| 0 <= i < ts.drop_first().len() implies wf(
            #[trigger] ts.drop_first()[i],
        ) by {
            assert(ts.drop_first()[i] == ts[i + 1]);
        }
        lemma_argument_list_parses(ts.drop_first());
        lemma_depth_cat_sep(x, y, s);
        let m = x.len() as int;
        assert forall|j: int| 0 <= j < m implies !sep_trigger(s, j) by {
            assert(pd(s, j) == pd(x, j));
            if pd(x, j) == 0 {
                assert(s[j] == x[j]);
            }
        }
        assert(pd(s, m) == pd(x, m));
        assert(s[m] == ',' && s[m + 1] == ' ');
        assert(m + 1 < s.len());
        crate::text::lemma_fsf_at(s, m);
        assert(s.subrange(0, m) =~= x);
        assert(s.subrange(m + 2, s.len() as int) =~= y);
        assert(seq![ts[0]] + ts.drop_first() =~= ts);
    }
}

} // verus!
