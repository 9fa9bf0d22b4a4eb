//! The configuration a generation run is driven by: connection details,
//! the table to read, and the operator's overrides.

use crate::parse::{parse_spec, ParseError};
use crate::schema::{view_of, SqlType, TypeV};
use crate::text::find_at;
use vstd::prelude::*;
use vstd::string::StrSliceExecFns;
use vstd::string::StringExecFns;

verus! {

/// Everything one invocation is configured by.
#[derive(Debug)]
pub struct Options {
    /// The server's URL.
    pub url: String,
    pub user: Option<String>,
    pub password: Option<String>,
    /// The database the table lives in.
    pub database: String,
    /// The table's name.
    pub table: String,
    /// Derive serialization on the generated declarations.
    pub serialize: bool,
    /// Derive deserialization on the generated declarations.
    pub deserialize: bool,
    /// Generate only owned types.
    pub owned: bool,
    /// Overrides keyed by type signature.
    pub types: Vec<Type>,
    /// Overrides keyed by column name.
    pub overrides: Vec<Override>,
    /// Columns whose fields are serialized as byte buffers.
    pub bytes: Vec<String>,
}

/// An override keyed by a type signature: any column of type `sql` gets the
/// output type `type_`.
#[derive(Debug)]
pub struct Type {
    pub sql: SqlType,
    pub type_: String,
}

/// An override keyed by a column name: the column `column` gets the output
/// type `type_`.
#[derive(Debug)]
pub struct Override {
    pub column: String,
    pub type_: String,
}

/// What a `<type>=<output>` override string denotes: the type shape to the
/// left of the first `=`, and the literal output text to its right.
pub open spec fn type_override_spec(s: Seq<char>) -> Option<(TypeV, Seq<char>)> {
    let j = find_at(s, seq!['='], 0);
    if 0 <= j && j + 1 <= s.len() {
        match parse_spec(s.subrange(0, j)) {
            Option::Some(tv) => Option::Some((tv, s.subrange(j + 1, s.len() as int))),
            Option::None => Option::None,
        }
    } else {
        Option::None
    }
}

/// What a `<column>=<output>` override string denotes.
pub open spec fn override_spec(s: Seq<char>) -> Option<(Seq<char>, Seq<char>)> {
    let j = find_at(s, seq!['='], 0);
    if 0 <= j && j + 1 <= s.len() {
        Option::Some((s.subrange(0, j), s.subrange(j + 1, s.len() as int)))
    } else {
        Option::None
    }
}

/// Reads a `<type-grammar>=<output-type>` override.
pub fn parse_type(s: &str) -> (r: Result<Type, ParseError>)
    ensures
        match r {
            Result::Ok(t) => type_override_spec(s@) == Option::Some((view_of(t.sql), t.type_@)),
            Result::Err(_) => type_override_spec(s@) is None,
        },
{
    proof {
        reveal_strlit("=");
        assert("="@ =~= seq!['=']);
    }
    let n = s.unicode_len();
    match crate::text::find_from(s, "=", 0) {
        Option::Some(j) => {
            let head = s.substring_char(0, j);
            let tail = s.substring_char(j + 1, n);
            match crate::parse::parse_type(head) {
                Result::Ok(sql) => Result::Ok(Type { sql, type_: tail.to_owned() }),
                Result::Err(e) => Result::Err(e),
            }
        },
        Option::None => Result::Err(
            ParseError { raw: s.to_owned(), detail: "invalid key-value".to_owned() },
        ),
    }
}

/// Reads a `<column>=<output-type>` override.
pub fn parse_override(s: &str) -> (r: Result<Override, ParseError>)
    ensures
        match r {
            Result::Ok(o) => override_spec(s@) == Option::Some((o.column@, o.type_@)),
            Result::Err(_) => override_spec(s@) is None,
        },
{
    proof {
        reveal_strlit("=");
        assert("="@ =~= seq!['=']);
    }
    let n = s.unicode_len();
    match crate::text::find_from(s, "=", 0) {
        Option::Some(j) => {
            let head = s.substring_char(0, j);
            let tail = s.substring_char(j + 1, n);
            Result::Ok(Override { column: head.to_owned(), type_: tail.to_owned() })
        },
        Option::None => Result::Err(
            ParseError { raw: s.to_owned(), detail: "invalid key-value".to_owned() },
        ),
    }
}

/// The header key of a type-signature override: the type's canonical text,
/// then the output text.
pub open spec fn type_pair(t: Type) -> (Seq<char>, Seq<char>) {
    (crate::schema::text_of(view_of(t.sql)), t.type_@)
}

/// The header keys of all type-signature overrides.
pub open spec fn type_pairs(ts: Seq<Type>) -> Seq<(Seq<char>, Seq<char>)> {
    ts.map_values(|t: Type| type_pair(t))
}

/// The header keys of all column-name overrides.
pub open spec fn override_pairs(os: Seq<Override>) -> Seq<(Seq<char>, Seq<char>)> {
    os.map_values(|o: Override| (o.column@, o.type_@))
}

/// The header keys of all byte-marked columns.
pub open spec fn bytes_pairs(bs: Seq<String>) -> Seq<(Seq<char>, Seq<char>)> {
    bs.map_values(|b: String| (b@, Seq::<char>::empty()))
}

/// One `-T` line of the header.
pub open spec fn t_line(p: (Seq<char>, Seq<char>)) -> Seq<char> {
    "    -T '"@ + p.0 + seq!['='] + p.1 + "' \\\n"@
}

/// One `-O` line of the header.
pub open spec fn o_line(p: (Seq<char>, Seq<char>)) -> Seq<char> {
    "    -O '"@ + p.0 + seq!['='] + p.1 + "' \\\n"@
}

/// One `-B` line of the header.
pub open spec fn b_line(p: (Seq<char>, Seq<char>)) -> Seq<char> {
    "    -B '"@ + p.0 + "' \\\n"@
}

/// The `-T` lines of the given entries, in order.
pub open spec fn t_lines(ps: Seq<(Seq<char>, Seq<char>)>) -> Seq<char>
    decreases ps.len(),
{
    if ps.len() == 0 {
        Seq::empty()
    } else {
        t_line(ps[0]) + t_lines(ps.drop_first())
    }
}

/// The `-O` lines of the given entries, in order.
pub open spec fn o_lines(ps: Seq<(Seq<char>, Seq<char>)>) -> Seq<char>
    decreases ps.len(),
{
    if ps.len() == 0 {
        Seq::empty()
    } else {
        o_line(ps[0]) + o_lines(ps.drop_first())
    }
}

/// The `-B` lines of the given entries, in order.
pub open spec fn b_lines(ps: Seq<(Seq<char>, Seq<char>)>) -> Seq<char>
    decreases ps.len(),
{
    if ps.len() == 0 {
        Seq::empty()
    } else {
        b_line(ps[0]) + b_lines(ps.drop_first())
    }
}

/// The first line of the rendered configuration: the invocation name, the
/// table, and the scalar flags.
pub open spec fn head_text(o: Options) -> Seq<char> {
    "ch2rs "@ + o.table@ + (if o.database@ != "default"@ {
        " -d "@ + o.database@
    } else {
        Seq::<char>::empty()
    }) + (if o.serialize {
        " -S"@
    } else {
        Seq::<char>::empty()
    }) + (if o.deserialize {
        " -D"@
    } else {
        Seq::<char>::empty()
    }) + (if o.owned {
        " --owned"@
    } else {
        Seq::<char>::empty()
    }) + " \\\n"@
}

/// The whole rendered configuration: the head line, then each override
/// family sorted into its canonical order, with trailing continuation
/// characters trimmed. Two configurations holding the same overrides render
/// identically, however the overrides were ordered.
pub open spec fn format_text(o: Options) -> Seq<char> {
    crate::text::trim_end_cont(
        head_text(o) + t_lines(type_pairs(o.types@).sort_by(crate::lex::pair_le_fn())) + o_lines(
            override_pairs(o.overrides@).sort_by(crate::lex::pair_le_fn()),
        ) + b_lines(bytes_pairs(o.bytes@).sort_by(crate::lex::pair_le_fn())),
    )
}

fn type_pairs_exec(ts: &Vec<Type>) -> (r: Vec<(String, String)>)
    ensures
        crate::lex::pviews(r@) == type_pairs(ts@),
{
    let mut out: Vec<(String, String)> = Vec::new();
    let n = ts.len();
    let mut i: usize = 0;
    while i < n
        invariant
            n == ts@.len(),
            0 <= i <= n,
            out@.len() == i,
            forall|j: int| 0 <= j < i ==> (#[trigger] out@[j]).0@ == type_pair(ts@[j]).0
                && out@[j].1@ == type_pair(ts@[j]).1,
        decreases n - i,
    {
        let t = &ts[i];
        let key = t.sql.text();
        let val = t.type_.clone();
        out.push((key, val));
        i = i + 1;
    }
    proof {
        assert(crate::lex::pviews(out@) =~= type_pairs(ts@));
    }
    out
}

fn override_pairs_exec(os: &Vec<Override>) -> (r: Vec<(String, String)>)
    ensures
        crate::lex::pviews(r@) == override_pairs(os@),
{
    let mut out: Vec<(String, String)> = Vec::new();
    let n = os.len();
    let mut i: usize = 0;
    while i < n
        invariant
            n == os@.len(),
            0 <= i <= n,
            out@.len() == i,
            forall|j: int| 0 <= j < i ==> (#[trigger] out@[j]).0@ == os@[j].column@ && out@[j].1@
                == os@[j].type_@,
        decreases n - i,
    {
        let o = &os[i];
        out.push((o.column.clone(), o.type_.clone()));
        i = i + 1;
    }
    proof {
        assert(crate::lex::pviews(out@) =~= override_pairs(os@));
    }
    out
}

fn bytes_pairs_exec(bs: &Vec<String>) -> (r: Vec<(String, String)>)
    ensures
        crate::lex::pviews(r@) == bytes_pairs(bs@),
{
    let mut out: Vec<(String, String)> = Vec::new();
    let n = bs.len();
    let mut i: usize = 0;
    while i < n
        invariant
            n == bs@.len(),
            0 <= i <= n,
            out@.len() == i,
            forall|j: int| 0 <= j < i ==> (#[trigger] out@[j]).0@ == bs@[j]@ && out@[j].1@
                == Seq::<char>::empty(),
        decreases n - i,
    {
        out.push((bs[i].clone(), String::new()));
        i = i + 1;
    }
    proof {
        assert(crate::lex::pviews(out@) =~= bytes_pairs(bs@));
    }
    out
}

fn t_lines_exec(v: &Vec<(String, String)>, from: usize) -> (r: String)
    requires
        from <= v@.len(),
    ensures
        r@ == t_lines(crate::lex::pviews(v@).skip(from as int)),
    decreases v@.len() - from,
{
    let ghost ps = crate::lex::pviews(v@).skip(from as int);
    if from == v.len() {
        String::new()
    } else {
        let p = &v[from];
        let mut s = "    -T '".to_owned();
        s.append(p.0.as_str());
        s.append("=");
        s.append(p.1.as_str());
        s.append("' \\\n");
        let rest = t_lines_exec(v, from + 1);
        s.append(rest.as_str());
        proof {
            reveal_strlit("=");
            assert(ps[0] == (v@[from as int].0@, v@[from as int].1@));
            assert(ps.drop_first() =~= crate::lex::pviews(v@).skip(from as int + 1));
            assert(s@ =~= t_lines(ps));
        }
        s
    }
}

fn o_lines_exec(v: &Vec<(String, String)>, from: usize) -> (r: String)
    requires
        from <= v@.len(),
    ensures
        r@ == o_lines(crate::lex::pviews(v@).skip(from as int)),
    decreases v@.len() - from,
{
    let ghost ps = crate::lex::pviews(v@).skip(from as int);
    if from == v.len() {
        String::new()
    } else {
        let p = &v[from];
        let mut s = "    -O '".to_owned();
        s.append(p.0.as_str());
        s.append("=");
        s.append(p.1.as_str());
        s.append("' \\\n");
        let rest = o_lines_exec(v, from + 1);
        s.append(rest.as_str());
        proof {
            reveal_strlit("=");
            assert(ps[0] == (v@[from as int].0@, v@[from as int].1@));
            assert(ps.drop_first() =~= crate::lex::pviews(v@).skip(from as int + 1));
            assert(s@ =~= o_lines(ps));
        }
        s
    }
}

fn b_lines_exec(v: &Vec<(String, String)>, from: usize) -> (r: String)
    requires
        from <= v@.len(),
    ensures
        r@ == b_lines(crate::lex::pviews(v@).skip(from as int)),
    decreases v@.len() - from,
{
    let ghost ps = crate::lex::pviews(v@).skip(from as int);
    if from == v.len() {
        String::new()
    } else {
        let p = &v[from];
        let mut s = "    -B '".to_owned();
        s.append(p.0.as_str());
        s.append("' \\\n");
        let rest = b_lines_exec(v, from + 1);
        s.append(rest.as_str());
        proof {
            assert(ps[0] == (v@[from as int].0@, v@[from as int].1@));
            assert(ps.drop_first() =~= crate::lex::pviews(v@).skip(from as int + 1));
            assert(s@ =~= b_lines(ps));
        }
        s
    }
}

impl Options {
    /// Renders the configuration that drives a run, each override family in
    /// its canonical order.
    pub fn format(&self) -> (r: String)
        ensures
            r@ == format_text(*self),
    {
        let mut s = "ch2rs ".to_owned();
        s.append(self.table.as_str());
        if !crate::text::str_eq(self.database.as_str(), "default") {
            s.append(" -d ");
            s.append(self.database.as_str());
        }
        if self.serialize {
            s.append(" -S");
        }
        if self.deserialize {
            s.append(" -D");
        }
        if self.owned {
            s.append(" --owned");
        }
        s.append(" \\\n");
        proof {
            assert(s@ =~= head_text(*self));
        }
        let sorted_t = crate::lex::sort_pairs(type_pairs_exec(&self.types));
        let tl = t_lines_exec(&sorted_t, 0);
        s.append(tl.as_str());
        let sorted_o = crate::lex::sort_pairs(override_pairs_exec(&self.overrides));
        let ol = o_lines_exec(&sorted_o, 0);
        s.append(ol.as_str());
        let sorted_b = crate::lex::sort_pairs(bytes_pairs_exec(&self.bytes));
        let bl = b_lines_exec(&sorted_b, 0);
        s.append(bl.as_str());
        proof {
            assert(crate::lex::pviews(sorted_t@).skip(0) =~= crate::lex::pviews(sorted_t@));
            assert(crate::lex::pviews(sorted_o@).skip(0) =~= crate::lex::pviews(sorted_o@));
            assert(crate::lex::pviews(sorted_b@).skip(0) =~= crate::lex::pviews(sorted_b@));
            assert(s@ =~= head_text(*self) + t_lines(
                type_pairs(self.types@).sort_by(crate::lex::pair_le_fn()),
            ) + o_lines(override_pairs(self.overrides@).sort_by(crate::lex::pair_le_fn()))
                + b_lines(bytes_pairs(self.bytes@).sort_by(crate::lex::pair_le_fn())));
        }
        crate::text::trim_end_cont_exec(s.as_str())
    }
}

/// Two configurations with the same scalar settings and the same override
/// multisets render byte-identical header text, however their override
/// lists were ordered.
pub proof fn lemma_format_deterministic(a: Options, b: Options)
    requires
        a.table@ == b.table@,
        a.database@ == b.database@,
        a.serialize == b.serialize,
        a.deserialize == b.deserialize,
        a.owned == b.owned,
        type_pairs(a.types@).to_multiset() == type_pairs(b.types@).to_multiset(),
        override_pairs(a.overrides@).to_multiset() == override_pairs(b.overrides@).to_multiset(),
        bytes_pairs(a.bytes@).to_multiset() == bytes_pairs(b.bytes@).to_multiset(),
    ensures
        format_text(a) == format_text(b),
{
    crate::lex::lemma_pair_le_total();
    let le = crate::lex::pair_le_fn();
    type_pairs(a.types@).lemma_sort_by_ensures(le);
    type_pairs(b.types@).lemma_sort_by_ensures(le);
    vstd::seq_lib::lemma_sorted_unique(
        type_pairs(a.types@).sort_by(le),
        type_pairs(b.types@).sort_by(le),
        le,
    );
    override_pairs(a.overrides@).lemma_sort_by_ensures(le);
    override_pairs(b.overrides@).lemma_sort_by_ensures(le);
    vstd::seq_lib::lemma_sorted_unique(
        override_pairs(a.overrides@).sort_by(le),
        override_pairs(b.overrides@).sort_by(le),
        le,
    );
    bytes_pairs(a.bytes@).lemma_sort_by_ensures(le);
    bytes_pairs(b.bytes@).lemma_sort_by_ensures(le);
    vstd::seq_lib::lemma_sorted_unique(
        bytes_pairs(a.bytes@).sort_by(le),
        bytes_pairs(b.bytes@).sort_by(le),
        le,
    );
    assert(head_text(a) == head_text(b));
}

} // verus!
