//! Verified utilities over character sequences: searching, splitting,
//! numeric parsing and rendering, and trimming. Everything in this module is
//! stated over `Seq<char>` views and proved against those statements.

use vstd::prelude::*;
use vstd::string::StrSliceExecFns;
use vstd::string::StringExecFns;

verus! {

/// The argument separator of the type grammar: a comma and a space.
pub open spec fn args_sep() -> Seq<char> {
    seq![',', ' ']
}

/// Whether `pat` occurs in `s` starting at index `i`.
pub open spec fn matches_at(s: Seq<char>, pat: Seq<char>, i: int) -> bool {
    0 <= i && i + pat.len() <= s.len() && s.subrange(i, i + pat.len() as int) == pat
}

/// The first index at or after `i` where `pat` occurs in `s`, or -1.
pub open spec fn find_at(s: Seq<char>, pat: Seq<char>, i: int) -> int
    decreases s.len() - i + 1,
{
    if i < 0 || i + pat.len() > s.len() {
        -1
    } else if s.subrange(i, i + pat.len() as int) == pat {
        i
    } else {
        find_at(s, pat, i + 1)
    }
}

/// Whether `pat` occurs anywhere in `s`.
pub open spec fn contains_seq(s: Seq<char>, pat: Seq<char>) -> bool {
    find_at(s, pat, 0) >= 0
}

/// Where `find_at` finds an occurrence, it is the first one.
pub proof fn lemma_find_at_first(s: Seq<char>, pat: Seq<char>, i: int)
    requires
        0 <= i,
    ensures
        find_at(s, pat, i) == -1 || find_at(s, pat, i) >= i,
        find_at(s, pat, i) == -1 ==> forall|j: int| i <= j ==> !matches_at(s, pat, j),
        find_at(s, pat, i) >= 0 ==> {
            &&& i <= find_at(s, pat, i)
            &&& matches_at(s, pat, find_at(s, pat, i))
            &&& forall|j: int| i <= j < find_at(s, pat, i) ==> !matches_at(s, pat, j)
        },
    decreases s.len() - i + 1,
{
    if i + pat.len() > s.len() {
        assert forall|j: int| i <= j implies !matches_at(s, pat, j) by {}
    } else if s.subrange(i, i + pat.len() as int) == pat {
    } else {
        lemma_find_at_first(s, pat, i + 1);
    }
}

/// Decides whether `pat` occurs in `s` at index `i`.
fn match_at_exec(s: &str, pat: &str, i: usize) -> (r: bool)
    requires
        i + pat@.len() <= s@.len(),
    ensures
        r == (s@.subrange(i as int, i + pat@.len()) == pat@),
{
    let n = s.unicode_len();
    let m = pat.unicode_len();
    let mut k: usize = 0;
    while k < m
        invariant
            n == s@.len(),
            m == pat@.len(),
            i + m <= n,
            0 <= k <= m,
            forall|j: int| 0 <= j < k ==> s@[i + j] == pat@[j],
        decreases m - k,
    {
        if s.get_char(i + k) != pat.get_char(k) {
            proof {
                let sub = s@.subrange(i as int, i + pat@.len());
                assert(sub[k as int] == s@[i + k]);
            }
            return false;
        }
        k = k + 1;
    }
    proof {
        assert(s@.subrange(i as int, i + pat@.len()) =~= pat@);
    }
    true
}

/// Finds the first occurrence of `pat` in `s` at or after `from`.
pub fn find_from(s: &str, pat: &str, from: usize) -> (r: Option<usize>)
    ensures
        match r {
            Option::Some(j) => {
                &&& find_at(s@, pat@, from as int) == j as int
                &&& from <= j
                &&& j + pat@.len() <= s@.len()
            },
            Option::None => find_at(s@, pat@, from as int) == -1,
        },
{
    let n = s.unicode_len();
    let m = pat.unicode_len();
    if m > n || from > n - m {
        proof {
            assert(from + pat@.len() > s@.len());
        }
        return Option::None;
    }
    if m == 0 {
        proof {
            assert(s@.subrange(from as int, from as int) =~= pat@);
        }
        return Option::Some(from);
    }
    let mut i: usize = from;
    while i <= n - m
        invariant
            n == s@.len(),
            m == pat@.len(),
            1 <= m <= n,
            from <= i <= n - m + 1,
            find_at(s@, pat@, from as int) == find_at(s@, pat@, i as int),
        decreases n - m - i + 1,
    {
        if match_at_exec(s, pat, i) {
            return Option::Some(i);
        }
        i = i + 1;
    }
    proof {
        assert(i + m > n);
    }
    Option::None
}

/// Decides whether two strings have the same characters.
pub fn str_eq(a: &str, b: &str) -> (r: bool)
    ensures
        r == (a@ == b@),
{
    let n = a.unicode_len();
    let m = b.unicode_len();
    if n != m {
        return false;
    }
    let r = match_at_exec(a, b, 0);
    proof {
        assert(a@.subrange(0, a@.len() as int) =~= a@);
    }
    r
}

/// Whether `p` is a prefix of `s`.
pub open spec fn starts_with(s: Seq<char>, p: Seq<char>) -> bool {
    p.len() <= s.len() && s.subrange(0, p.len() as int) == p
}

/// Decides whether `p` is a prefix of `s`.
pub fn starts_with_exec(s: &str, p: &str) -> (r: bool)
    ensures
        r == starts_with(s@, p@),
{
    let n = s.unicode_len();
    let m = p.unicode_len();
    if m > n {
        return false;
    }
    match_at_exec(s, p, 0)
}

/// Whether `c` is an ASCII decimal digit.
pub open spec fn is_digit(c: char) -> bool {
    48 <= c as u32 <= 57
}

/// The numeric value of a digit character.
pub open spec fn digit_val(c: char) -> int {
    c as u32 - 48
}

/// Whether every character of `s` is a decimal digit.
pub open spec fn all_digits(s: Seq<char>) -> bool {
    forall|i: int| 0 <= i < s.len() ==> is_digit(#[trigger] s[i])
}

/// The value of a digit string read in base ten.
pub open spec fn digits_val(s: Seq<char>) -> int
    decreases s.len(),
{
    if s.len() == 0 {
        0
    } else {
        digits_val(s.drop_last()) * 10 + digit_val(s.last())
    }
}

proof fn lemma_digits_val_nonneg(s: Seq<char>)
    requires
        all_digits(s),
    ensures
        digits_val(s) >= 0,
    decreases s.len(),
{
    if s.len() > 0 {
        assert(all_digits(s.drop_last())) by {
            assert(forall|i: int|
                0 <= i < s.len() - 1 ==> is_digit(#[trigger] s.drop_last()[i]) == is_digit(s[i]));
        }
        lemma_digits_val_nonneg(s.drop_last());
        assert(is_digit(s.last()));
    }
}

/// The value of a nonempty digit string, if it fits an unsigned 32-bit
/// integer; anything else is rejected.
pub open spec fn parse_u32_spec(s: Seq<char>) -> Option<u32> {
    if s.len() > 0 && all_digits(s) && digits_val(s) <= u32::MAX {
        Option::Some(digits_val(s) as u32)
    } else {
        Option::None
    }
}

/// The value of an optionally `-`-signed digit string, if it fits a signed
/// 32-bit integer; anything else is rejected.
pub open spec fn parse_i32_spec(s: Seq<char>) -> Option<i32> {
    if s.len() > 0 && s[0] == '-' {
        let m = s.subrange(1, s.len() as int);
        if m.len() > 0 && all_digits(m) && digits_val(m) <= 0x8000_0000 {
            Option::Some((-digits_val(m)) as i32)
        } else {
            Option::None
        }
    } else if s.len() > 0 && all_digits(s) && digits_val(s) <= 0x7fff_ffff {
        Option::Some(digits_val(s) as i32)
    } else {
        Option::None
    }
}

/// Reads the suffix of `s` starting at `from` as a digit string. `Some(v)`
/// means the suffix is nonempty and all digits; `v` is its value, saturated
/// just above `u32::MAX` so that overflow stays visible.
fn digits_value_from(s: &str, from: usize) -> (r: Option<u64>)
    requires
        from <= s@.len(),
    ensures
        ({
            let t = s@.subrange(from as int, s@.len() as int);
            match r {
                Option::Some(v) => {
                    &&& t.len() > 0
                    &&& all_digits(t)
                    &&& (digits_val(t) <= u32::MAX ==> v == digits_val(t))
                    &&& (digits_val(t) > u32::MAX ==> v > u32::MAX)
                },
                Option::None => t.len() == 0 || !all_digits(t),
            }
        }),
{
    let ghost t = s@.subrange(from as int, s@.len() as int);
    let n = s.unicode_len();
    if from >= n {
        return Option::None;
    }
    let mut acc: u64 = 0;
    let mut i: usize = from;
    while i < n
        invariant
            n == s@.len(),
            from <= i <= n,
            t == s@.subrange(from as int, s@.len() as int),
            all_digits(s@.subrange(from as int, i as int)),
            acc <= 0xffff_ffffu64 * 10 + 9,
            digits_val(s@.subrange(from as int, i as int)) <= u32::MAX ==> acc == digits_val(
                s@.subrange(from as int, i as int),
            ),
            digits_val(s@.subrange(from as int, i as int)) > u32::MAX ==> acc > u32::MAX,
        decreases n - i,
    {
        let c = s.get_char(i);
        let code: u32 = c as u32;
        if code < 48 || code > 57 {
            proof {
                assert(t[i - from] == s@[i as int]);
            }
            return Option::None;
        }
        let d: u64 = (code - 48) as u64;
        let ghost pre = s@.subrange(from as int, i as int);
        let ghost post = s@.subrange(from as int, i + 1);
        proof {
            assert(post.drop_last() =~= pre);
            assert(post.last() == s@[i as int]);
            lemma_digits_val_nonneg(post);
        }
        if acc > u32::MAX as u64 {
            acc = 0x1_0000_0000u64;
            proof {
                assert(digits_val(pre) > u32::MAX);
                lemma_digits_val_nonneg(pre);
                assert(digits_val(post) == digits_val(pre) * 10 + digit_val(post.last()));
                assert(digits_val(post) > u32::MAX);
            }
        } else {
            acc = acc * 10 + d;
        }
        i = i + 1;
    }
    proof {
        assert(s@.subrange(from as int, i as int) =~= t);
        assert(t.len() > 0);
    }
    Option::Some(acc)
}

/// Reads `s` as an unsigned 32-bit decimal number.
pub fn parse_u32_exec(s: &str) -> (r: Option<u32>)
    ensures
        r == parse_u32_spec(s@),
{
    proof {
        assert(s@.subrange(0, s@.len() as int) =~= s@);
    }
    match digits_value_from(s, 0) {
        Option::Some(v) => {
            if v <= u32::MAX as u64 {
                Option::Some(v as u32)
            } else {
                Option::None
            }
        },
        Option::None => Option::None,
    }
}

/// Reads `s` as a signed 32-bit decimal number.
pub fn parse_i32_exec(s: &str) -> (r: Option<i32>)
    ensures
        r == parse_i32_spec(s@),
{
    let n = s.unicode_len();
    if n > 0 && s.get_char(0) == '-' {
        match digits_value_from(s, 1) {
            Option::Some(v) => {
                if v <= 0x8000_0000u64 {
                    if v == 0x8000_0000u64 {
                        Option::Some(i32::MIN)
                    } else {
                        Option::Some(-(v as i32))
                    }
                } else {
                    Option::None
                }
            },
            Option::None => Option::None,
        }
    } else {
        proof {
            assert(s@.subrange(0, s@.len() as int) =~= s@);
        }
        match digits_value_from(s, 0) {
            Option::Some(v) => {
                if v <= 0x7fff_ffffu64 {
                    Option::Some(v as i32)
                } else {
                    Option::None
                }
            },
            Option::None => Option::None,
        }
    }
}

/// Decides whether `pat` occurs anywhere in `s`.
pub fn contains_exec(s: &str, pat: &str) -> (r: bool)
    ensures
        r == contains_seq(s@, pat@),
{
    match find_from(s, pat, 0) {
        Option::Some(_) => true,
        Option::None => false,
    }
}

/// How a character changes the parenthesis depth.
pub open spec fn paren_delta(c: char) -> int {
    if c == '(' {
        1
    } else if c == ')' {
        -1
    } else {
        0
    }
}

/// The first index at or after `i` holding a depth-zero `", "` separator,
/// where `d` is the parenthesis depth at `i`; -1 if there is none.
pub open spec fn first_sep_from(s: Seq<char>, i: int, d: int) -> int
    decreases s.len() - i + 1,
{
    if i < 0 || i >= s.len() {
        -1
    } else if d == 0 && s[i] == ',' && i + 1 < s.len() && s[i + 1] == ' ' {
        i
    } else {
        first_sep_from(s, i + 1, d + paren_delta(s[i]))
    }
}

/// The parenthesis depth of the prefix `s[..i]`.
pub open spec fn pd(s: Seq<char>, i: int) -> int
    decreases i,
{
    if i <= 0 {
        0
    } else {
        pd(s, i - 1) + paren_delta(s[i - 1])
    }
}

/// In a concatenation, prefix depths over the left part are the left
/// part's own.
pub proof fn lemma_pd_prefix(a: Seq<char>, b: Seq<char>, i: int)
    requires
        0 <= i <= a.len(),
    ensures
        pd(a + b, i) == pd(a, i),
    decreases i,
{
    if i > 0 {
        lemma_pd_prefix(a, b, i - 1);
        assert((a + b)[i - 1] == a[i - 1]);
    }
}

/// In a concatenation, prefix depths over the right part add to the left
/// part's total.
pub proof fn lemma_pd_suffix(a: Seq<char>, b: Seq<char>, j: int)
    requires
        0 <= j <= b.len(),
    ensures
        pd(a + b, a.len() + j) == pd(a, a.len() as int) + pd(b, j),
    decreases j,
{
    if j > 0 {
        lemma_pd_suffix(a, b, j - 1);
        assert((a + b)[a.len() + j - 1] == b[j - 1]);
    } else {
        lemma_pd_prefix(a, b, a.len() as int);
    }
}

/// A text without parentheses stays at depth zero.
pub proof fn lemma_pd_flat(s: Seq<char>, i: int)
    requires
        0 <= i <= s.len(),
        forall|k: int| 0 <= k < s.len() ==> paren_delta(#[trigger] s[k]) == 0,
    ensures
        pd(s, i) == 0,
    decreases i,
{
    if i > 0 {
        lemma_pd_flat(s, i - 1);
    }
}

/// Whether position `j` of `s` would trigger the depth-zero separator
/// scan.
pub open spec fn sep_trigger(s: Seq<char>, j: int) -> bool {
    pd(s, j) == 0 && s[j] == ',' && j + 1 < s.len() && s[j + 1] == ' '
}

/// The separator scan steps over a region without triggers, its depth
/// tracking the prefix depth.
pub proof fn lemma_fsf_step(s: Seq<char>, i: int, m: int)
    requires
        0 <= i <= m <= s.len(),
        forall|j: int| i <= j < m ==> !sep_trigger(s, j),
    ensures
        first_sep_from(s, i, pd(s, i)) == first_sep_from(s, m, pd(s, m)),
    decreases m - i,
{
    if i < m {
        assert(!sep_trigger(s, i));
        assert(pd(s, i + 1) == pd(s, i) + paren_delta(s[i]));
        lemma_fsf_step(s, i + 1, m);
    }
}

/// A text without a depth-zero separator has none to find.
pub proof fn lemma_fsf_none(s: Seq<char>)
    requires
        forall|j: int| 0 <= j < s.len() ==> !sep_trigger(s, j),
    ensures
        first_sep_from(s, 0, 0) == -1,
{
    assert(pd(s, 0) == 0);
    lemma_fsf_step(s, 0, s.len() as int);
}

/// The first depth-zero separator is found where the first trigger stands.
pub proof fn lemma_fsf_at(s: Seq<char>, m: int)
    requires
        0 <= m,
        m + 1 < s.len(),
        forall|j: int| 0 <= j < m ==> !sep_trigger(s, j),
        pd(s, m) == 0,
        s[m] == ',',
        s[m + 1] == ' ',
    ensures
        first_sep_from(s, 0, 0) == m,
{
    assert(pd(s, 0) == 0);
    lemma_fsf_step(s, 0, m);
}

/// A pattern that occurs nowhere is not found.
pub proof fn lemma_find_at_none(s: Seq<char>, pat: Seq<char>)
    requires
        forall|j: int| !matches_at(s, pat, j),
    ensures
        find_at(s, pat, 0) == -1,
{
    lemma_find_at_first(s, pat, 0);
    if find_at(s, pat, 0) >= 0 {
        assert(matches_at(s, pat, find_at(s, pat, 0)));
    }
}

/// The first occurrence of a pattern is found exactly.
pub proof fn lemma_find_at_exact(s: Seq<char>, pat: Seq<char>, m: int)
    requires
        0 <= m,
        matches_at(s, pat, m),
        forall|j: int| 0 <= j < m ==> !matches_at(s, pat, j),
    ensures
        find_at(s, pat, 0) == m,
{
    lemma_find_at_first(s, pat, 0);
    let r = find_at(s, pat, 0);
    if r == -1 {
        assert(!matches_at(s, pat, m));
    } else {
        if r < m {
            assert(!matches_at(s, pat, r));
        }
        if r > m {
            assert(!matches_at(s, pat, m));
        }
    }
}

/// An occurrence witnesses containment.
pub proof fn lemma_contains_of_match(s: Seq<char>, pat: Seq<char>, j: int)
    requires
        matches_at(s, pat, j),
    ensures
        contains_seq(s, pat),
{
    lemma_find_at_first(s, pat, 0);
    if find_at(s, pat, 0) == -1 {
        assert(!matches_at(s, pat, j));
    }
}

/// A pattern not contained occurs nowhere.
pub proof fn lemma_no_match_of_not_contains(s: Seq<char>, pat: Seq<char>)
    requires
        !contains_seq(s, pat),
    ensures
        forall|j: int| !matches_at(s, pat, j),
{
    lemma_find_at_first(s, pat, 0);
}

/// The decimal text of a nonnegative number is nonempty, all digits, and
/// reads back to the number.
pub proof fn lemma_nat_text_digits(n: int)
    requires
        n >= 0,
    ensures
        nat_text(n).len() >= 1,
        all_digits(nat_text(n)),
        digits_val(nat_text(n)) == n,
    decreases n,
{
    if n < 10 {
        let c = digit_char(n);
        assert(c as u32 == n + 48);
        assert(is_digit(c));
        assert(nat_text(n) =~= seq![c]);
        assert(seq![c].drop_last() =~= Seq::<char>::empty());
        assert(digits_val(Seq::<char>::empty()) == 0);
        assert(digits_val(seq![c]) == digit_val(c));
    } else {
        lemma_nat_text_digits(n / 10);
        let head = nat_text(n / 10);
        let c = digit_char(n % 10);
        assert(c as u32 == (n % 10) + 48);
        let s = head + seq![c];
        assert(s.drop_last() =~= head);
        assert(s.last() == c);
        assert(digits_val(s) == digits_val(head) * 10 + digit_val(c));
        assert(all_digits(s)) by {
            assert(forall|i: int| 0 <= i < head.len() ==> s[i] == head[i]);
        }
    }
}
pub open spec fn digit_char(d: int) -> char {
    ((d + 48) as u8) as char
}

/// The decimal text of the nonnegative number `n`.
pub open spec fn nat_text(n: int) -> Seq<char>
    recommends
        n >= 0,
    decreases n,
{
    if n < 10 {
        seq![digit_char(n)]
    } else {
        nat_text(n / 10) + seq![digit_char(n % 10)]
    }
}

/// The decimal text of `v`, with a leading `-` when it is negative.
pub open spec fn int_text(v: int) -> Seq<char> {
    if v < 0 {
        seq!['-'] + nat_text(-v)
    } else {
        nat_text(v)
    }
}

/// The one-character string for the digit `d`.
fn digit_str(d: u32) -> (r: &'static str)
    requires
        d < 10,
    ensures
        r@ == seq![digit_char(d as int)],
{
    proof {
        reveal_strlit("0");
        reveal_strlit("1");
        reveal_strlit("2");
        reveal_strlit("3");
        reveal_strlit("4");
        reveal_strlit("5");
        reveal_strlit("6");
        reveal_strlit("7");
        reveal_strlit("8");
        reveal_strlit("9");
    }
    let r = match d {
        0 => "0",
        1 => "1",
        2 => "2",
        3 => "3",
        4 => "4",
        5 => "5",
        6 => "6",
        7 => "7",
        8 => "8",
        _ => "9",
    };
    proof {
        assert(r@ =~= seq![digit_char(d as int)]);
    }
    r
}

/// Renders `x` in decimal.
pub fn u32_string(x: u32) -> (r: String)
    ensures
        r@ == nat_text(x as int),
    decreases x,
{
    if x < 10 {
        digit_str(x).to_owned()
    } else {
        let mut s = u32_string(x / 10);
        s.append(digit_str(x % 10));
        proof {
            assert(s@ =~= nat_text(x as int));
        }
        s
    }
}

/// Renders `v` in decimal, with a leading `-` when it is negative.
pub fn i32_string(v: i32) -> (r: String)
    ensures
        r@ == int_text(v as int),
{
    if v >= 0 {
        u32_string(v as u32)
    } else {
        let mag: u32 = if v == i32::MIN {
            0x8000_0000u32
        } else {
            (-v) as u32
        };
        let mut s = "-".to_owned();
        let tail = u32_string(mag);
        s.append(tail.as_str());
        proof {
            reveal_strlit("-");
            assert(s@ =~= int_text(v as int));
        }
        s
    }
}

/// Whether `c` is ASCII whitespace.
pub open spec fn is_ws_char(c: char) -> bool {
    c == ' ' || c == '\n' || c == '\t' || c == '\r'
}

/// `s` with trailing whitespace removed.
pub open spec fn trim_end_ws(s: Seq<char>) -> Seq<char>
    decreases s.len(),
{
    if s.len() > 0 && is_ws_char(s.last()) {
        trim_end_ws(s.drop_last())
    } else {
        s
    }
}

/// `s` with leading whitespace removed.
pub open spec fn trim_start_ws(s: Seq<char>) -> Seq<char>
    decreases s.len(),
{
    if s.len() > 0 && is_ws_char(s[0]) {
        trim_start_ws(s.drop_first())
    } else {
        s
    }
}

/// `s` with whitespace removed from both ends.
pub open spec fn trim_ws(s: Seq<char>) -> Seq<char> {
    trim_start_ws(trim_end_ws(s))
}

fn is_ws_exec(c: char) -> (r: bool)
    ensures
        r == is_ws_char(c),
{
    c == ' ' || c == '\n' || c == '\t' || c == '\r'
}

/// Removes whitespace from both ends of `s`.
pub fn trim_ws_exec(s: &str) -> (r: String)
    ensures
        r@ == trim_ws(s@),
{
    let n = s.unicode_len();
    let mut k: usize = n;
    proof {
        assert(s@.subrange(0, n as int) =~= s@);
    }
    while k > 0 && is_ws_exec(s.get_char(k - 1))
        invariant
            n == s@.len(),
            0 <= k <= n,
            trim_end_ws(s@) == trim_end_ws(s@.subrange(0, k as int)),
        decreases k,
    {
        proof {
            assert(s@.subrange(0, k as int).drop_last() =~= s@.subrange(0, k - 1));
            assert(s@.subrange(0, k as int).last() == s@[k - 1]);
        }
        k = k - 1;
    }
    proof {
        assert(trim_end_ws(s@) == s@.subrange(0, k as int));
    }
    let mut j: usize = 0;
    while j < k && is_ws_exec(s.get_char(j))
        invariant
            n == s@.len(),
            0 <= j <= k <= n,
            trim_end_ws(s@) == s@.subrange(0, k as int),
            trim_ws(s@) == trim_start_ws(s@.subrange(j as int, k as int)),
        decreases k - j,
    {
        proof {
            assert(s@.subrange(j as int, k as int).drop_first() =~= s@.subrange(j + 1, k as int));
            assert(s@.subrange(j as int, k as int)[0] == s@[j as int]);
        }
        j = j + 1;
    }
    proof {
        assert(trim_ws(s@) == s@.subrange(j as int, k as int));
    }
    s.substring_char(j, k).to_owned()
}

/// Whether `c` is one of the characters trimmed from the end of a rendered
/// option block: a line-continuation backslash, a space, or a newline.
pub open spec fn is_cont_char(c: char) -> bool {
    c == '\\' || c == ' ' || c == '\n'
}

fn is_cont_exec(c: char) -> (r: bool)
    ensures
        r == is_cont_char(c),
{
    c == '\\' || c == ' ' || c == '\n'
}

/// `s` without its trailing continuation characters.
pub open spec fn trim_end_cont(s: Seq<char>) -> Seq<char>
    decreases s.len(),
{
    if s.len() > 0 && is_cont_char(s.last()) {
        trim_end_cont(s.drop_last())
    } else {
        s
    }
}

/// Removes trailing continuation characters from `s`.
pub fn trim_end_cont_exec(s: &str) -> (r: String)
    ensures
        r@ == trim_end_cont(s@),
{
    let n = s.unicode_len();
    let mut k: usize = n;
    proof {
        assert(s@.subrange(0, n as int) =~= s@);
    }
    while k > 0 && is_cont_exec(s.get_char(k - 1))
        invariant
            n == s@.len(),
            0 <= k <= n,
            trim_end_cont(s@) == trim_end_cont(s@.subrange(0, k as int)),
        decreases k,
    {
        proof {
            assert(s@.subrange(0, k as int).drop_last() =~= s@.subrange(0, k - 1));
            assert(s@.subrange(0, k as int).last() == s@[k - 1]);
        }
        k = k - 1;
    }
    proof {
        assert(trim_end_cont(s@) == s@.subrange(0, k as int));
    }
    s.substring_char(0, k).to_owned()
}

/// A newline followed by a four-space indent.
pub open spec fn nl_indent() -> Seq<char> {
    seq!['\n', ' ', ' ', ' ', ' ']
}

/// `s` with every newline replaced by a newline plus a four-space indent.
pub open spec fn replace_nl(s: Seq<char>) -> Seq<char>
    decreases s.len(),
{
    let j = find_at(s, seq!['\n'], 0);
    if 0 <= j && j + 1 <= s.len() {
        s.subrange(0, j) + nl_indent() + replace_nl(s.subrange(j + 1, s.len() as int))
    } else {
        s
    }
}

/// Indents the continuation lines of `s` by four spaces.
pub fn replace_nl_exec(s: &str) -> (r: String)
    ensures
        r@ == replace_nl(s@),
    decreases s@.len(),
{
    proof {
        reveal_strlit("\n");
        assert("\n"@ =~= seq!['\n']);
    }
    let n = s.unicode_len();
    match find_from(s, "\n", 0) {
        Option::None => s.to_owned(),
        Option::Some(j) => {
            let mut out = s.substring_char(0, j).to_owned();
            out.append("\n    ");
            let rest = s.substring_char(j + 1, n);
            let tail = replace_nl_exec(rest);
            out.append(tail.as_str());
            proof {
                reveal_strlit("\n    ");
                assert("\n    "@ =~= nl_indent());
                assert(out@ =~= replace_nl(s@));
            }
            out
        },
    }
}

/// Whether `s` is empty or all whitespace.
pub open spec fn is_blank(s: Seq<char>) -> bool {
    forall|i: int| 0 <= i < s.len() ==> is_ws_char(#[trigger] s[i])
}

/// Decides whether `s` is empty or all whitespace.
pub fn is_blank_exec(s: &str) -> (r: bool)
    ensures
        r == is_blank(s@),
{
    let n = s.unicode_len();
    let mut i: usize = 0;
    while i < n
        invariant
            n == s@.len(),
            0 <= i <= n,
            forall|j: int| 0 <= j < i ==> is_ws_char(#[trigger] s@[j]),
        decreases n - i,
    {
        if !is_ws_exec(s.get_char(i)) {
            return false;
        }
        i = i + 1;
    }
    true
}

} // verus!
