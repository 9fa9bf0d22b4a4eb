//! A total order on strings and on pairs of strings, and a verified sort:
//! what makes the emitted configuration header deterministic.

use vstd::multiset::Multiset;
use vstd::prelude::*;
use vstd::relations::{sorted_by, total_ordering};
use vstd::string::StrSliceExecFns;

verus! {

/// Lexicographic order on character sequences, by code point; a proper
/// prefix comes first.
pub open spec fn chars_le(a: Seq<char>, b: Seq<char>) -> bool
    decreases a.len(),
{
    if a.len() == 0 {
        true
    } else if b.len() == 0 {
        false
    } else if a[0] == b[0] {
        chars_le(a.drop_first(), b.drop_first())
    } else {
        (a[0] as u32) < (b[0] as u32)
    }
}

/// Strict lexicographic order.
pub open spec fn chars_lt(a: Seq<char>, b: Seq<char>) -> bool {
    chars_le(a, b) && a != b
}

/// Order on pairs of strings: by the first component, then the second.
pub open spec fn pair_le(x: (Seq<char>, Seq<char>), y: (Seq<char>, Seq<char>)) -> bool {
    chars_lt(x.0, y.0) || (x.0 == y.0 && chars_le(x.1, y.1))
}

/// The pair order as a function value, for sorting.
pub open spec fn pair_le_fn() -> spec_fn((Seq<char>, Seq<char>), (Seq<char>, Seq<char>)) -> bool {
    |x: (Seq<char>, Seq<char>), y: (Seq<char>, Seq<char>)| pair_le(x, y)
}

/// Distinct characters have distinct code points.
proof fn lemma_char_codes_differ(c1: char, c2: char)
    requires
        c1 != c2,
    ensures
        c1 as u32 != c2 as u32,
{
}

proof fn lemma_chars_le_refl(a: Seq<char>)
    ensures
        chars_le(a, a),
    decreases a.len(),
{
    if a.len() > 0 {
        lemma_chars_le_refl(a.drop_first());
    }
}

proof fn lemma_chars_le_antisym(a: Seq<char>, b: Seq<char>)
    requires
        chars_le(a, b),
        chars_le(b, a),
    ensures
        a == b,
    decreases a.len(),
{
    if a.len() == 0 {
        assert(b.len() == 0);
        assert(a =~= b);
    } else {
        assert(b.len() > 0);
        if a[0] == b[0] {
            lemma_chars_le_antisym(a.drop_first(), b.drop_first());
            assert(a =~= b) by {
                assert(a.drop_first() =~= b.drop_first());
                assert(forall|i: int| 1 <= i < a.len() ==> a[i] == a.drop_first()[i - 1]);
                assert(forall|i: int| 1 <= i < b.len() ==> b[i] == b.drop_first()[i - 1]);
            }
        }
    }
}

proof fn lemma_chars_le_trans(a: Seq<char>, b: Seq<char>, c: Seq<char>)
    requires
        chars_le(a, b),
        chars_le(b, c),
    ensures
        chars_le(a, c),
    decreases a.len(),
{
    if a.len() > 0 && b.len() > 0 && c.len() > 0 {
        if a[0] == b[0] && b[0] == c[0] {
            lemma_chars_le_trans(a.drop_first(), b.drop_first(), c.drop_first());
        }
    }
}

proof fn lemma_chars_le_connected(a: Seq<char>, b: Seq<char>)
    ensures
        chars_le(a, b) || chars_le(b, a),
    decreases a.len(),
{
    if a.len() == 0 {
    } else if b.len() == 0 {
    } else if a[0] == b[0] {
        lemma_chars_le_connected(a.drop_first(), b.drop_first());
    } else {
        lemma_char_codes_differ(a[0], b[0]);
    }
}

/// The pair order is a total order, so sorting by it is canonical.
pub proof fn lemma_pair_le_total()
    ensures
        total_ordering(pair_le_fn()),
{
    assert forall|x: (Seq<char>, Seq<char>)| #[trigger] pair_le_fn()(x, x) by {
        lemma_chars_le_refl(x.0);
        lemma_chars_le_refl(x.1);
    }
    assert forall|x: (Seq<char>, Seq<char>), y: (Seq<char>, Seq<char>)|
        #[trigger] pair_le_fn()(x, y) && #[trigger] pair_le_fn()(y, x) implies x == y by {
        if x.0 == y.0 {
            lemma_chars_le_antisym(x.1, y.1);
        } else {
            lemma_chars_le_antisym(x.0, y.0);
        }
    }
    assert forall|x: (Seq<char>, Seq<char>), y: (Seq<char>, Seq<char>), z: (Seq<char>, Seq<char>)|
        #[trigger] pair_le_fn()(x, y) && #[trigger] pair_le_fn()(y, z) implies pair_le_fn()(
        x,
        z,
    ) by {
        if x.0 == y.0 && y.0 == z.0 {
            lemma_chars_le_trans(x.1, y.1, z.1);
        } else if x.0 == y.0 {
            // x.0 == y.0 < z.0
        } else if y.0 == z.0 {
            // x.0 < y.0 == z.0
        } else {
            lemma_chars_le_trans(x.0, y.0, z.0);
            if x.0 == z.0 {
                lemma_chars_le_antisym(x.0, y.0);
            }
        }
    }
    assert forall|x: (Seq<char>, Seq<char>), y: (Seq<char>, Seq<char>)|
        #[trigger] pair_le_fn()(x, y) || #[trigger] pair_le_fn()(y, x) by {
        lemma_chars_le_connected(x.0, y.0);
        lemma_chars_le_connected(x.1, y.1);
    }
}

/// `chars_le` restricted to a shared prefix: dropping the prefix changes
/// nothing.
proof fn lemma_chars_le_skip(a: Seq<char>, b: Seq<char>, i: int)
    requires
        0 <= i <= a.len(),
        i <= b.len(),
        forall|j: int| 0 <= j < i ==> a[j] == b[j],
    ensures
        chars_le(a, b) == chars_le(a.skip(i), b.skip(i)),
    decreases i,
{
    if i > 0 {
        assert(a.len() > 0 && b.len() > 0);
        assert(a[0] == b[0]);
        lemma_chars_le_skip(a.drop_first(), b.drop_first(), i - 1);
        assert(a.drop_first().skip(i - 1) =~= a.skip(i));
        assert(b.drop_first().skip(i - 1) =~= b.skip(i));
    } else {
        assert(a.skip(0) =~= a);
        assert(b.skip(0) =~= b);
    }
}

/// Decides the lexicographic order of two strings.
pub fn str_le_exec(a: &str, b: &str) -> (r: bool)
    ensures
        r == chars_le(a@, b@),
{
    let n = a.unicode_len();
    let m = b.unicode_len();
    let mut i: usize = 0;
    while i < n && i < m
        invariant
            n == a@.len(),
            m == b@.len(),
            0 <= i <= n,
            i <= m,
            forall|j: int| 0 <= j < i ==> a@[j] == b@[j],
        decreases n - i,
    {
        let ca = a.get_char(i);
        let cb = b.get_char(i);
        if ca != cb {
            let r = (ca as u32) < (cb as u32);
            proof {
                lemma_chars_le_skip(a@, b@, i as int);
                assert(a@.skip(i as int)[0] == a@[i as int]);
                assert(b@.skip(i as int)[0] == b@[i as int]);
                assert(a@.skip(i as int).len() > 0);
                assert(b@.skip(i as int).len() > 0);
            }
            return r;
        }
        i = i + 1;
    }
    let r = n <= m;
    proof {
        lemma_chars_le_skip(a@, b@, i as int);
        if n <= m {
            assert(a@.skip(i as int).len() == 0);
        } else {
            assert(b@.skip(i as int).len() == 0);
            assert(a@.skip(i as int).len() > 0);
        }
    }
    r
}

/// The views of a sequence of string pairs.
pub open spec fn pviews(s: Seq<(String, String)>) -> Seq<(Seq<char>, Seq<char>)> {
    s.map_values(|p: (String, String)| (p.0@, p.1@))
}

/// Decides the pair order of two string pairs.
fn pair_le_exec(a0: &str, a1: &str, b0: &str, b1: &str) -> (r: bool)
    ensures
        r == pair_le((a0@, a1@), (b0@, b1@)),
{
    let eq0 = crate::text::str_eq(a0, b0);
    if eq0 {
        str_le_exec(a1, b1)
    } else {
        str_le_exec(a0, b0)
    }
}

/// Inserts `x` into the sorted `out`, keeping it sorted.
fn insert_sorted(out: &mut Vec<(String, String)>, x: (String, String))
    requires
        sorted_by(pviews(old(out)@), pair_le_fn()),
    ensures
        sorted_by(pviews(final(out)@), pair_le_fn()),
        pviews(final(out)@).to_multiset() == pviews(old(out)@).to_multiset().insert(
            (x.0@, x.1@),
        ),
{
    proof {
        lemma_pair_le_total();
    }
    let ghost xv = (x.0@, x.1@);
    let n = out.len();
    let mut k: usize = 0;
    let mut stop = false;
    while k < n && !stop
        invariant
            n == out@.len(),
            0 <= k <= n,
            xv == (x.0@, x.1@),
            sorted_by(pviews(out@), pair_le_fn()),
            forall|j: int| 0 <= j < k ==> pair_le(#[trigger] pviews(out@)[j], xv),
            stop && k < n ==> !pair_le(pviews(out@)[k as int], xv),
        decreases n - k, if stop { 0int } else { 1int },
    {
        let e = &out[k];
        let le = pair_le_exec(e.0.as_str(), e.1.as_str(), x.0.as_str(), x.1.as_str());
        proof {
            assert(pviews(out@)[k as int] == (out@[k as int].0@, out@[k as int].1@));
            assert(le == pair_le(pviews(out@)[k as int], xv));
        }
        if le {
            k = k + 1;
        } else {
            stop = true;
        }
    }
    let ghost before = out@;
    proof {
        if k < n {
            assert(!pair_le(pviews(before)[k as int], xv));
            assert(pair_le_fn()(xv, pviews(before)[k as int]) || pair_le_fn()(
                pviews(before)[k as int],
                xv,
            ));
            assert(pair_le(xv, pviews(before)[k as int]));
        }
    }
    out.insert(k, x);
    proof {
        let new_views = pviews(out@);
        let old_views = pviews(before);
        assert(out@ =~= before.insert(k as int, x));
        assert(new_views =~= old_views.take(k as int) + seq![xv] + old_views.skip(k as int)) by {
            assert forall|i: int| 0 <= i < new_views.len() implies new_views[i] == (old_views.take(
                k as int,
            ) + seq![xv] + old_views.skip(k as int))[i] by {
                if i < k {
                    assert(out@[i] == before[i]);
                } else if i == k {
                } else {
                    assert(out@[i] == before[i - 1]);
                }
            }
        };
        assert(sorted_by(new_views, pair_le_fn())) by {
            assert forall|i: int, j: int| 0 <= i < j < new_views.len() implies #[trigger] pair_le_fn()(
                new_views[i],
                new_views[j],
            ) by {
                if i < k && j < k {
                    assert(pair_le_fn()(old_views[i], old_views[j]));
                } else if i < k && j == k {
                    assert(pair_le(pviews(before)[i], xv));
                } else if i < k && j > k {
                    assert(pair_le_fn()(old_views[i], old_views[j - 1]));
                } else if i == k && j > k {
                    // xv goes before the element it displaced, and that
                    // element is no later than any element after it.
                    assert(pair_le(xv, old_views[k as int]));
                    if j - 1 > k {
                        assert(pair_le_fn()(old_views[k as int], old_views[j - 1]));
                        assert(pair_le_fn()(xv, old_views[j - 1]));
                    }
                } else {
                    assert(i > k && j > k);
                    assert(pair_le_fn()(old_views[i - 1], old_views[j - 1]));
                }
            }
        };
        assert(new_views.to_multiset() =~= old_views.to_multiset().insert(xv)) by {
            broadcast use vstd::seq_lib::group_to_multiset_ensures;

            assert(old_views.take(k as int) + seq![xv] + old_views.skip(k as int) =~= (
            old_views.take(k as int) + seq![xv]) + old_views.skip(k as int));
            vstd::seq_lib::lemma_multiset_commutative(
                old_views.take(k as int) + seq![xv],
                old_views.skip(k as int),
            );
            vstd::seq_lib::lemma_multiset_commutative(old_views.take(k as int), seq![xv]);
            vstd::seq_lib::lemma_multiset_commutative(
                old_views.take(k as int),
                old_views.skip(k as int),
            );
            assert(old_views.take(k as int) + old_views.skip(k as int) =~= old_views);
            assert(seq![xv].to_multiset() =~= Multiset::empty().insert(xv)) by {
                assert(seq![xv] =~= Seq::empty().push(xv));
            }
        };
    }
}

/// Sorts string pairs by the pair order. The result is the canonical
/// ordering of the input: any permutation of the input sorts to the same
/// sequence.
pub fn sort_pairs(v: Vec<(String, String)>) -> (r: Vec<(String, String)>)
    ensures
        pviews(r@) == pviews(v@).sort_by(pair_le_fn()),
{
    proof {
        lemma_pair_le_total();
        pviews(v@).lemma_sort_by_ensures(pair_le_fn());
    }
    let mut out: Vec<(String, String)> = Vec::new();
    let mut v = v;
    let ghost orig = v@;
    proof {
        assert(pviews(out@) =~= Seq::empty());
        assert(pviews(out@).to_multiset() =~= pviews(orig.take(0)).to_multiset()) by {
            assert(pviews(orig.take(0)) =~= Seq::empty());
        }
    }
    let n = v.len();
    let mut i: usize = 0;
    while i < n
        invariant
            n == orig.len(),
            v@ == orig,
            0 <= i <= n,
            sorted_by(pviews(out@), pair_le_fn()),
            pviews(out@).to_multiset() == pviews(orig.take(i as int)).to_multiset(),
        decreases n - i,
    {
        let x = clone_pair(&v[i]);
        proof {
            broadcast use vstd::seq_lib::group_to_multiset_ensures;

            assert(pviews(orig.take(i + 1)) =~= pviews(orig.take(i as int)).push(
                (orig[i as int].0@, orig[i as int].1@),
            )) by {
                assert forall|j: int| 0 <= j < i + 1 implies pviews(orig.take(i + 1))[j] == pviews(
                    orig.take(i as int),
                ).push((orig[i as int].0@, orig[i as int].1@))[j] by {
                    if j < i {
                        assert(orig.take(i + 1)[j] == orig[j]);
                        assert(orig.take(i as int)[j] == orig[j]);
                    } else {
                        assert(orig.take(i + 1)[j] == orig[i as int]);
                    }
                }
            };
        }
        insert_sorted(&mut out, x);
        i = i + 1;
    }
    proof {
        assert(orig.take(n as int) =~= orig);
        vstd::seq_lib::lemma_sorted_unique(
            pviews(out@),
            pviews(orig).sort_by(pair_le_fn()),
            pair_le_fn(),
        );
    }
    out
}

fn clone_pair(p: &(String, String)) -> (r: (String, String))
    ensures
        r.0@ == p.0@,
        r.1@ == p.1@,
{
    (p.0.clone(), p.1.clone())
}

} // verus!
