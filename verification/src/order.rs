//! Lexicographic ordering of character sequences (by code point), with the
//! lemmas that make it a total order, and an insertion sort for vectors of
//! character strings used to put group names and attributes in display order.
use vstd::prelude::*;
use vstd::relations::{sorted_by, total_ordering};
use vstd::seq_lib::lemma_sorted_unique;

verus! {

broadcast use crate::strutil::lemma_chars_deep_view;

/// `a` is at or before `b` in code-point lexicographic order.
pub open spec fn lex_leq(a: Seq<char>, b: Seq<char>) -> bool
    decreases a.len(),
{
    if a.len() == 0 {
        true
    } else if b.len() == 0 {
        false
    } else if a[0] != b[0] {
        a[0] < b[0]
    } else {
        lex_leq(a.drop_first(), b.drop_first())
    }
}

/// `lex_leq` as a closed-over relation, for `sort_by` and the order lemmas.
pub open spec fn lex_leq_fn() -> spec_fn(Seq<char>, Seq<char>) -> bool {
    |a: Seq<char>, b: Seq<char>| lex_leq(a, b)
}

proof fn lemma_lex_refl(a: Seq<char>)
    ensures
        lex_leq(a, a),
    decreases a.len(),
{
    if a.len() > 0 {
        lemma_lex_refl(a.drop_first());
    }
}

proof fn lemma_lex_antisym(a: Seq<char>, b: Seq<char>)
    requires
        lex_leq(a, b),
        lex_leq(b, a),
    ensures
        a == b,
    decreases a.len(),
{
    if a.len() == 0 {
        assert(b.len() == 0);
        assert(a =~= b);
    } else {
        assert(a[0] == b[0]);
        lemma_lex_antisym(a.drop_first(), b.drop_first());
        assert(a.len() == b.len());
        assert forall|i: int| 0 <= i < a.len() implies a[i] == b[i] by {
            if i > 0 {
                assert(a.drop_first()[i - 1] == b.drop_first()[i - 1]);
            }
        }
        assert(a =~= b);
    }
}

proof fn lemma_lex_trans(a: Seq<char>, b: Seq<char>, c: Seq<char>)
    requires
        lex_leq(a, b),
        lex_leq(b, c),
    ensures
        lex_leq(a, c),
    decreases a.len(),
{
    if a.len() == 0 || b.len() == 0 || c.len() == 0 {
    } else {
        if a[0] == b[0] && b[0] == c[0] {
            lemma_lex_trans(a.drop_first(), b.drop_first(), c.drop_first());
        }
    }
}

proof fn lemma_lex_connected(a: Seq<char>, b: Seq<char>)
    ensures
        lex_leq(a, b) || lex_leq(b, a),
    decreases a.len(),
{
    if a.len() > 0 && b.len() > 0 && a[0] == b[0] {
        lemma_lex_connected(a.drop_first(), b.drop_first());
    }
}

/// `lex_leq` is a total order, so sorting by it has a unique result.
pub proof fn lemma_lex_total_ordering()
    ensures
        total_ordering(lex_leq_fn()),
{
    let r = lex_leq_fn();
    assert forall|x: Seq<char>| #[trigger] r(x, x) by {
        lemma_lex_refl(x);
    }
    assert forall|x: Seq<char>, y: Seq<char>| #[trigger] r(x, y) && #[trigger] r(y, x)
        implies x == y by {
        lemma_lex_antisym(x, y);
    }
    assert forall|x: Seq<char>, y: Seq<char>, z: Seq<char>|
        #[trigger] r(x, y) && #[trigger] r(y, z) implies r(x, z) by {
        lemma_lex_trans(x, y, z);
    }
    assert forall|x: Seq<char>, y: Seq<char>| #[trigger] r(x, y) || #[trigger] r(y, x) by {
        lemma_lex_connected(x, y);
    }
}

/// Whether `a` is at or before `b` in code-point lexicographic order.
pub fn lex_leq_exec(a: &Vec<char>, b: &Vec<char>) -> (r: bool)
    ensures
        r == lex_leq(a@, b@),
{
    let mut i: usize = 0;
    let alen = a.len();
    let blen = b.len();
    assert(a@.skip(0) =~= a@);
    assert(b@.skip(0) =~= b@);
    loop
        invariant
            i <= alen,
            i <= blen,
            alen == a@.len(),
            blen == b@.len(),
            lex_leq(a@, b@) == lex_leq(a@.skip(i as int), b@.skip(i as int)),
        decreases alen - i,
    {
        let ghost sa = a@.skip(i as int);
        let ghost sb = b@.skip(i as int);
        if i == alen {
            assert(sa.len() == 0);
            return true;
        }
        if i == blen {
            assert(sb.len() == 0);
            assert(sa.len() > 0);
            return false;
        }
        let ca = a[i];
        let cb = b[i];
        assert(sa[0] == a@[i as int] && sb[0] == b@[i as int]);
        if ca != cb {
            return ca < cb;
        }
        assert(sa.drop_first() =~= a@.skip(i as int + 1));
        assert(sb.drop_first() =~= b@.skip(i as int + 1));
        i += 1;
    }
}

/// Inserts `x` into the sorted vector `dst`, keeping it sorted.
fn insert_sorted(dst: &mut Vec<Vec<char>>, x: Vec<char>)
    requires
        sorted_by(old(dst).deep_view(), lex_leq_fn()),
    ensures
        sorted_by(final(dst).deep_view(), lex_leq_fn()),
        final(dst).deep_view().to_multiset() == old(dst).deep_view().to_multiset().insert(x@),
{
    broadcast use vstd::seq_lib::group_to_multiset_ensures;

    let ghost orig = dst.deep_view();
    let mut i: usize = dst.len();
    while i > 0
        invariant
            i <= dst@.len(),
            dst.deep_view() == orig,
            sorted_by(orig, lex_leq_fn()),
            forall|j: int| i <= j < orig.len() ==> !lex_leq(#[trigger] orig[j], x@),
        ensures
            i <= dst@.len(),
            dst.deep_view() == orig,
            forall|j: int| i <= j < orig.len() ==> !lex_leq(#[trigger] orig[j], x@),
            i > 0 ==> lex_leq(orig[i - 1], x@),
        decreases i,
    {
        if lex_leq_exec(&dst[i - 1], &x) {
            assert(orig[i as int - 1] == dst@[i as int - 1]@);
            break ;
        }
        assert(orig[i as int - 1] == dst@[i as int - 1]@);
        i -= 1;
    }
    // every element before i is <= x, every element at or after i is >= x
    proof {
        lemma_lex_total_ordering();
        if i > 0 {
            assert forall|j: int| 0 <= j < i implies lex_leq(#[trigger] orig[j], x@) by {
                if j < i - 1 {
                    assert(lex_leq_fn()(orig[j], orig[i - 1]));
                    lemma_lex_trans(orig[j], orig[i - 1], x@);
                }
            }
        }
        assert forall|j: int| i <= j < orig.len() implies lex_leq(x@, #[trigger] orig[j]) by {
            lemma_lex_connected(x@, orig[j]);
        }
    }
    let ghost xv = x@;
    dst.insert(i, x);
    assert(dst.deep_view() =~~= orig.insert(i as int, xv));
    proof {
        let newv = dst.deep_view();
        assert(sorted_by(newv, lex_leq_fn())) by {
            assert(forall|j: int| 0 <= j < i ==> newv[j] == orig[j]);
            assert(newv[i as int] == xv);
            assert(forall|j: int| i < j < newv.len() ==> newv[j] == orig[j - 1]);
            lemma_lex_total_ordering();
        }
        assert(newv.to_multiset() == orig.to_multiset().insert(xv)) by {
            assert(newv =~~= orig.take(i as int).push(xv) + orig.skip(i as int));
            vstd::seq_lib::lemma_multiset_commutative(
                orig.take(i as int).push(xv),
                orig.skip(i as int),
            );
            vstd::seq_lib::lemma_multiset_commutative(orig.take(i as int), orig.skip(i as int));
            assert(orig.take(i as int).push(xv).to_multiset() == orig.take(
                i as int,
            ).to_multiset().insert(xv));
            assert(orig.take(i as int) + orig.skip(i as int) =~= orig);
            assert(newv.to_multiset() =~= orig.to_multiset().insert(xv));
        }
    }
}

/// Sorts character vectors into code-point lexicographic order; the result
/// is the unique sorted permutation of the input.
pub fn sort_chars_vecs(src: Vec<Vec<char>>) -> (r: Vec<Vec<char>>)
    ensures
        r.deep_view() == src.deep_view().sort_by(lex_leq_fn()),
{
    broadcast use vstd::seq_lib::group_to_multiset_ensures;

    let ghost sv = src.deep_view();
    let mut out: Vec<Vec<char>> = Vec::new();
    let mut rest = src;
    let mut taken: usize = 0;
    let n = rest.len();
    assert(sv.len() == n as int);
    assert(out.deep_view() =~~= Seq::<Seq<char>>::empty());
    assert(rest.deep_view() =~~= sv.skip(0));
    while rest.len() > 0
        invariant
            taken + rest@.len() == sv.len(),
            sv.len() <= usize::MAX,
            rest.deep_view() == sv.skip(taken as int),
            sorted_by(out.deep_view(), lex_leq_fn()),
            out.deep_view().to_multiset() == sv.take(taken as int).to_multiset(),
        decreases rest@.len(),
    {
        let ghost pre_rest = rest.deep_view();
        let x = rest.remove(0);
        proof {
            assert(x@ == pre_rest[0]);
            assert(pre_rest[0] == sv[taken as int]);
            assert(rest.deep_view() =~~= pre_rest.drop_first());
            assert(pre_rest.drop_first() =~= sv.skip(taken as int + 1));
        }
        insert_sorted(&mut out, x);
        proof {
            assert(sv.take(taken as int + 1).drop_last() =~= sv.take(taken as int));
            assert(sv.take(taken as int + 1) =~= sv.take(taken as int).push(sv[taken as int]));
            vstd::seq_lib::to_multiset_build(sv.take(taken as int), sv[taken as int]);
        }
        taken += 1;
    }
    proof {
        assert(sv.take(taken as int) =~= sv);
        lemma_lex_total_ordering();
        sv.lemma_sort_by_ensures(lex_leq_fn());
        lemma_sorted_unique(out.deep_view(), sv.sort_by(lex_leq_fn()), lex_leq_fn());
        assert(out.deep_view() =~~= sv.sort_by(lex_leq_fn()));
    }
    out
}

} // verus!
