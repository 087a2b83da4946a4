//! Lookups and sums over the sequences that the books keep their records in.

use vstd::prelude::*;

verus! {

/// Index of the first element satisfying `p`, or -1.
pub open spec fn first_match<T>(s: Seq<T>, p: spec_fn(T) -> bool) -> int
    decreases s.len(),
{
    if s.len() == 0 {
        -1
    } else {
        let k = first_match(s.drop_last(), p);
        if k >= 0 {
            k
        } else if p(s.last()) {
            s.len() - 1
        } else {
            -1
        }
    }
}

/// What [`first_match`] means.
pub proof fn lemma_first_match<T>(s: Seq<T>, p: spec_fn(T) -> bool)
    ensures
        -1 <= first_match(s, p) < s.len(),
        first_match(s, p) >= 0 ==> p(s[first_match(s, p)]),
        forall|j: int| 0 <= j < s.len() && j < first_match(s, p) ==> !p(#[trigger] s[j]),
        first_match(s, p) == -1 <==> forall|j: int| 0 <= j < s.len() ==> !p(#[trigger] s[j]),
    decreases s.len(),
{
    if s.len() > 0 {
        lemma_first_match(s.drop_last(), p);
        assert forall|j: int| 0 <= j < s.len() - 1 implies s.drop_last()[j] == s[j] by {}
        if first_match(s.drop_last(), p) == -1 && !p(s.last()) {
            assert forall|j: int| 0 <= j < s.len() implies !p(#[trigger] s[j]) by {
                if j < s.len() - 1 {
                    assert(s.drop_last()[j] == s[j]);
                }
            }
        }
    }
}

/// One step of a search loop over the prefix of length `i`.
pub proof fn lemma_first_match_step<T>(s: Seq<T>, i: int, p: spec_fn(T) -> bool)
    requires
        0 <= i < s.len(),
        first_match(s.subrange(0, i), p) == -1,
    ensures
        first_match(s.subrange(0, i + 1), p) == if p(s[i]) {
            i
        } else {
            -1
        },
{
    assert(s.subrange(0, i + 1).drop_last() =~= s.subrange(0, i));
}

/// The prefix of full length is the sequence.
pub proof fn lemma_full_prefix<T>(s: Seq<T>)
    ensures
        s.subrange(0, s.len() as int) == s,
{
    assert(s.subrange(0, s.len() as int) =~= s);
}

/// The unique element satisfying `p` is the first.
pub proof fn lemma_first_match_unique<T>(s: Seq<T>, p: spec_fn(T) -> bool, i: int)
    requires
        0 <= i < s.len(),
        p(s[i]),
        forall|j: int| 0 <= j < s.len() && j != i ==> !p(#[trigger] s[j]),
    ensures
        first_match(s, p) == i,
{
    lemma_first_match(s, p);
}

/// No element satisfies `p`.
pub proof fn lemma_first_match_none<T>(s: Seq<T>, p: spec_fn(T) -> bool)
    requires
        forall|j: int| 0 <= j < s.len() ==> !p(#[trigger] s[j]),
    ensures
        first_match(s, p) == -1,
{
    lemma_first_match(s, p);
}

/// Searching after appending one element.
pub proof fn lemma_first_match_push<T>(s: Seq<T>, x: T, p: spec_fn(T) -> bool)
    ensures
        first_match(s.push(x), p) == if first_match(s, p) >= 0 {
            first_match(s, p)
        } else if p(x) {
            s.len() as int
        } else {
            -1
        },
{
    assert(s.push(x).drop_last() =~= s);
}

/// Replacing an element by one that `p` judges alike does not move the
/// search result.
pub proof fn lemma_first_match_update<T>(s: Seq<T>, i: int, x: T, p: spec_fn(T) -> bool)
    requires
        0 <= i < s.len(),
        p(x) == p(s[i]),
    ensures
        first_match(s.update(i, x), p) == first_match(s, p),
    decreases s.len(),
{
    if i == s.len() - 1 {
        assert(s.update(i, x).drop_last() =~= s.drop_last());
    } else {
        lemma_first_match_update(s.drop_last(), i, x, p);
        assert(s.update(i, x).drop_last() =~= s.drop_last().update(i, x));
    }
}

/// A sum over positions is the sum over the elements.
pub proof fn lemma_sum_positions<T>(s: Seq<T>, f: spec_fn(T) -> nat, g: spec_fn(int) -> nat)
    requires
        forall|i: int| 0 <= i < s.len() ==> #[trigger] g(i) == f(s[i]),
    ensures
        sum_of(Seq::new(s.len(), |i: int| i), g) == sum_of(s, f),
    decreases s.len(),
{
    if s.len() > 0 {
        let n = s.len();
        assert(Seq::new(n, |i: int| i).drop_last() =~= Seq::new((n - 1) as nat, |i: int| i));
        assert forall|i: int| 0 <= i < s.drop_last().len() implies #[trigger] g(i) == f(
            s.drop_last()[i],
        ) by {}
        lemma_sum_positions(s.drop_last(), f, g);
    }
}

/// Sum of `f` over the elements of `s`.
pub open spec fn sum_of<T>(s: Seq<T>, f: spec_fn(T) -> nat) -> nat
    decreases s.len(),
{
    if s.len() == 0 {
        0
    } else {
        sum_of(s.drop_last(), f) + f(s.last())
    }
}

pub proof fn lemma_sum_push<T>(s: Seq<T>, x: T, f: spec_fn(T) -> nat)
    ensures
        sum_of(s.push(x), f) == sum_of(s, f) + f(x),
{
    assert(s.push(x).drop_last() =~= s);
}

pub proof fn lemma_sum_step<T>(s: Seq<T>, i: int, f: spec_fn(T) -> nat)
    requires
        0 <= i < s.len(),
    ensures
        sum_of(s.subrange(0, i + 1), f) == sum_of(s.subrange(0, i), f) + f(s[i]),
{
    assert(s.subrange(0, i + 1).drop_last() =~= s.subrange(0, i));
}

/// Replacing one element changes the sum by the difference at that element.
pub proof fn lemma_sum_update<T>(s: Seq<T>, i: int, x: T, f: spec_fn(T) -> nat)
    requires
        0 <= i < s.len(),
    ensures
        sum_of(s.update(i, x), f) + f(s[i]) == sum_of(s, f) + f(x),
    decreases s.len(),
{
    if i == s.len() - 1 {
        assert(s.update(i, x).drop_last() =~= s.drop_last());
    } else {
        lemma_sum_update(s.drop_last(), i, x, f);
        assert(s.update(i, x).drop_last() =~= s.drop_last().update(i, x));
    }
}

/// Sums agree when `f` and `g` agree on every element.
pub proof fn lemma_sum_congruent<T>(s: Seq<T>, f: spec_fn(T) -> nat, g: spec_fn(T) -> nat)
    requires
        forall|j: int| 0 <= j < s.len() ==> f(#[trigger] s[j]) == g(s[j]),
    ensures
        sum_of(s, f) == sum_of(s, g),
    decreases s.len(),
{
    if s.len() > 0 {
        assert forall|j: int| 0 <= j < s.drop_last().len() implies f(
            #[trigger] s.drop_last()[j],
        ) == g(s.drop_last()[j]) by {
            assert(s.drop_last()[j] == s[j]);
        }
        lemma_sum_congruent(s.drop_last(), f, g);
    }
}

/// A sum is no smaller than any one of its terms.
pub proof fn lemma_sum_ge_term<T>(s: Seq<T>, i: int, f: spec_fn(T) -> nat)
    requires
        0 <= i < s.len(),
    ensures
        f(s[i]) <= sum_of(s, f),
    decreases s.len(),
{
    if i < s.len() - 1 {
        lemma_sum_ge_term(s.drop_last(), i, f);
        assert(s.drop_last()[i] == s[i]);
    }
}

/// A prefix sum is no larger than the whole sum.
pub proof fn lemma_sum_prefix_le<T>(s: Seq<T>, i: int, f: spec_fn(T) -> nat)
    requires
        0 <= i <= s.len(),
    ensures
        sum_of(s.subrange(0, i), f) <= sum_of(s, f),
    decreases s.len(),
{
    if i < s.len() {
        lemma_sum_prefix_le(s.drop_last(), i, f);
        assert(s.drop_last().subrange(0, i) =~= s.subrange(0, i));
    } else {
        assert(s.subrange(0, i) =~= s);
    }
}

/// A sum is no larger than a sum of terms that are each at least as large.
pub proof fn lemma_sum_le<T>(s: Seq<T>, f: spec_fn(T) -> nat, g: spec_fn(T) -> nat)
    requires
        forall|j: int| 0 <= j < s.len() ==> f(#[trigger] s[j]) <= g(s[j]),
    ensures
        sum_of(s, f) <= sum_of(s, g),
    decreases s.len(),
{
    if s.len() > 0 {
        assert forall|j: int| 0 <= j < s.drop_last().len() implies f(#[trigger] s.drop_last()[j])
            <= g(s.drop_last()[j]) by {
            assert(s.drop_last()[j] == s[j]);
        }
        lemma_sum_le(s.drop_last(), f, g);
    }
}

/// A sum whose terms are all zero is zero.
pub proof fn lemma_sum_zero<T>(s: Seq<T>, f: spec_fn(T) -> nat)
    requires
        forall|j: int| 0 <= j < s.len() ==> f(#[trigger] s[j]) == 0,
    ensures
        sum_of(s, f) == 0,
    decreases s.len(),
{
    if s.len() > 0 {
        assert forall|j: int| 0 <= j < s.drop_last().len() implies f(#[trigger] s.drop_last()[j])
            == 0 by {
            assert(s.drop_last()[j] == s[j]);
        }
        lemma_sum_zero(s.drop_last(), f);
    }
}

/// Searching two sequences that `p` judges alike, element by element, gives
/// the same result.
pub proof fn lemma_first_match_alike<T, U>(s: Seq<T>, t: Seq<U>, p: spec_fn(T) -> bool, q: spec_fn(U) -> bool)
    requires
        s.len() == t.len(),
        forall|j: int| 0 <= j < s.len() ==> p(#[trigger] s[j]) == q(t[j]),
    ensures
        first_match(s, p) == first_match(t, q),
    decreases s.len(),
{
    if s.len() > 0 {
        assert forall|j: int| 0 <= j < s.drop_last().len() implies p(#[trigger] s.drop_last()[j]) == q(
            t.drop_last()[j],
        ) by {
            assert(p(s[j]) == q(t[j]));
        }
        lemma_first_match_alike(s.drop_last(), t.drop_last(), p, q);
        assert(p(s[s.len() - 1]) == q(t[t.len() - 1]));
    }
}

} // verus!
