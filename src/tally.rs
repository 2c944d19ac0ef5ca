use vstd::prelude::*;

verus! {

/// Sum of `f` over the elements of `s`.
pub open spec fn sum_of<T>(s: Seq<T>, f: spec_fn(T) -> nat) -> nat
    decreases s.len(),
{
    if s.len() == 0 {
        0
    } else {
        sum_of(s.drop_last(), f) + f(s.last())
    }
}

pub proof fn lemma_sum_update<T>(s: Seq<T>, i: int, v: T, f: spec_fn(T) -> nat)
    requires
        0 <= i < s.len(),
    ensures
        sum_of(s.update(i, v), f) + f(s[i]) == sum_of(s, f) + f(v),
    decreases s.len(),
{
    if i == s.len() - 1 {
        assert(s.update(i, v).drop_last() =~= s.drop_last());
    } else {
        assert(s.update(i, v).drop_last() =~= s.drop_last().update(i, v));
        lemma_sum_update(s.drop_last(), i, v, f);
    }
}

pub proof fn lemma_sum_insert<T>(s: Seq<T>, i: int, v: T, f: spec_fn(T) -> nat)
    requires
        0 <= i <= s.len(),
    ensures
        sum_of(s.insert(i, v), f) == sum_of(s, f) + f(v),
    decreases s.len(),
{
    if i == s.len() {
        assert(s.insert(i, v).drop_last() =~= s);
    } else {
        assert(s.insert(i, v).drop_last() =~= s.drop_last().insert(i, v));
        lemma_sum_insert(s.drop_last(), i, v, f);
    }
}

pub proof fn lemma_sum_zero<T>(s: Seq<T>, f: spec_fn(T) -> nat)
    requires
        forall|i: int| 0 <= i < s.len() ==> f(#[trigger] s[i]) == 0,
    ensures
        sum_of(s, f) == 0,
    decreases s.len(),
{
    if s.len() > 0 {
        lemma_sum_zero(s.drop_last(), f);
    }
}

/// Where every element but the one at `i` contributes nothing, the sum is that
/// element's contribution.
pub proof fn lemma_sum_single<T>(s: Seq<T>, i: int, f: spec_fn(T) -> nat)
    requires
        0 <= i < s.len(),
        forall|j: int| 0 <= j < s.len() && j != i ==> f(#[trigger] s[j]) == 0,
    ensures
        sum_of(s, f) == f(s[i]),
    decreases s.len(),
{
    if i == s.len() - 1 {
        lemma_sum_zero(s.drop_last(), f);
    } else {
        lemma_sum_single(s.drop_last(), i, f);
    }
}

/// Where each element's `f` is its `g` plus its `h`, so is the sum.
pub proof fn lemma_sum_split<T>(s: Seq<T>, f: spec_fn(T) -> nat, g: spec_fn(T) -> nat, h: spec_fn(T) -> nat)
    requires
        forall|x: T| #[trigger] f(x) == g(x) + h(x),
    ensures
        sum_of(s, f) == sum_of(s, g) + sum_of(s, h),
    decreases s.len(),
{
    if s.len() > 0 {
        lemma_sum_split(s.drop_last(), f, g, h);
    }
}

} // verus!
