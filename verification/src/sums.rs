use vstd::prelude::*;

verus! {

use vstd::set::fold::{is_fun_commutative, lemma_fold_empty, lemma_fold_insert};

/// The sum of `f` over the finite set `s`.
pub open spec fn sum_over<A>(s: Set<A>, f: spec_fn(A) -> int) -> int {
    s.fold(0, |acc: int, a: A| acc + f(a))
}

proof fn lemma_sum_step_commutative<A>(f: spec_fn(A) -> int)
    ensures
        is_fun_commutative(|acc: int, a: A| acc + f(a)),
{
}

/// Summing over the empty set gives zero.
pub proof fn lemma_sum_over_empty<A>(f: spec_fn(A) -> int)
    ensures
        sum_over(Set::<A>::empty(), f) == 0,
{
    lemma_fold_empty(0int, |acc: int, a: A| acc + f(a));
}

/// Adding a new element adds its value to the sum.
pub proof fn lemma_sum_over_insert<A>(s: Set<A>, f: spec_fn(A) -> int, a: A)
    requires
        s.finite(),
        !s.contains(a),
    ensures
        sum_over(s.insert(a), f) == sum_over(s, f) + f(a),
{
    lemma_sum_step_commutative(f);
    lemma_fold_insert(s, 0int, |acc: int, x: A| acc + f(x), a);
}

/// Taking an element out takes its value off the sum.
pub proof fn lemma_sum_over_remove<A>(s: Set<A>, f: spec_fn(A) -> int, a: A)
    requires
        s.finite(),
        s.contains(a),
    ensures
        sum_over(s, f) == sum_over(s.remove(a), f) + f(a),
{
    assert(s.remove(a).insert(a) =~= s);
    lemma_sum_over_insert(s.remove(a), f, a);
}

/// Two functions that agree on every element of the set give the same sum.
pub proof fn lemma_sum_over_congruence<A>(s: Set<A>, f: spec_fn(A) -> int, g: spec_fn(A) -> int)
    requires
        s.finite(),
        forall|a: A| #[trigger] s.contains(a) ==> f(a) == g(a),
    ensures
        sum_over(s, f) == sum_over(s, g),
    decreases s.len(),
{
    if s.len() == 0 {
        s.lemma_len0_is_empty();
        lemma_sum_over_empty(f);
        lemma_sum_over_empty(g);
    } else {
        assert(s.contains(s.choose())) by {
            if !(exists|a: A| s.contains(a)) {
                assert(s =~= Set::<A>::empty());
            }
        }
        let a = s.choose();
        lemma_sum_over_remove(s, f, a);
        lemma_sum_over_remove(s, g, a);
        lemma_sum_over_congruence(s.remove(a), f, g);
    }
}

} // verus!
