//! What holds of the reduction of terms, of the two reversals and of the
//! order of the roots, whatever the values.

use vstd::prelude::*;
use crate::error::ErrorView;
use crate::types::{
    all_placed, coefficient_sum, first_other_variable, first_variable, reduce, MonomialView,
    QuadraticView, Sign,
};

verus! {

/// Do all the terms that have a variable have the same one?
pub open spec fn names_agree(terms: Seq<MonomialView>) -> bool {
    forall|i: int, j: int|
        0 <= i < terms.len() && 0 <= j < terms.len() && (#[trigger] terms[i]).variable is Some && (
        #[trigger] terms[j]).variable is Some ==> terms[i].variable == terms[j].variable
}

/// Is the outcome the error that reports two different variable names?
pub open spec fn is_mismatch(outcome: std::result::Result<QuadraticView, ErrorView>) -> bool {
    outcome matches Err(ErrorView::InvalidCharacter { .. })
}

/// The first variable at or after `from` belongs to a term there; there is
/// none only where no term there has one.
proof fn lemma_first_variable(terms: Seq<MonomialView>, from: int)
    requires
        0 <= from <= terms.len(),
    ensures
        first_variable(terms, from) is None ==> forall|k: int|
            from <= k < terms.len() ==> (#[trigger] terms[k]).variable is None,
        first_variable(terms, from) is Some ==> exists|k: int|
            from <= k < terms.len() && (#[trigger] terms[k]).variable == first_variable(
                terms,
                from,
            ),
    decreases terms.len() - from,
{
    if from < terms.len() {
        if terms[from].variable is Some {
            assert(terms[from].variable == first_variable(terms, from));
        } else {
            lemma_first_variable(terms, from + 1);
            if first_variable(terms, from) is Some {
                let k = choose|k: int|
                    from + 1 <= k < terms.len() && (#[trigger] terms[k]).variable
                        == first_variable(terms, from + 1);
                assert(terms[k].variable == first_variable(terms, from));
            }
        }
    }
}

/// The first variable other than `name` at or after `from` belongs to a term
/// there and differs from `name`; there is none only where every term there
/// has `name` or no variable.
proof fn lemma_first_other_variable(terms: Seq<MonomialView>, name: Seq<char>, from: int)
    requires
        0 <= from <= terms.len(),
    ensures
        first_other_variable(terms, name, from) is None ==> forall|k: int|
            from <= k < terms.len() && (#[trigger] terms[k]).variable is Some ==> terms[k].variable
                == Some(name),
        first_other_variable(terms, name, from) is Some ==> first_other_variable(terms, name, from)
            != Some(name) && exists|k: int|
            from <= k < terms.len() && (#[trigger] terms[k]).variable == first_other_variable(
                terms,
                name,
                from,
            ),
    decreases terms.len() - from,
{
    if from < terms.len() {
        if terms[from].variable is Some && terms[from].variable != Some(name) {
            assert(terms[from].variable == first_other_variable(terms, name, from));
        } else {
            lemma_first_other_variable(terms, name, from + 1);
            if first_other_variable(terms, name, from) is Some {
                let k = choose|k: int|
                    from + 1 <= k < terms.len() && (#[trigger] terms[k]).variable
                        == first_other_variable(terms, name, from + 1);
                assert(terms[k].variable == first_other_variable(terms, name, from));
            }
        }
    }
}

/// The reduction reports two different variable names exactly where two
/// terms have different variables.
pub proof fn lemma_mismatch_iff_names_differ(terms: Seq<MonomialView>)
    ensures
        is_mismatch(reduce(terms)) <==> !names_agree(terms),
        names_agree(terms) ==> forall|k: int|
            0 <= k < terms.len() && (#[trigger] terms[k]).variable is Some ==> terms[k].variable
                == first_variable(terms, 0),
{
    lemma_first_variable(terms, 0);
    let name = first_variable(terms, 0);
    if name is Some {
        lemma_first_other_variable(terms, name->0, 0);
        let first = choose|k: int|
            0 <= k < terms.len() && (#[trigger] terms[k]).variable == first_variable(terms, 0);
        if first_other_variable(terms, name->0, 0) is Some {
            let other = choose|k: int|
                0 <= k < terms.len() && (#[trigger] terms[k]).variable == first_other_variable(
                    terms,
                    name->0,
                    0,
                );
            assert(terms[first].variable != terms[other].variable);
        } else {
            assert(names_agree(terms));
        }
    }
}

/// Mixing two variable names is always refused: where two terms, at any two
/// places of the list, have different variables, the reduction fails and
/// reports the mismatch.
pub proof fn lemma_mixed_variables_rejected(terms: Seq<MonomialView>, i: int, j: int)
    requires
        0 <= i < terms.len(),
        0 <= j < terms.len(),
        terms[i].variable is Some,
        terms[j].variable is Some,
        terms[i].variable != terms[j].variable,
    ensures
        is_mismatch(reduce(terms)),
{
    lemma_mismatch_iff_names_differ(terms);
}

/// Taking one term out takes its share out of the sum.
proof fn lemma_sum_remove(terms: Seq<MonomialView>, power: int, i: int)
    requires
        0 <= i < terms.len(),
    ensures
        coefficient_sum(terms, power) == coefficient_sum(terms.remove(i), power)
            + terms[i].share(power),
    decreases terms.len(),
{
    if i == terms.len() - 1 {
        assert(terms.remove(i) =~= terms.drop_last());
    } else {
        assert(terms.remove(i).drop_last() =~= terms.drop_last().remove(i));
        assert(terms.remove(i).last() == terms.last());
        lemma_sum_remove(terms.drop_last(), power, i);
    }
}

/// The sum of the coefficients of one power is the same in any order.
pub proof fn lemma_sum_any_order(s1: Seq<MonomialView>, s2: Seq<MonomialView>, power: int)
    requires
        s1.to_multiset() == s2.to_multiset(),
    ensures
        coefficient_sum(s1, power) == coefficient_sum(s2, power),
    decreases s1.len(),
{
    s1.to_multiset_ensures();
    s2.to_multiset_ensures();
    assert(s1.len() == s2.len());
    if s1.len() > 0 {
        let last = s1.last();
        assert(s1.contains(last));
        assert(s2.to_multiset().count(last) > 0);
        let j = choose|j: int| 0 <= j < s2.len() && s2[j] == last;
        assert(s1.remove(s1.len() - 1) =~= s1.drop_last());
        assert(s1.drop_last().to_multiset() =~= s2.remove(j).to_multiset());
        lemma_sum_any_order(s1.drop_last(), s2.remove(j), power);
        lemma_sum_remove(s2, power, j);
    }
}

/// The canonical form of a sum of terms does not depend on their order: two
/// lists with the same terms, each as often in one as in the other, reduce
/// to the same form, or fail for the same reason. Only the two names that a
/// mismatch reports go by the order.
pub proof fn lemma_reduce_any_order(s1: Seq<MonomialView>, s2: Seq<MonomialView>)
    requires
        s1.to_multiset() == s2.to_multiset(),
    ensures
        is_mismatch(reduce(s1)) <==> is_mismatch(reduce(s2)),
        !is_mismatch(reduce(s1)) ==> reduce(s1) == reduce(s2),
{
    s1.to_multiset_ensures();
    s2.to_multiset_ensures();
    assert forall|x: MonomialView| s1.contains(x) <==> s2.contains(x) by {
        assert(s1.contains(x) <==> s1.to_multiset().count(x) > 0);
        assert(s2.contains(x) <==> s2.to_multiset().count(x) > 0);
    }
    lemma_mismatch_iff_names_differ(s1);
    lemma_mismatch_iff_names_differ(s2);
    if names_agree(s1) {
        assert forall|i: int, j: int|
            0 <= i < s2.len() && 0 <= j < s2.len() && (#[trigger] s2[i]).variable is Some && (
            #[trigger] s2[j]).variable is Some implies s2[i].variable == s2[j].variable by {
            assert(s1.contains(s2[i]) && s1.contains(s2[j]));
        }
    }
    if names_agree(s2) {
        assert forall|i: int, j: int|
            0 <= i < s1.len() && 0 <= j < s1.len() && (#[trigger] s1[i]).variable is Some && (
            #[trigger] s1[j]).variable is Some implies s1[i].variable == s1[j].variable by {
            assert(s2.contains(s1[i]) && s2.contains(s1[j]));
        }
    }
    if names_agree(s1) {
        lemma_first_variable(s1, 0);
        lemma_first_variable(s2, 0);
        if first_variable(s1, 0) is Some {
            let k = choose|k: int|
                0 <= k < s1.len() && (#[trigger] s1[k]).variable == first_variable(s1, 0);
            assert(s2.contains(s1[k]));
            let m = choose|m: int| 0 <= m < s2.len() && s2[m] == s1[k];
            assert(s2[m].variable == first_variable(s2, 0));
        } else if first_variable(s2, 0) is Some {
            let k = choose|k: int|
                0 <= k < s2.len() && (#[trigger] s2[k]).variable == first_variable(s2, 0);
            assert(s1.contains(s2[k]));
            let m = choose|m: int| 0 <= m < s1.len() && s1[m] == s2[k];
            assert(s1[m].variable is None);
        }
        if all_placed(s1) {
            assert forall|i: int| 0 <= i < s2.len() implies (#[trigger] s2[i]).power() is Some by {
                assert(s1.contains(s2[i]));
            }
        }
        if all_placed(s2) {
            assert forall|i: int| 0 <= i < s1.len() implies (#[trigger] s1[i]).power() is Some by {
                assert(s2.contains(s1[i]));
            }
        }
        lemma_sum_any_order(s1, s2, 2);
        lemma_sum_any_order(s1, s2, 1);
        lemma_sum_any_order(s1, s2, 0);
    }
}

/// Negating a canonical form twice gives it back.
pub proof fn lemma_negated_twice(q: QuadraticView)
    ensures
        q.negated().negated() == q,
{
}

/// Reversing a relation twice gives it back.
pub proof fn lemma_reversed_twice(sign: Sign)
    ensures
        sign.reversed().reversed() == sign,
{
}

/// The roots come out in order: where the leading coefficient is not zero and
/// the discriminant is positive, the root that a solution names first is never
/// greater than the one that it names second. `s` is the square root of the
/// discriminant.
pub proof fn lemma_roots_in_order(q: QuadraticView, s: real)
    requires
        q.a != 0,
        q.discriminant() > 0,
        s >= 0 as real,
        s * s == q.discriminant() as real,
    ensures
        q.lower(q.root(s, false), q.root(s, true)) <= q.upper(q.root(s, false), q.root(s, true)),
{
    let low = (-q.b) as real - s;
    let high = (-q.b) as real + s;
    let den = (2 * q.a) as real;
    if q.a > 0 {
        assert(low / den <= high / den) by (nonlinear_arith)
            requires
                low <= high,
                den > 0 as real,
        ;
    } else {
        assert(high / den <= low / den) by (nonlinear_arith)
            requires
                low <= high,
                den < 0 as real,
        ;
    }
}

} // verus!
