//! The order that every algorithm sorts by, and what it means for a sequence
//! to be in order.
//!
//! Elements are compared with the operators of `PartialOrd`. The contracts
//! speak of one relation only, [`lt`]: "strictly below". The other operators
//! are tied to it by [`total_order`], the laws that the algorithms rely on.

use vstd::prelude::*;
use vstd::std_specs::cmp::PartialOrdSpec;
use core::cmp::Ordering;

verus! {

/// `a` is strictly below `b`.
pub open spec fn lt<T: PartialOrd>(a: T, b: T) -> bool {
    a.partial_cmp_spec(&b) == Some(Ordering::Less)
}

/// `a` is strictly above `b`.
pub open spec fn gt<T: PartialOrd>(a: T, b: T) -> bool {
    a.partial_cmp_spec(&b) == Some(Ordering::Greater)
}

/// `a` is below or equivalent to `b`.
pub open spec fn le<T: PartialOrd>(a: T, b: T) -> bool {
    a.partial_cmp_spec(&b) == Some(Ordering::Less) || a.partial_cmp_spec(&b) == Some(
        Ordering::Equal,
    )
}

/// The operators `<`, `<=`, `>` and `>=` of `T` compute what the type's
/// comparison specifies.
pub open spec fn comparable<T: PartialOrd>() -> bool {
    T::obeys_partial_cmp_spec()
}

/// The laws of a total order: any two values are comparable, `>` is `<` with
/// the sides exchanged, and `<=` is transitive.
#[verifier::opaque]
pub open spec fn total_order_laws<T: PartialOrd>() -> bool {
    &&& forall|a: T, b: T| #[trigger] le(a, b) || gt(a, b)
    &&& forall|a: T, b: T| #[trigger] lt(a, b) <==> gt(b, a)
    &&& forall|a: T, b: T, c: T| #[trigger] le(a, b) && #[trigger] le(b, c) ==> le(a, c)
}

/// `T` is totally ordered, and its operators compute that order.
///
/// Two values may be equivalent (neither below the other) without being equal.
pub open spec fn total_order<T: PartialOrd>() -> bool {
    comparable::<T>() && total_order_laws::<T>()
}

/// Under a total order `<=` holds exactly where the reverse `<` fails.
pub proof fn lemma_le_iff_not_lt<T: PartialOrd>(a: T, b: T)
    requires
        total_order::<T>(),
    ensures
        le(a, b) <==> !lt(b, a),
{
    reveal(total_order_laws);
    assert(le(a, b) || gt(a, b));
    assert(lt(b, a) <==> gt(a, b));
}

/// Under a total order `>` is `<` with the sides exchanged.
pub proof fn lemma_gt_iff_lt<T: PartialOrd>(a: T, b: T)
    requires
        total_order::<T>(),
    ensures
        gt(a, b) <==> lt(b, a),
{
    reveal(total_order_laws);
    assert(lt(b, a) <==> gt(a, b));
}

/// Of two values at most one is strictly below the other.
pub proof fn lemma_lt_asymmetric<T: PartialOrd>(a: T, b: T)
    requires
        total_order::<T>(),
        lt(a, b),
    ensures
        !lt(b, a),
{
    reveal(total_order_laws);
    assert(lt(b, a) <==> gt(a, b));
}

/// "Not above" is transitive: if `b` is not below `a` and `c` is not below
/// `b`, then `c` is not below `a`.
pub proof fn lemma_not_lt_transitive<T: PartialOrd>(a: T, b: T, c: T)
    requires
        total_order::<T>(),
        !lt(b, a),
        !lt(c, b),
    ensures
        !lt(c, a),
{
    lemma_le_iff_not_lt(a, b);
    lemma_le_iff_not_lt(b, c);
    lemma_le_iff_not_lt(a, c);
    reveal(total_order_laws);
    assert(le(a, b) && le(b, c) ==> le(a, c));
}

/// "Strictly below" is transitive.
pub proof fn lemma_lt_transitive<T: PartialOrd>(a: T, b: T, c: T)
    requires
        total_order::<T>(),
        lt(a, b),
        lt(b, c),
    ensures
        lt(a, c),
{
    lemma_lt_asymmetric(a, b);
    lemma_lt_asymmetric(b, c);
    if !lt(a, c) {
        // c <= a and a <= b give c <= b, against b < c.
        lemma_not_lt_transitive(c, a, b);
    }
}

/// `a < b`, as the operator computes it.
pub fn below<T: PartialOrd>(a: &T, b: &T) -> (r: bool)
    requires
        comparable::<T>(),
    ensures
        r == lt(*a, *b),
{
    *a < *b
}

/// `a > b`, as the operator computes it: `b` is strictly below `a`.
pub fn above<T: PartialOrd>(a: &T, b: &T) -> (r: bool)
    requires
        total_order::<T>(),
    ensures
        r == lt(*b, *a),
{
    proof {
        reveal(total_order_laws);
        lemma_gt_iff_lt(*a, *b);
    }
    *a > *b
}

/// `a <= b`, as the operator computes it: `b` is not strictly below `a`.
pub fn at_most<T: PartialOrd>(a: &T, b: &T) -> (r: bool)
    requires
        total_order::<T>(),
    ensures
        r == !lt(*b, *a),
{
    proof {
        reveal(total_order_laws);
        lemma_le_iff_not_lt(*a, *b);
    }
    *a <= *b
}

/// Two values of `T` that are equivalent, neither strictly below the other,
/// are equal.
pub open spec fn equivalent_means_equal<T: PartialOrd>() -> bool {
    forall|a: T, b: T| !#[trigger] lt(a, b) && !lt(b, a) ==> a == b
}

} // verus!
