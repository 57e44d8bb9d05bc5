//! What holds of every sort of this library, beyond what each function
//! states of itself.

use vstd::prelude::*;
use vstd::seq_lib::to_multiset_remove;
use crate::order::{equivalent_means_equal, lt, total_order, lemma_lt_asymmetric};
use crate::sequence::{
    ascending,
    descent_at,
    no_descent,
    same_elements,
    lemma_same_elements_len,
    lemma_same_elements_position,
};
use crate::algorithms::merge_sort::{
    merge_sorted,
    lemma_merge_sorted_of_ascending,
    lemma_merge_sorted_sorts,
};
use crate::algorithms::selection_sort::{
    selection_sorted,
    lemma_selection_sorted_of_ascending,
    lemma_selection_sorted_sorts,
};
use crate::algorithms::slowsort::{slow_sorted, lemma_slow_sorted_sorts};
use crate::algorithms::stooge_sort::{stooge_sorted, lemma_stooge_sorted_sorts};
use crate::exchange::{
    by_leftmost_exchanges,
    by_pass_exchanges,
    first_descent,
    leftmost_exchange_gave,
    leftmost_exchange_run,
    leftmost_exchanges,
    next_exchange,
    pass_exchanges,
    pass_exchange_gave,
    pass_exchange_run,
    pass_position,
    lemma_first_descent_none,
};

verus! {

/// Where equivalent elements are equal, a sequence has one ascending
/// arrangement only: two ascending sequences with the same elements are the
/// same sequence. So there the results of all the sorts agree.
pub proof fn lemma_ascending_arrangement_unique<T: PartialOrd>(a: Seq<T>, b: Seq<T>)
    requires
        total_order::<T>(),
        equivalent_means_equal::<T>(),
        ascending(a),
        ascending(b),
        same_elements(a, b),
    ensures
        a == b,
    decreases a.len(),
{
    lemma_same_elements_len(a, b);
    if a.len() == 0 {
        assert(a =~= b);
    } else {
        let n = a.len() - 1;
        let k = lemma_same_elements_position(a, b, n);
        let m = lemma_same_elements_position(b, a, n);
        assert(!lt(b[n], a[n])) by {
            if k < n {
                assert(!lt(b[n], b[k]));
            } else if lt(b[n], b[n]) {
                lemma_lt_asymmetric(b[n], b[n]);
            }
        }
        assert(!lt(a[n], b[n])) by {
            if m < n {
                assert(!lt(a[n], a[m]));
            } else if lt(a[n], a[n]) {
                lemma_lt_asymmetric(a[n], a[n]);
            }
        }
        assert(a[n] == b[n]);
        to_multiset_remove(a, n);
        to_multiset_remove(b, n);
        assert(a.remove(n) =~= a.drop_last());
        assert(b.remove(n) =~= b.drop_last());
        lemma_ascending_arrangement_unique(a.drop_last(), b.drop_last());
        assert(a =~= a.drop_last().push(a[n]));
        assert(b =~= b.drop_last().push(b[n]));
    }
}

/// Two runs of leftmost exchanges from the same sequence agree as far as
/// both go.
proof fn lemma_leftmost_runs_agree<T: PartialOrd>(x: Seq<Seq<T>>, y: Seq<Seq<T>>, k: int)
    requires
        leftmost_exchanges(x),
        leftmost_exchanges(y),
        0 <= k < x.len(),
        k < y.len(),
        x[0] == y[0],
    ensures
        x[k] == y[k],
    decreases k,
{
    if k > 0 {
        lemma_leftmost_runs_agree(x, y, k - 1);
        assert(leftmost_exchange_gave(x, k));
        assert(leftmost_exchange_gave(y, k));
    }
}

/// Exchanging the leftmost out-of-order neighbours until none are left leads
/// from a sequence to one result only. So gnome sort and insertion sort,
/// which both proceed so, give the same result.
pub proof fn lemma_leftmost_exchanges_unique<T: PartialOrd>(input: Seq<T>, a: Seq<T>, b: Seq<T>)
    requires
        by_leftmost_exchanges(input, a),
        by_leftmost_exchanges(input, b),
        no_descent(a),
        no_descent(b),
    ensures
        a == b,
{
    let x = choose|x: Seq<Seq<T>>| #[trigger] leftmost_exchange_run(x, input, a);
    let y = choose|y: Seq<Seq<T>>| #[trigger] leftmost_exchange_run(y, input, b);
    if x.len() <= y.len() {
        lemma_leftmost_runs_agree(x, y, x.len() - 1);
        if x.len() < y.len() {
            assert(leftmost_exchange_gave(y, x.len() as int));
            lemma_first_descent_none(a, 1);
            assert(!descent_at(a, first_descent(a, 1)));
        }
    } else {
        lemma_leftmost_runs_agree(x, y, y.len() - 1);
        assert(leftmost_exchange_gave(x, y.len() as int));
        lemma_first_descent_none(b, 1);
        assert(!descent_at(b, first_descent(b, 1)));
    }
}

/// Two runs of exchanges in passes from the same sequence agree as far as
/// both go, in what they show and in where they exchanged.
proof fn lemma_pass_runs_agree<T: PartialOrd>(x: Seq<Seq<T>>, y: Seq<Seq<T>>, k: int)
    requires
        pass_exchanges(x),
        pass_exchanges(y),
        0 <= k < x.len(),
        k < y.len(),
        x[0] == y[0],
    ensures
        x[k] == y[k],
        pass_position(x, k) == pass_position(y, k),
    decreases k,
{
    if k > 0 {
        lemma_pass_runs_agree(x, y, k - 1);
        assert(pass_exchange_gave(x, k));
        assert(pass_exchange_gave(y, k));
    }
}

/// Exchanging out-of-order neighbours in passes from left to right until
/// none are left leads from a sequence to one result only.
pub proof fn lemma_pass_exchanges_unique<T: PartialOrd>(input: Seq<T>, a: Seq<T>, b: Seq<T>)
    requires
        by_pass_exchanges(input, a),
        by_pass_exchanges(input, b),
        no_descent(a),
        no_descent(b),
    ensures
        a == b,
{
    let x = choose|x: Seq<Seq<T>>| #[trigger] pass_exchange_run(x, input, a);
    let y = choose|y: Seq<Seq<T>>| #[trigger] pass_exchange_run(y, input, b);
    if x.len() <= y.len() {
        lemma_pass_runs_agree(x, y, x.len() - 1);
        if x.len() < y.len() {
            assert(pass_exchange_gave(y, x.len() as int));
            lemma_pass_position_descent(a, pass_position(y, x.len() - 1));
        }
    } else {
        lemma_pass_runs_agree(x, y, y.len() - 1);
        assert(pass_exchange_gave(x, y.len() as int));
        lemma_pass_position_descent(b, pass_position(x, y.len() - 1));
    }
}

/// Where a pass finds a position to exchange at, there is a descent.
proof fn lemma_pass_position_descent<T: PartialOrd>(s: Seq<T>, last: int)
    requires
        no_descent(s),
    ensures
        next_exchange(s, last) >= s.len(),
{
    lemma_first_descent_none(s, 1);
    if first_descent(s, 1) < s.len() {
        assert(descent_at(s, first_descent(s, 1)));
    }
    if 0 <= last + 1 {
        lemma_first_descent_none(s, last + 1);
        if first_descent(s, last + 1) < s.len() {
            assert(descent_at(s, first_descent(s, last + 1)));
        }
    } else {
        lemma_first_descent_negative(s, last + 1);
    }
}

/// From a position before the sequence on, the first descent is that from
/// position 0 on.
proof fn lemma_first_descent_negative<T: PartialOrd>(s: Seq<T>, from: int)
    requires
        from <= 0,
        no_descent(s),
    ensures
        first_descent(s, from) >= s.len(),
    decreases s.len() - from,
{
    if from < s.len() {
        assert(!descent_at(s, from));
        if from < 0 {
            lemma_first_descent_negative(s, from + 1);
        } else {
            lemma_first_descent_none(s, from + 1);
            if first_descent(s, from + 1) < s.len() {
                assert(descent_at(s, first_descent(s, from + 1)));
            }
        }
    }
}

/// Sorting what is sorted changes nothing: each sort, applied to its own
/// result, gives that result again.
pub proof fn lemma_sorting_twice<T: PartialOrd>(s: Seq<T>)
    requires
        total_order::<T>(),
    ensures
        merge_sorted(merge_sorted(s)) == merge_sorted(s),
        selection_sorted(selection_sorted(s)) == selection_sorted(s),
        slow_sorted(slow_sorted(s)) == slow_sorted(s),
        stooge_sorted(stooge_sorted(s)) == stooge_sorted(s),
{
    lemma_merge_sorted_sorts(s);
    lemma_merge_sorted_of_ascending(merge_sorted(s));
    lemma_selection_sorted_sorts(s);
    lemma_selection_sorted_of_ascending(selection_sorted(s));
    lemma_slow_sorted_sorts(s);
    lemma_slow_sorted_sorts(slow_sorted(s));
    lemma_stooge_sorted_sorts(s);
    lemma_stooge_sorted_sorts(stooge_sorted(s));
}

/// Where equivalent elements are equal, the sorts agree on every sequence.
pub proof fn lemma_sorts_agree<T: PartialOrd>(s: Seq<T>)
    requires
        total_order::<T>(),
        equivalent_means_equal::<T>(),
    ensures
        selection_sorted(s) == merge_sorted(s),
        slow_sorted(s) == merge_sorted(s),
        stooge_sorted(s) == merge_sorted(s),
{
    lemma_merge_sorted_sorts(s);
    lemma_selection_sorted_sorts(s);
    lemma_slow_sorted_sorts(s);
    lemma_stooge_sorted_sorts(s);
    lemma_ascending_arrangement_unique(selection_sorted(s), merge_sorted(s));
    lemma_ascending_arrangement_unique(slow_sorted(s), merge_sorted(s));
    lemma_ascending_arrangement_unique(stooge_sorted(s), merge_sorted(s));
}

} // verus!
