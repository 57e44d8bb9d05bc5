//! Bubble sort on elements that need not be `Copy`.

use vstd::prelude::*;
use crate::order::{lt, total_order, above};
use crate::sequence::{
    ascending,
    descent_at,
    exchanged,
    same_elements,
    lemma_exchanged_same_elements,
    lemma_no_descent_ascending,
};
use crate::exchange::{
    by_pass_exchanges,
    exchange_at,
    pass_exchange_run,
    pass_position,
    lemma_next_exchange_is,
    lemma_pass_exchanges_push,
};
use crate::algorithms::bubble_sort::{carried_to, passes_left, settled_from, lemma_pass_step};

verus! {

/// `<[T]>::swap` exchanges the elements at `a` and `b`, and panics where one
/// of the two is out of bounds.
pub assume_specification<E>[ <[E]>::swap ](slice: &mut [E], a: usize, b: usize)
    requires
        a < old(slice)@.len(),
        b < old(slice)@.len(),
    ensures
        final(slice)@ == exchanged(old(slice)@, a as int, b as int),
;

/// The position up to which a pass has compared neighbours when it has come
/// to `i`, in a sequence of `n` elements: the element at `i` with its
/// successor is next, where it has one.
pub open spec fn reached(i: int, n: int) -> int {
    if i + 1 < n {
        i + 1
    } else {
        n
    }
}

/// Sorts `list` by passes from left to right that exchange out-of-order
/// neighbours, until a pass exchanges nothing.
pub fn bubble_sort<T: PartialOrd>(list: Vec<T>) -> (sorted: Vec<T>)
    requires
        total_order::<T>(),
    ensures
        ascending(sorted@),
        same_elements(sorted@, list@),
        ascending(list@) ==> sorted@ == list@,
        by_pass_exchanges(list@, sorted@),
{
    let ghost input = list@;
    let ghost mut trace = seq![list@];
    let mut list = list;
    let n = list.len();
    let ghost mut unsettled: int = n as int;
    let ghost mut last: int = 0;
    let ghost mut started: bool = false;
    let mut done = false;
    while !done
        invariant
            total_order::<T>(),
            list.len() == n,
            same_elements(list@, input),
            ascending(input) ==> list@ == input,
            done ==> ascending(list@),
            0 <= unsettled <= n,
            settled_from(list@, unsettled),
            0 <= last,
            started ==> forall|k: int| last < k < n ==> !descent_at(list@, k),
            !started ==> last == 0,
            pass_exchange_run(trace, input, list@),
            last == pass_position(trace, trace.len() - 1),
        decreases passes_left(done, unsettled),
    {
        let mut sorted = true;
        let ghost mut fresh: bool = started;
        let mut i: usize = 0;
        proof {
            if unsettled <= 1 {
                assert(settled_from(list@, unsettled - 1));
            }
        }
        while i < n
            invariant
                total_order::<T>(),
                list.len() == n,
                i <= n,
                same_elements(list@, input),
                ascending(input) ==> list@ == input,
                0 <= unsettled <= n,
                settled_from(list@, unsettled),
                carried_to(list@, reached(i as int, n as int)),
                reached(i as int, n as int) >= unsettled ==> settled_from(list@, unsettled - 1),
                !sorted ==> unsettled >= 1,
                sorted ==> forall|k: int|
                    1 <= k < reached(i as int, n as int) ==> !descent_at(list@, k),
                0 <= last,
                !fresh && n > 0 ==> last < reached(i as int, n as int),
                !fresh ==> forall|k: int|
                    last < k < reached(i as int, n as int) ==> !descent_at(list@, k),
                fresh ==> forall|k: int| last < k < n ==> !descent_at(list@, k),
                fresh ==> forall|k: int|
                    1 <= k < reached(i as int, n as int) ==> !descent_at(list@, k),
                pass_exchange_run(trace, input, list@),
                last == pass_position(trace, trace.len() - 1),
            decreases n - i,
        {
            if i < n - 1 {
                let ghost before = list@;
                if above(&list[i], &list[i + 1]) {
                    proof {
                        assert(descent_at(before, i + 1));
                        lemma_next_exchange_is(before, last, i + 1, fresh);
                        lemma_exchanged_same_elements(before, i as int, i + 1);
                        lemma_pass_step(before, exchange_at(before, i + 1), i + 1, unsettled);
                        if ascending(input) {
                            assert(!lt(before[i + 1], before[i as int]));
                        }
                    }
                    list.swap(i, i + 1);
                    sorted = false;
                    proof {
                        lemma_pass_exchanges_push(trace, list@);
                        trace = trace.push(list@);
                        last = i + 1;
                        fresh = false;
                    }
                } else {
                    proof {
                        assert(!descent_at(before, i + 1));
                        lemma_pass_step(before, before, i + 1, unsettled);
                    }
                }
            }
            i += 1;
        }
        proof {
            if unsettled >= 1 {
                unsettled = unsettled - 1;
            }
            started = true;
            if sorted {
                assert forall|k: int| !#[trigger] descent_at(list@, k) by {}
                lemma_no_descent_ascending(list@);
            }
        }
        done = sorted;
    }
    list
}

} // verus!
