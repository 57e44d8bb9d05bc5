//! Insertion sort, with a cursor that rests at the front.

use vstd::prelude::*;
use crate::order::{lt, total_order, below, lemma_lt_asymmetric};
use crate::sequence::{
    ascending,
    ascending_in,
    same_elements,
    swap_at,
    lemma_exchanged_same_elements,
};
use crate::exchange::{
    by_leftmost_exchanges,
    leftmost_exchange_run,
    sinking,
    lemma_leftmost_exchanges_push,
    lemma_sink_step,
    lemma_sink_rest,
    lemma_sink_start,
};

verus! {

/// How many more exchanges the element after `j` may need: one for the
/// neighbours at hand where they are out of order, and one for each position
/// before them.
pub open spec fn exchanges_left<T: PartialOrd>(s: Seq<T>, j: int) -> int {
    if lt(s[j + 1], s[j]) {
        j + 1
    } else {
        j
    }
}

/// Sorts `list`: each element in turn is exchanged with its predecessor
/// until it is not below it.
pub fn insertion_sort<T: PartialOrd + Copy + Clone>(list: Vec<T>) -> (sorted: Vec<T>)
    requires
        total_order::<T>(),
    ensures
        ascending(sorted@),
        same_elements(sorted@, list@),
        ascending(list@) ==> sorted@ == list@,
        by_leftmost_exchanges(list@, sorted@),
{
    let ghost input = list@;
    let ghost mut trace = seq![list@];
    let mut list = list;
    let n = list.len();
    let mut i: usize = 1;
    while i < n
        invariant
            total_order::<T>(),
            list.len() == n,
            1 <= i,
            same_elements(list@, input),
            ascending(input) ==> list@ == input,
            leftmost_exchange_run(trace, input, list@),
            ascending_in(list@, 0, if i < n { i as int } else { n as int }),
        decreases n - i,
    {
        let mut j: usize = i - 1;
        proof {
            lemma_sink_start(list@, i as int);
        }
        while below(&list[j + 1], &list[j])
            invariant
                total_order::<T>(),
                list.len() == n,
                j < i < n,
                same_elements(list@, input),
                ascending(input) ==> list@ == input,
                leftmost_exchange_run(trace, input, list@),
                sinking(list@, j + 1, i + 1),
            decreases exchanges_left(list@, j as int),
        {
            let ghost before = list@;
            proof {
                lemma_sink_step(before, j + 1, i + 1);
                lemma_exchanged_same_elements(before, j as int, j + 1);
                lemma_lt_asymmetric(before[j + 1], before[j as int]);
            }
            swap_at(&mut list, j, j + 1);
            proof {
                lemma_leftmost_exchanges_push(trace, list@);
                trace = trace.push(list@);
            }
            if j > 0 {
                j -= 1;
            } else {
                proof {
                    lemma_sink_rest(list@, 0, i + 1);
                }
            }
        }
        proof {
            lemma_sink_rest(list@, j + 1, i + 1);
        }
        i += 1;
    }
    list
}

} // verus!
