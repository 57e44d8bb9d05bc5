//! Selection sort in place: each position in turn receives the least of what
//! follows it.

use vstd::prelude::*;
use crate::order::{lt, total_order, below, lemma_lt_asymmetric, lemma_not_lt_transitive};
use crate::sequence::{ascending, exchanged, same_elements, swap_at, lemma_exchanged_same_elements};

verus! {

/// The positions below `i` of `s` are in order, and none of the elements
/// from `i` on is below any of them.
pub open spec fn selected_to<T: PartialOrd>(s: Seq<T>, i: int) -> bool {
    forall|p: int, q: int| 0 <= p < i && p < q < s.len() ==> !lt(#[trigger] s[q], #[trigger] s[p])
}

/// None of the elements of `s` after `i` and before `j` is below the one at
/// `i`.
pub open spec fn least_to<T: PartialOrd>(s: Seq<T>, i: int, j: int) -> bool {
    forall|q: int| i < q < j ==> !lt(#[trigger] s[q], s[i])
}

/// `s` after the elements from `j` on have each been compared with the one
/// at `i`, and exchanged with it where they were strictly below it.
pub open spec fn least_brought_to<T: PartialOrd>(s: Seq<T>, i: int, j: int) -> Seq<T>
    decreases s.len() - j,
{
    if j >= s.len() || i < 0 || j < i {
        s
    } else if lt(s[j], s[i]) {
        least_brought_to(exchanged(s, j, i), i, j + 1)
    } else {
        least_brought_to(s, i, j + 1)
    }
}

/// `s` after each position from `i` on has in turn received the least of
/// what stood at it and after it.
pub open spec fn selected_from<T: PartialOrd>(s: Seq<T>, i: int) -> Seq<T>
    decreases s.len() - i,
    via selected_from_decreases::<T>
{
    if i >= s.len() || i < 0 {
        s
    } else {
        selected_from(least_brought_to(s, i, i), i + 1)
    }
}

#[via_fn]
proof fn selected_from_decreases<T: PartialOrd>(s: Seq<T>, i: int) {
    lemma_least_brought_len(s, i, i);
}

/// Bringing the least to a position keeps the length.
pub proof fn lemma_least_brought_len<T: PartialOrd>(s: Seq<T>, i: int, j: int)
    ensures
        least_brought_to(s, i, j).len() == s.len(),
    decreases s.len() - j,
{
    if !(j >= s.len() || i < 0 || j < i) {
        if lt(s[j], s[i]) {
            lemma_least_brought_len(exchanged(s, j, i), i, j + 1);
        } else {
            lemma_least_brought_len(s, i, j + 1);
        }
    }
}

/// Takes a vec of any type implementing `PartialOrd` and returns the ordered
/// list in ascending order.
pub fn selection_sort<T: PartialOrd + Copy + Clone>(list: Vec<T>) -> (sorted: Vec<T>)
    requires
        total_order::<T>(),
    ensures
        ascending(sorted@),
        same_elements(sorted@, list@),
        ascending(list@) ==> sorted@ == list@,
        sorted@ == selected_from(list@, 0),
{
    let ghost input = list@;
    let mut list = list;
    let n = list.len();
    let mut i: usize = 0;
    while i < n
        invariant
            total_order::<T>(),
            list.len() == n,
            i <= n,
            same_elements(list@, input),
            ascending(input) ==> list@ == input,
            selected_to(list@, i as int),
            selected_from(list@, i as int) == selected_from(input, 0),
        decreases n - i,
    {
        let mut j: usize = i;
        let ghost start = list@;
        while j < n
            invariant
                total_order::<T>(),
                list.len() == n,
                i <= j <= n,
                i < n,
                same_elements(list@, input),
                ascending(input) ==> list@ == input,
                selected_to(list@, i as int),
                least_to(list@, i as int, j as int),
                least_brought_to(list@, i as int, j as int) == least_brought_to(
                    start,
                    i as int,
                    i as int,
                ),
                selected_from(start, i as int) == selected_from(input, 0),
                start.len() == n,
            decreases n - j,
        {
            let ghost before = list@;
            if below(&list[j], &list[i]) {
                proof {
                    lemma_lt_asymmetric(before[j as int], before[i as int]);
                    lemma_exchanged_same_elements(before, j as int, i as int);
                    let after = exchanged(before, j as int, i as int);
                    assert forall|p: int, q: int| 0 <= p < i && p < q < after.len() implies !lt(
                        #[trigger] after[q],
                        #[trigger] after[p],
                    ) by {
                        assert(after[p] == before[p]);
                        if q == i {
                            assert(after[q] == before[j as int]);
                        } else if q == j {
                            assert(after[q] == before[i as int]);
                        } else {
                            assert(after[q] == before[q]);
                        }
                    }
                    assert forall|q: int| i < q < j + 1 implies !lt(
                        #[trigger] after[q],
                        after[i as int],
                    ) by {
                        if q < j {
                            assert(after[q] == before[q]);
                            lemma_not_lt_transitive(before[j as int], before[i as int], before[q]);
                        }
                    }
                    if ascending(input) {
                        assert(!lt(before[j as int], before[i as int]));
                    }
                }
                swap_at(&mut list, j, i);
            }
            j += 1;
        }
        i += 1;
    }
    list
}

} // verus!
