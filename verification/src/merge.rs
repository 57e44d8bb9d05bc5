//! Merge sort that consumes its halves as it merges them.

use vstd::prelude::*;
use crate::order::{total_order, at_most};
use crate::sequence::{ascending, same_elements};
use crate::algorithms::merge_sort::{
    merged,
    merge_sorted,
    midpoint,
    lemma_merge_sorted_sorts,
    lemma_merge_sorted_of_ascending,
};

verus! {

/// Sorts `list` by merge sort: a list of more than one element is halved,
/// the first half taking half the length rounded down, each half sorted, and
/// the two merged.
pub fn merge_sort<T: PartialOrd + Copy + Clone + std::fmt::Debug>(list: Vec<T>) -> (sorted: Vec<T>)
    requires
        total_order::<T>(),
    ensures
        sorted@ == merge_sorted(list@),
        ascending(sorted@),
        same_elements(sorted@, list@),
        ascending(list@) ==> sorted@ == list@,
    decreases list.len(),
{
    proof {
        lemma_merge_sorted_sorts(list@);
        if ascending(list@) {
            lemma_merge_sorted_of_ascending(list@);
        }
    }
    if list.len() > 1 {
        let mut left: Vec<T> = Vec::new();
        let mut right: Vec<T> = Vec::new();
        let mut i: usize = 0;
        while i < list.len()
            invariant
                i <= list.len(),
                left@ == list@.take(
                    if i < midpoint(list@.len()) {
                        i as int
                    } else {
                        midpoint(list@.len())
                    },
                ),
                right@ == list@.subrange(
                    midpoint(list@.len()),
                    if i < midpoint(list@.len()) {
                        midpoint(list@.len())
                    } else {
                        i as int
                    },
                ),
            decreases list.len() - i,
        {
            if i < list.len() / 2 {
                left.push(list[i]);
                assert(left@ =~= list@.take(i + 1));
            } else {
                right.push(list[i]);
                assert(right@ =~= list@.subrange(midpoint(list@.len()), i + 1));
            }
            i += 1;
        }
        assert(right@ =~= list@.skip(midpoint(list@.len())));
        let left = merge_sort(left);
        let right = merge_sort(right);
        return merge(left, right);
    }
    list
}

/// Merges `left` and `right`, the front of `left` first where neither front
/// is below the other.
fn merge<T: PartialOrd + Copy + Clone + std::fmt::Debug>(left: Vec<T>, right: Vec<T>) -> (out: Vec<
    T,
>)
    requires
        total_order::<T>(),
    ensures
        out@ == merged(left@, right@),
{
    let ghost first = left@;
    let ghost second = right@;
    let mut left = left;
    let mut right = right;
    let mut sorted_list: Vec<T> = Vec::new();
    assert(sorted_list@ + merged(left@, right@) =~= merged(first, second));
    while left.len() > 0 && right.len() > 0
        invariant
            total_order::<T>(),
            sorted_list@ + merged(left@, right@) == merged(first, second),
        decreases left.len() + right.len(),
    {
        let ghost l = left@;
        let ghost r = right@;
        if at_most(&left[0], &right[0]) {
            sorted_list.push(left[0]);
            left.remove(0);
            proof {
                assert(left@ =~= l.drop_first());
                assert(merged(l, r) == seq![l[0]] + merged(l.drop_first(), r));
            }
        } else {
            sorted_list.push(right[0]);
            right.remove(0);
            proof {
                assert(right@ =~= r.drop_first());
                assert(merged(l, r) == seq![r[0]] + merged(l, r.drop_first()));
            }
        }
    }
    while left.len() > 0
        invariant
            right.len() == 0 || left.len() == 0,
            sorted_list@ + merged(left@, right@) == merged(first, second),
        decreases left.len(),
    {
        let ghost l = left@;
        sorted_list.push(left[0]);
        left.remove(0);
        proof {
            assert(left@ =~= l.drop_first());
            assert(seq![l[0]] + l.drop_first() =~= l);
        }
    }
    while right.len() > 0
        invariant
            left.len() == 0,
            sorted_list@ + merged(left@, right@) == merged(first, second),
        decreases right.len(),
    {
        let ghost r = right@;
        sorted_list.push(right[0]);
        right.remove(0);
        proof {
            assert(right@ =~= r.drop_first());
            assert(seq![r[0]] + r.drop_first() =~= r);
        }
    }
    assert(sorted_list@ + merged(left@, right@) =~= sorted_list@);
    sorted_list
}

} // verus!
