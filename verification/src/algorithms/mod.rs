//! The sorting algorithms, each in four modes (plain, timed, stepped, stepped
//! and timed) and two styles (on the caller's `Vec`, or taking one and
//! returning one).

use vstd::prelude::*;
use crate::order::{comparable, total_order, below};
use crate::sequence::{ascending, descent_at, no_descent, lemma_no_descent_ascending};

pub mod bogosort;
pub mod bubble_sort;
pub mod gnome_sort;
pub mod insertion_sort;
pub mod merge_sort;
pub mod selection_sort;
pub mod slowsort;
pub mod stooge_sort;

pub use bogosort::{
    bogosort,
    bogosort_stepped,
    bogosort_stepped_and_timed,
    bogosort_timed,
    Bogosort,
};
pub use bubble_sort::{
    bubble_sort,
    bubble_sort_stepped,
    bubble_sort_stepped_and_timed,
    bubble_sort_timed,
    BubbleSort,
};
pub use gnome_sort::{
    gnome_sort,
    gnome_sort_stepped,
    gnome_sort_stepped_and_timed,
    gnome_sort_timed,
    GnomeSort,
};
pub use insertion_sort::{
    insertion_sort,
    insertion_sort_stepped,
    insertion_sort_stepped_and_timed,
    insertion_sort_timed,
    InsertionSort,
};
pub use merge_sort::{
    merge_sort,
    merge_sort_stepped,
    merge_sort_stepped_and_timed,
    merge_sort_timed,
    MergeSort,
};
pub use selection_sort::{
    selection_sort,
    selection_sort_stepped,
    selection_sort_stepped_and_timed,
    selection_sort_timed,
    SelectionSort,
};
pub use slowsort::{
    slowsort,
    slowsort_stepped,
    slowsort_stepped_and_timed,
    slowsort_timed,
    Slowsort,
};
pub use stooge_sort::{
    stooge_sort,
    stooge_sort_stepped,
    stooge_sort_stepped_and_timed,
    stooge_sort_timed,
    StoogeSort,
};

verus! {

/// Whether the sequence that `self` holds is in order.
pub trait IsSorted<T: PartialEq + PartialOrd + Clone + Copy>: View<V = Seq<T>> + Sized {
    /// Whether no element is strictly below its predecessor. Under a total
    /// order that is to say that no element is strictly below any earlier
    /// one.
    fn is_sorted(&self) -> (sorted: bool)
        requires
            comparable::<T>(),
        ensures
            sorted == no_descent(self@),
            total_order::<T>() ==> sorted == ascending(self@),
    ;
}

impl<T> IsSorted<T> for Vec<T> where T: PartialEq + PartialOrd + Clone + Copy {
    fn is_sorted(&self) -> (sorted: bool) {
        let mut i: usize = 1;
        while i < self.len()
            invariant
                comparable::<T>(),
                1 <= i,
                forall|k: int| 1 <= k < i ==> !descent_at(self@, k),
            decreases self.len() - i,
        {
            if below(&self[i], &self[i - 1]) {
                assert(descent_at(self@, i as int));
                return false;
            }
            i += 1;
        }
        proof {
            assert forall|k: int| !#[trigger] descent_at(self@, k) by {}
            if total_order::<T>() {
                lemma_no_descent_ascending(self@);
            }
        }
        true
    }
}

} // verus!
