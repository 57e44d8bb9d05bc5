//! The algorithms and their traits, for one import.

pub use crate::algorithms::{
    bogosort, bogosort_stepped, bogosort_stepped_and_timed, bogosort_timed, bubble_sort,
    bubble_sort_stepped, bubble_sort_stepped_and_timed, bubble_sort_timed, gnome_sort,
    gnome_sort_stepped, gnome_sort_stepped_and_timed, gnome_sort_timed, insertion_sort,
    insertion_sort_stepped, insertion_sort_stepped_and_timed, insertion_sort_timed, merge_sort,
    merge_sort_stepped, merge_sort_stepped_and_timed, merge_sort_timed, selection_sort,
    selection_sort_stepped, selection_sort_stepped_and_timed, selection_sort_timed, slowsort,
    slowsort_stepped, slowsort_stepped_and_timed, slowsort_timed, stooge_sort,
    stooge_sort_stepped, stooge_sort_stepped_and_timed, stooge_sort_timed, Bogosort, BubbleSort,
    GnomeSort, InsertionSort, IsSorted, MergeSort, SelectionSort, Slowsort, StoogeSort,
};
