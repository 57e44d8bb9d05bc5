use sort_it::algorithms::{
    bubble_sort_stepped, bubble_sort_stepped_and_timed, bubble_sort_timed, gnome_sort_stepped,
    gnome_sort_stepped_and_timed, gnome_sort_timed, insertion_sort_stepped,
    insertion_sort_stepped_and_timed, insertion_sort_timed, merge_sort_stepped,
    merge_sort_stepped_and_timed, merge_sort_timed, selection_sort_stepped,
    selection_sort_stepped_and_timed, selection_sort_timed, slowsort_stepped,
    slowsort_stepped_and_timed, slowsort_timed, stooge_sort_stepped,
    stooge_sort_stepped_and_timed, stooge_sort_timed, BubbleSort, GnomeSort, InsertionSort,
    MergeSort, SelectionSort, Slowsort, StoogeSort,
};
use std::time::Duration;

fn inputs() -> Vec<Vec<i32>> {
    vec![vec![], vec![1], vec![4, 2, 1, 5, 6], vec![6, 5, 4, 3, 2, 1, 0]]
}

fn sorted(input: &[i32]) -> Vec<i32> {
    let mut expected = input.to_vec();
    expected.sort();
    expected
}

#[test]
fn timed_sorts_return_a_time_and_the_sorted_sequence() {
    let timed: [fn(Vec<i32>) -> (Vec<i32>, Duration); 7] = [
        bubble_sort_timed,
        gnome_sort_timed,
        insertion_sort_timed,
        merge_sort_timed,
        selection_sort_timed,
        slowsort_timed,
        stooge_sort_timed,
    ];
    for sort in timed {
        for input in inputs() {
            let (output, elapsed) = sort(input.clone());
            assert_eq!(output, sorted(&input));
            assert!(elapsed >= Duration::ZERO);
        }
    }
}

#[test]
fn stepped_and_timed_sorts_return_the_trace_of_the_stepped_ones() {
    for input in inputs() {
        let (output, steps, elapsed) = bubble_sort_stepped_and_timed(input.clone());
        assert_eq!((output, steps), bubble_sort_stepped(input.clone()));
        assert!(elapsed >= Duration::ZERO);

        let (output, steps, elapsed) = gnome_sort_stepped_and_timed(input.clone());
        assert_eq!((output, steps), gnome_sort_stepped(input.clone()));
        assert!(elapsed >= Duration::ZERO);

        let (output, steps, elapsed) = insertion_sort_stepped_and_timed(input.clone());
        assert_eq!((output, steps), insertion_sort_stepped(input.clone()));
        assert!(elapsed >= Duration::ZERO);

        let (output, steps, elapsed) = merge_sort_stepped_and_timed(input.clone());
        assert_eq!((output, steps), merge_sort_stepped(input.clone()));
        assert!(elapsed >= Duration::ZERO);

        let (output, steps, elapsed) = selection_sort_stepped_and_timed(input.clone());
        assert_eq!((output, steps), selection_sort_stepped(input.clone()));
        assert!(elapsed >= Duration::ZERO);

        let (output, steps, elapsed) = slowsort_stepped_and_timed(input.clone());
        assert_eq!((output, steps), slowsort_stepped(input.clone()));
        assert!(elapsed >= Duration::ZERO);

        let (output, steps, elapsed) = stooge_sort_stepped_and_timed(input.clone());
        assert_eq!((output, steps), stooge_sort_stepped(input.clone()));
        assert!(elapsed >= Duration::ZERO);
    }
}

#[test]
fn timed_methods_sort_in_place() {
    for input in inputs() {
        let expected = sorted(&input);

        let mut arr = input.clone();
        assert!(arr.bubble_sort_timed() >= Duration::ZERO);
        assert_eq!(arr, expected);
        let mut arr = input.clone();
        assert!(arr.gnome_sort_timed() >= Duration::ZERO);
        assert_eq!(arr, expected);
        let mut arr = input.clone();
        assert!(arr.insertion_sort_timed() >= Duration::ZERO);
        assert_eq!(arr, expected);
        let mut arr = input.clone();
        assert!(arr.merge_sort_timed() >= Duration::ZERO);
        assert_eq!(arr, expected);
        let mut arr = input.clone();
        assert!(arr.selection_sort_timed() >= Duration::ZERO);
        assert_eq!(arr, expected);
        let mut arr = input.clone();
        assert!(arr.slowsort_timed() >= Duration::ZERO);
        assert_eq!(arr, expected);
        let mut arr = input.clone();
        assert!(arr.stooge_sort_timed() >= Duration::ZERO);
        assert_eq!(arr, expected);
    }
}

#[test]
fn stepped_and_timed_methods_sort_in_place() {
    let input = vec![4, 2, 1, 5, 6];
    let expected = vec![1, 2, 4, 5, 6];

    let mut arr = input.clone();
    let (steps, _) = arr.bubble_sort_stepped_and_timed();
    assert_eq!((arr, steps), bubble_sort_stepped(input.clone()));
    let mut arr = input.clone();
    let (steps, _) = arr.gnome_sort_stepped_and_timed();
    assert_eq!((arr, steps), gnome_sort_stepped(input.clone()));
    let mut arr = input.clone();
    let (steps, _) = arr.insertion_sort_stepped_and_timed();
    assert_eq!((arr, steps), insertion_sort_stepped(input.clone()));
    let mut arr = input.clone();
    let (steps, _) = arr.merge_sort_stepped_and_timed();
    assert_eq!((arr, steps), merge_sort_stepped(input.clone()));
    let mut arr = input.clone();
    let (steps, _) = arr.selection_sort_stepped_and_timed();
    assert_eq!((arr, steps), selection_sort_stepped(input.clone()));
    let mut arr = input.clone();
    let (steps, _) = arr.slowsort_stepped_and_timed();
    assert_eq!((arr, steps), slowsort_stepped(input.clone()));
    let mut arr = input.clone();
    let (steps, _) = arr.stooge_sort_stepped_and_timed();
    assert_eq!(arr, expected);
    assert_eq!(steps, stooge_sort_stepped(input.clone()).1);
}
