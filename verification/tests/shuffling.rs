use sort_it::algorithms::{
    bogosort, bogosort_stepped, bogosort_stepped_and_timed, bogosort_timed, Bogosort, IsSorted,
};

fn occurrences(values: &[u8]) -> [usize; 8] {
    let mut count = [0usize; 8];
    for value in values {
        count[*value as usize] += 1;
    }
    count
}

#[test]
fn bogosort_sorts_small_inputs_given_enough_attempts() {
    assert_eq!(bogosort(vec![2, 1, 3], usize::MAX), vec![1, 2, 3]);
    assert_eq!(bogosort(vec![4, 2, 1, 5, 6], usize::MAX), vec![1, 2, 4, 5, 6]);
    assert_eq!(bogosort(vec![3, 3, 1, 2, 1, 2], usize::MAX), vec![1, 1, 2, 2, 3, 3]);
    assert_eq!(bogosort(vec![1.2, 0.1], usize::MAX), vec![0.1, 1.2]);
}

#[test]
fn bogosort_moves_what_is_out_of_order() {
    // With a shuffle that left the sequence as it was, this would still be
    // out of order after any number of attempts.
    let sorted = bogosort(vec![5, 4, 3, 2, 1], 10_000_000);
    assert_eq!(sorted, vec![1, 2, 3, 4, 5]);
}

#[test]
fn bogosort_without_attempts_leaves_the_input() {
    assert_eq!(bogosort(vec![3, 1, 2], 0), vec![3, 1, 2]);
    let (arr, steps) = bogosort_stepped(vec![3, 1, 2], 0);
    assert_eq!(arr, vec![3, 1, 2]);
    assert_eq!(steps, vec![vec![3, 1, 2]]);
}

#[test]
fn bogosort_leaves_trivial_and_sorted_input() {
    assert_eq!(bogosort(Vec::<i32>::new(), usize::MAX), Vec::<i32>::new());
    assert_eq!(bogosort(vec![1], usize::MAX), vec![1]);
    assert_eq!(bogosort_stepped(vec![1], usize::MAX), (vec![1], vec![vec![1]]));
    assert_eq!(bogosort_stepped(Vec::<i32>::new(), 7), (vec![], vec![vec![]]));
    let sorted = vec![1, 2, 2, 3];
    assert_eq!(bogosort_stepped(sorted.clone(), usize::MAX), (sorted.clone(), vec![sorted]));
}

#[test]
fn bogosort_stops_after_its_attempts() {
    for attempts in 0..6usize {
        let input: Vec<u8> = vec![7, 6, 5, 4, 3, 2, 1, 0];
        let (arr, steps) = bogosort_stepped(input.clone(), attempts);
        assert!(steps.len() <= attempts + 1);
        assert!(IsSorted::is_sorted(&arr) || steps.len() == attempts + 1);
        assert_eq!(occurrences(&arr), occurrences(&input));
    }
}

#[test]
fn bogosort_trace_shows_each_shuffle() {
    let input: Vec<u8> = vec![3, 1, 2, 0];
    let (arr, steps) = bogosort_stepped(input.clone(), usize::MAX);
    assert_eq!(arr, vec![0, 1, 2, 3]);
    assert_eq!(steps.first(), Some(&input));
    assert_eq!(steps.last(), Some(&arr));
    for step in &steps {
        assert_eq!(occurrences(step), occurrences(&input));
    }
    for step in &steps[..steps.len() - 1] {
        assert!(!IsSorted::is_sorted(step));
    }
}

#[test]
fn bogosort_methods_sort_in_place() {
    let mut arr = vec![2, 3, 1];
    arr.bogosort(usize::MAX);
    assert_eq!(arr, vec![1, 2, 3]);

    let mut arr = vec![2, 3, 1];
    let steps = arr.bogosort_stepped(usize::MAX);
    assert_eq!(arr, vec![1, 2, 3]);
    assert_eq!(steps[0], vec![2, 3, 1]);
    assert_eq!(steps.last(), Some(&vec![1, 2, 3]));

    let mut arr = vec![2, 3, 1];
    let elapsed = arr.bogosort_timed(usize::MAX);
    assert_eq!(arr, vec![1, 2, 3]);
    assert!(elapsed >= std::time::Duration::ZERO);

    let mut arr = vec![2, 3, 1];
    let (steps, elapsed) = arr.bogosort_stepped_and_timed(usize::MAX);
    assert_eq!(arr, vec![1, 2, 3]);
    assert_eq!(steps.last(), Some(&vec![1, 2, 3]));
    assert!(elapsed >= std::time::Duration::ZERO);
}

#[test]
fn bogosort_timed_functions_sort() {
    let (arr, elapsed) = bogosort_timed(vec![2, 1, 3], usize::MAX);
    assert_eq!(arr, vec![1, 2, 3]);
    assert!(elapsed >= std::time::Duration::ZERO);
    let (arr, steps, elapsed) = bogosort_stepped_and_timed(vec![2, 1, 3], usize::MAX);
    assert_eq!(arr, vec![1, 2, 3]);
    assert_eq!(steps[0], vec![2, 1, 3]);
    assert!(elapsed >= std::time::Duration::ZERO);
}
