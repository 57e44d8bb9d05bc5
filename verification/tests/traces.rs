use sort_it::algorithms::{
    bubble_sort_stepped, gnome_sort_stepped, insertion_sort_stepped, merge_sort_stepped,
    selection_sort_stepped, slowsort_stepped, stooge_sort_stepped, BubbleSort, GnomeSort,
    InsertionSort, MergeSort, SelectionSort, Slowsort, StoogeSort,
};

#[test]
fn bubble_sort_records_each_exchange_of_a_pass() {
    let (sorted, steps) = bubble_sort_stepped(vec![4, 3, 2, 1]);
    assert_eq!(sorted, vec![1, 2, 3, 4]);
    assert_eq!(
        steps,
        vec![
            vec![4, 3, 2, 1],
            vec![3, 4, 2, 1],
            vec![3, 2, 4, 1],
            vec![3, 2, 1, 4],
            vec![2, 3, 1, 4],
            vec![2, 1, 3, 4],
            vec![1, 2, 3, 4],
        ]
    );
    let (_, steps) = bubble_sort_stepped(vec![2, 1, 4, 3]);
    assert_eq!(steps, vec![vec![2, 1, 4, 3], vec![1, 2, 4, 3], vec![1, 2, 3, 4]]);
}

#[test]
fn gnome_sort_records_the_leftmost_exchange() {
    let (sorted, steps) = gnome_sort_stepped(vec![4, 3, 2, 1]);
    assert_eq!(sorted, vec![1, 2, 3, 4]);
    assert_eq!(
        steps,
        vec![
            vec![4, 3, 2, 1],
            vec![3, 4, 2, 1],
            vec![3, 2, 4, 1],
            vec![2, 3, 4, 1],
            vec![2, 3, 1, 4],
            vec![2, 1, 3, 4],
            vec![1, 2, 3, 4],
        ]
    );
}

#[test]
fn insertion_sort_and_gnome_sort_leave_the_same_trace() {
    let inputs = vec![
        vec![4, 3, 2, 1],
        vec![3, 1, 2],
        vec![2, 1, 4, 3],
        vec![5, 1, 4, 2, 3, 1],
        vec![1, 2, 3],
        vec![],
    ];
    for input in inputs {
        let (by_insertion, insertion_steps) = insertion_sort_stepped(input.clone());
        let (by_gnome, gnome_steps) = gnome_sort_stepped(input.clone());
        assert_eq!(by_insertion, by_gnome);
        assert_eq!(insertion_steps, gnome_steps);
    }
    let (_, steps) = insertion_sort_stepped(vec![3, 1, 2]);
    assert_eq!(steps, vec![vec![3, 1, 2], vec![1, 3, 2], vec![1, 2, 3]]);
}

#[test]
fn merge_sort_records_each_merge() {
    let (sorted, steps) = merge_sort_stepped(vec![2, 1, 4, 3]);
    assert_eq!(sorted, vec![1, 2, 3, 4]);
    assert_eq!(steps, vec![vec![2, 1, 4, 3], vec![1, 2], vec![3, 4], vec![1, 2, 3, 4]]);
    let (_, steps) = merge_sort_stepped(vec![3, 1, 2]);
    assert_eq!(steps, vec![vec![3, 1, 2], vec![1, 2], vec![1, 2, 3]]);
    let (_, steps) = merge_sort_stepped(vec![4, 3, 2, 1]);
    assert_eq!(steps, vec![vec![4, 3, 2, 1], vec![3, 4], vec![1, 2], vec![1, 2, 3, 4]]);
    let (_, steps) = merge_sort_stepped(vec![1, 32, 53, 13, 7]);
    assert_eq!(
        steps,
        vec![
            vec![1, 32, 53, 13, 7],
            vec![1, 32],
            vec![7, 13],
            vec![7, 13, 53],
            vec![1, 7, 13, 32, 53],
        ]
    );
}

#[test]
fn merge_sort_trace_has_one_entry_for_each_element() {
    for n in 2..20usize {
        let input: Vec<usize> = (0..n).rev().collect();
        let (_, steps) = merge_sort_stepped(input);
        assert_eq!(steps.len(), n);
    }
}

#[test]
fn selection_sort_records_each_extraction() {
    let (sorted, steps) = selection_sort_stepped(vec![2, 1, 4, 3]);
    assert_eq!(sorted, vec![1, 2, 3, 4]);
    assert_eq!(
        steps,
        vec![
            (vec![2, 1, 4, 3], vec![]),
            (vec![2, 4, 3], vec![1]),
            (vec![4, 3], vec![1, 2]),
            (vec![4], vec![1, 2, 3]),
            (vec![], vec![1, 2, 3, 4]),
        ]
    );
}

#[test]
fn slowsort_records_each_exchange() {
    let (sorted, steps) = slowsort_stepped(vec![4, 3, 2, 1]);
    assert_eq!(sorted, vec![1, 2, 3, 4]);
    assert_eq!(
        steps,
        vec![
            vec![4, 3, 2, 1],
            vec![3, 4, 2, 1],
            vec![3, 4, 1, 2],
            vec![3, 2, 1, 4],
            vec![2, 3, 1, 4],
            vec![2, 1, 3, 4],
            vec![1, 2, 3, 4],
        ]
    );
    let (_, steps) = slowsort_stepped(vec![3, 1, 2]);
    assert_eq!(steps, vec![vec![3, 1, 2], vec![1, 3, 2], vec![1, 2, 3]]);
}

#[test]
fn stooge_sort_records_after_each_part() {
    let (sorted, steps) = stooge_sort_stepped(vec![3, 1, 2]);
    assert_eq!(sorted, vec![1, 2, 3]);
    assert_eq!(steps, vec![vec![3, 1, 2], vec![1, 2, 3], vec![1, 2, 3], vec![1, 2, 3]]);

    let (sorted, steps) = stooge_sort_stepped(vec![2, 1]);
    assert_eq!(sorted, vec![1, 2]);
    assert_eq!(steps, vec![vec![2, 1]]);

    let (sorted, steps) = stooge_sort_stepped(vec![2, 1, 4, 3]);
    assert_eq!(sorted, vec![1, 2, 3, 4]);
    assert_eq!(steps.len(), 13);
    assert_eq!(steps[0], vec![2, 1, 4, 3]);
    for step in &steps[1..6] {
        assert_eq!(step, &vec![1, 2, 4, 3]);
    }
    for step in &steps[6..] {
        assert_eq!(step, &vec![1, 2, 3, 4]);
    }

    let (_, steps) = stooge_sort_stepped(vec![4, 3, 2, 1]);
    assert_eq!(steps.len(), 13);
    assert_eq!(steps[1], vec![1, 3, 2, 4]);
    assert_eq!(steps[2], vec![1, 2, 3, 4]);
}

#[test]
fn every_trace_starts_with_the_input() {
    let input = vec![9, 7, 8, 1, 3, 2];
    assert_eq!(bubble_sort_stepped(input.clone()).1[0], input);
    assert_eq!(gnome_sort_stepped(input.clone()).1[0], input);
    assert_eq!(insertion_sort_stepped(input.clone()).1[0], input);
    assert_eq!(merge_sort_stepped(input.clone()).1[0], input);
    assert_eq!(slowsort_stepped(input.clone()).1[0], input);
    assert_eq!(stooge_sort_stepped(input.clone()).1[0], input);
    assert_eq!(selection_sort_stepped(input.clone()).1[0], (input.clone(), vec![]));
}

#[test]
fn traces_end_with_the_result() {
    let input = vec![9, 7, 8, 1, 3, 2];
    let sorted = vec![1, 2, 3, 7, 8, 9];
    assert_eq!(bubble_sort_stepped(input.clone()).1.last(), Some(&sorted));
    assert_eq!(gnome_sort_stepped(input.clone()).1.last(), Some(&sorted));
    assert_eq!(insertion_sort_stepped(input.clone()).1.last(), Some(&sorted));
    assert_eq!(merge_sort_stepped(input.clone()).1.last(), Some(&sorted));
    assert_eq!(slowsort_stepped(input.clone()).1.last(), Some(&sorted));
    assert_eq!(stooge_sort_stepped(input.clone()).1.last(), Some(&sorted));
    assert_eq!(selection_sort_stepped(input.clone()).1.last(), Some(&(vec![], sorted.clone())));
}

#[test]
fn methods_leave_the_traces_of_the_functions() {
    let input = vec![5, 2, 4, 1, 3];

    let mut arr = input.clone();
    assert_eq!(arr.bubble_sort_stepped(), bubble_sort_stepped(input.clone()).1);
    assert_eq!(arr, vec![1, 2, 3, 4, 5]);

    let mut arr = input.clone();
    assert_eq!(arr.gnome_sort_stepped(), gnome_sort_stepped(input.clone()).1);
    assert_eq!(arr, vec![1, 2, 3, 4, 5]);

    let mut arr = input.clone();
    assert_eq!(arr.insertion_sort_stepped(), insertion_sort_stepped(input.clone()).1);
    assert_eq!(arr, vec![1, 2, 3, 4, 5]);

    let mut arr = input.clone();
    assert_eq!(arr.merge_sort_stepped(), merge_sort_stepped(input.clone()).1);
    assert_eq!(arr, vec![1, 2, 3, 4, 5]);

    let mut arr = input.clone();
    assert_eq!(arr.selection_sort_stepped(), selection_sort_stepped(input.clone()).1);
    assert_eq!(arr, vec![1, 2, 3, 4, 5]);

    let mut arr = input.clone();
    assert_eq!(arr.slowsort_stepped(), slowsort_stepped(input.clone()).1);
    assert_eq!(arr, vec![1, 2, 3, 4, 5]);

    let mut arr = input.clone();
    assert_eq!(arr.stooge_sort_stepped(), stooge_sort_stepped(input.clone()).1);
    assert_eq!(arr, vec![1, 2, 3, 4, 5]);
}
