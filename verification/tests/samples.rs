use sort_it::algorithms::{
    bubble_sort, bubble_sort_stepped, gnome_sort, gnome_sort_stepped, insertion_sort,
    insertion_sort_stepped, merge_sort, merge_sort_stepped, selection_sort,
    selection_sort_stepped, slowsort, slowsort_stepped, stooge_sort, stooge_sort_stepped,
    IsSorted,
};

/// Sequences of up to seven small numbers, many of them with repeats.
fn samples() -> Vec<Vec<u32>> {
    let mut state: u64 = 0x2545_f491_4f6c_dd1d;
    let mut all = vec![vec![], vec![0], vec![1, 1], vec![3, 2, 1], vec![1, 2, 3]];
    for round in 0..60u64 {
        let len = (round % 8) as usize;
        let mut next = Vec::with_capacity(len);
        for _ in 0..len {
            state = state.wrapping_mul(6364136223846793005).wrapping_add(1442695040888963407);
            next.push(((state >> 33) % 6) as u32);
        }
        all.push(next);
    }
    all
}

fn occurrences(values: &[u32]) -> [usize; 6] {
    let mut count = [0usize; 6];
    for value in values {
        count[*value as usize] += 1;
    }
    count
}

fn holds_for_every_sample(sort: fn(Vec<u32>) -> Vec<u32>) {
    for input in samples() {
        let output = sort(input.clone());
        assert_eq!(output.len(), input.len());
        assert_eq!(occurrences(&output), occurrences(&input));
        for pair in output.windows(2) {
            assert!(pair[0] <= pair[1]);
        }
        assert!(IsSorted::is_sorted(&output));
        let mut expected = input.clone();
        expected.sort();
        assert_eq!(output, expected);
        assert_eq!(sort(output.clone()), output);
    }
}

#[test]
fn bubble_sort_keeps_and_orders() {
    holds_for_every_sample(bubble_sort);
}

#[test]
fn gnome_sort_keeps_and_orders() {
    holds_for_every_sample(gnome_sort);
}

#[test]
fn insertion_sort_keeps_and_orders() {
    holds_for_every_sample(insertion_sort);
}

#[test]
fn merge_sort_keeps_and_orders() {
    holds_for_every_sample(merge_sort);
}

#[test]
fn selection_sort_keeps_and_orders() {
    holds_for_every_sample(selection_sort);
}

#[test]
fn slowsort_keeps_and_orders() {
    holds_for_every_sample(slowsort);
}

#[test]
fn stooge_sort_keeps_and_orders() {
    holds_for_every_sample(stooge_sort);
}

#[test]
fn sorted_input_is_left_alone_and_traced_once() {
    let sorted = vec![1, 2, 2, 5, 8, 13];
    assert_eq!(bubble_sort_stepped(sorted.clone()), (sorted.clone(), vec![sorted.clone()]));
    assert_eq!(gnome_sort_stepped(sorted.clone()), (sorted.clone(), vec![sorted.clone()]));
    assert_eq!(insertion_sort_stepped(sorted.clone()), (sorted.clone(), vec![sorted.clone()]));
    assert_eq!(slowsort_stepped(sorted.clone()), (sorted.clone(), vec![sorted.clone()]));
}

#[test]
fn sorted_input_gives_stooge_sort_a_trace_without_change() {
    let sorted = vec![1, 2, 2, 5, 8, 13];
    let (output, steps) = stooge_sort_stepped(sorted.clone());
    assert_eq!(output, sorted);
    assert!(steps.len() > 1);
    for step in steps {
        assert_eq!(step, sorted);
    }
}

#[test]
fn sorted_input_gives_merge_sort_a_trace_of_its_parts() {
    let sorted = vec![1, 2, 2, 5, 8, 13];
    let (output, steps) = merge_sort_stepped(sorted.clone());
    assert_eq!(output, sorted);
    assert_eq!(
        steps,
        vec![
            vec![1, 2, 2, 5, 8, 13],
            vec![2, 2],
            vec![1, 2, 2],
            vec![8, 13],
            vec![5, 8, 13],
            vec![1, 2, 2, 5, 8, 13],
        ]
    );
}

#[test]
fn sorted_input_gives_selection_sort_a_trace_of_its_fronts() {
    let sorted = vec![1, 2, 5];
    let (output, steps) = selection_sort_stepped(sorted.clone());
    assert_eq!(output, sorted);
    assert_eq!(
        steps,
        vec![
            (vec![1, 2, 5], vec![]),
            (vec![2, 5], vec![1]),
            (vec![5], vec![1, 2]),
            (vec![], vec![1, 2, 5]),
        ]
    );
}

#[test]
fn traces_of_exchanges_change_two_neighbours_at_a_time() {
    for input in samples() {
        for steps in [
            bubble_sort_stepped(input.clone()).1,
            gnome_sort_stepped(input.clone()).1,
            insertion_sort_stepped(input.clone()).1,
        ] {
            assert_eq!(steps[0], input);
            for pair in steps.windows(2) {
                let changed: Vec<usize> =
                    (0..input.len()).filter(|k| pair[0][*k] != pair[1][*k]).collect();
                assert_eq!(changed.len(), 2);
                assert_eq!(changed[0] + 1, changed[1]);
                assert!(pair[0][changed[0]] > pair[0][changed[1]]);
                assert_eq!(pair[0][changed[0]], pair[1][changed[1]]);
                assert_eq!(pair[0][changed[1]], pair[1][changed[0]]);
            }
        }
    }
}

#[test]
fn exchange_traces_have_one_entry_for_each_inversion() {
    for input in samples() {
        let mut inversions = 0;
        for i in 0..input.len() {
            for j in i + 1..input.len() {
                if input[j] < input[i] {
                    inversions += 1;
                }
            }
        }
        assert_eq!(bubble_sort_stepped(input.clone()).1.len(), inversions + 1);
        assert_eq!(gnome_sort_stepped(input.clone()).1.len(), inversions + 1);
        assert_eq!(insertion_sort_stepped(input.clone()).1.len(), inversions + 1);
    }
}
