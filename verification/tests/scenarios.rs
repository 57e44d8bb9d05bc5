use sort_it::algorithms::{
    bubble_sort, bubble_sort_stepped, gnome_sort, gnome_sort_stepped, insertion_sort,
    insertion_sort_stepped, merge_sort, merge_sort_stepped, selection_sort,
    selection_sort_stepped, slowsort, slowsort_stepped, stooge_sort, stooge_sort_stepped,
    IsSorted,
};

fn sorts_the_samples(sort: fn(Vec<i32>) -> Vec<i32>) {
    assert_eq!(sort(vec![2, 1, 4, 3]), vec![1, 2, 3, 4]);
    assert_eq!(sort(vec![1]), vec![1]);
    assert_eq!(sort(vec![]), Vec::<i32>::new());
    assert_eq!(sort(vec![1, 32, 53, 13, 7]), vec![1, 7, 13, 32, 53]);
    assert_eq!(sort(vec![5, 4, 3, 2, 1]), vec![1, 2, 3, 4, 5]);
    assert_eq!(sort(vec![2, 1]), vec![1, 2]);
    assert_eq!(sort(vec![3, 1, 2]), vec![1, 2, 3]);
    assert_eq!(sort(vec![2, 2, 1, 1, 3, 3]), vec![1, 1, 2, 2, 3, 3]);
    assert_eq!(sort(vec![-1, i32::MAX, 0, i32::MIN]), vec![i32::MIN, -1, 0, i32::MAX]);
}

fn sorts_the_floats(sort: fn(Vec<f64>) -> Vec<f64>) {
    assert_eq!(sort(vec![0.1, 3.1, 2.3, 1.2]), vec![0.1, 1.2, 2.3, 3.1]);
}

fn sorts_the_strings(sort: fn(Vec<&'static str>) -> Vec<&'static str>) {
    assert_eq!(sort(vec!["bac", "cba", "abc"]), vec!["abc", "bac", "cba"]);
}

fn traces_a_single_element(sort: fn(Vec<i32>) -> (Vec<i32>, Vec<Vec<i32>>)) {
    let (sorted, steps) = sort(vec![1]);
    assert_eq!(sorted, vec![1]);
    assert_eq!(steps, vec![vec![1]]);
    let (sorted, steps) = sort(vec![]);
    assert_eq!(sorted, Vec::<i32>::new());
    assert_eq!(steps, vec![Vec::<i32>::new()]);
}

#[test]
fn bubble_sort_scenarios() {
    sorts_the_samples(bubble_sort);
    sorts_the_floats(bubble_sort);
    sorts_the_strings(bubble_sort);
    traces_a_single_element(bubble_sort_stepped);
}

#[test]
fn gnome_sort_scenarios() {
    sorts_the_samples(gnome_sort);
    sorts_the_floats(gnome_sort);
    sorts_the_strings(gnome_sort);
    traces_a_single_element(gnome_sort_stepped);
}

#[test]
fn insertion_sort_scenarios() {
    sorts_the_samples(insertion_sort);
    sorts_the_floats(insertion_sort);
    sorts_the_strings(insertion_sort);
    traces_a_single_element(insertion_sort_stepped);
}

#[test]
fn merge_sort_scenarios() {
    sorts_the_samples(merge_sort);
    sorts_the_floats(merge_sort);
    sorts_the_strings(merge_sort);
    traces_a_single_element(merge_sort_stepped);
    assert_eq!(merge_sort(vec!['b', 'd', 'a', 'c']), vec!['a', 'b', 'c', 'd']);
}

#[test]
fn selection_sort_scenarios() {
    sorts_the_samples(selection_sort);
    sorts_the_floats(selection_sort);
    sorts_the_strings(selection_sort);
    let (sorted, steps) = selection_sort_stepped(vec![1]);
    assert_eq!(sorted, vec![1]);
    assert_eq!(steps, vec![(vec![1], vec![])]);
    let (sorted, steps) = selection_sort_stepped(Vec::<i32>::new());
    assert_eq!(sorted, Vec::<i32>::new());
    assert_eq!(steps, vec![(vec![], vec![])]);
}

#[test]
fn slowsort_scenarios() {
    sorts_the_samples(slowsort);
    sorts_the_floats(slowsort);
    sorts_the_strings(slowsort);
    traces_a_single_element(slowsort_stepped);
}

#[test]
fn stooge_sort_scenarios() {
    sorts_the_samples(stooge_sort);
    sorts_the_floats(stooge_sort);
    sorts_the_strings(stooge_sort);
    traces_a_single_element(stooge_sort_stepped);
}

#[test]
fn selection_sort_trace_of_three() {
    let (sorted, steps) = selection_sort_stepped(vec![3, 1, 2]);
    assert_eq!(sorted, vec![1, 2, 3]);
    assert_eq!(steps.first(), Some(&(vec![3, 1, 2], vec![])));
    assert_eq!(steps.last(), Some(&(vec![], vec![1, 2, 3])));
    assert_eq!(
        steps,
        vec![
            (vec![3, 1, 2], vec![]),
            (vec![3, 2], vec![1]),
            (vec![3], vec![1, 2]),
            (vec![], vec![1, 2, 3]),
        ]
    );
}

#[test]
fn is_sorted_tells_order() {
    assert!(IsSorted::is_sorted(&Vec::<i32>::new()));
    assert!(IsSorted::is_sorted(&vec![7]));
    assert!(IsSorted::is_sorted(&vec![1, 2, 2, 3]));
    assert!(!IsSorted::is_sorted(&vec![1, 3, 2]));
    assert!(!IsSorted::is_sorted(&vec![2, 1]));
    assert!(!IsSorted::is_sorted(&vec![1, 2, 3, 0]));
    assert!(IsSorted::is_sorted(&vec![0.1, 1.2, 2.3]));
    assert!(!IsSorted::is_sorted(&vec!["b", "a"]));
}
