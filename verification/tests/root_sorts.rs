use sort_it::prelude::{merge_sort, stooge_sort_stepped, GnomeSort, IsSorted};
use sort_it::{bubble, insertion, merge, selection};

fn sorts_the_samples(sort: fn(Vec<i32>) -> Vec<i32>) {
    assert_eq!(sort(vec![2, 1, 4, 3]), vec![1, 2, 3, 4]);
    assert_eq!(sort(vec![1]), vec![1]);
    assert_eq!(sort(vec![]), Vec::<i32>::new());
    assert_eq!(sort(vec![1, 32, 53, 13, 7]), vec![1, 7, 13, 32, 53]);
    assert_eq!(sort(vec![5, 4, 3, 2, 1]), vec![1, 2, 3, 4, 5]);
    assert_eq!(sort(vec![2, 1]), vec![1, 2]);
    assert_eq!(sort(vec![2, 2, 1, 1, 3, 3]), vec![1, 1, 2, 2, 3, 3]);
    assert_eq!(sort(vec![1, 2, 3, 4]), vec![1, 2, 3, 4]);
}

#[test]
fn root_bubble_sort_sorts() {
    sorts_the_samples(bubble::bubble_sort);
    assert_eq!(bubble::bubble_sort(vec![0.1, 3.1, 2.3, 1.2]), vec![0.1, 1.2, 2.3, 3.1]);
}

#[test]
fn root_bubble_sort_exchanges_what_cannot_be_copied() {
    // The elements are moved by the slice's own `swap`: were it to leave them
    // where they are, nothing would come out in order.
    let words = vec![String::from("pear"), String::from("apple"), String::from("fig")];
    assert_eq!(
        bubble::bubble_sort(words),
        vec![String::from("apple"), String::from("fig"), String::from("pear")]
    );
    assert_eq!(bubble::bubble_sort(vec![vec![2], vec![1, 9], vec![1]]), vec![
        vec![1],
        vec![1, 9],
        vec![2]
    ]);
}

#[test]
fn root_insertion_sort_sorts() {
    sorts_the_samples(insertion::insertion_sort);
    assert_eq!(insertion::insertion_sort(vec![0.1, 3.1, 2.3, 1.2]), vec![0.1, 1.2, 2.3, 3.1]);
}

#[test]
fn root_selection_sort_sorts() {
    sorts_the_samples(selection::selection_sort);
    assert_eq!(selection::selection_sort(vec![0.1, 3.1, 2.3, 1.2]), vec![0.1, 1.2, 2.3, 3.1]);
}

#[test]
fn root_merge_sort_sorts() {
    sorts_the_samples(merge::merge_sort);
    assert_eq!(merge::merge_sort(vec![0.1, 3.1, 2.3, 1.2]), vec![0.1, 1.2, 2.3, 3.1]);
}

#[test]
fn root_sorts_are_found_at_the_root() {
    assert_eq!(sort_it::bubble_sort(vec![2, 1]), vec![1, 2]);
    assert_eq!(sort_it::insertion_sort(vec![2, 1]), vec![1, 2]);
    assert_eq!(sort_it::merge_sort(vec![2, 1]), vec![1, 2]);
    assert_eq!(sort_it::selection_sort(vec![2, 1]), vec![1, 2]);
}

#[test]
fn prelude_brings_functions_and_methods() {
    let mut arr = vec![3, 1, 2];
    assert!(!IsSorted::is_sorted(&arr));
    arr.gnome_sort();
    assert_eq!(arr, vec![1, 2, 3]);
    assert_eq!(merge_sort(vec![3, 1, 2]), arr);
    assert_eq!(stooge_sort_stepped(vec![3, 1, 2]).0, arr);
}
