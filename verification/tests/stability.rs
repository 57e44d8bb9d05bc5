use sort_it::algorithms::{
    bubble_sort, gnome_sort, insertion_sort, merge_sort, selection_sort, slowsort, stooge_sort,
};

/// A value that is ordered by its key alone: two of them with one key are
/// equivalent, and equal only if their tags agree too.
#[derive(Clone, Copy, Debug, PartialEq)]
struct Keyed {
    key: u8,
    tag: char,
}

impl PartialOrd for Keyed {
    fn partial_cmp(&self, other: &Keyed) -> Option<std::cmp::Ordering> {
        self.key.partial_cmp(&other.key)
    }
}

fn keyed(key: u8, tag: char) -> Keyed {
    Keyed { key, tag }
}

fn mixed() -> Vec<Keyed> {
    vec![keyed(2, 'a'), keyed(1, 'b'), keyed(2, 'c'), keyed(1, 'd'), keyed(0, 'e'), keyed(2, 'f')]
}

fn in_input_order() -> Vec<Keyed> {
    vec![keyed(0, 'e'), keyed(1, 'b'), keyed(1, 'd'), keyed(2, 'a'), keyed(2, 'c'), keyed(2, 'f')]
}

#[test]
fn merge_sort_puts_the_left_of_two_equivalents_first() {
    assert_eq!(merge_sort(mixed()), in_input_order());
    assert_eq!(
        merge_sort(vec![keyed(1, 'x'), keyed(1, 'y')]),
        vec![keyed(1, 'x'), keyed(1, 'y')]
    );
}

#[test]
fn selection_sort_takes_the_first_of_the_least() {
    assert_eq!(selection_sort(mixed()), in_input_order());
}

#[test]
fn exchange_sorts_never_exchange_equivalents() {
    assert_eq!(bubble_sort(mixed()), in_input_order());
    assert_eq!(gnome_sort(mixed()), in_input_order());
    assert_eq!(insertion_sort(mixed()), in_input_order());
}

#[test]
fn sorted_equivalents_stay_where_they_are() {
    let sorted = vec![keyed(1, 'z'), keyed(1, 'a'), keyed(2, 'y'), keyed(2, 'b'), keyed(2, 'x')];
    assert_eq!(bubble_sort(sorted.clone()), sorted);
    assert_eq!(gnome_sort(sorted.clone()), sorted);
    assert_eq!(insertion_sort(sorted.clone()), sorted);
    assert_eq!(merge_sort(sorted.clone()), sorted);
    assert_eq!(selection_sort(sorted.clone()), sorted);
    assert_eq!(slowsort(sorted.clone()), sorted);
    assert_eq!(stooge_sort(sorted.clone()), sorted);
}

#[test]
fn slowsort_and_stooge_sort_order_by_key() {
    for sort in [slowsort::<Keyed>, stooge_sort::<Keyed>] {
        let keys: Vec<u8> = sort(mixed()).iter().map(|k| k.key).collect();
        assert_eq!(keys, vec![0, 1, 1, 2, 2, 2]);
    }
}
