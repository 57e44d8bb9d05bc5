//! Stooge sort: put the two ends in order, then sort the first two thirds,
//! the last two thirds, and the first two thirds again.

use vstd::prelude::*;
use std::time::{Duration, Instant};
use crate::order::{lt, total_order, above, lemma_lt_asymmetric, lemma_not_lt_transitive};
use crate::sequence::{
    ascending,
    ascending_in,
    exchanged,
    same_elements,
    rearranged_in,
    history,
    record,
    start_trace,
    swap_at,
    lemma_same_elements_position,
    lemma_rearranged_widen,
    lemma_rearranged_same_elements,
    lemma_rearranged_position,
    lemma_exchanged_rearranged,
};

verus! {

/// A third of the positions from `i` to `j`, rounded down.
pub open spec fn third(i: int, j: int) -> int {
    (j - i + 1) / 3
}

/// `s` with its elements at `i` and `j` in order: the two exchanged where the
/// one at `i` is strictly above.
pub open spec fn ends_ordered<T: PartialOrd>(s: Seq<T>, i: int, j: int) -> Seq<T> {
    if lt(s[j], s[i]) {
        exchanged(s, i, j)
    } else {
        s
    }
}

/// What stooge sort makes of `s` when it sorts the positions from `i` to `j`,
/// both included.
pub open spec fn stooge_state<T: PartialOrd>(s: Seq<T>, i: int, j: int) -> Seq<T>
    decreases j - i,
{
    let ends = ends_ordered(s, i, j);
    if j - i + 1 > 2 {
        let t = third(i, j);
        stooge_state(stooge_state(stooge_state(ends, i, j - t), i + t, j), i, j - t)
    } else {
        ends
    }
}

/// The snapshots that stooge sort adds to a step trace when it sorts the
/// positions from `i` to `j` of `s`: where they are more than two, those of
/// each of its three parts, each followed by a snapshot of the whole; else
/// none.
pub open spec fn stooge_steps<T: PartialOrd>(s: Seq<T>, i: int, j: int) -> Seq<Seq<T>>
    decreases j - i,
{
    let ends = ends_ordered(s, i, j);
    if j - i + 1 > 2 {
        let t = third(i, j);
        let first = stooge_state(ends, i, j - t);
        let second = stooge_state(first, i + t, j);
        let third = stooge_state(second, i, j - t);
        stooge_steps(ends, i, j - t) + seq![first] + stooge_steps(first, i + t, j) + seq![second]
            + stooge_steps(second, i, j - t) + seq![third]
    } else {
        Seq::empty()
    }
}

/// What stooge sort makes of the whole of `s`.
pub open spec fn stooge_sorted<T: PartialOrd>(s: Seq<T>) -> Seq<T> {
    if s.len() <= 1 {
        s
    } else {
        stooge_state(s, 0, s.len() - 1)
    }
}

/// The step trace of stooge sort on `s`: `s` itself, then the snapshots of
/// the sort.
pub open spec fn stooge_trace<T: PartialOrd>(s: Seq<T>) -> Seq<Seq<T>> {
    if s.len() <= 1 {
        seq![s]
    } else {
        seq![s] + stooge_steps(s, 0, s.len() - 1)
    }
}

/// How many elements of `s` are strictly below `x`.
pub open spec fn count_below<T: PartialOrd>(s: Seq<T>, x: T) -> nat
    decreases s.len(),
{
    if s.len() == 0 {
        0
    } else {
        count_below(s.drop_last(), x) + if lt(s.last(), x) {
            1nat
        } else {
            0nat
        }
    }
}

/// Taking an element out of a sequence lowers the count of those below `x`
/// by one where the element is below `x`, and not at all where it is not.
proof fn lemma_count_below_remove<T: PartialOrd>(s: Seq<T>, k: int, x: T)
    requires
        0 <= k < s.len(),
    ensures
        count_below(s, x) == count_below(s.remove(k), x) + if lt(s[k], x) {
            1nat
        } else {
            0nat
        },
    decreases s.len(),
{
    if k == s.len() - 1 {
        assert(s.remove(k) =~= s.drop_last());
    } else {
        lemma_count_below_remove(s.drop_last(), k, x);
        assert(s.remove(k).drop_last() =~= s.drop_last().remove(k));
        assert(s.remove(k).last() == s.last());
    }
}

/// Sequences with the same elements have as many below `x`.
proof fn lemma_count_below_same_elements<T: PartialOrd>(a: Seq<T>, b: Seq<T>, x: T)
    requires
        same_elements(a, b),
    ensures
        count_below(a, x) == count_below(b, x),
    decreases a.len(),
{
    crate::sequence::lemma_same_elements_len(a, b);
    if a.len() > 0 {
        let k = lemma_same_elements_position(a, b, a.len() - 1);
        vstd::seq_lib::to_multiset_remove(a, a.len() - 1);
        vstd::seq_lib::to_multiset_remove(b, k);
        assert(a.remove(a.len() - 1) =~= a.drop_last());
        lemma_count_below_same_elements(a.drop_last(), b.remove(k), x);
        lemma_count_below_remove(b, k, x);
    }
}

/// Where the elements from `lo` up to `hi` are all below `x`, at least as
/// many elements as that are; where none of them is, at most all the others.
proof fn lemma_count_below_bounds<T: PartialOrd>(s: Seq<T>, lo: int, hi: int, x: T)
    requires
        0 <= lo <= hi <= s.len(),
    ensures
        (forall|k: int| lo <= k < hi ==> lt(#[trigger] s[k], x)) ==> count_below(s, x) >= hi - lo,
        (forall|k: int| lo <= k < hi ==> !lt(#[trigger] s[k], x)) ==> count_below(s, x)
            <= s.len() - (hi - lo),
        count_below(s, x) <= s.len(),
    decreases s.len(),
{
    if s.len() > 0 {
        let t = s.drop_last();
        let h = if hi == s.len() { hi - 1 } else { hi };
        let l = if lo == s.len() { lo - 1 } else { lo };
        lemma_count_below_bounds(t, l, h, x);
        if forall|k: int| lo <= k < hi ==> lt(#[trigger] s[k], x) {
            assert forall|k: int| l <= k < h implies lt(#[trigger] t[k], x) by {
                assert(t[k] == s[k]);
            }
            if hi == s.len() && lo < hi {
                assert(lt(s[hi - 1], x));
            }
        }
        if forall|k: int| lo <= k < hi ==> !lt(#[trigger] s[k], x) {
            assert forall|k: int| l <= k < h implies !lt(#[trigger] t[k], x) by {
                assert(t[k] == s[k]);
            }
            if hi == s.len() && lo < hi {
                assert(!lt(s[hi - 1], x));
            }
        }
    }
}

/// After the first two thirds and then the last two thirds of a range have
/// been sorted, its last third holds its greatest elements: none of them is
/// below any element of the range before that third.
proof fn lemma_last_third<T: PartialOrd>(first: Seq<T>, second: Seq<T>, i: int, j: int, t: int)
    requires
        total_order::<T>(),
        0 <= i <= j < first.len(),
        1 <= t,
        3 * t <= j - i + 1,
        ascending_in(first, i, j - t + 1),
        ascending_in(second, i + t, j + 1),
        rearranged_in(second, first, i + t, j + 1),
    ensures
        forall|p: int, q: int|
            i <= p <= j - t && j - t < q <= j ==> !lt(#[trigger] second[q], #[trigger] second[p]),
{
    assert forall|p: int, q: int| i <= p <= j - t && j - t < q <= j implies !lt(
        #[trigger] second[q],
        #[trigger] second[p],
    ) by {
        if p < i + t && lt(second[q], second[p]) {
            let x = second[p];
            assert(x == first[p]);
            let before = first.subrange(i + t, j + 1);
            let after = second.subrange(i + t, j + 1);
            lemma_count_below_same_elements(after, before, x);
            // What the two sorts share was not below `x` before the second.
            assert forall|k: int| 0 <= k < j - t + 1 - (i + t) implies !lt(
                #[trigger] before[k],
                x,
            ) by {
                assert(before[k] == first[k + i + t]);
                assert(!lt(first[k + i + t], first[p]));
            }
            lemma_count_below_bounds(before, 0, j - t + 1 - (i + t), x);
            // After it, all up to `q` is below `x`.
            assert forall|k: int| 0 <= k < q + 1 - (i + t) implies lt(#[trigger] after[k], x) by {
                let r = k + i + t;
                assert(after[k] == second[r]);
                if r < q {
                    assert(!lt(second[q], second[r]));
                    if !lt(second[r], x) {
                        lemma_not_lt_transitive(x, second[r], second[q]);
                    }
                }
            }
            lemma_count_below_bounds(after, 0, q + 1 - (i + t), x);
        }
    }
}

/// Stooge sort sorts the positions it is given and leaves the others alone:
/// under a total order they end up ascending, with the elements they had.
pub proof fn lemma_stooge_state_sorts<T: PartialOrd>(s: Seq<T>, i: int, j: int)
    requires
        total_order::<T>(),
        0 <= i <= j < s.len(),
    ensures
        ascending_in(stooge_state(s, i, j), i, j + 1),
        rearranged_in(stooge_state(s, i, j), s, i, j + 1),
        stooge_state(s, i, j).len() == s.len(),
    decreases j - i,
{
    let ends = ends_ordered(s, i, j);
    lemma_exchanged_rearranged(s, i, j, i, j + 1);
    assert(rearranged_in(ends, s, i, j + 1));
    assert(!lt(ends[j], ends[i])) by {
        if lt(s[j], s[i]) {
            lemma_lt_asymmetric(s[j], s[i]);
        }
    }
    if j - i + 1 > 2 {
        let t = third(i, j);
        let first = stooge_state(ends, i, j - t);
        lemma_stooge_state_sorts(ends, i, j - t);
        let second = stooge_state(first, i + t, j);
        lemma_stooge_state_sorts(first, i + t, j);
        let out = stooge_state(second, i, j - t);
        lemma_stooge_state_sorts(second, i, j - t);

        lemma_rearranged_widen(first, ends, i, j - t + 1, i, j + 1);
        lemma_rearranged_widen(second, first, i + t, j + 1, i, j + 1);
        lemma_rearranged_widen(out, second, i, j - t + 1, i, j + 1);
        assert(rearranged_in(out, s, i, j + 1));

        lemma_last_third(first, second, i, j, t);
        assert forall|p: int, q: int| i <= p < q < j + 1 implies !lt(
            #[trigger] out[q],
            #[trigger] out[p],
        ) by {
            if q > j - t {
                assert(out[q] == second[q]);
                if p > j - t {
                    assert(out[p] == second[p]);
                } else {
                    let from = lemma_rearranged_position(out, second, i, j - t + 1, p);
                    assert(!lt(second[q], second[from]));
                }
            }
        }
    }
}

/// Stooge sort leaves positions that are ascending as they are, and each of
/// its snapshots shows them so.
pub proof fn lemma_stooge_state_of_ascending<T: PartialOrd>(s: Seq<T>, i: int, j: int)
    requires
        0 <= i <= j < s.len(),
        ascending_in(s, i, j + 1),
    ensures
        stooge_state(s, i, j) == s,
        forall|k: int| 0 <= k < stooge_steps(s, i, j).len() ==> stooge_steps(s, i, j)[k] == s,
    decreases j - i,
{
    if i < j {
        assert(!lt(s[j], s[i]));
    }
    assert(ends_ordered(s, i, j) == s) by {
        if i == j && lt(s[j], s[i]) {
            assert(exchanged(s, i, j) =~= s);
        }
    }
    if j - i + 1 > 2 {
        let t = third(i, j);
        lemma_stooge_state_of_ascending(s, i, j - t);
        lemma_stooge_state_of_ascending(s, i + t, j);
        let a = stooge_steps(s, i, j - t);
        let b = stooge_steps(s, i + t, j);
        let all = stooge_steps(s, i, j);
        assert(all == a + seq![s] + b + seq![s] + a + seq![s]);
        assert forall|k: int| 0 <= k < all.len() implies all[k] == s by {
            if k < a.len() {
                assert(all[k] == a[k]);
            } else if k == a.len() {
            } else if k < a.len() + 1 + b.len() {
                assert(all[k] == b[k - a.len() - 1]);
            } else if k == a.len() + 1 + b.len() {
            } else if k < a.len() + 1 + b.len() + 1 + a.len() {
                assert(all[k] == a[k - a.len() - 1 - b.len() - 1]);
            }
        }
    }
}

/// Stooge sort sorts: under a total order its result is ascending and holds
/// the elements of its input, and an ascending input is left as it is, in
/// every snapshot too.
pub proof fn lemma_stooge_sorted_sorts<T: PartialOrd>(s: Seq<T>)
    requires
        total_order::<T>(),
    ensures
        ascending(stooge_sorted(s)),
        same_elements(stooge_sorted(s), s),
        ascending(s) ==> stooge_sorted(s) == s,
        ascending(s) ==> forall|k: int| 0 <= k < stooge_trace(s).len() ==> stooge_trace(s)[k] == s,
        s.len() > 2 ==> stooge_trace(s).last() == stooge_sorted(s),
{
    if s.len() > 1 {
        lemma_stooge_state_sorts(s, 0, s.len() - 1);
        lemma_rearranged_same_elements(stooge_sorted(s), s, 0, s.len() as int);
        if ascending(s) {
            lemma_stooge_state_of_ascending(s, 0, s.len() - 1);
        }
    }
}

/// Sorts the positions from `i` to `j` of `arr`, both included.
fn stooge_sort_rec<T>(arr: &mut Vec<T>, i: usize, j: usize) where
    T: PartialEq + PartialOrd + Clone + Copy,

    requires
        total_order::<T>(),
        i <= j < old(arr).len(),
    ensures
        final(arr)@ == stooge_state(old(arr)@, i as int, j as int),
        final(arr)@.len() == old(arr)@.len(),
    decreases j - i,
{
    proof {
        lemma_stooge_state_sorts(arr@, i as int, j as int);
    }
    if above(&arr[i], &arr[j]) {
        swap_at(arr, i, j);
    }
    if (j - i + 1) > 2 {
        let t = (j - i + 1) / 3;
        assert(t == third(i as int, j as int));
        stooge_sort_rec(arr, i, j - t);
        stooge_sort_rec(arr, i + t, j);
        stooge_sort_rec(arr, i, j - t);
    }
}

/// Sorts the positions from `i` to `j` of `arr`, both included, and appends
/// to `steps` a snapshot of `arr` after each of the three parts of each sort
/// of more than two positions.
fn stooge_sort_rec_stepped<T>(
    arr: &mut Vec<T>,
    i: usize,
    j: usize,
    steps: &mut Vec<Vec<T>>,
) where T: PartialEq + PartialOrd + Clone + Copy
    requires
        total_order::<T>(),
        i <= j < old(arr).len(),
    ensures
        final(arr)@ == stooge_state(old(arr)@, i as int, j as int),
        final(arr)@.len() == old(arr)@.len(),
        history(*final(steps)) == history(*old(steps)) + stooge_steps(
            old(arr)@,
            i as int,
            j as int,
        ),
    decreases j - i,
{
    proof {
        lemma_stooge_state_sorts(arr@, i as int, j as int);
    }
    let ghost before = history(*steps);
    if above(&arr[i], &arr[j]) {
        swap_at(arr, i, j);
    }
    let ghost ends = arr@;
    if (j - i + 1) > 2 {
        let t = (j - i + 1) / 3;
        assert(t == third(i as int, j as int));
        stooge_sort_rec_stepped(arr, i, j - t, steps);
        record(steps, arr);
        let ghost first = arr@;
        stooge_sort_rec_stepped(arr, i + t, j, steps);
        record(steps, arr);
        let ghost second = arr@;
        stooge_sort_rec_stepped(arr, i, j - t, steps);
        record(steps, arr);
        assert(history(*steps) =~= before + (stooge_steps(ends, i as int, j - t) + seq![first]
            + stooge_steps(first, i + t, j as int) + seq![second] + stooge_steps(
            second,
            i as int,
            j - t,
        ) + seq![arr@]));
    } else {
        assert(history(*steps) =~= before + Seq::<Seq<T>>::empty());
    }
}

/// Stooge sort on the sequence that `self` holds.
pub trait StoogeSort<T: PartialEq + PartialOrd + Clone + Copy>: View<V = Seq<T>> + Sized {
    /// Sorts `self`.
    fn stooge_sort(&mut self)
        requires
            total_order::<T>(),
        ensures
            final(self)@ == stooge_sorted(old(self)@),
            ascending(final(self)@),
            same_elements(final(self)@, old(self)@),
            ascending(old(self)@) ==> final(self)@ == old(self)@,
    ;

    /// Sorts `self` and returns the time it took.
    fn stooge_sort_timed(&mut self) -> (elapsed: Duration)
        requires
            total_order::<T>(),
        ensures
            final(self)@ == stooge_sorted(old(self)@),
            ascending(final(self)@),
            same_elements(final(self)@, old(self)@),
            ascending(old(self)@) ==> final(self)@ == old(self)@,
    ;

    /// Sorts `self` and returns the step trace: `self` as it was, then, for
    /// each sort of more than two positions, a snapshot after each of its
    /// three parts.
    fn stooge_sort_stepped(&mut self) -> (steps: Vec<Vec<T>>)
        requires
            total_order::<T>(),
        ensures
            final(self)@ == stooge_sorted(old(self)@),
            ascending(final(self)@),
            same_elements(final(self)@, old(self)@),
            ascending(old(self)@) ==> final(self)@ == old(self)@,
            history(steps) == stooge_trace(old(self)@),
            old(self)@.len() > 2 ==> history(steps).last() == final(self)@,
            ascending(old(self)@) ==> forall|k: int|
                0 <= k < history(steps).len() ==> history(steps)[k] == old(self)@,
    ;

    /// Sorts `self` and returns the step trace and the time it took.
    fn stooge_sort_stepped_and_timed(&mut self) -> (res: (Vec<Vec<T>>, Duration))
        requires
            total_order::<T>(),
        ensures
            final(self)@ == stooge_sorted(old(self)@),
            ascending(final(self)@),
            same_elements(final(self)@, old(self)@),
            ascending(old(self)@) ==> final(self)@ == old(self)@,
            history(res.0) == stooge_trace(old(self)@),
            old(self)@.len() > 2 ==> history(res.0).last() == final(self)@,
            ascending(old(self)@) ==> forall|k: int|
                0 <= k < history(res.0).len() ==> history(res.0)[k] == old(self)@,
    ;
}

impl<T> StoogeSort<T> for Vec<T> where T: PartialEq + PartialOrd + Clone + Copy {
    fn stooge_sort(&mut self) {
        proof {
            lemma_stooge_sorted_sorts(self@);
        }
        if self.len() <= 1 {
            return ;
        }
        let length = self.len();
        stooge_sort_rec(self, 0, length - 1);
    }

    fn stooge_sort_timed(&mut self) -> (elapsed: Duration) {
        let time = Instant::now();
        self.stooge_sort();
        time.elapsed()
    }

    fn stooge_sort_stepped(&mut self) -> (steps: Vec<Vec<T>>) {
        proof {
            lemma_stooge_sorted_sorts(self@);
        }
        let mut steps = start_trace(self);
        if self.len() <= 1 {
            return steps;
        }
        let length = self.len();
        stooge_sort_rec_stepped(self, 0, length - 1, &mut steps);
        steps
    }

    fn stooge_sort_stepped_and_timed(&mut self) -> (res: (Vec<Vec<T>>, Duration)) {
        let time = Instant::now();
        let steps = self.stooge_sort_stepped();
        (steps, time.elapsed())
    }
}

/// Sorts `arr` by stooge sort and returns it.
pub fn stooge_sort<T>(arr: Vec<T>) -> (sorted: Vec<T>) where
    T: PartialEq + PartialOrd + Clone + Copy,

    requires
        total_order::<T>(),
    ensures
        sorted@ == stooge_sorted(arr@),
        ascending(sorted@),
        same_elements(sorted@, arr@),
        ascending(arr@) ==> sorted@ == arr@,
{
    let mut arr = arr;
    StoogeSort::stooge_sort(&mut arr);
    arr
}

/// Sorts `arr` by stooge sort and returns it with the time it took.
pub fn stooge_sort_timed<T>(arr: Vec<T>) -> (res: (Vec<T>, Duration)) where
    T: PartialEq + PartialOrd + Clone + Copy,

    requires
        total_order::<T>(),
    ensures
        res.0@ == stooge_sorted(arr@),
        ascending(res.0@),
        same_elements(res.0@, arr@),
        ascending(arr@) ==> res.0@ == arr@,
{
    let mut arr = arr;
    let elapsed = StoogeSort::stooge_sort_timed(&mut arr);
    (arr, elapsed)
}

/// Sorts `arr` by stooge sort and returns it with the step trace: `arr` as it
/// was, then, for each sort of more than two positions, a snapshot after each
/// of its three parts.
pub fn stooge_sort_stepped<T>(arr: Vec<T>) -> (res: (Vec<T>, Vec<Vec<T>>)) where
    T: PartialEq + PartialOrd + Clone + Copy,

    requires
        total_order::<T>(),
    ensures
        res.0@ == stooge_sorted(arr@),
        ascending(res.0@),
        same_elements(res.0@, arr@),
        ascending(arr@) ==> res.0@ == arr@,
        history(res.1) == stooge_trace(arr@),
        arr@.len() > 2 ==> history(res.1).last() == res.0@,
        ascending(arr@) ==> forall|k: int|
            0 <= k < history(res.1).len() ==> history(res.1)[k] == arr@,
{
    let mut arr = arr;
    let steps = StoogeSort::stooge_sort_stepped(&mut arr);
    (arr, steps)
}

/// Sorts `arr` by stooge sort and returns it with the step trace and the time it
/// took.
pub fn stooge_sort_stepped_and_timed<T>(arr: Vec<T>) -> (res: (
    Vec<T>,
    Vec<Vec<T>>,
    Duration,
)) where T: PartialEq + PartialOrd + Clone + Copy
    requires
        total_order::<T>(),
    ensures
        res.0@ == stooge_sorted(arr@),
        ascending(res.0@),
        same_elements(res.0@, arr@),
        ascending(arr@) ==> res.0@ == arr@,
        history(res.1) == stooge_trace(arr@),
        arr@.len() > 2 ==> history(res.1).last() == res.0@,
        ascending(arr@) ==> forall|k: int|
            0 <= k < history(res.1).len() ==> history(res.1)[k] == arr@,
{
    let mut arr = arr;
    let (steps, elapsed) = StoogeSort::stooge_sort_stepped_and_timed(&mut arr);
    (arr, steps, elapsed)
}

} // verus!
