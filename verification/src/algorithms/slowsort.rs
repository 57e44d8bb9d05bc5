//! Slowsort: sort both halves, move the greater of their last elements to the
//! end, sort all but the end.

use vstd::prelude::*;
use std::time::{Duration, Instant};
use crate::order::{lt, total_order, above, lemma_lt_asymmetric, lemma_not_lt_transitive};
use crate::sequence::{
    ascending,
    ascending_in,
    exchanged,
    same_elements,
    rearranged_in,
    history,
    record,
    start_trace,
    swap_at,
    lemma_rearranged_widen,
    lemma_rearranged_same_elements,
    lemma_rearranged_position,
    lemma_exchanged_rearranged,
};

verus! {

/// Where slowsort halves the positions from `i` to `j`.
pub open spec fn middle(i: int, j: int) -> int {
    (i + j) / 2
}

/// `s` after the greater of the elements at `m` and `j` has been moved to
/// `j`: the two exchanged where the one at `m` is strictly above.
pub open spec fn greater_last<T: PartialOrd>(s: Seq<T>, m: int, j: int) -> Seq<T> {
    if lt(s[j], s[m]) {
        exchanged(s, m, j)
    } else {
        s
    }
}

/// What slowsort makes of `s` when it sorts the positions from `i` to `j`,
/// both included.
pub open spec fn slow_state<T: PartialOrd>(s: Seq<T>, i: int, j: int) -> Seq<T>
    decreases j - i,
{
    if i >= j {
        s
    } else {
        let m = middle(i, j);
        let halves = slow_state(slow_state(s, i, m), m + 1, j);
        slow_state(greater_last(halves, m, j), i, j - 1)
    }
}

/// The snapshots that slowsort adds to a step trace when it sorts the
/// positions from `i` to `j` of `s`: one after each exchange, in the order
/// in which they are made.
pub open spec fn slow_steps<T: PartialOrd>(s: Seq<T>, i: int, j: int) -> Seq<Seq<T>>
    decreases j - i,
{
    if i >= j {
        Seq::empty()
    } else {
        let m = middle(i, j);
        let first = slow_state(s, i, m);
        let halves = slow_state(first, m + 1, j);
        let moved = greater_last(halves, m, j);
        slow_steps(s, i, m) + slow_steps(first, m + 1, j) + (if lt(halves[j], halves[m]) {
            seq![moved]
        } else {
            Seq::empty()
        }) + slow_steps(moved, i, j - 1)
    }
}

/// What slowsort makes of the whole of `s`.
pub open spec fn slow_sorted<T: PartialOrd>(s: Seq<T>) -> Seq<T> {
    slow_state(s, 0, s.len() - 1)
}

/// The step trace of slowsort on `s`: `s` itself, then a snapshot after each
/// exchange.
pub open spec fn slow_trace<T: PartialOrd>(s: Seq<T>) -> Seq<Seq<T>> {
    seq![s] + slow_steps(s, 0, s.len() - 1)
}

/// Slowsort sorts the positions it is given and leaves the others alone:
/// under a total order they end up ascending, with the elements they had.
pub proof fn lemma_slow_state_sorts<T: PartialOrd>(s: Seq<T>, i: int, j: int)
    requires
        total_order::<T>(),
        0 <= i,
        j < s.len(),
    ensures
        ascending_in(slow_state(s, i, j), i, j + 1),
        i <= j ==> rearranged_in(slow_state(s, i, j), s, i, j + 1),
        i > j ==> slow_state(s, i, j) == s,
        slow_state(s, i, j).len() == s.len(),
    decreases j - i,
{
    if i >= j {
        if i == j {
            assert(s.subrange(i, j + 1).to_multiset() == s.subrange(i, j + 1).to_multiset());
        }
    } else {
        let m = middle(i, j);
        let first = slow_state(s, i, m);
        lemma_slow_state_sorts(s, i, m);
        let halves = slow_state(first, m + 1, j);
        lemma_slow_state_sorts(first, m + 1, j);
        let moved = greater_last(halves, m, j);
        lemma_exchanged_rearranged(halves, m, j, i, j + 1);
        let out = slow_state(moved, i, j - 1);
        lemma_slow_state_sorts(moved, i, j - 1);

        // The range holds what it held.
        lemma_rearranged_widen(first, s, i, m + 1, i, j + 1);
        lemma_rearranged_widen(halves, first, m + 1, j + 1, i, j + 1);
        lemma_rearranged_widen(out, moved, i, j, i, j + 1);
        assert(rearranged_in(moved, halves, i, j + 1));
        assert(rearranged_in(out, s, i, j + 1));

        // After the move no element of the range is above the one at `j`.
        assert forall|k: int| i <= k < j implies !lt(moved[j], #[trigger] moved[k]) by {
            assert(halves[m] == first[m]);
            if lt(halves[j], halves[m]) {
                lemma_lt_asymmetric(halves[j], halves[m]);
                if k < m {
                    assert(halves[k] == first[k]);
                    assert(!lt(first[m], first[k]));
                } else if k > m {
                    assert(!lt(halves[j], halves[k]));
                    lemma_not_lt_transitive(halves[k], halves[j], halves[m]);
                }
            } else {
                if k <= m {
                    assert(halves[k] == first[k]);
                    if k < m {
                        assert(!lt(first[m], first[k]));
                        lemma_not_lt_transitive(halves[k], halves[m], halves[j]);
                    }
                } else {
                    assert(!lt(halves[j], halves[k]));
                }
            }
        }
        assert(out[j] == moved[j]);
        assert forall|p: int, q: int| i <= p < q < j + 1 implies !lt(
            #[trigger] out[q],
            #[trigger] out[p],
        ) by {
            if q == j {
                let from = lemma_rearranged_position(out, moved, i, j, p);
                assert(!lt(moved[j], moved[from]));
            }
        }
    }
}

/// Slowsort leaves positions that are ascending as they are, and adds no
/// snapshot for them.
pub proof fn lemma_slow_state_of_ascending<T: PartialOrd>(s: Seq<T>, i: int, j: int)
    requires
        0 <= i,
        j < s.len(),
        ascending_in(s, i, j + 1),
    ensures
        slow_state(s, i, j) == s,
        slow_steps(s, i, j) == Seq::<Seq<T>>::empty(),
    decreases j - i,
{
    if i < j {
        let m = middle(i, j);
        lemma_slow_state_of_ascending(s, i, m);
        lemma_slow_state_of_ascending(s, m + 1, j);
        assert(!lt(s[j], s[m]));
        lemma_slow_state_of_ascending(s, i, j - 1);
        assert(slow_steps(s, i, j) =~= Seq::<Seq<T>>::empty());
    }
}

/// The last snapshot of slowsort on the positions from `i` to `j`, or `s`
/// where there is none, is what slowsort makes of `s`.
pub proof fn lemma_slow_steps_end<T: PartialOrd>(s: Seq<T>, i: int, j: int)
    ensures
        (seq![s] + slow_steps(s, i, j)).last() == slow_state(s, i, j),
    decreases j - i,
{
    if i < j {
        let m = middle(i, j);
        let first = slow_state(s, i, m);
        let halves = slow_state(first, m + 1, j);
        let moved = greater_last(halves, m, j);
        let a = slow_steps(s, i, m);
        let b = slow_steps(first, m + 1, j);
        let c = if lt(halves[j], halves[m]) {
            seq![moved]
        } else {
            Seq::empty()
        };
        let d = slow_steps(moved, i, j - 1);
        lemma_slow_steps_end(s, i, m);
        lemma_slow_steps_end(first, m + 1, j);
        lemma_slow_steps_end(moved, i, j - 1);
        let whole = seq![s] + slow_steps(s, i, j);
        assert(whole =~= seq![s] + a + b + c + d);
        assert((seq![s] + a + b).last() == halves) by {
            if b.len() > 0 {
                assert((seq![s] + a + b).last() == (seq![first] + b).last());
            } else {
                assert(seq![s] + a + b =~= seq![s] + a);
            }
        }
        assert((seq![s] + a + b + c).last() == moved) by {
            if c.len() == 0 {
                assert(seq![s] + a + b + c =~= seq![s] + a + b);
            }
        }
        if d.len() > 0 {
            assert(whole.last() == (seq![moved] + d).last());
        } else {
            assert(whole =~= seq![s] + a + b + c);
        }
    } else {
        assert(seq![s] + slow_steps(s, i, j) =~= seq![s]);
    }
}

/// Slowsort sorts: under a total order its result is ascending and holds the
/// elements of its input, and an ascending input is left as it is.
pub proof fn lemma_slow_sorted_sorts<T: PartialOrd>(s: Seq<T>)
    requires
        total_order::<T>(),
    ensures
        ascending(slow_sorted(s)),
        same_elements(slow_sorted(s), s),
        ascending(s) ==> slow_sorted(s) == s && slow_trace(s) == seq![s],
        slow_trace(s).last() == slow_sorted(s),
{
    lemma_slow_state_sorts(s, 0, s.len() - 1);
    if s.len() > 0 {
        lemma_rearranged_same_elements(slow_sorted(s), s, 0, s.len() as int);
    }
    if ascending(s) {
        lemma_slow_state_of_ascending(s, 0, s.len() - 1);
        assert(slow_trace(s) =~= seq![s]);
    }
    lemma_slow_steps_end(s, 0, s.len() - 1);
}

/// Sorts the positions from `i` to `j` of `arr`, both included.
fn slowsort_rec<T>(arr: &mut Vec<T>, i: usize, j: usize) where
    T: PartialEq + PartialOrd + Clone + Copy,

    requires
        total_order::<T>(),
        i >= j || j < old(arr).len(),
    ensures
        final(arr)@ == slow_state(old(arr)@, i as int, j as int),
        final(arr)@.len() == old(arr)@.len(),
    decreases j - i,
{
    if i >= j {
        return ;
    }
    let m = i + (j - i) / 2;
    assert(m == middle(i as int, j as int));
    proof {
        lemma_slow_state_sorts(arr@, i as int, j as int);
    }
    slowsort_rec(arr, i, m);
    slowsort_rec(arr, m + 1, j);
    if above(&arr[m], &arr[j]) {
        swap_at(arr, m, j);
    }
    slowsort_rec(arr, i, j - 1);
}

/// Sorts the positions from `i` to `j` of `arr`, both included, and appends
/// to `steps` a snapshot of `arr` after each exchange.
fn slowsort_rec_stepped<T>(arr: &mut Vec<T>, i: usize, j: usize, steps: &mut Vec<Vec<T>>) where
    T: PartialEq + PartialOrd + Clone + Copy,

    requires
        total_order::<T>(),
        i >= j || j < old(arr).len(),
    ensures
        final(arr)@ == slow_state(old(arr)@, i as int, j as int),
        final(arr)@.len() == old(arr)@.len(),
        history(*final(steps)) == history(*old(steps)) + slow_steps(
            old(arr)@,
            i as int,
            j as int,
        ),
    decreases j - i,
{
    if i >= j {
        assert(history(*steps) =~= history(*steps) + slow_steps(arr@, i as int, j as int));
        return ;
    }
    let m = i + (j - i) / 2;
    assert(m == middle(i as int, j as int));
    proof {
        lemma_slow_state_sorts(arr@, i as int, j as int);
    }
    let ghost before = history(*steps);
    let ghost s = arr@;
    slowsort_rec_stepped(arr, i, m, steps);
    let ghost first = arr@;
    slowsort_rec_stepped(arr, m + 1, j, steps);
    let ghost halves = arr@;
    if above(&arr[m], &arr[j]) {
        swap_at(arr, m, j);
        record(steps, arr);
    }
    let ghost moved = arr@;
    slowsort_rec_stepped(arr, i, j - 1, steps);
    assert(history(*steps) =~= before + slow_steps(s, i as int, j as int)) by {
        let a = slow_steps(s, i as int, m as int);
        let b = slow_steps(first, m + 1, j as int);
        let c = if lt(halves[j as int], halves[m as int]) {
            seq![moved]
        } else {
            Seq::empty()
        };
        let d = slow_steps(moved, i as int, j - 1);
        assert(history(*steps) =~= before + a + b + c + d);
        assert(slow_steps(s, i as int, j as int) == a + b + c + d);
    }
}

/// Slowsort on the sequence that `self` holds.
pub trait Slowsort<T: PartialEq + PartialOrd + Clone + Copy>: View<V = Seq<T>> + Sized {
    /// Sorts `self`.
    fn slowsort(&mut self)
        requires
            total_order::<T>(),
        ensures
            final(self)@ == slow_sorted(old(self)@),
            ascending(final(self)@),
            same_elements(final(self)@, old(self)@),
            ascending(old(self)@) ==> final(self)@ == old(self)@,
    ;

    /// Sorts `self` and returns the time it took.
    fn slowsort_timed(&mut self) -> (elapsed: Duration)
        requires
            total_order::<T>(),
        ensures
            final(self)@ == slow_sorted(old(self)@),
            ascending(final(self)@),
            same_elements(final(self)@, old(self)@),
            ascending(old(self)@) ==> final(self)@ == old(self)@,
    ;

    /// Sorts `self` and returns the step trace: `self` as it was, then a
    /// snapshot after each exchange.
    fn slowsort_stepped(&mut self) -> (steps: Vec<Vec<T>>)
        requires
            total_order::<T>(),
        ensures
            final(self)@ == slow_sorted(old(self)@),
            ascending(final(self)@),
            same_elements(final(self)@, old(self)@),
            ascending(old(self)@) ==> final(self)@ == old(self)@,
            history(steps) == slow_trace(old(self)@),
            history(steps).last() == final(self)@,
            ascending(old(self)@) ==> history(steps) == seq![old(self)@],
    ;

    /// Sorts `self` and returns the step trace and the time it took.
    fn slowsort_stepped_and_timed(&mut self) -> (res: (Vec<Vec<T>>, Duration))
        requires
            total_order::<T>(),
        ensures
            final(self)@ == slow_sorted(old(self)@),
            ascending(final(self)@),
            same_elements(final(self)@, old(self)@),
            ascending(old(self)@) ==> final(self)@ == old(self)@,
            history(res.0) == slow_trace(old(self)@),
            history(res.0).last() == final(self)@,
            ascending(old(self)@) ==> history(res.0) == seq![old(self)@],
    ;
}

impl<T> Slowsort<T> for Vec<T> where T: PartialEq + PartialOrd + Clone + Copy {
    fn slowsort(&mut self) {
        proof {
            lemma_slow_sorted_sorts(self@);
        }
        if self.len() <= 1 {
            return ;
        }
        let length = self.len();
        slowsort_rec(self, 0, length - 1);
    }

    fn slowsort_timed(&mut self) -> (elapsed: Duration) {
        let time = Instant::now();
        self.slowsort();
        time.elapsed()
    }

    fn slowsort_stepped(&mut self) -> (steps: Vec<Vec<T>>) {
        proof {
            lemma_slow_sorted_sorts(self@);
        }
        let mut steps = start_trace(self);
        if self.len() <= 1 {
            assert(history(steps) =~= slow_trace(self@));
            return steps;
        }
        let length = self.len();
        slowsort_rec_stepped(self, 0, length - 1, &mut steps);
        steps
    }

    fn slowsort_stepped_and_timed(&mut self) -> (res: (Vec<Vec<T>>, Duration)) {
        let time = Instant::now();
        let steps = self.slowsort_stepped();
        (steps, time.elapsed())
    }
}

/// Sorts `arr` by slowsort and returns it.
pub fn slowsort<T>(arr: Vec<T>) -> (sorted: Vec<T>) where
    T: PartialEq + PartialOrd + Clone + Copy,

    requires
        total_order::<T>(),
    ensures
        sorted@ == slow_sorted(arr@),
        ascending(sorted@),
        same_elements(sorted@, arr@),
        ascending(arr@) ==> sorted@ == arr@,
{
    let mut arr = arr;
    Slowsort::slowsort(&mut arr);
    arr
}

/// Sorts `arr` by slowsort and returns it with the time it took.
pub fn slowsort_timed<T>(arr: Vec<T>) -> (res: (Vec<T>, Duration)) where
    T: PartialEq + PartialOrd + Clone + Copy,

    requires
        total_order::<T>(),
    ensures
        res.0@ == slow_sorted(arr@),
        ascending(res.0@),
        same_elements(res.0@, arr@),
        ascending(arr@) ==> res.0@ == arr@,
{
    let mut arr = arr;
    let elapsed = Slowsort::slowsort_timed(&mut arr);
    (arr, elapsed)
}

/// Sorts `arr` by slowsort and returns it with the step trace: `arr` as it
/// was, then a snapshot after each exchange.
pub fn slowsort_stepped<T>(arr: Vec<T>) -> (res: (Vec<T>, Vec<Vec<T>>)) where
    T: PartialEq + PartialOrd + Clone + Copy,

    requires
        total_order::<T>(),
    ensures
        res.0@ == slow_sorted(arr@),
        ascending(res.0@),
        same_elements(res.0@, arr@),
        ascending(arr@) ==> res.0@ == arr@,
        history(res.1) == slow_trace(arr@),
        history(res.1).last() == res.0@,
        ascending(arr@) ==> history(res.1) == seq![arr@],
{
    let mut arr = arr;
    let steps = Slowsort::slowsort_stepped(&mut arr);
    (arr, steps)
}

/// Sorts `arr` by slowsort and returns it with the step trace and the time it
/// took.
pub fn slowsort_stepped_and_timed<T>(arr: Vec<T>) -> (res: (
    Vec<T>,
    Vec<Vec<T>>,
    Duration,
)) where T: PartialEq + PartialOrd + Clone + Copy
    requires
        total_order::<T>(),
    ensures
        res.0@ == slow_sorted(arr@),
        ascending(res.0@),
        same_elements(res.0@, arr@),
        ascending(arr@) ==> res.0@ == arr@,
        history(res.1) == slow_trace(arr@),
        history(res.1).last() == res.0@,
        ascending(arr@) ==> history(res.1) == seq![arr@],
{
    let mut arr = arr;
    let (steps, elapsed) = Slowsort::slowsort_stepped_and_timed(&mut arr);
    (arr, steps, elapsed)
}

} // verus!
