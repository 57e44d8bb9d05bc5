//! Bubble sort: passes from left to right that exchange out-of-order
//! neighbours, until a pass exchanges nothing.

use vstd::prelude::*;
use std::time::{Duration, Instant};
use crate::order::{lt, total_order, below, lemma_lt_asymmetric, lemma_not_lt_transitive};
use crate::sequence::{
    ascending,
    descent_at,
    same_elements,
    history,
    record,
    start_trace,
    swap_at,
    lemma_exchanged_same_elements,
    lemma_no_descent_ascending,
};
use crate::exchange::{
    exchange_at,
    by_pass_exchanges,
    pass_exchange_run,
    pass_position,
    lemma_next_exchange_is,
    lemma_pass_exchanges_push,
    lemma_pass_exchanges_of_ascending,
};

verus! {

/// From position `from` on, every element of `s` is in its place: none of
/// them is below any element before it.
pub open spec fn settled_from<T: PartialOrd>(s: Seq<T>, from: int) -> bool {
    forall|p: int, q: int|
        0 <= p < q < s.len() && from <= q ==> !lt(#[trigger] s[q], #[trigger] s[p])
}

/// The element before position `i` of `s` is not below any element before
/// it.
pub open spec fn carried_to<T: PartialOrd>(s: Seq<T>, i: int) -> bool {
    forall|p: int| 0 <= p < i - 1 ==> !lt(s[i - 1], #[trigger] s[p])
}

/// How many more passes may follow: none once a pass has exchanged nothing,
/// else one for each position that is not settled, and the last.
pub open spec fn passes_left(clean: bool, unsettled: int) -> int {
    if clean {
        0
    } else {
        unsettled + 1
    }
}

/// Comparing the neighbours at `i` in a pass, and exchanging them where they
/// are out of order, carries the greatest element seen one position on and
/// leaves what was settled settled.
pub proof fn lemma_pass_step<T: PartialOrd>(s: Seq<T>, t: Seq<T>, i: int, b: int)
    requires
        total_order::<T>(),
        0 < i < s.len(),
        0 <= b <= s.len(),
        carried_to(s, i),
        settled_from(s, b),
        t == if lt(s[i], s[i - 1]) {
            exchange_at(s, i)
        } else {
            s
        },
    ensures
        carried_to(t, i + 1),
        settled_from(t, b),
        lt(s[i], s[i - 1]) ==> i < b,
        i + 1 == b ==> settled_from(t, b - 1),
{
    if lt(s[i], s[i - 1]) {
        lemma_lt_asymmetric(s[i], s[i - 1]);
        if i >= b {
            assert(!lt(s[i], s[i - 1]));
        }
        assert forall|p: int| 0 <= p < i implies !lt(t[i], #[trigger] t[p]) by {
            assert(t[i] == s[i - 1]);
            if p < i - 1 {
                assert(t[p] == s[p]);
            } else {
                assert(t[p] == s[i]);
            }
        }
        assert forall|p: int, q: int| 0 <= p < q < t.len() && b <= q implies !lt(
            #[trigger] t[q],
            #[trigger] t[p],
        ) by {
            assert(t[q] == s[q]);
            if p == i {
                assert(t[p] == s[i - 1]);
            } else if p == i - 1 {
                assert(t[p] == s[i]);
            } else {
                assert(t[p] == s[p]);
            }
        }
    } else {
        assert forall|p: int| 0 <= p < i implies !lt(t[i], #[trigger] t[p]) by {
            if p < i - 1 {
                lemma_not_lt_transitive(s[p], s[i - 1], s[i]);
            }
        }
    }
    if i + 1 == b {
        assert forall|p: int, q: int| 0 <= p < q < t.len() && b - 1 <= q implies !lt(
            #[trigger] t[q],
            #[trigger] t[p],
        ) by {
            if q == b - 1 {
                assert(!lt(t[i], t[p]));
            }
        }
    }
}

/// Sorts `arr`, and with `stepped` appends a snapshot to `steps` after each
/// exchange.
fn bubble_core<T>(arr: &mut Vec<T>, steps: &mut Vec<Vec<T>>, stepped: bool) -> (trace: Ghost<
    Seq<Seq<T>>,
>) where T: PartialEq + PartialOrd + Clone + Copy
    requires
        total_order::<T>(),
        stepped ==> history(*old(steps)) == seq![old(arr)@],
    ensures
        ascending(final(arr)@),
        same_elements(final(arr)@, old(arr)@),
        ascending(old(arr)@) ==> final(arr)@ == old(arr)@,
        pass_exchange_run(trace@, old(arr)@, final(arr)@),
        !stepped ==> *final(steps) == *old(steps),
        stepped ==> history(*final(steps)) == trace@,
{
    let n = arr.len();
    let ghost mut trace = seq![arr@];
    if n <= 1 {
        return Ghost(trace);
    }
    let mut is_sorted = false;
    let ghost mut unsettled: int = n as int;
    let ghost mut last: int = 0;
    let ghost mut started: bool = false;
    while !is_sorted
        invariant
            total_order::<T>(),
            arr.len() == n,
            n > 1,
            same_elements(arr@, old(arr)@),
            ascending(old(arr)@) ==> arr@ == old(arr)@,
            is_sorted ==> ascending(arr@),
            0 <= unsettled <= n,
            settled_from(arr@, unsettled),
            0 <= last < n,
            started ==> forall|k: int| last < k < n ==> !descent_at(arr@, k),
            !started ==> last == 0,
            pass_exchange_run(trace, old(arr)@, arr@),
            !stepped ==> *steps == *old(steps),
            stepped ==> history(*steps) == trace,
            last == pass_position(trace, trace.len() - 1),
        decreases passes_left(is_sorted, unsettled),
    {
        is_sorted = true;
        let ghost mut fresh: bool = started;
        let mut i: usize = 1;
        proof {
            if unsettled <= 1 {
                assert(settled_from(arr@, unsettled - 1));
            }
        }
        while i < n
            invariant
                total_order::<T>(),
                arr.len() == n,
                1 <= i <= n,
                same_elements(arr@, old(arr)@),
                ascending(old(arr)@) ==> arr@ == old(arr)@,
                0 <= unsettled <= n,
                settled_from(arr@, unsettled),
                carried_to(arr@, i as int),
                i >= unsettled ==> settled_from(arr@, unsettled - 1),
                !is_sorted ==> unsettled >= 1,
                is_sorted ==> forall|k: int| 1 <= k < i ==> !descent_at(arr@, k),
                0 <= last < n,
                !fresh ==> last < i && forall|k: int| last < k < i ==> !descent_at(arr@, k),
                fresh ==> forall|k: int| last < k < n ==> !descent_at(arr@, k),
                fresh ==> forall|k: int| 1 <= k < i ==> !descent_at(arr@, k),
                pass_exchange_run(trace, old(arr)@, arr@),
                !stepped ==> *steps == *old(steps),
                stepped ==> history(*steps) == trace,
                last == pass_position(trace, trace.len() - 1),
            decreases n - i,
        {
            let ghost before = arr@;
            if below(&arr[i], &arr[i - 1]) {
                proof {
                    assert(descent_at(before, i as int));
                    lemma_next_exchange_is(before, last, i as int, fresh);
                    lemma_exchanged_same_elements(before, i - 1, i as int);
                    lemma_pass_step(before, exchange_at(before, i as int), i as int, unsettled);
                    if ascending(old(arr)@) {
                        assert(!lt(before[i as int], before[i - 1]));
                    }
                }
                is_sorted = false;
                swap_at(arr, i - 1, i);
                proof {
                    lemma_pass_exchanges_push(trace, arr@);
                    trace = trace.push(arr@);
                    last = i as int;
                    fresh = false;
                }
                if stepped {
                    record(steps, arr);
                }
            } else {
                proof {
                    assert(!descent_at(before, i as int));
                    lemma_pass_step(before, before, i as int, unsettled);
                }
            }
            i += 1;
        }
        proof {
            if unsettled >= 1 {
                unsettled = unsettled - 1;
            }
            started = true;
            if is_sorted {
                assert forall|k: int| !#[trigger] descent_at(arr@, k) by {}
                lemma_no_descent_ascending(arr@);
            }
        }
    }
    Ghost(trace)
}

/// Bubble sort on the sequence that `self` holds.
pub trait BubbleSort<T: PartialEq + PartialOrd + Clone + Copy>: View<V = Seq<T>> + Sized {
    /// Sorts `self`.
    fn bubble_sort(&mut self)
        requires
            total_order::<T>(),
        ensures
            ascending(final(self)@),
            same_elements(final(self)@, old(self)@),
            ascending(old(self)@) ==> final(self)@ == old(self)@,
            by_pass_exchanges(old(self)@, final(self)@),
    ;

    /// Sorts `self` and returns the time it took.
    fn bubble_sort_timed(&mut self) -> (elapsed: Duration)
        requires
            total_order::<T>(),
        ensures
            ascending(final(self)@),
            same_elements(final(self)@, old(self)@),
            ascending(old(self)@) ==> final(self)@ == old(self)@,
            by_pass_exchanges(old(self)@, final(self)@),
    ;

    /// Sorts `self` and returns the step trace: `self` as it was, then a
    /// snapshot after each exchange of two out-of-order neighbours, in the
    /// order in which passes from left to right meet them.
    fn bubble_sort_stepped(&mut self) -> (steps: Vec<Vec<T>>)
        requires
            total_order::<T>(),
        ensures
            ascending(final(self)@),
            same_elements(final(self)@, old(self)@),
            ascending(old(self)@) ==> final(self)@ == old(self)@,
            by_pass_exchanges(old(self)@, final(self)@),
            pass_exchange_run(history(steps), old(self)@, final(self)@),
            ascending(old(self)@) ==> history(steps) == seq![old(self)@],
    ;

    /// Sorts `self` and returns the step trace and the time it took.
    fn bubble_sort_stepped_and_timed(&mut self) -> (res: (Vec<Vec<T>>, Duration))
        requires
            total_order::<T>(),
        ensures
            ascending(final(self)@),
            same_elements(final(self)@, old(self)@),
            ascending(old(self)@) ==> final(self)@ == old(self)@,
            by_pass_exchanges(old(self)@, final(self)@),
            pass_exchange_run(history(res.0), old(self)@, final(self)@),
            ascending(old(self)@) ==> history(res.0) == seq![old(self)@],
    ;
}

impl<T> BubbleSort<T> for Vec<T> where T: PartialEq + PartialOrd + Clone + Copy {
    fn bubble_sort(&mut self) {
        let mut steps: Vec<Vec<T>> = Vec::new();
        let trace = bubble_core(self, &mut steps, false);
        assert(pass_exchange_run(trace@, old(self)@, self@));
    }

    fn bubble_sort_timed(&mut self) -> (elapsed: Duration) {
        let time = Instant::now();
        self.bubble_sort();
        time.elapsed()
    }

    fn bubble_sort_stepped(&mut self) -> (steps: Vec<Vec<T>>) {
        let mut steps = start_trace(self);
        let trace = bubble_core(self, &mut steps, true);
        proof {
            assert(pass_exchange_run(trace@, old(self)@, self@));
            if ascending(old(self)@) {
                lemma_pass_exchanges_of_ascending(history(steps));
                assert(history(steps) =~= seq![old(self)@]);
            }
        }
        steps
    }

    fn bubble_sort_stepped_and_timed(&mut self) -> (res: (Vec<Vec<T>>, Duration)) {
        let time = Instant::now();
        let steps = self.bubble_sort_stepped();
        (steps, time.elapsed())
    }
}

/// Sorts `arr` by bubble sort and returns it.
pub fn bubble_sort<T>(arr: Vec<T>) -> (sorted: Vec<T>) where
    T: PartialEq + PartialOrd + Clone + Copy,

    requires
        total_order::<T>(),
    ensures
        ascending(sorted@),
        same_elements(sorted@, arr@),
        ascending(arr@) ==> sorted@ == arr@,
        by_pass_exchanges(arr@, sorted@),
{
    let mut arr = arr;
    BubbleSort::bubble_sort(&mut arr);
    arr
}

/// Sorts `arr` by bubble sort and returns it with the time it took.
pub fn bubble_sort_timed<T>(arr: Vec<T>) -> (res: (Vec<T>, Duration)) where
    T: PartialEq + PartialOrd + Clone + Copy,

    requires
        total_order::<T>(),
    ensures
        ascending(res.0@),
        same_elements(res.0@, arr@),
        ascending(arr@) ==> res.0@ == arr@,
        by_pass_exchanges(arr@, res.0@),
{
    let mut arr = arr;
    let elapsed = BubbleSort::bubble_sort_timed(&mut arr);
    (arr, elapsed)
}

/// Sorts `arr` by bubble sort and returns it with the step trace: `arr` as it
/// was, then a snapshot after each exchange of two out-of-order neighbours, in
/// the order in which passes from left to right meet them.
pub fn bubble_sort_stepped<T>(arr: Vec<T>) -> (res: (Vec<T>, Vec<Vec<T>>)) where
    T: PartialEq + PartialOrd + Clone + Copy,

    requires
        total_order::<T>(),
    ensures
        ascending(res.0@),
        same_elements(res.0@, arr@),
        ascending(arr@) ==> res.0@ == arr@,
        by_pass_exchanges(arr@, res.0@),
        pass_exchange_run(history(res.1), arr@, res.0@),
        ascending(arr@) ==> history(res.1) == seq![arr@],
{
    let mut arr = arr;
    let steps = BubbleSort::bubble_sort_stepped(&mut arr);
    (arr, steps)
}

/// Sorts `arr` by bubble sort and returns it with the step trace and the time it
/// took.
pub fn bubble_sort_stepped_and_timed<T>(arr: Vec<T>) -> (res: (
    Vec<T>,
    Vec<Vec<T>>,
    Duration,
)) where T: PartialEq + PartialOrd + Clone + Copy
    requires
        total_order::<T>(),
    ensures
        ascending(res.0@),
        same_elements(res.0@, arr@),
        ascending(arr@) ==> res.0@ == arr@,
        by_pass_exchanges(arr@, res.0@),
        pass_exchange_run(history(res.1), arr@, res.0@),
        ascending(arr@) ==> history(res.1) == seq![arr@],
{
    let mut arr = arr;
    let (steps, elapsed) = BubbleSort::bubble_sort_stepped_and_timed(&mut arr);
    (arr, steps, elapsed)
}

} // verus!
