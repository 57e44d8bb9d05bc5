//! Gnome sort: one cursor that steps back after each exchange.

use vstd::prelude::*;
use std::time::{Duration, Instant};
use crate::order::{total_order, below};
use crate::sequence::{
    ascending,
    ascending_in,
    same_elements,
    history,
    record,
    start_trace,
    swap_at,
    lemma_exchanged_same_elements,
};
use crate::exchange::{
    by_leftmost_exchanges,
    leftmost_exchange_run,
    sinking,
    lemma_sink_step,
    lemma_sink_rest,
    lemma_sink_start,
    lemma_leftmost_exchanges_push,
    lemma_leftmost_exchanges_of_ascending,
};

verus! {

/// How far the cursor at `i` is from leaving the `f` positions it has seen:
/// while its element sinks, the way down and the whole way back up; once the
/// element rests, the rest of the way up.
pub open spec fn cursor_distance(i: int, f: int, resting: bool) -> int {
    if resting {
        f - i
    } else {
        f + i
    }
}

/// Sorts `arr`, and with `stepped` appends a snapshot to `steps` after each
/// exchange.
fn gnome_core<T>(arr: &mut Vec<T>, steps: &mut Vec<Vec<T>>, stepped: bool) -> (trace: Ghost<
    Seq<Seq<T>>,
>) where T: PartialEq + PartialOrd + Clone + Copy
    requires
        total_order::<T>(),
        stepped ==> history(*old(steps)) == seq![old(arr)@],
    ensures
        ascending(final(arr)@),
        same_elements(final(arr)@, old(arr)@),
        ascending(old(arr)@) ==> final(arr)@ == old(arr)@,
        leftmost_exchange_run(trace@, old(arr)@, final(arr)@),
        !stepped ==> *final(steps) == *old(steps),
        stepped ==> history(*final(steps)) == trace@,
{
    let n = arr.len();
    let ghost mut trace = seq![arr@];
    if n <= 1 {
        return Ghost(trace);
    }
    let mut i: usize = 1;
    let ghost mut f: int = 1;
    let ghost mut resting: bool = true;
    while i < n
        invariant
            total_order::<T>(),
            arr.len() == n,
            1 <= i <= n,
            i <= f <= n,
            same_elements(arr@, old(arr)@),
            ascending(old(arr)@) ==> arr@ == old(arr)@,
            sinking(arr@, i as int, f),
            resting ==> ascending_in(arr@, 0, f),
            leftmost_exchange_run(trace, old(arr)@, arr@),
            !stepped ==> *steps == *old(steps),
            stepped ==> history(*steps) == trace,
        decreases n - f, cursor_distance(i as int, f, resting),
    {
        let ghost before = arr@;
        proof {
            if i == f {
                lemma_sink_rest(before, i as int, f);
                lemma_sink_start(before, f);
                f = f + 1;
                resting = false;
            }
        }
        if below(&arr[i], &arr[i - 1]) {
            proof {
                lemma_sink_step(before, i as int, f);
                lemma_exchanged_same_elements(before, i - 1, i as int);
            }
            swap_at(arr, i - 1, i);
            proof {
                lemma_leftmost_exchanges_push(trace, arr@);
                trace = trace.push(arr@);
            }
            if stepped {
                record(steps, arr);
            }
            if i > 1 {
                i -= 1;
                proof {
                    resting = false;
                }
            } else {
                proof {
                    lemma_sink_rest(arr@, 0, f);
                    resting = true;
                    assert(sinking(arr@, 1, f));
                }
            }
        } else {
            proof {
                lemma_sink_rest(before, i as int, f);
                resting = true;
            }
            i += 1;
        }
    }
    proof {
        lemma_sink_rest(arr@, i as int, f);
    }
    Ghost(trace)
}

/// Gnome sort on the sequence that `self` holds.
pub trait GnomeSort<T: PartialEq + PartialOrd + Clone + Copy>: View<V = Seq<T>> + Sized {
    /// Sorts `self`.
    fn gnome_sort(&mut self)
        requires
            total_order::<T>(),
        ensures
            ascending(final(self)@),
            same_elements(final(self)@, old(self)@),
            ascending(old(self)@) ==> final(self)@ == old(self)@,
            by_leftmost_exchanges(old(self)@, final(self)@),
    ;

    /// Sorts `self` and returns the time it took.
    fn gnome_sort_timed(&mut self) -> (elapsed: Duration)
        requires
            total_order::<T>(),
        ensures
            ascending(final(self)@),
            same_elements(final(self)@, old(self)@),
            ascending(old(self)@) ==> final(self)@ == old(self)@,
            by_leftmost_exchanges(old(self)@, final(self)@),
    ;

    /// Sorts `self` and returns the step trace: `self` as it was, then a
    /// snapshot after each exchange, which is always that of the leftmost
    /// out-of-order neighbours.
    fn gnome_sort_stepped(&mut self) -> (steps: Vec<Vec<T>>)
        requires
            total_order::<T>(),
        ensures
            ascending(final(self)@),
            same_elements(final(self)@, old(self)@),
            ascending(old(self)@) ==> final(self)@ == old(self)@,
            by_leftmost_exchanges(old(self)@, final(self)@),
            leftmost_exchange_run(history(steps), old(self)@, final(self)@),
            ascending(old(self)@) ==> history(steps) == seq![old(self)@],
    ;

    /// Sorts `self` and returns the step trace and the time it took.
    fn gnome_sort_stepped_and_timed(&mut self) -> (res: (Vec<Vec<T>>, Duration))
        requires
            total_order::<T>(),
        ensures
            ascending(final(self)@),
            same_elements(final(self)@, old(self)@),
            ascending(old(self)@) ==> final(self)@ == old(self)@,
            by_leftmost_exchanges(old(self)@, final(self)@),
            leftmost_exchange_run(history(res.0), old(self)@, final(self)@),
            ascending(old(self)@) ==> history(res.0) == seq![old(self)@],
    ;
}

impl<T> GnomeSort<T> for Vec<T> where T: PartialEq + PartialOrd + Clone + Copy {
    fn gnome_sort(&mut self) {
        let mut steps: Vec<Vec<T>> = Vec::new();
        let trace = gnome_core(self, &mut steps, false);
        assert(leftmost_exchange_run(trace@, old(self)@, self@));
    }

    fn gnome_sort_timed(&mut self) -> (elapsed: Duration) {
        let time = Instant::now();
        self.gnome_sort();
        time.elapsed()
    }

    fn gnome_sort_stepped(&mut self) -> (steps: Vec<Vec<T>>) {
        let mut steps = start_trace(self);
        let trace = gnome_core(self, &mut steps, true);
        proof {
            assert(leftmost_exchange_run(trace@, old(self)@, self@));
            if ascending(old(self)@) {
                lemma_leftmost_exchanges_of_ascending(history(steps));
                assert(history(steps) =~= seq![old(self)@]);
            }
        }
        steps
    }

    fn gnome_sort_stepped_and_timed(&mut self) -> (res: (Vec<Vec<T>>, Duration)) {
        let time = Instant::now();
        let steps = self.gnome_sort_stepped();
        (steps, time.elapsed())
    }
}

/// Sorts `arr` by gnome sort and returns it.
pub fn gnome_sort<T>(arr: Vec<T>) -> (sorted: Vec<T>) where
    T: PartialEq + PartialOrd + Clone + Copy,

    requires
        total_order::<T>(),
    ensures
        ascending(sorted@),
        same_elements(sorted@, arr@),
        ascending(arr@) ==> sorted@ == arr@,
        by_leftmost_exchanges(arr@, sorted@),
{
    let mut arr = arr;
    GnomeSort::gnome_sort(&mut arr);
    arr
}

/// Sorts `arr` by gnome sort and returns it with the time it took.
pub fn gnome_sort_timed<T>(arr: Vec<T>) -> (res: (Vec<T>, Duration)) where
    T: PartialEq + PartialOrd + Clone + Copy,

    requires
        total_order::<T>(),
    ensures
        ascending(res.0@),
        same_elements(res.0@, arr@),
        ascending(arr@) ==> res.0@ == arr@,
        by_leftmost_exchanges(arr@, res.0@),
{
    let mut arr = arr;
    let elapsed = GnomeSort::gnome_sort_timed(&mut arr);
    (arr, elapsed)
}

/// Sorts `arr` by gnome sort and returns it with the step trace: `arr` as it
/// was, then a snapshot after each exchange, which is always that of the
/// leftmost out-of-order neighbours.
pub fn gnome_sort_stepped<T>(arr: Vec<T>) -> (res: (Vec<T>, Vec<Vec<T>>)) where
    T: PartialEq + PartialOrd + Clone + Copy,

    requires
        total_order::<T>(),
    ensures
        ascending(res.0@),
        same_elements(res.0@, arr@),
        ascending(arr@) ==> res.0@ == arr@,
        by_leftmost_exchanges(arr@, res.0@),
        leftmost_exchange_run(history(res.1), arr@, res.0@),
        ascending(arr@) ==> history(res.1) == seq![arr@],
{
    let mut arr = arr;
    let steps = GnomeSort::gnome_sort_stepped(&mut arr);
    (arr, steps)
}

/// Sorts `arr` by gnome sort and returns it with the step trace and the time it
/// took.
pub fn gnome_sort_stepped_and_timed<T>(arr: Vec<T>) -> (res: (
    Vec<T>,
    Vec<Vec<T>>,
    Duration,
)) where T: PartialEq + PartialOrd + Clone + Copy
    requires
        total_order::<T>(),
    ensures
        ascending(res.0@),
        same_elements(res.0@, arr@),
        ascending(arr@) ==> res.0@ == arr@,
        by_leftmost_exchanges(arr@, res.0@),
        leftmost_exchange_run(history(res.1), arr@, res.0@),
        ascending(arr@) ==> history(res.1) == seq![arr@],
{
    let mut arr = arr;
    let (steps, elapsed) = GnomeSort::gnome_sort_stepped_and_timed(&mut arr);
    (arr, steps, elapsed)
}

} // verus!
