//! Bogosort: shuffle until the sequence happens to be in order.
//!
//! Nothing bounds the number of shuffles that this takes, so each function
//! takes the number of shuffles it may make, and may leave the sequence
//! unsorted when it has made them all.

use vstd::prelude::*;
use std::time::{Duration, Instant};
use rand::seq::SliceRandom;
use crate::order::total_order;
use crate::sequence::{ascending, same_elements, history, record, start_trace};
use crate::algorithms::IsSorted;

verus! {

/// Puts the elements of `arr` in a random order.
///
/// This is `SliceRandom::shuffle` of the rand crate, on the generator that
/// `rand::thread_rng` hands out. It exchanges elements of the slice among
/// themselves and does nothing else to it, which is all that is claimed here:
/// the order that comes out is left open. Handing out the generator panics
/// where the system has nothing to seed it with.
#[verifier::external_body]
fn shuffle<T>(arr: &mut Vec<T>)
    ensures
        same_elements(final(arr)@, old(arr)@),
{
    arr.shuffle(&mut rand::thread_rng());
}

/// Every entry of `trace` but the last is out of order: each shuffle was made
/// because the sequence was not yet sorted.
pub open spec fn unsorted_before_last<T: PartialOrd>(trace: Seq<Seq<T>>) -> bool {
    forall|k: int| 0 <= k < trace.len() - 1 ==> !ascending(#[trigger] trace[k])
}

/// Every entry of `trace` holds the elements of `s`.
pub open spec fn arrangements_of<T>(trace: Seq<Seq<T>>, s: Seq<T>) -> bool {
    forall|k: int| 0 <= k < trace.len() ==> same_elements(#[trigger] trace[k], s)
}

/// Shuffles `arr` until it is in order or `attempts` shuffles have been made,
/// and with `stepped` appends a snapshot to `steps` after each shuffle.
/// Returns the number of shuffles made.
fn bogosort_core<T>(
    arr: &mut Vec<T>,
    attempts: usize,
    steps: &mut Vec<Vec<T>>,
    stepped: bool,
) -> (used: usize) where T: PartialEq + PartialOrd + Clone + Copy
    requires
        total_order::<T>(),
        stepped ==> history(*old(steps)) == seq![old(arr)@],
    ensures
        same_elements(final(arr)@, old(arr)@),
        ascending(old(arr)@) ==> final(arr)@ == old(arr)@ && used == 0,
        used <= attempts,
        used == 0 ==> final(arr)@ == old(arr)@,
        ascending(final(arr)@) || used == attempts,
        !stepped ==> *final(steps) == *old(steps),
        stepped ==> history(*final(steps)).len() == used + 1,
        stepped ==> history(*final(steps)).first() == old(arr)@,
        stepped ==> history(*final(steps)).last() == final(arr)@,
        stepped ==> arrangements_of(history(*final(steps)), old(arr)@),
        stepped ==> unsorted_before_last(history(*final(steps))),
{
    let mut used: usize = 0;
    if arr.len() <= 1 {
        return used;
    }
    while used < attempts && !IsSorted::is_sorted(arr)
        invariant
            total_order::<T>(),
            used <= attempts,
            used == 0 ==> arr@ == old(arr)@,
            same_elements(arr@, old(arr)@),
            ascending(old(arr)@) ==> arr@ == old(arr)@ && used == 0,
            !stepped ==> *steps == *old(steps),
            stepped ==> history(*steps).len() == used + 1,
            stepped ==> history(*steps).first() == old(arr)@,
            stepped ==> history(*steps).last() == arr@,
            stepped ==> arrangements_of(history(*steps), old(arr)@),
            stepped ==> unsorted_before_last(history(*steps)),
        decreases attempts - used,
    {
        let ghost trace = history(*steps);
        shuffle(arr);
        if stepped {
            record(steps, arr);
            proof {
                let longer = history(*steps);
                assert forall|k: int| 0 <= k < longer.len() implies same_elements(
                    #[trigger] longer[k],
                    old(arr)@,
                ) by {
                    if k < trace.len() {
                        assert(longer[k] == trace[k]);
                    }
                }
                assert forall|k: int| 0 <= k < longer.len() - 1 implies !ascending(
                    #[trigger] longer[k],
                ) by {
                    assert(longer[k] == trace[k]);
                }
            }
        }
        used += 1;
    }
    used
}

/// Bogosort on the sequence that `self` holds.
pub trait Bogosort<T: PartialEq + PartialOrd + Clone + Copy>: View<V = Seq<T>> + Sized {
    /// Shuffles `self` until it is in order, or until `attempts` shuffles
    /// have been made and it still is not.
    fn bogosort(&mut self, attempts: usize)
        requires
            total_order::<T>(),
        ensures
            same_elements(final(self)@, old(self)@),
            ascending(old(self)@) ==> final(self)@ == old(self)@,
            attempts == 0 ==> final(self)@ == old(self)@,
    ;

    /// Shuffles `self` as [`Bogosort::bogosort`] does and returns the time it
    /// took.
    fn bogosort_timed(&mut self, attempts: usize) -> (elapsed: Duration)
        requires
            total_order::<T>(),
        ensures
            same_elements(final(self)@, old(self)@),
            ascending(old(self)@) ==> final(self)@ == old(self)@,
            attempts == 0 ==> final(self)@ == old(self)@,
    ;

    /// Shuffles `self` as [`Bogosort::bogosort`] does and returns the step
    /// trace: `self` as it was, then a snapshot after each shuffle. The sort
    /// stopped because the last entry is in order, or because `attempts`
    /// shuffles were made.
    fn bogosort_stepped(&mut self, attempts: usize) -> (steps: Vec<Vec<T>>)
        requires
            total_order::<T>(),
        ensures
            same_elements(final(self)@, old(self)@),
            ascending(old(self)@) ==> final(self)@ == old(self)@,
            attempts == 0 ==> final(self)@ == old(self)@,
            1 <= history(steps).len() <= attempts + 1,
            history(steps).first() == old(self)@,
            history(steps).last() == final(self)@,
            arrangements_of(history(steps), old(self)@),
            unsorted_before_last(history(steps)),
            ascending(final(self)@) || history(steps).len() == attempts + 1,
            ascending(old(self)@) ==> history(steps) == seq![old(self)@],
    ;

    /// Shuffles `self` as [`Bogosort::bogosort`] does and returns the step
    /// trace and the time it took.
    fn bogosort_stepped_and_timed(&mut self, attempts: usize) -> (res: (Vec<Vec<T>>, Duration))
        requires
            total_order::<T>(),
        ensures
            same_elements(final(self)@, old(self)@),
            ascending(old(self)@) ==> final(self)@ == old(self)@,
            attempts == 0 ==> final(self)@ == old(self)@,
            1 <= history(res.0).len() <= attempts + 1,
            history(res.0).first() == old(self)@,
            history(res.0).last() == final(self)@,
            arrangements_of(history(res.0), old(self)@),
            unsorted_before_last(history(res.0)),
            ascending(final(self)@) || history(res.0).len() == attempts + 1,
            ascending(old(self)@) ==> history(res.0) == seq![old(self)@],
    ;
}

impl<T> Bogosort<T> for Vec<T> where T: PartialEq + PartialOrd + Clone + Copy {
    fn bogosort(&mut self, attempts: usize) {
        let mut steps: Vec<Vec<T>> = Vec::new();
        bogosort_core(self, attempts, &mut steps, false);
    }

    fn bogosort_timed(&mut self, attempts: usize) -> (elapsed: Duration) {
        let time = Instant::now();
        self.bogosort(attempts);
        time.elapsed()
    }

    fn bogosort_stepped(&mut self, attempts: usize) -> (steps: Vec<Vec<T>>) {
        let mut steps = start_trace(self);
        bogosort_core(self, attempts, &mut steps, true);
        proof {
            if ascending(old(self)@) {
                assert(history(steps) =~= seq![old(self)@]);
            }
        }
        steps
    }

    fn bogosort_stepped_and_timed(&mut self, attempts: usize) -> (res: (Vec<Vec<T>>, Duration)) {
        let time = Instant::now();
        let steps = self.bogosort_stepped(attempts);
        (steps, time.elapsed())
    }
}

/// Shuffles `arr` until it is in order, or until `attempts` shuffles have
/// been made and it still is not, and returns it.
pub fn bogosort<T>(arr: Vec<T>, attempts: usize) -> (shuffled: Vec<T>) where
    T: PartialEq + PartialOrd + Clone + Copy,

    requires
        total_order::<T>(),
    ensures
        same_elements(shuffled@, arr@),
        ascending(arr@) ==> shuffled@ == arr@,
        attempts == 0 ==> shuffled@ == arr@,
{
    let mut arr = arr;
    Bogosort::bogosort(&mut arr, attempts);
    arr
}

/// Shuffles `arr` as [`bogosort`] does and returns it with the time it took.
pub fn bogosort_timed<T>(arr: Vec<T>, attempts: usize) -> (res: (Vec<T>, Duration)) where
    T: PartialEq + PartialOrd + Clone + Copy,

    requires
        total_order::<T>(),
    ensures
        same_elements(res.0@, arr@),
        ascending(arr@) ==> res.0@ == arr@,
        attempts == 0 ==> res.0@ == arr@,
{
    let mut arr = arr;
    let elapsed = Bogosort::bogosort_timed(&mut arr, attempts);
    (arr, elapsed)
}

/// Shuffles `arr` as [`bogosort`] does and returns it with the step trace:
/// `arr` as it was, then a snapshot after each shuffle. The sort stopped
/// because the last entry is in order, or because `attempts` shuffles were
/// made.
pub fn bogosort_stepped<T>(arr: Vec<T>, attempts: usize) -> (res: (Vec<T>, Vec<Vec<T>>)) where
    T: PartialEq + PartialOrd + Clone + Copy,

    requires
        total_order::<T>(),
    ensures
        same_elements(res.0@, arr@),
        ascending(arr@) ==> res.0@ == arr@,
        attempts == 0 ==> res.0@ == arr@,
        1 <= history(res.1).len() <= attempts + 1,
        history(res.1).first() == arr@,
        history(res.1).last() == res.0@,
        arrangements_of(history(res.1), arr@),
        unsorted_before_last(history(res.1)),
        ascending(res.0@) || history(res.1).len() == attempts + 1,
        ascending(arr@) ==> history(res.1) == seq![arr@],
{
    let mut arr = arr;
    let steps = Bogosort::bogosort_stepped(&mut arr, attempts);
    (arr, steps)
}

/// Shuffles `arr` as [`bogosort`] does and returns it with the step trace and
/// the time it took.
pub fn bogosort_stepped_and_timed<T>(arr: Vec<T>, attempts: usize) -> (res: (
    Vec<T>,
    Vec<Vec<T>>,
    Duration,
)) where T: PartialEq + PartialOrd + Clone + Copy
    requires
        total_order::<T>(),
    ensures
        same_elements(res.0@, arr@),
        ascending(arr@) ==> res.0@ == arr@,
        attempts == 0 ==> res.0@ == arr@,
        1 <= history(res.1).len() <= attempts + 1,
        history(res.1).first() == arr@,
        history(res.1).last() == res.0@,
        arrangements_of(history(res.1), arr@),
        unsorted_before_last(history(res.1)),
        ascending(res.0@) || history(res.1).len() == attempts + 1,
        ascending(arr@) ==> history(res.1) == seq![arr@],
{
    let mut arr = arr;
    let (steps, elapsed) = Bogosort::bogosort_stepped_and_timed(&mut arr, attempts);
    (arr, steps, elapsed)
}

} // verus!
