//! Selection sort: the least of what remains is taken out and appended to
//! what is sorted, until nothing remains.
//!
//! Its step trace differs from that of the other algorithms: each entry is a
//! pair, what remains unsorted and what has been sorted so far.

use vstd::prelude::*;
use vstd::seq_lib::{to_multiset_contains, to_multiset_insert, to_multiset_remove};
use std::time::{Duration, Instant};
use crate::order::{lt, total_order, above, lemma_lt_transitive, lemma_not_lt_transitive};
use crate::sequence::{ascending, same_elements, snapshot, lemma_same_elements_position};

verus! {

/// The position of the least element of `s`, the first of them where several
/// are equivalent; 0 where `s` is empty.
pub open spec fn first_least<T: PartialOrd>(s: Seq<T>) -> int
    decreases s.len(),
{
    if s.len() <= 1 {
        0
    } else {
        let m = first_least(s.drop_last());
        if lt(s.last(), s[m]) {
            s.len() - 1
        } else {
            m
        }
    }
}

/// What selection sort makes of `s`: its first least element, then what it
/// makes of the others.
pub open spec fn selection_sorted<T: PartialOrd>(s: Seq<T>) -> Seq<T>
    decreases s.len(),
    via selection_sorted_decreases::<T>
{
    if s.len() == 0 {
        s
    } else {
        seq![s[first_least(s)]] + selection_sorted(s.remove(first_least(s)))
    }
}

#[via_fn]
proof fn selection_sorted_decreases<T: PartialOrd>(s: Seq<T>) {
    lemma_first_least_in_range(s);
}

/// `first_least` is a position of the sequence, where it has any.
pub proof fn lemma_first_least_in_range<T: PartialOrd>(s: Seq<T>)
    ensures
        s.len() > 0 ==> 0 <= first_least(s) < s.len(),
    decreases s.len(),
{
    if s.len() > 1 {
        lemma_first_least_in_range(s.drop_last());
    }
}

/// One extraction: the least of `rest` leaves it and is appended to `done`.
pub open spec fn extracted<T: PartialOrd>(rest: Seq<T>, done: Seq<T>) -> (Seq<T>, Seq<T>) {
    (rest.remove(first_least(rest)), done.push(rest[first_least(rest)]))
}

/// Entry `k` of `trace` is its predecessor after one extraction.
pub open spec fn extraction_gave<T: PartialOrd>(trace: Seq<(Seq<T>, Seq<T>)>, k: int) -> bool {
    trace[k - 1].0.len() > 0 && trace[k] == extracted(trace[k - 1].0, trace[k - 1].1)
}

/// Each entry of `trace` after the first is its predecessor after one
/// extraction.
pub open spec fn extractions<T: PartialOrd>(trace: Seq<(Seq<T>, Seq<T>)>) -> bool {
    forall|k: int| 0 < k < trace.len() ==> #[trigger] extraction_gave(trace, k)
}

/// The entries of a selection sort's step trace, each as the pair of
/// sequences it holds.
pub open spec fn pair_history<T>(steps: Vec<(Vec<T>, Vec<T>)>) -> Seq<(Seq<T>, Seq<T>)> {
    Seq::new(steps@.len(), |k: int| (steps@[k].0@, steps@[k].1@))
}

/// Under a total order no element is below the one at `first_least`, which
/// is strictly below every element before it.
pub proof fn lemma_first_least<T: PartialOrd>(s: Seq<T>)
    requires
        total_order::<T>(),
        s.len() > 0,
    ensures
        0 <= first_least(s) < s.len(),
        forall|k: int| 0 <= k < s.len() ==> !lt(#[trigger] s[k], s[first_least(s)]),
        forall|k: int| 0 <= k < first_least(s) ==> lt(s[first_least(s)], #[trigger] s[k]),
    decreases s.len(),
{
    if s.len() == 1 {
        if lt(s[0], s[0]) {
            crate::order::lemma_lt_asymmetric(s[0], s[0]);
        }
    } else {
        let t = s.drop_last();
        let m = first_least(t);
        lemma_first_least(t);
        assert(t[m] == s[m]);
        if lt(s.last(), s[m]) {
            crate::order::lemma_lt_asymmetric(s.last(), s[m]);
            assert forall|k: int| 0 <= k < s.len() implies !lt(#[trigger] s[k], s.last()) by {
                if k < s.len() - 1 {
                    assert(t[k] == s[k]);
                    if lt(s[k], s.last()) {
                        lemma_lt_transitive(s[k], s.last(), s[m]);
                    }
                } else if lt(s.last(), s.last()) {
                    crate::order::lemma_lt_asymmetric(s.last(), s.last());
                }
            }
            assert forall|k: int| 0 <= k < s.len() - 1 implies lt(s.last(), #[trigger] s[k]) by {
                assert(t[k] == s[k]);
                if !lt(s.last(), s[k]) {
                    lemma_not_lt_transitive(s[m], s[k], s.last());
                }
            }
        } else {
            assert forall|k: int| 0 <= k < s.len() implies !lt(#[trigger] s[k], s[m]) by {
                if k < s.len() - 1 {
                    assert(t[k] == s[k]);
                }
            }
            assert forall|k: int| 0 <= k < m implies lt(s[m], #[trigger] s[k]) by {
                assert(t[k] == s[k]);
            }
        }
    }
}

/// The first element of an ascending sequence is its first least.
pub proof fn lemma_first_least_of_ascending<T: PartialOrd>(s: Seq<T>)
    requires
        total_order::<T>(),
        ascending(s),
    ensures
        first_least(s) == 0,
{
    if s.len() > 0 {
        lemma_first_least(s);
        let m = first_least(s);
        if m > 0 {
            assert(lt(s[m], s[0]));
            assert(!lt(s[m], s[0]));
        }
    }
}

/// Selection sort sorts: under a total order its result is ascending and
/// holds the elements of its input.
pub proof fn lemma_selection_sorted_sorts<T: PartialOrd>(s: Seq<T>)
    requires
        total_order::<T>(),
    ensures
        ascending(selection_sorted(s)),
        same_elements(selection_sorted(s), s),
        selection_sorted(s).len() == s.len(),
    decreases s.len(),
{
    broadcast use vstd::multiset::group_multiset_axioms;

    if s.len() > 0 {
        let m = first_least(s);
        lemma_first_least(s);
        let rest = s.remove(m);
        let tail = selection_sorted(rest);
        let out = selection_sorted(s);
        lemma_selection_sorted_sorts(rest);
        assert(out.len() == s.len());
        assert(out =~= tail.insert(0, s[m]));
        to_multiset_insert(tail, 0, s[m]);
        to_multiset_remove(s, m);
        to_multiset_contains(s, s[m]);
        assert(s.contains(s[m]));
        assert(out.to_multiset() =~= s.to_multiset());
        assert forall|i: int, j: int| 0 <= i < j < out.len() implies !lt(
            #[trigger] out[j],
            #[trigger] out[i],
        ) by {
            assert(out[j] == tail[j - 1]);
            if i == 0 {
                let k = lemma_same_elements_position(tail, rest, j - 1);
                let from = if k < m { k } else { k + 1 };
                assert(rest[k] == s[from]);
            } else {
                assert(out[i] == tail[i - 1]);
            }
        }
    }
}

/// Selection sort leaves an ascending sequence as it is.
pub proof fn lemma_selection_sorted_of_ascending<T: PartialOrd>(s: Seq<T>)
    requires
        total_order::<T>(),
        ascending(s),
    ensures
        selection_sorted(s) == s,
    decreases s.len(),
{
    if s.len() > 0 {
        lemma_first_least_of_ascending(s);
        let rest = s.remove(0);
        assert(ascending(rest)) by {
            assert forall|i: int, j: int| 0 <= i < j < rest.len() implies !lt(
                #[trigger] rest[j],
                #[trigger] rest[i],
            ) by {
                assert(rest[i] == s[i + 1] && rest[j] == s[j + 1]);
            }
        }
        lemma_selection_sorted_of_ascending(rest);
        assert(seq![s[0]] + rest =~= s);
    }
}

/// From an ascending sequence each extraction takes the front: entry `k` of
/// the trace holds the sequence without its first `k` elements, and those.
pub proof fn lemma_extractions_of_ascending<T: PartialOrd>(
    trace: Seq<(Seq<T>, Seq<T>)>,
    input: Seq<T>,
    k: int,
)
    requires
        total_order::<T>(),
        ascending(input),
        extractions(trace),
        0 <= k < trace.len(),
        trace[0] == (input, Seq::<T>::empty()),
    ensures
        k <= input.len(),
        trace[k] == (input.skip(k), input.take(k)),
    decreases k,
{
    if k == 0 {
        assert(input.skip(0) =~= input);
        assert(input.take(0) =~= Seq::<T>::empty());
    } else {
        lemma_extractions_of_ascending(trace, input, k - 1);
        assert(extraction_gave(trace, k));
        let rest = input.skip(k - 1);
        assert(ascending(rest)) by {
            assert forall|i: int, j: int| 0 <= i < j < rest.len() implies !lt(
                #[trigger] rest[j],
                #[trigger] rest[i],
            ) by {
                assert(rest[i] == input[i + k - 1] && rest[j] == input[j + k - 1]);
            }
        }
        lemma_first_least_of_ascending(rest);
        assert(rest.remove(0) =~= input.skip(k));
        assert(input.take(k - 1).push(rest[0]) =~= input.take(k));
    }
}

/// The position of the least element of `arr`, the first of them where
/// several are equivalent.
fn least_position<T>(arr: &Vec<T>) -> (m: usize) where T: PartialEq + PartialOrd + Clone + Copy
    requires
        total_order::<T>(),
        arr.len() > 0,
    ensures
        m == first_least(arr@),
        m < arr.len(),
{
    let mut m: usize = 0;
    let mut i: usize = 0;
    while i < arr.len()
        invariant
            total_order::<T>(),
            i <= arr.len(),
            m == first_least(arr@.take(i as int)),
            m < arr.len(),
            i > 0 ==> m < i,
        decreases arr.len() - i,
    {
        let ghost seen = arr@.take(i + 1);
        proof {
            assert(seen.drop_last() =~= arr@.take(i as int));
            assert(seen.last() == arr@[i as int]);
            if i == 0 {
                if lt(arr@[0], arr@[0]) {
                    crate::order::lemma_lt_asymmetric(arr@[0], arr@[0]);
                }
            } else {
                assert(seen[m as int] == arr@[m as int]);
            }
        }
        if above(&arr[m], &arr[i]) {
            m = i;
        }
        i += 1;
    }
    assert(arr@.take(arr.len() as int) =~= arr@);
    m
}

/// Appends to `steps` a snapshot of what remains and of what is sorted.
fn record_pair<T: Copy>(steps: &mut Vec<(Vec<T>, Vec<T>)>, rest: &Vec<T>, done: &Vec<T>)
    ensures
        pair_history(*final(steps)) == pair_history(*old(steps)).push((rest@, done@)),
{
    let entry = (snapshot(rest), snapshot(done));
    steps.push(entry);
    assert(pair_history(*steps) =~= pair_history(*old(steps)).push((rest@, done@)));
}

/// A step trace that holds `arr` as what remains, nothing as what is sorted,
/// and no other entry.
fn start_pair_trace<T: Copy>(arr: &Vec<T>) -> (steps: Vec<(Vec<T>, Vec<T>)>)
    ensures
        pair_history(steps) == seq![(arr@, Seq::<T>::empty())],
{
    let mut steps: Vec<(Vec<T>, Vec<T>)> = Vec::new();
    let done: Vec<T> = Vec::new();
    record_pair(&mut steps, arr, &done);
    assert(pair_history(steps) =~= seq![(arr@, Seq::<T>::empty())]);
    steps
}

/// A trace of extractions stays one when the extraction from its last entry
/// is appended.
proof fn lemma_extractions_push<T: PartialOrd>(
    trace: Seq<(Seq<T>, Seq<T>)>,
    next: (Seq<T>, Seq<T>),
)
    requires
        extractions(trace),
        trace.len() >= 1,
        trace.last().0.len() > 0,
        next == extracted(trace.last().0, trace.last().1),
    ensures
        extractions(trace.push(next)),
{
    let longer = trace.push(next);
    assert forall|k: int| 0 < k < longer.len() implies #[trigger] extraction_gave(longer, k) by {
        assert(longer[k - 1] == trace[k - 1]);
        if k < trace.len() {
            assert(longer[k] == trace[k]);
            assert(extraction_gave(trace, k));
        }
    }
}

/// Sorts `arr`, and with `stepped` appends to `steps`, after each extraction,
/// a snapshot of what remains and of what is sorted.
fn selection_core<T>(arr: &mut Vec<T>, steps: &mut Vec<(Vec<T>, Vec<T>)>, stepped: bool) where
    T: PartialEq + PartialOrd + Clone + Copy,

    requires
        total_order::<T>(),
        stepped ==> pair_history(*old(steps)) == seq![(old(arr)@, Seq::<T>::empty())],
    ensures
        final(arr)@ == selection_sorted(old(arr)@),
        ascending(final(arr)@),
        same_elements(final(arr)@, old(arr)@),
        ascending(old(arr)@) ==> final(arr)@ == old(arr)@,
        !stepped ==> *final(steps) == *old(steps),
        stepped ==> pair_history(*final(steps)).first() == (old(arr)@, Seq::<T>::empty()),
        stepped ==> pair_history(*final(steps)).len() == if old(arr)@.len() <= 1 {
            1
        } else {
            old(arr)@.len() + 1
        },
        stepped ==> extractions(pair_history(*final(steps))),
        stepped && old(arr)@.len() > 1 ==> pair_history(*final(steps)).last() == (
            Seq::<T>::empty(),
            final(arr)@,
        ),
{
    proof {
        lemma_selection_sorted_sorts(arr@);
        if ascending(arr@) {
            lemma_selection_sorted_of_ascending(arr@);
        }
    }
    if arr.len() <= 1 {
        return ;
    }
    let mut sorted: Vec<T> = Vec::new();
    assert(sorted@ + selection_sorted(arr@) =~= selection_sorted(arr@));
    while arr.len() > 0
        invariant
            total_order::<T>(),
            sorted@.len() + arr@.len() == old(arr)@.len(),
            sorted@ + selection_sorted(arr@) == selection_sorted(old(arr)@),
            !stepped ==> *steps == *old(steps),
            stepped ==> pair_history(*steps).first() == (old(arr)@, Seq::<T>::empty()),
            stepped ==> pair_history(*steps).len() == sorted@.len() + 1,
            stepped ==> extractions(pair_history(*steps)),
            stepped ==> pair_history(*steps).last() == (arr@, sorted@),
        decreases arr.len(),
    {
        let ghost rest = arr@;
        let ghost done = sorted@;
        let ghost trace = pair_history(*steps);
        let m = least_position(arr);
        let least = arr.remove(m);
        sorted.push(least);
        assert(sorted@ + selection_sorted(arr@) =~= done + selection_sorted(rest));
        if stepped {
            record_pair(steps, arr, &sorted);
            proof {
                lemma_extractions_push(trace, (arr@, sorted@));
            }
        }
    }
    assert(sorted@ + selection_sorted(arr@) =~= sorted@);
    *arr = sorted;
}

/// Selection sort on the sequence that `self` holds.
pub trait SelectionSort<T: PartialEq + PartialOrd + Clone + Copy>: View<V = Seq<T>> + Sized {
    /// Sorts `self`.
    fn selection_sort(&mut self)
        requires
            total_order::<T>(),
        ensures
            final(self)@ == selection_sorted(old(self)@),
            ascending(final(self)@),
            same_elements(final(self)@, old(self)@),
            ascending(old(self)@) ==> final(self)@ == old(self)@,
    ;

    /// Sorts `self` and returns the time it took.
    fn selection_sort_timed(&mut self) -> (elapsed: Duration)
        requires
            total_order::<T>(),
        ensures
            final(self)@ == selection_sorted(old(self)@),
            ascending(final(self)@),
            same_elements(final(self)@, old(self)@),
            ascending(old(self)@) ==> final(self)@ == old(self)@,
    ;

    /// Sorts `self` and returns the step trace: pairs of what remains unsorted
    /// and what has been sorted so far. The first pair holds `self` as it was
    /// and nothing sorted; each extraction of a least element adds a pair; a
    /// sequence of at most one element adds none.
    fn selection_sort_stepped(&mut self) -> (steps: Vec<(Vec<T>, Vec<T>)>)
        requires
            total_order::<T>(),
        ensures
            final(self)@ == selection_sorted(old(self)@),
            ascending(final(self)@),
            same_elements(final(self)@, old(self)@),
            ascending(old(self)@) ==> final(self)@ == old(self)@,
            pair_history(steps).first() == (old(self)@, Seq::<T>::empty()),
            pair_history(steps).len() == if old(self)@.len() <= 1 {
                1
            } else {
                old(self)@.len() + 1
            },
            extractions(pair_history(steps)),
            old(self)@.len() > 1 ==> pair_history(steps).last() == (
                Seq::<T>::empty(),
                final(self)@,
            ),
            ascending(old(self)@) ==> forall|k: int|
                0 <= k < pair_history(steps).len() ==> #[trigger] pair_history(steps)[k] == (
                    old(self)@.skip(k),
                    old(self)@.take(k),
                ),
    ;

    /// Sorts `self` and returns the step trace and the time it took.
    fn selection_sort_stepped_and_timed(&mut self) -> (res: (Vec<(Vec<T>, Vec<T>)>, Duration))
        requires
            total_order::<T>(),
        ensures
            final(self)@ == selection_sorted(old(self)@),
            ascending(final(self)@),
            same_elements(final(self)@, old(self)@),
            ascending(old(self)@) ==> final(self)@ == old(self)@,
            pair_history(res.0).first() == (old(self)@, Seq::<T>::empty()),
            pair_history(res.0).len() == if old(self)@.len() <= 1 {
                1
            } else {
                old(self)@.len() + 1
            },
            extractions(pair_history(res.0)),
            old(self)@.len() > 1 ==> pair_history(res.0).last() == (
                Seq::<T>::empty(),
                final(self)@,
            ),
            ascending(old(self)@) ==> forall|k: int|
                0 <= k < pair_history(res.0).len() ==> #[trigger] pair_history(res.0)[k] == (
                    old(self)@.skip(k),
                    old(self)@.take(k),
                ),
    ;
}

impl<T> SelectionSort<T> for Vec<T> where T: PartialEq + PartialOrd + Clone + Copy {
    fn selection_sort(&mut self) {
        let mut steps: Vec<(Vec<T>, Vec<T>)> = Vec::new();
        selection_core(self, &mut steps, false);
    }

    fn selection_sort_timed(&mut self) -> (elapsed: Duration) {
        let time = Instant::now();
        self.selection_sort();
        time.elapsed()
    }

    fn selection_sort_stepped(&mut self) -> (steps: Vec<(Vec<T>, Vec<T>)>) {
        let mut steps = start_pair_trace(self);
        selection_core(self, &mut steps, true);
        proof {
            if ascending(old(self)@) {
                let trace = pair_history(steps);
                assert forall|k: int| 0 <= k < trace.len() implies #[trigger] trace[k] == (
                    old(self)@.skip(k),
                    old(self)@.take(k),
                ) by {
                    lemma_extractions_of_ascending(trace, old(self)@, k);
                }
            }
        }
        steps
    }

    fn selection_sort_stepped_and_timed(&mut self) -> (res: (Vec<(Vec<T>, Vec<T>)>, Duration)) {
        let time = Instant::now();
        let steps = self.selection_sort_stepped();
        (steps, time.elapsed())
    }
}

/// Sorts `arr` by selection sort and returns it.
pub fn selection_sort<T>(arr: Vec<T>) -> (sorted: Vec<T>) where
    T: PartialEq + PartialOrd + Clone + Copy,

    requires
        total_order::<T>(),
    ensures
        sorted@ == selection_sorted(arr@),
        ascending(sorted@),
        same_elements(sorted@, arr@),
        ascending(arr@) ==> sorted@ == arr@,
{
    let mut arr = arr;
    SelectionSort::selection_sort(&mut arr);
    arr
}

/// Sorts `arr` by selection sort and returns it with the time it took.
pub fn selection_sort_timed<T>(arr: Vec<T>) -> (res: (Vec<T>, Duration)) where
    T: PartialEq + PartialOrd + Clone + Copy,

    requires
        total_order::<T>(),
    ensures
        res.0@ == selection_sorted(arr@),
        ascending(res.0@),
        same_elements(res.0@, arr@),
        ascending(arr@) ==> res.0@ == arr@,
{
    let mut arr = arr;
    let elapsed = SelectionSort::selection_sort_timed(&mut arr);
    (arr, elapsed)
}

/// Sorts `arr` by selection sort and returns it with the step trace: pairs of
/// what remains unsorted and what has been sorted so far. The first pair holds
/// `arr` as it was and nothing sorted; each extraction of a least element adds
/// a pair; a sequence of at most one element adds none.
pub fn selection_sort_stepped<T>(arr: Vec<T>) -> (res: (Vec<T>, Vec<(Vec<T>, Vec<T>)>)) where
    T: PartialEq + PartialOrd + Clone + Copy,

    requires
        total_order::<T>(),
    ensures
        res.0@ == selection_sorted(arr@),
        ascending(res.0@),
        same_elements(res.0@, arr@),
        ascending(arr@) ==> res.0@ == arr@,
        pair_history(res.1).first() == (arr@, Seq::<T>::empty()),
        pair_history(res.1).len() == if arr@.len() <= 1 {
            1
        } else {
            arr@.len() + 1
        },
        extractions(pair_history(res.1)),
        arr@.len() > 1 ==> pair_history(res.1).last() == (
            Seq::<T>::empty(),
            res.0@,
        ),
        ascending(arr@) ==> forall|k: int|
            0 <= k < pair_history(res.1).len() ==> #[trigger] pair_history(res.1)[k] == (
                arr@.skip(k),
                arr@.take(k),
            ),
{
    let mut arr = arr;
    let steps = SelectionSort::selection_sort_stepped(&mut arr);
    (arr, steps)
}

/// Sorts `arr` by selection sort and returns it with the step trace and the time it
/// took.
pub fn selection_sort_stepped_and_timed<T>(arr: Vec<T>) -> (res: (
    Vec<T>,
    Vec<(Vec<T>, Vec<T>)>,
    Duration,
)) where T: PartialEq + PartialOrd + Clone + Copy
    requires
        total_order::<T>(),
    ensures
        res.0@ == selection_sorted(arr@),
        ascending(res.0@),
        same_elements(res.0@, arr@),
        ascending(arr@) ==> res.0@ == arr@,
        pair_history(res.1).first() == (arr@, Seq::<T>::empty()),
        pair_history(res.1).len() == if arr@.len() <= 1 {
            1
        } else {
            arr@.len() + 1
        },
        extractions(pair_history(res.1)),
        arr@.len() > 1 ==> pair_history(res.1).last() == (
            Seq::<T>::empty(),
            res.0@,
        ),
        ascending(arr@) ==> forall|k: int|
            0 <= k < pair_history(res.1).len() ==> #[trigger] pair_history(res.1)[k] == (
                arr@.skip(k),
                arr@.take(k),
            ),
{
    let mut arr = arr;
    let (steps, elapsed) = SelectionSort::selection_sort_stepped_and_timed(&mut arr);
    (arr, steps, elapsed)
}

} // verus!
