//! Merge sort: halve, sort each half, merge.

use vstd::prelude::*;
use vstd::seq_lib::lemma_multiset_commutative;
use std::time::{Duration, Instant};
use crate::order::{lt, total_order, at_most, lemma_not_lt_transitive, lemma_lt_asymmetric};
use crate::sequence::{
    ascending,
    part_of,
    same_elements,
    history,
    copy_range,
    record,
    start_trace,
};

verus! {

/// The merge of `left` and `right`: the lesser front goes first, and where
/// neither front is below the other, the front of `left` does.
pub open spec fn merged<T: PartialOrd>(left: Seq<T>, right: Seq<T>) -> Seq<T>
    decreases left.len() + right.len(),
{
    if left.len() == 0 {
        right
    } else if right.len() == 0 {
        left
    } else if !lt(right[0], left[0]) {
        seq![left[0]] + merged(left.drop_first(), right)
    } else {
        seq![right[0]] + merged(left, right.drop_first())
    }
}

/// Where merge sort halves a sequence of `len` elements.
pub open spec fn midpoint(len: nat) -> int {
    len as int / 2
}

/// What merge sort makes of `s`: `s` itself where it has at most one element,
/// else the merge of its sorted halves, the first of which has half the
/// length, rounded down.
pub open spec fn merge_sorted<T: PartialOrd>(s: Seq<T>) -> Seq<T>
    decreases s.len(),
{
    if s.len() <= 1 {
        s
    } else {
        merged(merge_sorted(s.take(midpoint(s.len()))), merge_sorted(s.skip(midpoint(s.len()))))
    }
}

/// The snapshots that sorting `s` adds to a step trace: those of its first
/// half, those of its second half, then `s` sorted. A sequence of at most one
/// element adds none.
pub open spec fn merge_steps<T: PartialOrd>(s: Seq<T>) -> Seq<Seq<T>>
    decreases s.len(),
{
    if s.len() <= 1 {
        Seq::empty()
    } else {
        merge_steps(s.take(midpoint(s.len()))) + merge_steps(s.skip(midpoint(s.len()))) + seq![
            merge_sorted(s),
        ]
    }
}

/// No element of `s` is strictly below `x`.
pub open spec fn bounded_below<T: PartialOrd>(s: Seq<T>, x: T) -> bool {
    forall|k: int| 0 <= k < s.len() ==> !lt(#[trigger] s[k], x)
}

/// A merge holds the elements of both sides, and nothing below a bound that
/// holds of both.
pub proof fn lemma_merged_elements<T: PartialOrd>(left: Seq<T>, right: Seq<T>)
    ensures
        same_elements(merged(left, right), left + right),
        merged(left, right).len() == left.len() + right.len(),
        forall|x: T|
            bounded_below(left, x) && bounded_below(right, x) ==> #[trigger] bounded_below(
                merged(left, right),
                x,
            ),
    decreases left.len() + right.len(),
{
    broadcast use vstd::multiset::group_multiset_axioms;

    let m = merged(left, right);
    if left.len() == 0 {
        assert(left + right =~= right);
    } else if right.len() == 0 {
        assert(left + right =~= left);
    } else if !lt(right[0], left[0]) {
        let rest = merged(left.drop_first(), right);
        lemma_merged_elements(left.drop_first(), right);
        lemma_multiset_commutative(seq![left[0]], rest);
        lemma_multiset_commutative(seq![left[0]], left.drop_first() + right);
        assert(seq![left[0]] + (left.drop_first() + right) =~= left + right);
        assert(m.to_multiset() =~= (left + right).to_multiset());
        assert forall|x: T| bounded_below(left, x) && bounded_below(right, x) implies #[trigger]
            bounded_below(m, x) by {
            assert(bounded_below(left.drop_first(), x)) by {
                assert forall|k: int| 0 <= k < left.drop_first().len() implies !lt(
                    #[trigger] left.drop_first()[k],
                    x,
                ) by {
                    assert(left.drop_first()[k] == left[k + 1]);
                }
            }
            assert(bounded_below(rest, x));
            assert forall|k: int| 0 <= k < m.len() implies !lt(#[trigger] m[k], x) by {
                if k == 0 {
                    assert(m[0] == left[0]);
                } else {
                    assert(m[k] == rest[k - 1]);
                }
            }
        }
    } else {
        let rest = merged(left, right.drop_first());
        lemma_merged_elements(left, right.drop_first());
        lemma_multiset_commutative(seq![right[0]], rest);
        lemma_multiset_commutative(left, right.drop_first());
        lemma_multiset_commutative(left, right);
        lemma_multiset_commutative(seq![right[0]], right.drop_first());
        assert(seq![right[0]] + right.drop_first() =~= right);
        assert(m.to_multiset() =~= (left + right).to_multiset());
        assert forall|x: T| bounded_below(left, x) && bounded_below(right, x) implies #[trigger]
            bounded_below(m, x) by {
            assert(bounded_below(right.drop_first(), x)) by {
                assert forall|k: int| 0 <= k < right.drop_first().len() implies !lt(
                    #[trigger] right.drop_first()[k],
                    x,
                ) by {
                    assert(right.drop_first()[k] == right[k + 1]);
                }
            }
            assert(bounded_below(rest, x));
            assert forall|k: int| 0 <= k < m.len() implies !lt(#[trigger] m[k], x) by {
                if k == 0 {
                    assert(m[0] == right[0]);
                } else {
                    assert(m[k] == rest[k - 1]);
                }
            }
        }
    }
}

/// Under a total order the merge of two ascending sequences is ascending.
pub proof fn lemma_merged_ascending<T: PartialOrd>(left: Seq<T>, right: Seq<T>)
    requires
        total_order::<T>(),
        ascending(left),
        ascending(right),
    ensures
        ascending(merged(left, right)),
    decreases left.len() + right.len(),
{
    let m = merged(left, right);
    if left.len() == 0 || right.len() == 0 {
    } else {
        let by_left = !lt(right[0], left[0]);
        let head = if by_left { left[0] } else { right[0] };
        let l = if by_left { left.drop_first() } else { left };
        let r = if by_left { right } else { right.drop_first() };
        let rest = merged(l, r);
        assert(m == seq![head] + rest);
        assert(ascending(l));
        assert(ascending(r));
        lemma_merged_ascending(l, r);
        lemma_merged_elements(l, r);
        if !by_left {
            lemma_lt_asymmetric(right[0], left[0]);
        }
        assert(bounded_below(l, head)) by {
            assert forall|k: int| 0 <= k < l.len() implies !lt(#[trigger] l[k], head) by {
                if by_left {
                    assert(l[k] == left[k + 1]);
                } else if k > 0 {
                    lemma_not_lt_transitive(head, left[0], left[k]);
                }
            }
        }
        assert(bounded_below(r, head)) by {
            assert forall|k: int| 0 <= k < r.len() implies !lt(#[trigger] r[k], head) by {
                if !by_left {
                    assert(r[k] == right[k + 1]);
                } else if k > 0 {
                    lemma_not_lt_transitive(head, right[0], right[k]);
                }
            }
        }
        assert(bounded_below(rest, head));
        assert forall|i: int, j: int| 0 <= i < j < m.len() implies !lt(
            #[trigger] m[j],
            #[trigger] m[i],
        ) by {
            assert(m[j] == rest[j - 1]);
            if i > 0 {
                assert(m[i] == rest[i - 1]);
            }
        }
    }
}

/// Where `left` followed by `right` is ascending, their merge is just that.
pub proof fn lemma_merged_of_ascending<T: PartialOrd>(left: Seq<T>, right: Seq<T>)
    requires
        ascending(left + right),
    ensures
        merged(left, right) == left + right,
    decreases left.len() + right.len(),
{
    let whole = left + right;
    if left.len() == 0 {
        assert(whole =~= right);
    } else if right.len() == 0 {
        assert(whole =~= left);
    } else {
        assert(whole[left.len() as int] == right[0]);
        assert(whole[0] == left[0]);
        assert(!lt(right[0], left[0]));
        let rest = left.drop_first() + right;
        assert(ascending(rest)) by {
            assert forall|i: int, j: int| 0 <= i < j < rest.len() implies !lt(
                #[trigger] rest[j],
                #[trigger] rest[i],
            ) by {
                assert(rest[i] == whole[i + 1]);
                assert(rest[j] == whole[j + 1]);
            }
        }
        lemma_merged_of_ascending(left.drop_first(), right);
        assert(seq![left[0]] + rest =~= whole);
    }
}

/// Merge sort sorts: under a total order its result is ascending and holds
/// the elements of its input.
pub proof fn lemma_merge_sorted_sorts<T: PartialOrd>(s: Seq<T>)
    requires
        total_order::<T>(),
    ensures
        ascending(merge_sorted(s)),
        same_elements(merge_sorted(s), s),
        merge_sorted(s).len() == s.len(),
    decreases s.len(),
{
    if s.len() > 1 {
        let h = midpoint(s.len());
        let a = s.take(h);
        let b = s.skip(h);
        lemma_merge_sorted_sorts(a);
        lemma_merge_sorted_sorts(b);
        lemma_merged_ascending(merge_sorted(a), merge_sorted(b));
        lemma_merged_elements(merge_sorted(a), merge_sorted(b));
        lemma_multiset_commutative(merge_sorted(a), merge_sorted(b));
        lemma_multiset_commutative(a, b);
        assert(a + b =~= s);
    }
}

/// Merge sort leaves an ascending sequence as it is.
pub proof fn lemma_merge_sorted_of_ascending<T: PartialOrd>(s: Seq<T>)
    requires
        ascending(s),
    ensures
        merge_sorted(s) == s,
    decreases s.len(),
{
    if s.len() > 1 {
        let h = midpoint(s.len());
        let a = s.take(h);
        let b = s.skip(h);
        assert(a + b =~= s);
        assert(ascending(a)) by {
            assert forall|i: int, j: int| 0 <= i < j < a.len() implies !lt(
                #[trigger] a[j],
                #[trigger] a[i],
            ) by {
                assert(a[i] == s[i] && a[j] == s[j]);
            }
        }
        assert(ascending(b)) by {
            assert forall|i: int, j: int| 0 <= i < j < b.len() implies !lt(
                #[trigger] b[j],
                #[trigger] b[i],
            ) by {
                assert(b[i] == s[i + h] && b[j] == s[j + h]);
            }
        }
        lemma_merge_sorted_of_ascending(a);
        lemma_merge_sorted_of_ascending(b);
        lemma_merged_of_ascending(a, b);
    }
}

/// Sorting a sequence adds one snapshot for each of its elements but one: as
/// many as there are merges.
pub proof fn lemma_merge_steps_len<T: PartialOrd>(s: Seq<T>)
    ensures
        merge_steps(s).len() == if s.len() == 0 {
            0
        } else {
            s.len() - 1
        },
    decreases s.len(),
{
    if s.len() > 1 {
        lemma_merge_steps_len(s.take(midpoint(s.len())));
        lemma_merge_steps_len(s.skip(midpoint(s.len())));
    }
}

/// Sorting an ascending sequence merges nothing out of place: each snapshot
/// shows a part of the sequence as it was.
pub proof fn lemma_merge_steps_of_ascending<T: PartialOrd>(s: Seq<T>)
    requires
        ascending(s),
    ensures
        forall|k: int| 0 <= k < merge_steps(s).len() ==> part_of(#[trigger] merge_steps(s)[k], s),
    decreases s.len(),
{
    if s.len() > 1 {
        let h = midpoint(s.len());
        let a = s.take(h);
        let b = s.skip(h);
        assert(ascending(a)) by {
            assert forall|i: int, j: int| 0 <= i < j < a.len() implies !lt(
                #[trigger] a[j],
                #[trigger] a[i],
            ) by {
                assert(a[i] == s[i] && a[j] == s[j]);
            }
        }
        assert(ascending(b)) by {
            assert forall|i: int, j: int| 0 <= i < j < b.len() implies !lt(
                #[trigger] b[j],
                #[trigger] b[i],
            ) by {
                assert(b[i] == s[i + h] && b[j] == s[j + h]);
            }
        }
        lemma_merge_steps_of_ascending(a);
        lemma_merge_steps_of_ascending(b);
        lemma_merge_sorted_of_ascending(s);
        let all = merge_steps(s);
        let x = merge_steps(a);
        let y = merge_steps(b);
        assert(all == x + y + seq![s]);
        assert forall|k: int| 0 <= k < all.len() implies part_of(#[trigger] all[k], s) by {
            if k < x.len() {
                assert(all[k] == x[k]);
                let (lo, hi) = choose|lo: int, hi: int|
                    0 <= lo <= hi <= a.len() && x[k] == #[trigger] a.subrange(lo, hi);
                assert(a.subrange(lo, hi) =~= s.subrange(lo, hi));
            } else if k < x.len() + y.len() {
                assert(all[k] == y[k - x.len()]);
                let (lo, hi) = choose|lo: int, hi: int|
                    0 <= lo <= hi <= b.len() && y[k - x.len()] == #[trigger] b.subrange(lo, hi);
                assert(b.subrange(lo, hi) =~= s.subrange(lo + h, hi + h));
            } else {
                assert(all[k] == s);
                assert(s =~= s.subrange(0, s.len() as int));
            }
        }
    }
}

/// Merges `left` and `right`, the front of `left` first where neither front
/// is below the other.
fn merge<T>(left: &Vec<T>, right: &Vec<T>) -> (out: Vec<T>) where
    T: PartialEq + PartialOrd + Clone + Copy,

    requires
        total_order::<T>(),
    ensures
        out@ == merged(left@, right@),
{
    let mut out: Vec<T> = Vec::new();
    let mut i: usize = 0;
    let mut j: usize = 0;
    proof {
        assert(left@.skip(0) =~= left@);
        assert(right@.skip(0) =~= right@);
        assert(out@ + merged(left@, right@) =~= merged(left@, right@));
    }
    while i < left.len() && j < right.len()
        invariant
            total_order::<T>(),
            i <= left.len(),
            j <= right.len(),
            out@ + merged(left@.skip(i as int), right@.skip(j as int)) == merged(left@, right@),
        decreases left.len() - i + right.len() - j,
    {
        let ghost l = left@.skip(i as int);
        let ghost r = right@.skip(j as int);
        if at_most(&left[i], &right[j]) {
            out.push(left[i]);
            i += 1;
            proof {
                assert(l.drop_first() =~= left@.skip(i as int));
                assert(merged(l, r) == seq![l[0]] + merged(l.drop_first(), r));
            }
        } else {
            out.push(right[j]);
            j += 1;
            proof {
                assert(r.drop_first() =~= right@.skip(j as int));
                assert(merged(l, r) == seq![r[0]] + merged(l, r.drop_first()));
            }
        }
    }
    while j < right.len()
        invariant
            i == left.len() || j == right.len(),
            i <= left.len(),
            j <= right.len(),
            i < left.len() ==> j == right.len(),
            out@ + merged(left@.skip(i as int), right@.skip(j as int)) == merged(left@, right@),
        decreases right.len() - j,
    {
        let ghost l = left@.skip(i as int);
        let ghost r = right@.skip(j as int);
        out.push(right[j]);
        j += 1;
        proof {
            assert(r.drop_first() =~= right@.skip(j as int));
            assert(l.len() == 0);
            assert(merged(l, r) == r);
            assert(merged(l, r.drop_first()) == r.drop_first());
            assert(seq![r[0]] + r.drop_first() =~= r);
        }
    }
    while i < left.len()
        invariant
            j == right.len(),
            i <= left.len(),
            out@ + merged(left@.skip(i as int), right@.skip(j as int)) == merged(left@, right@),
        decreases left.len() - i,
    {
        let ghost l = left@.skip(i as int);
        let ghost r = right@.skip(j as int);
        out.push(left[i]);
        i += 1;
        proof {
            assert(l.drop_first() =~= left@.skip(i as int));
            assert(r.len() == 0);
            assert(merged(l, r) == l);
            assert(seq![l[0]] + l.drop_first() =~= l);
        }
    }
    assert(out@ + merged(left@.skip(i as int), right@.skip(j as int)) =~= out@);
    out
}

/// What [`merge_rec`] makes of two halves: each sorted, then both merged.
pub open spec fn merge_of<T: PartialOrd>(first: Seq<T>, second: Seq<T>) -> Seq<T> {
    merged(merge_sorted(first), merge_sorted(second))
}

/// The snapshots that [`merge_rec_stepped`] adds for two halves.
pub open spec fn merge_steps_of<T: PartialOrd>(first: Seq<T>, second: Seq<T>) -> Seq<Seq<T>> {
    merge_steps(first) + merge_steps(second) + seq![merge_of(first, second)]
}

/// How far [`merge_rec`] is from its base case, beside the number of
/// elements: splitting a half keeps that number where the other half is empty,
/// but then leaves both parts non-empty.
pub open spec fn lone_half(first: nat, second: nat) -> nat {
    if first == 0 || second == 0 {
        1
    } else {
        0
    }
}

/// Sorts each of two halves, then merges them.
fn merge_rec<T>(first: Vec<T>, second: Vec<T>) -> (out: Vec<T>) where
    T: PartialEq + PartialOrd + Clone + Copy,

    requires
        total_order::<T>(),
    ensures
        out@ == merge_of(first@, second@),
    decreases first.len() + second.len(), lone_half(first@.len(), second@.len()),
{
    let left = if first.len() > 1 {
        let h = first.len() / 2;
        let a = copy_range(&first, 0, h);
        let b = copy_range(&first, h, first.len());
        assert(a@ == first@.take(midpoint(first@.len())));
        assert(b@ == first@.skip(midpoint(first@.len())));
        merge_rec(a, b)
    } else {
        first
    };
    let right = if second.len() > 1 {
        let h = second.len() / 2;
        let a = copy_range(&second, 0, h);
        let b = copy_range(&second, h, second.len());
        assert(a@ == second@.take(midpoint(second@.len())));
        assert(b@ == second@.skip(midpoint(second@.len())));
        merge_rec(a, b)
    } else {
        second
    };
    merge(&left, &right)
}

/// Sorts each of two halves, then merges them, and appends to `steps` a
/// snapshot of each merge on the way, this one last.
fn merge_rec_stepped<T>(first: Vec<T>, second: Vec<T>, steps: &mut Vec<Vec<T>>) -> (out: Vec<
    T,
>) where T: PartialEq + PartialOrd + Clone + Copy

    requires
        total_order::<T>(),
    ensures
        out@ == merge_of(first@, second@),
        history(*final(steps)) == history(*old(steps)) + merge_steps_of(first@, second@),
    decreases first.len() + second.len(), lone_half(first@.len(), second@.len()),
{
    let left = if first.len() > 1 {
        let h = first.len() / 2;
        let a = copy_range(&first, 0, h);
        let b = copy_range(&first, h, first.len());
        assert(a@ == first@.take(midpoint(first@.len())));
        assert(b@ == first@.skip(midpoint(first@.len())));
        merge_rec_stepped(a, b, steps)
    } else {
        first
    };
    let ghost mid = history(*steps);
    assert(mid =~= history(*old(steps)) + merge_steps(first@));
    let right = if second.len() > 1 {
        let h = second.len() / 2;
        let a = copy_range(&second, 0, h);
        let b = copy_range(&second, h, second.len());
        assert(a@ == second@.take(midpoint(second@.len())));
        assert(b@ == second@.skip(midpoint(second@.len())));
        merge_rec_stepped(a, b, steps)
    } else {
        second
    };
    assert(history(*steps) =~= mid + merge_steps(second@));
    let out = merge(&left, &right);
    record(steps, &out);
    assert(history(*steps) =~= history(*old(steps)) + merge_steps_of(first@, second@));
    out
}

/// Merge sort on the sequence that `self` holds.
pub trait MergeSort<T: PartialEq + PartialOrd + Clone + Copy>: View<V = Seq<T>> + Sized {
    /// Sorts `self`.
    fn merge_sort(&mut self)
        requires
            total_order::<T>(),
        ensures
            final(self)@ == merge_sorted(old(self)@),
            ascending(final(self)@),
            same_elements(final(self)@, old(self)@),
            ascending(old(self)@) ==> final(self)@ == old(self)@,
    ;

    /// Sorts `self` and returns the time it took.
    fn merge_sort_timed(&mut self) -> (elapsed: Duration)
        requires
            total_order::<T>(),
        ensures
            final(self)@ == merge_sorted(old(self)@),
            ascending(final(self)@),
            same_elements(final(self)@, old(self)@),
            ascending(old(self)@) ==> final(self)@ == old(self)@,
    ;

    /// Sorts `self` and returns the step trace: `self` as it was, then each
    /// merged part as its merge completes, the whole last.
    fn merge_sort_stepped(&mut self) -> (steps: Vec<Vec<T>>)
        requires
            total_order::<T>(),
        ensures
            final(self)@ == merge_sorted(old(self)@),
            ascending(final(self)@),
            same_elements(final(self)@, old(self)@),
            ascending(old(self)@) ==> final(self)@ == old(self)@,
            history(steps) == seq![old(self)@] + merge_steps(old(self)@),
            history(steps).last() == final(self)@,
            history(steps).len() == if old(self)@.len() == 0 {
                1
            } else {
                old(self)@.len()
            },
            ascending(old(self)@) ==> forall|k: int|
                0 <= k < history(steps).len() ==> part_of(#[trigger] history(steps)[k], old(self)@),
    ;

    /// Sorts `self` and returns the step trace and the time it took.
    fn merge_sort_stepped_and_timed(&mut self) -> (res: (Vec<Vec<T>>, Duration))
        requires
            total_order::<T>(),
        ensures
            final(self)@ == merge_sorted(old(self)@),
            ascending(final(self)@),
            same_elements(final(self)@, old(self)@),
            ascending(old(self)@) ==> final(self)@ == old(self)@,
            history(res.0) == seq![old(self)@] + merge_steps(old(self)@),
            history(res.0).last() == final(self)@,
            history(res.0).len() == if old(self)@.len() == 0 {
                1
            } else {
                old(self)@.len()
            },
            ascending(old(self)@) ==> forall|k: int|
                0 <= k < history(res.0).len() ==> part_of(#[trigger] history(res.0)[k], old(self)@),
    ;
}

impl<T> MergeSort<T> for Vec<T> where T: PartialEq + PartialOrd + Clone + Copy {
    fn merge_sort(&mut self) {
        proof {
            lemma_merge_sorted_sorts(self@);
            if ascending(self@) {
                lemma_merge_sorted_of_ascending(self@);
            }
        }
        if self.len() <= 1 {
            return ;
        }
        let h = self.len() / 2;
        let first = copy_range(self, 0, h);
        let second = copy_range(self, h, self.len());
        assert(first@ == self@.take(midpoint(self@.len())));
        assert(second@ == self@.skip(midpoint(self@.len())));
        *self = merge_rec(first, second);
    }

    fn merge_sort_timed(&mut self) -> (elapsed: Duration) {
        let time = Instant::now();
        self.merge_sort();
        time.elapsed()
    }

    fn merge_sort_stepped(&mut self) -> (steps: Vec<Vec<T>>) {
        proof {
            lemma_merge_sorted_sorts(self@);
            lemma_merge_steps_len(self@);
            if ascending(self@) {
                lemma_merge_sorted_of_ascending(self@);
                lemma_merge_steps_of_ascending(self@);
                let trace = seq![self@] + merge_steps(self@);
                assert forall|k: int| 0 <= k < trace.len() implies part_of(
                    #[trigger] trace[k],
                    self@,
                ) by {
                    if k == 0 {
                        assert(self@ =~= self@.subrange(0, self@.len() as int));
                    } else {
                        assert(trace[k] == merge_steps(self@)[k - 1]);
                    }
                }
            }
        }
        let mut steps = start_trace(self);
        if self.len() <= 1 {
            assert(history(steps) =~= seq![self@] + merge_steps(self@));
            return steps;
        }
        let h = self.len() / 2;
        let first = copy_range(self, 0, h);
        let second = copy_range(self, h, self.len());
        assert(first@ == self@.take(midpoint(self@.len())));
        assert(second@ == self@.skip(midpoint(self@.len())));
        *self = merge_rec_stepped(first, second, &mut steps);
        steps
    }

    fn merge_sort_stepped_and_timed(&mut self) -> (res: (Vec<Vec<T>>, Duration)) {
        let time = Instant::now();
        let steps = self.merge_sort_stepped();
        (steps, time.elapsed())
    }
}

/// Sorts `arr` by merge sort and returns it.
pub fn merge_sort<T>(arr: Vec<T>) -> (sorted: Vec<T>) where
    T: PartialEq + PartialOrd + Clone + Copy,

    requires
        total_order::<T>(),
    ensures
        sorted@ == merge_sorted(arr@),
        ascending(sorted@),
        same_elements(sorted@, arr@),
        ascending(arr@) ==> sorted@ == arr@,
{
    let mut arr = arr;
    MergeSort::merge_sort(&mut arr);
    arr
}

/// Sorts `arr` by merge sort and returns it with the time it took.
pub fn merge_sort_timed<T>(arr: Vec<T>) -> (res: (Vec<T>, Duration)) where
    T: PartialEq + PartialOrd + Clone + Copy,

    requires
        total_order::<T>(),
    ensures
        res.0@ == merge_sorted(arr@),
        ascending(res.0@),
        same_elements(res.0@, arr@),
        ascending(arr@) ==> res.0@ == arr@,
{
    let mut arr = arr;
    let elapsed = MergeSort::merge_sort_timed(&mut arr);
    (arr, elapsed)
}

/// Sorts `arr` by merge sort and returns it with the step trace: `arr` as it
/// was, then each merged part as its merge completes, the whole last.
pub fn merge_sort_stepped<T>(arr: Vec<T>) -> (res: (Vec<T>, Vec<Vec<T>>)) where
    T: PartialEq + PartialOrd + Clone + Copy,

    requires
        total_order::<T>(),
    ensures
        res.0@ == merge_sorted(arr@),
        ascending(res.0@),
        same_elements(res.0@, arr@),
        ascending(arr@) ==> res.0@ == arr@,
        history(res.1) == seq![arr@] + merge_steps(arr@),
        history(res.1).last() == res.0@,
        history(res.1).len() == if arr@.len() == 0 {
            1
        } else {
            arr@.len()
        },
        ascending(arr@) ==> forall|k: int|
            0 <= k < history(res.1).len() ==> part_of(#[trigger] history(res.1)[k], arr@),
{
    let mut arr = arr;
    let steps = MergeSort::merge_sort_stepped(&mut arr);
    (arr, steps)
}

/// Sorts `arr` by merge sort and returns it with the step trace and the time
/// it took.
pub fn merge_sort_stepped_and_timed<T>(arr: Vec<T>) -> (res: (
    Vec<T>,
    Vec<Vec<T>>,
    Duration,
)) where T: PartialEq + PartialOrd + Clone + Copy

    requires
        total_order::<T>(),
    ensures
        res.0@ == merge_sorted(arr@),
        ascending(res.0@),
        same_elements(res.0@, arr@),
        ascending(arr@) ==> res.0@ == arr@,
        history(res.1) == seq![arr@] + merge_steps(arr@),
        history(res.1).last() == res.0@,
        history(res.1).len() == if arr@.len() == 0 {
            1
        } else {
            arr@.len()
        },
        ascending(arr@) ==> forall|k: int|
            0 <= k < history(res.1).len() ==> part_of(#[trigger] history(res.1)[k], arr@),
{
    let mut arr = arr;
    let (steps, elapsed) = MergeSort::merge_sort_stepped_and_timed(&mut arr);
    (arr, steps, elapsed)
}

} // verus!
