//! What it means for a sequence to be in order and to hold the same elements
//! as another, with the facts about both that the algorithms share.

use vstd::prelude::*;
use vstd::seq_lib::*;
use crate::order::{lt, total_order, lemma_not_lt_transitive};

verus! {

/// No element of `s` is strictly below an earlier one.
pub open spec fn ascending<T: PartialOrd>(s: Seq<T>) -> bool {
    forall|i: int, j: int| 0 <= i < j < s.len() ==> !lt(#[trigger] s[j], #[trigger] s[i])
}

/// [`ascending`], of the positions from `lo` up to and excluding `hi`.
pub open spec fn ascending_in<T: PartialOrd>(s: Seq<T>, lo: int, hi: int) -> bool {
    forall|i: int, j: int| lo <= i < j < hi ==> !lt(#[trigger] s[j], #[trigger] s[i])
}

/// The element at `k` is strictly below its predecessor.
pub open spec fn descent_at<T: PartialOrd>(s: Seq<T>, k: int) -> bool {
    0 < k < s.len() && lt(s[k], s[k - 1])
}

/// No element of `s` is strictly below its predecessor.
pub open spec fn no_descent<T: PartialOrd>(s: Seq<T>) -> bool {
    forall|k: int| !#[trigger] descent_at(s, k)
}

/// `a` and `b` hold the same elements, each as often as the other.
pub open spec fn same_elements<T>(a: Seq<T>, b: Seq<T>) -> bool {
    a.to_multiset() == b.to_multiset()
}

/// `s` with the elements at `i` and `j` exchanged.
pub open spec fn exchanged<T>(s: Seq<T>, i: int, j: int) -> Seq<T> {
    s.update(i, s[j]).update(j, s[i])
}

/// Two sequences with the same elements have the same length.
pub proof fn lemma_same_elements_len<T>(a: Seq<T>, b: Seq<T>)
    requires
        same_elements(a, b),
    ensures
        a.len() == b.len(),
{
    to_multiset_len(a);
    to_multiset_len(b);
}

/// Each element of a sequence occurs, at some position, in every sequence
/// with the same elements.
pub proof fn lemma_same_elements_position<T>(a: Seq<T>, b: Seq<T>, i: int) -> (j: int)
    requires
        same_elements(a, b),
        0 <= i < a.len(),
    ensures
        0 <= j < b.len(),
        b[j] == a[i],
{
    to_multiset_contains(a, a[i]);
    to_multiset_contains(b, a[i]);
    assert(a.contains(a[i]));
    b.index_of(a[i])
}

/// Exchanging two elements keeps the elements.
pub proof fn lemma_exchanged_same_elements<T>(s: Seq<T>, i: int, j: int)
    requires
        0 <= i < s.len(),
        0 <= j < s.len(),
    ensures
        same_elements(exchanged(s, i, j), s),
        exchanged(s, i, j).len() == s.len(),
{
    broadcast use vstd::multiset::group_multiset_axioms;

    let mid = s.update(i, s[j]);
    to_multiset_update(s, i, s[j]);
    to_multiset_update(mid, j, s[i]);
    to_multiset_contains(s, s[i]);
    to_multiset_contains(s, s[j]);
    assert(s.contains(s[i]));
    assert(s.contains(s[j]));
    assert(exchanged(s, i, j).to_multiset() =~= s.to_multiset());
}

/// A sequence splits into what lies before `lo`, from `lo` to `hi`, and from
/// `hi` on; its elements are those of the three parts together.
pub proof fn lemma_split_three<T>(s: Seq<T>, lo: int, hi: int)
    requires
        0 <= lo <= hi <= s.len(),
    ensures
        s.to_multiset() == s.subrange(0, lo).to_multiset().add(
            s.subrange(lo, hi).to_multiset(),
        ).add(s.subrange(hi, s.len() as int).to_multiset()),
{
    let a = s.subrange(0, lo);
    let b = s.subrange(lo, hi);
    let c = s.subrange(hi, s.len() as int);
    assert(s == (a + b) + c);
    lemma_multiset_commutative(a + b, c);
    lemma_multiset_commutative(a, b);
}

/// Rearranging the positions from `lo` to `hi` of a sequence, and nothing
/// else, keeps the elements of the whole.
pub proof fn lemma_same_elements_in_range<T>(a: Seq<T>, b: Seq<T>, lo: int, hi: int)
    requires
        0 <= lo <= hi <= a.len(),
        a.len() == b.len(),
        same_elements(a.subrange(lo, hi), b.subrange(lo, hi)),
        a.subrange(0, lo) == b.subrange(0, lo),
        a.subrange(hi, a.len() as int) == b.subrange(hi, b.len() as int),
    ensures
        same_elements(a, b),
{
    lemma_split_three(a, lo, hi);
    lemma_split_three(b, lo, hi);
}

/// `part` is a run of consecutive elements of `s`.
pub open spec fn part_of<T>(part: Seq<T>, s: Seq<T>) -> bool {
    exists|lo: int, hi: int| 0 <= lo <= hi <= s.len() && part == #[trigger] s.subrange(lo, hi)
}

/// `a` and `b` differ at most in the order of the elements at the positions
/// from `lo` up to and excluding `hi`.
pub open spec fn rearranged_in<T>(a: Seq<T>, b: Seq<T>, lo: int, hi: int) -> bool {
    &&& a.len() == b.len()
    &&& same_elements(a.subrange(lo, hi), b.subrange(lo, hi))
    &&& forall|k: int| 0 <= k < a.len() && !(lo <= k < hi) ==> a[k] == b[k]
}

/// What is rearranged within a range is rearranged within every range that
/// holds it.
pub proof fn lemma_rearranged_widen<T>(a: Seq<T>, b: Seq<T>, lo: int, hi: int, lo2: int, hi2: int)
    requires
        0 <= lo2 <= lo <= hi <= hi2 <= a.len(),
        rearranged_in(a, b, lo, hi),
    ensures
        rearranged_in(a, b, lo2, hi2),
{
    let x = a.subrange(lo2, hi2);
    let y = b.subrange(lo2, hi2);
    assert(x.subrange(lo - lo2, hi - lo2) =~= a.subrange(lo, hi));
    assert(y.subrange(lo - lo2, hi - lo2) =~= b.subrange(lo, hi));
    assert(x.subrange(0, lo - lo2) =~= y.subrange(0, lo - lo2));
    assert(x.subrange(hi - lo2, x.len() as int) =~= y.subrange(hi - lo2, y.len() as int));
    lemma_same_elements_in_range(x, y, lo - lo2, hi - lo2);
}

/// What is rearranged within a range holds the same elements as before.
pub proof fn lemma_rearranged_same_elements<T>(a: Seq<T>, b: Seq<T>, lo: int, hi: int)
    requires
        0 <= lo <= hi <= a.len(),
        rearranged_in(a, b, lo, hi),
    ensures
        same_elements(a, b),
{
    lemma_rearranged_widen(a, b, lo, hi, 0, a.len() as int);
    assert(a.subrange(0, a.len() as int) =~= a);
    assert(b.subrange(0, b.len() as int) =~= b);
}

/// Each element of a rearranged range comes from a position of that range.
pub proof fn lemma_rearranged_position<T>(a: Seq<T>, b: Seq<T>, lo: int, hi: int, k: int) -> (from:
    int)
    requires
        0 <= lo <= k < hi <= a.len(),
        rearranged_in(a, b, lo, hi),
    ensures
        lo <= from < hi,
        b[from] == a[k],
{
    let x = a.subrange(lo, hi);
    let y = b.subrange(lo, hi);
    assert(x[k - lo] == a[k]);
    let at = lemma_same_elements_position(x, y, k - lo);
    assert(y[at] == b[at + lo]);
    at + lo
}

/// Exchanging two elements of a range rearranges that range.
pub proof fn lemma_exchanged_rearranged<T>(s: Seq<T>, p: int, q: int, lo: int, hi: int)
    requires
        0 <= lo <= p < hi <= s.len(),
        lo <= q < hi,
    ensures
        rearranged_in(exchanged(s, p, q), s, lo, hi),
{
    let part = s.subrange(lo, hi);
    lemma_exchanged_same_elements(part, p - lo, q - lo);
    assert(exchanged(s, p, q).subrange(lo, hi) =~= exchanged(part, p - lo, q - lo));
}

/// Under a total order a sequence without a descent is ascending.
pub proof fn lemma_no_descent_ascending<T: PartialOrd>(s: Seq<T>)
    requires
        total_order::<T>(),
        no_descent(s),
    ensures
        ascending(s),
{
    assert forall|i: int, j: int| 0 <= i < j < s.len() implies !lt(
        #[trigger] s[j],
        #[trigger] s[i],
    ) by {
        lemma_no_descent_pair(s, i, j);
    }
}

/// Under a total order, in a sequence without a descent no element is
/// strictly below an earlier one.
pub proof fn lemma_no_descent_pair<T: PartialOrd>(s: Seq<T>, i: int, j: int)
    requires
        total_order::<T>(),
        no_descent(s),
        0 <= i < j < s.len(),
    ensures
        !lt(s[j], s[i]),
    decreases j - i,
{
    assert(!descent_at(s, j));
    if i + 1 < j {
        lemma_no_descent_pair(s, i, j - 1);
        lemma_not_lt_transitive(s[i], s[j - 1], s[j]);
    }
}

/// Exchanges the elements at `i` and `j`.
pub fn swap_at<T: Copy>(arr: &mut Vec<T>, i: usize, j: usize)
    requires
        i < old(arr).len(),
        j < old(arr).len(),
    ensures
        final(arr)@ == exchanged(old(arr)@, i as int, j as int),
        final(arr).len() == old(arr).len(),
{
    let a = arr[i];
    let b = arr[j];
    arr[i] = b;
    arr[j] = a;
}

/// A copy of the elements of `arr` from `lo` up to and excluding `hi`.
pub fn copy_range<T: Copy>(arr: &Vec<T>, lo: usize, hi: usize) -> (res: Vec<T>)
    requires
        lo <= hi <= arr.len(),
    ensures
        res@ == arr@.subrange(lo as int, hi as int),
{
    let mut res: Vec<T> = Vec::new();
    let mut k: usize = lo;
    while k < hi
        invariant
            lo <= k <= hi <= arr.len(),
            res@ == arr@.subrange(lo as int, k as int),
        decreases hi - k,
    {
        res.push(arr[k]);
        k += 1;
        assert(res@ == arr@.subrange(lo as int, k as int));
    }
    res
}

/// A copy of `arr`, element by element.
pub fn snapshot<T: Copy>(arr: &Vec<T>) -> (res: Vec<T>)
    ensures
        res@ == arr@,
{
    let res = copy_range(arr, 0, arr.len());
    assert(arr@.subrange(0, arr.len() as int) == arr@);
    res
}

/// The snapshots of a step trace, each as the sequence it holds.
pub open spec fn history<T>(steps: Vec<Vec<T>>) -> Seq<Seq<T>> {
    Seq::new(steps@.len(), |k: int| steps@[k]@)
}

/// Appends a snapshot of `arr` to `steps`.
pub fn record<T: Copy>(steps: &mut Vec<Vec<T>>, arr: &Vec<T>)
    ensures
        history(*final(steps)) == history(*old(steps)).push(arr@),
{
    let copy = snapshot(arr);
    steps.push(copy);
    assert(history(*steps) =~= history(*old(steps)).push(arr@));
}

/// A step trace that holds `arr` as it stands and nothing else.
pub fn start_trace<T: Copy>(arr: &Vec<T>) -> (steps: Vec<Vec<T>>)
    ensures
        history(steps) == seq![arr@],
{
    let mut steps: Vec<Vec<T>> = Vec::new();
    record(&mut steps, arr);
    assert(history(steps) =~= seq![arr@]);
    steps
}

} // verus!
