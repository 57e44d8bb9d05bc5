//! Sorting by exchanging neighbours: the traces that such sorts leave, and the
//! state in which one element sinks through a prefix that is in order.

use vstd::prelude::*;
use crate::order::{lt, total_order, lemma_lt_asymmetric, lemma_not_lt_transitive};
use crate::sequence::{ascending, ascending_in, descent_at, exchanged};

verus! {

/// The first position at or after `from` whose element is strictly below its
/// predecessor; the length of `s` where there is none.
pub open spec fn first_descent<T: PartialOrd>(s: Seq<T>, from: int) -> int
    decreases s.len() - from,
{
    if from >= s.len() {
        s.len() as int
    } else if descent_at(s, from) {
        from
    } else {
        first_descent(s, from + 1)
    }
}

/// `s` with the element at `p` and its predecessor exchanged.
pub open spec fn exchange_at<T>(s: Seq<T>, p: int) -> Seq<T> {
    exchanged(s, p - 1, p)
}

/// Entry `k` of `trace` is its predecessor with the leftmost out-of-order
/// neighbours exchanged.
pub open spec fn leftmost_exchange_gave<T: PartialOrd>(trace: Seq<Seq<T>>, k: int) -> bool {
    let p = first_descent(trace[k - 1], 1);
    p < trace[k - 1].len() && trace[k] == exchange_at(trace[k - 1], p)
}

/// Each entry of `trace` after the first is its predecessor with the leftmost
/// out-of-order neighbours exchanged.
pub open spec fn leftmost_exchanges<T: PartialOrd>(trace: Seq<Seq<T>>) -> bool {
    forall|k: int| 0 < k < trace.len() ==> #[trigger] leftmost_exchange_gave(trace, k)
}

/// `output` is reached from `input` by exchanging the leftmost out-of-order
/// neighbours, again and again, and `trace` shows each state on the way.
pub open spec fn leftmost_exchange_run<T: PartialOrd>(
    trace: Seq<Seq<T>>,
    input: Seq<T>,
    output: Seq<T>,
) -> bool {
    &&& trace.len() >= 1
    &&& trace.first() == input
    &&& trace.last() == output
    &&& leftmost_exchanges(trace)
}

/// `output` is reached from `input` by exchanging the leftmost out-of-order
/// neighbours, again and again.
pub open spec fn by_leftmost_exchanges<T: PartialOrd>(input: Seq<T>, output: Seq<T>) -> bool {
    exists|trace: Seq<Seq<T>>| #[trigger] leftmost_exchange_run(trace, input, output)
}

/// The first descent from `from` on is at `p`, where there is one at `p` and
/// none between.
pub proof fn lemma_first_descent_is<T: PartialOrd>(s: Seq<T>, from: int, p: int)
    requires
        from <= p,
        descent_at(s, p),
        forall|k: int| from <= k < p ==> !descent_at(s, k),
    ensures
        first_descent(s, from) == p,
    decreases p - from,
{
    if from < p {
        lemma_first_descent_is(s, from + 1, p);
    }
}

/// There is no descent from `from` on exactly where `first_descent` finds
/// none.
pub proof fn lemma_first_descent_none<T: PartialOrd>(s: Seq<T>, from: int)
    requires
        0 <= from,
    ensures
        from <= first_descent(s, from) <= s.len() || from > s.len(),
        first_descent(s, from) < s.len() ==> descent_at(s, first_descent(s, from)),
        forall|k: int| from <= k < first_descent(s, from) ==> !descent_at(s, k),
    decreases s.len() - from,
{
    if from < s.len() && !descent_at(s, from) {
        lemma_first_descent_none(s, from + 1);
    }
}

/// In `s`, the positions below `f` are in order but for the element at `i`,
/// which is still sinking: it is not above any of those that follow it.
pub open spec fn sinking<T: PartialOrd>(s: Seq<T>, i: int, f: int) -> bool {
    &&& 0 <= i
    &&& 0 <= f <= s.len()
    &&& forall|p: int, q: int|
        0 <= p < q < f && p != i && q != i ==> !lt(#[trigger] s[q], #[trigger] s[p])
    &&& forall|q: int| i < q < f ==> !lt(#[trigger] s[q], s[i])
}

/// A sinking element that is below its predecessor marks the leftmost
/// descent, and exchanging the two leaves it sinking one position lower.
pub proof fn lemma_sink_step<T: PartialOrd>(s: Seq<T>, i: int, f: int)
    requires
        total_order::<T>(),
        sinking(s, i, f),
        0 < i < f,
        lt(s[i], s[i - 1]),
    ensures
        first_descent(s, 1) == i,
        sinking(exchange_at(s, i), i - 1, f),
        !ascending(s),
{
    let t = exchange_at(s, i);
    assert(descent_at(s, i));
    assert forall|k: int| 1 <= k < i implies !descent_at(s, k) by {
        assert(!lt(s[k], s[k - 1]));
    }
    lemma_first_descent_is(s, 1, i);
    lemma_lt_asymmetric(s[i], s[i - 1]);
    assert forall|p: int, q: int| 0 <= p < q < f && p != i - 1 && q != i - 1 implies !lt(
        #[trigger] t[q],
        #[trigger] t[p],
    ) by {
        if q == i {
            assert(t[q] == s[i - 1]);
            assert(t[p] == s[p]);
            assert(!lt(s[i - 1], s[p]));
        } else if p == i {
            assert(t[p] == s[i - 1]);
            assert(t[q] == s[q]);
            assert(!lt(s[q], s[i - 1]));
        } else {
            assert(t[q] == s[q] && t[p] == s[p]);
        }
    }
    assert forall|q: int| i - 1 < q < f implies !lt(#[trigger] t[q], t[i - 1]) by {
        assert(t[i - 1] == s[i]);
        if q == i {
            assert(t[q] == s[i - 1]);
        } else {
            assert(t[q] == s[q]);
        }
    }
}

/// A sinking element that has reached the front, or is not below its
/// predecessor, has come to rest: the positions below `f` are in order.
pub proof fn lemma_sink_rest<T: PartialOrd>(s: Seq<T>, i: int, f: int)
    requires
        total_order::<T>(),
        sinking(s, i, f),
        i == 0 || i >= f || !lt(s[i], s[i - 1]),
    ensures
        ascending_in(s, 0, f),
{
    assert forall|p: int, q: int| 0 <= p < q < f implies !lt(#[trigger] s[q], #[trigger] s[p]) by {
        if q == i {
            if p < i - 1 {
                assert(!lt(s[i - 1], s[p]));
                lemma_not_lt_transitive(s[p], s[i - 1], s[i]);
            }
        }
    }
}

/// Where the positions below `f` are in order, the element at `f` may start
/// to sink.
pub proof fn lemma_sink_start<T: PartialOrd>(s: Seq<T>, f: int)
    requires
        ascending_in(s, 0, f),
        0 <= f < s.len(),
    ensures
        sinking(s, f, f + 1),
{
}

/// A trace of leftmost exchanges stays one when the leftmost exchange of its
/// last entry is appended.
pub proof fn lemma_leftmost_exchanges_push<T: PartialOrd>(trace: Seq<Seq<T>>, next: Seq<T>)
    requires
        leftmost_exchanges(trace),
        trace.len() >= 1,
        first_descent(trace.last(), 1) < trace.last().len(),
        next == exchange_at(trace.last(), first_descent(trace.last(), 1)),
    ensures
        leftmost_exchanges(trace.push(next)),
{
    let longer = trace.push(next);
    assert forall|k: int| 0 < k < longer.len() implies #[trigger] leftmost_exchange_gave(
        longer,
        k,
    ) by {
        assert(longer[k - 1] == trace[k - 1]);
        if k < trace.len() {
            assert(longer[k] == trace[k]);
            assert(leftmost_exchange_gave(trace, k));
        }
    }
}

/// A trace of leftmost exchanges that starts from an ascending sequence has
/// that sequence as its only entry.
pub proof fn lemma_leftmost_exchanges_of_ascending<T: PartialOrd>(trace: Seq<Seq<T>>)
    requires
        leftmost_exchanges(trace),
        trace.len() >= 1,
        ascending(trace[0]),
    ensures
        trace.len() == 1,
{
    if trace.len() > 1 {
        let p = first_descent(trace[0], 1);
        assert(leftmost_exchange_gave(trace, 1));
        lemma_first_descent_none(trace[0], 1);
        assert(descent_at(trace[0], p));
        assert(!lt(trace[0][p], trace[0][p - 1]));
    }
}

/// Where a pass from left to right exchanges next, after an exchange at
/// `last`: at the first descent beyond `last`, or, where the rest of the pass
/// meets none, at the first descent of the next pass.
pub open spec fn next_exchange<T: PartialOrd>(s: Seq<T>, last: int) -> int {
    if first_descent(s, last + 1) < s.len() {
        first_descent(s, last + 1)
    } else {
        first_descent(s, 1)
    }
}

/// The position of the exchange that gave entry `k` of `trace`, when the
/// exchanges are made in passes from left to right; 0 for the first entry,
/// which no exchange gave.
pub open spec fn pass_position<T: PartialOrd>(trace: Seq<Seq<T>>, k: int) -> int
    decreases k,
{
    if k <= 0 {
        0
    } else {
        next_exchange(trace[k - 1], pass_position(trace, k - 1))
    }
}

/// Entry `k` of `trace` is its predecessor with two out-of-order neighbours
/// exchanged, those that passes from left to right meet next.
pub open spec fn pass_exchange_gave<T: PartialOrd>(trace: Seq<Seq<T>>, k: int) -> bool {
    let p = pass_position(trace, k);
    p < trace[k - 1].len() && trace[k] == exchange_at(trace[k - 1], p)
}

/// Each entry of `trace` after the first is its predecessor with two
/// out-of-order neighbours exchanged, those that passes from left to right
/// meet next.
pub open spec fn pass_exchanges<T: PartialOrd>(trace: Seq<Seq<T>>) -> bool {
    forall|k: int| 0 < k < trace.len() ==> #[trigger] pass_exchange_gave(trace, k)
}

/// `output` is reached from `input` by exchanging out-of-order neighbours in
/// passes from left to right, and `trace` shows each state on the way.
pub open spec fn pass_exchange_run<T: PartialOrd>(
    trace: Seq<Seq<T>>,
    input: Seq<T>,
    output: Seq<T>,
) -> bool {
    &&& trace.len() >= 1
    &&& trace.first() == input
    &&& trace.last() == output
    &&& pass_exchanges(trace)
}

/// `output` is reached from `input` by exchanging out-of-order neighbours in
/// passes from left to right.
pub open spec fn by_pass_exchanges<T: PartialOrd>(input: Seq<T>, output: Seq<T>) -> bool {
    exists|trace: Seq<Seq<T>>| #[trigger] pass_exchange_run(trace, input, output)
}

/// The positions of the exchanges that gave the entries of a trace do not
/// depend on what is appended to it.
pub proof fn lemma_pass_position_push<T: PartialOrd>(trace: Seq<Seq<T>>, next: Seq<T>, k: int)
    requires
        k <= trace.len(),
    ensures
        pass_position(trace.push(next), k) == pass_position(trace, k),
    decreases k,
{
    if k > 0 {
        lemma_pass_position_push(trace, next, k - 1);
        assert(trace.push(next)[k - 1] == trace[k - 1]);
    }
}

/// A trace of exchanges in passes stays one when the next exchange of its
/// last entry is appended.
pub proof fn lemma_pass_exchanges_push<T: PartialOrd>(trace: Seq<Seq<T>>, next: Seq<T>)
    requires
        pass_exchanges(trace),
        trace.len() >= 1,
        next_exchange(trace.last(), pass_position(trace, trace.len() - 1)) < trace.last().len(),
        next == exchange_at(
            trace.last(),
            next_exchange(trace.last(), pass_position(trace, trace.len() - 1)),
        ),
    ensures
        pass_exchanges(trace.push(next)),
        pass_position(trace.push(next), trace.len() as int) == next_exchange(
            trace.last(),
            pass_position(trace, trace.len() - 1),
        ),
{
    let longer = trace.push(next);
    lemma_pass_position_push(trace, next, trace.len() - 1);
    assert(longer[trace.len() - 1] == trace.last());
    assert forall|k: int| 0 < k < longer.len() implies #[trigger] pass_exchange_gave(longer, k) by {
        assert(longer[k - 1] == trace[k - 1]);
        lemma_pass_position_push(trace, next, k - 1);
        if k < trace.len() {
            assert(longer[k] == trace[k]);
            lemma_pass_position_push(trace, next, k);
            assert(pass_exchange_gave(trace, k));
        }
    }
}

/// A trace of exchanges in passes that starts from an ascending sequence has
/// that sequence as its only entry.
pub proof fn lemma_pass_exchanges_of_ascending<T: PartialOrd>(trace: Seq<Seq<T>>)
    requires
        pass_exchanges(trace),
        trace.len() >= 1,
        ascending(trace[0]),
    ensures
        trace.len() == 1,
{
    if trace.len() > 1 {
        let p = pass_position(trace, 1);
        assert(pass_exchange_gave(trace, 1));
        assert(pass_position(trace, 0) == 0);
        assert(p == first_descent(trace[0], 1));
        lemma_first_descent_none(trace[0], 1);
        assert(descent_at(trace[0], p));
        assert(!lt(trace[0][p], trace[0][p - 1]));
    }
}

/// Where there is no descent beyond `last`, the next exchange is at the
/// leftmost descent; where the first descent beyond `last` is at `p`, it is
/// at `p`.
pub proof fn lemma_next_exchange_is<T: PartialOrd>(s: Seq<T>, last: int, p: int, wrapped: bool)
    requires
        0 <= last,
        descent_at(s, p),
        !wrapped ==> last < p && forall|k: int| last < k < p ==> !descent_at(s, k),
        wrapped ==> forall|k: int| last < k < s.len() ==> !descent_at(s, k),
        wrapped ==> forall|k: int| 1 <= k < p ==> !descent_at(s, k),
    ensures
        next_exchange(s, last) == p,
{
    if wrapped {
        lemma_first_descent_none(s, last + 1);
        if first_descent(s, last + 1) < s.len() {
            assert(descent_at(s, first_descent(s, last + 1)));
        }
        lemma_first_descent_is(s, 1, p);
    } else {
        lemma_first_descent_is(s, last + 1, p);
    }
}

} // verus!
