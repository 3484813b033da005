//! The lottery by which the next question is drawn.
//!
//! Every question holds as many tickets as its priority says. The tickets
//! are numbered from 0 in the order of the list, so the question at `i`
//! holds the numbers from `weight_before(qs, i)` up to, and not including,
//! `weight_before(qs, i + 1)`. A draw is one ticket number.

use vstd::prelude::*;
use vstd::set_lib::*;
use crate::question::QuestionView;

verus! {

/// The sum of the priorities of the first `n` questions of `qs`.
pub open spec fn weight_before(qs: Seq<QuestionView>, n: int) -> nat
    decreases n,
{
    if n <= 0 {
        0
    } else {
        weight_before(qs, n - 1) + qs[n - 1].priority
    }
}

/// The sum of the priorities of all questions of `qs`.
pub open spec fn total_weight(qs: Seq<QuestionView>) -> nat {
    weight_before(qs, qs.len() as int)
}

/// Whether the ticket `r` belongs to the question at `i`.
pub open spec fn wins(qs: Seq<QuestionView>, r: nat, i: int) -> bool {
    &&& 0 <= i < qs.len()
    &&& weight_before(qs, i) <= r < weight_before(qs, i + 1)
}

/// The place of the question that holds the ticket `r`. It is meaningful
/// where `r < total_weight(qs)`.
pub open spec fn winner(qs: Seq<QuestionView>, r: nat) -> int {
    choose|i: int| wins(qs, r, i)
}

/// The tickets that the question at `i` holds.
pub open spec fn tickets(qs: Seq<QuestionView>, i: int) -> Set<int> {
    Set::new(|r: int| r >= 0 && wins(qs, r as nat, i))
}

/// Whether every priority in `qs` lies between `lo` and `hi`.
pub open spec fn priorities_within(qs: Seq<QuestionView>, lo: nat, hi: nat) -> bool {
    forall|i: int| 0 <= i < qs.len() ==> lo <= (#[trigger] qs[i]).priority <= hi
}

/// A question within the bounds, put into a list, leaves the priorities
/// within the bounds.
pub proof fn lemma_within_after_insert(
    qs: Seq<QuestionView>,
    at: int,
    q: QuestionView,
    lo: nat,
    hi: nat,
)
    requires
        0 <= at <= qs.len(),
        priorities_within(qs, lo, hi),
        lo <= q.priority <= hi,
    ensures
        priorities_within(qs.insert(at, q), lo, hi),
{
    let after = qs.insert(at, q);
    assert forall|i: int| 0 <= i < after.len() implies lo <= (#[trigger] after[i]).priority
        <= hi by {
        if i < at {
            assert(after[i] == qs[i]);
        } else if i > at {
            assert(after[i] == qs[i - 1]);
        }
    }
}

/// A question taken out of a list leaves the priorities within their
/// bounds.
pub proof fn lemma_within_after_remove(qs: Seq<QuestionView>, at: int, lo: nat, hi: nat)
    requires
        0 <= at < qs.len(),
        priorities_within(qs, lo, hi),
    ensures
        priorities_within(qs.remove(at), lo, hi),
{
    let after = qs.remove(at);
    assert forall|i: int| 0 <= i < after.len() implies lo <= (#[trigger] after[i]).priority
        <= hi by {
        if i < at {
            assert(after[i] == qs[i]);
        } else {
            assert(after[i] == qs[i + 1]);
        }
    }
}

/// The weight before a place does not shrink as the place moves on.
pub proof fn lemma_weight_grows(qs: Seq<QuestionView>, i: int, j: int)
    requires
        i <= j,
    ensures
        weight_before(qs, i) <= weight_before(qs, j),
    decreases j - i,
{
    if i < j {
        lemma_weight_grows(qs, i, j - 1);
    }
}

/// Two lists that agree on their first `n` questions weigh the same there.
pub proof fn lemma_weight_of_equal_starts(a: Seq<QuestionView>, b: Seq<QuestionView>, n: int)
    requires
        forall|i: int| 0 <= i < n ==> a[i] == b[i],
    ensures
        weight_before(a, n) == weight_before(b, n),
    decreases n,
{
    if n > 0 {
        lemma_weight_of_equal_starts(a, b, n - 1);
    }
}

/// Where `b` holds from `from` on what `a` holds from `from + shift` on,
/// the weight that `b` gains over a stretch is the weight that `a` gains
/// over the shifted stretch.
proof fn lemma_weight_of_shifted_ends(
    a: Seq<QuestionView>,
    b: Seq<QuestionView>,
    shift: int,
    from: int,
    n: int,
)
    requires
        0 <= from <= n,
        0 <= from + shift,
        forall|i: int| from <= i < n ==> #[trigger] b[i] == a[i + shift],
    ensures
        weight_before(b, n) - weight_before(b, from) == weight_before(a, n + shift)
            - weight_before(a, from + shift),
    decreases n - from,
{
    if from < n {
        lemma_weight_of_shifted_ends(a, b, shift, from, n - 1);
    }
}

/// A question put into a list adds its priority to the total.
pub proof fn lemma_weight_after_insert(qs: Seq<QuestionView>, at: int, q: QuestionView)
    requires
        0 <= at <= qs.len(),
    ensures
        total_weight(qs.insert(at, q)) == total_weight(qs) + q.priority,
        weight_before(qs.insert(at, q), at) == weight_before(qs, at),
{
    let after = qs.insert(at, q);
    lemma_weight_of_equal_starts(qs, after, at);
    lemma_weight_of_shifted_ends(qs, after, -1, at + 1, after.len() as int);
}

/// A question taken out of a list takes its priority off the total.
pub proof fn lemma_weight_after_remove(qs: Seq<QuestionView>, at: int)
    requires
        0 <= at < qs.len(),
    ensures
        total_weight(qs.remove(at)) == total_weight(qs) - qs[at].priority,
{
    let after = qs.remove(at);
    lemma_weight_of_equal_starts(qs, after, at);
    lemma_weight_of_shifted_ends(qs, after, 1, at, after.len() as int);
}

/// Bounds on the priorities bound the weight.
pub proof fn lemma_weight_bounds(qs: Seq<QuestionView>, lo: nat, hi: nat, n: int)
    requires
        0 <= n <= qs.len(),
        priorities_within(qs, lo, hi),
    ensures
        n * lo <= weight_before(qs, n) <= n * hi,
    decreases n,
{
    if n > 0 {
        lemma_weight_bounds(qs, lo, hi, n - 1);
        assert(n * lo == (n - 1) * lo + lo) by (nonlinear_arith);
        assert(n * hi == (n - 1) * hi + hi) by (nonlinear_arith);
    }
}

/// A list in which every priority is `p` weighs `p` per question.
pub proof fn lemma_weight_of_equal_priorities(qs: Seq<QuestionView>, p: nat)
    requires
        priorities_within(qs, p, p),
    ensures
        total_weight(qs) == qs.len() * p,
{
    lemma_weight_bounds(qs, p, p, qs.len() as int);
}

/// No ticket belongs to two questions.
pub proof fn lemma_one_winner(qs: Seq<QuestionView>, r: nat, i: int, j: int)
    requires
        wins(qs, r, i),
        wins(qs, r, j),
    ensures
        i == j,
{
    if i < j {
        lemma_weight_grows(qs, i + 1, j);
    } else if j < i {
        lemma_weight_grows(qs, j + 1, i);
    }
}

/// Every ticket below the total belongs to a question.
proof fn lemma_some_winner(qs: Seq<QuestionView>, r: nat, n: int) -> (i: int)
    requires
        0 <= n <= qs.len(),
        r < weight_before(qs, n),
    ensures
        wins(qs, r, i),
        i < n,
    decreases n,
{
    if weight_before(qs, n - 1) <= r {
        n - 1
    } else {
        lemma_some_winner(qs, r, n - 1)
    }
}

/// A draw below the total has a winner, and only one: whatever place
/// holds the ticket is `winner(qs, r)`.
pub proof fn lemma_winner(qs: Seq<QuestionView>, r: nat)
    requires
        r < total_weight(qs),
    ensures
        wins(qs, r, winner(qs, r)),
        forall|i: int| wins(qs, r, i) ==> i == winner(qs, r),
{
    let i = lemma_some_winner(qs, r, qs.len() as int);
    assert forall|j: int| wins(qs, r, j) implies j == winner(qs, r) by {
        lemma_one_winner(qs, r, j, winner(qs, r));
    }
}

/// A draw at or beyond the total has no winner.
pub proof fn lemma_no_winner(qs: Seq<QuestionView>, r: nat, i: int)
    requires
        r >= total_weight(qs),
    ensures
        !wins(qs, r, i),
{
    if 0 <= i < qs.len() {
        lemma_weight_grows(qs, i + 1, qs.len() as int);
    }
}

/// The weighted lottery: of the `total_weight(qs)` tickets, the question
/// at `i` holds exactly as many as its priority. Under a uniform draw its
/// chance is therefore its priority over the total.
pub proof fn lemma_tickets_match_priority(qs: Seq<QuestionView>, i: int)
    requires
        0 <= i < qs.len(),
    ensures
        tickets(qs, i).finite(),
        tickets(qs, i).len() == qs[i].priority,
        forall|r: int| tickets(qs, i).contains(r) ==> 0 <= r < total_weight(qs),
{
    let lo = weight_before(qs, i) as int;
    let hi = weight_before(qs, i + 1) as int;
    assert(tickets(qs, i) =~= set_int_range(lo, hi));
    lemma_int_range(lo, hi);
    lemma_weight_grows(qs, i + 1, qs.len() as int);
}

} // verus!
