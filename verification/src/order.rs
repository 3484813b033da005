//! The order in which a list keeps its questions: by priority, highest
//! first, and among equal priorities the one that came first stays first.

use vstd::prelude::*;
use vstd::seq_lib::*;
use crate::lottery::{lemma_weight_after_insert, lemma_weight_of_equal_starts, total_weight};
use crate::question::QuestionView;

verus! {

/// Whether no question of `qs` stands before one of higher priority.
pub open spec fn descending(qs: Seq<QuestionView>) -> bool {
    forall|i: int, j: int| 0 <= i < j < qs.len() ==> qs[i].priority >= qs[j].priority
}

/// How many questions of `qs` have a priority of at least `p`. In a
/// descending list these are the first ones, so this is the place where a
/// newcomer of priority `p` goes: behind them, before all others.
pub open spec fn place_for(qs: Seq<QuestionView>, p: nat) -> int
    decreases qs.len(),
{
    if qs.len() == 0 {
        0
    } else if qs.last().priority >= p {
        place_for(qs.drop_last(), p) + 1
    } else {
        place_for(qs.drop_last(), p)
    }
}

/// `qs` with `q` put in at its place.
pub open spec fn with_newcomer(qs: Seq<QuestionView>, q: QuestionView) -> Seq<QuestionView> {
    qs.insert(place_for(qs, q.priority), q)
}

/// The questions of `qs` put one after the other, from the first on, into
/// a list that was empty: `qs` in descending order, with questions of
/// equal priority in the order they had.
pub open spec fn arranged(qs: Seq<QuestionView>) -> Seq<QuestionView>
    decreases qs.len(),
{
    if qs.len() == 0 {
        Seq::empty()
    } else {
        with_newcomer(arranged(qs.drop_last()), qs.last())
    }
}

/// Whether `at` parts `qs` into the questions of priority at least `p`,
/// before it, and those of lower priority, from it on.
pub open spec fn parts_at(qs: Seq<QuestionView>, p: nat, at: int) -> bool {
    &&& 0 <= at <= qs.len()
    &&& forall|i: int| 0 <= i < at ==> (#[trigger] qs[i]).priority >= p
    &&& forall|i: int| at <= i < qs.len() ==> (#[trigger] qs[i]).priority < p
}

/// The place for a newcomer is a place of the list, or the one behind its
/// last question.
pub proof fn lemma_place_in_range(qs: Seq<QuestionView>, p: nat)
    ensures
        0 <= place_for(qs, p) <= qs.len(),
    decreases qs.len(),
{
    if qs.len() > 0 {
        lemma_place_in_range(qs.drop_last(), p);
    }
}

/// A place that parts the list is the place for the newcomer.
pub proof fn lemma_parting_place(qs: Seq<QuestionView>, p: nat, at: int)
    requires
        parts_at(qs, p, at),
    ensures
        place_for(qs, p) == at,
    decreases qs.len(),
{
    if qs.len() > 0 {
        let front = qs.drop_last();
        if at == qs.len() {
            lemma_parting_place(front, p, at - 1);
        } else {
            lemma_parting_place(front, p, at);
        }
    }
}

/// In a descending list the place for a newcomer parts the list.
pub proof fn lemma_place_parts(qs: Seq<QuestionView>, p: nat)
    requires
        descending(qs),
    ensures
        parts_at(qs, p, place_for(qs, p)),
    decreases qs.len(),
{
    if qs.len() > 0 {
        let front = qs.drop_last();
        lemma_place_parts(front, p);
        let at = place_for(front, p);
        if qs.last().priority < p {
            assert forall|i: int| 0 <= i < at implies (#[trigger] qs[i]).priority >= p by {
                assert(front[i] == qs[i]);
            }
            assert forall|i: int| at <= i < qs.len() implies (#[trigger] qs[i]).priority < p by {
                if i < front.len() {
                    assert(front[i] == qs[i]);
                }
            }
        }
    }
}

/// A newcomer leaves a descending list descending.
pub proof fn lemma_newcomer_keeps_order(qs: Seq<QuestionView>, q: QuestionView)
    requires
        descending(qs),
    ensures
        descending(with_newcomer(qs, q)),
{
    lemma_place_parts(qs, q.priority);
}

/// A question taken out leaves a descending list descending.
pub proof fn lemma_leaver_keeps_order(qs: Seq<QuestionView>, at: int)
    requires
        descending(qs),
        0 <= at < qs.len(),
    ensures
        descending(qs.remove(at)),
{
}

/// Arranging keeps every question, as often as it was there, and so the
/// number of questions and their total weight; what comes out is
/// descending.
pub proof fn lemma_arranged(qs: Seq<QuestionView>)
    ensures
        descending(arranged(qs)),
        arranged(qs).to_multiset() == qs.to_multiset(),
        arranged(qs).len() == qs.len(),
        total_weight(arranged(qs)) == total_weight(qs),
    decreases qs.len(),
{
    if qs.len() == 0 {
        assert(qs =~= Seq::empty());
    } else {
        let front = qs.drop_last();
        let sorted_front = arranged(front);
        lemma_arranged(front);
        lemma_place_in_range(sorted_front, qs.last().priority);
        lemma_newcomer_keeps_order(sorted_front, qs.last());
        let at = place_for(sorted_front, qs.last().priority);
        to_multiset_insert(sorted_front, at, qs.last());
        to_multiset_build(front, qs.last());
        assert(front.push(qs.last()) =~= qs);
        lemma_weight_after_insert(sorted_front, at, qs.last());
        lemma_weight_of_equal_starts(front, qs, front.len() as int);
    }
}

/// Arranging a descending list changes nothing.
pub proof fn lemma_arranged_of_descending(qs: Seq<QuestionView>)
    requires
        descending(qs),
    ensures
        arranged(qs) == qs,
    decreases qs.len(),
{
    if qs.len() > 0 {
        let front = qs.drop_last();
        lemma_arranged_of_descending(front);
        lemma_parting_place(front, qs.last().priority, front.len() as int);
    }
}

} // verus!
