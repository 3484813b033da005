//! The list of questions, with the running total of their priorities.

use vstd::prelude::*;
use crate::chance::draw_below;
use crate::lottery::{
    lemma_weight_after_insert, lemma_weight_after_remove, lemma_weight_bounds,
    lemma_weight_grows, lemma_weight_of_equal_priorities, lemma_winner,
    lemma_within_after_insert, lemma_within_after_remove, priorities_within, total_weight,
    weight_before, winner, wins,
};
use crate::order::{
    arranged, descending, lemma_arranged, lemma_arranged_of_descending,
    lemma_leaver_keeps_order, lemma_newcomer_keeps_order, lemma_parting_place,
    lemma_place_in_range, parts_at, place_for, with_newcomer,
};
use crate::question::{Question, QuestionView, DEFAULT_PRIORITY};
use crate::text::{entries_of, read_entries, texts_of};

verus! {

/// What each question of `qs` is, in the same order.
pub open spec fn views_of(qs: Seq<Question>) -> Seq<QuestionView> {
    Seq::new(qs.len(), |i: int| qs[i]@)
}

/// Whether the draw `r` on the list `before` takes out the question `q` and
/// leaves the list `after`: `q` is the question that holds the ticket `r`,
/// and `after` is `before` without it.
pub open spec fn drawn(
    before: Seq<QuestionView>,
    r: nat,
    q: QuestionView,
    after: Seq<QuestionView>,
) -> bool {
    &&& wins(before, r, winner(before, r))
    &&& q == before[winner(before, r)]
    &&& after == before.remove(winner(before, r))
}

/// The questions of `qs`, each at the default priority.
pub open spec fn all_reset(qs: Seq<QuestionView>) -> Seq<QuestionView> {
    Seq::new(
        qs.len(),
        |i: int| QuestionView { text: qs[i].text, priority: DEFAULT_PRIORITY as nat },
    )
}

/// `qs` after a fresh question for each text of `entries` was put in, from
/// the first on.
pub open spec fn with_entries(qs: Seq<QuestionView>, entries: Seq<Seq<char>>) -> Seq<
    QuestionView,
>
    decreases entries.len(),
{
    if entries.len() == 0 {
        qs
    } else {
        with_newcomer(
            with_entries(qs, entries.drop_last()),
            QuestionView { text: entries.last(), priority: DEFAULT_PRIORITY as nat },
        )
    }
}

/// Every entry that is put in adds one question and the default priority.
pub proof fn lemma_with_entries(qs: Seq<QuestionView>, entries: Seq<Seq<char>>)
    ensures
        with_entries(qs, entries).len() == qs.len() + entries.len(),
        total_weight(with_entries(qs, entries)) == total_weight(qs) + DEFAULT_PRIORITY
            * entries.len(),
    decreases entries.len(),
{
    if entries.len() > 0 {
        let front = with_entries(qs, entries.drop_last());
        lemma_with_entries(qs, entries.drop_last());
        lemma_place_in_range(front, DEFAULT_PRIORITY as nat);
        lemma_weight_after_insert(
            front,
            place_for(front, DEFAULT_PRIORITY as nat),
            QuestionView { text: entries.last(), priority: DEFAULT_PRIORITY as nat },
        );
    }
}

/// The questions that wait to be asked, highest priority first, together
/// with the sum of their priorities, which is kept up to date with every
/// change.
#[derive(Debug)]
pub struct QuestionList {
    questions: Vec<Question>,
    tot: u128,
}

impl View for QuestionList {
    type V = Seq<QuestionView>;

    closed spec fn view(&self) -> Seq<QuestionView> {
        views_of(self.questions@)
    }
}

impl QuestionList {
    #[verifier::type_invariant]
    spec fn well_formed(self) -> bool {
        &&& self.tot == total_weight(self@)
        &&& descending(self@)
        &&& priorities_within(self@, 1, u64::MAX as nat)
    }

    /// The list without questions.
    pub fn default() -> (list: Self)
        ensures
            list@ == Seq::<QuestionView>::empty(),
    {
        let list = QuestionList { questions: Vec::new(), tot: 0 };
        list
    }

    /// What a session starts with. `None` stands for a record that is
    /// missing or cannot be read, and gives the empty list; the questions of
    /// a record that was read are put in order, and their total is summed
    /// up anew, whatever total the record held.
    pub fn load(stored: Option<Vec<Question>>) -> (list: Self)
        ensures
            list@ == match stored {
                Some(questions) => arranged(views_of(questions@)),
                None => Seq::<QuestionView>::empty(),
            },
            stored matches Some(questions) ==> {
                &&& list@.to_multiset() == views_of(questions@).to_multiset()
                &&& list@.len() == questions@.len()
                &&& total_weight(list@) == total_weight(views_of(questions@))
                &&& descending(views_of(questions@)) ==> list@ == views_of(questions@)
            },
    {
        let mut list = QuestionList::default();
        if let Some(questions) = stored {
            let ghost items = questions@;
            let ghost all = views_of(items);
            for q in it: questions
                invariant
                    it.seq() == items,
                    all == views_of(items),
                    list@ == arranged(all.take(it.index() as int)),
            {
                proof {
                    let upto = all.take(it.index() + 1);
                    assert(upto.drop_last() =~= all.take(it.index() as int));
                }
                list.add_question(q);
            }
            proof {
                assert(all.take(all.len() as int) =~= all);
                lemma_arranged(all);
                if descending(all) {
                    lemma_arranged_of_descending(all);
                }
            }
        }
        list
    }

    /// Hands out the questions and their total, and leaves the list empty.
    fn take_apart(&mut self) -> (parts: (Vec<Question>, u128))
        ensures
            views_of(parts.0@) == old(self)@,
            parts.1 == total_weight(old(self)@),
            descending(old(self)@),
            priorities_within(old(self)@, 1, u64::MAX as nat),
            final(self)@ == Seq::<QuestionView>::empty(),
    {
        proof {
            use_type_invariant(&*self);
        }
        let mut taken = QuestionList::default();
        core::mem::swap(self, &mut taken);
        let QuestionList { questions, tot } = taken;
        (questions, tot)
    }

    /// The sum of the priorities of the questions in the list.
    pub fn get_tot(&self) -> (tot: u128)
        ensures
            tot == total_weight(self@),
    {
        proof {
            use_type_invariant(self);
        }
        self.tot
    }

    /// The questions in the list, in their order.
    pub fn questions(&self) -> (questions: &Vec<Question>)
        ensures
            views_of(questions@) == self@,
            descending(self@),
            priorities_within(self@, 1, u64::MAX as nat),
    {
        proof {
            use_type_invariant(self);
        }
        &self.questions
    }

    /// Whether the list holds no question, which is to say that the total
    /// is 0.
    pub fn is_empty(&self) -> (empty: bool)
        ensures
            empty == (self@.len() == 0),
            empty == (total_weight(self@) == 0),
    {
        proof {
            use_type_invariant(self);
            lemma_weight_bounds(self@, 1, u64::MAX as nat, self@.len() as int);
        }
        self.questions.len() == 0
    }

    /// Puts `q` into the list, behind the questions whose priority is at
    /// least its own and before all others.
    pub fn add_question(&mut self, q: Question)
        ensures
            final(self)@ == with_newcomer(old(self)@, q@),
            final(self)@.len() == old(self)@.len() + 1,
            total_weight(final(self)@) == total_weight(old(self)@) + q@.priority,
    {
        proof {
            use_type_invariant(&*self);
        }
        let p = q.get_priority();
        let mut at: usize = 0;
        while at < self.questions.len() && self.questions[at].get_priority() >= p
            invariant
                at <= self.questions.len(),
                forall|i: int| 0 <= i < at ==> (#[trigger] self@[i]).priority >= p,
            decreases self.questions.len() - at,
        {
            at += 1;
        }
        proof {
            assert(parts_at(self@, p as nat, at as int)) by {
                assert forall|i: int| at <= i < self@.len() implies (#[trigger] self@[i]).priority
                    < p by {
                    assert(self@[at as int].priority >= self@[i].priority);
                }
            }
            lemma_parting_place(self@, p as nat, at as int);
            lemma_newcomer_keeps_order(self@, q@);
            lemma_weight_after_insert(self@, at as int, q@);
            lemma_weight_bounds(self@, 1, u64::MAX as nat, self@.len() as int);
            lemma_within_after_insert(self@, at as int, q@, 1, u64::MAX as nat);
        }
        let ghost before = self@;
        let (mut questions, tot) = self.take_apart();
        questions.insert(at, q);
        assert(views_of(questions@) =~= before.insert(at as int, q@));
        *self = QuestionList { questions, tot: tot + p as u128 };
    }

    /// Takes out the question that holds the ticket `r`, and hands it over.
    pub fn extract_at(&mut self, r: u128) -> (q: Question)
        requires
            r < total_weight(old(self)@),
        ensures
            drawn(old(self)@, r as nat, q@, final(self)@),
            final(self)@.len() == old(self)@.len() - 1,
            total_weight(final(self)@) == total_weight(old(self)@) - q@.priority,
    {
        proof {
            use_type_invariant(&*self);
            lemma_winner(self@, r as nat);
        }
        let mut at: usize = 0;
        let mut left: u128 = r;
        while self.questions[at].get_priority() as u128 <= left
            invariant
                at < self.questions.len(),
                left + weight_before(self@, at as int) == r,
                r < total_weight(self@),
            decreases self.questions.len() - at,
        {
            proof {
                lemma_weight_grows(self@, at + 1, self@.len() as int);
            }
            left -= self.questions[at].get_priority() as u128;
            at += 1;
        }
        let ghost before = self@;
        proof {
            assert(wins(before, r as nat, at as int));
            lemma_leaver_keeps_order(before, at as int);
            lemma_weight_after_remove(before, at as int);
            lemma_within_after_remove(before, at as int, 1, u64::MAX as nat);
        }
        let (mut questions, tot) = self.take_apart();
        let q = questions.remove(at);
        assert(views_of(questions@) =~= before.remove(at as int));
        *self = QuestionList { questions, tot: tot - q.get_priority() as u128 };
        q
    }

    /// Draws a ticket and takes out the question that holds it. The list
    /// must hold a question.
    pub fn extract_random(&mut self) -> (q: Question)
        requires
            old(self)@.len() > 0,
        ensures
            exists|r: nat| r < total_weight(old(self)@) && drawn(old(self)@, r, q@, final(self)@),
            final(self)@.len() == old(self)@.len() - 1,
            total_weight(final(self)@) == total_weight(old(self)@) - q@.priority,
    {
        proof {
            use_type_invariant(&*self);
            lemma_weight_bounds(self@, 1, u64::MAX as nat, self@.len() as int);
        }
        let r = draw_below(self.tot);
        self.extract_at(r)
    }

    /// Takes `text` as the contents of a text file with one question to a
    /// line, and puts a fresh question into the list for every entry of it.
    pub fn read_questions_from_txt(&mut self, text: &str)
        ensures
            final(self)@ == with_entries(old(self)@, entries_of(text@)),
            final(self)@.len() == old(self)@.len() + entries_of(text@).len(),
            total_weight(final(self)@) == total_weight(old(self)@) + DEFAULT_PRIORITY
                * entries_of(text@).len(),
    {
        let entries = read_entries(text);
        let ghost all = texts_of(entries@);
        let ghost before = self@;
        for entry in it: entries
            invariant
                it.seq() == entries@,
                all == texts_of(entries@),
                self@ == with_entries(before, all.take(it.index() as int)),
        {
            proof {
                let upto = all.take(it.index() + 1);
                assert(upto.drop_last() =~= all.take(it.index() as int));
            }
            self.add_question(Question::new(entry));
        }
        proof {
            assert(all.take(all.len() as int) =~= all);
            lemma_with_entries(before, all);
        }
    }

    /// Takes the first question that has the text and the priority of `q`
    /// out of the list. Where there is none, the list stays as it is.
    pub fn remove_question(&mut self, q: &Question)
        ensures
            final(self)@ == old(self)@.remove_value(q@),
            total_weight(final(self)@) == if old(self)@.contains(q@) {
                total_weight(old(self)@) - q@.priority
            } else {
                total_weight(old(self)@) as int
            },
    {
        proof {
            use_type_invariant(&*self);
        }
        let mut at: usize = 0;
        while at < self.questions.len() && !self.questions[at].same_as(q)
            invariant
                at <= self.questions.len(),
                forall|i: int| 0 <= i < at ==> self@[i] != q@,
            decreases self.questions.len() - at,
        {
            at += 1;
        }
        let ghost before = self@;
        proof {
            before.index_of_first_ensures(q@);
        }
        if at < self.questions.len() {
            proof {
                assert(before[at as int] == q@);
                assert(before.index_of_first(q@) == Some(at as int));
                lemma_leaver_keeps_order(before, at as int);
                lemma_weight_after_remove(before, at as int);
                lemma_within_after_remove(before, at as int, 1, u64::MAX as nat);
            }
            let (mut questions, tot) = self.take_apart();
            let gone = questions.remove(at);
            assert(views_of(questions@) =~= before.remove(at as int));
            *self = QuestionList { questions, tot: tot - gone.get_priority() as u128 };
        } else {
            assert(!before.contains(q@));
        }
    }

    /// Puts every question of the list back to the default priority.
    pub fn reset_all(&mut self)
        ensures
            final(self)@ == all_reset(old(self)@),
            total_weight(final(self)@) == DEFAULT_PRIORITY * old(self)@.len(),
    {
        let ghost before = self@;
        let (mut questions, _) = self.take_apart();
        let mut i: usize = 0;
        while i < questions.len()
            invariant
                i <= questions.len(),
                questions.len() == before.len(),
                forall|j: int| 0 <= j < i ==> (#[trigger] questions@[j])@ == all_reset(before)[j],
                forall|j: int| i <= j < before.len() ==> (#[trigger] questions@[j])@ == before[j],
            decreases questions.len() - i,
        {
            questions[i].reset();
            i += 1;
        }
        proof {
            assert(views_of(questions@) =~= all_reset(before));
            lemma_weight_of_equal_priorities(all_reset(before), DEFAULT_PRIORITY as nat);
        }
        let tot = DEFAULT_PRIORITY as u128 * questions.len() as u128;
        *self = QuestionList { questions, tot };
    }
}

} // verus!
