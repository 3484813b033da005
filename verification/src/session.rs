//! A study session: the questions that wait, and the one that is being
//! asked.
//!
//! A question is in the list until it is drawn. From then on it is with
//! the session, until an answer sends it back to the list with a new
//! priority, or until it is removed for good.

use vstd::prelude::*;
use crate::list::{all_reset, drawn, with_entries, QuestionList};
use crate::lottery::{lemma_weight_bounds, total_weight};
use crate::order::with_newcomer;
use crate::question::{after_verdict, Question, QuestionView, Verdict, DEFAULT_PRIORITY};
use crate::text::entries_of;

verus! {

/// What a session is: the questions that wait, in their order, and the
/// one that is being asked, if any.
pub struct SessionView {
    pub waiting: Seq<QuestionView>,
    pub asked: Option<QuestionView>,
}

impl SessionView {
    /// How many questions the session has, the one being asked included.
    pub open spec fn count(self) -> nat {
        self.waiting.len() + if self.asked is Some {
            1nat
        } else {
            0nat
        }
    }

    /// The sum of the priorities of all questions of the session, the one
    /// being asked included.
    pub open spec fn score(self) -> nat {
        total_weight(self.waiting) + match self.asked {
            Some(q) => q.priority,
            None => 0,
        }
    }
}

/// How a score compares with that of as many fresh questions. A lower
/// score is the better one.
#[derive(Clone, Copy, Debug, PartialEq, Eq, Structural)]
pub enum Standing {
    OnPar,
    /// By how much the score is below par.
    Better(u128),
    /// By how much the score is above par.
    Worse(u128),
}

/// The standing of `score`, reached with `count` questions.
pub open spec fn standing_of(score: nat, count: nat) -> Standing {
    let par = DEFAULT_PRIORITY * count;
    if score == par {
        Standing::OnPar
    } else if score < par {
        Standing::Better((par - score) as u128)
    } else {
        Standing::Worse((score - par) as u128)
    }
}

/// `q` after it was answered.
pub open spec fn answered(q: QuestionView, verdict: Verdict) -> QuestionView {
    QuestionView { text: q.text, priority: after_verdict(q.priority, verdict) }
}

/// `q` at the default priority.
pub open spec fn fresh(q: QuestionView) -> QuestionView {
    QuestionView { text: q.text, priority: DEFAULT_PRIORITY as nat }
}

/// The questions that wait, and the one that is being asked.
#[derive(Debug)]
pub struct Session {
    list: QuestionList,
    current: Option<Question>,
}

impl View for Session {
    type V = SessionView;

    closed spec fn view(&self) -> SessionView {
        SessionView {
            waiting: self.list@,
            asked: match self.current {
                Some(q) => Some(q@),
                None => None,
            },
        }
    }
}

impl Session {
    /// A session on `list`, in which no question is being asked yet.
    pub fn new(list: QuestionList) -> (session: Self)
        ensures
            session@ == (SessionView { waiting: list@, asked: None }),
    {
        Session { list, current: None }
    }

    /// The questions that wait.
    pub fn waiting(&self) -> (list: &QuestionList)
        ensures
            list@ == self@.waiting,
    {
        &self.list
    }

    /// The question that is being asked.
    pub fn asked(&self) -> (q: Option<&Question>)
        ensures
            match q {
                Some(q) => self@.asked == Some(q@),
                None => self@.asked is None,
            },
    {
        self.current.as_ref()
    }

    /// Whether the session has no question at all.
    pub fn needs_questions(&self) -> (needs: bool)
        ensures
            needs == (self@.count() == 0),
    {
        self.list.is_empty() && self.current.is_none()
    }

    /// Takes `text` as the contents of a text file with one question to a
    /// line, and lets a fresh question wait for every entry of it.
    pub fn read_questions_from_txt(&mut self, text: &str)
        ensures
            final(self)@.asked == old(self)@.asked,
            final(self)@.waiting == with_entries(old(self)@.waiting, entries_of(text@)),
            final(self)@.count() == old(self)@.count() + entries_of(text@).len(),
            final(self)@.score() == old(self)@.score() + DEFAULT_PRIORITY * entries_of(
                text@,
            ).len(),
    {
        self.list.read_questions_from_txt(text);
    }

    /// Asks the question that holds the ticket `r`, where none is being
    /// asked and `r` is a ticket of the list. Otherwise nothing changes.
    pub fn ask_at(&mut self, r: u128)
        ensures
            old(self)@.asked is None && r < total_weight(old(self)@.waiting) ==> {
                &&& final(self)@.asked is Some
                &&& drawn(
                    old(self)@.waiting,
                    r as nat,
                    final(self)@.asked->0,
                    final(self)@.waiting,
                )
            },
            old(self)@.asked is Some || r >= total_weight(old(self)@.waiting) ==> final(self)@
                == old(self)@,
            final(self)@.count() == old(self)@.count(),
            final(self)@.score() == old(self)@.score(),
    {
        if self.current.is_none() && r < self.list.get_tot() {
            let q = self.list.extract_at(r);
            self.current = Some(q);
        }
    }

    /// Makes sure that a question is being asked, as long as the session
    /// has one: where none is being asked and one waits, a ticket is drawn
    /// and the question that holds it is asked. Otherwise nothing changes.
    pub fn ask(&mut self)
        ensures
            old(self)@.asked is None && old(self)@.waiting.len() > 0 ==> {
                &&& final(self)@.asked is Some
                &&& exists|r: nat|
                    r < total_weight(old(self)@.waiting) && drawn(
                        old(self)@.waiting,
                        r,
                        final(self)@.asked->0,
                        final(self)@.waiting,
                    )
            },
            old(self)@.asked is Some || old(self)@.waiting.len() == 0 ==> final(self)@ == old(
                self,
            )@,
            final(self)@.count() == old(self)@.count(),
            final(self)@.score() == old(self)@.score(),
    {
        if self.current.is_none() && !self.list.is_empty() {
            let ghost before = self.list@;
            let q = self.list.extract_random();
            let ghost r = choose|r: nat|
                r < total_weight(before) && drawn(before, r, q@, self.list@);
            self.current = Some(q);
            assert(drawn(before, r, self@.asked->0, self@.waiting));
        }
    }

    /// The question that is being asked was answered: its priority moves
    /// as `verdict` says, and it goes back to wait. Where no question is
    /// being asked, nothing changes. Says whether the list has changed.
    pub fn answer(&mut self, verdict: Verdict) -> (changed: bool)
        ensures
            changed == (old(self)@.asked is Some),
            final(self)@.asked is None,
            final(self)@.waiting == match old(self)@.asked {
                Some(q) => with_newcomer(old(self)@.waiting, answered(q, verdict)),
                None => old(self)@.waiting,
            },
            final(self)@.count() == old(self)@.count(),
            final(self)@.score() == match old(self)@.asked {
                Some(q) => old(self)@.score() - q.priority + after_verdict(q.priority, verdict),
                None => old(self)@.score() as int,
            },
    {
        match self.current.take() {
            Some(mut q) => {
                q.answer(verdict);
                self.list.add_question(q);
                true
            },
            None => false,
        }
    }

    /// Puts the question that is being asked back to wait, as it is.
    pub fn put_back(&mut self)
        ensures
            final(self)@.asked is None,
            final(self)@.waiting == match old(self)@.asked {
                Some(q) => with_newcomer(old(self)@.waiting, q),
                None => old(self)@.waiting,
            },
            final(self)@.count() == old(self)@.count(),
            final(self)@.score() == old(self)@.score(),
    {
        match self.current.take() {
            Some(q) => {
                self.list.add_question(q);
            },
            None => {},
        }
    }

    /// Removes the question that is being asked for good. Says whether
    /// there was one.
    pub fn remove_asked(&mut self) -> (removed: bool)
        ensures
            removed == (old(self)@.asked is Some),
            final(self)@ == (SessionView { waiting: old(self)@.waiting, asked: None }),
    {
        self.current.take().is_some()
    }

    /// Puts every question of the session back to the default priority,
    /// the one being asked included.
    pub fn reset_all(&mut self)
        ensures
            final(self)@.waiting == all_reset(old(self)@.waiting),
            final(self)@.asked == match old(self)@.asked {
                Some(q) => Some(fresh(q)),
                None => None,
            },
            final(self)@.count() == old(self)@.count(),
            final(self)@.score() == DEFAULT_PRIORITY * old(self)@.count(),
    {
        self.list.reset_all();
        match self.current.take() {
            Some(mut q) => {
                q.reset();
                self.current = Some(q);
            },
            None => {},
        }
    }

    /// The sum of the priorities of all questions of the session.
    pub fn score(&self) -> (score: u128)
        ensures
            score == self@.score(),
    {
        let count: usize = self.list.questions().len();
        proof {
            lemma_weight_bounds(self.list@, 1, u64::MAX as nat, count as int);
        }
        match &self.current {
            Some(q) => self.list.get_tot() + q.get_priority() as u128,
            None => self.list.get_tot(),
        }
    }

    /// How the score compares with that of as many fresh questions.
    pub fn standing(&self) -> (standing: Standing)
        ensures
            standing == standing_of(self@.score(), self@.count()),
    {
        let score = self.score();
        let count: u128 = match &self.current {
            Some(_) => self.list.questions().len() as u128 + 1,
            None => self.list.questions().len() as u128,
        };
        let par: u128 = DEFAULT_PRIORITY as u128 * count;
        if score == par {
            Standing::OnPar
        } else if score < par {
            Standing::Better(par - score)
        } else {
            Standing::Worse(score - par)
        }
    }
}

} // verus!
