//! A single question and the rules by which its priority moves.

use vstd::prelude::*;

verus! {

/// The priority of a question that has not been answered yet, and the one
/// that a reset gives back.
pub const DEFAULT_PRIORITY: u64 = 8;

/// What a question is: its text and its weight in the lottery.
pub struct QuestionView {
    pub text: Seq<char>,
    pub priority: nat,
}

/// How well a question was answered.
#[derive(Clone, Copy, Debug, PartialEq, Eq, Structural)]
pub enum Verdict {
    Good,
    SoSo,
    Bad,
}

/// The priority after a good answer: half of it, rounded down, but never
/// below 1.
pub open spec fn halved(p: nat) -> nat {
    if p / 2 >= 1 {
        p / 2
    } else {
        1
    }
}

/// The priority after an answer that raises it `factor`-fold. The product
/// is kept where a `u64` holds it; beyond that the priority stays at the
/// largest value.
pub open spec fn raised(p: nat, factor: nat) -> nat {
    if p * factor <= u64::MAX {
        p * factor
    } else {
        u64::MAX as nat
    }
}

/// The priority that `verdict` turns `p` into.
pub open spec fn after_verdict(p: nat, verdict: Verdict) -> nat {
    match verdict {
        Verdict::Good => halved(p),
        Verdict::SoSo => raised(p, 2),
        Verdict::Bad => raised(p, 4),
    }
}

/// A question and its priority. The priority is at least 1 at all times.
#[derive(Debug)]
pub struct Question {
    text: String,
    priority: u64,
}

impl View for Question {
    type V = QuestionView;

    closed spec fn view(&self) -> QuestionView {
        QuestionView { text: self.text@, priority: self.priority as nat }
    }
}

impl Clone for Question {
    fn clone(&self) -> (copy: Self)
        ensures
            copy@ == self@,
    {
        proof {
            use_type_invariant(self);
        }
        Question { text: self.text.clone(), priority: self.priority }
    }
}

impl Question {
    #[verifier::type_invariant]
    spec fn priority_is_positive(self) -> bool {
        self.priority >= 1
    }

    /// A fresh question, at the default priority.
    pub fn new(text: String) -> (q: Self)
        ensures
            q@ == (QuestionView { text: text@, priority: DEFAULT_PRIORITY as nat }),
    {
        Question { text, priority: DEFAULT_PRIORITY }
    }

    /// A question with a priority that was recorded earlier. A recorded
    /// priority of 0 is raised to 1, the lowest a question can have.
    pub fn with_priority(text: String, priority: u64) -> (q: Self)
        ensures
            q@.text == text@,
            q@.priority == if priority == 0 { 1 } else { priority as nat },
    {
        if priority == 0 {
            Question { text, priority: 1 }
        } else {
            Question { text, priority }
        }
    }

    /// The text of the question.
    pub fn get_text(&self) -> (text: String)
        ensures
            text@ == self@.text,
    {
        self.text.clone()
    }

    /// The priority of the question, which is never below 1.
    pub fn get_priority(&self) -> (p: u64)
        ensures
            p == self@.priority,
            p >= 1,
    {
        proof {
            use_type_invariant(self);
        }
        self.priority
    }

    /// Whether `other` has the same text and the same priority.
    pub fn same_as(&self, other: &Question) -> (same: bool)
        ensures
            same == (self@ == other@),
    {
        self.priority == other.priority && self.text == other.text
    }

    /// The question was answered well: its priority is halved, and stays
    /// at least 1. At priority 1 nothing changes.
    pub fn good_answer(&mut self)
        ensures
            final(self)@.text == old(self)@.text,
            final(self)@.priority == halved(old(self)@.priority),
            1 <= final(self)@.priority <= old(self)@.priority,
            old(self)@.priority == 1 ==> final(self)@ == old(self)@,
    {
        proof {
            use_type_invariant(&*self);
        }
        if self.priority >= 2 {
            self.priority = self.priority / 2;
        }
    }

    /// The question was answered badly: its priority is multiplied by 4.
    pub fn bad_answer(&mut self)
        ensures
            final(self)@.text == old(self)@.text,
            final(self)@.priority == raised(old(self)@.priority, 4),
            old(self)@.priority * 4 <= u64::MAX ==> final(self)@.priority == 4
                * old(self)@.priority,
            old(self)@.priority < u64::MAX ==> final(self)@.priority > old(self)@.priority,
    {
        proof {
            use_type_invariant(&*self);
        }
        self.priority = raise(self.priority, 4);
    }

    /// The question was answered so-so: its priority is doubled.
    pub fn so_so_answer(&mut self)
        ensures
            final(self)@.text == old(self)@.text,
            final(self)@.priority == raised(old(self)@.priority, 2),
            old(self)@.priority * 2 <= u64::MAX ==> final(self)@.priority == 2
                * old(self)@.priority,
            old(self)@.priority < u64::MAX ==> final(self)@.priority > old(self)@.priority,
    {
        proof {
            use_type_invariant(&*self);
        }
        self.priority = raise(self.priority, 2);
    }

    /// Back to the default priority, whatever it was.
    pub fn reset(&mut self)
        ensures
            final(self)@.text == old(self)@.text,
            final(self)@.priority == DEFAULT_PRIORITY,
    {
        self.priority = DEFAULT_PRIORITY;
    }

    /// Applies the rule that belongs to `verdict`.
    pub fn answer(&mut self, verdict: Verdict)
        ensures
            final(self)@.text == old(self)@.text,
            final(self)@.priority == after_verdict(old(self)@.priority, verdict),
    {
        match verdict {
            Verdict::Good => self.good_answer(),
            Verdict::SoSo => self.so_so_answer(),
            Verdict::Bad => self.bad_answer(),
        }
    }
}

/// `p * factor`, or the largest `u64` where the product is beyond it.
fn raise(p: u64, factor: u64) -> (r: u64)
    ensures
        r == raised(p as nat, factor as nat),
{
    match p.checked_mul(factor) {
        Some(product) => product,
        None => u64::MAX,
    }
}

} // verus!
