use study_helper::list::QuestionList;
use study_helper::question::{Question, Verdict};
use study_helper::session::{Session, Standing};

fn q(text: &str, priority: u64) -> Question {
    Question::with_priority(String::from(text), priority)
}

fn session_of(items: &[(&str, u64)]) -> Session {
    Session::new(QuestionList::load(Some(items.iter().map(|(t, p)| q(t, *p)).collect())))
}

fn waiting(session: &Session) -> Vec<(String, u64)> {
    session.waiting().questions().iter().map(|q| (q.get_text(), q.get_priority())).collect()
}

fn asked(session: &Session) -> Option<(String, u64)> {
    session.asked().map(|q| (q.get_text(), q.get_priority()))
}

fn pairs(items: &[(&str, u64)]) -> Vec<(String, u64)> {
    items.iter().map(|(t, p)| (t.to_string(), *p)).collect()
}

#[test]
fn new_session_asks_nothing() {
    let session = session_of(&[("a", 8), ("b", 8)]);
    assert_eq!(asked(&session), None);
    assert_eq!(waiting(&session), pairs(&[("a", 8), ("b", 8)]));
    assert!(!session.needs_questions());
    assert_eq!(session.score(), 16);
}

#[test]
fn session_without_questions_needs_some() {
    let mut session = Session::new(QuestionList::default());
    assert!(session.needs_questions());
    assert_eq!(session.score(), 0);
    assert_eq!(session.standing(), Standing::OnPar);
    session.ask();
    assert_eq!(asked(&session), None);
    session.ask_at(0);
    assert_eq!(asked(&session), None);
    assert!(!session.answer(Verdict::Bad));
    assert!(!session.remove_asked());
    assert!(session.needs_questions());
}

#[test]
fn session_reads_questions_from_text() {
    let mut session = Session::new(QuestionList::default());
    session.read_questions_from_txt("- Q1\n\nQ2  \n- Q3");
    assert!(!session.needs_questions());
    assert_eq!(waiting(&session), pairs(&[("Q1", 8), ("Q2", 8), ("Q3", 8)]));
    assert_eq!(session.score(), 24);
    assert_eq!(session.standing(), Standing::OnPar);
}

#[test]
fn ask_at_checks_out_the_question_that_holds_the_ticket() {
    let mut session = session_of(&[("a", 32), ("b", 8), ("c", 8)]);
    session.ask_at(33);
    assert_eq!(asked(&session), Some((String::from("b"), 8)));
    assert_eq!(waiting(&session), pairs(&[("a", 32), ("c", 8)]));
    assert_eq!(session.waiting().get_tot(), 40);
    assert_eq!(session.score(), 48);
}

#[test]
fn ask_at_changes_nothing_while_a_question_is_asked() {
    let mut session = session_of(&[("a", 32), ("b", 8), ("c", 8)]);
    session.ask_at(0);
    session.ask_at(0);
    session.ask();
    assert_eq!(asked(&session), Some((String::from("a"), 32)));
    assert_eq!(waiting(&session), pairs(&[("b", 8), ("c", 8)]));
}

#[test]
fn ask_at_changes_nothing_for_a_ticket_beyond_the_total() {
    let mut session = session_of(&[("a", 32), ("b", 8), ("c", 8)]);
    session.ask_at(48);
    assert_eq!(asked(&session), None);
    session.ask_at(u128::MAX);
    assert_eq!(asked(&session), None);
    assert_eq!(waiting(&session), pairs(&[("a", 32), ("b", 8), ("c", 8)]));
}

#[test]
fn ask_checks_out_one_of_the_waiting_questions() {
    for _ in 0..100 {
        let mut session = session_of(&[("a", 32), ("b", 8), ("c", 8)]);
        session.ask();
        let (text, priority) = asked(&session).unwrap();
        let mut all = waiting(&session);
        assert_eq!(all.len(), 2);
        all.push((text, priority));
        all.sort();
        assert_eq!(all, pairs(&[("a", 32), ("b", 8), ("c", 8)]));
        assert_eq!(session.score(), 48);
        assert!(!session.needs_questions());
    }
}

#[test]
fn answer_sends_the_question_back_with_its_new_priority() {
    let mut session = session_of(&[("a", 32), ("b", 8), ("c", 8)]);
    session.ask_at(32);
    assert!(session.answer(Verdict::Bad));
    assert_eq!(asked(&session), None);
    assert_eq!(waiting(&session), pairs(&[("a", 32), ("b", 32), ("c", 8)]));
    assert_eq!(session.score(), 72);

    session.ask_at(0);
    assert!(session.answer(Verdict::Good));
    assert_eq!(waiting(&session), pairs(&[("b", 32), ("a", 16), ("c", 8)]));
    assert_eq!(session.score(), 56);

    session.ask_at(55);
    assert!(session.answer(Verdict::SoSo));
    assert_eq!(waiting(&session), pairs(&[("b", 32), ("a", 16), ("c", 16)]));
    assert_eq!(session.score(), 64);
    assert!(!session.answer(Verdict::SoSo));
    assert_eq!(session.score(), 64);
}

#[test]
fn put_back_returns_the_question_as_it_is() {
    let mut session = session_of(&[("a", 32), ("b", 8), ("c", 8)]);
    session.ask_at(32);
    session.put_back();
    assert_eq!(asked(&session), None);
    assert_eq!(waiting(&session), pairs(&[("a", 32), ("c", 8), ("b", 8)]));
    session.put_back();
    assert_eq!(waiting(&session), pairs(&[("a", 32), ("c", 8), ("b", 8)]));
}

#[test]
fn remove_asked_drops_the_question_for_good() {
    let mut session = session_of(&[("a", 32), ("b", 8), ("b", 8)]);
    session.ask_at(32);
    assert!(session.remove_asked());
    assert_eq!(asked(&session), None);
    assert_eq!(waiting(&session), pairs(&[("a", 32), ("b", 8)]));
    assert_eq!(session.score(), 40);
    assert!(!session.remove_asked());
}

#[test]
fn reset_all_reaches_the_asked_question_too() {
    let mut session = session_of(&[("a", 32), ("b", 4), ("c", 1)]);
    session.ask_at(0);
    session.reset_all();
    assert_eq!(asked(&session), Some((String::from("a"), 8)));
    assert_eq!(waiting(&session), pairs(&[("b", 8), ("c", 8)]));
    assert_eq!(session.score(), 24);
    assert_eq!(session.standing(), Standing::OnPar);
}

#[test]
fn standing_compares_the_score_with_eight_a_question() {
    assert_eq!(session_of(&[("a", 8), ("b", 8)]).standing(), Standing::OnPar);
    assert_eq!(session_of(&[("a", 8), ("b", 7)]).standing(), Standing::Better(1));
    assert_eq!(session_of(&[("a", 1), ("b", 1), ("c", 1)]).standing(), Standing::Better(21));
    assert_eq!(session_of(&[("a", 32), ("b", 8)]).standing(), Standing::Worse(24));
    assert_eq!(session_of(&[("a", 16), ("b", 4), ("c", 4)]).standing(), Standing::OnPar);
    assert_eq!(
        session_of(&[("a", u64::MAX), ("b", u64::MAX)]).standing(),
        Standing::Worse(2 * (u64::MAX as u128) - 16)
    );
}

#[test]
fn standing_counts_the_asked_question() {
    let mut session = session_of(&[("a", 32), ("b", 8), ("c", 2)]);
    assert_eq!(session.standing(), Standing::Worse(18));
    session.ask_at(0);
    assert_eq!(session.standing(), Standing::Worse(18));
    session.answer(Verdict::Good);
    assert_eq!(session.standing(), Standing::Worse(2));
    session.ask_at(0);
    session.answer(Verdict::Good);
    assert_eq!(session.standing(), Standing::Better(6));
}

#[test]
fn session_ingests_draws_answers_badly_and_goes_on() {
    let mut session = Session::new(QuestionList::load(None));
    assert!(session.needs_questions());
    session.read_questions_from_txt("- Q1\n\nQ2  \n- Q3");
    assert_eq!(session.waiting().get_tot(), 24);
    session.ask_at(20);
    assert_eq!(asked(&session), Some((String::from("Q3"), 8)));
    assert!(session.answer(Verdict::Bad));
    assert_eq!(session.waiting().get_tot(), 48);
    assert_eq!(waiting(&session), pairs(&[("Q3", 32), ("Q1", 8), ("Q2", 8)]));
    assert_eq!(session.standing(), Standing::Worse(24));
}
