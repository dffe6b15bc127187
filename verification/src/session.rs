//! The session loop's state: the (possibly pre-shuffled) question sequence,
//! the position of the question being asked, and the running totals. One
//! question is processed at a time; each accepted answer increments exactly
//! one counter and advances to the next question.

use vstd::prelude::*;
use crate::display::{display_question, spec_display_question};
use crate::input::{parse_selection, selection_of};
use crate::model::{
    find_single_correct, get_correct_answer_index, has_single_correct, is_correct_at, Question,
    Quiz, QuizError, Results,
};
use crate::shuffle::{lemma_correct_tag_stable, shuffle_answers};

verus! {

/// What one submitted line of input led to.
#[derive(Debug, PartialEq, Eq)]
pub enum SubmitOutcome {
    /// The line named no option: nothing is scored, the question is asked again.
    Rejected,
    /// The line named an option: exactly one counter was incremented, and the
    /// correct option's 1-based post-shuffle position is surfaced for display.
    Answered { correct: bool, correct_position: usize },
}

/// One pass through a quiz: questions in their final order, the position of
/// the question being asked, and the running totals.
pub struct Session {
    pub questions: Vec<Question>,
    pub next: usize,
    pub results: Results,
}

impl Session {
    /// The session's invariant: every question still holds exactly one
    /// correct option, and the counters sum to the questions processed.
    pub open spec fn inv(&self) -> bool {
        &&& self.next <= self.questions@.len()
        &&& forall|i: int|
            0 <= i < self.questions@.len() ==> has_single_correct(
                #[trigger] self.questions.deep_view()[i].answers,
            )
        &&& self.results.correct + self.results.incorrect == self.next
    }

    /// Every question has been processed.
    pub open spec fn done(&self) -> bool {
        self.next == self.questions@.len()
    }

    /// The question currently being asked.
    pub open spec fn current(&self) -> crate::model::QuestionView
        recommends
            !self.done(),
    {
        self.questions.deep_view()[self.next as int]
    }

    /// Start a session over the given questions, counters at zero. Each
    /// question is checked to hold exactly one correct option — a defect in
    /// construction or reordering would surface here, never as a wrong score.
    pub fn new(quiz: Quiz) -> (r: Result<Session, QuizError>)
        ensures
            match r {
                Ok(s) => {
                    &&& s.inv()
                    &&& s.next == 0
                    &&& s.results.correct == 0 && s.results.incorrect == 0
                    &&& s.questions.deep_view() == quiz@
                },
                Err(e) => {
                    &&& e == QuizError::CorrectAnswerMissing
                    &&& exists|i: int|
                        0 <= i < quiz@.len() && !has_single_correct(#[trigger] quiz@[i].answers)
                },
            },
    {
        let n = quiz.questions.len();
        let mut i: usize = 0;
        while i < n
            invariant
                n == quiz.questions@.len(),
                i <= n,
                forall|j: int|
                    0 <= j < i ==> has_single_correct(
                        #[trigger] quiz.questions.deep_view()[j].answers,
                    ),
            decreases n - i,
        {
            if find_single_correct(&quiz.questions[i].answers).is_none() {
                assert(!has_single_correct(quiz@[i as int].answers));
                return Err(QuizError::CorrectAnswerMissing);
            }
            i = i + 1;
        }
        Ok(Session { questions: quiz.questions, next: 0, results: Results::default() })
    }

    /// Whether the session has processed its last question.
    pub fn is_done(&self) -> (r: bool)
        ensures
            r == self.done(),
    {
        self.next == self.questions.len()
    }

    /// Replace the current question's answers with a uniformly shuffled copy.
    /// Only the order changes: the prompt, the multiset of answers, and every
    /// other question are untouched.
    pub fn shuffle_current_answers(&mut self)
        requires
            old(self).inv(),
            !old(self).done(),
        ensures
            final(self).inv(),
            !final(self).done(),
            final(self).next == old(self).next,
            final(self).results == old(self).results,
            final(self).questions@.len() == old(self).questions@.len(),
            forall|i: int|
                0 <= i < old(self).questions@.len() && i != old(self).next
                    ==> final(self).questions.deep_view()[i] == old(self).questions.deep_view()[i],
            final(self).current().prompt == old(self).current().prompt,
            final(self).current().answers.to_multiset()
                == old(self).current().answers.to_multiset(),
    {
        let idx = self.next;
        let shuffled = shuffle_answers(&self.questions[idx]);
        let ghost pre = self.questions.deep_view();
        let _replaced = self.questions.remove(idx);
        self.questions.insert(idx, shuffled);
        proof {
            assert(pre == old(self).questions.deep_view());
            assert forall|i: int|
                0 <= i < pre.len() && i != idx implies self.questions.deep_view()[i] == pre[i] by {
                assert(self.questions@[i] == old(self).questions@[i]);
            }
            assert(self.questions.deep_view()[idx as int] == shuffled@);
            let k = choose|k: int| is_correct_at(pre[idx as int].answers, k);
            lemma_correct_tag_stable(pre[idx as int].answers, shuffled@.answers, k);
            assert forall|i: int|
                0 <= i < self.questions@.len() implies has_single_correct(
                #[trigger] self.questions.deep_view()[i].answers) by {
                if i == idx {
                    assert(has_single_correct(shuffled@.answers));
                } else {
                    assert(self.questions.deep_view()[i] == pre[i]);
                    assert(has_single_correct(old(self).questions.deep_view()[i].answers));
                }
            }
        }
    }

    /// Render the current question for presentation.
    pub fn present_current(&self) -> (r: String)
        requires
            self.inv(),
            !self.done(),
        ensures
            r@ == spec_display_question(self.current().prompt, self.current().answers),
    {
        let q = &self.questions[self.next];
        let answers = q.answers.as_slice();
        proof {
            assert(answers.deep_view() =~= self.current().answers);
        }
        display_question(q.question.as_str(), answers)
    }

    /// Score one line of input against the current question. A line that
    /// names no option is rejected and changes nothing — the caller asks
    /// again, without limit. A line that names an option advances the session
    /// and increments exactly one counter: `correct` when the selection is
    /// the correct option's position, `incorrect` otherwise.
    pub fn submit(&mut self, line: &str) -> (r: SubmitOutcome)
        requires
            old(self).inv(),
            !old(self).done(),
        ensures
            final(self).inv(),
            final(self).questions == old(self).questions,
            match r {
                SubmitOutcome::Rejected => {
                    &&& *final(self) == *old(self)
                    &&& selection_of(line@, old(self).current().answers.len() as int) is None
                },
                SubmitOutcome::Answered { correct, correct_position } => {
                    let sel = selection_of(line@, old(self).current().answers.len() as int);
                    &&& sel is Some
                    &&& 1 <= correct_position <= old(self).current().answers.len()
                    &&& is_correct_at(old(self).current().answers, correct_position - 1)
                    &&& correct <==> sel == Some(correct_position - 1)
                    &&& final(self).next == old(self).next + 1
                    &&& final(self).results.correct == old(self).results.correct + (if correct {
                        1int
                    } else {
                        0int
                    })
                    &&& final(self).results.incorrect == old(self).results.incorrect + (
                    if correct {
                        0int
                    } else {
                        1int
                    })
                },
            },
    {
        let idx = self.next;
        let qlen = self.questions.len();
        assert(self.results.correct < qlen && self.results.incorrect < qlen && idx < qlen);
        let n_options = self.questions[idx].answers.len();
        match parse_selection(line, n_options) {
            None => SubmitOutcome::Rejected,
            Some(sel) => {
                let answer_slice = self.questions[idx].answers.as_slice();
                proof {
                    assert(answer_slice.deep_view() =~= self.current().answers);
                }
                let correct_index = match get_correct_answer_index(answer_slice) {
                    Ok(ci) => ci,
                    Err(_) => {
                        proof {
                            let answers = self.current().answers;
                            let k = choose|k: int| is_correct_at(answers, k);
                            assert(answers[k].is_correct);
                            assert(false);
                        }
                        vstd::pervasive::unreached()
                    },
                };
                proof {
                    let answers = self.current().answers;
                    let k = choose|k: int| is_correct_at(answers, k);
                    assert(!answers[correct_index as int].is_correct || correct_index as int == k);
                    assert(is_correct_at(answers, correct_index as int));
                }
                let correct = sel == correct_index;
                if correct {
                    self.results.correct = self.results.correct + 1;
                } else {
                    self.results.incorrect = self.results.incorrect + 1;
                }
                self.next = self.next + 1;
                SubmitOutcome::Answered { correct, correct_position: correct_index + 1 }
            },
        }
    }
}

} // verus!
