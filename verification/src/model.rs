//! The quiz data model: answers tagged correct/incorrect at construction
//! time, questions, and the quiz built from raw question records.

use vstd::prelude::*;

verus! {

/// The mathematical value of an [`Answer`]: its text and its correctness tag.
pub ghost struct AnswerView {
    pub text: Seq<char>,
    pub is_correct: bool,
}

/// One answer option. The correctness tag is fixed when the owning question
/// is built and travels with the value through every reordering.
pub enum Answer {
    CorrectAnswer(String),
    IncorrectAnswer(String),
}

impl View for Answer {
    type V = AnswerView;

    open spec fn view(&self) -> AnswerView {
        match self {
            Answer::CorrectAnswer(s) => AnswerView { text: s@, is_correct: true },
            Answer::IncorrectAnswer(s) => AnswerView { text: s@, is_correct: false },
        }
    }
}

impl DeepView for Answer {
    type V = AnswerView;

    open spec fn deep_view(&self) -> AnswerView {
        self.view()
    }
}

impl Answer {
    /// The answer's text.
    pub fn as_str(&self) -> (r: &str)
        ensures
            r@ == self@.text,
    {
        match self {
            Answer::CorrectAnswer(s) => s.as_str(),
            Answer::IncorrectAnswer(s) => s.as_str(),
        }
    }

    /// Whether this option carries the correctness tag.
    pub fn is_correct(&self) -> (r: bool)
        ensures
            r == self@.is_correct,
    {
        match self {
            Answer::CorrectAnswer(_) => true,
            Answer::IncorrectAnswer(_) => false,
        }
    }

    /// A copy of this answer: same text, same tag.
    pub fn duplicate(&self) -> (r: Answer)
        ensures
            r@ == self@,
    {
        match self {
            Answer::CorrectAnswer(s) => Answer::CorrectAnswer(s.clone()),
            Answer::IncorrectAnswer(s) => Answer::IncorrectAnswer(s.clone()),
        }
    }
}

/// The mathematical value of a [`Question`].
pub ghost struct QuestionView {
    pub prompt: Seq<char>,
    pub answers: Seq<AnswerView>,
}

/// A prompt together with its answer options.
pub struct Question {
    pub question: String,
    pub answers: Vec<Answer>,
}

impl View for Question {
    type V = QuestionView;

    open spec fn view(&self) -> QuestionView {
        QuestionView { prompt: self.question@, answers: self.answers.deep_view() }
    }
}

impl DeepView for Question {
    type V = QuestionView;

    open spec fn deep_view(&self) -> QuestionView {
        self.view()
    }
}

impl Question {
    /// A copy of this question: same prompt, same answers in the same order.
    pub fn duplicate(&self) -> (r: Question)
        ensures
            r@ == self@,
    {
        let mut answers: Vec<Answer> = Vec::new();
        let n = self.answers.len();
        let mut i: usize = 0;
        while i < n
            invariant
                n == self.answers@.len(),
                i <= n,
                answers.deep_view().len() == i,
                forall|j: int|
                    0 <= j < i ==> #[trigger] answers.deep_view()[j] == self.answers.deep_view()[j],
            decreases n - i,
        {
            let ghost pre = answers.deep_view();
            let a = self.answers[i].duplicate();
            answers.push(a);
            assert forall|j: int| 0 <= j < i + 1 implies #[trigger] answers.deep_view()[j]
                == self.answers.deep_view()[j] by {
                if j < i {
                    assert(answers.deep_view()[j] == pre[j]);
                } else {
                    assert(answers.deep_view()[j] == a@);
                }
            }
            i = i + 1;
        }
        let r = Question { question: self.question.clone(), answers };
        assert(r@.answers =~= self@.answers);
        r
    }
}

/// The option at position `k` is the one and only correct one.
pub open spec fn is_correct_at(answers: Seq<AnswerView>, k: int) -> bool {
    &&& 0 <= k < answers.len()
    &&& answers[k].is_correct
    &&& forall|j: int| 0 <= j < answers.len() && j != k ==> !answers[j].is_correct
}

/// Exactly one option carries the correctness tag. This is the invariant the
/// quiz model establishes at construction and every reordering preserves.
pub open spec fn has_single_correct(answers: Seq<AnswerView>) -> bool {
    exists|k: int| is_correct_at(answers, k)
}

/// The full ordered set of questions for one session.
pub struct Quiz {
    pub questions: Vec<Question>,
}

impl View for Quiz {
    type V = Seq<QuestionView>;

    open spec fn view(&self) -> Seq<QuestionView> {
        self.questions.deep_view()
    }
}

/// The closed set of ways the quiz model can fail.
#[derive(Debug, PartialEq, Eq)]
pub enum QuizError {
    /// A record's options list is empty or its correct-option identifier does
    /// not name a position in that list.
    MalformedQuestion,
    /// No option of a question carries the correctness tag; this marks a
    /// defect in construction or reordering, never a user error.
    CorrectAnswerMissing,
}

impl QuizError {
    /// A human-readable message for this error.
    pub fn message(&self) -> (r: &'static str)
        ensures
            *self == QuizError::MalformedQuestion ==> r@ == "Malformed question"@,
            *self == QuizError::CorrectAnswerMissing ==> r@ == "Correct answer not found"@,
    {
        match self {
            QuizError::MalformedQuestion => "Malformed question",
            QuizError::CorrectAnswerMissing => "Correct answer not found",
        }
    }
}

/// The mathematical value of a [`QuestionRecord`].
pub ghost struct RecordView {
    pub question: Seq<char>,
    pub answer: int,
    pub options: Seq<Seq<char>>,
}

/// One raw question record as the question source yields it: a prompt, the
/// option texts in their original order, and the 1-based position of the
/// correct option in that order.
pub struct QuestionRecord {
    pub question: String,
    pub answer: usize,
    pub options: Vec<String>,
}

impl View for QuestionRecord {
    type V = RecordView;

    open spec fn view(&self) -> RecordView {
        RecordView {
            question: self.question@,
            answer: self.answer as int,
            options: self.options.deep_view(),
        }
    }
}

impl DeepView for QuestionRecord {
    type V = RecordView;

    open spec fn deep_view(&self) -> RecordView {
        self.view()
    }
}

/// A record is valid when its correct-option identifier names a 1-based
/// position in its (necessarily non-empty) options list.
pub open spec fn record_valid(r: RecordView) -> bool {
    1 <= r.answer <= r.options.len()
}

/// The answers a valid record normalizes to: the option texts in their
/// original order, with exactly the declared position tagged correct.
pub open spec fn answers_of_record(r: RecordView) -> Seq<AnswerView> {
    Seq::new(r.options.len(), |i: int| AnswerView { text: r.options[i], is_correct: i + 1 == r.answer })
}

/// The question a valid record normalizes to.
pub open spec fn question_of_record(r: RecordView) -> QuestionView {
    QuestionView { prompt: r.question, answers: answers_of_record(r) }
}

impl Question {
    /// Normalize one raw record: keep the option order, tag exactly the
    /// declared option as correct, and reject a record whose identifier names
    /// no option.
    pub fn from_record(record: &QuestionRecord) -> (r: Result<Question, QuizError>)
        ensures
            r is Ok <==> record_valid(record@),
            r is Ok ==> r->Ok_0@ == question_of_record(record@),
            r is Err ==> r->Err_0 == QuizError::MalformedQuestion,
    {
        let n = record.options.len();
        if record.answer < 1 || record.answer > n {
            return Err(QuizError::MalformedQuestion);
        }
        let mut answers: Vec<Answer> = Vec::new();
        let mut i: usize = 0;
        while i < n
            invariant
                n == record.options@.len(),
                1 <= record.answer <= n,
                i <= n,
                answers.deep_view().len() == i,
                forall|j: int|
                    0 <= j < i ==> #[trigger] answers.deep_view()[j] == answers_of_record(
                        record@,
                    )[j],
            decreases n - i,
        {
            let text = record.options[i].clone();
            let answer = if i + 1 == record.answer {
                Answer::CorrectAnswer(text)
            } else {
                Answer::IncorrectAnswer(text)
            };
            let ghost pre = answers.deep_view();
            answers.push(answer);
            assert forall|j: int| 0 <= j < i + 1 implies #[trigger] answers.deep_view()[j]
                == answers_of_record(record@)[j] by {
                if j < i {
                    assert(answers.deep_view()[j] == pre[j]);
                } else {
                    assert(answers.deep_view()[j] == answer@);
                    assert(record@.options[j] == record.options@[j]@);
                }
            }
            i = i + 1;
        }
        let question = Question { question: record.question.clone(), answers };
        assert(question@.answers =~= answers_of_record(record@));
        Ok(question)
    }
}

impl Quiz {
    /// Normalize a whole sequence of raw records. Any malformed record is
    /// fatal for the whole load: no partial quiz is produced.
    pub fn from_records(records: &Vec<QuestionRecord>) -> (r: Result<Quiz, QuizError>)
        ensures
            r is Ok <==> (forall|i: int|
                0 <= i < records.deep_view().len() ==> record_valid(#[trigger] records.deep_view()[i])),
            r is Ok ==> r->Ok_0@ =~= records.deep_view().map_values(|rec: RecordView| question_of_record(rec)),
            r is Err ==> r->Err_0 == QuizError::MalformedQuestion,
    {
        let mut questions: Vec<Question> = Vec::new();
        let mut i: usize = 0;
        let n = records.len();
        while i < n
            invariant
                n == records@.len(),
                i <= n,
                forall|j: int| 0 <= j < i ==> record_valid(#[trigger] records.deep_view()[j]),
                questions.deep_view().len() == i,
                forall|j: int|
                    0 <= j < i ==> #[trigger] questions.deep_view()[j] == question_of_record(
                        records.deep_view()[j],
                    ),
            decreases n - i,
        {
            assert(records.deep_view()[i as int] == records@[i as int]@);
            match Question::from_record(&records[i]) {
                Ok(q) => {
                    let ghost pre = questions.deep_view();
                    questions.push(q);
                    assert forall|j: int| 0 <= j < i + 1 implies #[trigger] questions.deep_view()[j]
                        == question_of_record(records.deep_view()[j]) by {
                        if j < i {
                            assert(questions.deep_view()[j] == pre[j]);
                        } else {
                            assert(questions.deep_view()[j] == q@);
                        }
                    }
                },
                Err(e) => {
                    assert(!record_valid(records.deep_view()[i as int]));
                    return Err(e);
                },
            }
            i = i + 1;
        }
        let quiz = Quiz { questions };
        assert(quiz@ =~= records.deep_view().map_values(|rec: RecordView| question_of_record(rec)));
        Ok(quiz)
    }
}

/// Cumulative correct/incorrect counters for one session, each incremented
/// exactly once per question processed.
pub struct Results {
    pub correct: usize,
    pub incorrect: usize,
}

impl Default for Results {
    /// Fresh counters at session start.
    fn default() -> (r: Results)
        ensures
            r.correct == 0 && r.incorrect == 0,
    {
        Results { correct: 0, incorrect: 0 }
    }
}

/// Whether a sequence of answers holds exactly one correct option, reported
/// as the position when it does.
pub fn find_single_correct(answers: &Vec<Answer>) -> (r: Option<usize>)
    ensures
        match r {
            Some(i) => is_correct_at(answers.deep_view(), i as int),
            None => !has_single_correct(answers.deep_view()),
        },
{
    let n = answers.len();
    let mut found: Option<usize> = None;
    let mut i: usize = 0;
    while i < n
        invariant
            n == answers@.len(),
            i <= n,
            match found {
                Some(f) => {
                    &&& f < i
                    &&& answers.deep_view()[f as int].is_correct
                    &&& forall|j: int|
                        0 <= j < i && j != f ==> !answers.deep_view()[j].is_correct
                },
                None => forall|j: int| 0 <= j < i ==> !answers.deep_view()[j].is_correct,
            },
        decreases n - i,
    {
        if answers[i].is_correct() {
            match found {
                Some(f) => {
                    // a second correct option: no single position can satisfy
                    // uniqueness, so the sequence is not well formed
                    assert forall|k: int| !is_correct_at(answers.deep_view(), k) by {
                        if is_correct_at(answers.deep_view(), k) {
                            assert(answers.deep_view()[f as int].is_correct);
                            assert(answers.deep_view()[i as int].is_correct);
                        }
                    }
                    return None;
                },
                None => {
                    found = Some(i);
                },
            }
        }
        i = i + 1;
    }
    proof {
        if found is None {
            assert forall|k: int| !is_correct_at(answers.deep_view(), k) by {}
        }
    }
    found
}

/// Resolve the zero-based position of the first answer tagged correct, or
/// report [`QuizError::CorrectAnswerMissing`] when no answer is tagged — a
/// defensive check for a construction defect, never silently defaulted.
pub fn get_correct_answer_index(answers: &[Answer]) -> (r: Result<usize, QuizError>)
    ensures
        match r {
            Ok(i) => {
                &&& i < answers.deep_view().len()
                &&& answers.deep_view()[i as int].is_correct
                &&& forall|j: int| 0 <= j < i ==> !answers.deep_view()[j].is_correct
            },
            Err(e) => {
                &&& e == QuizError::CorrectAnswerMissing
                &&& forall|j: int|
                    0 <= j < answers.deep_view().len() ==> !answers.deep_view()[j].is_correct
            },
        },
{
    let n = answers.len();
    let mut i: usize = 0;
    while i < n
        invariant
            n == answers@.len(),
            i <= n,
            forall|j: int| 0 <= j < i ==> !answers.deep_view()[j].is_correct,
        decreases n - i,
    {
        if answers[i].is_correct() {
            return Ok(i);
        }
        i = i + 1;
    }
    Err(QuizError::CorrectAnswerMissing)
}

} // verus!
