use quiz_runner::decimal::decimal_string;
use quiz_runner::display::display_results;
use quiz_runner::input::parse_selection;
use quiz_runner::model::{get_correct_answer_index, Answer, Question, Quiz, QuestionRecord, Results};
use quiz_runner::session::{Session, SubmitOutcome};
use quiz_runner::shuffle::{permute_with, shuffle_answers, shuffle_questions};

fn one_question_quiz() -> Quiz {
    let records = vec![QuestionRecord {
        question: "What is 1+1?".to_string(),
        answer: 1,
        options: vec!["2".to_string(), "3".to_string(), "4".to_string()],
    }];
    Quiz::from_records(&records).unwrap()
}

#[test]
fn end_to_end_correct_answer() {
    let quiz = one_question_quiz();
    let mut session = Session::new(quiz).unwrap();
    assert!(!session.is_done());

    let shown = session.present_current();
    assert!(shown.contains("What is 1+1?"));
    assert!(shown.contains("1 - 2"));
    assert!(shown.contains("2 - 3"));
    assert!(shown.contains("3 - 4"));

    let outcome = session.submit("1");
    assert_eq!(
        outcome,
        SubmitOutcome::Answered {
            correct: true,
            correct_position: 1
        }
    );
    assert!(session.is_done());
    assert_eq!(session.results.correct, 1);
    assert_eq!(session.results.incorrect, 0);
    assert_eq!(display_results(&session.results), "100% correct (1 of 1)");
}

#[test]
fn end_to_end_incorrect_answer() {
    let quiz = one_question_quiz();
    let mut session = Session::new(quiz).unwrap();

    let outcome = session.submit("2");
    assert_eq!(
        outcome,
        SubmitOutcome::Answered {
            correct: false,
            correct_position: 1
        }
    );
    assert!(session.is_done());
    assert_eq!(session.results.correct, 0);
    assert_eq!(session.results.incorrect, 1);
    assert_eq!(display_results(&session.results), "0% correct (0 of 1)");
}

#[test]
fn retry_on_invalid_input() {
    let quiz = one_question_quiz();
    let mut session = Session::new(quiz).unwrap();

    let mut rejections = 0;
    for line in ["abc", "0", "99"] {
        assert_eq!(session.submit(line), SubmitOutcome::Rejected);
        rejections += 1;
        assert!(!session.is_done());
        assert_eq!(session.results.correct, 0);
        assert_eq!(session.results.incorrect, 0);
    }
    assert_eq!(rejections, 3);

    // "2" names the option at zero-based index 1
    match session.submit("2") {
        SubmitOutcome::Answered { .. } => {}
        SubmitOutcome::Rejected => panic!("a valid selection was rejected"),
    }
    assert!(session.is_done());
    assert_eq!(session.results.correct + session.results.incorrect, 1);
}

#[test]
fn scoring_counts_each_question_once() {
    let records = vec![
        QuestionRecord {
            question: "first".to_string(),
            answer: 1,
            options: vec!["a".to_string(), "b".to_string()],
        },
        QuestionRecord {
            question: "second".to_string(),
            answer: 2,
            options: vec!["a".to_string(), "b".to_string()],
        },
        QuestionRecord {
            question: "third".to_string(),
            answer: 1,
            options: vec!["a".to_string(), "b".to_string()],
        },
    ];
    let quiz = Quiz::from_records(&records).unwrap();
    let mut session = Session::new(quiz).unwrap();

    let mut processed = 0;
    while !session.is_done() {
        let before = (session.results.correct, session.results.incorrect);
        match session.submit("1") {
            SubmitOutcome::Answered { correct, .. } => {
                processed += 1;
                let after = (session.results.correct, session.results.incorrect);
                if correct {
                    assert_eq!(after, (before.0 + 1, before.1));
                } else {
                    assert_eq!(after, (before.0, before.1 + 1));
                }
            }
            SubmitOutcome::Rejected => panic!("a valid selection was rejected"),
        }
        assert_eq!(session.results.correct + session.results.incorrect, processed);
    }
    assert_eq!(processed, 3);
}

#[test]
fn session_rejects_question_without_correct_answer() {
    let quiz = Quiz {
        questions: vec![Question {
            question: "broken".to_string(),
            answers: vec![
                Answer::IncorrectAnswer("a".to_string()),
                Answer::IncorrectAnswer("b".to_string()),
            ],
        }],
    };
    assert!(Session::new(quiz).is_err());
}

#[test]
fn shuffle_answers_keeps_tag_on_original_text() {
    // duplicate texts elsewhere must not confuse the resolution
    let question = Question {
        question: "pick".to_string(),
        answers: vec![
            Answer::IncorrectAnswer("dup".to_string()),
            Answer::CorrectAnswer("dup".to_string()),
            Answer::IncorrectAnswer("other".to_string()),
        ],
    };
    for _ in 0..50 {
        let shuffled = shuffle_answers(&question);
        assert_eq!(shuffled.question, "pick".to_string());
        let idx = get_correct_answer_index(&shuffled.answers).unwrap();
        assert_eq!(shuffled.answers[idx].as_str(), "dup");
        assert!(shuffled.answers[idx].is_correct());
        // exactly one correct tag survives
        let tags = shuffled.answers.iter().filter(|a| a.is_correct()).count();
        assert_eq!(tags, 1);
    }
}

#[test]
fn shuffle_answers_preserves_multiset() {
    let question = Question {
        question: "pick".to_string(),
        answers: vec![
            Answer::CorrectAnswer("a".to_string()),
            Answer::IncorrectAnswer("b".to_string()),
            Answer::IncorrectAnswer("c".to_string()),
            Answer::IncorrectAnswer("b".to_string()),
        ],
    };
    for _ in 0..20 {
        let shuffled = shuffle_answers(&question);
        let mut texts: Vec<(String, bool)> = shuffled
            .answers
            .iter()
            .map(|a| (a.as_str().to_string(), a.is_correct()))
            .collect();
        texts.sort();
        let mut expected: Vec<(String, bool)> = question
            .answers
            .iter()
            .map(|a| (a.as_str().to_string(), a.is_correct()))
            .collect();
        expected.sort();
        assert_eq!(texts, expected);
    }
}

#[test]
fn shuffle_questions_preserves_multiset() {
    let records: Vec<QuestionRecord> = (0..6)
        .map(|i| QuestionRecord {
            question: format!("question {}", i),
            answer: 1,
            options: vec!["yes".to_string(), "no".to_string()],
        })
        .collect();
    let quiz = Quiz::from_records(&records).unwrap();
    let mut questions = quiz.questions;
    for _ in 0..20 {
        shuffle_questions(&mut questions);
        let mut prompts: Vec<String> = questions.iter().map(|q| q.question.clone()).collect();
        prompts.sort();
        let expected: Vec<String> = (0..6).map(|i| format!("question {}", i)).collect();
        assert_eq!(prompts, expected);
    }
}

#[test]
fn shuffled_session_still_scores_the_tagged_answer() {
    let records = vec![QuestionRecord {
        question: "tagged".to_string(),
        answer: 2,
        options: vec!["w1".to_string(), "right".to_string(), "w2".to_string()],
    }];
    let quiz = Quiz::from_records(&records).unwrap();
    let mut session = Session::new(quiz).unwrap();
    session.shuffle_current_answers();
    let position = get_correct_answer_index(&session.questions[0].answers).unwrap();
    assert_eq!(session.questions[0].answers[position].as_str(), "right");
    let line = format!("{}", position + 1);
    match session.submit(&line) {
        SubmitOutcome::Answered {
            correct,
            correct_position,
        } => {
            assert!(correct);
            assert_eq!(correct_position, position + 1);
        }
        SubmitOutcome::Rejected => panic!("a valid selection was rejected"),
    }
    assert_eq!(session.results.correct, 1);
}

#[test]
fn shuffle_reaches_every_order() {
    // a uniform shuffle of three elements must visit all six orders; two
    // hundred runs make a missing order astronomically unlikely
    let question = Question {
        question: "spread".to_string(),
        answers: vec![
            Answer::CorrectAnswer("a".to_string()),
            Answer::IncorrectAnswer("b".to_string()),
            Answer::IncorrectAnswer("c".to_string()),
        ],
    };
    let mut seen: Vec<String> = Vec::new();
    for _ in 0..200 {
        let shuffled = shuffle_answers(&question);
        let order: String = shuffled.answers.iter().map(|a| a.as_str()).collect();
        if !seen.contains(&order) {
            seen.push(order);
        }
    }
    assert_eq!(seen.len(), 6);
}

#[test]
fn identity_draws_leave_order_unchanged() {
    let mut answers = vec![
        Answer::CorrectAnswer("first".to_string()),
        Answer::IncorrectAnswer("second".to_string()),
        Answer::IncorrectAnswer("third".to_string()),
    ];
    permute_with(&mut answers, &vec![0, 1, 2]);
    assert_eq!(answers[0].as_str(), "first");
    assert_eq!(answers[1].as_str(), "second");
    assert_eq!(answers[2].as_str(), "third");
}

#[test]
fn fixed_draws_give_exact_permutation() {
    let mut answers = vec![
        Answer::CorrectAnswer("a".to_string()),
        Answer::IncorrectAnswer("b".to_string()),
        Answer::IncorrectAnswer("c".to_string()),
    ];
    // position 2 is exchanged with 0, then position 1 with 0
    permute_with(&mut answers, &vec![0, 0, 0]);
    assert_eq!(answers[0].as_str(), "b");
    assert_eq!(answers[1].as_str(), "c");
    assert_eq!(answers[2].as_str(), "a");
    assert!(answers[2].is_correct());
}

#[test]
fn parse_selection_policy() {
    assert_eq!(parse_selection("2", 3), Some(1));
    assert_eq!(parse_selection("  2 \n", 3), Some(1));
    assert_eq!(parse_selection("3\r\n", 3), Some(2));
    assert_eq!(parse_selection("1", 1), Some(0));
    assert_eq!(parse_selection("+2", 3), Some(1));
    assert_eq!(parse_selection("\u{A0}2\u{3000}", 3), Some(1));
    assert_eq!(parse_selection("+", 3), None);
    assert_eq!(parse_selection("++2", 3), None);
    assert_eq!(parse_selection("+ 2", 3), None);
    assert_eq!(parse_selection("abc", 3), None);
    assert_eq!(parse_selection("", 3), None);
    assert_eq!(parse_selection("   ", 3), None);
    assert_eq!(parse_selection("0", 3), None);
    assert_eq!(parse_selection("99", 3), None);
    assert_eq!(parse_selection("4", 3), None);
    assert_eq!(parse_selection("1 2", 3), None);
    assert_eq!(parse_selection("-1", 3), None);
    assert_eq!(parse_selection("99999999999999999999999999999999999999999", 3), None);
}

#[test]
fn decimal_rendering() {
    assert_eq!(decimal_string(0), "0");
    assert_eq!(decimal_string(9), "9");
    assert_eq!(decimal_string(10), "10");
    assert_eq!(decimal_string(100), "100");
    assert_eq!(decimal_string(12345), "12345");
    assert_eq!(
        decimal_string(u128::MAX),
        "340282366920938463463374607431768211455"
    );
}

#[test]
fn default_results_are_zero() {
    let results = Results::default();
    assert_eq!(results.correct, 0);
    assert_eq!(results.incorrect, 0);
}
