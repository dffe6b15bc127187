use quiz_runner::args::get_file_name_from_args;
use quiz_runner::display::{display_question, display_results};
use quiz_runner::model::{get_correct_answer_index, Answer, Question, Quiz, QuestionRecord, QuizError, Results};

#[test]
fn test_get_correct_answer_index() {
    assert_eq!(
        get_correct_answer_index(&vec![
            Answer::CorrectAnswer("answer 1".to_string()),
            Answer::IncorrectAnswer("answer 2".to_string()),
            Answer::IncorrectAnswer("answer 3".to_string()),
        ]),
        Ok(0)
    );

    assert_eq!(
        get_correct_answer_index(&vec![
            Answer::IncorrectAnswer("answer 2".to_string()),
            Answer::CorrectAnswer("answer 1".to_string()),
            Answer::IncorrectAnswer("answer 3".to_string()),
        ]),
        Ok(1)
    );

    assert_eq!(
        get_correct_answer_index(&vec![
            Answer::IncorrectAnswer("answer 2".to_string()),
            Answer::IncorrectAnswer("answer 3".to_string()),
            Answer::CorrectAnswer("answer 1".to_string()),
        ]),
        Ok(2)
    );
}

#[test]
fn test_get_correct_answer_index_missing() {
    assert_eq!(
        get_correct_answer_index(&vec![
            Answer::IncorrectAnswer("answer 1".to_string()),
            Answer::IncorrectAnswer("answer 2".to_string()),
        ]),
        Err(QuizError::CorrectAnswerMissing)
    );
}

#[test]
fn test_display_question() {
    let display_str = display_question(
        "test question",
        &vec![
            Answer::CorrectAnswer("answer 1".to_string()),
            Answer::IncorrectAnswer("answer 2".to_string()),
            Answer::IncorrectAnswer("answer 3".to_string()),
        ],
    );
    assert!(display_str.contains("---"));
    assert!(display_str.contains("test question"));
    assert!(display_str.contains("1 - answer 1"));
    assert!(display_str.contains("2 - answer 2"));
    assert!(display_str.contains("3 - answer 3"));
}

#[test]
fn test_display_results() {
    assert_eq!(
        display_results(&Results {
            correct: 3,
            incorrect: 2
        }),
        "60% correct (3 of 5)"
    );
    assert_eq!(
        display_results(&Results {
            correct: 0,
            incorrect: 0
        }),
        "0% correct (0 of 0)"
    );
}

#[test]
fn test_display_results_truncates() {
    assert_eq!(
        display_results(&Results {
            correct: 1,
            incorrect: 2
        }),
        "33% correct (1 of 3)"
    );
}

#[test]
fn test_get_file_name_from_args() {
    let result = get_file_name_from_args(vec!["script".to_string(), "filename.json".to_string()]);
    assert!(result.is_ok());
    assert_eq!(result, Ok("filename.json".to_string()));

    // exactly one argument is required: an extra argument is an input error
    let result = get_file_name_from_args(vec![
        "script".to_string(),
        "filename.json".to_string(),
        "extra".to_string(),
    ]);
    assert!(!result.is_ok());

    let result = get_file_name_from_args(vec!["script".to_string()]);
    assert!(!result.is_ok());
}

#[test]
fn test_quiz_from_records() {
    let records = vec![QuestionRecord {
        question: "What is 10+10?".to_string(),
        answer: 2,
        options: vec!["10".to_string(), "20".to_string(), "30".to_string()],
    }];
    let quiz = Quiz::from_records(&records).unwrap();
    let question = quiz.questions.first().unwrap();
    assert_eq!(question.question, "What is 10+10?".to_string());

    let answers = &question.answers;
    assert_eq!(answers[0].as_str(), "10");
    assert_eq!(answers[1].as_str(), "20");
    assert_eq!(answers[2].as_str(), "30");
    assert!(matches!(answers[0], Answer::IncorrectAnswer(_)));
    assert!(matches!(answers[1], Answer::CorrectAnswer(_)));
    assert!(matches!(answers[2], Answer::IncorrectAnswer(_)));
}

#[test]
fn test_malformed_question_rejected() {
    // correct-option identifier 0 names no option
    let zero = QuestionRecord {
        question: "q".to_string(),
        answer: 0,
        options: vec!["a".to_string(), "b".to_string()],
    };
    assert_eq!(
        Question::from_record(&zero).map(|q| q.question),
        Err(QuizError::MalformedQuestion)
    );

    // correct-option identifier past the end of the options list
    let too_big = QuestionRecord {
        question: "q".to_string(),
        answer: 3,
        options: vec!["a".to_string(), "b".to_string()],
    };
    assert_eq!(
        Question::from_record(&too_big).map(|q| q.question),
        Err(QuizError::MalformedQuestion)
    );

    // empty options list
    let empty = QuestionRecord {
        question: "q".to_string(),
        answer: 1,
        options: vec![],
    };
    assert_eq!(
        Question::from_record(&empty).map(|q| q.question),
        Err(QuizError::MalformedQuestion)
    );

    // one malformed record is fatal for the whole load
    let records = vec![
        QuestionRecord {
            question: "ok".to_string(),
            answer: 1,
            options: vec!["a".to_string()],
        },
        QuestionRecord {
            question: "bad".to_string(),
            answer: 9,
            options: vec!["a".to_string()],
        },
    ];
    assert_eq!(
        Quiz::from_records(&records).map(|q| q.questions.len()),
        Err(QuizError::MalformedQuestion)
    );
}

#[test]
fn test_error_messages() {
    assert_eq!(QuizError::MalformedQuestion.message(), "Malformed question");
    assert_eq!(
        QuizError::CorrectAnswerMissing.message(),
        "Correct answer not found"
    );
}
