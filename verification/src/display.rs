//! Line-oriented rendering of a question with its enumerated answers and of
//! the cumulative results.

use vstd::prelude::*;
use vstd::string::StringExecFns;
use crate::decimal::{dec_rep, decimal_string};
use crate::model::{Answer, AnswerView, Results};

verus! {

/// One presented answer line: its 1-based number, a separator, the answer's
/// text, and a blank line.
pub open spec fn spec_answer_line(num: nat, text: Seq<char>) -> Seq<char> {
    dec_rep(num) + " - "@ + text + "\n\n"@
}

/// All answer lines, enumerated from 1 in presentation order.
pub open spec fn spec_answer_lines(answers: Seq<AnswerView>) -> Seq<char>
    decreases answers.len(),
{
    if answers.len() == 0 {
        Seq::empty()
    } else {
        spec_answer_lines(answers.drop_last()) + spec_answer_line(
            answers.len() as nat,
            answers.last().text,
        )
    }
}

/// The full question block: a separator, the prompt, and the answer lines.
pub open spec fn spec_display_question(prompt: Seq<char>, answers: Seq<AnswerView>) -> Seq<char> {
    "---\n\n"@ + prompt + "\n\n"@ + spec_answer_lines(answers)
}

/// Render one question: the prompt appears once, then every answer's text
/// exactly once, 1-based enumerated, in the given (possibly shuffled) order.
pub fn display_question(question: &str, answers: &[Answer]) -> (r: String)
    ensures
        r@ == spec_display_question(question@, answers.deep_view()),
{
    let mut r = String::from_str("---\n\n");
    r.append(question);
    r.append("\n\n");
    let n = answers.len();
    let mut i: usize = 0;
    while i < n
        invariant
            n == answers@.len(),
            i <= n,
            r@ == "---\n\n"@ + question@ + "\n\n"@ + spec_answer_lines(
                answers.deep_view().subrange(0, i as int),
            ),
        decreases n - i,
    {
        let num = decimal_string((i + 1) as u128);
        r.append(num.as_str());
        r.append(" - ");
        r.append(answers[i].as_str());
        r.append("\n\n");
        proof {
            let pre = answers.deep_view().subrange(0, i as int);
            let cur = answers.deep_view().subrange(0, i + 1 as int);
            assert(cur.drop_last() =~= pre);
            assert(cur.last() == answers.deep_view()[i as int]);
            assert(r@ =~= "---\n\n"@ + question@ + "\n\n"@ + spec_answer_lines(cur));
        }
        i = i + 1;
    }
    proof {
        assert(answers.deep_view().subrange(0, n as int) =~= answers.deep_view());
        assert(r@ =~= spec_display_question(question@, answers.deep_view()));
    }
    r
}

/// The percentage policy: zero when nothing was processed, else the integer
/// (truncating) quotient of `100 * correct` by the total.
pub open spec fn spec_percent(correct: nat, incorrect: nat) -> nat {
    if correct + incorrect == 0 {
        0
    } else {
        (100 * correct) / (correct + incorrect)
    }
}

/// The results line: percentage, then `correct` of `total`.
pub open spec fn spec_display_results(correct: nat, incorrect: nat) -> Seq<char> {
    dec_rep(spec_percent(correct, incorrect)) + "% correct ("@ + dec_rep(correct) + " of "@
        + dec_rep((correct + incorrect) as nat) + ")"@
}

/// Render the cumulative results.
pub fn display_results(results: &Results) -> (r: String)
    ensures
        r@ == spec_display_results(results.correct as nat, results.incorrect as nat),
{
    let c = results.correct as u128;
    let total = c + (results.incorrect as u128);
    let percent: u128 = if total == 0 {
        0
    } else {
        (100 * c) / total
    };
    let mut r = decimal_string(percent);
    r.append("% correct (");
    let cs = decimal_string(c);
    r.append(cs.as_str());
    r.append(" of ");
    let ts = decimal_string(total);
    r.append(ts.as_str());
    r.append(")");
    assert(r@ =~= spec_display_results(results.correct as nat, results.incorrect as nat));
    r
}

} // verus!
