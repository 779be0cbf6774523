use vstd::prelude::*;

use crate::answer::{answer_matches, check_answer};
use crate::types::{QuestionRecord, RunResult};

verus! {

/// How many of the `answers`, matched in order against the expected answers
/// of the first `answers.len()` records, count as correct.
pub open spec fn count_correct(records: Seq<QuestionRecord>, answers: Seq<Seq<u8>>) -> nat
    recommends
        answers.len() <= records.len(),
    decreases answers.len(),
{
    if answers.len() == 0 {
        0
    } else {
        count_correct(records, answers.drop_last()) + (if answer_matches(
            answers.last(),
            records[answers.len() - 1].answer@,
        ) {
            1nat
        } else {
            0nat
        })
    }
}

/// One quiz run over a fixed sequence of records. The questions are walked
/// front to back; each submitted answer is scored at once; the first timeout
/// stops the run for good, leaving the remaining questions unasked. The
/// caller drives the run with one event per question: a typed answer, or a
/// timeout.
pub struct QuizRun {
    pub records: Vec<QuestionRecord>,
    pub next_index: usize,
    pub correct_count: usize,
    pub stopped: bool,
    pub answers: Ghost<Seq<Seq<u8>>>,
}

impl QuizRun {
    /// One answer has been taken for each question already presented, and
    /// the score counts exactly the correct ones among them.
    pub open spec fn wf(self) -> bool {
        &&& self.next_index <= self.records@.len()
        &&& self.answers@.len() == self.next_index
        &&& self.correct_count == count_correct(self.records@, self.answers@)
        &&& self.correct_count <= self.next_index
    }

    /// Whether a question is still owed: records remain and no timeout has
    /// stopped the run.
    pub open spec fn in_progress(self) -> bool {
        self.next_index < self.records@.len() && !self.stopped
    }

    /// Starts a run over the given records, with nothing answered yet.
    pub fn new(records: Vec<QuestionRecord>) -> (r: QuizRun)
        ensures
            r.wf(),
            r.records == records,
            r.next_index == 0,
            r.correct_count == 0,
            !r.stopped,
            r.answers@ == Seq::<Seq<u8>>::empty(),
    {
        QuizRun {
            records,
            next_index: 0,
            correct_count: 0,
            stopped: false,
            answers: Ghost(Seq::empty()),
        }
    }

    /// The question to present next, or `None` when the run is over.
    pub fn current_question(&self) -> (q: Option<&Vec<u8>>)
        ensures
            match q {
                Some(text) => self.in_progress() && text@ == self.records@[self.next_index as int].question@,
                None => !self.in_progress(),
            },
    {
        if !self.stopped && self.next_index < self.records.len() {
            Some(&self.records[self.next_index].question)
        } else {
            None
        }
    }

    /// Scores one typed answer against the question now due and moves on to
    /// the next question. The answer is correct exactly when, after trimming
    /// its surrounding whitespace, it equals the expected answer byte for
    /// byte, case included.
    pub fn submit_answer(&mut self, given: &Vec<u8>) -> (correct: bool)
        requires
            old(self).wf(),
            old(self).in_progress(),
        ensures
            final(self).wf(),
            correct == answer_matches(
                given@,
                old(self).records@[old(self).next_index as int].answer@,
            ),
            final(self).records == old(self).records,
            final(self).stopped == old(self).stopped,
            final(self).next_index == old(self).next_index + 1,
            final(self).correct_count == old(self).correct_count + (if correct {
                1int
            } else {
                0int
            }),
            final(self).answers@ == old(self).answers@.push(given@),
    {
        // the exec length bounds the counters, so neither one can overflow
        let n = self.records.len();
        assert(self.next_index < n);
        let expected = &self.records[self.next_index].answer;
        let correct = check_answer(given, expected);
        if correct {
            self.correct_count = self.correct_count + 1;
        }
        self.next_index = self.next_index + 1;
        let ghost newans = self.answers@.push(given@);
        self.answers = Ghost(newans);
        proof {
            assert(newans.drop_last() =~= old(self).answers@);
            assert(newans.last() == given@);
        }
        correct
    }

    /// Records that the time limit passed with no answer: the run stops for
    /// good, the questions not yet presented stay unasked, and the score
    /// stands as it is.
    pub fn mark_timeout(&mut self)
        requires
            old(self).wf(),
        ensures
            final(self).wf(),
            final(self).records == old(self).records,
            final(self).next_index == old(self).next_index,
            final(self).correct_count == old(self).correct_count,
            final(self).answers@ == old(self).answers@,
            final(self).stopped,
            !final(self).in_progress(),
    {
        self.stopped = true;
    }

    /// The outcome of the run: the number of correct answers among the
    /// questions actually presented, out of the full count of records that
    /// the quiz held.
    pub fn result(&self) -> (r: RunResult)
        requires
            self.wf(),
        ensures
            r.correct_count == count_correct(self.records@, self.answers@),
            r.total_count == self.records@.len(),
            r.correct_count <= r.total_count,
    {
        RunResult { correct_count: self.correct_count, total_count: self.records.len() }
    }
}

} // verus!
