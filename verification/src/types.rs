use vstd::prelude::*;

verus! {

/// One parsed question/answer pair. Both fields are non-empty byte strings
/// taken from a single delimited line of the quiz file.
#[derive(Debug, PartialEq, Eq, Clone)]
pub struct QuestionRecord {
    pub question: Vec<u8>,
    pub answer: Vec<u8>,
}

impl View for QuestionRecord {
    type V = (Seq<u8>, Seq<u8>);

    open spec fn view(&self) -> (Seq<u8>, Seq<u8>) {
        (self.question@, self.answer@)
    }
}

impl QuestionRecord {
    /// Both fields of a record are non-empty.
    pub open spec fn wf(self) -> bool {
        self.question@.len() > 0 && self.answer@.len() > 0
    }
}

/// Why a quiz file was refused.
#[derive(Clone, Copy, Debug, PartialEq, Eq, Structural)]
pub enum ParseError {
    /// A non-empty line holds no delimiter at all.
    MissingDelimiter,
    /// A line starts with the delimiter, leaving the question empty.
    EmptyQuestion,
    /// Nothing follows the first delimiter on a line, leaving the answer empty.
    EmptyAnswer,
}

impl ParseError {
    /// The diagnostic text for this error.
    pub open spec fn message_spec(self) -> Seq<char> {
        match self {
            ParseError::MissingDelimiter => "a line holds no delimiter between question and answer"@,
            ParseError::EmptyQuestion => "a line has an empty question field"@,
            ParseError::EmptyAnswer => "a line has an empty answer field"@,
        }
    }

    /// A human-readable diagnostic for this error.
    pub fn message(&self) -> (m: &'static str)
        ensures
            m@ == self.message_spec(),
    {
        match self {
            ParseError::MissingDelimiter => "a line holds no delimiter between question and answer",
            ParseError::EmptyQuestion => "a line has an empty question field",
            ParseError::EmptyAnswer => "a line has an empty answer field",
        }
    }
}

/// The outcome of a run: how many answers were correct, out of how many
/// questions the quiz held in all.
#[derive(Clone, Copy, Debug, PartialEq, Eq, Structural)]
pub struct RunResult {
    pub correct_count: usize,
    pub total_count: usize,
}

} // verus!
