use timed_quiz::loader::parse_quiz;
use timed_quiz::types::ParseError;

#[test]
fn two_records_in_file_order() {
    let content = b"2+2=?,4\nCapital of France?,Paris\n".to_vec();
    let records = parse_quiz(&content).unwrap();
    assert_eq!(records.len(), 2);
    assert_eq!(records[0].question, b"2+2=?".to_vec());
    assert_eq!(records[0].answer, b"4".to_vec());
    assert_eq!(records[1].question, b"Capital of France?".to_vec());
    assert_eq!(records[1].answer, b"Paris".to_vec());
}

#[test]
fn empty_file_gives_no_records() {
    let content = Vec::new();
    let records = parse_quiz(&content).unwrap();
    assert_eq!(records.len(), 0);
}

#[test]
fn trailing_blank_line_is_not_a_record() {
    let content = b"a,b\n".to_vec();
    let records = parse_quiz(&content).unwrap();
    assert_eq!(records.len(), 1);
}

#[test]
fn blank_lines_are_skipped() {
    let content = b"a,b\n\nc,d\n\n".to_vec();
    let records = parse_quiz(&content).unwrap();
    assert_eq!(records.len(), 2);
    assert_eq!(records[1].question, b"c".to_vec());
    assert_eq!(records[1].answer, b"d".to_vec());
}

#[test]
fn carriage_returns_belong_to_the_separator() {
    let content = b"a,b\r\nc,d\r\n".to_vec();
    let records = parse_quiz(&content).unwrap();
    assert_eq!(records.len(), 2);
    assert_eq!(records[0].answer, b"b".to_vec());
    assert_eq!(records[1].answer, b"d".to_vec());
}

#[test]
fn extra_delimiters_fold_into_the_answer() {
    let content = b"q,a,b".to_vec();
    let records = parse_quiz(&content).unwrap();
    assert_eq!(records.len(), 1);
    assert_eq!(records[0].question, b"q".to_vec());
    assert_eq!(records[0].answer, b"a,b".to_vec());
}

#[test]
fn line_without_delimiter_is_refused() {
    let content = b"justaquestion".to_vec();
    assert_eq!(parse_quiz(&content), Err(ParseError::MissingDelimiter));
}

#[test]
fn later_malformed_line_is_refused() {
    let content = b"a,b\njustaquestion\n".to_vec();
    assert_eq!(parse_quiz(&content), Err(ParseError::MissingDelimiter));
}

#[test]
fn first_bad_line_decides_the_error() {
    let content = b"justaquestion\n,x\n".to_vec();
    assert_eq!(parse_quiz(&content), Err(ParseError::MissingDelimiter));
}

#[test]
fn empty_question_is_refused() {
    let content = b",x\n".to_vec();
    assert_eq!(parse_quiz(&content), Err(ParseError::EmptyQuestion));
}

#[test]
fn empty_answer_is_refused() {
    let content = b"q,\n".to_vec();
    assert_eq!(parse_quiz(&content), Err(ParseError::EmptyAnswer));
}

#[test]
fn error_messages_name_the_fault() {
    assert_eq!(
        ParseError::MissingDelimiter.message(),
        "a line holds no delimiter between question and answer"
    );
    assert_eq!(ParseError::EmptyQuestion.message(), "a line has an empty question field");
    assert_eq!(ParseError::EmptyAnswer.message(), "a line has an empty answer field");
}
