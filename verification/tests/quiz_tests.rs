use timed_quiz::answer::{check_answer, trim_bytes};
use timed_quiz::loader::parse_quiz;
use timed_quiz::runner::QuizRun;
use timed_quiz::shuffle::shuffle;
use timed_quiz::types::{QuestionRecord, RunResult};

fn record(question: &[u8], answer: &[u8]) -> QuestionRecord {
    QuestionRecord { question: question.to_vec(), answer: answer.to_vec() }
}

#[test]
fn exact_answer_matches() {
    assert!(check_answer(&b"Paris".to_vec(), &b"Paris".to_vec()));
}

#[test]
fn case_differs_no_match_even_with_space() {
    assert!(!check_answer(&b" paris".to_vec(), &b"Paris".to_vec()));
}

#[test]
fn surrounding_whitespace_is_trimmed() {
    assert!(check_answer(&b" Paris ".to_vec(), &b"Paris".to_vec()));
}

#[test]
fn newline_from_the_typed_line_is_trimmed() {
    assert!(check_answer(&b"4\n".to_vec(), &b"4".to_vec()));
}

#[test]
fn inner_whitespace_is_kept() {
    assert!(check_answer(&b" new york ".to_vec(), &b"new york".to_vec()));
    assert!(!check_answer(&b"newyork".to_vec(), &b"new york".to_vec()));
}

#[test]
fn trim_removes_only_the_edges() {
    assert_eq!(trim_bytes(&b"\t a b \n".to_vec()), b"a b".to_vec());
    assert_eq!(trim_bytes(&b"   ".to_vec()), Vec::<u8>::new());
    assert_eq!(trim_bytes(&Vec::new()), Vec::<u8>::new());
}

#[test]
fn shuffle_keeps_every_record() {
    let records = vec![record(b"q1", b"a1"), record(b"q2", b"a2"), record(b"q3", b"a3")];
    let mut rng = rand::rng();
    let shuffled = shuffle(&mut rng, records.clone());
    assert_eq!(shuffled.len(), 3);
    for r in &records {
        let occurrences = shuffled.iter().filter(|s| *s == r).count();
        assert_eq!(occurrences, 1);
    }
}

#[test]
fn shuffle_moves_every_record_to_the_front_eventually() {
    let records = vec![record(b"q1", b"a1"), record(b"q2", b"a2"), record(b"q3", b"a3")];
    let mut rng = rand::rng();
    let mut front_counts = [0usize; 3];
    for _ in 0..120 {
        let shuffled = shuffle(&mut rng, records.clone());
        for (i, r) in records.iter().enumerate() {
            if shuffled[0] == *r {
                front_counts[i] += 1;
            }
        }
    }
    // a uniform shuffle leaves each record in front about a third of the
    // time; a shuffle that kept or fixed the order would fail this
    for count in front_counts {
        assert!(count > 0);
    }
}

#[test]
fn shuffle_of_nothing_or_one_is_a_no_op() {
    let mut rng = rand::rng();
    let none = shuffle(&mut rng, Vec::new());
    assert_eq!(none.len(), 0);
    let one = shuffle(&mut rng, vec![record(b"q", b"a")]);
    assert_eq!(one, vec![record(b"q", b"a")]);
}

#[test]
fn timeout_truncates_the_run() {
    let records = vec![record(b"Q1", b"a"), record(b"Q2", b"b"), record(b"Q3", b"c")];
    let mut run = QuizRun::new(records);
    assert_eq!(run.current_question().cloned(), Some(b"Q1".to_vec()));
    run.mark_timeout();
    assert_eq!(run.current_question(), None);
    let result = run.result();
    assert_eq!(result.correct_count, 0);
    assert_eq!(result.total_count, 3);
}

#[test]
fn full_run_scores_two_of_two() {
    let content = b"2+2=?,4\nCapital of France?,Paris\n".to_vec();
    let records = parse_quiz(&content).unwrap();
    let mut run = QuizRun::new(records);
    assert_eq!(run.current_question().cloned(), Some(b"2+2=?".to_vec()));
    assert!(run.submit_answer(&b"4".to_vec()));
    assert_eq!(run.current_question().cloned(), Some(b"Capital of France?".to_vec()));
    assert!(run.submit_answer(&b"Paris".to_vec()));
    assert_eq!(run.current_question(), None);
    let result = run.result();
    let line = String::from_utf8(result.summary_line()).unwrap();
    assert_eq!(line, "Score: 2 / 2");
}

#[test]
fn summary_line_has_the_exact_form() {
    let zero = RunResult { correct_count: 0, total_count: 3 };
    assert_eq!(zero.summary_line(), b"Score: 0 / 3".to_vec());
    let wide = RunResult { correct_count: 12, total_count: 105 };
    assert_eq!(wide.summary_line(), b"Score: 12 / 105".to_vec());
    let empty = RunResult { correct_count: 0, total_count: 0 };
    assert_eq!(empty.summary_line(), b"Score: 0 / 0".to_vec());
}

#[test]
fn wrong_answer_still_advances() {
    let records = vec![record(b"Q1", b"a"), record(b"Q2", b"b")];
    let mut run = QuizRun::new(records);
    assert!(!run.submit_answer(&b"wrong".to_vec()));
    assert_eq!(run.current_question().cloned(), Some(b"Q2".to_vec()));
    assert!(run.submit_answer(&b" b ".to_vec()));
    let result = run.result();
    assert_eq!(result.correct_count, 1);
    assert_eq!(result.total_count, 2);
}

#[test]
fn timeout_after_one_answer_keeps_the_score() {
    let records = vec![record(b"Q1", b"a"), record(b"Q2", b"b"), record(b"Q3", b"c")];
    let mut run = QuizRun::new(records);
    assert!(run.submit_answer(&b"a".to_vec()));
    run.mark_timeout();
    assert_eq!(run.current_question(), None);
    let result = run.result();
    assert_eq!(result.correct_count, 1);
    assert_eq!(result.total_count, 3);
}
