use vstd::prelude::*;

use crate::types::{ParseError, QuestionRecord};

verus! {

/// The delimiter between the question and the answer on a line: a comma.
pub const DELIMITER: u8 = 44;

/// The separator between lines: a line feed.
pub const NEWLINE: u8 = 10;

/// A carriage return; one standing at the end of a line belongs to the
/// separator, not to the line.
pub const CARRIAGE_RETURN: u8 = 13;

/// The index of the first occurrence of `b` in `s`, or `s.len()` when `b`
/// does not occur.
pub open spec fn find_byte(s: Seq<u8>, b: u8) -> int
    decreases s.len(),
{
    if s.len() == 0 {
        0
    } else if s[0] == b {
        0
    } else {
        1 + find_byte(s.drop_first(), b)
    }
}

/// An index below which `b` does not occur, and which lands on `b` or at the
/// end, is exactly what `find_byte` returns.
pub proof fn lemma_find_byte_at(s: Seq<u8>, b: u8, k: int)
    requires
        0 <= k <= s.len(),
        forall|j: int| 0 <= j < k ==> s[j] != b,
        k < s.len() ==> s[k] == b,
    ensures
        find_byte(s, b) == k,
    decreases s.len(),
{
    if s.len() == 0 {
    } else if s[0] == b {
        assert(k == 0);
    } else {
        assert(k >= 1) by {
            if k == 0 {
                assert(s[0] == b);
            }
        }
        assert forall|j: int| 0 <= j < k - 1 implies s.drop_first()[j] != b by {
            assert(s[j + 1] != b);
        }
        if k - 1 < s.drop_first().len() {
            assert(s.drop_first()[k - 1] == s[k]);
        }
        lemma_find_byte_at(s.drop_first(), b, k - 1);
    }
}

/// A line with its trailing carriage return, if any, removed.
pub open spec fn strip_cr(line: Seq<u8>) -> Seq<u8> {
    if line.len() > 0 && line.last() == CARRIAGE_RETURN {
        line.drop_last()
    } else {
        line
    }
}

/// How one non-empty line is read: the text before the first delimiter is
/// the question, everything after it (further delimiters included) is the
/// answer; a line with no delimiter, an empty question or an empty answer
/// is refused.
pub open spec fn parse_line(line: Seq<u8>) -> Result<(Seq<u8>, Seq<u8>), ParseError> {
    let p = find_byte(line, DELIMITER);
    if p == line.len() {
        Err(ParseError::MissingDelimiter)
    } else if p == 0 {
        Err(ParseError::EmptyQuestion)
    } else if p + 1 == line.len() {
        Err(ParseError::EmptyAnswer)
    } else {
        Ok((line.take(p), line.skip(p + 1)))
    }
}

/// The records of a whole file, in file order: lines are separated by line
/// feeds, a trailing carriage return belongs to the separator, empty lines
/// are skipped, and the first ill-formed line decides the error.
pub open spec fn parse_content(s: Seq<u8>) -> Result<Seq<(Seq<u8>, Seq<u8>)>, ParseError>
    decreases s.len(),
{
    if s.len() == 0 {
        Ok(Seq::empty())
    } else {
        let e = find_byte(s, NEWLINE);
        let line = strip_cr(s.take(e));
        let rest = if 0 <= e < s.len() {
            s.skip(e + 1)
        } else {
            Seq::<u8>::empty()
        };
        let tail = parse_content(rest);
        if line.len() == 0 {
            tail
        } else {
            match parse_line(line) {
                Ok(rec) => match tail {
                    Ok(t) => Ok(seq![rec] + t),
                    Err(err) => Err(err),
                },
                Err(err) => Err(err),
            }
        }
    }
}

/// How many non-empty lines the file holds; each of them yields one record.
pub open spec fn nonempty_line_count(s: Seq<u8>) -> nat
    decreases s.len(),
{
    if s.len() == 0 {
        0
    } else {
        let e = find_byte(s, NEWLINE);
        let line = strip_cr(s.take(e));
        let rest = if 0 <= e < s.len() {
            s.skip(e + 1)
        } else {
            Seq::<u8>::empty()
        };
        (if line.len() == 0 { 0nat } else { 1nat }) + nonempty_line_count(rest)
    }
}

/// Parses the bytes of a whole quiz file into its records, in file order,
/// or reports why the first ill-formed line was refused.
#[verifier::rlimit(100)]
pub fn parse_quiz(content: &Vec<u8>) -> (r: Result<Vec<QuestionRecord>, ParseError>)
    ensures
        match r {
            Ok(records) => {
                &&& parse_content(content@) == Ok::<_, ParseError>(
                    records@.map_values(|q: QuestionRecord| q@),
                )
                &&& forall|i: int| 0 <= i < records@.len() ==> (#[trigger] records@[i]).wf()
            },
            Err(e) => parse_content(content@) == Err::<Seq<(Seq<u8>, Seq<u8>)>, ParseError>(e),
        },
{
    let n: usize = content.len();
    let mut pos: usize = 0;
    let mut records: Vec<QuestionRecord> = Vec::new();
    proof {
        let f = |q: QuestionRecord| q@;
        assert(content@.skip(0) =~= content@);
        assert(records@.map_values(f) =~= Seq::<(Seq<u8>, Seq<u8>)>::empty());
        if parse_content(content@) is Ok {
            assert(records@.map_values(f) + parse_content(content@)->Ok_0 =~= parse_content(
                content@,
            )->Ok_0);
        }
    }
    while pos < n
        invariant
            n == content@.len(),
            0 <= pos <= n,
            forall|i: int| 0 <= i < records@.len() ==> (#[trigger] records@[i]).wf(),
            ({
                let done = records@.map_values(|q: QuestionRecord| q@);
                match parse_content(content@.skip(pos as int)) {
                    Ok(t) => parse_content(content@) == Ok::<_, ParseError>(done + t),
                    Err(e) => parse_content(content@) == Err::<
                        Seq<(Seq<u8>, Seq<u8>)>,
                        ParseError,
                    >(e),
                }
            }),
        decreases n - pos,
    {
        let ghost s = content@.skip(pos as int);
        let ghost records0 = records@;
        // find the end of the current line
        let mut j: usize = pos;
        while j < n && content[j] != NEWLINE
            invariant
                n == content@.len(),
                pos <= j <= n,
                forall|k: int| pos <= k < j ==> content@[k] != NEWLINE,
            decreases n - j,
        {
            j = j + 1;
        }
        proof {
            assert forall|m: int| 0 <= m < j - pos implies s[m] != NEWLINE by {
                assert(s[m] == content@[pos + m]);
            }
            if j - pos < s.len() {
                assert(s[j - pos] == content@[j as int]);
            }
            lemma_find_byte_at(s, NEWLINE, j - pos);
        }
        // a carriage return at the end of the line belongs to the separator
        let mut line_end: usize = j;
        if line_end > pos && content[line_end - 1] == CARRIAGE_RETURN {
            line_end = line_end - 1;
        }
        let ghost line = strip_cr(s.take(j - pos));
        proof {
            assert(s.take(j - pos) =~= content@.subrange(pos as int, j as int));
            assert(line =~= content@.subrange(pos as int, line_end as int));
        }
        if line_end > pos {
            // a non-empty line: find the delimiter
            let mut p: usize = pos;
            while p < line_end && content[p] != DELIMITER
                invariant
                    n == content@.len(),
                    pos <= p <= line_end <= n,
                    forall|k: int| pos <= k < p ==> content@[k] != DELIMITER,
                decreases line_end - p,
            {
                p = p + 1;
            }
            proof {
                assert forall|m: int| 0 <= m < p - pos implies line[m] != DELIMITER by {
                    assert(line[m] == content@[pos + m]);
                }
                if p - pos < line.len() {
                    assert(line[p - pos] == content@[p as int]);
                }
                lemma_find_byte_at(line, DELIMITER, p - pos);
            }
            if p == line_end {
                proof {
                    assert(parse_line(line) == Err::<(Seq<u8>, Seq<u8>), ParseError>(
                        ParseError::MissingDelimiter,
                    ));
                    assert(parse_content(s) == Err::<Seq<(Seq<u8>, Seq<u8>)>, ParseError>(
                        ParseError::MissingDelimiter,
                    ));
                }
                return Err(ParseError::MissingDelimiter);
            }
            if p == pos {
                proof {
                    assert(parse_line(line) == Err::<(Seq<u8>, Seq<u8>), ParseError>(
                        ParseError::EmptyQuestion,
                    ));
                    assert(parse_content(s) == Err::<Seq<(Seq<u8>, Seq<u8>)>, ParseError>(
                        ParseError::EmptyQuestion,
                    ));
                }
                return Err(ParseError::EmptyQuestion);
            }
            if p + 1 == line_end {
                proof {
                    assert(parse_line(line) == Err::<(Seq<u8>, Seq<u8>), ParseError>(
                        ParseError::EmptyAnswer,
                    ));
                    assert(parse_content(s) == Err::<Seq<(Seq<u8>, Seq<u8>)>, ParseError>(
                        ParseError::EmptyAnswer,
                    ));
                }
                return Err(ParseError::EmptyAnswer);
            }
            // copy out the two fields
            let mut question: Vec<u8> = Vec::new();
            let mut k: usize = pos;
            while k < p
                invariant
                    n == content@.len(),
                    pos <= k <= p <= n,
                    question@ == content@.subrange(pos as int, k as int),
                decreases p - k,
            {
                question.push(content[k]);
                proof {
                    assert(content@.subrange(pos as int, k + 1) =~= content@.subrange(
                        pos as int,
                        k as int,
                    ).push(content@[k as int]));
                }
                k = k + 1;
            }
            let mut answer: Vec<u8> = Vec::new();
            let mut m: usize = p + 1;
            while m < line_end
                invariant
                    n == content@.len(),
                    p + 1 <= m <= line_end <= n,
                    answer@ == content@.subrange(p as int + 1, m as int),
                decreases line_end - m,
            {
                answer.push(content[m]);
                proof {
                    assert(content@.subrange(p as int + 1, m + 1) =~= content@.subrange(
                        p as int + 1,
                        m as int,
                    ).push(content@[m as int]));
                }
                m = m + 1;
            }
            proof {
                assert(question@ =~= line.take(p - pos));
                assert(answer@ =~= line.skip(p - pos + 1));
                assert(parse_line(line) == Ok::<_, ParseError>((question@, answer@)));
            }
            let rec = QuestionRecord { question, answer };
            records.push(rec);
            proof {
                let f = |q: QuestionRecord| q@;
                assert(rec.wf());
                assert(records@ == records0.push(rec));
                assert(records@.map_values(f) =~= records0.map_values(f).push(rec@));
                assert(parse_line(line) == Ok::<_, ParseError>(rec@));
                assert forall|i: int| 0 <= i < records@.len() implies (
                #[trigger] records@[i]).wf() by {
                    if i < records0.len() {
                        assert(records0[i].wf());
                    }
                }
            }
        }
        // advance past the separator, re-establishing the loop invariant
        proof {
            let f = |q: QuestionRecord| q@;
            let e = find_byte(s, NEWLINE);
            let rest = if 0 <= e < s.len() {
                s.skip(e + 1)
            } else {
                Seq::<u8>::empty()
            };
            if j < n {
                assert(rest =~= content@.skip(j + 1));
            } else {
                assert(content@.skip(n as int) =~= Seq::<u8>::empty());
            }
            if line.len() == 0 || parse_content(rest) is Err {
                assert(parse_content(s) == parse_content(rest));
            } else {
                let done0 = records0.map_values(f);
                let done1 = records@.map_values(f);
                let t = parse_content(rest)->Ok_0;
                let recv = done1.last();
                assert(parse_content(s) == Ok::<_, ParseError>(seq![recv] + t));
                assert(done0 + (seq![recv] + t) =~= done1 + t);
            }
        }
        if j < n {
            pos = j + 1;
        } else {
            pos = n;
        }
    }
    proof {
        let f = |q: QuestionRecord| q@;
        assert(content@.skip(n as int) =~= Seq::<u8>::empty());
        assert(records@.map_values(f) + Seq::<(Seq<u8>, Seq<u8>)>::empty() =~= records@.map_values(
            f,
        ));
    }
    Ok(records)
}

/// A file that loads without error yields exactly one record per non-empty
/// line of the file.
pub proof fn lemma_loader_record_count(s: Seq<u8>)
    requires
        parse_content(s) is Ok,
    ensures
        parse_content(s)->Ok_0.len() == nonempty_line_count(s),
    decreases s.len(),
{
    if s.len() == 0 {
    } else {
        let e = find_byte(s, NEWLINE);
        let rest = if 0 <= e < s.len() {
            s.skip(e + 1)
        } else {
            Seq::<u8>::empty()
        };
        lemma_loader_record_count(rest);
    }
}

} // verus!
