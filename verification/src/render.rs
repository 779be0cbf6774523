use vstd::prelude::*;

use crate::types::RunResult;

verus! {

/// The ASCII bytes of `"Score: "`.
pub open spec fn summary_prefix() -> Seq<u8> {
    seq![83u8, 99u8, 111u8, 114u8, 101u8, 58u8, 32u8]
}

/// The ASCII bytes of `" / "`.
pub open spec fn summary_separator() -> Seq<u8> {
    seq![32u8, 47u8, 32u8]
}

/// The decimal digits of `n`, most significant first, as ASCII bytes,
/// without leading zeros (a lone zero for zero itself).
pub open spec fn decimal_digits(n: nat) -> Seq<u8>
    decreases n,
{
    if n < 10 {
        seq![(48 + n) as u8]
    } else {
        decimal_digits(n / 10).push((48 + n % 10) as u8)
    }
}

/// The summary line of a finished run, in the exact form
/// `Score: <correct> / <total>`, as ASCII bytes.
pub open spec fn summary_line_spec(correct: nat, total: nat) -> Seq<u8> {
    summary_prefix() + decimal_digits(correct) + summary_separator() + decimal_digits(total)
}

/// Writes the decimal digits of `n` onto the end of `out`.
fn push_decimal(out: &mut Vec<u8>, n: usize)
    ensures
        final(out)@ == old(out)@ + decimal_digits(n as nat),
    decreases n,
{
    if n < 10 {
        out.push(48 + (n as u8));
        proof {
            assert(out@ =~= old(out)@ + decimal_digits(n as nat));
        }
    } else {
        push_decimal(out, n / 10);
        out.push(48 + ((n % 10) as u8));
        proof {
            assert(out@ =~= old(out)@ + decimal_digits(n as nat));
        }
    }
}

impl RunResult {
    /// The summary line reporting this outcome, byte for byte.
    pub fn summary_line(&self) -> (r: Vec<u8>)
        ensures
            r@ == summary_line_spec(self.correct_count as nat, self.total_count as nat),
    {
        let mut out: Vec<u8> = Vec::new();
        out.push(83);
        out.push(99);
        out.push(111);
        out.push(114);
        out.push(101);
        out.push(58);
        out.push(32);
        proof {
            assert(out@ =~= summary_prefix());
        }
        push_decimal(&mut out, self.correct_count);
        out.push(32);
        out.push(47);
        out.push(32);
        proof {
            assert(out@ =~= summary_prefix() + decimal_digits(self.correct_count as nat)
                + summary_separator());
        }
        push_decimal(&mut out, self.total_count);
        proof {
            assert(out@ =~= summary_line_spec(
                self.correct_count as nat,
                self.total_count as nat,
            ));
        }
        out
    }
}

} // verus!
