use vstd::prelude::*;

use crate::types::QuestionRecord;

verus! {

broadcast use vstd::seq_lib::group_to_multiset_ensures;

/// Declares rand::rngs::ThreadRng, the thread-local generator seeded from
/// system entropy, so that a handle to it can stand in signatures here; the
/// library never looks inside it.
#[verifier::external_type_specification]
#[verifier::external_body]
pub struct ExThreadRng(rand::rngs::ThreadRng);

/// Relies on rand::RngExt::random_range over the exclusive range `0..n`:
/// the result lies in that range. The call panics when the range is empty,
/// so `n` must be positive.
#[verifier::external_body]
fn random_below(rng: &mut rand::rngs::ThreadRng, n: usize) -> (r: usize)
    requires
        n > 0,
    ensures
        r < n,
{
    rand::RngExt::random_range(rng, 0..n)
}

/// Returns the given records in a random order: the same records, each
/// occurring the same number of times as before, whatever values the random
/// source yields. A sequence of length zero or one comes back unchanged.
pub fn shuffle(rng: &mut rand::rngs::ThreadRng, records: Vec<QuestionRecord>) -> (r: Vec<
    QuestionRecord,
>)
    ensures
        r@.to_multiset() == records@.to_multiset(),
        r@.len() == records@.len(),
{
    let ghost orig = records@;
    let mut remaining = records;
    let mut out: Vec<QuestionRecord> = Vec::new();
    proof {
        assert(out@.to_multiset().add(remaining@.to_multiset()) =~= orig.to_multiset());
    }
    while remaining.len() > 0
        invariant
            out@.to_multiset().add(remaining@.to_multiset()) == orig.to_multiset(),
            out@.len() + remaining@.len() == orig.len(),
        decreases remaining@.len(),
    {
        let ghost out0 = out@;
        let ghost rem0 = remaining@;
        let idx = random_below(rng, remaining.len());
        let rec = remaining.remove(idx);
        out.push(rec);
        proof {
            assert(rem0.contains(rec));
            assert(out@.to_multiset().add(remaining@.to_multiset()) =~= orig.to_multiset());
        }
    }
    proof {
        assert(out@.to_multiset().add(remaining@.to_multiset()) =~= out@.to_multiset());
    }
    out
}

} // verus!
