//! The scrambled data generator: fills a container of any catalog shape
//! with pseudo-random comparable values. Generation runs during trial
//! setup, never inside the timed region.

use vstd::prelude::*;

use crate::catalog::Container;
use crate::value::CmpValue;

verus! {

/// Relies on rand::random: one draw from the process-local pseudo-random
/// generator. Nothing can be promised of the value drawn.
#[verifier::external_body]
fn random_bits() -> u64 {
    rand::random::<u64>()
}

/// Draws `n` fresh comparable values from the process-local pseudo-random
/// source. Construction is total: every drawn pattern is a valid value.
pub fn scrambled_values(n: usize) -> (r: Vec<CmpValue>)
    ensures
        r@.len() == n,
{
    let mut out: Vec<CmpValue> = Vec::new();
    let mut i: usize = 0;
    while i < n
        invariant
            i <= n,
            out@.len() == i,
        decreases n - i,
    {
        out.push(CmpValue::new(random_bits()));
        i = i + 1;
    }
    out
}

/// Builds one container of the chosen shape over `n` scrambled values: the
/// result is a well-formed container built, by the shape's own policy, from
/// some sequence of `n` values.
pub fn generate<T: Container>(n: usize) -> (r: T)
    ensures
        r.inv(),
        exists|s: Seq<CmpValue>| s.len() == n && r.contents() == T::build_spec(s),
{
    let vals = scrambled_values(n);
    let ghost s = vals@;
    let r = T::from_values(vals);
    proof {
        assert(s.len() == n && r.contents() == T::build_spec(s));
    }
    r
}

} // verus!
