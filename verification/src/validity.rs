//! The host's check of a solution, by the `equihash` crate.

use vstd::prelude::*;

verus! {

/// Whether `equihash::is_valid_solution` accepts `soln` as a solution of the
/// Equihash puzzle with the parameters `(n, k)` for the input block `input`
/// and the nonce `nonce`.
pub uninterp spec fn equihash_accepts(
    n: u32,
    k: u32,
    input: Seq<u8>,
    nonce: Seq<u8>,
    soln: Seq<u8>,
) -> bool;

/// Calls `equihash::is_valid_solution`. Its verdict depends on the five
/// arguments alone, and is what [`equihash_accepts`] names; the contract says
/// nothing of what makes a solution valid. For (96, 5) the call returns on
/// every input, whatever the length of `soln`.
#[verifier::external_body]
pub(crate) fn is_valid_solution(n: u32, k: u32, input: &[u8], nonce: &[u8], soln: &[u8]) -> (valid:
    bool)
    requires
        crate::gpu::takes_params(n, k),
    ensures
        valid == equihash_accepts(n, k, input@, nonce@, soln@),
{
    equihash::is_valid_solution(n, k, input, nonce, soln).is_ok()
}

} // verus!
