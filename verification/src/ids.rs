//! Minting of short opaque connection identifiers.
//!
//! Identifiers are drawn uniformly from a 32-character alphabet chosen to
//! avoid visually ambiguous symbols (no `I`, `O`, `0`, `1`). Collisions are
//! the caller's concern; the client registry rejects a duplicate identifier
//! on insert.

use vstd::prelude::*;
use tinyrand::RandRange;

verus! {

/// The 32 symbols an identifier may be built from.
pub open spec fn id_alphabet() -> Seq<char> {
    "ABCDEFGHJKLMNPQRSTUVWXYZ23456789"@
}

/// Relies on `tinyrand_std::thread_rand` and
/// `tinyrand::RandRange::<usize>::next_range`: the draw lies in
/// `0..bound`, and the call returns normally whenever the range is
/// non-empty. Nothing is promised about which value comes back.
#[verifier::external_body]
fn rand_below(bound: usize) -> (r: usize)
    requires
        bound > 0,
    ensures
        r < bound,
{
    tinyrand_std::thread_rand().next_range(0..bound)
}

/// Mint one identifier of the requested length, every character drawn
/// from the fixed alphabet.
pub fn mini_id(length: usize) -> (r: String)
    ensures
        r@.len() == length,
        forall|i: int| 0 <= i < r@.len() ==> id_alphabet().contains(#[trigger] r@[i]),
{
    let alphabet: &str = "ABCDEFGHJKLMNPQRSTUVWXYZ23456789";
    proof {
        reveal_strlit("ABCDEFGHJKLMNPQRSTUVWXYZ23456789");
    }
    let n = alphabet.unicode_len();
    let mut id = String::new();
    let mut produced: usize = 0;
    while produced < length
        invariant
            alphabet@ == id_alphabet(),
            n == alphabet@.len(),
            n == 32,
            produced <= length,
            id@.len() == produced,
            forall|i: int| 0 <= i < id@.len() ==> id_alphabet().contains(#[trigger] id@[i]),
        decreases length - produced,
    {
        let idx = rand_below(n);
        let ch = alphabet.substring_char(idx, idx + 1);
        proof {
            assert(ch@[0] == id_alphabet()[idx as int]);
            assert(id_alphabet().contains(ch@[0]));
        }
        id.append(ch);
        produced = produced + 1;
    }
    id
}

} // verus!
