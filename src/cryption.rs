//! Random identifiers for login sessions.

use vstd::prelude::*;
use rand::Rng;

verus! {

/// The characters an identifier is drawn from: `'0'` up to `'}'`.
pub open spec fn is_id_char(c: char) -> bool {
    48 <= (c as u32) < 126
}

/// Relies on `rand::thread_rng` and `Rng::gen_range`: a byte drawn from
/// `lo..hi`, which panics when that range is empty.
#[verifier::external_body]
fn random_byte(lo: u8, hi: u8) -> (r: u8)
    requires
        lo < hi,
    ensures
        lo <= r < hi,
{
    rand::thread_rng().gen_range(lo..hi)
}

/// A random identifier of `index` characters, each of them an id character.
pub fn get_id(index: usize) -> (r: Vec<char>)
    ensures
        r@.len() == index,
        forall|i: int| 0 <= i < r@.len() ==> is_id_char(#[trigger] r@[i]),
{
    let mut s: Vec<char> = Vec::new();
    let mut k: usize = 0;
    while k < index
        invariant
            k <= index,
            s@.len() == k,
            forall|i: int| 0 <= i < s@.len() ==> is_id_char(#[trigger] s@[i]),
        decreases index - k,
    {
        let b = random_byte(48, 126);
        s.push(b as char);
        k = k + 1;
    }
    s
}

} // verus!
