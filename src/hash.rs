//! A djb2-style string hash for fingerprint consumers.

use vstd::prelude::*;
use vstd::wrapping::u64_specs::{wrapping_add, wrapping_mul};

verus! {

/// The hash of `s`: starting from 22, each character `c` takes `h` to
/// `33 * h + c`, modulo 2^64.
pub open spec fn spec_djb2(s: Seq<char>) -> u64
    decreases s.len(),
{
    if s.len() == 0 {
        22
    } else {
        wrapping_add(wrapping_mul(spec_djb2(s.drop_last()), 33), s.last() as u32 as u64)
    }
}

pub fn djb2_hash(input: &str) -> (r: u64)
    ensures
        r == spec_djb2(input@),
{
    let n = input.unicode_len();
    let mut hash: u64 = 22;
    let mut i: usize = 0;
    while i < n
        invariant
            n == input@.len(),
            i <= n,
            hash == spec_djb2(input@.take(i as int)),
        decreases n - i,
    {
        let ch = input.get_char(i);
        proof {
            assert(input@.take(i as int + 1).drop_last() =~= input@.take(i as int));
        }
        hash = hash.wrapping_mul(33).wrapping_add(ch as u32 as u64);
        i += 1;
    }
    assert(input@.take(n as int) =~= input@);
    hash
}

} // verus!
