//! FNV-1a 64-bit fingerprints of text and of canonical prints.
use vstd::prelude::*;
use crate::sexpr::{Sexpr, print_v};
use crate::text::{int_decimal, owned, push_i64_decimal};

verus! {

pub const FNV_OFFSET: u64 = 0xCBF29CE484222325;

pub const FNV_PRIME: u64 = 1099511628211;

/// One FNV-1a step: xor the byte in, then multiply modulo 2^64.
pub open spec fn fnv_step(h: u64, b: u8) -> u64 {
    (((h ^ (b as u64)) as nat * FNV_PRIME as nat) % 0x1_0000_0000_0000_0000) as u64
}

/// FNV-1a 64 over a byte sequence.
pub open spec fn fnv1a64(bs: Seq<u8>) -> u64
    decreases bs.len(),
{
    if bs.len() == 0 {
        FNV_OFFSET
    } else {
        fnv_step(fnv1a64(bs.drop_last()), bs.last())
    }
}

/// `"fnv1a64:"` followed by the hash of the UTF-8 bytes of `t`, printed
/// as a signed 64-bit integer.
pub open spec fn fingerprint_text(t: Seq<char>) -> Seq<char> {
    seq!['f', 'n', 'v', '1', 'a', '6', '4', ':']
        + int_decimal((fnv1a64(vstd::utf8::encode_utf8(t)) as i64) as int)
}

/// FNV-1a 64 over the UTF-8 bytes of `text`, formatted as
/// `"fnv1a64:"` + the hash printed as a SIGNED i64.
pub fn fingerprint_string(text: &str) -> (r: String)
    ensures
        r@ == fingerprint_text(text@),
{
    let bs = text.as_bytes();
    let mut hash: u64 = FNV_OFFSET;
    let mut i: usize = 0;
    while i < bs.len()
        invariant
            i <= bs@.len(),
            hash == fnv1a64(bs@.take(i as int)),
        decreases bs.len() - i,
    {
        proof {
            assert(bs@.take(i + 1).drop_last() =~= bs@.take(i as int));
        }
        hash = (hash ^ (bs[i] as u64)).wrapping_mul(FNV_PRIME);
        i = i + 1;
    }
    assert(bs@.take(bs@.len() as int) =~= bs@);
    let mut r = owned("fnv1a64:");
    push_i64_decimal(&mut r, hash as i64);
    proof {
        reveal_strlit("fnv1a64:");
    }
    r
}

/// Fingerprint of a value: the fingerprint of its canonical print.
pub fn fingerprint(value: &Sexpr) -> (r: String)
    ensures
        r@ == fingerprint_text(print_v(value@)),
{
    let p = value.print();
    fingerprint_string(p.as_str())
}

} // verus!
