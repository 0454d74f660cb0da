//! The secure random source and the plain computations on what it hands
//! out: reading bytes as an integer, and accepting a draw below a bound.

use vstd::prelude::*;

verus! {

/// Value of a little-endian byte string.
pub open spec fn le_value(b: Seq<u8>) -> int
    decreases b.len(),
{
    if b.len() == 0 {
        0
    } else {
        b[0] + 256 * le_value(b.drop_first())
    }
}

/// `256^n`.
pub open spec fn byte_cap(n: nat) -> int
    decreases n,
{
    if n == 0 {
        1
    } else {
        256 * byte_cap((n - 1) as nat)
    }
}

proof fn lemma_byte_cap_mono(a: nat, b: nat)
    requires
        a <= b,
    ensures
        0 < byte_cap(a) <= byte_cap(b),
    decreases b,
{
    if a < b {
        lemma_byte_cap_mono(a, (b - 1) as nat);
    } else if a > 0 {
        lemma_byte_cap_mono((a - 1) as nat, (a - 1) as nat);
    }
}

#[verifier::external_type_specification]
#[verifier::external_body]
pub struct ExErrorStack(openssl::error::ErrorStack);

/// Relies on `openssl::rand::rand_bytes`: on success the buffer of `n` bytes
/// has been filled from OpenSSL's secure generator; nothing is known of the
/// bytes. `rand_bytes` panics on buffers longer than `c_int::MAX`.
#[verifier::external_body]
pub(crate) fn secure_random_bytes(n: usize) -> (r: Result<Vec<u8>, openssl::error::ErrorStack>)
    requires
        n <= i32::MAX,
    ensures
        r is Ok ==> r->Ok_0@.len() == n,
{
    let mut buf = vec![0u8; n];
    match openssl::rand::rand_bytes(&mut buf) {
        Ok(()) => Ok(buf),
        Err(e) => Err(e),
    }
}

/// Reads a 16-byte string as a little-endian integer.
pub fn pack_le(bytes: &[u8]) -> (r: u128)
    requires
        bytes@.len() == 16,
    ensures
        r as int == le_value(bytes@),
{
    let mut acc: u128 = 0;
    let mut i: usize = 16;
    proof {
        assert(bytes@.subrange(16, 16) =~= Seq::<u8>::empty());
        reveal_with_fuel(byte_cap, 17);
        assert(byte_cap(16) == 0x1_0000_0000_0000_0000_0000_0000_0000_0000);
    }
    while i > 0
        invariant
            0 <= i <= 16,
            bytes@.len() == 16,
            acc as int == le_value(bytes@.subrange(i as int, 16)),
            acc < byte_cap((16 - i) as nat),
            byte_cap(16) == 0x1_0000_0000_0000_0000_0000_0000_0000_0000,
        decreases i,
    {
        let b = bytes[i - 1];
        proof {
            lemma_byte_cap_mono((17 - i) as nat, 16);
            assert(byte_cap((17 - i) as nat) == 256 * byte_cap((16 - i) as nat));
        }
        acc = acc * 256 + b as u128;
        proof {
            assert(bytes@.subrange(i - 1, 16).drop_first() =~= bytes@.subrange(i as int, 16));
        }
        i = i - 1;
    }
    proof {
        assert(bytes@.subrange(0, 16) =~= bytes@);
    }
    acc
}

/// A draw is kept when it lies below `bound`, and discarded otherwise;
/// keeping only such draws gives a uniform value without modulo bias.
pub fn accept_draw(v: u128, bound: u128) -> (r: Option<u128>)
    ensures
        r == (if v < bound { Some(v) } else { None::<u128> }),
{
    if v < bound {
        Some(v)
    } else {
        None
    }
}

} // verus!
