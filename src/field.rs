//! Arithmetic modulo a prime on native unsigned integers.

use vstd::arithmetic::div_mod::{lemma_mod_add_multiples_vanish, lemma_small_mod};
use vstd::prelude::*;

verus! {

/// `a - b` reduced into `[0, p)`, with wraparound instead of underflow.
pub fn sub_mod(a: u128, b: u128, p: u128) -> (r: u128)
    requires
        a < p,
        b < p,
    ensures
        r as int == (a - b) % (p as int),
        r < p,
{
    if a >= b {
        proof {
            lemma_small_mod((a - b) as nat, p as nat);
        }
        a - b
    } else {
        let r = p - b + a;
        proof {
            lemma_small_mod(r as nat, p as nat);
            lemma_mod_add_multiples_vanish(a - b, p as int);
        }
        r
    }
}

/// `a + b` reduced into `[0, p)`; `p` is at most `2^127` so the sum fits.
pub fn add_mod(a: u128, b: u128, p: u128) -> (r: u128)
    requires
        a < p,
        b < p,
        p <= 0x8000_0000_0000_0000_0000_0000_0000_0000,
    ensures
        r as int == (a + b) % (p as int),
        r < p,
{
    let s = a + b;
    if s >= p {
        proof {
            lemma_small_mod((s - p) as nat, p as nat);
            lemma_mod_add_multiples_vanish(s - p, p as int);
        }
        s - p
    } else {
        proof {
            lemma_small_mod(s as nat, p as nat);
        }
        s
    }
}

} // verus!
