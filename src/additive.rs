//! All-or-nothing additive sharing over the field of integers modulo
//! `2^127 - 1`: every issued share is needed to recover the secret.

use crate::field::{add_mod, sub_mod};
use crate::random::{accept_draw, pack_le, secure_random_bytes};
use crate::secret::{
    all_arithmetic, arith_payload, blind_sum, payload_sum, Share, SharingError, ValueType,
};
use vstd::arithmetic::div_mod::{lemma_add_mod_noop_right, lemma_small_mod, lemma_sub_mod_noop};
use vstd::prelude::*;

verus! {

/// The Mersenne prime `2^127 - 1`.
pub const ARITHMETIC_PRIME: u128 = 0x7fff_ffff_ffff_ffff_ffff_ffff_ffff_ffff;

/// How many 16-byte draws a blind may take before the source is given up on.
/// Each draw is accepted with probability one half.
pub const MAX_BLIND_DRAWS: u32 = 128;

/// The shares that `share_with_blinds` issues: each blind, then the secret
/// minus all blinds, reduced modulo `p`.
pub open spec fn additive_shares(blinds: Seq<u128>, secret: int, p: int) -> Seq<Share> {
    blinds.map_values(|b: u128| Share::Arithmetic(b)).push(
        Share::Arithmetic(((secret - blind_sum(blinds)) % p) as u128),
    )
}

pub open spec fn blinds_in_field(blinds: Seq<u128>, p: int) -> bool {
    forall|i: int| 0 <= i < blinds.len() ==> (#[trigger] blinds[i]) < p
}

proof fn lemma_payload_sum_blinds(blinds: Seq<u128>)
    ensures
        payload_sum(blinds.map_values(|b: u128| Share::Arithmetic(b))) == blind_sum(blinds),
        all_arithmetic(blinds.map_values(|b: u128| Share::Arithmetic(b))),
    decreases blinds.len(),
{
    let m = blinds.map_values(|b: u128| Share::Arithmetic(b));
    if blinds.len() > 0 {
        assert(m.drop_last() =~= blinds.drop_last().map_values(|b: u128| Share::Arithmetic(b)));
        lemma_payload_sum_blinds(blinds.drop_last());
    }
}

/// Summing every additive share modulo the prime gives the secret back, and
/// there is one share more than there are blinds.
pub proof fn lemma_additive_round_trip(blinds: Seq<u128>, secret: int, p: int)
    requires
        0 <= secret < p,
        p <= ARITHMETIC_PRIME,
    ensures
        additive_shares(blinds, secret, p).len() == blinds.len() + 1,
        all_arithmetic(additive_shares(blinds, secret, p)),
        payload_sum(additive_shares(blinds, secret, p)) % p == secret,
{
    let m = blinds.map_values(|b: u128| Share::Arithmetic(b));
    let last = (secret - blind_sum(blinds)) % p;
    let s = additive_shares(blinds, secret, p);
    lemma_payload_sum_blinds(blinds);
    assert(s.drop_last() =~= m);
    assert(0 <= last < p);
    assert(arith_payload(s.last()) == last);
    assert(payload_sum(s) == blind_sum(blinds) + last);
    lemma_add_mod_noop_right(blind_sum(blinds), secret - blind_sum(blinds), p);
    lemma_small_mod(secret as nat, p as nat);
}

/// Whatever `share` returns on a valid secret is either a failure of the
/// random source or `parties + 1` additive shares that sum to the secret
/// modulo the prime; with no parties it is the secret itself.
pub proof fn lemma_share_round_trip(a: ArithmeticSharing, s: u128, r: Result<Vec<Share>, SharingError>)
    requires
        a.spec_prime() == ARITHMETIC_PRIME,
        s < a.spec_prime(),
        a.share_outcome(ValueType::ArithmeticValue(s), r),
    ensures
        a.spec_parties() == 0 ==> r is Ok && r->Ok_0@ == seq![Share::Arithmetic(s)],
        r is Err ==> r == Err::<Vec<Share>, SharingError>(SharingError::RandomnessFailure),
        r is Ok ==> {
            &&& r->Ok_0@.len() == a.spec_parties() + 1
            &&& all_arithmetic(r->Ok_0@)
            &&& payload_sum(r->Ok_0@) % a.spec_prime() == s
        },
{
    if r is Ok {
        let p = a.spec_prime();
        let b = choose|b: Seq<u128>|
            #![trigger additive_shares(b, s as int, p)]
            b.len() == a.spec_parties() && blinds_in_field(b, p) && r->Ok_0@ == additive_shares(
                b,
                s as int,
                p,
            );
        lemma_additive_round_trip(b, s as int, p);
        if a.spec_parties() == 0 {
            assert(b =~= Seq::<u128>::empty());
            lemma_small_mod(s as nat, p as nat);
            assert(r->Ok_0@ =~= seq![Share::Arithmetic(s)]);
        }
    }
}

/// The additive scheme: `parties` random blinds plus one masked remainder.
#[derive(Debug)]
pub struct ArithmeticSharing {
    parties: usize,
    prime: u128,
}

impl ArithmeticSharing {
    #[verifier::type_invariant]
    spec fn inv(&self) -> bool {
        self.prime == ARITHMETIC_PRIME && self.parties < usize::MAX
    }

    pub closed spec fn spec_parties(&self) -> nat {
        self.parties as nat
    }

    pub closed spec fn spec_prime(&self) -> int {
        self.prime as int
    }

    /// What `share` may return for `secret`: the error the input calls for,
    /// or, on a valid secret, either a failure of the random source (only
    /// when a blind had to be drawn) or the shares built from some blinds in
    /// the field.
    pub open spec fn share_outcome(&self, secret: ValueType, r: Result<Vec<Share>, SharingError>) -> bool {
        match secret {
            ValueType::ShamirValue(_) => r == Err::<Vec<Share>, SharingError>(SharingError::TypeMismatch),
            ValueType::ArithmeticValue(s) => if s >= self.spec_prime() {
                r == Err::<Vec<Share>, SharingError>(SharingError::InvalidSecret)
            } else {
                (r == Err::<Vec<Share>, SharingError>(SharingError::RandomnessFailure)
                    && self.spec_parties() > 0) || (r is Ok
                    && exists|b: Seq<u128>|
                    #![trigger additive_shares(b, s as int, self.spec_prime())]
                    b.len() == self.spec_parties() && blinds_in_field(b, self.spec_prime())
                        && r->Ok_0@ == additive_shares(b, s as int, self.spec_prime()))
            },
        }
    }

    pub fn new(parties: usize) -> (r: Self)
        requires
            parties < usize::MAX,
        ensures
            r.spec_parties() == parties,
            r.spec_prime() == ARITHMETIC_PRIME,
    {
        ArithmeticSharing { prime: ARITHMETIC_PRIME, parties }
    }

    /// Splits `secret` with the given blinds: the blinds are the first
    /// `parties` shares and the last is the secret minus their sum, modulo
    /// the prime.
    pub fn share_with_blinds(&self, secret: ValueType, blinds: &[u128]) -> (r: Result<Vec<Share>, SharingError>)
        requires
            blinds@.len() == self.spec_parties(),
            blinds_in_field(blinds@, self.spec_prime()),
        ensures
            match secret {
                ValueType::ShamirValue(_) => r == Err::<Vec<Share>, SharingError>(SharingError::TypeMismatch),
                ValueType::ArithmeticValue(s) => if s >= self.spec_prime() {
                    r == Err::<Vec<Share>, SharingError>(SharingError::InvalidSecret)
                } else {
                    r is Ok && r->Ok_0@ == additive_shares(blinds@, s as int, self.spec_prime())
                },
            },
    {
        proof {
            use_type_invariant(self);
        }
        let p = self.prime;
        let s = match secret {
            ValueType::ArithmeticValue(s) => s,
            ValueType::ShamirValue(_) => {
                return Err(SharingError::TypeMismatch);
            },
        };
        if s >= p {
            return Err(SharingError::InvalidSecret);
        }
        let mut shares: Vec<Share> = Vec::new();
        let mut rem: u128 = s;
        let mut i: usize = 0;
        proof {
            lemma_small_mod(s as nat, p as nat);
            assert(blinds@.subrange(0, 0) =~= Seq::<u128>::empty());
            assert(shares@ =~= blinds@.subrange(0, 0).map_values(|b: u128| Share::Arithmetic(b)));
        }
        while i < blinds.len()
            invariant
                0 <= i <= blinds@.len(),
                p == ARITHMETIC_PRIME,
                s < p,
                blinds_in_field(blinds@, p as int),
                rem < p,
                rem as int == (s - blind_sum(blinds@.subrange(0, i as int))) % (p as int),
                shares@ == blinds@.subrange(0, i as int).map_values(|b: u128| Share::Arithmetic(b)),
            decreases blinds@.len() - i,
        {
            let b = blinds[i];
            let ghost before = blind_sum(blinds@.subrange(0, i as int));
            rem = sub_mod(rem, b, p);
            shares.push(Share::Arithmetic(b));
            proof {
                let next = blinds@.subrange(0, i + 1);
                assert(next.drop_last() =~= blinds@.subrange(0, i as int));
                assert(blind_sum(next) == before + b);
                lemma_small_mod(b as nat, p as nat);
                lemma_sub_mod_noop(s - before, b as int, p as int);
                assert(shares@ =~= next.map_values(|b: u128| Share::Arithmetic(b)));
            }
            i = i + 1;
        }
        shares.push(Share::Arithmetic(rem));
        proof {
            assert(blinds@.subrange(0, i as int) =~= blinds@);
            assert(shares@ =~= additive_shares(blinds@, s as int, p as int));
        }
        Ok(shares)
    }

    /// Draws 16 bytes from the secure source and reads them as a
    /// little-endian integer.
    fn generate_random() -> (r: Result<u128, SharingError>)
        ensures
            r is Err ==> r == Err::<u128, SharingError>(SharingError::RandomnessFailure),
    {
        match secure_random_bytes(16) {
            Ok(bytes) => Ok(pack_le(&bytes)),
            Err(_) => Err(SharingError::RandomnessFailure),
        }
    }

    /// A uniformly random blind in `[0, prime)`, by rejection sampling: the
    /// first draw that `accept_draw` keeps.
    fn get_blind(&self) -> (r: Result<u128, SharingError>)
        ensures
            r is Ok ==> r->Ok_0 < self.spec_prime(),
            r is Err ==> r == Err::<u128, SharingError>(SharingError::RandomnessFailure),
    {
        let mut attempt: u32 = 0;
        while attempt < MAX_BLIND_DRAWS
            decreases MAX_BLIND_DRAWS - attempt,
        {
            match Self::generate_random() {
                Ok(v) => {
                    if let Some(b) = accept_draw(v, self.prime) {
                        return Ok(b);
                    }
                },
                Err(e) => {
                    return Err(e);
                },
            }
            attempt = attempt + 1;
        }
        Err(SharingError::RandomnessFailure)
    }

    /// Splits `secret` into `parties + 1` shares whose sum modulo the prime
    /// is the secret, drawing each blind from the secure random source.
    pub fn share(&self, secret: ValueType) -> (r: Result<Vec<Share>, SharingError>)
        ensures
            self.share_outcome(secret, r),
    {
        proof {
            use_type_invariant(self);
        }
        let s = match secret {
            ValueType::ArithmeticValue(s) => s,
            ValueType::ShamirValue(_) => {
                return Err(SharingError::TypeMismatch);
            },
        };
        if s >= self.prime {
            return Err(SharingError::InvalidSecret);
        }
        let mut blinds: Vec<u128> = Vec::new();
        while blinds.len() < self.parties
            invariant
                blinds@.len() <= self.spec_parties(),
                secret == ValueType::ArithmeticValue(s),
                s < self.spec_prime(),
                blinds_in_field(blinds@, self.spec_prime()),
            decreases self.spec_parties() - blinds@.len(),
        {
            match self.get_blind() {
                Ok(b) => blinds.push(b),
                Err(_) => {
                    return Err(SharingError::RandomnessFailure);
                },
            }
        }
        self.share_with_blinds(secret, &blinds)
    }

    /// Sums every share modulo the prime. Any share of the threshold scheme
    /// makes the batch invalid.
    pub fn reconstruct(&self, shares: &[Share]) -> (r: Result<ValueType, SharingError>)
        ensures
            !all_arithmetic(shares@) ==> r == Err::<ValueType, SharingError>(SharingError::TypeMismatch),
            all_arithmetic(shares@) ==> r == Ok::<ValueType, SharingError>(
                ValueType::ArithmeticValue((payload_sum(shares@) % self.spec_prime()) as u128),
            ),
    {
        proof {
            use_type_invariant(self);
        }
        let p = self.prime;
        let mut acc: u128 = 0;
        let mut i: usize = 0;
        while i < shares.len()
            invariant
                0 <= i <= shares@.len(),
                p == ARITHMETIC_PRIME,
                acc < p,
                all_arithmetic(shares@.subrange(0, i as int)),
                acc as int == payload_sum(shares@.subrange(0, i as int)) % (p as int),
            decreases shares@.len() - i,
        {
            let v = match shares[i] {
                Share::Arithmetic(v) => v,
                Share::Shamirs(_) => {
                    proof {
                        assert(!all_arithmetic(shares@) && shares@[i as int] is Shamirs);
                    }
                    return Err(SharingError::TypeMismatch);
                },
            };
            let ghost before = payload_sum(shares@.subrange(0, i as int));
            acc = add_mod(acc, v % p, p);
            proof {
                let next = shares@.subrange(0, i + 1);
                assert(next.drop_last() =~= shares@.subrange(0, i as int));
                assert(payload_sum(next) == before + v);
                vstd::arithmetic::div_mod::lemma_add_mod_noop(before, v as int, p as int);
                vstd::arithmetic::div_mod::lemma_mod_twice(before, p as int);
                assert(all_arithmetic(next));
            }
            i = i + 1;
        }
        proof {
            assert(shares@.subrange(0, i as int) =~= shares@);
        }
        Ok(ValueType::ArithmeticValue(acc))
    }
}

} // verus!
