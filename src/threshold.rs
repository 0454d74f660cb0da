//! Threshold (Shamir) sharing over the field of integers modulo `2^19 - 1`:
//! any `threshold + 1` shares recover the secret by Lagrange interpolation.
//! The share at index `k` is the polynomial's value at the point `k + 1`.

use crate::random::{accept_draw, pack_le, secure_random_bytes};
use crate::secret::{all_shamirs, shamir_payload, Share, SharingError, ValueType};
use vstd::arithmetic::div_mod::{lemma_add_mod_noop, lemma_mul_mod_noop_right, lemma_small_mod};
use vstd::prelude::*;

verus! {

/// The Mersenne prime `2^19 - 1`.
pub const SHAMIR_PRIME: i64 = 524287;

/// The field has `SHAMIR_PRIME - 1` nonzero evaluation points, one per party.
pub const MAX_SHAMIR_PARTIES: usize = 524286;

/// The polynomial with coefficients `c` (constant term first) at `x`.
pub open spec fn poly_at(c: Seq<int>, x: int) -> int
    decreases c.len(),
{
    if c.len() == 0 {
        0
    } else {
        c[0] + x * poly_at(c.drop_first(), x)
    }
}

/// `c` is a polynomial of degree at most `t` over the field of `p` elements
/// whose constant term is `secret`.
pub open spec fn secret_polynomial(c: Seq<int>, secret: int, t: nat, p: int) -> bool {
    &&& c.len() == t + 1
    &&& c[0] == secret
    &&& forall|i: int| 0 <= i < c.len() ==> 0 <= #[trigger] c[i] < p
}

/// `vals[k]` is the value of `c` at the point `k + 1`, modulo `p`.
pub open spec fn evaluations_of(c: Seq<int>, p: int, vals: Seq<i64>) -> bool {
    forall|k: int| 0 <= k < vals.len() ==> #[trigger] vals[k] == poly_at(c, k + 1) % p
}

/// `c` has degree at most `t` and takes the value `vals[j]` (modulo `p`) at
/// the point `idx[j] + 1`.
pub open spec fn fits(c: Seq<int>, idx: Seq<usize>, vals: Seq<i64>, t: nat, p: int) -> bool {
    &&& c.len() == t + 1
    &&& forall|j: int| 0 <= j < vals.len() ==> #[trigger] vals[j] == poly_at(c, idx[j] + 1) % p
}

/// `v` is the constant term, modulo `p`, of every polynomial of degree at
/// most `t` that passes through the given points.
pub open spec fn interpolates_to(idx: Seq<usize>, vals: Seq<i64>, t: nat, p: int, v: int) -> bool {
    forall|c: Seq<int>| #[trigger] fits(c, idx, vals, t, p) ==> v == c[0] % p
}

/// `vals` are the values of some polynomial of degree at most `t` with
/// constant term `secret`.
pub open spec fn values_of_secret_polynomial(vals: Seq<i64>, secret: int, t: nat, p: int) -> bool {
    exists|c: Seq<int>|
        #![trigger secret_polynomial(c, secret, t, p)]
        secret_polynomial(c, secret, t, p) && evaluations_of(c, p, vals)
}

/// Indices strictly increasing, below `bound`, one for each of `n` shares.
pub open spec fn valid_indices(idx: Seq<usize>, n: nat, bound: nat) -> bool {
    &&& idx.len() == n
    &&& forall|i: int| 0 <= i < idx.len() ==> #[trigger] idx[i] < bound
    &&& forall|i: int, j: int| 0 <= i < j < idx.len() ==> #[trigger] idx[i] < #[trigger] idx[j]
}

/// The share payloads reduced into the field.
pub open spec fn reduced(shares: Seq<Share>, p: int) -> Seq<i64> {
    shares.map_values(|s: Share| (shamir_payload(s) % p) as i64)
}

/// The indices `0, 1, ..., n - 1`.
pub open spec fn positions(n: nat) -> Seq<usize> {
    Seq::new(n, |i: int| i as usize)
}

/// `shares` are the threshold shares of `secret`: the values, at the points
/// `1, 2, ...`, of a polynomial of degree at most `t` with constant term
/// `secret`.
pub open spec fn is_sharing_of(shares: Seq<Share>, secret: int, t: nat, p: int) -> bool {
    exists|c: Seq<int>|
        #![trigger secret_polynomial(c, secret, t, p)]
        secret_polynomial(c, secret, t, p) && forall|k: int|
            0 <= k < shares.len() ==> #[trigger] shares[k] == Share::Shamirs(
                (poly_at(c, k + 1) % p) as i64,
            )
}

/// The coefficients as mathematical integers.
pub open spec fn ints(c: Seq<i64>) -> Seq<int> {
    c.map_values(|v: i64| v as int)
}

/// Evaluates the polynomial with coefficients `coeffs` (constant term
/// first) at `x` modulo `p`, by Horner's rule.
pub fn eval_poly(coeffs: &[i64], x: i64, p: i64) -> (r: i64)
    requires
        0 < p <= SHAMIR_PRIME,
        0 <= x < p,
        forall|i: int| 0 <= i < coeffs@.len() ==> 0 <= #[trigger] coeffs@[i] < p,
    ensures
        r as int == poly_at(ints(coeffs@), x as int) % (p as int),
        0 <= r < p,
{
    let n = coeffs.len();
    let mut acc: i64 = 0;
    let mut i: usize = n;
    proof {
        assert(ints(coeffs@.subrange(n as int, n as int)) =~= Seq::<int>::empty());
        lemma_small_mod(0, p as nat);
    }
    while i > 0
        invariant
            0 <= i <= n,
            n == coeffs@.len(),
            0 < p <= SHAMIR_PRIME,
            0 <= x < p,
            forall|j: int| 0 <= j < coeffs@.len() ==> 0 <= #[trigger] coeffs@[j] < p,
            0 <= acc < p,
            acc as int == poly_at(ints(coeffs@.subrange(i as int, n as int)), x as int) % (p as int),
        decreases i,
    {
        let c = coeffs[i - 1];
        let ghost tail = poly_at(ints(coeffs@.subrange(i as int, n as int)), x as int);
        proof {
            assert(0 <= acc * x <= 524287 * 524287) by (nonlinear_arith)
                requires
                    0 <= acc < p,
                    0 <= x < p,
                    p <= 524287,
            ;
        }
        let next = (acc * x + c) % p;
        proof {
            let cur = ints(coeffs@.subrange(i - 1, n as int));
            assert(cur.drop_first() =~= ints(coeffs@.subrange(i as int, n as int)));
            assert(cur[0] == c as int);
            assert(poly_at(cur, x as int) == c + x * tail);
            lemma_mul_mod_noop_right(x as int, tail, p as int);
            lemma_add_mod_noop(x * acc, c as int, p as int);
            lemma_add_mod_noop(x * tail, c as int, p as int);
            assert(acc * x == x * acc) by (nonlinear_arith);
            assert(x * tail + c == c + x * tail);
        }
        acc = next;
        i = i - 1;
    }
    proof {
        assert(coeffs@.subrange(0, n as int) =~= coeffs@);
    }
    acc
}

/// How many draws a coefficient may take before the source is given up on.
pub const MAX_COEFFICIENT_DRAWS: u32 = 128;

/// A uniformly random field element: the low 19 bits of a 16-byte draw,
/// kept by `accept_draw` when below the prime.
fn draw_coefficient(p: i64) -> (r: Result<i64, SharingError>)
    requires
        p == SHAMIR_PRIME,
    ensures
        r is Ok ==> 0 <= r->Ok_0 < p,
        r is Err ==> r == Err::<i64, SharingError>(SharingError::RandomnessFailure),
{
    let mut attempt: u32 = 0;
    while attempt < MAX_COEFFICIENT_DRAWS
        invariant
            p == SHAMIR_PRIME,
        decreases MAX_COEFFICIENT_DRAWS - attempt,
    {
        match secure_random_bytes(16) {
            Ok(bytes) => {
                let v = pack_le(&bytes) % 0x8_0000;
                if let Some(c) = accept_draw(v, p as u128) {
                    return Ok(c as i64);
                }
            },
            Err(_) => {
                return Err(SharingError::RandomnessFailure);
            },
        }
        attempt = attempt + 1;
    }
    Err(SharingError::RandomnessFailure)
}

/// Relies on `ShamirSecretSharing::reconstruct` of threshold_secret_sharing:
/// Lagrange interpolation at zero through the points `indices[j] + 1` with
/// values `shares[j]`, computed modulo `prime` in `[0, prime)`: the constant
/// term of the one polynomial of degree below the number of points through
/// them, and so also of any of degree `threshold` or less. It asserts
/// that there are as many indices as shares and at least `threshold + 1`;
/// distinct points below the prime keep every inverse defined and every
/// product within `i64`.
#[verifier::external_body]
fn tss_reconstruct(threshold: usize, prime: i64, indices: &[usize], shares: &[i64]) -> (r: i64)
    requires
        prime == SHAMIR_PRIME,
        valid_indices(indices@, shares@.len(), MAX_SHAMIR_PARTIES as nat),
        shares@.len() >= threshold + 1,
        forall|j: int| 0 <= j < shares@.len() ==> 0 <= #[trigger] shares@[j] < prime,
    ensures
        0 <= r < prime,
        interpolates_to(indices@, shares@, threshold as nat, prime as int, r as int),
        interpolates_to(indices@, shares@, (shares@.len() - 1) as nat, prime as int, r as int),
{
    let tss = threshold_secret_sharing::shamir::ShamirSecretSharing {
        threshold,
        share_count: shares.len(),
        prime,
    };
    tss.reconstruct(indices, shares)
}

/// Any `threshold + 1` or more shares of `secret`, interpolated at their own
/// indices, give `secret` back.
pub proof fn lemma_threshold_round_trip(
    shares: Seq<Share>,
    secret: int,
    t: nat,
    p: int,
    idx: Seq<usize>,
    picked: Seq<Share>,
    v: int,
)
    requires
        0 <= secret < p <= SHAMIR_PRIME,
        is_sharing_of(shares, secret, t, p),
        idx.len() == picked.len(),
        forall|j: int| 0 <= j < idx.len() ==> #[trigger] idx[j] < shares.len(),
        forall|j: int| 0 <= j < idx.len() ==> #[trigger] picked[j] == shares[idx[j] as int],
        interpolates_to(idx, reduced(picked, p), t, p, v),
    ensures
        v == secret,
{
    let c = choose|c: Seq<int>| #[trigger]
        secret_polynomial(c, secret, t, p) && forall|k: int|
            0 <= k < shares.len() ==> #[trigger] shares[k] == Share::Shamirs(
                (poly_at(c, k + 1) % p) as i64,
            );
    let vals = reduced(picked, p);
    assert forall|j: int| 0 <= j < vals.len() implies #[trigger] vals[j] == poly_at(c, idx[j] + 1) % p by {
        let k = idx[j] as int;
        assert(picked[j] == shares[k]);
        let e = poly_at(c, k + 1) % p;
        assert(0 <= e < p);
        assert(shamir_payload(picked[j]) == e);
        lemma_small_mod(e as nat, p as nat);
    }
    assert(fits(c, idx, vals, t, p));
    lemma_small_mod(secret as nat, p as nat);
}

} // verus!

verus! {

/// The threshold scheme: `parties` shares, any `threshold + 1` of which
/// reconstruct the secret.
#[derive(Debug)]
pub struct ShamirsSharing {
    parties: usize,
    prime: i64,
    threshold: usize,
}

impl ShamirsSharing {
    #[verifier::type_invariant]
    spec fn inv(&self) -> bool {
        self.prime == SHAMIR_PRIME && self.parties <= MAX_SHAMIR_PARTIES
    }

    pub closed spec fn spec_parties(&self) -> nat {
        self.parties as nat
    }

    pub closed spec fn spec_prime(&self) -> int {
        self.prime as int
    }

    pub closed spec fn spec_threshold(&self) -> nat {
        self.threshold as nat
    }

    /// What `share` returns for `secret`: the error the input calls for, or,
    /// on a valid secret, either a failure of the random source (only when a
    /// coefficient had to be drawn) or the shares.
    pub open spec fn share_outcome(&self, secret: ValueType, r: Result<Vec<Share>, SharingError>) -> bool {
        match secret {
            ValueType::ArithmeticValue(_) => r == Err::<Vec<Share>, SharingError>(SharingError::TypeMismatch),
            ValueType::ShamirValue(s) => if s < 0 || s >= self.spec_prime() {
                r == Err::<Vec<Share>, SharingError>(SharingError::InvalidSecret)
            } else {
                ||| (r == Err::<Vec<Share>, SharingError>(SharingError::RandomnessFailure)
                    && self.spec_threshold() > 0)
                ||| {
                    &&& r is Ok
                    &&& r->Ok_0@.len() == self.spec_parties()
                    &&& is_sharing_of(r->Ok_0@, s as int, self.spec_threshold(), self.spec_prime())
                }
            },
        }
    }

    /// The result of interpolating `shares` at `indices`, each index below
    /// `bound`: the value at zero of the polynomial through all of them, of
    /// degree below their number, which is the secret when they come from
    /// one sharing.
    pub open spec fn interpolation_outcome(
        &self,
        indices: Seq<usize>,
        shares: Seq<Share>,
        bound: nat,
        r: Result<ValueType, SharingError>,
    ) -> bool {
        if !all_shamirs(shares) {
            r == Err::<ValueType, SharingError>(SharingError::TypeMismatch)
        } else if shares.len() <= self.spec_threshold() {
            r == Err::<ValueType, SharingError>(SharingError::InsufficientShares)
        } else if !valid_indices(indices, shares.len(), bound) {
            r == Err::<ValueType, SharingError>(SharingError::InvalidIndex)
        } else {
            &&& r is Ok
            &&& r->Ok_0 is ShamirValue
            &&& 0 <= r->Ok_0->ShamirValue_0 < self.spec_prime()
            &&& interpolates_to(
                indices,
                reduced(shares, self.spec_prime()),
                self.spec_threshold(),
                self.spec_prime(),
                r->Ok_0->ShamirValue_0 as int,
            )
            &&& interpolates_to(
                indices,
                reduced(shares, self.spec_prime()),
                (shares.len() - 1) as nat,
                self.spec_prime(),
                r->Ok_0->ShamirValue_0 as int,
            )
        }
    }

    /// What `reconstruct_at` returns: the indices are those of issued
    /// shares, so each lies below the number of parties.
    pub open spec fn reconstruct_at_outcome(
        &self,
        indices: Seq<usize>,
        shares: Seq<Share>,
        r: Result<ValueType, SharingError>,
    ) -> bool {
        self.interpolation_outcome(indices, shares, self.spec_parties(), r)
    }

    /// What `reconstruct` returns: the shares stand at the positions
    /// `0..shares.len()`, which the field bounds by `MAX_SHAMIR_PARTIES`.
    pub open spec fn reconstruct_outcome(&self, shares: Seq<Share>, r: Result<ValueType, SharingError>) -> bool {
        self.interpolation_outcome(positions(shares.len()), shares, MAX_SHAMIR_PARTIES as nat, r)
    }

    /// A scheme for `parties` parties where any two shares reconstruct.
    pub fn new(parties: usize) -> (r: Self)
        requires
            parties <= MAX_SHAMIR_PARTIES,
        ensures
            r.spec_parties() == parties,
            r.spec_prime() == SHAMIR_PRIME,
            r.spec_threshold() == 1,
    {
        ShamirsSharing { parties, prime: SHAMIR_PRIME, threshold: 1 }
    }

    /// A scheme for `parties` parties where any `threshold + 1` shares
    /// reconstruct and `threshold` shares reveal nothing. With `threshold`
    /// at or above `parties` no set of issued shares is large enough to
    /// reconstruct: every attempt fails with `InsufficientShares` or
    /// `InvalidIndex`.
    pub fn with_threshold(parties: usize, threshold: usize) -> (r: Self)
        requires
            parties <= MAX_SHAMIR_PARTIES,
        ensures
            r.spec_parties() == parties,
            r.spec_prime() == SHAMIR_PRIME,
            r.spec_threshold() == threshold,
    {
        ShamirsSharing { parties, prime: SHAMIR_PRIME, threshold }
    }

    /// Splits `secret` with the given coefficients: the share at index `k`
    /// is the value at the point `k + 1` of the polynomial whose constant
    /// term is the secret and whose other coefficients are `coeffs`, in
    /// rising degree.
    pub fn share_with_coefficients(&self, secret: ValueType, coeffs: &[i64]) -> (r: Result<Vec<Share>, SharingError>)
        requires
            coeffs@.len() == self.spec_threshold(),
            forall|i: int| 0 <= i < coeffs@.len() ==> 0 <= #[trigger] coeffs@[i] < self.spec_prime(),
        ensures
            match secret {
                ValueType::ArithmeticValue(_) => r == Err::<Vec<Share>, SharingError>(SharingError::TypeMismatch),
                ValueType::ShamirValue(s) => if s < 0 || s >= self.spec_prime() {
                    r == Err::<Vec<Share>, SharingError>(SharingError::InvalidSecret)
                } else {
                    &&& r is Ok
                    &&& r->Ok_0@.len() == self.spec_parties()
                    &&& forall|k: int|
                        0 <= k < r->Ok_0@.len() ==> #[trigger] r->Ok_0@[k] == Share::Shamirs(
                            (poly_at(seq![s as int] + ints(coeffs@), k + 1) % self.spec_prime()) as i64,
                        )
                },
            },
    {
        proof {
            use_type_invariant(self);
        }
        let s = match secret {
            ValueType::ShamirValue(s) => s,
            ValueType::ArithmeticValue(_) => {
                return Err(SharingError::TypeMismatch);
            },
        };
        if s < 0 || s >= self.prime {
            return Err(SharingError::InvalidSecret);
        }
        let p = self.prime;
        let mut full: Vec<i64> = Vec::new();
        full.push(s);
        let mut i: usize = 0;
        while i < coeffs.len()
            invariant
                0 <= i <= coeffs@.len(),
                p == self.spec_prime(),
                0 <= s < p,
                forall|j: int| 0 <= j < coeffs@.len() ==> 0 <= #[trigger] coeffs@[j] < p,
                full@ == seq![s] + coeffs@.subrange(0, i as int),
            decreases coeffs@.len() - i,
        {
            full.push(coeffs[i]);
            proof {
                assert(full@ =~= seq![s] + coeffs@.subrange(0, i + 1));
            }
            i = i + 1;
        }
        proof {
            assert(full@ =~= seq![s] + coeffs@);
            assert(ints(full@) =~= seq![s as int] + ints(coeffs@));
        }
        let ghost c = ints(full@);
        let mut shares: Vec<Share> = Vec::new();
        let mut k: usize = 0;
        while k < self.parties
            invariant
                p == SHAMIR_PRIME,
                self.spec_parties() <= MAX_SHAMIR_PARTIES,
                c == ints(full@),
                forall|i: int| 0 <= i < full@.len() ==> 0 <= #[trigger] full@[i] < p,
                shares@.len() == k,
                k <= self.spec_parties(),
                forall|j: int| 0 <= j < k ==> #[trigger] shares@[j] == Share::Shamirs(
                    (poly_at(c, j + 1) % (p as int)) as i64,
                ),
            decreases self.spec_parties() - k,
        {
            let v = eval_poly(&full, (k + 1) as i64, p);
            shares.push(Share::Shamirs(v));
            k = k + 1;
        }
        Ok(shares)
    }

    /// Splits `secret` into `parties` shares: the values at the points
    /// `1..=parties` of a polynomial whose constant term is the secret and
    /// whose other `threshold` coefficients are drawn uniformly from
    /// `[0, prime)` by the secure random source.
    ///
    /// `ShamirSecretSharing::share` of threshold_secret_sharing is not
    /// called here: it unwraps the opening of the operating system's
    /// generator and so panics where this function reports
    /// `RandomnessFailure`. It also draws its coefficients from
    /// `[0, prime - 1)` rather than from the whole field.
    pub fn share(&self, secret: ValueType) -> (r: Result<Vec<Share>, SharingError>)
        ensures
            self.share_outcome(secret, r),
    {
        proof {
            use_type_invariant(self);
        }
        let s = match secret {
            ValueType::ShamirValue(s) => s,
            ValueType::ArithmeticValue(_) => {
                return Err(SharingError::TypeMismatch);
            },
        };
        if s < 0 || s >= self.prime {
            return Err(SharingError::InvalidSecret);
        }
        let p = self.prime;
        let mut coeffs: Vec<i64> = Vec::new();
        while coeffs.len() < self.threshold
            invariant
                p == SHAMIR_PRIME,
                p == self.spec_prime(),
                secret == ValueType::ShamirValue(s),
                0 <= s < p,
                coeffs@.len() <= self.spec_threshold(),
                forall|i: int| 0 <= i < coeffs@.len() ==> 0 <= #[trigger] coeffs@[i] < p,
            decreases self.spec_threshold() - coeffs@.len(),
        {
            match draw_coefficient(p) {
                Ok(c) => coeffs.push(c),
                Err(_) => {
                    return Err(SharingError::RandomnessFailure);
                },
            }
        }
        let r = self.share_with_coefficients(secret, &coeffs);
        proof {
            let c = seq![s as int] + ints(coeffs@);
            assert(secret_polynomial(c, s as int, self.spec_threshold(), p as int));
        }
        r
    }

    /// Interpolates at zero the shares taken at `indices`, which must be
    /// strictly increasing and below the number of parties. Any share of the
    /// additive scheme makes the batch invalid.
    pub fn reconstruct_at(&self, indices: &[usize], shares: &[Share]) -> (r: Result<ValueType, SharingError>)
        ensures
            self.reconstruct_at_outcome(indices@, shares@, r),
    {
        proof {
            use_type_invariant(self);
        }
        self.interpolate_within(indices, shares, self.parties)
    }

    fn interpolate_within(&self, indices: &[usize], shares: &[Share], bound: usize) -> (r: Result<ValueType, SharingError>)
        requires
            bound <= MAX_SHAMIR_PARTIES,
        ensures
            self.interpolation_outcome(indices@, shares@, bound as nat, r),
    {
        proof {
            use_type_invariant(self);
        }
        let p = self.prime;
        let mut vals: Vec<i64> = Vec::new();
        let mut i: usize = 0;
        while i < shares.len()
            invariant
                0 <= i <= shares@.len(),
                p == SHAMIR_PRIME,
                all_shamirs(shares@.subrange(0, i as int)),
                vals@ == reduced(shares@.subrange(0, i as int), p as int),
                forall|j: int| 0 <= j < i ==> 0 <= #[trigger] vals@[j] < p,
            decreases shares@.len() - i,
        {
            match shares[i] {
                Share::Shamirs(v) => {
                    let m = v % p;
                    let f = if m < 0 { m + p } else { m };
                    proof {
                        assert(f as int == (v as int) % (p as int));
                        assert(shares@.subrange(0, i + 1) =~= shares@.subrange(0, i as int).push(shares@[i as int]));
                    }
                    vals.push(f);
                    proof {
                        assert(vals@ =~= reduced(shares@.subrange(0, i + 1), p as int));
                    }
                },
                Share::Arithmetic(_) => {
                    proof {
                        assert(shares@[i as int] is Arithmetic);
                    }
                    return Err(SharingError::TypeMismatch);
                },
            }
            i = i + 1;
        }
        proof {
            assert(shares@.subrange(0, i as int) =~= shares@);
        }
        if shares.len() <= self.threshold {
            return Err(SharingError::InsufficientShares);
        }
        if indices.len() != shares.len() {
            return Err(SharingError::InvalidIndex);
        }
        let mut k: usize = 0;
        while k < indices.len()
            invariant
                0 <= k <= indices@.len(),
                indices@.len() == shares@.len(),
                shares@.len() > self.threshold,
                all_shamirs(shares@),
                bound <= MAX_SHAMIR_PARTIES,
                forall|a: int| 0 <= a < k ==> #[trigger] indices@[a] < bound,
                forall|a: int, b: int| 0 <= a < b < k ==> #[trigger] indices@[a] < #[trigger] indices@[b],
            decreases indices@.len() - k,
        {
            if indices[k] >= bound {
                proof {
                    assert(!(indices@[k as int] < bound));
                }
                return Err(SharingError::InvalidIndex);
            }
            if k > 0 && indices[k - 1] >= indices[k] {
                proof {
                    assert(!(indices@[k - 1] < indices@[k as int]));
                }
                return Err(SharingError::InvalidIndex);
            }
            k = k + 1;
        }
        let v = tss_reconstruct(self.threshold, p, indices, &vals);
        Ok(ValueType::ShamirValue(v))
    }

    /// Interpolates at zero shares listed in index order from index `0`.
    /// Only a batch longer than the field has nonzero points
    /// (`MAX_SHAMIR_PARTIES`) is refused with `InvalidIndex`.
    pub fn reconstruct(&self, shares: &[Share]) -> (r: Result<ValueType, SharingError>)
        ensures
            self.reconstruct_outcome(shares@, r),
    {
        let mut indices: Vec<usize> = Vec::new();
        let mut i: usize = 0;
        while i < shares.len()
            invariant
                0 <= i <= shares@.len(),
                indices@ == positions(i as nat),
            decreases shares@.len() - i,
        {
            indices.push(i);
            proof {
                assert(indices@ =~= positions((i + 1) as nat));
            }
            i = i + 1;
        }
        self.interpolate_within(&indices, shares, MAX_SHAMIR_PARTIES)
    }
}

} // verus!
