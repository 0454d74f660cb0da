//! Tagged values and shares shared by both schemes, their errors, and the
//! dispatcher that routes a value to the configured scheme.

use crate::additive::ArithmeticSharing;
use crate::threshold::ShamirsSharing;
use vstd::prelude::*;

verus! {

/// One share, tagged with the scheme that issued it.
#[derive(Debug, Clone, Copy, PartialEq, Eq, Structural)]
pub enum Share {
    Arithmetic(u128),
    Shamirs(i64),
}

/// A secret or reconstructed value, tagged with the scheme it belongs to.
#[derive(Debug, Clone, Copy, PartialEq, Eq, Structural)]
pub enum ValueType {
    ArithmeticValue(u128),
    ShamirValue(i64),
}

/// Why a `share` or `reconstruct` call failed.
#[derive(Debug, Clone, Copy, PartialEq, Eq, Structural)]
pub enum SharingError {
    /// The secret is not an element of the scheme's field.
    InvalidSecret,
    /// A value or share tagged for the other scheme was passed in.
    TypeMismatch,
    /// Fewer shares than the reconstruction threshold requires.
    InsufficientShares,
    /// The secure random source could not supply data.
    RandomnessFailure,
    /// Evaluation indices are not strictly increasing, out of range, or do
    /// not match the shares one for one.
    InvalidIndex,
    /// No scheme has been chosen yet.
    Unconfigured,
}

/// The numeric payload of an additive share (zero for the other tag).
pub open spec fn arith_payload(s: Share) -> int {
    match s {
        Share::Arithmetic(v) => v as int,
        Share::Shamirs(_) => 0,
    }
}

/// The numeric payload of a threshold share (zero for the other tag).
pub open spec fn shamir_payload(s: Share) -> int {
    match s {
        Share::Arithmetic(_) => 0,
        Share::Shamirs(v) => v as int,
    }
}

pub open spec fn all_arithmetic(s: Seq<Share>) -> bool {
    forall|i: int| 0 <= i < s.len() ==> (#[trigger] s[i]) is Arithmetic
}

pub open spec fn all_shamirs(s: Seq<Share>) -> bool {
    forall|i: int| 0 <= i < s.len() ==> (#[trigger] s[i]) is Shamirs
}

/// Sum of the additive payloads, as a mathematical integer.
pub open spec fn payload_sum(s: Seq<Share>) -> int
    decreases s.len(),
{
    if s.len() == 0 {
        0
    } else {
        payload_sum(s.drop_last()) + arith_payload(s.last())
    }
}

/// Sum of a sequence of blinds, as a mathematical integer.
pub open spec fn blind_sum(b: Seq<u128>) -> int
    decreases b.len(),
{
    if b.len() == 0 {
        0
    } else {
        blind_sum(b.drop_last()) + b.last()
    }
}

/// The scheme a model routes its values to.
#[derive(Debug)]
pub enum SharingType {
    ArithmeticSharing(ArithmeticSharing),
    ShamirsSharing(ShamirsSharing),
    /// No scheme chosen yet: every call is refused.
    Unconfigured,
}

impl SharingType {
    /// What `share` returns: that of the chosen scheme.
    pub open spec fn share_outcome(&self, value: ValueType, r: Result<Vec<Share>, SharingError>) -> bool {
        match self {
            SharingType::ArithmeticSharing(a) => a.share_outcome(value, r),
            SharingType::ShamirsSharing(t) => t.share_outcome(value, r),
            SharingType::Unconfigured => r == Err::<Vec<Share>, SharingError>(SharingError::Unconfigured),
        }
    }

    /// What `reconstruct` returns: that of the chosen scheme.
    pub open spec fn reconstruct_outcome(&self, shares: Seq<Share>, r: Result<ValueType, SharingError>) -> bool {
        match self {
            SharingType::ArithmeticSharing(a) => {
                &&& !all_arithmetic(shares) ==> r == Err::<ValueType, SharingError>(SharingError::TypeMismatch)
                &&& all_arithmetic(shares) ==> r == Ok::<ValueType, SharingError>(
                    ValueType::ArithmeticValue((payload_sum(shares) % a.spec_prime()) as u128),
                )
            },
            SharingType::ShamirsSharing(t) => t.reconstruct_outcome(shares, r),
            SharingType::Unconfigured => r == Err::<ValueType, SharingError>(SharingError::Unconfigured),
        }
    }

    /// Shares `value` with the chosen scheme.
    pub fn share(&self, value: ValueType) -> (r: Result<Vec<Share>, SharingError>)
        ensures
            self.share_outcome(value, r),
    {
        match self {
            SharingType::ArithmeticSharing(a) => a.share(value),
            SharingType::ShamirsSharing(t) => t.share(value),
            SharingType::Unconfigured => Err(SharingError::Unconfigured),
        }
    }

    /// Reconstructs `shares` with the chosen scheme.
    pub fn reconstruct(&self, shares: &[Share]) -> (r: Result<ValueType, SharingError>)
        ensures
            self.reconstruct_outcome(shares@, r),
    {
        match self {
            SharingType::ArithmeticSharing(a) => a.reconstruct(shares),
            SharingType::ShamirsSharing(t) => t.reconstruct(shares),
            SharingType::Unconfigured => Err(SharingError::Unconfigured),
        }
    }
}

} // verus!
