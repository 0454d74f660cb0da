use secshare::additive::{ArithmeticSharing, ARITHMETIC_PRIME};
use secshare::random::{accept_draw, pack_le};
use secshare::secret::{Share, SharingError, ValueType};

fn payload(s: &Share) -> u128 {
    match s {
        Share::Arithmetic(v) => *v,
        Share::Shamirs(_) => panic!("unexpected threshold share"),
    }
}

fn sum_mod_prime(shares: &[Share]) -> u128 {
    let mut acc: u128 = 0;
    for s in shares {
        acc = (acc + payload(s) % ARITHMETIC_PRIME) % ARITHMETIC_PRIME;
    }
    acc
}

#[test]
fn prime_is_mersenne_127() {
    assert_eq!(ARITHMETIC_PRIME, (1u128 << 127) - 1);
}

#[test]
fn five_parties_secret_seven() {
    let arith = ArithmeticSharing::new(5);
    let shares = arith.share(ValueType::ArithmeticValue(7)).unwrap();
    assert_eq!(shares.len(), 6);
    assert_eq!(sum_mod_prime(&shares), 7);
    assert_eq!(arith.reconstruct(&shares), Ok(ValueType::ArithmeticValue(7)));
}

#[test]
fn blinds_are_drawn_at_random() {
    let arith = ArithmeticSharing::new(4);
    let a = arith.share(ValueType::ArithmeticValue(7)).unwrap();
    let b = arith.share(ValueType::ArithmeticValue(7)).unwrap();
    assert!(a[..4].iter().any(|s| payload(s) != 0));
    assert_ne!(a, b);
    for s in &a {
        assert!(payload(s) < ARITHMETIC_PRIME);
    }
}

#[test]
fn share_count_is_parties_plus_one() {
    for parties in [1usize, 2, 3, 10] {
        let arith = ArithmeticSharing::new(parties);
        let shares = arith.share(ValueType::ArithmeticValue(123)).unwrap();
        assert_eq!(shares.len(), parties + 1);
        assert_eq!(arith.reconstruct(&shares), Ok(ValueType::ArithmeticValue(123)));
    }
}

#[test]
fn zero_parties_gives_the_secret_itself() {
    let arith = ArithmeticSharing::new(0);
    let shares = arith.share(ValueType::ArithmeticValue(42)).unwrap();
    assert_eq!(shares, vec![Share::Arithmetic(42)]);
}

#[test]
fn fixed_blinds_give_exact_shares() {
    let arith = ArithmeticSharing::new(2);
    let shares = arith.share_with_blinds(ValueType::ArithmeticValue(10), &[3, 4]).unwrap();
    assert_eq!(shares, vec![Share::Arithmetic(3), Share::Arithmetic(4), Share::Arithmetic(3)]);
}

#[test]
fn fixed_blinds_wrap_around_the_prime() {
    let arith = ArithmeticSharing::new(2);
    let blinds = [5u128, ARITHMETIC_PRIME - 1];
    let shares = arith.share_with_blinds(ValueType::ArithmeticValue(2), &blinds).unwrap();
    // 2 - 5 - (p - 1) = -2 (mod p) = p - 2
    assert_eq!(shares[2], Share::Arithmetic(ARITHMETIC_PRIME - 2));
    assert_eq!(arith.reconstruct(&shares), Ok(ValueType::ArithmeticValue(2)));
}

#[test]
fn secret_at_prime_minus_one_round_trips() {
    let arith = ArithmeticSharing::new(3);
    let secret = ValueType::ArithmeticValue(ARITHMETIC_PRIME - 1);
    let shares = arith.share(secret).unwrap();
    assert_eq!(shares.len(), 4);
    assert_eq!(arith.reconstruct(&shares), Ok(secret));
}

#[test]
fn secret_at_prime_is_rejected() {
    let arith = ArithmeticSharing::new(3);
    assert_eq!(
        arith.share(ValueType::ArithmeticValue(ARITHMETIC_PRIME)),
        Err(SharingError::InvalidSecret)
    );
    assert_eq!(
        arith.share_with_blinds(ValueType::ArithmeticValue(u128::MAX), &[1, 2, 3]),
        Err(SharingError::InvalidSecret)
    );
}

#[test]
fn threshold_value_is_a_type_mismatch() {
    let arith = ArithmeticSharing::new(3);
    assert_eq!(arith.share(ValueType::ShamirValue(5)), Err(SharingError::TypeMismatch));
}

#[test]
fn threshold_share_alone_is_a_type_mismatch() {
    let arith = ArithmeticSharing::new(3);
    assert_eq!(arith.reconstruct(&[Share::Shamirs(5)]), Err(SharingError::TypeMismatch));
}

#[test]
fn mixed_batch_is_a_type_mismatch() {
    let arith = ArithmeticSharing::new(1);
    let batch = [Share::Arithmetic(1), Share::Shamirs(2), Share::Arithmetic(3)];
    assert_eq!(arith.reconstruct(&batch), Err(SharingError::TypeMismatch));
}

#[test]
fn reconstruct_reduces_large_payloads() {
    let arith = ArithmeticSharing::new(1);
    let batch = [Share::Arithmetic(u128::MAX), Share::Arithmetic(ARITHMETIC_PRIME)];
    // u128::MAX = 2p + 1
    assert_eq!(arith.reconstruct(&batch), Ok(ValueType::ArithmeticValue(1)));
    assert_eq!(arith.reconstruct(&[]), Ok(ValueType::ArithmeticValue(0)));
}

#[test]
fn bytes_are_read_little_endian() {
    let mut bytes = [0u8; 16];
    bytes[0] = 0x01;
    bytes[1] = 0x02;
    bytes[15] = 0x80;
    assert_eq!(pack_le(&bytes), (0x80u128 << 120) | 0x0201);
    assert_eq!(pack_le(&[0xffu8; 16]), u128::MAX);
}

#[test]
fn draws_below_the_bound_are_kept() {
    assert_eq!(accept_draw(5, 10), Some(5));
    assert_eq!(accept_draw(10, 10), None);
    assert_eq!(accept_draw(ARITHMETIC_PRIME, ARITHMETIC_PRIME), None);
    assert_eq!(accept_draw(ARITHMETIC_PRIME - 1, ARITHMETIC_PRIME), Some(ARITHMETIC_PRIME - 1));
}
