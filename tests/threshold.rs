use secshare::secret::{Share, SharingError, ValueType};
use secshare::threshold::{eval_poly, ShamirsSharing, SHAMIR_PRIME};

fn payload(s: &Share) -> i64 {
    match s {
        Share::Shamirs(v) => *v,
        Share::Arithmetic(_) => panic!("unexpected additive share"),
    }
}

#[test]
fn prime_is_mersenne_19() {
    assert_eq!(SHAMIR_PRIME, (1i64 << 19) - 1);
}

#[test]
fn five_parties_secret_fifteen_any_two() {
    let shamir = ShamirsSharing::new(5);
    let shares = shamir.share(ValueType::ShamirValue(15)).unwrap();
    assert_eq!(shares.len(), 5);
    for i in 0..5usize {
        for j in (i + 1)..5usize {
            let picked = [shares[i], shares[j]];
            assert_eq!(
                shamir.reconstruct_at(&[i, j], &picked),
                Ok(ValueType::ShamirValue(15))
            );
        }
    }
    assert_eq!(shamir.reconstruct(&shares), Ok(ValueType::ShamirValue(15)));
    assert_eq!(shamir.reconstruct(&shares[..2]), Ok(ValueType::ShamirValue(15)));
}

#[test]
fn shares_are_field_elements_on_a_line() {
    let shamir = ShamirsSharing::new(5);
    let shares = shamir.share(ValueType::ShamirValue(15)).unwrap();
    let p = SHAMIR_PRIME;
    let y1 = payload(&shares[0]);
    let slope = (y1 - 15).rem_euclid(p);
    for (k, s) in shares.iter().enumerate() {
        let v = payload(s);
        assert!(0 <= v && v < p);
        assert_eq!(v, (15 + slope * (k as i64 + 1)).rem_euclid(p));
    }
}

#[test]
fn one_share_is_insufficient() {
    let shamir = ShamirsSharing::new(5);
    let shares = shamir.share(ValueType::ShamirValue(15)).unwrap();
    assert_eq!(shamir.reconstruct(&shares[..1]), Err(SharingError::InsufficientShares));
    assert_eq!(
        shamir.reconstruct_at(&[3], &shares[3..4]),
        Err(SharingError::InsufficientShares)
    );
    assert_eq!(shamir.reconstruct(&[]), Err(SharingError::InsufficientShares));
}

#[test]
fn higher_threshold_round_trips() {
    let shamir = ShamirsSharing::with_threshold(6, 2);
    let shares = shamir.share(ValueType::ShamirValue(1234)).unwrap();
    assert_eq!(shares.len(), 6);
    let picked = [shares[1], shares[3], shares[5]];
    assert_eq!(shamir.reconstruct_at(&[1, 3, 5], &picked), Ok(ValueType::ShamirValue(1234)));
    assert_eq!(
        shamir.reconstruct_at(&[1, 3], &picked[..2]),
        Err(SharingError::InsufficientShares)
    );
}

#[test]
fn threshold_zero_shares_are_the_secret() {
    let shamir = ShamirsSharing::with_threshold(3, 0);
    let shares = shamir.share(ValueType::ShamirValue(9)).unwrap();
    assert_eq!(shares, vec![Share::Shamirs(9); 3]);
}

#[test]
fn share_count_is_parties() {
    for parties in [2usize, 3, 7] {
        let shamir = ShamirsSharing::new(parties);
        let shares = shamir.share(ValueType::ShamirValue(0)).unwrap();
        assert_eq!(shares.len(), parties);
        assert_eq!(shamir.reconstruct(&shares), Ok(ValueType::ShamirValue(0)));
    }
}

#[test]
fn secret_at_prime_minus_one_round_trips_threshold() {
    let shamir = ShamirsSharing::new(4);
    let secret = ValueType::ShamirValue(SHAMIR_PRIME - 1);
    let shares = shamir.share(secret).unwrap();
    assert_eq!(shamir.reconstruct_at(&[0, 3], &[shares[0], shares[3]]), Ok(secret));
}

#[test]
fn secret_outside_the_field_is_rejected() {
    let shamir = ShamirsSharing::new(4);
    assert_eq!(shamir.share(ValueType::ShamirValue(SHAMIR_PRIME)), Err(SharingError::InvalidSecret));
    assert_eq!(shamir.share(ValueType::ShamirValue(-1)), Err(SharingError::InvalidSecret));
}

#[test]
fn additive_value_is_a_type_mismatch() {
    let shamir = ShamirsSharing::new(4);
    assert_eq!(shamir.share(ValueType::ArithmeticValue(7)), Err(SharingError::TypeMismatch));
    assert_eq!(
        shamir.reconstruct(&[Share::Shamirs(1), Share::Arithmetic(2)]),
        Err(SharingError::TypeMismatch)
    );
}

#[test]
fn bad_indices_are_rejected() {
    let shamir = ShamirsSharing::new(4);
    let shares = shamir.share(ValueType::ShamirValue(3)).unwrap();
    let two = [shares[0], shares[1]];
    assert_eq!(shamir.reconstruct_at(&[1, 0], &two), Err(SharingError::InvalidIndex));
    assert_eq!(shamir.reconstruct_at(&[1, 1], &two), Err(SharingError::InvalidIndex));
    assert_eq!(shamir.reconstruct_at(&[0, 4], &two), Err(SharingError::InvalidIndex));
    assert_eq!(shamir.reconstruct_at(&[0], &two), Err(SharingError::InvalidIndex));
}

#[test]
fn positional_batch_longer_than_parties_is_interpolated() {
    // the points (1, 1), (2, 2), (3, 3) lie on y = x
    let shamir = ShamirsSharing::new(2);
    let batch = [Share::Shamirs(1), Share::Shamirs(2), Share::Shamirs(3)];
    assert_eq!(shamir.reconstruct(&batch), Ok(ValueType::ShamirValue(0)));
    assert_eq!(shamir.reconstruct_at(&[0, 1, 2], &batch), Err(SharingError::InvalidIndex));
}

#[test]
fn fixed_coefficients_give_exact_shares() {
    let shamir = ShamirsSharing::new(5);
    let shares = shamir.share_with_coefficients(ValueType::ShamirValue(15), &[4]).unwrap();
    let expected: Vec<Share> = [19, 23, 27, 31, 35].iter().map(|v| Share::Shamirs(*v)).collect();
    assert_eq!(shares, expected);
    let wrapped = shamir.share_with_coefficients(ValueType::ShamirValue(1), &[SHAMIR_PRIME - 1]).unwrap();
    // 1 - x modulo the prime
    assert_eq!(wrapped[0], Share::Shamirs(0));
    assert_eq!(wrapped[1], Share::Shamirs(SHAMIR_PRIME - 1));
    assert_eq!(shamir.reconstruct(&wrapped), Ok(ValueType::ShamirValue(1)));
    assert_eq!(
        shamir.share_with_coefficients(ValueType::ArithmeticValue(1), &[4]),
        Err(SharingError::TypeMismatch)
    );
    assert_eq!(
        shamir.share_with_coefficients(ValueType::ShamirValue(SHAMIR_PRIME), &[4]),
        Err(SharingError::InvalidSecret)
    );
}

#[test]
fn known_line_interpolates_exactly() {
    // y = 10 + 3x at x = 1, 2, 3
    let shamir = ShamirsSharing::new(3);
    let shares = [Share::Shamirs(13), Share::Shamirs(16), Share::Shamirs(19)];
    assert_eq!(shamir.reconstruct(&shares), Ok(ValueType::ShamirValue(10)));
    assert_eq!(shamir.reconstruct_at(&[1, 2], &shares[1..]), Ok(ValueType::ShamirValue(10)));
    // payloads are reduced into the field first
    let shifted = [Share::Shamirs(13 + SHAMIR_PRIME), Share::Shamirs(16 - SHAMIR_PRIME)];
    assert_eq!(shamir.reconstruct(&shifted), Ok(ValueType::ShamirValue(10)));
}

#[test]
fn horner_evaluation_is_exact() {
    assert_eq!(eval_poly(&[1, 2, 3, 4, 5, 6], 5, 17), 4);
    assert_eq!(eval_poly(&[1, 2, 0], 20, 41), 0);
    assert_eq!(eval_poly(&[], 3, 17), 0);
    assert_eq!(eval_poly(&[1234, 166, 94], 1, 1613), 1494);
    assert_eq!(eval_poly(&[1234, 166, 94], 6, 1613), 775);
}

#[test]
fn coefficients_differ_between_sharings() {
    let shamir = ShamirsSharing::new(3);
    let a = shamir.share(ValueType::ShamirValue(15)).unwrap();
    let b = shamir.share(ValueType::ShamirValue(15)).unwrap();
    let c = shamir.share(ValueType::ShamirValue(15)).unwrap();
    assert!(a != b || b != c);
}
