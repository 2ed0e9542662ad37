use bsshlib::diffie_hellman::{
    compute_exchange_value, generate_exchange_value, get_oakley_group14_prime,
    validate_exchange_value,
};
use bsshlib::errors::BsshError;
use bsshlib::mpint::Mpint;

#[test]
fn the_group14_prime_has_the_published_shape() {
    let p = get_oakley_group14_prime();
    assert!(!p.is_negative());
    let bytes = p.magnitude();
    assert_eq!(bytes.len(), 256);
    assert_eq!(&bytes[0..8], &[0xff; 8]);
    assert_eq!(&bytes[248..256], &[0xff; 8]);
    assert_eq!(&bytes[8..12], &[0xc9, 0x0f, 0xda, 0xa2]);
}

#[test]
fn compute_exchange_value_matches_small_powers() {
    // 2^10 mod p == 1024 for the 2048-bit prime.
    let x = Mpint::from_magnitude_bytes(false, &vec![10]);
    let e = compute_exchange_value(&x);
    assert!(!e.is_negative());
    assert_eq!(e.magnitude(), &vec![0x04, 0x00]);
    // 2^1 mod p == 2.
    let one = Mpint::from_magnitude_bytes(false, &vec![1]);
    let e = compute_exchange_value(&one);
    assert_eq!(e.magnitude(), &vec![0x02]);
}

#[test]
fn generated_exchange_values_lie_in_range() {
    let (private_exponent, public_value) = generate_exchange_value();
    let p = get_oakley_group14_prime();
    assert!(!private_exponent.is_negative());
    assert!(private_exponent.magnitude().len() >= 1);
    assert!(private_exponent.magnitude().len() <= 256);
    assert!(!public_value.is_negative());
    assert!(public_value.magnitude().len() >= 1);
    assert!(public_value.magnitude().len() <= p.magnitude().len());
}

#[test]
fn fresh_private_exponents_differ() {
    let (x1, _) = generate_exchange_value();
    let (x2, _) = generate_exchange_value();
    // Two uniform draws from a 2048-bit range collide with negligible odds.
    assert_ne!(x1.magnitude(), x2.magnitude());
}

#[test]
fn peer_values_outside_the_range_are_rejected() {
    let zero = Mpint::zero();
    assert_eq!(
        validate_exchange_value(&zero),
        Err(BsshError::NegativeOrOutOfRangeExchangeValue)
    );
    let one = Mpint::from_magnitude_bytes(false, &vec![1]);
    assert_eq!(
        validate_exchange_value(&one),
        Err(BsshError::NegativeOrOutOfRangeExchangeValue)
    );
    let p = get_oakley_group14_prime();
    assert_eq!(
        validate_exchange_value(&p),
        Err(BsshError::NegativeOrOutOfRangeExchangeValue)
    );
    let negative = Mpint::from_magnitude_bytes(true, &vec![5]);
    assert_eq!(
        validate_exchange_value(&negative),
        Err(BsshError::NegativeOrOutOfRangeExchangeValue)
    );
}

#[test]
fn peer_values_inside_the_range_are_accepted() {
    let two = Mpint::from_magnitude_bytes(false, &vec![2]);
    assert!(validate_exchange_value(&two).is_ok());
    // p - 1: the prime's bytes with the last byte lowered by one.
    let p = get_oakley_group14_prime();
    let mut bytes = p.magnitude().clone();
    let last = bytes.len() - 1;
    bytes[last] = 0xfe;
    let p_minus_one = Mpint::from_magnitude_bytes(false, &bytes);
    assert!(validate_exchange_value(&p_minus_one).is_ok());
}
