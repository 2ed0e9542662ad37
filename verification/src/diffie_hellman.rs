//! The Diffie-Hellman key exchange: the fixed Oakley Group 14 parameters,
//! the private exponent, and this endpoint's public exchange value.
//!
//! The exchange value is `generator ^ exponent mod p` for a private exponent
//! drawn uniformly at random from `[1, p - 1]`.  A peer-supplied exchange
//! value is accepted only in `[2, p - 1]`: the degenerate values 0 and 1 and
//! anything not below the prime are refused, which guards against
//! small-subgroup confinement.

use vstd::prelude::*;

use crate::be::{
    be_nat, lemma_be_nat_lower_bound, lemma_pow256_pos, pow256,
};
use crate::errors::BsshError;
use crate::mpint::{magnitude_lt, Mpint};

verus! {

/// The bytes of the 2048-bit Oakley Group 14 prime, big-endian.
pub open spec fn spec_oakley_group14_prime_bytes() -> Seq<u8> {
    seq![
        0xFFu8, 0xFF, 0xFF, 0xFF, 0xFF, 0xFF, 0xFF, 0xFF,
        0xC9, 0x0F, 0xDA, 0xA2, 0x21, 0x68, 0xC2, 0x34,
        0xC4, 0xC6, 0x62, 0x8B, 0x80, 0xDC, 0x1C, 0xD1,
        0x29, 0x02, 0x4E, 0x08, 0x8A, 0x67, 0xCC, 0x74,
        0x02, 0x0B, 0xBE, 0xA6, 0x3B, 0x13, 0x9B, 0x22,
        0x51, 0x4A, 0x08, 0x79, 0x8E, 0x34, 0x04, 0xDD,
        0xEF, 0x95, 0x19, 0xB3, 0xCD, 0x3A, 0x43, 0x1B,
        0x30, 0x2B, 0x0A, 0x6D, 0xF2, 0x5F, 0x14, 0x37,
        0x4F, 0xE1, 0x35, 0x6D, 0x6D, 0x51, 0xC2, 0x45,
        0xE4, 0x85, 0xB5, 0x76, 0x62, 0x5E, 0x7E, 0xC6,
        0xF4, 0x4C, 0x42, 0xE9, 0xA6, 0x37, 0xED, 0x6B,
        0x0B, 0xFF, 0x5C, 0xB6, 0xF4, 0x06, 0xB7, 0xED,
        0xEE, 0x38, 0x6B, 0xFB, 0x5A, 0x89, 0x9F, 0xA5,
        0xAE, 0x9F, 0x24, 0x11, 0x7C, 0x4B, 0x1F, 0xE6,
        0x49, 0x28, 0x66, 0x51, 0xEC, 0xE4, 0x5B, 0x3D,
        0xC2, 0x00, 0x7C, 0xB8, 0xA1, 0x63, 0xBF, 0x05,
        0x98, 0xDA, 0x48, 0x36, 0x1C, 0x55, 0xD3, 0x9A,
        0x69, 0x16, 0x3F, 0xA8, 0xFD, 0x24, 0xCF, 0x5F,
        0x83, 0x65, 0x5D, 0x23, 0xDC, 0xA3, 0xAD, 0x96,
        0x1C, 0x62, 0xF3, 0x56, 0x20, 0x85, 0x52, 0xBB,
        0x9E, 0xD5, 0x29, 0x07, 0x70, 0x96, 0x96, 0x6D,
        0x67, 0x0C, 0x35, 0x4E, 0x4A, 0xBC, 0x98, 0x04,
        0xF1, 0x74, 0x6C, 0x08, 0xCA, 0x18, 0x21, 0x7C,
        0x32, 0x90, 0x5E, 0x46, 0x2E, 0x36, 0xCE, 0x3B,
        0xE3, 0x9E, 0x77, 0x2C, 0x18, 0x0E, 0x86, 0x03,
        0x9B, 0x27, 0x83, 0xA2, 0xEC, 0x07, 0xA2, 0x8F,
        0xB5, 0xC5, 0x5D, 0xF0, 0x6F, 0x4C, 0x52, 0xC9,
        0xDE, 0x2B, 0xCB, 0xF6, 0x95, 0x58, 0x17, 0x18,
        0x39, 0x95, 0x49, 0x7C, 0xEA, 0x95, 0x6A, 0xE5,
        0x15, 0xD2, 0x26, 0x18, 0x98, 0xFA, 0x05, 0x10,
        0x15, 0x72, 0x8E, 0x5A, 0x8A, 0xAC, 0xAA, 0x68,
        0xFF, 0xFF, 0xFF, 0xFF, 0xFF, 0xFF, 0xFF, 0xFF,
    ]
}

/// The Oakley Group 14 prime as a number.
pub open spec fn spec_oakley_group14_prime() -> nat {
    be_nat(spec_oakley_group14_prime_bytes())
}

/// The fixed generator of the group.
pub open spec fn spec_generator() -> nat {
    2
}

/// The fixed 2048-bit Oakley Group 14 prime.
#[verifier::rlimit(50)]
pub fn get_oakley_group14_prime() -> (r: Mpint)
    ensures
        r@ == spec_oakley_group14_prime(),
{
    let bytes: Vec<u8> = vec![
        0xFFu8, 0xFF, 0xFF, 0xFF, 0xFF, 0xFF, 0xFF, 0xFF,
        0xC9, 0x0F, 0xDA, 0xA2, 0x21, 0x68, 0xC2, 0x34,
        0xC4, 0xC6, 0x62, 0x8B, 0x80, 0xDC, 0x1C, 0xD1,
        0x29, 0x02, 0x4E, 0x08, 0x8A, 0x67, 0xCC, 0x74,
        0x02, 0x0B, 0xBE, 0xA6, 0x3B, 0x13, 0x9B, 0x22,
        0x51, 0x4A, 0x08, 0x79, 0x8E, 0x34, 0x04, 0xDD,
        0xEF, 0x95, 0x19, 0xB3, 0xCD, 0x3A, 0x43, 0x1B,
        0x30, 0x2B, 0x0A, 0x6D, 0xF2, 0x5F, 0x14, 0x37,
        0x4F, 0xE1, 0x35, 0x6D, 0x6D, 0x51, 0xC2, 0x45,
        0xE4, 0x85, 0xB5, 0x76, 0x62, 0x5E, 0x7E, 0xC6,
        0xF4, 0x4C, 0x42, 0xE9, 0xA6, 0x37, 0xED, 0x6B,
        0x0B, 0xFF, 0x5C, 0xB6, 0xF4, 0x06, 0xB7, 0xED,
        0xEE, 0x38, 0x6B, 0xFB, 0x5A, 0x89, 0x9F, 0xA5,
        0xAE, 0x9F, 0x24, 0x11, 0x7C, 0x4B, 0x1F, 0xE6,
        0x49, 0x28, 0x66, 0x51, 0xEC, 0xE4, 0x5B, 0x3D,
        0xC2, 0x00, 0x7C, 0xB8, 0xA1, 0x63, 0xBF, 0x05,
        0x98, 0xDA, 0x48, 0x36, 0x1C, 0x55, 0xD3, 0x9A,
        0x69, 0x16, 0x3F, 0xA8, 0xFD, 0x24, 0xCF, 0x5F,
        0x83, 0x65, 0x5D, 0x23, 0xDC, 0xA3, 0xAD, 0x96,
        0x1C, 0x62, 0xF3, 0x56, 0x20, 0x85, 0x52, 0xBB,
        0x9E, 0xD5, 0x29, 0x07, 0x70, 0x96, 0x96, 0x6D,
        0x67, 0x0C, 0x35, 0x4E, 0x4A, 0xBC, 0x98, 0x04,
        0xF1, 0x74, 0x6C, 0x08, 0xCA, 0x18, 0x21, 0x7C,
        0x32, 0x90, 0x5E, 0x46, 0x2E, 0x36, 0xCE, 0x3B,
        0xE3, 0x9E, 0x77, 0x2C, 0x18, 0x0E, 0x86, 0x03,
        0x9B, 0x27, 0x83, 0xA2, 0xEC, 0x07, 0xA2, 0x8F,
        0xB5, 0xC5, 0x5D, 0xF0, 0x6F, 0x4C, 0x52, 0xC9,
        0xDE, 0x2B, 0xCB, 0xF6, 0x95, 0x58, 0x17, 0x18,
        0x39, 0x95, 0x49, 0x7C, 0xEA, 0x95, 0x6A, 0xE5,
        0x15, 0xD2, 0x26, 0x18, 0x98, 0xFA, 0x05, 0x10,
        0x15, 0x72, 0x8E, 0x5A, 0x8A, 0xAC, 0xAA, 0x68,
        0xFF, 0xFF, 0xFF, 0xFF, 0xFF, 0xFF, 0xFF, 0xFF,
    ];
    proof {
        assert(bytes@ =~= spec_oakley_group14_prime_bytes());
    }
    Mpint::from_magnitude_bytes(false, &bytes)
}

/// Relies on `num::BigUint::modpow`: it returns `(self ^ exponent) % modulus`
/// and panics only on a zero modulus.  The byte strings are big-endian
/// magnitudes, as `from_bytes_be` / `to_bytes_be` read and write them.
#[verifier::external_body]
fn mod_pow(base: &Vec<u8>, exponent: &Vec<u8>, modulus: &Vec<u8>) -> (r: Vec<u8>)
    requires
        be_nat(modulus@) > 0,
    ensures
        be_nat(r@) as int == vstd::arithmetic::power::pow(
            be_nat(base@) as int,
            be_nat(exponent@),
        ) % (be_nat(modulus@) as int),
{
    let b = num::bigint::BigUint::from_bytes_be(base);
    let e = num::bigint::BigUint::from_bytes_be(exponent);
    let m = num::bigint::BigUint::from_bytes_be(modulus);
    b.modpow(&e, &m).to_bytes_be()
}

/// Relies on `num::bigint::RandBigInt::gen_biguint_range` on the
/// thread-local generator: it returns a value in `[1, bound)`, uniformly at
/// random, and panics only when the range is empty.
#[verifier::external_body]
fn random_below(bound: &Vec<u8>) -> (r: Vec<u8>)
    requires
        be_nat(bound@) >= 2,
    ensures
        1 <= be_nat(r@) < be_nat(bound@),
{
    let ub = num::bigint::BigUint::from_bytes_be(bound);
    let x = num::bigint::RandBigInt::gen_biguint_range(
        &mut rand::thread_rng(),
        &num::bigint::BigUint::from(1u8),
        &ub,
    );
    x.to_bytes_be()
}

/// The public exchange value for a given private exponent:
/// `generator ^ exponent mod p`.  The result always lies in `[1, p - 1]`:
/// it cannot be zero, since the odd prime divides no power of two.
pub fn compute_exchange_value(private_exponent: &Mpint) -> (e: Mpint)
    requires
        private_exponent@ >= 0,
    ensures
        e@ == vstd::arithmetic::power::pow(
            spec_generator() as int,
            private_exponent@ as nat,
        ) % (spec_oakley_group14_prime() as int),
        1 <= e@ <= spec_oakley_group14_prime() - 1,
{
    let p = get_oakley_group14_prime();
    proof {
        lemma_prime_large();
    }
    let mut generator: Vec<u8> = Vec::new();
    generator.push(2);
    proof {
        assert(be_nat(generator@) == 2) by {
            assert(generator@.last() == 2u8);
            assert(generator@.drop_last() =~= Seq::<u8>::empty());
            assert(be_nat(Seq::<u8>::empty()) == 0);
        }
    }
    let eb = mod_pow(&generator, private_exponent.magnitude(), p.magnitude());
    let e = Mpint::from_magnitude_bytes(false, &eb);
    proof {
        vstd::arithmetic::div_mod::lemma_mod_bound(
            vstd::arithmetic::power::pow(spec_generator() as int, private_exponent@ as nat),
            spec_oakley_group14_prime() as int,
        );
        lemma_prime_odd();
        lemma_pow_two_mod_odd_nonzero(
            spec_oakley_group14_prime() as int,
            private_exponent@ as nat,
        );
    }
    e
}

/// A fresh key exchange: a private exponent drawn uniformly at random from
/// `[1, p - 1]`, and the public exchange value computed from it.  The private
/// exponent must never leave this process, be logged, or be reused.
pub fn generate_exchange_value() -> (r: (Mpint, Mpint))
    ensures
        ({
            let (x, e) = r;
            &&& 1 <= x@ <= spec_oakley_group14_prime() - 1
            &&& e@ == vstd::arithmetic::power::pow(spec_generator() as int, x@ as nat) % (
            spec_oakley_group14_prime() as int)
            &&& 1 <= e@ <= spec_oakley_group14_prime() - 1
        }),
{
    let p = get_oakley_group14_prime();
    proof {
        lemma_prime_large();
    }
    let xb = random_below(p.magnitude());
    let x = Mpint::from_magnitude_bytes(false, &xb);
    let e = compute_exchange_value(&x);
    (x, e)
}

/// Validate a peer-supplied exchange value: accepted exactly when it lies in
/// `[2, p - 1]`; negative values, 0, 1, and values at or above the prime are
/// refused.
pub fn validate_exchange_value(value: &Mpint) -> (r: Result<(), BsshError>)
    ensures
        r is Ok <==> 2 <= value@ <= spec_oakley_group14_prime() - 1,
        r is Err ==> r == Err::<(), BsshError>(BsshError::NegativeOrOutOfRangeExchangeValue),
{
    if value.is_negative() {
        return Err(BsshError::NegativeOrOutOfRangeExchangeValue);
    }
    let p = get_oakley_group14_prime();
    let mut two: Vec<u8> = Vec::new();
    two.push(2);
    proof {
        assert(be_nat(two@) == 2) by {
            assert(two@.last() == 2u8);
            assert(two@.drop_last() =~= Seq::<u8>::empty());
            assert(be_nat(Seq::<u8>::empty()) == 0);
        }
    }
    let mag = value.magnitude();
    if magnitude_lt(mag, &two) {
        return Err(BsshError::NegativeOrOutOfRangeExchangeValue);
    }
    if !magnitude_lt(mag, p.magnitude()) {
        return Err(BsshError::NegativeOrOutOfRangeExchangeValue);
    }
    Ok(())
}

/// The Group 14 prime is far above 2.
proof fn lemma_prime_large()
    ensures
        spec_oakley_group14_prime() >= 256,
{
    let s = spec_oakley_group14_prime_bytes();
    assert(s.len() == 256 && s[0] == 0xFF);
    lemma_be_nat_lower_bound(s);
    assert(pow256(255) >= 256) by {
        lemma_pow256_pos(254);
        assert(pow256(255) == 256 * pow256(254));
    }
}

/// The Group 14 prime is odd: its last byte is 0xFF.
proof fn lemma_prime_odd()
    ensures
        spec_oakley_group14_prime() % 2 == 1,
{
    let s = spec_oakley_group14_prime_bytes();
    assert(s.len() == 256 && s.last() == 0xFF);
    let q = be_nat(s.drop_last()) as int;
    assert(spec_oakley_group14_prime() == q * 256 + 255);
    vstd::arithmetic::div_mod::lemma_fundamental_div_mod_converse(
        q * 256 + 255,
        2,
        q * 128 + 127,
        1,
    );
}

/// No power of two is a multiple of an odd number above one.
proof fn lemma_pow_two_mod_odd_nonzero(p: int, x: nat)
    requires
        p > 1,
        p % 2 == 1,
    ensures
        vstd::arithmetic::power::pow(2, x) % p != 0,
    decreases x,
{
    if x == 0 {
        vstd::arithmetic::power::lemma_pow0(2);
        vstd::arithmetic::div_mod::lemma_small_mod(1, p as nat);
    } else {
        lemma_pow_two_mod_odd_nonzero(p, (x - 1) as nat);
        let m = vstd::arithmetic::power::pow(2, (x - 1) as nat);
        assert(vstd::arithmetic::power::pow(2, x) == 2 * m) by {
            vstd::arithmetic::power::lemma_pow1(2);
            vstd::arithmetic::power::lemma_pow_adds(2, 1, (x - 1) as nat);
        }
        let r = m % p;
        vstd::arithmetic::div_mod::lemma_mod_bound(m, p);
        assert(0 < r < p);
        assert((2 * m) % p == (2 * r) % p) by {
            vstd::arithmetic::div_mod::lemma_mul_mod_noop_right(2, m, p);
        }
        if 2 * r < p {
            vstd::arithmetic::div_mod::lemma_small_mod((2 * r) as nat, p as nat);
        } else {
            assert(2 * r != p) by {
                if 2 * r == p {
                    vstd::arithmetic::div_mod::lemma_fundamental_div_mod_converse(2 * r, 2, r, 0);
                }
            }
            vstd::arithmetic::div_mod::lemma_fundamental_div_mod_converse(2 * r, p, 1, 2 * r - p);
        }
    }
}

} // verus!
