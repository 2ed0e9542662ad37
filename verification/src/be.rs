//! Big-endian byte-string arithmetic.
//!
//! The wire format stores every number big-endian: 4-byte length prefixes,
//! and the magnitude bytes of multi-precision integers.  This module gives the
//! mathematical reading of such byte strings ([`be_nat`]), the two encoding
//! directions (fixed-width [`be_pad`], minimal [`min_be`]), and the executable
//! 32-bit conversions.

use vstd::prelude::*;

verus! {

/// `256^len`, the number of byte strings of length `len`.
pub open spec fn pow256(len: nat) -> nat
    decreases len,
{
    if len == 0 {
        1
    } else {
        256 * pow256((len - 1) as nat)
    }
}

/// The natural number a big-endian byte string denotes.
pub open spec fn be_nat(s: Seq<u8>) -> nat
    decreases s.len(),
{
    if s.len() == 0 {
        0
    } else {
        (be_nat(s.drop_last()) * 256 + s.last()) as nat
    }
}

/// The big-endian encoding of `n` in exactly `len` bytes (mod `256^len`).
pub open spec fn be_pad(n: nat, len: nat) -> Seq<u8>
    decreases len,
{
    if len == 0 {
        Seq::empty()
    } else {
        be_pad(n / 256, (len - 1) as nat).push((n % 256) as u8)
    }
}

/// The minimal big-endian encoding of `n`: no leading zero byte, empty for 0.
pub open spec fn min_be(n: nat) -> Seq<u8>
    decreases n,
{
    if n == 0 {
        Seq::empty()
    } else {
        min_be(n / 256).push((n % 256) as u8)
    }
}

/// A big-endian magnitude in canonical form: no leading zero byte.
pub open spec fn no_leading_zero(s: Seq<u8>) -> bool {
    s.len() > 0 ==> s[0] != 0
}

pub proof fn lemma_pow256_pos(len: nat)
    ensures
        pow256(len) >= 1,
    decreases len,
{
    if len > 0 {
        lemma_pow256_pos((len - 1) as nat);
    }
}

/// Every byte string of length `len` denotes a number below `256^len`.
pub proof fn lemma_be_nat_bound(s: Seq<u8>)
    ensures
        be_nat(s) < pow256(s.len()),
    decreases s.len(),
{
    if s.len() > 0 {
        lemma_be_nat_bound(s.drop_last());
    }
}

/// A canonical nonempty magnitude denotes at least `256^(len-1)`.
pub proof fn lemma_be_nat_lower_bound(s: Seq<u8>)
    requires
        s.len() > 0,
        s[0] != 0,
    ensures
        be_nat(s) >= pow256((s.len() - 1) as nat),
    decreases s.len(),
{
    if s.len() == 1 {
        assert(be_nat(s) == be_nat(s.drop_last()) * 256 + s.last());
        assert(be_nat(s.drop_last()) == 0);
    } else {
        lemma_be_nat_lower_bound(s.drop_last());
    }
}

/// A canonical nonempty magnitude denotes a positive number.
pub proof fn lemma_be_nat_pos(s: Seq<u8>)
    requires
        s.len() > 0,
        s[0] != 0,
    ensures
        be_nat(s) > 0,
{
    lemma_be_nat_lower_bound(s);
    lemma_pow256_pos((s.len() - 1) as nat);
}

/// Decoding a fixed-width encoding gives the number back.
pub proof fn lemma_be_nat_be_pad(n: nat, len: nat)
    requires
        n < pow256(len),
    ensures
        be_pad(n, len).len() == len,
        be_nat(be_pad(n, len)) == n,
    decreases len,
{
    if len > 0 {
        lemma_be_nat_be_pad(n / 256, (len - 1) as nat);
        assert(be_pad(n, len).drop_last() =~= be_pad(n / 256, (len - 1) as nat));
    }
}

/// The width of a fixed-width encoding.
pub proof fn lemma_be_pad_len(n: nat, len: nat)
    ensures
        be_pad(n, len).len() == len,
    decreases len,
{
    if len > 0 {
        lemma_be_pad_len(n / 256, (len - 1) as nat);
    }
}

/// Decoding a minimal encoding gives the number back.
pub proof fn lemma_be_nat_min_be(n: nat)
    ensures
        be_nat(min_be(n)) == n,
    decreases n,
{
    if n > 0 {
        lemma_be_nat_min_be(n / 256);
        assert(min_be(n).drop_last() =~= min_be(n / 256));
    }
}

/// A minimal encoding has no leading zero, and is nonempty for positive `n`.
pub proof fn lemma_min_be_wf(n: nat)
    ensures
        no_leading_zero(min_be(n)),
        n > 0 ==> min_be(n).len() > 0,
    decreases n,
{
    if n > 0 {
        lemma_min_be_wf(n / 256);
        if n / 256 > 0 {
            assert(min_be(n)[0] == min_be(n / 256)[0]);
        }
    }
}

/// A canonical magnitude is the minimal encoding of its own value.
pub proof fn lemma_min_be_of_be_nat(s: Seq<u8>)
    requires
        no_leading_zero(s),
    ensures
        min_be(be_nat(s)) == s,
    decreases s.len(),
{
    if s.len() == 0 {
        assert(min_be(0) =~= s);
    } else {
        let dl = s.drop_last();
        let n = be_nat(s);
        assert(n == be_nat(dl) * 256 + s.last());
        if dl.len() > 0 {
            assert(dl[0] == s[0]);
            lemma_be_nat_pos(dl);
        }
        lemma_min_be_of_be_nat(dl);
        assert(n / 256 == be_nat(dl) && n % 256 == s.last()) by {
            vstd::arithmetic::div_mod::lemma_fundamental_div_mod_converse(
                n as int,
                256,
                be_nat(dl) as int,
                s.last() as int,
            );
        }
        if n == 0 {
            assert(be_nat(dl) == 0 && s.last() == 0);
            assert(dl.len() == 0) by {
                if dl.len() > 0 {
                    lemma_be_nat_pos(dl);
                }
            }
            assert(s[0] == s.last());
        } else {
            assert(min_be(n) == min_be(be_nat(dl)).push((s.last()) as u8));
            assert(min_be(n) =~= s);
        }
    }
}

/// Concatenation reads as positional combination.
pub proof fn lemma_be_nat_append(a: Seq<u8>, b: Seq<u8>)
    ensures
        be_nat(a + b) == be_nat(a) * pow256(b.len()) + be_nat(b),
    decreases b.len(),
{
    if b.len() == 0 {
        assert(a + b =~= a);
        assert(pow256(b.len()) == 1);
        assert(be_nat(b) == 0);
        assert(be_nat(a + b) == be_nat(a) * pow256(b.len()) + be_nat(b));
    } else {
        let bd = b.drop_last();
        lemma_be_nat_append(a, bd);
        assert((a + b).drop_last() =~= a + bd);
        assert((a + b).last() == b.last());
        let x = be_nat(a) as int;
        let p = pow256(bd.len()) as int;
        let y = be_nat(bd) as int;
        let l = b.last() as int;
        assert(be_nat(a + b) == (x * p + y) * 256 + l);
        assert((x * p + y) * 256 + l == x * (p * 256) + (y * 256 + l)) by {
            vstd::arithmetic::mul::lemma_mul_is_distributive_add_other_way(256, x * p, y);
            vstd::arithmetic::mul::lemma_mul_is_associative(x, p, 256);
        }
        assert(pow256(b.len()) == p * 256) by {
            vstd::arithmetic::mul::lemma_mul_is_commutative(256, p);
        }
        assert(be_nat(b) == y * 256 + l);
        assert(be_nat(a + b) == x * (p * 256) + (y * 256 + l));
        assert(be_nat(a + b) == x * pow256(b.len()) + be_nat(b));
    }
}

/// A string of zero bytes denotes zero.
pub proof fn lemma_be_nat_all_zero(s: Seq<u8>)
    requires
        forall|i: int| 0 <= i < s.len() ==> s[i] == 0,
    ensures
        be_nat(s) == 0,
    decreases s.len(),
{
    if s.len() > 0 {
        lemma_be_nat_all_zero(s.drop_last());
    }
}

/// Dropping leading zero bytes does not change the denoted number.
pub proof fn lemma_be_nat_skip_zeros(s: Seq<u8>, k: int)
    requires
        0 <= k <= s.len(),
        forall|i: int| 0 <= i < k ==> s[i] == 0,
    ensures
        be_nat(s.skip(k)) == be_nat(s),
{
    lemma_be_nat_append(s.take(k), s.skip(k));
    lemma_be_nat_all_zero(s.take(k));
    assert(s.take(k) + s.skip(k) =~= s);
}

/// Splitting off the first byte reads it at its positional weight.
pub proof fn lemma_be_nat_first(s: Seq<u8>)
    requires
        s.len() > 0,
    ensures
        be_nat(s) == s[0] * pow256((s.len() - 1) as nat) + be_nat(s.skip(1)),
{
    lemma_be_nat_append(seq![s[0]], s.skip(1));
    assert(seq![s[0]] + s.skip(1) =~= s);
    assert(be_nat(seq![s[0]]) == s[0]) by {
        assert(seq![s[0]].len() == 1);
        assert(seq![s[0]].last() == s[0]);
        assert(seq![s[0]].drop_last() =~= Seq::<u8>::empty());
        assert(be_nat(Seq::<u8>::empty()) == 0);
    }
}

/// Two byte strings of one length denoting one number are the same string.
pub proof fn lemma_be_nat_injective(a: Seq<u8>, b: Seq<u8>)
    requires
        a.len() == b.len(),
        be_nat(a) == be_nat(b),
    ensures
        a == b,
    decreases a.len(),
{
    if a.len() == 0 {
        assert(a =~= b);
    } else {
        let qa = be_nat(a.drop_last()) as int;
        let qb = be_nat(b.drop_last()) as int;
        let n = be_nat(a) as int;
        assert(n == qa * 256 + a.last() && n == qb * 256 + b.last());
        vstd::arithmetic::div_mod::lemma_fundamental_div_mod_converse(n, 256, qa, a.last() as int);
        vstd::arithmetic::div_mod::lemma_fundamental_div_mod_converse(n, 256, qb, b.last() as int);
        lemma_be_nat_injective(a.drop_last(), b.drop_last());
        assert(a =~= b) by {
            assert(forall|i: int|
                0 <= i < a.len() - 1 ==> a[i] == a.drop_last()[i] && b[i] == b.drop_last()[i]);
        }
    }
}

/// The sign bit of the first byte reads off the size of the number.
pub proof fn lemma_be_msb(s: Seq<u8>)
    requires
        s.len() > 0,
    ensures
        s[0] >= 128 <==> be_nat(s) >= 128 * pow256((s.len() - 1) as nat),
{
    lemma_be_nat_first(s);
    lemma_be_nat_bound(s.skip(1));
    lemma_pow256_pos((s.len() - 1) as nat);
    let p = pow256((s.len() - 1) as nat) as int;
    let b0 = s[0] as int;
    let r = be_nat(s.skip(1)) as int;
    if s[0] >= 128 {
        assert(b0 * p >= 128 * p) by (nonlinear_arith)
            requires
                b0 >= 128,
                p >= 1,
        ;
    } else {
        assert(b0 * p + r < 128 * p) by (nonlinear_arith)
            requires
                b0 <= 127,
                p >= 1,
                r < p,
        ;
    }
}

/// An upper bound on a number from its first byte.
pub proof fn lemma_be_nat_first_byte_bound(s: Seq<u8>)
    requires
        s.len() > 0,
    ensures
        be_nat(s) < (s[0] + 1) * pow256((s.len() - 1) as nat),
{
    lemma_be_nat_first(s);
    lemma_be_nat_bound(s.skip(1));
    let p = pow256((s.len() - 1) as nat) as int;
    let b0 = s[0] as int;
    let r = be_nat(s.skip(1)) as int;
    assert(b0 * p + r < (b0 + 1) * p) by (nonlinear_arith)
        requires
            r < p,
    ;
}

/// Among equal-length byte strings, the first differing byte decides the
/// order of the denoted numbers.
pub proof fn lemma_be_nat_lex(a: Seq<u8>, b: Seq<u8>, i: int)
    requires
        a.len() == b.len(),
        0 <= i < a.len(),
        forall|j: int| 0 <= j < i ==> a[j] == b[j],
        a[i] < b[i],
    ensures
        be_nat(a) < be_nat(b),
{
    let t = (a.len() - i - 1) as nat;
    lemma_be_nat_append(a.take(i + 1), a.skip(i + 1));
    assert(a.take(i + 1) + a.skip(i + 1) =~= a);
    lemma_be_nat_append(b.take(i + 1), b.skip(i + 1));
    assert(b.take(i + 1) + b.skip(i + 1) =~= b);
    lemma_be_nat_bound(a.skip(i + 1));
    let pa = be_nat(a.take(i + 1)) as int;
    let pb = be_nat(b.take(i + 1)) as int;
    assert(a.take(i + 1).drop_last() =~= a.take(i));
    assert(b.take(i + 1).drop_last() =~= b.take(i));
    assert(a.take(i) =~= b.take(i));
    assert(pa == be_nat(a.take(i)) * 256 + a[i]);
    assert(pb == be_nat(b.take(i)) * 256 + b[i]);
    let pw = pow256(t) as int;
    lemma_pow256_pos(t);
    assert(be_nat(a) == pa * pw + be_nat(a.skip(i + 1)));
    assert(be_nat(b) == pb * pw + be_nat(b.skip(i + 1)));
    assert(pa * pw + pw <= pb * pw) by {
        vstd::arithmetic::mul::lemma_mul_inequality(pa + 1, pb, pw);
        vstd::arithmetic::mul::lemma_mul_is_distributive_add_other_way(pw, pa, 1);
    }
}

/// The 4-byte big-endian encoding of a 32-bit number, as emitted on the wire.
pub fn u32_to_be_bytes(x: u32) -> (r: Vec<u8>)
    ensures
        r@ == be_pad(x as nat, 4),
        r@.len() == 4,
{
    let b0 = (x / 0x1000000) as u8;
    let b1 = ((x / 0x10000) % 0x100) as u8;
    let b2 = ((x / 0x100) % 0x100) as u8;
    let b3 = (x % 0x100) as u8;
    let r: Vec<u8> = vec![b0, b1, b2, b3];
    proof {
        reveal_with_fuel(be_pad, 5);
        assert(r@ =~= be_pad(x as nat, 4));
    }
    r
}

/// The 32-bit number a 4-byte big-endian field denotes.
pub fn u32_from_be_bytes(b: &Vec<u8>) -> (r: u32)
    requires
        b@.len() == 4,
    ensures
        r as nat == be_nat(b@),
{
    let r = (b[0] as u32) * 0x1000000 + (b[1] as u32) * 0x10000 + (b[2] as u32) * 0x100 + (
    b[3] as u32);
    proof {
        reveal_with_fuel(be_nat, 5);
        assert(b@.drop_last().drop_last().drop_last().drop_last() =~= Seq::<u8>::empty());
        assert(b@.drop_last().drop_last().drop_last() =~= seq![b@[0]]);
        assert(b@.drop_last().drop_last() =~= seq![b@[0], b@[1]]);
        assert(b@.drop_last() =~= seq![b@[0], b@[1], b@[2]]);
    }
    r
}

} // verus!
