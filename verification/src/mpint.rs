//! Arbitrary-precision signed integers and their wire encoding.
//!
//! The wire stores a signed number as a length-prefixed two's-complement
//! big-endian byte string; zero is the empty body.  A positive number whose
//! top magnitude bit is set gains a leading `0x00` guard byte, a negative one
//! a leading `0xFF`, so the sign bit is always unambiguous.
//!
//! In memory the number is a sign and a canonical magnitude (no leading zero
//! byte); the abstract value of an [`Mpint`] is the mathematical integer it
//! denotes.

use vstd::prelude::*;

use crate::be::{
    be_nat, be_pad, lemma_be_msb, lemma_be_nat_all_zero, lemma_be_nat_append, lemma_be_nat_be_pad,
    lemma_be_nat_bound, lemma_be_nat_first_byte_bound, lemma_be_nat_injective, lemma_be_nat_lex,
    lemma_be_pad_len,
    lemma_be_nat_lower_bound, lemma_be_nat_min_be, lemma_be_nat_pos, lemma_be_nat_skip_zeros,
    lemma_min_be_wf, lemma_pow256_pos, min_be, no_leading_zero, pow256,
};

verus! {

/// An arbitrary-precision signed integer: a sign and a big-endian magnitude.
pub struct Mpint {
    negative: bool,
    magnitude: Vec<u8>,
}

impl View for Mpint {
    type V = int;

    /// The mathematical integer this value denotes.
    closed spec fn view(&self) -> int {
        if self.negative {
            -(be_nat(self.magnitude@) as int)
        } else {
            be_nat(self.magnitude@) as int
        }
    }
}

impl Mpint {
    #[verifier::type_invariant]
    spec fn inv(self) -> bool {
        no_leading_zero(self.magnitude@) && (self.negative ==> self.magnitude@.len() > 0)
    }

    /// The integer zero.
    pub fn zero() -> (r: Mpint)
        ensures
            r@ == 0,
    {
        let r = Mpint { negative: false, magnitude: Vec::new() };
        r
    }

    /// The integer with the given sign and big-endian magnitude bytes.
    /// Leading zero bytes are accepted and dropped; a zero magnitude gives
    /// zero whatever the sign.
    pub fn from_magnitude_bytes(negative: bool, bytes: &Vec<u8>) -> (r: Mpint)
        ensures
            r@ == if negative {
                -(be_nat(bytes@) as int)
            } else {
                be_nat(bytes@) as int
            },
    {
        let mag = strip_leading_zeros(bytes);
        if mag.len() == 0 {
            Mpint { negative: false, magnitude: mag }
        } else {
            Mpint { negative, magnitude: mag }
        }
    }

    /// Whether the denoted integer is negative.
    pub fn is_negative(&self) -> (b: bool)
        ensures
            b == (self@ < 0),
    {
        proof {
            use_type_invariant(self);
            if self.magnitude@.len() > 0 {
                lemma_be_nat_pos(self.magnitude@);
            }
        }
        self.negative
    }

    /// The canonical big-endian magnitude bytes of the denoted integer.
    pub fn magnitude(&self) -> (r: &Vec<u8>)
        ensures
            no_leading_zero(r@),
            be_nat(r@) == (if self@ < 0 {
                -self@
            } else {
                self@
            }),
    {
        proof {
            use_type_invariant(self);
            if self.magnitude@.len() > 0 {
                lemma_be_nat_pos(self.magnitude@);
            }
        }
        &self.magnitude
    }
}

/// The magnitude with leading zero bytes dropped: same number, canonical form.
pub fn strip_leading_zeros(v: &Vec<u8>) -> (r: Vec<u8>)
    ensures
        no_leading_zero(r@),
        be_nat(r@) == be_nat(v@),
        r@.len() <= v@.len(),
{
    let mut k: usize = 0;
    while k < v.len() && v[k] == 0
        invariant
            k <= v@.len(),
            forall|i: int| 0 <= i < k ==> v@[i] == 0,
        decreases v@.len() - k,
    {
        k = k + 1;
    }
    let mut r: Vec<u8> = Vec::new();
    let mut i: usize = k;
    while i < v.len()
        invariant
            k <= i <= v@.len(),
            r@ == v@.subrange(k as int, i as int),
        decreases v@.len() - i,
    {
        r.push(v[i]);
        i = i + 1;
        proof {
            assert(r@ =~= v@.subrange(k as int, i as int));
        }
    }
    proof {
        assert(r@ =~= v@.skip(k as int));
        lemma_be_nat_skip_zeros(v@, k as int);
    }
    r
}

/// Whether one canonical magnitude denotes a smaller number than another:
/// a shorter magnitude is smaller, equal lengths compare byte by byte.
pub(crate) fn magnitude_lt(a: &Vec<u8>, b: &Vec<u8>) -> (r: bool)
    requires
        no_leading_zero(a@),
        no_leading_zero(b@),
    ensures
        r == (be_nat(a@) < be_nat(b@)),
{
    if a.len() < b.len() {
        proof {
            lemma_be_nat_bound(a@);
            lemma_be_nat_lower_bound(b@);
            lemma_pow256_mono(a@.len(), (b@.len() - 1) as nat);
        }
        return true;
    }
    if a.len() > b.len() {
        proof {
            lemma_be_nat_bound(b@);
            lemma_be_nat_lower_bound(a@);
            lemma_pow256_mono(b@.len(), (a@.len() - 1) as nat);
        }
        return false;
    }
    let mut i: usize = 0;
    while i < a.len()
        invariant
            a@.len() == b@.len(),
            i <= a@.len(),
            forall|j: int| 0 <= j < i ==> a@[j] == b@[j],
        decreases a@.len() - i,
    {
        if a[i] < b[i] {
            proof {
                lemma_be_nat_lex(a@, b@, i as int);
            }
            return true;
        }
        if a[i] > b[i] {
            proof {
                lemma_be_nat_lex(b@, a@, i as int);
            }
            return false;
        }
        i = i + 1;
    }
    proof {
        assert(a@ =~= b@);
    }
    false
}

/// `256^m <= 256^n` whenever `m <= n`.
proof fn lemma_pow256_mono(m: nat, n: nat)
    ensures
        m <= n ==> pow256(m) <= pow256(n),
    decreases n,
{
    if m < n {
        lemma_pow256_mono(m, (n - 1) as nat);
        lemma_pow256_pos((n - 1) as nat);
    }
}

/// The byte-wise ones' complement denotes the complement to `256^len - 1`.
proof fn lemma_ones_complement(m: Seq<u8>, r: Seq<u8>)
    requires
        m.len() == r.len(),
        forall|i: int| 0 <= i < m.len() ==> r[i] == 255 - m[i],
    ensures
        be_nat(r) == pow256(m.len()) - 1 - be_nat(m),
    decreases m.len(),
{
    if m.len() > 0 {
        lemma_ones_complement(m.drop_last(), r.drop_last());
        assert(r.last() == 255 - m.last());
    }
}

/// Two's complement, described byte by byte from the last nonzero position:
/// the result denotes the complement to `256^len`.
proof fn lemma_twos_complement(m: Seq<u8>, r: Seq<u8>, t: int)
    requires
        m.len() == r.len(),
        0 <= t < m.len(),
        m[t] != 0,
        forall|i: int| t < i < m.len() ==> m[i] == 0,
        forall|i: int| 0 <= i < t ==> r[i] == 255 - m[i],
        r[t] == 256 - m[t],
        forall|i: int| t < i < m.len() ==> r[i] == 0,
    ensures
        be_nat(r) == pow256(m.len()) - be_nat(m),
    decreases m.len(),
{
    if t == m.len() - 1 {
        lemma_ones_complement(m.drop_last(), r.drop_last());
        assert(r.last() == 256 - m.last());
    } else {
        lemma_twos_complement(m.drop_last(), r.drop_last(), t);
        assert(m.last() == 0 && r.last() == 0);
    }
}

/// The two's complement of a nonzero magnitude, in the same width.
pub(crate) fn twos_complement(m: &Vec<u8>) -> (r: Vec<u8>)
    requires
        m@.len() > 0,
        be_nat(m@) > 0,
    ensures
        r@.len() == m@.len(),
        be_nat(r@) == pow256(m@.len()) - be_nat(m@),
{
    let mut t: usize = m.len() - 1;
    while m[t] == 0
        invariant
            0 <= t < m@.len(),
            forall|i: int| t < i < m@.len() ==> m@[i] == 0,
            be_nat(m@) > 0,
        decreases t,
    {
        if t == 0 {
            proof {
                lemma_be_nat_all_zero(m@);
            }
        }
        t = t - 1;
    }
    let mut r: Vec<u8> = Vec::new();
    let mut i: usize = 0;
    while i < m.len()
        invariant
            t < m@.len() == m.len(),
            i <= m@.len(),
            r@.len() == i,
            forall|j: int| 0 <= j < i && j < t ==> r@[j] == 255 - m@[j],
            i > t ==> r@[t as int] == 256 - m@[t as int],
            forall|j: int| t < j < i ==> r@[j] == 0,
            m@[t as int] != 0,
            forall|j: int| t < j < m@.len() ==> m@[j] == 0,
        decreases m@.len() - i,
    {
        if i < t {
            r.push(255 - m[i]);
        } else if i == t {
            r.push((255 - m[i]) + 1);
        } else {
            r.push(0);
        }
        i = i + 1;
    }
    proof {
        lemma_twos_complement(m@, r@, t as int);
    }
    r
}

/// The body of the wire encoding of the integer `v`: minimal two's-complement
/// big-endian bytes, with a guard byte where the sign bit needs one.
pub open spec fn spec_mpint_body(v: int) -> Seq<u8> {
    if v == 0 {
        Seq::empty()
    } else if v > 0 {
        let m = min_be(v as nat);
        if m[0] >= 128 {
            seq![0u8] + m
        } else {
            m
        }
    } else {
        let m = min_be((-v) as nat);
        let full = if m[0] >= 128 {
            (m.len() + 1) as nat
        } else {
            m.len()
        };
        be_pad((pow256(full) as int + v) as nat, full)
    }
}

/// The full wire encoding of the integer `v`: 4-byte length, then the body.
pub open spec fn spec_mpint_enc(v: int) -> Seq<u8> {
    be_pad(spec_mpint_body(v).len(), 4) + spec_mpint_body(v)
}

/// The integer a wire body denotes: the empty body is zero, a set sign bit
/// reads as two's complement.
pub open spec fn spec_mpint_decode(body: Seq<u8>) -> int {
    if body.len() == 0 {
        0
    } else if body[0] < 128 {
        be_nat(body) as int
    } else {
        be_nat(body) as int - pow256(body.len()) as int
    }
}

/// Law: on the wire, an encoded integer followed by anything else parses
/// back to that integer, leaving exactly the rest unread — which is what
/// `read_mpint` promises of a stream that opens with what `write_mpint`
/// appended.
pub proof fn lemma_mpint_wire_round_trip(v: int, rest: Seq<u8>)
    requires
        spec_mpint_body(v).len() <= u32::MAX,
    ensures
        ({
            let s = spec_mpint_enc(v) + rest;
            let len = be_nat(s.take(4));
            &&& len == spec_mpint_body(v).len()
            &&& s.len() >= 4 + len
            &&& spec_mpint_decode(s.subrange(4, 4 + len as int)) == v
            &&& s.skip(4 + len as int) == rest
        }),
{
    let body = spec_mpint_body(v);
    let s = spec_mpint_enc(v) + rest;
    lemma_be_pad_len(body.len(), 4);
    assert(s.take(4) =~= be_pad(body.len(), 4));
    assert(pow256(4) == 0x100000000) by {
        reveal_with_fuel(pow256, 5);
    }
    lemma_be_nat_be_pad(body.len(), 4);
    assert(s.subrange(4, 4 + body.len() as int) =~= body);
    assert(s.skip(4 + body.len() as int) =~= rest);
    lemma_mpint_round_trip(v);
}

/// Law: decoding an encoded body gives the integer back, for every integer —
/// zero, magnitudes whose top bit forces a guard byte, and negative values
/// alike.  `write_mpint` followed by `read_mpint` is the identity.
pub proof fn lemma_mpint_round_trip(v: int)
    ensures
        spec_mpint_decode(spec_mpint_body(v)) == v,
{
    if v > 0 {
        let m = min_be(v as nat);
        lemma_min_be_wf(v as nat);
        lemma_be_nat_min_be(v as nat);
        if m[0] >= 128 {
            let body = seq![0u8] + m;
            lemma_be_nat_append(seq![0u8], m);
            assert(be_nat(seq![0u8]) == 0) by {
                assert(seq![0u8].len() == 1);
                assert(seq![0u8].last() == 0u8);
                assert(seq![0u8].drop_last() =~= Seq::<u8>::empty());
                assert(be_nat(Seq::<u8>::empty()) == 0);
            }
            assert(body[0] == 0);
            assert(be_nat(body) == be_nat(seq![0u8]) * pow256(m.len()) + be_nat(m));
            assert(be_nat(seq![0u8]) * pow256(m.len()) == 0) by {
                vstd::arithmetic::mul::lemma_mul_basics(pow256(m.len()) as int);
            }
            assert(be_nat(body) == v);
        }
    } else if v < 0 {
        let mm = (-v) as nat;
        let m = min_be(mm);
        lemma_min_be_wf(mm);
        lemma_be_nat_min_be(mm);
        lemma_be_nat_bound(m);
        let l0 = m.len();
        let p = pow256((l0 - 1) as nat);
        lemma_pow256_pos((l0 - 1) as nat);
        assert(pow256(l0) == 256 * p);
        if m[0] >= 128 {
            let full = (l0 + 1) as nat;
            let n = (pow256(full) as int + v) as nat;
            assert(pow256(full) == 256 * pow256(l0));
            assert(n == pow256(full) - mm);
            assert(n < pow256(full));
            lemma_be_nat_be_pad(n, full);
            let body = be_pad(n, full);
            assert(n >= 128 * pow256(l0));
            lemma_be_msb(body);
            assert(body[0] >= 128);
            assert(spec_mpint_decode(body) == v);
        } else {
            let n = (pow256(l0) as int + v) as nat;
            lemma_be_nat_first_byte_bound(m);
            assert((m[0] + 1) * p <= 128 * p) by {
                vstd::arithmetic::mul::lemma_mul_inequality(m[0] + 1, 128, p as int);
            }
            assert(mm < 128 * p);
            assert(n == pow256(l0) - mm);
            assert(n >= 128 * p);
            lemma_be_nat_be_pad(n, l0);
            let body = be_pad(n, l0);
            lemma_be_msb(body);
            assert(body[0] >= 128);
            assert(spec_mpint_decode(body) == v);
        }
    }
}

} // verus!
