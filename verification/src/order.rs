//! A total order on values through lexicographic keys.
//!
//! Algorithm negotiation sorts and compares names.  Verified code cannot
//! lean on the standard library's derived comparisons, so ordered values
//! carry an explicit key: a sequence of integers compared lexicographically.
//! Algorithm names order by their character code points, which matches the
//! standard ordering of strings.

use vstd::prelude::*;

verus! {

/// Lexicographic order on integer sequences: a proper prefix comes first,
/// otherwise the first differing position decides.
pub open spec fn lex_le(a: Seq<int>, b: Seq<int>) -> bool
    decreases a.len(),
{
    if a.len() == 0 {
        true
    } else if b.len() == 0 {
        false
    } else if a[0] < b[0] {
        true
    } else if a[0] > b[0] {
        false
    } else {
        lex_le(a.skip(1), b.skip(1))
    }
}

/// Strict lexicographic order.
pub open spec fn lex_lt(a: Seq<int>, b: Seq<int>) -> bool {
    lex_le(a, b) && a != b
}

pub proof fn lemma_lex_le_reflexive(a: Seq<int>)
    ensures
        lex_le(a, a),
    decreases a.len(),
{
    if a.len() > 0 {
        lemma_lex_le_reflexive(a.skip(1));
    }
}

pub proof fn lemma_lex_le_total(a: Seq<int>, b: Seq<int>)
    ensures
        lex_le(a, b) || lex_le(b, a),
    decreases a.len(),
{
    if a.len() > 0 && b.len() > 0 && a[0] == b[0] {
        lemma_lex_le_total(a.skip(1), b.skip(1));
    }
}

pub proof fn lemma_lex_le_antisymmetric(a: Seq<int>, b: Seq<int>)
    requires
        lex_le(a, b),
        lex_le(b, a),
    ensures
        a == b,
    decreases a.len(),
{
    if a.len() == 0 {
        assert(b.len() == 0);
        assert(a =~= b);
    } else {
        assert(a[0] == b[0]);
        lemma_lex_le_antisymmetric(a.skip(1), b.skip(1));
        assert(a =~= b) by {
            assert(forall|i: int|
                0 < i < a.len() ==> a[i] == a.skip(1)[i - 1] && b[i] == b.skip(1)[i - 1]);
        }
    }
}

pub proof fn lemma_lex_le_transitive(a: Seq<int>, b: Seq<int>, c: Seq<int>)
    requires
        lex_le(a, b),
        lex_le(b, c),
    ensures
        lex_le(a, c),
    decreases a.len(),
{
    if a.len() > 0 && b.len() > 0 && c.len() > 0 && a[0] == b[0] && b[0] == c[0] {
        lemma_lex_le_transitive(a.skip(1), b.skip(1), c.skip(1));
    }
}

/// Sequences that agree on a prefix compare as their suffixes do.
pub proof fn lemma_lex_le_common_prefix(a: Seq<int>, b: Seq<int>, i: int)
    requires
        0 <= i <= a.len(),
        i <= b.len(),
        forall|j: int| 0 <= j < i ==> a[j] == b[j],
    ensures
        lex_le(a, b) == lex_le(a.skip(i), b.skip(i)),
    decreases i,
{
    if i == 0 {
        assert(a.skip(0) =~= a);
        assert(b.skip(0) =~= b);
    } else {
        assert(a.len() > 0 && b.len() > 0 && a[0] == b[0]);
        assert(forall|j: int| 0 <= j < i - 1 ==> a.skip(1)[j] == b.skip(1)[j]);
        lemma_lex_le_common_prefix(a.skip(1), b.skip(1), i - 1);
        assert(a.skip(1).skip(i - 1) =~= a.skip(i));
        assert(b.skip(1).skip(i - 1) =~= b.skip(i));
        assert(lex_le(a, b) == lex_le(a.skip(1), b.skip(1)));
    }
}

/// A value ordered by an explicit lexicographic key.
pub trait LexOrd: Sized {
    /// The key this value is ordered and identified by.
    spec fn key(&self) -> Seq<int>;

    /// Whether `self` comes no later than `other` in the key order.
    fn le(&self, other: &Self) -> (r: bool)
        ensures
            r == lex_le(self.key(), other.key()),
    ;

    /// A copy of this value, with the same key.
    fn duplicate(&self) -> (r: Self)
        ensures
            r.key() == self.key(),
    ;
}

impl LexOrd for u64 {
    open spec fn key(&self) -> Seq<int> {
        seq![*self as int]
    }

    fn le(&self, other: &Self) -> (r: bool) {
        proof {
            let a = self.key();
            let b = other.key();
            assert(a.len() == 1 && b.len() == 1);
            assert(a[0] == *self as int && b[0] == *other as int);
            if a[0] == b[0] {
                assert(lex_le(a.skip(1), b.skip(1)));
            }
        }
        *self <= *other
    }

    fn duplicate(&self) -> (r: Self) {
        *self
    }
}

/// The keys of a sequence of ordered values.
pub open spec fn spec_keys<T: LexOrd>(s: Seq<T>) -> Seq<Seq<int>> {
    s.map_values(|x: T| x.key())
}

/// Strictly ascending keys: sorted, and free of duplicates.
pub open spec fn sorted_keys(keys: Seq<Seq<int>>) -> bool {
    forall|i: int, j: int|
        0 <= i < j < keys.len() ==> lex_lt(#[trigger] keys[i], #[trigger] keys[j])
}

/// `out` is the strictly sorted intersection of `k1` and `k2`: it holds
/// exactly the keys present in both, each once, in ascending order.
pub open spec fn spec_sorted_key_intersection(
    k1: Seq<Seq<int>>,
    k2: Seq<Seq<int>>,
    out: Seq<Seq<int>>,
) -> bool {
    &&& sorted_keys(out)
    &&& forall|k: Seq<int>| #![auto] out.contains(k) <==> k1.contains(k) && k2.contains(k)
}

/// Two strictly sorted key sequences with the same members are the same
/// sequence.
pub proof fn lemma_sorted_keys_unique(a: Seq<Seq<int>>, b: Seq<Seq<int>>)
    requires
        sorted_keys(a),
        sorted_keys(b),
        forall|k: Seq<int>| #![auto] a.contains(k) <==> b.contains(k),
    ensures
        a == b,
    decreases a.len(),
{
    if a.len() == 0 {
        if b.len() > 0 {
            assert(b.contains(b[0]));
            assert(a.contains(b[0]));
        }
        assert(a =~= b);
    } else if b.len() == 0 {
        assert(a.contains(a[0]));
        assert(b.contains(a[0]));
    } else {
        assert(a.contains(a[0]));
        assert(b.contains(b[0]));
        let ja = choose|j: int| 0 <= j < b.len() && b[j] == a[0];
        let jb = choose|j: int| 0 <= j < a.len() && a[j] == b[0];
        assert(lex_le(b[0], a[0])) by {
            if ja == 0 {
                lemma_lex_le_reflexive(a[0]);
            } else {
                assert(lex_lt(b[0], b[ja]));
            }
        }
        assert(lex_le(a[0], b[0])) by {
            if jb == 0 {
                lemma_lex_le_reflexive(b[0]);
            } else {
                assert(lex_lt(a[0], a[jb]));
            }
        }
        lemma_lex_le_antisymmetric(a[0], b[0]);
        let at = a.skip(1);
        let bt = b.skip(1);
        assert(sorted_keys(at)) by {
            assert(forall|i: int, j: int|
                0 <= i < j < at.len() ==> at[i] == a[i + 1] && at[j] == a[j + 1]);
        }
        assert(sorted_keys(bt)) by {
            assert(forall|i: int, j: int|
                0 <= i < j < bt.len() ==> bt[i] == b[i + 1] && bt[j] == b[j + 1]);
        }
        assert(forall|k: Seq<int>| #![auto] at.contains(k) <==> bt.contains(k)) by {
            assert forall|k: Seq<int>| #![auto] at.contains(k) implies bt.contains(k) by {
                let i = choose|i: int| 0 <= i < at.len() && at[i] == k;
                assert(a[i + 1] == k);
                assert(a.contains(k));
                assert(lex_lt(a[0], a[i + 1]));
                let j = choose|j: int| 0 <= j < b.len() && b[j] == k;
                assert(j != 0);
                assert(bt[j - 1] == k);
            }
            assert forall|k: Seq<int>| #![auto] bt.contains(k) implies at.contains(k) by {
                let i = choose|i: int| 0 <= i < bt.len() && bt[i] == k;
                assert(b[i + 1] == k);
                assert(b.contains(k));
                assert(lex_lt(b[0], b[i + 1]));
                let j = choose|j: int| 0 <= j < a.len() && a[j] == k;
                assert(j != 0);
                assert(at[j - 1] == k);
            }
        }
        lemma_sorted_keys_unique(at, bt);
        assert(a =~= b) by {
            assert(forall|i: int| 0 < i < a.len() ==> a[i] == at[i - 1] && b[i] == bt[i - 1]);
        }
    }
}

/// The sorted intersection of two key sequences is unique, and does not
/// depend on the order of its two inputs.
pub proof fn lemma_sorted_key_intersection_unique(
    k1: Seq<Seq<int>>,
    k2: Seq<Seq<int>>,
    out1: Seq<Seq<int>>,
    out2: Seq<Seq<int>>,
)
    requires
        spec_sorted_key_intersection(k1, k2, out1),
        spec_sorted_key_intersection(k2, k1, out2),
    ensures
        out1 == out2,
{
    assert(forall|k: Seq<int>| #![auto] out1.contains(k) <==> out2.contains(k));
    lemma_sorted_keys_unique(out1, out2);
}

/// Whether some value of `v` has the key of `x`.
pub(crate) fn contains_key<T: LexOrd>(v: &Vec<T>, x: &T) -> (r: bool)
    ensures
        r == spec_keys(v@).contains(x.key()),
{
    let mut i: usize = 0;
    while i < v.len()
        invariant
            i <= v@.len(),
            forall|j: int| 0 <= j < i ==> spec_keys(v@)[j] != x.key(),
        decreases v@.len() - i,
    {
        let le1 = v[i].le(x);
        let le2 = x.le(&v[i]);
        if le1 && le2 {
            proof {
                lemma_lex_le_antisymmetric(v@[i as int].key(), x.key());
                assert(spec_keys(v@)[i as int] == x.key());
            }
            return true;
        }
        proof {
            if spec_keys(v@)[i as int] == x.key() {
                lemma_lex_le_reflexive(x.key());
                assert(false);
            }
        }
        i = i + 1;
    }
    proof {
        if spec_keys(v@).contains(x.key()) {
            let j = choose|j: int| 0 <= j < spec_keys(v@).len() && spec_keys(v@)[j] == x.key();
            assert(false);
        }
    }
    false
}

/// Insert a value whose key is not yet present, keeping the keys strictly
/// sorted.
pub(crate) fn insert_sorted<T: LexOrd>(r: &mut Vec<T>, x: T)
    requires
        sorted_keys(spec_keys(old(r)@)),
        !spec_keys(old(r)@).contains(x.key()),
    ensures
        final(r)@.len() == old(r)@.len() + 1,
        sorted_keys(spec_keys(final(r)@)),
        forall|k: Seq<int>| #![auto]
            spec_keys(final(r)@).contains(k) <==> spec_keys(old(r)@).contains(k) || k == x.key(),
{
    let ghost xk = x.key();
    let ghost oldkeys = spec_keys(old(r)@);
    let mut j: usize = 0;
    while j < r.len()
        invariant
            j <= r@.len(),
            r@ == old(r)@,
            xk == x.key(),
            !spec_keys(r@).contains(xk),
            forall|m: int| 0 <= m < j ==> lex_lt(#[trigger] spec_keys(r@)[m], xk),
        ensures
            j <= r@.len(),
            r@ == old(r)@,
            forall|m: int| 0 <= m < j ==> lex_lt(#[trigger] spec_keys(r@)[m], xk),
            j == r@.len() || lex_lt(xk, spec_keys(r@)[j as int]),
        decreases r@.len() - j,
    {
        let cont = r[j].le(&x);
        proof {
            if spec_keys(r@)[j as int] == xk {
                assert(spec_keys(r@).contains(xk));
            }
        }
        if !cont {
            proof {
                lemma_lex_le_total(spec_keys(r@)[j as int], xk);
            }
            break ;
        }
        j = j + 1;
    }
    let ghost jj = j as int;
    r.insert(j, x);
    proof {
        let newkeys = spec_keys(r@);
        assert(newkeys =~= oldkeys.insert(jj, xk)) by {
            assert(r@ == old(r)@.insert(jj, x));
            assert(forall|m: int| 0 <= m < jj ==> r@[m] == old(r)@[m]);
            assert(r@[jj] == x);
            assert(forall|m: int| jj < m < r@.len() ==> r@[m] == old(r)@[m - 1]);
        }
        assert(sorted_keys(newkeys)) by {
            assert forall|i1: int, i2: int| 0 <= i1 < i2 < newkeys.len() implies lex_lt(
                #[trigger] newkeys[i1],
                #[trigger] newkeys[i2],
            ) by {
                if i1 < jj && i2 < jj {
                } else if i1 < jj && i2 == jj {
                    assert(newkeys[i1] == oldkeys[i1] && newkeys[i2] == xk);
                } else if i1 < jj && i2 > jj {
                    assert(newkeys[i1] == oldkeys[i1] && newkeys[i2] == oldkeys[i2 - 1]);
                } else if i1 == jj {
                    assert(newkeys[i1] == xk && newkeys[i2] == oldkeys[i2 - 1]);
                    if i2 - 1 > jj {
                        assert(lex_lt(xk, oldkeys[jj]));
                        assert(lex_lt(oldkeys[jj], oldkeys[i2 - 1]));
                        lemma_lex_le_transitive(xk, oldkeys[jj], oldkeys[i2 - 1]);
                        if xk == oldkeys[i2 - 1] {
                            lemma_lex_le_antisymmetric(oldkeys[jj], oldkeys[i2 - 1]);
                        }
                    }
                } else {
                    assert(newkeys[i1] == oldkeys[i1 - 1] && newkeys[i2] == oldkeys[i2 - 1]);
                }
            }
        }
        assert forall|k: Seq<int>| #![auto]
            newkeys.contains(k) <==> oldkeys.contains(k) || k == xk by {
            if newkeys.contains(k) {
                let m = choose|m: int| 0 <= m < newkeys.len() && newkeys[m] == k;
                if m < jj {
                    assert(oldkeys[m] == k);
                    assert(oldkeys.contains(k));
                } else if m == jj {
                } else {
                    assert(oldkeys[m - 1] == k);
                    assert(oldkeys.contains(k));
                }
            }
            if oldkeys.contains(k) {
                let m = choose|m: int| 0 <= m < oldkeys.len() && oldkeys[m] == k;
                if m < jj {
                    assert(newkeys[m] == k);
                } else {
                    assert(newkeys[m + 1] == k);
                }
                assert(newkeys.contains(k));
            }
            if k == xk {
                assert(newkeys[jj] == k);
                assert(newkeys.contains(k));
            }
        }
    }
}

/// The key of a character string: its sequence of code points.
pub open spec fn str_key(s: Seq<char>) -> Seq<int> {
    s.map_values(|c: char| (c as u32) as int)
}

/// Distinct strings have distinct keys.
pub proof fn lemma_str_key_injective(a: Seq<char>, b: Seq<char>)
    requires
        str_key(a) == str_key(b),
    ensures
        a == b,
{
    assert(a.len() == str_key(a).len());
    assert(b.len() == str_key(b).len());
    assert forall|i: int| 0 <= i < a.len() implies a[i] == b[i] by {
        assert(str_key(a)[i] == (a[i] as u32) as int);
        assert(str_key(b)[i] == (b[i] as u32) as int);
        vstd::utf8::char_u32_cast(a[i], a[i] as u32);
        vstd::utf8::char_u32_cast(b[i], b[i] as u32);
    }
    assert(a =~= b);
}

impl LexOrd for String {
    open spec fn key(&self) -> Seq<int> {
        str_key(self@)
    }

    fn le(&self, other: &Self) -> (r: bool) {
        let a = self.as_str();
        let b = other.as_str();
        let alen = a.unicode_len();
        let blen = b.unicode_len();
        let mut i: usize = 0;
        while i < alen && i < blen
            invariant
                a@ == self@,
                b@ == other@,
                alen == a@.len(),
                blen == b@.len(),
                i <= alen,
                i <= blen,
                forall|j: int| 0 <= j < i ==> a@[j] == b@[j],
            decreases alen - i,
        {
            let ca = a.get_char(i) as u32;
            let cb = b.get_char(i) as u32;
            proof {
                lemma_lex_le_common_prefix(self.key(), other.key(), i as int);
                assert(self.key().skip(i as int)[0] == ca as int);
                assert(other.key().skip(i as int)[0] == cb as int);
            }
            if ca < cb {
                return true;
            }
            if ca > cb {
                return false;
            }
            i = i + 1;
        }
        proof {
            lemma_lex_le_common_prefix(self.key(), other.key(), i as int);
            if alen <= blen {
                assert(self.key().skip(i as int).len() == 0);
            } else {
                assert(other.key().skip(i as int).len() == 0);
                assert(self.key().skip(i as int).len() > 0);
            }
        }
        alen <= blen
    }

    fn duplicate(&self) -> (r: Self) {
        self.clone()
    }
}

} // verus!
