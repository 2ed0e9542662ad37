//! The algorithm capability model.
//!
//! One endpoint's supported algorithm names, across the ten negotiation
//! categories of the key-exchange-init message, and the ordered-set
//! intersection that negotiation computes from two such sets.

use vstd::prelude::*;

use crate::order::{
    contains_key, insert_sorted, lemma_lex_le_reflexive, lemma_sorted_key_intersection_unique,
    lemma_str_key_injective, lex_lt, sorted_keys, spec_keys, spec_sorted_key_intersection, str_key,
    LexOrd,
};

verus! {

/// Configuration shared by both endpoint roles.
pub trait CommonConfig {

}

/// Configuration of the client role.
pub trait ClientConfig {

}

/// Configuration of the server role.
pub trait ServerConfig {

}

/// The abstract content of a capability set: ten sequences of algorithm
/// names, one per negotiation category, in wire order.
pub struct AlgorithmLists {
    pub kex_algorithms: Seq<Seq<char>>,
    pub server_host_key_algorithms: Seq<Seq<char>>,
    pub encryption_algorithms_client_to_server: Seq<Seq<char>>,
    pub encryption_algorithms_server_to_client: Seq<Seq<char>>,
    pub mac_algorithms_client_to_server: Seq<Seq<char>>,
    pub mac_algorithms_server_to_client: Seq<Seq<char>>,
    pub compression_algorithms_client_to_server: Seq<Seq<char>>,
    pub compression_algorithms_server_to_client: Seq<Seq<char>>,
    pub languages_client_to_server: Seq<Seq<char>>,
    pub languages_server_to_client: Seq<Seq<char>>,
}

/// Every category offers at least one algorithm.
pub open spec fn spec_lists_complete(l: AlgorithmLists) -> bool {
    &&& l.kex_algorithms.len() > 0
    &&& l.server_host_key_algorithms.len() > 0
    &&& l.encryption_algorithms_client_to_server.len() > 0
    &&& l.encryption_algorithms_server_to_client.len() > 0
    &&& l.mac_algorithms_client_to_server.len() > 0
    &&& l.mac_algorithms_server_to_client.len() > 0
    &&& l.compression_algorithms_client_to_server.len() > 0
    &&& l.compression_algorithms_server_to_client.len() > 0
    &&& l.languages_client_to_server.len() > 0
    &&& l.languages_server_to_client.len() > 0
}

/// One concrete capability set: the ten name lists as they stand in the
/// key-exchange-init message.
pub struct AvailableAlgorithmSet {
    pub kex_algorithms: Vec<String>,
    pub server_host_key_algorithms: Vec<String>,
    pub encryption_algorithms_client_to_server: Vec<String>,
    pub encryption_algorithms_server_to_client: Vec<String>,
    pub mac_algorithms_client_to_server: Vec<String>,
    pub mac_algorithms_server_to_client: Vec<String>,
    pub compression_algorithms_client_to_server: Vec<String>,
    pub compression_algorithms_server_to_client: Vec<String>,
    pub languages_client_to_server: Vec<String>,
    pub languages_server_to_client: Vec<String>,
}

/// The abstract content of a concrete capability set.
pub open spec fn spec_set_lists(s: AvailableAlgorithmSet) -> AlgorithmLists {
    AlgorithmLists {
        kex_algorithms: s.kex_algorithms.deep_view(),
        server_host_key_algorithms: s.server_host_key_algorithms.deep_view(),
        encryption_algorithms_client_to_server:
            s.encryption_algorithms_client_to_server.deep_view(),
        encryption_algorithms_server_to_client:
            s.encryption_algorithms_server_to_client.deep_view(),
        mac_algorithms_client_to_server: s.mac_algorithms_client_to_server.deep_view(),
        mac_algorithms_server_to_client: s.mac_algorithms_server_to_client.deep_view(),
        compression_algorithms_client_to_server:
            s.compression_algorithms_client_to_server.deep_view(),
        compression_algorithms_server_to_client:
            s.compression_algorithms_server_to_client.deep_view(),
        languages_client_to_server: s.languages_client_to_server.deep_view(),
        languages_server_to_client: s.languages_server_to_client.deep_view(),
    }
}

/// A capability object: whatever can report its supported algorithm names
/// per category.  Configuration sources implement this; the negotiation code
/// only reads through it.
pub trait AvailableAlgorithms: Sized {
    /// The names this object reports, per category.
    spec fn spec_algorithms(&self) -> AlgorithmLists;

    fn get_available_kex_algorithms(&self) -> (r: Vec<String>)
        ensures
            r.deep_view() == self.spec_algorithms().kex_algorithms,
    ;

    fn get_available_server_host_key_algorithms(&self) -> (r: Vec<String>)
        ensures
            r.deep_view() == self.spec_algorithms().server_host_key_algorithms,
    ;

    fn get_available_encryption_algorithms_client_to_server(&self) -> (r: Vec<String>)
        ensures
            r.deep_view() == self.spec_algorithms().encryption_algorithms_client_to_server,
    ;

    fn get_available_encryption_algorithms_server_to_client(&self) -> (r: Vec<String>)
        ensures
            r.deep_view() == self.spec_algorithms().encryption_algorithms_server_to_client,
    ;

    fn get_available_mac_algorithms_client_to_server(&self) -> (r: Vec<String>)
        ensures
            r.deep_view() == self.spec_algorithms().mac_algorithms_client_to_server,
    ;

    fn get_available_mac_algorithms_server_to_client(&self) -> (r: Vec<String>)
        ensures
            r.deep_view() == self.spec_algorithms().mac_algorithms_server_to_client,
    ;

    fn get_available_compression_algorithms_client_to_server(&self) -> (r: Vec<String>)
        ensures
            r.deep_view() == self.spec_algorithms().compression_algorithms_client_to_server,
    ;

    fn get_available_compression_algorithms_server_to_client(&self) -> (r: Vec<String>)
        ensures
            r.deep_view() == self.spec_algorithms().compression_algorithms_server_to_client,
    ;

    fn get_available_languages_client_to_server(&self) -> (r: Vec<String>)
        ensures
            r.deep_view() == self.spec_algorithms().languages_client_to_server,
    ;

    fn get_available_languages_server_to_client(&self) -> (r: Vec<String>)
        ensures
            r.deep_view() == self.spec_algorithms().languages_server_to_client,
    ;

    /// Whether every category offers at least one algorithm; an incomplete
    /// set must not be offered to a peer.
    fn is_complete(&self) -> (r: bool)
        ensures
            r == spec_lists_complete(self.spec_algorithms()),
    {
        self.get_available_kex_algorithms().len() > 0
            && self.get_available_server_host_key_algorithms().len() > 0
            && self.get_available_encryption_algorithms_client_to_server().len() > 0
            && self.get_available_encryption_algorithms_server_to_client().len() > 0
            && self.get_available_mac_algorithms_client_to_server().len() > 0
            && self.get_available_mac_algorithms_server_to_client().len() > 0
            && self.get_available_compression_algorithms_client_to_server().len() > 0
            && self.get_available_compression_algorithms_server_to_client().len() > 0
            && self.get_available_languages_client_to_server().len() > 0
            && self.get_available_languages_server_to_client().len() > 0
    }

    /// A concrete copy of what this object reports.
    fn copy_as_set(&self) -> (r: AvailableAlgorithmSet)
        ensures
            spec_set_lists(r) == self.spec_algorithms(),
    {
        AvailableAlgorithmSet {
            kex_algorithms: self.get_available_kex_algorithms(),
            server_host_key_algorithms: self.get_available_server_host_key_algorithms(),
            encryption_algorithms_client_to_server:
                self.get_available_encryption_algorithms_client_to_server(),
            encryption_algorithms_server_to_client:
                self.get_available_encryption_algorithms_server_to_client(),
            mac_algorithms_client_to_server: self.get_available_mac_algorithms_client_to_server(),
            mac_algorithms_server_to_client: self.get_available_mac_algorithms_server_to_client(),
            compression_algorithms_client_to_server:
                self.get_available_compression_algorithms_client_to_server(),
            compression_algorithms_server_to_client:
                self.get_available_compression_algorithms_server_to_client(),
            languages_client_to_server: self.get_available_languages_client_to_server(),
            languages_server_to_client: self.get_available_languages_server_to_client(),
        }
    }
}

/// Clone a list of names; the clone reports the same names.
fn clone_names(v: &Vec<String>) -> (r: Vec<String>)
    ensures
        r.deep_view() == v.deep_view(),
{
    let r = v.clone();
    proof {
        assert(r.deep_view() =~= v.deep_view());
    }
    r
}

impl AvailableAlgorithms for AvailableAlgorithmSet {
    open spec fn spec_algorithms(&self) -> AlgorithmLists {
        spec_set_lists(*self)
    }

    fn get_available_kex_algorithms(&self) -> (r: Vec<String>) {
        clone_names(&self.kex_algorithms)
    }

    fn get_available_server_host_key_algorithms(&self) -> (r: Vec<String>) {
        clone_names(&self.server_host_key_algorithms)
    }

    fn get_available_encryption_algorithms_client_to_server(&self) -> (r: Vec<String>) {
        clone_names(&self.encryption_algorithms_client_to_server)
    }

    fn get_available_encryption_algorithms_server_to_client(&self) -> (r: Vec<String>) {
        clone_names(&self.encryption_algorithms_server_to_client)
    }

    fn get_available_mac_algorithms_client_to_server(&self) -> (r: Vec<String>) {
        clone_names(&self.mac_algorithms_client_to_server)
    }

    fn get_available_mac_algorithms_server_to_client(&self) -> (r: Vec<String>) {
        clone_names(&self.mac_algorithms_server_to_client)
    }

    fn get_available_compression_algorithms_client_to_server(&self) -> (r: Vec<String>) {
        clone_names(&self.compression_algorithms_client_to_server)
    }

    fn get_available_compression_algorithms_server_to_client(&self) -> (r: Vec<String>) {
        clone_names(&self.compression_algorithms_server_to_client)
    }

    fn get_available_languages_client_to_server(&self) -> (r: Vec<String>) {
        clone_names(&self.languages_client_to_server)
    }

    fn get_available_languages_server_to_client(&self) -> (r: Vec<String>) {
        clone_names(&self.languages_server_to_client)
    }
}

/// The sorted duplicate-free intersection of two value lists, compared and
/// ordered by their keys.
pub fn vector_intersection<T: LexOrd>(vec1: Vec<T>, vec2: Vec<T>) -> (r: Vec<T>)
    ensures
        spec_sorted_key_intersection(spec_keys(vec1@), spec_keys(vec2@), spec_keys(r@)),
{
    let mut r: Vec<T> = Vec::new();
    proof {
        assert(spec_keys(r@) =~= Seq::<Seq<int>>::empty());
        assert(spec_keys(vec1@.take(0)) =~= Seq::<Seq<int>>::empty());
    }
    let mut i: usize = 0;
    while i < vec1.len()
        invariant
            i <= vec1@.len(),
            sorted_keys(spec_keys(r@)),
            forall|k: Seq<int>| #![auto]
                spec_keys(r@).contains(k) <==> (spec_keys(vec1@.take(i as int)).contains(k)
                    && spec_keys(vec2@).contains(k)),
        decreases vec1@.len() - i,
    {
        let x = &vec1[i];
        let ghost xk = x.key();
        let ghost prefix = spec_keys(vec1@.take(i as int));
        let in2 = contains_key(&vec2, x);
        let dup = contains_key(&r, x);
        proof {
            assert(spec_keys(vec1@.take(i + 1)) =~= prefix.push(xk));
            assert(forall|k: Seq<int>| #![auto]
                prefix.push(xk).contains(k) <==> prefix.contains(k) || k == xk) by {
                assert forall|k: Seq<int>| #![auto]
                    prefix.contains(k) implies prefix.push(xk).contains(k) by {
                    let m = choose|m: int| 0 <= m < prefix.len() && prefix[m] == k;
                    assert(prefix.push(xk)[m] == k);
                }
                assert(prefix.push(xk)[prefix.len() as int] == xk);
                assert(prefix.push(xk).contains(xk));
                assert forall|k: Seq<int>| #![auto]
                    prefix.push(xk).contains(k) implies prefix.contains(k) || k == xk by {
                    let m = choose|m: int|
                        0 <= m < prefix.push(xk).len() && prefix.push(xk)[m] == k;
                    if m < prefix.len() {
                        assert(prefix[m] == k);
                    }
                }
            }
        }
        if in2 && !dup {
            insert_sorted(&mut r, x.duplicate());
        }
        i = i + 1;
    }
    proof {
        assert(vec1@.take(vec1@.len() as int) =~= vec1@);
    }
    r
}

/// The keys of a sequence of names.
pub open spec fn spec_name_keys(names: Seq<Seq<char>>) -> Seq<Seq<int>> {
    names.map_values(|n: Seq<char>| str_key(n))
}

/// `out` is the sorted duplicate-free intersection of the name lists `a`
/// and `b`.
pub open spec fn spec_is_name_intersection(
    a: Seq<Seq<char>>,
    b: Seq<Seq<char>>,
    out: Seq<Seq<char>>,
) -> bool {
    spec_sorted_key_intersection(spec_name_keys(a), spec_name_keys(b), spec_name_keys(out))
}

/// The keys of a vector of names are the keys of its name sequences.
proof fn lemma_vec_string_keys(v: &Vec<String>)
    ensures
        spec_keys(v@) == spec_name_keys(v.deep_view()),
{
    assert(spec_keys(v@) =~= spec_name_keys(v.deep_view()));
}

/// The sorted intersection of two name lists.
fn intersect_names(v1: Vec<String>, v2: Vec<String>) -> (r: Vec<String>)
    ensures
        spec_is_name_intersection(v1.deep_view(), v2.deep_view(), r.deep_view()),
{
    proof {
        lemma_vec_string_keys(&v1);
        lemma_vec_string_keys(&v2);
    }
    let r = vector_intersection(v1, v2);
    proof {
        lemma_vec_string_keys(&r);
    }
    r
}

/// Each category of `out` is the sorted intersection of the corresponding
/// categories of `a` and `b`.
pub open spec fn spec_lists_intersection(
    a: AlgorithmLists,
    b: AlgorithmLists,
    out: AlgorithmLists,
) -> bool {
    &&& spec_is_name_intersection(a.kex_algorithms, b.kex_algorithms, out.kex_algorithms)
    &&& spec_is_name_intersection(
        a.server_host_key_algorithms,
        b.server_host_key_algorithms,
        out.server_host_key_algorithms,
    )
    &&& spec_is_name_intersection(
        a.encryption_algorithms_client_to_server,
        b.encryption_algorithms_client_to_server,
        out.encryption_algorithms_client_to_server,
    )
    &&& spec_is_name_intersection(
        a.encryption_algorithms_server_to_client,
        b.encryption_algorithms_server_to_client,
        out.encryption_algorithms_server_to_client,
    )
    &&& spec_is_name_intersection(
        a.mac_algorithms_client_to_server,
        b.mac_algorithms_client_to_server,
        out.mac_algorithms_client_to_server,
    )
    &&& spec_is_name_intersection(
        a.mac_algorithms_server_to_client,
        b.mac_algorithms_server_to_client,
        out.mac_algorithms_server_to_client,
    )
    &&& spec_is_name_intersection(
        a.compression_algorithms_client_to_server,
        b.compression_algorithms_client_to_server,
        out.compression_algorithms_client_to_server,
    )
    &&& spec_is_name_intersection(
        a.compression_algorithms_server_to_client,
        b.compression_algorithms_server_to_client,
        out.compression_algorithms_server_to_client,
    )
    &&& spec_is_name_intersection(
        a.languages_client_to_server,
        b.languages_client_to_server,
        out.languages_client_to_server,
    )
    &&& spec_is_name_intersection(
        a.languages_server_to_client,
        b.languages_server_to_client,
        out.languages_server_to_client,
    )
}

/// The negotiated capability set: for each of the ten categories, the sorted
/// intersection of what the two endpoints offer.  The order is canonical
/// (sorted), deliberately not the offering side's preference order.
pub fn intersect_available_algorithms<A: AvailableAlgorithms, B: AvailableAlgorithms>(
    set1: &A,
    set2: &B,
) -> (r: AvailableAlgorithmSet)
    ensures
        spec_lists_intersection(set1.spec_algorithms(), set2.spec_algorithms(), spec_set_lists(r)),
{
    AvailableAlgorithmSet {
        kex_algorithms: intersect_names(
            set1.get_available_kex_algorithms(),
            set2.get_available_kex_algorithms(),
        ),
        server_host_key_algorithms: intersect_names(
            set1.get_available_server_host_key_algorithms(),
            set2.get_available_server_host_key_algorithms(),
        ),
        encryption_algorithms_client_to_server: intersect_names(
            set1.get_available_encryption_algorithms_client_to_server(),
            set2.get_available_encryption_algorithms_client_to_server(),
        ),
        encryption_algorithms_server_to_client: intersect_names(
            set1.get_available_encryption_algorithms_server_to_client(),
            set2.get_available_encryption_algorithms_server_to_client(),
        ),
        mac_algorithms_client_to_server: intersect_names(
            set1.get_available_mac_algorithms_client_to_server(),
            set2.get_available_mac_algorithms_client_to_server(),
        ),
        mac_algorithms_server_to_client: intersect_names(
            set1.get_available_mac_algorithms_server_to_client(),
            set2.get_available_mac_algorithms_server_to_client(),
        ),
        compression_algorithms_client_to_server: intersect_names(
            set1.get_available_compression_algorithms_client_to_server(),
            set2.get_available_compression_algorithms_client_to_server(),
        ),
        compression_algorithms_server_to_client: intersect_names(
            set1.get_available_compression_algorithms_server_to_client(),
            set2.get_available_compression_algorithms_server_to_client(),
        ),
        languages_client_to_server: intersect_names(
            set1.get_available_languages_client_to_server(),
            set2.get_available_languages_client_to_server(),
        ),
        languages_server_to_client: intersect_names(
            set1.get_available_languages_server_to_client(),
            set2.get_available_languages_server_to_client(),
        ),
    }
}

/// Law: a name stands in a computed intersection exactly when it stands in
/// both inputs, category by category.
pub proof fn lemma_name_intersection_members(a: Seq<Seq<char>>, b: Seq<Seq<char>>, out: Seq<
    Seq<char>,
>)
    requires
        spec_is_name_intersection(a, b, out),
    ensures
        forall|n: Seq<char>| #![auto] out.contains(n) <==> a.contains(n) && b.contains(n),
{
    assert forall|n: Seq<char>| #![auto]
        out.contains(n) implies a.contains(n) && b.contains(n) by {
        let i = choose|i: int| 0 <= i < out.len() && out[i] == n;
        assert(spec_name_keys(out)[i] == str_key(n));
        assert(spec_name_keys(out).contains(str_key(n)));
        assert(spec_name_keys(a).contains(str_key(n)));
        let j = choose|j: int|
            0 <= j < spec_name_keys(a).len() && spec_name_keys(a)[j] == str_key(n);
        lemma_str_key_injective(a[j], n);
        assert(a.contains(n));
        assert(spec_name_keys(b).contains(str_key(n)));
        let j2 = choose|j2: int|
            0 <= j2 < spec_name_keys(b).len() && spec_name_keys(b)[j2] == str_key(n);
        lemma_str_key_injective(b[j2], n);
        assert(b.contains(n));
    }
    assert forall|n: Seq<char>| #![auto]
        a.contains(n) && b.contains(n) implies out.contains(n) by {
        let i = choose|i: int| 0 <= i < a.len() && a[i] == n;
        assert(spec_name_keys(a)[i] == str_key(n));
        assert(spec_name_keys(a).contains(str_key(n)));
        let j = choose|j: int| 0 <= j < b.len() && b[j] == n;
        assert(spec_name_keys(b)[j] == str_key(n));
        assert(spec_name_keys(b).contains(str_key(n)));
        assert(spec_name_keys(out).contains(str_key(n)));
        let m = choose|m: int|
            0 <= m < spec_name_keys(out).len() && spec_name_keys(out)[m] == str_key(n);
        lemma_str_key_injective(out[m], n);
        assert(out.contains(n));
    }
}

/// Law: the sorted intersection of two name lists does not depend on the
/// order of its inputs.
pub proof fn lemma_name_intersection_commutative(
    a: Seq<Seq<char>>,
    b: Seq<Seq<char>>,
    out1: Seq<Seq<char>>,
    out2: Seq<Seq<char>>,
)
    requires
        spec_is_name_intersection(a, b, out1),
        spec_is_name_intersection(b, a, out2),
    ensures
        out1 == out2,
{
    lemma_sorted_key_intersection_unique(
        spec_name_keys(a),
        spec_name_keys(b),
        spec_name_keys(out1),
        spec_name_keys(out2),
    );
    assert(out1 =~= out2) by {
        assert(spec_name_keys(out1).len() == out1.len());
        assert(spec_name_keys(out2).len() == out2.len());
        assert forall|i: int| 0 <= i < out1.len() implies out1[i] == out2[i] by {
            assert(spec_name_keys(out1)[i] == str_key(out1[i]));
            assert(spec_name_keys(out2)[i] == str_key(out2[i]));
            lemma_str_key_injective(out1[i], out2[i]);
        }
    }
}

/// Law: intersecting two capability sets is commutative — the negotiated
/// set is the same whichever endpoint's set comes first, in every category.
pub proof fn lemma_intersect_available_algorithms_commutative(
    a: AlgorithmLists,
    b: AlgorithmLists,
    r12: AlgorithmLists,
    r21: AlgorithmLists,
)
    requires
        spec_lists_intersection(a, b, r12),
        spec_lists_intersection(b, a, r21),
    ensures
        r12 == r21,
{
    lemma_name_intersection_commutative(
        a.kex_algorithms,
        b.kex_algorithms,
        r12.kex_algorithms,
        r21.kex_algorithms,
    );
    lemma_name_intersection_commutative(
        a.server_host_key_algorithms,
        b.server_host_key_algorithms,
        r12.server_host_key_algorithms,
        r21.server_host_key_algorithms,
    );
    lemma_name_intersection_commutative(
        a.encryption_algorithms_client_to_server,
        b.encryption_algorithms_client_to_server,
        r12.encryption_algorithms_client_to_server,
        r21.encryption_algorithms_client_to_server,
    );
    lemma_name_intersection_commutative(
        a.encryption_algorithms_server_to_client,
        b.encryption_algorithms_server_to_client,
        r12.encryption_algorithms_server_to_client,
        r21.encryption_algorithms_server_to_client,
    );
    lemma_name_intersection_commutative(
        a.mac_algorithms_client_to_server,
        b.mac_algorithms_client_to_server,
        r12.mac_algorithms_client_to_server,
        r21.mac_algorithms_client_to_server,
    );
    lemma_name_intersection_commutative(
        a.mac_algorithms_server_to_client,
        b.mac_algorithms_server_to_client,
        r12.mac_algorithms_server_to_client,
        r21.mac_algorithms_server_to_client,
    );
    lemma_name_intersection_commutative(
        a.compression_algorithms_client_to_server,
        b.compression_algorithms_client_to_server,
        r12.compression_algorithms_client_to_server,
        r21.compression_algorithms_client_to_server,
    );
    lemma_name_intersection_commutative(
        a.compression_algorithms_server_to_client,
        b.compression_algorithms_server_to_client,
        r12.compression_algorithms_server_to_client,
        r21.compression_algorithms_server_to_client,
    );
    lemma_name_intersection_commutative(
        a.languages_client_to_server,
        b.languages_client_to_server,
        r12.languages_client_to_server,
        r21.languages_client_to_server,
    );
    lemma_name_intersection_commutative(
        a.languages_server_to_client,
        b.languages_server_to_client,
        r12.languages_server_to_client,
        r21.languages_server_to_client,
    );
}

} // verus!
