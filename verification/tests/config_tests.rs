use bsshlib::config::{
    intersect_available_algorithms, vector_intersection, AvailableAlgorithmSet,
    AvailableAlgorithms,
};

fn names(list: &[&str]) -> Vec<String> {
    list.iter().map(|s| s.to_string()).collect()
}

fn set_from(
    kex: &[&str],
    host_key: &[&str],
    enc: &[&str],
    mac: &[&str],
    comp: &[&str],
    lang: &[&str],
) -> AvailableAlgorithmSet {
    AvailableAlgorithmSet {
        kex_algorithms: names(kex),
        server_host_key_algorithms: names(host_key),
        encryption_algorithms_client_to_server: names(enc),
        encryption_algorithms_server_to_client: names(enc),
        mac_algorithms_client_to_server: names(mac),
        mac_algorithms_server_to_client: names(mac),
        compression_algorithms_client_to_server: names(comp),
        compression_algorithms_server_to_client: names(comp),
        languages_client_to_server: names(lang),
        languages_server_to_client: names(lang),
    }
}

#[test]
fn vector_intersection_works() {
    assert_eq!(
        vector_intersection::<u64>(vec![1, 2, 3, 4, 5], vec![13, 11, 7, 5, 3]),
        vec![3, 5]
    );
}

#[test]
fn vector_intersection_sorts_and_deduplicates() {
    assert_eq!(
        vector_intersection::<u64>(vec![9, 2, 9, 7, 2], vec![2, 9, 9, 1]),
        vec![2, 9]
    );
    assert_eq!(
        vector_intersection::<u64>(vec![1, 2], vec![3, 4]),
        Vec::<u64>::new()
    );
}

// The negotiated order is canonical (sorted), not the offering side's
// preference order: "dh-group1" comes before "dh-group14" below even though
// side `a` prefers the latter.  A preference-ordered negotiator would pick
// differently; this library keeps the set semantics.
#[test]
fn intersection_is_sorted_and_common_to_both_sides() {
    let a = set_from(
        &["curve25519", "dh-group14", "dh-group1"],
        &["ssh-rsa", "ssh-dss"],
        &["aes128", "3des"],
        &["hmac-sha2", "hmac-sha1"],
        &["none", "zlib"],
        &["en_US"],
    );
    let b = set_from(
        &["dh-group1", "dh-group14", "kyber"],
        &["ssh-dss"],
        &["3des", "aes256"],
        &["hmac-sha1", "hmac-sha2"],
        &["zlib"],
        &["en_US", "de_DE"],
    );
    let r = intersect_available_algorithms(&a, &b);
    assert_eq!(r.kex_algorithms, names(&["dh-group1", "dh-group14"]));
    assert_eq!(r.server_host_key_algorithms, names(&["ssh-dss"]));
    assert_eq!(r.encryption_algorithms_client_to_server, names(&["3des"]));
    assert_eq!(r.mac_algorithms_client_to_server, names(&["hmac-sha1", "hmac-sha2"]));
    assert_eq!(r.compression_algorithms_client_to_server, names(&["zlib"]));
    assert_eq!(r.languages_client_to_server, names(&["en_US"]));
}

#[test]
fn intersection_is_commutative() {
    let a = set_from(
        &["curve25519", "dh-group14", "dh-group1"],
        &["ssh-rsa", "ssh-dss"],
        &["aes128", "3des"],
        &["hmac-sha2", "hmac-sha1"],
        &["none", "zlib"],
        &["en_US"],
    );
    let b = set_from(
        &["dh-group1", "dh-group14", "kyber"],
        &["ssh-dss"],
        &["3des", "aes256"],
        &["hmac-sha1", "hmac-sha2"],
        &["zlib"],
        &["en_US", "de_DE"],
    );
    let ab = intersect_available_algorithms(&a, &b);
    let ba = intersect_available_algorithms(&b, &a);
    assert_eq!(ab.kex_algorithms, ba.kex_algorithms);
    assert_eq!(ab.server_host_key_algorithms, ba.server_host_key_algorithms);
    assert_eq!(
        ab.encryption_algorithms_client_to_server,
        ba.encryption_algorithms_client_to_server
    );
    assert_eq!(
        ab.encryption_algorithms_server_to_client,
        ba.encryption_algorithms_server_to_client
    );
    assert_eq!(
        ab.mac_algorithms_client_to_server,
        ba.mac_algorithms_client_to_server
    );
    assert_eq!(
        ab.mac_algorithms_server_to_client,
        ba.mac_algorithms_server_to_client
    );
    assert_eq!(
        ab.compression_algorithms_client_to_server,
        ba.compression_algorithms_client_to_server
    );
    assert_eq!(
        ab.compression_algorithms_server_to_client,
        ba.compression_algorithms_server_to_client
    );
    assert_eq!(ab.languages_client_to_server, ba.languages_client_to_server);
    assert_eq!(ab.languages_server_to_client, ba.languages_server_to_client);
}

#[test]
fn copy_as_set_reports_the_same_names() {
    let a = set_from(
        &["dh-group14"],
        &["ssh-dss"],
        &["3des"],
        &["hmac-sha1"],
        &["none"],
        &["en_US"],
    );
    let copy = a.copy_as_set();
    assert_eq!(copy.kex_algorithms, a.kex_algorithms);
    assert_eq!(copy.languages_server_to_client, a.languages_server_to_client);
    assert_eq!(a.get_available_kex_algorithms(), a.kex_algorithms);
}
