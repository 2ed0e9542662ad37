//! A fixed capability set, standing in until configuration parsing exists.

use vstd::prelude::*;

use crate::config::{AlgorithmLists, AvailableAlgorithms};

verus! {

/// A placeholder configuration offering one fixed algorithm suite.
pub struct DummyCommonConfig {}

impl AvailableAlgorithms for DummyCommonConfig {
    open spec fn spec_algorithms(&self) -> AlgorithmLists {
        AlgorithmLists {
            kex_algorithms: seq![
                "diffie-hellman-group1-sha1"@,
                "diffie-hellman-group14-sha1"@,
            ],
            server_host_key_algorithms: seq!["ssh-dss"@],
            encryption_algorithms_client_to_server: seq!["3des-cbc"@],
            encryption_algorithms_server_to_client: seq!["3des-cbc"@],
            mac_algorithms_client_to_server: seq!["hmac-sha1"@],
            mac_algorithms_server_to_client: seq!["hmac-sha1"@],
            compression_algorithms_client_to_server: seq!["none"@],
            compression_algorithms_server_to_client: seq!["none"@],
            languages_client_to_server: seq!["en_US"@],
            languages_server_to_client: seq!["en_US"@],
        }
    }

    fn get_available_kex_algorithms(&self) -> (r: Vec<String>) {
        let mut v: Vec<String> = Vec::new();
        v.push("diffie-hellman-group1-sha1".to_owned());
        v.push("diffie-hellman-group14-sha1".to_owned());
        proof {
            assert(v.deep_view() =~= self.spec_algorithms().kex_algorithms);
        }
        v
    }

    fn get_available_server_host_key_algorithms(&self) -> (r: Vec<String>) {
        let mut v: Vec<String> = Vec::new();
        v.push("ssh-dss".to_owned());
        proof {
            assert(v.deep_view() =~= self.spec_algorithms().server_host_key_algorithms);
        }
        v
    }

    fn get_available_encryption_algorithms_client_to_server(&self) -> (r: Vec<String>) {
        let mut v: Vec<String> = Vec::new();
        v.push("3des-cbc".to_owned());
        proof {
            assert(v.deep_view() =~= self.spec_algorithms().encryption_algorithms_client_to_server);
        }
        v
    }

    fn get_available_encryption_algorithms_server_to_client(&self) -> (r: Vec<String>) {
        self.get_available_encryption_algorithms_client_to_server()
    }

    fn get_available_mac_algorithms_client_to_server(&self) -> (r: Vec<String>) {
        let mut v: Vec<String> = Vec::new();
        v.push("hmac-sha1".to_owned());
        proof {
            assert(v.deep_view() =~= self.spec_algorithms().mac_algorithms_client_to_server);
        }
        v
    }

    fn get_available_mac_algorithms_server_to_client(&self) -> (r: Vec<String>) {
        self.get_available_mac_algorithms_client_to_server()
    }

    fn get_available_compression_algorithms_client_to_server(&self) -> (r: Vec<String>) {
        let mut v: Vec<String> = Vec::new();
        v.push("none".to_owned());
        proof {
            assert(v.deep_view() =~= self.spec_algorithms().compression_algorithms_client_to_server);
        }
        v
    }

    fn get_available_compression_algorithms_server_to_client(&self) -> (r: Vec<String>) {
        self.get_available_compression_algorithms_client_to_server()
    }

    fn get_available_languages_client_to_server(&self) -> (r: Vec<String>) {
        let mut v: Vec<String> = Vec::new();
        v.push("en_US".to_owned());
        proof {
            assert(v.deep_view() =~= self.spec_algorithms().languages_client_to_server);
        }
        v
    }

    fn get_available_languages_server_to_client(&self) -> (r: Vec<String>) {
        self.get_available_languages_client_to_server()
    }
}

} // verus!
