use bsshlib::version::{get_version_byte_string, version};

#[test]
fn version_is_the_bare_number() {
    assert_eq!(version(), b"0.0.0a".to_vec());
}

#[test]
fn version_byte_string_carries_the_banner_prefix() {
    assert_eq!(get_version_byte_string(), b"SSH-2.0-bssh_0.0.0a".to_vec());
}
