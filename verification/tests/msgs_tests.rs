use bsshlib::config::AvailableAlgorithms;
use bsshlib::dummy_config::DummyCommonConfig;
use bsshlib::errors::BsshError;
use bsshlib::msgs::{read_kex_init_message, read_welcome_string, write_kex_init_message};
use bsshlib::stream::ByteReader;

#[test]
fn read_welcome_string_accepts_simple_string() {
    let input = b"SSH-2.0-hello-world\r\n".to_vec();
    let mut mrs = ByteReader::new(input.clone());
    assert_eq!(
        read_welcome_string(&mut mrs, false).unwrap(),
        vec!["SSH-2.0-hello-world".to_string()]
    );
    let mut mrs = ByteReader::new(input);
    assert_eq!(
        read_welcome_string(&mut mrs, true).unwrap(),
        vec!["SSH-2.0-hello-world".to_string()]
    );
}

#[test]
fn read_welcome_string_accepts_commentary_when_asked() {
    let input = b"Hello\r\nWorld\r\nSSH-2.0-hello-world\r\n".to_vec();
    let mut mrs = ByteReader::new(input.clone());
    assert!(read_welcome_string(&mut mrs, false).is_err());
    let mut mrs = ByteReader::new(input);
    assert_eq!(
        read_welcome_string(&mut mrs, true).unwrap(),
        vec![
            "Hello".to_string(),
            "World".to_string(),
            "SSH-2.0-hello-world".to_string()
        ]
    );
}

#[test]
fn read_welcome_string_handles_overflow() {
    // An endless stream of '.' bytes: modelled by more bytes than a line may hold.
    let input = vec![b'.'; 600];
    let mut msi = ByteReader::new(input.clone());
    assert!(read_welcome_string(&mut msi, false).is_err());
    let mut msi = ByteReader::new(input);
    assert!(read_welcome_string(&mut msi, true).is_err());
}

#[test]
fn read_welcome_string_handles_comment_overflow() {
    // An endless stream of ".\r\n" lines: more repetitions than the budget.
    let input: Vec<u8> = b".\r\n".iter().cloned().cycle().take(3 * 400).collect();
    let mut msic = ByteReader::new(input.clone());
    assert!(read_welcome_string(&mut msic, false).is_err());
    let mut msic = ByteReader::new(input);
    assert!(read_welcome_string(&mut msic, true).is_err());
}

#[test]
fn msgs_read_welcome_string_accepts_simple_string() {
    let input = b"SSH-2.0-hello-world\r\n".to_vec();
    let mut ms = ByteReader::new(input.clone());
    assert_eq!(
        read_welcome_string(&mut ms, false),
        Ok(vec!["SSH-2.0-hello-world".to_string()])
    );
    let mut ms = ByteReader::new(input);
    assert_eq!(
        read_welcome_string(&mut ms, true),
        Ok(vec!["SSH-2.0-hello-world".to_string()])
    );
}

#[test]
fn msgs_read_welcome_string_accepts_commentary_when_asked() {
    let input = b"Hello\r\nWorld\r\nSSH-2.0-hello-world\r\n".to_vec();
    let mut ms = ByteReader::new(input.clone());
    assert_eq!(
        read_welcome_string(&mut ms, false),
        Err(BsshError::ExpectedHeaderString)
    );
    let mut ms = ByteReader::new(input);
    assert_eq!(
        read_welcome_string(&mut ms, true),
        Ok(vec![
            "Hello".to_string(),
            "World".to_string(),
            "SSH-2.0-hello-world".to_string()
        ])
    );
}

#[test]
fn msgs_read_welcome_string_handles_overflow() {
    let input = vec![b'.'; 600];
    let mut msi = ByteReader::new(input.clone());
    assert_eq!(
        read_welcome_string(&mut msi, false),
        Err(BsshError::NoLineTerminationFound)
    );
    let mut msi = ByteReader::new(input);
    assert_eq!(
        read_welcome_string(&mut msi, true),
        Err(BsshError::NoLineTerminationFound)
    );
}

#[test]
fn msgs_read_welcome_string_handles_comment_overflow() {
    let input: Vec<u8> = b".\r\n".iter().cloned().cycle().take(3 * 400).collect();
    let mut msic = ByteReader::new(input.clone());
    assert_eq!(
        read_welcome_string(&mut msic, false),
        Err(BsshError::ExpectedHeaderString)
    );
    let mut msic = ByteReader::new(input);
    assert_eq!(
        read_welcome_string(&mut msic, true),
        Err(BsshError::TooManyCommentLines)
    );
}

#[test]
fn read_welcome_string_line_length_boundary() {
    // A 254-byte line plus "\r\n" just fits the 255-byte buffer rule...
    let mut line = b"SSH-2.0-".to_vec();
    line.extend(std::iter::repeat(b'a').take(246));
    assert_eq!(line.len(), 254);
    let mut input = line.clone();
    input.extend_from_slice(b"\r\n");
    let mut mrs = ByteReader::new(input);
    let lines = read_welcome_string(&mut mrs, false).unwrap();
    assert_eq!(lines.len(), 1);
    assert_eq!(lines[0].len(), 254);
    // ...while a 255-byte line does not.
    let mut long_line = b"SSH-2.0-".to_vec();
    long_line.extend(std::iter::repeat(b'a').take(247));
    long_line.extend_from_slice(b"\r\n");
    let mut mrs = ByteReader::new(long_line);
    assert_eq!(
        read_welcome_string(&mut mrs, false),
        Err(BsshError::NoLineTerminationFound)
    );
}

#[test]
fn read_welcome_string_comment_budget_boundary() {
    // Exactly 100 comment lines are tolerated...
    let mut input: Vec<u8> = Vec::new();
    for _ in 0..100 {
        input.extend_from_slice(b".\r\n");
    }
    input.extend_from_slice(b"SSH-2.0-x\r\n");
    let mut mrs = ByteReader::new(input);
    assert_eq!(read_welcome_string(&mut mrs, true).unwrap().len(), 101);
    // ...the 101st is one too many.
    let mut input: Vec<u8> = Vec::new();
    for _ in 0..101 {
        input.extend_from_slice(b".\r\n");
    }
    input.extend_from_slice(b"SSH-2.0-x\r\n");
    let mut mrs = ByteReader::new(input);
    assert_eq!(
        read_welcome_string(&mut mrs, true),
        Err(BsshError::TooManyCommentLines)
    );
}

#[test]
fn kex_init_round_trips_with_follow_flag_set() {
    let config = DummyCommonConfig {};
    let mut payload: Vec<u8> = Vec::new();
    write_kex_init_message(&mut payload, &config, true);
    let mut mrs = ByteReader::new(payload);
    let msg = read_kex_init_message(&mut mrs).unwrap();
    assert_eq!(msg.get_first_kex_packet_follows(), true);
}

#[test]
fn read_welcome_string_rejects_invalid_utf8_line() {
    let input: Vec<u8> = [b"SSH-2.0-".to_vec(), vec![0xff, 0xfe], b"\r\n".to_vec()].concat();
    let mut mrs = ByteReader::new(input);
    assert_eq!(
        read_welcome_string(&mut mrs, true),
        Err(BsshError::NotUtf8String)
    );
}

#[test]
fn read_welcome_string_reports_closed_stream() {
    let input = b"SSH-2.0-cut-off".to_vec();
    let mut mrs = ByteReader::new(input);
    assert_eq!(
        read_welcome_string(&mut mrs, true),
        Err(BsshError::ConnectionEndedUnexpectedly)
    );
}

#[test]
fn kex_init_message_round_trips() {
    let config = DummyCommonConfig {};
    let mut payload: Vec<u8> = Vec::new();
    write_kex_init_message(&mut payload, &config, false);
    let mut mrs = ByteReader::new(payload);
    let msg = read_kex_init_message(&mut mrs).unwrap();
    assert_eq!(msg.get_first_kex_packet_follows(), false);
    assert_eq!(msg.get_cookie().len(), 16);
    let set = &msg.available_algorithm_set;
    assert_eq!(
        set.kex_algorithms,
        vec![
            "diffie-hellman-group1-sha1".to_string(),
            "diffie-hellman-group14-sha1".to_string()
        ]
    );
    assert_eq!(set.server_host_key_algorithms, vec!["ssh-dss".to_string()]);
    assert_eq!(
        set.encryption_algorithms_client_to_server,
        vec!["3des-cbc".to_string()]
    );
    assert_eq!(
        set.encryption_algorithms_server_to_client,
        vec!["3des-cbc".to_string()]
    );
    assert_eq!(
        set.mac_algorithms_client_to_server,
        vec!["hmac-sha1".to_string()]
    );
    assert_eq!(
        set.mac_algorithms_server_to_client,
        vec!["hmac-sha1".to_string()]
    );
    assert_eq!(
        set.compression_algorithms_client_to_server,
        vec!["none".to_string()]
    );
    assert_eq!(
        set.compression_algorithms_server_to_client,
        vec!["none".to_string()]
    );
    assert_eq!(set.languages_client_to_server, vec!["en_US".to_string()]);
    assert_eq!(set.languages_server_to_client, vec!["en_US".to_string()]);
}

#[test]
fn kex_init_cookies_differ_between_messages() {
    let config = DummyCommonConfig {};
    let mut first: Vec<u8> = Vec::new();
    write_kex_init_message(&mut first, &config, false);
    let mut second: Vec<u8> = Vec::new();
    write_kex_init_message(&mut second, &config, false);
    let c1 = read_kex_init_message(&mut ByteReader::new(first))
        .unwrap()
        .get_cookie();
    let c2 = read_kex_init_message(&mut ByteReader::new(second))
        .unwrap()
        .get_cookie();
    // 16 random bytes collide with probability 2^-128.
    assert_ne!(c1, c2);
}

#[test]
fn read_kex_init_message_rejects_wrong_tag() {
    let mut mrs = ByteReader::new(vec![99u8; 40]);
    assert!(matches!(
        read_kex_init_message(&mut mrs),
        Err(BsshError::ExpectedKexMsgInit)
    ));
}

#[test]
fn read_kex_init_message_rejects_nonzero_reserved_field() {
    let config = DummyCommonConfig {};
    let mut payload: Vec<u8> = Vec::new();
    write_kex_init_message(&mut payload, &config, true);
    let last = payload.len() - 1;
    payload[last] = 1;
    let mut mrs = ByteReader::new(payload);
    assert!(matches!(
        read_kex_init_message(&mut mrs),
        Err(BsshError::ExpectedZeroU32)
    ));
}

#[test]
fn is_complete_accepts_the_placeholder_configuration() {
    let config = DummyCommonConfig {};
    assert!(config.is_complete());
    let mut set = config.copy_as_set();
    assert!(set.is_complete());
    set.kex_algorithms = Vec::new();
    assert!(!set.is_complete());
}
