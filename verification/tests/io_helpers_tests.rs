use bsshlib::errors::BsshError;
use bsshlib::io_helpers::{
    read_boolean, read_mpint, read_name_list, read_string, write_boolean, write_mpint,
    write_name_list, write_string,
};
use bsshlib::mpint::Mpint;
use bsshlib::stream::ByteReader;

#[test]
fn read_string_reads_string() {
    let hello_string: Vec<u8> = vec![0, 0, 0, 5, b'h', b'e', b'l', b'l', b'o'];
    let mut mrs = ByteReader::new(hello_string);
    assert_eq!(read_string(&mut mrs, None).unwrap(), b"hello".to_vec());
}

#[test]
fn write_string_writes_string() {
    let mut mws: Vec<u8> = Vec::new();
    let hello_string: Vec<u8> = vec![0, 0, 0, 5, b'h', b'e', b'l', b'l', b'o'];
    write_string(&mut mws, &b"hello".to_vec());
    assert_eq!(mws, hello_string);
}

#[test]
fn read_string_does_not_overflow() {
    let hello_string: Vec<u8> = vec![255, 255, 255, 255, b'h', b'e', b'l', b'l', b'o'];
    let mut mrs = ByteReader::new(hello_string);
    assert!(read_string(&mut mrs, None).is_err());
}

#[test]
fn read_string_rejects_oversize_length_with_buffer_capacity_exceeded() {
    let input: Vec<u8> = vec![255, 255, 255, 255];
    let mut mrs = ByteReader::new(input);
    assert_eq!(
        read_string(&mut mrs, None),
        Err(BsshError::BufferCapacityExceeded)
    );
}

#[test]
fn read_string_reports_truncation() {
    let input: Vec<u8> = vec![0, 0, 0, 9, b'h', b'i'];
    let mut mrs = ByteReader::new(input);
    assert_eq!(
        read_string(&mut mrs, None),
        Err(BsshError::ConnectionEndedUnexpectedly)
    );
}

#[test]
fn read_string_honours_an_explicit_ceiling() {
    let input: Vec<u8> = vec![0, 0, 0, 5, b'h', b'e', b'l', b'l', b'o'];
    let mut mrs = ByteReader::new(input.clone());
    assert_eq!(
        read_string(&mut mrs, Some(5)).unwrap(),
        b"hello".to_vec()
    );
    let mut mrs = ByteReader::new(input);
    assert_eq!(
        read_string(&mut mrs, Some(4)),
        Err(BsshError::BufferCapacityExceeded)
    );
}

#[test]
fn read_name_lists_works() {
    let hello_string: Vec<u8> = [[0u8, 0, 0, 11].to_vec(), b"hello,world".to_vec()].concat();
    let mut mrs = ByteReader::new(hello_string);
    assert_eq!(
        read_name_list(&mut mrs, None).unwrap(),
        vec!["hello", "world"]
    );
}

#[test]
fn read_name_lists_tolerates_empty_list() {
    let empty_list_string: Vec<u8> = [0u8, 0, 0, 0].to_vec();
    let mut mrs = ByteReader::new(empty_list_string);
    assert_eq!(read_name_list(&mut mrs, None).unwrap().len(), 0);
}

#[test]
fn read_name_list_rejects_empty_component() {
    let input: Vec<u8> = [[0u8, 0, 0, 4].to_vec(), b"a,,b".to_vec()].concat();
    let mut mrs = ByteReader::new(input);
    assert_eq!(
        read_name_list(&mut mrs, None),
        Err(BsshError::MalformedNameList)
    );
}

#[test]
fn read_name_list_rejects_invalid_utf8() {
    let input: Vec<u8> = vec![0, 0, 0, 3, b'a', b',', 0xff];
    let mut mrs = ByteReader::new(input);
    assert_eq!(
        read_name_list(&mut mrs, None),
        Err(BsshError::MalformedNameList)
    );
}

#[test]
fn name_list_round_trips_beyond_ascii() {
    let names = vec!["h\u{e9}llo".to_string(), "w\u{f8}rld".to_string()];
    let mut mws: Vec<u8> = Vec::new();
    write_name_list(&mut mws, &names);
    let mut mrs = ByteReader::new(mws);
    assert_eq!(read_name_list(&mut mrs, None).unwrap(), names);
}

#[test]
fn write_name_list_works() {
    let hello_string: Vec<u8> = [[0u8, 0, 0, 11].to_vec(), b"hello,world".to_vec()].concat();
    let mut mws: Vec<u8> = Vec::new();
    write_name_list(&mut mws, &vec!["hello".to_string(), "world".to_string()]);
    assert_eq!(mws, hello_string);
}

#[test]
fn read_boolean_works() {
    let bools_string: Vec<u8> = [0u8, 1, 17].to_vec();
    let mut mrs = ByteReader::new(bools_string);
    assert_eq!(read_boolean(&mut mrs).unwrap(), false);
    assert_eq!(read_boolean(&mut mrs).unwrap(), true);
    assert_eq!(read_boolean(&mut mrs).unwrap(), true);
}

#[test]
fn write_boolean_works() {
    let mut mws: Vec<u8> = Vec::new();
    write_boolean(&mut mws, false);
    write_boolean(&mut mws, true);
    assert_eq!(mws, vec![0u8, 1]);
}

#[test]
fn write_mpint_works() {
    {
        let mut mws: Vec<u8> = Vec::new();
        write_mpint(&mut mws, &Mpint::zero());
        assert_eq!(mws, vec![0u8; 4]);
    }
    {
        let mut mws: Vec<u8> = Vec::new();
        let value = Mpint::from_magnitude_bytes(
            false,
            &vec![0x09, 0xa3, 0x78, 0xf9, 0xb2, 0xe3, 0x32, 0xa7],
        );
        write_mpint(&mut mws, &value);
        assert_eq!(
            mws,
            vec![0u8, 0, 0, 0x08, 0x09, 0xa3, 0x78, 0xf9, 0xb2, 0xe3, 0x32, 0xa7]
        );
    }
    {
        let mut mws: Vec<u8> = Vec::new();
        let value = Mpint::from_magnitude_bytes(false, &vec![0x80]);
        write_mpint(&mut mws, &value);
        assert_eq!(mws, vec![0u8, 0, 0, 0x02, 0x00, 0x80]);
    }
    {
        let mut mws: Vec<u8> = Vec::new();
        let value = Mpint::from_magnitude_bytes(true, &vec![0x12, 0x34]);
        write_mpint(&mut mws, &value);
        assert_eq!(mws, vec![0u8, 0, 0, 0x02, 0xed, 0xcc]);
    }
    {
        let mut mws: Vec<u8> = Vec::new();
        let value = Mpint::from_magnitude_bytes(true, &vec![0xde, 0xad, 0xbe, 0xef]);
        write_mpint(&mut mws, &value);
        assert_eq!(mws, vec![0u8, 0, 0, 0x05, 0xff, 0x21, 0x52, 0x41, 0x11]);
    }
}

#[test]
fn read_mpint_works() {
    {
        let mut mrs = ByteReader::new(vec![0u8; 4]);
        let value = read_mpint(&mut mrs).unwrap();
        assert!(!value.is_negative());
        assert_eq!(value.magnitude(), &Vec::<u8>::new());
    }
    {
        let mut mrs = ByteReader::new(vec![
            0u8, 0, 0, 0x08, 0x09, 0xa3, 0x78, 0xf9, 0xb2, 0xe3, 0x32, 0xa7,
        ]);
        let value = read_mpint(&mut mrs).unwrap();
        assert!(!value.is_negative());
        assert_eq!(
            value.magnitude(),
            &vec![0x09, 0xa3, 0x78, 0xf9, 0xb2, 0xe3, 0x32, 0xa7]
        );
    }
    {
        let mut mrs = ByteReader::new(vec![0u8, 0, 0, 0x02, 0xed, 0xcc]);
        let value = read_mpint(&mut mrs).unwrap();
        assert!(value.is_negative());
        assert_eq!(value.magnitude(), &vec![0x12, 0x34]);
    }
    {
        let mut mrs = ByteReader::new(vec![0u8, 0, 0, 0x05, 0xff, 0x21, 0x52, 0x41, 0x11]);
        let value = read_mpint(&mut mrs).unwrap();
        assert!(value.is_negative());
        assert_eq!(value.magnitude(), &vec![0xde, 0xad, 0xbe, 0xef]);
    }
}

#[test]
fn mpint_round_trips_carry_cases() {
    // -256 encodes as [0xFF, 0x00]: the two's complement carry crosses a byte.
    let cases: Vec<(bool, Vec<u8>)> = vec![
        (true, vec![0x01, 0x00]),
        (true, vec![0x01, 0x00, 0x00]),
        (true, vec![0x80]),
        (true, vec![0xff, 0xff]),
        (false, vec![0xff, 0xff]),
        (false, vec![0x01]),
        (true, vec![0x01]),
    ];
    for (negative, magnitude) in cases {
        let value = Mpint::from_magnitude_bytes(negative, &magnitude);
        let mut mws: Vec<u8> = Vec::new();
        write_mpint(&mut mws, &value);
        let mut mrs = ByteReader::new(mws);
        let back = read_mpint(&mut mrs).unwrap();
        assert_eq!(back.is_negative(), negative);
        assert_eq!(back.magnitude(), &magnitude);
    }
}

#[test]
fn mpint_minus_256_encodes_with_carry() {
    let mut mws: Vec<u8> = Vec::new();
    write_mpint(&mut mws, &Mpint::from_magnitude_bytes(true, &vec![0x01, 0x00]));
    assert_eq!(mws, vec![0u8, 0, 0, 0x02, 0xff, 0x00]);
}
