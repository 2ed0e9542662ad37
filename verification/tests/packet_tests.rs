use bsshlib::errors::BsshError;
use bsshlib::packet::{get_packet_from_payload, read_packet_from_stream};
use bsshlib::stream::ByteReader;

fn frame_length(frame: &[u8]) -> u32 {
    ((frame[0] as u32) << 24)
        | ((frame[1] as u32) << 16)
        | ((frame[2] as u32) << 8)
        | (frame[3] as u32)
}

#[test]
fn packet_round_trips_for_default_alignment() {
    for len in [0usize, 1, 3, 7, 8, 9, 31, 200] {
        let payload: Vec<u8> = (0..len).map(|i| (i % 251) as u8).collect();
        let frame = get_packet_from_payload(&payload, None);
        let mut mrs = ByteReader::new(frame);
        assert_eq!(read_packet_from_stream(&mut mrs, None).unwrap(), payload);
    }
}

#[test]
fn packet_round_trips_for_other_alignments() {
    for cbs in [4u8, 5, 8, 16, 64, 127, 128, 252] {
        for len in [0usize, 1, 2, 15, 16, 17, 100] {
            let payload: Vec<u8> = (0..len).map(|i| (i % 13) as u8).collect();
            let frame = get_packet_from_payload(&payload, Some(cbs));
            let mut mrs = ByteReader::new(frame);
            assert_eq!(
                read_packet_from_stream(&mut mrs, Some(cbs)).unwrap(),
                payload
            );
        }
    }
}

#[test]
fn packet_padding_satisfies_the_wire_rules() {
    for cbs in [4u8, 8, 16] {
        for len in [0usize, 1, 6, 7, 8, 40] {
            let payload: Vec<u8> = vec![0xab; len];
            let frame = get_packet_from_payload(&payload, Some(cbs));
            let packet_length = frame_length(&frame) as usize;
            let padding_length = frame[4] as usize;
            assert_eq!(frame.len(), 4 + packet_length);
            assert_eq!(packet_length, 1 + len + padding_length);
            assert!(padding_length >= 4);
            assert_eq!(packet_length % cbs as usize, 0);
            assert_eq!(&frame[5..5 + len], &payload[..]);
        }
    }
}

#[test]
fn read_packet_rejects_oversize_length() {
    let input: Vec<u8> = vec![0xff, 0xff, 0xff, 0xff, 0, 0];
    let mut mrs = ByteReader::new(input);
    assert_eq!(
        read_packet_from_stream(&mut mrs, None),
        Err(BsshError::BufferCapacityExceeded)
    );
}

#[test]
fn read_packet_reports_truncated_stream() {
    let input: Vec<u8> = vec![0, 0, 0, 16, 4, 1, 2];
    let mut mrs = ByteReader::new(input);
    assert_eq!(
        read_packet_from_stream(&mut mrs, None),
        Err(BsshError::ConnectionEndedUnexpectedly)
    );
}

#[test]
fn read_packet_rejects_padding_larger_than_body() {
    let input: Vec<u8> = vec![0, 0, 0, 2, 200, 9];
    let mut mrs = ByteReader::new(input);
    assert_eq!(
        read_packet_from_stream(&mut mrs, None),
        Err(BsshError::ConnectionEndedUnexpectedly)
    );
}
