use issuance::codec::{decode, encode, offset_bytes, offset_from_bytes, TimelineError};

#[test]
fn round_trip_keeps_offsets_and_order() {
    let xs: Vec<i16> = vec![0, -1, 32767, -32768, 258, 258, -300];
    let b = encode(&xs);
    assert_eq!(b.len(), 2 * xs.len());
    assert_eq!(decode(&b), Ok(xs));
}

#[test]
fn encode_is_big_endian_twos_complement() {
    let xs: Vec<i16> = vec![0, -1, 32767, -32768, 258];
    assert_eq!(encode(&xs), vec![0, 0, 255, 255, 127, 255, 128, 0, 1, 2]);
    assert_eq!(encode(&Vec::new()), Vec::<u8>::new());
}

#[test]
fn offset_bytes_match_std() {
    for x in [-32768i16, -257, -1, 0, 1, 255, 256, 32767] {
        let (hi, lo) = offset_bytes(x);
        assert_eq!([hi, lo], x.to_be_bytes());
        assert_eq!(offset_from_bytes(hi, lo), x);
    }
}

#[test]
fn decode_reads_pairs() {
    assert_eq!(decode(&vec![0xff, 0xfe, 0x00, 0x3c]), Ok(vec![-2, 60]));
    assert_eq!(decode(&Vec::new()), Ok(Vec::new()));
}

#[test]
fn decode_odd_length_is_malformed() {
    assert_eq!(decode(&vec![1]), Err(TimelineError::MalformedTimeline));
    assert_eq!(decode(&vec![0, 1, 2]), Err(TimelineError::MalformedTimeline));
    let long: Vec<u8> = vec![7; 199];
    assert_eq!(decode(&long), Err(TimelineError::MalformedTimeline));
}
