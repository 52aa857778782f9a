use dailystoic::protocol::{DailyStoic, DailyStoicRequest};
use dailystoic::wire::{decode_varint, encode_varint};

fn prost_stoic(timestamp: u64, author: &str, content: &[u8]) -> Vec<u8> {
    let mut buf: Vec<u8> = Vec::new();
    if timestamp != 0 {
        prost::encoding::uint64::encode(1, &timestamp, &mut buf);
    }
    if !author.is_empty() {
        prost::encoding::string::encode(2, &author.to_string(), &mut buf);
    }
    if !content.is_empty() {
        prost::encoding::bytes::encode(3, &content.to_vec(), &mut buf);
    }
    buf
}

#[test]
fn varint_matches_known_bytes() {
    let mut out: Vec<u8> = Vec::new();
    encode_varint(300, &mut out);
    assert_eq!(out, vec![0xac, 0x02]);
    assert_eq!(decode_varint(&out, 0), Some((300, 2)));
    let mut max: Vec<u8> = Vec::new();
    encode_varint(u64::MAX, &mut max);
    assert_eq!(max.len(), 10);
    assert_eq!(decode_varint(&max, 0), Some((u64::MAX, 10)));
}

#[test]
fn varint_rejects_overlong_and_truncated() {
    assert_eq!(decode_varint(&[0x80], 0), None);
    assert_eq!(decode_varint(&[], 0), None);
    let too_big = [0xff, 0xff, 0xff, 0xff, 0xff, 0xff, 0xff, 0xff, 0xff, 0x02];
    assert_eq!(decode_varint(&too_big, 0), None);
    let eleven = [0x80, 0x80, 0x80, 0x80, 0x80, 0x80, 0x80, 0x80, 0x80, 0x80, 0x00];
    assert_eq!(decode_varint(&eleven, 0), None);
    // A redundant continuation byte is still read.
    assert_eq!(decode_varint(&[0x81, 0x00], 0), Some((1, 2)));
}

#[test]
fn stoic_encoding_matches_protobuf() {
    let m = DailyStoic::with_timestamp("Seneca", "Luck is what happens when preparation meets opportunity.", 1_700_000_000);
    let bytes = m.encode();
    assert_eq!(bytes, prost_stoic(1_700_000_000, "Seneca", "Luck is what happens when preparation meets opportunity.".as_bytes()));
    assert_eq!(&bytes[..2], &[0x08, 0x80]);
}

#[test]
fn stoic_round_trip() {
    let m = DailyStoic::with_timestamp("Épictète", "Ce qui trouble les hommes, ce ne sont pas les choses.", 42);
    let back = DailyStoic::decode(&m.encode()).unwrap();
    assert_eq!(back.timestamp(), 42);
    assert_eq!(back.author(), "Épictète");
    assert_eq!(back.content(), "Ce qui trouble les hommes, ce ne sont pas les choses.");
}

#[test]
fn stoic_defaults_are_left_out() {
    let m = DailyStoic::with_timestamp("", "", 0);
    assert!(m.encode().is_empty());
    let back = DailyStoic::decode(&[]).unwrap();
    assert_eq!(back.timestamp(), 0);
    assert_eq!(back.author(), "");
    assert_eq!(back.content(), "");
}

#[test]
fn stoic_skips_unknown_fields_and_keeps_last() {
    // tag 4 varint, tag 1 = 7, tag 5 length-delimited, tag 6 fixed32, tag 1 = 9
    let bytes = vec![0x20, 0x05, 0x08, 0x07, 0x2a, 0x02, 0x41, 0x42, 0x35, 1, 2, 3, 4, 0x08, 0x09];
    let m = DailyStoic::decode(&bytes).unwrap();
    assert_eq!(m.timestamp(), 9);
    assert_eq!(m.author(), "");
}

#[test]
fn stoic_rejects_malformed() {
    // wrong wire type for the author
    assert!(DailyStoic::decode(&[0x10, 0x01]).is_err());
    // author that is not UTF-8
    assert!(DailyStoic::decode(&[0x12, 0x01, 0xff]).is_err());
    // length past the end
    assert!(DailyStoic::decode(&[0x1a, 0x05, 0x41]).is_err());
    // tag zero
    assert!(DailyStoic::decode(&[0x00, 0x01]).is_err());
    // group wire type
    assert!(DailyStoic::decode(&[0x0b]).is_err());
    // truncated key
    assert!(DailyStoic::decode(&[0x88]).is_err());
}

#[test]
fn stoic_new_is_stamped_now() {
    let m = DailyStoic::new("Marcus Aurelius", "The impediment to action advances action.".to_string());
    assert!(m.timestamp() > 1_600_000_000);
    assert_eq!(m.author(), "Marcus Aurelius");
    assert_eq!(m.content(), "The impediment to action advances action.");
}

#[test]
fn request_round_trip() {
    for t in [0u64, 1, 127, 128, 1_700_000_000, u64::MAX] {
        let r = DailyStoicRequest::new(t);
        let bytes = r.encode();
        let mut expected: Vec<u8> = Vec::new();
        if t != 0 {
            prost::encoding::uint64::encode(1, &t, &mut expected);
        }
        assert_eq!(bytes, expected);
        assert_eq!(DailyStoicRequest::decode(&bytes).unwrap().timestamp(), t);
    }
}

#[test]
fn request_ignores_other_fields_and_rejects_wrong_type() {
    assert_eq!(DailyStoicRequest::decode(&[0x12, 0x01, 0x41, 0x08, 0x05]).unwrap().timestamp(), 5);
    assert!(DailyStoicRequest::decode(&[0x0a, 0x00]).is_err());
    assert!(DailyStoicRequest::decode(&[0x09, 0, 0, 0, 0, 0, 0, 0, 0]).is_err());
    assert!(DailyStoicRequest::decode(&[0x08]).is_err());
}
