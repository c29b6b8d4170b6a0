use gossip::codec::{decode, decode_frame, encode, next_frame, DecodeError, FrameStep, TagType, TaggedValue};
use gossip::version::{self, Version};

fn num_to_bytes(v: &mut Vec<u8>, num: u32) {
    v.push((num >> 24) as u8);
    v.push((num >> 16) as u8);
    v.push((num >> 8) as u8);
    v.push((num >> 0) as u8);
}

fn foo_frame(payload: &[u8]) -> Vec<u8> {
    let mut v = vec![0xCB, 0xE3];
    num_to_bytes(&mut v, 3u32);
    v.push(102);
    v.push(111);
    v.push(111);
    num_to_bytes(&mut v, payload.len() as u32);
    v.extend_from_slice(payload);
    v
}

#[test]
fn invalid_encoding_byte() {
    match decode(&[0u8]) {
        Ok(_) => panic!("Expected a failure case."),
        Err(_) => {}
    }
}

#[test]
fn invalid_tag_type() {
    match decode(&[0xCB]) {
        Ok(_) => panic!("Expected to fail because of an invalid tag type."),
        Err(_) => {}
    }
}

#[test]
fn should_have_length() {
    let l: u32 = 3;
    let mut v = vec![0xCB, 0xE3];
    num_to_bytes(&mut v, l);
    v.push(102);
    v.push(111);
    v.push(111);
    num_to_bytes(&mut v, 0);
    match decode(&v) {
        Ok(_) => {}
        Err(err) => panic!("Error: {:?}", err),
    }
}

#[test]
fn decode_string_type() {
    let v = foo_frame(&[]);
    match decode(&v) {
        Ok(tag) => {
            assert_eq!(tag.id, TagType::TyString("foo".to_string()));
            assert_eq!(tag.bytes.len(), 0);
        }
        Err(err) => panic!("Err: {:?}", err),
    }
}

#[test]
fn decode_bytes() {
    let v = foo_frame(&[102, 111, 111, 111, 111]);
    match decode(&v) {
        Ok(tag) => {
            assert_eq!(tag.bytes.len(), 5);
            assert_eq!(tag.bytes[0], 102u8);
            assert_eq!(tag.bytes[1], 111u8);
            assert_eq!(tag.bytes[2], 111u8);
            assert_eq!(tag.bytes[3], 111u8);
            assert_eq!(tag.bytes[4], 111u8);
            let v = String::from_utf8(tag.bytes).unwrap();
            assert_eq!(v.as_str(), "foooo");
        }
        Err(err) => panic!("Err: {:?}", err),
    }
}

#[test]
fn encode_and_decode() {
    let value = TaggedValue::new(TagType::TyString("Foo".to_string()), vec![5]);
    let bytes = encode(&value);
    match decode(&bytes) {
        Ok(tag) => {
            assert_eq!(tag.id, TagType::TyString("Foo".to_string()));
        }
        Err(err) => panic!("Unexpected Error: {:?}", err),
    }
}

#[test]
fn should_decode_int() {
    let i: i64 = 5;
    let encoded = version::encode(Version(1), &i.to_be_bytes());
    assert_eq!(encoded[0], 1);
    let (v, rest) = version::decode(&encoded).unwrap();
    assert_eq!(v, Version(1));
    assert_eq!(i64::from_be_bytes(rest.try_into().unwrap()), 5);
}

#[test]
fn versioned_decode_of_empty_input() {
    assert!(version::decode(&[]).is_none());
}

#[test]
fn encode_exact_bytes() {
    let value = TaggedValue::new(TagType::TyString("foo".to_string()), vec![1, 2]);
    assert_eq!(
        encode(&value),
        vec![0xCB, 0xE3, 0, 0, 0, 3, 102, 111, 111, 0, 0, 0, 2, 1, 2]
    );
}

#[test]
fn encode_counts_utf8_bytes_of_the_tag() {
    let value = TaggedValue::new(TagType::TyString("é".to_string()), vec![]);
    assert_eq!(encode(&value), vec![0xCB, 0xE3, 0, 0, 0, 2, 0xC3, 0xA9, 0, 0, 0, 0]);
}

#[test]
fn round_trip_of_tagged_values() {
    let values = vec![
        TaggedValue::new(TagType::TyString(String::new()), vec![]),
        TaggedValue::new(TagType::TyString("membership".to_string()), vec![0, 255, 7]),
        TaggedValue::new(TagType::TyString("ünïcödé ✓".to_string()), (0..=255).collect()),
    ];
    for v in values {
        let bytes = encode(&v);
        assert_eq!(decode(&bytes), Ok(v.clone()));
        assert_eq!(decode_frame(&bytes), Ok((v, bytes.len())));
    }
}

#[test]
fn bad_marker_for_every_other_first_byte() {
    for first in 0u8..=255 {
        if first == 0xCB {
            continue;
        }
        assert_eq!(decode(&[first, 0xE3, 0, 0, 0, 0, 0, 0, 0, 0]), Err(DecodeError::BadMarker));
    }
}

#[test]
fn malformed_frame_is_a_bad_marker() {
    let input = vec![0x00u8];
    assert_eq!(decode(&input), Err(DecodeError::BadMarker));
    assert_eq!(input, vec![0x00u8]);
}

#[test]
fn empty_input_is_a_bad_marker() {
    assert_eq!(decode(&[]), Err(DecodeError::BadMarker));
}

#[test]
fn marker_alone_is_truncated() {
    assert_eq!(decode(&[0xCB]), Err(DecodeError::Truncated));
}

#[test]
fn unknown_tag_type_is_refused() {
    assert_eq!(decode(&[0xCB, 0xF8, 0, 0, 0, 0, 0, 0, 0, 0]), Err(DecodeError::UnknownTag));
}

#[test]
fn short_tag_length_is_truncated() {
    assert_eq!(decode(&[0xCB, 0xE3, 0, 0]), Err(DecodeError::Truncated));
}

#[test]
fn short_tag_is_truncated() {
    assert_eq!(decode(&[0xCB, 0xE3, 0, 0, 0, 3, 102, 111]), Err(DecodeError::Truncated));
}

#[test]
fn short_payload_is_truncated() {
    let mut v = foo_frame(&[1, 2, 3]);
    v.pop();
    assert_eq!(decode(&v), Err(DecodeError::Truncated));
}

#[test]
fn huge_lengths_are_truncated() {
    assert_eq!(
        decode(&[0xCB, 0xE3, 0xFF, 0xFF, 0xFF, 0xFF, 0, 0, 0, 0]),
        Err(DecodeError::Truncated)
    );
}

#[test]
fn invalid_utf8_tag_is_refused() {
    assert_eq!(
        decode(&[0xCB, 0xE3, 0, 0, 0, 1, 0xFF, 0, 0, 0, 0]),
        Err(DecodeError::BadUtf8)
    );
}

#[test]
fn frame_length_ignores_trailing_bytes() {
    let mut v = foo_frame(&[9]);
    let len = v.len();
    v.extend_from_slice(&[0xCB, 1, 2]);
    let (value, used) = decode_frame(&v).unwrap();
    assert_eq!(used, len);
    assert_eq!(value.bytes, vec![9]);
}

#[test]
fn int_tags_are_not_encodable() {
    let v = TaggedValue::new(TagType::TyInt(3), vec![]);
    assert!(!v.is_encodable());
    let s = TaggedValue::new(TagType::TyString("a".to_string()), vec![1]);
    assert!(s.is_encodable());
    assert_eq!(s.get(), &vec![1u8]);
}

#[test]
fn tagged_values_resolve_on_get() {
    let mut t = gossip::tagged::Tagged::new(7u32, vec![1, 2, 3]);
    assert!(!t.is_resolved());
    assert_eq!(t.get(), vec![1, 2, 3]);
    assert!(t.is_resolved());
    assert_eq!(*t.id(), 7u32);
}

#[test]
fn should_encode_int() {
    let i: i64 = 5;
    let arr = version::encode(Version(1), &i.to_ne_bytes());
    let mut should = Vec::new();
    should.push(1u8);
    should.extend_from_slice(&i.to_ne_bytes());
    assert_eq!(arr, should);
}

#[test]
fn stream_reader_steps() {
    assert!(matches!(next_frame(&[]), FrameStep::NeedMore));
    assert!(matches!(next_frame(&[0xCB]), FrameStep::NeedMore));
    assert!(matches!(next_frame(&[0xCB, 0xE3, 0, 0]), FrameStep::NeedMore));
    assert!(matches!(next_frame(&[0x00]), FrameStep::Close(DecodeError::BadMarker)));
    assert!(matches!(next_frame(&[0xCB, 0x01]), FrameStep::Close(DecodeError::UnknownTag)));
    let mut v = foo_frame(&[7]);
    let len = v.len();
    v.push(0xCB);
    match next_frame(&v) {
        FrameStep::Frame(value, used) => {
            assert_eq!(used, len);
            assert_eq!(value.bytes, vec![7]);
        }
        _ => panic!("expected a frame"),
    }
}
