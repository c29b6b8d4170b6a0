use gossip::codec::{decode, encode, TagType, TaggedValue};
use gossip::engine::{Broadcast, Protocol};
use gossip::peer::{Addr, Join};
use gossip::wire::{from_tagged, to_tagged, Frame, WireError};

fn round_trip(f: &Frame) -> Frame {
    let bytes = encode(&to_tagged(f));
    from_tagged(decode(&bytes).unwrap()).unwrap()
}

#[test]
fn join_frame_round_trip() {
    let f = Frame::Join(Join::new(0x0102_0304_0506_0708_090a_0b0c_0d0e_0f10, Addr::new("10.0.0.7", 5677)));
    let t = to_tagged(&f);
    assert_eq!(t.id, TagType::TyString("10.0.0.7".to_string()));
    assert_eq!(
        t.bytes,
        vec![0, 1, 2, 3, 4, 5, 6, 7, 8, 9, 10, 11, 12, 13, 14, 15, 16, 0x16, 0x2d]
    );
    match round_trip(&f) {
        Frame::Join(j) => {
            assert_eq!(j.id, 0x0102_0304_0506_0708_090a_0b0c_0d0e_0f10);
            assert_eq!(j.addr, Addr::new("10.0.0.7", 5677));
        }
        _ => panic!("expected a join"),
    }
}

#[test]
fn message_frame_round_trip() {
    let b = Broadcast::with_id(u128::MAX, "kv".to_string(), vec![9, 8, 7]);
    let f = Frame::Protocol(3, Protocol::Message(b.clone()));
    let t = to_tagged(&f);
    assert_eq!(t.id, TagType::TyString("kv".to_string()));
    assert_eq!(t.bytes.len(), 36);
    assert_eq!(t.bytes[0], 1);
    assert_eq!(t.bytes[16], 3);
    assert_eq!(&t.bytes[33..], &[9, 8, 7]);
    match round_trip(&f) {
        Frame::Protocol(from, Protocol::Message(c)) => {
            assert_eq!(from, 3);
            assert_eq!(c, b);
        }
        _ => panic!("expected a message"),
    }
}

#[test]
fn control_frames_round_trip() {
    for (k, msg) in [(2u8, Protocol::IHave(77)), (3, Protocol::Graft(77)), (4, Protocol::Prune(77))] {
        let f = Frame::Protocol(0xABCD, msg);
        let t = to_tagged(&f);
        assert_eq!(t.bytes.len(), 33);
        assert_eq!(t.bytes[0], k);
        assert_eq!(t.id, TagType::TyString(String::new()));
        match (round_trip(&f), k) {
            (Frame::Protocol(0xABCD, Protocol::IHave(77)), 2) => {}
            (Frame::Protocol(0xABCD, Protocol::Graft(77)), 3) => {}
            (Frame::Protocol(0xABCD, Protocol::Prune(77)), 4) => {}
            _ => panic!("wrong frame for kind {}", k),
        }
    }
}

#[test]
fn malformed_frames_are_refused() {
    let s = |bytes: Vec<u8>| TaggedValue::new(TagType::TyString(String::new()), bytes);
    assert!(matches!(from_tagged(TaggedValue::new(TagType::TyInt(1), vec![2])), Err(WireError::NotAString)));
    assert!(matches!(from_tagged(s(vec![])), Err(WireError::Empty)));
    assert!(matches!(from_tagged(s(vec![5])), Err(WireError::UnknownKind)));
    assert!(matches!(from_tagged(s(vec![0; 18])), Err(WireError::Malformed)));
    assert!(matches!(from_tagged(s(vec![1; 32])), Err(WireError::Malformed)));
    assert!(matches!(from_tagged(s(vec![2; 34])), Err(WireError::Malformed)));
    let tagged_control = TaggedValue::new(TagType::TyString("x".to_string()), vec![2; 33]);
    assert!(matches!(from_tagged(tagged_control), Err(WireError::Malformed)));
}
