use erika::geometry::Rect;
use erika::protocol::{FrameEvents, FrameFlags, FrameRequests, Input, MouseButton, ZIndex};
use erika::wire::{make_array, Serialise};

fn event_round_trip(e: FrameEvents) -> FrameEvents {
    let bytes = e.to_bytes().unwrap();
    FrameEvents::from_bytes(&bytes).unwrap()
}

fn request_round_trip(r: FrameRequests) -> FrameRequests {
    let bytes = r.to_bytes().unwrap();
    FrameRequests::from_bytes(&bytes).unwrap()
}

#[test]
fn redraw_is_one_byte() {
    assert_eq!(FrameEvents::Redraw.to_bytes().unwrap(), vec![0x03]);
    assert_eq!(FrameEvents::Close.to_bytes().unwrap(), vec![0x04]);
}

#[test]
fn position_event_is_big_endian() {
    let r = Rect { x: -2, y: 258, w: 0x01020304, h: 7 };
    let bytes = FrameEvents::Position(r).to_bytes().unwrap();
    assert_eq!(
        bytes,
        vec![0, 0xff, 0xff, 0xff, 0xfe, 0, 0, 1, 2, 1, 2, 3, 4, 0, 0, 0, 7]
    );
    match event_round_trip(FrameEvents::Position(r)) {
        FrameEvents::Position(back) => assert_eq!(back, r),
        other => panic!("unexpected {:?}", other),
    }
}

#[test]
fn visible_and_flags_events_round_trip() {
    assert_eq!(FrameEvents::Visible(true).to_bytes().unwrap(), vec![1, 1]);
    assert!(matches!(event_round_trip(FrameEvents::Visible(false)), FrameEvents::Visible(false)));
    let flags = FrameFlags::from_bits(0b101101).unwrap();
    let bytes = FrameEvents::Flags(flags).to_bytes().unwrap();
    assert_eq!(bytes, vec![5, 0, 0, 0, 0, 0, 0, 0, 0b101101]);
    match event_round_trip(FrameEvents::Flags(flags)) {
        FrameEvents::Flags(f) => assert_eq!(f.bits(), 0b101101),
        other => panic!("unexpected {:?}", other),
    }
}

#[test]
fn input_events_round_trip() {
    match event_round_trip(FrameEvents::Input(Input::MouseMove(-5, 123456))) {
        FrameEvents::Input(Input::MouseMove(x, y)) => assert_eq!((x, y), (-5, 123456)),
        other => panic!("unexpected {:?}", other),
    }
    let held = MouseButton::from_bits(0b101).unwrap();
    assert_eq!(FrameEvents::Input(Input::MouseButtonE(held)).to_bytes().unwrap(), vec![2, 1, 5]);
    let dx = (-1.5f64).to_bits();
    let dy = 0.25f64.to_bits();
    match event_round_trip(FrameEvents::Input(Input::Scroll(dx, dy))) {
        FrameEvents::Input(Input::Scroll(a, b)) => {
            assert_eq!(f64::from_bits(a), -1.5);
            assert_eq!(f64::from_bits(b), 0.25);
        }
        other => panic!("unexpected {:?}", other),
    }
    let keys = vec![1u16, 0x0203, 65535];
    let bytes = FrameEvents::Input(Input::Key(keys.clone())).to_bytes().unwrap();
    assert_eq!(bytes, vec![2, 3, 0, 3, 0, 1, 2, 3, 0xff, 0xff]);
    match event_round_trip(FrameEvents::Input(Input::Key(keys.clone()))) {
        FrameEvents::Input(Input::Key(k)) => assert_eq!(k, keys),
        other => panic!("unexpected {:?}", other),
    }
}

#[test]
fn malformed_events_are_rejected() {
    assert!(FrameEvents::from_bytes(&[]).is_err());
    assert!(FrameEvents::from_bytes(&[0, 1, 2]).is_err());
    assert!(FrameEvents::from_bytes(&[9]).is_err());
    assert!(FrameEvents::from_bytes(&[5, 0, 0, 0, 0, 0, 0, 0, 64]).is_err());
    assert!(FrameEvents::from_bytes(&[2, 1, 8]).is_err());
    assert!(FrameEvents::from_bytes(&[2, 3, 0, 2, 0, 1]).is_err());
}

#[test]
fn requests_round_trip() {
    let r = Rect { x: 10, y: -20, w: 300, h: 200 };
    match request_round_trip(FrameRequests::Position(r)) {
        FrameRequests::Position(back) => assert_eq!(back, r),
        other => panic!("unexpected {:?}", other),
    }
    assert!(matches!(request_round_trip(FrameRequests::Fullscreen(true)), FrameRequests::Fullscreen(true)));
    assert!(matches!(request_round_trip(FrameRequests::Minimise(false)), FrameRequests::Minimise(false)));
    for z in [ZIndex::Front, ZIndex::Automatic, ZIndex::Back] {
        match request_round_trip(FrameRequests::ZLock(z)) {
            FrameRequests::ZLock(back) => assert_eq!(back, z),
            other => panic!("unexpected {:?}", other),
        }
    }
    assert_eq!(FrameRequests::Close.to_bytes().unwrap(), vec![5]);
    assert!(matches!(FrameRequests::from_bytes(&[5]).unwrap(), FrameRequests::Close));
    let flags = FrameFlags::from_bits(0b11110).unwrap();
    match request_round_trip(FrameRequests::Flags(flags)) {
        FrameRequests::Flags(f) => assert_eq!(f.bits(), 0b11110),
        other => panic!("unexpected {:?}", other),
    }
}

#[test]
fn zlock_bytes() {
    assert_eq!(FrameRequests::ZLock(ZIndex::Automatic).to_bytes().unwrap(), vec![4, 0x00]);
    assert_eq!(FrameRequests::ZLock(ZIndex::Back).to_bytes().unwrap(), vec![4, 0x88]);
    assert_eq!(FrameRequests::ZLock(ZIndex::Front).to_bytes().unwrap(), vec![4, 0xff]);
    assert_eq!(ZIndex::from_bytes(&[85]).unwrap(), ZIndex::Automatic);
    assert_eq!(ZIndex::from_bytes(&[86]).unwrap(), ZIndex::Back);
    assert_eq!(ZIndex::from_bytes(&[170]).unwrap(), ZIndex::Back);
    assert_eq!(ZIndex::from_bytes(&[171]).unwrap(), ZIndex::Front);
    assert!(ZIndex::from_bytes(&[]).is_err());
}

#[test]
fn integers_encode_big_endian() {
    assert_eq!(0x01020304u32.to_bytes().unwrap(), vec![1, 2, 3, 4]);
    assert_eq!((-1i32).to_bytes().unwrap(), vec![0xff; 4]);
    assert_eq!(u64::from_bytes(&[0, 0, 0, 0, 0, 0, 1, 0]).unwrap(), 256);
    assert_eq!(i32::from_bytes(&[0xff, 0xff, 0xff, 0xfe]).unwrap(), -2);
    assert!(u32::from_bytes(&[1, 2, 3]).is_err());
    assert_eq!(u8::from_bytes(&[9, 8]).unwrap(), 9);
    assert!(u8::from_bytes(&[]).is_err());
}

#[test]
fn helpers() {
    assert_eq!(make_array(&[9, 1, 2, 3, 4, 5], 1), [1, 2, 3, 4]);
    assert_eq!(erika::wire::concat(vec![1, 2], vec![3]), vec![1, 2, 3]);
}
