use erika::frame::{stale_alpha, Frame, FrameError, BACKGROUND};
use erika::geometry::{Point, Rect, Size};
use erika::layout::DisplayConfiguration;
use erika::options::FrameOptions;
use erika::protocol::{FrameEvents, FrameFlags, FrameRequests, ZIndex};

fn frame(path: &str) -> Frame {
    Frame::new(FrameOptions::from_string(path).unwrap(), 7, 1000).unwrap()
}

fn one_display() -> DisplayConfiguration {
    let screen = Rect { x: 0, y: 0, w: 1024, h: 768 };
    DisplayConfiguration { sizes: vec![screen], area: screen }
}

#[test]
fn new_frame_is_grey_with_one_redraw() {
    let mut f = frame("title=T&size=200,160");
    assert_eq!(f.id(), 7);
    assert_eq!(f.pixels().len(), 200 * 160);
    assert!(f.pixels().iter().all(|p| *p == BACKGROUND));
    assert_eq!(f.pending_events(), 1);
    assert!(matches!(f.next_event(), Some(FrameEvents::Redraw)));
    assert!(f.next_event().is_none());
    assert_eq!(f.flags().bits(), 0b11110);
}

#[test]
fn negative_size_is_refused() {
    let o = FrameOptions::from_string("min-size=-5,-5&size=-3,4").unwrap();
    assert!(matches!(Frame::new(o, 1, 0), Err(FrameError::InvalidArgument)));
}

#[test]
fn fullscreen_round_trip_restores_rect() {
    let mut f = frame("pos=10,20&size=300,200");
    let layout = one_display();
    f.handle_request(FrameRequests::Fullscreen(true), &layout).unwrap();
    assert_eq!(f.rect(), Rect { x: 0, y: 0, w: 1024, h: 768 });
    assert_eq!(f.z_lock(), ZIndex::Front);
    assert_eq!(f.pixels().len(), 1024 * 768);
    f.handle_request(FrameRequests::Fullscreen(false), &layout).unwrap();
    assert_eq!(f.rect(), Rect { x: 10, y: 20, w: 300, h: 200 });
    assert_eq!(f.pixels().len(), 300 * 200);
}

#[test]
fn fullscreen_picks_nearest_display() {
    let a = Rect { x: 0, y: 0, w: 800, h: 600 };
    let b = Rect { x: 800, y: 0, w: 800, h: 600 };
    let layout = DisplayConfiguration { sizes: vec![a, b], area: Rect { x: 0, y: 0, w: 1600, h: 600 } };
    assert_eq!(layout.fill_screen(&Rect { x: 900, y: 10, w: 5, h: 5 }), b);
    assert_eq!(layout.fill_screen(&Rect { x: 100, y: 10, w: 5, h: 5 }), a);
    assert_eq!(layout.fill_screen(&Rect { x: 400, y: 0, w: 5, h: 5 }), a);
    let empty = DisplayConfiguration { sizes: vec![], area: a };
    assert_eq!(empty.fill_screen(&b), a);
}

#[test]
fn position_request_resizes_and_keeps_pixels_in_bounds() {
    let mut f = frame("min-size=10,10&max-size=100,100&size=50,50");
    f.handle_request(FrameRequests::Position(Rect { x: 3, y: 4, w: 500, h: 5 }), &one_display())
        .unwrap();
    assert_eq!(f.rect(), Rect { x: 3, y: 4, w: 100, h: 10 });
    assert_eq!(f.pixels().len(), 1000);
    let _ = f.next_event();
    match f.next_event() {
        Some(FrameEvents::Position(r)) => assert_eq!(r, Rect { x: 3, y: 4, w: 100, h: 10 }),
        other => panic!("unexpected {:?}", other),
    }
}

#[test]
fn oversized_position_request_fails() {
    let mut f = frame("size=10,10");
    let r = f.handle_request(
        FrameRequests::Position(Rect { x: 0, y: 0, w: 100000, h: 100000 }),
        &one_display(),
    );
    assert!(matches!(r, Err(FrameError::InvalidArgument)));
    assert_eq!(f.size(), Size::new(10, 10));
}

#[test]
fn state_requests_queue_events() {
    let mut f = frame("size=1,1");
    let layout = one_display();
    let _ = f.next_event();
    f.handle_request(FrameRequests::Minimise(true), &layout).unwrap();
    assert!(f.is_minimised());
    assert!(matches!(f.next_event(), Some(FrameEvents::Visible(false))));
    f.handle_request(FrameRequests::Flags(FrameFlags::from_bits(0b100000).unwrap()), &layout).unwrap();
    assert!(matches!(f.next_event(), Some(FrameEvents::Flags(x)) if x.bits() == 0b100000));
    f.handle_request(FrameRequests::ZLock(ZIndex::Back), &layout).unwrap();
    assert_eq!(f.z_lock(), ZIndex::Back);
    assert_eq!(f.pending_events(), 0);
    f.handle_request(FrameRequests::Close, &layout).unwrap();
    assert!(f.is_closing());
    assert!(matches!(f.next_event(), Some(FrameEvents::Close)));
}

#[test]
fn stale_frames_are_dimmed() {
    assert_eq!(stale_alpha(12_500), Some(63));
    assert_eq!(stale_alpha(10_000), None);
    assert_eq!(stale_alpha(15_000), Some(127));
    assert_eq!(stale_alpha(60_000), Some(127));
    let f = frame("size=1,1");
    assert_eq!(f.overlay_alpha(1000 + 12_500), Some(63));
    assert_eq!(f.overlay_alpha(500), None);
}

#[test]
fn messenger_copies_metadata() {
    let f = frame("title=abc&pos=1,2&size=3,4&parent=9");
    let m = f.get_messenger();
    assert_eq!(m.id, 7);
    assert_eq!(m.title, "abc");
    assert_eq!(m.pos, Point::new(1, 2));
    assert_eq!(m.size, Size::new(3, 4));
    assert_eq!(m.parent, Some(9));
    assert_eq!(m.last_update, 1000);
}

#[test]
fn new_frame_clamps_its_options() {
    let mut o = FrameOptions::new_default();
    o.min_size = Size::new(300, 5);
    o.max_size = Size::new(100, 50);
    o.size = Size::new(500, 1);
    let f = Frame::new(o, 1, 0).unwrap();
    assert_eq!(f.size(), Size::new(100, 5));
    assert_eq!(f.size_bounds(), (Size::new(100, 5), Size::new(100, 50)));
    assert_eq!(f.pixels().len(), 500);
}
