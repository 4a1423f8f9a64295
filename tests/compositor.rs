use erika::compositor::{frame_due, Compositor, Damage};
use erika::geometry::{Point, Rect, Size};
use erika::options::FrameOptions;
use erika::plugin::{CallbackRegistry, Counter, Error, PluginEvent, PluginRequest, PluginResponse};
use erika::protocol::{FrameRequests, Input, MouseButton, ZIndex};
use erika::wire::Serialise;

fn desk() -> Compositor {
    Compositor::new(vec![Rect { x: 0, y: 0, w: 1024, h: 768 }]).unwrap()
}

fn two_displays() -> Compositor {
    Compositor::new(vec![
        Rect { x: 0, y: 0, w: 800, h: 600 },
        Rect { x: 800, y: 0, w: 800, h: 600 },
    ])
    .unwrap()
}

#[test]
fn open_map_sync_read() {
    let mut c = desk();
    let id = c.open("title=T&size=200,160", 0).unwrap();
    assert_eq!(id, 1);
    assert_eq!(c.fmap(1, 0, 200 * 160 * 4), Ok(0));
    assert_eq!(c.fmap(1, 4096, 200 * 160 * 4), Err(Error::InvalidArgument));
    assert_eq!(c.fmap(2, 0, 4), Err(Error::NotFound));
    let damage = c.fsync(1, 50).unwrap();
    assert_eq!(damage, vec![Damage { display: 0, rect: Rect { x: 0, y: 0, w: 200, h: 160 } }]);
    assert_eq!(c.read(1, 64), Ok(vec![0x03]));
    assert_eq!(c.read(1, 64), Err(Error::WouldBlock));
    assert_eq!(c.fsync(9, 0), Err(Error::NotFound));
}

#[test]
fn bad_paths_are_invalid() {
    let mut c = desk();
    assert_eq!(c.open("size=1,1&wat", 0), Err(Error::InvalidArgument));
    assert_eq!(c.frame_count(), 0);
}

#[test]
fn small_read_buffer_keeps_event() {
    let mut c = desk();
    let id = c.open("size=4,4", 0).unwrap();
    assert_eq!(c.read(id, 0), Err(Error::NoSpace));
    assert_eq!(c.read(id, 1), Ok(vec![3]));
}

#[test]
fn fullscreen_through_the_scheme() {
    let mut c = desk();
    let id = c.open("pos=10,20&size=300,200", 0).unwrap();
    let on = FrameRequests::Fullscreen(true).to_bytes().unwrap();
    assert_eq!(c.write(id, &on), Ok(2));
    assert_eq!(c.get_frame_by_id(id).unwrap().rect(), Rect { x: 0, y: 0, w: 1024, h: 768 });
    assert_eq!(c.get_frame_by_id(id).unwrap().z_lock(), ZIndex::Front);
    let off = FrameRequests::Fullscreen(false).to_bytes().unwrap();
    assert_eq!(c.write(id, &off), Ok(2));
    assert_eq!(c.get_frame_by_id(id).unwrap().rect(), Rect { x: 10, y: 20, w: 300, h: 200 });
    assert_eq!(c.write(id, &[42]), Err(Error::InvalidArgument));
    assert_eq!(c.write(id + 1, &off), Err(Error::NotFound));
}

#[test]
fn ids_increase_and_are_not_reused() {
    let mut c = desk();
    let a = c.open("size=1,1", 0).unwrap();
    let b = c.open("size=1,1", 0).unwrap();
    assert_eq!((a, b), (1, 2));
    assert_eq!(c.close_frame(b), Ok(()));
    assert_eq!(c.close_frame(b), Err(Error::NotFound));
    let d = c.open("size=1,1", 0).unwrap();
    assert_eq!(d, 3);
    assert_eq!(c.get_frame_by_id(a).unwrap().id(), a);
    assert_eq!(c.get_frame_by_id(d).unwrap().id(), d);
    assert!(c.get_frame_by_id(b).is_none());
}

#[test]
fn cursor_damage_across_displays() {
    let mut c = two_displays();
    assert_eq!(c.cursor_pos(), Point::new(400, 300));
    let origins = [Point::new(0, 0), Point::new(800, 0)];
    let mut trails = [erika::display::CursorTrail::new(), erika::display::CursorTrail::new()];
    for (t, o) in trails.iter_mut().zip(origins.iter()) {
        t.advance(c.cursor_pos(), *o, 20, 20);
    }
    assert!(c.handle_input(11, 500, 0));
    assert_eq!(c.cursor_pos(), Point::new(900, 300));
    let on_a = trails[0].advance(c.cursor_pos(), origins[0], 20, 20);
    let on_b = trails[1].advance(c.cursor_pos(), origins[1], 20, 20);
    assert_eq!(on_a.restore, vec![Rect { x: 400, y: 300, w: 20, h: 20 }]);
    assert_eq!(on_b.cursor, Rect { x: 100, y: 300, w: 20, h: 20 });
    assert!(!on_a.sync.is_empty() && !on_b.sync.is_empty());
    assert_eq!(on_b.sync[0], on_b.cursor);
}

#[test]
fn cursor_stops_at_display_edges() {
    let mut c = two_displays();
    assert!(c.handle_input(11, -100000, -100000));
    assert_eq!(c.cursor_pos(), Point::new(0, 0));
    assert!(c.handle_input(11, i64::MAX, i64::MAX));
    assert_eq!(c.cursor_pos(), Point::new(1599, 599));
    assert!(!c.handle_input(3, 5, 5));
    assert_eq!(c.cursor_pos(), Point::new(1599, 599));
}

#[test]
fn cursor_stays_on_a_display_in_a_ragged_layout() {
    let mut c = Compositor::new(vec![
        Rect { x: 0, y: 0, w: 100, h: 100 },
        Rect { x: 100, y: 0, w: 100, h: 50 },
    ])
    .unwrap();
    assert_eq!(c.cursor_pos(), Point::new(50, 50));
    assert!(c.handle_input(11, 100, 30));
    assert_eq!(c.cursor_pos(), Point::new(99, 80));
}

#[test]
fn bad_layouts_are_refused() {
    assert!(Compositor::new(vec![]).is_err());
    assert!(Compositor::new(vec![Rect { x: 0, y: 0, w: 0, h: 5 }]).is_err());
    assert!(Compositor::new(vec![
        Rect { x: 0, y: 0, w: 100, h: 100 },
        Rect { x: 50, y: 50, w: 100, h: 100 },
    ])
    .is_err());
    assert!(Compositor::new(vec![Rect { x: i32::MAX - 5, y: 0, w: 10, h: 10 }]).is_err());
}

#[test]
fn plugin_create_frame() {
    let mut c = desk();
    for _ in 0..4 {
        c.open("size=1,1", 0).unwrap();
    }
    let _ = c.take_plugin_events();
    let mut registry: CallbackRegistry<&str> = CallbackRegistry::new();
    let key = registry.register("cb");
    let mut options = FrameOptions::new_default();
    options.title = "P".to_string();
    options.size = Size::new(100, 100);
    let response = c.handle_plugin_request(PluginRequest::CreateFrame(options), 0);
    let m = match response {
        PluginResponse::Frame(m) => m,
        other => panic!("unexpected {:?}", other),
    };
    assert_eq!(m.id, 5);
    assert_eq!(m.title, "P");
    let events = c.take_plugin_events();
    assert!(matches!(events.last(), Some(PluginEvent::OnFrameCreate(f)) if f.id == 5));
    assert_eq!(registry.take(key), Some("cb"));
    assert_eq!(registry.take(key), None);
}

#[test]
fn plugin_requests_report_errors() {
    let mut c = desk();
    assert!(matches!(
        c.handle_plugin_request(PluginRequest::GetFrameById(3), 0),
        PluginResponse::Error(Error::NotFound)
    ));
    assert!(matches!(
        c.handle_plugin_request(PluginRequest::CloseFrame(3), 0),
        PluginResponse::Error(Error::NotFound)
    ));
    let id = c.open("size=2,2", 0).unwrap();
    assert!(matches!(
        c.handle_plugin_request(PluginRequest::GetFrameById(id), 0),
        PluginResponse::Frame(m) if m.id == id
    ));
    assert!(matches!(
        c.handle_plugin_request(PluginRequest::PaintBuffer(vec![0; 3], Point::new(0, 0), Size::new(2, 2)), 0),
        PluginResponse::Error(Error::InvalidArgument)
    ));
    assert!(matches!(
        c.handle_plugin_request(PluginRequest::PaintBuffer(vec![0; 4], Point::new(0, 0), Size::new(2, 2)), 0),
        PluginResponse::Done
    ));
    assert_eq!(c.take_paints().len(), 1);
    assert!(matches!(
        c.handle_plugin_request(PluginRequest::GetMouse, 0),
        PluginResponse::Mouse(p, 0) if p == Point::new(512, 384)
    ));
    assert!(matches!(
        c.handle_plugin_request(PluginRequest::CloseFrame(id), 0),
        PluginResponse::Done
    ));
}

#[test]
fn input_is_level_set() {
    let mut c = desk();
    let id = c.open("size=800,600", 0).unwrap();
    assert_eq!(c.read(id, 64), Ok(vec![3]));
    let both = MouseButton::from_bits(0b101).unwrap();
    assert_eq!(c.deliver_input(Input::MouseButtonE(both)), Some(id));
    assert_eq!(c.read(id, 64), Ok(vec![2, 1, 0b101]));
    let left = MouseButton::from_bits(0b100).unwrap();
    assert_eq!(c.deliver_input(Input::MouseButtonE(left)), Some(id));
    assert_eq!(c.read(id, 64), Ok(vec![2, 1, 0b100]));
    assert_eq!(c.read(id, 64), Err(Error::WouldBlock));
    let events = c.take_plugin_events();
    assert!(events.iter().any(|e| matches!(e, PluginEvent::OnMouseUp(1))));
    assert!(events.iter().any(|e| matches!(e, PluginEvent::OnMouseDown(0b101))));
}

#[test]
fn input_without_target_is_dropped() {
    let mut c = desk();
    let id = c.open("pos=900,700&size=10,10", 0).unwrap();
    assert_eq!(c.deliver_input(Input::Key(vec![30])), None);
    assert_eq!(c.read(id, 64), Ok(vec![3]));
    assert_eq!(c.read(id, 64), Err(Error::WouldBlock));
    assert!(matches!(c.handle_plugin_request(PluginRequest::GetKeys, 0), PluginResponse::Keys(k) if k == vec![30]));
}

#[test]
fn painter_order_follows_z_lock() {
    let mut c = desk();
    c.open("size=1,1&z-lock=front", 0).unwrap();
    c.open("size=1,1", 0).unwrap();
    c.open("size=1,1&z-lock=back", 0).unwrap();
    c.open("size=1,1", 0).unwrap();
    assert_eq!(c.compose_order(), vec![2, 1, 3, 0]);
    assert_eq!(c.frame_under(Point::new(0, 0)), Some(1));
}

#[test]
fn frame_rate_gate() {
    assert!(!frame_due(0, 16_000_000));
    assert!(frame_due(0, 16_666_666));
    assert!(!frame_due(10, 5));
}

#[test]
fn counter_steps() {
    let mut k = Counter::new(5, 3);
    assert_eq!(k.next(), 5);
    assert_eq!(k.next(), 8);
    assert!(k.can_advance());
}

#[test]
fn paint_buffer_checks_length() {
    let mut c = desk();
    let r = Rect { x: 1, y: 2, w: 3, h: 2 };
    assert_eq!(c.paint_buffer(vec![7; 5], r), Err(Error::InvalidArgument));
    assert_eq!(c.paint_buffer(vec![7; 6], r), Ok(()));
    let paints = c.take_paints();
    assert_eq!(paints, vec![(r, vec![7; 6])]);
    assert!(c.take_paints().is_empty());
}

#[test]
fn layout_area_is_bounding_box() {
    let c = two_displays();
    assert_eq!(c.get_layout().area, Rect { x: 0, y: 0, w: 1600, h: 600 });
    let (lo, hi) = c.cursor().bounds();
    assert_eq!((lo, hi), (Point::new(0, 0), Point::new(1599, 599)));
}

#[test]
fn plugin_close_reports_destroyed_frame() {
    let mut c = desk();
    let id = c.open("title=gone&pos=3,4&size=5,6", 9).unwrap();
    let _ = c.take_plugin_events();
    assert!(matches!(c.handle_plugin_request(PluginRequest::CloseFrame(id), 0), PluginResponse::Done));
    let events = c.take_plugin_events();
    match events.last() {
        Some(PluginEvent::OnFrameDestroy(m)) => {
            assert_eq!((m.id, m.title.as_str(), m.pos, m.size, m.last_update), (id, "gone", Point::new(3, 4), Size::new(5, 6), 9));
        }
        other => panic!("unexpected {:?}", other),
    }
}
