use input_capture::barrier::Barrier;
use input_capture::double::Double;
use input_capture::error::CaptureError;
use input_capture::mutter_input_capture::{
    activation_test_emitted, check_barrier_crossing, eis_context_sent, line_segments_intersect,
    trigger_activation_test, BarrierIds, InputCapture, InputCaptureDBusToCalloop,
    InputCaptureShared, LogicalOutput, ObjectOutcome, PointerBarrier, Session, SessionIds,
    SessionRegistry, SetPointerBarriersOptions, Zone, ALL_DEVICE_TYPES, KEYBOARD, POINTER,
    TOUCHSCREEN,
};
use input_capture::segments::Position;

fn at(x: f64, y: f64) -> Position {
    Position { x: Double::from_bits(x.to_bits()), y: Double::from_bits(y.to_bits()) }
}

fn stopped() -> Session {
    let mut session = Session::new(3);
    session.stop_dbus().unwrap();
    session
}

fn message<T: std::fmt::Debug>(r: Result<T, CaptureError>) -> String {
    r.unwrap_err().message()
}

#[test]
fn new_session_is_active() {
    let session = Session::new(12);
    assert!(session.active);
    assert!(!session.enabled);
    assert!(!session.using_eis);
    assert_eq!(session.session_id(), "12");
    assert!(session.barriers.is_empty());
}

#[test]
fn start_and_stop() {
    let mut session = Session::new(0);
    assert_eq!(message(session.start()), "Already started");
    session.stop_dbus().unwrap();
    assert!(!session.active);
    assert_eq!(message(session.stop_dbus()), "Session not started");
    session.start().unwrap();
    assert!(session.active);
}

#[test]
fn inactive_session_refuses() {
    let mut ids = BarrierIds::new();
    assert_eq!(message(stopped().enable()), "Session not started");
    assert_eq!(message(stopped().disable()), "Session not started");
    assert_eq!(message(stopped().release()), "Session not started");
    assert_eq!(message(stopped().connect_to_eis()), "Session not started");
    assert_eq!(message(stopped().clear_barriers()), "Session not started");
    assert_eq!(message(stopped().add_barrier(&mut ids, 0, (0, 0, 0, 9))), "Session not started");
    assert_eq!(ids.next, 1);
    let refused = stopped().set_pointer_barriers(SetPointerBarriersOptions {}, Vec::new(), 0);
    assert_eq!(message(refused), "Session not started");
}

#[test]
fn close_always_works() {
    let mut session = stopped();
    session.close().unwrap();
    session.start().unwrap();
    session.connect_to_eis().unwrap();
    session.enable().unwrap();
    session.close().unwrap();
    assert!(!session.active);
    assert!(!session.enabled);
    session.start().unwrap();
    assert!(!session.enabled);
    assert!(session.using_eis);
}

#[test]
fn enabling_needs_eis() {
    let mut session = Session::new(0);
    assert_eq!(message(session.enable()), "Must call ConnectToEIS first");
    session.connect_to_eis().unwrap();
    session.enable().unwrap();
    assert!(session.enabled);
    session.disable().unwrap();
    assert!(!session.enabled);
    session.release().unwrap();
}

#[test]
fn eis_socket_is_given_once() {
    let mut session = Session::new(0);
    session.connect_to_eis().unwrap();
    assert_eq!(message(session.connect_to_eis()), "Already gave EIS socket");
    session.stop_dbus().unwrap();
    session.start().unwrap();
    assert_eq!(message(session.connect_to_eis()), "Already gave EIS socket");
}

#[test]
fn setting_barriers_suspends() {
    let mut session = Session::new(0);
    session.connect_to_eis().unwrap();
    session.enable().unwrap();
    let wanted = vec![PointerBarrier { barrier_id: 1, position: (0, 0, 0, 9) }];
    let failed = session.set_pointer_barriers(SetPointerBarriersOptions {}, wanted, 0).unwrap();
    assert!(failed.is_empty());
    assert!(!session.enabled);
    assert!(session.active);
}

#[test]
fn zone_set_must_match() {
    let mut session = Session::new(0);
    let refused = session.set_pointer_barriers(SetPointerBarriersOptions {}, Vec::new(), 17);
    assert_eq!(message(refused), "Zone set mismatch: expected 0, got 17");
}

#[test]
fn barriers_are_numbered_across_sessions() {
    let mut ids = BarrierIds::new();
    let mut first = Session::new(0);
    let mut second = Session::new(1);
    assert_eq!(first.add_barrier(&mut ids, 5, (1, 2, 3, 4)).unwrap(), 1);
    assert_eq!(second.add_barrier(&mut ids, 5, (5, 6, 7, 8)).unwrap(), 2);
    assert_eq!(first.add_barrier(&mut ids, 5, (9, 9, 9, 9)).unwrap(), 3);
    assert_eq!(first.barriers.len(), 2);
    assert_eq!(first.barriers[&1], Barrier { id: 1, x1: 1, y1: 2, x2: 3, y2: 4 });
    assert_eq!(second.barriers[&2], Barrier { id: 2, x1: 5, y1: 6, x2: 7, y2: 8 });
    first.clear_barriers().unwrap();
    assert!(first.barriers.is_empty());
    assert_eq!(second.barriers.len(), 1);
}

#[test]
fn barriers_are_numbered_from_one() {
    let mut ids = BarrierIds::new();
    for count in 0..1000 {
        assert_eq!(ids.take(), count + 1);
    }
}

#[test]
fn stopping_from_within_is_stopping() {
    for (start, connect) in [(true, true), (true, false), (false, true)] {
        let mut asked = Session::new(2);
        let mut stopped = Session::new(2);
        for session in [&mut asked, &mut stopped] {
            if connect {
                session.connect_to_eis().unwrap();
                session.enable().unwrap();
            }
            if !start {
                session.close().unwrap();
            }
        }
        assert_eq!(asked.stop_dbus().is_ok(), start);
        stopped.stop::<u8>(None);
        assert_eq!((asked.active, asked.enabled), (stopped.active, stopped.enabled));
        assert_eq!(asked.using_eis, stopped.using_eis);
    }
}

#[test]
fn barrier_numbers_wrap() {
    let mut ids = BarrierIds { next: u32::MAX };
    assert_eq!(ids.take(), u32::MAX);
    assert_eq!(ids.take(), 0);
}

#[test]
fn zones_of_lit_outputs() {
    let outputs = vec![
        Some(LogicalOutput { x: 0, y: 0, width: 2560, height: 1440 }),
        None,
        Some(LogicalOutput { x: 2560, y: -100, width: 1920, height: 1080 }),
    ];
    let (zone_set, zones) = stopped().get_zones(&outputs).unwrap();
    assert_eq!(zone_set, 0);
    assert_eq!(zones, vec![Zone(2560, 1440, 0, 0), Zone(1920, 1080, 2560, -100)]);
}

#[test]
fn eis_context_goes_to_the_compositor() {
    let session = Session::new(4);
    let msg: InputCaptureDBusToCalloop<&str, (), (), &str> =
        session.eis_context_message("context", 2560, 1440, "channel");
    match msg {
        InputCaptureDBusToCalloop::NewEisContext {
            session_id,
            ctx,
            exposed_device_types,
            screen_width,
            screen_height,
            event_sender,
        } => {
            assert_eq!(session_id, 4);
            assert_eq!(event_sender, "channel");
            assert_eq!(ctx, "context");
            assert_eq!(exposed_device_types, 7);
            assert_eq!((screen_width, screen_height), (2560, 1440));
        }
        _ => panic!("another message"),
    }
    eis_context_sent(Ok(())).unwrap();
    let refused = eis_context_sent(Err("Closed".to_owned()));
    assert_eq!(message(refused), "Failed to register EIS context: Closed");
}

#[test]
fn sessions_are_numbered_and_registered() {
    let mut ids = SessionIds::new();
    let mut capture: InputCapture<u8> = InputCapture::new();
    let mut registry: SessionRegistry<u8> = SessionRegistry::new();
    let first = capture.create_session(&mut ids, POINTER);
    assert_eq!(first.path, "/org/gnome/Mutter/InputCapture/Session/u0");
    assert_eq!(first.session.id, 0);
    assert!(capture.shared.sessions.is_empty());
    let made = ObjectOutcome::Made { iface: 5, registered: 6 };
    let path = capture.session_object_made(&mut registry, 0, first.path, made).unwrap();
    assert_eq!(path, "/org/gnome/Mutter/InputCapture/Session/u0");
    assert_eq!(capture.shared.sessions[&0], 5);
    assert_eq!(registry.sessions[&0], 6);
    let second = capture.create_session(&mut ids, KEYBOARD);
    assert_eq!(second.path, "/org/gnome/Mutter/InputCapture/Session/u1");
}

#[test]
fn sessions_of_different_objects_are_told_apart() {
    let mut ids = SessionIds::new();
    let mut one: InputCapture<u8> = InputCapture::new();
    let mut other: InputCapture<u8> = InputCapture::new();
    for n in 0..12 {
        let object = if n % 3 == 0 { &mut one } else { &mut other };
        let new = object.create_session(&mut ids, 0);
        assert_eq!(new.session.id, n);
        assert_eq!(new.path, format!("/org/gnome/Mutter/InputCapture/Session/u{n}"));
    }
    let mut last = SessionIds { next: usize::MAX };
    assert_eq!(last.take(), usize::MAX);
    assert_eq!(last.take(), 0);
}

#[test]
fn sessions_without_an_object_are_not_registered() {
    let mut ids = SessionIds::new();
    let mut capture: InputCapture<u8> = InputCapture::new();
    let mut registry: SessionRegistry<u8> = SessionRegistry::new();
    let new = capture.create_session(&mut ids, 0);
    let taken = capture.session_object_made(&mut registry, 0, new.path, ObjectOutcome::PathTaken);
    assert_eq!(message(taken), "session path already exists");
    let new = capture.create_session(&mut ids, 0);
    assert_eq!(new.session.id, 1);
    let failed = ObjectOutcome::Failed { cause: "Bus".to_owned() };
    let refused = capture.session_object_made(&mut registry, 1, new.path, failed);
    assert_eq!(message(refused), "error creating session object: Bus");
    assert!(capture.shared.sessions.is_empty());
    assert!(registry.sessions.is_empty());
}

#[test]
fn stop_unregisters() {
    let mut registry: SessionRegistry<u8> = SessionRegistry::new();
    registry.sessions.insert(3, 1);
    let mut session = stopped();
    session.stop(Some(&mut registry));
    assert_eq!(registry.sessions.len(), 1);
    session.start().unwrap();
    session.stop(Some(&mut registry));
    assert!(registry.sessions.is_empty());
    assert!(!session.active);
    session.start().unwrap();
    session.stop::<u8>(None);
    assert!(!session.active);
}

#[test]
fn activation_test() {
    let mut registry: SessionRegistry<u8> = SessionRegistry::new();
    assert_eq!(
        message(trigger_activation_test(&registry, &vec![(8, true)])),
        "No active InputCapture sessions found"
    );
    registry.sessions.insert(8, 1);
    registry.sessions.insert(9, 1);
    assert_eq!(trigger_activation_test(&registry, &vec![(7, true), (8, true)]).unwrap(), 8);
    assert_eq!(trigger_activation_test(&registry, &vec![(8, false), (9, true), (8, true)]).unwrap(), 9);
    let mut session = Session::new(8);
    for expected in 0..3 {
        let signal = session.activation_test().unwrap();
        assert_eq!(signal.barrier_id, 1);
        assert_eq!(signal.activation_id, expected);
        assert_eq!(signal.cursor_position, at(0.0, 0.0));
    }
    activation_test_emitted(Ok(())).unwrap();
    let refused = activation_test_emitted(Err("Gone".to_owned()));
    assert_eq!(message(refused), "Signal emission failed: Gone");
}

#[test]
fn properties() {
    let capture: InputCapture<u8> = InputCapture::new();
    assert_eq!(capture.version(), 1);
    assert_eq!(capture.supported_capabilities(), KEYBOARD | POINTER | TOUCHSCREEN);
    assert_eq!(ALL_DEVICE_TYPES, 7);
    assert_eq!(InputCapture::<u8>::bus_path(), "/org/gnome/Mutter/InputCapture");
    assert_eq!(InputCapture::<u8>::bus_name(), "org.gnome.Mutter.InputCapture");
    assert!(InputCaptureShared::<u8>::new().sessions.is_empty());
}

#[test]
fn segments_by_turning() {
    let (a, b) = (at(0.0, 0.0), at(10.0, 10.0));
    assert!(line_segments_intersect(&a, &b, &at(0.0, 10.0), &at(10.0, 0.0)));
    assert!(!line_segments_intersect(&a, &b, &at(0.0, 10.0), &at(4.0, 6.0)));
    assert!(!line_segments_intersect(&a, &b, &at(1.0, 0.0), &at(11.0, 10.0)));
}

#[test]
fn segments_that_touch() {
    let (a, b) = (at(0.0, 0.0), at(5.0, 5.0));
    assert!(line_segments_intersect(&a, &b, &at(5.0, 5.0), &at(10.0, 0.0)));
    assert!(line_segments_intersect(&a, &b, &at(2.0, 2.0), &at(9.0, 0.0)));
    assert!(line_segments_intersect(&a, &b, &at(3.0, 3.0), &at(8.0, 8.0)));
    assert!(line_segments_intersect(&a, &b, &at(2.0, 2.0), &at(2.0, 2.0)));
    assert!(!line_segments_intersect(&a, &b, &at(6.0, 6.0), &at(8.0, 8.0)));
    assert!(!line_segments_intersect(&a, &b, &at(f64::NAN, 3.0), &at(3.0, 3.5)));
}

#[test]
fn inactive_session_is_not_tried() {
    let mut registry: SessionRegistry<u8> = SessionRegistry::new();
    registry.sessions.insert(8, 1);
    let mut session = Session::new(8);
    session.close().unwrap();
    let expected = "No active InputCapture sessions found";
    let states = vec![(8, session.active)];
    assert_eq!(message(trigger_activation_test(&registry, &states)), expected);
    assert_eq!(message(trigger_activation_test(&registry, &Vec::new())), expected);
    assert_eq!(message(session.activation_test()), expected);
    assert_eq!(session.activation_id, 0);
}

#[test]
fn barrier_identifier_is_new() {
    let mut ids = BarrierIds::new();
    let mut session = Session::new(0);
    for _ in 0..50 {
        let known: Vec<u32> = session.barriers.keys().copied().collect();
        let id = session.add_barrier(&mut ids, 0, (1, 2, 3, 4)).unwrap();
        assert!(!known.contains(&id));
        assert!(session.barriers.keys().all(|key| *key < ids.next));
    }
    assert_eq!(session.barriers.len(), 50);
}

#[test]
fn client_side_detection_does_nothing() {
    check_barrier_crossing(at(0.0, 0.0), at(1.0, 1.0));
}
