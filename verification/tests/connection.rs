use input_capture::eis::{has_capability, seat_capabilities, Capability, EisRequest};
use input_capture::eis_connection::{
    devices_for, Action, EisConnection, EisError, Event, Outcome, Region, Step,
};
use input_capture::mutter_input_capture::InputCaptureDBusToCalloop;

type Act = Action<u8, u8, u8, u8>;

fn action(connection: &EisConnection) -> Act {
    connection.action()
}

fn connected() -> EisConnection {
    let mut connection = EisConnection::new(4, 2560, 1440);
    for event in [
        Event::Read,
        Event::Pending,
        Event::HandshakeUnfinished,
        Event::Flushed,
        Event::NothingPending,
        Event::Rested,
        Event::Read,
        Event::Pending,
        Event::HandshakeComplete,
        Event::Flushed,
        Event::SeatAdvertised,
        Event::Flushed,
    ] {
        connection.advance(event);
    }
    assert!(matches!(connection.step, Step::Read));
    connection
}

fn asked() -> EisConnection {
    let mut connection = connected();
    connection.advance(Event::Read);
    connection.advance(Event::Pending);
    connection.advance(Event::Converted);
    connection
}

#[test]
fn capability_bits() {
    for (capability, bit) in [
        (Capability::Pointer, 1),
        (Capability::PointerAbsolute, 2),
        (Capability::Keyboard, 4),
        (Capability::Touch, 8),
        (Capability::Scroll, 16),
        (Capability::Button, 32),
    ] {
        for set in 0..256 {
            assert_eq!(has_capability(set, capability), set & bit == bit);
        }
        assert!(has_capability(u64::MAX, capability));
        assert!(!has_capability(!0x3f, capability));
    }
    assert_eq!(seat_capabilities(), 0x3f);
}

#[test]
fn handshake_asks_in_order() {
    let mut connection = EisConnection::new(4, 2560, 1440);
    assert!(matches!(action(&connection), Action::Read));
    connection.advance(Event::Read);
    assert!(matches!(action(&connection), Action::TakePending));
    connection.advance(Event::PendingInvalidObject);
    assert!(matches!(action(&connection), Action::TakePending));
    connection.advance(Event::Pending);
    assert!(matches!(action(&connection), Action::Shake));
    connection.advance(Event::HandshakeUnfinished);
    assert!(matches!(action(&connection), Action::Flush));
    connection.advance(Event::Flushed);
    assert!(matches!(action(&connection), Action::TakePending));
    connection.advance(Event::NothingPending);
    assert!(matches!(action(&connection), Action::Rest { millis: 10 }));
    connection.advance(Event::Rested);
    assert!(matches!(action(&connection), Action::Read));
    connection.advance(Event::Read);
    connection.advance(Event::Pending);
    connection.advance(Event::HandshakeComplete);
    assert!(matches!(action(&connection), Action::Flush));
    connection.advance(Event::Flushed);
    match action(&connection) {
        Action::AdvertiseSeat { name, capabilities } => {
            assert_eq!(name, "default");
            assert_eq!(capabilities, 0x3f);
        }
        _ => panic!("another action"),
    }
}

#[test]
fn events_that_do_not_answer_change_nothing() {
    let mut connection = EisConnection::new(4, 2560, 1440);
    connection.advance(Event::Rested);
    assert!(matches!(connection.step, Step::HandshakeRead));
}

fn error(connection: &EisConnection) -> String {
    match &connection.step {
        Step::Unregister { outcome: Outcome::Broken { error } } => error.message(),
        _ => panic!("not broken"),
    }
}

#[test]
fn handshake_failures() {
    let mut connection = EisConnection::new(4, 2560, 1440);
    connection.advance(Event::ReadEof { cause: "eof".to_owned() });
    assert_eq!(error(&connection), "eof");

    let mut connection = EisConnection::new(4, 2560, 1440);
    connection.advance(Event::Read);
    connection.advance(Event::PendingUnparsable { cause: "Bad".to_owned() });
    assert_eq!(error(&connection), "Parse error: Bad");

    let mut connection = EisConnection::new(4, 2560, 1440);
    connection.advance(Event::Read);
    connection.advance(Event::Pending);
    connection.advance(Event::HandshakeFailed { cause: "No".to_owned() });
    assert_eq!(error(&connection), "Handshake error: No");
}

#[test]
fn end_of_a_connection_unregisters_the_session() {
    let mut connection = connected();
    connection.advance(Event::ReadEof { cause: "eof".to_owned() });
    match action(&connection) {
        Action::Send { msg: InputCaptureDBusToCalloop::UnregisterSession { session_id } } => {
            assert_eq!(session_id, 4);
        }
        _ => panic!("another action"),
    }
    connection.advance(Event::Unregistered);
    assert!(matches!(connection.step, Step::Closed { outcome: Outcome::Finished }));
    assert!(matches!(action(&connection), Action::Stop));
    connection.advance(Event::Read);
    assert!(matches!(action(&connection), Action::Stop));
}

#[test]
fn read_failure_breaks_the_connection() {
    let mut connection = connected();
    connection.advance(Event::ReadFailed { cause: "reset".to_owned() });
    connection.advance(Event::Unregistered);
    match connection.step {
        Step::Closed { outcome: Outcome::Broken { error: EisError::Io { cause } } } => {
            assert_eq!(cause, "reset");
        }
        _ => panic!("not broken"),
    }
}

#[test]
fn service_tolerates_bad_requests() {
    let mut connection = connected();
    connection.advance(Event::Read);
    connection.advance(Event::PendingUnparsable { cause: "Bad".to_owned() });
    assert!(matches!(connection.step, Step::Pending));
    connection.advance(Event::PendingInvalidObject);
    assert!(matches!(connection.step, Step::Pending));
    connection.advance(Event::Pending);
    connection.advance(Event::ConversionFailed);
    assert!(matches!(connection.step, Step::Pending));
    connection.advance(Event::NothingPending);
    assert!(matches!(action(&connection), Action::Flush));
    connection.advance(Event::Flushed);
    assert!(matches!(action(&connection), Action::Rest { millis: 10 }));
    connection.advance(Event::Rested);
    assert!(matches!(action(&connection), Action::Read));
}

#[test]
fn binding_creates_and_resumes_devices() {
    let mut connection = asked();
    let request = EisRequest::Bind { capabilities: 0x3f };
    connection.advance(Event::Requested { request });
    match action(&connection) {
        Action::CreateDevices { devices } => {
            let names: Vec<&str> = devices.iter().map(|d| d.name.as_str()).collect();
            assert_eq!(names, ["pointer", "pointer-absolute", "keyboard"]);
        }
        _ => panic!("another action"),
    }
    connection.advance(Event::DevicesCreated);
    assert!(matches!(action(&connection), Action::Flush));
    connection.advance(Event::Flushed);
    assert!(matches!(action(&connection), Action::ResumeDevices));
    connection.advance(Event::DevicesResumed);
    assert!(matches!(action(&connection), Action::Flush));
    connection.advance(Event::Flushed);
    assert!(matches!(action(&connection), Action::TakeRequest));
}

#[test]
fn only_the_absolute_pointer_has_a_region() {
    let devices = devices_for(6, 2560, 1440);
    assert_eq!(devices.len(), 2);
    assert_eq!(devices[0].capability, Capability::PointerAbsolute);
    assert_eq!(
        devices[0].region,
        Some(Region { offset_x: 0, offset_y: 0, width: 2560, height: 1440, scale: 1 })
    );
    assert_eq!(devices[1].capability, Capability::Keyboard);
    assert_eq!(devices[1].region, None);
    assert!(devices_for(0x38, 2560, 1440).is_empty());
}

#[test]
fn other_requests_are_forwarded() {
    let mut connection = asked();
    let request = EisRequest::KeyboardKey { key: 30, pressed: true };
    connection.advance(Event::Requested { request });
    match action(&connection) {
        Action::Send { msg: InputCaptureDBusToCalloop::EisInputEvent { session_id, request } } => {
            assert_eq!(session_id, 4);
            assert_eq!(request, EisRequest::KeyboardKey { key: 30, pressed: true });
        }
        _ => panic!("another action"),
    }
    connection.advance(Event::Forwarded);
    assert!(matches!(connection.step, Step::Next));
    connection.advance(Event::NothingRequested);
    assert!(matches!(connection.step, Step::Pending));
}

#[test]
fn disconnecting_ends_the_connection() {
    let mut connection = asked();
    connection.advance(Event::Requested { request: EisRequest::Disconnect });
    assert!(matches!(connection.step, Step::Unregister { outcome: Outcome::Finished }));
}

#[test]
fn failed_flushes_break_the_connection() {
    let mut connection = asked();
    connection.advance(Event::Requested { request: EisRequest::Bind { capabilities: 1 } });
    connection.advance(Event::DevicesCreated);
    connection.advance(Event::FlushFailed { cause: "pipe".to_owned() });
    assert_eq!(error(&connection), "pipe");
}

#[test]
fn whole_connection_forwards_once_and_ends_once() {
    let mut connection = EisConnection::new(4, 2560, 1440);
    let requests = [EisRequest::DeviceStartEmulating, EisRequest::DeviceStopEmulating];
    let mut events = vec![
        Event::Read,
        Event::Pending,
        Event::HandshakeComplete,
        Event::Flushed,
        Event::SeatAdvertised,
        Event::Flushed,
        Event::Read,
        Event::Pending,
        Event::Converted,
    ];
    for request in requests {
        events.push(Event::Requested { request });
        events.push(Event::Forwarded);
    }
    events.push(Event::Requested { request: EisRequest::Disconnect });
    events.push(Event::Unregistered);
    events.push(Event::Unregistered);
    let (mut seats, mut forwarded, mut ends) = (0, Vec::new(), 0);
    for event in events {
        match action(&connection) {
            Action::AdvertiseSeat { .. } => seats += 1,
            Action::Send { msg } => match msg {
                InputCaptureDBusToCalloop::EisInputEvent { session_id, request } => {
                    assert_eq!(session_id, 4);
                    forwarded.push(request);
                }
                InputCaptureDBusToCalloop::UnregisterSession { session_id } => {
                    assert_eq!(session_id, 4);
                    ends += 1;
                }
                _ => panic!("another message"),
            },
            _ => {}
        }
        connection.advance(event);
    }
    assert_eq!(seats, 1);
    assert_eq!(forwarded, requests);
    assert_eq!(ends, 1);
    assert!(matches!(connection.step, Step::Closed { .. }));
}
