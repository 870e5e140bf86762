use std::collections::HashMap;

use input_capture::barrier::Barrier;
use input_capture::double::Double;
use input_capture::eis::{ButtonState, EisButtonState, EisRequest};
use input_capture::input_capture::{
    eis_thread_name, BarrierTables, Effect, InputCaptureState, State,
};
use input_capture::mutter_input_capture::InputCaptureDBusToCalloop;
use input_capture::segments::Position;

type Msg = InputCaptureDBusToCalloop<u8, u8, u8, u8>;

fn number(x: f64) -> Double {
    Double::from_bits(x.to_bits())
}

fn at(x: f64, y: f64) -> Position {
    Position { x: number(x), y: number(y) }
}

fn compositor(pointer: Option<Position>) -> State<u8, u8, u8> {
    State { input_capture: InputCaptureState::new(), pointer }
}

fn register(state: &mut State<u8, u8, u8>, session_id: usize) {
    let msg: Msg =
        InputCaptureDBusToCalloop::RegisterSession { session_id, barriers: 1, signal_sender: 2 };
    assert!(state.on_input_capture_msg_from_dbus(msg).is_empty());
}

fn send(state: &mut State<u8, u8, u8>, msg: Msg) -> Vec<Effect<u8, u8>> {
    state.on_input_capture_msg_from_dbus(msg)
}

fn activate(state: &mut State<u8, u8, u8>, session_id: usize, barrier_id: u32) {
    let cursor_position = at(0.0, 0.0);
    let msg = InputCaptureDBusToCalloop::ActivateSession { session_id, barrier_id, cursor_position };
    assert!(send(state, msg).is_empty());
}

fn right_edge(session_id: usize, barrier_id: u32) -> BarrierTables {
    let barrier = Barrier { id: barrier_id, x1: 6400, y1: 0, x2: 6400, y2: 1440 };
    let mut table = HashMap::new();
    table.insert(barrier_id, barrier);
    let mut tables = HashMap::new();
    tables.insert(session_id, table);
    tables
}

fn cross(state: &State<u8, u8, u8>, tables: &BarrierTables) -> Option<(usize, u32, Position)> {
    state.check_barrier_crossing(at(6398.0, 700.0), at(6399.0, 700.0), tables)
}

#[test]
fn crossing_is_reported_for_an_armed_session() {
    let mut state = compositor(None);
    let tables = right_edge(5, 7);
    assert!(cross(&state, &tables).is_none());
    register(&mut state, 5);
    assert_eq!(cross(&state, &tables), Some((5, 7, at(6399.0, 700.0))));
}

#[test]
fn motion_through_a_barrier_is_reported() {
    let mut state = compositor(None);
    register(&mut state, 1);
    let mut table = HashMap::new();
    table.insert(5, Barrier { id: 5, x1: 100, y1: 0, x2: 100, y2: 200 });
    let mut tables = HashMap::new();
    tables.insert(1, table);
    let through = state.check_barrier_crossing(at(0.0, 50.0), at(200.0, 50.0), &tables);
    assert_eq!(through, Some((1, 5, at(200.0, 50.0))));
}

#[test]
fn motion_away_from_a_barrier_is_not_reported() {
    let mut state = compositor(None);
    register(&mut state, 5);
    let tables = right_edge(5, 7);
    let away = state.check_barrier_crossing(at(6399.0, 500.0), at(6398.75, 500.0), &tables);
    assert_eq!(away, None);
}

#[test]
fn registered_session_starts_afresh() {
    let mut state = compositor(None);
    register(&mut state, 5);
    activate(&mut state, 5, 7);
    state.input_capture.sessions.get_mut(&5).unwrap().signal_emitter = Some(3);
    register(&mut state, 5);
    let session = &state.input_capture.sessions[&5];
    assert_eq!(session.session_id, 5);
    assert_eq!(session.barriers, 1);
    assert_eq!(session.signal_emitter, None);
    assert_eq!(session.signal_sender, Some(2));
    assert!(session.enabled);
    assert!(!session.activated);
    assert_eq!(session.current_activation_id, 0);
    assert_eq!(session.current_barrier_id, None);
    assert!(state.input_capture.input_suppressed);
}

#[test]
fn full_activation_counter_leaves_no_room() {
    let mut state = compositor(None);
    register(&mut state, 5);
    let activation = |session_id| -> Msg {
        let cursor_position = at(0.0, 0.0);
        InputCaptureDBusToCalloop::ActivateSession { session_id, barrier_id: 7, cursor_position }
    };
    assert!(state.input_capture.has_room(&activation(5)));
    state.input_capture.sessions.get_mut(&5).unwrap().current_activation_id = u32::MAX;
    assert!(!state.input_capture.has_room(&activation(5)));
    assert!(state.input_capture.has_room(&activation(6)));
    let other: Msg = InputCaptureDBusToCalloop::UnregisterSession { session_id: 5 };
    assert!(state.input_capture.has_room(&other));
}

#[test]
fn unknown_or_unreadable_tables_report_nothing() {
    let mut state = compositor(None);
    register(&mut state, 5);
    assert!(cross(&state, &right_edge(6, 7)).is_none());
    assert!(cross(&state, &HashMap::new()).is_none());
}

#[test]
fn suppressed_input_reports_nothing() {
    let mut state = compositor(None);
    register(&mut state, 5);
    state.input_capture.input_suppressed = true;
    assert!(cross(&state, &right_edge(5, 7)).is_none());
}

#[test]
fn disabled_and_capturing_sessions_are_skipped() {
    let mut state = compositor(None);
    register(&mut state, 5);
    state.input_capture.sessions.get_mut(&5).unwrap().enabled = false;
    assert!(cross(&state, &right_edge(5, 7)).is_none());
    let msg = InputCaptureDBusToCalloop::NewEisContext {
        session_id: 5,
        ctx: 9,
        exposed_device_types: 7,
        screen_width: 6400,
        screen_height: 1440,
        event_sender: 6,
    };
    send(&mut state, msg);
    assert!(cross(&state, &right_edge(5, 7)).is_some());
    activate(&mut state, 5, 7);
    state.input_capture.input_suppressed = false;
    assert!(cross(&state, &right_edge(5, 7)).is_none());
}

#[test]
fn one_of_several_crossings_is_reported() {
    let mut state = compositor(None);
    register(&mut state, 5);
    register(&mut state, 6);
    let mut tables = right_edge(5, 7);
    tables.extend(right_edge(6, 8));
    let (session_id, barrier_id, _) = cross(&state, &tables).unwrap();
    assert!((session_id, barrier_id) == (5, 7) || (session_id, barrier_id) == (6, 8));
}

#[test]
fn activation_and_deactivation() {
    let mut state = compositor(None);
    register(&mut state, 5);
    activate(&mut state, 5, 7);
    let session = &state.input_capture.sessions[&5];
    assert!(session.activated);
    assert_eq!(session.current_activation_id, 1);
    assert_eq!(session.current_barrier_id, Some(7));
    assert!(state.input_capture.input_suppressed);
    let msg = InputCaptureDBusToCalloop::DeactivateSession {
        session_id: 5,
        cursor_position: at(0.0, 0.0),
    };
    send(&mut state, msg);
    let session = &state.input_capture.sessions[&5];
    assert!(!session.activated);
    assert_eq!(session.current_activation_id, 1);
    assert_eq!(session.current_barrier_id, None);
    assert!(session.enabled);
    assert!(!state.input_capture.input_suppressed);
}

#[test]
fn messages_about_unknown_sessions() {
    let mut state = compositor(None);
    activate(&mut state, 5, 7);
    assert!(!state.input_capture.input_suppressed);
    assert!(state.input_capture.sessions.is_empty());
    state.input_capture.input_suppressed = true;
    let msg = InputCaptureDBusToCalloop::DeactivateSession {
        session_id: 5,
        cursor_position: at(0.0, 0.0),
    };
    send(&mut state, msg);
    assert!(state.input_capture.input_suppressed);
    send(&mut state, InputCaptureDBusToCalloop::RemoveEisHandler { session_id: 5 });
    assert!(state.input_capture.input_suppressed);
    send(&mut state, InputCaptureDBusToCalloop::UnregisterSession { session_id: 5 });
    assert!(!state.input_capture.input_suppressed);
}

#[test]
fn unregistration_frees_input() {
    let mut state = compositor(None);
    register(&mut state, 5);
    register(&mut state, 6);
    activate(&mut state, 5, 7);
    send(&mut state, InputCaptureDBusToCalloop::UnregisterSession { session_id: 5 });
    assert!(!state.input_capture.sessions.contains_key(&5));
    assert!(state.input_capture.sessions.contains_key(&6));
    assert!(!state.input_capture.input_suppressed);
}

#[test]
fn new_eis_context_is_served_in_a_thread() {
    let mut state = compositor(None);
    let msg = InputCaptureDBusToCalloop::NewEisContext {
        session_id: 31,
        ctx: 9,
        exposed_device_types: 7,
        screen_width: 6400,
        screen_height: 1440,
        event_sender: 6,
    };
    let effects = send(&mut state, msg);
    assert_eq!(effects.len(), 1);
    match &effects[0] {
        Effect::ServeEis {
            thread_name,
            session_id,
            ctx,
            screen_width,
            screen_height,
            event_sender,
        } => {
            assert_eq!(*event_sender, 6);
            assert_eq!(thread_name, "eis-session-31");
            assert_eq!(*session_id, 31);
            assert_eq!(*ctx, 9);
            assert_eq!((*screen_width, *screen_height), (6400, 1440));
        }
        _ => panic!("another effect"),
    }
    assert!(state.input_capture.sessions.is_empty());
    assert_eq!(eis_thread_name(0), "eis-session-0");
}

fn event(state: &mut State<u8, u8, u8>, request: EisRequest) -> Vec<Effect<u8, u8>> {
    send(state, InputCaptureDBusToCalloop::EisInputEvent { session_id: 5, request })
}

#[test]
fn relative_motion_adds_to_the_location() {
    let mut state = compositor(Some(at(100.5, 0.1)));
    let effects =
        event(&mut state, EisRequest::PointerMotion { dx: number(-2.25), dy: number(0.2) });
    assert_eq!(effects.len(), 3);
    match &effects[0] {
        Effect::MovePointer { location, enter_surface } => {
            assert_eq!(*location, at(98.25, 0.1 + 0.2));
            assert!(!enter_surface);
        }
        _ => panic!("another effect"),
    }
    assert!(matches!(effects[1], Effect::PointerFrame));
    assert!(matches!(effects[2], Effect::QueueRedraw));
}

#[test]
fn absolute_motion_sets_the_location() {
    let mut state = compositor(Some(at(100.5, 0.1)));
    let request = EisRequest::PointerMotionAbsolute {
        dx_absolute: number(7.0),
        dy_absolute: number(8.0),
    };
    let effects = event(&mut state, request);
    assert_eq!(effects.len(), 3);
    match &effects[0] {
        Effect::MovePointer { location, enter_surface } => {
            assert_eq!(*location, at(7.0, 8.0));
            assert!(enter_surface);
        }
        _ => panic!("another effect"),
    }
}

#[test]
fn buttons_are_passed_on() {
    let mut state = compositor(Some(at(0.0, 0.0)));
    for (state_in, state_out) in [
        (EisButtonState::Press, ButtonState::Pressed),
        (EisButtonState::Released, ButtonState::Released),
    ] {
        let effects = event(&mut state, EisRequest::Button { button: 272, state: state_in });
        assert_eq!(effects.len(), 2);
        match &effects[0] {
            Effect::PointerButton { button, state } => {
                assert_eq!(*button, 272);
                assert_eq!(*state, state_out);
            }
            _ => panic!("another effect"),
        }
        assert!(matches!(effects[1], Effect::PointerFrame));
    }
}

#[test]
fn no_pointer_no_effects() {
    let mut state = compositor(None);
    let request = EisRequest::PointerMotion { dx: number(1.0), dy: number(1.0) };
    assert!(event(&mut state, request).is_empty());
    let request = EisRequest::Button { button: 1, state: EisButtonState::Press };
    assert!(event(&mut state, request).is_empty());
}

#[test]
fn ignored_requests() {
    let mut state = compositor(Some(at(0.0, 0.0)));
    for request in [
        EisRequest::KeyboardKey { key: 30, pressed: true },
        EisRequest::Frame,
        EisRequest::Other,
    ] {
        assert!(event(&mut state, request).is_empty());
        assert!(!state.input_capture.input_suppressed);
    }
}

#[test]
fn emulation_suppresses_and_frees_input() {
    let mut state = compositor(Some(at(0.0, 0.0)));
    register(&mut state, 5);
    activate(&mut state, 5, 7);
    state.input_capture.input_suppressed = false;
    assert!(event(&mut state, EisRequest::DeviceStartEmulating).is_empty());
    assert!(state.input_capture.input_suppressed);
    assert!(event(&mut state, EisRequest::DeviceStopEmulating).is_empty());
    assert!(!state.input_capture.input_suppressed);
    assert!(!state.input_capture.sessions[&5].activated);
    assert_eq!(state.input_capture.sessions[&5].current_barrier_id, None);
}

#[test]
fn default_state_is_empty() {
    let state: InputCaptureState<u8, u8, u8> = Default::default();
    assert!(state.sessions.is_empty());
    assert!(!state.input_suppressed);
}
