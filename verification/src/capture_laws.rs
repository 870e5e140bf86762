//! What the compositor does with crossings, messages and client input, over the
//! fields of its state.

use std::collections::HashMap;

use vstd::prelude::*;

use crate::barrier::Barrier;
use crate::double::law_sum_is_nearest;
use crate::double::law_sum_keeps_direction;
use crate::double::law_whole_sums_are_exact;
use crate::double::size_of_int;
use crate::double::Double;
use crate::eis::ButtonState;
use crate::eis::EisButtonState;
use crate::eis::EisRequest;
use crate::input_capture::effects_match;
use crate::input_capture::Effect;
use crate::input_capture::InputCaptureState;
use crate::mutter_input_capture::InputCaptureDBusToCalloop;
use crate::segments::Position;
use crate::text::decimal;

verus! {

/// While local input gets through, a session that is enabled and not capturing
/// is watched, whatever else is known of it: a motion that crosses one of its
/// barriers is reported.
pub proof fn law_enabled_idle_session_is_watched<B, S, E>(
    state: InputCaptureState<B, S, E>,
    tables: Map<usize, HashMap<u32, Barrier>>,
    old: Position,
    new: Position,
    report: Option<(usize, u32, Position)>,
    session_id: usize,
    barrier_id: u32,
)
    requires
        state.reports(tables, old, new, report),
        !state.input_suppressed,
        state.sessions@.contains_key(session_id),
        state.sessions@[session_id].enabled,
        !state.sessions@[session_id].activated,
        tables.contains_key(session_id),
        tables[session_id]@.contains_key(barrier_id),
        tables[session_id]@[barrier_id].crossed(old, new),
    ensures
        report is Some,
{
    assert(state.crossing(tables, old, new, session_id, barrier_id));
}

/// A report names a session that is enabled and not capturing, one of its
/// barriers that the motion crosses, and the new position, and is made only while
/// local input gets through.
pub proof fn law_report_is_a_crossing<B, S, E>(
    state: InputCaptureState<B, S, E>,
    tables: Map<usize, HashMap<u32, Barrier>>,
    old: Position,
    new: Position,
    session_id: usize,
    barrier_id: u32,
    position: Position,
)
    requires
        state.reports(tables, old, new, Some((session_id, barrier_id, position))),
    ensures
        !state.input_suppressed,
        state.sessions@.contains_key(session_id),
        state.sessions@[session_id].enabled,
        !state.sessions@[session_id].activated,
        tables.contains_key(session_id),
        tables[session_id]@.contains_key(barrier_id),
        tables[session_id]@[barrier_id].crossed(old, new),
        position == new,
{
}

/// A session that captured and let go is watched again: after its activation and
/// its deactivation, or the end of its client's emulation, a motion that crosses
/// one of its barriers is reported.
pub proof fn law_released_session_is_watched_again<C, B, S, M, E>(
    before: InputCaptureState<B, S, E>,
    session_id: usize,
    at_barrier: u32,
    cursor_position: Position,
    capturing: InputCaptureState<B, S, E>,
    release: InputCaptureDBusToCalloop<C, B, S, M>,
    after: InputCaptureState<B, S, E>,
    tables: Map<usize, HashMap<u32, Barrier>>,
    old: Position,
    new: Position,
    report: Option<(usize, u32, Position)>,
    barrier_id: u32,
)
    requires
        before.sessions@.contains_key(session_id),
        before.sessions@[session_id].enabled,
        before.leads_to(
            InputCaptureDBusToCalloop::<C, B, S, M>::ActivateSession {
                session_id,
                barrier_id: at_barrier,
                cursor_position,
            },
            capturing,
        ),
        ({
            ||| release matches InputCaptureDBusToCalloop::DeactivateSession { session_id: id, .. }
                && id == session_id
            ||| release == (InputCaptureDBusToCalloop::<C, B, S, M>::EisInputEvent {
                session_id,
                request: EisRequest::DeviceStopEmulating,
            })
        }),
        capturing.leads_to(release, after),
        tables.contains_key(session_id),
        tables[session_id]@.contains_key(barrier_id),
        tables[session_id]@[barrier_id].crossed(old, new),
        after.reports(tables, old, new, report),
    ensures
        report is Some,
{
    law_enabled_idle_session_is_watched(
        after,
        tables,
        old,
        new,
        report,
        session_id,
        barrier_id,
    );
}

/// A registered session is enabled, idle and as new, has what it was registered
/// with, and takes the place of an earlier one; all else stays.
pub proof fn law_registration_in_full<C, B, S, M, E>(
    before: InputCaptureState<B, S, E>,
    session_id: usize,
    barriers: B,
    signal_sender: S,
    after: InputCaptureState<B, S, E>,
    other: usize,
)
    requires
        before.leads_to(
            InputCaptureDBusToCalloop::<C, B, S, M>::RegisterSession {
                session_id,
                barriers,
                signal_sender,
            },
            after,
        ),
        other != session_id,
    ensures
        after.sessions@.contains_key(session_id),
        ({
            let session = after.sessions@[session_id];
            &&& session.session_id == session_id
            &&& session.barriers == barriers
            &&& session.signal_emitter is None
            &&& session.signal_sender == Some(signal_sender)
            &&& session.enabled
            &&& !session.activated
            &&& session.current_activation_id == 0
            &&& session.current_barrier_id is None
        }),
        after.sessions@.contains_key(other) == before.sessions@.contains_key(other),
        before.sessions@.contains_key(other) ==> after.sessions@[other] == before.sessions@[other],
        after.input_suppressed == before.input_suppressed,
{
}

/// An activated session captures at the barrier that was named, its activation
/// is counted and local input is held back; nothing else of it changes, and
/// nothing of others. An unknown session changes nothing at all.
pub proof fn law_activation_in_full<C, B, S, M, E>(
    before: InputCaptureState<B, S, E>,
    session_id: usize,
    barrier_id: u32,
    cursor_position: Position,
    after: InputCaptureState<B, S, E>,
    other: usize,
)
    requires
        before.leads_to(
            InputCaptureDBusToCalloop::<C, B, S, M>::ActivateSession {
                session_id,
                barrier_id,
                cursor_position,
            },
            after,
        ),
        before.sessions@.contains_key(session_id)
            ==> before.sessions@[session_id].current_activation_id < u32::MAX,
        other != session_id,
    ensures
        before.sessions@.contains_key(session_id) ==> {
            let was = before.sessions@[session_id];
            let session = after.sessions@[session_id];
            &&& after.sessions@.contains_key(session_id)
            &&& session.activated
            &&& session.current_activation_id == was.current_activation_id + 1
            &&& session.current_barrier_id == Some(barrier_id)
            &&& session.session_id == was.session_id
            &&& session.barriers == was.barriers
            &&& session.signal_emitter == was.signal_emitter
            &&& session.signal_sender == was.signal_sender
            &&& session.enabled == was.enabled
            &&& after.input_suppressed
        },
        !before.sessions@.contains_key(session_id) ==> {
            &&& !after.sessions@.contains_key(session_id)
            &&& after.input_suppressed == before.input_suppressed
        },
        after.sessions@.contains_key(other) == before.sessions@.contains_key(other),
        before.sessions@.contains_key(other) ==> after.sessions@[other] == before.sessions@[other],
{
}

/// A deactivated session, or one whose client stops emulating, is idle, and
/// local input gets through; nothing else of it changes, and nothing of others.
/// An unknown session changes nothing at all.
pub proof fn law_deactivation_in_full<C, B, S, M, E>(
    before: InputCaptureState<B, S, E>,
    session_id: usize,
    msg: InputCaptureDBusToCalloop<C, B, S, M>,
    after: InputCaptureState<B, S, E>,
    other: usize,
)
    requires
        before.leads_to(msg, after),
        ({
            ||| msg matches InputCaptureDBusToCalloop::DeactivateSession { session_id: id, .. }
                && id == session_id
            ||| msg == (InputCaptureDBusToCalloop::<C, B, S, M>::EisInputEvent {
                session_id,
                request: EisRequest::DeviceStopEmulating,
            })
        }),
        other != session_id,
    ensures
        before.sessions@.contains_key(session_id) ==> {
            let was = before.sessions@[session_id];
            let session = after.sessions@[session_id];
            &&& after.sessions@.contains_key(session_id)
            &&& !session.activated
            &&& session.current_barrier_id is None
            &&& session.current_activation_id == was.current_activation_id
            &&& session.session_id == was.session_id
            &&& session.barriers == was.barriers
            &&& session.signal_emitter == was.signal_emitter
            &&& session.signal_sender == was.signal_sender
            &&& session.enabled == was.enabled
            &&& !after.input_suppressed
        },
        !before.sessions@.contains_key(session_id) ==> {
            &&& !after.sessions@.contains_key(session_id)
            &&& after.input_suppressed == before.input_suppressed
        },
        after.sessions@.contains_key(other) == before.sessions@.contains_key(other),
        before.sessions@.contains_key(other) ==> after.sessions@[other] == before.sessions@[other],
{
}

/// A new EIS context enables its session, if that is known, and changes nothing
/// else.
pub proof fn law_eis_context_in_full<C, B, S, M, E>(
    before: InputCaptureState<B, S, E>,
    msg: InputCaptureDBusToCalloop<C, B, S, M>,
    after: InputCaptureState<B, S, E>,
    id: usize,
)
    requires
        before.leads_to(msg, after),
        msg is NewEisContext,
    ensures
        after.sessions@.contains_key(id) == before.sessions@.contains_key(id),
        before.sessions@.contains_key(id) ==> {
            let was = before.sessions@[id];
            let session = after.sessions@[id];
            &&& session.enabled == (was.enabled || id == msg->NewEisContext_session_id)
            &&& session.activated == was.activated
            &&& session.current_barrier_id == was.current_barrier_id
            &&& session.current_activation_id == was.current_activation_id
            &&& session.session_id == was.session_id
            &&& session.barriers == was.barriers
            &&& session.signal_emitter == was.signal_emitter
            &&& session.signal_sender == was.signal_sender
        },
        after.input_suppressed == before.input_suppressed,
{
}

/// An unregistered session is unknown, and local input gets through; others
/// stay.
pub proof fn law_unregistration_in_full<C, B, S, M, E>(
    before: InputCaptureState<B, S, E>,
    session_id: usize,
    after: InputCaptureState<B, S, E>,
    other: usize,
)
    requires
        before.leads_to(
            InputCaptureDBusToCalloop::<C, B, S, M>::UnregisterSession { session_id },
            after,
        ),
        other != session_id,
    ensures
        !after.sessions@.contains_key(session_id),
        !after.input_suppressed,
        after.sessions@.contains_key(other) == before.sessions@.contains_key(other),
        before.sessions@.contains_key(other) ==> after.sessions@[other] == before.sessions@[other],
{
}

/// The end of an EIS handler changes no session, and neither does client input
/// other than the end of emulation. Only the start of emulation holds local input
/// back.
pub proof fn law_client_input_in_full<C, B, S, M, E>(
    before: InputCaptureState<B, S, E>,
    msg: InputCaptureDBusToCalloop<C, B, S, M>,
    after: InputCaptureState<B, S, E>,
)
    requires
        before.leads_to(msg, after),
        msg is RemoveEisHandler || msg is EisInputEvent,
        msg is EisInputEvent ==> !(msg->EisInputEvent_request is DeviceStopEmulating),
    ensures
        after.sessions@ == before.sessions@,
        after.input_suppressed == (before.input_suppressed || msg is EisInputEvent
            && msg->EisInputEvent_request is DeviceStartEmulating),
{
}

/// Only an activation of a known session whose counter is full cannot be taken.
pub proof fn law_room_is_for_all_but_a_full_counter<C, B, S, M, E>(
    state: InputCaptureState<B, S, E>,
    msg: InputCaptureDBusToCalloop<C, B, S, M>,
)
    requires
        !state.has_room_for(msg),
    ensures
        msg is ActivateSession,
        state.sessions@.contains_key(msg->ActivateSession_session_id),
        state.sessions@[msg->ActivateSession_session_id].current_activation_id == u32::MAX,
{
}

/// A relative motion moves the pointer by the distance, in both coordinates, as
/// near as numbers allow: no finite coordinate is nearer to the exact sum. What
/// lies there is not entered; a frame and a redraw follow.
pub proof fn law_relative_motion<C, B, S, M>(
    session_id: usize,
    at: Position,
    dx: Double,
    dy: Double,
    effects: Seq<Effect<C, M>>,
    other: Double,
)
    requires
        effects_match(
            effects,
            Some(at),
            InputCaptureDBusToCalloop::<C, B, S, M>::EisInputEvent {
                session_id,
                request: EisRequest::PointerMotion { dx, dy },
            },
        ),
        at.x.is_finite(),
        at.y.is_finite(),
        dx.is_finite(),
        dy.is_finite(),
        other.is_finite(),
    ensures
        effects.len() == 3,
        effects[0] is MovePointer,
        !effects[0]->enter_surface,
        effects[1] is PointerFrame,
        effects[2] is QueueRedraw,
        ({
            let to = effects[0]->location;
            let (x, y) = (at.x.value() + dx.value(), at.y.value() + dy.value());
            &&& to.x.is_finite() ==> size_of_int(to.x.value() - x) <= size_of_int(
                other.value() - x,
            )
            &&& to.y.is_finite() ==> size_of_int(to.y.value() - y) <= size_of_int(
                other.value() - y,
            )
        }),
{
    let to = effects[0]->location;
    if to.x.is_finite() {
        law_sum_is_nearest(at.x, dx, other);
    }
    if to.y.is_finite() {
        law_sum_is_nearest(at.y, dy, other);
    }
}

/// A relative motion leads to the side of its sign: a positive `dx` never to the
/// left, a negative one never to the right, and likewise `dy` down and up.
pub proof fn law_relative_motion_keeps_direction<C, B, S, M>(
    session_id: usize,
    at: Position,
    dx: Double,
    dy: Double,
    effects: Seq<Effect<C, M>>,
)
    requires
        effects_match(
            effects,
            Some(at),
            InputCaptureDBusToCalloop::<C, B, S, M>::EisInputEvent {
                session_id,
                request: EisRequest::PointerMotion { dx, dy },
            },
        ),
        at.x.is_finite(),
        at.y.is_finite(),
        dx.is_finite(),
        dy.is_finite(),
    ensures
        effects.len() == 3,
        effects[0] is MovePointer,
        ({
            let to = effects[0]->location;
            &&& dx.value() >= 0 ==> to.x.value() >= at.x.value()
            &&& dx.value() <= 0 ==> to.x.value() <= at.x.value()
            &&& dy.value() >= 0 ==> to.y.value() >= at.y.value()
            &&& dy.value() <= 0 ==> to.y.value() <= at.y.value()
        }),
{
    law_sum_keeps_direction(at.x, dx);
    law_sum_keeps_direction(at.y, dy);
}

/// In whole pixels of moderate size a relative motion is exact: from (a, b) by
/// (c, d) the pointer gets to (a + c, b + d).
pub proof fn law_whole_motion_is_exact<C, B, S, M>(
    session_id: usize,
    a: int,
    b: int,
    c: int,
    d: int,
    effects: Seq<Effect<C, M>>,
)
    requires
        -0x10_0000_0000_0000 < a < 0x10_0000_0000_0000,
        -0x10_0000_0000_0000 < b < 0x10_0000_0000_0000,
        -0x10_0000_0000_0000 < c < 0x10_0000_0000_0000,
        -0x10_0000_0000_0000 < d < 0x10_0000_0000_0000,
        effects_match(
            effects,
            Some(Position { x: Double::of_int(a), y: Double::of_int(b) }),
            InputCaptureDBusToCalloop::<C, B, S, M>::EisInputEvent {
                session_id,
                request: EisRequest::PointerMotion {
                    dx: Double::of_int(c),
                    dy: Double::of_int(d),
                },
            },
        ),
    ensures
        effects.len() == 3,
        effects[0] is MovePointer,
        effects[0]->location.x == Double::of_int(a + c),
        effects[0]->location.y == Double::of_int(b + d),
{
    law_whole_sums_are_exact(a, c);
    law_whole_sums_are_exact(b, d);
}

/// In whole pixels of moderate size, a motion and then the opposite one come back
/// to where they began.
pub proof fn law_motion_and_back<C, B, S, M>(
    session_id: usize,
    a: int,
    b: int,
    c: int,
    d: int,
    there: Seq<Effect<C, M>>,
    back: Seq<Effect<C, M>>,
)
    requires
        -0x8_0000_0000_0000 < a < 0x8_0000_0000_0000,
        -0x8_0000_0000_0000 < b < 0x8_0000_0000_0000,
        -0x8_0000_0000_0000 < c < 0x8_0000_0000_0000,
        -0x8_0000_0000_0000 < d < 0x8_0000_0000_0000,
        effects_match(
            there,
            Some(Position { x: Double::of_int(a), y: Double::of_int(b) }),
            InputCaptureDBusToCalloop::<C, B, S, M>::EisInputEvent {
                session_id,
                request: EisRequest::PointerMotion {
                    dx: Double::of_int(c),
                    dy: Double::of_int(d),
                },
            },
        ),
        effects_match(
            back,
            Some(there[0]->location),
            InputCaptureDBusToCalloop::<C, B, S, M>::EisInputEvent {
                session_id,
                request: EisRequest::PointerMotion {
                    dx: Double::of_int(-c),
                    dy: Double::of_int(-d),
                },
            },
        ),
    ensures
        back[0] is MovePointer,
        back[0]->location == (Position { x: Double::of_int(a), y: Double::of_int(b) }),
{
    law_whole_motion_is_exact::<C, B, S, M>(session_id, a, b, c, d, there);
    law_whole_motion_is_exact::<C, B, S, M>(session_id, a + c, b + d, -c, -d, back);
}

/// An absolute motion moves the pointer to the very position that was asked for,
/// wherever the pointer was, and enters what lies there; a frame and a redraw
/// follow.
pub proof fn law_absolute_motion<C, B, S, M>(
    session_id: usize,
    at: Position,
    dx_absolute: Double,
    dy_absolute: Double,
    effects: Seq<Effect<C, M>>,
)
    requires
        effects_match(
            effects,
            Some(at),
            InputCaptureDBusToCalloop::<C, B, S, M>::EisInputEvent {
                session_id,
                request: EisRequest::PointerMotionAbsolute { dx_absolute, dy_absolute },
            },
        ),
    ensures
        effects.len() == 3,
        effects[0] is MovePointer,
        effects[0]->location.x.bits == dx_absolute.bits,
        effects[0]->location.y.bits == dy_absolute.bits,
        effects[0]->enter_surface,
        effects[1] is PointerFrame,
        effects[2] is QueueRedraw,
{
}

/// A button is pressed where the client presses it and released where the client
/// releases it, under the client's number; a frame follows.
pub proof fn law_buttons_are_passed_on<C, B, S, M>(
    session_id: usize,
    at: Position,
    button: u32,
    state: EisButtonState,
    effects: Seq<Effect<C, M>>,
)
    requires
        effects_match(
            effects,
            Some(at),
            InputCaptureDBusToCalloop::<C, B, S, M>::EisInputEvent {
                session_id,
                request: EisRequest::Button { button, state },
            },
        ),
    ensures
        effects.len() == 2,
        effects[0] is PointerButton,
        effects[0]->button == button,
        effects[0]->state is Pressed <==> state is Press,
        effects[0]->state is Released <==> state is Released,
        effects[1] is PointerFrame,
{
}

/// The seat is told that a button is pressed exactly where the client presses it.
pub proof fn law_button_states_agree(state: EisButtonState)
    ensures
        state is Press ==> state.for_seat() == ButtonState::Pressed,
        state is Released ==> state.for_seat() == ButtonState::Released,
{
}

/// Without a pointer client input has no effect, and other input than motions and
/// buttons has none in any case.
pub proof fn law_other_input_has_no_effect<C, B, S, M>(
    session_id: usize,
    request: EisRequest,
    pointer: Option<Position>,
    effects: Seq<Effect<C, M>>,
)
    requires
        effects_match(
            effects,
            pointer,
            InputCaptureDBusToCalloop::<C, B, S, M>::EisInputEvent { session_id, request },
        ),
        pointer is None || !(request is PointerMotion) && !(request is PointerMotionAbsolute) && !(
        request is Button),
    ensures
        effects.len() == 0,
{
}

/// A new EIS context is served in one thread, named after the session, with the
/// context, the screen size and the sender that came with it; messages other than
/// that and client input have no effect.
pub proof fn law_messages_and_effects<C, B, S, M>(
    msg: InputCaptureDBusToCalloop<C, B, S, M>,
    pointer: Option<Position>,
    effects: Seq<Effect<C, M>>,
)
    requires
        effects_match(effects, pointer, msg),
        !(msg is EisInputEvent),
    ensures
        !(msg is NewEisContext) ==> effects.len() == 0,
        msg is NewEisContext ==> {
            &&& effects.len() == 1
            &&& effects[0] is ServeEis
            &&& effects[0]->thread_name@ == "eis-session-"@ + decimal(
                msg->NewEisContext_session_id as nat,
            )
            &&& effects[0]->session_id == msg->NewEisContext_session_id
            &&& effects[0]->ctx == msg->ctx
            &&& effects[0]->screen_width == msg->screen_width
            &&& effects[0]->screen_height == msg->screen_height
            &&& effects[0]->event_sender == msg->event_sender
        },
{
}

/// In a well formed state each session goes by its own identifier, and has a
/// barrier exactly while it captures.
pub proof fn law_well_formed_states<B, S, E>(state: InputCaptureState<B, S, E>, id: usize)
    requires
        state.wf(),
        state.sessions@.contains_key(id),
    ensures
        state.sessions@[id].session_id == id,
        state.sessions@[id].activated <==> state.sessions@[id].current_barrier_id is Some,
{
}

} // verus!
