//! Laws that join the D-Bus side and the compositor.

use std::collections::HashMap;

use vstd::prelude::*;

use crate::barrier::Barrier;
use crate::eis::EisRequest;
use crate::eis_connection::Action;
use crate::eis_connection::EisConnection;
use crate::eis_connection::Step;
use crate::error::CaptureError;
use crate::input_capture::effects_match;
use crate::input_capture::Effect;
use crate::input_capture::InputCaptureState;
use crate::mutter_input_capture::InputCaptureDBusToCalloop;
use crate::mutter_input_capture::Session;
use crate::mutter_input_capture::SessionRequest;
use crate::mutter_input_capture::ALL_DEVICE_TYPES;
use crate::segments::Position;

verus! {

/// A barrier that a client added is watched: when the pointer crosses it while
/// the session is armed and input gets through, a crossing is reported.
pub proof fn law_added_barrier_is_watched<B, S, E>(
    before: Session,
    barrier: Barrier,
    after: Session,
    state: InputCaptureState<B, S, E>,
    tables: Map<usize, HashMap<u32, Barrier>>,
    old: Position,
    new: Position,
    report: Option<(usize, u32, Position)>,
)
    requires
        before.answers(
            SessionRequest::AddBarrier {
                id: barrier.id,
                x1: barrier.x1,
                y1: barrier.y1,
                x2: barrier.x2,
                y2: barrier.y2,
            },
            None,
            after,
        ),
        state.sessions@.contains_key(after.id),
        state.sessions@[after.id].armed(),
        !state.input_suppressed,
        tables.contains_key(after.id),
        tables[after.id]@ == after.barriers@,
        barrier.crossed(old, new),
        state.reports(tables, old, new, report),
    ensures
        report is Some,
{
    assert(state.crossing(tables, old, new, after.id, barrier.id));
}

/// A session whose barriers were cleared is named by no report.
pub proof fn law_cleared_session_is_not_reported<B, S, E>(
    before: Session,
    after: Session,
    state: InputCaptureState<B, S, E>,
    tables: Map<usize, HashMap<u32, Barrier>>,
    old: Position,
    new: Position,
    report: Option<(usize, u32, Position)>,
)
    requires
        before.answers(SessionRequest::ClearBarriers, None::<CaptureError>, after),
        tables.contains_key(after.id) ==> tables[after.id]@ == after.barriers@,
        state.reports(tables, old, new, report),
    ensures
        report matches Some((session_id, _, _)) ==> session_id != after.id,
{
    if let Some((session_id, barrier_id, _)) = report {
        if session_id == after.id {
            assert(tables[session_id]@.dom().contains(barrier_id));
        }
    }
}

/// When a connection ends, the message that it sends removes its session from
/// the compositor and lets local input through.
pub proof fn law_ended_connection_frees_input<C, B, S, M, E>(
    connection: EisConnection,
    action: Action<C, B, S, M>,
    before: InputCaptureState<B, S, E>,
    after: InputCaptureState<B, S, E>,
)
    requires
        connection.step is Unregister,
        connection.asks_for(action),
        before.leads_to(action->Send_msg, after),
    ensures
        action is Send,
        after.sessions@ == before.sessions@.remove(connection.session_id),
        !after.input_suppressed,
{
}

/// A client that starts to emulate input holds local input back, through the
/// message that its connection sends.
pub proof fn law_emulating_client_holds_input_back<C, B, S, M, E>(
    connection: EisConnection,
    action: Action<C, B, S, M>,
    before: InputCaptureState<B, S, E>,
    after: InputCaptureState<B, S, E>,
)
    requires
        connection.step == (Step::Forward {
            request: EisRequest::DeviceStartEmulating,
        }),
        connection.asks_for(action),
        before.leads_to(action->Send_msg, after),
    ensures
        action is Send,
        action->Send_msg == (InputCaptureDBusToCalloop::<C, B, S, M>::EisInputEvent {
            session_id: connection.session_id,
            request: EisRequest::DeviceStartEmulating,
        }),
        after.sessions@ == before.sessions@,
        after.input_suppressed,
{
}

/// The EIS connection of a session is served with the context that the session
/// handed over, and reports to the sender that came with it.
pub proof fn law_eis_context_is_handed_on<C, B, S, M>(
    session: Session,
    ctx: C,
    screen_width: u32,
    screen_height: u32,
    event_sender: M,
    pointer: Option<Position>,
    effects: Seq<Effect<C, M>>,
)
    requires
        effects_match(
            effects,
            pointer,
            InputCaptureDBusToCalloop::<C, B, S, M>::NewEisContext {
                session_id: session.id,
                ctx,
                exposed_device_types: ALL_DEVICE_TYPES,
                screen_width,
                screen_height,
                event_sender,
            },
        ),
    ensures
        effects.len() == 1,
        effects[0] matches Effect::ServeEis { session_id, ctx: c, event_sender: sender, .. }
            && session_id == session.id && c == ctx && sender == event_sender,
{
}

} // verus!
