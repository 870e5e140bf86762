//! What an EIS connection does for its client, step by step and event by event.

use vstd::prelude::*;

use crate::eis::Capability;
use crate::eis::EisRequest;
use crate::eis_connection::device_capabilities;
use crate::eis_connection::law_devices_follow_the_binding;
use crate::eis_connection::next_step;
use crate::eis_connection::run;
use crate::eis_connection::Action;
use crate::eis_connection::DeviceSpec;
use crate::eis_connection::EisConnection;
use crate::eis_connection::EisError;
use crate::eis_connection::Event;
use crate::eis_connection::Outcome;
use crate::eis_connection::Step;

verus! {

/// The devices of a binding: an absolute pointer covers the whole screen of the
/// connection, from its origin and unscaled, and no other device has a region.
pub proof fn law_absolute_pointer_covers_the_screen<C, B, S, M>(
    connection: EisConnection,
    capabilities: u64,
    action: Action<C, B, S, M>,
    i: int,
)
    requires
        connection.step is Next,
        (EisConnection {
            step: next_step(
                connection.step,
                Event::Requested { request: EisRequest::Bind { capabilities } },
            ),
            ..connection
        }).asks_for(action),
        0 <= i < action->devices@.len(),
    ensures
        action is CreateDevices,
        action->devices@[i].capability is PointerAbsolute ==> {
            let region = action->devices@[i].region;
            &&& region is Some
            &&& region->0.offset_x == 0
            &&& region->0.offset_y == 0
            &&& region->0.width == connection.screen_width
            &&& region->0.height == connection.screen_height
            &&& region->0.scale == 1
        },
        !(action->devices@[i].capability is PointerAbsolute) ==> action->devices@[i].region is None,
        action->devices@[i].capability is Pointer ==> action->devices@[i].name@ == "pointer"@,
        action->devices@[i].capability is PointerAbsolute ==> action->devices@[i].name@
            == "pointer-absolute"@,
        action->devices@[i].capability is Keyboard ==> action->devices@[i].name@ == "keyboard"@,
{
    let devices = action->devices@;
    assert(devices[i].serves(
        device_capabilities(capabilities)[i],
        connection.screen_width,
        connection.screen_height,
    ));
    law_devices_follow_the_binding(capabilities, devices[i].capability);
    assert(device_capabilities(capabilities).contains(devices[i].capability));
}

/// Whether one of the devices has the capability.
pub open spec fn some_device_has(devices: Seq<DeviceSpec>, capability: Capability) -> bool {
    exists|i: int| 0 <= i < devices.len() && (#[trigger] devices[i]).capability == capability
}

/// A client that binds gets a pointer, an absolute pointer and a keyboard exactly
/// as it asks for them, by their bits, in this order, and nothing else.
pub proof fn law_devices_are_those_asked_for<C, B, S, M>(
    connection: EisConnection,
    capabilities: u64,
    action: Action<C, B, S, M>,
)
    requires
        connection.step is Next,
        (EisConnection {
            step: next_step(
                connection.step,
                Event::Requested { request: EisRequest::Bind { capabilities } },
            ),
            ..connection
        }).asks_for(action),
    ensures
        action is CreateDevices,
        some_device_has(action->devices@, Capability::Pointer) <==> capabilities & 1 == 1,
        some_device_has(action->devices@, Capability::PointerAbsolute) <==> capabilities & 2 == 2,
        some_device_has(action->devices@, Capability::Keyboard) <==> capabilities & 4 == 4,
        !some_device_has(action->devices@, Capability::Touch),
        !some_device_has(action->devices@, Capability::Scroll),
        !some_device_has(action->devices@, Capability::Button),
        forall|i: int, j: int|
            0 <= i < j < action->devices@.len() ==> (#[trigger] action->devices@[i]).capability != (
            #[trigger] action->devices@[j]).capability && !(
            action->devices@[j].capability is Pointer) && !(
            action->devices@[i].capability is Keyboard),
{
    let devices = action->devices@;
    let all = device_capabilities(capabilities);
    lemma_device_is_listed(devices, all, Capability::Pointer, connection);
    lemma_device_is_listed(devices, all, Capability::PointerAbsolute, connection);
    lemma_device_is_listed(devices, all, Capability::Keyboard, connection);
    lemma_device_is_listed(devices, all, Capability::Touch, connection);
    lemma_device_is_listed(devices, all, Capability::Scroll, connection);
    lemma_device_is_listed(devices, all, Capability::Button, connection);
    law_devices_follow_the_binding(capabilities, Capability::Pointer);
    law_devices_follow_the_binding(capabilities, Capability::PointerAbsolute);
    law_devices_follow_the_binding(capabilities, Capability::Keyboard);
    law_devices_follow_the_binding(capabilities, Capability::Touch);
    law_devices_follow_the_binding(capabilities, Capability::Scroll);
    law_devices_follow_the_binding(capabilities, Capability::Button);
    assert forall|i: int, j: int| 0 <= i < j < devices.len() implies (
    #[trigger] devices[i]).capability != (#[trigger] devices[j]).capability && !(
    devices[j].capability is Pointer) && !(devices[i].capability is Keyboard) by {
        assert(devices[i].serves(all[i], connection.screen_width, connection.screen_height));
        assert(devices[j].serves(all[j], connection.screen_width, connection.screen_height));
    }
}

/// A device with a capability is there exactly if the capability is listed.
proof fn lemma_device_is_listed(
    devices: Seq<DeviceSpec>,
    all: Seq<Capability>,
    capability: Capability,
    connection: EisConnection,
)
    requires
        devices.len() == all.len(),
        forall|i: int|
            0 <= i < devices.len() ==> (#[trigger] devices[i]).serves(
                all[i],
                connection.screen_width,
                connection.screen_height,
            ),
    ensures
        some_device_has(devices, capability) <==> all.contains(capability),
{
    if all.contains(capability) {
        let i = choose|i: int| 0 <= i < all.len() && all[i] == capability;
        assert(devices[i].capability == capability);
    }
    if some_device_has(devices, capability) {
        let i = choose|i: int|
            0 <= i < devices.len() && (#[trigger] devices[i]).capability == capability;
        assert(all[i] == capability);
    }
}

/// A seat is advertised under the name "default" with all six capabilities, each
/// by its bit, and no other.
pub proof fn law_seat_has_all_capabilities<C, B, S, M>(
    connection: EisConnection,
    action: Action<C, B, S, M>,
)
    requires
        connection.step is AdvertiseSeat,
        connection.asks_for(action),
    ensures
        action is AdvertiseSeat,
        action->name@ == "default"@,
        action->capabilities == 1u64 | 2 | 4 | 8 | 16 | 32,
{
    assert(1u64 | 2 | 4 | 8 | 16 | 32 == 0x3f) by (bit_vector);
}

/// What a connection asks for where it reads, takes requests, sends, rests or has
/// ended.
pub proof fn law_steps_ask_for_their_work<C, B, S, M>(
    connection: EisConnection,
    action: Action<C, B, S, M>,
)
    requires
        connection.asks_for(action),
    ensures
        action is Read <==> connection.step is HandshakeRead || connection.step is Read,
        action is TakePending <==> connection.step is HandshakePending || connection.step is Pending,
        action is Shake <==> connection.step is HandshakeRequest,
        action is Convert <==> connection.step is Convert,
        action is TakeRequest <==> connection.step is Next,
        action is CreateDevices <==> connection.step is CreateDevices,
        action is ResumeDevices <==> connection.step is ResumeDevices,
        action is AdvertiseSeat <==> connection.step is AdvertiseSeat,
        action is Send <==> connection.step is Forward || connection.step is Unregister,
        action is Rest <==> connection.step is HandshakeRest || connection.step is Rest,
        action is Rest ==> action->millis == 10,
        action is Stop <==> connection.step is Closed,
        action is Flush <==> connection.step is HandshakeFlush || connection.step is FlushSeat
            || connection.step is FlushDevices || connection.step is FlushResumed
            || connection.step is FlushAnswers,
{
}

/// What a connection sends: the request that it was given, for its session, or
/// word that its session is over.
pub proof fn law_messages_are_of_the_session<C, B, S, M>(
    connection: EisConnection,
    action: Action<C, B, S, M>,
)
    requires
        connection.asks_for(action),
    ensures
        connection.step is Forward ==> {
            &&& action->msg is EisInputEvent
            &&& action->msg->EisInputEvent_session_id == connection.session_id
            &&& action->msg->EisInputEvent_request == connection.step->request
        },
        connection.step is Unregister ==> {
            &&& action->msg is UnregisterSession
            &&& action->msg->UnregisterSession_session_id == connection.session_id
        },
{
}

/// During the handshake, what was read is taken request by request; each is
/// answered and the next one taken; when none is left the connection rests and
/// reads again.
pub proof fn law_handshake_goes_on()
    ensures
        run(Step::HandshakeRead, seq![Event::Read]) == Step::HandshakePending,
        run(
            Step::HandshakePending,
            seq![Event::Pending, Event::HandshakeUnfinished, Event::Flushed],
        ) == Step::HandshakePending,
        run(Step::HandshakePending, seq![Event::NothingPending, Event::Rested])
            == Step::HandshakeRead,
{
    lemma_run_1(Step::HandshakeRead, Event::Read);
    lemma_run_3(
        Step::HandshakePending,
        Event::Pending,
        Event::HandshakeUnfinished,
        Event::Flushed,
    );
    lemma_run_2(Step::HandshakePending, Event::NothingPending, Event::Rested);
}

/// A complete handshake is answered, then the seat is advertised and the client
/// served.
pub proof fn law_complete_handshake_leads_to_service()
    ensures
        run(
            Step::HandshakePending,
            seq![Event::Pending, Event::HandshakeComplete, Event::Flushed],
        ) == Step::AdvertiseSeat,
        run(Step::AdvertiseSeat, seq![Event::SeatAdvertised, Event::Flushed]) == Step::Read,
{
    lemma_run_3(
        Step::HandshakePending,
        Event::Pending,
        Event::HandshakeComplete,
        Event::Flushed,
    );
    lemma_run_2(Step::AdvertiseSeat, Event::SeatAdvertised, Event::Flushed);
}

/// A client is served in rounds: what was read is taken request by request, each
/// is taken in and what it asks for looked at until nothing is left; then the
/// answers are sent, and after a rest the next round begins.
pub proof fn law_service_goes_in_rounds()
    ensures
        run(Step::Read, seq![Event::Read]) == Step::Pending,
        run(Step::Pending, seq![Event::Pending, Event::Converted]) == Step::Next,
        run(Step::Next, seq![Event::NothingRequested]) == Step::Pending,
        run(Step::Pending, seq![Event::NothingPending, Event::Flushed, Event::Rested])
            == Step::Read,
{
    lemma_run_1(Step::Read, Event::Read);
    lemma_run_2(Step::Pending, Event::Pending, Event::Converted);
    lemma_run_1(Step::Next, Event::NothingRequested);
    lemma_run_3(Step::Pending, Event::NothingPending, Event::Flushed, Event::Rested);
}

/// What a client asks for decides what is done: to be let go ends the connection
/// well, a binding creates the devices for the very set that was bound, and
/// anything else is passed on as it is.
pub proof fn law_requests_decide(request: EisRequest)
    ensures
        ({
            let next = next_step(Step::Next, Event::Requested { request });
            &&& request is Disconnect ==> next == (Step::Unregister { outcome: Outcome::Finished })
            &&& request is Bind ==> next == (Step::CreateDevices {
                capabilities: request->capabilities,
            })
            &&& !(request is Disconnect) && !(request is Bind) ==> next == (Step::Forward {
                request,
            })
        }),
        next_step(Step::Forward { request }, Event::Forwarded) == Step::Next,
{
}

/// Devices are announced, resumed and announced as resumed, in this order.
pub proof fn law_devices_are_announced_and_resumed(capabilities: u64)
    ensures
        next_step(Step::CreateDevices { capabilities }, Event::DevicesCreated)
            == Step::FlushDevices,
        next_step(Step::FlushDevices, Event::Flushed) == Step::ResumeDevices,
        next_step(Step::ResumeDevices, Event::DevicesResumed) == Step::FlushResumed,
        next_step(Step::FlushResumed, Event::Flushed) == Step::Next,
{
}

/// Wherever a connection sends or reads, a failure ends it with that very
/// failure.
pub proof fn law_socket_failures_end_the_connection<C, B, S, M>(
    connection: EisConnection,
    action: Action<C, B, S, M>,
    cause: String,
)
    requires
        connection.asks_for(action),
    ensures
        action is Flush ==> next_step(connection.step, Event::FlushFailed { cause }) == (
        Step::Unregister { outcome: Outcome::Broken { error: EisError::Io { cause } } }),
        action is Read ==> next_step(connection.step, Event::ReadFailed { cause }) == (
        Step::Unregister { outcome: Outcome::Broken { error: EisError::Io { cause } } }),
{
}

/// A handshake that fails ends the connection with that failure, and the end of a
/// connection keeps its outcome.
pub proof fn law_failed_handshake_and_end(cause: String, outcome: Outcome)
    ensures
        next_step(Step::HandshakeRequest, Event::HandshakeFailed { cause }) == (Step::Unregister {
            outcome: Outcome::Broken { error: EisError::Handshake { cause } },
        }),
        next_step(Step::Unregister { outcome }, Event::Unregistered) == (Step::Closed { outcome }),
{
}

/// Whether `event` can come of doing `action`.
pub open spec fn can_come_of<C, B, S, M>(action: Action<C, B, S, M>, event: Event) -> bool {
    match event {
        Event::Read | Event::ReadEof { .. } | Event::ReadFailed { .. } => action is Read,
        Event::Pending
        | Event::PendingUnparsable { .. }
        | Event::PendingInvalidObject
        | Event::NothingPending => action is TakePending,
        Event::HandshakeComplete
        | Event::HandshakeUnfinished
        | Event::HandshakeFailed { .. } => action is Shake,
        Event::Flushed | Event::FlushFailed { .. } => action is Flush,
        Event::Rested => action is Rest,
        Event::SeatAdvertised => action is AdvertiseSeat,
        Event::Converted | Event::ConversionFailed => action is Convert,
        Event::Requested { .. } | Event::NothingRequested => action is TakeRequest,
        Event::DevicesCreated => action is CreateDevices,
        Event::DevicesResumed => action is ResumeDevices,
        Event::Forwarded | Event::Unregistered => action is Send,
    }
}

/// An event that cannot come of what a connection asks for changes nothing.
pub proof fn law_strange_events_change_nothing<C, B, S, M>(
    connection: EisConnection,
    action: Action<C, B, S, M>,
    event: Event,
)
    requires
        connection.asks_for(action),
        !can_come_of(action, event),
    ensures
        next_step(connection.step, event) == connection.step,
{
}

/// Errors are told in full: a socket error in its own words, the others after a
/// word on what failed.
pub proof fn law_error_texts(cause: String)
    ensures
        (EisError::Io { cause }).text() == cause@,
        (EisError::Parse { cause }).text() == "Parse error: "@ + cause@,
        (EisError::Handshake { cause }).text() == "Handshake error: "@ + cause@,
{
}

/// A run of one event.
proof fn lemma_run_1(step: Step, a: Event)
    ensures
        run(step, seq![a]) == next_step(step, a),
{
    assert(seq![a].drop_last() =~= Seq::<Event>::empty());
    assert(run(step, Seq::<Event>::empty()) == step);
}

/// A run of two events.
proof fn lemma_run_2(step: Step, a: Event, b: Event)
    ensures
        run(step, seq![a, b]) == next_step(next_step(step, a), b),
{
    assert(seq![a, b].drop_last() =~= seq![a]);
    lemma_run_1(step, a);
}

/// A run of three events.
proof fn lemma_run_3(step: Step, a: Event, b: Event, c: Event)
    ensures
        run(step, seq![a, b, c]) == next_step(next_step(next_step(step, a), b), c),
{
    assert(seq![a, b, c].drop_last() =~= seq![a, b]);
    lemma_run_2(step, a, b);
}

} // verus!
