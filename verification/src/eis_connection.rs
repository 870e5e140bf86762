//! The connection of an EIS client, from the handshake to the end.
//!
//! The socket, the protocol objects and the clock belong to whoever drives the
//! connection. The connection says what to do next and is told how that went.

use vstd::prelude::*;

use crate::eis::has_capability;
use crate::eis::seat_capabilities;
use crate::eis::Capability;
use crate::eis::EisRequest;
use crate::mutter_input_capture::InputCaptureDBusToCalloop;

verus! {

/// How long the connection rests when there is nothing left to read.
pub const REST_MILLIS: u64 = 10;

/// Why a connection broke.
#[derive(Debug)]
pub enum EisError {
    /// Reading from or writing to the socket failed.
    Io { cause: String },
    /// The client sent something unintelligible during the handshake.
    Parse { cause: String },
    /// The handshake failed.
    Handshake { cause: String },
}

impl EisError {
    /// What went wrong, in words.
    pub open spec fn text(&self) -> Seq<char> {
        match self {
            EisError::Io { cause } => cause@,
            EisError::Parse { cause } => "Parse error: "@ + cause@,
            EisError::Handshake { cause } => "Handshake error: "@ + cause@,
        }
    }

    /// What went wrong, in words.
    pub fn message(&self) -> (message: String)
        ensures
            message@ == self.text(),
    {
        match self {
            EisError::Io { cause } => cause.clone(),
            EisError::Parse { cause } => {
                let mut message = "Parse error: ".to_owned();
                message.append(cause.as_str());
                message
            },
            EisError::Handshake { cause } => {
                let mut message = "Handshake error: ".to_owned();
                message.append(cause.as_str());
                message
            },
        }
    }
}

/// How a connection ended.
#[derive(Debug)]
pub enum Outcome {
    /// The client left.
    Finished,
    /// The connection broke.
    Broken { error: EisError },
}

/// How it went to do what the connection asked for.
#[derive(Debug)]
pub enum Event {
    /// The socket was read.
    Read,
    /// There is nobody at the other end of the socket.
    ReadEof { cause: String },
    /// The socket could not be read.
    ReadFailed { cause: String },
    /// There is a request.
    Pending,
    /// There is a request that cannot be understood.
    PendingUnparsable { cause: String },
    /// There is a request for an object that does not exist.
    PendingInvalidObject,
    /// No request is left.
    NothingPending,
    /// The request completed the handshake.
    HandshakeComplete,
    /// The handshake wants more requests.
    HandshakeUnfinished,
    /// The request broke the handshake.
    HandshakeFailed { cause: String },
    /// What was written has been sent.
    Flushed,
    /// What was written could not be sent.
    FlushFailed { cause: String },
    /// The rest is over.
    Rested,
    /// The client was told of the seat.
    SeatAdvertised,
    /// The request was taken in.
    Converted,
    /// The request made no sense.
    ConversionFailed,
    /// The client wants something.
    Requested { request: EisRequest },
    /// The client wants nothing more for now.
    NothingRequested,
    /// The devices were created.
    DevicesCreated,
    /// The devices were resumed.
    DevicesResumed,
    /// The request was passed on to the compositor.
    Forwarded,
    /// The compositor was told that the session is over.
    Unregistered,
}

/// Where a connection stands.
#[derive(Debug)]
pub enum Step {
    /// Handshake: about to read.
    HandshakeRead,
    /// Handshake: about to take the next request.
    HandshakePending,
    /// Handshake: about to deal with a request.
    HandshakeRequest,
    /// Handshake: about to send an answer.
    HandshakeFlush { complete: bool },
    /// Handshake: about to rest.
    HandshakeRest,
    /// About to advertise the seat.
    AdvertiseSeat,
    /// About to send the advertisement.
    FlushSeat,
    /// About to read.
    Read,
    /// About to take the next request.
    Pending,
    /// About to take in a request.
    Convert,
    /// About to see what the client wants.
    Next,
    /// About to create the devices for `capabilities`.
    CreateDevices { capabilities: u64 },
    /// About to tell of the devices.
    FlushDevices,
    /// About to resume the devices.
    ResumeDevices,
    /// About to tell that the devices were resumed.
    FlushResumed,
    /// About to pass a request on to the compositor.
    Forward { request: EisRequest },
    /// About to send the answers.
    FlushAnswers,
    /// About to rest.
    Rest,
    /// About to tell the compositor that the session is over.
    Unregister { outcome: Outcome },
    /// The end.
    Closed { outcome: Outcome },
}

/// A region that an absolute pointer covers, in logical pixels.
#[derive(Clone, Copy, Debug, PartialEq, Eq, Structural)]
pub struct Region {
    pub offset_x: u32,
    pub offset_y: u32,
    pub width: u32,
    pub height: u32,
    pub scale: u32,
}

/// A virtual device to create on the seat.
#[derive(Debug)]
pub struct DeviceSpec {
    pub name: String,
    pub capability: Capability,
    pub region: Option<Region>,
}

/// What a connection asks for.
pub enum Action<C, B, S, M> {
    /// Read from the socket.
    Read,
    /// Take the next request that was read.
    TakePending,
    /// Hand the request to the handshake.
    Shake,
    /// Send what was written.
    Flush,
    /// Wait for so many milliseconds.
    Rest { millis: u64 },
    /// Tell the client of a seat.
    AdvertiseSeat { name: String, capabilities: u64 },
    /// Take the request in.
    Convert,
    /// See what the client wants.
    TakeRequest,
    /// Create devices, in order.
    CreateDevices { devices: Vec<DeviceSpec> },
    /// Resume the devices that were created last.
    ResumeDevices,
    /// Send a message to the compositor.
    Send { msg: InputCaptureDBusToCalloop<C, B, S, M> },
    /// Nothing: the connection has ended.
    Stop,
}

/// The name of the device with the capability.
pub open spec fn device_name(capability: Capability) -> Seq<char> {
    match capability {
        Capability::Pointer => "pointer"@,
        Capability::PointerAbsolute => "pointer-absolute"@,
        _ => "keyboard"@,
    }
}

/// The capabilities for which a client that binds to the set `capabilities`
/// gets a device, in the order in which the devices are created.
pub open spec fn device_capabilities(capabilities: u64) -> Seq<Capability> {
    let pointer = if Capability::Pointer.is_in(capabilities) {
        seq![Capability::Pointer]
    } else {
        seq![]
    };
    let absolute = if Capability::PointerAbsolute.is_in(capabilities) {
        seq![Capability::PointerAbsolute]
    } else {
        seq![]
    };
    let keyboard = if Capability::Keyboard.is_in(capabilities) {
        seq![Capability::Keyboard]
    } else {
        seq![]
    };
    pointer + absolute + keyboard
}

impl DeviceSpec {
    /// Whether this is the device with the capability, for a screen of the
    /// given size. Only an absolute pointer has a region: the whole screen.
    pub open spec fn serves(self, capability: Capability, width: u32, height: u32) -> bool {
        &&& self.capability == capability
        &&& self.name@ == device_name(capability)
        &&& self.region == if capability == Capability::PointerAbsolute {
            Some(Region { offset_x: 0, offset_y: 0, width, height, scale: 1 })
        } else {
            None
        }
    }
}

/// Whether `devices` are the devices for a client that binds to the set
/// `capabilities`, for a screen of the given size.
pub open spec fn devices_serve(
    devices: Seq<DeviceSpec>,
    capabilities: u64,
    width: u32,
    height: u32,
) -> bool {
    &&& devices.len() == device_capabilities(capabilities).len()
    &&& forall|i: int|
        0 <= i < devices.len() ==> (#[trigger] devices[i]).serves(
            device_capabilities(capabilities)[i],
            width,
            height,
        )
}

/// The devices for a client that binds to the set `capabilities`, for a screen
/// of the given size.
pub fn devices_for(capabilities: u64, width: u32, height: u32) -> (devices: Vec<DeviceSpec>)
    ensures
        devices_serve(devices@, capabilities, width, height),
{
    let mut devices: Vec<DeviceSpec> = Vec::new();
    if has_capability(capabilities, Capability::Pointer) {
        devices.push(
            DeviceSpec {
                name: "pointer".to_owned(),
                capability: Capability::Pointer,
                region: None,
            },
        );
    }
    if has_capability(capabilities, Capability::PointerAbsolute) {
        let region = Region { offset_x: 0, offset_y: 0, width, height, scale: 1 };
        devices.push(
            DeviceSpec {
                name: "pointer-absolute".to_owned(),
                capability: Capability::PointerAbsolute,
                region: Some(region),
            },
        );
    }
    if has_capability(capabilities, Capability::Keyboard) {
        devices.push(
            DeviceSpec {
                name: "keyboard".to_owned(),
                capability: Capability::Keyboard,
                region: None,
            },
        );
    }
    devices
}

/// A connection that broke on the socket.
pub open spec fn broken_io(cause: String) -> Step {
    Step::Unregister { outcome: Outcome::Broken { error: EisError::Io { cause } } }
}

/// Where a connection stands that did what `step` asks for, and saw `event`.
/// An event that does not answer what was asked for changes nothing.
pub open spec fn next_step(step: Step, event: Event) -> Step {
    match (step, event) {
        (Step::HandshakeRead, Event::Read) => Step::HandshakePending,
        (Step::HandshakeRead, Event::ReadEof { cause }) => broken_io(cause),
        (Step::HandshakeRead, Event::ReadFailed { cause }) => broken_io(cause),
        (Step::HandshakePending, Event::Pending) => Step::HandshakeRequest,
        (Step::HandshakePending, Event::PendingUnparsable { cause }) => Step::Unregister {
            outcome: Outcome::Broken { error: EisError::Parse { cause } },
        },
        (Step::HandshakePending, Event::PendingInvalidObject) => Step::HandshakePending,
        (Step::HandshakePending, Event::NothingPending) => Step::HandshakeRest,
        (Step::HandshakeRequest, Event::HandshakeComplete) => Step::HandshakeFlush {
            complete: true,
        },
        (Step::HandshakeRequest, Event::HandshakeUnfinished) => Step::HandshakeFlush {
            complete: false,
        },
        (Step::HandshakeRequest, Event::HandshakeFailed { cause }) => Step::Unregister {
            outcome: Outcome::Broken { error: EisError::Handshake { cause } },
        },
        (Step::HandshakeFlush { complete }, Event::Flushed) => if complete {
            Step::AdvertiseSeat
        } else {
            Step::HandshakePending
        },
        (Step::HandshakeFlush { complete: _ }, Event::FlushFailed { cause }) => broken_io(cause),
        (Step::HandshakeRest, Event::Rested) => Step::HandshakeRead,
        (Step::AdvertiseSeat, Event::SeatAdvertised) => Step::FlushSeat,
        (Step::FlushSeat, Event::Flushed) => Step::Read,
        (Step::FlushSeat, Event::FlushFailed { cause }) => broken_io(cause),
        (Step::Read, Event::Read) => Step::Pending,
        (Step::Read, Event::ReadEof { cause: _ }) => Step::Unregister {
            outcome: Outcome::Finished,
        },
        (Step::Read, Event::ReadFailed { cause }) => broken_io(cause),
        (Step::Pending, Event::Pending) => Step::Convert,
        (Step::Pending, Event::PendingUnparsable { cause: _ }) => Step::Pending,
        (Step::Pending, Event::PendingInvalidObject) => Step::Pending,
        (Step::Pending, Event::NothingPending) => Step::FlushAnswers,
        (Step::Convert, Event::Converted) => Step::Next,
        (Step::Convert, Event::ConversionFailed) => Step::Pending,
        (Step::Next, Event::Requested { request }) => match request {
            EisRequest::Bind { capabilities } => Step::CreateDevices { capabilities },
            EisRequest::Disconnect => Step::Unregister { outcome: Outcome::Finished },
            _ => Step::Forward { request },
        },
        (Step::Next, Event::NothingRequested) => Step::Pending,
        (Step::CreateDevices { capabilities: _ }, Event::DevicesCreated) => Step::FlushDevices,
        (Step::FlushDevices, Event::Flushed) => Step::ResumeDevices,
        (Step::FlushDevices, Event::FlushFailed { cause }) => broken_io(cause),
        (Step::ResumeDevices, Event::DevicesResumed) => Step::FlushResumed,
        (Step::FlushResumed, Event::Flushed) => Step::Next,
        (Step::FlushResumed, Event::FlushFailed { cause }) => broken_io(cause),
        (Step::Forward { request: _ }, Event::Forwarded) => Step::Next,
        (Step::FlushAnswers, Event::Flushed) => Step::Rest,
        (Step::FlushAnswers, Event::FlushFailed { cause }) => broken_io(cause),
        (Step::Rest, Event::Rested) => Step::Read,
        (Step::Unregister { outcome }, Event::Unregistered) => Step::Closed { outcome },
        (step, _) => step,
    }
}

/// The connection of an EIS client to a session.
#[derive(Debug)]
pub struct EisConnection {
    pub session_id: usize,
    pub screen_width: u32,
    pub screen_height: u32,
    pub step: Step,
}

impl EisConnection {
    /// Whether `action` is what the connection asks for.
    pub open spec fn asks_for<C, B, S, M>(self, action: Action<C, B, S, M>) -> bool {
        match self.step {
            Step::HandshakeRead | Step::Read => action is Read,
            Step::HandshakePending | Step::Pending => action is TakePending,
            Step::HandshakeRequest => action is Shake,
            Step::HandshakeFlush { .. }
            | Step::FlushSeat
            | Step::FlushDevices
            | Step::FlushResumed
            | Step::FlushAnswers => action is Flush,
            Step::HandshakeRest | Step::Rest => action == (Action::<C, B, S, M>::Rest {
                millis: REST_MILLIS,
            }),
            Step::AdvertiseSeat => action matches Action::AdvertiseSeat { name, capabilities }
                && name@ == "default"@ && capabilities == 0x3f,
            Step::Convert => action is Convert,
            Step::Next => action is TakeRequest,
            Step::CreateDevices { capabilities } => action matches Action::CreateDevices { devices }
                && devices_serve(devices@, capabilities, self.screen_width, self.screen_height),
            Step::ResumeDevices => action is ResumeDevices,
            Step::Forward { request } => action == (Action::<C, B, S, M>::Send {
                msg: InputCaptureDBusToCalloop::EisInputEvent {
                    session_id: self.session_id,
                    request,
                },
            }),
            Step::Unregister { .. } => action == (Action::<C, B, S, M>::Send {
                msg: InputCaptureDBusToCalloop::UnregisterSession { session_id: self.session_id },
            }),
            Step::Closed { .. } => action is Stop,
        }
    }

    /// A connection that has yet to shake hands.
    pub fn new(session_id: usize, screen_width: u32, screen_height: u32) -> (connection: Self)
        ensures
            connection == (EisConnection {
                session_id,
                screen_width,
                screen_height,
                step: Step::HandshakeRead,
            }),
    {
        EisConnection { session_id, screen_width, screen_height, step: Step::HandshakeRead }
    }

    /// What the connection asks for.
    pub fn action<C, B, S, M>(&self) -> (action: Action<C, B, S, M>)
        ensures
            self.asks_for(action),
    {
        match &self.step {
            Step::HandshakeRead | Step::Read => Action::Read,
            Step::HandshakePending | Step::Pending => Action::TakePending,
            Step::HandshakeRequest => Action::Shake,
            Step::HandshakeFlush { complete: _ }
            | Step::FlushSeat
            | Step::FlushDevices
            | Step::FlushResumed
            | Step::FlushAnswers => Action::Flush,
            Step::HandshakeRest | Step::Rest => Action::Rest { millis: REST_MILLIS },
            Step::AdvertiseSeat => Action::AdvertiseSeat {
                name: "default".to_owned(),
                capabilities: seat_capabilities(),
            },
            Step::Convert => Action::Convert,
            Step::Next => Action::TakeRequest,
            Step::CreateDevices { capabilities } => Action::CreateDevices {
                devices: devices_for(*capabilities, self.screen_width, self.screen_height),
            },
            Step::ResumeDevices => Action::ResumeDevices,
            Step::Forward { request } => Action::Send {
                msg: InputCaptureDBusToCalloop::EisInputEvent {
                    session_id: self.session_id,
                    request: *request,
                },
            },
            Step::Unregister { outcome: _ } => Action::Send {
                msg: InputCaptureDBusToCalloop::UnregisterSession { session_id: self.session_id },
            },
            Step::Closed { outcome: _ } => Action::Stop,
        }
    }

    /// Takes note of how it went to do what the connection asked for.
    pub fn advance(&mut self, event: Event)
        ensures
            *final(self) == (EisConnection {
                step: next_step(old(self).step, event),
                ..*old(self)
            }),
    {
        let mut step = Step::Read;
        std::mem::swap(&mut step, &mut self.step);
        self.step = successor(step, event);
    }
}

/// Where a connection breaks on the socket.
fn break_io(cause: String) -> (step: Step)
    ensures
        step == broken_io(cause),
{
    Step::Unregister { outcome: Outcome::Broken { error: EisError::Io { cause } } }
}

/// Computes [`next_step`].
fn successor(step: Step, event: Event) -> (next: Step)
    ensures
        next == next_step(step, event),
{
    match (step, event) {
        (Step::HandshakeRead, Event::Read) => Step::HandshakePending,
        (Step::HandshakeRead, Event::ReadEof { cause }) => break_io(cause),
        (Step::HandshakeRead, Event::ReadFailed { cause }) => break_io(cause),
        (Step::HandshakePending, Event::Pending) => Step::HandshakeRequest,
        (Step::HandshakePending, Event::PendingUnparsable { cause }) => Step::Unregister {
            outcome: Outcome::Broken { error: EisError::Parse { cause } },
        },
        (Step::HandshakePending, Event::PendingInvalidObject) => Step::HandshakePending,
        (Step::HandshakePending, Event::NothingPending) => Step::HandshakeRest,
        (Step::HandshakeRequest, Event::HandshakeComplete) => Step::HandshakeFlush {
            complete: true,
        },
        (Step::HandshakeRequest, Event::HandshakeUnfinished) => Step::HandshakeFlush {
            complete: false,
        },
        (Step::HandshakeRequest, Event::HandshakeFailed { cause }) => Step::Unregister {
            outcome: Outcome::Broken { error: EisError::Handshake { cause } },
        },
        (Step::HandshakeFlush { complete }, Event::Flushed) => if complete {
            Step::AdvertiseSeat
        } else {
            Step::HandshakePending
        },
        (Step::HandshakeFlush { complete: _ }, Event::FlushFailed { cause }) => break_io(cause),
        (Step::HandshakeRest, Event::Rested) => Step::HandshakeRead,
        (Step::AdvertiseSeat, Event::SeatAdvertised) => Step::FlushSeat,
        (Step::FlushSeat, Event::Flushed) => Step::Read,
        (Step::FlushSeat, Event::FlushFailed { cause }) => break_io(cause),
        (Step::Read, Event::Read) => Step::Pending,
        (Step::Read, Event::ReadEof { cause: _ }) => Step::Unregister {
            outcome: Outcome::Finished,
        },
        (Step::Read, Event::ReadFailed { cause }) => break_io(cause),
        (Step::Pending, Event::Pending) => Step::Convert,
        (Step::Pending, Event::PendingUnparsable { cause: _ }) => Step::Pending,
        (Step::Pending, Event::PendingInvalidObject) => Step::Pending,
        (Step::Pending, Event::NothingPending) => Step::FlushAnswers,
        (Step::Convert, Event::Converted) => Step::Next,
        (Step::Convert, Event::ConversionFailed) => Step::Pending,
        (Step::Next, Event::Requested { request }) => match request {
            EisRequest::Bind { capabilities } => Step::CreateDevices { capabilities },
            EisRequest::Disconnect => Step::Unregister { outcome: Outcome::Finished },
            _ => Step::Forward { request },
        },
        (Step::Next, Event::NothingRequested) => Step::Pending,
        (Step::CreateDevices { capabilities: _ }, Event::DevicesCreated) => Step::FlushDevices,
        (Step::FlushDevices, Event::Flushed) => Step::ResumeDevices,
        (Step::FlushDevices, Event::FlushFailed { cause }) => break_io(cause),
        (Step::ResumeDevices, Event::DevicesResumed) => Step::FlushResumed,
        (Step::FlushResumed, Event::Flushed) => Step::Next,
        (Step::FlushResumed, Event::FlushFailed { cause }) => break_io(cause),
        (Step::Forward { request: _ }, Event::Forwarded) => Step::Next,
        (Step::FlushAnswers, Event::Flushed) => Step::Rest,
        (Step::FlushAnswers, Event::FlushFailed { cause }) => break_io(cause),
        (Step::Rest, Event::Rested) => Step::Read,
        (Step::Unregister { outcome }, Event::Unregistered) => Step::Closed { outcome },
        (step, _) => step,
    }
}

/// How far a connection has come: the handshake, the seat, serving the client,
/// the end.
pub open spec fn phase(step: Step) -> int {
    match step {
        Step::HandshakeRead
        | Step::HandshakePending
        | Step::HandshakeRequest
        | Step::HandshakeFlush { .. }
        | Step::HandshakeRest => 0,
        Step::AdvertiseSeat | Step::FlushSeat => 1,
        Step::Unregister { .. } | Step::Closed { .. } => 3,
        _ => 2,
    }
}

/// Where a connection stands that starts at `step` and sees `events`.
pub open spec fn run(step: Step, events: Seq<Event>) -> Step
    decreases events.len(),
{
    if events.len() == 0 {
        step
    } else {
        next_step(run(step, events.drop_last()), events.last())
    }
}

/// A connection never goes back to an earlier phase.
pub proof fn law_phases_go_forward(step: Step, event: Event)
    ensures
        phase(next_step(step, event)) >= phase(step),
{
}

/// Nothing is done for a client before the handshake is complete: a connection
/// that has got past the handshake, other than to its end, saw it complete.
pub proof fn law_service_needs_a_handshake(events: Seq<Event>)
    requires
        1 <= phase(run(Step::HandshakeRead, events)) <= 2,
    ensures
        exists|i: int| 0 <= i < events.len() && #[trigger] events[i] is HandshakeComplete,
{
    lemma_handshake_was_seen(events);
}

/// The completed handshake stays behind in the flush that follows it.
proof fn lemma_handshake_was_seen(events: Seq<Event>)
    requires
        ({
            let step = run(Step::HandshakeRead, events);
            1 <= phase(step) <= 2 || step == (Step::HandshakeFlush { complete: true })
        }),
    ensures
        exists|i: int| 0 <= i < events.len() && #[trigger] events[i] is HandshakeComplete,
    decreases events.len(),
{
    if events.len() > 0 {
        let before = run(Step::HandshakeRead, events.drop_last());
        let event = events.last();
        if 1 <= phase(before) <= 2 || before == (Step::HandshakeFlush { complete: true }) {
            lemma_handshake_was_seen(events.drop_last());
            let i = choose|i: int|
                0 <= i < events.len() - 1 && #[trigger] events.drop_last()[i] is HandshakeComplete;
            assert(events[i] is HandshakeComplete);
        } else {
            assert(events[events.len() - 1] is HandshakeComplete);
        }
    }
}

/// A connection closes only after the compositor was told that the session is
/// over, and with the outcome that it had then.
pub proof fn law_end_is_announced(step: Step, event: Event)
    requires
        !(step is Closed),
        next_step(step, event) is Closed,
    ensures
        step is Unregister,
        event is Unregistered,
        next_step(step, event)->Closed_outcome == step->Unregister_outcome,
{
}

/// A closed connection stays closed.
pub proof fn law_closed_is_final(outcome: Outcome, event: Event)
    ensures
        next_step(Step::Closed { outcome }, event) == (Step::Closed { outcome }),
{
}

/// A client that hangs up during the handshake breaks the connection; later it
/// just ends it.
pub proof fn law_hanging_up(cause: String)
    ensures
        next_step(Step::HandshakeRead, Event::ReadEof { cause }) == (Step::Unregister {
            outcome: Outcome::Broken { error: EisError::Io { cause } },
        }),
        next_step(Step::Read, Event::ReadEof { cause }) == (Step::Unregister {
            outcome: Outcome::Finished,
        }),
{
}

/// An unintelligible request ends a handshake, but not a connection that serves
/// its client: that goes on to the next request, as it does after a request
/// that makes no sense or names no object.
pub proof fn law_only_the_handshake_is_strict(cause: String)
    ensures
        next_step(Step::HandshakePending, Event::PendingUnparsable { cause }) == (
        Step::Unregister { outcome: Outcome::Broken { error: EisError::Parse { cause } } }),
        next_step(Step::HandshakePending, Event::PendingInvalidObject) == Step::HandshakePending,
        next_step(Step::Pending, Event::PendingUnparsable { cause }) == Step::Pending,
        next_step(Step::Pending, Event::PendingInvalidObject) == Step::Pending,
        next_step(Step::Convert, Event::ConversionFailed) == Step::Pending,
{
}

/// Every request but a binding and a disconnection is passed on to the
/// compositor, for the session of the connection, and then the next one is
/// looked at.
pub proof fn law_requests_are_forwarded<C, B, S, M>(
    connection: EisConnection,
    request: EisRequest,
    action: Action<C, B, S, M>,
)
    requires
        connection.step is Next,
        !(request is Bind),
        !(request is Disconnect),
        (EisConnection {
            step: next_step(connection.step, Event::Requested { request }),
            ..connection
        }).asks_for(action),
    ensures
        action == (Action::<C, B, S, M>::Send {
            msg: InputCaptureDBusToCalloop::EisInputEvent {
                session_id: connection.session_id,
                request,
            },
        }),
        next_step(next_step(connection.step, Event::Requested { request }), Event::Forwarded)
            == Step::Next,
{
}

/// A client that binds gets its devices, is told of them, has them resumed and
/// is told of that, before its next request is looked at.
pub proof fn law_binding_creates_and_resumes<C, B, S, M>(
    connection: EisConnection,
    capabilities: u64,
    action: Action<C, B, S, M>,
)
    requires
        connection.step is Next,
        (EisConnection {
            step: next_step(
                connection.step,
                Event::Requested { request: EisRequest::Bind { capabilities } },
            ),
            ..connection
        }).asks_for(action),
    ensures
        action matches Action::CreateDevices { devices } && devices_serve(
            devices@,
            capabilities,
            connection.screen_width,
            connection.screen_height,
        ),
        run(
            connection.step,
            seq![
                Event::Requested { request: EisRequest::Bind { capabilities } },
                Event::DevicesCreated,
                Event::Flushed,
                Event::DevicesResumed,
                Event::Flushed,
            ],
        ) == Step::Next,
{
    let e0 = Event::Requested { request: EisRequest::Bind { capabilities } };
    let s0 = Seq::<Event>::empty();
    let s1 = s0.push(e0);
    let s2 = s1.push(Event::DevicesCreated);
    let s3 = s2.push(Event::Flushed);
    let s4 = s3.push(Event::DevicesResumed);
    let s5 = s4.push(Event::Flushed);
    assert(s1.drop_last() =~= s0);
    assert(s2.drop_last() =~= s1);
    assert(s3.drop_last() =~= s2);
    assert(s4.drop_last() =~= s3);
    assert(s5.drop_last() =~= s4);
    assert(run(connection.step, s0) == Step::Next);
    assert(run(connection.step, s1) == (Step::CreateDevices { capabilities }));
    assert(run(connection.step, s2) == Step::FlushDevices);
    assert(run(connection.step, s3) == Step::ResumeDevices);
    assert(run(connection.step, s4) == Step::FlushResumed);
    assert(run(connection.step, s5) == Step::Next);
    assert(s5 =~= seq![
        e0,
        Event::DevicesCreated,
        Event::Flushed,
        Event::DevicesResumed,
        Event::Flushed,
    ]);
}

/// How often the client of a new connection that sees `events` is told of a
/// seat.
pub open spec fn seats_advertised(events: Seq<Event>) -> nat
    decreases events.len(),
{
    if events.len() == 0 {
        0
    } else {
        let before = run(Step::HandshakeRead, events.drop_last());
        seats_advertised(events.drop_last()) + if before is AdvertiseSeat
            && events.last() is SeatAdvertised {
            1nat
        } else {
            0nat
        }
    }
}

/// What the client of a new connection that sees `events` asks for, in order,
/// other than to bind or to be let go.
pub open spec fn requests_made(events: Seq<Event>) -> Seq<EisRequest>
    decreases events.len(),
{
    if events.len() == 0 {
        Seq::empty()
    } else {
        let before = run(Step::HandshakeRead, events.drop_last());
        let made = requests_made(events.drop_last());
        match events.last() {
            Event::Requested { request } => if before is Next && !(request is Bind) && !(
            request is Disconnect) {
                made.push(request)
            } else {
                made
            },
            _ => made,
        }
    }
}

/// What a new connection that sees `events` passes on to the compositor, in
/// order.
pub open spec fn requests_forwarded(events: Seq<Event>) -> Seq<EisRequest>
    decreases events.len(),
{
    if events.len() == 0 {
        Seq::empty()
    } else {
        let before = run(Step::HandshakeRead, events.drop_last());
        let forwarded = requests_forwarded(events.drop_last());
        match before {
            Step::Forward { request } => if events.last() is Forwarded {
                forwarded.push(request)
            } else {
                forwarded
            },
            _ => forwarded,
        }
    }
}

/// How often a new connection that sees `events` tells the compositor that the
/// session is over.
pub open spec fn ends_announced(events: Seq<Event>) -> nat
    decreases events.len(),
{
    if events.len() == 0 {
        0
    } else {
        let before = run(Step::HandshakeRead, events.drop_last());
        ends_announced(events.drop_last()) + if before is Unregister
            && events.last() is Unregistered {
            1nat
        } else {
            0nat
        }
    }
}

/// Over a whole connection the client is told of one seat at most, and of one
/// before it is served.
pub proof fn law_one_seat_is_advertised(events: Seq<Event>)
    ensures
        seats_advertised(events) <= 1,
        phase(run(Step::HandshakeRead, events)) == 2 ==> seats_advertised(events) == 1,
        phase(run(Step::HandshakeRead, events)) == 0 ==> seats_advertised(events) == 0,
        run(Step::HandshakeRead, events) is AdvertiseSeat ==> seats_advertised(events) == 0,
        run(Step::HandshakeRead, events) is FlushSeat ==> seats_advertised(events) == 1,
    decreases events.len(),
{
    if events.len() > 0 {
        law_one_seat_is_advertised(events.drop_last());
    }
}

/// Over a whole connection each request of the client, other than to bind or to
/// be let go, is passed on once and in order; at most the last one has yet to be.
pub proof fn law_requests_are_forwarded_once_in_order(events: Seq<Event>)
    ensures
        requests_made(events) == match run(Step::HandshakeRead, events) {
            Step::Forward { request } => requests_forwarded(events).push(request),
            _ => requests_forwarded(events),
        },
    decreases events.len(),
{
    if events.len() > 0 {
        law_requests_are_forwarded_once_in_order(events.drop_last());
    }
}

/// Over a whole connection the compositor is told once that the session is over:
/// when the connection closes.
pub proof fn law_end_is_announced_once(events: Seq<Event>)
    ensures
        ends_announced(events) == if run(Step::HandshakeRead, events) is Closed {
            1nat
        } else {
            0nat
        },
    decreases events.len(),
{
    if events.len() > 0 {
        law_end_is_announced_once(events.drop_last());
    }
}

/// A client gets a device for a capability exactly if it binds to it and there
/// is a device for it, and never two of them.
pub proof fn law_devices_follow_the_binding(capabilities: u64, capability: Capability)
    ensures
        device_capabilities(capabilities).contains(capability) <==> capability.is_in(capabilities)
            && (capability == Capability::Pointer || capability == Capability::PointerAbsolute
            || capability == Capability::Keyboard),
        device_capabilities(capabilities).no_duplicates(),
{
    let p = Capability::Pointer.is_in(capabilities);
    let a = Capability::PointerAbsolute.is_in(capabilities);
    let k = Capability::Keyboard.is_in(capabilities);
    let all = device_capabilities(capabilities);
    let np: int = if p {
        1
    } else {
        0
    };
    let na: int = if a {
        1
    } else {
        0
    };
    if p {
        assert(all[0] == Capability::Pointer);
    }
    if a {
        assert(all[np] == Capability::PointerAbsolute);
    }
    if k {
        assert(all[np + na] == Capability::Keyboard);
    }
}

} // verus!
