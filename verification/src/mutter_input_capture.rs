//! `org.gnome.Mutter.InputCapture`: the objects that the input capture portal
//! talks to, and the messages that they send to the compositor.

use std::collections::HashMap;

use vstd::prelude::*;

use crate::barrier::Barrier;
use crate::double::Double;
use crate::eis::EisRequest;
use crate::error::CaptureError;
use crate::object_path::is_object_path;
use crate::object_path::is_path_char;
use crate::object_path::lemma_child_path;
use crate::object_path::object_path;
use crate::segments::is_between;
use crate::segments::lies_on;
use crate::segments::segments_touch;
use crate::segments::turns_left;
use crate::segments::Position;
use crate::text::decimal;
use crate::text::decimal_text;
use crate::text::law_decimal_is_injective;
use crate::text::lemma_decimal_is_digits;

verus! {

/// The keyboard in a mask of device types.
pub const KEYBOARD: u32 = 1;

/// The pointer in a mask of device types.
pub const POINTER: u32 = 2;

/// The touchscreen in a mask of device types.
pub const TOUCHSCREEN: u32 = 4;

/// All device types that can be captured.
pub const ALL_DEVICE_TYPES: u32 = 7;

/// A message from the D-Bus side to the compositor. `C` is an EIS context, `B`
/// gives access to the barriers of a session, `S` leads back to the D-Bus side
/// and `M` to the compositor.
pub enum InputCaptureDBusToCalloop<C, B, S, M> {
    /// The EIS connection of a session has ended.
    RemoveEisHandler { session_id: usize },
    /// A session has a new EIS connection.
    NewEisContext {
        session_id: usize,
        ctx: C,
        exposed_device_types: u32,
        screen_width: u32,
        screen_height: u32,
        event_sender: M,
    },
    /// A session is to take part in barrier detection.
    RegisterSession { session_id: usize, barriers: B, signal_sender: S },
    /// A session is over.
    UnregisterSession { session_id: usize },
    /// A session begins to capture.
    ActivateSession { session_id: usize, barrier_id: u32, cursor_position: Position },
    /// A session ends capturing.
    DeactivateSession { session_id: usize, cursor_position: Position },
    /// The client of a session sent a request.
    EisInputEvent { session_id: usize, request: EisRequest },
}

/// The part of the desktop that an output shows, in logical pixels.
#[derive(Clone, Copy, Debug, PartialEq, Eq, Structural)]
pub struct LogicalOutput {
    pub x: i32,
    pub y: i32,
    pub width: u32,
    pub height: u32,
}

/// A zone that barriers can be placed around: width, height, x and y.
#[derive(Clone, Copy, Debug, PartialEq, Eq, Structural)]
pub struct Zone(pub u32, pub u32, pub i32, pub i32);

/// The options of a request for barriers. There are none.
#[derive(Clone, Copy, Debug, PartialEq, Eq, Structural)]
pub struct SetPointerBarriersOptions {}

/// A barrier as a client asks for it: its ends, as x1, y1, x2 and y2.
#[derive(Clone, Copy, Debug)]
pub struct PointerBarrier {
    pub barrier_id: u32,
    pub position: (i32, i32, i32, i32),
}

/// The arguments of an `Activated` signal.
#[derive(Clone, Copy, Debug, PartialEq, Eq, Structural)]
pub struct ActivatedSignal {
    pub barrier_id: u32,
    pub activation_id: u32,
    pub cursor_position: Position,
}

/// The identifier that is given out after `id`; after the greatest comes zero.
pub open spec fn id_after(id: u32) -> u32 {
    if id < u32::MAX {
        (id + 1) as u32
    } else {
        0
    }
}

/// Hands out barrier identifiers, to all sessions.
#[derive(Debug)]
pub struct BarrierIds {
    pub next: u32,
}

impl BarrierIds {
    /// The first identifier is one.
    pub fn new() -> (ids: BarrierIds)
        ensures
            ids.next == 1,
    {
        BarrierIds { next: 1 }
    }

    /// The next identifier; after the greatest comes zero.
    pub fn take(&mut self) -> (id: u32)
        ensures
            id == old(self).next,
            final(self).next == id_after(old(self).next),
    {
        let id: u32 = self.next;
        self.next = id.wrapping_add(1);
        id
    }
}

/// The number of the session that is created after number `id`; after the
/// greatest comes zero.
pub open spec fn session_id_after(id: usize) -> usize {
    if id < usize::MAX {
        (id + 1) as usize
    } else {
        0
    }
}

/// Numbers the sessions, whichever object creates them.
#[derive(Debug)]
pub struct SessionIds {
    pub next: usize,
}

impl SessionIds {
    /// The first session is number zero.
    pub fn new() -> (ids: SessionIds)
        ensures
            ids.next == 0,
    {
        SessionIds { next: 0 }
    }

    /// The number of the next session; after the greatest comes zero.
    pub fn take(&mut self) -> (id: usize)
        ensures
            id == old(self).next,
            final(self).next == session_id_after(old(self).next),
    {
        let id: usize = self.next;
        self.next = id.wrapping_add(1);
        id
    }
}

/// The zone of an output.
pub open spec fn zone_of(output: LogicalOutput) -> Zone {
    Zone(output.width, output.height, output.x, output.y)
}

/// The zones of the outputs that show a part of the desktop, in order.
pub open spec fn zones_of(outputs: Seq<Option<LogicalOutput>>) -> Seq<Zone>
    decreases outputs.len(),
{
    if outputs.len() == 0 {
        Seq::empty()
    } else {
        let before = zones_of(outputs.drop_last());
        match outputs.last() {
            Some(output) => before.push(zone_of(output)),
            None => before,
        }
    }
}

/// An input capture session, as its D-Bus object knows it.
#[derive(Debug)]
pub struct Session {
    pub id: usize,
    pub id_str: String,
    pub active: bool,
    pub enabled: bool,
    /// Whether the session has handed out its EIS socket.
    pub using_eis: bool,
    /// The zone set that barriers have to be set for.
    pub zone_set: u32,
    /// The identifier of the next activation.
    pub activation_id: u32,
    /// The barriers, by their identifiers.
    pub barriers: HashMap<u32, Barrier>,
}

/// What a client can ask of a session.
#[derive(Clone, Copy, Debug, PartialEq, Eq, Structural)]
pub enum SessionRequest {
    Start,
    Stop,
    SetPointerBarriers { zone_set: u32 },
    Enable,
    Disable,
    AddBarrier { id: u32, x1: i32, y1: i32, x2: i32, y2: i32 },
    ClearBarriers,
    Close,
    Release,
    ConnectToEis,
}

/// What can happen to a session.
#[derive(Clone, Copy, Debug, PartialEq, Eq, Structural)]
pub enum SessionEvent {
    /// A client asks for something.
    Asked { request: SessionRequest },
    /// The session is stopped from within.
    Stopped,
    /// An activation is tried.
    Tried,
}

/// What a request was refused with, if it was.
pub open spec fn refused_with<T>(r: Result<T, CaptureError>) -> Option<CaptureError> {
    match r {
        Ok(_) => None,
        Err(e) => Some(e),
    }
}

impl Session {
    /// What the session refuses `request` with, or nothing if it is granted. An
    /// inactive session can only be started or closed.
    pub open spec fn refusal(self, request: SessionRequest) -> Option<CaptureError> {
        match request {
            SessionRequest::Close => None,
            SessionRequest::Start => if self.active {
                Some(CaptureError::AlreadyStarted)
            } else {
                None
            },
            _ => if !self.active {
                Some(CaptureError::NotStarted)
            } else {
                match request {
                    SessionRequest::SetPointerBarriers { zone_set } => if zone_set
                        != self.zone_set {
                        Some(
                            CaptureError::ZoneSetMismatch {
                                expected: self.zone_set,
                                got: zone_set,
                            },
                        )
                    } else {
                        None
                    },
                    SessionRequest::Enable => if !self.using_eis {
                        Some(CaptureError::EisNotConnected)
                    } else {
                        None
                    },
                    SessionRequest::ConnectToEis => if self.using_eis {
                        Some(CaptureError::EisAlreadyConnected)
                    } else {
                        None
                    },
                    _ => None,
                }
            },
        }
    }

    /// The session after `request` was granted, but for its barriers.
    pub open spec fn granted(self, request: SessionRequest) -> Session {
        match request {
            SessionRequest::Start => Session { active: true, ..self },
            SessionRequest::Stop | SessionRequest::Close => Session {
                active: false,
                enabled: false,
                ..self
            },
            SessionRequest::SetPointerBarriers { .. } | SessionRequest::Disable => Session {
                enabled: false,
                ..self
            },
            SessionRequest::Enable => Session { enabled: true, ..self },
            SessionRequest::ConnectToEis => Session { using_eis: true, ..self },
            _ => self,
        }
    }

    /// The barriers after `request` was granted.
    pub open spec fn granted_barriers(self, request: SessionRequest) -> Map<u32, Barrier> {
        match request {
            SessionRequest::AddBarrier { id, x1, y1, x2, y2 } => self.barriers@.insert(
                id,
                Barrier { id, x1, y1, x2, y2 },
            ),
            SessionRequest::ClearBarriers => Map::empty(),
            _ => self.barriers@,
        }
    }

    /// Whether `request`, refused with `refused` or granted, leads from this
    /// session to `next`. A refused request changes nothing.
    pub open spec fn answers(
        self,
        request: SessionRequest,
        refused: Option<CaptureError>,
        next: Session,
    ) -> bool {
        &&& refused == self.refusal(request)
        &&& refused is Some ==> next == self
        &&& refused is None ==> {
            &&& next == Session { barriers: next.barriers, ..self.granted(request) }
            &&& next.barriers@ == self.granted_barriers(request)
        }
    }

    /// The session after it was stopped from within. A session that is not active
    /// is left as it is.
    pub open spec fn stopped(self) -> Session {
        if self.active {
            Session { active: false, enabled: false, ..self }
        } else {
            self
        }
    }

    /// The session after an activation was tried: if the session is active, it is
    /// counted.
    pub open spec fn tried(self) -> Session {
        if self.active {
            Session { activation_id: id_after(self.activation_id), ..self }
        } else {
            self
        }
    }

    /// Whether `event` leads from this session to `next`.
    pub open spec fn becomes(self, event: SessionEvent, next: Session) -> bool {
        match event {
            SessionEvent::Asked { request } => self.answers(request, self.refusal(request), next),
            SessionEvent::Stopped => next == self.stopped(),
            SessionEvent::Tried => next == self.tried(),
        }
    }

    /// An enabled session is active and has an EIS connection, and each
    /// barrier is filed under its own identifier.
    pub open spec fn wf(self) -> bool {
        &&& self.id_str@ == decimal(self.id as nat)
        &&& self.enabled ==> self.active && self.using_eis
        &&& forall|id: u32| #[trigger]
            self.barriers@.contains_key(id) ==> self.barriers@[id].id == id
    }

    /// Whether the identifiers of all barriers come before `next`.
    pub open spec fn barriers_precede(self, next: u32) -> bool {
        forall|id: u32| #[trigger] self.barriers@.contains_key(id) ==> id < next
    }

    /// A session as it is created: active at once, with no barriers and no EIS
    /// connection.
    pub fn new(id: usize) -> (session: Session)
        ensures
            session.wf(),
            session.id == id,
            session.active,
            !session.enabled,
            !session.using_eis,
            session.zone_set == 0,
            session.activation_id == 0,
            session.barriers@ == Map::<u32, Barrier>::empty(),
    {
        Session {
            id,
            id_str: decimal_text(id as u64),
            active: true,
            enabled: false,
            using_eis: false,
            zone_set: 0,
            activation_id: 0,
            barriers: HashMap::new(),
        }
    }

    /// The identifier of the session as text.
    pub fn session_id(&self) -> (id: &str)
        ensures
            id@ == self.id_str@,
    {
        self.id_str.as_str()
    }

    /// The current zone set and the zones of `outputs`.
    fn get_zones_impl(&self, outputs: &Vec<Option<LogicalOutput>>) -> (r: (u32, Vec<Zone>))
        ensures
            r.0 == self.zone_set,
            r.1@ == zones_of(outputs@),
    {
        let mut zones: Vec<Zone> = Vec::new();
        for i in 0..outputs.len()
            invariant
                zones@ == zones_of(outputs@.take(i as int)),
        {
            assert(outputs@.take(i + 1).drop_last() =~= outputs@.take(i as int));
            if let Some(l) = outputs[i] {
                zones.push(Zone(l.width, l.height, l.x, l.y));
            }
        }
        assert(outputs@.take(outputs@.len() as int) =~= outputs@);
        (self.zone_set, zones)
    }

    /// The current zone set and the zones of `outputs`, whether or not the
    /// session is active.
    pub fn get_zones(&self, outputs: &Vec<Option<LogicalOutput>>) -> (r: Result<
        (u32, Vec<Zone>),
        CaptureError,
    >)
        ensures
            r matches Ok((zone_set, zones)) && zone_set == self.zone_set && zones@ == zones_of(
                outputs@,
            ),
    {
        Ok(self.get_zones_impl(outputs))
    }

    /// Stops the session, and takes it off the list of sessions if the list can
    /// be had. A session that is not active is left as it is.
    pub fn stop<R>(&mut self, registry: Option<&mut SessionRegistry<R>>)
        ensures
            *final(self) == old(self).stopped(),
            old(self).wf() ==> final(self).wf(),
            registry matches Some(list) ==> final(list).sessions@ == if old(self).active {
                list.sessions@.remove(old(self).id)
            } else {
                list.sessions@
            },
    {
        if !self.active {
            return;
        }
        self.active = false;
        self.enabled = false;
        if let Some(list) = registry {
            list.remove(self.id);
        }
    }

    /// Makes an inactive session active.
    pub fn start(&mut self) -> (r: Result<(), CaptureError>)
        ensures
            old(self).answers(SessionRequest::Start, refused_with(r), *final(self)),
    {
        if self.active {
            return Err(CaptureError::AlreadyStarted);
        }
        self.active = true;
        Ok(())
    }

    /// Makes an active session inactive, at the client's request.
    pub fn stop_dbus(&mut self) -> (r: Result<(), CaptureError>)
        ensures
            old(self).answers(SessionRequest::Stop, refused_with(r), *final(self)),
    {
        if !self.active {
            return Err(CaptureError::NotStarted);
        }
        self.active = false;
        self.enabled = false;
        Ok(())
    }

    /// Takes barriers for the zone set `zone_set`, and says which of them were
    /// refused. None is, and the session is suspended.
    pub fn set_pointer_barriers(
        &mut self,
        _options: SetPointerBarriersOptions,
        _barriers: Vec<PointerBarrier>,
        zone_set: u32,
    ) -> (r: Result<Vec<u32>, CaptureError>)
        ensures
            old(self).answers(
                SessionRequest::SetPointerBarriers { zone_set },
                refused_with(r),
                *final(self),
            ),
            r matches Ok(failed) ==> failed@ == Seq::<u32>::empty(),
    {
        if !self.active {
            return Err(CaptureError::NotStarted);
        }
        if zone_set != self.zone_set {
            return Err(
                CaptureError::ZoneSetMismatch { expected: self.zone_set, got: zone_set },
            );
        }
        self.enabled = false;
        Ok(Vec::new())
    }

    /// Turns capturing on.
    pub fn enable(&mut self) -> (r: Result<(), CaptureError>)
        ensures
            old(self).answers(SessionRequest::Enable, refused_with(r), *final(self)),
    {
        if !self.active {
            return Err(CaptureError::NotStarted);
        }
        if !self.using_eis {
            return Err(CaptureError::EisNotConnected);
        }
        self.enabled = true;
        Ok(())
    }

    /// Turns capturing off.
    pub fn disable(&mut self) -> (r: Result<(), CaptureError>)
        ensures
            old(self).answers(SessionRequest::Disable, refused_with(r), *final(self)),
    {
        if !self.active {
            return Err(CaptureError::NotStarted);
        }
        self.enabled = false;
        Ok(())
    }

    /// Adds a barrier from (x1, y1) to (x2, y2), and says what identifier it
    /// got. No barrier of the session has that identifier yet, as long as `ids`
    /// has not come round.
    pub fn add_barrier(
        &mut self,
        ids: &mut BarrierIds,
        _serial: u32,
        position: (i32, i32, i32, i32),
    ) -> (r: Result<u32, CaptureError>)
        ensures
            old(self).answers(
                SessionRequest::AddBarrier {
                    id: old(ids).next,
                    x1: position.0,
                    y1: position.1,
                    x2: position.2,
                    y2: position.3,
                },
                refused_with(r),
                *final(self),
            ),
            r matches Ok(id) ==> id == old(ids).next && final(ids).next == id_after(old(ids).next),
            r is Err ==> *final(ids) == *old(ids),
            old(self).barriers_precede(old(ids).next) ==> {
                &&& r matches Ok(id) ==> !old(self).barriers@.contains_key(id)
                &&& old(ids).next < u32::MAX ==> final(self).barriers_precede(final(ids).next)
            },
    {
        if !self.active {
            return Err(CaptureError::NotStarted);
        }
        let id: u32 = ids.take();
        let barrier = Barrier {
            id,
            x1: position.0,
            y1: position.1,
            x2: position.2,
            y2: position.3,
        };
        self.barriers.insert(id, barrier);
        Ok(id)
    }

    /// Removes all barriers.
    pub fn clear_barriers(&mut self) -> (r: Result<(), CaptureError>)
        ensures
            old(self).answers(SessionRequest::ClearBarriers, refused_with(r), *final(self)),
    {
        if !self.active {
            return Err(CaptureError::NotStarted);
        }
        self.barriers.clear();
        Ok(())
    }

    /// Closes the session, active or not.
    pub fn close(&mut self) -> (r: Result<(), CaptureError>)
        ensures
            old(self).answers(SessionRequest::Close, refused_with(r), *final(self)),
    {
        self.active = false;
        self.enabled = false;
        Ok(())
    }

    /// Takes the client's word that it has stopped capturing.
    pub fn release(&self) -> (r: Result<(), CaptureError>)
        ensures
            refused_with(r) == self.refusal(SessionRequest::Release),
    {
        if !self.active {
            return Err(CaptureError::NotStarted);
        }
        Ok(())
    }

    /// Grants the client its EIS connection, of which there is one in the life
    /// of a session.
    pub fn connect_to_eis(&mut self) -> (r: Result<(), CaptureError>)
        ensures
            old(self).answers(SessionRequest::ConnectToEis, refused_with(r), *final(self)),
    {
        if !self.active {
            return Err(CaptureError::NotStarted);
        }
        if self.using_eis {
            return Err(CaptureError::EisAlreadyConnected);
        }
        self.using_eis = true;
        Ok(())
    }

    /// The message that hands the EIS context of the session to the
    /// compositor. All device types are exposed, and what the client sends is to
    /// go to `event_sender`.
    pub fn eis_context_message<C, B, S, M>(
        &self,
        ctx: C,
        screen_width: u32,
        screen_height: u32,
        event_sender: M,
    ) -> (msg: InputCaptureDBusToCalloop<C, B, S, M>)
        ensures
            msg == (InputCaptureDBusToCalloop::<C, B, S, M>::NewEisContext {
                session_id: self.id,
                ctx,
                exposed_device_types: ALL_DEVICE_TYPES,
                screen_width,
                screen_height,
                event_sender,
            }),
    {
        InputCaptureDBusToCalloop::NewEisContext {
            session_id: self.id,
            ctx,
            exposed_device_types: ALL_DEVICE_TYPES,
            screen_width,
            screen_height,
            event_sender,
        }
    }

    /// Counts an activation of an active session, and gives the signal that
    /// announces it. The signal names the first barrier and the origin. Of a
    /// session that is not active nothing is counted.
    pub fn activation_test(&mut self) -> (r: Result<ActivatedSignal, CaptureError>)
        ensures
            r is Ok <==> old(self).active,
            r matches Ok(signal) ==> {
                &&& signal.barrier_id == 1
                &&& signal.activation_id == old(self).activation_id
                &&& signal.cursor_position.x.bits == 0
                &&& signal.cursor_position.y.bits == 0
            },
            r matches Err(e) ==> e == CaptureError::NoSessions,
            *final(self) == old(self).tried(),
            old(self).wf() ==> final(self).wf(),
    {
        if !self.active {
            return Err(CaptureError::NoSessions);
        }
        let activation_id: u32 = self.activation_id;
        self.activation_id = activation_id.wrapping_add(1);
        let origin = Position { x: Double::from_bits(0), y: Double::from_bits(0) };
        Ok(ActivatedSignal { barrier_id: 1, activation_id, cursor_position: origin })
    }
}

/// The answer to a client for whose EIS context the sending to the compositor
/// went as `sent` says.
pub fn eis_context_sent(sent: Result<(), String>) -> (r: Result<(), CaptureError>)
    ensures
        r is Ok <==> sent is Ok,
        sent matches Err(cause) ==> r == Err::<(), CaptureError>(
            CaptureError::EisNotRegistered { cause },
        ),
{
    match sent {
        Ok(()) => Ok(()),
        Err(cause) => Err(CaptureError::EisNotRegistered { cause }),
    }
}

/// The outcome of an activation test whose signal went out as `emitted` says.
pub fn activation_test_emitted(emitted: Result<(), String>) -> (r: Result<(), CaptureError>)
    ensures
        r is Ok <==> emitted is Ok,
        emitted matches Err(cause) ==> r == Err::<(), CaptureError>(
            CaptureError::SignalNotEmitted { cause },
        ),
{
    match emitted {
        Ok(()) => Ok(()),
        Err(cause) => Err(CaptureError::SignalNotEmitted { cause }),
    }
}

/// Data shared between sessions: a reference `R` to the object of each.
pub struct InputCaptureShared<R> {
    pub sessions: HashMap<usize, R>,
}

impl<R> InputCaptureShared<R> {
    /// No sessions.
    pub fn new() -> (shared: Self)
        ensures
            shared.sessions@ == Map::<usize, R>::empty(),
    {
        InputCaptureShared { sessions: HashMap::new() }
    }
}

impl<R> Default for InputCaptureShared<R> {
    fn default() -> (shared: Self)
        ensures
            shared.sessions@ == Map::<usize, R>::empty(),
    {
        InputCaptureShared::new()
    }
}

/// The sessions that were created and not stopped.
pub struct SessionRegistry<R> {
    pub sessions: HashMap<usize, R>,
}

impl<R> SessionRegistry<R> {
    /// No sessions.
    pub fn new() -> (registry: Self)
        ensures
            registry.sessions@ == Map::<usize, R>::empty(),
    {
        SessionRegistry { sessions: HashMap::new() }
    }

    /// Takes the session `session_id` off the list.
    pub fn remove(&mut self, session_id: usize)
        ensures
            final(self).sessions@ == old(self).sessions@.remove(session_id),
    {
        self.sessions.remove(&session_id);
    }
}

impl<R> SessionRegistry<R> {
    /// Whether an activation can be tried on a session in the given state, its
    /// identifier and whether it is active: the session is registered and active.
    pub open spec fn can_try(self, state: (usize, bool)) -> bool {
        self.sessions@.contains_key(state.0) && state.1
    }
}

/// Picks the session to try an activation on: the first that is registered and
/// active. `states` says of each session whether it is active.
pub fn trigger_activation_test<R>(
    registry: &SessionRegistry<R>,
    states: &Vec<(usize, bool)>,
) -> (r: Result<usize, CaptureError>)
    ensures
        r is Ok <==> exists|i: int|
            0 <= i < states@.len() && registry.can_try(#[trigger] states@[i]),
        r matches Ok(id) ==> exists|i: int|
            {
                &&& 0 <= i < states@.len()
                &&& (#[trigger] states@[i]).0 == id
                &&& registry.can_try(states@[i])
                &&& forall|j: int| 0 <= j < i ==> !registry.can_try(#[trigger] states@[j])
            },
        r matches Err(e) ==> e == CaptureError::NoSessions,
{
    for i in 0..states.len()
        invariant
            forall|j: int| 0 <= j < i ==> !registry.can_try(#[trigger] states@[j]),
    {
        let (session_id, active) = states[i];
        if active && registry.sessions.contains_key(&session_id) {
            assert(registry.can_try(states@[i as int]));
            return Ok(session_id);
        }
    }
    Err(CaptureError::NoSessions)
}

/// The path below which the objects of sessions stand.
pub open spec fn session_root() -> Seq<char> {
    "/org/gnome/Mutter/InputCapture/Session"@
}

/// The object path of the session `session_id`.
pub open spec fn session_path_text(session_id: nat) -> Seq<char> {
    session_root() + "/u"@ + decimal(session_id)
}

/// The path of a session is an object path.
pub proof fn law_session_path_is_valid(session_id: nat)
    ensures
        is_object_path(session_path_text(session_id)),
{
    let root = session_root();
    reveal_strlit("/org/gnome/Mutter/InputCapture/Session");
    reveal_strlit("/u");
    lemma_decimal_is_digits(session_id);
    let name = seq!['u'] + decimal(session_id);
    assert forall|i: int| 0 <= i < name.len() implies is_path_char(#[trigger] name[i]) by {
        if i > 0 {
            assert(name[i] == decimal(session_id)[i - 1]);
        }
    }
    assert(is_object_path(root));
    lemma_child_path(root, name);
    assert(session_path_text(session_id) =~= root + seq!['/'] + name);
}

/// Different sessions have different paths.
pub proof fn law_session_paths_differ(a: nat, b: nat)
    requires
        a != b,
    ensures
        session_path_text(a) != session_path_text(b),
{
    law_decimal_is_injective(a, b);
    let prefix = session_root() + "/u"@;
    if session_path_text(a) == session_path_text(b) {
        assert(session_path_text(a).skip(prefix.len() as int) =~= decimal(a));
        assert(session_path_text(b).skip(prefix.len() as int) =~= decimal(b));
    }
}

/// A session that has yet to get its object.
#[derive(Debug)]
pub struct NewSession {
    pub path: String,
    pub session: Session,
}

/// How it went to make the object of a session.
pub enum ObjectOutcome<R> {
    /// The object stands; two references to it.
    Made { iface: R, registered: R },
    /// Something else stands at its path.
    PathTaken,
    /// The object could not be made.
    Failed { cause: String },
}

/// The input capture object: it creates the sessions.
pub struct InputCapture<R> {
    pub shared: InputCaptureShared<R>,
}

impl<R> InputCapture<R> {
    /// No sessions yet.
    pub fn new() -> (capture: Self)
        ensures
            capture.shared.sessions@ == Map::<usize, R>::empty(),
    {
        InputCapture { shared: InputCaptureShared::new() }
    }

    /// Begins a session, with the next number of `ids` and the path that goes
    /// with it, whatever capabilities the client asks for.
    pub fn create_session(&mut self, ids: &mut SessionIds, _capabilities: u32) -> (new: NewSession)
        ensures
            new.session.id == old(ids).next,
            new.session.wf(),
            new.session.active,
            !new.session.enabled,
            !new.session.using_eis,
            new.session.zone_set == 0,
            new.session.activation_id == 0,
            new.session.barriers@ == Map::<u32, Barrier>::empty(),
            new.path@ == session_path_text(old(ids).next as nat),
            is_object_path(new.path@),
            final(ids).next == session_id_after(old(ids).next),
            *final(self) == *old(self),
    {
        let session_id: usize = ids.take();
        let mut text = "/org/gnome/Mutter/InputCapture/Session".to_owned();
        text.append("/u");
        text.append(decimal_text(session_id as u64).as_str());
        proof {
            law_session_path_is_valid(session_id as nat);
        }
        let path = object_path(text).unwrap();
        NewSession { path, session: Session::new(session_id) }
    }

    /// Files the session `session_id`, whose object went as `outcome` says, and
    /// answers the client.
    pub fn session_object_made(
        &mut self,
        registry: &mut SessionRegistry<R>,
        session_id: usize,
        path: String,
        outcome: ObjectOutcome<R>,
    ) -> (r: Result<String, CaptureError>)
        ensures
            match outcome {
                ObjectOutcome::Made { iface, registered } => {
                    &&& r == Ok::<String, CaptureError>(path)
                    &&& final(self).shared.sessions@ == old(self).shared.sessions@.insert(
                        session_id,
                        iface,
                    )
                    &&& final(registry).sessions@ == old(registry).sessions@.insert(
                        session_id,
                        registered,
                    )
                },
                ObjectOutcome::PathTaken => {
                    &&& r == Err::<String, CaptureError>(CaptureError::SessionPathTaken)
                    &&& final(self).shared == old(self).shared
                    &&& *final(registry) == *old(registry)
                },
                ObjectOutcome::Failed { cause } => {
                    &&& r == Err::<String, CaptureError>(CaptureError::SessionNotCreated { cause })
                    &&& final(self).shared == old(self).shared
                    &&& *final(registry) == *old(registry)
                },
            },
    {
        match outcome {
            ObjectOutcome::Made { iface, registered } => {
                self.shared.sessions.insert(session_id, iface);
                registry.sessions.insert(session_id, registered);
                Ok(path)
            },
            ObjectOutcome::PathTaken => Err(CaptureError::SessionPathTaken),
            ObjectOutcome::Failed { cause } => Err(CaptureError::SessionNotCreated { cause }),
        }
    }

    /// Where the object stands on the bus.
    pub fn bus_path() -> (path: &'static str)
        ensures
            path@ == "/org/gnome/Mutter/InputCapture"@,
    {
        "/org/gnome/Mutter/InputCapture"
    }

    /// The name under which the object is found.
    pub fn bus_name() -> (name: &'static str)
        ensures
            name@ == "org.gnome.Mutter.InputCapture"@,
    {
        "org.gnome.Mutter.InputCapture"
    }

    /// The mask of the device types that can be captured: the keyboard, the
    /// pointer and the touchscreen.
    pub fn supported_capabilities(&self) -> (mask: u32)
        ensures
            mask == KEYBOARD | POINTER | TOUCHSCREEN,
            mask == ALL_DEVICE_TYPES,
    {
        assert(1u32 | 2u32 | 4u32 == 7u32) by (bit_vector);
        ALL_DEVICE_TYPES
    }

    /// The version of the interface.
    pub fn version(&self) -> (version: i32)
        ensures
            version == 1,
    {
        1
    }
}

/// Whether `a`, `b` and `c` turn to the left.
fn ccw(a: &Position, b: &Position, c: &Position) -> (r: bool)
    ensures
        r == turns_left(*a, *b, *c),
{
    c.y.sub(&a.y).mul(&b.x.sub(&a.x)).is_greater(&b.y.sub(&a.y).mul(&c.x.sub(&a.x)))
}

/// Whether `x` lies from `a` to `b` or from `b` to `a`.
fn between(a: &Double, b: &Double, x: &Double) -> (r: bool)
    ensures
        r == is_between(*a, *b, *x),
{
    (x.is_at_least(a) && b.is_at_least(x)) || (x.is_at_least(b) && a.is_at_least(x))
}

/// Whether `c` lies on the line segment from `a` to `b`.
fn on_segment(a: &Position, b: &Position, c: &Position) -> (r: bool)
    ensures
        r == lies_on(*a, *b, *c),
{
    let left = c.y.sub(&a.y).mul(&b.x.sub(&a.x));
    let right = b.y.sub(&a.y).mul(&c.x.sub(&a.x));
    left.is_at_least(&right) && right.is_at_least(&left) && between(&a.x, &b.x, &c.x) && between(
        &a.y,
        &b.y,
        &c.y,
    )
}

/// Whether the line segments from `p1` to `p2` and from `p3` to `p4` meet: each
/// has its ends on different sides of the other, or an end of one lies on the
/// other.
pub fn line_segments_intersect(p1: &Position, p2: &Position, p3: &Position, p4: &Position) -> (r:
    bool)
    ensures
        r == segments_touch(*p1, *p2, *p3, *p4),
{
    (ccw(p1, p3, p4) != ccw(p2, p3, p4) && ccw(p1, p2, p3) != ccw(p1, p2, p4)) || on_segment(
        p1,
        p2,
        p3,
    ) || on_segment(p1, p2, p4) || on_segment(p3, p4, p1) || on_segment(p3, p4, p2)
}

/// Does nothing: clients watch their barriers themselves, by the cursor
/// positions that they get over EIS. The compositor's own watch is
/// [`crate::input_capture::State::check_barrier_crossing`].
pub fn check_barrier_crossing(_old_pos: Position, _new_pos: Position) {
}

/// Whether `sessions` is the life of a session to which `events` happen, one
/// after the other.
pub open spec fn is_life(sessions: Seq<Session>, events: Seq<SessionEvent>) -> bool {
    &&& sessions.len() == events.len() + 1
    &&& forall|i: int|
        0 <= i < events.len() ==> (#[trigger] sessions[i]).becomes(events[i], sessions[i + 1])
}

/// To stop a session from within does to it what a client's request to stop it
/// does, if the session is active, and otherwise nothing.
pub proof fn law_stopping_is_one(session: Session)
    ensures
        session.active ==> session.answers(SessionRequest::Stop, None, session.stopped()),
        !session.active ==> session.stopped() == session,
        !session.stopped().active,
        session.wf() ==> session.stopped().wf(),
{
}

/// To try an activation changes nothing but the counter of activations, and that
/// only of an active session; what is granted and refused stays the same.
pub proof fn law_trying_only_counts(session: Session, request: SessionRequest)
    ensures
        session.tried() == (Session { activation_id: session.tried().activation_id, ..session }),
        session.tried().activation_id == if session.active {
            id_after(session.activation_id)
        } else {
            session.activation_id
        },
        session.tried().refusal(request) == session.refusal(request),
        session.wf() ==> session.tried().wf(),
{
}

/// Every request keeps a session well formed. In particular a session is only
/// ever enabled while it is active and has an EIS connection.
pub proof fn law_requests_keep_wf(
    before: Session,
    request: SessionRequest,
    refused: Option<CaptureError>,
    after: Session,
)
    requires
        before.wf(),
        before.answers(request, refused, after),
    ensures
        after.wf(),
{
}

/// A session is well formed all its life.
pub proof fn law_life_keeps_wf(sessions: Seq<Session>, events: Seq<SessionEvent>, i: int)
    requires
        is_life(sessions, events),
        sessions[0].wf(),
        0 <= i < sessions.len(),
    ensures
        sessions[i].wf(),
    decreases i,
{
    if i > 0 {
        law_life_keeps_wf(sessions, events, i - 1);
        assert(sessions[i - 1].becomes(events[i - 1], sessions[i - 1 + 1]));
    }
}

/// A refused request changes nothing.
pub proof fn law_refused_requests_change_nothing(
    before: Session,
    request: SessionRequest,
    error: CaptureError,
    after: Session,
)
    requires
        before.answers(request, Some(error), after),
    ensures
        after == before,
{
}

/// An inactive session refuses everything but to be started and to be closed,
/// and an active one refuses to be started.
pub proof fn law_activity_decides(session: Session, request: SessionRequest)
    ensures
        !session.active && request != SessionRequest::Start && request != SessionRequest::Close
            ==> session.refusal(request) == Some(CaptureError::NotStarted),
        session.active ==> session.refusal(SessionRequest::Start) == Some(
            CaptureError::AlreadyStarted,
        ),
        !session.active ==> session.refusal(SessionRequest::Start) is None,
        session.refusal(SessionRequest::Close) is None,
{
}

/// The EIS socket is handed out once in the life of a session, however often
/// the session is stopped and started again.
pub proof fn law_eis_socket_is_given_once(
    sessions: Seq<Session>,
    events: Seq<SessionEvent>,
    first: int,
    second: int,
)
    requires
        is_life(sessions, events),
        0 <= first < second < events.len(),
        events[first] == (SessionEvent::Asked { request: SessionRequest::ConnectToEis }),
        events[second] == (SessionEvent::Asked { request: SessionRequest::ConnectToEis }),
        sessions[first].refusal(SessionRequest::ConnectToEis) is None,
    ensures
        sessions[second].refusal(SessionRequest::ConnectToEis) is Some,
{
    assert(sessions[first].becomes(events[first], sessions[first + 1]));
    lemma_eis_connection_lasts(sessions, events, first + 1, second);
}

/// What has an EIS connection keeps it.
proof fn lemma_eis_connection_lasts(
    sessions: Seq<Session>,
    events: Seq<SessionEvent>,
    from: int,
    to: int,
)
    requires
        is_life(sessions, events),
        0 <= from <= to < sessions.len(),
        sessions[from].using_eis,
    ensures
        sessions[to].using_eis,
    decreases to - from,
{
    if from < to {
        lemma_eis_connection_lasts(sessions, events, from, to - 1);
        assert(sessions[to - 1].becomes(events[to - 1], sessions[to - 1 + 1]));
    }
}

/// A session that starts out without an EIS connection is enabled only after a
/// client connected.
pub proof fn law_enabling_needs_a_connection(
    sessions: Seq<Session>,
    events: Seq<SessionEvent>,
    i: int,
)
    requires
        is_life(sessions, events),
        sessions[0].wf(),
        !sessions[0].using_eis,
        0 <= i < sessions.len(),
        sessions[i].enabled,
    ensures
        exists|j: int|
            0 <= j < i && #[trigger] events[j] == (SessionEvent::Asked {
                request: SessionRequest::ConnectToEis,
            }),
{
    law_life_keeps_wf(sessions, events, i);
    lemma_connection_was_asked_for(sessions, events, i);
}

/// An EIS connection comes of a request for it.
proof fn lemma_connection_was_asked_for(
    sessions: Seq<Session>,
    events: Seq<SessionEvent>,
    i: int,
)
    requires
        is_life(sessions, events),
        !sessions[0].using_eis,
        0 <= i < sessions.len(),
        sessions[i].using_eis,
    ensures
        exists|j: int|
            0 <= j < i && #[trigger] events[j] == (SessionEvent::Asked {
                request: SessionRequest::ConnectToEis,
            }),
    decreases i,
{
    let connect = SessionEvent::Asked { request: SessionRequest::ConnectToEis };
    assert(i > 0);
    assert(sessions[i - 1].becomes(events[i - 1], sessions[i - 1 + 1]));
    if sessions[i - 1].using_eis {
        lemma_connection_was_asked_for(sessions, events, i - 1);
        let j = choose|j: int| 0 <= j < i - 1 && #[trigger] events[j] == connect;
        assert(0 <= j < i && events[j] == connect);
    } else {
        assert(events[i - 1] == connect);
    }
}

/// A session that was made inactive stays so until a client starts it.
pub proof fn law_inactive_until_started(before: Session, event: SessionEvent, after: Session)
    requires
        before.becomes(event, after),
        !before.active,
        event != (SessionEvent::Asked { request: SessionRequest::Start }),
    ensures
        !after.active,
        before.wf() ==> !after.enabled,
{
}

/// Setting barriers suspends the session, and disabling it does the same.
pub proof fn law_setting_barriers_suspends(before: Session, zone_set: u32, after: Session)
    requires
        before.answers(SessionRequest::SetPointerBarriers { zone_set }, None, after),
    ensures
        !after.enabled,
        after.active,
        before.answers(SessionRequest::Disable, None, after),
{
}

/// A session that was closed and started again is as before, only not enabled.
pub proof fn law_restart_only_disables(before: Session, closed: Session, after: Session)
    requires
        before.active,
        before.answers(SessionRequest::Close, None, closed),
        closed.answers(SessionRequest::Start, None, after),
    ensures
        after == (Session { enabled: false, barriers: after.barriers, ..before }),
        after.barriers@ == before.barriers@,
{
}

/// A barrier that was added is there, with the position that was asked for, and
/// the barriers with other identifiers stay.
pub proof fn law_added_barrier_is_there(
    before: Session,
    id: u32,
    x1: i32,
    y1: i32,
    x2: i32,
    y2: i32,
    after: Session,
    other: u32,
)
    requires
        before.answers(SessionRequest::AddBarrier { id, x1, y1, x2, y2 }, None, after),
        other != id,
    ensures
        after.barriers@.contains_key(id),
        after.barriers@[id] == (Barrier { id, x1, y1, x2, y2 }),
        after.barriers@.contains_key(other) == before.barriers@.contains_key(other),
        after.barriers@.contains_key(other) ==> after.barriers@[other] == before.barriers@[other],
{
}

/// Only a request to clear the barriers takes one away.
pub proof fn law_barriers_stay(before: Session, event: SessionEvent, after: Session, id: u32)
    requires
        before.becomes(event, after),
        before.barriers@.contains_key(id),
        event != (SessionEvent::Asked { request: SessionRequest::ClearBarriers }),
    ensures
        after.barriers@.contains_key(id),
{
}

/// A session whose barriers come before the next identifier goes on so, whatever
/// happens to it and whatever identifiers go to other sessions, until the
/// identifiers come round. The identifier of a new barrier is therefore new.
pub proof fn law_barrier_ids_stay_new(
    before: Session,
    event: SessionEvent,
    after: Session,
    next: u32,
    later: u32,
)
    requires
        before.becomes(event, after),
        before.barriers_precede(next),
        event matches SessionEvent::Asked { request: SessionRequest::AddBarrier { id, .. } } ==> id
            == next && next < later,
        next <= later,
    ensures
        after.barriers_precede(later),
        !before.barriers@.contains_key(next),
{
}

/// The identifier that comes `count` after `first`.
pub open spec fn nth_id(first: u32, count: nat) -> u32
    decreases count,
{
    if count == 0 {
        first
    } else {
        id_after(nth_id(first, (count - 1) as nat))
    }
}

/// Barrier identifiers do not repeat before all of them were handed out.
pub proof fn law_barrier_ids_are_distinct(first: u32, i: nat, j: nat)
    requires
        i < j <= u32::MAX,
    ensures
        nth_id(first, i) != nth_id(first, j),
{
    lemma_nth_id(first, i);
    lemma_nth_id(first, j);
}

/// Barriers are numbered from one in the order in which they are added, to
/// whichever session.
pub proof fn law_barriers_are_numbered(count: nat)
    requires
        count < u32::MAX,
    ensures
        nth_id(1, count) == count + 1,
{
    lemma_nth_id(1, count);
}

/// Where the count of identifiers has got to.
proof fn lemma_nth_id(first: u32, count: nat)
    requires
        count <= u32::MAX,
    ensures
        nth_id(first, count) == if first + count <= u32::MAX {
            first + count
        } else {
            first + count - u32::MAX - 1
        },
    decreases count,
{
    if count > 0 {
        lemma_nth_id(first, (count - 1) as nat);
    }
}

/// The number of the session that is created `count` after session `first`.
pub open spec fn nth_session_id(first: usize, count: nat) -> usize
    decreases count,
{
    if count == 0 {
        first
    } else {
        session_id_after(nth_session_id(first, (count - 1) as nat))
    }
}

/// The sessions of a process are numbered from zero in the order of their
/// creation, whichever object creates them.
pub proof fn law_sessions_are_numbered(count: nat)
    requires
        count <= usize::MAX,
    ensures
        nth_session_id(0, count) == count,
    decreases count,
{
    if count > 0 {
        law_sessions_are_numbered((count - 1) as nat);
    }
}

/// No two sessions of a process have one number or one path, until all numbers
/// were used.
pub proof fn law_sessions_are_told_apart(i: nat, j: nat)
    requires
        i < j <= usize::MAX,
    ensures
        nth_session_id(0, i) != nth_session_id(0, j),
        session_path_text(nth_session_id(0, i) as nat) != session_path_text(
            nth_session_id(0, j) as nat,
        ),
{
    law_sessions_are_numbered(i);
    law_sessions_are_numbered(j);
    law_session_paths_differ(i, j);
}

} // verus!
