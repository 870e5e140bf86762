//! The part of input capture that needs the compositor's global state: which
//! sessions there are, which of them is capturing, and what a message from the
//! D-Bus side does to them.

use std::collections::HashMap;

use vstd::prelude::*;

use crate::barrier::Barrier;
use crate::eis::ButtonState;
use crate::eis::EisRequest;
use crate::mutter_input_capture::InputCaptureDBusToCalloop;
use crate::segments::Position;
use crate::text::decimal;
use crate::text::decimal_text;

verus! {

/// A session as the compositor knows it. `barriers` gives access to the
/// barriers, which the D-Bus side goes on changing; `signal_sender` leads back
/// to the D-Bus side.
pub struct ActiveSession<B, S, E> {
    pub session_id: usize,
    pub barriers: B,
    /// What emits the signals of the session, once it is known.
    pub signal_emitter: Option<E>,
    pub signal_sender: Option<S>,
    /// Whether the session takes part in barrier detection.
    pub enabled: bool,
    /// Whether the session is capturing.
    pub activated: bool,
    /// How often the session was activated.
    pub current_activation_id: u32,
    /// The barrier at which the session began to capture.
    pub current_barrier_id: Option<u32>,
}

/// The input capture sessions of the compositor.
pub struct InputCaptureState<B, S, E> {
    /// The sessions, by their identifiers.
    pub sessions: HashMap<usize, ActiveSession<B, S, E>>,
    /// Whether local pointer input is held back.
    pub input_suppressed: bool,
}

/// The compositor's state, as far as input capture needs it.
pub struct State<B, S, E> {
    pub input_capture: InputCaptureState<B, S, E>,
    /// Where the pointer of the seat is, if the seat has one.
    pub pointer: Option<Position>,
}

/// What the barrier tables of the sessions hold at the moment, by session. A
/// session whose table cannot be read has no entry.
pub type BarrierTables = HashMap<usize, HashMap<u32, Barrier>>;

/// What the compositor does on account of a message.
#[derive(Debug)]
pub enum Effect<C, M> {
    /// Serves the EIS connection `ctx` in a thread of its own. What the client
    /// sends, and word of the end, goes to `event_sender`.
    ServeEis {
        thread_name: String,
        session_id: usize,
        ctx: C,
        screen_width: u32,
        screen_height: u32,
        event_sender: M,
    },
    /// Moves the pointer to a location. What lies there gets to know of it only
    /// if `enter_surface` says so.
    MovePointer { location: Position, enter_surface: bool },
    /// Presses or releases a button of the pointer.
    PointerButton { button: u32, state: ButtonState },
    /// Ends a group of pointer events.
    PointerFrame,
    /// Draws all outputs anew.
    QueueRedraw,
}

/// The name of the thread that serves the EIS connection of a session.
pub open spec fn eis_thread_text(session_id: nat) -> Seq<char> {
    "eis-session-"@ + decimal(session_id)
}

/// The name of the thread that serves the EIS connection of a session.
pub fn eis_thread_name(session_id: usize) -> (name: String)
    ensures
        name@ == eis_thread_text(session_id as nat),
{
    let mut name = "eis-session-".to_owned();
    name.append(decimal_text(session_id as u64).as_str());
    name
}

impl<B, S, E> ActiveSession<B, S, E> {
    /// A session that is capturing was activated at a barrier, and only that
    /// one has a barrier.
    pub open spec fn wf(self) -> bool {
        self.activated == self.current_barrier_id is Some
    }

    /// Whether the session waits for the pointer to cross one of its barriers.
    pub open spec fn armed(self) -> bool {
        self.enabled && !self.activated
    }

    /// A session as it is registered.
    pub open spec fn registered(session_id: usize, barriers: B, signal_sender: S) -> Self {
        ActiveSession {
            session_id,
            barriers,
            signal_emitter: None,
            signal_sender: Some(signal_sender),
            enabled: true,
            activated: false,
            current_activation_id: 0,
            current_barrier_id: None,
        }
    }

    /// The session with barrier detection on.
    pub open spec fn with_detection(self) -> Self {
        ActiveSession { enabled: true, ..self }
    }

    /// The session after it was activated at `barrier_id`.
    pub open spec fn capturing(self, barrier_id: u32) -> Self {
        ActiveSession {
            activated: true,
            current_activation_id: (self.current_activation_id + 1) as u32,
            current_barrier_id: Some(barrier_id),
            ..self
        }
    }

    /// The session after it was deactivated.
    pub open spec fn released(self) -> Self {
        ActiveSession { activated: false, current_barrier_id: None, ..self }
    }
}

impl<B, S, E> InputCaptureState<B, S, E> {
    /// Each session is filed under its own identifier and is well formed.
    pub open spec fn wf(self) -> bool {
        forall|id: usize| #[trigger]
            self.sessions@.contains_key(id) ==> self.sessions@[id].session_id == id
                && self.sessions@[id].wf()
    }

    /// Whether the session `session_id` is armed and the motion from `old` to
    /// `new` crosses its barrier `barrier_id`.
    pub open spec fn crossing(
        self,
        tables: Map<usize, HashMap<u32, Barrier>>,
        old: Position,
        new: Position,
        session_id: usize,
        barrier_id: u32,
    ) -> bool {
        &&& self.sessions@.contains_key(session_id)
        &&& self.sessions@[session_id].armed()
        &&& tables.contains_key(session_id)
        &&& tables[session_id]@.contains_key(barrier_id)
        &&& tables[session_id]@[barrier_id].crossed(old, new)
    }

    /// Whether `report` is an answer to the question which barrier the motion
    /// from `old` to `new` crosses: a crossing with the new position, or nothing
    /// where there is none or input is held back.
    pub open spec fn reports(
        self,
        tables: Map<usize, HashMap<u32, Barrier>>,
        old: Position,
        new: Position,
        report: Option<(usize, u32, Position)>,
    ) -> bool {
        match report {
            Some((session_id, barrier_id, position)) => {
                &&& !self.input_suppressed
                &&& position == new
                &&& self.crossing(tables, old, new, session_id, barrier_id)
            },
            None => self.input_suppressed || forall|session_id: usize, barrier_id: u32|
                !#[trigger] self.crossing(tables, old, new, session_id, barrier_id),
        }
    }

    /// Whether the activation counter of the session that `msg` activates, if it
    /// activates one, has not run out.
    pub open spec fn has_room_for<C, M>(self, msg: InputCaptureDBusToCalloop<C, B, S, M>) -> bool {
        msg matches InputCaptureDBusToCalloop::ActivateSession { session_id, .. } ==> (
        self.sessions@.contains_key(session_id)
            ==> self.sessions@[session_id].current_activation_id < u32::MAX)
    }

    /// Whether the session `session_id` is capturing.
    pub open spec fn captures(self, session_id: usize) -> bool {
        self.sessions@.contains_key(session_id) && self.sessions@[session_id].activated
    }

    /// Whether local input is held back if any session captures.
    pub open spec fn holds_captured_input_back(self) -> bool {
        forall|id: usize| #[trigger] self.captures(id) ==> self.input_suppressed
    }

    /// Whether the message `msg` leads from this state to `next`.
    pub open spec fn leads_to<C, M>(
        self,
        msg: InputCaptureDBusToCalloop<C, B, S, M>,
        next: InputCaptureState<B, S, E>,
    ) -> bool {
        &&& next.sessions@ =~= sessions_after(self.sessions@, msg)
        &&& next.input_suppressed == suppressed_after(self, msg)
    }

    /// Whether the motion from `old` to `new` crosses no barrier of the session
    /// `session_id`, or the session is not armed.
    spec fn uncrossed(
        self,
        tables: Map<usize, HashMap<u32, Barrier>>,
        old: Position,
        new: Position,
        session_id: usize,
    ) -> bool {
        forall|barrier_id: u32| !#[trigger] self.crossing(tables, old, new, session_id, barrier_id)
    }

    /// Whether `msg` can be taken: the activation counter of the session that it
    /// activates, if it activates one, has not run out.
    pub fn has_room<C, M>(&self, msg: &InputCaptureDBusToCalloop<C, B, S, M>) -> (r: bool)
        ensures
            r == self.has_room_for(*msg),
    {
        match msg {
            InputCaptureDBusToCalloop::ActivateSession { session_id, .. } => {
                match self.sessions.get(session_id) {
                    Some(session) => session.current_activation_id < u32::MAX,
                    None => true,
                }
            },
            _ => true,
        }
    }

    /// No sessions, and local input gets through.
    pub fn new() -> (state: Self)
        ensures
            state.sessions@ == Map::<usize, ActiveSession<B, S, E>>::empty(),
            !state.input_suppressed,
            state.wf(),
    {
        InputCaptureState { sessions: HashMap::new(), input_suppressed: false }
    }
}

impl<B, S, E> Default for InputCaptureState<B, S, E> {
    fn default() -> (state: Self)
        ensures
            state.sessions@ == Map::<usize, ActiveSession<B, S, E>>::empty(),
            !state.input_suppressed,
            state.wf(),
    {
        InputCaptureState::new()
    }
}

/// The barrier of `table` that the motion from `old_pos` to `new_pos` crosses,
/// if there is one; where there are several, any of them.
fn first_crossed(
    table: &HashMap<u32, Barrier>,
    old_pos: &Position,
    new_pos: &Position,
) -> (r: Option<u32>)
    ensures
        r matches Some(id) ==> table@.contains_key(id) && table@[id].crossed(*old_pos, *new_pos),
        r is None ==> forall|id: u32| #[trigger]
            table@.contains_key(id) ==> !table@[id].crossed(*old_pos, *new_pos),
{
    for entry in it: table.iter()
        invariant
            forall|i: int|
                0 <= i < it.index() ==> !(#[trigger] it.seq()[i]).1.crossed(*old_pos, *new_pos),
    {
        let (barrier_id, barrier) = entry;
        if barrier.at_or_near_barrier(old_pos, new_pos) {
            return Some(*barrier_id);
        }
    }
    None
}

/// The sessions after the message `msg`.
pub open spec fn sessions_after<C, B, S, M, E>(
    sessions: Map<usize, ActiveSession<B, S, E>>,
    msg: InputCaptureDBusToCalloop<C, B, S, M>,
) -> Map<usize, ActiveSession<B, S, E>> {
    match msg {
        InputCaptureDBusToCalloop::NewEisContext { session_id, .. } => if sessions.contains_key(
            session_id,
        ) {
            sessions.insert(session_id, sessions[session_id].with_detection())
        } else {
            sessions
        },
        InputCaptureDBusToCalloop::RegisterSession { session_id, barriers, signal_sender } => {
            sessions.insert(
                session_id,
                ActiveSession::registered(session_id, barriers, signal_sender),
            )
        },
        InputCaptureDBusToCalloop::UnregisterSession { session_id } => sessions.remove(session_id),
        InputCaptureDBusToCalloop::ActivateSession { session_id, barrier_id, .. } => {
            if sessions.contains_key(session_id) {
                sessions.insert(session_id, sessions[session_id].capturing(barrier_id))
            } else {
                sessions
            }
        },
        InputCaptureDBusToCalloop::DeactivateSession { session_id, .. }
        | InputCaptureDBusToCalloop::EisInputEvent {
            session_id,
            request: EisRequest::DeviceStopEmulating,
        } => {
            if sessions.contains_key(session_id) {
                sessions.insert(session_id, sessions[session_id].released())
            } else {
                sessions
            }
        },
        _ => sessions,
    }
}

/// Whether local input is held back after the message `msg`.
pub open spec fn suppressed_after<C, B, S, M, E>(
    state: InputCaptureState<B, S, E>,
    msg: InputCaptureDBusToCalloop<C, B, S, M>,
) -> bool {
    match msg {
        InputCaptureDBusToCalloop::UnregisterSession { .. } => false,
        InputCaptureDBusToCalloop::ActivateSession { session_id, .. } => {
            state.sessions@.contains_key(session_id) || state.input_suppressed
        },
        InputCaptureDBusToCalloop::DeactivateSession { session_id, .. }
        | InputCaptureDBusToCalloop::EisInputEvent {
            session_id,
            request: EisRequest::DeviceStopEmulating,
        } => !state.sessions@.contains_key(session_id) && state.input_suppressed,
        InputCaptureDBusToCalloop::EisInputEvent {
            request: EisRequest::DeviceStartEmulating,
            ..
        } => true,
        _ => state.input_suppressed,
    }
}

/// What the compositor does to its pointer, which is at `at`, on account of
/// `request`.
pub open spec fn pointer_effects<C, M>(request: EisRequest, at: Position) -> Seq<Effect<C, M>> {
    match request {
        EisRequest::PointerMotion { dx, dy } => seq![
            Effect::MovePointer {
                location: Position { x: at.x.plus(dx), y: at.y.plus(dy) },
                enter_surface: false,
            },
            Effect::PointerFrame,
            Effect::QueueRedraw,
        ],
        EisRequest::PointerMotionAbsolute { dx_absolute, dy_absolute } => seq![
            Effect::MovePointer {
                location: Position { x: dx_absolute, y: dy_absolute },
                enter_surface: true,
            },
            Effect::PointerFrame,
            Effect::QueueRedraw,
        ],
        EisRequest::Button { button, state } => seq![
            Effect::PointerButton { button, state: state.for_seat() },
            Effect::PointerFrame,
        ],
        _ => seq![],
    }
}

/// Whether `effects` is what the compositor does on account of `msg`.
pub open spec fn effects_match<C, B, S, M>(
    effects: Seq<Effect<C, M>>,
    pointer: Option<Position>,
    msg: InputCaptureDBusToCalloop<C, B, S, M>,
) -> bool {
    match msg {
        InputCaptureDBusToCalloop::NewEisContext {
            session_id,
            ctx,
            screen_width,
            screen_height,
            event_sender,
            ..
        } => {
            &&& effects.len() == 1
            &&& effects[0] matches Effect::ServeEis {
                thread_name,
                session_id: id,
                ctx: c,
                screen_width: width,
                screen_height: height,
                event_sender: sender,
            } && thread_name@ == eis_thread_text(session_id as nat) && id == session_id && c == ctx
                && width == screen_width && height == screen_height && sender == event_sender
        },
        InputCaptureDBusToCalloop::EisInputEvent { request, .. } => match pointer {
            Some(at) => effects =~= pointer_effects::<C, M>(request, at),
            None => effects =~= Seq::empty(),
        },
        _ => effects =~= Seq::empty(),
    }
}

impl<B, S, E> State<B, S, E> {
    /// The session and the barrier that the motion from `old_pos` to `new_pos`
    /// crosses, with the new position. `tables` holds the barriers of the
    /// sessions at the moment. Sessions that are disabled or capturing take no
    /// part, and while input is held back nobody does. Where several barriers
    /// are crossed, any of them is reported.
    pub fn check_barrier_crossing(
        &self,
        old_pos: Position,
        new_pos: Position,
        tables: &BarrierTables,
    ) -> (r: Option<(usize, u32, Position)>)
        ensures
            self.input_capture.reports(tables@, old_pos, new_pos, r),
    {
        if self.input_capture.sessions.is_empty() {
            return None;
        }
        if self.input_capture.input_suppressed {
            return None;
        }
        for entry in it: self.input_capture.sessions.iter()
            invariant
                !self.input_capture.input_suppressed,
                forall|i: int|
                    0 <= i < it.index() ==> self.input_capture.uncrossed(
                        tables@,
                        old_pos,
                        new_pos,
                        *(#[trigger] it.seq()[i]).0,
                    ),
        {
            let (session_id, session) = entry;
            if session.enabled && !session.activated {
                if let Some(table) = tables.get(session_id) {
                    if let Some(barrier_id) = first_crossed(table, &old_pos, &new_pos) {
                        return Some((*session_id, barrier_id, new_pos));
                    }
                }
            }
        }
        None
    }

    /// Takes a message from the D-Bus side, and says what is to be done on its
    /// account, in order.
    pub fn on_input_capture_msg_from_dbus<C, M>(
        &mut self,
        msg: InputCaptureDBusToCalloop<C, B, S, M>,
    ) -> (effects: Vec<Effect<C, M>>)
        requires
            old(self).input_capture.has_room_for(msg),
        ensures
            old(self).input_capture.leads_to(msg, final(self).input_capture),
            final(self).pointer == old(self).pointer,
            effects_match(effects@, old(self).pointer, msg),
            old(self).input_capture.wf() ==> final(self).input_capture.wf(),
    {
        match msg {
            InputCaptureDBusToCalloop::RemoveEisHandler { session_id: _ } => Vec::new(),
            InputCaptureDBusToCalloop::NewEisContext {
                session_id,
                ctx,
                exposed_device_types: _,
                screen_width,
                screen_height,
                event_sender,
            } => {
                if let Some(mut session) = self.input_capture.sessions.remove(&session_id) {
                    session.enabled = true;
                    self.input_capture.sessions.insert(session_id, session);
                }
                let mut effects: Vec<Effect<C, M>> = Vec::new();
                effects.push(
                    Effect::ServeEis {
                        thread_name: eis_thread_name(session_id),
                        session_id,
                        ctx,
                        screen_width,
                        screen_height,
                        event_sender,
                    },
                );
                effects
            },
            InputCaptureDBusToCalloop::RegisterSession { session_id, barriers, signal_sender } => {
                self.input_capture.sessions.insert(
                    session_id,
                    ActiveSession {
                        session_id,
                        barriers,
                        signal_emitter: None,
                        signal_sender: Some(signal_sender),
                        enabled: true,
                        activated: false,
                        current_activation_id: 0,
                        current_barrier_id: None,
                    },
                );
                Vec::new()
            },
            InputCaptureDBusToCalloop::UnregisterSession { session_id } => {
                self.input_capture.sessions.remove(&session_id);
                self.input_capture.input_suppressed = false;
                Vec::new()
            },
            InputCaptureDBusToCalloop::ActivateSession {
                session_id,
                barrier_id,
                cursor_position: _,
            } => {
                if let Some(mut session) = self.input_capture.sessions.remove(&session_id) {
                    session.activated = true;
                    session.current_activation_id = session.current_activation_id + 1;
                    session.current_barrier_id = Some(barrier_id);
                    self.input_capture.sessions.insert(session_id, session);
                    self.input_capture.input_suppressed = true;
                }
                Vec::new()
            },
            InputCaptureDBusToCalloop::DeactivateSession { session_id, cursor_position: _ } => {
                self.input_capture.release(session_id);
                Vec::new()
            },
            InputCaptureDBusToCalloop::EisInputEvent { session_id, request } => {
                let mut effects: Vec<Effect<C, M>> = Vec::new();
                match request {
                    EisRequest::PointerMotion { dx, dy } => {
                        if let Some(current) = self.pointer {
                            let location = Position {
                                x: current.x.add(&dx),
                                y: current.y.add(&dy),
                            };
                            effects.push(Effect::MovePointer { location, enter_surface: false });
                            effects.push(Effect::PointerFrame);
                            effects.push(Effect::QueueRedraw);
                        }
                    },
                    EisRequest::PointerMotionAbsolute { dx_absolute, dy_absolute } => {
                        if self.pointer.is_some() {
                            let location = Position { x: dx_absolute, y: dy_absolute };
                            effects.push(Effect::MovePointer { location, enter_surface: true });
                            effects.push(Effect::PointerFrame);
                            effects.push(Effect::QueueRedraw);
                        }
                    },
                    EisRequest::Button { button, state } => {
                        if self.pointer.is_some() {
                            let state = state.button_state();
                            effects.push(Effect::PointerButton { button, state });
                            effects.push(Effect::PointerFrame);
                        }
                    },
                    EisRequest::DeviceStartEmulating => {
                        self.input_capture.input_suppressed = true;
                    },
                    EisRequest::DeviceStopEmulating => {
                        self.input_capture.release(session_id);
                    },
                    _ => {},
                }
                effects
            },
        }
    }
}

impl<B, S, E> InputCaptureState<B, S, E> {
    /// Ends the capturing of the session `session_id`, if there is such a
    /// session, and lets local input through again.
    fn release(&mut self, session_id: usize)
        ensures
            old(self).sessions@.contains_key(session_id) ==> {
                &&& final(self).sessions@ == old(self).sessions@.insert(
                    session_id,
                    old(self).sessions@[session_id].released(),
                )
                &&& !final(self).input_suppressed
            },
            !old(self).sessions@.contains_key(session_id) ==> {
                &&& final(self).sessions@ == old(self).sessions@
                &&& final(self).input_suppressed == old(self).input_suppressed
            },
    {
        if let Some(mut session) = self.sessions.remove(&session_id) {
            session.activated = false;
            session.current_barrier_id = None;
            self.sessions.insert(session_id, session);
            self.input_suppressed = false;
        }
    }
}

/// The session that a message is about.
pub open spec fn session_of<C, B, S, M>(msg: InputCaptureDBusToCalloop<C, B, S, M>) -> usize {
    match msg {
        InputCaptureDBusToCalloop::RemoveEisHandler { session_id } => session_id,
        InputCaptureDBusToCalloop::NewEisContext { session_id, .. } => session_id,
        InputCaptureDBusToCalloop::RegisterSession { session_id, .. } => session_id,
        InputCaptureDBusToCalloop::UnregisterSession { session_id } => session_id,
        InputCaptureDBusToCalloop::ActivateSession { session_id, .. } => session_id,
        InputCaptureDBusToCalloop::DeactivateSession { session_id, .. } => session_id,
        InputCaptureDBusToCalloop::EisInputEvent { session_id, .. } => session_id,
    }
}

/// Every message keeps the state well formed.
pub proof fn law_messages_keep_wf<C, B, S, M, E>(
    before: InputCaptureState<B, S, E>,
    msg: InputCaptureDBusToCalloop<C, B, S, M>,
    after: InputCaptureState<B, S, E>,
)
    requires
        before.wf(),
        before.leads_to(msg, after),
    ensures
        after.wf(),
{
}

/// A message about one session leaves every other session as it is.
pub proof fn law_other_sessions_keep<C, B, S, M, E>(
    before: InputCaptureState<B, S, E>,
    msg: InputCaptureDBusToCalloop<C, B, S, M>,
    after: InputCaptureState<B, S, E>,
    other: usize,
)
    requires
        before.leads_to(msg, after),
        other != session_of(msg),
    ensures
        after.sessions@.contains_key(other) == before.sessions@.contains_key(other),
        before.sessions@.contains_key(other) ==> after.sessions@[other] == before.sessions@[other],
{
}

/// Only registration makes a session known, and only its end makes it unknown.
pub proof fn law_sessions_come_and_go<C, B, S, M, E>(
    before: InputCaptureState<B, S, E>,
    msg: InputCaptureDBusToCalloop<C, B, S, M>,
    after: InputCaptureState<B, S, E>,
    session_id: usize,
)
    requires
        before.leads_to(msg, after),
    ensures
        after.sessions@.contains_key(session_id) && !before.sessions@.contains_key(session_id)
            ==> msg is RegisterSession && session_of(msg) == session_id,
        before.sessions@.contains_key(session_id) && !after.sessions@.contains_key(session_id)
            ==> msg is UnregisterSession && session_of(msg) == session_id,
{
}

/// An EIS context enables the session that it is for, and changes nothing else.
pub proof fn law_eis_context_enables<C, B, S, M, E>(
    before: InputCaptureState<B, S, E>,
    session_id: usize,
    ctx: C,
    exposed_device_types: u32,
    screen_width: u32,
    screen_height: u32,
    event_sender: M,
    after: InputCaptureState<B, S, E>,
)
    requires
        before.sessions@.contains_key(session_id),
        before.leads_to(
            InputCaptureDBusToCalloop::<C, B, S, M>::NewEisContext {
                session_id,
                ctx,
                exposed_device_types,
                screen_width,
                screen_height,
                event_sender,
            },
            after,
        ),
    ensures
        after.sessions@[session_id].enabled,
        after.sessions@ == before.sessions@.insert(
            session_id,
            ActiveSession { enabled: true, ..before.sessions@[session_id] },
        ),
        after.input_suppressed == before.input_suppressed,
{
}

/// A session that begins to capture holds local input back, so that no crossing
/// is reported from then on.
pub proof fn law_capturing_silences_barriers<C, B, S, M, E>(
    before: InputCaptureState<B, S, E>,
    session_id: usize,
    barrier_id: u32,
    cursor_position: Position,
    after: InputCaptureState<B, S, E>,
    tables: Map<usize, HashMap<u32, Barrier>>,
    old: Position,
    new: Position,
    report: Option<(usize, u32, Position)>,
)
    requires
        before.sessions@.contains_key(session_id),
        before.leads_to(
            InputCaptureDBusToCalloop::<C, B, S, M>::ActivateSession {
                session_id,
                barrier_id,
                cursor_position,
            },
            after,
        ),
        after.reports(tables, old, new, report),
    ensures
        after.input_suppressed,
        report is None,
{
}

/// A reported crossing is of a session that is enabled and not capturing, and
/// of a barrier that the session has.
pub proof fn law_reports_name_armed_sessions<B, S, E>(
    state: InputCaptureState<B, S, E>,
    tables: Map<usize, HashMap<u32, Barrier>>,
    old: Position,
    new: Position,
    report: Option<(usize, u32, Position)>,
)
    requires
        state.reports(tables, old, new, report),
    ensures
        report matches Some((session_id, barrier_id, position)) ==> {
            &&& state.sessions@.contains_key(session_id)
            &&& state.sessions@[session_id].enabled
            &&& !state.sessions@[session_id].activated
            &&& tables.contains_key(session_id)
            &&& tables[session_id]@.contains_key(barrier_id)
            &&& position == new
        },
{
}

/// While local input gets through, a crossing of a barrier of a session that
/// was just registered does not go unreported.
pub proof fn law_registered_barriers_are_watched<C, B, S, M, E>(
    before: InputCaptureState<B, S, E>,
    session_id: usize,
    barriers: B,
    signal_sender: S,
    after: InputCaptureState<B, S, E>,
    tables: Map<usize, HashMap<u32, Barrier>>,
    barrier_id: u32,
    old: Position,
    new: Position,
    report: Option<(usize, u32, Position)>,
)
    requires
        !before.input_suppressed,
        before.leads_to(
            InputCaptureDBusToCalloop::<C, B, S, M>::RegisterSession {
                session_id,
                barriers,
                signal_sender,
            },
            after,
        ),
        tables.contains_key(session_id),
        tables[session_id]@.contains_key(barrier_id),
        tables[session_id]@[barrier_id].crossed(old, new),
        after.reports(tables, old, new, report),
    ensures
        report is Some,
{
    assert(after.crossing(tables, old, new, session_id, barrier_id));
}

/// A reported crossing can be acted on: the session then captures at the
/// barrier that was reported, and its activation is counted.
pub proof fn law_reported_session_captures<C, B, S, M, E>(
    before: InputCaptureState<B, S, E>,
    tables: Map<usize, HashMap<u32, Barrier>>,
    old: Position,
    new: Position,
    session_id: usize,
    barrier_id: u32,
    after: InputCaptureState<B, S, E>,
)
    requires
        before.reports(tables, old, new, Some((session_id, barrier_id, new))),
        before.sessions@[session_id].current_activation_id < u32::MAX,
        before.leads_to(
            InputCaptureDBusToCalloop::<C, B, S, M>::ActivateSession {
                session_id,
                barrier_id,
                cursor_position: new,
            },
            after,
        ),
    ensures
        after.sessions@.contains_key(session_id),
        after.sessions@[session_id].activated,
        after.sessions@[session_id].current_barrier_id == Some(barrier_id),
        after.sessions@[session_id].current_activation_id
            == before.sessions@[session_id].current_activation_id + 1,
        after.input_suppressed,
{
}

/// Deactivating a session undoes its activation, except that the activation
/// stays counted.
pub proof fn law_deactivation_undoes_activation<C, B, S, M, E>(
    before: InputCaptureState<B, S, E>,
    session_id: usize,
    barrier_id: u32,
    cursor_position: Position,
    between: InputCaptureState<B, S, E>,
    leaving_position: Position,
    after: InputCaptureState<B, S, E>,
)
    requires
        before.wf(),
        !before.input_suppressed,
        before.sessions@.contains_key(session_id),
        !before.sessions@[session_id].activated,
        before.leads_to(
            InputCaptureDBusToCalloop::<C, B, S, M>::ActivateSession {
                session_id,
                barrier_id,
                cursor_position,
            },
            between,
        ),
        between.leads_to(
            InputCaptureDBusToCalloop::<C, B, S, M>::DeactivateSession {
                session_id,
                cursor_position: leaving_position,
            },
            after,
        ),
    ensures
        after.input_suppressed == before.input_suppressed,
        after.sessions@ == before.sessions@.insert(
            session_id,
            ActiveSession {
                current_activation_id: between.sessions@[session_id].current_activation_id,
                ..before.sessions@[session_id]
            },
        ),
{
    assert(after.sessions@ =~= before.sessions@.insert(
        session_id,
        ActiveSession {
            current_activation_id: between.sessions@[session_id].current_activation_id,
            ..before.sessions@[session_id]
        },
    ));
}

/// A client that stops emulating is deactivated, as if it had asked for it.
pub proof fn law_stop_emulating_deactivates<C, B, S, M, E>(
    before: InputCaptureState<B, S, E>,
    session_id: usize,
    cursor_position: Position,
    stopped: InputCaptureState<B, S, E>,
    deactivated: InputCaptureState<B, S, E>,
)
    requires
        before.leads_to(
            InputCaptureDBusToCalloop::<C, B, S, M>::EisInputEvent {
                session_id,
                request: EisRequest::DeviceStopEmulating,
            },
            stopped,
        ),
        before.leads_to(
            InputCaptureDBusToCalloop::<C, B, S, M>::DeactivateSession { session_id, cursor_position },
            deactivated,
        ),
    ensures
        stopped.sessions@ == deactivated.sessions@,
        stopped.input_suppressed == deactivated.input_suppressed,
{
}

/// The end of a session lets local input through and leaves nothing of the
/// session behind; what is left is what was there before its registration.
pub proof fn law_unregistration_undoes_registration<C, B, S, M, E>(
    before: InputCaptureState<B, S, E>,
    session_id: usize,
    barriers: B,
    signal_sender: S,
    between: InputCaptureState<B, S, E>,
    after: InputCaptureState<B, S, E>,
)
    requires
        !before.sessions@.contains_key(session_id),
        before.leads_to(
            InputCaptureDBusToCalloop::<C, B, S, M>::RegisterSession {
                session_id,
                barriers,
                signal_sender,
            },
            between,
        ),
        between.leads_to(
            InputCaptureDBusToCalloop::<C, B, S, M>::UnregisterSession { session_id },
            after,
        ),
    ensures
        after.sessions@ == before.sessions@,
        !after.input_suppressed,
{
    assert(after.sessions@ =~= before.sessions@);
}

/// Once a session was activated, messages other than those that end it or its
/// capturing, or register it anew, leave it capturing at the same barrier.
pub proof fn law_capturing_lasts<C, B, S, M, E>(
    before: InputCaptureState<B, S, E>,
    msg: InputCaptureDBusToCalloop<C, B, S, M>,
    after: InputCaptureState<B, S, E>,
    session_id: usize,
)
    requires
        before.leads_to(msg, after),
        before.sessions@.contains_key(session_id),
        before.sessions@[session_id].activated,
        session_of(msg) == session_id ==> !(msg is UnregisterSession) && !(
        msg is DeactivateSession) && !(msg is RegisterSession) && !(msg is ActivateSession),
        msg != (InputCaptureDBusToCalloop::<C, B, S, M>::EisInputEvent {
            session_id,
            request: EisRequest::DeviceStopEmulating,
        }),
    ensures
        after.sessions@.contains_key(session_id),
        after.sessions@[session_id].activated,
        after.sessions@[session_id].current_barrier_id
            == before.sessions@[session_id].current_barrier_id,
{
}

/// While no other session captures, a message keeps local input held back as
/// long as there is a session that captures.
pub proof fn law_captured_input_stays_back<C, B, S, M, E>(
    before: InputCaptureState<B, S, E>,
    msg: InputCaptureDBusToCalloop<C, B, S, M>,
    after: InputCaptureState<B, S, E>,
)
    requires
        before.holds_captured_input_back(),
        forall|id: usize| #[trigger] before.captures(id) ==> id == session_of(msg),
        before.leads_to(msg, after),
    ensures
        after.holds_captured_input_back(),
{
    assert forall|id: usize| #[trigger] after.captures(id) implies after.input_suppressed by {
        if id != session_of(msg) {
            assert(before.captures(id));
        } else {
            assert(before.captures(id) ==> before.input_suppressed);
        }
    }
}

/// Where sessions are activated as crossings are reported, one session captures
/// at a time.
pub proof fn law_one_session_captures<C, B, S, M, E>(
    before: InputCaptureState<B, S, E>,
    tables: Map<usize, HashMap<u32, Barrier>>,
    old: Position,
    new: Position,
    session_id: usize,
    barrier_id: u32,
    after: InputCaptureState<B, S, E>,
)
    requires
        before.holds_captured_input_back(),
        before.reports(tables, old, new, Some((session_id, barrier_id, new))),
        before.leads_to(
            InputCaptureDBusToCalloop::<C, B, S, M>::ActivateSession {
                session_id,
                barrier_id,
                cursor_position: new,
            },
            after,
        ),
    ensures
        forall|id: usize| #[trigger] after.captures(id) <==> id == session_id,
        after.holds_captured_input_back(),
{
    assert forall|id: usize| #[trigger] after.captures(id) <==> id == session_id by {
        assert(!before.captures(id));
    }
}

/// The activations of a session are counted: each adds one, and nothing else
/// changes the count while the session is registered.
pub proof fn law_activations_are_counted<C, B, S, M, E>(
    before: InputCaptureState<B, S, E>,
    msg: InputCaptureDBusToCalloop<C, B, S, M>,
    after: InputCaptureState<B, S, E>,
    session_id: usize,
)
    requires
        before.has_room_for(msg),
        before.leads_to(msg, after),
        before.sessions@.contains_key(session_id),
        after.sessions@.contains_key(session_id),
        !(msg is RegisterSession),
    ensures
        after.sessions@[session_id].current_activation_id
            == before.sessions@[session_id].current_activation_id + if msg is ActivateSession
            && session_of(msg) == session_id {
            1int
        } else {
            0int
        },
{
}

/// More barriers never hide a crossing: what is reported with some tables is
/// still a crossing with tables that hold more, and nothing is reported only
/// where nothing was before.
pub proof fn law_more_barriers_hide_nothing<B, S, E>(
    state: InputCaptureState<B, S, E>,
    tables: Map<usize, HashMap<u32, Barrier>>,
    larger: Map<usize, HashMap<u32, Barrier>>,
    old: Position,
    new: Position,
    report: Option<(usize, u32, Position)>,
    later_report: Option<(usize, u32, Position)>,
)
    requires
        forall|id: usize| #[trigger]
            tables.contains_key(id) ==> larger.contains_key(id) && tables[id]@.submap_of(
                larger[id]@,
            ),
        state.reports(tables, old, new, report),
        state.reports(larger, old, new, later_report),
    ensures
        report is Some ==> later_report is Some,
        report is Some ==> state.reports(larger, old, new, report),
{
    if let Some((session_id, barrier_id, position)) = report {
        assert(tables.contains_key(session_id));
        assert(tables[session_id]@.dom().contains(barrier_id));
        assert(state.crossing(larger, old, new, session_id, barrier_id));
    }
}

} // verus!
