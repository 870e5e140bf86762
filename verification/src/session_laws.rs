//! What a session grants and refuses, and what it is afterwards, over its fields.

use vstd::prelude::*;

use crate::barrier::Barrier;
use crate::error::CaptureError;
use crate::mutter_input_capture::id_after;
use crate::mutter_input_capture::law_session_paths_differ;
use crate::mutter_input_capture::refused_with;
use crate::mutter_input_capture::session_id_after;
use crate::mutter_input_capture::session_path_text;
use crate::mutter_input_capture::zone_of;
use crate::mutter_input_capture::zones_of;
use crate::mutter_input_capture::LogicalOutput;
use crate::mutter_input_capture::Session;
use crate::mutter_input_capture::SessionRegistry;
use crate::mutter_input_capture::SessionRequest;
use crate::mutter_input_capture::Zone;
use crate::text::decimal;

verus! {

/// Whether two sessions have the same identity, zone set, activation counter and
/// barriers.
pub open spec fn same_but_for_flags(a: Session, b: Session) -> bool {
    &&& a.id == b.id
    &&& a.id_str == b.id_str
    &&& a.zone_set == b.zone_set
    &&& a.activation_id == b.activation_id
    &&& a.barriers@ == b.barriers@
}

/// A session is started exactly if it is not active, and then is active.
pub proof fn law_start_in_full(before: Session, refused: Option<CaptureError>, after: Session)
    requires
        before.answers(SessionRequest::Start, refused, after),
    ensures
        refused is None <==> !before.active,
        before.active ==> refused == Some(CaptureError::AlreadyStarted),
        after.active,
        after.enabled == before.enabled,
        after.using_eis == before.using_eis,
        same_but_for_flags(before, after),
{
}

/// A session is stopped exactly if it is active, and then is neither active nor
/// enabled.
pub proof fn law_stop_in_full(before: Session, refused: Option<CaptureError>, after: Session)
    requires
        before.answers(SessionRequest::Stop, refused, after),
    ensures
        refused is None <==> before.active,
        !before.active ==> refused == Some(CaptureError::NotStarted),
        !after.active,
        before.active ==> !after.enabled,
        !before.active ==> after.enabled == before.enabled,
        after.using_eis == before.using_eis,
        same_but_for_flags(before, after),
{
}

/// A session is closed in any case, and then is neither active nor enabled.
pub proof fn law_close_in_full(before: Session, refused: Option<CaptureError>, after: Session)
    requires
        before.answers(SessionRequest::Close, refused, after),
    ensures
        refused is None,
        !after.active,
        !after.enabled,
        after.using_eis == before.using_eis,
        same_but_for_flags(before, after),
{
}

/// A session is enabled exactly if it is active and has an EIS connection,
/// whatever its barriers and its zone set, and then is enabled.
pub proof fn law_enable_in_full(before: Session, refused: Option<CaptureError>, after: Session)
    requires
        before.answers(SessionRequest::Enable, refused, after),
    ensures
        refused is None <==> before.active && before.using_eis,
        !before.active ==> refused == Some(CaptureError::NotStarted),
        before.active && !before.using_eis ==> refused == Some(CaptureError::EisNotConnected),
        refused is None ==> after.enabled,
        refused is Some ==> after.enabled == before.enabled,
        after.active == before.active,
        after.using_eis == before.using_eis,
        same_but_for_flags(before, after),
{
}

/// A session is disabled exactly if it is active, and then is not enabled.
pub proof fn law_disable_in_full(before: Session, refused: Option<CaptureError>, after: Session)
    requires
        before.answers(SessionRequest::Disable, refused, after),
    ensures
        refused is None <==> before.active,
        !before.active ==> refused == Some(CaptureError::NotStarted),
        refused is None ==> !after.enabled,
        refused is Some ==> after.enabled == before.enabled,
        after.active == before.active,
        after.using_eis == before.using_eis,
        same_but_for_flags(before, after),
{
}

/// Capturing is turned on and off again, and on after it was off.
pub proof fn law_enable_and_disable_alternate(
    before: Session,
    enabled: Session,
    disabled: Session,
    again: Session,
)
    requires
        before.active,
        before.using_eis,
        before.answers(SessionRequest::Enable, None, enabled),
        enabled.answers(SessionRequest::Disable, None, disabled),
        disabled.answers(SessionRequest::Enable, None, again),
    ensures
        enabled.enabled,
        !disabled.enabled,
        again.enabled,
        again.active,
        again.using_eis,
        same_but_for_flags(before, again),
{
}

/// Barriers are set exactly if the session is active and they are for the current
/// zone set, and then the session is not enabled; its own barriers stay.
pub proof fn law_set_pointer_barriers_in_full(
    before: Session,
    zone_set: u32,
    refused: Option<CaptureError>,
    after: Session,
)
    requires
        before.answers(SessionRequest::SetPointerBarriers { zone_set }, refused, after),
    ensures
        refused is None <==> before.active && zone_set == before.zone_set,
        !before.active ==> refused == Some(CaptureError::NotStarted),
        before.active && zone_set != before.zone_set ==> refused == Some(
            CaptureError::ZoneSetMismatch { expected: before.zone_set, got: zone_set },
        ),
        refused is None ==> !after.enabled,
        refused is Some ==> after.enabled == before.enabled,
        after.active == before.active,
        after.using_eis == before.using_eis,
        same_but_for_flags(before, after),
{
}

/// A barrier is added exactly if the session is active, wherever it lies and
/// whatever barriers there are; then it is there with its position, the others
/// stay, and nothing else changes.
pub proof fn law_add_barrier_in_full(
    before: Session,
    id: u32,
    x1: i32,
    y1: i32,
    x2: i32,
    y2: i32,
    refused: Option<CaptureError>,
    after: Session,
    other: u32,
)
    requires
        before.answers(SessionRequest::AddBarrier { id, x1, y1, x2, y2 }, refused, after),
        other != id,
    ensures
        refused is None <==> before.active,
        !before.active ==> refused == Some(CaptureError::NotStarted) && after.barriers@
            == before.barriers@,
        before.active ==> {
            let barrier = after.barriers@[id];
            &&& after.barriers@.contains_key(id)
            &&& barrier.id == id
            &&& (barrier.x1, barrier.y1) == (x1, y1)
            &&& (barrier.x2, barrier.y2) == (x2, y2)
            &&& after.barriers@.contains_key(other) == before.barriers@.contains_key(other)
            &&& before.barriers@.contains_key(other) ==> after.barriers@[other]
                == before.barriers@[other]
        },
        after.active == before.active,
        after.enabled == before.enabled,
        after.using_eis == before.using_eis,
        after.id == before.id,
        after.id_str == before.id_str,
        after.zone_set == before.zone_set,
        after.activation_id == before.activation_id,
{
}

/// The barriers are cleared exactly if the session is active, all of them, and
/// nothing else changes.
pub proof fn law_clear_barriers_in_full(
    before: Session,
    refused: Option<CaptureError>,
    after: Session,
    id: u32,
)
    requires
        before.answers(SessionRequest::ClearBarriers, refused, after),
    ensures
        refused is None <==> before.active,
        !before.active ==> refused == Some(CaptureError::NotStarted) && after.barriers@
            == before.barriers@,
        before.active ==> !after.barriers@.contains_key(id),
        after.active == before.active,
        after.enabled == before.enabled,
        after.using_eis == before.using_eis,
        after.id == before.id,
        after.id_str == before.id_str,
        after.zone_set == before.zone_set,
        after.activation_id == before.activation_id,
{
}

/// The client's word that it released the input is taken exactly if the session is
/// active, and changes nothing.
pub proof fn law_release_in_full(before: Session, refused: Option<CaptureError>, after: Session)
    requires
        before.answers(SessionRequest::Release, refused, after),
    ensures
        refused is None <==> before.active,
        before.refusal(SessionRequest::Release) is None <==> before.active,
        !before.active ==> refused == Some(CaptureError::NotStarted),
        after.active == before.active,
        after.enabled == before.enabled,
        after.using_eis == before.using_eis,
        same_but_for_flags(before, after),
{
}

/// The EIS connection is granted exactly if the session is active and has none,
/// and then it has one; nothing else changes.
pub proof fn law_connect_in_full(before: Session, refused: Option<CaptureError>, after: Session)
    requires
        before.answers(SessionRequest::ConnectToEis, refused, after),
    ensures
        refused is None <==> before.active && !before.using_eis,
        !before.active ==> refused == Some(CaptureError::NotStarted),
        before.active && before.using_eis ==> refused == Some(CaptureError::EisAlreadyConnected),
        refused is None ==> after.using_eis,
        refused is Some ==> after.using_eis == before.using_eis,
        after.active == before.active,
        after.enabled == before.enabled,
        same_but_for_flags(before, after),
{
}

/// The usual course works: a session that is active, has no EIS connection and is
/// not enabled is connected, given a barrier and enabled.
pub proof fn law_usual_course_enables(
    new: Session,
    connected: Session,
    id: u32,
    x1: i32,
    y1: i32,
    x2: i32,
    y2: i32,
    watching: Session,
    refused: Option<CaptureError>,
    enabled: Session,
)
    requires
        new.active,
        !new.using_eis,
        new.answers(SessionRequest::ConnectToEis, new.refusal(SessionRequest::ConnectToEis), connected),
        connected.answers(
            SessionRequest::AddBarrier { id, x1, y1, x2, y2 },
            connected.refusal(SessionRequest::AddBarrier { id, x1, y1, x2, y2 }),
            watching,
        ),
        watching.answers(SessionRequest::Enable, refused, enabled),
    ensures
        refused is None,
        enabled.enabled,
        enabled.active,
        enabled.using_eis,
        enabled.barriers@.contains_key(id),
        enabled.barriers@[id] == (Barrier { id, x1, y1, x2, y2 }),
{
}

/// A session that is stopped from within is neither active nor enabled, if it was
/// active; nothing else changes.
pub proof fn law_stopped_in_full(session: Session)
    ensures
        !session.stopped().active,
        session.active ==> !session.stopped().enabled,
        !session.active ==> session.stopped().enabled == session.enabled,
        session.stopped().using_eis == session.using_eis,
        same_but_for_flags(session, session.stopped()),
{
}

/// An activation that is tried on an active session is counted by one, up to the
/// greatest number and from there to zero; on another session it is not, and
/// nothing else changes.
pub proof fn law_tried_in_full(session: Session)
    ensures
        session.active && session.activation_id < u32::MAX ==> session.tried().activation_id
            == session.activation_id + 1,
        session.active && session.activation_id == u32::MAX ==> session.tried().activation_id == 0,
        !session.active ==> session.tried().activation_id == session.activation_id,
        session.tried().active == session.active,
        session.tried().enabled == session.enabled,
        session.tried().using_eis == session.using_eis,
        session.tried().id == session.id,
        session.tried().id_str == session.id_str,
        session.tried().zone_set == session.zone_set,
        session.tried().barriers@ == session.barriers@,
{
}

/// An activation can be tried on a session exactly if it is registered and active.
pub proof fn law_only_active_sessions_are_tried<R>(
    registry: SessionRegistry<R>,
    session_id: usize,
    active: bool,
)
    ensures
        registry.can_try((session_id, active)) <==> registry.sessions@.contains_key(session_id)
            && active,
{
}

/// Identifiers count up by one, and start again from zero after the greatest.
pub proof fn law_identifiers_count_up(barrier: u32, session: usize)
    ensures
        barrier < u32::MAX ==> id_after(barrier) == barrier + 1,
        barrier == u32::MAX ==> id_after(barrier) == 0,
        session < usize::MAX ==> session_id_after(session) == session + 1,
        session == usize::MAX ==> session_id_after(session) == 0,
{
}

/// The zones are those of the outputs that show a part of the desktop, one each
/// and in order: more outputs add their zones at the end, an output that shows
/// nothing adds none, and one that shows something adds its size and place.
pub proof fn law_zones_follow_outputs(
    outputs: Seq<Option<LogicalOutput>>,
    more: Seq<Option<LogicalOutput>>,
    output: LogicalOutput,
)
    ensures
        zones_of(Seq::<Option<LogicalOutput>>::empty()) == Seq::<Zone>::empty(),
        zones_of(outputs.push(None)) == zones_of(outputs),
        zones_of(outputs.push(Some(output))) == zones_of(outputs).push(
            Zone(output.width, output.height, output.x, output.y),
        ),
        zones_of(outputs + more) == zones_of(outputs) + zones_of(more),
    decreases more.len(),
{
    assert(outputs.push(None).drop_last() =~= outputs);
    assert(outputs.push(Some(output)).drop_last() =~= outputs);
    assert(zone_of(output) == Zone(output.width, output.height, output.x, output.y));
    if more.len() == 0 {
        assert(outputs + more =~= outputs);
        assert(zones_of(outputs) + zones_of(more) =~= zones_of(outputs));
    } else {
        law_zones_follow_outputs(outputs, more.drop_last(), output);
        assert((outputs + more).drop_last() =~= outputs + more.drop_last());
        assert((outputs + more).last() == more.last());
        match more.last() {
            Some(last) => {
                assert(zones_of(outputs) + zones_of(more.drop_last()).push(zone_of(last)) =~= (
                zones_of(outputs) + zones_of(more.drop_last())).push(zone_of(last)));
            },
            None => {},
        }
    }
}

/// The object of a session stands below the path of input capture, under the
/// letter u and the session's number in decimal; different numbers have different
/// paths.
pub proof fn law_session_paths(a: nat, b: nat)
    ensures
        session_path_text(a) == "/org/gnome/Mutter/InputCapture/Session"@ + "/u"@ + decimal(a),
        a != b ==> session_path_text(a) != session_path_text(b),
{
    if a != b {
        law_session_paths_differ(a, b);
    }
}

/// A session is well formed exactly where its text is its number, it is enabled
/// only while it is active and connected, and barriers go by their identifiers.
pub proof fn law_well_formed_sessions(session: Session, id: u32)
    requires
        session.wf(),
    ensures
        session.id_str@ == decimal(session.id as nat),
        session.enabled ==> session.active,
        session.enabled ==> session.using_eis,
        session.barriers@.contains_key(id) ==> session.barriers@[id].id == id,
{
}

/// A result that is no error was not refused, and one that is was refused with
/// that error.
pub proof fn law_refusals_are_errors<T>(value: T, error: CaptureError)
    ensures
        refused_with(Ok::<T, CaptureError>(value)) is None,
        refused_with(Err::<T, CaptureError>(error)) == Some(error),
{
}

/// The identifiers of a session's barriers come before a number exactly if each
/// of them is less.
pub proof fn law_preceding_identifiers(session: Session, next: u32, id: u32)
    ensures
        session.barriers_precede(next) && session.barriers@.contains_key(id) ==> id < next,
        session.barriers_precede(next) ==> !session.barriers@.contains_key(next),
        session.barriers@ == Map::<u32, Barrier>::empty() ==> session.barriers_precede(next),
{
}

} // verus!
