//! Carrying a dispatched request through, and what the client is told.

use crate::appstate::{AppState, IpAddr};
use crate::backend::BackendStatus;
use crate::delivery::{
    body_part, can_happen, first_reply, handle_model_not_found, next_step, request_url, Answer,
    DispatchAction, DispatchEvent, DispatchPhase, DispatchRun, FirstReply, ResponsePart, Step, Tally,
};
use crate::json::{json_single_member, json_string_member};
use crate::laws::number;
use vstd::prelude::*;
use vstd::utf8::encode_utf8;

verus! {

/// Whether a user is shut out: blocked by name, or last seen at a blocked address.
pub open spec fn is_banned<R>(state: AppState<R>, user: Seq<char>) -> bool {
    ||| state.blocked_users@.contains(user)
    ||| exists|ip: IpAddr|
        state.user_ips@.dom().contains(user) && state.user_ips@[user] == ip
            && #[trigger] state.blocked_ips@.contains(ip)
}

/// `after` counts `more` more for `user` than `before`, and as much for everybody else.
pub open spec fn counts_more(
    before: Map<Seq<char>, usize>,
    after: Map<Seq<char>, usize>,
    user: Seq<char>,
    more: int,
) -> bool {
    forall|u: Seq<char>| #[trigger]
        number(after, u) == number(before, u) + if u == user {
            more
        } else {
            0
        }
}

/// `after` counts one less for `user` than `before`, not below zero, and as much for everybody else.
pub open spec fn counts_less(
    before: Map<Seq<char>, usize>,
    after: Map<Seq<char>, usize>,
    user: Seq<char>,
) -> bool {
    forall|u: Seq<char>| #[trigger]
        number(after, u) == if u == user && number(before, u) > 0 {
            number(before, u) - 1
        } else {
            number(before, u)
        }
}

/// Whether a backend has given up one request, counted under `model` where there is one.
pub open spec fn gave_up(
    before: BackendStatus,
    after: BackendStatus,
    model: Option<String>,
) -> bool {
    &&& after.active_requests == if before.active_requests > 0 {
        before.active_requests - 1
    } else {
        0
    }
    &&& after.processed_count == before.processed_count + 1
    &&& model matches Some(m) ==> counts_less(before.active_models@, after.active_models@, m@)
        && counts_more(before.processed_models@, after.processed_models@, m@, 1)
    &&& model is None ==> after.active_models == before.active_models && after.processed_models
        == before.processed_models
    &&& after == (BackendStatus {
        active_requests: after.active_requests,
        processed_count: after.processed_count,
        active_models: after.active_models,
        processed_models: after.processed_models,
        ..before
    })
}

/// Whether the backend of `run`, and no other, has given up one request.
pub open spec fn backend_released<R>(
    before: AppState<R>,
    after: AppState<R>,
    run: DispatchRun,
) -> bool {
    let i = run.backend_idx as int;
    &&& after.backends@.len() == before.backends@.len()
    &&& gave_up(before.backends@[i], after.backends@[i], run.resolved_model)
    &&& forall|j: int|
        0 <= j < before.backends@.len() && j != i ==> #[trigger] after.backends@[j]
            == before.backends@[j]
}

/// What no event of a dispatched request changes.
pub open spec fn undisturbed<R>(before: AppState<R>, after: AppState<R>) -> bool {
    after == (AppState {
        processing_counts: after.processing_counts,
        processed_counts: after.processed_counts,
        dropped_counts: after.dropped_counts,
        backends: after.backends,
        ..before
    })
}

/// A request whose user is blocked, or whose client has gone, is not sent: it is dropped and its
/// backend released. Any other request is sent and counts as in progress.
pub proof fn law_started<R>(
    run: &mut DispatchRun,
    state: &mut AppState<R>,
    responder_closed: bool,
    r: DispatchAction,
)
    requires
        call_ensures(
            DispatchRun::dispatch_task::<R>,
            (run, state, DispatchEvent::Started { responder_closed }),
            r,
        ),
        old(run).phase == DispatchPhase::Starting,
        old(run).backend_idx < old(state).backends@.len(),
        number(old(state).dropped_counts@, old(run).user_id@) < usize::MAX,
        number(old(state).processing_counts@, old(run).user_id@) < usize::MAX,
        old(run).resolved_model matches Some(m) ==> number(
            old(state).backends@[old(run).backend_idx as int].processed_models@,
            m@,
        ) < usize::MAX,
    ensures
        ({
            let user = old(run).user_id@;
            let before = *old(state);
            let after = *final(state);
            &&& undisturbed(before, after)
            &&& counts_more(before.processed_counts@, after.processed_counts@, user, 0)
            &&& if responder_closed || is_banned(before, user) {
                &&& r == DispatchAction::Finish
                &&& final(run).phase == DispatchPhase::Finished
                &&& counts_more(before.dropped_counts@, after.dropped_counts@, user, 1)
                &&& counts_more(before.processing_counts@, after.processing_counts@, user, 0)
                &&& backend_released(before, after, *old(run))
            } else {
                &&& r == DispatchAction::SendRequest
                &&& final(run).phase == DispatchPhase::AwaitingResponse
                &&& counts_more(before.dropped_counts@, after.dropped_counts@, user, 0)
                &&& counts_more(before.processing_counts@, after.processing_counts@, user, 1)
                &&& after.backends == before.backends
            }
        }),
{
    let user = old(run).user_id@;
    let before = *old(state);
    if is_banned(before, user) && !before.blocked_users@.contains(user) {
        assert(before.blocked_ips@.contains(before.user_ips@[user]));
    }
    if before.shuts_out(user) && !before.blocked_users@.contains(user) {
        let ip = before.user_ips@[user];
        assert(before.blocked_ips@.contains(ip));
    }
    assert(before.shuts_out(user) <==> is_banned(before, user));
}

/// An answer of the backend is relayed, its failure reported, and what the client took is followed
/// by the next chunk; nothing is counted meanwhile.
pub proof fn law_under_way<R>(
    run: &mut DispatchRun,
    state: &mut AppState<R>,
    event: DispatchEvent,
    r: DispatchAction,
)
    requires
        call_ensures(DispatchRun::dispatch_task::<R>, (run, state, event), r),
        old(run).phase != DispatchPhase::Starting,
        event == DispatchEvent::Responded || event == DispatchEvent::Failed || event
            == DispatchEvent::Delivered,
    ensures
        event == DispatchEvent::Responded ==> r == DispatchAction::RelayStatus && final(run).phase
            == DispatchPhase::RelayingStatus,
        event == DispatchEvent::Failed ==> r == DispatchAction::RelayError && final(run).phase
            == DispatchPhase::ReportingFailure,
        event == DispatchEvent::Delivered ==> r == DispatchAction::RelayNextChunk
            && final(run).phase == DispatchPhase::RelayingBody,
        final(state).backends == old(state).backends,
        final(state).processing_counts@ == old(state).processing_counts@,
        final(state).processed_counts@ == old(state).processed_counts@,
        final(state).dropped_counts@ == old(state).dropped_counts@,
        undisturbed(*old(state), *final(state)),
        final(run).user_id == old(run).user_id,
        final(run).backend_idx == old(run).backend_idx,
        final(run).resolved_model == old(run).resolved_model,
{
}

/// A request ends once its body has ended, its client takes nothing more, or its failure has been
/// reported: its backend is released and it is no longer in progress. It counts as processed when
/// its body ended, as dropped after a failure or when the client left the body, and as neither when
/// the client did not take the status.
pub proof fn law_ended<R>(
    run: &mut DispatchRun,
    state: &mut AppState<R>,
    event: DispatchEvent,
    r: DispatchAction,
)
    requires
        call_ensures(DispatchRun::dispatch_task::<R>, (run, state, event), r),
        can_happen(old(run).phase, event),
        event == DispatchEvent::Ended || event == DispatchEvent::Refused || event
            == DispatchEvent::Reported,
        old(run).backend_idx < old(state).backends@.len(),
        number(old(state).processed_counts@, old(run).user_id@) < usize::MAX,
        number(old(state).dropped_counts@, old(run).user_id@) < usize::MAX,
        old(run).resolved_model matches Some(m) ==> number(
            old(state).backends@[old(run).backend_idx as int].processed_models@,
            m@,
        ) < usize::MAX,
    ensures
        ({
            let user = old(run).user_id@;
            let before = *old(state);
            let after = *final(state);
            let processed = event == DispatchEvent::Ended;
            let dropped = event == DispatchEvent::Reported || event == DispatchEvent::Refused
                && old(run).phase == DispatchPhase::RelayingBody;
            &&& r == DispatchAction::Finish
            &&& final(run).phase == DispatchPhase::Finished
            &&& backend_released(before, after, *old(run))
            &&& counts_less(before.processing_counts@, after.processing_counts@, user)
            &&& counts_more(
                before.processed_counts@,
                after.processed_counts@,
                user,
                if processed {
                    1
                } else {
                    0
                },
            )
            &&& counts_more(
                before.dropped_counts@,
                after.dropped_counts@,
                user,
                if dropped {
                    1
                } else {
                    0
                },
            )
            &&& undisturbed(before, after)
        }),
{
}

/// In each phase these events can happen and no others.
pub proof fn law_events_of_phases(phase: DispatchPhase, event: DispatchEvent)
    ensures
        can_happen(phase, event) <==> match event {
            DispatchEvent::Started { .. } => phase == DispatchPhase::Starting,
            DispatchEvent::Responded => phase == DispatchPhase::AwaitingResponse,
            DispatchEvent::Failed => phase == DispatchPhase::AwaitingResponse,
            DispatchEvent::Delivered => phase == DispatchPhase::RelayingStatus || phase
                == DispatchPhase::RelayingBody,
            DispatchEvent::Refused => phase == DispatchPhase::RelayingStatus || phase
                == DispatchPhase::RelayingBody,
            DispatchEvent::Ended => phase == DispatchPhase::RelayingBody,
            DispatchEvent::Reported => phase == DispatchPhase::ReportingFailure,
        },
{
}

/// What each event leads to: what is done next, how the request counts, and whether its backend is
/// released.
pub proof fn law_next_step(phase: DispatchPhase, shut_out: bool, event: DispatchEvent, r: Step)
    requires
        call_ensures(next_step, (phase, shut_out, event), r),
        can_happen(phase, event),
    ensures
        event matches DispatchEvent::Started { responder_closed } ==> {
            let refused = shut_out || responder_closed;
            &&& r.enters == !refused
            &&& r.frees == refused
            &&& !r.leaves
            &&& refused ==> r.action == DispatchAction::Finish && r.tally == Tally::Dropped && r.phase
                == DispatchPhase::Finished
            &&& !refused ==> r.action == DispatchAction::SendRequest && r.tally == Tally::Nothing
                && r.phase == DispatchPhase::AwaitingResponse
        },
        event == DispatchEvent::Responded ==> r.action == DispatchAction::RelayStatus && r.phase
            == DispatchPhase::RelayingStatus,
        event == DispatchEvent::Failed ==> r.action == DispatchAction::RelayError && r.phase
            == DispatchPhase::ReportingFailure,
        event == DispatchEvent::Delivered ==> r.action == DispatchAction::RelayNextChunk && r.phase
            == DispatchPhase::RelayingBody,
        event == DispatchEvent::Responded || event == DispatchEvent::Failed || event
            == DispatchEvent::Delivered ==> !r.enters && !r.leaves && !r.frees && r.tally
            == Tally::Nothing,
        event == DispatchEvent::Ended || event == DispatchEvent::Refused || event
            == DispatchEvent::Reported ==> !r.enters && r.leaves && r.frees && r.action
            == DispatchAction::Finish && r.phase == DispatchPhase::Finished,
        event == DispatchEvent::Ended ==> r.tally == Tally::Processed,
        event == DispatchEvent::Reported ==> r.tally == Tally::Dropped,
        event == DispatchEvent::Refused && phase == DispatchPhase::RelayingBody ==> r.tally
            == Tally::Dropped,
        event == DispatchEvent::Refused && phase == DispatchPhase::RelayingStatus ==> r.tally
            == Tally::Nothing,
{
}

/// A released backend has given up one request.
pub proof fn law_release(b: &mut BackendStatus, model: &Option<String>)
    requires
        call_ensures(BackendStatus::release, (b, model), ()),
        *model matches Some(m) ==> number(old(b).processed_models@, m@) < usize::MAX,
    ensures
        gave_up(*old(b), *final(b), *model),
{
}

/// A backend has room unless a counter has reached its end.
pub proof fn law_has_room_for(b: &BackendStatus, model: &Option<String>, r: bool)
    requires
        call_ensures(BackendStatus::has_room_for, (b, model), r),
    ensures
        r <==> b.processed_count < usize::MAX && (*model matches Some(m) ==> number(
            b.processed_models@,
            m@,
        ) < usize::MAX),
{
}

/// An event can be taken note of as long as no counter has reached its end.
pub proof fn law_can_dispatch<R>(
    run: &DispatchRun,
    state: &AppState<R>,
    event: DispatchEvent,
    r: bool,
)
    requires
        call_ensures(DispatchRun::can_dispatch::<R>, (run, state, event), r),
        run.backend_idx < state.backends@.len(),
        state.backends@[run.backend_idx as int].processed_count < usize::MAX,
        run.resolved_model matches Some(m) ==> number(
            state.backends@[run.backend_idx as int].processed_models@,
            m@,
        ) < usize::MAX,
        number(state.processing_counts@, run.user_id@) < usize::MAX,
        number(state.processed_counts@, run.user_id@) < usize::MAX,
        number(state.dropped_counts@, run.user_id@) < usize::MAX,
    ensures
        r,
{
}

/// A dispatched request starts with nothing done.
pub proof fn law_new_run(
    user_id: String,
    backend_idx: usize,
    resolved_model: Option<String>,
    r: DispatchRun,
)
    requires
        call_ensures(DispatchRun::new, (user_id, backend_idx, resolved_model), r),
    ensures
        r.user_id == user_id,
        r.backend_idx == backend_idx,
        r.resolved_model == resolved_model,
        r.phase == DispatchPhase::Starting,
{
}

/// A user is reported as shut out exactly when blocked by name or by the last address.
pub proof fn law_is_shut_out<R>(state: &AppState<R>, user: &str, r: bool)
    requires
        call_ensures(AppState::<R>::is_shut_out, (state, user), r),
    ensures
        r <==> is_banned(*state, user@),
{
    if is_banned(*state, user@) && !state.blocked_users@.contains(user@) {
        assert(state.blocked_ips@.contains(state.user_ips@[user@]));
    }
    if r && !state.blocked_users@.contains(user@) {
        let ip = state.user_ips@[user@];
        assert(state.blocked_ips@.contains(ip));
    }
}

/// A request that starts after its user has been blocked is dropped, whoever the user was before.
pub proof fn law_blocked_before_start<R>(
    state: &mut AppState<R>,
    user: String,
    run: &mut DispatchRun,
    later: &mut AppState<R>,
    responder_closed: bool,
    r: DispatchAction,
)
    requires
        call_ensures(AppState::<R>::block_user, (state, user), ()),
        *old(later) == *final(state),
        call_ensures(
            DispatchRun::dispatch_task::<R>,
            (run, later, DispatchEvent::Started { responder_closed }),
            r,
        ),
        old(run).phase == DispatchPhase::Starting,
        old(run).user_id@ == user@,
    ensures
        r == DispatchAction::Finish,
{
}

/// The answer for a model that nobody has: status 503 and a JSON object that names the model in its
/// error.
pub proof fn law_handle_model_not_found(model: &str, r: Answer)
    requires
        call_ensures(handle_model_not_found, (model,), r),
    ensures
        r.status == 503,
        r.content_type@ == "application/json"@,
        r.body@ == json_single_member(
            "error"@,
            "Model '"@ + model@ + "' not available on any backend"@,
        ),
        json_string_member(encode_utf8(r.body@), "error"@) == Some(
            "Model '"@ + model@ + "' not available on any backend"@,
        ),
{
}

/// The first part decides how the client is answered: a status opens the stream, an error of the
/// backend and silence are told with status 500.
pub proof fn law_first_reply<E>(
    part: Option<ResponsePart<E>>,
    reply: FirstReply<E>,
    cause: &str,
    r: Option<(u16, String)>,
)
    requires
        call_ensures(first_reply::<E>, (part,), reply),
        call_ensures(FirstReply::<E>::failure, (&reply, cause), r),
    ensures
        part matches Some(ResponsePart::Status(status, headers)) ==> {
            &&& reply == FirstReply::<E>::Stream(status, headers)
            &&& r is None
        },
        part matches Some(ResponsePart::Error(e)) ==> {
            &&& reply == FirstReply::<E>::BackendError(e)
            &&& (r matches Some((status, text)) && status == 500 && text@ == "Backend error: "@
                + cause@)
        },
        part is None || part->0 is Chunk || part->0 is ModelNotFound ==> (r matches Some(
            (status, text),
        ) && status == 500 && text@ == "Worker failed to respond"@),
{
}

/// Chunks make the body and an error breaks it off; anything else adds nothing.
pub proof fn law_body_part<E>(part: ResponsePart<E>, r: Result<Vec<u8>, E>)
    requires
        call_ensures(body_part::<E>, (part,), r),
    ensures
        part matches ResponsePart::Chunk(chunk) ==> r is Ok && r->Ok_0 == chunk,
        part matches ResponsePart::Error(e) ==> r is Err && r->Err_0 == e,
        part is Status || part is ModelNotFound ==> r is Ok && r->Ok_0@.len() == 0,
{
}

/// A request goes to the backend's URL followed by the path.
pub proof fn law_request_url(backend_url: &str, path: &str, r: String)
    requires
        call_ensures(request_url, (backend_url, path), r),
    ensures
        r@ == backend_url@ + path@,
{
}

} // verus!
