//! Carrying a dispatched request through to its end, and what the client is told.

use crate::appstate::{fresh_backends, urls, AppState};
use crate::backend::BackendStatus;
use crate::dispatcher::{
    assigned, claimed, law_limit_is_configured, load_of, tagged, SelectionResult,
};
use crate::json::{json_single_member, json_string_member, raw_value_key, single_member};
use crate::models::ParsedModel;
use crate::strmap::{count_of, less_one};
use crate::text::{decimal, decimal_text, joined, joined3, opt_text};
use axum::http::{HeaderMap, HeaderValue};
use vstd::prelude::*;
use vstd::string::*;
use vstd::utf8::encode_utf8;

verus! {

/// How far a dispatched request has come.
#[derive(Clone, Copy, Debug, PartialEq, Eq, Structural)]
pub enum DispatchPhase {
    /// Nothing has been done yet.
    Starting,
    /// The request is with the backend.
    AwaitingResponse,
    /// The status goes to the client.
    RelayingStatus,
    /// The body goes to the client.
    RelayingBody,
    /// The failure of the backend goes to the client.
    ReportingFailure,
    /// Everything is settled.
    Finished,
}

/// What happens to a dispatched request.
#[derive(Clone, Copy, Debug, PartialEq, Eq, Structural)]
pub enum DispatchEvent {
    /// The dispatch begins; the client may have gone already.
    Started { responder_closed: bool },
    /// The backend has answered.
    Responded,
    /// The request to the backend failed.
    Failed,
    /// The client took what was sent to it.
    Delivered,
    /// The client takes nothing any more.
    Refused,
    /// The body ended or broke off.
    Ended,
    /// The failure was passed on to the client, as far as the client took it.
    Reported,
}

/// What is to be done next for a dispatched request.
#[derive(Clone, Copy, Debug, PartialEq, Eq, Structural)]
pub enum DispatchAction {
    SendRequest,
    RelayStatus,
    RelayNextChunk,
    RelayError,
    /// Nothing more; a backend has become free.
    Finish,
}

/// How a request counts for its user.
#[derive(Clone, Copy, Debug, PartialEq, Eq, Structural)]
pub enum Tally {
    Nothing,
    Processed,
    Dropped,
}

/// One step of a dispatched request.
#[derive(Clone, Copy, Debug, PartialEq, Eq, Structural)]
pub struct Step {
    pub phase: DispatchPhase,
    pub action: DispatchAction,
    pub tally: Tally,
    /// The user has one more request in progress.
    pub enters: bool,
    /// The user has one request less in progress.
    pub leaves: bool,
    /// The backend is released.
    pub frees: bool,
}

/// The events that can happen in a phase.
pub open spec fn can_happen(phase: DispatchPhase, event: DispatchEvent) -> bool {
    match (phase, event) {
        (DispatchPhase::Starting, DispatchEvent::Started { .. }) => true,
        (DispatchPhase::AwaitingResponse, DispatchEvent::Responded) => true,
        (DispatchPhase::AwaitingResponse, DispatchEvent::Failed) => true,
        (DispatchPhase::RelayingStatus, DispatchEvent::Delivered) => true,
        (DispatchPhase::RelayingStatus, DispatchEvent::Refused) => true,
        (DispatchPhase::RelayingBody, DispatchEvent::Delivered) => true,
        (DispatchPhase::RelayingBody, DispatchEvent::Refused) => true,
        (DispatchPhase::RelayingBody, DispatchEvent::Ended) => true,
        (DispatchPhase::ReportingFailure, DispatchEvent::Reported) => true,
        _ => false,
    }
}

/// A step that only moves on.
pub open spec fn onward(phase: DispatchPhase, action: DispatchAction) -> Step {
    Step { phase, action, tally: Tally::Nothing, enters: false, leaves: false, frees: false }
}

/// A step that settles a request in progress.
pub open spec fn settled(tally: Tally) -> Step {
    Step {
        phase: DispatchPhase::Finished,
        action: DispatchAction::Finish,
        tally,
        enters: false,
        leaves: true,
        frees: true,
    }
}

/// The step that `event` leads to. `shut_out` tells whether the user or the user's address is
/// blocked.
///
/// A blocked user's request, or one whose client has gone, is dropped before it is sent. A failed
/// one, or one whose client goes while the body is relayed, is dropped. One whose body came to an
/// end is processed. One whose client is gone when the status comes counts as neither.
pub open spec fn step_after(phase: DispatchPhase, shut_out: bool, event: DispatchEvent) -> Step {
    match (phase, event) {
        (DispatchPhase::Starting, DispatchEvent::Started { responder_closed }) => if shut_out
            || responder_closed {
            Step {
                phase: DispatchPhase::Finished,
                action: DispatchAction::Finish,
                tally: Tally::Dropped,
                enters: false,
                leaves: false,
                frees: true,
            }
        } else {
            Step {
                phase: DispatchPhase::AwaitingResponse,
                action: DispatchAction::SendRequest,
                tally: Tally::Nothing,
                enters: true,
                leaves: false,
                frees: false,
            }
        },
        (_, DispatchEvent::Responded) => onward(
            DispatchPhase::RelayingStatus,
            DispatchAction::RelayStatus,
        ),
        (_, DispatchEvent::Failed) => onward(
            DispatchPhase::ReportingFailure,
            DispatchAction::RelayError,
        ),
        (_, DispatchEvent::Delivered) => onward(
            DispatchPhase::RelayingBody,
            DispatchAction::RelayNextChunk,
        ),
        (DispatchPhase::RelayingStatus, DispatchEvent::Refused) => settled(Tally::Nothing),
        (_, DispatchEvent::Refused) => settled(Tally::Dropped),
        (_, DispatchEvent::Ended) => settled(Tally::Processed),
        _ => settled(Tally::Dropped),
    }
}

/// The step that `event` leads to.
pub fn next_step(phase: DispatchPhase, shut_out: bool, event: DispatchEvent) -> (r: Step)
    requires
        can_happen(phase, event),
    ensures
        r == step_after(phase, shut_out, event),
{
    let mut r = Step {
        phase: DispatchPhase::Finished,
        action: DispatchAction::Finish,
        tally: Tally::Nothing,
        enters: false,
        leaves: true,
        frees: true,
    };
    match event {
        DispatchEvent::Started { responder_closed } => {
            r.leaves = false;
            if shut_out || responder_closed {
                r.tally = Tally::Dropped;
            } else {
                r.phase = DispatchPhase::AwaitingResponse;
                r.action = DispatchAction::SendRequest;
                r.enters = true;
                r.frees = false;
            }
        },
        DispatchEvent::Responded => {
            r.phase = DispatchPhase::RelayingStatus;
            r.action = DispatchAction::RelayStatus;
            r.leaves = false;
            r.frees = false;
        },
        DispatchEvent::Failed => {
            r.phase = DispatchPhase::ReportingFailure;
            r.action = DispatchAction::RelayError;
            r.leaves = false;
            r.frees = false;
        },
        DispatchEvent::Delivered => {
            r.phase = DispatchPhase::RelayingBody;
            r.action = DispatchAction::RelayNextChunk;
            r.leaves = false;
            r.frees = false;
        },
        DispatchEvent::Refused => {
            if phase == DispatchPhase::RelayingBody {
                r.tally = Tally::Dropped;
            }
        },
        DispatchEvent::Ended => {
            r.tally = Tally::Processed;
        },
        DispatchEvent::Reported => {
            r.tally = Tally::Dropped;
        },
    }
    r
}

/// A dispatched request.
pub struct DispatchRun {
    pub user_id: String,
    pub backend_idx: usize,
    pub resolved_model: Option<String>,
    pub phase: DispatchPhase,
}

/// The counts with one more for `user`.
pub open spec fn raised(counts: Map<Seq<char>, usize>, user: Seq<char>) -> Map<Seq<char>, usize> {
    counts.insert(user, (count_of(counts, user) + 1) as usize)
}

/// The counts with one less for `user`, if the user is counted at all.
pub open spec fn lowered(counts: Map<Seq<char>, usize>, user: Seq<char>) -> Map<Seq<char>, usize> {
    if counts.dom().contains(user) {
        counts.insert(user, less_one(counts[user]))
    } else {
        counts
    }
}

/// Whether `after` is `before` released from a request that was counted under `model`.
pub open spec fn released(
    before: BackendStatus,
    after: BackendStatus,
    model: Option<Seq<char>>,
) -> bool {
    &&& after.active_requests == less_one(before.active_requests)
    &&& after.processed_count == before.processed_count + 1
    &&& match model {
        Some(m) => {
            &&& after.active_models@ == before.active_models@.insert(
                m,
                less_one(count_of(before.active_models@, m) as usize),
            )
            &&& after.processed_models@ == raised(before.processed_models@, m)
        },
        None => {
            &&& after.active_models == before.active_models
            &&& after.processed_models == before.processed_models
        },
    }
    &&& after == (BackendStatus {
        active_requests: after.active_requests,
        processed_count: after.processed_count,
        active_models: after.active_models,
        processed_models: after.processed_models,
        ..before
    })
}

/// Whether `after` is `before` with `step` carried out for `run`.
pub open spec fn carried_out<R>(
    before: AppState<R>,
    after: AppState<R>,
    run: DispatchRun,
    step: Step,
) -> bool {
    let user = run.user_id@;
    let i = run.backend_idx as int;
    &&& after.processing_counts@ == if step.enters {
        raised(before.processing_counts@, user)
    } else if step.leaves {
        lowered(before.processing_counts@, user)
    } else {
        before.processing_counts@
    }
    &&& after.processed_counts@ == if step.tally == Tally::Processed {
        raised(before.processed_counts@, user)
    } else {
        before.processed_counts@
    }
    &&& after.dropped_counts@ == if step.tally == Tally::Dropped {
        raised(before.dropped_counts@, user)
    } else {
        before.dropped_counts@
    }
    &&& if step.frees {
        &&& after.backends@ == before.backends@.update(i, after.backends@[i])
        &&& released(before.backends@[i], after.backends@[i], opt_text(run.resolved_model))
    } else {
        after.backends == before.backends
    }
    &&& after == (AppState {
        processing_counts: after.processing_counts,
        processed_counts: after.processed_counts,
        dropped_counts: after.dropped_counts,
        backends: after.backends,
        ..before
    })
}

impl BackendStatus {
    /// Whether one more finished request for `model` can be counted.
    pub open spec fn can_finish(&self, model: Option<Seq<char>>) -> bool {
        &&& self.processed_count < usize::MAX
        &&& model matches Some(m) ==> count_of(self.processed_models@, m) < usize::MAX
    }

    /// Whether one more finished request for `model` can be counted.
    pub fn has_room_for(&self, model: &Option<String>) -> (r: bool)
        requires
            self.wf(),
        ensures
            r == self.can_finish(opt_text(*model)),
    {
        self.processed_count < usize::MAX && match model {
            Some(m) => self.processed_models.count(m.as_str()) < usize::MAX,
            None => true,
        }
    }

    /// Releases the backend from a request that was counted under `model`.
    pub fn release(&mut self, model: &Option<String>)
        requires
            old(self).wf(),
            old(self).can_finish(opt_text(*model)),
        ensures
            final(self).wf(),
            released(*old(self), *final(self), opt_text(*model)),
    {
        self.active_requests = self.active_requests.saturating_sub(1);
        self.processed_count += 1;
        if let Some(m) = model {
            let active: usize = self.active_models.count(m.as_str());
            self.active_models.insert(m.clone(), active.saturating_sub(1));
            self.processed_models.bump(m.as_str());
        }
    }
}

impl<R> AppState<R> {
    /// Whether the user, or the address that the user was last seen at, is blocked.
    pub open spec fn shuts_out(&self, user: Seq<char>) -> bool {
        ||| self.blocked_users@.contains(user)
        ||| self.user_ips@.dom().contains(user) && self.blocked_ips@.contains(self.user_ips@[user])
    }

    /// Whether what `step` counts for `run` can be counted, and the backend that it releases is
    /// there.
    pub open spec fn can_carry(&self, run: DispatchRun, step: Step) -> bool {
        &&& step.enters ==> count_of(self.processing_counts@, run.user_id@) < usize::MAX
        &&& step.tally == Tally::Processed ==> count_of(self.processed_counts@, run.user_id@)
            < usize::MAX
        &&& step.tally == Tally::Dropped ==> count_of(self.dropped_counts@, run.user_id@)
            < usize::MAX
        &&& step.frees ==> {
            &&& run.backend_idx < self.backends@.len()
            &&& self.backends@[run.backend_idx as int].can_finish(opt_text(run.resolved_model))
        }
    }

    /// Whether the user, or the address that the user was last seen at, is blocked.
    pub fn is_shut_out(&self, user: &str) -> (r: bool)
        requires
            self.user_ips.wf(),
        ensures
            r == self.shuts_out(user@),
    {
        self.is_user_blocked(user) || match self.user_ips.get(user) {
            Some(ip) => self.is_ip_blocked(ip),
            None => false,
        }
    }

    /// Whether what `step` counts for `run` can be counted.
    fn can_carry_out(&self, run: &DispatchRun, step: Step) -> (r: bool)
        requires
            self.wf(),
        ensures
            r == self.can_carry(*run, step),
    {
        let user = run.user_id.as_str();
        if step.enters && self.processing_counts.count(user) == usize::MAX {
            return false;
        }
        if step.tally == Tally::Processed && self.processed_counts.count(user) == usize::MAX {
            return false;
        }
        if step.tally == Tally::Dropped && self.dropped_counts.count(user) == usize::MAX {
            return false;
        }
        !step.frees || (run.backend_idx < self.backends.len()
            && self.backends[run.backend_idx].has_room_for(&run.resolved_model))
    }

    /// Carries out `step` for `run`.
    fn carry_out(&mut self, run: &DispatchRun, step: Step)
        requires
            old(self).wf(),
            old(self).can_carry(*run, step),
        ensures
            final(self).wf(),
            carried_out(*old(self), *final(self), *run, step),
    {
        let user = run.user_id.as_str();
        if step.enters {
            self.processing_counts.bump(user);
        } else if step.leaves {
            self.processing_counts.drop_one(user);
        }
        if step.tally == Tally::Processed {
            self.processed_counts.bump(user);
        } else if step.tally == Tally::Dropped {
            self.dropped_counts.bump(user);
        }
        if step.frees {
            let ghost earlier = self.backends@;
            self.backends[run.backend_idx].release(&run.resolved_model);
            proof {
                let i = run.backend_idx as int;
                assert(self.backends@ =~= earlier.update(i, self.backends@[i]));
                assert(urls(self.backends@) =~= urls(earlier));
            }
        }
    }
}

impl DispatchRun {
    /// A request that was dispatched to the backend at `backend_idx`.
    pub fn new(user_id: String, backend_idx: usize, resolved_model: Option<String>) -> (r: Self)
        ensures
            r == (DispatchRun {
                user_id,
                backend_idx,
                resolved_model,
                phase: DispatchPhase::Starting,
            }),
    {
        DispatchRun { user_id, backend_idx, resolved_model, phase: DispatchPhase::Starting }
    }

    /// Whether `event` can be taken note of: what it leads to can be counted, and a backend that is
    /// to be released is there.
    pub fn can_dispatch<R>(&self, state: &AppState<R>, event: DispatchEvent) -> (r: bool)
        requires
            state.wf(),
            can_happen(self.phase, event),
        ensures
            r == state.can_carry(
                *self,
                step_after(self.phase, state.shuts_out(self.user_id@), event),
            ),
    {
        let shut_out = state.is_shut_out(self.user_id.as_str());
        state.can_carry_out(self, next_step(self.phase, shut_out, event))
    }

    /// Takes note of `event` and tells what is to be done next.
    pub fn dispatch_task<R>(
        &mut self,
        state: &mut AppState<R>,
        event: DispatchEvent,
    ) -> (r: DispatchAction)
        requires
            old(state).wf(),
            can_happen(old(self).phase, event),
            old(state).can_carry(
                *old(self),
                step_after(old(self).phase, old(state).shuts_out(old(self).user_id@), event),
            ),
        ensures
            final(state).wf(),
            ({
                let step = step_after(
                    old(self).phase,
                    old(state).shuts_out(old(self).user_id@),
                    event,
                );
                &&& r == step.action
                &&& *final(self) == (DispatchRun { phase: step.phase, ..*old(self) })
                &&& carried_out(*old(state), *final(state), *old(self), step)
            }),
    {
        let shut_out = state.is_shut_out(self.user_id.as_str());
        let step = next_step(self.phase, shut_out, event);
        state.carry_out(self, step);
        self.phase = step.phase;
        step.action
    }
}

/// The seconds alone below a minute, else minutes and seconds.
pub open spec fn short_duration(secs: nat) -> Seq<char> {
    if secs < 60 {
        decimal(secs) + "s"@
    } else {
        decimal(secs / 60) + "m "@ + decimal(secs % 60) + "s"@
    }
}

/// Format duration showing only seconds if < 1 minute, otherwise minutes and seconds
pub fn format_duration_short(secs: u64) -> (r: String)
    ensures
        r@ == short_duration(secs as nat),
{
    if secs < 60 {
        joined(decimal_text(secs).as_str(), "s")
    } else {
        let mut r = joined3(
            decimal_text(secs / 60).as_str(),
            "m ",
            decimal_text(secs % 60).as_str(),
        );
        r.append("s");
        r
    }
}

/// Where a request goes: the backend's URL followed by the path.
pub fn request_url(backend_url: &str, path: &str) -> (r: String)
    ensures
        r@ == backend_url@ + path@,
{
    joined(backend_url, path)
}

/// An answer that the proxy gives by itself.
pub struct Answer {
    pub status: u16,
    pub content_type: &'static str,
    pub body: String,
}

/// The answer to a request for a model that the configuration does not know: a JSON object that
/// tells the error.
pub fn handle_model_not_found(model_name: &str) -> (r: Answer)
    ensures
        r.status == 503,
        r.content_type@ == "application/json"@,
        r.body@ == json_single_member(
            "error"@,
            "Model '"@ + model_name@ + "' not available on any backend"@,
        ),
        json_string_member(encode_utf8(r.body@), "error"@) == Some(
            "Model '"@ + model_name@ + "' not available on any backend"@,
        ),
{
    proof {
        reveal_strlit("error");
        reveal_strlit("$serde_json::private::RawValue");
        assert("error"@.len() != raw_value_key().len());
    }
    let message = joined3("Model '", model_name, "' not available on any backend");
    Answer {
        status: 503,
        content_type: "application/json",
        body: single_member("error", message.as_str()),
    }
}

/// A piece of an answer on its way to the client. `E` is how backends fail.
pub enum ResponsePart<E> {
    Status(u16, HeaderMap<HeaderValue>),
    Chunk(Vec<u8>),
    Error(E),
    ModelNotFound(String),
}

/// How the answer to a request begins.
pub enum FirstReply<E> {
    /// A status and headers; the body follows.
    Stream(u16, HeaderMap<HeaderValue>),
    /// The backend failed.
    BackendError(E),
    /// Nobody answers.
    NoReply,
}

/// How the answer begins that `part` is the first piece of.
pub fn first_reply<E>(part: Option<ResponsePart<E>>) -> (r: FirstReply<E>)
    ensures
        r == match part {
            Some(ResponsePart::Status(status, headers)) => FirstReply::Stream(status, headers),
            Some(ResponsePart::Error(e)) => FirstReply::BackendError(e),
            _ => FirstReply::NoReply,
        },
{
    match part {
        Some(ResponsePart::Status(status, headers)) => FirstReply::Stream(status, headers),
        Some(ResponsePart::Error(e)) => FirstReply::BackendError(e),
        _ => FirstReply::NoReply,
    }
}

impl<E> FirstReply<E> {
    /// The status and the text that answer a client to whom nothing can be streamed. `cause` is
    /// the failure in words.
    pub fn failure(&self, cause: &str) -> (r: Option<(u16, String)>)
        ensures
            match self {
                FirstReply::Stream(_, _) => r is None,
                FirstReply::BackendError(_) => r matches Some((status, text)) && status == 500
                    && text@ == "Backend error: "@ + cause@,
                FirstReply::NoReply => r matches Some((status, text)) && status == 500
                    && text@ == "Worker failed to respond"@,
            },
    {
        match self {
            FirstReply::Stream(_, _) => None,
            FirstReply::BackendError(_) => Some((500, joined("Backend error: ", cause))),
            FirstReply::NoReply => Some((500, "Worker failed to respond".to_owned())),
        }
    }
}

/// What a later piece adds to the body.
pub fn body_part<E>(part: ResponsePart<E>) -> (r: Result<Vec<u8>, E>)
    ensures
        match part {
            ResponsePart::Chunk(chunk) => r == Ok::<Vec<u8>, E>(chunk),
            ResponsePart::Error(e) => r == Err::<Vec<u8>, E>(e),
            _ => r is Ok && r->Ok_0@ == Seq::<u8>::empty(),
        },
{
    match part {
        ResponsePart::Chunk(chunk) => Ok(chunk),
        ResponsePart::Error(e) => Err(e),
        _ => Ok(Vec::new()),
    }
}

/// The phase that `events` lead to.
pub open spec fn phase_after(
    phase: DispatchPhase,
    shut_out: bool,
    events: Seq<DispatchEvent>,
) -> DispatchPhase
    decreases events.len(),
{
    if events.len() == 0 {
        phase
    } else {
        phase_after(step_after(phase, shut_out, events[0]).phase, shut_out, events.drop_first())
    }
}

/// Whether `events` can happen one after the other from `phase` on.
pub open spec fn can_all_happen(
    phase: DispatchPhase,
    shut_out: bool,
    events: Seq<DispatchEvent>,
) -> bool
    decreases events.len(),
{
    events.len() == 0 || {
        &&& can_happen(phase, events[0])
        &&& can_all_happen(
            step_after(phase, shut_out, events[0]).phase,
            shut_out,
            events.drop_first(),
        )
    }
}

/// How often something holds of the steps that `events` lead through.
pub open spec fn times(
    phase: DispatchPhase,
    shut_out: bool,
    events: Seq<DispatchEvent>,
    p: spec_fn(Step) -> bool,
) -> nat
    decreases events.len(),
{
    if events.len() == 0 {
        0
    } else {
        let step = step_after(phase, shut_out, events[0]);
        times(step.phase, shut_out, events.drop_first(), p) + if p(step) {
            1nat
        } else {
            0
        }
    }
}

/// Releasing the backend.
pub open spec fn frees_backend() -> spec_fn(Step) -> bool {
    |s: Step| s.frees
}

/// Counting one more request in progress.
pub open spec fn enters_progress() -> spec_fn(Step) -> bool {
    |s: Step| s.enters
}

/// Counting one request less in progress.
pub open spec fn leaves_progress() -> spec_fn(Step) -> bool {
    |s: Step| s.leaves
}

/// Counting a request as processed or dropped.
pub open spec fn is_tallied() -> spec_fn(Step) -> bool {
    |s: Step| s.tally != Tally::Nothing
}

/// What every step keeps: the backend is released, and the request leaves progress, exactly when
/// it is finished, and it enters progress exactly when it is sent.
proof fn lemma_steps(phase: DispatchPhase, shut_out: bool, event: DispatchEvent)
    requires
        can_happen(phase, event),
    ensures
        ({
            let step = step_after(phase, shut_out, event);
            &&& step.frees <==> step.phase == DispatchPhase::Finished
            &&& step.action == DispatchAction::Finish <==> step.frees
            &&& step.leaves <==> step.frees && phase != DispatchPhase::Starting
            &&& step.enters <==> phase == DispatchPhase::Starting && !step.frees
            &&& step.tally != Tally::Nothing ==> step.frees
            &&& step.phase != DispatchPhase::Starting
        }),
{
}

/// What holds of a request that has begun.
proof fn lemma_begun(phase: DispatchPhase, shut_out: bool, events: Seq<DispatchEvent>)
    requires
        phase != DispatchPhase::Starting,
        can_all_happen(phase, shut_out, events),
    ensures
        ({
            let ends = if phase != DispatchPhase::Finished && phase_after(phase, shut_out, events)
                == DispatchPhase::Finished {
                1nat
            } else {
                0
            };
            &&& times(phase, shut_out, events, frees_backend()) == ends
            &&& times(phase, shut_out, events, leaves_progress()) == ends
            &&& times(phase, shut_out, events, enters_progress()) == 0
            &&& times(phase, shut_out, events, is_tallied()) <= ends
        }),
    decreases events.len(),
{
    if events.len() > 0 {
        lemma_steps(phase, shut_out, events[0]);
        let next = step_after(phase, shut_out, events[0]).phase;
        let rest = events.drop_first();
        lemma_begun(next, shut_out, rest);
        if next == DispatchPhase::Finished {
            if rest.len() > 0 {
                assert(!can_happen(next, rest[0]));
                assert(can_all_happen(next, shut_out, rest));
            }
            assert(phase_after(next, shut_out, rest) == next);
        }
    }
}

/// However a dispatched request goes: when it is finished its backend has been released exactly
/// once, the user has as many requests in progress as before, and it has been counted as processed
/// or dropped at most once. Until then the backend has not been released.
pub proof fn law_settled_once(shut_out: bool, events: Seq<DispatchEvent>)
    requires
        can_all_happen(DispatchPhase::Starting, shut_out, events),
    ensures
        ({
            let start = DispatchPhase::Starting;
            let finished = phase_after(start, shut_out, events) == DispatchPhase::Finished;
            &&& times(start, shut_out, events, frees_backend()) == if finished {
                1nat
            } else {
                0
            }
            &&& finished ==> times(start, shut_out, events, enters_progress()) == times(
                start,
                shut_out,
                events,
                leaves_progress(),
            )
            &&& times(start, shut_out, events, is_tallied()) <= 1
        }),
{
    if events.len() > 0 {
        lemma_steps(DispatchPhase::Starting, shut_out, events[0]);
        let next = step_after(DispatchPhase::Starting, shut_out, events[0]).phase;
        let rest = events.drop_first();
        lemma_begun(next, shut_out, rest);
        if next == DispatchPhase::Finished {
            if rest.len() > 0 {
                assert(!can_happen(next, rest[0]));
                assert(can_all_happen(next, shut_out, rest));
            }
            assert(phase_after(next, shut_out, rest) == next);
        }
    }
}

/// A request of a blocked user, or whose client has gone, never reaches a backend: it is dropped
/// and its backend released at once.
pub proof fn law_shut_out_never_sent(shut_out: bool, responder_closed: bool)
    requires
        shut_out || responder_closed,
    ensures
        ({
            let step = step_after(
                DispatchPhase::Starting,
                shut_out,
                DispatchEvent::Started { responder_closed },
            );
            &&& step.action == DispatchAction::Finish
            &&& step.tally == Tally::Dropped
            &&& step.frees
            &&& !step.enters
        }),
{
}

/// What a dispatched request took of a backend it gives back: after the release the backend works
/// on as many requests as before the claim, in all and for the model, and has one more processed.
pub proof fn law_release_undoes_claim(
    before: BackendStatus,
    busy: BackendStatus,
    after: BackendStatus,
    model: Seq<char>,
)
    requires
        load_of(before, model) < usize::MAX,
        claimed(before, busy, model),
        released(busy, after, Some(model)),
    ensures
        after.active_requests == before.active_requests,
        forall|m: Seq<char>| #[trigger] load_of(after, m) == load_of(before, m),
        after.processed_count == before.processed_count + 1,
        after.url == before.url,
        after.is_online == before.is_online,
        after.configured_models == before.configured_models,
        after.model_status == before.model_status,
{
}

/// A user who enters progress and leaves it again has as many requests in progress as before.
pub proof fn law_leaving_undoes_entering(
    counts: Map<Seq<char>, usize>,
    user: Seq<char>,
    other: Seq<char>,
)
    requires
        count_of(counts, user) < usize::MAX,
    ensures
        count_of(lowered(raised(counts, user), user), other) == count_of(counts, other),
{
}

/// Whether `n` requests at a time are within the limit of some configured model that is routed by
/// `model`.
pub open spec fn is_allowed(models: Seq<ParsedModel>, model: Seq<char>, n: int) -> bool {
    exists|k: int|
        0 <= k < models.len() && tagged((#[trigger] models[k]).name@) == model && n
            <= models[k].max_concurrent_requests
}

/// Whether every backend works on no more requests for any model than the model's limit allows; one
/// at a time is always allowed.
pub open spec fn within_limits(backends: Seq<BackendStatus>, models: Seq<ParsedModel>) -> bool {
    forall|i: int, m: Seq<char>|
        0 <= i < backends.len() ==> {
            ||| #[trigger] load_of(backends[i], m) <= 1
            ||| is_allowed(models, m, load_of(backends[i], m))
        }
}

/// At startup the limits are kept.
pub proof fn law_limits_kept_at_startup(backends: Seq<BackendStatus>, models: Seq<ParsedModel>)
    requires
        fresh_backends(backends, models),
    ensures
        within_limits(backends, models),
{
    assert forall|i: int, m: Seq<char>| 0 <= i < backends.len() implies #[trigger] load_of(
        backends[i],
        m,
    ) <= 1 by {
        assert(backends[i].is_new(backends[i].url@));
    }
}

/// Handing out a task keeps the limits.
pub proof fn law_limits_kept_by_assigning<R>(
    before: AppState<R>,
    after: AppState<R>,
    user: Seq<char>,
    requested: Option<Seq<char>>,
    r: SelectionResult<R>,
)
    requires
        within_limits(before.backends@, before.model_config.models@),
        assigned(before, after, user, requested, r),
    ensures
        within_limits(after.backends@, after.model_config.models@),
{
    let models = before.model_config.models@;
    assert forall|i: int, m: Seq<char>| 0 <= i < after.backends@.len() implies {
        ||| #[trigger] load_of(after.backends@[i], m) <= 1
        ||| is_allowed(models, m, load_of(after.backends@[i], m))
    } by {
        let n = load_of(before.backends@[i], m);
        assert(n <= 1 || is_allowed(models, m, n));
        if load_of(after.backends@[i], m) != n {
            law_limit_is_configured(models, requested);
        }
    }
}

/// Carrying a request through keeps the limits.
pub proof fn law_limits_kept_by_delivery<R>(
    before: AppState<R>,
    after: AppState<R>,
    run: DispatchRun,
    step: Step,
)
    requires
        step.frees ==> run.backend_idx < before.backends@.len(),
        within_limits(before.backends@, before.model_config.models@),
        carried_out(before, after, run, step),
    ensures
        within_limits(after.backends@, after.model_config.models@),
{
    let models = before.model_config.models@;
    assert forall|i: int, m: Seq<char>| 0 <= i < after.backends@.len() implies {
        ||| #[trigger] load_of(after.backends@[i], m) <= 1
        ||| is_allowed(models, m, load_of(after.backends@[i], m))
    } by {
        let n = load_of(before.backends@[i], m);
        assert(n <= 1 || is_allowed(models, m, n));
        assert(load_of(after.backends@[i], m) <= n);
        if is_allowed(models, m, n) {
            let k = choose|k: int|
                0 <= k < models.len() && tagged((#[trigger] models[k]).name@) == m && n
                    <= models[k].max_concurrent_requests;
            assert(tagged(models[k].name@) == m);
        }
    }
}

} // verus!
