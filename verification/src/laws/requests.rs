//! Choosing, dispatching and delivering requests.

use crate::appstate::{queue_of, AppState, Task};
use crate::backend::BackendStatus;
use crate::dispatcher::{
    active_users, admissible, carries_model, choose_user, comes_first, concurrency_limit,
    extract_and_resolve_model, is_among, is_best, is_model_path, limit_for, peek_model_from_body,
    pick_backend, plan_model, served_before, some_admissible, users_in_turn, ModelPlan,
    SelectionResult,
};
use crate::json::{json_string_member, json_with_member};
use crate::laws::basics::{
    is_configured, lemma_is_configured, lemma_resolved, lemma_with_tag,
};
use crate::laws::{is_called, is_listed_path, is_unknown, number, stands_for, with_tag};
use crate::models::{has_name, resolved, ModelConfig, ParsedModel};
use crate::seqs::{first_index, lemma_first_index, lemma_first_index_props};
use crate::strmap::StrMap;
use crate::text::{has_prefix, opt_text, text_before, texts};
use std::collections::VecDeque;
use vstd::prelude::*;

verus! {

/// Whether backend `i` can take one more request for `model`: it is online, can serve the model, and
/// works on none for it or on fewer than `limit`.
pub open spec fn can_take(
    backends: Seq<BackendStatus>,
    i: int,
    model: Seq<char>,
    limit: int,
) -> bool {
    &&& 0 <= i < backends.len()
    &&& backends[i].is_online
    &&& backends[i].serves(model)
    &&& number(backends[i].active_models@, model) == 0 || number(backends[i].active_models@, model)
        < limit
}

/// Of the backends that can take a request the one that works on the fewest requests for the model
/// is picked, the first of them if several do; none is picked exactly when none can take it.
pub proof fn law_pick_backend(
    backends: &Vec<BackendStatus>,
    model: &str,
    limit: usize,
    r: Option<usize>,
)
    requires
        call_ensures(pick_backend, (backends, model, limit), r),
    ensures
        r is None ==> forall|j: int| !#[trigger] can_take(backends@, j, model@, limit as int),
        r matches Some(i) ==> {
            &&& can_take(backends@, i as int, model@, limit as int)
            &&& forall|j: int| #[trigger]
                can_take(backends@, j, model@, limit as int) ==> {
                    let here = number(backends@[i as int].active_models@, model@);
                    let there = number(backends@[j].active_models@, model@);
                    here < there || here == there && i <= j
                }
        },
{
    assert forall|j: int| #[trigger] can_take(backends@, j, model@, limit as int) implies admissible(
        backends@[j],
        model@,
        limit as int,
    ) by {}
}

proof fn lemma_model_path(path: Seq<char>, start: Seq<char>, rest: Seq<char>)
    requires
        is_listed_path(start),
        path == start + rest,
    ensures
        is_model_path(path),
{
    assert(path.take(start.len() as int) =~= start);
    assert(has_prefix(path, start));
}

proof fn lemma_prefix_rest(path: Seq<char>, start: Seq<char>)
    requires
        has_prefix(path, start),
    ensures
        path == start + path.skip(start.len() as int),
{
    assert(path =~= start + path.skip(start.len() as int));
}

/// Whether `path` begins with one of the paths that carry a model.
pub open spec fn begins_listed(path: Seq<char>) -> bool {
    exists|start: Seq<char>, rest: Seq<char>|
        is_listed_path(start) && path == #[trigger] (start + rest)
}

proof fn lemma_begins_listed(path: Seq<char>)
    ensures
        is_model_path(path) <==> begins_listed(path),
{
    if begins_listed(path) {
        let (start, rest) = choose|start: Seq<char>, rest: Seq<char>|
            is_listed_path(start) && path == #[trigger] (start + rest);
        lemma_model_path(path, start, rest);
    }
    if is_model_path(path) {
        let all = seq![
            "/api/generate"@,
            "/api/chat"@,
            "/api/embed"@,
            "/api/embeddings"@,
            "/chat/completions"@,
            "/v1/chat/completions"@,
            "/v1/completions"@,
            "/v1/embeddings"@,
            "/v1/responses"@,
            "/v1/images/generations"@,
        ];
        assert(has_prefix(path, all[0]) || has_prefix(path, all[1]) || has_prefix(path, all[2])
            || has_prefix(path, all[3]) || has_prefix(path, all[4]) || has_prefix(path, all[5])
            || has_prefix(path, all[6]) || has_prefix(path, all[7]) || has_prefix(path, all[8])
            || has_prefix(path, all[9]));
        let i = choose|i: int| 0 <= i < 10 && has_prefix(path, #[trigger] all[i]);
        assert(is_listed_path(all[i]));
        lemma_prefix_rest(path, all[i]);
        assert(path == all[i] + path.skip(all[i].len() as int));
    }
}

/// Exactly the paths that begin with one of the ten listed ones carry a model.
pub proof fn law_carries_model(path: &str, r: bool)
    requires
        call_ensures(carries_model, (path,), r),
    ensures
        r <==> begins_listed(path@),
{
    lemma_begins_listed(path@);
}

/// Each of the ten paths carries a model, and so does each path that begins with one of them.
pub proof fn law_listed_paths_carry_model(path: &str, r: bool, start: Seq<char>, rest: Seq<char>)
    requires
        call_ensures(carries_model, (path,), r),
        path@ == start || path@ == start + rest,
        start == "/api/generate"@ || start == "/api/chat"@ || start == "/api/embed"@ || start
            == "/api/embeddings"@ || start == "/chat/completions"@ || start
            == "/v1/chat/completions"@ || start == "/v1/completions"@ || start
            == "/v1/embeddings"@ || start == "/v1/responses"@ || start
            == "/v1/images/generations"@,
    ensures
        r,
{
    let none = Seq::<char>::empty();
    if path@ == start {
        assert(path@ =~= start + none);
        lemma_model_path(path@, start, none);
    } else {
        lemma_model_path(path@, start, rest);
    }
}

/// On a path that begins with a listed one the model of a request is counted under the tagged real
/// name of the model that its name stands for, and another name than the real one is replaced by it
/// in the body. A name that stands for nothing is counted as it is, with a tag, and stays.
pub proof fn law_extract_and_resolve_model(
    body: &mut Vec<u8>,
    path: &str,
    config: &ModelConfig,
    r: Option<String>,
    start: Seq<char>,
    rest: Seq<char>,
    name: Seq<char>,
)
    requires
        call_ensures(extract_and_resolve_model, (body, path, config), r),
        start == "/api/generate"@ || start == "/api/chat"@ || start == "/api/embed"@ || start
            == "/api/embeddings"@ || start == "/chat/completions"@ || start
            == "/v1/chat/completions"@ || start == "/v1/completions"@ || start
            == "/v1/embeddings"@ || start == "/v1/responses"@ || start
            == "/v1/images/generations"@,
        path@ == start + rest,
        json_string_member(old(body)@, "model"@) == Some(name),
    ensures
        forall|real_name: Seq<char>| #[trigger]
            stands_for(config.models@, name, real_name) ==> {
                &&& r is Some && r->0@ == with_tag(real_name)
                &&& real_name == name ==> final(body)@ == old(body)@
                &&& real_name != name ==> json_with_member(old(body)@, "model"@, real_name) == Some(
                    final(body)@,
                )
                &&& real_name != name && json_string_member(final(body)@, "model"@) is Some
                    ==> json_string_member(final(body)@, "model"@) == Some(real_name) && forall|
                    k: Seq<char>,
                |
                    k != "model"@ ==> #[trigger] json_string_member(final(body)@, k)
                        == json_string_member(old(body)@, k)
            },
        is_unknown(config.models@, name) ==> r is Some && r->0@ == with_tag(name) && final(body)@
            == old(body)@,
{
    lemma_model_path(path@, start, rest);
    lemma_resolved(config.models@, name);
    lemma_with_tag(name);
    assert forall|real_name: Seq<char>| #[trigger]
        stands_for(config.models@, name, real_name) implies {
        &&& r is Some && r->0@ == with_tag(real_name)
        &&& real_name == name ==> final(body)@ == old(body)@
        &&& real_name != name ==> json_with_member(old(body)@, "model"@, real_name) == Some(
            final(body)@,
        )
        &&& real_name != name && json_string_member(final(body)@, "model"@) is Some
            ==> json_string_member(final(body)@, "model"@) == Some(real_name) && forall|
            k: Seq<char>,
        |
            k != "model"@ ==> #[trigger] json_string_member(final(body)@, k) == json_string_member(
                old(body)@,
                k,
            )
    } by {
        lemma_with_tag(real_name);
    }
}

/// On any other path, and without a model in the body, nothing is counted and the body stays.
pub proof fn law_extract_elsewhere(
    body: &mut Vec<u8>,
    path: &str,
    config: &ModelConfig,
    r: Option<String>,
)
    requires
        call_ensures(extract_and_resolve_model, (body, path, config), r),
        !begins_listed(path@) || json_string_member(old(body)@, "model"@) is None,
    ensures
        r is None,
        final(body)@ == old(body)@,
{
    lemma_begins_listed(path@);
}

/// The plan for a request on a listed path.
pub proof fn law_plan_model(
    path: &str,
    requested: Option<String>,
    config: &ModelConfig,
    r: ModelPlan,
    name: Seq<char>,
    real_name: Seq<char>,
)
    requires
        call_ensures(plan_model, (path, requested, config), r),
        opt_text(requested) == Some(name),
    ensures
        begins_listed(path@) && stands_for(config.models@, name, real_name) ==> {
            &&& r.model is Some && r.model->0@ == with_tag(real_name)
            &&& r.rewrite is Some <==> real_name != name
            &&& r.rewrite is Some ==> r.rewrite->0@ == real_name
        },
        begins_listed(path@) && is_unknown(config.models@, name) ==> r.rewrite is None && r.model
            is Some && r.model->0@ == with_tag(name),
        !begins_listed(path@) ==> r.rewrite is None && r.model is None,
{
    lemma_begins_listed(path@);
    lemma_resolved(config.models@, name);
    lemma_with_tag(name);
    lemma_with_tag(real_name);
}

/// The model asked for is the string under `model` in the body.
pub proof fn law_peek_model(body: &Vec<u8>, r: Option<String>)
    requires
        call_ensures(peek_model_from_body, (body,), r),
    ensures
        opt_text(r) == json_string_member(body@, "model"@),
{
}

/// Whether `limit` is that of the first model called `real_name`.
pub open spec fn is_limit(models: Seq<ParsedModel>, real_name: Seq<char>, limit: int) -> bool {
    exists|k: int| #[trigger]
        is_called(models, k, real_name) && limit == models[k].max_concurrent_requests && forall|j: int|
            j < k ==> !#[trigger] is_called(models, j, real_name)
}

proof fn lemma_limit(models: Seq<ParsedModel>, name: Seq<char>, real_name: Seq<char>)
    requires
        stands_for(models, name, real_name),
    ensures
        is_limit(models, real_name, limit_for(models, Some(name))),
{
    lemma_resolved(models, name);
    crate::models::law_resolved_is_real(models, name);
    let p = has_name(real_name);
    lemma_first_index_props(models, p);
    let i = choose|i: int| 0 <= i < models.len() && (#[trigger] models[i]).name@ == real_name;
    assert(p(models[i]));
    let k = first_index(models, p);
    assert(p(models[k]));
    assert(is_called(models, k, real_name));
    assert forall|j: int| j < k implies !#[trigger] is_called(models, j, real_name) by {
        if 0 <= j {
            assert(!p(models[j]));
        }
    }
}

/// The limit of a request is that of the model that its name stands for.
pub proof fn law_concurrency_limit(
    config: &ModelConfig,
    requested: &Option<String>,
    r: usize,
    name: Seq<char>,
    real_name: Seq<char>,
)
    requires
        call_ensures(concurrency_limit, (config, requested), r),
        opt_text(*requested) == Some(name),
        stands_for(config.models@, name, real_name),
    ensures
        is_limit(config.models@, real_name, r as int),
{
    lemma_limit(config.models@, name, real_name);
}

/// Without a known model the limit is one request.
pub proof fn law_default_limit(config: &ModelConfig, requested: &Option<String>, r: usize)
    requires
        call_ensures(concurrency_limit, (config, requested), r),
        *requested matches Some(name) ==> is_unknown(config.models@, name@),
    ensures
        r == 1,
{
    if let Some(name) = requested {
        lemma_resolved(config.models@, name@);
    }
}

/// Whether `user` has a task waiting.
pub open spec fn is_waiting<R>(
    queues: Map<Seq<char>, VecDeque<Task<R>>>,
    user: Seq<char>,
) -> bool {
    queues.dom().contains(user) && queues[user]@.len() > 0
}

/// Exactly the users with a task waiting are listed, each once: those with fewer processed requests
/// first, and of those with as many the one whose ID comes first.
pub proof fn law_users_in_turn<R>(
    queues: &StrMap<VecDeque<Task<R>>>,
    counts: &StrMap<usize>,
    r: Vec<String>,
    user: Seq<char>,
    i: int,
    j: int,
)
    requires
        call_ensures(users_in_turn::<R>, (queues, counts), r),
    ensures
        (exists|k: int| 0 <= k < r@.len() && (#[trigger] r@[k])@ == user) <==> is_waiting(
            queues@,
            user,
        ),
        0 <= i < j < r@.len() ==> {
            let a = number(counts@, r@[i]@);
            let b = number(counts@, r@[j]@);
            a < b || a == b && text_before(r@[i]@, r@[j]@)
        },
{
    let t = texts(r@);
    assert(active_users(queues@).contains(user) <==> is_waiting(queues@, user));
    if exists|k: int| 0 <= k < r@.len() && (#[trigger] r@[k])@ == user {
        let k = choose|k: int| 0 <= k < r@.len() && (#[trigger] r@[k])@ == user;
        assert(t[k] == user);
        assert(t.to_set().contains(user));
    }
    if is_waiting(queues@, user) {
        assert(t.to_set().contains(user));
        let k = t.index_of(user);
        assert(r@[k]@ == user);
    }
    if 0 <= i < j < r@.len() {
        let before = served_before(counts@);
        assert(before(t[i], t[j]));
    }
}

/// The first VIP user with a task waiting is chosen, and the round stands still.
pub proof fn law_choose_vip<R>(
    queues: &StrMap<VecDeque<Task<R>>>,
    counts: &StrMap<usize>,
    vips: &Vec<String>,
    idx: &mut usize,
    r: Option<String>,
    i: int,
)
    requires
        call_ensures(choose_user::<R>, (queues, counts, vips, idx), r),
        0 <= i < vips@.len(),
        is_waiting(queues@, vips@[i]@),
        forall|j: int| 0 <= j < i ==> !is_waiting(queues@, (#[trigger] vips@[j])@),
    ensures
        r is Some && r->0@ == vips@[i]@,
        *final(idx) == *old(idx),
{
    let active = active_users(queues@);
    let t = texts(vips@);
    assert forall|u: Seq<char>| #[trigger] active.contains(u) <==> is_waiting(queues@, u) by {}
    assert(active.contains(t[i]));
    assert forall|j: int| 0 <= j < i implies !is_among(active)(#[trigger] t[j]) by {
        assert(!is_waiting(queues@, vips@[j]@));
    }
    lemma_first_index(t, is_among(active), i);
}

/// Without a VIP user whose task waits the others take turns in their order, one further at each
/// call, and from the beginning after the last.
pub proof fn law_choose_in_turn<R>(
    queues: &StrMap<VecDeque<Task<R>>>,
    counts: &StrMap<usize>,
    vips: &Vec<String>,
    idx: &mut usize,
    r: Option<String>,
    order: Vec<String>,
)
    requires
        call_ensures(choose_user::<R>, (queues, counts, vips, idx), r),
        call_ensures(users_in_turn::<R>, (queues, counts), order),
        forall|j: int| 0 <= j < vips@.len() ==> !is_waiting(queues@, (#[trigger] vips@[j])@),
    ensures
        order@.len() == 0 ==> r is None && *final(idx) == *old(idx),
        0 < order@.len() && *old(idx) < order@.len() ==> r is Some && r->0@ == order@[*old(
            idx,
        ) as int]@ && *final(idx) == *old(idx) + 1,
        0 < order@.len() && *old(idx) >= order@.len() ==> r is Some && r->0@ == order@[0]@
            && *final(idx) == 1,
{
    let active = active_users(queues@);
    let t = texts(vips@);
    let o = texts(order@);
    assert forall|u: Seq<char>| #[trigger] active.contains(u) <==> is_waiting(queues@, u) by {}
    assert forall|j: int| 0 <= j < t.len() implies !is_among(active)(#[trigger] t[j]) by {
        assert(!is_waiting(queues@, vips@[j]@));
    }
    lemma_first_index(t, is_among(active), t.len() as int);
    if order@.len() == 0 {
        assert(o.to_set() =~= Set::<Seq<char>>::empty());
    } else {
        assert(o.to_set().contains(o[0]));
    }
}

/// Whether nobody has a task waiting.
pub open spec fn all_quiet<R>(state: AppState<R>) -> bool {
    forall|u: Seq<char>| !#[trigger] is_waiting(state.queues@, u)
}

/// Whether no backend is online.
pub open spec fn all_offline<R>(state: AppState<R>) -> bool {
    forall|i: int|
        0 <= i < state.backends@.len() ==> !(#[trigger] state.backends@[i]).is_online
}

proof fn lemma_quiet<R>(state: AppState<R>)
    ensures
        active_users(state.queues@) == Set::<Seq<char>>::empty() <==> all_quiet(state),
        state.some_online() <==> !all_offline(state),
{
    let active = active_users(state.queues@);
    assert forall|u: Seq<char>| #[trigger] active.contains(u) <==> is_waiting(state.queues@, u) by {}
    if all_quiet(state) {
        assert forall|u: Seq<char>| !#[trigger] active.contains(u) by {
            assert(!is_waiting(state.queues@, u));
        }
        assert(active =~= Set::<Seq<char>>::empty());
    }
    if active == Set::<Seq<char>>::empty() {
        assert forall|u: Seq<char>| !#[trigger] is_waiting(state.queues@, u) by {
            assert(!active.contains(u));
        }
    }
    if !all_offline(state) {
        let i = choose|i: int|
            0 <= i < state.backends@.len() && (#[trigger] state.backends@[i]).is_online;
        assert(state.backends@[i].is_online);
    }
}

/// With nothing to do, or nobody to do it, the worker waits and nothing changes.
pub proof fn law_select_idle<R>(
    state: &mut AppState<R>,
    idx: &mut usize,
    r: SelectionResult<R>,
)
    requires
        call_ensures(AppState::<R>::select_and_prepare_task, (state, idx), r),
        all_quiet(*old(state)) || all_offline(*old(state)),
    ensures
        r is Wait,
        *final(state) == *old(state),
        *final(idx) == *old(idx),
{
    lemma_quiet(*old(state));
}

/// The worker serves the user whom `choose_user` chooses.
pub proof fn law_select_serves_chosen<R>(
    state: &mut AppState<R>,
    idx: &mut usize,
    r: SelectionResult<R>,
    other_idx: &mut usize,
    chosen: Option<String>,
)
    requires
        call_ensures(AppState::<R>::select_and_prepare_task, (state, idx), r),
        call_ensures(
            choose_user::<R>,
            (&old(state).queues, &old(state).processed_counts, &old(state).vip_user, other_idx),
            chosen,
        ),
        *old(other_idx) == *old(idx),
        !all_offline(*old(state)),
    ensures
        *final(idx) == *final(other_idx),
        r matches SelectionResult::Dispatch(user, _, _, _) ==> chosen is Some && user@
            == chosen->0@,
        r matches SelectionResult::ModelNotFound(task, _) ==> chosen is Some && task
            == old(state).queues@[chosen->0@]@[0],
{
    lemma_quiet(*old(state));
}

/// Whether the first task of `user` has left its queue and nothing else about the queues changed.
pub open spec fn first_left<R>(
    before: AppState<R>,
    after: AppState<R>,
    user: Seq<char>,
) -> bool {
    &&& is_waiting(before.queues@, user)
    &&& after.queues@.dom().contains(user)
    &&& after.queues@[user]@ == before.queues@[user]@.skip(1)
    &&& forall|other: Seq<char>|
        other != user ==> (#[trigger] before.queues@.dom().contains(other)
            == after.queues@.dom().contains(other)) && (before.queues@.dom().contains(other)
            ==> after.queues@[other] == before.queues@[other])
    &&& after.global_counter == before.global_counter + 1
}

proof fn lemma_first_left<R>(
    before: AppState<R>,
    after: AppState<R>,
    user: Seq<char>,
)
    requires
        crate::dispatcher::took_first(before, after, user),
        queue_of(before.queues@, user).len() > 0,
    ensures
        first_left(before, after, user),
{
    let q = before.queues@[user]@;
    assert(q.skip(1) =~= q.drop_first());
    assert(after.queues@[user]@ == queue_of(after.queues@, user));
    assert forall|other: Seq<char>| other != user implies (
    #[trigger] before.queues@.dom().contains(other) == after.queues@.dom().contains(other)) && (
    before.queues@.dom().contains(other) ==> after.queues@[other] == before.queues@[other]) by {
        if before.queues@.dom().contains(other) {
            assert(before.queues@.remove(user)[other] == before.queues@[other]);
            assert(after.queues@.remove(user)[other] == after.queues@[other]);
        }
    }
}

/// A dispatched task is the first of its user's queue and leaves it. It goes to a backend that can
/// take it, the least loaded one for its model and of those the first, within the limit of the model
/// that its name stands for; that backend has one more request, in all and for the model, and
/// nothing else changes.
pub proof fn law_dispatched<R>(
    state: &mut AppState<R>,
    idx: &mut usize,
    r: SelectionResult<R>,
    name: Seq<char>,
    real_name: Seq<char>,
    other: Seq<char>,
)
    requires
        call_ensures(AppState::<R>::select_and_prepare_task, (state, idx), r),
        r is Dispatch,
        stands_for(old(state).model_config.models@, name, real_name),
        json_string_member(
            old(state).queues@[r->Dispatch_0@]@[0].body@,
            "model"@,
        ) == Some(name),
    ensures
        ({
            let user = r->Dispatch_0@;
            let task = r->Dispatch_1;
            let i = r->Dispatch_2 as int;
            let first = old(state).queues@[user]@[0];
            let model = with_tag(real_name);
            let limit = limit_for(old(state).model_config.models@, Some(name));
            let before = old(state).backends@;
            let after = final(state).backends@;
            &&& first_left(*old(state), *final(state), user)
            &&& task.method == first.method
            &&& task.path == first.path
            &&& task.headers == first.headers
            &&& task.responder == first.responder
            &&& is_limit(old(state).model_config.models@, real_name, limit)
            &&& can_take(before, i, model, limit)
            &&& is_configured(before[i], model)
            &&& forall|j: int| #[trigger]
                can_take(before, j, model, limit) ==> {
                    let here = number(before[i].active_models@, model);
                    let there = number(before[j].active_models@, model);
                    here < there || here == there && i <= j
                }
            &&& r->Dispatch_3@ == before[i].url@
            &&& after.len() == before.len()
            &&& forall|j: int| 0 <= j < before.len() && j != i ==> #[trigger] after[j] == before[j]
            &&& after[i].active_requests == before[i].active_requests + 1
            &&& number(after[i].active_models@, model) == number(before[i].active_models@, model) + 1
            &&& other != model ==> number(after[i].active_models@, other) == number(
                before[i].active_models@,
                other,
            )
            &&& after[i] == (BackendStatus {
                active_requests: after[i].active_requests,
                active_models: after[i].active_models,
                ..before[i]
            })
            &&& *final(state) == (AppState {
                queues: final(state).queues,
                global_counter: final(state).global_counter,
                backends: final(state).backends,
                ..*old(state)
            })
        }),
{
    let models = old(state).model_config.models@;
    let user = r->Dispatch_0@;
    lemma_quiet(*old(state));
    lemma_resolved(models, name);
    lemma_with_tag(real_name);
    lemma_limit(models, name, real_name);
    let before = old(state).backends@;
    let i = r->Dispatch_2 as int;
    let model = with_tag(real_name);
    let limit = limit_for(models, Some(name));
    assert(active_users(old(state).queues@).contains(user));
    lemma_first_left(*old(state), *final(state), user);
    assert(is_best(before, model, limit, i));
    lemma_is_configured(before[i], model);
    assert forall|j: int| #[trigger] can_take(before, j, model, limit) implies {
        let here = number(before[i].active_models@, model);
        let there = number(before[j].active_models@, model);
        here < there || here == there && i <= j
    } by {
        assert(admissible(before[j], model, limit));
    }
    assert forall|j: int| 0 <= j < before.len() && j != i implies #[trigger] final(state).backends@[j]
        == before[j] by {}
}

/// On a path that begins with a listed one a dispatched task is counted under the very model that
/// its backend was claimed for, and carries the real name in its body.
pub proof fn law_dispatched_on_listed_path<R>(
    state: &mut AppState<R>,
    idx: &mut usize,
    r: SelectionResult<R>,
    name: Seq<char>,
    real_name: Seq<char>,
    start: Seq<char>,
    rest: Seq<char>,
)
    requires
        call_ensures(AppState::<R>::select_and_prepare_task, (state, idx), r),
        r is Dispatch,
        stands_for(old(state).model_config.models@, name, real_name),
        json_string_member(
            old(state).queues@[r->Dispatch_0@]@[0].body@,
            "model"@,
        ) == Some(name),
        start == "/api/generate"@ || start == "/api/chat"@ || start == "/api/embed"@ || start
            == "/api/embeddings"@ || start == "/chat/completions"@ || start
            == "/v1/chat/completions"@ || start == "/v1/completions"@ || start
            == "/v1/embeddings"@ || start == "/v1/responses"@ || start
            == "/v1/images/generations"@,
        old(state).queues@[r->Dispatch_0@]@[0].path@ == start + rest,
    ensures
        ({
            let task = r->Dispatch_1;
            let i = r->Dispatch_2 as int;
            let first = old(state).queues@[r->Dispatch_0@]@[0];
            &&& task.resolved_model is Some
            &&& task.resolved_model->0@ == with_tag(real_name)
            &&& number(final(state).backends@[i].active_models@, task.resolved_model->0@)
                == number(old(state).backends@[i].active_models@, task.resolved_model->0@) + 1
            &&& real_name == name ==> task.body@ == first.body@
            &&& real_name != name ==> json_with_member(first.body@, "model"@, real_name) == Some(
                task.body@,
            )
            &&& real_name != name && json_string_member(task.body@, "model"@) is Some
                ==> json_string_member(task.body@, "model"@) == Some(real_name)
        }),
{
    let models = old(state).model_config.models@;
    let user = r->Dispatch_0@;
    let first = old(state).queues@[user]@[0];
    law_dispatched(state, idx, r, name, real_name, name);
    lemma_quiet(*old(state));
    lemma_model_path(first.path@, start, rest);
    lemma_resolved(models, name);
    lemma_with_tag(real_name);
}

/// Every task that is dispatched on a path that begins with a listed one is counted under the model
/// that its backend was claimed for: it names a model, and its backend has one more request for it.
pub proof fn law_counted_as_claimed<R>(
    state: &mut AppState<R>,
    idx: &mut usize,
    r: SelectionResult<R>,
    start: Seq<char>,
    rest: Seq<char>,
)
    requires
        call_ensures(AppState::<R>::select_and_prepare_task, (state, idx), r),
        r is Dispatch,
        start == "/api/generate"@ || start == "/api/chat"@ || start == "/api/embed"@ || start
            == "/api/embeddings"@ || start == "/chat/completions"@ || start
            == "/v1/chat/completions"@ || start == "/v1/completions"@ || start
            == "/v1/embeddings"@ || start == "/v1/responses"@ || start
            == "/v1/images/generations"@,
        old(state).queues@[r->Dispatch_0@]@[0].path@ == start + rest,
    ensures
        ({
            let model = r->Dispatch_1.resolved_model;
            let i = r->Dispatch_2 as int;
            &&& model is Some
            &&& 0 <= i < old(state).backends@.len()
            &&& number(final(state).backends@[i].active_models@, model->0@) == number(
                old(state).backends@[i].active_models@,
                model->0@,
            ) + 1
            &&& final(state).backends@[i].active_requests == old(state).backends@[i].active_requests + 1
        }),
{
    let models = old(state).model_config.models@;
    let user = r->Dispatch_0@;
    lemma_quiet(*old(state));
    assert(active_users(old(state).queues@).contains(user));
    let requested = json_string_member(old(state).queues@[user]@[0].body@, "model"@);
    let name = requested->0;
    lemma_resolved(models, name);
    let real_name = resolved(models, name)->0;
    assert(stands_for(models, name, real_name));
    law_dispatched_on_listed_path(state, idx, r, name, real_name, start, rest);
    law_dispatched(state, idx, r, name, real_name, name);
}

/// On any other path a dispatched task goes out as it was queued.
pub proof fn law_dispatched_elsewhere<R>(
    state: &mut AppState<R>,
    idx: &mut usize,
    r: SelectionResult<R>,
)
    requires
        call_ensures(AppState::<R>::select_and_prepare_task, (state, idx), r),
        r is Dispatch,
        !begins_listed(old(state).queues@[r->Dispatch_0@]@[0].path@),
    ensures
        ({
            let task = r->Dispatch_1;
            let first = old(state).queues@[r->Dispatch_0@]@[0];
            &&& task.body@ == first.body@
            &&& task.path == first.path
            &&& opt_text(task.resolved_model) == opt_text(first.resolved_model)
        }),
{
    lemma_quiet(*old(state));
    lemma_begins_listed(old(state).queues@[r->Dispatch_0@]@[0].path@);
    assert(active_users(old(state).queues@).contains(r->Dispatch_0@));
}

/// A task that names no model, or an unknown one, is answered at once; one whose model is known goes
/// to the backend that `pick_backend` picks within its limit, and waits where it picks none.
pub proof fn law_assign<R>(
    state: &mut AppState<R>,
    user: &str,
    requested: Option<String>,
    r: SelectionResult<R>,
    real_name: Seq<char>,
    model: &str,
    limit: usize,
    picked: Option<usize>,
)
    requires
        call_ensures(AppState::<R>::assign, (state, user, requested), r),
        is_waiting(old(state).queues@, user@),
        requested is Some ==> stands_for(
            old(state).model_config.models@,
            requested->0@,
            real_name,
        ) || is_unknown(old(state).model_config.models@, requested->0@),
        model@ == with_tag(real_name),
        call_ensures(concurrency_limit, (&old(state).model_config, &requested), limit),
        call_ensures(pick_backend, (&old(state).backends, model, limit), picked),
    ensures
        ({
            let first = old(state).queues@[user@]@[0];
            let known = requested is Some && stands_for(
                old(state).model_config.models@,
                requested->0@,
                real_name,
            );
            &&& !known ==> (r matches SelectionResult::ModelNotFound(task, _) && task == first)
            &&& known && picked is None ==> r is Wait && *final(state) == *old(state)
            &&& known && picked is Some ==> (r matches SelectionResult::Dispatch(u, task, i, url)
                && u@ == user@ && task == first && can_take(
                old(state).backends@,
                i as int,
                model@,
                limit as int,
            ) && i == picked->0 && url@ == old(state).backends@[i as int].url@)
            &&& r !is Wait ==> first_left(*old(state), *final(state), user@)
        }),
{
    let models = old(state).model_config.models@;
    let backends = old(state).backends@;
    if let Some(name) = requested {
        lemma_resolved(models, name@);
        lemma_with_tag(real_name);
    }
    if r !is Wait {
        lemma_first_left(*old(state), *final(state), user@);
    }
    law_pick_backend(&old(state).backends, model, limit, picked);
    if let Some(i) = picked {
        assert(admissible(backends[i as int], model@, limit as int));
        if let SelectionResult::Dispatch(_, _, j, _) = r {
            assert(can_take(backends, j as int, model@, limit as int));
            assert(admissible(backends[j as int], model@, limit as int));
        }
    } else if let SelectionResult::Dispatch(_, _, j, _) = r {
        assert(can_take(backends, j as int, model@, limit as int));
    } else if some_admissible(backends, model@, limit as int) {
        let j = choose|j: int|
            0 <= j < backends.len() && admissible(#[trigger] backends[j], model@, limit as int);
        assert(can_take(backends, j, model@, limit as int));
    }
}

/// Whether some backend is online.
pub proof fn law_any_online<R>(state: &AppState<R>, r: bool)
    requires
        call_ensures(AppState::<R>::any_online, (state,), r),
    ensures
        r <==> !all_offline(*state),
{
    lemma_quiet(*state);
}

/// A user comes first with fewer processed requests, or with as many and the earlier ID.
pub proof fn law_comes_first(a: &str, b: &str, counts: &StrMap<usize>, r: bool)
    requires
        call_ensures(comes_first, (a, b, counts), r),
    ensures
        number(counts@, a@) < number(counts@, b@) ==> r,
        number(counts@, a@) > number(counts@, b@) ==> !r,
        number(counts@, a@) == number(counts@, b@) ==> (r <==> text_before(a@, b@)),
{
}

/// One more request can be counted unless a counter has reached its end.
pub proof fn law_can_count<R>(state: &AppState<R>, r: bool)
    requires
        call_ensures(AppState::<R>::can_count, (state,), r),
    ensures
        !r <==> state.global_counter == usize::MAX || exists|i: int|
            0 <= i < state.backends@.len() && (#[trigger] state.backends@[i]).active_requests
                == usize::MAX,
{
}

/// A request whose model is known waits, without leaving its queue, only while no backend can take
/// it; one whose model is unknown, or that names none, is answered at once.
pub proof fn law_select_outcome<R>(
    state: &mut AppState<R>,
    idx: &mut usize,
    r: SelectionResult<R>,
    other_idx: &mut usize,
    chosen: Option<String>,
)
    requires
        call_ensures(AppState::<R>::select_and_prepare_task, (state, idx), r),
        call_ensures(
            choose_user::<R>,
            (&old(state).queues, &old(state).processed_counts, &old(state).vip_user, other_idx),
            chosen,
        ),
        *old(other_idx) == *old(idx),
        !all_offline(*old(state)),
        chosen is Some,
    ensures
        ({
            let models = old(state).model_config.models@;
            let first = old(state).queues@[chosen->0@]@[0];
            let requested = json_string_member(first.body@, "model"@);
            &&& r is Wait ==> *final(state) == *old(state)
            &&& r is ModelNotFound <==> (requested is None || is_unknown(models, requested->0))
            &&& r matches SelectionResult::ModelNotFound(task, name) ==> {
                &&& task == first
                &&& requested matches Some(n) ==> name@ == n
                &&& requested is None ==> name@ == "unknown"@
                &&& first_left(*old(state), *final(state), chosen->0@)
                &&& final(state).backends == old(state).backends
            }
            &&& requested matches Some(n) ==> forall|real_name: Seq<char>| #[trigger]
                stands_for(models, n, real_name) ==> {
                    let limit = limit_for(models, Some(n));
                    &&& is_limit(models, real_name, limit)
                    &&& r is Wait <==> forall|j: int| !#[trigger]
                        can_take(old(state).backends@, j, with_tag(real_name), limit)
                }
        }),
{
    lemma_quiet(*old(state));
    let models = old(state).model_config.models@;
    let user = chosen->0@;
    let first = old(state).queues@[user]@[0];
    let requested = json_string_member(first.body@, "model"@);
    assert(active_users(old(state).queues@).contains(user));
    assert(queue_of(old(state).queues@, user)[0] == first);
    if let Some(n) = requested {
        lemma_resolved(models, n);
        assert forall|real_name: Seq<char>| #[trigger] stands_for(models, n, real_name) implies {
            let limit = limit_for(models, Some(n));
            &&& is_limit(models, real_name, limit)
            &&& r is Wait <==> forall|j: int| !#[trigger]
                can_take(old(state).backends@, j, with_tag(real_name), limit)
        } by {
            lemma_limit(models, n, real_name);
            lemma_with_tag(real_name);
            let limit = limit_for(models, Some(n));
            let model = with_tag(real_name);
            let backends = old(state).backends@;
            if some_admissible(backends, model, limit) {
                let j = choose|j: int|
                    0 <= j < backends.len() && admissible(#[trigger] backends[j], model, limit);
                assert(can_take(backends, j, model, limit));
            } else {
                assert forall|j: int| !#[trigger] can_take(backends, j, model, limit) by {
                    if 0 <= j < backends.len() {
                        assert(!admissible(backends[j], model, limit));
                    }
                }
            }
        }
    }
    if r is ModelNotFound {
        lemma_first_left(*old(state), *final(state), user);
    }
}

} // verus!
