//! Startup, reloads, health checks and keep-alive requests.

use crate::appstate::{
    authenticate_request, build_backends, lemma_increasing_distinct, reloaded_from, set_up, urls,
    AppState, BlockedConfig,
};
use crate::auth::UserRegistry;
use crate::backend::{carry_over, BackendStatus};
use crate::health::{
    checked, health, health_report, keep_alive, keep_alive_for_backend, keep_alive_outcome,
    keeps_all, keeps_backend, model_health, models_kept, names_listed, shown_at, shown_somewhere,
    wants_keep_alive, CheckResult, HealthResponse, KeepAlive, KeepAliveOutcome,
};
use crate::json::{json_string_and_number, json_string_member};
use crate::laws::access::vips_of;
use crate::laws::basics::{lemma_covers, lemma_names_on, names_on};
use crate::laws::{is_called, is_unknown, lists_alias, number, same_model};
use crate::models::{known_as, lacks_backends, ConfigError, ModelConfig, ParsedModel};
use crate::seqs::{first_index, lemma_first_index_props};
use crate::strmap::StrMap;
use crate::tags::{display_name, ListedModel, ModelsResponse};
use crate::text::{has_part, has_prefix, text_before, texts};
use axum::http::{HeaderMap, HeaderValue};
use vstd::prelude::*;
use vstd::utf8::encode_utf8;

verus! {

/// Whether some model of the configuration lists the backend `url`.
pub open spec fn is_listed_backend(models: Seq<ParsedModel>, url: Seq<char>) -> bool {
    exists|k: int, j: int|
        0 <= k < models.len() && 0 <= j < models[k].backends@.len() && (
        #[trigger] models[k].backends@[j])@ == url
}

pub proof fn lemma_backend_urls(models: Seq<ParsedModel>, url: Seq<char>)
    ensures
        crate::models::backend_urls(models).contains(url) <==> is_listed_backend(models, url),
{
    if crate::models::backend_urls(models).contains(url) {
        let k = choose|k: int|
            0 <= k < models.len() && texts((#[trigger] models[k]).backends@).contains(url);
        let j = texts(models[k].backends@).index_of(url);
        assert(models[k].backends@[j]@ == url);
    }
    if is_listed_backend(models, url) {
        let (k, j) = choose|k: int, j: int|
            0 <= k < models.len() && 0 <= j < models[k].backends@.len() && (
            #[trigger] models[k].backends@[j])@ == url;
        assert(texts(models[k].backends@)[j] == url);
        assert(texts(models[k].backends@).contains(url));
    }
}

/// Whether `b` is idle and online, for the models that list it, all of them available.
pub open spec fn is_fresh(b: BackendStatus, models: Seq<ParsedModel>) -> bool {
    &&& b.active_requests == 0
    &&& b.processed_count == 0
    &&& b.is_online
    &&& b.active_models@ == Map::<Seq<char>, usize>::empty()
    &&& b.processed_models@ == Map::<Seq<char>, usize>::empty()
    &&& texts(b.configured_models@) == names_on(models, b.url@)
    &&& forall|m: Seq<char>| #[trigger]
        b.model_status@.dom().contains(m) <==> names_on(models, b.url@).contains(m)
    &&& forall|m: Seq<char>| #[trigger] b.model_status@.dom().contains(m) ==> b.model_status@[m]
}

/// Whether `after` is `before` under a new configuration: the same counters and connection, the
/// models that list it now, and of each the status that was known, or available.
pub open spec fn is_continued(
    before: BackendStatus,
    after: BackendStatus,
    models: Seq<ParsedModel>,
) -> bool {
    &&& after.url == before.url
    &&& after.active_requests == before.active_requests
    &&& after.processed_count == before.processed_count
    &&& after.is_online == before.is_online
    &&& after.active_models == before.active_models
    &&& after.processed_models == before.processed_models
    &&& texts(after.configured_models@) == names_on(models, before.url@)
    &&& forall|m: Seq<char>| #[trigger]
        after.model_status@.dom().contains(m) <==> names_on(models, before.url@).contains(m)
    &&& forall|m: Seq<char>| #[trigger]
        after.model_status@.dom().contains(m) ==> after.model_status@[m] == (
        !before.model_status@.dom().contains(m) || before.model_status@[m])
}

/// Whether exactly the listed backends are there, in increasing order of URL.
pub open spec fn are_listed_backends(
    backends: Seq<BackendStatus>,
    models: Seq<ParsedModel>,
) -> bool {
    &&& forall|url: Seq<char>| #[trigger]
        is_listed_backend(models, url) <==> exists|i: int|
            0 <= i < backends.len() && (#[trigger] backends[i]).url@ == url
    &&& forall|i: int, j: int|
        0 <= i < j < backends.len() ==> text_before(
            (#[trigger] backends[i]).url@,
            (#[trigger] backends[j]).url@,
        )
}

proof fn lemma_listed_backends(backends: Seq<BackendStatus>, models: Seq<ParsedModel>)
    requires
        crate::text::increasing(urls(backends)),
        urls(backends).to_set() == crate::models::backend_urls(models),
    ensures
        are_listed_backends(backends, models),
{
    let u = urls(backends);
    assert forall|url: Seq<char>| #[trigger] is_listed_backend(models, url) <==> exists|i: int|
        0 <= i < backends.len() && (#[trigger] backends[i]).url@ == url by {
        lemma_backend_urls(models, url);
        if u.to_set().contains(url) {
            let i = u.index_of(url);
            assert(backends[i].url@ == url);
        }
        if exists|i: int| 0 <= i < backends.len() && (#[trigger] backends[i]).url@ == url {
            let i = choose|i: int| 0 <= i < backends.len() && (#[trigger] backends[i]).url@ == url;
            assert(u[i] == url);
            assert(u.to_set().contains(url));
        }
    }
    assert forall|i: int, j: int| 0 <= i < j < backends.len() implies text_before(
        (#[trigger] backends[i]).url@,
        (#[trigger] backends[j]).url@,
    ) by {
        let before = crate::text::text_order();
        assert(before(u[i], u[j]));
    }
}

/// Whether some model lists no backend.
pub open spec fn has_homeless(models: Seq<ParsedModel>) -> bool {
    exists|k: int| 0 <= k < models.len() && (#[trigger] models[k]).backends@.len() == 0
}

/// Whether `name` is that of the first model that lists no backend.
pub open spec fn is_first_homeless(models: Seq<ParsedModel>, name: Seq<char>) -> bool {
    exists|k: int|
        0 <= k < models.len() && (#[trigger] models[k]).backends@.len() == 0 && models[k].name@
            == name && forall|j: int| 0 <= j < k ==> (#[trigger] models[j]).backends@.len() > 0
}

proof fn lemma_homeless(models: Seq<ParsedModel>)
    ensures
        has_homeless(models) <==> first_index(models, lacks_backends()) != models.len(),
        has_homeless(models) ==> is_first_homeless(
            models,
            models[first_index(models, lacks_backends())].name@,
        ),
{
    let p = lacks_backends();
    lemma_first_index_props(models, p);
    if has_homeless(models) {
        let k = choose|k: int| 0 <= k < models.len() && (#[trigger] models[k]).backends@.len() == 0;
        assert(p(models[k]));
    }
    if first_index(models, p) < models.len() {
        assert(p(models[first_index(models, p)]));
        assert forall|j: int| 0 <= j < first_index(models, p) implies (
        #[trigger] models[j]).backends@.len() > 0 by {
            assert(!p(models[j]));
        }
    }
}

/// The listed backends, as they start.
pub proof fn law_build_backends(config: &ModelConfig, r: Vec<BackendStatus>, i: int)
    requires
        call_ensures(build_backends, (config,), r),
    ensures
        are_listed_backends(r@, config.models@),
        0 <= i < r@.len() ==> is_fresh(r@[i], config.models@),
{
    lemma_listed_backends(r@, config.models@);
    if 0 <= i < r@.len() {
        let b = r@[i];
        assert(b.is_new(b.url@));
        assert(set_up(b, config.models@, Map::empty()));
        lemma_names_on(config.models@, b.url@);
    }
}

/// A backend starts idle and online, with the models that it is given, all of them available.
pub proof fn law_with_models(url: String, models: Vec<String>, r: BackendStatus, model: Seq<char>)
    requires
        call_ensures(BackendStatus::with_models, (url, models), r),
    ensures
        r.url@ == url@,
        r.active_requests == 0,
        r.processed_count == 0,
        r.is_online,
        r.configured_models == models,
        has_model(r, model) <==> r.model_status@.dom().contains(model),
        has_model(r, model) ==> r.model_status@[model],
        number(r.active_models@, model) == 0,
        number(r.processed_models@, model) == 0,
{
    lemma_has_model(r, model);
}

/// A backend without models.
pub proof fn law_new_backend(url: String, r: BackendStatus, model: Seq<char>)
    requires
        call_ensures(BackendStatus::new, (url,), r),
    ensures
        r.url@ == url@,
        r.active_requests == 0,
        r.processed_count == 0,
        r.is_online,
        r.configured_models@.len() == 0,
        !r.model_status@.dom().contains(model),
        number(r.active_models@, model) == 0,
        number(r.processed_models@, model) == 0,
{
}

/// Every model keeps the status that is known of it, and is available where none is; no other model
/// has a status.
pub proof fn law_carry_over(
    models: &Vec<String>,
    earlier: &StrMap<bool>,
    r: StrMap<bool>,
    model: Seq<char>,
)
    requires
        call_ensures(carry_over, (models, earlier), r),
    ensures
        r@.dom().contains(model) <==> exists|i: int|
            0 <= i < models@.len() && (#[trigger] models@[i])@ == model,
        r@.dom().contains(model) ==> r@[model] == (!earlier@.dom().contains(model)
            || earlier@[model]),
{
    let t = texts(models@);
    if t.contains(model) {
        assert(models@[t.index_of(model)]@ == model);
    }
    if exists|i: int| 0 <= i < models@.len() && (#[trigger] models@[i])@ == model {
        let i = choose|i: int| 0 <= i < models@.len() && (#[trigger] models@[i])@ == model;
        assert(t[i] == model);
    }
}

/// At startup every listed backend is there, fresh, and nothing is queued or counted; a
/// configuration with a model that lists no backend is refused.
pub proof fn law_startup<R>(
    parsed: ModelConfig,
    timeout: u64,
    registry: UserRegistry,
    debug: bool,
    ip_header: Option<String>,
    interval: u64,
    blocked: BlockedConfig,
    r: Result<AppState<R>, ConfigError>,
)
    requires
        call_ensures(
            AppState::<R>::new,
            (parsed, timeout, registry, debug, ip_header, interval, blocked),
            r,
        ),
    ensures
        r is Err <==> has_homeless(parsed.models@),
        r matches Err(ConfigError::NoBackends(name)) ==> is_first_homeless(parsed.models@, name@),
        r matches Ok(s) ==> {
            &&& are_listed_backends(s.backends@, parsed.models@)
            &&& forall|i: int|
                0 <= i < s.backends@.len() ==> is_fresh(#[trigger] s.backends@[i], parsed.models@)
            &&& forall|u: Seq<char>| !#[trigger] s.queues@.dom().contains(u)
            &&& forall|u: Seq<char>| !#[trigger] s.processed_counts@.dom().contains(u)
            &&& forall|u: Seq<char>| !#[trigger] s.processing_counts@.dom().contains(u)
            &&& forall|u: Seq<char>| !#[trigger] s.dropped_counts@.dom().contains(u)
            &&& forall|u: Seq<char>| !#[trigger] s.user_ips@.dom().contains(u)
            &&& s.blocked_ips@ == blocked.ips@
            &&& s.blocked_users@ == blocked.users@
            &&& s.user_registry == registry
            &&& texts(s.vip_user@) == vips_of(registry, registry@.len() as int)
            &&& s.model_config == parsed
            &&& s.ip_header == ip_header
            &&& s.timeout == timeout
            &&& s.debug == debug
            &&& s.health_check_interval == interval
            &&& s.cached_tags is None
            &&& s.global_counter == 0
            &&& s.last_backend_idx == 0
        },
{
    lemma_homeless(parsed.models@);
    if let Ok(s) = r {
        lemma_listed_backends(s.backends@, parsed.models@);
        assert forall|i: int| 0 <= i < s.backends@.len() implies is_fresh(
            #[trigger] s.backends@[i],
            parsed.models@,
        ) by {
            let b = s.backends@[i];
            assert(b.is_new(b.url@));
            assert(set_up(b, parsed.models@, Map::empty()));
            lemma_names_on(parsed.models@, b.url@);
        }
        crate::laws::access::lemma_vips(registry);
    }
}

/// After a reload exactly the backends that the new configuration lists are there: each that was
/// there before with its counters and the statuses that were known, each new one fresh. A refused
/// configuration changes nothing, and nothing but backends and configuration ever changes.
pub proof fn law_reload<R>(
    state: &mut AppState<R>,
    parsed: ModelConfig,
    r: Result<(), ConfigError>,
    i: int,
    j: int,
)
    requires
        call_ensures(AppState::<R>::reload_model_config, (state, parsed), r),
        old(state).wf(),
    ensures
        r is Err <==> has_homeless(parsed.models@),
        r matches Err(ConfigError::NoBackends(name)) ==> is_first_homeless(parsed.models@, name@),
        r is Err ==> *final(state) == *old(state),
        r is Ok ==> {
            &&& final(state).model_config == parsed
            &&& are_listed_backends(final(state).backends@, parsed.models@)
            &&& 0 <= i < final(state).backends@.len() && 0 <= j < old(state).backends@.len()
                && old(state).backends@[j].url@ == final(state).backends@[i].url@ ==> is_continued(
                old(state).backends@[j],
                final(state).backends@[i],
                parsed.models@,
            )
            &&& 0 <= i < final(state).backends@.len() && (forall|k: int|
                0 <= k < old(state).backends@.len() ==> (#[trigger] old(state).backends@[k]).url@
                    != final(state).backends@[i].url@) ==> is_fresh(
                final(state).backends@[i],
                parsed.models@,
            )
            &&& *final(state) == (AppState {
                model_config: final(state).model_config,
                backends: final(state).backends,
                ..*old(state)
            })
        },
{
    let models = parsed.models@;
    lemma_homeless(models);
    if r is Ok {
        let before = old(state).backends@;
        let after = final(state).backends@;
        lemma_listed_backends(after, models);
        if 0 <= i < after.len() {
            let b = after[i];
            assert(reloaded_from(b, before, models));
            lemma_names_on(models, b.url@);
            let u = urls(before);
            if 0 <= j < before.len() && before[j].url@ == b.url@ {
                lemma_increasing_distinct(u);
                assert(u[j] == b.url@);
                assert(u.contains(b.url@));
                assert(u.index_of(b.url@) == j);
            }
            if forall|k: int| 0 <= k < before.len() ==> (#[trigger] before[k]).url@ != b.url@ {
                if u.contains(b.url@) {
                    let k = u.index_of(b.url@);
                    assert(before[k].url@ == b.url@);
                }
            }
        }
    }
}

/// Whether an answer lists, in an entry that could be read, a model that differs from `model` at most
/// in the tag.
pub open spec fn lists_model(answer: Option<ModelsResponse>, model: Seq<char>) -> bool {
    answer is Some && exists|e: int|
        0 <= e < answer->0.models@.len() && (#[trigger] answer->0.models@[e]).info is Some
            && same_model(answer->0.models@[e].info->0.name@, model)
}

proof fn lemma_names_listed(entries: Seq<ListedModel>, name: Seq<char>)
    ensures
        entries.filter(crate::health::is_readable()).map_values(
            |l: ListedModel| l.info->0.name@,
        ).contains(name) <==> exists|e: int|
            0 <= e < entries.len() && (#[trigger] entries[e]).info is Some && entries[e].info->0.name@
                == name,
    decreases entries.len(),
{
    reveal(Seq::filter);
    let p = crate::health::is_readable();
    let f = |l: ListedModel| l.info->0.name@;
    let all = entries.filter(p).map_values(f);
    if entries.len() > 0 {
        let rest = entries.drop_last();
        let last = entries.last();
        lemma_names_listed(rest, name);
        let some = rest.filter(p).map_values(f);
        if p(last) {
            assert(all =~= some.push(f(last)));
            crate::seqs::lemma_push_members(some, f(last));
        } else {
            assert(all =~= some);
        }
        if exists|e: int|
            0 <= e < entries.len() && (#[trigger] entries[e]).info is Some && entries[e].info->0.name@
                == name {
            let e = choose|e: int|
                0 <= e < entries.len() && (#[trigger] entries[e]).info is Some
                    && entries[e].info->0.name@ == name;
            if e < rest.len() {
                assert(rest[e] == entries[e]);
            }
        }
        if exists|e: int|
            0 <= e < rest.len() && (#[trigger] rest[e]).info is Some && rest[e].info->0.name@ == name {
            let e = choose|e: int|
                0 <= e < rest.len() && (#[trigger] rest[e]).info is Some && rest[e].info->0.name@
                    == name;
            assert(entries[e] == rest[e]);
        }
    }
}

proof fn lemma_lists_model(answer: Option<ModelsResponse>, model: Seq<char>)
    ensures
        crate::backend::covers(names_listed(answer), model) <==> lists_model(answer, model),
{
    let names = names_listed(answer);
    lemma_covers(names, model);
    if let Some(response) = answer {
        let entries = response.models@;
        if exists|i: int| 0 <= i < names.len() && same_model(#[trigger] names[i], model) {
            let i = choose|i: int| 0 <= i < names.len() && same_model(#[trigger] names[i], model);
            lemma_names_listed(entries, names[i]);
            assert(names.contains(names[i]));
        }
        if lists_model(answer, model) {
            let e = choose|e: int|
                0 <= e < entries.len() && (#[trigger] entries[e]).info is Some && same_model(
                    entries[e].info->0.name@,
                    model,
                );
            let name = entries[e].info->0.name@;
            lemma_names_listed(entries, name);
            let i = names.index_of(name);
            assert(same_model(names[i], model));
        }
    }
}

/// Whether a backend is configured for exactly `model`.
pub open spec fn has_model(b: BackendStatus, model: Seq<char>) -> bool {
    exists|i: int| 0 <= i < b.configured_models@.len() && (#[trigger] b.configured_models@[i])@ == model
}

proof fn lemma_has_model(b: BackendStatus, model: Seq<char>)
    ensures
        has_model(b, model) <==> texts(b.configured_models@).contains(model),
{
    let configured = texts(b.configured_models@);
    if has_model(b, model) {
        let i = choose|i: int|
            0 <= i < b.configured_models@.len() && (#[trigger] b.configured_models@[i])@ == model;
        assert(configured[i] == model);
    }
    if configured.contains(model) {
        assert(b.configured_models@[configured.index_of(model)]@ == model);
    }
}

/// Whether `after` is `before` after a check: online exactly if it answered, with each configured
/// model available exactly if it was listed, whatever the tag, and all else as it was.
pub open spec fn is_checked(
    before: BackendStatus,
    after: BackendStatus,
    result: CheckResult,
    model: Seq<char>,
) -> bool {
    &&& after.is_online == (result is Answered)
    &&& has_model(before, model) ==> {
        &&& after.model_status@.dom().contains(model)
        &&& after.model_status@[model] == (result matches CheckResult::Answered(answer)
            && lists_model(answer, model))
    }
    &&& !has_model(before, model) ==> {
        &&& after.model_status@.dom().contains(model) <==> before.model_status@.dom().contains(model)
        &&& before.model_status@.dom().contains(model) ==> after.model_status@[model]
            == before.model_status@[model]
    }
    &&& after.url == before.url
    &&& after.active_requests == before.active_requests
    &&& after.processed_count == before.processed_count
    &&& after.active_models == before.active_models
    &&& after.processed_models == before.processed_models
    &&& after.configured_models == before.configured_models
}

proof fn lemma_checked(
    before: BackendStatus,
    after: BackendStatus,
    result: CheckResult,
    model: Seq<char>,
)
    requires
        checked(before, after, result),
    ensures
        is_checked(before, after, result, model),
{
    lemma_has_model(before, model);
    if let CheckResult::Answered(answer) = result {
        lemma_lists_model(answer, model);
    }
}

/// What a health check does to a backend.
pub proof fn law_record_check(
    b: &mut BackendStatus,
    result: &CheckResult,
    r: bool,
    model: Seq<char>,
)
    requires
        call_ensures(BackendStatus::record_check, (b, result), r),
    ensures
        is_checked(*old(b), *final(b), *result, model),
        r <==> !old(b).is_online && *result is Answered,
{
    lemma_checked(*old(b), *final(b), *result, model);
}

/// Whether `model` is to be kept loaded: the first model known under its name says so, or none is
/// known.
pub open spec fn is_kept(models: Seq<ParsedModel>, model: Seq<char>) -> bool {
    ||| is_unknown(models, model)
    ||| exists|k: int|
        0 <= k < models.len() && (#[trigger] models[k]).keep_alive && (lists_alias(models, k, model)
            || is_called(models, k, model)) && forall|j: int|
            j < k ==> !#[trigger] lists_alias(models, j, model) && !is_called(models, j, model)
}

proof fn lemma_is_kept(models: Seq<ParsedModel>, model: Seq<char>)
    ensures
        wants_keep_alive(models)(model) <==> is_kept(models, model),
{
    let p = known_as(model);
    lemma_first_index_props(models, p);
    let i = first_index(models, p);
    assert forall|k: int| 0 <= k < models.len() implies (p(#[trigger] models[k]) <==> lists_alias(
        models,
        k,
        model,
    ) || is_called(models, k, model)) by {
        crate::laws::basics::lemma_alias_at(models, k, model);
    }
    if i < models.len() {
        assert(p(models[i]));
        assert(lists_alias(models, i, model) || is_called(models, i, model));
        assert forall|j: int| j < i implies !#[trigger] lists_alias(models, j, model) && !is_called(
            models,
            j,
            model,
        ) by {
            if 0 <= j {
                assert(!p(models[j]));
            }
        }
        if is_kept(models, model) {
            if is_unknown(models, model) {
                assert(!lists_alias(models, i, model));
            } else {
                let k = choose|k: int|
                    0 <= k < models.len() && (#[trigger] models[k]).keep_alive && (lists_alias(
                        models,
                        k,
                        model,
                    ) || is_called(models, k, model)) && forall|j: int|
                        j < k ==> !#[trigger] lists_alias(models, j, model) && !is_called(
                            models,
                            j,
                            model,
                        );
                assert(p(models[k]));
                if i < k {
                    assert(!lists_alias(models, i, model));
                }
                assert(i == k);
            }
        }
    } else {
        assert forall|j: int| !#[trigger] lists_alias(models, j, model) && !is_called(
            models,
            j,
            model,
        ) by {
            if 0 <= j < models.len() {
                assert(!p(models[j]));
            }
        }
    }
}

/// The models of a backend that are to be kept loaded, in configuration order.
pub open spec fn kept_on(b: BackendStatus, models: Seq<ParsedModel>, n: int) -> Seq<Seq<char>>
    decreases n,
{
    if n <= 0 {
        Seq::empty()
    } else if is_kept(models, b.configured_models@[n - 1]@) {
        kept_on(b, models, n - 1).push(b.configured_models@[n - 1]@)
    } else {
        kept_on(b, models, n - 1)
    }
}

proof fn lemma_kept_on(b: BackendStatus, models: Seq<ParsedModel>, n: int)
    requires
        0 <= n <= b.configured_models@.len(),
    ensures
        texts(b.configured_models@).take(n).filter(wants_keep_alive(models)) == kept_on(
            b,
            models,
            n,
        ),
    decreases n,
{
    reveal(Seq::filter);
    if n > 0 {
        let t = texts(b.configured_models@).take(n);
        assert(t.drop_last() =~= texts(b.configured_models@).take(n - 1));
        assert(t.last() == b.configured_models@[n - 1]@);
        lemma_kept_on(b, models, n - 1);
        lemma_is_kept(models, t.last());
    }
}

proof fn lemma_models_kept(b: BackendStatus, models: Seq<ParsedModel>)
    ensures
        models_kept(b, models) == kept_on(b, models, b.configured_models@.len() as int),
{
    let n = b.configured_models@.len() as int;
    lemma_kept_on(b, models, n);
    assert(texts(b.configured_models@).take(n) =~= texts(b.configured_models@));
}

/// Whether `k` asks the backend at `url` to keep `model` loaded for ever.
pub open spec fn asks_for(k: KeepAlive, url: Seq<char>, model: Seq<char>) -> bool {
    &&& k.model@ == model
    &&& k.url@ == url + "/api/generate"@
    &&& k.body@ == json_string_and_number("model"@, model, "keep_alive"@, (-1) as i64)
}

/// Whether `due` asks a backend for exactly the models that are to be kept loaded there, in order.
pub open spec fn asks_backend(
    due: Seq<KeepAlive>,
    b: BackendStatus,
    models: Seq<ParsedModel>,
) -> bool {
    let kept = kept_on(b, models, b.configured_models@.len() as int);
    &&& due.len() == kept.len()
    &&& forall|i: int| 0 <= i < due.len() ==> asks_for(#[trigger] due[i], b.url@, kept[i])
}

/// A keep-alive request names the model, goes to `/api/generate` and asks for no end.
pub proof fn law_keep_alive(url: &str, model: &str, r: KeepAlive)
    requires
        call_ensures(keep_alive, (url, model), r),
    ensures
        asks_for(r, url@, model@),
        json_string_member(encode_utf8(r.body@), "model"@) == Some(model@),
{
}

/// A backend is asked for its configured models that are to be kept loaded.
pub proof fn law_keep_alive_for_backend(
    config: &ModelConfig,
    backend: &BackendStatus,
    r: Vec<KeepAlive>,
)
    requires
        call_ensures(keep_alive_for_backend, (config, backend), r),
    ensures
        asks_backend(r@, *backend, config.models@),
{
    lemma_models_kept(*backend, config.models@);
}

/// What a check of backend `idx` does: it is noted there and nowhere else, and a backend that comes
/// back online is asked to load its models again.
pub proof fn law_record_health<R>(
    state: &mut AppState<R>,
    idx: usize,
    result: &CheckResult,
    r: Vec<KeepAlive>,
    model: Seq<char>,
    j: int,
)
    requires
        call_ensures(AppState::<R>::record_health, (state, idx, result), r),
        idx < old(state).backends@.len(),
    ensures
        final(state).backends@.len() == old(state).backends@.len(),
        is_checked(
            old(state).backends@[idx as int],
            final(state).backends@[idx as int],
            *result,
            model,
        ),
        0 <= j < old(state).backends@.len() && j != idx ==> final(state).backends@[j]
            == old(state).backends@[j],
        !old(state).backends@[idx as int].is_online && *result is Answered ==> asks_backend(
            r@,
            old(state).backends@[idx as int],
            old(state).model_config.models@,
        ),
        old(state).backends@[idx as int].is_online || *result is Unreachable ==> r@.len() == 0,
        *final(state) == (AppState { backends: final(state).backends, ..*old(state) }),
{
    lemma_checked(
        old(state).backends@[idx as int],
        final(state).backends@[idx as int],
        *result,
        model,
    );
    lemma_models_kept(old(state).backends@[idx as int], old(state).model_config.models@);
}

/// Whether backend `i` has a status for `model`, and what it is.
pub open spec fn shows_as(
    backends: Seq<BackendStatus>,
    i: int,
    model: Seq<char>,
    up: bool,
) -> bool {
    &&& 0 <= i < backends.len()
    &&& backends[i].model_status@.dom().contains(model)
    &&& backends[i].model_status@[model] == up
}

/// Whether `text` is the health of `model`: down when no backend shows it as available, up when some
/// does and none, online or not, shows it as unavailable, and degraded otherwise.
pub open spec fn is_health(
    backends: Seq<BackendStatus>,
    model: Seq<char>,
    text: Seq<char>,
) -> bool {
    let some_up = exists|i: int| shows_as(backends, i, model, true);
    let some_down = exists|i: int| shows_as(backends, i, model, false);
    &&& text == "down"@ <==> !some_up
    &&& text == "up"@ <==> some_up && !some_down
    &&& text == "degraded"@ <==> some_up && some_down
}

proof fn lemma_health(backends: Seq<BackendStatus>, model: Seq<char>)
    ensures
        is_health(backends, model, health(backends, model)),
{
    reveal_strlit("down");
    reveal_strlit("up");
    reveal_strlit("degraded");
    assert("down"@.len() == 4 && "up"@.len() == 2 && "degraded"@.len() == 8);
    assert forall|i: int, up: bool| #[trigger] shows_as(backends, i, model, up) == shown_at(
        backends,
        i,
        model,
        up,
    ) by {}
    if shown_somewhere(backends, model, true) {
        let i = choose|i: int| shown_at(backends, i, model, true);
        assert(shows_as(backends, i, model, true));
    }
    if shown_somewhere(backends, model, false) {
        let i = choose|i: int| shown_at(backends, i, model, false);
        assert(shows_as(backends, i, model, false));
    }
    if exists|i: int| shows_as(backends, i, model, true) {
        let i = choose|i: int| shows_as(backends, i, model, true);
        assert(shown_at(backends, i, model, true));
    }
    if exists|i: int| shows_as(backends, i, model, false) {
        let i = choose|i: int| shows_as(backends, i, model, false);
        assert(shown_at(backends, i, model, false));
    }
}

/// The health of a model follows from its statuses on all backends.
pub proof fn law_model_health(backends: &Vec<BackendStatus>, model: &str, r: &'static str)
    requires
        call_ensures(model_health, (backends, model), r),
    ensures
        is_health(backends@, model@, r@),
{
    lemma_health(backends@, model@);
}

/// After a backend that is configured for a model could not be reached the model is not up.
pub proof fn law_unreachable_not_up<R>(
    state: &mut AppState<R>,
    idx: usize,
    due: Vec<KeepAlive>,
    model: &str,
    r: &'static str,
)
    requires
        call_ensures(
            AppState::<R>::record_health,
            (state, idx, &CheckResult::Unreachable),
            due,
        ),
        idx < old(state).backends@.len(),
        has_model(old(state).backends@[idx as int], model@),
        call_ensures(model_health, (&final(state).backends, model), r),
    ensures
        r@ != "up"@,
{
    law_record_health(state, idx, &CheckResult::Unreachable, due, model@, 0);
    lemma_health(final(state).backends@, model@);
    assert(shows_as(final(state).backends@, idx as int, model@, false));
}

/// Whether `shown` is the name under which `model` is shown: the public name in the last entry with
/// that real name, and the real name where there is none.
pub open spec fn is_shown_as(
    models: Seq<ParsedModel>,
    model: Seq<char>,
    shown: Seq<char>,
) -> bool {
    ||| {
        &&& forall|k: int| !#[trigger] is_called(models, k, model)
        &&& shown == model
    }
    ||| exists|k: int| #[trigger]
        is_called(models, k, model) && (forall|j: int|
            j > k ==> !#[trigger] is_called(models, j, model)) && shown == match models[k].public_name {
            Some(name) => name@,
            None => model,
        }
}

pub proof fn lemma_is_shown_as(models: Seq<ParsedModel>, model: Seq<char>)
    ensures
        is_shown_as(models, model, display_name(models, model)),
    decreases models.len(),
{
    if models.len() == 0 {
        assert forall|k: int| !#[trigger] is_called(models, k, model) by {}
    } else if models.last().name@ == model {
        assert(is_called(models, models.len() - 1, model));
    } else {
        let rest = models.drop_last();
        lemma_is_shown_as(rest, model);
        assert forall|k: int| #[trigger] is_called(models, k, model) == is_called(rest, k, model) by {
            if 0 <= k < rest.len() {
                assert(rest[k] == models[k]);
            }
        }
        if exists|k: int| is_called(rest, k, model) {
            let k = choose|k: int| #[trigger]
                is_called(rest, k, model) && (forall|j: int|
                    j > k ==> !#[trigger] is_called(rest, j, model));
            assert(is_called(models, k, model));
            assert forall|j: int| j > k implies !#[trigger] is_called(models, j, model) by {
                assert(!is_called(rest, j, model));
            }
        }
    }
}

pub proof fn lemma_one_shown_name(
    models: Seq<ParsedModel>,
    model: Seq<char>,
    a: Seq<char>,
    b: Seq<char>,
)
    requires
        is_shown_as(models, model, a),
        is_shown_as(models, model, b),
    ensures
        a == b,
{
    if exists|k: int| is_called(models, k, model) {
        let k = choose|k: int| #[trigger]
            is_called(models, k, model) && (forall|j: int|
                j > k ==> !#[trigger] is_called(models, j, model)) && a
                == match models[k].public_name {
                Some(name) => name@,
                None => model,
            };
        let l = choose|l: int| #[trigger]
            is_called(models, l, model) && (forall|j: int|
                j > l ==> !#[trigger] is_called(models, j, model)) && b
                == match models[l].public_name {
                Some(name) => name@,
                None => model,
            };
        assert(is_called(models, k, model) && is_called(models, l, model));
        assert(k == l);
    }
}

/// Whether `report` tells the health of every model that has a status on some backend, online or
/// not, under the name that it is shown as, and tells nothing else.
pub open spec fn tells_health(
    report: Map<Seq<char>, String>,
    backends: Seq<BackendStatus>,
    models: Seq<ParsedModel>,
) -> bool {
    &&& forall|model: Seq<char>, shown: Seq<char>, i: int, up: bool|
        #[trigger] is_shown_as(models, model, shown) && #[trigger] shows_as(backends, i, model, up)
            ==> report.dom().contains(shown)
    &&& forall|shown: Seq<char>| #[trigger]
        report.dom().contains(shown) ==> exists|model: Seq<char>, i: int, up: bool|
            is_shown_as(models, model, shown) && #[trigger] shows_as(backends, i, model, up)
                && is_health(backends, model, report[shown]@)
}

proof fn lemma_tells_health(
    report: Map<Seq<char>, String>,
    backends: Seq<BackendStatus>,
    models: Seq<ParsedModel>,
)
    requires
        crate::health::is_health_report(report, backends, models),
    ensures
        tells_health(report, backends, models),
{
    assert forall|model: Seq<char>, shown: Seq<char>, i: int, up: bool|
        #[trigger] is_shown_as(models, model, shown) && #[trigger] shows_as(
            backends,
            i,
            model,
            up,
        ) implies report.dom().contains(shown) by {
        assert(shown_at(backends, i, model, up));
        assert(crate::health::is_tracked(backends, model));
        lemma_is_shown_as(models, model);
        lemma_one_shown_name(models, model, shown, display_name(models, model));
    }
    assert forall|shown: Seq<char>| #[trigger] report.dom().contains(shown) implies exists|
        model: Seq<char>,
        i: int,
        up: bool,
    |
        is_shown_as(models, model, shown) && #[trigger] shows_as(backends, i, model, up)
            && is_health(backends, model, report[shown]@) by {
        let m = choose|m: Seq<char>|
            crate::health::accounts_for(backends, models, m, shown, report[shown]@);
        lemma_is_shown_as(models, m);
        lemma_health(backends, m);
        let seen = shown_somewhere(backends, m, true);
        let k = choose|k: int| shown_at(backends, k, m, seen);
        assert(shows_as(backends, k, m, seen));
    }
}

/// The report tells the health of every model that has a status. A model that shares its shown name
/// with no other is up exactly when every backend with a status for it shows it as available, down
/// exactly when none does, and degraded otherwise.
pub proof fn law_health_report(
    backends: &Vec<BackendStatus>,
    config: &ModelConfig,
    r: HealthResponse,
    model: Seq<char>,
    shown: Seq<char>,
    i: int,
    up: bool,
)
    requires
        call_ensures(health_report, (backends, config), r),
    ensures
        tells_health(r.models@, backends@, config.models@),
        shows_as(backends@, i, model, up) && is_shown_as(config.models@, model, shown) && (forall|
            other: Seq<char>,
            k: int,
            seen: bool,
        |
            #[trigger] shows_as(backends@, k, other, seen) && is_shown_as(
                config.models@,
                other,
                shown,
            ) ==> other == model) ==> is_health(backends@, model, r.models@[shown]@),
{
    lemma_tells_health(r.models@, backends@, config.models@);
}

/// The health is told to whoever has a valid token.
pub proof fn law_health<R>(
    state: &AppState<R>,
    headers: &HeaderMap<HeaderValue>,
    user: Option<String>,
    r: Option<HealthResponse>,
)
    requires
        call_ensures(AppState::<R>::health, (state, headers), r),
        call_ensures(authenticate_request, (headers, &state.user_registry), user),
    ensures
        r is Some <==> user is Some,
        r matches Some(response) ==> tells_health(
            response.models@,
            state.backends@,
            state.model_config.models@,
        ),
{
    if let Some(response) = r {
        lemma_tells_health(response.models@, state.backends@, state.model_config.models@);
    }
}

/// Whoever has no valid token is answered 401 in place of the health.
pub proof fn law_health_answer<R>(
    state: &AppState<R>,
    headers: &HeaderMap<HeaderValue>,
    user: Option<String>,
    r: Result<HealthResponse, (u16, &'static str)>,
)
    requires
        call_ensures(AppState::<R>::health_answer, (state, headers), r),
        call_ensures(authenticate_request, (headers, &state.user_registry), user),
    ensures
        r is Ok <==> user is Some,
        r matches Ok(response) ==> tells_health(
            response.models@,
            state.backends@,
            state.model_config.models@,
        ),
        r matches Err((status, text)) ==> status == 401 && text@ == "Unauthorized"@,
{
    if let Ok(response) = r {
        lemma_tells_health(response.models@, state.backends@, state.model_config.models@);
    }
}

/// After a backend that is configured for a model could not be reached, no report says of a model
/// with an unshared name that it is up.
pub proof fn law_unreachable_not_reported_up<R>(
    state: &mut AppState<R>,
    idx: usize,
    due: Vec<KeepAlive>,
    model: Seq<char>,
    shown: Seq<char>,
    r: HealthResponse,
)
    requires
        call_ensures(
            AppState::<R>::record_health,
            (state, idx, &CheckResult::Unreachable),
            due,
        ),
        idx < old(state).backends@.len(),
        has_model(old(state).backends@[idx as int], model),
        is_shown_as(final(state).model_config.models@, model, shown),
        forall|other: Seq<char>, k: int, seen: bool| #[trigger]
            shows_as(final(state).backends@, k, other, seen) && is_shown_as(
                final(state).model_config.models@,
                other,
                shown,
            ) ==> other == model,
        call_ensures(health_report, (&final(state).backends, &final(state).model_config), r),
    ensures
        r.models@.dom().contains(shown),
        r.models@[shown]@ != "up"@,
{
    law_record_health(state, idx, &CheckResult::Unreachable, due, model, 0);
    assert(shows_as(final(state).backends@, idx as int, model, false));
    law_health_report(
        &final(state).backends,
        &final(state).model_config,
        r,
        model,
        shown,
        idx as int,
        false,
    );
}

/// Every backend is checked at its listing.
pub proof fn law_checks<R>(state: &AppState<R>, r: Vec<String>, i: int)
    requires
        call_ensures(AppState::<R>::checks, (state,), r),
        0 <= i < state.backends@.len(),
    ensures
        r@.len() == state.backends@.len(),
        r@[i]@ == state.backends@[i].url@ + "/api/tags"@,
{
}

/// A keep-alive request is refused by an unsuccessful answer, and done by a successful one that says
/// `"done":true` or gives a `"done_reason"` anywhere.
pub proof fn law_keep_alive_outcome(
    is_success: bool,
    body: &str,
    r: KeepAliveOutcome,
    a: Seq<char>,
    b: Seq<char>,
)
    requires
        call_ensures(keep_alive_outcome, (is_success, body), r),
    ensures
        !is_success <==> r == KeepAliveOutcome::Refused,
        is_success && (body@ == a + "\"done\":true"@ + b || body@ == a + "\"done_reason\""@ + b) ==> r
            == KeepAliveOutcome::Kept,
        r == KeepAliveOutcome::Kept ==> exists|c: Seq<char>, d: Seq<char>|
            body@ == #[trigger] (c + "\"done\":true"@ + d) || body@ == (c + "\"done_reason\""@ + d),
{
    lemma_part(body@, "\"done\":true"@, a, b);
    lemma_part(body@, "\"done_reason\""@, a, b);
    if r == KeepAliveOutcome::Kept {
        let part = if has_part(body@, "\"done\":true"@) {
            "\"done\":true"@
        } else {
            "\"done_reason\""@
        };
        let i = choose|i: int| 0 <= i <= body@.len() && has_prefix(#[trigger] body@.skip(i), part);
        let c = body@.take(i);
        let d = body@.skip(i).skip(part.len() as int);
        assert(body@.skip(i) =~= part + d);
        assert(body@ =~= c + part + d);
        let whole = c + "\"done\":true"@ + d;
        assert(body@ == whole || body@ == c + "\"done_reason\""@ + d);
    }
}

proof fn lemma_part(s: Seq<char>, part: Seq<char>, a: Seq<char>, b: Seq<char>)
    ensures
        s == a + part + b ==> has_part(s, part),
{
    if s == a + part + b {
        let i = a.len() as int;
        assert(s.skip(i) =~= part + b);
        assert((part + b).take(part.len() as int) =~= part);
        assert(has_prefix(s.skip(i), part));
    }
}

/// How many of the keep-alive requests come from the first `n` backends: those of the online ones.
pub open spec fn due_before(
    backends: Seq<BackendStatus>,
    models: Seq<ParsedModel>,
    n: int,
) -> int
    decreases n,
{
    if n <= 0 {
        0
    } else if backends[n - 1].is_online {
        due_before(backends, models, n - 1) + kept_on(
            backends[n - 1],
            models,
            backends[n - 1].configured_models@.len() as int,
        ).len()
    } else {
        due_before(backends, models, n - 1)
    }
}

proof fn lemma_keeps_all(
    r: Seq<KeepAlive>,
    backends: Seq<BackendStatus>,
    models: Seq<ParsedModel>,
    n: int,
    i: int,
)
    requires
        0 <= n <= backends.len(),
        keeps_all(r, backends.take(n), models),
    ensures
        r.len() == due_before(backends, models, n),
        0 <= i < n && backends[i].is_online ==> 0 <= due_before(backends, models, i)
            <= due_before(backends, models, i + 1) <= r.len() && asks_backend(
            r.subrange(due_before(backends, models, i), due_before(backends, models, i + 1)),
            backends[i],
            models,
        ),
    decreases n,
{
    let part = backends.take(n);
    if n > 0 {
        assert(part.drop_last() =~= backends.take(n - 1));
        assert(part.last() == backends[n - 1]);
        lemma_models_kept(backends[n - 1], models);
        if backends[n - 1].is_online {
            let k = r.len() - models_kept(backends[n - 1], models).len();
            lemma_keeps_all(r.take(k), backends, models, n - 1, i);
            if i == n - 1 {
                assert(r.subrange(k, r.len() as int) =~= r.skip(k));
                assert(keeps_backend(r.skip(k), backends[n - 1], models));
            } else if 0 <= i < n - 1 && backends[i].is_online {
                let a = due_before(backends, models, i);
                let b = due_before(backends, models, i + 1);
                assert(r.take(k).subrange(a, b) =~= r.subrange(a, b));
            }
        } else {
            lemma_keeps_all(r, backends, models, n - 1, i);
        }
    }
}

/// All online backends, one after the other, and no others, are asked for the models that are to be
/// kept loaded there.
pub proof fn law_all_keep_alives<R>(state: &AppState<R>, r: Vec<KeepAlive>, i: int)
    requires
        call_ensures(AppState::<R>::all_keep_alives, (state,), r),
    ensures
        ({
            let backends = state.backends@;
            let models = state.model_config.models@;
            &&& r@.len() == due_before(backends, models, backends.len() as int)
            &&& 0 <= i < backends.len() && backends[i].is_online ==> asks_backend(
                r@.subrange(due_before(backends, models, i), due_before(backends, models, i + 1)),
                backends[i],
                models,
            )
        }),
{
    let backends = state.backends@;
    assert(backends.take(backends.len() as int) =~= backends);
    lemma_keeps_all(r@, backends, state.model_config.models@, backends.len() as int, i);
}

} // verus!
