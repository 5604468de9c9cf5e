//! Health checks, keep-alive requests and the health report.

use crate::appstate::{authenticate_request, request_user, urls, AppState};
use crate::backend::{base_name, base_of, covers, BackendStatus};
use crate::dispatcher::admissible;
use crate::json::{
    json_string_and_number, json_string_member, raw_value_key, string_and_number,
};
use crate::models::{model_known_as, ModelConfig, ParsedModel};
use crate::seqs::lemma_filter_push;
use crate::strmap::StrMap;
use crate::tags::{display_name, display_name_of, ListedModel, ModelsResponse};
use crate::text::{contains_text, has_part, joined, str_eq, texts};
use axum::http::{HeaderMap, HeaderValue};
use vstd::prelude::*;
use vstd::utf8::encode_utf8;

verus! {

/// How a backend took a health check.
pub enum CheckResult {
    /// It answered, with a listing of its models where the answer could be read.
    Answered(Option<ModelsResponse>),
    /// It could not be reached.
    Unreachable,
}

/// Being readable as a whole.
pub open spec fn is_readable() -> spec_fn(ListedModel) -> bool {
    |l: ListedModel| l.info is Some
}

/// The names in a listing, as far as its entries can be read; none in an unreadable answer.
pub open spec fn names_listed(answer: Option<ModelsResponse>) -> Seq<Seq<char>> {
    match answer {
        Some(response) => response.models@.filter(is_readable()).map_values(
            |l: ListedModel| l.info->0.name@,
        ),
        None => Seq::empty(),
    }
}

/// The names in a listing, as far as its entries can be read; none in an unreadable answer.
pub fn listed_names(answer: &Option<ModelsResponse>) -> (r: Vec<String>)
    ensures
        texts(r@) == names_listed(*answer),
{
    let mut r: Vec<String> = Vec::new();
    match answer {
        None => {
            assert(texts(r@) =~= Seq::<Seq<char>>::empty());
        },
        Some(response) => {
            let ghost all = response.models@;
            let ghost p = is_readable();
            let mut i: usize = 0;
            proof {
                reveal(Seq::filter);
                assert(texts(r@) =~= all.take(0).filter(p).map_values(
                    |l: ListedModel| l.info->0.name@,
                ));
            }
            while i < response.models.len()
                invariant
                    i <= all.len(),
                    all == response.models@,
                    p == is_readable(),
                    texts(r@) == all.take(i as int).filter(p).map_values(
                        |l: ListedModel| l.info->0.name@,
                    ),
                decreases all.len() - i,
            {
                proof {
                    lemma_filter_push(all, p, i as int);
                }
                let ghost before = texts(r@);
                if let Some(info) = &response.models[i].info {
                    r.push(info.name.clone());
                    assert(texts(r@) =~= before.push(info.name@));
                }
                assert(texts(r@) =~= all.take(i + 1).filter(p).map_values(
                    |l: ListedModel| l.info->0.name@,
                ));
                i += 1;
            }
            assert(all.take(i as int) =~= all);
        },
    }
    r
}

/// The statuses after a check: each configured model as `available` says, all others as before.
pub open spec fn status_after(
    configured: Seq<Seq<char>>,
    earlier: Map<Seq<char>, bool>,
    available: spec_fn(Seq<char>) -> bool,
) -> Map<Seq<char>, bool> {
    Map::new(
        |k: Seq<char>| configured.contains(k) || earlier.dom().contains(k),
        |k: Seq<char>|
            if configured.contains(k) {
                available(k)
            } else {
                earlier[k]
            },
    )
}

/// Having the base name of something in `listed`.
pub open spec fn is_listed(listed: Seq<Seq<char>>) -> spec_fn(Seq<char>) -> bool {
    |k: Seq<char>| covers(listed, k)
}

/// Never.
pub open spec fn never() -> spec_fn(Seq<char>) -> bool {
    |k: Seq<char>| false
}

/// Having the base name of something listed; never without a listing.
spec fn availability(listed: Option<Vec<String>>) -> spec_fn(Seq<char>) -> bool {
    match listed {
        Some(names) => is_listed(texts(names@)),
        None => never(),
    }
}

/// Whether `after` is `before` after a check with this result. A backend that answers is online,
/// and has those of its configured models that it lists, whatever their tags. One that cannot be
/// reached is offline and has none of them.
pub open spec fn checked(before: BackendStatus, after: BackendStatus, result: CheckResult) -> bool {
    let configured = texts(before.configured_models@);
    &&& after.is_online == (result is Answered)
    &&& after.model_status@ == match result {
        CheckResult::Answered(answer) => status_after(
            configured,
            before.model_status@,
            is_listed(names_listed(answer)),
        ),
        CheckResult::Unreachable => status_after(configured, before.model_status@, never()),
    }
    &&& after == (BackendStatus {
        is_online: after.is_online,
        model_status: after.model_status,
        ..before
    })
}

/// Whether something in `names` has the base name of `model`.
fn name_listed(names: &Vec<String>, model: &str) -> (r: bool)
    ensures
        r == covers(texts(names@), model@),
{
    let base = base_of(model);
    let mut i: usize = 0;
    while i < names.len()
        invariant
            i <= names@.len(),
            base@ == base_name(model@),
            forall|j: int| 0 <= j < i ==> base_name(#[trigger] texts(names@)[j]) != base_name(model@),
        decreases names@.len() - i,
    {
        if str_eq(base_of(names[i].as_str()), base) {
            assert(base_name(texts(names@)[i as int]) == base_name(model@));
            return true;
        }
        i += 1;
    }
    false
}

impl BackendStatus {
    /// Notes the status of every configured model: available if `listed` has its base name, and
    /// unavailable without a listing.
    fn note_models(&mut self, listed: &Option<Vec<String>>)
        requires
            old(self).wf(),
        ensures
            final(self).wf(),
            final(self).model_status@ == status_after(
                texts(old(self).configured_models@),
                old(self).model_status@,
                availability(*listed),
            ),
            *final(self) == (BackendStatus { model_status: final(self).model_status, ..*old(self) }),
    {
        let ghost configured = texts(self.configured_models@);
        let ghost earlier = self.model_status@;
        let ghost available = availability(*listed);
        let mut i: usize = 0;
        assert(self.model_status@ =~= status_after(configured.take(0), earlier, available));
        while i < self.configured_models.len()
            invariant
                i <= configured.len(),
                configured == texts(self.configured_models@),
                self.wf(),
                available == availability(*listed),
                self.model_status@ == status_after(configured.take(i as int), earlier, available),
                *self == (BackendStatus { model_status: self.model_status, ..*old(self) }),
            decreases configured.len() - i,
        {
            let name = self.configured_models[i].clone();
            let here = match listed {
                Some(names) => name_listed(names, name.as_str()),
                None => false,
            };
            assert(here == available(name@));
            self.model_status.insert(name, here);
            proof {
                let short = configured.take(i as int);
                let long = configured.take(i + 1);
                assert(long =~= short.push(configured[i as int]));
                crate::seqs::lemma_push_members(short, configured[i as int]);
                assert(self.model_status@ =~= status_after(long, earlier, available));
            }
            i += 1;
        }
        assert(configured.take(i as int) =~= configured);
    }

    /// Notes the result of a health check. Returns whether the backend has come back online.
    pub fn record_check(&mut self, result: &CheckResult) -> (r: bool)
        requires
            old(self).wf(),
        ensures
            final(self).wf(),
            checked(*old(self), *final(self), *result),
            r == (!old(self).is_online && result is Answered),
    {
        let was_online = self.is_online;
        match result {
            CheckResult::Answered(answer) => {
                let names = listed_names(answer);
                self.note_models(&Some(names));
                self.is_online = true;
                !was_online
            },
            CheckResult::Unreachable => {
                self.note_models(&None);
                self.is_online = false;
                false
            },
        }
    }
}

/// A request that keeps a model loaded on a backend.
pub struct KeepAlive {
    pub model: String,
    pub url: String,
    pub body: String,
}

/// Being a model that is to be kept loaded.
pub open spec fn wants_keep_alive(models: Seq<ParsedModel>) -> spec_fn(Seq<char>) -> bool {
    |name: Seq<char>|
        match model_known_as(models, name) {
            Some(m) => m.keep_alive,
            None => true,
        }
}

/// The models of `b` that are to be kept loaded.
pub open spec fn models_kept(b: BackendStatus, models: Seq<ParsedModel>) -> Seq<Seq<char>> {
    texts(b.configured_models@).filter(wants_keep_alive(models))
}

/// Whether `k` keeps `model` loaded on the backend at `url`.
pub open spec fn keeps(k: KeepAlive, url: Seq<char>, model: Seq<char>) -> bool {
    &&& k.model@ == model
    &&& k.url@ == url + "/api/generate"@
    &&& k.body@ == json_string_and_number("model"@, model, "keep_alive"@, (-1) as i64)
}

/// Whether `r` keeps loaded what is to be kept loaded on `b`, in configuration order.
pub open spec fn keeps_backend(
    r: Seq<KeepAlive>,
    b: BackendStatus,
    models: Seq<ParsedModel>,
) -> bool {
    let kept = models_kept(b, models);
    &&& r.len() == kept.len()
    &&& forall|i: int| 0 <= i < r.len() ==> keeps(#[trigger] r[i], b.url@, kept[i])
}

/// The request that keeps `model` loaded on the backend at `url`.
pub fn keep_alive(url: &str, model: &str) -> (r: KeepAlive)
    ensures
        keeps(r, url@, model@),
        json_string_member(encode_utf8(r.body@), "model"@) == Some(model@),
{
    proof {
        reveal_strlit("model");
        reveal_strlit("keep_alive");
        reveal_strlit("$serde_json::private::RawValue");
        assert("model"@.len() != "keep_alive"@.len());
        assert("model"@.len() != raw_value_key().len());
        assert("keep_alive"@.len() != raw_value_key().len());
    }
    KeepAlive {
        model: model.to_owned(),
        url: joined(url, "/api/generate"),
        body: string_and_number("model", model, "keep_alive", -1),
    }
}

/// The requests that keep a backend's eligible models loaded.
pub fn keep_alive_for_backend(config: &ModelConfig, backend: &BackendStatus) -> (r: Vec<KeepAlive>)
    ensures
        keeps_backend(r@, *backend, config.models@),
{
    let ghost p = wants_keep_alive(config.models@);
    let ghost names = texts(backend.configured_models@);
    let mut r: Vec<KeepAlive> = Vec::new();
    let mut i: usize = 0;
    proof {
        reveal(Seq::filter);
    }
    while i < backend.configured_models.len()
        invariant
            i <= names.len(),
            names == texts(backend.configured_models@),
            p == wants_keep_alive(config.models@),
            r@.len() == names.take(i as int).filter(p).len(),
            forall|j: int|
                0 <= j < r@.len() ==> keeps(
                    #[trigger] r@[j],
                    backend.url@,
                    names.take(i as int).filter(p)[j],
                ),
        decreases names.len() - i,
    {
        proof {
            lemma_filter_push(names, p, i as int);
        }
        let name = backend.configured_models[i].as_str();
        let wanted = match config.get_model(name) {
            Some(m) => m.keep_alive,
            None => true,
        };
        if wanted {
            r.push(keep_alive(backend.url.as_str(), name));
        }
        i += 1;
    }
    assert(names.take(i as int) =~= names);
    r
}

/// Whether `r` lists, backend by backend, the keep-alive requests of the online ones.
pub open spec fn keeps_all(
    r: Seq<KeepAlive>,
    backends: Seq<BackendStatus>,
    models: Seq<ParsedModel>,
) -> bool
    decreases backends.len(),
{
    if backends.len() == 0 {
        r.len() == 0
    } else if backends.last().is_online {
        let n = r.len() - models_kept(backends.last(), models).len();
        &&& n >= 0
        &&& keeps_backend(r.skip(n), backends.last(), models)
        &&& keeps_all(r.take(n), backends.drop_last(), models)
    } else {
        keeps_all(r, backends.drop_last(), models)
    }
}

/// What came of a keep-alive request.
#[derive(Clone, Copy, Debug, PartialEq, Eq, Structural)]
pub enum KeepAliveOutcome {
    /// The model is loaded.
    Kept,
    /// The backend accepted the request without saying so.
    Accepted,
    /// The backend refused the request.
    Refused,
}

/// What came of a keep-alive request that was answered with `body`.
pub fn keep_alive_outcome(is_success: bool, body: &str) -> (r: KeepAliveOutcome)
    ensures
        r == if !is_success {
            KeepAliveOutcome::Refused
        } else if has_part(body@, "\"done\":true"@) || has_part(body@, "\"done_reason\""@) {
            KeepAliveOutcome::Kept
        } else {
            KeepAliveOutcome::Accepted
        },
{
    if !is_success {
        KeepAliveOutcome::Refused
    } else if contains_text(body, "\"done\":true") || contains_text(body, "\"done_reason\"") {
        KeepAliveOutcome::Kept
    } else {
        KeepAliveOutcome::Accepted
    }
}

/// Health check response structure
pub struct HealthResponse {
    pub models: StrMap<String>,
}

/// Whether backend `i` shows `model` as available (`up`) or as unavailable (not `up`).
pub open spec fn shown_at(backends: Seq<BackendStatus>, i: int, model: Seq<char>, up: bool) -> bool {
    &&& 0 <= i < backends.len()
    &&& backends[i].model_status@.dom().contains(model)
    &&& backends[i].model_status@[model] == up
}

/// Whether some backend shows `model` as available (`up`) or as unavailable (not `up`).
pub open spec fn shown_somewhere(backends: Seq<BackendStatus>, model: Seq<char>, up: bool) -> bool {
    exists|i: int| shown_at(backends, i, model, up)
}

/// Whether some backend has a status for `model`.
pub open spec fn is_tracked(backends: Seq<BackendStatus>, model: Seq<char>) -> bool {
    shown_somewhere(backends, model, true) || shown_somewhere(backends, model, false)
}

/// The health of a model: `down` if no backend shows it as available, `up` if none shows it as
/// unavailable, else `degraded`.
pub open spec fn health(backends: Seq<BackendStatus>, model: Seq<char>) -> Seq<char> {
    if !shown_somewhere(backends, model, true) {
        "down"@
    } else if !shown_somewhere(backends, model, false) {
        "up"@
    } else {
        "degraded"@
    }
}

/// Whether the report says `text` of the display name `shown` because of `model`.
pub open spec fn accounts_for(
    backends: Seq<BackendStatus>,
    models: Seq<ParsedModel>,
    model: Seq<char>,
    shown: Seq<char>,
    text: Seq<char>,
) -> bool {
    &&& is_tracked(backends, model)
    &&& display_name(models, model) == shown
    &&& health(backends, model) == text
}

/// Whether `report` tells the health of every model that has a status, under its display name.
/// Where several models share a display name, it tells that of one of them.
pub open spec fn is_health_report(
    report: Map<Seq<char>, String>,
    backends: Seq<BackendStatus>,
    models: Seq<ParsedModel>,
) -> bool {
    &&& forall|m: Seq<char>| #[trigger]
        is_tracked(backends, m) ==> report.dom().contains(display_name(models, m))
    &&& forall|d: Seq<char>| #[trigger]
        report.dom().contains(d) ==> exists|m: Seq<char>|
            accounts_for(backends, models, m, d, report[d]@)
}

/// Whether some backend shows `model` as available (`up`) or as unavailable (not `up`).
fn seen_as(backends: &Vec<BackendStatus>, model: &str, up: bool) -> (r: bool)
    requires
        forall|i: int| 0 <= i < backends@.len() ==> (#[trigger] backends@[i]).wf(),
    ensures
        r == shown_somewhere(backends@, model@, up),
{
    let mut i: usize = 0;
    while i < backends.len()
        invariant
            i <= backends@.len(),
            forall|j: int| 0 <= j < backends@.len() ==> (#[trigger] backends@[j]).wf(),
            forall|j: int| 0 <= j < i ==> !shown_at(backends@, j, model@, up),
        decreases backends@.len() - i,
    {
        if let Some(status) = backends[i].model_status.get(model) {
            if *status == up {
                assert(shown_at(backends@, i as int, model@, up));
                return true;
            }
        }
        assert(!shown_at(backends@, i as int, model@, up));
        i += 1;
    }
    false
}

/// The health of a model.
pub fn model_health(backends: &Vec<BackendStatus>, model: &str) -> (r: &'static str)
    requires
        forall|i: int| 0 <= i < backends@.len() ==> (#[trigger] backends@[i]).wf(),
    ensures
        r@ == health(backends@, model@),
{
    if !seen_as(backends, model, true) {
        "down"
    } else if !seen_as(backends, model, false) {
        "up"
    } else {
        "degraded"
    }
}

/// Whether `model` has a status on one of the first `i` backends, or among the first `k` statuses
/// of backend `i`.
spec fn visited(backends: Seq<BackendStatus>, i: int, k: int, model: Seq<char>) -> bool {
    ||| exists|j: int|
        0 <= j < i && #[trigger] backends[j].model_status@.dom().contains(model)
    ||| i < backends.len() && backends[i].model_status.keys().take(k).contains(model)
}

/// The health of all models, under their display names.
pub fn health_report(backends: &Vec<BackendStatus>, config: &ModelConfig) -> (r: HealthResponse)
    requires
        forall|i: int| 0 <= i < backends@.len() ==> (#[trigger] backends@[i]).wf(),
    ensures
        r.models.wf(),
        is_health_report(r.models@, backends@, config.models@),
{
    let ghost all = backends@;
    let ghost models = config.models@;
    let mut report: StrMap<String> = StrMap::new();
    let mut i: usize = 0;
    while i < backends.len()
        invariant
            i <= all.len(),
            all == backends@,
            models == config.models@,
            forall|j: int| 0 <= j < all.len() ==> (#[trigger] all[j]).wf(),
            report.wf(),
            forall|m: Seq<char>| #[trigger]
                visited(all, i as int, 0, m) ==> report@.dom().contains(display_name(models, m)),
            forall|d: Seq<char>| #[trigger]
                report@.dom().contains(d) ==> exists|m: Seq<char>|
                    accounts_for(all, models, m, d, report@[d]@),
        decreases all.len() - i,
    {
        let status = &backends[i].model_status;
        let ghost keys = status.keys();
        let mut k: usize = 0;
        while k < status.len()
            invariant
                i < all.len(),
                k <= keys.len(),
                all == backends@,
                models == config.models@,
                *status == all[i as int].model_status,
                keys == status.keys(),
                status.wf(),
                forall|j: int| 0 <= j < all.len() ==> (#[trigger] all[j]).wf(),
                report.wf(),
                forall|m: Seq<char>| #[trigger]
                    visited(all, i as int, k as int, m) ==> report@.dom().contains(
                        display_name(models, m),
                    ),
                forall|d: Seq<char>| #[trigger]
                    report@.dom().contains(d) ==> exists|m: Seq<char>|
                        accounts_for(all, models, m, d, report@[d]@),
            decreases keys.len() - k,
        {
            let name = status.key_at(k).as_str();
            let ghost before = report@;
            let shown = display_name_of(config, name);
            let text = model_health(backends, name).to_owned();
            let ghost said = text@;
            report.insert(shown.to_owned(), text);
            proof {
                status.lemma_keys();
                assert(status@.dom().contains(keys[k as int]));
                assert(shown_at(all, i as int, name@, status@[name@]));
                assert(accounts_for(all, models, name@, shown@, said));
                assert forall|d: Seq<char>| #[trigger] report@.dom().contains(d) implies exists|
                    m: Seq<char>,
                |
                    accounts_for(all, models, m, d, report@[d]@) by {
                    if d == shown@ {
                        assert(accounts_for(all, models, name@, d, report@[d]@));
                    } else {
                        assert(before.dom().contains(d));
                    }
                }
                assert forall|m: Seq<char>| #[trigger]
                    visited(all, i as int, k + 1, m) implies report@.dom().contains(
                    display_name(models, m),
                ) by {
                    assert(keys.take(k + 1) =~= keys.take(k as int).push(keys[k as int]));
                    crate::seqs::lemma_push_members(keys.take(k as int), keys[k as int]);
                    if m != name@ {
                        assert(visited(all, i as int, k as int, m));
                    }
                }
            }
            k += 1;
        }
        proof {
            assert forall|m: Seq<char>| #[trigger]
                visited(all, i + 1, 0, m) implies report@.dom().contains(
                display_name(models, m),
            ) by {
                status.lemma_keys();
                assert(keys.take(k as int) =~= keys);
                if all[i as int].model_status@.dom().contains(m) {
                    assert(keys.contains(m));
                }
                assert(visited(all, i as int, k as int, m));
            }
        }
        i += 1;
    }
    proof {
        assert forall|m: Seq<char>| #[trigger] is_tracked(all, m) implies report@.dom().contains(
            display_name(models, m),
        ) by {
            let up = shown_somewhere(all, m, true);
            let j = choose|j: int| shown_at(all, j, m, up);
            assert(all[j].model_status@.dom().contains(m));
            assert(visited(all, i as int, 0, m));
        }
    }
    HealthResponse { models: report }
}

impl<R> AppState<R> {
    /// Where to send the next health checks: the listing of every backend, in order.
    pub fn checks(&self) -> (r: Vec<String>)
        ensures
            r@.len() == self.backends@.len(),
            forall|i: int|
                0 <= i < r@.len() ==> (#[trigger] r@[i])@ == self.backends@[i].url@ + "/api/tags"@,
    {
        let mut r: Vec<String> = Vec::new();
        let mut i: usize = 0;
        while i < self.backends.len()
            invariant
                i <= self.backends@.len(),
                r@.len() == i,
                forall|j: int|
                    0 <= j < i ==> (#[trigger] r@[j])@ == self.backends@[j].url@ + "/api/tags"@,
            decreases self.backends@.len() - i,
        {
            r.push(joined(self.backends[i].url.as_str(), "/api/tags"));
            i += 1;
        }
        r
    }

    /// Notes the result of a health check of the backend at `idx`. Returns the keep-alive requests
    /// that are due because the backend has come back online.
    pub fn record_health(&mut self, idx: usize, result: &CheckResult) -> (r: Vec<KeepAlive>)
        requires
            old(self).wf(),
            idx < old(self).backends@.len(),
        ensures
            final(self).wf(),
            final(self).backends@ == old(self).backends@.update(
                idx as int,
                final(self).backends@[idx as int],
            ),
            checked(
                old(self).backends@[idx as int],
                final(self).backends@[idx as int],
                *result,
            ),
            *final(self) == (AppState { backends: final(self).backends, ..*old(self) }),
            if !old(self).backends@[idx as int].is_online && result is Answered {
                keeps_backend(r@, old(self).backends@[idx as int], old(self).model_config.models@)
            } else {
                r@.len() == 0
            },
    {
        let ghost earlier = self.backends@;
        let came_back = self.backends[idx].record_check(result);
        proof {
            assert(self.backends@ =~= earlier.update(idx as int, self.backends@[idx as int]));
            assert(urls(self.backends@) =~= urls(earlier));
        }
        if came_back {
            keep_alive_for_backend(&self.model_config, &self.backends[idx])
        } else {
            Vec::new()
        }
    }

    /// The keep-alive requests of all online backends.
    pub fn all_keep_alives(&self) -> (r: Vec<KeepAlive>)
        ensures
            keeps_all(r@, self.backends@, self.model_config.models@),
    {
        let ghost models = self.model_config.models@;
        let mut r: Vec<KeepAlive> = Vec::new();
        let mut i: usize = 0;
        while i < self.backends.len()
            invariant
                i <= self.backends@.len(),
                models == self.model_config.models@,
                keeps_all(r@, self.backends@.take(i as int), models),
            decreases self.backends@.len() - i,
        {
            let b = &self.backends[i];
            let ghost before = r@;
            proof {
                let long = self.backends@.take(i + 1);
                assert(long.drop_last() =~= self.backends@.take(i as int));
                assert(long.last() == *b);
            }
            if b.is_online {
                let mut more = keep_alive_for_backend(&self.model_config, b);
                let ghost added = more@;
                r.append(&mut more);
                assert(r@.skip(before.len() as int) =~= added);
                assert(r@.take(before.len() as int) =~= before);
            }
            i += 1;
        }
        assert(self.backends@.take(i as int) =~= self.backends@);
        r
    }

    /// The answer to a request for the health of all models: the report for a request with a valid
    /// token, else the status and the text of the refusal.
    pub fn health_answer(&self, headers: &HeaderMap<HeaderValue>) -> (r: Result<
        HealthResponse,
        (u16, &'static str),
    >)
        requires
            self.wf(),
        ensures
            r is Ok <==> request_user(self.user_registry, *headers) is Some,
            r matches Ok(response) ==> response.models.wf() && is_health_report(
                response.models@,
                self.backends@,
                self.model_config.models@,
            ),
            r matches Err((status, text)) ==> status == 401 && text@ == "Unauthorized"@,
    {
        match self.health(headers) {
            Some(response) => Ok(response),
            None => Err((401, "Unauthorized")),
        }
    }

    /// The health of all models, for a request with a valid token.
    pub fn health(&self, headers: &HeaderMap<HeaderValue>) -> (r: Option<HealthResponse>)
        requires
            self.wf(),
        ensures
            r is Some <==> request_user(self.user_registry, *headers) is Some,
            r matches Some(response) ==> response.models.wf() && is_health_report(
                response.models@,
                self.backends@,
                self.model_config.models@,
            ),
    {
        match authenticate_request(headers, &self.user_registry) {
            Some(_) => Some(health_report(&self.backends, &self.model_config)),
            None => None,
        }
    }
}

/// A backend that cannot be reached takes no requests, and none of its configured models counts as
/// available there.
pub proof fn law_unreachable_takes_nothing(
    before: BackendStatus,
    after: BackendStatus,
    model: Seq<char>,
    limit: int,
)
    requires
        checked(before, after, CheckResult::Unreachable),
    ensures
        !admissible(after, model, limit),
        texts(before.configured_models@).contains(model) ==> after.model_status@.dom().contains(
            model,
        ) && !after.model_status@[model],
{
}

/// After a backend has answered it serves exactly those of its configured models that it lists,
/// whatever their tags.
pub proof fn law_answered_serves_listed(
    before: BackendStatus,
    after: BackendStatus,
    answer: Option<ModelsResponse>,
    model: Seq<char>,
)
    requires
        checked(before, after, CheckResult::Answered(answer)),
        texts(before.configured_models@).contains(model),
    ensures
        after.is_online,
        after.serves(model) <==> covers(names_listed(answer), model),
{
    let configured = texts(before.configured_models@);
    let i = configured.index_of(model);
    assert(base_name(configured[i]) == base_name(model));
    assert(after.model_status@.dom().contains(model));
}

/// A check leaves the counters of a backend alone.
pub proof fn law_checks_keep_counters(
    before: BackendStatus,
    after: BackendStatus,
    result: CheckResult,
)
    requires
        checked(before, after, result),
    ensures
        after.url == before.url,
        after.active_requests == before.active_requests,
        after.processed_count == before.processed_count,
        after.active_models == before.active_models,
        after.processed_models == before.processed_models,
        after.configured_models == before.configured_models,
{
}

/// Where no two models share a display name, the report tells of each model its own health.
pub proof fn law_health_under_own_name(
    report: Map<Seq<char>, String>,
    backends: Seq<BackendStatus>,
    models: Seq<ParsedModel>,
    model: Seq<char>,
)
    requires
        is_health_report(report, backends, models),
        is_tracked(backends, model),
        forall|m: Seq<char>|
            is_tracked(backends, m) && #[trigger] display_name(models, m) == display_name(
                models,
                model,
            ) ==> m == model,
    ensures
        report.dom().contains(display_name(models, model)),
        report[display_name(models, model)]@ == health(backends, model),
{
    let d = display_name(models, model);
    assert(report.dom().contains(d));
    let m = choose|m: Seq<char>| accounts_for(backends, models, m, d, report[d]@);
    assert(accounts_for(backends, models, m, d, report[d]@));
}

} // verus!
