//! Model listings: what backends report, and what clients are shown.

use crate::appstate::AppState;
use crate::clock::{parse_created_timestamp, read_timestamp};
use crate::json::{json_nested_strings, nested_strings};
use crate::models::{lacks_backends, resolved, ModelConfig, ParsedModel};
use crate::seqs::{
    first_index, lemma_filter_all, lemma_filter_push, lemma_first_index, lemma_first_index_props,
};
use crate::text::{has_prefix, joined, joined3, opt_text, starts_with, str_eq};
use vstd::prelude::*;

verus! {

pub struct ModelDetails {
    pub parent_model: String,
    pub format: String,
    pub family: String,
    pub families: Vec<String>,
    pub parameter_size: String,
    pub quantization_level: String,
}

/// Public-facing model info with public_name substitution
pub struct PublicModelInfo {
    pub name: String,
    pub model: String,
    pub modified_at: String,
    pub size: u64,
    pub digest: String,
    pub details: ModelDetails,
}

/// Cached tags response
pub struct CachedTags {
    pub models: Vec<PublicModelInfo>,
}

/// Full model info from backend /api/tags response
pub struct BackendModelInfo {
    pub name: String,
    pub modified_at: String,
    pub size: u64,
    pub digest: String,
    pub details: ModelDetails,
}

/// One entry of a backend's listing.
pub struct ListedModel {
    /// Its name, where it has one.
    pub name: Option<String>,
    /// The whole entry, where all of it could be read.
    pub info: Option<BackendModelInfo>,
}

/// Parsed response from `/api/tags`
pub struct ModelsResponse {
    pub models: Vec<ListedModel>,
}

/// OpenAI-compatible model response structure
pub struct OpenAIModel {
    pub id: String,
    pub object: &'static str,
    pub created: i64,
    pub owned_by: String,
}

pub struct OpenAIModelsList {
    pub object: &'static str,
    pub data: Vec<OpenAIModel>,
}

/// A listing to fetch, and the model to look for in it.
pub struct TagsFetch {
    pub model: String,
    pub public_name: Option<String>,
    pub url: String,
}

/// Listing at least one backend.
pub open spec fn has_backends() -> spec_fn(ParsedModel) -> bool {
    |m: ParsedModel| m.backends@.len() > 0
}

/// Whether `f` fetches the listing of the first backend of `m`.
pub open spec fn fetches(f: TagsFetch, m: ParsedModel) -> bool {
    &&& f.model@ == m.name@
    &&& opt_text(f.public_name) == opt_text(m.public_name)
    &&& f.url@ == m.backends@[0]@ + "/api/tags"@
}

/// Whether `plan` fetches, for each model with a backend, the listing of its first one.
pub open spec fn is_tags_plan(plan: Seq<TagsFetch>, models: Seq<ParsedModel>) -> bool {
    let served = models.filter(has_backends());
    &&& plan.len() == served.len()
    &&& forall|i: int| 0 <= i < plan.len() ==> fetches(#[trigger] plan[i], served[i])
}

/// The listings to fetch: for each model with a backend, that of its first one.
pub fn models_to_fetch(config: &ModelConfig) -> (r: Vec<TagsFetch>)
    ensures
        is_tags_plan(r@, config.models@),
{
    let ghost p = has_backends();
    let mut r: Vec<TagsFetch> = Vec::new();
    let mut i: usize = 0;
    proof {
        reveal(Seq::filter);
        assert(is_tags_plan(r@, config.models@.take(0)));
    }
    while i < config.models.len()
        invariant
            i <= config.models@.len(),
            p == has_backends(),
            is_tags_plan(r@, config.models@.take(i as int)),
        decreases config.models@.len() - i,
    {
        proof {
            lemma_filter_push(config.models@, p, i as int);
        }
        let m = &config.models[i];
        if m.backends.len() > 0 {
            let public_name = match &m.public_name {
                Some(name) => Some(name.clone()),
                None => None,
            };
            r.push(
                TagsFetch {
                    model: m.name.clone(),
                    public_name,
                    url: joined(m.backends[0].as_str(), "/api/tags"),
                },
            );
        }
        i += 1;
    }
    assert(config.models@.take(i as int) =~= config.models@);
    r
}

/// Having a name that begins with `model`.
pub open spec fn listed_as(model: Seq<char>) -> spec_fn(ListedModel) -> bool {
    |l: ListedModel| l.name is Some && has_prefix(l.name->0@, model)
}

/// Where a listing has `model`: its first entry whose name begins so.
pub open spec fn place_in(listing: Seq<ListedModel>, model: Seq<char>) -> int {
    first_index(listing, listed_as(model))
}

/// Whether the reply to `f` tells of the model that it was fetched for.
pub open spec fn tells(f: TagsFetch, reply: Option<ModelsResponse>) -> bool {
    &&& reply is Some
    &&& place_in(reply->0.models@, f.model@) < reply->0.models@.len()
    &&& reply->0.models@[place_in(reply->0.models@, f.model@)].info is Some
}

/// Whether `entry` is what the reply to `f` tells, under the model's public name.
pub open spec fn told(entry: PublicModelInfo, f: TagsFetch, reply: Option<ModelsResponse>) -> bool {
    let info = reply->0.models@[place_in(reply->0.models@, f.model@)].info->0;
    let shown = match opt_text(f.public_name) {
        Some(name) => name,
        None => f.model@,
    };
    &&& entry.name@ == shown
    &&& entry.model@ == shown
    &&& entry.modified_at == info.modified_at
    &&& entry.size == info.size
    &&& entry.digest == info.digest
    &&& entry.details == info.details
}

/// What the reply to `f` tells of the model that it was fetched for.
pub fn merge_reply(f: &TagsFetch, reply: Option<ModelsResponse>) -> (r: Option<PublicModelInfo>)
    ensures
        r is Some <==> tells(*f, reply),
        r is Some ==> told(r->0, *f, reply),
{
    let mut listing = match reply {
        Some(response) => response.models,
        None => {
            return None;
        },
    };
    let ghost all = listing@;
    let ghost p = listed_as(f.model@);
    let mut i: usize = 0;
    while i < listing.len()
        invariant
            i <= listing@.len(),
            listing@ == all,
            p == listed_as(f.model@),
            reply is Some,
            reply->0.models@ == all,
            forall|j: int| 0 <= j < i ==> !p(#[trigger] listing@[j]),
        decreases listing@.len() - i,
    {
        let found = match &listing[i].name {
            Some(name) => starts_with(name.as_str(), f.model.as_str()),
            None => false,
        };
        if found {
            proof {
                lemma_first_index(all, p, i as int);
            }
            let entry = listing.remove(i);
            return match entry.info {
                Some(info) => {
                    let name = match &f.public_name {
                        Some(name) => name.clone(),
                        None => f.model.clone(),
                    };
                    Some(
                        PublicModelInfo {
                            model: name.clone(),
                            name,
                            modified_at: info.modified_at,
                            size: info.size,
                            digest: info.digest,
                            details: info.details,
                        },
                    )
                },
                None => None,
            };
        }
        i += 1;
    }
    proof {
        lemma_first_index(all, p, i as int);
    }
    None
}

/// Being the place of a fetch whose reply tells of its model.
pub open spec fn tells_at(plan: Seq<TagsFetch>, replies: Seq<Option<ModelsResponse>>) -> spec_fn(
    int,
) -> bool {
    |i: int| tells(plan[i], replies[i])
}

/// The places of the first `n` fetches whose replies tell of their models.
pub open spec fn telling(
    plan: Seq<TagsFetch>,
    replies: Seq<Option<ModelsResponse>>,
    n: int,
) -> Seq<int> {
    Seq::new(n as nat, |i: int| i).filter(tells_at(plan, replies))
}

/// Whether `entries` are what the replies to the first `n` fetches tell, in order.
pub open spec fn merged(
    entries: Seq<PublicModelInfo>,
    plan: Seq<TagsFetch>,
    replies: Seq<Option<ModelsResponse>>,
    n: int,
) -> bool {
    let places = telling(plan, replies, n);
    &&& entries.len() == places.len()
    &&& forall|j: int|
        0 <= j < entries.len() ==> told(
            #[trigger] entries[j],
            plan[places[j]],
            replies[places[j]],
        )
}

/// Build merged /api/tags cache from the replies to the planned fetches.
pub fn build_tags_cache(plan: &Vec<TagsFetch>, replies: Vec<Option<ModelsResponse>>) -> (r:
    CachedTags)
    requires
        plan@.len() == replies@.len(),
    ensures
        merged(r.models@, plan@, replies@, plan@.len() as int),
{
    let ghost all = replies@;
    let ghost p = tells_at(plan@, all);
    let mut rest = replies;
    let mut models: Vec<PublicModelInfo> = Vec::new();
    let mut i: usize = 0;
    proof {
        reveal(Seq::filter);
    }
    while i < plan.len()
        invariant
            i <= plan@.len(),
            plan@.len() == all.len(),
            all == replies@,
            p == tells_at(plan@, all),
            rest@ == all.skip(i as int),
            merged(models@, plan@, all, i as int),
        decreases plan@.len() - i,
    {
        let ghost places = Seq::new((i + 1) as nat, |k: int| k);
        proof {
            lemma_filter_push(places, p, i as int);
            assert(places.take(i as int) =~= Seq::new(i as nat, |k: int| k));
            assert(places.take(i + 1) =~= places);
            assert(telling(plan@, all, i + 1) == if p(i as int) {
                telling(plan@, all, i as int).push(i as int)
            } else {
                telling(plan@, all, i as int)
            });
        }
        let reply = rest.remove(0);
        assert(reply == all[i as int]);
        assert(rest@ =~= all.skip(i + 1));
        if let Some(entry) = merge_reply(&plan[i], reply) {
            models.push(entry);
        }
        i += 1;
    }
    CachedTags { models }
}

/// The name under which a model is shown: the public name that the last model of this name has,
/// else the name itself.
pub open spec fn display_name(models: Seq<ParsedModel>, name: Seq<char>) -> Seq<char>
    decreases models.len(),
{
    if models.len() == 0 {
        name
    } else if models.last().name@ == name {
        match opt_text(models.last().public_name) {
            Some(public_name) => public_name,
            None => name,
        }
    } else {
        display_name(models.drop_last(), name)
    }
}

/// The name under which a model is shown.
pub fn display_name_of<'a>(config: &'a ModelConfig, name: &'a str) -> (r: &'a str)
    ensures
        r@ == display_name(config.models@, name@),
{
    let mut n: usize = config.models.len();
    assert(config.models@.take(n as int) =~= config.models@);
    while n > 0
        invariant
            n <= config.models@.len(),
            display_name(config.models@, name@) == display_name(
                config.models@.take(n as int),
                name@,
            ),
        decreases n,
    {
        let m = &config.models[n - 1];
        assert(config.models@.take(n as int).last() == *m);
        assert(config.models@.take(n as int).drop_last() =~= config.models@.take(n - 1));
        if str_eq(m.name.as_str(), name) {
            return match &m.public_name {
                Some(public_name) => public_name.as_str(),
                None => name,
            };
        }
        n -= 1;
    }
    name
}

/// Whether `m` shows `info` to OpenAI clients. With an unreadable modification time `created` is the
/// time of the request, of which it is only said that it is not negative.
pub open spec fn shows(m: OpenAIModel, info: PublicModelInfo) -> bool {
    &&& m.id@ == info.name@
    &&& m.object@ == "model"@
    &&& m.owned_by@ == "all-llama-proxy"@
    &&& read_timestamp(info.modified_at@) is Some ==> Some(m.created) == read_timestamp(
        info.modified_at@,
    )
    &&& read_timestamp(info.modified_at@) is None ==> m.created >= 0
}

/// A model as OpenAI clients see it, created at `created`.
pub fn openai_model(info: &PublicModelInfo, created: i64) -> (r: OpenAIModel)
    ensures
        r.id@ == info.name@,
        r.object@ == "model"@,
        r.created == created,
        r.owned_by@ == "all-llama-proxy"@,
{
    OpenAIModel {
        id: info.name.clone(),
        object: "model",
        created,
        owned_by: "all-llama-proxy".to_owned(),
    }
}

/// Transform cached tags into OpenAI-compatible models list
pub fn build_models_list(cached_tags: &Option<CachedTags>) -> (r: OpenAIModelsList)
    ensures
        r.object@ == "list"@,
        cached_tags is None ==> r.data@.len() == 0,
        cached_tags matches Some(tags) ==> {
            &&& r.data@.len() == tags.models@.len()
            &&& forall|i: int| 0 <= i < r.data@.len() ==> shows(#[trigger] r.data@[i], tags.models@[i])
        },
{
    let mut data: Vec<OpenAIModel> = Vec::new();
    if let Some(tags) = cached_tags {
        let mut i: usize = 0;
        while i < tags.models.len()
            invariant
                i <= tags.models@.len(),
                data@.len() == i,
                forall|j: int| 0 <= j < i ==> shows(#[trigger] data@[j], tags.models@[j]),
            decreases tags.models@.len() - i,
        {
            let info = &tags.models[i];
            data.push(openai_model(info, parse_created_timestamp(info.modified_at.as_str())));
            i += 1;
        }
    }
    OpenAIModelsList { object: "list", data }
}

/// Being cached under `name`, or under it with the tag `:latest`.
pub open spec fn cached_as(name: Seq<char>) -> spec_fn(PublicModelInfo) -> bool {
    |m: PublicModelInfo| m.name@ == name || m.name@ == name + ":latest"@
}

/// Being cached under exactly `name`.
pub open spec fn cached_under(name: Seq<char>) -> spec_fn(PublicModelInfo) -> bool {
    |m: PublicModelInfo| m.name@ == name
}

/// Where the cache has the model `requested`: under that name, or, when the configuration resolves
/// it to a real name, under the real name or the name that this one is shown as. The number of
/// cached models if nowhere.
pub open spec fn place_in_cache(
    cached: Seq<PublicModelInfo>,
    models: Seq<ParsedModel>,
    requested: Seq<char>,
) -> int {
    let direct = first_index(cached, cached_as(requested));
    if direct < cached.len() {
        direct
    } else {
        match resolved(models, requested) {
            Some(real_name) => {
                let exact = first_index(cached, cached_under(real_name));
                if exact < cached.len() {
                    exact
                } else {
                    first_index(cached, cached_under(display_name(models, real_name)))
                }
            },
            None => cached.len() as int,
        }
    }
}

/// The place of the first model cached under exactly `name`, or the number of cached models.
fn cached_position(cached: &Vec<PublicModelInfo>, name: &str) -> (k: usize)
    ensures
        k == first_index(cached@, cached_under(name@)),
        k <= cached@.len(),
{
    let ghost p = cached_under(name@);
    let mut k: usize = 0;
    while k < cached.len() && !str_eq(cached[k].name.as_str(), name)
        invariant
            k <= cached@.len(),
            p == cached_under(name@),
            forall|j: int| 0 <= j < k ==> !p(#[trigger] cached@[j]),
        decreases cached@.len() - k,
    {
        k += 1;
    }
    proof {
        lemma_first_index(cached@, p, k as int);
    }
    k
}

/// Where the cache has the model `requested`, or the number of cached models.
pub fn find_in_cache(cached: &Vec<PublicModelInfo>, config: &ModelConfig, requested: &str) -> (k:
    usize)
    ensures
        k == place_in_cache(cached@, config.models@, requested@),
        k <= cached@.len(),
{
    let latest = joined(requested, ":latest");
    let ghost p = cached_as(requested@);
    let mut k: usize = 0;
    while k < cached.len()
        invariant
            k <= cached@.len(),
            p == cached_as(requested@),
            latest@ == requested@ + ":latest"@,
            forall|j: int| 0 <= j < k ==> !p(#[trigger] cached@[j]),
        decreases cached@.len() - k,
    {
        let name = cached[k].name.as_str();
        if str_eq(name, requested) || str_eq(name, latest.as_str()) {
            proof {
                lemma_first_index(cached@, p, k as int);
            }
            return k;
        }
        k += 1;
    }
    proof {
        lemma_first_index(cached@, p, k as int);
    }
    match config.resolve_alias(requested) {
        Some(real_name) => {
            let exact: usize = cached_position(cached, real_name.as_str());
            if exact < cached.len() {
                exact
            } else {
                cached_position(cached, display_name_of(config, real_name.as_str()))
            }
        },
        None => cached.len(),
    }
}

/// The answer to a client that asks for an unknown model: the status and a JSON body.
pub fn model_not_found(model_name: &str) -> (r: (u16, String))
    ensures
        r.0 == 404,
        r.1@ == json_nested_strings(
            "error"@,
            "code"@,
            "model_not_found"@,
            "message"@,
            "Model '"@ + model_name@ + "' not found"@,
        ),
{
    let message = joined3("Model '", model_name, "' not found");
    let body = nested_strings("error", "code", "model_not_found", "message", message.as_str());
    (404, body)
}

impl<R> AppState<R> {
    /// Puts what the replies to the planned fetches tell into the cache, in place of what was
    /// there.
    pub fn refresh_tags(&mut self, plan: &Vec<TagsFetch>, replies: Vec<Option<ModelsResponse>>)
        requires
            plan@.len() == replies@.len(),
        ensures
            final(self).cached_tags matches Some(tags) && merged(
                tags.models@,
                plan@,
                replies@,
                plan@.len() as int,
            ),
            *final(self) == (AppState { cached_tags: final(self).cached_tags, ..*old(self) }),
    {
        self.cached_tags = Some(build_tags_cache(plan, replies));
    }

    /// Find a single model by name (matches public_name, name, or alias)
    pub fn find_model_by_name(&self, requested_model: &str) -> (r: Option<OpenAIModel>)
        ensures
            self.cached_tags is None ==> r is None,
            self.cached_tags matches Some(tags) ==> {
                let k = place_in_cache(
                    tags.models@,
                    self.model_config.models@,
                    requested_model@,
                );
                &&& r is Some <==> k < tags.models@.len()
                &&& r is Some ==> shows(r->0, tags.models@[k])
            },
    {
        match &self.cached_tags {
            None => None,
            Some(tags) => {
                let k: usize = find_in_cache(&tags.models, &self.model_config, requested_model);
                if k < tags.models.len() {
                    let info = &tags.models[k];
                    Some(
                        openai_model(info, parse_created_timestamp(info.modified_at.as_str())),
                    )
                } else {
                    None
                }
            },
        }
    }
}

/// A cached model is found under any of its names: the one it is cached under, a name that the
/// configuration resolves to it, or its real name behind a public one. What is found is cached
/// under one of those names.
pub proof fn law_found_under_any_name(
    cached: Seq<PublicModelInfo>,
    models: Seq<ParsedModel>,
    requested: Seq<char>,
    k: int,
)
    requires
        0 <= k < cached.len(),
        ({
            let real_name = resolved(models, requested);
            ||| cached[k].name@ == requested
            ||| cached[k].name@ == requested + ":latest"@
            ||| real_name is Some && cached[k].name@ == real_name->0
            ||| real_name is Some && cached[k].name@ == display_name(models, real_name->0)
        }),
    ensures
        ({
            let found = place_in_cache(cached, models, requested);
            let real_name = resolved(models, requested);
            &&& 0 <= found < cached.len()
            &&& {
                ||| cached[found].name@ == requested
                ||| cached[found].name@ == requested + ":latest"@
                ||| real_name is Some && cached[found].name@ == real_name->0
                ||| real_name is Some && cached[found].name@ == display_name(models, real_name->0)
            }
        }),
{
    lemma_first_index_props(cached, cached_as(requested));
    let direct = first_index(cached, cached_as(requested));
    if direct < cached.len() {
        assert(cached_as(requested)(cached[direct]));
    } else {
        assert(!cached_as(requested)(cached[k]));
        let real_name = resolved(models, requested)->0;
        lemma_first_index_props(cached, cached_under(real_name));
        lemma_first_index_props(cached, cached_under(display_name(models, real_name)));
        let exact = first_index(cached, cached_under(real_name));
        let other = first_index(cached, cached_under(display_name(models, real_name)));
        if exact < cached.len() {
            assert(cached_under(real_name)(cached[exact]));
        } else {
            assert(!cached_under(real_name)(cached[k]));
            assert(cached_under(display_name(models, real_name))(cached[k]));
            assert(cached_under(display_name(models, real_name))(cached[other]));
        }
    }
}

/// A listing is asked for every configured model: no configuration that was accepted has a model
/// without backends.
pub proof fn law_every_model_fetched(plan: Seq<TagsFetch>, models: Seq<ParsedModel>)
    requires
        is_tags_plan(plan, models),
        first_index(models, lacks_backends()) == models.len(),
    ensures
        plan.len() == models.len(),
        forall|i: int| 0 <= i < plan.len() ==> fetches(#[trigger] plan[i], models[i]),
{
    lemma_first_index_props(models, lacks_backends());
    let p = has_backends();
    assert forall|i: int| 0 <= i < models.len() implies p(#[trigger] models[i]) by {
        assert(!lacks_backends()(models[i]));
    }
    lemma_filter_all(models, p);
}

} // verus!
