//! The listings of models that clients see.

use crate::appstate::AppState;
use crate::clock::{
    created_from, formatted_timestamp, parse_created_timestamp, rfc3339_timestamp,
};
use crate::json::json_nested_strings;
use crate::laws::basics::lemma_resolved;
use crate::laws::upkeep::{is_shown_as, lemma_is_shown_as};
use crate::laws::{is_unknown, stands_for};
use crate::models::{resolved, ModelConfig, ParsedModel};
use crate::seqs::{first_index, lemma_filter_push, lemma_first_index_props};
use crate::tags::{
    build_models_list, build_tags_cache, cached_as, cached_under, display_name, display_name_of,
    fetches, find_in_cache, has_backends, listed_as, merge_reply, merged,
    model_not_found, models_to_fetch, openai_model, place_in, shows, tells, tells_at, telling, told,
    BackendModelInfo, CachedTags, ListedModel, ModelsResponse, OpenAIModel, OpenAIModelsList,
    PublicModelInfo, TagsFetch,
};
use crate::text::has_prefix;
use vstd::prelude::*;

verus! {

/// How many of the first `n` models list a backend.
pub open spec fn housed_before(models: Seq<ParsedModel>, n: int) -> int
    decreases n,
{
    if n <= 0 {
        0
    } else if models[n - 1].backends@.len() > 0 {
        housed_before(models, n - 1) + 1
    } else {
        housed_before(models, n - 1)
    }
}

proof fn lemma_housed(models: Seq<ParsedModel>, n: int, k: int)
    requires
        0 <= n <= models.len(),
    ensures
        models.take(n).filter(has_backends()).len() == housed_before(models, n),
        0 <= k < n && models[k].backends@.len() > 0 ==> 0 <= housed_before(models, k)
            < housed_before(models, n) && models.take(n).filter(has_backends())[housed_before(
            models,
            k,
        )] == models[k],
    decreases n,
{
    reveal(Seq::filter);
    if n > 0 {
        lemma_housed(models, n - 1, k);
        lemma_filter_push(models, has_backends(), n - 1);
    }
}

/// One listing is fetched for each model with a backend, from its first backend, in order.
pub proof fn law_models_to_fetch(config: &ModelConfig, r: Vec<TagsFetch>, k: int)
    requires
        call_ensures(models_to_fetch, (config,), r),
    ensures
        ({
            let models = config.models@;
            let place = housed_before(models, k);
            &&& r@.len() == housed_before(models, models.len() as int)
            &&& 0 <= k < models.len() && models[k].backends@.len() > 0 ==> {
                &&& r@[place].model@ == models[k].name@
                &&& r@[place].url@ == models[k].backends@[0]@ + "/api/tags"@
                &&& r@[place].public_name is Some <==> models[k].public_name is Some
                &&& models[k].public_name is Some ==> r@[place].public_name->0@
                    == models[k].public_name->0@
            }
        }),
{
    let models = config.models@;
    lemma_housed(models, models.len() as int, k);
    assert(models.take(models.len() as int) =~= models);
    if 0 <= k < models.len() && models[k].backends@.len() > 0 {
        assert(fetches(r@[housed_before(models, k)], models[k]));
    }
}

/// Whether entry `e` of a listing has a name that begins with all of `model`.
pub open spec fn is_entry_of(listing: Seq<ListedModel>, e: int, model: Seq<char>) -> bool {
    &&& 0 <= e < listing.len()
    &&& listing[e].name is Some
    &&& exists|rest: Seq<char>| listing[e].name->0@ == #[trigger] (model + rest)
}

proof fn lemma_is_entry_of(listing: Seq<ListedModel>, e: int, model: Seq<char>)
    requires
        0 <= e < listing.len(),
    ensures
        is_entry_of(listing, e, model) <==> listed_as(model)(listing[e]),
{
    if let Some(name) = listing[e].name {
        if has_prefix(name@, model) {
            assert(name@ =~= model + name@.skip(model.len() as int));
        }
        if is_entry_of(listing, e, model) {
            let rest = choose|rest: Seq<char>| name@ == #[trigger] (model + rest);
            assert((model + rest).take(model.len() as int) =~= model);
        }
    }
}

/// Whether `entry` shows `info`, under the public name of the model that was asked for, or its name.
pub open spec fn shows_info(entry: PublicModelInfo, f: TagsFetch, info: BackendModelInfo) -> bool {
    &&& f.public_name matches Some(name) ==> entry.name@ == name@
    &&& f.public_name is None ==> entry.name@ == f.model@
    &&& entry.model@ == entry.name@
    &&& entry.modified_at == info.modified_at
    &&& entry.size == info.size
    &&& entry.digest == info.digest
    &&& entry.details == info.details
}

/// Whether entry `e` is the first of the reply that is listed under the model that was asked for,
/// and could be read.
pub open spec fn is_found_at(f: TagsFetch, reply: Option<ModelsResponse>, e: int) -> bool {
    &&& reply is Some
    &&& is_entry_of(reply->0.models@, e, f.model@)
    &&& reply->0.models@[e].info is Some
    &&& forall|j: int| j < e ==> !#[trigger] is_entry_of(reply->0.models@, j, f.model@)
}

proof fn lemma_found_at(f: TagsFetch, reply: Option<ModelsResponse>)
    ensures
        tells(f, reply) <==> exists|e: int| is_found_at(f, reply, e),
        forall|e: int| #[trigger]
            is_found_at(f, reply, e) ==> e == place_in(reply->0.models@, f.model@),
{
    if let Some(response) = reply {
        let listing = response.models@;
        let p = listed_as(f.model@);
        lemma_first_index_props(listing, p);
        let i = place_in(listing, f.model@);
        assert forall|j: int| 0 <= j < listing.len() implies #[trigger] is_entry_of(
            listing,
            j,
            f.model@,
        ) == p(listing[j]) by {
            lemma_is_entry_of(listing, j, f.model@);
        }
        if tells(f, reply) {
            assert forall|j: int| j < i implies !#[trigger] is_entry_of(listing, j, f.model@) by {
                if 0 <= j {
                    assert(!p(listing[j]));
                }
            }
            assert(is_found_at(f, reply, i));
        }
        assert forall|e: int| #[trigger] is_found_at(f, reply, e) implies e == i by {
            assert(p(listing[e]));
            if i < e {
                assert(!is_entry_of(listing, i, f.model@));
            }
        }
    }
}

/// What is shown of a model comes from an entry that is listed under the whole configured name, tag
/// and all: the first such entry, hence the only one where there is but one.
pub proof fn law_merge_reply(
    f: &TagsFetch,
    reply: Option<ModelsResponse>,
    r: Option<PublicModelInfo>,
    e: int,
)
    requires
        call_ensures(merge_reply, (f, reply), r),
    ensures
        reply is None ==> r is None,
        r is Some ==> exists|i: int| #[trigger]
            is_found_at(*f, reply, i) && shows_info(r->0, *f, reply->0.models@[i].info->0),
        is_found_at(*f, reply, e) ==> r is Some && shows_info(
            r->0,
            *f,
            reply->0.models@[e].info->0,
        ),
        reply is Some && is_entry_of(reply->0.models@, e, f.model@) && (forall|j: int| #[trigger]
            is_entry_of(reply->0.models@, j, f.model@) ==> j == e) ==> {
            &&& r is Some <==> reply->0.models@[e].info is Some
            &&& r is Some ==> shows_info(r->0, *f, reply->0.models@[e].info->0)
        },
{
    lemma_found_at(*f, reply);
    if r is Some {
        let i = choose|i: int| is_found_at(*f, reply, i);
        assert(is_found_at(*f, reply, i));
        assert(is_entry_of(reply->0.models@, i, f.model@));
    }
    if reply is Some && is_entry_of(reply->0.models@, e, f.model@) && (forall|j: int| #[trigger]
        is_entry_of(reply->0.models@, j, f.model@) ==> j == e) && reply->0.models@[e].info is Some {
        assert(is_found_at(*f, reply, e));
    }
}

/// A model that is listed under exactly its name is shown with its own entry, wherever the listing
/// has it, as long as no other listed name begins with that name: models of one name are told apart
/// by their tags.
pub proof fn law_tags_are_told_apart(
    f: &TagsFetch,
    reply: Option<ModelsResponse>,
    r: Option<PublicModelInfo>,
    e: int,
)
    requires
        call_ensures(merge_reply, (f, reply), r),
        reply is Some,
        0 <= e < reply->0.models@.len(),
        reply->0.models@[e].name is Some,
        reply->0.models@[e].name->0@ == f.model@,
        reply->0.models@[e].info is Some,
        forall|other: int, rest: Seq<char>|
            0 <= other < reply->0.models@.len() && other != e && (
            #[trigger] reply->0.models@[other]).name is Some ==> reply->0.models@[other].name->0@
                != #[trigger] (f.model@ + rest),
    ensures
        r is Some,
        r->0.digest == reply->0.models@[e].info->0.digest,
        shows_info(r->0, *f, reply->0.models@[e].info->0),
{
    let listing = reply->0.models@;
    assert(listing[e].name->0@ =~= f.model@ + Seq::<char>::empty());
    assert(is_entry_of(listing, e, f.model@));
    assert forall|j: int| j < e implies !#[trigger] is_entry_of(listing, j, f.model@) by {
        if is_entry_of(listing, j, f.model@) {
            let rest = choose|rest: Seq<char>| listing[j].name->0@ == #[trigger] (f.model@ + rest);
            assert(listing[j].name->0@ == f.model@ + rest);
        }
    }
    assert(is_found_at(*f, reply, e));
    law_merge_reply(f, reply, r, e);
}

/// Whether the reply lists, in an entry that could be read, the model that was asked for.
pub open spec fn is_found(f: TagsFetch, reply: Option<ModelsResponse>) -> bool {
    exists|e: int| is_found_at(f, reply, e)
}

/// How many of the first `n` replies hold an entry that can be shown.
pub open spec fn found_before(
    plan: Seq<TagsFetch>,
    replies: Seq<Option<ModelsResponse>>,
    n: int,
) -> int
    decreases n,
{
    if n <= 0 {
        0
    } else if is_found(plan[n - 1], replies[n - 1]) {
        found_before(plan, replies, n - 1) + 1
    } else {
        found_before(plan, replies, n - 1)
    }
}

proof fn lemma_telling(
    plan: Seq<TagsFetch>,
    replies: Seq<Option<ModelsResponse>>,
    n: int,
    i: int,
)
    requires
        0 <= n,
    ensures
        telling(plan, replies, n).len() == found_before(plan, replies, n),
        0 <= i < n && tells(plan[i], replies[i]) ==> 0 <= found_before(plan, replies, i)
            < found_before(plan, replies, n) && telling(plan, replies, n)[found_before(
            plan,
            replies,
            i,
        )] == i,
    decreases n,
{
    reveal(Seq::filter);
    let p = tells_at(plan, replies);
    if n > 0 {
        let places = Seq::new(n as nat, |k: int| k);
        lemma_filter_push(places, p, n - 1);
        assert(places.take(n - 1) =~= Seq::new((n - 1) as nat, |k: int| k));
        assert(places.take(n) =~= places);
        lemma_telling(plan, replies, n - 1, i);
        lemma_found_at(plan[n - 1], replies[n - 1]);
    }
}

/// Whether the cache holds one entry for each fetch whose reply lists the model, in the order of the
/// fetches, here for fetch `i` and entry `e` of its reply.
pub open spec fn is_cached(
    entries: Seq<PublicModelInfo>,
    plan: Seq<TagsFetch>,
    replies: Seq<Option<ModelsResponse>>,
    i: int,
    e: int,
) -> bool {
    &&& entries.len() == found_before(plan, replies, plan.len() as int)
    &&& 0 <= i < plan.len() && is_found_at(plan[i], replies[i], e) ==> shows_info(
        entries[found_before(plan, replies, i)],
        plan[i],
        replies[i]->0.models@[e].info->0,
    )
}

proof fn lemma_merged(
    entries: Seq<PublicModelInfo>,
    plan: Seq<TagsFetch>,
    replies: Seq<Option<ModelsResponse>>,
    i: int,
    e: int,
)
    requires
        merged(entries, plan, replies, plan.len() as int),
    ensures
        is_cached(entries, plan, replies, i, e),
{
    let n = plan.len() as int;
    lemma_telling(plan, replies, n, i);
    if 0 <= i < n && is_found_at(plan[i], replies[i], e) {
        lemma_found_at(plan[i], replies[i]);
        let j = found_before(plan, replies, i);
        assert(told(entries[j], plan[i], replies[i]));
    }
}

/// The cache shows every model that its reply lists, once and in order.
pub proof fn law_build_tags_cache(
    plan: &Vec<TagsFetch>,
    replies: Vec<Option<ModelsResponse>>,
    r: CachedTags,
    i: int,
    e: int,
)
    requires
        call_ensures(build_tags_cache, (plan, replies), r),
    ensures
        is_cached(r.models@, plan@, replies@, i, e),
{
    lemma_merged(r.models@, plan@, replies@, i, e);
}

/// A refresh replaces the cache and nothing else.
pub proof fn law_refresh_tags<R>(
    state: &mut AppState<R>,
    plan: &Vec<TagsFetch>,
    replies: Vec<Option<ModelsResponse>>,
    i: int,
    e: int,
)
    requires
        call_ensures(AppState::<R>::refresh_tags, (state, plan, replies), ()),
    ensures
        final(state).cached_tags is Some,
        is_cached(final(state).cached_tags->0.models@, plan@, replies@, i, e),
        *final(state) == (AppState { cached_tags: final(state).cached_tags, ..*old(state) }),
{
    lemma_merged(final(state).cached_tags->0.models@, plan@, replies@, i, e);
}

/// A model is shown under the public name of the last entry with its real name.
pub proof fn law_display_name_of(config: &ModelConfig, name: &str, r: &str)
    requires
        call_ensures(display_name_of, (config, name), r),
    ensures
        is_shown_as(config.models@, name@, r@),
{
    lemma_is_shown_as(config.models@, name@);
}

/// The time of creation is that of the first form in which the text can be read.
pub proof fn law_parse_created_timestamp(modified_at: &str, r: i64)
    requires
        call_ensures(parse_created_timestamp, (modified_at,), r),
    ensures
        rfc3339_timestamp(modified_at@) matches Some(t) ==> r == t,
        rfc3339_timestamp(modified_at@) is None ==> (formatted_timestamp(
            modified_at@,
            "%Y-%m-%d %H:%M:%S.%f%#z"@,
        ) matches Some(t) ==> r == t),
        r < 0 ==> rfc3339_timestamp(modified_at@) == Some(r) || formatted_timestamp(
            modified_at@,
            "%Y-%m-%d %H:%M:%S.%f%#z"@,
        ) == Some(r),
{
}

/// A time that was read is never replaced by the current one.
pub proof fn law_created_from(rfc3339: Option<i64>, formatted: Option<i64>, current: i64, r: i64)
    requires
        call_ensures(created_from, (rfc3339, formatted, current), r),
    ensures
        rfc3339 is Some ==> rfc3339 == Some(r),
        rfc3339 is None && formatted is Some ==> formatted == Some(r),
        rfc3339 is None && formatted is None ==> r == current,
{
}

/// Whether `m` is how OpenAI clients see `info`.
pub open spec fn is_seen_as(m: OpenAIModel, info: PublicModelInfo) -> bool {
    &&& m.id@ == info.name@
    &&& m.object@ == "model"@
    &&& m.owned_by@ == "all-llama-proxy"@
    &&& rfc3339_timestamp(info.modified_at@) matches Some(t) ==> m.created == t
    &&& rfc3339_timestamp(info.modified_at@) is None ==> (formatted_timestamp(
        info.modified_at@,
        "%Y-%m-%d %H:%M:%S.%f%#z"@,
    ) matches Some(t) ==> m.created == t)
}

/// OpenAI clients see exactly the cached models, in order.
pub proof fn law_build_models_list(cached_tags: &Option<CachedTags>, r: OpenAIModelsList, i: int)
    requires
        call_ensures(build_models_list, (cached_tags,), r),
    ensures
        r.object@ == "list"@,
        cached_tags is None ==> r.data@.len() == 0,
        cached_tags is Some ==> r.data@.len() == cached_tags->0.models@.len(),
        cached_tags is Some && 0 <= i < cached_tags->0.models@.len() ==> is_seen_as(
            r.data@[i],
            cached_tags->0.models@[i],
        ),
{
    if cached_tags is Some && 0 <= i < cached_tags->0.models@.len() {
        assert(shows(r.data@[i], cached_tags->0.models@[i]));
    }
}

/// What OpenAI clients see of one model.
pub proof fn law_openai_model(info: &PublicModelInfo, created: i64, r: OpenAIModel)
    requires
        call_ensures(openai_model, (info, created), r),
    ensures
        r.id@ == info.name@,
        r.object@ == "model"@,
        r.created == created,
        r.owned_by@ == "all-llama-proxy"@,
{
}

/// Whether `k` is the first place in the cache with the name `a` or the name `b`.
pub open spec fn is_first_under(
    cached: Seq<PublicModelInfo>,
    k: int,
    a: Seq<char>,
    b: Seq<char>,
) -> bool {
    &&& 0 <= k < cached.len()
    &&& cached[k].name@ == a || cached[k].name@ == b
    &&& forall|j: int| 0 <= j < k ==> (#[trigger] cached[j]).name@ != a && cached[j].name@ != b
}

/// Whether nothing is cached under `a` or `b`.
pub open spec fn is_none_under(
    cached: Seq<PublicModelInfo>,
    a: Seq<char>,
    b: Seq<char>,
) -> bool {
    forall|j: int| 0 <= j < cached.len() ==> (#[trigger] cached[j]).name@ != a && cached[j].name@ != b
}

proof fn lemma_cached_under(cached: Seq<PublicModelInfo>, name: Seq<char>)
    ensures
        ({
            let k = first_index(cached, cached_under(name));
            &&& 0 <= k <= cached.len()
            &&& k < cached.len() ==> is_first_under(cached, k, name, name)
            &&& k == cached.len() ==> is_none_under(cached, name, name)
        }),
{
    let p = cached_under(name);
    lemma_first_index_props(cached, p);
    let k = first_index(cached, p);
    if k < cached.len() {
        assert(p(cached[k]));
    }
    assert forall|j: int| 0 <= j < k implies (#[trigger] cached[j]).name@ != name by {
        assert(!p(cached[j]));
    }
}

/// A model is found first under the requested name, with or without `:latest`, then under the real
/// name that it stands for, then under the name that this one is shown as, and else nowhere.
pub proof fn law_find_in_cache(
    cached: &Vec<PublicModelInfo>,
    config: &ModelConfig,
    requested: &str,
    k: usize,
    real_name: Seq<char>,
    shown: Seq<char>,
)
    requires
        call_ensures(find_in_cache, (cached, config, requested), k),
    ensures
        ({
            let all = cached@;
            let latest = requested@ + ":latest"@;
            &&& k <= all.len()
            &&& !is_none_under(all, requested@, latest) ==> is_first_under(
                all,
                k as int,
                requested@,
                latest,
            )
            &&& is_none_under(all, requested@, latest) && stands_for(
                config.models@,
                requested@,
                real_name,
            ) ==> {
                &&& !is_none_under(all, real_name, real_name) ==> is_first_under(
                    all,
                    k as int,
                    real_name,
                    real_name,
                )
                &&& is_none_under(all, real_name, real_name) && is_shown_as(
                    config.models@,
                    real_name,
                    shown,
                ) ==> {
                    &&& !is_none_under(all, shown, shown) ==> is_first_under(
                        all,
                        k as int,
                        shown,
                        shown,
                    )
                    &&& is_none_under(all, shown, shown) ==> k == all.len()
                }
            }
            &&& is_none_under(all, requested@, latest) && is_unknown(config.models@, requested@)
                ==> k == all.len()
        }),
{
    let all = cached@;
    let models = config.models@;
    let latest = requested@ + ":latest"@;
    let p = cached_as(requested@);
    lemma_first_index_props(all, p);
    let direct = first_index(all, p);
    if direct < all.len() {
        assert(p(all[direct]));
        assert forall|j: int| 0 <= j < direct implies (#[trigger] all[j]).name@ != requested@
            && all[j].name@ != latest by {
            assert(!p(all[j]));
        }
        assert(is_first_under(all, direct, requested@, latest));
        assert(!is_none_under(all, requested@, latest));
    } else {
        assert forall|j: int| 0 <= j < all.len() implies (#[trigger] all[j]).name@ != requested@
            && all[j].name@ != latest by {
            assert(!p(all[j]));
        }
        lemma_resolved(models, requested@);
        if stands_for(models, requested@, real_name) {
            assert(resolved(models, requested@) == Some(real_name));
            lemma_cached_under(all, real_name);
            lemma_cached_under(all, display_name(models, real_name));
            lemma_is_shown_as(models, real_name);
            if is_shown_as(models, real_name, shown) {
                crate::laws::upkeep::lemma_one_shown_name(
                    models,
                    real_name,
                    shown,
                    display_name(models, real_name),
                );
            }
        }
    }
}

/// One model is seen as the whole list shows it, where the cache has it.
pub proof fn law_find_model_by_name<R>(
    state: &AppState<R>,
    requested: &str,
    k: usize,
    r: Option<OpenAIModel>,
)
    requires
        call_ensures(AppState::<R>::find_model_by_name, (state, requested), r),
        state.cached_tags is Some,
        call_ensures(
            find_in_cache,
            (&state.cached_tags->0.models, &state.model_config, requested),
            k,
        ),
    ensures
        r is Some <==> k < state.cached_tags->0.models@.len(),
        r is Some ==> is_seen_as(r->0, state.cached_tags->0.models@[k as int]),
{
}

/// Without a cache nothing is found.
pub proof fn law_find_without_cache<R>(
    state: &AppState<R>,
    requested: &str,
    r: Option<OpenAIModel>,
)
    requires
        call_ensures(AppState::<R>::find_model_by_name, (state, requested), r),
        state.cached_tags is None,
    ensures
        r is None,
{
}

/// Every model of the list is found under the id that the list gives it.
pub proof fn law_listed_is_found<R>(
    state: &AppState<R>,
    list: OpenAIModelsList,
    i: int,
    requested: &str,
    r: Option<OpenAIModel>,
)
    requires
        call_ensures(build_models_list, (&state.cached_tags,), list),
        0 <= i < list.data@.len(),
        requested@ == list.data@[i].id@,
        call_ensures(AppState::<R>::find_model_by_name, (state, requested), r),
    ensures
        r is Some,
        r->0.id@ == requested@ || r->0.id@ == requested@ + ":latest"@,
{
    let all = state.cached_tags->0.models@;
    law_build_models_list(&state.cached_tags, list, i);
    let p = cached_as(requested@);
    lemma_first_index_props(all, p);
    assert(p(all[i]));
    let direct = first_index(all, p);
    assert(p(all[direct]));
}

/// The answer about a model that is not found.
pub proof fn law_model_not_found(model_name: &str, r: (u16, String))
    requires
        call_ensures(model_not_found, (model_name,), r),
    ensures
        r.0 == 404,
        r.1@ == json_nested_strings(
            "error"@,
            "code"@,
            "model_not_found"@,
            "message"@,
            "Model '"@ + model_name@ + "' not found"@,
        ),
{
}

} // verus!
