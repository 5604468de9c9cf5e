//! Choosing the next request and the backend for it.

use crate::appstate::{queue_of, urls, AppState, Task};
use crate::backend::{base_name, BackendStatus};
use crate::json::{
    json_string_member, json_with_member, raw_value_key, string_member, with_string_member,
};
use crate::models::{
    has_name, law_resolved_iff_known, law_resolved_is_real, model_known_as, resolved, ModelConfig,
    ParsedModel,
};
use crate::seqs::{
    first_index, lemma_first_index, lemma_first_index_props, lemma_insert_ordered, lemma_one_order,
    lemma_order_exists, lemma_push_members, ordered_by,
};
use crate::strmap::{count_of, StrMap};
use crate::text::{
    contains_char, has_prefix, is_char, joined, lemma_text_before_order, list_contains, opt_text, starts_with,
    str_before, str_eq, text_before, texts,
};
use std::collections::VecDeque;
use vstd::prelude::*;

verus! {

/// `name` with the tag `:latest` if it has none.
pub open spec fn tagged(name: Seq<char>) -> Seq<char> {
    if name.contains(':') {
        name
    } else {
        name + ":latest"@
    }
}

/// Append `:latest` if the model name has no explicit tag.
pub fn normalize_model_tag(name: &str) -> (r: String)
    ensures
        r@ == tagged(name@),
{
    if contains_char(name, ':') {
        name.to_owned()
    } else {
        joined(name, ":latest")
    }
}

/// Paths that carry a `model` field in their JSON body.
pub open spec fn is_model_path(path: Seq<char>) -> bool {
    ||| has_prefix(path, "/api/generate"@)
    ||| has_prefix(path, "/api/chat"@)
    ||| has_prefix(path, "/api/embed"@)
    ||| has_prefix(path, "/api/embeddings"@)
    ||| has_prefix(path, "/chat/completions"@)
    ||| has_prefix(path, "/v1/chat/completions"@)
    ||| has_prefix(path, "/v1/completions"@)
    ||| has_prefix(path, "/v1/embeddings"@)
    ||| has_prefix(path, "/v1/responses"@)
    ||| has_prefix(path, "/v1/images/generations"@)
}

/// Whether requests on `path` carry a `model` field in their JSON body.
pub fn carries_model(path: &str) -> (r: bool)
    ensures
        r == is_model_path(path@),
{
    starts_with(path, "/api/generate") || starts_with(path, "/api/chat") || starts_with(
        path,
        "/api/embed",
    ) || starts_with(path, "/api/embeddings") || starts_with(path, "/chat/completions")
        || starts_with(path, "/v1/chat/completions") || starts_with(path, "/v1/completions")
        || starts_with(path, "/v1/embeddings") || starts_with(path, "/v1/responses")
        || starts_with(path, "/v1/images/generations")
}

/// The model that a request is counted under: on a path that carries a model, the requested one
/// with its alias resolved and its tag added.
pub open spec fn planned_model(
    path: Seq<char>,
    requested: Option<Seq<char>>,
    models: Seq<ParsedModel>,
) -> Option<Seq<char>> {
    match requested {
        Some(name) if is_model_path(path) => Some(
            match resolved(models, name) {
                Some(real_name) => tagged(real_name),
                None => tagged(name),
            },
        ),
        _ => None,
    }
}

/// The name that takes the place of the requested one in the body, where it has to.
pub open spec fn planned_rewrite(
    path: Seq<char>,
    requested: Option<Seq<char>>,
    models: Seq<ParsedModel>,
) -> Option<Seq<char>> {
    match requested {
        Some(name) if is_model_path(path) => match resolved(models, name) {
            Some(real_name) if real_name != name => Some(real_name),
            _ => None,
        },
        _ => None,
    }
}

/// What to do with the model of a request.
pub struct ModelPlan {
    /// The model that the request is counted under.
    pub model: Option<String>,
    /// The name to write into the body.
    pub rewrite: Option<String>,
}

/// What to do with a request on `path` for the model `requested`.
pub fn plan_model(path: &str, requested: Option<String>, config: &ModelConfig) -> (r: ModelPlan)
    ensures
        opt_text(r.model) == planned_model(path@, opt_text(requested), config.models@),
        opt_text(r.rewrite) == planned_rewrite(path@, opt_text(requested), config.models@),
{
    if !carries_model(path) {
        return ModelPlan { model: None, rewrite: None };
    }
    match requested {
        None => ModelPlan { model: None, rewrite: None },
        Some(name) => match config.resolve_alias(name.as_str()) {
            None => ModelPlan { model: Some(normalize_model_tag(name.as_str())), rewrite: None },
            Some(real_name) => {
                let model = Some(normalize_model_tag(real_name.as_str()));
                if str_eq(real_name.as_str(), name.as_str()) {
                    ModelPlan { model, rewrite: None }
                } else {
                    ModelPlan { model, rewrite: Some(real_name) }
                }
            },
        },
    }
}

/// The body of a request as it goes to the backend.
pub open spec fn planned_body(body: Seq<u8>, path: Seq<char>, models: Seq<ParsedModel>) -> Seq<u8> {
    match planned_rewrite(path, json_string_member(body, "model"@), models) {
        Some(real_name) => json_with_member(body, "model"@, real_name)->0,
        None => body,
    }
}

/// Whether `after`, as far as it names a model, is `before` with the model `real_name`: that name
/// under `model`, and under every other key the same string, if any.
pub open spec fn renamed(before: Seq<u8>, after: Seq<u8>, real_name: Seq<char>) -> bool {
    json_string_member(after, "model"@) is Some ==> {
        &&& json_string_member(after, "model"@) == Some(real_name)
        &&& forall|k: Seq<char>|
            k != "model"@ ==> #[trigger] json_string_member(after, k) == json_string_member(
                before,
                k,
            )
    }
}

/// Extract and resolve the `model` field from the request body when the path is model-aware.
/// If the model is an alias, it's replaced with the real name in the body.
/// Returns `None` for non-model endpoints or when the field is absent.
/// Returns `Some(model_name)` even if not in config.
pub fn extract_and_resolve_model(body: &mut Vec<u8>, path: &str, config: &ModelConfig) -> (r: Option<
    String,
>)
    ensures
        opt_text(r) == planned_model(
            path@,
            json_string_member(old(body)@, "model"@),
            config.models@,
        ),
        final(body)@ == planned_body(old(body)@, path@, config.models@),
        planned_rewrite(path@, json_string_member(old(body)@, "model"@), config.models@) is Some
            ==> json_with_member(
            old(body)@,
            "model"@,
            planned_rewrite(path@, json_string_member(old(body)@, "model"@), config.models@)->0,
        ) is Some,
        planned_rewrite(path@, json_string_member(old(body)@, "model"@), config.models@) matches Some(
            real_name,
        ) ==> renamed(old(body)@, final(body)@, real_name),
{
    let requested = peek_model_from_body(body);
    let plan = plan_model(path, requested, config);
    if let Some(real_name) = plan.rewrite {
        proof {
            reveal_strlit("model");
            reveal_strlit("$serde_json::private::RawValue");
            assert("model"@.len() != raw_value_key().len());
        }
        let rewritten = with_string_member(body.as_slice(), "model", real_name.as_str());
        if let Some(text) = rewritten {
            *body = text;
        }
    }
    plan.model
}

/// Peek at the model name from a request body without modifying it.
/// Used for routing decisions before actually consuming the task.
pub fn peek_model_from_body(body: &Vec<u8>) -> (r: Option<String>)
    ensures
        opt_text(r) == json_string_member(body@, "model"@),
{
    string_member(body.as_slice(), "model")
}

/// The users with a task waiting.
pub open spec fn active_users<R>(queues: Map<Seq<char>, VecDeque<Task<R>>>) -> Set<Seq<char>> {
    queues.dom().filter(|u: Seq<char>| queues[u]@.len() > 0)
}

/// `a` is served before `b`: fewer requests processed so far, or as many and an earlier ID.
pub open spec fn fair_before(counts: Map<Seq<char>, usize>, a: Seq<char>, b: Seq<char>) -> bool {
    ||| count_of(counts, a) < count_of(counts, b)
    ||| count_of(counts, a) == count_of(counts, b) && text_before(a, b)
}

/// Being served before.
pub open spec fn served_before(counts: Map<Seq<char>, usize>) -> spec_fn(Seq<char>, Seq<char>) -> bool {
    |a: Seq<char>, b: Seq<char>| fair_before(counts, a, b)
}

/// Whether `order` lists `users`, each before all those that are served later.
pub open spec fn is_fair_order(
    order: Seq<Seq<char>>,
    users: Set<Seq<char>>,
    counts: Map<Seq<char>, usize>,
) -> bool {
    &&& order.to_set() == users
    &&& ordered_by(order, served_before(counts))
}

/// The users in the order in which they are served.
pub open spec fn fair_order(users: Set<Seq<char>>, counts: Map<Seq<char>, usize>) -> Seq<
    Seq<char>,
> {
    choose|order: Seq<Seq<char>>| is_fair_order(order, users, counts)
}

/// There is at most one fair order of a set of users.
pub proof fn law_fair_order_unique(
    a: Seq<Seq<char>>,
    b: Seq<Seq<char>>,
    users: Set<Seq<char>>,
    counts: Map<Seq<char>, usize>,
)
    requires
        is_fair_order(a, users, counts),
        is_fair_order(b, users, counts),
    ensures
        a == b,
{
    let before = served_before(counts);
    assert forall|x: Seq<char>, y: Seq<char>| !(#[trigger] before(x, y) && before(y, x)) by {
        lemma_text_before_order(x, y, x);
    }
    lemma_one_order(a, b, before);
}

/// Any finite number of users can be put in a fair order.
proof fn lemma_fair_order_exists(users: Set<Seq<char>>, counts: Map<Seq<char>, usize>)
    requires
        users.finite(),
    ensures
        is_fair_order(fair_order(users, counts), users, counts),
{
    let before = served_before(counts);
    assert forall|x: Seq<char>, y: Seq<char>, z: Seq<char>| #[trigger]
        before(x, y) && #[trigger] before(y, z) implies before(x, z) by {
        lemma_text_before_order(x, y, z);
    }
    assert forall|x: Seq<char>, y: Seq<char>| x != y implies #[trigger] before(x, y) || before(
        y,
        x,
    ) by {
        lemma_text_before_order(x, y, x);
    }
    lemma_order_exists(users, before);
    let order = choose|s: Seq<Seq<char>>| s.to_set() == users && #[trigger] ordered_by(s, before);
    assert(is_fair_order(order, users, counts));
}

/// Whether `a` is served before `b`.
pub fn comes_first(a: &str, b: &str, counts: &StrMap<usize>) -> (r: bool)
    requires
        counts.wf(),
    ensures
        r == fair_before(counts@, a@, b@),
{
    let x: usize = counts.count(a);
    let y: usize = counts.count(b);
    x < y || (x == y && str_before(a, b))
}

/// Puts `user`, who is not in it, in its place in a fair order.
fn insert_fairly(order: &mut Vec<String>, user: &str, counts: &StrMap<usize>)
    requires
        counts.wf(),
        is_fair_order(texts(old(order)@), texts(old(order)@).to_set(), counts@),
        !texts(old(order)@).contains(user@),
    ensures
        is_fair_order(texts(final(order)@), texts(old(order)@).to_set().insert(user@), counts@),
{
    let mut i: usize = 0;
    while i < order.len() && comes_first(order[i].as_str(), user, counts)
        invariant
            i <= order@.len(),
            counts.wf(),
            forall|j: int| 0 <= j < i ==> fair_before(counts@, #[trigger] texts(order@)[j], user@),
        decreases order@.len() - i,
    {
        i += 1;
    }
    let ghost before = texts(order@);
    let ghost lt = served_before(counts@);
    order.insert(i, user.to_owned());
    proof {
        assert(texts(order@) =~= before.insert(i as int, user@));
        assert forall|q: int| i <= q < before.len() implies lt(user@, #[trigger] before[q]) by {
            let x = before[i as int];
            assert(before.contains(x));
            lemma_text_before_order(x, user@, user@);
            if q > i {
                assert(lt(x, before[q]));
                lemma_text_before_order(user@, x, before[q]);
            }
        }
        lemma_insert_ordered(before, i as int, user@, lt);
    }
}

/// The users with a task waiting, in the order in which they are served.
pub fn users_in_turn<R>(
    queues: &StrMap<VecDeque<Task<R>>>,
    counts: &StrMap<usize>,
) -> (r: Vec<String>)
    requires
        queues.wf(),
        counts.wf(),
    ensures
        is_fair_order(texts(r@), active_users(queues@), counts@),
        texts(r@) == fair_order(active_users(queues@), counts@),
{
    let mut r: Vec<String> = Vec::new();
    let mut i: usize = 0;
    let ghost keys = queues.keys();
    proof {
        queues.lemma_keys();
        assert(texts(r@).to_set() =~= keys.take(0).to_set().intersect(active_users(queues@)));
    }
    while i < queues.len()
        invariant
            i <= keys.len(),
            keys == queues.keys(),
            keys.no_duplicates(),
            queues.wf(),
            counts.wf(),
            forall|k: int| 0 <= k < keys.len() ==> queues@.dom().contains(#[trigger] keys[k]),
            is_fair_order(
                texts(r@),
                keys.take(i as int).to_set().intersect(active_users(queues@)),
                counts@,
            ),
        decreases keys.len() - i,
    {
        let ghost done = keys.take(i as int);
        let ghost k = keys[i as int];
        proof {
            assert(keys.take(i + 1) =~= done.push(k));
            lemma_push_members(done, k);
            if done.contains(k) {
                let j = done.index_of(k);
                assert(keys[j] == k);
            }
            assert(!texts(r@).to_set().contains(k));
        }
        if queues.value_at(i).len() > 0 {
            insert_fairly(&mut r, queues.key_at(i).as_str(), counts);
            assert(done.to_set().intersect(active_users(queues@)).insert(k) =~= done.push(
                k,
            ).to_set().intersect(active_users(queues@)));
        } else {
            assert(done.to_set().intersect(active_users(queues@)) =~= done.push(
                k,
            ).to_set().intersect(active_users(queues@)));
        }
        i += 1;
    }
    proof {
        assert(keys.take(i as int) =~= keys);
        queues.lemma_keys();
        assert(keys.to_set().intersect(active_users(queues@)) =~= active_users(queues@));
        law_fair_order_unique(
            texts(r@),
            fair_order(active_users(queues@), counts@),
            active_users(queues@),
            counts@,
        );
    }
    r
}

/// Being in `users`.
pub open spec fn is_among(users: Set<Seq<char>>) -> spec_fn(Seq<char>) -> bool {
    |u: Seq<char>| users.contains(u)
}

/// The place in the VIP list of the first VIP with a task waiting.
pub open spec fn vip_place(vips: Seq<Seq<char>>, active: Set<Seq<char>>) -> int {
    first_index(vips, is_among(active))
}

/// The place in a round of `n` users after which `idx` stands: past the end it starts over.
pub open spec fn turn(idx: int, n: int) -> int {
    if idx >= n {
        0
    } else {
        idx
    }
}

/// The user who is served next: the first VIP with a task waiting, else the one whose turn it is.
pub open spec fn next_user(
    vips: Seq<Seq<char>>,
    active: Set<Seq<char>>,
    counts: Map<Seq<char>, usize>,
    idx: int,
) -> Seq<char> {
    let order = fair_order(active, counts);
    if vip_place(vips, active) < vips.len() {
        vips[vip_place(vips, active)]
    } else {
        order[turn(idx, order.len() as int)]
    }
}

/// Where the round stands afterwards: one further, unless a VIP was served.
pub open spec fn next_idx(
    vips: Seq<Seq<char>>,
    active: Set<Seq<char>>,
    counts: Map<Seq<char>, usize>,
    idx: int,
) -> int {
    if vip_place(vips, active) < vips.len() {
        idx
    } else {
        turn(idx, fair_order(active, counts).len() as int) + 1
    }
}

/// The user who is served next, if any has a task waiting.
pub fn choose_user<R>(
    queues: &StrMap<VecDeque<Task<R>>>,
    counts: &StrMap<usize>,
    vips: &Vec<String>,
    current_idx: &mut usize,
) -> (r: Option<String>)
    requires
        queues.wf(),
        counts.wf(),
    ensures
        r is Some <==> active_users(queues@) != Set::<Seq<char>>::empty(),
        r is None ==> *final(current_idx) == *old(current_idx),
        r is Some ==> {
            &&& r->0@ == next_user(
                texts(vips@),
                active_users(queues@),
                counts@,
                *old(current_idx) as int,
            )
            &&& active_users(queues@).contains(r->0@)
            &&& *final(current_idx) == next_idx(
                texts(vips@),
                active_users(queues@),
                counts@,
                *old(current_idx) as int,
            )
        },
{
    let order = users_in_turn(queues, counts);
    let ghost active = active_users(queues@);
    if order.len() == 0 {
        assert(texts(order@).to_set() =~= Set::<Seq<char>>::empty());
        return None;
    }
    assert(texts(order@).to_set().contains(texts(order@)[0]));
    let mut i: usize = 0;
    let ghost p = is_among(active);
    while i < vips.len()
        invariant
            i <= vips@.len(),
            p == is_among(active),
            active == active_users(queues@),
            texts(order@).to_set() == active,
            active != Set::<Seq<char>>::empty(),
            *current_idx == *old(current_idx),
            forall|j: int| 0 <= j < i ==> !p(#[trigger] texts(vips@)[j]),
        decreases vips@.len() - i,
    {
        if list_contains(&order, vips[i].as_str()) {
            proof {
                assert(texts(vips@)[i as int] == vips@[i as int]@);
                assert(texts(order@).to_set().contains(vips@[i as int]@));
                lemma_first_index(texts(vips@), p, i as int);
            }
            return Some(vips[i].clone());
        }
        assert(!texts(order@).to_set().contains(vips@[i as int]@));
        i += 1;
    }
    proof {
        lemma_first_index(texts(vips@), p, i as int);
    }
    if *current_idx >= order.len() {
        *current_idx = 0;
    }
    let user = order[*current_idx].clone();
    assert(texts(order@).to_set().contains(texts(order@)[*current_idx as int]));
    *current_idx += 1;
    Some(user)
}

/// How many requests for `model` the backend works on.
pub open spec fn load_of(b: BackendStatus, model: Seq<char>) -> int {
    count_of(b.active_models@, model)
}

/// Whether a backend takes one more request for `model`: online, able to serve it, and without
/// such a request or below the limit.
pub open spec fn admissible(b: BackendStatus, model: Seq<char>, limit: int) -> bool {
    &&& b.is_online
    &&& b.serves(model)
    &&& load_of(b, model) == 0 || load_of(b, model) < limit
}

/// Whether backend `i` is the one to take a request for `model`: the least loaded of the
/// admissible ones, the first of them if several are.
pub open spec fn is_best(
    backends: Seq<BackendStatus>,
    model: Seq<char>,
    limit: int,
    i: int,
) -> bool {
    &&& 0 <= i < backends.len()
    &&& admissible(backends[i], model, limit)
    &&& forall|j: int|
        0 <= j < backends.len() && admissible(#[trigger] backends[j], model, limit) ==> {
            ||| load_of(backends[i], model) < load_of(backends[j], model)
            ||| load_of(backends[i], model) == load_of(backends[j], model) && i <= j
        }
}

/// Whether some backend takes one more request for `model`.
pub open spec fn some_admissible(
    backends: Seq<BackendStatus>,
    model: Seq<char>,
    limit: int,
) -> bool {
    exists|i: int| 0 <= i < backends.len() && admissible(#[trigger] backends[i], model, limit)
}

/// The backend to take a request for `model`: requests spread over idle backends first, then over
/// the least loaded ones below the limit.
pub fn pick_backend(backends: &Vec<BackendStatus>, model: &str, limit: usize) -> (r: Option<usize>)
    requires
        forall|i: int| 0 <= i < backends@.len() ==> (#[trigger] backends@[i]).wf(),
    ensures
        r is Some <==> some_admissible(backends@, model@, limit as int),
        r is Some ==> is_best(backends@, model@, limit as int, r->0 as int),
{
    let mut best: Option<usize> = None;
    let mut best_load: usize = 0;
    let mut i: usize = 0;
    while i < backends.len()
        invariant
            i <= backends@.len(),
            forall|j: int| 0 <= j < backends@.len() ==> (#[trigger] backends@[j]).wf(),
            best is None ==> forall|j: int|
                0 <= j < i ==> !admissible(#[trigger] backends@[j], model@, limit as int),
            best matches Some(b) ==> {
                &&& b < i
                &&& admissible(backends@[b as int], model@, limit as int)
                &&& best_load == load_of(backends@[b as int], model@)
                &&& forall|j: int|
                    0 <= j < i && admissible(#[trigger] backends@[j], model@, limit as int) ==> {
                        ||| best_load < load_of(backends@[j], model@)
                        ||| best_load == load_of(backends@[j], model@) && b <= j
                    }
            },
        decreases backends@.len() - i,
    {
        let b = &backends[i];
        if b.is_online && b.can_serve_model(model) {
            let load: usize = b.active_models.count(model);
            if load == 0 || load < limit {
                let better = match best {
                    None => true,
                    Some(_) => load < best_load,
                };
                if better {
                    best = Some(i);
                    best_load = load;
                }
            }
        }
        i += 1;
    }
    best
}

/// The most requests that one backend works on at a time for the model with this real name.
pub open spec fn limit_named(models: Seq<ParsedModel>, real_name: Seq<char>) -> int {
    let k = first_index(models, has_name(real_name));
    if k < models.len() {
        models[k].max_concurrent_requests as int
    } else {
        1
    }
}

/// The most requests that one backend works on at a time for the requested model: what the
/// configuration says of the model behind the name.
pub open spec fn limit_for(models: Seq<ParsedModel>, requested: Option<Seq<char>>) -> int {
    match requested {
        Some(name) => match resolved(models, name) {
            Some(real_name) => limit_named(models, real_name),
            None => 1,
        },
        None => 1,
    }
}

/// The model by which a request is routed: the requested one with its alias resolved and its tag
/// added, if the configuration knows it.
pub open spec fn routed(models: Seq<ParsedModel>, requested: Option<Seq<char>>) -> Option<
    Seq<char>,
> {
    match requested {
        Some(name) => match resolved(models, name) {
            Some(real_name) => Some(tagged(real_name)),
            None => None,
        },
        None => None,
    }
}

/// The model by which a request is routed.
pub fn route(config: &ModelConfig, requested: &Option<String>) -> (r: Option<String>)
    ensures
        opt_text(r) == routed(config.models@, opt_text(*requested)),
{
    match requested {
        Some(name) => match config.resolve_alias(name.as_str()) {
            Some(real_name) => Some(normalize_model_tag(real_name.as_str())),
            None => None,
        },
        None => None,
    }
}

/// The most requests that one backend works on at a time for the requested model.
pub fn concurrency_limit(config: &ModelConfig, requested: &Option<String>) -> (r: usize)
    ensures
        r == limit_for(config.models@, opt_text(*requested)),
{
    let real_name = match requested {
        Some(name) => config.resolve_alias(name.as_str()),
        None => None,
    };
    match real_name {
        Some(real_name) => {
            let ghost p = has_name(real_name@);
            let mut i: usize = 0;
            while i < config.models.len()
                invariant
                    i <= config.models@.len(),
                    p == has_name(real_name@),
                    limit_for(config.models@, opt_text(*requested)) == limit_named(
                        config.models@,
                        real_name@,
                    ),
                    forall|j: int| 0 <= j < i ==> !p(#[trigger] config.models@[j]),
                decreases config.models@.len() - i,
            {
                if str_eq(config.models[i].name.as_str(), real_name.as_str()) {
                    proof {
                        lemma_first_index(config.models@, p, i as int);
                    }
                    return config.models[i].max_concurrent_requests;
                }
                i += 1;
            }
            proof {
                lemma_first_index(config.models@, p, i as int);
            }
            1
        },
        None => 1,
    }
}

/// What to do next.
pub enum SelectionResult<R> {
    /// Send this user's task to the backend at this index, with this URL.
    Dispatch(String, Task<R>, usize, String),
    /// Tell the client that no backend has the model of this name.
    ModelNotFound(Task<R>, String),
    /// Nothing can be done until something changes.
    Wait,
}

/// Whether `after` is `before` with the first task of `user` taken out, and counted.
pub open spec fn took_first<R>(
    before: AppState<R>,
    after: AppState<R>,
    user: Seq<char>,
) -> bool {
    &&& after.queues@.dom() == before.queues@.dom()
    &&& after.queues@.remove(user) == before.queues@.remove(user)
    &&& queue_of(after.queues@, user) == queue_of(before.queues@, user).drop_first()
    &&& after.global_counter == before.global_counter + 1
}

/// Whether `after` is `before` with one more request for `model`.
pub open spec fn claimed(before: BackendStatus, after: BackendStatus, model: Seq<char>) -> bool {
    &&& after.active_requests == before.active_requests + 1
    &&& after.active_models@ == before.active_models@.insert(
        model,
        (load_of(before, model) + 1) as usize,
    )
    &&& after == (BackendStatus {
        active_requests: after.active_requests,
        active_models: after.active_models,
        ..before
    })
}

/// Whether `backend` is the best backend for `model` and is claimed for it, and nothing else about
/// the backends changed.
pub open spec fn claimed_best(
    before: Seq<BackendStatus>,
    after: Seq<BackendStatus>,
    model: Seq<char>,
    limit: int,
    i: int,
) -> bool {
    &&& is_best(before, model, limit, i)
    &&& after.len() == before.len()
    &&& claimed(before[i], after[i], model)
    &&& after == before.update(i, after[i])
}

/// Whether `r` and `after` are what becomes of the first task of `user` when its body asks for
/// the model `requested`, apart from what is done to a dispatched task.
pub open spec fn assigned<R>(
    before: AppState<R>,
    after: AppState<R>,
    user: Seq<char>,
    requested: Option<Seq<char>>,
    r: SelectionResult<R>,
) -> bool {
    let models = before.model_config.models@;
    match routed(models, requested) {
        None => {
            &&& r matches SelectionResult::ModelNotFound(task, name)
            &&& task == queue_of(before.queues@, user)[0]
            &&& name@ == match requested {
                Some(m) => m,
                None => "unknown"@,
            }
            &&& took_first(before, after, user)
            &&& after == (AppState {
                queues: after.queues,
                global_counter: after.global_counter,
                ..before
            })
        },
        Some(model) => if some_admissible(before.backends@, model, limit_for(models, requested)) {
            &&& r matches SelectionResult::Dispatch(u, task, i, url)
            &&& u@ == user
            &&& claimed_best(
                before.backends@,
                after.backends@,
                model,
                limit_for(models, requested),
                i as int,
            )
            &&& url@ == before.backends@[i as int].url@
            &&& took_first(before, after, user)
            &&& after == (AppState {
                queues: after.queues,
                global_counter: after.global_counter,
                backends: after.backends,
                ..before
            })
        } else {
            &&& r is Wait
            &&& after == before
        },
    }
}

/// Whether `task` is `queued` made ready for the backend: the model it is counted under noted, and
/// an alias in its body replaced. A replaced body, as far as it names a model, names the real one and
/// has the same strings otherwise.
pub open spec fn prepared<R>(queued: Task<R>, task: Task<R>, models: Seq<ParsedModel>) -> bool {
    let requested = json_string_member(queued.body@, "model"@);
    let model = planned_model(queued.path@, requested, models);
    let rewrite = planned_rewrite(queued.path@, requested, models);
    &&& task.body@ == planned_body(queued.body@, queued.path@, models)
    &&& rewrite matches Some(real_name) ==> renamed(queued.body@, task.body@, real_name)
        && json_with_member(queued.body@, "model"@, real_name) == Some(task.body@)
    &&& opt_text(task.resolved_model) == if model is Some {
        model
    } else {
        opt_text(queued.resolved_model)
    }
    &&& task == (Task { body: task.body, resolved_model: task.resolved_model, ..queued })
}

impl<R> AppState<R> {
    /// Whether one more request can be counted.
    pub open spec fn has_room(&self) -> bool {
        &&& self.global_counter < usize::MAX
        &&& forall|i: int|
            0 <= i < self.backends@.len() ==> (#[trigger] self.backends@[i]).active_requests
                < usize::MAX
    }

    /// Whether some backend is online.
    pub open spec fn some_online(&self) -> bool {
        exists|i: int| 0 <= i < self.backends@.len() && (#[trigger] self.backends@[i]).is_online
    }

    /// Whether one more request can be counted.
    pub fn can_count(&self) -> (r: bool)
        ensures
            r == self.has_room(),
    {
        let mut i: usize = 0;
        while i < self.backends.len()
            invariant
                i <= self.backends@.len(),
                forall|j: int|
                    0 <= j < i ==> (#[trigger] self.backends@[j]).active_requests < usize::MAX,
            decreases self.backends@.len() - i,
        {
            if self.backends[i].active_requests == usize::MAX {
                return false;
            }
            i += 1;
        }
        self.global_counter < usize::MAX
    }

    /// Whether some backend is online.
    pub fn any_online(&self) -> (r: bool)
        ensures
            r == self.some_online(),
    {
        let mut i: usize = 0;
        while i < self.backends.len()
            invariant
                i <= self.backends@.len(),
                forall|j: int| 0 <= j < i ==> !(#[trigger] self.backends@[j]).is_online,
            decreases self.backends@.len() - i,
        {
            if self.backends[i].is_online {
                return true;
            }
            i += 1;
        }
        false
    }

    /// Takes the first task of `user` out of its queue and counts it.
    fn take_first(&mut self, user: &str) -> (task: Task<R>)
        requires
            old(self).wf(),
            queue_of(old(self).queues@, user@).len() > 0,
            old(self).global_counter < usize::MAX,
        ensures
            final(self).wf(),
            task == queue_of(old(self).queues@, user@)[0],
            took_first(*old(self), *final(self), user@),
            *final(self) == (AppState {
                queues: final(self).queues,
                global_counter: final(self).global_counter,
                ..*old(self)
            }),
    {
        let ghost before = queue_of(self.queues@, user@);
        let i: usize = self.queues.position(user);
        let popped = self.queues.value_mut(i).pop_front();
        self.global_counter += 1;
        proof {
            assert(queue_of(self.queues@, user@) =~= before.drop_first());
            assert(self.queues@.remove(user@) =~= old(self).queues@.remove(user@));
            assert(self.queues@.dom() =~= old(self).queues@.dom());
        }
        popped.unwrap()
    }

    /// Finds a backend for the first task of `user`, whose body asks for the model `requested`. A
    /// model that the configuration does not know, or no model, is answered at once. A task that no
    /// backend can take now stays where it is.
    pub fn assign(&mut self, user: &str, requested: Option<String>) -> (r: SelectionResult<R>)
        requires
            old(self).wf(),
            old(self).has_room(),
            queue_of(old(self).queues@, user@).len() > 0,
        ensures
            final(self).wf(),
            assigned(*old(self), *final(self), user@, opt_text(requested), r),
            r matches SelectionResult::Dispatch(_, task, _, _) ==> task == queue_of(
                old(self).queues@,
                user@,
            )[0],
    {
        match route(&self.model_config, &requested) {
            None => {
                let task = self.take_first(user);
                let name = match requested {
                    Some(m) => m,
                    None => "unknown".to_owned(),
                };
                SelectionResult::ModelNotFound(task, name)
            },
            Some(model) => {
                let limit: usize = concurrency_limit(&self.model_config, &requested);
                match pick_backend(&self.backends, model.as_str(), limit) {
                    None => SelectionResult::Wait,
                    Some(i) => {
                        let task = self.take_first(user);
                        let ghost earlier = self.backends@;
                        let n: usize = self.backends[i].active_requests;
                        self.backends[i].active_requests = n + 1;
                        self.backends[i].active_models.bump(model.as_str());
                        proof {
                            assert(self.backends@ =~= earlier.update(
                                i as int,
                                self.backends@[i as int],
                            ));
                            assert(urls(self.backends@) =~= urls(earlier));
                        }
                        let url = self.backends[i].url.clone();
                        SelectionResult::Dispatch(user.to_owned(), task, i, url)
                    },
                }
            },
        }
    }

    /// Chooses the next task and what to do with it. Users with a task waiting take turns, those
    /// with fewer processed requests first, and VIP users come before all others. A dispatched task
    /// has its model resolved and its body ready for the backend.
    pub fn select_and_prepare_task(&mut self, current_idx: &mut usize) -> (r: SelectionResult<R>)
        requires
            old(self).wf(),
            old(self).has_room(),
        ensures
            final(self).wf(),
            !old(self).some_online() || active_users(old(self).queues@) == Set::<
                Seq<char>,
            >::empty() ==> {
                &&& r is Wait
                &&& *final(self) == *old(self)
                &&& *final(current_idx) == *old(current_idx)
            },
            old(self).some_online() && active_users(old(self).queues@) != Set::<
                Seq<char>,
            >::empty() ==> {
                let vips = texts(old(self).vip_user@);
                let active = active_users(old(self).queues@);
                let counts = old(self).processed_counts@;
                let user = next_user(vips, active, counts, *old(current_idx) as int);
                let first = queue_of(old(self).queues@, user)[0];
                &&& active.contains(user)
                &&& *final(current_idx) == next_idx(vips, active, counts, *old(current_idx) as int)
                &&& assigned(
                    *old(self),
                    *final(self),
                    user,
                    json_string_member(first.body@, "model"@),
                    r,
                )
                &&& r matches SelectionResult::Dispatch(_, task, _, _) ==> prepared(
                    first,
                    task,
                    old(self).model_config.models@,
                )
            },
    {
        if !self.any_online() {
            return SelectionResult::Wait;
        }
        let chosen = choose_user(
            &self.queues,
            &self.processed_counts,
            &self.vip_user,
            current_idx,
        );
        match chosen {
            None => SelectionResult::Wait,
            Some(user) => {
                let requested = match self.queues.get(user.as_str()) {
                    Some(q) => peek_model_from_body(&q[0].body),
                    None => None,
                };
                let r = self.assign(user.as_str(), requested);
                match r {
                    SelectionResult::Dispatch(u, task, i, url) => {
                        let mut task = task;
                        let model = extract_and_resolve_model(
                            &mut task.body,
                            task.path.as_str(),
                            &self.model_config,
                        );
                        if let Some(m) = model {
                            task.resolved_model = Some(m);
                        }
                        SelectionResult::Dispatch(u, task, i, url)
                    },
                    other => other,
                }
            },
        }
    }
}

/// A name with a tag keeps it, so that adding the tag twice is adding it once.
pub proof fn law_tagged_idempotent(name: Seq<char>)
    ensures
        tagged(name).contains(':'),
        tagged(tagged(name)) == tagged(name),
{
    reveal_strlit(":latest");
    if !name.contains(':') {
        assert(tagged(name)[name.len() as int] == ':');
    }
}

/// Adding the tag does not change what a name is matched by.
pub proof fn law_tagged_keeps_base(name: Seq<char>)
    ensures
        base_name(tagged(name)) == base_name(name),
{
    reveal_strlit(":latest");
    if !name.contains(':') {
        let t = tagged(name);
        let n = name.len() as int;
        assert forall|j: int| 0 <= j < n implies !is_char(':')(#[trigger] t[j]) by {
            assert(t[j] == name[j]);
        }
        assert(t[n] == ':');
        lemma_first_index(t, is_char(':'), n);
        lemma_first_index(name, is_char(':'), n);
        assert(t.take(n) =~= name.take(n));
    }
}

/// As long as a VIP user has a task waiting, a VIP user is served: the first in the VIP list who
/// has one. The round of the others stands still.
pub proof fn law_vip_first(
    vips: Seq<Seq<char>>,
    active: Set<Seq<char>>,
    counts: Map<Seq<char>, usize>,
    idx: int,
    i: int,
)
    requires
        0 <= i < vips.len(),
        active.contains(vips[i]),
    ensures
        ({
            let k = vip_place(vips, active);
            &&& 0 <= k <= i
            &&& next_user(vips, active, counts, idx) == vips[k]
            &&& active.contains(vips[k])
            &&& forall|j: int| 0 <= j < k ==> !active.contains(#[trigger] vips[j])
        }),
        next_idx(vips, active, counts, idx) == idx,
{
    let p = is_among(active);
    lemma_first_index_props(vips, p);
    assert(p(vips[i]));
    assert forall|j: int| 0 <= j < vip_place(vips, active) implies !active.contains(
        #[trigger] vips[j],
    ) by {
        assert(!p(vips[j]));
    }
}

/// Without VIP users the users take turns: in each round every user with a task waiting is served
/// once, as long as nothing else changes.
pub proof fn law_everyone_gets_a_turn(
    vips: Seq<Seq<char>>,
    active: Set<Seq<char>>,
    counts: Map<Seq<char>, usize>,
    user: Seq<char>,
)
    requires
        forall|i: int| 0 <= i < vips.len() ==> !active.contains(#[trigger] vips[i]),
        active.finite(),
        active.contains(user),
    ensures
        ({
            let n = fair_order(active, counts).len() as int;
            &&& forall|idx: int|
                0 <= idx < n ==> #[trigger] next_idx(vips, active, counts, idx) == idx + 1
            &&& next_idx(vips, active, counts, n) == 1
            &&& exists|idx: int|
                0 <= idx < n && #[trigger] next_user(vips, active, counts, idx) == user
            &&& forall|i: int, j: int|
                0 <= i < n && 0 <= j < n && next_user(vips, active, counts, i) == next_user(
                    vips,
                    active,
                    counts,
                    j,
                ) ==> i == j
        }),
{
    lemma_fair_order_exists(active, counts);
    let order = fair_order(active, counts);
    let n = order.len() as int;
    lemma_first_index(vips, is_among(active), vips.len() as int);
    assert(order.to_set().contains(user));
    let k = order.index_of(user);
    assert(next_user(vips, active, counts, k) == user);
    assert forall|i: int, j: int|
        0 <= i < n && 0 <= j < n && next_user(vips, active, counts, i) == next_user(
            vips,
            active,
            counts,
            j,
        ) implies i == j by {
        let before = served_before(counts);
        lemma_text_before_order(order[i], order[j], order[i]);
        if i < j {
            assert(before(order[i], order[j]));
        } else if j < i {
            assert(before(order[j], order[i]));
        }
    }
}

/// Whoever is served first in a round has had no more requests processed than any other user with
/// a task waiting.
pub proof fn law_least_served_first(
    vips: Seq<Seq<char>>,
    active: Set<Seq<char>>,
    counts: Map<Seq<char>, usize>,
    other: Seq<char>,
)
    requires
        forall|i: int| 0 <= i < vips.len() ==> !active.contains(#[trigger] vips[i]),
        active.finite(),
        active.contains(other),
    ensures
        count_of(counts, next_user(vips, active, counts, 0)) <= count_of(counts, other),
{
    lemma_fair_order_exists(active, counts);
    let order = fair_order(active, counts);
    lemma_first_index(vips, is_among(active), vips.len() as int);
    assert(order.to_set().contains(other));
    let k = order.index_of(other);
    let before = served_before(counts);
    if k > 0 {
        assert(before(order[0], order[k]));
    }
}

/// A dispatched task goes to a backend that is online, is configured for the model and has it
/// available, and that backend then works on no more requests for the model than the limit allows;
/// one request at a time is always allowed.
pub proof fn law_dispatch_within_limits<R>(
    before: AppState<R>,
    after: AppState<R>,
    user: Seq<char>,
    requested: Option<Seq<char>>,
    r: SelectionResult<R>,
)
    requires
        assigned(before, after, user, requested, r),
        r is Dispatch,
    ensures
        ({
            let model = routed(before.model_config.models@, requested)->0;
            let limit = limit_for(before.model_config.models@, requested);
            let i = r->Dispatch_2 as int;
            &&& before.backends@[i].is_online
            &&& before.backends@[i].serves(model)
            &&& load_of(after.backends@[i], model) == load_of(before.backends@[i], model) + 1
            &&& load_of(after.backends@[i], model) <= limit || load_of(
                after.backends@[i],
                model,
            ) == 1
        }),
{
}

/// A model's limit is its own, under its real name, tagged or not, and under every alias.
pub proof fn law_limit_is_the_models_own(models: Seq<ParsedModel>, name: Seq<char>, k: int)
    requires
        0 <= k < models.len(),
        resolved(models, name) == Some(models[k].name@),
        forall|j: int|
            0 <= j < models.len() && j != k ==> (#[trigger] models[j]).name@ != models[k].name@,
    ensures
        limit_for(models, Some(name)) == models[k].max_concurrent_requests,
{
    lemma_first_index(models, has_name(models[k].name@), k);
}

/// The limit of a model that is routed to is that of a configured model with the routed name.
pub proof fn law_limit_is_configured(models: Seq<ParsedModel>, requested: Option<Seq<char>>)
    requires
        routed(models, requested) is Some,
    ensures
        exists|k: int|
            0 <= k < models.len() && tagged((#[trigger] models[k]).name@) == routed(
                models,
                requested,
            )->0 && limit_for(models, requested) == models[k].max_concurrent_requests,
{
    let name = requested->0;
    law_resolved_is_real(models, name);
    let real_name = resolved(models, name)->0;
    let p = has_name(real_name);
    lemma_first_index_props(models, p);
    let i = choose|i: int| 0 <= i < models.len() && (#[trigger] models[i]).name@ == real_name;
    assert(p(models[i]));
    let k = first_index(models, p);
    assert(p(models[k]));
}

/// Requests spread: while some admissible backend has no request for the model, one of those is
/// chosen.
pub proof fn law_idle_backends_first(
    backends: Seq<BackendStatus>,
    model: Seq<char>,
    limit: int,
    i: int,
    j: int,
)
    requires
        is_best(backends, model, limit, i),
        0 <= j < backends.len(),
        backends[j].is_online,
        backends[j].serves(model),
        load_of(backends[j], model) == 0,
    ensures
        load_of(backends[i], model) == 0,
{
    assert(admissible(backends[j], model, limit));
}

/// At most one backend is the best one.
pub proof fn law_one_best_backend(
    backends: Seq<BackendStatus>,
    model: Seq<char>,
    limit: int,
    i: int,
    j: int,
)
    requires
        is_best(backends, model, limit, i),
        is_best(backends, model, limit, j),
    ensures
        i == j,
{
}

/// No task gets lost: every task that waited still waits, in the same place, but for the one that
/// is handed out, which was the first of its user's queue.
pub proof fn law_no_task_lost<R>(
    before: AppState<R>,
    after: AppState<R>,
    user: Seq<char>,
    requested: Option<Seq<char>>,
    r: SelectionResult<R>,
    other: Seq<char>,
)
    requires
        queue_of(before.queues@, user).len() > 0,
        assigned(before, after, user, requested, r),
    ensures
        other != user ==> queue_of(after.queues@, other) == queue_of(before.queues@, other),
        r is Wait ==> queue_of(after.queues@, user) == queue_of(before.queues@, user),
        !(r is Wait) ==> queue_of(before.queues@, user) == seq![
            queue_of(before.queues@, user)[0],
        ] + queue_of(after.queues@, user),
        r matches SelectionResult::ModelNotFound(task, _) ==> task == queue_of(
            before.queues@,
            user,
        )[0],
{
    if !(r is Wait) {
        let q = queue_of(before.queues@, user);
        assert(q =~= seq![q[0]] + q.drop_first());
        if other != user {
            assert(after.queues@.remove(user).dom().contains(other)
                == after.queues@.dom().contains(other));
            assert(before.queues@.remove(user).dom().contains(other)
                == before.queues@.dom().contains(other));
            if before.queues@.dom().contains(other) {
                assert(after.queues@.remove(user)[other] == after.queues@[other]);
                assert(before.queues@.remove(user)[other] == before.queues@[other]);
            }
        }
    }
}

/// A request that was dispatched under some model is, on a path that carries a model, counted
/// under that same model.
pub proof fn law_counted_as_routed(
    path: Seq<char>,
    requested: Option<Seq<char>>,
    models: Seq<ParsedModel>,
)
    requires
        is_model_path(path),
        routed(models, requested) is Some,
    ensures
        planned_model(path, requested, models) == routed(models, requested),
{
}

/// A request for a model that the configuration does not know is answered at once, whatever the
/// backends do.
pub proof fn law_unknown_model_answered<R>(
    before: AppState<R>,
    after: AppState<R>,
    user: Seq<char>,
    name: Seq<char>,
    r: SelectionResult<R>,
)
    requires
        model_known_as(before.model_config.models@, name) is None,
        assigned(before, after, user, Some(name), r),
    ensures
        r is ModelNotFound,
        r->ModelNotFound_1@ == name,
{
    law_resolved_iff_known(before.model_config.models@, name);
}

} // verus!
