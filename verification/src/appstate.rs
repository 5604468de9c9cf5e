//! The state that the proxy shares between its requests.

use crate::auth::{user_with_hash, vip_users, UserRegistry};
use crate::backend::{carried_over, carry_over, BackendStatus};
use crate::digest::token_digest;
use crate::headers::{
    bearer, bearer_token, field_text, header_fields, header_text, remove_header,
};
use crate::models::{backend_urls, lacks_backends, models_on, ConfigError, ModelConfig, ParsedModel};
use crate::seqs::{first_index, lemma_one_order};
use crate::strmap::{StrMap, StrSet};
use crate::tags::CachedTags;
use crate::text::{
    ascii_lowered, before_char, increasing, lemma_text_before_order, opt_str, opt_text,
    split_first, str_eq, text_order, texts, trim, trimmed,
};
use axum::http::{HeaderMap, HeaderValue, Method};
use std::collections::VecDeque;
use vstd::prelude::*;

verus! {

/// An IP address, by the number that its bits make.
#[derive(Clone, Copy, Debug, PartialEq, Eq, Structural)]
pub enum IpAddr {
    V4(u32),
    V6(u128),
}

/// A set of addresses in insertion order.
pub struct IpSet {
    items: Vec<IpAddr>,
}

impl View for IpSet {
    type V = Set<IpAddr>;

    closed spec fn view(&self) -> Set<IpAddr> {
        self.items@.to_set()
    }
}

impl IpSet {
    /// The members, in insertion order.
    pub closed spec fn members(&self) -> Seq<IpAddr> {
        self.items@
    }

    /// No member occurs twice.
    pub closed spec fn wf(&self) -> bool {
        self.items@.no_duplicates()
    }

    /// The listed members of a well-formed set are distinct and make up the set.
    pub proof fn lemma_members(&self)
        requires
            self.wf(),
        ensures
            self.members().no_duplicates(),
            self@ == self.members().to_set(),
    {
    }

    pub fn new() -> (s: Self)
        ensures
            s.wf(),
            s@ == Set::<IpAddr>::empty(),
            s.members() == Seq::<IpAddr>::empty(),
    {
        let s = IpSet { items: Vec::new() };
        assert(s@ =~= Set::<IpAddr>::empty());
        s
    }

    /// The number of members.
    pub fn len(&self) -> (n: usize)
        ensures
            n == self.members().len(),
    {
        self.items.len()
    }

    /// The member at place `i`.
    pub fn at(&self, i: usize) -> (ip: IpAddr)
        requires
            i < self.members().len(),
        ensures
            ip == self.members()[i as int],
    {
        self.items[i]
    }

    pub fn contains(&self, ip: &IpAddr) -> (r: bool)
        ensures
            r == self@.contains(*ip),
    {
        let mut i: usize = 0;
        while i < self.items.len()
            invariant
                i <= self.items@.len(),
                forall|j: int| 0 <= j < i ==> self.items@[j] != *ip,
            decreases self.items@.len() - i,
        {
            if self.items[i] == *ip {
                assert(self.items@.contains(*ip));
                return true;
            }
            i += 1;
        }
        false
    }

    /// Adds `ip`, if it is not a member yet.
    pub fn insert(&mut self, ip: IpAddr)
        requires
            old(self).wf(),
        ensures
            final(self).wf(),
            final(self)@ == old(self)@.insert(ip),
            final(self).members() == if old(self)@.contains(ip) {
                old(self).members()
            } else {
                old(self).members().push(ip)
            },
    {
        if self.contains(&ip) {
            assert(old(self)@.insert(ip) =~= old(self)@);
        } else {
            self.items.push(ip);
            proof {
                crate::seqs::lemma_push_members(old(self).items@, ip);
            }
        }
    }
}

/// The addresses and users that are shut out.
pub struct BlockedConfig {
    pub ips: IpSet,
    pub users: StrSet,
}

impl BlockedConfig {
    pub open spec fn wf(&self) -> bool {
        self.ips.wf() && self.users.wf()
    }
}

/// A request on its way to a backend. `R` is what the answer goes back through.
pub struct Task<R> {
    pub method: Method,
    pub path: String,
    pub headers: HeaderMap<HeaderValue>,
    pub body: Vec<u8>,
    pub responder: R,
    pub resolved_model: Option<String>,
}

/// The shared state. `R` is what answers go back through.
pub struct AppState<R> {
    pub queues: StrMap<VecDeque<Task<R>>>,
    pub processing_counts: StrMap<usize>,
    pub processed_counts: StrMap<usize>,
    pub dropped_counts: StrMap<usize>,
    pub user_ips: StrMap<IpAddr>,
    pub blocked_ips: IpSet,
    pub blocked_users: StrSet,
    pub vip_user: Vec<String>,
    pub global_counter: usize,
    pub backends: Vec<BackendStatus>,
    pub last_backend_idx: usize,
    pub timeout: u64,
    /// User registry loaded from the users file
    pub user_registry: UserRegistry,
    /// Model configuration: real models with backends and aliases
    pub model_config: ModelConfig,
    /// Debug mode: enable verbose logging
    pub debug: bool,
    /// HTTP header to extract real client IP from
    pub ip_header: Option<String>,
    /// Cached /api/tags response with merged models
    pub cached_tags: Option<CachedTags>,
    /// Health check interval in seconds
    pub health_check_interval: u64,
}

/// The URLs of a list of backends.
pub open spec fn urls(backends: Seq<BackendStatus>) -> Seq<Seq<char>> {
    Seq::new(backends.len(), |i: int| backends[i].url@)
}

/// The tasks that wait for `user`, first come first.
pub open spec fn queue_of<R>(queues: Map<Seq<char>, VecDeque<Task<R>>>, user: Seq<char>) -> Seq<
    Task<R>,
> {
    if queues.dom().contains(user) {
        queues[user]@
    } else {
        Seq::empty()
    }
}

/// Whether `b` is set up for its URL as `models` say, with the statuses of `earlier` where it has
/// them.
pub open spec fn set_up(
    b: BackendStatus,
    models: Seq<ParsedModel>,
    earlier: Map<Seq<char>, bool>,
) -> bool {
    &&& b.wf()
    &&& texts(b.configured_models@) == models_on(models, b.url@)
    &&& b.model_status@ == carried_over(models_on(models, b.url@), earlier)
}

/// Whether `b` continues `earlier`: same URL, same counters, same connection.
pub open spec fn continues(b: BackendStatus, earlier: BackendStatus) -> bool {
    &&& b.url == earlier.url
    &&& b.active_requests == earlier.active_requests
    &&& b.processed_count == earlier.processed_count
    &&& b.is_online == earlier.is_online
    &&& b.active_models == earlier.active_models
    &&& b.processed_models == earlier.processed_models
}

/// Whether `backends` are exactly the configured ones, in increasing order of URL, each new and
/// with all its models available.
pub open spec fn fresh_backends(backends: Seq<BackendStatus>, models: Seq<ParsedModel>) -> bool {
    &&& increasing(urls(backends))
    &&& urls(backends).to_set() == backend_urls(models)
    &&& forall|i: int|
        0 <= i < backends.len() ==> {
            &&& (#[trigger] backends[i]).is_new(backends[i].url@)
            &&& set_up(backends[i], models, Map::empty())
        }
}

/// Whether `b` is what a reload with `models` makes of its URL when `before` was there: the
/// earlier backend with new models and the statuses it knew, or a new backend.
pub open spec fn reloaded_from(
    b: BackendStatus,
    before: Seq<BackendStatus>,
    models: Seq<ParsedModel>,
) -> bool {
    if urls(before).contains(b.url@) {
        let earlier = before[urls(before).index_of(b.url@)];
        continues(b, earlier) && set_up(b, models, earlier.model_status@)
    } else {
        b.is_new(b.url@) && set_up(b, models, Map::empty())
    }
}

/// Whether `after` is what a reload with `models` makes of `before`.
pub open spec fn reloaded_backends(
    after: Seq<BackendStatus>,
    before: Seq<BackendStatus>,
    models: Seq<ParsedModel>,
) -> bool {
    &&& increasing(urls(after))
    &&& urls(after).to_set() == backend_urls(models)
    &&& forall|i: int| 0 <= i < after.len() ==> reloaded_from(#[trigger] after[i], before, models)
}

/// Increasing texts are distinct.
pub proof fn lemma_increasing_distinct(s: Seq<Seq<char>>)
    requires
        increasing(s),
    ensures
        s.no_duplicates(),
{
    assert forall|i: int, j: int| 0 <= i < s.len() && 0 <= j < s.len() && i != j implies s[i]
        != s[j] by {
        let before = text_order();
        lemma_text_before_order(s[i], s[j], s[i]);
        if i < j {
            assert(before(s[i], s[j]));
        } else {
            assert(before(s[j], s[i]));
        }
    }
}

/// The configured backends, new and with all their models available.
pub fn build_backends(config: &ModelConfig) -> (r: Vec<BackendStatus>)
    ensures
        fresh_backends(r@, config.models@),
{
    let all = config.get_all_backends();
    let mut r: Vec<BackendStatus> = Vec::new();
    let mut i: usize = 0;
    while i < all.len()
        invariant
            i <= all@.len(),
            increasing(texts(all@)),
            texts(all@).to_set() == backend_urls(config.models@),
            r@.len() == i,
            forall|j: int|
                0 <= j < i ==> {
                    &&& (#[trigger] r@[j]).url@ == texts(all@)[j]
                    &&& r@[j].is_new(r@[j].url@)
                    &&& set_up(r@[j], config.models@, Map::empty())
                },
        decreases all@.len() - i,
    {
        let models = config.get_models_for_backend(all[i].as_str());
        r.push(BackendStatus::with_models(all[i].clone(), models));
        i += 1;
    }
    assert(urls(r@) =~= texts(all@));
    r
}

/// The index of the backend with this URL, or the number of backends.
pub fn backend_position(backends: &Vec<BackendStatus>, url: &str) -> (i: usize)
    ensures
        i <= backends@.len(),
        i < backends@.len() ==> urls(backends@)[i as int] == url@,
        i == backends@.len() ==> !urls(backends@).contains(url@),
{
    let mut i: usize = 0;
    while i < backends.len()
        invariant
            i <= backends@.len(),
            forall|j: int| 0 <= j < i ==> urls(backends@)[j] != url@,
        decreases backends@.len() - i,
    {
        if str_eq(backends[i].url.as_str(), url) {
            return i;
        }
        i += 1;
    }
    i
}

/// What a reload makes of the backends: those no longer configured go, those still configured
/// stay with their counters and the statuses that still apply, and new ones join.
pub fn reload_backends(before: Vec<BackendStatus>, config: &ModelConfig) -> (r: Vec<BackendStatus>)
    requires
        urls(before@).no_duplicates(),
        forall|i: int| 0 <= i < before@.len() ==> (#[trigger] before@[i]).wf(),
    ensures
        reloaded_backends(r@, before@, config.models@),
{
    let ghost start = before@;
    let mut rest = before;
    let all = config.get_all_backends();
    let mut r: Vec<BackendStatus> = Vec::new();
    let mut i: usize = 0;
    proof {
        lemma_increasing_distinct(texts(all@));
    }
    while i < all.len()
        invariant
            i <= all@.len(),
            increasing(texts(all@)),
            texts(all@).no_duplicates(),
            texts(all@).to_set() == backend_urls(config.models@),
            urls(start).no_duplicates(),
            forall|j: int| 0 <= j < start.len() ==> (#[trigger] start[j]).wf(),
            forall|j: int| 0 <= j < rest@.len() ==> start.contains(#[trigger] rest@[j]),
            forall|j: int|
                0 <= j < start.len() && !texts(all@).take(i as int).contains(
                    (#[trigger] start[j]).url@,
                ) ==> rest@.contains(start[j]),
            r@.len() == i,
            forall|j: int|
                0 <= j < i ==> {
                    &&& (#[trigger] r@[j]).url@ == texts(all@)[j]
                    &&& reloaded_from(r@[j], start, config.models@)
                },
        decreases all@.len() - i,
    {
        let ghost u = texts(all@)[i as int];
        let ghost rest_then = rest@;
        let models = config.get_models_for_backend(all[i].as_str());
        let k: usize = backend_position(&rest, all[i].as_str());
        if k < rest.len() {
            let mut b = rest.remove(k);
            let ghost j0 = start.index_of(b);
            proof {
                assert(start.contains(b));
                assert(urls(start)[j0] == u);
                assert(urls(start).index_of(u) == j0);
            }
            let status = carry_over(&models, &b.model_status);
            b.configured_models = models;
            b.model_status = status;
            r.push(b);
            proof {
                assert forall|j: int| 0 <= j < rest@.len() implies start.contains(
                    #[trigger] rest@[j],
                ) by {
                    if j < k {
                        assert(rest@[j] == rest_then[j]);
                    } else {
                        assert(rest@[j] == rest_then[j + 1]);
                    }
                }
                assert forall|j: int|
                    0 <= j < start.len() && !texts(all@).take(i + 1).contains(
                        (#[trigger] start[j]).url@,
                    ) implies rest@.contains(start[j]) by {
                    assert(texts(all@).take(i + 1)[i as int] == u);
                    if texts(all@).take(i as int).contains(start[j].url@) {
                        let q = texts(all@).take(i as int).index_of(start[j].url@);
                        assert(texts(all@).take(i + 1)[q] == start[j].url@);
                    }
                    let q = rest_then.index_of(start[j]);
                    if q < k {
                        assert(rest@[q] == start[j]);
                    } else if q > k {
                        assert(rest@[q - 1] == start[j]);
                    }
                }
            }
        } else {
            proof {
                if urls(start).contains(u) {
                    let j0 = urls(start).index_of(u);
                    assert(start[j0].url@ == u);
                    if texts(all@).take(i as int).contains(u) {
                        let q = texts(all@).take(i as int).index_of(u);
                        assert(texts(all@)[q] == u);
                    }
                    let q = rest@.index_of(start[j0]);
                    assert(urls(rest@)[q] == u);
                }
                assert forall|j: int|
                    0 <= j < start.len() && !texts(all@).take(i + 1).contains(
                        (#[trigger] start[j]).url@,
                    ) implies rest@.contains(start[j]) by {
                    if texts(all@).take(i as int).contains(start[j].url@) {
                        let q = texts(all@).take(i as int).index_of(start[j].url@);
                        assert(texts(all@).take(i + 1)[q] == start[j].url@);
                    }
                }
            }
            r.push(BackendStatus::with_models(all[i].clone(), models));
        }
        i += 1;
    }
    assert(urls(r@) =~= texts(all@));
    r
}

/// What becomes of a request at the door.
pub enum Admission {
    /// No valid token.
    Unauthorized,
    /// The client's address is blocked.
    IpBlocked,
    /// The user is blocked.
    UserBlocked,
    /// The request of this user may go on.
    Admitted(String),
}

/// What becomes of a request at the door, with the user's ID as text.
pub enum Verdict {
    Unauthorized,
    IpBlocked,
    UserBlocked,
    Admitted(Seq<char>),
}

impl View for Admission {
    type V = Verdict;

    open spec fn view(&self) -> Verdict {
        match self {
            Admission::Unauthorized => Verdict::Unauthorized,
            Admission::IpBlocked => Verdict::IpBlocked,
            Admission::UserBlocked => Verdict::UserBlocked,
            Admission::Admitted(user) => Verdict::Admitted(user@),
        }
    }
}

impl Admission {
    /// The HTTP status and the body that answer a refused request.
    pub fn refusal(&self) -> (r: Option<(u16, &'static str)>)
        ensures
            match self {
                Admission::Unauthorized => r matches Some((status, text)) && status == 401 && text@
                    == "Unauthorized"@,
                Admission::IpBlocked => r matches Some((status, text)) && status == 403 && text@
                    == "IP blocked"@,
                Admission::UserBlocked => r matches Some((status, text)) && status == 403 && text@
                    == "User blocked"@,
                Admission::Admitted(_) => r is None,
            },
    {
        match self {
            Admission::Unauthorized => Some((401, "Unauthorized")),
            Admission::IpBlocked => Some((403, "IP blocked")),
            Admission::UserBlocked => Some((403, "User blocked")),
            Admission::Admitted(_) => None,
        }
    }
}

/// The user that the `Authorization` header of a request stands for.
pub open spec fn request_user(registry: UserRegistry, headers: HeaderMap<HeaderValue>) -> Option<
    Seq<char>,
> {
    match bearer(field_text(header_fields(headers), "authorization"@)) {
        Some(token) => user_with_hash(registry@, token_digest(token)),
        None => None,
    }
}

/// The user of a request, if its `Authorization` header holds a bearer token that the registry
/// knows.
pub fn authenticate_request(headers: &HeaderMap<HeaderValue>, registry: &UserRegistry) -> (r:
    Option<String>)
    ensures
        opt_text(r) == request_user(*registry, *headers),
{
    match bearer_token(header_text(headers, "authorization")) {
        Some(token) => match registry.authenticate(token) {
            Some(user) => Some(user.to_owned()),
            None => None,
        },
        None => None,
    }
}

/// Where the address of a client is written: the first of the comma-separated items of the
/// header that `ip_header` names, without the white space around it.
pub open spec fn forwarded_address(
    ip_header: Option<String>,
    headers: HeaderMap<HeaderValue>,
) -> Option<Seq<char>> {
    match ip_header {
        Some(name) => match field_text(header_fields(headers), name@) {
            Some(value) => Some(trimmed(before_char(value, ','))),
            None => None,
        },
        None => None,
    }
}

/// The text in which the header that `ip_header` names gives the client's address.
pub fn client_address_text<'a>(
    headers: &'a HeaderMap<HeaderValue>,
    ip_header: &Option<String>,
) -> (r: Option<&'a str>)
    ensures
        opt_str(r) == forwarded_address(*ip_header, *headers),
{
    match ip_header {
        Some(name) => match header_text(headers, name.as_str()) {
            Some(value) => Some(trim(split_first(value, ','))),
            None => None,
        },
        None => None,
    }
}

/// The client's address: what the header gave, if that could be read, else the address of the
/// connection.
pub fn extract_client_ip(forwarded: Option<IpAddr>, connection: IpAddr) -> (r: IpAddr)
    ensures
        r == match forwarded {
            Some(ip) => ip,
            None => connection,
        },
{
    match forwarded {
        Some(ip) => ip,
        None => connection,
    }
}

/// The path under which backends know `path`.
pub open spec fn normalized_path(path: Seq<char>) -> Seq<char> {
    if path == "/chat/completions"@ {
        "/v1/chat/completions"@
    } else {
        path
    }
}

/// Normalize proxy paths to Ollama's API paths
/// Maps `/chat/completions` → `/v1/chat/completions` for backend compatibility
pub fn normalize_path(path: &str) -> (r: &str)
    ensures
        r@ == normalized_path(path@),
{
    if str_eq(path, "/chat/completions") {
        "/v1/chat/completions"
    } else {
        path
    }
}

/// The headers of a request as they go to the backend.
pub open spec fn forwarded_fields(fields: Map<Seq<char>, Seq<Seq<u8>>>) -> Map<
    Seq<char>,
    Seq<Seq<u8>>,
> {
    fields.remove("host"@).remove("authorization"@).remove("content-length"@)
}

/// The headers of a backend's answer as they go to the client.
pub open spec fn answered_fields(fields: Map<Seq<char>, Seq<Seq<u8>>>) -> Map<
    Seq<char>,
    Seq<Seq<u8>>,
> {
    fields.remove("transfer-encoding"@).remove("content-length"@)
}

/// A text without upper-case letters is its own lower-case form.
pub proof fn lemma_already_lower(s: Seq<char>)
    requires
        forall|i: int| 0 <= i < s.len() ==> !('A' <= #[trigger] s[i] && s[i] <= 'Z'),
    ensures
        ascii_lowered(s) == s,
{
    assert(ascii_lowered(s) =~= s);
}

/// Drops what only concerns the connection between client and proxy.
pub fn forward_headers(headers: HeaderMap<HeaderValue>) -> (r: HeaderMap<HeaderValue>)
    ensures
        header_fields(r) == forwarded_fields(header_fields(headers)),
{
    proof {
        reveal_strlit("host");
        reveal_strlit("authorization");
        reveal_strlit("content-length");
        lemma_already_lower("host"@);
        lemma_already_lower("authorization"@);
        lemma_already_lower("content-length"@);
    }
    let mut r = headers;
    remove_header(&mut r, "host");
    remove_header(&mut r, "authorization");
    remove_header(&mut r, "content-length");
    r
}

/// Drops what only concerns the connection between proxy and backend.
pub fn answer_headers(headers: HeaderMap<HeaderValue>) -> (r: HeaderMap<HeaderValue>)
    ensures
        header_fields(r) == answered_fields(header_fields(headers)),
{
    proof {
        reveal_strlit("transfer-encoding");
        reveal_strlit("content-length");
        lemma_already_lower("transfer-encoding"@);
        lemma_already_lower("content-length"@);
    }
    let mut r = headers;
    remove_header(&mut r, "transfer-encoding");
    remove_header(&mut r, "content-length");
    r
}

impl<R> AppState<R> {
    /// Maps and sets hold nothing twice, and the backends stand in increasing order of URL.
    pub open spec fn wf(&self) -> bool {
        &&& self.queues.wf()
        &&& self.processing_counts.wf()
        &&& self.processed_counts.wf()
        &&& self.dropped_counts.wf()
        &&& self.user_ips.wf()
        &&& self.blocked_ips.wf()
        &&& self.blocked_users.wf()
        &&& increasing(urls(self.backends@))
        &&& forall|i: int| 0 <= i < self.backends@.len() ==> (#[trigger] self.backends@[i]).wf()
    }

    /// What becomes of a request with these headers from this address: it needs a valid token,
    /// then an address that is not blocked, then a user who is not blocked.
    pub open spec fn verdict(&self, headers: HeaderMap<HeaderValue>, ip: IpAddr) -> Verdict {
        match request_user(self.user_registry, headers) {
            None => Verdict::Unauthorized,
            Some(user) => if self.blocked_ips@.contains(ip) {
                Verdict::IpBlocked
            } else if self.blocked_users@.contains(user) {
                Verdict::UserBlocked
            } else {
                Verdict::Admitted(user)
            },
        }
    }

    /// The state at startup: nothing queued, nothing counted, and every configured backend new.
    pub fn new(
        parsed: ModelConfig,
        timeout: u64,
        registry: UserRegistry,
        debug: bool,
        ip_header: Option<String>,
        health_check_interval: u64,
        blocked: BlockedConfig,
    ) -> (r: Result<Self, ConfigError>)
        requires
            blocked.wf(),
        ensures
            r is Ok <==> first_index(parsed.models@, lacks_backends()) == parsed.models@.len(),
            r is Err ==> r->Err_0->NoBackends_0@ == parsed.models@[first_index(
                parsed.models@,
                lacks_backends(),
            )].name@,
            r matches Ok(s) ==> {
                &&& s.wf()
                &&& s.queues@ == Map::<Seq<char>, VecDeque<Task<R>>>::empty()
                &&& s.processing_counts@ == Map::<Seq<char>, usize>::empty()
                &&& s.processed_counts@ == Map::<Seq<char>, usize>::empty()
                &&& s.dropped_counts@ == Map::<Seq<char>, usize>::empty()
                &&& s.user_ips@ == Map::<Seq<char>, IpAddr>::empty()
                &&& s.blocked_ips == blocked.ips
                &&& s.blocked_users == blocked.users
                &&& texts(s.vip_user@) == vip_users(registry@)
                &&& s.global_counter == 0
                &&& fresh_backends(s.backends@, parsed.models@)
                &&& s.last_backend_idx == 0
                &&& s.timeout == timeout
                &&& s.user_registry == registry
                &&& s.model_config == parsed
                &&& s.debug == debug
                &&& s.ip_header == ip_header
                &&& s.cached_tags is None
                &&& s.health_check_interval == health_check_interval
            },
    {
        match ModelConfig::load(parsed) {
            Err(e) => Err(e),
            Ok(model_config) => {
                let backends = build_backends(&model_config);
                let vip_user = registry.get_vip_users();
                Ok(
                    AppState {
                        queues: StrMap::new(),
                        processing_counts: StrMap::new(),
                        processed_counts: StrMap::new(),
                        dropped_counts: StrMap::new(),
                        user_ips: StrMap::new(),
                        blocked_ips: blocked.ips,
                        blocked_users: blocked.users,
                        vip_user,
                        global_counter: 0,
                        backends,
                        last_backend_idx: 0,
                        timeout,
                        user_registry: registry,
                        model_config,
                        debug,
                        ip_header,
                        cached_tags: None,
                        health_check_interval,
                    },
                )
            },
        }
    }

    /// Reload model configuration. A configuration that is refused changes nothing.
    pub fn reload_model_config(&mut self, parsed: ModelConfig) -> (r: Result<(), ConfigError>)
        requires
            old(self).wf(),
        ensures
            final(self).wf(),
            r is Ok <==> first_index(parsed.models@, lacks_backends()) == parsed.models@.len(),
            r is Err ==> r->Err_0->NoBackends_0@ == parsed.models@[first_index(
                parsed.models@,
                lacks_backends(),
            )].name@,
            r is Err ==> *final(self) == *old(self),
            r is Ok ==> {
                &&& *final(self) == (AppState {
                    model_config: parsed,
                    backends: final(self).backends,
                    ..*old(self)
                })
                &&& reloaded_backends(final(self).backends@, old(self).backends@, parsed.models@)
            },
    {
        match ModelConfig::load(parsed) {
            Err(e) => Err(e),
            Ok(config) => {
                let mut before: Vec<BackendStatus> = Vec::new();
                std::mem::swap(&mut before, &mut self.backends);
                proof {
                    lemma_increasing_distinct(urls(before@));
                }
                self.backends = reload_backends(before, &config);
                self.model_config = config;
                Ok(())
            },
        }
    }

    /// Replaces the user registry, and the VIP list with the VIP users of the new one.
    pub fn reload_users(&mut self, registry: UserRegistry)
        ensures
            texts(final(self).vip_user@) == vip_users(registry@),
            *final(self) == (AppState {
                user_registry: registry,
                vip_user: final(self).vip_user,
                ..*old(self)
            }),
    {
        self.vip_user = registry.get_vip_users();
        self.user_registry = registry;
    }

    pub fn block_ip(&mut self, ip: IpAddr)
        requires
            old(self).wf(),
        ensures
            final(self).wf(),
            final(self).blocked_ips@ == old(self).blocked_ips@.insert(ip),
            *final(self) == (AppState { blocked_ips: final(self).blocked_ips, ..*old(self) }),
    {
        self.blocked_ips.insert(ip);
    }

    pub fn block_user(&mut self, user_id: String)
        requires
            old(self).wf(),
        ensures
            final(self).wf(),
            final(self).blocked_users@ == old(self).blocked_users@.insert(user_id@),
            *final(self) == (AppState { blocked_users: final(self).blocked_users, ..*old(self) }),
    {
        self.blocked_users.insert(user_id);
    }

    pub fn is_ip_blocked(&self, ip: &IpAddr) -> (r: bool)
        ensures
            r == self.blocked_ips@.contains(*ip),
    {
        self.blocked_ips.contains(ip)
    }

    pub fn is_user_blocked(&self, user_id: &str) -> (r: bool)
        ensures
            r == self.blocked_users@.contains(user_id@),
    {
        self.blocked_users.contains(user_id)
    }

    /// What becomes of a request with these headers from this address.
    pub fn admission(&self, headers: &HeaderMap<HeaderValue>, ip: IpAddr) -> (r: Admission)
        ensures
            r@ == self.verdict(*headers, ip),
    {
        match authenticate_request(headers, &self.user_registry) {
            None => Admission::Unauthorized,
            Some(user) => if self.is_ip_blocked(&ip) {
                Admission::IpBlocked
            } else if self.is_user_blocked(user.as_str()) {
                Admission::UserBlocked
            } else {
                Admission::Admitted(user)
            },
        }
    }

    /// Queues an admitted request behind the user's earlier ones and notes the user's address.
    pub fn enqueue(
        &mut self,
        user_id: &str,
        ip: IpAddr,
        method: Method,
        path: &str,
        headers: HeaderMap<HeaderValue>,
        body: Vec<u8>,
        responder: R,
    )
        requires
            old(self).wf(),
        ensures
            final(self).wf(),
            final(self).user_ips@ == old(self).user_ips@.insert(user_id@, ip),
            final(self).queues@.dom() == old(self).queues@.dom().insert(user_id@),
            final(self).queues@.remove(user_id@) == old(self).queues@.remove(user_id@),
            ({
                let before = queue_of(old(self).queues@, user_id@);
                let after = queue_of(final(self).queues@, user_id@);
                &&& after.len() == before.len() + 1
                &&& after.drop_last() == before
                &&& after.last().method == method
                &&& after.last().path@ == normalized_path(path@)
                &&& header_fields(after.last().headers) == forwarded_fields(header_fields(headers))
                &&& after.last().body == body
                &&& after.last().responder == responder
                &&& after.last().resolved_model is None
            }),
            *final(self) == (AppState {
                user_ips: final(self).user_ips,
                queues: final(self).queues,
                ..*old(self)
            }),
    {
        self.user_ips.insert(user_id.to_owned(), ip);
        let task = Task {
            method,
            path: normalize_path(path).to_owned(),
            headers: forward_headers(headers),
            body,
            responder,
            resolved_model: None,
        };
        let ghost before = queue_of(self.queues@, user_id@);
        let i: usize = self.queues.position(user_id);
        if i < self.queues.len() {
            self.queues.value_mut(i).push_back(task);
        } else {
            let mut q: VecDeque<Task<R>> = VecDeque::new();
            q.push_back(task);
            self.queues.insert(user_id.to_owned(), q);
        }
        proof {
            let after = queue_of(self.queues@, user_id@);
            assert(after =~= before.push(task));
            assert(after.drop_last() =~= before);
            assert(self.queues@.remove(user_id@) =~= old(self).queues@.remove(user_id@));
            assert(self.queues@.dom() =~= old(self).queues@.dom().insert(user_id@));
        }
    }
}

/// Whoever is blocked stays out: no request of a blocked user or from a blocked address is
/// admitted in any state in which everything blocked before is still blocked.
pub proof fn law_blocked_stay_out<R>(
    before: AppState<R>,
    after: AppState<R>,
    headers: HeaderMap<HeaderValue>,
    ip: IpAddr,
)
    requires
        before.blocked_ips@.subset_of(after.blocked_ips@),
        before.blocked_users@.subset_of(after.blocked_users@),
    ensures
        before.blocked_ips@.contains(ip) ==> !(after.verdict(headers, ip) is Admitted),
        after.verdict(headers, ip) matches Verdict::Admitted(user)
            ==> !before.blocked_users@.contains(user),
{
}

/// Without users nobody is admitted.
pub proof fn law_no_users_no_admission<R>(
    state: AppState<R>,
    headers: HeaderMap<HeaderValue>,
    ip: IpAddr,
)
    requires
        state.user_registry@ == Seq::<crate::auth::Credential>::empty(),
    ensures
        state.verdict(headers, ip) is Unauthorized,
{
    match bearer(field_text(header_fields(headers), "authorization"@)) {
        Some(token) => {
            crate::auth::law_empty_registry_rejects(token_digest(token));
        },
        None => {},
    }
}

/// The headers that go to the backend hold neither the client's token nor what concerns only the
/// client's connection; all others are there unchanged.
pub proof fn law_forwarded_headers(fields: Map<Seq<char>, Seq<Seq<u8>>>, name: Seq<char>)
    ensures
        ({
            let dropped = name == "host"@ || name == "authorization"@ || name
                == "content-length"@;
            let forwarded = forwarded_fields(fields);
            &&& dropped ==> !forwarded.dom().contains(name)
            &&& !dropped ==> (forwarded.dom().contains(name) <==> fields.dom().contains(name))
            &&& forwarded.dom().contains(name) ==> forwarded[name] == fields[name]
        }),
{
}

/// Normalizing a path twice is the same as normalizing it once.
pub proof fn law_normalized_path_idempotent(path: Seq<char>)
    ensures
        normalized_path(normalized_path(path)) == normalized_path(path),
{
    reveal_strlit("/chat/completions");
    reveal_strlit("/v1/chat/completions");
}

/// Starting up is a reload of nothing.
pub proof fn law_startup_is_reload(backends: Seq<BackendStatus>, models: Seq<ParsedModel>)
    ensures
        fresh_backends(backends, models) <==> reloaded_backends(backends, Seq::empty(), models),
{
    assert(urls(Seq::<BackendStatus>::empty()) =~= Seq::<Seq<char>>::empty());
    if reloaded_backends(backends, Seq::empty(), models) {
        assert forall|i: int| 0 <= i < backends.len() implies {
            &&& (#[trigger] backends[i]).is_new(backends[i].url@)
            &&& set_up(backends[i], models, Map::empty())
        } by {
            assert(reloaded_from(backends[i], Seq::empty(), models));
        }
    }
}

/// Two increasing lists of the same texts are the same list.
proof fn lemma_one_increasing(a: Seq<Seq<char>>, b: Seq<Seq<char>>)
    requires
        increasing(a),
        increasing(b),
        a.to_set() == b.to_set(),
    ensures
        a == b,
{
    let before = text_order();
    assert forall|x: Seq<char>, y: Seq<char>| !(#[trigger] before(x, y) && before(y, x)) by {
        lemma_text_before_order(x, y, x);
    }
    lemma_one_order(a, b, before);
}

/// Reloading the same configuration again changes nothing: the backends stay, each with its
/// counters, its connection, its models and their statuses.
pub proof fn law_reload_twice(
    start: Seq<BackendStatus>,
    once: Seq<BackendStatus>,
    twice: Seq<BackendStatus>,
    models: Seq<ParsedModel>,
)
    requires
        reloaded_backends(once, start, models),
        reloaded_backends(twice, once, models),
    ensures
        urls(twice) == urls(once),
        forall|i: int|
            0 <= i < twice.len() ==> {
                &&& continues(#[trigger] twice[i], once[i])
                &&& texts(twice[i].configured_models@) == texts(once[i].configured_models@)
                &&& twice[i].model_status@ == once[i].model_status@
            },
{
    lemma_one_increasing(urls(twice), urls(once));
    lemma_increasing_distinct(urls(once));
    assert forall|i: int| 0 <= i < twice.len() implies {
        &&& continues(#[trigger] twice[i], once[i])
        &&& texts(twice[i].configured_models@) == texts(once[i].configured_models@)
        &&& twice[i].model_status@ == once[i].model_status@
    } by {
        let u = urls(once)[i];
        assert(urls(twice)[i] == u);
        assert(urls(once).contains(u));
        assert(urls(once).index_of(u) == i);
        assert(reloaded_from(twice[i], once, models));
        assert(reloaded_from(once[i], start, models));
        assert(twice[i].model_status@ =~= once[i].model_status@);
    }
}

/// A reload keeps the counters of every backend that is still configured, and drops every backend
/// that is not.
pub proof fn law_reload_keeps_counters(
    before: Seq<BackendStatus>,
    after: Seq<BackendStatus>,
    models: Seq<ParsedModel>,
    i: int,
)
    requires
        increasing(urls(before)),
        reloaded_backends(after, before, models),
        0 <= i < before.len(),
    ensures
        backend_urls(models).contains(before[i].url@) <==> exists|j: int|
            0 <= j < after.len() && continues(#[trigger] after[j], before[i]),
{
    lemma_increasing_distinct(urls(before));
    let u = before[i].url@;
    assert(urls(before)[i] == u);
    assert(urls(before).index_of(u) == i);
    if backend_urls(models).contains(u) {
        assert(urls(after).to_set().contains(u));
        let j = urls(after).index_of(u);
        assert(reloaded_from(after[j], before, models));
        assert(continues(after[j], before[i]));
    }
    if exists|j: int| 0 <= j < after.len() && continues(#[trigger] after[j], before[i]) {
        let j = choose|j: int| 0 <= j < after.len() && continues(#[trigger] after[j], before[i]);
        assert(urls(after)[j] == u);
        assert(urls(after).to_set().contains(u));
    }
}

} // verus!
