use all_llama_proxy::appstate::{
    answer_headers, client_address_text, extract_client_ip, forward_headers, normalize_path, Admission,
    AppState, BlockedConfig, IpAddr, IpSet,
};
use all_llama_proxy::auth::{UserEntry, UserRegistry};
use all_llama_proxy::backend::BackendStatus;
use all_llama_proxy::digest::digest_of;
use all_llama_proxy::models::{ConfigError, ModelConfig, ParsedModel};
use all_llama_proxy::strmap::StrSet;
use axum::http::{HeaderMap, HeaderValue, Method};

fn model(name: &str, backends: &[&str], aliases: &[&str]) -> ParsedModel {
    ParsedModel {
        name: name.to_string(),
        public_name: None,
        backends: backends.iter().map(|s| s.to_string()).collect(),
        aliases: aliases.iter().map(|s| s.to_string()).collect(),
        max_concurrent_requests: 1,
        keep_alive: true,
    }
}

fn nothing_blocked() -> BlockedConfig {
    BlockedConfig { ips: IpSet::new(), users: StrSet::new() }
}

fn registry() -> UserRegistry {
    UserRegistry::load(Some(vec![
        UserEntry { token_hash: digest_of("a-token"), user_id: "alice".to_string(), vip: false },
        UserEntry { token_hash: digest_of("b-token"), user_id: "bob".to_string(), vip: true },
    ]))
}

fn state(models: Vec<ParsedModel>) -> AppState<u8> {
    match AppState::new(ModelConfig { models }, 300, registry(), false, None, 10, nothing_blocked()) {
        Ok(s) => s,
        Err(_) => panic!("refused"),
    }
}

fn bearer(token: &str) -> HeaderMap<HeaderValue> {
    let mut h = HeaderMap::new();
    h.insert("Authorization", HeaderValue::from_str(&format!("Bearer {}", token)).unwrap());
    h
}

#[test]
fn startup_lists_backends_in_order() {
    let s = state(vec![
        model("b:1", &["http://two", "http://one"], &[]),
        model("a", &["http://two"], &[]),
    ]);
    assert_eq!(s.backends.len(), 2);
    assert_eq!(s.backends[0].url, "http://one");
    assert_eq!(s.backends[1].url, "http://two");
    assert_eq!(s.backends[1].configured_models, vec!["b:1".to_string(), "a".to_string()]);
    assert_eq!(s.backends[1].model_status.get("a"), Some(&true));
    assert!(s.backends[0].is_online);
    assert_eq!(s.vip_user, vec!["bob".to_string()]);
    assert_eq!(s.queues.len(), 0);
}

#[test]
fn model_without_backends_is_refused() {
    let r: Result<AppState<u8>, ConfigError> = AppState::new(
        ModelConfig { models: vec![model("ok", &["http://one"], &[]), model("bad", &[], &[])] },
        300,
        UserRegistry::empty(),
        false,
        None,
        10,
        nothing_blocked(),
    );
    match r {
        Ok(_) => panic!("accepted"),
        Err(e) => assert_eq!(e.message(), "Model 'bad' has no backends configured"),
    }
}

#[test]
fn refused_reload_changes_nothing() {
    let mut s = state(vec![model("a", &["http://one"], &[])]);
    assert!(s.reload_model_config(ModelConfig { models: vec![model("x", &[], &[])] }).is_err());
    assert_eq!(s.backends.len(), 1);
    assert_eq!(s.model_config.models[0].name, "a");
}

#[test]
fn reload_keeps_counters_and_statuses() {
    let mut s = state(vec![
        model("a", &["http://one", "http://two"], &[]),
        model("b", &["http://one"], &[]),
    ]);
    s.backends[0].processed_count = 7;
    s.backends[0].is_online = false;
    s.backends[0].model_status.insert("a".to_string(), false);
    let next = ModelConfig {
        models: vec![model("a", &["http://one", "http://zero"], &[]), model("c", &["http://one"], &[])],
    };
    assert!(s.reload_model_config(next).is_ok());
    assert_eq!(s.backends.len(), 2);
    assert_eq!(s.backends[0].url, "http://one");
    assert_eq!(s.backends[0].processed_count, 7);
    assert!(!s.backends[0].is_online);
    assert_eq!(s.backends[0].model_status.get("a"), Some(&false));
    assert_eq!(s.backends[0].model_status.get("b"), None);
    assert_eq!(s.backends[0].model_status.get("c"), Some(&true));
    assert_eq!(s.backends[1].url, "http://zero");
    assert!(s.backends[1].is_online);
}

#[test]
fn reload_of_the_same_configuration_changes_nothing() {
    let config = || ModelConfig { models: vec![model("a", &["http://one"], &[])] };
    let mut s = state(config().models);
    s.backends[0].active_requests = 3;
    s.backends[0].model_status.insert("a".to_string(), false);
    assert!(s.reload_model_config(config()).is_ok());
    assert!(s.reload_model_config(config()).is_ok());
    assert_eq!(s.backends.len(), 1);
    assert_eq!(s.backends[0].active_requests, 3);
    assert_eq!(s.backends[0].model_status.get("a"), Some(&false));
}

#[test]
fn reloaded_users_bring_their_vips() {
    let mut s = state(vec![]);
    s.reload_users(UserRegistry::load(Some(vec![UserEntry {
        token_hash: digest_of("c-token"),
        user_id: "carol".to_string(),
        vip: true,
    }])));
    assert_eq!(s.vip_user, vec!["carol".to_string()]);
    assert!(s.user_registry.authenticate("a-token").is_none());
    assert_eq!(s.user_registry.authenticate("c-token"), Some("carol"));
}

#[test]
fn admission_asks_for_a_bearer_token() {
    let s = state(vec![]);
    let ip = IpAddr::V4(1);
    let none: HeaderMap<HeaderValue> = HeaderMap::new();
    assert_eq!(s.admission(&none, ip).refusal(), Some((401, "Unauthorized")));
    assert_eq!(s.admission(&bearer("wrong"), ip).refusal(), Some((401, "Unauthorized")));
    let mut basic = HeaderMap::new();
    basic.insert("Authorization", HeaderValue::from_static("Basic a-token"));
    assert_eq!(s.admission(&basic, ip).refusal(), Some((401, "Unauthorized")));
    match s.admission(&bearer("a-token"), ip) {
        Admission::Admitted(user) => assert_eq!(user, "alice"),
        _ => panic!("refused"),
    }
}

#[test]
fn header_beyond_visible_ascii_is_no_token() {
    let s = state(vec![]);
    let mut h = HeaderMap::new();
    h.insert("Authorization", HeaderValue::from_bytes(b"Bearer a-token\xe9").unwrap());
    assert_eq!(s.admission(&h, IpAddr::V4(1)).refusal(), Some((401, "Unauthorized")));
}

#[test]
fn blocked_addresses_and_users_stay_out() {
    let mut s = state(vec![]);
    s.block_ip(IpAddr::V4(7));
    s.block_user("bob".to_string());
    assert!(s.is_ip_blocked(&IpAddr::V4(7)));
    assert!(!s.is_ip_blocked(&IpAddr::V6(7)));
    assert!(s.is_user_blocked("bob"));
    assert!(!s.is_user_blocked("alice"));
    assert_eq!(s.admission(&bearer("a-token"), IpAddr::V4(7)).refusal(), Some((403, "IP blocked")));
    assert_eq!(s.admission(&bearer("b-token"), IpAddr::V4(8)).refusal(), Some((403, "User blocked")));
    assert!(s.admission(&bearer("a-token"), IpAddr::V4(8)).refusal().is_none());
}

#[test]
fn addresses_are_kept_once_and_in_order() {
    let mut ips = IpSet::new();
    for ip in [IpAddr::V4(2), IpAddr::V4(1), IpAddr::V4(2)] {
        ips.insert(ip);
    }
    assert_eq!(ips.len(), 2);
    assert_eq!((ips.at(0), ips.at(1)), (IpAddr::V4(2), IpAddr::V4(1)));
}

#[test]
fn queued_request_is_ready_for_a_backend() {
    let mut s = state(vec![]);
    let mut h = bearer("a-token");
    h.insert("Host", HeaderValue::from_static("proxy"));
    h.insert("Content-Length", HeaderValue::from_static("2"));
    h.insert("X-Other", HeaderValue::from_static("kept"));
    s.enqueue("alice", IpAddr::V4(9), Method::POST, "/chat/completions", h, vec![1, 2], 5);
    let q = s.queues.get("alice").unwrap();
    assert_eq!(q.len(), 1);
    assert_eq!(q[0].path, "/v1/chat/completions");
    assert_eq!(q[0].method, Method::POST);
    assert_eq!(q[0].body, vec![1, 2]);
    assert_eq!(q[0].responder, 5);
    assert!(q[0].resolved_model.is_none());
    assert_eq!(q[0].headers.len(), 1);
    assert_eq!(q[0].headers.get("x-other").unwrap(), "kept");
    assert_eq!(s.user_ips.get("alice"), Some(&IpAddr::V4(9)));
}

#[test]
fn forwarded_headers_lose_all_values_of_a_name() {
    let mut h = HeaderMap::new();
    h.append("authorization", HeaderValue::from_static("one"));
    h.append("authorization", HeaderValue::from_static("two"));
    h.append("accept", HeaderValue::from_static("a"));
    h.append("accept", HeaderValue::from_static("b"));
    let f = forward_headers(h);
    assert!(f.get("authorization").is_none());
    assert_eq!(f.get_all("accept").iter().count(), 2);
}

#[test]
fn answered_headers_lose_framing() {
    let mut h = HeaderMap::new();
    h.insert("transfer-encoding", HeaderValue::from_static("chunked"));
    h.insert("content-length", HeaderValue::from_static("3"));
    h.insert("content-type", HeaderValue::from_static("text/plain"));
    let a = answer_headers(h);
    assert_eq!(a.len(), 1);
    assert_eq!(a.get("content-type").unwrap(), "text/plain");
}

#[test]
fn client_address_comes_from_the_named_header() {
    let mut h = HeaderMap::new();
    h.insert("X-Forwarded-For", HeaderValue::from_static(" 10.0.0.1 , 10.0.0.2"));
    let name = Some("x-forwarded-for".to_string());
    assert_eq!(client_address_text(&h, &name), Some("10.0.0.1"));
    assert_eq!(client_address_text(&h, &None), None);
    assert_eq!(client_address_text(&h, &Some("x-real-ip".to_string())), None);
    assert_eq!(extract_client_ip(Some(IpAddr::V4(1)), IpAddr::V4(2)), IpAddr::V4(1));
    assert_eq!(extract_client_ip(None, IpAddr::V4(2)), IpAddr::V4(2));
}

#[test]
fn paths_are_normalized() {
    assert_eq!(normalize_path("/chat/completions"), "/v1/chat/completions");
    assert_eq!(normalize_path("/v1/chat/completions"), "/v1/chat/completions");
    assert_eq!(normalize_path("/chat/completions/"), "/chat/completions/");
}

#[test]
fn names_resolve_alias_first() {
    let config = ModelConfig {
        models: vec![model("a", &["u"], &["b"]), model("b", &["u"], &["c"]), model("d", &["v"], &["c"])],
    };
    assert_eq!(config.resolve_alias("b"), Some("a".to_string()));
    assert_eq!(config.resolve_alias("c"), Some("b".to_string()));
    assert_eq!(config.resolve_alias("d"), Some("d".to_string()));
    assert_eq!(config.resolve_alias("e"), None);
    assert_eq!(config.get_model("b").unwrap().name, "a");
    assert_eq!(config.get_model("c").unwrap().name, "b");
    assert!(config.get_model("e").is_none());
    assert_eq!(config.get_all_backends(), vec!["u".to_string(), "v".to_string()]);
    assert_eq!(config.get_models_for_backend("u"), vec!["a".to_string(), "b".to_string()]);
    assert!(config.get_models_for_backend("w").is_empty());
    assert!(all_llama_proxy::models::default_keep_alive());
    assert_eq!(all_llama_proxy::models::default_max_concurrent_requests(), 1);
}

#[test]
fn backend_serves_by_base_name() {
    let mut b = BackendStatus::new("http://one".to_string());
    assert!(!b.can_serve_model("llama"));
    b.configured_models = vec!["llama:7b".to_string()];
    assert!(b.can_serve_model("llama"));
    assert!(b.can_serve_model("llama:latest"));
    assert!(!b.can_serve_model("llama2"));
    b.model_status.insert("llama:7b".to_string(), false);
    assert!(!b.can_serve_model("llama:7b"));
    assert!(!b.can_serve_model("llama:latest"));
    b.model_status.insert("llama:latest".to_string(), true);
    assert!(b.can_serve_model("llama:latest"));
    assert!(!b.can_serve_model("llama:13b"));
}
