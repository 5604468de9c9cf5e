use all_llama_proxy::appstate::{AppState, BlockedConfig, IpSet};
use all_llama_proxy::auth::{UserEntry, UserRegistry};
use all_llama_proxy::clock::{created_from, parse_created_timestamp};
use all_llama_proxy::digest::digest_of;
use all_llama_proxy::health::{keep_alive, keep_alive_outcome, CheckResult, KeepAliveOutcome};
use all_llama_proxy::models::{ModelConfig, ParsedModel};
use all_llama_proxy::strmap::StrSet;
use all_llama_proxy::tags::{
    build_models_list, build_tags_cache, display_name_of, model_not_found, models_to_fetch,
    BackendModelInfo, CachedTags, ListedModel, ModelDetails, ModelsResponse, PublicModelInfo,
};
use axum::http::{HeaderMap, HeaderValue};

fn model(name: &str, public_name: Option<&str>, backends: &[&str], aliases: &[&str]) -> ParsedModel {
    ParsedModel {
        name: name.to_string(),
        public_name: public_name.map(|s| s.to_string()),
        backends: backends.iter().map(|s| s.to_string()).collect(),
        aliases: aliases.iter().map(|s| s.to_string()).collect(),
        max_concurrent_requests: 1,
        keep_alive: true,
    }
}

fn state(models: Vec<ParsedModel>) -> AppState<u8> {
    let blocked = BlockedConfig { ips: IpSet::new(), users: StrSet::new() };
    let registry = UserRegistry::load(Some(vec![UserEntry {
        token_hash: digest_of("t"),
        user_id: "u".to_string(),
        vip: false,
    }]));
    match AppState::new(ModelConfig { models }, 300, registry, false, None, 10, blocked) {
        Ok(s) => s,
        Err(_) => panic!("refused"),
    }
}

fn details() -> ModelDetails {
    ModelDetails {
        parent_model: String::new(),
        format: "gguf".to_string(),
        family: "llama".to_string(),
        families: vec![],
        parameter_size: "8B".to_string(),
        quantization_level: "Q4".to_string(),
    }
}

fn listed(name: &str) -> ListedModel {
    ListedModel {
        name: Some(name.to_string()),
        info: Some(BackendModelInfo {
            name: name.to_string(),
            modified_at: "2024-01-15T10:30:00Z".to_string(),
            size: 42,
            digest: format!("d-{}", name),
            details: details(),
        }),
    }
}

fn cached(name: &str, modified_at: &str) -> PublicModelInfo {
    PublicModelInfo {
        name: name.to_string(),
        model: name.to_string(),
        modified_at: modified_at.to_string(),
        size: 1,
        digest: String::new(),
        details: details(),
    }
}

#[test]
fn listings_are_merged_under_public_names() {
    let config = ModelConfig {
        models: vec![
            model("llama", Some("Llama"), &["http://a", "http://b"], &[]),
            model("none", None, &[], &[]),
            model("gone", None, &["http://b"], &[]),
            model("odd", None, &["http://c"], &[]),
            model("qwen", None, &["http://d"], &[]),
            model("down", None, &["http://e"], &[]),
        ],
    };
    let plan = models_to_fetch(&config);
    let urls: Vec<&str> = plan.iter().map(|f| f.url.as_str()).collect();
    assert_eq!(
        urls,
        vec![
            "http://a/api/tags",
            "http://b/api/tags",
            "http://c/api/tags",
            "http://d/api/tags",
            "http://e/api/tags"
        ]
    );
    let odd = ListedModel { name: Some("odd:1".to_string()), info: None };
    let replies = vec![
        Some(ModelsResponse {
            models: vec![
                ListedModel { name: None, info: None },
                listed("other"),
                listed("llama:8b"),
                listed("llama"),
            ],
        }),
        Some(ModelsResponse { models: vec![listed("other")] }),
        Some(ModelsResponse { models: vec![odd, listed("odd")] }),
        Some(ModelsResponse { models: vec![listed("qwen:1")] }),
        None,
    ];
    let tags = build_tags_cache(&plan, replies);
    assert_eq!(tags.models.len(), 2);
    assert_eq!(tags.models[0].name, "Llama");
    assert_eq!(tags.models[0].model, "Llama");
    assert_eq!(tags.models[0].digest, "d-llama:8b");
    assert_eq!(tags.models[0].size, 42);
    assert_eq!(tags.models[1].name, "qwen");
    assert_eq!(tags.models[1].digest, "d-qwen:1");
}

#[test]
fn cache_is_replaced() {
    let mut s = state(vec![model("m", None, &["http://a"], &[])]);
    assert!(s.cached_tags.is_none());
    let plan = models_to_fetch(&s.model_config);
    s.refresh_tags(&plan, vec![Some(ModelsResponse { models: vec![listed("m")] })]);
    assert_eq!(s.cached_tags.as_ref().unwrap().models.len(), 1);
    s.refresh_tags(&plan, vec![None]);
    assert_eq!(s.cached_tags.as_ref().unwrap().models.len(), 0);
}

#[test]
fn timestamps_are_read() {
    assert_eq!(parse_created_timestamp("2024-01-15T10:30:00Z"), 1705314600);
    assert_eq!(parse_created_timestamp("2024-01-15T10:30:00.5+02:00"), 1705307400);
    assert_eq!(parse_created_timestamp("2024-01-15 10:30:00.000000000+00"), 1705314600);
    assert!(parse_created_timestamp("yesterday") > 1705314600);
    assert_eq!(created_from(Some(1), Some(2), 3), 1);
    assert_eq!(created_from(None, Some(2), 3), 2);
    assert_eq!(created_from(None, None, 3), 3);
}

#[test]
fn models_list_shows_the_cache() {
    let none = build_models_list(&None);
    assert_eq!(none.object, "list");
    assert!(none.data.is_empty());
    let tags = CachedTags { models: vec![cached("a", "2024-01-15T10:30:00Z"), cached("b", "x")] };
    let list = build_models_list(&Some(tags));
    assert_eq!(list.data.len(), 2);
    assert_eq!(list.data[0].id, "a");
    assert_eq!(list.data[0].object, "model");
    assert_eq!(list.data[0].created, 1705314600);
    assert_eq!(list.data[0].owned_by, "all-llama-proxy");
    assert_eq!(list.data[1].id, "b");
}

#[test]
fn models_are_found_by_any_name() {
    let mut s = state(vec![
        model("llama3:8b", Some("Llama"), &["http://a"], &["llama"]),
        model("plain", None, &["http://a"], &["p"]),
    ]);
    assert!(s.find_model_by_name("plain").is_none());
    s.cached_tags = Some(CachedTags {
        models: vec![
            cached("Llama", "2024-01-15T10:30:00Z"),
            cached("plain", ""),
            cached("x:latest", ""),
        ],
    });
    let id = |name: &str| s.find_model_by_name(name).map(|m| m.id);
    assert_eq!(id("Llama"), Some("Llama".to_string()));
    assert_eq!(id("llama3:8b"), Some("Llama".to_string()));
    assert_eq!(id("llama"), Some("Llama".to_string()));
    assert_eq!(id("p"), Some("plain".to_string()));
    assert_eq!(id("x"), Some("x:latest".to_string()));
    assert_eq!(id("y"), None);
    let (status, body) = model_not_found("y");
    assert_eq!(status, 404);
    let v: serde_json::Value = serde_json::from_str(&body).unwrap();
    assert_eq!(v["error"]["code"], "model_not_found");
    assert_eq!(v["error"]["message"], "Model 'y' not found");
}

#[test]
fn display_names_come_from_the_last_entry() {
    let config = ModelConfig {
        models: vec![model("a", Some("First"), &["u"], &[]), model("a", Some("Last"), &["u"], &[])],
    };
    assert_eq!(display_name_of(&config, "a"), "Last");
    assert_eq!(display_name_of(&config, "b"), "b");
}

#[test]
fn checks_go_to_every_backend() {
    let s = state(vec![model("a", None, &["http://b", "http://a"], &[])]);
    assert_eq!(s.checks(), vec!["http://a/api/tags".to_string(), "http://b/api/tags".to_string()]);
}

#[test]
fn unreachable_backend_goes_offline() {
    let mut s = state(vec![model("a:1", None, &["http://a"], &[])]);
    s.backends[0].model_status.insert("stale".to_string(), true);
    assert!(s.record_health(0, &CheckResult::Unreachable).is_empty());
    assert!(!s.backends[0].is_online);
    assert_eq!(s.backends[0].model_status.get("a:1"), Some(&false));
    assert_eq!(s.backends[0].model_status.get("stale"), Some(&true));
    assert!(!s.backends[0].can_serve_model("a:1"));
}

#[test]
fn answering_backend_comes_back_with_what_it_lists() {
    let mut s = state(vec![
        model("a:1", None, &["http://a"], &[]),
        model("b:1", None, &["http://a"], &[]),
    ]);
    s.model_config.models[1].keep_alive = false;
    s.record_health(0, &CheckResult::Unreachable);
    let half = ListedModel { name: Some("b:1".to_string()), info: None };
    let answer = CheckResult::Answered(Some(ModelsResponse { models: vec![listed("a:7"), half] }));
    let due = s.record_health(0, &answer);
    assert!(s.backends[0].is_online);
    assert_eq!(s.backends[0].model_status.get("a:1"), Some(&true));
    assert_eq!(s.backends[0].model_status.get("b:1"), Some(&false));
    assert_eq!(due.len(), 1);
    assert_eq!(due[0].model, "a:1");
    assert_eq!(due[0].url, "http://a/api/generate");
    assert!(s.record_health(0, &answer).is_empty());
    s.record_health(0, &CheckResult::Answered(None));
    assert!(s.backends[0].is_online);
    assert_eq!(s.backends[0].model_status.get("a:1"), Some(&false));
}

#[test]
fn keep_alive_goes_to_online_backends() {
    let mut s = state(vec![
        model("a", None, &["http://a", "http://b", "http://c"], &[]),
        model("b", None, &["http://c"], &[]),
    ]);
    s.backends[1].is_online = false;
    let all = s.all_keep_alives();
    let sent: Vec<(&str, &str)> = all.iter().map(|k| (k.model.as_str(), k.url.as_str())).collect();
    assert_eq!(
        sent,
        vec![
            ("a", "http://a/api/generate"),
            ("a", "http://c/api/generate"),
            ("b", "http://c/api/generate")
        ]
    );
    let v: serde_json::Value = serde_json::from_str(&keep_alive("http://a", "m").body).unwrap();
    assert_eq!(v["model"], "m");
    assert_eq!(v["keep_alive"], -1);
    assert_eq!(v.as_object().unwrap().len(), 2);
}

#[test]
fn keep_alive_replies_are_told_apart() {
    assert_eq!(keep_alive_outcome(true, "{\"done\":true}"), KeepAliveOutcome::Kept);
    assert_eq!(keep_alive_outcome(true, "{\"done_reason\":\"load\"}"), KeepAliveOutcome::Kept);
    assert_eq!(keep_alive_outcome(true, "{\"done\":false}"), KeepAliveOutcome::Accepted);
    assert_eq!(keep_alive_outcome(false, "{\"done\":true}"), KeepAliveOutcome::Refused);
}

#[test]
fn health_is_up_down_or_degraded() {
    let mut s = state(vec![
        model("a", Some("Shown"), &["http://a", "http://b"], &[]),
        model("b", None, &["http://a"], &[]),
        model("c", None, &["http://b"], &[]),
    ]);
    s.backends[1].model_status.insert("a".to_string(), false);
    s.backends[1].model_status.insert("c".to_string(), false);
    let none: HeaderMap<HeaderValue> = HeaderMap::new();
    assert!(s.health(&none).is_none());
    assert!(matches!(s.health_answer(&none), Err((401, "Unauthorized"))));
    let mut h = HeaderMap::new();
    h.insert("authorization", HeaderValue::from_static("Bearer t"));
    assert!(s.health_answer(&h).is_ok());
    let report = match s.health(&h) {
        Some(r) => r.models,
        None => panic!("refused"),
    };
    assert_eq!(report.len(), 3);
    assert_eq!(report.get("Shown"), Some(&"degraded".to_string()));
    assert_eq!(report.get("b"), Some(&"up".to_string()));
    assert_eq!(report.get("c"), Some(&"down".to_string()));
}
