use all_llama_proxy::appstate::{AppState, BlockedConfig, IpAddr, IpSet};
use all_llama_proxy::auth::UserRegistry;
use all_llama_proxy::backend::BackendStatus;
use all_llama_proxy::delivery::{
    body_part, first_reply, format_duration_short, handle_model_not_found, request_url, DispatchAction,
    DispatchEvent, DispatchPhase, DispatchRun, FirstReply, ResponsePart,
};
use all_llama_proxy::dispatcher::{
    concurrency_limit, extract_and_resolve_model, normalize_model_tag, peek_model_from_body, plan_model, SelectionResult,
};
use all_llama_proxy::models::{ModelConfig, ParsedModel};
use all_llama_proxy::strmap::StrSet;
use axum::http::{HeaderMap, HeaderValue, Method};

fn model(name: &str, backends: &[&str], aliases: &[&str], limit: usize) -> ParsedModel {
    ParsedModel {
        name: name.to_string(),
        public_name: None,
        backends: backends.iter().map(|s| s.to_string()).collect(),
        aliases: aliases.iter().map(|s| s.to_string()).collect(),
        max_concurrent_requests: limit,
        keep_alive: true,
    }
}

fn state(models: Vec<ParsedModel>) -> AppState<u32> {
    let blocked = BlockedConfig { ips: IpSet::new(), users: StrSet::new() };
    match AppState::new(ModelConfig { models }, 300, UserRegistry::empty(), false, None, 10, blocked) {
        Ok(s) => s,
        Err(_) => panic!("refused"),
    }
}

fn queue(s: &mut AppState<u32>, user: &str, path: &str, body: &str, id: u32) {
    let headers: HeaderMap<HeaderValue> = HeaderMap::new();
    s.enqueue(user, IpAddr::V4(1), Method::POST, path, headers, body.as_bytes().to_vec(), id);
}

fn next(s: &mut AppState<u32>, idx: &mut usize) -> SelectionResult<u32> {
    assert!(s.can_count());
    s.select_and_prepare_task(idx)
}

/// User, task and backend of a dispatch.
fn dispatched(r: SelectionResult<u32>) -> (String, u32, usize, Option<String>, String, String) {
    match r {
        SelectionResult::Dispatch(user, task, i, url) => {
            let body = String::from_utf8(task.body).unwrap();
            (user, task.responder, i, task.resolved_model, body, url)
        }
        SelectionResult::ModelNotFound(_, name) => panic!("no model {}", name),
        SelectionResult::Wait => panic!("waits"),
    }
}

#[test]
fn test_worker_doesnt_deadlock() {
    let mut s = state(vec![]);
    s.backends.push(BackendStatus::new("http://localhost:11434".to_string()));
    assert!(s.backends.len() == 1);
    let mut idx = 0;
    assert!(matches!(next(&mut s, &mut idx), SelectionResult::Wait));
}

#[test]
fn alias_is_replaced_and_counted() {
    let mut s = state(vec![model("llama3:8b", &["http://one"], &["llama"], 1)]);
    queue(&mut s, "alice", "/api/chat", "{\"model\":\"llama\",\"x\":[1],\"format\":\"json\"}", 1);
    let mut idx = 0;
    let (user, id, i, counted, body, url) = dispatched(next(&mut s, &mut idx));
    assert_eq!(user, "alice");
    assert_eq!(id, 1);
    assert_eq!(i, 0);
    assert_eq!(counted, Some("llama3:8b".to_string()));
    assert_eq!(url, "http://one");
    let v: serde_json::Value = serde_json::from_str(&body).unwrap();
    assert_eq!(v["model"], "llama3:8b");
    assert_eq!(v["x"][0], 1);
    assert_eq!(v["format"], "json");
    assert_eq!(v.as_object().unwrap().len(), 3);
    assert_eq!(s.global_counter, 1);
    assert_eq!(s.backends[0].active_requests, 1);
    assert_eq!(s.backends[0].active_models.count("llama3:8b"), 1);
    assert_eq!(s.queues.get("alice").unwrap().len(), 0);
}

#[test]
fn real_name_leaves_the_body_alone() {
    let mut s = state(vec![model("llama", &["http://one"], &[], 1)]);
    let text = "{ \"model\" : \"llama\" }";
    queue(&mut s, "alice", "/api/generate", text, 1);
    let mut idx = 0;
    let (_, _, _, counted, body, _) = dispatched(next(&mut s, &mut idx));
    assert_eq!(counted, Some("llama:latest".to_string()));
    assert_eq!(body, text);
}

#[test]
fn other_paths_keep_alias_and_are_not_counted_by_model() {
    let mut s = state(vec![model("llama3", &["http://one"], &["llama"], 1)]);
    queue(&mut s, "alice", "/api/show", "{\"model\":\"llama\"}", 1);
    let mut idx = 0;
    let (_, _, _, counted, body, _) = dispatched(next(&mut s, &mut idx));
    assert_eq!(counted, None);
    assert_eq!(body, "{\"model\":\"llama\"}");
    assert_eq!(s.backends[0].active_models.count("llama3:latest"), 1);
}

#[test]
fn unknown_model_is_answered() {
    let mut s = state(vec![model("llama", &["http://one"], &[], 1)]);
    queue(&mut s, "alice", "/api/chat", "{\"model\":\"gpt\"}", 1);
    queue(&mut s, "alice", "/api/chat", "not json", 2);
    let mut idx = 0;
    match next(&mut s, &mut idx) {
        SelectionResult::ModelNotFound(task, name) => {
            assert_eq!(task.responder, 1);
            assert_eq!(name, "gpt");
        }
        _ => panic!("expected no model"),
    }
    match next(&mut s, &mut idx) {
        SelectionResult::ModelNotFound(task, name) => {
            assert_eq!(task.responder, 2);
            assert_eq!(name, "unknown");
        }
        _ => panic!("expected no model"),
    }
    assert_eq!(s.global_counter, 2);
    let answer = handle_model_not_found("gpt");
    assert_eq!(answer.status, 503);
    assert_eq!(answer.content_type, "application/json");
    assert_eq!(answer.body, "{\"error\":\"Model 'gpt' not available on any backend\"}");
}

#[test]
fn waits_without_losing_the_task() {
    let mut s = state(vec![model("llama:1", &["http://one"], &[], 1)]);
    queue(&mut s, "alice", "/api/chat", "{\"model\":\"llama:1\"}", 1);
    queue(&mut s, "alice", "/api/chat", "{\"model\":\"llama:1\"}", 2);
    let mut idx = 0;
    assert_eq!(dispatched(next(&mut s, &mut idx)).1, 1);
    assert!(matches!(next(&mut s, &mut idx), SelectionResult::Wait));
    assert_eq!(s.queues.get("alice").unwrap().len(), 1);
    assert_eq!(s.global_counter, 1);
    s.backends[0].active_models.insert("llama:1".to_string(), 0);
    assert_eq!(dispatched(next(&mut s, &mut idx)).1, 2);
}

#[test]
fn waits_while_offline_or_unavailable() {
    let mut s = state(vec![model("llama:1", &["http://one"], &[], 1)]);
    queue(&mut s, "alice", "/api/chat", "{\"model\":\"llama:1\"}", 1);
    let mut idx = 0;
    s.backends[0].is_online = false;
    assert!(matches!(next(&mut s, &mut idx), SelectionResult::Wait));
    assert_eq!(idx, 0);
    s.backends[0].is_online = true;
    s.backends[0].model_status.insert("llama:1".to_string(), false);
    assert!(matches!(next(&mut s, &mut idx), SelectionResult::Wait));
    assert_eq!(s.queues.get("alice").unwrap().len(), 1);
}

#[test]
fn requests_spread_then_fill_up_to_the_limit() {
    let mut s = state(vec![model("llama:1", &["http://a", "http://b"], &[], 2)]);
    for id in 0..5 {
        queue(&mut s, "alice", "/api/chat", "{\"model\":\"llama:1\"}", id);
    }
    let mut idx = 0;
    let places: Vec<usize> = (0..4).map(|_| dispatched(next(&mut s, &mut idx)).2).collect();
    assert_eq!(places, vec![0, 1, 0, 1]);
    assert!(matches!(next(&mut s, &mut idx), SelectionResult::Wait));
    assert_eq!(s.backends[0].active_requests, 2);
    assert_eq!(s.backends[1].active_models.count("llama:1"), 2);
}

#[test]
fn untagged_model_has_its_own_limit() {
    let mut s = state(vec![model("llama3", &["http://a"], &["nick"], 2)]);
    s.backends[0].active_requests = 1;
    s.backends[0].active_models.insert("llama3:latest".to_string(), 1);
    queue(&mut s, "u", "/api/chat", "{\"model\":\"llama3\"}", 1);
    queue(&mut s, "u", "/api/chat", "{\"model\":\"nick\"}", 2);
    let mut idx = 0;
    let (user, id, i, _, _, url) = dispatched(next(&mut s, &mut idx));
    assert_eq!((user.as_str(), id, i, url.as_str()), ("u", 1, 0, "http://a"));
    assert_eq!(s.backends[0].active_models.count("llama3:latest"), 2);
    assert!(matches!(next(&mut s, &mut idx), SelectionResult::Wait));
    assert_eq!(s.queues.get("u").unwrap().len(), 1);
}

#[test]
fn limit_is_that_of_the_model_behind_the_alias() {
    let mut s = state(vec![
        model("a", &["http://a"], &["b"], 1),
        model("b", &["http://a"], &["c"], 3),
    ]);
    assert_eq!(concurrency_limit(&s.model_config, &Some("c".to_string())), 3);
    assert_eq!(concurrency_limit(&s.model_config, &Some("b".to_string())), 1);
    assert_eq!(concurrency_limit(&s.model_config, &Some("x".to_string())), 1);
    assert_eq!(concurrency_limit(&s.model_config, &None), 1);
    for id in 0..4 {
        queue(&mut s, "u", "/api/chat", "{\"model\":\"c\"}", id);
    }
    let mut idx = 0;
    for id in 0..3 {
        assert_eq!(dispatched(next(&mut s, &mut idx)).1, id);
    }
    assert!(matches!(next(&mut s, &mut idx), SelectionResult::Wait));
}

#[test]
fn running_request_needs_its_backend_only_at_the_end() {
    let mut s = busy();
    let mut r = DispatchRun::new("alice".to_string(), 0, None);
    r.dispatch_task(&mut s, DispatchEvent::Started { responder_closed: false });
    s.backends.clear();
    assert!(r.can_dispatch(&s, DispatchEvent::Responded));
    r.dispatch_task(&mut s, DispatchEvent::Responded);
    assert!(r.can_dispatch(&s, DispatchEvent::Delivered));
    r.dispatch_task(&mut s, DispatchEvent::Delivered);
    assert!(!r.can_dispatch(&s, DispatchEvent::Ended));
}

#[test]
fn requests_go_to_the_backend_under_their_path() {
    assert_eq!(request_url("http://a:1", "/api/chat"), "http://a:1/api/chat");
}

#[test]
fn users_take_turns_and_vips_go_first() {
    let mut s = state(vec![model("m:1", &["http://a"], &[], 9)]);
    for user in ["carol", "alice", "bob", "dave"] {
        queue(&mut s, user, "/api/chat", "{\"model\":\"m:1\"}", 0);
        queue(&mut s, user, "/api/chat", "{\"model\":\"m:1\"}", 1);
    }
    s.processed_counts.insert("alice".to_string(), 5);
    s.vip_user = vec!["erin".to_string(), "dave".to_string()];
    let mut idx = 0;
    let order: Vec<String> = (0..6).map(|_| dispatched(next(&mut s, &mut idx)).0).collect();
    assert_eq!(order, vec!["dave", "dave", "bob", "carol", "alice", "bob"]);
    assert_eq!(idx, 1);
}

#[test]
fn model_names_get_a_tag() {
    assert_eq!(normalize_model_tag("llama"), "llama:latest");
    assert_eq!(normalize_model_tag("llama:7b"), "llama:7b");
    assert_eq!(normalize_model_tag(&normalize_model_tag("llama")), "llama:latest");
}

#[test]
fn bodies_are_read_for_their_model() {
    assert_eq!(peek_model_from_body(&b"{\"model\":\"m\"}".to_vec()), Some("m".to_string()));
    assert_eq!(peek_model_from_body(&b"{\"model\":1}".to_vec()), None);
    assert_eq!(peek_model_from_body(&b"[]".to_vec()), None);
    assert_eq!(peek_model_from_body(&b"".to_vec()), None);
    let config = ModelConfig { models: vec![model("real", &["u"], &["nick"], 1)] };
    let mut unknown = b"{\"model\":\"x\"}".to_vec();
    let r = extract_and_resolve_model(&mut unknown, "/api/embed", &config);
    assert_eq!(r, Some("x:latest".to_string()));
    assert_eq!(unknown, b"{\"model\":\"x\"}".to_vec());
    let mut alias = b"{\"model\":\"nick\"}".to_vec();
    assert_eq!(extract_and_resolve_model(&mut alias, "/api/tags", &config), None);
    assert_eq!(alias, b"{\"model\":\"nick\"}".to_vec());
    let r = extract_and_resolve_model(&mut alias, "/v1/embeddings", &config);
    assert_eq!(r, Some("real:latest".to_string()));
    assert_eq!(alias, b"{\"model\":\"real\"}".to_vec());
    let plan = plan_model("/v1/responses", Some("nick".to_string()), &config);
    assert_eq!(plan.model, Some("real:latest".to_string()));
    assert_eq!(plan.rewrite, Some("real".to_string()));
}

#[test]
fn durations_are_short() {
    assert_eq!(format_duration_short(0), "0s");
    assert_eq!(format_duration_short(59), "59s");
    assert_eq!(format_duration_short(60), "1m 0s");
    assert_eq!(format_duration_short(3725), "62m 5s");
}

fn run(s: &mut AppState<u32>, events: &[DispatchEvent]) -> DispatchAction {
    let mut r = DispatchRun::new("alice".to_string(), 0, Some("m:1".to_string()));
    let mut action = DispatchAction::SendRequest;
    for e in events {
        assert!(r.can_dispatch(s, *e));
        action = r.dispatch_task(s, *e);
    }
    assert_eq!(r.phase, DispatchPhase::Finished);
    action
}

fn busy() -> AppState<u32> {
    let mut s = state(vec![model("m:1", &["http://a"], &[], 2)]);
    queue(&mut s, "alice", "/api/chat", "{\"model\":\"m:1\"}", 1);
    let mut idx = 0;
    dispatched(next(&mut s, &mut idx));
    s
}

#[test]
fn finished_request_is_processed_and_releases_its_backend() {
    let mut s = busy();
    let last = run(
        &mut s,
        &[
            DispatchEvent::Started { responder_closed: false },
            DispatchEvent::Responded,
            DispatchEvent::Delivered,
            DispatchEvent::Delivered,
            DispatchEvent::Ended,
        ],
    );
    assert_eq!(last, DispatchAction::Finish);
    assert_eq!(s.processed_counts.count("alice"), 1);
    assert_eq!(s.dropped_counts.count("alice"), 0);
    assert_eq!(s.processing_counts.count("alice"), 0);
    assert_eq!(s.backends[0].active_requests, 0);
    assert_eq!(s.backends[0].active_models.count("m:1"), 0);
    assert_eq!(s.backends[0].processed_count, 1);
    assert_eq!(s.backends[0].processed_models.count("m:1"), 1);
}

#[test]
fn dropped_requests_are_counted_as_such() {
    let start = DispatchEvent::Started { responder_closed: false };
    let cases = vec![
        (vec![DispatchEvent::Started { responder_closed: true }], 1),
        (vec![start, DispatchEvent::Failed, DispatchEvent::Reported], 1),
        (vec![start, DispatchEvent::Responded, DispatchEvent::Refused], 0),
        (vec![start, DispatchEvent::Responded, DispatchEvent::Delivered, DispatchEvent::Refused], 1),
    ];
    for (events, dropped) in cases {
        let mut s = busy();
        assert_eq!(run(&mut s, &events), DispatchAction::Finish);
        assert_eq!(s.dropped_counts.count("alice"), dropped);
        assert_eq!(s.processed_counts.count("alice"), 0);
        assert_eq!(s.processing_counts.count("alice"), 0);
        assert_eq!(s.backends[0].active_requests, 0);
        assert_eq!(s.backends[0].processed_count, 1);
    }
}

#[test]
fn blocked_user_is_dropped_before_sending() {
    let mut s = busy();
    s.block_ip(IpAddr::V4(1));
    let last = run(&mut s, &[DispatchEvent::Started { responder_closed: false }]);
    assert_eq!(last, DispatchAction::Finish);
    assert_eq!(s.dropped_counts.count("alice"), 1);
}

#[test]
fn progress_shows_while_a_request_runs() {
    let mut s = busy();
    let mut r = DispatchRun::new("alice".to_string(), 0, None);
    let a = r.dispatch_task(&mut s, DispatchEvent::Started { responder_closed: false });
    assert_eq!(a, DispatchAction::SendRequest);
    assert_eq!(s.processing_counts.count("alice"), 1);
    assert_eq!(r.dispatch_task(&mut s, DispatchEvent::Responded), DispatchAction::RelayStatus);
    assert_eq!(r.dispatch_task(&mut s, DispatchEvent::Delivered), DispatchAction::RelayNextChunk);
    assert_eq!(s.backends[0].active_requests, 1);
    assert_eq!(r.dispatch_task(&mut s, DispatchEvent::Ended), DispatchAction::Finish);
    assert_eq!(s.processing_counts.count("alice"), 0);
    assert_eq!(s.backends[0].active_models.count("m:1"), 1);
}

#[test]
fn clients_are_told_how_it_went() {
    let headers: HeaderMap<HeaderValue> = HeaderMap::new();
    let first: FirstReply<u8> = first_reply(Some(ResponsePart::Status(201, headers)));
    assert!(matches!(first, FirstReply::Stream(201, _)));
    assert!(first.failure("x").is_none());
    let broken: FirstReply<u8> = first_reply(Some(ResponsePart::Error(3)));
    assert_eq!(broken.failure("gone"), Some((500, "Backend error: gone".to_string())));
    let silent: FirstReply<u8> = first_reply(None);
    assert_eq!(silent.failure(""), Some((500, "Worker failed to respond".to_string())));
    let odd: FirstReply<u8> = first_reply(Some(ResponsePart::Chunk(vec![1])));
    assert!(matches!(odd, FirstReply::NoReply));
    assert_eq!(body_part::<u8>(ResponsePart::Chunk(vec![1])), Ok(vec![1]));
    assert_eq!(body_part::<u8>(ResponsePart::Error(2)), Err(2));
    assert_eq!(body_part::<u8>(ResponsePart::ModelNotFound("m".to_string())), Ok(vec![]));
}
