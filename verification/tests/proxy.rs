use ipinfo_round_robin_api::config::Config;
use ipinfo_round_robin_api::http::Reply;
use ipinfo_round_robin_api::proxy::{
    cache_delete_handler, content_type_or_json, health_handler, health_handler_at, stats_handler,
    stats_handler_at, unreadable_body, AppState, Begin, Done, Pending, Request, UpstreamRequest,
};
use serde_json::Value;

const SECOND: u128 = 1_000_000_000;

fn make_state(mock_url: &str, keys: Vec<&str>) -> AppState {
    let config = Config {
        keys: keys.into_iter().map(String::from).collect(),
        port: 0,
        host: "127.0.0.1".into(),
        cooldown_seconds: 60,
        request_timeout_ms: 5000,
        cache_ttl_seconds: 300,
        cache_max_entries: 1000,
        cache_max_body_bytes: 32 * 1024,
        log_level: "error".into(),
        log_format: "text".into(),
        ipinfo_base_url: mock_url.into(),
        redact_keys: false,
    };
    AppState::new(config)
}

fn request(method: &str, target: &str) -> Request {
    Request {
        method: method.into(),
        path: target.split('?').next().unwrap().into(),
        path_and_query: Some(target.into()),
        cache_control: None,
        content_type: None,
    }
}

fn empty_req(uri: &str) -> Request {
    request("GET", uri)
}

/// An upstream that answers every request for one path in the same way and counts them.
struct Mock {
    method: &'static str,
    url: &'static str,
    status: u16,
    content_type: Option<&'static str>,
    body: &'static str,
    calls: usize,
}

const MOCK_URL: &str = "http://mock";

fn mock(url: &'static str, status: u16, content_type: Option<&'static str>, body: &'static str) -> Mock {
    Mock { method: "GET", url, status, content_type, body, calls: 0 }
}

/// Takes a request through all its steps.
fn oneshot(state: &mut AppState, mock: &mut Mock, req: &Request) -> Reply {
    match state.begin(req) {
        Begin::Answer(reply) => reply,
        Begin::Wait(_) => panic!("nothing is under way"),
        Begin::Ask(upstream, pending) => {
            mock.calls += 1;
            assert_eq!(upstream.method, mock.method);
            assert_eq!(upstream.url, mock.url);
            assert_eq!(upstream.authorization, format!("Bearer {}", pending.key));
            assert_eq!(upstream.accept, "application/json");
            state.head(&pending, mock.status);
            let content_type = mock.content_type.map(|v| v.as_bytes().to_vec());
            let done = state.finish(pending, mock.status, &content_type, mock.body.into());
            assert!(done.waiting.is_empty());
            done.reply
        }
    }
}

fn asked(begin: Begin) -> (UpstreamRequest, Pending) {
    match begin {
        Begin::Ask(upstream, pending) => (upstream, pending),
        _ => panic!("the upstream is not asked"),
    }
}

fn answered(begin: Begin) -> Reply {
    match begin {
        Begin::Answer(reply) => reply,
        _ => panic!("no answer yet"),
    }
}

fn ticket(begin: Begin) -> u64 {
    match begin {
        Begin::Wait(ticket) => ticket,
        _ => panic!("not waiting"),
    }
}

fn finish(state: &mut AppState, pending: Pending, status: u16, body: &str, now: u128) -> Done {
    state.finish_at(pending, status, &Some(b"application/json".to_vec()), body.into(), now)
}

#[test]
fn proxy_get_ip_returns_upstream_body() {
    let mut mock = mock(
        "http://mock/8.8.8.8",
        200,
        Some("application/json"),
        r#"{"ip":"8.8.8.8","country":"US"}"#,
    );
    let mut state = make_state(MOCK_URL, vec!["test-key"]);
    let resp = oneshot(&mut state, &mut mock, &empty_req("/8.8.8.8"));

    assert_eq!(resp.status, 200);
    let json: Value = serde_json::from_slice(&resp.body).unwrap();
    assert_eq!(json["country"], "US");
}

#[test]
fn cache_hit_on_second_request() {
    let mut mock = mock(
        "http://mock/1.1.1.1",
        200,
        Some("application/json"),
        r#"{"ip":"1.1.1.1","country":"AU"}"#,
    );
    let mut state = make_state(MOCK_URL, vec!["key"]);

    let r1 = oneshot(&mut state, &mut mock, &empty_req("/1.1.1.1"));
    let r2 = oneshot(&mut state, &mut mock, &empty_req("/1.1.1.1"));

    assert_eq!(r1.status, 200);
    assert_eq!(r2.status, 200);
    // Exactly one upstream call: the second request must be served from cache
    assert_eq!(mock.calls, 1);
    assert_eq!(r1.body, r2.body);
    assert_eq!(r1.content_type, r2.content_type);
}

#[test]
fn no_cache_header_bypasses_cache() {
    let mut mock =
        mock("http://mock/2.2.2.2", 200, Some("application/json"), r#"{"ip":"2.2.2.2"}"#);
    let mut state = make_state(MOCK_URL, vec!["key"]);

    for _ in 0..2 {
        let mut req = empty_req("/2.2.2.2");
        req.cache_control = Some(b"no-cache".to_vec());
        let resp = oneshot(&mut state, &mut mock, &req);
        assert_eq!(resp.status, 200);
    }

    // Both requests must reach upstream
    assert_eq!(mock.calls, 2);
    assert_eq!(state.cache.stats().size, 0);
}

#[test]
fn returns_503_when_all_keys_exhausted() {
    let mut state = make_state("http://127.0.0.1:1", vec!["only-key"]);
    state.rotator.mark_cooldown("only-key");

    let resp = answered(state.begin(&empty_req("/8.8.8.8")));

    assert_eq!(resp.status, 503);
    assert!(resp.retry_after.is_some());
    assert_eq!(resp.retry_after.as_deref(), Some("60"));
    assert_eq!(resp.body, b"All API keys are rate limited. Try again later.".to_vec());
    assert_eq!(state.stats.keys_exhausted, 1);
}

#[test]
fn health_endpoint_returns_ok() {
    let state = make_state(MOCK_URL, vec!["key"]);
    let answer = health_handler(&state);
    assert_eq!(answer.status, "ok");
    assert_eq!(answer.keys.total, 1);
}

#[test]
fn delete_cache_returns_204() {
    let mut state = make_state(MOCK_URL, vec!["key"]);
    let resp = cache_delete_handler(&mut state);
    assert_eq!(resp.status, 204);
}

#[test]
fn upstream_429_marks_key_cooldown() {
    let mut mock = mock("http://mock/3.3.3.3", 429, None, "");
    let mut state = make_state(MOCK_URL, vec!["rate-limited-key"]);

    let _ = oneshot(&mut state, &mut mock, &empty_req("/3.3.3.3"));

    let stats = state.rotator.stats();
    assert_eq!(stats.cooling, 1);
    assert_eq!(stats.active, 0);
}

#[test]
fn content_type_forwarded_from_upstream() {
    let mut mock = mock("http://mock/4.4.4.4/country", 200, Some("text/plain"), "US");
    let mut state = make_state(MOCK_URL, vec!["key"]);
    let resp = oneshot(&mut state, &mut mock, &empty_req("/4.4.4.4/country"));

    assert_eq!(resp.status, 200);
    let ct = resp.content_type.unwrap();
    assert!(ct.contains("text/plain"));
}

#[test]
fn query_belongs_to_the_cache_key() {
    let mut state = make_state(MOCK_URL, vec!["key"]);
    let (upstream, pending) = asked(state.begin_at(&empty_req("/8.8.8.8?lang=en"), 0));
    assert_eq!(upstream.url, "http://mock/8.8.8.8?lang=en");
    assert_eq!(pending.cache_key, "GET:/8.8.8.8?lang=en");
    finish(&mut state, pending, 200, "{}", 0);
    asked(state.begin_at(&empty_req("/8.8.8.8"), 1));
    assert_eq!(answered(state.begin_at(&empty_req("/8.8.8.8?lang=en"), 1)).status, 200);
}

#[test]
fn request_without_target_is_for_the_root() {
    let mut state = make_state(MOCK_URL, vec!["key"]);
    let mut req = empty_req("/");
    req.path_and_query = None;
    let (upstream, pending) = asked(state.begin_at(&req, 0));
    assert_eq!(upstream.url, "http://mock/");
    assert_eq!(pending.cache_key, "GET:/");
}

#[test]
fn cached_answer_expires() {
    let mut state = make_state(MOCK_URL, vec!["key"]);
    let req = empty_req("/8.8.8.8");
    let (_, pending) = asked(state.begin_at(&req, 0));
    finish(&mut state, pending, 203, "{}", 10);
    assert_eq!(answered(state.begin_at(&req, 300 * SECOND + 9)).status, 203);
    asked(state.begin_at(&req, 300 * SECOND + 10));
    assert_eq!(state.stats.requests_total, 3);
    assert_eq!(state.stats.requests_cached, 1);
    assert_eq!(state.stats.requests_proxied, 1);
}

#[test]
fn batch_and_me_are_never_cached() {
    let mut state = make_state(MOCK_URL, vec!["key"]);
    for req in [request("POST", "/batch"), empty_req("/me"), empty_req("/me?x=1")] {
        for _ in 0..2 {
            let (_, pending) = asked(state.begin_at(&req, 0));
            assert!(!pending.cacheable);
            finish(&mut state, pending, 200, "{}", 0);
        }
    }
    let stats = state.cache.stats();
    assert_eq!((stats.size, stats.hits, stats.misses), (0, 0, 0));
}

#[test]
fn no_cache_leaves_a_stored_answer() {
    let mut state = make_state(MOCK_URL, vec!["key"]);
    let mut req = empty_req("/8.8.8.8");
    let (_, pending) = asked(state.begin_at(&req, 0));
    finish(&mut state, pending, 200, "old", 0);
    req.cache_control = Some(b"max-age=0, no-cache".to_vec());
    let (_, pending) = asked(state.begin_at(&req, 1));
    assert_eq!(finish(&mut state, pending, 200, "new", 1).reply.body, b"new".to_vec());
    req.cache_control = Some(vec![0xff, b'n', b'o']);
    assert_eq!(answered(state.begin_at(&req, 2)).body, b"old".to_vec());
}

#[test]
fn only_small_successes_are_stored() {
    let mut state = make_state(MOCK_URL, vec!["key"]);
    state.config.cache_max_body_bytes = 4;
    for (status, body, size) in [(404, "x", 0), (199, "x", 0), (300, "x", 0), (200, "12345", 0), (299, "1234", 1)] {
        let (_, pending) = asked(state.begin_at(&empty_req("/1"), 0));
        let reply = finish(&mut state, pending, status, body, 0).reply;
        assert_eq!(reply.status, status);
        assert_eq!(reply.body, body.as_bytes().to_vec());
        assert_eq!(state.cache.stats().size, size);
    }
}

#[test]
fn batch_body_goes_with_its_content_type() {
    let mut state = make_state(MOCK_URL, vec!["key"]);
    let mut req = request("POST", "/batch");
    assert_eq!(asked(state.begin_at(&req, 0)).0.content_type.as_deref(), Some("application/json"));
    req.content_type = Some(b"text/json".to_vec());
    assert_eq!(asked(state.begin_at(&req, 0)).0.content_type.as_deref(), Some("text/json"));
    req.content_type = Some(vec![0xe4]);
    assert_eq!(asked(state.begin_at(&req, 0)).0.content_type.as_deref(), Some("application/json"));
    assert_eq!(asked(state.begin_at(&empty_req("/1"), 0)).0.content_type, None);
}

#[test]
fn unreadable_body_is_a_bad_request() {
    let reply = unreadable_body();
    assert_eq!(reply.status, 400);
    assert_eq!(reply.body, b"Failed to read request body".to_vec());
    assert_eq!(reply.content_type.as_deref(), Some("text/plain; charset=utf-8"));
}

#[test]
fn refused_keys_rest_and_others_go_on() {
    for status in [401, 429] {
        let mut state = make_state(MOCK_URL, vec!["a", "b"]);
        let (upstream, pending) = asked(state.begin_at(&empty_req("/1"), 0));
        assert_eq!(upstream.authorization, "Bearer a");
        state.head_at(&pending, status, 5);
        let reply = finish(&mut state, pending, status, "slow down", 5).reply;
        assert_eq!(reply.status, status);
        for now in [6, 60 * SECOND + 4] {
            for _ in 0..3 {
                let mut req = empty_req("/2");
                req.cache_control = Some(b"no-cache".to_vec());
                assert_eq!(asked(state.begin_at(&req, now)).1.key, "b");
            }
        }
        let keys: Vec<String> = ["/3", "/4"]
            .iter()
            .map(|target| asked(state.begin_at(&empty_req(target), 60 * SECOND + 5)).1.key)
            .collect();
        assert!(keys.contains(&"a".to_string()));
    }
}

#[test]
fn other_errors_cool_no_key() {
    let mut state = make_state(MOCK_URL, vec!["a"]);
    for status in [200, 400, 403, 404, 428, 430, 500, 503] {
        let (_, pending) = asked(state.begin_at(&request("POST", "/batch"), 0));
        state.head_at(&pending, status, 0);
        finish(&mut state, pending, status, "", 0);
        assert_eq!(state.rotator.stats_at(0).cooling, 0);
    }
}

#[test]
fn failed_upstream_is_a_bad_gateway() {
    let mut state = make_state(MOCK_URL, vec!["a"]);
    let (_, pending) = asked(state.begin_at(&empty_req("/1"), 0));
    let done = state.fail(pending);
    assert_eq!(done.reply.status, 502);
    assert_eq!(done.reply.content_type, None);
    assert!(done.reply.body.is_empty());
    assert_eq!(state.stats.upstream_errors, 1);
    assert_eq!(state.stats.requests_proxied, 0);
    asked(state.begin_at(&empty_req("/1"), 0));
}

#[test]
fn requests_for_the_same_share_one_call() {
    let mut state = make_state(MOCK_URL, vec!["a", "b"]);
    let req = empty_req("/1");
    let (_, pending) = asked(state.begin_at(&req, 0));
    assert_eq!(ticket(state.begin_at(&req, 1)), 0);
    assert_eq!(asked(state.begin_at(&empty_req("/2"), 1)).1.key, "b");
    assert_eq!(ticket(state.begin_at(&req, 1)), 1);
    assert_eq!(finish(&mut state, pending, 500, "", 2).waiting, vec![0, 1]);
    let (_, pending) = asked(state.begin_at(&req, 3));
    assert_eq!(pending.key, "a");
    let ticket = ticket(state.begin_at(&req, 3));
    assert_eq!(state.fail(pending).waiting, vec![ticket]);
}

#[test]
fn uncacheable_requests_share_no_call() {
    let mut state = make_state(MOCK_URL, vec!["a"]);
    asked(state.begin_at(&empty_req("/1"), 0));
    let mut req = empty_req("/1");
    req.cache_control = Some(b"no-cache".to_vec());
    let (_, pending) = asked(state.begin_at(&req, 0));
    assert!(finish(&mut state, pending, 200, "", 0).waiting.is_empty());
    ticket(state.begin_at(&empty_req("/1"), 0));
    asked(state.begin_at(&request("POST", "/batch"), 0));
    asked(state.begin_at(&request("POST", "/batch"), 0));
}

#[test]
fn me_is_redacted_where_asked_for() {
    for (redact, target, shown) in [
        (true, "/me", r#"{"token":"abc..."}"#),
        (false, "/me", r#"{"token":"abcdef"}"#),
        (true, "/1", r#"{"token":"abcdef"}"#),
    ] {
        let mut state = make_state(MOCK_URL, vec!["a"]);
        state.config.redact_keys = redact;
        let (_, pending) = asked(state.begin_at(&empty_req(target), 0));
        let done = finish(&mut state, pending, 200, r#"{"token":"abcdef"}"#, 0);
        assert_eq!(done.reply.body, shown.as_bytes().to_vec());
    }
}

#[test]
fn content_types_default_to_json() {
    assert_eq!(content_type_or_json(&None), "application/json");
    assert_eq!(content_type_or_json(&Some(b"text/html".to_vec())), "text/html");
    assert_eq!(content_type_or_json(&Some(vec![0x80])), "application/json");
}

#[test]
fn health_degrades_while_all_keys_rest() {
    let mut state = make_state(MOCK_URL, vec!["a", "b"]);
    state.rotator.mark_cooldown_at("a", 0);
    assert_eq!(health_handler_at(&state, 1).status, "ok");
    state.rotator.mark_cooldown_at("b", 0);
    let answer = health_handler_at(&state, 1);
    assert_eq!(answer.status, "degraded");
    assert_eq!((answer.keys.total, answer.keys.active, answer.keys.cooling), (2, 0, 2));
    assert_eq!(health_handler_at(&state, 60 * SECOND).status, "ok");
}

#[test]
fn stats_tell_of_requests_cache_and_keys() {
    let mut state = make_state(MOCK_URL, vec!["a", "b"]);
    let (_, pending) = asked(state.begin_at(&empty_req("/1"), 0));
    finish(&mut state, pending, 200, "{}", 0);
    answered(state.begin_at(&empty_req("/1"), 1));
    let (_, pending) = asked(state.begin_at(&empty_req("/2"), 1));
    state.fail(pending);
    state.rotator.mark_cooldown_at("a", 1);
    let answer = stats_handler_at(&state, 2);
    assert_eq!(answer.requests_total, 3);
    assert_eq!(answer.requests_proxied, 1);
    assert_eq!(answer.requests_cached, 1);
    assert_eq!(answer.upstream_errors, 1);
    assert_eq!(answer.keys_exhausted, 0);
    assert_eq!((answer.cache.hits, answer.cache.misses, answer.cache.size), (1, 2, 1));
    assert_eq!((answer.keys.total, answer.keys.active, answer.keys.cooling), (2, 1, 1));
    cache_delete_handler(&mut state);
    assert_eq!(stats_handler(&state).cache.size, 0);
    asked(state.begin_at(&empty_req("/1"), 3));
}

#[test]
fn all_steps_measure_on_the_clock_of_the_server() {
    let mut state = make_state(MOCK_URL, vec!["a"]);
    while state.clock.now() < 5_000_000 {}
    let (_, pending) = asked(state.begin(&empty_req("/1")));
    state.head(&pending, 429);
    state.finish(pending, 200, &None, b"{}".to_vec());
    let now = state.clock.now();
    assert!(!state.rotator.is_available_at(0, 60 * SECOND + 4_000_000));
    assert!(state.rotator.is_available_at(0, 60 * SECOND + now));
    let entry = state.cache.get_at("GET:/1", now).unwrap();
    assert!(5_000_000 <= entry.inserted_at && entry.inserted_at <= now);
    assert_eq!(health_handler(&state).status, "degraded");
}
