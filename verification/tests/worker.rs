use ipinfo_round_robin_api::http::Reply;
use ipinfo_round_robin_api::worker::config::{Config, Env};
use ipinfo_round_robin_api::worker::proxy::{
    cache_delete_handler, data_point, finish, handle, health_handler, health_handler_at, hit_point,
    latency_ms, plan, request_path_type, stats_handler, stats_handler_at, Answer, AppState, Ask,
    DataPoint, Event, Next, Plan, Request, Route,
};
use ipinfo_round_robin_api::worker::rotator::Rotator;

const SECOND: u128 = 1_000_000_000;
const MILLI: u128 = 1_000_000;

fn env(keys: Option<&str>) -> Env {
    Env {
        ipinfo_keys_secret: keys.map(String::from),
        ipinfo_keys_var: None,
        cooldown_seconds: None,
        cache_ttl_seconds: None,
        cache_max_body_bytes: None,
        ipinfo_base_url: None,
        redact_keys: None,
    }
}

fn config(keys: &str) -> Config {
    Config::from_env(&env(Some(keys))).unwrap()
}

fn request(method: &str, path: &str) -> Request {
    Request { method: method.into(), path: path.into(), query: None, cache_control: None }
}

fn planned(config: &Config, method: &str, path: &str) -> Plan {
    plan(config, &request(method, path))
}

fn asked(next: Next) -> Ask {
    match next {
        Next::Upstream(ask) => ask,
        Next::Exhausted(..) => panic!("no key"),
    }
}

fn exhausted(next: Next) -> (Reply, DataPoint) {
    match next {
        Next::Exhausted(reply, point) => (reply, point),
        Next::Upstream(_) => panic!("a key"),
    }
}

fn answer(status: u16, content_type: Option<&str>, body: &str) -> Answer {
    Answer { status, content_type: content_type.map(String::from), body: body.into() }
}

#[test]
fn worker_defaults() {
    let config = config(" k1 ,k2");
    assert_eq!(config.keys, vec!["k1", "k2"]);
    assert_eq!(config.cooldown_seconds, 60);
    assert_eq!(config.cache_ttl_seconds, 300);
    assert_eq!(config.cache_max_body_bytes, 32768);
    assert_eq!(config.ipinfo_base_url, "https://ipinfo.io");
    assert!(!config.redact_keys);
}

#[test]
fn worker_settings() {
    let mut e = env(Some("k"));
    e.cooldown_seconds = Some("5".into());
    e.cache_ttl_seconds = Some("nonsense".into());
    e.cache_max_body_bytes = Some("10".into());
    e.ipinfo_base_url = Some("http://x".into());
    e.redact_keys = Some("True".into());
    let config = Config::from_env(&e).unwrap();
    assert_eq!(config.cooldown_seconds, 5);
    assert_eq!(config.cache_ttl_seconds, 300);
    assert_eq!(config.cache_max_body_bytes, 10);
    assert_eq!(config.ipinfo_base_url, "http://x");
    assert!(config.redact_keys);
}

#[test]
fn secret_comes_before_variable() {
    let mut e = env(Some("secret"));
    e.ipinfo_keys_var = Some("var".into());
    assert_eq!(Config::from_env(&e).unwrap().keys, vec!["secret"]);
    e.ipinfo_keys_secret = None;
    assert_eq!(Config::from_env(&e).unwrap().keys, vec!["var"]);
    e.ipinfo_keys_var = None;
    assert_eq!(Config::from_env(&e).unwrap_err(), "IPINFO_KEYS is required but not set");
    e.ipinfo_keys_secret = Some(" ,".into());
    e.ipinfo_keys_var = Some("var".into());
    assert_eq!(Config::from_env(&e).unwrap_err(), "IPINFO_KEYS must contain at least one key");
}

#[test]
fn routes() {
    for (method, path, to) in [
        ("GET", "/health", Route::Health),
        ("GET", "/health//", Route::Health),
        ("POST", "/health", Route::Proxy),
        ("GET", "/stats/", Route::Stats),
        ("DELETE", "/cache", Route::CacheDelete),
        ("GET", "/cache", Route::Proxy),
        ("GET", "/", Route::Proxy),
        ("GET", "", Route::Proxy),
        ("GET", "/8.8.8.8", Route::Proxy),
    ] {
        assert_eq!(handle(method, path), to, "{method} {path}");
    }
}

#[test]
fn path_types() {
    assert_eq!(request_path_type("/batch", true, false), "batch");
    assert_eq!(request_path_type("/me", true, true), "batch");
    assert_eq!(request_path_type("/me", false, true), "me");
    assert_eq!(request_path_type("/", false, false), "root");
    assert_eq!(request_path_type("", false, false), "root");
    assert_eq!(request_path_type("/8.8.8.8", false, false), "ip");
    assert_eq!(request_path_type("/8.8.8.8/", false, false), "ip");
    assert_eq!(request_path_type("//", false, false), "ip");
    assert_eq!(request_path_type("/8.8.8.8/country", false, false), "ip_field");
    assert_eq!(request_path_type("a/b/c", false, false), "ip_field");
}

#[test]
fn plans() {
    let config = config("k");
    let mut req = request("GET", "/8.8.8.8");
    req.query = Some("lang=en".into());
    let p = plan(&config, &req);
    assert_eq!(p.kind, "ip");
    assert_eq!(p.upstream_url, "https://ipinfo.io/8.8.8.8?lang=en");
    assert!(p.cacheable && !p.is_post && !p.is_me);
    req.cache_control = Some("no-cache".into());
    assert!(!plan(&config, &req).cacheable);
    req.cache_control = Some("no-store".into());
    assert!(plan(&config, &req).cacheable);
    let p = planned(&config, "GET", "/me");
    assert!(p.is_me && !p.cacheable);
    assert_eq!(p.upstream_url, "https://ipinfo.io/me");
    let p = planned(&config, "POST", "/batch");
    assert!(p.is_post && !p.cacheable);
    assert_eq!(p.kind, "batch");
}

#[test]
fn latencies() {
    assert_eq!(latency_ms(5 * MILLI, 12 * MILLI), 7);
    assert_eq!(latency_ms(0, MILLI - 1), 0);
    assert_eq!(latency_ms(2, 1), 0);
    assert_eq!(latency_ms(0, u128::MAX), u64::MAX);
}

#[test]
fn data_points() {
    let event = Event {
        status: 429,
        cache_hit: false,
        upstream: true,
        cooldown: true,
        bytes: 12,
        slot: Some(3),
    };
    let point = data_point("ip", event, MILLI, 3 * MILLI);
    assert_eq!(point.index, "ip");
    assert_eq!(point.doubles, vec![429, 0, 1, 1, 12, 3, 2]);
    let p = planned(&config("k"), "GET", "/");
    let point = hit_point(&p, 200, 9, 0, 4 * MILLI);
    assert_eq!(point.index, "root");
    assert_eq!(point.doubles, vec![200, 1, 0, 0, 9, -1, 4]);
}

#[test]
fn keys_are_asked_in_turn() {
    let mut state = AppState::new(config("a,b"));
    let p = planned(&state.config, "GET", "/1");
    let ask = asked(state.ask_at(&p, b"ignored".to_vec(), 0, 0));
    assert_eq!(ask.method, "GET");
    assert_eq!(ask.url, "https://ipinfo.io/1");
    assert_eq!(ask.authorization, "Bearer a");
    assert_eq!(ask.accept, "application/json");
    assert_eq!(ask.body, None);
    assert_eq!((ask.slot, ask.key.as_str()), (0, "a"));
    let p = planned(&state.config, "POST", "/batch");
    let ask = asked(state.ask_at(&p, b"[]".to_vec(), 0, 0));
    assert_eq!(ask.method, "POST");
    assert_eq!(ask.body, Some(b"[]".to_vec()));
    assert_eq!((ask.slot, ask.key.as_str()), (1, "b"));
    assert_eq!(asked(state.ask(&p, vec![], 0)).body, None);
}

#[test]
fn exhausted_keys_are_answered_and_reported() {
    let mut state = AppState::new(config("a,b"));
    let p = planned(&state.config, "GET", "/1/city");
    assert!(state.head_at("a", 429, 0));
    assert!(state.head_at("b", 401, 0));
    assert!(!state.head_at("b", 500, 0));
    let (reply, point) = exhausted(state.ask_at(&p, vec![], 0, 2 * MILLI));
    assert_eq!(reply.status, 503);
    assert_eq!(reply.retry_after.as_deref(), Some("60"));
    assert_eq!(reply.content_type, None);
    assert_eq!(reply.body, b"All API keys are rate limited. Try again later.".to_vec());
    assert_eq!(point.index, "ip_field");
    assert_eq!(point.doubles, vec![503, 0, 0, 0, reply.body.len() as i128, -1, 2]);
    asked(state.ask_at(&p, vec![], 0, 60 * SECOND));
}

#[test]
fn plain_success_is_stored() {
    let config = config("k");
    let p = planned(&config, "GET", "/1");
    let done = finish(&config, &p, 1, false, answer(200, Some("text/plain"), "US"), 0, 3 * MILLI);
    assert_eq!(done.reply.status, 200);
    assert_eq!(done.reply.content_type.as_deref(), Some("text/plain"));
    assert_eq!(done.reply.body, b"US".to_vec());
    let stored = done.store.unwrap();
    assert_eq!(stored.url, "https://ipinfo.io/1");
    assert_eq!(stored.content_type, "text/plain");
    assert_eq!(stored.cache_control, "max-age=300");
    assert_eq!(stored.body, b"US".to_vec());
    assert_eq!(done.point.doubles, vec![200, 0, 1, 0, 2, 1, 3]);
}

#[test]
fn other_answers_are_not_stored() {
    let mut config = config("k");
    config.cache_max_body_bytes = 2;
    let p = planned(&config, "GET", "/1");
    assert!(finish(&config, &p, 0, false, answer(200, None, "US"), 0, 0).store.is_some());
    assert!(finish(&config, &p, 0, false, answer(200, None, "USA"), 0, 0).store.is_none());
    assert!(finish(&config, &p, 0, false, answer(201, None, ""), 0, 0).store.is_none());
    let done = finish(&config, &p, 0, true, answer(429, None, ""), 0, 0);
    assert!(done.store.is_none());
    assert_eq!(done.reply.content_type.as_deref(), Some("application/json"));
    assert_eq!(done.point.doubles, vec![429, 0, 1, 1, 0, 0, 0]);
    for (method, path) in [("POST", "/batch"), ("GET", "/me")] {
        let p = planned(&config, method, path);
        assert!(finish(&config, &p, 0, false, answer(200, None, ""), 0, 0).store.is_none());
    }
}

#[test]
fn worker_redacts_me() {
    let mut config = config("k");
    config.redact_keys = true;
    let body = r#"{"token": "abcdef"}"#;
    let p = planned(&config, "GET", "/me");
    let done = finish(&config, &p, 0, false, answer(200, None, body), 0, 0);
    assert_eq!(done.reply.body, br#"{"token":"abc..."}"#.to_vec());
    assert_eq!(done.point.doubles[4], 18);
    let p = planned(&config, "GET", "/1");
    let done = finish(&config, &p, 0, false, answer(200, None, body), 0, 0);
    assert_eq!(done.reply.body, body.as_bytes().to_vec());
}

#[test]
fn worker_keys_are_counted() {
    let mut r = Rotator::new(vec!["key-one".into(), "two".into()], 60);
    assert_eq!(r.next_key(), Some((0, "key-one".to_string())));
    assert_eq!(r.next_key(), Some((1, "two".to_string())));
    assert_eq!(r.next_key(), Some((0, "key-one".to_string())));
    r.mark_cooldown("two");
    let stats = r.stats();
    assert_eq!((stats.total, stats.active, stats.cooling), (2, 1, 1));
    assert_eq!(stats.keys.len(), 2);
    assert_eq!(stats.keys[0].id, "***one");
    assert_eq!(stats.keys[0].requests, 2);
    assert_eq!(stats.keys[0].status, "active");
    assert_eq!(stats.keys[1].id, "***");
    assert_eq!(stats.keys[1].requests, 1);
    assert_eq!(stats.keys[1].status, "cooling");
    r.mark_cooldown("key-one");
    assert_eq!(r.next_key(), None);
    assert_eq!(r.stats().keys[0].requests, 2);
}

#[test]
fn worker_health_and_stats() {
    let mut state = AppState::new(config("a"));
    assert_eq!(health_handler(&state).status, "ok");
    state.head_at("a", 429, 0);
    let health = health_handler_at(&state, 1);
    assert_eq!(health.status, "degraded");
    assert_eq!(health.keys.cooling, 1);
    assert_eq!(health_handler_at(&state, 60 * SECOND).status, "ok");
    let stats = stats_handler_at(&state, 1);
    assert_eq!(stats.keys.active, 0);
    assert_eq!(stats.note, "per-isolate counters; resets when isolate restarts");
    assert_eq!(stats_handler(&state).keys.total, 1);
}

#[test]
fn worker_cache_cannot_be_flushed() {
    let answer = cache_delete_handler();
    assert_eq!(answer.status, 501);
    assert!(answer.error.starts_with("Bulk cache invalidation is not supported"));
}

#[test]
fn worker_steps_measure_on_one_clock() {
    let mut state = AppState::new(config("a"));
    while state.clock.now() < 5 * MILLI {}
    assert!(state.head("a", 429));
    let now = state.clock.now();
    let p = planned(&state.config, "GET", "/1");
    let (_, point) = exhausted(state.ask(&p, vec![], 0));
    assert!(point.doubles[6] >= 5);
    exhausted(state.ask_at(&p, vec![], 0, 60 * SECOND + 4 * MILLI));
    asked(state.ask_at(&p, vec![], 0, 60 * SECOND + now));
}
