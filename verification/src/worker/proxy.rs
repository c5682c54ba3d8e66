//! The proxy at the edge: routing, what is looked up and stored in the platform's cache, what is
//! asked of the upstream and with which key, and what is reported of each request.
//!
//! A proxied request goes through these steps. [`plan`] says what is looked up in the cache and
//! [`hit_point`] what is reported if it is found. [`AppState::ask`] chooses a key and says what
//! to ask of the upstream. [`AppState::head`] takes note of the status of the upstream's answer,
//! and [`finish`] says what to answer, store and report.

use vstd::prelude::*;

use crate::clock::{Clock, LAST_TICK};
use crate::http::{self, Reply, ReplyView};
use crate::json;
use crate::text;
use crate::worker::config::Config;
use crate::worker::rotator::{Rotator, RotatorStats, RotatorView};

verus! {

/// What a request is for.
#[derive(Clone, Copy, Debug, PartialEq, Eq, Structural)]
pub enum Route {
    Health,
    Stats,
    CacheDelete,
    Proxy,
}

/// What a request is for, by its method and its path without slashes at the end.
pub open spec fn route(method: Seq<char>, path: Seq<char>) -> Route {
    let trimmed = text::without_trailing(path, '/');
    if method == "GET"@ && trimmed == "/health"@ {
        Route::Health
    } else if method == "GET"@ && trimmed == "/stats"@ {
        Route::Stats
    } else if method == "DELETE"@ && trimmed == "/cache"@ {
        Route::CacheDelete
    } else {
        Route::Proxy
    }
}

/// Main entry point: finds out what a request is for.
pub fn handle(method: &str, path: &str) -> (to: Route)
    ensures
        to == route(method@, path@),
{
    let trimmed = text::trim_end_matches(path, '/');
    let trimmed: &str = trimmed.as_str();
    if text::same(method, "GET") && text::same(trimmed, "/health") {
        Route::Health
    } else if text::same(method, "GET") && text::same(trimmed, "/stats") {
        Route::Stats
    } else if text::same(method, "DELETE") && text::same(trimmed, "/cache") {
        Route::CacheDelete
    } else {
        Route::Proxy
    }
}

/// The type of a path, as it is reported.
pub open spec fn path_type(path: Seq<char>, is_post_batch: bool, is_me: bool) -> Seq<char> {
    if is_post_batch {
        "batch"@
    } else if is_me {
        "me"@
    } else if path == "/"@ || path.len() == 0 {
        "root"@
    } else if text::count_filled(text::split(path, '/')) >= 2 {
        "ip_field"@
    } else {
        "ip"@
    }
}

/// Finds out the type of a path.
pub fn request_path_type(path: &str, is_post_batch: bool, is_me: bool) -> (kind: &'static str)
    ensures
        kind@ == path_type(path@, is_post_batch, is_me),
{
    if is_post_batch {
        return "batch";
    }
    if is_me {
        return "me";
    }
    if text::same(path, "/") || path.is_empty() {
        return "root";
    }
    if text::count_pieces(path, '/') >= 2 {
        "ip_field"
    } else {
        "ip"
    }
}

/// A report of one request: the path type, and in this order the status, whether the answer came
/// from the cache, whether the upstream was asked, whether a key was put to rest, the size of the
/// answer in bytes, the slot of the key or -1, and the latency in milliseconds.
pub struct DataPoint {
    pub index: &'static str,
    pub doubles: Vec<i128>,
}

/// What a [`DataPoint`] holds.
pub struct PointView {
    pub index: Seq<char>,
    pub doubles: Seq<int>,
}

impl View for DataPoint {
    type V = PointView;

    open spec fn view(&self) -> PointView {
        PointView {
            index: self.index@,
            doubles: Seq::new(self.doubles@.len(), |i: int| self.doubles@[i] as int),
        }
    }
}

/// One for yes, zero for no.
pub open spec fn as_number(yes: bool) -> int {
    if yes {
        1
    } else {
        0
    }
}

/// Milliseconds from `started` to `now`, as far as they can be counted.
pub open spec fn latency(started: u128, now: u128) -> int {
    let passed = if now >= started {
        (now - started) / 1_000_000
    } else {
        0
    };
    if passed <= u64::MAX {
        passed
    } else {
        u64::MAX as int
    }
}

/// What happened to a request.
pub struct Event {
    pub status: u16,
    pub cache_hit: bool,
    pub upstream: bool,
    pub cooldown: bool,
    pub bytes: usize,
    pub slot: Option<usize>,
}

/// The report of what happened to a request.
pub open spec fn report(kind: Seq<char>, event: Event, started: u128, now: u128) -> PointView {
    PointView {
        index: kind,
        doubles: seq![
            event.status as int,
            as_number(event.cache_hit),
            as_number(event.upstream),
            as_number(event.cooldown),
            event.bytes as int,
            match event.slot {
                Some(slot) => slot as int,
                None => -1,
            },
            latency(started, now),
        ],
    }
}

fn number_of(yes: bool) -> (n: i128)
    ensures
        n == as_number(yes),
{
    if yes {
        1
    } else {
        0
    }
}

/// Milliseconds from `started` to `now`, as far as they can be counted.
pub fn latency_ms(started: u128, now: u128) -> (ms: u64)
    ensures
        ms == latency(started, now),
{
    if now < started {
        return 0;
    }
    let passed: u128 = (now - started) / 1_000_000;
    if passed <= u64::MAX as u128 {
        passed as u64
    } else {
        u64::MAX
    }
}

/// Builds the report of what happened to a request.
pub fn data_point(kind: &'static str, event: Event, started: u128, now: u128) -> (point: DataPoint)
    ensures
        point@ == report(kind@, event, started, now),
{
    let slot: i128 = match event.slot {
        Some(slot) => slot as i128,
        None => -1,
    };
    let mut doubles: Vec<i128> = Vec::new();
    doubles.push(event.status as i128);
    doubles.push(number_of(event.cache_hit));
    doubles.push(number_of(event.upstream));
    doubles.push(number_of(event.cooldown));
    doubles.push(event.bytes as i128);
    doubles.push(slot);
    doubles.push(latency_ms(started, now) as i128);
    let point = DataPoint { index: kind, doubles };
    assert(point@.doubles =~= report(kind@, event, started, now).doubles);
    point
}

/// A request of a client, as far as the proxy looks at it.
pub struct Request {
    pub method: String,
    pub path: String,
    pub query: Option<String>,
    pub cache_control: Option<String>,
}

impl Request {
    /// The path with the query.
    pub open spec fn target(self) -> Seq<char> {
        match self.query {
            Some(query) => self.path@ + "?"@ + query@,
            None => self.path@,
        }
    }

    /// Whether the request is a batch lookup.
    pub open spec fn is_post(self) -> bool {
        self.method@ == "POST"@
    }

    /// Whether the request asks for the API key and its usage.
    pub open spec fn is_me(self) -> bool {
        self.path@ == "/me"@
    }

    /// Whether the client wants no cached answer.
    pub open spec fn no_cache(self) -> bool {
        crate::proxy::bypasses_cache(text::text_given(self.cache_control))
    }

    /// Whether the request may be answered from the cache and its answer may be stored there.
    pub open spec fn cacheable(self) -> bool {
        !self.is_post() && !self.is_me() && !self.no_cache()
    }
}

/// How a request is to be dealt with.
pub struct Plan {
    /// The path type that is reported.
    pub kind: &'static str,
    /// What is asked of the upstream, and under which the answer is cached.
    pub upstream_url: String,
    pub is_post: bool,
    pub is_me: bool,
    /// Whether the cache is looked up first and the answer is stored there.
    pub cacheable: bool,
}

/// What a [`Plan`] holds.
pub struct PlanView {
    pub kind: Seq<char>,
    pub upstream_url: Seq<char>,
    pub is_post: bool,
    pub is_me: bool,
    pub cacheable: bool,
}

impl View for Plan {
    type V = PlanView;

    open spec fn view(&self) -> PlanView {
        PlanView {
            kind: self.kind@,
            upstream_url: self.upstream_url@,
            is_post: self.is_post,
            is_me: self.is_me,
            cacheable: self.cacheable,
        }
    }
}

/// How `req` is to be dealt with.
pub open spec fn plan_for(config: Config, req: Request) -> PlanView {
    PlanView {
        kind: path_type(req.path@, req.is_post(), req.is_me()),
        upstream_url: config.ipinfo_base_url@ + req.target(),
        is_post: req.is_post(),
        is_me: req.is_me(),
        cacheable: req.cacheable(),
    }
}

/// Finds out how `req` is to be dealt with.
pub fn plan(config: &Config, req: &Request) -> (plan: Plan)
    ensures
        plan@ == plan_for(*config, *req),
{
    let is_post = text::same(req.method.as_str(), "POST");
    let is_me = text::same(req.path.as_str(), "/me");
    let no_cache = match &req.cache_control {
        Some(text) => text::contains(text.as_str(), "no-cache"),
        None => false,
    };
    let kind = request_path_type(req.path.as_str(), is_post, is_me);
    let target = match &req.query {
        Some(query) => {
            let mut target = text::joined(req.path.as_str(), "?");
            target.append(query.as_str());
            target
        },
        None => req.path.clone(),
    };
    let upstream_url = text::joined(config.ipinfo_base_url.as_str(), target.as_str());
    Plan { kind, upstream_url, is_post, is_me, cacheable: !is_post && !no_cache && !is_me }
}

/// The report of a request that was answered from the cache.
pub open spec fn hit_report(
    plan: PlanView,
    status: u16,
    bytes: usize,
    started: u128,
    now: u128,
) -> PointView {
    report(
        plan.kind,
        Event { status, cache_hit: true, upstream: false, cooldown: false, bytes, slot: None },
        started,
        now,
    )
}

/// Builds the report of a request that was answered from the cache.
pub fn hit_point(plan: &Plan, status: u16, bytes: usize, started: u128, now: u128) -> (point:
    DataPoint)
    ensures
        point@ == hit_report(plan@, status, bytes, started, now),
{
    data_point(
        plan.kind,
        Event { status, cache_hit: true, upstream: false, cooldown: false, bytes, slot: None },
        started,
        now,
    )
}

/// What is to be asked of the upstream, and with which key.
pub struct Ask {
    pub method: &'static str,
    pub url: String,
    pub authorization: String,
    pub accept: &'static str,
    pub body: Option<Vec<u8>>,
    /// The slot of the key.
    pub slot: usize,
    pub key: String,
}

/// What an [`Ask`] holds.
pub struct AskView {
    pub method: Seq<char>,
    pub url: Seq<char>,
    pub authorization: Seq<char>,
    pub accept: Seq<char>,
    pub body: Option<Seq<u8>>,
    pub slot: int,
    pub key: Seq<char>,
}

impl View for Ask {
    type V = AskView;

    open spec fn view(&self) -> AskView {
        AskView {
            method: self.method@,
            url: self.url@,
            authorization: self.authorization@,
            accept: self.accept@,
            body: match self.body {
                Some(body) => Some(body@),
                None => None,
            },
            slot: self.slot as int,
            key: self.key@,
        }
    }
}

/// How a request goes on after the cache did not answer it.
pub enum Next {
    /// The upstream is asked.
    Upstream(Ask),
    /// All keys are cooling down: the request is answered and reported.
    Exhausted(Reply, DataPoint),
}

/// What a [`Next`] holds.
pub enum NextView {
    Upstream(AskView),
    Exhausted(ReplyView, PointView),
}

impl View for Next {
    type V = NextView;

    open spec fn view(&self) -> NextView {
        match *self {
            Next::Upstream(ask) => NextView::Upstream(ask@),
            Next::Exhausted(reply, point) => NextView::Exhausted(reply@, point@),
        }
    }
}

/// The text of the answer when all keys are cooling down.
pub open spec fn exhausted_text() -> Seq<char> {
    "All API keys are rate limited. Try again later."@
}

/// The answer when all keys are cooling down.
pub open spec fn exhausted(config: Config) -> ReplyView {
    ReplyView {
        status: 503,
        content_type: None,
        retry_after: Some(text::numeral(config.cooldown_seconds as nat)),
        body: vstd::utf8::encode_utf8(exhausted_text()),
    }
}

/// What is asked of the upstream, with the key of `slot`.
pub open spec fn upstream_ask(plan: PlanView, body: Seq<u8>, slot: int, key: Seq<char>) -> AskView {
    AskView {
        method: if plan.is_post {
            "POST"@
        } else {
            "GET"@
        },
        url: plan.upstream_url,
        authorization: "Bearer "@ + key,
        accept: "application/json"@,
        body: if plan.is_post && body.len() > 0 {
            Some(body)
        } else {
            None
        },
        slot,
        key,
    }
}

/// What is kept between requests.
pub struct AppState {
    pub config: Config,
    pub rotator: Rotator,
    pub clock: Clock,
}

/// What an [`AppState`] holds.
pub struct AppView {
    pub config: Config,
    pub rotator: RotatorView,
    pub clock: Clock,
}

impl View for AppState {
    type V = AppView;

    open spec fn view(&self) -> AppView {
        AppView { config: self.config, rotator: self.rotator@, clock: self.clock }
    }
}

/// The state at the start, with time measured on `clock`.
pub open spec fn fresh_app(config: Config, clock: Clock) -> AppView {
    AppView {
        config,
        rotator: crate::worker::rotator::fresh_rotator(
            text::texts(config.keys@),
            config.cooldown_seconds,
            clock,
        ),
        clock,
    }
}

impl AppView {
    /// How a request goes on at `now` after the cache did not answer it.
    pub open spec fn next(
        self,
        plan: PlanView,
        body: Seq<u8>,
        started: u128,
        now: u128,
    ) -> NextView {
        match self.rotator.next_key(now) {
            Some((slot, key)) => NextView::Upstream(upstream_ask(plan, body, slot, key)),
            None => NextView::Exhausted(
                exhausted(self.config),
                report(
                    plan.kind,
                    Event {
                        status: 503,
                        cache_hit: false,
                        upstream: false,
                        cooldown: false,
                        bytes: exhausted(self.config).body.len() as usize,
                        slot: None,
                    },
                    started,
                    now,
                ),
            ),
        }
    }

    /// The state after a key was asked for at `now`.
    pub open spec fn after_ask(self, now: u128) -> AppView {
        AppView { rotator: self.rotator.advanced(now), ..self }
    }

    /// The state after the upstream's status for a request with `key` was seen at `now`: a key
    /// that was refused rests.
    pub open spec fn after_head(self, key: Seq<char>, status: u16, now: u128) -> AppView {
        if http::refused(status) {
            AppView { rotator: self.rotator.cooled(key, now), ..self }
        } else {
            self
        }
    }

    /// What holds of the state at all times: there is a key, and a count for each key.
    pub open spec fn valid(self) -> bool {
        self.rotator.valid() && self.rotator.ring.slots.len() > 0
    }
}

fn exhausted_reply(config: &Config) -> (reply: Reply)
    ensures
        reply@ == exhausted(*config),
{
    let mut reply = http::build_retry_response(
        503,
        "All API keys are rate limited. Try again later.",
        config.cooldown_seconds,
    );
    reply.content_type = None;
    reply
}

impl AppState {
    /// The clock that time is measured on.
    pub open spec fn clock(&self) -> Clock {
        self@.clock
    }

    /// The state at the start.
    pub fn new(config: Config) -> (state: AppState)
        ensures
            state@ == fresh_app(config, state.clock()),
            state@.rotator.valid(),
    {
        let clock = Clock::start();
        let keys = config.keys.clone();
        assert(text::texts(keys@) =~= text::texts(config.keys@));
        AppState { rotator: Rotator::on_clock(keys, config.cooldown_seconds, clock), config, clock }
    }

    /// Chooses a key for a request that the cache did not answer, by the clock.
    pub fn ask(&mut self, plan: &Plan, body: Vec<u8>, started: u128) -> (next: Next)
        requires
            old(self)@.valid(),
        ensures
            exists|now: u128|
                now <= LAST_TICK && old(self).clock().reads(now) && next@ == #[trigger] old(
                    self,
                )@.next(plan@, body@, started, now) && final(self)@ == old(self)@.after_ask(now),
            final(self).clock() == old(self).clock(),
            final(self)@.valid(),
    {
        let now: u128 = self.clock.now();
        self.ask_at(plan, body, started, now)
    }

    /// Chooses a key for a request that the cache did not answer, at `now`.
    pub fn ask_at(&mut self, plan: &Plan, body: Vec<u8>, started: u128, now: u128) -> (next: Next)
        requires
            old(self)@.valid(),
        ensures
            next@ == old(self)@.next(plan@, body@, started, now),
            final(self)@ == old(self)@.after_ask(now),
            final(self).clock() == old(self).clock(),
            final(self)@.valid(),
    {
        match self.rotator.next_key_at(now) {
            Some((slot, key)) => Next::Upstream(
                Ask {
                    method: if plan.is_post {
                        "POST"
                    } else {
                        "GET"
                    },
                    url: plan.upstream_url.clone(),
                    authorization: text::joined("Bearer ", key.as_str()),
                    accept: "application/json",
                    body: if plan.is_post && body.len() > 0 {
                        Some(body)
                    } else {
                        None
                    },
                    slot,
                    key,
                },
            ),
            None => {
                let reply = exhausted_reply(&self.config);
                let point = data_point(
                    plan.kind,
                    Event {
                        status: 503,
                        cache_hit: false,
                        upstream: false,
                        cooldown: false,
                        bytes: reply.body.len(),
                        slot: None,
                    },
                    started,
                    now,
                );
                Next::Exhausted(reply, point)
            },
        }
    }

    /// Takes note of the upstream's status for a request with `key`, by the clock. Says whether
    /// the key was put to rest.
    pub fn head(&mut self, key: &str, status: u16) -> (cooldown: bool)
        ensures
            exists|now: u128|
                now <= LAST_TICK && old(self).clock().reads(now) && final(self)@
                    == #[trigger] old(self)@.after_head(key@, status, now),
            final(self).clock() == old(self).clock(),
            cooldown == http::refused(status),
    {
        let now: u128 = self.clock.now();
        self.head_at(key, status, now)
    }

    /// Takes note of the upstream's status for a request with `key` at `now`. Says whether the
    /// key was put to rest.
    pub fn head_at(&mut self, key: &str, status: u16, now: u128) -> (cooldown: bool)
        requires
            now <= LAST_TICK,
        ensures
            final(self)@ == old(self)@.after_head(key@, status, now),
            final(self).clock() == old(self).clock(),
            cooldown == http::refused(status),
    {
        let cooldown = http::is_refused(status);
        if cooldown {
            self.rotator.mark_cooldown_at(key, now);
        }
        cooldown
    }
}

/// An answer as it is stored in the cache.
pub struct Stored {
    pub url: String,
    pub content_type: String,
    pub cache_control: String,
    pub body: Vec<u8>,
}

/// What a [`Stored`] holds.
pub struct StoredView {
    pub url: Seq<char>,
    pub content_type: Seq<char>,
    pub cache_control: Seq<char>,
    pub body: Seq<u8>,
}

impl View for Stored {
    type V = StoredView;

    open spec fn view(&self) -> StoredView {
        StoredView {
            url: self.url@,
            content_type: self.content_type@,
            cache_control: self.cache_control@,
            body: self.body@,
        }
    }
}

/// What becomes of the upstream's answer.
pub struct Done {
    pub reply: Reply,
    pub store: Option<Stored>,
    pub point: DataPoint,
}

/// The upstream's answer to a request.
pub struct Answer {
    pub status: u16,
    pub content_type: Option<String>,
    pub body: Vec<u8>,
}

impl Answer {
    /// The content type, or that of JSON where there is none.
    pub open spec fn content_type_or_json(self) -> Seq<char> {
        match self.content_type {
            Some(content_type) => content_type@,
            None => "application/json"@,
        }
    }

    /// The body that is passed on: a token in it is redacted where that is asked for.
    pub open spec fn shown_body(self, config: Config, plan: PlanView) -> Seq<u8> {
        if config.redact_keys && plan.is_me {
            json::redacted_body(self.body@)
        } else {
            self.body@
        }
    }

    /// What is passed on to the client.
    pub open spec fn passed_on(self, config: Config, plan: PlanView) -> ReplyView {
        ReplyView {
            status: self.status,
            content_type: Some(self.content_type_or_json()),
            retry_after: None,
            body: self.shown_body(config, plan),
        }
    }

    /// What is stored in the cache: only a plain success that is not too large.
    pub open spec fn stored(self, config: Config, plan: PlanView) -> Option<StoredView> {
        if plan.cacheable && self.status == 200 && self.shown_body(config, plan).len()
            <= config.cache_max_body_bytes {
            Some(
                StoredView {
                    url: plan.upstream_url,
                    content_type: self.content_type_or_json(),
                    cache_control: "max-age="@ + text::numeral(config.cache_ttl_seconds as nat),
                    body: self.shown_body(config, plan),
                },
            )
        } else {
            None
        }
    }

    /// What is reported of the request.
    pub open spec fn reported(
        self,
        config: Config,
        plan: PlanView,
        slot: usize,
        cooldown: bool,
        started: u128,
        now: u128,
    ) -> PointView {
        report(
            plan.kind,
            Event {
                status: self.status,
                cache_hit: false,
                upstream: true,
                cooldown,
                bytes: self.shown_body(config, plan).len() as usize,
                slot: Some(slot),
            },
            started,
            now,
        )
    }
}

/// The view of an answer that may be stored.
pub open spec fn store_view(store: Option<Stored>) -> Option<StoredView> {
    match store {
        Some(stored) => Some(stored@),
        None => None,
    }
}

/// Says what to answer, store and report when the upstream has answered a request that used the
/// key of `slot`.
pub fn finish(
    config: &Config,
    plan: &Plan,
    slot: usize,
    cooldown: bool,
    answer: Answer,
    started: u128,
    now: u128,
) -> (done: Done)
    ensures
        done.reply@ == answer.passed_on(*config, plan@),
        store_view(done.store) == answer.stored(*config, plan@),
        done.point@ == answer.reported(*config, plan@, slot, cooldown, started, now),
{
    let status: u16 = answer.status;
    let content_type = match answer.content_type {
        Some(content_type) => content_type,
        None => "application/json".to_owned(),
    };
    let body = if config.redact_keys && plan.is_me {
        json::redact_token_field(answer.body)
    } else {
        answer.body
    };
    let store = if plan.cacheable && status == 200 && body.len() <= config.cache_max_body_bytes {
        let copy = body.clone();
        assert(copy@ =~= body@);
        let max_age = text::decimal(config.cache_ttl_seconds);
        Some(
            Stored {
                url: plan.upstream_url.clone(),
                content_type: content_type.clone(),
                cache_control: text::joined("max-age=", max_age.as_str()),
                body: copy,
            },
        )
    } else {
        None
    };
    let point = data_point(
        plan.kind,
        Event {
            status,
            cache_hit: false,
            upstream: true,
            cooldown,
            bytes: body.len(),
            slot: Some(slot),
        },
        started,
        now,
    );
    let reply = Reply { status, content_type: Some(content_type), retry_after: None, body };
    Done { reply, store, point }
}

/// Response body for `GET /health`.
pub struct HealthResponse {
    pub status: &'static str,
    pub keys: RotatorStats,
}

/// Answers `GET /health`, by the clock.
pub fn health_handler(state: &AppState) -> (answer: HealthResponse)
    requires
        state@.rotator.valid(),
    ensures
        exists|now: u128|
            now <= LAST_TICK && state.clock().reads(now) && #[trigger] state@.rotator.reported(
                answer.keys,
                now,
            ),
        answer.keys.total == state@.rotator.ring.slots.len(),
        answer.status@ == health_status(answer.keys),
{
    let now: u128 = state.clock.now();
    health_handler_at(state, now)
}

/// How the proxy is doing: all right as long as a key is active.
pub open spec fn health_status(keys: RotatorStats) -> Seq<char> {
    if keys.active > 0 {
        "ok"@
    } else {
        "degraded"@
    }
}

/// Answers `GET /health` at `now`.
pub fn health_handler_at(state: &AppState, now: u128) -> (answer: HealthResponse)
    requires
        state@.rotator.valid(),
    ensures
        state@.rotator.reported(answer.keys, now),
        answer.keys.total == state@.rotator.ring.slots.len(),
        answer.status@ == health_status(answer.keys),
{
    let keys = state.rotator.stats_at(now);
    HealthResponse {
        status: if keys.active > 0 {
            "ok"
        } else {
            "degraded"
        },
        keys,
    }
}

/// Response body for `GET /stats`.
pub struct StatsResponse {
    pub keys: RotatorStats,
    pub note: &'static str,
}

/// Answers `GET /stats`, by the clock.
pub fn stats_handler(state: &AppState) -> (answer: StatsResponse)
    requires
        state@.rotator.valid(),
    ensures
        exists|now: u128|
            now <= LAST_TICK && state.clock().reads(now) && #[trigger] state@.rotator.reported(
                answer.keys,
                now,
            ),
        answer.keys.total == state@.rotator.ring.slots.len(),
        answer.note@ == "per-isolate counters; resets when isolate restarts"@,
{
    let now: u128 = state.clock.now();
    stats_handler_at(state, now)
}

/// Answers `GET /stats` at `now`.
pub fn stats_handler_at(state: &AppState, now: u128) -> (answer: StatsResponse)
    requires
        state@.rotator.valid(),
    ensures
        state@.rotator.reported(answer.keys, now),
        answer.keys.total == state@.rotator.ring.slots.len(),
        answer.note@ == "per-isolate counters; resets when isolate restarts"@,
{
    StatsResponse {
        keys: state.rotator.stats_at(now),
        note: "per-isolate counters; resets when isolate restarts",
    }
}

/// Response body for a request that cannot be served.
pub struct ErrorResponse {
    pub status: u16,
    pub error: &'static str,
}

/// Answers `DELETE /cache`: the platform's cache cannot be flushed.
pub fn cache_delete_handler() -> (answer: ErrorResponse)
    ensures
        answer.status == 501,
        answer.error@
            == "Bulk cache invalidation is not supported in the Workers runtime. Entries expire via Cache-Control max-age."@,
{
    ErrorResponse {
        status: 501,
        error: "Bulk cache invalidation is not supported in the Workers runtime. Entries expire via Cache-Control max-age.",
    }
}

/// A slash more at the end of a path makes no difference to what the request is for.
pub proof fn law_trailing_slash_is_ignored(method: Seq<char>, path: Seq<char>)
    ensures
        route(method, path.push('/')) == route(method, path),
{
    assert(path.push('/').drop_last() =~= path);
}

/// Batch lookups, requests for `/me` and requests with `no-cache` are neither looked up nor
/// stored, and nothing is stored but a plain success that is not larger than the limit.
pub proof fn law_what_is_cached(config: Config, req: Request, answer: Answer)
    ensures
        plan_for(config, req).cacheable ==> !req.is_post() && !req.is_me() && !req.no_cache(),
        answer.stored(config, plan_for(config, req)) matches Some(stored) ==> {
            &&& plan_for(config, req).cacheable
            &&& answer.status == 200
            &&& stored.body.len() <= config.cache_max_body_bytes
        },
{
}

/// A stored answer is what its client got, and it is stored under what later requests for the
/// same look up, by clients with the same path and query.
pub proof fn law_stored_is_looked_up(config: Config, req: Request, answer: Answer, later: Request)
    requires
        later.target() == req.target(),
    ensures
        answer.stored(config, plan_for(config, req)) matches Some(stored) ==> {
            &&& stored.url == plan_for(config, later).upstream_url
            &&& stored.body == answer.passed_on(config, plan_for(config, req)).body
            &&& Some(stored.content_type) == answer.passed_on(
                config,
                plan_for(config, req),
            ).content_type
        },
{
}

/// A request is answered 503, with the cooldown in `retry-after`, exactly if all keys are cooling
/// down. Otherwise the upstream is asked with an available key.
pub proof fn law_exhausted_keys_are_answered_503(
    state: AppView,
    plan: PlanView,
    body: Seq<u8>,
    started: u128,
    now: u128,
)
    requires
        state.valid(),
    ensures
        state.next(plan, body, started, now) is Exhausted <==> forall|slot: int|
            0 <= slot < state.rotator.ring.slots.len() ==> !(
            #[trigger] state.rotator.ring.slots[slot]).available(now),
        state.next(plan, body, started, now) matches NextView::Exhausted(reply, point) ==> {
            &&& reply.status == 503
            &&& reply.retry_after == Some(text::numeral(state.config.cooldown_seconds as nat))
            &&& point.doubles[2] == 0
            &&& point.doubles[5] == -1
        },
        state.next(plan, body, started, now) matches NextView::Upstream(ask) ==> {
            &&& 0 <= ask.slot < state.rotator.ring.slots.len()
            &&& state.rotator.ring.slots[ask.slot].available(now)
            &&& ask.key == state.rotator.ring.slots[ask.slot].key
            &&& ask.authorization == "Bearer "@ + ask.key
        },
{
    crate::rotator::law_choice_is_available(state.rotator.ring, now);
}

/// A key that the upstream refused is not used again until its cooldown is over, if it is
/// configured only once; no other answer lets a key rest.
pub proof fn law_refused_key_rests(
    state: AppView,
    key: Seq<char>,
    status: u16,
    refused: u128,
    plan: PlanView,
    body: Seq<u8>,
    started: u128,
    now: u128,
)
    requires
        state.valid(),
        refused <= LAST_TICK,
        refused <= now < refused + state.rotator.ring.cooldown_seconds * crate::clock::SECOND,
        forall|i: int, j: int|
            0 <= i < j < state.rotator.ring.slots.len() ==> (
            #[trigger] state.rotator.ring.slots[i]).key != (
            #[trigger] state.rotator.ring.slots[j]).key,
    ensures
        status == 429 || status == 401 ==> (state.after_head(key, status, refused).next(
            plan,
            body,
            started,
            now,
        ) matches NextView::Upstream(ask) ==> ask.key != key),
        status != 429 && status != 401 ==> state.after_head(key, status, refused) == state,
{
    crate::rotator::law_cooling_key_is_skipped(state.rotator.ring, key, refused, now);
}

impl AppView {
    /// Whether cooldowns are measured on the clock that requests come in by.
    pub open spec fn one_clock(self) -> bool {
        self.rotator.one_clock() && self.rotator.clock == self.clock
    }
}

/// All starts on one clock, and every step measures time on that clock and keeps it.
pub proof fn law_clock_is_kept(
    config: Config,
    state: AppView,
    key: Seq<char>,
    status: u16,
    now: u128,
)
    ensures
        fresh_app(config, state.clock).one_clock(),
        state.after_ask(now).clock == state.clock,
        state.after_head(key, status, now).clock == state.clock,
        state.one_clock() ==> state.after_ask(now).one_clock(),
        state.one_clock() ==> state.after_head(key, status, now).one_clock(),
{
    crate::worker::rotator::law_clock_is_kept(
        text::texts(config.keys@),
        config.cooldown_seconds,
        state.clock,
        state.rotator,
        key,
        now,
    );
}

/// A start with at least one key is valid, and every step leaves the state valid.
pub proof fn law_state_stays_valid(
    config: Config,
    state: AppView,
    key: Seq<char>,
    status: u16,
    now: u128,
)
    requires
        config.keys@.len() > 0,
        state.valid(),
    ensures
        fresh_app(config, state.clock).valid(),
        state.after_ask(now).valid(),
        state.after_head(key, status, now).valid(),
{
    crate::worker::rotator::law_use_is_counted(state.rotator, key, now);
    crate::rotator::law_marking_touches_one_slot(state.rotator.ring, key, now);
}

/// What the steps hand out, and what the state holds, are their fields.
pub proof fn law_steps_hold_their_fields(
    point: DataPoint,
    plan: Plan,
    ask: Ask,
    next: Next,
    stored: Stored,
    store: Option<Stored>,
    state: AppState,
)
    ensures
        point@.index == point.index@,
        point@.doubles.len() == point.doubles@.len(),
        forall|i: int|
            0 <= i < point.doubles@.len() ==> #[trigger] point@.doubles[i] == point.doubles@[i],
        plan@.kind == plan.kind@,
        plan@.upstream_url == plan.upstream_url@,
        plan@.is_post == plan.is_post,
        plan@.is_me == plan.is_me,
        plan@.cacheable == plan.cacheable,
        ask@.method == ask.method@,
        ask@.url == ask.url@,
        ask@.authorization == ask.authorization@,
        ask@.accept == ask.accept@,
        ask.body matches Some(body) ==> ask@.body == Some(body@),
        ask.body is None ==> ask@.body is None,
        ask@.slot == ask.slot,
        ask@.key == ask.key@,
        match next {
            Next::Upstream(asked) => next@ == NextView::Upstream(asked@),
            Next::Exhausted(reply, told) => next@ == NextView::Exhausted(reply@, told@),
        },
        stored@.url == stored.url@,
        stored@.content_type == stored.content_type@,
        stored@.cache_control == stored.cache_control@,
        stored@.body == stored.body@,
        store is None <==> store_view(store) is None,
        store matches Some(kept) ==> store_view(store) == Some(kept@),
        state@.config == state.config,
        state@.rotator == state.rotator@,
        state@.clock == state.clock,
{
}

/// Whether `path` is `start` with nothing but slashes behind it.
spec fn slashes_after(path: Seq<char>, start: Seq<char>) -> bool {
    &&& start.len() <= path.len()
    &&& path.take(start.len() as int) == start
    &&& forall|i: int| start.len() <= i < path.len() ==> #[trigger] path[i] == '/'
}

proof fn lemma_trimmed_path(path: Seq<char>, start: Seq<char>)
    requires
        start.len() > 0,
        start.last() != '/',
    ensures
        text::without_trailing(path, '/') == start <==> slashes_after(path, start),
{
    let rest = text::without_trailing(path, '/');
    text::law_only_trailing_is_taken(path, '/');
    if slashes_after(path, start) {
        let n = start.len() as int;
        assert(path[n - 1] == path.take(n)[n - 1]);
        if rest.len() > n {
            assert(rest.last() == path[rest.len() - 1]);
        }
        if rest.len() < n {
            assert(path[n - 1] == '/');
        }
        assert(rest =~= start);
    }
}

/// A request is for an internal endpoint exactly if it has the method and the path of it, with
/// slashes behind the path or without; every other request is proxied.
pub proof fn law_internal_endpoints_are_their_paths(method: Seq<char>, path: Seq<char>)
    ensures
        ({
            let is = |start: Seq<char>|
                start.len() <= path.len() && path.take(start.len() as int) == start && forall|i: int|
                    start.len() <= i < path.len() ==> #[trigger] path[i] == '/';
            &&& route(method, path) == Route::Health <==> method == "GET"@ && is("/health"@)
            &&& route(method, path) == Route::Stats <==> method == "GET"@ && is("/stats"@)
            &&& route(method, path) == Route::CacheDelete <==> method == "DELETE"@ && is("/cache"@)
        }),
{
    reveal_strlit("GET");
    reveal_strlit("DELETE");
    reveal_strlit("/health");
    reveal_strlit("/stats");
    reveal_strlit("/cache");
    assert("GET"@.len() != "DELETE"@.len());
    assert("/health"@.len() != "/stats"@.len());
    lemma_trimmed_path(path, "/health"@);
    lemma_trimmed_path(path, "/stats"@);
    lemma_trimmed_path(path, "/cache"@);
}

/// The type of a path is told by the method, then by `/me`, then by the number of its filled
/// pieces between slashes: the root has no path but a slash, a field has two pieces or more.
pub proof fn law_path_type_is_told_by_its_pieces(
    path: Seq<char>,
    is_post_batch: bool,
    is_me: bool,
    filled: spec_fn(Seq<char>) -> bool,
)
    requires
        forall|piece: Seq<char>| #[trigger] filled(piece) == (piece.len() > 0),
    ensures
        is_post_batch ==> path_type(path, is_post_batch, is_me) == "batch"@,
        !is_post_batch && is_me ==> path_type(path, is_post_batch, is_me) == "me"@,
        !is_post_batch && !is_me && (path == "/"@ || path == Seq::<char>::empty()) ==> path_type(
            path,
            is_post_batch,
            is_me,
        ) == "root"@,
        !is_post_batch && !is_me && path != "/"@ && path != Seq::<char>::empty() ==> path_type(
            path,
            is_post_batch,
            is_me,
        ) == if text::split(path, '/').filter(filled).len() >= 2 {
            "ip_field"@
        } else {
            "ip"@
        },
{
    text::law_filled_pieces_are_counted(text::split(path, '/'), filled);
    if path.len() == 0 {
        assert(path =~= Seq::empty());
    }
}

/// A report tells, in this order, the status, whether the answer came from the cache, whether the
/// upstream was asked, whether a key was put to rest, the size of the answer, the slot of the key or
/// -1, and the whole milliseconds that passed, as far as they can be counted.
pub proof fn law_report_tells_what_happened(
    kind: Seq<char>,
    event: Event,
    started: u128,
    now: u128,
    ms: int,
)
    requires
        started <= now,
        ms * 1_000_000 <= now - started < (ms + 1) * 1_000_000,
    ensures
        ({
            let point = report(kind, event, started, now);
            &&& point.index == kind
            &&& point.doubles.len() == 7
            &&& point.doubles[0] == event.status
            &&& point.doubles[1] == if event.cache_hit {
                1int
            } else {
                0
            }
            &&& point.doubles[2] == if event.upstream {
                1int
            } else {
                0
            }
            &&& point.doubles[3] == if event.cooldown {
                1int
            } else {
                0
            }
            &&& point.doubles[4] == event.bytes
            &&& event.slot matches Some(slot) ==> point.doubles[5] == slot
            &&& event.slot is None ==> point.doubles[5] == -1
            &&& ms <= u64::MAX ==> point.doubles[6] == ms
            &&& ms > u64::MAX ==> point.doubles[6] == u64::MAX
        }),
        ms <= u64::MAX ==> latency(started, now) == ms,
        ms > u64::MAX ==> latency(started, now) == u64::MAX,
{
}

/// A clock that went back counts as no time passed, and the rest of a report does not depend on
/// the time.
pub proof fn law_time_is_only_in_the_latency(
    kind: Seq<char>,
    event: Event,
    started: u128,
    now: u128,
    later: u128,
)
    ensures
        now < started ==> report(kind, event, started, now).doubles[6] == 0,
        now < started ==> latency(started, now) == 0,
        report(kind, event, started, now).index == report(kind, event, later, later).index,
        report(kind, event, started, now).doubles.len() == 7,
        forall|i: int|
            0 <= i < 6 ==> #[trigger] report(kind, event, started, now).doubles[i] == report(
                kind,
                event,
                later,
                later,
            ).doubles[i],
{
}

/// A plan asks the upstream for the client's own path and query behind the base URL, under the type
/// of its path; and a request may be cached exactly if it is no batch lookup, does not ask for
/// `/me`, and has `no-cache` nowhere in its `cache-control` header.
pub proof fn law_plan_is_for_what_the_client_asked(config: Config, req: Request)
    ensures
        ({
            let plan = plan_for(config, req);
            &&& plan.is_post <==> req.method@ == "POST"@
            &&& plan.is_me <==> req.path@ == "/me"@
            &&& plan.kind == path_type(req.path@, req.method@ == "POST"@, req.path@ == "/me"@)
            &&& req.query is None ==> plan.upstream_url == config.ipinfo_base_url@ + req.path@
            &&& req.query matches Some(query) ==> plan.upstream_url == config.ipinfo_base_url@ + (
            req.path@ + "?"@ + query@)
            &&& req.cache_control is None ==> (plan.cacheable <==> req.method@ != "POST"@
                && req.path@ != "/me"@)
            &&& req.cache_control matches Some(header) ==> (plan.cacheable <==> req.method@
                != "POST"@ && req.path@ != "/me"@ && !exists|before: Seq<char>, after: Seq<char>|
                header@ == #[trigger] (before + "no-cache"@ + after))
        }),
{
    if let Some(header) = req.cache_control {
        text::law_part_stands_between(header@, "no-cache"@);
    }
}

/// Under one base URL, the upstream URL, under which answers are stored, tells the paths with their
/// queries apart.
pub proof fn law_upstream_url_tells_targets_apart(config: Config, a: Request, b: Request)
    ensures
        plan_for(config, a).upstream_url == plan_for(config, b).upstream_url <==> a.target()
            == b.target(),
{
    let base = config.ipinfo_base_url@;
    if plan_for(config, a).upstream_url == plan_for(config, b).upstream_url {
        assert(a.target() =~= plan_for(config, a).upstream_url.skip(base.len() as int));
        assert(b.target() =~= plan_for(config, b).upstream_url.skip(base.len() as int));
    }
}

/// A hit is reported with the status and the size of the cached answer, as no call and with no key.
pub proof fn law_hit_is_reported_as_such(
    plan: PlanView,
    status: u16,
    bytes: usize,
    started: u128,
    now: u128,
)
    ensures
        ({
            let point = hit_report(plan, status, bytes, started, now);
            &&& point.index == plan.kind
            &&& point.doubles.len() == 7
            &&& point.doubles[0] == status
            &&& point.doubles[1] == 1
            &&& point.doubles[2] == 0
            &&& point.doubles[3] == 0
            &&& point.doubles[4] == bytes
            &&& point.doubles[5] == -1
            &&& point.doubles[6] == latency(started, now)
        }),
{
}

/// The upstream is asked with the method of the plan, for its URL, with the key whose turn it is as
/// bearer token, and with the client's body exactly if it is a batch lookup that has one.
pub proof fn law_upstream_is_asked_what_was_planned(
    state: AppView,
    plan: PlanView,
    body: Seq<u8>,
    started: u128,
    now: u128,
)
    ensures
        state.next(plan, body, started, now) is Upstream <==> state.rotator.next_key(now) is Some,
        state.next(plan, body, started, now) matches NextView::Upstream(ask) ==> {
            &&& plan.is_post ==> ask.method == "POST"@
            &&& !plan.is_post ==> ask.method == "GET"@
            &&& ask.url == plan.upstream_url
            &&& state.rotator.next_key(now) == Some((ask.slot, ask.key))
            &&& ask.authorization == "Bearer "@ + ask.key
            &&& ask.accept == "application/json"@
            &&& plan.is_post && body.len() > 0 ==> ask.body == Some(body)
            &&& !plan.is_post || body.len() == 0 ==> ask.body is None
        },
        state.after_ask(now).rotator == state.rotator.advanced(now),
        state.after_ask(now).config == state.config,
{
}

/// Where no key is available, the answer is 503 with the text that says so and the cooldown, and it
/// is reported with the size of that text.
pub proof fn law_missing_key_is_told(
    state: AppView,
    plan: PlanView,
    body: Seq<u8>,
    started: u128,
    now: u128,
)
    requires
        state.rotator.next_key(now) is None,
    ensures
        state.next(plan, body, started, now) matches NextView::Exhausted(reply, point) && {
            let text = vstd::utf8::encode_utf8(
                "All API keys are rate limited. Try again later."@,
            );
            &&& reply.status == 503
            &&& reply.body == text
            &&& reply.content_type is None
            &&& reply.retry_after == Some(text::numeral(state.config.cooldown_seconds as nat))
            &&& point.index == plan.kind
            &&& point.doubles.len() == 7
            &&& point.doubles[0] == 503
            &&& point.doubles[1] == 0
            &&& point.doubles[2] == 0
            &&& point.doubles[3] == 0
            &&& text.len() <= usize::MAX ==> point.doubles[4] == text.len()
            &&& point.doubles[5] == -1
            &&& point.doubles[6] == latency(started, now)
        },
{
}

/// A refusal, by 401 or by 429, puts the key that was used to rest and does nothing else.
pub proof fn law_refusal_rests_the_used_key(
    state: AppView,
    key: Seq<char>,
    status: u16,
    now: u128,
)
    requires
        status == 401 || status == 429,
    ensures
        state.after_head(key, status, now).rotator == state.rotator.cooled(key, now),
        state.after_head(key, status, now).config == state.config,
{
}

/// The client gets the upstream's status and content type, that of JSON where there is none, and
/// the upstream's body, but that the key in an answer to `/me` is redacted where that is asked for.
pub proof fn law_answer_is_passed_on(config: Config, plan: PlanView, answer: Answer)
    ensures
        ({
            let reply = answer.passed_on(config, plan);
            &&& reply.status == answer.status
            &&& answer.content_type matches Some(content_type) ==> reply.content_type == Some(
                content_type@,
            )
            &&& answer.content_type is None ==> reply.content_type == Some("application/json"@)
            &&& reply.retry_after is None
            &&& !config.redact_keys || !plan.is_me ==> reply.body == answer.body@
            &&& config.redact_keys && plan.is_me ==> reply.body == json::redacted_body(answer.body@)
        }),
{
}

/// An answer is stored exactly if its plan allows it, it is a plain success, and what is passed on
/// is not larger than the limit; it is stored under the URL of the plan, as it is passed on, for
/// the time-to-live.
pub proof fn law_stored_is_what_is_passed_on(config: Config, plan: PlanView, answer: Answer)
    ensures
        answer.stored(config, plan) is Some <==> plan.cacheable && answer.status == 200
            && answer.passed_on(config, plan).body.len() <= config.cache_max_body_bytes,
        answer.stored(config, plan) matches Some(stored) ==> {
            &&& stored.url == plan.upstream_url
            &&& Some(stored.content_type) == answer.passed_on(config, plan).content_type
            &&& stored.cache_control == "max-age="@ + text::numeral(config.cache_ttl_seconds as nat)
            &&& stored.body == answer.passed_on(config, plan).body
        },
{
}

/// An answer of the upstream is reported with its status, the size of what is passed on, the slot of
/// the key that was used, and whether that key was put to rest.
pub proof fn law_answer_is_reported(
    config: Config,
    plan: PlanView,
    answer: Answer,
    slot: usize,
    cooldown: bool,
    started: u128,
    now: u128,
)
    ensures
        ({
            let point = answer.reported(config, plan, slot, cooldown, started, now);
            let size = answer.passed_on(config, plan).body.len();
            &&& point.index == plan.kind
            &&& point.doubles.len() == 7
            &&& point.doubles[0] == answer.status
            &&& point.doubles[1] == 0
            &&& point.doubles[2] == 1
            &&& point.doubles[3] == if cooldown {
                1int
            } else {
                0
            }
            &&& size <= usize::MAX ==> point.doubles[4] == size
            &&& point.doubles[5] == slot
            &&& point.doubles[6] == latency(started, now)
        }),
{
}

/// All starts with a rotator over the keys, by the settings; and the proxy is all right as long as a
/// key is active.
pub proof fn law_start_is_by_the_settings(config: Config, clock: Clock, keys: RotatorStats)
    ensures
        fresh_app(config, clock).config == config,
        fresh_app(config, clock).rotator == crate::worker::rotator::fresh_rotator(
            text::texts(config.keys@),
            config.cooldown_seconds,
            clock,
        ),
        fresh_app(config, clock).clock == clock,
        keys.active > 0 ==> health_status(keys) == "ok"@,
        keys.active == 0 ==> health_status(keys) == "degraded"@,
{
}

} // verus!
