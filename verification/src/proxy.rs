//! The proxy of the server: what is answered from the cache, what is asked of the upstream and
//! with which key, and what becomes of the upstream's answer.
//!
//! A proxied request goes through these steps. [`AppState::begin`] answers it or says what to
//! ask of the upstream. [`unreadable_body`] answers it if its body cannot be read.
//! [`AppState::fail`] answers it if the upstream cannot be asked. [`AppState::head`] takes note
//! of the status of the upstream's answer, and [`AppState::finish`] passes the answer on.

use vstd::prelude::*;

use crate::cache::{Cache, CacheView};
use crate::clock::{Clock, LAST_TICK};
use crate::config::Config;
use crate::flights::{Flights, FlightsView};
use crate::http::{self, Reply, ReplyView};
use crate::json;
use crate::rotator::{Rotator, RotatorView};
use crate::stats::{self, HealthResponse, Stats, StatsResponse};
use crate::text;

verus! {

/// The largest request body that is passed on, in bytes.
pub const BODY_LIMIT: usize = 1_048_576;

/// A request of a client, as far as the proxy looks at it.
pub struct Request {
    pub method: String,
    pub path: String,
    pub path_and_query: Option<String>,
    /// The raw value of the header `cache-control`.
    pub cache_control: Option<Vec<u8>>,
    /// The raw value of the header `content-type`.
    pub content_type: Option<Vec<u8>>,
}

/// The content type of a header, or that of JSON where there is none.
pub open spec fn content_type_of(header: Option<Vec<u8>>) -> Seq<char> {
    match http::header_text(header) {
        Some(text) => text,
        None => "application/json"@,
    }
}

/// Whether a header asks for an answer that is not from the cache.
pub open spec fn bypasses_cache(header: Option<Seq<char>>) -> bool {
    match header {
        Some(text) => text::has_part(text, "no-cache"@),
        None => false,
    }
}

impl Request {
    /// The path with the query.
    pub open spec fn target(self) -> Seq<char> {
        match self.path_and_query {
            Some(target) => target@,
            None => "/"@,
        }
    }

    /// The key of the request in the cache: method, path and query.
    pub open spec fn cache_key(self) -> Seq<char> {
        self.method@ + ":"@ + self.target()
    }

    /// Whether the request is a batch lookup.
    pub open spec fn is_post(self) -> bool {
        self.method@ == "POST"@
    }

    /// Whether the request asks for the API key and its usage.
    pub open spec fn is_me(self) -> bool {
        self.path@ == "/me"@
    }

    /// Whether the client wants no cached answer.
    pub open spec fn no_cache(self) -> bool {
        bypasses_cache(http::header_text(self.cache_control))
    }

    /// Whether the request may be answered from the cache and its answer may be stored there.
    pub open spec fn cacheable(self) -> bool {
        !self.is_post() && !self.is_me() && !self.no_cache()
    }
}

/// What is to be asked of the upstream.
pub struct UpstreamRequest {
    pub method: String,
    pub url: String,
    pub authorization: String,
    pub accept: &'static str,
    /// The content type of the body. Without it, no body is sent.
    pub content_type: Option<String>,
}

/// What an [`UpstreamRequest`] holds.
pub struct UpstreamView {
    pub method: Seq<char>,
    pub url: Seq<char>,
    pub authorization: Seq<char>,
    pub accept: Seq<char>,
    pub content_type: Option<Seq<char>>,
}

impl View for UpstreamRequest {
    type V = UpstreamView;

    open spec fn view(&self) -> UpstreamView {
        UpstreamView {
            method: self.method@,
            url: self.url@,
            authorization: self.authorization@,
            accept: self.accept@,
            content_type: text::text_given(self.content_type),
        }
    }
}

/// A request that waits for the upstream.
pub struct Pending {
    pub cache_key: String,
    /// The API key that is used.
    pub key: String,
    /// Whether the answer may be stored in the cache, and is shared with those who wait for it.
    pub cacheable: bool,
    pub is_me: bool,
}

/// What a [`Pending`] holds.
pub struct PendingView {
    pub cache_key: Seq<char>,
    pub key: Seq<char>,
    pub cacheable: bool,
    pub is_me: bool,
}

impl View for Pending {
    type V = PendingView;

    open spec fn view(&self) -> PendingView {
        PendingView {
            cache_key: self.cache_key@,
            key: self.key@,
            cacheable: self.cacheable,
            is_me: self.is_me,
        }
    }
}

/// How a request goes on after it came in.
pub enum Begin {
    /// It is answered.
    Answer(Reply),
    /// It gets the answer to a request for the same that is under way, by its ticket.
    Wait(u64),
    /// The upstream is asked.
    Ask(UpstreamRequest, Pending),
}

/// What a [`Begin`] holds.
pub enum BeginView {
    Answer(ReplyView),
    Wait(u64),
    Ask(UpstreamView, PendingView),
}

impl View for Begin {
    type V = BeginView;

    open spec fn view(&self) -> BeginView {
        match *self {
            Begin::Answer(reply) => BeginView::Answer(reply@),
            Begin::Wait(ticket) => BeginView::Wait(ticket),
            Begin::Ask(upstream, pending) => BeginView::Ask(upstream@, pending@),
        }
    }
}

/// The end of a pending request: its answer, and the tickets of those who get the same answer.
pub struct Done {
    pub reply: Reply,
    pub waiting: Vec<u64>,
}

/// What the server keeps between requests.
pub struct AppState {
    pub config: Config,
    pub rotator: Rotator,
    pub cache: Cache,
    pub stats: Stats,
    pub flights: Flights,
    pub clock: Clock,
}

/// What an [`AppState`] holds.
pub struct AppView {
    pub config: Config,
    pub rotator: RotatorView,
    pub cache: CacheView,
    pub stats: Stats,
    pub flights: FlightsView,
    pub clock: Clock,
}

impl View for AppState {
    type V = AppView;

    open spec fn view(&self) -> AppView {
        AppView {
            config: self.config,
            rotator: self.rotator@,
            cache: self.cache@,
            stats: self.stats,
            flights: self.flights@,
            clock: self.clock,
        }
    }
}

/// The state of a server that has just been started and measures time on `clock`.
pub open spec fn fresh_app(config: Config, clock: Clock) -> AppView {
    AppView {
        config,
        rotator: crate::rotator::fresh_rotator(
            text::texts(config.keys@),
            config.cooldown_seconds,
            clock,
        ),
        cache: crate::cache::empty_cache(
            config.cache_ttl_seconds,
            config.cache_max_entries,
            clock,
        ),
        stats: stats::zero_stats(),
        flights: crate::flights::no_flights(),
        clock,
    }
}

/// The answer when all keys are cooling down.
pub open spec fn exhausted(config: Config) -> ReplyView {
    http::retry_response(
        503,
        "All API keys are rate limited. Try again later."@,
        config.cooldown_seconds,
    )
}

/// What is asked of the upstream for `req`, with `key`.
pub open spec fn upstream_request(config: Config, req: Request, key: Seq<char>) -> UpstreamView {
    UpstreamView {
        method: req.method@,
        url: config.ipinfo_base_url@ + req.target(),
        authorization: "Bearer "@ + key,
        accept: "application/json"@,
        content_type: if req.is_post() {
            Some(content_type_of(req.content_type))
        } else {
            None
        },
    }
}

impl AppView {
    /// The cached response that answers `req` at `now`, if there is one.
    pub open spec fn cached(self, req: Request, now: u128) -> Option<crate::cache::EntryView> {
        if req.cacheable() {
            self.cache.found(req.cache_key(), now)
        } else {
            None
        }
    }

    /// The state after `req` was counted and looked up in the cache at `now`.
    pub open spec fn looked_up(self, req: Request, now: u128) -> AppView {
        AppView {
            stats: Stats {
                requests_total: stats::bump(self.stats.requests_total),
                ..self.stats
            },
            cache: if req.cacheable() {
                self.cache.after_get(req.cache_key(), now)
            } else {
                self.cache
            },
            ..self
        }
    }

    /// Whether `req` waits for a call that is under way.
    pub open spec fn coalesces(self, req: Request) -> bool {
        req.cacheable() && self.flights.flying(req.cache_key())
    }

    /// The flights after `req` was taken to the upstream or made to wait.
    pub open spec fn flights_with(self, req: Request) -> FlightsView {
        if req.cacheable() {
            self.flights.joined(req.cache_key())
        } else {
            self.flights
        }
    }

    /// How `req` goes on when it comes in at `now`.
    pub open spec fn beginning(self, req: Request, now: u128) -> BeginView {
        match self.cached(req, now) {
            Some(entry) => BeginView::Answer(
                http::response(entry.status, entry.content_type, entry.body),
            ),
            None => if self.coalesces(req) {
                BeginView::Wait(self.flights.next_ticket)
            } else {
                match self.rotator.next_key(now) {
                    None => BeginView::Answer(exhausted(self.config)),
                    Some(key) => BeginView::Ask(
                        upstream_request(self.config, req, key),
                        PendingView {
                            cache_key: req.cache_key(),
                            key,
                            cacheable: req.cacheable(),
                            is_me: req.is_me(),
                        },
                    ),
                }
            },
        }
    }

    /// The state after `req` came in at `now`.
    pub open spec fn begun(self, req: Request, now: u128) -> AppView {
        let next = self.looked_up(req, now);
        if self.cached(req, now) is Some {
            AppView {
                stats: Stats {
                    requests_cached: stats::bump(self.stats.requests_cached),
                    ..next.stats
                },
                ..next
            }
        } else if self.coalesces(req) {
            AppView { flights: self.flights_with(req), ..next }
        } else if self.rotator.next_key(now) is None {
            AppView {
                stats: Stats {
                    keys_exhausted: stats::bump(self.stats.keys_exhausted),
                    ..next.stats
                },
                rotator: self.rotator.advanced(),
                ..next
            }
        } else {
            AppView {
                rotator: self.rotator.advanced(),
                flights: self.flights_with(req),
                ..next
            }
        }
    }

    /// The state after the upstream's status for a pending request was seen at `now`: a key that
    /// was refused rests.
    pub open spec fn after_head(self, pending: PendingView, status: u16, now: u128) -> AppView {
        if http::refused(status) {
            AppView { rotator: self.rotator.cooled(pending.key, now), ..self }
        } else {
            self
        }
    }

    /// The flights after a pending request came to its end.
    pub open spec fn flights_without(self, pending: PendingView) -> FlightsView {
        if pending.cacheable {
            self.flights.landed(pending.cache_key)
        } else {
            self.flights
        }
    }

    /// The tickets of those who wait for a pending request.
    pub open spec fn waiting_for(self, pending: PendingView) -> Seq<u64> {
        if pending.cacheable {
            self.flights.waiting(pending.cache_key)
        } else {
            Seq::empty()
        }
    }

    /// The state after a pending request failed.
    pub open spec fn failed(self, pending: PendingView) -> AppView {
        AppView {
            stats: Stats {
                upstream_errors: stats::bump(self.stats.upstream_errors),
                ..self.stats
            },
            flights: self.flights_without(pending),
            ..self
        }
    }

    /// The body that is passed on for a pending request: a token in it is redacted where that
    /// is asked for.
    pub open spec fn shown_body(self, pending: PendingView, body: Seq<u8>) -> Seq<u8> {
        if self.config.redact_keys && pending.is_me {
            json::redacted_body(body)
        } else {
            body
        }
    }

    /// Whether the upstream's answer to a pending request is stored in the cache: a success, and
    /// not too large.
    pub open spec fn storable(self, pending: PendingView, status: u16, body: Seq<u8>) -> bool {
        &&& pending.cacheable
        &&& http::success(status)
        &&& self.shown_body(pending, body).len() <= self.config.cache_max_body_bytes
    }
}

/// Whether the end of a pending request with the upstream's answer, at `now`, can leave the
/// state `after`.
pub open spec fn finishes_to(
    before: AppView,
    pending: PendingView,
    status: u16,
    content_type: Seq<char>,
    body: Seq<u8>,
    now: u128,
    after: AppView,
) -> bool {
    &&& after.config == before.config
    &&& after.clock == before.clock
    &&& after.rotator == before.rotator
    &&& after.stats == (Stats {
        requests_proxied: stats::bump(before.stats.requests_proxied),
        ..before.stats
    })
    &&& after.flights == before.flights_without(pending)
    &&& if before.storable(pending, status, body) {
        crate::cache::stores_to(
            before.cache,
            pending.cache_key,
            crate::cache::fresh_entry(
                before.shown_body(pending, body),
                content_type,
                status,
                now,
            ),
            after.cache,
        )
    } else {
        after.cache == before.cache
    }
}

/// Reads a content type, or takes that of JSON where there is none.
pub fn content_type_or_json(header: &Option<Vec<u8>>) -> (content_type: String)
    ensures
        content_type@ == content_type_of(*header),
{
    match http::read_header(header) {
        Some(text) => text,
        None => "application/json".to_owned(),
    }
}

impl Request {
    fn target_text(&self) -> (target: &str)
        ensures
            target@ == self.target(),
    {
        match &self.path_and_query {
            Some(target) => target.as_str(),
            None => "/",
        }
    }

    fn wants_no_cache(&self) -> (yes: bool)
        ensures
            yes == self.no_cache(),
    {
        match http::read_header(&self.cache_control) {
            Some(text) => text::contains(text.as_str(), "no-cache"),
            None => false,
        }
    }
}

/// The answer to a request whose body cannot be read.
pub fn unreadable_body() -> (reply: Reply)
    ensures
        reply@ == http::text_response(400, "Failed to read request body"@),
{
    http::build_text_response(400, "Failed to read request body")
}

impl AppState {
    /// The clock that time is measured on.
    pub open spec fn clock(&self) -> Clock {
        self@.clock
    }

    /// The state of a server that starts with `config`.
    pub fn new(config: Config) -> (state: AppState)
        ensures
            state@ == fresh_app(config, state.clock()),
    {
        let clock = Clock::start();
        let keys = config.keys.clone();
        assert(text::texts(keys@) =~= text::texts(config.keys@));
        AppState {
            rotator: Rotator::on_clock(keys, config.cooldown_seconds, clock),
            cache: Cache::on_clock(config.cache_ttl_seconds, config.cache_max_entries, clock),
            stats: Stats::new(),
            flights: Flights::new(),
            config,
            clock,
        }
    }

    /// Takes in a request, by the clock.
    pub fn begin(&mut self, req: &Request) -> (begin: Begin)
        requires
            old(self)@.rotator.slots.len() > 0,
        ensures
            exists|now: u128|
                now <= LAST_TICK && old(self).clock().reads(now) && begin@
                    == #[trigger] old(self)@.beginning(*req, now) && final(self)@ == old(
                    self,
                )@.begun(*req, now),
            final(self).clock() == old(self).clock(),
    {
        let now: u128 = self.clock.now();
        self.begin_at(req, now)
    }

    /// Takes in a request at `now`.
    pub fn begin_at(&mut self, req: &Request, now: u128) -> (begin: Begin)
        requires
            old(self)@.rotator.slots.len() > 0,
        ensures
            begin@ == old(self)@.beginning(*req, now),
            final(self)@ == old(self)@.begun(*req, now),
            final(self).clock() == old(self).clock(),
    {
        self.stats.inc_total();
        let mut cache_key = text::joined(req.method.as_str(), ":");
        cache_key.append(req.target_text());
        let is_post = text::same(req.method.as_str(), "POST");
        let is_me = text::same(req.path.as_str(), "/me");
        let cacheable = !is_post && !is_me && !req.wants_no_cache();
        if cacheable {
            match self.cache.get_at(cache_key.as_str(), now) {
                Some(entry) => {
                    self.stats.inc_cached();
                    return Begin::Answer(
                        http::build_response(
                            entry.status,
                            entry.content_type.as_str(),
                            entry.body,
                        ),
                    );
                },
                None => {},
            }
            match self.flights.follow(cache_key.as_str()) {
                Some(ticket) => {
                    return Begin::Wait(ticket);
                },
                None => {},
            }
        }
        let key = match self.rotator.next_key_at(now) {
            Some(key) => key,
            None => {
                self.stats.inc_keys_exhausted();
                return Begin::Answer(
                    http::build_retry_response(
                        503,
                        "All API keys are rate limited. Try again later.",
                        self.config.cooldown_seconds,
                    ),
                );
            },
        };
        if cacheable {
            self.flights.lead(cache_key.as_str());
        }
        let upstream = UpstreamRequest {
            method: req.method.clone(),
            url: text::joined(self.config.ipinfo_base_url.as_str(), req.target_text()),
            authorization: text::joined("Bearer ", key.as_str()),
            accept: "application/json",
            content_type: if is_post {
                Some(content_type_or_json(&req.content_type))
            } else {
                None
            },
        };
        Begin::Ask(upstream, Pending { cache_key, key, cacheable, is_me })
    }

    /// Takes note of the upstream's status for a pending request, by the clock.
    pub fn head(&mut self, pending: &Pending, status: u16)
        ensures
            exists|now: u128|
                now <= LAST_TICK && old(self).clock().reads(now) && final(self)@
                    == #[trigger] old(self)@.after_head(pending@, status, now),
            final(self).clock() == old(self).clock(),
    {
        let now: u128 = self.clock.now();
        self.head_at(pending, status, now);
    }

    /// Takes note of the upstream's status for a pending request at `now`.
    pub fn head_at(&mut self, pending: &Pending, status: u16, now: u128)
        requires
            now <= LAST_TICK,
        ensures
            final(self)@ == old(self)@.after_head(pending@, status, now),
            final(self).clock() == old(self).clock(),
    {
        if http::is_refused(status) {
            self.rotator.mark_cooldown_at(pending.key.as_str(), now);
        }
    }

    fn land(&mut self, pending: &Pending) -> (waiting: Vec<u64>)
        ensures
            final(self)@ == (AppView {
                flights: old(self)@.flights_without(pending@),
                ..old(self)@
            }),
            waiting@ == old(self)@.waiting_for(pending@),
    {
        if pending.cacheable {
            self.flights.land(pending.cache_key.as_str())
        } else {
            Vec::new()
        }
    }

    /// Ends a pending request for which the upstream could not be asked, or whose answer could
    /// not be read.
    pub fn fail(&mut self, pending: Pending) -> (done: Done)
        ensures
            final(self)@ == old(self)@.failed(pending@),
            final(self).clock() == old(self).clock(),
            done.reply@ == http::bare_response(502),
            done.waiting@ == old(self)@.waiting_for(pending@),
    {
        self.stats.inc_upstream_errors();
        let waiting = self.land(&pending);
        Done { reply: http::build_bare_response(502), waiting }
    }

    /// Ends a pending request with the upstream's answer, by the clock.
    pub fn finish(
        &mut self,
        pending: Pending,
        status: u16,
        content_type: &Option<Vec<u8>>,
        body: Vec<u8>,
    ) -> (done: Done)
        ensures
            exists|now: u128|
                now <= LAST_TICK && old(self).clock().reads(now) && #[trigger] finishes_to(
                    old(self)@,
                    pending@,
                    status,
                    content_type_of(*content_type),
                    body@,
                    now,
                    final(self)@,
                ),
            done.reply@ == http::response(
                status,
                content_type_of(*content_type),
                old(self)@.shown_body(pending@, body@),
            ),
            done.waiting@ == old(self)@.waiting_for(pending@),
            final(self).clock() == old(self).clock(),
    {
        let now: u128 = self.clock.now();
        self.finish_at(pending, status, content_type, body, now)
    }

    /// Ends a pending request with the upstream's answer at `now`.
    pub fn finish_at(
        &mut self,
        pending: Pending,
        status: u16,
        content_type: &Option<Vec<u8>>,
        body: Vec<u8>,
        now: u128,
    ) -> (done: Done)
        ensures
            finishes_to(
                old(self)@,
                pending@,
                status,
                content_type_of(*content_type),
                body@,
                now,
                final(self)@,
            ),
            done.reply@ == http::response(
                status,
                content_type_of(*content_type),
                old(self)@.shown_body(pending@, body@),
            ),
            done.waiting@ == old(self)@.waiting_for(pending@),
            final(self).clock() == old(self).clock(),
    {
        let content_type = content_type_or_json(content_type);
        let body = if self.config.redact_keys && pending.is_me {
            json::redact_token_field(body)
        } else {
            body
        };
        self.stats.inc_proxied();
        let waiting = self.land(&pending);
        if pending.cacheable && http::is_success(status) && body.len()
            <= self.config.cache_max_body_bytes {
            let copy = body.clone();
            assert(copy@ =~= body@);
            self.cache.insert_at(pending.cache_key, copy, content_type.clone(), status, now);
        }
        Done { reply: http::build_response(status, content_type.as_str(), body), waiting }
    }
}

/// Answers `GET /health`, by the clock.
pub fn health_handler(state: &AppState) -> (answer: HealthResponse)
    ensures
        exists|now: u128|
            now <= LAST_TICK && state.clock().reads(now) && answer.keys
                == #[trigger] state@.rotator.counts(now),
        answer.keys.total == state@.rotator.slots.len(),
        answer.status@ == stats::health_status(answer.keys),
{
    let now: u128 = state.clock.now();
    health_handler_at(state, now)
}

/// Answers `GET /health` at `now`.
pub fn health_handler_at(state: &AppState, now: u128) -> (answer: HealthResponse)
    ensures
        answer.keys == state@.rotator.counts(now),
        answer.keys.total == state@.rotator.slots.len(),
        answer.status@ == stats::health_status(state@.rotator.counts(now)),
{
    let keys = state.rotator.stats_at(now);
    HealthResponse { status: stats::health(keys), keys }
}

/// Answers `GET /stats`, by the clock.
pub fn stats_handler(state: &AppState) -> (answer: StatsResponse)
    ensures
        exists|now: u128|
            now <= LAST_TICK && state.clock().reads(now) && answer == stats::stats_report(
                state@.stats,
                state@.cache.summary(),
                #[trigger] state@.rotator.counts(now),
            ),
        answer.keys.total == state@.rotator.slots.len(),
        answer.cache.size == state@.cache.entries.len(),
{
    let now: u128 = state.clock.now();
    stats_handler_at(state, now)
}

/// Answers `GET /stats` at `now`.
pub fn stats_handler_at(state: &AppState, now: u128) -> (answer: StatsResponse)
    ensures
        answer == stats::stats_report(
            state@.stats,
            state@.cache.summary(),
            state@.rotator.counts(now),
        ),
        answer.keys.total == state@.rotator.slots.len(),
        answer.cache.size == state@.cache.entries.len(),
{
    StatsResponse {
        requests_total: state.stats.requests_total,
        requests_proxied: state.stats.requests_proxied,
        requests_cached: state.stats.requests_cached,
        upstream_errors: state.stats.upstream_errors,
        keys_exhausted: state.stats.keys_exhausted,
        cache: state.cache.stats(),
        keys: state.rotator.stats_at(now),
    }
}

/// Answers `DELETE /cache`: flushes the cache.
pub fn cache_delete_handler(state: &mut AppState) -> (reply: Reply)
    ensures
        final(state)@ == (AppView { cache: old(state)@.cache.flushed(), ..old(state)@ }),
        reply@ == http::bare_response(204),
        final(state).clock() == old(state).clock(),
{
    state.cache.clear();
    http::build_bare_response(204)
}

impl AppView {
    /// What holds of the state at all times: there is a key, the cache keeps to its capacity,
    /// and no two upstream calls for the same cache key are under way.
    pub open spec fn valid(self) -> bool {
        &&& self.rotator.slots.len() > 0
        &&& self.cache.valid()
        &&& self.cache.within_capacity()
        &&& self.flights.one_per_key()
    }
}

/// A server that starts with at least one key starts in a valid state, and every step of every
/// request leaves it valid.
pub proof fn law_state_stays_valid(
    state: AppView,
    req: Request,
    pending: PendingView,
    status: u16,
    content_type: Seq<char>,
    body: Seq<u8>,
    now: u128,
    after: AppView,
)
    requires
        state.valid(),
        finishes_to(state, pending, status, content_type, body, now, after),
    ensures
        state.config.keys@.len() > 0 ==> fresh_app(state.config, state.clock).valid(),
        state.begun(req, now).valid(),
        state.after_head(pending, status, now).valid(),
        state.failed(pending).valid(),
        after.valid(),
        (AppView { cache: state.cache.flushed(), ..state }).valid(),
{
    let key = req.cache_key();
    assert(crate::cache::Entries::empty().dom() =~= Set::empty());
    lemma_lookup_keeps_capacity(state.cache, key, now);
    crate::flights::law_one_call_per_key(state.flights, key);
    crate::flights::law_one_call_per_key(state.flights, pending.cache_key);
    crate::rotator::law_marking_touches_one_slot(state.rotator, pending.key, now);
    if state.storable(pending, status, body) {
        crate::cache::law_capacity(
            state.cache,
            pending.cache_key,
            crate::cache::fresh_entry(state.shown_body(pending, body), content_type, status, now),
            after.cache,
            now,
        );
    }
}

proof fn lemma_lookup_keeps_capacity(cache: CacheView, key: Seq<char>, now: u128)
    requires
        cache.valid(),
        cache.within_capacity(),
    ensures
        cache.after_get(key, now).valid(),
        cache.after_get(key, now).within_capacity(),
{
    let used = cache.entries[key].touched(now);
    assert(cache.entries.remove(key).dom() =~= cache.entries.dom().remove(key));
    assert(cache.entries.insert(key, used).dom() =~= cache.entries.dom().insert(key));
}

impl AppView {
    /// Whether cooldowns and time-to-live are measured on the clock that requests come in by.
    pub open spec fn one_clock(self) -> bool {
        self.rotator.clock == self.clock && self.cache.clock == self.clock
    }
}

/// A server starts on one clock, and every step of every request measures time on that clock and
/// keeps it.
pub proof fn law_clock_is_kept(
    state: AppView,
    req: Request,
    pending: PendingView,
    status: u16,
    content_type: Seq<char>,
    body: Seq<u8>,
    now: u128,
    after: AppView,
)
    requires
        finishes_to(state, pending, status, content_type, body, now, after),
    ensures
        fresh_app(state.config, state.clock).one_clock(),
        state.begun(req, now).clock == state.clock,
        state.after_head(pending, status, now).clock == state.clock,
        state.failed(pending).clock == state.clock,
        after.clock == state.clock,
        state.one_clock() ==> {
            &&& state.begun(req, now).one_clock()
            &&& state.after_head(pending, status, now).one_clock()
            &&& state.failed(pending).one_clock()
            &&& after.one_clock()
            &&& (AppView { cache: state.cache.flushed(), ..state }).one_clock()
        },
{
    crate::rotator::law_clock_is_kept(state.rotator, pending.key, now);
    if state.storable(pending, status, body) {
        crate::cache::law_clock_is_kept(
            state.cache,
            pending.cache_key,
            crate::cache::fresh_entry(state.shown_body(pending, body), content_type, status, now),
            after.cache,
            now,
        );
    }
}

/// An answer that was stored answers the same request again, without the upstream, until its
/// time-to-live is over.
pub proof fn law_second_request_is_cached(
    before: AppView,
    pending: PendingView,
    status: u16,
    content_type: Seq<char>,
    body: Seq<u8>,
    stored: u128,
    after: AppView,
    req: Request,
    now: u128,
)
    requires
        finishes_to(before, pending, status, content_type, body, stored, after),
        before.storable(pending, status, body),
        req.cacheable(),
        req.cache_key() == pending.cache_key,
        stored <= now < stored + before.cache.ttl_seconds * crate::clock::SECOND,
    ensures
        after.beginning(req, now) == BeginView::Answer(
            http::response(status, content_type, before.shown_body(pending, body)),
        ),
        after.begun(req, now).rotator == after.rotator,
        after.begun(req, now).stats.requests_cached == stats::bump(after.stats.requests_cached),
{
    crate::cache::law_read_back(
        before.cache,
        pending.cache_key,
        crate::cache::fresh_entry(
            before.shown_body(pending, body),
            content_type,
            status,
            stored,
        ),
        after.cache,
        now,
    );
}

/// A batch lookup, a request for `/me` and a request with `no-cache` are not answered from the
/// cache, do not wait for another request, and leave the cache as it is, both when they come in
/// and when they end.
pub proof fn law_uncacheable_requests_bypass_cache(
    state: AppView,
    req: Request,
    status: u16,
    content_type: Seq<char>,
    body: Seq<u8>,
    now: u128,
)
    requires
        req.is_post() || req.is_me() || req.no_cache(),
    ensures
        state.begun(req, now).cache == state.cache,
        state.begun(req, now).flights == state.flights,
        match state.rotator.next_key(now) {
            Some(key) => state.beginning(req, now) matches BeginView::Ask(upstream, pending)
                && pending.key == key && forall|before: AppView, later: u128, after: AppView|
                #[trigger] finishes_to(before, pending, status, content_type, body, later, after)
                    ==> after.cache == before.cache && after.flights == before.flights,
            None => state.beginning(req, now) == BeginView::Answer(exhausted(state.config)),
        },
{
}

/// Only a success that is not larger than the limit is stored.
pub proof fn law_only_small_successes_are_stored(
    before: AppView,
    pending: PendingView,
    status: u16,
    content_type: Seq<char>,
    body: Seq<u8>,
    now: u128,
    after: AppView,
)
    requires
        finishes_to(before, pending, status, content_type, body, now, after),
        !http::success(status) || before.shown_body(pending, body).len()
            > before.config.cache_max_body_bytes,
    ensures
        after.cache == before.cache,
{
}

/// A request that the cache does not answer and that waits for no other is answered 503, with the
/// cooldown in `retry-after`, exactly if all keys are cooling down; the upstream is asked, with
/// the next available key, exactly if one is not.
pub proof fn law_exhausted_keys_are_answered_503(state: AppView, req: Request, now: u128)
    requires
        state.rotator.slots.len() > 0,
        state.cached(req, now) is None,
        !state.coalesces(req),
    ensures
        (forall|slot: int|
            0 <= slot < state.rotator.slots.len() ==> !(
            #[trigger] state.rotator.slots[slot]).available(now)) ==> {
            &&& state.beginning(req, now) matches BeginView::Answer(reply)
            &&& reply.status == 503
            &&& reply.retry_after == Some(text::numeral(state.config.cooldown_seconds as nat))
            &&& state.begun(req, now).stats.keys_exhausted == stats::bump(
                state.stats.keys_exhausted,
            )
        },
        (exists|slot: int|
            0 <= slot < state.rotator.slots.len() && (
            #[trigger] state.rotator.slots[slot]).available(now)) ==> {
            &&& state.beginning(req, now) matches BeginView::Ask(upstream, pending)
            &&& Some(pending.key) == state.rotator.next_key(now)
            &&& upstream.authorization == "Bearer "@ + pending.key
            &&& state.begun(req, now).stats.keys_exhausted == state.stats.keys_exhausted
        },
{
    crate::rotator::law_choice_is_available(state.rotator, now);
}

/// A key that the upstream refused is not used again until its cooldown is over, if it is
/// configured only once.
pub proof fn law_refused_key_rests(
    state: AppView,
    pending: PendingView,
    status: u16,
    refused: u128,
    req: Request,
    now: u128,
)
    requires
        state.rotator.slots.len() > 0,
        http::refused(status),
        refused <= LAST_TICK,
        refused <= now < refused + state.rotator.cooldown_seconds * crate::clock::SECOND,
        forall|i: int, j: int|
            0 <= i < j < state.rotator.slots.len() ==> (#[trigger] state.rotator.slots[i]).key != (
            #[trigger] state.rotator.slots[j]).key,
    ensures
        state.after_head(pending, status, refused).beginning(req, now) matches BeginView::Ask(
            upstream,
            next,
        ) ==> next.key != pending.key,
{
    crate::rotator::law_cooling_key_is_skipped(state.rotator, pending.key, refused, now);
}

/// No answer but a refusal lets a key rest.
pub proof fn law_only_refusals_cool(state: AppView, pending: PendingView, status: u16, now: u128)
    requires
        status != 429,
        status != 401,
    ensures
        state.after_head(pending, status, now) == state,
{
}

/// While a request that may be cached is with the upstream, no other request for the same goes
/// there or takes a key: it is answered from the cache or waits, behind those who wait already.
/// Once the first has ended, no call for it is under way any more.
pub proof fn law_single_flight(state: AppView, first: Request, came: u128, second: Request, now: u128)
    requires
        state.flights.one_per_key(),
        state.beginning(first, came) is Ask,
        first.cacheable(),
        second.cacheable(),
        second.cache_key() == first.cache_key(),
    ensures
        ({
            let under_way = state.begun(first, came);
            let pending = state.beginning(first, came)->Ask_1;
            &&& under_way.beginning(second, now) !is Ask
            &&& under_way.begun(second, now).rotator == under_way.rotator
            &&& under_way.beginning(second, now) matches BeginView::Wait(ticket)
                ==> under_way.begun(second, now).waiting_for(pending) == under_way.waiting_for(
                pending,
            ).push(ticket)
            &&& !under_way.flights_without(pending).flying(second.cache_key())
        }),
{
    let key = first.cache_key();
    let under_way = state.begun(first, came);
    crate::flights::law_one_call_per_key(state.flights, key);
    crate::flights::law_nobody_is_forgotten(under_way.flights, key);
    crate::flights::law_one_call_per_key(under_way.flights, key);
}

/// The server reports itself degraded exactly as long as no key is available to the next request.
pub proof fn law_health_tells_of_keys(state: AppView, now: u128)
    requires
        0 < state.rotator.slots.len() <= usize::MAX,
    ensures
        stats::health_status(state.rotator.counts(now)) == "degraded"@ <==> state.rotator.next_key(
            now,
        ) is None,
        stats::health_status(state.rotator.counts(now)) == "ok"@ <==> state.rotator.next_key(
            now,
        ) is Some,
{
    crate::rotator::law_counts_add_up(state.rotator, now);
    reveal_strlit("ok");
    reveal_strlit("degraded");
    assert("ok"@.len() != "degraded"@.len());
}

/// Every request is counted once when it comes in, and an answer from the cache or a missing key
/// is counted as such.
pub proof fn law_requests_are_counted(state: AppView, req: Request, now: u128)
    ensures
        ({
            let before = state.stats;
            let after = state.begun(req, now).stats;
            &&& after.requests_total == stats::bump(before.requests_total)
            &&& after.requests_proxied == before.requests_proxied
            &&& after.upstream_errors == before.upstream_errors
            &&& after.requests_cached == if state.cached(req, now) is Some {
                stats::bump(before.requests_cached)
            } else {
                before.requests_cached
            }
            &&& after.keys_exhausted == if state.cached(req, now) is None && !state.coalesces(req)
                && state.rotator.next_key(now) is None {
                stats::bump(before.keys_exhausted)
            } else {
                before.keys_exhausted
            }
        }),
{
}

/// What the steps hand out, and what the state holds, are their fields.
pub proof fn law_steps_hold_their_fields(
    upstream: UpstreamRequest,
    pending: Pending,
    begin: Begin,
    state: AppState,
)
    ensures
        upstream@.method == upstream.method@,
        upstream@.url == upstream.url@,
        upstream@.authorization == upstream.authorization@,
        upstream@.accept == upstream.accept@,
        upstream@.content_type == text::text_given(upstream.content_type),
        pending@.cache_key == pending.cache_key@,
        pending@.key == pending.key@,
        pending@.cacheable == pending.cacheable,
        pending@.is_me == pending.is_me,
        match begin {
            Begin::Answer(reply) => begin@ == BeginView::Answer(reply@),
            Begin::Wait(ticket) => begin@ == BeginView::Wait(ticket),
            Begin::Ask(asked, waits) => begin@ == BeginView::Ask(asked@, waits@),
        },
        state@.config == state.config,
        state@.rotator == state.rotator@,
        state@.cache == state.cache@,
        state@.stats == state.stats,
        state@.flights == state.flights@,
        state@.clock == state.clock,
{
}

/// A request is for its path and query, or for the root; it is a batch lookup by its method and
/// asks for the key by its path; and it may be cached exactly if it is neither and the text of its
/// `cache-control` header has `no-cache` nowhere.
pub proof fn law_request_is_read_from_its_parts(req: Request)
    ensures
        req.path_and_query matches Some(target) ==> req.target() == target@,
        req.path_and_query is None ==> req.target() == "/"@,
        req.is_post() <==> req.method@ == "POST"@,
        req.is_me() <==> req.path@ == "/me"@,
        req.no_cache() <==> exists|before: Seq<char>, after: Seq<char>|
            http::header_text(req.cache_control) == Some(#[trigger] (before + "no-cache"@ + after)),
        req.cacheable() <==> req.method@ != "POST"@ && req.path@ != "/me"@ && !exists|
            before: Seq<char>,
            after: Seq<char>,
        |
            http::header_text(req.cache_control) == Some(#[trigger] (before + "no-cache"@ + after)),
{
    match http::header_text(req.cache_control) {
        Some(text) => {
            text::law_part_stands_between(text, "no-cache"@);
            if has_between(text, "no-cache"@) {
                let (before, after) = choose|before: Seq<char>, after: Seq<char>|
                    text == #[trigger] (before + "no-cache"@ + after);
                assert(http::header_text(req.cache_control) == Some(before + "no-cache"@ + after));
            }
        },
        None => {},
    }
}

spec fn has_between(text: Seq<char>, part: Seq<char>) -> bool {
    exists|before: Seq<char>, after: Seq<char>| text == #[trigger] (before + part + after)
}

/// A content type is the text of its header, or that of JSON where the header is missing or has no
/// text.
pub proof fn law_content_type_is_that_of_the_header(header: Option<Vec<u8>>)
    ensures
        http::header_text(header) matches Some(text) ==> content_type_of(header) == text,
        http::header_text(header) is None ==> content_type_of(header) == "application/json"@,
{
}

/// The cache key tells requests apart: requests have the same key exactly if they have the same
/// method and the same path and query. (No method has a colon in it.)
pub proof fn law_cache_key_tells_requests_apart(a: Request, b: Request)
    requires
        !a.method@.contains(':'),
        !b.method@.contains(':'),
    ensures
        a.cache_key() == b.cache_key() <==> a.method@ == b.method@ && a.target() == b.target(),
{
    let key = a.cache_key();
    reveal_strlit(":");
    if key == b.cache_key() {
        let m = a.method@.len() as int;
        let n = b.method@.len() as int;
        assert(a.cache_key()[m] == ':');
        assert(b.cache_key()[n] == ':');
        if m < n {
            assert(b.cache_key()[m] == b.method@[m]);
        }
        if n < m {
            assert(a.cache_key()[n] == a.method@[n]);
        }
        assert(m == n);
        assert(a.method@ =~= key.take(m));
        assert(b.method@ =~= key.take(m));
        assert(a.target() =~= key.skip(m + 1));
        assert(b.target() =~= key.skip(m + 1));
    }
}

/// A request with another method or another path and query is never answered with, and never
/// waits for, the answer to this one: what it finds in the cache after that answer was stored is
/// what it found before, or nothing, and it waits only for a call that it would have waited for
/// anyway.
pub proof fn law_answers_are_for_their_own_requests(
    came_in: AppView,
    first: Request,
    came: u128,
    before: AppView,
    status: u16,
    content_type: Seq<char>,
    body: Seq<u8>,
    ended: u128,
    after: AppView,
    second: Request,
    now: u128,
)
    requires
        came_in.flights.one_per_key(),
        came_in.beginning(first, came) is Ask,
        before.cache.valid(),
        finishes_to(
            before,
            came_in.beginning(first, came)->Ask_1,
            status,
            content_type,
            body,
            ended,
            after,
        ),
        !first.method@.contains(':'),
        !second.method@.contains(':'),
        second.method@ != first.method@ || second.target() != first.target(),
    ensures
        after.cached(second, now) is None || after.cached(second, now) == before.cached(second, now),
        came_in.begun(first, came).coalesces(second) == came_in.coalesces(second),
{
    let pending = came_in.beginning(first, came)->Ask_1;
    law_cache_key_tells_requests_apart(first, second);
    crate::flights::law_keys_are_independent(
        came_in.flights,
        first.cache_key(),
        second.cache_key(),
    );
    if before.storable(pending, status, body) {
        crate::cache::law_storing_replaces_only_the_least_recent(
            before.cache,
            pending.cache_key,
            crate::cache::fresh_entry(
                before.shown_body(pending, body),
                content_type,
                status,
                ended,
            ),
            after.cache,
        );
    }
}

/// Whenever a request goes to the upstream, it goes there with the client's own method, for the
/// client's path and query behind the base URL, with the key whose turn it is as bearer token, and
/// with the content type of its body exactly if it is a batch lookup.
pub proof fn law_upstream_is_asked_what_the_client_asked(state: AppView, req: Request, now: u128)
    ensures
        state.beginning(req, now) matches BeginView::Ask(upstream, pending) ==> {
            &&& upstream.method == req.method@
            &&& req.path_and_query matches Some(target) ==> upstream.url
                == state.config.ipinfo_base_url@ + target@
            &&& req.path_and_query is None ==> upstream.url == state.config.ipinfo_base_url@ + "/"@
            &&& Some(pending.key) == state.rotator.next_key(now)
            &&& upstream.authorization == "Bearer "@ + pending.key
            &&& upstream.accept == "application/json"@
            &&& req.method@ == "POST"@ ==> upstream.content_type == Some(
                content_type_of(req.content_type),
            )
            &&& req.method@ != "POST"@ ==> upstream.content_type is None
            &&& pending.cache_key == req.cache_key()
            &&& pending.cacheable == req.cacheable()
            &&& pending.is_me == (req.path@ == "/me"@)
        },
{
}

/// A request that may be cached is answered from the cache exactly if a live answer is stored
/// under its key, with that answer, and takes no key and no call then.
pub proof fn law_stored_answer_is_given(state: AppView, req: Request, now: u128)
    requires
        req.cacheable(),
        state.cache.found(req.cache_key(), now) is Some,
    ensures
        ({
            let entry = state.cache.entries[req.cache_key()];
            let after = state.begun(req, now);
            &&& state.beginning(req, now) == BeginView::Answer(
                http::response(entry.status, entry.content_type, entry.body),
            )
            &&& after.cache == state.cache.after_get(req.cache_key(), now)
            &&& after.rotator == state.rotator
            &&& after.flights == state.flights
            &&& after.config == state.config
            &&& after.stats.requests_cached == stats::bump(state.stats.requests_cached)
            &&& after.stats.keys_exhausted == state.stats.keys_exhausted
        }),
{
}

/// A request that the cache does not answer waits exactly if it may be cached and a call for its
/// key is under way; it gets the next ticket then, and takes no key.
pub proof fn law_same_request_waits(state: AppView, req: Request, now: u128)
    requires
        !req.cacheable() || state.cache.found(req.cache_key(), now) is None,
    ensures
        state.beginning(req, now) is Wait <==> req.cacheable() && state.flights.flying(
            req.cache_key(),
        ),
        state.beginning(req, now) matches BeginView::Wait(ticket) ==> {
            let after = state.begun(req, now);
            &&& ticket == state.flights.next_ticket
            &&& after.flights == state.flights.joined(req.cache_key())
            &&& after.cache == state.cache.after_get(req.cache_key(), now)
            &&& after.rotator == state.rotator
            &&& after.config == state.config
            &&& after.stats.requests_cached == state.stats.requests_cached
            &&& after.stats.keys_exhausted == state.stats.keys_exhausted
        },
{
}

/// A request that is neither answered from the cache nor waits takes the next turn in the ring. It
/// goes to the upstream, as a call that others can wait for if it may be cached; or, where no key
/// is available, it is answered with 503, the text that says so, and the cooldown, and no call is
/// started.
pub proof fn law_other_requests_take_a_turn(state: AppView, req: Request, now: u128)
    requires
        !req.cacheable() || (state.cache.found(req.cache_key(), now) is None
            && !state.flights.flying(req.cache_key())),
    ensures
        state.beginning(req, now) is Ask <==> state.rotator.next_key(now) is Some,
        state.rotator.next_key(now) is None ==> {
            &&& state.beginning(req, now) matches BeginView::Answer(reply)
            &&& reply.status == 503
            &&& reply.body == vstd::utf8::encode_utf8(
                "All API keys are rate limited. Try again later."@,
            )
            &&& reply.content_type == Some("text/plain; charset=utf-8"@)
            &&& reply.retry_after == Some(text::numeral(state.config.cooldown_seconds as nat))
            &&& state.begun(req, now).flights == state.flights
        },
        state.rotator.next_key(now) is Some ==> state.begun(req, now).flights
            == if req.cacheable() {
            state.flights.joined(req.cache_key())
        } else {
            state.flights
        },
        state.begun(req, now).rotator == state.rotator.advanced(),
        state.begun(req, now).config == state.config,
        state.begun(req, now).cache == if req.cacheable() {
            state.cache.after_get(req.cache_key(), now)
        } else {
            state.cache
        },
        state.begun(req, now).stats.requests_cached == state.stats.requests_cached,
{
}

/// A refusal, by 401 or by 429, puts the key that was used to rest and does nothing else.
pub proof fn law_refusal_rests_the_used_key(
    state: AppView,
    pending: PendingView,
    status: u16,
    now: u128,
)
    requires
        status == 401 || status == 429,
    ensures
        ({
            let after = state.after_head(pending, status, now);
            &&& after.rotator == state.rotator.cooled(pending.key, now)
            &&& after.config == state.config
            &&& after.cache == state.cache
            &&& after.stats == state.stats
            &&& after.flights == state.flights
        }),
{
}

/// The body that is passed on is the upstream's, but for an answer to `/me` where keys are to be
/// redacted.
pub proof fn law_body_is_passed_on(state: AppView, pending: PendingView, body: Seq<u8>)
    ensures
        !state.config.redact_keys || !pending.is_me ==> state.shown_body(pending, body) == body,
        state.config.redact_keys && pending.is_me ==> state.shown_body(pending, body)
            == json::redacted_body(body),
{
}

/// An answer is stored exactly if its request may be cached, it is a success, and what is passed on
/// is not larger than the limit; it is stored under the key of its request, as it is passed on.
pub proof fn law_stored_is_what_is_passed_on(
    before: AppView,
    pending: PendingView,
    status: u16,
    content_type: Seq<char>,
    body: Seq<u8>,
    now: u128,
    after: AppView,
)
    requires
        before.cache.valid(),
        finishes_to(before, pending, status, content_type, body, now, after),
    ensures
        pending.cacheable && 200 <= status < 300 && before.shown_body(pending, body).len()
            <= before.config.cache_max_body_bytes ==> {
            &&& after.cache.entries.contains_key(pending.cache_key)
            &&& after.cache.entries[pending.cache_key].body == before.shown_body(pending, body)
            &&& after.cache.entries[pending.cache_key].content_type == content_type
            &&& after.cache.entries[pending.cache_key].status == status
            &&& after.cache.entries[pending.cache_key].inserted_at == now
            &&& crate::cache::stores_to(
                before.cache,
                pending.cache_key,
                after.cache.entries[pending.cache_key],
                after.cache,
            )
        },
        !pending.cacheable || status < 200 || status >= 300 || before.shown_body(
            pending,
            body,
        ).len() > before.config.cache_max_body_bytes ==> after.cache == before.cache,
{
    if before.storable(pending, status, body) {
        crate::cache::law_storing_replaces_only_the_least_recent(
            before.cache,
            pending.cache_key,
            crate::cache::fresh_entry(before.shown_body(pending, body), content_type, status, now),
            after.cache,
        );
    }
}

/// The end of a request, with an answer or without one, is counted as what it is, ends its call,
/// tells all who wait for it, and changes neither the keys nor the settings.
pub proof fn law_end_is_counted_and_told(
    before: AppView,
    pending: PendingView,
    status: u16,
    content_type: Seq<char>,
    body: Seq<u8>,
    now: u128,
    after: AppView,
)
    requires
        finishes_to(before, pending, status, content_type, body, now, after),
    ensures
        after.stats.requests_proxied == stats::bump(before.stats.requests_proxied),
        after.stats.requests_total == before.stats.requests_total,
        after.stats.requests_cached == before.stats.requests_cached,
        after.stats.upstream_errors == before.stats.upstream_errors,
        after.stats.keys_exhausted == before.stats.keys_exhausted,
        after.rotator == before.rotator,
        after.config == before.config,
        ({
            let failed = before.failed(pending);
            &&& failed.stats.upstream_errors == stats::bump(before.stats.upstream_errors)
            &&& failed.stats.requests_total == before.stats.requests_total
            &&& failed.stats.requests_proxied == before.stats.requests_proxied
            &&& failed.stats.requests_cached == before.stats.requests_cached
            &&& failed.stats.keys_exhausted == before.stats.keys_exhausted
            &&& failed.rotator == before.rotator
            &&& failed.cache == before.cache
            &&& failed.config == before.config
            &&& failed.flights == after.flights
        }),
        pending.cacheable ==> after.flights == before.flights.landed(pending.cache_key)
            && before.waiting_for(pending) == before.flights.waiting(pending.cache_key),
        !pending.cacheable ==> after.flights == before.flights && before.waiting_for(
            pending,
        ).len() == 0,
{
}

/// A server starts with a rotator over its keys and an empty cache, by the settings, with nothing
/// counted and no call under way. A batch may be as large as a mebibyte.
pub proof fn law_start_is_by_the_settings(config: Config, clock: Clock)
    ensures
        ({
            let state = fresh_app(config, clock);
            &&& state.config == config
            &&& state.rotator == crate::rotator::fresh_rotator(
                text::texts(config.keys@),
                config.cooldown_seconds,
                clock,
            )
            &&& state.cache == crate::cache::empty_cache(
                config.cache_ttl_seconds,
                config.cache_max_entries,
                clock,
            )
            &&& state.stats == stats::zero_stats()
            &&& state.flights == crate::flights::no_flights()
            &&& state.clock == clock
        }),
        BODY_LIMIT == 1024 * 1024,
{
}

} // verus!
