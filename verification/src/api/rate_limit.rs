//! Per-client rate limiting of API requests.
//!
//! Requests are counted per client in fixed windows; those beyond the limit of a
//! window are rejected.

use crate::text::{decimal, decimal_of};
use dashmap::DashMap;
use std::time::{Duration, Instant};
use vstd::prelude::*;

verus! {

pub const NANOS_PER_SEC: u128 = 1_000_000_000;

/// The concurrent map of the `dashmap` crate.
#[verifier::external_type_specification]
#[verifier::external_body]
#[verifier::reject_recursive_types(K)]
#[verifier::reject_recursive_types(V)]
#[verifier::reject_recursive_types(S)]
pub struct ExDashMap<K, V, S>(DashMap<K, V, S>);

/// A reading of the machine's monotonic clock.
#[verifier::external_type_specification]
#[verifier::external_body]
pub struct ExInstant(std::time::Instant);

/// The count and the start of the window of every client.
pub uninterp spec fn bucket_contents(buckets: DashMap<String, (u32, u128)>) -> Map<
    Seq<char>,
    (u32, u128),
>;

/// Calls [`DashMap::new`], which makes an empty map.
#[verifier::external_body]
fn new_buckets() -> (r: DashMap<String, (u32, u128)>)
    ensures
        forall|key: Seq<char>| !(#[trigger] bucket_contents(r).contains_key(key)),
{
    DashMap::new()
}

/// Calls [`DashMap::get`], which looks up the value under a key, and copies it out.
#[verifier::external_body]
fn get_bucket(buckets: &DashMap<String, (u32, u128)>, key: &str) -> (r: Option<(u32, u128)>)
    ensures
        r == (if bucket_contents(*buckets).contains_key(key@) {
            Some(bucket_contents(*buckets)[key@])
        } else {
            None
        }),
{
    buckets.get(key).map(|entry| *entry.value())
}

/// Calls [`DashMap::insert`], which puts a value under a key in place of any that
/// was there.
#[verifier::external_body]
fn set_bucket(buckets: &mut DashMap<String, (u32, u128)>, key: &str, bucket: (u32, u128))
    ensures
        bucket_contents(*final(buckets)) == bucket_contents(*old(buckets)).insert(key@, bucket),
{
    buckets.insert(key.to_owned(), bucket);
}

/// Calls [`Instant::now`]; nothing is claimed of the reading.
#[verifier::external_body]
fn start_clock() -> (r: Instant) {
    Instant::now()
}

/// Calls [`Instant::elapsed`] for the time since a reading; nothing is claimed of it.
#[verifier::external_body]
fn time_since(start: &Instant) -> (r: Duration) {
    start.elapsed()
}

/// Calls [`Duration::as_nanos`] for the nanoseconds of a duration. Nothing is claimed of
/// their number: the one duration that is ever read comes from the clock.
#[verifier::external_body]
fn nanos_of(duration: &Duration) -> (r: u128) {
    duration.as_nanos()
}

/// The nanoseconds since a reading of the clock.
fn clock_nanos(start: &Instant) -> (r: u128) {
    nanos_of(&time_since(start))
}

/// How many requests a client may make within a window.
#[derive(Clone, Copy, Debug, PartialEq)]
pub struct RateLimitConfig {
    pub max_requests: u32,
    pub window_nanos: u128,
}

impl Default for RateLimitConfig {
    /// 100 requests per minute.
    fn default() -> (r: Self)
        ensures
            r.max_requests == 100,
            r.window_nanos == 60 * NANOS_PER_SEC,
    {
        RateLimitConfig { max_requests: 100, window_nanos: 60_000_000_000 }
    }
}

impl RateLimitConfig {
    /// A limit of `max_requests` within `window_secs` seconds.
    pub fn per_seconds(max_requests: u32, window_secs: u64) -> (r: Self)
        ensures
            r.max_requests == max_requests,
            r.window_nanos == window_secs * NANOS_PER_SEC,
    {
        RateLimitConfig { max_requests, window_nanos: window_secs as u128 * NANOS_PER_SEC }
    }
}

/// How long before `now` a window started; not at all where it starts later.
pub open spec fn elapsed(bucket: (u32, u128), now: u128) -> u128 {
    if now >= bucket.1 {
        (now - bucket.1) as u128
    } else {
        0
    }
}

/// Whether a window is over at `now`.
pub open spec fn is_over(config: RateLimitConfig, bucket: (u32, u128), now: u128) -> bool {
    elapsed(bucket, now) >= config.window_nanos
}

/// What a client's count becomes with a request at `now`: one more within the
/// window, else the first of a new window. The count stops at its largest value.
pub open spec fn counted(
    config: RateLimitConfig,
    buckets: Map<Seq<char>, (u32, u128)>,
    key: Seq<char>,
    now: u128,
) -> (u32, u128) {
    if !buckets.contains_key(key) || is_over(config, buckets[key], now) {
        (1, now)
    } else if buckets[key].0 < u32::MAX {
        ((buckets[key].0 + 1) as u32, buckets[key].1)
    } else {
        buckets[key]
    }
}

/// How many requests a client has left at `now`.
pub open spec fn left(
    config: RateLimitConfig,
    buckets: Map<Seq<char>, (u32, u128)>,
    key: Seq<char>,
    now: u128,
) -> u32 {
    if !buckets.contains_key(key) || is_over(config, buckets[key], now) {
        config.max_requests
    } else if buckets[key].0 >= config.max_requests {
        0
    } else {
        (config.max_requests - buckets[key].0) as u32
    }
}

/// The whole seconds after which a client's window is over, at least one.
pub open spec fn wait_secs(
    config: RateLimitConfig,
    buckets: Map<Seq<char>, (u32, u128)>,
    key: Seq<char>,
    now: u128,
) -> u64 {
    if !buckets.contains_key(key) || is_over(config, buckets[key], now) {
        1
    } else {
        let secs = (config.window_nanos - elapsed(buckets[key], now)) / NANOS_PER_SEC as int;
        if secs < 1 {
            1
        } else if secs > u64::MAX {
            u64::MAX
        } else {
            secs as u64
        }
    }
}

/// What a request under a rate limit is answered.
#[derive(Debug, PartialEq)]
pub enum RateLimitReply {
    /// The request goes on; the response carries the limit and what is left of it.
    Allowed { limit: u32, remaining: u32 },
    /// The request is rejected with status 429.
    Rejected { message: String, retry_after_secs: u64 },
}

/// The status of a rejected request.
pub const TOO_MANY_REQUESTS: u16 = 429;

/// The error name of a rejected request.
pub const RATE_LIMIT_EXCEEDED: &'static str = "rate_limit_exceeded";

/// Counts requests per client. `clock` is the reading that times are counted from.
pub struct RateLimiter {
    pub config: RateLimitConfig,
    pub clock: Instant,
    pub buckets: DashMap<String, (u32, u128)>,
}

impl RateLimiter {
    /// The count and the start of the window of every client.
    pub open spec fn contents(self) -> Map<Seq<char>, (u32, u128)> {
        bucket_contents(self.buckets)
    }

    pub fn new(config: RateLimitConfig) -> (r: Self)
        ensures
            r.config == config,
            r.contents() == Map::<Seq<char>, (u32, u128)>::empty(),
    {
        let r = RateLimiter { config, clock: start_clock(), buckets: new_buckets() };
        proof {
            assert(r.contents() =~= Map::<Seq<char>, (u32, u128)>::empty());
        }
        r
    }

    pub fn max_requests(&self) -> (r: u32)
        ensures
            r == self.config.max_requests,
    {
        self.config.max_requests
    }

    /// Counts a request of `key` at `now`, and says whether it is within the limit.
    pub fn check_at(&mut self, key: &str, now: u128) -> (r: bool)
        ensures
            final(self).config == old(self).config,
            final(self).clock == old(self).clock,
            final(self).contents() == old(self).contents().insert(
                key@,
                counted(old(self).config, old(self).contents(), key@, now),
            ),
            r == (counted(old(self).config, old(self).contents(), key@, now).0 <= old(
                self,
            ).config.max_requests),
    {
        let mut bucket: (u32, u128) = match get_bucket(&self.buckets, key) {
            Some(bucket) => bucket,
            None => (0, now),
        };
        let elapsed: u128 = if now >= bucket.1 {
            now - bucket.1
        } else {
            0
        };
        if elapsed >= self.config.window_nanos {
            bucket = (0, now);
        }
        bucket = (bucket.0.saturating_add(1), bucket.1);
        set_bucket(&mut self.buckets, key, bucket);
        bucket.0 <= self.config.max_requests
    }

    /// Counts a request of `key` now, and says whether it is within the limit.
    pub fn check(&mut self, key: &str) -> (r: bool)
        ensures
            final(self).config == old(self).config,
            exists|now: u128|
                {
                    &&& final(self).contents() == old(self).contents().insert(
                        key@,
                        #[trigger] counted(old(self).config, old(self).contents(), key@, now),
                    )
                    &&& r == (counted(old(self).config, old(self).contents(), key@, now).0
                        <= old(self).config.max_requests)
                },
    {
        let now: u128 = clock_nanos(&self.clock);
        self.check_at(key, now)
    }

    /// How many requests `key` has left at `now`.
    pub fn remaining_at(&self, key: &str, now: u128) -> (r: u32)
        ensures
            r == left(self.config, self.contents(), key@, now),
    {
        match get_bucket(&self.buckets, key) {
            Some(bucket) => {
                let elapsed: u128 = if now >= bucket.1 {
                    now - bucket.1
                } else {
                    0
                };
                if elapsed >= self.config.window_nanos {
                    return self.config.max_requests;
                }
                self.config.max_requests.saturating_sub(bucket.0)
            },
            None => self.config.max_requests,
        }
    }

    /// How many requests `key` has left now.
    pub fn remaining(&self, key: &str) -> (r: u32)
        ensures
            exists|now: u128| r == #[trigger] left(self.config, self.contents(), key@, now),
    {
        let now: u128 = clock_nanos(&self.clock);
        self.remaining_at(key, now)
    }

    /// The whole seconds from `now` after which the window of `key` is over, at least
    /// one.
    pub fn retry_after_secs_at(&self, key: &str, now: u128) -> (r: u64)
        ensures
            r == wait_secs(self.config, self.contents(), key@, now),
    {
        match get_bucket(&self.buckets, key) {
            Some(bucket) => {
                let elapsed: u128 = if now >= bucket.1 {
                    now - bucket.1
                } else {
                    0
                };
                if elapsed < self.config.window_nanos {
                    let secs: u128 = (self.config.window_nanos - elapsed) / NANOS_PER_SEC;
                    if secs < 1 {
                        1
                    } else if secs > u64::MAX as u128 {
                        u64::MAX
                    } else {
                        secs as u64
                    }
                } else {
                    1
                }
            },
            None => 1,
        }
    }

    /// The whole seconds from now after which the window of `key` is over, at least
    /// one.
    pub fn retry_after_secs(&self, key: &str) -> (r: u64)
        ensures
            exists|now: u128|
                r == #[trigger] wait_secs(self.config, self.contents(), key@, now),
    {
        let now: u128 = clock_nanos(&self.clock);
        self.retry_after_secs_at(key, now)
    }

    /// Counts a request of `key` now, and says what it is answered.
    pub fn answer(&mut self, key: &str) -> (r: RateLimitReply)
        ensures
            final(self).config == old(self).config,
            exists|now: u128, later: u128, latest: u128| #[trigger]
                is_answered(
                    old(self).config,
                    old(self).contents(),
                    key@,
                    now,
                    later,
                    latest,
                    final(self).contents(),
                    r,
                ),
    {
        let allowed: bool = self.check(key);
        let remaining: u32 = self.remaining(key);
        let retry_after: u64 = self.retry_after_secs(key);
        let reply: RateLimitReply = rate_limit_reply(
            self.config.max_requests,
            allowed,
            remaining,
            retry_after,
        );
        proof {
            let config = self.config;
            let before = old(self).contents();
            let now = choose|now: u128|
                self.contents() == before.insert(
                    key@,
                    #[trigger] counted(config, before, key@, now),
                ) && allowed == (counted(config, before, key@, now).0 <= config.max_requests);
            let later = choose|later: u128|
                remaining == #[trigger] left(config, self.contents(), key@, later);
            let latest = choose|latest: u128|
                retry_after == #[trigger] wait_secs(config, self.contents(), key@, latest);
            assert(is_answered(
                config,
                before,
                key@,
                now,
                later,
                latest,
                self.contents(),
                reply,
            ));
        }
        reply
    }
}

/// Whether a request of `key`, counted at `now`, turns the counts `before` into
/// `after` and is answered `reply`, with what is left read at `later` and the time to
/// wait at `latest`.
pub open spec fn is_answered(
    config: RateLimitConfig,
    before: Map<Seq<char>, (u32, u128)>,
    key: Seq<char>,
    now: u128,
    later: u128,
    latest: u128,
    after: Map<Seq<char>, (u32, u128)>,
    reply: RateLimitReply,
) -> bool {
    &&& after == before.insert(key, counted(config, before, key, now))
    &&& is_reply(
        config.max_requests,
        counted(config, before, key, now).0 <= config.max_requests,
        left(config, after, key, later),
        wait_secs(config, after, key, latest),
        reply,
    )
}

/// Whether `reply` is the answer to a request that is allowed or not.
pub open spec fn is_reply(
    limit: u32,
    allowed: bool,
    remaining: u32,
    retry_after: u64,
    reply: RateLimitReply,
) -> bool {
    match reply {
        RateLimitReply::Allowed { limit: l, remaining: r } => allowed && l == limit && r
            == remaining,
        RateLimitReply::Rejected { message, retry_after_secs } => !allowed && retry_after_secs
            == retry_after && message@ == "Too many requests. Retry after "@ + decimal_of(
            retry_after as nat,
        ) + " second(s)."@,
    }
}

/// The answer to a request that is allowed or not.
pub fn rate_limit_reply(limit: u32, allowed: bool, remaining: u32, retry_after: u64) -> (r:
    RateLimitReply)
    ensures
        is_reply(limit, allowed, remaining, retry_after, r),
{
    if allowed {
        RateLimitReply::Allowed { limit, remaining }
    } else {
        let message: String = "Too many requests. Retry after ".to_owned().concat(
            decimal(retry_after).as_str(),
        ).concat(" second(s).");
        RateLimitReply::Rejected { message, retry_after_secs: retry_after }
    }
}

/// The client that a request is counted for: its API key, or else its address.
pub fn client_key(api_key: Option<String>, remote_ip: String) -> (r: String)
    ensures
        r == (match api_key {
            Some(key) => key,
            None => remote_ip,
        }),
{
    match api_key {
        Some(key) => key,
        None => remote_ip,
    }
}

/// The counts after requests of any clients, each with its time.
pub open spec fn after_requests(
    config: RateLimitConfig,
    buckets: Map<Seq<char>, (u32, u128)>,
    requests: Seq<(Seq<char>, u128)>,
) -> Map<Seq<char>, (u32, u128)>
    decreases requests.len(),
{
    if requests.len() == 0 {
        buckets
    } else {
        let before = after_requests(config, buckets, requests.drop_last());
        let (key, now) = requests.last();
        before.insert(key, counted(config, before, key, now))
    }
}

/// The times of the requests of one client.
pub open spec fn times_of(requests: Seq<(Seq<char>, u128)>, key: Seq<char>) -> Seq<u128>
    decreases requests.len(),
{
    if requests.len() == 0 {
        seq![]
    } else if requests.last().0 == key {
        times_of(requests.drop_last(), key).push(requests.last().1)
    } else {
        times_of(requests.drop_last(), key)
    }
}

/// Whether the requests of a client all come within the window that its first one opens.
pub open spec fn within_one_window(config: RateLimitConfig, times: Seq<u128>) -> bool {
    forall|i: int|
        0 <= i < times.len() ==> times[0] <= #[trigger] times[i] < times[0] + config.window_nanos
}

/// However the requests of several clients are mixed, each client has a count of its own:
/// that of its requests, rejected ones too.
proof fn lemma_count_per_client(
    config: RateLimitConfig,
    buckets: Map<Seq<char>, (u32, u128)>,
    requests: Seq<(Seq<char>, u128)>,
    key: Seq<char>,
)
    requires
        !buckets.contains_key(key),
        times_of(requests, key).len() <= u32::MAX,
        within_one_window(config, times_of(requests, key)),
    ensures
        ({
            let times = times_of(requests, key);
            let after = after_requests(config, buckets, requests);
            if times.len() == 0 {
                !after.contains_key(key)
            } else {
                after.contains_key(key) && after[key] == (times.len() as u32, times[0])
            }
        }),
    decreases requests.len(),
{
    if requests.len() > 0 {
        let times = times_of(requests, key);
        let earlier = times_of(requests.drop_last(), key);
        assert forall|i: int| 0 <= i < earlier.len() implies earlier[0] <= #[trigger] earlier[i]
            < earlier[0] + config.window_nanos by {
            assert(times[i] == earlier[i] && times[0] == earlier[0]);
        }
        lemma_count_per_client(config, buckets, requests.drop_last(), key);
        if requests.last().0 == key {
            assert(times[times.len() - 1] == requests.last().1);
            assert(times[0] <= times[times.len() - 1] < times[0] + config.window_nanos);
        }
    }
}

/// Of the requests of a new client within one window exactly the first `max_requests` are
/// within the limit, and what is left goes down with every one of them, however many
/// requests of other clients come between. The first request after the window counts as a
/// first one again.
pub proof fn window_admits_the_limit(
    config: RateLimitConfig,
    buckets: Map<Seq<char>, (u32, u128)>,
    requests: Seq<(Seq<char>, u128)>,
    key: Seq<char>,
    now: u128,
)
    requires
        !buckets.contains_key(key),
        times_of(requests, key).len() <= u32::MAX,
        within_one_window(config, times_of(requests, key)),
    ensures
        ({
            let times = times_of(requests, key);
            let after = after_requests(config, buckets, requests);
            if times.len() == 0 || now < times[0] + config.window_nanos {
                &&& times.len() < u32::MAX ==> (counted(config, after, key, now).0
                    <= config.max_requests <==> times.len() < config.max_requests)
                &&& left(config, after, key, now) == if times.len() < config.max_requests {
                    config.max_requests - times.len()
                } else {
                    0
                }
            } else {
                counted(config, after, key, now) == (1u32, now)
            }
        }),
{
    lemma_count_per_client(config, buckets, requests, key);
    let times = times_of(requests, key);
    if times.len() > 0 {
        assert(times[0] < times[0] + config.window_nanos);
    }
}

/// Requests of other clients leave the count of a client as it was.
pub proof fn clients_are_independent(
    config: RateLimitConfig,
    buckets: Map<Seq<char>, (u32, u128)>,
    requests: Seq<(Seq<char>, u128)>,
    key: Seq<char>,
    now: u128,
)
    requires
        times_of(requests, key).len() == 0,
    ensures
        counted(config, after_requests(config, buckets, requests), key, now) == counted(
            config,
            buckets,
            key,
            now,
        ),
        left(config, after_requests(config, buckets, requests), key, now) == left(
            config,
            buckets,
            key,
            now,
        ),
    decreases requests.len(),
{
    if requests.len() > 0 {
        clients_are_independent(config, buckets, requests.drop_last(), key, now);
    }
}

/// Right after a request the count and what is left add up to the limit, as long as
/// the request was within it.
pub proof fn remaining_counts_down(
    config: RateLimitConfig,
    buckets: Map<Seq<char>, (u32, u128)>,
    key: Seq<char>,
    now: u128,
)
    requires
        config.window_nanos > 0,
        counted(config, buckets, key, now).0 <= config.max_requests,
    ensures
        left(config, buckets.insert(key, counted(config, buckets, key, now)), key, now) + counted(
            config,
            buckets,
            key,
            now,
        ).0 == config.max_requests,
{
}

} // verus!
