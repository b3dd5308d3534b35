//! Per-client token-bucket admission limiter.
//!
//! Token counts are held in fixed-point units: one token is
//! `UNITS_PER_TOKEN` units, so a limit of `rpm` requests per minute refills
//! exactly `rpm` units per microsecond and all arithmetic is exact.
//! Time is a monotonic count of microseconds.
use vstd::prelude::*;
use crate::text::same_text;

verus! {

/// Units in one whole token: sixty seconds of microseconds.
pub const UNITS_PER_TOKEN: u64 = 60_000_000;

/// The abstract state of one client's bucket.
pub struct BucketView {
    pub key: Seq<char>,
    pub tokens: int,
    pub last: int,
}

/// Outcome of one admission decision.
#[derive(Debug, Clone, Copy, PartialEq, Eq, Structural)]
pub struct RateLimitResult {
    pub allowed: bool,
    pub remaining: u32,
    pub limit: u32,
    pub reset_seconds: u32,
}

/// Bucket capacity in units for a burst size.
pub open spec fn capacity(burst: u32) -> int {
    burst as int * UNITS_PER_TOKEN as int
}

/// A full bucket created for `key` at time `now`.
pub open spec fn fresh_bucket(key: Seq<char>, now: int, burst: u32) -> BucketView {
    BucketView { key, tokens: capacity(burst), last: now }
}

/// The bucket after refilling up to time `now`: `rpm` units per elapsed
/// microsecond, capped at capacity. Time never runs backward.
pub open spec fn refilled(b: BucketView, now: int, rpm: u32, burst: u32) -> BucketView {
    if now <= b.last {
        b
    } else {
        let t = b.tokens + (now - b.last) * rpm;
        BucketView { key: b.key, tokens: if t < capacity(burst) { t } else { capacity(burst) }, last: now }
    }
}

/// Whether a refilled bucket holds a whole token.
pub open spec fn admits(b: BucketView) -> bool {
    b.tokens >= UNITS_PER_TOKEN
}

/// The bucket after one request at time `now`: refill, then take a token if
/// a whole one is there.
pub open spec fn consumed(b: BucketView, now: int, rpm: u32, burst: u32) -> BucketView {
    let r = refilled(b, now, rpm, burst);
    if admits(r) {
        BucketView { tokens: r.tokens - UNITS_PER_TOKEN, ..r }
    } else {
        r
    }
}

/// Coarse wait hint: whole seconds per token, with the rate taken as at least one.
pub open spec fn reset_hint(rpm: u32) -> u32 {
    if rpm == 0 { 60u32 } else { (60u32 / rpm) as u32 }
}

/// The reported outcome of one request on bucket `b` at time `now`.
pub open spec fn outcome(b: BucketView, now: int, rpm: u32, burst: u32) -> RateLimitResult {
    let allowed = admits(refilled(b, now, rpm, burst));
    RateLimitResult {
        allowed,
        remaining: (consumed(b, now, rpm, burst).tokens / UNITS_PER_TOKEN as int) as u32,
        limit: rpm,
        reset_seconds: reset_hint(rpm),
    }
}

/// No two buckets share a client key.
pub open spec fn keys_unique(s: Seq<BucketView>) -> bool {
    forall|i: int, j: int| 0 <= i < j < s.len() ==> s[i].key != s[j].key
}

/// Some bucket is tracked for `key`.
pub open spec fn tracks(s: Seq<BucketView>, key: Seq<char>) -> bool {
    exists|i: int| 0 <= i < s.len() && s[i].key == key
}

/// Position of the bucket for `key`, or -1.
pub open spec fn index_of(s: Seq<BucketView>, key: Seq<char>) -> int {
    if tracks(s, key) {
        choose|i: int| 0 <= i < s.len() && s[i].key == key
    } else {
        -1
    }
}

/// The bucket for `key`, if tracked.
pub open spec fn bucket_of(s: Seq<BucketView>, key: Seq<char>) -> Option<BucketView> {
    if tracks(s, key) {
        Some(s[index_of(s, key)])
    } else {
        None
    }
}

/// The bucket that a request for `key` at `now` starts from.
pub open spec fn current(s: Seq<BucketView>, key: Seq<char>, now: int, burst: u32) -> BucketView {
    match bucket_of(s, key) {
        Some(b) => b,
        None => fresh_bucket(key, now, burst),
    }
}

/// Tracked buckets after one request for `key` at `now`.
pub open spec fn after_request(s: Seq<BucketView>, key: Seq<char>, now: int, rpm: u32, burst: u32) -> Seq<BucketView> {
    let b = consumed(current(s, key, now, burst), now, rpm, burst);
    if tracks(s, key) {
        s.update(index_of(s, key), b)
    } else {
        s.push(b)
    }
}

/// The outcome reported for one request for `key` at `now`.
pub open spec fn request_outcome(s: Seq<BucketView>, key: Seq<char>, now: int, rpm: u32, burst: u32) -> RateLimitResult {
    outcome(current(s, key, now, burst), now, rpm, burst)
}

/// A bucket is kept by a sweep at `now` when it was refilled less than
/// `max_age` microseconds ago.
pub open spec fn is_fresh(b: BucketView, now: int, max_age: int) -> bool {
    (if now >= b.last { now - b.last } else { 0 }) < max_age
}

/// Tracked buckets after a sweep at `now` with maximum age `max_age`.
pub open spec fn swept(s: Seq<BucketView>, now: int, max_age: int) -> Seq<BucketView> {
    s.filter(|b: BucketView| is_fresh(b, now, max_age))
}

/// `b` stands among the first `n` buckets of `s`.
pub open spec fn appears_in(b: BucketView, s: Seq<BucketView>, n: int) -> bool {
    exists|k: int| 0 <= k < n && s[k] == b
}

/// The abstract states of a row of buckets.
pub closed spec fn views(v: Seq<TokenBucket>) -> Seq<BucketView> {
    v.map_values(|b: TokenBucket| b@)
}

/// One client's bucket.
pub struct TokenBucket {
    client_id: String,
    tokens: u64,
    last_refill: u64,
}

impl View for TokenBucket {
    type V = BucketView;

    closed spec fn view(&self) -> BucketView {
        BucketView { key: self.client_id@, tokens: self.tokens as int, last: self.last_refill as int }
    }
}

impl TokenBucket {
    fn new(client_id: &str, now: u64, burst: u32) -> (r: Self)
        ensures
            r@ == fresh_bucket(client_id@, now as int, burst),
    {
        TokenBucket {
            client_id: String::from_str(client_id),
            tokens: burst as u64 * UNITS_PER_TOKEN,
            last_refill: now,
        }
    }

    fn refill(&mut self, now: u64, rpm: u32, burst: u32)
        requires
            old(self)@.tokens <= capacity(burst),
        ensures
            final(self)@ == refilled(old(self)@, now as int, rpm, burst),
            final(self)@.tokens <= capacity(burst),
    {
        if now > self.last_refill {
            let elapsed = (now - self.last_refill) as u128;
            let cap = burst as u64 * UNITS_PER_TOKEN;
            let rate = rpm as u128;
            assert(elapsed * rate <= 0xffff_ffff_ffff_ffffu128 * 0xffff_ffffu128) by (nonlinear_arith)
                requires
                    elapsed <= 0xffff_ffff_ffff_ffffu128,
                    rate <= 0xffff_ffffu128,
            ;
            let t: u128 = self.tokens as u128 + elapsed * rate;
            self.tokens = if t < cap as u128 { t as u64 } else { cap };
            self.last_refill = now;
        }
    }

    fn try_consume(&mut self, now: u64, rpm: u32, burst: u32) -> (r: bool)
        requires
            old(self)@.tokens <= capacity(burst),
        ensures
            r == admits(refilled(old(self)@, now as int, rpm, burst)),
            final(self)@ == consumed(old(self)@, now as int, rpm, burst),
            final(self)@.tokens <= capacity(burst),
    {
        self.refill(now, rpm, burst);
        if self.tokens >= UNITS_PER_TOKEN {
            self.tokens = self.tokens - UNITS_PER_TOKEN;
            true
        } else {
            false
        }
    }

    fn remaining_tokens(&self, burst: u32) -> (r: u32)
        requires
            self@.tokens <= capacity(burst),
        ensures
            r == self@.tokens / UNITS_PER_TOKEN as int,
    {
        (self.tokens / UNITS_PER_TOKEN) as u32
    }

    fn copy(&self) -> (r: Self)
        ensures
            r@ == self@,
    {
        TokenBucket { client_id: self.client_id.clone(), tokens: self.tokens, last_refill: self.last_refill }
    }
}

/// std's monotonic instant, carried opaquely as a limiter's clock origin.
#[verifier::external_type_specification]
#[verifier::external_body]
pub struct ExInstant(std::time::Instant);

/// Relies on std::time::Instant::now: a reading of the monotonic clock.
#[verifier::external_body]
fn clock_start() -> std::time::Instant {
    std::time::Instant::now()
}

/// Relies on std::time::Instant::elapsed: the monotonic time since `origin`,
/// in whole microseconds. Nothing is promised of the value.
#[verifier::external_body]
fn micros_since(origin: &std::time::Instant) -> u64 {
    origin.elapsed().as_micros() as u64
}

/// Token-bucket limiter keyed by client: each client may burst up to
/// `burst_size` requests and then regains `requests_per_minute` per minute.
pub struct RateLimiter {
    requests_per_minute: u32,
    burst_size: u32,
    buckets: Vec<TokenBucket>,
    origin: std::time::Instant,
    latest: u64,
}

impl RateLimiter {
    /// The abstract bucket table, in order of first request.
    pub closed spec fn buckets_view(&self) -> Seq<BucketView> {
        views(self.buckets@)
    }

    pub closed spec fn spec_rpm(&self) -> u32 {
        self.requests_per_minute
    }

    pub closed spec fn spec_burst(&self) -> u32 {
        self.burst_size
    }

    /// The latest instant the limiter has been told of.
    pub closed spec fn spec_clock(&self) -> u64 {
        self.latest
    }

    /// One bucket per client, none above capacity, none refilled after the
    /// latest instant seen.
    pub closed spec fn wf(&self) -> bool {
        &&& keys_unique(self.buckets_view())
        &&& forall|i: int| 0 <= i < self.buckets@.len() ==> #[trigger] self.buckets@[i]@.tokens <= capacity(self.burst_size)
        &&& forall|i: int| 0 <= i < self.buckets@.len() ==> #[trigger] self.buckets@[i]@.last <= self.latest
    }

    /// A limiter that tracks no client yet.
    pub fn new(requests_per_minute: u32, burst_size: u32) -> (r: Self)
        ensures
            r.wf(),
            r.spec_rpm() == requests_per_minute,
            r.spec_burst() == burst_size,
            r.buckets_view().len() == 0,
            r.spec_clock() == 0,
    {
        let r = RateLimiter {
            requests_per_minute,
            burst_size,
            buckets: Vec::new(),
            origin: clock_start(),
            latest: 0,
        };
        assert(r.buckets_view() =~= Seq::empty());
        r
    }

    fn find(&self, client_id: &str) -> (r: Option<usize>)
        requires
            self.wf(),
        ensures
            r is Some <==> tracks(self.buckets_view(), client_id@),
            r is Some ==> r->Some_0 == index_of(self.buckets_view(), client_id@),
    {
        let ghost s = self.buckets_view();
        let mut i: usize = 0;
        while i < self.buckets.len()
            invariant
                s == self.buckets_view(),
                keys_unique(s),
                i <= s.len(),
                forall|j: int| 0 <= j < i ==> s[j].key != client_id@,
            decreases self.buckets.len() - i,
        {
            if same_text(self.buckets[i].client_id.as_str(), client_id) {
                assert(s[i as int].key == client_id@);
                return Some(i);
            }
            i += 1;
        }
        None
    }

    /// Decide one request from `client_id` at time `now` (microseconds on a
    /// monotonic clock): the client's bucket, created full on first sight, is
    /// refilled for the time elapsed and gives up one token if it holds one.
    pub fn allow_request_at(&mut self, client_id: &str, now: u64) -> (r: RateLimitResult)
        requires
            old(self).wf(),
        ensures
            final(self).wf(),
            final(self).spec_rpm() == old(self).spec_rpm(),
            final(self).spec_burst() == old(self).spec_burst(),
            final(self).buckets_view() == after_request(
                old(self).buckets_view(),
                client_id@,
                now as int,
                old(self).spec_rpm(),
                old(self).spec_burst(),
            ),
            r == request_outcome(
                old(self).buckets_view(),
                client_id@,
                now as int,
                old(self).spec_rpm(),
                old(self).spec_burst(),
            ),
            r.remaining <= old(self).spec_burst(),
            !r.allowed ==> r.remaining == 0,
            final(self).spec_clock() == if now > old(self).spec_clock() { now } else { old(self).spec_clock() },
    {
        if now > self.latest {
            self.latest = now;
        }
        let rpm = self.requests_per_minute;
        let burst = self.burst_size;
        let ghost s = self.buckets_view();
        let idx = match self.find(client_id) {
            Some(i) => i,
            None => {
                self.buckets.push(TokenBucket::new(client_id, now, burst));
                proof {
                    assert(self.buckets_view() =~= s.push(fresh_bucket(client_id@, now as int, burst)));
                }
                self.buckets.len() - 1
            }
        };
        let mut b = self.buckets[idx].copy();
        let allowed = b.try_consume(now, rpm, burst);
        let remaining = b.remaining_tokens(burst);
        proof {
            let t = b@.tokens;
            assert(t / 60_000_000 <= burst) by (nonlinear_arith)
                requires
                    0 <= t <= burst * 60_000_000,
            ;
            if !allowed {
                assert(t < 60_000_000);
                assert(t / 60_000_000 == 0) by (nonlinear_arith)
                    requires
                        0 <= t < 60_000_000,
                ;
            }
        }
        self.buckets.set(idx, b);
        proof {
            assert(self.buckets_view() =~= after_request(s, client_id@, now as int, rpm, burst));
            assert forall|i: int| 0 <= i < self.buckets@.len() implies #[trigger] self.buckets@[i]@.tokens <= capacity(burst) by {
                if i != idx {
                    assert(self.buckets@[i]@ == old(self).buckets@[i]@);
                }
            }
            assert forall|i: int| 0 <= i < self.buckets@.len() implies #[trigger] self.buckets@[i]@.last <= self.latest by {
                if i != idx {
                    assert(self.buckets@[i]@ == old(self).buckets@[i]@);
                }
            }
        }
        RateLimitResult {
            allowed,
            remaining,
            limit: rpm,
            reset_seconds: 60 / if rpm == 0 { 1 } else { rpm },
        }
    }

    /// Decide one request from `client_id` now, as `allow_request_at` does
    /// at the current reading of the limiter's monotonic clock.
    pub fn allow_request(&mut self, client_id: &str) -> (r: RateLimitResult)
        requires
            old(self).wf(),
        ensures
            final(self).wf(),
            final(self).spec_rpm() == old(self).spec_rpm(),
            final(self).spec_burst() == old(self).spec_burst(),
            r.remaining <= old(self).spec_burst(),
            !r.allowed ==> r.remaining == 0,
            exists|now: u64|
                now >= old(self).spec_clock() && final(self).spec_clock() == now
                && final(self).buckets_view() == after_request(
                    old(self).buckets_view(),
                    client_id@,
                    now as int,
                    old(self).spec_rpm(),
                    old(self).spec_burst(),
                ) && r == request_outcome(
                    old(self).buckets_view(),
                    client_id@,
                    now as int,
                    old(self).spec_rpm(),
                    old(self).spec_burst(),
                ),
    {
        let reading = micros_since(&self.origin);
        let now = if reading > self.latest { reading } else { self.latest };
        self.allow_request_at(client_id, now)
    }

    /// Drop every bucket not refilled within the last `max_age` microseconds,
    /// as `cleanup_at` does at the current reading of the clock.
    pub fn cleanup(&mut self, max_age: u64)
        requires
            old(self).wf(),
        ensures
            final(self).wf(),
            final(self).spec_rpm() == old(self).spec_rpm(),
            final(self).spec_burst() == old(self).spec_burst(),
            exists|now: u64|
                now >= old(self).spec_clock() && final(self).spec_clock() == now
                && final(self).buckets_view() == swept(old(self).buckets_view(), now as int, max_age as int),
    {
        let reading = micros_since(&self.origin);
        let now = if reading > self.latest { reading } else { self.latest };
        self.cleanup_at(max_age, now)
    }

    /// Number of tracked clients.
    pub fn client_count(&self) -> (r: usize)
        ensures
            r == self.buckets_view().len(),
    {
        self.buckets.len()
    }

    /// Drop every bucket not refilled within the last `max_age` microseconds
    /// before `now`.
    pub fn cleanup_at(&mut self, max_age: u64, now: u64)
        requires
            old(self).wf(),
        ensures
            final(self).wf(),
            final(self).spec_rpm() == old(self).spec_rpm(),
            final(self).spec_burst() == old(self).spec_burst(),
            final(self).buckets_view() == swept(old(self).buckets_view(), now as int, max_age as int),
            final(self).spec_clock() == if now > old(self).spec_clock() { now } else { old(self).spec_clock() },
    {
        if now > self.latest {
            self.latest = now;
        }
        let ghost s = self.buckets_view();
        let ghost keep = |b: BucketView| is_fresh(b, now as int, max_age as int);
        let mut kept: Vec<TokenBucket> = Vec::new();
        let mut i: usize = 0;
        while i < self.buckets.len()
            invariant
                s == self.buckets_view(),
                keep == (|b: BucketView| is_fresh(b, now as int, max_age as int)),
                self.wf(),
                i <= s.len(),
                views(kept@) == s.take(i as int).filter(keep),
                keys_unique(views(kept@)),
                forall|j: int| 0 <= j < kept@.len() ==> #[trigger] appears_in(kept@[j]@, s, i as int),
            decreases self.buckets.len() - i,
        {
            let ghost before = kept@;
            assert(s.take(i as int + 1).drop_last() =~= s.take(i as int));
            let b = &self.buckets[i];
            assert(s[i as int] == b@);
            let age = if now >= b.last_refill { now - b.last_refill } else { 0 };
            if age < max_age {
                let c = b.copy();
                proof {
                    assert forall|j: int| 0 <= j < before.len() implies #[trigger] before[j]@.key != c@.key by {
                        assert(appears_in(before[j]@, s, i as int));
                        let k = choose|k: int| 0 <= k < i && s[k] == before[j]@;
                        assert(s[k].key != s[i as int].key);
                    }
                }
                kept.push(c);
                assert(views(kept@) =~= views(before).push(s[i as int]));
                assert forall|j: int| 0 <= j < kept@.len() implies #[trigger] appears_in(kept@[j]@, s, i + 1) by {
                    if j == kept@.len() - 1 {
                        assert(kept@[j]@ == s[i as int]);
                    } else {
                        assert(kept@[j] == before[j]);
                        assert(appears_in(before[j]@, s, i as int));
                        let k = choose|k: int| 0 <= k < i && s[k] == before[j]@;
                        assert(0 <= k < i + 1 && s[k] == kept@[j]@);
                    }
                }
            } else {
                assert forall|j: int| 0 <= j < kept@.len() implies #[trigger] appears_in(kept@[j]@, s, i + 1) by {
                    assert(appears_in(kept@[j]@, s, i as int));
                    let k = choose|k: int| 0 <= k < i && s[k] == kept@[j]@;
                    assert(0 <= k < i + 1 && s[k] == kept@[j]@);
                }
            }
            assert(views(kept@) == s.take(i as int + 1).filter(keep)) by {
                reveal(Seq::filter);
                assert(s.take(i as int + 1).last() == s[i as int]);
                assert(is_fresh(s[i as int], now as int, max_age as int) == (age < max_age));
                assert(keep(s[i as int]) == is_fresh(s[i as int], now as int, max_age as int));
            }
            i += 1;
        }
        assert(s.take(s.len() as int) =~= s);
        proof {
            assert forall|j: int| 0 <= j < kept@.len() implies #[trigger] kept@[j]@.tokens <= capacity(self.burst_size) by {
                assert(appears_in(kept@[j]@, s, s.len() as int));
                let k = choose|k: int| 0 <= k < s.len() && s[k] == kept@[j]@;
                assert(self.buckets@[k]@ == s[k]);
            }
            assert forall|j: int| 0 <= j < kept@.len() implies #[trigger] kept@[j]@.last <= self.latest by {
                assert(appears_in(kept@[j]@, s, s.len() as int));
                let k = choose|k: int| 0 <= k < s.len() && s[k] == kept@[j]@;
                assert(self.buckets@[k]@ == s[k]);
            }
        }
        self.buckets = kept;
    }
}

/// Tracked buckets after `n` requests for `key`, all at time `now`.
pub open spec fn repeated(s: Seq<BucketView>, key: Seq<char>, now: int, rpm: u32, burst: u32, n: nat) -> Seq<BucketView>
    decreases n,
{
    if n == 0 {
        s
    } else {
        after_request(repeated(s, key, now, rpm, burst, (n - 1) as nat), key, now, rpm, burst)
    }
}

proof fn lemma_index_unique(s: Seq<BucketView>, key: Seq<char>, i: int)
    requires
        keys_unique(s),
        0 <= i < s.len(),
        s[i].key == key,
    ensures
        tracks(s, key),
        index_of(s, key) == i,
        bucket_of(s, key) == Some(s[i]),
{
    let j = index_of(s, key);
    assert(s[j].key == key);
}

/// One request for `key` keeps keys unique, leaves every other client's
/// bucket as it was, and leaves `key` with its consumed bucket.
proof fn lemma_request_effect(s: Seq<BucketView>, key: Seq<char>, now: int, rpm: u32, burst: u32)
    requires
        keys_unique(s),
    ensures
        keys_unique(after_request(s, key, now, rpm, burst)),
        bucket_of(after_request(s, key, now, rpm, burst), key)
            == Some(consumed(current(s, key, now, burst), now, rpm, burst)),
        forall|o: Seq<char>| o != key ==> #[trigger] bucket_of(after_request(s, key, now, rpm, burst), o) == bucket_of(s, o),
{
    let s2 = after_request(s, key, now, rpm, burst);
    let b = consumed(current(s, key, now, burst), now, rpm, burst);
    if tracks(s, key) {
        let i = index_of(s, key);
        assert(s[i].key == key);
    }
    assert(b.key == key);
    let i2 = if tracks(s, key) { index_of(s, key) } else { s.len() as int };
    assert(s2.len() == if tracks(s, key) { s.len() } else { s.len() + 1 });
    assert(forall|j: int| 0 <= j < s2.len() && j != i2 ==> s2[j] == s[j]);
    assert(s2[i2] == b);
    assert(keys_unique(s2)) by {
        assert forall|x: int, y: int| 0 <= x < y < s2.len() implies s2[x].key != s2[y].key by {
            if x == i2 {
                assert(s[y].key != s[x].key);
            } else if y == i2 {
                if tracks(s, key) {
                    assert(s[x].key != s[y].key);
                } else {
                    assert(s[x].key != key);
                }
            } else {
                assert(s[x].key != s[y].key);
            }
        }
    }
    lemma_index_unique(s2, key, i2);
    assert forall|o: Seq<char>| o != key implies #[trigger] bucket_of(s2, o) == bucket_of(s, o) by {
        if tracks(s, o) {
            let j = index_of(s, o);
            assert(s[j].key == o);
            lemma_index_unique(s2, o, j);
        } else if tracks(s2, o) {
            let j = index_of(s2, o);
            assert(s2[j].key == o);
            assert(s[j].key == o);
        }
    }
}

/// A request from one client neither changes another client's bucket nor
/// the outcome of the other client's next request, at any time.
pub proof fn lemma_clients_independent(l: RateLimiter, a: Seq<char>, b: Seq<char>, t1: int, t2: int)
    requires
        l.wf(),
        a != b,
    ensures
        bucket_of(after_request(l.buckets_view(), a, t1, l.spec_rpm(), l.spec_burst()), b)
            == bucket_of(l.buckets_view(), b),
        request_outcome(after_request(l.buckets_view(), a, t1, l.spec_rpm(), l.spec_burst()), b, t2, l.spec_rpm(), l.spec_burst())
            == request_outcome(l.buckets_view(), b, t2, l.spec_rpm(), l.spec_burst()),
{
    lemma_request_effect(l.buckets_view(), a, t1, l.spec_rpm(), l.spec_burst());
    assert(bucket_of(after_request(l.buckets_view(), a, t1, l.spec_rpm(), l.spec_burst()), b)
        == bucket_of(l.buckets_view(), b));
}

proof fn lemma_repeated_state(s: Seq<BucketView>, key: Seq<char>, now: int, rpm: u32, burst: u32, n: nat)
    requires
        keys_unique(s),
        !tracks(s, key),
    ensures
        keys_unique(repeated(s, key, now, rpm, burst, n)),
        current(repeated(s, key, now, rpm, burst, n), key, now, burst) == (BucketView {
            key,
            tokens: (burst - if n < burst { n as int } else { burst as int }) * UNITS_PER_TOKEN,
            last: now,
        }),
    decreases n,
{
    if n > 0 {
        let m = (n - 1) as nat;
        lemma_repeated_state(s, key, now, rpm, burst, m);
        lemma_request_effect(repeated(s, key, now, rpm, burst, m), key, now, rpm, burst);
    }
}

/// A client seen for the first time is admitted for exactly `burst_size`
/// requests made at one instant; the next one at that instant is refused.
pub proof fn lemma_fresh_client_burst(l: RateLimiter, key: Seq<char>, now: int, n: nat)
    requires
        l.wf(),
        !tracks(l.buckets_view(), key),
    ensures
        request_outcome(
            repeated(l.buckets_view(), key, now, l.spec_rpm(), l.spec_burst(), n),
            key,
            now,
            l.spec_rpm(),
            l.spec_burst(),
        ).allowed == (n < l.spec_burst()),
{
    lemma_repeated_state(l.buckets_view(), key, now, l.spec_rpm(), l.spec_burst(), n);
}

/// Once a fresh client has spent its whole burst at time `now`, waiting
/// sixty seconds divided by the rate (`wait` microseconds, with
/// `wait * requests_per_minute` one token's worth of units) admits exactly
/// one more request.
pub proof fn lemma_refill_admits_one(l: RateLimiter, key: Seq<char>, now: int, wait: int)
    requires
        l.wf(),
        !tracks(l.buckets_view(), key),
        l.spec_burst() >= 1,
        wait > 0,
        wait * l.spec_rpm() == UNITS_PER_TOKEN,
    ensures
        ({
            let (rpm, burst) = (l.spec_rpm(), l.spec_burst());
            let spent = repeated(l.buckets_view(), key, now, rpm, burst, burst as nat);
            &&& request_outcome(spent, key, now + wait, rpm, burst).allowed
            &&& !request_outcome(after_request(spent, key, now + wait, rpm, burst), key, now + wait, rpm, burst).allowed
        }),
{
    let (rpm, burst) = (l.spec_rpm(), l.spec_burst());
    let spent = repeated(l.buckets_view(), key, now, rpm, burst, burst as nat);
    lemma_repeated_state(l.buckets_view(), key, now, rpm, burst, burst as nat);
    lemma_request_effect(spent, key, now + wait, rpm, burst);
    assert(burst * UNITS_PER_TOKEN >= UNITS_PER_TOKEN) by (nonlinear_arith)
        requires
            burst >= 1,
    ;
    assert((now + wait - now) * rpm == UNITS_PER_TOKEN);
}

/// A sweep with a maximum age of zero leaves no client tracked.
pub proof fn lemma_sweep_zero_age_clears(l: RateLimiter, now: int)
    ensures
        swept(l.buckets_view(), now, 0).len() == 0,
{
    lemma_filter_none(l.buckets_view(), now);
}

proof fn lemma_filter_none(s: Seq<BucketView>, now: int)
    ensures
        swept(s, now, 0).len() == 0,
    decreases s.len(),
{
    reveal(Seq::filter);
    if s.len() > 0 {
        lemma_filter_none(s.drop_last(), now);
    }
}

} // verus!
