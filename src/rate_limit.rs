use vstd::prelude::*;

verus! {

/// Milli-tokens that one request consumes; a bucket counts in milli-tokens so
/// that a refill of `per_second` tokens per second is an exact integer per millisecond.
pub const TOKEN_COST: u64 = 1000;

/// The largest burst whose capacity in milli-tokens fits in a `u64`.
pub const MAX_BURST: u64 = 18446744073709551;

/// Parameters of the per-client token bucket.
#[derive(Clone, Copy, Debug, PartialEq, Eq)]
pub struct RateLimitConfig {
    /// Tokens added to a bucket per second.
    pub per_second: u64,
    /// Tokens a bucket holds at most, and holds when it is created.
    pub burst: u64,
    /// Milliseconds without a request after which a bucket is swept away.
    pub idle_ms: u64,
}

impl RateLimitConfig {
    pub open spec fn wf(self) -> bool {
        self.burst <= MAX_BURST
    }

    /// Capacity of a bucket in milli-tokens.
    pub open spec fn capacity(self) -> int {
        self.burst * TOKEN_COST
    }
}

/// The token bucket of one client.
#[derive(Clone, Copy, Debug, PartialEq, Eq)]
pub struct Bucket {
    /// The client's network identity.
    pub client: u64,
    /// Milli-tokens available.
    pub tokens: u64,
    /// Time in milliseconds of the last refill.
    pub last_refill: u64,
}

/// Milli-tokens in bucket `b` once it has been refilled at time `now`: the
/// time elapsed since the last refill, at `per_second` milli-tokens per
/// millisecond, capped at the capacity. A clock that went back adds nothing.
pub open spec fn refilled(cfg: RateLimitConfig, b: Bucket, now: u64) -> int {
    if now <= b.last_refill {
        b.tokens as int
    } else {
        let full = b.tokens + (now - b.last_refill) * cfg.per_second;
        if full > cfg.capacity() {
            cfg.capacity()
        } else {
            full
        }
    }
}

/// Whether a request at `now` is admitted by bucket `b`.
pub open spec fn admits(cfg: RateLimitConfig, b: Bucket, now: u64) -> bool {
    refilled(cfg, b, now) >= TOKEN_COST
}

/// The bucket after a request at `now`: refilled, then charged one token if
/// the request is admitted.
pub open spec fn charged(cfg: RateLimitConfig, b: Bucket, now: u64) -> Bucket {
    let t = refilled(cfg, b, now);
    Bucket {
        client: b.client,
        tokens: (if t >= TOKEN_COST { t - TOKEN_COST } else { t }) as u64,
        last_refill: if now > b.last_refill { now } else { b.last_refill },
    }
}

/// The bucket a client starts with: full.
pub open spec fn fresh_bucket(cfg: RateLimitConfig, client: u64, now: u64) -> Bucket {
    Bucket { client, tokens: cfg.capacity() as u64, last_refill: now }
}

/// Whether some bucket of `s` belongs to `client`.
pub open spec fn has_client(s: Seq<Bucket>, client: u64) -> bool {
    exists|i: int| 0 <= i < s.len() && s[i].client == client
}

/// The position of `client`'s bucket in `s`, when it has one.
pub open spec fn index_of(s: Seq<Bucket>, client: u64) -> int {
    choose|i: int| 0 <= i < s.len() && s[i].client == client
}

/// The bucket that a request of `client` at `now` is checked against.
pub open spec fn bucket_for(cfg: RateLimitConfig, s: Seq<Bucket>, client: u64, now: u64) -> Bucket {
    if has_client(s, client) {
        s[index_of(s, client)]
    } else {
        fresh_bucket(cfg, client, now)
    }
}

/// Whether bucket `b` has seen no request for longer than the idle threshold.
pub open spec fn is_idle(cfg: RateLimitConfig, b: Bucket, now: u64) -> bool {
    now > b.last_refill && now - b.last_refill > cfg.idle_ms
}

/// Number of requests admitted when bucket `b` receives requests at `times`, in order.
pub open spec fn admitted_count(cfg: RateLimitConfig, b: Bucket, times: Seq<u64>) -> nat
    decreases times.len(),
{
    if times.len() == 0 {
        0
    } else {
        (if admits(cfg, b, times[0]) { 1nat } else { 0nat }) + admitted_count(
            cfg,
            charged(cfg, b, times[0]),
            times.drop_first(),
        )
    }
}

proof fn lemma_admitted_until(cfg: RateLimitConfig, b: Bucket, times: Seq<u64>, end: int)
    requires
        cfg.wf(),
        b.tokens <= cfg.capacity(),
        forall|i: int| 0 <= i < times.len() ==> times[i] <= end,
    ensures
        TOKEN_COST * admitted_count(cfg, b, times) <= b.tokens + cfg.per_second * (
        if end > b.last_refill { end - b.last_refill } else { 0 }),
    decreases times.len(),
{
    if times.len() > 0 {
        let t = times[0];
        let nb = charged(cfg, b, t);
        let rest = times.drop_first();
        assert forall|i: int| 0 <= i < rest.len() implies rest[i] <= end by {
            assert(rest[i] == times[i + 1]);
        }
        lemma_admitted_until(cfg, nb, rest, end);
        let rate = cfg.per_second as int;
        if t > b.last_refill {
            assert(rate * (t - b.last_refill) + rate * (end - t) == rate * (end - b.last_refill))
                by (nonlinear_arith);
            assert(rate * (end - t) >= 0) by (nonlinear_arith)
                requires rate >= 0, end - t >= 0;
        }
    }
}

/// Within one second, a client is admitted at most `burst + per_second`
/// times: whatever its bucket held, any request of that second beyond these
/// is denied.
pub proof fn lemma_one_second_quota(cfg: RateLimitConfig, b: Bucket, times: Seq<u64>)
    requires
        cfg.wf(),
        b.tokens <= cfg.capacity(),
        times.len() > 0,
        forall|i: int| 0 <= i < times.len() ==> times[0] <= #[trigger] times[i] < times[0] + 1000,
    ensures
        admitted_count(cfg, b, times) <= cfg.burst + cfg.per_second,
{
    let t0 = times[0];
    let end = t0 + 999;
    let nb = charged(cfg, b, t0);
    let rest = times.drop_first();
    assert forall|i: int| 0 <= i < rest.len() implies rest[i] <= end by {
        assert(rest[i] == times[i + 1]);
    }
    lemma_admitted_until(cfg, nb, rest, end);
    let rate = cfg.per_second as int;
    let n = admitted_count(cfg, b, times) as int;
    assert(rate * (if end > nb.last_refill { end - nb.last_refill } else { 0 }) <= rate * 999)
        by (nonlinear_arith)
        requires
            rate >= 0,
            nb.last_refill >= t0,
            end == t0 + 999,
    ;
    assert(TOKEN_COST * n <= cfg.capacity() + rate * 999);
    assert(n <= cfg.burst + rate) by (nonlinear_arith)
        requires
            1000 * n <= cfg.burst * 1000 + rate * 999,
            rate >= 0,
    ;
}

/// Per-client token-bucket admission gate.
pub struct RateLimiter {
    config: RateLimitConfig,
    buckets: Vec<Bucket>,
}

impl RateLimiter {
    pub closed spec fn config(&self) -> RateLimitConfig {
        self.config
    }

    /// The buckets, one per client, in the order the clients were first seen.
    pub closed spec fn buckets(&self) -> Seq<Bucket> {
        self.buckets@
    }

    pub open spec fn wf(&self) -> bool {
        &&& self.config().wf()
        &&& forall|i: int, j: int|
            0 <= i < j < self.buckets().len() ==> self.buckets()[i].client
                != self.buckets()[j].client
        &&& forall|i: int|
            0 <= i < self.buckets().len() ==> self.buckets()[i].tokens <= self.config().capacity()
    }

    pub fn new(config: RateLimitConfig) -> (r: Self)
        requires
            config.wf(),
        ensures
            r.wf(),
            r.config() == config,
            r.buckets() == Seq::<Bucket>::empty(),
    {
        RateLimiter { config, buckets: Vec::new() }
    }

    pub fn config_of(&self) -> (r: RateLimitConfig)
        ensures
            r == self.config(),
    {
        self.config
    }

    pub fn client_count(&self) -> (r: usize)
        ensures
            r == self.buckets().len(),
    {
        self.buckets.len()
    }

    /// Decides whether a request of `client` at time `now_ms` is admitted and
    /// charges the client's bucket, creating a full one for a new client.
    pub fn check(&mut self, client: u64, now_ms: u64) -> (admitted: bool)
        requires
            old(self).wf(),
        ensures
            final(self).wf(),
            final(self).config() == old(self).config(),
            admitted == admits(
                old(self).config(),
                bucket_for(old(self).config(), old(self).buckets(), client, now_ms),
                now_ms,
            ),
            has_client(old(self).buckets(), client) ==> final(self).buckets() == old(
                self,
            ).buckets().update(
                index_of(old(self).buckets(), client),
                charged(
                    old(self).config(),
                    old(self).buckets()[index_of(old(self).buckets(), client)],
                    now_ms,
                ),
            ),
            !has_client(old(self).buckets(), client) ==> final(self).buckets() == old(
                self,
            ).buckets().push(
                charged(old(self).config(), fresh_bucket(old(self).config(), client, now_ms), now_ms),
            ),
            has_client(final(self).buckets(), client),
            final(self).buckets()[index_of(final(self).buckets(), client)] == charged(
                old(self).config(),
                bucket_for(old(self).config(), old(self).buckets(), client, now_ms),
                now_ms,
            ),
    {
        let cfg = self.config;
        let mut i: usize = 0;
        while i < self.buckets.len()
            invariant
                *self == *old(self),
                i <= self.buckets@.len(),
                forall|j: int| 0 <= j < i ==> self.buckets@[j].client != client,
            ensures
                i <= self.buckets@.len(),
                forall|j: int| 0 <= j < i ==> self.buckets@[j].client != client,
                i < self.buckets@.len() ==> self.buckets@[i as int].client == client,
            decreases self.buckets@.len() - i,
        {
            if self.buckets[i].client == client {
                break;
            }
            i = i + 1;
        }
        let ghost s = self.buckets();
        if i < self.buckets.len() {
            proof {
                lemma_unique_index(s, i as int);
            }
            let (nb, admitted) = charge(cfg, self.buckets[i], now_ms);
            self.buckets.set(i, nb);
            assert(self.buckets@ == s.update(i as int, nb));
            proof {
                lemma_unique_index(self.buckets(), i as int);
            }
            admitted
        } else {
            assert(!has_client(s, client));
            let b = Bucket { client, tokens: cfg.burst * TOKEN_COST, last_refill: now_ms };
            let (nb, admitted) = charge(cfg, b, now_ms);
            self.buckets.push(nb);
            assert(self.buckets@ == s.push(nb));
            assert forall|j: int| 0 <= j < s.len() implies s[j].client != client by {
                if s[j].client == client {
                    assert(has_client(s, client));
                }
            }
            proof {
                lemma_unique_index(self.buckets(), s.len() as int);
            }
            admitted
        }
    }

    /// Removes the buckets that have seen no request for longer than the idle
    /// threshold, keeping the others in order.
    pub fn sweep(&mut self, now_ms: u64)
        requires
            old(self).wf(),
        ensures
            final(self).wf(),
            final(self).config() == old(self).config(),
            final(self).buckets() == old(self).buckets().filter(
                |b: Bucket| !is_idle(old(self).config(), b, now_ms),
            ),
    {
        let ghost s = self.buckets();
        let ghost keep = |b: Bucket| !is_idle(self.config, b, now_ms);
        let mut kept: Vec<Bucket> = Vec::new();
        let ghost mut from: Seq<int> = Seq::empty();
        let mut i: usize = 0;
        while i < self.buckets.len()
            invariant
                *self == *old(self),
                s == self.buckets(),
                keep == (|b: Bucket| !is_idle(self.config, b, now_ms)),
                i <= s.len(),
                kept@ == s.subrange(0, i as int).filter(keep),
                from.len() == kept@.len(),
                forall|a: int| 0 <= a < from.len() ==> 0 <= #[trigger] from[a] < i && kept@[a] == s[from[a]],
                forall|a: int, b: int| 0 <= a < b < from.len() ==> #[trigger] from[a] < #[trigger] from[b],
            decreases s.len() - i,
        {
            let b = self.buckets[i];
            proof {
                reveal(Seq::filter);
                assert(s.subrange(0, i + 1).drop_last() == s.subrange(0, i as int));
            }
            if !(now_ms > b.last_refill && now_ms - b.last_refill > self.config.idle_ms) {
                kept.push(b);
                proof {
                    from = from.push(i as int);
                }
            }
            i = i + 1;
        }
        proof {
            assert(s.subrange(0, s.len() as int) == s);
            assert forall|a: int, c: int| 0 <= a < c < kept@.len() implies kept@[a].client
                != kept@[c].client by {
                assert(from[a] < from[c]);
                assert(s[from[a]].client != s[from[c]].client);
            }
            assert forall|a: int| 0 <= a < kept@.len() implies kept@[a].tokens
                <= self.config.capacity() by {
                assert(kept@[a] == s[from[a]]);
            }
        }
        self.buckets = kept;
    }
}

/// In a sequence of buckets with distinct clients, the bucket at `i` is the
/// one `index_of` finds for its client.
proof fn lemma_unique_index(s: Seq<Bucket>, i: int)
    requires
        0 <= i < s.len(),
        forall|a: int, b: int| 0 <= a < b < s.len() ==> s[a].client != s[b].client,
    ensures
        has_client(s, s[i].client),
        index_of(s, s[i].client) == i,
{
    assert(has_client(s, s[i].client));
    let k = index_of(s, s[i].client);
    if k < i {
        assert(s[k].client != s[i].client);
    } else if k > i {
        assert(s[i].client != s[k].client);
    }
}

/// Refills bucket `b` at time `now` and charges it one token if it holds one.
fn charge(cfg: RateLimitConfig, b: Bucket, now: u64) -> (r: (Bucket, bool))
    requires
        cfg.wf(),
        b.tokens <= cfg.capacity(),
    ensures
        r.0 == charged(cfg, b, now),
        r.1 == admits(cfg, b, now),
        r.0.tokens <= cfg.capacity(),
{
    let capacity = cfg.burst * TOKEN_COST;
    let tokens: u64 = if now <= b.last_refill {
        b.tokens
    } else {
        let elapsed = now - b.last_refill;
        assert(elapsed as int * cfg.per_second as int <= u64::MAX as int * u64::MAX as int)
            by (nonlinear_arith)
            requires
                elapsed <= u64::MAX,
                cfg.per_second <= u64::MAX,
        ;
        let full: u128 = b.tokens as u128 + elapsed as u128 * cfg.per_second as u128;
        if full > capacity as u128 {
            capacity
        } else {
            full as u64
        }
    };
    let last_refill = if now > b.last_refill { now } else { b.last_refill };
    if tokens >= TOKEN_COST {
        (Bucket { client: b.client, tokens: tokens - TOKEN_COST, last_refill }, true)
    } else {
        (Bucket { client: b.client, tokens, last_refill }, false)
    }
}

} // verus!
