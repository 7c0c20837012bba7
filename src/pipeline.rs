use vstd::prelude::*;
use crate::admission::{after_arrival, AdmissionController, Arrival};
use crate::rate_limit::{admits, bucket_for, RateLimitConfig, RateLimiter};

verus! {

/// Largest decoded request body, in bytes.
pub const MAX_BODY_BYTES: u64 = 134217728;

/// Seconds a request may take before it is aborted.
pub const REQUEST_TIMEOUT_SECS: u64 = 10;

/// Requests processed at once.
pub const CONCURRENCY_LIMIT: u64 = 1024;

/// Requests that may wait for a permit when all are taken.
pub const QUEUE_LIMIT: u64 = 256;

/// Tokens a client's bucket gains per second.
pub const RATE_PER_SECOND: u64 = 50;

/// Tokens a client's bucket holds at most.
pub const RATE_BURST: u64 = 100;

/// Milliseconds after which an unused bucket is swept away.
pub const RATE_IDLE_MS: u64 = 60000;

/// The network address a request comes from.
#[derive(Clone, Copy, Debug, PartialEq, Eq, Structural)]
pub enum ClientAddr {
    V4(u32),
    V6(u128),
}

/// The rate-limit key of a client: its IPv4 address, or the /64 network of
/// its IPv6 address, since one host commonly holds a whole /64.
pub fn client_key(addr: ClientAddr) -> (r: u64)
    ensures
        match addr {
            ClientAddr::V4(a) => r == a,
            ClientAddr::V6(b) => r == b / 0x1_0000_0000_0000_0000,
        },
{
    match addr {
        ClientAddr::V4(a) => a as u64,
        ClientAddr::V6(b) => (b / 0x1_0000_0000_0000_0000u128) as u64,
    }
}

/// The rate limit every client is held to.
pub fn default_rate() -> (r: RateLimitConfig)
    ensures
        r.wf(),
        r == (RateLimitConfig {
            per_second: RATE_PER_SECOND,
            burst: RATE_BURST,
            idle_ms: RATE_IDLE_MS,
        }),
{
    RateLimitConfig { per_second: RATE_PER_SECOND, burst: RATE_BURST, idle_ms: RATE_IDLE_MS }
}

/// Why a request was turned away or failed.
#[derive(Clone, Copy, Debug, PartialEq, Eq, Structural)]
pub enum Rejection {
    /// Malformed multipart body, missing file name or empty batch.
    BadRequest,
    /// Missing or wrong credentials.
    Unauthorized,
    /// The client used up its rate-limit quota.
    RateLimited,
    /// No admission permit and no room to wait for one.
    Overloaded,
    /// The request ran out of time.
    TimedOut,
    /// The decoded body is larger than allowed.
    PayloadTooLarge,
    /// A failure on the server's side.
    Internal,
}

pub open spec fn rejection_status(r: Rejection) -> u16 {
    match r {
        Rejection::BadRequest => 400,
        Rejection::Unauthorized => 401,
        Rejection::RateLimited => 429,
        Rejection::Overloaded => 503,
        Rejection::TimedOut => 408,
        Rejection::PayloadTooLarge => 413,
        Rejection::Internal => 500,
    }
}

impl Rejection {
    /// The HTTP status that signals this rejection.
    pub fn status(&self) -> (r: u16)
        ensures
            r == rejection_status(*self),
    {
        match self {
            Rejection::BadRequest => 400,
            Rejection::Unauthorized => 401,
            Rejection::RateLimited => 429,
            Rejection::Overloaded => 503,
            Rejection::TimedOut => 408,
            Rejection::PayloadTooLarge => 413,
            Rejection::Internal => 500,
        }
    }
}

/// A failure raised by a layer of the request pipeline.
#[derive(Clone, Copy, Debug, PartialEq, Eq, Structural)]
pub enum Failure {
    /// The request timed out.
    Elapsed,
    /// The load-shedding layer found no capacity.
    Overloaded,
    /// Anything else; its detail goes to the log, not to the client.
    Other,
}

/// The response a pipeline failure is turned into.
#[derive(Clone, Debug)]
pub struct ErrorResponse {
    pub status: u16,
    pub message: String,
}

/// Turns a pipeline failure into a response, keeping timeouts and overload
/// apart from internal errors, and telling the client nothing of the latter's detail.
pub fn handle_error(failure: Failure) -> (r: ErrorResponse)
    ensures
        match failure {
            Failure::Elapsed => r.status == 408 && r.message@ == "request timed out"@,
            Failure::Overloaded => r.status == 503 && r.message@
                == "service is overloaded, try again later"@,
            Failure::Other => r.status == 500 && r.message@ == "Unhandled internal error"@,
        },
{
    match failure {
        Failure::Elapsed => ErrorResponse {
            status: 408,
            message: String::from_str("request timed out"),
        },
        Failure::Overloaded => ErrorResponse {
            status: 503,
            message: String::from_str("service is overloaded, try again later"),
        },
        Failure::Other => ErrorResponse {
            status: 500,
            message: String::from_str("Unhandled internal error"),
        },
    }
}

/// An error met while handling a request, reported to the client as an
/// internal error without its detail.
#[derive(Clone, Debug)]
pub struct ServerError {
    detail: String,
}

impl ServerError {
    pub closed spec fn detail_view(&self) -> Seq<char> {
        self.detail@
    }

    pub fn new(detail: String) -> (r: Self)
        ensures
            r.detail_view() == detail@,
    {
        ServerError { detail }
    }

    /// What went wrong, for the log.
    pub fn detail(&self) -> (r: &str)
        ensures
            r@ == self.detail_view(),
    {
        self.detail.as_str()
    }

    /// The status the client sees.
    pub fn status(&self) -> (r: u16)
        ensures
            r == 500,
    {
        500
    }
}

/// What the admission stages decide for a request.
#[derive(Clone, Copy, Debug, PartialEq, Eq, Structural)]
pub enum Entry {
    /// It holds a permit: on to the handler.
    Proceed,
    /// It waits for a permit under this ticket.
    Wait(u64),
    /// It is turned away before reaching the handler.
    Reject(Rejection),
}

/// The shared admission stages in pipeline order: the rate limiter, then the
/// concurrency controller.
pub struct Gate {
    pub limiter: RateLimiter,
    pub admission: AdmissionController,
}

impl Gate {
    pub open spec fn wf(&self) -> bool {
        self.limiter.wf() && self.admission@.wf()
    }

    pub fn new(rate: RateLimitConfig, permits: u64, queue_limit: u64) -> (r: Self)
        requires
            rate.wf(),
            permits > 0,
        ensures
            r.wf(),
            r.limiter.config() == rate,
            r.limiter.buckets().len() == 0,
            r.admission@.permits == permits,
            r.admission@.queue_limit == queue_limit,
            r.admission@.is_idle(),
            !r.admission@.shutting_down,
    {
        Gate {
            limiter: RateLimiter::new(rate),
            admission: AdmissionController::new(permits, queue_limit),
        }
    }

    /// A request of `client` arrives at `now_ms`. A client over its quota is
    /// rejected without asking for a permit; otherwise the request is
    /// admitted, queued or shed by the concurrency controller.
    pub fn enter(&mut self, client: u64, now_ms: u64) -> (r: Entry)
        requires
            old(self).wf(),
        ensures
            final(self).wf(),
            final(self).limiter.config() == old(self).limiter.config(),
            ({
                let cfg = old(self).limiter.config();
                let allowed = admits(cfg, bucket_for(cfg, old(self).limiter.buckets(), client, now_ms), now_ms);
                let (next, arrival) = after_arrival(old(self).admission@);
                &&& !allowed ==> r == Entry::Reject(Rejection::RateLimited) && final(self).admission@
                    == old(self).admission@
                &&& allowed ==> final(self).admission@ == next && r == match arrival {
                    Arrival::Admitted => Entry::Proceed,
                    Arrival::Queued(t) => Entry::Wait(t),
                    Arrival::Shed => Entry::Reject(Rejection::Overloaded),
                }
            }),
    {
        if !self.limiter.check(client, now_ms) {
            return Entry::Reject(Rejection::RateLimited);
        }
        match self.admission.arrive() {
            Arrival::Admitted => Entry::Proceed,
            Arrival::Queued(t) => Entry::Wait(t),
            Arrival::Shed => Entry::Reject(Rejection::Overloaded),
        }
    }
}

} // verus!
