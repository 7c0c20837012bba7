use upload_server::pipeline::{
    client_key, default_rate, handle_error, ClientAddr, Entry, Failure, Gate, Rejection, ServerError, CONCURRENCY_LIMIT, MAX_BODY_BYTES,
};
use upload_server::rate_limit::RateLimitConfig;

#[test]
fn timeout_maps_to_request_timeout() {
    let r = handle_error(Failure::Elapsed);
    assert_eq!(r.status, 408);
    assert_eq!(r.message, "request timed out");
}

#[test]
fn overload_maps_to_service_unavailable() {
    let r = handle_error(Failure::Overloaded);
    assert_eq!(r.status, 503);
    assert_eq!(r.message, "service is overloaded, try again later");
}

#[test]
fn other_failures_map_to_internal_error() {
    let r = handle_error(Failure::Other);
    assert_eq!(r.status, 500);
    assert_eq!(r.message, "Unhandled internal error");
}

#[test]
fn rejection_statuses() {
    assert_eq!(Rejection::BadRequest.status(), 400);
    assert_eq!(Rejection::Unauthorized.status(), 401);
    assert_eq!(Rejection::RateLimited.status(), 429);
    assert_eq!(Rejection::Overloaded.status(), 503);
    assert_eq!(Rejection::TimedOut.status(), 408);
    assert_eq!(Rejection::PayloadTooLarge.status(), 413);
    assert_eq!(Rejection::Internal.status(), 500);
}

#[test]
fn server_error_is_internal() {
    let e = ServerError::new("open failed: static/a.txt".to_string());
    assert_eq!(e.status(), 500);
    assert_eq!(e.detail(), "open failed: static/a.txt");
}

#[test]
fn limits() {
    assert_eq!(MAX_BODY_BYTES, 128 * 1024 * 1024);
    assert_eq!(CONCURRENCY_LIMIT, 1024);
}

#[test]
fn rate_limited_request_takes_no_permit() {
    let rate = RateLimitConfig { per_second: 0, burst: 1, idle_ms: 1000 };
    let mut gate = Gate::new(rate, 4, 0);
    assert_eq!(gate.enter(9, 0), Entry::Proceed);
    assert_eq!(gate.enter(9, 10), Entry::Reject(Rejection::RateLimited));
    assert_eq!(gate.admission.in_flight(), 1);
}

#[test]
fn gate_queues_and_sheds() {
    let rate = RateLimitConfig { per_second: 100, burst: 100, idle_ms: 1000 };
    let mut gate = Gate::new(rate, 1, 1);
    assert_eq!(gate.enter(1, 0), Entry::Proceed);
    assert_eq!(gate.enter(2, 0), Entry::Wait(0));
    assert_eq!(gate.enter(3, 0), Entry::Reject(Rejection::Overloaded));
    assert_eq!(gate.admission.release(), Some(0));
}

#[test]
fn client_keys() {
    assert_eq!(client_key(ClientAddr::V4(0x7f00_0001)), 0x7f00_0001);
    assert_eq!(
        client_key(ClientAddr::V6(0x2001_0db8_0000_0001_0000_0000_0000_0042)),
        0x2001_0db8_0000_0001
    );
}

#[test]
fn default_rate_values() {
    let r = default_rate();
    assert_eq!((r.per_second, r.burst, r.idle_ms), (50, 100, 60000));
}
