//! Sliding-window accounting: budgets, boundaries, isolation and reset.

use agent_gateway::rate_limiter::RateLimitConfig;
use agent_gateway::rate_limiter::RateLimiter;

#[test]
fn test_rate_limit_allows_under_limit() {
    let mut limiter = RateLimiter::new();

    for _ in 0..5 {
        assert!(limiter.check_agent("test-agent").is_ok());
    }
}

#[test]
fn test_rate_limit_blocks_over_limit() {
    let mut limiter = RateLimiter::new();
    limiter.agent_limit = RateLimitConfig { requests: 3, window_secs: 60 };

    assert!(limiter.check_agent("test-agent").is_ok());
    assert!(limiter.check_agent("test-agent").is_ok());
    assert!(limiter.check_agent("test-agent").is_ok());
    assert!(limiter.check_agent("test-agent").is_err());
}

#[test]
fn test_rate_limiter_allows_under_limit() {
    let mut limiter = RateLimiter::new();

    // Should allow multiple requests under the limit
    for i in 0..10 {
        let result = limiter.check_agent("test-agent-1");
        assert!(result.is_ok(), "Request {} should be allowed", i);
    }
}

#[test]
fn test_rate_limiter_blocks_over_limit() {
    // Create limiter with very low limit for testing
    let mut limiter = RateLimiter::new();
    limiter.agent_limit = RateLimitConfig { requests: 3, window_secs: 60 };

    // First 3 requests should succeed
    assert!(limiter.check_agent("test-agent-2").is_ok());
    assert!(limiter.check_agent("test-agent-2").is_ok());
    assert!(limiter.check_agent("test-agent-2").is_ok());

    // 4th request should fail
    let result = limiter.check_agent("test-agent-2");
    assert!(result.is_err());
}

#[test]
fn test_rate_limiter_separate_agent_limits() {
    let mut limiter = RateLimiter::new();
    limiter.agent_limit = RateLimitConfig { requests: 2, window_secs: 60 };

    // Agent A uses its limit
    assert!(limiter.check_agent("agent-a").is_ok());
    assert!(limiter.check_agent("agent-a").is_ok());
    assert!(limiter.check_agent("agent-a").is_err());

    // Agent B still has its own limit
    assert!(limiter.check_agent("agent-b").is_ok());
    assert!(limiter.check_agent("agent-b").is_ok());
}

#[test]
fn test_rate_limit_boundary() {
    // With a 3-per-60-seconds policy, the first three checks in a window
    // pass and the fourth is rejected.
    let mut limiter = RateLimiter::new();
    limiter.agent_limit = RateLimitConfig { requests: 3, window_secs: 60 };

    let now_ms: i64 = 1_000_000;
    assert!(limiter.check_agent_at("boundary-agent", now_ms).is_ok());
    assert!(limiter.check_agent_at("boundary-agent", now_ms + 1).is_ok());
    assert!(limiter.check_agent_at("boundary-agent", now_ms + 2).is_ok());
    assert!(matches!(
        limiter.check_agent_at("boundary-agent", now_ms + 3),
        Err(agent_gateway::errors::GatewayError::RateLimitExceeded)
    ));
}

#[test]
fn test_rate_limit_window_reset() {
    // After a pause longer than the window, the budget is whole again.
    let mut limiter = RateLimiter::new();
    limiter.agent_limit = RateLimitConfig { requests: 2, window_secs: 60 };

    let now_ms: i64 = 10_000_000;
    assert!(limiter.check_agent_at("reset-agent", now_ms).is_ok());
    assert!(limiter.check_agent_at("reset-agent", now_ms + 1).is_ok());
    assert!(limiter.check_agent_at("reset-agent", now_ms + 2).is_err());

    // 61 seconds later, both old timestamps have left the window.
    let later = now_ms + 61_000;
    assert!(limiter.check_agent_at("reset-agent", later).is_ok());
    assert!(limiter.check_agent_at("reset-agent", later + 1).is_ok());
    assert!(limiter.check_agent_at("reset-agent", later + 2).is_err());
}

#[test]
fn test_rate_limit_service_policies() {
    // The bank service has the tighter configured policy; unknown services
    // fall to the 100/60 default.
    let mut limiter = RateLimiter::new();
    let now_ms: i64 = 5_000_000;
    for i in 0..50 {
        assert!(limiter.check_service_at("bank", now_ms + i).is_ok());
    }
    assert!(limiter.check_service_at("bank", now_ms + 50).is_err());

    for i in 0..100 {
        assert!(limiter.check_service_at("someplace", now_ms + i).is_ok());
    }
    assert!(limiter.check_service_at("someplace", now_ms + 100).is_err());
}

#[test]
fn test_remaining_budget() {
    let mut limiter = RateLimiter::new();
    let config = RateLimitConfig { requests: 5, window_secs: 60 };
    let now_ms: i64 = 2_000_000;

    assert_eq!(limiter.remaining("agent:k", &config, now_ms), 5);
    limiter.check_at("agent:k", &config, now_ms).unwrap();
    limiter.check_at("agent:k", &config, now_ms + 1).unwrap();
    assert_eq!(limiter.remaining("agent:k", &config, now_ms + 2), 3);
}
