use pod_metrics::errors::{
    parse_error, pod_not_found, rate_limit_error, timeout_error, MetricsError, MetricsResultExt,
};
use std::time::Duration;

#[test]
fn rate_limit_is_retried_after_its_delay() {
    let e = rate_limit_error(Duration::from_secs(5));
    assert!(e.is_retriable());
    assert_eq!(e.retry_delay(), Duration::from_secs(5));
    assert!(!e.should_alert());
    let e = rate_limit_error(Duration::from_millis(750));
    assert_eq!(e.retry_delay(), Duration::from_millis(750));
}

#[test]
fn pod_not_found_is_not_retriable() {
    let e = pod_not_found("web".to_string(), "default".to_string());
    assert!(!e.is_retriable());
    assert_eq!(e.retry_delay(), Duration::from_secs(1));
    assert!(!e.should_alert());
    assert!(matches!(e, MetricsError::PodNotFound(ref p, ref n) if p == "web" && n == "default"));
}

#[test]
fn authorization_alerts_and_parse_does_not() {
    assert!(MetricsError::AuthorizationError("denied".to_string()).should_alert());
    let e = parse_error("bad".to_string());
    assert!(!e.should_alert());
    assert!(!e.is_retriable());
    assert_eq!(e.retry_delay(), Duration::from_secs(1));
}

#[test]
fn timeout_policy() {
    let e = timeout_error(Duration::from_secs(30));
    assert!(e.is_retriable());
    assert_eq!(e.retry_delay(), Duration::from_secs(5));
    assert!(!e.should_alert());
}

#[test]
fn remaining_policies() {
    let server = MetricsError::MetricsServerError("down".to_string());
    assert!(server.is_retriable());
    assert_eq!(server.retry_delay(), Duration::from_secs(10));
    assert!(server.should_alert());

    let network = MetricsError::NetworkError("reset".to_string());
    assert!(network.is_retriable());
    assert_eq!(network.retry_delay(), Duration::from_secs(1));
    assert!(!network.should_alert());

    let internal = MetricsError::InternalError("bug".to_string());
    assert!(!internal.is_retriable());
    assert!(internal.should_alert());

    for e in [
        MetricsError::MetricsNotAvailable("p".to_string(), "n".to_string()),
        MetricsError::InvalidMetricFormat("x".to_string()),
    ] {
        assert!(!e.is_retriable());
        assert!(!e.should_alert());
        assert_eq!(e.retry_delay(), Duration::from_secs(1));
    }
}

#[test]
fn messages_name_the_failure() {
    assert_eq!(parse_error("12q".to_string()).message(), "Failed to parse metric value: 12q");
    assert_eq!(
        pod_not_found("web".to_string(), "prod".to_string()).message(),
        "Pod web not found in namespace prod"
    );
    assert_eq!(
        MetricsError::MetricsNotAvailable("web".to_string(), "prod".to_string()).message(),
        "Metrics not available for pod web in namespace prod"
    );
    assert_eq!(timeout_error(Duration::from_secs(5)).message(), "Metrics API timeout after 5s");
    assert_eq!(
        rate_limit_error(Duration::from_millis(1500)).message(),
        "Rate limit exceeded, retry after 1.5s"
    );
    assert_eq!(MetricsError::NetworkError("reset".to_string()).message(), "Network error: reset");
}

#[test]
fn errors_gain_context() {
    let failed: Result<u32, MetricsError> = Err(parse_error("x".to_string()));
    match failed.on_metrics_error(|| "reading usage".to_string()) {
        Err(MetricsError::InternalError(m)) => {
            assert_eq!(m, "reading usage - Failed to parse metric value: x")
        }
        other => panic!("expected an internal error, got {:?}", other),
    }
    let fine: Result<u32, MetricsError> = Ok(3);
    assert_eq!(fine.on_metrics_error(|| "unused".to_string()).unwrap(), 3);
}

#[test]
fn delays_read_back_as_seconds() {
    assert_eq!(timeout_error(Duration::from_secs(9)).retry_delay().as_secs(), 5);
    assert_eq!(rate_limit_error(Duration::from_secs(42)).retry_delay().as_secs(), 42);
}
