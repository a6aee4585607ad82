use open_gateway::health::{format_uptime, HealthChecker, HealthStatus};

#[test]
fn test_liveness() {
    let checker = HealthChecker::new();
    let health = checker.liveness();

    assert_eq!(health.status, HealthStatus::Healthy);
    assert!(!health.version.is_empty());
}

#[test]
fn test_readiness() {
    let mut checker = HealthChecker::new();

    // Default is ready
    let health = checker.readiness();
    assert_eq!(health.status, HealthStatus::Healthy);

    // Set not ready
    checker.set_ready(false);
    let health = checker.readiness();
    assert_eq!(health.status, HealthStatus::Unhealthy);

    // Set ready again
    checker.set_ready(true);
    let health = checker.readiness();
    assert_eq!(health.status, HealthStatus::Healthy);
}

#[test]
fn test_uptime_formatted() {
    let checker = HealthChecker::new();
    let uptime = checker.uptime_formatted();

    // Should start with a number
    assert!(uptime.chars().next().unwrap().is_ascii_digit());
}

#[test]
fn test_format_uptime_values() {
    assert_eq!(format_uptime(0), "0s");
    assert_eq!(format_uptime(59), "59s");
    assert_eq!(format_uptime(60), "1m 0s");
    assert_eq!(format_uptime(3661), "1h 1m 1s");
    assert_eq!(format_uptime(90061), "1d 1h 1m 1s");
    assert_eq!(format_uptime(86400), "1d 0h 0m 0s");
}

#[test]
fn test_readiness_message() {
    let mut checker = HealthChecker::new();
    checker.set_ready(false);
    let health = checker.readiness();
    assert_eq!(health.message.as_deref(), Some("Service is not ready"));
    assert!(!checker.is_ready());
}

#[test]
fn test_status_keywords() {
    assert_eq!(HealthStatus::Healthy.as_str(), "healthy");
    assert_eq!(HealthStatus::Unhealthy.as_str(), "unhealthy");
    assert_eq!(HealthStatus::Degraded.as_str(), "degraded");
}
