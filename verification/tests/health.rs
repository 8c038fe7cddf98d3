use arlb::health::{classify, next_action, probe_target, record, HealthConfig, Healthiness, MonitorAction, ProbeOutcome};
use arlb::http::PathAndQuery;

#[test]
fn probes_are_judged_by_status_and_latency() {
  let answered = |status, latency_ms| ProbeOutcome::Answered { status, latency_ms };
  assert_eq!(classify(answered(200, 300), 300), Healthiness::Healthy);
  assert_eq!(classify(answered(204, 0), 300), Healthiness::Healthy);
  assert_eq!(classify(answered(299, 301), 300), Healthiness::Slow(301));
  assert_eq!(classify(answered(300, 1), 300), Healthiness::Unresponsive(Some(300)));
  assert_eq!(classify(answered(199, 1), 300), Healthiness::Unresponsive(Some(199)));
  assert_eq!(classify(answered(503, 9999), 300), Healthiness::Unresponsive(Some(503)));
  assert_eq!(classify(ProbeOutcome::Failed, 300), Healthiness::Unresponsive(None));
}

#[test]
fn health_is_written_only_where_it_changed() {
  let mut cell = Healthiness::Healthy;
  assert!(!record(&mut cell, Healthiness::Healthy));
  assert!(record(&mut cell, Healthiness::Slow(5)));
  assert_eq!(cell, Healthiness::Slow(5));
  assert!(!record(&mut cell, Healthiness::Slow(5)));
  assert!(record(&mut cell, Healthiness::Slow(6)));
  assert!(record(&mut cell, Healthiness::Unresponsive(None)));
  assert!(record(&mut cell, Healthiness::Unresponsive(Some(500))));
  assert!(!record(&mut cell, Healthiness::Unresponsive(Some(500))));
  assert!(!cell.is_healthy());
  assert!(Healthiness::Healthy.is_healthy());
  assert!(!Healthiness::Slow(1).is_healthy());
}

#[test]
fn probe_goes_to_the_configured_path() {
  let mut config = HealthConfig {
    slow_threshold: 300,
    timeout: 500,
    path: "/".to_string(),
  };
  let uri = probe_target("10.0.0.1:80", &config);
  assert_eq!(uri.authority, Some("10.0.0.1:80".to_string()));
  assert_eq!(
    uri.path_and_query,
    Some(PathAndQuery {
      path: "/".to_string(),
      query: None
    })
  );
  config.path = "/health?deep=1?x".to_string();
  assert_eq!(
    probe_target("b:1", &config).path_and_query,
    Some(PathAndQuery {
      path: "/health".to_string(),
      query: Some("deep=1?x".to_string())
    })
  );
}

#[test]
fn interval_of_zero_switches_the_checks_off() {
  assert_eq!(next_action(0), MonitorAction::Idle(5));
  assert_eq!(next_action(1), MonitorAction::Probe(1));
  assert_eq!(next_action(10), MonitorAction::Probe(10));
}
