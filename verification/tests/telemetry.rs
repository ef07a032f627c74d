use veloce::telemetry::{is_switched_on, otlp_disabled, otlp_endpoint, service_name};

fn some(s: &str) -> Option<String> {
    Some(s.to_string())
}

#[test]
fn otlp_env_helpers() {
    assert_eq!(otlp_endpoint(&None, &None), None);

    let disabled = some("true");
    let endpoint = some("http://jaeger:4317");
    assert!(otlp_disabled(&disabled));
    assert_eq!(otlp_endpoint(&disabled, &endpoint), None);

    assert_eq!(otlp_endpoint(&None, &endpoint).as_deref(), Some("http://jaeger:4317"));
}

#[test]
fn empty_endpoints_are_none() {
    assert_eq!(otlp_endpoint(&None, &some("")), None);
    assert_eq!(otlp_endpoint(&some("0"), &some("x")).as_deref(), Some("x"));
    assert!(is_switched_on(&some("1")));
    assert!(!is_switched_on(&some("yes")));
    assert!(!is_switched_on(&None));
}

#[test]
fn services_are_named_after_workers() {
    assert_eq!(service_name(&None, "w1"), "veloce-worker-w1");
    assert_eq!(service_name(&some("mine"), "w1"), "mine");
}
