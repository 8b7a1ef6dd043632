use terraguard::json::JsonValue;
use terraguard::monitor::{DriftMonitor, Timestamp};
use terraguard::types::Severity;

fn text(s: &str) -> JsonValue {
    JsonValue::Str(s.to_string())
}

fn number(n: i64) -> JsonValue {
    JsonValue::Integer(n)
}

fn list(items: Vec<JsonValue>) -> JsonValue {
    JsonValue::Array(items)
}

fn obj(members: Vec<(&str, JsonValue)>) -> JsonValue {
    JsonValue::Object(members.into_iter().map(|(k, v)| (k.to_string(), v)).collect())
}

fn group(port: i64, cidr: &str) -> JsonValue {
    obj(vec![(
        "ingress",
        list(vec![obj(vec![
            ("from_port", number(port)),
            ("to_port", number(port)),
            ("cidr_blocks", list(vec![text(cidr)])),
        ])]),
    )])
}

fn at(seconds: i64) -> Timestamp {
    Timestamp { seconds, nanos: 0 }
}

#[test]
fn first_check_reports_no_drift() {
    let mut monitor = DriftMonitor::new();
    assert!(monitor.check_resource("sg-1", "security_group", &group(22, "0.0.0.0/0")).is_none());
    let history = monitor.get_resource_history("sg-1").unwrap();
    assert_eq!(history.state_history.len(), 1);
    assert_eq!(history.drift_count, 0);
    assert_eq!(history.current_issues.len(), 2);
    assert_eq!(history.application, "unknown");
}

#[test]
fn identical_configuration_reports_no_drift() {
    let mut monitor = DriftMonitor::new();
    monitor.check_resource_at("sg-1", "security_group", &group(22, "0.0.0.0/0"), at(1));
    assert!(monitor.check_resource_at("sg-1", "security_group", &group(22, "0.0.0.0/0"), at(2)).is_none());
    let history = monitor.get_resource_history("sg-1").unwrap();
    assert_eq!(history.state_history.len(), 2);
    assert_eq!(history.drift_count, 0);
}

#[test]
fn member_order_does_not_change_fingerprint() {
    let mut monitor = DriftMonitor::new();
    let a = obj(vec![("acl", text("private")), ("versioning", obj(vec![("enabled", JsonValue::Bool(true))]))]);
    let b = obj(vec![("versioning", obj(vec![("enabled", JsonValue::Bool(true))])), ("acl", text("private"))]);
    monitor.check_resource_at("b-1", "s3_bucket", &a, at(1));
    monitor.check_resource_at("b-1", "s3_bucket", &b, at(2));
    let history = monitor.get_resource_history("b-1").unwrap();
    assert_eq!(history.drift_count, 0);
    assert_eq!(history.state_history[0].config_hash, history.state_history[1].config_hash);
}

#[test]
fn changed_issues_report_drift_with_delta() {
    let mut monitor = DriftMonitor::new();
    monitor.map_resource_to_app("sg-1", "shop");
    monitor.check_resource_at("sg-1", "security_group", &group(22, "0.0.0.0/0"), at(1));
    let event = monitor
        .check_resource_at("sg-1", "security_group", &group(443, "0.0.0.0/0"), at(2))
        .unwrap();
    assert_eq!(event.application, "shop");
    assert_eq!(event.resource_type, "security_group");
    assert_eq!(event.detected_at, at(2));
    let new: Vec<&str> = event.new_issues.iter().map(|i| i.message.as_str()).collect();
    let resolved: Vec<&str> = event.resolved_issues.iter().map(|i| i.message.as_str()).collect();
    assert_eq!(new, vec!["Open ingress from 0.0.0.0/0 for port 443 (HTTPS)"]);
    assert_eq!(
        resolved,
        vec!["Open ingress from 0.0.0.0/0 for port 22 (SSH)", "Port 22 (SSH) is disallowed for inbound traffic"]
    );

    let history = monitor.get_resource_history("sg-1").unwrap();
    assert_eq!(history.drift_count, 1);
    assert_eq!(history.last_modified, at(2));
    assert_eq!(history.first_seen, at(1));

    let metrics = monitor.get_app_metrics("shop").unwrap();
    assert_eq!(metrics.resource_count, 1);
    assert_eq!(metrics.total_drifts, 1);
    assert_eq!(metrics.last_drift, Some(at(2)));
    assert_eq!(metrics.issues.get(Severity::High), 1);
    assert_eq!(metrics.issues.get(Severity::Medium), 0);
    assert_eq!(monitor.get_recent_drifts().len(), 1);
    assert_eq!(monitor.get_app_drifts("shop").len(), 1);
    assert_eq!(monitor.get_app_drifts("unknown").len(), 0);
}

#[test]
fn changed_configuration_with_same_issues_is_quiet() {
    let mut monitor = DriftMonitor::new();
    monitor.check_resource_at("sg-1", "security_group", &group(22, "10.0.0.0/8"), at(1));
    assert!(monitor.check_resource_at("sg-1", "security_group", &group(22, "10.1.0.0/16"), at(2)).is_none());
    let history = monitor.get_resource_history("sg-1").unwrap();
    assert_eq!(history.drift_count, 1);
    assert_eq!(monitor.get_app_metrics("unknown").unwrap().total_drifts, 0);
}

#[test]
fn history_keeps_last_ten_snapshots() {
    let mut monitor = DriftMonitor::new();
    for i in 0..11 {
        let config = obj(vec![("acl", text("private")), ("revision", number(i))]);
        monitor.check_resource_at("b-1", "s3_bucket", &config, at(i));
    }
    let history = monitor.get_resource_history("b-1").unwrap();
    assert_eq!(history.state_history.len(), 10);
    assert_eq!(history.state_history[0].captured_at, at(1));
    assert_eq!(history.state_history[9].captured_at, at(10));
    assert_eq!(history.drift_count, 10);
}

#[test]
fn recent_drifts_keep_last_hundred() {
    let mut monitor = DriftMonitor::new();
    for i in 0..103 {
        let port = if i % 2 == 0 { 22 } else { 443 };
        monitor.check_resource_at("sg-1", "security_group", &group(port, "0.0.0.0/0"), at(i));
    }
    let drifts = monitor.get_recent_drifts();
    assert_eq!(drifts.len(), 100);
    assert_eq!(drifts[0].detected_at, at(3));
    assert_eq!(drifts[99].detected_at, at(102));
}

#[test]
fn mapping_and_metrics() {
    let mut monitor = DriftMonitor::new();
    monitor.map_resource_to_app("sg-1", "shop");
    monitor.map_resource_to_app("sg-1", "billing");
    assert_eq!(monitor.get_app_metrics("shop").unwrap().resource_count, 0);
    monitor.check_resource_at("sg-1", "security_group", &group(22, "0.0.0.0/0"), at(1));
    monitor.check_resource_at("b-1", "s3_bucket", &obj(vec![]), at(1));
    monitor.check_resource_at("x-1", "queue", &obj(vec![]), at(1));

    let billing = monitor.get_app_metrics("billing").unwrap();
    assert_eq!(billing.resource_count, 1);
    assert_eq!(billing.issues.get(Severity::High), 2);
    let unknown = monitor.get_app_metrics("unknown").unwrap();
    assert_eq!(unknown.resource_count, 2);
    // The severity counts are those of the last resource checked.
    assert_eq!(unknown.issues.get(Severity::Medium), 0);
    assert_eq!(monitor.get_application_metrics().len(), 3);
    assert!(monitor.get_app_metrics("missing").is_none());
    assert!(monitor.get_resource_history("x-1").unwrap().current_issues.is_empty());
}
