use terraguard::json::JsonValue;
use terraguard::rules::{fast_validate, kind_from_address, kind_from_tag, FastValidator, ResourceKind};
use terraguard::types::Severity;

fn text(s: &str) -> JsonValue {
    JsonValue::Str(s.to_string())
}

fn number(n: i64) -> JsonValue {
    JsonValue::Integer(n)
}

fn list(items: Vec<JsonValue>) -> JsonValue {
    JsonValue::Array(items)
}

fn obj(members: Vec<(&str, JsonValue)>) -> JsonValue {
    JsonValue::Object(members.into_iter().map(|(k, v)| (k.to_string(), v)).collect())
}

fn rule(from: i64, to: i64, cidr: &str) -> JsonValue {
    obj(vec![
        ("from_port", number(from)),
        ("to_port", number(to)),
        ("cidr_blocks", list(vec![text(cidr)])),
    ])
}

#[test]
fn test_check_open_ingress() {
    let validator = FastValidator::new();

    let resource = obj(vec![("ingress", list(vec![rule(22, 22, "0.0.0.0/0")]))]);
    let issues = validator.check_open_ingress("aws_security_group.test".to_string(), &resource);
    assert_eq!(issues.len(), 1);
    assert!(issues[0].message.contains("0.0.0.0/0"));
    assert!(issues[0].message.contains("SSH"));

    let resource = obj(vec![("ingress", list(vec![rule(443, 443, "10.0.0.0/8")]))]);
    let issues = validator.check_open_ingress("aws_security_group.test".to_string(), &resource);
    assert_eq!(issues.len(), 0);
}

#[test]
fn test_check_ports() {
    let validator = FastValidator::new();

    let resource = obj(vec![("ingress", list(vec![rule(22, 22, "10.0.0.0/8")]))]);
    let issues = validator.check_ports("aws_security_group.test".to_string(), &resource);
    assert_eq!(issues.len(), 1);
    assert!(issues[0].message.contains("22"));
    assert!(issues[0].message.contains("SSH"));

    let resource = obj(vec![("ingress", list(vec![rule(1000, 5000, "10.0.0.0/8")]))]);
    let issues = validator.check_ports("aws_security_group.test".to_string(), &resource);
    assert_eq!(issues.len(), 1);
    assert!(issues[0].message.contains("1000-5000"));
}

#[test]
fn range_holding_rdp_port_is_high() {
    // 3389 lies inside 1000-5000, so the range is reported as disallowed.
    let validator = FastValidator::new();
    let resource = obj(vec![("ingress", list(vec![rule(1000, 5000, "10.0.0.0/8")]))]);
    let issues = validator.check_ports("sg".to_string(), &resource);
    assert_eq!(issues.len(), 1);
    assert_eq!(issues[0].message, "Port range 1000-5000 contains disallowed ports");
    assert_eq!(issues[0].severity, Severity::High);
}

#[test]
fn wide_range_without_disallowed_port_is_medium() {
    let validator = FastValidator::new();
    let resource = obj(vec![("ingress", list(vec![rule(5000, 9000, "10.0.0.0/8")]))]);
    let issues = validator.check_ports("sg".to_string(), &resource);
    assert_eq!(issues.len(), 1);
    assert_eq!(issues[0].message, "Overly permissive port range 5000-9000");
    assert_eq!(issues[0].severity, Severity::Medium);
}

#[test]
fn narrow_range_without_disallowed_port_is_quiet() {
    let validator = FastValidator::new();
    let resource = obj(vec![("ingress", list(vec![rule(8000, 8100, "10.0.0.0/8")]))]);
    assert_eq!(validator.check_ports("sg".to_string(), &resource).len(), 0);
}

#[test]
fn single_ports_against_policy() {
    let validator = FastValidator::new();
    let resource = obj(vec![(
        "ingress",
        list(vec![rule(443, 443, "10.0.0.0/8"), rule(9000, 9000, "10.0.0.0/8"), rule(3389, 3389, "10.0.0.0/8")]),
    )]);
    let issues = validator.check_ports("sg".to_string(), &resource);
    assert_eq!(issues.len(), 2);
    assert_eq!(issues[0].message, "Port 9000 is not explicitly allowed for inbound traffic");
    assert_eq!(issues[0].severity, Severity::Medium);
    assert_eq!(issues[1].message, "Port 3389 (RDP) is disallowed for inbound traffic");
    assert_eq!(issues[1].severity, Severity::High);
}

#[test]
fn negative_port_is_rendered_with_sign() {
    let validator = FastValidator::new();
    let resource = obj(vec![("ingress", list(vec![rule(-1, -1, "10.0.0.0/8")]))]);
    let issues = validator.check_ports("sg".to_string(), &resource);
    assert_eq!(issues.len(), 1);
    assert_eq!(issues[0].message, "Port -1 is not explicitly allowed for inbound traffic");
}

#[test]
fn egress_rules() {
    let validator = FastValidator::new();
    let open_all = obj(vec![("cidr_blocks", list(vec![text("0.0.0.0/0")]))]);
    let wide = rule(0, 65535, "10.0.0.0/8");
    let resource = obj(vec![("egress", list(vec![open_all, wide]))]);
    let issues = validator.check_ports("sg".to_string(), &resource);
    assert_eq!(issues.len(), 2);
    assert_eq!(issues[0].message, "Unrestricted egress to 0.0.0.0/0 for all ports");
    assert_eq!(issues[0].severity, Severity::Medium);
    assert_eq!(issues[1].message, "Overly permissive egress port range 0-65535");
    assert_eq!(issues[1].severity, Severity::Low);
}

#[test]
fn open_ingress_messages() {
    let validator = FastValidator::new();
    let all_ports = obj(vec![("cidr_blocks", list(vec![text("10.0.0.0/8"), text("0.0.0.0/0"), text("0.0.0.0/0")]))]);
    let range = rule(8000, 8100, "0.0.0.0/0");
    let unnamed = rule(9000, 9000, "0.0.0.0/0");
    let v6 = obj(vec![("ipv6_cidr_blocks", list(vec![text("::/0")]))]);
    let resource = obj(vec![("ingress", list(vec![all_ports, range, unnamed, v6]))]);
    let issues = validator.check_open_ingress("sg".to_string(), &resource);
    let messages: Vec<&str> = issues.iter().map(|i| i.message.as_str()).collect();
    assert_eq!(
        messages,
        vec![
            "Open ingress from 0.0.0.0/0 for all ports",
            "Open ingress from 0.0.0.0/0 for ports 8000-8100",
            "Open ingress from 0.0.0.0/0 for ports 9000-9000",
            "Open ingress from ::/0 (all IPv6 addresses)",
        ]
    );
    assert!(issues.iter().all(|i| i.severity == Severity::High && i.resource == "sg"));
}

#[test]
fn open_ssh_security_group_end_to_end() {
    let validator = FastValidator::new();
    let resource = obj(vec![("ingress", list(vec![rule(22, 22, "0.0.0.0/0")]))]);
    let issues = validator.check_security_group("aws_security_group.web".to_string(), &resource);
    assert_eq!(issues.len(), 2);
    assert_eq!(issues[0].message, "Open ingress from 0.0.0.0/0 for port 22 (SSH)");
    assert_eq!(issues[0].severity, Severity::High);
    assert_eq!(issues[1].message, "Port 22 (SSH) is disallowed for inbound traffic");
    assert_eq!(issues[1].severity, Severity::High);
}

#[test]
fn private_bucket_end_to_end() {
    let validator = FastValidator::new();
    let resource = obj(vec![("acl", text("private"))]);
    let issues = validator.check_s3_bucket("aws_s3_bucket.logs".to_string(), &resource);
    assert_eq!(issues.len(), 1);
    assert_eq!(issues[0].message, "S3 bucket is missing server-side encryption");
    assert_eq!(issues[0].severity, Severity::Medium);
}

#[test]
fn public_bucket_without_versioning() {
    let validator = FastValidator::new();
    let resource = obj(vec![
        ("acl", text("public-read-write")),
        ("server_side_encryption_configuration", obj(vec![])),
        ("versioning", obj(vec![("enabled", JsonValue::Bool(false))])),
    ]);
    let issues = validator.check_s3_bucket("b".to_string(), &resource);
    assert_eq!(issues.len(), 2);
    assert_eq!(issues[0].message, "S3 bucket has public access enabled (ACL: public-read-write)");
    assert_eq!(issues[0].severity, Severity::High);
    assert_eq!(issues[1].message, "S3 bucket versioning is not enabled");
    assert_eq!(issues[1].severity, Severity::Low);
}

#[test]
fn instance_checks() {
    let validator = FastValidator::new();
    let resource = obj(vec![
        ("associate_public_ip_address", JsonValue::Bool(true)),
        ("metadata_options", obj(vec![("http_tokens", text("optional"))])),
    ]);
    let issues = validator.check_ec2_instance("i".to_string(), &resource);
    assert_eq!(issues.len(), 2);
    assert_eq!(issues[0].message, "Instance has a public IP address assigned");
    assert_eq!(issues[0].severity, Severity::Medium);
    assert_eq!(issues[1].severity, Severity::High);

    let safe = obj(vec![
        ("associate_public_ip_address", text("yes")),
        ("metadata_options", obj(vec![("http_tokens", text("required"))])),
    ]);
    assert_eq!(validator.check_ec2_instance("i".to_string(), &safe).len(), 0);
    assert_eq!(validator.check_ec2_instance("i".to_string(), &JsonValue::Null).len(), 0);
}

#[test]
fn malformed_fields_are_skipped() {
    let validator = FastValidator::new();
    let resource = obj(vec![
        ("ingress", text("not a list")),
        ("egress", list(vec![number(3), obj(vec![("from_port", text("22")), ("to_port", number(22))])])),
    ]);
    assert_eq!(validator.check_security_group("sg".to_string(), &resource).len(), 0);
}

#[test]
fn checks_are_repeatable() {
    let validator = FastValidator::new();
    let resource = obj(vec![("ingress", list(vec![rule(22, 22, "0.0.0.0/0"), rule(1, 9999, "0.0.0.0/0")]))]);
    let first = validator.check_security_group("sg".to_string(), &resource);
    let second = validator.check_security_group("sg".to_string(), &resource);
    let a: Vec<&str> = first.iter().map(|i| i.message.as_str()).collect();
    let b: Vec<&str> = second.iter().map(|i| i.message.as_str()).collect();
    assert_eq!(a, b);
    assert_eq!(a.len(), 4);
}

#[test]
fn kinds_from_tags_and_addresses() {
    assert_eq!(kind_from_tag("security_group"), ResourceKind::SecurityGroup);
    assert_eq!(kind_from_tag("ec2_instance"), ResourceKind::Instance);
    assert_eq!(kind_from_tag("s3_bucket"), ResourceKind::Bucket);
    assert_eq!(kind_from_tag("security_group_rule"), ResourceKind::Unrecognized);
    assert_eq!(kind_from_address("WebSecurityGroup"), ResourceKind::SecurityGroup);
    assert_eq!(kind_from_address("AppEC2"), ResourceKind::Instance);
    assert_eq!(kind_from_address("LogsBucket"), ResourceKind::Bucket);
    assert_eq!(kind_from_address("Queue"), ResourceKind::Unrecognized);
}

#[test]
fn plan_with_resource_changes() {
    let change = |address: &str, after: JsonValue| {
        obj(vec![("address", text(address)), ("change", obj(vec![("after", after)]))])
    };
    let sg = obj(vec![("ingress", list(vec![rule(22, 22, "0.0.0.0/0")]))]);
    let bucket = obj(vec![("acl", text("private"))]);
    let plan = obj(vec![(
        "resource_changes",
        list(vec![
            change("aws_security_group.web", sg),
            change("aws_s3_bucket.logs", bucket),
            change("aws_security_group.web", obj(vec![])),
            change("aws_sqs_queue.jobs", obj(vec![])),
        ]),
    )]);
    let issues = fast_validate(&plan);
    assert_eq!(issues.len(), 3);
    assert_eq!(issues[0].resource, "aws_security_group.web");
    assert_eq!(issues[2].resource, "aws_s3_bucket.logs");
}

#[test]
fn plan_with_resources_mapping_and_dedup() {
    let plan = obj(vec![(
        "resources",
        obj(vec![
            ("LogsBucket", obj(vec![("acl", text("public-read"))])),
            ("AppInstance", obj(vec![("associate_public_ip_address", JsonValue::Bool(true))])),
        ]),
    )]);
    let mut validator = FastValidator::new();
    let issues = validator.validate(&plan);
    assert_eq!(issues.len(), 3);
    // Every address was validated already, so a second run reports nothing.
    assert_eq!(validator.validate(&plan).len(), 0);
}

#[test]
fn unrecognized_plan_shape_gives_nothing() {
    assert_eq!(fast_validate(&obj(vec![("resource_changes", text("x"))])).len(), 0);
    assert_eq!(fast_validate(&JsonValue::Null).len(), 0);
}
