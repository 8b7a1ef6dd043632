use terraguard::resource_file::parse_resource_file_name;
use terraguard::types::{split_high_first, Issue, Severity};

fn issue(message: &str, severity: Severity) -> Issue {
    Issue { resource: "r".to_string(), message: message.to_string(), severity }
}

#[test]
fn high_issues_come_first() {
    let issues = vec![
        issue("a", Severity::Low),
        issue("b", Severity::High),
        issue("c", Severity::Medium),
        issue("d", Severity::High),
    ];
    let (high, others) = split_high_first(&issues);
    let high: Vec<&str> = high.iter().map(|i| i.message.as_str()).collect();
    let others: Vec<&str> = others.iter().map(|i| i.message.as_str()).collect();
    assert_eq!(high, vec!["b", "d"]);
    assert_eq!(others, vec!["a", "c"]);
}

#[test]
fn file_names_give_type_and_id() {
    assert_eq!(
        parse_resource_file_name("security_group-sg-123.json"),
        Some(("security_group".to_string(), "sg-123".to_string()))
    );
    assert_eq!(
        parse_resource_file_name("s3_bucket-logs.json.json"),
        Some(("s3_bucket".to_string(), "logs".to_string()))
    );
    assert_eq!(parse_resource_file_name("ec2_instance-web"), Some(("ec2_instance".to_string(), "web".to_string())));
    assert_eq!(parse_resource_file_name("-x.json"), Some((String::new(), "x".to_string())));
    assert_eq!(parse_resource_file_name("nodash.json"), None);
    assert_eq!(parse_resource_file_name(".json"), None);
}
