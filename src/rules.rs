use vstd::prelude::*;
use std::collections::{HashMap, HashSet};
use vstd::std_specs::hash::{
    axiom_i32_obeys_hash_table_key_model, axiom_random_state_builds_valid_hashers,
};

use vstd::string::StringExecFns;

use crate::json::{JsonValue, text_eq};
use crate::text::{contains_text, decimal, is_substring, push_decimal};
use crate::types::{Issue, IssueView, Severity, issue_views};

verus! {

broadcast use {axiom_i32_obeys_hash_table_key_model, axiom_random_state_builds_valid_hashers};

/// Well-known services by port number, used to name ports in messages.
pub open spec fn known_services() -> Map<i32, &'static str> {
    map![
        22i32 => "SSH",
        3389i32 => "RDP",
        23i32 => "Telnet",
        21i32 => "FTP",
        25i32 => "SMTP",
        53i32 => "DNS",
        80i32 => "HTTP",
        443i32 => "HTTPS",
        3306i32 => "MySQL",
        5432i32 => "PostgreSQL",
        27017i32 => "MongoDB",
        6379i32 => "Redis",
        1433i32 => "MSSQL",
        8080i32 => "HTTP-Alt",
        8443i32 => "HTTPS-Alt",
    ]
}

/// Ports that must not be open for inbound traffic.
pub open spec fn disallowed_port_list() -> Seq<i32> {
    seq![22i32, 3389i32, 23i32, 21i32, 25i32, 53i32]
}

/// Whether `port` must not be open for inbound traffic.
pub open spec fn is_disallowed(port: i32) -> bool {
    disallowed_port_list().contains(port)
}

/// Ports that are explicitly allowed for inbound traffic.
pub open spec fn allowed_port_set() -> Set<i32> {
    set![80i32, 443i32, 8080i32, 8443i32]
}

/// The issues that `per_rule` gives for each rule of `rules`, in order.
pub open spec fn issues_over(
    rules: Seq<JsonValue>,
    per_rule: spec_fn(JsonValue) -> Seq<IssueView>,
) -> Seq<IssueView>
    decreases rules.len(),
{
    if rules.len() == 0 {
        Seq::empty()
    } else {
        issues_over(rules.drop_last(), per_rule) + per_rule(rules.last())
    }
}

/// The items of the array under `key`; none when it is absent or not an array.
pub open spec fn rules_under(resource: JsonValue, key: Seq<char>) -> Seq<JsonValue> {
    match resource.field(key) {
        Some(v) => match v.array_items() {
            Some(items) => items,
            None => Seq::empty(),
        },
        None => Seq::empty(),
    }
}

/// Whether `list` is an array with a string item equal to `t`.
pub open spec fn lists_text(list: Option<JsonValue>, t: Seq<char>) -> bool {
    match list {
        Some(v) => match v.array_items() {
            Some(items) => exists|i: int| 0 <= i < items.len() && #[trigger] items[i].text() == Some(t),
            None => false,
        },
        None => false,
    }
}

/// A port number as the rules read it: an `i64` integer, truncated to 32 bits.
pub open spec fn port_value(v: Option<JsonValue>) -> Option<i32> {
    match v {
        Some(p) => match p.integer() {
            Some(n) => Some(n as i32),
            None => None,
        },
        None => None,
    }
}

/// The `from_port` and `to_port` of a rule, when both are integers.
pub open spec fn rule_ports(rule: JsonValue) -> Option<(i32, i32)> {
    match (port_value(rule.field("from_port"@)), port_value(rule.field("to_port"@))) {
        (Some(f), Some(t)) => Some((f, t)),
        _ => None,
    }
}

/// An issue on `resource`.
pub open spec fn finding(resource: Seq<char>, message: Seq<char>, severity: Severity) -> IssueView {
    IssueView { resource, message, severity }
}

/// The ports that an open ingress rule applies to, as its message names them.
pub open spec fn port_info(rule: JsonValue) -> Seq<char> {
    match rule_ports(rule) {
        Some((f, t)) => if f == t && known_services().contains_key(f) {
            "port "@ + decimal(f as int) + " ("@ + known_services()[f]@ + ")"@
        } else {
            "ports "@ + decimal(f as int) + "-"@ + decimal(t as int)
        },
        None => "all ports"@,
    }
}

/// The open-ingress issues of one ingress rule: one for `0.0.0.0/0` and
/// one for `::/0`.
pub open spec fn open_ingress_rule_issues(address: Seq<char>, rule: JsonValue) -> Seq<IssueView> {
    let v4 = if lists_text(rule.field("cidr_blocks"@), "0.0.0.0/0"@) {
        seq![finding(address, "Open ingress from 0.0.0.0/0 for "@ + port_info(rule), Severity::High)]
    } else {
        Seq::empty()
    };
    let v6 = if lists_text(rule.field("ipv6_cidr_blocks"@), "::/0"@) {
        seq![finding(address, "Open ingress from ::/0 (all IPv6 addresses)"@, Severity::High)]
    } else {
        Seq::empty()
    };
    v4 + v6
}

/// The open-ingress issues of a security group.
pub open spec fn open_ingress_issues(address: Seq<char>, resource: JsonValue) -> Seq<IssueView> {
    issues_over(
        rules_under(resource, "ingress"@),
        |rule: JsonValue| open_ingress_rule_issues(address, rule),
    )
}

/// The name that a port-policy message gives a port's service.
pub open spec fn service_name(port: i32) -> Seq<char> {
    if known_services().contains_key(port) {
        known_services()[port]@
    } else {
        "unknown service"@
    }
}

/// The port-policy issues of one ingress rule.
pub open spec fn ingress_port_issues(address: Seq<char>, rule: JsonValue) -> Seq<IssueView> {
    match rule_ports(rule) {
        Some((f, t)) => if f != t {
            if exists|p: i32| is_disallowed(p) && f <= p <= t {
                seq![finding(address, "Port range "@ + decimal(f as int) + "-"@ + decimal(t as int)
                    + " contains disallowed ports"@, Severity::High)]
            } else if t - f > 1000 {
                seq![finding(address, "Overly permissive port range "@ + decimal(f as int) + "-"@
                    + decimal(t as int), Severity::Medium)]
            } else {
                Seq::empty()
            }
        } else if is_disallowed(f) {
            seq![finding(address, "Port "@ + decimal(f as int) + " ("@ + service_name(f)
                + ") is disallowed for inbound traffic"@, Severity::High)]
        } else if !allowed_port_set().contains(f) {
            seq![finding(address, "Port "@ + decimal(f as int)
                + " is not explicitly allowed for inbound traffic"@, Severity::Medium)]
        } else {
            Seq::empty()
        },
        None => Seq::empty(),
    }
}

/// An integer field read as the egress rules read it: zero when absent or
/// not an `i64`.
pub open spec fn integer_or_zero(v: Option<JsonValue>) -> i64 {
    match v {
        Some(p) => match p.integer() {
            Some(n) => n,
            None => 0,
        },
        None => 0,
    }
}

/// Whether an egress rule allows `0.0.0.0/0` on all ports: both port
/// fields zero or absent.
pub open spec fn is_unrestricted_egress(rule: JsonValue) -> bool {
    lists_text(rule.field("cidr_blocks"@), "0.0.0.0/0"@) && integer_or_zero(rule.field("from_port"@))
        == 0 && integer_or_zero(rule.field("to_port"@)) == 0
}

/// The issues of one egress rule.
pub open spec fn egress_issues(address: Seq<char>, rule: JsonValue) -> Seq<IssueView> {
    let unrestricted = if is_unrestricted_egress(rule) {
        seq![finding(address, "Unrestricted egress to 0.0.0.0/0 for all ports"@, Severity::Medium)]
    } else {
        Seq::empty()
    };
    let wide = match rule_ports(rule) {
        Some((f, t)) => if t - f > 1000 {
            seq![finding(address, "Overly permissive egress port range "@ + decimal(f as int) + "-"@
                + decimal(t as int), Severity::Low)]
        } else {
            Seq::empty()
        },
        None => Seq::empty(),
    };
    unrestricted + wide
}

/// The port-policy issues of a security group: its ingress rules, then
/// its egress rules.
pub open spec fn port_issues(address: Seq<char>, resource: JsonValue) -> Seq<IssueView> {
    issues_over(
        rules_under(resource, "ingress"@),
        |rule: JsonValue| ingress_port_issues(address, rule),
    ) + issues_over(
        rules_under(resource, "egress"@),
        |rule: JsonValue| egress_issues(address, rule),
    )
}

/// The issues of a security group: open ingress, then port policy.
pub open spec fn security_group_issues(address: Seq<char>, resource: JsonValue) -> Seq<IssueView> {
    open_ingress_issues(address, resource) + port_issues(address, resource)
}

/// A flag read as the rules read it: false unless it is the boolean `true`.
pub open spec fn flag_set(v: JsonValue) -> bool {
    v.boolean() == Some(true)
}

/// The issues of a compute instance: a public address, then metadata
/// access without required tokens.
pub open spec fn instance_issues(address: Seq<char>, resource: JsonValue) -> Seq<IssueView> {
    let public_ip = match resource.field("associate_public_ip_address"@) {
        Some(v) => flag_set(v),
        None => false,
    };
    let weak_tokens = match resource.field("metadata_options"@) {
        Some(options) => match options.field("http_tokens"@) {
            Some(tokens) => tokens.text() != Some("required"@),
            None => false,
        },
        None => false,
    };
    (if public_ip {
        seq![finding(address, "Instance has a public IP address assigned"@, Severity::Medium)]
    } else {
        Seq::empty()
    }) + (if weak_tokens {
        seq![finding(address, "IMDSv2 (token-based) is not enforced, vulnerable to SSRF attacks"@, Severity::High)]
    } else {
        Seq::empty()
    })
}

/// Whether an access-control list grants public access.
pub open spec fn is_public_acl(acl: Seq<char>) -> bool {
    acl == "public-read"@ || acl == "public-read-write"@
}

/// The issues of a storage bucket: public access, missing encryption,
/// then disabled versioning.
pub open spec fn bucket_issues(address: Seq<char>, resource: JsonValue) -> Seq<IssueView> {
    let public_acl = match resource.field("acl"@) {
        Some(v) => match v.text() {
            Some(acl) => if is_public_acl(acl) {
                seq![finding(address, "S3 bucket has public access enabled (ACL: "@ + acl + ")"@, Severity::High)]
            } else {
                Seq::empty()
            },
            None => Seq::empty(),
        },
        None => Seq::empty(),
    };
    let unencrypted = if resource.field("server_side_encryption_configuration"@) is None {
        seq![finding(address, "S3 bucket is missing server-side encryption"@, Severity::Medium)]
    } else {
        Seq::empty()
    };
    let unversioned = match resource.field("versioning"@) {
        Some(versioning) => match versioning.field("enabled"@) {
            Some(enabled) => !flag_set(enabled),
            None => false,
        },
        None => false,
    };
    public_acl + unencrypted + if unversioned {
        seq![finding(address, "S3 bucket versioning is not enabled"@, Severity::Low)]
    } else {
        Seq::empty()
    }
}

/// The kinds of resource that the rules know how to check.
#[derive(Clone, Copy, Debug, PartialEq, Eq, Structural)]
pub enum ResourceKind {
    SecurityGroup,
    Instance,
    Bucket,
    Unrecognized,
}

/// The issues that the rules for `kind` find in `resource`.
pub open spec fn kind_issues(kind: ResourceKind, address: Seq<char>, resource: JsonValue) -> Seq<IssueView> {
    match kind {
        ResourceKind::SecurityGroup => security_group_issues(address, resource),
        ResourceKind::Instance => instance_issues(address, resource),
        ResourceKind::Bucket => bucket_issues(address, resource),
        ResourceKind::Unrecognized => Seq::empty(),
    }
}

/// The kind named by an exact type tag.
pub open spec fn kind_of_tag(tag: Seq<char>) -> ResourceKind {
    if tag == "security_group"@ {
        ResourceKind::SecurityGroup
    } else if tag == "ec2_instance"@ {
        ResourceKind::Instance
    } else if tag == "s3_bucket"@ {
        ResourceKind::Bucket
    } else {
        ResourceKind::Unrecognized
    }
}

/// The kind of an address in a `resources` mapping, by the first matching
/// part of its name.
pub open spec fn kind_of_address(address: Seq<char>) -> ResourceKind {
    if is_substring("SecurityGroup"@, address) {
        ResourceKind::SecurityGroup
    } else if is_substring("Instance"@, address) || is_substring("EC2"@, address) {
        ResourceKind::Instance
    } else if is_substring("S3"@, address) || is_substring("Bucket"@, address) {
        ResourceKind::Bucket
    } else {
        ResourceKind::Unrecognized
    }
}

/// The issues of one entry of `resource_changes`: every kind whose type
/// name occurs in the address is checked.
pub open spec fn change_issues(address: Seq<char>, after: JsonValue) -> Seq<IssueView> {
    (if is_substring("aws_security_group"@, address) {
        security_group_issues(address, after)
    } else {
        Seq::empty()
    }) + (if is_substring("aws_instance"@, address) {
        instance_issues(address, after)
    } else {
        Seq::empty()
    }) + (if is_substring("aws_s3_bucket"@, address) {
        bucket_issues(address, after)
    } else {
        Seq::empty()
    })
}

pub open spec fn change_address(change: JsonValue) -> Option<Seq<char>> {
    match change.field("address"@) {
        Some(v) => v.text(),
        None => None,
    }
}

pub open spec fn change_after(change: JsonValue) -> Option<JsonValue> {
    match change.field("change"@) {
        Some(c) => c.field("after"@),
        None => None,
    }
}

/// Walks `resource_changes` entries in order, skipping addresses in
/// `seen`; gives the issues and the addresses seen afterwards.
pub open spec fn walk_changes(seen: Seq<Seq<char>>, changes: Seq<JsonValue>) -> (Seq<IssueView>, Seq<Seq<char>>)
    decreases changes.len(),
{
    if changes.len() == 0 {
        (Seq::empty(), seen)
    } else {
        let (issues, seen_before) = walk_changes(seen, changes.drop_last());
        let change = changes.last();
        match change_address(change) {
            Some(address) => if seen_before.contains(address) {
                (issues, seen_before)
            } else {
                (issues + match change_after(change) {
                    Some(after) => change_issues(address, after),
                    None => Seq::empty(),
                }, seen_before.push(address))
            },
            None => (issues, seen_before),
        }
    }
}

/// Walks the members of a `resources` mapping in order, skipping
/// addresses in `seen`; gives the issues and the addresses seen afterwards.
pub open spec fn walk_resources(seen: Seq<Seq<char>>, members: Seq<(String, JsonValue)>) -> (Seq<IssueView>, Seq<Seq<char>>)
    decreases members.len(),
{
    if members.len() == 0 {
        (Seq::empty(), seen)
    } else {
        let (issues, seen_before) = walk_resources(seen, members.drop_last());
        let address = members.last().0@;
        if seen_before.contains(address) {
            (issues, seen_before)
        } else {
            (
                issues + kind_issues(kind_of_address(address), address, members.last().1),
                seen_before.push(address),
            )
        }
    }
}

/// Validation of a whole plan: a `resource_changes` list when there is
/// one, else a `resources` mapping, else nothing.
pub open spec fn plan_walk(seen: Seq<Seq<char>>, plan: JsonValue) -> (Seq<IssueView>, Seq<Seq<char>>) {
    match rules_under_opt(plan, "resource_changes"@) {
        Some(changes) => walk_changes(seen, changes),
        None => match plan.field("resources"@) {
            Some(v) => match v.members() {
                Some(members) => walk_resources(seen, members),
                None => (Seq::empty(), seen),
            },
            None => (Seq::empty(), seen),
        },
    }
}

/// The items of the array under `key`, when there is one.
pub open spec fn rules_under_opt(resource: JsonValue, key: Seq<char>) -> Option<Seq<JsonValue>> {
    match resource.field(key) {
        Some(v) => v.array_items(),
        None => None,
    }
}

/// Validates infrastructure plans and single resources against the
/// security rules.
///
/// Holds the port tables of the rules and the addresses already validated
/// in this run, so that no address is reported twice.
pub struct FastValidator {
    port_services: HashMap<i32, &'static str>,
    disallowed_ports: Vec<i32>,
    allowed_ports: HashSet<i32>,
    validated_resources: Vec<String>,
}

impl FastValidator {
    /// The port tables hold the rules' constants.
    pub closed spec fn wf(&self) -> bool {
        &&& self.port_services@ == known_services()
        &&& self.disallowed_ports@ == disallowed_port_list()
        &&& self.allowed_ports@ == allowed_port_set()
    }

    /// The addresses validated so far, in the order they were first seen.
    pub closed spec fn validated(&self) -> Seq<Seq<char>> {
        self.validated_resources@.map_values(|s: String| s@)
    }

    /// A validator with the standard port tables and nothing validated yet.
    pub fn new() -> (r: FastValidator)
        ensures
            r.wf(),
            r.validated() == Seq::<Seq<char>>::empty(),
    {
        let mut port_services: HashMap<i32, &'static str> = HashMap::new();
        port_services.insert(22, "SSH");
        port_services.insert(3389, "RDP");
        port_services.insert(23, "Telnet");
        port_services.insert(21, "FTP");
        port_services.insert(25, "SMTP");
        port_services.insert(53, "DNS");
        port_services.insert(80, "HTTP");
        port_services.insert(443, "HTTPS");
        port_services.insert(3306, "MySQL");
        port_services.insert(5432, "PostgreSQL");
        port_services.insert(27017, "MongoDB");
        port_services.insert(6379, "Redis");
        port_services.insert(1433, "MSSQL");
        port_services.insert(8080, "HTTP-Alt");
        port_services.insert(8443, "HTTPS-Alt");
        assert(port_services@ =~= known_services());

        let disallowed: Vec<i32> = vec![22, 3389, 23, 21, 25, 53];
        assert(disallowed@ =~= disallowed_port_list());

        let mut allowed: HashSet<i32> = HashSet::new();
        allowed.insert(80);
        allowed.insert(443);
        allowed.insert(8080);
        allowed.insert(8443);
        assert(allowed@ =~= allowed_port_set());

        let r = FastValidator {
            port_services,
            disallowed_ports: disallowed,
            allowed_ports: allowed,
            validated_resources: Vec::new(),
        };
        assert(r.validated() =~= Seq::<Seq<char>>::empty());
        r
    }

    /// Whether the array under `key` of `rule` holds the string `t`.
    fn lists(rule: &JsonValue, key: &str, t: &str) -> (r: bool)
        ensures
            r == lists_text(rule.field(key@), t@),
    {
        match rule.get(key) {
            Some(list) => match list.as_array() {
                Some(items) => {
                    let mut i: usize = 0;
                    while i < items.len()
                        invariant
                            0 <= i <= items@.len(),
                            rule.field(key@) == Some(*list),
                            list.array_items() == Some(items@),
                            forall|j: int| 0 <= j < i ==> #[trigger] items@[j].text() != Some(t@),
                        decreases items@.len() - i,
                    {
                        match items[i].as_str() {
                            Some(s) => {
                                if text_eq(s, t) {
                                    return true;
                                }
                            },
                            None => {},
                        }
                        i = i + 1;
                    }
                    false
                },
                None => false,
            },
            None => false,
        }
    }

    fn port(rule: &JsonValue, key: &str) -> (r: Option<i32>)
        ensures
            r == port_value(rule.field(key@)),
    {
        match rule.get(key) {
            Some(v) => match v.as_i64() {
                Some(n) => Some(n as i32),
                None => None,
            },
            None => None,
        }
    }

    fn ports(rule: &JsonValue) -> (r: Option<(i32, i32)>)
        ensures
            r == rule_ports(*rule),
    {
        match (Self::port(rule, "from_port"), Self::port(rule, "to_port")) {
            (Some(f), Some(t)) => Some((f, t)),
            _ => None,
        }
    }

    fn push_issue(issues: &mut Vec<Issue>, resource: &String, message: String, severity: Severity)
        ensures
            issue_views(final(issues)@) == issue_views(old(issues)@).push(
                finding(resource@, message@, severity),
            ),
    {
        issues.push(Issue { resource: resource.clone(), message, severity });
        assert(issue_views(issues@) =~= issue_views(old(issues)@).push(
            finding(resource@, message@, severity),
        ));
    }

    fn port_info_text(&self, rule: &JsonValue) -> (r: String)
        requires
            self.wf(),
        ensures
            r@ == port_info(*rule),
    {
        match Self::ports(rule) {
            Some((f, t)) => {
                if f == t {
                    match self.port_services.get(&f) {
                        Some(name) => {
                            let mut text = String::from_str("port ");
                            push_decimal(&mut text, f as i64);
                            text.append(" (");
                            text.append(name);
                            text.append(")");
                            return text;
                        },
                        None => {},
                    }
                }
                let mut text = String::from_str("ports ");
                push_decimal(&mut text, f as i64);
                text.append("-");
                push_decimal(&mut text, t as i64);
                text
            },
            None => String::from_str("all ports"),
        }
    }

    fn open_ingress_rule(&self, address: &String, rule: &JsonValue, issues: &mut Vec<Issue>)
        requires
            self.wf(),
        ensures
            issue_views(final(issues)@) == issue_views(old(issues)@) + open_ingress_rule_issues(
                address@,
                *rule,
            ),
    {
        let ghost before = issue_views(issues@);
        if Self::lists(rule, "cidr_blocks", "0.0.0.0/0") {
            let mut message = String::from_str("Open ingress from 0.0.0.0/0 for ");
            let info = self.port_info_text(rule);
            message.append(info.as_str());
            Self::push_issue(issues, address, message, Severity::High);
        }
        let ghost mid = issue_views(issues@);
        if Self::lists(rule, "ipv6_cidr_blocks", "::/0") {
            let message = String::from_str("Open ingress from ::/0 (all IPv6 addresses)");
            Self::push_issue(issues, address, message, Severity::High);
        }
        let ghost v4 = if lists_text(rule.field("cidr_blocks"@), "0.0.0.0/0"@) {
            seq![finding(address@, "Open ingress from 0.0.0.0/0 for "@ + port_info(*rule), Severity::High)]
        } else {
            Seq::empty()
        };
        assert(mid =~= before + v4);
        assert(issue_views(issues@) =~= before + open_ingress_rule_issues(address@, *rule));
    }

    /// Reports each ingress rule of `resource` that is open to `0.0.0.0/0`
    /// or `::/0`, naming the ports it applies to.
    pub fn check_open_ingress(&self, address: String, resource: &JsonValue) -> (r: Vec<Issue>)
        requires
            self.wf(),
        ensures
            issue_views(r@) == open_ingress_issues(address@, *resource),
    {
        let mut issues: Vec<Issue> = Vec::new();
        let ghost per_rule = |rule: JsonValue| open_ingress_rule_issues(address@, rule);
        match resource.get("ingress") {
            Some(ingress) => match ingress.as_array() {
                Some(rules) => {
                    let mut i: usize = 0;
                    assert(issue_views(issues@) =~= issues_over(rules@.subrange(0, 0), per_rule));
                    while i < rules.len()
                        invariant
                            self.wf(),
                            0 <= i <= rules@.len(),
                            rules_under(*resource, "ingress"@) == rules@,
                            per_rule == (|rule: JsonValue| open_ingress_rule_issues(address@, rule)),
                            issue_views(issues@) == issues_over(rules@.subrange(0, i as int), per_rule),
                        decreases rules@.len() - i,
                    {
                        Self::open_ingress_rule(self, &address, &rules[i], &mut issues);
                        assert(rules@.subrange(0, i + 1).drop_last() =~= rules@.subrange(0, i as int));
                        assert(rules@.subrange(0, i + 1).last() == rules@[i as int]);
                        assert(per_rule(rules@[i as int]) == open_ingress_rule_issues(address@, rules@[i as int]));
                        i = i + 1;
                    }
                    assert(rules@.subrange(0, rules@.len() as int) =~= rules@);
                },
                None => {},
            },
            None => {},
        }
        issues
    }

    fn disallowed(&self, port: i32) -> (r: bool)
        requires
            self.wf(),
        ensures
            r == is_disallowed(port),
    {
        let mut i: usize = 0;
        while i < self.disallowed_ports.len()
            invariant
                self.wf(),
                0 <= i <= self.disallowed_ports@.len(),
                forall|j: int| 0 <= j < i ==> self.disallowed_ports@[j] != port,
            decreases self.disallowed_ports@.len() - i,
        {
            if self.disallowed_ports[i] == port {
                return true;
            }
            i = i + 1;
        }
        false
    }

    fn range_has_disallowed(&self, from: i32, to: i32) -> (r: bool)
        requires
            self.wf(),
        ensures
            r == exists|p: i32| is_disallowed(p) && from <= p <= to,
    {
        let mut i: usize = 0;
        while i < self.disallowed_ports.len()
            invariant
                self.wf(),
                0 <= i <= self.disallowed_ports@.len(),
                forall|j: int|
                    0 <= j < i ==> !(from <= #[trigger] self.disallowed_ports@[j] <= to),
            decreases self.disallowed_ports@.len() - i,
        {
            let p = self.disallowed_ports[i];
            if from <= p && p <= to {
                assert(is_disallowed(p)) by {
                    assert(disallowed_port_list()[i as int] == p);
                }
                return true;
            }
            i = i + 1;
        }
        assert forall|p: i32| is_disallowed(p) implies !(from <= p <= to) by {
            let j = choose|j: int| 0 <= j < disallowed_port_list().len() && disallowed_port_list()[j] == p;
            assert(self.disallowed_ports@[j] == p);
        }
        false
    }

    fn ingress_ports_rule(&self, address: &String, rule: &JsonValue, issues: &mut Vec<Issue>)
        requires
            self.wf(),
        ensures
            issue_views(final(issues)@) == issue_views(old(issues)@) + ingress_port_issues(
                address@,
                *rule,
            ),
    {
        let ghost before = issue_views(issues@);
        match Self::ports(rule) {
            Some((f, t)) => {
                if f != t {
                    if self.range_has_disallowed(f, t) {
                        let mut message = String::from_str("Port range ");
                        push_decimal(&mut message, f as i64);
                        message.append("-");
                        push_decimal(&mut message, t as i64);
                        message.append(" contains disallowed ports");
                        Self::push_issue(issues, address, message, Severity::High);
                    } else if (t as i64) - (f as i64) > 1000 {
                        let mut message = String::from_str("Overly permissive port range ");
                        push_decimal(&mut message, f as i64);
                        message.append("-");
                        push_decimal(&mut message, t as i64);
                        Self::push_issue(issues, address, message, Severity::Medium);
                    }
                } else if self.disallowed(f) {
                    let mut message = String::from_str("Port ");
                    push_decimal(&mut message, f as i64);
                    message.append(" (");
                    match self.port_services.get(&f) {
                        Some(name) => message.append(name),
                        None => message.append("unknown service"),
                    }
                    message.append(") is disallowed for inbound traffic");
                    Self::push_issue(issues, address, message, Severity::High);
                } else if !self.allowed_ports.contains(&f) {
                    let mut message = String::from_str("Port ");
                    push_decimal(&mut message, f as i64);
                    message.append(" is not explicitly allowed for inbound traffic");
                    Self::push_issue(issues, address, message, Severity::Medium);
                }
            },
            None => {},
        }
        assert(issue_views(issues@) =~= before + ingress_port_issues(address@, *rule));
    }

    fn egress_rule(&self, address: &String, rule: &JsonValue, issues: &mut Vec<Issue>)
        requires
            self.wf(),
        ensures
            issue_views(final(issues)@) == issue_views(old(issues)@) + egress_issues(
                address@,
                *rule,
            ),
    {
        let ghost before = issue_views(issues@);
        if Self::lists(rule, "cidr_blocks", "0.0.0.0/0") {
            let from = match rule.get("from_port") {
                Some(v) => match v.as_i64() {
                    Some(n) => n,
                    None => 0,
                },
                None => 0,
            };
            let to = match rule.get("to_port") {
                Some(v) => match v.as_i64() {
                    Some(n) => n,
                    None => 0,
                },
                None => 0,
            };
            if from == 0 && to == 0 {
                let message = String::from_str("Unrestricted egress to 0.0.0.0/0 for all ports");
                Self::push_issue(issues, address, message, Severity::Medium);
            }
        }
        let ghost mid = issue_views(issues@);
        match Self::ports(rule) {
            Some((f, t)) => {
                if (t as i64) - (f as i64) > 1000 {
                    let mut message = String::from_str("Overly permissive egress port range ");
                    push_decimal(&mut message, f as i64);
                    message.append("-");
                    push_decimal(&mut message, t as i64);
                    Self::push_issue(issues, address, message, Severity::Low);
                }
            },
            None => {},
        }
        let ghost unrestricted = if lists_text(rule.field("cidr_blocks"@), "0.0.0.0/0"@)
            && integer_or_zero(rule.field("from_port"@)) == 0 && integer_or_zero(
            rule.field("to_port"@),
        ) == 0 {
            seq![finding(address@, "Unrestricted egress to 0.0.0.0/0 for all ports"@, Severity::Medium)]
        } else {
            Seq::empty()
        };
        assert(mid =~= before + unrestricted);
        assert(issue_views(issues@) =~= before + egress_issues(address@, *rule));
    }

    /// Checks the ingress rules of `resource` against the port policy, then
    /// its egress rules for unrestricted destinations and wide port ranges.
    pub fn check_ports(&self, resource_address: String, resource: &JsonValue) -> (r: Vec<Issue>)
        requires
            self.wf(),
        ensures
            issue_views(r@) == port_issues(resource_address@, *resource),
    {
        let mut issues: Vec<Issue> = Vec::new();
        let ghost ingress_rule = |rule: JsonValue| ingress_port_issues(resource_address@, rule);
        let ghost egress_rule = |rule: JsonValue| egress_issues(resource_address@, rule);
        match resource.get("ingress") {
            Some(ingress) => match ingress.as_array() {
                Some(rules) => {
                    let mut i: usize = 0;
                    assert(issue_views(issues@) =~= issues_over(rules@.subrange(0, 0), ingress_rule));
                    while i < rules.len()
                        invariant
                            self.wf(),
                            0 <= i <= rules@.len(),
                            rules_under(*resource, "ingress"@) == rules@,
                            ingress_rule == (|rule: JsonValue| ingress_port_issues(resource_address@, rule)),
                            issue_views(issues@) == issues_over(rules@.subrange(0, i as int), ingress_rule),
                        decreases rules@.len() - i,
                    {
                        self.ingress_ports_rule(&resource_address, &rules[i], &mut issues);
                        assert(rules@.subrange(0, i + 1).drop_last() =~= rules@.subrange(0, i as int));
                        assert(rules@.subrange(0, i + 1).last() == rules@[i as int]);
                        i = i + 1;
                    }
                    assert(rules@.subrange(0, rules@.len() as int) =~= rules@);
                },
                None => {},
            },
            None => {},
        }
        let ghost ingress_part = issue_views(issues@);
        assert(ingress_part == issues_over(rules_under(*resource, "ingress"@), ingress_rule));
        match resource.get("egress") {
            Some(egress) => match egress.as_array() {
                Some(rules) => {
                    let mut i: usize = 0;
                    assert(issue_views(issues@) =~= ingress_part + issues_over(rules@.subrange(0, 0), egress_rule));
                    while i < rules.len()
                        invariant
                            self.wf(),
                            0 <= i <= rules@.len(),
                            rules_under(*resource, "egress"@) == rules@,
                            egress_rule == (|rule: JsonValue| egress_issues(resource_address@, rule)),
                            issue_views(issues@) == ingress_part + issues_over(rules@.subrange(0, i as int), egress_rule),
                        decreases rules@.len() - i,
                    {
                        self.egress_rule(&resource_address, &rules[i], &mut issues);
                        assert(rules@.subrange(0, i + 1).drop_last() =~= rules@.subrange(0, i as int));
                        assert(rules@.subrange(0, i + 1).last() == rules@[i as int]);
                        i = i + 1;
                    }
                    assert(rules@.subrange(0, rules@.len() as int) =~= rules@);
                },
                None => {},
            },
            None => {},
        }
        assert(issue_views(issues@) =~= port_issues(resource_address@, *resource));
        issues
    }

    /// Checks a security group: open ingress, then port policy.
    pub fn check_security_group(&self, address: String, resource: &JsonValue) -> (r: Vec<Issue>)
        requires
            self.wf(),
        ensures
            issue_views(r@) == security_group_issues(address@, *resource),
    {
        let mut issues = self.check_open_ingress(address.clone(), resource);
        let mut ports = self.check_ports(address, resource);
        issues.append(&mut ports);
        assert(issue_views(issues@) =~= security_group_issues(address@, *resource));
        issues
    }

    fn is_true(v: &JsonValue) -> (r: bool)
        ensures
            r == flag_set(*v),
    {
        match v.as_bool() {
            Some(b) => b,
            None => false,
        }
    }

    /// Checks a compute instance for a public address and for metadata
    /// access that does not require tokens.
    pub fn check_ec2_instance(&self, address: String, resource: &JsonValue) -> (r: Vec<Issue>)
        ensures
            issue_views(r@) == instance_issues(address@, *resource),
    {
        let mut issues: Vec<Issue> = Vec::new();
        let public_ip = match resource.get("associate_public_ip_address") {
            Some(v) => Self::is_true(v),
            None => false,
        };
        if public_ip {
            let message = String::from_str("Instance has a public IP address assigned");
            Self::push_issue(&mut issues, &address, message, Severity::Medium);
        }
        let weak_tokens = match resource.get("metadata_options") {
            Some(options) => match options.get("http_tokens") {
                Some(tokens) => match tokens.as_str() {
                    Some(mode) => !text_eq(mode, "required"),
                    None => true,
                },
                None => false,
            },
            None => false,
        };
        if weak_tokens {
            let message = String::from_str(
                "IMDSv2 (token-based) is not enforced, vulnerable to SSRF attacks",
            );
            Self::push_issue(&mut issues, &address, message, Severity::High);
        }
        assert(issue_views(issues@) =~= instance_issues(address@, *resource));
        issues
    }

    /// Checks a storage bucket for a public access-control list, missing
    /// encryption and disabled versioning.
    pub fn check_s3_bucket(&self, address: String, resource: &JsonValue) -> (r: Vec<Issue>)
        ensures
            issue_views(r@) == bucket_issues(address@, *resource),
    {
        let mut issues: Vec<Issue> = Vec::new();
        match resource.get("acl") {
            Some(v) => match v.as_str() {
                Some(acl) => {
                    if text_eq(acl, "public-read") || text_eq(acl, "public-read-write") {
                        let mut message = String::from_str("S3 bucket has public access enabled (ACL: ");
                        message.append(acl);
                        message.append(")");
                        Self::push_issue(&mut issues, &address, message, Severity::High);
                    }
                },
                None => {},
            },
            None => {},
        }
        let ghost after_acl = issue_views(issues@);
        if resource.get("server_side_encryption_configuration").is_none() {
            let message = String::from_str("S3 bucket is missing server-side encryption");
            Self::push_issue(&mut issues, &address, message, Severity::Medium);
        }
        let ghost after_encryption = issue_views(issues@);
        let unversioned = match resource.get("versioning") {
            Some(versioning) => match versioning.get("enabled") {
                Some(enabled) => !Self::is_true(enabled),
                None => false,
            },
            None => false,
        };
        if unversioned {
            let message = String::from_str("S3 bucket versioning is not enabled");
            Self::push_issue(&mut issues, &address, message, Severity::Low);
        }
        assert(issue_views(issues@) =~= bucket_issues(address@, *resource));
        issues
    }

    /// Runs the checks of `kind` on `resource`.
    pub fn check_kind(&self, kind: ResourceKind, address: String, resource: &JsonValue) -> (r: Vec<Issue>)
        requires
            self.wf(),
        ensures
            issue_views(r@) == kind_issues(kind, address@, *resource),
    {
        match kind {
            ResourceKind::SecurityGroup => self.check_security_group(address, resource),
            ResourceKind::Instance => self.check_ec2_instance(address, resource),
            ResourceKind::Bucket => self.check_s3_bucket(address, resource),
            ResourceKind::Unrecognized => Vec::new(),
        }
    }

    fn already_validated(&self, address: &str) -> (r: bool)
        ensures
            r == self.validated().contains(address@),
    {
        let mut i: usize = 0;
        while i < self.validated_resources.len()
            invariant
                0 <= i <= self.validated_resources@.len(),
                forall|j: int| 0 <= j < i ==> #[trigger] self.validated_resources@[j]@ != address@,
            decreases self.validated_resources@.len() - i,
        {
            if text_eq(self.validated_resources[i].as_str(), address) {
                assert(self.validated()[i as int] == address@);
                return true;
            }
            i = i + 1;
        }
        assert forall|j: int| 0 <= j < self.validated().len() implies self.validated()[j] != address@ by {
            assert(self.validated_resources@[j]@ != address@);
        }
        false
    }

    fn mark_validated(&mut self, address: &str)
        ensures
            final(self).validated() == old(self).validated().push(address@),
            final(self).wf() == old(self).wf(),
    {
        self.validated_resources.push(String::from_str(address));
        assert(self.validated() =~= old(self).validated().push(address@));
    }

    fn check_change(&self, address: &str, after: &JsonValue) -> (r: Vec<Issue>)
        requires
            self.wf(),
        ensures
            issue_views(r@) == change_issues(address@, *after),
    {
        let mut issues: Vec<Issue> = Vec::new();
        let ghost empty = issue_views(issues@);
        assert(empty =~= Seq::<IssueView>::empty());
        if contains_text(address, "aws_security_group") {
            let mut found = self.check_security_group(String::from_str(address), after);
            issues.append(&mut found);
        }
        let ghost first = issue_views(issues@);
        if contains_text(address, "aws_instance") {
            let mut found = self.check_ec2_instance(String::from_str(address), after);
            issues.append(&mut found);
        }
        let ghost second = issue_views(issues@);
        if contains_text(address, "aws_s3_bucket") {
            let mut found = self.check_s3_bucket(String::from_str(address), after);
            issues.append(&mut found);
        }
        assert(issue_views(issues@) =~= change_issues(address@, *after));
        issues
    }

    /// Validates a plan and returns its issues. Accepts a
    /// `resource_changes` list (each entry an `address` with a
    /// `change.after` configuration) or, failing that, a `resources`
    /// mapping from address to configuration. An address already validated
    /// by this validator is skipped.
    pub fn validate(&mut self, plan: &JsonValue) -> (r: Vec<Issue>)
        requires
            old(self).wf(),
        ensures
            final(self).wf(),
            (issue_views(r@), final(self).validated()) == plan_walk(old(self).validated(), *plan),
    {
        let mut issues: Vec<Issue> = Vec::new();
        let ghost seen0 = self.validated();
        let changes_opt = match plan.get("resource_changes") {
            Some(v) => v.as_array(),
            None => None,
        };
        match changes_opt {
            Some(changes) => {
                let mut i: usize = 0;
                assert(changes@.subrange(0, 0) =~= Seq::<JsonValue>::empty());
                assert(issue_views(issues@) =~= Seq::<IssueView>::empty());
                while i < changes.len()
                    invariant
                        self.wf(),
                        0 <= i <= changes@.len(),
                        rules_under_opt(*plan, "resource_changes"@) == Some(changes@),
                        (issue_views(issues@), self.validated()) == walk_changes(
                            seen0,
                            changes@.subrange(0, i as int),
                        ),
                    decreases changes@.len() - i,
                {
                    let change = &changes[i];
                    assert(changes@.subrange(0, i + 1).drop_last() =~= changes@.subrange(0, i as int));
                    assert(changes@.subrange(0, i + 1).last() == changes@[i as int]);
                    let address_opt = match change.get("address") {
                        Some(a) => a.as_str(),
                        None => None,
                    };
                    match address_opt {
                        Some(address) => {
                            if !self.already_validated(address) {
                                self.mark_validated(address);
                                let after_opt = match change.get("change") {
                                    Some(c) => c.get("after"),
                                    None => None,
                                };
                                match after_opt {
                                    Some(after) => {
                                        let mut found = self.check_change(address, after);
                                        let ghost before = issue_views(issues@);
                                        issues.append(&mut found);
                                        assert(issue_views(issues@) =~= before + change_issues(address@, *after));
                                    },
                                    None => {},
                                }
                            }
                        },
                        None => {},
                    }
                    i = i + 1;
                }
                assert(changes@.subrange(0, changes@.len() as int) =~= changes@);
            },
            None => {
                let members_opt = match plan.get("resources") {
                    Some(v) => v.as_object(),
                    None => None,
                };
                match members_opt {
                    Some(members) => {
                        let mut i: usize = 0;
                        assert(members@.subrange(0, 0) =~= Seq::<(String, JsonValue)>::empty());
                        assert(issue_views(issues@) =~= Seq::<IssueView>::empty());
                        while i < members.len()
                            invariant
                                self.wf(),
                                0 <= i <= members@.len(),
                                plan_walk(seen0, *plan) == walk_resources(seen0, members@),
                                (issue_views(issues@), self.validated()) == walk_resources(
                                    seen0,
                                    members@.subrange(0, i as int),
                                ),
                            decreases members@.len() - i,
                        {
                            let member = &members[i];
                            assert(members@.subrange(0, i + 1).drop_last() =~= members@.subrange(0, i as int));
                            assert(members@.subrange(0, i + 1).last() == members@[i as int]);
                            let address = member.0.as_str();
                            if !self.already_validated(address) {
                                self.mark_validated(address);
                                let kind = kind_from_address(address);
                                let mut found = self.check_kind(kind, String::from_str(address), &member.1);
                                let ghost before = issue_views(issues@);
                                issues.append(&mut found);
                                assert(issue_views(issues@) =~= before + kind_issues(kind, address@, member.1));
                            }
                            i = i + 1;
                        }
                        assert(members@.subrange(0, members@.len() as int) =~= members@);
                    },
                    None => {},
                }
            },
        }
        issues
    }
}

/// The kind of an address in a `resources` mapping.
pub fn kind_from_address(address: &str) -> (r: ResourceKind)
    ensures
        r == kind_of_address(address@),
{
    if contains_text(address, "SecurityGroup") {
        ResourceKind::SecurityGroup
    } else if contains_text(address, "Instance") || contains_text(address, "EC2") {
        ResourceKind::Instance
    } else if contains_text(address, "S3") || contains_text(address, "Bucket") {
        ResourceKind::Bucket
    } else {
        ResourceKind::Unrecognized
    }
}

/// The kind named by an exact type tag: `security_group`, `ec2_instance`
/// or `s3_bucket`; any other tag is unrecognized.
pub fn kind_from_tag(tag: &str) -> (r: ResourceKind)
    ensures
        r == kind_of_tag(tag@),
{
    if text_eq(tag, "security_group") {
        ResourceKind::SecurityGroup
    } else if text_eq(tag, "ec2_instance") {
        ResourceKind::Instance
    } else if text_eq(tag, "s3_bucket") {
        ResourceKind::Bucket
    } else {
        ResourceKind::Unrecognized
    }
}

/// Validates a plan with a fresh validator.
pub fn fast_validate(plan: &JsonValue) -> (r: Vec<Issue>)
    ensures
        issue_views(r@) == plan_walk(Seq::empty(), *plan).0,
{
    let mut validator = FastValidator::new();
    validator.validate(plan)
}

} // verus!
