use vstd::prelude::*;

use crate::fingerprint::fingerprint;
use crate::json::JsonValue;
use crate::monitor::{
    DriftMonitor, EventView, MAX_STATES, StateView, Timestamp, capped, check_step, has_message,
    issues_not_in,
};
use crate::rules::{
    ResourceKind, egress_issues, finding, kind_issues, kind_of_tag, ingress_port_issues, is_disallowed, is_unrestricted_egress,
    issues_over, lists_text, open_ingress_issues, open_ingress_rule_issues,
    port_issues, rule_ports, rules_under, security_group_issues, service_name,
};
use crate::text::{decimal, is_substring, nat_digits};
use crate::types::{IssueView, Severity, of_severity};

verus! {

/// Every issue that `per_rule` gives for one rule is among the issues of
/// all the rules.
pub proof fn lemma_issues_over_includes(
    rules: Seq<JsonValue>,
    per_rule: spec_fn(JsonValue) -> Seq<IssueView>,
    k: int,
    j: int,
)
    requires
        0 <= k < rules.len(),
        0 <= j < per_rule(rules[k]).len(),
    ensures
        issues_over(rules, per_rule).contains(per_rule(rules[k])[j]),
    decreases rules.len(),
{
    let prefix = issues_over(rules.drop_last(), per_rule);
    let all = issues_over(rules, per_rule);
    if k == rules.len() - 1 {
        assert(all[prefix.len() + j] == per_rule(rules[k])[j]);
    } else {
        assert(rules.drop_last()[k] == rules[k]);
        lemma_issues_over_includes(rules.drop_last(), per_rule, k, j);
        let i = choose|i: int| 0 <= i < prefix.len() && prefix[i] == per_rule(rules[k])[j];
        assert(all[i] == prefix[i]);
    }
}

/// An ingress rule that lists `0.0.0.0/0` is always reported: the
/// security group gets a High issue whose message mentions `0.0.0.0/0`.
pub proof fn law_open_ingress_reported(address: Seq<char>, resource: JsonValue, k: int)
    requires
        0 <= k < rules_under(resource, "ingress"@).len(),
        lists_text(rules_under(resource, "ingress"@)[k].field("cidr_blocks"@), "0.0.0.0/0"@),
    ensures
        exists|i: int|
            0 <= i < security_group_issues(address, resource).len()
                && (#[trigger] security_group_issues(address, resource)[i]).severity == Severity::High
                && is_substring("0.0.0.0/0"@, security_group_issues(address, resource)[i].message),
{
    let rules = rules_under(resource, "ingress"@);
    let per_rule = |rule: JsonValue| open_ingress_rule_issues(address, rule);
    let x = per_rule(rules[k])[0];
    lemma_issues_over_includes(rules, per_rule, k, 0);
    let open = open_ingress_issues(address, resource);
    assert(open == issues_over(rules, per_rule));
    let i = choose|i: int| 0 <= i < open.len() && open[i] == x;
    let all = security_group_issues(address, resource);
    assert(all[i] == x);
    reveal_strlit("Open ingress from 0.0.0.0/0 for ");
    reveal_strlit("0.0.0.0/0");
    assert(x.severity == Severity::High);
    assert(x.message.subrange(18int, 18int + "0.0.0.0/0"@.len()) =~= "0.0.0.0/0"@);
    assert(is_substring("0.0.0.0/0"@, all[i].message));
}

pub proof fn lemma_of_severity_concat(a: Seq<IssueView>, b: Seq<IssueView>, severity: Severity)
    ensures
        of_severity(a + b, severity) == of_severity(a, severity) + of_severity(b, severity),
    decreases b.len(),
{
    if b.len() == 0 {
        assert(a + b =~= a);
        assert(of_severity(a, severity) + of_severity(b, severity) =~= of_severity(a, severity));
    } else {
        assert((a + b).drop_last() =~= a + b.drop_last());
        assert((a + b).last() == b.last());
        lemma_of_severity_concat(a, b.drop_last(), severity);
        assert(of_severity(a + b, severity) =~= of_severity(a, severity) + of_severity(b, severity));
    }
}

/// When no rule gives an issue of `severity`, neither do all the rules.
pub proof fn lemma_issues_over_without(
    rules: Seq<JsonValue>,
    per_rule: spec_fn(JsonValue) -> Seq<IssueView>,
    severity: Severity,
)
    requires
        forall|j: int| 0 <= j < rules.len() ==> of_severity(per_rule(#[trigger] rules[j]), severity).len() == 0,
    ensures
        of_severity(issues_over(rules, per_rule), severity).len() == 0,
    decreases rules.len(),
{
    if rules.len() > 0 {
        assert forall|j: int| 0 <= j < rules.drop_last().len() implies of_severity(
            per_rule(#[trigger] rules.drop_last()[j]),
            severity,
        ).len() == 0 by {
            assert(rules.drop_last()[j] == rules[j]);
        }
        lemma_issues_over_without(rules.drop_last(), per_rule, severity);
        assert(of_severity(per_rule(rules[rules.len() - 1]), severity).len() == 0);
        lemma_of_severity_concat(
            issues_over(rules.drop_last(), per_rule),
            per_rule(rules.last()),
            severity,
        );
    }
}

pub proof fn lemma_single_issue_of_severity(s: IssueView, severity: Severity)
    ensures
        of_severity(seq![s], severity) == if s.severity == severity {
            seq![s]
        } else {
            Seq::empty()
        },
{
    assert(seq![s].drop_last() =~= Seq::<IssueView>::empty());
    assert(of_severity(seq![s].drop_last(), severity) == Seq::<IssueView>::empty());
    assert(seq![s].last() == s);
    if s.severity == severity {
        assert(Seq::<IssueView>::empty() + seq![s] =~= seq![s]);
    } else {
        assert(Seq::<IssueView>::empty() + Seq::<IssueView>::empty() =~= Seq::<IssueView>::empty());
    }
}

/// Egress rules never give High issues.
pub proof fn lemma_egress_never_high(address: Seq<char>, resource: JsonValue)
    ensures
        of_severity(
            issues_over(rules_under(resource, "egress"@), |rule: JsonValue| egress_issues(address, rule)),
            Severity::High,
        ).len() == 0,
{
    let per_rule = |rule: JsonValue| egress_issues(address, rule);
    let rules = rules_under(resource, "egress"@);
    assert forall|j: int| 0 <= j < rules.len() implies of_severity(per_rule(#[trigger] rules[j]), Severity::High).len() == 0 by {
        egress_without(address, rules[j], Severity::High);
    }
    lemma_issues_over_without(rules, per_rule, Severity::High);
}

proof fn egress_without(address: Seq<char>, rule: JsonValue, severity: Severity)
    requires
        severity == Severity::High || (severity == Severity::Medium && !is_unrestricted_egress(rule)),
    ensures
        of_severity(egress_issues(address, rule), severity).len() == 0,
{
    let e = egress_issues(address, rule);
    let unrestricted = if is_unrestricted_egress(rule) {
        seq![finding(address, "Unrestricted egress to 0.0.0.0/0 for all ports"@, Severity::Medium)]
    } else {
        Seq::empty()
    };
    let wide = match rule_ports(rule) {
        Some((f, t)) => if t - f > 1000 {
            seq![finding(address, "Overly permissive egress port range "@ + decimal(f as int) + "-"@
                + decimal(t as int), Severity::Low)]
        } else {
            Seq::empty()
        },
        None => Seq::empty(),
    };
    assert(e == unrestricted + wide);
    lemma_of_severity_concat(unrestricted, wide, severity);
    if is_unrestricted_egress(rule) {
        lemma_single_issue_of_severity(unrestricted[0], severity);
        assert(unrestricted =~= seq![unrestricted[0]]);
    }
    if wide.len() > 0 {
        lemma_single_issue_of_severity(wide[0], severity);
        assert(wide =~= seq![wide[0]]);
    }
}

/// The port policy reports a lone ingress rule on port 22 as exactly one
/// High issue, which names the port and its service, SSH.
pub proof fn law_ssh_port_disallowed(address: Seq<char>, resource: JsonValue)
    requires
        rules_under(resource, "ingress"@).len() == 1,
        rule_ports(rules_under(resource, "ingress"@)[0]) == Some((22i32, 22i32)),
    ensures
        of_severity(port_issues(address, resource), Severity::High) == seq![
            finding(address, "Port 22 (SSH) is disallowed for inbound traffic"@, Severity::High),
        ],
        is_substring("22"@, "Port 22 (SSH) is disallowed for inbound traffic"@),
        is_substring("SSH"@, "Port 22 (SSH) is disallowed for inbound traffic"@),
{
    reveal_strlit("Port 22 (SSH) is disallowed for inbound traffic");
    reveal_strlit("Port ");
    reveal_strlit(" (");
    reveal_strlit(") is disallowed for inbound traffic");
    reveal_strlit("SSH");
    reveal_strlit("22");
    let ingress = rules_under(resource, "ingress"@);
    let rule = ingress[0];
    let per_rule = |r: JsonValue| ingress_port_issues(address, r);
    assert(ingress.drop_last() =~= Seq::<JsonValue>::empty());
    assert(issues_over(ingress.drop_last(), per_rule) == Seq::<IssueView>::empty());
    assert(ingress.last() == rule);
    assert(issues_over(ingress, per_rule) =~= per_rule(rule));
    assert(is_disallowed(22i32)) by {
        assert(crate::rules::disallowed_port_list()[0] == 22i32);
    }
    assert(nat_digits(2) == seq!['2']);
    assert(decimal(22) =~= seq!['2', '2']);
    assert(service_name(22i32) == "SSH"@);
    let message = "Port "@ + decimal(22) + " ("@ + service_name(22i32) + ") is disallowed for inbound traffic"@;
    assert(message =~= "Port 22 (SSH) is disallowed for inbound traffic"@);
    let issue = finding(address, "Port 22 (SSH) is disallowed for inbound traffic"@, Severity::High);
    assert(per_rule(rule) == seq![issue]);
    lemma_single_issue_of_severity(issue, Severity::High);
    lemma_egress_never_high(address, resource);
    let egress = issues_over(rules_under(resource, "egress"@), |r: JsonValue| egress_issues(address, r));
    lemma_of_severity_concat(per_rule(rule), egress, Severity::High);
    assert(of_severity(port_issues(address, resource), Severity::High) =~= seq![issue]);
    let text = "Port 22 (SSH) is disallowed for inbound traffic"@;
    assert(text.subrange(5int, 5int + "22"@.len()) =~= "22"@);
    assert(text.subrange(9int, 9int + "SSH"@.len()) =~= "SSH"@);
}

/// The port policy reports a lone ingress range of more than 1000 ports
/// that holds no disallowed port as exactly one Medium issue naming the
/// range, as long as no egress rule is open to `0.0.0.0/0` on all ports
/// (which is Medium too).
pub proof fn law_wide_range_flagged(address: Seq<char>, resource: JsonValue, f: i32, t: i32)
    requires
        rules_under(resource, "ingress"@).len() == 1,
        rule_ports(rules_under(resource, "ingress"@)[0]) == Some((f, t)),
        f != t,
        t - f > 1000,
        forall|p: i32| is_disallowed(p) ==> !(f <= p <= t),
        forall|j: int|
            0 <= j < rules_under(resource, "egress"@).len() ==> !is_unrestricted_egress(
                #[trigger] rules_under(resource, "egress"@)[j],
            ),
    ensures
        of_severity(port_issues(address, resource), Severity::Medium) == seq![
            finding(
                address,
                "Overly permissive port range "@ + decimal(f as int) + "-"@ + decimal(t as int),
                Severity::Medium,
            ),
        ],
        is_substring(
            decimal(f as int) + "-"@ + decimal(t as int),
            "Overly permissive port range "@ + decimal(f as int) + "-"@ + decimal(t as int),
        ),
{
    let ingress = rules_under(resource, "ingress"@);
    let rule = ingress[0];
    let per_rule = |r: JsonValue| ingress_port_issues(address, r);
    assert(ingress.drop_last() =~= Seq::<JsonValue>::empty());
    assert(issues_over(ingress.drop_last(), per_rule) == Seq::<IssueView>::empty());
    assert(ingress.last() == rule);
    assert(issues_over(ingress, per_rule) =~= per_rule(rule));
    let issue = finding(
        address,
        "Overly permissive port range "@ + decimal(f as int) + "-"@ + decimal(t as int),
        Severity::Medium,
    );
    assert(!(exists|p: i32| is_disallowed(p) && f <= p <= t));
    assert(per_rule(rule) == seq![issue]);
    lemma_single_issue_of_severity(issue, Severity::Medium);
    let egress_rules = rules_under(resource, "egress"@);
    let egress_rule = |r: JsonValue| egress_issues(address, r);
    assert forall|j: int| 0 <= j < egress_rules.len() implies of_severity(egress_rule(#[trigger] egress_rules[j]), Severity::Medium).len() == 0 by {
        egress_without(address, egress_rules[j], Severity::Medium);
    }
    lemma_issues_over_without(egress_rules, egress_rule, Severity::Medium);
    let egress = issues_over(egress_rules, egress_rule);
    lemma_of_severity_concat(per_rule(rule), egress, Severity::Medium);
    assert(of_severity(port_issues(address, resource), Severity::Medium) =~= seq![issue]);
    reveal_strlit("Overly permissive port range ");
    let range = decimal(f as int) + "-"@ + decimal(t as int);
    let text = "Overly permissive port range "@ + range;
    let message = "Overly permissive port range "@ + decimal(f as int) + "-"@ + decimal(t as int);
    assert(message =~= text);
    assert(message.subrange(29int, 29int + range.len()) =~= range);
    assert(is_substring(range, message));
}

/// The rules are a function of their inputs: checking the same
/// configuration twice gives the same issues, with the same messages.
pub proof fn law_checks_repeatable(
    kind: ResourceKind,
    address: Seq<char>,
    config: JsonValue,
    first: Seq<IssueView>,
    second: Seq<IssueView>,
)
    requires
        first == kind_issues(kind, address, config),
        second == kind_issues(kind, address, config),
    ensures
        first.len() == second.len(),
        forall|i: int| 0 <= i < first.len() ==> (#[trigger] first[i]).message == second[i].message,
{
}

/// An issue is in `issues_not_in(a, b)` exactly when it is in `a` and no
/// issue of `b` has its message.
pub proof fn lemma_issues_not_in_members(a: Seq<IssueView>, b: Seq<IssueView>, x: IssueView)
    ensures
        issues_not_in(a, b).contains(x) <==> a.contains(x) && !has_message(b, x.message),
    decreases a.len(),
{
    if a.len() > 0 {
        let rest = issues_not_in(a.drop_last(), b);
        let tail = if has_message(b, a.last().message) {
            Seq::<IssueView>::empty()
        } else {
            seq![a.last()]
        };
        lemma_issues_not_in_members(a.drop_last(), b, x);
        assert(issues_not_in(a, b) == rest + tail);
        if issues_not_in(a, b).contains(x) {
            let i = choose|i: int| 0 <= i < (rest + tail).len() && (rest + tail)[i] == x;
            if i < rest.len() {
                assert(rest[i] == x);
                let j = choose|j: int| 0 <= j < a.drop_last().len() && a.drop_last()[j] == x;
                assert(a[j] == x);
            } else {
                assert(a[a.len() - 1] == x);
            }
        }
        if a.contains(x) && !has_message(b, x.message) {
            let j = choose|j: int| 0 <= j < a.len() && a[j] == x;
            if j < a.len() - 1 {
                assert(a.drop_last()[j] == x);
                let i = choose|i: int| 0 <= i < rest.len() && rest[i] == x;
                assert((rest + tail)[i] == x);
            } else {
                assert((rest + tail)[rest.len() as int] == x);
            }
        }
    }
}

/// The first check of a resource never reports drift, whatever its
/// configuration.
pub proof fn law_first_check_quiet(
    before: DriftMonitor,
    after: DriftMonitor,
    id: Seq<char>,
    resource_type: Seq<char>,
    config: JsonValue,
    now: Timestamp,
    r: Option<EventView>,
)
    requires
        before.history(id) is None,
        check_step(before, after, id, resource_type, config, now, r),
    ensures
        r is None,
{
}

/// The last snapshot after a check is the one it took.
proof fn lemma_last_snapshot(
    before: DriftMonitor,
    after: DriftMonitor,
    id: Seq<char>,
    resource_type: Seq<char>,
    config: JsonValue,
    now: Timestamp,
    r: Option<EventView>,
)
    requires
        check_step(before, after, id, resource_type, config, now, r),
    ensures
        after.history(id) is Some,
        after.history(id)->0.states.len() > 0,
        after.history(id)->0.states.last() == (StateView { captured_at: now, config_hash: fingerprint(config) }),
{
    match before.history(id) {
        Some(h) => {
            let pushed = h.states.push(StateView { captured_at: now, config_hash: fingerprint(config) });
            let states = capped(pushed, MAX_STATES as nat);
            if pushed.len() > MAX_STATES {
                assert(states.last() == pushed.last());
            }
        },
        None => {},
    }
}

/// Checking a resource again with an identical configuration never
/// reports drift.
pub proof fn law_repeat_check_quiet(
    m0: DriftMonitor,
    m1: DriftMonitor,
    m2: DriftMonitor,
    id: Seq<char>,
    resource_type: Seq<char>,
    config: JsonValue,
    t1: Timestamp,
    t2: Timestamp,
    r1: Option<EventView>,
    r2: Option<EventView>,
)
    requires
        check_step(m0, m1, id, resource_type, config, t1, r1),
        check_step(m1, m2, id, resource_type, config, t2, r2),
    ensures
        r2 is None,
{
    lemma_last_snapshot(m0, m1, id, resource_type, config, t1, r1);
}

/// When a second check changes a resource's configuration and the set of
/// issue messages it gets, the check reports drift, and the event's new and
/// resolved issues are exactly the message-level differences between the
/// two checks' issues. Fingerprints are digests, so two different
/// configurations with equal fingerprints are left out.
pub proof fn law_drift_reports_delta(
    m0: DriftMonitor,
    m1: DriftMonitor,
    m2: DriftMonitor,
    id: Seq<char>,
    resource_type: Seq<char>,
    c1: JsonValue,
    c2: JsonValue,
    t1: Timestamp,
    t2: Timestamp,
    r1: Option<EventView>,
    r2: Option<EventView>,
)
    requires
        check_step(m0, m1, id, resource_type, c1, t1, r1),
        check_step(m1, m2, id, resource_type, c2, t2, r2),
        fingerprint(c1) != fingerprint(c2),
        exists|m: Seq<char>|
            has_message(kind_issues(kind_of_tag(resource_type), id, c1), m) != has_message(
                kind_issues(kind_of_tag(resource_type), id, c2),
                m,
            ),
    ensures
        r2 is Some,
        r2->0.new_issues == issues_not_in(
            kind_issues(kind_of_tag(resource_type), id, c2),
            kind_issues(kind_of_tag(resource_type), id, c1),
        ),
        r2->0.resolved_issues == issues_not_in(
            kind_issues(kind_of_tag(resource_type), id, c1),
            kind_issues(kind_of_tag(resource_type), id, c2),
        ),
        forall|x: IssueView| #[trigger] r2->0.new_issues.contains(x) <==> kind_issues(
            kind_of_tag(resource_type),
            id,
            c2,
        ).contains(x) && !has_message(kind_issues(kind_of_tag(resource_type), id, c1), x.message),
        forall|x: IssueView| #[trigger] r2->0.resolved_issues.contains(x) <==> kind_issues(
            kind_of_tag(resource_type),
            id,
            c1,
        ).contains(x) && !has_message(kind_issues(kind_of_tag(resource_type), id, c2), x.message),
{
    lemma_last_snapshot(m0, m1, id, resource_type, c1, t1, r1);
    let f1 = kind_issues(kind_of_tag(resource_type), id, c1);
    let f2 = kind_issues(kind_of_tag(resource_type), id, c2);
    let h = m1.history(id)->0;
    assert(h.current_issues == f1);
    let m = choose|m: Seq<char>| has_message(f1, m) != has_message(f2, m);
    if has_message(f2, m) {
        let i = choose|i: int| 0 <= i < f2.len() && f2[i].message == m;
        lemma_issues_not_in_members(f2, f1, f2[i]);
        assert(f2.contains(f2[i]));
        assert(issues_not_in(f2, f1).len() > 0);
    } else {
        let i = choose|i: int| 0 <= i < f1.len() && f1[i].message == m;
        lemma_issues_not_in_members(f1, f2, f1[i]);
        assert(f1.contains(f1[i]));
        assert(issues_not_in(f1, f2).len() > 0);
    }
    assert forall|x: IssueView| #[trigger] r2->0.new_issues.contains(x) <==> f2.contains(x) && !has_message(f1, x.message) by {
        lemma_issues_not_in_members(f2, f1, x);
    }
    assert forall|x: IssueView| #[trigger] r2->0.resolved_issues.contains(x) <==> f1.contains(x) && !has_message(f2, x.message) by {
        lemma_issues_not_in_members(f1, f2, x);
    }
}

/// Each check adds one snapshot to a resource's history; once it holds
/// ten, the oldest one is dropped, so it never holds more.
pub proof fn law_history_capped(
    before: DriftMonitor,
    after: DriftMonitor,
    id: Seq<char>,
    resource_type: Seq<char>,
    config: JsonValue,
    now: Timestamp,
    r: Option<EventView>,
)
    requires
        before.wf(),
        before.history(id) is Some,
        check_step(before, after, id, resource_type, config, now, r),
    ensures
        after.history(id)->0.states.len() == if before.history(id)->0.states.len() < MAX_STATES {
            before.history(id)->0.states.len() + 1
        } else {
            MAX_STATES as nat
        },
        before.history(id)->0.states.len() == MAX_STATES ==> after.history(id)->0.states
            == before.history(id)->0.states.drop_first().push(
            StateView { captured_at: now, config_hash: fingerprint(config) },
        ),
{
    before.law_bounded_buffers(id);
    let h = before.history(id)->0;
    let pushed = h.states.push(StateView { captured_at: now, config_hash: fingerprint(config) });
    if h.states.len() == MAX_STATES {
        assert(pushed.drop_first() =~= h.states.drop_first().push(
            StateView { captured_at: now, config_hash: fingerprint(config) },
        ));
    }
}

} // verus!
