use vstd::prelude::*;

verus! {

/// How serious an issue is; `High` issues are reported before the others.
#[derive(Clone, Copy, Debug, PartialEq, Eq, Structural, Hash, PartialOrd, Ord)]
pub enum Severity {
    Low,
    Medium,
    High,
}

/// One finding of the rule engine on one resource.
///
/// Two issues count as the same issue exactly when their messages are equal.
#[derive(Debug)]
pub struct Issue {
    pub resource: String,
    pub message: String,
    pub severity: Severity,
}

/// What an issue says, as plain values.
pub struct IssueView {
    pub resource: Seq<char>,
    pub message: Seq<char>,
    pub severity: Severity,
}

impl View for Issue {
    type V = IssueView;

    open spec fn view(&self) -> IssueView {
        IssueView { resource: self.resource@, message: self.message@, severity: self.severity }
    }
}

/// The views of a list of issues.
pub open spec fn issue_views(issues: Seq<Issue>) -> Seq<IssueView> {
    issues.map_values(|i: Issue| i@)
}

/// The issues of `issues` that have severity `severity`, in order.
pub open spec fn of_severity(issues: Seq<IssueView>, severity: Severity) -> Seq<IssueView>
    decreases issues.len(),
{
    if issues.len() == 0 {
        Seq::empty()
    } else {
        of_severity(issues.drop_last(), severity) + if issues.last().severity == severity {
            seq![issues.last()]
        } else {
            Seq::empty()
        }
    }
}

/// The issues of `issues` whose severity is not `severity`, in order.
pub open spec fn not_of_severity(issues: Seq<IssueView>, severity: Severity) -> Seq<IssueView>
    decreases issues.len(),
{
    if issues.len() == 0 {
        Seq::empty()
    } else {
        not_of_severity(issues.drop_last(), severity) + if issues.last().severity != severity {
            seq![issues.last()]
        } else {
            Seq::empty()
        }
    }
}

/// Splits issues for reporting: the High ones, then the others, each in
/// their given order.
pub fn split_high_first(issues: &Vec<Issue>) -> (r: (Vec<Issue>, Vec<Issue>))
    ensures
        issue_views(r.0@) == of_severity(issue_views(issues@), Severity::High),
        issue_views(r.1@) == not_of_severity(issue_views(issues@), Severity::High),
{
    let ghost v = issue_views(issues@);
    let mut high: Vec<Issue> = Vec::new();
    let mut others: Vec<Issue> = Vec::new();
    let mut i: usize = 0;
    assert(v.subrange(0, 0) =~= Seq::<IssueView>::empty());
    assert(issue_views(high@) =~= Seq::<IssueView>::empty());
    assert(issue_views(others@) =~= Seq::<IssueView>::empty());
    while i < issues.len()
        invariant
            0 <= i <= issues@.len(),
            v == issue_views(issues@),
            issue_views(high@) == of_severity(v.subrange(0, i as int), Severity::High),
            issue_views(others@) == not_of_severity(v.subrange(0, i as int), Severity::High),
        decreases issues@.len() - i,
    {
        assert(v.subrange(0, i + 1).drop_last() =~= v.subrange(0, i as int));
        assert(v.subrange(0, i + 1).last() == issues@[i as int]@);
        let ghost high_before = issue_views(high@);
        let ghost others_before = issue_views(others@);
        let issue = issues[i].clone();
        if issue.severity == Severity::High {
            high.push(issue);
            assert(issue_views(high@) =~= high_before + seq![issues@[i as int]@]);
            assert(issue_views(others@) =~= others_before + Seq::<IssueView>::empty());
        } else {
            others.push(issue);
            assert(issue_views(others@) =~= others_before + seq![issues@[i as int]@]);
            assert(issue_views(high@) =~= high_before + Seq::<IssueView>::empty());
        }
        i = i + 1;
    }
    assert(v.subrange(0, issues@.len() as int) =~= v);
    (high, others)
}

impl Clone for Issue {
    fn clone(&self) -> (r: Issue)
        ensures
            r == *self,
    {
        Issue {
            resource: self.resource.clone(),
            message: self.message.clone(),
            severity: self.severity,
        }
    }
}

} // verus!
