use vstd::prelude::*;
use vstd::string::StringExecFns;

use crate::fingerprint::{config_fingerprint, fingerprint};
use crate::json::{JsonValue, text_eq};
use crate::keyed::{
    find_last, keys_unique, lemma_find_at, lemma_find_in, lemma_find_none, lemma_find_push, lemma_find_update,
};
use crate::rules::{FastValidator, kind_from_tag, kind_issues, kind_of_tag};
use crate::types::{Issue, IssueView, Severity, issue_views};

verus! {

/// Most snapshots kept per resource.
pub const MAX_STATES: usize = 10;

/// Most drift events kept by a monitor.
pub const MAX_EVENTS: usize = 100;

/// A point in time: whole seconds since the Unix epoch and the nanoseconds
/// past that second.
#[derive(Clone, Copy, Debug, PartialEq, Eq, Structural)]
pub struct Timestamp {
    pub seconds: i64,
    pub nanos: u32,
}

/// Relies on `chrono::Utc::now`: the current time of the system clock,
/// split into its Unix seconds (`DateTime::timestamp`) and sub-second
/// nanoseconds (`DateTime::timestamp_subsec_nanos`). Nothing is promised of
/// the value read. `Utc::now` panics when the clock reads a time before the
/// Unix epoch, a state of the machine that no argument can rule out.
#[verifier::external_body]
fn current_time() -> (r: Timestamp) {
    let t = chrono::Utc::now();
    Timestamp { seconds: t.timestamp(), nanos: t.timestamp_subsec_nanos() }
}

/// One observation of a resource's configuration.
#[derive(Debug)]
pub struct ResourceState {
    pub captured_at: Timestamp,
    pub configuration: JsonValue,
    pub config_hash: u64,
}

pub struct StateView {
    pub captured_at: Timestamp,
    pub config_hash: u64,
}

impl View for ResourceState {
    type V = StateView;

    open spec fn view(&self) -> StateView {
        StateView { captured_at: self.captured_at, config_hash: self.config_hash }
    }
}

/// Everything a monitor remembers of one resource.
#[derive(Debug)]
pub struct ResourceHistory {
    pub resource_id: String,
    pub resource_type: String,
    pub application: String,
    pub first_seen: Timestamp,
    pub last_modified: Timestamp,
    pub state_history: Vec<ResourceState>,
    pub current_issues: Vec<Issue>,
    pub drift_count: u64,
}

pub struct HistoryView {
    pub resource_id: Seq<char>,
    pub resource_type: Seq<char>,
    pub application: Seq<char>,
    pub first_seen: Timestamp,
    pub last_modified: Timestamp,
    pub states: Seq<StateView>,
    pub current_issues: Seq<IssueView>,
    pub drift_count: u64,
}

impl View for ResourceHistory {
    type V = HistoryView;

    open spec fn view(&self) -> HistoryView {
        HistoryView {
            resource_id: self.resource_id@,
            resource_type: self.resource_type@,
            application: self.application@,
            first_seen: self.first_seen,
            last_modified: self.last_modified,
            states: self.state_history@.map_values(|s: ResourceState| s@),
            current_issues: issue_views(self.current_issues@),
            drift_count: self.drift_count,
        }
    }
}

/// A change of configuration that introduced or resolved issues.
#[derive(Debug)]
pub struct DriftEvent {
    pub detected_at: Timestamp,
    pub resource_id: String,
    pub resource_type: String,
    pub application: String,
    pub new_issues: Vec<Issue>,
    pub resolved_issues: Vec<Issue>,
}

pub struct EventView {
    pub detected_at: Timestamp,
    pub resource_id: Seq<char>,
    pub resource_type: Seq<char>,
    pub application: Seq<char>,
    pub new_issues: Seq<IssueView>,
    pub resolved_issues: Seq<IssueView>,
}

impl View for DriftEvent {
    type V = EventView;

    open spec fn view(&self) -> EventView {
        EventView {
            detected_at: self.detected_at,
            resource_id: self.resource_id@,
            resource_type: self.resource_type@,
            application: self.application@,
            new_issues: issue_views(self.new_issues@),
            resolved_issues: issue_views(self.resolved_issues@),
        }
    }
}

/// Issue counts by severity.
#[derive(Clone, Copy, Debug, PartialEq, Eq, Structural)]
pub struct SeverityCounts {
    pub high: usize,
    pub medium: usize,
    pub low: usize,
}

impl SeverityCounts {
    /// The count for `severity`.
    pub fn get(&self, severity: Severity) -> (r: usize)
        ensures
            r == match severity {
                Severity::High => self.high,
                Severity::Medium => self.medium,
                Severity::Low => self.low,
            },
    {
        match severity {
            Severity::High => self.high,
            Severity::Medium => self.medium,
            Severity::Low => self.low,
        }
    }
}

/// What a monitor knows of one application.
///
/// `issues` holds the severity counts of the resource of this application
/// that was checked last, not a sum over its resources.
#[derive(Debug)]
pub struct ApplicationMetrics {
    pub name: String,
    pub resource_count: usize,
    pub issues: SeverityCounts,
    pub total_drifts: u64,
    pub last_drift: Option<Timestamp>,
}

pub struct MetricsView {
    pub name: Seq<char>,
    pub resource_count: usize,
    pub issues: SeverityCounts,
    pub total_drifts: u64,
    pub last_drift: Option<Timestamp>,
}

impl View for ApplicationMetrics {
    type V = MetricsView;

    open spec fn view(&self) -> MetricsView {
        MetricsView {
            name: self.name@,
            resource_count: self.resource_count,
            issues: self.issues,
            total_drifts: self.total_drifts,
            last_drift: self.last_drift,
        }
    }
}

impl Clone for ApplicationMetrics {
    fn clone(&self) -> (r: ApplicationMetrics)
        ensures
            r@ == self@,
    {
        ApplicationMetrics {
            name: self.name.clone(),
            resource_count: self.resource_count,
            issues: self.issues,
            total_drifts: self.total_drifts,
            last_drift: self.last_drift,
        }
    }
}

fn clone_issues(issues: &Vec<Issue>) -> (r: Vec<Issue>)
    ensures
        r@ == issues@,
{
    let mut out: Vec<Issue> = Vec::new();
    let mut i: usize = 0;
    while i < issues.len()
        invariant
            0 <= i <= issues@.len(),
            out@ == issues@.subrange(0, i as int),
        decreases issues@.len() - i,
    {
        out.push(issues[i].clone());
        assert(out@ =~= issues@.subrange(0, i + 1));
        i = i + 1;
    }
    assert(out@ =~= issues@);
    out
}

impl Clone for DriftEvent {
    fn clone(&self) -> (r: DriftEvent)
        ensures
            r@ == self@,
    {
        DriftEvent {
            detected_at: self.detected_at,
            resource_id: self.resource_id.clone(),
            resource_type: self.resource_type.clone(),
            application: self.application.clone(),
            new_issues: clone_issues(&self.new_issues),
            resolved_issues: clone_issues(&self.resolved_issues),
        }
    }
}

/// Whether some issue of `issues` has the message `message`.
pub open spec fn has_message(issues: Seq<IssueView>, message: Seq<char>) -> bool {
    exists|i: int| 0 <= i < issues.len() && (#[trigger] issues[i]).message == message
}

/// The issues of `a` whose message no issue of `b` has, in order.
pub open spec fn issues_not_in(a: Seq<IssueView>, b: Seq<IssueView>) -> Seq<IssueView>
    decreases a.len(),
{
    if a.len() == 0 {
        Seq::empty()
    } else {
        issues_not_in(a.drop_last(), b) + if has_message(b, a.last().message) {
            Seq::empty()
        } else {
            seq![a.last()]
        }
    }
}

/// The number of issues of `severity` in `issues`.
pub open spec fn severity_count(issues: Seq<IssueView>, severity: Severity) -> nat
    decreases issues.len(),
{
    if issues.len() == 0 {
        0
    } else {
        severity_count(issues.drop_last(), severity) + if issues.last().severity == severity {
            1nat
        } else {
            0nat
        }
    }
}

/// The severity histogram of `issues`.
pub open spec fn counts_of(issues: Seq<IssueView>) -> SeverityCounts {
    SeverityCounts {
        high: severity_count(issues, Severity::High) as usize,
        medium: severity_count(issues, Severity::Medium) as usize,
        low: severity_count(issues, Severity::Low) as usize,
    }
}

/// `s` with its first element dropped when it is longer than `limit`.
pub open spec fn capped<T>(s: Seq<T>, limit: nat) -> Seq<T> {
    if s.len() > limit {
        s.drop_first()
    } else {
        s
    }
}

/// One more, unless at the largest value.
pub open spec fn saturating_inc(n: u64) -> u64 {
    if n < u64::MAX {
        (n + 1) as u64
    } else {
        n
    }
}

/// Whether a configuration with fingerprint `fp` differs from the last
/// snapshot of `h`.
pub open spec fn fingerprint_changed(h: HistoryView, fp: u64) -> bool {
    h.states.len() > 0 && h.states.last().config_hash != fp
}

/// The drift event of a check, if any: the fingerprint changed and the
/// issues changed at the message level.
pub open spec fn drift_event(
    previous: Option<HistoryView>,
    id: Seq<char>,
    resource_type: Seq<char>,
    application: Seq<char>,
    found: Seq<IssueView>,
    fp: u64,
    now: Timestamp,
) -> Option<EventView> {
    match previous {
        Some(h) => {
            let new_issues = issues_not_in(found, h.current_issues);
            let resolved_issues = issues_not_in(h.current_issues, found);
            if fingerprint_changed(h, fp) && (new_issues.len() > 0 || resolved_issues.len() > 0) {
                Some(
                    EventView {
                        detected_at: now,
                        resource_id: id,
                        resource_type,
                        application,
                        new_issues,
                        resolved_issues,
                    },
                )
            } else {
                None
            }
        },
        None => None,
    }
}

/// The history of a resource after a check.
pub open spec fn next_history(
    previous: Option<HistoryView>,
    id: Seq<char>,
    resource_type: Seq<char>,
    application: Seq<char>,
    found: Seq<IssueView>,
    fp: u64,
    now: Timestamp,
) -> HistoryView {
    let state = StateView { captured_at: now, config_hash: fp };
    match previous {
        Some(h) => {
            let changed = fingerprint_changed(h, fp);
            HistoryView {
                last_modified: if changed {
                    now
                } else {
                    h.last_modified
                },
                states: capped(h.states.push(state), MAX_STATES as nat),
                current_issues: found,
                drift_count: if changed {
                    saturating_inc(h.drift_count)
                } else {
                    h.drift_count
                },
                ..h
            }
        },
        None => HistoryView {
            resource_id: id,
            resource_type,
            application,
            first_seen: now,
            last_modified: now,
            states: seq![state],
            current_issues: found,
            drift_count: 0,
        },
    }
}

/// The metrics of an application that nothing has been recorded for.
pub open spec fn fresh_metrics(name: Seq<char>) -> MetricsView {
    MetricsView {
        name,
        resource_count: 0,
        issues: SeverityCounts { high: 0, medium: 0, low: 0 },
        total_drifts: 0,
        last_drift: None,
    }
}

/// The metrics of an application, created when missing.
pub open spec fn metrics_or_fresh(m: Option<MetricsView>, name: Seq<char>) -> MetricsView {
    match m {
        Some(v) => v,
        None => fresh_metrics(name),
    }
}

/// The metrics of the application of a checked resource after the check.
pub open spec fn next_metrics(
    previous: MetricsView,
    new_resource: bool,
    event: bool,
    found: Seq<IssueView>,
    now: Timestamp,
) -> MetricsView {
    MetricsView {
        resource_count: if new_resource && previous.resource_count < usize::MAX {
            (previous.resource_count + 1) as usize
        } else {
            previous.resource_count
        },
        issues: counts_of(found),
        total_drifts: if event {
            saturating_inc(previous.total_drifts)
        } else {
            previous.total_drifts
        },
        last_drift: if event {
            Some(now)
        } else {
            previous.last_drift
        },
        ..previous
    }
}

/// Each snapshot's fingerprint is that of its configuration.
pub open spec fn states_fingerprinted(states: Seq<ResourceState>) -> bool {
    forall|k: int| 0 <= k < states.len() ==> (#[trigger] states[k]).config_hash == fingerprint(states[k].configuration)
}

/// What one check of resource `id` does to a monitor: `before` becomes
/// `after` and the check returns `r`.
pub open spec fn check_step(
    before: DriftMonitor,
    after: DriftMonitor,
    id: Seq<char>,
    resource_type: Seq<char>,
    config: JsonValue,
    now: Timestamp,
    r: Option<EventView>,
) -> bool {
    let found = kind_issues(kind_of_tag(resource_type), id, config);
    let app = before.application_for(id);
    let fp = fingerprint(config);
    let previous = before.history(id);
    let event = drift_event(previous, id, resource_type, app, found, fp, now);
    &&& after.wf()
    &&& r == event
    &&& after.history(id) == Some(next_history(previous, id, resource_type, app, found, fp, now))
    &&& forall|x: Seq<char>| x != id ==> #[trigger] after.history(x) == before.history(x)
    &&& after.metrics(app) == Some(
        next_metrics(metrics_or_fresh(before.metrics(app), app), previous is None, event is Some, found, now),
    )
    &&& forall|n: Seq<char>| n != app ==> #[trigger] after.metrics(n) == before.metrics(n)
    &&& forall|x: Seq<char>| #[trigger] after.application_for(x) == before.application_for(x)
    &&& after.recent() == match event {
        Some(e) => capped(before.recent().push(e), MAX_EVENTS as nat),
        None => before.recent(),
    }
}

/// The view of an optional event.
pub open spec fn event_view(r: Option<DriftEvent>) -> Option<EventView> {
    match r {
        Some(e) => Some(e@),
        None => None,
    }
}

fn mentions(issues: &Vec<Issue>, message: &String) -> (r: bool)
    ensures
        r == has_message(issue_views(issues@), message@),
{
    let mut i: usize = 0;
    while i < issues.len()
        invariant
            0 <= i <= issues@.len(),
            forall|j: int| 0 <= j < i ==> (#[trigger] issues@[j]).message@ != message@,
        decreases issues@.len() - i,
    {
        if issues[i].message == *message {
            assert(issue_views(issues@)[i as int].message == message@);
            return true;
        }
        i = i + 1;
    }
    assert forall|j: int| 0 <= j < issue_views(issues@).len() implies (#[trigger] issue_views(issues@)[j]).message != message@ by {
        assert(issues@[j].message@ != message@);
    }
    false
}

/// The issues of `a` whose message no issue of `b` has, in order.
fn issue_difference(a: &Vec<Issue>, b: &Vec<Issue>) -> (r: Vec<Issue>)
    ensures
        issue_views(r@) == issues_not_in(issue_views(a@), issue_views(b@)),
{
    let mut out: Vec<Issue> = Vec::new();
    let ghost av = issue_views(a@);
    let ghost bv = issue_views(b@);
    let mut i: usize = 0;
    assert(av.subrange(0, 0) =~= Seq::<IssueView>::empty());
    assert(issue_views(out@) =~= Seq::<IssueView>::empty());
    while i < a.len()
        invariant
            0 <= i <= a@.len(),
            av == issue_views(a@),
            bv == issue_views(b@),
            issue_views(out@) == issues_not_in(av.subrange(0, i as int), bv),
        decreases a@.len() - i,
    {
        let ghost before = issue_views(out@);
        assert(av.subrange(0, i + 1).drop_last() =~= av.subrange(0, i as int));
        assert(av.subrange(0, i + 1).last() == a@[i as int]@);
        if !mentions(b, &a[i].message) {
            out.push(a[i].clone());
            assert(issue_views(out@) =~= before + seq![a@[i as int]@]);
        } else {
            assert(issue_views(out@) =~= before + Seq::<IssueView>::empty());
        }
        i = i + 1;
    }
    assert(av.subrange(0, a@.len() as int) =~= av);
    out
}

/// The severity histogram of `issues`.
fn severity_counts(issues: &Vec<Issue>) -> (r: SeverityCounts)
    ensures
        r == counts_of(issue_views(issues@)),
{
    let ghost v = issue_views(issues@);
    let mut high: usize = 0;
    let mut medium: usize = 0;
    let mut low: usize = 0;
    let mut i: usize = 0;
    assert(v.subrange(0, 0) =~= Seq::<IssueView>::empty());
    while i < issues.len()
        invariant
            0 <= i <= issues@.len(),
            v == issue_views(issues@),
            high == severity_count(v.subrange(0, i as int), Severity::High),
            medium == severity_count(v.subrange(0, i as int), Severity::Medium),
            low == severity_count(v.subrange(0, i as int), Severity::Low),
            high <= i,
            medium <= i,
            low <= i,
        decreases issues@.len() - i,
    {
        assert(v.subrange(0, i + 1).drop_last() =~= v.subrange(0, i as int));
        assert(v.subrange(0, i + 1).last() == issues@[i as int]@);
        match issues[i].severity {
            Severity::High => high = high + 1,
            Severity::Medium => medium = medium + 1,
            Severity::Low => low = low + 1,
        }
        i = i + 1;
    }
    assert(v.subrange(0, issues@.len() as int) =~= v);
    SeverityCounts { high, medium, low }
}

/// The events of `events` for application `application`, in order.
pub open spec fn events_for(events: Seq<EventView>, application: Seq<char>) -> Seq<EventView>
    decreases events.len(),
{
    if events.len() == 0 {
        Seq::empty()
    } else {
        events_for(events.drop_last(), application) + if events.last().application == application {
            seq![events.last()]
        } else {
            Seq::empty()
        }
    }
}

/// Tracks resources over time, detects configuration drift and keeps
/// per-application metrics.
pub struct DriftMonitor {
    resource_history: Vec<ResourceHistory>,
    application_metrics: Vec<ApplicationMetrics>,
    resource_to_app: Vec<(String, String)>,
    validator: FastValidator,
    recent_drifts: Vec<DriftEvent>,
    max_history_events: usize,
}

pub open spec fn history_key() -> spec_fn(ResourceHistory) -> Seq<char> {
    |h: ResourceHistory| h.resource_id@
}

pub open spec fn metrics_key() -> spec_fn(ApplicationMetrics) -> Seq<char> {
    |m: ApplicationMetrics| m.name@
}

pub open spec fn mapping_key() -> spec_fn((String, String)) -> Seq<char> {
    |p: (String, String)| p.0@
}

impl DriftMonitor {
    pub closed spec fn wf(&self) -> bool {
        &&& self.validator.wf()
        &&& self.max_history_events == MAX_EVENTS
        &&& keys_unique(self.resource_history@, history_key())
        &&& keys_unique(self.application_metrics@, metrics_key())
        &&& keys_unique(self.resource_to_app@, mapping_key())
        &&& forall|i: int|
            0 <= i < self.resource_history@.len() ==> 1 <= (
            #[trigger] self.resource_history@[i]).state_history@.len() <= MAX_STATES
        &&& forall|i: int|
            0 <= i < self.resource_history@.len() ==> #[trigger] states_fingerprinted(
                self.resource_history@[i].state_history@,
            )
        &&& self.recent_drifts@.len() <= MAX_EVENTS
    }

    /// The history of resource `id`, once it has been checked.
    pub closed spec fn history(&self, id: Seq<char>) -> Option<HistoryView> {
        match find_last(self.resource_history@, history_key(), id) {
            Some(h) => Some(h@),
            None => None,
        }
    }

    /// The metrics of application `name`, once it has any.
    pub closed spec fn metrics(&self, name: Seq<char>) -> Option<MetricsView> {
        match find_last(self.application_metrics@, metrics_key(), name) {
            Some(m) => Some(m@),
            None => None,
        }
    }

    /// The application of resource `id`: its mapped one, else `unknown`.
    pub closed spec fn application_for(&self, id: Seq<char>) -> Seq<char> {
        match find_last(self.resource_to_app@, mapping_key(), id) {
            Some(p) => p.1@,
            None => "unknown"@,
        }
    }

    /// The drift events kept, oldest first.
    pub closed spec fn recent(&self) -> Seq<EventView> {
        self.recent_drifts@.map_values(|e: DriftEvent| e@)
    }

    /// The metrics of every application, in the order they were created.
    pub closed spec fn all_metrics(&self) -> Seq<MetricsView> {
        self.application_metrics@.map_values(|m: ApplicationMetrics| m@)
    }

    /// A monitor that has seen nothing yet and maps no resource.
    pub fn new() -> (r: DriftMonitor)
        ensures
            r.wf(),
            forall|id: Seq<char>| #[trigger] r.history(id) is None,
            forall|name: Seq<char>| #[trigger] r.metrics(name) is None,
            forall|id: Seq<char>| #[trigger] r.application_for(id) == "unknown"@,
            r.recent() == Seq::<EventView>::empty(),
    {
        let r = DriftMonitor {
            resource_history: Vec::new(),
            application_metrics: Vec::new(),
            resource_to_app: Vec::new(),
            validator: FastValidator::new(),
            recent_drifts: Vec::new(),
            max_history_events: MAX_EVENTS,
        };
        assert(r.recent() =~= Seq::<EventView>::empty());
        r
    }

    fn application_of(&self, resource_id: &str) -> (r: String)
        requires
            self.wf(),
        ensures
            r@ == self.application_for(resource_id@),
    {
        let mut i: usize = 0;
        while i < self.resource_to_app.len()
            invariant
                self.wf(),
                0 <= i <= self.resource_to_app@.len(),
                forall|j: int| 0 <= j < i ==> (#[trigger] self.resource_to_app@[j]).0@ != resource_id@,
            decreases self.resource_to_app@.len() - i,
        {
            if text_eq(self.resource_to_app[i].0.as_str(), resource_id) {
                proof {
                    lemma_find_at(self.resource_to_app@, mapping_key(), i as int);
                }
                return self.resource_to_app[i].1.clone();
            }
            i = i + 1;
        }
        proof {
            lemma_find_none(self.resource_to_app@, mapping_key(), resource_id@);
            reveal_strlit("unknown");
        }
        String::from_str("unknown")
    }

    fn mapping_index(&self, resource_id: &str) -> (r: Option<usize>)
        ensures
            match r {
                Some(j) => j < self.resource_to_app@.len()
                    && self.resource_to_app@[j as int].0@ == resource_id@,
                None => forall|j: int|
                    0 <= j < self.resource_to_app@.len()
                        ==> (#[trigger] self.resource_to_app@[j]).0@ != resource_id@,
            },
    {
        let mut i: usize = 0;
        while i < self.resource_to_app.len()
            invariant
                0 <= i <= self.resource_to_app@.len(),
                forall|j: int| 0 <= j < i ==> (#[trigger] self.resource_to_app@[j]).0@ != resource_id@,
            decreases self.resource_to_app@.len() - i,
        {
            if text_eq(self.resource_to_app[i].0.as_str(), resource_id) {
                return Some(i);
            }
            i = i + 1;
        }
        None
    }

    fn metrics_index(&self, name: &String) -> (r: Option<usize>)
        requires
            self.wf(),
        ensures
            match r {
                Some(k) => k < self.application_metrics@.len()
                    && self.application_metrics@[k as int].name@ == name@,
                None => self.metrics(name@) is None && forall|j: int|
                    0 <= j < self.application_metrics@.len()
                        ==> (#[trigger] self.application_metrics@[j]).name@ != name@,
            },
    {
        let mut i: usize = 0;
        while i < self.application_metrics.len()
            invariant
                self.wf(),
                0 <= i <= self.application_metrics@.len(),
                forall|j: int| 0 <= j < i ==> (#[trigger] self.application_metrics@[j]).name@ != name@,
            decreases self.application_metrics@.len() - i,
        {
            if self.application_metrics[i].name == *name {
                return Some(i);
            }
            i = i + 1;
        }
        proof {
            lemma_find_none(self.application_metrics@, metrics_key(), name@);
        }
        None
    }

    /// Makes sure application `name` has metrics; creates fresh ones when
    /// it has none. Returns where they stand.
    fn ensure_metrics(&mut self, name: &String) -> (r: usize)
        requires
            old(self).wf(),
        ensures
            final(self).wf(),
            r < final(self).application_metrics@.len(),
            final(self).application_metrics@[r as int].name@ == name@,
            final(self).metrics(name@) == Some(metrics_or_fresh(old(self).metrics(name@), name@)),
            forall|n: Seq<char>| n != name@ ==> #[trigger] final(self).metrics(n) == old(self).metrics(n),
            final(self).resource_history == old(self).resource_history,
            final(self).resource_to_app == old(self).resource_to_app,
            final(self).recent_drifts == old(self).recent_drifts,
    {
        match self.metrics_index(name) {
            Some(k) => {
                proof {
                    lemma_find_at(self.application_metrics@, metrics_key(), k as int);
                }
                k
            },
            None => {
                let fresh = ApplicationMetrics {
                    name: name.clone(),
                    resource_count: 0,
                    issues: SeverityCounts { high: 0, medium: 0, low: 0 },
                    total_drifts: 0,
                    last_drift: None,
                };
                let ghost before = self.application_metrics@;
                self.application_metrics.push(fresh);
                let k = self.application_metrics.len() - 1;
                proof {
                    let after = self.application_metrics@;
                    assert(after =~= before.push(fresh));
                    assert forall|n: Seq<char>| #[trigger] find_last(after, metrics_key(), n) == if n == name@ {
                        Some(fresh)
                    } else {
                        find_last(before, metrics_key(), n)
                    } by {
                        lemma_find_push(before, metrics_key(), fresh, n);
                    }
                    assert(keys_unique(after, metrics_key()));
                }
                k
            },
        }
    }

    /// Maps resource `resource_id` to application `application`, replacing
    /// an earlier mapping, and gives the application metrics when it has
    /// none yet.
    pub fn map_resource_to_app(&mut self, resource_id: &str, application: &str)
        requires
            old(self).wf(),
        ensures
            final(self).wf(),
            forall|x: Seq<char>| #[trigger] final(self).application_for(x) == if x == resource_id@ {
                application@
            } else {
                old(self).application_for(x)
            },
            final(self).metrics(application@) == Some(
                metrics_or_fresh(old(self).metrics(application@), application@),
            ),
            forall|n: Seq<char>| n != application@ ==> #[trigger] final(self).metrics(n) == old(self).metrics(n),
            forall|x: Seq<char>| #[trigger] final(self).history(x) == old(self).history(x),
            final(self).recent() == old(self).recent(),
    {
        let pair = (String::from_str(resource_id), String::from_str(application));
        let ghost before = self.resource_to_app@;
        match self.mapping_index(resource_id) {
            Some(j) => {
                self.resource_to_app.remove(j);
                self.resource_to_app.insert(j, pair);
                proof {
                    assert(self.resource_to_app@ =~= before.update(j as int, pair));
                    assert forall|x: Seq<char>| #[trigger] find_last(self.resource_to_app@, mapping_key(), x) == if x == resource_id@ {
                        Some(pair)
                    } else {
                        find_last(before, mapping_key(), x)
                    } by {
                        lemma_find_update(before, mapping_key(), j as int, pair, x);
                    }
                    lemma_find_update(before, mapping_key(), j as int, pair, resource_id@);
                }
            },
            None => {
                self.resource_to_app.push(pair);
                proof {
                    assert(self.resource_to_app@ =~= before.push(pair));
                    assert forall|x: Seq<char>| #[trigger] find_last(self.resource_to_app@, mapping_key(), x) == if x == resource_id@ {
                        Some(pair)
                    } else {
                        find_last(before, mapping_key(), x)
                    } by {
                        lemma_find_push(before, mapping_key(), pair, x);
                    }
                    assert(keys_unique(self.resource_to_app@, mapping_key()));
                }
            },
        }
        let name = String::from_str(application);
        self.ensure_metrics(&name);
    }

    fn history_index(&self, resource_id: &str) -> (r: Option<usize>)
        ensures
            match r {
                Some(j) => j < self.resource_history@.len()
                    && self.resource_history@[j as int].resource_id@ == resource_id@,
                None => forall|j: int|
                    0 <= j < self.resource_history@.len()
                        ==> (#[trigger] self.resource_history@[j]).resource_id@ != resource_id@,
            },
    {
        let mut i: usize = 0;
        while i < self.resource_history.len()
            invariant
                0 <= i <= self.resource_history@.len(),
                forall|j: int|
                    0 <= j < i ==> (#[trigger] self.resource_history@[j]).resource_id@ != resource_id@,
            decreases self.resource_history@.len() - i,
        {
            if text_eq(self.resource_history[i].resource_id.as_str(), resource_id) {
                return Some(i);
            }
            i = i + 1;
        }
        None
    }

    /// Records a check of resource `resource_id` in its history, creating
    /// the history on its first check. Returns whether it was new, and the
    /// drift event when the check found one.
    fn update_history(
        &mut self,
        resource_id: &str,
        resource_type: &str,
        application: &String,
        config: &JsonValue,
        config_hash: u64,
        current_issues: &Vec<Issue>,
        now: Timestamp,
    ) -> (r: (bool, Option<DriftEvent>))
        requires
            old(self).wf(),
            config_hash == fingerprint(*config),
        ensures
            final(self).wf(),
            r.0 == old(self).history(resource_id@) is None,
            event_view(r.1) == drift_event(
                old(self).history(resource_id@),
                resource_id@,
                resource_type@,
                application@,
                issue_views(current_issues@),
                config_hash,
                now,
            ),
            final(self).history(resource_id@) == Some(
                next_history(
                    old(self).history(resource_id@),
                    resource_id@,
                    resource_type@,
                    application@,
                    issue_views(current_issues@),
                    config_hash,
                    now,
                ),
            ),
            forall|x: Seq<char>| x != resource_id@ ==> #[trigger] final(self).history(x) == old(self).history(x),
            final(self).application_metrics == old(self).application_metrics,
            final(self).resource_to_app == old(self).resource_to_app,
            final(self).recent_drifts == old(self).recent_drifts,
            final(self).validator == old(self).validator,
            final(self).max_history_events == old(self).max_history_events,
    {
        let state = ResourceState { captured_at: now, configuration: config.copy(), config_hash };
        assert(state.config_hash == fingerprint(state.configuration));
        let ghost before = self.resource_history@;
        let ghost found = issue_views(current_issues@);
        match self.history_index(resource_id) {
            Some(j) => {
                proof {
                    lemma_find_at(before, history_key(), j as int);
                }
                let mut h = self.resource_history.remove(j);
                let ghost old_h = h;
                assert(h == before[j as int]);
                assert(1 <= h.state_history@.len() <= MAX_STATES);
                assert(states_fingerprinted(h.state_history@));
                let last = h.state_history.len() - 1;
                let changed = h.state_history[last].config_hash != config_hash;
                assert(h@.states.last() == h.state_history@[last as int]@);
                assert(changed == fingerprint_changed(old_h@, config_hash));
                let mut event: Option<DriftEvent> = None;
                if changed {
                    if h.drift_count < u64::MAX {
                        h.drift_count = h.drift_count + 1;
                    }
                    h.last_modified = now;
                    let new_issues = issue_difference(current_issues, &h.current_issues);
                    let resolved_issues = issue_difference(&h.current_issues, current_issues);
                    if new_issues.len() > 0 || resolved_issues.len() > 0 {
                        event = Some(DriftEvent {
                            detected_at: now,
                            resource_id: String::from_str(resource_id),
                            resource_type: String::from_str(resource_type),
                            application: application.clone(),
                            new_issues,
                            resolved_issues,
                        });
                    }
                }
                h.current_issues = clone_issues(current_issues);
                h.state_history.push(state);
                if h.state_history.len() > MAX_STATES {
                    h.state_history.remove(0);
                }
                proof {
                    let pushed = old_h.state_history@.push(state);
                    assert(h.state_history@ =~= capped(pushed, MAX_STATES as nat));
                    assert(h@.states =~= capped(old_h@.states.push(state@), MAX_STATES as nat));
                    assert(states_fingerprinted(h.state_history@)) by {
                        assert forall|k: int| 0 <= k < h.state_history@.len() implies (#[trigger] h.state_history@[k]).config_hash
                            == fingerprint(h.state_history@[k].configuration) by {
                            if pushed.len() > MAX_STATES {
                                assert(h.state_history@[k] == pushed[k + 1]);
                            } else {
                                assert(h.state_history@[k] == pushed[k]);
                            }
                        }
                    }
                }
                let ghost new_h = h;
                assert(new_h@ == next_history(Some(old_h@), resource_id@, resource_type@, application@, found, config_hash, now));
                self.resource_history.insert(j, h);
                proof {
                    assert(self.resource_history@ =~= before.update(j as int, new_h));
                    assert forall|x: Seq<char>| #[trigger] find_last(self.resource_history@, history_key(), x) == if x == resource_id@ {
                        Some(new_h)
                    } else {
                        find_last(before, history_key(), x)
                    } by {
                        lemma_find_update(before, history_key(), j as int, new_h, x);
                    }
                    lemma_find_update(before, history_key(), j as int, new_h, resource_id@);
                    assert forall|i: int| 0 <= i < self.resource_history@.len() implies 1 <= (
                    #[trigger] self.resource_history@[i]).state_history@.len() <= MAX_STATES && states_fingerprinted(
                        self.resource_history@[i].state_history@) by {
                        if i != j {
                            assert(self.resource_history@[i] == before[i]);
                        }
                    }
                }
                (false, event)
            },
            None => {
                let mut states: Vec<ResourceState> = Vec::new();
                states.push(state);
                let h = ResourceHistory {
                    resource_id: String::from_str(resource_id),
                    resource_type: String::from_str(resource_type),
                    application: application.clone(),
                    first_seen: now,
                    last_modified: now,
                    state_history: states,
                    current_issues: clone_issues(current_issues),
                    drift_count: 0,
                };
                proof {
                    lemma_find_none(before, history_key(), resource_id@);
                    assert(h@.states =~= seq![state@]);
                }
                self.resource_history.push(h);
                proof {
                    assert(self.resource_history@ =~= before.push(h));
                    assert forall|x: Seq<char>| #[trigger] find_last(self.resource_history@, history_key(), x) == if x == resource_id@ {
                        Some(h)
                    } else {
                        find_last(before, history_key(), x)
                    } by {
                        lemma_find_push(before, history_key(), h, x);
                    }
                    assert(keys_unique(self.resource_history@, history_key()));
                    assert forall|i: int| 0 <= i < self.resource_history@.len() implies 1 <= (
                    #[trigger] self.resource_history@[i]).state_history@.len() <= MAX_STATES && states_fingerprinted(
                        self.resource_history@[i].state_history@) by {
                        if i < before.len() {
                            assert(self.resource_history@[i] == before[i]);
                        }
                    }
                }
                (true, None)
            },
        }
    }

    /// Checks resource `resource_id` of type tag `resource_type` at time
    /// `now`: runs the rules for the tag, records the snapshot and issues,
    /// and returns a drift event when the configuration's fingerprint
    /// changed and issues were introduced or resolved.
    pub fn check_resource_at(
        &mut self,
        resource_id: &str,
        resource_type: &str,
        config: &JsonValue,
        now: Timestamp,
    ) -> (r: Option<DriftEvent>)
        requires
            old(self).wf(),
        ensures
            check_step(*old(self), *final(self), resource_id@, resource_type@, *config, now, event_view(r)),
    {
        let ghost start = *self;
        let config_hash = config_fingerprint(config);
        let application = self.application_of(resource_id);
        let current_issues = self.validate_resource(resource_id, resource_type, config);
        let k = self.ensure_metrics(&application);
        let ghost with_metrics = *self;
        proof {
            lemma_find_at(self.application_metrics@, metrics_key(), k as int);
        }
        let (is_new, event) = self.update_history(
            resource_id,
            resource_type,
            &application,
            config,
            config_hash,
            &current_issues,
            now,
        );
        let ghost after_history = *self;
        let counts = severity_counts(&current_issues);
        let ghost metrics_before = self.application_metrics@;
        let mut m = self.application_metrics.remove(k);
        if is_new && m.resource_count < usize::MAX {
            m.resource_count = m.resource_count + 1;
        }
        m.issues = counts;
        if event.is_some() {
            if m.total_drifts < u64::MAX {
                m.total_drifts = m.total_drifts + 1;
            }
            m.last_drift = Some(now);
        }
        let ghost new_m = m;
        self.application_metrics.insert(k, m);
        proof {
            assert(self.application_metrics@ =~= metrics_before.update(k as int, new_m));
            assert forall|n: Seq<char>| #[trigger] find_last(self.application_metrics@, metrics_key(), n) == if n == application@ {
                Some(new_m)
            } else {
                find_last(metrics_before, metrics_key(), n)
            } by {
                lemma_find_update(metrics_before, metrics_key(), k as int, new_m, n);
            }
            lemma_find_update(metrics_before, metrics_key(), k as int, new_m, application@);
        }
        let ghost drifts_before = self.recent_drifts@;
        match &event {
            Some(e) => {
                self.recent_drifts.push(e.clone());
                if self.recent_drifts.len() > MAX_EVENTS {
                    self.recent_drifts.remove(0);
                }
                proof {
                    let pushed = drifts_before.push(self.recent_drifts@.last());
                    assert(self.recent() =~= capped(start.recent().push(e@), MAX_EVENTS as nat)) by {
                        assert(start.recent() == drifts_before.map_values(|d: DriftEvent| d@));
                        let ev = e@;
                        if drifts_before.len() + 1 > MAX_EVENTS {
                            assert forall|i: int| 0 <= i < self.recent().len() implies #[trigger] self.recent()[i]
                                == start.recent().push(ev).drop_first()[i] by {
                                if i + 1 < drifts_before.len() {
                                    assert(self.recent_drifts@[i] == drifts_before[i + 1]);
                                }
                            }
                        } else {
                            assert forall|i: int| 0 <= i < self.recent().len() implies #[trigger] self.recent()[i]
                                == start.recent().push(ev)[i] by {
                                if i < drifts_before.len() {
                                    assert(self.recent_drifts@[i] == drifts_before[i]);
                                }
                            }
                        }
                    }
                }
            },
            None => {},
        }
        proof {
            let id = resource_id@;
            let found = kind_issues(kind_of_tag(resource_type@), id, *config);
            let app = start.application_for(id);
            let previous = start.history(id);
            let ev = drift_event(previous, id, resource_type@, app, found, config_hash, now);
            assert(issue_views(current_issues@) == found);
            assert(application@ == app);
            assert(with_metrics.history(id) == previous);
            assert(event_view(event) == ev);
            assert(self.history(id) == Some(next_history(previous, id, resource_type@, app, found, config_hash, now)));
            assert(self.metrics(app) == Some(
                next_metrics(metrics_or_fresh(start.metrics(app), app), previous is None, ev is Some, found, now),
            ));
            assert(self.recent() == match ev {
                Some(e) => capped(start.recent().push(e), MAX_EVENTS as nat),
                None => start.recent(),
            });
            assert(self.wf());
            assert forall|x: Seq<char>| x != id implies #[trigger] self.history(x) == start.history(x) by {
                assert(after_history.history(x) == with_metrics.history(x));
                assert(self.resource_history == after_history.resource_history);
                assert(with_metrics.history(x) == start.history(x));
            }
            assert forall|n: Seq<char>| n != app implies #[trigger] self.metrics(n) == start.metrics(n) by {
                assert(with_metrics.metrics(n) == start.metrics(n));
            }
            assert forall|x: Seq<char>| #[trigger] self.application_for(x) == start.application_for(x) by {
                assert(self.resource_to_app == start.resource_to_app);
            }
        }
        event
    }

    /// Checks resource `resource_id` of type tag `resource_type` now, by
    /// the system clock; see `check_resource_at`.
    pub fn check_resource(&mut self, resource_id: &str, resource_type: &str, config: &JsonValue) -> (r: Option<DriftEvent>)
        requires
            old(self).wf(),
        ensures
            exists|now: Timestamp|
                #[trigger] check_step(*old(self), *final(self), resource_id@, resource_type@, *config, now, event_view(r)),
    {
        let now = current_time();
        self.check_resource_at(resource_id, resource_type, config, now)
    }

    /// Runs the rules that the exact type tag `resource_type` names on a
    /// resource; an unknown tag gives no issues.
    pub fn validate_resource(&self, resource_id: &str, resource_type: &str, config: &JsonValue) -> (r: Vec<Issue>)
        requires
            self.wf(),
        ensures
            issue_views(r@) == kind_issues(kind_of_tag(resource_type@), resource_id@, *config),
    {
        let kind = kind_from_tag(resource_type);
        self.validator.check_kind(kind, String::from_str(resource_id), config)
    }

    /// The metrics of every application.
    pub fn get_application_metrics(&self) -> (r: Vec<ApplicationMetrics>)
        requires
            self.wf(),
        ensures
            forall|i: int| 0 <= i < r@.len() ==> self.metrics((#[trigger] r@[i])@.name) == Some(r@[i]@),
            forall|name: Seq<char>| #[trigger] self.metrics(name) is Some ==> exists|i: int|
                0 <= i < r@.len() && (#[trigger] r@[i])@.name == name,
            r@.len() == self.all_metrics().len(),
    {
        let mut out: Vec<ApplicationMetrics> = Vec::new();
        let mut i: usize = 0;
        while i < self.application_metrics.len()
            invariant
                self.wf(),
                0 <= i <= self.application_metrics@.len(),
                out@.len() == i,
                forall|j: int| 0 <= j < i ==> (#[trigger] out@[j])@ == self.application_metrics@[j]@,
            decreases self.application_metrics@.len() - i,
        {
            out.push(self.application_metrics[i].clone());
            i = i + 1;
        }
        proof {
            assert forall|j: int| 0 <= j < out@.len() implies self.metrics((#[trigger] out@[j])@.name) == Some(out@[j]@) by {
                lemma_find_at(self.application_metrics@, metrics_key(), j);
            }
            assert forall|name: Seq<char>| #[trigger] self.metrics(name) is Some implies exists|j: int|
                0 <= j < out@.len() && (#[trigger] out@[j])@.name == name by {
                if forall|j: int| 0 <= j < self.application_metrics@.len() ==> (#[trigger] self.application_metrics@[j]).name@ != name {
                    lemma_find_none(self.application_metrics@, metrics_key(), name);
                } else {
                    let j = choose|j: int| 0 <= j < self.application_metrics@.len() && (#[trigger] self.application_metrics@[j]).name@ == name;
                    assert(out@[j]@.name == name);
                }
            }
        }
        out
    }

    /// The metrics of application `application`, if it has any.
    pub fn get_app_metrics(&self, application: &str) -> (r: Option<ApplicationMetrics>)
        requires
            self.wf(),
        ensures
            match r {
                Some(m) => self.metrics(application@) == Some(m@),
                None => self.metrics(application@) is None,
            },
    {
        let name = String::from_str(application);
        match self.metrics_index(&name) {
            Some(k) => {
                proof {
                    lemma_find_at(self.application_metrics@, metrics_key(), k as int);
                }
                Some(self.application_metrics[k].clone())
            },
            None => None,
        }
    }

    /// The drift events kept, oldest first.
    pub fn get_recent_drifts(&self) -> (r: &[DriftEvent])
        ensures
            r@.map_values(|e: DriftEvent| e@) == self.recent(),
    {
        self.recent_drifts.as_slice()
    }

    /// The drift events kept for application `application`, oldest first.
    pub fn get_app_drifts(&self, application: &str) -> (r: Vec<&DriftEvent>)
        ensures
            r@.map_values(|e: &DriftEvent| e@) == events_for(self.recent(), application@),
    {
        let mut out: Vec<&DriftEvent> = Vec::new();
        let ghost all = self.recent();
        let mut i: usize = 0;
        assert(all.subrange(0, 0) =~= Seq::<EventView>::empty());
        assert(out@.map_values(|e: &DriftEvent| e@) =~= Seq::<EventView>::empty());
        while i < self.recent_drifts.len()
            invariant
                0 <= i <= self.recent_drifts@.len(),
                all == self.recent(),
                out@.map_values(|e: &DriftEvent| e@) == events_for(all.subrange(0, i as int), application@),
            decreases self.recent_drifts@.len() - i,
        {
            let ghost before = out@.map_values(|e: &DriftEvent| e@);
            assert(all.subrange(0, i + 1).drop_last() =~= all.subrange(0, i as int));
            assert(all.subrange(0, i + 1).last() == self.recent_drifts@[i as int]@);
            let event = &self.recent_drifts[i];
            if text_eq(event.application.as_str(), application) {
                out.push(event);
                assert(out@.map_values(|e: &DriftEvent| e@) =~= before + seq![event@]);
            } else {
                assert(before =~= before + Seq::<EventView>::empty());
            }
            i = i + 1;
        }
        assert(all.subrange(0, all.len() as int) =~= all);
        out
    }

    /// The history of resource `resource_id`, once it has been checked.
    pub fn get_resource_history(&self, resource_id: &str) -> (r: Option<&ResourceHistory>)
        requires
            self.wf(),
        ensures
            match r {
                Some(h) => self.history(resource_id@) == Some(h@),
                None => self.history(resource_id@) is None,
            },
    {
        match self.history_index(resource_id) {
            Some(j) => {
                proof {
                    lemma_find_at(self.resource_history@, history_key(), j as int);
                }
                Some(&self.resource_history[j])
            },
            None => {
                proof {
                    lemma_find_none(self.resource_history@, history_key(), resource_id@);
                }
                None
            },
        }
    }

    /// A monitor never keeps more than ten snapshots of a resource, nor
    /// fewer than one once it has checked it, nor more than a hundred
    /// drift events.
    pub proof fn law_bounded_buffers(&self, id: Seq<char>)
        requires
            self.wf(),
        ensures
            self.history(id) is Some ==> 1 <= self.history(id)->0.states.len() <= MAX_STATES,
            self.recent().len() <= MAX_EVENTS,
    {
        let found = find_last(self.resource_history@, history_key(), id);
        if found is Some {
            lemma_find_in(self.resource_history@, history_key(), id);
            let j = choose|j: int| 0 <= j < self.resource_history@.len() && self.resource_history@[j] == found->0;
            assert(1 <= self.resource_history@[j].state_history@.len() <= MAX_STATES);
        }
    }
}

} // verus!
