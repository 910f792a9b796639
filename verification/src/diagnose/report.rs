//! The report of a diagnosis: what is printed, and the exit code.
use vstd::prelude::*;
use vstd::string::*;

use crate::diagnose::detect::{all_findings, lemma_latest_time, run_all_detectors};
use crate::diagnose::{
    ago_text, carrier_from, carrier_of, filter_entities_by_selector, filtered_entities,
    finding_views, latest, latest_entry, pair_views, relative_time_at, DiagnoseArgs,
    DiagnoseOutputFormat, FieldSchema, Finding, FindingView, PatternKind, Pick, Severity,
};
use crate::history::format::valid_times;
use crate::journal::{JournalEntry, SerializableState};
use crate::json::{
    json_pretty, list_of, new_dict, new_list, pretty_written, push_json, put_entry, str_json,
    strings_json, Json, JsonView,
};
use crate::query::opt_view;
use crate::styled::{
    no_spans, plain, push_all, push_plain, push_styled, render, rendering, span_views, styled, Span,
    SpanView, Style,
};
use crate::text::{
    cat2, cat3, cat5, cat6, decimal, decimal_text, join, joined, le_text, push_text, text_le, views,
};
use crate::time::{now, Timestamp};

verus! {

/// What is told of an entity without findings.
#[derive(Debug)]
pub struct HealthyInfo {
    pub last_apply_seq: Option<u64>,
    pub last_apply_ago: Option<String>,
    pub carrier_up: Option<bool>,
}

/// What is known of an entity without findings.
pub struct HealthyView {
    pub last_apply_seq: Option<u64>,
    pub last_apply_ago: Option<Seq<char>>,
    pub carrier_up: Option<bool>,
}

impl View for HealthyInfo {
    type V = HealthyView;

    open spec fn view(&self) -> HealthyView {
        HealthyView {
            last_apply_seq: self.last_apply_seq,
            last_apply_ago: opt_view(self.last_apply_ago),
            carrier_up: self.carrier_up,
        }
    }
}

/// The contents of entities with findings: type, name and findings.
pub open spec fn report_views(v: Seq<(String, String, Vec<Finding>)>) -> Seq<
    (Seq<char>, Seq<char>, Seq<FindingView>),
> {
    v.map_values(|t: (String, String, Vec<Finding>)| (t.0@, t.1@, finding_views(t.2@)))
}

/// The contents of entities without findings: type, name and what is told.
pub open spec fn healthy_views(v: Seq<(String, String, HealthyInfo)>) -> Seq<
    (Seq<char>, Seq<char>, HealthyView),
> {
    v.map_values(|t: (String, String, HealthyInfo)| (t.0@, t.1@, t.2@))
}

// ── Names ────────────────────────────────────────────────────────────────────

/// The name of a severity.
pub open spec fn severity_name(s: Severity) -> Seq<char> {
    match s {
        Severity::Critical => "critical"@,
        Severity::Warning => "warning"@,
        Severity::Info => "info"@,
        Severity::Healthy => "healthy"@,
    }
}

/// The name of a pattern.
pub open spec fn pattern_name(p: PatternKind) -> Seq<char> {
    match p {
        PatternKind::ConfigurationDrift => "configuration_drift"@,
        PatternKind::CarrierLoss => "carrier_loss"@,
        PatternKind::DhcpLeaseLost => "dhcp_lease_lost"@,
        PatternKind::RecurringFlaps => "recurring_flaps"@,
        PatternKind::FailedApply => "failed_apply"@,
        PatternKind::PolicyConflict => "policy_conflict"@,
        PatternKind::NoRecentActivity => "no_recent_activity"@,
    }
}

/// A text with spaces for its underscores.
pub open spec fn spaced(s: Seq<char>) -> Seq<char> {
    s.map_values(
        |c: char|
            if c == '_' {
                ' '
            } else {
                c
            },
    )
}

/// The rank of a severity.
pub open spec fn rank(s: Severity) -> int {
    match s {
        Severity::Healthy => 0,
        Severity::Info => 1,
        Severity::Warning => 2,
        Severity::Critical => 3,
    }
}

/// The name of a severity.
pub fn severity_to_str(s: &Severity) -> (r: &'static str)
    ensures
        r@ == severity_name(*s),
{
    match s {
        Severity::Critical => "critical",
        Severity::Warning => "warning",
        Severity::Info => "info",
        Severity::Healthy => "healthy",
    }
}

/// The name of a pattern.
pub fn pattern_to_str(p: &PatternKind) -> (r: &'static str)
    ensures
        r@ == pattern_name(*p),
{
    match p {
        PatternKind::ConfigurationDrift => "configuration_drift",
        PatternKind::CarrierLoss => "carrier_loss",
        PatternKind::DhcpLeaseLost => "dhcp_lease_lost",
        PatternKind::RecurringFlaps => "recurring_flaps",
        PatternKind::FailedApply => "failed_apply",
        PatternKind::PolicyConflict => "policy_conflict",
        PatternKind::NoRecentActivity => "no_recent_activity",
    }
}

/// A text with spaces for its underscores.
fn with_spaces(s: &str) -> (r: String)
    ensures
        r@ == spaced(s@),
{
    let mut out = String::new();
    let n: usize = s.unicode_len();
    let mut i: usize = 0;
    while i < n
        invariant
            i <= n,
            n == s@.len(),
            out@ == spaced(s@).take(i as int),
        decreases n - i,
    {
        proof {
            reveal_strlit(" ");
        }
        if s.get_char(i) == '_' {
            out.append(" ");
        } else {
            out.append(s.substring_char(i, i + 1));
        }
        assert(out@ == spaced(s@).take(i + 1));
        i = i + 1;
    }
    assert(spaced(s@).take(n as int) == spaced(s@));
    out
}

/// The rank of a severity.
fn rank_of(s: Severity) -> (r: u8)
    ensures
        r == rank(s),
{
    match s {
        Severity::Healthy => 0,
        Severity::Info => 1,
        Severity::Warning => 2,
        Severity::Critical => 3,
    }
}

// ── The worst finding ────────────────────────────────────────────────────────

/// The worst one of the first `n` findings; the last one where there are several.
pub open spec fn worst_in(findings: Seq<FindingView>, n: nat) -> Option<FindingView>
    decreases n,
{
    if n == 0 || n > findings.len() {
        None
    } else {
        let before = worst_in(findings, (n - 1) as nat);
        match before {
            Some(w) if rank(w.severity) > rank(findings[n - 1].severity) => before,
            _ => Some(findings[n - 1]),
        }
    }
}

/// The severity of the worst finding.
pub open spec fn worst_severity(findings: Seq<FindingView>) -> Severity {
    match worst_in(findings, findings.len()) {
        Some(w) => w.severity,
        None => Severity::Healthy,
    }
}

/// The exit code of a diagnosis: 2 where a finding is critical, else 1 where one
/// is a warning, else 0.
pub open spec fn exit_code(findings: Seq<FindingView>) -> u8 {
    if exists|i: int|
        0 <= i < findings.len() && (#[trigger] findings[i]).severity == Severity::Critical {
        2
    } else if exists|i: int|
        0 <= i < findings.len() && (#[trigger] findings[i]).severity == Severity::Warning {
        1
    } else {
        0
    }
}

/// The place of the worst finding.
fn worst_index(findings: &Vec<Finding>) -> (r: Option<usize>)
    ensures
        match r {
            Some(i) => i < findings@.len() && worst_in(
                finding_views(findings@),
                findings@.len(),
            ) == Some(findings@[i as int]@),
            None => worst_in(finding_views(findings@), findings@.len()) is None,
        },
        r is None == (findings@.len() == 0),
{
    let ghost model = finding_views(findings@);
    let mut found: Option<usize> = None;
    let n: usize = findings.len();
    let mut i: usize = 0;
    while i < n
        invariant
            i <= n,
            n == findings@.len(),
            model == finding_views(findings@),
            match found {
                Some(k) => k < i && worst_in(model, i as nat) == Some(findings@[k as int]@),
                None => worst_in(model, i as nat) is None,
            },
            found is None == (i == 0),
        decreases n - i,
    {
        match found {
            Some(k) => {
                if rank_of(findings[k].severity) <= rank_of(findings[i].severity) {
                    found = Some(i);
                }
            },
            None => {
                found = Some(i);
            },
        }
        i = i + 1;
    }
    found
}

/// The rank of the worst finding.
fn worst_rank(findings: &Vec<Finding>) -> (r: u8)
    ensures
        r == rank(worst_severity(finding_views(findings@))),
{
    assert(finding_views(findings@).len() == findings@.len());
    match worst_index(findings) {
        Some(i) => rank_of(findings[i].severity),
        None => 0,
    }
}

/// The findings behind a list of references.
pub open spec fn findings_at(v: Seq<&Finding>) -> Seq<FindingView> {
    v.map_values(|f: &Finding| f@)
}

/// The exit code of a diagnosis.
pub fn determine_exit_code(findings: &[&Finding]) -> (r: u8)
    ensures
        r == exit_code(findings_at(findings@)),
{
    let ghost model = findings_at(findings@);
    let n: usize = findings.len();
    let mut warning = false;
    let mut i: usize = 0;
    while i < n
        invariant
            i <= n,
            n == findings@.len(),
            model == findings_at(findings@),
            forall|k: int| 0 <= k < i ==> (#[trigger] model[k]).severity != Severity::Critical,
            warning ==> exists|k: int|
                0 <= k < i && (#[trigger] model[k]).severity == Severity::Warning,
            !warning ==> forall|k: int|
                0 <= k < i ==> (#[trigger] model[k]).severity != Severity::Warning,
        decreases n - i,
    {
        assert(model[i as int] == findings@[i as int]@);
        let severity = findings[i].severity;
        if severity == Severity::Critical {
            return 2;
        }
        if severity == Severity::Warning {
            warning = true;
        }
        i = i + 1;
    }
    if warning {
        1
    } else {
        0
    }
}

/// A diagnosis ends with 2 exactly where its worst finding is critical, with 1
/// exactly where it is a warning, and with 0 otherwise.
pub proof fn exit_code_is_worst(findings: Seq<FindingView>)
    ensures
        exit_code(findings) == 2 <==> worst_severity(findings) == Severity::Critical,
        exit_code(findings) == 1 <==> worst_severity(findings) == Severity::Warning,
{
    lemma_worst_bounds(findings, findings.len());
}

/// No finding is worse than the worst one, which is one of them.
proof fn lemma_worst_bounds(findings: Seq<FindingView>, n: nat)
    requires
        n <= findings.len(),
    ensures
        worst_in(findings, n) is None <==> n == 0,
        worst_in(findings, n) matches Some(w) ==> {
            &&& exists|i: int| 0 <= i < n && #[trigger] findings[i] == w
            &&& forall|i: int|
                0 <= i < n ==> rank((#[trigger] findings[i]).severity) <= rank(w.severity)
        },
    decreases n,
{
    if n > 0 {
        lemma_worst_bounds(findings, (n - 1) as nat);
    }
}

// ── Order ────────────────────────────────────────────────────────────────────

/// Whether one entity is reported before another, or either way: by the worst
/// finding, then by name.
pub open spec fn reported_before(
    a: (Seq<char>, Seq<char>, Seq<FindingView>),
    b: (Seq<char>, Seq<char>, Seq<FindingView>),
) -> bool {
    let worst_a = rank(worst_severity(a.2));
    let worst_b = rank(worst_severity(b.2));
    worst_a > worst_b || (worst_a == worst_b && text_le(a.1, b.1))
}

/// An entity put into a list at `at`, or before it as long as the entity there is
/// to be reported behind it.
pub open spec fn placed_report(
    list: Seq<(Seq<char>, Seq<char>, Seq<FindingView>)>,
    report: (Seq<char>, Seq<char>, Seq<FindingView>),
    at: int,
) -> Seq<(Seq<char>, Seq<char>, Seq<FindingView>)>
    decreases at,
{
    if at <= 0 || reported_before(list[at - 1], report) {
        list.insert(at, report)
    } else {
        placed_report(list, report, at - 1)
    }
}

/// The entities with the worst findings first, those alike by name.
pub open spec fn worst_first(list: Seq<(Seq<char>, Seq<char>, Seq<FindingView>)>) -> Seq<
    (Seq<char>, Seq<char>, Seq<FindingView>),
>
    decreases list.len(),
{
    if list.len() == 0 {
        list
    } else {
        let before = worst_first(list.drop_last());
        placed_report(before, list.last(), before.len() as int)
    }
}

/// Whether entities stand in the order in which they are reported.
pub open spec fn in_report_order(list: Seq<(Seq<char>, Seq<char>, Seq<FindingView>)>) -> bool {
    forall|i: int, j: int|
        0 <= i < j < list.len() ==> reported_before(#[trigger] list[i], #[trigger] list[j])
}

/// Placing an entity keeps the others, and the order.
proof fn lemma_placed_report(
    list: Seq<(Seq<char>, Seq<char>, Seq<FindingView>)>,
    report: (Seq<char>, Seq<char>, Seq<FindingView>),
    at: int,
)
    requires
        0 <= at <= list.len(),
        in_report_order(list),
        forall|k: int| at <= k < list.len() ==> !reported_before(#[trigger] list[k], report),
    ensures
        in_report_order(placed_report(list, report, at)),
        placed_report(list, report, at).to_multiset() == list.to_multiset().insert(report),
        placed_report(list, report, at).len() == list.len() + 1,
    decreases at,
{
    if at <= 0 || reported_before(list[at - 1], report) {
        let after = list.insert(at, report);
        assert forall|i: int, j: int| 0 <= i < j < after.len() implies reported_before(
            #[trigger] after[i],
            #[trigger] after[j],
        ) by {
            if i == at {
                assert(after[j] == list[j - 1]);
                crate::text::lemma_text_le_total(list[j - 1].1, report.1);
            } else if j == at {
                assert(after[i] == list[i]);
                if i < at - 1 {
                    assert(reported_before(list[i], list[at - 1]));
                    if text_le(list[i].1, list[at - 1].1) && text_le(list[at - 1].1, report.1) {
                        crate::text::lemma_text_le_transitive(
                            list[i].1,
                            list[at - 1].1,
                            report.1,
                        );
                    }
                }
            } else {
                let x = if i < at {
                    i
                } else {
                    i - 1
                };
                let y = if j < at {
                    j
                } else {
                    j - 1
                };
                assert(after[i] == list[x]);
                assert(after[j] == list[y]);
            }
        }
        vstd::seq_lib::to_multiset_insert(list, at, report);
    } else {
        lemma_placed_report(list, report, at - 1);
    }
}

/// Entities are reported with the worst findings first, and none is lost.
pub proof fn worst_come_first(list: Seq<(Seq<char>, Seq<char>, Seq<FindingView>)>)
    ensures
        in_report_order(worst_first(list)),
        worst_first(list).to_multiset() == list.to_multiset(),
        worst_first(list).len() == list.len(),
    decreases list.len(),
{
    if list.len() > 0 {
        worst_come_first(list.drop_last());
        let before = worst_first(list.drop_last());
        lemma_placed_report(before, list.last(), before.len() as int);
        assert(list == list.drop_last().push(list.last()));
        vstd::seq_lib::to_multiset_build(list.drop_last(), list.last());
    }
}

/// Puts an entity into its place in a list.
fn place_report(
    list: &mut Vec<(String, String, Vec<Finding>)>,
    report: (String, String, Vec<Finding>),
)
    ensures
        report_views(final(list)@) == placed_report(
            report_views(old(list)@),
            (report.0@, report.1@, finding_views(report.2@)),
            old(list)@.len() as int,
        ),
{
    let ghost before = report_views(list@);
    let ghost model = (report.0@, report.1@, finding_views(report.2@));
    let new_rank: u8 = worst_rank(&report.2);
    let mut at: usize = list.len();
    loop
        invariant_except_break
            placed_report(before, model, before.len() as int) == placed_report(
                before,
                model,
                at as int,
            ),
        invariant
            at <= list@.len(),
            before == report_views(list@),
            model == (report.0@, report.1@, finding_views(report.2@)),
            new_rank == rank(worst_severity(model.2)),
        ensures
            placed_report(before, model, before.len() as int) == before.insert(at as int, model),
        decreases at,
    {
        if at == 0 {
            break ;
        }
        let other = &list[at - 1];
        assert(before[at - 1] == (other.0@, other.1@, finding_views(other.2@)));
        let other_rank: u8 = worst_rank(&other.2);
        if other_rank > new_rank || (other_rank == new_rank && le_text(
            other.1.as_str(),
            report.1.as_str(),
        )) {
            break ;
        }
        at = at - 1;
    }
    list.insert(at, report);
    assert(report_views(list@) == before.insert(at as int, model));
}

/// The entities in the order in which they are reported.
fn sort_reports(list: Vec<(String, String, Vec<Finding>)>) -> (r: Vec<
    (String, String, Vec<Finding>),
>)
    ensures
        report_views(r@) == worst_first(report_views(list@)),
{
    let ghost all = list@;
    let ghost model = report_views(list@);
    let mut out: Vec<(String, String, Vec<Finding>)> = Vec::new();
    assert(report_views(out@) == worst_first(model.take(0)));
    for report in it: list
        invariant
            it.seq() == all,
            model == report_views(all),
            report_views(out@) == worst_first(model.take(it.index())),
    {
        proof {
            let longer = model.take(it.index() + 1);
            assert(longer.drop_last() == model.take(it.index()));
            assert(longer.last() == (report.0@, report.1@, finding_views(report.2@)));
            assert(report_views(out@).len() == out@.len());
        }
        place_report(&mut out, report);
    }
    assert(model.take(model.len() as int) == model);
    out
}

// ── Text ─────────────────────────────────────────────────────────────────────

/// The style of the line on an entity, by its worst finding.
pub open spec fn header_style(s: Severity) -> Style {
    match s {
        Severity::Critical => Style::BoldRed,
        Severity::Warning => Style::BoldYellow,
        Severity::Info => Style::Bold,
        Severity::Healthy => Style::BoldGreen,
    }
}

/// The lines on the first `n` details.
pub open spec fn detail_lines(details: Seq<Seq<char>>, n: nat) -> Seq<SpanView>
    decreases n,
{
    if n == 0 || n > details.len() {
        Seq::empty()
    } else {
        detail_lines(details, (n - 1) as nat).push(plain("  "@ + details[n - 1] + "\n"@))
    }
}

/// The lines on the first `n` suggested actions.
pub open spec fn action_lines(actions: Seq<Seq<char>>, n: nat) -> Seq<SpanView>
    decreases n,
{
    if n == 0 || n > actions.len() {
        Seq::empty()
    } else {
        action_lines(actions, (n - 1) as nat).push(plain("  "@)).push(
            styled(Style::Cyan, "→ "@ + actions[n - 1]),
        ).push(plain("\n"@))
    }
}

/// The lines on the first `n` findings.
pub open spec fn finding_lines(findings: Seq<FindingView>, n: nat) -> Seq<SpanView>
    decreases n,
{
    if n == 0 || n > findings.len() {
        Seq::empty()
    } else {
        let f = findings[n - 1];
        finding_lines(findings, (n - 1) as nat) + detail_lines(f.details, f.details.len())
            + action_lines(f.suggested_actions, f.suggested_actions.len())
    }
}

/// The lines on an entity with findings.
pub open spec fn report_lines(
    report: (Seq<char>, Seq<char>, Seq<FindingView>),
) -> Seq<SpanView> {
    let worst = worst_in(report.2, report.2.len())->0;
    (Seq::empty().push(
        styled(
            header_style(worst.severity),
            report.1 + ": "@ + spaced(pattern_name(worst.pattern)) + " ("@ + severity_name(
                worst.severity,
            ) + ")"@,
        ),
    ).push(plain("\n"@)) + finding_lines(report.2, report.2.len())).push(plain("\n"@))
}

/// The remarks on an entity without findings.
pub open spec fn healthy_parts(info: HealthyView) -> Seq<Seq<char>> {
    let applied = match (info.last_apply_seq, info.last_apply_ago) {
        (Some(seq), Some(ago)) => Seq::empty().push(
            "Last apply: "@ + ago + " (seq "@ + decimal(seq as nat) + ")"@,
        ),
        _ => Seq::empty(),
    };
    let drift = applied.push("no drift"@);
    match info.carrier_up {
        Some(true) => drift.push("carrier up"@),
        Some(false) => drift.push("carrier down"@),
        None => drift,
    }
}

/// The lines on an entity without findings.
pub open spec fn healthy_lines(entity: (Seq<char>, Seq<char>, HealthyView)) -> Seq<SpanView> {
    Seq::empty().push(styled(Style::BoldGreen, entity.1 + ": healthy"@)).push(plain("\n"@)).push(
        plain("  "@ + joined(healthy_parts(entity.2), ", "@) + "\n"@),
    ).push(plain("\n"@))
}

/// The lines on the first `n` entities with findings.
pub open spec fn reports_lines(
    reports: Seq<(Seq<char>, Seq<char>, Seq<FindingView>)>,
    n: nat,
) -> Seq<SpanView>
    decreases n,
{
    if n == 0 || n > reports.len() {
        Seq::empty()
    } else {
        reports_lines(reports, (n - 1) as nat) + report_lines(reports[n - 1])
    }
}

/// The lines on the first `n` entities without findings.
pub open spec fn healthies_lines(
    healthy: Seq<(Seq<char>, Seq<char>, HealthyView)>,
    n: nat,
) -> Seq<SpanView>
    decreases n,
{
    if n == 0 || n > healthy.len() {
        Seq::empty()
    } else {
        healthies_lines(healthy, (n - 1) as nat) + healthy_lines(healthy[n - 1])
    }
}

/// A diagnosis as it is printed: the entities with findings, then those without.
pub open spec fn diagnosis_layout(
    reports: Seq<(Seq<char>, Seq<char>, Seq<FindingView>)>,
    healthy: Seq<(Seq<char>, Seq<char>, HealthyView)>,
) -> Seq<SpanView> {
    reports_lines(reports, reports.len()) + healthies_lines(healthy, healthy.len())
}

/// Whether every entity that is reported has findings.
pub open spec fn all_have_findings(
    reports: Seq<(Seq<char>, Seq<char>, Seq<FindingView>)>,
) -> bool {
    forall|i: int| 0 <= i < reports.len() ==> (#[trigger] reports[i]).2.len() > 0
}

/// The lines on a finding: its details, then its suggested actions.
fn finding_spans(finding: &Finding) -> (r: Vec<Span>)
    ensures
        span_views(r@) == detail_lines(views(finding.details@), finding.details@.len())
            + action_lines(views(finding.suggested_actions@), finding.suggested_actions@.len()),
{
    let mut out = no_spans();
    let details = &finding.details;
    let n: usize = details.len();
    let mut i: usize = 0;
    while i < n
        invariant
            i <= n,
            n == details@.len(),
            span_views(out@) == detail_lines(views(details@), i as nat),
        decreases n - i,
    {
        push_plain(&mut out, cat3("  ", details[i].as_str(), "\n"));
        i = i + 1;
    }
    let mut lines = no_spans();
    let actions = &finding.suggested_actions;
    let m: usize = actions.len();
    let mut k: usize = 0;
    while k < m
        invariant
            k <= m,
            m == actions@.len(),
            span_views(lines@) == action_lines(views(actions@), k as nat),
        decreases m - k,
    {
        push_plain(&mut lines, "  ".to_owned());
        push_styled(&mut lines, Style::Cyan, cat2("→ ", actions[k].as_str()));
        push_plain(&mut lines, "\n".to_owned());
        k = k + 1;
    }
    push_all(&mut out, lines);
    out
}

/// The lines on an entity with findings.
fn report_spans(report: &(String, String, Vec<Finding>)) -> (r: Vec<Span>)
    requires
        report.2@.len() > 0,
    ensures
        span_views(r@) == report_lines((report.0@, report.1@, finding_views(report.2@))),
{
    let mut out = no_spans();
    let findings = &report.2;
    let ghost model = finding_views(findings@);
    assert(model.len() == findings@.len());
    if let Some(w) = worst_index(findings) {
        let worst = &findings[w];
        let label = with_spaces(pattern_to_str(&worst.pattern));
        let style = match worst.severity {
            Severity::Critical => Style::BoldRed,
            Severity::Warning => Style::BoldYellow,
            Severity::Info => Style::Bold,
            Severity::Healthy => Style::BoldGreen,
        };
        push_styled(
            &mut out,
            style,
            cat6(
                report.1.as_str(),
                ": ",
                label.as_str(),
                " (",
                severity_to_str(&worst.severity),
                ")",
            ),
        );
    }
    push_plain(&mut out, "\n".to_owned());
    let mut lines = no_spans();
    let n: usize = findings.len();
    let mut i: usize = 0;
    while i < n
        invariant
            i <= n,
            n == findings@.len(),
            model == finding_views(findings@),
            span_views(lines@) == finding_lines(model, i as nat),
        decreases n - i,
    {
        let ghost before = span_views(lines@);
        let ghost f = model[i as int];
        assert(f == findings@[i as int]@);
        assert(f.details.len() == findings@[i as int].details@.len());
        assert(f.suggested_actions.len() == findings@[i as int].suggested_actions@.len());
        push_all(&mut lines, finding_spans(&findings[i]));
        assert(span_views(lines@) == before + detail_lines(f.details, f.details.len())
            + action_lines(f.suggested_actions, f.suggested_actions.len()));
        i = i + 1;
    }
    push_all(&mut out, lines);
    push_plain(&mut out, "\n".to_owned());
    out
}

/// The remarks on an entity without findings.
fn list_healthy_parts(info: &HealthyInfo) -> (r: Vec<String>)
    ensures
        views(r@) == healthy_parts(info@),
{
    let mut parts: Vec<String> = Vec::new();
    assert(views(parts@) == Seq::<Seq<char>>::empty());
    if let Some(seq) = info.last_apply_seq {
        if let Some(ago) = &info.last_apply_ago {
            let digits = decimal_text(seq);
            push_text(
                &mut parts,
                cat5("Last apply: ", ago.as_str(), " (seq ", digits.as_str(), ")"),
            );
        }
    }
    push_text(&mut parts, "no drift".to_owned());
    match info.carrier_up {
        Some(true) => {
            push_text(&mut parts, "carrier up".to_owned());
        },
        Some(false) => {
            push_text(&mut parts, "carrier down".to_owned());
        },
        None => {},
    }
    parts
}

/// A diagnosis as it is printed.
pub fn diagnosis_spans(
    entity_findings: &[(String, String, Vec<Finding>)],
    healthy_entities: &[(String, String, HealthyInfo)],
) -> (r: Vec<Span>)
    requires
        all_have_findings(report_views(entity_findings@)),
    ensures
        span_views(r@) == diagnosis_layout(
            report_views(entity_findings@),
            healthy_views(healthy_entities@),
        ),
{
    let ghost reports = report_views(entity_findings@);
    let ghost healthy = healthy_views(healthy_entities@);
    let mut out = no_spans();
    let n: usize = entity_findings.len();
    let mut i: usize = 0;
    while i < n
        invariant
            i <= n,
            n == entity_findings@.len(),
            reports == report_views(entity_findings@),
            all_have_findings(reports),
            span_views(out@) == reports_lines(reports, i as nat),
        decreases n - i,
    {
        let report = &entity_findings[i];
        assert(reports[i as int] == (report.0@, report.1@, finding_views(report.2@)));
        assert(finding_views(report.2@).len() == report.2@.len());
        push_all(&mut out, report_spans(report));
        i = i + 1;
    }
    let mut lines = no_spans();
    let m: usize = healthy_entities.len();
    let mut k: usize = 0;
    while k < m
        invariant
            k <= m,
            m == healthy_entities@.len(),
            healthy == healthy_views(healthy_entities@),
            span_views(lines@) == healthies_lines(healthy, k as nat),
        decreases m - k,
    {
        let entity = &healthy_entities[k];
        assert(healthy[k as int] == (entity.0@, entity.1@, entity.2@));
        let mut one = no_spans();
        push_styled(&mut one, Style::BoldGreen, cat2(entity.1.as_str(), ": healthy"));
        push_plain(&mut one, "\n".to_owned());
        let parts = list_healthy_parts(&entity.2);
        let text = join(parts.as_slice(), ", ");
        push_plain(&mut one, cat3("  ", text.as_str(), "\n"));
        push_plain(&mut one, "\n".to_owned());
        push_all(&mut lines, one);
        k = k + 1;
    }
    push_all(&mut out, lines);
    out
}

/// A diagnosis in printed form.
pub fn format_text(
    entity_findings: &[(String, String, Vec<Finding>)],
    healthy_entities: &[(String, String, HealthyInfo)],
) -> (r: String)
    requires
        all_have_findings(report_views(entity_findings@)),
    ensures
        rendering(
            diagnosis_layout(report_views(entity_findings@), healthy_views(healthy_entities@)),
            r@,
        ),
{
    let spans = diagnosis_spans(entity_findings, healthy_entities);
    render(&spans)
}

// ── JSON ─────────────────────────────────────────────────────────────────────

/// Texts as a JSON list.
pub open spec fn texts_json(texts: Seq<Seq<char>>) -> JsonView {
    JsonView::List(texts.map_values(|t: Seq<char>| JsonView::Str(t)))
}

/// Numbers as a JSON list.
pub open spec fn numbers_json(numbers: Seq<u64>) -> JsonView {
    JsonView::List(numbers.map_values(|n: u64| JsonView::PosInt(n)))
}

/// A finding as JSON.
pub open spec fn finding_json(f: FindingView) -> JsonView {
    JsonView::Dict(
        Map::empty().insert("entity"@, JsonView::Str(f.entity_name)).insert(
            "entity_type"@,
            JsonView::Str(f.entity_type),
        ).insert("severity"@, JsonView::Str(severity_name(f.severity))).insert(
            "pattern"@,
            JsonView::Str(pattern_name(f.pattern)),
        ).insert("summary"@, JsonView::Str(f.summary)).insert(
            "details"@,
            texts_json(f.details),
        ).insert("suggested_actions"@, texts_json(f.suggested_actions)).insert(
            "related_entries"@,
            numbers_json(f.related_entries),
        ),
    )
}

/// An entity without findings as JSON. Its carrier is told of only where its last
/// apply is known.
pub open spec fn healthy_json(entity: (Seq<char>, Seq<char>, HealthyView)) -> JsonView {
    let info = entity.2;
    let applied = info.last_apply_seq is Some && info.last_apply_ago is Some;
    let summary = if applied {
        "Last apply: "@ + info.last_apply_ago->0 + " (seq "@ + decimal(
            info.last_apply_seq->0 as nat,
        ) + "), no drift"@
    } else {
        "healthy"@
    };
    let details: Seq<Seq<char>> = match info.carrier_up {
        Some(true) if applied => seq!["carrier up"@],
        Some(false) if applied => seq!["carrier down"@],
        _ => Seq::empty(),
    };
    JsonView::Dict(
        Map::empty().insert("entity"@, JsonView::Str(entity.1)).insert(
            "entity_type"@,
            JsonView::Str(entity.0),
        ).insert("severity"@, JsonView::Str("healthy"@)).insert(
            "pattern"@,
            JsonView::Str("healthy"@),
        ).insert("summary"@, JsonView::Str(summary)).insert("details"@, texts_json(details)).insert(
            "suggested_actions"@,
            texts_json(Seq::empty()),
        ).insert("related_entries"@, numbers_json(Seq::empty())),
    )
}

/// The findings on the first `n` entities, one after another.
pub open spec fn findings_of(
    reports: Seq<(Seq<char>, Seq<char>, Seq<FindingView>)>,
    n: nat,
) -> Seq<FindingView>
    decreases n,
{
    if n == 0 || n > reports.len() {
        Seq::empty()
    } else {
        findings_of(reports, (n - 1) as nat) + reports[n - 1].2
    }
}

/// A diagnosis as JSON: all findings, then the entities without.
pub open spec fn diagnosis_json(
    reports: Seq<(Seq<char>, Seq<char>, Seq<FindingView>)>,
    healthy: Seq<(Seq<char>, Seq<char>, HealthyView)>,
) -> JsonView {
    JsonView::List(
        findings_of(reports, reports.len()).map_values(|f: FindingView| finding_json(f))
            + healthy.map_values(
            |h: (Seq<char>, Seq<char>, HealthyView)| healthy_json(h),
        ),
    )
}

/// Texts as a JSON list.
fn texts_to_json(texts: &Vec<String>) -> (r: Json)
    ensures
        r@ == texts_json(views(texts@)),
        r.wf(),
{
    proof {
        assert(texts@.map_values(|s: String| JsonView::Str(s@)) == views(texts@).map_values(
            |t: Seq<char>| JsonView::Str(t),
        ));
    }
    strings_json(texts)
}

/// Numbers as a JSON list.
fn numbers_to_json(numbers: &Vec<u64>) -> (r: Json)
    ensures
        r@ == numbers_json(numbers@),
        r.wf(),
{
    let mut list = new_list();
    let ghost model = numbers@.map_values(|n: u64| JsonView::PosInt(n));
    let n: usize = numbers.len();
    let mut i: usize = 0;
    assert(list_of(list) == model.take(0));
    while i < n
        invariant
            i <= n,
            n == numbers@.len(),
            model == numbers@.map_values(|n: u64| JsonView::PosInt(n)),
            list_of(list) == model.take(i as int),
            Json::List(list).wf(),
        decreases n - i,
    {
        push_json(&mut list, Json::PosInt(numbers[i]));
        assert(model.take(i + 1) == model.take(i as int).push(model[i as int]));
        i = i + 1;
    }
    assert(model.take(n as int) == model);
    Json::List(list)
}

/// A finding as JSON.
fn finding_to_json(f: &Finding) -> (r: Json)
    ensures
        r@ == finding_json(f@),
        r.wf(),
{
    let mut dict = new_dict();
    put_entry(&mut dict, "entity", str_json(f.entity_name.as_str()));
    put_entry(&mut dict, "entity_type", str_json(f.entity_type.as_str()));
    put_entry(&mut dict, "severity", str_json(severity_to_str(&f.severity)));
    put_entry(&mut dict, "pattern", str_json(pattern_to_str(&f.pattern)));
    put_entry(&mut dict, "summary", str_json(f.summary.as_str()));
    put_entry(&mut dict, "details", texts_to_json(&f.details));
    put_entry(&mut dict, "suggested_actions", texts_to_json(&f.suggested_actions));
    put_entry(&mut dict, "related_entries", numbers_to_json(&f.related_entries));
    Json::Dict(dict)
}

/// An entity without findings as JSON.
fn healthy_to_json(entity: &(String, String, HealthyInfo)) -> (r: Json)
    ensures
        r@ == healthy_json((entity.0@, entity.1@, entity.2@)),
        r.wf(),
{
    let info = &entity.2;
    let mut summary = "healthy".to_owned();
    let mut details: Vec<String> = Vec::new();
    assert(views(details@) == Seq::<Seq<char>>::empty());
    if let Some(seq) = info.last_apply_seq {
        if let Some(ago) = &info.last_apply_ago {
            let digits = decimal_text(seq);
            summary = cat5("Last apply: ", ago.as_str(), " (seq ", digits.as_str(), "), no drift");
            match info.carrier_up {
                Some(true) => {
                    push_text(&mut details, "carrier up".to_owned());
                    assert(views(details@) == seq!["carrier up"@]);
                },
                Some(false) => {
                    push_text(&mut details, "carrier down".to_owned());
                    assert(views(details@) == seq!["carrier down"@]);
                },
                None => {},
            }
        }
    }
    let no_texts: Vec<String> = Vec::new();
    let no_numbers: Vec<u64> = Vec::new();
    assert(views(no_texts@) == Seq::<Seq<char>>::empty());
    assert(no_numbers@ == Seq::<u64>::empty());
    let mut dict = new_dict();
    put_entry(&mut dict, "entity", str_json(entity.1.as_str()));
    put_entry(&mut dict, "entity_type", str_json(entity.0.as_str()));
    put_entry(&mut dict, "severity", str_json("healthy"));
    put_entry(&mut dict, "pattern", str_json("healthy"));
    put_entry(&mut dict, "summary", str_json(summary.as_str()));
    put_entry(&mut dict, "details", texts_to_json(&details));
    put_entry(&mut dict, "suggested_actions", texts_to_json(&no_texts));
    put_entry(&mut dict, "related_entries", numbers_to_json(&no_numbers));
    Json::Dict(dict)
}

/// A diagnosis as JSON.
pub fn diagnosis_to_json(
    entity_findings: &[(String, String, Vec<Finding>)],
    healthy_entities: &[(String, String, HealthyInfo)],
) -> (r: Json)
    ensures
        r@ == diagnosis_json(
            report_views(entity_findings@),
            healthy_views(healthy_entities@),
        ),
        r.wf(),
{
    let ghost reports = report_views(entity_findings@);
    let ghost healthy = healthy_views(healthy_entities@);
    let ghost healthy_model = healthy.map_values(
        |h: (Seq<char>, Seq<char>, HealthyView)| healthy_json(h),
    );
    let mut list = new_list();
    let n: usize = entity_findings.len();
    let mut i: usize = 0;
    assert(list_of(list) == findings_of(reports, 0).map_values(|f: FindingView| finding_json(f)));
    while i < n
        invariant
            i <= n,
            n == entity_findings@.len(),
            reports == report_views(entity_findings@),
            list_of(list) == findings_of(reports, i as nat).map_values(
                |f: FindingView| finding_json(f),
            ),
            Json::List(list).wf(),
        decreases n - i,
    {
        let findings = &entity_findings[i].2;
        let ghost earlier = findings_of(reports, i as nat);
        let ghost these = finding_views(findings@);
        assert(reports[i as int].2 == these);
        assert((earlier + these.take(0)).map_values(|f: FindingView| finding_json(f))
            == earlier.map_values(|f: FindingView| finding_json(f)));
        let m: usize = findings.len();
        let mut k: usize = 0;
        while k < m
            invariant
                k <= m,
                m == findings@.len(),
                these == finding_views(findings@),
                list_of(list) == (earlier + these.take(k as int)).map_values(
                    |f: FindingView| finding_json(f),
                ),
                Json::List(list).wf(),
            decreases m - k,
        {
            push_json(&mut list, finding_to_json(&findings[k]));
            proof {
                assert(these[k as int] == findings@[k as int]@);
                assert((earlier + these.take(k + 1)).map_values(|f: FindingView| finding_json(f))
                    == (earlier + these.take(k as int)).map_values(
                    |f: FindingView| finding_json(f),
                ).push(finding_json(these[k as int])));
            }
            k = k + 1;
        }
        assert(these.take(m as int) == these);
        i = i + 1;
    }
    let ghost head = list_of(list);
    let p: usize = healthy_entities.len();
    let mut j: usize = 0;
    assert(list_of(list) == head + healthy_model.take(0));
    while j < p
        invariant
            j <= p,
            p == healthy_entities@.len(),
            healthy == healthy_views(healthy_entities@),
            healthy_model == healthy.map_values(
                |h: (Seq<char>, Seq<char>, HealthyView)| healthy_json(h),
            ),
            list_of(list) == head + healthy_model.take(j as int),
            Json::List(list).wf(),
        decreases p - j,
    {
        push_json(&mut list, healthy_to_json(&healthy_entities[j]));
        proof {
            let entity = healthy_entities@[j as int];
            assert(healthy[j as int] == (entity.0@, entity.1@, entity.2@));
            assert(healthy_model.take(j + 1) == healthy_model.take(j as int).push(
                healthy_model[j as int],
            ));
        }
        j = j + 1;
    }
    assert(healthy_model.take(p as int) == healthy_model);
    Json::List(list)
}

/// A diagnosis as JSON text.
pub fn format_json(
    entity_findings: &[(String, String, Vec<Finding>)],
    healthy_entities: &[(String, String, HealthyInfo)],
) -> (r: String)
    ensures
        r@ == pretty_written(
            diagnosis_json(report_views(entity_findings@), healthy_views(healthy_entities@)),
        ),
{
    let json = diagnosis_to_json(entity_findings, healthy_entities);
    json_pretty(&json)
}

// ── Analysis ─────────────────────────────────────────────────────────────────

/// What a diagnosis looks at: the entries within its time, the current state, the
/// managed entities, and the last entry that was applied.
#[derive(Debug)]
pub struct CollectedData {
    pub entries: Vec<JournalEntry>,
    pub current_state: Vec<SerializableState>,
    pub managed_entities: Vec<(String, String)>,
    pub last_applied_entry: Option<JournalEntry>,
}

/// What a diagnosis prints, and its exit code.
#[derive(Debug)]
pub struct Analysis {
    pub output: String,
    pub code: u8,
}

/// A reference to an optional entry.
pub open spec fn entry_ref(entry: &Option<JournalEntry>) -> Option<&JournalEntry> {
    match entry {
        Some(e) => Some(e),
        None => None,
    }
}

/// The findings on an entity.
pub open spec fn findings_on(
    entity: (Seq<char>, Seq<char>),
    data: CollectedData,
    schema: FieldSchema,
    at: Timestamp,
) -> Seq<FindingView> {
    all_findings(
        data.entries@,
        data.current_state@,
        entity.0,
        entity.1,
        entry_ref(&data.last_applied_entry),
        schema,
        at,
    )
}

/// What is told of an entity without findings: its last apply, and its carrier.
pub open spec fn health_of(
    entity: (Seq<char>, Seq<char>),
    data: CollectedData,
    at: Timestamp,
) -> HealthyView {
    let applied = latest(data.entries@, Pick::AppliedState, entity.0, entity.1);
    HealthyView {
        last_apply_seq: match applied {
            Some(e) => Some(e.seq),
            None => None,
        },
        last_apply_ago: match applied {
            Some(e) => Some(ago_text(e.timestamp, at)),
            None => None,
        },
        carrier_up: carrier_of(data.current_state@, entity.0, entity.1),
    }
}

/// Those of the first `n` entities that have findings.
pub open spec fn reports_on(
    entities: Seq<(Seq<char>, Seq<char>)>,
    data: CollectedData,
    schema: FieldSchema,
    at: Timestamp,
    n: nat,
) -> Seq<(Seq<char>, Seq<char>, Seq<FindingView>)>
    decreases n,
{
    if n == 0 || n > entities.len() {
        Seq::empty()
    } else {
        let before = reports_on(entities, data, schema, at, (n - 1) as nat);
        let findings = findings_on(entities[n - 1], data, schema, at);
        if findings.len() == 0 {
            before
        } else {
            before.push((entities[n - 1].0, entities[n - 1].1, findings))
        }
    }
}

/// Those of the first `n` entities that have no findings.
pub open spec fn healthy_on(
    entities: Seq<(Seq<char>, Seq<char>)>,
    data: CollectedData,
    schema: FieldSchema,
    at: Timestamp,
    n: nat,
) -> Seq<(Seq<char>, Seq<char>, HealthyView)>
    decreases n,
{
    if n == 0 || n > entities.len() {
        Seq::empty()
    } else {
        let before = healthy_on(entities, data, schema, at, (n - 1) as nat);
        if findings_on(entities[n - 1], data, schema, at).len() == 0 {
            before.push(
                (entities[n - 1].0, entities[n - 1].1, health_of(entities[n - 1], data, at)),
            )
        } else {
            before
        }
    }
}

/// The entities that a diagnosis looks at.
pub open spec fn entities_of(data: CollectedData, args: DiagnoseArgs) -> Seq<
    (Seq<char>, Seq<char>),
> {
    filtered_entities(pair_views(data.managed_entities@), args.selector@)
}

/// What is said where there is nothing to look at.
pub open spec fn nothing_to_diagnose(data: CollectedData, args: DiagnoseArgs) -> Option<
    Seq<char>,
> {
    if data.entries@.len() == 0 && data.managed_entities@.len() == 0 {
        Some("No journal entries found. Run `netfyr apply` first.\n"@)
    } else if entities_of(data, args).len() > 0 {
        None
    } else if args.selector@.len() == 0 {
        Some("No managed entities found.\n"@)
    } else {
        Some("No managed entities found matching selector.\n"@)
    }
}

/// The entities with findings, in the order in which they are reported.
pub open spec fn reports_by_rank(
    data: CollectedData,
    args: DiagnoseArgs,
    schema: FieldSchema,
    at: Timestamp,
) -> Seq<(Seq<char>, Seq<char>, Seq<FindingView>)> {
    let entities = entities_of(data, args);
    worst_first(reports_on(entities, data, schema, at, entities.len()))
}

/// The entities without findings.
pub open spec fn healthy_entities(
    data: CollectedData,
    args: DiagnoseArgs,
    schema: FieldSchema,
    at: Timestamp,
) -> Seq<(Seq<char>, Seq<char>, HealthyView)> {
    let entities = entities_of(data, args);
    healthy_on(entities, data, schema, at, entities.len())
}

/// Whether an analysis prints what a diagnosis tells, with its exit code.
pub open spec fn analyses(
    r: Analysis,
    data: CollectedData,
    args: DiagnoseArgs,
    schema: FieldSchema,
    at: Timestamp,
) -> bool {
    let reports = reports_by_rank(data, args, schema, at);
    let healthy = healthy_entities(data, args, schema, at);
    match nothing_to_diagnose(data, args) {
        Some(message) => r.output@ == message && r.code == 0,
        None => {
            &&& r.code == exit_code(findings_of(reports, reports.len()))
            &&& match args.output {
                DiagnoseOutputFormat::Text => rendering(
                    diagnosis_layout(reports, healthy),
                    r.output@,
                ),
                DiagnoseOutputFormat::Json => r.output@ == pretty_written(
                    diagnosis_json(reports, healthy),
                ) + "\n"@,
            }
        },
    }
}

/// What is told of an entity without findings.
fn health(entity_type: &str, entity_name: &str, data: &CollectedData, at: Timestamp) -> (r:
    HealthyInfo)
    requires
        at.wf(),
        valid_times(data.entries@),
    ensures
        r@ == health_of((entity_type@, entity_name@), *data, at),
{
    let carrier_up = carrier_from(data.current_state.as_slice(), entity_type, entity_name);
    match latest_entry(data.entries.as_slice(), Pick::AppliedState, entity_type, entity_name) {
        Some(e) => {
            proof {
                lemma_latest_time(
                    data.entries@,
                    Pick::AppliedState,
                    entity_type@,
                    entity_name@,
                    data.entries@.len(),
                );
            }
            HealthyInfo {
                last_apply_seq: Some(e.seq),
                last_apply_ago: Some(relative_time_at(e.timestamp, at)),
                carrier_up,
            }
        },
        None => HealthyInfo { last_apply_seq: None, last_apply_ago: None, carrier_up },
    }
}

/// Every entity that is reported has findings, also in their order.
proof fn lemma_reports_have_findings(
    entities: Seq<(Seq<char>, Seq<char>)>,
    data: CollectedData,
    schema: FieldSchema,
    at: Timestamp,
    n: nat,
)
    requires
        n <= entities.len(),
    ensures
        all_have_findings(reports_on(entities, data, schema, at, n)),
        all_have_findings(worst_first(reports_on(entities, data, schema, at, n))),
    decreases n,
{
    if n > 0 {
        lemma_reports_have_findings(entities, data, schema, at, (n - 1) as nat);
    }
    let list = reports_on(entities, data, schema, at, n);
    let sorted = worst_first(list);
    worst_come_first(list);
    assert forall|i: int| 0 <= i < sorted.len() implies (#[trigger] sorted[i]).2.len() > 0 by {
        vstd::seq_lib::to_multiset_contains(sorted, sorted[i]);
        vstd::seq_lib::to_multiset_contains(list, sorted[i]);
        assert(list.contains(sorted[i]));
    }
}

/// The exit code of the findings on all entities.
fn code_of(reports: &Vec<(String, String, Vec<Finding>)>) -> (r: u8)
    ensures
        r == exit_code(findings_of(report_views(reports@), reports@.len())),
{
    let ghost model = report_views(reports@);
    let mut all: Vec<&Finding> = Vec::new();
    let n: usize = reports.len();
    let mut i: usize = 0;
    assert(findings_at(all@) == Seq::<FindingView>::empty());
    while i < n
        invariant
            i <= n,
            n == reports@.len(),
            model == report_views(reports@),
            findings_at(all@) == findings_of(model, i as nat),
        decreases n - i,
    {
        let findings = &reports[i].2;
        let ghost earlier = findings_at(all@);
        let ghost these = finding_views(findings@);
        assert(model[i as int].2 == these);
        let m: usize = findings.len();
        let mut k: usize = 0;
        assert(findings_at(all@) == earlier + these.take(0));
        while k < m
            invariant
                k <= m,
                m == findings@.len(),
                these == finding_views(findings@),
                findings_at(all@) == earlier + these.take(k as int),
            decreases m - k,
        {
            let ghost before = all@;
            all.push(&findings[k]);
            proof {
                assert(findings_at(all@) == findings_at(before).push(these[k as int]));
                assert(these.take(k + 1) == these.take(k as int).push(these[k as int]));
            }
            k = k + 1;
        }
        assert(these.take(m as int) == these);
        i = i + 1;
    }
    determine_exit_code(all.as_slice())
}

/// Diagnoses the entities that are asked for, as seen at a given time.
pub fn run_analysis_at(
    data: &CollectedData,
    args: &DiagnoseArgs,
    schema: &FieldSchema,
    at: Timestamp,
) -> (r: Analysis)
    requires
        at.wf(),
        valid_times(data.entries@),
    ensures
        analyses(r, *data, *args, *schema, at),
{
    if data.entries.len() == 0 && data.managed_entities.len() == 0 {
        return Analysis {
            output: "No journal entries found. Run `netfyr apply` first.\n".to_owned(),
            code: 0,
        };
    }
    let entities = filter_entities_by_selector(
        data.managed_entities.as_slice(),
        args.selector.as_slice(),
    );
    let ghost model = pair_views(entities@);
    let n: usize = entities.len();
    assert(model.len() == n);
    if n == 0 {
        if args.selector.len() == 0 {
            return Analysis { output: "No managed entities found.\n".to_owned(), code: 0 };
        }
        return Analysis {
            output: "No managed entities found matching selector.\n".to_owned(),
            code: 0,
        };
    }
    let last_applied = data.last_applied_entry.as_ref();
    let mut reports: Vec<(String, String, Vec<Finding>)> = Vec::new();
    let mut healthy: Vec<(String, String, HealthyInfo)> = Vec::new();
    let mut i: usize = 0;
    assert(report_views(reports@) == reports_on(model, *data, *schema, at, 0));
    assert(healthy_views(healthy@) == healthy_on(model, *data, *schema, at, 0));
    while i < n
        invariant
            i <= n,
            n == entities@.len(),
            at.wf(),
            valid_times(data.entries@),
            model == pair_views(entities@),
            last_applied == entry_ref(&data.last_applied_entry),
            report_views(reports@) == reports_on(model, *data, *schema, at, i as nat),
            healthy_views(healthy@) == healthy_on(model, *data, *schema, at, i as nat),
        decreases n - i,
    {
        let entity = &entities[i];
        assert(model[i as int] == (entity.0@, entity.1@));
        let findings = run_all_detectors(
            data.entries.as_slice(),
            data.current_state.as_slice(),
            entity.0.as_str(),
            entity.1.as_str(),
            last_applied,
            schema,
            at,
        );
        assert(finding_views(findings@).len() == findings@.len());
        if findings.len() == 0 {
            let ghost before = healthy@;
            let info = health(entity.0.as_str(), entity.1.as_str(), data, at);
            healthy.push((entity.0.clone(), entity.1.clone(), info));
            assert(healthy_views(healthy@) == healthy_views(before).push(
                (entity.0@, entity.1@, info@),
            ));
        } else {
            let ghost before = reports@;
            let ghost these = finding_views(findings@);
            reports.push((entity.0.clone(), entity.1.clone(), findings));
            assert(report_views(reports@) == report_views(before).push(
                (entity.0@, entity.1@, these),
            ));
        }
        i = i + 1;
    }
    let sorted = sort_reports(reports);
    proof {
        lemma_reports_have_findings(model, *data, *schema, at, model.len());
        assert(report_views(sorted@).len() == sorted@.len());
    }
    let code: u8 = code_of(&sorted);
    let output = match args.output {
        DiagnoseOutputFormat::Text => format_text(sorted.as_slice(), healthy.as_slice()),
        DiagnoseOutputFormat::Json => {
            let json = format_json(sorted.as_slice(), healthy.as_slice());
            cat2(json.as_str(), "\n")
        },
    };
    Analysis { output, code }
}

/// Diagnoses the entities that are asked for, by the clock.
pub fn run_analysis(data: &CollectedData, args: &DiagnoseArgs, schema: &FieldSchema) -> (r:
    Analysis)
    requires
        valid_times(data.entries@),
    ensures
        exists|at: Timestamp| at.wf() && #[trigger] analyses(r, *data, *args, *schema, at),
{
    let at = now();
    run_analysis_at(data, args, schema, at)
}

/// Every entity that is looked at is told of once: with its findings, or as one
/// without any.
pub proof fn each_entity_is_told_of(
    entities: Seq<(Seq<char>, Seq<char>)>,
    data: CollectedData,
    schema: FieldSchema,
    at: Timestamp,
    n: nat,
)
    requires
        n <= entities.len(),
    ensures
        reports_on(entities, data, schema, at, n).len() + healthy_on(
            entities,
            data,
            schema,
            at,
            n,
        ).len() == n,
        all_have_findings(reports_on(entities, data, schema, at, n)),
    decreases n,
{
    if n > 0 {
        each_entity_is_told_of(entities, data, schema, at, (n - 1) as nat);
    }
}

/// The lines on some details and others behind them are those on the first,
/// then those on the others.
pub proof fn details_of_parts(
    a: Seq<Seq<char>>,
    b: Seq<Seq<char>>,
)
    ensures
        detail_lines(a + b, (a + b).len()) == detail_lines(a, a.len()) + detail_lines(b, b.len()),
{
    lemma_details_of_parts(a, b, b.len());
}

/// The first elements give the same whatever stands behind them.
proof fn lemma_details_of_parts_start(
    a: Seq<Seq<char>>,
    b: Seq<Seq<char>>,
    n: nat,
)
    requires
        n <= a.len(),
    ensures
        detail_lines(a + b, n) == detail_lines(a, n),
    decreases n,
{
    if n > 0 {
        lemma_details_of_parts_start(a, b, (n - 1) as nat);
        assert((a + b)[n - 1] == a[n - 1]);
    }
}

/// The first `m` elements of the second part follow all of the first part.
proof fn lemma_details_of_parts(
    a: Seq<Seq<char>>,
    b: Seq<Seq<char>>,
    m: nat,
)
    requires
        m <= b.len(),
    ensures
        detail_lines(a + b, a.len() + m) == detail_lines(a, a.len()) + detail_lines(b, m),
    decreases m,
{
    if m == 0 {
        lemma_details_of_parts_start(a, b, a.len());
    } else {
        lemma_details_of_parts(a, b, (m - 1) as nat);
        assert((a + b)[a.len() + m - 1] == b[m - 1]);
    }
}

/// The lines on some actions and others behind them are those on the first,
/// then those on the others.
pub proof fn actions_of_parts(
    a: Seq<Seq<char>>,
    b: Seq<Seq<char>>,
)
    ensures
        action_lines(a + b, (a + b).len()) == action_lines(a, a.len()) + action_lines(b, b.len()),
{
    lemma_actions_of_parts(a, b, b.len());
}

/// The first elements give the same whatever stands behind them.
proof fn lemma_actions_of_parts_start(
    a: Seq<Seq<char>>,
    b: Seq<Seq<char>>,
    n: nat,
)
    requires
        n <= a.len(),
    ensures
        action_lines(a + b, n) == action_lines(a, n),
    decreases n,
{
    if n > 0 {
        lemma_actions_of_parts_start(a, b, (n - 1) as nat);
        assert((a + b)[n - 1] == a[n - 1]);
    }
}

/// The first `m` elements of the second part follow all of the first part.
proof fn lemma_actions_of_parts(
    a: Seq<Seq<char>>,
    b: Seq<Seq<char>>,
    m: nat,
)
    requires
        m <= b.len(),
    ensures
        action_lines(a + b, a.len() + m) == action_lines(a, a.len()) + action_lines(b, m),
    decreases m,
{
    if m == 0 {
        lemma_actions_of_parts_start(a, b, a.len());
    } else {
        lemma_actions_of_parts(a, b, (m - 1) as nat);
        assert((a + b)[a.len() + m - 1] == b[m - 1]);
    }
}

/// The lines on some findings and others behind them are those on the first,
/// then those on the others: no finding is left out for where it stands.
pub proof fn findings_of_parts(
    a: Seq<FindingView>,
    b: Seq<FindingView>,
)
    ensures
        finding_lines(a + b, (a + b).len()) == finding_lines(a, a.len()) + finding_lines(b, b.len()),
{
    lemma_findings_of_parts(a, b, b.len());
}

/// The first elements give the same whatever stands behind them.
proof fn lemma_findings_of_parts_start(
    a: Seq<FindingView>,
    b: Seq<FindingView>,
    n: nat,
)
    requires
        n <= a.len(),
    ensures
        finding_lines(a + b, n) == finding_lines(a, n),
    decreases n,
{
    if n > 0 {
        lemma_findings_of_parts_start(a, b, (n - 1) as nat);
        assert((a + b)[n - 1] == a[n - 1]);
    }
}

/// The first `m` elements of the second part follow all of the first part.
proof fn lemma_findings_of_parts(
    a: Seq<FindingView>,
    b: Seq<FindingView>,
    m: nat,
)
    requires
        m <= b.len(),
    ensures
        finding_lines(a + b, a.len() + m) == finding_lines(a, a.len()) + finding_lines(b, m),
    decreases m,
{
    if m == 0 {
        lemma_findings_of_parts_start(a, b, a.len());
    } else {
        lemma_findings_of_parts(a, b, (m - 1) as nat);
        assert((a + b)[a.len() + m - 1] == b[m - 1]);
    }
}

/// The lines on some entities with findings and others behind them are those
/// on the first, then those on the others.
pub proof fn reports_of_parts(
    a: Seq<(Seq<char>, Seq<char>, Seq<FindingView>)>,
    b: Seq<(Seq<char>, Seq<char>, Seq<FindingView>)>,
)
    ensures
        reports_lines(a + b, (a + b).len()) == reports_lines(a, a.len()) + reports_lines(b, b.len()),
{
    lemma_reports_of_parts(a, b, b.len());
}

/// The first elements give the same whatever stands behind them.
proof fn lemma_reports_of_parts_start(
    a: Seq<(Seq<char>, Seq<char>, Seq<FindingView>)>,
    b: Seq<(Seq<char>, Seq<char>, Seq<FindingView>)>,
    n: nat,
)
    requires
        n <= a.len(),
    ensures
        reports_lines(a + b, n) == reports_lines(a, n),
    decreases n,
{
    if n > 0 {
        lemma_reports_of_parts_start(a, b, (n - 1) as nat);
        assert((a + b)[n - 1] == a[n - 1]);
    }
}

/// The first `m` elements of the second part follow all of the first part.
proof fn lemma_reports_of_parts(
    a: Seq<(Seq<char>, Seq<char>, Seq<FindingView>)>,
    b: Seq<(Seq<char>, Seq<char>, Seq<FindingView>)>,
    m: nat,
)
    requires
        m <= b.len(),
    ensures
        reports_lines(a + b, a.len() + m) == reports_lines(a, a.len()) + reports_lines(b, m),
    decreases m,
{
    if m == 0 {
        lemma_reports_of_parts_start(a, b, a.len());
    } else {
        lemma_reports_of_parts(a, b, (m - 1) as nat);
        assert((a + b)[a.len() + m - 1] == b[m - 1]);
    }
}

/// The lines on some entities without findings and others behind them are
/// those on the first, then those on the others.
pub proof fn healthy_of_parts(
    a: Seq<(Seq<char>, Seq<char>, HealthyView)>,
    b: Seq<(Seq<char>, Seq<char>, HealthyView)>,
)
    ensures
        healthies_lines(a + b, (a + b).len()) == healthies_lines(a, a.len()) + healthies_lines(b, b.len()),
{
    lemma_healthy_of_parts(a, b, b.len());
}

/// The first elements give the same whatever stands behind them.
proof fn lemma_healthy_of_parts_start(
    a: Seq<(Seq<char>, Seq<char>, HealthyView)>,
    b: Seq<(Seq<char>, Seq<char>, HealthyView)>,
    n: nat,
)
    requires
        n <= a.len(),
    ensures
        healthies_lines(a + b, n) == healthies_lines(a, n),
    decreases n,
{
    if n > 0 {
        lemma_healthy_of_parts_start(a, b, (n - 1) as nat);
        assert((a + b)[n - 1] == a[n - 1]);
    }
}

/// The first `m` elements of the second part follow all of the first part.
proof fn lemma_healthy_of_parts(
    a: Seq<(Seq<char>, Seq<char>, HealthyView)>,
    b: Seq<(Seq<char>, Seq<char>, HealthyView)>,
    m: nat,
)
    requires
        m <= b.len(),
    ensures
        healthies_lines(a + b, a.len() + m) == healthies_lines(a, a.len()) + healthies_lines(b, m),
    decreases m,
{
    if m == 0 {
        lemma_healthy_of_parts_start(a, b, a.len());
    } else {
        lemma_healthy_of_parts(a, b, (m - 1) as nat);
        assert((a + b)[a.len() + m - 1] == b[m - 1]);
    }
}

/// The findings of some entities and others behind them are those of the
/// first, then those of the others.
pub proof fn all_findings_of_parts(
    a: Seq<(Seq<char>, Seq<char>, Seq<FindingView>)>,
    b: Seq<(Seq<char>, Seq<char>, Seq<FindingView>)>,
)
    ensures
        findings_of(a + b, (a + b).len()) == findings_of(a, a.len()) + findings_of(b, b.len()),
{
    lemma_all_findings_of_parts(a, b, b.len());
}

/// The first elements give the same whatever stands behind them.
proof fn lemma_all_findings_of_parts_start(
    a: Seq<(Seq<char>, Seq<char>, Seq<FindingView>)>,
    b: Seq<(Seq<char>, Seq<char>, Seq<FindingView>)>,
    n: nat,
)
    requires
        n <= a.len(),
    ensures
        findings_of(a + b, n) == findings_of(a, n),
    decreases n,
{
    if n > 0 {
        lemma_all_findings_of_parts_start(a, b, (n - 1) as nat);
        assert((a + b)[n - 1] == a[n - 1]);
    }
}

/// The first `m` elements of the second part follow all of the first part.
proof fn lemma_all_findings_of_parts(
    a: Seq<(Seq<char>, Seq<char>, Seq<FindingView>)>,
    b: Seq<(Seq<char>, Seq<char>, Seq<FindingView>)>,
    m: nat,
)
    requires
        m <= b.len(),
    ensures
        findings_of(a + b, a.len() + m) == findings_of(a, a.len()) + findings_of(b, m),
    decreases m,
{
    if m == 0 {
        lemma_all_findings_of_parts_start(a, b, a.len());
    } else {
        lemma_all_findings_of_parts(a, b, (m - 1) as nat);
        assert((a + b)[a.len() + m - 1] == b[m - 1]);
    }
}

/// The entities with findings among some and others behind them are those
/// among the first, then those among the others.
pub proof fn diagnosed_of_parts(
    a: Seq<(Seq<char>, Seq<char>)>,
    b: Seq<(Seq<char>, Seq<char>)>,
    data: CollectedData,
    schema: FieldSchema,
    at: Timestamp,
)
    ensures
        reports_on(a + b, data, schema, at, (a + b).len()) == reports_on(a, data, schema, at, a.len()) + reports_on(b, data, schema, at, b.len()),
{
    lemma_diagnosed_of_parts(a, b, data, schema, at, b.len());
}

/// The first elements give the same whatever stands behind them.
proof fn lemma_diagnosed_of_parts_start(
    a: Seq<(Seq<char>, Seq<char>)>,
    b: Seq<(Seq<char>, Seq<char>)>,
    data: CollectedData,
    schema: FieldSchema,
    at: Timestamp,
    n: nat,
)
    requires
        n <= a.len(),
    ensures
        reports_on(a + b, data, schema, at, n) == reports_on(a, data, schema, at, n),
    decreases n,
{
    if n > 0 {
        lemma_diagnosed_of_parts_start(a, b, data, schema, at, (n - 1) as nat);
        assert((a + b)[n - 1] == a[n - 1]);
    }
}

/// The first `m` elements of the second part follow all of the first part.
proof fn lemma_diagnosed_of_parts(
    a: Seq<(Seq<char>, Seq<char>)>,
    b: Seq<(Seq<char>, Seq<char>)>,
    data: CollectedData,
    schema: FieldSchema,
    at: Timestamp,
    m: nat,
)
    requires
        m <= b.len(),
    ensures
        reports_on(a + b, data, schema, at, a.len() + m) == reports_on(a, data, schema, at, a.len()) + reports_on(b, data, schema, at, m),
    decreases m,
{
    if m == 0 {
        lemma_diagnosed_of_parts_start(a, b, data, schema, at, a.len());
    } else {
        lemma_diagnosed_of_parts(a, b, data, schema, at, (m - 1) as nat);
        assert((a + b)[a.len() + m - 1] == b[m - 1]);
    }
}

/// The entities without findings among some and others behind them are those
/// among the first, then those among the others.
pub proof fn undiagnosed_of_parts(
    a: Seq<(Seq<char>, Seq<char>)>,
    b: Seq<(Seq<char>, Seq<char>)>,
    data: CollectedData,
    schema: FieldSchema,
    at: Timestamp,
)
    ensures
        healthy_on(a + b, data, schema, at, (a + b).len()) == healthy_on(a, data, schema, at, a.len()) + healthy_on(b, data, schema, at, b.len()),
{
    lemma_undiagnosed_of_parts(a, b, data, schema, at, b.len());
}

/// The first elements give the same whatever stands behind them.
proof fn lemma_undiagnosed_of_parts_start(
    a: Seq<(Seq<char>, Seq<char>)>,
    b: Seq<(Seq<char>, Seq<char>)>,
    data: CollectedData,
    schema: FieldSchema,
    at: Timestamp,
    n: nat,
)
    requires
        n <= a.len(),
    ensures
        healthy_on(a + b, data, schema, at, n) == healthy_on(a, data, schema, at, n),
    decreases n,
{
    if n > 0 {
        lemma_undiagnosed_of_parts_start(a, b, data, schema, at, (n - 1) as nat);
        assert((a + b)[n - 1] == a[n - 1]);
    }
}

/// The first `m` elements of the second part follow all of the first part.
proof fn lemma_undiagnosed_of_parts(
    a: Seq<(Seq<char>, Seq<char>)>,
    b: Seq<(Seq<char>, Seq<char>)>,
    data: CollectedData,
    schema: FieldSchema,
    at: Timestamp,
    m: nat,
)
    requires
        m <= b.len(),
    ensures
        healthy_on(a + b, data, schema, at, a.len() + m) == healthy_on(a, data, schema, at, a.len()) + healthy_on(b, data, schema, at, m),
    decreases m,
{
    if m == 0 {
        lemma_undiagnosed_of_parts_start(a, b, data, schema, at, a.len());
    } else {
        lemma_undiagnosed_of_parts(a, b, data, schema, at, (m - 1) as nat);
        assert((a + b)[a.len() + m - 1] == b[m - 1]);
    }
}

/// One finding is told with all its details and all its actions, each on a line.
pub proof fn finding_of_one(f: FindingView, text: Seq<char>)
    ensures
        finding_lines(seq![f], 1) == detail_lines(f.details, f.details.len()) + action_lines(
            f.suggested_actions,
            f.suggested_actions.len(),
        ),
        detail_lines(seq![text], 1) == seq![plain("  "@ + text + "\n"@)],
        action_lines(seq![text], 1) == seq![
            plain("  "@),
            styled(Style::Cyan, "→ "@ + text),
            plain("\n"@),
        ],
{
    assert(finding_lines(seq![f], 0) == Seq::<SpanView>::empty());
    assert(detail_lines(seq![text], 0) == Seq::<SpanView>::empty());
    assert(action_lines(seq![text], 0) == Seq::<SpanView>::empty());
}

/// An entity with findings is told of under its worst finding, in the colour of its
/// severity, with all its findings.
pub proof fn report_of_one(report: (Seq<char>, Seq<char>, Seq<FindingView>))
    requires
        report.2.len() > 0,
    ensures
        ({
            let lines = reports_lines(seq![report], 1);
            let worst = worst_in(report.2, report.2.len())->0;
            &&& lines[1] == plain("\n"@)
            &&& lines == lines.take(2) + finding_lines(report.2, report.2.len()) + seq![
                plain("\n"@),
            ]
            &&& worst.severity == Severity::Critical ==> lines[0] == styled(
                Style::BoldRed,
                report.1 + ": "@ + spaced(pattern_name(worst.pattern)) + " ("@ + "critical"@ + ")"@,
            )
            &&& worst.severity == Severity::Warning ==> lines[0] == styled(
                Style::BoldYellow,
                report.1 + ": "@ + spaced(pattern_name(worst.pattern)) + " ("@ + "warning"@ + ")"@,
            )
            &&& worst.severity == Severity::Info ==> lines[0] == styled(
                Style::Bold,
                report.1 + ": "@ + spaced(pattern_name(worst.pattern)) + " ("@ + "info"@ + ")"@,
            )
        }),
{
    assert(reports_lines(seq![report], 0) == Seq::<SpanView>::empty());
    let lines = reports_lines(seq![report], 1);
    assert(lines == report_lines(report));
    assert(lines == lines.take(2) + finding_lines(report.2, report.2.len()) + seq![plain("\n"@)]);
}

/// The worst finding of an entity is one of its findings, and none is worse.
pub proof fn worst_is_worst(findings: Seq<FindingView>, n: nat)
    requires
        0 < n <= findings.len(),
    ensures
        worst_in(findings, n) matches Some(w) && {
            &&& exists|i: int| 0 <= i < n && #[trigger] findings[i] == w
            &&& forall|i: int|
                0 <= i < n ==> {
                    &&& (#[trigger] findings[i]).severity == Severity::Critical ==> w.severity
                        == Severity::Critical
                    &&& findings[i].severity == Severity::Warning ==> w.severity
                        == Severity::Critical || w.severity == Severity::Warning
                    &&& findings[i].severity == Severity::Info ==> w.severity != Severity::Healthy
                }
        },
    decreases n,
{
    if n > 1 {
        worst_is_worst(findings, (n - 1) as nat);
        let before = worst_in(findings, (n - 1) as nat)->0;
        let i = choose|i: int| 0 <= i < n - 1 && #[trigger] findings[i] == before;
        assert(findings[i] == before);
    }
    assert(findings[n - 1] == findings[n - 1]);
}

/// An entity without findings is told of as healthy: with its last apply where there
/// was one, that there is no drift, and its carrier where that is known.
pub proof fn healthy_of_one(entity: (Seq<char>, Seq<char>, HealthyView))
    ensures
        ({
            let lines = healthies_lines(seq![entity], 1);
            let parts = healthy_parts(entity.2);
            let info = entity.2;
            let applied = info.last_apply_seq is Some && info.last_apply_ago is Some;
            &&& lines == seq![
                styled(Style::BoldGreen, entity.1 + ": healthy"@),
                plain("\n"@),
                plain("  "@ + joined(parts, ", "@) + "\n"@),
                plain("\n"@),
            ]
            &&& applied ==> parts[0] == "Last apply: "@ + info.last_apply_ago->0 + " (seq "@
                + decimal(info.last_apply_seq->0 as nat) + ")"@
            &&& parts.contains("no drift"@)
            &&& info.carrier_up == Some(true) ==> parts.last() == "carrier up"@
            &&& info.carrier_up == Some(false) ==> parts.last() == "carrier down"@
            &&& info.carrier_up is None ==> parts.last() == "no drift"@
        }),
{
    assert(healthies_lines(seq![entity], 0) == Seq::<SpanView>::empty());
    let parts = healthy_parts(entity.2);
    let applied = entity.2.last_apply_seq is Some && entity.2.last_apply_ago is Some;
    if applied {
        assert(parts[1] == "no drift"@);
    } else {
        assert(parts[0] == "no drift"@);
    }
}

/// A diagnosis tells first of all entities with findings, then of all without.
pub proof fn diagnosis_tells_all(
    reports: Seq<(Seq<char>, Seq<char>, Seq<FindingView>)>,
    healthy: Seq<(Seq<char>, Seq<char>, HealthyView)>,
)
    ensures
        diagnosis_layout(reports, healthy) == reports_lines(reports, reports.len())
            + healthies_lines(healthy, healthy.len()),
        diagnosis_json(reports, healthy) matches JsonView::List(list) && {
            let findings = findings_of(reports, reports.len());
            &&& list.len() == findings.len() + healthy.len()
            &&& forall|i: int|
                0 <= i < findings.len() ==> list[i] == finding_json(#[trigger] findings[i])
            &&& forall|i: int|
                0 <= i < healthy.len() ==> list[findings.len() + i] == healthy_json(
                    #[trigger] healthy[i],
                )
        },
        forall|r: (Seq<char>, Seq<char>, Seq<FindingView>)| #[trigger]
            findings_of(seq![r], 1) == r.2,
{
    assert forall|r: (Seq<char>, Seq<char>, Seq<FindingView>)| #[trigger]
        findings_of(seq![r], 1) == r.2 by {
        assert(findings_of(seq![r], 0) == Seq::<FindingView>::empty());
    }
}

/// A finding as JSON holds all that it holds.
pub proof fn json_holds_the_finding(f: FindingView)
    ensures
        finding_json(f) matches JsonView::Dict(dict) && {
            &&& dict.contains_key("entity"@) && dict["entity"@] == JsonView::Str(f.entity_name)
            &&& dict.contains_key("entity_type"@) && dict["entity_type"@] == JsonView::Str(
                f.entity_type,
            )
            &&& dict.contains_key("summary"@) && dict["summary"@] == JsonView::Str(f.summary)
            &&& dict.contains_key("severity"@)
            &&& f.severity == Severity::Critical ==> dict["severity"@] == JsonView::Str(
                "critical"@,
            )
            &&& f.severity == Severity::Warning ==> dict["severity"@] == JsonView::Str("warning"@)
            &&& f.severity == Severity::Info ==> dict["severity"@] == JsonView::Str("info"@)
            &&& dict.contains_key("pattern"@) && dict["pattern"@] == JsonView::Str(
                pattern_name(f.pattern),
            )
            &&& dict.contains_key("details"@)
            &&& dict["details"@] matches JsonView::List(list) && list.len() == f.details.len()
                && forall|i: int|
                0 <= i < list.len() ==> #[trigger] list[i] == JsonView::Str(f.details[i])
            &&& dict.contains_key("suggested_actions"@)
            &&& dict["suggested_actions"@] matches JsonView::List(list) && list.len()
                == f.suggested_actions.len() && forall|i: int|
                0 <= i < list.len() ==> #[trigger] list[i] == JsonView::Str(f.suggested_actions[i])
            &&& dict.contains_key("related_entries"@)
            &&& dict["related_entries"@] matches JsonView::List(list) && list.len()
                == f.related_entries.len() && forall|i: int|
                0 <= i < list.len() ==> #[trigger] list[i] == JsonView::PosInt(f.related_entries[i])
        },
{
    reveal_strlit("entity");
    reveal_strlit("entity_type");
    reveal_strlit("summary");
    reveal_strlit("severity");
    reveal_strlit("pattern");
    reveal_strlit("details");
    reveal_strlit("suggested_actions");
    reveal_strlit("related_entries");
    assert("entity"@.len() == 6 && "entity_type"@.len() == 11);
    assert("entity"@[0] == 'e' && "entity_type"@[0] == 'e');
    assert("summary"@[1] == 'u' && "severity"@[1] == 'e' && "suggested_actions"@[1] == 'u');
    assert("summary"@[0] == 's' && "severity"@[0] == 's' && "suggested_actions"@[0] == 's');
    assert("summary"@[2] == 'm' && "suggested_actions"@[2] == 'g');
    assert("pattern"@[0] == 'p' && "details"@[0] == 'd' && "related_entries"@[0] == 'r');
}

/// An entity that is looked at is told of with all its findings where it has any, and
/// as healthy where it has none.
pub proof fn diagnosis_of_one(
    entity: (Seq<char>, Seq<char>),
    data: CollectedData,
    schema: FieldSchema,
    at: Timestamp,
)
    ensures
        ({
            let last = match data.last_applied_entry {
                Some(e) => Some(&e),
                None => None,
            };
            let found = all_findings(
                data.entries@,
                data.current_state@,
                entity.0,
                entity.1,
                last,
                schema,
                at,
            );
            let reports = reports_on(seq![entity], data, schema, at, 1);
            let healthy = healthy_on(seq![entity], data, schema, at, 1);
            let applied = latest(data.entries@, Pick::AppliedState, entity.0, entity.1);
            &&& found.len() > 0 ==> reports == seq![(entity.0, entity.1, found)] && healthy.len()
                == 0
            &&& found.len() == 0 ==> reports.len() == 0 && healthy.len() == 1 && healthy[0].0
                == entity.0 && healthy[0].1 == entity.1 && healthy[0].2.carrier_up == carrier_of(
                data.current_state@,
                entity.0,
                entity.1,
            )
            &&& found.len() == 0 && applied is None ==> healthy[0].2.last_apply_seq is None
            &&& found.len() == 0 && applied is Some ==> healthy[0].2.last_apply_seq == Some(
                applied->0.seq,
            ) && healthy[0].2.last_apply_ago == Some(ago_text(applied->0.timestamp, at))
        }),
{
    assert(reports_on(seq![entity], data, schema, at, 0).len() == 0);
    assert(healthy_on(seq![entity], data, schema, at, 0).len() == 0);
}

/// What an analysis prints and ends with: a message where there is nothing to look
/// at, and else all findings, with 2 where one of them is critical, 1 where one is a
/// warning, and 0 where none is worse than information.
pub proof fn analyses_are_complete(
    r: Analysis,
    data: CollectedData,
    args: DiagnoseArgs,
    schema: FieldSchema,
    at: Timestamp,
)
    requires
        analyses(r, data, args, schema, at),
    ensures
        ({
            let entities = filtered_entities(pair_views(data.managed_entities@), args.selector@);
            let reports = worst_first(reports_on(entities, data, schema, at, entities.len()));
            let healthy = healthy_on(entities, data, schema, at, entities.len());
            let findings = findings_of(reports, reports.len());
            let nothing = data.entries@.len() == 0 && data.managed_entities@.len() == 0;
            let critical = exists|i: int|
                0 <= i < findings.len() && (#[trigger] findings[i]).severity == Severity::Critical;
            let warning = exists|i: int|
                0 <= i < findings.len() && (#[trigger] findings[i]).severity == Severity::Warning;
            let told = !nothing && entities.len() > 0;
            &&& nothing ==> r.output@ == "No journal entries found. Run `netfyr apply` first.\n"@
                && r.code == 0
            &&& !nothing && entities.len() == 0 && args.selector@.len() == 0 ==> r.output@
                == "No managed entities found.\n"@ && r.code == 0
            &&& !nothing && entities.len() == 0 && args.selector@.len() > 0 ==> r.output@
                == "No managed entities found matching selector.\n"@ && r.code == 0
            &&& told && critical ==> r.code == 2
            &&& told && !critical && warning ==> r.code == 1
            &&& told && !critical && !warning ==> r.code == 0
            &&& told && args.output == DiagnoseOutputFormat::Text ==> rendering(
                diagnosis_layout(reports, healthy),
                r.output@,
            )
            &&& told && args.output == DiagnoseOutputFormat::Json ==> r.output@ == pretty_written(
                diagnosis_json(reports, healthy),
            ) + "\n"@
        }),
{
}

/// The names of severities and of patterns; in a heading a pattern stands with spaces
/// for its underscores.
pub proof fn patterns_are_named(s: Seq<char>, i: int)
    requires
        0 <= i < s.len(),
    ensures
        pattern_name(PatternKind::ConfigurationDrift) == "configuration_drift"@,
        pattern_name(PatternKind::CarrierLoss) == "carrier_loss"@,
        pattern_name(PatternKind::DhcpLeaseLost) == "dhcp_lease_lost"@,
        pattern_name(PatternKind::RecurringFlaps) == "recurring_flaps"@,
        pattern_name(PatternKind::FailedApply) == "failed_apply"@,
        pattern_name(PatternKind::PolicyConflict) == "policy_conflict"@,
        pattern_name(PatternKind::NoRecentActivity) == "no_recent_activity"@,
        spaced(s).len() == s.len(),
        s[i] == '_' ==> spaced(s)[i] == ' ',
        s[i] != '_' ==> spaced(s)[i] == s[i],
{
}

/// Entities whose worst finding is critical are reported before those whose worst one
/// is a warning, those before all others, and those of one severity by their names.
pub proof fn reports_stand_by_severity(
    list: Seq<(Seq<char>, Seq<char>, Seq<FindingView>)>,
    i: int,
    j: int,
)
    requires
        0 <= i < j < list.len(),
    ensures
        ({
            let a = worst_first(list)[i];
            let b = worst_first(list)[j];
            let x = worst_severity(a.2);
            let y = worst_severity(b.2);
            &&& y == Severity::Critical ==> x == Severity::Critical
            &&& y == Severity::Warning ==> x == Severity::Critical || x == Severity::Warning
            &&& y == Severity::Info ==> x != Severity::Healthy
            &&& x == y ==> text_le(a.1, b.1)
        }),
{
    worst_come_first(list);
    let sorted = worst_first(list);
    assert(reported_before(sorted[i], sorted[j]));
}

/// An entity without findings as JSON: its last apply where there was one, and then
/// its carrier where that is known.
pub proof fn json_holds_the_healthy(entity: (Seq<char>, Seq<char>, HealthyView))
    ensures
        healthy_json(entity) matches JsonView::Dict(dict) && {
            let info = entity.2;
            let applied = info.last_apply_seq is Some && info.last_apply_ago is Some;
            &&& dict.contains_key("entity"@) && dict["entity"@] == JsonView::Str(entity.1)
            &&& dict.contains_key("entity_type"@) && dict["entity_type"@] == JsonView::Str(entity.0)
            &&& dict.contains_key("severity"@) && dict["severity"@] == JsonView::Str("healthy"@)
            &&& dict.contains_key("pattern"@) && dict["pattern"@] == JsonView::Str("healthy"@)
            &&& dict.contains_key("summary"@)
            &&& applied ==> dict["summary"@] == JsonView::Str(
                "Last apply: "@ + info.last_apply_ago->0 + " (seq "@ + decimal(
                    info.last_apply_seq->0 as nat,
                ) + "), no drift"@,
            )
            &&& !applied ==> dict["summary"@] == JsonView::Str("healthy"@)
            &&& dict.contains_key("details"@)
            &&& applied && info.carrier_up == Some(true) ==> dict["details"@] == JsonView::List(
                seq![JsonView::Str("carrier up"@)],
            )
            &&& applied && info.carrier_up == Some(false) ==> dict["details"@] == JsonView::List(
                seq![JsonView::Str("carrier down"@)],
            )
        },
{
    reveal_strlit("entity");
    reveal_strlit("entity_type");
    reveal_strlit("summary");
    reveal_strlit("severity");
    reveal_strlit("pattern");
    reveal_strlit("details");
    reveal_strlit("suggested_actions");
    reveal_strlit("related_entries");
    assert("entity"@.len() == 6 && "entity_type"@.len() == 11);
    assert("entity"@[0] == 'e' && "entity_type"@[0] == 'e');
    assert("summary"@[0] == 's' && "severity"@[0] == 's' && "suggested_actions"@[0] == 's');
    assert("summary"@[1] == 'u' && "severity"@[1] == 'e' && "suggested_actions"@[1] == 'u');
    assert("summary"@[2] == 'm' && "suggested_actions"@[2] == 'g');
    assert("pattern"@[0] == 'p' && "details"@[0] == 'd' && "related_entries"@[0] == 'r');
    let up: Seq<Seq<char>> = seq!["carrier up"@];
    let down: Seq<Seq<char>> = seq!["carrier down"@];
    assert(up.map_values(|t: Seq<char>| JsonView::Str(t)) == seq![JsonView::Str("carrier up"@)]);
    assert(down.map_values(|t: Seq<char>| JsonView::Str(t)) == seq![
        JsonView::Str("carrier down"@),
    ]);
}

/// What reports hold is the type, the name and all findings of each entity, in their
/// order.
pub proof fn reports_are_kept(v: Seq<(String, String, Vec<Finding>)>, i: int)
    requires
        0 <= i < v.len(),
    ensures
        report_views(v).len() == v.len(),
        report_views(v)[i] == (v[i].0@, v[i].1@, finding_views(v[i].2@)),
{
}

} // verus!
