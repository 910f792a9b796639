//! The `revert` subcommand: back to the state of a journal entry.
use vstd::prelude::*;
use vstd::string::*;

use crate::apply::report::{
    daemon_change_lines, daemon_change_spans, daemon_outcome, daemon_outcome_text, entity_line,
    push_entity_line, push_set_line, push_unset_line, set_line, unset_line,
};
use crate::apply::{apply_code, DiffOpKind, Printed, VarlinkApplyReport, VarlinkChangeEntry};
use crate::journal::Trigger;
use crate::query::opt_view;
use crate::styled::{
    no_spans, plain, push_all, push_plain, push_styled, render, rendering, span_views, styled, Span,
    SpanView, Style,
};
use crate::text::{cat2, cat3, cat5, decimal, decimal_text, lemma_middle_holds, lemma_parted, same};
use crate::time::{format_instant, instant_text, Timestamp};

verus! {

/// The arguments of the `revert` subcommand.
#[derive(Debug)]
pub struct RevertArgs {
    /// The number of the entry to go back to.
    pub target: u64,
    /// Show what would change without applying.
    pub dry_run: bool,
}

/// The planned change of one field, with its values as text.
#[derive(Debug)]
pub enum FieldPlan {
    Write { field: String, current: Option<String>, desired: String },
    Clear { field: String, value: String },
    Keep { field: String },
}

/// A planned operation. The key is that of its selector.
#[derive(Debug)]
pub struct PlannedOperation {
    pub kind: DiffOpKind,
    pub entity_type: String,
    pub key: String,
    pub field_changes: Vec<FieldPlan>,
}

/// What a revert prints, and its exit code.
#[derive(Debug)]
pub struct RevertResult {
    pub printed: Printed,
    pub code: u8,
}

/// How a revert goes on once its changes are known.
#[derive(Clone, Copy, Debug, PartialEq, Eq, Structural)]
pub enum RevertStep {
    /// It is said that nothing needs to change; the program ends with 0.
    NothingToDo,
    /// The planned changes are shown; the program ends with 1.
    ShowPlan,
    /// The changes are applied.
    Apply,
}

/// How a revert goes on once its changes are known.
pub open spec fn step_of(dry_run: bool, is_empty: bool) -> RevertStep {
    if is_empty {
        RevertStep::NothingToDo
    } else if dry_run {
        RevertStep::ShowPlan
    } else {
        RevertStep::Apply
    }
}

/// A dry run never applies anything, and a revert applies something exactly where
/// something would change.
pub proof fn dry_run_applies_nothing(dry_run: bool, is_empty: bool)
    ensures
        step_of(true, is_empty) != RevertStep::Apply,
        step_of(dry_run, is_empty) == RevertStep::Apply <==> !dry_run && !is_empty,
{
}

/// How a revert goes on once its changes are known.
pub fn revert_step(dry_run: bool, is_empty: bool) -> (r: RevertStep)
    ensures
        r == step_of(dry_run, is_empty),
{
    if is_empty {
        RevertStep::NothingToDo
    } else if dry_run {
        RevertStep::ShowPlan
    } else {
        RevertStep::Apply
    }
}

/// The trigger of a revert.
pub fn revert_trigger(args: &RevertArgs) -> (r: Trigger)
    ensures
        r == (Trigger::Revert { target_seq: args.target }),
{
    Trigger::Revert { target_seq: args.target }
}

// ── Messages ─────────────────────────────────────────────────────────────────

/// The first line of a revert: the entry, and its time.
pub open spec fn heading(seq: u64, time: Seq<char>) -> Seq<char> {
    "Reverting to state from entry #"@ + decimal(seq as nat) + " ("@ + time + " UTC)\n"@
}

/// The first line of a revert to an entry of the daemon.
pub fn revert_heading(seq: u64, time: &str) -> (r: String)
    ensures
        r@ == heading(seq, time@),
{
    let digits = decimal_text(seq);
    cat5("Reverting to state from entry #", digits.as_str(), " (", time, " UTC)\n")
}

/// The first line of a revert to an entry of the journal.
pub fn entry_heading(seq: u64, time: Timestamp) -> (r: String)
    requires
        time.wf(),
    ensures
        r@ == heading(seq, instant_text(time.secs, time.nanos, "%Y-%m-%d %H:%M:%S"@)),
{
    let text = format_instant(time, "%Y-%m-%d %H:%M:%S");
    revert_heading(seq, text.as_str())
}

/// What is said where the entry is not in the journal.
pub fn missing_entry_text(target: u64) -> (r: String)
    ensures
        r@ == "Error: Entry #"@ + decimal(target as nat) + " not found"@,
{
    let digits = decimal_text(target);
    cat3("Error: Entry #", digits.as_str(), " not found")
}

/// What is said where the daemon does not have the entry.
pub fn daemon_missing_entry_text(reason: &str) -> (r: String)
    ensures
        r@ == "Error: "@ + reason@,
{
    cat2("Error: ", reason)
}

/// What is said where nothing needs to change.
pub fn nothing_to_revert_message() -> (r: &'static str)
    ensures
        r@ == "No changes needed. System is already in the target state.\n"@,
{
    "No changes needed. System is already in the target state.\n"
}

/// What is said ahead of the changes that a dry run shows.
pub fn plan_message() -> (r: &'static str)
    ensures
        r@ == "Changes that would be applied:\n"@,
{
    "Changes that would be applied:\n"
}

/// What is said behind a revert through the daemon: its policies stay in force.
pub fn policies_unchanged_warning() -> (r: &'static str)
    ensures
        r@
            == "Warning: the active policy set was not changed. The daemon may re-apply\nthe current desired state on the next reconciliation cycle.\n"@,
{
    "Warning: the active policy set was not changed. The daemon may re-apply\nthe current desired state on the next reconciliation cycle.\n"
}

// ── Plans ────────────────────────────────────────────────────────────────────

/// The line on a planned change of a field; none where it stays as it is.
pub open spec fn field_line(change: FieldPlan) -> Seq<SpanView> {
    match change {
        FieldPlan::Write { field, current, desired } => set_line(
            field@,
            opt_view(current),
            desired@,
        ),
        FieldPlan::Clear { field, value } => unset_line(field@, value@),
        FieldPlan::Keep { .. } => Seq::empty(),
    }
}

/// The lines on the first `n` fields.
pub open spec fn field_lines(changes: Seq<FieldPlan>, n: nat) -> Seq<SpanView>
    decreases n,
{
    if n == 0 || n > changes.len() {
        Seq::empty()
    } else {
        field_lines(changes, (n - 1) as nat) + field_line(changes[n - 1])
    }
}

/// The line on the entity of an operation.
pub open spec fn operation_line(op: PlannedOperation) -> Seq<SpanView> {
    let entity = op.entity_type@ + " "@ + op.key@;
    match op.kind {
        DiffOpKind::Add => entity_line(Style::Green, "+"@, entity),
        DiffOpKind::Modify => entity_line(Style::Yellow, "~"@, entity),
        DiffOpKind::Remove => entity_line(Style::Red, "-"@, entity),
    }
}

/// The lines on the first `n` operations.
pub open spec fn plan_lines(ops: Seq<PlannedOperation>, n: nat) -> Seq<SpanView>
    decreases n,
{
    if n == 0 || n > ops.len() {
        Seq::empty()
    } else {
        plan_lines(ops, (n - 1) as nat) + operation_line(ops[n - 1]) + field_lines(
            ops[n - 1].field_changes@,
            ops[n - 1].field_changes@.len(),
        )
    }
}

/// Appends the line on a planned change of a field.
fn push_field(out: &mut Vec<Span>, change: &FieldPlan)
    ensures
        span_views(final(out)@) == span_views(old(out)@) + field_line(*change),
{
    match change {
        FieldPlan::Write { field, current, desired } => match current {
            Some(c) => push_set_line(out, field.as_str(), Some(c.as_str()), desired.as_str()),
            None => push_set_line(out, field.as_str(), None, desired.as_str()),
        },
        FieldPlan::Clear { field, value } => push_unset_line(out, field.as_str(), value.as_str()),
        FieldPlan::Keep { .. } => {
            assert(span_views(out@) == span_views(old(out)@) + field_line(*change));
        },
    }
}

/// Appends the lines on a planned operation.
fn push_operation(out: &mut Vec<Span>, op: &PlannedOperation)
    ensures
        span_views(final(out)@) == span_views(old(out)@) + operation_line(*op) + field_lines(
            op.field_changes@,
            op.field_changes@.len(),
        ),
{
    let entity_type = op.entity_type.as_str();
    let key = op.key.as_str();
    match op.kind {
        DiffOpKind::Add => push_entity_line(out, Style::Green, "+", entity_type, key),
        DiffOpKind::Modify => push_entity_line(out, Style::Yellow, "~", entity_type, key),
        DiffOpKind::Remove => push_entity_line(out, Style::Red, "-", entity_type, key),
    }
    let ghost head = span_views(out@);
    let changes = &op.field_changes;
    let n: usize = changes.len();
    let mut i: usize = 0;
    assert(span_views(out@) == head + field_lines(changes@, 0));
    while i < n
        invariant
            i <= n,
            n == changes@.len(),
            span_views(out@) == head + field_lines(changes@, i as nat),
        decreases n - i,
    {
        push_field(out, &changes[i]);
        i = i + 1;
    }
}

/// The lines on all planned operations.
pub fn revert_plan_spans(ops: &Vec<PlannedOperation>) -> (r: Vec<Span>)
    ensures
        span_views(r@) == plan_lines(ops@, ops@.len()),
{
    let mut out = no_spans();
    let n: usize = ops.len();
    let mut i: usize = 0;
    while i < n
        invariant
            i <= n,
            n == ops@.len(),
            span_views(out@) == plan_lines(ops@, i as nat),
        decreases n - i,
    {
        push_operation(&mut out, &ops[i]);
        i = i + 1;
    }
    out
}

/// What a dry run without the daemon prints below its heading.
pub fn display_revert_dry_run(ops: &Vec<PlannedOperation>) -> (r: String)
    ensures
        rendering(plan_lines(ops@, ops@.len()), r@),
{
    let spans = revert_plan_spans(ops);
    render(&spans)
}

// ── The daemon ───────────────────────────────────────────────────────────────

/// The line on a change that the daemon would make.
pub open spec fn daemon_plan_line(entry: VarlinkChangeEntry) -> Seq<SpanView> {
    let rest = entry.entity_type@ + " "@ + entry.entity_name@ + ": "@ + entry.description@;
    if entry.kind@ == "add"@ {
        seq![styled(Style::Green, "  + "@ + rest), plain("\n"@)]
    } else if entry.kind@ == "remove"@ {
        seq![styled(Style::Red, "  - "@ + rest), plain("\n"@)]
    } else {
        seq![styled(Style::Yellow, "  ~ "@ + rest), plain("\n"@)]
    }
}

/// The lines on the first `n` changes that the daemon would make.
pub open spec fn daemon_plan_lines(changes: Seq<VarlinkChangeEntry>, n: nat) -> Seq<SpanView>
    decreases n,
{
    if n == 0 || n > changes.len() {
        Seq::empty()
    } else {
        daemon_plan_lines(changes, (n - 1) as nat) + daemon_plan_line(changes[n - 1])
    }
}

/// What a dry run of the daemon prints.
pub open spec fn daemon_plan_layout(changes: Seq<VarlinkChangeEntry>) -> Seq<SpanView> {
    if changes.len() == 0 {
        seq![plain("No changes needed. System is already in the target state.\n"@)]
    } else {
        seq![plain("Changes that would be applied:\n"@)] + daemon_plan_lines(
            changes,
            changes.len(),
        )
    }
}

/// What a revert through the daemon prints.
pub open spec fn daemon_revert_layout(report: VarlinkApplyReport) -> Seq<SpanView> {
    let outcome = daemon_outcome(report.succeeded as int, report.failed as int);
    daemon_change_lines(report.changes@, report.changes@.len()) + seq![
        styled(outcome.0, outcome.1),
        plain("\n"@),
    ]
}

/// Appends the line on a change that the daemon would make.
fn push_daemon_plan_line(out: &mut Vec<Span>, entry: &VarlinkChangeEntry)
    ensures
        span_views(final(out)@) == span_views(old(out)@) + daemon_plan_line(*entry),
{
    let rest = cat5(
        entry.entity_type.as_str(),
        " ",
        entry.entity_name.as_str(),
        ": ",
        entry.description.as_str(),
    );
    if same(entry.kind.as_str(), "add") {
        push_styled(out, Style::Green, cat2("  + ", rest.as_str()));
    } else if same(entry.kind.as_str(), "remove") {
        push_styled(out, Style::Red, cat2("  - ", rest.as_str()));
    } else {
        push_styled(out, Style::Yellow, cat2("  ~ ", rest.as_str()));
    }
    push_plain(out, "\n".to_owned());
    assert(span_views(out@) == span_views(old(out)@) + daemon_plan_line(*entry));
}

/// What a dry run of the daemon prints.
pub fn daemon_plan_spans(report: &VarlinkApplyReport) -> (r: Vec<Span>)
    ensures
        span_views(r@) == daemon_plan_layout(report.changes@),
{
    let mut out = no_spans();
    let changes = &report.changes;
    let n: usize = changes.len();
    if n == 0 {
        push_plain(&mut out, nothing_to_revert_message().to_owned());
        assert(span_views(out@) == daemon_plan_layout(changes@));
        return out;
    }
    push_plain(&mut out, plan_message().to_owned());
    let ghost head = seq![plain("Changes that would be applied:\n"@)];
    let mut i: usize = 0;
    assert(span_views(out@) == head + daemon_plan_lines(changes@, 0));
    while i < n
        invariant
            i <= n,
            n == changes@.len(),
            span_views(out@) == head + daemon_plan_lines(changes@, i as nat),
        decreases n - i,
    {
        push_daemon_plan_line(&mut out, &changes[i]);
        i = i + 1;
    }
    out
}

/// What a dry run of the daemon prints.
pub fn display_varlink_revert_dry_run(report: &VarlinkApplyReport) -> (r: String)
    ensures
        rendering(daemon_plan_layout(report.changes@), r@),
{
    let spans = daemon_plan_spans(report);
    render(&spans)
}

/// What a revert through the daemon prints.
pub fn daemon_revert_spans(report: &VarlinkApplyReport) -> (r: Vec<Span>)
    ensures
        span_views(r@) == daemon_revert_layout(*report),
{
    let mut out = daemon_change_spans(&report.changes);
    let (style, outcome) = daemon_outcome_text(report.succeeded, report.failed);
    push_styled(&mut out, style, outcome);
    push_plain(&mut out, "\n".to_owned());
    assert(span_views(out@) == daemon_revert_layout(*report));
    out
}

/// What a revert through the daemon prints.
pub fn display_varlink_revert_report(report: &VarlinkApplyReport) -> (r: String)
    ensures
        rendering(daemon_revert_layout(*report), r@),
{
    let spans = daemon_revert_spans(report);
    render(&spans)
}

/// The exit code of a revert through the daemon: conflicts do not count.
pub fn varlink_revert_exit_code(report: &VarlinkApplyReport) -> (r: u8)
    ensures
        r == apply_code(report.succeeded as int, report.failed as int, false),
{
    if report.failed > 0 && report.succeeded == 0 {
        2
    } else if report.failed > 0 {
        1
    } else {
        0
    }
}

/// What a revert through the daemon, or a dry run of one, prints on the standard
/// stream.
pub open spec fn daemon_result_layout(
    args: RevertArgs,
    report: VarlinkApplyReport,
    time: Seq<char>,
) -> Seq<SpanView> {
    seq![plain(heading(args.target, time))] + (if args.dry_run {
        daemon_plan_layout(report.changes@)
    } else {
        daemon_revert_layout(report)
    })
}

/// What a revert through the daemon, or a dry run of one, prints, and its exit
/// code. A dry run ends with 1 where something would change.
pub fn daemon_result(args: &RevertArgs, report: &VarlinkApplyReport, time: &str) -> (r:
    RevertResult)
    ensures
        rendering(daemon_result_layout(*args, *report, time@), r.printed.stdout@),
        r.printed.stderr@ == (if args.dry_run {
            Seq::<char>::empty()
        } else {
            "Warning: the active policy set was not changed. The daemon may re-apply\nthe current desired state on the next reconciliation cycle.\n"@
        }),
        r.code == (if args.dry_run {
            if report.changes@.len() == 0 {
                0u8
            } else {
                1u8
            }
        } else {
            apply_code(report.succeeded as int, report.failed as int, false)
        }),
{
    let mut out = no_spans();
    push_plain(&mut out, revert_heading(args.target, time));
    assert(span_views(out@) == seq![plain(heading(args.target, time@))]);
    if args.dry_run {
        push_all(&mut out, daemon_plan_spans(report));
        let code: u8 = if report.changes.len() == 0 {
            0
        } else {
            1
        };
        let printed = Printed { stderr: String::new(), stdout: render(&out) };
        RevertResult { printed, code }
    } else {
        push_all(&mut out, daemon_revert_spans(report));
        let printed = Printed {
            stderr: policies_unchanged_warning().to_owned(),
            stdout: render(&out),
        };
        RevertResult { printed, code: varlink_revert_exit_code(report) }
    }
}

// ── Laws ─────────────────────────────────────────────────────────────────────

/// The preview of some operations and others behind them is that of the first,
/// then that of the others: no operation is left out or shown otherwise for
/// where it stands.
pub proof fn preview_of_parts(
    a: Seq<PlannedOperation>,
    b: Seq<PlannedOperation>,
)
    ensures
        plan_lines(a + b, (a + b).len()) == plan_lines(a, a.len()) + plan_lines(b, b.len()),
{
    lemma_preview_of_parts(a, b, b.len());
}

/// The first elements give the same whatever stands behind them.
proof fn lemma_preview_of_parts_start(
    a: Seq<PlannedOperation>,
    b: Seq<PlannedOperation>,
    n: nat,
)
    requires
        n <= a.len(),
    ensures
        plan_lines(a + b, n) == plan_lines(a, n),
    decreases n,
{
    if n > 0 {
        lemma_preview_of_parts_start(a, b, (n - 1) as nat);
        assert((a + b)[n - 1] == a[n - 1]);
    }
}

/// The first `m` elements of the second part follow all of the first part.
proof fn lemma_preview_of_parts(
    a: Seq<PlannedOperation>,
    b: Seq<PlannedOperation>,
    m: nat,
)
    requires
        m <= b.len(),
    ensures
        plan_lines(a + b, a.len() + m) == plan_lines(a, a.len()) + plan_lines(b, m),
    decreases m,
{
    if m == 0 {
        lemma_preview_of_parts_start(a, b, a.len());
    } else {
        lemma_preview_of_parts(a, b, (m - 1) as nat);
        assert((a + b)[a.len() + m - 1] == b[m - 1]);
    }
}

/// The lines on some fields and others behind them are those on the first,
/// then those on the others.
pub proof fn preview_fields_of_parts(
    a: Seq<FieldPlan>,
    b: Seq<FieldPlan>,
)
    ensures
        field_lines(a + b, (a + b).len()) == field_lines(a, a.len()) + field_lines(b, b.len()),
{
    lemma_preview_fields_of_parts(a, b, b.len());
}

/// The first elements give the same whatever stands behind them.
proof fn lemma_preview_fields_of_parts_start(
    a: Seq<FieldPlan>,
    b: Seq<FieldPlan>,
    n: nat,
)
    requires
        n <= a.len(),
    ensures
        field_lines(a + b, n) == field_lines(a, n),
    decreases n,
{
    if n > 0 {
        lemma_preview_fields_of_parts_start(a, b, (n - 1) as nat);
        assert((a + b)[n - 1] == a[n - 1]);
    }
}

/// The first `m` elements of the second part follow all of the first part.
proof fn lemma_preview_fields_of_parts(
    a: Seq<FieldPlan>,
    b: Seq<FieldPlan>,
    m: nat,
)
    requires
        m <= b.len(),
    ensures
        field_lines(a + b, a.len() + m) == field_lines(a, a.len()) + field_lines(b, m),
    decreases m,
{
    if m == 0 {
        lemma_preview_fields_of_parts_start(a, b, a.len());
    } else {
        lemma_preview_fields_of_parts(a, b, (m - 1) as nat);
        assert((a + b)[a.len() + m - 1] == b[m - 1]);
    }
}

/// The preview of some changes and others behind them is that of the first,
/// then that of the others.
pub proof fn daemon_preview_of_parts(
    a: Seq<VarlinkChangeEntry>,
    b: Seq<VarlinkChangeEntry>,
)
    ensures
        daemon_plan_lines(a + b, (a + b).len()) == daemon_plan_lines(a, a.len()) + daemon_plan_lines(b, b.len()),
{
    lemma_daemon_preview_of_parts(a, b, b.len());
}

/// The first elements give the same whatever stands behind them.
proof fn lemma_daemon_preview_of_parts_start(
    a: Seq<VarlinkChangeEntry>,
    b: Seq<VarlinkChangeEntry>,
    n: nat,
)
    requires
        n <= a.len(),
    ensures
        daemon_plan_lines(a + b, n) == daemon_plan_lines(a, n),
    decreases n,
{
    if n > 0 {
        lemma_daemon_preview_of_parts_start(a, b, (n - 1) as nat);
        assert((a + b)[n - 1] == a[n - 1]);
    }
}

/// The first `m` elements of the second part follow all of the first part.
proof fn lemma_daemon_preview_of_parts(
    a: Seq<VarlinkChangeEntry>,
    b: Seq<VarlinkChangeEntry>,
    m: nat,
)
    requires
        m <= b.len(),
    ensures
        daemon_plan_lines(a + b, a.len() + m) == daemon_plan_lines(a, a.len()) + daemon_plan_lines(b, m),
    decreases m,
{
    if m == 0 {
        lemma_daemon_preview_of_parts_start(a, b, a.len());
    } else {
        lemma_daemon_preview_of_parts(a, b, (m - 1) as nat);
        assert((a + b)[a.len() + m - 1] == b[m - 1]);
    }
}

/// The preview of one operation is a line that names its entity, with the sign and
/// the colour of what is done to it, and below it the lines on its fields.
pub proof fn preview_of_one(op: PlannedOperation)
    ensures
        ({
            let name = op.entity_type@ + " "@ + op.key@;
            let fields = field_lines(op.field_changes@, op.field_changes@.len());
            let lines = plan_lines(seq![op], 1);
            &&& op.kind == DiffOpKind::Add ==> lines == seq![
                plain("  "@),
                styled(Style::Green, "+"@ + " "@ + name),
                plain("\n"@),
            ] + fields
            &&& op.kind == DiffOpKind::Remove ==> lines == seq![
                plain("  "@),
                styled(Style::Red, "-"@ + " "@ + name),
                plain("\n"@),
            ] + fields
            &&& op.kind == DiffOpKind::Modify ==> lines == seq![
                plain("  "@),
                styled(Style::Yellow, "~"@ + " "@ + name),
                plain("\n"@),
            ] + fields
        }),
{
    assert(plan_lines(seq![op], 0) == Seq::<SpanView>::empty());
}

/// The preview of one field: what is written with its new value, and with its old
/// one where it has one; what is cleared with its old value; what stays not at all.
pub proof fn preview_of_one_field(change: FieldPlan)
    ensures
        ({
            let lines = field_lines(seq![change], 1);
            match change {
                FieldPlan::Write { field, current: Some(had), desired } => lines == seq![
                    plain("  "@),
                    styled(
                        Style::Yellow,
                        "~   "@ + field@ + ": "@ + had@ + " \u{2192} "@ + desired@,
                    ),
                    plain("\n"@),
                ],
                FieldPlan::Write { field, current: None, desired } => lines == seq![
                    plain("  "@),
                    styled(Style::Green, "+   "@ + field@ + ": "@ + desired@),
                    plain("\n"@),
                ],
                FieldPlan::Clear { field, value } => lines == seq![
                    plain("  "@),
                    styled(Style::Red, "-   "@ + field@ + ": "@ + value@),
                    plain("\n"@),
                ],
                FieldPlan::Keep { .. } => lines.len() == 0,
            }
        }),
{
    assert(field_lines(seq![change], 0) == Seq::<SpanView>::empty());
}

/// Every field that any operation writes or clears has its line in the preview,
/// wherever the operation and the field stand: all lines on the field are there.
pub proof fn every_field_is_previewed(ops: Seq<PlannedOperation>, i: int, k: int, x: SpanView)
    requires
        0 <= i < ops.len(),
        0 <= k < ops[i].field_changes@.len(),
        field_lines(seq![ops[i].field_changes@[k]], 1).contains(x),
    ensures
        plan_lines(ops, ops.len()).contains(x),
{
    let fields = ops[i].field_changes@;
    let (a, b, c) = (fields.take(k), seq![fields[k]], fields.skip(k + 1));
    lemma_parted(fields, k);
    preview_fields_of_parts(a + b, c);
    preview_fields_of_parts(a, b);
    lemma_middle_holds(
        field_lines(a, a.len()),
        field_lines(b, 1),
        field_lines(c, c.len()),
        x,
    );
    let lines = field_lines(fields, fields.len());
    preview_of_one(ops[i]);
    let one = plan_lines(seq![ops[i]], 1);
    assert(one.contains(x)) by {
        let at = lines.index_of(x);
        assert(one[3 + at] == x);
    }
    let (d, e, f) = (ops.take(i), seq![ops[i]], ops.skip(i + 1));
    lemma_parted(ops, i);
    preview_of_parts(d + e, f);
    preview_of_parts(d, e);
    lemma_middle_holds(
        plan_lines(d, d.len()),
        plan_lines(e, 1),
        plan_lines(f, f.len()),
        x,
    );
}

/// The preview of one change by the daemon: its entity and what would be done.
pub proof fn daemon_preview_of_one(entry: VarlinkChangeEntry)
    ensures
        ({
            let lines = daemon_plan_lines(seq![entry], 1);
            let told = entry.entity_type@ + " "@ + entry.entity_name@ + ": "@ + entry.description@;
            &&& entry.kind@ == "add"@ ==> lines == seq![
                styled(Style::Green, "  + "@ + told),
                plain("\n"@),
            ]
            &&& entry.kind@ == "remove"@ ==> lines == seq![
                styled(Style::Red, "  - "@ + told),
                plain("\n"@),
            ]
            &&& entry.kind@ != "add"@ && entry.kind@ != "remove"@ ==> lines == seq![
                styled(Style::Yellow, "  ~ "@ + told),
                plain("\n"@),
            ]
        }),
{
    reveal_strlit("add");
    reveal_strlit("remove");
    assert("add"@.len() != "remove"@.len());
    assert(daemon_plan_lines(seq![entry], 0) == Seq::<SpanView>::empty());
}

/// What a revert through the daemon prints: the entry and its time first; then, in a
/// dry run, that nothing is needed or all changes under a heading, and else all
/// changes with what became of them.
pub proof fn daemon_revert_is_told(args: RevertArgs, report: VarlinkApplyReport, time: Seq<char>)
    ensures
        ({
            let layout = daemon_result_layout(args, report, time);
            let changes = report.changes@;
            let (style, outcome) = daemon_outcome(report.succeeded as int, report.failed as int);
            let head = seq![
                plain(
                    "Reverting to state from entry #"@ + decimal(args.target as nat) + " ("@ + time
                        + " UTC)\n"@,
                ),
            ];
            &&& args.dry_run && changes.len() == 0 ==> layout == head + seq![
                plain("No changes needed. System is already in the target state.\n"@),
            ]
            &&& args.dry_run && changes.len() > 0 ==> layout == head + (seq![
                plain("Changes that would be applied:\n"@),
            ] + daemon_plan_lines(changes, changes.len()))
            &&& !args.dry_run ==> layout == head + (daemon_change_lines(changes, changes.len())
                + seq![styled(style, outcome), plain("\n"@)])
        }),
{
}

/// How a revert goes on: without changes it is said that nothing is needed; with
/// changes a dry run shows them, and any other revert makes them.
pub proof fn steps_of_a_revert(dry_run: bool)
    ensures
        step_of(dry_run, true) == RevertStep::NothingToDo,
        step_of(true, false) == RevertStep::ShowPlan,
        step_of(false, false) == RevertStep::Apply,
{
}

} // verus!
