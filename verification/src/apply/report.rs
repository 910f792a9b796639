//! What an apply prints.
use vstd::prelude::*;
use vstd::string::*;

use crate::apply::{
    AppliedOperation, ApplyReport, Conflict, ConflictReport, Contribution, DiffOpKind,
    FailedOperation, Printed, SkippedOperation, VarlinkApplyReport, VarlinkChangeEntry,
    VarlinkConflictEntry, VarlinkDiffOperation, VarlinkFieldChange, VarlinkStateDiff,
};
use crate::history::display::{counted, push_count};
use crate::json::{compact, compact_or_nothing, json_compact, json_or_nothing};
use crate::styled::{
    no_spans, plain, push_all, push_plain, push_styled, render, rendering, span_views, styled, Span,
    SpanView, Style,
};
use crate::text::{
    cat2, cat3, cat4, cat5, cat6, cat7, debug_str, debug_text, decimal, decimal_int,
    decimal_int_text, decimal_sum_text, decimal_text, decimal_wide, join, joined,
    lemma_middle_holds, lemma_parted, lines_of, push_text, same, split_lines, str_views, views,
};

verus! {

// ── Conflicts ────────────────────────────────────────────────────────────────

/// The warning ahead of `n` conflicts.
pub open spec fn conflict_warning(n: nat) -> Seq<SpanView> {
    seq![
        styled(
            Style::Yellow,
            "Warning: "@ + decimal(n) + " field "@ + (if n == 1 {
                "conflict"@
            } else {
                "conflicts"@
            }) + " detected. Conflicting fields were not applied."@,
        ),
        plain("\n"@),
    ]
}

/// What each of the first `n` policies wants.
pub open spec fn contribution_texts(list: Seq<Contribution>, n: nat) -> Seq<Seq<char>>
    decreases n,
{
    if n == 0 || n > list.len() {
        Seq::empty()
    } else {
        contribution_texts(list, (n - 1) as nat).push(
            "policy \""@ + list[n - 1].policy_id@ + "\" sets "@ + list[n - 1].value@,
        )
    }
}

/// The priority of a conflict.
pub open spec fn priority_note(c: Conflict) -> Seq<char> {
    (if c.contributions@.len() == 2 {
        "(both priority "@
    } else {
        "(all priority "@
    }) + decimal(c.priority as nat) + ")"@
}

/// The line on a conflict.
pub open spec fn conflict_line(c: Conflict) -> Seq<char> {
    ("  "@ + c.entity_type@ + " "@ + c.entity_name@ + " "@ + c.field_name@ + ": "@) + (joined(
        contribution_texts(c.contributions@, c.contributions@.len()),
        ", "@,
    ) + " "@ + priority_note(c) + "\n"@)
}

/// The lines on the first `n` conflicts.
pub open spec fn conflict_lines(list: Seq<Conflict>, n: nat) -> Seq<SpanView>
    decreases n,
{
    if n == 0 || n > list.len() {
        Seq::empty()
    } else {
        conflict_lines(list, (n - 1) as nat).push(plain(conflict_line(list[n - 1])))
    }
}

/// What is printed on conflicts.
pub open spec fn conflicts_layout(list: Seq<Conflict>) -> Seq<SpanView> {
    conflict_warning(list.len()) + conflict_lines(list, list.len())
}

/// The warning ahead of `n` conflicts.
fn warning_spans(n: usize) -> (r: Vec<Span>)
    ensures
        span_views(r@) == conflict_warning(n as nat),
{
    let mut out = no_spans();
    let count = decimal_text(n as u64);
    let word = if n == 1 {
        "conflict"
    } else {
        "conflicts"
    };
    push_styled(
        &mut out,
        Style::Yellow,
        cat5(
            "Warning: ",
            count.as_str(),
            " field ",
            word,
            " detected. Conflicting fields were not applied.",
        ),
    );
    push_plain(&mut out, "\n".to_owned());
    assert(span_views(out@) == conflict_warning(n as nat));
    out
}

/// The line on a conflict.
fn conflict_text(c: &Conflict) -> (r: String)
    ensures
        r@ == conflict_line(*c),
{
    let list = &c.contributions;
    let mut texts: Vec<String> = Vec::new();
    let n: usize = list.len();
    let mut i: usize = 0;
    assert(views(texts@) == Seq::<Seq<char>>::empty());
    while i < n
        invariant
            i <= n,
            n == list@.len(),
            views(texts@) == contribution_texts(list@, i as nat),
        decreases n - i,
    {
        push_text(
            &mut texts,
            cat4("policy \"", list[i].policy_id.as_str(), "\" sets ", list[i].value.as_str()),
        );
        i = i + 1;
    }
    let priority = decimal_text(c.priority as u64);
    let note = if n == 2 {
        cat3("(both priority ", priority.as_str(), ")")
    } else {
        cat3("(all priority ", priority.as_str(), ")")
    };
    let all = join(texts.as_slice(), ", ");
    let head = cat7(
        "  ",
        c.entity_type.as_str(),
        " ",
        c.entity_name.as_str(),
        " ",
        c.field_name.as_str(),
        ": ",
    );
    let tail = cat4(all.as_str(), " ", note.as_str(), "\n");
    cat2(head.as_str(), tail.as_str())
}

/// What is printed on conflicts.
pub fn conflict_spans(conflicts: &ConflictReport) -> (r: Vec<Span>)
    ensures
        span_views(r@) == conflicts_layout(conflicts.conflicts@),
{
    let list = &conflicts.conflicts;
    let n: usize = list.len();
    let mut out = warning_spans(n);
    let mut i: usize = 0;
    assert(span_views(out@) == conflict_warning(n as nat) + conflict_lines(list@, 0));
    while i < n
        invariant
            i <= n,
            n == list@.len(),
            span_views(out@) == conflict_warning(n as nat) + conflict_lines(list@, i as nat),
        decreases n - i,
    {
        push_plain(&mut out, conflict_text(&list[i]));
        i = i + 1;
    }
    out
}

/// What is printed on conflicts, on the error stream.
pub fn print_conflicts(conflicts: &ConflictReport) -> (r: String)
    ensures
        rendering(conflicts_layout(conflicts.conflicts@), r@),
{
    let spans = conflict_spans(conflicts);
    render(&spans)
}

// ── Dry runs ─────────────────────────────────────────────────────────────────

/// The line ahead of `n` changes that would be made.
pub open spec fn dry_run_head(n: nat) -> Seq<SpanView> {
    seq![
        styled(
            Style::Yellow,
            "Dry run: "@ + decimal(n) + " "@ + (if n == 1 {
                "change"@
            } else {
                "changes"@
            }) + " would be applied."@,
        ),
        plain("\n"@),
    ]
}

/// The style of a line of a difference, by its first character.
pub open spec fn diff_line_style(line: Seq<char>) -> Style {
    if line.len() > 0 && line[0] == '+' {
        Style::Green
    } else if line.len() > 0 && line[0] == '-' {
        Style::Red
    } else if line.len() > 0 && line[0] == '~' {
        Style::Yellow
    } else {
        Style::Plain
    }
}

/// The first `n` lines of a difference, indented.
pub open spec fn diff_lines(lines: Seq<Seq<char>>, n: nat) -> Seq<SpanView>
    decreases n,
{
    if n == 0 || n > lines.len() {
        Seq::empty()
    } else {
        diff_lines(lines, (n - 1) as nat).push(
            styled(diff_line_style(lines[n - 1]), "  "@ + lines[n - 1]),
        ).push(plain("\n"@))
    }
}

/// What a dry run without the daemon prints: how many changes there are, and the
/// text of the difference.
pub open spec fn dry_run_layout(n: nat, text: Seq<char>, is_empty: bool) -> Seq<SpanView> {
    if is_empty {
        seq![plain("No changes needed (dry run).\n"@)]
    } else {
        dry_run_head(n) + diff_lines(lines_of(text), lines_of(text).len())
    }
}

/// The line ahead of `n` changes that would be made.
fn dry_run_head_spans(n: usize) -> (r: Vec<Span>)
    ensures
        span_views(r@) == dry_run_head(n as nat),
{
    let mut out = no_spans();
    let count = decimal_text(n as u64);
    let word = if n == 1 {
        "change"
    } else {
        "changes"
    };
    push_styled(
        &mut out,
        Style::Yellow,
        cat5("Dry run: ", count.as_str(), " ", word, " would be applied."),
    );
    push_plain(&mut out, "\n".to_owned());
    assert(span_views(out@) == dry_run_head(n as nat));
    out
}

/// What a dry run says where nothing would change.
fn dry_run_empty_spans() -> (r: Vec<Span>)
    ensures
        span_views(r@) == seq![plain("No changes needed (dry run).\n"@)],
{
    let mut out = no_spans();
    push_plain(&mut out, "No changes needed (dry run).\n".to_owned());
    assert(span_views(out@) == seq![plain("No changes needed (dry run).\n"@)]);
    out
}

/// The style of a line of a difference.
fn style_of_diff_line(line: &str) -> (r: Style)
    ensures
        r == diff_line_style(line@),
{
    if line.unicode_len() == 0 {
        return Style::Plain;
    }
    let first = line.get_char(0);
    if first == '+' {
        Style::Green
    } else if first == '-' {
        Style::Red
    } else if first == '~' {
        Style::Yellow
    } else {
        Style::Plain
    }
}

/// What a dry run without the daemon prints.
pub fn dry_run_spans(n: usize, text: &str, is_empty: bool) -> (r: Vec<Span>)
    ensures
        span_views(r@) == dry_run_layout(n as nat, text@, is_empty),
{
    if is_empty {
        return dry_run_empty_spans();
    }
    let lines = split_lines(text);
    let ghost model = str_views(lines@);
    let mut out = dry_run_head_spans(n);
    let count: usize = lines.len();
    let mut i: usize = 0;
    assert(span_views(out@) == dry_run_head(n as nat) + diff_lines(model, 0));
    while i < count
        invariant
            i <= count,
            count == lines@.len(),
            model == str_views(lines@),
            span_views(out@) == dry_run_head(n as nat) + diff_lines(model, i as nat),
        decreases count - i,
    {
        assert(model[i as int] == lines@[i as int]@);
        let style = style_of_diff_line(lines[i]);
        push_styled(&mut out, style, cat2("  ", lines[i]));
        push_plain(&mut out, "\n".to_owned());
        i = i + 1;
    }
    out
}

/// What a dry run without the daemon prints.
pub fn display_dry_run_report(n: usize, text: &str, is_empty: bool) -> (r: String)
    ensures
        rendering(dry_run_layout(n as nat, text@, is_empty), r@),
{
    let spans = dry_run_spans(n, text, is_empty);
    render(&spans)
}

// ── Apply reports ────────────────────────────────────────────────────────────

/// The sign of an operation.
pub open spec fn kind_mark(kind: DiffOpKind) -> SpanView {
    match kind {
        DiffOpKind::Add => styled(Style::Green, "+"@),
        DiffOpKind::Modify => styled(Style::Yellow, "~"@),
        DiffOpKind::Remove => styled(Style::Red, "-"@),
    }
}

/// A sign, an entity, and what is said of it.
pub open spec fn marked_line(
    mark: SpanView,
    entity_type: Seq<char>,
    name: Seq<char>,
    rest: Seq<char>,
) -> Seq<SpanView> {
    seq![plain("  "@), mark, plain(" "@ + entity_type + " "@ + name + rest + "\n"@)]
}

/// The fields that changed, behind a colon.
pub open spec fn fields_text(fields: Seq<Seq<char>>) -> Seq<char> {
    if fields.len() == 0 {
        Seq::empty()
    } else {
        ": "@ + joined(fields, ", "@)
    }
}

/// The lines on the first `n` operations that succeeded.
pub open spec fn succeeded_lines(ops: Seq<AppliedOperation>, n: nat) -> Seq<SpanView>
    decreases n,
{
    if n == 0 || n > ops.len() {
        Seq::empty()
    } else {
        succeeded_lines(ops, (n - 1) as nat) + marked_line(
            kind_mark(ops[n - 1].operation),
            ops[n - 1].entity_type@,
            ops[n - 1].key@,
            fields_text(views(ops[n - 1].fields_changed@)),
        )
    }
}

/// The lines on the first `n` operations that failed.
pub open spec fn failed_lines(ops: Seq<FailedOperation>, n: nat) -> Seq<SpanView>
    decreases n,
{
    if n == 0 || n > ops.len() {
        Seq::empty()
    } else {
        failed_lines(ops, (n - 1) as nat) + marked_line(
            styled(Style::Red, "x"@),
            ops[n - 1].entity_type@,
            ops[n - 1].key@,
            ": "@ + ops[n - 1].error@,
        )
    }
}

/// The lines on the first `n` operations that were skipped.
pub open spec fn skipped_lines(ops: Seq<SkippedOperation>, n: nat) -> Seq<SpanView>
    decreases n,
{
    if n == 0 || n > ops.len() {
        Seq::empty()
    } else {
        skipped_lines(ops, (n - 1) as nat) + marked_line(
            styled(Style::Dimmed, "s"@),
            ops[n - 1].entity_type@,
            ops[n - 1].key@,
            ": "@ + ops[n - 1].reason@,
        )
    }
}

/// How many of the first `n` operations are of a kind.
pub open spec fn kind_count(ops: Seq<AppliedOperation>, kind: DiffOpKind, n: nat) -> nat
    decreases n,
{
    if n == 0 || n > ops.len() {
        0
    } else {
        let before = kind_count(ops, kind, (n - 1) as nat);
        if ops[n - 1].operation == kind {
            before + 1
        } else {
            before
        }
    }
}

/// The counts of the kinds of operation that occur.
pub open spec fn kind_counts(ops: Seq<AppliedOperation>) -> Seq<Seq<char>> {
    counted(""@, kind_count(ops, DiffOpKind::Add, ops.len()), " added"@) + counted(
        ""@,
        kind_count(ops, DiffOpKind::Modify, ops.len()),
        " modified"@,
    ) + counted(""@, kind_count(ops, DiffOpKind::Remove, ops.len()), " removed"@)
}

/// The counts of the kinds of operation that occur, in brackets.
pub open spec fn kinds_suffix(ops: Seq<AppliedOperation>) -> Seq<char> {
    if kind_counts(ops).len() == 0 {
        Seq::empty()
    } else {
        " ("@ + joined(kind_counts(ops), ", "@) + ")"@
    }
}

/// The last line of a report; none where nothing succeeded or failed.
pub open spec fn summary_line(report: ApplyReport) -> Seq<SpanView> {
    let succeeded = report.succeeded@.len();
    let failed = report.failed@.len();
    if failed == 0 && succeeded == 0 {
        Seq::empty()
    } else if failed == 0 {
        seq![
            styled(
                Style::Green,
                "Applied "@ + decimal(succeeded) + " changes"@ + kinds_suffix(report.succeeded@)
                    + "."@,
            ),
            plain("\n"@),
        ]
    } else if succeeded > 0 {
        seq![
            styled(
                Style::Yellow,
                "Applied "@ + decimal(succeeded) + " of "@ + decimal(
                    succeeded + failed + report.skipped@.len(),
                ) + " changes. "@ + decimal(failed) + " failed."@,
            ),
            plain("\n"@),
        ]
    } else {
        seq![styled(Style::Red, "All "@ + decimal(failed) + " changes failed."@), plain("\n"@)]
    }
}

/// What a report prints on the standard stream.
pub open spec fn report_layout(report: ApplyReport) -> Seq<SpanView> {
    succeeded_lines(report.succeeded@, report.succeeded@.len()) + failed_lines(
        report.failed@,
        report.failed@.len(),
    ) + skipped_lines(report.skipped@, report.skipped@.len()) + summary_line(report)
}

/// Appends a sign, an entity, and what is said of it.
pub fn push_marked_line(
    out: &mut Vec<Span>,
    style: Style,
    mark: &str,
    entity_type: &str,
    name: &str,
    rest: &str,
)
    ensures
        span_views(final(out)@) == span_views(old(out)@) + marked_line(
            styled(style, mark@),
            entity_type@,
            name@,
            rest@,
        ),
{
    push_plain(out, "  ".to_owned());
    push_styled(out, style, mark.to_owned());
    push_plain(out, cat6(" ", entity_type, " ", name, rest, "\n"));
    assert(span_views(out@) == span_views(old(out)@) + marked_line(
        styled(style, mark@),
        entity_type@,
        name@,
        rest@,
    ));
}

/// The fields that changed, behind a colon.
fn fields_suffix(fields: &Vec<String>) -> (r: String)
    ensures
        r@ == fields_text(views(fields@)),
{
    assert(views(fields@).len() == fields@.len());
    if fields.len() == 0 {
        String::new()
    } else {
        let all = join(fields.as_slice(), ", ");
        cat2(": ", all.as_str())
    }
}

/// The lines on the operations that succeeded.
fn succeeded_spans(ops: &Vec<AppliedOperation>) -> (r: Vec<Span>)
    ensures
        span_views(r@) == succeeded_lines(ops@, ops@.len()),
{
    let mut out = no_spans();
    let n: usize = ops.len();
    let mut i: usize = 0;
    while i < n
        invariant
            i <= n,
            n == ops@.len(),
            span_views(out@) == succeeded_lines(ops@, i as nat),
        decreases n - i,
    {
        let op = &ops[i];
        let fields = fields_suffix(&op.fields_changed);
        let entity_type = op.entity_type.as_str();
        let key = op.key.as_str();
        match op.operation {
            DiffOpKind::Add => push_marked_line(
                &mut out,
                Style::Green,
                "+",
                entity_type,
                key,
                fields.as_str(),
            ),
            DiffOpKind::Modify => push_marked_line(
                &mut out,
                Style::Yellow,
                "~",
                entity_type,
                key,
                fields.as_str(),
            ),
            DiffOpKind::Remove => push_marked_line(
                &mut out,
                Style::Red,
                "-",
                entity_type,
                key,
                fields.as_str(),
            ),
        }
        i = i + 1;
    }
    out
}

/// The lines on the operations that failed.
fn failed_spans(ops: &Vec<FailedOperation>) -> (r: Vec<Span>)
    ensures
        span_views(r@) == failed_lines(ops@, ops@.len()),
{
    let mut out = no_spans();
    let n: usize = ops.len();
    let mut i: usize = 0;
    while i < n
        invariant
            i <= n,
            n == ops@.len(),
            span_views(out@) == failed_lines(ops@, i as nat),
        decreases n - i,
    {
        let op = &ops[i];
        let rest = cat2(": ", op.error.as_str());
        push_marked_line(
            &mut out,
            Style::Red,
            "x",
            op.entity_type.as_str(),
            op.key.as_str(),
            rest.as_str(),
        );
        i = i + 1;
    }
    out
}

/// The lines on the operations that were skipped.
fn skipped_spans(ops: &Vec<SkippedOperation>) -> (r: Vec<Span>)
    ensures
        span_views(r@) == skipped_lines(ops@, ops@.len()),
{
    let mut out = no_spans();
    let n: usize = ops.len();
    let mut i: usize = 0;
    while i < n
        invariant
            i <= n,
            n == ops@.len(),
            span_views(out@) == skipped_lines(ops@, i as nat),
        decreases n - i,
    {
        let op = &ops[i];
        let rest = cat2(": ", op.reason.as_str());
        push_marked_line(
            &mut out,
            Style::Dimmed,
            "s",
            op.entity_type.as_str(),
            op.key.as_str(),
            rest.as_str(),
        );
        i = i + 1;
    }
    out
}

/// How many operations are of a kind.
fn count_of_kind(ops: &Vec<AppliedOperation>, kind: DiffOpKind) -> (r: usize)
    ensures
        r == kind_count(ops@, kind, ops@.len()),
{
    let mut count: usize = 0;
    let n: usize = ops.len();
    let mut i: usize = 0;
    while i < n
        invariant
            i <= n,
            n == ops@.len(),
            count <= i,
            count == kind_count(ops@, kind, i as nat),
        decreases n - i,
    {
        if ops[i].operation == kind {
            count = count + 1;
        }
        i = i + 1;
    }
    count
}

/// The counts of the kinds of operation that occur, in brackets.
fn kinds_text(ops: &Vec<AppliedOperation>) -> (r: String)
    ensures
        r@ == kinds_suffix(ops@),
{
    let mut parts: Vec<String> = Vec::new();
    assert(views(parts@) == Seq::<Seq<char>>::empty());
    push_count(&mut parts, "", count_of_kind(ops, DiffOpKind::Add), " added");
    push_count(&mut parts, "", count_of_kind(ops, DiffOpKind::Modify), " modified");
    push_count(&mut parts, "", count_of_kind(ops, DiffOpKind::Remove), " removed");
    assert(views(parts@) == kind_counts(ops@));
    assert(views(parts@).len() == parts@.len());
    if parts.len() == 0 {
        String::new()
    } else {
        let all = join(parts.as_slice(), ", ");
        cat3(" (", all.as_str(), ")")
    }
}

/// The last line of a report.
fn summary_spans(report: &ApplyReport) -> (r: Vec<Span>)
    ensures
        span_views(r@) == summary_line(*report),
{
    let mut out = no_spans();
    let succeeded: usize = report.succeeded.len();
    let failed: usize = report.failed.len();
    if failed == 0 && succeeded == 0 {
        return out;
    }
    if failed == 0 {
        let count = decimal_text(succeeded as u64);
        let kinds = kinds_text(&report.succeeded);
        push_styled(
            &mut out,
            Style::Green,
            cat5("Applied ", count.as_str(), " changes", kinds.as_str(), "."),
        );
    } else if succeeded > 0 {
        let count = decimal_text(succeeded as u64);
        let bad = decimal_text(failed as u64);
        let total = decimal_wide(
            succeeded as u128 + failed as u128 + report.skipped.len() as u128,
        );
        push_styled(
            &mut out,
            Style::Yellow,
            cat7(
                "Applied ",
                count.as_str(),
                " of ",
                total.as_str(),
                " changes. ",
                bad.as_str(),
                " failed.",
            ),
        );
    } else {
        let bad = decimal_text(failed as u64);
        push_styled(&mut out, Style::Red, cat3("All ", bad.as_str(), " changes failed."));
    }
    push_plain(&mut out, "\n".to_owned());
    assert(span_views(out@) == summary_line(*report));
    out
}

/// What a report prints on the standard stream.
pub fn report_spans(report: &ApplyReport) -> (r: Vec<Span>)
    ensures
        span_views(r@) == report_layout(*report),
{
    let mut out = succeeded_spans(&report.succeeded);
    push_all(&mut out, failed_spans(&report.failed));
    push_all(&mut out, skipped_spans(&report.skipped));
    push_all(&mut out, summary_spans(report));
    out
}

/// What a report prints: the conflicts on the error stream, the rest on the
/// standard stream.
pub fn display_apply_report(report: &ApplyReport, conflicts: &ConflictReport) -> (r: Printed)
    ensures
        rendering(report_layout(*report), r.stdout@),
        if conflicts.conflicts@.len() == 0 {
            r.stderr@ == Seq::<char>::empty()
        } else {
            rendering(conflicts_layout(conflicts.conflicts@), r.stderr@)
        },
{
    let stderr = if conflicts.conflicts.len() == 0 {
        String::new()
    } else {
        print_conflicts(conflicts)
    };
    let spans = report_spans(report);
    Printed { stderr, stdout: render(&spans) }
}

// ── Reports of the daemon ────────────────────────────────────────────────────

/// The texts of a list, each as it is written in source code.
pub open spec fn debug_texts(list: Seq<Seq<char>>) -> Seq<Seq<char>> {
    list.map_values(|s: Seq<char>| debug_text(s))
}

/// A list of texts as it is written in source code.
pub open spec fn debug_list(list: Seq<Seq<char>>) -> Seq<char> {
    "["@ + joined(debug_texts(list), ", "@) + "]"@
}

/// The line on a conflict that the daemon reports.
pub open spec fn daemon_conflict_line(c: VarlinkConflictEntry) -> Seq<char> {
    ("  "@ + c.entity_type@ + " "@ + c.entity_name@ + " "@ + c.field_name@ + ": "@) + (debug_list(
        views(c.policies@),
    ) + " -> "@ + debug_list(views(c.values@)) + "\n"@)
}

/// The lines on the first `n` conflicts that the daemon reports.
pub open spec fn daemon_conflict_lines(list: Seq<VarlinkConflictEntry>, n: nat) -> Seq<SpanView>
    decreases n,
{
    if n == 0 || n > list.len() {
        Seq::empty()
    } else {
        daemon_conflict_lines(list, (n - 1) as nat).push(plain(daemon_conflict_line(list[n - 1])))
    }
}

/// What is printed on the conflicts that the daemon reports.
pub open spec fn daemon_conflicts_layout(list: Seq<VarlinkConflictEntry>) -> Seq<SpanView> {
    conflict_warning(list.len()) + daemon_conflict_lines(list, list.len())
}

/// The sign of a change that was applied, by its kind.
pub open spec fn daemon_kind_mark(kind: Seq<char>) -> SpanView {
    if kind == "add"@ {
        styled(Style::Green, "+"@)
    } else if kind == "modify"@ {
        styled(Style::Yellow, "~"@)
    } else if kind == "remove"@ {
        styled(Style::Red, "-"@)
    } else {
        styled(Style::Plain, "?"@)
    }
}

/// The line on a change that the daemon reports. One of unknown status has no
/// description.
pub open spec fn daemon_change_line(entry: VarlinkChangeEntry) -> Seq<SpanView> {
    let described = ": "@ + entry.description@;
    if entry.status@ == "applied"@ {
        marked_line(
            daemon_kind_mark(entry.kind@),
            entry.entity_type@,
            entry.entity_name@,
            described,
        )
    } else if entry.status@ == "failed"@ {
        marked_line(
            styled(Style::Red, "x"@),
            entry.entity_type@,
            entry.entity_name@,
            described,
        )
    } else if entry.status@ == "skipped"@ {
        marked_line(
            styled(Style::Dimmed, "s"@),
            entry.entity_type@,
            entry.entity_name@,
            described,
        )
    } else {
        marked_line(styled(Style::Plain, "?"@), entry.entity_type@, entry.entity_name@, ""@)
    }
}

/// The lines on the first `n` changes that the daemon reports.
pub open spec fn daemon_change_lines(list: Seq<VarlinkChangeEntry>, n: nat) -> Seq<SpanView>
    decreases n,
{
    if n == 0 || n > list.len() {
        Seq::empty()
    } else {
        daemon_change_lines(list, (n - 1) as nat) + daemon_change_line(list[n - 1])
    }
}

/// What became of the changes of a daemon, by its counts.
pub open spec fn daemon_outcome(succeeded: int, failed: int) -> (Style, Seq<char>) {
    if failed == 0 {
        (Style::Green, "Applied "@ + decimal_int(succeeded) + " changes."@)
    } else if succeeded > 0 {
        (
            Style::Yellow,
            "Applied "@ + decimal_int(succeeded) + " of "@ + decimal_int(succeeded + failed)
                + " changes. "@ + decimal_int(failed) + " failed."@,
        )
    } else {
        (Style::Red, "All "@ + decimal_int(failed) + " changes failed."@)
    }
}

/// The last line of a report of the daemon.
pub open spec fn daemon_summary(report: VarlinkApplyReport, policies: nat) -> Seq<SpanView> {
    let outcome = daemon_outcome(report.succeeded as int, report.failed as int);
    seq![
        styled(
            outcome.0,
            "Submitted "@ + decimal(policies) + (if policies == 1 {
                " policy"@
            } else {
                " policies"@
            }) + " to daemon. "@ + outcome.1,
        ),
        plain("\n"@),
    ]
}

/// What a report of the daemon prints on the standard stream.
pub open spec fn daemon_report_layout(report: VarlinkApplyReport, policies: nat) -> Seq<SpanView> {
    daemon_change_lines(report.changes@, report.changes@.len()) + daemon_summary(report, policies)
}

/// A list of texts as it is written in source code.
fn debug_strings(list: &Vec<String>) -> (r: String)
    ensures
        r@ == debug_list(views(list@)),
{
    let ghost model = debug_texts(views(list@));
    let mut texts: Vec<String> = Vec::new();
    let n: usize = list.len();
    let mut i: usize = 0;
    assert(views(texts@) == model.take(0));
    while i < n
        invariant
            i <= n,
            n == list@.len(),
            model == debug_texts(views(list@)),
            views(texts@) == model.take(i as int),
        decreases n - i,
    {
        let text = debug_str(list[i].as_str());
        assert(model[i as int] == text@);
        assert(model.take(i + 1) == model.take(i as int).push(model[i as int]));
        push_text(&mut texts, text);
        i = i + 1;
    }
    assert(model.take(n as int) == model);
    let all = join(texts.as_slice(), ", ");
    cat3("[", all.as_str(), "]")
}

/// What is printed on the conflicts that the daemon reports.
pub fn daemon_conflict_spans(list: &Vec<VarlinkConflictEntry>) -> (r: Vec<Span>)
    ensures
        span_views(r@) == daemon_conflicts_layout(list@),
{
    let n: usize = list.len();
    let mut out = warning_spans(n);
    let mut i: usize = 0;
    assert(span_views(out@) == conflict_warning(n as nat) + daemon_conflict_lines(list@, 0));
    while i < n
        invariant
            i <= n,
            n == list@.len(),
            span_views(out@) == conflict_warning(n as nat) + daemon_conflict_lines(
                list@,
                i as nat,
            ),
        decreases n - i,
    {
        let c = &list[i];
        let policies = debug_strings(&c.policies);
        let values = debug_strings(&c.values);
        let head = cat7(
            "  ",
            c.entity_type.as_str(),
            " ",
            c.entity_name.as_str(),
            " ",
            c.field_name.as_str(),
            ": ",
        );
        let tail = cat4(policies.as_str(), " -> ", values.as_str(), "\n");
        push_plain(&mut out, cat2(head.as_str(), tail.as_str()));
        i = i + 1;
    }
    out
}

/// Appends the line on a change that the daemon reports.
fn push_daemon_change(out: &mut Vec<Span>, entry: &VarlinkChangeEntry)
    ensures
        span_views(final(out)@) == span_views(old(out)@) + daemon_change_line(*entry),
{
    let described = cat2(": ", entry.description.as_str());
    let status = entry.status.as_str();
    let entity_type = entry.entity_type.as_str();
    let name = entry.entity_name.as_str();
    if same(status, "applied") {
        let kind = entry.kind.as_str();
        if same(kind, "add") {
            push_marked_line(out, Style::Green, "+", entity_type, name, described.as_str());
        } else if same(kind, "modify") {
            push_marked_line(out, Style::Yellow, "~", entity_type, name, described.as_str());
        } else if same(kind, "remove") {
            push_marked_line(out, Style::Red, "-", entity_type, name, described.as_str());
        } else {
            push_marked_line(out, Style::Plain, "?", entity_type, name, described.as_str());
        }
    } else if same(status, "failed") {
        push_marked_line(out, Style::Red, "x", entity_type, name, described.as_str());
    } else if same(status, "skipped") {
        push_marked_line(out, Style::Dimmed, "s", entity_type, name, described.as_str());
    } else {
        push_marked_line(out, Style::Plain, "?", entity_type, name, "");
    }
}

/// The lines on the changes that the daemon reports.
pub fn daemon_change_spans(list: &Vec<VarlinkChangeEntry>) -> (r: Vec<Span>)
    ensures
        span_views(r@) == daemon_change_lines(list@, list@.len()),
{
    let mut out = no_spans();
    let n: usize = list.len();
    let mut i: usize = 0;
    while i < n
        invariant
            i <= n,
            n == list@.len(),
            span_views(out@) == daemon_change_lines(list@, i as nat),
        decreases n - i,
    {
        push_daemon_change(&mut out, &list[i]);
        i = i + 1;
    }
    out
}

/// What became of the changes of a daemon, by its counts.
pub fn daemon_outcome_text(succeeded: i64, failed: i64) -> (r: (Style, String))
    ensures
        (r.0, r.1@) == daemon_outcome(succeeded as int, failed as int),
{
    let good = decimal_int_text(succeeded);
    let bad = decimal_int_text(failed);
    if failed == 0 {
        (Style::Green, cat3("Applied ", good.as_str(), " changes."))
    } else if succeeded > 0 {
        let total = decimal_sum_text(succeeded, failed);
        (
            Style::Yellow,
            cat7(
                "Applied ",
                good.as_str(),
                " of ",
                total.as_str(),
                " changes. ",
                bad.as_str(),
                " failed.",
            ),
        )
    } else {
        (Style::Red, cat3("All ", bad.as_str(), " changes failed."))
    }
}

/// What a report of the daemon prints on the standard stream.
pub fn daemon_report_spans(report: &VarlinkApplyReport, policy_count: usize) -> (r: Vec<Span>)
    ensures
        span_views(r@) == daemon_report_layout(*report, policy_count as nat),
{
    let mut out = daemon_change_spans(&report.changes);
    let count = decimal_text(policy_count as u64);
    let word = if policy_count == 1 {
        " policy"
    } else {
        " policies"
    };
    let (style, outcome) = daemon_outcome_text(report.succeeded, report.failed);
    push_styled(
        &mut out,
        style,
        cat5("Submitted ", count.as_str(), word, " to daemon. ", outcome.as_str()),
    );
    push_plain(&mut out, "\n".to_owned());
    assert(span_views(out@) == daemon_report_layout(*report, policy_count as nat));
    out
}

/// What a report of the daemon prints: the conflicts on the error stream, the rest
/// on the standard stream.
pub fn display_varlink_apply_report(report: &VarlinkApplyReport, policy_count: usize) -> (r:
    Printed)
    ensures
        rendering(daemon_report_layout(*report, policy_count as nat), r.stdout@),
        if report.conflicts@.len() == 0 {
            r.stderr@ == Seq::<char>::empty()
        } else {
            rendering(daemon_conflicts_layout(report.conflicts@), r.stderr@)
        },
{
    let stderr = if report.conflicts.len() == 0 {
        String::new()
    } else {
        let warning = daemon_conflict_spans(&report.conflicts);
        render(&warning)
    };
    let spans = daemon_report_spans(report, policy_count);
    Printed { stderr, stdout: render(&spans) }
}

// ── Dry runs of the daemon ───────────────────────────────────────────────────

/// An entity ahead of its fields.
pub open spec fn entity_line(style: Style, mark: Seq<char>, entity: Seq<char>) -> Seq<SpanView> {
    seq![plain("  "@), styled(style, mark + " "@ + entity), plain("\n"@)]
}

/// A change of a field.
pub open spec fn change_line(style: Style, text: Seq<char>) -> Seq<SpanView> {
    seq![plain("  "@), styled(style, text), plain("\n"@)]
}

/// The line on a field that is set; its old value is shown where it has one.
pub open spec fn set_line(
    field: Seq<char>,
    current: Option<Seq<char>>,
    desired: Seq<char>,
) -> Seq<SpanView> {
    match current {
        Some(old_value) => change_line(
            Style::Yellow,
            "~   "@ + field + ": "@ + old_value + " \u{2192} "@ + desired,
        ),
        None => change_line(Style::Green, "+   "@ + field + ": "@ + desired),
    }
}

/// The line on a field that is removed.
pub open spec fn unset_line(field: Seq<char>, current: Seq<char>) -> Seq<SpanView> {
    change_line(Style::Red, "-   "@ + field + ": "@ + current)
}

/// The line on a field that the daemon plans to change; none for an unknown kind
/// of change.
pub open spec fn daemon_field_line(change: VarlinkFieldChange) -> Seq<SpanView> {
    if change.change_kind@ == "set"@ {
        set_line(
            change.field_name@,
            match change.current {
                Some(j) => Some(compact(j)),
                None => None,
            },
            compact_or_nothing(change.desired),
        )
    } else if change.change_kind@ == "unset"@ {
        unset_line(change.field_name@, compact_or_nothing(change.current))
    } else if change.change_kind@ == "unchanged"@ {
        seq![
            plain("      "@ + change.field_name@ + ": "@ + compact_or_nothing(change.current) + "\n"@),
        ]
    } else {
        Seq::empty()
    }
}

/// The lines on the first `n` fields of an operation.
pub open spec fn daemon_field_lines(changes: Seq<VarlinkFieldChange>, n: nat) -> Seq<SpanView>
    decreases n,
{
    if n == 0 || n > changes.len() {
        Seq::empty()
    } else {
        daemon_field_lines(changes, (n - 1) as nat) + daemon_field_line(changes[n - 1])
    }
}

/// The line on the entity of an operation.
pub open spec fn daemon_entity_line(op: VarlinkDiffOperation) -> Seq<SpanView> {
    let entity = op.entity_type@ + " "@ + op.entity_name@;
    if op.kind@ == "add"@ {
        entity_line(Style::Green, "+"@, entity)
    } else if op.kind@ == "remove"@ {
        entity_line(Style::Red, "-"@, entity)
    } else {
        entity_line(Style::Yellow, "~"@, entity)
    }
}

/// The lines on the first `n` operations that the daemon plans.
pub open spec fn daemon_plan_lines(ops: Seq<VarlinkDiffOperation>, n: nat) -> Seq<SpanView>
    decreases n,
{
    if n == 0 || n > ops.len() {
        Seq::empty()
    } else {
        daemon_plan_lines(ops, (n - 1) as nat) + daemon_entity_line(ops[n - 1])
            + daemon_field_lines(ops[n - 1].field_changes@, ops[n - 1].field_changes@.len())
    }
}

/// What a dry run of the daemon prints.
pub open spec fn daemon_plan_layout(diff: VarlinkStateDiff, is_empty: bool) -> Seq<SpanView> {
    if is_empty {
        seq![plain("No changes needed (dry run).\n"@)]
    } else {
        dry_run_head(diff.operations@.len()) + daemon_plan_lines(
            diff.operations@,
            diff.operations@.len(),
        )
    }
}

/// Appends an entity ahead of its fields.
pub fn push_entity_line(
    out: &mut Vec<Span>,
    style: Style,
    mark: &str,
    entity_type: &str,
    name: &str,
)
    ensures
        span_views(final(out)@) == span_views(old(out)@) + entity_line(
            style,
            mark@,
            entity_type@ + " "@ + name@,
        ),
{
    let entity = cat3(entity_type, " ", name);
    push_plain(out, "  ".to_owned());
    push_styled(out, style, cat3(mark, " ", entity.as_str()));
    push_plain(out, "\n".to_owned());
    assert(span_views(out@) == span_views(old(out)@) + entity_line(style, mark@, entity@));
}

/// Appends a change of a field.
fn push_change_line(out: &mut Vec<Span>, style: Style, text: String)
    ensures
        span_views(final(out)@) == span_views(old(out)@) + change_line(style, text@),
{
    let ghost model = text@;
    push_plain(out, "  ".to_owned());
    push_styled(out, style, text);
    push_plain(out, "\n".to_owned());
    assert(span_views(out@) == span_views(old(out)@) + change_line(style, model));
}

/// Appends the line on a field that is set.
pub fn push_set_line(out: &mut Vec<Span>, field: &str, current: Option<&str>, desired: &str)
    ensures
        span_views(final(out)@) == span_views(old(out)@) + set_line(
            field@,
            match current {
                Some(c) => Some(c@),
                None => None,
            },
            desired@,
        ),
{
    match current {
        Some(c) => push_change_line(
            out,
            Style::Yellow,
            cat6("~   ", field, ": ", c, " \u{2192} ", desired),
        ),
        None => push_change_line(out, Style::Green, cat4("+   ", field, ": ", desired)),
    }
}

/// Appends the line on a field that is removed.
pub fn push_unset_line(out: &mut Vec<Span>, field: &str, current: &str)
    ensures
        span_views(final(out)@) == span_views(old(out)@) + unset_line(field@, current@),
{
    push_change_line(out, Style::Red, cat4("-   ", field, ": ", current));
}

/// Appends the line on a field that the daemon plans to change.
fn push_daemon_field(out: &mut Vec<Span>, change: &VarlinkFieldChange)
    ensures
        span_views(final(out)@) == span_views(old(out)@) + daemon_field_line(*change),
{
    let kind = change.change_kind.as_str();
    let field = change.field_name.as_str();
    if same(kind, "set") {
        let desired = json_or_nothing(&change.desired);
        match &change.current {
            Some(j) => {
                let current = json_compact(j);
                push_set_line(out, field, Some(current.as_str()), desired.as_str());
            },
            None => push_set_line(out, field, None, desired.as_str()),
        }
    } else if same(kind, "unset") {
        let current = json_or_nothing(&change.current);
        push_unset_line(out, field, current.as_str());
    } else if same(kind, "unchanged") {
        let current = json_or_nothing(&change.current);
        push_plain(out, cat5("      ", field, ": ", current.as_str(), "\n"));
        assert(span_views(out@) == span_views(old(out)@) + daemon_field_line(*change));
    } else {
        assert(span_views(out@) == span_views(old(out)@) + daemon_field_line(*change));
    }
}

/// Appends the lines on an operation that the daemon plans.
fn push_daemon_operation(out: &mut Vec<Span>, op: &VarlinkDiffOperation)
    ensures
        span_views(final(out)@) == span_views(old(out)@) + daemon_entity_line(*op)
            + daemon_field_lines(op.field_changes@, op.field_changes@.len()),
{
    let entity_type = op.entity_type.as_str();
    let name = op.entity_name.as_str();
    if same(op.kind.as_str(), "add") {
        push_entity_line(out, Style::Green, "+", entity_type, name);
    } else if same(op.kind.as_str(), "remove") {
        push_entity_line(out, Style::Red, "-", entity_type, name);
    } else {
        push_entity_line(out, Style::Yellow, "~", entity_type, name);
    }
    let ghost head = span_views(out@);
    let changes = &op.field_changes;
    let n: usize = changes.len();
    let mut i: usize = 0;
    assert(span_views(out@) == head + daemon_field_lines(changes@, 0));
    while i < n
        invariant
            i <= n,
            n == changes@.len(),
            span_views(out@) == head + daemon_field_lines(changes@, i as nat),
        decreases n - i,
    {
        push_daemon_field(out, &changes[i]);
        i = i + 1;
    }
}

/// What a dry run of the daemon prints.
pub fn daemon_plan_spans(diff: &VarlinkStateDiff, is_empty: bool) -> (r: Vec<Span>)
    ensures
        span_views(r@) == daemon_plan_layout(*diff, is_empty),
{
    if is_empty {
        return dry_run_empty_spans();
    }
    let ops = &diff.operations;
    let n: usize = ops.len();
    let mut out = dry_run_head_spans(n);
    let mut i: usize = 0;
    assert(span_views(out@) == dry_run_head(n as nat) + daemon_plan_lines(ops@, 0));
    while i < n
        invariant
            i <= n,
            n == ops@.len(),
            span_views(out@) == dry_run_head(n as nat) + daemon_plan_lines(ops@, i as nat),
        decreases n - i,
    {
        push_daemon_operation(&mut out, &ops[i]);
        i = i + 1;
    }
    out
}

/// What a dry run of the daemon prints.
pub fn display_varlink_diff(diff: &VarlinkStateDiff, is_empty: bool) -> (r: String)
    ensures
        rendering(daemon_plan_layout(*diff, is_empty), r@),
{
    let spans = daemon_plan_spans(diff, is_empty);
    render(&spans)
}

// ── Laws ─────────────────────────────────────────────────────────────────────

/// The preview of some operations and others behind them is that of the first,
/// then that of the others: no operation is left out or shown otherwise for
/// where it stands.
pub proof fn plan_of_parts(
    a: Seq<VarlinkDiffOperation>,
    b: Seq<VarlinkDiffOperation>,
)
    ensures
        daemon_plan_lines(a + b, (a + b).len()) == daemon_plan_lines(a, a.len()) + daemon_plan_lines(b, b.len()),
{
    lemma_plan_of_parts(a, b, b.len());
}

/// The first elements give the same whatever stands behind them.
proof fn lemma_plan_of_parts_start(
    a: Seq<VarlinkDiffOperation>,
    b: Seq<VarlinkDiffOperation>,
    n: nat,
)
    requires
        n <= a.len(),
    ensures
        daemon_plan_lines(a + b, n) == daemon_plan_lines(a, n),
    decreases n,
{
    if n > 0 {
        lemma_plan_of_parts_start(a, b, (n - 1) as nat);
        assert((a + b)[n - 1] == a[n - 1]);
    }
}

/// The first `m` elements of the second part follow all of the first part.
proof fn lemma_plan_of_parts(
    a: Seq<VarlinkDiffOperation>,
    b: Seq<VarlinkDiffOperation>,
    m: nat,
)
    requires
        m <= b.len(),
    ensures
        daemon_plan_lines(a + b, a.len() + m) == daemon_plan_lines(a, a.len()) + daemon_plan_lines(b, m),
    decreases m,
{
    if m == 0 {
        lemma_plan_of_parts_start(a, b, a.len());
    } else {
        lemma_plan_of_parts(a, b, (m - 1) as nat);
        assert((a + b)[a.len() + m - 1] == b[m - 1]);
    }
}

/// The lines on some fields and others behind them are those on the first,
/// then those on the others.
pub proof fn plan_fields_of_parts(
    a: Seq<VarlinkFieldChange>,
    b: Seq<VarlinkFieldChange>,
)
    ensures
        daemon_field_lines(a + b, (a + b).len()) == daemon_field_lines(a, a.len()) + daemon_field_lines(b, b.len()),
{
    lemma_plan_fields_of_parts(a, b, b.len());
}

/// The first elements give the same whatever stands behind them.
proof fn lemma_plan_fields_of_parts_start(
    a: Seq<VarlinkFieldChange>,
    b: Seq<VarlinkFieldChange>,
    n: nat,
)
    requires
        n <= a.len(),
    ensures
        daemon_field_lines(a + b, n) == daemon_field_lines(a, n),
    decreases n,
{
    if n > 0 {
        lemma_plan_fields_of_parts_start(a, b, (n - 1) as nat);
        assert((a + b)[n - 1] == a[n - 1]);
    }
}

/// The first `m` elements of the second part follow all of the first part.
proof fn lemma_plan_fields_of_parts(
    a: Seq<VarlinkFieldChange>,
    b: Seq<VarlinkFieldChange>,
    m: nat,
)
    requires
        m <= b.len(),
    ensures
        daemon_field_lines(a + b, a.len() + m) == daemon_field_lines(a, a.len()) + daemon_field_lines(b, m),
    decreases m,
{
    if m == 0 {
        lemma_plan_fields_of_parts_start(a, b, a.len());
    } else {
        lemma_plan_fields_of_parts(a, b, (m - 1) as nat);
        assert((a + b)[a.len() + m - 1] == b[m - 1]);
    }
}

/// The lines on some changes and others behind them are those on the first,
/// then those on the others.
pub proof fn daemon_changes_of_parts(
    a: Seq<VarlinkChangeEntry>,
    b: Seq<VarlinkChangeEntry>,
)
    ensures
        daemon_change_lines(a + b, (a + b).len()) == daemon_change_lines(a, a.len()) + daemon_change_lines(b, b.len()),
{
    lemma_daemon_changes_of_parts(a, b, b.len());
}

/// The first elements give the same whatever stands behind them.
proof fn lemma_daemon_changes_of_parts_start(
    a: Seq<VarlinkChangeEntry>,
    b: Seq<VarlinkChangeEntry>,
    n: nat,
)
    requires
        n <= a.len(),
    ensures
        daemon_change_lines(a + b, n) == daemon_change_lines(a, n),
    decreases n,
{
    if n > 0 {
        lemma_daemon_changes_of_parts_start(a, b, (n - 1) as nat);
        assert((a + b)[n - 1] == a[n - 1]);
    }
}

/// The first `m` elements of the second part follow all of the first part.
proof fn lemma_daemon_changes_of_parts(
    a: Seq<VarlinkChangeEntry>,
    b: Seq<VarlinkChangeEntry>,
    m: nat,
)
    requires
        m <= b.len(),
    ensures
        daemon_change_lines(a + b, a.len() + m) == daemon_change_lines(a, a.len()) + daemon_change_lines(b, m),
    decreases m,
{
    if m == 0 {
        lemma_daemon_changes_of_parts_start(a, b, a.len());
    } else {
        lemma_daemon_changes_of_parts(a, b, (m - 1) as nat);
        assert((a + b)[a.len() + m - 1] == b[m - 1]);
    }
}

/// The lines on some conflicts and others behind them are those on the first,
/// then those on the others.
pub proof fn daemon_conflicts_of_parts(
    a: Seq<VarlinkConflictEntry>,
    b: Seq<VarlinkConflictEntry>,
)
    ensures
        daemon_conflict_lines(a + b, (a + b).len()) == daemon_conflict_lines(a, a.len()) + daemon_conflict_lines(b, b.len()),
{
    lemma_daemon_conflicts_of_parts(a, b, b.len());
}

/// The first elements give the same whatever stands behind them.
proof fn lemma_daemon_conflicts_of_parts_start(
    a: Seq<VarlinkConflictEntry>,
    b: Seq<VarlinkConflictEntry>,
    n: nat,
)
    requires
        n <= a.len(),
    ensures
        daemon_conflict_lines(a + b, n) == daemon_conflict_lines(a, n),
    decreases n,
{
    if n > 0 {
        lemma_daemon_conflicts_of_parts_start(a, b, (n - 1) as nat);
        assert((a + b)[n - 1] == a[n - 1]);
    }
}

/// The first `m` elements of the second part follow all of the first part.
proof fn lemma_daemon_conflicts_of_parts(
    a: Seq<VarlinkConflictEntry>,
    b: Seq<VarlinkConflictEntry>,
    m: nat,
)
    requires
        m <= b.len(),
    ensures
        daemon_conflict_lines(a + b, a.len() + m) == daemon_conflict_lines(a, a.len()) + daemon_conflict_lines(b, m),
    decreases m,
{
    if m == 0 {
        lemma_daemon_conflicts_of_parts_start(a, b, a.len());
    } else {
        lemma_daemon_conflicts_of_parts(a, b, (m - 1) as nat);
        assert((a + b)[a.len() + m - 1] == b[m - 1]);
    }
}

/// The lines on some conflicts and others behind them are those on the first,
/// then those on the others.
pub proof fn conflicts_of_parts(
    a: Seq<Conflict>,
    b: Seq<Conflict>,
)
    ensures
        conflict_lines(a + b, (a + b).len()) == conflict_lines(a, a.len()) + conflict_lines(b, b.len()),
{
    lemma_conflicts_of_parts(a, b, b.len());
}

/// The first elements give the same whatever stands behind them.
proof fn lemma_conflicts_of_parts_start(
    a: Seq<Conflict>,
    b: Seq<Conflict>,
    n: nat,
)
    requires
        n <= a.len(),
    ensures
        conflict_lines(a + b, n) == conflict_lines(a, n),
    decreases n,
{
    if n > 0 {
        lemma_conflicts_of_parts_start(a, b, (n - 1) as nat);
        assert((a + b)[n - 1] == a[n - 1]);
    }
}

/// The first `m` elements of the second part follow all of the first part.
proof fn lemma_conflicts_of_parts(
    a: Seq<Conflict>,
    b: Seq<Conflict>,
    m: nat,
)
    requires
        m <= b.len(),
    ensures
        conflict_lines(a + b, a.len() + m) == conflict_lines(a, a.len()) + conflict_lines(b, m),
    decreases m,
{
    if m == 0 {
        lemma_conflicts_of_parts_start(a, b, a.len());
    } else {
        lemma_conflicts_of_parts(a, b, (m - 1) as nat);
        assert((a + b)[a.len() + m - 1] == b[m - 1]);
    }
}

/// What some policies want, and others behind them, is told of the first, then
/// of the others.
pub proof fn contributions_of_parts(
    a: Seq<Contribution>,
    b: Seq<Contribution>,
)
    ensures
        contribution_texts(a + b, (a + b).len()) == contribution_texts(a, a.len()) + contribution_texts(b, b.len()),
{
    lemma_contributions_of_parts(a, b, b.len());
}

/// The first elements give the same whatever stands behind them.
proof fn lemma_contributions_of_parts_start(
    a: Seq<Contribution>,
    b: Seq<Contribution>,
    n: nat,
)
    requires
        n <= a.len(),
    ensures
        contribution_texts(a + b, n) == contribution_texts(a, n),
    decreases n,
{
    if n > 0 {
        lemma_contributions_of_parts_start(a, b, (n - 1) as nat);
        assert((a + b)[n - 1] == a[n - 1]);
    }
}

/// The first `m` elements of the second part follow all of the first part.
proof fn lemma_contributions_of_parts(
    a: Seq<Contribution>,
    b: Seq<Contribution>,
    m: nat,
)
    requires
        m <= b.len(),
    ensures
        contribution_texts(a + b, a.len() + m) == contribution_texts(a, a.len()) + contribution_texts(b, m),
    decreases m,
{
    if m == 0 {
        lemma_contributions_of_parts_start(a, b, a.len());
    } else {
        lemma_contributions_of_parts(a, b, (m - 1) as nat);
        assert((a + b)[a.len() + m - 1] == b[m - 1]);
    }
}

/// A difference of some lines and others behind them is shown as the first,
/// then the others.
pub proof fn diff_of_parts(
    a: Seq<Seq<char>>,
    b: Seq<Seq<char>>,
)
    ensures
        diff_lines(a + b, (a + b).len()) == diff_lines(a, a.len()) + diff_lines(b, b.len()),
{
    lemma_diff_of_parts(a, b, b.len());
}

/// The first elements give the same whatever stands behind them.
proof fn lemma_diff_of_parts_start(
    a: Seq<Seq<char>>,
    b: Seq<Seq<char>>,
    n: nat,
)
    requires
        n <= a.len(),
    ensures
        diff_lines(a + b, n) == diff_lines(a, n),
    decreases n,
{
    if n > 0 {
        lemma_diff_of_parts_start(a, b, (n - 1) as nat);
        assert((a + b)[n - 1] == a[n - 1]);
    }
}

/// The first `m` elements of the second part follow all of the first part.
proof fn lemma_diff_of_parts(
    a: Seq<Seq<char>>,
    b: Seq<Seq<char>>,
    m: nat,
)
    requires
        m <= b.len(),
    ensures
        diff_lines(a + b, a.len() + m) == diff_lines(a, a.len()) + diff_lines(b, m),
    decreases m,
{
    if m == 0 {
        lemma_diff_of_parts_start(a, b, a.len());
    } else {
        lemma_diff_of_parts(a, b, (m - 1) as nat);
        assert((a + b)[a.len() + m - 1] == b[m - 1]);
    }
}

/// The lines on some operations that succeeded and others behind them are
/// those on the first, then those on the others.
pub proof fn succeeded_of_parts(
    a: Seq<AppliedOperation>,
    b: Seq<AppliedOperation>,
)
    ensures
        succeeded_lines(a + b, (a + b).len()) == succeeded_lines(a, a.len()) + succeeded_lines(b, b.len()),
{
    lemma_succeeded_of_parts(a, b, b.len());
}

/// The first elements give the same whatever stands behind them.
proof fn lemma_succeeded_of_parts_start(
    a: Seq<AppliedOperation>,
    b: Seq<AppliedOperation>,
    n: nat,
)
    requires
        n <= a.len(),
    ensures
        succeeded_lines(a + b, n) == succeeded_lines(a, n),
    decreases n,
{
    if n > 0 {
        lemma_succeeded_of_parts_start(a, b, (n - 1) as nat);
        assert((a + b)[n - 1] == a[n - 1]);
    }
}

/// The first `m` elements of the second part follow all of the first part.
proof fn lemma_succeeded_of_parts(
    a: Seq<AppliedOperation>,
    b: Seq<AppliedOperation>,
    m: nat,
)
    requires
        m <= b.len(),
    ensures
        succeeded_lines(a + b, a.len() + m) == succeeded_lines(a, a.len()) + succeeded_lines(b, m),
    decreases m,
{
    if m == 0 {
        lemma_succeeded_of_parts_start(a, b, a.len());
    } else {
        lemma_succeeded_of_parts(a, b, (m - 1) as nat);
        assert((a + b)[a.len() + m - 1] == b[m - 1]);
    }
}

/// The lines on some operations that failed and others behind them are those
/// on the first, then those on the others.
pub proof fn failed_of_parts(
    a: Seq<FailedOperation>,
    b: Seq<FailedOperation>,
)
    ensures
        failed_lines(a + b, (a + b).len()) == failed_lines(a, a.len()) + failed_lines(b, b.len()),
{
    lemma_failed_of_parts(a, b, b.len());
}

/// The first elements give the same whatever stands behind them.
proof fn lemma_failed_of_parts_start(
    a: Seq<FailedOperation>,
    b: Seq<FailedOperation>,
    n: nat,
)
    requires
        n <= a.len(),
    ensures
        failed_lines(a + b, n) == failed_lines(a, n),
    decreases n,
{
    if n > 0 {
        lemma_failed_of_parts_start(a, b, (n - 1) as nat);
        assert((a + b)[n - 1] == a[n - 1]);
    }
}

/// The first `m` elements of the second part follow all of the first part.
proof fn lemma_failed_of_parts(
    a: Seq<FailedOperation>,
    b: Seq<FailedOperation>,
    m: nat,
)
    requires
        m <= b.len(),
    ensures
        failed_lines(a + b, a.len() + m) == failed_lines(a, a.len()) + failed_lines(b, m),
    decreases m,
{
    if m == 0 {
        lemma_failed_of_parts_start(a, b, a.len());
    } else {
        lemma_failed_of_parts(a, b, (m - 1) as nat);
        assert((a + b)[a.len() + m - 1] == b[m - 1]);
    }
}

/// The lines on some operations that were skipped and others behind them are
/// those on the first, then those on the others.
pub proof fn skipped_of_parts(
    a: Seq<SkippedOperation>,
    b: Seq<SkippedOperation>,
)
    ensures
        skipped_lines(a + b, (a + b).len()) == skipped_lines(a, a.len()) + skipped_lines(b, b.len()),
{
    lemma_skipped_of_parts(a, b, b.len());
}

/// The first elements give the same whatever stands behind them.
proof fn lemma_skipped_of_parts_start(
    a: Seq<SkippedOperation>,
    b: Seq<SkippedOperation>,
    n: nat,
)
    requires
        n <= a.len(),
    ensures
        skipped_lines(a + b, n) == skipped_lines(a, n),
    decreases n,
{
    if n > 0 {
        lemma_skipped_of_parts_start(a, b, (n - 1) as nat);
        assert((a + b)[n - 1] == a[n - 1]);
    }
}

/// The first `m` elements of the second part follow all of the first part.
proof fn lemma_skipped_of_parts(
    a: Seq<SkippedOperation>,
    b: Seq<SkippedOperation>,
    m: nat,
)
    requires
        m <= b.len(),
    ensures
        skipped_lines(a + b, a.len() + m) == skipped_lines(a, a.len()) + skipped_lines(b, m),
    decreases m,
{
    if m == 0 {
        lemma_skipped_of_parts_start(a, b, a.len());
    } else {
        lemma_skipped_of_parts(a, b, (m - 1) as nat);
        assert((a + b)[a.len() + m - 1] == b[m - 1]);
    }
}

/// The operations of a kind among some and others behind them are as many as
/// among both.
pub proof fn kinds_of_parts(
    a: Seq<AppliedOperation>,
    b: Seq<AppliedOperation>,
    kind: DiffOpKind,
)
    ensures
        kind_count(a + b, kind, (a + b).len()) == kind_count(a, kind, a.len()) + kind_count(b, kind, b.len()),
{
    lemma_kinds_of_parts(a, b, kind, b.len());
}

/// The first elements give the same whatever stands behind them.
proof fn lemma_kinds_of_parts_start(
    a: Seq<AppliedOperation>,
    b: Seq<AppliedOperation>,
    kind: DiffOpKind,
    n: nat,
)
    requires
        n <= a.len(),
    ensures
        kind_count(a + b, kind, n) == kind_count(a, kind, n),
    decreases n,
{
    if n > 0 {
        lemma_kinds_of_parts_start(a, b, kind, (n - 1) as nat);
        assert((a + b)[n - 1] == a[n - 1]);
    }
}

/// The first `m` elements of the second part follow all of the first part.
proof fn lemma_kinds_of_parts(
    a: Seq<AppliedOperation>,
    b: Seq<AppliedOperation>,
    kind: DiffOpKind,
    m: nat,
)
    requires
        m <= b.len(),
    ensures
        kind_count(a + b, kind, a.len() + m) == kind_count(a, kind, a.len()) + kind_count(b, kind, m),
    decreases m,
{
    if m == 0 {
        lemma_kinds_of_parts_start(a, b, kind, a.len());
    } else {
        lemma_kinds_of_parts(a, b, kind, (m - 1) as nat);
        assert((a + b)[a.len() + m - 1] == b[m - 1]);
    }
}

/// The preview of one operation is a line that names its entity, with the sign and
/// the colour of what is done to it, and below it the lines on its fields.
pub proof fn plan_of_one(op: VarlinkDiffOperation)
    ensures
        ({
            let name = op.entity_type@ + " "@ + op.entity_name@;
            let fields = daemon_field_lines(op.field_changes@, op.field_changes@.len());
            let lines = daemon_plan_lines(seq![op], 1);
            &&& op.kind@ == "add"@ ==> lines == seq![
                plain("  "@),
                styled(Style::Green, "+"@ + " "@ + name),
                plain("\n"@),
            ] + fields
            &&& op.kind@ == "remove"@ ==> lines == seq![
                plain("  "@),
                styled(Style::Red, "-"@ + " "@ + name),
                plain("\n"@),
            ] + fields
            &&& op.kind@ != "add"@ && op.kind@ != "remove"@ ==> lines == seq![
                plain("  "@),
                styled(Style::Yellow, "~"@ + " "@ + name),
                plain("\n"@),
            ] + fields
        }),
{
    lemma_kinds();
    assert(daemon_plan_lines(seq![op], 0) == Seq::<SpanView>::empty());
}

/// The words for kinds of operation and of change differ.
proof fn lemma_kinds()
    ensures
        "add"@ != "remove"@,
        "set"@ != "unset"@,
        "set"@ != "unchanged"@,
        "unset"@ != "unchanged"@,
{
    reveal_strlit("add");
    reveal_strlit("remove");
    reveal_strlit("set");
    reveal_strlit("unset");
    reveal_strlit("unchanged");
    assert("add"@.len() == 3 && "remove"@.len() == 6);
    assert("set"@.len() == 3 && "unset"@.len() == 5 && "unchanged"@.len() == 9);
}

/// The preview of one field: a field that is set is shown with its new value, and
/// with its old one where it has one; a field that is unset with its old value; a
/// field that stays with its value.
pub proof fn plan_of_one_field(fc: VarlinkFieldChange)
    ensures
        ({
            let lines = daemon_field_lines(seq![fc], 1);
            let name = fc.field_name@;
            &&& fc.change_kind@ == "set"@ && fc.current is Some && fc.desired is Some
                ==> lines == seq![
                plain("  "@),
                styled(
                    Style::Yellow,
                    "~   "@ + name + ": "@ + compact(fc.current->0) + " \u{2192} "@ + compact(
                        fc.desired->0,
                    ),
                ),
                plain("\n"@),
            ]
            &&& fc.change_kind@ == "set"@ && fc.current is None && fc.desired is Some
                ==> lines == seq![
                plain("  "@),
                styled(Style::Green, "+   "@ + name + ": "@ + compact(fc.desired->0)),
                plain("\n"@),
            ]
            &&& fc.change_kind@ == "unset"@ && fc.current is Some ==> lines == seq![
                plain("  "@),
                styled(Style::Red, "-   "@ + name + ": "@ + compact(fc.current->0)),
                plain("\n"@),
            ]
            &&& fc.change_kind@ == "unchanged"@ && fc.current is Some ==> lines == seq![
                plain("      "@ + name + ": "@ + compact(fc.current->0) + "\n"@),
            ]
            &&& fc.change_kind@ != "set"@ && fc.change_kind@ != "unset"@ && fc.change_kind@
                != "unchanged"@ ==> lines.len() == 0
        }),
{
    lemma_kinds();
    assert(daemon_field_lines(seq![fc], 0) == Seq::<SpanView>::empty());
}

/// Every field that any operation sets or unsets has its line in the preview,
/// wherever the operation and the field stand: all lines on the field are there.
pub proof fn every_field_is_previewed(ops: Seq<VarlinkDiffOperation>, i: int, k: int, x: SpanView)
    requires
        0 <= i < ops.len(),
        0 <= k < ops[i].field_changes@.len(),
        daemon_field_lines(seq![ops[i].field_changes@[k]], 1).contains(x),
    ensures
        daemon_plan_lines(ops, ops.len()).contains(x),
{
    let fields = ops[i].field_changes@;
    let (a, b, c) = (fields.take(k), seq![fields[k]], fields.skip(k + 1));
    lemma_parted(fields, k);
    plan_fields_of_parts(a + b, c);
    plan_fields_of_parts(a, b);
    lemma_middle_holds(
        daemon_field_lines(a, a.len()),
        daemon_field_lines(b, 1),
        daemon_field_lines(c, c.len()),
        x,
    );
    let lines = daemon_field_lines(fields, fields.len());
    plan_of_one(ops[i]);
    let one = daemon_plan_lines(seq![ops[i]], 1);
    assert(one.contains(x)) by {
        let at = lines.index_of(x);
        assert(one[3 + at] == x);
    }
    let (d, e, f) = (ops.take(i), seq![ops[i]], ops.skip(i + 1));
    lemma_parted(ops, i);
    plan_of_parts(d + e, f);
    plan_of_parts(d, e);
    lemma_middle_holds(
        daemon_plan_lines(d, d.len()),
        daemon_plan_lines(e, 1),
        daemon_plan_lines(f, f.len()),
        x,
    );
}

/// A dry run of the daemon with changes says how many there are, then previews
/// them; one without says that nothing is needed.
pub proof fn plan_is_counted(diff: VarlinkStateDiff)
    ensures
        daemon_plan_layout(diff, true) == seq![plain("No changes needed (dry run).\n"@)],
        diff.operations@.len() == 1 ==> daemon_plan_layout(diff, false) == seq![
            styled(
                Style::Yellow,
                "Dry run: "@ + decimal(1) + " "@ + "change"@ + " would be applied."@,
            ),
            plain("\n"@),
        ] + daemon_plan_lines(diff.operations@, 1),
        diff.operations@.len() != 1 ==> daemon_plan_layout(diff, false) == seq![
            styled(
                Style::Yellow,
                "Dry run: "@ + decimal(diff.operations@.len()) + " "@ + "changes"@
                    + " would be applied."@,
            ),
            plain("\n"@),
        ] + daemon_plan_lines(diff.operations@, diff.operations@.len()),
{
}

/// The line on one change that the daemon reports: the sign tells how it went, and
/// where it was applied what was done.
pub proof fn daemon_change_of_one(entry: VarlinkChangeEntry)
    ensures
        ({
            let lines = daemon_change_lines(seq![entry], 1);
            let entity = " "@ + entry.entity_type@ + " "@ + entry.entity_name@;
            let told = plain(entity + (": "@ + entry.description@) + "\n"@);
            let applied = entry.status@ == "applied"@;
            &&& applied && entry.kind@ == "add"@ ==> lines == seq![
                plain("  "@),
                styled(Style::Green, "+"@),
                told,
            ]
            &&& applied && entry.kind@ == "modify"@ ==> lines == seq![
                plain("  "@),
                styled(Style::Yellow, "~"@),
                told,
            ]
            &&& applied && entry.kind@ == "remove"@ ==> lines == seq![
                plain("  "@),
                styled(Style::Red, "-"@),
                told,
            ]
            &&& entry.status@ == "failed"@ ==> lines == seq![
                plain("  "@),
                styled(Style::Red, "x"@),
                told,
            ]
            &&& entry.status@ == "skipped"@ ==> lines == seq![
                plain("  "@),
                styled(Style::Dimmed, "s"@),
                told,
            ]
            &&& !applied && entry.status@ != "failed"@ && entry.status@ != "skipped"@
                ==> lines == seq![plain("  "@), plain("?"@), plain(entity + ""@ + "\n"@)]
        }),
{
    reveal_strlit("applied");
    reveal_strlit("failed");
    reveal_strlit("skipped");
    reveal_strlit("add");
    reveal_strlit("modify");
    reveal_strlit("remove");
    assert("applied"@[0] == 'a' && "failed"@[0] == 'f' && "skipped"@[0] == 's');
    assert("add"@[0] == 'a' && "modify"@[0] == 'm' && "remove"@[0] == 'r');
    assert(daemon_change_lines(seq![entry], 0) == Seq::<SpanView>::empty());
}

/// What is said of a change that was applied to nothing the report knows, and of
/// the changes as a whole: all counted where none failed, both counts where some
/// did, and only the failures where none succeeded.
pub proof fn daemon_counts_are_told(succeeded: int, failed: int)
    ensures
        failed == 0 ==> daemon_outcome(succeeded, failed) == (
            Style::Green,
            "Applied "@ + decimal_int(succeeded) + " changes."@,
        ),
        failed != 0 && succeeded > 0 ==> daemon_outcome(succeeded, failed) == (
            Style::Yellow,
            "Applied "@ + decimal_int(succeeded) + " of "@ + decimal_int(succeeded + failed)
                + " changes. "@ + decimal_int(failed) + " failed."@,
        ),
        failed != 0 && succeeded <= 0 ==> daemon_outcome(succeeded, failed) == (
            Style::Red,
            "All "@ + decimal_int(failed) + " changes failed."@,
        ),
{
}

/// The line on one operation that succeeded names its entity and all fields that
/// changed.
pub proof fn succeeded_of_one(op: AppliedOperation)
    ensures
        ({
            let lines = succeeded_lines(seq![op], 1);
            let fields = views(op.fields_changed@);
            &&& lines.len() == 3
            &&& lines[0] == plain("  "@)
            &&& op.operation == DiffOpKind::Add ==> lines[1] == styled(Style::Green, "+"@)
            &&& op.operation == DiffOpKind::Modify ==> lines[1] == styled(Style::Yellow, "~"@)
            &&& op.operation == DiffOpKind::Remove ==> lines[1] == styled(Style::Red, "-"@)
            &&& fields.len() > 0 ==> lines[2] == plain(
                " "@ + op.entity_type@ + " "@ + op.key@ + (": "@ + joined(fields, ", "@)) + "\n"@,
            )
            &&& fields.len() == 0 ==> lines[2] == plain(
                " "@ + op.entity_type@ + " "@ + op.key@ + Seq::<char>::empty() + "\n"@,
            )
        }),
{
    assert(succeeded_lines(seq![op], 0) == Seq::<SpanView>::empty());
}

/// The line on one operation that failed names its entity and the error.
pub proof fn failed_of_one(op: FailedOperation)
    ensures
        failed_lines(seq![op], 1) == seq![
            plain("  "@),
            styled(Style::Red, "x"@),
            plain(" "@ + op.entity_type@ + " "@ + op.key@ + (": "@ + op.error@) + "\n"@),
        ],
{
    assert(failed_lines(seq![op], 0) == Seq::<SpanView>::empty());
}

/// The line on one operation that was skipped names its entity and the reason.
pub proof fn skipped_of_one(op: SkippedOperation)
    ensures
        skipped_lines(seq![op], 1) == seq![
            plain("  "@),
            styled(Style::Dimmed, "s"@),
            plain(" "@ + op.entity_type@ + " "@ + op.key@ + (": "@ + op.reason@) + "\n"@),
        ],
{
    assert(skipped_lines(seq![op], 0) == Seq::<SpanView>::empty());
}

/// A report tells of all operations, those that succeeded first, then those that
/// failed, then those that were skipped; and it ends by counting them where any
/// succeeded or failed.
pub proof fn report_tells_all(report: ApplyReport)
    ensures
        ({
            let (s, f, k) = (report.succeeded@, report.failed@, report.skipped@);
            let told = succeeded_lines(s, s.len()) + failed_lines(f, f.len()) + skipped_lines(
                k,
                k.len(),
            );
            let layout = report_layout(report);
            &&& s.len() == 0 && f.len() == 0 ==> layout == told
            &&& f.len() > 0 && s.len() > 0 ==> layout == told + seq![
                styled(
                    Style::Yellow,
                    "Applied "@ + decimal(s.len()) + " of "@ + decimal(s.len() + f.len() + k.len())
                        + " changes. "@ + decimal(f.len()) + " failed."@,
                ),
                plain("\n"@),
            ]
            &&& f.len() > 0 && s.len() == 0 ==> layout == told + seq![
                styled(Style::Red, "All "@ + decimal(f.len()) + " changes failed."@),
                plain("\n"@),
            ]
            &&& f.len() == 0 && s.len() > 0 ==> layout == told + seq![
                styled(
                    Style::Green,
                    "Applied "@ + decimal(s.len()) + " changes"@ + kinds_suffix(s) + "."@,
                ),
                plain("\n"@),
            ]
        }),
{
}

/// The kinds of the operations that succeeded are counted in brackets, as far as
/// they occur, and each operation counts for its own kind.
pub proof fn kinds_are_counted(ops: Seq<AppliedOperation>, op: AppliedOperation, kind: DiffOpKind)
    ensures
        kind_count(seq![op], kind, 1) == (if op.operation == kind {
            1nat
        } else {
            0nat
        }),
        ({
            let added = kind_count(ops, DiffOpKind::Add, ops.len());
            let modified = kind_count(ops, DiffOpKind::Modify, ops.len());
            let removed = kind_count(ops, DiffOpKind::Remove, ops.len());
            let texts = kind_counts(ops);
            &&& added > 0 ==> texts.contains(decimal(added) + " added"@)
            &&& modified > 0 ==> texts.contains(decimal(modified) + " modified"@)
            &&& removed > 0 ==> texts.contains(decimal(removed) + " removed"@)
            &&& texts.len() > 0 ==> kinds_suffix(ops) == " ("@ + joined(texts, ", "@) + ")"@
        }),
{
    reveal_with_fuel(kind_count, 2);
    reveal_strlit("");
    let added = kind_count(ops, DiffOpKind::Add, ops.len());
    let modified = kind_count(ops, DiffOpKind::Modify, ops.len());
    let removed = kind_count(ops, DiffOpKind::Remove, ops.len());
    let texts = kind_counts(ops);
    let a = counted(""@, added, " added"@);
    let m = counted(""@, modified, " modified"@);
    let r = counted(""@, removed, " removed"@);
    assert(texts == a + m + r);
    if added > 0 {
        assert(""@ + decimal(added) + " added"@ == decimal(added) + " added"@);
        assert(texts[0] == decimal(added) + " added"@);
    }
    if modified > 0 {
        assert(""@ + decimal(modified) + " modified"@ == decimal(modified) + " modified"@);
        assert(texts[a.len() as int] == decimal(modified) + " modified"@);
    }
    if removed > 0 {
        assert(""@ + decimal(removed) + " removed"@ == decimal(removed) + " removed"@);
        assert(texts[(a.len() + m.len()) as int] == decimal(removed) + " removed"@);
    }
}

/// The warning on conflicts counts them, and one conflict is told with its entity,
/// its field, what each policy wants and their priority.
pub proof fn conflicts_are_told(list: Seq<Conflict>, c: Conflict)
    ensures
        list.len() == 1 ==> conflicts_layout(list) == seq![
            styled(
                Style::Yellow,
                "Warning: "@ + decimal(1) + " field "@ + "conflict"@
                    + " detected. Conflicting fields were not applied."@,
            ),
            plain("\n"@),
        ] + conflict_lines(list, 1),
        list.len() != 1 ==> conflicts_layout(list) == seq![
            styled(
                Style::Yellow,
                "Warning: "@ + decimal(list.len()) + " field "@ + "conflicts"@
                    + " detected. Conflicting fields were not applied."@,
            ),
            plain("\n"@),
        ] + conflict_lines(list, list.len()),
        ({
            let wants = contribution_texts(c.contributions@, c.contributions@.len());
            let head = "  "@ + c.entity_type@ + " "@ + c.entity_name@ + " "@ + c.field_name@ + ": "@;
            let number = decimal(c.priority as nat);
            &&& c.contributions@.len() == 2 ==> conflict_lines(seq![c], 1) == seq![
                plain(
                    head + (joined(wants, ", "@) + " "@ + ("(both priority "@ + number + ")"@)
                        + "\n"@),
                ),
            ]
            &&& c.contributions@.len() != 2 ==> conflict_lines(seq![c], 1) == seq![
                plain(
                    head + (joined(wants, ", "@) + " "@ + ("(all priority "@ + number + ")"@)
                        + "\n"@),
                ),
            ]
        }),
{
    assert(conflict_lines(seq![c], 0) == Seq::<SpanView>::empty());
}

/// What one policy wants is told with its name and the value.
pub proof fn contribution_of_one(c: Contribution)
    ensures
        contribution_texts(seq![c], 1) == seq![
            "policy \""@ + c.policy_id@ + "\" sets "@ + c.value@,
        ],
{
    assert(contribution_texts(seq![c], 0) == Seq::<Seq<char>>::empty());
}

/// One conflict that the daemon reports is told with its entity, its field, all its
/// policies and all their values.
pub proof fn daemon_conflict_of_one(c: VarlinkConflictEntry)
    ensures
        daemon_conflict_lines(seq![c], 1) == seq![
            plain(
                ("  "@ + c.entity_type@ + " "@ + c.entity_name@ + " "@ + c.field_name@ + ": "@) + (
                debug_list(views(c.policies@)) + " -> "@ + debug_list(views(c.values@)) + "\n"@),
            ),
        ],
        debug_list(views(c.policies@)).len() > 0,
        debug_texts(views(c.policies@)).len() == c.policies@.len(),
        forall|i: int|
            0 <= i < c.policies@.len() ==> debug_texts(views(c.policies@))[i] == debug_text(
                #[trigger] c.policies@[i]@,
            ),
        debug_list(views(c.policies@)) == "["@ + joined(debug_texts(views(c.policies@)), ", "@)
            + "]"@,
{
    reveal_strlit("[");
    assert(daemon_conflict_lines(seq![c], 0) == Seq::<SpanView>::empty());
}

/// A line of a difference is shown in full, indented, in the colour of its sign.
pub proof fn diff_of_one(line: Seq<char>)
    ensures
        ({
            let text = "  "@ + line;
            let shown = diff_lines(seq![line], 1);
            &&& shown.len() == 2
            &&& shown[0].text == text
            &&& shown[1] == plain("\n"@)
            &&& line.len() > 0 && line[0] == '+' ==> shown[0].style == Style::Green
            &&& line.len() > 0 && line[0] == '-' ==> shown[0].style == Style::Red
            &&& line.len() > 0 && line[0] == '~' ==> shown[0].style == Style::Yellow
            &&& line.len() == 0 || (line[0] != '+' && line[0] != '-' && line[0] != '~')
                ==> shown[0].style == Style::Plain
        }),
{
    assert(diff_lines(seq![line], 0) == Seq::<SpanView>::empty());
}

/// A dry run without the daemon shows every line of the difference below the
/// number of changes, or says that nothing is needed.
pub proof fn dry_run_shows_the_difference(n: nat, text: Seq<char>)
    ensures
        dry_run_layout(n, text, true) == seq![plain("No changes needed (dry run).\n"@)],
        dry_run_layout(n, text, false).len() == 2 + diff_lines(
            lines_of(text),
            lines_of(text).len(),
        ).len(),
        dry_run_layout(n, text, false).skip(2) == diff_lines(lines_of(text), lines_of(text).len()),
        dry_run_layout(n, text, false)[0].style == Style::Yellow,
        n == 1 ==> dry_run_layout(n, text, false)[0].text == "Dry run: "@ + decimal(1) + " "@
            + "change"@ + " would be applied."@,
        n != 1 ==> dry_run_layout(n, text, false)[0].text == "Dry run: "@ + decimal(n) + " "@
            + "changes"@ + " would be applied."@,
{
    assert(dry_run_layout(n, text, false).skip(2) == diff_lines(
        lines_of(text),
        lines_of(text).len(),
    ));
}

/// What is printed of a report of the daemon: all its changes, and at the end how
/// many policies were submitted and what became of the changes.
pub proof fn daemon_report_tells_all(report: VarlinkApplyReport, policies: nat)
    ensures
        ({
            let changes = daemon_change_lines(report.changes@, report.changes@.len());
            let (style, outcome) = daemon_outcome(report.succeeded as int, report.failed as int);
            let layout = daemon_report_layout(report, policies);
            &&& policies == 1 ==> layout == changes + seq![
                styled(
                    style,
                    "Submitted "@ + decimal(1) + " policy"@ + " to daemon. "@ + outcome,
                ),
                plain("\n"@),
            ]
            &&& policies != 1 ==> layout == changes + seq![
                styled(
                    style,
                    "Submitted "@ + decimal(policies) + " policies"@ + " to daemon. "@ + outcome,
                ),
                plain("\n"@),
            ]
        }),
{
}

/// The warning on the conflicts that the daemon reports counts them and is followed by
/// all of them.
pub proof fn daemon_conflicts_are_told(list: Seq<VarlinkConflictEntry>)
    ensures
        list.len() == 1 ==> daemon_conflicts_layout(list)[0].text == "Warning: "@ + decimal(1)
            + " field "@ + "conflict"@ + " detected. Conflicting fields were not applied."@,
        list.len() != 1 ==> daemon_conflicts_layout(list)[0].text == "Warning: "@ + decimal(
            list.len(),
        ) + " field "@ + "conflicts"@ + " detected. Conflicting fields were not applied."@,
        daemon_conflicts_layout(list)[0].style == Style::Yellow,
        daemon_conflicts_layout(list)[1] == plain("\n"@),
        daemon_conflicts_layout(list).skip(2) == daemon_conflict_lines(list, list.len()),
{
    assert(daemon_conflicts_layout(list).skip(2) == daemon_conflict_lines(list, list.len()));
}

} // verus!
