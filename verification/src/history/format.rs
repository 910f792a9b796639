//! The history as text: the list of entries, and one entry in full.
use vstd::prelude::*;
use vstd::string::*;

use crate::flat::{
    entry_is_put, fields_are_held, flat_entries, flat_views, map_of_text, put_fields, put_text,
    with_entry, with_fields, write_yaml, yaml_written,
};
use crate::history::display::{
    changes_cell, changes_column, colored_change_spans, colored_changes, colour_keeps_changes,
    entities_fitted, entities_summary_fitted, entities_summary_with_state, entities_text,
    full_outcome, outcome_detail, pad_or_truncate, trigger_detail, trigger_detail_str,
    trigger_display_name, trigger_name, truncate_with_ellipsis,
};
use crate::journal::{
    ApplyOutcome, JournalEntry, PolicySummary, SerializableDiffOp, SerializableFieldChange,
    SerializableState, Trigger,
};
use crate::json::{
    compact, has_json, holds_list, is_list, items, items_of, json_compact, json_in, json_same,
    member, opt_compact, opt_json_compact, string_member, Json, JsonView,
};
use crate::styled::{
    lemma_plain_text_parts, no_spans, plain, plain_text, push_all, push_plain, push_styled, render,
    rendering, span_views, styled, Span, SpanView, Style,
};
use crate::text::{
    cat2, cat3, cat4, cat5, cat7, cells_take_their_width, cut_with_ellipsis, decimal, decimal_text,
    fitted_cell, join, joined, push_text, same, shortened, starts_with, views,
};
use crate::time::{format_instant, instant_text, now, seconds_between, seconds_from, Timestamp};

verus! {

// ── Timestamps ───────────────────────────────────────────────────────────────

/// The time of an entry: how long ago it was, within a day; then the time of
/// yesterday, or the date and the time. Times to come count as now. In absolute
/// form always the date and the time with seconds.
pub open spec fn time_text(ts: Timestamp, at: Timestamp, absolute: bool) -> Seq<char> {
    let between = seconds_between(ts, at);
    let secs: nat = if between < 0 {
        0
    } else {
        between as nat
    };
    if absolute {
        instant_text(ts.secs, ts.nanos, "%Y-%m-%d %H:%M:%S"@)
    } else if secs < 60 {
        decimal(secs) + " sec ago"@
    } else if secs < 3600 {
        decimal(secs / 60) + " min ago"@
    } else if secs < 86400 {
        decimal(secs / 3600) + "h ago"@
    } else if ts.day() == at.day() - 1 {
        "yesterday "@ + instant_text(ts.secs, ts.nanos, "%H:%M"@)
    } else {
        instant_text(ts.secs, ts.nanos, "%Y-%m-%d %H:%M"@)
    }
}

/// Days since 1970.
fn day_of(t: Timestamp) -> (r: i64)
    requires
        t.wf(),
    ensures
        r == t.day(),
{
    (t.secs + 8334601228800) / 86400 - 96465292
}

/// The time of an entry, as seen at a given time.
pub fn format_timestamp(ts: Timestamp, now: Timestamp, absolute: bool) -> (r: String)
    requires
        ts.wf(),
        now.wf(),
    ensures
        r@ == time_text(ts, now, absolute),
{
    if absolute {
        return format_instant(ts, "%Y-%m-%d %H:%M:%S");
    }
    let between: i64 = seconds_from(ts, now);
    let secs: u64 = if between < 0 {
        0
    } else {
        between as u64
    };
    if secs < 60 {
        let n = decimal_text(secs);
        cat2(n.as_str(), " sec ago")
    } else if secs < 3600 {
        let n = decimal_text(secs / 60);
        cat2(n.as_str(), " min ago")
    } else if secs < 86400 {
        let n = decimal_text(secs / 3600);
        cat2(n.as_str(), "h ago")
    } else if day_of(ts) == day_of(now) - 1 {
        let time = format_instant(ts, "%H:%M");
        cat2("yesterday ", time.as_str())
    } else {
        format_instant(ts, "%Y-%m-%d %H:%M")
    }
}

// ── Trigger ──────────────────────────────────────────────────────────────────

/// The names of policies.
pub open spec fn policy_names(policies: Seq<PolicySummary>) -> Seq<Seq<char>> {
    policies.map_values(|p: PolicySummary| p.name@)
}

/// The trigger of an entry in short.
pub open spec fn trigger_cell(entry: JournalEntry) -> Seq<char> {
    let policies = entry.active_policies@;
    match entry.trigger {
        Trigger::PolicyApply { .. } => if policies.len() == 0 {
            "apply"@
        } else if policies.len() == 1 {
            "apply ("@ + policies[0].name@ + ")"@
        } else {
            "apply ("@ + policies[0].name@ + ", +"@ + decimal((policies.len() - 1) as nat) + ")"@
        },
        Trigger::DhcpEvent { event_kind, .. } => if event_kind@ == "lease_acquired"@ {
            "dhcp-acquire"@
        } else if event_kind@ == "lease_renewed"@ {
            "dhcp-renew"@
        } else if event_kind@ == "lease_expired"@ {
            "dhcp-expire"@
        } else {
            "dhcp-"@ + event_kind@
        },
        Trigger::ExternalChange { .. } => "external"@,
        Trigger::DaemonStartup => "daemon-startup"@,
        Trigger::Revert { target_seq } => "revert ("@ + decimal(target_seq as nat) + ")"@,
    }
}

/// The trigger of an entry in short.
pub fn format_trigger_column(entry: &JournalEntry) -> (r: String)
    ensures
        r@ == trigger_cell(*entry),
{
    match &entry.trigger {
        Trigger::PolicyApply { .. } => {
            let policies = &entry.active_policies;
            if policies.len() == 0 {
                "apply".to_owned()
            } else if policies.len() == 1 {
                cat3("apply (", policies[0].name.as_str(), ")")
            } else {
                let more = decimal_text((policies.len() - 1) as u64);
                cat5("apply (", policies[0].name.as_str(), ", +", more.as_str(), ")")
            }
        },
        Trigger::DhcpEvent { event_kind, .. } => {
            let kind = event_kind.as_str();
            if same(kind, "lease_acquired") {
                "dhcp-acquire".to_owned()
            } else if same(kind, "lease_renewed") {
                "dhcp-renew".to_owned()
            } else if same(kind, "lease_expired") {
                "dhcp-expire".to_owned()
            } else {
                cat2("dhcp-", kind)
            }
        },
        Trigger::ExternalChange { .. } => "external".to_owned(),
        Trigger::DaemonStartup => "daemon-startup".to_owned(),
        Trigger::Revert { target_seq } => {
            let seq = decimal_text(*target_seq);
            cat3("revert (", seq.as_str(), ")")
        },
    }
}

/// What follows the first `shown` policies: the number of the others, if any.
pub open spec fn policies_end(total: nat, shown: nat) -> Seq<char> {
    if shown >= total {
        ")"@
    } else {
        ", +"@ + decimal((total - shown) as nat) + ")"@
    }
}

/// An apply with its first `shown` policies named.
pub open spec fn apply_naming(names: Seq<Seq<char>>, shown: nat) -> Seq<char> {
    "apply ("@ + joined(names.take(shown as int), ", "@) + policies_end(names.len(), shown)
}

/// An apply where not even one policy can be named in full: the first name is
/// cut, or only the number of policies is given, or the short form is cut.
pub open spec fn apply_cut(names: Seq<Seq<char>>, full: Seq<char>, max: nat) -> Seq<char> {
    let end = policies_end(names.len(), 1);
    let count_only = "apply (+"@ + decimal(names.len()) + ")"@;
    if max >= 7 + end.len() + 2 {
        "apply ("@ + names[0].take(max - 7 - end.len() - 1) + "…"@ + end
    } else if count_only.len() <= max {
        count_only
    } else if full.len() <= max {
        full
    } else {
        fitted_cell(full, max)
    }
}

/// An apply with as many of its first `shown` policies named as fit in `max`
/// characters.
pub open spec fn apply_fitted(
    names: Seq<Seq<char>>,
    full: Seq<char>,
    shown: nat,
    max: nat,
) -> Seq<char>
    decreases shown,
{
    if shown == 0 {
        apply_cut(names, full, max)
    } else if apply_naming(names, shown).len() <= max {
        apply_naming(names, shown)
    } else {
        apply_fitted(names, full, (shown - 1) as nat, max)
    }
}

/// The trigger of an entry, with all its policies, shortened to `max` characters.
/// An apply without policies is not shortened.
pub open spec fn trigger_fitted(entry: JournalEntry, max: nat) -> Seq<char> {
    let full = trigger_cell(entry);
    let names = policy_names(entry.active_policies@);
    if entry.trigger is PolicyApply && names.len() == 0 {
        "apply"@
    } else if entry.trigger is PolicyApply {
        apply_fitted(names, full, names.len(), max)
    } else if full.len() <= max {
        full
    } else {
        fitted_cell(full, max)
    }
}

/// The names of policies.
fn names_of(policies: &Vec<PolicySummary>) -> (r: Vec<String>)
    ensures
        views(r@) == policy_names(policies@),
        r@.len() == policies@.len(),
{
    let mut out: Vec<String> = Vec::new();
    let n: usize = policies.len();
    let mut i: usize = 0;
    assert(views(out@) == policy_names(policies@).take(0));
    while i < n
        invariant
            i <= n,
            n == policies@.len(),
            views(out@) == policy_names(policies@).take(i as int),
        decreases n - i,
    {
        push_text(&mut out, policies[i].name.clone());
        assert(policy_names(policies@).take(i + 1) == policy_names(policies@).take(i as int).push(
            policies@[i as int].name@,
        ));
        i = i + 1;
    }
    assert(views(out@).len() == n);
    out
}

/// What follows the first `shown` policies.
fn end_of_policies(total: usize, shown: usize) -> (r: String)
    ensures
        r@ == policies_end(total as nat, shown as nat),
{
    if shown >= total {
        ")".to_owned()
    } else {
        let more = decimal_text((total - shown) as u64);
        cat3(", +", more.as_str(), ")")
    }
}

/// An apply where not even one policy can be named in full.
fn format_apply_cut(names: &Vec<String>, full: &str, max_width: usize) -> (r: String)
    requires
        names@.len() > 0,
        apply_naming(views(names@), 1).len() > max_width,
    ensures
        r@ == apply_cut(views(names@), full@, max_width as nat),
{
    let total: usize = names.len();
    let end = end_of_policies(total, 1);
    let end_len: usize = end.as_str().unicode_len();
    proof {
        reveal_strlit("apply (");
        assert(views(names@).take(1) == seq![names@[0]@]);
        assert(joined(seq![names@[0]@], ", "@) == names@[0]@);
    }
    if max_width >= 9 && max_width - 9 >= end_len {
        let name = names[0].as_str();
        let fitted = cut_with_ellipsis(name, max_width - 7 - end_len - 1);
        proof {
            reveal_strlit("…");
        }
        let out = cat3("apply (", fitted.as_str(), end.as_str());
        assert(out@ == apply_cut(views(names@), full@, max_width as nat));
        return out;
    }
    let number = decimal_text(total as u64);
    let count_only = cat3("apply (+", number.as_str(), ")");
    if count_only.as_str().unicode_len() <= max_width {
        return count_only;
    }
    if full.unicode_len() <= max_width {
        return full.to_owned();
    }
    pad_or_truncate(full, max_width)
}

/// The trigger of an entry, shortened to `max_width` characters.
pub fn format_trigger_column_fitted(entry: &JournalEntry, max_width: usize) -> (r: String)
    ensures
        r@ == trigger_fitted(*entry, max_width as nat),
{
    let full = format_trigger_column(entry);
    if let Trigger::PolicyApply { .. } = &entry.trigger {
        let names = names_of(&entry.active_policies);
        let total: usize = names.len();
        assert(policy_names(entry.active_policies@).len() == total);
        if total == 0 {
            return "apply".to_owned();
        }
        let mut show: usize = total;
        while show > 0
            invariant
                show <= total,
                total == names@.len(),
                total > 0,
                entry.trigger is PolicyApply,
                views(names@) == policy_names(entry.active_policies@),
                full@ == trigger_cell(*entry),
                show < total ==> apply_naming(views(names@), (show + 1) as nat).len() > max_width,
                trigger_fitted(*entry, max_width as nat) == apply_fitted(
                    views(names@),
                    full@,
                    show as nat,
                    max_width as nat,
                ),
            decreases show,
        {
            let list = join(vstd::slice::slice_subrange(names.as_slice(), 0, show), ", ");
            assert(views(names@.subrange(0, show as int)) == views(names@).take(show as int));
            let end = end_of_policies(total, show);
            let candidate = cat3("apply (", list.as_str(), end.as_str());
            if candidate.as_str().unicode_len() <= max_width {
                return candidate;
            }
            show = show - 1;
        }
        return format_apply_cut(&names, full.as_str(), max_width);
    }
    if full.as_str().unicode_len() <= max_width {
        return full;
    }
    pad_or_truncate(full.as_str(), max_width)
}

// ── List ─────────────────────────────────────────────────────────────────────

/// The length of the longest cell, at least `least`.
pub open spec fn widest(cells: Seq<Seq<char>>, least: nat) -> nat
    decreases cells.len(),
{
    if cells.len() == 0 {
        least
    } else {
        let before = widest(cells.drop_last(), least);
        if cells.last().len() > before {
            cells.last().len()
        } else {
            before
        }
    }
}

/// The cells of the first column: the numbers of the entries.
pub open spec fn seq_cells(entries: Seq<JournalEntry>) -> Seq<Seq<char>> {
    entries.map_values(|e: JournalEntry| decimal(e.seq as nat))
}

/// The cells of the second column: the times of the entries.
pub open spec fn time_cells(
    entries: Seq<JournalEntry>,
    at: Timestamp,
    absolute: bool,
) -> Seq<Seq<char>> {
    entries.map_values(|e: JournalEntry| time_text(e.timestamp, at, absolute))
}

/// The triggers of the entries, not shortened.
pub open spec fn trigger_cells(entries: Seq<JournalEntry>) -> Seq<Seq<char>> {
    entries.map_values(|e: JournalEntry| trigger_fitted(e, usize::MAX as nat))
}

/// The entities of an entry, not shortened.
pub open spec fn entity_cell(entry: JournalEntry) -> Seq<char> {
    entities_text(entry.diff.operations@, entry.state_after.entities@)
}

/// The entities of the entries, not shortened.
pub open spec fn entity_cells(entries: Seq<JournalEntry>) -> Seq<Seq<char>> {
    entries.map_values(|e: JournalEntry| entity_cell(e))
}

/// The changes of the entries, not shortened.
pub open spec fn change_cells(entries: Seq<JournalEntry>) -> Seq<Seq<char>> {
    entries.map_values(|e: JournalEntry| changes_cell(e))
}

/// What one number has over another, or zero.
pub open spec fn excess(n: nat, over: nat) -> nat {
    if n > over {
        (n - over) as nat
    } else {
        0
    }
}

/// The characters that are left for the triggers, the entities and the changes: of
/// at most 200 columns, what the first two columns and the gaps leave, but no less
/// than 37.
pub open spec fn room(term_width: nat, w_seq: nat, w_ts: nat) -> nat {
    let width = if term_width < 200 {
        term_width
    } else {
        200
    };
    let left = excess(width, w_seq + w_ts + 8);
    if left > 37 {
        left
    } else {
        37
    }
}

/// The widths of the triggers, the entities and the changes, out of the widths
/// that they would take in full. Where there is not enough room each gets a
/// minimum, and what is left over is divided in proportion to what they lack.
pub open spec fn column_widths(available: nat, trig: nat, ent: nat, chg: nat) -> (nat, nat, nat) {
    if trig + ent + chg <= available {
        (trig, ent, chg)
    } else {
        let spare = (available - 37) as nat;
        let lacking = excess(trig, 12) + excess(ent, 10) + excess(chg, 15);
        let t = 12 + spare * excess(trig, 12) / lacking;
        let e = 10 + spare * excess(ent, 10) / lacking;
        (t, e, (available - t - e) as nat)
    }
}

/// The shares of two parts of a whole do not exceed the whole.
proof fn lemma_shares(spare: nat, a: nat, b: nat, whole: nat)
    requires
        a + b <= whole,
        whole > 0,
    ensures
        spare * a / whole + spare * b / whole <= spare,
        spare * a <= spare * whole,
        spare * b <= spare * whole,
{
    assert(spare * a / whole + spare * b / whole <= spare && spare * a <= spare * whole && spare * b
        <= spare * whole) by (nonlinear_arith)
        requires
            a + b <= whole,
            whole > 0,
    {
        let x = spare * a / whole;
        let y = spare * b / whole;
        assert(x * whole <= spare * a);
        assert(y * whole <= spare * b);
        assert((x + y) * whole <= spare * (a + b));
        assert(spare * (a + b) <= spare * whole);
    }
}

/// The columns never take more than the room there is, and where they do not fit
/// in full they take all of it and each gets its minimum.
pub proof fn columns_fit(available: nat, trig: nat, ent: nat, chg: nat)
    requires
        available >= 37,
    ensures
        ({
            let (t, e, c) = column_widths(available, trig, ent, chg);
            &&& t + e + c <= available
            &&& trig + ent + chg > available ==> t + e + c == available && t >= 12 && e >= 10 && c
                >= 15
        }),
{
    let lacking = excess(trig, 12) + excess(ent, 10) + excess(chg, 15);
    if trig + ent + chg > available {
        lemma_shares((available - 37) as nat, excess(trig, 12), excess(ent, 10), lacking);
        assert((available - 37) as nat * excess(trig, 12) / lacking >= 0) by (nonlinear_arith)
            requires
                lacking > 0,
                available >= 37,
        ;
        assert((available - 37) as nat * excess(ent, 10) / lacking >= 0) by (nonlinear_arith)
            requires
                lacking > 0,
                available >= 37,
        ;
    }
}

/// The length of the longest cell, at least `least`.
fn widest_cell(cells: &Vec<String>, least: usize) -> (r: usize)
    ensures
        r == widest(views(cells@), least as nat),
{
    let mut width: usize = least;
    let n: usize = cells.len();
    let mut i: usize = 0;
    assert(views(cells@).take(0).len() == 0);
    while i < n
        invariant
            i <= n,
            n == cells@.len(),
            width == widest(views(cells@).take(i as int), least as nat),
        decreases n - i,
    {
        let len: usize = cells[i].as_str().unicode_len();
        proof {
            let longer = views(cells@).take(i + 1);
            assert(longer.drop_last() == views(cells@).take(i as int));
            assert(longer.last() == cells@[i as int]@);
        }
        if len > width {
            width = len;
        }
        i = i + 1;
    }
    assert(views(cells@).take(n as int) == views(cells@));
    width
}

/// What one number has over another, or zero.
fn over(n: u128, limit: u128) -> (r: u128)
    ensures
        r == excess(n as nat, limit as nat),
        r <= n,
{
    if n > limit {
        n - limit
    } else {
        0
    }
}

/// The characters that are left for the triggers, the entities and the changes.
fn available_width(term_width: usize, w_seq: usize, w_ts: usize) -> (r: usize)
    ensures
        r == room(term_width as nat, w_seq as nat, w_ts as nat),
        37 <= r <= 200,
{
    let width: usize = if term_width < 200 {
        term_width
    } else {
        200
    };
    let left: u128 = over(width as u128, w_seq as u128 + w_ts as u128 + 8);
    if left > 37 {
        left as usize
    } else {
        37
    }
}

/// The widths of the triggers, the entities and the changes.
fn divide_width(available: usize, trig: usize, ent: usize, chg: usize) -> (r: (usize, usize, usize))
    requires
        37 <= available <= 200,
    ensures
        (r.0 as nat, r.1 as nat, r.2 as nat) == column_widths(
            available as nat,
            trig as nat,
            ent as nat,
            chg as nat,
        ),
{
    if trig as u128 + ent as u128 + chg as u128 <= available as u128 {
        return (trig, ent, chg);
    }
    let spare: u128 = available as u128 - 37;
    let lack_trig: u128 = over(trig as u128, 12);
    let lack_ent: u128 = over(ent as u128, 10);
    let lacking: u128 = lack_trig + lack_ent + over(chg as u128, 15);
    proof {
        lemma_shares(spare as nat, lack_trig as nat, lack_ent as nat, lacking as nat);
        assert(spare * lack_trig <= 163 * 0x1_0000_0000_0000_0000) by (nonlinear_arith)
            requires
                0 <= spare <= 163,
                0 <= lack_trig <= 0x1_0000_0000_0000_0000,
        ;
        assert(spare * lack_ent <= 163 * 0x1_0000_0000_0000_0000) by (nonlinear_arith)
            requires
                0 <= spare <= 163,
                0 <= lack_ent <= 0x1_0000_0000_0000_0000,
        ;
        assert(0 <= spare * lack_trig / lacking as int) by (nonlinear_arith)
            requires
                0 <= spare,
                0 <= lack_trig,
                lacking > 0,
        ;
        assert(0 <= spare * lack_ent / lacking as int) by (nonlinear_arith)
            requires
                0 <= spare,
                0 <= lack_ent,
                lacking > 0,
        ;
    }
    let extra_trig: u128 = spare * lack_trig / lacking;
    let extra_ent: u128 = spare * lack_ent / lacking;
    let t: usize = 12 + extra_trig as usize;
    let e: usize = 10 + extra_ent as usize;
    (t, e, available - t - e)
}

/// The widths of the five columns.
pub struct Widths {
    pub seq: usize,
    pub ts: usize,
    pub trig: usize,
    pub ent: usize,
    pub chg: usize,
}

/// The widths of the columns of a list.
pub open spec fn list_widths(
    entries: Seq<JournalEntry>,
    absolute: bool,
    term_width: nat,
    at: Timestamp,
) -> (nat, nat, nat, nat, nat) {
    let w_seq = widest(seq_cells(entries), 3);
    let w_ts = widest(time_cells(entries, at, absolute), 9);
    let (w_trig, w_ent, w_chg) = column_widths(
        room(term_width, w_seq, w_ts),
        widest(trigger_cells(entries), 7),
        widest(entity_cells(entries), 8),
        widest(change_cells(entries), 7),
    );
    (w_seq, w_ts, w_trig, w_ent, w_chg)
}

/// The first four cells of a line, each in its width, with gaps behind them.
pub open spec fn line_start(
    w: (nat, nat, nat, nat, nat),
    seq: Seq<char>,
    ts: Seq<char>,
    trig: Seq<char>,
    ent: Seq<char>,
) -> Seq<char> {
    fitted_cell(seq, w.0) + "  "@ + fitted_cell(ts, w.1) + "  "@ + fitted_cell(trig, w.2) + "  "@
        + fitted_cell(ent, w.3) + "  "@
}

/// The line of one entry.
pub open spec fn row(
    entry: JournalEntry,
    w: (nat, nat, nat, nat, nat),
    absolute: bool,
    at: Timestamp,
) -> Seq<SpanView> {
    Seq::empty().push(
        plain(
            line_start(
                w,
                decimal(entry.seq as nat),
                time_text(entry.timestamp, at, absolute),
                trigger_fitted(entry, w.2),
                entities_fitted(entry.diff.operations@, entry.state_after.entities@, w.3),
            ),
        ),
    ) + colored_changes(shortened(changes_cell(entry), w.4))
}

/// The lines of the first `n` entries. A start of the daemon is marked off from
/// the entries before it.
pub open spec fn rows(
    entries: Seq<JournalEntry>,
    w: (nat, nat, nat, nat, nat),
    absolute: bool,
    at: Timestamp,
    n: nat,
) -> Seq<SpanView>
    decreases n,
{
    if n == 0 || n > entries.len() {
        Seq::empty().push(
            plain(line_start(w, "SEQ"@, "TIMESTAMP"@, "TRIGGER"@, "ENTITIES"@) + "CHANGES\n"@),
        )
    } else {
        let before = rows(entries, w, absolute, at, (n - 1) as nat);
        let entry = entries[n - 1];
        let line = (before + row(entry, w, absolute, at)).push(plain("\n"@));
        if entry.trigger is DaemonStartup && n < entries.len() {
            line.push(plain("──── daemon restart ────\n"@))
        } else {
            line
        }
    }
}

/// The list of entries as it is printed on a terminal of the given width: a
/// header, and a line for each entry.
pub open spec fn list_layout(
    entries: Seq<JournalEntry>,
    absolute: bool,
    term_width: nat,
    at: Timestamp,
) -> Seq<SpanView> {
    rows(entries, list_widths(entries, absolute, term_width, at), absolute, at, entries.len())
}

/// Whether the timestamps of all entries name an instant.
pub open spec fn valid_times(entries: Seq<JournalEntry>) -> bool {
    forall|i: int| 0 <= i < entries.len() ==> (#[trigger] entries[i]).timestamp.wf()
}

/// The widths of the columns of a list.
fn measure(entries: &[JournalEntry], absolute: bool, term_width: usize, at: Timestamp) -> (r:
    Widths)
    requires
        at.wf(),
        valid_times(entries@),
    ensures
        (r.seq as nat, r.ts as nat, r.trig as nat, r.ent as nat, r.chg as nat) == list_widths(
            entries@,
            absolute,
            term_width as nat,
            at,
        ),
{
    let mut seqs: Vec<String> = Vec::new();
    let mut times: Vec<String> = Vec::new();
    let mut triggers: Vec<String> = Vec::new();
    let mut entities: Vec<String> = Vec::new();
    let mut changes: Vec<String> = Vec::new();
    let n: usize = entries.len();
    let mut i: usize = 0;
    assert(views(seqs@) == seq_cells(entries@).take(0));
    assert(views(times@) == time_cells(entries@, at, absolute).take(0));
    assert(views(triggers@) == trigger_cells(entries@).take(0));
    assert(views(entities@) == entity_cells(entries@).take(0));
    assert(views(changes@) == change_cells(entries@).take(0));
    while i < n
        invariant
            i <= n,
            n == entries@.len(),
            at.wf(),
            valid_times(entries@),
            views(seqs@) == seq_cells(entries@).take(i as int),
            views(times@) == time_cells(entries@, at, absolute).take(i as int),
            views(triggers@) == trigger_cells(entries@).take(i as int),
            views(entities@) == entity_cells(entries@).take(i as int),
            views(changes@) == change_cells(entries@).take(i as int),
        decreases n - i,
    {
        let entry = &entries[i];
        push_text(&mut seqs, decimal_text(entry.seq));
        push_text(&mut times, format_timestamp(entry.timestamp, at, absolute));
        push_text(&mut triggers, format_trigger_column_fitted(entry, usize::MAX));
        push_text(
            &mut entities,
            entities_summary_with_state(
                entry.diff.operations.as_slice(),
                entry.state_after.entities.as_slice(),
            ),
        );
        push_text(&mut changes, changes_column(entry));
        proof {
            let k = i as int;
            assert(seq_cells(entries@).take(k + 1) == seq_cells(entries@).take(k).push(
                seq_cells(entries@)[k],
            ));
            assert(time_cells(entries@, at, absolute).take(k + 1) == time_cells(
                entries@,
                at,
                absolute,
            ).take(k).push(time_cells(entries@, at, absolute)[k]));
            assert(trigger_cells(entries@).take(k + 1) == trigger_cells(entries@).take(k).push(
                trigger_cells(entries@)[k],
            ));
            assert(entity_cells(entries@).take(k + 1) == entity_cells(entries@).take(k).push(
                entity_cells(entries@)[k],
            ));
            assert(change_cells(entries@).take(k + 1) == change_cells(entries@).take(k).push(
                change_cells(entries@)[k],
            ));
        }
        i = i + 1;
    }
    proof {
        let k = n as int;
        assert(seq_cells(entries@).take(k) == seq_cells(entries@));
        assert(time_cells(entries@, at, absolute).take(k) == time_cells(entries@, at, absolute));
        assert(trigger_cells(entries@).take(k) == trigger_cells(entries@));
        assert(entity_cells(entries@).take(k) == entity_cells(entries@));
        assert(change_cells(entries@).take(k) == change_cells(entries@));
    }
    let w_seq: usize = widest_cell(&seqs, 3);
    let w_ts: usize = widest_cell(&times, 9);
    let available: usize = available_width(term_width, w_seq, w_ts);
    let (w_trig, w_ent, w_chg): (usize, usize, usize) = divide_width(
        available,
        widest_cell(&triggers, 7),
        widest_cell(&entities, 8),
        widest_cell(&changes, 7),
    );
    Widths { seq: w_seq, ts: w_ts, trig: w_trig, ent: w_ent, chg: w_chg }
}

/// The first four cells of a line.
fn format_line_start(w: &Widths, seq: &str, ts: &str, trig: &str, ent: &str) -> (r: String)
    ensures
        r@ == line_start(
            (w.seq as nat, w.ts as nat, w.trig as nat, w.ent as nat, w.chg as nat),
            seq@,
            ts@,
            trig@,
            ent@,
        ),
{
    let a = pad_or_truncate(seq, w.seq);
    let b = pad_or_truncate(ts, w.ts);
    let c = pad_or_truncate(trig, w.trig);
    let d = pad_or_truncate(ent, w.ent);
    let cells = cat7(a.as_str(), "  ", b.as_str(), "  ", c.as_str(), "  ", d.as_str());
    cat2(cells.as_str(), "  ")
}

/// The list of entries as it is printed on a terminal of the given width, at a
/// given time.
pub fn text_list_spans(
    entries: &[JournalEntry],
    absolute_timestamps: bool,
    term_width: usize,
    at: Timestamp,
) -> (r: Vec<Span>)
    requires
        at.wf(),
        valid_times(entries@),
    ensures
        span_views(r@) == list_layout(entries@, absolute_timestamps, term_width as nat, at),
{
    let w = measure(entries, absolute_timestamps, term_width, at);
    let ghost widths = (w.seq as nat, w.ts as nat, w.trig as nat, w.ent as nat, w.chg as nat);
    let mut out = no_spans();
    let titles = format_line_start(&w, "SEQ", "TIMESTAMP", "TRIGGER", "ENTITIES");
    push_plain(&mut out, cat2(titles.as_str(), "CHANGES\n"));
    let n: usize = entries.len();
    let mut i: usize = 0;
    while i < n
        invariant
            i <= n,
            n == entries@.len(),
            at.wf(),
            valid_times(entries@),
            widths == (w.seq as nat, w.ts as nat, w.trig as nat, w.ent as nat, w.chg as nat),
            span_views(out@) == rows(entries@, widths, absolute_timestamps, at, i as nat),
        decreases n - i,
    {
        let entry = &entries[i];
        let seq = decimal_text(entry.seq);
        let ts = format_timestamp(entry.timestamp, at, absolute_timestamps);
        let trig = format_trigger_column_fitted(entry, w.trig);
        let ent = entities_summary_fitted(
            entry.diff.operations.as_slice(),
            entry.state_after.entities.as_slice(),
            w.ent,
        );
        let all_changes = changes_column(entry);
        let changes = truncate_with_ellipsis(all_changes.as_str(), w.chg);
        let mut line = no_spans();
        push_plain(
            &mut line,
            format_line_start(&w, seq.as_str(), ts.as_str(), trig.as_str(), ent.as_str()),
        );
        push_all(&mut line, colored_change_spans(changes.as_str()));
        push_all(&mut out, line);
        push_plain(&mut out, "\n".to_owned());
        let startup = match &entry.trigger {
            Trigger::DaemonStartup => true,
            _ => false,
        };
        if startup && i + 1 < n {
            push_plain(&mut out, "──── daemon restart ────\n".to_owned());
        }
        i = i + 1;
    }
    out
}

/// The list of entries as it is printed on a terminal of the given width.
pub fn format_text_list_with_width(
    entries: &[JournalEntry],
    absolute_timestamps: bool,
    term_width: usize,
) -> (r: String)
    requires
        valid_times(entries@),
    ensures
        exists|at: Timestamp|
            at.wf() && rendering(
                #[trigger] list_layout(entries@, absolute_timestamps, term_width as nat, at),
                r@,
            ),
{
    let at = now();
    let spans = text_list_spans(entries, absolute_timestamps, term_width, at);
    render(&spans)
}

/// Calls `terminal_size::terminal_size` for the width of the terminal. Nothing is
/// claimed of it: it depends on the terminal, and there may be none.
#[verifier::external_body]
fn terminal_columns() -> (r: Option<u16>) {
    terminal_size::terminal_size().map(|size| size.0.0)
}

/// The width of the terminal; 120 where there is none.
pub fn width_or_default(columns: Option<u16>) -> (r: usize)
    ensures
        r == (match columns {
            Some(w) => w as usize,
            None => 120,
        }),
{
    match columns {
        Some(w) => w as usize,
        None => 120,
    }
}

/// The width of the terminal; 120 where there is none.
pub fn get_terminal_width() -> (r: usize)
    ensures
        r <= 65535,
{
    width_or_default(terminal_columns())
}

/// The list of entries as it is printed on the terminal.
pub fn format_text_list(entries: &[JournalEntry], absolute_timestamps: bool) -> (r: String)
    requires
        valid_times(entries@),
    ensures
        exists|at: Timestamp, width: nat|
            at.wf() && width <= 65535 && rendering(
                #[trigger] list_layout(entries@, absolute_timestamps, width, at),
                r@,
            ),
{
    let width: usize = get_terminal_width();
    format_text_list_with_width(entries, absolute_timestamps, width)
}

// ── Detail ───────────────────────────────────────────────────────────────────

/// Whether a field was to be changed and the change failed or was skipped.
pub open spec fn not_applied(fc: SerializableFieldChange) -> bool {
    fc.change_kind@ != "unchanged"@ && fc.outcome is Some && (fc.outcome->0@ == "failed"@
        || fc.outcome->0@ == "skipped"@)
}

/// Whether a change of one of the fields failed or was skipped.
pub open spec fn any_not_applied(fields: Seq<SerializableFieldChange>) -> bool {
    exists|i: int| 0 <= i < fields.len() && not_applied(#[trigger] fields[i])
}

/// Whether an entry was applied, and the change of some field failed or was
/// skipped.
pub open spec fn mixed_outcomes(entry: JournalEntry) -> bool {
    let ops = entry.diff.operations@;
    &&& entry.outcome !is Observed
    &&& exists|i: int| 0 <= i < ops.len() && any_not_applied((#[trigger] ops[i]).field_changes@)
}

/// The remark behind a changed field on how its change went.
pub open spec fn annotation_spans(annotation: Option<Seq<char>>) -> Seq<SpanView> {
    match annotation {
        None => Seq::empty(),
        Some(word) => if word == "failed"@ {
            Seq::empty().push(plain("  ["@)).push(styled(Style::Red, word)).push(plain("]"@))
        } else if word == "skipped"@ {
            Seq::empty().push(plain("  ["@)).push(styled(Style::Yellow, word)).push(plain("]"@))
        } else if word == "applied"@ {
            Seq::empty().push(plain("  ["@)).push(styled(Style::Green, word)).push(plain("]"@))
        } else {
            Seq::empty().push(plain("  ["@ + word + "]"@))
        },
    }
}

/// The lines on a changed single value.
pub open spec fn scalar_lines(
    fc: SerializableFieldChange,
    annotation: Option<Seq<char>>,
) -> Seq<SpanView> {
    let name = fc.field_name@;
    let ann = annotation_spans(annotation);
    let old_line = "-"@ + name + ": "@ + opt_compact(fc.current);
    let new_line = "+"@ + name + ": "@ + opt_compact(fc.desired);
    if fc.change_kind@ == "set"@ && fc.current is None {
        (Seq::empty().push(plain("      "@)).push(styled(Style::Green, new_line)) + ann).push(
            plain("\n"@),
        )
    } else if fc.change_kind@ == "set"@ {
        (Seq::empty().push(plain("      "@)).push(styled(Style::Red, old_line)).push(
            plain("\n"@),
        ).push(plain("      "@)).push(styled(Style::Green, new_line)) + ann).push(plain("\n"@))
    } else if fc.change_kind@ == "unset"@ {
        (Seq::empty().push(plain("      "@)).push(styled(Style::Red, old_line)) + ann).push(
            plain("\n"@),
        )
    } else {
        Seq::empty()
    }
}

/// An element of a list as it is shown: a string without quotes, a route by its
/// destination, its gateway and its metric, anything else as JSON.
pub open spec fn element_text(j: Json) -> Seq<char> {
    match j {
        Json::Str(s) => s@,
        _ => match string_member(j, "destination"@) {
            Some(dest) => {
                let via = match string_member(j, "gateway"@) {
                    Some(gw) => dest + " via "@ + gw,
                    None => dest,
                };
                match member(j, "metric"@) {
                    Some(Json::PosInt(metric)) if metric != 0 => via + " metric "@ + decimal(
                        metric as nat,
                    ),
                    _ => via,
                }
            },
            None => compact(j),
        },
    }
}

/// The lines on those of the first `n` elements that another list lacks.
pub open spec fn element_lines(
    style: Style,
    start: Seq<char>,
    list: Seq<Json>,
    from: Seq<Json>,
    ann: Seq<SpanView>,
    n: nat,
) -> Seq<SpanView>
    decreases n,
{
    if n == 0 || n > list.len() {
        Seq::empty()
    } else {
        let before = element_lines(style, start, list, from, ann, (n - 1) as nat);
        if json_in(from, list[n - 1]) {
            before
        } else {
            (before.push(styled(style, start + element_text(list[n - 1]))) + ann).push(
                plain("\n"@),
            )
        }
    }
}

/// The lines on a changed list: what it gains and what it loses.
pub open spec fn list_lines(
    fc: SerializableFieldChange,
    annotation: Option<Seq<char>>,
) -> Seq<SpanView> {
    let current = items_of(fc.current);
    let desired = items_of(fc.desired);
    let ann = annotation_spans(annotation);
    Seq::empty().push(plain("      "@ + fc.field_name@ + ":\n"@)) + element_lines(
        Style::Green,
        "        +"@,
        desired,
        current,
        ann,
        desired.len(),
    ) + element_lines(Style::Red, "        -"@, current, desired, ann, current.len())
}

/// The lines on a field.
pub open spec fn field_lines(fc: SerializableFieldChange, annotate: bool) -> Seq<SpanView> {
    let annotation = if annotate {
        crate::query::opt_view(fc.outcome)
    } else {
        None
    };
    if fc.change_kind@ == "unchanged"@ {
        Seq::empty()
    } else if is_list(fc.current) || is_list(fc.desired) {
        list_lines(fc, annotation)
    } else {
        scalar_lines(fc, annotation)
    }
}

/// The lines on the first `n` fields.
pub open spec fn fields_lines(
    fields: Seq<SerializableFieldChange>,
    annotate: bool,
    n: nat,
) -> Seq<SpanView>
    decreases n,
{
    if n == 0 || n > fields.len() {
        Seq::empty()
    } else {
        fields_lines(fields, annotate, (n - 1) as nat) + field_lines(fields[n - 1], annotate)
    }
}

/// The line that names the entity of an operation.
pub open spec fn op_header(op: SerializableDiffOp) -> SpanView {
    if op.kind@ == "add"@ {
        styled(Style::Green, "  + "@ + op.entity_type@ + " "@ + op.entity_name@ + "\n"@)
    } else if op.kind@ == "remove"@ {
        styled(Style::Red, "  - "@ + op.entity_type@ + " "@ + op.entity_name@ + "\n"@)
    } else {
        styled(Style::Yellow, "  ~ "@ + op.entity_type@ + " "@ + op.entity_name@ + "\n"@)
    }
}

/// The lines on the first `n` operations.
pub open spec fn op_lines(ops: Seq<SerializableDiffOp>, annotate: bool, n: nat) -> Seq<SpanView>
    decreases n,
{
    if n == 0 || n > ops.len() {
        Seq::empty()
    } else {
        op_lines(ops, annotate, (n - 1) as nat).push(op_header(ops[n - 1])) + fields_lines(
            ops[n - 1].field_changes@,
            annotate,
            ops[n - 1].field_changes@.len(),
        )
    }
}

/// The lines on the first `n` active policies.
pub open spec fn policy_lines(policies: Seq<PolicySummary>, n: nat) -> Seq<SpanView>
    decreases n,
{
    if n == 0 || n > policies.len() {
        Seq::empty()
    } else {
        policy_lines(policies, (n - 1) as nat).push(
            plain(
                "  - "@ + policies[n - 1].name@ + " ("@ + policies[n - 1].factory_type@
                    + ", priority "@ + decimal(policies[n - 1].priority as nat) + ")\n"@,
            ),
        )
    }
}

/// The entries of a state: its type, its name, then its fields.
pub open spec fn state_entries(state: SerializableState) -> Seq<(Seq<char>, JsonView)> {
    let named = with_entry(
        seq![("type"@, JsonView::Str(state.entity_type@))],
        "name"@,
        JsonView::Str(state.selector_name@),
    );
    match state.fields {
        Json::Dict(fields) => with_fields(named, fields@, fields@.len()),
        _ => named,
    }
}

/// The entries of each state.
pub open spec fn states_entries(
    states: Seq<SerializableState>,
) -> Seq<Seq<(Seq<char>, JsonView)>> {
    states.map_values(|s: SerializableState| state_entries(s))
}

/// A text without the mark that begins a YAML document.
pub open spec fn without_document_mark(yaml: Seq<char>) -> Seq<char> {
    if crate::text::occurs_at(yaml, "---\n"@, 0) {
        yaml.skip("---\n"@.len() as int)
    } else {
        yaml
    }
}

/// The states as YAML; nothing where they cannot be written.
pub open spec fn states_yaml(states: Seq<SerializableState>) -> Seq<char> {
    match yaml_written(states_entries(states)) {
        Some(yaml) => without_document_mark(yaml),
        None => Seq::empty(),
    }
}

/// The first lines of an entry in full: its number and time, its trigger, and the
/// active policies where there are any.
pub open spec fn detail_head(entry: JournalEntry) -> Seq<SpanView> {
    let policies = entry.active_policies@;
    let head = Seq::empty().push(
        plain(
            "Entry #"@ + decimal(entry.seq as nat) + " at "@ + instant_text(
                entry.timestamp.secs,
                entry.timestamp.nanos,
                "%Y-%m-%d %H:%M:%S"@,
            ) + " UTC\n"@,
        ),
    ).push(
        plain(
            "Trigger: "@ + trigger_name(entry.trigger) + trigger_detail(entry.trigger) + "\n"@,
        ),
    );
    if policies.len() == 0 {
        head
    } else {
        head.push(plain("Active policies:\n"@)) + policy_lines(policies, policies.len())
    }
}

/// An entry in full: its head, the difference that it made, how that went, and
/// the state after it.
pub open spec fn detail_layout(entry: JournalEntry) -> Seq<SpanView> {
    let ops = entry.diff.operations@;
    let states = entry.state_after.entities@;
    let head = detail_head(entry).push(plain("Diff:\n"@));
    let diff = if ops.len() == 0 {
        head.push(plain("  (no changes)\n"@))
    } else {
        head + op_lines(ops, mixed_outcomes(entry), ops.len())
    };
    let outcome = diff.push(plain("Outcome: "@ + full_outcome(entry.outcome) + "\n"@));
    if states.len() == 0 {
        outcome
    } else {
        outcome.push(plain("State after:\n"@)).push(plain(states_yaml(states)))
    }
}

/// Whether a change of one of the fields failed or was skipped.
fn has_not_applied(fields: &Vec<SerializableFieldChange>) -> (r: bool)
    ensures
        r == any_not_applied(fields@),
{
    let n: usize = fields.len();
    let mut i: usize = 0;
    while i < n
        invariant
            i <= n,
            n == fields@.len(),
            forall|k: int| 0 <= k < i ==> !not_applied(#[trigger] fields@[k]),
        decreases n - i,
    {
        let fc = &fields[i];
        if !same(fc.change_kind.as_str(), "unchanged") {
            if let Some(word) = &fc.outcome {
                if same(word.as_str(), "failed") || same(word.as_str(), "skipped") {
                    assert(not_applied(fields@[i as int]));
                    return true;
                }
            }
        }
        i = i + 1;
    }
    false
}

/// Whether an entry was applied, and the change of some field failed or was
/// skipped.
fn has_mixed_outcomes(entry: &JournalEntry) -> (r: bool)
    ensures
        r == mixed_outcomes(*entry),
{
    if let ApplyOutcome::Observed = entry.outcome {
        return false;
    }
    let ops = &entry.diff.operations;
    let n: usize = ops.len();
    let mut i: usize = 0;
    while i < n
        invariant
            i <= n,
            n == ops@.len(),
            ops@ == entry.diff.operations@,
            entry.outcome !is Observed,
            forall|k: int| 0 <= k < i ==> !any_not_applied((#[trigger] ops@[k]).field_changes@),
        decreases n - i,
    {
        if has_not_applied(&ops[i].field_changes) {
            assert(any_not_applied(ops@[i as int].field_changes@));
            return true;
        }
        i = i + 1;
    }
    false
}

/// The characters of an optional string slice.
pub open spec fn opt_str_view(s: Option<&str>) -> Option<Seq<char>> {
    match s {
        Some(t) => Some(t@),
        None => None,
    }
}

/// The remark behind a changed field.
fn annotation_of(annotation: Option<&str>) -> (r: Vec<Span>)
    ensures
        span_views(r@) == annotation_spans(opt_str_view(annotation)),
{
    let mut out = no_spans();
    if let Some(word) = annotation {
        let style = if same(word, "failed") {
            Style::Red
        } else if same(word, "skipped") {
            Style::Yellow
        } else if same(word, "applied") {
            Style::Green
        } else {
            Style::Plain
        };
        if style == Style::Plain {
            push_plain(&mut out, cat3("  [", word, "]"));
        } else {
            push_plain(&mut out, "  [".to_owned());
            push_styled(&mut out, style, word.to_owned());
            push_plain(&mut out, "]".to_owned());
        }
    }
    out
}

/// The remark behind a changed field, in printed form.
pub fn format_annotation_colored(annotation: Option<&str>) -> (r: String)
    ensures
        rendering(annotation_spans(opt_str_view(annotation)), r@),
{
    let spans = annotation_of(annotation);
    render(&spans)
}

/// The lines on a changed single value.
fn format_scalar_field_diff(fc: &SerializableFieldChange, annotation: Option<&str>) -> (r: Vec<
    Span,
>)
    ensures
        span_views(r@) == scalar_lines(*fc, opt_str_view(annotation)),
{
    let mut out = no_spans();
    let name = fc.field_name.as_str();
    let kind = fc.change_kind.as_str();
    let ann = annotation_of(annotation);
    let current = opt_json_compact(&fc.current);
    let desired = opt_json_compact(&fc.desired);
    let old_line = cat4("-", name, ": ", current.as_str());
    let new_line = cat4("+", name, ": ", desired.as_str());
    if same(kind, "set") {
        if fc.current.is_some() {
            push_plain(&mut out, "      ".to_owned());
            push_styled(&mut out, Style::Red, old_line);
            push_plain(&mut out, "\n".to_owned());
        }
        push_plain(&mut out, "      ".to_owned());
        push_styled(&mut out, Style::Green, new_line);
        push_all(&mut out, ann);
        push_plain(&mut out, "\n".to_owned());
    } else if same(kind, "unset") {
        push_plain(&mut out, "      ".to_owned());
        push_styled(&mut out, Style::Red, old_line);
        push_all(&mut out, ann);
        push_plain(&mut out, "\n".to_owned());
    }
    out
}

/// An element of a list as it is shown.
pub fn format_list_element(v: &Json) -> (r: String)
    ensures
        r@ == element_text(*v),
{
    match v {
        Json::Str(s) => s.clone(),
        _ => match v.get_str("destination") {
            Some(dest) => {
                let mut s = match v.get_str("gateway") {
                    Some(gw) => cat3(dest, " via ", gw),
                    None => dest.to_owned(),
                };
                if let Some(m) = v.get("metric") {
                    if let Some(metric) = m.as_u64() {
                        if metric != 0 {
                            s.append(" metric ");
                            let digits = decimal_text(metric);
                            s.append(digits.as_str());
                        }
                    }
                }
                s
            },
            None => json_compact(v),
        },
    }
}

/// Appends the lines on the elements that another list lacks.
fn push_elements(
    out: &mut Vec<Span>,
    style: Style,
    start: &str,
    list: &[Json],
    from: &[Json],
    annotation: Option<&str>,
)
    ensures
        span_views(final(out)@) == span_views(old(out)@) + element_lines(
            style,
            start@,
            list@,
            from@,
            annotation_spans(opt_str_view(annotation)),
            list@.len(),
        ),
{
    let ghost ann = annotation_spans(opt_str_view(annotation));
    let n: usize = list.len();
    let mut i: usize = 0;
    assert(span_views(out@) == span_views(old(out)@) + Seq::<SpanView>::empty());
    while i < n
        invariant
            i <= n,
            n == list@.len(),
            ann == annotation_spans(opt_str_view(annotation)),
            span_views(out@) == span_views(old(out)@) + element_lines(
                style,
                start@,
                list@,
                from@,
                ann,
                i as nat,
            ),
        decreases n - i,
    {
        if !has_json(from, &list[i]) {
            let text = format_list_element(&list[i]);
            push_styled(out, style, cat2(start, text.as_str()));
            push_all(out, annotation_of(annotation));
            push_plain(out, "\n".to_owned());
        }
        i = i + 1;
    }
}

/// The lines on a changed list.
fn format_list_field_diff(fc: &SerializableFieldChange, annotation: Option<&str>) -> (r: Vec<
    Span,
>)
    ensures
        span_views(r@) == list_lines(*fc, opt_str_view(annotation)),
{
    let current = items(&fc.current);
    let desired = items(&fc.desired);
    let mut out = no_spans();
    push_plain(&mut out, cat3("      ", fc.field_name.as_str(), ":\n"));
    push_elements(&mut out, Style::Green, "        +", desired, current, annotation);
    push_elements(&mut out, Style::Red, "        -", current, desired, annotation);
    out
}

/// The lines on a field.
fn field_spans(fc: &SerializableFieldChange, annotate: bool) -> (r: Vec<Span>)
    ensures
        span_views(r@) == field_lines(*fc, annotate),
{
    let annotation = match &fc.outcome {
        Some(word) if annotate => Some(word.as_str()),
        _ => None,
    };
    if same(fc.change_kind.as_str(), "unchanged") {
        let none: Vec<Span> = Vec::new();
        assert(span_views(none@) == Seq::<SpanView>::empty());
        none
    } else if holds_list(&fc.current) || holds_list(&fc.desired) {
        format_list_field_diff(fc, annotation)
    } else {
        format_scalar_field_diff(fc, annotation)
    }
}

/// The line that names the entity of an operation.
fn push_op_header(out: &mut Vec<Span>, op: &SerializableDiffOp)
    ensures
        span_views(final(out)@) == span_views(old(out)@).push(op_header(*op)),
{
    let kind = op.kind.as_str();
    let entity_type = op.entity_type.as_str();
    let name = op.entity_name.as_str();
    if same(kind, "add") {
        push_styled(out, Style::Green, cat5("  + ", entity_type, " ", name, "\n"));
    } else if same(kind, "remove") {
        push_styled(out, Style::Red, cat5("  - ", entity_type, " ", name, "\n"));
    } else {
        push_styled(out, Style::Yellow, cat5("  ~ ", entity_type, " ", name, "\n"));
    }
}

/// The lines on all operations.
fn op_spans(ops: &Vec<SerializableDiffOp>, annotate: bool) -> (r: Vec<Span>)
    ensures
        span_views(r@) == op_lines(ops@, annotate, ops@.len()),
{
    let mut out = no_spans();
    let n: usize = ops.len();
    let mut i: usize = 0;
    while i < n
        invariant
            i <= n,
            n == ops@.len(),
            span_views(out@) == op_lines(ops@, annotate, i as nat),
        decreases n - i,
    {
        let op = &ops[i];
        let fields = &op.field_changes;
        let m: usize = fields.len();
        let mut lines = no_spans();
        let mut k: usize = 0;
        while k < m
            invariant
                k <= m,
                m == fields@.len(),
                span_views(lines@) == fields_lines(fields@, annotate, k as nat),
            decreases m - k,
        {
            push_all(&mut lines, field_spans(&fields[k], annotate));
            k = k + 1;
        }
        push_op_header(&mut out, op);
        push_all(&mut out, lines);
        i = i + 1;
    }
    out
}

/// The flat map of a state: its type, its name, then its fields.
pub fn serializable_state_to_flat_map(state: &SerializableState) -> (r: indexmap::IndexMap<
    String,
    serde_json::Value,
>)
    ensures
        flat_entries(r) == state_entries(*state),
{
    let mut map = map_of_text("type", state.entity_type.as_str());
    put_text(&mut map, "name", state.selector_name.as_str());
    if let Json::Dict(fields) = &state.fields {
        put_fields(&mut map, fields);
    }
    map
}

/// The states as YAML.
fn format_states(states: &Vec<SerializableState>) -> (r: String)
    ensures
        r@ == states_yaml(states@),
{
    let mut maps: Vec<indexmap::IndexMap<String, serde_json::Value>> = Vec::new();
    let n: usize = states.len();
    let mut i: usize = 0;
    assert(flat_views(maps@) == states_entries(states@).take(0));
    while i < n
        invariant
            i <= n,
            n == states@.len(),
            flat_views(maps@) == states_entries(states@).take(i as int),
        decreases n - i,
    {
        let ghost before = maps@;
        let map = serializable_state_to_flat_map(&states[i]);
        maps.push(map);
        proof {
            assert(flat_views(maps@) == flat_views(before).push(flat_entries(map)));
            assert(states_entries(states@).take(i + 1) == states_entries(states@).take(
                i as int,
            ).push(states_entries(states@)[i as int]));
        }
        i = i + 1;
    }
    assert(states_entries(states@).take(n as int) == states_entries(states@));
    match write_yaml(&maps) {
        Some(yaml) => {
            let text = yaml.as_str();
            if starts_with(text, "---\n") {
                proof {
                    reveal_strlit("---\n");
                }
                let end: usize = text.unicode_len();
                let rest = text.substring_char(4, end);
                assert(rest@ == text@.skip(4));
                rest.to_owned()
            } else {
                yaml
            }
        },
        None => String::new(),
    }
}

/// The first lines of an entry in full.
pub fn detail_head_spans(entry: &JournalEntry) -> (r: Vec<Span>)
    requires
        entry.timestamp.wf(),
    ensures
        span_views(r@) == detail_head(*entry),
{
    let mut out = no_spans();
    let seq = decimal_text(entry.seq);
    let ts = format_instant(entry.timestamp, "%Y-%m-%d %H:%M:%S");
    push_plain(&mut out, cat5("Entry #", seq.as_str(), " at ", ts.as_str(), " UTC\n"));
    let detail = trigger_detail_str(&entry.trigger);
    push_plain(
        &mut out,
        cat4("Trigger: ", trigger_display_name(&entry.trigger), detail.as_str(), "\n"),
    );
    let policies = &entry.active_policies;
    let n: usize = policies.len();
    if n > 0 {
        push_plain(&mut out, "Active policies:\n".to_owned());
        let ghost before = span_views(out@);
        assert(span_views(out@) == before + Seq::<SpanView>::empty());
        let mut i: usize = 0;
        while i < n
            invariant
                i <= n,
                n == policies@.len(),
                span_views(out@) == before + policy_lines(policies@, i as nat),
            decreases n - i,
        {
            let p = &policies[i];
            let priority = decimal_text(p.priority as u64);
            push_plain(
                &mut out,
                cat7(
                    "  - ",
                    p.name.as_str(),
                    " (",
                    p.factory_type.as_str(),
                    ", priority ",
                    priority.as_str(),
                    ")\n",
                ),
            );
            i = i + 1;
        }
    }
    out
}

/// An entry in full.
pub fn text_detail_spans(entry: &JournalEntry) -> (r: Vec<Span>)
    requires
        entry.timestamp.wf(),
    ensures
        span_views(r@) == detail_layout(*entry),
{
    let mut out = detail_head_spans(entry);
    push_plain(&mut out, "Diff:\n".to_owned());
    if entry.diff.operations.len() == 0 {
        push_plain(&mut out, "  (no changes)\n".to_owned());
    } else {
        push_all(&mut out, op_spans(&entry.diff.operations, has_mixed_outcomes(entry)));
    }
    let outcome = outcome_detail(&entry.outcome);
    push_plain(&mut out, cat3("Outcome: ", outcome.as_str(), "\n"));
    if entry.state_after.entities.len() > 0 {
        push_plain(&mut out, "State after:\n".to_owned());
        push_plain(&mut out, format_states(&entry.state_after.entities));
    }
    out
}

/// An entry in full, in printed form.
pub fn format_text_detail(entry: &JournalEntry) -> (r: String)
    requires
        entry.timestamp.wf(),
    ensures
        rendering(detail_layout(*entry), r@),
{
    let spans = text_detail_spans(entry);
    render(&spans)
}

// ── Laws ─────────────────────────────────────────────────────────────────────

/// A shortened trigger takes no more than its limit, but for an apply without
/// policies, which is not shortened.
pub proof fn triggers_fit(entry: JournalEntry, max: nat)
    requires
        entry.trigger is PolicyApply ==> entry.active_policies@.len() > 0,
    ensures
        trigger_fitted(entry, max).len() <= max,
{
    let names = policy_names(entry.active_policies@);
    if entry.trigger is PolicyApply {
        lemma_apply_fits(names, trigger_cell(entry), names.len(), max);
    }
}

/// A shortened apply takes no more than its limit.
proof fn lemma_apply_fits(names: Seq<Seq<char>>, full: Seq<char>, shown: nat, max: nat)
    requires
        0 < shown <= names.len(),
    ensures
        apply_fitted(names, full, shown, max).len() <= max,
    decreases shown,
{
    if apply_naming(names, shown).len() > max {
        if shown > 1 {
            lemma_apply_fits(names, full, (shown - 1) as nat, max);
        } else {
            reveal_strlit("apply (");
            reveal_strlit("…");
            assert(names.take(1) == seq![names[0]]);
            assert(joined(seq![names[0]], ", "@) == names[0]);
            assert(apply_fitted(names, full, 0, max) == apply_cut(names, full, max));
        }
    }
}

/// No line of a list is longer than its columns and the gaps between them, and
/// where the columns are not at their minimum none is longer than the terminal is
/// wide, nor than 200 characters.
pub proof fn lines_fit(
    entries: Seq<JournalEntry>,
    absolute: bool,
    term_width: nat,
    at: Timestamp,
    i: int,
)
    requires
        0 <= i < entries.len(),
    ensures
        ({
            let w = list_widths(entries, absolute, term_width, at);
            let line = plain_text(row(entries[i], w, absolute, at));
            &&& line.len() <= w.0 + w.1 + w.2 + w.3 + w.4 + 8
            &&& room(term_width, w.0, w.1) > 37 ==> line.len() <= term_width && line.len() <= 200
        }),
{
    let w = list_widths(entries, absolute, term_width, at);
    let entry = entries[i];
    let trig = widest(trigger_cells(entries), 7);
    let ent = widest(entity_cells(entries), 8);
    let chg = widest(change_cells(entries), 7);
    columns_fit(room(term_width, w.0, w.1), trig, ent, chg);
    lemma_widest_least(change_cells(entries), 7);
    let start = line_start(
        w,
        decimal(entry.seq as nat),
        time_text(entry.timestamp, at, absolute),
        trigger_fitted(entry, w.2),
        entities_fitted(entry.diff.operations@, entry.state_after.entities@, w.3),
    );
    let changes = shortened(changes_cell(entry), w.4);
    let first = Seq::empty().push(plain(start));
    lemma_plain_text_parts(first, colored_changes(changes));
    colour_keeps_changes(changes);
    assert(first.drop_last() == Seq::<SpanView>::empty());
    assert(plain_text(Seq::<SpanView>::empty()) == Seq::<char>::empty());
    reveal_strlit("  ");
    cells_take_their_width(decimal(entry.seq as nat), w.0);
    cells_take_their_width(time_text(entry.timestamp, at, absolute), w.1);
    cells_take_their_width(changes_cell(entry), w.4);
    assert(start.len() == w.0 + w.1 + w.2 + w.3 + 8);
}

/// The longest cell is at least as long as asked for.
proof fn lemma_widest_least(cells: Seq<Seq<char>>, least: nat)
    ensures
        widest(cells, least) >= least,
    decreases cells.len(),
{
    if cells.len() > 0 {
        lemma_widest_least(cells.drop_last(), least);
    }
}

/// An entry that lies ahead of the clock is shown as one of this moment.
pub proof fn times_to_come_are_now(ts: Timestamp, at: Timestamp)
    requires
        seconds_between(ts, at) <= 0,
    ensures
        time_text(ts, at, false) == time_text(at, at, false),
{
}

/// The lines on some elements and others behind them are those on the first,
/// then those on the others.
pub proof fn elements_of_parts(
    style: Style,
    start: Seq<char>,
    a: Seq<Json>,
    b: Seq<Json>,
    from: Seq<Json>,
    ann: Seq<SpanView>,
)
    ensures
        element_lines(style, start, a + b, from, ann, (a + b).len()) == element_lines(style, start, a, from, ann, a.len()) + element_lines(style, start, b, from, ann, b.len()),
{
    lemma_elements_of_parts(style, start, a, b, from, ann, b.len());
}

/// The first elements give the same whatever stands behind them.
proof fn lemma_elements_of_parts_start(
    style: Style,
    start: Seq<char>,
    a: Seq<Json>,
    b: Seq<Json>,
    from: Seq<Json>,
    ann: Seq<SpanView>,
    n: nat,
)
    requires
        n <= a.len(),
    ensures
        element_lines(style, start, a + b, from, ann, n) == element_lines(style, start, a, from, ann, n),
    decreases n,
{
    if n > 0 {
        lemma_elements_of_parts_start(style, start, a, b, from, ann, (n - 1) as nat);
        assert((a + b)[n - 1] == a[n - 1]);
    }
}

/// The first `m` elements of the second part follow all of the first part.
proof fn lemma_elements_of_parts(
    style: Style,
    start: Seq<char>,
    a: Seq<Json>,
    b: Seq<Json>,
    from: Seq<Json>,
    ann: Seq<SpanView>,
    m: nat,
)
    requires
        m <= b.len(),
    ensures
        element_lines(style, start, a + b, from, ann, a.len() + m) == element_lines(style, start, a, from, ann, a.len()) + element_lines(style, start, b, from, ann, m),
    decreases m,
{
    if m == 0 {
        lemma_elements_of_parts_start(style, start, a, b, from, ann, a.len());
    } else {
        lemma_elements_of_parts(style, start, a, b, from, ann, (m - 1) as nat);
        assert((a + b)[a.len() + m - 1] == b[m - 1]);
    }
}

/// The lines on some fields and others behind them are those on the first,
/// then those on the others.
pub proof fn detail_fields_of_parts(
    a: Seq<SerializableFieldChange>,
    b: Seq<SerializableFieldChange>,
    annotate: bool,
)
    ensures
        fields_lines(a + b, annotate, (a + b).len()) == fields_lines(a, annotate, a.len()) + fields_lines(b, annotate, b.len()),
{
    lemma_detail_fields_of_parts(a, b, annotate, b.len());
}

/// The first elements give the same whatever stands behind them.
proof fn lemma_detail_fields_of_parts_start(
    a: Seq<SerializableFieldChange>,
    b: Seq<SerializableFieldChange>,
    annotate: bool,
    n: nat,
)
    requires
        n <= a.len(),
    ensures
        fields_lines(a + b, annotate, n) == fields_lines(a, annotate, n),
    decreases n,
{
    if n > 0 {
        lemma_detail_fields_of_parts_start(a, b, annotate, (n - 1) as nat);
        assert((a + b)[n - 1] == a[n - 1]);
    }
}

/// The first `m` elements of the second part follow all of the first part.
proof fn lemma_detail_fields_of_parts(
    a: Seq<SerializableFieldChange>,
    b: Seq<SerializableFieldChange>,
    annotate: bool,
    m: nat,
)
    requires
        m <= b.len(),
    ensures
        fields_lines(a + b, annotate, a.len() + m) == fields_lines(a, annotate, a.len()) + fields_lines(b, annotate, m),
    decreases m,
{
    if m == 0 {
        lemma_detail_fields_of_parts_start(a, b, annotate, a.len());
    } else {
        lemma_detail_fields_of_parts(a, b, annotate, (m - 1) as nat);
        assert((a + b)[a.len() + m - 1] == b[m - 1]);
    }
}

/// The lines on some operations and others behind them are those on the first,
/// then those on the others: no operation is left out or shown otherwise for
/// where it stands.
pub proof fn detail_ops_of_parts(
    a: Seq<SerializableDiffOp>,
    b: Seq<SerializableDiffOp>,
    annotate: bool,
)
    ensures
        op_lines(a + b, annotate, (a + b).len()) == op_lines(a, annotate, a.len()) + op_lines(b, annotate, b.len()),
{
    lemma_detail_ops_of_parts(a, b, annotate, b.len());
}

/// The first elements give the same whatever stands behind them.
proof fn lemma_detail_ops_of_parts_start(
    a: Seq<SerializableDiffOp>,
    b: Seq<SerializableDiffOp>,
    annotate: bool,
    n: nat,
)
    requires
        n <= a.len(),
    ensures
        op_lines(a + b, annotate, n) == op_lines(a, annotate, n),
    decreases n,
{
    if n > 0 {
        lemma_detail_ops_of_parts_start(a, b, annotate, (n - 1) as nat);
        assert((a + b)[n - 1] == a[n - 1]);
    }
}

/// The first `m` elements of the second part follow all of the first part.
proof fn lemma_detail_ops_of_parts(
    a: Seq<SerializableDiffOp>,
    b: Seq<SerializableDiffOp>,
    annotate: bool,
    m: nat,
)
    requires
        m <= b.len(),
    ensures
        op_lines(a + b, annotate, a.len() + m) == op_lines(a, annotate, a.len()) + op_lines(b, annotate, m),
    decreases m,
{
    if m == 0 {
        lemma_detail_ops_of_parts_start(a, b, annotate, a.len());
    } else {
        lemma_detail_ops_of_parts(a, b, annotate, (m - 1) as nat);
        assert((a + b)[a.len() + m - 1] == b[m - 1]);
    }
}

/// The lines on some policies and others behind them are those on the first,
/// then those on the others.
pub proof fn policies_of_parts(
    a: Seq<PolicySummary>,
    b: Seq<PolicySummary>,
)
    ensures
        policy_lines(a + b, (a + b).len()) == policy_lines(a, a.len()) + policy_lines(b, b.len()),
{
    lemma_policies_of_parts(a, b, b.len());
}

/// The first elements give the same whatever stands behind them.
proof fn lemma_policies_of_parts_start(
    a: Seq<PolicySummary>,
    b: Seq<PolicySummary>,
    n: nat,
)
    requires
        n <= a.len(),
    ensures
        policy_lines(a + b, n) == policy_lines(a, n),
    decreases n,
{
    if n > 0 {
        lemma_policies_of_parts_start(a, b, (n - 1) as nat);
        assert((a + b)[n - 1] == a[n - 1]);
    }
}

/// The first `m` elements of the second part follow all of the first part.
proof fn lemma_policies_of_parts(
    a: Seq<PolicySummary>,
    b: Seq<PolicySummary>,
    m: nat,
)
    requires
        m <= b.len(),
    ensures
        policy_lines(a + b, a.len() + m) == policy_lines(a, a.len()) + policy_lines(b, m),
    decreases m,
{
    if m == 0 {
        lemma_policies_of_parts_start(a, b, a.len());
    } else {
        lemma_policies_of_parts(a, b, (m - 1) as nat);
        assert((a + b)[a.len() + m - 1] == b[m - 1]);
    }
}

/// One operation in full: a line that names its entity, with the sign and the colour
/// of what was done to it, then the lines on its fields.
pub proof fn detail_op_of_one(op: SerializableDiffOp, annotate: bool)
    ensures
        ({
            let lines = op_lines(seq![op], annotate, 1);
            &&& lines.skip(1) == fields_lines(op.field_changes@, annotate, op.field_changes@.len())
            &&& lines.len() > 0
            &&& op.kind@ == "add"@ ==> lines[0] == styled(
                Style::Green,
                "  + "@ + op.entity_type@ + " "@ + op.entity_name@ + "\n"@,
            )
            &&& op.kind@ == "remove"@ ==> lines[0] == styled(
                Style::Red,
                "  - "@ + op.entity_type@ + " "@ + op.entity_name@ + "\n"@,
            )
            &&& op.kind@ != "add"@ && op.kind@ != "remove"@ ==> lines[0] == styled(
                Style::Yellow,
                "  ~ "@ + op.entity_type@ + " "@ + op.entity_name@ + "\n"@,
            )
        }),
{
    reveal_strlit("add");
    reveal_strlit("remove");
    assert("add"@.len() == 3 && "remove"@.len() == 6);
    assert(op_lines(seq![op], annotate, 0) == Seq::<SpanView>::empty());
    assert(op_lines(seq![op], annotate, 1).skip(1) == fields_lines(
        op.field_changes@,
        annotate,
        op.field_changes@.len(),
    ));
}

/// One single value in full: what it was and what it became, each on a line of its
/// own, as far as it was or became anything; and behind it how the change went,
/// where that is asked for. A field that stays is not shown.
pub proof fn detail_value_of_one(fc: SerializableFieldChange, annotate: bool)
    requires
        !(fc.current matches Some(Json::List(_))),
        !(fc.desired matches Some(Json::List(_))),
    ensures
        ({
            let lines = fields_lines(seq![fc], annotate, 1);
            let word = if annotate && fc.outcome is Some {
                Some(fc.outcome->0@)
            } else {
                None
            };
            let remark = annotation_spans(word);
            let name = fc.field_name@;
            &&& fc.change_kind@ == "unchanged"@ ==> lines.len() == 0
            &&& fc.change_kind@ == "set"@ && fc.current is None && fc.desired is Some ==> lines
                == seq![
                plain("      "@),
                styled(Style::Green, "+"@ + name + ": "@ + compact(fc.desired->0)),
            ] + remark + seq![plain("\n"@)]
            &&& fc.change_kind@ == "set"@ && fc.current is Some && fc.desired is Some ==> lines
                == seq![
                plain("      "@),
                styled(Style::Red, "-"@ + name + ": "@ + compact(fc.current->0)),
                plain("\n"@),
                plain("      "@),
                styled(Style::Green, "+"@ + name + ": "@ + compact(fc.desired->0)),
            ] + remark + seq![plain("\n"@)]
            &&& fc.change_kind@ == "unset"@ && fc.current is Some ==> lines == seq![
                plain("      "@),
                styled(Style::Red, "-"@ + name + ": "@ + compact(fc.current->0)),
            ] + remark + seq![plain("\n"@)]
        }),
{
    reveal_strlit("set");
    reveal_strlit("unset");
    reveal_strlit("unchanged");
    assert("set"@.len() == 3 && "unset"@.len() == 5 && "unchanged"@.len() == 9);
    assert(fields_lines(seq![fc], annotate, 0) == Seq::<SpanView>::empty());
    let lines = fields_lines(seq![fc], annotate, 1);
    assert(lines == field_lines(fc, annotate));
}

/// One list in full: its name, then every element that comes, then every element
/// that goes.
pub proof fn detail_list_of_one(fc: SerializableFieldChange, annotate: bool)
    requires
        (fc.current matches Some(Json::List(_))) || (fc.desired matches Some(Json::List(_))),
        fc.change_kind@ != "unchanged"@,
    ensures
        ({
            let word = if annotate && fc.outcome is Some {
                Some(fc.outcome->0@)
            } else {
                None
            };
            let current = items_of(fc.current);
            let desired = items_of(fc.desired);
            let remark = annotation_spans(word);
            fields_lines(seq![fc], annotate, 1) == seq![
                plain("      "@ + fc.field_name@ + ":\n"@),
            ] + element_lines(
                Style::Green,
                "        +"@,
                desired,
                current,
                remark,
                desired.len(),
            ) + element_lines(
                Style::Red,
                "        -"@,
                current,
                desired,
                remark,
                current.len(),
            )
        }),
{
    assert(fields_lines(seq![fc], annotate, 0) == Seq::<SpanView>::empty());
    assert(fields_lines(seq![fc], annotate, 1) == field_lines(fc, annotate));
}

/// One element of a list has its line exactly where the other list has no element
/// equal to it, with the remark behind it.
pub proof fn element_of_one(
    style: Style,
    start: Seq<char>,
    j: Json,
    from: Seq<Json>,
    ann: Seq<SpanView>,
)
    ensures
        (exists|i: int| 0 <= i < from.len() && json_same(#[trigger] from[i], j)) ==> element_lines(
            style,
            start,
            seq![j],
            from,
            ann,
            1,
        ).len() == 0,
        (forall|i: int| 0 <= i < from.len() ==> !json_same(#[trigger] from[i], j)) ==> element_lines(
            style,
            start,
            seq![j],
            from,
            ann,
            1,
        ) == seq![styled(style, start + element_text(j))] + ann + seq![plain("\n"@)],
{
    assert(element_lines(style, start, seq![j], from, ann, 0) == Seq::<SpanView>::empty());
    if forall|i: int| 0 <= i < from.len() ==> !json_same(#[trigger] from[i], j) {
        assert(element_lines(style, start, seq![j], from, ann, 1) == seq![
            styled(style, start + element_text(j)),
        ] + ann + seq![plain("\n"@)]);
    }
}

/// How a change went is told in brackets, in the colour of how it went.
pub proof fn remarks_are_told(word: Seq<char>)
    ensures
        annotation_spans(None).len() == 0,
        word == "failed"@ ==> annotation_spans(Some(word)) == seq![
            plain("  ["@),
            styled(Style::Red, word),
            plain("]"@),
        ],
        word == "skipped"@ ==> annotation_spans(Some(word)) == seq![
            plain("  ["@),
            styled(Style::Yellow, word),
            plain("]"@),
        ],
        word == "applied"@ ==> annotation_spans(Some(word)) == seq![
            plain("  ["@),
            styled(Style::Green, word),
            plain("]"@),
        ],
{
    reveal_strlit("failed");
    reveal_strlit("skipped");
    reveal_strlit("applied");
    assert("failed"@[0] == 'f' && "skipped"@[0] == 's' && "applied"@[0] == 'a');
}

/// How changes went is told of an entry exactly where it was applied and a field of
/// any of its operations that was to be changed failed or was skipped.
pub proof fn mixed_outcomes_are_told(entry: JournalEntry)
    ensures
        forall|i: int, k: int|
            0 <= i < entry.diff.operations@.len() && 0 <= k
                < entry.diff.operations@[i].field_changes@.len() && (
            #[trigger] entry.diff.operations@[i].field_changes@[k]).change_kind@ != "unchanged"@
                && entry.diff.operations@[i].field_changes@[k].outcome is Some && (
            entry.diff.operations@[i].field_changes@[k].outcome->0@ == "failed"@
                || entry.diff.operations@[i].field_changes@[k].outcome->0@ == "skipped"@)
                && entry.outcome is Applied ==> mixed_outcomes(entry),
        entry.outcome is Observed ==> !mixed_outcomes(entry),
        mixed_outcomes(entry) ==> exists|i: int, k: int|
            0 <= i < entry.diff.operations@.len() && 0 <= k
                < entry.diff.operations@[i].field_changes@.len() && (
            #[trigger] entry.diff.operations@[i].field_changes@[k]).change_kind@ != "unchanged"@
                && entry.diff.operations@[i].field_changes@[k].outcome is Some && (
            entry.diff.operations@[i].field_changes@[k].outcome->0@ == "failed"@
                || entry.diff.operations@[i].field_changes@[k].outcome->0@ == "skipped"@),
{
    let ops = entry.diff.operations@;
    assert forall|i: int, k: int|
        0 <= i < ops.len() && 0 <= k < ops[i].field_changes@.len() && (
        #[trigger] ops[i].field_changes@[k]).change_kind@ != "unchanged"@
            && ops[i].field_changes@[k].outcome is Some && (ops[i].field_changes@[k].outcome->0@
            == "failed"@ || ops[i].field_changes@[k].outcome->0@ == "skipped"@)
            && entry.outcome is Applied implies mixed_outcomes(entry) by {
        assert(not_applied(ops[i].field_changes@[k]));
        assert(any_not_applied(ops[i].field_changes@));
    }
    if mixed_outcomes(entry) {
        let i = choose|i: int|
            0 <= i < ops.len() && any_not_applied((#[trigger] ops[i]).field_changes@);
        let k = choose|k: int|
            0 <= k < ops[i].field_changes@.len() && not_applied(
                #[trigger] ops[i].field_changes@[k],
            );
        assert(ops[i].field_changes@[k].change_kind@ != "unchanged"@);
    }
}

/// One active policy is told with its name, its factory and its priority.
pub proof fn policy_of_one(policy: PolicySummary)
    ensures
        policy_lines(seq![policy], 1) == seq![
            plain(
                "  - "@ + policy.name@ + " ("@ + policy.factory_type@ + ", priority "@ + decimal(
                    policy.priority as nat,
                ) + ")\n"@,
            ),
        ],
{
    assert(policy_lines(seq![policy], 0) == Seq::<SpanView>::empty());
}

/// An entry in full tells of its number, its time, its trigger and its active
/// policies; then of every operation, or that there is none; then of its outcome; and
/// of the states after it, where there are any.
pub proof fn entries_are_told_in_full(entry: JournalEntry)
    ensures
        ({
            let ops = entry.diff.operations@;
            let states = entry.state_after.entities@;
            let policies = entry.active_policies@;
            let layout = detail_layout(entry);
            let first = seq![
                plain(
                    "Entry #"@ + decimal(entry.seq as nat) + " at "@ + instant_text(
                        entry.timestamp.secs,
                        entry.timestamp.nanos,
                        "%Y-%m-%d %H:%M:%S"@,
                    ) + " UTC\n"@,
                ),
                plain(
                    "Trigger: "@ + trigger_name(entry.trigger) + trigger_detail(entry.trigger)
                        + "\n"@,
                ),
            ];
            let head = if policies.len() == 0 {
                first
            } else {
                first + seq![plain("Active policies:\n"@)] + policy_lines(policies, policies.len())
            };
            let diff = if ops.len() == 0 {
                seq![plain("  (no changes)\n"@)]
            } else {
                op_lines(ops, mixed_outcomes(entry), ops.len())
            };
            let outcome = match entry.outcome {
                ApplyOutcome::Applied { succeeded, failed, skipped } => "applied ("@ + decimal(
                    succeeded as nat,
                ) + " succeeded, "@ + decimal(failed as nat) + " failed, "@ + decimal(
                    skipped as nat,
                ) + " skipped)"@,
                ApplyOutcome::Observed => "observed"@,
            };
            let told = head + seq![plain("Diff:\n"@)] + diff + seq![
                plain("Outcome: "@ + outcome + "\n"@),
            ];
            &&& states.len() == 0 ==> layout == told
            &&& states.len() > 0 ==> layout == told + seq![
                plain("State after:\n"@),
                plain(states_yaml(states)),
            ]
        }),
{
    let policies = entry.active_policies@;
    let first = detail_head(entry).take(2);
    if policies.len() > 0 {
        assert(detail_head(entry) == first + seq![plain("Active policies:\n"@)] + policy_lines(
            policies,
            policies.len(),
        ));
    }
}

/// The states after an entry are shown in full: each with its type, its name and
/// every field, of the fields of one key the last one, whatever its value is.
pub proof fn states_are_shown_in_full(states: Seq<SerializableState>, i: int)
    requires
        0 <= i < states.len(),
    ensures
        states_entries(states).len() == states.len(),
        ({
            let all = states_entries(states)[i];
            &&& states[i].fields matches Json::Dict(fields) ==> forall|k: int|
                0 <= k < fields@.len() && (forall|l: int|
                    k < l < fields@.len() ==> (#[trigger] fields@[l]).0@ != fields@[k].0@)
                    ==> all.contains(((#[trigger] fields@[k]).0@, fields@[k].1@))
            &&& (!(states[i].fields is Dict) || (forall|k: int|
                0 <= k < states[i].fields->Dict_0@.len() ==> (
                #[trigger] states[i].fields->Dict_0@[k]).0@ != "type"@
                    && states[i].fields->Dict_0@[k].0@ != "name"@)) ==> all[0] == (
                "type"@,
                JsonView::Str(states[i].entity_type@),
            ) && all[1] == ("name"@, JsonView::Str(states[i].selector_name@))
        }),
{
    let state = states[i];
    let start = seq![("type"@, JsonView::Str(state.entity_type@))];
    let named = with_entry(start, "name"@, JsonView::Str(state.selector_name@));
    reveal_strlit("type");
    reveal_strlit("name");
    assert("type"@[0] == 't' && "name"@[0] == 'n');
    entry_is_put(start, "name"@, JsonView::Str(state.selector_name@));
    assert(named.len() == 2);
    assert(named[1] == ("name"@, JsonView::Str(state.selector_name@)));
    assert(named[0] == start[0]);
    if let Json::Dict(fields) = state.fields {
        fields_are_held(named, fields@, fields@.len());
    }
}

/// A list has a line for each entry: each line is that of its entry, then the end of
/// the line; and behind the line of a start of the daemon, unless it is the last
/// one, a mark.
pub proof fn every_entry_has_its_line(
    entries: Seq<JournalEntry>,
    w: (nat, nat, nat, nat, nat),
    absolute: bool,
    at: Timestamp,
    n: nat,
)
    requires
        0 < n <= entries.len(),
    ensures
        ({
            let before = rows(entries, w, absolute, at, (n - 1) as nat);
            let all = rows(entries, w, absolute, at, n);
            let line = row(entries[n - 1], w, absolute, at);
            &&& entries[n - 1].trigger is DaemonStartup && n < entries.len() ==> all == before + line
                + seq![plain("\n"@), plain("──── daemon restart ────\n"@)]
            &&& !(entries[n - 1].trigger is DaemonStartup) || n == entries.len() ==> all == before
                + line + seq![plain("\n"@)]
        }),
        rows(entries, w, absolute, at, 0) == seq![
            plain(
                fitted_cell("SEQ"@, w.0) + "  "@ + fitted_cell("TIMESTAMP"@, w.1) + "  "@
                    + fitted_cell("TRIGGER"@, w.2) + "  "@ + fitted_cell("ENTITIES"@, w.3) + "  "@
                    + "CHANGES\n"@,
            ),
        ],
{
}

/// The text of the line of an entry: its number, its time, its trigger, its entities
/// and its changes, each shortened to its column.
pub proof fn lines_hold_all_columns(
    entry: JournalEntry,
    w: (nat, nat, nat, nat, nat),
    absolute: bool,
    at: Timestamp,
)
    ensures
        plain_text(row(entry, w, absolute, at)) == fitted_cell(decimal(entry.seq as nat), w.0)
            + "  "@ + fitted_cell(time_text(entry.timestamp, at, absolute), w.1) + "  "@
            + fitted_cell(trigger_fitted(entry, w.2), w.2) + "  "@ + fitted_cell(
            entities_fitted(entry.diff.operations@, entry.state_after.entities@, w.3),
            w.3,
        ) + "  "@ + shortened(changes_cell(entry), w.4),
{
    let changes = shortened(changes_cell(entry), w.4);
    let all = row(entry, w, absolute, at);
    let head = all.take(1);
    let none = Seq::<SpanView>::empty();
    assert(plain_text(none) == Seq::<char>::empty());
    assert(head.drop_last() == none);
    assert(all == head + colored_changes(changes));
    lemma_plain_text_parts(head, colored_changes(changes));
    crate::history::display::colour_keeps_changes(changes);
}

/// What is not too long for its column is shown in full: the columns are as wide as
/// their longest cell where the terminal has room for all of them.
pub proof fn columns_are_wide_enough(
    entries: Seq<JournalEntry>,
    absolute: bool,
    term_width: nat,
    at: Timestamp,
    i: int,
)
    requires
        0 <= i < entries.len(),
    ensures
        ({
            let w = list_widths(entries, absolute, term_width, at);
            &&& decimal(entries[i].seq as nat).len() <= w.0
            &&& time_text(entries[i].timestamp, at, absolute).len() <= w.1
            &&& w.0 >= 3
            &&& w.1 >= 9
            &&& ({
                let trig = widest(trigger_cells(entries), 7);
                let ent = widest(entity_cells(entries), 8);
                let chg = widest(change_cells(entries), 7);
                trig + ent + chg <= room(term_width, w.0, w.1)
            }) ==> {
                &&& trigger_fitted(entries[i], usize::MAX as nat).len() <= w.2
                &&& entities_text(
                    entries[i].diff.operations@,
                    entries[i].state_after.entities@,
                ).len() <= w.3
                &&& changes_cell(entries[i]).len() <= w.4
            }
        }),
{
    lemma_widest_holds(seq_cells(entries), 3, i);
    lemma_widest_holds(time_cells(entries, at, absolute), 9, i);
    lemma_widest_holds(trigger_cells(entries), 7, i);
    lemma_widest_holds(entity_cells(entries), 8, i);
    lemma_widest_holds(change_cells(entries), 7, i);
}

/// No cell is longer than the longest.
proof fn lemma_widest_holds(cells: Seq<Seq<char>>, least: nat, i: int)
    requires
        0 <= i < cells.len(),
    ensures
        cells[i].len() <= widest(cells, least),
        least <= widest(cells, least),
    decreases cells.len(),
{
    let front = cells.drop_last();
    if i < cells.len() - 1 {
        lemma_widest_holds(front, least, i);
        assert(front[i] == cells[i]);
    } else if front.len() > 0 {
        lemma_widest_holds(front, least, 0);
    }
}

/// How long ago an entry was is told in its largest unit within a day, rounded down;
/// then the day before by its time, and any other day by its date.
pub proof fn times_are_told(ts: Timestamp, at: Timestamp)
    ensures
        ({
            let d = seconds_between(ts, at);
            let text = time_text(ts, at, false);
            &&& 0 <= d < 60 ==> text == decimal(d as nat) + " sec ago"@
            &&& 60 <= d < 60 * 60 ==> text == decimal((d / 60) as nat) + " min ago"@
            &&& 60 * 60 <= d < 24 * 60 * 60 ==> text == decimal((d / 3600) as nat) + "h ago"@
            &&& 24 * 60 * 60 <= d && ts.day() + 1 == at.day() ==> text == "yesterday "@
                + instant_text(ts.secs, ts.nanos, "%H:%M"@)
            &&& 24 * 60 * 60 <= d && ts.day() + 1 != at.day() ==> text == instant_text(
                ts.secs,
                ts.nanos,
                "%Y-%m-%d %H:%M"@,
            )
        }),
        time_text(ts, at, true) == instant_text(ts.secs, ts.nanos, "%Y-%m-%d %H:%M:%S"@),
{
}

/// An apply names as many of its policies as its column has room for, from the first
/// on, and the number of the others.
pub proof fn policies_are_named(entry: JournalEntry, shown: nat, max: nat)
    requires
        entry.trigger is PolicyApply,
        0 < shown <= entry.active_policies@.len(),
    ensures
        ({
            let names = policy_names(entry.active_policies@);
            let total = names.len();
            let text = |k: nat|
                "apply ("@ + joined(names.take(k as int), ", "@) + (if k == total {
                    ")"@
                } else {
                    ", +"@ + decimal((total - k) as nat) + ")"@
                });
            &&& total == entry.active_policies@.len()
            &&& forall|i: int|
                0 <= i < total ==> names[i] == (#[trigger] entry.active_policies@[i]).name@
            &&& text(shown).len() <= max && (forall|k: nat|
                shown < k <= total ==> (#[trigger] text(k)).len() > max) ==> trigger_fitted(
                entry,
                max,
            ) == text(shown)
        }),
{
    let names = policy_names(entry.active_policies@);
    let total = names.len();
    let text = |k: nat|
        "apply ("@ + joined(names.take(k as int), ", "@) + (if k == total {
            ")"@
        } else {
            ", +"@ + decimal((total - k) as nat) + ")"@
        });
    if text(shown).len() <= max && (forall|k: nat|
        shown < k <= total ==> (#[trigger] text(k)).len() > max) {
        lemma_most_policies(names, trigger_cell(entry), shown, total, max, text);
    }
}

/// The largest number of policies that fit is named.
proof fn lemma_most_policies(
    names: Seq<Seq<char>>,
    full: Seq<char>,
    shown: nat,
    from: nat,
    max: nat,
    text: spec_fn(nat) -> Seq<char>,
)
    requires
        0 < shown <= from <= names.len(),
        forall|k: nat| 0 < k <= names.len() ==> #[trigger] text(k) == apply_naming(names, k),
        text(shown).len() <= max,
        forall|k: nat| shown < k <= names.len() ==> (#[trigger] text(k)).len() > max,
    ensures
        apply_fitted(names, full, from, max) == text(shown),
    decreases from,
{
    if from > shown {
        assert(text(from).len() > max);
        lemma_most_policies(names, full, shown, (from - 1) as nat, max, text);
    }
}

/// The trigger of an entry that is no apply is told in full where it fits: an event of
/// DHCP by what happened, a revert by where it went back to.
pub proof fn triggers_are_told(entry: JournalEntry, max: nat)
    ensures
        ({
            let text = trigger_fitted(entry, max);
            let cell = trigger_cell(entry);
            &&& !(entry.trigger is PolicyApply) && cell.len() <= max ==> text == cell
            &&& entry.trigger is PolicyApply && entry.active_policies@.len() == 0 ==> text
                == "apply"@
            &&& entry.trigger is ExternalChange ==> cell == "external"@
            &&& entry.trigger is DaemonStartup ==> cell == "daemon-startup"@
            &&& entry.trigger matches Trigger::Revert { target_seq } ==> cell == "revert ("@
                + decimal(target_seq as nat) + ")"@
            &&& entry.trigger matches Trigger::DhcpEvent { event_kind, .. } ==> {
                &&& event_kind@ == "lease_acquired"@ ==> cell == "dhcp-acquire"@
                &&& event_kind@ == "lease_renewed"@ ==> cell == "dhcp-renew"@
                &&& event_kind@ == "lease_expired"@ ==> cell == "dhcp-expire"@
                &&& event_kind@ != "lease_acquired"@ && event_kind@ != "lease_renewed"@
                    && event_kind@ != "lease_expired"@ ==> cell == "dhcp-"@ + event_kind@
            }
        }),
{
    reveal_strlit("lease_acquired");
    reveal_strlit("lease_renewed");
    reveal_strlit("lease_expired");
    assert("lease_acquired"@[6] == 'a' && "lease_renewed"@[6] == 'r' && "lease_expired"@[6] == 'e');
}

/// An element of a list is shown as it is where it is a string; a route by its
/// destination, its gateway where it has one, and its metric where that is not zero.
pub proof fn elements_are_told(j: Json)
    ensures
        j matches Json::Str(s) ==> element_text(j) == s@,
        j is Dict ==> {
            let dest = string_member(j, "destination"@);
            let gateway = string_member(j, "gateway"@);
            let metric = member(j, "metric"@);
            let plain_metric = !(metric matches Some(Json::PosInt(_))) || metric == Some(
                Json::PosInt(0),
            );
            &&& dest is None ==> element_text(j) == compact(j)
            &&& dest is Some && gateway is None && plain_metric ==> element_text(j) == dest->0
            &&& dest is Some && gateway is Some && plain_metric ==> element_text(j) == dest->0
                + " via "@ + gateway->0
            &&& dest is Some && gateway is Some && !plain_metric ==> element_text(j) == dest->0
                + " via "@ + gateway->0 + " metric "@ + decimal(metric->0->PosInt_0 as nat)
            &&& dest is Some && gateway is None && !plain_metric ==> element_text(j) == dest->0
                + " metric "@ + decimal(metric->0->PosInt_0 as nat)
        },
{
}

/// A list shows all its entries, in columns as wide as is measured.
pub proof fn lists_show_all_entries(
    entries: Seq<JournalEntry>,
    absolute: bool,
    term_width: nat,
    at: Timestamp,
)
    ensures
        list_layout(entries, absolute, term_width, at) == rows(
            entries,
            list_widths(entries, absolute, term_width, at),
            absolute,
            at,
            entries.len(),
        ),
{
}

/// The room for the last three columns is what the first two leave of the terminal, of
/// which at most 200 columns are used, but no less than 37; and where the columns do
/// not fit, what is over their minimum is divided by what they lack.
pub proof fn room_is_divided(
    term_width: nat,
    w_seq: nat,
    w_ts: nat,
    available: nat,
    trig: nat,
    ent: nat,
    chg: nat,
)
    requires
        trig >= 12,
        ent >= 10,
        chg >= 15,
        available >= 37,
    ensures
        term_width <= 200 && term_width >= w_seq + w_ts + 8 + 37 ==> room(term_width, w_seq, w_ts)
            == term_width - w_seq - w_ts - 8,
        term_width > 200 && 200 >= w_seq + w_ts + 8 + 37 ==> room(term_width, w_seq, w_ts) == 200
            - w_seq - w_ts - 8,
        term_width < w_seq + w_ts + 8 + 37 ==> room(term_width, w_seq, w_ts) == 37,
        trig + ent + chg <= available ==> column_widths(available, trig, ent, chg) == (
            trig,
            ent,
            chg,
        ),
        trig + ent + chg > available ==> ({
            let (t, e, c) = column_widths(available, trig, ent, chg);
            let lacking = trig + ent + chg - 37;
            &&& t == 12 + (available - 37) * (trig - 12) / lacking
            &&& e == 10 + (available - 37) * (ent - 10) / lacking
            &&& c == available - t - e
        }),
{
    columns_fit(available, trig, ent, chg);
}

} // verus!
