//! The history in fixed columns, with an outcome column and compact changes.
use vstd::prelude::*;
use vstd::string::*;

use crate::history::display::{
    count_kind, counted, derefs, gained, missing_values, ops_of_kind, push_count,
    trigger_display_name, trigger_name,
};
use crate::history::format::{detail_head, detail_head_spans, get_terminal_width, valid_times};
use crate::journal::{
    ApplyOutcome, JournalEntry, SerializableDiffOp, SerializableFieldChange, SerializableState,
};
use crate::json::{
    compact, holds_list, is_list, items, items_of, json_compact, opt_compact, opt_json_compact,
    Json,
};
use crate::styled::{
    lemma_plain_text_parts, no_spans, plain, plain_text, push_all, push_plain, push_styled, render,
    rendering, span_views, styled, Span, SpanView, Style,
};
use crate::text::{
    cat2, cat3, cat4, cat5, cat6, cat7, decimal, decimal_text, find_char, has_string, join, joined,
    position, push_text, repeated, same, spaces, split, split_and_joined, split_text, str_views,
    views,
};
use crate::time::{format_instant, instant_text};

verus! {

// ── Summaries ────────────────────────────────────────────────────────────────

/// The counts of an outcome that are not zero.
pub open spec fn outcome_parts(succeeded: nat, failed: nat, skipped: nat) -> Seq<Seq<char>> {
    counted(""@, succeeded, " ok"@) + counted(""@, failed, " failed"@) + counted(
        ""@,
        skipped,
        " skipped"@,
    )
}

/// An outcome with its counts, as far as they are not zero.
pub open spec fn outcome_text(outcome: ApplyOutcome) -> Seq<char> {
    match outcome {
        ApplyOutcome::Applied { succeeded, failed, skipped } => {
            let parts = outcome_parts(succeeded as nat, failed as nat, skipped as nat);
            if parts.len() == 0 {
                "applied"@
            } else {
                "applied ("@ + joined(parts, ", "@) + ")"@
            }
        },
        ApplyOutcome::Observed => "observed"@,
    }
}

/// An outcome with its counts.
pub fn outcome_summary(outcome: &ApplyOutcome) -> (r: String)
    ensures
        r@ == outcome_text(*outcome),
{
    match outcome {
        ApplyOutcome::Applied { succeeded, failed, skipped } => {
            let mut parts: Vec<String> = Vec::new();
            assert(views(parts@) == Seq::<Seq<char>>::empty());
            push_count(&mut parts, "", *succeeded as usize, " ok");
            push_count(&mut parts, "", *failed as usize, " failed");
            push_count(&mut parts, "", *skipped as usize, " skipped");
            assert(views(parts@).len() == parts@.len());
            if parts.len() == 0 {
                "applied".to_owned()
            } else {
                let list = join(parts.as_slice(), ", ");
                cat3("applied (", list.as_str(), ")")
            }
        },
        ApplyOutcome::Observed => "observed".to_owned(),
    }
}

/// The names of the entities of operations.
pub open spec fn entity_names(ops: Seq<SerializableDiffOp>) -> Seq<Seq<char>> {
    ops.map_values(|op: SerializableDiffOp| op.entity_name@)
}

/// A list of texts, cut behind the first `shown` where there are more than three.
pub open spec fn shortened_list(texts: Seq<Seq<char>>, shown: nat) -> Seq<char> {
    if texts.len() <= 3 {
        joined(texts, ", "@)
    } else {
        joined(texts.take(shown as int), ", "@) + ", +"@ + decimal((texts.len() - shown) as nat)
            + " more"@
    }
}

/// The entities of operations.
pub open spec fn entities_list(ops: Seq<SerializableDiffOp>) -> Seq<char> {
    if ops.len() == 0 {
        "(none)"@
    } else {
        shortened_list(entity_names(ops), 2)
    }
}

/// A list of texts, cut behind the first `shown` where there are more than three.
fn shorten_list(texts: &Vec<String>, shown: usize) -> (r: String)
    requires
        shown <= 3,
    ensures
        r@ == shortened_list(views(texts@), shown as nat),
{
    let n: usize = texts.len();
    if n <= 3 {
        join(texts.as_slice(), ", ")
    } else {
        let first = join(vstd::slice::slice_subrange(texts.as_slice(), 0, shown), ", ");
        assert(views(texts@.subrange(0, shown as int)) == views(texts@).take(shown as int));
        let rest = decimal_text((n - shown) as u64);
        cat4(first.as_str(), ", +", rest.as_str(), " more")
    }
}

/// The entities of operations.
pub fn entities_summary(ops: &[SerializableDiffOp]) -> (r: String)
    ensures
        r@ == entities_list(ops@),
{
    let n: usize = ops.len();
    if n == 0 {
        return "(none)".to_owned();
    }
    let mut names: Vec<String> = Vec::new();
    let mut i: usize = 0;
    assert(views(names@) == entity_names(ops@).take(0));
    while i < n
        invariant
            i <= n,
            n == ops@.len(),
            views(names@) == entity_names(ops@).take(i as int),
        decreases n - i,
    {
        push_text(&mut names, ops[i].entity_name.clone());
        assert(entity_names(ops@).take(i + 1) == entity_names(ops@).take(i as int).push(
            ops@[i as int].entity_name@,
        ));
        i = i + 1;
    }
    assert(entity_names(ops@).take(n as int) == entity_names(ops@));
    shorten_list(&names, 2)
}

// ── Changes ──────────────────────────────────────────────────────────────────

/// A list with one more text, unless it has it already.
pub open spec fn with_text(texts: Seq<Seq<char>>, text: Seq<char>) -> Seq<Seq<char>> {
    if texts.contains(text) {
        texts
    } else {
        texts.push(text)
    }
}

/// The notation for the change of a field; none where there is nothing to show.
pub open spec fn notation(fc: SerializableFieldChange) -> Option<Seq<char>> {
    let name = fc.field_name@;
    if fc.change_kind@ == "unchanged"@ {
        None
    } else if is_list(fc.current) || is_list(fc.desired) {
        let added = gained(items_of(fc.desired), items_of(fc.current)).len();
        let removed = gained(items_of(fc.current), items_of(fc.desired)).len();
        if added == 0 && removed == 0 {
            None
        } else if removed == 0 {
            Some(name + "(+"@ + decimal(added) + ")"@)
        } else if added == 0 {
            Some(name + "(-"@ + decimal(removed) + ")"@)
        } else {
            Some(name + "(+"@ + decimal(added) + ",-"@ + decimal(removed) + ")"@)
        }
    } else if fc.change_kind@ == "set"@ {
        if fc.current is None {
            Some("+"@ + name)
        } else {
            Some("~"@ + name)
        }
    } else if fc.change_kind@ == "unset"@ {
        Some("-"@ + name)
    } else {
        None
    }
}

/// The notations with those of the first `n` fields put in.
pub open spec fn with_notations(
    texts: Seq<Seq<char>>,
    fields: Seq<SerializableFieldChange>,
    n: nat,
) -> Seq<Seq<char>>
    decreases n,
{
    if n == 0 || n > fields.len() {
        texts
    } else {
        let before = with_notations(texts, fields, (n - 1) as nat);
        match notation(fields[n - 1]) {
            Some(t) => with_text(before, t),
            None => before,
        }
    }
}

/// The notations of the first `n` operations. That of a field stands only once.
pub open spec fn notations(ops: Seq<SerializableDiffOp>, n: nat) -> Seq<Seq<char>>
    decreases n,
{
    if n == 0 || n > ops.len() {
        Seq::empty()
    } else {
        let before = notations(ops, (n - 1) as nat);
        let op = ops[n - 1];
        if op.kind@ == "add"@ {
            before.push("+"@ + op.entity_name@)
        } else if op.kind@ == "remove"@ {
            before.push("-"@ + op.entity_name@)
        } else {
            with_notations(before, op.field_changes@, op.field_changes@.len())
        }
    }
}

/// The changes of operations: entities are counted where they are only added or
/// only removed, else the first three changes are shown.
pub open spec fn changes_list(ops: Seq<SerializableDiffOp>) -> Seq<char> {
    let n = ops.len();
    let added = ops_of_kind(ops, "add"@, n);
    let removed = ops_of_kind(ops, "remove"@, n);
    let modified = ops_of_kind(ops, "modify"@, n);
    let changes = notations(ops, n);
    if n == 0 {
        "(none)"@
    } else if added > 0 && removed == 0 && modified == 0 {
        if added == 1 {
            "+entity"@
        } else {
            "+"@ + decimal(added) + " entities"@
        }
    } else if removed > 0 && added == 0 && modified == 0 {
        if removed == 1 {
            "-entity"@
        } else {
            "-"@ + decimal(removed) + " entities"@
        }
    } else if changes.len() == 0 {
        "(no changes)"@
    } else {
        shortened_list(changes, 3)
    }
}

/// The notation for the change of a field.
fn format_notation(fc: &SerializableFieldChange) -> (r: Option<String>)
    ensures
        match r {
            Some(t) => notation(*fc) == Some(t@),
            None => notation(*fc) is None,
        },
{
    let name = fc.field_name.as_str();
    let kind = fc.change_kind.as_str();
    if same(kind, "unchanged") {
        return None;
    }
    if holds_list(&fc.current) || holds_list(&fc.desired) {
        let current = items(&fc.current);
        let desired = items(&fc.desired);
        let gains = missing_values(desired, current);
        let losses = missing_values(current, desired);
        assert(gains@.len() == derefs(gains@).len());
        assert(losses@.len() == derefs(losses@).len());
        let added = decimal_text(gains.len() as u64);
        let removed = decimal_text(losses.len() as u64);
        if gains.len() == 0 && losses.len() == 0 {
            None
        } else if losses.len() == 0 {
            Some(cat4(name, "(+", added.as_str(), ")"))
        } else if gains.len() == 0 {
            Some(cat4(name, "(-", removed.as_str(), ")"))
        } else {
            Some(cat6(name, "(+", added.as_str(), ",-", removed.as_str(), ")"))
        }
    } else if same(kind, "set") {
        if fc.current.is_none() {
            Some(cat2("+", name))
        } else {
            Some(cat2("~", name))
        }
    } else if same(kind, "unset") {
        Some(cat2("-", name))
    } else {
        None
    }
}

/// The notations of all operations.
fn format_notations(ops: &[SerializableDiffOp]) -> (r: Vec<String>)
    ensures
        views(r@) == notations(ops@, ops@.len()),
{
    let mut changes: Vec<String> = Vec::new();
    let n: usize = ops.len();
    let mut i: usize = 0;
    assert(views(changes@) == Seq::<Seq<char>>::empty());
    while i < n
        invariant
            i <= n,
            n == ops@.len(),
            views(changes@) == notations(ops@, i as nat),
        decreases n - i,
    {
        let op = &ops[i];
        let kind = op.kind.as_str();
        if same(kind, "add") {
            push_text(&mut changes, cat2("+", op.entity_name.as_str()));
        } else if same(kind, "remove") {
            push_text(&mut changes, cat2("-", op.entity_name.as_str()));
        } else {
            let fields = &op.field_changes;
            let m: usize = fields.len();
            let mut k: usize = 0;
            while k < m
                invariant
                    i < n,
                    n == ops@.len(),
                    k <= m,
                    m == fields@.len(),
                    views(changes@) == with_notations(
                        notations(ops@, i as nat),
                        fields@,
                        k as nat,
                    ),
                decreases m - k,
            {
                if let Some(text) = format_notation(&fields[k]) {
                    if !has_string(changes.as_slice(), text.as_str()) {
                        push_text(&mut changes, text);
                    }
                }
                k = k + 1;
            }
        }
        i = i + 1;
    }
    changes
}

/// The changes of operations.
pub fn changes_summary(ops: &[SerializableDiffOp]) -> (r: String)
    ensures
        r@ == changes_list(ops@),
{
    if ops.len() == 0 {
        return "(none)".to_owned();
    }
    let added: usize = count_kind(ops, "add");
    let removed: usize = count_kind(ops, "remove");
    let modified: usize = count_kind(ops, "modify");
    if added > 0 && removed == 0 && modified == 0 {
        if added == 1 {
            return "+entity".to_owned();
        }
        let digits = decimal_text(added as u64);
        return cat3("+", digits.as_str(), " entities");
    }
    if removed > 0 && added == 0 && modified == 0 {
        if removed == 1 {
            return "-entity".to_owned();
        }
        let digits = decimal_text(removed as u64);
        return cat3("-", digits.as_str(), " entities");
    }
    let changes = format_notations(ops);
    assert(views(changes@).len() == changes@.len());
    if changes.len() == 0 {
        return "(no changes)".to_owned();
    }
    shorten_list(&changes, 3)
}

// ── Colours ──────────────────────────────────────────────────────────────────

/// The style of one count of a list notation.
pub open spec fn count_style(part: Seq<char>) -> Style {
    if part.len() > 0 && part[0] == '+' {
        Style::Green
    } else if part.len() > 0 && part[0] == '-' {
        Style::Red
    } else {
        Style::Plain
    }
}

/// The first `n` counts of a list notation in their styles, with commas between.
pub open spec fn styled_counts(parts: Seq<Seq<char>>, n: nat) -> Seq<SpanView>
    decreases n,
{
    if n == 0 || n > parts.len() {
        Seq::empty()
    } else if n == 1 {
        Seq::empty().push(styled(count_style(parts[0]), parts[0]))
    } else {
        styled_counts(parts, (n - 1) as nat).push(plain(","@)).push(
            styled(count_style(parts[n - 1]), parts[n - 1]),
        )
    }
}

/// Whether a text ends with another.
pub open spec fn ends_in(s: Seq<char>, end: Seq<char>) -> bool {
    end.len() <= s.len() && s.skip(s.len() - end.len()) == end
}

/// One change in its style. Of a list notation only the counts are styled.
pub open spec fn token_spans(token: Seq<char>) -> Seq<SpanView> {
    if token.len() == 0 || ends_in(token, " more"@) {
        Seq::empty().push(plain(token))
    } else if token[0] == '+' {
        Seq::empty().push(styled(Style::Green, token))
    } else if token[0] == '-' {
        Seq::empty().push(styled(Style::Red, token))
    } else if token[0] == '~' {
        Seq::empty().push(styled(Style::Yellow, token))
    } else {
        match position(token, '(', 0) {
            Some(open) if token.last() == ')' => {
                let counts = split(token.subrange(open + 1, token.len() - 1), ","@);
                (Seq::empty().push(plain(token.take(open) + "("@)) + styled_counts(
                    counts,
                    counts.len(),
                )).push(plain(")"@))
            },
            _ => Seq::empty().push(plain(token)),
        }
    }
}

/// The first `n` changes in their styles, with commas between them.
pub open spec fn tokens_spans(tokens: Seq<Seq<char>>, n: nat) -> Seq<SpanView>
    decreases n,
{
    if n == 0 || n > tokens.len() {
        Seq::empty()
    } else if n == 1 {
        token_spans(tokens[0])
    } else {
        tokens_spans(tokens, (n - 1) as nat).push(plain(", "@)) + token_spans(tokens[n - 1])
    }
}

/// A cell with changes in their styles. Three dots at its end have no style.
pub open spec fn colored_list(text: Seq<char>) -> Seq<SpanView> {
    let cut = text.len() > 3 && ends_in(text, "..."@);
    let main = if cut {
        text.take(text.len() - 3)
    } else {
        text
    };
    if text == "(none)"@ || text == "(no changes)"@ || text.len() == 0 {
        Seq::empty().push(plain(text))
    } else {
        let tokens = split(main, ", "@);
        let spans = tokens_spans(tokens, tokens.len());
        if cut {
            spans.push(plain("..."@))
        } else {
            spans
        }
    }
}

/// Whether a text ends with another.
fn ends_with(s: &str, end: &str) -> (r: bool)
    ensures
        r == ends_in(s@, end@),
{
    let n: usize = s.unicode_len();
    let m: usize = end.unicode_len();
    if m > n {
        return false;
    }
    let tail = s.substring_char(n - m, n);
    assert(tail@ == s@.skip(n - m));
    same(tail, end)
}

/// The counts of a list notation in their styles.
fn count_spans(inner: &str) -> (r: Vec<Span>)
    ensures
        span_views(r@) == styled_counts(split(inner@, ","@), split(inner@, ","@).len()),
{
    proof {
        reveal_strlit(",");
    }
    let parts = split_text(inner, ",");
    let ghost model = split(inner@, ","@);
    let n: usize = parts.len();
    let mut out = no_spans();
    let mut i: usize = 0;
    while i < n
        invariant
            i <= n,
            n == parts@.len(),
            model == str_views(parts@),
            span_views(out@) == styled_counts(model, i as nat),
        decreases n - i,
    {
        let part = parts[i];
        assert(model[i as int] == part@);
        if i > 0 {
            push_plain(&mut out, ",".to_owned());
        }
        let style = if part.is_empty() {
            Style::Plain
        } else if part.get_char(0) == '+' {
            Style::Green
        } else if part.get_char(0) == '-' {
            Style::Red
        } else {
            Style::Plain
        };
        push_styled(&mut out, style, part.to_owned());
        i = i + 1;
    }
    out
}

/// A first position holds the character.
proof fn lemma_position(s: Seq<char>, c: char, from: int)
    requires
        0 <= from,
    ensures
        position(s, c, from) matches Some(i) ==> from <= i < s.len() && s[i] == c,
    decreases s.len() - from,
{
    if from < s.len() && s[from] != c {
        lemma_position(s, c, from + 1);
    }
}

/// One change in its style.
fn token_to_spans(token: &str) -> (r: Vec<Span>)
    ensures
        span_views(r@) == token_spans(token@),
{
    let mut out = no_spans();
    if token.is_empty() || ends_with(token, " more") {
        push_plain(&mut out, token.to_owned());
        return out;
    }
    let n: usize = token.unicode_len();
    let first = token.get_char(0);
    if first == '+' {
        push_styled(&mut out, Style::Green, token.to_owned());
    } else if first == '-' {
        push_styled(&mut out, Style::Red, token.to_owned());
    } else if first == '~' {
        push_styled(&mut out, Style::Yellow, token.to_owned());
    } else {
        match find_char(token, '(') {
            Some(open) if token.get_char(n - 1) == ')' => {
                proof {
                    lemma_position(token@, '(', 0);
                }
                let field = token.substring_char(0, open);
                let inner = token.substring_char(open + 1, n - 1);
                assert(field@ == token@.take(open as int));
                push_plain(&mut out, cat2(field, "("));
                push_all(&mut out, count_spans(inner));
                push_plain(&mut out, ")".to_owned());
            },
            _ => {
                push_plain(&mut out, token.to_owned());
            },
        }
    }
    out
}

/// One change in its style, in printed form.
pub fn colorize_change_token(token: &str) -> (r: String)
    ensures
        rendering(token_spans(token@), r@),
{
    let spans = token_to_spans(token);
    render(&spans)
}

/// A cell with changes in their styles.
fn change_spans(text: &str) -> (r: Vec<Span>)
    ensures
        span_views(r@) == colored_list(text@),
{
    let mut out = no_spans();
    if same(text, "(none)") || same(text, "(no changes)") || text.is_empty() {
        push_plain(&mut out, text.to_owned());
        return out;
    }
    let n: usize = text.unicode_len();
    let cut = n > 3 && ends_with(text, "...");
    let end: usize = if cut {
        n - 3
    } else {
        n
    };
    let main = text.substring_char(0, end);
    assert(cut ==> main@ == text@.take(n - 3));
    assert(!cut ==> main@ == text@);
    proof {
        reveal_strlit(", ");
    }
    let tokens = split_text(main, ", ");
    let ghost model = split(main@, ", "@);
    let m: usize = tokens.len();
    let mut i: usize = 0;
    while i < m
        invariant
            i <= m,
            m == tokens@.len(),
            model == str_views(tokens@),
            span_views(out@) == tokens_spans(model, i as nat),
        decreases m - i,
    {
        assert(model[i as int] == tokens@[i as int]@);
        if i > 0 {
            push_plain(&mut out, ", ".to_owned());
        }
        push_all(&mut out, token_to_spans(tokens[i]));
        i = i + 1;
    }
    if cut {
        push_plain(&mut out, "...".to_owned());
    }
    out
}

/// A cell with changes in their styles, in printed form.
pub fn colorize_changes(plain: &str) -> (r: String)
    ensures
        rendering(colored_list(plain@), r@),
{
    let spans = change_spans(plain);
    render(&spans)
}

// ── List ─────────────────────────────────────────────────────────────────────

/// A cell of at least `width` characters.
pub open spec fn padded(s: Seq<char>, width: nat) -> Seq<char> {
    if s.len() >= width {
        s
    } else {
        s + repeated(' ', (width - s.len()) as nat)
    }
}

/// The number of bytes of a text in UTF-8.
pub open spec fn byte_len(s: Seq<char>) -> nat {
    vstd::utf8::encode_utf8(s).len()
}

/// The longest beginning of a text that takes at most `limit` bytes.
pub open spec fn byte_prefix(s: Seq<char>, limit: nat) -> Seq<char>
    decreases s.len(),
{
    if s.len() == 0 || byte_len(s) <= limit {
        s
    } else {
        byte_prefix(s.drop_last(), limit)
    }
}

/// The changes cut to at most `width` bytes, with three dots where they are cut.
pub open spec fn cut_changes(s: Seq<char>, width: nat) -> Seq<char> {
    if byte_len(s) <= width {
        s
    } else {
        byte_prefix(s, (width - 3) as nat) + "..."@
    }
}

/// The bytes that are left for the changes: what the other columns leave of the
/// terminal, but no less than 10.
pub open spec fn changes_width(term_width: nat) -> nat {
    if term_width > 86 {
        (term_width - 76) as nat
    } else {
        10
    }
}

/// The first five cells of a line.
pub open spec fn five_cells(
    seq: Seq<char>,
    ts: Seq<char>,
    trig: Seq<char>,
    ent: Seq<char>,
    outcome: Seq<char>,
) -> Seq<char> {
    padded(seq, 5) + " "@ + padded(ts, 21) + " "@ + padded(trig, 15) + " "@ + padded(ent, 14) + " "@
        + padded(outcome, 16) + " "@
}

/// The lines of the first `n` entries, below a header.
pub open spec fn table_rows(entries: Seq<JournalEntry>, term_width: nat, n: nat) -> Seq<SpanView>
    decreases n,
{
    if n == 0 || n > entries.len() {
        Seq::empty().push(
            plain(
                five_cells("SEQ"@, "TIMESTAMP"@, "TRIGGER"@, "ENTITIES"@, "OUTCOME"@)
                    + "CHANGES\n"@,
            ),
        )
    } else {
        let entry = entries[n - 1];
        let ops = entry.diff.operations@;
        (table_rows(entries, term_width, (n - 1) as nat).push(
            plain(
                five_cells(
                    decimal(entry.seq as nat),
                    instant_text(
                        entry.timestamp.secs,
                        entry.timestamp.nanos,
                        "%Y-%m-%d %H:%M:%S"@,
                    ),
                    trigger_name(entry.trigger),
                    entities_list(ops),
                    outcome_text(entry.outcome),
                ),
            ),
        ) + colored_list(cut_changes(changes_list(ops), changes_width(term_width)))).push(
            plain("\n"@),
        )
    }
}

/// A cell of at least `width` characters.
fn pad(s: &str, width: usize) -> (r: String)
    ensures
        r@ == padded(s@, width as nat),
{
    let n: usize = s.unicode_len();
    if n >= width {
        s.to_owned()
    } else {
        let rest = spaces(width - n);
        cat2(s, rest.as_str())
    }
}

/// The changes cut to at most `width` bytes.
fn cut_to_bytes(s: &str, width: usize) -> (r: String)
    requires
        width >= 3,
    ensures
        r@ == cut_changes(s@, width as nat),
{
    if s.as_bytes().len() <= width {
        return s.to_owned();
    }
    let limit: usize = width - 3;
    let mut k: usize = s.unicode_len();
    assert(s@.take(k as int) == s@);
    while k > 0 && s.substring_char(0, k).as_bytes().len() > limit
        invariant
            k <= s@.len(),
            byte_prefix(s@, limit as nat) == byte_prefix(s@.take(k as int), limit as nat),
        decreases k,
    {
        assert(s@.take(k as int).drop_last() == s@.take(k - 1));
        assert(s@.subrange(0, k as int) == s@.take(k as int));
        k = k - 1;
    }
    let kept = s.substring_char(0, k);
    assert(kept@ == s@.take(k as int));
    cat2(kept, "...")
}

/// The first five cells of a line.
fn format_five_cells(seq: &str, ts: &str, trig: &str, ent: &str, outcome: &str) -> (r: String)
    ensures
        r@ == five_cells(seq@, ts@, trig@, ent@, outcome@),
{
    let a = pad(seq, 5);
    let b = pad(ts, 21);
    let c = pad(trig, 15);
    let d = pad(ent, 14);
    let e = pad(outcome, 16);
    let cells = cat7(a.as_str(), " ", b.as_str(), " ", c.as_str(), " ", d.as_str());
    cat4(cells.as_str(), " ", e.as_str(), " ")
}

/// The list of entries in fixed columns, on a terminal of the given width.
pub fn table_spans(entries: &[JournalEntry], term_width: usize) -> (r: Vec<Span>)
    requires
        valid_times(entries@),
    ensures
        span_views(r@) == table_rows(entries@, term_width as nat, entries@.len()),
{
    let width: usize = if term_width > 86 {
        term_width - 76
    } else {
        10
    };
    let mut out = no_spans();
    let titles = format_five_cells("SEQ", "TIMESTAMP", "TRIGGER", "ENTITIES", "OUTCOME");
    push_plain(&mut out, cat2(titles.as_str(), "CHANGES\n"));
    let n: usize = entries.len();
    let mut i: usize = 0;
    while i < n
        invariant
            i <= n,
            n == entries@.len(),
            width == changes_width(term_width as nat),
            width >= 10,
            valid_times(entries@),
            span_views(out@) == table_rows(entries@, term_width as nat, i as nat),
        decreases n - i,
    {
        let entry = &entries[i];
        let ops = entry.diff.operations.as_slice();
        let seq = decimal_text(entry.seq);
        let ts = format_instant(entry.timestamp, "%Y-%m-%d %H:%M:%S");
        let entities = entities_summary(ops);
        let outcome = outcome_summary(&entry.outcome);
        let all_changes = changes_summary(ops);
        let changes = cut_to_bytes(all_changes.as_str(), width);
        push_plain(
            &mut out,
            format_five_cells(
                seq.as_str(),
                ts.as_str(),
                trigger_display_name(&entry.trigger),
                entities.as_str(),
                outcome.as_str(),
            ),
        );
        push_all(&mut out, change_spans(changes.as_str()));
        push_plain(&mut out, "\n".to_owned());
        i = i + 1;
    }
    out
}

/// The list of entries in fixed columns, as it is printed on the terminal.
pub fn format_text_list(entries: &[JournalEntry]) -> (r: String)
    requires
        valid_times(entries@),
    ensures
        exists|width: nat|
            width <= 65535 && rendering(
                #[trigger] table_rows(entries@, width, entries@.len()),
                r@,
            ),
{
    let width: usize = get_terminal_width();
    let spans = table_spans(entries, width);
    render(&spans)
}

// ── Detail ───────────────────────────────────────────────────────────────────

/// The line on a field; none where there is nothing to show.
pub open spec fn field_line(fc: SerializableFieldChange) -> Seq<SpanView> {
    let name = fc.field_name@;
    if fc.change_kind@ == "set"@ && fc.current is None {
        Seq::empty().push(plain("      "@)).push(styled(Style::Green, "+"@)).push(
            plain(name + ": "@ + opt_compact(fc.desired) + "\n"@),
        )
    } else if fc.change_kind@ == "set"@ {
        Seq::empty().push(plain("      "@)).push(styled(Style::Yellow, "~"@)).push(
            plain(
                name + ": "@ + opt_compact(fc.current) + " -> "@ + opt_compact(fc.desired) + "\n"@,
            ),
        )
    } else if fc.change_kind@ == "unset"@ {
        Seq::empty().push(plain("      "@)).push(styled(Style::Red, "-"@)).push(
            plain(name + ": "@ + opt_compact(fc.current) + "\n"@),
        )
    } else {
        Seq::empty()
    }
}

/// The lines on the first `n` fields.
pub open spec fn table_fields(fields: Seq<SerializableFieldChange>, n: nat) -> Seq<SpanView>
    decreases n,
{
    if n == 0 || n > fields.len() {
        Seq::empty()
    } else {
        table_fields(fields, (n - 1) as nat) + field_line(fields[n - 1])
    }
}

/// The sign of an operation, in its style.
pub open spec fn op_sign(kind: Seq<char>) -> SpanView {
    if kind == "add"@ {
        styled(Style::Green, "+"@)
    } else if kind == "remove"@ {
        styled(Style::Red, "-"@)
    } else {
        styled(Style::Yellow, "~"@)
    }
}

/// The lines on the first `n` operations.
pub open spec fn table_ops(ops: Seq<SerializableDiffOp>, n: nat) -> Seq<SpanView>
    decreases n,
{
    if n == 0 || n > ops.len() {
        Seq::empty()
    } else {
        let op = ops[n - 1];
        table_ops(ops, (n - 1) as nat).push(plain("  "@)).push(op_sign(op.kind@)).push(
            plain(" "@ + op.entity_type@ + " "@ + op.entity_name@ + "\n"@),
        ) + table_fields(op.field_changes@, op.field_changes@.len())
    }
}

/// The lines on the first `n` fields of a state.
pub open spec fn value_lines(fields: Seq<(String, Json)>, n: nat) -> Seq<SpanView>
    decreases n,
{
    if n == 0 || n > fields.len() {
        Seq::empty()
    } else {
        value_lines(fields, (n - 1) as nat).push(
            plain("    "@ + fields[n - 1].0@ + ": "@ + compact(fields[n - 1].1) + "\n"@),
        )
    }
}

/// The lines on the first `n` states.
pub open spec fn state_lines(states: Seq<SerializableState>, n: nat) -> Seq<SpanView>
    decreases n,
{
    if n == 0 || n > states.len() {
        Seq::empty()
    } else {
        let state = states[n - 1];
        let named = state_lines(states, (n - 1) as nat).push(
            plain("  "@ + state.entity_type@ + " "@ + state.selector_name@ + ":\n"@),
        );
        match state.fields {
            Json::Dict(fields) => named + value_lines(fields@, fields@.len()),
            _ => named,
        }
    }
}

/// An entry in full: its head, the difference that it made, how that went, and
/// the state after it.
pub open spec fn table_detail(entry: JournalEntry) -> Seq<SpanView> {
    let ops = entry.diff.operations@;
    let states = entry.state_after.entities@;
    let head = detail_head(entry).push(plain("Diff:\n"@));
    let diff = if ops.len() == 0 {
        head.push(plain("  (no changes)\n"@))
    } else {
        head + table_ops(ops, ops.len())
    };
    let outcome = diff.push(plain("Outcome: "@ + outcome_text(entry.outcome) + "\n"@));
    if states.len() == 0 {
        outcome
    } else {
        outcome.push(plain("State after:\n"@)) + state_lines(states, states.len())
    }
}

/// The line on a field.
fn field_line_spans(fc: &SerializableFieldChange) -> (r: Vec<Span>)
    ensures
        span_views(r@) == field_line(*fc),
{
    let mut out = no_spans();
    let name = fc.field_name.as_str();
    let kind = fc.change_kind.as_str();
    let current = opt_json_compact(&fc.current);
    let desired = opt_json_compact(&fc.desired);
    if same(kind, "set") {
        push_plain(&mut out, "      ".to_owned());
        if fc.current.is_none() {
            push_styled(&mut out, Style::Green, "+".to_owned());
            push_plain(&mut out, cat4(name, ": ", desired.as_str(), "\n"));
        } else {
            push_styled(&mut out, Style::Yellow, "~".to_owned());
            push_plain(
                &mut out,
                cat6(name, ": ", current.as_str(), " -> ", desired.as_str(), "\n"),
            );
        }
    } else if same(kind, "unset") {
        push_plain(&mut out, "      ".to_owned());
        push_styled(&mut out, Style::Red, "-".to_owned());
        push_plain(&mut out, cat4(name, ": ", current.as_str(), "\n"));
    }
    out
}

/// The lines on all operations.
fn table_ops_spans(ops: &Vec<SerializableDiffOp>) -> (r: Vec<Span>)
    ensures
        span_views(r@) == table_ops(ops@, ops@.len()),
{
    let mut out = no_spans();
    let n: usize = ops.len();
    let mut i: usize = 0;
    while i < n
        invariant
            i <= n,
            n == ops@.len(),
            span_views(out@) == table_ops(ops@, i as nat),
        decreases n - i,
    {
        let op = &ops[i];
        let fields = &op.field_changes;
        let m: usize = fields.len();
        let mut lines = no_spans();
        let mut k: usize = 0;
        while k < m
            invariant
                k <= m,
                m == fields@.len(),
                span_views(lines@) == table_fields(fields@, k as nat),
            decreases m - k,
        {
            push_all(&mut lines, field_line_spans(&fields[k]));
            k = k + 1;
        }
        push_plain(&mut out, "  ".to_owned());
        let kind = op.kind.as_str();
        if same(kind, "add") {
            push_styled(&mut out, Style::Green, "+".to_owned());
        } else if same(kind, "remove") {
            push_styled(&mut out, Style::Red, "-".to_owned());
        } else {
            push_styled(&mut out, Style::Yellow, "~".to_owned());
        }
        push_plain(
            &mut out,
            cat5(" ", op.entity_type.as_str(), " ", op.entity_name.as_str(), "\n"),
        );
        push_all(&mut out, lines);
        i = i + 1;
    }
    out
}

/// The lines on the fields of a state.
fn value_line_spans(fields: &Vec<(String, Json)>) -> (r: Vec<Span>)
    ensures
        span_views(r@) == value_lines(fields@, fields@.len()),
{
    let mut out = no_spans();
    let n: usize = fields.len();
    let mut i: usize = 0;
    while i < n
        invariant
            i <= n,
            n == fields@.len(),
            span_views(out@) == value_lines(fields@, i as nat),
        decreases n - i,
    {
        let value = json_compact(&fields[i].1);
        push_plain(&mut out, cat5("    ", fields[i].0.as_str(), ": ", value.as_str(), "\n"));
        i = i + 1;
    }
    out
}

/// The lines on all states.
fn state_line_spans(states: &Vec<SerializableState>) -> (r: Vec<Span>)
    ensures
        span_views(r@) == state_lines(states@, states@.len()),
{
    let mut out = no_spans();
    let n: usize = states.len();
    let mut i: usize = 0;
    while i < n
        invariant
            i <= n,
            n == states@.len(),
            span_views(out@) == state_lines(states@, i as nat),
        decreases n - i,
    {
        let state = &states[i];
        push_plain(
            &mut out,
            cat5("  ", state.entity_type.as_str(), " ", state.selector_name.as_str(), ":\n"),
        );
        if let Json::Dict(fields) = &state.fields {
            push_all(&mut out, value_line_spans(fields));
        }
        i = i + 1;
    }
    out
}

/// An entry in full.
pub fn table_detail_spans(entry: &JournalEntry) -> (r: Vec<Span>)
    requires
        entry.timestamp.wf(),
    ensures
        span_views(r@) == table_detail(*entry),
{
    let mut out = detail_head_spans(entry);
    push_plain(&mut out, "Diff:\n".to_owned());
    if entry.diff.operations.len() == 0 {
        push_plain(&mut out, "  (no changes)\n".to_owned());
    } else {
        push_all(&mut out, table_ops_spans(&entry.diff.operations));
    }
    let outcome = outcome_summary(&entry.outcome);
    push_plain(&mut out, cat3("Outcome: ", outcome.as_str(), "\n"));
    if entry.state_after.entities.len() > 0 {
        push_plain(&mut out, "State after:\n".to_owned());
        push_all(&mut out, state_line_spans(&entry.state_after.entities));
    }
    out
}

/// An entry in full, in printed form.
pub fn format_text_detail(entry: &JournalEntry) -> (r: String)
    requires
        entry.timestamp.wf(),
    ensures
        rendering(table_detail(*entry), r@),
{
    let spans = table_detail_spans(entry);
    render(&spans)
}

// ── Laws ─────────────────────────────────────────────────────────────────────

/// The text of counts in their styles.
proof fn lemma_counts_text(parts: Seq<Seq<char>>, n: nat)
    requires
        n <= parts.len(),
    ensures
        plain_text(styled_counts(parts, n)) == joined(parts.take(n as int), ","@),
    decreases n,
{
    if n == 1 {
        assert(styled_counts(parts, 1).drop_last() == Seq::<SpanView>::empty());
        assert(plain_text(Seq::<SpanView>::empty()) == Seq::<char>::empty());
        assert(parts.take(1) == seq![parts[0]]);
    } else if n > 1 {
        let before = styled_counts(parts, (n - 1) as nat);
        let gap = before.push(plain(","@));
        lemma_counts_text(parts, (n - 1) as nat);
        assert(styled_counts(parts, n).drop_last() == gap);
        assert(gap.drop_last() == before);
        assert(plain_text(gap) == plain_text(before) + ","@);
        assert(parts.take(n as int).drop_last() == parts.take(n - 1));
    }
}

/// Colouring one change keeps its text.
pub proof fn colour_keeps_token(token: Seq<char>)
    ensures
        plain_text(token_spans(token)) == token,
{
    let spans = token_spans(token);
    let none = Seq::<SpanView>::empty();
    assert(plain_text(none) == Seq::<char>::empty());
    if spans.len() == 1 {
        assert(spans.drop_last() == none);
    }
    if !(token.len() == 0 || ends_in(token, " more"@) || token[0] == '+' || token[0] == '-'
        || token[0] == '~') {
        lemma_position(token, '(', 0);
        if position(token, '(', 0) is Some && token.last() == ')' {
            let open = position(token, '(', 0)->0;
            let inner = token.subrange(open + 1, token.len() - 1);
            let counts = split(inner, ","@);
            let head = none.push(plain(token.take(open) + "("@));
            reveal_strlit("(");
            reveal_strlit(")");
            lemma_counts_text(counts, counts.len());
            assert(counts.take(counts.len() as int) == counts);
            split_and_joined(inner, ","@);
            assert(head.drop_last() == none);
            lemma_plain_text_parts(head, styled_counts(counts, counts.len()));
            assert(spans.drop_last() == head + styled_counts(counts, counts.len()));
            assert(token.take(open) + "("@ + inner + ")"@ == token);
        }
    }
}

/// The text of changes in their styles.
proof fn lemma_tokens_text(tokens: Seq<Seq<char>>, n: nat)
    requires
        n <= tokens.len(),
    ensures
        plain_text(tokens_spans(tokens, n)) == joined(tokens.take(n as int), ", "@),
    decreases n,
{
    if n == 1 {
        colour_keeps_token(tokens[0]);
        assert(tokens.take(1) == seq![tokens[0]]);
    } else if n > 1 {
        let before = tokens_spans(tokens, (n - 1) as nat);
        let gap = before.push(plain(", "@));
        lemma_tokens_text(tokens, (n - 1) as nat);
        colour_keeps_token(tokens[n - 1]);
        lemma_plain_text_parts(gap, token_spans(tokens[n - 1]));
        assert(gap.drop_last() == before);
        assert(plain_text(gap) == plain_text(before) + ", "@);
        assert(tokens.take(n as int).drop_last() == tokens.take(n - 1));
    }
}

/// Colouring a cell with changes keeps its text.
pub proof fn colour_keeps_cell(text: Seq<char>)
    ensures
        plain_text(colored_list(text)) == text,
{
    let none = Seq::<SpanView>::empty();
    assert(plain_text(none) == Seq::<char>::empty());
    if text == "(none)"@ || text == "(no changes)"@ || text.len() == 0 {
        assert(colored_list(text).drop_last() == none);
    } else {
        let cut = text.len() > 3 && ends_in(text, "..."@);
        let main = if cut {
            text.take(text.len() - 3)
        } else {
            text
        };
        let tokens = split(main, ", "@);
        let spans = tokens_spans(tokens, tokens.len());
        reveal_strlit("...");
        lemma_tokens_text(tokens, tokens.len());
        assert(tokens.take(tokens.len() as int) == tokens);
        split_and_joined(main, ", "@);
        assert(spans.push(plain("..."@)).drop_last() == spans);
        assert(cut ==> main + "..."@ == text);
    }
}

/// The bytes of two texts, one behind the other.
proof fn lemma_byte_len(a: Seq<char>, b: Seq<char>)
    ensures
        byte_len(a + b) == byte_len(a) + byte_len(b),
    decreases a.len(),
{
    if a.len() == 0 {
        assert(a + b == b);
    } else {
        assert((a + b).drop_first() == a.drop_first() + b);
        lemma_byte_len(a.drop_first(), b);
    }
}

/// The beginning of a text that is kept fits.
proof fn lemma_prefix_fits(s: Seq<char>, limit: nat)
    ensures
        byte_len(byte_prefix(s, limit)) <= limit,
    decreases s.len(),
{
    if s.len() > 0 && byte_len(s) > limit {
        lemma_prefix_fits(s.drop_last(), limit);
    }
}

/// Changes that are cut take no more bytes than there are for them, and on a
/// terminal of at least 86 columns these fit beside the other columns.
pub proof fn changes_fit(s: Seq<char>, term_width: nat)
    ensures
        byte_len(cut_changes(s, changes_width(term_width))) <= changes_width(term_width),
        term_width >= 86 ==> 76 + changes_width(term_width) <= term_width,
{
    let limit = (changes_width(term_width) - 3) as nat;
    reveal_strlit("...");
    lemma_prefix_fits(s, limit);
    lemma_byte_len(byte_prefix(s, limit), "..."@);
    vstd::utf8::is_ascii_chars_encode_utf8("..."@);
}

/// The lines on some fields and others behind them are those on the first,
/// then those on the others.
pub proof fn table_fields_of_parts(
    a: Seq<SerializableFieldChange>,
    b: Seq<SerializableFieldChange>,
)
    ensures
        table_fields(a + b, (a + b).len()) == table_fields(a, a.len()) + table_fields(b, b.len()),
{
    lemma_table_fields_of_parts(a, b, b.len());
}

/// The first elements give the same whatever stands behind them.
proof fn lemma_table_fields_of_parts_start(
    a: Seq<SerializableFieldChange>,
    b: Seq<SerializableFieldChange>,
    n: nat,
)
    requires
        n <= a.len(),
    ensures
        table_fields(a + b, n) == table_fields(a, n),
    decreases n,
{
    if n > 0 {
        lemma_table_fields_of_parts_start(a, b, (n - 1) as nat);
        assert((a + b)[n - 1] == a[n - 1]);
    }
}

/// The first `m` elements of the second part follow all of the first part.
proof fn lemma_table_fields_of_parts(
    a: Seq<SerializableFieldChange>,
    b: Seq<SerializableFieldChange>,
    m: nat,
)
    requires
        m <= b.len(),
    ensures
        table_fields(a + b, a.len() + m) == table_fields(a, a.len()) + table_fields(b, m),
    decreases m,
{
    if m == 0 {
        lemma_table_fields_of_parts_start(a, b, a.len());
    } else {
        lemma_table_fields_of_parts(a, b, (m - 1) as nat);
        assert((a + b)[a.len() + m - 1] == b[m - 1]);
    }
}

/// The lines on some operations and others behind them are those on the first,
/// then those on the others.
pub proof fn table_ops_of_parts(
    a: Seq<SerializableDiffOp>,
    b: Seq<SerializableDiffOp>,
)
    ensures
        table_ops(a + b, (a + b).len()) == table_ops(a, a.len()) + table_ops(b, b.len()),
{
    lemma_table_ops_of_parts(a, b, b.len());
}

/// The first elements give the same whatever stands behind them.
proof fn lemma_table_ops_of_parts_start(
    a: Seq<SerializableDiffOp>,
    b: Seq<SerializableDiffOp>,
    n: nat,
)
    requires
        n <= a.len(),
    ensures
        table_ops(a + b, n) == table_ops(a, n),
    decreases n,
{
    if n > 0 {
        lemma_table_ops_of_parts_start(a, b, (n - 1) as nat);
        assert((a + b)[n - 1] == a[n - 1]);
    }
}

/// The first `m` elements of the second part follow all of the first part.
proof fn lemma_table_ops_of_parts(
    a: Seq<SerializableDiffOp>,
    b: Seq<SerializableDiffOp>,
    m: nat,
)
    requires
        m <= b.len(),
    ensures
        table_ops(a + b, a.len() + m) == table_ops(a, a.len()) + table_ops(b, m),
    decreases m,
{
    if m == 0 {
        lemma_table_ops_of_parts_start(a, b, a.len());
    } else {
        lemma_table_ops_of_parts(a, b, (m - 1) as nat);
        assert((a + b)[a.len() + m - 1] == b[m - 1]);
    }
}

/// The lines on some values and others behind them are those on the first,
/// then those on the others.
pub proof fn values_of_parts(
    a: Seq<(String, Json)>,
    b: Seq<(String, Json)>,
)
    ensures
        value_lines(a + b, (a + b).len()) == value_lines(a, a.len()) + value_lines(b, b.len()),
{
    lemma_values_of_parts(a, b, b.len());
}

/// The first elements give the same whatever stands behind them.
proof fn lemma_values_of_parts_start(
    a: Seq<(String, Json)>,
    b: Seq<(String, Json)>,
    n: nat,
)
    requires
        n <= a.len(),
    ensures
        value_lines(a + b, n) == value_lines(a, n),
    decreases n,
{
    if n > 0 {
        lemma_values_of_parts_start(a, b, (n - 1) as nat);
        assert((a + b)[n - 1] == a[n - 1]);
    }
}

/// The first `m` elements of the second part follow all of the first part.
proof fn lemma_values_of_parts(
    a: Seq<(String, Json)>,
    b: Seq<(String, Json)>,
    m: nat,
)
    requires
        m <= b.len(),
    ensures
        value_lines(a + b, a.len() + m) == value_lines(a, a.len()) + value_lines(b, m),
    decreases m,
{
    if m == 0 {
        lemma_values_of_parts_start(a, b, a.len());
    } else {
        lemma_values_of_parts(a, b, (m - 1) as nat);
        assert((a + b)[a.len() + m - 1] == b[m - 1]);
    }
}

/// The lines on some states and others behind them are those on the first,
/// then those on the others.
pub proof fn states_of_parts(
    a: Seq<SerializableState>,
    b: Seq<SerializableState>,
)
    ensures
        state_lines(a + b, (a + b).len()) == state_lines(a, a.len()) + state_lines(b, b.len()),
{
    lemma_states_of_parts(a, b, b.len());
}

/// The first elements give the same whatever stands behind them.
proof fn lemma_states_of_parts_start(
    a: Seq<SerializableState>,
    b: Seq<SerializableState>,
    n: nat,
)
    requires
        n <= a.len(),
    ensures
        state_lines(a + b, n) == state_lines(a, n),
    decreases n,
{
    if n > 0 {
        lemma_states_of_parts_start(a, b, (n - 1) as nat);
        assert((a + b)[n - 1] == a[n - 1]);
    }
}

/// The first `m` elements of the second part follow all of the first part.
proof fn lemma_states_of_parts(
    a: Seq<SerializableState>,
    b: Seq<SerializableState>,
    m: nat,
)
    requires
        m <= b.len(),
    ensures
        state_lines(a + b, a.len() + m) == state_lines(a, a.len()) + state_lines(b, m),
    decreases m,
{
    if m == 0 {
        lemma_states_of_parts_start(a, b, a.len());
    } else {
        lemma_states_of_parts(a, b, (m - 1) as nat);
        assert((a + b)[a.len() + m - 1] == b[m - 1]);
    }
}

/// One operation in full: a sign in the colour of what was done, the entity, and the
/// lines on its fields.
pub proof fn table_op_of_one(op: SerializableDiffOp)
    ensures
        ({
            let lines = table_ops(seq![op], 1);
            let fields = table_fields(op.field_changes@, op.field_changes@.len());
            let told = plain(" "@ + op.entity_type@ + " "@ + op.entity_name@ + "\n"@);
            &&& op.kind@ == "add"@ ==> lines == seq![
                plain("  "@),
                styled(Style::Green, "+"@),
                told,
            ] + fields
            &&& op.kind@ == "remove"@ ==> lines == seq![
                plain("  "@),
                styled(Style::Red, "-"@),
                told,
            ] + fields
            &&& op.kind@ != "add"@ && op.kind@ != "remove"@ ==> lines == seq![
                plain("  "@),
                styled(Style::Yellow, "~"@),
                told,
            ] + fields
        }),
{
    reveal_strlit("add");
    reveal_strlit("remove");
    assert("add"@.len() == 3 && "remove"@.len() == 6);
    assert(table_ops(seq![op], 0) == Seq::<SpanView>::empty());
}

/// One field in full: with its new value, and with its old one where it has one; or
/// with its old value where it is unset.
pub proof fn table_field_of_one(fc: SerializableFieldChange)
    ensures
        ({
            let lines = table_fields(seq![fc], 1);
            let name = fc.field_name@;
            &&& fc.change_kind@ == "set"@ && fc.current is None && fc.desired is Some ==> lines
                == seq![
                plain("      "@),
                styled(Style::Green, "+"@),
                plain(name + ": "@ + compact(fc.desired->0) + "\n"@),
            ]
            &&& fc.change_kind@ == "set"@ && fc.current is Some && fc.desired is Some ==> lines
                == seq![
                plain("      "@),
                styled(Style::Yellow, "~"@),
                plain(
                    name + ": "@ + compact(fc.current->0) + " -> "@ + compact(fc.desired->0) + "\n"@,
                ),
            ]
            &&& fc.change_kind@ == "unset"@ && fc.current is Some ==> lines == seq![
                plain("      "@),
                styled(Style::Red, "-"@),
                plain(name + ": "@ + compact(fc.current->0) + "\n"@),
            ]
            &&& fc.change_kind@ != "set"@ && fc.change_kind@ != "unset"@ ==> lines.len() == 0
        }),
{
    reveal_strlit("set");
    reveal_strlit("unset");
    assert("set"@.len() == 3 && "unset"@.len() == 5);
    assert(table_fields(seq![fc], 0) == Seq::<SpanView>::empty());
}

/// One state in full: its type, its name and every field.
pub proof fn table_state_of_one(state: SerializableState, field: (String, Json))
    ensures
        ({
            let lines = state_lines(seq![state], 1);
            let head = plain("  "@ + state.entity_type@ + " "@ + state.selector_name@ + ":\n"@);
            &&& state.fields matches Json::Dict(fields) ==> lines == seq![head] + value_lines(
                fields@,
                fields@.len(),
            )
            &&& !(state.fields is Dict) ==> lines == seq![head]
        }),
        value_lines(seq![field], 1) == seq![
            plain("    "@ + field.0@ + ": "@ + compact(field.1) + "\n"@),
        ],
{
    assert(state_lines(seq![state], 0) == Seq::<SpanView>::empty());
    assert(value_lines(seq![field], 0) == Seq::<SpanView>::empty());
}

/// A table has a line for each entry, with its number, its time, its trigger, its
/// entities, its outcome and its changes.
pub proof fn every_entry_has_its_line(entries: Seq<JournalEntry>, term_width: nat, n: nat)
    requires
        0 < n <= entries.len(),
    ensures
        ({
            let entry = entries[n - 1];
            let ops = entry.diff.operations@;
            let line = plain(
                padded(decimal(entry.seq as nat), 5) + " "@ + padded(
                    instant_text(
                        entry.timestamp.secs,
                        entry.timestamp.nanos,
                        "%Y-%m-%d %H:%M:%S"@,
                    ),
                    21,
                ) + " "@ + padded(trigger_name(entry.trigger), 15) + " "@ + padded(
                    entities_list(ops),
                    14,
                ) + " "@ + padded(outcome_text(entry.outcome), 16) + " "@,
            );
            table_rows(entries, term_width, n) == table_rows(entries, term_width, (n - 1) as nat)
                + seq![line] + colored_list(
                cut_changes(changes_list(ops), changes_width(term_width)),
            ) + seq![plain("\n"@)]
        }),
{
}

/// The changes of operations hold a sign and a name for every entity that comes or
/// goes, and the notation of every field that has one, wherever they stand.
pub proof fn every_notation_is_held(ops: Seq<SerializableDiffOp>, i: int, n: nat)
    requires
        0 <= i < n <= ops.len(),
    ensures
        ops[i].kind@ == "add"@ ==> notations(ops, n).contains("+"@ + ops[i].entity_name@),
        ops[i].kind@ == "remove"@ ==> notations(ops, n).contains("-"@ + ops[i].entity_name@),
        ops[i].kind@ != "add"@ && ops[i].kind@ != "remove"@ ==> forall|k: int|
            0 <= k < ops[i].field_changes@.len() && notation(
                #[trigger] ops[i].field_changes@[k],
            ) is Some ==> notations(ops, n).contains(notation(ops[i].field_changes@[k])->0),
    decreases n,
{
    reveal_strlit("add");
    reveal_strlit("remove");
    assert("add"@.len() == 3 && "remove"@.len() == 6);
    let before = notations(ops, (n - 1) as nat);
    let all = notations(ops, n);
    let op = ops[n - 1];
    let fields = op.field_changes@;
    assert forall|t: Seq<char>| before.contains(t) implies all.contains(t) by {
        if op.kind@ == "add"@ || op.kind@ == "remove"@ {
            assert(all[before.index_of(t)] == t);
        } else {
            lemma_notations_stay(before, fields, fields.len(), t);
        }
    }
    if i < n - 1 {
        every_notation_is_held(ops, i, (n - 1) as nat);
    } else if op.kind@ == "add"@ || op.kind@ == "remove"@ {
        assert(all[before.len() as int] == all.last());
    } else {
        assert forall|k: int|
            0 <= k < fields.len() && notation(#[trigger] fields[k]) is Some implies all.contains(
            notation(fields[k])->0,
        ) by {
            lemma_notation_held(before, fields, k, fields.len());
        }
    }
}

/// Notations that are there stay when more are put in.
proof fn lemma_notations_stay(
    texts: Seq<Seq<char>>,
    fields: Seq<SerializableFieldChange>,
    n: nat,
    t: Seq<char>,
)
    requires
        n <= fields.len(),
        texts.contains(t),
    ensures
        with_notations(texts, fields, n).contains(t),
    decreases n,
{
    if n > 0 {
        lemma_notations_stay(texts, fields, (n - 1) as nat, t);
        let before = with_notations(texts, fields, (n - 1) as nat);
        let all = with_notations(texts, fields, n);
        assert(all[before.index_of(t)] == t);
    }
}

/// The notation of a field is held once it is put in.
proof fn lemma_notation_held(
    texts: Seq<Seq<char>>,
    fields: Seq<SerializableFieldChange>,
    k: int,
    n: nat,
)
    requires
        0 <= k < n <= fields.len(),
        notation(fields[k]) is Some,
    ensures
        with_notations(texts, fields, n).contains(notation(fields[k])->0),
    decreases n,
{
    let t = notation(fields[k])->0;
    let before = with_notations(texts, fields, (n - 1) as nat);
    let all = with_notations(texts, fields, n);
    if k < n - 1 {
        lemma_notation_held(texts, fields, k, (n - 1) as nat);
        assert(all[before.index_of(t)] == t);
    } else if !before.contains(t) {
        assert(all[before.len() as int] == t);
    }
}

/// The notation for a field: a plus where it is new, a tilde where it changes, a
/// minus where it is unset; for a list the numbers of elements that come and go.
pub proof fn notation_of_one(fc: SerializableFieldChange)
    ensures
        ({
            let name = fc.field_name@;
            let lists = (fc.current matches Some(Json::List(_))) || (fc.desired matches Some(
                Json::List(_),
            ));
            let added = gained(items_of(fc.desired), items_of(fc.current)).len();
            let removed = gained(items_of(fc.current), items_of(fc.desired)).len();
            let changed = fc.change_kind@ != "unchanged"@;
            &&& !changed ==> notation(fc) is None
            &&& !lists && fc.change_kind@ == "set"@ && fc.current is None ==> notation(fc) == Some(
                "+"@ + name,
            )
            &&& !lists && fc.change_kind@ == "set"@ && fc.current is Some ==> notation(fc) == Some(
                "~"@ + name,
            )
            &&& !lists && fc.change_kind@ == "unset"@ ==> notation(fc) == Some("-"@ + name)
            &&& lists && changed && added > 0 && removed > 0 ==> notation(fc) == Some(
                name + "(+"@ + decimal(added) + ",-"@ + decimal(removed) + ")"@,
            )
            &&& lists && changed && added > 0 && removed == 0 ==> notation(fc) == Some(
                name + "(+"@ + decimal(added) + ")"@,
            )
            &&& lists && changed && added == 0 && removed > 0 ==> notation(fc) == Some(
                name + "(-"@ + decimal(removed) + ")"@,
            )
            &&& lists && added == 0 && removed == 0 ==> notation(fc) is None
        }),
{
    reveal_strlit("set");
    reveal_strlit("unset");
    reveal_strlit("unchanged");
    assert("set"@.len() == 3 && "unset"@.len() == 5 && "unchanged"@.len() == 9);
}

/// Up to three changes are all told, of more the first three and the number of the
/// others; where entities only come or only go they are counted.
pub proof fn changes_are_told(ops: Seq<SerializableDiffOp>)
    ensures
        ({
            let n = ops.len();
            let added = ops_of_kind(ops, "add"@, n);
            let removed = ops_of_kind(ops, "remove"@, n);
            let modified = ops_of_kind(ops, "modify"@, n);
            let changes = notations(ops, n);
            let text = changes_list(ops);
            let counted_only = (added > 0 && removed == 0 && modified == 0) || (removed > 0 && added
                == 0 && modified == 0);
            &&& n == 0 ==> text == "(none)"@
            &&& added == 1 && removed == 0 && modified == 0 && n > 0 ==> text == "+entity"@
            &&& added > 1 && removed == 0 && modified == 0 && n > 0 ==> text == "+"@ + decimal(
                added,
            ) + " entities"@
            &&& removed == 1 && added == 0 && modified == 0 && n > 0 ==> text == "-entity"@
            &&& removed > 1 && added == 0 && modified == 0 && n > 0 ==> text == "-"@ + decimal(
                removed,
            ) + " entities"@
            &&& n > 0 && !counted_only && changes.len() == 0 ==> text == "(no changes)"@
            &&& n > 0 && !counted_only && 1 <= changes.len() <= 3 ==> text == joined(changes, ", "@)
            &&& n > 0 && !counted_only && changes.len() > 3 ==> text == joined(
                changes.take(3),
                ", "@,
            ) + ", +"@ + decimal((changes.len() - 3) as nat) + " more"@
        }),
{
}

/// Up to three entities are all named, of more the first two and the number of the
/// others.
pub proof fn entities_are_named(ops: Seq<SerializableDiffOp>)
    ensures
        ({
            let names = entity_names(ops);
            &&& names.len() == ops.len()
            &&& forall|i: int|
                0 <= i < ops.len() ==> names[i] == (#[trigger] ops[i]).entity_name@
            &&& ops.len() == 0 ==> entities_list(ops) == "(none)"@
            &&& 1 <= ops.len() <= 3 ==> entities_list(ops) == joined(names, ", "@)
            &&& ops.len() > 3 ==> entities_list(ops) == joined(names.take(2), ", "@) + ", +"@
                + decimal((ops.len() - 2) as nat) + " more"@
        }),
{
}

/// An outcome tells each of its counts that is not zero, in order.
pub proof fn outcomes_are_told(succeeded: u32, failed: u32, skipped: u32)
    ensures
        ({
            let parts = outcome_parts(succeeded as nat, failed as nat, skipped as nat);
            let text = outcome_text(ApplyOutcome::Applied { succeeded, failed, skipped });
            &&& succeeded == 0 && failed == 0 && skipped == 0 ==> text == "applied"@
            &&& succeeded > 0 || failed > 0 || skipped > 0 ==> text == "applied ("@ + joined(
                parts,
                ", "@,
            ) + ")"@
            &&& succeeded > 0 ==> parts[0] == ""@ + decimal(succeeded as nat) + " ok"@
            &&& skipped > 0 ==> parts.last() == ""@ + decimal(skipped as nat) + " skipped"@
            &&& failed > 0 ==> parts.contains(""@ + decimal(failed as nat) + " failed"@)
        }),
        outcome_text(ApplyOutcome::Observed) == "observed"@,
{
    let parts = outcome_parts(succeeded as nat, failed as nat, skipped as nat);
    if failed > 0 {
        if succeeded > 0 {
            assert(parts[1] == ""@ + decimal(failed as nat) + " failed"@);
        } else {
            assert(parts[0] == ""@ + decimal(failed as nat) + " failed"@);
        }
    }
}

/// An entry in full tells of its head, every operation, its outcome, and every state
/// after it.
pub proof fn entries_are_told_in_full(entry: JournalEntry)
    ensures
        ({
            let ops = entry.diff.operations@;
            let states = entry.state_after.entities@;
            let diff = if ops.len() == 0 {
                seq![plain("  (no changes)\n"@)]
            } else {
                table_ops(ops, ops.len())
            };
            let told = detail_head(entry) + seq![plain("Diff:\n"@)] + diff + seq![
                plain("Outcome: "@ + outcome_text(entry.outcome) + "\n"@),
            ];
            &&& states.len() == 0 ==> table_detail(entry) == told
            &&& states.len() > 0 ==> table_detail(entry) == told + seq![plain("State after:\n"@)]
                + state_lines(states, states.len())
        }),
{
    let ops = entry.diff.operations@;
    let states = entry.state_after.entities@;
    let diff = if ops.len() == 0 {
        seq![plain("  (no changes)\n"@)]
    } else {
        table_ops(ops, ops.len())
    };
    let told = detail_head(entry) + seq![plain("Diff:\n"@)] + diff + seq![
        plain("Outcome: "@ + outcome_text(entry.outcome) + "\n"@),
    ];
    if states.len() > 0 {
        assert(table_detail(entry) == told + seq![plain("State after:\n"@)] + state_lines(
            states,
            states.len(),
        ));
    } else {
        assert(table_detail(entry) == told);
    }
}

/// Changes are shown in full where they fit, and else as much of their beginning as
/// fits ahead of three dots: one more character would not.
pub proof fn changes_are_cut_late(s: Seq<char>, width: nat)
    requires
        width >= 3,
    ensures
        byte_len(s) <= width ==> cut_changes(s, width) == s,
        byte_len(s) > width ==> exists|k: int|
            0 <= k < s.len() && cut_changes(s, width) == #[trigger] s.take(k) + "..."@ && byte_len(
                s.take(k + 1),
            ) > width - 3,
{
    if byte_len(s) > width {
        lemma_longest_prefix(s, (width - 3) as nat);
        let k = choose|k: int|
            0 <= k < s.len() && byte_prefix(s, (width - 3) as nat) == #[trigger] s.take(k)
                && byte_len(s.take(k + 1)) > width - 3;
        assert(cut_changes(s, width) == s.take(k) + "..."@);
    }
}

/// The beginning that is kept is the longest that fits.
proof fn lemma_longest_prefix(s: Seq<char>, limit: nat)
    requires
        byte_len(s) > limit,
    ensures
        exists|k: int|
            0 <= k < s.len() && byte_prefix(s, limit) == #[trigger] s.take(k) && byte_len(
                s.take(k + 1),
            ) > limit,
    decreases s.len(),
{
    let front = s.drop_last();
    assert(s.len() > 0);
    if byte_len(front) > limit {
        lemma_longest_prefix(front, limit);
        let k = choose|k: int|
            0 <= k < front.len() && byte_prefix(front, limit) == #[trigger] front.take(k)
                && byte_len(front.take(k + 1)) > limit;
        assert(front.take(k) == s.take(k));
        assert(front.take(k + 1) == s.take(k + 1));
        assert(byte_prefix(s, limit) == s.take(k));
    } else {
        assert(byte_prefix(front, limit) == front);
        assert(s.take(s.len() - 1) == front);
        assert(s.take(s.len() as int) == s);
        assert(byte_prefix(s, limit) == s.take(s.len() - 1));
    }
}

} // verus!
