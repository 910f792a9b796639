//! Summaries of one journal entry: entities, changes, trigger and outcome.
use vstd::prelude::*;
use vstd::string::*;

use crate::journal::{
    ApplyOutcome, JournalEntry, SerializableDiffOp, SerializableFieldChange, SerializableState,
    Trigger,
};
use crate::json::{
    compact, equal_to_itself, has_json, holds_list, is_list, items, items_of, json_compact, json_in,
    json_same, member, string_member, string_of, Json,
};
use crate::styled::{
    no_spans, plain, plain_text, push_plain, push_styled, render, rendering, span_views, styled,
    Span, SpanView, Style,
};
use crate::text::{
    cat2, cat3, cat4, cat5, cat7, cut_with_ellipsis, decimal, decimal_text, find_char, fitted_cell,
    has_str, join, joined, lemma_middle_holds, lemma_parted, occurs_at, push_text, push_texts, same,
    shortened, spaces, split, split_and_joined, split_text, starts_with, str_views, views,
};

verus! {

// ── Entity names ─────────────────────────────────────────────────────────────

/// Whether an entity type belongs to the system rather than to an interface.
pub open spec fn system_type(entity_type: Seq<char>) -> bool {
    entity_type == "dns"@ || entity_type == "hostname"@ || entity_type == "ntp"@
}

/// The name under which an entity is shown.
pub open spec fn shown_name(entity_type: Seq<char>, name: Seq<char>) -> Seq<char> {
    if system_type(entity_type) {
        "sys:"@ + entity_type
    } else {
        name
    }
}

/// Whether an entity type belongs to the system rather than to an interface.
pub fn is_system_type(entity_type: &str) -> (r: bool)
    ensures
        r == system_type(entity_type@),
{
    same(entity_type, "dns") || same(entity_type, "hostname") || same(entity_type, "ntp")
}

/// The name under which the entity of an operation is shown.
pub fn entity_display_name(op: &SerializableDiffOp) -> (r: String)
    ensures
        r@ == shown_name(op.entity_type@, op.entity_name@),
{
    if is_system_type(op.entity_type.as_str()) {
        cat2("sys:", op.entity_type.as_str())
    } else {
        op.entity_name.clone()
    }
}

/// The name under which the entity of a state is shown.
pub fn state_entity_display_name(state: &SerializableState) -> (r: String)
    ensures
        r@ == shown_name(state.entity_type@, state.selector_name@),
{
    if is_system_type(state.entity_type.as_str()) {
        cat2("sys:", state.entity_type.as_str())
    } else {
        state.selector_name.clone()
    }
}

// ── Cells ────────────────────────────────────────────────────────────────────

/// A cell of exactly `width` characters.
pub fn pad_or_truncate(s: &str, width: usize) -> (r: String)
    ensures
        r@ == fitted_cell(s@, width as nat),
{
    let n: usize = s.unicode_len();
    if n > width {
        if width == 0 {
            return String::new();
        }
        cut_with_ellipsis(s, width - 1)
    } else {
        let padding = spaces(width - n);
        cat2(s, padding.as_str())
    }
}

/// The text, cut to `max_chars` characters with an ellipsis where it is longer.
pub fn truncate_with_ellipsis(s: &str, max_chars: usize) -> (r: String)
    ensures
        r@ == shortened(s@, max_chars as nat),
{
    let n: usize = s.unicode_len();
    if n <= max_chars || max_chars == 0 {
        s.to_owned()
    } else {
        cut_with_ellipsis(s, max_chars - 1)
    }
}

// ── Addresses, routes, name servers ──────────────────────────────────────────

/// Whether an address is link-local.
pub open spec fn link_local(addr: Seq<char>) -> bool {
    occurs_at(addr, "fe80:"@, 0) || occurs_at(addr, "169.254."@, 0)
}

/// Whether a destination is the default route.
pub open spec fn default_destination(dest: Seq<char>) -> bool {
    dest == "0.0.0.0/0"@ || dest == "::/0"@
}

/// Those of the first `n` addresses whose link-locality is `wanted`.
pub open spec fn addresses_where(addrs: Seq<Seq<char>>, wanted: bool, n: nat) -> Seq<Seq<char>>
    decreases n,
{
    if n == 0 || n > addrs.len() {
        Seq::empty()
    } else if link_local(addrs[n - 1]) == wanted {
        addresses_where(addrs, wanted, (n - 1) as nat).push(addrs[n - 1])
    } else {
        addresses_where(addrs, wanted, (n - 1) as nat)
    }
}

/// The addresses with the link-local ones behind all others.
pub open spec fn link_local_last(addrs: Seq<Seq<char>>) -> Seq<Seq<char>> {
    addresses_where(addrs, false, addrs.len()) + addresses_where(addrs, true, addrs.len())
}

/// A prefix put before each text.
pub open spec fn prefixed(prefix: Seq<char>, texts: Seq<Seq<char>>) -> Seq<Seq<char>> {
    texts.map_values(|t: Seq<char>| prefix + t)
}

/// One direction of an address change: the first two addresses, and the number
/// of the others where there are more.
pub open spec fn capped_addresses(sign: Seq<char>, addrs: Seq<Seq<char>>) -> Seq<Seq<char>> {
    if addrs.len() <= 2 {
        prefixed(sign, addrs)
    } else {
        prefixed(sign, addrs.take(2)).push(
            "("@ + sign + decimal((addrs.len() - 2) as nat) + " addrs)"@,
        )
    }
}

/// A count with its noun, where it is not zero.
pub open spec fn counted(sign: Seq<char>, n: nat, noun: Seq<char>) -> Seq<Seq<char>> {
    if n == 0 {
        Seq::empty()
    } else {
        seq![sign + decimal(n) + noun]
    }
}

/// How added and removed addresses are shown: by value up to three, then capped in
/// each direction, and only counted where there are nine or more.
pub open spec fn address_changes(
    added: Seq<Seq<char>>,
    removed: Seq<Seq<char>>,
) -> Seq<Seq<char>> {
    if added.len() + removed.len() >= 9 {
        counted("+"@, added.len(), " addrs"@) + counted("-"@, removed.len(), " addrs"@)
    } else if added.len() + removed.len() <= 3 {
        prefixed("+"@, link_local_last(added)) + prefixed("-"@, link_local_last(removed))
    } else {
        capped_addresses("+"@, link_local_last(added)) + capped_addresses(
            "-"@,
            link_local_last(removed),
        )
    }
}

/// Whether an address is link-local.
pub fn is_link_local(addr: &str) -> (r: bool)
    ensures
        r == link_local(addr@),
{
    starts_with(addr, "fe80:") || starts_with(addr, "169.254.")
}

/// Whether a destination is the default route.
pub fn is_default_route(dest: &str) -> (r: bool)
    ensures
        r == default_destination(dest@),
{
    same(dest, "0.0.0.0/0") || same(dest, "::/0")
}

/// The addresses whose link-locality is `wanted`, in their order.
fn pick_addresses<'a>(addrs: &Vec<&'a str>, wanted: bool) -> (r: Vec<&'a str>)
    ensures
        str_views(r@) == addresses_where(str_views(addrs@), wanted, addrs@.len()),
{
    let mut out: Vec<&'a str> = Vec::new();
    let n: usize = addrs.len();
    let mut i: usize = 0;
    while i < n
        invariant
            i <= n,
            n == addrs@.len(),
            str_views(out@) == addresses_where(str_views(addrs@), wanted, i as nat),
        decreases n - i,
    {
        let addr = addrs[i];
        if is_link_local(addr) == wanted {
            let ghost before = out@;
            out.push(addr);
            assert(str_views(out@) == str_views(before).push(addr@));
        }
        i = i + 1;
    }
    out
}

/// The addresses with the link-local ones behind all others.
fn sort_addresses<'a>(addrs: &Vec<&'a str>) -> (r: Vec<&'a str>)
    ensures
        str_views(r@) == link_local_last(str_views(addrs@)),
{
    let mut first = pick_addresses(addrs, false);
    let mut second = pick_addresses(addrs, true);
    let ghost a = first@;
    let ghost b = second@;
    first.append(&mut second);
    assert(str_views(first@) == str_views(a) + str_views(b));
    first
}

/// Appends the first `n` texts, each behind a prefix.
fn push_prefixed(out: &mut Vec<String>, prefix: &str, texts: &Vec<&str>, n: usize)
    requires
        n <= texts@.len(),
    ensures
        views(final(out)@) == views(old(out)@) + prefixed(
            prefix@,
            str_views(texts@).take(n as int),
        ),
{
    let mut i: usize = 0;
    while i < n
        invariant
            i <= n <= texts@.len(),
            views(out@) == views(old(out)@) + prefixed(
                prefix@,
                str_views(texts@).take(i as int),
            ),
        decreases n - i,
    {
        push_text(out, cat2(prefix, texts[i]));
        proof {
            assert(prefixed(prefix@, str_views(texts@).take(i + 1)) == prefixed(
                prefix@,
                str_views(texts@).take(i as int),
            ).push(prefix@ + texts@[i as int]@));
        }
        i = i + 1;
    }
}

/// Appends one direction of an address change.
fn push_addresses(out: &mut Vec<String>, sign: &str, addrs: &Vec<&str>)
    ensures
        views(final(out)@) == views(old(out)@) + capped_addresses(sign@, str_views(addrs@)),
{
    let n: usize = addrs.len();
    if n <= 2 {
        push_prefixed(out, sign, addrs, n);
        assert(str_views(addrs@).take(n as int) == str_views(addrs@));
    } else {
        push_prefixed(out, sign, addrs, 2);
        let rest = decimal_text((n - 2) as u64);
        push_text(out, cat4("(", sign, rest.as_str(), " addrs)"));
    }
}

/// Appends a count with its noun, where it is not zero.
pub fn push_count(out: &mut Vec<String>, sign: &str, n: usize, noun: &str)
    ensures
        views(final(out)@) == views(old(out)@) + counted(sign@, n as nat, noun@),
{
    if n > 0 {
        let digits = decimal_text(n as u64);
        push_text(out, cat3(sign, digits.as_str(), noun));
    } else {
        assert(views(out@) == views(old(out)@) + counted(sign@, n as nat, noun@));
    }
}

/// How added and removed addresses are shown.
pub fn format_address_changes(added: Vec<&str>, removed: Vec<&str>) -> (r: Vec<String>)
    ensures
        views(r@) == address_changes(str_views(added@), str_views(removed@)),
{
    let mut parts: Vec<String> = Vec::new();
    assert(views(parts@) == Seq::<Seq<char>>::empty());
    if added.len() >= 9 || removed.len() >= 9 || added.len() + removed.len() >= 9 {
        push_count(&mut parts, "+", added.len(), " addrs");
        push_count(&mut parts, "-", removed.len(), " addrs");
    } else {
        let sorted_added = sort_addresses(&added);
        let sorted_removed = sort_addresses(&removed);
        if added.len() + removed.len() <= 3 {
            push_prefixed(&mut parts, "+", &sorted_added, sorted_added.len());
            push_prefixed(&mut parts, "-", &sorted_removed, sorted_removed.len());
            assert(str_views(sorted_added@).take(sorted_added@.len() as int) == str_views(
                sorted_added@,
            ));
            assert(str_views(sorted_removed@).take(sorted_removed@.len() as int) == str_views(
                sorted_removed@,
            ));
        } else {
            push_addresses(&mut parts, "+", &sorted_added);
            push_addresses(&mut parts, "-", &sorted_removed);
        }
    }
    parts
}

/// Whether a route leads to the default destination.
pub open spec fn default_route(route: Json) -> bool {
    match string_member(route, "destination"@) {
        Some(dest) => default_destination(dest),
        None => false,
    }
}

/// The gateway of a route, or a question mark.
pub open spec fn gateway_of(route: Json) -> Seq<char> {
    match string_member(route, "gateway"@) {
        Some(gw) => gw,
        None => "?"@,
    }
}

/// The default routes among the first `n` routes, each by its gateway.
pub open spec fn default_routes(sign: Seq<char>, routes: Seq<Json>, n: nat) -> Seq<Seq<char>>
    decreases n,
{
    if n == 0 || n > routes.len() {
        Seq::empty()
    } else if default_route(routes[n - 1]) {
        default_routes(sign, routes, (n - 1) as nat).push(
            sign + "dflt via "@ + gateway_of(routes[n - 1]),
        )
    } else {
        default_routes(sign, routes, (n - 1) as nat)
    }
}

/// The number of the first `n` routes that are no default routes.
pub open spec fn other_routes(routes: Seq<Json>, n: nat) -> nat
    decreases n,
{
    if n == 0 || n > routes.len() {
        0
    } else if default_route(routes[n - 1]) {
        other_routes(routes, (n - 1) as nat)
    } else {
        other_routes(routes, (n - 1) as nat) + 1
    }
}

/// How added and removed routes are shown: default routes by their gateway, all
/// others only counted.
pub open spec fn route_changes(added: Seq<Json>, removed: Seq<Json>) -> Seq<Seq<char>> {
    default_routes("+"@, added, added.len()) + default_routes("-"@, removed, removed.len())
        + counted("+"@, other_routes(added, added.len()), " routes"@) + counted(
        "-"@,
        other_routes(removed, removed.len()),
        " routes"@,
    )
}

/// The values behind a list of references.
pub open spec fn derefs(v: Seq<&Json>) -> Seq<Json> {
    v.map_values(|j: &Json| *j)
}

/// Appends the default routes; returns the number of the others.
fn push_default_routes(out: &mut Vec<String>, sign: &str, routes: &Vec<&Json>) -> (r: usize)
    ensures
        views(final(out)@) == views(old(out)@) + default_routes(
            sign@,
            derefs(routes@),
            routes@.len(),
        ),
        r == other_routes(derefs(routes@), routes@.len()),
{
    let n: usize = routes.len();
    let mut others: usize = 0;
    let mut i: usize = 0;
    assert(views(out@) == views(old(out)@) + Seq::<Seq<char>>::empty());
    while i < n
        invariant
            i <= n,
            n == routes@.len(),
            others <= i,
            others == other_routes(derefs(routes@), i as nat),
            views(out@) == views(old(out)@) + default_routes(sign@, derefs(routes@), i as nat),
        decreases n - i,
    {
        let route = routes[i];
        assert(derefs(routes@)[i as int] == *route);
        let is_default = match route.get_str("destination") {
            Some(dest) => is_default_route(dest),
            None => false,
        };
        if is_default {
            let gw = match route.get_str("gateway") {
                Some(g) => g,
                None => "?",
            };
            push_text(out, cat3(sign, "dflt via ", gw));
        } else {
            others = others + 1;
        }
        i = i + 1;
    }
    others
}

/// How added and removed routes are shown.
pub fn format_route_changes(added_routes: Vec<&Json>, removed_routes: Vec<&Json>) -> (r: Vec<
    String,
>)
    ensures
        views(r@) == route_changes(derefs(added_routes@), derefs(removed_routes@)),
{
    let mut parts: Vec<String> = Vec::new();
    assert(views(parts@) == Seq::<Seq<char>>::empty());
    let n_add: usize = push_default_routes(&mut parts, "+", &added_routes);
    let n_rem: usize = push_default_routes(&mut parts, "-", &removed_routes);
    push_count(&mut parts, "+", n_add, " routes");
    push_count(&mut parts, "-", n_rem, " routes");
    parts
}

/// How added and removed name servers are shown.
pub open spec fn dns_changes(added: Seq<Seq<char>>, removed: Seq<Seq<char>>) -> Seq<Seq<char>> {
    prefixed("+ns "@, added) + prefixed("-ns "@, removed)
}

/// How added and removed name servers are shown.
pub fn format_dns_changes(added: Vec<&str>, removed: Vec<&str>) -> (r: Vec<String>)
    ensures
        views(r@) == dns_changes(str_views(added@), str_views(removed@)),
{
    let mut parts: Vec<String> = Vec::new();
    assert(views(parts@) == Seq::<Seq<char>>::empty());
    push_prefixed(&mut parts, "+ns ", &added, added.len());
    push_prefixed(&mut parts, "-ns ", &removed, removed.len());
    assert(str_views(added@).take(added@.len() as int) == str_views(added@));
    assert(str_views(removed@).take(removed@.len() as int) == str_views(removed@));
    parts
}

// ── Trigger and outcome ──────────────────────────────────────────────────────

/// The name of a kind of trigger.
pub open spec fn trigger_name(trigger: Trigger) -> Seq<char> {
    match trigger {
        Trigger::PolicyApply { .. } => "policy-apply"@,
        Trigger::DhcpEvent { .. } => "dhcp-lease"@,
        Trigger::ExternalChange { .. } => "external"@,
        Trigger::DaemonStartup => "daemon-startup"@,
        Trigger::Revert { .. } => "revert"@,
    }
}

/// What a trigger says beyond its kind, in parentheses behind a space.
pub open spec fn trigger_detail(trigger: Trigger) -> Seq<char> {
    match trigger {
        Trigger::PolicyApply { source } => " (source: "@ + source@ + ")"@,
        Trigger::DhcpEvent { policy_name, event_kind } => " (policy: "@ + policy_name@
            + ", event: "@ + event_kind@ + ")"@,
        Trigger::ExternalChange { changed_entities } => if changed_entities@.len() == 0 {
            Seq::empty()
        } else {
            " ("@ + joined(views(changed_entities@), ", "@) + ")"@
        },
        Trigger::DaemonStartup => Seq::empty(),
        Trigger::Revert { target_seq } => " (target seq: "@ + decimal(target_seq as nat) + ")"@,
    }
}

/// The name of a kind of trigger.
pub fn trigger_display_name(trigger: &Trigger) -> (r: &'static str)
    ensures
        r@ == trigger_name(*trigger),
{
    match trigger {
        Trigger::PolicyApply { .. } => "policy-apply",
        Trigger::DhcpEvent { .. } => "dhcp-lease",
        Trigger::ExternalChange { .. } => "external",
        Trigger::DaemonStartup => "daemon-startup",
        Trigger::Revert { .. } => "revert",
    }
}

/// What a trigger says beyond its kind.
pub fn trigger_detail_str(trigger: &Trigger) -> (r: String)
    ensures
        r@ == trigger_detail(*trigger),
{
    match trigger {
        Trigger::PolicyApply { source } => cat3(" (source: ", source.as_str(), ")"),
        Trigger::DhcpEvent { policy_name, event_kind } => cat5(
            " (policy: ",
            policy_name.as_str(),
            ", event: ",
            event_kind.as_str(),
            ")",
        ),
        Trigger::ExternalChange { changed_entities } => {
            if changed_entities.len() == 0 {
                String::new()
            } else {
                let names = join(changed_entities.as_slice(), ", ");
                cat3(" (", names.as_str(), ")")
            }
        },
        Trigger::DaemonStartup => String::new(),
        Trigger::Revert { target_seq } => {
            let digits = decimal_text(*target_seq);
            cat3(" (target seq: ", digits.as_str(), ")")
        },
    }
}

/// An outcome in short: failures are counted, nothing else is.
pub open spec fn short_outcome(outcome: ApplyOutcome) -> Seq<char> {
    match outcome {
        ApplyOutcome::Applied { failed, .. } => if failed > 0 {
            "applied ("@ + decimal(failed as nat) + " fail)"@
        } else {
            "applied"@
        },
        ApplyOutcome::Observed => "observed"@,
    }
}

/// An outcome with all its counts.
pub open spec fn full_outcome(outcome: ApplyOutcome) -> Seq<char> {
    match outcome {
        ApplyOutcome::Applied { succeeded, failed, skipped } => "applied ("@ + decimal(
            succeeded as nat,
        ) + " succeeded, "@ + decimal(failed as nat) + " failed, "@ + decimal(skipped as nat)
            + " skipped)"@,
        ApplyOutcome::Observed => "observed"@,
    }
}

/// An outcome in short.
pub fn outcome_summary(outcome: &ApplyOutcome) -> (r: String)
    ensures
        r@ == short_outcome(*outcome),
{
    match outcome {
        ApplyOutcome::Applied { failed, .. } => {
            if *failed > 0 {
                let n = decimal_text(*failed as u64);
                cat3("applied (", n.as_str(), " fail)")
            } else {
                "applied".to_owned()
            }
        },
        ApplyOutcome::Observed => "observed".to_owned(),
    }
}

/// An outcome with all its counts.
pub fn outcome_detail(outcome: &ApplyOutcome) -> (r: String)
    ensures
        r@ == full_outcome(*outcome),
{
    match outcome {
        ApplyOutcome::Applied { succeeded, failed, skipped } => {
            let s = decimal_text(*succeeded as u64);
            let f = decimal_text(*failed as u64);
            let k = decimal_text(*skipped as u64);
            cat7(
                "applied (",
                s.as_str(),
                " succeeded, ",
                f.as_str(),
                " failed, ",
                k.as_str(),
                " skipped)",
            )
        },
        ApplyOutcome::Observed => "observed".to_owned(),
    }
}

// ── Failed fields ────────────────────────────────────────────────────────────

/// Whether a field was to be changed and the change failed.
pub open spec fn field_failed(fc: SerializableFieldChange) -> bool {
    fc.change_kind@ != "unchanged"@ && fc.outcome is Some && fc.outcome->0@ == "failed"@
}

/// The number of failed fields among the first `n`.
pub open spec fn failed_in(fields: Seq<SerializableFieldChange>, n: nat) -> nat
    decreases n,
{
    if n == 0 || n > fields.len() {
        0
    } else {
        failed_in(fields, (n - 1) as nat) + if field_failed(fields[n - 1]) {
            1nat
        } else {
            0
        }
    }
}

/// The number of failed fields in the first `n` operations.
pub open spec fn failed_fields(ops: Seq<SerializableDiffOp>, n: nat) -> nat
    decreases n,
{
    if n == 0 || n > ops.len() {
        0
    } else {
        failed_fields(ops, (n - 1) as nat) + failed_in(
            ops[n - 1].field_changes@,
            ops[n - 1].field_changes@.len(),
        )
    }
}

/// The number of failures of an entry: its failed fields, as a 32-bit count, or
/// what its outcome counts where that is zero.
pub open spec fn failures(entry: JournalEntry) -> nat {
    let ops = entry.diff.operations@;
    let count = failed_fields(ops, ops.len()) % 0x1_0000_0000;
    match entry.outcome {
        ApplyOutcome::Applied { failed, .. } if count == 0 => failed as nat,
        _ => count,
    }
}

/// Whether a field was to be changed and the change failed.
fn is_failed(fc: &SerializableFieldChange) -> (r: bool)
    ensures
        r == field_failed(*fc),
{
    if same(fc.change_kind.as_str(), "unchanged") {
        return false;
    }
    match &fc.outcome {
        Some(o) => same(o.as_str(), "failed"),
        None => false,
    }
}

/// The number of failures of an entry.
pub fn count_failed_fields(entry: &JournalEntry) -> (r: u32)
    ensures
        r == failures(*entry),
{
    let ops = &entry.diff.operations;
    let mut count: u32 = 0;
    let n: usize = ops.len();
    let mut i: usize = 0;
    while i < n
        invariant
            i <= n,
            n == ops@.len(),
            count == failed_fields(ops@, i as nat) % 0x1_0000_0000,
        decreases n - i,
    {
        let fields = &ops[i].field_changes;
        let m: usize = fields.len();
        let mut k: usize = 0;
        while k < m
            invariant
                i < n,
                n == ops@.len(),
                k <= m,
                m == fields@.len(),
                fields@ == ops@[i as int].field_changes@,
                count == (failed_fields(ops@, i as nat) + failed_in(fields@, k as nat))
                    % 0x1_0000_0000,
            decreases m - k,
        {
            if is_failed(&fields[k]) {
                count = count.wrapping_add(1);
            }
            k = k + 1;
        }
        i = i + 1;
    }
    if count == 0 {
        if let ApplyOutcome::Applied { failed, .. } = &entry.outcome {
            return *failed;
        }
    }
    count
}

// ── Entities ─────────────────────────────────────────────────────────────────

/// The sign of an operation that adds or removes its entity.
pub open spec fn lifecycle_sign(kind: Seq<char>) -> Seq<char> {
    if kind == "add"@ {
        "+"@
    } else if kind == "remove"@ {
        "-"@
    } else {
        ""@
    }
}

/// Whether an operation adds or removes its entity.
pub open spec fn lifecycle(op: SerializableDiffOp) -> bool {
    op.kind@ == "add"@ || op.kind@ == "remove"@
}

/// The entity of an operation, behind the operation's sign.
pub open spec fn signed_name(op: SerializableDiffOp) -> Seq<char> {
    lifecycle_sign(op.kind@) + shown_name(op.entity_type@, op.entity_name@)
}

/// The entities of the operations, each behind its sign.
pub open spec fn signed_names(ops: Seq<SerializableDiffOp>) -> Seq<Seq<char>> {
    ops.map_values(|op: SerializableDiffOp| signed_name(op))
}

/// The entities of those of the first `n` operations whose lifecycle is `wanted`.
pub open spec fn signed_names_where(
    ops: Seq<SerializableDiffOp>,
    wanted: bool,
    n: nat,
) -> Seq<Seq<char>>
    decreases n,
{
    if n == 0 || n > ops.len() {
        Seq::empty()
    } else if lifecycle(ops[n - 1]) == wanted {
        signed_names_where(ops, wanted, (n - 1) as nat).push(signed_name(ops[n - 1]))
    } else {
        signed_names_where(ops, wanted, (n - 1) as nat)
    }
}

/// The names of those of the first `n` states that belong to an interface.
pub open spec fn interface_names(states: Seq<SerializableState>, n: nat) -> Seq<Seq<char>>
    decreases n,
{
    if n == 0 || n > states.len() {
        Seq::empty()
    } else if system_type(states[n - 1].entity_type@) {
        interface_names(states, (n - 1) as nat)
    } else {
        interface_names(states, (n - 1) as nat).push(states[n - 1].selector_name@)
    }
}

/// The number of the first `n` operations of a kind.
pub open spec fn ops_of_kind(ops: Seq<SerializableDiffOp>, kind: Seq<char>, n: nat) -> nat
    decreases n,
{
    if n == 0 || n > ops.len() {
        0
    } else {
        ops_of_kind(ops, kind, (n - 1) as nat) + if ops[n - 1].kind@ == kind {
            1nat
        } else {
            0
        }
    }
}

/// The entities of an entry: those of its operations, or where it has none those
/// of the interfaces in its state. Up to three are listed, up to six shortened to
/// two with lifecycle operations first, more only counted.
pub open spec fn entities_text(
    ops: Seq<SerializableDiffOp>,
    states: Seq<SerializableState>,
) -> Seq<char> {
    let n = ops.len();
    if n == 0 {
        let names = interface_names(states, states.len());
        if names.len() == 0 {
            "(none)"@
        } else {
            joined(names, ", "@)
        }
    } else if n <= 3 {
        joined(signed_names(ops), ", "@)
    } else if n <= 6 {
        let ordered = signed_names_where(ops, true, n) + signed_names_where(ops, false, n);
        joined(ordered.take(2), ", "@) + " (+"@ + decimal((n - 2) as nat) + " more)"@
    } else {
        let added = ops_of_kind(ops, "add"@, n);
        let removed = ops_of_kind(ops, "remove"@, n);
        joined(
            counted("+"@, added, ""@) + counted("~"@, (n - added - removed) as nat, ""@) + counted(
                "-"@,
                removed,
                ""@,
            ),
            ", "@,
        ) + " entities"@
    }
}

/// The sign of an operation that adds or removes its entity.
fn sign_of(kind: &str) -> (r: &'static str)
    ensures
        r@ == lifecycle_sign(kind@),
{
    if same(kind, "add") {
        "+"
    } else if same(kind, "remove") {
        "-"
    } else {
        ""
    }
}

/// The entity of an operation, behind the operation's sign.
fn signed(op: &SerializableDiffOp) -> (r: String)
    ensures
        r@ == signed_name(*op),
{
    let name = entity_display_name(op);
    cat2(sign_of(op.kind.as_str()), name.as_str())
}

/// The entities of the operations, each behind its sign.
fn signed_all(ops: &[SerializableDiffOp]) -> (r: Vec<String>)
    ensures
        views(r@) == signed_names(ops@),
        r@.len() == ops@.len(),
{
    let mut out: Vec<String> = Vec::new();
    let n: usize = ops.len();
    let mut i: usize = 0;
    while i < n
        invariant
            i <= n,
            n == ops@.len(),
            views(out@) == signed_names(ops@).take(i as int),
        decreases n - i,
    {
        push_text(&mut out, signed(&ops[i]));
        assert(signed_names(ops@).take(i + 1) == signed_names(ops@).take(i as int).push(
            signed_names(ops@)[i as int],
        ));
        i = i + 1;
    }
    assert(views(out@).len() == n);
    out
}

/// The entities of the operations whose lifecycle is `wanted`.
fn signed_where(ops: &[SerializableDiffOp], wanted: bool) -> (r: Vec<String>)
    ensures
        views(r@) == signed_names_where(ops@, wanted, ops@.len()),
{
    let mut out: Vec<String> = Vec::new();
    let n: usize = ops.len();
    let mut i: usize = 0;
    assert(views(out@) == Seq::<Seq<char>>::empty());
    while i < n
        invariant
            i <= n,
            n == ops@.len(),
            views(out@) == signed_names_where(ops@, wanted, i as nat),
        decreases n - i,
    {
        let kind = ops[i].kind.as_str();
        if (same(kind, "add") || same(kind, "remove")) == wanted {
            push_text(&mut out, signed(&ops[i]));
        }
        i = i + 1;
    }
    out
}

/// Every operation is either of lifecycle or not.
proof fn lemma_lifecycle_split(ops: Seq<SerializableDiffOp>, n: nat)
    requires
        n <= ops.len(),
    ensures
        signed_names_where(ops, true, n).len() + signed_names_where(ops, false, n).len() == n,
    decreases n,
{
    if n > 0 {
        lemma_lifecycle_split(ops, (n - 1) as nat);
    }
}

/// Two different kinds are counted apart.
proof fn lemma_kinds_apart(
    ops: Seq<SerializableDiffOp>,
    a: Seq<char>,
    b: Seq<char>,
    n: nat,
)
    requires
        n <= ops.len(),
        a != b,
    ensures
        ops_of_kind(ops, a, n) + ops_of_kind(ops, b, n) <= n,
    decreases n,
{
    if n > 0 {
        lemma_kinds_apart(ops, a, b, (n - 1) as nat);
    }
}

/// The number of operations of a kind.
pub fn count_kind(ops: &[SerializableDiffOp], kind: &str) -> (r: usize)
    ensures
        r == ops_of_kind(ops@, kind@, ops@.len()),
        r <= ops@.len(),
{
    let mut count: usize = 0;
    let n: usize = ops.len();
    let mut i: usize = 0;
    while i < n
        invariant
            i <= n,
            n == ops@.len(),
            count <= i,
            count == ops_of_kind(ops@, kind@, i as nat),
        decreases n - i,
    {
        if same(ops[i].kind.as_str(), kind) {
            count = count + 1;
        }
        i = i + 1;
    }
    count
}

/// The names of the states that belong to an interface.
fn interfaces(states: &[SerializableState]) -> (r: Vec<String>)
    ensures
        views(r@) == interface_names(states@, states@.len()),
{
    let mut names: Vec<String> = Vec::new();
    let n: usize = states.len();
    let mut i: usize = 0;
    assert(views(names@) == Seq::<Seq<char>>::empty());
    while i < n
        invariant
            i <= n,
            n == states@.len(),
            views(names@) == interface_names(states@, i as nat),
        decreases n - i,
    {
        if !is_system_type(states[i].entity_type.as_str()) {
            push_text(&mut names, state_entity_display_name(&states[i]));
        }
        i = i + 1;
    }
    names
}

/// The entities of a list of operations.
pub fn entities_summary(ops: &[SerializableDiffOp]) -> (r: String)
    ensures
        r@ == entities_text(ops@, Seq::empty()),
{
    entities_summary_with_state(ops, &[])
}

/// The entities of an entry.
pub fn entities_summary_with_state(
    ops: &[SerializableDiffOp],
    state_entities: &[SerializableState],
) -> (r: String)
    ensures
        r@ == entities_text(ops@, state_entities@),
{
    let count: usize = ops.len();
    if count == 0 {
        let names = interfaces(state_entities);
        assert(views(names@).len() == names@.len());
        if names.len() == 0 {
            return "(none)".to_owned();
        }
        return join(names.as_slice(), ", ");
    }
    if count <= 3 {
        let items = signed_all(ops);
        return join(items.as_slice(), ", ");
    }
    if count <= 6 {
        let mut ordered = signed_where(ops, true);
        let others = signed_where(ops, false);
        push_texts(&mut ordered, others);
        proof {
            lemma_lifecycle_split(ops@, ops@.len());
            assert(views(ordered@).len() == ordered@.len());
        }
        ordered.truncate(2);
        assert(views(ordered@) == (signed_names_where(ops@, true, ops@.len())
            + signed_names_where(ops@, false, ops@.len())).take(2));
        let shown = join(ordered.as_slice(), ", ");
        let more = decimal_text((count - 2) as u64);
        return cat4(shown.as_str(), " (+", more.as_str(), " more)");
    }
    let added: usize = count_kind(ops, "add");
    let removed: usize = count_kind(ops, "remove");
    proof {
        reveal_strlit("add");
        reveal_strlit("remove");
        assert("add"@.len() != "remove"@.len());
        lemma_kinds_apart(ops@, "add"@, "remove"@, ops@.len());
    }
    let mut parts: Vec<String> = Vec::new();
    assert(views(parts@) == Seq::<Seq<char>>::empty());
    push_count(&mut parts, "+", added, "");
    push_count(&mut parts, "~", count - added - removed, "");
    push_count(&mut parts, "-", removed, "");
    let text = join(parts.as_slice(), ", ");
    cat2(text.as_str(), " entities")
}

/// The first `shown` entities, and the number of the others.
pub open spec fn first_entities(names: Seq<Seq<char>>, shown: nat) -> Seq<char> {
    joined(names.take(shown as int), ", "@) + ", +"@ + decimal((names.len() - shown) as nat)
        + "…"@
}

/// The longest form with at most `shown` entities named that fits in `max`
/// characters; where none does, only their number, or the cut full text.
pub open spec fn fewer_entities(
    names: Seq<Seq<char>>,
    full: Seq<char>,
    shown: nat,
    max: nat,
) -> Seq<char>
    decreases shown,
{
    if shown == 0 {
        let aggregate = "("@ + decimal(names.len()) + " entities)"@;
        if aggregate.len() <= max {
            aggregate
        } else {
            fitted_cell(full, max)
        }
    } else if first_entities(names, shown).len() <= max {
        first_entities(names, shown)
    } else {
        fewer_entities(names, full, (shown - 1) as nat, max)
    }
}

/// The entities of an entry, shortened to `max` characters. Where they do not
/// come from operations they are not shortened.
pub open spec fn entities_fitted(
    ops: Seq<SerializableDiffOp>,
    states: Seq<SerializableState>,
    max: nat,
) -> Seq<char> {
    let full = entities_text(ops, states);
    if full.len() <= max || ops.len() == 0 {
        full
    } else {
        fewer_entities(signed_names(ops), full, (ops.len() - 1) as nat, max)
    }
}

/// The entities of an entry, shortened to `max_width` characters.
pub fn entities_summary_fitted(
    ops: &[SerializableDiffOp],
    state_entities: &[SerializableState],
    max_width: usize,
) -> (r: String)
    ensures
        r@ == entities_fitted(ops@, state_entities@, max_width as nat),
{
    let full = entities_summary_with_state(ops, state_entities);
    if full.as_str().unicode_len() <= max_width {
        return full;
    }
    let items = signed_all(ops);
    let count: usize = items.len();
    if count == 0 {
        return full;
    }
    let ghost names = signed_names(ops@);
    let mut show: usize = count - 1;
    while show > 0
        invariant
            show < count,
            count == items@.len() == ops@.len(),
            names == signed_names(ops@),
            views(items@) == names,
            entities_fitted(ops@, state_entities@, max_width as nat) == fewer_entities(
                names,
                full@,
                show as nat,
                max_width as nat,
            ),
        decreases show,
    {
        let shown = join(vstd::slice::slice_subrange(items.as_slice(), 0, show), ", ");
        assert(views(items@.subrange(0, show as int)) == names.take(show as int));
        let rest = decimal_text((count - show) as u64);
        let candidate = cat4(shown.as_str(), ", +", rest.as_str(), "…");
        if candidate.as_str().unicode_len() <= max_width {
            return candidate;
        }
        show = show - 1;
    }
    let number = decimal_text(count as u64);
    let aggregate = cat3("(", number.as_str(), " entities)");
    if aggregate.as_str().unicode_len() <= max_width {
        return aggregate;
    }
    pad_or_truncate(full.as_str(), max_width)
}

// ── Changes ──────────────────────────────────────────────────────────────────

/// The place of a field among the changes of an entry.
pub open spec fn field_priority(name: Seq<char>) -> u8 {
    if name == "enabled"@ {
        1
    } else if name == "carrier"@ {
        2
    } else if name == "addresses"@ {
        3
    } else if name == "routes"@ {
        4
    } else if name == "nameservers"@ {
        5
    } else if name == "search"@ || name == "search_domains"@ {
        6
    } else if name == "mtu"@ {
        7
    } else {
        8
    }
}

/// The place of a field among the changes of an entry.
pub fn field_display_priority(name: &str) -> (r: u8)
    ensures
        r == field_priority(name@),
{
    if same(name, "enabled") {
        1
    } else if same(name, "carrier") {
        2
    } else if same(name, "addresses") {
        3
    } else if same(name, "routes") {
        4
    } else if same(name, "nameservers") {
        5
    } else if same(name, "search") || same(name, "search_domains") {
        6
    } else if same(name, "mtu") {
        7
    } else {
        8
    }
}

/// A value as it is shown: a string without quotes, anything else as JSON.
pub open spec fn display_value(j: Json) -> Seq<char> {
    match j {
        Json::Str(s) => s@,
        _ => compact(j),
    }
}

/// An optional value as it is shown; nothing where there is none.
pub open spec fn display_or_nothing(j: Option<Json>) -> Seq<char> {
    match j {
        Some(v) => display_value(v),
        None => Seq::empty(),
    }
}

/// An optional value as it is shown; null where there is none.
pub open spec fn display_or_null(j: Option<Json>) -> Seq<char> {
    match j {
        Some(v) => display_value(v),
        None => "null"@,
    }
}

/// A value as it is shown.
pub fn json_display_value(v: &Json) -> (r: String)
    ensures
        r@ == display_value(*v),
{
    match v {
        Json::Str(s) => s.clone(),
        _ => json_compact(v),
    }
}

/// An optional value as it is shown; nothing where there is none.
fn shown_or_nothing(v: &Option<Json>) -> (r: String)
    ensures
        r@ == display_or_nothing(*v),
{
    match v {
        Some(j) => json_display_value(j),
        None => String::new(),
    }
}

/// An optional value as it is shown; null where there is none.
fn shown_or_null(v: &Option<Json>) -> (r: String)
    ensures
        r@ == display_or_null(*v),
{
    match v {
        Some(j) => json_display_value(j),
        None => "null".to_owned(),
    }
}

/// The address that an element of a list of addresses holds: a string, or the
/// entry "address" of an object.
pub open spec fn address_in(j: Json) -> Option<Seq<char>> {
    match j {
        Json::Str(s) => Some(s@),
        _ => string_member(j, "address"@),
    }
}

/// The addresses that the first `n` elements hold.
pub open spec fn addresses_in(list: Seq<Json>, n: nat) -> Seq<Seq<char>>
    decreases n,
{
    if n == 0 || n > list.len() {
        Seq::empty()
    } else {
        match address_in(list[n - 1]) {
            Some(a) => addresses_in(list, (n - 1) as nat).push(a),
            None => addresses_in(list, (n - 1) as nat),
        }
    }
}

/// Those of the first `n` texts that another list lacks.
pub open spec fn texts_missing(
    texts: Seq<Seq<char>>,
    from: Seq<Seq<char>>,
    n: nat,
) -> Seq<Seq<char>>
    decreases n,
{
    if n == 0 || n > texts.len() {
        Seq::empty()
    } else if from.contains(texts[n - 1]) {
        texts_missing(texts, from, (n - 1) as nat)
    } else {
        texts_missing(texts, from, (n - 1) as nat).push(texts[n - 1])
    }
}

/// Those of the first `n` values that another list lacks.
pub open spec fn values_missing(list: Seq<Json>, from: Seq<Json>, n: nat) -> Seq<Json>
    decreases n,
{
    if n == 0 || n > list.len() {
        Seq::empty()
    } else if json_in(from, list[n - 1]) {
        values_missing(list, from, (n - 1) as nat)
    } else {
        values_missing(list, from, (n - 1) as nat).push(list[n - 1])
    }
}

/// The strings among the first `n` values.
pub open spec fn strings_in(list: Seq<Json>, n: nat) -> Seq<Seq<char>>
    decreases n,
{
    if n == 0 || n > list.len() {
        Seq::empty()
    } else {
        match string_of(list[n - 1]) {
            Some(s) => strings_in(list, (n - 1) as nat).push(s),
            None => strings_in(list, (n - 1) as nat),
        }
    }
}

/// The values that one list has and another lacks.
pub open spec fn gained(list: Seq<Json>, from: Seq<Json>) -> Seq<Json> {
    values_missing(list, from, list.len())
}

/// How the change of a list of addresses is shown.
pub open spec fn address_list_change(current: Seq<Json>, desired: Seq<Json>) -> Seq<Seq<char>> {
    let old_addrs = addresses_in(current, current.len());
    let new_addrs = addresses_in(desired, desired.len());
    address_changes(
        texts_missing(new_addrs, old_addrs, new_addrs.len()),
        texts_missing(old_addrs, new_addrs, old_addrs.len()),
    )
}

/// How the change of the search domains is shown.
pub open spec fn search_change(current: Option<Json>, desired: Option<Json>) -> Seq<char> {
    let old_text = display_or_nothing(current);
    let new_text = display_or_nothing(desired);
    if old_text.len() == 0 {
        "+search: "@ + new_text
    } else if new_text.len() == 0 {
        "-search"@
    } else {
        "search "@ + old_text + "→"@ + new_text
    }
}

/// How the change of a list is shown, by the name of its field.
pub open spec fn list_change(fc: SerializableFieldChange) -> Seq<Seq<char>> {
    let name = fc.field_name@;
    let current = items_of(fc.current);
    let desired = items_of(fc.desired);
    let added = gained(desired, current);
    let removed = gained(current, desired);
    if name == "addresses"@ {
        address_list_change(current, desired)
    } else if added.len() == 0 && removed.len() == 0 {
        Seq::empty()
    } else if name == "routes"@ {
        route_changes(added, removed)
    } else if name == "nameservers"@ {
        dns_changes(strings_in(added, added.len()), strings_in(removed, removed.len()))
    } else if name == "search"@ || name == "search_domains"@ {
        seq![search_change(fc.current, fc.desired)]
    } else {
        counted("+"@, added.len(), " "@ + name) + counted("-"@, removed.len(), " "@ + name)
    }
}

/// How the change of a single value is shown.
pub open spec fn scalar_change(fc: SerializableFieldChange) -> Seq<Seq<char>> {
    let name = fc.field_name@;
    if fc.change_kind@ == "set"@ {
        if fc.current is Some {
            seq![name + " "@ + display_value(fc.current->0) + "→"@ + display_or_null(fc.desired)]
        } else {
            seq!["+"@ + name + ": "@ + display_or_null(fc.desired)]
        }
    } else if fc.change_kind@ == "unset"@ {
        seq!["-"@ + name]
    } else {
        Seq::empty()
    }
}

/// How the change of a field is shown.
pub open spec fn field_change(fc: SerializableFieldChange) -> Seq<Seq<char>> {
    if fc.change_kind@ == "unchanged"@ {
        Seq::empty()
    } else if is_list(fc.current) || is_list(fc.desired) {
        list_change(fc)
    } else {
        scalar_change(fc)
    }
}

/// Texts with the place that they all take.
pub open spec fn at_priority(priority: u8, texts: Seq<Seq<char>>) -> Seq<(u8, Seq<char>)> {
    texts.map_values(|t: Seq<char>| (priority, t))
}

/// The changes of the first `n` fields, each with its place.
pub open spec fn field_tokens(
    fields: Seq<SerializableFieldChange>,
    n: nat,
) -> Seq<(u8, Seq<char>)>
    decreases n,
{
    if n == 0 || n > fields.len() {
        Seq::empty()
    } else {
        field_tokens(fields, (n - 1) as nat) + at_priority(
            field_priority(fields[n - 1].field_name@),
            field_change(fields[n - 1]),
        )
    }
}

/// The changes of an operation, each with its place. An entity that is added or
/// removed comes first.
pub open spec fn op_tokens(op: SerializableDiffOp) -> Seq<(u8, Seq<char>)> {
    if lifecycle(op) {
        seq![(0u8, signed_name(op))]
    } else {
        field_tokens(op.field_changes@, op.field_changes@.len())
    }
}

/// The changes of the first `n` operations, each with its place.
pub open spec fn tokens_of(ops: Seq<SerializableDiffOp>, n: nat) -> Seq<(u8, Seq<char>)>
    decreases n,
{
    if n == 0 || n > ops.len() {
        Seq::empty()
    } else {
        tokens_of(ops, (n - 1) as nat) + op_tokens(ops[n - 1])
    }
}

/// The texts at one place among the first `n` tokens, in their order.
pub open spec fn texts_at(tokens: Seq<(u8, Seq<char>)>, priority: int, n: nat) -> Seq<Seq<char>>
    decreases n,
{
    if n == 0 || n > tokens.len() {
        Seq::empty()
    } else if tokens[n - 1].0 == priority {
        texts_at(tokens, priority, (n - 1) as nat).push(tokens[n - 1].1)
    } else {
        texts_at(tokens, priority, (n - 1) as nat)
    }
}

/// The texts at the places below `bound`, place by place.
pub open spec fn in_order(tokens: Seq<(u8, Seq<char>)>, bound: nat) -> Seq<Seq<char>>
    decreases bound,
{
    if bound == 0 {
        Seq::empty()
    } else {
        in_order(tokens, (bound - 1) as nat) + texts_at(tokens, bound - 1, tokens.len())
    }
}

/// The changes of an entry: those of all its operations, in the order of their
/// places.
pub open spec fn changes_text(ops: Seq<SerializableDiffOp>) -> Seq<char> {
    let tokens = tokens_of(ops, ops.len());
    if ops.len() == 0 {
        "(none)"@
    } else if tokens.len() == 0 {
        "(no changes)"@
    } else {
        joined(in_order(tokens, 9), ", "@)
    }
}

/// The addresses that the elements of a list hold.
fn addresses_of<'a>(list: &'a [Json]) -> (r: Vec<&'a str>)
    ensures
        str_views(r@) == addresses_in(list@, list@.len()),
{
    let mut out: Vec<&'a str> = Vec::new();
    let n: usize = list.len();
    let mut i: usize = 0;
    assert(str_views(out@) == Seq::<Seq<char>>::empty());
    while i < n
        invariant
            i <= n,
            n == list@.len(),
            str_views(out@) == addresses_in(list@, i as nat),
        decreases n - i,
    {
        let ghost before = out@;
        let item = &list[i];
        let found = match item {
            Json::Str(s) => Some(s.as_str()),
            _ => item.get_str("address"),
        };
        if let Some(a) = found {
            out.push(a);
            assert(str_views(out@) == str_views(before).push(a@));
        }
        i = i + 1;
    }
    out
}

/// The texts that one list has and another lacks.
fn missing_texts<'a>(texts: &Vec<&'a str>, from: &Vec<&'a str>) -> (r: Vec<&'a str>)
    ensures
        str_views(r@) == texts_missing(str_views(texts@), str_views(from@), texts@.len()),
{
    let mut out: Vec<&'a str> = Vec::new();
    let n: usize = texts.len();
    let mut i: usize = 0;
    assert(str_views(out@) == Seq::<Seq<char>>::empty());
    while i < n
        invariant
            i <= n,
            n == texts@.len(),
            str_views(out@) == texts_missing(str_views(texts@), str_views(from@), i as nat),
        decreases n - i,
    {
        let ghost before = out@;
        let text = texts[i];
        if !has_str(from, text) {
            out.push(text);
            assert(str_views(out@) == str_views(before).push(text@));
        }
        i = i + 1;
    }
    out
}

/// The values that one list has and another lacks.
pub fn missing_values<'a>(list: &'a [Json], from: &[Json]) -> (r: Vec<&'a Json>)
    ensures
        derefs(r@) == gained(list@, from@),
{
    let mut out: Vec<&'a Json> = Vec::new();
    let n: usize = list.len();
    let mut i: usize = 0;
    assert(derefs(out@) == Seq::<Json>::empty());
    while i < n
        invariant
            i <= n,
            n == list@.len(),
            derefs(out@) == values_missing(list@, from@, i as nat),
        decreases n - i,
    {
        let ghost before = out@;
        if !has_json(from, &list[i]) {
            out.push(&list[i]);
            assert(derefs(out@) == derefs(before).push(list@[i as int]));
        }
        i = i + 1;
    }
    out
}

/// The strings among the values.
fn strings_of<'a>(list: &Vec<&'a Json>) -> (r: Vec<&'a str>)
    ensures
        str_views(r@) == strings_in(derefs(list@), list@.len()),
{
    let mut out: Vec<&'a str> = Vec::new();
    let n: usize = list.len();
    let mut i: usize = 0;
    assert(str_views(out@) == Seq::<Seq<char>>::empty());
    while i < n
        invariant
            i <= n,
            n == list@.len(),
            str_views(out@) == strings_in(derefs(list@), i as nat),
        decreases n - i,
    {
        let ghost before = out@;
        assert(derefs(list@)[i as int] == *list@[i as int]);
        if let Some(s) = list[i].as_str() {
            out.push(s);
            assert(str_views(out@) == str_views(before).push(s@));
        }
        i = i + 1;
    }
    out
}

/// How the change of the search domains is shown.
fn format_search_change(current: &Option<Json>, desired: &Option<Json>) -> (r: String)
    ensures
        r@ == search_change(*current, *desired),
{
    let old_text = shown_or_nothing(current);
    let new_text = shown_or_nothing(desired);
    if old_text.as_str().is_empty() {
        cat2("+search: ", new_text.as_str())
    } else if new_text.as_str().is_empty() {
        "-search".to_owned()
    } else {
        cat4("search ", old_text.as_str(), "→", new_text.as_str())
    }
}

/// How the change of a list is shown.
fn format_list_change(fc: &SerializableFieldChange) -> (r: Vec<String>)
    ensures
        views(r@) == list_change(*fc),
{
    let name = fc.field_name.as_str();
    let current = items(&fc.current);
    let desired = items(&fc.desired);
    if same(name, "addresses") {
        let old_addrs = addresses_of(current);
        let new_addrs = addresses_of(desired);
        let added = missing_texts(&new_addrs, &old_addrs);
        let removed = missing_texts(&old_addrs, &new_addrs);
        assert(str_views(new_addrs@).len() == new_addrs@.len());
        assert(str_views(old_addrs@).len() == old_addrs@.len());
        return format_address_changes(added, removed);
    }
    let added = missing_values(desired, current);
    let removed = missing_values(current, desired);
    assert(derefs(added@).len() == added@.len());
    assert(derefs(removed@).len() == removed@.len());
    let mut parts: Vec<String> = Vec::new();
    assert(views(parts@) == Seq::<Seq<char>>::empty());
    if added.len() == 0 && removed.len() == 0 {
        return parts;
    }
    if same(name, "routes") {
        return format_route_changes(added, removed);
    }
    if same(name, "nameservers") {
        return format_dns_changes(strings_of(&added), strings_of(&removed));
    }
    if same(name, "search") || same(name, "search_domains") {
        push_text(&mut parts, format_search_change(&fc.current, &fc.desired));
        return parts;
    }
    let noun = cat2(" ", name);
    push_count(&mut parts, "+", added.len(), noun.as_str());
    push_count(&mut parts, "-", removed.len(), noun.as_str());
    parts
}

/// How the change of a single value is shown.
fn format_scalar_change(fc: &SerializableFieldChange) -> (r: Vec<String>)
    ensures
        views(r@) == scalar_change(*fc),
{
    let name = fc.field_name.as_str();
    let kind = fc.change_kind.as_str();
    let mut parts: Vec<String> = Vec::new();
    assert(views(parts@) == Seq::<Seq<char>>::empty());
    if same(kind, "set") {
        let new_text = shown_or_null(&fc.desired);
        match &fc.current {
            Some(cur) => {
                let old_text = json_display_value(cur);
                push_text(
                    &mut parts,
                    cat5(name, " ", old_text.as_str(), "→", new_text.as_str()),
                );
            },
            None => {
                push_text(&mut parts, cat4("+", name, ": ", new_text.as_str()));
            },
        }
    } else if same(kind, "unset") {
        push_text(&mut parts, cat2("-", name));
    }
    parts
}

/// How the change of a field is shown.
fn format_field_change(fc: &SerializableFieldChange) -> (r: Vec<String>)
    ensures
        views(r@) == field_change(*fc),
{
    if same(fc.change_kind.as_str(), "unchanged") {
        let none: Vec<String> = Vec::new();
        assert(views(none@) == Seq::<Seq<char>>::empty());
        none
    } else if holds_list(&fc.current) || holds_list(&fc.desired) {
        format_list_change(fc)
    } else {
        format_scalar_change(fc)
    }
}

/// The contents of tokens.
pub open spec fn token_views(v: Seq<(u8, String)>) -> Seq<(u8, Seq<char>)> {
    v.map_values(|t: (u8, String)| (t.0, t.1@))
}

/// Appends the texts of one field at its place.
fn push_tokens(out: &mut Vec<(u8, String)>, priority: u8, texts: Vec<String>)
    ensures
        token_views(final(out)@) == token_views(old(out)@) + at_priority(priority, views(texts@)),
{
    let n: usize = texts.len();
    let mut i: usize = 0;
    assert(at_priority(priority, views(texts@).take(0)) == Seq::<(u8, Seq<char>)>::empty());
    while i < n
        invariant
            i <= n,
            n == texts@.len(),
            token_views(out@) == token_views(old(out)@) + at_priority(
                priority,
                views(texts@).take(i as int),
            ),
        decreases n - i,
    {
        let ghost before = out@;
        out.push((priority, texts[i].clone()));
        proof {
            assert(token_views(out@) == token_views(before).push((priority, texts@[i as int]@)));
            assert(at_priority(priority, views(texts@).take(i + 1)) == at_priority(
                priority,
                views(texts@).take(i as int),
            ).push((priority, texts@[i as int]@)));
        }
        i = i + 1;
    }
    assert(views(texts@).take(n as int) == views(texts@));
}

/// The changes of all operations, each with its place.
fn change_tokens(ops: &[SerializableDiffOp]) -> (r: Vec<(u8, String)>)
    ensures
        token_views(r@) == tokens_of(ops@, ops@.len()),
{
    let mut parts: Vec<(u8, String)> = Vec::new();
    let n: usize = ops.len();
    let mut i: usize = 0;
    assert(token_views(parts@) == Seq::<(u8, Seq<char>)>::empty());
    while i < n
        invariant
            i <= n,
            n == ops@.len(),
            token_views(parts@) == tokens_of(ops@, i as nat),
        decreases n - i,
    {
        let op = &ops[i];
        let kind = op.kind.as_str();
        if same(kind, "add") || same(kind, "remove") {
            let ghost before = parts@;
            let text = signed(op);
            parts.push((0, text));
            assert(token_views(parts@) == token_views(before).push((0u8, text@)));
        } else {
            let fields = &op.field_changes;
            let m: usize = fields.len();
            let mut k: usize = 0;
            while k < m
                invariant
                    i < n,
                    n == ops@.len(),
                    *op == ops@[i as int],
                    fields@ == op.field_changes@,
                    k <= m,
                    m == fields@.len(),
                    token_views(parts@) == tokens_of(ops@, i as nat) + field_tokens(
                        fields@,
                        k as nat,
                    ),
                decreases m - k,
            {
                let priority: u8 = field_display_priority(fields[k].field_name.as_str());
                push_tokens(&mut parts, priority, format_field_change(&fields[k]));
                k = k + 1;
            }
        }
        i = i + 1;
    }
    parts
}

/// The changes of an entry.
pub fn changes_summary(ops: &[SerializableDiffOp]) -> (r: String)
    ensures
        r@ == changes_text(ops@),
{
    if ops.len() == 0 {
        return "(none)".to_owned();
    }
    let tokens = change_tokens(ops);
    let ghost model = token_views(tokens@);
    let n: usize = tokens.len();
    if n == 0 {
        return "(no changes)".to_owned();
    }
    let mut texts: Vec<String> = Vec::new();
    assert(views(texts@) == Seq::<Seq<char>>::empty());
    let mut priority: u8 = 0;
    while priority < 9
        invariant
            priority <= 9,
            n == tokens@.len(),
            model == token_views(tokens@),
            views(texts@) == in_order(model, priority as nat),
        decreases 9 - priority,
    {
        let mut i: usize = 0;
        while i < n
            invariant
                i <= n,
                priority < 9,
                n == tokens@.len(),
                model == token_views(tokens@),
                views(texts@) == in_order(model, priority as nat) + texts_at(
                    model,
                    priority as int,
                    i as nat,
                ),
            decreases n - i,
        {
            if tokens[i].0 == priority {
                push_text(&mut texts, tokens[i].1.clone());
            }
            i = i + 1;
        }
        priority = priority + 1;
    }
    join(texts.as_slice(), ", ")
}

/// The cell with the changes of an entry: behind the number of failures, where
/// its outcome counts any.
pub open spec fn changes_cell(entry: JournalEntry) -> Seq<char> {
    let changes = changes_text(entry.diff.operations@);
    match entry.outcome {
        ApplyOutcome::Applied { failed, .. } if failed > 0 => "FAIL("@ + decimal(failures(entry))
            + ") "@ + changes,
        _ => changes,
    }
}

/// The cell with the changes of an entry.
pub fn changes_column(entry: &JournalEntry) -> (r: String)
    ensures
        r@ == changes_cell(*entry),
{
    let changes = changes_summary(entry.diff.operations.as_slice());
    match entry.outcome {
        ApplyOutcome::Applied { failed, .. } => {
            if failed > 0 {
                let n: u32 = count_failed_fields(entry);
                let digits = decimal_text(n as u64);
                cat4("FAIL(", digits.as_str(), ") ", changes.as_str())
            } else {
                changes
            }
        },
        ApplyOutcome::Observed => changes,
    }
}

// ── Colours ──────────────────────────────────────────────────────────────────

/// The style of one change: green where something is added, red where something
/// is removed, yellow where a value becomes another.
pub open spec fn change_style(token: Seq<char>) -> Style {
    if token.len() == 0 {
        Style::Plain
    } else if token[0] == '+' {
        Style::Green
    } else if token[0] == '-' {
        Style::Red
    } else if token[0] == '(' {
        if occurs_at(token, "(+"@, 0) {
            Style::Green
        } else if occurs_at(token, "(-"@, 0) {
            Style::Red
        } else {
            Style::Plain
        }
    } else if token.contains('→') {
        Style::Yellow
    } else {
        Style::Plain
    }
}

/// The first `n` changes in their styles, with commas between them.
pub open spec fn styled_changes(tokens: Seq<Seq<char>>, n: nat) -> Seq<SpanView>
    decreases n,
{
    if n == 0 || n > tokens.len() {
        Seq::empty()
    } else if n == 1 {
        seq![styled(change_style(tokens[0]), tokens[0])]
    } else {
        styled_changes(tokens, (n - 1) as nat).push(plain(", "@)).push(
            styled(change_style(tokens[n - 1]), tokens[n - 1]),
        )
    }
}

/// A cell with changes in their styles. An ellipsis at its end has no style.
pub open spec fn colored_changes(text: Seq<char>) -> Seq<SpanView> {
    let cut = text.len() > 0 && text.last() == '…';
    let main = if cut {
        text.drop_last()
    } else {
        text
    };
    if text == "(none)"@ || text == "(no changes)"@ || main.len() == 0 {
        seq![plain(text)]
    } else {
        let tokens = split(main, ", "@);
        styled_changes(tokens, tokens.len()).push(
            plain(
                if cut {
                    "…"@
                } else {
                    ""@
                },
            ),
        )
    }
}

/// The style of one change.
pub fn style_of_change(token: &str) -> (r: Style)
    ensures
        r == change_style(token@),
{
    if token.is_empty() {
        return Style::Plain;
    }
    let first = token.get_char(0);
    if first == '+' {
        Style::Green
    } else if first == '-' {
        Style::Red
    } else if first == '(' {
        if starts_with(token, "(+") {
            Style::Green
        } else if starts_with(token, "(-") {
            Style::Red
        } else {
            Style::Plain
        }
    } else {
        match find_char(token, '→') {
            Some(_) => Style::Yellow,
            None => Style::Plain,
        }
    }
}

/// One change in its style, in printed form.
pub fn colorize_change_token(token: &str) -> (r: String)
    ensures
        rendering(seq![styled(change_style(token@), token@)], r@),
{
    let mut spans = no_spans();
    push_styled(&mut spans, style_of_change(token), token.to_owned());
    assert(span_views(spans@) == seq![styled(change_style(token@), token@)]);
    render(&spans)
}

/// A cell with changes in their styles.
pub fn colored_change_spans(text: &str) -> (r: Vec<Span>)
    ensures
        span_views(r@) == colored_changes(text@),
{
    let mut spans = no_spans();
    let n: usize = text.unicode_len();
    let cut = n > 0 && text.get_char(n - 1) == '…';
    let end: usize = if cut {
        n - 1
    } else {
        n
    };
    let main = text.substring_char(0, end);
    assert(cut ==> main@ == text@.drop_last());
    assert(!cut ==> main@ == text@);
    if same(text, "(none)") || same(text, "(no changes)") || main.is_empty() {
        push_plain(&mut spans, text.to_owned());
        assert(span_views(spans@) == seq![plain(text@)]);
        return spans;
    }
    proof {
        reveal_strlit(", ");
    }
    let tokens = split_text(main, ", ");
    let m: usize = tokens.len();
    let ghost model = split(main@, ", "@);
    let mut i: usize = 0;
    while i < m
        invariant
            i <= m,
            m == tokens@.len(),
            model == str_views(tokens@),
            span_views(spans@) == styled_changes(model, i as nat),
        decreases m - i,
    {
        let token = tokens[i];
        assert(model[i as int] == token@);
        if i > 0 {
            push_plain(&mut spans, ", ".to_owned());
        }
        push_styled(&mut spans, style_of_change(token), token.to_owned());
        i = i + 1;
    }
    if cut {
        push_plain(&mut spans, "…".to_owned());
    } else {
        push_plain(&mut spans, "".to_owned());
    }
    spans
}

/// A cell with changes in their styles, in printed form.
pub fn colorize_changes(plain: &str) -> (r: String)
    ensures
        rendering(colored_changes(plain@), r@),
{
    let spans = colored_change_spans(plain);
    render(&spans)
}

// ── Journal path ─────────────────────────────────────────────────────────────

/// The directory of the journal: the value of `NETFYR_JOURNAL_DIR` where that is
/// set, else the default.
pub fn journal_dir_path(configured: Option<String>) -> (r: String)
    ensures
        r@ == (match configured {
            Some(dir) => dir@,
            None => "/var/lib/netfyr/journal"@,
        }),
{
    match configured {
        Some(dir) => dir,
        None => "/var/lib/netfyr/journal".to_owned(),
    }
}

// ── Laws ─────────────────────────────────────────────────────────────────────

/// The text of changes in their styles.
proof fn lemma_styled_changes_text(tokens: Seq<Seq<char>>, n: nat)
    requires
        n <= tokens.len(),
    ensures
        plain_text(styled_changes(tokens, n)) == joined(tokens.take(n as int), ", "@),
    decreases n,
{
    if n == 1 {
        let one = seq![styled(change_style(tokens[0]), tokens[0])];
        assert(one.drop_last() == Seq::<SpanView>::empty());
        assert(plain_text(Seq::<SpanView>::empty()) == Seq::<char>::empty());
        assert(plain_text(one) == tokens[0]);
        assert(tokens.take(1) == seq![tokens[0]]);
    } else if n > 1 {
        let before = styled_changes(tokens, (n - 1) as nat);
        let gap = before.push(plain(", "@));
        let all = gap.push(styled(change_style(tokens[n - 1]), tokens[n - 1]));
        lemma_styled_changes_text(tokens, (n - 1) as nat);
        assert(all.drop_last() == gap);
        assert(gap.drop_last() == before);
        assert(plain_text(gap) == plain_text(before) + ", "@);
        assert(tokens.take(n as int).drop_last() == tokens.take(n - 1));
    }
}

/// Colouring changes keeps their text.
pub proof fn colour_keeps_changes(text: Seq<char>)
    ensures
        plain_text(colored_changes(text)) == text,
{
    let cut = text.len() > 0 && text.last() == '…';
    let main = if cut {
        text.drop_last()
    } else {
        text
    };
    assert(plain_text(Seq::<SpanView>::empty()) == Seq::<char>::empty());
    if text == "(none)"@ || text == "(no changes)"@ || main.len() == 0 {
        assert(colored_changes(text).drop_last() == Seq::<SpanView>::empty());
    } else {
        let tokens = split(main, ", "@);
        let end = if cut {
            "…"@
        } else {
            ""@
        };
        reveal_strlit("…");
        reveal_strlit("");
        lemma_styled_changes_text(tokens, tokens.len());
        assert(tokens.take(tokens.len() as int) == tokens);
        split_and_joined(main, ", "@);
        assert(colored_changes(text).drop_last() == styled_changes(tokens, tokens.len()));
        assert(main + end == text);
    }
}

/// Entities of operations, when shortened, take no more than their limit.
pub proof fn entities_fit(
    ops: Seq<SerializableDiffOp>,
    states: Seq<SerializableState>,
    max: nat,
)
    requires
        ops.len() > 0,
    ensures
        entities_fitted(ops, states, max).len() <= max,
{
    let full = entities_text(ops, states);
    if full.len() > max {
        lemma_fewer_fit(signed_names(ops), full, (ops.len() - 1) as nat, max);
    }
}

/// A form with fewer entities takes no more than its limit.
proof fn lemma_fewer_fit(names: Seq<Seq<char>>, full: Seq<char>, shown: nat, max: nat)
    ensures
        fewer_entities(names, full, shown, max).len() <= max,
    decreases shown,
{
    if shown > 0 && first_entities(names, shown).len() > max {
        lemma_fewer_fit(names, full, (shown - 1) as nat, max);
    }
}

/// A list lacks none of its own values.
proof fn lemma_nothing_missing(list: Seq<Json>, n: nat)
    requires
        n <= list.len(),
    ensures
        values_missing(list, list, n).len() == 0,
    decreases n,
{
    if n > 0 {
        lemma_nothing_missing(list, (n - 1) as nat);
        equal_to_itself(list[n - 1]);
        assert(json_in(list, list[n - 1]));
    }
}

/// A list lacks none of its own texts.
proof fn lemma_no_text_missing(texts: Seq<Seq<char>>, n: nat)
    requires
        n <= texts.len(),
    ensures
        texts_missing(texts, texts, n).len() == 0,
    decreases n,
{
    if n > 0 {
        lemma_no_text_missing(texts, (n - 1) as nat);
        assert(texts.contains(texts[n - 1]));
    }
}

/// A list whose contents stay the same shows no change.
pub proof fn unchanged_lists_show_nothing(fc: SerializableFieldChange)
    requires
        items_of(fc.current) == items_of(fc.desired),
    ensures
        list_change(fc).len() == 0,
{
    let list = items_of(fc.current);
    let addrs = addresses_in(list, list.len());
    lemma_nothing_missing(list, list.len());
    lemma_no_text_missing(addrs, addrs.len());
    let nothing = texts_missing(addrs, addrs, addrs.len());
    assert(nothing == Seq::<Seq<char>>::empty());
    lemma_no_addresses(nothing);
}

/// No address shows nothing.
proof fn lemma_no_addresses(nothing: Seq<Seq<char>>)
    requires
        nothing == Seq::<Seq<char>>::empty(),
    ensures
        address_changes(nothing, nothing).len() == 0,
{
    assert(addresses_where(nothing, true, 0).len() == 0);
    assert(addresses_where(nothing, false, 0).len() == 0);
}

/// How many of the first `n` tokens have a place below `bound`.
pub open spec fn tokens_below(tokens: Seq<(u8, Seq<char>)>, bound: int, n: nat) -> nat
    decreases n,
{
    if n == 0 || n > tokens.len() {
        0
    } else {
        tokens_below(tokens, bound, (n - 1) as nat) + if tokens[n - 1].0 < bound {
            1nat
        } else {
            0
        }
    }
}

/// The tokens below a bound are those below the bound before it, and those at it.
proof fn lemma_tokens_at(tokens: Seq<(u8, Seq<char>)>, bound: int, n: nat)
    requires
        n <= tokens.len(),
    ensures
        tokens_below(tokens, bound + 1, n) == tokens_below(tokens, bound, n) + texts_at(
            tokens,
            bound,
            n,
        ).len(),
        forall|i: int|
            0 <= i < n && (#[trigger] tokens[i]).0 == bound ==> texts_at(
                tokens,
                bound,
                n,
            ).contains(tokens[i].1),
    decreases n,
{
    if n > 0 {
        lemma_tokens_at(tokens, bound, (n - 1) as nat);
        let before = texts_at(tokens, bound, (n - 1) as nat);
        let all = texts_at(tokens, bound, n);
        if tokens[n - 1].0 == bound {
            assert(all[before.len() as int] == tokens[n - 1].1);
            assert forall|t: Seq<char>| before.contains(t) implies all.contains(t) by {
                assert(all[before.index_of(t)] == t);
            }
        }
    }
}

/// The texts below a bound are as many as the tokens, and none is left out.
proof fn lemma_in_order(tokens: Seq<(u8, Seq<char>)>, bound: nat)
    ensures
        in_order(tokens, bound).len() == tokens_below(tokens, bound as int, tokens.len()),
        forall|i: int|
            0 <= i < tokens.len() && (#[trigger] tokens[i]).0 < bound ==> in_order(
                tokens,
                bound,
            ).contains(tokens[i].1),
    decreases bound,
{
    if bound == 0 {
        lemma_none_below(tokens, tokens.len());
    } else {
        lemma_in_order(tokens, (bound - 1) as nat);
        lemma_tokens_at(tokens, bound - 1, tokens.len());
        let before = in_order(tokens, (bound - 1) as nat);
        let these = texts_at(tokens, bound - 1, tokens.len());
        let all = before + these;
        assert forall|t: Seq<char>| before.contains(t) || these.contains(t) implies all.contains(
            t,
        ) by {
            if before.contains(t) {
                assert(all[before.index_of(t)] == t);
            } else {
                assert(all[before.len() + these.index_of(t)] == t);
            }
        }
    }
}

/// No token has a place below zero.
proof fn lemma_none_below(tokens: Seq<(u8, Seq<char>)>, n: nat)
    ensures
        tokens_below(tokens, 0, n) == 0,
    decreases n,
{
    if n > 0 && n <= tokens.len() {
        lemma_none_below(tokens, (n - 1) as nat);
    }
}

/// Whether all tokens have one of the nine places.
pub open spec fn all_placed(tokens: Seq<(u8, Seq<char>)>) -> bool {
    forall|i: int| 0 <= i < tokens.len() ==> (#[trigger] tokens[i]).0 < 9
}

/// All tokens of operations have one of the nine places.
proof fn lemma_tokens_placed(ops: Seq<SerializableDiffOp>, n: nat)
    requires
        n <= ops.len(),
    ensures
        all_placed(tokens_of(ops, n)),
    decreases n,
{
    if n > 0 {
        lemma_tokens_placed(ops, (n - 1) as nat);
        let fields = ops[n - 1].field_changes@;
        lemma_fields_placed(fields, fields.len());
    }
}

/// All tokens of fields have one of the nine places.
proof fn lemma_fields_placed(fields: Seq<SerializableFieldChange>, n: nat)
    requires
        n <= fields.len(),
    ensures
        all_placed(field_tokens(fields, n)),
    decreases n,
{
    if n > 0 {
        lemma_fields_placed(fields, (n - 1) as nat);
    }
}

/// All tokens below the bound are all tokens where each has its place.
proof fn lemma_all_below(tokens: Seq<(u8, Seq<char>)>, n: nat)
    requires
        all_placed(tokens),
        n <= tokens.len(),
    ensures
        tokens_below(tokens, 9, n) == n,
    decreases n,
{
    if n > 0 {
        lemma_all_below(tokens, (n - 1) as nat);
    }
}

/// Bringing the changes of an entry into their order loses none of them and adds
/// none.
pub proof fn no_change_is_lost(ops: Seq<SerializableDiffOp>)
    ensures
        ({
            let tokens = tokens_of(ops, ops.len());
            &&& in_order(tokens, 9).len() == tokens.len()
            &&& forall|i: int|
                0 <= i < tokens.len() ==> in_order(tokens, 9).contains((#[trigger] tokens[i]).1)
        }),
{
    let tokens = tokens_of(ops, ops.len());
    lemma_tokens_placed(ops, ops.len());
    lemma_in_order(tokens, 9);
    lemma_all_below(tokens, tokens.len());
}

/// The addresses of one sort among some and others behind them are those among
/// the first, then those among the others.
pub proof fn addresses_of_parts(
    a: Seq<Seq<char>>,
    b: Seq<Seq<char>>,
    wanted: bool,
)
    ensures
        addresses_where(a + b, wanted, (a + b).len()) == addresses_where(a, wanted, a.len()) + addresses_where(b, wanted, b.len()),
{
    lemma_addresses_of_parts(a, b, wanted, b.len());
}

/// The first elements give the same whatever stands behind them.
proof fn lemma_addresses_of_parts_start(
    a: Seq<Seq<char>>,
    b: Seq<Seq<char>>,
    wanted: bool,
    n: nat,
)
    requires
        n <= a.len(),
    ensures
        addresses_where(a + b, wanted, n) == addresses_where(a, wanted, n),
    decreases n,
{
    if n > 0 {
        lemma_addresses_of_parts_start(a, b, wanted, (n - 1) as nat);
        assert((a + b)[n - 1] == a[n - 1]);
    }
}

/// The first `m` elements of the second part follow all of the first part.
proof fn lemma_addresses_of_parts(
    a: Seq<Seq<char>>,
    b: Seq<Seq<char>>,
    wanted: bool,
    m: nat,
)
    requires
        m <= b.len(),
    ensures
        addresses_where(a + b, wanted, a.len() + m) == addresses_where(a, wanted, a.len()) + addresses_where(b, wanted, m),
    decreases m,
{
    if m == 0 {
        lemma_addresses_of_parts_start(a, b, wanted, a.len());
    } else {
        lemma_addresses_of_parts(a, b, wanted, (m - 1) as nat);
        assert((a + b)[a.len() + m - 1] == b[m - 1]);
    }
}

/// The default routes among some routes and others behind them are those among
/// the first, then those among the others.
pub proof fn default_routes_of_parts(
    sign: Seq<char>,
    a: Seq<Json>,
    b: Seq<Json>,
)
    ensures
        default_routes(sign, a + b, (a + b).len()) == default_routes(sign, a, a.len()) + default_routes(sign, b, b.len()),
{
    lemma_default_routes_of_parts(sign, a, b, b.len());
}

/// The first elements give the same whatever stands behind them.
proof fn lemma_default_routes_of_parts_start(
    sign: Seq<char>,
    a: Seq<Json>,
    b: Seq<Json>,
    n: nat,
)
    requires
        n <= a.len(),
    ensures
        default_routes(sign, a + b, n) == default_routes(sign, a, n),
    decreases n,
{
    if n > 0 {
        lemma_default_routes_of_parts_start(sign, a, b, (n - 1) as nat);
        assert((a + b)[n - 1] == a[n - 1]);
    }
}

/// The first `m` elements of the second part follow all of the first part.
proof fn lemma_default_routes_of_parts(
    sign: Seq<char>,
    a: Seq<Json>,
    b: Seq<Json>,
    m: nat,
)
    requires
        m <= b.len(),
    ensures
        default_routes(sign, a + b, a.len() + m) == default_routes(sign, a, a.len()) + default_routes(sign, b, m),
    decreases m,
{
    if m == 0 {
        lemma_default_routes_of_parts_start(sign, a, b, a.len());
    } else {
        lemma_default_routes_of_parts(sign, a, b, (m - 1) as nat);
        assert((a + b)[a.len() + m - 1] == b[m - 1]);
    }
}

/// The other routes among some routes and others behind them are as many as
/// among both.
pub proof fn other_routes_of_parts(
    a: Seq<Json>,
    b: Seq<Json>,
)
    ensures
        other_routes(a + b, (a + b).len()) == other_routes(a, a.len()) + other_routes(b, b.len()),
{
    lemma_other_routes_of_parts(a, b, b.len());
}

/// The first elements give the same whatever stands behind them.
proof fn lemma_other_routes_of_parts_start(
    a: Seq<Json>,
    b: Seq<Json>,
    n: nat,
)
    requires
        n <= a.len(),
    ensures
        other_routes(a + b, n) == other_routes(a, n),
    decreases n,
{
    if n > 0 {
        lemma_other_routes_of_parts_start(a, b, (n - 1) as nat);
        assert((a + b)[n - 1] == a[n - 1]);
    }
}

/// The first `m` elements of the second part follow all of the first part.
proof fn lemma_other_routes_of_parts(
    a: Seq<Json>,
    b: Seq<Json>,
    m: nat,
)
    requires
        m <= b.len(),
    ensures
        other_routes(a + b, a.len() + m) == other_routes(a, a.len()) + other_routes(b, m),
    decreases m,
{
    if m == 0 {
        lemma_other_routes_of_parts_start(a, b, a.len());
    } else {
        lemma_other_routes_of_parts(a, b, (m - 1) as nat);
        assert((a + b)[a.len() + m - 1] == b[m - 1]);
    }
}

/// The failed fields among some fields and others behind them are as many as
/// among both.
pub proof fn failed_fields_of_parts(
    a: Seq<SerializableFieldChange>,
    b: Seq<SerializableFieldChange>,
)
    ensures
        failed_in(a + b, (a + b).len()) == failed_in(a, a.len()) + failed_in(b, b.len()),
{
    lemma_failed_fields_of_parts(a, b, b.len());
}

/// The first elements give the same whatever stands behind them.
proof fn lemma_failed_fields_of_parts_start(
    a: Seq<SerializableFieldChange>,
    b: Seq<SerializableFieldChange>,
    n: nat,
)
    requires
        n <= a.len(),
    ensures
        failed_in(a + b, n) == failed_in(a, n),
    decreases n,
{
    if n > 0 {
        lemma_failed_fields_of_parts_start(a, b, (n - 1) as nat);
        assert((a + b)[n - 1] == a[n - 1]);
    }
}

/// The first `m` elements of the second part follow all of the first part.
proof fn lemma_failed_fields_of_parts(
    a: Seq<SerializableFieldChange>,
    b: Seq<SerializableFieldChange>,
    m: nat,
)
    requires
        m <= b.len(),
    ensures
        failed_in(a + b, a.len() + m) == failed_in(a, a.len()) + failed_in(b, m),
    decreases m,
{
    if m == 0 {
        lemma_failed_fields_of_parts_start(a, b, a.len());
    } else {
        lemma_failed_fields_of_parts(a, b, (m - 1) as nat);
        assert((a + b)[a.len() + m - 1] == b[m - 1]);
    }
}

/// The failed fields of some operations and others behind them are as many as
/// of both.
pub proof fn failures_of_parts(
    a: Seq<SerializableDiffOp>,
    b: Seq<SerializableDiffOp>,
)
    ensures
        failed_fields(a + b, (a + b).len()) == failed_fields(a, a.len()) + failed_fields(b, b.len()),
{
    lemma_failures_of_parts(a, b, b.len());
}

/// The first elements give the same whatever stands behind them.
proof fn lemma_failures_of_parts_start(
    a: Seq<SerializableDiffOp>,
    b: Seq<SerializableDiffOp>,
    n: nat,
)
    requires
        n <= a.len(),
    ensures
        failed_fields(a + b, n) == failed_fields(a, n),
    decreases n,
{
    if n > 0 {
        lemma_failures_of_parts_start(a, b, (n - 1) as nat);
        assert((a + b)[n - 1] == a[n - 1]);
    }
}

/// The first `m` elements of the second part follow all of the first part.
proof fn lemma_failures_of_parts(
    a: Seq<SerializableDiffOp>,
    b: Seq<SerializableDiffOp>,
    m: nat,
)
    requires
        m <= b.len(),
    ensures
        failed_fields(a + b, a.len() + m) == failed_fields(a, a.len()) + failed_fields(b, m),
    decreases m,
{
    if m == 0 {
        lemma_failures_of_parts_start(a, b, a.len());
    } else {
        lemma_failures_of_parts(a, b, (m - 1) as nat);
        assert((a + b)[a.len() + m - 1] == b[m - 1]);
    }
}

/// The entities of one sort of some operations and others behind them are
/// those of the first, then those of the others.
pub proof fn signed_names_of_parts(
    a: Seq<SerializableDiffOp>,
    b: Seq<SerializableDiffOp>,
    wanted: bool,
)
    ensures
        signed_names_where(a + b, wanted, (a + b).len()) == signed_names_where(a, wanted, a.len()) + signed_names_where(b, wanted, b.len()),
{
    lemma_signed_names_of_parts(a, b, wanted, b.len());
}

/// The first elements give the same whatever stands behind them.
proof fn lemma_signed_names_of_parts_start(
    a: Seq<SerializableDiffOp>,
    b: Seq<SerializableDiffOp>,
    wanted: bool,
    n: nat,
)
    requires
        n <= a.len(),
    ensures
        signed_names_where(a + b, wanted, n) == signed_names_where(a, wanted, n),
    decreases n,
{
    if n > 0 {
        lemma_signed_names_of_parts_start(a, b, wanted, (n - 1) as nat);
        assert((a + b)[n - 1] == a[n - 1]);
    }
}

/// The first `m` elements of the second part follow all of the first part.
proof fn lemma_signed_names_of_parts(
    a: Seq<SerializableDiffOp>,
    b: Seq<SerializableDiffOp>,
    wanted: bool,
    m: nat,
)
    requires
        m <= b.len(),
    ensures
        signed_names_where(a + b, wanted, a.len() + m) == signed_names_where(a, wanted, a.len()) + signed_names_where(b, wanted, m),
    decreases m,
{
    if m == 0 {
        lemma_signed_names_of_parts_start(a, b, wanted, a.len());
    } else {
        lemma_signed_names_of_parts(a, b, wanted, (m - 1) as nat);
        assert((a + b)[a.len() + m - 1] == b[m - 1]);
    }
}

/// The interfaces among some states and others behind them are those among the
/// first, then those among the others.
pub proof fn interfaces_of_parts(
    a: Seq<SerializableState>,
    b: Seq<SerializableState>,
)
    ensures
        interface_names(a + b, (a + b).len()) == interface_names(a, a.len()) + interface_names(b, b.len()),
{
    lemma_interfaces_of_parts(a, b, b.len());
}

/// The first elements give the same whatever stands behind them.
proof fn lemma_interfaces_of_parts_start(
    a: Seq<SerializableState>,
    b: Seq<SerializableState>,
    n: nat,
)
    requires
        n <= a.len(),
    ensures
        interface_names(a + b, n) == interface_names(a, n),
    decreases n,
{
    if n > 0 {
        lemma_interfaces_of_parts_start(a, b, (n - 1) as nat);
        assert((a + b)[n - 1] == a[n - 1]);
    }
}

/// The first `m` elements of the second part follow all of the first part.
proof fn lemma_interfaces_of_parts(
    a: Seq<SerializableState>,
    b: Seq<SerializableState>,
    m: nat,
)
    requires
        m <= b.len(),
    ensures
        interface_names(a + b, a.len() + m) == interface_names(a, a.len()) + interface_names(b, m),
    decreases m,
{
    if m == 0 {
        lemma_interfaces_of_parts_start(a, b, a.len());
    } else {
        lemma_interfaces_of_parts(a, b, (m - 1) as nat);
        assert((a + b)[a.len() + m - 1] == b[m - 1]);
    }
}

/// The operations of a kind among some and others behind them are as many as
/// among both.
pub proof fn kinds_of_parts(
    a: Seq<SerializableDiffOp>,
    b: Seq<SerializableDiffOp>,
    kind: Seq<char>,
)
    ensures
        ops_of_kind(a + b, kind, (a + b).len()) == ops_of_kind(a, kind, a.len()) + ops_of_kind(b, kind, b.len()),
{
    lemma_kinds_of_parts(a, b, kind, b.len());
}

/// The first elements give the same whatever stands behind them.
proof fn lemma_kinds_of_parts_start(
    a: Seq<SerializableDiffOp>,
    b: Seq<SerializableDiffOp>,
    kind: Seq<char>,
    n: nat,
)
    requires
        n <= a.len(),
    ensures
        ops_of_kind(a + b, kind, n) == ops_of_kind(a, kind, n),
    decreases n,
{
    if n > 0 {
        lemma_kinds_of_parts_start(a, b, kind, (n - 1) as nat);
        assert((a + b)[n - 1] == a[n - 1]);
    }
}

/// The first `m` elements of the second part follow all of the first part.
proof fn lemma_kinds_of_parts(
    a: Seq<SerializableDiffOp>,
    b: Seq<SerializableDiffOp>,
    kind: Seq<char>,
    m: nat,
)
    requires
        m <= b.len(),
    ensures
        ops_of_kind(a + b, kind, a.len() + m) == ops_of_kind(a, kind, a.len()) + ops_of_kind(b, kind, m),
    decreases m,
{
    if m == 0 {
        lemma_kinds_of_parts_start(a, b, kind, a.len());
    } else {
        lemma_kinds_of_parts(a, b, kind, (m - 1) as nat);
        assert((a + b)[a.len() + m - 1] == b[m - 1]);
    }
}

/// The addresses that some elements hold and others behind them are those of
/// the first, then those of the others.
pub proof fn addresses_held_by_parts(
    a: Seq<Json>,
    b: Seq<Json>,
)
    ensures
        addresses_in(a + b, (a + b).len()) == addresses_in(a, a.len()) + addresses_in(b, b.len()),
{
    lemma_addresses_held_by_parts(a, b, b.len());
}

/// The first elements give the same whatever stands behind them.
proof fn lemma_addresses_held_by_parts_start(
    a: Seq<Json>,
    b: Seq<Json>,
    n: nat,
)
    requires
        n <= a.len(),
    ensures
        addresses_in(a + b, n) == addresses_in(a, n),
    decreases n,
{
    if n > 0 {
        lemma_addresses_held_by_parts_start(a, b, (n - 1) as nat);
        assert((a + b)[n - 1] == a[n - 1]);
    }
}

/// The first `m` elements of the second part follow all of the first part.
proof fn lemma_addresses_held_by_parts(
    a: Seq<Json>,
    b: Seq<Json>,
    m: nat,
)
    requires
        m <= b.len(),
    ensures
        addresses_in(a + b, a.len() + m) == addresses_in(a, a.len()) + addresses_in(b, m),
    decreases m,
{
    if m == 0 {
        lemma_addresses_held_by_parts_start(a, b, a.len());
    } else {
        lemma_addresses_held_by_parts(a, b, (m - 1) as nat);
        assert((a + b)[a.len() + m - 1] == b[m - 1]);
    }
}

/// What another list lacks of some texts and others behind them is what it
/// lacks of the first, then what it lacks of the others.
pub proof fn missing_texts_of_parts(
    a: Seq<Seq<char>>,
    b: Seq<Seq<char>>,
    from: Seq<Seq<char>>,
)
    ensures
        texts_missing(a + b, from, (a + b).len()) == texts_missing(a, from, a.len()) + texts_missing(b, from, b.len()),
{
    lemma_missing_texts_of_parts(a, b, from, b.len());
}

/// The first elements give the same whatever stands behind them.
proof fn lemma_missing_texts_of_parts_start(
    a: Seq<Seq<char>>,
    b: Seq<Seq<char>>,
    from: Seq<Seq<char>>,
    n: nat,
)
    requires
        n <= a.len(),
    ensures
        texts_missing(a + b, from, n) == texts_missing(a, from, n),
    decreases n,
{
    if n > 0 {
        lemma_missing_texts_of_parts_start(a, b, from, (n - 1) as nat);
        assert((a + b)[n - 1] == a[n - 1]);
    }
}

/// The first `m` elements of the second part follow all of the first part.
proof fn lemma_missing_texts_of_parts(
    a: Seq<Seq<char>>,
    b: Seq<Seq<char>>,
    from: Seq<Seq<char>>,
    m: nat,
)
    requires
        m <= b.len(),
    ensures
        texts_missing(a + b, from, a.len() + m) == texts_missing(a, from, a.len()) + texts_missing(b, from, m),
    decreases m,
{
    if m == 0 {
        lemma_missing_texts_of_parts_start(a, b, from, a.len());
    } else {
        lemma_missing_texts_of_parts(a, b, from, (m - 1) as nat);
        assert((a + b)[a.len() + m - 1] == b[m - 1]);
    }
}

/// What another list lacks of some values and others behind them is what it
/// lacks of the first, then what it lacks of the others.
pub proof fn missing_values_of_parts(
    a: Seq<Json>,
    b: Seq<Json>,
    from: Seq<Json>,
)
    ensures
        values_missing(a + b, from, (a + b).len()) == values_missing(a, from, a.len()) + values_missing(b, from, b.len()),
{
    lemma_missing_values_of_parts(a, b, from, b.len());
}

/// The first elements give the same whatever stands behind them.
proof fn lemma_missing_values_of_parts_start(
    a: Seq<Json>,
    b: Seq<Json>,
    from: Seq<Json>,
    n: nat,
)
    requires
        n <= a.len(),
    ensures
        values_missing(a + b, from, n) == values_missing(a, from, n),
    decreases n,
{
    if n > 0 {
        lemma_missing_values_of_parts_start(a, b, from, (n - 1) as nat);
        assert((a + b)[n - 1] == a[n - 1]);
    }
}

/// The first `m` elements of the second part follow all of the first part.
proof fn lemma_missing_values_of_parts(
    a: Seq<Json>,
    b: Seq<Json>,
    from: Seq<Json>,
    m: nat,
)
    requires
        m <= b.len(),
    ensures
        values_missing(a + b, from, a.len() + m) == values_missing(a, from, a.len()) + values_missing(b, from, m),
    decreases m,
{
    if m == 0 {
        lemma_missing_values_of_parts_start(a, b, from, a.len());
    } else {
        lemma_missing_values_of_parts(a, b, from, (m - 1) as nat);
        assert((a + b)[a.len() + m - 1] == b[m - 1]);
    }
}

/// The strings among some values and others behind them are those among the
/// first, then those among the others.
pub proof fn strings_of_parts(
    a: Seq<Json>,
    b: Seq<Json>,
)
    ensures
        strings_in(a + b, (a + b).len()) == strings_in(a, a.len()) + strings_in(b, b.len()),
{
    lemma_strings_of_parts(a, b, b.len());
}

/// The first elements give the same whatever stands behind them.
proof fn lemma_strings_of_parts_start(
    a: Seq<Json>,
    b: Seq<Json>,
    n: nat,
)
    requires
        n <= a.len(),
    ensures
        strings_in(a + b, n) == strings_in(a, n),
    decreases n,
{
    if n > 0 {
        lemma_strings_of_parts_start(a, b, (n - 1) as nat);
        assert((a + b)[n - 1] == a[n - 1]);
    }
}

/// The first `m` elements of the second part follow all of the first part.
proof fn lemma_strings_of_parts(
    a: Seq<Json>,
    b: Seq<Json>,
    m: nat,
)
    requires
        m <= b.len(),
    ensures
        strings_in(a + b, a.len() + m) == strings_in(a, a.len()) + strings_in(b, m),
    decreases m,
{
    if m == 0 {
        lemma_strings_of_parts_start(a, b, a.len());
    } else {
        lemma_strings_of_parts(a, b, (m - 1) as nat);
        assert((a + b)[a.len() + m - 1] == b[m - 1]);
    }
}

/// The changes of some fields and others behind them are those of the first,
/// then those of the others.
pub proof fn field_changes_of_parts(
    a: Seq<SerializableFieldChange>,
    b: Seq<SerializableFieldChange>,
)
    ensures
        field_tokens(a + b, (a + b).len()) == field_tokens(a, a.len()) + field_tokens(b, b.len()),
{
    lemma_field_changes_of_parts(a, b, b.len());
}

/// The first elements give the same whatever stands behind them.
proof fn lemma_field_changes_of_parts_start(
    a: Seq<SerializableFieldChange>,
    b: Seq<SerializableFieldChange>,
    n: nat,
)
    requires
        n <= a.len(),
    ensures
        field_tokens(a + b, n) == field_tokens(a, n),
    decreases n,
{
    if n > 0 {
        lemma_field_changes_of_parts_start(a, b, (n - 1) as nat);
        assert((a + b)[n - 1] == a[n - 1]);
    }
}

/// The first `m` elements of the second part follow all of the first part.
proof fn lemma_field_changes_of_parts(
    a: Seq<SerializableFieldChange>,
    b: Seq<SerializableFieldChange>,
    m: nat,
)
    requires
        m <= b.len(),
    ensures
        field_tokens(a + b, a.len() + m) == field_tokens(a, a.len()) + field_tokens(b, m),
    decreases m,
{
    if m == 0 {
        lemma_field_changes_of_parts_start(a, b, a.len());
    } else {
        lemma_field_changes_of_parts(a, b, (m - 1) as nat);
        assert((a + b)[a.len() + m - 1] == b[m - 1]);
    }
}

/// The changes of some operations and others behind them are those of the
/// first, then those of the others: no operation is left out for where it
/// stands.
pub proof fn changes_of_parts(
    a: Seq<SerializableDiffOp>,
    b: Seq<SerializableDiffOp>,
)
    ensures
        tokens_of(a + b, (a + b).len()) == tokens_of(a, a.len()) + tokens_of(b, b.len()),
{
    lemma_changes_of_parts(a, b, b.len());
}

/// The first elements give the same whatever stands behind them.
proof fn lemma_changes_of_parts_start(
    a: Seq<SerializableDiffOp>,
    b: Seq<SerializableDiffOp>,
    n: nat,
)
    requires
        n <= a.len(),
    ensures
        tokens_of(a + b, n) == tokens_of(a, n),
    decreases n,
{
    if n > 0 {
        lemma_changes_of_parts_start(a, b, (n - 1) as nat);
        assert((a + b)[n - 1] == a[n - 1]);
    }
}

/// The first `m` elements of the second part follow all of the first part.
proof fn lemma_changes_of_parts(
    a: Seq<SerializableDiffOp>,
    b: Seq<SerializableDiffOp>,
    m: nat,
)
    requires
        m <= b.len(),
    ensures
        tokens_of(a + b, a.len() + m) == tokens_of(a, a.len()) + tokens_of(b, m),
    decreases m,
{
    if m == 0 {
        lemma_changes_of_parts_start(a, b, a.len());
    } else {
        lemma_changes_of_parts(a, b, (m - 1) as nat);
        assert((a + b)[a.len() + m - 1] == b[m - 1]);
    }
}

/// The texts at a place among some changes and others behind them are those
/// among the first, then those among the others.
pub proof fn places_of_parts(
    a: Seq<(u8, Seq<char>)>,
    b: Seq<(u8, Seq<char>)>,
    priority: int,
)
    ensures
        texts_at(a + b, priority, (a + b).len()) == texts_at(a, priority, a.len()) + texts_at(b, priority, b.len()),
{
    lemma_places_of_parts(a, b, priority, b.len());
}

/// The first elements give the same whatever stands behind them.
proof fn lemma_places_of_parts_start(
    a: Seq<(u8, Seq<char>)>,
    b: Seq<(u8, Seq<char>)>,
    priority: int,
    n: nat,
)
    requires
        n <= a.len(),
    ensures
        texts_at(a + b, priority, n) == texts_at(a, priority, n),
    decreases n,
{
    if n > 0 {
        lemma_places_of_parts_start(a, b, priority, (n - 1) as nat);
        assert((a + b)[n - 1] == a[n - 1]);
    }
}

/// The first `m` elements of the second part follow all of the first part.
proof fn lemma_places_of_parts(
    a: Seq<(u8, Seq<char>)>,
    b: Seq<(u8, Seq<char>)>,
    priority: int,
    m: nat,
)
    requires
        m <= b.len(),
    ensures
        texts_at(a + b, priority, a.len() + m) == texts_at(a, priority, a.len()) + texts_at(b, priority, m),
    decreases m,
{
    if m == 0 {
        lemma_places_of_parts_start(a, b, priority, a.len());
    } else {
        lemma_places_of_parts(a, b, priority, (m - 1) as nat);
        assert((a + b)[a.len() + m - 1] == b[m - 1]);
    }
}

/// The words for kinds of operation and of change differ.
proof fn lemma_kinds()
    ensures
        "add"@ != "remove"@,
        "set"@ != "unset"@,
        "set"@ != "unchanged"@,
        "unset"@ != "unchanged"@,
{
    reveal_strlit("add");
    reveal_strlit("remove");
    reveal_strlit("set");
    reveal_strlit("unset");
    reveal_strlit("unchanged");
    assert("add"@.len() == 3 && "remove"@.len() == 6);
    assert("set"@.len() == 3 && "unset"@.len() == 5 && "unchanged"@.len() == 9);
}

/// An operation that adds or removes its entity is one change, which comes first:
/// the name of the entity behind its sign. Any other operation is the changes of its
/// fields.
pub proof fn changes_of_one(op: SerializableDiffOp)
    ensures
        ({
            let tokens = tokens_of(seq![op], 1);
            let system = op.entity_type@ == "dns"@ || op.entity_type@ == "hostname"@
                || op.entity_type@ == "ntp"@;
            &&& op.kind@ == "add"@ && !system ==> tokens == seq![(0u8, "+"@ + op.entity_name@)]
            &&& op.kind@ == "add"@ && system ==> tokens == seq![
                (0u8, "+"@ + ("sys:"@ + op.entity_type@)),
            ]
            &&& op.kind@ == "remove"@ && !system ==> tokens == seq![(0u8, "-"@ + op.entity_name@)]
            &&& op.kind@ == "remove"@ && system ==> tokens == seq![
                (0u8, "-"@ + ("sys:"@ + op.entity_type@)),
            ]
            &&& op.kind@ != "add"@ && op.kind@ != "remove"@ ==> tokens == field_tokens(
                op.field_changes@,
                op.field_changes@.len(),
            )
        }),
{
    lemma_kinds();
    assert(tokens_of(seq![op], 0) == Seq::<(u8, Seq<char>)>::empty());
}

/// The changes of one field are all texts of its change.
pub proof fn field_changes_of_one(fc: SerializableFieldChange)
    ensures
        field_tokens(seq![fc], 1).len() == field_change(fc).len(),
        forall|i: int|
            0 <= i < field_change(fc).len() ==> (#[trigger] field_tokens(seq![fc], 1)[i]).1
                == field_change(fc)[i] && field_tokens(seq![fc], 1)[i].0 == field_priority(
                fc.field_name@,
            ),
{
    assert(field_tokens(seq![fc], 0) == Seq::<(u8, Seq<char>)>::empty());
}

/// No change of an operation is left out of the summary: wherever the operation
/// stands, each of its changes is among the texts that are joined.
pub proof fn every_change_is_shown(ops: Seq<SerializableDiffOp>, i: int, j: int)
    requires
        0 <= i < ops.len(),
        0 <= j < tokens_of(seq![ops[i]], 1).len(),
    ensures
        in_order(tokens_of(ops, ops.len()), 9).contains(tokens_of(seq![ops[i]], 1)[j].1),
        changes_text(ops) == joined(in_order(tokens_of(ops, ops.len()), 9), ", "@),
{
    let (a, b, c) = (ops.take(i), seq![ops[i]], ops.skip(i + 1));
    let one = tokens_of(b, 1);
    assert(one.contains(one[j]));
    lemma_parted(ops, i);
    changes_of_parts(a + b, c);
    changes_of_parts(a, b);
    lemma_middle_holds(tokens_of(a, a.len()), one, tokens_of(c, c.len()), one[j]);
    let all = tokens_of(ops, ops.len());
    let k = all.index_of(one[j]);
    no_change_is_lost(ops);
    assert(in_order(all, 9).contains(all[k].1));
}

/// No field of an operation that modifies its entity is left out of the summary:
/// wherever the operation and the field stand, each text of the field's change is
/// among the texts that are joined.
pub proof fn every_field_change_is_shown(ops: Seq<SerializableDiffOp>, i: int, k: int, t: Seq<char>)
    requires
        0 <= i < ops.len(),
        ops[i].kind@ != "add"@,
        ops[i].kind@ != "remove"@,
        0 <= k < ops[i].field_changes@.len(),
        field_change(ops[i].field_changes@[k]).contains(t),
    ensures
        in_order(tokens_of(ops, ops.len()), 9).contains(t),
        changes_text(ops) == joined(in_order(tokens_of(ops, ops.len()), 9), ", "@),
{
    let fields = ops[i].field_changes@;
    let fc = fields[k];
    let (a, b, c) = (fields.take(k), seq![fc], fields.skip(k + 1));
    field_changes_of_one(fc);
    let one = field_tokens(b, 1);
    let at = field_change(fc).index_of(t);
    assert(one[at].1 == t);
    assert(one.contains(one[at]));
    lemma_parted(fields, k);
    field_changes_of_parts(a + b, c);
    field_changes_of_parts(a, b);
    lemma_middle_holds(field_tokens(a, a.len()), one, field_tokens(c, c.len()), one[at]);
    changes_of_one(ops[i]);
    let all = tokens_of(seq![ops[i]], 1);
    let j = all.index_of(one[at]);
    every_change_is_shown(ops, i, j);
}

/// The changes of entries whose operations change nothing are told apart from those
/// without operations.
pub proof fn absent_changes_are_told(ops: Seq<SerializableDiffOp>)
    ensures
        ops.len() == 0 ==> changes_text(ops) == "(none)"@,
        ops.len() > 0 && tokens_of(ops, ops.len()).len() == 0 ==> changes_text(ops)
            == "(no changes)"@,
{
}

/// The change of a single value tells its field and its new value, and its old one
/// where it has one; a field that is unset is told of, and one that is unchanged is
/// not.
pub proof fn single_values_are_told(fc: SerializableFieldChange)
    requires
        !(fc.current matches Some(Json::List(_))),
        !(fc.desired matches Some(Json::List(_))),
    ensures
        fc.change_kind@ == "unchanged"@ ==> field_change(fc).len() == 0,
        fc.change_kind@ == "set"@ && fc.current is Some && fc.desired is Some ==> field_change(fc)
            == seq![
            fc.field_name@ + " "@ + display_value(fc.current->0) + "→"@ + display_value(
                fc.desired->0,
            ),
        ],
        fc.change_kind@ == "set"@ && fc.current is None && fc.desired is Some ==> field_change(fc)
            == seq!["+"@ + fc.field_name@ + ": "@ + display_value(fc.desired->0)],
        fc.change_kind@ == "unset"@ ==> field_change(fc) == seq!["-"@ + fc.field_name@],
{
    lemma_kinds();
}

/// A string is shown as it is, a truth value and a number as such.
pub proof fn values_are_shown_plainly(s: String, b: bool, n: u64)
    ensures
        display_value(Json::Str(s)) == s@,
        display_value(Json::Bool(true)) == "true"@,
        display_value(Json::Bool(false)) == "false"@,
        display_value(Json::PosInt(n)) == decimal(n as nat),
        display_value(Json::Null) == "null"@,
{
}

/// Up to three addresses that come or go are each shown, with their signs.
pub proof fn few_addresses_are_all_shown(added: Seq<Seq<char>>, removed: Seq<Seq<char>>)
    requires
        added.len() + removed.len() <= 3,
    ensures
        address_changes(added, removed).len() == added.len() + removed.len(),
        forall|i: int|
            0 <= i < added.len() ==> address_changes(added, removed).contains(
                "+"@ + #[trigger] added[i],
            ),
        forall|i: int|
            0 <= i < removed.len() ==> address_changes(added, removed).contains(
                "-"@ + #[trigger] removed[i],
            ),
{
    let x = link_local_last(added);
    let y = link_local_last(removed);
    let all = address_changes(added, removed);
    lemma_sorted_addresses(added, added.len());
    lemma_sorted_addresses(removed, removed.len());
    assert(all == prefixed("+"@, x) + prefixed("-"@, y));
    assert forall|i: int| 0 <= i < added.len() implies all.contains("+"@ + #[trigger] added[i]) by {
        lemma_address_kept(added, i);
        let k = x.index_of(added[i]);
        assert(all[k] == "+"@ + added[i]);
    }
    assert forall|i: int| 0 <= i < removed.len() implies all.contains(
        "-"@ + #[trigger] removed[i],
    ) by {
        lemma_address_kept(removed, i);
        let k = y.index_of(removed[i]);
        assert(all[x.len() + k] == "-"@ + removed[i]);
    }
}

/// Every address is of one of the two sorts.
proof fn lemma_sorted_addresses(addrs: Seq<Seq<char>>, n: nat)
    requires
        n <= addrs.len(),
    ensures
        addresses_where(addrs, false, n).len() + addresses_where(addrs, true, n).len() == n,
    decreases n,
{
    if n > 0 {
        lemma_sorted_addresses(addrs, (n - 1) as nat);
    }
}

/// An address is among those of its sort.
proof fn lemma_address_held(addrs: Seq<Seq<char>>, wanted: bool, n: nat, addr: Seq<char>)
    requires
        n <= addrs.len(),
    ensures
        addresses_where(addrs, wanted, n).contains(addr) <==> addrs.take(n as int).contains(addr)
            && link_local(addr) == wanted,
    decreases n,
{
    if n > 0 {
        let before = addresses_where(addrs, wanted, (n - 1) as nat);
        lemma_address_held(addrs, wanted, (n - 1) as nat, addr);
        assert(addrs.take(n as int) == addrs.take(n - 1).push(addrs[n - 1]));
        crate::diagnose::lemma_one_more(addrs.take(n - 1), addrs[n - 1], addr);
        crate::diagnose::lemma_one_more(before, addrs[n - 1], addr);
    }
}

/// An address is kept when addresses are sorted.
proof fn lemma_address_kept(addrs: Seq<Seq<char>>, i: int)
    requires
        0 <= i < addrs.len(),
    ensures
        link_local_last(addrs).contains(addrs[i]),
{
    let n = addrs.len();
    let a = addresses_where(addrs, false, n);
    let b = addresses_where(addrs, true, n);
    assert(addrs.take(n as int) == addrs);
    assert(addrs.contains(addrs[i]));
    lemma_address_held(addrs, false, n, addrs[i]);
    lemma_address_held(addrs, true, n, addrs[i]);
    if a.contains(addrs[i]) {
        assert((a + b)[a.index_of(addrs[i])] == addrs[i]);
    } else {
        assert((a + b)[a.len() + b.index_of(addrs[i])] == addrs[i]);
    }
}

/// Link-local addresses stand behind all others, and are those that begin with
/// "fe80:" or "169.254.".
pub proof fn link_local_addresses_come_last(addrs: Seq<Seq<char>>, i: int, j: int)
    requires
        0 <= i < j < link_local_last(addrs).len(),
    ensures
        link_local(link_local_last(addrs)[i]) ==> link_local(link_local_last(addrs)[j]),
        link_local(addrs[0]) <==> (addrs[0].len() >= 5 && addrs[0].take(5) == "fe80:"@) || (
        addrs[0].len() >= 8 && addrs[0].take(8) == "169.254."@),
{
    let n = addrs.len();
    let a = addresses_where(addrs, false, n);
    let b = addresses_where(addrs, true, n);
    let all = link_local_last(addrs);
    if link_local(all[i]) {
        if i < a.len() {
            assert(a.contains(a[i]));
            lemma_address_held(addrs, false, n, a[i]);
        }
        assert(all[j] == b[j - a.len()]);
        assert(b.contains(b[j - a.len()]));
        lemma_address_held(addrs, true, n, all[j]);
    }
    reveal_strlit("fe80:");
    reveal_strlit("169.254.");
    assert("fe80:"@.len() == 5);
    assert("169.254."@.len() == 8);
    if addrs[0].len() >= 5 {
        assert(addrs[0].subrange(0, 5) == addrs[0].take(5));
    }
    if addrs[0].len() >= 8 {
        assert(addrs[0].subrange(0, 8) == addrs[0].take(8));
    }
}

/// Of four to eight addresses that come or go, two of each direction are shown and
/// the others of that direction counted; of nine or more all are only counted.
pub proof fn many_addresses_are_counted(added: Seq<Seq<char>>, removed: Seq<Seq<char>>)
    ensures
        ({
            let all = address_changes(added, removed);
            let total = added.len() + removed.len();
            &&& total >= 9 && added.len() > 0 ==> all[0] == "+"@ + decimal(added.len()) + " addrs"@
            &&& total >= 9 && removed.len() > 0 ==> all.last() == "-"@ + decimal(removed.len())
                + " addrs"@
            &&& total >= 9 ==> all.len() <= 2
            &&& 4 <= total <= 8 && added.len() > 2 ==> all[2] == "("@ + "+"@ + decimal(
                (added.len() - 2) as nat,
            ) + " addrs)"@ && all[0] == "+"@ + link_local_last(added)[0] && all[1] == "+"@
                + link_local_last(added)[1]
            &&& 4 <= total <= 8 && removed.len() > 2 ==> all.last() == "("@ + "-"@ + decimal(
                (removed.len() - 2) as nat,
            ) + " addrs)"@ && all[all.len() - 3] == "-"@ + link_local_last(removed)[0]
                && all[all.len() - 2] == "-"@ + link_local_last(removed)[1]
            &&& 4 <= total <= 8 && added.len() <= 2 ==> forall|i: int|
                0 <= i < added.len() ==> all[i] == "+"@ + (#[trigger] link_local_last(added)[i])
            &&& 4 <= total <= 8 && removed.len() <= 2 ==> forall|i: int|
                0 <= i < removed.len() ==> all[all.len() - removed.len() + i] == "-"@ + (
                #[trigger] link_local_last(removed)[i])
        }),
{
    lemma_sorted_addresses(added, added.len());
    lemma_sorted_addresses(removed, removed.len());
}

/// The change of a list of addresses shows what comes and what goes: an address
/// comes where only the new list has it, and goes where only the old one has it.
pub proof fn addresses_come_and_go(current: Seq<Json>, desired: Seq<Json>, addr: Seq<char>)
    ensures
        ({
            let before = addresses_in(current, current.len());
            let after = addresses_in(desired, desired.len());
            &&& texts_missing(after, before, after.len()).contains(addr) <==> after.contains(addr)
                && !before.contains(addr)
            &&& address_list_change(current, desired) == address_changes(
                texts_missing(after, before, after.len()),
                texts_missing(before, after, before.len()),
            )
        }),
{
    let before = addresses_in(current, current.len());
    let after = addresses_in(desired, desired.len());
    lemma_missing_held(after, before, after.len(), addr);
    assert(after.take(after.len() as int) == after);
}

/// What another list lacks of the first `n` texts.
proof fn lemma_missing_held(texts: Seq<Seq<char>>, from: Seq<Seq<char>>, n: nat, text: Seq<char>)
    requires
        n <= texts.len(),
    ensures
        texts_missing(texts, from, n).contains(text) <==> texts.take(n as int).contains(text)
            && !from.contains(text),
    decreases n,
{
    if n > 0 {
        let before = texts_missing(texts, from, (n - 1) as nat);
        lemma_missing_held(texts, from, (n - 1) as nat, text);
        assert(texts.take(n as int) == texts.take(n - 1).push(texts[n - 1]));
        crate::diagnose::lemma_one_more(texts.take(n - 1), texts[n - 1], text);
        crate::diagnose::lemma_one_more(before, texts[n - 1], text);
    }
}

/// One element of a list of addresses: a string is an address, and so is the entry
/// "address" of an object, where that is a string.
pub proof fn address_of_one(j: Json)
    ensures
        j matches Json::Str(s) ==> addresses_in(seq![j], 1) == seq![s@],
        j is Dict && (member(j, "address"@) matches Some(Json::Str(_))) ==> addresses_in(seq![j], 1)
            == seq![member(j, "address"@)->0->Str_0@],
        !(j is Str) && !(member(j, "address"@) matches Some(Json::Str(_))) ==> addresses_in(
            seq![j],
            1,
        ).len() == 0,
{
    assert(addresses_in(seq![j], 0) == Seq::<Seq<char>>::empty());
}

/// One value is gained exactly where the other list has none equal to it.
pub proof fn gain_of_one(j: Json, from: Seq<Json>)
    ensures
        (exists|i: int| 0 <= i < from.len() && json_same(#[trigger] from[i], j)) ==> gained(
            seq![j],
            from,
        ).len() == 0,
        (forall|i: int| 0 <= i < from.len() ==> !json_same(#[trigger] from[i], j)) ==> gained(
            seq![j],
            from,
        ) == seq![j],
{
    assert(values_missing(seq![j], from, 0) == Seq::<Json>::empty());
}

/// A default route is shown with its gateway, or a question mark where it has none;
/// any other route only counts.
pub proof fn route_of_one(sign: Seq<char>, route: Json)
    ensures
        ({
            let dest = string_member(route, "destination"@);
            let gateway = string_member(route, "gateway"@);
            let is_default = dest == Some("0.0.0.0/0"@) || dest == Some("::/0"@);
            &&& is_default && gateway is Some ==> default_routes(sign, seq![route], 1) == seq![
                sign + "dflt via "@ + gateway->0,
            ]
            &&& is_default && gateway is None ==> default_routes(sign, seq![route], 1) == seq![
                sign + "dflt via "@ + "?"@,
            ]
            &&& is_default ==> other_routes(seq![route], 1) == 0
            &&& !is_default ==> default_routes(sign, seq![route], 1).len() == 0 && other_routes(
                seq![route],
                1,
            ) == 1
        }),
{
    assert(default_routes(sign, seq![route], 0) == Seq::<Seq<char>>::empty());
    assert(other_routes(seq![route], 0) == 0);
}

/// How the change of a list is shown goes by the name of its field: routes by their
/// kind, name servers by their addresses, search domains as a whole, and any other
/// list by how many elements come and go.
pub proof fn lists_are_told_by_their_fields(fc: SerializableFieldChange)
    requires
        fc.change_kind@ != "unchanged"@,
        (fc.current matches Some(Json::List(_))) || (fc.desired matches Some(Json::List(_))),
    ensures
        ({
            let name = fc.field_name@;
            let current = items_of(fc.current);
            let desired = items_of(fc.desired);
            let added = gained(desired, current);
            let removed = gained(current, desired);
            let changed = added.len() > 0 || removed.len() > 0;
            let told = field_change(fc);
            let known = name == "addresses"@ || name == "routes"@ || name == "nameservers"@ || name
                == "search"@ || name == "search_domains"@;
            &&& name == "addresses"@ ==> told == address_list_change(current, desired)
            &&& !changed && name != "addresses"@ ==> told.len() == 0
            &&& changed && name == "routes"@ ==> told == default_routes("+"@, added, added.len())
                + default_routes("-"@, removed, removed.len()) + counted(
                "+"@,
                other_routes(added, added.len()),
                " routes"@,
            ) + counted("-"@, other_routes(removed, removed.len()), " routes"@)
            &&& changed && name == "nameservers"@ ==> told == prefixed(
                "+ns "@,
                strings_in(added, added.len()),
            ) + prefixed("-ns "@, strings_in(removed, removed.len()))
            &&& changed && (name == "search"@ || name == "search_domains"@) ==> told.len() == 1
            &&& changed && !known && added.len() > 0 ==> told[0] == "+"@ + decimal(added.len()) + (
            " "@ + name)
            &&& changed && !known && removed.len() > 0 ==> told.last() == "-"@ + decimal(
                removed.len(),
            ) + (" "@ + name)
        }),
{
    reveal_strlit("addresses");
    reveal_strlit("routes");
    reveal_strlit("nameservers");
    reveal_strlit("search");
    reveal_strlit("search_domains");
    assert("addresses"@[0] == 'a' && "routes"@[0] == 'r' && "nameservers"@[0] == 'n'
        && "search"@[0] == 's' && "search_domains"@[0] == 's');
}

/// One string of a list counts as such, and nothing else does; a prefix is put
/// before each text, and a count is told where it is not zero.
pub proof fn strings_are_prefixed(j: Json, prefix: Seq<char>, texts: Seq<Seq<char>>, n: nat)
    ensures
        j matches Json::Str(s) ==> strings_in(seq![j], 1) == seq![s@],
        !(j is Str) ==> strings_in(seq![j], 1).len() == 0,
        prefixed(prefix, texts).len() == texts.len(),
        forall|i: int| 0 <= i < texts.len() ==> prefixed(prefix, texts)[i] == prefix + #[trigger] texts[i],
        n > 0 ==> counted(prefix, n, " routes"@) == seq![prefix + decimal(n) + " routes"@],
        counted(prefix, 0, " routes"@).len() == 0,
{
    assert(strings_in(seq![j], 0) == Seq::<Seq<char>>::empty());
}

/// The changes of an entry stand in the order of what they concern: whether the
/// interface is enabled, its carrier, its addresses, routes, name servers, search
/// domains, its MTU, and then everything else. Entities that come and go stand
/// before all of these.
pub proof fn changes_stand_in_order(name: Seq<char>)
    requires
        name != "enabled"@,
        name != "carrier"@,
        name != "addresses"@,
        name != "routes"@,
        name != "nameservers"@,
        name != "search"@,
        name != "search_domains"@,
        name != "mtu"@,
    ensures
        0 < field_priority("enabled"@) < field_priority("carrier"@) < field_priority("addresses"@)
            < field_priority("routes"@) < field_priority("nameservers"@) < field_priority("search"@)
            < field_priority("mtu"@) < field_priority(name) < 9,
        field_priority("search"@) == field_priority("search_domains"@),
{
    reveal_strlit("enabled");
    reveal_strlit("carrier");
    reveal_strlit("addresses");
    reveal_strlit("routes");
    reveal_strlit("nameservers");
    reveal_strlit("search");
    reveal_strlit("search_domains");
    reveal_strlit("mtu");
    assert("enabled"@[0] == 'e' && "carrier"@[0] == 'c' && "addresses"@[0] == 'a' && "routes"@[0]
        == 'r' && "nameservers"@[0] == 'n' && "search"@[0] == 's' && "search_domains"@[0] == 's'
        && "mtu"@[0] == 'm');
}

/// The cell with the changes of an entry whose outcome counts failures begins with
/// their number; that of any other entry is only its changes.
pub proof fn failures_come_first(entry: JournalEntry)
    ensures
        entry.outcome is Applied && entry.outcome->failed >= 1 ==> changes_cell(entry) == "FAIL("@
            + decimal(failures(entry)) + ") "@ + changes_text(entry.diff.operations@),
        entry.outcome is Observed || entry.outcome->failed == 0 ==> changes_cell(entry)
            == changes_text(entry.diff.operations@),
{
}

/// A field counts as failed exactly where it was to be changed and its outcome says
/// so; the failures of an entry are its failed fields, or what its outcome counts
/// where no field failed.
pub proof fn failures_are_counted(entry: JournalEntry, fc: SerializableFieldChange)
    ensures
        ({
            let failed = fc.change_kind@ != "unchanged"@ && fc.outcome is Some && fc.outcome->0@
                == "failed"@;
            &&& failed ==> failed_in(seq![fc], 1) == 1
            &&& !failed ==> failed_in(seq![fc], 1) == 0
        }),
        ({
            let ops = entry.diff.operations@;
            let count = failed_fields(ops, ops.len());
            &&& 0 < count < 0x1_0000_0000 ==> failures(entry) == count
            &&& count == 0 && entry.outcome is Applied ==> failures(entry) == entry.outcome->failed
            &&& count == 0 && entry.outcome is Observed ==> failures(entry) == 0
        }),
{
    assert(failed_in(seq![fc], 0) == 0);
}

/// The failed fields of an operation are those of its fields.
pub proof fn failures_of_one(op: SerializableDiffOp)
    ensures
        failed_fields(seq![op], 1) == failed_in(op.field_changes@, op.field_changes@.len()),
{
    assert(failed_fields(seq![op], 0) == 0);
}

/// Up to three entities are all listed, each behind its sign; of four to six the
/// first two are, entities that come or go first, and the others counted; of more
/// each kind is only counted.
pub proof fn entities_are_told(ops: Seq<SerializableDiffOp>, states: Seq<SerializableState>)
    ensures
        ({
            let n = ops.len();
            let text = entities_text(ops, states);
            let ordered = signed_names_where(ops, true, n) + signed_names_where(ops, false, n);
            let added = ops_of_kind(ops, "add"@, n);
            let removed = ops_of_kind(ops, "remove"@, n);
            &&& 1 <= n <= 3 ==> text == joined(signed_names(ops), ", "@)
            &&& 4 <= n <= 6 ==> text == joined(ordered.take(2), ", "@) + " (+"@ + decimal(
                (n - 2) as nat,
            ) + " more)"@
            &&& n > 6 && added > 0 && removed == 0 && added == n ==> text == joined(
                seq!["+"@ + decimal(added) + ""@],
                ", "@,
            ) + " entities"@
            &&& n == 0 && interface_names(states, states.len()).len() == 0 ==> text == "(none)"@
            &&& n == 0 && interface_names(states, states.len()).len() > 0 ==> text == joined(
                interface_names(states, states.len()),
                ", "@,
            )
            &&& signed_names(ops).len() == n
        }),
{
    let n = ops.len();
    let added = ops_of_kind(ops, "add"@, n);
    if added == n && n > 6 {
        assert(counted("+"@, added, ""@) + counted("~"@, 0, ""@) + counted("-"@, 0, ""@) == seq![
            "+"@ + decimal(added) + ""@,
        ]);
    }
}

/// One operation: an entity that comes or goes is shown with its sign, any other
/// without; an entity of the system by its type. It counts for its own kind only.
pub proof fn entity_of_one(op: SerializableDiffOp, kind: Seq<char>, wanted: bool)
    ensures
        ({
            let system = op.entity_type@ == "dns"@ || op.entity_type@ == "hostname"@
                || op.entity_type@ == "ntp"@;
            let name = if system {
                "sys:"@ + op.entity_type@
            } else {
                op.entity_name@
            };
            let comes_or_goes = op.kind@ == "add"@ || op.kind@ == "remove"@;
            &&& op.kind@ == "add"@ ==> signed_names(seq![op]) == seq!["+"@ + name]
            &&& op.kind@ == "remove"@ ==> signed_names(seq![op]) == seq!["-"@ + name]
            &&& !comes_or_goes ==> signed_names(seq![op]) == seq![""@ + name]
            &&& comes_or_goes == wanted ==> signed_names_where(seq![op], wanted, 1) == signed_names(
                seq![op],
            )
            &&& comes_or_goes != wanted ==> signed_names_where(seq![op], wanted, 1).len() == 0
            &&& op.kind@ == kind ==> ops_of_kind(seq![op], kind, 1) == 1
            &&& op.kind@ != kind ==> ops_of_kind(seq![op], kind, 1) == 0
        }),
{
    lemma_kinds();
    assert(signed_names_where(seq![op], wanted, 0) == Seq::<Seq<char>>::empty());
    assert(ops_of_kind(seq![op], kind, 0) == 0);
}

/// The entities of some operations and others behind them are those of the first,
/// then those of the others.
pub proof fn names_of_parts(a: Seq<SerializableDiffOp>, b: Seq<SerializableDiffOp>)
    ensures
        signed_names(a + b) == signed_names(a) + signed_names(b),
{
    assert(signed_names(a + b) == signed_names(a) + signed_names(b));
}

/// One state: an interface is shown by its name, an entity of the system is not.
pub proof fn interface_of_one(state: SerializableState)
    ensures
        ({
            let system = state.entity_type@ == "dns"@ || state.entity_type@ == "hostname"@
                || state.entity_type@ == "ntp"@;
            &&& system ==> interface_names(seq![state], 1).len() == 0
            &&& !system ==> interface_names(seq![state], 1) == seq![state.selector_name@]
        }),
{
    assert(interface_names(seq![state], 0) == Seq::<Seq<char>>::empty());
}

/// Entities that do not fit in their column are named as far as it has room, from the
/// first on, with the number of the others.
pub proof fn as_many_entities_as_fit(
    ops: Seq<SerializableDiffOp>,
    states: Seq<SerializableState>,
    shown: nat,
    max: nat,
)
    requires
        0 < shown < ops.len(),
    ensures
        ({
            let names = signed_names(ops);
            let full = entities_text(ops, states);
            let text = |k: nat|
                joined(names.take(k as int), ", "@) + ", +"@ + decimal((names.len() - k) as nat)
                    + "…"@;
            &&& full.len() <= max ==> entities_fitted(ops, states, max) == full
            &&& full.len() > max && text(shown).len() <= max && (forall|k: nat|
                shown < k < ops.len() ==> (#[trigger] text(k)).len() > max) ==> entities_fitted(
                ops,
                states,
                max,
            ) == text(shown)
        }),
{
    let names = signed_names(ops);
    let full = entities_text(ops, states);
    let text = |k: nat|
        joined(names.take(k as int), ", "@) + ", +"@ + decimal((names.len() - k) as nat) + "…"@;
    if full.len() > max && text(shown).len() <= max && (forall|k: nat|
        shown < k < ops.len() ==> (#[trigger] text(k)).len() > max) {
        lemma_most_entities(names, full, shown, (ops.len() - 1) as nat, max, text);
    }
}

/// The largest number of entities that fit is named.
proof fn lemma_most_entities(
    names: Seq<Seq<char>>,
    full: Seq<char>,
    shown: nat,
    from: nat,
    max: nat,
    text: spec_fn(nat) -> Seq<char>,
)
    requires
        0 < shown <= from < names.len(),
        forall|k: nat| 0 < k < names.len() ==> #[trigger] text(k) == first_entities(names, k),
        text(shown).len() <= max,
        forall|k: nat| shown < k < names.len() ==> (#[trigger] text(k)).len() > max,
    ensures
        fewer_entities(names, full, from, max) == text(shown),
    decreases from,
{
    if from > shown {
        assert(text(from).len() > max);
        lemma_most_entities(names, full, shown, (from - 1) as nat, max, text);
    }
}

/// The outcome of an entry in short counts only failures, and in full counts
/// everything.
pub proof fn outcomes_are_told(outcome: ApplyOutcome)
    ensures
        outcome is Observed ==> short_outcome(outcome) == "observed"@ && full_outcome(outcome)
            == "observed"@,
        outcome matches ApplyOutcome::Applied { succeeded, failed, skipped } ==> {
            &&& failed == 0 ==> short_outcome(outcome) == "applied"@
            &&& failed >= 1 ==> short_outcome(outcome) == "applied ("@ + decimal(failed as nat)
                + " fail)"@
            &&& full_outcome(outcome) == "applied ("@ + decimal(succeeded as nat)
                + " succeeded, "@ + decimal(failed as nat) + " failed, "@ + decimal(skipped as nat)
                + " skipped)"@
        },
{
}

/// What a trigger says beyond its kind: where policies came from, which policy had
/// which event, which entities changed, where a revert went back to.
pub proof fn trigger_details_are_told(trigger: Trigger)
    ensures
        trigger matches Trigger::PolicyApply { source } ==> trigger_detail(trigger)
            == " (source: "@ + source@ + ")"@,
        trigger matches Trigger::DhcpEvent { policy_name, event_kind } ==> trigger_detail(trigger)
            == " (policy: "@ + policy_name@ + ", event: "@ + event_kind@ + ")"@,
        trigger matches Trigger::ExternalChange { changed_entities } ==> (changed_entities@.len()
            > 0 ==> trigger_detail(trigger) == " ("@ + joined(views(changed_entities@), ", "@)
            + ")"@),
        trigger matches Trigger::Revert { target_seq } ==> trigger_detail(trigger)
            == " (target seq: "@ + decimal(target_seq as nat) + ")"@,
        trigger is DaemonStartup ==> trigger_detail(trigger).len() == 0,
{
}

/// The texts at one place are those of the changes with that place, and places follow
/// one another.
pub proof fn places_follow_one_another(tokens: Seq<(u8, Seq<char>)>, bound: nat, x: (u8, Seq<char>))
    ensures
        in_order(tokens, bound + 1) == in_order(tokens, bound) + texts_at(
            tokens,
            bound as int,
            tokens.len(),
        ),
        in_order(tokens, 0).len() == 0,
        x.0 == bound ==> texts_at(seq![x], bound as int, 1) == seq![x.1],
        x.0 != bound ==> texts_at(seq![x], bound as int, 1).len() == 0,
{
    assert(texts_at(seq![x], bound as int, 0) == Seq::<Seq<char>>::empty());
}

/// The change of the search domains tells the new ones where there were none, that
/// they are gone where there are none, and both otherwise.
pub proof fn search_domains_are_told(current: Option<Json>, desired: Option<Json>)
    ensures
        ({
            let had = match current {
                Some(j) => display_value(j),
                None => Seq::empty(),
            };
            let has = match desired {
                Some(j) => display_value(j),
                None => Seq::empty(),
            };
            &&& had.len() == 0 ==> search_change(current, desired) == "+search: "@ + has
            &&& had.len() > 0 && has.len() == 0 ==> search_change(current, desired) == "-search"@
            &&& had.len() > 0 && has.len() > 0 ==> search_change(current, desired) == "search "@
                + had + "→"@ + has
        }),
{
}

} // verus!
