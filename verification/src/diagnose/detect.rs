//! The detectors: each looks for one pattern on one entity.
use vstd::prelude::*;
use vstd::string::*;

use crate::diagnose::{
    ago_text, carrier_from, carrier_of, entries_at, entries_matter, finding_views, get_entity_state,
    get_last_applied_state, has_op, has_state, latest, latest_entry, latest_in, pick_by_seq, picked,
    picked_by_seq, picks, relative_time_at, state_of, FieldSchema, Finding, FindingView,
    PatternKind, Pick, Severity,
};
use crate::history::format::valid_times;
use crate::history::table::with_text;
use crate::journal::{ApplyOutcome, JournalEntry, SerializableState, Trigger};
use crate::json::{compact, json_compact, json_same, member, same_json, Json};
use crate::text::{
    cat2, cat3, cat4, cat5, cat6, cat7, contains, decimal, decimal_text, has_string, join, joined,
    lemma_middle_holds, lemma_parted, occurs_in, push_text, same, sort_texts, sorted_texts, texts1,
    texts2, texts3, views,
};
use crate::time::Timestamp;

verus! {

/// A list of one finding.
fn one(finding: Finding) -> (r: Vec<Finding>)
    ensures
        finding_views(r@) == seq![finding@],
{
    let mut out: Vec<Finding> = Vec::new();
    out.push(finding);
    assert(finding_views(out@) == seq![finding@]);
    out
}

/// A list without findings.
fn none() -> (r: Vec<Finding>)
    ensures
        finding_views(r@) == Seq::<FindingView>::empty(),
{
    let out: Vec<Finding> = Vec::new();
    assert(finding_views(out@) == Seq::<FindingView>::empty());
    out
}

/// The numbers of entries.
pub open spec fn seqs_of(entries: Seq<JournalEntry>) -> Seq<u64> {
    entries.map_values(|e: JournalEntry| e.seq)
}

/// The numbers of entries.
fn seq_numbers(entries: &Vec<&JournalEntry>) -> (r: Vec<u64>)
    ensures
        r@ == seqs_of(entries_at(entries@)),
{
    let mut out: Vec<u64> = Vec::new();
    let n: usize = entries.len();
    let mut i: usize = 0;
    while i < n
        invariant
            i <= n,
            n == entries@.len(),
            out@.len() == i,
            forall|k: int| 0 <= k < i ==> out@[k] == (#[trigger] entries@[k]).seq,
        decreases n - i,
    {
        out.push(entries[i].seq);
        i = i + 1;
    }
    assert(out@ == seqs_of(entries_at(entries@)));
    out
}

/// Every entry with a valid time stays so when it is picked and sorted.
proof fn lemma_picked_times(
    entries: Seq<JournalEntry>,
    pick: Pick,
    entity_type: Seq<char>,
    name: Seq<char>,
)
    requires
        valid_times(entries),
    ensures
        valid_times(picked_by_seq(entries, pick, entity_type, name)),
{
    let chosen = picked(entries, pick, entity_type, name, entries.len());
    lemma_chosen_times(entries, pick, entity_type, name, entries.len());
    crate::diagnose::sorted_by_seq(chosen);
    let sorted = picked_by_seq(entries, pick, entity_type, name);
    assert forall|i: int| 0 <= i < sorted.len() implies (#[trigger] sorted[i]).timestamp.wf() by {
        vstd::seq_lib::to_multiset_contains(sorted, sorted[i]);
        vstd::seq_lib::to_multiset_contains(chosen, sorted[i]);
        assert(chosen.contains(sorted[i]));
    }
}

/// Every entry with a valid time stays so when it is picked.
proof fn lemma_chosen_times(
    entries: Seq<JournalEntry>,
    pick: Pick,
    entity_type: Seq<char>,
    name: Seq<char>,
    n: nat,
)
    requires
        valid_times(entries),
        n <= entries.len(),
    ensures
        valid_times(picked(entries, pick, entity_type, name, n)),
    decreases n,
{
    if n > 0 {
        lemma_chosen_times(entries, pick, entity_type, name, (n - 1) as nat);
    }
}

/// The latest entry has a valid time where all entries have.
pub proof fn lemma_latest_time(
    entries: Seq<JournalEntry>,
    pick: Pick,
    entity_type: Seq<char>,
    name: Seq<char>,
    n: nat,
)
    requires
        valid_times(entries),
        n <= entries.len(),
    ensures
        latest_in(entries, pick, entity_type, name, n) matches Some(e) ==> e.timestamp.wf()
            && picks(pick, e, entity_type, name),
    decreases n,
{
    if n > 0 {
        lemma_latest_time(entries, pick, entity_type, name, (n - 1) as nat);
    }
}

// ── Configuration drift ──────────────────────────────────────────────────────

/// Whether policies cannot write a field.
pub open spec fn read_only(schema: FieldSchema, entity_type: Seq<char>, field: Seq<char>) -> bool {
    exists|i: int|
        0 <= i < schema.read_only@.len() && (#[trigger] schema.read_only@[i]).0@ == entity_type
            && schema.read_only@[i].1@ == field
}

/// Those of the first `n` fields that policies can write and that the system does
/// not have as the policy wants them.
pub open spec fn drift_details(
    desired: Seq<(String, Json)>,
    current: Json,
    schema: FieldSchema,
    entity_type: Seq<char>,
    n: nat,
) -> Seq<Seq<char>>
    decreases n,
{
    if n == 0 || n > desired.len() {
        Seq::empty()
    } else {
        let before = drift_details(desired, current, schema, entity_type, (n - 1) as nat);
        let field = desired[n - 1].0@;
        let wanted = desired[n - 1].1;
        if read_only(schema, entity_type, field) {
            before
        } else {
            match member(current, field) {
                None => before.push(
                    "Policy wants "@ + field + "="@ + compact(wanted)
                        + ", system has no value"@,
                ),
                Some(had) => if json_same(had, wanted) {
                    before
                } else {
                    before.push(
                        "Policy wants "@ + field + "="@ + compact(wanted) + ", system has "@ + field
                            + "="@ + compact(had),
                    )
                },
            }
        }
    }
}

/// One or two numbers, in ascending order, each once.
pub open spec fn one_or_two(a: u64, b: Option<u64>) -> Seq<u64> {
    match b {
        None => seq![a],
        Some(c) => if a == c {
            seq![a]
        } else if a < c {
            seq![a, c]
        } else {
            seq![c, a]
        },
    }
}

/// The finding that an entity is not as the last apply left it.
pub open spec fn drift_finding(
    details: Seq<Seq<char>>,
    change: Option<JournalEntry>,
    last_seq: u64,
    entity_type: Seq<char>,
    name: Seq<char>,
    at: Timestamp,
) -> FindingView {
    FindingView {
        entity_name: name,
        entity_type,
        severity: Severity::Warning,
        pattern: PatternKind::ConfigurationDrift,
        summary: details[0],
        details: match change {
            Some(e) => details.push(
                "Changed externally "@ + ago_text(e.timestamp, at) + " (seq "@ + decimal(
                    e.seq as nat,
                ) + ")"@,
            ),
            None => details,
        },
        suggested_actions: seq![
            "Run `netfyr apply` to re-converge"@,
            "Or `netfyr revert "@ + decimal(last_seq as nat) + "` to restore last applied state"@,
        ],
        related_entries: one_or_two(
            last_seq,
            match change {
                Some(e) => Some(e.seq),
                None => None,
            },
        ),
    }
}

/// The findings on drift: one where the state of the entity after the last apply
/// and its current state are both known, and a field that policies can write
/// differs.
pub open spec fn drift_findings(
    entries: Seq<JournalEntry>,
    current_state: Seq<SerializableState>,
    entity_type: Seq<char>,
    name: Seq<char>,
    last_applied: Option<&JournalEntry>,
    schema: FieldSchema,
    at: Timestamp,
) -> Seq<FindingView> {
    match last_applied {
        None => Seq::empty(),
        Some(last) => match (
            state_of(last.state_after.entities@, entity_type, name),
            state_of(current_state, entity_type, name),
        ) {
            (Some(desired), Some(current)) => match (desired.fields, current.fields) {
                (Json::Dict(fields), Json::Dict(_)) => {
                    let details = drift_details(
                        fields@,
                        current.fields,
                        schema,
                        entity_type,
                        fields@.len(),
                    );
                    if details.len() == 0 {
                        Seq::empty()
                    } else {
                        seq![
                            drift_finding(
                                details,
                                latest(entries, Pick::ExternalChange, entity_type, name),
                                last.seq,
                                entity_type,
                                name,
                                at,
                            ),
                        ]
                    }
                },
                _ => Seq::empty(),
            },
            _ => Seq::empty(),
        },
    }
}

/// Whether policies cannot write a field.
fn is_read_only(schema: &FieldSchema, entity_type: &str, field: &str) -> (r: bool)
    ensures
        r == read_only(*schema, entity_type@, field@),
{
    let list = &schema.read_only;
    let n: usize = list.len();
    let mut i: usize = 0;
    while i < n
        invariant
            i <= n,
            n == list@.len(),
            list@ == schema.read_only@,
            forall|k: int|
                0 <= k < i ==> !((#[trigger] list@[k]).0@ == entity_type@ && list@[k].1@ == field@),
        decreases n - i,
    {
        if same(list[i].0.as_str(), entity_type) && same(list[i].1.as_str(), field) {
            assert(list@[i as int].0@ == entity_type@);
            return true;
        }
        i = i + 1;
    }
    false
}

/// The fields that the system does not have as the policy wants them.
fn list_drift(
    desired: &Vec<(String, Json)>,
    current: &Json,
    schema: &FieldSchema,
    entity_type: &str,
) -> (r: Vec<String>)
    ensures
        views(r@) == drift_details(desired@, *current, *schema, entity_type@, desired@.len()),
{
    let mut details: Vec<String> = Vec::new();
    let n: usize = desired.len();
    let mut i: usize = 0;
    assert(views(details@) == Seq::<Seq<char>>::empty());
    while i < n
        invariant
            i <= n,
            n == desired@.len(),
            views(details@) == drift_details(
                desired@,
                *current,
                *schema,
                entity_type@,
                i as nat,
            ),
        decreases n - i,
    {
        let field = desired[i].0.as_str();
        let wanted = &desired[i].1;
        if !is_read_only(schema, entity_type, field) {
            let text = json_compact(wanted);
            match current.get(field) {
                None => {
                    push_text(
                        &mut details,
                        cat5("Policy wants ", field, "=", text.as_str(), ", system has no value"),
                    );
                },
                Some(had) => {
                    if !same_json(had, wanted) {
                        let had_text = json_compact(had);
                        let mut line = cat7(
                            "Policy wants ",
                            field,
                            "=",
                            text.as_str(),
                            ", system has ",
                            field,
                            "=",
                        );
                        line.append(had_text.as_str());
                        push_text(&mut details, line);
                    }
                },
            }
        }
        i = i + 1;
    }
    details
}

/// One or two numbers, in ascending order, each once.
fn pair_up(a: u64, b: Option<u64>) -> (r: Vec<u64>)
    ensures
        r@ == one_or_two(a, b),
{
    let mut out: Vec<u64> = Vec::new();
    match b {
        None => {
            out.push(a);
        },
        Some(c) => {
            if a == c {
                out.push(a);
            } else if a < c {
                out.push(a);
                out.push(c);
            } else {
                out.push(c);
                out.push(a);
            }
        },
    }
    assert(out@ == one_or_two(a, b));
    out
}

/// Looks for fields of an entity that are not as the last apply left them.
pub fn detect_configuration_drift(
    entries: &[JournalEntry],
    current_state: &[SerializableState],
    entity_type: &str,
    entity_name: &str,
    last_applied: Option<&JournalEntry>,
    schema: &FieldSchema,
    at: Timestamp,
) -> (r: Vec<Finding>)
    requires
        at.wf(),
        valid_times(entries@),
    ensures
        finding_views(r@) == drift_findings(
            entries@,
            current_state@,
            entity_type@,
            entity_name@,
            last_applied,
            *schema,
            at,
        ),
{
    let last = match last_applied {
        Some(e) => e,
        None => {
            return none();
        },
    };
    let desired = match get_last_applied_state(last_applied, entity_type, entity_name) {
        Some(s) => s,
        None => {
            return none();
        },
    };
    let current = match get_entity_state(current_state, entity_type, entity_name) {
        Some(s) => s,
        None => {
            return none();
        },
    };
    let desired_fields = match &desired.fields {
        Json::Dict(fields) => fields,
        _ => {
            return none();
        },
    };
    match &current.fields {
        Json::Dict(_) => {},
        _ => {
            return none();
        },
    }
    let mut details = list_drift(desired_fields, &current.fields, schema, entity_type);
    assert(views(details@).len() == details@.len());
    if details.len() == 0 {
        return none();
    }
    let ghost model = views(details@);
    let summary = details[0].clone();
    assert(summary@ == model[0]);
    let change = latest_entry(entries, Pick::ExternalChange, entity_type, entity_name);
    let mut change_seq: Option<u64> = None;
    if let Some(e) = change {
        proof {
            lemma_latest_time(
                entries@,
                Pick::ExternalChange,
                entity_type@,
                entity_name@,
                entries@.len(),
            );
        }
        change_seq = Some(e.seq);
        let ago = relative_time_at(e.timestamp, at);
        let digits = decimal_text(e.seq);
        push_text(
            &mut details,
            cat5("Changed externally ", ago.as_str(), " (seq ", digits.as_str(), ")"),
        );
    }
    let last_digits = decimal_text(last.seq);
    one(
        Finding {
            entity_name: entity_name.to_owned(),
            entity_type: entity_type.to_owned(),
            severity: Severity::Warning,
            pattern: PatternKind::ConfigurationDrift,
            summary,
            details,
            suggested_actions: texts2(
                "Run `netfyr apply` to re-converge".to_owned(),
                cat3(
                    "Or `netfyr revert ",
                    last_digits.as_str(),
                    "` to restore last applied state",
                ),
            ),
            related_entries: pair_up(last.seq, change_seq),
        },
    )
}

// ── Carrier loss ─────────────────────────────────────────────────────────────

/// The finding that an interface has no carrier: since when it has none, where
/// the latest entry that records the carrier says so.
pub open spec fn carrier_finding(
    entries: Seq<JournalEntry>,
    entity_type: Seq<char>,
    name: Seq<char>,
    at: Timestamp,
) -> FindingView {
    let recorded = latest(entries, Pick::Carrier, entity_type, name);
    let known = recorded is Some && carrier_of(
        recorded->0.state_after.entities@,
        entity_type,
        name,
    ) == Some(false);
    FindingView {
        entity_name: name,
        entity_type,
        severity: Severity::Critical,
        pattern: PatternKind::CarrierLoss,
        summary: "Interface "@ + name + " has no carrier"@,
        details: if known {
            seq![
                "Carrier lost "@ + ago_text(recorded->0.timestamp, at) + " (seq "@ + decimal(
                    recorded->0.seq as nat,
                ) + ")"@,
                "Interface has no active link"@,
            ]
        } else {
            seq![
                "No carrier detected; loss predates the current scan window"@,
                "Use --since with a longer duration to see when carrier was lost"@,
            ]
        },
        suggested_actions: seq![
            "Check physical cable or switch port"@,
            "Verify link with `ip link show "@ + name + "`"@,
        ],
        related_entries: if known {
            seq![recorded->0.seq]
        } else {
            Seq::empty()
        },
    }
}

/// The findings on a lost carrier: one where the entity has no carrier now.
pub open spec fn carrier_findings(
    entries: Seq<JournalEntry>,
    current_state: Seq<SerializableState>,
    entity_type: Seq<char>,
    name: Seq<char>,
    at: Timestamp,
) -> Seq<FindingView> {
    if carrier_of(current_state, entity_type, name) == Some(false) {
        seq![carrier_finding(entries, entity_type, name, at)]
    } else {
        Seq::empty()
    }
}

/// Looks for an interface without a carrier.
pub fn detect_carrier_loss(
    entries: &[JournalEntry],
    current_state: &[SerializableState],
    entity_type: &str,
    entity_name: &str,
    at: Timestamp,
) -> (r: Vec<Finding>)
    requires
        at.wf(),
        valid_times(entries@),
    ensures
        finding_views(r@) == carrier_findings(
            entries@,
            current_state@,
            entity_type@,
            entity_name@,
            at,
        ),
{
    let carrier_false = match carrier_from(current_state, entity_type, entity_name) {
        Some(b) => !b,
        None => false,
    };
    if !carrier_false {
        return none();
    }
    let recorded = latest_entry(entries, Pick::Carrier, entity_type, entity_name);
    let known = match recorded {
        Some(e) => match carrier_from(
            e.state_after.entities.as_slice(),
            entity_type,
            entity_name,
        ) {
            Some(b) => !b,
            None => false,
        },
        None => false,
    };
    let mut related: Vec<u64> = Vec::new();
    let details = match recorded {
        Some(e) if known => {
            proof {
                lemma_latest_time(
                    entries@,
                    Pick::Carrier,
                    entity_type@,
                    entity_name@,
                    entries@.len(),
                );
            }
            related.push(e.seq);
            let ago = relative_time_at(e.timestamp, at);
            let digits = decimal_text(e.seq);
            texts2(
                cat5("Carrier lost ", ago.as_str(), " (seq ", digits.as_str(), ")"),
                "Interface has no active link".to_owned(),
            )
        },
        _ => texts2(
            "No carrier detected; loss predates the current scan window".to_owned(),
            "Use --since with a longer duration to see when carrier was lost".to_owned(),
        ),
    };
    let finding = Finding {
        entity_name: entity_name.to_owned(),
        entity_type: entity_type.to_owned(),
        severity: Severity::Critical,
        pattern: PatternKind::CarrierLoss,
        summary: cat3("Interface ", entity_name, " has no carrier"),
        details,
        suggested_actions: texts2(
            "Check physical cable or switch port".to_owned(),
            cat3("Verify link with `ip link show ", entity_name, "`"),
        ),
        related_entries: related,
    };
    assert(finding@.related_entries == carrier_finding(
        entries@,
        entity_type@,
        entity_name@,
        at,
    ).related_entries);
    one(finding)
}

// ── DHCP leases ──────────────────────────────────────────────────────────────

/// The policy of an event of DHCP.
pub open spec fn dhcp_policy(entry: JournalEntry) -> Seq<char> {
    match entry.trigger {
        Trigger::DhcpEvent { policy_name, .. } => policy_name@,
        _ => Seq::empty(),
    }
}

/// Whether an event of DHCP brought or kept a lease.
pub open spec fn lease_held(entry: JournalEntry) -> bool {
    match entry.trigger {
        Trigger::DhcpEvent { event_kind, .. } => occurs_in(event_kind@, "acquire"@) || occurs_in(
            event_kind@,
            "renew"@,
        ),
        _ => false,
    }
}

/// The position of the event of a policy in a list of events, at `from` or
/// behind.
pub open spec fn policy_position(events: Seq<JournalEntry>, policy: Seq<char>, from: int) -> Option<
    int,
>
    decreases events.len() - from,
{
    if from >= events.len() {
        None
    } else if dhcp_policy(events[from]) == policy {
        Some(from)
    } else {
        policy_position(events, policy, from + 1)
    }
}

/// The last one of the first `n` events of each policy, in the order in which the
/// policies first appear.
pub open spec fn last_events(events: Seq<JournalEntry>, n: nat) -> Seq<JournalEntry>
    decreases n,
{
    if n == 0 || n > events.len() {
        Seq::empty()
    } else {
        let before = last_events(events, (n - 1) as nat);
        match policy_position(before, dhcp_policy(events[n - 1]), 0) {
            Some(i) => before.update(i, events[n - 1]),
            None => before.push(events[n - 1]),
        }
    }
}

/// The finding that the lease of a policy was lost.
pub open spec fn lease_finding(
    entry: JournalEntry,
    entity_type: Seq<char>,
    name: Seq<char>,
    at: Timestamp,
) -> FindingView {
    let ago = ago_text(entry.timestamp, at);
    FindingView {
        entity_name: name,
        entity_type,
        severity: Severity::Critical,
        pattern: PatternKind::DhcpLeaseLost,
        summary: "DHCP lease expired "@ + ago + " ago (policy: "@ + dhcp_policy(entry) + ")"@,
        details: seq![
            "Lease expired "@ + ago + " (seq "@ + decimal(entry.seq as nat) + ")"@,
            "Policy: "@ + dhcp_policy(entry),
            "Interface may have no addresses"@,
        ],
        suggested_actions: seq![
            "Check DHCP server reachability"@,
            "Verify link connectivity with `ip link show "@ + name + "`"@,
        ],
        related_entries: seq![entry.seq],
    }
}

/// The findings on those of the first `n` last events that left no lease.
pub open spec fn lease_findings_in(
    last: Seq<JournalEntry>,
    entity_type: Seq<char>,
    name: Seq<char>,
    at: Timestamp,
    n: nat,
) -> Seq<FindingView>
    decreases n,
{
    if n == 0 || n > last.len() {
        Seq::empty()
    } else if lease_held(last[n - 1]) {
        lease_findings_in(last, entity_type, name, at, (n - 1) as nat)
    } else {
        lease_findings_in(last, entity_type, name, at, (n - 1) as nat).push(
            lease_finding(last[n - 1], entity_type, name, at),
        )
    }
}

/// The findings on lost leases: one for each policy whose last event on the
/// entity left no lease.
pub open spec fn lease_findings(
    entries: Seq<JournalEntry>,
    entity_type: Seq<char>,
    name: Seq<char>,
    at: Timestamp,
) -> Seq<FindingView> {
    let events = picked_by_seq(entries, Pick::Dhcp, entity_type, name);
    let last = last_events(events, events.len());
    lease_findings_in(last, entity_type, name, at, last.len())
}

/// The policy of an event of DHCP.
fn policy_of(entry: &JournalEntry) -> (r: &str)
    ensures
        r@ == dhcp_policy(*entry),
{
    match &entry.trigger {
        Trigger::DhcpEvent { policy_name, .. } => policy_name.as_str(),
        _ => {
            proof {
                reveal_strlit("");
                assert(""@ == Seq::<char>::empty());
            }
            ""
        },
    }
}

/// Whether an event of DHCP brought or kept a lease.
fn holds_lease(entry: &JournalEntry) -> (r: bool)
    ensures
        r == lease_held(*entry),
{
    match &entry.trigger {
        Trigger::DhcpEvent { event_kind, .. } => contains(event_kind.as_str(), "acquire")
            || contains(event_kind.as_str(), "renew"),
        _ => false,
    }
}

/// The position of the event of a policy in a list of events.
fn find_policy(events: &Vec<&JournalEntry>, policy: &str) -> (r: Option<usize>)
    ensures
        match r {
            Some(i) => i < events@.len() && policy_position(entries_at(events@), policy@, 0)
                == Some(i as int),
            None => policy_position(entries_at(events@), policy@, 0) is None,
        },
{
    let n: usize = events.len();
    let mut i: usize = 0;
    while i < n
        invariant
            i <= n,
            n == events@.len(),
            policy_position(entries_at(events@), policy@, 0) == policy_position(
                entries_at(events@),
                policy@,
                i as int,
            ),
        decreases n - i,
    {
        assert(entries_at(events@)[i as int] == *events@[i as int]);
        if same(policy_of(events[i]), policy) {
            return Some(i);
        }
        i = i + 1;
    }
    None
}

/// The last event of each policy.
fn keep_last_events<'a>(events: &Vec<&'a JournalEntry>) -> (r: Vec<&'a JournalEntry>)
    ensures
        entries_at(r@) == last_events(entries_at(events@), events@.len()),
{
    let ghost model = entries_at(events@);
    let mut out: Vec<&'a JournalEntry> = Vec::new();
    let n: usize = events.len();
    let mut i: usize = 0;
    assert(entries_at(out@) == Seq::<JournalEntry>::empty());
    while i < n
        invariant
            i <= n,
            n == events@.len(),
            model == entries_at(events@),
            entries_at(out@) == last_events(model, i as nat),
        decreases n - i,
    {
        let event = events[i];
        let ghost before = out@;
        assert(model[i as int] == *event);
        match find_policy(&out, policy_of(event)) {
            Some(k) => {
                out.set(k, event);
                assert(entries_at(out@) == entries_at(before).update(k as int, *event));
            },
            None => {
                out.push(event);
                assert(entries_at(out@) == entries_at(before).push(*event));
            },
        }
        i = i + 1;
    }
    out
}

/// The last events have valid times where all events have.
proof fn lemma_last_event_times(events: Seq<JournalEntry>, n: nat)
    requires
        valid_times(events),
        n <= events.len(),
    ensures
        valid_times(last_events(events, n)),
    decreases n,
{
    if n > 0 {
        lemma_last_event_times(events, (n - 1) as nat);
        lemma_policy_position(
            last_events(events, (n - 1) as nat),
            dhcp_policy(events[n - 1]),
            0,
        );
    }
}

/// A position that is found lies in the list.
proof fn lemma_policy_position(events: Seq<JournalEntry>, policy: Seq<char>, from: int)
    requires
        0 <= from,
    ensures
        policy_position(events, policy, from) matches Some(i) ==> from <= i < events.len()
            && dhcp_policy(events[i]) == policy,
    decreases events.len() - from,
{
    if from < events.len() && dhcp_policy(events[from]) != policy {
        lemma_policy_position(events, policy, from + 1);
    }
}

/// Looks for policies whose last event on an entity left no lease.
pub fn detect_dhcp_lease_lost(
    entries: &[JournalEntry],
    entity_type: &str,
    entity_name: &str,
    at: Timestamp,
) -> (r: Vec<Finding>)
    requires
        at.wf(),
        valid_times(entries@),
    ensures
        finding_views(r@) == lease_findings(entries@, entity_type@, entity_name@, at),
{
    let events = pick_by_seq(entries, Pick::Dhcp, entity_type, entity_name);
    let last = keep_last_events(&events);
    let ghost model = entries_at(last@);
    proof {
        lemma_picked_times(entries@, Pick::Dhcp, entity_type@, entity_name@);
        lemma_last_event_times(entries_at(events@), events@.len());
    }
    let mut out: Vec<Finding> = Vec::new();
    let n: usize = last.len();
    let mut i: usize = 0;
    assert(finding_views(out@) == Seq::<FindingView>::empty());
    while i < n
        invariant
            i <= n,
            n == last@.len(),
            at.wf(),
            model == entries_at(last@),
            valid_times(model),
            finding_views(out@) == lease_findings_in(
                model,
                entity_type@,
                entity_name@,
                at,
                i as nat,
            ),
        decreases n - i,
    {
        let entry = last[i];
        assert(model[i as int] == *entry);
        if !holds_lease(entry) {
            let ghost before = out@;
            let ago = relative_time_at(entry.timestamp, at);
            let digits = decimal_text(entry.seq);
            let policy = policy_of(entry);
            let mut related: Vec<u64> = Vec::new();
            related.push(entry.seq);
            let finding = Finding {
                entity_name: entity_name.to_owned(),
                entity_type: entity_type.to_owned(),
                severity: Severity::Critical,
                pattern: PatternKind::DhcpLeaseLost,
                summary: cat5("DHCP lease expired ", ago.as_str(), " ago (policy: ", policy, ")"),
                details: texts3(
                    cat5("Lease expired ", ago.as_str(), " (seq ", digits.as_str(), ")"),
                    cat2("Policy: ", policy),
                    "Interface may have no addresses".to_owned(),
                ),
                suggested_actions: texts2(
                    "Check DHCP server reachability".to_owned(),
                    cat3("Verify link connectivity with `ip link show ", entity_name, "`"),
                ),
                related_entries: related,
            };
            assert(finding@.related_entries == seq![entry.seq]);
            assert(finding@ == lease_finding(*entry, entity_type@, entity_name@, at));
            out.push(finding);
            assert(finding_views(out@) == finding_views(before).push(finding@));
        }
        i = i + 1;
    }
    out
}

// ── Oscillation ──────────────────────────────────────────────────────────────

/// The fields of an entity that each of the first `n` entries records, as far as
/// it does.
pub open spec fn snapshots(
    entries: Seq<JournalEntry>,
    entity_type: Seq<char>,
    name: Seq<char>,
    n: nat,
) -> Seq<Json>
    decreases n,
{
    if n == 0 || n > entries.len() {
        Seq::empty()
    } else {
        let before = snapshots(entries, entity_type, name, (n - 1) as nat);
        match state_of(entries[n - 1].state_after.entities@, entity_type, name) {
            Some(s) => before.push(s.fields),
            None => before,
        }
    }
}

/// A list with the first `n` keys put in, each once.
pub open spec fn with_keys(
    texts: Seq<Seq<char>>,
    fields: Seq<(String, Json)>,
    n: nat,
) -> Seq<Seq<char>>
    decreases n,
{
    if n == 0 || n > fields.len() {
        texts
    } else {
        with_text(with_keys(texts, fields, (n - 1) as nat), fields[n - 1].0@)
    }
}

/// The names of the fields in the first `n` snapshots, each once.
pub open spec fn field_names(shots: Seq<Json>, n: nat) -> Seq<Seq<char>>
    decreases n,
{
    if n == 0 || n > shots.len() {
        Seq::empty()
    } else {
        let before = field_names(shots, (n - 1) as nat);
        match shots[n - 1] {
            Json::Dict(fields) => with_keys(before, fields@, fields@.len()),
            _ => before,
        }
    }
}

/// The values of a field in the first `n` snapshots, as far as they have it.
pub open spec fn values_of(shots: Seq<Json>, field: Seq<char>, n: nat) -> Seq<Json>
    decreases n,
{
    if n == 0 || n > shots.len() {
        Seq::empty()
    } else {
        let before = values_of(shots, field, (n - 1) as nat);
        match member(shots[n - 1], field) {
            Some(v) => before.push(v),
            None => before,
        }
    }
}

/// Whether a value was there before.
pub open spec fn seen_before(values: Seq<Json>, i: int) -> bool {
    exists|k: int| 0 <= k < i && json_same(#[trigger] values[k], values[i])
}

/// How many of the first `n` values were there before.
pub open spec fn revisits(values: Seq<Json>, n: nat) -> nat
    decreases n,
{
    if n == 0 || n > values.len() {
        0
    } else {
        revisits(values, (n - 1) as nat) + if seen_before(values, n - 1) {
            1nat
        } else {
            0
        }
    }
}

/// Whether a field came back to earlier values so many times, out of at least so
/// many values.
pub open spec fn oscillates(
    shots: Seq<Json>,
    field: Seq<char>,
    least_values: nat,
    least_revisits: nat,
) -> bool {
    let values = values_of(shots, field, shots.len());
    values.len() >= least_values && revisits(values, values.len()) >= least_revisits
}

/// Those of the first `n` fields that oscillate.
pub open spec fn oscillating(
    shots: Seq<Json>,
    names: Seq<Seq<char>>,
    least_values: nat,
    least_revisits: nat,
    n: nat,
) -> Seq<Seq<char>>
    decreases n,
{
    if n == 0 || n > names.len() {
        Seq::empty()
    } else {
        let before = oscillating(shots, names, least_values, least_revisits, (n - 1) as nat);
        if oscillates(shots, names[n - 1], least_values, least_revisits) {
            before.push(names[n - 1])
        } else {
            before
        }
    }
}

/// The names of the fields that oscillate, in ascending order.
pub open spec fn oscillating_fields(
    shots: Seq<Json>,
    least_values: nat,
    least_revisits: nat,
) -> Seq<Seq<char>> {
    let names = field_names(shots, shots.len());
    sorted_texts(oscillating(shots, names, least_values, least_revisits, names.len()))
}

/// The values behind a list of references.
pub open spec fn shots_at(v: Seq<&Json>) -> Seq<Json> {
    v.map_values(|j: &Json| *j)
}

/// The fields of an entity that entries record.
fn take_snapshots<'a>(entries: &Vec<&'a JournalEntry>, entity_type: &str, entity_name: &str) -> (r:
    Vec<&'a Json>)
    ensures
        shots_at(r@) == snapshots(
            entries_at(entries@),
            entity_type@,
            entity_name@,
            entries@.len(),
        ),
{
    let ghost model = entries_at(entries@);
    let mut out: Vec<&'a Json> = Vec::new();
    let n: usize = entries.len();
    let mut i: usize = 0;
    assert(shots_at(out@) == Seq::<Json>::empty());
    while i < n
        invariant
            i <= n,
            n == entries@.len(),
            model == entries_at(entries@),
            shots_at(out@) == snapshots(model, entity_type@, entity_name@, i as nat),
        decreases n - i,
    {
        let entry = entries[i];
        assert(model[i as int] == *entry);
        let ghost before = out@;
        if let Some(s) = get_entity_state(
            entry.state_after.entities.as_slice(),
            entity_type,
            entity_name,
        ) {
            out.push(&s.fields);
            assert(shots_at(out@) == shots_at(before).push(s.fields));
        }
        i = i + 1;
    }
    out
}

/// The names of the fields in snapshots, each once.
fn list_fields(shots: &Vec<&Json>) -> (r: Vec<String>)
    ensures
        views(r@) == field_names(shots_at(shots@), shots@.len()),
{
    let ghost model = shots_at(shots@);
    let mut names: Vec<String> = Vec::new();
    let n: usize = shots.len();
    let mut i: usize = 0;
    assert(views(names@) == Seq::<Seq<char>>::empty());
    while i < n
        invariant
            i <= n,
            n == shots@.len(),
            model == shots_at(shots@),
            views(names@) == field_names(model, i as nat),
        decreases n - i,
    {
        let shot = shots[i];
        assert(model[i as int] == *shot);
        if let Json::Dict(fields) = shot {
            let ghost before = views(names@);
            let m: usize = fields.len();
            let mut k: usize = 0;
            while k < m
                invariant
                    k <= m,
                    m == fields@.len(),
                    views(names@) == with_keys(before, fields@, k as nat),
                decreases m - k,
            {
                if !has_string(names.as_slice(), fields[k].0.as_str()) {
                    push_text(&mut names, fields[k].0.clone());
                }
                k = k + 1;
            }
        }
        i = i + 1;
    }
    names
}

/// The values of a field in snapshots.
fn list_values<'a>(shots: &Vec<&'a Json>, field: &str) -> (r: Vec<&'a Json>)
    ensures
        shots_at(r@) == values_of(shots_at(shots@), field@, shots@.len()),
{
    let ghost model = shots_at(shots@);
    let mut out: Vec<&'a Json> = Vec::new();
    let n: usize = shots.len();
    let mut i: usize = 0;
    assert(shots_at(out@) == Seq::<Json>::empty());
    while i < n
        invariant
            i <= n,
            n == shots@.len(),
            model == shots_at(shots@),
            shots_at(out@) == values_of(model, field@, i as nat),
        decreases n - i,
    {
        let ghost before = out@;
        assert(model[i as int] == *shots@[i as int]);
        if let Some(v) = shots[i].get(field) {
            out.push(v);
            assert(shots_at(out@) == shots_at(before).push(*v));
        }
        i = i + 1;
    }
    out
}

/// How many values were there before.
fn count_revisits(values: &Vec<&Json>) -> (r: usize)
    ensures
        r == revisits(shots_at(values@), values@.len()),
{
    let ghost model = shots_at(values@);
    let mut count: usize = 0;
    let n: usize = values.len();
    let mut i: usize = 0;
    while i < n
        invariant
            i <= n,
            n == values@.len(),
            model == shots_at(values@),
            count <= i,
            count == revisits(model, i as nat),
        decreases n - i,
    {
        let mut seen = false;
        let mut k: usize = 0;
        while k < i && !seen
            invariant
                k <= i,
                i < n,
                n == values@.len(),
                model == shots_at(values@),
                seen ==> seen_before(model, i as int),
                !seen ==> forall|j: int|
                    0 <= j < k ==> !json_same(#[trigger] model[j], model[i as int]),
            decreases i - k,
        {
            assert(model[k as int] == *values@[k as int]);
            assert(model[i as int] == *values@[i as int]);
            if same_json(values[k], values[i]) {
                seen = true;
            }
            k = k + 1;
        }
        if seen {
            count = count + 1;
        }
        i = i + 1;
    }
    count
}

/// The names of the fields that oscillate, in ascending order.
fn find_oscillating(shots: &Vec<&Json>, least_values: usize, least_revisits: usize) -> (r: Vec<
    String,
>)
    ensures
        views(r@) == oscillating_fields(
            shots_at(shots@),
            least_values as nat,
            least_revisits as nat,
        ),
{
    let ghost model = shots_at(shots@);
    let names = list_fields(shots);
    let ghost all = views(names@);
    let mut found: Vec<String> = Vec::new();
    let n: usize = names.len();
    let mut i: usize = 0;
    assert(views(found@) == Seq::<Seq<char>>::empty());
    assert(model.len() == shots@.len());
    while i < n
        invariant
            i <= n,
            n == names@.len(),
            model == shots_at(shots@),
            all == views(names@),
            views(found@) == oscillating(
                model,
                all,
                least_values as nat,
                least_revisits as nat,
                i as nat,
            ),
        decreases n - i,
    {
        let values = list_values(shots, names[i].as_str());
        assert(shots_at(values@).len() == values@.len());
        let count: usize = count_revisits(&values);
        if values.len() >= least_values && count >= least_revisits {
            push_text(&mut found, names[i].clone());
        }
        i = i + 1;
    }
    sort_texts(found.as_slice())
}

// ── Recurring flaps ──────────────────────────────────────────────────────────

/// The finding that an entity keeps changing from outside.
pub open spec fn flaps_finding(
    changes: Seq<JournalEntry>,
    fields: Seq<Seq<char>>,
    entity_type: Seq<char>,
    name: Seq<char>,
    at: Timestamp,
) -> FindingView {
    let count = decimal(changes.len());
    let list = joined(fields, ", "@);
    FindingView {
        entity_name: name,
        entity_type,
        severity: Severity::Warning,
        pattern: PatternKind::RecurringFlaps,
        summary: count + " changes detected, oscillation on: "@ + list,
        details: seq![
            count + " external changes (seq "@ + decimal(changes[0].seq as nat) + " to "@ + decimal(
                changes.last().seq as nat,
            ) + ")"@,
            "Oscillating fields: "@ + list,
            "Time range: "@ + ago_text(changes[0].timestamp, at) + " to "@ + ago_text(
                changes.last().timestamp,
                at,
            ),
        ],
        suggested_actions: seq![
            "Investigate physical link stability"@,
            "Check upstream switch or conflicting automation"@,
        ],
        related_entries: seqs_of(changes),
    }
}

/// The findings on flaps: one where an entity was changed from outside more than
/// three times, and one of its fields came back to an earlier value.
pub open spec fn flaps_findings(
    entries: Seq<JournalEntry>,
    entity_type: Seq<char>,
    name: Seq<char>,
    at: Timestamp,
) -> Seq<FindingView> {
    let changes = picked_by_seq(entries, Pick::ExternalChange, entity_type, name);
    let shots = snapshots(changes, entity_type, name, changes.len());
    let fields = oscillating_fields(shots, 0, 1);
    if changes.len() <= 3 || fields.len() == 0 {
        Seq::empty()
    } else {
        seq![flaps_finding(changes, fields, entity_type, name, at)]
    }
}

/// Looks for an entity that keeps changing from outside.
pub fn detect_recurring_flaps(
    entries: &[JournalEntry],
    entity_type: &str,
    entity_name: &str,
    at: Timestamp,
) -> (r: Vec<Finding>)
    requires
        at.wf(),
        valid_times(entries@),
    ensures
        finding_views(r@) == flaps_findings(entries@, entity_type@, entity_name@, at),
{
    let changes = pick_by_seq(entries, Pick::ExternalChange, entity_type, entity_name);
    let ghost model = entries_at(changes@);
    let n: usize = changes.len();
    if n <= 3 {
        return none();
    }
    let shots = take_snapshots(&changes, entity_type, entity_name);
    let fields = find_oscillating(&shots, 0, 1);
    assert(views(fields@).len() == fields@.len());
    if fields.len() == 0 {
        return none();
    }
    proof {
        lemma_picked_times(entries@, Pick::ExternalChange, entity_type@, entity_name@);
        assert(model[0] == *changes@[0]);
        assert(model.last() == *changes@[n - 1]);
    }
    let count = decimal_text(n as u64);
    let list = join(fields.as_slice(), ", ");
    let first = changes[0];
    let last = changes[n - 1];
    let first_seq = decimal_text(first.seq);
    let last_seq = decimal_text(last.seq);
    let first_ago = relative_time_at(first.timestamp, at);
    let last_ago = relative_time_at(last.timestamp, at);
    one(
        Finding {
            entity_name: entity_name.to_owned(),
            entity_type: entity_type.to_owned(),
            severity: Severity::Warning,
            pattern: PatternKind::RecurringFlaps,
            summary: cat3(
                count.as_str(),
                " changes detected, oscillation on: ",
                list.as_str(),
            ),
            details: texts3(
                cat6(
                    count.as_str(),
                    " external changes (seq ",
                    first_seq.as_str(),
                    " to ",
                    last_seq.as_str(),
                    ")",
                ),
                cat2("Oscillating fields: ", list.as_str()),
                cat4("Time range: ", first_ago.as_str(), " to ", last_ago.as_str()),
            ),
            suggested_actions: texts2(
                "Investigate physical link stability".to_owned(),
                "Check upstream switch or conflicting automation".to_owned(),
            ),
            related_entries: seq_numbers(&changes),
        },
    )
}

// ── Failed applies ───────────────────────────────────────────────────────────

/// The finding that an apply had failures.
pub open spec fn failed_finding(
    entry: JournalEntry,
    entity_type: Seq<char>,
    name: Seq<char>,
) -> FindingView {
    let seq = decimal(entry.seq as nat);
    let (succeeded, failed, skipped) = match entry.outcome {
        ApplyOutcome::Applied { succeeded, failed, skipped } => (succeeded, failed, skipped),
        ApplyOutcome::Observed => (0, 0, 0),
    };
    FindingView {
        entity_name: name,
        entity_type,
        severity: Severity::Warning,
        pattern: PatternKind::FailedApply,
        summary: "Apply had "@ + decimal(failed as nat) + " failure(s) (seq "@ + seq + ")"@,
        details: seq![
            "Seq "@ + seq + ": "@ + decimal(succeeded as nat) + " succeeded, "@ + decimal(
                failed as nat,
            ) + " failed, "@ + decimal(skipped as nat) + " skipped"@,
        ],
        suggested_actions: seq![
            "Run `netfyr history --show "@ + seq + "` to inspect failure details"@,
        ],
        related_entries: seq![entry.seq],
    }
}

/// The findings on failed applies: one for each, in the order of the entries.
pub open spec fn failed_findings(
    entries: Seq<JournalEntry>,
    entity_type: Seq<char>,
    name: Seq<char>,
    n: nat,
) -> Seq<FindingView>
    decreases n,
{
    if n == 0 || n > entries.len() {
        Seq::empty()
    } else if picks(Pick::FailedApply, entries[n - 1], entity_type, name) {
        failed_findings(entries, entity_type, name, (n - 1) as nat).push(
            failed_finding(entries[n - 1], entity_type, name),
        )
    } else {
        failed_findings(entries, entity_type, name, (n - 1) as nat)
    }
}

/// Looks for applies on an entity that had failures.
pub fn detect_failed_apply(entries: &[JournalEntry], entity_type: &str, entity_name: &str) -> (r:
    Vec<Finding>)
    ensures
        finding_views(r@) == failed_findings(
            entries@,
            entity_type@,
            entity_name@,
            entries@.len(),
        ),
        forall|i: int, k: int|
            0 <= i < entries@.len() && 0 <= k < entries@[i].diff.operations@.len() && (
            #[trigger] entries@[i].diff.operations@[k]).entity_type@ == entity_type@
                && entries@[i].diff.operations@[k].entity_name@ == entity_name@ && (
            entries@[i].trigger is PolicyApply || entries@[i].trigger is DaemonStartup
                || entries@[i].trigger is Revert) && entries@[i].outcome is Applied
                && entries@[i].outcome->failed >= 1 ==> exists|j: int|
                0 <= j < r@.len() && (#[trigger] r@[j]).pattern == PatternKind::FailedApply
                    && r@[j].related_entries@ == seq![entries@[i].seq],
        forall|j: int|
            0 <= j < r@.len() ==> (#[trigger] r@[j]).pattern == PatternKind::FailedApply && exists|
                i: int,
            |
                0 <= i < entries@.len() && (#[trigger] entries@[i]).outcome is Applied
                    && entries@[i].outcome->failed >= 1 && (entries@[i].trigger is PolicyApply
                    || entries@[i].trigger is DaemonStartup || entries@[i].trigger is Revert)
                    && r@[j].related_entries@ == seq![entries@[i].seq],
{
    let mut out: Vec<Finding> = Vec::new();
    let n: usize = entries.len();
    let mut i: usize = 0;
    assert(finding_views(out@) == Seq::<FindingView>::empty());
    while i < n
        invariant
            i <= n,
            n == entries@.len(),
            finding_views(out@) == failed_findings(
                entries@,
                entity_type@,
                entity_name@,
                i as nat,
            ),
        decreases n - i,
    {
        let entry = &entries[i];
        if crate::diagnose::is_picked(Pick::FailedApply, entry, entity_type, entity_name) {
            let ghost before = out@;
            let (succeeded, failed, skipped): (u32, u32, u32) = match entry.outcome {
                ApplyOutcome::Applied { succeeded, failed, skipped } => (
                    succeeded,
                    failed,
                    skipped,
                ),
                ApplyOutcome::Observed => (0, 0, 0),
            };
            let seq = decimal_text(entry.seq);
            let ok = decimal_text(succeeded as u64);
            let bad = decimal_text(failed as u64);
            let left = decimal_text(skipped as u64);
            let mut detail = cat7(
                "Seq ",
                seq.as_str(),
                ": ",
                ok.as_str(),
                " succeeded, ",
                bad.as_str(),
                " failed, ",
            );
            detail.append(left.as_str());
            detail.append(" skipped");
            let mut related: Vec<u64> = Vec::new();
            related.push(entry.seq);
            let finding = Finding {
                entity_name: entity_name.to_owned(),
                entity_type: entity_type.to_owned(),
                severity: Severity::Warning,
                pattern: PatternKind::FailedApply,
                summary: cat5("Apply had ", bad.as_str(), " failure(s) (seq ", seq.as_str(), ")"),
                details: texts1(detail),
                suggested_actions: texts1(
                    cat3(
                        "Run `netfyr history --show ",
                        seq.as_str(),
                        "` to inspect failure details",
                    ),
                ),
                related_entries: related,
            };
            assert(finding@.related_entries == seq![entry.seq]);
            assert(finding@ == failed_finding(*entry, entity_type@, entity_name@));
            out.push(finding);
            assert(finding_views(out@) == finding_views(before).push(finding@));
        }
        i = i + 1;
    }
    proof {
        let model = failed_findings(entries@, entity_type@, entity_name@, entries@.len());
        only_failed_applies_are_reported(
            entries@,
            entity_type@,
            entity_name@,
            entries@.len(),
        );
        assert forall|j: int| 0 <= j < out@.len() implies #[trigger] out@[j]@ == model[j] by {
            assert(finding_views(out@)[j] == out@[j]@);
        }
        assert forall|i: int, k: int|
            0 <= i < entries@.len() && 0 <= k < entries@[i].diff.operations@.len() && (
            #[trigger] entries@[i].diff.operations@[k]).entity_type@ == entity_type@
                && entries@[i].diff.operations@[k].entity_name@ == entity_name@ && (
            entries@[i].trigger is PolicyApply || entries@[i].trigger is DaemonStartup
                || entries@[i].trigger is Revert) && entries@[i].outcome is Applied
                && entries@[i].outcome->failed >= 1 implies exists|j: int|
            0 <= j < out@.len() && (#[trigger] out@[j]).pattern == PatternKind::FailedApply
                && out@[j].related_entries@ == seq![entries@[i].seq] by {
            every_failed_apply_is_reported(entries@, entity_type@, entity_name@, i, k);
            let j = choose|j: int|
                0 <= j < model.len() && (#[trigger] model[j]).pattern == PatternKind::FailedApply
                    && model[j].related_entries == seq![entries@[i].seq];
            assert(out@[j]@ == model[j]);
        }
        assert forall|j: int| 0 <= j < out@.len() implies (#[trigger] out@[j]).pattern
            == PatternKind::FailedApply && exists|i: int|
            0 <= i < entries@.len() && (#[trigger] entries@[i]).outcome is Applied
                && entries@[i].outcome->failed >= 1 && (entries@[i].trigger is PolicyApply
                || entries@[i].trigger is DaemonStartup || entries@[i].trigger is Revert)
                && out@[j].related_entries@ == seq![entries@[i].seq] by {
            assert(out@[j]@ == model[j]);
            let i = choose|i: int|
                0 <= i < entries@.len() && (#[trigger] entries@[i]).outcome is Applied
                    && entries@[i].outcome->failed >= 1 && (entries@[i].trigger is PolicyApply
                    || entries@[i].trigger is DaemonStartup || entries@[i].trigger is Revert)
                    && model[j].related_entries == seq![entries@[i].seq];
            assert(entries@[i].outcome is Applied);
        }
    }
    out
}

// ── Policy conflicts ─────────────────────────────────────────────────────────

/// The finding that policies may be in conflict.
pub open spec fn conflict_finding(
    applies: Seq<JournalEntry>,
    fields: Seq<Seq<char>>,
    entity_type: Seq<char>,
    name: Seq<char>,
) -> FindingView {
    let list = joined(fields, ", "@);
    FindingView {
        entity_name: name,
        entity_type,
        severity: Severity::Warning,
        pattern: PatternKind::PolicyConflict,
        summary: "May have conflicting policies for fields: "@ + list,
        details: seq![
            "Field(s) "@ + list + " oscillated across "@ + decimal(applies.len())
                + " applies (heuristic detection)"@,
            "This may indicate overlapping policies setting the same field to different values"@,
        ],
        suggested_actions: seq![
            "Review overlapping policies and adjust priorities"@,
            "Run `netfyr history` to see the apply sequence"@,
        ],
        related_entries: seqs_of(applies),
    }
}

/// The findings on conflicts: one where an entity was applied at least three
/// times, and one of its fields, with at least three values, came back to an
/// earlier value at least twice.
pub open spec fn conflict_findings(
    entries: Seq<JournalEntry>,
    entity_type: Seq<char>,
    name: Seq<char>,
) -> Seq<FindingView> {
    let applies = picked_by_seq(entries, Pick::AppliedOp, entity_type, name);
    let shots = snapshots(applies, entity_type, name, applies.len());
    let fields = oscillating_fields(shots, 3, 2);
    if applies.len() < 3 || fields.len() == 0 {
        Seq::empty()
    } else {
        seq![conflict_finding(applies, fields, entity_type, name)]
    }
}

/// Looks for policies that may be in conflict over an entity.
pub fn detect_policy_conflict(entries: &[JournalEntry], entity_type: &str, entity_name: &str) -> (r:
    Vec<Finding>)
    ensures
        finding_views(r@) == conflict_findings(entries@, entity_type@, entity_name@),
{
    let applies = pick_by_seq(entries, Pick::AppliedOp, entity_type, entity_name);
    let n: usize = applies.len();
    if n < 3 {
        return none();
    }
    let shots = take_snapshots(&applies, entity_type, entity_name);
    let fields = find_oscillating(&shots, 3, 2);
    assert(views(fields@).len() == fields@.len());
    if fields.len() == 0 {
        return none();
    }
    let count = decimal_text(n as u64);
    let list = join(fields.as_slice(), ", ");
    one(
        Finding {
            entity_name: entity_name.to_owned(),
            entity_type: entity_type.to_owned(),
            severity: Severity::Warning,
            pattern: PatternKind::PolicyConflict,
            summary: cat2("May have conflicting policies for fields: ", list.as_str()),
            details: texts2(
                cat5(
                    "Field(s) ",
                    list.as_str(),
                    " oscillated across ",
                    count.as_str(),
                    " applies (heuristic detection)",
                ),
                "This may indicate overlapping policies setting the same field to different values".to_owned(),
            ),
            suggested_actions: texts2(
                "Review overlapping policies and adjust priorities".to_owned(),
                "Run `netfyr history` to see the apply sequence".to_owned(),
            ),
            related_entries: seq_numbers(&applies),
        },
    )
}

// ── No recent activity ───────────────────────────────────────────────────────

/// Whether an entry mentions an entity.
pub open spec fn mentioned(
    entries: Seq<JournalEntry>,
    entity_type: Seq<char>,
    name: Seq<char>,
) -> bool {
    exists|i: int|
        0 <= i < entries.len() && picks(Pick::Mention, #[trigger] entries[i], entity_type, name)
}

/// The findings on activity: one where no entry mentions the entity.
pub open spec fn idle_findings(
    entries: Seq<JournalEntry>,
    entity_type: Seq<char>,
    name: Seq<char>,
) -> Seq<FindingView> {
    if mentioned(entries, entity_type, name) {
        Seq::empty()
    } else {
        seq![
            FindingView {
                entity_name: name,
                entity_type,
                severity: Severity::Info,
                pattern: PatternKind::NoRecentActivity,
                summary: "No journal entries within the current time window"@,
                details: seq![
                    "This entity is managed but has no activity in the scan window"@,
                    "Use --since with a longer duration to see historical activity"@,
                ],
                suggested_actions: Seq::empty(),
                related_entries: Seq::empty(),
            },
        ]
    }
}

/// Looks for an entity that no entry mentions.
pub fn detect_no_recent_activity(
    entries: &[JournalEntry],
    entity_type: &str,
    entity_name: &str,
) -> (r: Vec<Finding>)
    ensures
        finding_views(r@) == idle_findings(entries@, entity_type@, entity_name@),
{
    let n: usize = entries.len();
    let mut i: usize = 0;
    while i < n
        invariant
            i <= n,
            n == entries@.len(),
            forall|k: int|
                0 <= k < i ==> !picks(
                    Pick::Mention,
                    #[trigger] entries@[k],
                    entity_type@,
                    entity_name@,
                ),
        decreases n - i,
    {
        if crate::diagnose::is_picked(Pick::Mention, &entries[i], entity_type, entity_name) {
            return none();
        }
        i = i + 1;
    }
    let actions: Vec<String> = Vec::new();
    let related: Vec<u64> = Vec::new();
    assert(views(actions@) == Seq::<Seq<char>>::empty());
    assert(related@ == Seq::<u64>::empty());
    one(
        Finding {
            entity_name: entity_name.to_owned(),
            entity_type: entity_type.to_owned(),
            severity: Severity::Info,
            pattern: PatternKind::NoRecentActivity,
            summary: "No journal entries within the current time window".to_owned(),
            details: texts2(
                "This entity is managed but has no activity in the scan window".to_owned(),
                "Use --since with a longer duration to see historical activity".to_owned(),
            ),
            suggested_actions: actions,
            related_entries: related,
        },
    )
}

// ── All of them ──────────────────────────────────────────────────────────────

/// All findings on an entity.
pub open spec fn all_findings(
    entries: Seq<JournalEntry>,
    current_state: Seq<SerializableState>,
    entity_type: Seq<char>,
    name: Seq<char>,
    last_applied: Option<&JournalEntry>,
    schema: FieldSchema,
    at: Timestamp,
) -> Seq<FindingView> {
    drift_findings(entries, current_state, entity_type, name, last_applied, schema, at)
        + carrier_findings(entries, current_state, entity_type, name, at) + lease_findings(
        entries,
        entity_type,
        name,
        at,
    ) + flaps_findings(entries, entity_type, name, at) + failed_findings(
        entries,
        entity_type,
        name,
        entries.len(),
    ) + conflict_findings(entries, entity_type, name) + idle_findings(entries, entity_type, name)
}

/// Appends findings.
fn extend(out: &mut Vec<Finding>, more: Vec<Finding>)
    ensures
        finding_views(final(out)@) == finding_views(old(out)@) + finding_views(more@),
{
    let mut rest = more;
    out.append(&mut rest);
    assert(finding_views(out@) == finding_views(old(out)@) + finding_views(more@));
}

/// Runs all detectors on an entity.
pub fn run_all_detectors(
    entries: &[JournalEntry],
    current_state: &[SerializableState],
    entity_type: &str,
    entity_name: &str,
    last_applied: Option<&JournalEntry>,
    schema: &FieldSchema,
    at: Timestamp,
) -> (r: Vec<Finding>)
    requires
        at.wf(),
        valid_times(entries@),
    ensures
        finding_views(r@) == all_findings(
            entries@,
            current_state@,
            entity_type@,
            entity_name@,
            last_applied,
            *schema,
            at,
        ),
{
    let mut findings = detect_configuration_drift(
        entries,
        current_state,
        entity_type,
        entity_name,
        last_applied,
        schema,
        at,
    );
    extend(
        &mut findings,
        detect_carrier_loss(entries, current_state, entity_type, entity_name, at),
    );
    extend(&mut findings, detect_dhcp_lease_lost(entries, entity_type, entity_name, at));
    extend(&mut findings, detect_recurring_flaps(entries, entity_type, entity_name, at));
    extend(&mut findings, detect_failed_apply(entries, entity_type, entity_name));
    extend(&mut findings, detect_policy_conflict(entries, entity_type, entity_name));
    extend(&mut findings, detect_no_recent_activity(entries, entity_type, entity_name));
    findings
}

// ── Laws ─────────────────────────────────────────────────────────────────────

/// Whether the system has a field otherwise than the policy wants it, or not at
/// all, and policies can write it.
pub open spec fn drifted(
    field: (String, Json),
    current: Json,
    schema: FieldSchema,
    entity_type: Seq<char>,
) -> bool {
    &&& !read_only(schema, entity_type, field.0@)
    &&& match member(current, field.0@) {
        None => true,
        Some(had) => !json_same(had, field.1),
    }
}

/// There is drift exactly where a field that policies can write is not as the
/// policy wants it: fields that only the system writes never count, and a system
/// that matches its policy has none.
pub proof fn drift_is_a_difference(
    desired: Seq<(String, Json)>,
    current: Json,
    schema: FieldSchema,
    entity_type: Seq<char>,
    n: nat,
)
    requires
        n <= desired.len(),
    ensures
        drift_details(desired, current, schema, entity_type, n).len() > 0 <==> exists|i: int|
            0 <= i < n && drifted(#[trigger] desired[i], current, schema, entity_type),
    decreases n,
{
    if n > 0 {
        drift_is_a_difference(desired, current, schema, entity_type, (n - 1) as nat);
        if drifted(desired[n - 1], current, schema, entity_type) {
            assert(drift_details(desired, current, schema, entity_type, n).len() > 0);
        } else {
            assert(drift_details(desired, current, schema, entity_type, n) == drift_details(
                desired,
                current,
                schema,
                entity_type,
                (n - 1) as nat,
            ));
        }
    }
}

/// What the position of a policy says.
proof fn lemma_position_found(events: Seq<JournalEntry>, policy: Seq<char>, from: int)
    requires
        0 <= from <= events.len(),
    ensures
        match policy_position(events, policy, from) {
            Some(i) => from <= i < events.len() && dhcp_policy(events[i]) == policy,
            None => forall|i: int|
                from <= i < events.len() ==> dhcp_policy(#[trigger] events[i]) != policy,
        },
    decreases events.len() - from,
{
    if from < events.len() && dhcp_policy(events[from]) != policy {
        lemma_position_found(events, policy, from + 1);
    }
}

/// Whether one of the first `n` events is the last one of its policy.
pub open spec fn is_last_event(events: Seq<JournalEntry>, m: int, n: nat) -> bool {
    &&& 0 <= m < n
    &&& forall|k: int|
        m < k < n ==> dhcp_policy(#[trigger] events[k]) != dhcp_policy(events[m])
}

/// Whether each of some events is the last one of its policy among the first `n`.
#[verifier::opaque]
pub open spec fn are_last(events: Seq<JournalEntry>, last: Seq<JournalEntry>, n: nat) -> bool {
    forall|j: int|
        0 <= j < last.len() ==> exists|m: int|
            #[trigger] is_last_event(events, m, n) && events[m] == #[trigger] last[j]
}

/// Whether every policy of the first `n` events has an event among some events.
#[verifier::opaque]
pub open spec fn covers_policies(
    events: Seq<JournalEntry>,
    last: Seq<JournalEntry>,
    n: nat,
) -> bool {
    forall|i: int|
        0 <= i < n ==> exists|j: int|
            0 <= j < last.len() && dhcp_policy(#[trigger] last[j]) == dhcp_policy(
                #[trigger] events[i],
            )
}

/// Whether events are of different policies.
pub open spec fn policies_differ(last: Seq<JournalEntry>) -> bool {
    forall|i: int, j: int|
        0 <= i < j < last.len() ==> dhcp_policy(#[trigger] last[i]) != dhcp_policy(
            #[trigger] last[j],
        )
}

/// The last events stay so when one more event takes its place at `at`.
proof fn lemma_still_last(
    events: Seq<JournalEntry>,
    before: Seq<JournalEntry>,
    all: Seq<JournalEntry>,
    at: int,
    n: nat,
)
    requires
        0 < n <= events.len(),
        are_last(events, before, (n - 1) as nat),
        0 <= at < all.len(),
        all[at] == events[n - 1],
        forall|j: int|
            0 <= j < all.len() && j != at ==> j < before.len() && #[trigger] all[j] == before[j]
                && dhcp_policy(before[j]) != dhcp_policy(events[n - 1]),
    ensures
        are_last(events, all, n),
{
    reveal(are_last);
    assert forall|j: int| 0 <= j < all.len() implies exists|m: int|
        #[trigger] is_last_event(events, m, n) && events[m] == #[trigger] all[j] by {
        if j == at {
            assert(is_last_event(events, n - 1, n));
        } else {
            let old_event = before[j];
            assert(all[j] == old_event);
            let m = choose|m: int|
                #[trigger] is_last_event(events, m, (n - 1) as nat) && events[m] == old_event;
            assert(is_last_event(events, m, n));
        }
    }
}

/// Every policy stays covered when one more event takes its place at `at`.
proof fn lemma_still_covered(
    events: Seq<JournalEntry>,
    before: Seq<JournalEntry>,
    all: Seq<JournalEntry>,
    at: int,
    n: nat,
)
    requires
        0 < n <= events.len(),
        covers_policies(events, before, (n - 1) as nat),
        0 <= at < all.len(),
        all[at] == events[n - 1],
        before.len() <= all.len(),
        forall|j: int| 0 <= j < before.len() && j != at ==> #[trigger] all[j] == before[j],
        at < before.len() ==> dhcp_policy(before[at]) == dhcp_policy(events[n - 1]),
    ensures
        covers_policies(events, all, n),
{
    reveal(covers_policies);
    assert forall|i: int| 0 <= i < n implies exists|j: int|
        0 <= j < all.len() && dhcp_policy(#[trigger] all[j]) == dhcp_policy(
            #[trigger] events[i],
        ) by {
        if dhcp_policy(events[i]) == dhcp_policy(events[n - 1]) {
            assert(dhcp_policy(all[at]) == dhcp_policy(events[i]));
        } else {
            let j = choose|j: int|
                0 <= j < before.len() && dhcp_policy(#[trigger] before[j]) == dhcp_policy(
                    events[i],
                );
            assert(all[j] == before[j]);
        }
    }
}

/// Events stay of different policies when one more event takes its place at `at`.
proof fn lemma_still_differ(
    before: Seq<JournalEntry>,
    all: Seq<JournalEntry>,
    at: int,
    event: JournalEntry,
)
    requires
        policies_differ(before),
        0 <= at < all.len(),
        all[at] == event,
        forall|j: int|
            0 <= j < all.len() && j != at ==> j < before.len() && #[trigger] all[j] == before[j]
                && dhcp_policy(before[j]) != dhcp_policy(event),
    ensures
        policies_differ(all),
{
    assert forall|i: int, j: int| 0 <= i < j < all.len() implies dhcp_policy(#[trigger] all[i])
        != dhcp_policy(#[trigger] all[j]) by {
        if i != at && j != at {
            assert(all[i] == before[i] && all[j] == before[j]);
            assert(dhcp_policy(before[i]) != dhcp_policy(before[j]));
        }
    }
}

/// No other event is of the policy of the one at `at`, where all are of different
/// policies.
proof fn lemma_others_differ(before: Seq<JournalEntry>, at: int, policy: Seq<char>)
    requires
        policies_differ(before),
        0 <= at < before.len(),
        dhcp_policy(before[at]) == policy,
    ensures
        forall|j: int| 0 <= j < before.len() && j != at ==> dhcp_policy(#[trigger] before[j]) != policy,
{
    assert forall|j: int| 0 <= j < before.len() && j != at implies dhcp_policy(
        #[trigger] before[j],
    ) != policy by {
        if j < at {
            assert(dhcp_policy(before[j]) != dhcp_policy(before[at]));
        } else {
            assert(dhcp_policy(before[at]) != dhcp_policy(before[j]));
        }
    }
}

/// The last event of a policy decides whether its lease was lost: of each policy
/// only its last event counts, and of every policy that has events it does.
pub proof fn last_event_decides(events: Seq<JournalEntry>, n: nat)
    requires
        n <= events.len(),
    ensures
        are_last(events, last_events(events, n), n),
        covers_policies(events, last_events(events, n), n),
        policies_differ(last_events(events, n)),
    decreases n,
{
    if n > 0 {
        let before = last_events(events, (n - 1) as nat);
        let all = last_events(events, n);
        let event = events[n - 1];
        let policy = dhcp_policy(event);
        last_event_decides(events, (n - 1) as nat);
        lemma_position_found(before, policy, 0);
        let at: int = match policy_position(before, policy, 0) {
            Some(i) => i,
            None => before.len() as int,
        };
        if at < before.len() {
            lemma_others_differ(before, at, policy);
        }
        lemma_still_last(events, before, all, at, n);
        lemma_still_covered(events, before, all, at, n);
        lemma_still_differ(before, all, at, event);
    } else {
        reveal(are_last);
        reveal(covers_policies);
    }
}

/// Each of the last events is the last one of its policy.
proof fn lemma_one_is_last(
    events: Seq<JournalEntry>,
    last: Seq<JournalEntry>,
    n: nat,
    j: int,
) -> (m: int)
    requires
        are_last(events, last, n),
        0 <= j < last.len(),
    ensures
        is_last_event(events, m, n),
        events[m] == last[j],
{
    reveal(are_last);
    choose|m: int| #[trigger] is_last_event(events, m, n) && events[m] == last[j]
}

/// The policy of each event has one of the last events.
proof fn lemma_one_is_covered(
    events: Seq<JournalEntry>,
    last: Seq<JournalEntry>,
    n: nat,
    i: int,
) -> (j: int)
    requires
        covers_policies(events, last, n),
        0 <= i < n,
    ensures
        0 <= j < last.len(),
        dhcp_policy(last[j]) == dhcp_policy(events[i]),
{
    reveal(covers_policies);
    let policy = dhcp_policy(events[i]);
    choose|j: int| 0 <= j < last.len() && dhcp_policy(#[trigger] last[j]) == policy
}

/// The drift of some fields and others behind them is that of the first, then
/// that of the others.
pub proof fn drift_of_parts(
    a: Seq<(String, Json)>,
    b: Seq<(String, Json)>,
    current: Json,
    schema: FieldSchema,
    entity_type: Seq<char>,
)
    ensures
        drift_details(a + b, current, schema, entity_type, (a + b).len()) == drift_details(a, current, schema, entity_type, a.len()) + drift_details(b, current, schema, entity_type, b.len()),
{
    lemma_drift_of_parts(a, b, current, schema, entity_type, b.len());
}

/// The first elements give the same whatever stands behind them.
proof fn lemma_drift_of_parts_start(
    a: Seq<(String, Json)>,
    b: Seq<(String, Json)>,
    current: Json,
    schema: FieldSchema,
    entity_type: Seq<char>,
    n: nat,
)
    requires
        n <= a.len(),
    ensures
        drift_details(a + b, current, schema, entity_type, n) == drift_details(a, current, schema, entity_type, n),
    decreases n,
{
    if n > 0 {
        lemma_drift_of_parts_start(a, b, current, schema, entity_type, (n - 1) as nat);
        assert((a + b)[n - 1] == a[n - 1]);
    }
}

/// The first `m` elements of the second part follow all of the first part.
proof fn lemma_drift_of_parts(
    a: Seq<(String, Json)>,
    b: Seq<(String, Json)>,
    current: Json,
    schema: FieldSchema,
    entity_type: Seq<char>,
    m: nat,
)
    requires
        m <= b.len(),
    ensures
        drift_details(a + b, current, schema, entity_type, a.len() + m) == drift_details(a, current, schema, entity_type, a.len()) + drift_details(b, current, schema, entity_type, m),
    decreases m,
{
    if m == 0 {
        lemma_drift_of_parts_start(a, b, current, schema, entity_type, a.len());
    } else {
        lemma_drift_of_parts(a, b, current, schema, entity_type, (m - 1) as nat);
        assert((a + b)[a.len() + m - 1] == b[m - 1]);
    }
}

/// The lost leases of some last events and others behind them are those of the
/// first, then those of the others.
pub proof fn leases_of_parts(
    a: Seq<JournalEntry>,
    b: Seq<JournalEntry>,
    entity_type: Seq<char>,
    name: Seq<char>,
    at: Timestamp,
)
    ensures
        lease_findings_in(a + b, entity_type, name, at, (a + b).len()) == lease_findings_in(a, entity_type, name, at, a.len()) + lease_findings_in(b, entity_type, name, at, b.len()),
{
    lemma_leases_of_parts(a, b, entity_type, name, at, b.len());
}

/// The first elements give the same whatever stands behind them.
proof fn lemma_leases_of_parts_start(
    a: Seq<JournalEntry>,
    b: Seq<JournalEntry>,
    entity_type: Seq<char>,
    name: Seq<char>,
    at: Timestamp,
    n: nat,
)
    requires
        n <= a.len(),
    ensures
        lease_findings_in(a + b, entity_type, name, at, n) == lease_findings_in(a, entity_type, name, at, n),
    decreases n,
{
    if n > 0 {
        lemma_leases_of_parts_start(a, b, entity_type, name, at, (n - 1) as nat);
        assert((a + b)[n - 1] == a[n - 1]);
    }
}

/// The first `m` elements of the second part follow all of the first part.
proof fn lemma_leases_of_parts(
    a: Seq<JournalEntry>,
    b: Seq<JournalEntry>,
    entity_type: Seq<char>,
    name: Seq<char>,
    at: Timestamp,
    m: nat,
)
    requires
        m <= b.len(),
    ensures
        lease_findings_in(a + b, entity_type, name, at, a.len() + m) == lease_findings_in(a, entity_type, name, at, a.len()) + lease_findings_in(b, entity_type, name, at, m),
    decreases m,
{
    if m == 0 {
        lemma_leases_of_parts_start(a, b, entity_type, name, at, a.len());
    } else {
        lemma_leases_of_parts(a, b, entity_type, name, at, (m - 1) as nat);
        assert((a + b)[a.len() + m - 1] == b[m - 1]);
    }
}

/// The snapshots that some entries hold and others behind them are those of
/// the first, then those of the others.
pub proof fn snapshots_of_parts(
    a: Seq<JournalEntry>,
    b: Seq<JournalEntry>,
    entity_type: Seq<char>,
    name: Seq<char>,
)
    ensures
        snapshots(a + b, entity_type, name, (a + b).len()) == snapshots(a, entity_type, name, a.len()) + snapshots(b, entity_type, name, b.len()),
{
    lemma_snapshots_of_parts(a, b, entity_type, name, b.len());
}

/// The first elements give the same whatever stands behind them.
proof fn lemma_snapshots_of_parts_start(
    a: Seq<JournalEntry>,
    b: Seq<JournalEntry>,
    entity_type: Seq<char>,
    name: Seq<char>,
    n: nat,
)
    requires
        n <= a.len(),
    ensures
        snapshots(a + b, entity_type, name, n) == snapshots(a, entity_type, name, n),
    decreases n,
{
    if n > 0 {
        lemma_snapshots_of_parts_start(a, b, entity_type, name, (n - 1) as nat);
        assert((a + b)[n - 1] == a[n - 1]);
    }
}

/// The first `m` elements of the second part follow all of the first part.
proof fn lemma_snapshots_of_parts(
    a: Seq<JournalEntry>,
    b: Seq<JournalEntry>,
    entity_type: Seq<char>,
    name: Seq<char>,
    m: nat,
)
    requires
        m <= b.len(),
    ensures
        snapshots(a + b, entity_type, name, a.len() + m) == snapshots(a, entity_type, name, a.len()) + snapshots(b, entity_type, name, m),
    decreases m,
{
    if m == 0 {
        lemma_snapshots_of_parts_start(a, b, entity_type, name, a.len());
    } else {
        lemma_snapshots_of_parts(a, b, entity_type, name, (m - 1) as nat);
        assert((a + b)[a.len() + m - 1] == b[m - 1]);
    }
}

/// The values of a field in some snapshots and others behind them are those in
/// the first, then those in the others.
pub proof fn values_of_parts(
    a: Seq<Json>,
    b: Seq<Json>,
    field: Seq<char>,
)
    ensures
        values_of(a + b, field, (a + b).len()) == values_of(a, field, a.len()) + values_of(b, field, b.len()),
{
    lemma_values_of_parts(a, b, field, b.len());
}

/// The first elements give the same whatever stands behind them.
proof fn lemma_values_of_parts_start(
    a: Seq<Json>,
    b: Seq<Json>,
    field: Seq<char>,
    n: nat,
)
    requires
        n <= a.len(),
    ensures
        values_of(a + b, field, n) == values_of(a, field, n),
    decreases n,
{
    if n > 0 {
        lemma_values_of_parts_start(a, b, field, (n - 1) as nat);
        assert((a + b)[n - 1] == a[n - 1]);
    }
}

/// The first `m` elements of the second part follow all of the first part.
proof fn lemma_values_of_parts(
    a: Seq<Json>,
    b: Seq<Json>,
    field: Seq<char>,
    m: nat,
)
    requires
        m <= b.len(),
    ensures
        values_of(a + b, field, a.len() + m) == values_of(a, field, a.len()) + values_of(b, field, m),
    decreases m,
{
    if m == 0 {
        lemma_values_of_parts_start(a, b, field, a.len());
    } else {
        lemma_values_of_parts(a, b, field, (m - 1) as nat);
        assert((a + b)[a.len() + m - 1] == b[m - 1]);
    }
}

/// The fields that oscillate among some and others behind them are those among
/// the first, then those among the others.
pub proof fn oscillating_of_parts(
    shots: Seq<Json>,
    a: Seq<Seq<char>>,
    b: Seq<Seq<char>>,
    least_values: nat,
    least_revisits: nat,
)
    ensures
        oscillating(shots, a + b, least_values, least_revisits, (a + b).len()) == oscillating(shots, a, least_values, least_revisits, a.len()) + oscillating(shots, b, least_values, least_revisits, b.len()),
{
    lemma_oscillating_of_parts(shots, a, b, least_values, least_revisits, b.len());
}

/// The first elements give the same whatever stands behind them.
proof fn lemma_oscillating_of_parts_start(
    shots: Seq<Json>,
    a: Seq<Seq<char>>,
    b: Seq<Seq<char>>,
    least_values: nat,
    least_revisits: nat,
    n: nat,
)
    requires
        n <= a.len(),
    ensures
        oscillating(shots, a + b, least_values, least_revisits, n) == oscillating(shots, a, least_values, least_revisits, n),
    decreases n,
{
    if n > 0 {
        lemma_oscillating_of_parts_start(shots, a, b, least_values, least_revisits, (n - 1) as nat);
        assert((a + b)[n - 1] == a[n - 1]);
    }
}

/// The first `m` elements of the second part follow all of the first part.
proof fn lemma_oscillating_of_parts(
    shots: Seq<Json>,
    a: Seq<Seq<char>>,
    b: Seq<Seq<char>>,
    least_values: nat,
    least_revisits: nat,
    m: nat,
)
    requires
        m <= b.len(),
    ensures
        oscillating(shots, a + b, least_values, least_revisits, a.len() + m) == oscillating(shots, a, least_values, least_revisits, a.len()) + oscillating(shots, b, least_values, least_revisits, m),
    decreases m,
{
    if m == 0 {
        lemma_oscillating_of_parts_start(shots, a, b, least_values, least_revisits, a.len());
    } else {
        lemma_oscillating_of_parts(shots, a, b, least_values, least_revisits, (m - 1) as nat);
        assert((a + b)[a.len() + m - 1] == b[m - 1]);
    }
}

/// The failed applies among some entries and others behind them are those
/// among the first, then those among the others.
pub proof fn failed_applies_of_parts(
    a: Seq<JournalEntry>,
    b: Seq<JournalEntry>,
    entity_type: Seq<char>,
    name: Seq<char>,
)
    ensures
        failed_findings(a + b, entity_type, name, (a + b).len()) == failed_findings(a, entity_type, name, a.len()) + failed_findings(b, entity_type, name, b.len()),
{
    lemma_failed_applies_of_parts(a, b, entity_type, name, b.len());
}

/// The first elements give the same whatever stands behind them.
proof fn lemma_failed_applies_of_parts_start(
    a: Seq<JournalEntry>,
    b: Seq<JournalEntry>,
    entity_type: Seq<char>,
    name: Seq<char>,
    n: nat,
)
    requires
        n <= a.len(),
    ensures
        failed_findings(a + b, entity_type, name, n) == failed_findings(a, entity_type, name, n),
    decreases n,
{
    if n > 0 {
        lemma_failed_applies_of_parts_start(a, b, entity_type, name, (n - 1) as nat);
        assert((a + b)[n - 1] == a[n - 1]);
    }
}

/// The first `m` elements of the second part follow all of the first part.
proof fn lemma_failed_applies_of_parts(
    a: Seq<JournalEntry>,
    b: Seq<JournalEntry>,
    entity_type: Seq<char>,
    name: Seq<char>,
    m: nat,
)
    requires
        m <= b.len(),
    ensures
        failed_findings(a + b, entity_type, name, a.len() + m) == failed_findings(a, entity_type, name, a.len()) + failed_findings(b, entity_type, name, m),
    decreases m,
{
    if m == 0 {
        lemma_failed_applies_of_parts_start(a, b, entity_type, name, a.len());
    } else {
        lemma_failed_applies_of_parts(a, b, entity_type, name, (m - 1) as nat);
        assert((a + b)[a.len() + m - 1] == b[m - 1]);
    }
}

/// An apply, a start of the daemon or a revert with an operation on an entity and
/// at least one failure is one finding, which counts the failures and names the
/// entry; any other entry is none.
pub proof fn failed_apply_of_one(entry: JournalEntry, entity_type: Seq<char>, name: Seq<char>)
    ensures
        ({
            let found = failed_findings(seq![entry], entity_type, name, 1);
            let ops = entry.diff.operations@;
            let kind = entry.trigger is PolicyApply || entry.trigger is DaemonStartup
                || entry.trigger is Revert;
            let on_entity = exists|k: int|
                0 <= k < ops.len() && (#[trigger] ops[k]).entity_type@ == entity_type
                    && ops[k].entity_name@ == name;
            let number = decimal(entry.seq as nat);
            match entry.outcome {
                ApplyOutcome::Applied { succeeded, failed, skipped } => {
                    &&& kind && on_entity && failed >= 1 ==> {
                        &&& found.len() == 1
                        &&& found[0].entity_name == name
                        &&& found[0].entity_type == entity_type
                        &&& found[0].severity == Severity::Warning
                        &&& found[0].pattern == PatternKind::FailedApply
                        &&& found[0].summary == "Apply had "@ + decimal(failed as nat)
                            + " failure(s) (seq "@ + number + ")"@
                        &&& found[0].details == seq![
                            "Seq "@ + number + ": "@ + decimal(succeeded as nat) + " succeeded, "@
                                + decimal(failed as nat) + " failed, "@ + decimal(skipped as nat)
                                + " skipped"@,
                        ]
                        &&& found[0].suggested_actions == seq![
                            "Run `netfyr history --show "@ + number
                                + "` to inspect failure details"@,
                        ]
                        &&& found[0].related_entries == seq![entry.seq]
                    }
                    &&& !kind || !on_entity || failed == 0 ==> found.len() == 0
                },
                ApplyOutcome::Observed => found.len() == 0,
            }
        }),
{
    entries_matter(entry, entity_type, name);
    assert(failed_findings(seq![entry], entity_type, name, 0) == Seq::<FindingView>::empty());
}

/// Every apply, start of the daemon or revert with an operation on an entity and at
/// least one failure is reported, wherever it stands in the journal.
pub proof fn every_failed_apply_is_reported(
    entries: Seq<JournalEntry>,
    entity_type: Seq<char>,
    name: Seq<char>,
    i: int,
    k: int,
)
    requires
        0 <= i < entries.len(),
        entries[i].trigger is PolicyApply || entries[i].trigger is DaemonStartup
            || entries[i].trigger is Revert,
        entries[i].outcome is Applied,
        entries[i].outcome->failed >= 1,
        0 <= k < entries[i].diff.operations@.len(),
        entries[i].diff.operations@[k].entity_type@ == entity_type,
        entries[i].diff.operations@[k].entity_name@ == name,
    ensures
        exists|j: int|
            0 <= j < failed_findings(entries, entity_type, name, entries.len()).len() && (
            #[trigger] failed_findings(entries, entity_type, name, entries.len())[j]).pattern
                == PatternKind::FailedApply && failed_findings(
                entries,
                entity_type,
                name,
                entries.len(),
            )[j].related_entries == seq![entries[i].seq],
{
    let (a, b, c) = (entries.take(i), seq![entries[i]], entries.skip(i + 1));
    failed_apply_of_one(entries[i], entity_type, name);
    let found = failed_findings(b, entity_type, name, 1);
    assert(found.contains(found[0]));
    lemma_parted(entries, i);
    failed_applies_of_parts(a + b, c, entity_type, name);
    failed_applies_of_parts(a, b, entity_type, name);
    lemma_middle_holds(
        failed_findings(a, entity_type, name, a.len()),
        found,
        failed_findings(c, entity_type, name, c.len()),
        found[0],
    );
    let all = failed_findings(entries, entity_type, name, entries.len());
    let j = all.index_of(found[0]);
    assert(all[j] == found[0]);
}

/// Nothing but failed applies on the entity is reported as such.
pub proof fn only_failed_applies_are_reported(
    entries: Seq<JournalEntry>,
    entity_type: Seq<char>,
    name: Seq<char>,
    n: nat,
)
    requires
        n <= entries.len(),
    ensures
        forall|j: int|
            0 <= j < failed_findings(entries, entity_type, name, n).len() ==> (
            #[trigger] failed_findings(entries, entity_type, name, n)[j]).pattern
                == PatternKind::FailedApply && exists|i: int|
                0 <= i < n && (#[trigger] entries[i]).outcome is Applied
                    && entries[i].outcome->failed >= 1 && (entries[i].trigger is PolicyApply
                    || entries[i].trigger is DaemonStartup || entries[i].trigger is Revert)
                    && failed_findings(entries, entity_type, name, n)[j].related_entries
                    == seq![entries[i].seq],
    decreases n,
{
    if n > 0 {
        let m = (n - 1) as nat;
        only_failed_applies_are_reported(entries, entity_type, name, m);
        let before = failed_findings(entries, entity_type, name, m);
        let all = failed_findings(entries, entity_type, name, n);
        assert forall|j: int| 0 <= j < all.len() implies (#[trigger] all[j]).pattern
            == PatternKind::FailedApply && exists|i: int|
            0 <= i < n && (#[trigger] entries[i]).outcome is Applied && entries[i].outcome->failed
                >= 1 && (entries[i].trigger is PolicyApply || entries[i].trigger is DaemonStartup
                || entries[i].trigger is Revert) && all[j].related_entries
                == seq![entries[i].seq] by {
            if j < before.len() {
                assert(all[j] == before[j]);
                let i = choose|i: int|
                    0 <= i < m && (#[trigger] entries[i]).outcome is Applied
                        && entries[i].outcome->failed >= 1 && (entries[i].trigger is PolicyApply
                        || entries[i].trigger is DaemonStartup || entries[i].trigger is Revert)
                        && before[j].related_entries == seq![entries[i].seq];
                assert(entries[i].outcome is Applied);
            } else {
                assert(entries[n - 1].outcome is Applied);
            }
        }
    }
}

/// The drift of one field: a field that policies cannot write is never told of; any
/// other is, with what the policy wants, where the system lacks it or has another
/// value.
pub proof fn drift_of_one(
    field: (String, Json),
    current: Json,
    schema: FieldSchema,
    entity_type: Seq<char>,
)
    ensures
        ({
            let told = drift_details(seq![field], current, schema, entity_type, 1);
            let key = field.0@;
            let fixed = exists|i: int|
                0 <= i < schema.read_only@.len() && (#[trigger] schema.read_only@[i]).0@
                    == entity_type && schema.read_only@[i].1@ == key;
            let had = member(current, key);
            &&& fixed ==> told.len() == 0
            &&& !fixed && had is None ==> told == seq![
                "Policy wants "@ + key + "="@ + compact(field.1) + ", system has no value"@,
            ]
            &&& !fixed && had is Some && json_same(had->0, field.1) ==> told.len() == 0
            &&& !fixed && had is Some && !json_same(had->0, field.1) ==> told == seq![
                "Policy wants "@ + key + "="@ + compact(field.1) + ", system has "@ + key + "="@
                    + compact(had->0),
            ]
        }),
{
    assert(drift_details(seq![field], current, schema, entity_type, 0)
        == Seq::<Seq<char>>::empty());
}

/// Drift is reported exactly where the last apply and the system both have a state
/// of the entity and a field drifted. The finding tells of every field that did,
/// and names the last apply, and the external change of the entity where there was
/// one.
pub proof fn drift_is_reported(
    entries: Seq<JournalEntry>,
    current_state: Seq<SerializableState>,
    entity_type: Seq<char>,
    name: Seq<char>,
    last: &JournalEntry,
    schema: FieldSchema,
    at: Timestamp,
)
    ensures
        ({
            let found = drift_findings(
                entries,
                current_state,
                entity_type,
                name,
                Some(last),
                schema,
                at,
            );
            let wanted = state_of(last.state_after.entities@, entity_type, name);
            let had = state_of(current_state, entity_type, name);
            &&& wanted is None || had is None ==> found.len() == 0
            &&& wanted is Some && had is Some && wanted->0.fields is Dict && had->0.fields is Dict
                ==> {
                let fields = wanted->0.fields->Dict_0@;
                let told = drift_details(
                    fields,
                    had->0.fields,
                    schema,
                    entity_type,
                    fields.len(),
                );
                let change = latest(entries, Pick::ExternalChange, entity_type, name);
                &&& told.len() == 0 ==> found.len() == 0
                &&& told.len() > 0 ==> {
                    &&& found.len() == 1
                    &&& found[0].entity_name == name
                    &&& found[0].entity_type == entity_type
                    &&& found[0].severity == Severity::Warning
                    &&& found[0].pattern == PatternKind::ConfigurationDrift
                    &&& found[0].summary == told[0]
                    &&& found[0].related_entries.contains(last.seq)
                    &&& change is None ==> found[0].details == told && found[0].related_entries
                        == seq![last.seq]
                    &&& change is Some ==> found[0].details == told.push(
                        "Changed externally "@ + ago_text(change->0.timestamp, at) + " (seq "@
                            + decimal(change->0.seq as nat) + ")"@,
                    ) && found[0].related_entries.contains(change->0.seq)
                    &&& found[0].suggested_actions == seq![
                        "Run `netfyr apply` to re-converge"@,
                        "Or `netfyr revert "@ + decimal(last.seq as nat)
                            + "` to restore last applied state"@,
                    ]
                }
            }
        }),
        drift_findings(entries, current_state, entity_type, name, None, schema, at).len() == 0,
{
    let change = latest(entries, Pick::ExternalChange, entity_type, name);
    let numbers = one_or_two(
        last.seq,
        match change {
            Some(e) => Some(e.seq),
            None => None,
        },
    );
    match change {
        None => {
            assert(numbers[0] == last.seq);
        },
        Some(e) => {
            if last.seq <= e.seq {
                assert(numbers[0] == last.seq);
                assert(numbers.last() == e.seq);
            } else {
                assert(numbers[1] == last.seq);
                assert(numbers[0] == e.seq);
            }
        },
    }
}

/// A lost carrier is reported exactly where the current state of the entity has no
/// carrier, as critical. The finding names the latest entry that records a carrier
/// where that records none, and no entry else.
pub proof fn carrier_loss_is_reported(
    entries: Seq<JournalEntry>,
    current_state: Seq<SerializableState>,
    entity_type: Seq<char>,
    name: Seq<char>,
    at: Timestamp,
)
    ensures
        ({
            let found = carrier_findings(entries, current_state, entity_type, name, at);
            let state = state_of(current_state, entity_type, name);
            let lost = state is Some && member(state->0.fields, "carrier"@) == Some(
                Json::Bool(false),
            );
            let recorded = latest(entries, Pick::Carrier, entity_type, name);
            let then = state_of(recorded->0.state_after.entities@, entity_type, name);
            let since = recorded is Some && then is Some && member(then->0.fields, "carrier"@)
                == Some(Json::Bool(false));
            &&& !lost ==> found.len() == 0
            &&& lost ==> {
                &&& found.len() == 1
                &&& found[0].entity_name == name
                &&& found[0].entity_type == entity_type
                &&& found[0].severity == Severity::Critical
                &&& found[0].pattern == PatternKind::CarrierLoss
                &&& found[0].summary == "Interface "@ + name + " has no carrier"@
                &&& since ==> found[0].related_entries == seq![recorded->0.seq]
                    && found[0].details[0] == "Carrier lost "@ + ago_text(
                    recorded->0.timestamp,
                    at,
                ) + " (seq "@ + decimal(recorded->0.seq as nat) + ")"@
                &&& !since ==> found[0].related_entries.len() == 0 && found[0].details[0]
                    == "No carrier detected; loss predates the current scan window"@
            }
        }),
{
}

/// An event of DHCP that neither acquired nor renewed a lease is one finding, as
/// critical, which names the policy and the entry; one that did is none.
pub proof fn lease_of_one(
    entry: JournalEntry,
    entity_type: Seq<char>,
    name: Seq<char>,
    at: Timestamp,
)
    requires
        entry.trigger is DhcpEvent,
    ensures
        ({
            let found = lease_findings_in(seq![entry], entity_type, name, at, 1);
            let kind = entry.trigger->event_kind@;
            let policy = entry.trigger->policy_name@;
            let kept = occurs_in(kind, "acquire"@) || occurs_in(kind, "renew"@);
            &&& dhcp_policy(entry) == policy
            &&& kept ==> found.len() == 0
            &&& !kept ==> {
                &&& found.len() == 1
                &&& found[0].entity_name == name
                &&& found[0].entity_type == entity_type
                &&& found[0].severity == Severity::Critical
                &&& found[0].pattern == PatternKind::DhcpLeaseLost
                &&& found[0].summary == "DHCP lease expired "@ + ago_text(entry.timestamp, at)
                    + " ago (policy: "@ + policy + ")"@
                &&& found[0].related_entries == seq![entry.seq]
            }
        }),
{
    assert(lease_findings_in(seq![entry], entity_type, name, at, 0)
        == Seq::<FindingView>::empty());
}

/// Of the events of a policy exactly the last one is kept.
pub proof fn last_event_is_kept(events: Seq<JournalEntry>, m: int)
    requires
        0 <= m < events.len(),
    ensures
        (forall|k: int|
            m < k < events.len() ==> dhcp_policy(#[trigger] events[k]) != dhcp_policy(events[m]))
            ==> last_events(events, events.len()).contains(events[m]),
        forall|j: int|
            0 <= j < last_events(events, events.len()).len() ==> events.contains(
                #[trigger] last_events(events, events.len())[j],
            ),
{
    let n = events.len();
    let last = last_events(events, n);
    last_event_decides(events, n);
    if forall|k: int| m < k < n ==> dhcp_policy(#[trigger] events[k]) != dhcp_policy(events[m]) {
        let j = lemma_one_is_covered(events, last, n, m);
        let l = lemma_one_is_last(events, last, n, j);
        if l < m {
            assert(dhcp_policy(events[m]) != dhcp_policy(events[l]));
        } else if l > m {
            assert(dhcp_policy(events[l]) != dhcp_policy(events[m]));
        }
        assert(last[j] == events[m]);
    }
    assert forall|j: int| 0 <= j < last.len() implies events.contains(#[trigger] last[j]) by {
        let l = lemma_one_is_last(events, last, n, j);
        assert(events[l] == last[j]);
    }
}

/// The lease that the last event of a policy lost is reported, however many other
/// policies there are.
pub proof fn every_lost_lease_is_reported(
    entries: Seq<JournalEntry>,
    entity_type: Seq<char>,
    name: Seq<char>,
    at: Timestamp,
    m: int,
)
    requires
        ({
            let events = picked_by_seq(entries, Pick::Dhcp, entity_type, name);
            &&& 0 <= m < events.len()
            &&& forall|k: int|
                m < k < events.len() ==> dhcp_policy(#[trigger] events[k]) != dhcp_policy(events[m])
            &&& events[m].trigger is DhcpEvent
            &&& !occurs_in(events[m].trigger->event_kind@, "acquire"@)
            &&& !occurs_in(events[m].trigger->event_kind@, "renew"@)
        }),
    ensures
        exists|j: int|
            0 <= j < lease_findings(entries, entity_type, name, at).len() && (
            #[trigger] lease_findings(entries, entity_type, name, at)[j]).pattern
                == PatternKind::DhcpLeaseLost && lease_findings(
                entries,
                entity_type,
                name,
                at,
            )[j].related_entries == seq![
                picked_by_seq(entries, Pick::Dhcp, entity_type, name)[m].seq,
            ],
{
    let events = picked_by_seq(entries, Pick::Dhcp, entity_type, name);
    let last = last_events(events, events.len());
    last_event_is_kept(events, m);
    let i = last.index_of(events[m]);
    let (a, b, c) = (last.take(i), seq![last[i]], last.skip(i + 1));
    lease_of_one(last[i], entity_type, name, at);
    let found = lease_findings_in(b, entity_type, name, at, 1);
    assert(found.contains(found[0]));
    lemma_parted(last, i);
    leases_of_parts(a + b, c, entity_type, name, at);
    leases_of_parts(a, b, entity_type, name, at);
    lemma_middle_holds(
        lease_findings_in(a, entity_type, name, at, a.len()),
        found,
        lease_findings_in(c, entity_type, name, at, c.len()),
        found[0],
    );
    let all = lease_findings(entries, entity_type, name, at);
    let j = all.index_of(found[0]);
    assert(all[j] == found[0]);
}

/// A snapshot of an entity is the fields of its state after an entry.
pub proof fn snapshot_of_one(entry: JournalEntry, entity_type: Seq<char>, name: Seq<char>)
    ensures
        ({
            let state = state_of(entry.state_after.entities@, entity_type, name);
            &&& state is Some ==> snapshots(seq![entry], entity_type, name, 1) == seq![
                state->0.fields,
            ]
            &&& state is None ==> snapshots(seq![entry], entity_type, name, 1).len() == 0
        }),
{
    assert(snapshots(seq![entry], entity_type, name, 0) == Seq::<Json>::empty());
}

/// The value of a field in a snapshot is its entry there.
pub proof fn value_of_one(shot: Json, field: Seq<char>)
    ensures
        member(shot, field) is Some ==> values_of(seq![shot], field, 1) == seq![
            member(shot, field)->0,
        ],
        member(shot, field) is None ==> values_of(seq![shot], field, 1).len() == 0,
{
    assert(values_of(seq![shot], field, 0) == Seq::<Json>::empty());
}

/// A value came back where it equals an earlier one: once where there is such a
/// value at all, and at least twice where there are two.
pub proof fn values_come_back(values: Seq<Json>, n: nat)
    requires
        n <= values.len(),
    ensures
        revisits(values, n) >= 1 <==> exists|i: int, k: int|
            0 <= i < k < n && json_same(#[trigger] values[i], #[trigger] values[k]),
        revisits(values, n) >= 2 <==> exists|k: int, l: int|
            0 <= k < l < n && #[trigger] seen_before(values, k) && #[trigger] seen_before(
                values,
                l,
            ),
        revisits(values, n) <= n,
    decreases n,
{
    if n > 0 {
        let m = (n - 1) as nat;
        values_come_back(values, m);
        if revisits(values, m) >= 1 {
            let (i, k) = choose|i: int, k: int|
                0 <= i < k < m && json_same(#[trigger] values[i], #[trigger] values[k]);
            assert(json_same(values[i], values[k]));
            assert(seen_before(values, k));
            if seen_before(values, n - 1) {
                assert(0 <= k < n - 1 && seen_before(values, k) && seen_before(values, n - 1));
            }
        }
        if seen_before(values, n - 1) {
            let i = choose|i: int| 0 <= i < n - 1 && json_same(#[trigger] values[i], values[n - 1]);
            assert(json_same(values[i], values[n - 1]));
        }
        if revisits(values, m) >= 2 {
            let (k, l) = choose|k: int, l: int|
                0 <= k < l < m && #[trigger] seen_before(values, k) && #[trigger] seen_before(
                    values,
                    l,
                );
            assert(0 <= k < l < n && seen_before(values, k) && seen_before(values, l));
        }
        if exists|k: int, l: int|
            0 <= k < l < n && #[trigger] seen_before(values, k) && #[trigger] seen_before(
                values,
                l,
            ) {
            let (k, l) = choose|k: int, l: int|
                0 <= k < l < n && #[trigger] seen_before(values, k) && #[trigger] seen_before(
                    values,
                    l,
                );
            let i = choose|i: int| 0 <= i < k && json_same(#[trigger] values[i], values[k]);
            assert(json_same(values[i], values[k]));
        }
    }
}

/// The fields of snapshots are the keys of those that are objects.
pub proof fn fields_are_those_of_snapshots(shots: Seq<Json>, n: nat, field: Seq<char>)
    requires
        n <= shots.len(),
    ensures
        field_names(shots, n).contains(field) <==> exists|i: int, k: int|
            0 <= i < n && #[trigger] shots[i] is Dict && 0 <= k < shots[i]->Dict_0@.len()
                && (#[trigger] shots[i]->Dict_0@[k]).0@ == field,
    decreases n,
{
    if n > 0 {
        let m = (n - 1) as nat;
        fields_are_those_of_snapshots(shots, m, field);
        if field_names(shots, m).contains(field) {
            let (i, k) = choose|i: int, k: int|
                0 <= i < m && #[trigger] shots[i] is Dict && 0 <= k < shots[i]->Dict_0@.len()
                    && (#[trigger] shots[i]->Dict_0@[k]).0@ == field;
            assert(shots[i]->Dict_0@[k].0@ == field && shots[i] is Dict);
        }
        if let Json::Dict(fields) = shots[n - 1] {
            lemma_keys_held(field_names(shots, m), fields@, fields@.len(), field);
            assert(shots[n - 1]->Dict_0@ == fields@);
            if exists|k: int| 0 <= k < fields@.len() && (#[trigger] fields@[k]).0@ == field {
                let k = choose|k: int| 0 <= k < fields@.len() && (#[trigger] fields@[k]).0@ == field;
                assert(shots[n - 1]->Dict_0@[k].0@ == field);
            }
        }
        if exists|i: int, k: int|
            0 <= i < n && #[trigger] shots[i] is Dict && 0 <= k < shots[i]->Dict_0@.len()
                && (#[trigger] shots[i]->Dict_0@[k]).0@ == field {
            let (i, k) = choose|i: int, k: int|
                0 <= i < n && #[trigger] shots[i] is Dict && 0 <= k < shots[i]->Dict_0@.len()
                    && (#[trigger] shots[i]->Dict_0@[k]).0@ == field;
            if i < m {
                assert(shots[i]->Dict_0@[k].0@ == field && shots[i] is Dict);
            }
        }
    }
}

/// What keys are held once they are put in.
proof fn lemma_keys_held(
    texts: Seq<Seq<char>>,
    fields: Seq<(String, Json)>,
    n: nat,
    field: Seq<char>,
)
    requires
        n <= fields.len(),
    ensures
        with_keys(texts, fields, n).contains(field) <==> texts.contains(field) || exists|k: int|
            0 <= k < n && (#[trigger] fields[k]).0@ == field,
    decreases n,
{
    if n > 0 {
        let before = with_keys(texts, fields, (n - 1) as nat);
        let all = with_keys(texts, fields, n);
        let key = fields[n - 1].0@;
        lemma_keys_held(texts, fields, (n - 1) as nat, field);
        if !before.contains(key) {
            if before.contains(field) {
                assert(all[before.index_of(field)] == field);
            }
            if key == field {
                assert(all[before.len() as int] == field);
            }
            if all.contains(field) {
                let i = all.index_of(field);
                if i < before.len() {
                    assert(before[i] == field);
                }
            }
        }
    }
}

/// A field is told to oscillate exactly where it is one of the fields, has as many
/// values as are asked for, and came back to earlier values as often as is asked
/// for.
pub proof fn oscillating_fields_are_told(
    shots: Seq<Json>,
    least_values: nat,
    least_revisits: nat,
    field: Seq<char>,
)
    ensures
        ({
            let values = values_of(shots, field, shots.len());
            oscillating_fields(shots, least_values, least_revisits).contains(field) <==> field_names(
                shots,
                shots.len(),
            ).contains(field) && values.len() >= least_values && revisits(values, values.len())
                >= least_revisits
        }),
{
    let names = field_names(shots, shots.len());
    let found = oscillating(shots, names, least_values, least_revisits, names.len());
    lemma_oscillating_held(shots, names, least_values, least_revisits, names.len(), field);
    assert(names.take(names.len() as int) == names);
    crate::text::sorting_orders(found);
    vstd::seq_lib::to_multiset_contains(found, field);
    vstd::seq_lib::to_multiset_contains(sorted_texts(found), field);
}

/// Which of the first `n` fields are told to oscillate.
proof fn lemma_oscillating_held(
    shots: Seq<Json>,
    names: Seq<Seq<char>>,
    least_values: nat,
    least_revisits: nat,
    n: nat,
    field: Seq<char>,
)
    requires
        n <= names.len(),
    ensures
        oscillating(shots, names, least_values, least_revisits, n).contains(field) <==> names.take(
            n as int,
        ).contains(field) && oscillates(shots, field, least_values, least_revisits),
    decreases n,
{
    if n > 0 {
        let before = oscillating(shots, names, least_values, least_revisits, (n - 1) as nat);
        let all = oscillating(shots, names, least_values, least_revisits, n);
        let last = names[n - 1];
        lemma_oscillating_held(
            shots,
            names,
            least_values,
            least_revisits,
            (n - 1) as nat,
            field,
        );
        assert(names.take(n as int) == names.take(n - 1).push(last));
        crate::diagnose::lemma_one_more(names.take(n - 1), last, field);
        crate::diagnose::lemma_one_more(before, last, field);
    }
}

/// Flaps are reported exactly where an entity was changed from outside at least four
/// times and one of its fields came back to an earlier value. The finding counts
/// all changes and names them, and all such fields.
pub proof fn flaps_are_reported(
    entries: Seq<JournalEntry>,
    entity_type: Seq<char>,
    name: Seq<char>,
    at: Timestamp,
)
    ensures
        ({
            let found = flaps_findings(entries, entity_type, name, at);
            let changes = picked_by_seq(entries, Pick::ExternalChange, entity_type, name);
            let shots = snapshots(changes, entity_type, name, changes.len());
            let fields = oscillating_fields(shots, 0, 1);
            &&& changes.len() < 4 || fields.len() == 0 ==> found.len() == 0
            &&& changes.len() >= 4 && fields.len() > 0 ==> {
                &&& found.len() == 1
                &&& found[0].entity_name == name
                &&& found[0].entity_type == entity_type
                &&& found[0].severity == Severity::Warning
                &&& found[0].pattern == PatternKind::RecurringFlaps
                &&& found[0].summary == decimal(changes.len())
                    + " changes detected, oscillation on: "@ + joined(fields, ", "@)
                &&& found[0].related_entries.len() == changes.len()
                &&& forall|i: int|
                    0 <= i < changes.len() ==> found[0].related_entries[i] == (
                    #[trigger] changes[i]).seq
            }
        }),
{
}

/// A conflict of policies is reported exactly where an entity was applied at least
/// three times and one of its fields, with at least three values, came back to
/// earlier values at least twice. The finding counts all applies and names them,
/// and all such fields.
pub proof fn conflicts_are_reported(
    entries: Seq<JournalEntry>,
    entity_type: Seq<char>,
    name: Seq<char>,
)
    ensures
        ({
            let found = conflict_findings(entries, entity_type, name);
            let applies = picked_by_seq(entries, Pick::AppliedOp, entity_type, name);
            let shots = snapshots(applies, entity_type, name, applies.len());
            let fields = oscillating_fields(shots, 3, 2);
            &&& applies.len() < 3 || fields.len() == 0 ==> found.len() == 0
            &&& applies.len() >= 3 && fields.len() > 0 ==> {
                &&& found.len() == 1
                &&& found[0].entity_name == name
                &&& found[0].entity_type == entity_type
                &&& found[0].severity == Severity::Warning
                &&& found[0].pattern == PatternKind::PolicyConflict
                &&& found[0].summary == "May have conflicting policies for fields: "@ + joined(
                    fields,
                    ", "@,
                )
                &&& found[0].details[0] == "Field(s) "@ + joined(fields, ", "@)
                    + " oscillated across "@ + decimal(applies.len())
                    + " applies (heuristic detection)"@
                &&& found[0].related_entries.len() == applies.len()
                &&& forall|i: int|
                    0 <= i < applies.len() ==> found[0].related_entries[i] == (
                    #[trigger] applies[i]).seq
            }
        }),
{
}

/// That an entity is idle is reported exactly where no entry has a state of it or an
/// operation on it, and only as information.
pub proof fn idleness_is_reported(
    entries: Seq<JournalEntry>,
    entity_type: Seq<char>,
    name: Seq<char>,
)
    ensures
        ({
            let found = idle_findings(entries, entity_type, name);
            &&& (exists|i: int, k: int|
                0 <= i < entries.len() && 0 <= k < entries[i].diff.operations@.len() && (
                #[trigger] entries[i].diff.operations@[k]).entity_type@ == entity_type
                    && entries[i].diff.operations@[k].entity_name@ == name) ==> found.len() == 0
            &&& (exists|i: int, k: int|
                0 <= i < entries.len() && 0 <= k < entries[i].state_after.entities@.len() && (
                #[trigger] entries[i].state_after.entities@[k]).entity_type@ == entity_type
                    && entries[i].state_after.entities@[k].selector_name@ == name) ==> found.len()
                == 0
            &&& found.len() == 0 ==> exists|i: int|
                0 <= i < entries.len() && (has_op(#[trigger] entries[i], entity_type, name)
                    || has_state(entries[i], entity_type, name))
            &&& found.len() > 0 ==> found.len() == 1 && found[0].severity == Severity::Info
                && found[0].pattern == PatternKind::NoRecentActivity && found[0].entity_name == name
                && found[0].entity_type == entity_type && found[0].summary
                == "No journal entries within the current time window"@
        }),
{
    if exists|i: int, k: int|
        0 <= i < entries.len() && 0 <= k < entries[i].diff.operations@.len() && (
        #[trigger] entries[i].diff.operations@[k]).entity_type@ == entity_type
            && entries[i].diff.operations@[k].entity_name@ == name {
        let (i, k) = choose|i: int, k: int|
            0 <= i < entries.len() && 0 <= k < entries[i].diff.operations@.len() && (
            #[trigger] entries[i].diff.operations@[k]).entity_type@ == entity_type
                && entries[i].diff.operations@[k].entity_name@ == name;
        entries_matter(entries[i], entity_type, name);
        assert(picks(Pick::Mention, entries[i], entity_type, name));
    }
    if exists|i: int, k: int|
        0 <= i < entries.len() && 0 <= k < entries[i].state_after.entities@.len() && (
        #[trigger] entries[i].state_after.entities@[k]).entity_type@ == entity_type
            && entries[i].state_after.entities@[k].selector_name@ == name {
        let (i, k) = choose|i: int, k: int|
            0 <= i < entries.len() && 0 <= k < entries[i].state_after.entities@.len() && (
            #[trigger] entries[i].state_after.entities@[k]).entity_type@ == entity_type
                && entries[i].state_after.entities@[k].selector_name@ == name;
        entries_matter(entries[i], entity_type, name);
        assert(picks(Pick::Mention, entries[i], entity_type, name));
    }
    if idle_findings(entries, entity_type, name).len() == 0 {
        let i = choose|i: int|
            0 <= i < entries.len() && picks(Pick::Mention, #[trigger] entries[i], entity_type, name);
        assert(has_op(entries[i], entity_type, name) || has_state(entries[i], entity_type, name));
    }
}

/// What any detector finds is among all findings, and nothing else is.
pub proof fn every_detector_counts(
    entries: Seq<JournalEntry>,
    current_state: Seq<SerializableState>,
    entity_type: Seq<char>,
    name: Seq<char>,
    last_applied: Option<&JournalEntry>,
    schema: FieldSchema,
    at: Timestamp,
    f: FindingView,
)
    ensures
        all_findings(
            entries,
            current_state,
            entity_type,
            name,
            last_applied,
            schema,
            at,
        ).contains(f) <==> (drift_findings(
            entries,
            current_state,
            entity_type,
            name,
            last_applied,
            schema,
            at,
        ).contains(f) || carrier_findings(
            entries,
            current_state,
            entity_type,
            name,
            at,
        ).contains(f) || lease_findings(entries, entity_type, name, at).contains(f)
            || flaps_findings(entries, entity_type, name, at).contains(f) || failed_findings(
            entries,
            entity_type,
            name,
            entries.len(),
        ).contains(f) || conflict_findings(entries, entity_type, name).contains(f)
            || idle_findings(entries, entity_type, name).contains(f)),
{
    let a = drift_findings(entries, current_state, entity_type, name, last_applied, schema, at);
    let b = carrier_findings(entries, current_state, entity_type, name, at);
    let c = lease_findings(entries, entity_type, name, at);
    let d = flaps_findings(entries, entity_type, name, at);
    let e = failed_findings(entries, entity_type, name, entries.len());
    let g = conflict_findings(entries, entity_type, name);
    let h = idle_findings(entries, entity_type, name);
    lemma_either(a, b, f);
    lemma_either(a + b, c, f);
    lemma_either(a + b + c, d, f);
    lemma_either(a + b + c + d, e, f);
    lemma_either(a + b + c + d + e, g, f);
    lemma_either(a + b + c + d + e + g, h, f);
}

/// What two lists hold, one behind the other.
proof fn lemma_either(a: Seq<FindingView>, b: Seq<FindingView>, f: FindingView)
    ensures
        (a + b).contains(f) <==> a.contains(f) || b.contains(f),
{
    if a.contains(f) {
        assert((a + b)[a.index_of(f)] == f);
    }
    if b.contains(f) {
        assert((a + b)[a.len() + b.index_of(f)] == f);
    }
    if (a + b).contains(f) {
        let i = (a + b).index_of(f);
        if i < a.len() {
            assert(a[i] == f);
        } else {
            assert(b[i - a.len()] == f);
        }
    }
}

} // verus!
