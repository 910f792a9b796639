//! The `diagnose` subcommand: what journal and system state tell of each entity.
use vstd::prelude::*;
use vstd::string::*;

use crate::history::{parse_since_at, since_always_in_reach, since_in_reach, since_read};
use crate::journal::{ApplyOutcome, JournalEntry, SerializableDiffOp, SerializableState, Trigger};
use crate::json::{member, Json};
use crate::query::{reads_as, VarlinkState};
use crate::text::{
    cat2, cat3, contains, debug_str, debug_text, decimal, decimal_text, find_char, has_string,
    position, position_behind, position_is_first, same, views,
};
use crate::time::{now, seconds_between, seconds_from, Timestamp};

pub mod detect;
pub mod report;

verus! {

/// The output formats of a diagnosis.
#[derive(Clone, Copy, Debug, PartialEq, Eq, Structural)]
pub enum DiagnoseOutputFormat {
    Text,
    Json,
}

/// The arguments of the `diagnose` subcommand.
#[derive(Debug)]
pub struct DiagnoseArgs {
    /// The entities to look at, as key and value; all where there are none.
    pub selector: Vec<(String, String)>,
    /// How far back to look: 1h, 30m, 7d or ISO 8601.
    pub since: String,
    pub output: DiagnoseOutputFormat,
}

/// How bad a finding is, in ascending order.
#[derive(Clone, Copy, Debug, PartialEq, Eq, PartialOrd, Ord, Structural)]
pub enum Severity {
    Healthy,
    Info,
    Warning,
    Critical,
}

/// What was found.
#[derive(Clone, Copy, Debug, PartialEq, Eq, Structural)]
pub enum PatternKind {
    ConfigurationDrift,
    CarrierLoss,
    DhcpLeaseLost,
    RecurringFlaps,
    FailedApply,
    PolicyConflict,
    NoRecentActivity,
}

/// A finding on one entity.
#[derive(Clone, Debug)]
pub struct Finding {
    pub entity_name: String,
    pub entity_type: String,
    pub severity: Severity,
    pub pattern: PatternKind,
    pub summary: String,
    pub details: Vec<String>,
    pub suggested_actions: Vec<String>,
    pub related_entries: Vec<u64>,
}

/// What a finding holds.
pub struct FindingView {
    pub entity_name: Seq<char>,
    pub entity_type: Seq<char>,
    pub severity: Severity,
    pub pattern: PatternKind,
    pub summary: Seq<char>,
    pub details: Seq<Seq<char>>,
    pub suggested_actions: Seq<Seq<char>>,
    pub related_entries: Seq<u64>,
}

impl View for Finding {
    type V = FindingView;

    open spec fn view(&self) -> FindingView {
        FindingView {
            entity_name: self.entity_name@,
            entity_type: self.entity_type@,
            severity: self.severity,
            pattern: self.pattern,
            summary: self.summary@,
            details: views(self.details@),
            suggested_actions: views(self.suggested_actions@),
            related_entries: self.related_entries@,
        }
    }
}

/// The contents of each finding of a list.
pub open spec fn finding_views(v: Seq<Finding>) -> Seq<FindingView> {
    v.map_values(|f: Finding| f@)
}

/// The fields that policies cannot write, as entity type and field name.
#[derive(Debug)]
pub struct FieldSchema {
    pub read_only: Vec<(String, String)>,
}

// ── Selectors ────────────────────────────────────────────────────────────────

/// What a selector argument reads as: the key before the first equals sign, which
/// must be "name", and the value behind it; or what is wrong with it.
pub open spec fn diagnose_selector_read(s: Seq<char>) -> Result<
    (Seq<char>, Seq<char>),
    Seq<char>,
> {
    match position(s, '=', 0) {
        None => Err(
            "selector must be in key=value format, got: "@ + debug_text(s)
                + ". Only 'name' key is supported"@,
        ),
        Some(eq) => if s.take(eq) == "name"@ {
            Ok((s.take(eq), s.skip(eq + 1)))
        } else {
            Err(
                "invalid selector key "@ + debug_text(s.take(eq))
                    + "; diagnose only supports 'name' (e.g. name=eth0)"@,
            )
        },
    }
}

/// Reads a selector argument of the form `name=value`.
pub fn parse_diagnose_selector(s: &str) -> (r: Result<(String, String), String>)
    ensures
        reads_as(r, diagnose_selector_read(s@)),
{
    match find_char(s, '=') {
        None => {
            let shown = debug_str(s);
            Err(
                cat3(
                    "selector must be in key=value format, got: ",
                    shown.as_str(),
                    ". Only 'name' key is supported",
                ),
            )
        },
        Some(eq) => {
            let n: usize = s.unicode_len();
            let key = s.substring_char(0, eq);
            let value = s.substring_char(eq + 1, n);
            assert(key@ == s@.take(eq as int));
            assert(value@ == s@.skip(eq + 1));
            if !same(key, "name") {
                let shown = debug_str(key);
                return Err(
                    cat3(
                        "invalid selector key ",
                        shown.as_str(),
                        "; diagnose only supports 'name' (e.g. name=eth0)",
                    ),
                );
            }
            Ok((key.to_owned(), value.to_owned()))
        },
    }
}

// ── Entities ─────────────────────────────────────────────────────────────────

/// The contents of pairs of strings.
pub open spec fn pair_views(v: Seq<(String, String)>) -> Seq<(Seq<char>, Seq<char>)> {
    v.map_values(|p: (String, String)| (p.0@, p.1@))
}

/// A list with one more pair, unless it has it already.
pub open spec fn with_pair(
    pairs: Seq<(Seq<char>, Seq<char>)>,
    pair: (Seq<char>, Seq<char>),
) -> Seq<(Seq<char>, Seq<char>)> {
    if pairs.contains(pair) {
        pairs
    } else {
        pairs.push(pair)
    }
}

/// A list with the entities of the first `n` states put in.
pub open spec fn with_states(
    pairs: Seq<(Seq<char>, Seq<char>)>,
    states: Seq<SerializableState>,
    n: nat,
) -> Seq<(Seq<char>, Seq<char>)>
    decreases n,
{
    if n == 0 || n > states.len() {
        pairs
    } else {
        with_pair(
            with_states(pairs, states, (n - 1) as nat),
            (states[n - 1].entity_type@, states[n - 1].selector_name@),
        )
    }
}

/// A list with the entities of the first `n` operations put in.
pub open spec fn with_ops(
    pairs: Seq<(Seq<char>, Seq<char>)>,
    ops: Seq<SerializableDiffOp>,
    n: nat,
) -> Seq<(Seq<char>, Seq<char>)>
    decreases n,
{
    if n == 0 || n > ops.len() {
        pairs
    } else {
        with_pair(
            with_ops(pairs, ops, (n - 1) as nat),
            (ops[n - 1].entity_type@, ops[n - 1].entity_name@),
        )
    }
}

/// A list with the entities of the first `n` entries put in: those of the state
/// of an entry, then those of its operations.
pub open spec fn with_entries(
    pairs: Seq<(Seq<char>, Seq<char>)>,
    entries: Seq<JournalEntry>,
    n: nat,
) -> Seq<(Seq<char>, Seq<char>)>
    decreases n,
{
    if n == 0 || n > entries.len() {
        pairs
    } else {
        let states = entries[n - 1].state_after.entities@;
        let ops = entries[n - 1].diff.operations@;
        with_ops(
            with_states(with_entries(pairs, entries, (n - 1) as nat), states, states.len()),
            ops,
            ops.len(),
        )
    }
}

/// The managed entities, each once: those in the state after the last apply, then
/// all others that the entries mention.
pub open spec fn managed(entries: Seq<JournalEntry>, last_applied: Option<&JournalEntry>) -> Seq<
    (Seq<char>, Seq<char>),
> {
    let first = match last_applied {
        Some(e) => with_states(
            Seq::empty(),
            e.state_after.entities@,
            e.state_after.entities@.len(),
        ),
        None => Seq::empty(),
    };
    with_entries(first, entries, entries.len())
}

/// Whether a pair of texts is in a list.
pub fn has_pair(pairs: &Vec<(String, String)>, a: &str, b: &str) -> (r: bool)
    ensures
        r == pair_views(pairs@).contains((a@, b@)),
{
    let n: usize = pairs.len();
    let mut i: usize = 0;
    while i < n
        invariant
            i <= n,
            n == pairs@.len(),
            forall|k: int| 0 <= k < i ==> (#[trigger] pair_views(pairs@)[k]) != (a@, b@),
        decreases n - i,
    {
        if same(pairs[i].0.as_str(), a) && same(pairs[i].1.as_str(), b) {
            assert(pair_views(pairs@)[i as int] == (a@, b@));
            return true;
        }
        assert(pair_views(pairs@)[i as int] != (a@, b@));
        i = i + 1;
    }
    false
}

/// Puts a pair into a list, unless it is there.
fn add_pair(pairs: &mut Vec<(String, String)>, a: &String, b: &String)
    ensures
        pair_views(final(pairs)@) == with_pair(pair_views(old(pairs)@), (a@, b@)),
{
    if !has_pair(pairs, a.as_str(), b.as_str()) {
        pairs.push((a.clone(), b.clone()));
        assert(pair_views(pairs@) == pair_views(old(pairs)@).push((a@, b@)));
    }
}

/// Puts the entities of states into a list.
fn add_states(pairs: &mut Vec<(String, String)>, states: &Vec<SerializableState>)
    ensures
        pair_views(final(pairs)@) == with_states(
            pair_views(old(pairs)@),
            states@,
            states@.len(),
        ),
{
    let n: usize = states.len();
    let mut i: usize = 0;
    while i < n
        invariant
            i <= n,
            n == states@.len(),
            pair_views(pairs@) == with_states(pair_views(old(pairs)@), states@, i as nat),
        decreases n - i,
    {
        add_pair(pairs, &states[i].entity_type, &states[i].selector_name);
        i = i + 1;
    }
}

/// The managed entities, each once.
pub fn discover_managed_entities(
    entries: &[JournalEntry],
    last_applied: Option<&JournalEntry>,
) -> (r: Vec<(String, String)>)
    ensures
        pair_views(r@) == managed(entries@, last_applied),
{
    let mut result: Vec<(String, String)> = Vec::new();
    assert(pair_views(result@) == Seq::<(Seq<char>, Seq<char>)>::empty());
    if let Some(entry) = last_applied {
        add_states(&mut result, &entry.state_after.entities);
    }
    let ghost first = pair_views(result@);
    let n: usize = entries.len();
    let mut i: usize = 0;
    while i < n
        invariant
            i <= n,
            n == entries@.len(),
            pair_views(result@) == with_entries(first, entries@, i as nat),
        decreases n - i,
    {
        add_states(&mut result, &entries[i].state_after.entities);
        let ghost middle = pair_views(result@);
        let ops = &entries[i].diff.operations;
        let m: usize = ops.len();
        let mut k: usize = 0;
        while k < m
            invariant
                k <= m,
                m == ops@.len(),
                pair_views(result@) == with_ops(middle, ops@, k as nat),
            decreases m - k,
        {
            add_pair(&mut result, &ops[k].entity_type, &ops[k].entity_name);
            k = k + 1;
        }
        i = i + 1;
    }
    result
}

/// Whether one of the selectors asks for a name.
pub open spec fn asks_for(selectors: Seq<(String, String)>, name: Seq<char>) -> bool {
    exists|i: int|
        0 <= i < selectors.len() && (#[trigger] selectors[i]).0@ == "name"@ && selectors[i].1@
            == name
}

/// Those of the first `n` entities that the selectors ask for.
pub open spec fn asked_entities(
    entities: Seq<(Seq<char>, Seq<char>)>,
    selectors: Seq<(String, String)>,
    n: nat,
) -> Seq<(Seq<char>, Seq<char>)>
    decreases n,
{
    if n == 0 || n > entities.len() {
        Seq::empty()
    } else if asks_for(selectors, entities[n - 1].1) {
        asked_entities(entities, selectors, (n - 1) as nat).push(entities[n - 1])
    } else {
        asked_entities(entities, selectors, (n - 1) as nat)
    }
}

/// The entities that the selectors ask for; all of them where there is no
/// selector.
pub open spec fn filtered_entities(
    entities: Seq<(Seq<char>, Seq<char>)>,
    selectors: Seq<(String, String)>,
) -> Seq<(Seq<char>, Seq<char>)> {
    if selectors.len() == 0 {
        entities
    } else {
        asked_entities(entities, selectors, entities.len())
    }
}

/// Whether one of the selectors asks for a name.
fn is_asked_for(selectors: &[(String, String)], name: &str) -> (r: bool)
    ensures
        r == asks_for(selectors@, name@),
{
    let n: usize = selectors.len();
    let mut i: usize = 0;
    while i < n
        invariant
            i <= n,
            n == selectors@.len(),
            forall|k: int|
                0 <= k < i ==> !((#[trigger] selectors@[k]).0@ == "name"@ && selectors@[k].1@
                    == name@),
        decreases n - i,
    {
        if same(selectors[i].0.as_str(), "name") && same(selectors[i].1.as_str(), name) {
            assert(selectors@[i as int].0@ == "name"@);
            return true;
        }
        i = i + 1;
    }
    false
}

/// The entities that the selectors ask for.
pub fn filter_entities_by_selector(
    entities: &[(String, String)],
    selectors: &[(String, String)],
) -> (r: Vec<(String, String)>)
    ensures
        pair_views(r@) == filtered_entities(pair_views(entities@), selectors@),
{
    let mut out: Vec<(String, String)> = Vec::new();
    let all = selectors.len() == 0;
    let ghost model = pair_views(entities@);
    let n: usize = entities.len();
    let mut i: usize = 0;
    assert(pair_views(out@) == Seq::<(Seq<char>, Seq<char>)>::empty());
    assert(model.take(0) == Seq::<(Seq<char>, Seq<char>)>::empty());
    while i < n
        invariant
            i <= n,
            n == entities@.len(),
            model == pair_views(entities@),
            all == (selectors@.len() == 0),
            all ==> pair_views(out@) == model.take(i as int),
            !all ==> pair_views(out@) == asked_entities(model, selectors@, i as nat),
        decreases n - i,
    {
        let ghost before = out@;
        let entity = &entities[i];
        assert(model[i as int] == (entity.0@, entity.1@));
        if all || is_asked_for(selectors, entity.1.as_str()) {
            out.push((entity.0.clone(), entity.1.clone()));
            assert(pair_views(out@) == pair_views(before).push(model[i as int]));
        }
        assert(model.take(i + 1) == model.take(i as int).push(model[i as int]));
        i = i + 1;
    }
    assert(model.take(n as int) == model);
    out
}

/// The states of entities that the daemon reports.
pub fn varlink_states_to_serializable(states: Vec<VarlinkState>) -> (r: Vec<SerializableState>)
    ensures
        r@.len() == states@.len(),
        forall|i: int|
            0 <= i < r@.len() ==> {
                &&& (#[trigger] r@[i]).entity_type == states@[i].entity_type
                &&& r@[i].fields == Json::Dict(states@[i].fields)
                &&& match states@[i].name {
                    Some(name) => r@[i].selector_name == name,
                    None => r@[i].selector_name@ == Seq::<char>::empty(),
                }
            },
{
    let ghost all = states@;
    let mut out: Vec<SerializableState> = Vec::new();
    for vs in it: states
        invariant
            it.seq() == all,
            out@.len() == it.index(),
            forall|i: int|
                0 <= i < out@.len() ==> {
                    &&& (#[trigger] out@[i]).entity_type == all[i].entity_type
                    &&& out@[i].fields == Json::Dict(all[i].fields)
                    &&& match all[i].name {
                        Some(name) => out@[i].selector_name == name,
                        None => out@[i].selector_name@ == Seq::<char>::empty(),
                    }
                },
    {
        let selector_name = match vs.name {
            Some(name) => name,
            None => String::new(),
        };
        out.push(
            SerializableState {
                entity_type: vs.entity_type,
                selector_name,
                fields: Json::Dict(vs.fields),
            },
        );
    }
    out
}

// ── Entries and states ───────────────────────────────────────────────────────

/// The first state of an entity, at `from` or behind.
pub open spec fn state_from(
    states: Seq<SerializableState>,
    entity_type: Seq<char>,
    name: Seq<char>,
    from: int,
) -> Option<SerializableState>
    decreases states.len() - from,
{
    if from >= states.len() {
        None
    } else if states[from].entity_type@ == entity_type && states[from].selector_name@ == name {
        Some(states[from])
    } else {
        state_from(states, entity_type, name, from + 1)
    }
}

/// The state of an entity.
pub open spec fn state_of(
    states: Seq<SerializableState>,
    entity_type: Seq<char>,
    name: Seq<char>,
) -> Option<SerializableState> {
    state_from(states, entity_type, name, 0)
}

/// Whether an entry has an operation on an entity.
pub open spec fn has_op(entry: JournalEntry, entity_type: Seq<char>, name: Seq<char>) -> bool {
    let ops = entry.diff.operations@;
    exists|i: int|
        0 <= i < ops.len() && (#[trigger] ops[i]).entity_type@ == entity_type
            && ops[i].entity_name@ == name
}

/// Whether an entry records the state of an entity.
pub open spec fn has_state(entry: JournalEntry, entity_type: Seq<char>, name: Seq<char>) -> bool {
    state_of(entry.state_after.entities@, entity_type, name) is Some
}

/// The carrier that the fields of an entity tell of.
pub open spec fn carrier_in(fields: Json) -> Option<bool> {
    match member(fields, "carrier"@) {
        Some(Json::Bool(b)) => Some(b),
        _ => None,
    }
}

/// The carrier that states tell of for an entity.
pub open spec fn carrier_of(
    states: Seq<SerializableState>,
    entity_type: Seq<char>,
    name: Seq<char>,
) -> Option<bool> {
    match state_of(states, entity_type, name) {
        Some(s) => carrier_in(s.fields),
        None => None,
    }
}

/// What makes an entry matter for an entity.
#[derive(Clone, Copy, Debug, PartialEq, Eq, Structural)]
pub enum Pick {
    /// It is an external change of the entity.
    ExternalChange,
    /// Something was applied.
    Applied,
    /// Something was applied, and the entry records the state of the entity.
    AppliedState,
    /// Something was applied, with an operation on the entity.
    AppliedOp,
    /// It is an event of DHCP, and the entry records the state of the entity.
    Dhcp,
    /// An apply, a start of the daemon or a revert had failures, with an operation
    /// on the entity.
    FailedApply,
    /// The entry records the carrier of the entity.
    Carrier,
    /// The entry mentions the entity at all.
    Mention,
}

/// Whether an entry matters for an entity.
pub open spec fn picks(
    pick: Pick,
    entry: JournalEntry,
    entity_type: Seq<char>,
    name: Seq<char>,
) -> bool {
    match pick {
        Pick::ExternalChange => match entry.trigger {
            Trigger::ExternalChange { changed_entities } => views(changed_entities@).contains(
                name,
            ),
            _ => false,
        },
        Pick::Applied => entry.outcome is Applied,
        Pick::AppliedState => entry.outcome is Applied && has_state(entry, entity_type, name),
        Pick::AppliedOp => entry.outcome is Applied && has_op(entry, entity_type, name),
        Pick::Dhcp => entry.trigger is DhcpEvent && has_state(entry, entity_type, name),
        Pick::FailedApply => {
            &&& entry.trigger is PolicyApply || entry.trigger is DaemonStartup
                || entry.trigger is Revert
            &&& match entry.outcome {
                ApplyOutcome::Applied { failed, .. } => failed > 0,
                ApplyOutcome::Observed => false,
            }
            &&& has_op(entry, entity_type, name)
        },
        Pick::Carrier => carrier_of(entry.state_after.entities@, entity_type, name) is Some,
        Pick::Mention => has_state(entry, entity_type, name) || has_op(entry, entity_type, name),
    }
}

/// Those of the first `n` entries that matter.
pub open spec fn picked(
    entries: Seq<JournalEntry>,
    pick: Pick,
    entity_type: Seq<char>,
    name: Seq<char>,
    n: nat,
) -> Seq<JournalEntry>
    decreases n,
{
    if n == 0 || n > entries.len() {
        Seq::empty()
    } else if picks(pick, entries[n - 1], entity_type, name) {
        picked(entries, pick, entity_type, name, (n - 1) as nat).push(entries[n - 1])
    } else {
        picked(entries, pick, entity_type, name, (n - 1) as nat)
    }
}

/// Of those of the first `n` entries that matter the one with the highest number;
/// the last one where there are several.
pub open spec fn latest_in(
    entries: Seq<JournalEntry>,
    pick: Pick,
    entity_type: Seq<char>,
    name: Seq<char>,
    n: nat,
) -> Option<JournalEntry>
    decreases n,
{
    if n == 0 || n > entries.len() {
        None
    } else {
        let before = latest_in(entries, pick, entity_type, name, (n - 1) as nat);
        if !picks(pick, entries[n - 1], entity_type, name) {
            before
        } else {
            match before {
                Some(b) if b.seq > entries[n - 1].seq => before,
                _ => Some(entries[n - 1]),
            }
        }
    }
}

/// The latest entry that matters for an entity.
pub open spec fn latest(
    entries: Seq<JournalEntry>,
    pick: Pick,
    entity_type: Seq<char>,
    name: Seq<char>,
) -> Option<JournalEntry> {
    latest_in(entries, pick, entity_type, name, entries.len())
}

/// An entry put into a list at `at`, or before it as long as the entry there has a
/// higher number.
pub open spec fn placed_entry(
    list: Seq<JournalEntry>,
    entry: JournalEntry,
    at: int,
) -> Seq<JournalEntry>
    decreases at,
{
    if at <= 0 || list[at - 1].seq <= entry.seq {
        list.insert(at, entry)
    } else {
        placed_entry(list, entry, at - 1)
    }
}

/// The entries in ascending order of their numbers; those of one number stay in
/// their order.
pub open spec fn by_seq(list: Seq<JournalEntry>) -> Seq<JournalEntry>
    decreases list.len(),
{
    if list.len() == 0 {
        list
    } else {
        let before = by_seq(list.drop_last());
        placed_entry(before, list.last(), before.len() as int)
    }
}

/// The entries that matter for an entity, in ascending order of their numbers.
pub open spec fn picked_by_seq(
    entries: Seq<JournalEntry>,
    pick: Pick,
    entity_type: Seq<char>,
    name: Seq<char>,
) -> Seq<JournalEntry> {
    by_seq(picked(entries, pick, entity_type, name, entries.len()))
}

/// Whether numbers stand in ascending order.
pub open spec fn seqs_ascending(list: Seq<JournalEntry>) -> bool {
    forall|i: int, j: int|
        0 <= i < j < list.len() ==> (#[trigger] list[i]).seq <= (#[trigger] list[j]).seq
}

/// Placing an entry keeps the others, and the order.
proof fn lemma_placed_entry(list: Seq<JournalEntry>, entry: JournalEntry, at: int)
    requires
        0 <= at <= list.len(),
        seqs_ascending(list),
        forall|k: int| at <= k < list.len() ==> (#[trigger] list[k]).seq > entry.seq,
    ensures
        seqs_ascending(placed_entry(list, entry, at)),
        placed_entry(list, entry, at).to_multiset() == list.to_multiset().insert(entry),
        placed_entry(list, entry, at).len() == list.len() + 1,
    decreases at,
{
    if at <= 0 || list[at - 1].seq <= entry.seq {
        vstd::seq_lib::to_multiset_insert(list, at, entry);
    } else {
        lemma_placed_entry(list, entry, at - 1);
    }
}

/// Sorting by number keeps the entries, and brings their numbers into ascending
/// order.
pub proof fn sorted_by_seq(list: Seq<JournalEntry>)
    ensures
        seqs_ascending(by_seq(list)),
        by_seq(list).to_multiset() == list.to_multiset(),
        by_seq(list).len() == list.len(),
    decreases list.len(),
{
    if list.len() > 0 {
        sorted_by_seq(list.drop_last());
        let before = by_seq(list.drop_last());
        lemma_placed_entry(before, list.last(), before.len() as int);
        assert(list == list.drop_last().push(list.last()));
        vstd::seq_lib::to_multiset_build(list.drop_last(), list.last());
    }
}

/// The state of an entity.
pub fn get_entity_state<'a>(
    current_state: &'a [SerializableState],
    entity_type: &str,
    entity_name: &str,
) -> (r: Option<&'a SerializableState>)
    ensures
        r == (match state_of(current_state@, entity_type@, entity_name@) {
            Some(s) => Some(&s),
            None => None,
        }),
{
    let n: usize = current_state.len();
    let mut i: usize = 0;
    while i < n
        invariant
            i <= n,
            n == current_state@.len(),
            state_of(current_state@, entity_type@, entity_name@) == state_from(
                current_state@,
                entity_type@,
                entity_name@,
                i as int,
            ),
        decreases n - i,
    {
        if same(current_state[i].entity_type.as_str(), entity_type) && same(
            current_state[i].selector_name.as_str(),
            entity_name,
        ) {
            return Some(&current_state[i]);
        }
        i = i + 1;
    }
    None
}

/// The state of an entity after the last apply.
pub fn get_last_applied_state<'a>(
    last_applied: Option<&'a JournalEntry>,
    entity_type: &str,
    entity_name: &str,
) -> (r: Option<&'a SerializableState>)
    ensures
        r == (match last_applied {
            Some(e) => match state_of(e.state_after.entities@, entity_type@, entity_name@) {
                Some(s) => Some(&s),
                None => None,
            },
            None => None,
        }),
{
    match last_applied {
        Some(e) => get_entity_state(e.state_after.entities.as_slice(), entity_type, entity_name),
        None => None,
    }
}

/// Whether an entry has an operation on an entity.
fn entry_has_op(entry: &JournalEntry, entity_type: &str, entity_name: &str) -> (r: bool)
    ensures
        r == has_op(*entry, entity_type@, entity_name@),
{
    let ops = &entry.diff.operations;
    let n: usize = ops.len();
    let mut i: usize = 0;
    while i < n
        invariant
            i <= n,
            n == ops@.len(),
            ops@ == entry.diff.operations@,
            forall|k: int|
                0 <= k < i ==> !((#[trigger] ops@[k]).entity_type@ == entity_type@
                    && ops@[k].entity_name@ == entity_name@),
        decreases n - i,
    {
        if same(ops[i].entity_type.as_str(), entity_type) && same(
            ops[i].entity_name.as_str(),
            entity_name,
        ) {
            assert(ops@[i as int].entity_type@ == entity_type@);
            return true;
        }
        i = i + 1;
    }
    false
}

/// The carrier that states tell of for an entity.
pub fn carrier_from(states: &[SerializableState], entity_type: &str, entity_name: &str) -> (r: Option<
    bool,
>)
    ensures
        r == carrier_of(states@, entity_type@, entity_name@),
{
    match get_entity_state(states, entity_type, entity_name) {
        Some(s) => match s.fields.get("carrier") {
            Some(Json::Bool(b)) => Some(*b),
            _ => None,
        },
        None => None,
    }
}

/// Whether an entry matters for an entity.
pub fn is_picked(pick: Pick, entry: &JournalEntry, entity_type: &str, entity_name: &str) -> (r: bool)
    ensures
        r == picks(pick, *entry, entity_type@, entity_name@),
{
    let applied = match entry.outcome {
        ApplyOutcome::Applied { .. } => true,
        ApplyOutcome::Observed => false,
    };
    match pick {
        Pick::ExternalChange => match &entry.trigger {
            Trigger::ExternalChange { changed_entities } => has_string(
                changed_entities.as_slice(),
                entity_name,
            ),
            _ => false,
        },
        Pick::Applied => applied,
        Pick::AppliedState => applied && get_entity_state(
            entry.state_after.entities.as_slice(),
            entity_type,
            entity_name,
        ).is_some(),
        Pick::AppliedOp => applied && entry_has_op(entry, entity_type, entity_name),
        Pick::Dhcp => {
            let event = match &entry.trigger {
                Trigger::DhcpEvent { .. } => true,
                _ => false,
            };
            event && get_entity_state(
                entry.state_after.entities.as_slice(),
                entity_type,
                entity_name,
            ).is_some()
        },
        Pick::FailedApply => {
            let kind = match &entry.trigger {
                Trigger::PolicyApply { .. } => true,
                Trigger::DaemonStartup => true,
                Trigger::Revert { .. } => true,
                _ => false,
            };
            let failures = match entry.outcome {
                ApplyOutcome::Applied { failed, .. } => failed > 0,
                ApplyOutcome::Observed => false,
            };
            kind && failures && entry_has_op(entry, entity_type, entity_name)
        },
        Pick::Carrier => carrier_from(
            entry.state_after.entities.as_slice(),
            entity_type,
            entity_name,
        ).is_some(),
        Pick::Mention => get_entity_state(
            entry.state_after.entities.as_slice(),
            entity_type,
            entity_name,
        ).is_some() || entry_has_op(entry, entity_type, entity_name),
    }
}

/// The place of the latest entry that matters for an entity.
pub fn latest_index(entries: &[JournalEntry], pick: Pick, entity_type: &str, entity_name: &str) -> (r:
    Option<usize>)
    ensures
        match r {
            Some(i) => i < entries@.len() && latest(entries@, pick, entity_type@, entity_name@)
                == Some(entries@[i as int]),
            None => latest(entries@, pick, entity_type@, entity_name@) is None,
        },
{
    let mut found: Option<usize> = None;
    let n: usize = entries.len();
    let mut i: usize = 0;
    while i < n
        invariant
            i <= n,
            n == entries@.len(),
            match found {
                Some(k) => k < i && latest_in(
                    entries@,
                    pick,
                    entity_type@,
                    entity_name@,
                    i as nat,
                ) == Some(entries@[k as int]),
                None => latest_in(entries@, pick, entity_type@, entity_name@, i as nat) is None,
            },
        decreases n - i,
    {
        if is_picked(pick, &entries[i], entity_type, entity_name) {
            match found {
                Some(k) => {
                    if entries[k].seq <= entries[i].seq {
                        found = Some(i);
                    }
                },
                None => {
                    found = Some(i);
                },
            }
        }
        i = i + 1;
    }
    found
}

/// The latest entry that matters for an entity.
pub fn latest_entry<'a>(
    entries: &'a [JournalEntry],
    pick: Pick,
    entity_type: &str,
    entity_name: &str,
) -> (r: Option<&'a JournalEntry>)
    ensures
        r == (match latest(entries@, pick, entity_type@, entity_name@) {
            Some(e) => Some(&e),
            None => None,
        }),
{
    match latest_index(entries, pick, entity_type, entity_name) {
        Some(i) => Some(&entries[i]),
        None => None,
    }
}

/// The entries behind a list of references.
pub open spec fn entries_at(v: Seq<&JournalEntry>) -> Seq<JournalEntry> {
    v.map_values(|e: &JournalEntry| *e)
}

/// The entries that matter for an entity, in ascending order of their numbers.
pub fn pick_by_seq<'a>(
    entries: &'a [JournalEntry],
    pick: Pick,
    entity_type: &str,
    entity_name: &str,
) -> (r: Vec<&'a JournalEntry>)
    ensures
        entries_at(r@) == picked_by_seq(entries@, pick, entity_type@, entity_name@),
        r@.len() == picked_by_seq(entries@, pick, entity_type@, entity_name@).len(),
{
    let mut out: Vec<&'a JournalEntry> = Vec::new();
    let n: usize = entries.len();
    let mut i: usize = 0;
    assert(entries_at(out@) == by_seq(picked(entries@, pick, entity_type@, entity_name@, 0)));
    while i < n
        invariant
            i <= n,
            n == entries@.len(),
            entries_at(out@) == by_seq(
                picked(entries@, pick, entity_type@, entity_name@, i as nat),
            ),
        decreases n - i,
    {
        let entry = &entries[i];
        if is_picked(pick, entry, entity_type, entity_name) {
            let ghost before = entries_at(out@);
            let ghost chosen = picked(entries@, pick, entity_type@, entity_name@, i as nat);
            assert(chosen.push(*entry).drop_last() == chosen);
            let mut at: usize = out.len();
            while at > 0 && out[at - 1].seq > entry.seq
                invariant
                    at <= out@.len(),
                    before == entries_at(out@),
                    placed_entry(before, *entry, before.len() as int) == placed_entry(
                        before,
                        *entry,
                        at as int,
                    ),
                decreases at,
            {
                assert(before[at - 1] == *out@[at - 1]);
                at = at - 1;
            }
            assert(at > 0 ==> before[at - 1] == *out@[at - 1]);
            out.insert(at, entry);
            assert(entries_at(out@) == before.insert(at as int, *entry));
        }
        i = i + 1;
    }
    assert(entries_at(out@).len() == out@.len());
    out
}

// ── Time ─────────────────────────────────────────────────────────────────────

/// How long ago something was, in its largest unit. Times to come count as now.
pub open spec fn ago_text(ts: Timestamp, at: Timestamp) -> Seq<char> {
    let between = seconds_between(ts, at);
    let secs: nat = if between < 0 {
        0
    } else {
        between as nat
    };
    if secs < 60 {
        decimal(secs) + " sec ago"@
    } else if secs < 3600 {
        decimal(secs / 60) + " min ago"@
    } else if secs < 86400 {
        decimal(secs / 3600) + "h ago"@
    } else {
        decimal(secs / 86400) + "d ago"@
    }
}

/// How long ago something was, as seen at a given time.
pub fn relative_time_at(ts: Timestamp, at: Timestamp) -> (r: String)
    requires
        ts.wf(),
        at.wf(),
    ensures
        r@ == ago_text(ts, at),
{
    let between: i64 = seconds_from(ts, at);
    let secs: u64 = if between < 0 {
        0
    } else {
        between as u64
    };
    if secs < 60 {
        let n = decimal_text(secs);
        cat2(n.as_str(), " sec ago")
    } else if secs < 3600 {
        let n = decimal_text(secs / 60);
        cat2(n.as_str(), " min ago")
    } else if secs < 86400 {
        let n = decimal_text(secs / 3600);
        cat2(n.as_str(), "h ago")
    } else {
        let n = decimal_text(secs / 86400);
        cat2(n.as_str(), "d ago")
    }
}

/// How long ago something was, by the clock.
pub fn relative_time(ts: Timestamp) -> (r: String)
    requires
        ts.wf(),
    ensures
        exists|at: Timestamp| at.wf() && r@ == #[trigger] ago_text(ts, at),
{
    let at = now();
    relative_time_at(ts, at)
}

// ── Collecting ───────────────────────────────────────────────────────────────

/// The place of the last entry that was applied.
pub fn last_applied_index(entries: &[JournalEntry]) -> (r: Option<usize>)
    ensures
        match r {
            Some(i) => i < entries@.len() && latest(
                entries@,
                Pick::Applied,
                Seq::empty(),
                Seq::empty(),
            ) == Some(entries@[i as int]),
            None => latest(entries@, Pick::Applied, Seq::empty(), Seq::empty()) is None,
        },
{
    proof {
        reveal_strlit("");
        assert(""@ == Seq::<char>::empty());
    }
    latest_index(entries, Pick::Applied, "", "")
}

/// Those of the first `n` entries that do not lie before an instant.
pub open spec fn entries_since(entries: Seq<JournalEntry>, since: Timestamp, n: nat) -> Seq<
    JournalEntry,
>
    decreases n,
{
    if n == 0 || n > entries.len() {
        Seq::empty()
    } else if entries[n - 1].timestamp.before(since) {
        entries_since(entries, since, (n - 1) as nat)
    } else {
        entries_since(entries, since, (n - 1) as nat).push(entries[n - 1])
    }
}

/// The entries within the time that a diagnosis looks at, as read at a given time.
pub fn collect_entries_at(raw: Vec<JournalEntry>, since: &str, at: Timestamp) -> (r: Result<
    Vec<JournalEntry>,
    String,
>)
    requires
        at.wf(),
        since_in_reach(since@, at),
    ensures
        match (r, since_read(since@, at)) {
            (Ok(v), Ok(t)) => v@ == entries_since(raw@, t, raw@.len()),
            (Err(e), Err(m)) => e@ == m,
            _ => false,
        },
{
    let start = match parse_since_at(since, at) {
        Ok(t) => t,
        Err(e) => {
            return Err(e);
        },
    };
    let ghost all = raw@;
    let mut out: Vec<JournalEntry> = Vec::new();
    for entry in it: raw
        invariant
            it.seq() == all,
            out@ == entries_since(all, start, it.index() as nat),
    {
        let before = entry.timestamp.secs < start.secs || (entry.timestamp.secs == start.secs
            && entry.timestamp.nanos < start.nanos);
        if !before {
            out.push(entry);
        }
    }
    Ok(out)
}

/// The entries within the time that a diagnosis looks at, by the clock.
pub fn collect_entries(raw: Vec<JournalEntry>, since: &str) -> (r: Result<
    Vec<JournalEntry>,
    String,
>)
    requires
        since_always_in_reach(since@),
    ensures
        exists|at: Timestamp|
            at.wf() && at.secs >= 0 && !at.leap() && (match (r, #[trigger] since_read(since@, at)) {
                (Ok(v), Ok(t)) => v@ == entries_since(raw@, t, raw@.len()),
                (Err(e), Err(m)) => e@ == m,
                _ => false,
            }),
{
    let at = now();
    collect_entries_at(raw, since, at)
}

// ── Laws ─────────────────────────────────────────────────────────────────────

/// A list without duplicates stays so with one more pair.
proof fn lemma_with_pair(pairs: Seq<(Seq<char>, Seq<char>)>, pair: (Seq<char>, Seq<char>))
    requires
        pairs.no_duplicates(),
    ensures
        with_pair(pairs, pair).no_duplicates(),
        with_pair(pairs, pair).contains(pair),
        forall|p: (Seq<char>, Seq<char>)|
            pairs.contains(p) ==> #[trigger] with_pair(pairs, pair).contains(p),
{
    let all = with_pair(pairs, pair);
    if !pairs.contains(pair) {
        assert(all[pairs.len() as int] == pair);
        assert forall|p: (Seq<char>, Seq<char>)| pairs.contains(p) implies #[trigger] all.contains(
            p,
        ) by {
            assert(all[pairs.index_of(p)] == p);
        }
        assert forall|i: int, j: int|
            0 <= i < all.len() && 0 <= j < all.len() && i != j implies #[trigger] all[i]
            != #[trigger] all[j] by {
            if i == pairs.len() {
                assert(pairs.contains(pairs[j]));
            } else if j == pairs.len() {
                assert(pairs.contains(pairs[i]));
            } else {
                assert(pairs[i] != pairs[j]);
            }
        }
    }
}

/// The entities of states are put in without duplicates, and all of them are.
proof fn lemma_with_states(
    pairs: Seq<(Seq<char>, Seq<char>)>,
    states: Seq<SerializableState>,
    n: nat,
)
    requires
        pairs.no_duplicates(),
        n <= states.len(),
    ensures
        with_states(pairs, states, n).no_duplicates(),
        forall|p: (Seq<char>, Seq<char>)|
            pairs.contains(p) ==> #[trigger] with_states(pairs, states, n).contains(p),
        forall|i: int|
            0 <= i < n ==> with_states(pairs, states, n).contains(
                ((#[trigger] states[i]).entity_type@, states[i].selector_name@),
            ),
    decreases n,
{
    if n > 0 {
        lemma_with_states(pairs, states, (n - 1) as nat);
        lemma_with_pair(
            with_states(pairs, states, (n - 1) as nat),
            (states[n - 1].entity_type@, states[n - 1].selector_name@),
        );
    }
}

/// The entities of operations are put in without duplicates, and all of them are.
proof fn lemma_with_ops(
    pairs: Seq<(Seq<char>, Seq<char>)>,
    ops: Seq<SerializableDiffOp>,
    n: nat,
)
    requires
        pairs.no_duplicates(),
        n <= ops.len(),
    ensures
        with_ops(pairs, ops, n).no_duplicates(),
        forall|p: (Seq<char>, Seq<char>)|
            pairs.contains(p) ==> #[trigger] with_ops(pairs, ops, n).contains(p),
        forall|i: int|
            0 <= i < n ==> with_ops(pairs, ops, n).contains(
                ((#[trigger] ops[i]).entity_type@, ops[i].entity_name@),
            ),
    decreases n,
{
    if n > 0 {
        lemma_with_ops(pairs, ops, (n - 1) as nat);
        lemma_with_pair(
            with_ops(pairs, ops, (n - 1) as nat),
            (ops[n - 1].entity_type@, ops[n - 1].entity_name@),
        );
    }
}

/// Whether an entry names an entity, in its state or in an operation.
pub open spec fn names_entity(entry: JournalEntry, entity: (Seq<char>, Seq<char>)) -> bool {
    ||| exists|i: int|
        0 <= i < entry.state_after.entities@.len() && (
            (#[trigger] entry.state_after.entities@[i]).entity_type@,
            entry.state_after.entities@[i].selector_name@,
        ) == entity
    ||| exists|i: int|
        0 <= i < entry.diff.operations@.len() && (
            (#[trigger] entry.diff.operations@[i]).entity_type@,
            entry.diff.operations@[i].entity_name@,
        ) == entity
}

/// The entities of entries are put in without duplicates, and all of them are.
proof fn lemma_with_entries(
    pairs: Seq<(Seq<char>, Seq<char>)>,
    entries: Seq<JournalEntry>,
    n: nat,
)
    requires
        pairs.no_duplicates(),
        n <= entries.len(),
    ensures
        with_entries(pairs, entries, n).no_duplicates(),
        forall|p: (Seq<char>, Seq<char>)|
            pairs.contains(p) ==> #[trigger] with_entries(pairs, entries, n).contains(p),
        forall|i: int, p: (Seq<char>, Seq<char>)|
            0 <= i < n && #[trigger] names_entity(entries[i], p) ==> with_entries(
                pairs,
                entries,
                n,
            ).contains(p),
    decreases n,
{
    if n > 0 {
        let states = entries[n - 1].state_after.entities@;
        let ops = entries[n - 1].diff.operations@;
        let before = with_entries(pairs, entries, (n - 1) as nat);
        let middle = with_states(before, states, states.len());
        lemma_with_entries(pairs, entries, (n - 1) as nat);
        lemma_with_states(before, states, states.len());
        lemma_with_ops(middle, ops, ops.len());
        let all = with_entries(pairs, entries, n);
        assert forall|i: int, p: (Seq<char>, Seq<char>)|
            0 <= i < n && #[trigger] names_entity(entries[i], p) implies all.contains(p) by {
            if i < n - 1 {
                assert(before.contains(p));
                assert(middle.contains(p));
            } else if exists|k: int|
                0 <= k < states.len() && ((#[trigger] states[k]).entity_type@, states[k].selector_name@)
                    == p {
                assert(middle.contains(p));
            }
        }
    }
}

/// Each managed entity is listed once, and every entity that the last apply or an
/// entry names is listed.
pub proof fn managed_are_listed_once(
    entries: Seq<JournalEntry>,
    last_applied: Option<&JournalEntry>,
)
    ensures
        managed(entries, last_applied).no_duplicates(),
        forall|i: int, p: (Seq<char>, Seq<char>)|
            0 <= i < entries.len() && #[trigger] names_entity(entries[i], p) ==> managed(
                entries,
                last_applied,
            ).contains(p),
        last_applied matches Some(e) ==> forall|i: int|
            0 <= i < e.state_after.entities@.len() ==> managed(entries, last_applied).contains(
                (
                    (#[trigger] e.state_after.entities@[i]).entity_type@,
                    e.state_after.entities@[i].selector_name@,
                ),
            ),
{
    let first = match last_applied {
        Some(e) => {
            lemma_with_states(
                Seq::empty(),
                e.state_after.entities@,
                e.state_after.entities@.len(),
            );
            with_states(Seq::empty(), e.state_after.entities@, e.state_after.entities@.len())
        },
        None => Seq::empty(),
    };
    lemma_with_entries(first, entries, entries.len());
}

/// The latest entry that matters is one of those that matter, and none of them has
/// a higher number. There is none exactly where no entry matters.
pub proof fn latest_is_highest(
    entries: Seq<JournalEntry>,
    pick: Pick,
    entity_type: Seq<char>,
    name: Seq<char>,
    n: nat,
)
    requires
        n <= entries.len(),
    ensures
        match latest_in(entries, pick, entity_type, name, n) {
            Some(e) => {
                &&& picks(pick, e, entity_type, name)
                &&& exists|i: int| 0 <= i < n && #[trigger] entries[i] == e
                &&& forall|i: int|
                    0 <= i < n && picks(pick, #[trigger] entries[i], entity_type, name)
                        ==> entries[i].seq <= e.seq
            },
            None => forall|i: int|
                0 <= i < n ==> !picks(pick, #[trigger] entries[i], entity_type, name),
        },
    decreases n,
{
    if n > 0 {
        latest_is_highest(entries, pick, entity_type, name, (n - 1) as nat);
    }
}

/// A selector argument for a name reads as that name, whatever it holds.
pub proof fn selector_reads_back(name: Seq<char>)
    ensures
        diagnose_selector_read("name="@ + name) == Ok::<(Seq<char>, Seq<char>), Seq<char>>(
            ("name"@, name),
        ),
{
    reveal_strlit("name");
    reveal_strlit("name=");
    let s = "name="@ + name;
    assert(s == "name"@.push('=') + name);
    position_behind("name"@, '=', name, 0);
    assert(s.take(4) == "name"@);
    assert(s.skip(5) == name);
}

/// The entries that matter among some and others behind them are those among
/// the first, then those among the others.
pub proof fn picked_of_parts(
    a: Seq<JournalEntry>,
    b: Seq<JournalEntry>,
    pick: Pick,
    entity_type: Seq<char>,
    name: Seq<char>,
)
    ensures
        picked(a + b, pick, entity_type, name, (a + b).len()) == picked(a, pick, entity_type, name, a.len()) + picked(b, pick, entity_type, name, b.len()),
{
    lemma_picked_of_parts(a, b, pick, entity_type, name, b.len());
}

/// The first elements give the same whatever stands behind them.
proof fn lemma_picked_of_parts_start(
    a: Seq<JournalEntry>,
    b: Seq<JournalEntry>,
    pick: Pick,
    entity_type: Seq<char>,
    name: Seq<char>,
    n: nat,
)
    requires
        n <= a.len(),
    ensures
        picked(a + b, pick, entity_type, name, n) == picked(a, pick, entity_type, name, n),
    decreases n,
{
    if n > 0 {
        lemma_picked_of_parts_start(a, b, pick, entity_type, name, (n - 1) as nat);
        assert((a + b)[n - 1] == a[n - 1]);
    }
}

/// The first `m` elements of the second part follow all of the first part.
proof fn lemma_picked_of_parts(
    a: Seq<JournalEntry>,
    b: Seq<JournalEntry>,
    pick: Pick,
    entity_type: Seq<char>,
    name: Seq<char>,
    m: nat,
)
    requires
        m <= b.len(),
    ensures
        picked(a + b, pick, entity_type, name, a.len() + m) == picked(a, pick, entity_type, name, a.len()) + picked(b, pick, entity_type, name, m),
    decreases m,
{
    if m == 0 {
        lemma_picked_of_parts_start(a, b, pick, entity_type, name, a.len());
    } else {
        lemma_picked_of_parts(a, b, pick, entity_type, name, (m - 1) as nat);
        assert((a + b)[a.len() + m - 1] == b[m - 1]);
    }
}

/// The entities asked for among some and others behind them are those among
/// the first, then those among the others.
pub proof fn asked_of_parts(
    a: Seq<(Seq<char>, Seq<char>)>,
    b: Seq<(Seq<char>, Seq<char>)>,
    selectors: Seq<(String, String)>,
)
    ensures
        asked_entities(a + b, selectors, (a + b).len()) == asked_entities(a, selectors, a.len()) + asked_entities(b, selectors, b.len()),
{
    lemma_asked_of_parts(a, b, selectors, b.len());
}

/// The first elements give the same whatever stands behind them.
proof fn lemma_asked_of_parts_start(
    a: Seq<(Seq<char>, Seq<char>)>,
    b: Seq<(Seq<char>, Seq<char>)>,
    selectors: Seq<(String, String)>,
    n: nat,
)
    requires
        n <= a.len(),
    ensures
        asked_entities(a + b, selectors, n) == asked_entities(a, selectors, n),
    decreases n,
{
    if n > 0 {
        lemma_asked_of_parts_start(a, b, selectors, (n - 1) as nat);
        assert((a + b)[n - 1] == a[n - 1]);
    }
}

/// The first `m` elements of the second part follow all of the first part.
proof fn lemma_asked_of_parts(
    a: Seq<(Seq<char>, Seq<char>)>,
    b: Seq<(Seq<char>, Seq<char>)>,
    selectors: Seq<(String, String)>,
    m: nat,
)
    requires
        m <= b.len(),
    ensures
        asked_entities(a + b, selectors, a.len() + m) == asked_entities(a, selectors, a.len()) + asked_entities(b, selectors, m),
    decreases m,
{
    if m == 0 {
        lemma_asked_of_parts_start(a, b, selectors, a.len());
    } else {
        lemma_asked_of_parts(a, b, selectors, (m - 1) as nat);
        assert((a + b)[a.len() + m - 1] == b[m - 1]);
    }
}

/// The entries within a time among some and others behind them are those among
/// the first, then those among the others.
pub proof fn recent_of_parts(
    a: Seq<JournalEntry>,
    b: Seq<JournalEntry>,
    since: Timestamp,
)
    ensures
        entries_since(a + b, since, (a + b).len()) == entries_since(a, since, a.len()) + entries_since(b, since, b.len()),
{
    lemma_recent_of_parts(a, b, since, b.len());
}

/// The first elements give the same whatever stands behind them.
proof fn lemma_recent_of_parts_start(
    a: Seq<JournalEntry>,
    b: Seq<JournalEntry>,
    since: Timestamp,
    n: nat,
)
    requires
        n <= a.len(),
    ensures
        entries_since(a + b, since, n) == entries_since(a, since, n),
    decreases n,
{
    if n > 0 {
        lemma_recent_of_parts_start(a, b, since, (n - 1) as nat);
        assert((a + b)[n - 1] == a[n - 1]);
    }
}

/// The first `m` elements of the second part follow all of the first part.
proof fn lemma_recent_of_parts(
    a: Seq<JournalEntry>,
    b: Seq<JournalEntry>,
    since: Timestamp,
    m: nat,
)
    requires
        m <= b.len(),
    ensures
        entries_since(a + b, since, a.len() + m) == entries_since(a, since, a.len()) + entries_since(b, since, m),
    decreases m,
{
    if m == 0 {
        lemma_recent_of_parts_start(a, b, since, a.len());
    } else {
        lemma_recent_of_parts(a, b, since, (m - 1) as nat);
        assert((a + b)[a.len() + m - 1] == b[m - 1]);
    }
}

/// The state of an entity is the first one of its type and name; where none has
/// them there is none.
pub proof fn state_is_the_first(
    states: Seq<SerializableState>,
    entity_type: Seq<char>,
    name: Seq<char>,
)
    ensures
        forall|i: int|
            0 <= i < states.len() && (#[trigger] states[i]).entity_type@ == entity_type
                && states[i].selector_name@ == name && (forall|k: int|
                0 <= k < i ==> !((#[trigger] states[k]).entity_type@ == entity_type
                    && states[k].selector_name@ == name)) ==> state_of(states, entity_type, name)
                == Some(states[i]),
        state_of(states, entity_type, name) matches Some(s) ==> exists|i: int|
            0 <= i < states.len() && #[trigger] states[i] == s && s.entity_type@ == entity_type
                && s.selector_name@ == name,
        state_of(states, entity_type, name) is None <==> forall|k: int|
            0 <= k < states.len() ==> !((#[trigger] states[k]).entity_type@ == entity_type
                && states[k].selector_name@ == name),
{
    lemma_state_from(states, entity_type, name, 0);
}

/// What a search for a state finds.
proof fn lemma_state_from(
    states: Seq<SerializableState>,
    entity_type: Seq<char>,
    name: Seq<char>,
    from: int,
)
    requires
        0 <= from <= states.len(),
    ensures
        match state_from(states, entity_type, name, from) {
            Some(s) => exists|i: int|
                from <= i < states.len() && #[trigger] states[i] == s && s.entity_type@
                    == entity_type && s.selector_name@ == name && forall|k: int|
                    from <= k < i ==> !((#[trigger] states[k]).entity_type@ == entity_type
                        && states[k].selector_name@ == name),
            None => forall|k: int|
                from <= k < states.len() ==> !((#[trigger] states[k]).entity_type@ == entity_type
                    && states[k].selector_name@ == name),
        },
    decreases states.len() - from,
{
    if from < states.len() {
        if states[from].entity_type@ == entity_type && states[from].selector_name@ == name {
            assert(states[from] == states[from]);
        } else {
            lemma_state_from(states, entity_type, name, from + 1);
            if let Some(s) = state_from(states, entity_type, name, from + 1) {
                let i = choose|i: int|
                    from + 1 <= i < states.len() && #[trigger] states[i] == s && s.entity_type@
                        == entity_type && s.selector_name@ == name && forall|k: int|
                        from + 1 <= k < i ==> !((#[trigger] states[k]).entity_type@ == entity_type
                            && states[k].selector_name@ == name);
                assert(states[i] == s);
            }
        }
    }
}

/// What makes an entry matter for an entity, told by what the entry holds: its
/// trigger, its outcome, its operations and the states after it. One failure of an
/// apply is enough.
pub proof fn entries_matter(entry: JournalEntry, entity_type: Seq<char>, name: Seq<char>)
    ensures
        ({
            let ops = entry.diff.operations@;
            let states = entry.state_after.entities@;
            let on_entity = exists|k: int|
                0 <= k < ops.len() && (#[trigger] ops[k]).entity_type@ == entity_type
                    && ops[k].entity_name@ == name;
            let in_state = exists|k: int|
                0 <= k < states.len() && (#[trigger] states[k]).entity_type@ == entity_type
                    && states[k].selector_name@ == name;
            let applied = entry.outcome is Applied;
            &&& picks(Pick::Applied, entry, entity_type, name) <==> applied
            &&& picks(Pick::AppliedState, entry, entity_type, name) <==> applied && in_state
            &&& picks(Pick::AppliedOp, entry, entity_type, name) <==> applied && on_entity
            &&& picks(Pick::Dhcp, entry, entity_type, name) <==> entry.trigger is DhcpEvent
                && in_state
            &&& picks(Pick::Mention, entry, entity_type, name) <==> in_state || on_entity
            &&& picks(Pick::FailedApply, entry, entity_type, name) <==> (entry.trigger is PolicyApply
                || entry.trigger is DaemonStartup || entry.trigger is Revert) && on_entity && applied
                && entry.outcome->failed >= 1
            &&& picks(Pick::ExternalChange, entry, entity_type, name) <==> entry.trigger is ExternalChange
                && exists|k: int|
                0 <= k < entry.trigger->changed_entities@.len()
                    && (#[trigger] entry.trigger->changed_entities@[k])@ == name
            &&& picks(Pick::Carrier, entry, entity_type, name) <==> exists|k: int|
                0 <= k < states.len() && (#[trigger] states[k]).entity_type@ == entity_type
                    && states[k].selector_name@ == name && state_of(states, entity_type, name)
                    == Some(states[k]) && (member(states[k].fields, "carrier"@) == Some(
                    Json::Bool(true),
                ) || member(states[k].fields, "carrier"@) == Some(Json::Bool(false)))
        }),
{
    let states = entry.state_after.entities@;
    state_is_the_first(states, entity_type, name);
    if let Trigger::ExternalChange { changed_entities } = entry.trigger {
        let names = views(changed_entities@);
        if names.contains(name) {
            let k = names.index_of(name);
            assert(changed_entities@[k]@ == name);
        }
        if exists|k: int|
            0 <= k < changed_entities@.len() && (#[trigger] changed_entities@[k])@ == name {
            let k = choose|k: int|
                0 <= k < changed_entities@.len() && (#[trigger] changed_entities@[k])@ == name;
            assert(names[k] == name);
        }
    }
}

/// The carrier of an entity is what the entry "carrier" of its state says, where
/// that is a truth value.
pub proof fn carrier_is_in_the_state(
    states: Seq<SerializableState>,
    entity_type: Seq<char>,
    name: Seq<char>,
    b: bool,
)
    ensures
        carrier_of(states, entity_type, name) == Some(b) <==> (state_of(states, entity_type, name)
            is Some && member(state_of(states, entity_type, name)->0.fields, "carrier"@) == Some(
            Json::Bool(b),
        )),
{
}

/// Of the entries that matter the one with the highest number is the latest, and of
/// those with one number the last one in the list.
pub proof fn latest_is_the_last_of_its_number(
    entries: Seq<JournalEntry>,
    pick: Pick,
    entity_type: Seq<char>,
    name: Seq<char>,
    i: int,
    n: nat,
)
    requires
        0 <= i < n <= entries.len(),
        picks(pick, entries[i], entity_type, name),
        forall|j: int|
            0 <= j < n && picks(pick, #[trigger] entries[j], entity_type, name) ==> entries[j].seq
                <= entries[i].seq,
        forall|j: int|
            i < j < n && picks(pick, #[trigger] entries[j], entity_type, name) ==> entries[j].seq
                < entries[i].seq,
    ensures
        latest_in(entries, pick, entity_type, name, n) == Some(entries[i]),
    decreases n,
{
    let m = (n - 1) as nat;
    if i < n - 1 {
        latest_is_the_last_of_its_number(entries, pick, entity_type, name, i, m);
        assert(picks(pick, entries[n - 1], entity_type, name) ==> entries[n - 1].seq
            < entries[i].seq);
    } else {
        latest_is_highest(entries, pick, entity_type, name, m);
        if let Some(b) = latest_in(entries, pick, entity_type, name, m) {
            let k = choose|k: int| 0 <= k < m && #[trigger] entries[k] == b;
            assert(entries[k].seq <= entries[i].seq);
        }
    }
}

/// An entry that matters is picked, whatever stands around it, and one that does
/// not is not.
pub proof fn picked_of_one(
    entry: JournalEntry,
    pick: Pick,
    entity_type: Seq<char>,
    name: Seq<char>,
)
    ensures
        picks(pick, entry, entity_type, name) ==> picked(seq![entry], pick, entity_type, name, 1)
            == seq![entry],
        !picks(pick, entry, entity_type, name) ==> picked(
            seq![entry],
            pick,
            entity_type,
            name,
            1,
        ).len() == 0,
{
    assert(picked(seq![entry], pick, entity_type, name, 0) == Seq::<JournalEntry>::empty());
}

/// The entries that matter, in the order of their numbers, are all entries that
/// matter and no others.
pub proof fn picked_are_those_that_matter(
    entries: Seq<JournalEntry>,
    pick: Pick,
    entity_type: Seq<char>,
    name: Seq<char>,
    entry: JournalEntry,
)
    ensures
        picked_by_seq(entries, pick, entity_type, name).contains(entry) <==> entries.contains(entry)
            && picks(pick, entry, entity_type, name),
        seqs_ascending(picked_by_seq(entries, pick, entity_type, name)),
{
    let chosen = picked(entries, pick, entity_type, name, entries.len());
    lemma_picked_holds(entries, pick, entity_type, name, entries.len(), entry);
    assert(entries.take(entries.len() as int) == entries);
    sorted_by_seq(chosen);
    vstd::seq_lib::to_multiset_contains(chosen, entry);
    vstd::seq_lib::to_multiset_contains(by_seq(chosen), entry);
}

/// What is picked out of the first `n` entries.
proof fn lemma_picked_holds(
    entries: Seq<JournalEntry>,
    pick: Pick,
    entity_type: Seq<char>,
    name: Seq<char>,
    n: nat,
    entry: JournalEntry,
)
    requires
        n <= entries.len(),
    ensures
        picked(entries, pick, entity_type, name, n).contains(entry) <==> entries.take(
            n as int,
        ).contains(entry) && picks(pick, entry, entity_type, name),
    decreases n,
{
    if n > 0 {
        let before = picked(entries, pick, entity_type, name, (n - 1) as nat);
        let last = entries[n - 1];
        lemma_picked_holds(entries, pick, entity_type, name, (n - 1) as nat, entry);
        assert(entries.take(n as int) == entries.take(n - 1).push(last));
        lemma_one_more(entries.take(n - 1), last, entry);
        lemma_one_more(before, last, entry);
    }
}

/// What a list holds with one more element at its end.
pub proof fn lemma_one_more<A>(list: Seq<A>, last: A, x: A)
    ensures
        list.push(last).contains(x) == (list.contains(x) || last == x),
{
    let longer = list.push(last);
    if list.contains(x) {
        assert(longer[list.index_of(x)] == x);
    }
    if last == x {
        assert(longer[list.len() as int] == x);
    }
    if longer.contains(x) {
        let i = longer.index_of(x);
        if i < list.len() {
            assert(list[i] == x);
        }
    }
}

/// Every entity that an operation of an entry names is managed.
pub proof fn entities_of_operations_are_managed(
    entries: Seq<JournalEntry>,
    last_applied: Option<&JournalEntry>,
    i: int,
    k: int,
)
    requires
        0 <= i < entries.len(),
        0 <= k < entries[i].diff.operations@.len(),
    ensures
        managed(entries, last_applied).contains(
            (
                entries[i].diff.operations@[k].entity_type@,
                entries[i].diff.operations@[k].entity_name@,
            ),
        ),
{
    managed_are_listed_once(entries, last_applied);
    let op = entries[i].diff.operations@[k];
    assert(names_entity(entries[i], (op.entity_type@, op.entity_name@)));
}

/// Every entity whose state an entry records is managed.
pub proof fn entities_of_states_are_managed(
    entries: Seq<JournalEntry>,
    last_applied: Option<&JournalEntry>,
    i: int,
    k: int,
)
    requires
        0 <= i < entries.len(),
        0 <= k < entries[i].state_after.entities@.len(),
    ensures
        managed(entries, last_applied).contains(
            (
                entries[i].state_after.entities@[k].entity_type@,
                entries[i].state_after.entities@[k].selector_name@,
            ),
        ),
{
    managed_are_listed_once(entries, last_applied);
    let state = entries[i].state_after.entities@[k];
    assert(names_entity(entries[i], (state.entity_type@, state.selector_name@)));
}

/// Every managed entity is named: by the state of the last apply, or by a state or
/// an operation of an entry.
pub proof fn managed_entities_are_named(
    entries: Seq<JournalEntry>,
    last_applied: Option<&JournalEntry>,
    entity: (Seq<char>, Seq<char>),
)
    requires
        managed(entries, last_applied).contains(entity),
    ensures
        (last_applied is Some && exists|k: int|
            0 <= k < last_applied->0.state_after.entities@.len() && ((
            #[trigger] last_applied->0.state_after.entities@[k]).entity_type@,
            last_applied->0.state_after.entities@[k].selector_name@) == entity) || exists|i: int|
            0 <= i < entries.len() && names_entity(#[trigger] entries[i], entity),
{
    let first = match last_applied {
        Some(e) => with_states(
            Seq::empty(),
            e.state_after.entities@,
            e.state_after.entities@.len(),
        ),
        None => Seq::empty(),
    };
    lemma_entries_named(first, entries, entries.len(), entity);
    if first.contains(entity) {
        let states = last_applied->0.state_after.entities@;
        lemma_states_named(Seq::empty(), states, states.len(), entity);
    }
}

/// What states put in is their entities.
proof fn lemma_states_named(
    pairs: Seq<(Seq<char>, Seq<char>)>,
    states: Seq<SerializableState>,
    n: nat,
    entity: (Seq<char>, Seq<char>),
)
    requires
        n <= states.len(),
        with_states(pairs, states, n).contains(entity),
    ensures
        pairs.contains(entity) || exists|k: int|
            0 <= k < n && ((#[trigger] states[k]).entity_type@, states[k].selector_name@) == entity,
    decreases n,
{
    if n > 0 {
        let before = with_states(pairs, states, (n - 1) as nat);
        let last = (states[n - 1].entity_type@, states[n - 1].selector_name@);
        lemma_one_more(before, last, entity);
        if before.contains(entity) {
            lemma_states_named(pairs, states, (n - 1) as nat, entity);
        }
    }
}

/// What operations put in is their entities.
proof fn lemma_ops_named(
    pairs: Seq<(Seq<char>, Seq<char>)>,
    ops: Seq<SerializableDiffOp>,
    n: nat,
    entity: (Seq<char>, Seq<char>),
)
    requires
        n <= ops.len(),
        with_ops(pairs, ops, n).contains(entity),
    ensures
        pairs.contains(entity) || exists|k: int|
            0 <= k < n && ((#[trigger] ops[k]).entity_type@, ops[k].entity_name@) == entity,
    decreases n,
{
    if n > 0 {
        let before = with_ops(pairs, ops, (n - 1) as nat);
        let last = (ops[n - 1].entity_type@, ops[n - 1].entity_name@);
        lemma_one_more(before, last, entity);
        if before.contains(entity) {
            lemma_ops_named(pairs, ops, (n - 1) as nat, entity);
        }
    }
}

/// What entries put in is named by them.
proof fn lemma_entries_named(
    pairs: Seq<(Seq<char>, Seq<char>)>,
    entries: Seq<JournalEntry>,
    n: nat,
    entity: (Seq<char>, Seq<char>),
)
    requires
        n <= entries.len(),
        with_entries(pairs, entries, n).contains(entity),
    ensures
        pairs.contains(entity) || exists|i: int|
            0 <= i < n && names_entity(#[trigger] entries[i], entity),
    decreases n,
{
    if n > 0 {
        let e = entries[n - 1];
        let states = e.state_after.entities@;
        let ops = e.diff.operations@;
        let before = with_entries(pairs, entries, (n - 1) as nat);
        let middle = with_states(before, states, states.len());
        lemma_ops_named(middle, ops, ops.len(), entity);
        if middle.contains(entity) {
            lemma_states_named(before, states, states.len(), entity);
            if before.contains(entity) {
                lemma_entries_named(pairs, entries, (n - 1) as nat, entity);
            } else {
                assert(names_entity(entries[n - 1], entity));
            }
        } else {
            assert(names_entity(entries[n - 1], entity));
        }
    }
}

/// Without selectors all entities are looked at; with selectors exactly those whose
/// name one of them asks for.
pub proof fn selectors_choose_entities(
    entities: Seq<(Seq<char>, Seq<char>)>,
    selectors: Seq<(String, String)>,
    entity: (Seq<char>, Seq<char>),
)
    ensures
        selectors.len() == 0 ==> filtered_entities(entities, selectors) == entities,
        selectors.len() > 0 ==> (filtered_entities(entities, selectors).contains(entity)
            <==> entities.contains(entity) && exists|i: int|
            0 <= i < selectors.len() && (#[trigger] selectors[i]).0@ == "name"@ && selectors[i].1@
                == entity.1),
{
    lemma_asked_holds(entities, selectors, entities.len(), entity);
    assert(entities.take(entities.len() as int) == entities);
}

/// What is asked for among the first `n` entities.
proof fn lemma_asked_holds(
    entities: Seq<(Seq<char>, Seq<char>)>,
    selectors: Seq<(String, String)>,
    n: nat,
    entity: (Seq<char>, Seq<char>),
)
    requires
        n <= entities.len(),
    ensures
        asked_entities(entities, selectors, n).contains(entity) <==> entities.take(
            n as int,
        ).contains(entity) && asks_for(selectors, entity.1),
    decreases n,
{
    if n > 0 {
        let before = asked_entities(entities, selectors, (n - 1) as nat);
        let last = entities[n - 1];
        lemma_asked_holds(entities, selectors, (n - 1) as nat, entity);
        assert(entities.take(n as int) == entities.take(n - 1).push(last));
        lemma_one_more(entities.take(n - 1), last, entity);
        lemma_one_more(before, last, entity);
    }
}

/// An entry is looked at exactly where it does not lie before the time that is asked
/// for.
pub proof fn recent_of_one(entry: JournalEntry, since: Timestamp)
    ensures
        ({
            let t = entry.timestamp;
            let earlier = t.secs < since.secs || (t.secs == since.secs && t.nanos < since.nanos);
            &&& earlier ==> entries_since(seq![entry], since, 1).len() == 0
            &&& !earlier ==> entries_since(seq![entry], since, 1) == seq![entry]
        }),
{
    assert(entries_since(seq![entry], since, 0) == Seq::<JournalEntry>::empty());
}

/// How long ago something was is told in its largest unit, rounded down.
pub proof fn ages_are_told_in_their_largest_unit(ts: Timestamp, at: Timestamp)
    ensures
        ({
            let d = seconds_between(ts, at);
            &&& d <= 0 ==> ago_text(ts, at) == decimal(0) + " sec ago"@
            &&& 0 <= d < 60 ==> ago_text(ts, at) == decimal(d as nat) + " sec ago"@
            &&& 60 <= d < 60 * 60 ==> ago_text(ts, at) == decimal((d / 60) as nat) + " min ago"@
            &&& 60 * 60 <= d < 24 * 60 * 60 ==> ago_text(ts, at) == decimal((d / 3600) as nat)
                + "h ago"@
            &&& 24 * 60 * 60 <= d ==> ago_text(ts, at) == decimal((d / 86400) as nat) + "d ago"@
        }),
{
}

/// A selector argument of a diagnosis is taken apart at its first equals sign; only
/// the key "name" is taken.
pub proof fn other_selectors_are_refused(s: Seq<char>)
    ensures
        !s.contains('=') ==> diagnose_selector_read(s) is Err,
        forall|eq: int|
            0 <= eq < s.len() && #[trigger] s[eq] == '=' && !s.take(eq).contains('=') ==> {
                &&& s.take(eq) == "name"@ ==> diagnose_selector_read(s) == Ok::<
                    (Seq<char>, Seq<char>),
                    Seq<char>,
                >((s.take(eq), s.skip(eq + 1)))
                &&& s.take(eq) != "name"@ ==> diagnose_selector_read(s) is Err
            },
{
    position_is_first(s, '=', 0);
    assert forall|eq: int|
        0 <= eq < s.len() && #[trigger] s[eq] == '=' && !s.take(eq).contains('=') implies position(
        s,
        '=',
        0,
    ) == Some(eq) by {
        let found = position(s, '=', 0)->0;
        if found < eq {
            assert(s.take(eq)[found] == '=');
        }
    }
}

/// What a finding holds is all its parts.
pub proof fn findings_are_kept(f: Finding, list: Seq<Finding>, i: int)
    requires
        0 <= i < list.len(),
    ensures
        f@.entity_name == f.entity_name@,
        f@.entity_type == f.entity_type@,
        f@.severity == f.severity,
        f@.pattern == f.pattern,
        f@.summary == f.summary@,
        f@.details == views(f.details@),
        f@.suggested_actions == views(f.suggested_actions@),
        f@.related_entries == f.related_entries@,
        finding_views(list).len() == list.len(),
        finding_views(list)[i] == list[i]@,
{
}

} // verus!
