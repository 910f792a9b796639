//! The `history` subcommand: which journal entries are shown.
use vstd::prelude::*;
use vstd::string::*;

use crate::journal::{JournalEntry, SerializableDiffOp, Trigger};
use crate::query::reads_as;
use crate::text::{
    cat2, cat3, contains, debug_str, debug_text, decimal, decimal_reads_back, decimal_text,
    find_char, lowercase, occurs_in, parse_unsigned, position, position_behind, position_is_first,
    same, to_lowercase, unsigned_value,
};
use crate::time::{
    minus_seconds, now, parse_rfc3339, reaches_back, rfc3339_instant, seconds_before, Timestamp,
};

pub mod display;
pub mod format;
pub mod table;

verus! {

/// The output formats of the history.
#[derive(Clone, Copy, Debug, PartialEq, Eq, Structural)]
pub enum HistoryOutputFormat {
    Text,
    Json,
}

/// The arguments of the `history` subcommand.
#[derive(Debug)]
pub struct HistoryArgs {
    /// Number of entries to show, most recent first.
    pub count: usize,
    /// Show entries since this time: 1h, 30m, 7d or ISO 8601.
    pub since: Option<String>,
    /// Show entries whose kind of trigger has this in it.
    pub trigger: Option<String>,
    /// Show entries that touch these entities, as key and value.
    pub selector: Vec<(String, String)>,
    /// Show one entry in full: by its number, or counted from the end where
    /// negative.
    pub show: Option<i64>,
    pub output: HistoryOutputFormat,
    /// Show full timestamps.
    pub absolute_timestamps: bool,
}

// ── Selectors ────────────────────────────────────────────────────────────────

/// What a selector argument reads as: the key before the first equals sign, which
/// must be "name", and the value behind it; or what is wrong with it.
pub open spec fn history_selector_read(s: Seq<char>) -> Result<(Seq<char>, Seq<char>), Seq<char>> {
    match position(s, '=', 0) {
        None => Err(
            "selector must be in key=value format, got: "@ + debug_text(s)
                + ". Only 'name' key is supported"@,
        ),
        Some(eq) => if s.take(eq) == "name"@ {
            Ok((s.take(eq), s.skip(eq + 1)))
        } else {
            Err(
                "invalid selector key "@ + debug_text(s.take(eq))
                    + "; history only supports 'name' (e.g. name=eth0)"@,
            )
        },
    }
}

/// Reads a selector argument of the form `name=value`.
pub fn parse_history_selector(s: &str) -> (r: Result<(String, String), String>)
    ensures
        reads_as(r, history_selector_read(s@)),
{
    match find_char(s, '=') {
        None => {
            let shown = debug_str(s);
            Err(
                cat3(
                    "selector must be in key=value format, got: ",
                    shown.as_str(),
                    ". Only 'name' key is supported",
                ),
            )
        },
        Some(eq) => {
            let n: usize = s.unicode_len();
            let key = s.substring_char(0, eq);
            let value = s.substring_char(eq + 1, n);
            assert(key@ == s@.take(eq as int));
            assert(value@ == s@.skip(eq + 1));
            if !same(key, "name") {
                let shown = debug_str(key);
                return Err(
                    cat3(
                        "invalid selector key ",
                        shown.as_str(),
                        "; history only supports 'name' (e.g. name=eth0)",
                    ),
                );
            }
            Ok((key.to_owned(), value.to_owned()))
        },
    }
}

// ── Points in time ───────────────────────────────────────────────────────────

/// The seconds that a unit of time stands for.
pub open spec fn unit_seconds(unit: char) -> Option<nat> {
    if unit == 'd' {
        Some(86400)
    } else if unit == 'h' {
        Some(3600)
    } else if unit == 'm' {
        Some(60)
    } else if unit == 's' {
        Some(1)
    } else {
        None
    }
}

/// Whether a text has the form of a relative duration: something, then a unit.
pub open spec fn relative_form(s: Seq<char>) -> bool {
    s.len() >= 2 && unit_seconds(s.last()) is Some
}

/// The number of seconds that a relative duration writes.
pub open spec fn relative_seconds(s: Seq<char>) -> Option<nat> {
    match unsigned_value(s.drop_last()) {
        Some(n) => Some(n as nat * unit_seconds(s.last())->0),
        None => None,
    }
}

/// A 64-bit number read as a signed one.
pub open spec fn as_signed(n: nat) -> int {
    if n <= i64::MAX {
        n as int
    } else {
        n - 0x1_0000_0000_0000_0000
    }
}

/// The longest duration, in seconds either way, that time can be moved by.
pub const MAX_DELTA_SECS: i64 = 9223372036854775;

/// Whether a number of seconds is a duration at all.
pub open spec fn is_delta(n: int) -> bool {
    -MAX_DELTA_SECS <= n <= MAX_DELTA_SECS
}

/// What `--since` means at a point in time: the instant so long ago, or the
/// instant that it writes; or what is wrong with it.
pub open spec fn since_read(s: Seq<char>, at: Timestamp) -> Result<Timestamp, Seq<char>> {
    if relative_form(s) {
        match relative_seconds(s) {
            None => Err("invalid number in duration: "@ + debug_text(s)),
            Some(n) => if is_delta(as_signed(n)) {
                Ok(seconds_before(at, as_signed(n)))
            } else {
                Err("duration overflow: "@ + debug_text(s))
            },
        }
    } else {
        match rfc3339_instant(s) {
            Some(t) => Ok(t),
            None => Err(
                "invalid duration or timestamp "@ + debug_text(s)
                    + "; use e.g. 1h, 30m, 7d or ISO 8601"@,
            ),
        }
    }
}

/// Whether a relative duration can be taken off an instant.
pub open spec fn since_in_reach(s: Seq<char>, at: Timestamp) -> bool {
    relative_form(s) ==> match relative_seconds(s) {
        None => true,
        Some(n) => n <= u64::MAX && (is_delta(as_signed(n)) ==> reaches_back(at, as_signed(n))),
    }
}

/// Whether a relative duration can be taken off any instant that the clock can
/// show.
pub open spec fn since_always_in_reach(s: Seq<char>) -> bool {
    relative_form(s) ==> match relative_seconds(s) {
        None => true,
        Some(n) => n <= u64::MAX && (is_delta(as_signed(n)) ==> n <= 8334601228800),
    }
}

/// The number and the unit of a relative duration.
pub fn parse_relative_duration(s: &str) -> (r: Option<(&str, &str)>)
    ensures
        r is Some == relative_form(s@),
        r matches Some((number, unit)) ==> number@ == s@.drop_last() && unit@ == seq![s@.last()],
{
    let n: usize = s.unicode_len();
    if n < 2 {
        return None;
    }
    let unit = s.get_char(n - 1);
    if unit == 'd' || unit == 'h' || unit == 'm' || unit == 's' {
        let number = s.substring_char(0, n - 1);
        let tail = s.substring_char(n - 1, n);
        assert(number@ == s@.drop_last());
        assert(tail@ == seq![s@.last()]);
        Some((number, tail))
    } else {
        None
    }
}

/// The seconds of a number of units; `None` where they do not fit.
fn seconds_of(number: u64, unit: char) -> (r: Option<u64>)
    requires
        unit_seconds(unit) is Some,
    ensures
        match r {
            Some(n) => n == number as nat * unit_seconds(unit)->0,
            None => number as nat * unit_seconds(unit)->0 > u64::MAX,
        },
{
    if unit == 'd' {
        number.checked_mul(86400)
    } else if unit == 'h' {
        number.checked_mul(3600)
    } else if unit == 'm' {
        number.checked_mul(60)
    } else {
        Some(number)
    }
}

/// A 64-bit number read as a signed one.
fn to_signed(n: u64) -> (r: i64)
    ensures
        r == as_signed(n as nat),
{
    if n <= i64::MAX as u64 {
        n as i64
    } else {
        -((u64::MAX - n) as i64) - 1
    }
}

/// Whether a relative duration can be taken off any instant that the clock can
/// show. Where it cannot, `parse_since` is not to be called.
pub fn since_is_in_reach(s: &str) -> (r: bool)
    ensures
        r == since_always_in_reach(s@),
{
    match parse_relative_duration(s) {
        Some((number, _)) => match parse_unsigned(number) {
            Some(n) => {
                let count: usize = s.unicode_len();
                match seconds_of(n, s.get_char(count - 1)) {
                    Some(total) => {
                        let signed: i64 = to_signed(total);
                        signed < -9223372036854775 || signed > 9223372036854775 || total
                            <= 8334601228800
                    },
                    None => false,
                }
            },
            None => true,
        },
        None => true,
    }
}

/// Reads `--since` at a given point in time.
pub fn parse_since_at(s: &str, at: Timestamp) -> (r: Result<Timestamp, String>)
    requires
        at.wf(),
        since_in_reach(s@, at),
    ensures
        match (r, since_read(s@, at)) {
            (Ok(t), Ok(m)) => t == m,
            (Err(e), Err(m)) => e@ == m,
            _ => false,
        },
{
    match parse_relative_duration(s) {
        Some((number, _)) => match parse_unsigned(number) {
            Some(n) => {
                let count: usize = s.unicode_len();
                match seconds_of(n, s.get_char(count - 1)) {
                    Some(total) => {
                        let signed: i64 = to_signed(total);
                        if signed < -9223372036854775 || signed > 9223372036854775 {
                            let shown = debug_str(s);
                            Err(cat2("duration overflow: ", shown.as_str()))
                        } else {
                            Ok(minus_seconds(at, signed))
                        }
                    },
                    // Ruled out by the precondition.
                    None => Err(String::new()),
                }
            },
            None => {
                let shown = debug_str(s);
                Err(cat2("invalid number in duration: ", shown.as_str()))
            },
        },
        None => match parse_rfc3339(s) {
            Some(t) => Ok(t),
            None => {
                let shown = debug_str(s);
                Err(
                    cat3(
                        "invalid duration or timestamp ",
                        shown.as_str(),
                        "; use e.g. 1h, 30m, 7d or ISO 8601",
                    ),
                )
            },
        },
    }
}

/// Reads `--since` by the clock.
pub fn parse_since(s: &str) -> (r: Result<Timestamp, String>)
    requires
        since_always_in_reach(s@),
    ensures
        exists|at: Timestamp|
            at.wf() && at.secs >= 0 && !at.leap() && (match (r, #[trigger] since_read(s@, at)) {
                (Ok(t), Ok(m)) => t == m,
                (Err(e), Err(m)) => e@ == m,
                _ => false,
            }),
{
    let at = now();
    parse_since_at(s, at)
}

// ── Filters ──────────────────────────────────────────────────────────────────

/// The name of a kind of trigger, as filters know it.
pub open spec fn trigger_type(trigger: Trigger) -> Seq<char> {
    match trigger {
        Trigger::PolicyApply { .. } => "policy_apply"@,
        Trigger::DhcpEvent { .. } => "dhcp_event"@,
        Trigger::ExternalChange { .. } => "external_change"@,
        Trigger::DaemonStartup => "daemon_startup"@,
        Trigger::Revert { .. } => "revert"@,
    }
}

/// The name of a kind of trigger, as filters know it.
pub fn trigger_type_str(trigger: &Trigger) -> (r: &'static str)
    ensures
        r@ == trigger_type(*trigger),
{
    match trigger {
        Trigger::PolicyApply { .. } => "policy_apply",
        Trigger::DhcpEvent { .. } => "dhcp_event",
        Trigger::ExternalChange { .. } => "external_change",
        Trigger::DaemonStartup => "daemon_startup",
        Trigger::Revert { .. } => "revert",
    }
}

/// Whether the kind of an entry's trigger has the filter in it, in any case.
pub open spec fn trigger_matches(entry: JournalEntry, filter: Seq<char>) -> bool {
    occurs_in(lowercase(trigger_type(entry.trigger)), lowercase(filter))
}

/// Whether an operation touches an entity of the given name.
pub open spec fn touches(ops: Seq<SerializableDiffOp>, name: Seq<char>) -> bool {
    exists|i: int| 0 <= i < ops.len() && (#[trigger] ops[i]).entity_name@ == name
}

/// Whether an entry touches the entity of every selector with the key "name".
pub open spec fn selector_matches(entry: JournalEntry, selectors: Seq<(String, String)>) -> bool {
    forall|i: int|
        0 <= i < selectors.len() && (#[trigger] selectors[i]).0@ == "name"@ ==> touches(
            entry.diff.operations@,
            selectors[i].1@,
        )
}

/// Whether an entry passes all filters.
pub open spec fn passes(entry: JournalEntry, cutoff: Option<Timestamp>, args: HistoryArgs) -> bool {
    &&& cutoff is Some ==> !entry.timestamp.before(cutoff->0)
    &&& args.trigger is Some ==> trigger_matches(entry, args.trigger->0@)
    &&& selector_matches(entry, args.selector@)
}

/// Those of the first `n` entries that pass all filters.
pub open spec fn passing(
    entries: Seq<JournalEntry>,
    cutoff: Option<Timestamp>,
    args: HistoryArgs,
    n: nat,
) -> Seq<JournalEntry>
    decreases n,
{
    if n == 0 || n > entries.len() {
        Seq::empty()
    } else if passes(entries[n - 1], cutoff, args) {
        passing(entries, cutoff, args, (n - 1) as nat).push(entries[n - 1])
    } else {
        passing(entries, cutoff, args, (n - 1) as nat)
    }
}

/// The first `count` elements of a sequence, or all of it where it is shorter.
pub open spec fn at_most<A>(s: Seq<A>, count: nat) -> Seq<A> {
    if s.len() <= count {
        s
    } else {
        s.take(count as int)
    }
}

/// The entries that are shown where the filters are read at a given time.
pub open spec fn selection(
    entries: Seq<JournalEntry>,
    args: HistoryArgs,
    at: Timestamp,
) -> Result<Seq<JournalEntry>, Seq<char>> {
    match args.since {
        None => Ok(at_most(passing(entries, None, args, entries.len()), args.count as nat)),
        Some(s) => match since_read(s@, at) {
            Ok(t) => Ok(
                at_most(passing(entries, Some(t), args, entries.len()), args.count as nat),
            ),
            Err(e) => Err(e),
        },
    }
}

/// Whether the kind of an entry's trigger has the filter in it, in any case.
pub fn matches_trigger(entry: &JournalEntry, trigger_filter: &str) -> (r: bool)
    ensures
        r == trigger_matches(*entry, trigger_filter@),
{
    let kind = to_lowercase(trigger_type_str(&entry.trigger));
    let filter = to_lowercase(trigger_filter);
    contains(kind.as_str(), filter.as_str())
}

/// Whether an entry touches the entity of every selector with the key "name".
pub fn matches_selector(entry: &JournalEntry, selectors: &[(String, String)]) -> (r: bool)
    ensures
        r == selector_matches(*entry, selectors@),
{
    let ops = &entry.diff.operations;
    let m: usize = ops.len();
    let n: usize = selectors.len();
    let mut i: usize = 0;
    while i < n
        invariant
            i <= n,
            n == selectors@.len(),
            m == ops@.len(),
            ops@ == entry.diff.operations@,
            forall|k: int|
                0 <= k < i && (#[trigger] selectors@[k]).0@ == "name"@ ==> touches(
                    ops@,
                    selectors@[k].1@,
                ),
        decreases n - i,
    {
        if same(selectors[i].0.as_str(), "name") {
            let wanted = selectors[i].1.as_str();
            let mut found = false;
            let mut k: usize = 0;
            while k < m && !found
                invariant
                    k <= m,
                    m == ops@.len(),
                    i < n,
                    n == selectors@.len(),
                    wanted@ == selectors@[i as int].1@,
                    found ==> touches(ops@, wanted@),
                    !found ==> forall|j: int|
                        0 <= j < k ==> (#[trigger] ops@[j]).entity_name@ != wanted@,
                decreases m - k,
            {
                if same(ops[k].entity_name.as_str(), wanted) {
                    found = true;
                }
                k = k + 1;
            }
            if !found {
                assert(selectors@[i as int].0@ == "name"@);
                return false;
            }
        }
        i = i + 1;
    }
    true
}

/// Whether an entry passes all filters.
fn passes_filters(entry: &JournalEntry, cutoff: Option<Timestamp>, args: &HistoryArgs) -> (r: bool)
    ensures
        r == passes(*entry, cutoff, *args),
{
    if let Some(t) = cutoff {
        if entry.timestamp.secs < t.secs || (entry.timestamp.secs == t.secs && entry.timestamp.nanos
            < t.nanos) {
            return false;
        }
    }
    if let Some(filter) = &args.trigger {
        if !matches_trigger(entry, filter.as_str()) {
            return false;
        }
    }
    matches_selector(entry, args.selector.as_slice())
}

/// The first entries that pass all filters, at most as many as are asked for.
pub fn filter_entries_at(entries: Vec<JournalEntry>, args: &HistoryArgs, at: Timestamp) -> (r:
    Result<Vec<JournalEntry>, String>)
    requires
        at.wf(),
        args.since matches Some(s) ==> since_in_reach(s@, at),
    ensures
        match (r, selection(entries@, *args, at)) {
            (Ok(v), Ok(m)) => v@ == m,
            (Err(e), Err(m)) => e@ == m,
            _ => false,
        },
{
    let cutoff = match &args.since {
        Some(s) => match parse_since_at(s.as_str(), at) {
            Ok(t) => Some(t),
            Err(e) => {
                return Err(e);
            },
        },
        None => None,
    };
    let ghost all = entries@;
    let mut out: Vec<JournalEntry> = Vec::new();
    for entry in it: entries
        invariant
            it.seq() == all,
            out@ == at_most(passing(all, cutoff, *args, it.index() as nat), args.count as nat),
    {
        let ghost before = out@;
        let ghost seen = passing(all, cutoff, *args, it.index() as nat);
        if passes_filters(&entry, cutoff, args) && out.len() < args.count {
            out.push(entry);
        }
        assert(out@ == at_most(
            passing(all, cutoff, *args, (it.index() + 1) as nat),
            args.count as nat,
        ));
    }
    Ok(out)
}

/// The first entries that pass all filters, with `--since` read by the clock.
pub fn filter_entries(entries: Vec<JournalEntry>, args: &HistoryArgs) -> (r: Result<
    Vec<JournalEntry>,
    String,
>)
    requires
        args.since matches Some(s) ==> since_always_in_reach(s@),
    ensures
        exists|at: Timestamp|
            at.wf() && at.secs >= 0 && !at.leap() && (match (r, #[trigger] selection(
                entries@,
                *args,
                at,
            )) {
                (Ok(v), Ok(m)) => v@ == m,
                (Err(e), Err(m)) => e@ == m,
                _ => false,
            }),
{
    let at = now();
    filter_entries_at(entries, args, at)
}

// ── What is asked of the journal ─────────────────────────────────────────────

/// What the arguments ask of the journal.
#[derive(Clone, Copy, Debug, PartialEq, Eq, Structural)]
pub enum Request {
    /// The list of the most recent entries, so many of which are read.
    List(usize),
    /// The entry with the given number.
    Entry(u64),
    /// The entry at the given place from the end; 1 is the most recent one.
    FromEnd(u64),
    /// The entry with the number zero, which there never is.
    Zero,
}

/// Whether the arguments filter the entries.
pub open spec fn filtered(args: HistoryArgs) -> bool {
    args.since is Some || args.trigger is Some || args.selector@.len() > 0
}

/// What the arguments ask of the journal. Where entries are filtered, more of
/// them are read than are shown.
pub open spec fn request_of(args: HistoryArgs) -> Request {
    match args.show {
        Some(n) => if n > 0 {
            Request::Entry(n as u64)
        } else if n < 0 {
            Request::FromEnd((-n) as u64)
        } else {
            Request::Zero
        },
        None => if filtered(args) {
            Request::List(10000)
        } else {
            Request::List(args.count)
        },
    }
}

/// What the arguments ask of the journal.
pub fn history_request(args: &HistoryArgs) -> (r: Request)
    ensures
        r == request_of(*args),
{
    match args.show {
        Some(n) => if n > 0 {
            Request::Entry(n as u64)
        } else if n == i64::MIN {
            Request::FromEnd(9223372036854775808)
        } else if n < 0 {
            Request::FromEnd((-n) as u64)
        } else {
            Request::Zero
        },
        None => if args.since.is_some() || args.trigger.is_some() || args.selector.len() > 0 {
            Request::List(10000)
        } else {
            Request::List(args.count)
        },
    }
}

/// Which of the most recent entries that were read, newest first, is the one at
/// place `place` from the end; `None` where there are not so many.
pub fn entry_from_end(read: usize, place: u64) -> (r: Option<usize>)
    requires
        place > 0,
    ensures
        match r {
            Some(i) => read >= place && i == read - 1,
            None => read < place,
        },
{
    if (read as u64) < place {
        None
    } else {
        Some(read - 1)
    }
}

/// What is said where the entry that was asked for is not there.
pub fn entry_not_found(request: Request) -> (r: String)
    ensures
        r@ == (match request {
            Request::Entry(n) => "Entry #"@ + decimal(n as nat) + " not found"@,
            Request::Zero => "Entry #0 not found"@,
            _ => "Entry not found"@,
        }),
{
    match request {
        Request::Entry(n) => {
            let digits = decimal_text(n);
            cat3("Entry #", digits.as_str(), " not found")
        },
        Request::Zero => "Entry #0 not found".to_owned(),
        _ => "Entry not found".to_owned(),
    }
}

/// What is said where there are no entries to list.
pub fn no_entries_message() -> (r: &'static str)
    ensures
        r@ == "No journal entries found."@,
{
    "No journal entries found."
}

/// What is said where there is no journal.
pub fn no_journal_message(journal_dir: &str) -> (r: String)
    ensures
        r@ == "No journal found at "@ + journal_dir@ + "/"@,
{
    cat3("No journal found at ", journal_dir, "/")
}

/// The one entity name that the daemon can filter by: that of the first selector.
pub fn daemon_selector_name(args: &HistoryArgs) -> (r: Option<String>)
    ensures
        match r {
            Some(name) => args.selector@.len() > 0 && name@ == args.selector@[0].1@,
            None => args.selector@.len() == 0,
        },
{
    if args.selector.len() == 0 {
        None
    } else {
        Some(args.selector[0].1.clone())
    }
}

/// Those of the first `n` entries that touch the entities of all selectors.
pub open spec fn selected(
    entries: Seq<JournalEntry>,
    selectors: Seq<(String, String)>,
    n: nat,
) -> Seq<JournalEntry>
    decreases n,
{
    if n == 0 || n > entries.len() {
        Seq::empty()
    } else if selector_matches(entries[n - 1], selectors) {
        selected(entries, selectors, (n - 1) as nat).push(entries[n - 1])
    } else {
        selected(entries, selectors, (n - 1) as nat)
    }
}

/// The entries that the daemon sent, filtered by all selectors where there is
/// more than the one that the daemon knows of.
pub fn refine_daemon_entries(entries: Vec<JournalEntry>, selectors: &[(String, String)]) -> (r: Vec<
    JournalEntry,
>)
    ensures
        selectors@.len() <= 1 ==> r@ == entries@,
        selectors@.len() > 1 ==> r@ == selected(entries@, selectors@, entries@.len()),
{
    if selectors.len() <= 1 {
        return entries;
    }
    let ghost all = entries@;
    let mut out: Vec<JournalEntry> = Vec::new();
    for entry in it: entries
        invariant
            it.seq() == all,
            out@ == selected(all, selectors@, it.index() as nat),
    {
        if matches_selector(&entry, selectors) {
            out.push(entry);
        }
    }
    out
}

/// Entries that pass are entries of the journal, and all that pass are there.
proof fn lemma_passing(
    entries: Seq<JournalEntry>,
    cutoff: Option<Timestamp>,
    args: HistoryArgs,
    n: nat,
    entry: JournalEntry,
)
    requires
        n <= entries.len(),
    ensures
        passing(entries, cutoff, args, n).contains(entry) <==> entries.take(n as int).contains(
            entry,
        ) && passes(entry, cutoff, args),
    decreases n,
{
    if n > 0 {
        let before = passing(entries, cutoff, args, (n - 1) as nat);
        let last = entries[n - 1];
        lemma_passing(entries, cutoff, args, (n - 1) as nat, entry);
        assert(entries.take(n as int) == entries.take(n - 1).push(last));
        lemma_pushed_entry(entries.take(n - 1), last, entry);
        lemma_pushed_entry(before, last, entry);
    }
}

/// What a list holds with one more entry at its end.
proof fn lemma_pushed_entry(list: Seq<JournalEntry>, last: JournalEntry, entry: JournalEntry)
    ensures
        list.push(last).contains(entry) == (list.contains(entry) || last == entry),
{
    let longer = list.push(last);
    if list.contains(entry) {
        assert(longer[list.index_of(entry)] == entry);
    }
    if last == entry {
        assert(longer[list.len() as int] == entry);
    }
    if longer.contains(entry) {
        let i = longer.index_of(entry);
        if i < list.len() {
            assert(list[i] == entry);
        }
    }
}

/// The time before which entries are not shown.
pub open spec fn cutoff_of(args: HistoryArgs, at: Timestamp) -> Option<Timestamp> {
    match args.since {
        None => None,
        Some(s) => match since_read(s@, at) {
            Ok(t) => Some(t),
            Err(_) => None,
        },
    }
}

/// All filters must hold: every entry that is shown is one of the journal and
/// passes each filter that is given, no more are shown than asked for, and where
/// fewer are shown all entries that pass are among them.
pub proof fn filters_combine(entries: Seq<JournalEntry>, args: HistoryArgs, at: Timestamp)
    ensures
        selection(entries, args, at) matches Ok(shown) ==> {
            &&& shown.len() <= args.count
            &&& forall|i: int|
                0 <= i < shown.len() ==> entries.contains(#[trigger] shown[i]) && passes(
                    shown[i],
                    cutoff_of(args, at),
                    args,
                )
            &&& shown.len() < args.count ==> forall|e: JournalEntry|
                entries.contains(e) && passes(e, cutoff_of(args, at), args)
                    ==> #[trigger] shown.contains(e)
        },
{
    if let Ok(shown) = selection(entries, args, at) {
        let cutoff = cutoff_of(args, at);
        let all = passing(entries, cutoff, args, entries.len());
        assert(entries.take(entries.len() as int) == entries);
        assert(shown == at_most(all, args.count as nat));
        assert forall|i: int| 0 <= i < shown.len() implies entries.contains(#[trigger] shown[i])
            && passes(shown[i], cutoff, args) by {
            assert(all[i] == shown[i]);
            assert(all.contains(shown[i]));
            lemma_passing(entries, cutoff, args, entries.len(), shown[i]);
        }
        if shown.len() < args.count {
            assert forall|e: JournalEntry|
                entries.contains(e) && passes(e, cutoff, args) implies #[trigger] shown.contains(
                e,
            ) by {
                lemma_passing(entries, cutoff, args, entries.len(), e);
            }
        }
    }
}

/// A selector argument for a name reads as that name, whatever it holds.
pub proof fn selector_reads_back(name: Seq<char>)
    ensures
        history_selector_read("name="@ + name) == Ok::<(Seq<char>, Seq<char>), Seq<char>>(
            ("name"@, name),
        ),
{
    reveal_strlit("name");
    reveal_strlit("name=");
    let s = "name="@ + name;
    assert(s == "name"@.push('=') + name);
    position_behind("name"@, '=', name, 0);
    assert(s.take(4) == "name"@);
    assert(s.skip(5) == name);
}

/// A number of units of time, as `--since` writes it, means the instant so long
/// ago.
pub proof fn durations_count_back(n: u64, unit: char, at: Timestamp)
    requires
        unit_seconds(unit) is Some,
        n as nat * unit_seconds(unit)->0 <= MAX_DELTA_SECS,
    ensures
        since_read(decimal(n as nat).push(unit), at) == Ok::<Timestamp, Seq<char>>(
            seconds_before(at, (n as nat * unit_seconds(unit)->0) as int),
        ),
{
    decimal_reads_back(n);
    let s = decimal(n as nat).push(unit);
    assert(s.drop_last() == decimal(n as nat));
}

/// The entries that pass among some and others behind them are those among the
/// first, then those among the others.
pub proof fn passing_of_parts(
    a: Seq<JournalEntry>,
    b: Seq<JournalEntry>,
    cutoff: Option<Timestamp>,
    args: HistoryArgs,
)
    ensures
        passing(a + b, cutoff, args, (a + b).len()) == passing(a, cutoff, args, a.len()) + passing(b, cutoff, args, b.len()),
{
    lemma_passing_of_parts(a, b, cutoff, args, b.len());
}

/// The first elements give the same whatever stands behind them.
proof fn lemma_passing_of_parts_start(
    a: Seq<JournalEntry>,
    b: Seq<JournalEntry>,
    cutoff: Option<Timestamp>,
    args: HistoryArgs,
    n: nat,
)
    requires
        n <= a.len(),
    ensures
        passing(a + b, cutoff, args, n) == passing(a, cutoff, args, n),
    decreases n,
{
    if n > 0 {
        lemma_passing_of_parts_start(a, b, cutoff, args, (n - 1) as nat);
        assert((a + b)[n - 1] == a[n - 1]);
    }
}

/// The first `m` elements of the second part follow all of the first part.
proof fn lemma_passing_of_parts(
    a: Seq<JournalEntry>,
    b: Seq<JournalEntry>,
    cutoff: Option<Timestamp>,
    args: HistoryArgs,
    m: nat,
)
    requires
        m <= b.len(),
    ensures
        passing(a + b, cutoff, args, a.len() + m) == passing(a, cutoff, args, a.len()) + passing(b, cutoff, args, m),
    decreases m,
{
    if m == 0 {
        lemma_passing_of_parts_start(a, b, cutoff, args, a.len());
    } else {
        lemma_passing_of_parts(a, b, cutoff, args, (m - 1) as nat);
        assert((a + b)[a.len() + m - 1] == b[m - 1]);
    }
}

/// The entries that selectors ask for among some and others behind them are
/// those among the first, then those among the others.
pub proof fn selected_of_parts(
    a: Seq<JournalEntry>,
    b: Seq<JournalEntry>,
    selectors: Seq<(String, String)>,
)
    ensures
        selected(a + b, selectors, (a + b).len()) == selected(a, selectors, a.len()) + selected(b, selectors, b.len()),
{
    lemma_selected_of_parts(a, b, selectors, b.len());
}

/// The first elements give the same whatever stands behind them.
proof fn lemma_selected_of_parts_start(
    a: Seq<JournalEntry>,
    b: Seq<JournalEntry>,
    selectors: Seq<(String, String)>,
    n: nat,
)
    requires
        n <= a.len(),
    ensures
        selected(a + b, selectors, n) == selected(a, selectors, n),
    decreases n,
{
    if n > 0 {
        lemma_selected_of_parts_start(a, b, selectors, (n - 1) as nat);
        assert((a + b)[n - 1] == a[n - 1]);
    }
}

/// The first `m` elements of the second part follow all of the first part.
proof fn lemma_selected_of_parts(
    a: Seq<JournalEntry>,
    b: Seq<JournalEntry>,
    selectors: Seq<(String, String)>,
    m: nat,
)
    requires
        m <= b.len(),
    ensures
        selected(a + b, selectors, a.len() + m) == selected(a, selectors, a.len()) + selected(b, selectors, m),
    decreases m,
{
    if m == 0 {
        lemma_selected_of_parts_start(a, b, selectors, a.len());
    } else {
        lemma_selected_of_parts(a, b, selectors, (m - 1) as nat);
        assert((a + b)[a.len() + m - 1] == b[m - 1]);
    }
}

/// An entry passes exactly where it does not lie before the time asked for, its
/// trigger has the filter in its name, and it has an operation on every entity asked
/// for by name.
pub proof fn filters_mean_what_they_say(
    entry: JournalEntry,
    cutoff: Option<Timestamp>,
    args: HistoryArgs,
)
    ensures
        ({
            let t = entry.timestamp;
            let ops = entry.diff.operations@;
            let recent = cutoff is Some ==> !(t.secs < cutoff->0.secs || (t.secs == cutoff->0.secs
                && t.nanos < cutoff->0.nanos));
            let triggered = args.trigger is Some ==> occurs_in(
                lowercase(trigger_type(entry.trigger)),
                lowercase(args.trigger->0@),
            );
            let touching = forall|i: int|
                0 <= i < args.selector@.len() && (#[trigger] args.selector@[i]).0@ == "name"@
                    ==> exists|k: int|
                    0 <= k < ops.len() && (#[trigger] ops[k]).entity_name@ == args.selector@[i].1@;
            passes(entry, cutoff, args) <==> recent && triggered && touching
        }),
{
    let ops = entry.diff.operations@;
    if selector_matches(entry, args.selector@) {
        assert forall|i: int|
            0 <= i < args.selector@.len() && (#[trigger] args.selector@[i]).0@ == "name"@ implies exists|
            k: int,
        |
            0 <= k < ops.len() && (#[trigger] ops[k]).entity_name@ == args.selector@[i].1@ by {
            assert(touches(ops, args.selector@[i].1@));
        }
    }
}

/// An entry that passes is kept, whatever stands around it, and one that does not is
/// not.
pub proof fn passing_of_one(entry: JournalEntry, cutoff: Option<Timestamp>, args: HistoryArgs)
    ensures
        passes(entry, cutoff, args) ==> passing(seq![entry], cutoff, args, 1) == seq![entry],
        !passes(entry, cutoff, args) ==> passing(seq![entry], cutoff, args, 1).len() == 0,
        selector_matches(entry, args.selector@) ==> selected(seq![entry], args.selector@, 1)
            == seq![entry],
        !selector_matches(entry, args.selector@) ==> selected(
            seq![entry],
            args.selector@,
            1,
        ).len() == 0,
{
    assert(passing(seq![entry], cutoff, args, 0) == Seq::<JournalEntry>::empty());
    assert(selected(seq![entry], args.selector@, 0) == Seq::<JournalEntry>::empty());
}

/// The entries that are shown are the first ones that pass, as many as are asked for,
/// in the order of the journal.
pub proof fn first_entries_are_shown(entries: Seq<JournalEntry>, args: HistoryArgs, at: Timestamp)
    ensures
        ({
            let cutoff = match args.since {
                None => None,
                Some(s) => match since_read(s@, at) {
                    Ok(t) => Some(t),
                    Err(_) => None,
                },
            };
            let all = passing(entries, cutoff, args, entries.len());
            let fails = args.since is Some && since_read(args.since->0@, at) is Err;
            &&& fails ==> selection(entries, args, at) == Err::<Seq<JournalEntry>, Seq<char>>(
                since_read(args.since->0@, at)->Err_0,
            )
            &&& !fails && all.len() <= args.count ==> selection(entries, args, at) == Ok::<
                Seq<JournalEntry>,
                Seq<char>,
            >(all)
            &&& !fails && all.len() > args.count ==> selection(entries, args, at) == Ok::<
                Seq<JournalEntry>,
                Seq<char>,
            >(all.take(args.count as int))
        }),
{
}

/// What is asked of the journal: one entry by its number or counted from the end where
/// one is to be shown; else as many entries as are to be listed, and far more where
/// they are filtered.
pub proof fn requests_follow_the_arguments(args: HistoryArgs)
    ensures
        ({
            let filters = args.since is Some || args.trigger is Some || args.selector@.len() > 0;
            &&& args.show matches Some(n) ==> (n > 0 ==> request_of(args) == Request::Entry(
                n as u64,
            ))
            &&& args.show matches Some(n) ==> (n < 0 ==> request_of(args) == Request::FromEnd(
                (-n) as u64,
            ))
            &&& args.show == Some(0i64) ==> request_of(args) == Request::Zero
            &&& args.show is None && !filters ==> request_of(args) == Request::List(args.count)
            &&& args.show is None && filters ==> request_of(args) == Request::List(10000)
        }),
{
}

/// Seconds, minutes, hours and days are the units of a duration, and nothing else is.
pub proof fn units_are_known(unit: char)
    ensures
        unit_seconds('s') == Some(1nat),
        unit_seconds('m') == Some(60nat),
        unit_seconds('h') == Some(60 * 60nat),
        unit_seconds('d') == Some(24 * 60 * 60nat),
        unit != 's' && unit != 'm' && unit != 'h' && unit != 'd' ==> unit_seconds(unit) is None,
{
}

/// A selector argument of the history is taken apart at its first equals sign; only
/// the key "name" is taken.
pub proof fn other_selectors_are_refused(s: Seq<char>)
    ensures
        !s.contains('=') ==> history_selector_read(s) is Err,
        forall|eq: int|
            0 <= eq < s.len() && #[trigger] s[eq] == '=' && !s.take(eq).contains('=') ==> {
                &&& s.take(eq) == "name"@ ==> history_selector_read(s) == Ok::<
                    (Seq<char>, Seq<char>),
                    Seq<char>,
                >((s.take(eq), s.skip(eq + 1)))
                &&& s.take(eq) != "name"@ ==> history_selector_read(s) is Err
            },
{
    position_is_first(s, '=', 0);
    assert forall|eq: int|
        0 <= eq < s.len() && #[trigger] s[eq] == '=' && !s.take(eq).contains('=') implies position(
        s,
        '=',
        0,
    ) == Some(eq) by {
        let found = position(s, '=', 0)->0;
        if found < eq {
            assert(s.take(eq)[found] == '=');
        }
    }
}

/// What is no number of units of time is read as a timestamp, and what looks like one
/// without a number in it is refused.
pub proof fn other_times_are_timestamps(s: Seq<char>, at: Timestamp)
    ensures
        ({
            let relative = s.len() >= 2 && (s.last() == 's' || s.last() == 'm' || s.last() == 'h'
                || s.last() == 'd');
            &&& !relative && rfc3339_instant(s) is Some ==> since_read(s, at) == Ok::<
                Timestamp,
                Seq<char>,
            >(rfc3339_instant(s)->0)
            &&& !relative && rfc3339_instant(s) is None ==> since_read(s, at) is Err
            &&& relative && unsigned_value(s.drop_last()) is None ==> since_read(s, at) is Err
        }),
{
}

} // verus!
