//! The `apply` subcommand: policies, decisions along the way, reports.
use vstd::prelude::*;
use vstd::string::*;

use crate::diagnose::{has_pair, pair_views};
use crate::journal::{
    ApplyOutcome, SerializableDiff, SerializableDiffOp, SerializableFieldChange, Trigger,
};
use crate::json::Json;
use crate::text::{
    cat2, cat3, cat4, cat5, cat6, has_string, join, joined, lemma_middle_holds, lemma_parted,
    lowercase, push_text, same, to_lowercase, views,
};

pub mod report;

verus! {

/// The arguments of the `apply` subcommand.
#[derive(Debug)]
pub struct ApplyArgs {
    /// Policy files, or directories with policies.
    pub paths: Vec<String>,
    /// Show what would change without applying.
    pub dry_run: bool,
}

/// What an operation does to its entity.
#[derive(Clone, Copy, Debug, PartialEq, Eq, Structural)]
pub enum DiffOpKind {
    Add,
    Modify,
    Remove,
}

/// An operation that succeeded. The key is that of its selector.
#[derive(Debug)]
pub struct AppliedOperation {
    pub operation: DiffOpKind,
    pub entity_type: String,
    pub key: String,
    pub fields_changed: Vec<String>,
}

/// An operation that failed.
#[derive(Debug)]
pub struct FailedOperation {
    pub operation: DiffOpKind,
    pub entity_type: String,
    pub key: String,
    pub error: String,
}

/// An operation that was skipped.
#[derive(Debug)]
pub struct SkippedOperation {
    pub operation: DiffOpKind,
    pub entity_type: String,
    pub key: String,
    pub reason: String,
}

/// What became of the operations of an apply.
#[derive(Debug)]
pub struct ApplyReport {
    pub succeeded: Vec<AppliedOperation>,
    pub failed: Vec<FailedOperation>,
    pub skipped: Vec<SkippedOperation>,
}

/// What one policy wants of a field that is in conflict.
#[derive(Debug)]
pub struct Contribution {
    pub policy_id: String,
    pub value: String,
}

/// A field that policies of one priority want to be different.
#[derive(Debug)]
pub struct Conflict {
    pub entity_type: String,
    pub entity_name: String,
    pub field_name: String,
    pub priority: u32,
    pub contributions: Vec<Contribution>,
}

/// All fields in conflict.
#[derive(Debug)]
pub struct ConflictReport {
    pub conflicts: Vec<Conflict>,
}

/// A field in conflict, as the daemon reports it.
#[derive(Debug)]
pub struct VarlinkConflictEntry {
    pub entity_type: String,
    pub entity_name: String,
    pub field_name: String,
    pub policies: Vec<String>,
    pub values: Vec<String>,
}

/// A change, as the daemon reports it: its kind is "add", "modify" or "remove",
/// its status "applied", "failed" or "skipped".
#[derive(Debug)]
pub struct VarlinkChangeEntry {
    pub kind: String,
    pub entity_type: String,
    pub entity_name: String,
    pub description: String,
    pub status: String,
}

/// What became of an apply, as the daemon reports it.
#[derive(Debug)]
pub struct VarlinkApplyReport {
    pub succeeded: i64,
    pub failed: i64,
    pub skipped: i64,
    pub changes: Vec<VarlinkChangeEntry>,
    pub conflicts: Vec<VarlinkConflictEntry>,
}

/// The change of one field, as the daemon plans it.
#[derive(Debug)]
pub struct VarlinkFieldChange {
    pub field_name: String,
    pub change_kind: String,
    pub current: Option<Json>,
    pub desired: Option<Json>,
}

/// An operation, as the daemon plans it.
#[derive(Debug)]
pub struct VarlinkDiffOperation {
    pub kind: String,
    pub entity_type: String,
    pub entity_name: String,
    pub field_changes: Vec<VarlinkFieldChange>,
}

/// The operations that the daemon plans.
#[derive(Debug)]
pub struct VarlinkStateDiff {
    pub operations: Vec<VarlinkDiffOperation>,
}

/// What a report prints, on each of the two streams.
#[derive(Debug)]
pub struct Printed {
    pub stderr: String,
    pub stdout: String,
}

// ── Policies ─────────────────────────────────────────────────────────────────

/// The names of the policies that were loaded, each once.
#[derive(Debug)]
pub struct LoadedPolicies {
    pub names: Vec<String>,
}

impl LoadedPolicies {
    /// Whether each name stands only once.
    pub open spec fn wf(self) -> bool {
        views(self.names@).no_duplicates()
    }

    /// No policies.
    pub fn new() -> (r: LoadedPolicies)
        ensures
            r.wf(),
            views(r.names@) == Seq::<Seq<char>>::empty(),
    {
        let names: Vec<String> = Vec::new();
        assert(views(names@) == Seq::<Seq<char>>::empty());
        LoadedPolicies { names }
    }
}

/// What loading from a path gave.
#[derive(Debug)]
pub enum PathLoad {
    /// There is nothing at the path.
    Missing,
    /// A directory could not be loaded.
    DirectoryFailed,
    /// A file could not be loaded.
    FileFailed,
    /// The names of the policies, in their order.
    Policies(Vec<String>),
}

/// The names after the first `n` new ones are put in, or the first new name that
/// is there already.
pub open spec fn names_with(
    names: Seq<Seq<char>>,
    new_names: Seq<Seq<char>>,
    n: nat,
) -> Result<Seq<Seq<char>>, Seq<char>>
    decreases n,
{
    if n == 0 || n > new_names.len() {
        Ok(names)
    } else {
        match names_with(names, new_names, (n - 1) as nat) {
            Ok(before) => if before.contains(new_names[n - 1]) {
                Err(new_names[n - 1])
            } else {
                Ok(before.push(new_names[n - 1]))
            },
            Err(name) => Err(name),
        }
    }
}

/// What a load from a path adds to the names; or what is wrong with it.
pub open spec fn load_read(names: Seq<Seq<char>>, path: Seq<char>, loaded: PathLoad) -> Result<
    Seq<Seq<char>>,
    Seq<char>,
> {
    match loaded {
        PathLoad::Missing => Err("path not found: "@ + path),
        PathLoad::DirectoryFailed => Err("failed to load policy directory: "@ + path),
        PathLoad::FileFailed => Err("failed to load policy file: "@ + path),
        PathLoad::Policies(new_names) => match names_with(
            names,
            views(new_names@),
            new_names@.len(),
        ) {
            Ok(all) => Ok(all),
            Err(name) => Err("duplicate policy name '"@ + name + "' (from "@ + path + ")"@),
        },
    }
}

/// Loading adds names behind those that are there, and keeps all names distinct.
/// It fails exactly where a new name is there already or comes twice.
pub proof fn names_stay_distinct(names: Seq<Seq<char>>, new_names: Seq<Seq<char>>, n: nat)
    requires
        names.no_duplicates(),
        n <= new_names.len(),
    ensures
        names_with(names, new_names, n) matches Ok(all) ==> all == names + new_names.take(n as int)
            && all.no_duplicates(),
        names_with(names, new_names, n) is Ok == (names + new_names.take(
            n as int,
        )).no_duplicates(),
    decreases n,
{
    let all = names + new_names.take(n as int);
    if n == 0 {
        assert(all == names);
    } else {
        let before = names + new_names.take(n - 1);
        let last = new_names[n - 1];
        names_stay_distinct(names, new_names, (n - 1) as nat);
        assert(all == before.push(last));
        if before.no_duplicates() && before.contains(last) {
            let i = before.index_of(last);
            assert(all[i] == all[all.len() - 1]);
        } else if !before.no_duplicates() {
            let (i, j) = choose|i: int, j: int|
                0 <= i < before.len() && 0 <= j < before.len() && i != j && #[trigger] before[i]
                    == #[trigger] before[j];
            assert(all[i] == all[j]);
        } else {
            assert forall|i: int, j: int|
                0 <= i < all.len() && 0 <= j < all.len() && i != j implies #[trigger] all[i]
                != #[trigger] all[j] by {
                if i == before.len() {
                    assert(before[j] == all[j]);
                    assert(before.contains(all[j]));
                } else if j == before.len() {
                    assert(before[i] == all[i]);
                    assert(before.contains(all[i]));
                } else {
                    assert(before[i] != before[j]);
                }
            }
        }
    }
}

/// A name that is there already stays the error.
proof fn lemma_duplicate_stays(
    names: Seq<Seq<char>>,
    new_names: Seq<Seq<char>>,
    n: nat,
    m: nat,
)
    requires
        n <= m <= new_names.len(),
        names_with(names, new_names, n) is Err,
    ensures
        names_with(names, new_names, m) == names_with(names, new_names, n),
    decreases m,
{
    if n < m {
        lemma_duplicate_stays(names, new_names, n, (m - 1) as nat);
    }
}

/// Adds the policies loaded from one path. Where that fails, nothing is added, and
/// the message says why.
pub fn load_policies(loaded: &mut LoadedPolicies, path: &str, from: &PathLoad) -> (r: Result<
    (),
    String,
>)
    requires
        old(loaded).wf(),
    ensures
        final(loaded).wf(),
        match load_read(views(old(loaded).names@), path@, *from) {
            Ok(names) => r is Ok && views(final(loaded).names@) == names,
            Err(message) => r matches Err(e) && e@ == message && views(final(loaded).names@)
                == views(old(loaded).names@),
        },
{
    match from {
        PathLoad::Missing => Err(cat2("path not found: ", path)),
        PathLoad::DirectoryFailed => Err(cat2("failed to load policy directory: ", path)),
        PathLoad::FileFailed => Err(cat2("failed to load policy file: ", path)),
        PathLoad::Policies(new_names) => {
            let ghost before = views(loaded.names@);
            let ghost new_model = views(new_names@);
            let first: usize = loaded.names.len();
            let n: usize = new_names.len();
            let mut i: usize = 0;
            while i < n
                invariant
                    i <= n,
                    n == new_names@.len(),
                    new_model == views(new_names@),
                    before == views(old(loaded).names@),
                    *from == PathLoad::Policies(*new_names),
                    loaded.wf(),
                    old(loaded).wf(),
                    first == before.len(),
                    first <= loaded.names@.len(),
                    before == views(loaded.names@).take(first as int),
                    names_with(before, new_model, i as nat) == Ok::<Seq<Seq<char>>, Seq<char>>(
                        views(loaded.names@),
                    ),
                decreases n - i,
            {
                let name = new_names[i].as_str();
                assert(new_model[i as int] == name@);
                if has_string(loaded.names.as_slice(), name) {
                    proof {
                        lemma_duplicate_stays(before, new_model, (i + 1) as nat, n as nat);
                    }
                    let ghost names = loaded.names@;
                    loaded.names.truncate(first);
                    assert(views(names.take(first as int)) == views(names).take(first as int));
                    return Err(
                        cat5("duplicate policy name '", name, "' (from ", path, ")"),
                    );
                }
                let ghost names = views(loaded.names@);
                push_text(&mut loaded.names, new_names[i].clone());
                assert(names.push(name@).no_duplicates());
                i = i + 1;
            }
            Ok(())
        },
    }
}

/// A field that its schema does not accept.
#[derive(Debug)]
pub struct FieldError {
    pub field: String,
    pub message: String,
}

/// A policy with what its schema does not accept in each of its states.
#[derive(Debug)]
pub struct ValidatedPolicy {
    pub name: String,
    pub states: Vec<Vec<FieldError>>,
}

/// The lines on the first `n` errors of a state.
pub open spec fn error_lines(policy: Seq<char>, errors: Seq<FieldError>, n: nat) -> Seq<Seq<char>>
    decreases n,
{
    if n == 0 || n > errors.len() {
        Seq::empty()
    } else {
        error_lines(policy, errors, (n - 1) as nat).push(
            "policy '"@ + policy + "': field '"@ + errors[n - 1].field@ + "': "@ + errors[n
                - 1].message@,
        )
    }
}

/// The lines on the errors of the first `n` states of a policy.
pub open spec fn state_error_lines(
    policy: Seq<char>,
    states: Seq<Vec<FieldError>>,
    n: nat,
) -> Seq<Seq<char>>
    decreases n,
{
    if n == 0 || n > states.len() {
        Seq::empty()
    } else {
        state_error_lines(policy, states, (n - 1) as nat) + error_lines(
            policy,
            states[n - 1]@,
            states[n - 1]@.len(),
        )
    }
}

/// The lines on the errors of the first `n` policies.
pub open spec fn policy_error_lines(policies: Seq<ValidatedPolicy>, n: nat) -> Seq<Seq<char>>
    decreases n,
{
    if n == 0 || n > policies.len() {
        Seq::empty()
    } else {
        policy_error_lines(policies, (n - 1) as nat) + state_error_lines(
            policies[n - 1].name@,
            policies[n - 1].states@,
            policies[n - 1].states@.len(),
        )
    }
}

/// Appends the lines on the errors of a policy.
fn push_policy_errors(out: &mut Vec<String>, policy: &ValidatedPolicy)
    ensures
        views(final(out)@) == views(old(out)@) + state_error_lines(
            policy.name@,
            policy.states@,
            policy.states@.len(),
        ),
{
    let states = &policy.states;
    let n: usize = states.len();
    let mut i: usize = 0;
    assert(views(out@) == views(old(out)@) + Seq::<Seq<char>>::empty());
    while i < n
        invariant
            i <= n,
            n == states@.len(),
            states@ == policy.states@,
            views(out@) == views(old(out)@) + state_error_lines(
                policy.name@,
                states@,
                i as nat,
            ),
        decreases n - i,
    {
        let errors = &states[i];
        let ghost before = views(out@);
        let m: usize = errors.len();
        let mut k: usize = 0;
        assert(views(out@) == before + Seq::<Seq<char>>::empty());
        while k < m
            invariant
                k <= m,
                m == errors@.len(),
                views(out@) == before + error_lines(policy.name@, errors@, k as nat),
            decreases m - k,
        {
            push_text(
                out,
                cat6(
                    "policy '",
                    policy.name.as_str(),
                    "': field '",
                    errors[k].field.as_str(),
                    "': ",
                    errors[k].message.as_str(),
                ),
            );
            k = k + 1;
        }
        i = i + 1;
    }
}

/// Accepts policies whose states have no errors; else lists all errors, one on
/// each line.
pub fn validate_policies(policies: &[ValidatedPolicy]) -> (r: Result<(), String>)
    ensures
        ({
            let lines = policy_error_lines(policies@, policies@.len());
            if lines.len() == 0 {
                r is Ok
            } else {
                r matches Err(e) && e@ == joined(lines, "\n"@)
            }
        }),
{
    let mut lines: Vec<String> = Vec::new();
    let n: usize = policies.len();
    let mut i: usize = 0;
    assert(views(lines@) == Seq::<Seq<char>>::empty());
    while i < n
        invariant
            i <= n,
            n == policies@.len(),
            views(lines@) == policy_error_lines(policies@, i as nat),
        decreases n - i,
    {
        push_policy_errors(&mut lines, &policies[i]);
        i = i + 1;
    }
    assert(views(lines@).len() == lines@.len());
    if lines.len() == 0 {
        Ok(())
    } else {
        Err(join(lines.as_slice(), "\n"))
    }
}

/// A policy with the factory that produces its state, by the name of its kind.
#[derive(Debug)]
pub struct PolicyFactory {
    pub name: String,
    pub factory: String,
}

/// Whether a policy needs no daemon.
pub open spec fn is_static(policy: PolicyFactory) -> bool {
    policy.factory@ == "Static"@
}

/// The lines on those of the first `n` policies that need the daemon.
pub open spec fn daemon_lines(policies: Seq<PolicyFactory>, n: nat) -> Seq<char>
    decreases n,
{
    if n == 0 || n > policies.len() {
        Seq::empty()
    } else {
        let before = daemon_lines(policies, (n - 1) as nat);
        if is_static(policies[n - 1]) {
            before
        } else {
            before + ("policy \""@ + policies[n - 1].name@ + "\" uses factory \""@ + lowercase(
                policies[n - 1].factory@,
            ) + "\" which requires the netfyr daemon.\n"@)
        }
    }
}

/// Whether all policies are static.
pub open spec fn all_static(policies: Seq<PolicyFactory>) -> bool {
    forall|i: int| 0 <= i < policies.len() ==> is_static(#[trigger] policies[i])
}

/// Accepts policies that can be applied without a daemon; else names those that
/// cannot, and how the daemon is started.
pub fn require_static(policies: &[PolicyFactory]) -> (r: Result<(), String>)
    ensures
        r is Ok == all_static(policies@),
        r matches Err(e) ==> e@ == daemon_lines(policies@, policies@.len())
            + "Start the daemon with: systemctl start netfyr"@,
{
    let mut message = String::new();
    let mut fine = true;
    let n: usize = policies.len();
    let mut i: usize = 0;
    while i < n
        invariant
            i <= n,
            n == policies@.len(),
            message@ == daemon_lines(policies@, i as nat),
            fine == (forall|k: int| 0 <= k < i ==> is_static(#[trigger] policies@[k])),
        decreases n - i,
    {
        let policy = &policies[i];
        if !same(policy.factory.as_str(), "Static") {
            fine = false;
            assert(!is_static(policies@[i as int]));
            let factory = to_lowercase(policy.factory.as_str());
            let line = cat5(
                "policy \"",
                policy.name.as_str(),
                "\" uses factory \"",
                factory.as_str(),
                "\" which requires the netfyr daemon.\n",
            );
            message.append(line.as_str());
        }
        i = i + 1;
    }
    if fine {
        Ok(())
    } else {
        message.append("Start the daemon with: systemctl start netfyr");
        Err(message)
    }
}

/// The context of an error in producing the state of a policy.
pub fn production_context(policy: &str) -> (r: String)
    ensures
        r@ == "failed to produce state for policy '"@ + policy@ + "'"@,
{
    cat3("failed to produce state for policy '", policy, "'")
}

/// Those of the first `n` desired entities that the system has, as entity type
/// and selector key.
pub open spec fn managed_in(
    desired: Seq<(Seq<char>, Seq<char>)>,
    actual: Seq<(Seq<char>, Seq<char>)>,
    n: nat,
) -> Seq<(Seq<char>, Seq<char>)>
    decreases n,
{
    if n == 0 || n > desired.len() {
        Seq::empty()
    } else if actual.contains(desired[n - 1]) {
        managed_in(desired, actual, (n - 1) as nat).push(desired[n - 1])
    } else {
        managed_in(desired, actual, (n - 1) as nat)
    }
}

/// Only entities that are desired, and that the system has, take part in a
/// comparison, and all of them do.
pub proof fn only_managed_take_part(
    desired: Seq<(Seq<char>, Seq<char>)>,
    actual: Seq<(Seq<char>, Seq<char>)>,
    n: nat,
    entity: (Seq<char>, Seq<char>),
)
    requires
        n <= desired.len(),
    ensures
        managed_in(desired, actual, n).contains(entity) <==> desired.take(n as int).contains(entity)
            && actual.contains(entity),
    decreases n,
{
    if n > 0 {
        let before = managed_in(desired, actual, (n - 1) as nat);
        let last = desired[n - 1];
        only_managed_take_part(desired, actual, (n - 1) as nat, entity);
        assert(desired.take(n as int) == desired.take(n - 1).push(last));
        lemma_contains_pushed(desired.take(n - 1), last, entity);
        lemma_contains_pushed(before, last, entity);
    }
}

/// What a sequence holds with one more element at its end.
proof fn lemma_contains_pushed(
    list: Seq<(Seq<char>, Seq<char>)>,
    last: (Seq<char>, Seq<char>),
    entity: (Seq<char>, Seq<char>),
)
    ensures
        list.push(last).contains(entity) == (list.contains(entity) || last == entity),
{
    let longer = list.push(last);
    if list.contains(entity) {
        assert(longer[list.index_of(entity)] == entity);
    }
    if last == entity {
        assert(longer[list.len() as int] == entity);
    }
    if longer.contains(entity) {
        let i = longer.index_of(entity);
        if i < list.len() {
            assert(list[i] == entity);
        }
    }
}

/// The entities whose actual state takes part in a comparison: the desired ones
/// that the system has. All others are left alone.
pub fn managed_entities(desired: &[(String, String)], actual: &Vec<(String, String)>) -> (r: Vec<
    (String, String),
>)
    ensures
        pair_views(r@) == managed_in(pair_views(desired@), pair_views(actual@), desired@.len()),
{
    let ghost wanted = pair_views(desired@);
    let ghost had = pair_views(actual@);
    let mut out: Vec<(String, String)> = Vec::new();
    let n: usize = desired.len();
    let mut i: usize = 0;
    assert(pair_views(out@) == Seq::<(Seq<char>, Seq<char>)>::empty());
    while i < n
        invariant
            i <= n,
            n == desired@.len(),
            wanted == pair_views(desired@),
            had == pair_views(actual@),
            pair_views(out@) == managed_in(wanted, had, i as nat),
        decreases n - i,
    {
        let entity = &desired[i];
        let ghost before = out@;
        assert(wanted[i as int] == (entity.0@, entity.1@));
        if has_pair(actual, entity.0.as_str(), entity.1.as_str()) {
            out.push((entity.0.clone(), entity.1.clone()));
            assert(pair_views(out@) == pair_views(before).push(wanted[i as int]));
        }
        i = i + 1;
    }
    out
}

// ── Decisions ────────────────────────────────────────────────────────────────

/// How an apply goes on once its changes are known.
#[derive(Clone, Copy, Debug, PartialEq, Eq, Structural)]
pub enum ApplyStep {
    /// The planned changes are shown, and the program ends with the given code.
    ShowPlan { code: u8 },
    /// It is said that nothing needs to change; the program ends with 0.
    NothingToDo,
    /// The conflicts, which kept all changes back, are shown; the program ends
    /// with 1.
    ShowConflicts,
    /// The changes are applied.
    Apply,
}

/// How an apply goes on once its changes are known.
pub open spec fn step_of(dry_run: bool, meaningful: bool, conflicts: bool) -> ApplyStep {
    if dry_run {
        ApplyStep::ShowPlan {
            code: if meaningful {
                1
            } else {
                0
            },
        }
    } else if meaningful {
        ApplyStep::Apply
    } else if conflicts {
        ApplyStep::ShowConflicts
    } else {
        ApplyStep::NothingToDo
    }
}

/// A dry run never applies anything, and an apply changes something exactly where
/// something would change.
pub proof fn dry_run_applies_nothing(dry_run: bool, meaningful: bool, conflicts: bool)
    ensures
        step_of(true, meaningful, conflicts) is ShowPlan,
        step_of(dry_run, meaningful, conflicts) is Apply <==> !dry_run && meaningful,
{
}

/// How an apply goes on once its changes are known: whether there are any, and
/// whether fields are in conflict.
pub fn apply_step(dry_run: bool, meaningful: bool, conflicts: bool) -> (r: ApplyStep)
    ensures
        r == step_of(dry_run, meaningful, conflicts),
{
    if dry_run {
        if meaningful {
            ApplyStep::ShowPlan { code: 1 }
        } else {
            ApplyStep::ShowPlan { code: 0 }
        }
    } else if meaningful {
        ApplyStep::Apply
    } else if conflicts {
        ApplyStep::ShowConflicts
    } else {
        ApplyStep::NothingToDo
    }
}

/// What is said where nothing needs to change.
pub fn nothing_to_do_message() -> (r: &'static str)
    ensures
        r@ == "No changes needed. System is already in desired state."@,
{
    "No changes needed. System is already in desired state."
}

/// What is said where the daemon denies permission: the reason, and a hint.
pub fn permission_denied_text(reason: &str) -> (r: String)
    ensures
        r@ == "Error: "@ + reason@ + "\n"@
            + "Hint: run as root to apply policies (e.g. sudo netfyr apply ...)\n"@,
{
    cat4(
        "Error: ",
        reason,
        "\n",
        "Hint: run as root to apply policies (e.g. sudo netfyr apply ...)\n",
    )
}

/// The trigger of an apply from the given paths.
pub fn apply_trigger(paths: &[String]) -> (r: Trigger)
    ensures
        r matches Trigger::PolicyApply { source } && source@ == joined(views(paths@), ", "@),
{
    Trigger::PolicyApply { source: join(paths, ", ") }
}

/// The outcome of an apply: how many operations succeeded, failed and were
/// skipped, as 32-bit counts.
pub fn outcome_of(report: &ApplyReport) -> (r: ApplyOutcome)
    ensures
        r == (ApplyOutcome::Applied {
            succeeded: (report.succeeded@.len() % 0x1_0000_0000) as u32,
            failed: (report.failed@.len() % 0x1_0000_0000) as u32,
            skipped: (report.skipped@.len() % 0x1_0000_0000) as u32,
        }),
{
    ApplyOutcome::Applied {
        succeeded: (report.succeeded.len() as u64 % 0x1_0000_0000) as u32,
        failed: (report.failed.len() as u64 % 0x1_0000_0000) as u32,
        skipped: (report.skipped.len() as u64 % 0x1_0000_0000) as u32,
    }
}

/// The exit code of an apply: 2 where nothing succeeded and something failed, else
/// 1 where something failed or fields are in conflict, else 0.
pub open spec fn apply_code(succeeded: int, failed: int, conflicts: bool) -> u8 {
    if succeeded == 0 && failed > 0 {
        2
    } else if failed > 0 || conflicts {
        1
    } else {
        0
    }
}

/// An apply ends with 0 exactly where nothing failed and no fields are in
/// conflict, and with 2 exactly where something failed and nothing succeeded.
pub proof fn exit_codes_tell_outcomes(succeeded: nat, failed: nat, conflicts: bool)
    ensures
        apply_code(succeeded as int, failed as int, conflicts) == 0 <==> failed == 0 && !conflicts,
        apply_code(succeeded as int, failed as int, conflicts) == 2 <==> failed > 0 && succeeded
            == 0,
        apply_code(succeeded as int, failed as int, conflicts) <= 2,
{
}

/// The exit code of an apply.
pub fn determine_exit_code(report: &ApplyReport, conflicts: &ConflictReport) -> (r: u8)
    ensures
        r == apply_code(
            report.succeeded@.len() as int,
            report.failed@.len() as int,
            conflicts.conflicts@.len() > 0,
        ),
{
    if report.succeeded.len() == 0 && report.failed.len() > 0 {
        2
    } else if report.failed.len() > 0 || conflicts.conflicts.len() > 0 {
        1
    } else {
        0
    }
}

/// The exit code of an apply through the daemon.
pub fn daemon_exit_code(report: &VarlinkApplyReport) -> (r: u8)
    ensures
        r == apply_code(
            report.succeeded as int,
            report.failed as int,
            report.conflicts@.len() > 0,
        ),
{
    if report.failed > 0 && report.succeeded == 0 {
        2
    } else if report.failed > 0 || report.conflicts.len() > 0 {
        1
    } else {
        0
    }
}

/// The exit code of a dry run: 1 where something would change.
pub fn dry_run_exit_code(is_empty: bool) -> (r: u8)
    ensures
        r == (if is_empty {
            0u8
        } else {
            1u8
        }),
{
    if is_empty {
        0
    } else {
        1
    }
}

// ── Outcomes of fields ───────────────────────────────────────────────────────

/// Whether an operation that succeeded was on an entity.
pub open spec fn did_succeed(report: ApplyReport, entity_type: Seq<char>, name: Seq<char>) -> bool {
    exists|i: int|
        0 <= i < report.succeeded@.len() && (#[trigger] report.succeeded@[i]).entity_type@
            == entity_type && report.succeeded@[i].key@ == name
}

/// Whether an operation that failed was on an entity.
pub open spec fn did_fail(report: ApplyReport, entity_type: Seq<char>, name: Seq<char>) -> bool {
    exists|i: int|
        0 <= i < report.failed@.len() && (#[trigger] report.failed@[i]).entity_type@ == entity_type
            && report.failed@[i].key@ == name
}

/// Whether an operation that was skipped was on an entity.
pub open spec fn did_skip(report: ApplyReport, entity_type: Seq<char>, name: Seq<char>) -> bool {
    exists|i: int|
        0 <= i < report.skipped@.len() && (#[trigger] report.skipped@[i]).entity_type@
            == entity_type && report.skipped@[i].key@ == name
}

/// How the fields of an entity went; none where no operation was on it. A skip
/// weighs more than a failure, and a failure more than a success.
pub open spec fn outcome_word(
    report: ApplyReport,
    entity_type: Seq<char>,
    name: Seq<char>,
) -> Option<Seq<char>> {
    if did_skip(report, entity_type, name) {
        Some("skipped"@)
    } else if did_fail(report, entity_type, name) {
        Some("failed"@)
    } else if did_succeed(report, entity_type, name) {
        Some("applied"@)
    } else {
        None
    }
}

/// Whether a field is as it was but for its outcome, which is that of its entity;
/// where there is none it keeps its outcome, and counts as skipped where it has
/// none either.
pub open spec fn field_marked(
    before: SerializableFieldChange,
    after: SerializableFieldChange,
    word: Option<Seq<char>>,
) -> bool {
    &&& after.field_name == before.field_name
    &&& after.change_kind == before.change_kind
    &&& after.current == before.current
    &&& after.desired == before.desired
    &&& after.outcome is Some
    &&& after.outcome->0@ == (match word {
        Some(w) => w,
        None => match before.outcome {
            Some(o) => o@,
            None => "skipped"@,
        },
    })
}

/// Whether an operation is as it was but for the outcomes of its fields.
pub open spec fn op_marked(
    before: SerializableDiffOp,
    after: SerializableDiffOp,
    report: ApplyReport,
) -> bool {
    &&& after.kind == before.kind
    &&& after.entity_type == before.entity_type
    &&& after.entity_name == before.entity_name
    &&& after.field_changes@.len() == before.field_changes@.len()
    &&& forall|i: int|
        0 <= i < before.field_changes@.len() ==> field_marked(
            before.field_changes@[i],
            #[trigger] after.field_changes@[i],
            outcome_word(report, before.entity_type@, before.entity_name@),
        )
}

/// After an apply every field has an outcome; that of an entity on which the apply
/// made an operation says how the operation went, whatever stood there before.
pub proof fn every_field_has_an_outcome(
    before: SerializableDiffOp,
    after: SerializableDiffOp,
    report: ApplyReport,
    i: int,
)
    requires
        op_marked(before, after, report),
        0 <= i < before.field_changes@.len(),
    ensures
        after.field_changes@[i].outcome is Some,
        outcome_word(report, before.entity_type@, before.entity_name@) matches Some(word) ==> (
        after.field_changes@[i].outcome->0)@ == word,
{
    assert(field_marked(
        before.field_changes@[i],
        after.field_changes@[i],
        outcome_word(report, before.entity_type@, before.entity_name@),
    ));
}

/// How the fields of an entity went.
fn word_for(report: &ApplyReport, entity_type: &str, name: &str) -> (r: Option<&'static str>)
    ensures
        match r {
            Some(w) => outcome_word(*report, entity_type@, name@) == Some(w@),
            None => outcome_word(*report, entity_type@, name@) is None,
        },
{
    let skipped = &report.skipped;
    let mut i: usize = 0;
    while i < skipped.len()
        invariant
            i <= skipped@.len(),
            skipped@ == report.skipped@,
            forall|k: int|
                0 <= k < i ==> !((#[trigger] skipped@[k]).entity_type@ == entity_type@
                    && skipped@[k].key@ == name@),
        decreases skipped@.len() - i,
    {
        if same(skipped[i].entity_type.as_str(), entity_type) && same(
            skipped[i].key.as_str(),
            name,
        ) {
            assert(skipped@[i as int].key@ == name@);
            return Some("skipped");
        }
        i = i + 1;
    }
    assert(!did_skip(*report, entity_type@, name@));
    let failed = &report.failed;
    i = 0;
    while i < failed.len()
        invariant
            i <= failed@.len(),
            failed@ == report.failed@,
            !did_skip(*report, entity_type@, name@),
            forall|k: int|
                0 <= k < i ==> !((#[trigger] failed@[k]).entity_type@ == entity_type@
                    && failed@[k].key@ == name@),
        decreases failed@.len() - i,
    {
        if same(failed[i].entity_type.as_str(), entity_type) && same(
            failed[i].key.as_str(),
            name,
        ) {
            assert(failed@[i as int].key@ == name@);
            return Some("failed");
        }
        i = i + 1;
    }
    assert(!did_fail(*report, entity_type@, name@));
    let succeeded = &report.succeeded;
    i = 0;
    while i < succeeded.len()
        invariant
            i <= succeeded@.len(),
            succeeded@ == report.succeeded@,
            !did_skip(*report, entity_type@, name@),
            !did_fail(*report, entity_type@, name@),
            forall|k: int|
                0 <= k < i ==> !((#[trigger] succeeded@[k]).entity_type@ == entity_type@
                    && succeeded@[k].key@ == name@),
        decreases succeeded@.len() - i,
    {
        if same(succeeded[i].entity_type.as_str(), entity_type) && same(
            succeeded[i].key.as_str(),
            name,
        ) {
            assert(succeeded@[i as int].key@ == name@);
            return Some("applied");
        }
        i = i + 1;
    }
    None
}

/// Marks the fields of one operation with how they went.
fn mark_fields(fields: &mut Vec<SerializableFieldChange>, word: Option<&'static str>)
    ensures
        final(fields)@.len() == old(fields)@.len(),
        forall|i: int|
            0 <= i < old(fields)@.len() ==> field_marked(
                old(fields)@[i],
                #[trigger] final(fields)@[i],
                match word {
                    Some(w) => Some(w@),
                    None => None,
                },
            ),
{
    let ghost model = match word {
        Some(w) => Some(w@),
        None => None,
    };
    let n: usize = fields.len();
    let mut i: usize = 0;
    while i < n
        invariant
            i <= n,
            n == fields@.len(),
            n == old(fields)@.len(),
            model == (match word {
                Some(w) => Some(w@),
                None => None,
            }),
            forall|k: int|
                0 <= k < i ==> field_marked(old(fields)@[k], #[trigger] fields@[k], model),
            forall|k: int| i <= k < n ==> #[trigger] fields@[k] == old(fields)@[k],
        decreases n - i,
    {
        match word {
            Some(w) => {
                fields[i].outcome = Some(w.to_owned());
            },
            None => {
                if fields[i].outcome.is_none() {
                    fields[i].outcome = Some("skipped".to_owned());
                }
            },
        }
        i = i + 1;
    }
}

/// Marks the fields of a difference with how the operations on their entities
/// went.
pub fn apply_outcomes(diff: &mut SerializableDiff, report: &ApplyReport)
    ensures
        final(diff).operations@.len() == old(diff).operations@.len(),
        forall|i: int|
            0 <= i < old(diff).operations@.len() ==> op_marked(
                old(diff).operations@[i],
                #[trigger] final(diff).operations@[i],
                *report,
            ),
{
    let n: usize = diff.operations.len();
    let mut i: usize = 0;
    while i < n
        invariant
            i <= n,
            n == diff.operations@.len(),
            n == old(diff).operations@.len(),
            forall|k: int|
                0 <= k < i ==> op_marked(
                    old(diff).operations@[k],
                    #[trigger] diff.operations@[k],
                    *report,
                ),
            forall|k: int|
                i <= k < n ==> #[trigger] diff.operations@[k] == old(diff).operations@[k],
        decreases n - i,
    {
        let word = word_for(
            report,
            diff.operations[i].entity_type.as_str(),
            diff.operations[i].entity_name.as_str(),
        );
        mark_fields(&mut diff.operations[i].field_changes, word);
        i = i + 1;
    }
}

// ── Laws on lists ────────────────────────────────────────────────────────────

/// The errors of a state are listed one after another: those of a first part,
/// then those of the rest.
pub proof fn errors_of_parts(
    policy: Seq<char>,
    a: Seq<FieldError>,
    b: Seq<FieldError>,
)
    ensures
        error_lines(policy, a + b, (a + b).len()) == error_lines(policy, a, a.len()) + error_lines(policy, b, b.len()),
{
    lemma_errors_of_parts(policy, a, b, b.len());
}

/// The first elements give the same whatever stands behind them.
proof fn lemma_errors_of_parts_start(
    policy: Seq<char>,
    a: Seq<FieldError>,
    b: Seq<FieldError>,
    n: nat,
)
    requires
        n <= a.len(),
    ensures
        error_lines(policy, a + b, n) == error_lines(policy, a, n),
    decreases n,
{
    if n > 0 {
        lemma_errors_of_parts_start(policy, a, b, (n - 1) as nat);
        assert((a + b)[n - 1] == a[n - 1]);
    }
}

/// The first `m` elements of the second part follow all of the first part.
proof fn lemma_errors_of_parts(
    policy: Seq<char>,
    a: Seq<FieldError>,
    b: Seq<FieldError>,
    m: nat,
)
    requires
        m <= b.len(),
    ensures
        error_lines(policy, a + b, a.len() + m) == error_lines(policy, a, a.len()) + error_lines(policy, b, m),
    decreases m,
{
    if m == 0 {
        lemma_errors_of_parts_start(policy, a, b, a.len());
    } else {
        lemma_errors_of_parts(policy, a, b, (m - 1) as nat);
        assert((a + b)[a.len() + m - 1] == b[m - 1]);
    }
}

/// The errors of the states of a policy are listed state by state.
pub proof fn state_errors_of_parts(
    policy: Seq<char>,
    a: Seq<Vec<FieldError>>,
    b: Seq<Vec<FieldError>>,
)
    ensures
        state_error_lines(policy, a + b, (a + b).len()) == state_error_lines(policy, a, a.len()) + state_error_lines(policy, b, b.len()),
{
    lemma_state_errors_of_parts(policy, a, b, b.len());
}

/// The first elements give the same whatever stands behind them.
proof fn lemma_state_errors_of_parts_start(
    policy: Seq<char>,
    a: Seq<Vec<FieldError>>,
    b: Seq<Vec<FieldError>>,
    n: nat,
)
    requires
        n <= a.len(),
    ensures
        state_error_lines(policy, a + b, n) == state_error_lines(policy, a, n),
    decreases n,
{
    if n > 0 {
        lemma_state_errors_of_parts_start(policy, a, b, (n - 1) as nat);
        assert((a + b)[n - 1] == a[n - 1]);
    }
}

/// The first `m` elements of the second part follow all of the first part.
proof fn lemma_state_errors_of_parts(
    policy: Seq<char>,
    a: Seq<Vec<FieldError>>,
    b: Seq<Vec<FieldError>>,
    m: nat,
)
    requires
        m <= b.len(),
    ensures
        state_error_lines(policy, a + b, a.len() + m) == state_error_lines(policy, a, a.len()) + state_error_lines(policy, b, m),
    decreases m,
{
    if m == 0 {
        lemma_state_errors_of_parts_start(policy, a, b, a.len());
    } else {
        lemma_state_errors_of_parts(policy, a, b, (m - 1) as nat);
        assert((a + b)[a.len() + m - 1] == b[m - 1]);
    }
}

/// The errors of policies are listed policy by policy: none is left out for
/// where its policy stands.
pub proof fn policy_errors_of_parts(
    a: Seq<ValidatedPolicy>,
    b: Seq<ValidatedPolicy>,
)
    ensures
        policy_error_lines(a + b, (a + b).len()) == policy_error_lines(a, a.len()) + policy_error_lines(b, b.len()),
{
    lemma_policy_errors_of_parts(a, b, b.len());
}

/// The first elements give the same whatever stands behind them.
proof fn lemma_policy_errors_of_parts_start(
    a: Seq<ValidatedPolicy>,
    b: Seq<ValidatedPolicy>,
    n: nat,
)
    requires
        n <= a.len(),
    ensures
        policy_error_lines(a + b, n) == policy_error_lines(a, n),
    decreases n,
{
    if n > 0 {
        lemma_policy_errors_of_parts_start(a, b, (n - 1) as nat);
        assert((a + b)[n - 1] == a[n - 1]);
    }
}

/// The first `m` elements of the second part follow all of the first part.
proof fn lemma_policy_errors_of_parts(
    a: Seq<ValidatedPolicy>,
    b: Seq<ValidatedPolicy>,
    m: nat,
)
    requires
        m <= b.len(),
    ensures
        policy_error_lines(a + b, a.len() + m) == policy_error_lines(a, a.len()) + policy_error_lines(b, m),
    decreases m,
{
    if m == 0 {
        lemma_policy_errors_of_parts_start(a, b, a.len());
    } else {
        lemma_policy_errors_of_parts(a, b, (m - 1) as nat);
        assert((a + b)[a.len() + m - 1] == b[m - 1]);
    }
}

/// The policies that need the daemon are named one after another.
pub proof fn daemon_policies_of_parts(
    a: Seq<PolicyFactory>,
    b: Seq<PolicyFactory>,
)
    ensures
        daemon_lines(a + b, (a + b).len()) == daemon_lines(a, a.len()) + daemon_lines(b, b.len()),
{
    lemma_daemon_policies_of_parts(a, b, b.len());
}

/// The first elements give the same whatever stands behind them.
proof fn lemma_daemon_policies_of_parts_start(
    a: Seq<PolicyFactory>,
    b: Seq<PolicyFactory>,
    n: nat,
)
    requires
        n <= a.len(),
    ensures
        daemon_lines(a + b, n) == daemon_lines(a, n),
    decreases n,
{
    if n > 0 {
        lemma_daemon_policies_of_parts_start(a, b, (n - 1) as nat);
        assert((a + b)[n - 1] == a[n - 1]);
    }
}

/// The first `m` elements of the second part follow all of the first part.
proof fn lemma_daemon_policies_of_parts(
    a: Seq<PolicyFactory>,
    b: Seq<PolicyFactory>,
    m: nat,
)
    requires
        m <= b.len(),
    ensures
        daemon_lines(a + b, a.len() + m) == daemon_lines(a, a.len()) + daemon_lines(b, m),
    decreases m,
{
    if m == 0 {
        lemma_daemon_policies_of_parts_start(a, b, a.len());
    } else {
        lemma_daemon_policies_of_parts(a, b, (m - 1) as nat);
        assert((a + b)[a.len() + m - 1] == b[m - 1]);
    }
}

/// One error is told with its policy, its field and what is wrong.
pub proof fn error_of_one(policy: Seq<char>, error: FieldError)
    ensures
        error_lines(policy, seq![error], 1) == seq![
            "policy '"@ + policy + "': field '"@ + error.field@ + "': "@ + error.message@,
        ],
{
    assert(error_lines(policy, seq![error], 0) == Seq::<Seq<char>>::empty());
}

/// The errors of one state are all its errors, and those of one policy all errors of
/// all its states.
pub proof fn errors_of_one(policy: ValidatedPolicy, name: Seq<char>, state: Vec<FieldError>)
    ensures
        state_error_lines(name, seq![state], 1) == error_lines(name, state@, state@.len()),
        policy_error_lines(seq![policy], 1) == state_error_lines(
            policy.name@,
            policy.states@,
            policy.states@.len(),
        ),
{
    assert(state_error_lines(name, seq![state], 0) == Seq::<Seq<char>>::empty());
    assert(policy_error_lines(seq![policy], 0) == Seq::<Seq<char>>::empty());
}

/// Every error of every state of every policy is among the lines that are listed:
/// policies are accepted only where no state has any error.
pub proof fn every_error_is_listed(policies: Seq<ValidatedPolicy>, i: int, k: int, m: int)
    requires
        0 <= i < policies.len(),
        0 <= k < policies[i].states@.len(),
        0 <= m < policies[i].states@[k]@.len(),
    ensures
        policy_error_lines(policies, policies.len()).contains(
            "policy '"@ + policies[i].name@ + "': field '"@ + policies[i].states@[k]@[m].field@
                + "': "@ + policies[i].states@[k]@[m].message@,
        ),
{
    let name = policies[i].name@;
    let states = policies[i].states@;
    let errors = states[k]@;
    let line = "policy '"@ + name + "': field '"@ + errors[m].field@ + "': "@ + errors[m].message@;
    let (a, b, c) = (errors.take(m), seq![errors[m]], errors.skip(m + 1));
    error_of_one(name, errors[m]);
    assert(error_lines(name, b, 1)[0] == line);
    lemma_parted(errors, m);
    errors_of_parts(name, a + b, c);
    errors_of_parts(name, a, b);
    lemma_middle_holds(
        error_lines(name, a, a.len()),
        error_lines(name, b, 1),
        error_lines(name, c, c.len()),
        line,
    );
    let (d, e, f) = (states.take(k), seq![states[k]], states.skip(k + 1));
    errors_of_one(policies[i], name, states[k]);
    lemma_parted(states, k);
    state_errors_of_parts(name, d + e, f);
    state_errors_of_parts(name, d, e);
    lemma_middle_holds(
        state_error_lines(name, d, d.len()),
        state_error_lines(name, e, 1),
        state_error_lines(name, f, f.len()),
        line,
    );
    let (x, y, z) = (policies.take(i), seq![policies[i]], policies.skip(i + 1));
    lemma_parted(policies, i);
    policy_errors_of_parts(x + y, z);
    policy_errors_of_parts(x, y);
    lemma_middle_holds(
        policy_error_lines(x, x.len()),
        policy_error_lines(y, 1),
        policy_error_lines(z, z.len()),
        line,
    );
}

/// A policy whose factory is not static is named with its factory; a static one is
/// not.
pub proof fn daemon_policy_of_one(policy: PolicyFactory)
    ensures
        policy.factory@ == "Static"@ ==> daemon_lines(seq![policy], 1).len() == 0,
        policy.factory@ != "Static"@ ==> daemon_lines(seq![policy], 1) == "policy \""@
            + policy.name@ + "\" uses factory \""@ + lowercase(policy.factory@)
            + "\" which requires the netfyr daemon.\n"@,
        all_static(seq![policy]) <==> policy.factory@ == "Static"@,
{
    assert(daemon_lines(seq![policy], 0) == Seq::<char>::empty());
    if all_static(seq![policy]) {
        assert(is_static(seq![policy][0]));
    }
}

/// Policies are all static exactly where each one is, wherever it stands.
pub proof fn every_policy_must_be_static(policies: Seq<PolicyFactory>, i: int)
    requires
        0 <= i < policies.len(),
        policies[i].factory@ != "Static"@,
    ensures
        !all_static(policies),
{
    assert(!is_static(policies[i]));
}

/// The outcome of a field is that of the operations on its entity: skipped where one
/// of them was skipped, else failed where one failed, else applied where one
/// succeeded.
pub proof fn outcomes_follow_the_report(
    report: ApplyReport,
    entity_type: Seq<char>,
    name: Seq<char>,
)
    ensures
        ({
            let skipped = exists|i: int|
                0 <= i < report.skipped@.len() && (#[trigger] report.skipped@[i]).entity_type@
                    == entity_type && report.skipped@[i].key@ == name;
            let failed = exists|i: int|
                0 <= i < report.failed@.len() && (#[trigger] report.failed@[i]).entity_type@
                    == entity_type && report.failed@[i].key@ == name;
            let succeeded = exists|i: int|
                0 <= i < report.succeeded@.len() && (#[trigger] report.succeeded@[i]).entity_type@
                    == entity_type && report.succeeded@[i].key@ == name;
            let word = outcome_word(report, entity_type, name);
            &&& skipped ==> word == Some("skipped"@)
            &&& !skipped && failed ==> word == Some("failed"@)
            &&& !skipped && !failed && succeeded ==> word == Some("applied"@)
            &&& !skipped && !failed && !succeeded ==> word is None
        }),
{
}

/// A field whose entity no operation was on keeps its outcome, and counts as skipped
/// where it has none.
pub proof fn other_fields_count_as_skipped(
    before: SerializableDiffOp,
    after: SerializableDiffOp,
    report: ApplyReport,
    i: int,
)
    requires
        op_marked(before, after, report),
        0 <= i < before.field_changes@.len(),
        outcome_word(report, before.entity_type@, before.entity_name@) is None,
    ensures
        before.field_changes@[i].outcome is None ==> after.field_changes@[i].outcome->0@
            == "skipped"@,
        before.field_changes@[i].outcome matches Some(o) ==> after.field_changes@[i].outcome->0@
            == o@,
        after.field_changes@[i].field_name == before.field_changes@[i].field_name,
        after.field_changes@[i].change_kind == before.field_changes@[i].change_kind,
        after.field_changes@[i].current == before.field_changes@[i].current,
        after.field_changes@[i].desired == before.field_changes@[i].desired,
        after.kind == before.kind,
        after.entity_type == before.entity_type,
        after.entity_name == before.entity_name,
        after.field_changes@.len() == before.field_changes@.len(),
{
    assert(field_marked(before.field_changes@[i], after.field_changes@[i], None));
}

/// A path that gave nothing is an error that names the path; one that gave policies
/// is an error only where a name comes again, and then names it and the path.
pub proof fn failed_loads_name_the_path(
    names: Seq<Seq<char>>,
    path: Seq<char>,
    new_names: Vec<String>,
)
    requires
        names.no_duplicates(),
    ensures
        load_read(names, path, PathLoad::Missing) == Err::<Seq<Seq<char>>, Seq<char>>(
            "path not found: "@ + path,
        ),
        load_read(names, path, PathLoad::DirectoryFailed) == Err::<Seq<Seq<char>>, Seq<char>>(
            "failed to load policy directory: "@ + path,
        ),
        load_read(names, path, PathLoad::FileFailed) == Err::<Seq<Seq<char>>, Seq<char>>(
            "failed to load policy file: "@ + path,
        ),
        (names + views(new_names@)).no_duplicates() ==> load_read(
            names,
            path,
            PathLoad::Policies(new_names),
        ) == Ok::<Seq<Seq<char>>, Seq<char>>(names + views(new_names@)),
        !(names + views(new_names@)).no_duplicates() ==> load_read(
            names,
            path,
            PathLoad::Policies(new_names),
        ) is Err,
{
    let model = views(new_names@);
    names_stay_distinct(names, model, model.len());
    assert(model.take(model.len() as int) == model);
    assert(model.len() == new_names@.len());
}

/// How an apply goes on: a dry run shows its plan and ends with 1 exactly where
/// something would change; without changes it is said that nothing is needed, unless
/// conflicts kept them back, which are then shown.
pub proof fn steps_of_an_apply(meaningful: bool, conflicts: bool)
    ensures
        step_of(true, true, conflicts) == (ApplyStep::ShowPlan { code: 1 }),
        step_of(true, false, conflicts) == (ApplyStep::ShowPlan { code: 0 }),
        step_of(false, true, conflicts) == ApplyStep::Apply,
        step_of(false, false, true) == ApplyStep::ShowConflicts,
        step_of(false, false, false) == ApplyStep::NothingToDo,
{
}

/// One entity takes part in a comparison exactly where the system has it.
pub proof fn managed_of_one(
    desired: (Seq<char>, Seq<char>),
    actual: Seq<(Seq<char>, Seq<char>)>,
)
    ensures
        actual.contains(desired) ==> managed_in(seq![desired], actual, 1) == seq![desired],
        !actual.contains(desired) ==> managed_in(seq![desired], actual, 1).len() == 0,
{
    assert(managed_in(seq![desired], actual, 0) == Seq::<(Seq<char>, Seq<char>)>::empty());
}

/// Some entities and others behind them take part in a comparison as the first
/// do, then as the others do.
pub proof fn managed_of_parts(
    a: Seq<(Seq<char>, Seq<char>)>,
    b: Seq<(Seq<char>, Seq<char>)>,
    actual: Seq<(Seq<char>, Seq<char>)>,
)
    ensures
        managed_in(a + b, actual, (a + b).len()) == managed_in(a, actual, a.len()) + managed_in(b, actual, b.len()),
{
    lemma_managed_of_parts(a, b, actual, b.len());
}

/// The first elements give the same whatever stands behind them.
proof fn lemma_managed_of_parts_start(
    a: Seq<(Seq<char>, Seq<char>)>,
    b: Seq<(Seq<char>, Seq<char>)>,
    actual: Seq<(Seq<char>, Seq<char>)>,
    n: nat,
)
    requires
        n <= a.len(),
    ensures
        managed_in(a + b, actual, n) == managed_in(a, actual, n),
    decreases n,
{
    if n > 0 {
        lemma_managed_of_parts_start(a, b, actual, (n - 1) as nat);
        assert((a + b)[n - 1] == a[n - 1]);
    }
}

/// The first `m` elements of the second part follow all of the first part.
proof fn lemma_managed_of_parts(
    a: Seq<(Seq<char>, Seq<char>)>,
    b: Seq<(Seq<char>, Seq<char>)>,
    actual: Seq<(Seq<char>, Seq<char>)>,
    m: nat,
)
    requires
        m <= b.len(),
    ensures
        managed_in(a + b, actual, a.len() + m) == managed_in(a, actual, a.len()) + managed_in(b, actual, m),
    decreases m,
{
    if m == 0 {
        lemma_managed_of_parts_start(a, b, actual, a.len());
    } else {
        lemma_managed_of_parts(a, b, actual, (m - 1) as nat);
        assert((a + b)[a.len() + m - 1] == b[m - 1]);
    }
}

} // verus!
