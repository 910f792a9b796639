//! Tests of the `revert` subcommand.
use netfyr_cli::apply::{DiffOpKind, VarlinkApplyReport, VarlinkChangeEntry};
use netfyr_cli::journal::Trigger;
use netfyr_cli::revert::{
    daemon_missing_entry_text, daemon_result, display_revert_dry_run,
    display_varlink_revert_dry_run, display_varlink_revert_report, entry_heading,
    missing_entry_text, nothing_to_revert_message, plan_message, revert_step, revert_trigger,
    varlink_revert_exit_code, FieldPlan, PlannedOperation, RevertArgs, RevertStep,
};
use netfyr_cli::time::Timestamp;

fn report(succeeded: i64, failed: i64, changes: Vec<VarlinkChangeEntry>) -> VarlinkApplyReport {
    VarlinkApplyReport { succeeded, failed, skipped: 0, changes, conflicts: vec![] }
}

fn change(kind: &str, status: &str) -> VarlinkChangeEntry {
    VarlinkChangeEntry {
        kind: kind.to_string(),
        entity_type: "ethernet".to_string(),
        entity_name: "eth0".to_string(),
        description: "mtu 1500".to_string(),
        status: status.to_string(),
    }
}

#[test]
fn steps_of_a_revert() {
    assert_eq!(revert_step(true, true), RevertStep::NothingToDo);
    assert_eq!(revert_step(false, true), RevertStep::NothingToDo);
    assert_eq!(revert_step(true, false), RevertStep::ShowPlan);
    assert_eq!(revert_step(false, false), RevertStep::Apply);
}

#[test]
fn headings_and_messages() {
    assert_eq!(
        entry_heading(3, Timestamp { secs: 1778054131, nanos: 5 }),
        "Reverting to state from entry #3 (2026-05-06 07:55:31 UTC)\n"
    );
    assert_eq!(missing_entry_text(9), "Error: Entry #9 not found");
    assert_eq!(daemon_missing_entry_text("no entry 9"), "Error: no entry 9");
    assert_eq!(
        nothing_to_revert_message(),
        "No changes needed. System is already in the target state.\n"
    );
    match revert_trigger(&RevertArgs { target: 12, dry_run: false }) {
        Trigger::Revert { target_seq } => assert_eq!(target_seq, 12),
        other => panic!("{other:?}"),
    }
}

#[test]
fn plan_of_all_kinds() {
    colored::control::set_override(false);
    let s = |t: &str| t.to_string();
    let ops = vec![
        PlannedOperation {
            kind: DiffOpKind::Modify,
            entity_type: s("ethernet"),
            key: s("eth0"),
            field_changes: vec![
                FieldPlan::Write {
                    field: s("mtu"),
                    current: Some(s("1500")),
                    desired: s("9000"),
                },
                FieldPlan::Write { field: s("speed"), current: None, desired: s("1000") },
                FieldPlan::Clear { field: s("gone"), value: s("true") },
                FieldPlan::Keep { field: s("same") },
            ],
        },
        PlannedOperation {
            kind: DiffOpKind::Add,
            entity_type: s("ethernet"),
            key: s("eth1"),
            field_changes: vec![],
        },
        PlannedOperation {
            kind: DiffOpKind::Remove,
            entity_type: s("ethernet"),
            key: s("eth2"),
            field_changes: vec![],
        },
    ];
    assert_eq!(
        display_revert_dry_run(&ops),
        "  ~ ethernet eth0\n  ~   mtu: 1500 \u{2192} 9000\n  +   speed: 1000\n  -   gone: true\n  + ethernet eth1\n  - ethernet eth2\n"
    );
}

#[test]
fn plans_stand_under_a_heading() {
    assert_eq!(plan_message(), "Changes that would be applied:\n");
}

#[test]
fn daemon_plan() {
    colored::control::set_override(true);
    assert_eq!(
        display_varlink_revert_dry_run(&report(0, 0, vec![])),
        "No changes needed. System is already in the target state.\n"
    );
    let changes = vec![change("add", ""), change("remove", ""), change("modify", "")];
    assert_eq!(
        display_varlink_revert_dry_run(&report(0, 0, changes)),
        "Changes that would be applied:\n\u{1b}[32m  + ethernet eth0: mtu 1500\u{1b}[0m\n\u{1b}[31m  - ethernet eth0: mtu 1500\u{1b}[0m\n\u{1b}[33m  ~ ethernet eth0: mtu 1500\u{1b}[0m\n"
    );
}

#[test]
fn daemon_reports() {
    colored::control::set_override(false);
    let text = display_varlink_revert_report(&report(1, 0, vec![change("modify", "applied")]));
    assert_eq!(text, "  ~ ethernet eth0: mtu 1500\nApplied 1 changes.\n");
    let text = display_varlink_revert_report(&report(1, 2, vec![change("add", "odd")]));
    assert_eq!(text, "  ? ethernet eth0\nApplied 1 of 3 changes. 2 failed.\n");
    assert_eq!(display_varlink_revert_report(&report(0, 2, vec![])), "All 2 changes failed.\n");
}

#[test]
fn daemon_exit_codes() {
    assert_eq!(varlink_revert_exit_code(&report(1, 0, vec![])), 0);
    assert_eq!(varlink_revert_exit_code(&report(1, 1, vec![])), 1);
    assert_eq!(varlink_revert_exit_code(&report(0, 1, vec![])), 2);
}

#[test]
fn daemon_results() {
    colored::control::set_override(false);
    let changes = vec![change("modify", "applied")];
    let done = daemon_result(
        &RevertArgs { target: 4, dry_run: false },
        &report(1, 0, changes),
        "2026-05-06 07:55:31",
    );
    assert_eq!(done.code, 0);
    assert_eq!(
        done.printed.stdout,
        "Reverting to state from entry #4 (2026-05-06 07:55:31 UTC)\n  ~ ethernet eth0: mtu 1500\nApplied 1 changes.\n"
    );
    assert_eq!(
        done.printed.stderr,
        "Warning: the active policy set was not changed. The daemon may re-apply\nthe current desired state on the next reconciliation cycle.\n"
    );
    let dry = RevertArgs { target: 4, dry_run: true };
    let planned = daemon_result(&dry, &report(0, 0, vec![change("add", "")]), "t");
    assert_eq!(planned.code, 1);
    assert_eq!(planned.printed.stderr, "");
    assert_eq!(
        planned.printed.stdout,
        "Reverting to state from entry #4 (t UTC)\nChanges that would be applied:\n  + ethernet eth0: mtu 1500\n"
    );
    assert_eq!(daemon_result(&dry, &report(0, 0, vec![]), "t").code, 0);
}
