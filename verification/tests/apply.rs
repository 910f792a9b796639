//! Tests of the `apply` subcommand.
use netfyr_cli::apply::report::{
    display_apply_report, display_dry_run_report, display_varlink_apply_report,
    display_varlink_diff, print_conflicts,
};
use netfyr_cli::apply::{
    apply_outcomes, apply_step, apply_trigger, daemon_exit_code, determine_exit_code,
    dry_run_exit_code, load_policies, managed_entities, nothing_to_do_message, outcome_of,
    permission_denied_text, production_context, require_static, validate_policies,
    AppliedOperation, ApplyReport, ApplyStep, Conflict, ConflictReport, Contribution, DiffOpKind,
    FailedOperation, FieldError, LoadedPolicies, PathLoad, PolicyFactory, SkippedOperation,
    ValidatedPolicy, VarlinkApplyReport, VarlinkChangeEntry, VarlinkConflictEntry,
    VarlinkDiffOperation, VarlinkFieldChange, VarlinkStateDiff,
};
use netfyr_cli::journal::{
    ApplyOutcome, SerializableDiff, SerializableDiffOp, SerializableFieldChange, Trigger,
};
use netfyr_cli::json::Json;

/// The value that a JSON text holds.
fn j(text: &str) -> Json {
    from_value(&serde_json::from_str(text).expect("valid JSON"))
}

fn from_value(value: &serde_json::Value) -> Json {
    match value {
        serde_json::Value::Null => Json::Null,
        serde_json::Value::Bool(b) => Json::Bool(*b),
        serde_json::Value::Number(n) => match (n.as_u64(), n.as_i64()) {
            (Some(u), _) => Json::PosInt(u),
            (_, Some(i)) => Json::NegInt(i),
            _ => Json::Real(n.to_string()),
        },
        serde_json::Value::String(s) => Json::Str(s.clone()),
        serde_json::Value::Array(list) => Json::List(list.iter().map(from_value).collect()),
        serde_json::Value::Object(map) => {
            Json::Dict(map.iter().map(|(k, v)| (k.clone(), from_value(v))).collect())
        }
    }
}

fn new_report() -> ApplyReport {
    ApplyReport { succeeded: vec![], failed: vec![], skipped: vec![] }
}

fn strings(list: &[&str]) -> Vec<String> {
    list.iter().map(|s| s.to_string()).collect()
}

fn make_applied(entity_type: &str, name: &str) -> AppliedOperation {
    AppliedOperation {
        operation: DiffOpKind::Modify,
        entity_type: entity_type.to_string(),
        key: name.to_string(),
        fields_changed: vec!["mtu".to_string()],
    }
}

fn make_failed(entity_type: &str, name: &str) -> FailedOperation {
    FailedOperation {
        operation: DiffOpKind::Modify,
        entity_type: entity_type.to_string(),
        key: name.to_string(),
        error: "interface not found".to_string(),
    }
}

fn empty_conflict_report() -> ConflictReport {
    ConflictReport { conflicts: vec![] }
}

fn conflict_report_with_one() -> ConflictReport {
    ConflictReport {
        conflicts: vec![Conflict {
            entity_type: "ethernet".to_string(),
            entity_name: "eth0".to_string(),
            field_name: "mtu".to_string(),
            priority: 100,
            contributions: vec![],
        }],
    }
}

fn varlink_report(succeeded: i64, failed: i64, conflict_count: usize) -> VarlinkApplyReport {
    VarlinkApplyReport {
        succeeded,
        failed,
        skipped: 0,
        changes: vec![],
        conflicts: (0..conflict_count)
            .map(|i| VarlinkConflictEntry {
                entity_type: "ethernet".to_string(),
                entity_name: format!("eth{}", i),
                field_name: "mtu".to_string(),
                policies: vec!["policy-a".to_string(), "policy-b".to_string()],
                values: vec!["1500".to_string(), "9000".to_string()],
            })
            .collect(),
    }
}

// ── determine_exit_code tests ─────────────────────────────────────────────

/// exit code 0 when all operations succeed with no conflicts.
#[test]
fn test_determine_exit_code_all_succeeded_no_conflicts_returns_exit_0() {
    let mut report = new_report();
    report.succeeded.push(make_applied("ethernet", "eth0"));
    let conflicts = empty_conflict_report();
    assert_eq!(
        determine_exit_code(&report, &conflicts),
        0,
        "all succeeded, no conflicts must return exit 0"
    );
}

/// exit code 1 when some operations succeed and some fail (partial failure).
#[test]
fn test_determine_exit_code_partial_failure_returns_exit_1() {
    let mut report = new_report();
    report.succeeded.push(make_applied("ethernet", "eth0"));
    report.failed.push(make_failed("ethernet", "eth99"));
    let conflicts = empty_conflict_report();
    assert_eq!(
        determine_exit_code(&report, &conflicts),
        1,
        "partial failure (some succeeded, some failed) must return exit 1"
    );
}

/// exit code 2 when all operations fail (total failure).
#[test]
fn test_determine_exit_code_total_failure_returns_exit_2() {
    let mut report = new_report();
    report.failed.push(make_failed("ethernet", "eth99"));
    let conflicts = empty_conflict_report();
    assert_eq!(
        determine_exit_code(&report, &conflicts),
        2,
        "total failure (no succeeded, at least one failed) must return exit 2"
    );
}

/// exit code 1 when conflicts are detected even if all applicable changes succeeded.
#[test]
fn test_determine_exit_code_conflicts_but_no_failures_returns_exit_1() {
    let mut report = new_report();
    report.succeeded.push(make_applied("ethernet", "eth0"));
    let conflicts = conflict_report_with_one();
    assert_eq!(
        determine_exit_code(&report, &conflicts),
        1,
        "conflicts detected must cause exit 1 even when no apply failures"
    );
}

/// Edge: empty report with no conflicts exits 0 (no-op is success).
#[test]
fn test_determine_exit_code_empty_report_no_conflicts_returns_exit_0() {
    let report = new_report();
    let conflicts = empty_conflict_report();
    assert_eq!(
        determine_exit_code(&report, &conflicts),
        0,
        "empty report with no conflicts is treated as success"
    );
}

/// Edge: conflicts alone (no failures) produce exit 1, not exit 2.
#[test]
fn test_determine_exit_code_only_conflicts_no_failures_returns_exit_1_not_2() {
    let report = new_report();
    let conflicts = conflict_report_with_one();
    // is_total_failure() is false (no failures at all), so we get exit 1
    assert_eq!(
        determine_exit_code(&report, &conflicts),
        1,
        "conflicts alone produce exit 1, not exit 2"
    );
}

// ── daemon_exit_code tests ────────────────────────────────────────────────

/// daemon mode exit 0 when all changes applied, no conflicts.
#[test]
fn test_daemon_exit_code_all_succeeded_no_conflicts_returns_exit_0() {
    let report = varlink_report(3, 0, 0);
    assert_eq!(
        daemon_exit_code(&report),
        0,
        "daemon mode: all succeeded, no conflicts must return exit 0"
    );
}

/// daemon mode exit 0 when zero changes and no conflicts (already in desired state).
#[test]
fn test_daemon_exit_code_zero_changes_no_conflicts_returns_exit_0() {
    let report = varlink_report(0, 0, 0);
    assert_eq!(
        daemon_exit_code(&report),
        0,
        "daemon mode: zero changes and no failures must return exit 0"
    );
}

/// daemon mode exit 1 when some operations failed but some succeeded (partial).
#[test]
fn test_daemon_exit_code_partial_failure_returns_exit_1() {
    let report = varlink_report(2, 1, 0);
    assert_eq!(
        daemon_exit_code(&report),
        1,
        "daemon mode partial failure must return exit 1"
    );
}

/// daemon mode exit 2 when all operations failed.
#[test]
fn test_daemon_exit_code_total_failure_returns_exit_2() {
    let report = varlink_report(0, 1, 0);
    assert_eq!(
        daemon_exit_code(&report),
        2,
        "daemon mode total failure must return exit 2"
    );
}

/// daemon mode exit 1 when conflicts detected even if all changes applied.
#[test]
fn test_daemon_exit_code_conflicts_present_returns_exit_1() {
    let report = varlink_report(2, 0, 1);
    assert_eq!(
        daemon_exit_code(&report),
        1,
        "daemon mode: conflicts present must return exit 1"
    );
}

/// Edge: daemon mode with both failures and conflicts still returns exit 1 (partial).
#[test]
fn test_daemon_exit_code_partial_failure_with_conflicts_returns_exit_1() {
    let report = varlink_report(1, 1, 1);
    assert_eq!(
        daemon_exit_code(&report),
        1,
        "daemon mode partial failure with conflicts must return exit 1"
    );
}

// ── display_apply_report smoke tests ─────────────────────────────────────
//
// These tests verify that display_apply_report does not panic for various
// combinations of succeeded/failed operations and conflicts.

/// AC "Apply a single YAML policy file" — display_apply_report does not panic for empty report.
#[test]
fn test_display_apply_report_no_panic_empty_report_no_conflicts() {
    let report = new_report();
    let conflicts = empty_conflict_report();
    display_apply_report(&report, &conflicts);
}

/// Smoke: display_apply_report handles a single add operation without panic.
#[test]
fn test_display_apply_report_no_panic_single_add_operation() {
    let mut report = new_report();
    report.succeeded.push(AppliedOperation {
        operation: DiffOpKind::Add,
        entity_type: "ethernet".to_string(),
        key: "eth1".to_string(),
        fields_changed: vec!["mtu".to_string()],
    });
    let conflicts = empty_conflict_report();
    display_apply_report(&report, &conflicts);
}

/// Smoke: display_apply_report handles a remove operation without panic.
#[test]
fn test_display_apply_report_no_panic_single_remove_operation() {
    let mut report = new_report();
    report.succeeded.push(AppliedOperation {
        operation: DiffOpKind::Remove,
        entity_type: "ethernet".to_string(),
        key: "eth1".to_string(),
        fields_changed: vec![],
    });
    let conflicts = empty_conflict_report();
    display_apply_report(&report, &conflicts);
}

/// AC "Partial failure reports mixed results" — display_apply_report does not panic for
/// partial failure (some succeeded, some failed).
#[test]
fn test_display_apply_report_no_panic_partial_failure() {
    let mut report = new_report();
    report.succeeded.push(make_applied("ethernet", "eth0"));
    report.failed.push(make_failed("ethernet", "eth99"));
    let conflicts = empty_conflict_report();
    display_apply_report(&report, &conflicts);
}

/// AC "Total failure returns exit code 2" — display_apply_report does not panic for total failure.
#[test]
fn test_display_apply_report_no_panic_total_failure() {
    let mut report = new_report();
    report.failed.push(make_failed("ethernet", "eth99"));
    let conflicts = empty_conflict_report();
    display_apply_report(&report, &conflicts);
}

/// AC "Conflicts are reported as warnings" — display_apply_report does not panic with conflicts.
#[test]
fn test_display_apply_report_no_panic_with_conflict_warning() {
    let report = new_report();
    let conflicts = conflict_report_with_one();
    display_apply_report(&report, &conflicts);
}

/// Smoke: display_apply_report handles mixed add/modify/remove operations without panic.
#[test]
fn test_display_apply_report_no_panic_mixed_operation_types() {
    let mut report = new_report();
    report.succeeded.push(AppliedOperation {
        operation: DiffOpKind::Add,
        entity_type: "ethernet".to_string(),
        key: "eth0".to_string(),
        fields_changed: vec!["mtu".to_string()],
    });
    report.succeeded.push(make_applied("ethernet", "eth1"));
    report.succeeded.push(AppliedOperation {
        operation: DiffOpKind::Remove,
        entity_type: "ethernet".to_string(),
        key: "eth2".to_string(),
        fields_changed: vec![],
    });
    let conflicts = empty_conflict_report();
    display_apply_report(&report, &conflicts);
}

/// Smoke: display_apply_report handles operations with no fields_changed without panic.
#[test]
fn test_display_apply_report_no_panic_operation_with_empty_fields_changed() {
    let mut report = new_report();
    report.succeeded.push(AppliedOperation {
        operation: DiffOpKind::Modify,
        entity_type: "ethernet".to_string(),
        key: "eth0".to_string(),
        fields_changed: vec![],
    });
    let conflicts = empty_conflict_report();
    display_apply_report(&report, &conflicts);
}

// ── apply_outcomes tests ──────────────────────────────────────────────────
//
// apply_outcomes maps per-field results onto diff.

fn make_skipped(entity_type: &str, name: &str) -> SkippedOperation {
    SkippedOperation {
        operation: DiffOpKind::Modify,
        entity_type: entity_type.to_string(),
        key: name.to_string(),
        reason: "already in desired state".to_string(),
    }
}

fn make_diff_op(entity_type: &str, entity_name: &str, field_name: &str) -> SerializableDiffOp {
    SerializableDiffOp {
        kind: "modify".to_string(),
        entity_type: entity_type.to_string(),
        entity_name: entity_name.to_string(),
        field_changes: vec![SerializableFieldChange {
            field_name: field_name.to_string(),
            change_kind: "set".to_string(),
            current: Some(j(r#"1500"#)),
            desired: Some(j(r#"9000"#)),
            outcome: None,
        }],
    }
}

/// apply_outcomes sets outcome="applied" for succeeded entities,
/// "failed" for failed entities, and "skipped" for skipped entities.
#[test]
fn test_apply_outcomes_maps_per_entity_results_to_field_outcomes() {
    let mut diff = SerializableDiff {
        operations: vec![
            make_diff_op("ethernet", "eth0", "mtu"),      // will succeed
            make_diff_op("ethernet", "eth1", "addresses"), // will fail
            make_diff_op("ethernet", "eth2", "routes"),    // will be skipped
        ],
    };

    let mut report = new_report();
    report.succeeded.push(make_applied("ethernet", "eth0"));
    report.failed.push(make_failed("ethernet", "eth1"));
    report.skipped.push(make_skipped("ethernet", "eth2"));

    apply_outcomes(&mut diff, &report);

    let eth0_op = diff.operations.iter().find(|op| op.entity_name == "eth0").unwrap();
    assert_eq!(
        eth0_op.field_changes[0].outcome.as_deref(),
        Some("applied"),
        "eth0 mtu field must have outcome='applied' after succeed"
    );

    let eth1_op = diff.operations.iter().find(|op| op.entity_name == "eth1").unwrap();
    assert_eq!(
        eth1_op.field_changes[0].outcome.as_deref(),
        Some("failed"),
        "eth1 addresses field must have outcome='failed' after failure"
    );

    let eth2_op = diff.operations.iter().find(|op| op.entity_name == "eth2").unwrap();
    assert_eq!(
        eth2_op.field_changes[0].outcome.as_deref(),
        Some("skipped"),
        "eth2 routes field must have outcome='skipped' after skip"
    );
}

/// apply_outcomes sets unmatched operations to "skipped" by default.
#[test]
fn test_apply_outcomes_unmatched_operations_default_to_skipped() {
    let mut diff = SerializableDiff {
        operations: vec![make_diff_op("ethernet", "eth99", "mtu")],
    };

    // Empty report — eth99 not in any result category.
    let report = new_report();
    apply_outcomes(&mut diff, &report);

    assert_eq!(
        diff.operations[0].field_changes[0].outcome.as_deref(),
        Some("skipped"),
        "unmatched operation (not in any result category) must default to outcome='skipped'"
    );
}

/// apply_outcomes handles multiple field changes per entity, setting all to the same outcome.
#[test]
fn test_apply_outcomes_sets_all_field_changes_in_entity_to_same_outcome() {
    let mut diff = SerializableDiff {
        operations: vec![SerializableDiffOp {
            kind: "modify".to_string(),
            entity_type: "ethernet".to_string(),
            entity_name: "eth0".to_string(),
            field_changes: vec![
                SerializableFieldChange {
                    field_name: "mtu".to_string(),
                    change_kind: "set".to_string(),
                    current: Some(j(r#"1500"#)),
                    desired: Some(j(r#"9000"#)),
                    outcome: None,
                },
                SerializableFieldChange {
                    field_name: "addresses".to_string(),
                    change_kind: "set".to_string(),
                    current: Some(j(r#"[]"#)),
                    desired: Some(j(r#"["10.0.0.1/24"]"#)),
                    outcome: None,
                },
                SerializableFieldChange {
                    field_name: "routes".to_string(),
                    change_kind: "set".to_string(),
                    current: Some(j(r#"[]"#)),
                    desired: Some(j(r#"[]"#)),
                    outcome: None,
                },
            ],
        }],
    };

    let mut report = new_report();
    report.succeeded.push(make_applied("ethernet", "eth0"));

    apply_outcomes(&mut diff, &report);

    for fc in &diff.operations[0].field_changes {
        assert_eq!(
            fc.outcome.as_deref(),
            Some("applied"),
            "all field changes in a succeeded entity must have outcome='applied', field={}",
            fc.field_name
        );
    }
}

/// apply_outcomes on an empty report with an empty diff produces no panics.
#[test]
fn test_apply_outcomes_empty_diff_and_empty_report_no_panic() {
    let mut diff = SerializableDiff { operations: vec![] };
    let report = new_report();
    apply_outcomes(&mut diff, &report);
    assert!(diff.operations.is_empty());
}

/// apply_outcomes only matches operations by entity_type AND entity_name.
/// Same name but different entity_type must not match.
#[test]
fn test_apply_outcomes_entity_type_is_used_in_matching() {
    let mut diff = SerializableDiff {
        operations: vec![SerializableDiffOp {
            kind: "modify".to_string(),
            entity_type: "bond".to_string(),
            entity_name: "eth0".to_string(),
            field_changes: vec![SerializableFieldChange {
                field_name: "mtu".to_string(),
                change_kind: "set".to_string(),
                current: None,
                desired: Some(j(r#"9000"#)),
                outcome: None,
            }],
        }],
    };

    // Report has "ethernet/eth0" succeeded — but diff has "bond/eth0" → no match.
    let mut report = new_report();
    report.succeeded.push(make_applied("ethernet", "eth0"));

    apply_outcomes(&mut diff, &report);

    // bond/eth0 was not matched by ethernet/eth0 → defaults to "skipped".
    assert_eq!(
        diff.operations[0].field_changes[0].outcome.as_deref(),
        Some("skipped"),
        "diff entity with different entity_type must not match a report entry; should default to 'skipped'"
    );
}

// ── load_policies tests ──────────────────────────────────────────────────────

/// "Path does not exist shows error" — error message contains "path not found".
#[test]
fn test_load_policies_nonexistent_path_returns_error_with_path_not_found() {
    let mut loaded = LoadedPolicies::new();
    let result =
        load_policies(&mut loaded, "/nonexistent-path-xyz-123/eth0.yaml", &PathLoad::Missing);
    assert!(result.is_err(), "nonexistent path must return Err");
    let err = result.unwrap_err();
    assert!(err.contains("path not found"), "error must contain 'path not found', got: {}", err);
}

/// "Path does not exist shows error" — path is included in the error message.
#[test]
fn test_load_policies_nonexistent_path_error_includes_path_in_message() {
    let mut loaded = LoadedPolicies::new();
    let path = "/tmp/netfyr-test-nonexistent-xyz-abc/eth0.yaml";
    let result = load_policies(&mut loaded, path, &PathLoad::Missing);
    assert!(result.is_err());
    let err = result.unwrap_err();
    assert!(
        err.contains("netfyr-test-nonexistent-xyz-abc"),
        "error must include the path, got: {}",
        err
    );
}

/// Policies of two paths are combined; a name that comes again is an error.
#[test]
fn policies_of_paths_are_combined() {
    let mut loaded = LoadedPolicies::new();
    load_policies(&mut loaded, "a", &PathLoad::Policies(strings(&["eth0", "eth1"]))).unwrap();
    load_policies(&mut loaded, "b", &PathLoad::Policies(vec![])).unwrap();
    load_policies(&mut loaded, "c", &PathLoad::Policies(strings(&["eth2"]))).unwrap();
    assert_eq!(loaded.names, strings(&["eth0", "eth1", "eth2"]));
    let err = load_policies(&mut loaded, "d.yaml", &PathLoad::Policies(strings(&["eth1"])))
        .unwrap_err();
    assert_eq!(err, "duplicate policy name 'eth1' (from d.yaml)");
    let again = PathLoad::Policies(strings(&["eth3", "eth3"]));
    let err = load_policies(&mut loaded, "e.yaml", &again).unwrap_err();
    assert_eq!(err, "duplicate policy name 'eth3' (from e.yaml)");
    assert_eq!(loaded.names, strings(&["eth0", "eth1", "eth2"]));
}

#[test]
fn load_failures_name_the_path() {
    let mut loaded = LoadedPolicies::new();
    let err = load_policies(&mut loaded, "/etc/p", &PathLoad::DirectoryFailed).unwrap_err();
    assert_eq!(err, "failed to load policy directory: /etc/p");
    let err = load_policies(&mut loaded, "/etc/p/a.yaml", &PathLoad::FileFailed).unwrap_err();
    assert_eq!(err, "failed to load policy file: /etc/p/a.yaml");
    assert!(loaded.names.is_empty());
}

// ── validate_policies tests ──────────────────────────────────────────────────

fn checked(name: &str, errors: Vec<(&str, &str)>) -> ValidatedPolicy {
    let list = errors
        .into_iter()
        .map(|(field, message)| FieldError {
            field: field.to_string(),
            message: message.to_string(),
        })
        .collect();
    ValidatedPolicy { name: name.to_string(), states: vec![list] }
}

/// A valid ethernet state passes validation.
#[test]
fn test_validate_policies_valid_ethernet_state_returns_ok() {
    assert!(
        validate_policies(&[checked("eth0", vec![])]).is_ok(),
        "valid ethernet mtu=1500 must pass schema validation"
    );
}

/// A state with an mtu below the minimum of 68 fails validation.
#[test]
fn test_validate_policies_mtu_below_schema_minimum_returns_error() {
    let policies = [checked("eth0-low-mtu", vec![("mtu", "0 is less than the minimum of 68")])];
    assert!(
        validate_policies(&policies).is_err(),
        "mtu=0 is below the ethernet schema minimum of 68 and must fail validation"
    );
}

/// The error on an unknown field names both the policy and the field.
#[test]
fn test_validate_policies_unknown_field_returns_error_with_policy_name_and_field_name() {
    let policies = [checked(
        "my-policy",
        vec![("completely_unknown_field_xyz", "unknown field")],
    )];
    let result = validate_policies(&policies);
    assert!(result.is_err(), "unknown field must fail validation");
    let err = result.unwrap_err();
    assert!(
        err.contains("my-policy"),
        "error must include policy name 'my-policy'; got: {}",
        err
    );
    assert!(
        err.contains("completely_unknown_field_xyz"),
        "error must include unknown field name 'completely_unknown_field_xyz'; got: {}",
        err
    );
}

/// The error message begins with the policy.
#[test]
fn test_validate_policies_error_message_uses_policy_name_and_field_prefix_format() {
    let policies = [checked("test-policy", vec![("unrecognised_field", "unknown field")])];
    let result = validate_policies(&policies);
    assert!(result.is_err(), "unknown field must fail validation");
    let err = result.unwrap_err();
    assert!(
        err.contains("policy 'test-policy'"),
        "error message must use format \"policy 'test-policy'\"; got: {}",
        err
    );
}

/// Errors across policies are all collected.
#[test]
fn test_validate_policies_multiple_invalid_states_collects_all_errors() {
    let policies = [
        checked("policy-one", vec![("unknown_field_one", "unknown field")]),
        checked("policy-two", vec![("unknown_field_two", "unknown field")]),
    ];
    let result = validate_policies(&policies);
    assert!(result.is_err(), "both invalid states must cause validation to fail");
    let err = result.unwrap_err();
    assert!(
        err.contains("policy-one") || err.contains("policy-two"),
        "error must mention at least one policy name; got: {}",
        err
    );
    assert_eq!(
        err,
        "policy 'policy-one': field 'unknown_field_one': unknown field\npolicy 'policy-two': field 'unknown_field_two': unknown field"
    );
}

/// No policies pass validation.
#[test]
fn test_validate_policies_empty_policy_set_returns_ok() {
    assert!(validate_policies(&[]).is_ok(), "empty policy set must pass validation");
}

// ── display_dry_run_report tests ─────────────────────────────────────────────

/// No changes.
#[test]
fn test_display_dry_run_report_no_panic_when_no_changes() {
    colored::control::set_override(false);
    assert_eq!(display_dry_run_report(0, "", true), "No changes needed (dry run).\n");
}

/// An empty difference that counts as not empty.
#[test]
fn test_display_dry_run_report_no_panic_empty_diff_is_empty_false() {
    colored::control::set_override(false);
    assert_eq!(display_dry_run_report(0, "", false), "Dry run: 0 changes would be applied.\n");
}

/// One operation that adds an entity with one field.
#[test]
fn test_display_dry_run_report_no_panic_with_diff_operations() {
    colored::control::set_override(false);
    let text = "+ ethernet eth0\n+   mtu: 9000\n";
    assert_eq!(
        display_dry_run_report(1, text, false),
        "Dry run: 1 change would be applied.\n  + ethernet eth0\n  +   mtu: 9000\n"
    );
}

/// Each line of a difference is coloured by its first character; a carriage return
/// before a line feed is no part of a line.
#[test]
fn dry_run_lines_in_colour() {
    colored::control::set_override(true);
    assert_eq!(
        display_dry_run_report(2, "+a\r\n-b\n~c\n d", false),
        "\u{1b}[33mDry run: 2 changes would be applied.\u{1b}[0m\n\u{1b}[32m  +a\u{1b}[0m\n\u{1b}[31m  -b\u{1b}[0m\n\u{1b}[33m  ~c\u{1b}[0m\n   d\n"
    );
}

// ── Reports in full ──────────────────────────────────────────────────────────

fn one_of_each() -> ApplyReport {
    let mut report = new_report();
    report.succeeded.push(AppliedOperation {
        operation: DiffOpKind::Add,
        entity_type: "ethernet".to_string(),
        key: "eth1".to_string(),
        fields_changed: strings(&["mtu", "addresses"]),
    });
    report.succeeded.push(AppliedOperation {
        operation: DiffOpKind::Remove,
        entity_type: "ethernet".to_string(),
        key: "eth2".to_string(),
        fields_changed: vec![],
    });
    report.succeeded.push(make_applied("ethernet", "eth0"));
    report
}

#[test]
fn report_of_successes() {
    colored::control::set_override(false);
    let printed = display_apply_report(&one_of_each(), &empty_conflict_report());
    assert_eq!(printed.stderr, "");
    assert_eq!(
        printed.stdout,
        "  + ethernet eth1: mtu, addresses\n  - ethernet eth2\n  ~ ethernet eth0: mtu\nApplied 3 changes (1 added, 1 modified, 1 removed).\n"
    );
}

#[test]
fn report_of_partial_failure() {
    colored::control::set_override(false);
    let mut report = one_of_each();
    report.failed.push(make_failed("ethernet", "eth99"));
    report.skipped.push(make_skipped("ethernet", "eth5"));
    let printed = display_apply_report(&report, &empty_conflict_report());
    assert_eq!(
        printed.stdout,
        "  + ethernet eth1: mtu, addresses\n  - ethernet eth2\n  ~ ethernet eth0: mtu\n  x ethernet eth99: interface not found\n  s ethernet eth5: already in desired state\nApplied 3 of 5 changes. 1 failed.\n"
    );
}

#[test]
fn report_of_total_failure_in_colour() {
    colored::control::set_override(true);
    let mut report = new_report();
    report.failed.push(make_failed("ethernet", "eth99"));
    let printed = display_apply_report(&report, &empty_conflict_report());
    assert_eq!(
        printed.stdout,
        "  \u{1b}[31mx\u{1b}[0m ethernet eth99: interface not found\n\u{1b}[31mAll 1 changes failed.\u{1b}[0m\n"
    );
}

/// Where everything was skipped there is no summary.
#[test]
fn report_of_skips_alone() {
    colored::control::set_override(false);
    let mut report = new_report();
    report.skipped.push(make_skipped("ethernet", "eth5"));
    let printed = display_apply_report(&report, &empty_conflict_report());
    assert_eq!(printed.stdout, "  s ethernet eth5: already in desired state\n");
}

fn contribution(policy: &str, value: &str) -> Contribution {
    Contribution { policy_id: policy.to_string(), value: value.to_string() }
}

#[test]
fn conflicts_name_policies_and_priority() {
    colored::control::set_override(false);
    let mut conflicts = conflict_report_with_one();
    conflicts.conflicts[0].contributions =
        vec![contribution("a", "1500"), contribution("b", "9000")];
    assert_eq!(
        print_conflicts(&conflicts),
        "Warning: 1 field conflict detected. Conflicting fields were not applied.\n  ethernet eth0 mtu: policy \"a\" sets 1500, policy \"b\" sets 9000 (both priority 100)\n"
    );
    conflicts.conflicts.push(Conflict {
        entity_type: "ethernet".to_string(),
        entity_name: "eth1".to_string(),
        field_name: "mtu".to_string(),
        priority: 7,
        contributions: vec![
            contribution("a", "1"),
            contribution("b", "2"),
            contribution("c", "3"),
        ],
    });
    let printed = display_apply_report(&new_report(), &conflicts);
    assert_eq!(printed.stdout, "");
    assert_eq!(
        printed.stderr,
        "Warning: 2 field conflicts detected. Conflicting fields were not applied.\n  ethernet eth0 mtu: policy \"a\" sets 1500, policy \"b\" sets 9000 (both priority 100)\n  ethernet eth1 mtu: policy \"a\" sets 1, policy \"b\" sets 2, policy \"c\" sets 3 (all priority 7)\n"
    );
}

// ── Reports of the daemon ────────────────────────────────────────────────────

fn change(kind: &str, name: &str, status: &str) -> VarlinkChangeEntry {
    VarlinkChangeEntry {
        kind: kind.to_string(),
        entity_type: "ethernet".to_string(),
        entity_name: name.to_string(),
        description: "mtu".to_string(),
        status: status.to_string(),
    }
}

#[test]
fn daemon_report_of_all_kinds() {
    colored::control::set_override(false);
    let mut report = varlink_report(3, 1, 0);
    report.changes = vec![
        change("add", "a", "applied"),
        change("modify", "b", "applied"),
        change("remove", "c", "applied"),
        change("other", "d", "applied"),
        change("add", "e", "failed"),
        change("add", "f", "skipped"),
        change("add", "g", "unknown"),
    ];
    let printed = display_varlink_apply_report(&report, 1);
    assert_eq!(printed.stderr, "");
    assert_eq!(
        printed.stdout,
        "  + ethernet a: mtu\n  ~ ethernet b: mtu\n  - ethernet c: mtu\n  ? ethernet d: mtu\n  x ethernet e: mtu\n  s ethernet f: mtu\n  ? ethernet g\nSubmitted 1 policy to daemon. Applied 3 of 4 changes. 1 failed.\n"
    );
}

#[test]
fn daemon_summaries() {
    colored::control::set_override(false);
    let printed = display_varlink_apply_report(&varlink_report(2, 0, 0), 2);
    assert_eq!(printed.stdout, "Submitted 2 policies to daemon. Applied 2 changes.\n");
    let printed = display_varlink_apply_report(&varlink_report(0, 4, 0), 0);
    assert_eq!(printed.stdout, "Submitted 0 policies to daemon. All 4 changes failed.\n");
    let printed = display_varlink_apply_report(&varlink_report(i64::MAX, 1, 0), 2);
    assert_eq!(
        printed.stdout,
        "Submitted 2 policies to daemon. Applied 9223372036854775807 of 9223372036854775808 changes. 1 failed.\n"
    );
}

/// Policies and values are written as lists of quoted texts.
#[test]
fn daemon_conflicts_are_quoted() {
    colored::control::set_override(false);
    let mut report = varlink_report(0, 0, 1);
    report.conflicts[0].values = strings(&["a\"b", "ü\n"]);
    let printed = display_varlink_apply_report(&report, 2);
    assert_eq!(
        printed.stderr,
        "Warning: 1 field conflict detected. Conflicting fields were not applied.\n  ethernet eth0 mtu: [\"policy-a\", \"policy-b\"] -> [\"a\\\"b\", \"ü\\n\"]\n"
    );
}

fn field(name: &str, kind: &str, current: Option<Json>, desired: Option<Json>) -> VarlinkFieldChange {
    VarlinkFieldChange {
        field_name: name.to_string(),
        change_kind: kind.to_string(),
        current,
        desired,
    }
}

#[test]
fn daemon_plan_shows_each_change() {
    colored::control::set_override(false);
    let operation = |kind: &str, name: &str, field_changes| VarlinkDiffOperation {
        kind: kind.to_string(),
        entity_type: "ethernet".to_string(),
        entity_name: name.to_string(),
        field_changes,
    };
    let diff = VarlinkStateDiff {
        operations: vec![
            operation(
                "modify",
                "eth0",
                vec![
                    field("mtu", "set", Some(j("1500")), Some(j("9000"))),
                    field("speed", "set", None, Some(j(r#"{"b": [1, "x"], "a": null}"#))),
                    field("gone", "unset", Some(j("true")), None),
                    field("same", "unchanged", Some(j("-3")), None),
                    field("odd", "other", None, None),
                    field("none", "set", Some(j("1")), None),
                ],
            ),
            operation("add", "eth1", vec![]),
            operation("remove", "eth2", vec![]),
        ],
    };
    assert_eq!(
        display_varlink_diff(&diff, false),
        "Dry run: 3 changes would be applied.\n  ~ ethernet eth0\n  ~   mtu: 1500 \u{2192} 9000\n  +   speed: {\"a\":null,\"b\":[1,\"x\"]}\n  -   gone: true\n      same: -3\n  ~   none: 1 \u{2192} \n  + ethernet eth1\n  - ethernet eth2\n"
    );
    assert_eq!(display_varlink_diff(&diff, true), "No changes needed (dry run).\n");
}

// ── Decisions ────────────────────────────────────────────────────────────────

fn factory(name: &str, kind: &str) -> PolicyFactory {
    PolicyFactory { name: name.to_string(), factory: kind.to_string() }
}

#[test]
fn only_static_policies_go_without_a_daemon() {
    assert!(require_static(&[]).is_ok());
    assert!(require_static(&[factory("a", "Static")]).is_ok());
    let err = require_static(&[
        factory("eth0-dhcp", "Dhcpv4"),
        factory("a", "Static"),
        factory("b", "Dhcpv4"),
    ])
    .unwrap_err();
    assert_eq!(
        err,
        "policy \"eth0-dhcp\" uses factory \"dhcpv4\" which requires the netfyr daemon.\npolicy \"b\" uses factory \"dhcpv4\" which requires the netfyr daemon.\nStart the daemon with: systemctl start netfyr"
    );
}

#[test]
fn steps_of_an_apply() {
    assert_eq!(apply_step(true, true, false), ApplyStep::ShowPlan { code: 1 });
    assert_eq!(apply_step(true, false, true), ApplyStep::ShowPlan { code: 0 });
    assert_eq!(apply_step(false, true, true), ApplyStep::Apply);
    assert_eq!(apply_step(false, false, true), ApplyStep::ShowConflicts);
    assert_eq!(apply_step(false, false, false), ApplyStep::NothingToDo);
    assert_eq!(dry_run_exit_code(true), 0);
    assert_eq!(dry_run_exit_code(false), 1);
}

#[test]
fn only_desired_entities_are_compared() {
    let pair = |a: &str, b: &str| (a.to_string(), b.to_string());
    let desired = [pair("ethernet", "eth0"), pair("bond", "eth1"), pair("ethernet", "eth2")];
    let actual = vec![pair("ethernet", "eth2"), pair("ethernet", "eth1"), pair("ethernet", "eth0")];
    assert_eq!(
        managed_entities(&desired, &actual),
        vec![pair("ethernet", "eth0"), pair("ethernet", "eth2")]
    );
}

#[test]
fn messages_and_journal_parts() {
    assert_eq!(
        nothing_to_do_message(),
        "No changes needed. System is already in desired state."
    );
    assert_eq!(
        permission_denied_text("not root"),
        "Error: not root\nHint: run as root to apply policies (e.g. sudo netfyr apply ...)\n"
    );
    assert_eq!(production_context("p"), "failed to produce state for policy 'p'");
    match apply_trigger(&strings(&["a.yaml", "dir"])) {
        Trigger::PolicyApply { source } => assert_eq!(source, "a.yaml, dir"),
        other => panic!("{other:?}"),
    }
    let mut report = one_of_each();
    report.failed.push(make_failed("ethernet", "x"));
    assert_eq!(
        outcome_of(&report),
        ApplyOutcome::Applied { succeeded: 3, failed: 1, skipped: 0 }
    );
}

/// A skip weighs more than a failure, a failure more than a success, and an entity
/// without operations keeps the outcomes it has.
#[test]
fn outcomes_by_weight() {
    let mut diff = SerializableDiff {
        operations: vec![
            make_diff_op("ethernet", "eth0", "mtu"),
            make_diff_op("ethernet", "eth1", "mtu"),
            make_diff_op("ethernet", "eth2", "mtu"),
        ],
    };
    diff.operations[1].field_changes[0].outcome = Some("observed".to_string());
    diff.operations[2].field_changes[0].outcome = Some("observed".to_string());
    let mut report = new_report();
    for name in ["eth0", "eth1"] {
        report.succeeded.push(make_applied("ethernet", name));
        report.failed.push(make_failed("ethernet", name));
    }
    report.skipped.push(make_skipped("ethernet", "eth0"));
    apply_outcomes(&mut diff, &report);
    let outcomes: Vec<&str> = diff
        .operations
        .iter()
        .map(|op| op.field_changes[0].outcome.as_deref().unwrap())
        .collect();
    assert_eq!(outcomes, vec!["skipped", "failed", "observed"]);
}
