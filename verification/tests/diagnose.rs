//! Tests of the `diagnose` subcommand.
use netfyr_cli::diagnose::detect::{
    detect_carrier_loss, detect_configuration_drift, detect_dhcp_lease_lost, detect_failed_apply,
    detect_no_recent_activity, detect_policy_conflict, detect_recurring_flaps,
};
use netfyr_cli::diagnose::report::{
    determine_exit_code, format_json, format_text, pattern_to_str, run_analysis, run_analysis_at,
    severity_to_str, CollectedData, HealthyInfo,
};
use netfyr_cli::diagnose::{
    collect_entries_at, discover_managed_entities, filter_entities_by_selector,
    last_applied_index, parse_diagnose_selector, relative_time_at, varlink_states_to_serializable,
    DiagnoseArgs, DiagnoseOutputFormat, FieldSchema, Finding, PatternKind, Severity,
};
use netfyr_cli::journal::{
    ApplyOutcome, JournalEntry, SerializableDiff, SerializableDiffOp, SerializableState,
    SerializableStateSet, Trigger,
};
use netfyr_cli::json::Json;
use netfyr_cli::query::VarlinkState;
use netfyr_cli::time::Timestamp;

/// The value that a JSON text holds.
fn j(text: &str) -> Json {
    from_value(&serde_json::from_str(text).expect("valid JSON"))
}

fn from_value(value: &serde_json::Value) -> Json {
    match value {
        serde_json::Value::Null => Json::Null,
        serde_json::Value::Bool(b) => Json::Bool(*b),
        serde_json::Value::Number(n) => match (n.as_u64(), n.as_i64()) {
            (Some(u), _) => Json::PosInt(u),
            (_, Some(i)) => Json::NegInt(i),
            _ => Json::Real(n.to_string()),
        },
        serde_json::Value::String(s) => Json::Str(s.clone()),
        serde_json::Value::Array(list) => Json::List(list.iter().map(from_value).collect()),
        serde_json::Value::Object(map) => {
            Json::Dict(map.iter().map(|(k, v)| (k.clone(), from_value(v))).collect())
        }
    }
}

/// The current time.
fn now() -> Timestamp {
    Timestamp { secs: chrono::Utc::now().timestamp(), nanos: 0 }
}

/// The time a number of seconds ago.
fn ago(secs: i64) -> Timestamp {
    Timestamp { secs: now().secs - secs, nanos: 0 }
}

/// The fields of an ethernet interface that cannot be written.
fn schema() -> FieldSchema {
    let names = ["carrier", "speed", "mac", "driver"];
    FieldSchema {
        read_only: names.iter().map(|n| ("ethernet".to_string(), n.to_string())).collect(),
    }
}

/// A copy of an entry that a policy apply wrote.
fn copy_entry(e: &JournalEntry) -> JournalEntry {
    JournalEntry {
        seq: e.seq,
        timestamp: e.timestamp,
        trigger: Trigger::PolicyApply { source: "policy.yaml".to_string() },
        active_policies: vec![],
        diff: SerializableDiff {
            operations: e
                .diff
                .operations
                .iter()
                .map(|op| SerializableDiffOp {
                    kind: op.kind.clone(),
                    entity_type: op.entity_type.clone(),
                    entity_name: op.entity_name.clone(),
                    field_changes: vec![],
                })
                .collect(),
        },
        state_after: SerializableStateSet {
            entities: e
                .state_after
                .entities
                .iter()
                .map(|s| make_ser_state(&s.entity_type, &s.selector_name, copy_json(&s.fields)))
                .collect(),
        },
        outcome: e.outcome,
    }
}

fn copy_json(json: &Json) -> Json {
    match json {
        Json::Null => Json::Null,
        Json::Bool(b) => Json::Bool(*b),
        Json::PosInt(n) => Json::PosInt(*n),
        Json::NegInt(n) => Json::NegInt(*n),
        Json::Real(t) => Json::Real(t.clone()),
        Json::Str(t) => Json::Str(t.clone()),
        Json::List(l) => Json::List(l.iter().map(copy_json).collect()),
        Json::Dict(d) => Json::Dict(d.iter().map(|(k, v)| (k.clone(), copy_json(v))).collect()),
    }
}

// ── Test helpers ──────────────────────────────────────────────────────────────

fn empty_diff() -> SerializableDiff {
    SerializableDiff { operations: vec![] }
}

fn make_ser_state(
    entity_type: &str,
    name: &str,
    fields: Json,
) -> SerializableState {
    SerializableState {
        entity_type: entity_type.to_string(),
        selector_name: name.to_string(),
        fields,
    }
}

/// Build a PolicyApply JournalEntry with the given entity in state_after.
fn make_applied_entry(
    seq: u64,
    entity_type: &str,
    entity_name: &str,
    fields: Json,
    ago_secs: i64,
) -> JournalEntry {
    let ts = ago(ago_secs);
    JournalEntry {
        seq,
        timestamp: ts,
        trigger: Trigger::PolicyApply { source: "policy.yaml".to_string() },
        active_policies: vec![],
        diff: SerializableDiff {
            operations: vec![SerializableDiffOp {
                kind: "modify".to_string(),
                entity_type: entity_type.to_string(),
                entity_name: entity_name.to_string(),
                field_changes: vec![],
            }],
        },
        state_after: SerializableStateSet {
            entities: vec![make_ser_state(entity_type, entity_name, fields)],
        },
        outcome: ApplyOutcome::Applied { succeeded: 1, failed: 0, skipped: 0 },
    }
}

/// Build an ExternalChange JournalEntry.
fn make_external_change_entry(
    seq: u64,
    entity_type: &str,
    entity_name: &str,
    fields: Json,
    ago_secs: i64,
) -> JournalEntry {
    let ts = ago(ago_secs);
    JournalEntry {
        seq,
        timestamp: ts,
        trigger: Trigger::ExternalChange {
            changed_entities: vec![entity_name.to_string()],
        },
        active_policies: vec![],
        diff: empty_diff(),
        state_after: SerializableStateSet {
            entities: vec![make_ser_state(entity_type, entity_name, fields)],
        },
        outcome: ApplyOutcome::Observed,
    }
}

/// Build a DhcpEvent JournalEntry.
fn make_dhcp_event_entry(
    seq: u64,
    entity_type: &str,
    entity_name: &str,
    policy_name: &str,
    event_kind: &str,
    ago_secs: i64,
) -> JournalEntry {
    let ts = ago(ago_secs);
    JournalEntry {
        seq,
        timestamp: ts,
        trigger: Trigger::DhcpEvent {
            policy_name: policy_name.to_string(),
            event_kind: event_kind.to_string(),
        },
        active_policies: vec![],
        diff: empty_diff(),
        state_after: SerializableStateSet {
            entities: vec![make_ser_state(entity_type, entity_name, j("{}"))],
        },
        outcome: ApplyOutcome::Observed,
    }
}

/// Build a PolicyApply entry that records failures.
fn make_failed_apply_entry(
    seq: u64,
    entity_type: &str,
    entity_name: &str,
    failed: u32,
    ago_secs: i64,
) -> JournalEntry {
    let ts = ago(ago_secs);
    JournalEntry {
        seq,
        timestamp: ts,
        trigger: Trigger::PolicyApply { source: "policy.yaml".to_string() },
        active_policies: vec![],
        diff: SerializableDiff {
            operations: vec![SerializableDiffOp {
                kind: "modify".to_string(),
                entity_type: entity_type.to_string(),
                entity_name: entity_name.to_string(),
                field_changes: vec![],
            }],
        },
        state_after: SerializableStateSet { entities: vec![] },
        outcome: ApplyOutcome::Applied { succeeded: 1, failed, skipped: 0 },
    }
}

fn make_finding(severity: Severity) -> Finding {
    Finding {
        entity_name: "eth0".to_string(),
        entity_type: "ethernet".to_string(),
        severity,
        pattern: PatternKind::ConfigurationDrift,
        summary: "test".to_string(),
        details: vec![],
        suggested_actions: vec![],
        related_entries: vec![],
    }
}

fn text_args() -> DiagnoseArgs {
    DiagnoseArgs {
        selector: vec![],
        since: "1h".to_string(),
        output: DiagnoseOutputFormat::Text,
    }
}

fn json_args() -> DiagnoseArgs {
    DiagnoseArgs {
        selector: vec![],
        since: "1h".to_string(),
        output: DiagnoseOutputFormat::Json,
    }
}

// ── detect_configuration_drift ────────────────────────────────────────────────

/// Drift from external MTU change — output shows "configuration drift (warning)".
#[test]
fn test_drift_mtu_mismatch_produces_warning_finding() {
    let applied = make_applied_entry(
        10,
        "ethernet",
        "eth0",
        j(r#"{ "mtu": 1500 }"#),
        3600,
    );
    let current = vec![make_ser_state(
        "ethernet",
        "eth0",
        j(r#"{ "mtu": 9000 }"#),
    )];

    let findings =
        detect_configuration_drift(&[], &current, "ethernet", "eth0", Some(&applied), &schema(), now());

    assert_eq!(findings.len(), 1);
    let f = &findings[0];
    assert_eq!(f.severity, Severity::Warning);
    assert!(matches!(f.pattern, PatternKind::ConfigurationDrift));
    let all_text = format!("{} {:?}", f.summary, f.details);
    assert!(all_text.contains("1500"), "should mention desired value 1500");
    assert!(all_text.contains("9000"), "should mention current value 9000");
    assert!(all_text.contains("mtu"), "should mention the field name");
}

/// No drift when system matches policy — output shows "healthy".
#[test]
fn test_drift_no_finding_when_state_matches_policy() {
    let applied = make_applied_entry(
        10,
        "ethernet",
        "eth0",
        j(r#"{ "mtu": 1500 }"#),
        3600,
    );
    let current = vec![make_ser_state(
        "ethernet",
        "eth0",
        j(r#"{ "mtu": 1500 }"#),
    )];

    let findings =
        detect_configuration_drift(&[], &current, "ethernet", "eth0", Some(&applied), &schema(), now());

    assert!(findings.is_empty(), "no drift when current matches policy");
}

/// Drift with multiple fields — drift for mtu detected, extra addresses mentioned.
#[test]
fn test_drift_multiple_fields_all_appear_in_details() {
    let applied = make_applied_entry(
        10,
        "ethernet",
        "eth0",
        j(r#"{ "mtu": 1500, "addresses": ["10.0.1.50/24"] }"#),
        3600,
    );
    let current = vec![make_ser_state(
        "ethernet",
        "eth0",
        j(r#"{ "mtu": 9000, "addresses": ["10.0.1.50/24", "10.0.1.99/24"] }"#),
    )];

    let findings =
        detect_configuration_drift(&[], &current, "ethernet", "eth0", Some(&applied), &schema(), now());

    assert!(!findings.is_empty(), "should detect drift on at least one field");
    let all_text = format!("{} {:?}", findings[0].summary, findings[0].details);
    assert!(all_text.contains("mtu"), "should mention mtu drift");
}

/// No finding when no applied entry exists.
#[test]
fn test_drift_no_finding_when_no_last_applied() {
    let current = vec![make_ser_state(
        "ethernet",
        "eth0",
        j(r#"{ "mtu": 9000 }"#),
    )];

    let findings = detect_configuration_drift(&[], &current, "ethernet", "eth0", None, &schema(), now());

    assert!(findings.is_empty(), "no finding without a last applied entry");
}

/// Drift output suggests "Run `netfyr apply` to re-converge".
#[test]
fn test_drift_suggests_apply_action() {
    let applied = make_applied_entry(
        10,
        "ethernet",
        "eth0",
        j(r#"{ "mtu": 1500 }"#),
        3600,
    );
    let current = vec![make_ser_state(
        "ethernet",
        "eth0",
        j(r#"{ "mtu": 9000 }"#),
    )];

    let findings =
        detect_configuration_drift(&[], &current, "ethernet", "eth0", Some(&applied), &schema(), now());

    assert!(!findings.is_empty());
    let actions = findings[0].suggested_actions.join(" ");
    assert!(
        actions.contains("netfyr apply"),
        "should suggest `netfyr apply` to re-converge"
    );
}

/// Drift suggests "netfyr revert <seq>" with the last applied seq.
#[test]
fn test_drift_suggests_revert_with_correct_seq() {
    let applied = make_applied_entry(
        42,
        "ethernet",
        "eth0",
        j(r#"{ "mtu": 1500 }"#),
        3600,
    );
    let current = vec![make_ser_state(
        "ethernet",
        "eth0",
        j(r#"{ "mtu": 9000 }"#),
    )];

    let findings =
        detect_configuration_drift(&[], &current, "ethernet", "eth0", Some(&applied), &schema(), now());

    assert!(!findings.is_empty());
    let actions = findings[0].suggested_actions.join(" ");
    assert!(actions.contains("revert") && actions.contains("42"), "should suggest revert 42");
}

/// Carrier is a read-only field and must not appear in drift findings.
#[test]
fn test_drift_skips_read_only_carrier_field() {
    // Both desired and current have different carrier values, but carrier is read-only.
    let applied = make_applied_entry(
        10,
        "ethernet",
        "eth0",
        j(r#"{ "carrier": true }"#),
        3600,
    );
    let current = vec![make_ser_state(
        "ethernet",
        "eth0",
        j(r#"{ "carrier": false }"#),
    )];

    let findings =
        detect_configuration_drift(&[], &current, "ethernet", "eth0", Some(&applied), &schema(), now());

    // carrier is read-only (x-netfyr-writable: false), so drift should not be reported
    assert!(findings.is_empty(), "carrier is read-only, should not cause drift finding");
}

// ── detect_carrier_loss ───────────────────────────────────────────────────────

/// Interface lost carrier — output shows "carrier loss (critical)".
#[test]
fn test_carrier_loss_detected_when_current_state_has_carrier_false() {
    let ext_entry = make_external_change_entry(
        49,
        "ethernet",
        "eth0",
        j(r#"{ "carrier": false }"#),
        600,
    );
    let current =
        vec![make_ser_state("ethernet", "eth0", j(r#"{ "carrier": false }"#))];
    let entries = vec![ext_entry];

    let findings = detect_carrier_loss(&entries, &current, "ethernet", "eth0", now());

    assert_eq!(findings.len(), 1);
    let f = &findings[0];
    assert_eq!(f.severity, Severity::Critical);
    assert!(matches!(f.pattern, PatternKind::CarrierLoss));
}

/// Carrier recovered — output does not show carrier loss.
#[test]
fn test_no_carrier_loss_when_carrier_has_recovered() {
    let ext_loss = make_external_change_entry(
        48,
        "ethernet",
        "eth0",
        j(r#"{ "carrier": false }"#),
        1200,
    );
    let ext_recover = make_external_change_entry(
        49,
        "ethernet",
        "eth0",
        j(r#"{ "carrier": true }"#),
        600,
    );
    // Current state shows carrier=true (recovered)
    let current =
        vec![make_ser_state("ethernet", "eth0", j(r#"{ "carrier": true }"#))];
    let entries = vec![ext_loss, ext_recover];

    let findings = detect_carrier_loss(&entries, &current, "ethernet", "eth0", now());

    assert!(findings.is_empty(), "no carrier loss when carrier has recovered");
}

/// Output shows when carrier was lost (timestamp and seq).
#[test]
fn test_carrier_loss_details_include_seq_and_time() {
    let ext_entry = make_external_change_entry(
        49,
        "ethernet",
        "eth0",
        j(r#"{ "carrier": false }"#),
        600,
    );
    let current =
        vec![make_ser_state("ethernet", "eth0", j(r#"{ "carrier": false }"#))];

    let findings = detect_carrier_loss(&[ext_entry], &current, "ethernet", "eth0", now());

    assert!(!findings.is_empty());
    let all_text = format!("{:?}", findings[0].details);
    assert!(all_text.contains("49"), "should mention the seq number 49");
    assert!(
        all_text.contains("ago"),
        "should mention how long ago carrier was lost"
    );
}

/// Output suggests checking physical cable or switch port.
#[test]
fn test_carrier_loss_suggests_checking_cable_or_switch_port() {
    let current =
        vec![make_ser_state("ethernet", "eth0", j(r#"{ "carrier": false }"#))];

    let findings = detect_carrier_loss(&[], &current, "ethernet", "eth0", now());

    assert!(!findings.is_empty());
    let actions = findings[0].suggested_actions.join(" ");
    assert!(
        actions.contains("cable") || actions.contains("switch port"),
        "should suggest checking cable or switch port"
    );
}

// ── detect_dhcp_lease_lost ────────────────────────────────────────────────────

/// DHCP lease expired without renewal — shows "DHCP lease lost (critical)".
#[test]
fn test_dhcp_lease_lost_when_expire_without_acquire() {
    let expire_entry = make_dhcp_event_entry(
        51,
        "ethernet",
        "eth0",
        "eth0-dhcp",
        "lease_expired",
        300,
    );
    let entries = vec![expire_entry];

    let findings = detect_dhcp_lease_lost(&entries, "ethernet", "eth0", now());

    assert_eq!(findings.len(), 1);
    let f = &findings[0];
    assert_eq!(f.severity, Severity::Critical);
    assert!(matches!(f.pattern, PatternKind::DhcpLeaseLost));
}

/// DHCP lease expired then renewed — does not show DHCP lease loss.
#[test]
fn test_no_dhcp_lease_lost_when_acquire_follows_expire() {
    let expire_entry = make_dhcp_event_entry(
        51,
        "ethernet",
        "eth0",
        "eth0-dhcp",
        "lease_expired",
        600,
    );
    let acquire_entry = make_dhcp_event_entry(
        52,
        "ethernet",
        "eth0",
        "eth0-dhcp",
        "lease_acquired",
        300,
    );
    let entries = vec![expire_entry, acquire_entry];

    let findings = detect_dhcp_lease_lost(&entries, "ethernet", "eth0", now());

    assert!(findings.is_empty(), "no finding when lease was re-acquired after expiry");
}

/// DHCP lease renewed also clears the finding.
#[test]
fn test_no_dhcp_lease_lost_when_renewal_follows_expire() {
    let expire_entry = make_dhcp_event_entry(
        51,
        "ethernet",
        "eth0",
        "eth0-dhcp",
        "lease_expired",
        600,
    );
    let renew_entry = make_dhcp_event_entry(
        52,
        "ethernet",
        "eth0",
        "eth0-dhcp",
        "lease_renewed",
        300,
    );
    let entries = vec![expire_entry, renew_entry];

    let findings = detect_dhcp_lease_lost(&entries, "ethernet", "eth0", now());

    assert!(findings.is_empty(), "no finding when lease was renewed after expiry");
}

/// Suggests checking DHCP server reachability.
#[test]
fn test_dhcp_lease_lost_suggests_checking_server_reachability() {
    let expire_entry = make_dhcp_event_entry(
        51,
        "ethernet",
        "eth0",
        "eth0-dhcp",
        "lease_expired",
        300,
    );

    let findings = detect_dhcp_lease_lost(&[expire_entry], "ethernet", "eth0", now());

    assert!(!findings.is_empty());
    let actions = findings[0].suggested_actions.join(" ");
    assert!(
        actions.contains("DHCP") || actions.contains("reachability"),
        "should suggest checking DHCP server reachability"
    );
}

// ── detect_recurring_flaps ────────────────────────────────────────────────────

/// Carrier flapping — output shows "recurring flaps (warning)".
#[test]
fn test_recurring_flaps_detected_with_oscillating_carrier() {
    // 5 external changes with carrier alternating: false, true, false, true, false
    let entries = vec![
        make_external_change_entry(
            10,
            "ethernet",
            "eth0",
            j(r#"{ "carrier": false }"#),
            1800,
        ),
        make_external_change_entry(
            11,
            "ethernet",
            "eth0",
            j(r#"{ "carrier": true }"#),
            1500,
        ),
        make_external_change_entry(
            12,
            "ethernet",
            "eth0",
            j(r#"{ "carrier": false }"#),
            1200,
        ),
        make_external_change_entry(
            13,
            "ethernet",
            "eth0",
            j(r#"{ "carrier": true }"#),
            900,
        ),
        make_external_change_entry(
            14,
            "ethernet",
            "eth0",
            j(r#"{ "carrier": false }"#),
            600,
        ),
    ];

    let findings = detect_recurring_flaps(&entries, "ethernet", "eth0", now());

    assert_eq!(findings.len(), 1);
    let f = &findings[0];
    assert_eq!(f.severity, Severity::Warning);
    assert!(matches!(f.pattern, PatternKind::RecurringFlaps));
}

/// Output mentions the number of flaps and the affected field.
#[test]
fn test_recurring_flaps_mentions_affected_field_and_count() {
    let entries = vec![
        make_external_change_entry(
            10,
            "ethernet",
            "eth0",
            j(r#"{ "carrier": false }"#),
            1800,
        ),
        make_external_change_entry(
            11,
            "ethernet",
            "eth0",
            j(r#"{ "carrier": true }"#),
            1500,
        ),
        make_external_change_entry(
            12,
            "ethernet",
            "eth0",
            j(r#"{ "carrier": false }"#),
            1200,
        ),
        make_external_change_entry(
            13,
            "ethernet",
            "eth0",
            j(r#"{ "carrier": true }"#),
            900,
        ),
        make_external_change_entry(
            14,
            "ethernet",
            "eth0",
            j(r#"{ "carrier": false }"#),
            600,
        ),
    ];

    let findings = detect_recurring_flaps(&entries, "ethernet", "eth0", now());

    assert!(!findings.is_empty());
    let all_text = format!("{} {:?}", findings[0].summary, findings[0].details);
    assert!(all_text.contains("carrier"), "should mention the oscillating field 'carrier'");
    assert!(all_text.contains("5"), "should mention the number of changes");
}

/// Multiple changes without oscillation are not flaps.
#[test]
fn test_no_recurring_flaps_without_oscillation() {
    // 5 changes but each has a different address — no value repeats
    let entries = vec![
        make_external_change_entry(
            10,
            "ethernet",
            "eth0",
            j(r#"{ "addr": "10.0.0.1" }"#),
            1800,
        ),
        make_external_change_entry(
            11,
            "ethernet",
            "eth0",
            j(r#"{ "addr": "10.0.0.2" }"#),
            1500,
        ),
        make_external_change_entry(
            12,
            "ethernet",
            "eth0",
            j(r#"{ "addr": "10.0.0.3" }"#),
            1200,
        ),
        make_external_change_entry(
            13,
            "ethernet",
            "eth0",
            j(r#"{ "addr": "10.0.0.4" }"#),
            900,
        ),
        make_external_change_entry(
            14,
            "ethernet",
            "eth0",
            j(r#"{ "addr": "10.0.0.5" }"#),
            600,
        ),
    ];

    let findings = detect_recurring_flaps(&entries, "ethernet", "eth0", now());

    assert!(findings.is_empty(), "no flaps when values never repeat");
}

/// 3 or fewer external changes do not trigger flap detection (threshold is >3).
#[test]
fn test_no_recurring_flaps_with_three_or_fewer_changes() {
    let entries = vec![
        make_external_change_entry(
            10,
            "ethernet",
            "eth0",
            j(r#"{ "carrier": false }"#),
            600,
        ),
        make_external_change_entry(
            11,
            "ethernet",
            "eth0",
            j(r#"{ "carrier": true }"#),
            400,
        ),
        make_external_change_entry(
            12,
            "ethernet",
            "eth0",
            j(r#"{ "carrier": false }"#),
            200,
        ),
    ];

    let findings = detect_recurring_flaps(&entries, "ethernet", "eth0", now());

    assert!(findings.is_empty(), "no flaps with 3 or fewer changes");
}

// ── detect_failed_apply ───────────────────────────────────────────────────────

/// Recent apply had failures — shows "failed apply (warning)".
#[test]
fn test_failed_apply_detected_when_outcome_has_failures() {
    let entry = make_failed_apply_entry(42, "ethernet", "eth0", 2, 1800);

    let findings = detect_failed_apply(&[entry], "ethernet", "eth0");

    assert_eq!(findings.len(), 1);
    let f = &findings[0];
    assert_eq!(f.severity, Severity::Warning);
    assert!(matches!(f.pattern, PatternKind::FailedApply));
    let all_text = format!("{} {:?}", f.summary, f.details);
    assert!(
        all_text.contains("2") || all_text.contains("failure"),
        "should mention failure count"
    );
}

/// All recent applies succeeded — does not show failed apply.
#[test]
fn test_no_failed_apply_when_all_succeed() {
    let entry = make_applied_entry(
        42,
        "ethernet",
        "eth0",
        j(r#"{ "mtu": 1500 }"#),
        1800,
    );

    let findings = detect_failed_apply(&[entry], "ethernet", "eth0");

    assert!(findings.is_empty(), "no finding when all applies succeeded");
}

/// Suggests `netfyr history --show <seq>` to inspect failure details.
#[test]
fn test_failed_apply_suggests_history_show_with_seq() {
    let entry = make_failed_apply_entry(42, "ethernet", "eth0", 2, 1800);

    let findings = detect_failed_apply(&[entry], "ethernet", "eth0");

    assert!(!findings.is_empty());
    let actions = findings[0].suggested_actions.join(" ");
    assert!(
        actions.contains("history") && actions.contains("42"),
        "should suggest `netfyr history --show 42`"
    );
}

// ── detect_no_recent_activity ─────────────────────────────────────────────────

/// Entity has no recent entries — shows "no recent activity (info)".
#[test]
fn test_no_recent_activity_when_entity_not_in_window() {
    // No entries in the window for this entity
    let findings = detect_no_recent_activity(&[], "ethernet", "eth0");

    assert_eq!(findings.len(), 1);
    let f = &findings[0];
    assert_eq!(f.severity, Severity::Info);
    assert!(matches!(f.pattern, PatternKind::NoRecentActivity));
}

/// Entity appears in window — no "no recent activity" finding.
#[test]
fn test_no_recent_activity_not_reported_when_entity_in_window() {
    let entry = make_applied_entry(
        10,
        "ethernet",
        "eth0",
        j(r#"{ "mtu": 1500 }"#),
        1800,
    );

    let findings = detect_no_recent_activity(&[entry], "ethernet", "eth0");

    assert!(findings.is_empty(), "no finding when entity appears in the window");
}

// ── determine_exit_code ───────────────────────────────────────────────────────

/// Exit code 2 when findings contain critical severity.
#[test]
fn test_exit_code_2_when_critical_findings() {
    let critical = make_finding(Severity::Critical);
    let code = determine_exit_code(&[&critical]);
    assert_eq!(code, 2);
}

/// Exit code 1 when findings contain only warning severity.
#[test]
fn test_exit_code_1_when_only_warning_findings() {
    let warning = make_finding(Severity::Warning);
    let code = determine_exit_code(&[&warning]);
    assert_eq!(code, 1);
}

/// Exit code 0 when all entities are healthy (no findings).
#[test]
fn test_exit_code_0_when_no_findings() {
    let code = determine_exit_code(&[]);
    assert_eq!(code, 0);
}

/// Critical takes precedence over warning in exit code calculation.
#[test]
fn test_exit_code_2_when_mixed_critical_and_warning() {
    let critical = make_finding(Severity::Critical);
    let warning = make_finding(Severity::Warning);
    let code = determine_exit_code(&[&critical, &warning]);
    assert_eq!(code, 2, "critical must take precedence over warning");
}

/// Info findings alone return exit code 0 (info is not an error).
#[test]
fn test_exit_code_0_when_only_info_findings() {
    let info = make_finding(Severity::Info);
    let code = determine_exit_code(&[&info]);
    assert_eq!(code, 0, "info findings should not produce a non-zero exit");
}

// ── Severity ordering ─────────────────────────────────────────────────────────

/// Critical > Warning > Info > Healthy.
#[test]
fn test_severity_ordering_is_critical_warning_info_healthy() {
    assert!(Severity::Critical > Severity::Warning);
    assert!(Severity::Warning > Severity::Info);
    assert!(Severity::Info > Severity::Healthy);
}

// ── filter_entities_by_selector ───────────────────────────────────────────────

/// Filter by entity name shows only matching entity.
#[test]
fn test_filter_entities_by_name_selector() {
    let entities = vec![
        ("ethernet".to_string(), "eth0".to_string()),
        ("ethernet".to_string(), "eth1".to_string()),
    ];
    let selector = vec![("name".to_string(), "eth0".to_string())];

    let filtered = filter_entities_by_selector(&entities, &selector);

    assert_eq!(filtered.len(), 1);
    assert_eq!(filtered[0].1, "eth0");
    assert!(!filtered.iter().any(|(_, n)| n == "eth1"), "eth1 should be excluded");
}

/// No selector shows all entities.
#[test]
fn test_no_selector_returns_all_entities() {
    let entities = vec![
        ("ethernet".to_string(), "eth0".to_string()),
        ("ethernet".to_string(), "eth1".to_string()),
    ];

    let filtered = filter_entities_by_selector(&entities, &[]);

    assert_eq!(filtered.len(), 2);
}

// ── discover_managed_entities ─────────────────────────────────────────────────

/// Primary source is the last applied entry's state_after.
#[test]
fn test_discover_entities_from_last_applied_state_after() {
    let applied = make_applied_entry(
        10,
        "ethernet",
        "eth0",
        j(r#"{ "mtu": 1500 }"#),
        3600,
    );

    let entities = discover_managed_entities(&[], Some(&applied));

    assert_eq!(entities.len(), 1);
    assert_eq!(entities[0], ("ethernet".to_string(), "eth0".to_string()));
}

/// Falls back to window entries when no applied entry exists.
#[test]
fn test_discover_entities_falls_back_to_window_entries() {
    let entry = make_applied_entry(
        10,
        "ethernet",
        "eth0",
        j(r#"{}"#),
        3600,
    );

    let entities = discover_managed_entities(&[entry], None);

    assert!(!entities.is_empty());
    assert!(entities.iter().any(|(_, n)| n == "eth0"), "eth0 should be discovered");
}

/// Empty journal with no applied entry returns empty list.
#[test]
fn test_discover_entities_empty_when_no_data() {
    let entities = discover_managed_entities(&[], None);
    assert!(entities.is_empty());
}

// ── format_text ───────────────────────────────────────────────────────────────

/// Text output groups by severity — critical before warning before healthy.
#[test]
fn test_format_text_critical_before_warning_before_healthy() {
    let critical_finding = Finding {
        entity_name: "eth0".to_string(),
        entity_type: "ethernet".to_string(),
        severity: Severity::Critical,
        pattern: PatternKind::CarrierLoss,
        summary: "carrier lost".to_string(),
        details: vec![],
        suggested_actions: vec![],
        related_entries: vec![],
    };
    let warning_finding = Finding {
        entity_name: "eth1".to_string(),
        entity_type: "ethernet".to_string(),
        severity: Severity::Warning,
        pattern: PatternKind::ConfigurationDrift,
        summary: "drift detected".to_string(),
        details: vec![],
        suggested_actions: vec![],
        related_entries: vec![],
    };
    let entity_findings = vec![
        ("ethernet".to_string(), "eth0".to_string(), vec![critical_finding]),
        ("ethernet".to_string(), "eth1".to_string(), vec![warning_finding]),
    ];
    let healthy = vec![(
        "ethernet".to_string(),
        "eth2".to_string(),
        HealthyInfo { last_apply_seq: None, last_apply_ago: None, carrier_up: None },
    )];

    let text = format_text(&entity_findings, &healthy);

    let eth0_pos = text.find("eth0").expect("eth0 should appear");
    let eth1_pos = text.find("eth1").expect("eth1 should appear");
    let eth2_pos = text.find("eth2").expect("eth2 should appear");
    assert!(eth0_pos < eth1_pos, "critical eth0 must precede warning eth1");
    assert!(eth1_pos < eth2_pos, "warning eth1 must precede healthy eth2");
}

/// Text output includes severity label in header.
#[test]
fn test_format_text_includes_severity_label_in_header() {
    let finding = Finding {
        entity_name: "eth0".to_string(),
        entity_type: "ethernet".to_string(),
        severity: Severity::Critical,
        pattern: PatternKind::CarrierLoss,
        summary: "carrier lost".to_string(),
        details: vec!["Link is down".to_string()],
        suggested_actions: vec!["Check cable".to_string()],
        related_entries: vec![],
    };
    let entity_findings =
        vec![("ethernet".to_string(), "eth0".to_string(), vec![finding])];

    let text = format_text(&entity_findings, &[]);

    assert!(text.contains("eth0"), "entity name must appear");
    assert!(text.contains("critical"), "severity must appear in header");
}

/// Healthy entities show "healthy" and "no drift" line.
#[test]
fn test_format_text_healthy_entity_shows_healthy_and_no_drift() {
    let healthy = vec![(
        "ethernet".to_string(),
        "eth0".to_string(),
        HealthyInfo {
            last_apply_seq: Some(42),
            last_apply_ago: Some("2h ago".to_string()),
            carrier_up: Some(true),
        },
    )];

    let text = format_text(&[], &healthy);

    assert!(text.contains("eth0"), "entity name must appear");
    assert!(text.contains("healthy"), "must show 'healthy'");
    assert!(text.contains("no drift"), "must show 'no drift'");
}

/// Suggested actions are prefixed with →.
#[test]
fn test_format_text_suggested_actions_have_arrow_prefix() {
    let finding = Finding {
        entity_name: "eth0".to_string(),
        entity_type: "ethernet".to_string(),
        severity: Severity::Warning,
        pattern: PatternKind::ConfigurationDrift,
        summary: "drift".to_string(),
        details: vec![],
        suggested_actions: vec!["Run `netfyr apply` to re-converge".to_string()],
        related_entries: vec![],
    };
    let entity_findings =
        vec![("ethernet".to_string(), "eth0".to_string(), vec![finding])];

    let text = format_text(&entity_findings, &[]);

    assert!(text.contains("→"), "actions must be prefixed with →");
    assert!(text.contains("netfyr apply"), "action text must appear");
}

// ── format_json ───────────────────────────────────────────────────────────────

/// JSON output is a valid JSON array with required fields.
#[test]
fn test_format_json_produces_valid_array_with_required_fields() {
    let finding = Finding {
        entity_name: "eth0".to_string(),
        entity_type: "ethernet".to_string(),
        severity: Severity::Warning,
        pattern: PatternKind::ConfigurationDrift,
        summary: "Policy wants mtu=1500, system has mtu=9000".to_string(),
        details: vec!["Policy wants mtu=1500, system has mtu=9000".to_string()],
        suggested_actions: vec!["Run `netfyr apply`".to_string()],
        related_entries: vec![10, 49],
    };
    let entity_findings =
        vec![("ethernet".to_string(), "eth0".to_string(), vec![finding])];

    let json_str = format_json(&entity_findings, &[]);
    let parsed: serde_json::Value =
        serde_json::from_str(&json_str).expect("output must be valid JSON");

    assert!(parsed.is_array(), "output must be a JSON array");
    let arr = parsed.as_array().unwrap();
    assert_eq!(arr.len(), 1);

    let item = &arr[0];
    assert!(item.get("entity").is_some(), "must have 'entity' field");
    assert!(item.get("entity_type").is_some(), "must have 'entity_type' field");
    assert!(item.get("severity").is_some(), "must have 'severity' field");
    assert!(item.get("pattern").is_some(), "must have 'pattern' field");
    assert!(item.get("summary").is_some(), "must have 'summary' field");
    assert!(item.get("details").is_some(), "must have 'details' field");
    assert!(item.get("suggested_actions").is_some(), "must have 'suggested_actions' field");
    assert!(item.get("related_entries").is_some(), "must have 'related_entries' field");
}

/// Severity and pattern values are snake_case in JSON output.
#[test]
fn test_format_json_severity_and_pattern_are_snake_case() {
    let finding = Finding {
        entity_name: "eth0".to_string(),
        entity_type: "ethernet".to_string(),
        severity: Severity::Critical,
        pattern: PatternKind::CarrierLoss,
        summary: "carrier lost".to_string(),
        details: vec![],
        suggested_actions: vec![],
        related_entries: vec![],
    };
    let entity_findings =
        vec![("ethernet".to_string(), "eth0".to_string(), vec![finding])];

    let json_str = format_json(&entity_findings, &[]);
    let parsed: serde_json::Value = serde_json::from_str(&json_str).unwrap();

    assert_eq!(parsed[0]["severity"].as_str(), Some("critical"));
    assert_eq!(parsed[0]["pattern"].as_str(), Some("carrier_loss"));
    assert_eq!(parsed[0]["entity"].as_str(), Some("eth0"));
    assert_eq!(parsed[0]["entity_type"].as_str(), Some("ethernet"));
}

/// related_entries is an array of sequence IDs in JSON output.
#[test]
fn test_format_json_related_entries_is_array_of_u64() {
    let finding = Finding {
        entity_name: "eth0".to_string(),
        entity_type: "ethernet".to_string(),
        severity: Severity::Warning,
        pattern: PatternKind::ConfigurationDrift,
        summary: "drift".to_string(),
        details: vec![],
        suggested_actions: vec![],
        related_entries: vec![10, 49],
    };
    let entity_findings =
        vec![("ethernet".to_string(), "eth0".to_string(), vec![finding])];

    let json_str = format_json(&entity_findings, &[]);
    let parsed: serde_json::Value = serde_json::from_str(&json_str).unwrap();
    let entries = parsed[0]["related_entries"].as_array().expect("must be array");

    assert_eq!(entries.len(), 2);
    assert_eq!(entries[0].as_u64(), Some(10));
    assert_eq!(entries[1].as_u64(), Some(49));
}

// ── run_analysis ──────────────────────────────────────────────────────────────

/// Empty journal — exit code 0.
#[test]
fn test_run_analysis_empty_journal_returns_success() {
    let data = CollectedData {
        entries: vec![],
        current_state: vec![],
        managed_entities: vec![],
        last_applied_entry: None,
    };

    let result = run_analysis(&data, &text_args(), &schema());

    assert_eq!(result.code, 0);
}

/// Exit code 2 when critical findings exist.
#[test]
fn test_run_analysis_exit_code_2_with_carrier_loss_finding() {
    let ext_entry = make_external_change_entry(
        49,
        "ethernet",
        "eth0",
        j(r#"{ "carrier": false }"#),
        600,
    );
    let current =
        vec![make_ser_state("ethernet", "eth0", j(r#"{ "carrier": false }"#))];

    let data = CollectedData {
        entries: vec![ext_entry],
        current_state: current,
        managed_entities: vec![("ethernet".to_string(), "eth0".to_string())],
        last_applied_entry: None,
    };

    let result = run_analysis(&data, &text_args(), &schema());

    assert_eq!(result.code, 2);
}

/// Exit code 1 when warning findings exist.
#[test]
fn test_run_analysis_exit_code_1_with_drift_finding() {
    let applied = make_applied_entry(
        10,
        "ethernet",
        "eth0",
        j(r#"{ "mtu": 1500 }"#),
        3600,
    );
    let current =
        vec![make_ser_state("ethernet", "eth0", j(r#"{ "mtu": 9000 }"#))];

    let data = CollectedData {
        entries: vec![copy_entry(&applied)],
        current_state: current,
        managed_entities: vec![("ethernet".to_string(), "eth0".to_string())],
        last_applied_entry: Some(applied),
    };

    let result = run_analysis(&data, &text_args(), &schema());

    assert_eq!(result.code, 1);
}

/// Exit code 0 when all entities healthy.
#[test]
fn test_run_analysis_exit_code_0_when_all_healthy() {
    let applied = make_applied_entry(
        10,
        "ethernet",
        "eth0",
        j(r#"{ "mtu": 1500 }"#),
        3600,
    );
    let current =
        vec![make_ser_state("ethernet", "eth0", j(r#"{ "mtu": 1500 }"#))];

    let data = CollectedData {
        entries: vec![copy_entry(&applied)],
        current_state: current,
        managed_entities: vec![("ethernet".to_string(), "eth0".to_string())],
        last_applied_entry: Some(applied),
    };

    let result = run_analysis(&data, &text_args(), &schema());

    assert_eq!(result.code, 0);
}

/// JSON output format returns exit code 1 for drift.
#[test]
fn test_run_analysis_json_output_with_drift_returns_exit_code_1() {
    let applied = make_applied_entry(
        10,
        "ethernet",
        "eth0",
        j(r#"{ "mtu": 1500 }"#),
        3600,
    );
    let current =
        vec![make_ser_state("ethernet", "eth0", j(r#"{ "mtu": 9000 }"#))];

    let data = CollectedData {
        entries: vec![copy_entry(&applied)],
        current_state: current,
        managed_entities: vec![("ethernet".to_string(), "eth0".to_string())],
        last_applied_entry: Some(applied),
    };

    let result = run_analysis(&data, &json_args(), &schema());

    assert_eq!(result.code, 1);
}

/// Filter by selector — only selected entity findings shown, exit code reflects it.
#[test]
fn test_run_analysis_selector_limits_analysis_to_matching_entity() {
    // eth0 drifted, eth1 healthy; selector specifies eth0 only
    let mut applied = make_applied_entry(
        10,
        "ethernet",
        "eth0",
        j(r#"{ "mtu": 1500 }"#),
        3600,
    );
    // Add eth1 to state_after so it's "managed"
    applied.state_after.entities.push(make_ser_state(
        "ethernet",
        "eth1",
        j(r#"{ "mtu": 1500 }"#),
    ));

    let current = vec![
        make_ser_state("ethernet", "eth0", j(r#"{ "mtu": 9000 }"#)),
        make_ser_state("ethernet", "eth1", j(r#"{ "mtu": 1500 }"#)),
    ];

    let data = CollectedData {
        entries: vec![copy_entry(&applied)],
        current_state: current,
        managed_entities: vec![
            ("ethernet".to_string(), "eth0".to_string()),
            ("ethernet".to_string(), "eth1".to_string()),
        ],
        last_applied_entry: Some(applied),
    };
    let args = DiagnoseArgs {
        selector: vec![("name".to_string(), "eth0".to_string())],
        since: "1h".to_string(),
        output: DiagnoseOutputFormat::Text,
    };

    let result = run_analysis(&data, &args, &schema());

    // Only eth0 is analyzed; it has drift → exit code 1
    assert_eq!(result.code, 1);
}

// ── Time window behavior ──────────────────────────────────────────────────────

/// Only entries within --since window are analyzed; older entries are pre-filtered.
/// The detector receives only window entries; carrier-loss outside the window is not
/// reported if current state shows carrier=true.
#[test]
fn test_carrier_loss_outside_window_not_reported_when_carrier_recovered() {
    // Simulate: the carrier-loss entry was outside the window and was filtered out
    // before calling the detector. Current state shows carrier=true (recovered).
    let current =
        vec![make_ser_state("ethernet", "eth0", j(r#"{ "carrier": true }"#))];

    // No entries passed in (they were outside the since window)
    let findings = detect_carrier_loss(&[], &current, "ethernet", "eth0", now());

    assert!(findings.is_empty(), "no carrier loss when carrier=true and no window entries");
}

/// Wider window catches older events — entry from 2h ago in a 3h window is detected.
#[test]
fn test_carrier_loss_within_wider_window_is_reported() {
    let old_entry = make_external_change_entry(
        40,
        "ethernet",
        "eth0",
        j(r#"{ "carrier": false }"#),
        7200, // 2 hours old — within a 3h window
    );
    let current =
        vec![make_ser_state("ethernet", "eth0", j(r#"{ "carrier": false }"#))];

    let findings = detect_carrier_loss(&[old_entry], &current, "ethernet", "eth0", now());

    assert_eq!(findings.len(), 1, "carrier loss within wider window must be reported");
}

// ── parse_diagnose_selector ───────────────────────────────────────────────────

/// "name=eth0" parses to ("name", "eth0").
#[test]
fn test_parse_diagnose_selector_valid_name() {
    let result = parse_diagnose_selector("name=eth0");
    assert!(result.is_ok());
    let (k, v) = result.unwrap();
    assert_eq!(k, "name");
    assert_eq!(v, "eth0");
}

/// Non-"name" key returns an error.
#[test]
fn test_parse_diagnose_selector_invalid_key_returns_error() {
    let result = parse_diagnose_selector("type=ethernet");
    assert!(result.is_err());
    let err = result.unwrap_err();
    assert!(err.contains("name"), "error should mention 'name' key");
}

/// Missing '=' returns an error mentioning key=value format.
#[test]
fn test_parse_diagnose_selector_no_equals_returns_error() {
    let result = parse_diagnose_selector("eth0");
    assert!(result.is_err());
    let err = result.unwrap_err();
    assert!(err.contains("key=value"), "error should mention key=value format");
}

// ── detect_policy_conflict ────────────────────────────────────────────────────

/// Policy conflict detected when a field oscillates 2+ times across 4 applied entries.
/// Oscillation pattern: mtu cycles 1500→9000→1500→9000 (two revisits = two oscillations).
#[test]
fn test_policy_conflict_detected_when_field_oscillates_across_four_applies() {
    let entries = vec![
        make_applied_entry(10, "ethernet", "eth0", j(r#"{ "mtu": 1500 }"#), 3600),
        make_applied_entry(11, "ethernet", "eth0", j(r#"{ "mtu": 9000 }"#), 3500),
        make_applied_entry(12, "ethernet", "eth0", j(r#"{ "mtu": 1500 }"#), 3400),
        make_applied_entry(13, "ethernet", "eth0", j(r#"{ "mtu": 9000 }"#), 3300),
    ];

    let findings = detect_policy_conflict(&entries, "ethernet", "eth0");

    assert_eq!(findings.len(), 1, "should detect a policy conflict finding");
    let f = &findings[0];
    assert_eq!(f.severity, Severity::Warning);
    assert!(matches!(f.pattern, PatternKind::PolicyConflict));
}

/// Policy conflict finding details mention the oscillating field.
#[test]
fn test_policy_conflict_finding_mentions_oscillating_field() {
    let entries = vec![
        make_applied_entry(10, "ethernet", "eth0", j(r#"{ "mtu": 1500 }"#), 3600),
        make_applied_entry(11, "ethernet", "eth0", j(r#"{ "mtu": 9000 }"#), 3500),
        make_applied_entry(12, "ethernet", "eth0", j(r#"{ "mtu": 1500 }"#), 3400),
        make_applied_entry(13, "ethernet", "eth0", j(r#"{ "mtu": 9000 }"#), 3300),
    ];

    let findings = detect_policy_conflict(&entries, "ethernet", "eth0");

    assert!(!findings.is_empty());
    let all_text = format!("{} {:?}", findings[0].summary, findings[0].details);
    assert!(all_text.contains("mtu"), "conflict finding must name the oscillating field 'mtu'");
}

/// Policy conflict suggests reviewing overlapping policies.
#[test]
fn test_policy_conflict_suggests_reviewing_policies() {
    let entries = vec![
        make_applied_entry(10, "ethernet", "eth0", j(r#"{ "mtu": 1500 }"#), 3600),
        make_applied_entry(11, "ethernet", "eth0", j(r#"{ "mtu": 9000 }"#), 3500),
        make_applied_entry(12, "ethernet", "eth0", j(r#"{ "mtu": 1500 }"#), 3400),
        make_applied_entry(13, "ethernet", "eth0", j(r#"{ "mtu": 9000 }"#), 3300),
    ];

    let findings = detect_policy_conflict(&entries, "ethernet", "eth0");

    assert!(!findings.is_empty());
    let actions = findings[0].suggested_actions.join(" ");
    assert!(
        actions.contains("polic"),
        "suggested actions should mention reviewing policies, got: {:?}",
        actions
    );
}

/// Fewer than 3 applied entries do not trigger a policy conflict (threshold is ≥3).
#[test]
fn test_no_policy_conflict_with_fewer_than_three_applied_entries() {
    // Only 2 applies, even with oscillation — below the threshold.
    let entries = vec![
        make_applied_entry(10, "ethernet", "eth0", j(r#"{ "mtu": 1500 }"#), 3600),
        make_applied_entry(11, "ethernet", "eth0", j(r#"{ "mtu": 9000 }"#), 3500),
    ];

    let findings = detect_policy_conflict(&entries, "ethernet", "eth0");

    assert!(findings.is_empty(), "fewer than 3 applied entries must not trigger conflict");
}

/// Fields that change monotonically (no revisited values) are not reported as conflicts.
#[test]
fn test_no_policy_conflict_when_field_changes_monotonically() {
    // mtu increases uniquely across 4 applies — no value is ever revisited.
    let entries = vec![
        make_applied_entry(10, "ethernet", "eth0", j(r#"{ "mtu": 1000 }"#), 3600),
        make_applied_entry(11, "ethernet", "eth0", j(r#"{ "mtu": 1500 }"#), 3500),
        make_applied_entry(12, "ethernet", "eth0", j(r#"{ "mtu": 2000 }"#), 3400),
        make_applied_entry(13, "ethernet", "eth0", j(r#"{ "mtu": 9000 }"#), 3300),
    ];

    let findings = detect_policy_conflict(&entries, "ethernet", "eth0");

    assert!(findings.is_empty(), "monotonically changing fields must not trigger conflict");
}

/// Entries not for the target entity are ignored in conflict detection.
#[test]
fn test_no_policy_conflict_when_oscillation_is_on_different_entity() {
    // eth1 oscillates, but we're analyzing eth0 (which only has 2 stable applies).
    let entries = vec![
        make_applied_entry(10, "ethernet", "eth0", j(r#"{ "mtu": 1500 }"#), 3600),
        make_applied_entry(11, "ethernet", "eth0", j(r#"{ "mtu": 1500 }"#), 3500),
        // eth1 entries with oscillation — should not affect eth0 analysis.
        make_applied_entry(12, "ethernet", "eth1", j(r#"{ "mtu": 9000 }"#), 3400),
        make_applied_entry(13, "ethernet", "eth1", j(r#"{ "mtu": 1500 }"#), 3300),
        make_applied_entry(14, "ethernet", "eth1", j(r#"{ "mtu": 9000 }"#), 3200),
        make_applied_entry(15, "ethernet", "eth1", j(r#"{ "mtu": 1500 }"#), 3100),
    ];

    let findings = detect_policy_conflict(&entries, "ethernet", "eth0");

    assert!(findings.is_empty(), "oscillation on eth1 must not produce conflict for eth0");
}

// ── run_analysis: selector matches no entity ──────────────────────────────────

/// When selector matches no managed entity, exit code is 0 (no error to report).
#[test]
fn test_run_analysis_no_matching_entity_for_selector_returns_success() {
    let applied = make_applied_entry(
        10,
        "ethernet",
        "eth0",
        j(r#"{ "mtu": 1500 }"#),
        3600,
    );
    let data = CollectedData {
        entries: vec![copy_entry(&applied)],
        current_state: vec![make_ser_state(
            "ethernet",
            "eth0",
            j(r#"{ "mtu": 1500 }"#),
        )],
        managed_entities: vec![("ethernet".to_string(), "eth0".to_string())],
        last_applied_entry: Some(applied),
    };
    let args = DiagnoseArgs {
        selector: vec![("name".to_string(), "eth99".to_string())],
        since: "1h".to_string(),
        output: DiagnoseOutputFormat::Text,
    };

    let result = run_analysis(&data, &args, &schema());

    assert_eq!(
        result.code,
        0,
        "selector matching no entity must return exit code 0"
    );
}

// ── drift with multiple fields: both fields reported ──────────────────────────

/// Drift with multiple fields — both mtu and addresses differences appear in details.
#[test]
fn test_drift_multiple_fields_both_mtu_and_address_changes_reported() {
    let applied = make_applied_entry(
        10,
        "ethernet",
        "eth0",
        j(r#"{ "mtu": 1500, "addresses": ["10.0.1.50/24"] }"#),
        3600,
    );
    // Current state has different mtu AND extra address.
    let current = vec![make_ser_state(
        "ethernet",
        "eth0",
        j(r#"{ "mtu": 9000, "addresses": ["10.0.1.50/24", "10.0.1.99/24"] }"#),
    )];

    let findings =
        detect_configuration_drift(&[], &current, "ethernet", "eth0", Some(&applied), &schema(), now());

    assert!(!findings.is_empty(), "should detect at least one drift finding");
    // At least two drift details should be present (mtu + addresses).
    assert!(
        findings[0].details.len() >= 2,
        "drift with two differing fields must produce at least 2 detail lines, got: {:?}",
        findings[0].details
    );
    let all_text = findings[0].details.join(" ");
    assert!(all_text.contains("mtu"), "details must mention mtu drift");
    assert!(
        all_text.contains("addresses") || all_text.contains("10.0.1.99"),
        "details must mention address drift, got: {:?}",
        findings[0].details
    );
}

// ── Findings in full ─────────────────────────────────────────────────────────

/// 2026-05-06 07:55:31 UTC.
const THEN: i64 = 1778054131;

fn then(ago_secs: i64) -> Timestamp {
    Timestamp { secs: THEN - ago_secs, nanos: 0 }
}

fn strings(list: &[&str]) -> Vec<String> {
    list.iter().map(|s| s.to_string()).collect()
}

#[test]
fn drift_in_full() {
    let mut applied =
        make_applied_entry(42, "ethernet", "eth0", j(r#"{"mtu": 1500, "speed": 1, "up": true}"#), 0);
    applied.timestamp = then(900);
    let mut change = make_external_change_entry(49, "ethernet", "eth0", j("{}"), 0);
    change.timestamp = then(7200);
    let current = [make_ser_state("ethernet", "eth0", j(r#"{"mtu": 9000, "x": 1}"#))];
    let found = detect_configuration_drift(
        &[change],
        &current,
        "ethernet",
        "eth0",
        Some(&applied),
        &schema(),
        then(0),
    );
    assert_eq!(found.len(), 1);
    assert_eq!(found[0].summary, "Policy wants mtu=1500, system has mtu=9000");
    assert_eq!(
        found[0].details,
        strings(&[
            "Policy wants mtu=1500, system has mtu=9000",
            "Policy wants up=true, system has no value",
            "Changed externally 2h ago (seq 49)",
        ])
    );
    assert_eq!(
        found[0].suggested_actions,
        strings(&[
            "Run `netfyr apply` to re-converge",
            "Or `netfyr revert 42` to restore last applied state",
        ])
    );
    assert_eq!(found[0].related_entries, vec![42, 49]);
}

#[test]
fn carrier_loss_in_full() {
    let current = [make_ser_state("ethernet", "eth0", j(r#"{"carrier": false}"#))];
    let mut entry = make_external_change_entry(49, "ethernet", "eth0", j(r#"{"carrier": false}"#), 0);
    entry.timestamp = then(59);
    let found = detect_carrier_loss(&[entry], &current, "ethernet", "eth0", then(0));
    assert_eq!(
        found[0].details,
        strings(&["Carrier lost 59 sec ago (seq 49)", "Interface has no active link"])
    );
    assert_eq!(found[0].summary, "Interface eth0 has no carrier");
    let found = detect_carrier_loss(&[], &current, "ethernet", "eth0", then(0));
    assert_eq!(
        found[0].details,
        strings(&[
            "No carrier detected; loss predates the current scan window",
            "Use --since with a longer duration to see when carrier was lost",
        ])
    );
    assert!(found[0].related_entries.is_empty());
}

/// Of each policy the event with the highest number decides, whatever the order of
/// the entries.
#[test]
fn last_lease_event_decides() {
    let event = |seq, policy, kind| {
        let mut e = make_dhcp_event_entry(seq, "ethernet", "eth0", policy, kind, 0);
        e.timestamp = then(120);
        e
    };
    let entries = [
        event(9, "a", "lease_renewed"),
        event(5, "b", "lease_acquired"),
        event(3, "a", "lease_expired"),
        event(7, "b", "lease_lost"),
    ];
    let found = detect_dhcp_lease_lost(&entries, "ethernet", "eth0", then(0));
    assert_eq!(found.len(), 1);
    assert_eq!(found[0].summary, "DHCP lease expired 2 min ago ago (policy: b)");
    assert_eq!(
        found[0].details,
        strings(&[
            "Lease expired 2 min ago (seq 7)",
            "Policy: b",
            "Interface may have no addresses",
        ])
    );
    assert_eq!(found[0].related_entries, vec![7]);
}

#[test]
fn flaps_in_full() {
    let change = |seq: u64, up: bool| {
        let mut e = make_external_change_entry(
            seq,
            "ethernet",
            "eth0",
            j(if up { r#"{"carrier": true, "mtu": 1}"# } else { r#"{"carrier": false}"# }),
            0,
        );
        e.timestamp = then(3600 - 60 * seq as i64);
        e
    };
    let entries = [change(4, true), change(1, false), change(2, true), change(3, false)];
    let found = detect_recurring_flaps(&entries, "ethernet", "eth0", then(0));
    assert_eq!(found[0].summary, "4 changes detected, oscillation on: carrier, mtu");
    assert_eq!(
        found[0].details,
        strings(&[
            "4 external changes (seq 1 to 4)",
            "Oscillating fields: carrier, mtu",
            "Time range: 59 min ago to 56 min ago",
        ])
    );
    assert_eq!(found[0].related_entries, vec![1, 2, 3, 4]);
}

#[test]
fn failed_apply_in_full() {
    let found = detect_failed_apply(
        &[make_failed_apply_entry(42, "ethernet", "eth0", 2, 0)],
        "ethernet",
        "eth0",
    );
    assert_eq!(found[0].summary, "Apply had 2 failure(s) (seq 42)");
    assert_eq!(found[0].details, strings(&["Seq 42: 1 succeeded, 2 failed, 0 skipped"]));
    assert_eq!(
        found[0].suggested_actions,
        strings(&["Run `netfyr history --show 42` to inspect failure details"])
    );
}

#[test]
fn policy_conflict_in_full() {
    let entries: Vec<JournalEntry> = [1500u64, 9000, 1500, 9000]
        .iter()
        .enumerate()
        .map(|(i, mtu)| {
            let fields = j(&format!("{{\"mtu\": {mtu}}}"));
            make_applied_entry(i as u64, "ethernet", "eth0", fields, 0)
        })
        .collect();
    let found = detect_policy_conflict(&entries, "ethernet", "eth0");
    assert_eq!(found[0].summary, "May have conflicting policies for fields: mtu");
    assert_eq!(
        found[0].details[0],
        "Field(s) mtu oscillated across 4 applies (heuristic detection)"
    );
    assert_eq!(found[0].related_entries, vec![0, 1, 2, 3]);
}

// ── Reports in full ──────────────────────────────────────────────────────────

#[test]
fn worst_entities_come_first() {
    colored::control::set_override(false);
    let mut applied = make_applied_entry(10, "ethernet", "b", j(r#"{"mtu": 1500}"#), 0);
    applied.timestamp = then(86400 * 2);
    for name in ["a", "c", "d"] {
        let state = make_ser_state("ethernet", name, j(r#"{"mtu": 1500}"#));
        applied.state_after.entities.push(state);
    }
    let current = vec![
        make_ser_state("ethernet", "b", j(r#"{"mtu": 1}"#)),
        make_ser_state("ethernet", "a", j(r#"{"mtu": 2}"#)),
        make_ser_state("ethernet", "c", j(r#"{"mtu": 1500, "carrier": false}"#)),
        make_ser_state("ethernet", "d", j(r#"{"mtu": 1500, "carrier": true}"#)),
    ];
    let managed: Vec<(String, String)> =
        ["b", "a", "c", "d"].iter().map(|n| ("ethernet".to_string(), n.to_string())).collect();
    let data = CollectedData {
        entries: vec![copy_entry(&applied)],
        current_state: current,
        managed_entities: managed,
        last_applied_entry: Some(applied),
    };
    let result = run_analysis_at(&data, &text_args(), &schema(), then(0));
    assert_eq!(result.code, 2);
    assert_eq!(
        result.output,
        "c: carrier loss (critical)\n  No carrier detected; loss predates the current scan window\n  Use --since with a longer duration to see when carrier was lost\n  \u{2192} Check physical cable or switch port\n  \u{2192} Verify link with `ip link show c`\n\na: configuration drift (warning)\n  Policy wants mtu=1500, system has mtu=2\n  \u{2192} Run `netfyr apply` to re-converge\n  \u{2192} Or `netfyr revert 10` to restore last applied state\n\nb: configuration drift (warning)\n  Policy wants mtu=1500, system has mtu=1\n  \u{2192} Run `netfyr apply` to re-converge\n  \u{2192} Or `netfyr revert 10` to restore last applied state\n\nd: healthy\n  Last apply: 2d ago (seq 10), no drift, carrier up\n\n"
    );
}

#[test]
fn healthy_entities_in_json() {
    let healthy = [
        (
            "ethernet".to_string(),
            "eth0".to_string(),
            HealthyInfo {
                last_apply_seq: Some(4),
                last_apply_ago: Some("1h ago".to_string()),
                carrier_up: Some(false),
            },
        ),
        (
            "bond".to_string(),
            "b0".to_string(),
            HealthyInfo { last_apply_seq: None, last_apply_ago: None, carrier_up: Some(true) },
        ),
    ];
    let parsed: serde_json::Value = serde_json::from_str(&format_json(&[], &healthy)).unwrap();
    assert_eq!(parsed[0]["summary"], "Last apply: 1h ago (seq 4), no drift");
    assert_eq!(parsed[0]["details"][0], "carrier down");
    assert_eq!(parsed[0]["severity"], "healthy");
    assert_eq!(parsed[1]["summary"], "healthy");
    assert_eq!(parsed[1]["details"].as_array().unwrap().len(), 0);
    assert_eq!(parsed[1]["entity_type"], "bond");
}

#[test]
fn headers_in_colour() {
    colored::control::set_override(true);
    let line = |severity| {
        let report = [("t".to_string(), "x".to_string(), vec![make_finding(severity)])];
        format_text(&report, &[])
    };
    assert!(line(Severity::Critical).starts_with("\u{1b}[1;31mx: configuration drift (critical)"));
    assert!(line(Severity::Warning).starts_with("\u{1b}[1;33mx: "));
    assert!(line(Severity::Info).starts_with("\u{1b}[1mx: "));
    assert!(line(Severity::Healthy).starts_with("\u{1b}[1;32mx: "));
}

#[test]
fn nothing_to_diagnose() {
    let data = |managed: Vec<(String, String)>, entries| CollectedData {
        entries,
        current_state: vec![],
        managed_entities: managed,
        last_applied_entry: None,
    };
    let result = run_analysis_at(&data(vec![], vec![]), &text_args(), &schema(), then(0));
    assert_eq!(result.output, "No journal entries found. Run `netfyr apply` first.\n");
    let entry = || vec![make_applied_entry(1, "ethernet", "eth0", j("{}"), 0)];
    let result = run_analysis_at(&data(vec![], entry()), &text_args(), &schema(), then(0));
    assert_eq!(result.output, "No managed entities found.\n");
    let mut args = text_args();
    args.selector = vec![("name".to_string(), "eth9".to_string())];
    let managed = vec![("ethernet".to_string(), "eth0".to_string())];
    let result = run_analysis_at(&data(managed, entry()), &args, &schema(), then(0));
    assert_eq!(result.output, "No managed entities found matching selector.\n");
    assert_eq!(result.code, 0);
}

// ── Collecting ───────────────────────────────────────────────────────────────

#[test]
fn entries_within_their_time() {
    let at_age = |seq, age| {
        let mut e = make_applied_entry(seq, "ethernet", "eth0", j("{}"), 0);
        e.timestamp = then(age);
        e
    };
    let raw = || vec![at_age(3, 10), at_age(2, 3600), at_age(1, 3601)];
    let kept = collect_entries_at(raw(), "1h", then(0)).unwrap();
    assert_eq!(kept.iter().map(|e| e.seq).collect::<Vec<_>>(), vec![3, 2]);
    assert!(collect_entries_at(raw(), "often", then(0)).is_err());
    assert_eq!(last_applied_index(&raw()), Some(0));
    assert_eq!(last_applied_index(&[]), None);
}

#[test]
fn entities_are_listed_once() {
    let mut entry = make_applied_entry(1, "ethernet", "eth0", j("{}"), 0);
    entry.diff.operations[0].entity_name = "eth1".to_string();
    let last = make_applied_entry(2, "ethernet", "eth1", j("{}"), 0);
    let found = discover_managed_entities(&[copy_entry(&entry), entry], Some(&last));
    let names: Vec<&str> = found.iter().map(|(_, n)| n.as_str()).collect();
    assert_eq!(names, vec!["eth1", "eth0"]);
}

#[test]
fn states_of_the_daemon() {
    let states = varlink_states_to_serializable(vec![
        VarlinkState {
            entity_type: "ethernet".to_string(),
            name: Some("eth0".to_string()),
            fields: vec![("mtu".to_string(), Json::PosInt(1500))],
        },
        VarlinkState { entity_type: "dns".to_string(), name: None, fields: vec![] },
    ]);
    assert_eq!(states[0].selector_name, "eth0");
    assert_eq!(states[0].fields.get("mtu").and_then(|v| v.as_u64()), Some(1500));
    assert_eq!(states[1].selector_name, "");
}

#[test]
fn names_of_severities_and_patterns() {
    assert_eq!(severity_to_str(&Severity::Info), "info");
    assert_eq!(pattern_to_str(&PatternKind::NoRecentActivity), "no_recent_activity");
    assert_eq!(pattern_to_str(&PatternKind::DhcpLeaseLost), "dhcp_lease_lost");
    assert_eq!(relative_time_at(then(86400 * 3), then(0)), "3d ago");
    assert_eq!(relative_time_at(then(-5), then(0)), "0 sec ago");
}
