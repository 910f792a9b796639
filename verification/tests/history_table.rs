//! Tests of the history as a table of fixed columns, and of its filters.
use chrono::{DateTime, Duration, Utc};
use netfyr_cli::history::display::{journal_dir_path, trigger_display_name};
use netfyr_cli::history::table::{
    changes_summary, colorize_change_token, colorize_changes, entities_summary,
    format_text_detail, format_text_list, outcome_summary,
};
use netfyr_cli::history::{
    filter_entries, matches_selector, matches_trigger, parse_since, HistoryArgs,
    HistoryOutputFormat,
};
use netfyr_cli::journal::{
    ApplyOutcome, JournalEntry, PolicySummary, SerializableDiff, SerializableDiffOp,
    SerializableFieldChange, SerializableState, SerializableStateSet, Trigger,
};
use netfyr_cli::json::Json;
use netfyr_cli::time::Timestamp;

/// The value that a JSON text holds.
fn j(text: &str) -> Json {
    from_value(&serde_json::from_str(text).expect("valid JSON"))
}

fn from_value(value: &serde_json::Value) -> Json {
    match value {
        serde_json::Value::Null => Json::Null,
        serde_json::Value::Bool(b) => Json::Bool(*b),
        serde_json::Value::Number(n) => match (n.as_u64(), n.as_i64()) {
            (Some(u), _) => Json::PosInt(u),
            (_, Some(i)) => Json::NegInt(i),
            _ => Json::Real(n.to_string()),
        },
        serde_json::Value::String(s) => Json::Str(s.clone()),
        serde_json::Value::Array(list) => Json::List(list.iter().map(from_value).collect()),
        serde_json::Value::Object(map) => {
            Json::Dict(map.iter().map(|(k, v)| (k.clone(), from_value(v))).collect())
        }
    }
}

fn at(t: DateTime<Utc>) -> Timestamp {
    Timestamp { secs: t.timestamp(), nanos: t.timestamp_subsec_nanos() }
}

fn date(t: Timestamp) -> DateTime<Utc> {
    DateTime::from_timestamp(t.secs, t.nanos).unwrap()
}

fn make_entry() -> JournalEntry {
    JournalEntry {
        seq: 0,
        timestamp: at(Utc::now()),
        trigger: Trigger::PolicyApply { source: "test.yaml".to_string() },
        active_policies: vec![],
        diff: SerializableDiff { operations: vec![] },
        state_after: SerializableStateSet { entities: vec![] },
        outcome: ApplyOutcome::Applied { succeeded: 1, failed: 0, skipped: 0 },
    }
}

fn make_entry_with_entity(entity_name: &str) -> JournalEntry {
    let mut entry = make_entry();
    entry.diff = SerializableDiff {
        operations: vec![SerializableDiffOp {
            kind: "modify".to_string(),
            entity_type: "ethernet".to_string(),
            entity_name: entity_name.to_string(),
            field_changes: vec![],
        }],
    };
    entry
}

fn default_args() -> HistoryArgs {
    HistoryArgs {
        count: 20,
        since: None,
        trigger: None,
        selector: vec![],
        show: None,
        output: HistoryOutputFormat::Text,
        absolute_timestamps: false,
    }
}

// ── parse_since ───────────────────────────────────────────────────────────

/// --since 30s parses to approximately 30 seconds ago.
#[test]
fn history_test_parse_since_30s_returns_time_30_seconds_ago() {
    let before = Utc::now();
    let result = date(parse_since("30s").unwrap());
    let after = Utc::now();

    assert!(
        result >= before - Duration::seconds(31) && result <= after - Duration::seconds(29),
        "parse_since(\"30s\") should return approx 30 seconds ago"
    );
}

/// --since 5m parses to approximately 5 minutes ago.
#[test]
fn history_test_parse_since_5m_returns_time_5_minutes_ago() {
    let before = Utc::now();
    let result = date(parse_since("5m").unwrap());
    let after = Utc::now();

    assert!(
        result >= before - Duration::seconds(301) && result <= after - Duration::seconds(299),
        "parse_since(\"5m\") should return approx 5 minutes ago"
    );
}

/// --since 1h parses to approximately 1 hour ago.
#[test]
fn history_test_parse_since_1h_returns_time_1_hour_ago() {
    let before = Utc::now();
    let result = date(parse_since("1h").unwrap());
    let after = Utc::now();

    assert!(
        result >= before - Duration::seconds(3601) && result <= after - Duration::seconds(3599),
        "parse_since(\"1h\") should return approx 1 hour ago"
    );
}

/// --since 7d parses to approximately 7 days ago.
#[test]
fn history_test_parse_since_7d_returns_time_7_days_ago() {
    let before = Utc::now();
    let result = date(parse_since("7d").unwrap());
    let after = Utc::now();

    assert!(
        result >= before - Duration::seconds(7 * 86401)
            && result <= after - Duration::seconds(7 * 86399),
        "parse_since(\"7d\") should return approx 7 days ago"
    );
}

/// --since with ISO 8601 timestamp returns the exact time.
#[test]
fn history_test_parse_since_iso8601_timestamp_returns_exact_time() {
    let result = date(parse_since("2026-04-20T14:00:00Z").unwrap());
    let expected = chrono::DateTime::parse_from_rfc3339("2026-04-20T14:00:00Z")
        .unwrap()
        .with_timezone(&Utc);
    assert_eq!(result, expected, "parse_since should accept ISO 8601 timestamps");
}

/// --since with invalid input returns an error.
#[test]
fn history_test_parse_since_invalid_input_returns_error() {
    assert!(parse_since("foobar").is_err(), "invalid duration string should return error");
}

/// --since with unknown unit returns an error.
#[test]
fn history_test_parse_since_unknown_unit_returns_error() {
    assert!(parse_since("5x").is_err(), "unknown duration unit should return error");
}

// ── matches_trigger ───────────────────────────────────────────────────────

/// "apply" filter matches PolicyApply trigger entries.
#[test]
fn history_test_matches_trigger_apply_matches_policy_apply() {
    let entry = make_entry(); // PolicyApply
    assert!(matches_trigger(&entry, "apply"), "\"apply\" should match PolicyApply trigger");
}

/// "dhcp" filter matches DhcpEvent trigger entries.
#[test]
fn history_test_matches_trigger_dhcp_matches_dhcp_event() {
    let mut entry = make_entry();
    entry.trigger =
        Trigger::DhcpEvent { policy_name: "eth0-dhcp".to_string(), event_kind: "acquired".to_string() };
    assert!(matches_trigger(&entry, "dhcp"), "\"dhcp\" should match DhcpEvent trigger");
}

/// "external" filter matches ExternalChange trigger entries.
#[test]
fn history_test_matches_trigger_external_matches_external_change() {
    let mut entry = make_entry();
    entry.trigger = Trigger::ExternalChange { changed_entities: vec![] };
    assert!(
        matches_trigger(&entry, "external"),
        "\"external\" should match ExternalChange trigger"
    );
}

/// "startup" filter matches DaemonStartup trigger entries.
#[test]
fn history_test_matches_trigger_startup_matches_daemon_startup() {
    let mut entry = make_entry();
    entry.trigger = Trigger::DaemonStartup;
    assert!(
        matches_trigger(&entry, "startup"),
        "\"startup\" should match DaemonStartup trigger"
    );
}

/// "revert" filter matches Revert trigger entries.
#[test]
fn history_test_matches_trigger_revert_matches_revert() {
    let mut entry = make_entry();
    entry.trigger = Trigger::Revert { target_seq: 5 };
    assert!(matches_trigger(&entry, "revert"), "\"revert\" should match Revert trigger");
}

/// trigger filter is case-insensitive.
#[test]
fn history_test_matches_trigger_is_case_insensitive() {
    let entry = make_entry(); // PolicyApply
    assert!(
        matches_trigger(&entry, "APPLY"),
        "trigger filter matching should be case insensitive"
    );
}

/// non-matching trigger filter returns false.
#[test]
fn history_test_matches_trigger_non_matching_returns_false() {
    let entry = make_entry(); // PolicyApply
    assert!(
        !matches_trigger(&entry, "dhcp"),
        "\"dhcp\" should not match PolicyApply trigger"
    );
}

// ── matches_selector ─────────────────────────────────────────────────────

/// name=eth0 selector matches entry with eth0 in diff operations.
#[test]
fn history_test_matches_selector_name_eth0_matches_entry_with_eth0_in_diff() {
    let entry = make_entry_with_entity("eth0");
    let selectors = vec![("name".to_string(), "eth0".to_string())];
    assert!(
        matches_selector(&entry, &selectors),
        "name=eth0 should match entry that has eth0 in diff operations"
    );
}

/// name=eth0 selector does not match entry with only eth1 in diff.
#[test]
fn history_test_matches_selector_name_eth0_does_not_match_entry_with_only_eth1() {
    let entry = make_entry_with_entity("eth1");
    let selectors = vec![("name".to_string(), "eth0".to_string())];
    assert!(
        !matches_selector(&entry, &selectors),
        "name=eth0 should not match entry with only eth1 in diff"
    );
}

/// empty selectors list matches any entry.
#[test]
fn history_test_matches_selector_empty_selectors_matches_any_entry() {
    let entry = make_entry();
    assert!(matches_selector(&entry, &[]), "empty selectors should match any entry");
}

/// selector against entry with no diff operations returns false.
#[test]
fn history_test_matches_selector_empty_diff_does_not_match_name_selector() {
    let entry = make_entry(); // empty diff
    let selectors = vec![("name".to_string(), "eth0".to_string())];
    assert!(
        !matches_selector(&entry, &selectors),
        "entry with no diff ops should not match a name selector"
    );
}

// ── filter_entries ────────────────────────────────────────────────────────

/// Filter by time -- only entries newer than cutoff are shown.
#[test]
fn history_test_filter_entries_since_1h_filters_out_older_entries() {
    let old_entry = {
        let mut e = make_entry();
        e.timestamp = at(Utc::now() - Duration::hours(2));
        e
    };
    let recent_entry = {
        let mut e = make_entry();
        e.timestamp = at(Utc::now() - Duration::minutes(30));
        e
    };

    let mut args = default_args();
    args.since = Some("1h".to_string());

    let result = filter_entries(vec![old_entry, recent_entry], &args).unwrap();
    assert_eq!(result.len(), 1, "only 1 entry should pass the since=1h filter");
}

/// Filter by trigger type -- only matching trigger entries are returned.
#[test]
fn history_test_filter_entries_trigger_filter_shows_only_matching_entries() {
    let apply_entry = make_entry(); // PolicyApply
    let mut external_entry = make_entry();
    external_entry.trigger = Trigger::ExternalChange { changed_entities: vec![] };

    let mut args = default_args();
    args.trigger = Some("external".to_string());

    let result = filter_entries(vec![apply_entry, external_entry], &args).unwrap();
    assert_eq!(result.len(), 1, "only 1 entry should pass the --trigger external filter");
    assert!(
        matches!(result[0].trigger, Trigger::ExternalChange { .. }),
        "remaining entry should have ExternalChange trigger"
    );
}

/// Filter by entity name -- only entries touching named entity are shown.
#[test]
fn history_test_filter_entries_selector_filter_shows_only_entities_matching_name() {
    let eth0_entry = make_entry_with_entity("eth0");
    let eth1_entry = make_entry_with_entity("eth1");

    let mut args = default_args();
    args.selector = vec![("name".to_string(), "eth0".to_string())];

    let result = filter_entries(vec![eth0_entry, eth1_entry], &args).unwrap();
    assert_eq!(result.len(), 1, "only 1 entry should pass the name=eth0 filter");
}

/// Limit entry count -- -n 5 shows exactly 5 entries from a larger set.
#[test]
fn history_test_filter_entries_count_limits_number_of_results() {
    let entries: Vec<JournalEntry> = (0..10).map(|_| make_entry()).collect();

    let mut args = default_args();
    args.count = 5;

    let result = filter_entries(entries, &args).unwrap();
    assert_eq!(result.len(), 5, "count=5 should limit results to exactly 5 entries");
}

/// Combine filters -- all three filters apply with AND logic.
#[test]
fn history_test_filter_entries_combined_filters_use_and_logic() {
    let all_match = {
        let mut e = make_entry_with_entity("eth0");
        e.timestamp = at(Utc::now() - Duration::minutes(30));
        e.trigger = Trigger::PolicyApply { source: "test.yaml".to_string() };
        e
    };
    let only_entity_matches = {
        let mut e = make_entry_with_entity("eth0");
        e.timestamp = at(Utc::now() - Duration::hours(2)); // fails since filter
        e
    };
    let only_time_matches = {
        let mut e = make_entry(); // no eth0 in diff
        e.timestamp = at(Utc::now() - Duration::minutes(30));
        e
    };

    let mut args = default_args();
    args.since = Some("1h".to_string());
    args.selector = vec![("name".to_string(), "eth0".to_string())];

    let result =
        filter_entries(vec![all_match, only_entity_matches, only_time_matches], &args).unwrap();
    assert_eq!(
        result.len(),
        1,
        "combined filters (AND) should return only the entry matching all conditions"
    );
}

// ── format_text_list ──────────────────────────────────────────────────────

/// Text list output contains the header with all required column names.
#[test]
fn history_test_format_text_list_contains_header_with_all_column_names() {
    let output = format_text_list(&[make_entry()]);
    assert!(
        output.contains("SEQ")
            && output.contains("TIMESTAMP")
            && output.contains("TRIGGER")
            && output.contains("ENTITIES")
            && output.contains("CHANGES")
            && output.contains("OUTCOME"),
        "text list header should contain SEQ, TIMESTAMP, TRIGGER, ENTITIES, CHANGES, OUTCOME"
    );
}

/// Text list shows exactly N data rows plus 1 header row.
#[test]
fn history_test_format_text_list_has_one_header_plus_one_row_per_entry() {
    let entries: Vec<JournalEntry> = (0..5).map(|_| make_entry()).collect();
    let output = format_text_list(&entries);
    let line_count = output.lines().count();
    assert_eq!(line_count, 6, "text list should have 1 header + 5 data rows = 6 lines total");
}

/// Text list shows seq number for each entry.
#[test]
fn history_test_format_text_list_shows_seq_number_for_each_entry() {
    let mut entry = make_entry();
    entry.seq = 142;
    let output = format_text_list(&[entry]);
    assert!(output.contains("142"), "text list should show the entry's seq number");
}

/// Empty entries list produces only the header row.
#[test]
fn history_test_format_text_list_empty_entries_produces_only_header() {
    let output = format_text_list(&[]);
    assert_eq!(
        output.lines().count(),
        1,
        "empty entries list should produce exactly 1 header row"
    );
}

// ── format_text_detail ────────────────────────────────────────────────────

/// Detail output shows "Entry #<seq>" header.
#[test]
fn history_test_format_text_detail_shows_entry_number_and_timestamp() {
    let mut entry = make_entry();
    entry.seq = 42;
    let output = format_text_detail(&entry);
    assert!(
        output.contains("Entry #42"),
        "detail output should contain 'Entry #42'"
    );
}

/// Detail output shows trigger type and source details.
#[test]
fn history_test_format_text_detail_shows_trigger_with_source() {
    let mut entry = make_entry();
    entry.trigger = Trigger::PolicyApply { source: "/etc/netfyr/policies/".to_string() };
    let output = format_text_detail(&entry);
    assert!(
        output.contains("Trigger:") && output.contains("policy-apply"),
        "detail output should show 'Trigger: policy-apply'"
    );
    assert!(
        output.contains("/etc/netfyr/policies/"),
        "detail output should show the trigger source path"
    );
}

/// Detail output shows active policies section.
#[test]
fn history_test_format_text_detail_shows_active_policies_section() {
    let mut entry = make_entry();
    entry.active_policies = vec![PolicySummary {
        name: "eth0-config".to_string(),
        factory_type: "static".to_string(),
        priority: 100,
    }];
    let output = format_text_detail(&entry);
    assert!(
        output.contains("Active policies:") && output.contains("eth0-config"),
        "detail output should show 'Active policies:' with policy names"
    );
    assert!(output.contains("static"), "detail output should show factory type");
    assert!(output.contains("100"), "detail output should show priority");
}

/// Detail output shows diff section with field changes.
#[test]
fn test_format_text_detail_shows_diff_with_field_changes() {
    let mut entry = make_entry();
    entry.diff = SerializableDiff {
        operations: vec![SerializableDiffOp {
            kind: "modify".to_string(),
            entity_type: "ethernet".to_string(),
            entity_name: "eth0".to_string(),
            field_changes: vec![SerializableFieldChange {
                field_name: "mtu".to_string(),
                change_kind: "set".to_string(),
                current: Some(j(r#"1500"#)),
                desired: Some(j(r#"9000"#)),
                outcome: None,
            }],
        }],
    };
    let output = format_text_detail(&entry);
    assert!(
        output.contains("Diff:") && output.contains("ethernet") && output.contains("eth0"),
        "detail output should show diff section with entity type and name"
    );
    assert!(output.contains("mtu"), "detail output should show the changed field name");
}

/// Detail output shows outcome section.
#[test]
fn history_test_format_text_detail_shows_outcome_section() {
    let mut entry = make_entry();
    entry.outcome = ApplyOutcome::Applied { succeeded: 1, failed: 0, skipped: 0 };
    let output = format_text_detail(&entry);
    assert!(
        output.contains("Outcome:") && output.contains("applied"),
        "detail output should contain 'Outcome:' with outcome description"
    );
}

/// Detail output shows state snapshot after the change.
#[test]
fn history_test_format_text_detail_shows_state_after_section() {
    let mut entry = make_entry();
    entry.state_after = SerializableStateSet {
        entities: vec![SerializableState {
            entity_type: "ethernet".to_string(),
            selector_name: "eth0".to_string(),
            fields: j(r#"{ "mtu": 9000 }"#),
        }],
    };
    let output = format_text_detail(&entry);
    assert!(
        output.contains("State after:"),
        "detail output should contain 'State after:' section"
    );
}

// ── format_json_list ──────────────────────────────────────────────────────



// ── format_json_detail ────────────────────────────────────────────────────


// ── entities_summary ─────────────────────────────────────────────────────

/// Empty diff operations produces "(none)".
#[test]
fn history_test_entities_summary_empty_ops_returns_none_string() {
    assert_eq!(entities_summary(&[]), "(none)", "empty ops should produce '(none)'");
}

/// Single entity produces just the entity name.
#[test]
fn history_test_entities_summary_single_entity_returns_name() {
    let ops = vec![SerializableDiffOp {
        kind: "modify".to_string(),
        entity_type: "ethernet".to_string(),
        entity_name: "eth0".to_string(),
        field_changes: vec![],
    }];
    assert_eq!(entities_summary(&ops), "eth0");
}

/// Two entities produce comma-separated names.
#[test]
fn history_test_entities_summary_two_entities_returns_comma_separated() {
    let ops = vec![
        SerializableDiffOp {
            kind: "modify".to_string(),
            entity_type: "ethernet".to_string(),
            entity_name: "eth0".to_string(),
            field_changes: vec![],
        },
        SerializableDiffOp {
            kind: "modify".to_string(),
            entity_type: "ethernet".to_string(),
            entity_name: "eth1".to_string(),
            field_changes: vec![],
        },
    ];
    assert_eq!(entities_summary(&ops), "eth0, eth1");
}

/// More than 3 entities shows "+N more" truncation.
#[test]
fn test_entities_summary_more_than_3_entities_truncated_with_plus_n_more() {
    let ops: Vec<SerializableDiffOp> = (0..5)
        .map(|i| SerializableDiffOp {
            kind: "modify".to_string(),
            entity_type: "ethernet".to_string(),
            entity_name: format!("eth{}", i),
            field_changes: vec![],
        })
        .collect();
    let result = entities_summary(&ops);
    assert!(
        result.contains("+3 more"),
        "5 entities should truncate with '+3 more', got: {}",
        result
    );
}

// ── changes_summary ───────────────────────────────────────────────────────

/// Empty ops produces "(none)".
#[test]
fn history_test_changes_summary_empty_ops_returns_none_string() {
    assert_eq!(changes_summary(&[]), "(none)");
}

/// Single add op shows "+entity".
#[test]
fn history_test_changes_summary_single_add_op_returns_plus_entity() {
    let ops = vec![SerializableDiffOp {
        kind: "add".to_string(),
        entity_type: "ethernet".to_string(),
        entity_name: "eth0".to_string(),
        field_changes: vec![],
    }];
    assert_eq!(changes_summary(&ops), "+entity");
}

/// Multiple add ops show "+N entities".
#[test]
fn history_test_changes_summary_multiple_add_ops_returns_plus_n_entities() {
    let ops: Vec<SerializableDiffOp> = (0..3)
        .map(|i| SerializableDiffOp {
            kind: "add".to_string(),
            entity_type: "ethernet".to_string(),
            entity_name: format!("eth{}", i),
            field_changes: vec![],
        })
        .collect();
    assert_eq!(changes_summary(&ops), "+3 entities");
}

/// Single remove op shows "-entity".
#[test]
fn history_test_changes_summary_single_remove_op_returns_minus_entity() {
    let ops = vec![SerializableDiffOp {
        kind: "remove".to_string(),
        entity_type: "ethernet".to_string(),
        entity_name: "eth0".to_string(),
        field_changes: vec![],
    }];
    assert_eq!(changes_summary(&ops), "-entity");
}

/// Field modification (set with current) shows "~field".
#[test]
fn history_test_changes_summary_modify_with_existing_field_shows_tilde_field() {
    let ops = vec![SerializableDiffOp {
        kind: "modify".to_string(),
        entity_type: "ethernet".to_string(),
        entity_name: "eth0".to_string(),
        field_changes: vec![SerializableFieldChange {
            field_name: "mtu".to_string(),
            change_kind: "set".to_string(),
            current: Some(j(r#"1500"#)),
            desired: Some(j(r#"9000"#)),
            outcome: None,
        }],
    }];
    let result = changes_summary(&ops);
    assert!(result.contains("~mtu"), "field modification should show '~mtu', got: {}", result);
}

/// New field added (set without current) shows "+field".
#[test]
fn history_test_changes_summary_new_field_set_shows_plus_field() {
    let ops = vec![SerializableDiffOp {
        kind: "modify".to_string(),
        entity_type: "ethernet".to_string(),
        entity_name: "eth0".to_string(),
        field_changes: vec![SerializableFieldChange {
            field_name: "addr".to_string(),
            change_kind: "set".to_string(),
            current: None,
            desired: Some(j(r#""10.0.0.1/24""#)),
            outcome: None,
        }],
    }];
    let result = changes_summary(&ops);
    assert!(result.contains("+addr"), "new field should show '+addr', got: {}", result);
}

/// Field removed (unset) shows "-field".
#[test]
fn history_test_changes_summary_unset_field_shows_minus_field() {
    let ops = vec![SerializableDiffOp {
        kind: "modify".to_string(),
        entity_type: "ethernet".to_string(),
        entity_name: "eth0".to_string(),
        field_changes: vec![SerializableFieldChange {
            field_name: "addr".to_string(),
            change_kind: "unset".to_string(),
            current: Some(j(r#""10.0.0.1/24""#)),
            desired: None,
            outcome: None,
        }],
    }];
    let result = changes_summary(&ops);
    assert!(result.contains("-addr"), "unset field should show '-addr', got: {}", result);
}

// ── outcome_summary ───────────────────────────────────────────────────────

/// Applied outcome with multiple counts shows "applied (N ok, N failed)".
#[test]
fn test_outcome_summary_applied_with_mixed_counts_includes_all_nonzero() {
    let outcome = ApplyOutcome::Applied { succeeded: 2, failed: 1, skipped: 0 };
    let result = outcome_summary(&outcome);
    assert!(result.contains("applied"), "should say 'applied'");
    assert!(result.contains("2 ok"), "should show '2 ok'");
    assert!(result.contains("1 failed"), "should show '1 failed'");
    assert!(!result.contains("skipped"), "should not show 'skipped' when skipped=0");
}

/// Applied with only successes shows "applied (N ok)" without failed/skipped.
#[test]
fn test_outcome_summary_applied_with_only_successes_omits_zero_counts() {
    let outcome = ApplyOutcome::Applied { succeeded: 3, failed: 0, skipped: 0 };
    let result = outcome_summary(&outcome);
    assert!(result.contains("3 ok"), "should show '3 ok'");
    assert!(!result.contains("failed"), "should not show 'failed' when count is 0");
    assert!(!result.contains("skipped"), "should not show 'skipped' when count is 0");
}

/// Observed outcome produces "observed".
#[test]
fn history_test_outcome_summary_observed_returns_observed() {
    assert_eq!(outcome_summary(&ApplyOutcome::Observed), "observed");
}

// ── trigger_display_name ──────────────────────────────────────────────────

/// All trigger variants produce the correct display name.
#[test]
fn history_test_trigger_display_name_all_variants_return_correct_names() {
    assert_eq!(
        trigger_display_name(&Trigger::PolicyApply { source: "x".to_string() }),
        "policy-apply"
    );
    assert_eq!(
        trigger_display_name(&Trigger::DhcpEvent {
            policy_name: "x".to_string(),
            event_kind: "y".to_string()
        }),
        "dhcp-lease"
    );
    assert_eq!(
        trigger_display_name(&Trigger::ExternalChange { changed_entities: vec![] }),
        "external"
    );
    assert_eq!(trigger_display_name(&Trigger::DaemonStartup), "daemon-startup");
    assert_eq!(trigger_display_name(&Trigger::Revert { target_seq: 1 }), "revert");
}

// ── Integration tests via run_history_local ────────────────────────────────








// ── filter_entries count without other filters ─────────────────────────────

/// filter_entries with count=20 and no other filters returns exactly 20 from 30 entries.
#[test]
fn history_test_filter_entries_default_count_20_returns_20_from_30_entries_without_filters() {
    let entries: Vec<JournalEntry> = (0..30).map(|_| make_entry()).collect();

    let args = default_args(); // count=20, no other filters
    let result = filter_entries(entries, &args).unwrap();
    assert_eq!(
        result.len(),
        20,
        "filter_entries with count=20 and no filters should return exactly 20 entries"
    );
}

// ── changes_summary: list field notation ──────────────────────────────────

/// List field with only additions shows "field(+N)" notation.
#[test]
fn history_test_changes_summary_list_field_additions_shows_plus_n_notation() {
    let ops = vec![SerializableDiffOp {
        kind: "modify".to_string(),
        entity_type: "ethernet".to_string(),
        entity_name: "eth0".to_string(),
        field_changes: vec![SerializableFieldChange {
            field_name: "addresses".to_string(),
            change_kind: "set".to_string(),
            current: Some(j(r#"[]"#)),
            desired: Some(j(r#"["10.0.0.1/24", "10.0.0.2/24"]"#)),
            outcome: None,
        }],
    }];
    let result = changes_summary(&ops);
    assert!(
        result.contains("addresses(+2)"),
        "list field with 2 added items should show 'addresses(+2)', got: {}",
        result
    );
}

/// List field with only removals shows "field(-N)" notation.
#[test]
fn history_test_changes_summary_list_field_removals_shows_minus_n_notation() {
    let ops = vec![SerializableDiffOp {
        kind: "modify".to_string(),
        entity_type: "ethernet".to_string(),
        entity_name: "eth0".to_string(),
        field_changes: vec![SerializableFieldChange {
            field_name: "addresses".to_string(),
            change_kind: "set".to_string(),
            current: Some(j(r#"["10.0.0.1/24"]"#)),
            desired: Some(j(r#"[]"#)),
            outcome: None,
        }],
    }];
    let result = changes_summary(&ops);
    assert!(
        result.contains("addresses(-1)"),
        "list field with 1 removed item should show 'addresses(-1)', got: {}",
        result
    );
}

/// List field with both additions and removals shows "field(+N,-M)" notation.
#[test]
fn history_test_changes_summary_list_field_additions_and_removals_shows_combined_notation() {
    let ops = vec![SerializableDiffOp {
        kind: "modify".to_string(),
        entity_type: "ethernet".to_string(),
        entity_name: "eth0".to_string(),
        field_changes: vec![SerializableFieldChange {
            field_name: "addresses".to_string(),
            change_kind: "set".to_string(),
            current: Some(j(r#"["192.168.1.1/24"]"#)),
            desired: Some(j(r#"["10.0.0.1/24", "10.0.0.2/24"]"#)),
            outcome: None,
        }],
    }];
    let result = changes_summary(&ops);
    assert!(
        result.contains("addresses(+2,-1)"),
        "list field with 2 added and 1 removed should show 'addresses(+2,-1)', got: {}",
        result
    );
}

/// List field with no changes (same content) produces "(no changes)".
#[test]
fn history_test_changes_summary_list_field_unchanged_content_produces_no_changes() {
    let ops = vec![SerializableDiffOp {
        kind: "modify".to_string(),
        entity_type: "ethernet".to_string(),
        entity_name: "eth0".to_string(),
        field_changes: vec![SerializableFieldChange {
            field_name: "addresses".to_string(),
            change_kind: "set".to_string(),
            current: Some(j(r#"["10.0.0.1/24"]"#)),
            desired: Some(j(r#"["10.0.0.1/24"]"#)),
            outcome: None,
        }],
    }];
    let result = changes_summary(&ops);
    assert_eq!(
        result, "(no changes)",
        "list field with identical current and desired should produce '(no changes)'"
    );
}

// ── format_text_detail: empty diff ────────────────────────────────────────

/// Detail output with empty diff shows "(no changes)" in the Diff section.
#[test]
fn history_test_format_text_detail_empty_diff_shows_no_changes() {
    let entry = make_entry(); // diff has empty operations
    let output = format_text_detail(&entry);
    assert!(
        output.contains("Diff:"),
        "detail output should always contain 'Diff:' section"
    );
    assert!(
        output.contains("(no changes)"),
        "detail output with empty diff should show '(no changes)'"
    );
}

// ── format_text_detail: no active policies ────────────────────────────────

/// Detail output with no active policies does not show "Active policies:" section.
#[test]
fn history_test_format_text_detail_no_active_policies_omits_policies_section() {
    let entry = make_entry(); // active_policies is empty
    let output = format_text_detail(&entry);
    assert!(
        !output.contains("Active policies:"),
        "detail output with no active policies should not show 'Active policies:' section"
    );
}

// ── format_text_list: row data correctness ────────────────────────────────

/// Each row in the text list shows the trigger display name.
#[test]
fn history_test_format_text_list_row_shows_trigger_display_name() {
    let mut entry = make_entry();
    entry.seq = 1;
    entry.trigger = Trigger::ExternalChange { changed_entities: vec![] };
    let output = format_text_list(&[entry]);
    let data_row = output.lines().nth(1).unwrap();
    assert!(
        data_row.contains("external"),
        "data row should show trigger display name 'external', got: {}",
        data_row
    );
}

/// Each row in the text list shows the entity name from the diff.
#[test]
fn history_test_format_text_list_row_shows_entity_name_from_diff() {
    let entry = make_entry_with_entity("eth0");
    let output = format_text_list(&[entry]);
    let data_row = output.lines().nth(1).unwrap();
    assert!(
        data_row.contains("eth0"),
        "data row should show entity name 'eth0', got: {}",
        data_row
    );
}

/// Each row in the text list shows the outcome description.
#[test]
fn test_format_text_list_row_shows_outcome_description() {
    let mut entry = make_entry();
    entry.outcome = ApplyOutcome::Applied { succeeded: 2, failed: 0, skipped: 0 };
    let output = format_text_list(&[entry]);
    let data_row = output.lines().nth(1).unwrap();
    assert!(
        data_row.contains("applied"),
        "data row should show outcome 'applied', got: {}",
        data_row
    );
}

// ── journal_dir_path ──────────────────────────────────────────────────────

/// journal_dir_path returns the NETFYR_JOURNAL_DIR env var value when set.
#[test]
fn history_test_journal_dir_path_returns_netfyr_journal_dir_env_var_when_set() {
    let path = journal_dir_path(Some("/custom/journal/path".to_string()));
    assert_eq!(
        path, "/custom/journal/path",
        "journal_dir_path should return the NETFYR_JOURNAL_DIR env var value"
    );
}

/// journal_dir_path returns default "/var/lib/netfyr/journal" when env var is not set.
#[test]
fn history_test_journal_dir_path_returns_default_when_env_var_not_set() {
    let path = journal_dir_path(None);
    assert_eq!(
        path, "/var/lib/netfyr/journal",
        "journal_dir_path should default to '/var/lib/netfyr/journal'"
    );
}

// ── changes_summary: mixed entity add/remove ──────────────────────────────

/// Mix of add and remove entity ops shows individual "+name" and "-name" tokens.
#[test]
fn history_test_changes_summary_mixed_add_and_remove_entity_ops_shows_individual_tokens() {
    let ops = vec![
        SerializableDiffOp {
            kind: "add".to_string(),
            entity_type: "ethernet".to_string(),
            entity_name: "eth2".to_string(),
            field_changes: vec![],
        },
        SerializableDiffOp {
            kind: "remove".to_string(),
            entity_type: "ethernet".to_string(),
            entity_name: "eth3".to_string(),
            field_changes: vec![],
        },
    ];
    let result = changes_summary(&ops);
    assert!(
        result.contains("+eth2"),
        "mixed add/remove should show '+eth2', got: {}",
        result
    );
    assert!(
        result.contains("-eth3"),
        "mixed add/remove should show '-eth3', got: {}",
        result
    );
}

// ── parse_since: edge cases ───────────────────────────────────────────────

/// --since 0s is valid and returns approximately now.
#[test]
fn history_test_parse_since_0s_is_valid_and_returns_approximately_now() {
    let before = Utc::now();
    let result = date(parse_since("0s").unwrap());
    let after = Utc::now();
    assert!(
        result >= before - Duration::seconds(1) && result <= after + Duration::seconds(1),
        "parse_since(\"0s\") should return approximately now"
    );
}

/// --since with empty string returns an error.
#[test]
fn history_test_parse_since_empty_string_returns_error() {
    assert!(parse_since("").is_err(), "empty string should return error");
}

// ── colours and exact lines ───────────────────────────────────────────────

#[test]
fn change_tokens_take_the_colour_of_their_sign() {
    colored::control::set_override(true);
    assert_eq!(colorize_change_token("+mtu"), "\u{1b}[32m+mtu\u{1b}[0m");
    assert_eq!(colorize_change_token("-mtu"), "\u{1b}[31m-mtu\u{1b}[0m");
    assert_eq!(colorize_change_token("~mtu"), "\u{1b}[33m~mtu\u{1b}[0m");
    assert_eq!(colorize_change_token("+2 more"), "+2 more");
    assert_eq!(colorize_change_token("mtu"), "mtu");
    assert_eq!(
        colorize_change_token("routes(+1,-2)"),
        "routes(\u{1b}[32m+1\u{1b}[0m,\u{1b}[31m-2\u{1b}[0m)"
    );
}

#[test]
fn cells_of_changes_keep_their_dots_plain() {
    colored::control::set_override(true);
    assert_eq!(
        colorize_changes("+a, -b, ~c..."),
        "\u{1b}[32m+a\u{1b}[0m, \u{1b}[31m-b\u{1b}[0m, \u{1b}[33m~c\u{1b}[0m..."
    );
    assert_eq!(colorize_changes("(none)"), "(none)");
    colored::control::set_override(false);
    assert_eq!(colorize_changes("+a, routes(+1,-2), +1 more"), "+a, routes(+1,-2), +1 more");
}

#[test]
fn table_lines_have_fixed_columns() {
    colored::control::set_override(false);
    let mut entry = make_entry_with_entity("eth0");
    entry.seq = 7;
    entry.timestamp = at("2024-03-01T10:20:30Z".parse().unwrap());
    let text = format_text_list(&[entry]);
    let lines: Vec<&str> = text.lines().collect();
    assert_eq!(
        lines[0],
        "SEQ   TIMESTAMP             TRIGGER         ENTITIES       OUTCOME          CHANGES"
    );
    assert!(lines[1].starts_with("7     2024-03-01 10:20:30   policy-apply    eth0           "));
    assert_eq!(lines.len(), 2);
}

#[test]
fn outcomes_list_their_counts() {
    let all = ApplyOutcome::Applied { succeeded: 3, failed: 1, skipped: 2 };
    assert_eq!(outcome_summary(&all), "applied (3 ok, 1 failed, 2 skipped)");
    let none = ApplyOutcome::Applied { succeeded: 0, failed: 0, skipped: 0 };
    assert_eq!(outcome_summary(&none), "applied");
}
