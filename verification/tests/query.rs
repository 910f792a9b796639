//! Tests of the `query` subcommand.
use indexmap::IndexMap;
use netfyr_cli::json::Json;
use netfyr_cli::query::{
    build_varlink_selector, daemon_socket_path, extract_type_and_selector, format_output,
    parse_selector, state_to_flat_map, varlink_state_to_flat_map, OutputFormat, Selector,
    SelectorArg, State, VarlinkState,
};

fn text(s: &str) -> Json {
    Json::Str(s.to_string())
}

fn number(n: u64) -> Json {
    Json::PosInt(n)
}

fn fields(list: Vec<(&str, Json)>) -> Vec<(String, Json)> {
    list.into_iter().map(|(k, v)| (k.to_string(), v)).collect()
}

fn make_state(entity_type: &str, _name: &str, list: Vec<(&str, Json)>) -> State {
    State { entity_type: entity_type.to_string(), fields: fields(list) }
}

fn make_varlink_state(entity_type: &str, list: Vec<(&str, Json)>) -> VarlinkState {
    VarlinkState { entity_type: entity_type.to_string(), name: None, fields: fields(list) }
}

/// A selector argument, with what reading its value as a MAC address gives.
fn arg(key: &str, value: &str) -> SelectorArg {
    let octets: Vec<&str> = value.split(':').collect();
    let fine = octets.len() == 6
        && octets.iter().all(|o| o.len() == 2 && u8::from_str_radix(o, 16).is_ok());
    let mac = if fine {
        Ok(value.to_lowercase())
    } else {
        Err("invalid MAC address".to_string())
    };
    SelectorArg { key: key.to_string(), value: value.to_string(), mac }
}

fn any() -> Selector {
    Selector { name: None, driver: None, mac: None, pci_path: None }
}

fn named(name: &str) -> Selector {
    Selector { name: Some(name.to_string()), ..any() }
}

// ── parse_selector tests ──────────────────────────────────────────────────

/// Invalid selector key shows error listing valid selector keys (type, name, driver, mac, pci_path).
#[test]
fn test_parse_selector_invalid_key_returns_error_listing_valid_keys() {
    let result = parse_selector("invalid_key=value");
    assert!(result.is_err(), "invalid key must return an error");
    let err = result.unwrap_err();
    assert!(
        err.contains("type")
            && err.contains("name")
            && err.contains("driver")
            && err.contains("mac")
            && err.contains("pci_path"),
        "error must list all valid keys: type, name, driver, mac, pci_path; got: {err}"
    );
}

/// Selector without a '=' sign is rejected with an error.
#[test]
fn test_parse_selector_missing_equals_returns_error() {
    let result = parse_selector("nameeth0");
    assert!(result.is_err(), "missing '=' must return an error");
}

/// Valid key 'name' is accepted and parsed as (name, value).
#[test]
fn test_parse_selector_name_key_returns_tuple() {
    let result = parse_selector("name=eth0");
    assert!(result.is_ok(), "name=eth0 must be accepted; err={:?}", result.err());
    assert_eq!(result.unwrap(), ("name".to_string(), "eth0".to_string()));
}

/// Valid key 'type' is accepted.
#[test]
fn test_parse_selector_type_key_returns_tuple() {
    let result = parse_selector("type=ethernet");
    assert!(result.is_ok(), "type=ethernet must be accepted");
    assert_eq!(result.unwrap(), ("type".to_string(), "ethernet".to_string()));
}

/// Valid key 'driver' is accepted.
#[test]
fn test_parse_selector_driver_key_returns_tuple() {
    let result = parse_selector("driver=ixgbe");
    assert!(result.is_ok(), "driver=ixgbe must be accepted");
    assert_eq!(result.unwrap(), ("driver".to_string(), "ixgbe".to_string()));
}

/// Valid key 'mac' is accepted (value validation is deferred).
#[test]
fn test_parse_selector_mac_key_returns_tuple() {
    let result = parse_selector("mac=aa:bb:cc:dd:ee:ff");
    assert!(result.is_ok(), "mac=aa:bb:cc:dd:ee:ff must be accepted at parse time");
    assert_eq!(result.unwrap(), ("mac".to_string(), "aa:bb:cc:dd:ee:ff".to_string()));
}

/// Valid key 'pci_path' is accepted.
#[test]
fn test_parse_selector_pci_path_key_returns_tuple() {
    let result = parse_selector("pci_path=0000:03:00.0");
    assert!(result.is_ok(), "pci_path=0000:03:00.0 must be accepted");
    assert_eq!(result.unwrap(), ("pci_path".to_string(), "0000:03:00.0".to_string()));
}

/// An empty value after '=' is valid (key= is allowed).
#[test]
fn test_parse_selector_empty_value_is_valid() {
    let result = parse_selector("name=");
    assert!(result.is_ok(), "empty value must be accepted; err={:?}", result.err());
    assert_eq!(result.unwrap(), ("name".to_string(), "".to_string()));
}

// ── extract_type_and_selector tests ──────────────────────────────────────

/// Empty selector list returns (None, None).
#[test]
fn test_extract_type_and_selector_empty_list_returns_none_none() {
    let (entity_type, selector) = extract_type_and_selector(&[]).unwrap();
    assert!(entity_type.is_none(), "entity_type must be None for empty input");
    assert!(selector.is_none(), "selector must be None for empty input");
}

/// type=ethernet only → (Some("ethernet"), None).
#[test]
fn test_extract_type_and_selector_type_only_returns_entity_type_none_selector() {
    let selectors = vec![arg("type", "ethernet")];
    let (entity_type, selector) = extract_type_and_selector(&selectors).unwrap();
    assert_eq!(entity_type, Some("ethernet".to_string()));
    assert!(selector.is_none(), "selector must be None when only type= is present");
}

/// name=eth0 only → (None, Some(Selector { name: "eth0" })).
#[test]
fn test_extract_type_and_selector_name_only_builds_named_selector() {
    let selectors = vec![arg("name", "eth0")];
    let (entity_type, selector) = extract_type_and_selector(&selectors).unwrap();
    assert!(entity_type.is_none());
    let sel = selector.expect("selector must be Some when name= is given");
    assert_eq!(sel.name, Some("eth0".to_string()));
}

/// type=ethernet + name=eth0 splits correctly: type extracted, name goes to Selector.
#[test]
fn test_extract_type_and_selector_type_and_name_splits_correctly() {
    let selectors = vec![
        arg("type", "ethernet"),
        arg("name", "eth0"),
    ];
    let (entity_type, selector) = extract_type_and_selector(&selectors).unwrap();
    assert_eq!(entity_type, Some("ethernet".to_string()));
    let sel = selector.expect("selector must be Some for name= field");
    assert_eq!(sel.name, Some("eth0".to_string()));
}

/// driver=ixgbe builds a Selector with driver field set.
#[test]
fn test_extract_type_and_selector_driver_builds_selector_with_driver() {
    let selectors = vec![arg("driver", "ixgbe")];
    let (_, selector) = extract_type_and_selector(&selectors).unwrap();
    let sel = selector.expect("selector must be Some for driver= field");
    assert_eq!(sel.driver, Some("ixgbe".to_string()));
}

/// mac=aa:bb:cc:dd:ee:ff parses into Selector.mac correctly.
#[test]
fn test_extract_type_and_selector_mac_parses_correctly() {
    let selectors = vec![arg("mac", "aa:bb:cc:dd:ee:ff")];
    let (_, selector) = extract_type_and_selector(&selectors).unwrap();
    let sel = selector.expect("selector must be Some for mac= field");
    let mac = sel.mac.expect("mac must be set on Selector");
    assert_eq!(mac, "aa:bb:cc:dd:ee:ff");
}

/// Invalid MAC address returns an error.
#[test]
fn test_extract_type_and_selector_invalid_mac_returns_error() {
    let selectors = vec![arg("mac", "not-a-mac")];
    let result = extract_type_and_selector(&selectors);
    assert!(result.is_err(), "invalid MAC address must return an error");
}

/// pci_path=0000:03:00.0 builds a Selector with pci_path set.
#[test]
fn test_extract_type_and_selector_pci_path_builds_selector() {
    let selectors = vec![arg("pci_path", "0000:03:00.0")];
    let (_, selector) = extract_type_and_selector(&selectors).unwrap();
    let sel = selector.expect("selector must be Some for pci_path= field");
    assert_eq!(sel.pci_path, Some("0000:03:00.0".to_string()));
}

/// Multiple non-type selectors (AND logic) — name + driver both set on Selector.
#[test]
fn test_extract_type_and_selector_multiple_non_type_fields_builds_combined_selector() {
    let selectors = vec![
        arg("name", "eth0"),
        arg("driver", "ixgbe"),
    ];
    let (entity_type, selector) = extract_type_and_selector(&selectors).unwrap();
    assert!(entity_type.is_none());
    let sel = selector.expect("selector must be Some");
    assert_eq!(sel.name, Some("eth0".to_string()));
    assert_eq!(sel.driver, Some("ixgbe".to_string()));
}

// ── build_varlink_selector tests ──────────────────────────────────────────

/// Both None → None, meaning "query all" (no filter sent to daemon).
#[test]
fn test_build_varlink_selector_both_none_returns_none() {
    let result = build_varlink_selector(None, None);
    assert!(result.is_none(), "both None must return None to signal 'query all'");
}

/// entity_type only → Some VarlinkSelector with entity_type set.
#[test]
fn test_build_varlink_selector_entity_type_only_sets_entity_type() {
    let result = build_varlink_selector(Some("ethernet"), None);
    let vs = result.expect("must return Some when entity_type is given");
    assert_eq!(vs.entity_type, Some("ethernet".to_string()));
    assert!(vs.name.is_none());
    assert!(vs.driver.is_none());
}

/// Selector with name only → Some VarlinkSelector with name set.
#[test]
fn test_build_varlink_selector_name_selector_only_sets_name() {
    let sel = named("eth0");
    let result = build_varlink_selector(None, Some(&sel));
    let vs = result.expect("must return Some when selector is given");
    assert_eq!(vs.name, Some("eth0".to_string()));
    assert!(vs.entity_type.is_none());
}

/// Both entity_type and selector → merged into a single VarlinkSelector.
#[test]
fn test_build_varlink_selector_entity_type_and_selector_merged() {
    let sel = named("eth0");
    let result = build_varlink_selector(Some("ethernet"), Some(&sel));
    let vs = result.expect("must return Some");
    assert_eq!(vs.entity_type, Some("ethernet".to_string()));
    assert_eq!(vs.name, Some("eth0".to_string()));
}

/// Selector with driver → VarlinkSelector.driver is set.
#[test]
fn test_build_varlink_selector_driver_selector_sets_driver() {
    let sel = Selector { driver: Some("ixgbe".to_string()), ..any() };
    let result = build_varlink_selector(None, Some(&sel));
    let vs = result.expect("must return Some");
    assert_eq!(vs.driver, Some("ixgbe".to_string()));
}

// ── state_to_flat_map tests ───────────────────────────────────────────────

/// Output shows type first, then config fields at the top level.
#[test]
fn test_state_to_flat_map_type_is_the_first_key() {
    let state = make_state("ethernet", "eth0", vec![("mtu", number(1500))]);
    let map = state_to_flat_map(&state);
    let first_key = map.keys().next().expect("map must not be empty");
    assert_eq!(first_key, "type", "\"type\" must be the first key in the flat map");
}

/// type value matches entity_type on the State.
#[test]
fn test_state_to_flat_map_type_value_matches_entity_type() {
    let state = make_state("ethernet", "eth0", vec![("mtu", number(1500))]);
    let map = state_to_flat_map(&state);
    assert_eq!(map["type"], serde_json::Value::from("ethernet"));
}

/// Config fields appear at the top level — mtu, carrier, name all included.
#[test]
fn test_state_to_flat_map_includes_all_field_values_at_top_level() {
    let state = make_state(
        "ethernet",
        "eth0",
        vec![
            ("mtu", number(1500)),
            ("carrier", Json::Bool(true)),
            ("name", text("eth0")),
        ],
    );
    let map = state_to_flat_map(&state);
    assert_eq!(map.get("mtu"), Some(&serde_json::Value::from(1500u64)));
    assert_eq!(map.get("carrier"), Some(&serde_json::Value::from(true)));
    assert_eq!(map.get("name"), Some(&serde_json::Value::from("eth0")));
}

/// Provenance (internal detail) is not included in the flat map output.
#[test]
fn test_state_to_flat_map_does_not_include_provenance() {
    let state = make_state("ethernet", "eth0", vec![("mtu", number(1500))]);
    let map = state_to_flat_map(&state);
    assert!(
        !map.contains_key("provenance"),
        "provenance must not appear in the flat map; keys: {:?}",
        map.keys().collect::<Vec<_>>()
    );
}

/// State with no fields yields a flat map containing only "type".
#[test]
fn test_state_to_flat_map_no_fields_yields_only_type() {
    let state = make_state("ethernet", "eth0", vec![]);
    let map = state_to_flat_map(&state);
    assert_eq!(map.len(), 1, "flat map with no fields must have exactly 1 key ('type')");
    assert!(map.contains_key("type"));
}

// ── varlink_state_to_flat_map tests ──────────────────────────────────────

/// Daemon mode: "type" is first key in flat map from VarlinkState.
#[test]
fn test_varlink_state_to_flat_map_type_is_first_key() {
    let vs = make_varlink_state("ethernet", vec![("mtu", number(1500))]);
    let map = varlink_state_to_flat_map(&vs);
    let first_key = map.keys().next().expect("map must not be empty");
    assert_eq!(first_key, "type", "\"type\" must be the first key in the flat map");
}

/// Daemon mode: "type" value matches entity_type from VarlinkState.
#[test]
fn test_varlink_state_to_flat_map_type_value_matches_entity_type() {
    let vs = make_varlink_state("ethernet", vec![("mtu", number(1500))]);
    let map = varlink_state_to_flat_map(&vs);
    assert_eq!(map["type"], serde_json::Value::from("ethernet"));
}

/// Daemon mode: All fields from VarlinkState appear at top level of flat map.
#[test]
fn test_varlink_state_to_flat_map_includes_all_fields_at_top_level() {
    let vs = make_varlink_state(
        "ethernet",
        vec![
            ("mtu", number(1500)),
            ("carrier", Json::Bool(true)),
            ("name", text("eth0")),
        ],
    );
    let map = varlink_state_to_flat_map(&vs);
    assert_eq!(map.get("mtu"), Some(&serde_json::Value::from(1500u64)));
    assert_eq!(map.get("carrier"), Some(&serde_json::Value::from(true)));
    assert_eq!(map.get("name"), Some(&serde_json::Value::from("eth0")));
}

/// Daemon mode: VarlinkState with no fields yields a flat map with only "type".
#[test]
fn test_varlink_state_to_flat_map_empty_fields_yields_only_type() {
    let vs = make_varlink_state("ethernet", vec![]);
    let map = varlink_state_to_flat_map(&vs);
    assert_eq!(
        map.len(),
        1,
        "flat map with no fields must have exactly 1 key (\"type\")"
    );
    assert!(map.contains_key("type"));
}

// ── daemon_socket_path tests ─────────────────────────────────────────────────

/// The socket path defaults to /run/netfyr/netfyr.sock when the variable is absent.
#[test]
fn test_daemon_socket_path_returns_default_when_env_not_set() {
    assert_eq!(daemon_socket_path(None), "/run/netfyr/netfyr.sock");
}

/// The socket path is that of the variable when it is set.
#[test]
fn test_daemon_socket_path_uses_env_var_when_set() {
    let path = daemon_socket_path(Some("/tmp/custom-test.sock".to_string()));
    assert_eq!(path, "/tmp/custom-test.sock");
}

// ── build_varlink_selector: additional field coverage ────────────────────

/// Selector.mac (MacAddr) is serialized to a string in VarlinkSelector.mac.
#[test]
fn test_build_varlink_selector_mac_in_selector_serialized_to_string() {
    let sel = Selector { mac: Some("aa:bb:cc:dd:ee:ff".to_string()), ..any() };
    let result = build_varlink_selector(None, Some(&sel));
    let vs = result.expect("must return Some when selector has mac");
    assert_eq!(vs.mac, Some("aa:bb:cc:dd:ee:ff".to_string()));
}

/// pci_path field in Selector is forwarded to VarlinkSelector.pci_path.
#[test]
fn test_build_varlink_selector_pci_path_is_forwarded() {
    let sel = Selector { pci_path: Some("0000:03:00.0".to_string()), ..any() };
    let result = build_varlink_selector(None, Some(&sel));
    let vs = result.expect("must return Some when selector has pci_path");
    assert_eq!(vs.pci_path, Some("0000:03:00.0".to_string()));
}

    // ── Serialization / output format tests ──────────────────────────────────

    /// YAML output format produces valid parseable YAML (sequence).
    #[test]
    fn test_yaml_serialization_of_flat_maps_produces_valid_yaml_sequence() {
        let mut map = IndexMap::new();
        map.insert("type".to_string(), serde_json::Value::from("ethernet"));
        map.insert("mtu".to_string(), serde_json::Value::from(1500u64));

        let yaml = format_output(&vec![map], OutputFormat::Yaml).expect("must serialize to YAML");
        let parsed: serde_yaml::Value =
            serde_yaml::from_str(&yaml).expect("must parse as valid YAML");
        assert!(parsed.is_sequence(), "YAML output must be a sequence");
    }

    /// JSON output format produces valid parseable JSON array.
    #[test]
    fn test_json_serialization_of_flat_maps_produces_valid_json_array() {
        let mut map = IndexMap::new();
        map.insert("type".to_string(), serde_json::Value::from("ethernet"));
        map.insert("mtu".to_string(), serde_json::Value::from(1500u64));

        let json =
            format_output(&vec![map], OutputFormat::Json).expect("must serialize to JSON");
        let parsed: serde_json::Value =
            serde_json::from_str(&json).expect("must parse as valid JSON");
        assert!(parsed.is_array(), "JSON output must be an array");
    }

    /// No matching entities → empty list (YAML empty sequence).
    #[test]
    fn test_empty_flat_maps_serializes_to_empty_yaml_sequence() {
        let maps: Vec<IndexMap<String, serde_json::Value>> = vec![];
        let yaml = format_output(&maps, OutputFormat::Yaml).expect("must serialize");
        let parsed: serde_yaml::Value =
            serde_yaml::from_str(&yaml).expect("must be valid YAML");
        assert!(parsed.is_sequence(), "empty list must produce a YAML sequence");
        assert!(
            parsed.as_sequence().unwrap().is_empty(),
            "empty input must produce an empty YAML sequence"
        );
    }

    /// No matching entities → empty JSON array.
    #[test]
    fn test_empty_flat_maps_serializes_to_empty_json_array() {
        let maps: Vec<IndexMap<String, serde_json::Value>> = vec![];
        let json = format_output(&maps, OutputFormat::Json).expect("must serialize");
        let parsed: serde_json::Value =
            serde_json::from_str(&json).expect("must be valid JSON");
        assert!(parsed.is_array(), "empty input must produce a JSON array");
        assert!(
            parsed.as_array().unwrap().is_empty(),
            "empty input must produce an empty JSON array"
        );
    }

    /// JSON output is a pretty-printed array (suitable for piping to jq).
    #[test]
    fn test_json_output_is_pretty_printed_array_for_jq_compatibility() {
        let mut map = IndexMap::new();
        map.insert("type".to_string(), serde_json::Value::from("ethernet"));
        map.insert("mtu".to_string(), serde_json::Value::from(1500u64));

        let json = format_output(&vec![map], OutputFormat::Json).expect("must serialize");
        // jq requires the input to be a valid JSON value.
        let parsed: serde_json::Value =
            serde_json::from_str(&json).expect("must be parseable by jq");
        let arr = parsed.as_array().expect("top-level must be an array");
        assert_eq!(
            arr[0]["mtu"].as_u64(),
            Some(1500),
            "jq '.[].mtu' must produce 1500"
        );
    }
