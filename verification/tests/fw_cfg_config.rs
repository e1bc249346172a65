use lamboot_core::fw_cfg_config::FwCfgConfig;

const SAMPLE: &str = r#"{
  "schema_version": "v1",
  "vmid": "364",
  "hostname": "pve2",
  "fleet_id": "lamco-pve2",
  "role": "lamboot-archinstall-target",
  "written_by": "lamboot-hookscript 0.8.4",
  "written_at": "2026-05-29T01:12:12Z",
  "tags_at_setup": []
}"#;

#[test]
fn parses_full_v1_blob() {
    let cfg = FwCfgConfig::parse(SAMPLE);
    assert_eq!(cfg.fleet_id.as_deref(), Some("lamco-pve2"));
    assert_eq!(cfg.vmid.as_deref(), Some("364"));
    assert_eq!(cfg.role.as_deref(), Some("lamboot-archinstall-target"));
    assert_eq!(cfg.host_node.as_deref(), Some("pve2"));
}

#[test]
fn missing_keys_yield_none() {
    let input = r#"{"schema_version":"v1"}"#;
    let cfg = FwCfgConfig::parse(input);
    assert!(cfg.fleet_id.is_none());
    assert!(cfg.vmid.is_none());
    assert!(cfg.role.is_none());
    assert!(cfg.host_node.is_none());
}

#[test]
fn empty_string_value_yields_none() {
    let input = r#"{"fleet_id":"","vmid":"x"}"#;
    let cfg = FwCfgConfig::parse(input);
    assert!(cfg.fleet_id.is_none());
    assert_eq!(cfg.vmid.as_deref(), Some("x"));
}

#[test]
fn array_value_yields_none() {
    let input = r#"{"tags_at_setup": [], "vmid": "5"}"#;
    let cfg = FwCfgConfig::parse(input);
    assert_eq!(cfg.vmid.as_deref(), Some("5"));
}

#[test]
fn escaped_quote_handled() {
    let input = r#"{"role": "has \"quote\" in it"}"#;
    let cfg = FwCfgConfig::parse(input);
    assert_eq!(cfg.role.as_deref(), Some(r#"has "quote" in it"#));
}

#[test]
fn malformed_blob_silently_returns_empty() {
    let cfg = FwCfgConfig::parse("not json");
    assert!(cfg.fleet_id.is_none());
}

#[test]
fn substring_collision_avoided() {
    let input = r#"{"old_vmid": "999", "vmid": "364"}"#;
    let cfg = FwCfgConfig::parse(input);
    assert_eq!(cfg.vmid.as_deref(), Some("364"));
}

#[test]
fn escapes_are_resolved() {
    let input = r#"{"role": "a\\b\/c\td\qe"}"#;
    let cfg = FwCfgConfig::parse(input);
    assert_eq!(cfg.role.as_deref(), Some("a\\b/c\tdqe"));
}

#[test]
fn unterminated_value_yields_none() {
    let cfg = FwCfgConfig::parse(r#"{"vmid": "364"#);
    assert!(cfg.vmid.is_none());
    let cfg = FwCfgConfig::parse(r#"{"vmid" "364"}"#);
    assert!(cfg.vmid.is_none());
    let cfg = FwCfgConfig::parse(r#"{"vmid": 364}"#);
    assert!(cfg.vmid.is_none());
}
