use base64::Engine;
use minecraft_motd::backend::auth::{authenticated_node, bearer, token_hash, AuthError};
use minecraft_motd::backend::routes::{
    enrollment_request_valid, heartbeat_version_valid, parse_server_status, snapshot_server,
    wake_decision, wake_gate_allocation, wake_gate_enabled, wake_gate_lock, wake_gate_power,
    wake_gate_server, ServerRow, WakeReason,
};
use minecraft_motd::backend::settings::{
    is_excluded, state_names, ExtensionSettingsData, ExtensionSettingsDataDeserializer,
    MotdStateSettings, SettingsError,
};
use minecraft_motd::backend::state::{resolve_state, EffectiveState, PowerState, ServerStatus};

#[test]
fn token_hash_is_stable_and_does_not_store_plaintext() {
    let hash = token_hash("secret-agent-token");
    assert_eq!(hash, token_hash("secret-agent-token"));
    assert_ne!(hash, token_hash("different-agent-token"));
    assert_eq!(hash.len(), 32);
    assert_ne!(hash, b"secret-agent-token");
}

#[test]
fn token_hash_is_sha256() {
    assert_eq!(
        token_hash("abc")[..4],
        [0xba, 0x78, 0x16, 0xbf]
    );
}

#[test]
fn bearer_requires_the_expected_scheme_and_value() {
    assert!(bearer(None).is_err());
    assert!(bearer(Some("Basic abc")).is_err());
    assert_eq!(bearer(Some("Bearer agent-token")).unwrap(), "agent-token");
    assert_eq!(bearer(Some("Bearer ")), Err(AuthError::MissingBearerToken));
    assert_eq!(bearer(Some("bearer x")), Err(AuthError::MissingBearerToken));
    assert_eq!(authenticated_node(Some(3)), Ok(3));
    assert_eq!(authenticated_node(None), Err(AuthError::InvalidOrRevokedToken));
}

#[test]
fn defaults_cover_every_intercepted_state() {
    let settings = ExtensionSettingsData::default();
    settings.validate().unwrap();
    assert!(!settings.all_allocations);
    let names = state_names();
    assert_eq!(settings.states.len(), names.len());
    assert!(names.iter().all(|state| settings.states.iter().any(|(key, _)| key == state)));
}

#[test]
fn rejects_non_64_pixel_favicon() {
    let mut settings = ExtensionSettingsData::default();
    let mut png_header = Vec::from(b"\x89PNG\r\n\x1a\n\0\0\0\rIHDR".as_slice());
    png_header.extend_from_slice(&32_u32.to_be_bytes());
    png_header.extend_from_slice(&64_u32.to_be_bytes());
    settings.favicon_base64 = Some(
        base64::engine::general_purpose::STANDARD
            .encode(png_header)
            .into(),
    );
    assert!(settings.validate().is_err());
}

fn png(width: u32, height: u32) -> String {
    let mut bytes = Vec::from(b"\x89PNG\r\n\x1a\n\0\0\0\rIHDR".as_slice());
    bytes.extend_from_slice(&width.to_be_bytes());
    bytes.extend_from_slice(&height.to_be_bytes());
    base64::engine::general_purpose::STANDARD.encode(bytes)
}

#[test]
fn settings_errors_each_have_an_input() {
    let mut s = ExtensionSettingsData::default();
    s.favicon_base64 = Some(png(64, 64));
    assert_eq!(s.validate(), Ok(()));
    s.favicon_base64 = Some(png(64, 63));
    assert_eq!(s.validate(), Err(SettingsError::FaviconWrongSize));
    s.favicon_base64 = Some("not base64!".into());
    assert_eq!(s.validate(), Err(SettingsError::FaviconNotBase64));
    s.favicon_base64 = Some(base64::engine::general_purpose::STANDARD.encode([0u8; 24]));
    assert_eq!(s.validate(), Err(SettingsError::FaviconNotPng));
    s.favicon_base64 = Some("A".repeat(350_001));
    assert_eq!(s.validate(), Err(SettingsError::FaviconTooLarge));

    let mut s = ExtensionSettingsData::default();
    s.rotation_interval_seconds = 0;
    assert_eq!(s.validate(), Err(SettingsError::RotationIntervalOutOfRange));
    s.rotation_interval_seconds = 3601;
    assert_eq!(s.validate(), Err(SettingsError::RotationIntervalOutOfRange));

    let mut s = ExtensionSettingsData::default();
    s.states.remove(3);
    assert_eq!(s.validate(), Err(SettingsError::MissingState(EffectiveState::Suspended)));
    let mut s = ExtensionSettingsData::default();
    s.states[1].1.descriptions.clear();
    assert_eq!(s.validate(), Err(SettingsError::NoDescriptions(EffectiveState::Starting)));
    let mut s = ExtensionSettingsData::default();
    s.states[10].1.online_players = -1;
    assert_eq!(s.validate(), Err(SettingsError::NegativePlayerCounts));
    let mut s = ExtensionSettingsData::default();
    s.gradient_colors.push("#12345g".into());
    assert_eq!(s.validate(), Err(SettingsError::InvalidGradientColor));
}

#[test]
fn default_presets_have_their_text() {
    let s = ExtensionSettingsData::default();
    assert_eq!(s.states[0].0, "offline");
    assert_eq!(s.states[0].1.descriptions[0], "§c§lOffline\n§7This server is currently offline.");
    assert_eq!(s.states[4].0, "node_maintenance");
    assert_eq!(s.states[4].1.version, "Maintenance");
    assert_eq!(s.gradient_colors, vec!["#22d3ee".to_string(), "#f59e0b".to_string()]);
    let preset = MotdStateSettings::new("V", "§a", "m");
    assert_eq!(preset.kick_message, "§a§lV\n§7m");
    assert_eq!(ExtensionSettingsDataDeserializer.settings_or_default(None).states.len(), 11);
}

#[test]
fn administrative_states_win_over_power_state() {
    assert_eq!(
        resolve_state(true, false, false, None, true, Some(PowerState::Running)),
        EffectiveState::Suspended
    );
    assert_eq!(
        resolve_state(false, true, false, None, true, Some(PowerState::Running)),
        EffectiveState::NodeMaintenance
    );
}

#[test]
fn fixed_priority_is_applied_before_wings_power_state() {
    assert_eq!(
        resolve_state(false, false, true, Some(ServerStatus::InstallFailed), false, Some(PowerState::Running)),
        EffectiveState::Transferring
    );
    assert_eq!(
        resolve_state(false, false, false, Some(ServerStatus::RestoringBackup), false, Some(PowerState::Running)),
        EffectiveState::RestoringBackup
    );
    assert_eq!(
        resolve_state(false, false, false, None, false, Some(PowerState::Running)),
        EffectiveState::NodeUnreachable
    );
    assert_eq!(
        resolve_state(false, false, false, None, true, Some(PowerState::Stopping)),
        EffectiveState::Stopping
    );
}

#[test]
fn power_states_and_status_text() {
    assert_eq!(resolve_state(false, false, false, None, true, None), EffectiveState::Offline);
    assert_eq!(resolve_state(false, false, false, None, true, Some(PowerState::Running)), EffectiveState::Running);
    assert_eq!(resolve_state(false, false, false, None, true, Some(PowerState::Starting)), EffectiveState::Starting);
    assert_eq!(parse_server_status(Some("INSTALL_FAILED")), Some(ServerStatus::InstallFailed));
    assert_eq!(parse_server_status(Some("installing")), Some(ServerStatus::Installing));
    assert_eq!(parse_server_status(Some("Backup_Restore_Failed")), Some(ServerStatus::BackupRestoreFailed));
    assert_eq!(parse_server_status(Some("running")), None);
    assert_eq!(parse_server_status(None), None);
}

#[test]
fn exclusions_and_request_limits() {
    let mut s = ExtensionSettingsData::default();
    s.excluded_server_uuids.push(7);
    s.excluded_egg_uuids.push(9);
    assert!(is_excluded(&s, 7, 1));
    assert!(is_excluded(&s, 1, 9));
    assert!(!is_excluded(&s, 1, 1));
    s.enabled = false;
    assert!(is_excluded(&s, 1, 1));
    assert!(enrollment_request_valid(&"t".repeat(256), &"v".repeat(64)));
    assert!(!enrollment_request_valid(&"t".repeat(257), "v"));
    assert!(!enrollment_request_valid("t", &"v".repeat(65)));
    assert!(heartbeat_version_valid("0.1.0"));
    assert!(!heartbeat_version_valid(&"é".repeat(33)));
}

fn row(port: i32, primary: bool) -> ServerRow {
    ServerRow {
        server_uuid: 1,
        server_name: "Lobby".into(),
        egg_uuid: 2,
        status: Some("installing".into()),
        suspended: false,
        transferring: false,
        node_name: "node".into(),
        maintenance_enabled: false,
        allocation_ip: "192.0.2.1".into(),
        allocation_port: port,
        is_primary: primary,
        autostart_on_join: true,
    }
}

#[test]
fn snapshot_rows_are_filtered() {
    let mut s = ExtensionSettingsData::default();
    let entry = snapshot_server(&s, row(25565, true), true, None).unwrap();
    assert_eq!(entry.state, EffectiveState::Installing);
    assert_eq!(entry.allocation_port, 25565);
    assert!(snapshot_server(&s, row(25565, false), true, None).is_none());
    assert!(snapshot_server(&s, row(0, true), true, None).is_none());
    assert!(snapshot_server(&s, row(65536, true), true, None).is_none());
    s.all_allocations = true;
    assert!(snapshot_server(&s, row(25566, false), true, None).is_some());
    s.excluded_egg_uuids.push(2);
    assert!(snapshot_server(&s, row(25565, true), true, None).is_none());
}

#[test]
fn wake_gates() {
    let mut s = ExtensionSettingsData::default();
    assert_eq!(wake_gate_enabled(&s), None);
    assert_eq!(wake_gate_allocation(&s, None, 1), Some(WakeReason::AllocationNotAuthorized));
    assert_eq!(wake_gate_allocation(&s, Some(2), 1), None);
    s.excluded_server_uuids.push(1);
    assert_eq!(wake_gate_allocation(&s, Some(2), 1), Some(WakeReason::Excluded));
    s.enabled = false;
    assert_eq!(wake_gate_enabled(&s), Some(WakeReason::ExtensionDisabled));
    assert_eq!(wake_gate_server(1, 2, false, false), Some(WakeReason::WrongNode));
    assert_eq!(wake_gate_server(1, 1, true, false), Some(WakeReason::ServerUnavailable));
    assert_eq!(wake_gate_server(1, 1, false, false), None);
    assert_eq!(wake_gate_power(Some(PowerState::Starting)), Some(WakeReason::NotOffline));
    assert_eq!(wake_gate_power(Some(PowerState::Offline)), None);
    assert_eq!(wake_gate_power(None), None);
    assert_eq!(wake_gate_lock(false), Some(WakeReason::DisabledOrThrottled));
    assert_eq!(wake_gate_lock(true), None);
    assert_eq!(WakeReason::NotOffline.reason(), "not_offline");
    assert!(WakeReason::Started.started());
}

#[test]
fn wake_decision_takes_the_first_refusing_gate() {
    let s = ExtensionSettingsData::default();
    let ok = |locked: bool| wake_decision(&s, Some(7), 1, 9, 9, false, false, None, locked);
    assert_eq!(ok(true), WakeReason::Started);
    assert_eq!(ok(false), WakeReason::DisabledOrThrottled);
    assert_eq!(
        wake_decision(&s, Some(7), 1, 9, 9, false, false, Some(PowerState::Running), false),
        WakeReason::NotOffline
    );
    assert_eq!(
        wake_decision(&s, Some(7), 1, 8, 9, true, false, Some(PowerState::Running), false),
        WakeReason::WrongNode
    );
    assert_eq!(wake_decision(&s, Some(7), 1, 9, 9, true, false, None, true), WakeReason::ServerUnavailable);
    assert_eq!(wake_decision(&s, None, 1, 8, 9, true, true, None, false), WakeReason::AllocationNotAuthorized);
    let mut excluded = ExtensionSettingsData::default();
    excluded.excluded_egg_uuids.push(7);
    assert_eq!(wake_decision(&excluded, Some(7), 1, 8, 9, true, true, None, false), WakeReason::Excluded);
    let mut disabled = ExtensionSettingsData::default();
    disabled.enabled = false;
    assert_eq!(wake_decision(&disabled, None, 1, 8, 9, true, true, None, false), WakeReason::ExtensionDisabled);
}

#[test]
fn default_state_keys_are_unique() {
    let s = ExtensionSettingsData::default();
    for (i, (a, _)) in s.states.iter().enumerate() {
        for (b, _) in &s.states[i + 1..] {
            assert_ne!(a, b);
        }
    }
}
