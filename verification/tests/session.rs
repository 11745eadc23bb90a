use minecraft_motd::agent::firewall::Allocation;
use minecraft_motd::agent::model::{
    GlobalSettings, IpAddress, ServerState, Snapshot, SnapshotServer, WakeResponse,
};
use minecraft_motd::agent::protocol::Handshake;
use minecraft_motd::agent::session::{
    allocation_matches, check_snapshot_node, connect_ip, desired_allocations, endpoint,
    heartbeat_due, is_stale, mark_unready_as_starting, mark_unready_as_unreachable,
    plan_connection, poll_outcome, stale_refresh_due, stale_state, state_after_wake, wake_request,
    ConnectionAction, PollOutcome, SessionError,
};

fn ipv4(text: &str) -> IpAddress {
    let mut value: u32 = 0;
    for part in text.split('.') {
        value = value * 256 + part.parse::<u32>().unwrap();
    }
    IpAddress::V4(value)
}

fn test_settings() -> GlobalSettings {
    GlobalSettings {
        enabled: true,
        _all_allocations: false,
        rotation_interval_seconds: 10,
        swap_lines: false,
        gradient_enabled: false,
        gradient_colors: vec![],
        favicon_base64: None,
        _excluded_egg_uuids: vec![],
        _excluded_server_uuids: vec![],
        states: vec![],
    }
}

fn server(ip: &str, port: u16, state: ServerState, autostart: bool) -> SnapshotServer {
    SnapshotServer {
        server_uuid: 0,
        server_name: "test".into(),
        node_name: "node".into(),
        allocation_ip: ipv4(ip),
        allocation_port: port,
        state,
        autostart_on_join: autostart,
    }
}

fn snapshot(servers: Vec<SnapshotServer>) -> Snapshot {
    Snapshot {
        revision: 1,
        generated_at: 0,
        node_uuid: 0,
        node_reachable: true,
        settings: test_settings(),
        servers,
    }
}

#[test]
fn stale_state_keeps_administrative_reason() {
    let server = server("127.0.0.1", 25565, ServerState::Suspended, true);
    assert_eq!(stale_state(&server, true), ServerState::Suspended);
}

#[test]
fn desired_allocations_keep_ip_and_port_distinct() {
    let first = server("192.0.2.10", 25565, ServerState::Offline, false);
    let mut other = first.clone();
    other.server_uuid = 1;
    other.allocation_ip = ipv4("192.0.2.11");
    let snapshot = snapshot(vec![first, other]);
    let allocations = desired_allocations(&snapshot, 4001);
    assert_eq!(allocations.len(), 2);
    assert!(allocations.contains(Allocation { ip: ipv4("192.0.2.10"), port: 25565 }));
    assert!(allocations.contains(Allocation { ip: ipv4("192.0.2.11"), port: 25565 }));
}

#[test]
fn desired_allocations_skip_running_own_port_and_disabled() {
    let snap = snapshot(vec![
        server("10.0.0.1", 25565, ServerState::Running, false),
        server("10.0.0.1", 4001, ServerState::Offline, false),
        server("10.0.0.2", 25565, ServerState::Starting, false),
    ]);
    let allocations = desired_allocations(&snap, 4001);
    assert_eq!(allocations.len(), 1);
    assert_eq!(allocations.get(0), Allocation { ip: ipv4("10.0.0.2"), port: 25565 });
    let mut disabled = snap.clone();
    disabled.settings.enabled = false;
    assert_eq!(desired_allocations(&disabled, 4001).len(), 0);
}

#[test]
fn stale_snapshot_states() {
    let running = server("10.0.0.1", 1, ServerState::Running, false);
    assert_eq!(stale_state(&running, false), ServerState::Running);
    assert_eq!(stale_state(&running, true), ServerState::NodeUnreachable);
    let offline = server("10.0.0.1", 1, ServerState::Offline, false);
    assert_eq!(stale_state(&offline, true), ServerState::NodeUnreachable);
    let installing = server("10.0.0.1", 1, ServerState::BackupRestoreFailed, false);
    assert_eq!(stale_state(&installing, true), ServerState::BackupRestoreFailed);
}

#[test]
fn allocation_matching_and_probe_addresses() {
    let wildcard = server("0.0.0.0", 25565, ServerState::Offline, false);
    assert!(allocation_matches(Allocation { ip: ipv4("192.0.2.1"), port: 25565 }, &wildcard));
    assert!(!allocation_matches(Allocation { ip: ipv4("192.0.2.1"), port: 25566 }, &wildcard));
    let fixed = server("192.0.2.1", 25565, ServerState::Offline, false);
    assert!(!allocation_matches(Allocation { ip: ipv4("192.0.2.2"), port: 25565 }, &fixed));
    assert_eq!(connect_ip(IpAddress::V4(0)), ipv4("127.0.0.1"));
    assert_eq!(connect_ip(IpAddress::V6(0)), IpAddress::V6(1));
    assert_eq!(connect_ip(ipv4("10.1.2.3")), ipv4("10.1.2.3"));
}

#[test]
fn port_checks_update_running_servers_only() {
    let mut servers = vec![
        server("10.0.0.1", 1, ServerState::Running, true),
        server("10.0.0.1", 2, ServerState::Running, true),
        server("10.0.0.1", 3, ServerState::Offline, true),
    ];
    let mut stale = servers.clone();
    mark_unready_as_starting(&mut servers, &[false, true, false]);
    assert_eq!(servers[0].state, ServerState::Starting);
    assert!(servers[0].autostart_on_join);
    assert_eq!(servers[1].state, ServerState::Running);
    assert_eq!(servers[2].state, ServerState::Offline);
    mark_unready_as_unreachable(&mut stale, &[false, true, false]);
    assert_eq!(stale[0].state, ServerState::NodeUnreachable);
    assert!(!stale[0].autostart_on_join);
    assert_eq!(stale[1].state, ServerState::Running);
    assert!(stale[2].autostart_on_join);
}

fn handshake(address: &str, port: u16, next_state: i32) -> Handshake {
    Handshake { protocol_version: 769, server_address: address.into(), server_port: port, next_state }
}

#[test]
fn connection_plans() {
    let snap = snapshot(vec![
        server("10.0.0.1", 25565, ServerState::Running, true),
        server("0.0.0.0", 25566, ServerState::Offline, true),
    ]);
    let original = Allocation { ip: ipv4("10.0.0.9"), port: 25566 };
    let plan = plan_connection(&handshake("mc", 25566, 2), original, Some(&snap), false).unwrap();
    assert_eq!(plan.server_index, 1);
    assert_eq!(plan.state, ServerState::Offline);
    assert_eq!(plan.action, ConnectionAction::Login { wake: true });
    let plan = plan_connection(&handshake("mc", 25566, 2), original, Some(&snap), true).unwrap();
    assert_eq!(plan.state, ServerState::NodeUnreachable);
    assert_eq!(plan.action, ConnectionAction::Login { wake: false });
    let running = Allocation { ip: ipv4("10.0.0.1"), port: 25565 };
    let plan = plan_connection(&handshake("mc", 25565, 1), running, Some(&snap), false).unwrap();
    assert_eq!(plan.state, ServerState::Starting);
    assert_eq!(plan.action, ConnectionAction::Status);

    assert_eq!(plan_connection(&handshake("", 25565, 1), running, Some(&snap), false), Err(SessionError::EmptyServerAddress));
    assert_eq!(plan_connection(&handshake("mc", 1, 1), running, Some(&snap), false), Err(SessionError::PortMismatch));
    assert_eq!(plan_connection(&handshake("mc", 25565, 1), running, None, false), Err(SessionError::NoSnapshot));
    let unknown = Allocation { ip: ipv4("10.0.0.2"), port: 25565 };
    assert_eq!(plan_connection(&handshake("mc", 25565, 1), unknown, Some(&snap), false), Err(SessionError::UnmanagedAllocation));
}

#[test]
fn wake_answers_and_timers() {
    let started = WakeResponse { started: true, reason: "started".into() };
    let busy = WakeResponse { started: false, reason: "not_offline".into() };
    let throttled = WakeResponse { started: false, reason: "disabled_or_throttled".into() };
    let excluded = WakeResponse { started: false, reason: "excluded".into() };
    assert_eq!(state_after_wake(ServerState::Offline, Some(&started)), ServerState::Starting);
    assert_eq!(state_after_wake(ServerState::Offline, Some(&busy)), ServerState::Starting);
    assert_eq!(state_after_wake(ServerState::Offline, Some(&throttled)), ServerState::Starting);
    assert_eq!(state_after_wake(ServerState::Offline, Some(&excluded)), ServerState::Offline);
    assert_eq!(state_after_wake(ServerState::Offline, None), ServerState::Offline);
    let request = wake_request(&server("10.0.0.1", 25565, ServerState::Offline, true));
    assert_eq!(request.allocation_port, 25565);
    assert!(is_stale(15, 15));
    assert!(!is_stale(14, 15));
    assert!(heartbeat_due(30));
    assert!(!heartbeat_due(29));
    assert_eq!(check_snapshot_node(1, 1), Ok(()));
    assert_eq!(check_snapshot_node(1, 2), Err(SessionError::WrongNode));
}

#[test]
fn endpoints_drop_trailing_slashes() {
    assert_eq!(endpoint("https://panel.example.com//", "snapshot"), "https://panel.example.com/api/minecraft-motd/agent/v1/snapshot");
    assert_eq!(endpoint("http://p", "wake"), "http://p/api/minecraft-motd/agent/v1/wake");
}

#[test]
fn status_ping_of_offline_autostart_server_does_not_wake() {
    let snap = snapshot(vec![server("10.0.0.1", 25565, ServerState::Offline, true)]);
    let original = Allocation { ip: ipv4("10.0.0.1"), port: 25565 };
    let plan = plan_connection(&handshake("mc", 25565, 1), original, Some(&snap), false).unwrap();
    assert_eq!(plan.action, ConnectionAction::Status);
    assert_eq!(plan.state, ServerState::Offline);
}

#[test]
fn login_wakes_only_fresh_offline_autostart_servers() {
    let snap = snapshot(vec![
        server("10.0.0.1", 1, ServerState::Offline, true),
        server("10.0.0.1", 2, ServerState::Offline, false),
        server("10.0.0.1", 3, ServerState::Stopping, true),
    ]);
    let at = |port: u16| Allocation { ip: ipv4("10.0.0.1"), port };
    let wake = |port: u16, stale: bool| {
        plan_connection(&handshake("mc", port, 2), at(port), Some(&snap), stale).unwrap().action
    };
    assert_eq!(wake(1, false), ConnectionAction::Login { wake: true });
    assert_eq!(wake(1, true), ConnectionAction::Login { wake: false });
    assert_eq!(wake(2, false), ConnectionAction::Login { wake: false });
    assert_eq!(wake(3, false), ConnectionAction::Login { wake: false });
}

#[test]
fn stale_snapshot_presents_administrative_or_unreachable_states() {
    let snap = snapshot(vec![
        server("10.0.0.1", 1, ServerState::Installing, true),
        server("10.0.0.1", 2, ServerState::Running, true),
        server("10.0.0.1", 3, ServerState::Starting, true),
    ]);
    let at = |port: u16| Allocation { ip: ipv4("10.0.0.1"), port };
    let state = |port: u16| {
        plan_connection(&handshake("mc", port, 2), at(port), Some(&snap), true).unwrap().state
    };
    assert_eq!(state(1), ServerState::Installing);
    assert_eq!(state(2), ServerState::NodeUnreachable);
    assert_eq!(state(3), ServerState::NodeUnreachable);
}

#[test]
fn marking_unready_servers_keeps_and_adds_redirects() {
    let mut snap = snapshot(vec![
        server("10.0.0.1", 1, ServerState::Running, true),
        server("10.0.0.1", 2, ServerState::Running, true),
        server("10.0.0.1", 3, ServerState::Offline, true),
    ]);
    let before = desired_allocations(&snap, 4001);
    assert_eq!(before.len(), 1);
    mark_unready_as_unreachable(&mut snap.servers, &[false, true, true]);
    let after = desired_allocations(&snap, 4001);
    assert_eq!(after.len(), 2);
    assert!(after.contains(Allocation { ip: ipv4("10.0.0.1"), port: 1 }));
    assert!(after.contains(Allocation { ip: ipv4("10.0.0.1"), port: 3 }));
    assert!(!after.contains(Allocation { ip: ipv4("10.0.0.1"), port: 2 }));
}

#[test]
fn poll_rounds_keep_and_send_only_after_the_firewall_update() {
    let keep = |store_snapshot, send_heartbeat| PollOutcome { store_snapshot, send_heartbeat };
    assert_eq!(poll_outcome(true, true, None), keep(true, true));
    assert_eq!(poll_outcome(true, true, Some(29)), keep(true, false));
    assert_eq!(poll_outcome(true, true, Some(30)), keep(true, true));
    assert_eq!(poll_outcome(true, false, None), keep(false, false));
    assert_eq!(poll_outcome(false, false, None), keep(true, false));
    assert_eq!(poll_outcome(false, true, Some(100)), keep(true, false));
    assert!(stale_refresh_due(Some(15), 15));
    assert!(!stale_refresh_due(Some(14), 15));
    assert!(!stale_refresh_due(None, 15));
}
