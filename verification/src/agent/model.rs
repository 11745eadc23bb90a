use vstd::prelude::*;

verus! {

/// Presentation state of a Minecraft server as reported by the panel.
#[derive(Debug, Clone, Copy, PartialEq, Eq, Structural)]
pub enum ServerState {
    Offline,
    Starting,
    Stopping,
    Running,
    Suspended,
    NodeMaintenance,
    Transferring,
    Installing,
    InstallFailed,
    RestoringBackup,
    BackupRestoreFailed,
    NodeUnreachable,
}

/// The snake_case key of a state, as used on the wire and in settings maps.
pub open spec fn state_key(state: ServerState) -> Seq<char> {
    match state {
        ServerState::Offline => "offline"@,
        ServerState::Starting => "starting"@,
        ServerState::Stopping => "stopping"@,
        ServerState::Running => "running"@,
        ServerState::Suspended => "suspended"@,
        ServerState::NodeMaintenance => "node_maintenance"@,
        ServerState::Transferring => "transferring"@,
        ServerState::Installing => "installing"@,
        ServerState::InstallFailed => "install_failed"@,
        ServerState::RestoringBackup => "restoring_backup"@,
        ServerState::BackupRestoreFailed => "backup_restore_failed"@,
        ServerState::NodeUnreachable => "node_unreachable"@,
    }
}

/// Law: different states have different keys, and none is empty.
pub proof fn state_keys_distinct(a: ServerState, b: ServerState)
    ensures
        a != b ==> state_key(a) != state_key(b),
        state_key(a).len() > 0,
{
    reveal_strlit("offline");
    reveal_strlit("starting");
    reveal_strlit("stopping");
    reveal_strlit("running");
    reveal_strlit("suspended");
    reveal_strlit("node_maintenance");
    reveal_strlit("transferring");
    reveal_strlit("installing");
    reveal_strlit("install_failed");
    reveal_strlit("restoring_backup");
    reveal_strlit("backup_restore_failed");
    reveal_strlit("node_unreachable");
    let ka = state_key(a);
    let kb = state_key(b);
    if a != b && ka.len() == kb.len() {
        assert(ka[0] != kb[0] || ka[1] != kb[1] || ka[2] != kb[2] || ka[5] != kb[5]);
    }
}

impl ServerState {
    /// Returns the snake_case key of this state.
    pub fn key(self) -> (r: &'static str)
        ensures
            r@ == state_key(self),
    {
        match self {
            ServerState::Offline => "offline",
            ServerState::Starting => "starting",
            ServerState::Stopping => "stopping",
            ServerState::Running => "running",
            ServerState::Suspended => "suspended",
            ServerState::NodeMaintenance => "node_maintenance",
            ServerState::Transferring => "transferring",
            ServerState::Installing => "installing",
            ServerState::InstallFailed => "install_failed",
            ServerState::RestoringBackup => "restoring_backup",
            ServerState::BackupRestoreFailed => "backup_restore_failed",
            ServerState::NodeUnreachable => "node_unreachable",
        }
    }
}

/// An IP address: IPv4 as its 32-bit big-endian value, IPv6 as its 128-bit
/// big-endian value.
#[derive(Debug, Clone, Copy, PartialEq, Eq, Structural)]
pub enum IpAddress {
    V4(u32),
    V6(u128),
}

impl IpAddress {
    /// The unspecified address of its family (`0.0.0.0` or `::`).
    pub open spec fn spec_is_unspecified(self) -> bool {
        match self {
            IpAddress::V4(v) => v == 0,
            IpAddress::V6(v) => v == 0,
        }
    }

    /// Whether this is the unspecified address of its family.
    pub fn is_unspecified(self) -> (r: bool)
        ensures
            r == self.spec_is_unspecified(),
    {
        match self {
            IpAddress::V4(v) => v == 0,
            IpAddress::V6(v) => v == 0,
        }
    }

    /// Whether this is an IPv6 address.
    pub fn is_ipv6(self) -> (r: bool)
        ensures
            r == (self is V6),
    {
        match self {
            IpAddress::V4(_) => false,
            IpAddress::V6(_) => true,
        }
    }
}

/// A server allocation as the panel reports it in a snapshot.
#[derive(Debug, Clone)]
pub struct SnapshotServer {
    pub server_uuid: u128,
    pub server_name: String,
    pub node_name: String,
    pub allocation_ip: IpAddress,
    pub allocation_port: u16,
    pub state: ServerState,
    pub autostart_on_join: bool,
}

/// Presentation of one state: version text, protocol, player counts,
/// rotating descriptions and the login kick message.
#[derive(Debug, Clone)]
pub struct MotdStateSettings {
    pub version: String,
    pub protocol: Option<i32>,
    pub online_players: i32,
    pub max_players: i32,
    pub descriptions: Vec<String>,
    pub kick_message: String,
}

/// The panel's global MOTD settings as sent to the agent. `states` maps state
/// keys to their presentation; the panel sends each key at most once
/// (`keys_unique`), and a state's lookup then finds its only entry.
#[derive(Debug, Clone)]
pub struct GlobalSettings {
    pub enabled: bool,
    pub _all_allocations: bool,
    pub rotation_interval_seconds: u64,
    pub swap_lines: bool,
    pub gradient_enabled: bool,
    pub gradient_colors: Vec<String>,
    pub favicon_base64: Option<String>,
    pub _excluded_egg_uuids: Vec<u128>,
    pub _excluded_server_uuids: Vec<u128>,
    pub states: Vec<(String, MotdStateSettings)>,
}

/// A snapshot of the node's servers, as served by the panel.
#[derive(Debug, Clone)]
pub struct Snapshot {
    pub revision: i64,
    /// Milliseconds since the Unix epoch.
    pub generated_at: i64,
    pub node_uuid: u128,
    pub node_reachable: bool,
    pub settings: GlobalSettings,
    pub servers: Vec<SnapshotServer>,
}

/// Request to start an offline server because a player tried to log in.
#[derive(Debug, Clone, Copy)]
pub struct WakeRequest {
    pub server_uuid: u128,
    pub allocation_port: u16,
}

/// The panel's answer to a wake request.
#[derive(Debug, Clone)]
pub struct WakeResponse {
    pub started: bool,
    pub reason: String,
}

/// One-time enrollment of a node agent.
#[derive(Debug, Clone, Copy)]
pub struct EnrollmentRequest<'a> {
    pub enrollment_token: &'a str,
    pub version: &'a str,
}

/// The credentials returned by a successful enrollment.
#[derive(Debug, Clone)]
pub struct EnrollmentResponse {
    pub node_uuid: u128,
    pub agent_token: String,
}

/// Periodic liveness report of an agent.
#[derive(Debug, Clone, Copy)]
pub struct HeartbeatRequest<'a> {
    pub version: &'a str,
}

} // verus!
