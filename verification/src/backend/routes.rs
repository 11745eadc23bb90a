//! The decisions behind the extension's HTTP routes; the routes themselves
//! run the database queries and Wings calls these decisions depend on.
use vstd::prelude::*;
use vstd::utf8::encode_utf8;
use crate::agent::session::wake_means_starting;
use crate::backend::settings::{ExtensionSettingsData, excluded, is_excluded};
use crate::backend::state::{EffectiveState, PowerState, ServerStatus, resolve_state, resolved_state};
use crate::text::{chars_equal, chars_of, lowercased, to_ascii_lowercase};

verus! {

/// Longest accepted agent version text, in bytes.
pub const MAX_VERSION_LENGTH: usize = 64;

/// Longest accepted enrollment token, in bytes.
pub const MAX_ENROLLMENT_TOKEN_LENGTH: usize = 256;

/// Law: agent versions have at most 64 bytes and enrollment tokens at most
/// 256.
pub proof fn request_limits()
    ensures
        MAX_VERSION_LENGTH == 64,
        MAX_ENROLLMENT_TOKEN_LENGTH == 256,
{
}

/// The panel status stored as text, read case-insensitively; other values
/// mean the server has no lifecycle status.
pub open spec fn server_status_of(value: Option<Seq<char>>) -> Option<ServerStatus> {
    match value {
        None => None,
        Some(text) => {
            let l = lowercased(text);
            if l == "installing"@ {
                Some(ServerStatus::Installing)
            } else if l == "install_failed"@ {
                Some(ServerStatus::InstallFailed)
            } else if l == "restoring_backup"@ {
                Some(ServerStatus::RestoringBackup)
            } else if l == "backup_restore_failed"@ {
                Some(ServerStatus::BackupRestoreFailed)
            } else {
                None
            }
        },
    }
}

/// `t` spells the lowercase ASCII name `name` with any of its letters in
/// upper case.
pub open spec fn spells_ignoring_case(t: Seq<char>, name: Seq<char>) -> bool {
    &&& t.len() == name.len()
    &&& forall|i: int|
        0 <= i < t.len() ==> #[trigger] t[i] == name[i] || ('a' <= name[i] <= 'z' && t[i] as int
            == name[i] as int - 32)
}

proof fn lemma_spells_lowercased(t: Seq<char>, name: Seq<char>)
    requires
        spells_ignoring_case(t, name),
        forall|i: int| 0 <= i < name.len() ==> !('A' <= #[trigger] name[i] <= 'Z'),
    ensures
        lowercased(t) == name,
{
    assert forall|i: int| 0 <= i < t.len() implies #[trigger] lowercased(t)[i] == name[i] by {
        if t[i] != name[i] {
            assert((((t[i] as u32) + 32) as u8) as char == name[i]);
        }
    }
    assert(lowercased(t) =~= name);
}

proof fn lemma_lowercased_spells(t: Seq<char>, name: Seq<char>)
    requires
        lowercased(t) == name,
    ensures
        spells_ignoring_case(t, name),
{
    assert forall|i: int| 0 <= i < t.len() implies #[trigger] t[i] == name[i] || ('a' <= name[i]
        <= 'z' && t[i] as int == name[i] as int - 32) by {
        assert(lowercased(t)[i] == name[i]);
    }
}

/// Law: each of the four lifecycle status names, in any ASCII case, reads as
/// its own status, and a server with that status and no administrative flag
/// is shown in that state; no status is read from an absent value.
pub proof fn lifecycle_status_names(t: Seq<char>, node_reachable: bool, power: Option<PowerState>)
    ensures
        spells_ignoring_case(t, "installing"@) ==> server_status_of(Some(t)) == Some(
            ServerStatus::Installing,
        ) && resolved_state(false, false, false, server_status_of(Some(t)), node_reachable, power)
            == EffectiveState::Installing,
        spells_ignoring_case(t, "install_failed"@) ==> server_status_of(Some(t)) == Some(
            ServerStatus::InstallFailed,
        ) && resolved_state(false, false, false, server_status_of(Some(t)), node_reachable, power)
            == EffectiveState::InstallFailed,
        spells_ignoring_case(t, "restoring_backup"@) ==> server_status_of(Some(t)) == Some(
            ServerStatus::RestoringBackup,
        ) && resolved_state(false, false, false, server_status_of(Some(t)), node_reachable, power)
            == EffectiveState::RestoringBackup,
        spells_ignoring_case(t, "backup_restore_failed"@) ==> server_status_of(Some(t)) == Some(
            ServerStatus::BackupRestoreFailed,
        ) && resolved_state(false, false, false, server_status_of(Some(t)), node_reachable, power)
            == EffectiveState::BackupRestoreFailed,
        server_status_of(None) is None,
        server_status_of(Some(t)) is Some ==> spells_ignoring_case(t, "installing"@)
            || spells_ignoring_case(t, "install_failed"@) || spells_ignoring_case(
            t,
            "restoring_backup"@,
        ) || spells_ignoring_case(t, "backup_restore_failed"@),
{
    if server_status_of(Some(t)) is Some {
        let l = lowercased(t);
        if l == "installing"@ {
            lemma_lowercased_spells(t, "installing"@);
        } else if l == "install_failed"@ {
            lemma_lowercased_spells(t, "install_failed"@);
        } else if l == "restoring_backup"@ {
            lemma_lowercased_spells(t, "restoring_backup"@);
        } else {
            lemma_lowercased_spells(t, "backup_restore_failed"@);
        }
    }
    reveal_strlit("installing");
    reveal_strlit("install_failed");
    reveal_strlit("restoring_backup");
    reveal_strlit("backup_restore_failed");
    assert("installing"@.len() == 10);
    assert("install_failed"@.len() == 14);
    assert("restoring_backup"@.len() == 16);
    assert("backup_restore_failed"@.len() == 21);
    if spells_ignoring_case(t, "installing"@) {
        lemma_spells_lowercased(t, "installing"@);
    }
    if spells_ignoring_case(t, "install_failed"@) {
        lemma_spells_lowercased(t, "install_failed"@);
        assert("install_failed"@[2] != "installing"@[2] || "install_failed"@.len() != 10);
    }
    if spells_ignoring_case(t, "restoring_backup"@) {
        lemma_spells_lowercased(t, "restoring_backup"@);
    }
    if spells_ignoring_case(t, "backup_restore_failed"@) {
        lemma_spells_lowercased(t, "backup_restore_failed"@);
    }
}

/// Reads the panel status stored as text.
pub fn parse_server_status(value: Option<&str>) -> (r: Option<ServerStatus>)
    ensures
        r == server_status_of(
            match value {
                Some(v) => Some(v@),
                None => None,
            },
        ),
{
    let text = match value {
        Some(v) => chars_of(v),
        None => return None,
    };
    let l = to_ascii_lowercase(&text);
    if chars_equal(&l, "installing") {
        Some(ServerStatus::Installing)
    } else if chars_equal(&l, "install_failed") {
        Some(ServerStatus::InstallFailed)
    } else if chars_equal(&l, "restoring_backup") {
        Some(ServerStatus::RestoringBackup)
    } else if chars_equal(&l, "backup_restore_failed") {
        Some(ServerStatus::BackupRestoreFailed)
    } else {
        None
    }
}

/// An enrollment request is accepted for processing when the version has at
/// most 64 bytes and the token at most 256.
pub fn enrollment_request_valid(enrollment_token: &str, version: &str) -> (r: bool)
    ensures
        r == (encode_utf8(version@).len() <= MAX_VERSION_LENGTH && encode_utf8(
            enrollment_token@,
        ).len() <= MAX_ENROLLMENT_TOKEN_LENGTH),
{
    !(version.as_bytes().len() > MAX_VERSION_LENGTH || enrollment_token.as_bytes().len()
        > MAX_ENROLLMENT_TOKEN_LENGTH)
}

/// A heartbeat's version text is accepted when it has at most 64 bytes.
pub fn heartbeat_version_valid(version: &str) -> (r: bool)
    ensures
        r == (encode_utf8(version@).len() <= MAX_VERSION_LENGTH),
{
    version.as_bytes().len() <= MAX_VERSION_LENGTH
}

/// One server allocation on the agent's node, as the snapshot query returns
/// it.
#[derive(Debug, Clone)]
pub struct ServerRow {
    pub server_uuid: u128,
    pub server_name: String,
    pub egg_uuid: u128,
    pub status: Option<String>,
    pub suspended: bool,
    pub transferring: bool,
    pub node_name: String,
    pub maintenance_enabled: bool,
    pub allocation_ip: String,
    pub allocation_port: i32,
    pub is_primary: bool,
    pub autostart_on_join: bool,
}

/// A server as the snapshot route sends it to the agent.
#[derive(Debug, Clone)]
pub struct PanelSnapshotServer {
    pub server_uuid: u128,
    pub server_name: String,
    pub node_name: String,
    pub allocation_ip: String,
    pub allocation_port: u16,
    pub state: EffectiveState,
    pub autostart_on_join: bool,
}

/// Whether a row is sent to the agent: a primary allocation (or any, when
/// all allocations are intercepted), not excluded, with a valid TCP port.
pub open spec fn row_included(settings: ExtensionSettingsData, row: ServerRow) -> bool {
    &&& settings.all_allocations || row.is_primary
    &&& !excluded(settings, row.server_uuid, row.egg_uuid)
    &&& 1 <= row.allocation_port <= u16::MAX
}

/// The snapshot entry for a row, if the row is sent to the agent.
pub fn snapshot_server(
    settings: &ExtensionSettingsData,
    row: ServerRow,
    node_reachable: bool,
    wings_state: Option<PowerState>,
) -> (r: Option<PanelSnapshotServer>)
    ensures
        row_included(*settings, row) ==> (r matches Some(s) && {
            &&& s.server_uuid == row.server_uuid
            &&& s.server_name == row.server_name
            &&& s.node_name == row.node_name
            &&& s.allocation_ip == row.allocation_ip
            &&& s.allocation_port == row.allocation_port
            &&& s.autostart_on_join == row.autostart_on_join
            &&& s.state == resolved_state(
                row.suspended,
                row.maintenance_enabled,
                row.transferring,
                server_status_of(
                    match row.status {
                        Some(t) => Some(t@),
                        None => None,
                    },
                ),
                node_reachable,
                wings_state,
            )
        }),
        !row_included(*settings, row) ==> r is None,
{
    if (!settings.all_allocations && !row.is_primary) || is_excluded(
        settings,
        row.server_uuid,
        row.egg_uuid,
    ) {
        return None;
    }
    let status = match &row.status {
        Some(t) => parse_server_status(Some(t.as_str())),
        None => parse_server_status(None),
    };
    let state = resolve_state(
        row.suspended,
        row.maintenance_enabled,
        row.transferring,
        status,
        node_reachable,
        wings_state,
    );
    if !(1 <= row.allocation_port && row.allocation_port <= 65535) {
        return None;
    }
    Some(
        PanelSnapshotServer {
            server_uuid: row.server_uuid,
            server_name: row.server_name,
            node_name: row.node_name,
            allocation_ip: row.allocation_ip,
            allocation_port: row.allocation_port as u16,
            state,
            autostart_on_join: row.autostart_on_join,
        },
    )
}

/// The answer to a wake request.
#[derive(Debug, Clone, Copy, PartialEq, Eq, Structural)]
pub enum WakeReason {
    ExtensionDisabled,
    AllocationNotAuthorized,
    Excluded,
    WrongNode,
    ServerUnavailable,
    NotOffline,
    DisabledOrThrottled,
    Started,
}

/// The text the wake route answers with.
pub open spec fn reason_text(reason: WakeReason) -> Seq<char> {
    match reason {
        WakeReason::ExtensionDisabled => "extension_disabled"@,
        WakeReason::AllocationNotAuthorized => "allocation_not_authorized"@,
        WakeReason::Excluded => "excluded"@,
        WakeReason::WrongNode => "wrong_node"@,
        WakeReason::ServerUnavailable => "server_unavailable"@,
        WakeReason::NotOffline => "not_offline"@,
        WakeReason::DisabledOrThrottled => "disabled_or_throttled"@,
        WakeReason::Started => "started"@,
    }
}

impl WakeReason {
    /// The text the wake route answers with.
    pub fn reason(self) -> (r: &'static str)
        ensures
            r@ == reason_text(self),
    {
        match self {
            WakeReason::ExtensionDisabled => "extension_disabled",
            WakeReason::AllocationNotAuthorized => "allocation_not_authorized",
            WakeReason::Excluded => "excluded",
            WakeReason::WrongNode => "wrong_node",
            WakeReason::ServerUnavailable => "server_unavailable",
            WakeReason::NotOffline => "not_offline",
            WakeReason::DisabledOrThrottled => "disabled_or_throttled",
            WakeReason::Started => "started",
        }
    }

    /// Whether the answer reports that the server was started.
    pub fn started(self) -> (r: bool)
        ensures
            r == (self == WakeReason::Started),
    {
        self == WakeReason::Started
    }
}

/// First gate of a wake request: the extension must be enabled.
pub fn wake_gate_enabled(settings: &ExtensionSettingsData) -> (r: Option<WakeReason>)
    ensures
        r == (if settings.enabled {
            None
        } else {
            Some(WakeReason::ExtensionDisabled)
        }),
{
    if settings.enabled {
        None
    } else {
        Some(WakeReason::ExtensionDisabled)
    }
}

/// Second gate: the allocation must belong to the server on the agent's node
/// (`egg_uuid` is the server's egg when the lookup found it), and the server
/// must not be excluded.
pub fn wake_gate_allocation(
    settings: &ExtensionSettingsData,
    egg_uuid: Option<u128>,
    server_uuid: u128,
) -> (r: Option<WakeReason>)
    ensures
        r == match egg_uuid {
            None => Some(WakeReason::AllocationNotAuthorized),
            Some(egg) => if excluded(*settings, server_uuid, egg) {
                Some(WakeReason::Excluded)
            } else {
                None
            },
        },
{
    match egg_uuid {
        None => Some(WakeReason::AllocationNotAuthorized),
        Some(egg) => if is_excluded(settings, server_uuid, egg) {
            Some(WakeReason::Excluded)
        } else {
            None
        },
    }
}

/// Third gate: the server must be on the agent's node, and neither the node
/// in maintenance nor the server unavailable.
pub fn wake_gate_server(
    server_node: u128,
    agent_node: u128,
    maintenance: bool,
    unavailable: bool,
) -> (r: Option<WakeReason>)
    ensures
        r == (if server_node != agent_node {
            Some(WakeReason::WrongNode)
        } else if maintenance || unavailable {
            Some(WakeReason::ServerUnavailable)
        } else {
            None
        }),
{
    if server_node != agent_node {
        Some(WakeReason::WrongNode)
    } else if maintenance || unavailable {
        Some(WakeReason::ServerUnavailable)
    } else {
        None
    }
}

/// Fourth gate: Wings must not report the server in any state but offline.
pub fn wake_gate_power(power: Option<PowerState>) -> (r: Option<WakeReason>)
    ensures
        r == (if power is Some && power != Some(PowerState::Offline) {
            Some(WakeReason::NotOffline)
        } else {
            None
        }),
{
    match power {
        Some(PowerState::Offline) | None => None,
        Some(_) => Some(WakeReason::NotOffline),
    }
}

/// Fifth gate: the throttle lock (autostart enabled and no wake in the last
/// thirty seconds) must have been taken.
pub fn wake_gate_lock(locked: bool) -> (r: Option<WakeReason>)
    ensures
        r == (if locked {
            None
        } else {
            Some(WakeReason::DisabledOrThrottled)
        }),
{
    if locked {
        None
    } else {
        Some(WakeReason::DisabledOrThrottled)
    }
}

/// The answer to a wake request: the first gate that refuses, in the order
/// the route checks them (extension enabled, allocation authorised and not
/// excluded, server on the agent's node and available, Wings not reporting
/// it running, throttle lock taken), else `Started`.
pub open spec fn wake_outcome(
    settings: ExtensionSettingsData,
    egg_uuid: Option<u128>,
    server_uuid: u128,
    server_node: u128,
    agent_node: u128,
    maintenance: bool,
    unavailable: bool,
    power: Option<PowerState>,
    locked: bool,
) -> WakeReason {
    if !settings.enabled {
        WakeReason::ExtensionDisabled
    } else if egg_uuid is None {
        WakeReason::AllocationNotAuthorized
    } else if excluded(settings, server_uuid, egg_uuid->0) {
        WakeReason::Excluded
    } else if server_node != agent_node {
        WakeReason::WrongNode
    } else if maintenance || unavailable {
        WakeReason::ServerUnavailable
    } else if power is Some && power != Some(PowerState::Offline) {
        WakeReason::NotOffline
    } else if !locked {
        WakeReason::DisabledOrThrottled
    } else {
        WakeReason::Started
    }
}

/// Decides a wake request from what the route found at each gate, the first
/// refusing gate winning.
pub fn wake_decision(
    settings: &ExtensionSettingsData,
    egg_uuid: Option<u128>,
    server_uuid: u128,
    server_node: u128,
    agent_node: u128,
    maintenance: bool,
    unavailable: bool,
    power: Option<PowerState>,
    locked: bool,
) -> (r: WakeReason)
    ensures
        r == wake_outcome(
            *settings,
            egg_uuid,
            server_uuid,
            server_node,
            agent_node,
            maintenance,
            unavailable,
            power,
            locked,
        ),
{
    if let Some(reason) = wake_gate_enabled(settings) {
        return reason;
    }
    if let Some(reason) = wake_gate_allocation(settings, egg_uuid, server_uuid) {
        return reason;
    }
    if let Some(reason) = wake_gate_server(server_node, agent_node, maintenance, unavailable) {
        return reason;
    }
    if let Some(reason) = wake_gate_power(power) {
        return reason;
    }
    if let Some(reason) = wake_gate_lock(locked) {
        return reason;
    }
    WakeReason::Started
}

/// Law: the agent shows a server as starting after a wake answer exactly
/// when the panel started it, found it not offline, or found a wake already
/// under way (or autostart off); every other refusal leaves the state as it
/// was.
pub proof fn wake_answer_agreement(reason: WakeReason)
    ensures
        wake_means_starting(reason == WakeReason::Started, reason_text(reason)) <==> (reason
            == WakeReason::Started || reason == WakeReason::NotOffline || reason
            == WakeReason::DisabledOrThrottled),
{
    reveal_strlit("extension_disabled");
    reveal_strlit("allocation_not_authorized");
    reveal_strlit("excluded");
    reveal_strlit("wrong_node");
    reveal_strlit("server_unavailable");
    reveal_strlit("not_offline");
    reveal_strlit("disabled_or_throttled");
    reveal_strlit("started");
    assert("not_offline"@.len() == 11);
    assert("disabled_or_throttled"@.len() == 21);
    match reason {
        WakeReason::ExtensionDisabled => {
            assert("extension_disabled"@.len() == 18);
        },
        WakeReason::AllocationNotAuthorized => {
            assert("allocation_not_authorized"@.len() == 25);
        },
        WakeReason::Excluded => {
            assert("excluded"@.len() == 8);
        },
        WakeReason::WrongNode => {
            assert("wrong_node"@.len() == 10);
        },
        WakeReason::ServerUnavailable => {
            assert("server_unavailable"@.len() == 18);
        },
        _ => {},
    }
}

} // verus!
