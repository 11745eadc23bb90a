//! Resolving the state a server is presented in.
use vstd::prelude::*;

verus! {

/// The state the panel reports to the agent for a server.
#[derive(Debug, Clone, Copy, PartialEq, Eq, Structural)]
pub enum EffectiveState {
    Offline,
    Starting,
    Stopping,
    Running,
    Suspended,
    NodeMaintenance,
    Transferring,
    Installing,
    InstallFailed,
    RestoringBackup,
    BackupRestoreFailed,
    NodeUnreachable,
}

/// The panel's own lifecycle status of a server, when it has one.
#[derive(Debug, Clone, Copy, PartialEq, Eq, Structural)]
pub enum ServerStatus {
    Installing,
    InstallFailed,
    RestoringBackup,
    BackupRestoreFailed,
}

/// The power state Wings reports for a server.
#[derive(Debug, Clone, Copy, PartialEq, Eq, Structural)]
pub enum PowerState {
    Offline,
    Starting,
    Stopping,
    Running,
}

/// The state of a server: the first that applies in the fixed order
/// suspended, node maintenance, transferring, installing, install failed,
/// restoring backup, backup restore failed, node unreachable, and then the
/// power state (offline when Wings reports none).
pub open spec fn resolved_state(
    suspended: bool,
    node_maintenance: bool,
    transferring: bool,
    status: Option<ServerStatus>,
    node_reachable: bool,
    power: Option<PowerState>,
) -> EffectiveState {
    if suspended {
        EffectiveState::Suspended
    } else if node_maintenance {
        EffectiveState::NodeMaintenance
    } else if transferring {
        EffectiveState::Transferring
    } else if status == Some(ServerStatus::Installing) {
        EffectiveState::Installing
    } else if status == Some(ServerStatus::InstallFailed) {
        EffectiveState::InstallFailed
    } else if status == Some(ServerStatus::RestoringBackup) {
        EffectiveState::RestoringBackup
    } else if status == Some(ServerStatus::BackupRestoreFailed) {
        EffectiveState::BackupRestoreFailed
    } else if !node_reachable {
        EffectiveState::NodeUnreachable
    } else {
        match power {
            Some(PowerState::Running) => EffectiveState::Running,
            Some(PowerState::Starting) => EffectiveState::Starting,
            Some(PowerState::Stopping) => EffectiveState::Stopping,
            _ => EffectiveState::Offline,
        }
    }
}

/// Resolves the state of a server from its flags, its panel status, whether
/// its node answered, and the power state Wings reports.
pub fn resolve_state(
    suspended: bool,
    node_maintenance: bool,
    transferring: bool,
    status: Option<ServerStatus>,
    node_reachable: bool,
    wings_state: Option<PowerState>,
) -> (r: EffectiveState)
    ensures
        r == resolved_state(
            suspended,
            node_maintenance,
            transferring,
            status,
            node_reachable,
            wings_state,
        ),
{
    if suspended {
        return EffectiveState::Suspended;
    }
    if node_maintenance {
        return EffectiveState::NodeMaintenance;
    }
    if transferring {
        return EffectiveState::Transferring;
    }
    match status {
        Some(ServerStatus::Installing) => return EffectiveState::Installing,
        Some(ServerStatus::InstallFailed) => return EffectiveState::InstallFailed,
        Some(ServerStatus::RestoringBackup) => return EffectiveState::RestoringBackup,
        Some(ServerStatus::BackupRestoreFailed) => return EffectiveState::BackupRestoreFailed,
        None => {},
    }
    if !node_reachable {
        return EffectiveState::NodeUnreachable;
    }
    match wings_state {
        Some(PowerState::Running) => EffectiveState::Running,
        Some(PowerState::Starting) => EffectiveState::Starting,
        Some(PowerState::Stopping) => EffectiveState::Stopping,
        Some(PowerState::Offline) | None => EffectiveState::Offline,
    }
}

/// Position of a state in the documented priority order (0 is highest).
pub open spec fn priority(state: EffectiveState) -> int {
    match state {
        EffectiveState::Suspended => 0,
        EffectiveState::NodeMaintenance => 1,
        EffectiveState::Transferring => 2,
        EffectiveState::Installing => 3,
        EffectiveState::InstallFailed => 4,
        EffectiveState::RestoringBackup => 5,
        EffectiveState::BackupRestoreFailed => 6,
        EffectiveState::NodeUnreachable => 7,
        EffectiveState::Starting => 8,
        EffectiveState::Stopping => 9,
        EffectiveState::Offline => 10,
        EffectiveState::Running => 11,
    }
}

/// Whether the facts about a server call for `state`.
pub open spec fn applies(
    state: EffectiveState,
    suspended: bool,
    node_maintenance: bool,
    transferring: bool,
    status: Option<ServerStatus>,
    node_reachable: bool,
    power: Option<PowerState>,
) -> bool {
    match state {
        EffectiveState::Suspended => suspended,
        EffectiveState::NodeMaintenance => node_maintenance,
        EffectiveState::Transferring => transferring,
        EffectiveState::Installing => status == Some(ServerStatus::Installing),
        EffectiveState::InstallFailed => status == Some(ServerStatus::InstallFailed),
        EffectiveState::RestoringBackup => status == Some(ServerStatus::RestoringBackup),
        EffectiveState::BackupRestoreFailed => status == Some(ServerStatus::BackupRestoreFailed),
        EffectiveState::NodeUnreachable => !node_reachable,
        EffectiveState::Starting => power == Some(PowerState::Starting),
        EffectiveState::Stopping => power == Some(PowerState::Stopping),
        EffectiveState::Offline => power == Some(PowerState::Offline) || power is None,
        EffectiveState::Running => power == Some(PowerState::Running),
    }
}

/// Law: the resolved state is the applicable state that comes first in the
/// documented priority order, so administrative states always win over the
/// power state Wings reports.
pub proof fn resolved_state_has_highest_priority(
    suspended: bool,
    node_maintenance: bool,
    transferring: bool,
    status: Option<ServerStatus>,
    node_reachable: bool,
    power: Option<PowerState>,
    other: EffectiveState,
)
    ensures
        applies(
            resolved_state(suspended, node_maintenance, transferring, status, node_reachable, power),
            suspended,
            node_maintenance,
            transferring,
            status,
            node_reachable,
            power,
        ),
        applies(other, suspended, node_maintenance, transferring, status, node_reachable, power)
            ==> priority(
            resolved_state(suspended, node_maintenance, transferring, status, node_reachable, power),
        ) <= priority(other),
{
}

} // verus!
