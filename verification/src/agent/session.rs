//! The agent's decisions: which allocations to intercept, how stale data is
//! presented, and what to do with each intercepted connection. The caller
//! performs the network work these decisions call for.
use vstd::prelude::*;
use crate::agent::firewall::{Allocation, AllocationSet};
use crate::agent::model::{
    IpAddress, ServerState, Snapshot, SnapshotServer, WakeRequest, WakeResponse,
};
use crate::agent::protocol::Handshake;
use crate::text::{chars_of, push_all, string_of, trim_end_char, trim_end_matches_char};

verus! {

/// Seconds between heartbeats.
pub const HEARTBEAT_INTERVAL_SECONDS: u64 = 30;

/// Law: a heartbeat is due every thirty seconds.
pub proof fn heartbeat_interval()
    ensures
        HEARTBEAT_INTERVAL_SECONDS == 30,
{
}

/// Why an intercepted connection was refused.
#[derive(Debug, Clone, Copy, PartialEq, Eq, Structural)]
pub enum SessionError {
    /// The handshake named no server address.
    EmptyServerAddress,
    /// The handshake port differs from the port the client connected to.
    PortMismatch,
    /// No snapshot has been received from the panel yet.
    NoSnapshot,
    /// No server in the snapshot owns the connection's destination.
    UnmanagedAllocation,
    /// The panel sent a snapshot for another node.
    WrongNode,
}

/// The agent API URL for `path` under the panel URL.
pub open spec fn endpoint_text(panel_url: Seq<char>, path: Seq<char>) -> Seq<char> {
    trim_end_char(panel_url, '/') + "/api/minecraft-motd/agent/v1/"@ + path
}

/// Law: trailing slashes of the panel URL make no difference, and the URL
/// is the panel URL without them, the agent API prefix, and the path.
pub proof fn endpoint_ignores_trailing_slash(panel_url: Seq<char>, path: Seq<char>)
    ensures
        endpoint_text(panel_url.push('/'), path) == endpoint_text(panel_url, path),
        panel_url.len() == 0 || panel_url.last() != '/' ==> endpoint_text(panel_url, path)
            == panel_url + "/api/minecraft-motd/agent/v1/"@ + path,
{
    crate::text::trim_end_char_shape(panel_url, '/');
}

/// The agent API URL for `path` under the panel URL.
pub fn endpoint(panel_url: &str, path: &str) -> (r: String)
    ensures
        r@ == endpoint_text(panel_url@, path@),
{
    let url = chars_of(panel_url);
    let mut out = trim_end_matches_char(&url, '/');
    let prefix = chars_of("/api/minecraft-motd/agent/v1/");
    push_all(&mut out, &prefix);
    let tail = chars_of(path);
    push_all(&mut out, &tail);
    string_of(&out)
}

/// The socket address of a server's allocation.
pub open spec fn allocation_of(server: SnapshotServer) -> Allocation {
    Allocation { ip: server.allocation_ip, port: server.allocation_port }
}

/// A server whose allocation is intercepted: not on the agent's own port and
/// not running.
pub open spec fn is_intercepted(server: SnapshotServer, listen_port: u16) -> bool {
    server.allocation_port != listen_port && server.state != ServerState::Running
}

/// The allocations to redirect to the agent: none while the extension is
/// disabled, otherwise those of every intercepted server.
pub open spec fn desired_set(snapshot: Snapshot, listen_port: u16) -> Set<Allocation> {
    if !snapshot.settings.enabled {
        Set::empty()
    } else {
        Set::new(
            |a: Allocation|
                exists|i: int|
                    0 <= i < snapshot.servers@.len() && is_intercepted(
                        #[trigger] snapshot.servers@[i],
                        listen_port,
                    ) && allocation_of(snapshot.servers@[i]) == a,
        )
    }
}

/// The allocations to redirect to the agent for a snapshot.
pub fn desired_allocations(snapshot: &Snapshot, listen_port: u16) -> (r: AllocationSet)
    ensures
        r@.to_set() == desired_set(*snapshot, listen_port),
{
    let mut set = AllocationSet::new();
    if !snapshot.settings.enabled {
        assert(set@.to_set() =~= Set::<Allocation>::empty());
        return set;
    }
    let servers = &snapshot.servers;
    let mut i: usize = 0;
    while i < servers.len()
        invariant
            i <= servers@.len(),
            servers@ == snapshot.servers@,
            snapshot.settings.enabled,
            set@.to_set() == Set::new(
                |a: Allocation|
                    exists|k: int|
                        0 <= k < i && is_intercepted(#[trigger] servers@[k], listen_port)
                            && allocation_of(servers@[k]) == a,
            ),
        decreases servers@.len() - i,
    {
        let ghost before = set@.to_set();
        let server = &servers[i];
        if server.allocation_port != listen_port && server.state != ServerState::Running {
            set.insert(Allocation { ip: server.allocation_ip, port: server.allocation_port });
        }
        proof {
            let next = Set::new(
                |a: Allocation|
                    exists|k: int|
                        0 <= k < i + 1 && is_intercepted(#[trigger] servers@[k], listen_port)
                            && allocation_of(servers@[k]) == a,
            );
            assert forall|a: Allocation| set@.to_set().contains(a) <==> next.contains(a) by {
                if next.contains(a) {
                    let k = choose|k: int|
                        0 <= k < i + 1 && is_intercepted(#[trigger] servers@[k], listen_port)
                            && allocation_of(servers@[k]) == a;
                    if k < i {
                        assert(before.contains(a));
                    }
                }
                if before.contains(a) {
                    let k = choose|k: int|
                        0 <= k < i && is_intercepted(#[trigger] servers@[k], listen_port)
                            && allocation_of(servers@[k]) == a;
                    assert(next.contains(a));
                }
            }
            assert(set@.to_set() =~= next);
        }
        i = i + 1;
    }
    assert(set@.to_set() =~= desired_set(*snapshot, listen_port));
    set
}

/// A connection to `original` belongs to `server`: same port, and the same
/// address unless the server listens on the unspecified address.
pub open spec fn matches_allocation(original: Allocation, server: SnapshotServer) -> bool {
    original.port == server.allocation_port && (original.ip == server.allocation_ip
        || server.allocation_ip.spec_is_unspecified())
}

/// Whether a connection to `original` belongs to `server`.
pub fn allocation_matches(original: Allocation, server: &SnapshotServer) -> (r: bool)
    ensures
        r == matches_allocation(original, *server),
{
    original.port == server.allocation_port && (original.ip == server.allocation_ip
        || server.allocation_ip.is_unspecified())
}

/// States that stem from an administrative action on the panel rather than
/// from the server process.
pub open spec fn is_administrative(state: ServerState) -> bool {
    ||| state == ServerState::Suspended
    ||| state == ServerState::NodeMaintenance
    ||| state == ServerState::Transferring
    ||| state == ServerState::Installing
    ||| state == ServerState::InstallFailed
    ||| state == ServerState::RestoringBackup
    ||| state == ServerState::BackupRestoreFailed
}

/// The state shown for a server: when the snapshot is stale, administrative
/// states are kept and every other state becomes node-unreachable.
pub open spec fn shown_state(state: ServerState, stale: bool) -> ServerState {
    if !stale || is_administrative(state) {
        state
    } else {
        ServerState::NodeUnreachable
    }
}

/// Law: while the snapshot is stale, a server suspended, in node
/// maintenance, transferring, installing, whose install failed, restoring a
/// backup, or whose restore failed is shown in that state; every other state
/// is shown as node-unreachable. With a fresh snapshot every state is shown
/// as it is.
pub proof fn stale_keeps_administrative_states(state: ServerState)
    ensures
        (state == ServerState::Suspended || state == ServerState::NodeMaintenance || state
            == ServerState::Transferring || state == ServerState::Installing || state
            == ServerState::InstallFailed || state == ServerState::RestoringBackup || state
            == ServerState::BackupRestoreFailed) ==> shown_state(state, true) == state
            && presented_state(state, true) == state,
        (state == ServerState::Offline || state == ServerState::Starting || state
            == ServerState::Stopping || state == ServerState::Running || state
            == ServerState::NodeUnreachable) ==> shown_state(state, true)
            == ServerState::NodeUnreachable,
        shown_state(state, false) == state,
        presented_state(state, false) == (if state == ServerState::Running {
            ServerState::Starting
        } else {
            state
        }),
{
}

/// The state shown for a server, given whether the snapshot is stale.
pub fn stale_state(server: &SnapshotServer, stale: bool) -> (r: ServerState)
    ensures
        r == shown_state(server.state, stale),
{
    if !stale {
        return server.state;
    }
    match server.state {
        ServerState::Suspended
        | ServerState::NodeMaintenance
        | ServerState::Transferring
        | ServerState::Installing
        | ServerState::InstallFailed
        | ServerState::RestoringBackup
        | ServerState::BackupRestoreFailed => server.state,
        _ => ServerState::NodeUnreachable,
    }
}

/// The address to probe for a server: its own, or loopback of the same
/// family when it listens on the unspecified address.
pub open spec fn probe_ip(ip: IpAddress) -> IpAddress {
    match ip {
        IpAddress::V4(v) => if v == 0 {
            IpAddress::V4(0x7f00_0001)
        } else {
            ip
        },
        IpAddress::V6(v) => if v == 0 {
            IpAddress::V6(1)
        } else {
            ip
        },
    }
}

/// Law: a server listening on the unspecified address of its family is
/// probed on that family's loopback address (127.0.0.1 or ::1); any other
/// address is probed as it is.
pub proof fn probe_loopback(ip: IpAddress)
    ensures
        ip == IpAddress::V4(0) ==> probe_ip(ip) == IpAddress::V4(0x7f00_0001),
        ip == IpAddress::V6(0) ==> probe_ip(ip) == IpAddress::V6(1),
        !ip.spec_is_unspecified() ==> probe_ip(ip) == ip,
        (probe_ip(ip) is V6) == (ip is V6),
{
}

/// The address to probe for a server listening on `ip`.
pub fn connect_ip(ip: IpAddress) -> (r: IpAddress)
    ensures
        r == probe_ip(ip),
{
    match ip {
        IpAddress::V4(0) => IpAddress::V4(0x7f00_0001),
        IpAddress::V6(0) => IpAddress::V6(1),
        value => value,
    }
}

/// `after` is `before` with the state (and, when `clear_autostart`, the
/// autostart flag) of server `i` replaced when `replace` holds.
pub open spec fn server_updated(
    before: SnapshotServer,
    after: SnapshotServer,
    replace: bool,
    state: ServerState,
    clear_autostart: bool,
) -> bool {
    &&& after.server_uuid == before.server_uuid
    &&& after.server_name == before.server_name
    &&& after.node_name == before.node_name
    &&& after.allocation_ip == before.allocation_ip
    &&& after.allocation_port == before.allocation_port
    &&& after.state == (if replace {
        state
    } else {
        before.state
    })
    &&& after.autostart_on_join == (if replace && clear_autostart {
        false
    } else {
        before.autostart_on_join
    })
}

fn update_running(
    servers: &mut Vec<SnapshotServer>,
    ready: &[bool],
    state: ServerState,
    clear_autostart: bool,
)
    requires
        old(servers)@.len() == ready@.len(),
    ensures
        final(servers)@.len() == old(servers)@.len(),
        forall|i: int|
            0 <= i < old(servers)@.len() ==> server_updated(
                #[trigger] old(servers)@[i],
                final(servers)@[i],
                old(servers)@[i].state == ServerState::Running && !ready@[i],
                state,
                clear_autostart,
            ),
{
    let ghost before = servers@;
    let mut i: usize = 0;
    while i < servers.len()
        invariant
            i <= servers@.len(),
            servers@.len() == before.len(),
            before.len() == ready@.len(),
            forall|j: int|
                0 <= j < i ==> server_updated(
                    #[trigger] before[j],
                    servers@[j],
                    before[j].state == ServerState::Running && !ready@[j],
                    state,
                    clear_autostart,
                ),
            forall|j: int| i <= j < before.len() ==> #[trigger] servers@[j] == before[j],
        decreases servers@.len() - i,
    {
        if servers[i].state == ServerState::Running && !ready[i] {
            servers[i].state = state;
            if clear_autostart {
                servers[i].autostart_on_join = false;
            }
        }
        i = i + 1;
    }
}

/// Marks running servers whose game port did not answer as starting.
/// `ready[i]` tells whether server `i` accepted a connection.
pub fn mark_unready_as_starting(servers: &mut Vec<SnapshotServer>, ready: &[bool])
    requires
        old(servers)@.len() == ready@.len(),
    ensures
        final(servers)@.len() == old(servers)@.len(),
        forall|i: int|
            0 <= i < old(servers)@.len() ==> server_updated(
                #[trigger] old(servers)@[i],
                final(servers)@[i],
                old(servers)@[i].state == ServerState::Running && !ready@[i],
                ServerState::Starting,
                false,
            ),
{
    update_running(servers, ready, ServerState::Starting, false);
}

/// On a stale snapshot, marks running servers whose game port did not answer
/// as node-unreachable and stops them from being woken.
pub fn mark_unready_as_unreachable(servers: &mut Vec<SnapshotServer>, ready: &[bool])
    requires
        old(servers)@.len() == ready@.len(),
    ensures
        final(servers)@.len() == old(servers)@.len(),
        forall|i: int|
            0 <= i < old(servers)@.len() ==> server_updated(
                #[trigger] old(servers)@[i],
                final(servers)@[i],
                old(servers)@[i].state == ServerState::Running && !ready@[i],
                ServerState::NodeUnreachable,
                true,
            ),
{
    update_running(servers, ready, ServerState::NodeUnreachable, true);
}

/// Accepts a snapshot only when it is for this agent's node.
pub fn check_snapshot_node(snapshot_node: u128, config_node: u128) -> (r: Result<(), SessionError>)
    ensures
        r is Ok <==> snapshot_node == config_node,
        r is Err ==> r == Err::<(), SessionError>(SessionError::WrongNode),
{
    if snapshot_node != config_node {
        Err(SessionError::WrongNode)
    } else {
        Ok(())
    }
}

/// Whether a snapshot received `elapsed_seconds` (whole seconds) ago is
/// stale.
pub fn is_stale(elapsed_seconds: u64, stale_after_seconds: u64) -> (r: bool)
    ensures
        r == (elapsed_seconds >= stale_after_seconds),
{
    elapsed_seconds >= stale_after_seconds
}

/// Whether a heartbeat is due `elapsed_seconds` (whole seconds) after the
/// last successful one.
pub fn heartbeat_due(elapsed_seconds: u64) -> (r: bool)
    ensures
        r == (elapsed_seconds >= HEARTBEAT_INTERVAL_SECONDS),
{
    elapsed_seconds >= HEARTBEAT_INTERVAL_SECONDS
}

/// What a poll round keeps and sends once its firewall update is done.
#[derive(Debug, Clone, Copy, PartialEq, Eq, Structural)]
pub struct PollOutcome {
    /// Replace the cached snapshot with this round's.
    pub store_snapshot: bool,
    /// Send a heartbeat to the panel.
    pub send_heartbeat: bool,
}

/// Whether a heartbeat is due, `since_heartbeat` whole seconds after the
/// last successful one (`None` before the first).
pub open spec fn heartbeat_is_due(since_heartbeat: Option<u64>) -> bool {
    match since_heartbeat {
        None => true,
        Some(s) => s >= HEARTBEAT_INTERVAL_SECONDS,
    }
}

/// The end of a poll round. After a fresh snapshot (`fetched`), it is
/// cached, and a heartbeat sent when due, only when the firewall was
/// reconciled. After a failed fetch that re-marked a stale snapshot, the
/// re-marked snapshot is cached whatever the firewall did, and no heartbeat
/// is sent.
pub fn poll_outcome(fetched: bool, reconciled: bool, since_heartbeat: Option<u64>) -> (r:
    PollOutcome)
    ensures
        r.store_snapshot == (!fetched || reconciled),
        r.send_heartbeat == (fetched && reconciled && heartbeat_is_due(since_heartbeat)),
{
    if !fetched {
        return PollOutcome { store_snapshot: true, send_heartbeat: false };
    }
    if !reconciled {
        return PollOutcome { store_snapshot: false, send_heartbeat: false };
    }
    let due = match since_heartbeat {
        None => true,
        Some(s) => heartbeat_due(s),
    };
    PollOutcome { store_snapshot: true, send_heartbeat: due }
}

/// Whether a failed fetch re-marks the cached snapshot: only when one is
/// cached and it is stale, `cached_age` being its age in whole seconds.
pub fn stale_refresh_due(cached_age: Option<u64>, stale_after_seconds: u64) -> (r: bool)
    ensures
        r == match cached_age {
            Some(age) => age >= stale_after_seconds,
            None => false,
        },
{
    match cached_age {
        Some(age) => is_stale(age, stale_after_seconds),
        None => false,
    }
}

/// What to do with an intercepted connection.
#[derive(Debug, Clone, Copy, PartialEq, Eq, Structural)]
pub enum ConnectionAction {
    /// Answer the Server List Ping.
    Status,
    /// Disconnect the login; ask the panel to start the server first when
    /// `wake` holds.
    Login { wake: bool },
}

/// The decision for an intercepted connection.
#[derive(Debug, Clone, Copy, PartialEq, Eq, Structural)]
pub struct ConnectionPlan {
    /// Position of the server in the snapshot.
    pub server_index: usize,
    /// The state to present.
    pub state: ServerState,
    pub action: ConnectionAction,
}

/// `i` is the first server that owns the destination `original`.
pub open spec fn is_first_match(servers: Seq<SnapshotServer>, original: Allocation, i: int) -> bool {
    &&& 0 <= i < servers.len()
    &&& matches_allocation(original, servers[i])
    &&& forall|j: int| 0 <= j < i ==> !matches_allocation(original, #[trigger] servers[j])
}

/// The state presented for a server: its shown state, with running
/// reported as starting (the game port is not yet reachable through the
/// agent's redirect).
pub open spec fn presented_state(state: ServerState, stale: bool) -> ServerState {
    let shown = shown_state(state, stale);
    if shown == ServerState::Running {
        ServerState::Starting
    } else {
        shown
    }
}

/// The decision for a connection: refused on an empty address, a port that
/// differs from the destination's, a missing snapshot or an unmanaged
/// destination; otherwise the status answer or a login disconnect that
/// wakes offline autostart servers while the snapshot is fresh.
pub open spec fn connection_decision(
    address: Seq<char>,
    handshake_port: u16,
    next_state: i32,
    original: Allocation,
    snapshot: Option<Snapshot>,
    stale: bool,
) -> Result<ConnectionPlan, SessionError> {
    if address.len() == 0 {
        Err(SessionError::EmptyServerAddress)
    } else if handshake_port != original.port {
        Err(SessionError::PortMismatch)
    } else {
        match snapshot {
            None => Err(SessionError::NoSnapshot),
            Some(snap) => {
                if exists|i: int| is_first_match(snap.servers@, original, i) {
                    let i = choose|i: int| is_first_match(snap.servers@, original, i);
                    let server = snap.servers@[i];
                    let state = presented_state(server.state, stale);
                    Ok(
                        ConnectionPlan {
                            server_index: i as usize,
                            state,
                            action: if next_state == 1 {
                                ConnectionAction::Status
                            } else {
                                ConnectionAction::Login {
                                    wake: state == ServerState::Offline && server.autostart_on_join
                                        && !stale,
                                }
                            },
                        },
                    )
                } else {
                    Err(SessionError::UnmanagedAllocation)
                }
            },
        }
    }
}

proof fn lemma_first_match_unique(servers: Seq<SnapshotServer>, original: Allocation, i: int, k: int)
    requires
        is_first_match(servers, original, i),
        is_first_match(servers, original, k),
    ensures
        i == k,
{
    if i < k {
        assert(!matches_allocation(original, servers[i]));
    } else if k < i {
        assert(!matches_allocation(original, servers[k]));
    }
}

/// Decides what to do with a connection whose handshake was parsed, whose
/// destination was `original`, given the latest snapshot and whether it is
/// stale.
pub fn plan_connection(
    handshake: &Handshake,
    original: Allocation,
    snapshot: Option<&Snapshot>,
    stale: bool,
) -> (r: Result<ConnectionPlan, SessionError>)
    ensures
        r == connection_decision(
            handshake.server_address@,
            handshake.server_port,
            handshake.next_state,
            original,
            match snapshot {
                Some(s) => Some(*s),
                None => None,
            },
            stale,
        ),
        r matches Ok(plan) ==> plan.server_index < snapshot->0.servers@.len(),
{
    if handshake.server_address.as_str().is_empty() {
        return Err(SessionError::EmptyServerAddress);
    }
    if handshake.server_port != original.port {
        return Err(SessionError::PortMismatch);
    }
    let snap = match snapshot {
        Some(s) => s,
        None => return Err(SessionError::NoSnapshot),
    };
    let servers = &snap.servers;
    assert(snapshot == Some(snap));
    let mut i: usize = 0;
    while i < servers.len()
        invariant
            i <= servers@.len(),
            snapshot == Some(snap),
            servers@ == snap.servers@,
            handshake.server_address@.len() != 0,
            handshake.server_port == original.port,
            forall|j: int| 0 <= j < i ==> !matches_allocation(original, #[trigger] servers@[j]),
        decreases servers@.len() - i,
    {
        if allocation_matches(original, &servers[i]) {
            proof {
                assert(is_first_match(servers@, original, i as int));
                let k = choose|k: int| is_first_match(servers@, original, k);
                lemma_first_match_unique(servers@, original, i as int, k);
            }
            let server = &servers[i];
            let mut state = stale_state(server, stale);
            if state == ServerState::Running {
                state = ServerState::Starting;
            }
            let action = if handshake.next_state == 1 {
                ConnectionAction::Status
            } else {
                ConnectionAction::Login {
                    wake: state == ServerState::Offline && server.autostart_on_join && !stale,
                }
            };
            let plan = ConnectionPlan { server_index: i, state, action };
            assert(state == presented_state(servers@[i as int].state, stale));
            return Ok(plan);
        }
        i = i + 1;
    }
    assert(!exists|k: int| is_first_match(servers@, original, k));
    Err(SessionError::UnmanagedAllocation)
}

/// Law: a Server List Ping is answered with the status and never wakes a
/// server.
pub proof fn status_ping_never_wakes(
    address: Seq<char>,
    handshake_port: u16,
    original: Allocation,
    snapshot: Option<Snapshot>,
    stale: bool,
)
    ensures
        connection_decision(address, handshake_port, 1, original, snapshot, stale) matches Ok(plan)
            ==> plan.action == ConnectionAction::Status,
{
}

/// Law: a login asks the panel to start the server exactly when the server
/// is presented as offline, has autostart on join, and the snapshot is fresh.
pub proof fn login_wakes_only_fresh_offline_autostart(
    address: Seq<char>,
    handshake_port: u16,
    next_state: i32,
    original: Allocation,
    snapshot: Snapshot,
    stale: bool,
)
    ensures
        connection_decision(address, handshake_port, next_state, original, Some(snapshot), stale)
            matches Ok(plan) ==> (plan.action == (ConnectionAction::Login { wake: true }) <==> (
        next_state != 1 && !stale && plan.state == ServerState::Offline
            && snapshot.servers@[plan.server_index as int].autostart_on_join)),
{
    if exists|i: int| is_first_match(snapshot.servers@, original, i) {
        let i = choose|i: int| is_first_match(snapshot.servers@, original, i);
        assert(snapshot.servers.len() == snapshot.servers@.len());
        assert((i as usize) as int == i);
    }
}

/// Law: while the snapshot is stale, no login wakes a server, and every
/// server is presented in its administrative state or as node-unreachable.
pub proof fn stale_snapshot_shows_unreachable(
    address: Seq<char>,
    handshake_port: u16,
    next_state: i32,
    original: Allocation,
    snapshot: Option<Snapshot>,
)
    ensures
        connection_decision(address, handshake_port, next_state, original, snapshot, true) matches Ok(
            plan,
        ) ==> plan.action != (ConnectionAction::Login { wake: true }) && (is_administrative(plan.state)
            || plan.state == ServerState::NodeUnreachable),
{
}

/// Law: marking running servers whose game port did not answer (as starting,
/// or as node-unreachable on a stale snapshot) never drops a redirect, and
/// redirects every such server not on the agent's own port.
pub proof fn marking_unready_keeps_redirects(
    before: Snapshot,
    after: Snapshot,
    ready: Seq<bool>,
    state: ServerState,
    clear_autostart: bool,
    listen_port: u16,
)
    requires
        state != ServerState::Running,
        after.settings.enabled == before.settings.enabled,
        after.servers@.len() == before.servers@.len(),
        ready.len() == before.servers@.len(),
        forall|i: int|
            0 <= i < before.servers@.len() ==> server_updated(
                #[trigger] before.servers@[i],
                after.servers@[i],
                before.servers@[i].state == ServerState::Running && !ready[i],
                state,
                clear_autostart,
            ),
    ensures
        desired_set(before, listen_port).subset_of(desired_set(after, listen_port)),
        forall|i: int|
            0 <= i < before.servers@.len() && before.servers@[i].state == ServerState::Running
                && !ready[i] && before.servers@[i].allocation_port != listen_port
                && before.settings.enabled ==> desired_set(after, listen_port).contains(
                allocation_of(#[trigger] before.servers@[i]),
            ),
{
    assert forall|a: Allocation| desired_set(before, listen_port).contains(a) implies desired_set(
        after,
        listen_port,
    ).contains(a) by {
        let i = choose|i: int|
            0 <= i < before.servers@.len() && is_intercepted(#[trigger] before.servers@[i], listen_port)
                && allocation_of(before.servers@[i]) == a;
        assert(server_updated(before.servers@[i], after.servers@[i], false, state, clear_autostart));
        assert(is_intercepted(after.servers@[i], listen_port));
    }
    assert forall|i: int|
        0 <= i < before.servers@.len() && before.servers@[i].state == ServerState::Running
            && !ready[i] && before.servers@[i].allocation_port != listen_port
            && before.settings.enabled implies desired_set(after, listen_port).contains(
        allocation_of(#[trigger] before.servers@[i]),
    ) by {
        assert(is_intercepted(after.servers@[i], listen_port));
        assert(allocation_of(after.servers@[i]) == allocation_of(before.servers@[i]));
    }
}

/// The wake request for a server.
pub fn wake_request(server: &SnapshotServer) -> (r: WakeRequest)
    ensures
        r.server_uuid == server.server_uuid,
        r.allocation_port == server.allocation_port,
{
    WakeRequest { server_uuid: server.server_uuid, allocation_port: server.allocation_port }
}

/// The panel's answer means the server is (or is about to be) starting: it
/// was started, it was not offline, or a wake is already under way.
pub open spec fn wake_means_starting(started: bool, reason: Seq<char>) -> bool {
    started || reason == "not_offline"@ || reason == "disabled_or_throttled"@
}

/// The state presented after a wake attempt: starting when the panel's answer
/// says so, otherwise unchanged (also when the request failed).
pub fn state_after_wake(state: ServerState, response: Option<&WakeResponse>) -> (r: ServerState)
    ensures
        r == match response {
            Some(w) => if wake_means_starting(w.started, w.reason@) {
                ServerState::Starting
            } else {
                state
            },
            None => state,
        },
{
    match response {
        Some(w) => {
            if w.started || w.reason == "not_offline".to_owned() || w.reason
                == "disabled_or_throttled".to_owned() {
                ServerState::Starting
            } else {
                state
            }
        },
        None => state,
    }
}

} // verus!
