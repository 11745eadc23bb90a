//! The extension's settings: defaults for every intercepted state and the
//! rules a saved configuration must follow.
use vstd::prelude::*;
use vstd::utf8::encode_utf8;
use base64::Engine;
use crate::backend::state::EffectiveState;
use crate::text::{chars_of, find_key, key_index, keys_unique, push_all, string_of};
use crate::agent::presentation::{base64_standard_decoding, color_value};

verus! {

/// Number of intercepted states (every state but running).
pub const STATE_COUNT: usize = 11;

/// Shortest accepted rotation interval, in seconds.
pub const MIN_ROTATION_SECONDS: u64 = 1;

/// Longest accepted rotation interval, in seconds.
pub const MAX_ROTATION_SECONDS: u64 = 3600;

/// Largest accepted favicon, in bytes of base64 text.
pub const MAX_FAVICON_LENGTH: usize = 350000;

/// Side of the square favicon, in pixels.
pub const FAVICON_SIDE: u32 = 64;

/// Law: descriptions rotate every 1 to 3600 seconds, a favicon text has at
/// most 350000 bytes and a 64 by 64 pixel image, and every state but running
/// has a presentation.
pub proof fn settings_limits()
    ensures
        MIN_ROTATION_SECONDS == 1,
        MAX_ROTATION_SECONDS == 3600,
        MAX_FAVICON_LENGTH == 350000,
        FAVICON_SIDE == 64,
        STATE_COUNT == 11,
{
}

/// The snake_case key of a state.
pub open spec fn effective_key(state: EffectiveState) -> Seq<char> {
    match state {
        EffectiveState::Offline => "offline"@,
        EffectiveState::Starting => "starting"@,
        EffectiveState::Stopping => "stopping"@,
        EffectiveState::Running => "running"@,
        EffectiveState::Suspended => "suspended"@,
        EffectiveState::NodeMaintenance => "node_maintenance"@,
        EffectiveState::Transferring => "transferring"@,
        EffectiveState::Installing => "installing"@,
        EffectiveState::InstallFailed => "install_failed"@,
        EffectiveState::RestoringBackup => "restoring_backup"@,
        EffectiveState::BackupRestoreFailed => "backup_restore_failed"@,
        EffectiveState::NodeUnreachable => "node_unreachable"@,
    }
}

impl EffectiveState {
    /// The snake_case key of this state.
    pub fn key(self) -> (r: &'static str)
        ensures
            r@ == effective_key(self),
    {
        match self {
            EffectiveState::Offline => "offline",
            EffectiveState::Starting => "starting",
            EffectiveState::Stopping => "stopping",
            EffectiveState::Running => "running",
            EffectiveState::Suspended => "suspended",
            EffectiveState::NodeMaintenance => "node_maintenance",
            EffectiveState::Transferring => "transferring",
            EffectiveState::Installing => "installing",
            EffectiveState::InstallFailed => "install_failed",
            EffectiveState::RestoringBackup => "restoring_backup",
            EffectiveState::BackupRestoreFailed => "backup_restore_failed",
            EffectiveState::NodeUnreachable => "node_unreachable",
        }
    }
}

/// The intercepted states in settings order.
pub open spec fn intercepted_state(i: int) -> EffectiveState {
    if i == 0 {
        EffectiveState::Offline
    } else if i == 1 {
        EffectiveState::Starting
    } else if i == 2 {
        EffectiveState::Stopping
    } else if i == 3 {
        EffectiveState::Suspended
    } else if i == 4 {
        EffectiveState::NodeMaintenance
    } else if i == 5 {
        EffectiveState::Transferring
    } else if i == 6 {
        EffectiveState::Installing
    } else if i == 7 {
        EffectiveState::InstallFailed
    } else if i == 8 {
        EffectiveState::RestoringBackup
    } else if i == 9 {
        EffectiveState::BackupRestoreFailed
    } else {
        EffectiveState::NodeUnreachable
    }
}

proof fn lemma_state_keys_distinct(a: EffectiveState, b: EffectiveState)
    requires
        a != b,
    ensures
        effective_key(a) != effective_key(b),
{
    reveal_strlit("offline");
    reveal_strlit("starting");
    reveal_strlit("stopping");
    reveal_strlit("running");
    reveal_strlit("suspended");
    reveal_strlit("node_maintenance");
    reveal_strlit("transferring");
    reveal_strlit("installing");
    reveal_strlit("install_failed");
    reveal_strlit("restoring_backup");
    reveal_strlit("backup_restore_failed");
    reveal_strlit("node_unreachable");
    let ka = effective_key(a);
    let kb = effective_key(b);
    if ka.len() == kb.len() {
        assert(ka[0] != kb[0] || ka[1] != kb[1] || ka[2] != kb[2] || ka[5] != kb[5]);
    }
}

proof fn lemma_intercepted_keys_unique(states: Seq<(String, MotdStateSettings)>)
    requires
        states.len() == STATE_COUNT,
        forall|i: int|
            0 <= i < STATE_COUNT ==> (#[trigger] states[i]).0@ == effective_key(intercepted_state(i)),
    ensures
        keys_unique(states),
{
    assert forall|i: int, j: int| 0 <= i < j < states.len() implies #[trigger] states[i].0@
        != #[trigger] states[j].0@ by {
        assert(intercepted_state(i) != intercepted_state(j));
        lemma_state_keys_distinct(intercepted_state(i), intercepted_state(j));
    }
}

/// The intercepted state at position `i` in settings order.
pub fn state_at(i: usize) -> (r: EffectiveState)
    requires
        i < STATE_COUNT,
    ensures
        r == intercepted_state(i as int),
{
    match i {
        0 => EffectiveState::Offline,
        1 => EffectiveState::Starting,
        2 => EffectiveState::Stopping,
        3 => EffectiveState::Suspended,
        4 => EffectiveState::NodeMaintenance,
        5 => EffectiveState::Transferring,
        6 => EffectiveState::Installing,
        7 => EffectiveState::InstallFailed,
        8 => EffectiveState::RestoringBackup,
        9 => EffectiveState::BackupRestoreFailed,
        _ => EffectiveState::NodeUnreachable,
    }
}

/// The keys of the intercepted states, in settings order.
pub fn state_names() -> (r: Vec<&'static str>)
    ensures
        r@.len() == STATE_COUNT,
        forall|i: int| 0 <= i < STATE_COUNT ==> #[trigger] r@[i]@ == effective_key(intercepted_state(i)),
{
    let mut names: Vec<&'static str> = Vec::new();
    let mut i: usize = 0;
    while i < STATE_COUNT
        invariant
            i <= STATE_COUNT,
            names@.len() == i,
            forall|j: int| 0 <= j < i ==> #[trigger] names@[j]@ == effective_key(intercepted_state(j)),
        decreases STATE_COUNT - i,
    {
        names.push(state_at(i).key());
        i = i + 1;
    }
    names
}

/// Presentation of one state.
#[derive(Debug, Clone)]
pub struct MotdStateSettings {
    pub version: String,
    pub protocol: Option<i32>,
    pub online_players: i32,
    pub max_players: i32,
    pub descriptions: Vec<String>,
    pub kick_message: String,
}

/// The built-in two-line text of a state: the colour code, bold version name,
/// a line break, and the grey message.
pub open spec fn preset_text(version: Seq<char>, color: Seq<char>, message: Seq<char>) -> Seq<char> {
    color + "§l"@ + version + "\n§7"@ + message
}

/// `s` is the built-in presentation with this version name, colour and
/// message.
pub open spec fn is_preset(
    s: MotdStateSettings,
    version: Seq<char>,
    color: Seq<char>,
    message: Seq<char>,
) -> bool {
    &&& s.version@ == version
    &&& s.protocol is None
    &&& s.online_players == 0
    &&& s.max_players == 0
    &&& s.descriptions@.len() == 1
    &&& s.descriptions@[0]@ == preset_text(version, color, message)
    &&& s.kick_message@ == preset_text(version, color, message)
}

fn concat(parts: &Vec<&str>) -> (r: String)
    ensures
        r@ == parts@.fold_left(Seq::<char>::empty(), |acc: Seq<char>, p: &str| acc + p@),
{
    let mut out: Vec<char> = Vec::new();
    let mut i: usize = 0;
    while i < parts.len()
        invariant
            i <= parts@.len(),
            out@ == parts@.take(i as int).fold_left(
                Seq::<char>::empty(),
                |acc: Seq<char>, p: &str| acc + p@,
            ),
        decreases parts@.len() - i,
    {
        let piece = chars_of(parts[i]);
        push_all(&mut out, &piece);
        assert(parts@.take(i + 1).drop_last() =~= parts@.take(i as int));
        i = i + 1;
    }
    assert(parts@.take(i as int) =~= parts@);
    string_of(&out)
}

impl MotdStateSettings {
    /// The built-in presentation with this version name, colour and message.
    pub fn new(version: &str, color: &str, message: &str) -> (r: Self)
        ensures
            is_preset(r, version@, color@, message@),
    {
        let text = concat(&vec![color, "§l", version, "\n§7", message]);
        let kick = concat(&vec![color, "§l", version, "\n§7", message]);
        proof {
            let parts = seq![color, "§l", version, "\n§7", message];
            reveal_with_fuel(Seq::fold_left, 6);
            assert(parts.fold_left(Seq::<char>::empty(), |acc: Seq<char>, p: &str| acc + p@)
                =~= preset_text(version@, color@, message@));
        }
        MotdStateSettings {
            version: version.to_owned(),
            protocol: None,
            online_players: 0,
            max_players: 0,
            descriptions: vec![text],
            kick_message: kick,
        }
    }
}

/// The extension's settings.
#[derive(Debug, Clone)]
pub struct ExtensionSettingsData {
    pub enabled: bool,
    pub all_allocations: bool,
    pub rotation_interval_seconds: u64,
    pub swap_lines: bool,
    pub gradient_enabled: bool,
    pub gradient_colors: Vec<String>,
    pub favicon_base64: Option<String>,
    pub excluded_egg_uuids: Vec<u128>,
    pub excluded_server_uuids: Vec<u128>,
    /// Presentation per state key, in insertion order; each key at most once
    /// (`keys_unique`), as the defaults ensure.
    pub states: Vec<(String, MotdStateSettings)>,
}

/// The built-in version name, colour code and message of an intercepted
/// state.
pub open spec fn default_preset(state: EffectiveState) -> (Seq<char>, Seq<char>, Seq<char>) {
    match state {
        EffectiveState::Offline => ("Offline"@, "§c"@, "This server is currently offline."@),
        EffectiveState::Starting => (
            "Starting"@,
            "§a"@,
            "The server is waking up. Please reconnect shortly."@,
        ),
        EffectiveState::Stopping => ("Stopping"@, "§6"@, "The server is shutting down."@),
        EffectiveState::Suspended => (
            "Suspended"@,
            "§c"@,
            "Please contact the server administrator."@,
        ),
        EffectiveState::NodeMaintenance => (
            "Maintenance"@,
            "§e"@,
            "The node is currently under maintenance."@,
        ),
        EffectiveState::Transferring => (
            "Transferring"@,
            "§b"@,
            "The server is being transferred."@,
        ),
        EffectiveState::Installing => (
            "Installing"@,
            "§b"@,
            "The server is currently being installed."@,
        ),
        EffectiveState::InstallFailed => (
            "Install Failed"@,
            "§c"@,
            "The server installation failed."@,
        ),
        EffectiveState::RestoringBackup => (
            "Restoring Backup"@,
            "§d"@,
            "A backup is currently being restored."@,
        ),
        EffectiveState::BackupRestoreFailed => (
            "Restore Failed"@,
            "§c"@,
            "The backup restore failed."@,
        ),
        _ => ("Node Unreachable"@, "§4"@, "The node is temporarily unreachable."@),
    }
}

fn preset_for(state: EffectiveState) -> (r: MotdStateSettings)
    ensures
        is_preset(r, default_preset(state).0, default_preset(state).1, default_preset(state).2),
{
    match state {
        EffectiveState::Offline => MotdStateSettings::new(
            "Offline",
            "§c",
            "This server is currently offline.",
        ),
        EffectiveState::Starting => MotdStateSettings::new(
            "Starting",
            "§a",
            "The server is waking up. Please reconnect shortly.",
        ),
        EffectiveState::Stopping => MotdStateSettings::new(
            "Stopping",
            "§6",
            "The server is shutting down.",
        ),
        EffectiveState::Suspended => MotdStateSettings::new(
            "Suspended",
            "§c",
            "Please contact the server administrator.",
        ),
        EffectiveState::NodeMaintenance => MotdStateSettings::new(
            "Maintenance",
            "§e",
            "The node is currently under maintenance.",
        ),
        EffectiveState::Transferring => MotdStateSettings::new(
            "Transferring",
            "§b",
            "The server is being transferred.",
        ),
        EffectiveState::Installing => MotdStateSettings::new(
            "Installing",
            "§b",
            "The server is currently being installed.",
        ),
        EffectiveState::InstallFailed => MotdStateSettings::new(
            "Install Failed",
            "§c",
            "The server installation failed.",
        ),
        EffectiveState::RestoringBackup => MotdStateSettings::new(
            "Restoring Backup",
            "§d",
            "A backup is currently being restored.",
        ),
        EffectiveState::BackupRestoreFailed => MotdStateSettings::new(
            "Restore Failed",
            "§c",
            "The backup restore failed.",
        ),
        _ => MotdStateSettings::new(
            "Node Unreachable",
            "§4",
            "The node is temporarily unreachable.",
        ),
    }
}

/// The default settings: enabled, primary allocations only, ten-second
/// rotation, no line swap, gradient off with cyan-to-amber colours, the
/// built-in icon, nothing excluded, and a built-in presentation for every
/// intercepted state, in the order of the state priority, each key once.
pub open spec fn is_default_settings(r: ExtensionSettingsData) -> bool {
    &&& r.enabled
    &&& !r.all_allocations
    &&& r.rotation_interval_seconds == 10
    &&& !r.swap_lines
    &&& !r.gradient_enabled
    &&& r.gradient_colors@.len() == 2
    &&& r.gradient_colors@[0]@ == "#22d3ee"@
    &&& r.gradient_colors@[1]@ == "#f59e0b"@
    &&& r.favicon_base64 is None
    &&& r.excluded_egg_uuids@.len() == 0
    &&& r.excluded_server_uuids@.len() == 0
    &&& r.states@.len() == STATE_COUNT
    &&& keys_unique(r.states@)
    &&& forall|i: int|
        0 <= i < STATE_COUNT ==> {
            let preset = default_preset(intercepted_state(i));
            &&& (#[trigger] r.states@[i]).0@ == effective_key(intercepted_state(i))
            &&& is_preset(r.states@[i].1, preset.0, preset.1, preset.2)
        }
}

impl Default for ExtensionSettingsData {
    /// The default settings.
    fn default() -> (r: Self)
        ensures
            is_default_settings(r),
    {
        let mut states: Vec<(String, MotdStateSettings)> = Vec::new();
        let mut i: usize = 0;
        while i < STATE_COUNT
            invariant
                i <= STATE_COUNT,
                states@.len() == i,
                forall|j: int|
                    0 <= j < i ==> {
                        let preset = default_preset(intercepted_state(j));
                        &&& (#[trigger] states@[j]).0@ == effective_key(intercepted_state(j))
                        &&& is_preset(states@[j].1, preset.0, preset.1, preset.2)
                    },
            decreases STATE_COUNT - i,
        {
            let state = state_at(i);
            states.push((state.key().to_owned(), preset_for(state)));
            i = i + 1;
        }
        proof {
            lemma_intercepted_keys_unique(states@);
        }
        ExtensionSettingsData {
            enabled: true,
            all_allocations: false,
            rotation_interval_seconds: 10,
            swap_lines: false,
            gradient_enabled: false,
            gradient_colors: vec!["#22d3ee".to_owned(), "#f59e0b".to_owned()],
            favicon_base64: None,
            excluded_egg_uuids: Vec::new(),
            excluded_server_uuids: Vec::new(),
            states,
        }
    }
}

/// Why a settings update was refused.
#[derive(Debug, Clone, Copy, PartialEq, Eq, Structural)]
pub enum SettingsError {
    /// The rotation interval is outside 1..=3600 seconds.
    RotationIntervalOutOfRange,
    /// An intercepted state has no presentation.
    MissingState(EffectiveState),
    /// An intercepted state has no description.
    NoDescriptions(EffectiveState),
    /// A player count is negative.
    NegativePlayerCounts,
    /// A gradient colour is not `#RRGGBB`.
    InvalidGradientColor,
    /// The favicon text is longer than [`MAX_FAVICON_LENGTH`] bytes.
    FaviconTooLarge,
    /// The favicon is not standard base64.
    FaviconNotBase64,
    /// The favicon is not a PNG image.
    FaviconNotPng,
    /// The favicon is not 64 by 64 pixels.
    FaviconWrongSize,
}

/// The problem with the presentation of one intercepted state, if any.
pub open spec fn state_problem(states: Seq<(String, MotdStateSettings)>, state: EffectiveState) -> Option<
    SettingsError,
> {
    let i = key_index(states, effective_key(state));
    if i < 0 {
        Some(SettingsError::MissingState(state))
    } else if states[i].1.descriptions@.len() == 0 {
        Some(SettingsError::NoDescriptions(state))
    } else if states[i].1.max_players < 0 || states[i].1.online_players < 0 {
        Some(SettingsError::NegativePlayerCounts)
    } else {
        None
    }
}

/// The first problem among the intercepted states from position `k` on.
pub open spec fn states_problem(states: Seq<(String, MotdStateSettings)>, k: nat) -> Option<
    SettingsError,
>
    decreases STATE_COUNT - k,
{
    if k >= STATE_COUNT {
        None
    } else {
        match state_problem(states, intercepted_state(k as int)) {
            Some(e) => Some(e),
            None => states_problem(states, k + 1),
        }
    }
}

/// Whether `b` is an ASCII hexadecimal digit.
pub open spec fn is_hex_byte(b: u8) -> bool {
    (0x30 <= b <= 0x39) || (0x41 <= b <= 0x46) || (0x61 <= b <= 0x66)
}

/// Law: a gradient colour passes validation exactly when it is `#` followed
/// by six ASCII hexadecimal digits, `0`-`9`, `a`-`f` or `A`-`F`; and every
/// colour that passes is one the agent reads as a colour.
pub proof fn gradient_color_rule(b: Seq<u8>)
    ensures
        is_color_text(b) <==> (b.len() == 7 && b[0] == 0x23 && forall|j: int|
            1 <= j < 7 ==> (0x30 <= #[trigger] b[j] <= 0x39 || 0x41 <= b[j] <= 0x46 || 0x61 <= b[j]
                <= 0x66)),
        is_color_text(b) ==> color_value(b) is Some,
{
    if is_color_text(b) {
        assert(is_hex_byte(b[1]) && is_hex_byte(b[2]) && is_hex_byte(b[3]));
        assert(is_hex_byte(b[4]) && is_hex_byte(b[5]) && is_hex_byte(b[6]));
    }
}

/// Whether the UTF-8 bytes `b` spell `#RRGGBB`.
pub open spec fn is_color_text(b: Seq<u8>) -> bool {
    &&& b.len() == 7
    &&& b[0] == 0x23
    &&& forall|j: int| 1 <= j < 7 ==> is_hex_byte(#[trigger] b[j])
}

/// `base64::engine::general_purpose::STANDARD.decode`: the bytes whose
/// standard padded base64 text is `text`, or `None` when there are none (the
/// engine accepts only the alphabet, canonical padding, and no set bits left
/// over in the last symbol, which is exactly the set of encoder outputs).
#[verifier::external_body]
fn decode_base64(text: &[u8]) -> (r: Option<Vec<u8>>)
    ensures
        match base64_standard_decoding(text@) {
            Some(bytes) => r matches Some(v) && v@ == bytes,
            None => r is None,
        },
{
    base64::engine::general_purpose::STANDARD.decode(text).ok()
}

/// The PNG file signature.
pub open spec fn png_signature() -> Seq<u8> {
    seq![0x89u8, 0x50, 0x4e, 0x47, 0x0d, 0x0a, 0x1a, 0x0a]
}

/// The `IHDR` chunk type.
pub open spec fn ihdr_tag() -> Seq<u8> {
    seq![0x49u8, 0x48, 0x44, 0x52]
}

/// The big-endian 32-bit number at `at` in `b`.
pub open spec fn be_u32(b: Seq<u8>, at: int) -> int {
    b[at] * 0x1000000 + b[at + 1] * 0x10000 + b[at + 2] * 0x100 + b[at + 3]
}

/// The problem with decoded favicon bytes, if any: not a PNG with an `IHDR`
/// header, or not 64 by 64 pixels.
pub open spec fn png_problem(png: Seq<u8>) -> Option<SettingsError> {
    if png.len() < 24 || png.take(8) != png_signature() || png.subrange(12, 16) != ihdr_tag() {
        Some(SettingsError::FaviconNotPng)
    } else if be_u32(png, 16) != FAVICON_SIDE || be_u32(png, 20) != FAVICON_SIDE {
        Some(SettingsError::FaviconWrongSize)
    } else {
        None
    }
}

/// The problem with a favicon, if any.
pub open spec fn favicon_problem(icon: Option<String>) -> Option<SettingsError> {
    match icon {
        None => None,
        Some(text) => {
            let b = encode_utf8(text@);
            if b.len() > MAX_FAVICON_LENGTH {
                Some(SettingsError::FaviconTooLarge)
            } else {
                match base64_standard_decoding(b) {
                    None => Some(SettingsError::FaviconNotBase64),
                    Some(png) => png_problem(png),
                }
            }
        },
    }
}

/// The first rule the settings break, checked in order: the rotation
/// interval, each intercepted state, the gradient colours, the favicon.
pub open spec fn settings_problem(data: ExtensionSettingsData) -> Option<SettingsError> {
    if !(MIN_ROTATION_SECONDS <= data.rotation_interval_seconds <= MAX_ROTATION_SECONDS) {
        Some(SettingsError::RotationIntervalOutOfRange)
    } else if states_problem(data.states@, 0) is Some {
        states_problem(data.states@, 0)
    } else if exists|i: int|
        0 <= i < data.gradient_colors@.len() && !is_color_text(
            encode_utf8(#[trigger] data.gradient_colors@[i]@),
        ) {
        Some(SettingsError::InvalidGradientColor)
    } else {
        favicon_problem(data.favicon_base64)
    }
}

fn hex_byte(b: u8) -> (r: bool)
    ensures
        r == is_hex_byte(b),
{
    (0x30 <= b && b <= 0x39) || (0x41 <= b && b <= 0x46) || (0x61 <= b && b <= 0x66)
}

fn color_text(b: &[u8]) -> (r: bool)
    ensures
        r == is_color_text(b@),
{
    if b.len() != 7 || b[0] != 0x23 {
        return false;
    }
    let mut j: usize = 1;
    while j < 7
        invariant
            1 <= j <= 7,
            b@.len() == 7,
            forall|k: int| 1 <= k < j ==> is_hex_byte(#[trigger] b@[k]),
        decreases 7 - j,
    {
        if !hex_byte(b[j]) {
            return false;
        }
        j = j + 1;
    }
    true
}

fn check_png(png: &[u8]) -> (r: Result<(), SettingsError>)
    ensures
        match png_problem(png@) {
            None => r is Ok,
            Some(e) => r == Err::<(), SettingsError>(e),
        },
{
    if png.len() < 24 {
        return Err(SettingsError::FaviconNotPng);
    }
    let signature: [u8; 8] = [0x89, 0x50, 0x4e, 0x47, 0x0d, 0x0a, 0x1a, 0x0a];
    let tag: [u8; 4] = [0x49, 0x48, 0x44, 0x52];
    let mut i: usize = 0;
    while i < 8
        invariant
            i <= 8,
            png@.len() >= 24,
            signature@ == png_signature(),
            forall|k: int| 0 <= k < i ==> png@[k] == png_signature()[k],
        decreases 8 - i,
    {
        if png[i] != signature[i] {
            assert(png@.take(8)[i as int] != png_signature()[i as int]);
            return Err(SettingsError::FaviconNotPng);
        }
        i = i + 1;
    }
    assert(png@.take(8) =~= png_signature());
    let mut k: usize = 0;
    while k < 4
        invariant
            k <= 4,
            png@.len() >= 24,
            tag@ == ihdr_tag(),
            png@.take(8) == png_signature(),
            forall|m: int| 0 <= m < k ==> png@[12 + m] == ihdr_tag()[m],
        decreases 4 - k,
    {
        if png[12 + k] != tag[k] {
            assert(png@.subrange(12, 16)[k as int] != ihdr_tag()[k as int]);
            return Err(SettingsError::FaviconNotPng);
        }
        k = k + 1;
    }
    assert(png@.subrange(12, 16) =~= ihdr_tag());
    let width: u32 = (png[16] as u32) * 0x1000000 + (png[17] as u32) * 0x10000 + (png[18] as u32)
        * 0x100 + png[19] as u32;
    let height: u32 = (png[20] as u32) * 0x1000000 + (png[21] as u32) * 0x10000 + (png[22] as u32)
        * 0x100 + png[23] as u32;
    if width != FAVICON_SIDE || height != FAVICON_SIDE {
        return Err(SettingsError::FaviconWrongSize);
    }
    Ok(())
}

impl ExtensionSettingsData {
    /// Checks the settings rules and reports the first one broken.
    pub fn validate(&self) -> (r: Result<(), SettingsError>)
        ensures
            match settings_problem(*self) {
                None => r is Ok,
                Some(e) => r == Err::<(), SettingsError>(e),
            },
    {
        if !(MIN_ROTATION_SECONDS <= self.rotation_interval_seconds
            && self.rotation_interval_seconds <= MAX_ROTATION_SECONDS) {
            return Err(SettingsError::RotationIntervalOutOfRange);
        }
        let mut k: usize = 0;
        while k < STATE_COUNT
            invariant
                k <= STATE_COUNT,
                MIN_ROTATION_SECONDS <= self.rotation_interval_seconds <= MAX_ROTATION_SECONDS,
                states_problem(self.states@, 0) == states_problem(self.states@, k as nat),
            decreases STATE_COUNT - k,
        {
            let state = state_at(k);
            match find_key(&self.states, state.key()) {
                None => return Err(SettingsError::MissingState(state)),
                Some(i) => {
                    let config = &self.states[i].1;
                    if config.descriptions.len() == 0 {
                        return Err(SettingsError::NoDescriptions(state));
                    }
                    if config.max_players < 0 || config.online_players < 0 {
                        return Err(SettingsError::NegativePlayerCounts);
                    }
                },
            }
            k = k + 1;
        }
        let mut c: usize = 0;
        while c < self.gradient_colors.len()
            invariant
                c <= self.gradient_colors@.len(),
                MIN_ROTATION_SECONDS <= self.rotation_interval_seconds <= MAX_ROTATION_SECONDS,
                states_problem(self.states@, 0) is None,
                forall|j: int|
                    0 <= j < c ==> is_color_text(encode_utf8(#[trigger] self.gradient_colors@[j]@)),
            decreases self.gradient_colors@.len() - c,
        {
            if !color_text(self.gradient_colors[c].as_str().as_bytes()) {
                assert(!is_color_text(encode_utf8(self.gradient_colors@[c as int]@)));
                return Err(SettingsError::InvalidGradientColor);
            }
            c = c + 1;
        }
        if let Some(icon) = &self.favicon_base64 {
            let text = icon.as_str().as_bytes();
            if text.len() > MAX_FAVICON_LENGTH {
                return Err(SettingsError::FaviconTooLarge);
            }
            let png = match decode_base64(text) {
                Some(png) => png,
                None => return Err(SettingsError::FaviconNotBase64),
            };
            return check_png(png.as_slice());
        }
        Ok(())
    }
}

/// Reads the stored settings, falling back to the defaults when none could
/// be read.
pub struct ExtensionSettingsDataDeserializer;

impl ExtensionSettingsDataDeserializer {
    /// The settings to use given what could be read from storage.
    pub fn settings_or_default(&self, stored: Option<ExtensionSettingsData>) -> (r:
        ExtensionSettingsData)
        ensures
            stored matches Some(s) ==> r == s,
            stored is None ==> is_default_settings(r),
    {
        match stored {
            Some(s) => s,
            None => ExtensionSettingsData::default(),
        }
    }
}

/// Whether a server is left alone: the extension is disabled, or the server
/// or its egg is excluded.
pub open spec fn excluded(data: ExtensionSettingsData, server_uuid: u128, egg_uuid: u128) -> bool {
    !data.enabled || data.excluded_server_uuids@.contains(server_uuid)
        || data.excluded_egg_uuids@.contains(egg_uuid)
}

/// Law: with the extension enabled, a server is excluded exactly when its
/// own id or its egg's id is listed; with it disabled, every server is.
pub proof fn exclusion_rule(data: ExtensionSettingsData, server_uuid: u128, egg_uuid: u128)
    ensures
        data.enabled ==> (excluded(data, server_uuid, egg_uuid) <==> (exists|i: int|
            0 <= i < data.excluded_server_uuids@.len() && data.excluded_server_uuids@[i]
                == server_uuid) || (exists|j: int|
            0 <= j < data.excluded_egg_uuids@.len() && data.excluded_egg_uuids@[j] == egg_uuid)),
        !data.enabled ==> excluded(data, server_uuid, egg_uuid),
{
}

fn contains_uuid(ids: &Vec<u128>, id: u128) -> (r: bool)
    ensures
        r == ids@.contains(id),
{
    let mut i: usize = 0;
    while i < ids.len()
        invariant
            i <= ids@.len(),
            forall|j: int| 0 <= j < i ==> ids@[j] != id,
        decreases ids@.len() - i,
    {
        if ids[i] == id {
            return true;
        }
        i = i + 1;
    }
    false
}

/// Whether a server is left alone by the extension.
pub fn is_excluded(settings: &ExtensionSettingsData, server_uuid: u128, egg_uuid: u128) -> (r: bool)
    ensures
        r == excluded(*settings, server_uuid, egg_uuid),
{
    !settings.enabled || contains_uuid(&settings.excluded_server_uuids, server_uuid)
        || contains_uuid(&settings.excluded_egg_uuids, egg_uuid)
}

} // verus!
