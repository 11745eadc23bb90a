//! The agent's configuration: defaults, validation and environment overrides.
use vstd::prelude::*;
use vstd::utf8::encode_utf8;
use crate::text::{
    chars_of, parse_unsigned, parsed_unsigned, string_of, trim_chars, trim_end_char,
    trim_end_matches_char, trimmed,
};

verus! {

/// Which firewall backend the agent should use.
#[derive(Debug, Clone, Copy, PartialEq, Eq, Structural)]
pub enum FirewallPreference {
    Auto,
    Nftables,
    Iptables,
}

impl Default for FirewallPreference {
    fn default() -> (r: Self)
        ensures
            r == FirewallPreference::Auto,
    {
        FirewallPreference::Auto
    }
}

/// The port the agent listens on unless configured otherwise.
pub fn default_listen_port() -> (r: u16)
    ensures
        r == 4001,
{
    4001
}

/// Seconds between snapshot polls unless configured otherwise.
pub fn default_poll_interval() -> (r: u64)
    ensures
        r == 2,
{
    2
}

/// Seconds after which an unrefreshed snapshot is stale unless configured
/// otherwise.
pub fn default_stale_after() -> (r: u64)
    ensures
        r == 15,
{
    15
}

/// Smallest accepted agent token, in bytes.
pub const MIN_AGENT_TOKEN_LENGTH: usize = 32;

/// Longest accepted poll interval, in seconds.
pub const MAX_POLL_INTERVAL: u64 = 60;

/// The agent's configuration file.
#[derive(Debug, Clone)]
pub struct AgentConfig {
    pub panel_url: String,
    pub agent_token: String,
    pub node_uuid: u128,
    pub listen_port: u16,
    pub poll_interval_seconds: u64,
    pub stale_after_seconds: u64,
    pub firewall_backend: FirewallPreference,
}

/// An environment variable the agent reads.
#[derive(Debug, Clone, Copy, PartialEq, Eq, Structural)]
pub enum EnvVariable {
    PanelUrl,
    ListenPort,
    PollIntervalSeconds,
    StaleAfterSeconds,
    FirewallBackend,
}

/// Why a configuration was refused.
#[derive(Debug, Clone, Copy, PartialEq, Eq, Structural)]
pub enum ConfigError {
    /// The agent token is shorter than [`MIN_AGENT_TOKEN_LENGTH`] bytes.
    InvalidAgentToken,
    /// The listen port is zero.
    ZeroListenPort,
    /// The poll interval is outside 1..=60 seconds.
    PollIntervalOutOfRange,
    /// The stale timeout is shorter than the poll interval.
    StaleAfterShorterThanPollInterval,
    /// The panel URL is empty after trimming.
    EmptyPanelUrl,
    /// The listen-port override is not a TCP port.
    InvalidListenPort,
    /// The poll-interval override is not an unsigned integer.
    InvalidPollInterval,
    /// The stale-after override is not an unsigned integer.
    InvalidStaleAfter,
    /// The firewall-backend override is not `auto`, `nftables` or `iptables`.
    InvalidFirewallBackend,
    /// The variable is set but is not valid Unicode.
    InvalidVariable(EnvVariable),
}

/// The value of one environment variable.
#[derive(Debug, Clone)]
pub enum EnvValue {
    NotPresent,
    Present(String),
    NotUnicode,
}

/// The environment variables that override the configuration file.
#[derive(Debug, Clone)]
pub struct EnvOverrides {
    /// `MOTD_PANEL_URL`
    pub panel_url: EnvValue,
    /// `MOTD_LISTEN_PORT`
    pub listen_port: EnvValue,
    /// `MOTD_POLL_INTERVAL_SECONDS`
    pub poll_interval_seconds: EnvValue,
    /// `MOTD_STALE_AFTER_SECONDS`
    pub stale_after_seconds: EnvValue,
    /// `MOTD_FIREWALL_BACKEND`
    pub firewall_backend: EnvValue,
}

/// The first rule a configuration breaks, if any.
pub open spec fn validation_error(token_bytes: nat, port: u16, poll: u64, stale: u64) -> Option<
    ConfigError,
> {
    if token_bytes < MIN_AGENT_TOKEN_LENGTH {
        Some(ConfigError::InvalidAgentToken)
    } else if port == 0 {
        Some(ConfigError::ZeroListenPort)
    } else if !(1 <= poll <= MAX_POLL_INTERVAL) {
        Some(ConfigError::PollIntervalOutOfRange)
    } else if stale < poll {
        Some(ConfigError::StaleAfterShorterThanPollInterval)
    } else {
        None
    }
}

/// Law: a configuration is valid exactly when its agent token has at least
/// 32 bytes, it listens on a non-zero port, it polls every 1 to 60 seconds,
/// and it waits at least one poll interval before calling a snapshot stale.
pub proof fn validation_rules(token_bytes: nat, port: u16, poll: u64, stale: u64)
    ensures
        validation_error(token_bytes, port, poll, stale) is None <==> (token_bytes >= 32 && port
            != 0 && 1 <= poll <= 60 && stale >= poll),
        token_bytes < 32 ==> validation_error(token_bytes, port, poll, stale) == Some(
            ConfigError::InvalidAgentToken,
        ),
{
}

impl AgentConfig {
    /// The first rule this configuration breaks, if any.
    pub open spec fn validation(&self) -> Option<ConfigError> {
        validation_error(
            encode_utf8(self.agent_token@).len(),
            self.listen_port,
            self.poll_interval_seconds,
            self.stale_after_seconds,
        )
    }

    /// Checks the configuration rules.
    pub fn validate(&self) -> (r: Result<(), ConfigError>)
        ensures
            match self.validation() {
                None => r is Ok,
                Some(e) => r == Err::<(), ConfigError>(e),
            },
    {
        if self.agent_token.as_str().as_bytes().len() < MIN_AGENT_TOKEN_LENGTH {
            return Err(ConfigError::InvalidAgentToken);
        }
        if self.listen_port == 0 {
            return Err(ConfigError::ZeroListenPort);
        }
        if !(1 <= self.poll_interval_seconds && self.poll_interval_seconds <= MAX_POLL_INTERVAL) {
            return Err(ConfigError::PollIntervalOutOfRange);
        }
        if self.stale_after_seconds < self.poll_interval_seconds {
            return Err(ConfigError::StaleAfterShorterThanPollInterval);
        }
        Ok(())
    }
}

/// The panel URL a `MOTD_PANEL_URL` value sets: trimmed, without trailing
/// slashes, and not empty.
pub open spec fn panel_url_override(v: EnvValue) -> Result<Option<Seq<char>>, ConfigError> {
    match v {
        EnvValue::NotPresent => Ok(None),
        EnvValue::NotUnicode => Err(ConfigError::InvalidVariable(EnvVariable::PanelUrl)),
        EnvValue::Present(s) => {
            let url = trim_end_char(trimmed(s@), '/');
            if url.len() == 0 {
                Err(ConfigError::EmptyPanelUrl)
            } else {
                Ok(Some(url))
            }
        },
    }
}

/// The number an override sets: an unsigned decimal no larger than `max`.
pub open spec fn number_override(v: EnvValue, max: nat, which: EnvVariable, invalid: ConfigError) -> Result<
    Option<nat>,
    ConfigError,
> {
    match v {
        EnvValue::NotPresent => Ok(None),
        EnvValue::NotUnicode => Err(ConfigError::InvalidVariable(which)),
        EnvValue::Present(s) => match parsed_unsigned(s@, max) {
            Some(n) => Ok(Some(n)),
            None => Err(invalid),
        },
    }
}

/// The backend a `MOTD_FIREWALL_BACKEND` value sets.
pub open spec fn backend_override(v: EnvValue) -> Result<Option<FirewallPreference>, ConfigError> {
    match v {
        EnvValue::NotPresent => Ok(None),
        EnvValue::NotUnicode => Err(ConfigError::InvalidVariable(EnvVariable::FirewallBackend)),
        EnvValue::Present(s) => if s@ == "auto"@ {
            Ok(Some(FirewallPreference::Auto))
        } else if s@ == "nftables"@ {
            Ok(Some(FirewallPreference::Nftables))
        } else if s@ == "iptables"@ {
            Ok(Some(FirewallPreference::Iptables))
        } else {
            Err(ConfigError::InvalidFirewallBackend)
        },
    }
}

/// Override of `MOTD_LISTEN_PORT`.
pub open spec fn port_override(env: EnvOverrides) -> Result<Option<nat>, ConfigError> {
    number_override(
        env.listen_port,
        u16::MAX as nat,
        EnvVariable::ListenPort,
        ConfigError::InvalidListenPort,
    )
}

/// Override of `MOTD_POLL_INTERVAL_SECONDS`.
pub open spec fn poll_override(env: EnvOverrides) -> Result<Option<nat>, ConfigError> {
    number_override(
        env.poll_interval_seconds,
        u64::MAX as nat,
        EnvVariable::PollIntervalSeconds,
        ConfigError::InvalidPollInterval,
    )
}

/// Override of `MOTD_STALE_AFTER_SECONDS`.
pub open spec fn stale_override(env: EnvOverrides) -> Result<Option<nat>, ConfigError> {
    number_override(
        env.stale_after_seconds,
        u64::MAX as nat,
        EnvVariable::StaleAfterSeconds,
        ConfigError::InvalidStaleAfter,
    )
}

/// The first override that fails, in the order the variables are read, as an
/// index from 0 (panel URL) to 4 (firewall backend); 5 when none fails.
pub open spec fn first_failed_override(env: EnvOverrides) -> nat {
    if panel_url_override(env.panel_url) is Err {
        0
    } else if port_override(env) is Err {
        1
    } else if poll_override(env) is Err {
        2
    } else if stale_override(env) is Err {
        3
    } else if backend_override(env.firewall_backend) is Err {
        4
    } else {
        5
    }
}

fn same_text(a: &String, b: &str) -> (r: bool)
    ensures
        r == (a@ == b@),
{
    *a == b.to_owned()
}

fn read_panel_url(v: &EnvValue) -> (r: Result<Option<String>, ConfigError>)
    ensures
        match panel_url_override(*v) {
            Ok(None) => r matches Ok(None),
            Ok(Some(url)) => r matches Ok(Some(s)) && s@ == url,
            Err(e) => r == Err::<Option<String>, ConfigError>(e),
        },
{
    match v {
        EnvValue::NotPresent => Ok(None),
        EnvValue::NotUnicode => Err(ConfigError::InvalidVariable(EnvVariable::PanelUrl)),
        EnvValue::Present(s) => {
            let chars = chars_of(s.as_str());
            let trimmed_chars = trim_chars(&chars);
            let url = trim_end_matches_char(&trimmed_chars, '/');
            if url.len() == 0 {
                Err(ConfigError::EmptyPanelUrl)
            } else {
                Ok(Some(string_of(&url)))
            }
        },
    }
}

fn read_number(v: &EnvValue, max: u64, which: EnvVariable, invalid: ConfigError) -> (r: Result<
    Option<u64>,
    ConfigError,
>)
    ensures
        match number_override(*v, max as nat, which, invalid) {
            Ok(None) => r == Ok::<Option<u64>, ConfigError>(None),
            Ok(Some(n)) => r matches Ok(Some(m)) && m == n,
            Err(e) => r == Err::<Option<u64>, ConfigError>(e),
        },
{
    match v {
        EnvValue::NotPresent => Ok(None),
        EnvValue::NotUnicode => Err(ConfigError::InvalidVariable(which)),
        EnvValue::Present(s) => {
            let chars = chars_of(s.as_str());
            match parse_unsigned(&chars, max) {
                Some(n) => Ok(Some(n)),
                None => Err(invalid),
            }
        },
    }
}

fn read_backend(v: &EnvValue) -> (r: Result<Option<FirewallPreference>, ConfigError>)
    ensures
        r == backend_override(*v),
{
    match v {
        EnvValue::NotPresent => Ok(None),
        EnvValue::NotUnicode => Err(ConfigError::InvalidVariable(EnvVariable::FirewallBackend)),
        EnvValue::Present(s) => {
            if same_text(s, "auto") {
                Ok(Some(FirewallPreference::Auto))
            } else if same_text(s, "nftables") {
                Ok(Some(FirewallPreference::Nftables))
            } else if same_text(s, "iptables") {
                Ok(Some(FirewallPreference::Iptables))
            } else {
                Err(ConfigError::InvalidFirewallBackend)
            }
        },
    }
}

impl AgentConfig {
    /// Applies the environment overrides in order (panel URL, listen port,
    /// poll interval, stale timeout, firewall backend), stopping at the first
    /// invalid one, then validates the result. Overrides applied before a
    /// failure stay applied.
    pub fn apply_env_overrides(&mut self, env: &EnvOverrides) -> (r: Result<(), ConfigError>)
        ensures
            final(self).agent_token == old(self).agent_token,
            final(self).node_uuid == old(self).node_uuid,
            final(self).panel_url@ == match panel_url_override(env.panel_url) {
                Ok(Some(url)) => url,
                _ => old(self).panel_url@,
            },
            final(self).listen_port == match port_override(*env) {
                Ok(Some(n)) => if first_failed_override(*env) > 1 {
                    n as u16
                } else {
                    old(self).listen_port
                },
                _ => old(self).listen_port,
            },
            final(self).poll_interval_seconds == match poll_override(*env) {
                Ok(Some(n)) => if first_failed_override(*env) > 2 {
                    n as u64
                } else {
                    old(self).poll_interval_seconds
                },
                _ => old(self).poll_interval_seconds,
            },
            final(self).stale_after_seconds == match stale_override(*env) {
                Ok(Some(n)) => if first_failed_override(*env) > 3 {
                    n as u64
                } else {
                    old(self).stale_after_seconds
                },
                _ => old(self).stale_after_seconds,
            },
            final(self).firewall_backend == match backend_override(env.firewall_backend) {
                Ok(Some(b)) => if first_failed_override(*env) > 4 {
                    b
                } else {
                    old(self).firewall_backend
                },
                _ => old(self).firewall_backend,
            },
            first_failed_override(*env) == 0 ==> r == Err::<(), ConfigError>(
                panel_url_override(env.panel_url)->Err_0,
            ),
            first_failed_override(*env) == 1 ==> r == Err::<(), ConfigError>(
                port_override(*env)->Err_0,
            ),
            first_failed_override(*env) == 2 ==> r == Err::<(), ConfigError>(
                poll_override(*env)->Err_0,
            ),
            first_failed_override(*env) == 3 ==> r == Err::<(), ConfigError>(
                stale_override(*env)->Err_0,
            ),
            first_failed_override(*env) == 4 ==> r == Err::<(), ConfigError>(
                backend_override(env.firewall_backend)->Err_0,
            ),
            first_failed_override(*env) == 5 ==> match final(self).validation() {
                None => r is Ok,
                Some(e) => r == Err::<(), ConfigError>(e),
            },
            r is Ok <==> first_failed_override(*env) == 5 && final(self).validation() is None,
    {
        match read_panel_url(&env.panel_url) {
            Ok(Some(url)) => {
                self.panel_url = url;
            },
            Ok(None) => {},
            Err(e) => return Err(e),
        }
        match read_number(
            &env.listen_port,
            65535,
            EnvVariable::ListenPort,
            ConfigError::InvalidListenPort,
        ) {
            Ok(Some(n)) => {
                self.listen_port = n as u16;
            },
            Ok(None) => {},
            Err(e) => return Err(e),
        }
        match read_number(
            &env.poll_interval_seconds,
            u64::MAX,
            EnvVariable::PollIntervalSeconds,
            ConfigError::InvalidPollInterval,
        ) {
            Ok(Some(n)) => {
                self.poll_interval_seconds = n;
            },
            Ok(None) => {},
            Err(e) => return Err(e),
        }
        match read_number(
            &env.stale_after_seconds,
            u64::MAX,
            EnvVariable::StaleAfterSeconds,
            ConfigError::InvalidStaleAfter,
        ) {
            Ok(Some(n)) => {
                self.stale_after_seconds = n;
            },
            Ok(None) => {},
            Err(e) => return Err(e),
        }
        match read_backend(&env.firewall_backend) {
            Ok(Some(b)) => {
                self.firewall_backend = b;
            },
            Ok(None) => {},
            Err(e) => return Err(e),
        }
        self.validate()
    }
}

} // verus!
