use minecraft_motd::agent::config::{
    default_listen_port, default_poll_interval, default_stale_after, AgentConfig, ConfigError,
    EnvOverrides, EnvValue, EnvVariable, FirewallPreference,
};

fn config() -> AgentConfig {
    AgentConfig {
        panel_url: "https://panel.example.com".into(),
        agent_token: "0123456789abcdef0123456789abcdef".into(),
        node_uuid: 5,
        listen_port: default_listen_port(),
        poll_interval_seconds: default_poll_interval(),
        stale_after_seconds: default_stale_after(),
        firewall_backend: FirewallPreference::default(),
    }
}

fn no_overrides() -> EnvOverrides {
    EnvOverrides {
        panel_url: EnvValue::NotPresent,
        listen_port: EnvValue::NotPresent,
        poll_interval_seconds: EnvValue::NotPresent,
        stale_after_seconds: EnvValue::NotPresent,
        firewall_backend: EnvValue::NotPresent,
    }
}

#[test]
fn defaults_are_valid() {
    let c = config();
    assert_eq!(c.listen_port, 4001);
    assert_eq!(c.poll_interval_seconds, 2);
    assert_eq!(c.stale_after_seconds, 15);
    assert_eq!(c.firewall_backend, FirewallPreference::Auto);
    assert_eq!(c.validate(), Ok(()));
}

#[test]
fn validation_rules() {
    let mut c = config();
    c.agent_token = "short".into();
    assert_eq!(c.validate(), Err(ConfigError::InvalidAgentToken));
    let mut c = config();
    c.listen_port = 0;
    assert_eq!(c.validate(), Err(ConfigError::ZeroListenPort));
    let mut c = config();
    c.poll_interval_seconds = 61;
    assert_eq!(c.validate(), Err(ConfigError::PollIntervalOutOfRange));
    c.poll_interval_seconds = 0;
    assert_eq!(c.validate(), Err(ConfigError::PollIntervalOutOfRange));
    let mut c = config();
    c.stale_after_seconds = 1;
    assert_eq!(c.validate(), Err(ConfigError::StaleAfterShorterThanPollInterval));
}

#[test]
fn overrides_are_applied_in_order() {
    let mut c = config();
    let mut env = no_overrides();
    env.panel_url = EnvValue::Present("  https://other.example//  ".into());
    env.listen_port = EnvValue::Present("+4002".into());
    env.poll_interval_seconds = EnvValue::Present("5".into());
    env.stale_after_seconds = EnvValue::Present("30".into());
    env.firewall_backend = EnvValue::Present("iptables".into());
    assert_eq!(c.apply_env_overrides(&env), Ok(()));
    assert_eq!(c.panel_url, "https://other.example");
    assert_eq!(c.listen_port, 4002);
    assert_eq!(c.poll_interval_seconds, 5);
    assert_eq!(c.stale_after_seconds, 30);
    assert_eq!(c.firewall_backend, FirewallPreference::Iptables);
}

#[test]
fn override_errors() {
    let mut env = no_overrides();
    env.panel_url = EnvValue::Present(" / ".into());
    assert_eq!(config().apply_env_overrides(&env), Err(ConfigError::EmptyPanelUrl));

    let mut env = no_overrides();
    env.panel_url = EnvValue::Present("https://kept.example".into());
    env.listen_port = EnvValue::Present("65536".into());
    let mut c = config();
    assert_eq!(c.apply_env_overrides(&env), Err(ConfigError::InvalidListenPort));
    assert_eq!(c.panel_url, "https://kept.example");
    assert_eq!(c.listen_port, 4001);

    let mut env = no_overrides();
    env.poll_interval_seconds = EnvValue::Present("-1".into());
    assert_eq!(config().apply_env_overrides(&env), Err(ConfigError::InvalidPollInterval));
    let mut env = no_overrides();
    env.stale_after_seconds = EnvValue::Present(" 3".into());
    assert_eq!(config().apply_env_overrides(&env), Err(ConfigError::InvalidStaleAfter));
    let mut env = no_overrides();
    env.firewall_backend = EnvValue::Present("Auto".into());
    assert_eq!(config().apply_env_overrides(&env), Err(ConfigError::InvalidFirewallBackend));
    let mut env = no_overrides();
    env.listen_port = EnvValue::NotUnicode;
    assert_eq!(config().apply_env_overrides(&env), Err(ConfigError::InvalidVariable(EnvVariable::ListenPort)));
    let mut env = no_overrides();
    env.listen_port = EnvValue::Present("0".into());
    assert_eq!(config().apply_env_overrides(&env), Err(ConfigError::ZeroListenPort));
    let mut env = no_overrides();
    env.poll_interval_seconds = EnvValue::Present("18446744073709551615".into());
    assert_eq!(config().apply_env_overrides(&env), Err(ConfigError::PollIntervalOutOfRange));
    let mut env = no_overrides();
    env.poll_interval_seconds = EnvValue::Present("18446744073709551616".into());
    assert_eq!(config().apply_env_overrides(&env), Err(ConfigError::InvalidPollInterval));
}
