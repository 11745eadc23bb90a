use minecraft_motd::agent::config::FirewallPreference;
use minecraft_motd::agent::firewall::{
    choose_backend, render_iptables, render_nftables, Allocation, AllocationSet, Backend,
    FirewallError, FirewallManager, ReconcileStep,
};
use minecraft_motd::agent::model::IpAddress;

/// Parses `a.b.c.d:port` or `[h:h:...]:port` (with `::`) into an allocation.
fn allocation(text: &str) -> Allocation {
    let (host, port) = text.rsplit_once(':').unwrap();
    let port: u16 = port.parse().unwrap();
    if let Some(inner) = host.strip_prefix('[') {
        let inner = inner.strip_suffix(']').unwrap();
        Allocation { ip: IpAddress::V6(ipv6(inner)), port }
    } else {
        let mut value: u32 = 0;
        for part in host.split('.') {
            value = value * 256 + part.parse::<u32>().unwrap();
        }
        Allocation { ip: IpAddress::V4(value), port }
    }
}

fn groups(text: &str) -> Vec<u128> {
    if text.is_empty() {
        return vec![];
    }
    let mut out = Vec::new();
    for part in text.split(':') {
        if part.contains('.') {
            let mut value: u128 = 0;
            for octet in part.split('.') {
                value = value * 256 + octet.parse::<u128>().unwrap();
            }
            out.push(value >> 16);
            out.push(value & 0xffff);
        } else {
            out.push(u128::from_str_radix(part, 16).unwrap());
        }
    }
    out
}

fn ipv6(text: &str) -> u128 {
    let (front, back) = match text.split_once("::") {
        Some((f, b)) => (groups(f), groups(b)),
        None => (groups(text), vec![]),
    };
    let mut all = front.clone();
    while all.len() + back.len() < 8 {
        all.push(0);
    }
    all.extend(back);
    all.iter().fold(0u128, |acc, g| (acc << 16) | g)
}

fn set_of(items: &[&str]) -> AllocationSet {
    let mut set = AllocationSet::new();
    for item in items {
        set.insert(allocation(item));
    }
    set
}

#[test]
fn nftables_rules_include_the_complete_destination() {
    let allocations = set_of(&["192.0.2.10:25565", "[2001:db8::10]:25566"]);
    let script = render_nftables(4001, &allocations, true);
    assert!(script.contains("ip daddr 192.0.2.10 tcp dport 25565"));
    assert!(script.contains("ip6 daddr 2001:db8::10 tcp dport 25566"));
    assert!(script.contains("redirect to :4001"));
    assert!(script.starts_with("delete table inet calagopus_motd"));
    assert!(!script.contains("udp"));
}

#[test]
fn nftables_script_is_exact() {
    let allocations = set_of(&["[::]:25566", "0.0.0.0:25565", "10.0.0.1:25565"]);
    let script = render_nftables(4001, &allocations, false);
    assert_eq!(
        script,
        "table inet calagopus_motd {\n  chain prerouting {\n    type nat hook prerouting priority dstnat; policy accept;\n    meta nfproto ipv4 tcp dport 25565 redirect to :4001 comment \"Calagopus Minecraft MOTD\"\n    ip daddr 10.0.0.1 tcp dport 25565 redirect to :4001 comment \"Calagopus Minecraft MOTD\"\n    meta nfproto ipv6 tcp dport 25566 redirect to :4001 comment \"Calagopus Minecraft MOTD\"\n  }\n}\n"
    );
}

#[test]
fn ipv6_text_is_canonical() {
    for (input, expected) in [
        ("2001:db8::10", "2001:db8::10"),
        ("::1", "::1"),
        ("1::", "1::"),
        ("::", "::"),
        ("1:0:0:2:0:0:0:3", "1:0:0:2::3"),
        ("1:0:0:2:0:0:3:4", "1::2:0:0:3:4"),
        ("1:0:2:3:4:5:6:7", "1:0:2:3:4:5:6:7"),
        ("::ffff:192.0.2.1", "::ffff:192.0.2.1"),
        ("fe80:0:0:0:1:0:0:0", "fe80::1:0:0:0"),
        ("1:2:3:4:5:6:7:8", "1:2:3:4:5:6:7:8"),
        ("ABCD:0:0:0:0:0:0:1", "abcd::1"),
    ] {
        let set = set_of(&[&format!("[{}]:1", input)]);
        let rules = render_nftables(7, &set, false);
        if expected == "::" {
            assert!(rules.contains("meta nfproto ipv6 tcp dport 1 "));
        } else {
            assert!(rules.contains(&format!("ip6 daddr {} tcp dport 1 ", expected)), "{}", rules);
        }
    }
}

#[test]
fn iptables_rules_are_split_by_family() {
    let allocations = set_of(&["192.0.2.10:25565", "[2001:db8::10]:25566", "0.0.0.0:1"]);
    let v4 = render_iptables(4001, &allocations, false);
    assert_eq!(
        v4,
        "*nat\n:CALAGOPUS_MOTD - [0:0]\n-F CALAGOPUS_MOTD\n-A CALAGOPUS_MOTD -p tcp --dport 1 -m comment --comment \"Calagopus Minecraft MOTD\" -j REDIRECT --to-ports 4001\n-A CALAGOPUS_MOTD -p tcp -d 192.0.2.10 --dport 25565 -m comment --comment \"Calagopus Minecraft MOTD\" -j REDIRECT --to-ports 4001\nCOMMIT\n"
    );
    let v6 = render_iptables(4001, &allocations, true);
    assert!(v6.contains("-d 2001:db8::10 --dport 25566"));
    assert!(!v6.contains("192.0.2.10"));
}

#[test]
fn allocation_sets_are_ordered_and_deduplicated() {
    let set = set_of(&["[::1]:1", "10.0.0.2:5", "10.0.0.1:9", "10.0.0.2:5", "10.0.0.1:3"]);
    assert_eq!(set.len(), 4);
    assert_eq!(set.get(0), allocation("10.0.0.1:3"));
    assert_eq!(set.get(1), allocation("10.0.0.1:9"));
    assert_eq!(set.get(2), allocation("10.0.0.2:5"));
    assert_eq!(set.get(3), allocation("[::1]:1"));
    assert!(set.contains(allocation("10.0.0.1:9")));
    assert!(!set.contains(allocation("10.0.0.1:10")));
    let same = set_of(&["10.0.0.1:3", "[::1]:1", "10.0.0.2:5", "10.0.0.1:9"]);
    assert!(set.same_as(&same));
    assert!(set.same_as(&set.clone()));
}

#[test]
fn backend_choice_follows_preference_and_availability() {
    assert_eq!(choose_backend(FirewallPreference::Auto, true, true), Ok(Backend::Nftables));
    assert_eq!(choose_backend(FirewallPreference::Auto, false, true), Ok(Backend::Iptables));
    assert_eq!(choose_backend(FirewallPreference::Auto, false, false), Err(FirewallError::NoBackendAvailable));
    assert_eq!(choose_backend(FirewallPreference::Iptables, true, true), Ok(Backend::Iptables));
    assert_eq!(choose_backend(FirewallPreference::Iptables, true, false), Err(FirewallError::IptablesUnavailable));
    assert_eq!(choose_backend(FirewallPreference::Nftables, false, true), Err(FirewallError::NftablesUnavailable));
}

#[test]
fn manager_reconciles_only_on_change() {
    let mut manager = FirewallManager::detect(FirewallPreference::Auto, 4001, false, true).unwrap();
    assert_eq!(manager.backend(), Backend::Iptables);
    assert_eq!(manager.listen_port(), 4001);
    let empty = AllocationSet::new();
    assert!(!manager.needs_reconcile(&empty));
    let wanted = set_of(&["10.0.0.1:25565"]);
    assert!(manager.needs_reconcile(&wanted));
    assert_eq!(manager.reconcile_step(&wanted), ReconcileStep::Apply(Backend::Iptables));
    manager.finish_reconcile(wanted.clone(), false);
    assert!(manager.needs_reconcile(&wanted));
    manager.finish_reconcile(wanted.clone(), true);
    assert_eq!(manager.reconcile_step(&wanted), ReconcileStep::Nothing);
    assert!(!manager.needs_reconcile(&wanted));
    manager.record_cleanup();
    assert!(manager.needs_reconcile(&wanted));
}
