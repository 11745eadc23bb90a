use minecraft_motd::agent::model::{GlobalSettings, IpAddress, MotdStateSettings, ServerState, SnapshotServer};
use minecraft_motd::agent::presentation::{
    apply_gradient, colors_readable, gradient_plan, kick_message, legacy_hex, normalize_legacy_codes, parse_color, placeholders,
    selected_state, status_description, status_json, swap_lines, GradientPlan, PresentationError,
};

/// The shades of a gradient plan, blended in `f32` as the agent does.
fn f32_shades(plan: &GradientPlan) -> Vec<(u8, u8, u8)> {
    let n = plan.stops.len();
    (0..plan.coloured)
        .map(|index| {
            let scaled = index as f32 / plan.visible.max(1).saturating_sub(1).max(1) as f32
                * (n - 1) as f32;
            let segment = (scaled.floor() as usize).min(n - 2);
            let amount = scaled - segment as f32;
            let (start, end) = (plan.stops[segment], plan.stops[segment + 1]);
            let mix = |a: u8, b: u8| (a as f32 + (b as f32 - a as f32) * amount).round() as u8;
            (mix(start.0, end.0), mix(start.1, end.1), mix(start.2, end.2))
        })
        .collect()
}

fn gradient(text: &str, colors: &[String]) -> String {
    let shades = f32_shades(&gradient_plan(text, colors));
    apply_gradient(text, colors, &shades)
}

#[test]
fn gradient_keeps_text_and_adds_hex_codes() {
    let result = gradient("Hi", &["#000000".into(), "#ffffff".into()]);
    assert!(result.contains('H'));
    assert!(result.contains('i'));
    assert!(result.starts_with("§x"));
}

#[test]
fn line_swap_only_changes_first_two_lines() {
    assert_eq!(swap_lines("one\ntwo\nthree".into()), "two\none\nthree");
}

#[test]
fn ampersand_color_codes_are_normalized() {
    assert_eq!(
        normalize_legacy_codes("&aReady && waiting"),
        "§aReady && waiting"
    );
}

#[test]
fn gradient_runs_from_first_to_last_colour() {
    let result = gradient("Hi", &["#000000".into(), "#ffffff".into()]);
    assert_eq!(result, "§x§0§0§0§0§0§0H§x§f§f§f§f§f§fi");
    // Three visible characters: the middle one is the exact midpoint, rounded up.
    let result = gradient("a b", &["#000000".into(), "#ff0000".into()]);
    assert_eq!(result, "§x§0§0§0§0§0§0a §x§f§f§0§0§0§0b");
    let result = gradient("abc", &["#000000".into(), "#ff0000".into()]);
    assert_eq!(result, "§x§0§0§0§0§0§0a§x§8§0§0§0§0§0b§x§f§f§0§0§0§0c");
}

#[test]
fn gradient_skips_codes_and_needs_two_colours() {
    assert_eq!(gradient("Hi", &["#000000".into(), "nope".into()]), "Hi");
    assert_eq!(gradient("Hi", &[]), "Hi");
    let result = gradient("§lA", &["#102030".into(), "#102030".into()]);
    assert_eq!(result, "§l§x§1§0§2§0§3§0A");
    let result = gradient("\n", &["#102030".into(), "#405060".into()]);
    assert_eq!(result, "\n");
}

#[test]
fn colours_parse_like_the_standard_radix_parser() {
    assert_eq!(parse_color("#22d3ee"), Some((0x22, 0xd3, 0xee)));
    assert_eq!(parse_color("#F59E0B"), Some((0xf5, 0x9e, 0x0b)));
    assert_eq!(parse_color("#+f+f+f"), Some((15, 15, 15)));
    assert_eq!(parse_color("#-f0000"), None);
    assert_eq!(parse_color("22d3ee"), None);
    assert_eq!(parse_color("#22d3e"), None);
    assert_eq!(parse_color("#g2d3ee"), None);
    assert_eq!(legacy_hex((0x22, 0xd3, 0xee)), "§x§2§2§d§3§e§e");
}

#[test]
fn swapping_lines_edge_cases() {
    assert_eq!(swap_lines("single".into()), "single");
    assert_eq!(swap_lines("one\ntwo".into()), "two\none");
    assert_eq!(swap_lines("one\n".into()), "\none");
    assert_eq!(swap_lines("a\nb\nc\nd".into()), "b\na\nc\nd");
    let twice = swap_lines(swap_lines("a\nb\nc".into()));
    assert_eq!(twice, "a\nb\nc");
}

#[test]
fn normalising_is_case_insensitive_and_idempotent() {
    assert_eq!(normalize_legacy_codes("&L&Rx&z&"), "§l§rx&z&");
    let once = normalize_legacy_codes("&&a&0");
    assert_eq!(once, "&§a§0");
    assert_eq!(normalize_legacy_codes(&once), once);
}

fn server() -> SnapshotServer {
    SnapshotServer {
        server_uuid: 7,
        server_name: "Lobby".into(),
        node_name: "node-1".into(),
        allocation_ip: IpAddress::V4(0),
        allocation_port: 25565,
        state: ServerState::Offline,
        autostart_on_join: false,
    }
}

fn state_settings(description: &str, kick: &str) -> MotdStateSettings {
    MotdStateSettings {
        version: "Offline".into(),
        protocol: None,
        online_players: 1,
        max_players: 20,
        descriptions: vec![description.into(), "second".into()],
        kick_message: kick.into(),
    }
}

fn settings(states: Vec<(String, MotdStateSettings)>) -> GlobalSettings {
    GlobalSettings {
        enabled: true,
        _all_allocations: false,
        rotation_interval_seconds: 10,
        swap_lines: false,
        gradient_enabled: false,
        gradient_colors: vec![],
        favicon_base64: None,
        _excluded_egg_uuids: vec![],
        _excluded_server_uuids: vec![],
        states,
    }
}

#[test]
fn placeholders_are_filled() {
    assert_eq!(
        placeholders("{server_name}@{node_name} is {state} {state}", &server(), ServerState::NodeMaintenance),
        "Lobby@node-1 is node_maintenance node_maintenance"
    );
}

#[test]
fn state_presentation_falls_back_to_offline() {
    let s = settings(vec![("offline".into(), state_settings("&c{server_name}", "&7bye {state}"))]);
    assert!(selected_state(&s, ServerState::Starting).is_some());
    assert_eq!(kick_message(&s, &server(), ServerState::Starting).unwrap(), "§7bye starting");
    let empty = settings(vec![]);
    assert!(selected_state(&empty, ServerState::Offline).is_none());
    assert_eq!(
        kick_message(&empty, &server(), ServerState::Offline),
        Err(PresentationError::MissingStatePresentation)
    );
    assert!(status_json(&empty, &server(), ServerState::Offline, 1, 0, &[], &[]).is_err());
}

#[test]
fn status_document_rotates_and_uses_icons() {
    let s = settings(vec![("offline".into(), state_settings("&c{server_name}", "bye"))]);
    let doc = status_json(&s, &server(), ServerState::Offline, 769, 5, &[0, 1, 2], &[]).unwrap();
    assert_eq!(doc.description, "§cLobby");
    assert_eq!(doc.protocol, 769);
    assert_eq!(doc.version_name, "Offline");
    assert_eq!(doc.online_players, 1);
    assert_eq!(doc.max_players, 20);
    assert_eq!(doc.favicon, "data:image/png;base64,AAEC");
    let later = status_json(&s, &server(), ServerState::Offline, 769, -15, &[0, 1, 2], &[]).unwrap();
    assert_eq!(later.description, "second");

    let mut custom = settings(vec![("offline".into(), state_settings("a\nb", "bye"))]);
    custom.favicon_base64 = Some("QUJD".into());
    custom.swap_lines = true;
    custom.states[0].1.protocol = Some(47);
    let doc = status_json(&custom, &server(), ServerState::Offline, 769, 0, &[], &[]).unwrap();
    assert_eq!(doc.favicon, "data:image/png;base64,QUJD");
    assert_eq!(doc.description, "b\na");
    assert_eq!(doc.protocol, 47);
}

#[test]
fn colour_texts_that_would_be_cut_are_detected() {
    assert!(colors_readable(&["#22d3ee".into(), "22d3ee".into(), "#\u{e9}\u{e9}\u{e9}".into()]));
    assert!(colors_readable(&[]));
    // The fourth byte continues the two-byte `é`.
    assert!(!colors_readable(&["#0\u{e9}000".into()]));
    // The red pair is a number and the sixth byte continues `é`.
    assert!(!colors_readable(&["#00a\u{e9}x".into()]));
    // The red pair is no number, so reading stops before the sixth byte.
    assert!(colors_readable(&["#zza\u{e9}x".into()]));
    assert_eq!(parse_color("#zza\u{e9}x"), None);
}

#[test]
fn gradient_places_given_shades_before_coloured_characters() {
    let colors: Vec<String> = vec!["#000000".into(), "nope".into(), "#ffffff".into()];
    let plan = gradient_plan("§la b", &colors);
    assert_eq!(plan.stops, vec![(0, 0, 0), (255, 255, 255)]);
    assert_eq!(plan.visible, 4);
    assert_eq!(plan.coloured, 2);
    let result = apply_gradient("§la b", &colors, &[(1, 2, 3), (0xab, 0xcd, 0xef)]);
    assert_eq!(result, "§l§x§0§1§0§2§0§3a §x§a§b§c§d§e§fb");
    assert_eq!(apply_gradient("ab", &["#000000".into()], &[]), "ab");
}

#[test]
fn gradient_shades_follow_single_precision_blending() {
    // Thirteen visible characters from #000000 to #363636: the eighth is at
    // 7/12 of the way, 31.499998 in single precision, so shade 31.
    let result = gradient("abcdefghijklm", &["#000000".into(), "#363636".into()]);
    let eighth = result.split('h').next().unwrap();
    assert!(eighth.ends_with("§x§1§f§1§f§1§f"));
    assert!(result.ends_with("§x§3§6§3§6§3§6m"));
}

#[test]
fn status_answer_uses_gradient_shades() {
    let mut s = settings(vec![("offline".into(), state_settings("&c{server_name}", "bye"))]);
    s.gradient_enabled = true;
    s.gradient_colors = vec!["#000000".into(), "#ffffff".into()];
    let base = status_description(&s, &server(), ServerState::Offline, 5).unwrap();
    assert_eq!(base, "§cLobby");
    let plan = gradient_plan(&base, &s.gradient_colors);
    assert_eq!(plan.coloured, 5);
    let shades = f32_shades(&plan);
    let doc = status_json(&s, &server(), ServerState::Offline, 769, 5, &[], &shades).unwrap();
    assert_eq!(doc.description, gradient("§cLobby", &s.gradient_colors));
    assert!(doc.description.starts_with("§c§x§0§0§0§0§0§0L"));
    let empty = settings(vec![]);
    assert_eq!(
        status_description(&empty, &server(), ServerState::Offline, 5),
        Err(PresentationError::MissingStatePresentation)
    );
}

#[test]
fn normalising_keeps_length_and_swapping_moves_only_two_lines() {
    let text = "&AReady &x &r";
    assert_eq!(normalize_legacy_codes(text).chars().count(), text.chars().count());
    assert_eq!(swap_lines("no break".into()), "no break");
    assert_eq!(swap_lines("one\ntwo".into()), "two\none");
    assert_eq!(swap_lines("one\n\nthree\nfour".into()), "\none\nthree\nfour");
}

#[test]
fn state_lookup_finds_the_only_entry_with_the_key() {
    let s = settings(vec![
        ("starting".into(), state_settings("s", "bye starting")),
        ("offline".into(), state_settings("o", "bye offline")),
    ]);
    assert_eq!(selected_state(&s, ServerState::Offline).unwrap().kick_message, "bye offline");
    assert_eq!(selected_state(&s, ServerState::Starting).unwrap().kick_message, "bye starting");
}

#[test]
fn colours_that_do_not_parse_are_dropped_before_the_gradient() {
    let shades = [(1, 2, 3), (4, 5, 6)];
    let mixed: Vec<String> = vec!["#000000".into(), "red".into(), "#ffffff".into()];
    let valid: Vec<String> = vec!["#000000".into(), "#ffffff".into()];
    assert_eq!(apply_gradient("ab", &mixed, &shades), apply_gradient("ab", &valid, &shades));
    assert_eq!(apply_gradient("ab", &mixed, &shades).chars().count(), 2 + 2 * 14);
}
