use phira::net::{base64, best_address, extract_json, firewall_rule_name, is_gua, is_preferred_state, rank_addresses, share_target, trim, V6Info};

fn v6(address: &str, state: &str, valid: i64, gua: bool) -> V6Info {
    V6Info {
        address: address.to_string(),
        iface: "eth0".to_string(),
        suffix: "Link".to_string(),
        valid,
        preferred: valid,
        state: state.to_string(),
        gua,
    }
}

#[test]
fn base64_of_bytes() {
    assert_eq!(base64(b""), "");
    assert_eq!(base64(b"M"), "TQ==");
    assert_eq!(base64(b"Ma"), "TWE=");
    assert_eq!(base64(b"Man"), "TWFu");
    assert_eq!(base64(&[b'h', 0, b'i', 0]), "aABpAA==");
}

#[test]
fn extract_json_takes_the_outer_brackets() {
    assert_eq!(extract_json("#< CLIXML\n[{\"a\":1}]\r\n<Objs>"), Some("[{\"a\":1}]"));
    assert_eq!(extract_json("noise {\"x\":[1]} tail"), Some("{\"x\":[1]}"));
    assert_eq!(extract_json("nothing here"), None);
    assert_eq!(extract_json("} then {"), None);
}

#[test]
fn trim_drops_surrounding_whitespace() {
    assert_eq!(trim("  a b \n"), "a b");
    assert_eq!(trim(""), "");
    assert_eq!(trim("\u{3000}域名\u{85}\u{a0}"), "域名");
}

#[test]
fn global_unicast_only() {
    assert!(is_gua([0x240e, 0x3a1, 0, 0, 0, 0, 0, 1]));
    assert!(is_gua([0x2001, 0xdb8, 0, 0, 0, 0, 0, 1]));
    assert!(!is_gua([0xfe80, 0, 0, 0, 0, 0, 0, 1]));
    assert!(!is_gua([0xfd00, 0, 0, 0, 0, 0, 0, 1]));
    assert!(!is_gua([0, 0, 0, 0, 0, 0, 0, 1]));
    assert!(!is_gua([0, 0, 0, 0, 0, 0, 0, 0]));
    assert!(!is_gua([0xff02, 0, 0, 0, 0, 0, 0, 1]));
    assert!(!is_gua([0, 0, 0, 0, 0, 0xffff, 0xc0a8, 1]));
    assert!(is_gua([0x3fff, 0, 0, 0, 0, 0, 0, 1]));
    assert!(!is_gua([0x4000, 0, 0, 0, 0, 0, 0, 1]));
}

#[test]
fn best_address_is_the_first_public_one() {
    let list = vec![v6("fe80::1", "Preferred", 100, false), v6("240e::2", "Preferred", 60, true), v6("240e::3", "Preferred", 50, true)];
    assert_eq!(best_address(&list).map(|a| a.address.as_str()), Some("240e::2"));
    assert!(best_address(&list[..1]).is_none());
}

#[test]
fn addresses_are_ranked() {
    let list = vec![
        v6("fe80::1", "Preferred", 1000, false),
        v6("240e::tmp", "Preferred", 600, true),
        v6("240e::dep", "Deprecated", 9000, true),
        v6("240e::stable", "preferred", 4_294_967_295, true),
        v6("240e::tie", "Preferred", 600, true),
    ];
    let order = rank_addresses(&list);
    assert_eq!(order, vec![3, 2, 1, 4, 0]);
    assert!(is_preferred_state("PREFERRED"));
    assert!(!is_preferred_state("Tentative"));
}

#[test]
fn share_target_prefers_the_domain() {
    assert_eq!(share_target(" duel.dynv6.net ", Some("240e::1"), 12346), "duel.dynv6.net:12346");
    assert_eq!(share_target("", Some("240e::1"), 12346), "[240e::1]:12346");
    assert_eq!(share_target("  ", None, 80), "<未检测到公网 IPv6>:80");
}

#[test]
fn firewall_rule_names() {
    assert_eq!(firewall_rule_name(12346), "Phira Launcher (TCP 12346)");
    assert_eq!(firewall_rule_name(0), "Phira Launcher (TCP 0)");
}

#[test]
fn stable_address_beats_temporary_one() {
    let list = vec![v6("240e::dcc8", "Preferred", 604_800, true), v6("240e::8b31", "Deprecated", 4_294_967_295, true)];
    assert_eq!(rank_addresses(&list), vec![1, 0]);
    let tie = vec![v6("240e::a", "Deprecated", 100, true), v6("240e::b", "Preferred", 100, true)];
    assert_eq!(rank_addresses(&tie), vec![1, 0]);
}
