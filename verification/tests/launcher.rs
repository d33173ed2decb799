use phira::net::V6Info;
use phira::launcher::{
    address_line, ddns_line, firewall_line, qr_svg, self_check_result,
    failure_report, file_line, listen_label, missing_settings_report, no_address_report, response_report, settings_missing,
    should_auto_push, strip_bom, unseen_events, update_url, urlencode, LauncherConfig, Log, LogLine, LOG_LINES,
};

#[test]
fn fresh_settings() {
    let c = LauncherConfig::default();
    assert_eq!(c.port, 12346);
    assert!(c.domain.is_empty() && c.dns_token.is_empty() && c.last_pushed.is_empty());
    assert!(c.ddns_enabled && c.auto_firewall);
}

#[test]
fn byte_order_mark_is_dropped() {
    assert_eq!(strip_bom(&[0xEF, 0xBB, 0xBF, b'{', b'}']), b"{}".to_vec());
    assert_eq!(strip_bom(b"{}"), b"{}".to_vec());
    assert_eq!(strip_bom(&[0xEF, 0xBB]), vec![0xEF, 0xBB]);
}

#[test]
fn auto_push_only_on_change() {
    let mut c = LauncherConfig::default();
    assert!(!should_auto_push(&c, "240e::1"));
    c.domain = "duel.dynv6.net".to_string();
    assert!(should_auto_push(&c, "240e::1"));
    c.last_pushed = "240e::1".to_string();
    assert!(!should_auto_push(&c, "240e::1"));
    assert!(should_auto_push(&c, "240e::2"));
    c.ddns_enabled = false;
    assert!(!should_auto_push(&c, "240e::2"));
}

#[test]
fn url_encoding() {
    assert_eq!(urlencode("a b:c/~"), "a%20b:c%2F~");
    assert_eq!(urlencode("令"), "%E4%BB%A4");
    assert_eq!(urlencode("AZaz09-_.~"), "AZaz09-_.~");
}

#[test]
fn update_url_for_dynv6() {
    assert_eq!(
        update_url(" duel.dynv6.net ", " tok en ", "240e::1"),
        "https://dynv6.com/api/update?hostname=duel.dynv6.net&token=tok%20en&ipv6=240e::1"
    );
}

#[test]
fn reports() {
    assert!(settings_missing(" ", "token"));
    assert!(settings_missing("d", ""));
    assert!(!settings_missing("d", "t"));

    let r = missing_settings_report(" d.net ", "240e::1", 7, true);
    assert!(!r.ok);
    assert_eq!(r.message, "还没填 dynv6 域名 / token");
    assert_eq!((r.at, r.address.as_str(), r.domain.as_str(), r.manual), (7, "240e::1", "d.net", true));

    let r = response_report(true, "200 OK", " addresses updated\n", 9, "240e::1", "d.net", false);
    assert!(r.ok);
    assert_eq!(r.message, "addresses updated");
    let r = response_report(true, "200 OK", "Invalid Token", 9, "240e::1", "d.net", false);
    assert!(!r.ok);
    let r = response_report(false, "500 Internal Server Error", "  ", 9, "240e::1", "d.net", false);
    assert!(!r.ok);
    assert_eq!(r.message, "HTTP 500 Internal Server Error");

    let r = failure_report("timed out", 3, "240e::1", " d.net", true);
    assert!(!r.ok);
    assert_eq!(r.message, "推送失败：timed out");
    assert_eq!(r.domain, "d.net");

    let r = no_address_report("d.net");
    assert!(!r.ok && r.manual);
    assert_eq!(r.message, "没找到公网 IPv6 地址，先解决这个再谈推 DNS");
}

#[test]
fn log_keeps_the_newest_lines_numbered() {
    let mut log = Log::new();
    let first = log.push("info", "hello".to_string(), 10);
    assert_eq!((first.seq, first.at, first.level.as_str(), first.text.as_str()), (0, 10, "info", "hello"));
    for i in 0..(LOG_LINES as u64 + 10) {
        log.push("ok", format!("line {i}"), 11);
    }
    let lines = log.snapshot();
    assert_eq!(lines.len(), LOG_LINES);
    assert_eq!(lines.last().unwrap().seq, LOG_LINES as u64 + 10);
    assert_eq!(lines[0].seq, 11);
    assert!(lines.windows(2).all(|w| w[1].seq == w[0].seq + 1));
}

#[test]
fn log_file_lines() {
    let line = LogLine { seq: 0, at: 86_400 * 3 + 3_600 * 5 + 60 * 7 + 9, level: "warn".to_string(), text: "端口被占用".to_string() };
    assert_eq!(file_line(&line), "[05:07:09] [warn] 端口被占用");
}

#[test]
fn room_events_forwarded_once() {
    assert_eq!(unseen_events(0, 3, 3), (0, 3));
    assert_eq!(unseen_events(3, 5, 5), (3, 5));
    // A full buffer: only the two new events.
    assert_eq!(unseen_events(200, 202, 200), (198, 202));
    // More new events than the buffer holds: all of it.
    assert_eq!(unseen_events(10, 500, 200), (0, 500));
    // A new room after the old one was forwarded.
    assert_eq!(unseen_events(7, 2, 2), (0, 2));
}

#[test]
fn listener_labels() {
    assert_eq!(listen_label(true, true), "IPv6 + IPv4");
    assert_eq!(listen_label(true, false), "仅 IPv6（IPv4 客户端连不上）");
    assert_eq!(listen_label(false, true), "仅 IPv4");
}

fn v6(address: &str, gua: bool) -> V6Info {
    V6Info { address: address.to_string(), iface: String::new(), suffix: String::new(), valid: 0, preferred: 0, state: String::new(), gua }
}

#[test]
fn self_check_picks_the_public_address() {
    let r = self_check_result(vec![v6("fe80::1", false), v6("240e::2", true), v6("240e::3", true)], false, true, 12346, "");
    assert_eq!(r.best.as_deref(), Some("240e::2"));
    assert_eq!(r.share, "[240e::2]:12346");
    assert_eq!(r.firewall_name, "Phira Launcher (TCP 12346)");
    assert!(!r.firewall && r.listening);
    assert_eq!(r.addresses.len(), 3);
    let r = self_check_result(vec![v6("fe80::1", false)], true, false, 80, "duel.dynv6.net");
    assert_eq!(r.best, None);
    assert_eq!(r.share, "duel.dynv6.net:80");
    assert_eq!(r.domain, "duel.dynv6.net");
}

#[test]
fn self_check_log_lines() {
    assert_eq!(address_line(Some("240e::1")), ("ok", "公网 IPv6：240e::1".to_string()));
    assert_eq!(address_line(None).0, "warn");
    assert_eq!(firewall_line(true, "R"), ("ok", "防火墙规则已存在：R".to_string()));
    assert_eq!(firewall_line(false, "R"), ("warn", "缺少防火墙入站规则：R（点「加防火墙规则」需要管理员权限）".to_string()));
    let report = failure_report("timeout", 1, "240e::1", "d.net", true);
    assert_eq!(ddns_line("240e::1", &report), ("warn", "DDNS 推送 240e::1 → d.net：推送失败：timeout".to_string()));
}

#[test]
fn qr_codes() {
    let svg = qr_svg("duel.dynv6.net:12346").unwrap();
    assert!(svg.contains("<svg"));
    assert!(svg.contains("#0b0e14"));
    assert_eq!(qr_svg(&"x".repeat(5000)), Err("data too long".to_string()));
}
