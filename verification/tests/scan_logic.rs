use rmap::network::{
    expand_targets, get_service, resolve_ports, scan_port_outcome, ScanEngine, ScanRequest,
};
use rmap::probe::match_service;
use rmap::service_probe::parse_nmap_service_probes;
use rmap::text::dec_string;

fn strings(v: &[&str]) -> Vec<String> {
    v.iter().map(|s| s.to_string()).collect()
}

#[test]
fn full_scan_yields_every_port_once() {
    let r = resolve_ports(&vec![9999, 22], true);
    assert_eq!(r.len(), 65535);
    assert_eq!(r[0], 1);
    assert_eq!(r[65534], 65535);
    assert_eq!(r[1023], 1024);
}

#[test]
fn explicit_ports_are_kept_in_order() {
    let r = resolve_ports(&vec![22, 80, 9999], false);
    assert_eq!(r, vec![22, 80, 9999]);
}

#[test]
fn out_of_range_and_repeated_ports_are_dropped() {
    let r = resolve_ports(&vec![22, 22, 0, 70000, 80], false);
    assert_eq!(r, vec![22, 80]);
}

#[test]
fn empty_port_spec_falls_back_to_defaults() {
    let r = resolve_ports(&vec![], false);
    assert_eq!(r, vec![22, 80, 443]);
}

#[test]
fn slash_32_expands_to_one_address() {
    let hosts = expand_targets(&strings(&["10.0.0.5/32"]));
    assert_eq!(hosts, vec!["10.0.0.5"]);
}

#[test]
fn slash_30_excludes_network_and_broadcast() {
    let hosts = expand_targets(&strings(&["192.168.1.0/30"]));
    assert_eq!(hosts, vec!["192.168.1.1", "192.168.1.2"]);
}

#[test]
fn slash_24_expands_to_254_hosts() {
    let hosts = expand_targets(&strings(&["10.0.0.0/24"]));
    assert_eq!(hosts.len(), 254);
    assert_eq!(hosts[0], "10.0.0.1");
    assert_eq!(hosts[253], "10.0.0.254");
}

#[test]
fn bare_addresses_stand_for_themselves() {
    let hosts = expand_targets(&strings(&["1.2.3.4", "::1"]));
    assert_eq!(hosts, vec!["1.2.3.4", "::1"]);
}

#[test]
fn ipv6_network_expands_all_addresses() {
    let hosts = expand_targets(&strings(&["2001:db8::/126"]));
    assert_eq!(hosts.len(), 4);
    assert_eq!(hosts[0], "2001:db8::");
    assert_eq!(hosts[3], "2001:db8::3");
}

#[test]
fn unparseable_targets_are_dropped_silently() {
    let hosts = expand_targets(&strings(&["nonsense", "1.2.3.4/33", "10.0.0.5/32", "01.2.3.4"]));
    assert_eq!(hosts, vec!["10.0.0.5"]);
}

#[test]
fn open_port_without_detection_is_unknown() {
    let probes = get_service().probes;
    let r = scan_port_outcome(22, true, false, None, &probes).expect("open port yields a result");
    assert_eq!(r.port, 22);
    assert_eq!(r.state, "open");
    assert_eq!(r.protocol, "tcp");
    assert_eq!(r.service, "unknown");
    assert_eq!(r.version, "");
}

#[test]
fn closed_port_yields_nothing() {
    let probes = get_service().probes;
    assert!(scan_port_outcome(80, false, true, None, &probes).is_none());
}

#[test]
fn banner_bytes_drive_service_detection() {
    let probes = get_service().probes;
    let banner = b"SSH-2.0-OpenSSH_9.6".to_vec();
    let r = scan_port_outcome(22, true, true, Some(banner), &probes).unwrap();
    assert_eq!(r.service, "ssh");
    assert_eq!(r.version, "SSH-2.0-OpenSSH_9.6");
}

#[test]
fn only_reachable_ports_are_reported() {
    // ports {22, 80, 9999} with only 22 reachable: exactly one PortResult
    let probes = get_service().probes;
    let attempts = [(22u32, true), (80u32, false), (9999u32, false)];
    let mut open = Vec::new();
    for (port, connected) in attempts {
        if let Some(p) = scan_port_outcome(port, connected, false, None, &probes) {
            open.push(p);
        }
    }
    assert_eq!(open.len(), 1);
    assert_eq!(open[0].port, 22);

    let mut engine = ScanEngine::start(1, 3);
    let unit = engine.host_done("10.0.0.1".to_string(), String::new(), open);
    assert_eq!(unit.results.len(), 1);
    let host = &unit.results[0];
    assert_eq!(host.host, "10.0.0.1");
    assert_eq!(host.status, "up");
    assert_eq!(host.ports.len(), 1);
    assert_eq!(host.ports[0].port, 22);
    assert!(!host.last_seen.is_empty());
}

#[test]
fn host_with_no_open_ports_is_absent() {
    let mut engine = ScanEngine::start(1, 3);
    let unit = engine.host_done("10.0.0.1".to_string(), String::new(), Vec::new());
    assert_eq!(unit.results.len(), 0);
    assert_eq!(unit.scanned, "1");
    assert_eq!(unit.total, "3");
}

#[test]
fn scanned_advances_by_one_per_unit_and_stays_within_total() {
    let mut engine = ScanEngine::start(3, 3);
    let mut last = 0u64;
    for i in 0..3 {
        let unit = engine.host_done(format!("10.0.0.{}", i + 1), String::new(), Vec::new());
        let scanned: u64 = unit.scanned.parse().unwrap();
        let total: u64 = unit.total.parse().unwrap();
        assert_eq!(scanned, last + 1);
        assert!(scanned <= total);
        assert_eq!(total, 9);
        last = scanned;
    }
}

#[test]
fn plan_scan_expands_request_and_fixes_total() {
    let service = get_service();
    let req = ScanRequest {
        ip_addresses: strings(&["192.168.1.0/30", "1.2.3.4"]),
        ports: vec![22, 80, 9999],
        full_scan: false,
        detect_services: false,
    };
    let plan = service.plan_scan(&req);
    assert_eq!(plan.hosts, vec!["192.168.1.1", "192.168.1.2", "1.2.3.4"]);
    assert_eq!(plan.ports, vec![22, 80, 9999]);
    assert_eq!(plan.total, 9);
    assert!(!plan.detect_services);
}

#[test]
fn full_scan_plan_counts_65535_ports_per_host() {
    let service = get_service();
    let req = ScanRequest {
        ip_addresses: strings(&["10.0.0.5/32"]),
        ports: vec![1, 2, 3],
        full_scan: true,
        detect_services: false,
    };
    let plan = service.plan_scan(&req);
    assert_eq!(plan.ports.len(), 65535);
    assert_eq!(plan.total, 65535);
}

#[test]
fn risk_is_high_with_telnet_whatever_else_is_open() {
    let probes = get_service().probes;
    let mut open = Vec::new();
    for port in [23u32, 80, 443] {
        open.push(scan_port_outcome(port, true, false, None, &probes).unwrap());
    }
    let mut engine = ScanEngine::start(1, 3);
    let unit = engine.host_done("h".to_string(), String::new(), open);
    assert_eq!(unit.results[0].risk, "high");
}

#[test]
fn risk_is_high_on_telnet_service_label() {
    let probes = parse_nmap_service_probes("Probe p x\nmatch telnet m/./\n");
    let open = vec![scan_port_outcome(2323, true, true, Some(b"login:".to_vec()), &probes).unwrap()];
    assert_eq!(open[0].service, "telnet");
    let mut engine = ScanEngine::start(1, 1);
    let unit = engine.host_done("h".to_string(), String::new(), open);
    assert_eq!(unit.results[0].risk, "high");
}

#[test]
fn risk_is_medium_beyond_ten_ports_without_telnet() {
    let probes = get_service().probes;
    let mut open = Vec::new();
    for port in [80u32, 81, 82, 83, 84, 85, 86, 87, 88, 89, 90] {
        open.push(scan_port_outcome(port, true, false, None, &probes).unwrap());
    }
    assert_eq!(open.len(), 11);
    let mut engine = ScanEngine::start(1, 11);
    let unit = engine.host_done("h".to_string(), String::new(), open);
    assert_eq!(unit.results[0].risk, "medium");
}

#[test]
fn risk_is_low_up_to_ten_ports_without_telnet() {
    let probes = get_service().probes;
    let mut open = Vec::new();
    for port in [80u32, 81, 82, 83, 84, 85, 86, 87, 88, 89] {
        open.push(scan_port_outcome(port, true, false, None, &probes).unwrap());
    }
    assert_eq!(open.len(), 10);
    let mut engine = ScanEngine::start(1, 10);
    let unit = engine.host_done("h".to_string(), String::new(), open);
    assert_eq!(unit.results[0].risk, "low");
}

#[test]
fn windows_rule_precedes_linux_rule() {
    let probes = get_service().probes;
    let mut open = Vec::new();
    for port in [22u32, 445] {
        open.push(scan_port_outcome(port, true, false, None, &probes).unwrap());
    }
    let mut engine = ScanEngine::start(1, 2);
    let unit = engine.host_done("h".to_string(), String::new(), open);
    assert_eq!(unit.results[0].os, "Windows (heuristic)");
}

#[test]
fn os_guesses_follow_ports_and_labels() {
    let probes = get_service().probes;
    let mut engine = ScanEngine::start(3, 2);

    let linux = vec![scan_port_outcome(22, true, false, None, &probes).unwrap()];
    let unit = engine.host_done("a".to_string(), String::new(), linux);
    assert_eq!(unit.results[0].os, "Linux (heuristic)");

    let unknown = vec![scan_port_outcome(8080, true, false, None, &probes).unwrap()];
    let unit = engine.host_done("b".to_string(), String::new(), unknown);
    assert_eq!(unit.results[0].os, "Unknown");

    let ssh_probes = parse_nmap_service_probes("Probe p x\nmatch OpenSSH m/^SSH/\n");
    let labeled =
        vec![scan_port_outcome(2222, true, true, Some(b"SSH-2.0".to_vec()), &ssh_probes).unwrap()];
    let unit = engine.host_done("c".to_string(), String::new(), labeled);
    assert_eq!(unit.results[0].os, "Linux (heuristic)");
}

#[test]
fn matcher_takes_first_probe_and_rule_in_order() {
    let text = "Probe a x\nmatch first m/banner/\nmatch second m/banner/\nProbe b y\nmatch third m/banner/\n";
    let probes = parse_nmap_service_probes(text);
    let (service, _) = match_service(&probes, "TCP", "some banner text");
    assert_eq!(service, "first");
}

#[test]
fn matcher_respects_the_active_protocol() {
    let text = "Probe u x UDP\nmatch udp_svc m/banner/\nProbe t y tcp\nmatch tcp_svc m/banner/\n";
    let probes = parse_nmap_service_probes(text);
    let (service, _) = match_service(&probes, "TCP", "a banner");
    assert_eq!(service, "tcp_svc");
}

#[test]
fn protocol_comparison_ignores_ascii_case() {
    let probes = parse_nmap_service_probes("Probe p x TcP\nmatch svc m/banner/\n");
    let (service, _) = match_service(&probes, "TCP", "a banner");
    assert_eq!(service, "svc");
}

#[test]
fn expansion_keeps_declaration_order() {
    let hosts = expand_targets(&strings(&["1.2.3.4", "192.168.1.0/31", "::1"]));
    assert_eq!(hosts, vec!["1.2.3.4", "192.168.1.0", "192.168.1.1", "::1"]);
}

#[test]
fn unmatched_banner_is_unknown() {
    let probes = get_service().probes;
    let (service, version) = match_service(&probes, "TCP", "plain greeting");
    assert_eq!(service, "unknown");
    assert_eq!(version, "");
}

#[test]
fn static_version_would_take_precedence_over_banner() {
    // No current format line carries a static version, so the fallback to
    // the banner text is the observable behaviour.
    let probes = parse_nmap_service_probes("Probe p x\nmatch http m/Server/\n");
    let (_, version) = match_service(&probes, "TCP", "Server: x");
    assert_eq!(version, "Server: x");
}

#[test]
fn builtin_probe_set_detects_http_and_ssh() {
    let service = get_service();
    assert_eq!(service.probes.len(), 1);
    assert_eq!(service.probes[0].name, "basic");
    assert_eq!(service.probes[0].payload, vec![13u8, 10u8]);
    let (http, _) = match_service(&service.probes, "TCP", "Server: Apache/2.4");
    assert_eq!(http, "http");
    let (ssh, _) = match_service(&service.probes, "TCP", "SSH-2.0-OpenSSH_9.6");
    assert_eq!(ssh, "ssh");
}

#[test]
fn decimal_rendering_is_exact() {
    assert_eq!(dec_string(0), "0");
    assert_eq!(dec_string(7), "7");
    assert_eq!(dec_string(65535), "65535");
    assert_eq!(dec_string(1234567890), "1234567890");
}

#[test]
fn invalid_utf8_banner_never_aborts_detection() {
    let probes = get_service().probes;
    let banner = vec![0xffu8, 0xfe, b'S', b'S', b'H'];
    let r = scan_port_outcome(22, true, true, Some(banner), &probes).unwrap();
    assert_eq!(r.state, "open");
    assert_eq!(r.service, "unknown");
}
