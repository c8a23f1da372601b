use rmap::probe::match_service;
use rmap::service_probe::{parse_match_rule, parse_nmap_service_probes, parse_payload};

#[test]
fn single_probe_with_match_parses() {
    let probes = parse_nmap_service_probes("Probe test \\r\\n TCP\nmatch http m/(?i)Server:.*nginx/\n");
    assert_eq!(probes.len(), 1);
    assert_eq!(probes[0].name, "test");
    assert_eq!(probes[0].payload, vec![13u8, 10u8]);
    assert_eq!(probes[0].protocol, "TCP");
    assert_eq!(probes[0].matches.len(), 1);
    assert_eq!(probes[0].matches[0].service, "http");
    assert!(probes[0].matches[0].version_info.is_none());
}

#[test]
fn parsed_pattern_matches_case_insensitively() {
    let probes = parse_nmap_service_probes("Probe test \\r\\n TCP\nmatch http m/(?i)Server:.*nginx/\n");
    let (service, version) = match_service(&probes, "TCP", "Server: nginx");
    assert_eq!(service, "http");
    assert_eq!(version, "Server: nginx");
    let (service2, _) = match_service(&probes, "TCP", "SERVER: NGINX");
    assert_eq!(service2, "http");
}

#[test]
fn malformed_match_line_skips_only_itself() {
    let text = "Probe a x\nmatch http\nProbe b y\nmatch ssh m/^SSH-/\n";
    let probes = parse_nmap_service_probes(text);
    assert_eq!(probes.len(), 2);
    assert_eq!(probes[0].name, "a");
    assert_eq!(probes[0].matches.len(), 0);
    assert_eq!(probes[1].name, "b");
    assert_eq!(probes[1].matches.len(), 1);
    assert_eq!(probes[1].matches[0].service, "ssh");
}

#[test]
fn comments_and_blank_lines_are_skipped() {
    let text = "# heading\n\n   \nProbe p x\n# inner comment\nmatch a m/b/\n";
    let probes = parse_nmap_service_probes(text);
    assert_eq!(probes.len(), 1);
    assert_eq!(probes[0].matches.len(), 1);
    assert_eq!(probes[0].matches[0].service, "a");
}

#[test]
fn payload_escapes_decode() {
    assert_eq!(parse_payload("a\\r\\n\\0b"), vec![b'a', 13, 10, 0, b'b']);
    assert_eq!(parse_payload("x\\\\y"), vec![b'x', 92, b'y']);
}

#[test]
fn backslash_is_substituted_last() {
    // The pair "\\r" in source text: the \r substitution consumes the
    // second backslash and the r, as a global \r pass before the \\ pass does.
    assert_eq!(parse_payload("\\\\r"), vec![92u8, 13u8]);
}

#[test]
fn fallback_line_splits_on_commas_without_trimming() {
    let probes = parse_nmap_service_probes("Probe p x\nfallback a, b,,c\n");
    assert_eq!(probes.len(), 1);
    assert_eq!(probes[0].fallback, vec!["a", " b", "", "c"]);
}

#[test]
fn consecutive_probe_lines_each_yield_a_probe() {
    let probes = parse_nmap_service_probes("Probe a x\nProbe b y\n");
    assert_eq!(probes.len(), 2);
    assert_eq!(probes[0].name, "a");
    assert_eq!(probes[1].name, "b");
}

#[test]
fn short_probe_line_opens_no_block() {
    let probes = parse_nmap_service_probes("Probe only\nmatch http m/x/\n");
    assert_eq!(probes.len(), 0);
}

#[test]
fn fourth_token_is_the_protocol() {
    let probes = parse_nmap_service_probes("Probe n p UDP extra\n");
    assert_eq!(probes.len(), 1);
    assert_eq!(probes[0].protocol, "UDP");
    assert_eq!(probes[0].payload, b"p".to_vec());
}

#[test]
fn protocol_defaults_to_tcp() {
    let probes = parse_nmap_service_probes("Probe n p");
    assert_eq!(probes.len(), 1);
    assert_eq!(probes[0].protocol, "TCP");
}

#[test]
fn invalid_regex_drops_only_that_rule() {
    let probes = parse_nmap_service_probes("Probe p x\nmatch bad m/(/\nmatch ok m/fine/\n");
    assert_eq!(probes.len(), 1);
    assert_eq!(probes[0].matches.len(), 1);
    assert_eq!(probes[0].matches[0].service, "ok");
}

#[test]
fn match_pattern_is_greedy_to_the_last_slash() {
    let r = parse_match_rule("match http m/a/b/");
    let (service, regex) = r.expect("rule should parse");
    assert_eq!(service, "http");
    assert_eq!(regex.as_str(), "a/b");
}

#[test]
fn match_search_is_leftmost() {
    // the rule pattern is searched, not anchored: a later occurrence of
    // the keyword can carry the rule
    let (service, regex) = parse_match_rule("match http ymatch ssh m/x/").expect("should parse");
    assert_eq!(service, "ssh");
    assert_eq!(regex.as_str(), "x");
}

#[test]
fn service_token_may_look_like_a_pattern() {
    let (service, regex) = parse_match_rule("match m/foo/ m/bar/").expect("should parse");
    assert_eq!(service, "m/foo/");
    assert_eq!(regex.as_str(), "bar");
}

#[test]
fn match_rule_needs_the_m_slash_form() {
    assert!(parse_match_rule("match http").is_none());
    assert!(parse_match_rule("match http nginx").is_none());
    assert!(parse_match_rule("match http m//").is_none());
}

#[test]
fn unrecognized_lines_inside_a_block_are_ignored() {
    let probes = parse_nmap_service_probes("Probe p x\nsoftmatch foo m/bar/\nmatch a m/b/\n");
    assert_eq!(probes.len(), 1);
    assert_eq!(probes[0].matches.len(), 1);
}

#[test]
fn lines_before_any_probe_are_ignored() {
    let probes = parse_nmap_service_probes("match a m/b/\nfallback x\nProbe p y\n");
    assert_eq!(probes.len(), 1);
    assert_eq!(probes[0].matches.len(), 0);
    assert_eq!(probes[0].fallback.len(), 0);
}

#[test]
fn carriage_returns_are_trimmed() {
    let probes = parse_nmap_service_probes("Probe p x TCP\r\nmatch a m/b/\r\n");
    assert_eq!(probes.len(), 1);
    assert_eq!(probes[0].protocol, "TCP");
    assert_eq!(probes[0].matches.len(), 1);
}
