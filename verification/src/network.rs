//! The scan engine: target and port expansion, the per-port and per-host
//! result logic with its OS and risk heuristics, and the progress
//! accounting of the streamed scan output.

use vstd::prelude::*;
use vstd::string::*;
use crate::text::{contains_seq, contains_str, dec_rep, dec_string, split_on, split_str, str_eq};
use crate::probe::{
    NmapProbe, ProbeModel, probes_view, match_result, match_service, builtin_match_models,
    builtin_probes,
};

verus! {

/// One open port of a host. Closed ports are never represented.
pub struct PortResult {
    pub port: u32,
    pub state: String,
    pub service: String,
    pub protocol: String,
    pub version: String,
}

/// The mathematical content of a `PortResult`.
pub struct PortModel {
    pub port: u32,
    pub state: Seq<char>,
    pub service: Seq<char>,
    pub protocol: Seq<char>,
    pub version: Seq<char>,
}

impl View for PortResult {
    type V = PortModel;

    open spec fn view(&self) -> PortModel {
        PortModel {
            port: self.port,
            state: self.state@,
            service: self.service@,
            protocol: self.protocol@,
            version: self.version@,
        }
    }
}

/// The models of a sequence of port results, in order.
pub open spec fn ports_view(ps: Seq<PortResult>) -> Seq<PortModel> {
    ps.map_values(|p: PortResult| p@)
}

/// An open port that points at Windows: port 445, or a service label
/// containing "Microsoft".
pub open spec fn windows_trigger(p: PortModel) -> bool {
    p.port == 445 || contains_seq(p.service, "Microsoft"@)
}

/// An open port that points at Linux: port 22, or a service label
/// containing "OpenSSH".
pub open spec fn linux_trigger(p: PortModel) -> bool {
    p.port == 22 || contains_seq(p.service, "OpenSSH"@)
}

/// An open port that forces the high risk label: port 23, or the exact
/// service label "telnet".
pub open spec fn telnet_trigger(p: PortModel) -> bool {
    p.port == 23 || p.service == "telnet"@
}

/// The OS heuristic: the Windows rule is evaluated before the Linux rule,
/// and wins even when both hold of the open port set.
pub open spec fn os_guess(ports: Seq<PortModel>) -> Seq<char> {
    if exists|k: int| 0 <= k < ports.len() && #[trigger] windows_trigger(ports[k]) {
        "Windows (heuristic)"@
    } else if exists|k: int| 0 <= k < ports.len() && #[trigger] linux_trigger(ports[k]) {
        "Linux (heuristic)"@
    } else {
        "Unknown"@
    }
}

/// The risk heuristic, in priority order: any telnet-like port is high;
/// else more than ten open ports is medium; else low.
pub open spec fn risk_of(ports: Seq<PortModel>) -> Seq<char> {
    if exists|k: int| 0 <= k < ports.len() && #[trigger] telnet_trigger(ports[k]) {
        "high"@
    } else if ports.len() > 10 {
        "medium"@
    } else {
        "low"@
    }
}

/// Guess the host's operating system from its open ports.
pub fn guess_os(ports: &Vec<PortResult>) -> (r: String)
    ensures
        r@ == os_guess(ports_view(ports@)),
{
    let ghost pv = ports_view(ports@);
    let mut win = false;
    let mut lin = false;
    let mut i: usize = 0;
    while i < ports.len()
        invariant
            pv == ports_view(ports@),
            i <= ports@.len(),
            win == exists|k: int| 0 <= k < i && #[trigger] windows_trigger(pv[k]),
            lin == exists|k: int| 0 <= k < i && #[trigger] linux_trigger(pv[k]),
        decreases ports@.len() - i,
    {
        let p = &ports[i];
        proof {
            assert(pv[i as int] == ports@[i as int]@);
        }
        if p.port == 445 || contains_str(p.service.as_str(), "Microsoft") {
            proof {
                assert(windows_trigger(pv[i as int]));
            }
            win = true;
        }
        if p.port == 22 || contains_str(p.service.as_str(), "OpenSSH") {
            proof {
                assert(linux_trigger(pv[i as int]));
            }
            lin = true;
        }
        i = i + 1;
    }
    if win {
        String::from_str("Windows (heuristic)")
    } else if lin {
        String::from_str("Linux (heuristic)")
    } else {
        String::from_str("Unknown")
    }
}

/// Classify the host's risk from its open ports.
pub fn evaluate_risk(ports: &Vec<PortResult>) -> (r: String)
    ensures
        r@ == risk_of(ports_view(ports@)),
{
    let ghost pv = ports_view(ports@);
    let mut telnet = false;
    let mut i: usize = 0;
    while i < ports.len()
        invariant
            pv == ports_view(ports@),
            i <= ports@.len(),
            telnet == exists|k: int| 0 <= k < i && #[trigger] telnet_trigger(pv[k]),
        decreases ports@.len() - i,
    {
        let p = &ports[i];
        proof {
            assert(pv[i as int] == ports@[i as int]@);
        }
        if p.port == 23 || str_eq(p.service.as_str(), "telnet") {
            proof {
                assert(telnet_trigger(pv[i as int]));
            }
            telnet = true;
        }
        i = i + 1;
    }
    if telnet {
        String::from_str("high")
    } else if ports.len() > 10 {
        String::from_str("medium")
    } else {
        String::from_str("low")
    }
}

/// Law: an open telnet-like port forces the high risk label, whatever
/// else is open.
pub proof fn lemma_telnet_forces_high(ports: Seq<PortModel>, i: int)
    requires
        0 <= i < ports.len(),
        telnet_trigger(ports[i]),
    ensures
        risk_of(ports) == "high"@,
{
}

/// Law: more than ten open ports with no telnet-like port among them is
/// exactly the medium risk label.
pub proof fn lemma_many_ports_medium(ports: Seq<PortModel>)
    requires
        forall|k: int| 0 <= k < ports.len() ==> !(#[trigger] telnet_trigger(ports[k])),
        ports.len() > 10,
    ensures
        risk_of(ports) == "medium"@,
{
}

/// Law: at most ten open ports with no telnet-like port among them is
/// exactly the low risk label.
pub proof fn lemma_few_ports_low(ports: Seq<PortModel>)
    requires
        forall|k: int| 0 <= k < ports.len() ==> !(#[trigger] telnet_trigger(ports[k])),
        ports.len() <= 10,
    ensures
        risk_of(ports) == "low"@,
{
}

/// Law: any Windows-pointing port decides the OS guess, even when a
/// Linux-pointing port is open as well: the Windows rule precedes.
pub proof fn lemma_windows_rule_precedes(ports: Seq<PortModel>, i: int)
    requires
        0 <= i < ports.len(),
        windows_trigger(ports[i]),
    ensures
        os_guess(ports) == "Windows (heuristic)"@,
{
}

/// A scannable port number.
pub open spec fn valid_port(p: u32) -> bool {
    1 <= p && p <= 65535
}

/// The well-known ports scanned when no explicit list and no full scan is
/// requested.
pub open spec fn default_ports() -> Seq<u32> {
    seq![22u32, 80u32, 443u32]
}

/// The in-range ports of an explicit list, first occurrence of each kept,
/// in order; `seen` holds what is already kept.
pub open spec fn sanitize_from(ports: Seq<u32>, i: int, seen: Seq<u32>) -> Seq<u32>
    decreases ports.len() - i when 0 <= i <= ports.len()
{
    if i >= ports.len() {
        Seq::empty()
    } else if valid_port(ports[i]) && !seen.contains(ports[i]) {
        seq![ports[i]] + sanitize_from(ports, i + 1, seen.push(ports[i]))
    } else {
        sanitize_from(ports, i + 1, seen)
    }
}

/// The ordered port set a request resolves to: all 65535 ports under a
/// full scan; else the sanitized explicit list; else, when that leaves
/// nothing, the default set.
pub open spec fn resolved_ports_spec(ports: Seq<u32>, full_scan: bool) -> Seq<u32> {
    if full_scan {
        Seq::new(65535, |i: int| (i + 1) as u32)
    } else {
        let s = sanitize_from(ports, 0, Seq::empty());
        if s.len() > 0 {
            s
        } else {
            default_ports()
        }
    }
}

fn contains_u32(v: &Vec<u32>, x: u32) -> (r: bool)
    ensures
        r == v@.contains(x),
{
    let mut i: usize = 0;
    while i < v.len()
        invariant
            i <= v@.len(),
            forall|k: int| 0 <= k < i ==> v@[k] != x,
        decreases v@.len() - i,
    {
        if v[i] == x {
            return true;
        }
        i = i + 1;
    }
    proof {
        assert(!v@.contains(x));
    }
    false
}

/// Expand a port specification: a full scan yields every port exactly
/// once; an explicit list is kept in order with out-of-range ports and
/// repeats dropped; an empty outcome falls back to the default set.
pub fn resolve_ports(ports: &Vec<u32>, full_scan: bool) -> (r: Vec<u32>)
    ensures
        r@ == resolved_ports_spec(ports@, full_scan),
        full_scan ==> r@.len() == 65535,
        full_scan ==> forall|k: int| 0 <= k < 65535 ==> r@[k] == k + 1,
        r@.len() >= 1,
        forall|k: int| 0 <= k < r@.len() ==> valid_port(#[trigger] r@[k]),
        forall|k: int, m: int| 0 <= k < m < r@.len() ==> #[trigger] r@[k] != #[trigger] r@[m],
{
    if full_scan {
        let mut r: Vec<u32> = Vec::new();
        let mut p: u32 = 1;
        while p <= 65535
            invariant
                1 <= p <= 65536,
                r@.len() == p - 1,
                forall|k: int| 0 <= k < r@.len() ==> r@[k] == k + 1,
            decreases 65536 - p,
        {
            r.push(p);
            p = p + 1;
        }
        proof {
            assert(r@ =~= Seq::new(65535, |i: int| (i + 1) as u32));
        }
        r
    } else {
        let mut r: Vec<u32> = Vec::new();
        let mut i: usize = 0;
        proof {
            assert(sanitize_from(ports@, 0, Seq::empty()) == sanitize_from(ports@, 0, r@));
        }
        while i < ports.len()
            invariant
                i <= ports@.len(),
                sanitize_from(ports@, 0, Seq::empty()) == r@ + sanitize_from(
                    ports@,
                    i as int,
                    r@,
                ),
                forall|k: int| 0 <= k < r@.len() ==> valid_port(#[trigger] r@[k]),
                forall|k: int, m: int| 0 <= k < m < r@.len() ==> #[trigger] r@[k] != #[trigger] r@[m],
            decreases ports@.len() - i,
        {
            let p = ports[i];
            if 1 <= p && p <= 65535 && !contains_u32(&r, p) {
                let ghost old_r = r@;
                r.push(p);
                proof {
                    assert(old_r.push(p) =~= old_r + seq![p]);
                    assert(sanitize_from(ports@, i as int, old_r) =~= seq![p] + sanitize_from(
                        ports@,
                        i as int + 1,
                        r@,
                    ));
                    assert(sanitize_from(ports@, 0, Seq::empty()) =~= r@ + sanitize_from(
                        ports@,
                        i as int + 1,
                        r@,
                    ));
                }
            }
            i = i + 1;
        }
        if r.len() > 0 {
            r
        } else {
            let mut d: Vec<u32> = Vec::new();
            d.push(22);
            d.push(80);
            d.push(443);
            proof {
                assert(d@ =~= default_ports());
            }
            d
        }
    }
}

#[verifier::external_type_specification]
#[verifier::external_body]
pub struct ExIpNet(ipnet::IpNet);

/// The normalized host-address strings the parsed network implies.
pub uninterp spec fn net_hosts(n: ipnet::IpNet) -> Seq<Seq<char>>;

/// Which strings `ipnet::IpNet::from_str` accepts, and the host addresses
/// of the network each accepted string denotes.
pub uninterp spec fn cidr_hosts_of(s: Seq<char>) -> Option<Seq<Seq<char>>>;

/// Relies on ipnet::IpNet::from_str: deterministic in the string, and the
/// network it returns implies the host addresses `cidr_hosts_of` names.
#[verifier::external_body]
fn parse_net(s: &str) -> (r: Option<ipnet::IpNet>)
    ensures
        (r is Some) == (cidr_hosts_of(s@) is Some),
        r matches Some(n) ==> cidr_hosts_of(s@) == Option::Some(net_hosts(n)),
{
    s.parse::<ipnet::IpNet>().ok()
}

/// Relies on ipnet::IpNet::hosts and the display form of the addresses it
/// yields: every host address the prefix implies, in address order, with
/// network and broadcast addresses excluded below /31 for IPv4.
#[verifier::external_body]
fn host_strings(n: &ipnet::IpNet) -> (r: Vec<String>)
    ensures
        r.deep_view() == net_hosts(*n),
{
    n.hosts().map(|a| a.to_string()).collect()
}

/// An ASCII decimal digit.
pub open spec fn is_digit(c: char) -> bool {
    48 <= c as int && c as int <= 57
}

/// The value of a sequence of decimal digits.
pub open spec fn dec_value(s: Seq<char>) -> int
    decreases s.len()
{
    if s.len() == 0 {
        0
    } else {
        dec_value(s.drop_last()) * 10 + (s.last() as int - 48)
    }
}

/// One octet of a dotted-quad IPv4 literal: one to three digits, no
/// leading zero, value at most 255.
pub open spec fn is_dec_octet(s: Seq<char>) -> bool {
    1 <= s.len() <= 3 && (forall|k: int| 0 <= k < s.len() ==> is_digit(s[k])) && (s.len() > 1
        ==> s[0] != '0') && dec_value(s) <= 255
}

/// A canonical dotted-quad IPv4 address literal.
pub open spec fn is_ipv4_literal(s: Seq<char>) -> bool {
    let parts = split_on(s, '.');
    parts.len() == 4 && (forall|k: int| 0 <= k < 4 ==> is_dec_octet(#[trigger] parts[k]))
}

fn is_dec_octet_x(s: &str) -> (r: bool)
    ensures
        r == is_dec_octet(s@),
{
    let n = s.unicode_len();
    if n < 1 || n > 3 {
        return false;
    }
    let mut val: u32 = 0;
    let mut i: usize = 0;
    while i < n
        invariant
            n as int == s@.len(),
            n <= 3,
            i <= n,
            forall|k: int| 0 <= k < i ==> is_digit(s@[k]),
            i == 0 ==> val == 0,
            i == 1 ==> val <= 9,
            i == 2 ==> val <= 99,
            i == 3 ==> val <= 999,
            val as int == dec_value(s@.take(i as int)),
        decreases n - i,
    {
        let c = s.get_char(i);
        let code = c as u32;
        if code < 48 || code > 57 {
            return false;
        }
        proof {
            assert(s@.take(i as int + 1).drop_last() =~= s@.take(i as int));
            assert(s@.take(i as int + 1).last() == s@[i as int]);
        }
        val = val * 10 + (code - 48);
        i = i + 1;
    }
    proof {
        assert(s@.take(n as int) =~= s@);
    }
    if n > 1 && s.get_char(0) == '0' {
        return false;
    }
    val <= 255
}

fn is_ipv4_x(s: &str) -> (r: bool)
    ensures
        r == is_ipv4_literal(s@),
{
    let parts = split_str(s, '.');
    proof {
        assert(parts.deep_view() == split_on(s@, '.'));
    }
    if parts.len() != 4 {
        return false;
    }
    let mut k: usize = 0;
    while k < 4
        invariant
            parts.deep_view() == split_on(s@, '.'),
            parts@.len() == 4,
            k <= 4,
            forall|m: int| 0 <= m < k ==> is_dec_octet(#[trigger] split_on(s@, '.')[m]),
        decreases 4 - k,
    {
        proof {
            assert(parts.deep_view()[k as int] == parts@[k as int]@);
        }
        if !is_dec_octet_x(parts[k].as_str()) {
            return false;
        }
        k = k + 1;
    }
    true
}

/// What one target string expands to: the hosts of a CIDR block; else a
/// canonical IPv4 literal stands for itself; else an IPv6 literal is read
/// as its own /128 network; else nothing.
pub open spec fn expand_one(s: Seq<char>) -> Seq<Seq<char>> {
    match cidr_hosts_of(s) {
        Option::Some(h) => h,
        Option::None => if is_ipv4_literal(s) {
            seq![s]
        } else {
            match cidr_hosts_of(s + "/128"@) {
                Option::Some(h) => h,
                Option::None => Seq::empty(),
            }
        },
    }
}

/// The hosts the target strings from index `i` on expand to, in order.
pub open spec fn expand_from(specs: Seq<Seq<char>>, i: int) -> Seq<Seq<char>>
    decreases specs.len() - i when 0 <= i <= specs.len()
{
    if i >= specs.len() {
        Seq::empty()
    } else {
        expand_one(specs[i]) + expand_from(specs, i + 1)
    }
}

/// Expand target specifications into single host addresses: each string
/// is tried as a CIDR block first, then as a bare address; strings
/// matching neither are dropped silently.
pub fn expand_targets(specs: &Vec<String>) -> (r: Vec<String>)
    ensures
        r.deep_view() == expand_from(specs.deep_view(), 0),
{
    let ghost sv = specs.deep_view();
    let mut r: Vec<String> = Vec::new();
    let mut i: usize = 0;
    proof {
        assert(r.deep_view() =~= Seq::<Seq<char>>::empty());
    }
    while i < specs.len()
        invariant
            sv == specs.deep_view(),
            specs@.len() == sv.len(),
            i <= sv.len(),
            expand_from(sv, 0) == r.deep_view() + expand_from(sv, i as int),
        decreases specs@.len() - i,
    {
        let s: &String = &specs[i];
        proof {
            assert(sv[i as int] == specs@[i as int]@);
        }
        let ghost old_deep = r.deep_view();
        match parse_net(s.as_str()) {
            Option::Some(net) => {
                let mut hs = host_strings(&net);
                let ghost hdeep = hs.deep_view();
                r.append(&mut hs);
                proof {
                    assert(r.deep_view() =~= old_deep + hdeep);
                }
            },
            Option::None => {
                if is_ipv4_x(s.as_str()) {
                    r.push(s.clone());
                    proof {
                        assert(r.deep_view() =~= old_deep + seq![sv[i as int]]);
                    }
                } else {
                    let aug = s.clone().concat("/128");
                    proof {
                        assert(aug@ == sv[i as int] + "/128"@);
                    }
                    match parse_net(aug.as_str()) {
                        Option::Some(net) => {
                            let mut hs = host_strings(&net);
                            let ghost hdeep = hs.deep_view();
                            r.append(&mut hs);
                            proof {
                                assert(r.deep_view() =~= old_deep + hdeep);
                            }
                        },
                        Option::None => {},
                    }
                }
            },
        }
        proof {
            assert(expand_from(sv, i as int) == expand_one(sv[i as int]) + expand_from(
                sv,
                i as int + 1,
            ));
            assert(expand_from(sv, 0) =~= r.deep_view() + expand_from(sv, i as int + 1));
        }
        i = i + 1;
    }
    r
}

/// What `String::from_utf8_lossy` decodes a byte sequence to.
pub uninterp spec fn decoded_lossy(b: Seq<u8>) -> Seq<char>;

/// Relies on String::from_utf8_lossy: deterministic in the bytes, and on
/// valid UTF-8 it decodes exactly; invalid sequences are replaced, never
/// fatal.
#[verifier::external_body]
pub fn lossy_utf8(b: &[u8]) -> (r: String)
    ensures
        r@ == decoded_lossy(b@),
        vstd::utf8::valid_utf8(b@) ==> r@ == vstd::utf8::decode_utf8(b@),
{
    String::from_utf8_lossy(b).into_owned()
}

/// Relies on chrono::Utc::now and DateTime::to_rfc3339; the moment read
/// makes the result nondeterministic, so nothing is stated of it.
#[verifier::external_body]
fn now_rfc3339() -> (r: String) {
    chrono::Utc::now().to_rfc3339()
}

pub open spec fn banner_view(b: Option<Vec<u8>>) -> Option<Seq<u8>> {
    match b {
        Option::Some(v) => Option::Some(v@),
        Option::None => Option::None,
    }
}

/// The port result an open port yields: state "open", protocol "tcp",
/// and, when service detection ran on a captured banner, the service and
/// version the probe set assigns to the banner's decoded text.
pub open spec fn port_model_of(
    port: u32,
    detect: bool,
    banner: Option<Seq<u8>>,
    probes: Seq<ProbeModel>,
) -> PortModel {
    let sv = if detect {
        match banner {
            Option::Some(b) => match_result(probes, 0, "TCP"@, decoded_lossy(b)),
            Option::None => ("unknown"@, ""@),
        }
    } else {
        ("unknown"@, ""@)
    };
    PortModel { port, state: "open"@, service: sv.0, protocol: "tcp"@, version: sv.1 }
}

/// The outcome of one connection attempt: a failed connect yields
/// nothing — closed ports are never represented — and a successful one
/// yields exactly one open-port result.
pub fn scan_port_outcome(
    port: u32,
    connected: bool,
    detect_services: bool,
    banner: Option<Vec<u8>>,
    probes: &Vec<NmapProbe>,
) -> (r: Option<PortResult>)
    ensures
        (r is Some) == connected,
        r matches Some(p) ==> p@ == port_model_of(
            port,
            detect_services,
            banner_view(banner),
            probes_view(probes@),
        ),
{
    if !connected {
        return Option::None;
    }
    let (service, version) = if detect_services {
        match &banner {
            Option::Some(b) => {
                let text = lossy_utf8(b.as_slice());
                match_service(probes, "TCP", text.as_str())
            },
            Option::None => (String::from_str("unknown"), String::from_str("")),
        }
    } else {
        (String::from_str("unknown"), String::from_str(""))
    };
    Option::Some(
        PortResult {
            port,
            state: String::from_str("open"),
            service,
            protocol: String::from_str("tcp"),
            version,
        },
    )
}

/// One host of the scan output: only hosts with at least one open port
/// are ever represented.
pub struct HostResult {
    pub host: String,
    pub hostname: String,
    pub status: String,
    pub os: String,
    pub last_seen: String,
    pub risk: String,
    pub ports: Vec<PortResult>,
}

/// The mathematical content of a `HostResult`.
pub struct HostModel {
    pub host: Seq<char>,
    pub hostname: Seq<char>,
    pub status: Seq<char>,
    pub os: Seq<char>,
    pub last_seen: Seq<char>,
    pub risk: Seq<char>,
    pub ports: Seq<PortModel>,
}

impl View for HostResult {
    type V = HostModel;

    open spec fn view(&self) -> HostModel {
        HostModel {
            host: self.host@,
            hostname: self.hostname@,
            status: self.status@,
            os: self.os@,
            last_seen: self.last_seen@,
            risk: self.risk@,
            ports: ports_view(self.ports@),
        }
    }
}

/// One streamed unit of scan output: the running and total counters in
/// decimal, and the finished host's result when it had open ports.
pub struct StreamUnit {
    pub scanned: String,
    pub total: String,
    pub results: Vec<HostResult>,
}

/// A host result carries exactly what its inputs dictate; the last-seen
/// timestamp is read from the clock and left unconstrained.
pub open spec fn host_model_matches(
    h: HostModel,
    host: Seq<char>,
    hostname: Seq<char>,
    ports: Seq<PortModel>,
) -> bool {
    &&& h.host == host
    &&& h.hostname == hostname
    &&& h.status == "up"@
    &&& h.os == os_guess(ports)
    &&& h.risk == risk_of(ports)
    &&& h.ports == ports
}

/// The fixed total of a scan: hosts times ports, saturating at the
/// machine word.
pub open spec fn total_spec(hosts: int, ports: int) -> int {
    if hosts * ports <= usize::MAX as int {
        hosts * ports
    } else {
        usize::MAX as int
    }
}

/// The progress accounting of one scan: `scanned` advances once per
/// completed host — including hosts later dropped for having no open
/// port — and never exceeds the fixed `total`.
pub struct ScanEngine {
    pub scanned: usize,
    pub num_hosts: usize,
    pub ports_per_host: usize,
    pub total: usize,
}

pub open spec fn engine_wf(e: ScanEngine) -> bool {
    &&& e.scanned <= e.num_hosts
    &&& e.ports_per_host >= 1
    &&& e.total as int == total_spec(e.num_hosts as int, e.ports_per_host as int)
}

proof fn lemma_hosts_le_total(e: ScanEngine)
    requires
        engine_wf(e),
    ensures
        e.num_hosts <= e.total,
{
    assert(e.num_hosts as int * 1 <= e.num_hosts as int * e.ports_per_host as int) by (
    nonlinear_arith)
        requires
            e.ports_per_host >= 1,
    ;
}

impl ScanEngine {
    /// Start the accounting of a scan over the given host and port counts.
    pub fn start(num_hosts: usize, ports_per_host: usize) -> (e: ScanEngine)
        requires
            ports_per_host >= 1,
        ensures
            engine_wf(e),
            e.scanned == 0,
            e.num_hosts == num_hosts,
            e.ports_per_host == ports_per_host,
    {
        let total = match num_hosts.checked_mul(ports_per_host) {
            Option::Some(t) => t,
            Option::None => usize::MAX,
        };
        ScanEngine { scanned: 0, num_hosts, ports_per_host, total }
    }

    /// Record one finished host and emit its stream unit: the counter
    /// advances by exactly one and stays within the total; the host
    /// appears in the unit exactly when it had at least one open port.
    pub fn host_done(&mut self, host: String, hostname: String, open_ports: Vec<PortResult>) -> (u:
        StreamUnit)
        requires
            engine_wf(*old(self)),
            old(self).scanned < old(self).num_hosts,
        ensures
            engine_wf(*final(self)),
            final(self).scanned == old(self).scanned + 1,
            final(self).num_hosts == old(self).num_hosts,
            final(self).ports_per_host == old(self).ports_per_host,
            final(self).total == old(self).total,
            final(self).scanned <= final(self).total,
            u.scanned@ == dec_rep(final(self).scanned as int),
            u.total@ == dec_rep(final(self).total as int),
            open_ports@.len() == 0 ==> u.results@.len() == 0,
            open_ports@.len() > 0 ==> u.results@.len() == 1 && host_model_matches(
                u.results@[0]@,
                host@,
                hostname@,
                ports_view(open_ports@),
            ),
    {
        proof {
            lemma_hosts_le_total(*self);
        }
        self.scanned = self.scanned + 1;
        let scanned_str = dec_string(self.scanned as u64);
        let total_str = dec_string(self.total as u64);
        let mut results: Vec<HostResult> = Vec::new();
        if open_ports.len() > 0 {
            let os = guess_os(&open_ports);
            let risk = evaluate_risk(&open_ports);
            let last_seen = now_rfc3339();
            results.push(
                HostResult {
                    host,
                    hostname,
                    status: String::from_str("up"),
                    os,
                    last_seen,
                    risk,
                    ports: open_ports,
                },
            );
        }
        StreamUnit { scanned: scanned_str, total: total_str, results }
    }
}

/// A scan request: target specifications, an explicit port list, and the
/// full-scan and service-detection switches.
pub struct ScanRequest {
    pub ip_addresses: Vec<String>,
    pub ports: Vec<u32>,
    pub full_scan: bool,
    pub detect_services: bool,
}

/// An expanded scan: the resolved hosts and ports, the detection switch
/// carried through, and the fixed total.
pub struct ScanPlan {
    pub hosts: Vec<String>,
    pub ports: Vec<u32>,
    pub detect_services: bool,
    pub total: usize,
}

/// The network scanning service, holding the probe database it consults.
pub struct NetworkScannerService {
    pub probes: Vec<NmapProbe>,
}

impl NetworkScannerService {
    /// Expand a request into the full scan plan: targets to single hosts,
    /// the port specification to the ordered port set, and the total
    /// computed once up front.
    pub fn plan_scan(&self, req: &ScanRequest) -> (p: ScanPlan)
        ensures
            p.hosts.deep_view() == expand_from(req.ip_addresses.deep_view(), 0),
            p.ports@ == resolved_ports_spec(req.ports@, req.full_scan),
            p.ports@.len() >= 1,
            p.detect_services == req.detect_services,
            p.total as int == total_spec(p.hosts@.len() as int, p.ports@.len() as int),
    {
        let hosts = expand_targets(&req.ip_addresses);
        let ports = resolve_ports(&req.ports, req.full_scan);
        let total = match hosts.len().checked_mul(ports.len()) {
            Option::Some(t) => t,
            Option::None => usize::MAX,
        };
        proof {
            assert(hosts.deep_view().len() == hosts@.len());
        }
        ScanPlan { hosts, ports, detect_services: req.detect_services, total }
    }
}

/// The scanning service over the built-in fallback probe set.
pub fn get_service() -> (s: NetworkScannerService)
    ensures
        probes_view(s.probes@).len() == 1,
        probes_view(s.probes@)[0].name == "basic"@,
        probes_view(s.probes@)[0].protocol == "TCP"@,
        probes_view(s.probes@)[0].payload == seq![13u8, 10u8],
        probes_view(s.probes@)[0].matches == builtin_match_models(),
{
    NetworkScannerService { probes: builtin_probes() }
}

} // verus!
