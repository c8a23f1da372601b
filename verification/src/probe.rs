//! Service-fingerprint probes: the data model, the trusted view of the
//! regex engine that match rules compile to, the first-match-wins banner
//! matcher, and the built-in fallback probe set.

use vstd::prelude::*;
use vstd::string::*;
use crate::text::eq_ignore_ascii_case;
use crate::text::eq_ignore_case_str;

verus! {

#[verifier::external_type_specification]
#[verifier::external_body]
pub struct ExRegex(regex::Regex);

/// The pattern a compiled regex was built from.
pub uninterp spec fn regex_pattern(re: regex::Regex) -> Seq<char>;

/// Whether `regex::Regex::new` accepts a pattern.
pub uninterp spec fn regex_compiles(pattern: Seq<char>) -> bool;

/// What `regex::Regex::is_match` returns for a pattern and a haystack.
pub uninterp spec fn regex_match(pattern: Seq<char>, text: Seq<char>) -> bool;

/// Relies on regex::Regex::new: deterministic in the pattern, and the
/// compiled regex holds exactly the pattern it was built from.
#[verifier::external_body]
pub fn compile_pattern(pattern: &str) -> (r: Option<regex::Regex>)
    ensures
        r is Some <==> regex_compiles(pattern@),
        r matches Some(re) ==> regex_pattern(re) == pattern@,
{
    regex::Regex::new(pattern).ok()
}

/// Relies on regex::Regex::is_match: a pure function of the compiled
/// pattern and the haystack searched.
#[verifier::external_body]
pub fn regex_is_match(re: &regex::Regex, text: &str) -> (r: bool)
    ensures
        r == regex_match(regex_pattern(*re), text@),
{
    re.is_match(text)
}

/// One `match` rule of a probe: a service label, the compiled pattern
/// tested against a banner, and an optional static version string.
pub struct NmapMatch {
    pub service: String,
    pub regex: regex::Regex,
    pub version_info: Option<String>,
}

/// The mathematical content of an `NmapMatch`.
pub struct MatchModel {
    pub service: Seq<char>,
    pub pattern: Seq<char>,
    pub version: Option<Seq<char>>,
}

impl View for NmapMatch {
    type V = MatchModel;

    open spec fn view(&self) -> MatchModel {
        MatchModel {
            service: self.service@,
            pattern: regex_pattern(self.regex),
            version: match self.version_info {
                Option::Some(v) => Option::Some(v@),
                Option::None => Option::None,
            },
        }
    }
}

/// One service-fingerprint probe: a name, the payload bytes sent after a
/// connect, the protocol the probe applies to, its ordered match rules,
/// and inert fallback metadata.
pub struct NmapProbe {
    pub name: String,
    pub payload: Vec<u8>,
    pub fallback: Vec<String>,
    pub matches: Vec<NmapMatch>,
    pub protocol: String,
}

/// The mathematical content of an `NmapProbe`.
pub struct ProbeModel {
    pub name: Seq<char>,
    pub payload: Seq<u8>,
    pub fallback: Seq<Seq<char>>,
    pub matches: Seq<MatchModel>,
    pub protocol: Seq<char>,
}

impl View for NmapProbe {
    type V = ProbeModel;

    open spec fn view(&self) -> ProbeModel {
        ProbeModel {
            name: self.name@,
            payload: self.payload@,
            fallback: self.fallback.deep_view(),
            matches: self.matches@.map_values(|m: NmapMatch| m@),
            protocol: self.protocol@,
        }
    }
}

/// The models of a sequence of probes, in order.
pub open spec fn probes_view(ps: Seq<NmapProbe>) -> Seq<ProbeModel> {
    ps.map_values(|p: NmapProbe| p@)
}

/// The first rule at or after `i` whose pattern matches the banner.
pub open spec fn first_match_in(rules: Seq<MatchModel>, i: int, banner: Seq<char>) -> Option<
    MatchModel,
>
    decreases rules.len() - i when 0 <= i <= rules.len()
{
    if i >= rules.len() {
        Option::None
    } else if regex_match(rules[i].pattern, banner) {
        Option::Some(rules[i])
    } else {
        first_match_in(rules, i + 1, banner)
    }
}

/// The service and version the ordered probe set, restricted to the active
/// protocol, assigns to a banner: the first matching rule of the first
/// applicable probe wins; the version falls back to the banner itself when
/// the rule carries none; no rule yields ("unknown", "").
pub open spec fn match_result(
    probes: Seq<ProbeModel>,
    i: int,
    protocol: Seq<char>,
    banner: Seq<char>,
) -> (Seq<char>, Seq<char>)
    decreases probes.len() - i when 0 <= i <= probes.len()
{
    if i >= probes.len() {
        ("unknown"@, ""@)
    } else if eq_ignore_ascii_case(probes[i].protocol, protocol) {
        match first_match_in(probes[i].matches, 0, banner) {
            Option::Some(m) => (
                m.service,
                match m.version {
                    Option::Some(v) => v,
                    Option::None => banner,
                },
            ),
            Option::None => match_result(probes, i + 1, protocol, banner),
        }
    } else {
        match_result(probes, i + 1, protocol, banner)
    }
}

/// Match a captured banner against the probe set restricted to `protocol`,
/// first rule whose pattern matches wins.
pub fn match_service(probes: &Vec<NmapProbe>, protocol: &str, banner: &str) -> (r: (String, String))
    ensures
        (r.0@, r.1@) == match_result(probes_view(probes@), 0, protocol@, banner@),
{
    let ghost pv = probes_view(probes@);
    let mut i: usize = 0;
    while i < probes.len()
        invariant
            pv == probes_view(probes@),
            i <= probes@.len(),
            match_result(pv, 0, protocol@, banner@) == match_result(
                pv,
                i as int,
                protocol@,
                banner@,
            ),
        decreases probes@.len() - i,
    {
        let p = &probes[i];
        proof {
            assert(pv[i as int] == probes@[i as int]@);
        }
        if eq_ignore_case_str(p.protocol.as_str(), protocol) {
            let mut j: usize = 0;
            while j < p.matches.len()
                invariant
                    pv == probes_view(probes@),
                    i < probes@.len(),
                    *p == probes@[i as int],
                    pv[i as int] == probes@[i as int]@,
                    eq_ignore_ascii_case(pv[i as int].protocol, protocol@),
                    j <= p.matches@.len(),
                    match_result(pv, 0, protocol@, banner@) == match_result(
                        pv,
                        i as int,
                        protocol@,
                        banner@,
                    ),
                    first_match_in(pv[i as int].matches, 0, banner@) == first_match_in(
                        pv[i as int].matches,
                        j as int,
                        banner@,
                    ),
                decreases p.matches@.len() - j,
            {
                let m = &p.matches[j];
                proof {
                    assert(pv[i as int].matches[j as int] == p.matches@[j as int]@);
                }
                if regex_is_match(&m.regex, banner) {
                    let service = m.service.clone();
                    let version = match &m.version_info {
                        Option::Some(v) => v.clone(),
                        Option::None => String::from_str(banner),
                    };
                    return (service, version);
                }
                j = j + 1;
            }
        }
        i = i + 1;
    }
    (String::from_str("unknown"), String::from_str(""))
}

/// The models of the match rules of the built-in fallback probe: each of
/// its two rules is present exactly when the regex engine accepts its
/// pattern.
pub open spec fn builtin_match_models() -> Seq<MatchModel> {
    let m1 = MatchModel {
        service: "http"@,
        pattern: "(?i)Server:.*Apache|nginx"@,
        version: Option::None,
    };
    let m2 = MatchModel { service: "ssh"@, pattern: "(?i)^SSH-"@, version: Option::None };
    (if regex_compiles("(?i)Server:.*Apache|nginx"@) {
        seq![m1]
    } else {
        Seq::empty()
    }) + (if regex_compiles("(?i)^SSH-"@) {
        seq![m2]
    } else {
        Seq::empty()
    })
}

/// The built-in fallback probe set: one TCP probe named "basic" with a
/// CRLF payload and the two built-in match rules.
pub fn builtin_probes() -> (r: Vec<NmapProbe>)
    ensures
        r@.len() == 1,
        r@[0]@.name == "basic"@,
        r@[0]@.protocol == "TCP"@,
        r@[0]@.payload == seq![13u8, 10u8],
        r@[0]@.fallback == Seq::<Seq<char>>::empty(),
        r@[0]@.matches == builtin_match_models(),
{
    let mut matches: Vec<NmapMatch> = Vec::new();
    if let Option::Some(re) = compile_pattern("(?i)Server:.*Apache|nginx") {
        matches.push(
            NmapMatch {
                service: String::from_str("http"),
                regex: re,
                version_info: Option::None,
            },
        );
    }
    if let Option::Some(re) = compile_pattern("(?i)^SSH-") {
        matches.push(
            NmapMatch { service: String::from_str("ssh"), regex: re, version_info: Option::None },
        );
    }
    let mut payload: Vec<u8> = Vec::new();
    payload.push(13u8);
    payload.push(10u8);
    let probe = NmapProbe {
        name: String::from_str("basic"),
        payload,
        fallback: Vec::new(),
        matches,
        protocol: String::from_str("TCP"),
    };
    proof {
        assert(probe@.matches =~= builtin_match_models());
        assert(probe@.payload =~= seq![13u8, 10u8]);
        assert(probe@.fallback =~= Seq::<Seq<char>>::empty());
    }
    let mut r: Vec<NmapProbe> = Vec::new();
    r.push(probe);
    r
}

} // verus!
