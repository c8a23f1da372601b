//! The probe-database text format: one probe per block, started by a
//! `Probe <name> <payload> [<protocol>]` line, followed by `match` and
//! `fallback` lines. Malformed lines are skipped, never fatal.

use vstd::prelude::*;
use vstd::string::*;
use vstd::utf8::encode_utf8;
use crate::text::{
    replace2, replace_pair, is_space, is_space_x, skip_spaces, skip_token, find_nonspace,
    find_token_end, find_last_char, last_index_of, lemma_last_index_of_bounds,
    lemma_skip_spaces_bounds, lemma_skip_token_bounds, trim_spec, trim_str, has_prefix,
    starts_with_str, tokens_of, tokenize, split_on, split_str,
};
use crate::probe::{
    NmapProbe, NmapMatch, ProbeModel, MatchModel, probes_view, regex_pattern, regex_compiles,
    compile_pattern,
};

verus! {

/// The payload bytes a payload token denotes: its UTF-8 bytes with the
/// escape pairs `\r` `\n` `\0` `\\` each replaced by its byte equivalent,
/// one global pass per pair, `\\` substituted last.
pub open spec fn unescape_payload(b: Seq<u8>) -> Seq<u8> {
    replace2(replace2(replace2(replace2(b, 92, 114, 13), 92, 110, 10), 92, 48, 0), 92, 92, 92)
}

/// Decode the escape sequences of a payload token into raw bytes.
pub fn parse_payload(payload_str: &str) -> (r: Vec<u8>)
    ensures
        r@ == unescape_payload(encode_utf8(payload_str@)),
{
    let b = payload_str.as_bytes();
    let v1 = replace_pair(b, 92, 114, 13);
    let v2 = replace_pair(v1.as_slice(), 92, 110, 10);
    let v3 = replace_pair(v2.as_slice(), 92, 48, 0);
    replace_pair(v3.as_slice(), 92, 92, 92)
}

/// The keyword that a match rule must open with.
pub open spec fn match_kw() -> Seq<char> {
    seq!['m', 'a', 't', 'c', 'h']
}

/// The rule pattern `match\s+(\S+)\s+m/(.+)/` applied at position `i` of
/// the line: the keyword, whitespace, the service token, whitespace, the
/// literal `m/`, then a pattern of at least one character ending at the
/// last `/` of the line.
pub open spec fn match_at(line: Seq<char>, i: int) -> Option<(Seq<char>, Seq<char>)> {
    if !(0 <= i && i + 5 <= line.len() && line.subrange(i, i + 5) == match_kw()) {
        Option::None
    } else {
        let j0 = i + 5;
        if !(j0 < line.len() && is_space(line[j0])) {
            Option::None
        } else {
            let j = skip_spaces(line, j0);
            if !(j < line.len()) {
                Option::None
            } else {
                let k = skip_token(line, j);
                if !(k < line.len()) {
                    Option::None
                } else {
                    let k2 = skip_spaces(line, k);
                    if !(k2 + 1 < line.len() && line[k2] == 'm' && line[k2 + 1] == '/') {
                        Option::None
                    } else {
                        let p = k2 + 2;
                        let q = last_index_of(line, p + 1, '/');
                        if q >= p + 1 {
                            Option::Some((line.subrange(j, k), line.subrange(p, q)))
                        } else {
                            Option::None
                        }
                    }
                }
            }
        }
    }
}

/// The leftmost position at or after `i` where the rule pattern applies.
pub open spec fn find_match_from(line: Seq<char>, i: int) -> Option<(Seq<char>, Seq<char>)>
    decreases line.len() - i when 0 <= i <= line.len()
{
    if i >= line.len() {
        Option::None
    } else if match_at(line, i) is Some {
        match_at(line, i)
    } else {
        find_match_from(line, i + 1)
    }
}

/// The service token and pattern a `match` line denotes, if well formed.
pub open spec fn match_rule_spec(line: Seq<char>) -> Option<(Seq<char>, Seq<char>)> {
    find_match_from(line, 0)
}

/// Try the rule pattern at one position of the line.
fn try_match_at(line: &str, i: usize) -> (r: Option<(String, String)>)
    requires
        i as int <= line@.len(),
    ensures
        (r is Some) == (match_at(line@, i as int) is Some),
        r matches Some(t) ==> match_at(line@, i as int) matches Some(m) && t.0@ == m.0 && t.1@
            == m.1,
{
    let n = line.unicode_len();
    if n - i < 5 {
        return Option::None;
    }
    if line.get_char(i) != 'm' || line.get_char(i + 1) != 'a' || line.get_char(i + 2) != 't'
        || line.get_char(i + 3) != 'c' || line.get_char(i + 4) != 'h' {
        proof {
            let sub = line@.subrange(i as int, i as int + 5);
            assert(sub[0] == line@[i as int] && sub[1] == line@[i as int + 1] && sub[2] == line@[
                i as int + 2
            ] && sub[3] == line@[i as int + 3] && sub[4] == line@[i as int + 4]);
        }
        return Option::None;
    }
    proof {
        assert(line@.subrange(i as int, i as int + 5) =~= match_kw());
    }
    let j0 = i + 5;
    if j0 >= n {
        return Option::None;
    }
    if !is_space_x(line.get_char(j0)) {
        return Option::None;
    }
    let j = find_nonspace(line, j0);
    if j >= n {
        return Option::None;
    }
    let k = find_token_end(line, j);
    if k >= n {
        return Option::None;
    }
    let k2 = find_nonspace(line, k);
    if n - k2 < 2 {
        proof {
            lemma_skip_spaces_bounds(line@, k as int);
        }
        return Option::None;
    }
    if line.get_char(k2) != 'm' || line.get_char(k2 + 1) != '/' {
        return Option::None;
    }
    let p = k2 + 2;
    if p >= n {
        proof {
            lemma_last_index_of_bounds(line@, p as int + 1, '/');
        }
        return Option::None;
    }
    match find_last_char(line, p + 1, '/') {
        Option::Some(q) => {
            proof {
                lemma_last_index_of_bounds(line@, p as int + 1, '/');
                lemma_skip_token_bounds(line@, j as int);
            }
            let service = String::from_str(line.substring_char(j, k));
            let pattern = String::from_str(line.substring_char(p, q));
            Option::Some((service, pattern))
        },
        Option::None => Option::None,
    }
}

/// Parse a `match` line into its service label and compiled pattern; a
/// line that does not fit the rule pattern, or whose pattern the regex
/// engine rejects, yields nothing.
pub fn parse_match_rule(line: &str) -> (r: Option<(String, regex::Regex)>)
    ensures
        match match_rule_spec(line@) {
            Option::Some(m) => if regex_compiles(m.1) {
                r matches Some(t) && t.0@ == m.0 && regex_pattern(t.1) == m.1
            } else {
                r is None
            },
            Option::None => r is None,
        },
{
    let n = line.unicode_len();
    let mut i: usize = 0;
    while i < n
        invariant
            n as int == line@.len(),
            i <= n,
            find_match_from(line@, 0) == find_match_from(line@, i as int),
        decreases n - i,
    {
        match try_match_at(line, i) {
            Option::Some(t) => {
                match compile_pattern(t.1.as_str()) {
                    Option::Some(re) => {
                        return Option::Some((t.0, re));
                    },
                    Option::None => {
                        return Option::None;
                    },
                }
            },
            Option::None => {
                i = i + 1;
            },
        }
    }
    Option::None
}

/// The probes accumulated so far and the block currently open.
pub struct ParseState {
    pub done: Seq<ProbeModel>,
    pub cur: Option<ProbeModel>,
}

pub open spec fn probe_prefix() -> Seq<char> {
    seq!['P', 'r', 'o', 'b', 'e', ' ']
}

pub open spec fn match_prefix() -> Seq<char> {
    seq!['m', 'a', 't', 'c', 'h', ' ']
}

pub open spec fn fallback_prefix() -> Seq<char> {
    seq!['f', 'a', 'l', 'l', 'b', 'a', 'c', 'k', ' ']
}

pub open spec fn default_protocol() -> Seq<char> {
    seq!['T', 'C', 'P']
}

/// Close the open block, if any, appending its probe to the finished ones.
pub open spec fn flush(st: ParseState) -> Seq<ProbeModel> {
    match st.cur {
        Option::Some(c) => st.done.push(c),
        Option::None => st.done,
    }
}

/// How one raw line transforms the parse state: blank lines and comments
/// are skipped; a `Probe` line closes the open block and opens a new one
/// when it has at least three tokens; `match` and `fallback` lines extend
/// the open block; anything else is ignored.
pub open spec fn parse_step(st: ParseState, raw: Seq<char>) -> ParseState {
    let line = trim_spec(raw);
    if line.len() == 0 || line[0] == '#' {
        st
    } else if has_prefix(line, probe_prefix()) {
        let done = flush(st);
        let toks = tokens_of(line);
        if toks.len() >= 3 {
            ParseState {
                done,
                cur: Option::Some(
                    ProbeModel {
                        name: toks[1],
                        payload: unescape_payload(encode_utf8(toks[2])),
                        fallback: Seq::empty(),
                        matches: Seq::empty(),
                        protocol: if toks.len() >= 4 {
                            toks[3]
                        } else {
                            default_protocol()
                        },
                    },
                ),
            }
        } else {
            ParseState { done, cur: Option::None }
        }
    } else {
        match st.cur {
            Option::Some(cur) => {
                if has_prefix(line, match_prefix()) {
                    match match_rule_spec(line) {
                        Option::Some(m) => if regex_compiles(m.1) {
                            ParseState {
                                done: st.done,
                                cur: Option::Some(
                                    ProbeModel {
                                        matches: cur.matches.push(
                                            MatchModel {
                                                service: m.0,
                                                pattern: m.1,
                                                version: Option::None,
                                            },
                                        ),
                                        ..cur
                                    },
                                ),
                            }
                        } else {
                            st
                        },
                        Option::None => st,
                    }
                } else if has_prefix(line, fallback_prefix()) {
                    ParseState {
                        done: st.done,
                        cur: Option::Some(
                            ProbeModel { fallback: split_on(line.skip(9), ','), ..cur },
                        ),
                    }
                } else {
                    st
                }
            },
            Option::None => st,
        }
    }
}

/// The probes the lines from index `i` on produce, starting from `st`.
pub open spec fn parse_from(lines: Seq<Seq<char>>, i: int, st: ParseState) -> Seq<ProbeModel>
    decreases lines.len() - i when 0 <= i <= lines.len()
{
    if i >= lines.len() {
        flush(st)
    } else {
        parse_from(lines, i + 1, parse_step(st, lines[i]))
    }
}

/// The probe models the whole input text denotes.
pub open spec fn parse_probes(input: Seq<char>) -> Seq<ProbeModel> {
    parse_from(split_on(input, '\n'), 0, ParseState { done: Seq::empty(), cur: Option::None })
}

/// A line that, trimmed, opens a match rule the parser has to skip: the
/// rule pattern does not apply to it, or the pattern it names does not
/// compile.
pub open spec fn is_skipped_match_line(raw: Seq<char>) -> bool {
    let line = trim_spec(raw);
    has_prefix(line, match_prefix()) && (match match_rule_spec(line) {
        Option::Some(m) => !regex_compiles(m.1),
        Option::None => true,
    })
}

/// A skipped match line leaves the parse state exactly as it was.
pub proof fn lemma_skipped_match_line_inert(st: ParseState, raw: Seq<char>)
    requires
        is_skipped_match_line(raw),
    ensures
        parse_step(st, raw) == st,
{
    let line = trim_spec(raw);
    assert(line.subrange(0, 6)[0] == line[0]);
    assert(line[0] == 'm');
    if has_prefix(line, probe_prefix()) {
        assert(line.subrange(0, 6)[0] == line[0]);
    }
}

proof fn lemma_parse_suffix_shift(lines: Seq<Seq<char>>, k: int, j: int, st: ParseState)
    requires
        0 <= k < lines.len(),
        k + 1 <= j <= lines.len(),
    ensures
        parse_from(lines, j, st) == parse_from(lines.remove(k), j - 1, st),
    decreases lines.len() - j,
{
    if j < lines.len() {
        assert(lines.remove(k)[j - 1] == lines[j]);
        lemma_parse_suffix_shift(lines, k, j + 1, parse_step(st, lines[j]));
    }
}

/// Law: a malformed `match` line is skipped without aborting the parse of
/// anything around it — the lines parse exactly as if that line were
/// absent, from any parse state.
pub proof fn lemma_malformed_match_line_skipped(lines: Seq<Seq<char>>, k: int, i: int, st: ParseState)
    requires
        0 <= i <= k < lines.len(),
        is_skipped_match_line(lines[k]),
    ensures
        parse_from(lines, i, st) == parse_from(lines.remove(k), i, st),
    decreases k - i,
{
    if i == k {
        lemma_skipped_match_line_inert(st, lines[k]);
        lemma_parse_suffix_shift(lines, k, k + 1, st);
    } else {
        assert(lines.remove(k)[i] == lines[i]);
        lemma_malformed_match_line_skipped(lines, k, i + 1, parse_step(st, lines[i]));
    }
}

/// Law: in a full parse from the initial state, a malformed `match` line
/// contributes nothing — the probe list is the one the remaining lines
/// alone produce.
pub proof fn lemma_malformed_match_line_dropped(lines: Seq<Seq<char>>, k: int)
    requires
        0 <= k < lines.len(),
        is_skipped_match_line(lines[k]),
    ensures
        parse_from(lines, 0, ParseState { done: Seq::empty(), cur: Option::None }) == parse_from(
            lines.remove(k),
            0,
            ParseState { done: Seq::empty(), cur: Option::None },
        ),
{
    lemma_malformed_match_line_skipped(
        lines,
        k,
        0,
        ParseState { done: Seq::empty(), cur: Option::None },
    );
}

/// The model of an open block held in executable form.
pub open spec fn cur_view(o: Option<NmapProbe>) -> Option<ProbeModel> {
    match o {
        Option::Some(p) => Option::Some(p@),
        Option::None => Option::None,
    }
}

/// Parse the probe-database text format. Parsing never fails: malformed
/// lines are skipped and everything well formed around them is kept.
pub fn parse_nmap_service_probes(input: &str) -> (r: Vec<NmapProbe>)
    ensures
        probes_view(r@) == parse_probes(input@),
{
    let lines = split_str(input, '\n');
    let ghost lseq = lines.deep_view();
    let mut done: Vec<NmapProbe> = Vec::new();
    let mut cur: Option<NmapProbe> = Option::None;
    let mut li: usize = 0;
    proof {
        assert(probes_view(done@) =~= Seq::<ProbeModel>::empty());
    }
    while li < lines.len()
        invariant
            lseq == lines.deep_view(),
            lseq == split_on(input@, '\n'),
            lines@.len() == lseq.len(),
            li <= lines@.len(),
            parse_probes(input@) == parse_from(
                lseq,
                li as int,
                ParseState { done: probes_view(done@), cur: cur_view(cur) },
            ),
        decreases lines@.len() - li,
    {
        let ghost st = ParseState { done: probes_view(done@), cur: cur_view(cur) };
        let raw: &String = &lines[li];
        proof {
            assert(lseq[li as int] == lines@[li as int]@);
        }
        let line = trim_str(raw.as_str());
        proof {
            reveal_strlit("Probe ");
            reveal_strlit("match ");
            reveal_strlit("fallback ");
            reveal_strlit("TCP");
            assert("Probe "@ =~= probe_prefix());
            assert("match "@ =~= match_prefix());
            assert("fallback "@ =~= fallback_prefix());
            assert("TCP"@ =~= default_protocol());
        }
        if line.is_empty() || line.get_char(0) == '#' {
            proof {
                assert(parse_step(st, lseq[li as int]) == st);
            }
        } else if starts_with_str(line, "Probe ") {
            match cur {
                Option::Some(c) => {
                    let ghost old_done = probes_view(done@);
                    done.push(c);
                    proof {
                        assert(probes_view(done@) =~= old_done.push(c@));
                    }
                },
                Option::None => {},
            }
            let toks = tokenize(line);
            proof {
                assert(toks.deep_view() == tokens_of(line@));
            }
            if toks.len() >= 3 {
                proof {
                    assert(toks.deep_view()[1] == toks@[1]@);
                    assert(toks.deep_view()[2] == toks@[2]@);
                }
                let name = toks[1].clone();
                let payload = parse_payload(toks[2].as_str());
                let protocol = if toks.len() >= 4 {
                    proof {
                        assert(toks.deep_view()[3] == toks@[3]@);
                    }
                    toks[3].clone()
                } else {
                    String::from_str("TCP")
                };
                let np = NmapProbe {
                    name,
                    payload,
                    fallback: Vec::new(),
                    matches: Vec::new(),
                    protocol,
                };
                proof {
                    assert(np@.fallback =~= Seq::<Seq<char>>::empty());
                    assert(np@.matches =~= Seq::<MatchModel>::empty());
                }
                cur = Option::Some(np);
            } else {
                cur = Option::None;
            }
        } else {
            match cur {
                Option::Some(mut c) => {
                    if starts_with_str(line, "match ") {
                        match parse_match_rule(line) {
                            Option::Some((svc, re)) => {
                                let ghost old_matches = c@.matches;
                                let ghost svcv = svc@;
                                let ghost patv = regex_pattern(re);
                                c.matches.push(
                                    NmapMatch { service: svc, regex: re, version_info: Option::None },
                                );
                                proof {
                                    assert(c@.matches =~= old_matches.push(
                                        MatchModel {
                                            service: svcv,
                                            pattern: patv,
                                            version: Option::None,
                                        },
                                    ));
                                }
                            },
                            Option::None => {},
                        }
                    } else if starts_with_str(line, "fallback ") {
                        let nl = line.unicode_len();
                        let rest = line.substring_char(9, nl);
                        proof {
                            assert(rest@ =~= line@.skip(9));
                        }
                        c.fallback = split_str(rest, ',');
                    }
                    cur = Option::Some(c);
                },
                Option::None => {
                    cur = Option::None;
                },
            }
        }
        proof {
            assert(ParseState { done: probes_view(done@), cur: cur_view(cur) } == parse_step(
                st,
                lseq[li as int],
            ));
        }
        li = li + 1;
    }
    match cur {
        Option::Some(c) => {
            let ghost old_done = probes_view(done@);
            done.push(c);
            proof {
                assert(probes_view(done@) =~= old_done.push(c@));
            }
        },
        Option::None => {},
    }
    done
}

} // verus!
