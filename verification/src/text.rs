//! Character- and byte-level text primitives shared by the probe-format
//! parser and the scan engine: whitespace scanning, tokenising, splitting,
//! substring search, case-insensitive comparison, escape decoding and
//! decimal rendering.

use vstd::prelude::*;
use vstd::string::*;

verus! {

/// ASCII whitespace, the class the probe grammar separates fields on.
pub open spec fn is_space(c: char) -> bool {
    c == ' ' || c == '\t' || c == '\r' || c == '\n' || c == '\u{b}' || c == '\u{c}'
}

/// First index at or after `i` holding a non-space character, or `s.len()`.
pub open spec fn skip_spaces(s: Seq<char>, i: int) -> int
    decreases s.len() - i when 0 <= i <= s.len()
{
    if i < s.len() && is_space(s[i]) {
        skip_spaces(s, i + 1)
    } else {
        i
    }
}

/// First index at or after `i` holding a space, or `s.len()`.
pub open spec fn skip_token(s: Seq<char>, i: int) -> int
    decreases s.len() - i when 0 <= i <= s.len()
{
    if i < s.len() && !is_space(s[i]) {
        skip_token(s, i + 1)
    } else {
        i
    }
}

pub proof fn lemma_skip_spaces_bounds(s: Seq<char>, i: int)
    requires
        0 <= i <= s.len(),
    ensures
        i <= skip_spaces(s, i) <= s.len(),
        skip_spaces(s, i) < s.len() ==> !is_space(s[skip_spaces(s, i)]),
        forall|k: int| i <= k < skip_spaces(s, i) ==> is_space(s[k]),
    decreases s.len() - i,
{
    if i < s.len() && is_space(s[i]) {
        lemma_skip_spaces_bounds(s, i + 1);
    }
}

pub proof fn lemma_skip_token_bounds(s: Seq<char>, i: int)
    requires
        0 <= i <= s.len(),
    ensures
        i <= skip_token(s, i) <= s.len(),
        skip_token(s, i) < s.len() ==> is_space(s[skip_token(s, i)]),
    decreases s.len() - i,
{
    if i < s.len() && !is_space(s[i]) {
        lemma_skip_token_bounds(s, i + 1);
    }
}

/// The whitespace-separated tokens of `s` starting at index `i`.
pub open spec fn tokens_from(s: Seq<char>, i: int) -> Seq<Seq<char>>
    decreases s.len() - i when 0 <= i <= s.len() via tokens_from_decreases
{
    let j = skip_spaces(s, i);
    if j >= s.len() {
        Seq::empty()
    } else {
        let k = skip_token(s, j);
        seq![s.subrange(j, k)] + tokens_from(s, k)
    }
}

#[via_fn]
proof fn tokens_from_decreases(s: Seq<char>, i: int) {
    lemma_skip_spaces_bounds(s, i);
    let j = skip_spaces(s, i);
    if j < s.len() {
        lemma_skip_token_bounds(s, j);
    }
}

/// The whitespace-separated tokens of `s`, as `str::split_whitespace` yields them.
pub open spec fn tokens_of(s: Seq<char>) -> Seq<Seq<char>> {
    tokens_from(s, 0)
}

/// Index one past the last non-space character of `s`, or 0 if all spaces.
pub open spec fn rskip_spaces(s: Seq<char>) -> int
    decreases s.len()
{
    if s.len() > 0 && is_space(s[s.len() - 1]) {
        rskip_spaces(s.drop_last())
    } else {
        s.len() as int
    }
}

pub proof fn lemma_rskip_spaces_bounds(s: Seq<char>)
    ensures
        0 <= rskip_spaces(s) <= s.len(),
        rskip_spaces(s) > 0 ==> !is_space(s[rskip_spaces(s) - 1]),
    decreases s.len(),
{
    if s.len() > 0 && is_space(s[s.len() - 1]) {
        lemma_rskip_spaces_bounds(s.drop_last());
    }
}

/// `s` with leading and trailing whitespace removed.
pub open spec fn trim_spec(s: Seq<char>) -> Seq<char> {
    let a = skip_spaces(s, 0);
    let b = rskip_spaces(s);
    if a >= b {
        Seq::empty()
    } else {
        s.subrange(a, b)
    }
}

/// `pre` is a prefix of `s`.
pub open spec fn has_prefix(s: Seq<char>, pre: Seq<char>) -> bool {
    s.len() >= pre.len() && s.subrange(0, pre.len() as int) == pre
}

/// First index at or after `i` holding `c`, or `s.len()`.
pub open spec fn find_char(s: Seq<char>, i: int, c: char) -> int
    decreases s.len() - i when 0 <= i <= s.len()
{
    if i < s.len() && s[i] != c {
        find_char(s, i + 1, c)
    } else {
        i
    }
}

pub proof fn lemma_find_char_bounds(s: Seq<char>, i: int, c: char)
    requires
        0 <= i <= s.len(),
    ensures
        i <= find_char(s, i, c) <= s.len(),
        find_char(s, i, c) < s.len() ==> s[find_char(s, i, c)] == c,
    decreases s.len() - i,
{
    if i < s.len() && s[i] != c {
        lemma_find_char_bounds(s, i + 1, c);
    }
}

/// The segments of `s` from index `i` on, split on `c`, keeping empty segments.
pub open spec fn split_from(s: Seq<char>, i: int, c: char) -> Seq<Seq<char>>
    decreases s.len() - i when 0 <= i <= s.len() via split_from_decreases
{
    let j = find_char(s, i, c);
    if j >= s.len() {
        seq![s.subrange(i, s.len() as int)]
    } else {
        seq![s.subrange(i, j)] + split_from(s, j + 1, c)
    }
}

#[via_fn]
proof fn split_from_decreases(s: Seq<char>, i: int, c: char) {
    lemma_find_char_bounds(s, i, c);
}

/// The segments of `s` split on `c`, as `str::split` yields them.
pub open spec fn split_on(s: Seq<char>, c: char) -> Seq<Seq<char>> {
    split_from(s, 0, c)
}

/// Greatest index at or after `from` holding `c`, or -1 if there is none.
pub open spec fn last_index_of(s: Seq<char>, from: int, c: char) -> int
    decreases s.len()
{
    if s.len() == 0 || s.len() <= from {
        -1
    } else if s[s.len() - 1] == c && s.len() - 1 >= from {
        s.len() - 1
    } else {
        last_index_of(s.drop_last(), from, c)
    }
}

pub proof fn lemma_last_index_of_bounds(s: Seq<char>, from: int, c: char)
    requires
        0 <= from,
    ensures
        last_index_of(s, from, c) == -1 || (from <= last_index_of(s, from, c) < s.len()),
        last_index_of(s, from, c) >= 0 ==> s[last_index_of(s, from, c)] == c,
        last_index_of(s, from, c) >= 0 ==> forall|k: int|
            last_index_of(s, from, c) < k < s.len() ==> s[k] != c,
        last_index_of(s, from, c) == -1 ==> forall|k: int| from <= k < s.len() ==> s[k] != c,
    decreases s.len(),
{
    if s.len() == 0 || s.len() <= from {
    } else if s[s.len() - 1] == c && s.len() - 1 >= from {
    } else {
        lemma_last_index_of_bounds(s.drop_last(), from, c);
        let r = last_index_of(s.drop_last(), from, c);
        assert forall|k: int| r >= 0 && r < k < s.len() implies s[k] != c by {
            if k < s.len() - 1 {
                assert(s.drop_last()[k] == s[k]);
            }
        }
        assert forall|k: int| r == -1 && from <= k < s.len() implies s[k] != c by {
            if k < s.len() - 1 {
                assert(s.drop_last()[k] == s[k]);
            }
        }
    }
}

/// `needle` occurs as a contiguous subsequence of `hay`.
pub open spec fn contains_seq(hay: Seq<char>, needle: Seq<char>) -> bool {
    exists|i: int|
        0 <= i && i + needle.len() <= hay.len() && #[trigger] hay.subrange(i, i + needle.len())
            == needle
}

/// The character code compared by ASCII-case-insensitive equality.
pub open spec fn upper_code(c: char) -> int {
    if 97 <= c as int && c as int <= 122 {
        c as int - 32
    } else {
        c as int
    }
}

/// ASCII-case-insensitive equality of two character sequences.
pub open spec fn eq_ignore_ascii_case(a: Seq<char>, b: Seq<char>) -> bool {
    a.len() == b.len() && forall|i: int| 0 <= i < a.len() ==> upper_code(a[i]) == upper_code(b[i])
}

/// One left-to-right pass replacing each occurrence of the byte pair
/// `p0 p1` by the single byte `r`, as `str::replace` does for a
/// two-character pattern.
pub open spec fn replace2(b: Seq<u8>, p0: u8, p1: u8, r: u8) -> Seq<u8>
    decreases b.len()
{
    if b.len() >= 2 && b[0] == p0 && b[1] == p1 {
        seq![r] + replace2(b.skip(2), p0, p1, r)
    } else if b.len() >= 1 {
        seq![b[0]] + replace2(b.skip(1), p0, p1, r)
    } else {
        Seq::empty()
    }
}

/// The decimal digits of `n`, most significant first.
pub open spec fn dec_rep(n: int) -> Seq<char>
    decreases n when n >= 0
{
    if n < 10 {
        seq![digit_char(n)]
    } else {
        dec_rep(n / 10).push(digit_char(n % 10))
    }
}

pub open spec fn digit_char(d: int) -> char {
    if d == 0 {
        '0'
    } else if d == 1 {
        '1'
    } else if d == 2 {
        '2'
    } else if d == 3 {
        '3'
    } else if d == 4 {
        '4'
    } else if d == 5 {
        '5'
    } else if d == 6 {
        '6'
    } else if d == 7 {
        '7'
    } else if d == 8 {
        '8'
    } else {
        '9'
    }
}

/// First index at or after `from` holding a non-space character, or the length.
pub fn find_nonspace(s: &str, from: usize) -> (r: usize)
    requires
        from as int <= s@.len(),
    ensures
        r as int == skip_spaces(s@, from as int),
        from <= r <= s@.len(),
{
    let n = s.unicode_len();
    let mut i = from;
    while i < n
        invariant
            n as int == s@.len(),
            from <= i <= n,
            skip_spaces(s@, from as int) == skip_spaces(s@, i as int),
        decreases n - i,
    {
        let c = s.get_char(i);
        if !is_space_x(c) {
            return i;
        }
        i = i + 1;
    }
    i
}

/// First index at or after `from` holding a space, or the length.
pub fn find_token_end(s: &str, from: usize) -> (r: usize)
    requires
        from as int <= s@.len(),
    ensures
        r as int == skip_token(s@, from as int),
        from <= r <= s@.len(),
{
    let n = s.unicode_len();
    let mut i = from;
    while i < n
        invariant
            n as int == s@.len(),
            from <= i <= n,
            skip_token(s@, from as int) == skip_token(s@, i as int),
        decreases n - i,
    {
        let c = s.get_char(i);
        if is_space_x(c) {
            return i;
        }
        i = i + 1;
    }
    i
}

/// First index at or after `from` holding `c`, or the length.
pub fn find_char_at(s: &str, from: usize, c: char) -> (r: usize)
    requires
        from as int <= s@.len(),
    ensures
        r as int == find_char(s@, from as int, c),
        from <= r <= s@.len(),
{
    let n = s.unicode_len();
    let mut i = from;
    while i < n
        invariant
            n as int == s@.len(),
            from <= i <= n,
            find_char(s@, from as int, c) == find_char(s@, i as int, c),
        decreases n - i,
    {
        if s.get_char(i) == c {
            return i;
        }
        i = i + 1;
    }
    i
}

pub fn is_space_x(c: char) -> (b: bool)
    ensures
        b == is_space(c),
{
    c == ' ' || c == '\t' || c == '\r' || c == '\n' || c == '\u{b}' || c == '\u{c}'
}

/// The whitespace-separated tokens of `s`.
pub fn tokenize(s: &str) -> (r: Vec<String>)
    ensures
        r.deep_view() == tokens_of(s@),
{
    let n = s.unicode_len();
    let mut r: Vec<String> = Vec::new();
    let mut i: usize = find_nonspace(s, 0);
    proof {
        lemma_skip_spaces_bounds(s@, 0);
        assert(tokens_of(s@) =~= r.deep_view() + tokens_from(s@, i as int));
    }
    while i < n
        invariant
            n as int == s@.len(),
            i <= n,
            skip_spaces(s@, i as int) == i as int,
            tokens_of(s@) == r.deep_view() + tokens_from(s@, i as int),
        decreases n - i,
    {
        proof {
            lemma_skip_spaces_bounds(s@, i as int + 1);
            lemma_skip_token_bounds(s@, i as int);
        }
        let j = find_token_end(s, i);
        let tok = String::from_str(s.substring_char(i, j));
        let ghost old_deep = r.deep_view();
        r.push(tok);
        proof {
            assert(r.deep_view() =~= old_deep + seq![tok@]);
        }
        let next = find_nonspace(s, j);
        proof {
            lemma_skip_spaces_bounds(s@, j as int);
            assert(tokens_from(s@, i as int) =~= seq![s@.subrange(i as int, j as int)]
                + tokens_from(s@, j as int));
            assert(tokens_from(s@, j as int) == tokens_from(s@, next as int));
            assert(tokens_of(s@) =~= r.deep_view() + tokens_from(s@, next as int));
        }
        i = next;
    }
    r
}

/// `s` with leading and trailing whitespace removed.
pub fn trim_str<'a>(s: &'a str) -> (r: &'a str)
    ensures
        r@ == trim_spec(s@),
{
    let n = s.unicode_len();
    let a = find_nonspace(s, 0);
    proof {
        lemma_skip_spaces_bounds(s@, 0);
        lemma_rskip_spaces_bounds(s@);
    }
    proof {
        assert(s@.take(n as int) =~= s@);
    }
    let mut b = n;
    while b > a
        invariant
            n as int == s@.len(),
            a as int == skip_spaces(s@, 0),
            a <= b <= n,
            rskip_spaces(s@) == rskip_spaces(s@.take(b as int)),
            forall|k: int| b <= k < n ==> is_space(s@[k]),
        decreases b,
    {
        let c = s.get_char(b - 1);
        if !is_space_x(c) {
            proof {
                assert(s@.take(b as int).len() == b);
                assert(s@.take(b as int)[b - 1] == s@[b - 1]);
                assert(rskip_spaces(s@.take(b as int)) == b);
                lemma_skip_spaces_bounds(s@, 0);
            }
            return s.substring_char(a, b);
        }
        proof {
            assert(s@.take(b as int).drop_last() =~= s@.take(b as int - 1));
        }
        b = b - 1;
    }
    proof {
        lemma_skip_spaces_bounds(s@, 0);
        lemma_rskip_spaces_bounds(s@);
        if a < n {
            assert(!is_space(s@[a as int]));
            assert(is_space(s@[a as int]));
        }
        assert(s@.take(a as int) =~= s@.subrange(0, a as int));
    }
    let r = s.substring_char(a, a);
    proof {
        assert(r@ =~= trim_spec(s@));
    }
    r
}

/// Equality of two string slices, decided character by character.
pub fn str_eq(a: &str, b: &str) -> (r: bool)
    ensures
        r == (a@ == b@),
{
    let na = a.unicode_len();
    let nb = b.unicode_len();
    if na != nb {
        return false;
    }
    let mut i: usize = 0;
    while i < na
        invariant
            na as int == a@.len(),
            nb as int == b@.len(),
            na == nb,
            i <= na,
            forall|k: int| 0 <= k < i ==> a@[k] == b@[k],
        decreases na - i,
    {
        if a.get_char(i) != b.get_char(i) {
            return false;
        }
        i = i + 1;
    }
    proof {
        assert(a@ =~= b@);
    }
    true
}

/// Whether `pre` is a prefix of `s`.
pub fn starts_with_str(s: &str, pre: &str) -> (r: bool)
    ensures
        r == has_prefix(s@, pre@),
{
    let n = s.unicode_len();
    let np = pre.unicode_len();
    if n < np {
        return false;
    }
    let mut i: usize = 0;
    while i < np
        invariant
            n as int == s@.len(),
            np as int == pre@.len(),
            np <= n,
            i <= np,
            forall|k: int| 0 <= k < i ==> s@[k] == pre@[k],
        decreases np - i,
    {
        if s.get_char(i) != pre.get_char(i) {
            proof {
                assert(s@.subrange(0, pre@.len() as int)[i as int] != pre@[i as int]);
            }
            return false;
        }
        i = i + 1;
    }
    proof {
        assert(s@.subrange(0, pre@.len() as int) =~= pre@);
    }
    true
}

/// Whether `needle` occurs as a contiguous substring of `hay`.
pub fn contains_str(hay: &str, needle: &str) -> (r: bool)
    ensures
        r == contains_seq(hay@, needle@),
{
    let nh = hay.unicode_len();
    let nn = needle.unicode_len();
    if nn > nh {
        return false;
    }
    let mut i: usize = 0;
    while i <= nh - nn
        invariant
            nh as int == hay@.len(),
            nn as int == needle@.len(),
            nn <= nh,
            i <= nh - nn + 1,
            forall|k: int|
                0 <= k < i ==> #[trigger] hay@.subrange(k, k + needle@.len()) != needle@,
        decreases nh + 1 - i,
    {
        let mut j: usize = 0;
        let mut matched = true;
        while j < nn
            invariant
                nh as int == hay@.len(),
                nn as int == needle@.len(),
                nn <= nh,
                i <= nh - nn,
                j <= nn,
                matched ==> forall|k: int| 0 <= k < j ==> hay@[i + k] == needle@[k],
                !matched ==> hay@.subrange(i as int, i + needle@.len()) != needle@,
            decreases nn - j,
        {
            if hay.get_char(i + j) != needle.get_char(j) {
                proof {
                    assert(hay@.subrange(i as int, i + needle@.len())[j as int] != needle@[
                        j as int
                    ]);
                }
                matched = false;
            }
            j = j + 1;
        }
        if matched {
            proof {
                assert(hay@.subrange(i as int, i + needle@.len()) =~= needle@);
            }
            return true;
        }
        proof {
            if nn == 0 {
                assert(hay@.subrange(i as int, i + needle@.len()) =~= needle@);
            }
        }
        i = i + 1;
    }
    proof {
        assert forall|k: int| 0 <= k && k + needle@.len() <= hay@.len() implies #[trigger] hay@
            .subrange(k, k + needle@.len()) != needle@ by {}
    }
    false
}

/// ASCII-case-insensitive equality of two string slices.
pub fn eq_ignore_case_str(a: &str, b: &str) -> (r: bool)
    ensures
        r == eq_ignore_ascii_case(a@, b@),
{
    let na = a.unicode_len();
    let nb = b.unicode_len();
    if na != nb {
        return false;
    }
    let mut i: usize = 0;
    while i < na
        invariant
            na as int == a@.len(),
            nb as int == b@.len(),
            na == nb,
            i <= na,
            forall|k: int| 0 <= k < i ==> upper_code(a@[k]) == upper_code(b@[k]),
        decreases na - i,
    {
        if upper_code_x(a.get_char(i)) != upper_code_x(b.get_char(i)) {
            return false;
        }
        i = i + 1;
    }
    true
}

fn upper_code_x(c: char) -> (u: u32)
    ensures
        u as int == upper_code(c),
{
    let v = c as u32;
    if 97 <= v && v <= 122 {
        v - 32
    } else {
        v
    }
}

/// Greatest index at or after `from` holding `c`, if there is one.
pub fn find_last_char(s: &str, from: usize, c: char) -> (r: Option<usize>)
    requires
        from as int <= s@.len(),
    ensures
        match r {
            Some(q) => q as int == last_index_of(s@, from as int, c),
            None => last_index_of(s@, from as int, c) == -1,
        },
{
    let n = s.unicode_len();
    proof {
        lemma_last_index_of_bounds(s@, from as int, c);
    }
    let mut b = n;
    while b > from
        invariant
            n as int == s@.len(),
            from <= b <= n,
            forall|k: int| b <= k < n ==> s@[k] != c,
        decreases b,
    {
        if s.get_char(b - 1) == c {
            proof {
                lemma_last_index_of_bounds(s@, from as int, c);
            }
            return Some(b - 1);
        }
        b = b - 1;
    }
    proof {
        lemma_last_index_of_bounds(s@, from as int, c);
    }
    None
}

/// The segments of `s` split on `c`, keeping empty segments.
pub fn split_str(s: &str, c: char) -> (r: Vec<String>)
    ensures
        r.deep_view() == split_on(s@, c),
{
    let n = s.unicode_len();
    let mut r: Vec<String> = Vec::new();
    let mut i: usize = 0;
    loop
        invariant_except_break
            n as int == s@.len(),
            i <= n,
            split_on(s@, c) == r.deep_view() + split_from(s@, i as int, c),
        ensures
            r.deep_view() == split_on(s@, c),
        decreases n - i,
    {
        proof {
            lemma_find_char_bounds(s@, i as int, c);
        }
        let j = find_char_at(s, i, c);
        let seg = String::from_str(s.substring_char(i, j));
        let ghost old_deep = r.deep_view();
        r.push(seg);
        proof {
            assert(r.deep_view() =~= old_deep + seq![seg@]);
        }
        if j == n {
            proof {
                assert(split_from(s@, i as int, c) =~= seq![s@.subrange(i as int, n as int)]);
                assert(r.deep_view() =~= split_on(s@, c));
            }
            break;
        }
        proof {
            assert(split_from(s@, i as int, c) =~= seq![s@.subrange(i as int, j as int)]
                + split_from(s@, j as int + 1, c));
            assert(split_on(s@, c) =~= r.deep_view() + split_from(s@, j as int + 1, c));
        }
        i = j + 1;
    }
    r
}

/// One pass replacing the byte pair `p0 p1` by `r`, left to right.
pub fn replace_pair(b: &[u8], p0: u8, p1: u8, rep: u8) -> (out: Vec<u8>)
    ensures
        out@ == replace2(b@, p0, p1, rep),
{
    let mut out: Vec<u8> = Vec::new();
    let mut i: usize = 0;
    proof {
        assert(b@.skip(0) =~= b@);
    }
    while i < b.len()
        invariant
            i <= b@.len(),
            replace2(b@, p0, p1, rep) == out@ + replace2(b@.skip(i as int), p0, p1, rep),
        decreases b@.len() - i,
    {
        let ghost rest = b@.skip(i as int);
        if i + 1 < b.len() && b[i] == p0 && b[i + 1] == p1 {
            out.push(rep);
            proof {
                assert(rest.len() >= 2 && rest[0] == p0 && rest[1] == p1);
                assert(rest.skip(2) =~= b@.skip(i as int + 2));
                assert(replace2(rest, p0, p1, rep) =~= seq![rep] + replace2(
                    b@.skip(i as int + 2),
                    p0,
                    p1,
                    rep,
                ));
            }
            i = i + 2;
        } else {
            out.push(b[i]);
            proof {
                assert(rest.len() >= 1 && rest[0] == b@[i as int]);
                assert(rest.skip(1) =~= b@.skip(i as int + 1));
                assert(replace2(rest, p0, p1, rep) =~= seq![b@[i as int]] + replace2(
                    b@.skip(i as int + 1),
                    p0,
                    p1,
                    rep,
                ));
            }
            i = i + 1;
        }
    }
    proof {
        assert(b@.skip(i as int).len() == 0);
        assert(out@ =~= replace2(b@, p0, p1, rep));
    }
    out
}

fn digit_str(d: u64) -> (r: &'static str)
    requires
        d < 10,
    ensures
        r@ == seq![digit_char(d as int)],
{
    proof {
        reveal_strlit("0");
        reveal_strlit("1");
        reveal_strlit("2");
        reveal_strlit("3");
        reveal_strlit("4");
        reveal_strlit("5");
        reveal_strlit("6");
        reveal_strlit("7");
        reveal_strlit("8");
        reveal_strlit("9");
    }
    let r = if d == 0 {
        "0"
    } else if d == 1 {
        "1"
    } else if d == 2 {
        "2"
    } else if d == 3 {
        "3"
    } else if d == 4 {
        "4"
    } else if d == 5 {
        "5"
    } else if d == 6 {
        "6"
    } else if d == 7 {
        "7"
    } else if d == 8 {
        "8"
    } else {
        "9"
    };
    proof {
        assert(r@ =~= seq![digit_char(d as int)]);
    }
    r
}

/// The decimal rendering of `n`.
pub fn dec_string(n: u64) -> (r: String)
    ensures
        r@ == dec_rep(n as int),
    decreases n,
{
    if n < 10 {
        String::from_str(digit_str(n))
    } else {
        let mut s = dec_string(n / 10);
        s.append(digit_str(n % 10));
        proof {
            assert(s@ =~= dec_rep(n as int / 10).push(digit_char(n as int % 10)));
        }
        s
    }
}

} // verus!
