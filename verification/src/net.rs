//! IPv4 networks and the interface-address scanner.
//!
//! The subnet allocator inspects the addresses bound to veth interfaces.
//! The application runs `ip addr show type veth` and hands the raw output
//! here; `get_allocated_ip_addresses` extracts every `inet a.b.c.d/p`
//! occurrence — the same occurrences a left-to-right scan for
//! `inet\s+\d{1,3}.\d{1,3}.\d{1,3}.\d{1,3}/\d{1,2}` finds — and parses each
//! into an address/prefix pair.  A matched address that is not a
//! well-formed IPv4 network (an octet above 255, a leading zero, a prefix
//! above 32) is a hard error, not silently skipped.

use vstd::prelude::*;
use vstd::string::StrSliceExecFns;

use crate::digits::{dec_val, digit_val, is_ascii_digit};
use crate::error::VoponoError;
use crate::lines::{lemma_scan_ws_bounds, scan_ws};

verus! {

/// An IPv4 network: four address octets and a prefix length.
#[derive(Clone, Copy, Debug, PartialEq, Eq, Structural)]
pub struct Ipv4Net {
    /// First (most significant) address octet.
    pub a: u8,
    /// Second address octet.
    pub b: u8,
    /// Third address octet; the subnet index within the reserved range.
    pub c: u8,
    /// Fourth address octet.
    pub d: u8,
    /// Prefix length, at most 32.
    pub prefix: u8,
}

impl Ipv4Net {
    /// A structurally valid network: the prefix length fits IPv4.
    pub open spec fn wf(self) -> bool {
        self.prefix <= 32
    }
}

/// The first index at or after `i` whose character is not an ASCII digit.
pub open spec fn scan_digits(s: Seq<char>, i: int) -> int
    decreases s.len() - i when 0 <= i <= s.len()
{
    if i >= s.len() {
        i
    } else if is_ascii_digit(s[i]) {
        scan_digits(s, i + 1)
    } else {
        i
    }
}

pub proof fn lemma_scan_digits_bounds(s: Seq<char>, i: int)
    requires
        0 <= i <= s.len(),
    ensures
        i <= scan_digits(s, i) <= s.len(),
        forall|j: int| i <= j < scan_digits(s, i) ==> is_ascii_digit(s[j]),
        scan_digits(s, i) < s.len() ==> !is_ascii_digit(s[scan_digits(s, i)]),
    decreases s.len() - i,
{
    if i < s.len() && is_ascii_digit(s[i]) {
        lemma_scan_digits_bounds(s, i + 1);
    }
}

/// Start of the first octet: past `inet` and the whitespace run.
pub open spec fn m_p1(s: Seq<char>, i: int) -> int {
    scan_ws(s, i + 4)
}

/// End of the first octet's digit run.
pub open spec fn m_e1(s: Seq<char>, i: int) -> int {
    scan_digits(s, m_p1(s, i))
}

/// End of the second octet's digit run.
pub open spec fn m_e2(s: Seq<char>, i: int) -> int {
    scan_digits(s, m_e1(s, i) + 1)
}

/// End of the third octet's digit run.
pub open spec fn m_e3(s: Seq<char>, i: int) -> int {
    scan_digits(s, m_e2(s, i) + 1)
}

/// End of the fourth octet's digit run.
pub open spec fn m_e4(s: Seq<char>, i: int) -> int {
    scan_digits(s, m_e3(s, i) + 1)
}

/// End of the prefix digit run as found in the text.
pub open spec fn m_e5(s: Seq<char>, i: int) -> int {
    scan_digits(s, m_e4(s, i) + 1)
}

/// End of the whole occurrence: the prefix keeps at most two digits, as the
/// `\d{1,2}` in the scanned pattern does.
pub open spec fn m_end(s: Seq<char>, i: int) -> int {
    let p5 = m_e4(s, i) + 1;
    if m_e5(s, i) - p5 > 2 {
        p5 + 2
    } else {
        m_e5(s, i)
    }
}

/// Whether an `inet a.b.c.d/p` occurrence starts at `i`: the literal
/// `inet`, at least one whitespace character, four runs of one to three
/// digits separated by dots, a slash, and at least one digit.
pub open spec fn inet_match_at(s: Seq<char>, i: int) -> bool {
    &&& 0 <= i
    &&& i + 4 <= s.len()
    &&& s[i] == 'i'
    &&& s[i + 1] == 'n'
    &&& s[i + 2] == 'e'
    &&& s[i + 3] == 't'
    &&& m_p1(s, i) > i + 4
    &&& 1 <= m_e1(s, i) - m_p1(s, i) <= 3
    &&& m_e1(s, i) < s.len() && s[m_e1(s, i)] == '.'
    &&& 1 <= m_e2(s, i) - (m_e1(s, i) + 1) <= 3
    &&& m_e2(s, i) < s.len() && s[m_e2(s, i)] == '.'
    &&& 1 <= m_e3(s, i) - (m_e2(s, i) + 1) <= 3
    &&& m_e3(s, i) < s.len() && s[m_e3(s, i)] == '.'
    &&& 1 <= m_e4(s, i) - (m_e3(s, i) + 1) <= 3
    &&& m_e4(s, i) < s.len() && s[m_e4(s, i)] == '/'
    &&& m_e5(s, i) > m_e4(s, i) + 1
}

/// A matched octet is well-formed when it has no leading zero and a value
/// of at most 255, as `Ipv4Addr` parsing accepts it.
pub open spec fn valid_octet(o: Seq<char>) -> bool {
    &&& (o.len() == 1 || o[0] != '0')
    &&& dec_val(o) <= 255
}

/// The four octet digit runs and the prefix digits of a match at `i`.
pub open spec fn m_oct1(s: Seq<char>, i: int) -> Seq<char> {
    s.subrange(m_p1(s, i), m_e1(s, i))
}

pub open spec fn m_oct2(s: Seq<char>, i: int) -> Seq<char> {
    s.subrange(m_e1(s, i) + 1, m_e2(s, i))
}

pub open spec fn m_oct3(s: Seq<char>, i: int) -> Seq<char> {
    s.subrange(m_e2(s, i) + 1, m_e3(s, i))
}

pub open spec fn m_oct4(s: Seq<char>, i: int) -> Seq<char> {
    s.subrange(m_e3(s, i) + 1, m_e4(s, i))
}

pub open spec fn m_prefix(s: Seq<char>, i: int) -> Seq<char> {
    s.subrange(m_e4(s, i) + 1, m_end(s, i))
}

/// The network a match at `i` denotes, or `None` when the matched text is
/// not a well-formed network: an octet with a leading zero or above 255, or
/// a prefix above 32.  (A leading zero in the prefix is accepted, as
/// `u8::from_str` accepts it.)
pub open spec fn net_of_match(s: Seq<char>, i: int) -> Option<Ipv4Net> {
    if valid_octet(m_oct1(s, i)) && valid_octet(m_oct2(s, i)) && valid_octet(m_oct3(s, i))
        && valid_octet(m_oct4(s, i)) && dec_val(m_prefix(s, i)) <= 32 {
        Some(
            Ipv4Net {
                a: dec_val(m_oct1(s, i)) as u8,
                b: dec_val(m_oct2(s, i)) as u8,
                c: dec_val(m_oct3(s, i)) as u8,
                d: dec_val(m_oct4(s, i)) as u8,
                prefix: dec_val(m_prefix(s, i)) as u8,
            },
        )
    } else {
        None
    }
}

/// A match reaches past its start and never past the end of the text.
pub proof fn lemma_match_end_bounds(s: Seq<char>, i: int)
    requires
        inet_match_at(s, i),
    ensures
        i + 5 <= m_end(s, i) <= s.len(),
{
    lemma_scan_ws_bounds(s, i + 4);
    lemma_scan_digits_bounds(s, m_p1(s, i));
    lemma_scan_digits_bounds(s, m_e1(s, i) + 1);
    lemma_scan_digits_bounds(s, m_e2(s, i) + 1);
    lemma_scan_digits_bounds(s, m_e3(s, i) + 1);
    lemma_scan_digits_bounds(s, m_e4(s, i) + 1);
}

/// The start positions of every occurrence, scanning left to right and
/// resuming behind each match.
pub open spec fn inet_positions(s: Seq<char>, i: int) -> Seq<int>
    recommends
        0 <= i <= s.len(),
    decreases s.len() - i when 0 <= i <= s.len() via inet_positions_dec
{
    if i >= s.len() {
        Seq::<int>::empty()
    } else if inet_match_at(s, i) {
        seq![i] + inet_positions(s, m_end(s, i))
    } else {
        inet_positions(s, i + 1)
    }
}

#[via_fn]
proof fn inet_positions_dec(s: Seq<char>, i: int) {
    if i < s.len() && inet_match_at(s, i) {
        lemma_match_end_bounds(s, i);
    }
}

/// The networks of the matches at the given positions, in order; `None` as
/// soon as any match is not a well-formed network.
pub open spec fn nets_of_positions(s: Seq<char>, ps: Seq<int>) -> Option<Seq<Ipv4Net>>
    decreases ps.len(),
{
    if ps.len() == 0 {
        Some(Seq::<Ipv4Net>::empty())
    } else {
        match nets_of_positions(s, ps.drop_last()) {
            None => None,
            Some(v) => match net_of_match(s, ps.last()) {
                None => None,
                Some(n) => Some(v.push(n)),
            },
        }
    }
}

/// A position list that already fails on a prefix fails as a whole.
proof fn lemma_nets_none_prefix(s: Seq<char>, ps: Seq<int>, k: int)
    requires
        0 <= k <= ps.len(),
        nets_of_positions(s, ps.take(k)) is None,
    ensures
        nets_of_positions(s, ps) is None,
    decreases ps.len() - k,
{
    if k < ps.len() {
        assert(ps.take(k + 1).drop_last() =~= ps.take(k));
        lemma_nets_none_prefix(s, ps, k + 1);
    } else {
        assert(ps.take(k) =~= ps);
    }
}

/// Whether `c` is an ASCII decimal digit.
fn is_digit_char(c: char) -> (b: bool)
    ensures
        b == is_ascii_digit(c),
{
    let v = c as u32;
    48 <= v && v <= 57
}

/// The first index at or after `from` that is not an ASCII digit.
fn find_non_digit(s: &str, from: usize) -> (r: usize)
    requires
        from <= s@.len(),
    ensures
        r == scan_digits(s@, from as int),
        from <= r <= s@.len(),
{
    let len = s.unicode_len();
    let mut j = from;
    while j < len && is_digit_char(s.get_char(j))
        invariant
            from <= j <= len,
            len == s@.len(),
            scan_digits(s@, from as int) == scan_digits(s@, j as int),
        decreases len - j,
    {
        j = j + 1;
    }
    j
}

/// The value of the digit run `s[a..b)`, at most three digits long.
fn parse_run(s: &str, a: usize, b: usize) -> (v: u32)
    requires
        a <= b <= s@.len(),
        b - a <= 3,
        forall|j: int| a <= j < b ==> is_ascii_digit(s@[j]),
    ensures
        v == dec_val(s@.subrange(a as int, b as int)),
        v <= 999,
{
    let ghost run = s@.subrange(a as int, b as int);
    let mut acc: u32 = 0;
    let mut j = a;
    while j < b
        invariant
            a <= j <= b <= s@.len(),
            b - a <= 3,
            run == s@.subrange(a as int, b as int),
            forall|k: int| a <= k < b ==> is_ascii_digit(s@[k]),
            acc == dec_val(run.take(j - a)),
            j - a == 0 ==> acc == 0,
            j - a == 1 ==> acc <= 9,
            j - a == 2 ==> acc <= 99,
            acc <= 999,
        decreases b - j,
    {
        let c = s.get_char(j);
        let cv = c as u32;
        proof {
            let k = j - a;
            assert(run[k] == s@[j as int]);
            assert(is_ascii_digit(run[k]));
            assert(run.take(k + 1).drop_last() =~= run.take(k));
            assert(run.take(k + 1).last() == run[k]);
            assert(digit_val(run[k]) == cv - 48);
        }
        acc = acc * 10 + (cv - 48);
        j = j + 1;
    }
    proof {
        assert(run.take((b - a) as int) =~= run);
    }
    acc
}

/// Tries to read one `inet a.b.c.d/p` occurrence starting exactly at `i`:
/// `None` when none starts there; otherwise the end of the occurrence
/// together with the network it denotes, or with `None` when the matched
/// text is not a well-formed network.
fn try_match_at(s: &str, i: usize) -> (r: Option<(Option<Ipv4Net>, usize)>)
    requires
        i < s@.len(),
    ensures
        (r is Some) == inet_match_at(s@, i as int),
        r matches Some(m) ==> m.1 == m_end(s@, i as int) && m.0 == net_of_match(s@, i as int)
            && i < m.1 <= s@.len(),
{
    let len = s.unicode_len();
    if len - i < 4 {
        return None;
    }
    if s.get_char(i) != 'i' || s.get_char(i + 1) != 'n' || s.get_char(i + 2) != 'e' || s.get_char(
        i + 3,
    ) != 't' {
        return None;
    }
    let p1 = crate::lines::find_non_ws(s, i + 4);
    if p1 == i + 4 {
        return None;
    }
    let e1 = find_non_digit(s, p1);
    if e1 - p1 < 1 || e1 - p1 > 3 || e1 == len || s.get_char(e1) != '.' {
        return None;
    }
    let e2 = find_non_digit(s, e1 + 1);
    if e2 - (e1 + 1) < 1 || e2 - (e1 + 1) > 3 || e2 == len || s.get_char(e2) != '.' {
        return None;
    }
    let e3 = find_non_digit(s, e2 + 1);
    if e3 - (e2 + 1) < 1 || e3 - (e2 + 1) > 3 || e3 == len || s.get_char(e3) != '.' {
        return None;
    }
    let e4 = find_non_digit(s, e3 + 1);
    if e4 - (e3 + 1) < 1 || e4 - (e3 + 1) > 3 || e4 == len || s.get_char(e4) != '/' {
        return None;
    }
    let p5 = e4 + 1;
    let e5 = find_non_digit(s, p5);
    if e5 == p5 {
        return None;
    }
    proof {
        assert(inet_match_at(s@, i as int));
        lemma_match_end_bounds(s@, i as int);
    }
    let end = if e5 - p5 > 2 {
        p5 + 2
    } else {
        e5
    };
    proof {
        assert(end == m_end(s@, i as int));
        lemma_scan_ws_bounds(s@, (i + 4) as int);
        lemma_scan_digits_bounds(s@, p1 as int);
        lemma_scan_digits_bounds(s@, (e1 + 1) as int);
        lemma_scan_digits_bounds(s@, (e2 + 1) as int);
        lemma_scan_digits_bounds(s@, (e3 + 1) as int);
        lemma_scan_digits_bounds(s@, p5 as int);
    }
    let o1 = parse_run(s, p1, e1);
    let o2 = parse_run(s, e1 + 1, e2);
    let o3 = parse_run(s, e2 + 1, e3);
    let o4 = parse_run(s, e3 + 1, e4);
    let pv = parse_run(s, p5, end);
    let lead_zero = (e1 - p1 > 1 && s.get_char(p1) == '0') || (e2 - (e1 + 1) > 1 && s.get_char(
        e1 + 1,
    ) == '0') || (e3 - (e2 + 1) > 1 && s.get_char(e2 + 1) == '0') || (e4 - (e3 + 1) > 1
        && s.get_char(e3 + 1) == '0');
    proof {
        assert(m_oct1(s@, i as int)[0] == s@[p1 as int]);
        assert(m_oct2(s@, i as int)[0] == s@[(e1 + 1) as int]);
        assert(m_oct3(s@, i as int)[0] == s@[(e2 + 1) as int]);
        assert(m_oct4(s@, i as int)[0] == s@[(e3 + 1) as int]);
    }
    if lead_zero || o1 > 255 || o2 > 255 || o3 > 255 || o4 > 255 || pv > 32 {
        proof {
            assert(net_of_match(s@, i as int) is None);
        }
        Some((None, end))
    } else {
        let net = Ipv4Net { a: o1 as u8, b: o2 as u8, c: o3 as u8, d: o4 as u8, prefix: pv as u8 };
        proof {
            assert(net_of_match(s@, i as int) == Some(net));
        }
        Some((Some(net), end))
    }
}

/// Parses the veth address listing into the networks it shows, in scan
/// order.  Every `inet a.b.c.d/p` occurrence must denote a well-formed
/// network; one that does not is a `ParseFailed` error for the whole
/// listing.  All returned networks are well-formed.
pub fn get_allocated_ip_addresses(output: &str) -> (r: Result<Vec<Ipv4Net>, VoponoError>)
    ensures
        (r is Ok) == (nets_of_positions(output@, inet_positions(output@, 0)) is Some),
        r matches Ok(v) ==> Some(v@) == nets_of_positions(output@, inet_positions(output@, 0)),
        r is Err ==> r == Err::<Vec<Ipv4Net>, VoponoError>(VoponoError::ParseFailed),
        r matches Ok(v) ==> forall|k: int| 0 <= k < v@.len() ==> (#[trigger] v@[k]).wf(),
{
    let ghost ps0 = inet_positions(output@, 0);
    let len = output.unicode_len();
    let mut out: Vec<Ipv4Net> = Vec::new();
    let ghost mut done = Seq::<int>::empty();
    let mut pos: usize = 0;
    while pos < len
        invariant
            0 <= pos <= len,
            len == output@.len(),
            ps0 == inet_positions(output@, 0),
            ps0 == done + inet_positions(output@, pos as int),
            nets_of_positions(output@, done) == Some(out@),
            forall|k: int| 0 <= k < out@.len() ==> (#[trigger] out@[k]).wf(),
        decreases len - pos,
    {
        match try_match_at(output, pos) {
            None => {
                proof {
                    assert(inet_positions(output@, pos as int) == inet_positions(
                        output@,
                        pos + 1,
                    ));
                }
                pos = pos + 1;
            },
            Some((converted, end)) => {
                proof {
                    assert(inet_positions(output@, pos as int) == seq![pos as int]
                        + inet_positions(output@, end as int));
                    assert(done.push(pos as int).drop_last() =~= done);
                }
                match converted {
                    Some(net) => {
                        out.push(net);
                        proof {
                            done = done.push(pos as int);
                            assert(nets_of_positions(output@, done) == Some(out@));
                            assert(ps0 =~= done + inet_positions(output@, end as int));
                        }
                        pos = end;
                    },
                    None => {
                        proof {
                            let bad = done.push(pos as int);
                            assert(nets_of_positions(output@, bad) is None);
                            assert(bad =~= ps0.take(bad.len() as int));
                            lemma_nets_none_prefix(output@, ps0, bad.len() as int);
                        }
                        return Err(VoponoError::ParseFailed);
                    },
                }
            },
        }
    }
    proof {
        assert(inet_positions(output@, pos as int) =~= Seq::<int>::empty());
        assert(done =~= ps0);
    }
    Ok(out)
}

} // verus!
