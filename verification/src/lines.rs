//! Line and token handling for command output.
//!
//! The process-table and namespace listings arrive as multi-line text.  The
//! functions here split such text into lines, trim Unicode whitespace and
//! extract the first whitespace-separated token, each against an exact
//! specification over the character sequence.

use vstd::prelude::*;
use vstd::string::StrSliceExecFns;
use vstd::string::StringExecFns;

verus! {

/// A character with the Unicode `White_Space` property, the set that
/// `char::is_whitespace` recognises.
pub open spec fn is_unicode_space(c: char) -> bool {
    let v = c as int;
    ||| v == 9
    ||| v == 10
    ||| v == 11
    ||| v == 12
    ||| v == 13
    ||| v == 32
    ||| v == 0x85
    ||| v == 0xA0
    ||| v == 0x1680
    ||| (0x2000 <= v && v <= 0x200A)
    ||| v == 0x2028
    ||| v == 0x2029
    ||| v == 0x202F
    ||| v == 0x205F
    ||| v == 0x3000
}

/// Whether `c` has the Unicode `White_Space` property.
pub fn is_space_char(c: char) -> (b: bool)
    ensures
        b == is_unicode_space(c),
{
    let v = c as u32;
    v == 9 || v == 10 || v == 11 || v == 12 || v == 13 || v == 32 || v == 0x85 || v == 0xA0
        || v == 0x1680 || (0x2000 <= v && v <= 0x200A) || v == 0x2028 || v == 0x2029 || v == 0x202F
        || v == 0x205F || v == 0x3000
}

/// The first index at or after `i` whose character is not whitespace, or the
/// length of `s` if only whitespace follows.
pub open spec fn scan_ws(s: Seq<char>, i: int) -> int
    decreases s.len() - i when 0 <= i <= s.len()
{
    if i >= s.len() {
        i
    } else if is_unicode_space(s[i]) {
        scan_ws(s, i + 1)
    } else {
        i
    }
}

/// The first index at or after `i` whose character is whitespace, or the
/// length of `s`.
pub open spec fn scan_non_ws(s: Seq<char>, i: int) -> int
    decreases s.len() - i when 0 <= i <= s.len()
{
    if i >= s.len() {
        i
    } else if !is_unicode_space(s[i]) {
        scan_non_ws(s, i + 1)
    } else {
        i
    }
}

/// The first index at or after `i` holding a newline, or the length of `s`.
pub open spec fn scan_nl(s: Seq<char>, i: int) -> int
    decreases s.len() - i when 0 <= i <= s.len()
{
    if i >= s.len() {
        i
    } else if s[i] == '\n' {
        i
    } else {
        scan_nl(s, i + 1)
    }
}

/// One past the last non-whitespace index below `i`, or zero if everything
/// below `i` is whitespace.
pub open spec fn scan_ws_rev(s: Seq<char>, i: int) -> int
    decreases i when 0 <= i <= s.len()
{
    if i <= 0 {
        0
    } else if is_unicode_space(s[i - 1]) {
        scan_ws_rev(s, i - 1)
    } else {
        i
    }
}

pub proof fn lemma_scan_nl_bounds(s: Seq<char>, i: int)
    requires
        0 <= i <= s.len(),
    ensures
        i <= scan_nl(s, i) <= s.len(),
        forall|j: int| i <= j < scan_nl(s, i) ==> s[j] != '\n',
        scan_nl(s, i) < s.len() ==> s[scan_nl(s, i)] == '\n',
    decreases s.len() - i,
{
    if i < s.len() && s[i] != '\n' {
        lemma_scan_nl_bounds(s, i + 1);
    }
}

pub proof fn lemma_scan_ws_bounds(s: Seq<char>, i: int)
    requires
        0 <= i <= s.len(),
    ensures
        i <= scan_ws(s, i) <= s.len(),
        forall|j: int| i <= j < scan_ws(s, i) ==> is_unicode_space(s[j]),
        scan_ws(s, i) < s.len() ==> !is_unicode_space(s[scan_ws(s, i)]),
    decreases s.len() - i,
{
    if i < s.len() && is_unicode_space(s[i]) {
        lemma_scan_ws_bounds(s, i + 1);
    }
}

pub proof fn lemma_scan_non_ws_bounds(s: Seq<char>, i: int)
    requires
        0 <= i <= s.len(),
    ensures
        i <= scan_non_ws(s, i) <= s.len(),
        forall|j: int| i <= j < scan_non_ws(s, i) ==> !is_unicode_space(s[j]),
        scan_non_ws(s, i) < s.len() ==> is_unicode_space(s[scan_non_ws(s, i)]),
    decreases s.len() - i,
{
    if i < s.len() && !is_unicode_space(s[i]) {
        lemma_scan_non_ws_bounds(s, i + 1);
    }
}

/// `s` with leading and trailing Unicode whitespace removed, as `str::trim`
/// leaves it.
pub open spec fn spec_trim(s: Seq<char>) -> Seq<char> {
    if scan_ws(s, 0) == s.len() {
        Seq::<char>::empty()
    } else {
        s.subrange(scan_ws(s, 0), scan_ws_rev(s, s.len() as int))
    }
}

/// When a non-whitespace character stands at `a`, the reverse scan from the
/// end stops behind it.
proof fn lemma_scan_ws_rev_past(s: Seq<char>, i: int, a: int)
    requires
        0 <= a < i <= s.len(),
        !is_unicode_space(s[a]),
    ensures
        scan_ws_rev(s, i) > a,
    decreases i,
{
    if i - 1 > a && is_unicode_space(s[i - 1]) {
        lemma_scan_ws_rev_past(s, i - 1, a);
    }
}

/// The first index at or after `from` that is not whitespace.
pub fn find_non_ws(s: &str, from: usize) -> (r: usize)
    requires
        from <= s@.len(),
    ensures
        r == scan_ws(s@, from as int),
        from <= r <= s@.len(),
{
    let len = s.unicode_len();
    let mut j = from;
    while j < len && is_space_char(s.get_char(j))
        invariant
            from <= j <= len,
            len == s@.len(),
            scan_ws(s@, from as int) == scan_ws(s@, j as int),
        decreases len - j,
    {
        j = j + 1;
    }
    j
}

/// The first index at or after `from` that is whitespace.
fn find_ws(s: &str, from: usize) -> (r: usize)
    requires
        from <= s@.len(),
    ensures
        r == scan_non_ws(s@, from as int),
        from <= r <= s@.len(),
{
    let len = s.unicode_len();
    let mut j = from;
    while j < len && !is_space_char(s.get_char(j))
        invariant
            from <= j <= len,
            len == s@.len(),
            scan_non_ws(s@, from as int) == scan_non_ws(s@, j as int),
        decreases len - j,
    {
        j = j + 1;
    }
    j
}

/// The first index at or after `from` holding a newline.
pub fn find_nl(s: &str, from: usize) -> (r: usize)
    requires
        from <= s@.len(),
    ensures
        r == scan_nl(s@, from as int),
        from <= r <= s@.len(),
{
    let len = s.unicode_len();
    let mut j = from;
    while j < len && s.get_char(j) != '\n'
        invariant
            from <= j <= len,
            len == s@.len(),
            scan_nl(s@, from as int) == scan_nl(s@, j as int),
        decreases len - j,
    {
        j = j + 1;
    }
    j
}

/// One past the last non-whitespace index of `s`.
fn find_end_non_ws(s: &str) -> (r: usize)
    ensures
        r == scan_ws_rev(s@, s@.len() as int),
        r <= s@.len(),
{
    let len = s.unicode_len();
    let mut j = len;
    while j > 0 && is_space_char(s.get_char(j - 1))
        invariant
            0 <= j <= len,
            len == s@.len(),
            scan_ws_rev(s@, len as int) == scan_ws_rev(s@, j as int),
        decreases j,
    {
        j = j - 1;
    }
    j
}

/// Leading and trailing whitespace removed, as `str::trim` does.
pub fn trim_of<'a>(s: &'a str) -> (t: &'a str)
    ensures
        t@ == spec_trim(s@),
{
    let len = s.unicode_len();
    let a = find_non_ws(s, 0);
    if a == len {
        proof {
            reveal_strlit("");
        }
        ""
    } else {
        let b = find_end_non_ws(s);
        proof {
            lemma_scan_ws_bounds(s@, 0);
            lemma_scan_ws_rev_past(s@, len as int, a as int);
        }
        s.substring_char(a, b)
    }
}

/// The first whitespace-separated token of `s`, as
/// `str::split_whitespace().next()` yields it: `None` when `s` is empty or
/// all whitespace.
pub open spec fn first_token(s: Seq<char>) -> Option<Seq<char>> {
    if scan_ws(s, 0) == s.len() {
        None
    } else {
        Some(s.subrange(scan_ws(s, 0), scan_non_ws(s, scan_ws(s, 0))))
    }
}

/// Extracts the first whitespace-separated token of `s`.
pub fn first_token_of<'a>(s: &'a str) -> (t: Option<&'a str>)
    ensures
        t is Some <==> first_token(s@) is Some,
        t matches Some(x) ==> Some(x@) == first_token(s@),
{
    let len = s.unicode_len();
    let a = find_non_ws(s, 0);
    if a == len {
        None
    } else {
        let b = find_ws(s, a);
        proof {
            lemma_scan_non_ws_bounds(s@, a as int);
        }
        Some(s.substring_char(a, b))
    }
}

/// The lines of `s` from index `i` on, split at `'\n'` as `str::split('\n')`
/// does: every string has at least one line, and a trailing newline yields a
/// final empty line.
pub open spec fn spec_split_lines(s: Seq<char>, i: int) -> Seq<Seq<char>>
    recommends
        0 <= i <= s.len(),
    decreases s.len() - i when 0 <= i <= s.len() via spec_split_lines_dec
{
    let k = scan_nl(s, i);
    if k >= s.len() {
        seq![s.subrange(i, s.len() as int)]
    } else {
        seq![s.subrange(i, k)] + spec_split_lines(s, k + 1)
    }
}

#[via_fn]
proof fn spec_split_lines_dec(s: Seq<char>, i: int) {
    lemma_scan_nl_bounds(s, i);
}

/// Splits `s` at `'\n'`, as `str::split('\n')` does.
pub fn split_lines(s: &str) -> (v: Vec<String>)
    ensures
        v@.len() == spec_split_lines(s@, 0).len(),
        forall|m: int|
            0 <= m < v@.len() ==> v@[m]@ == #[trigger] spec_split_lines(s@, 0)[m],
{
    let ghost full = spec_split_lines(s@, 0);
    let len = s.unicode_len();
    let mut v: Vec<String> = Vec::new();
    let mut pos: usize = 0;
    loop
        invariant_except_break
            0 <= pos <= len,
            len == s@.len(),
            full == spec_split_lines(s@, 0),
            v@.len() + spec_split_lines(s@, pos as int).len() == full.len(),
            forall|m: int| 0 <= m < v@.len() ==> v@[m]@ == #[trigger] full[m],
            forall|m: int|
                0 <= m < spec_split_lines(s@, pos as int).len() ==> #[trigger] spec_split_lines(
                    s@,
                    pos as int,
                )[m] == full[v@.len() + m],
        ensures
            v@.len() == full.len(),
            forall|m: int| 0 <= m < v@.len() ==> v@[m]@ == #[trigger] full[m],
        decreases len - pos,
    {
        let k = find_nl(s, pos);
        let ghost rest = spec_split_lines(s@, pos as int);
        let line = s.substring_char(pos, k);
        v.push(String::from_str(line));
        if k == len {
            proof {
                assert(rest =~= seq![s@.subrange(pos as int, s@.len() as int)]);
                assert(v@[v@.len() - 1]@ == rest[0]);
            }
            break;
        }
        proof {
            lemma_scan_nl_bounds(s@, pos as int);
            assert(rest == seq![s@.subrange(pos as int, k as int)] + spec_split_lines(
                s@,
                k + 1,
            ));
            assert(v@[v@.len() - 1]@ == rest[0]);
            assert forall|m: int|
                0 <= m < spec_split_lines(s@, k + 1 as int).len() implies #[trigger] spec_split_lines(
                s@,
                k + 1 as int,
            )[m] == full[v@.len() + m] by {
                assert(spec_split_lines(s@, k + 1 as int)[m] == rest[m + 1]);
            }
        }
        pos = k + 1;
    }
    v
}

} // verus!
