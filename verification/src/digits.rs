//! Decimal digit strings: parsing pid-like unsigned integers and printing
//! a `u32` in its canonical decimal form.
//!
//! Lock files are named by the decimal process id of their owner, and the
//! process-table query answers with a decimal pid, so both directions are
//! needed: `parse_u32` mirrors `str::parse::<u32>` on the names found in the
//! registry, and `u32_to_dec` produces the canonical digits that an exact
//! pid comparison is made against.

use vstd::prelude::*;
use vstd::string::StrSliceExecFns;
use vstd::string::StringExecFns;

verus! {

/// An ASCII decimal digit.
pub open spec fn is_ascii_digit(c: char) -> bool {
    48 <= c as int && c as int <= 57
}

/// The numeric value of an ASCII digit.
pub open spec fn digit_val(c: char) -> nat
    recommends
        is_ascii_digit(c),
{
    (c as int - 48) as nat
}

/// Every character of `s` is an ASCII decimal digit.
pub open spec fn all_digits(s: Seq<char>) -> bool {
    forall|i: int| 0 <= i < s.len() ==> is_ascii_digit(#[trigger] s[i])
}

/// The value of a digit string, most significant digit first.
pub open spec fn dec_val(s: Seq<char>) -> nat
    decreases s.len(),
{
    if s.len() == 0 {
        0
    } else {
        dec_val(s.drop_last()) * 10 + digit_val(s.last())
    }
}

/// The digit character for a value below ten.
pub open spec fn digit_char(d: nat) -> char
    recommends
        d < 10,
{
    if d == 0 {
        '0'
    } else if d == 1 {
        '1'
    } else if d == 2 {
        '2'
    } else if d == 3 {
        '3'
    } else if d == 4 {
        '4'
    } else if d == 5 {
        '5'
    } else if d == 6 {
        '6'
    } else if d == 7 {
        '7'
    } else if d == 8 {
        '8'
    } else {
        '9'
    }
}

/// The canonical decimal digits of `n`: no sign, no leading zeros.
pub open spec fn dec_digits(n: nat) -> Seq<char>
    decreases n,
{
    if n < 10 {
        seq![digit_char(n)]
    } else {
        dec_digits(n / 10).push(digit_char(n % 10))
    }
}

/// The digits of `s` after the optional leading `'+'` that `str::parse` on
/// an unsigned type accepts.
pub open spec fn unsigned_body(s: Seq<char>) -> Seq<char> {
    if s.len() > 0 && s[0] == '+' {
        s.drop_first()
    } else {
        s
    }
}

/// Whether `str::parse::<u32>` accepts `s`: an optional `'+'`, then one or
/// more digits, with a value that fits in `u32`.
pub open spec fn parses_as_u32(s: Seq<char>) -> bool {
    &&& unsigned_body(s).len() > 0
    &&& all_digits(unsigned_body(s))
    &&& dec_val(unsigned_body(s)) <= u32::MAX
}

/// Reading one more digit multiplies the prefix value by ten and adds it.
proof fn lemma_dec_val_step(s: Seq<char>, k: int)
    requires
        0 <= k < s.len(),
    ensures
        dec_val(s.take(k + 1)) == dec_val(s.take(k)) * 10 + digit_val(s[k]),
{
    assert(s.take(k + 1).drop_last() =~= s.take(k));
    assert(s.take(k + 1).last() == s[k]);
}

/// A prefix of a digit string never exceeds the whole string's value.
proof fn lemma_dec_val_prefix_le(s: Seq<char>, k: int)
    requires
        0 <= k <= s.len(),
    ensures
        dec_val(s.take(k)) <= dec_val(s),
    decreases s.len() - k,
{
    if k < s.len() {
        lemma_dec_val_step(s, k);
        assert(dec_val(s.take(k)) <= dec_val(s.take(k)) * 10 + digit_val(s[k]));
        lemma_dec_val_prefix_le(s, k + 1);
    } else {
        assert(s.take(k) =~= s);
    }
}

/// The canonical digits of `n` evaluate back to `n`.
pub proof fn lemma_dec_digits_val(n: nat)
    ensures
        dec_val(dec_digits(n)) == n,
        dec_digits(n).len() >= 1,
        all_digits(dec_digits(n)),
    decreases n,
{
    if n < 10 {
        let s = dec_digits(n);
        assert(s.len() == 1);
        assert(s.last() == digit_char(n));
        assert(s.drop_last() =~= Seq::<char>::empty());
        assert(dec_val(Seq::<char>::empty()) == 0);
        assert(dec_val(s) == dec_val(s.drop_last()) * 10 + digit_val(s.last()));
        assert(digit_val(digit_char(n)) == n);
    } else {
        lemma_dec_digits_val(n / 10);
        let s = dec_digits(n);
        assert(s.drop_last() =~= dec_digits(n / 10));
        vstd::arithmetic::div_mod::lemma_fundamental_div_mod(n as int, 10);
        assert(dec_val(s) == (n / 10) * 10 + n % 10);
        assert forall|i: int| 0 <= i < s.len() implies is_ascii_digit(#[trigger] s[i]) by {
            if i < s.len() - 1 {
                assert(s[i] == dec_digits(n / 10)[i]);
            }
        }
    }
}

/// Two distinct numbers never share the same canonical decimal digits.
pub proof fn lemma_dec_digits_injective(a: nat, b: nat)
    requires
        dec_digits(a) == dec_digits(b),
    ensures
        a == b,
{
    lemma_dec_digits_val(a);
    lemma_dec_digits_val(b);
}

/// Mirrors `str::parse::<u32>` on a lock-file name or a pid field: `Some`
/// exactly on an optional `'+'` followed by one or more decimal digits whose
/// value fits in `u32`.
pub fn parse_u32(s: &str) -> (r: Option<u32>)
    ensures
        r == if parses_as_u32(s@) {
            Some(dec_val(unsigned_body(s@)) as u32)
        } else {
            None::<u32>
        },
{
    let len = s.unicode_len();
    let mut i: usize = 0;
    if len > 0 && s.get_char(0) == '+' {
        i = 1;
    }
    let ghost body = unsigned_body(s@);
    proof {
        assert(body =~= s@.subrange(i as int, len as int));
    }
    if i >= len {
        return None;
    }
    let mut acc: u64 = 0;
    let mut j: usize = i;
    while j < len
        invariant
            i <= j <= len,
            len == s@.len(),
            body == unsigned_body(s@),
            body =~= s@.subrange(i as int, len as int),
            acc == dec_val(body.take(j - i)),
            acc <= u32::MAX,
            all_digits(body.take(j - i)),
        decreases len - j,
    {
        let c = s.get_char(j);
        let cv = c as u32;
        let ghost k = j - i;
        proof {
            assert(0 <= k < body.len());
            assert(body[k] == s@[j as int]);
            assert(body[k] == c);
        }
        if cv < 48 || cv > 57 {
            proof {
                assert(c as int == cv as int);
                assert(!is_ascii_digit(body[k]));
                assert(!all_digits(body));
            }
            return None;
        }
        proof {
            assert(c as int == cv as int);
            assert(is_ascii_digit(body[k]));
            assert(digit_val(body[k]) == cv - 48);
            lemma_dec_val_step(body, k);
            assert(dec_val(body.take(k + 1)) == dec_val(body.take(k)) * 10 + (cv - 48));
        }
        acc = acc * 10 + ((cv - 48) as u64);
        j = j + 1;
        proof {
            assert(acc == dec_val(body.take(k + 1)));
            assert(all_digits(body.take(k + 1)));
        }
        if acc > u32::MAX as u64 {
            proof {
                lemma_dec_val_prefix_le(body, k + 1);
                assert(dec_val(body) > u32::MAX);
                assert(!parses_as_u32(s@));
            }
            return None;
        }
    }
    proof {
        assert(body.take((j - i) as int) =~= body);
    }
    Some(acc as u32)
}

/// One digit as a string slice, for building decimal output.
fn digit_str(d: u32) -> (s: &'static str)
    requires
        d < 10,
    ensures
        s@ =~= seq![digit_char(d as nat)],
{
    proof {
        reveal_strlit("0");
        reveal_strlit("1");
        reveal_strlit("2");
        reveal_strlit("3");
        reveal_strlit("4");
        reveal_strlit("5");
        reveal_strlit("6");
        reveal_strlit("7");
        reveal_strlit("8");
        reveal_strlit("9");
    }
    match d {
        0 => "0",
        1 => "1",
        2 => "2",
        3 => "3",
        4 => "4",
        5 => "5",
        6 => "6",
        7 => "7",
        8 => "8",
        _ => "9",
    }
}

/// The canonical decimal form of `n`, as `u32::to_string` would print it.
pub fn u32_to_dec(n: u32) -> (s: String)
    ensures
        s@ == dec_digits(n as nat),
    decreases n,
{
    if n < 10 {
        let s = String::from_str(digit_str(n));
        proof {
            assert(s@ =~= dec_digits(n as nat));
        }
        s
    } else {
        let mut s = u32_to_dec(n / 10);
        s.append(digit_str(n % 10));
        proof {
            assert(s@ =~= dec_digits(n as nat));
        }
        s
    }
}

} // verus!
