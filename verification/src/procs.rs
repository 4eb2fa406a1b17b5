//! Process-table inspection logic.
//!
//! The surrounding application runs `ps` and hands the raw output here.
//! `check_process_running` decides liveness of one pid by an exact match of
//! the first output line against the pid's canonical decimal form;
//! `get_all_running_pids` reads the whole listing.

use vstd::prelude::*;
use vstd::string::StrSliceExecFns;
use vstd::string::StringExecFns;

use crate::digits::{
    dec_digits, dec_val, lemma_dec_digits_injective, lemma_dec_digits_val, parse_u32,
    parses_as_u32, u32_to_dec, unsigned_body,
};
use crate::error::VoponoError;
use crate::lines::{
    find_nl, lemma_scan_nl_bounds, spec_split_lines, spec_trim, split_lines, trim_of,
};

verus! {

/// The first line of command output, as `split('\n').next()` yields it.
pub open spec fn first_line(s: Seq<char>) -> Seq<char> {
    spec_split_lines(s, 0)[0]
}

/// Whether a process with exactly the given pid exists according to the
/// output of `ps -p <pid> -o pid:1 --no-headers`: true iff the first output
/// line, trimmed, is the canonical decimal form of `pid`.  A prefix,
/// substring or different pid never passes.
pub fn check_process_running(output: &str, pid: u32) -> (r: bool)
    ensures
        r == (spec_trim(first_line(output@)) == dec_digits(pid as nat)),
{
    let k = find_nl(output, 0);
    let line = output.substring_char(0, k);
    proof {
        lemma_scan_nl_bounds(output@, 0);
        assert(first_line(output@) == output@.subrange(0, k as int));
    }
    let t = trim_of(line);
    let ts = String::from_str(t);
    let ps = u32_to_dec(pid);
    let r = ts == ps;
    proof {
        assert(ts@ == spec_trim(first_line(output@)));
        assert(ps@ == dec_digits(pid as nat));
    }
    r
}

/// The liveness probe is exact: output whose first line is the canonical
/// decimal of one pid never passes the check for a different pid.
pub proof fn lemma_check_process_running_exact(output: Seq<char>, p1: u32, p2: u32)
    requires
        spec_trim(first_line(output)) == dec_digits(p1 as nat),
        p1 != p2,
    ensures
        spec_trim(first_line(output)) != dec_digits(p2 as nat),
{
    if spec_trim(first_line(output)) == dec_digits(p2 as nat) {
        lemma_dec_digits_injective(p1 as nat, p2 as nat);
    }
}

/// A probe that produced no pid at all never passes: when the first output
/// line trims to nothing, no pid is reported alive.
pub proof fn lemma_empty_probe_is_dead(output: Seq<char>, pid: u32)
    requires
        spec_trim(first_line(output)) == Seq::<char>::empty(),
    ensures
        spec_trim(first_line(output)) != dec_digits(pid as nat),
{
    lemma_dec_digits_val(pid as nat);
}

/// The pids named by a full `ps a -o pid:1 --no-headers` listing: each line
/// is trimmed, empty lines are dropped, and every remaining line must parse
/// as a `u32`; one unparsable line spoils the whole listing.
pub open spec fn running_pids_of(lines: Seq<Seq<char>>) -> Option<Seq<u32>>
    decreases lines.len(),
{
    if lines.len() == 0 {
        Some(Seq::<u32>::empty())
    } else {
        match running_pids_of(lines.drop_last()) {
            None => None,
            Some(ps) => {
                let t = spec_trim(lines.last());
                if t.len() == 0 {
                    Some(ps)
                } else if parses_as_u32(t) {
                    Some(ps.push(dec_val(unsigned_body(t)) as u32))
                } else {
                    None
                }
            },
        }
    }
}

/// A listing that already fails on a prefix fails as a whole.
proof fn lemma_running_pids_none_prefix(lines: Seq<Seq<char>>, k: int)
    requires
        0 <= k <= lines.len(),
        running_pids_of(lines.take(k)) is None,
    ensures
        running_pids_of(lines) is None,
    decreases lines.len() - k,
{
    if k < lines.len() {
        assert(lines.take(k + 1).drop_last() =~= lines.take(k));
        lemma_running_pids_none_prefix(lines, k + 1);
    } else {
        assert(lines.take(k) =~= lines);
    }
}

/// Parses the process listing into the pids it names, in listing order.
/// Fails with `ParseFailed` exactly when some nonempty trimmed line is not
/// an unsigned integer.
pub fn get_all_running_pids(output: &str) -> (r: Result<Vec<u32>, VoponoError>)
    ensures
        (r is Ok) == (running_pids_of(spec_split_lines(output@, 0)) is Some),
        r matches Ok(v) ==> Some(v@) == running_pids_of(spec_split_lines(output@, 0)),
        r is Err ==> r == Err::<Vec<u32>, VoponoError>(VoponoError::ParseFailed),
{
    let lines = split_lines(output);
    let ghost lviews = Seq::new(lines@.len(), |i: int| lines@[i]@);
    proof {
        assert(lviews =~= spec_split_lines(output@, 0));
    }
    let mut out: Vec<u32> = Vec::new();
    let mut idx: usize = 0;
    while idx < lines.len()
        invariant
            idx <= lines@.len(),
            lviews == spec_split_lines(output@, 0),
            lviews.len() == lines@.len(),
            forall|m: int| 0 <= m < lviews.len() ==> lviews[m] == #[trigger] lines@[m]@,
            running_pids_of(lviews.take(idx as int)) == Some(out@),
        decreases lines@.len() - idx,
    {
        let ghost prefix = lviews.take(idx as int);
        proof {
            assert(lviews.take(idx + 1).drop_last() =~= prefix);
            assert(lviews.take(idx + 1).last() == lviews[idx as int]);
        }
        let line = &lines[idx];
        let t = trim_of(line.as_str());
        proof {
            assert(t@ == spec_trim(lviews[idx as int]));
        }
        if !t.is_empty() {
            match parse_u32(t) {
                Some(p) => {
                    out.push(p);
                },
                None => {
                    proof {
                        assert(running_pids_of(lviews.take(idx + 1)) is None);
                        lemma_running_pids_none_prefix(lviews, idx + 1);
                    }
                    return Err(VoponoError::ParseFailed);
                },
            }
        }
        idx = idx + 1;
        proof {
            assert(running_pids_of(lviews.take(idx as int)) == Some(out@));
        }
    }
    proof {
        assert(lviews.take(lines@.len() as int) =~= lviews);
    }
    Ok(out)
}

} // verus!
