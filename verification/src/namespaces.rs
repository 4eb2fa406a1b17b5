//! Network-namespace listing and the dead-namespace sweep.
//!
//! `get_existing_namespaces` reads the output of `ip netns list` into the
//! namespace names it shows.  `clean_dead_namespaces` plans the garbage
//! collection pass: every existing namespace whose name has no lock entry
//! is selected for deletion.  The surrounding application performs the
//! deletions and treats any failure as fatal for the sweep.

use vstd::prelude::*;
use vstd::string::StringExecFns;

use crate::lines::{first_token, first_token_of, spec_split_lines, split_lines};

verus! {

/// The views of a sequence of owned strings.
pub open spec fn str_views(v: Seq<String>) -> Seq<Seq<char>> {
    Seq::new(v.len(), |i: int| v[i]@)
}

/// The namespace names named by an `ip netns list` output: the first
/// whitespace-separated token of each line, lines without one dropped.
pub open spec fn namespace_names(lines: Seq<Seq<char>>) -> Seq<Seq<char>>
    decreases lines.len(),
{
    if lines.len() == 0 {
        Seq::<Seq<char>>::empty()
    } else {
        let rest = namespace_names(lines.drop_last());
        match first_token(lines.last()) {
            None => rest,
            Some(t) => rest.push(t),
        }
    }
}

/// Parses the namespace listing into the names it shows, in listing order.
pub fn get_existing_namespaces(output: &str) -> (r: Vec<String>)
    ensures
        str_views(r@) == namespace_names(spec_split_lines(output@, 0)),
{
    let lines = split_lines(output);
    let ghost lviews = Seq::new(lines@.len(), |i: int| lines@[i]@);
    proof {
        assert(lviews =~= spec_split_lines(output@, 0));
    }
    let mut out: Vec<String> = Vec::new();
    let mut idx: usize = 0;
    while idx < lines.len()
        invariant
            idx <= lines@.len(),
            lviews == spec_split_lines(output@, 0),
            lviews.len() == lines@.len(),
            forall|m: int| 0 <= m < lviews.len() ==> lviews[m] == #[trigger] lines@[m]@,
            str_views(out@) == namespace_names(lviews.take(idx as int)),
        decreases lines@.len() - idx,
    {
        proof {
            assert(lviews.take(idx + 1).drop_last() =~= lviews.take(idx as int));
            assert(lviews.take(idx + 1).last() == lviews[idx as int]);
        }
        let line = &lines[idx];
        match first_token_of(line.as_str()) {
            Some(t) => {
                out.push(String::from_str(t));
                proof {
                    assert(str_views(out@) =~= namespace_names(lviews.take(idx + 1)));
                }
            },
            None => {
                proof {
                    assert(str_views(out@) =~= namespace_names(lviews.take(idx + 1)));
                }
            },
        }
        idx = idx + 1;
    }
    proof {
        assert(lviews.take(lines@.len() as int) =~= lviews);
    }
    out
}

/// The existing namespaces doomed by the sweep: those whose name is not in
/// `locked`, in their listing order.
pub open spec fn doomed_namespaces(existing: Seq<Seq<char>>, locked: Seq<Seq<char>>) -> Seq<
    Seq<char>,
>
    decreases existing.len(),
{
    if existing.len() == 0 {
        Seq::<Seq<char>>::empty()
    } else {
        let rest = doomed_namespaces(existing.drop_last(), locked);
        if locked.contains(existing.last()) {
            rest
        } else {
            rest.push(existing.last())
        }
    }
}

/// The existing namespaces the sweep leaves standing: those with a lock
/// entry, in their listing order.
pub open spec fn surviving_namespaces(existing: Seq<Seq<char>>, locked: Seq<Seq<char>>) -> Seq<
    Seq<char>,
>
    decreases existing.len(),
{
    if existing.len() == 0 {
        Seq::<Seq<char>>::empty()
    } else {
        let rest = surviving_namespaces(existing.drop_last(), locked);
        if locked.contains(existing.last()) {
            rest.push(existing.last())
        } else {
            rest
        }
    }
}

/// Whether some string of `v` reads `x`.
pub fn contains_name(v: &Vec<String>, x: &String) -> (b: bool)
    ensures
        b == str_views(v@).contains(x@),
{
    let mut i: usize = 0;
    while i < v.len()
        invariant
            i <= v@.len(),
            forall|k: int| 0 <= k < i ==> #[trigger] v@[k]@ != x@,
        decreases v@.len() - i,
    {
        if v[i] == *x {
            proof {
                assert(str_views(v@)[i as int] == x@);
            }
            return true;
        }
        i = i + 1;
    }
    proof {
        assert forall|k: int| 0 <= k < str_views(v@).len() implies str_views(v@)[k] != x@ by {
            assert(v@[k]@ != x@);
        }
    }
    false
}

/// Plans the dead-namespace sweep: of the `existing` namespaces, exactly
/// those without an entry in `lock_namespaces` are returned for deletion,
/// in their listing order.  A namespace with any lock entry survives,
/// whether or not the entry's owner is alive; liveness is the dead-lock
/// sweep's business.
pub fn clean_dead_namespaces(lock_namespaces: &Vec<String>, existing: &Vec<String>) -> (r: Vec<
    String,
>)
    ensures
        str_views(r@) == doomed_namespaces(str_views(existing@), str_views(lock_namespaces@)),
{
    let ghost ex = str_views(existing@);
    let ghost lk = str_views(lock_namespaces@);
    let mut out: Vec<String> = Vec::new();
    let mut idx: usize = 0;
    while idx < existing.len()
        invariant
            idx <= existing@.len(),
            ex == str_views(existing@),
            lk == str_views(lock_namespaces@),
            str_views(out@) == doomed_namespaces(ex.take(idx as int), lk),
        decreases existing@.len() - idx,
    {
        proof {
            assert(ex.take(idx + 1).drop_last() =~= ex.take(idx as int));
            assert(ex.take(idx + 1).last() == ex[idx as int]);
            assert(ex[idx as int] == existing@[idx as int]@);
        }
        let name = &existing[idx];
        if !contains_name(lock_namespaces, name) {
            out.push(name.clone());
        }
        proof {
            assert(str_views(out@) =~= doomed_namespaces(ex.take(idx + 1), lk));
        }
        idx = idx + 1;
    }
    proof {
        assert(ex.take(existing@.len() as int) =~= ex);
    }
    out
}

/// A namespace name with a lock entry is never doomed by the sweep,
/// whatever the liveness of the entry's owner: survival depends only on the
/// presence of some entry.
pub proof fn lemma_registered_namespace_survives(
    existing: Seq<Seq<char>>,
    locked: Seq<Seq<char>>,
    ns: Seq<char>,
)
    requires
        locked.contains(ns),
    ensures
        !doomed_namespaces(existing, locked).contains(ns),
    decreases existing.len(),
{
    if existing.len() > 0 {
        lemma_registered_namespace_survives(existing.drop_last(), locked, ns);
        let rest = doomed_namespaces(existing.drop_last(), locked);
        if !locked.contains(existing.last()) {
            assert forall|i: int|
                0 <= i < rest.push(existing.last()).len() implies rest.push(existing.last())[i]
                != ns by {
                if i < rest.len() {
                    assert(rest.push(existing.last())[i] == rest[i]);
                }
            }
        }
    }
}

/// Doomed and surviving namespaces partition the existing ones: sweeping the
/// survivors again dooms nothing.
pub proof fn lemma_namespace_sweep_idempotent(existing: Seq<Seq<char>>, locked: Seq<Seq<char>>)
    ensures
        doomed_namespaces(surviving_namespaces(existing, locked), locked) =~= Seq::<
            Seq<char>,
        >::empty(),
    decreases existing.len(),
{
    if existing.len() > 0 {
        lemma_namespace_sweep_idempotent(existing.drop_last(), locked);
        if locked.contains(existing.last()) {
            let surv = surviving_namespaces(existing, locked);
            assert(surv.drop_last() =~= surviving_namespaces(existing.drop_last(), locked));
        }
    }
}

} // verus!
