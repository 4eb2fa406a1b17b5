//! The lock-file liveness registry and the reconciliation passes.
//!
//! A lock record is a file named by the decimal pid of its owner, inside a
//! directory named after the namespace the owner claims.  The surrounding
//! application walks the registry directory and hands the entries here as
//! plain values; this module decides which records are stale, which
//! namespaces are orphaned, and what the registry maps to.

use vstd::prelude::*;

use crate::digits::{dec_val, parse_u32, parses_as_u32, unsigned_body};
use crate::namespaces::{contains_name, str_views};

verus! {

/// One file found under the registry root: `namespace/file_name`.
#[derive(Debug)]
pub struct LockFile {
    /// The namespace subdirectory the file sits in.
    pub namespace: String,
    /// The bare file name; a lock record when it parses as a pid.
    pub file_name: String,
}

impl Clone for LockFile {
    fn clone(&self) -> (r: Self)
        ensures
            r == *self,
    {
        LockFile { namespace: self.namespace.clone(), file_name: self.file_name.clone() }
    }
}

/// The pid a lock record's name encodes.
pub open spec fn lock_pid(f: LockFile) -> u32
    recommends
        parses_as_u32(f.file_name@),
{
    dec_val(unsigned_body(f.file_name@)) as u32
}

/// A stale record: its name parses as a pid, and that pid is not running.
/// A file whose name does not parse is not a lock record and is left alone.
pub open spec fn is_stale(f: LockFile, running: Seq<u32>) -> bool {
    parses_as_u32(f.file_name@) && !running.contains(lock_pid(f))
}

/// The registry files the dead-lock sweep deletes, in walk order.
pub open spec fn stale_files(files: Seq<LockFile>, running: Seq<u32>) -> Seq<LockFile>
    decreases files.len(),
{
    if files.len() == 0 {
        Seq::<LockFile>::empty()
    } else {
        let rest = stale_files(files.drop_last(), running);
        if is_stale(files.last(), running) {
            rest.push(files.last())
        } else {
            rest
        }
    }
}

/// The registry files the dead-lock sweep keeps, in walk order.
pub open spec fn live_files(files: Seq<LockFile>, running: Seq<u32>) -> Seq<LockFile>
    decreases files.len(),
{
    if files.len() == 0 {
        Seq::<LockFile>::empty()
    } else {
        let rest = live_files(files.drop_last(), running);
        if is_stale(files.last(), running) {
            rest
        } else {
            rest.push(files.last())
        }
    }
}

/// Whether some element of `v` equals `x`.
pub fn contains_u32(v: &Vec<u32>, x: u32) -> (b: bool)
    ensures
        b == v@.contains(x),
{
    let mut i: usize = 0;
    while i < v.len()
        invariant
            i <= v@.len(),
            forall|k: int| 0 <= k < i ==> v@[k] != x,
        decreases v@.len() - i,
    {
        if v[i] == x {
            return true;
        }
        i = i + 1;
    }
    false
}

/// What the dead-lock sweep decided: the records to delete and the files
/// that stay.
#[derive(Debug)]
pub struct LockSweepPlan {
    /// Records whose owner is dead; the application deletes these files.
    pub remove: Vec<LockFile>,
    /// Everything else: records with a live owner, and non-lock files.
    pub keep: Vec<LockFile>,
}

/// Plans the dead-lock sweep over a walk of the registry.  A file is
/// removed exactly when its name parses as a pid that is not in `running`;
/// files with unparsable names are kept untouched.  Order of the walk is
/// preserved on both sides.
pub fn clean_dead_locks(files: &Vec<LockFile>, running: &Vec<u32>) -> (plan: LockSweepPlan)
    ensures
        plan.remove@ == stale_files(files@, running@),
        plan.keep@ == live_files(files@, running@),
{
    let mut remove: Vec<LockFile> = Vec::new();
    let mut keep: Vec<LockFile> = Vec::new();
    let mut idx: usize = 0;
    while idx < files.len()
        invariant
            idx <= files@.len(),
            remove@ == stale_files(files@.take(idx as int), running@),
            keep@ == live_files(files@.take(idx as int), running@),
        decreases files@.len() - idx,
    {
        proof {
            assert(files@.take(idx + 1).drop_last() =~= files@.take(idx as int));
            assert(files@.take(idx + 1).last() == files@[idx as int]);
        }
        let f = &files[idx];
        let stale = match parse_u32(f.file_name.as_str()) {
            Some(pid) => !contains_u32(running, pid),
            None => false,
        };
        proof {
            assert(stale == is_stale(files@[idx as int], running@));
        }
        if stale {
            remove.push(f.clone());
        } else {
            keep.push(f.clone());
        }
        proof {
            assert(remove@ =~= stale_files(files@.take(idx + 1), running@));
            assert(keep@ =~= live_files(files@.take(idx + 1), running@));
        }
        idx = idx + 1;
    }
    proof {
        assert(files@.take(files@.len() as int) =~= files@);
    }
    LockSweepPlan { remove, keep }
}

/// Whether `files` holds a lock record (a pid-named file) for namespace `ns`.
pub open spec fn has_lock_entry(files: Seq<LockFile>, ns: Seq<char>) -> bool {
    exists|i: int|
        0 <= i < files.len() && (#[trigger] files[i]).namespace@ == ns && parses_as_u32(
            files[i].file_name@,
        )
}

/// Whether the walked registry holds a lock record for namespace `ns`.
pub fn has_entry(files: &Vec<LockFile>, ns: &String) -> (b: bool)
    ensures
        b == has_lock_entry(files@, ns@),
{
    let mut i: usize = 0;
    while i < files.len()
        invariant
            i <= files@.len(),
            forall|k: int|
                0 <= k < i ==> !((#[trigger] files@[k]).namespace@ == ns@ && parses_as_u32(
                    files@[k].file_name@,
                )),
        decreases files@.len() - i,
    {
        let f = &files[i];
        if f.namespace == *ns {
            if parse_u32(f.file_name.as_str()).is_some() {
                return true;
            }
        }
        i = i + 1;
    }
    false
}

/// The pids claiming namespace `ns`, in walk order.
pub open spec fn ns_pids(files: Seq<LockFile>, ns: Seq<char>) -> Seq<u32>
    decreases files.len(),
{
    if files.len() == 0 {
        Seq::<u32>::empty()
    } else {
        let rest = ns_pids(files.drop_last(), ns);
        let f = files.last();
        if f.namespace@ == ns && parses_as_u32(f.file_name@) {
            rest.push(lock_pid(f))
        } else {
            rest
        }
    }
}

/// Collects the pids that claim namespace `ns`.
fn collect_pids(files: &Vec<LockFile>, ns: &String) -> (v: Vec<u32>)
    ensures
        v@ == ns_pids(files@, ns@),
{
    let mut out: Vec<u32> = Vec::new();
    let mut idx: usize = 0;
    while idx < files.len()
        invariant
            idx <= files@.len(),
            out@ == ns_pids(files@.take(idx as int), ns@),
        decreases files@.len() - idx,
    {
        proof {
            assert(files@.take(idx + 1).drop_last() =~= files@.take(idx as int));
            assert(files@.take(idx + 1).last() == files@[idx as int]);
        }
        let f = &files[idx];
        if f.namespace == *ns {
            match parse_u32(f.file_name.as_str()) {
                Some(pid) => {
                    out.push(pid);
                },
                None => {},
            }
        }
        proof {
            assert(out@ =~= ns_pids(files@.take(idx + 1), ns@));
        }
        idx = idx + 1;
    }
    proof {
        assert(files@.take(files@.len() as int) =~= files@);
    }
    out
}

/// Reads the registry walk as a map from namespace name to the pids that
/// claim it: one entry per namespace with at least one lock record, carrying
/// exactly those pids in walk order.  Files whose names do not parse are
/// ignored rather than reported.
pub fn list_entries(files: &Vec<LockFile>) -> (r: Vec<(String, Vec<u32>)>)
    ensures
        forall|k: int|
            0 <= k < r@.len() ==> has_lock_entry(files@, (#[trigger] r@[k]).0@),
        forall|k: int| 0 <= k < r@.len() ==> (#[trigger] r@[k]).1@ == ns_pids(files@, r@[k].0@),
        forall|k1: int, k2: int|
            0 <= k1 < k2 < r@.len() ==> (#[trigger] r@[k1]).0@ != (#[trigger] r@[k2]).0@,
        forall|ns: Seq<char>|
            #[trigger] has_lock_entry(files@, ns) ==> exists|k: int|
                0 <= k < r@.len() && (#[trigger] r@[k]).0@ == ns,
{
    let mut keys: Vec<String> = Vec::new();
    let mut idx: usize = 0;
    while idx < files.len()
        invariant
            idx <= files@.len(),
            forall|k: int|
                0 <= k < keys@.len() ==> has_lock_entry(files@, (#[trigger] keys@[k])@),
            forall|k1: int, k2: int|
                0 <= k1 < k2 < keys@.len() ==> (#[trigger] keys@[k1])@ != (#[trigger] keys@[k2])@,
            forall|ns: Seq<char>|
                #[trigger] has_lock_entry(files@.take(idx as int), ns) ==> str_views(
                    keys@,
                ).contains(ns),
        decreases files@.len() - idx,
    {
        let f = &files[idx];
        let ghost keys0 = keys@;
        let parses = parse_u32(f.file_name.as_str()).is_some();
        if parses {
            proof {
                assert(has_lock_entry(files@, files@[idx as int].namespace@));
            }
            let present = contains_name(&keys, &f.namespace);
            if !present {
                proof {
                    assert forall|k: int|
                        0 <= k < keys@.len() implies (#[trigger] keys@[k])@ != f.namespace@ by {
                        assert(str_views(keys@)[k] == keys@[k]@);
                    }
                }
                keys.push(f.namespace.clone());
            }
            proof {
                if present {
                    assert(str_views(keys@).contains(f.namespace@));
                } else {
                    assert(str_views(keys@)[keys@.len() - 1] == f.namespace@);
                }
            }
        }
        proof {
            assert forall|ns: Seq<char>| #[trigger] str_views(keys0).contains(ns) implies str_views(
                keys@,
            ).contains(ns) by {
                let k = choose|k: int| 0 <= k < keys0.len() && str_views(keys0)[k] == ns;
                assert(str_views(keys@)[k] == keys@[k]@);
            }
            assert forall|ns: Seq<char>|
                #[trigger] has_lock_entry(files@.take(idx + 1), ns) implies str_views(
                keys@,
            ).contains(ns) by {
                let i = choose|i: int|
                    0 <= i < files@.take(idx + 1).len() && (#[trigger] files@.take(
                        idx + 1,
                    )[i]).namespace@ == ns && parses_as_u32(files@.take(idx + 1)[i].file_name@);
                if i < idx {
                    assert(files@.take(idx as int)[i] == files@.take(idx + 1)[i]);
                    assert(has_lock_entry(files@.take(idx as int), ns));
                    assert(str_views(keys0).contains(ns));
                } else {
                    assert(files@[idx as int].namespace@ == ns);
                    assert(parses_as_u32(files@[idx as int].file_name@));
                    assert(str_views(keys@).contains(ns));
                }
            }
        }
        idx = idx + 1;
    }
    proof {
        assert(files@.take(files@.len() as int) =~= files@);
    }
    let mut out: Vec<(String, Vec<u32>)> = Vec::new();
    let mut j: usize = 0;
    while j < keys.len()
        invariant
            j <= keys@.len(),
            out@.len() == j,
            forall|k: int|
                0 <= k < keys@.len() ==> has_lock_entry(files@, (#[trigger] keys@[k])@),
            forall|k1: int, k2: int|
                0 <= k1 < k2 < keys@.len() ==> (#[trigger] keys@[k1])@ != (#[trigger] keys@[k2])@,
            forall|ns: Seq<char>|
                #[trigger] has_lock_entry(files@, ns) ==> str_views(keys@).contains(ns),
            forall|k: int| 0 <= k < j ==> (#[trigger] out@[k]).0@ == keys@[k]@,
            forall|k: int| 0 <= k < j ==> (#[trigger] out@[k]).1@ == ns_pids(files@, out@[k].0@),
        decreases keys@.len() - j,
    {
        let name = keys[j].clone();
        let pids = collect_pids(files, &name);
        out.push((name, pids));
        j = j + 1;
    }
    proof {
        assert forall|ns: Seq<char>|
            #[trigger] has_lock_entry(files@, ns) implies exists|k: int|
            0 <= k < out@.len() && (#[trigger] out@[k]).0@ == ns by {
            assert(str_views(keys@).contains(ns));
            let k = choose|k: int| 0 <= k < str_views(keys@).len() && str_views(keys@)[k] == ns;
            assert(out@[k].0@ == ns);
        }
    }
    out
}

/// The existing namespaces with no lock record among `files`, in listing
/// order: what the dead-namespace pass of a reconciliation deletes.
pub open spec fn ns_doomed(existing: Seq<Seq<char>>, files: Seq<LockFile>) -> Seq<Seq<char>>
    decreases existing.len(),
{
    if existing.len() == 0 {
        Seq::<Seq<char>>::empty()
    } else {
        let rest = ns_doomed(existing.drop_last(), files);
        if has_lock_entry(files, existing.last()) {
            rest
        } else {
            rest.push(existing.last())
        }
    }
}

/// The existing namespaces a reconciliation leaves standing.
pub open spec fn ns_kept(existing: Seq<Seq<char>>, files: Seq<LockFile>) -> Seq<Seq<char>>
    decreases existing.len(),
{
    if existing.len() == 0 {
        Seq::<Seq<char>>::empty()
    } else {
        let rest = ns_kept(existing.drop_last(), files);
        if has_lock_entry(files, existing.last()) {
            rest.push(existing.last())
        } else {
            rest
        }
    }
}

/// What one reconciliation pass decided.
#[derive(Debug)]
pub struct ReconcilePlan {
    /// Lock records whose owner is dead: the application deletes these files.
    pub remove_locks: Vec<LockFile>,
    /// The registry files that stay.
    pub keep_locks: Vec<LockFile>,
    /// Existing namespaces with no remaining lock record: the application
    /// deletes these, and a failure there aborts the whole sweep.
    pub delete_namespaces: Vec<String>,
}

/// Plans a full reconciliation: first the dead-lock sweep, then the
/// dead-namespace sweep against the records that survive it.  A namespace
/// is deleted exactly when no surviving file under the registry root names
/// a pid claiming it.
pub fn reconcile(files: &Vec<LockFile>, running: &Vec<u32>, existing: &Vec<String>) -> (plan:
    ReconcilePlan)
    ensures
        plan.remove_locks@ == stale_files(files@, running@),
        plan.keep_locks@ == live_files(files@, running@),
        str_views(plan.delete_namespaces@) == ns_doomed(
            str_views(existing@),
            live_files(files@, running@),
        ),
{
    let sweep = clean_dead_locks(files, running);
    let mut doomed: Vec<String> = Vec::new();
    let ghost ex = str_views(existing@);
    let mut idx: usize = 0;
    while idx < existing.len()
        invariant
            idx <= existing@.len(),
            ex == str_views(existing@),
            sweep.keep@ == live_files(files@, running@),
            sweep.remove@ == stale_files(files@, running@),
            str_views(doomed@) == ns_doomed(ex.take(idx as int), sweep.keep@),
        decreases existing@.len() - idx,
    {
        proof {
            assert(ex.take(idx + 1).drop_last() =~= ex.take(idx as int));
            assert(ex.take(idx + 1).last() == ex[idx as int]);
            assert(ex[idx as int] == existing@[idx as int]@);
        }
        let name = &existing[idx];
        if !has_entry(&sweep.keep, name) {
            doomed.push(name.clone());
        }
        proof {
            assert(str_views(doomed@) =~= ns_doomed(ex.take(idx + 1), sweep.keep@));
        }
        idx = idx + 1;
    }
    proof {
        assert(ex.take(existing@.len() as int) =~= ex);
    }
    ReconcilePlan { remove_locks: sweep.remove, keep_locks: sweep.keep, delete_namespaces: doomed }
}

/// Every file the sweep keeps is itself not stale.
proof fn lemma_live_files_not_stale(files: Seq<LockFile>, running: Seq<u32>)
    ensures
        forall|i: int|
            0 <= i < live_files(files, running).len() ==> !is_stale(
                #[trigger] live_files(files, running)[i],
                running,
            ),
    decreases files.len(),
{
    if files.len() > 0 {
        lemma_live_files_not_stale(files.drop_last(), running);
        let rest = live_files(files.drop_last(), running);
        let whole = live_files(files, running);
        if !is_stale(files.last(), running) {
            assert(whole == rest.push(files.last()));
            assert forall|i: int| 0 <= i < whole.len() implies !is_stale(whole[i], running) by {
                if i < rest.len() {
                    assert(whole[i] == rest[i]);
                } else {
                    assert(whole[i] == files.last());
                }
            }
        }
    }
}

/// On a registry with no stale file the sweep is a no-op.
proof fn lemma_sweep_of_live(files: Seq<LockFile>, running: Seq<u32>)
    requires
        forall|i: int| 0 <= i < files.len() ==> !is_stale(#[trigger] files[i], running),
    ensures
        stale_files(files, running) =~= Seq::<LockFile>::empty(),
        live_files(files, running) =~= files,
    decreases files.len(),
{
    if files.len() > 0 {
        assert(forall|i: int|
            0 <= i < files.drop_last().len() ==> !is_stale(
                #[trigger] files.drop_last()[i],
                running,
            ));
        lemma_sweep_of_live(files.drop_last(), running);
    }
}

/// Kept namespaces all have a lock record, so sweeping them again dooms
/// nothing.
proof fn lemma_ns_doomed_of_kept(existing: Seq<Seq<char>>, files: Seq<LockFile>)
    ensures
        ns_doomed(ns_kept(existing, files), files) =~= Seq::<Seq<char>>::empty(),
    decreases existing.len(),
{
    if existing.len() > 0 {
        lemma_ns_doomed_of_kept(existing.drop_last(), files);
        if has_lock_entry(files, existing.last()) {
            let kept = ns_kept(existing, files);
            assert(kept.drop_last() =~= ns_kept(existing.drop_last(), files));
        }
    }
}

/// Reconciliation is idempotent: with no intervening state change — the
/// registry now holds exactly the kept files, the process table is
/// unchanged, and the namespaces that were doomed are gone — a second pass
/// deletes no lock record and no namespace.
pub proof fn lemma_reconcile_idempotent(
    files: Seq<LockFile>,
    running: Seq<u32>,
    existing: Seq<Seq<char>>,
)
    ensures
        stale_files(live_files(files, running), running) =~= Seq::<LockFile>::empty(),
        live_files(live_files(files, running), running) =~= live_files(files, running),
        ns_doomed(
            ns_kept(existing, live_files(files, running)),
            live_files(files, running),
        ) =~= Seq::<Seq<char>>::empty(),
{
    lemma_live_files_not_stale(files, running);
    lemma_sweep_of_live(live_files(files, running), running);
    lemma_ns_doomed_of_kept(existing, live_files(files, running));
}

} // verus!
