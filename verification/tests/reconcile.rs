use vopono::error::VoponoError;
use vopono::namespaces::{clean_dead_namespaces, get_existing_namespaces};
use vopono::registry::{clean_dead_locks, list_entries, reconcile, LockFile};

fn lock(ns: &str, name: &str) -> LockFile {
    LockFile { namespace: String::from(ns), file_name: String::from(name) }
}

#[test]
fn namespace_listing_takes_first_token() {
    let names = get_existing_namespaces("ns1 (id: 0)\nns2\n");
    assert_eq!(names, vec![String::from("ns1"), String::from("ns2")]);
}

#[test]
fn namespace_listing_skips_blank_lines() {
    let names = get_existing_namespaces("\n  \nns1\n");
    assert_eq!(names, vec![String::from("ns1")]);
    assert_eq!(get_existing_namespaces(""), Vec::<String>::new());
}

#[test]
fn dead_lock_sweep_keeps_alive_and_non_numeric() {
    // Lock files for pids A (alive), B (dead) and "x" (non-numeric): after
    // the sweep only A's file and the non-numeric file remain.
    let files = vec![lock("ns1", "100"), lock("ns1", "200"), lock("ns1", "x")];
    let running = vec![100];
    let plan = clean_dead_locks(&files, &running);
    assert_eq!(plan.keep.len(), 2);
    assert_eq!(plan.keep[0].file_name, "100");
    assert_eq!(plan.keep[1].file_name, "x");
    assert_eq!(plan.remove.len(), 1);
    assert_eq!(plan.remove[0].file_name, "200");
}

#[test]
fn dead_namespace_sweep_deletes_only_unlocked() {
    // Existing namespaces n1 and n2, lock entries only for n1: after the
    // sweep only n1 remains.
    let locked = vec![String::from("n1")];
    let existing = vec![String::from("n1"), String::from("n2")];
    let doomed = clean_dead_namespaces(&locked, &existing);
    assert_eq!(doomed, vec![String::from("n2")]);
}

#[test]
fn registered_namespace_survives_with_dead_owner() {
    // Namespace survival depends only on the presence of some lock entry,
    // not on that entry's owner being alive.
    let files = vec![lock("n1", "999")];
    let running: Vec<u32> = vec![];
    let existing = vec![String::from("n1")];
    let plan = reconcile(&files, &running, &existing);
    // The dead lock itself goes...
    assert_eq!(plan.remove_locks.len(), 1);
    // ...and with it gone, the namespace is orphaned and goes too; but a
    // standalone dead-namespace sweep over the same entries keeps it.
    let locked = vec![String::from("n1")];
    let doomed = clean_dead_namespaces(&locked, &existing);
    assert_eq!(doomed, Vec::<String>::new());
}

#[test]
fn reconcile_full_pass() {
    let files = vec![
        lock("n1", "100"),
        lock("n1", "200"),
        lock("n2", "300"),
        lock("n3", "notapid"),
    ];
    let running = vec![100];
    let existing = vec![String::from("n1"), String::from("n2"), String::from("n4")];
    let plan = reconcile(&files, &running, &existing);
    assert_eq!(plan.keep_locks.len(), 2);
    assert_eq!(plan.keep_locks[0].file_name, "100");
    assert_eq!(plan.keep_locks[1].file_name, "notapid");
    assert_eq!(plan.remove_locks.len(), 2);
    // n1 keeps a live lock; n2 lost its only lock; n4 never had one; n3 has
    // only a non-lock file, which does not count as a lock record.
    assert_eq!(
        plan.delete_namespaces,
        vec![String::from("n2"), String::from("n4")]
    );
}

#[test]
fn reconcile_twice_deletes_nothing_more() {
    // Idempotence: with no intervening state change, a second pass decides
    // no further deletions.
    let files = vec![lock("n1", "100"), lock("n1", "200"), lock("n2", "300")];
    let running = vec![100];
    let existing = vec![String::from("n1"), String::from("n2")];
    let first = reconcile(&files, &running, &existing);
    let existing_after: Vec<String> = existing
        .iter()
        .filter(|n| !first.delete_namespaces.contains(n))
        .cloned()
        .collect();
    let second = reconcile(&first.keep_locks, &running, &existing_after);
    assert_eq!(second.remove_locks.len(), 0);
    assert_eq!(second.delete_namespaces.len(), 0);
    assert_eq!(second.keep_locks.len(), first.keep_locks.len());
}

#[test]
fn list_entries_groups_by_namespace() {
    let files = vec![
        lock("n1", "100"),
        lock("n2", "300"),
        lock("n1", "200"),
        lock("n1", "junk"),
        lock("n3", "junk"),
    ];
    let entries = list_entries(&files);
    assert_eq!(entries.len(), 2);
    let n1 = entries.iter().find(|e| e.0 == "n1").unwrap();
    assert_eq!(n1.1, vec![100, 200]);
    let n2 = entries.iter().find(|e| e.0 == "n2").unwrap();
    assert_eq!(n2.1, vec![300]);
    assert!(entries.iter().all(|e| e.0 != "n3"));
}

#[test]
fn error_messages() {
    assert_eq!(VoponoError::QueryFailed.describe(), "OS query failed");
    assert_eq!(
        VoponoError::NoFreeSubnet.describe(),
        "could not find free subnet of form: 10.200.xxx.1/24"
    );
    assert_eq!(VoponoError::ParseFailed.describe(), "could not parse value");
    assert_eq!(VoponoError::DeletionFailed.describe(), "deletion command failed");
}
