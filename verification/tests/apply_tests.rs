use dam::apply::{
    changed_locally, confirms_overwrite, find_latest_global_seal, flow_snapshot_message,
    needs_overwrite_check, overwrite_check_disabled, overwrite_check_exclude, safety_seal_message,
    wants_flow_snapshot, wants_safety_seal, HashCache, SealFile, SealStamp, overwrite_check,
    OverwriteCheck,
};

fn sf(path: &str, hash: &str, is_dir: bool) -> SealFile {
    SealFile { path: path.to_string(), hash: hash.to_string(), is_dir }
}

#[test]
fn hash_cache_reads_back_what_was_recorded() {
    let mut c = HashCache::new();
    assert_eq!(c.cached_hash("a.txt", 1, 2), None);
    c.record("a.txt".to_string(), "h1".to_string(), 1, 2);
    c.record("b.txt".to_string(), "h2".to_string(), 3, 4);
    assert_eq!(c.cached_hash("a.txt", 1, 2), Some("h1".to_string()));
    // a changed file is hashed again
    assert_eq!(c.cached_hash("a.txt", 9, 2), None);
    assert_eq!(c.cached_hash("a.txt", 1, 3), None);
    c.record("a.txt".to_string(), "h3".to_string(), 9, 2);
    assert_eq!(c.cached_hash("a.txt", 9, 2), Some("h3".to_string()));
    assert_eq!(c.cached_hash("b.txt", 3, 4), Some("h2".to_string()));
    assert_eq!(c.entries.len(), 2);
}

#[test]
fn overwrite_settings_are_read() {
    let cfg = "disable_overwrite_check = true\noverwrite_check_exclude = \"a.txt, b/c.txt,\"\n";
    assert!(overwrite_check_disabled(cfg));
    assert_eq!(overwrite_check_exclude(cfg), vec!["a.txt".to_string(), "b/c.txt".to_string()]);
    assert!(!overwrite_check_disabled("name = \"x\"\n"));
    assert!(overwrite_check_exclude("").is_empty());
}

#[test]
fn only_changed_files_are_reported() {
    let files = vec![
        sf("same.txt", "h1", false),
        sf("changed.txt", "h2", false),
        sf("missing.txt", "h3", false),
        sf("dir", "", true),
        sf("skipped.txt", "h4", false),
    ];
    let excluded = vec!["skipped.txt".to_string()];
    assert!(!needs_overwrite_check(&files[3], &excluded));
    assert!(!needs_overwrite_check(&files[4], &excluded));
    assert!(needs_overwrite_check(&files[0], &excluded));
    let current = vec![
        Some("h1".to_string()),
        Some("other".to_string()),
        None,
        Some("x".to_string()),
        Some("x".to_string()),
    ];
    assert_eq!(changed_locally(&files, &excluded, &current), vec!["changed.txt".to_string()]);
}

fn stamp(id: &str, ts: &str) -> SealStamp {
    SealStamp { id: id.to_string(), timestamp: ts.to_string() }
}

#[test]
fn latest_global_seal_compares_instants() {
    let seals = vec![
        stamp("a", "2024-01-01T10:00:00+00:00"),
        // an hour later in absolute time, though its local clock reads earlier
        stamp("b", "2024-01-01T10:30:00+02:00"),
        stamp("c", "2024-01-01T11:00:00+00:00"),
        stamp("d", "not a date"),
    ];
    assert_eq!(find_latest_global_seal(&seals), Some("c".to_string()));
    let seals = vec![stamp("x", "garbage"), stamp("y", "2024-01-01T00:00:00Z")];
    assert_eq!(find_latest_global_seal(&seals), Some("y".to_string()));
    let seals = vec![stamp("x", "garbage"), stamp("z", "also garbage")];
    assert_eq!(find_latest_global_seal(&seals), Some("x".to_string()));
    assert_eq!(find_latest_global_seal(&vec![]), None);
    let seals = vec![stamp("p", "2024-01-01T00:00:00.5Z"), stamp("q", "2024-01-01T00:00:00.25Z")];
    assert_eq!(find_latest_global_seal(&seals), Some("p".to_string()));
}

#[test]
fn restore_prompts() {
    assert!(confirms_overwrite(" Y "));
    assert!(!confirms_overwrite("yes"));
    assert!(wants_safety_seal(""));
    assert!(wants_safety_seal("Y"));
    assert!(!wants_safety_seal("n"));
    assert_eq!(safety_seal_message("  ", "seal_7"), "Pre-apply snapshot for seal_7");
    assert_eq!(safety_seal_message(" keep ", "seal_7"), "keep");
    assert!(wants_flow_snapshot(""));
    assert!(!wants_flow_snapshot(" N "));
    assert_eq!(
        flow_snapshot_message(Some("dev\n"), "main"),
        "Continuity auto-snapshot before flowing from dev to main"
    );
    assert_eq!(
        flow_snapshot_message(None, "main"),
        "Continuity auto-snapshot before flowing from unknown to main"
    );
}

#[test]
fn unsealed_changes_halt_the_restore() {
    let latest = vec![sf("a.txt", "h1", false), sf("b.txt", "h2", false)];
    let target = vec![sf("a.txt", "old", false)];
    let ex: Vec<String> = vec![];
    // b.txt changed since the latest seal: halt, whatever the target seal holds
    let lc = vec![Some("h1".to_string()), Some("changed".to_string())];
    let tc = vec![Some("h1".to_string())];
    match overwrite_check(false, &latest, &lc, &target, &tc, &ex) {
        OverwriteCheck::Halt(v) => assert_eq!(v, vec!["b.txt".to_string()]),
        _ => panic!("expected a halt"),
    }
    // the check can be turned off
    assert!(matches!(overwrite_check(true, &latest, &lc, &target, &tc, &ex), OverwriteCheck::Proceed));
    // an exempted path is not looked at
    let ex_b = vec!["b.txt".to_string()];
    match overwrite_check(false, &latest, &lc, &target, &tc, &ex_b) {
        OverwriteCheck::Confirm(v) => assert_eq!(v, vec!["a.txt".to_string()]),
        _ => panic!("expected a confirmation"),
    }
    // all work sealed: files that differ from the target seal are confirmed
    let lc2 = vec![Some("h1".to_string()), Some("h2".to_string())];
    match overwrite_check(false, &latest, &lc2, &target, &tc, &ex) {
        OverwriteCheck::Confirm(v) => assert_eq!(v, vec!["a.txt".to_string()]),
        _ => panic!("expected a confirmation"),
    }
    // nothing differs: proceed
    let tc2 = vec![Some("old".to_string())];
    assert!(matches!(overwrite_check(false, &latest, &lc2, &target, &tc2, &ex), OverwriteCheck::Proceed));
    // a stream without a latest seal has nothing unsealed
    assert!(matches!(overwrite_check(false, &vec![], &vec![], &target, &tc2, &ex), OverwriteCheck::Proceed));
}
