//! Scenario tests for the usage ledger, the orphan detector and the
//! monitor supervisor.

use dusty::config::Config;
use dusty::ledger::{BackfillItem, Ledger};
use dusty::deps::{needs_reanalysis, orphan_candidates, build_report, resolve_libs, PackageSize};
use dusty::monitor::Supervisor;
use dusty::scan::ScanEntry;

#[test]
fn register_binary_creates_untouched_record() {
    let mut l = Ledger::new();
    let created = l.register_binary("/opt/x/bin/y", "x", "opt");
    assert!(created);
    let recs = l.get_all_binaries();
    assert_eq!(recs.len(), 1);
    assert_eq!(recs[0].path, "/opt/x/bin/y");
    assert_eq!(recs[0].count, 0);
    assert_eq!(recs[0].first_seen, None);
    assert_eq!(recs[0].last_seen, None);
    assert_eq!(recs[0].source.as_deref(), Some("opt"));
    assert_eq!(recs[0].package_name.as_deref(), Some("x"));
}

#[test]
fn register_binary_never_clears_provenance_or_counts() {
    let mut l = Ledger::new();
    l.record_exec("/opt/x/bin/y", Some("opt"), 100);
    l.record_exec("/opt/x/bin/y", Some("opt"), 101);
    l.register_binary("/opt/x/bin/y", "x", "other-source");
    let recs = l.get_all_binaries();
    assert_eq!(recs.len(), 1);
    assert_eq!(recs[0].count, 2);
    assert_eq!(recs[0].source.as_deref(), Some("opt"));
    assert_eq!(recs[0].package_name.as_deref(), Some("x"));
    // A second registration with different labels changes nothing.
    l.register_binary("/opt/x/bin/y", "z", "another");
    let recs = l.get_all_binaries();
    assert_eq!(recs[0].source.as_deref(), Some("opt"));
    assert_eq!(recs[0].package_name.as_deref(), Some("x"));
    assert_eq!(recs[0].count, 2);
}

#[test]
fn record_exec_three_times_counts_and_timestamps() {
    let mut l = Ledger::new();
    l.record_exec("/opt/x/bin/y", Some("opt"), 1000);
    l.record_exec("/opt/x/bin/y", Some("opt"), 1005);
    l.record_exec("/opt/x/bin/y", Some("opt"), 1010);
    let recs = l.get_all_binaries();
    assert_eq!(recs.len(), 1);
    assert_eq!(recs[0].count, 3);
    assert_eq!(recs[0].first_seen, Some(1000));
    assert_eq!(recs[0].last_seen, Some(1010));
}

#[test]
fn record_exec_through_alias_credits_canonical() {
    let mut l = Ledger::new();
    l.register_binary("/opt/x/bin/y", "x", "opt");
    l.register_alias("/real/target", "/opt/x/bin/y");
    l.record_exec("/real/target", None, 500);
    let recs = l.get_all_binaries();
    assert_eq!(recs.len(), 1, "no record may appear at the alias path");
    assert_eq!(recs[0].path, "/opt/x/bin/y");
    assert_eq!(recs[0].count, 1);
    assert_eq!(l.resolve_alias("/real/target").as_deref(), Some("/opt/x/bin/y"));
    assert_eq!(l.resolve_alias("/opt/x/bin/y"), None);
}

#[test]
fn alias_and_canonical_execs_accumulate_together() {
    let mut l = Ledger::new();
    l.register_alias("/real/target", "/opt/x/bin/y");
    l.record_exec("/real/target", None, 10);
    l.record_exec("/opt/x/bin/y", None, 20);
    let recs = l.get_all_binaries();
    assert_eq!(recs.len(), 1);
    assert_eq!(recs[0].count, 2);
    assert_eq!(recs[0].first_seen, Some(10));
    assert_eq!(recs[0].last_seen, Some(20));
}

#[test]
fn prune_missing_removes_exactly_the_absent() {
    let mut l = Ledger::new();
    l.register_binary("/bin/a", "a", "opt");
    l.register_binary("/bin/b", "b", "opt");
    let live = vec!["/bin/b".to_string()];
    let removed = l.prune_missing(&live);
    assert_eq!(removed, 1);
    let recs = l.get_all_binaries();
    assert_eq!(recs.len(), 1);
    assert_eq!(recs[0].path, "/bin/b");
    // Re-running on an already-pruned set is a no-op.
    let removed_again = l.prune_missing(&live);
    assert_eq!(removed_again, 0);
    assert_eq!(l.get_all_binaries().len(), 1);
}

#[test]
fn prune_missing_drops_aliases_of_removed_records() {
    let mut l = Ledger::new();
    l.register_binary("/bin/a", "a", "opt");
    l.register_alias("/resolved/a", "/bin/a");
    let removed = l.prune_missing(&vec![]);
    assert_eq!(removed, 1);
    assert_eq!(l.resolve_alias("/resolved/a"), None);
    assert!(l.get_all_alias_paths().is_empty());
}

#[test]
fn counts_and_dusty_aggregates() {
    let mut l = Ledger::new();
    l.register_binary("/bin/a", "a", "opt");
    l.register_binary("/bin/b", "b", "opt");
    l.record_exec("/bin/b", None, 7);
    assert_eq!(l.get_binary_count(), 2);
    assert_eq!(l.get_dusty_count(), 1);
}

#[test]
fn tracking_since_is_set_once_by_apply_scan() {
    let mut l = Ledger::new();
    assert_eq!(l.get_tracking_since(), None);
    l.apply_scan(&vec![], 111);
    assert_eq!(l.get_tracking_since(), Some(111));
    l.apply_scan(&vec![], 222);
    assert_eq!(l.get_tracking_since(), Some(111));
}

#[test]
fn apply_scan_registers_binaries_and_aliases() {
    let mut l = Ledger::new();
    let entries = vec![
        ScanEntry {
            path: "/opt/homebrew/bin/git".to_string(),
            package_name: "git".to_string(),
            source: "homebrew".to_string(),
            resolved: Some("/opt/homebrew/Cellar/git/2.44.0/bin/git".to_string()),
        },
        ScanEntry {
            path: "/usr/local/bin/tool".to_string(),
            package_name: "tool".to_string(),
            source: "local".to_string(),
            resolved: None,
        },
    ];
    l.apply_scan(&entries, 50);
    assert_eq!(l.get_binary_count(), 2);
    assert_eq!(
        l.resolve_alias("/opt/homebrew/Cellar/git/2.44.0/bin/git").as_deref(),
        Some("/opt/homebrew/bin/git")
    );
    // An exec reported under the resolved path lands on the symlink path.
    l.record_exec("/opt/homebrew/Cellar/git/2.44.0/bin/git", None, 60);
    let recs = l.get_all_binaries();
    let git = recs.iter().find(|r| r.path == "/opt/homebrew/bin/git").unwrap();
    assert_eq!(git.count, 1);
}

#[test]
fn backfill_categorization_round_trip() {
    let mut l = Ledger::new();
    l.record_exec("/opt/oss-cad-suite/bin/yosys", None, 5);
    let uncategorized = l.get_uncategorized_paths();
    assert_eq!(uncategorized, vec!["/opt/oss-cad-suite/bin/yosys".to_string()]);
    let pkg = dusty::scan::get_package_name(
        "/opt/oss-cad-suite/bin/yosys",
        None,
        "yosys",
        "/home/user",
    );
    assert_eq!(pkg, "oss-cad-suite");
    l.set_categorization("/opt/oss-cad-suite/bin/yosys", "opt", &pkg);
    assert!(l.get_uncategorized_paths().is_empty());
    let recs = l.get_all_binaries();
    assert_eq!(recs[0].package_name.as_deref(), Some("oss-cad-suite"));
    assert_eq!(recs[0].source.as_deref(), Some("opt"));
    assert_eq!(recs[0].count, 1, "backfill must not touch counts");
}

#[test]
fn backfill_uncategorized_classifies_in_batch() {
    let mut l = Ledger::new();
    l.record_exec("/opt/oss-cad-suite/bin/yosys", None, 5);
    l.record_exec("/opt/homebrew/Cellar/git/2.44.0/bin/git", None, 6);
    let config = Config::default();
    let items: Vec<BackfillItem> = l
        .get_uncategorized_paths()
        .into_iter()
        .map(|path| BackfillItem { path, link_target: None })
        .collect();
    let n = l.backfill_uncategorized(&items, &config, "/home/u");
    assert_eq!(n, 2);
    assert!(l.get_uncategorized_paths().is_empty());
    let recs = l.get_all_binaries();
    let yosys = recs.iter().find(|r| r.path.ends_with("yosys")).unwrap();
    assert_eq!(yosys.package_name.as_deref(), Some("oss-cad-suite"));
    assert_eq!(yosys.source.as_deref(), Some("other"));
    let git = recs.iter().find(|r| r.path.ends_with("git")).unwrap();
    assert_eq!(git.package_name.as_deref(), Some("git"));
    assert_eq!(git.count, 1);
}

#[test]
fn dylib_deps_replace_wholesale() {
    let mut l = Ledger::new();
    l.store_dylib_deps("/bin/a", &vec!["/lib/x.so".to_string(), "/lib/y.so".to_string()]);
    assert_eq!(
        l.get_deps_for_binary("/bin/a"),
        vec!["/lib/x.so".to_string(), "/lib/y.so".to_string()]
    );
    l.store_dylib_deps("/bin/a", &vec!["/lib/z.so".to_string()]);
    assert_eq!(l.get_deps_for_binary("/bin/a"), vec!["/lib/z.so".to_string()]);
    assert_eq!(l.get_binaries_using_lib("/lib/z.so"), vec!["/bin/a".to_string()]);
    assert!(l.get_binaries_using_lib("/lib/x.so").is_empty());
}

#[test]
fn unresolved_libs_and_package_cache() {
    let mut l = Ledger::new();
    l.store_dylib_deps("/bin/a", &vec!["/lib/x.so".to_string(), "/lib/y.so".to_string()]);
    assert_eq!(
        l.get_unresolved_libs(),
        vec!["/lib/x.so".to_string(), "/lib/y.so".to_string()]
    );
    l.store_lib_package("/lib/x.so", "apt", "libx");
    assert_eq!(l.get_unresolved_libs(), vec!["/lib/y.so".to_string()]);
    let pkgs = l.get_all_lib_packages();
    assert_eq!(pkgs.len(), 1);
    assert_eq!(pkgs[0].lib_path, "/lib/x.so");
    assert_eq!(pkgs[0].manager, "apt");
    assert_eq!(pkgs[0].package_name, "libx");
}

#[test]
fn deps_cache_mtime_drives_reanalysis() {
    let mut l = Ledger::new();
    assert!(needs_reanalysis(&l.get_deps_analyzed_at("/bin/a"), Some(100)));
    l.mark_deps_analyzed("/bin/a", Some(100), 1234);
    // Unchanged modification time: no re-analysis.
    assert!(!needs_reanalysis(&l.get_deps_analyzed_at("/bin/a"), Some(100)));
    // Changed modification time: re-analysis occurs.
    assert!(needs_reanalysis(&l.get_deps_analyzed_at("/bin/a"), Some(200)));
    assert!(needs_reanalysis(&l.get_deps_analyzed_at("/bin/a"), None));
}

#[test]
fn clear_all_deps_resets_the_caches() {
    let mut l = Ledger::new();
    l.store_dylib_deps("/bin/a", &vec!["/lib/x.so".to_string()]);
    l.store_lib_package("/lib/x.so", "apt", "libx");
    l.mark_deps_analyzed("/bin/a", Some(1), 2);
    l.clear_all_deps();
    assert!(l.get_all_deps().is_empty());
    assert!(l.get_all_lib_packages().is_empty());
    assert_eq!(l.get_deps_analyzed_at("/bin/a"), None);
}

#[test]
fn migrate_alias_counts_credits_canonical_paths() {
    let mut l = Ledger::new();
    // Executions accumulated under the resolved path before the alias
    // mapping existed.
    l.record_exec("/cellar/x/bin/tool", None, 10);
    l.record_exec("/cellar/x/bin/tool", None, 20);
    // A later rescan brings the canonical record and the mapping.
    l.register_binary("/opt/bin/tool", "tool", "opt");
    l.register_alias("/cellar/x/bin/tool", "/opt/bin/tool");
    let migrated = l.migrate_alias_counts();
    assert_eq!(migrated, 1);
    let recs = l.get_all_binaries();
    assert_eq!(recs.len(), 1);
    assert_eq!(recs[0].path, "/opt/bin/tool");
    assert_eq!(recs[0].count, 2);
    assert_eq!(recs[0].first_seen, Some(10));
    assert_eq!(recs[0].last_seen, Some(20));
    // Nothing is left to migrate on a second run.
    assert_eq!(l.migrate_alias_counts(), 0);
}

#[test]
fn orphan_report_excludes_active_then_includes_after_flip() {
    // Binaries A (count 0) and B (count 2) both depend on library L owned
    // by package P.
    let mut l = Ledger::new();
    l.register_binary("/bin/a", "a", "opt");
    l.register_binary("/bin/b", "b", "opt");
    l.record_exec("/bin/b", None, 1);
    l.record_exec("/bin/b", None, 2);
    l.store_dylib_deps("/bin/a", &vec!["/lib/l.so".to_string()]);
    l.store_dylib_deps("/bin/b", &vec!["/lib/l.so".to_string()]);
    l.store_lib_package("/lib/l.so", "apt", "p");

    let orphans = orphan_candidates(&l.get_all_binaries(), &l.get_all_deps(), &l.get_all_lib_packages());
    assert!(orphans.is_empty(), "an active user keeps the package out");

    // The same graph with B never executed includes P with users [A, B].
    let mut l2 = Ledger::new();
    l2.register_binary("/bin/a", "a", "opt");
    l2.register_binary("/bin/b", "b", "opt");
    l2.store_dylib_deps("/bin/a", &vec!["/lib/l.so".to_string()]);
    l2.store_dylib_deps("/bin/b", &vec!["/lib/l.so".to_string()]);
    l2.store_lib_package("/lib/l.so", "apt", "p");
    let orphans2 = orphan_candidates(&l2.get_all_binaries(), &l2.get_all_deps(), &l2.get_all_lib_packages());
    assert_eq!(orphans2.len(), 1);
    assert_eq!(orphans2[0].manager, "apt");
    assert_eq!(orphans2[0].package_name, "p");
    assert_eq!(
        orphans2[0].used_by_dusty,
        vec!["/bin/a".to_string(), "/bin/b".to_string()]
    );
}

#[test]
fn orphan_report_sizes_and_totals() {
    let mut l = Ledger::new();
    l.register_binary("/bin/a", "a", "opt");
    l.store_dylib_deps("/bin/a", &vec!["/lib/l.so".to_string(), "/lib/m.so".to_string()]);
    l.store_lib_package("/lib/l.so", "apt", "p");
    l.store_lib_package("/lib/m.so", "apt", "q");
    let candidates = orphan_candidates(&l.get_all_binaries(), &l.get_all_deps(), &l.get_all_lib_packages());
    assert_eq!(candidates.len(), 2);
    let sizes = vec![
        PackageSize {
            manager: "apt".to_string(),
            package_name: "p".to_string(),
            size_bytes: Some(1000),
        },
        PackageSize {
            manager: "apt".to_string(),
            package_name: "q".to_string(),
            size_bytes: Some(5000),
        },
    ];
    let report = build_report(candidates, &sizes, 1, 2);
    assert_eq!(report.total_freeable_bytes, 6000);
    assert_eq!(report.binaries_analyzed, 1);
    assert_eq!(report.total_lib_packages, 2);
    // Sorted by known installed size descending.
    assert_eq!(report.orphan_packages.len(), 2);
    assert_eq!(report.orphan_packages[0].package_name, "q");
    assert_eq!(report.orphan_packages[0].size_bytes, Some(5000));
    assert_eq!(report.orphan_packages[1].package_name, "p");
    assert_eq!(report.orphan_packages[1].size_bytes, Some(1000));
}

#[test]
fn unknown_sizes_sort_as_zero_and_sum_as_nothing() {
    let mut l = Ledger::new();
    l.register_binary("/bin/a", "a", "opt");
    l.store_dylib_deps("/bin/a", &vec!["/lib/l.so".to_string(), "/lib/m.so".to_string()]);
    l.store_lib_package("/lib/l.so", "apt", "p");
    l.store_lib_package("/lib/m.so", "apt", "q");
    let candidates = orphan_candidates(&l.get_all_binaries(), &l.get_all_deps(), &l.get_all_lib_packages());
    let sizes = vec![PackageSize {
        manager: "apt".to_string(),
        package_name: "q".to_string(),
        size_bytes: Some(42),
    }];
    let report = build_report(candidates, &sizes, 1, 2);
    assert_eq!(report.total_freeable_bytes, 42);
    assert_eq!(report.orphan_packages[0].package_name, "q");
    assert_eq!(report.orphan_packages[1].package_name, "p");
    assert_eq!(report.orphan_packages[1].size_bytes, None);
}

#[test]
fn resolve_libs_joins_the_cache() {
    let mut l = Ledger::new();
    l.store_lib_package("/lib/x.so", "homebrew", "libx");
    let joined = resolve_libs(
        "/bin/a",
        &vec!["/lib/x.so".to_string(), "/lib/y.so".to_string()],
        &l.get_all_lib_packages(),
    );
    assert_eq!(joined.binary_path, "/bin/a");
    assert_eq!(joined.libs.len(), 2);
    assert_eq!(joined.libs[0].lib_path, "/lib/x.so");
    assert_eq!(joined.libs[0].package_name.as_deref(), Some("libx"));
    assert_eq!(joined.libs[0].manager.as_deref(), Some("homebrew"));
    assert_eq!(joined.libs[1].package_name, None);
    assert_eq!(joined.libs[1].manager, None);
}

#[test]
fn supervisor_retries_with_doubling_capped_delays() {
    // A source that exits three times immediately: delays 2s, 4s, 8s.
    let mut s = Supervisor::new();
    assert_eq!(s.on_failure(), 2);
    assert_eq!(s.on_failure(), 4);
    assert_eq!(s.on_failure(), 8);
    // Never exceeds 60 seconds, however many failures follow.
    let mut last = 8;
    for _ in 0..100 {
        let d = s.on_failure();
        assert!(d >= last, "delays never decrease");
        assert!(d <= 60);
        last = d;
    }
    assert_eq!(last, 60);
    // A successful spawn resets the ladder.
    s.on_spawn_success();
    assert_eq!(s.on_failure(), 2);
}

#[test]
fn supervisor_counts_and_drains_malformed_lines() {
    let mut s = Supervisor::new();
    // Not JSON at all, and an exec event missing its path: both malformed.
    assert_eq!(s.handle_line("not json at all"), None);
    assert_eq!(s.handle_line("{\"event\":{\"exec\":{}}}"), None);
    // A well-formed event that is not an exec is skipped without an error.
    assert_eq!(s.handle_line("{\"event\":{}}"), None);
    let line = "{\"event\":{\"exec\":{\"target\":{\"executable\":{\"path\":\"/usr/bin/ls\"}}}}}";
    assert_eq!(s.handle_line(line).as_deref(), Some("/usr/bin/ls"));
    assert_eq!(s.take_parse_errors(), 2);
    assert_eq!(s.take_parse_errors(), 0);
}

#[test]
fn supervisor_stop_request_is_sticky() {
    let mut s = Supervisor::new();
    assert!(s.should_run());
    s.request_stop();
    assert!(!s.should_run());
}
