use chronograph::git_navigator::{
    branch_references, commit_touches_subfolder, extract_commit_info,
    extract_repo_name, is_stale_checkout_name, mirror_path, path_in_subfolder,
    remote_branch_references, path_components, tree_has_path, first_resolved,
    CommitInfo, CommitWalk, DeltaPaths, DiffEnd, DiffScan, GitTemporalNavigator, NavigatorError,
    PathStep, RawCommit, TreeEntryKind, MAX_COMMITS_INSPECTED,
};
use chronograph::sampling::sample_commits;
use chronograph::subfolder::{
    normalize_subfolder, string_similarity, validate_subfolder_exists, Similarity,
    SubfolderObservation,
};

fn commit(i: usize, author: &str, email: &str) -> CommitInfo {
    CommitInfo {
        hash: format!("hash{}", i),
        author_name: author.to_string(),
        author_email: email.to_string(),
        message: format!("Commit {}", i),
        timestamp: 100 + i as i64,
        merge_parent_hash: None,
    }
}

fn commits(n: usize) -> Vec<CommitInfo> {
    (0..n).map(|i| commit(i, "test", "test@test.com")).collect()
}

fn hashes(list: &[CommitInfo]) -> Vec<String> {
    list.iter().map(|c| c.hash.clone()).collect()
}

fn delta(new_path: Option<&str>, old_path: Option<&str>) -> DeltaPaths {
    DeltaPaths {
        new_path: new_path.map(|s| s.to_string()),
        old_path: old_path.map(|s| s.to_string()),
    }
}

fn strings(list: &[&str]) -> Vec<String> {
    list.iter().map(|s| s.to_string()).collect()
}

#[test]
fn repo_name_needs_a_slash_and_loses_git_suffixes() {
    assert_eq!(extract_repo_name("owner/repo.git.git").unwrap(), "owner-repo");
    assert_eq!(extract_repo_name("/repo").unwrap(), "-repo");
    assert_eq!(extract_repo_name("a/b/").unwrap(), "b-");
    match extract_repo_name("repo.git") {
        Err(NavigatorError::InvalidUrl { url }) => assert_eq!(url, "repo.git"),
        other => panic!("unexpected {:?}", other),
    }
    assert_eq!(
        mirror_path("https://github.com/flutter/flutter.git", "/tmp/chronograph").unwrap(),
        "/tmp/chronograph/flutter-flutter-cache"
    );
    assert!(mirror_path("nothing", "/tmp").is_err());
}

#[test]
fn sampling_with_cap_spreads_evenly_and_keeps_last() {
    let all = commits(10);
    // Stride 1 keeps all ten; the cap of three picks positions 0, 3, 6 and
    // appends the last commit.
    let sampled = sample_commits(&all, 1, Some(3));
    assert_eq!(hashes(&sampled), vec!["hash0", "hash3", "hash6", "hash9"]);
    // A cap that the sample meets leaves it as it is.
    let sampled = sample_commits(&all, 5, Some(3));
    assert_eq!(hashes(&sampled), vec!["hash0", "hash5", "hash9"]);
    // The last commit is not appended a second time.
    let sampled = sample_commits(&commits(4), 1, Some(2));
    assert_eq!(hashes(&sampled), vec!["hash0", "hash2", "hash3"]);
    let sampled = sample_commits(&commits(3), 1, Some(1));
    assert_eq!(hashes(&sampled), vec!["hash0", "hash2"]);
}

#[test]
fn sampling_edge_cases() {
    assert!(sample_commits(&Vec::new(), 5, Some(100)).is_empty());
    assert_eq!(hashes(&sample_commits(&commits(1), 5, None)), vec!["hash0"]);
    assert_eq!(hashes(&sample_commits(&commits(2), 5, None)), vec!["hash0", "hash1"]);
    // Zero has no multiple but zero: only the first and the last are kept.
    assert_eq!(hashes(&sample_commits(&commits(6), 0, None)), vec!["hash0", "hash5"]);
    // A cap of zero leaves the last commit alone.
    assert_eq!(hashes(&sample_commits(&commits(6), 1, Some(0))), vec!["hash5"]);
    assert_eq!(
        hashes(&sample_commits(&commits(11), 5, Some(100))),
        vec!["hash0", "hash5", "hash10"]
    );
}

#[test]
fn changed_paths_are_matched_against_the_subfolder() {
    assert!(path_in_subfolder("app/lib/main.dart", "app"));
    assert!(path_in_subfolder("app", "app"));
    assert!(!path_in_subfolder("application/main.dart", "app"));
    assert!(!path_in_subfolder("lib/app/main.dart", "app"));
    assert!(path_in_subfolder("samples/web/x", "samples/web"));
    assert!(!path_in_subfolder("", "app"));
}

#[test]
fn diff_scan_stops_at_first_match() {
    let mut scan = DiffScan::new("app");
    assert!(scan.inspect(&delta(Some("README.md"), None)));
    assert!(scan.inspect(&delta(None, None)));
    assert!(scan.inspect(&delta(None, Some("lib/old.dart"))));
    assert!(!scan.inspect(&delta(None, Some("app/gone.dart"))));
    assert!(scan.touches_subfolder());
    assert_eq!(scan.files_checked(), 4);
    // A scan that has stopped stays as it is.
    assert!(!scan.inspect(&delta(Some("x"), None)));
    assert_eq!(scan.files_checked(), 4);
    assert!(commit_touches_subfolder(&scan, DiffEnd::StoppedByScan));
    assert!(commit_touches_subfolder(&scan, DiffEnd::Exhausted));
    assert!(!commit_touches_subfolder(&scan, DiffEnd::Failed));
}

#[test]
fn diff_scan_gives_up_at_the_limit() {
    let mut scan = DiffScan::new("app");
    for i in 0..999 {
        assert!(scan.inspect(&delta(Some(&format!("lib/f{}.dart", i)), None)));
    }
    assert!(!scan.inspect(&delta(Some("lib/last.dart"), None)));
    assert_eq!(scan.files_checked(), 1000);
    assert!(!scan.touches_subfolder());
    assert!(!commit_touches_subfolder(&scan, DiffEnd::StoppedByScan));
}

#[test]
fn tree_descent_follows_directories_only() {
    assert_eq!(path_components("samples/web//gallery/"), strings(&["samples", "web", "gallery"]));
    assert!(path_components("").is_empty());
    assert!(path_components("///").is_empty());
    assert_eq!(tree_has_path(TreeEntryKind::Tree, 2), PathStep::Descend);
    assert_eq!(tree_has_path(TreeEntryKind::Tree, 0), PathStep::Found);
    assert_eq!(tree_has_path(TreeEntryKind::Other, 0), PathStep::NotFound);
    assert_eq!(tree_has_path(TreeEntryKind::Other, 1), PathStep::NotFound);
    assert_eq!(tree_has_path(TreeEntryKind::Absent, 0), PathStep::NotFound);
}

#[test]
fn leftover_working_copies_are_told_from_mirrors() {
    assert!(is_stale_checkout_name("flutter-flutter-1700000000"));
    assert!(!is_stale_checkout_name("flutter-flutter-cache"));
    assert!(!is_stale_checkout_name("flutter"));
    assert!(!is_stale_checkout_name("repo-12a"));
    assert!(!is_stale_checkout_name("repo-"));
    assert!(is_stale_checkout_name("repo-0"));
    assert!(!is_stale_checkout_name("1700000000"));
    assert_eq!(
        GitTemporalNavigator::cleanup_old_repos(&strings(&["a-1", "a-cache", "plain", "b-22", "c-x"])),
        strings(&["a-1", "b-22"])
    );
}

#[test]
fn walk_keeps_touching_commits_and_stops_at_root() {
    let mut walk = CommitWalk::begin(true);
    assert!(walk.visit(commit(3, "a", "a@x"), Some(true), true));
    assert!(walk.visit(commit(2, "a", "a@x"), Some(false), true));
    assert!(walk.visit(commit(1, "a", "a@x"), None, true));
    assert!(walk.has_visited("hash1"));
    assert!(!walk.has_visited("hash0"));
    assert!(!walk.visit(commit(0, "a", "a@x"), Some(true), false));
    // The walk is over.
    assert!(!walk.visit(commit(9, "a", "a@x"), Some(true), true));
    assert_eq!(hashes(&walk.finish()), vec!["hash0", "hash3"]);
}

#[test]
fn walk_stops_at_a_commit_seen_before_and_at_the_limit() {
    let mut walk = CommitWalk::begin(false);
    assert!(walk.visit(commit(1, "a", "a@x"), None, true));
    assert!(!walk.visit(commit(1, "a", "a@x"), None, true));
    assert_eq!(hashes(&walk.finish()), vec!["hash1"]);

    let mut walk = CommitWalk::begin(false);
    for i in 0..MAX_COMMITS_INSPECTED - 1 {
        assert!(walk.visit(commit(i, "a", "a@x"), None, true));
    }
    assert!(!walk.visit(commit(1000, "a", "a@x"), None, true));
    let sequence = walk.finish();
    assert_eq!(sequence.len(), 101);
    assert_eq!(sequence[0].hash, "hash1000");
    assert_eq!(sequence[100].hash, "hash0");
}

#[test]
fn navigator_records_checkouts_and_finds_commits() {
    let mut nav = GitTemporalNavigator::clone_repository(
        "https://github.com/user/repo",
        "/base",
        None,
        77,
    )
    .unwrap();
    assert_eq!(nav.local_path(), "/base/user-repo-cache");
    assert_eq!(nav.clone_info().default_branch, "main");
    assert_eq!(nav.clone_info().original_url, "https://github.com/user/repo");
    assert_eq!(nav.clone_info().clone_timestamp, 77);
    assert!(nav.get_merge_sequence().is_empty());
    assert!(nav.current_commit().is_none());

    let mut walk = CommitWalk::begin(false);
    walk.visit(commit(2, "ann", "ann@x"), None, true);
    walk.visit(commit(1, "bob", "bob@x"), None, true);
    walk.visit(commit(0, "ann", "ann@y"), None, false);
    nav.build_merge_sequence_with_subfolder(walk);
    assert_eq!(hashes(nav.get_merge_sequence()), vec!["hash0", "hash1", "hash2"]);
    assert_eq!(nav.get_commit_info("hash1").unwrap().author_name, "bob");
    assert!(nav.get_commit_info("hash7").is_none());

    assert!(nav.checkout_commit("hash1", Ok(())).is_ok());
    assert_eq!(nav.current_commit().unwrap(), "hash1");
    match nav.checkout_commit("hash2", Err("locked".to_string())) {
        Err(NavigatorError::Infrastructure { message }) => assert_eq!(message, "locked"),
        other => panic!("unexpected {:?}", other),
    }
    assert_eq!(nav.current_commit().unwrap(), "hash1");
    assert!(nav.return_to_head(Ok(())).is_ok());
    assert!(nav.current_commit().is_none());

    let stats = nav.get_author_statistics();
    assert_eq!(stats.len(), 2);
    assert_eq!(stats[0].author_name, "ann");
    assert_eq!(stats[0].commit_count, 2);
    assert_eq!(stats[0].emails, strings(&["ann@y", "ann@x"]));
    assert_eq!(stats[0].first_commit_timestamp, Some(100));
    assert_eq!(stats[0].last_commit_timestamp, Some(102));
    assert_eq!(stats[1].author_name, "bob");
    assert_eq!(stats[1].commit_count, 1);
    assert_eq!(stats[1].first_commit_timestamp, Some(101));
    assert_eq!(stats[1].last_commit_timestamp, Some(101));
    assert_eq!(nav.cleanup(), "/base/user-repo-cache");
}

#[test]
fn commit_record_fills_in_defaults_and_trims_the_message() {
    let raw = RawCommit {
        id: "abc".to_string(),
        author_name: None,
        author_email: None,
        message: Some("  Fix things \n\n".to_string()),
        author_time: 5,
        parent_ids: strings(&["p1", "p2", "p3"]),
    };
    let info = extract_commit_info(&raw);
    assert_eq!(info.hash, "abc");
    assert_eq!(info.author_name, "Unknown");
    assert_eq!(info.author_email, "unknown@unknown");
    assert_eq!(info.message, "Fix things");
    assert_eq!(info.timestamp, 5);
    assert_eq!(info.merge_parent_hash, Some("p2".to_string()));

    let raw = RawCommit {
        id: "def".to_string(),
        author_name: Some("Ann".to_string()),
        author_email: Some("ann@x".to_string()),
        message: None,
        author_time: -1,
        parent_ids: strings(&["p1"]),
    };
    let info = extract_commit_info(&raw);
    assert_eq!(info.author_name, "Ann");
    assert_eq!(info.author_email, "ann@x");
    assert_eq!(info.message, "");
    assert_eq!(info.merge_parent_hash, None);
}

#[test]
fn references_are_tried_in_order() {
    assert_eq!(
        branch_references("develop"),
        strings(&["refs/heads/develop", "refs/heads/main", "refs/heads/master"])
    );
    assert_eq!(
        remote_branch_references(),
        strings(&["refs/remotes/origin/main", "refs/remotes/origin/master"])
    );
    assert_eq!(first_resolved(&vec![false, true]), Some(1));
    assert_eq!(first_resolved(&vec![true, true]), Some(0));
    assert_eq!(first_resolved(&vec![false, false]), None);
    assert_eq!(first_resolved(&vec![]), None);
}

#[test]
fn subfolder_paths_are_normalized() {
    assert_eq!(normalize_subfolder("samples\\web\\gallery"), "samples/web/gallery");
    assert_eq!(normalize_subfolder("a/b"), "a/b");
    assert_eq!(normalize_subfolder(""), "");
}

#[test]
fn similarity_ignores_case_and_counts_shared_characters() {
    assert_eq!(string_similarity("Gallery", "gallery"), Similarity { common: 1, longest: 1 });
    assert!(string_similarity("Gallery", "gallery").is_suggestion());
    // Every character of "galery" occurs in "gallery", which is the longer.
    let s = string_similarity("galery", "GALLERY");
    assert_eq!(s, Similarity { common: 6, longest: 7 });
    assert!(s.is_suggestion());
    let s = string_similarity("abc", "xyzuvw");
    assert_eq!(s, Similarity { common: 0, longest: 6 });
    assert!(!s.is_suggestion());
    // Exactly six tenths is not above six tenths.
    let s = Similarity { common: 3, longest: 5 };
    assert!(!s.is_suggestion());
    assert!(Similarity { common: 4, longest: 6 }.is_suggestion());
}

#[test]
fn missing_subfolder_is_refused_with_suggestions() {
    let seen = SubfolderObservation {
        exists: false,
        sibling_directories: Some(strings(&["gallery", "docs", "Galery", "g1", "g2", "g3", "g4"])),
        top_level_directories: Some(strings(&["zeta", "alpha"])),
    };
    let message = validate_subfolder_exists("galery", "/work/repo", &seen).unwrap_err();
    assert_eq!(
        message,
        "Subfolder 'galery' does not exist in the repository.\n\nRepository path: /work/repo\n\nDid you mean one of these?\n  - gallery\n  - Galery"
    );
    let ok = SubfolderObservation {
        exists: true,
        sibling_directories: None,
        top_level_directories: None,
    };
    assert_eq!(validate_subfolder_exists("app", "/work/repo", &ok), Ok(()));
}

#[test]
fn missing_subfolder_lists_directories_in_order() {
    let names: Vec<String> = (0..12).rev().map(|i| format!("dir{:02}", i)).collect();
    let seen = SubfolderObservation {
        exists: false,
        sibling_directories: Some(strings(&["zzz"])),
        top_level_directories: Some(names),
    };
    let message = validate_subfolder_exists("a\\b", "/r", &seen).unwrap_err();
    assert_eq!(
        message,
        "Subfolder 'a\\b' (normalized to 'a/b') does not exist in the repository.\n\nRepository path: /r\n\nAvailable directories:\n  - dir00\n  - dir01\n  - dir02\n  - dir03\n  - dir04\n  - dir05\n  - dir06\n  - dir07\n  - dir08\n  - dir09\n  ... and 2 more"
    );
    let bare = SubfolderObservation {
        exists: false,
        sibling_directories: None,
        top_level_directories: None,
    };
    assert_eq!(
        validate_subfolder_exists("app", "/r", &bare).unwrap_err(),
        "Subfolder 'app' does not exist in the repository.\n\nRepository path: /r"
    );
}
