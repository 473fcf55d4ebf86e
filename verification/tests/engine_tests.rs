use chronograph::chronograph_engine::{ChronoGraphConfig, ConfigOverrides};
use chronograph::git_navigator::{extract_repo_name, CommitInfo};
use chronograph::sampling::sample_commits;

fn commits(n: i64) -> Vec<CommitInfo> {
    (0..n)
        .map(|i| CommitInfo {
            hash: format!("hash{}", i),
            author_name: "test".to_string(),
            author_email: "test@test.com".to_string(),
            message: format!("Commit {}", i),
            timestamp: i,
            merge_parent_hash: None,
        })
        .collect()
}

fn hashes(list: &[CommitInfo]) -> Vec<String> {
    list.iter().map(|c| c.hash.clone()).collect()
}

#[test]
fn test_config_defaults() {
    let config = ChronoGraphConfig::default();
    assert_eq!(config.analyzer_name, "lakos");
    assert_eq!(config.commit_sampling, 5);
    assert_eq!(config.max_commits, Some(100));
    assert!(config.cleanup_after_analysis);
}

#[test]
fn test_commit_sampling() {
    let commits = commits(10);
    let sampled = sample_commits(&commits, 2, None);

    assert!(sampled.len() >= 3);
    assert_eq!(sampled[0].hash, "hash0");
    assert_eq!(sampled.last().unwrap().hash, "hash9");
    assert_eq!(
        hashes(&sampled),
        vec!["hash0", "hash2", "hash4", "hash6", "hash8", "hash9"]
    );
}

#[test]
fn test_extract_repo_name() {
    assert_eq!(
        extract_repo_name("https://github.com/flutter/flutter.git").unwrap(),
        "flutter-flutter"
    );
    assert_eq!(
        extract_repo_name("https://github.com/user/repo").unwrap(),
        "user-repo"
    );
}

#[test]
fn run_configuration_takes_overrides() {
    let config = ChronoGraphConfig::initialize_analysis(
        "https://github.com/a/b".to_string(),
        ConfigOverrides {
            commit_sampling: Some(2),
            max_commits: None,
            analyzer: Some("deep".to_string()),
            subfolder: Some("samples\\web".to_string()),
        },
    );
    assert_eq!(config.github_url, "https://github.com/a/b");
    assert_eq!(config.commit_sampling, 2);
    assert_eq!(config.max_commits, Some(100));
    assert_eq!(config.analyzer_name, "deep");
    assert_eq!(config.subfolder, Some("samples/web".to_string()));
    assert!(config.cleanup_after_analysis);
    assert!(!config.is_local_repository);
    let plain = ChronoGraphConfig::initialize_analysis(
        "u".to_string(),
        ConfigOverrides { commit_sampling: None, max_commits: Some(7), analyzer: None, subfolder: None },
    );
    assert_eq!(plain.commit_sampling, 5);
    assert_eq!(plain.max_commits, Some(7));
    assert_eq!(plain.analyzer_name, "lakos");
    assert_eq!(plain.subfolder, None);
    assert_eq!(plain.local_base_dir, "chronograph");
}
