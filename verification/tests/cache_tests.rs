use chronograph::analysis_cache::{
    AnalysisCache, AnalysisCacheKey, BlobProbe, CacheEntryMetadata, CacheError, IndexChange,
};
use chronograph::dependency_analyzer::{
    AnalysisConfig, AnalysisMetrics, AnalysisResult, DependencyWeight, RawDependency,
    RelationshipType,
};
use std::collections::HashMap;

fn create_test_analysis_config() -> AnalysisConfig {
    AnalysisConfig {
        ignore_patterns: vec!["**/test/**".to_string()],
        file_extensions: vec!["dart".to_string()],
        max_depth: Some(10),
        follow_symlinks: false,
        analyzer_config: Vec::new(),
    }
}

fn create_test_analysis_result() -> AnalysisResult {
    AnalysisResult {
        dependencies: vec![RawDependency {
            source_file: "lib/main.dart".to_string(),
            target_file: "lib/config.dart".to_string(),
            relationship_type: RelationshipType::Import,
            weight: DependencyWeight::Binary(true),
            line_number: Some(1),
            import_statement: Some("import 'config.dart';".to_string()),
            symbols: vec![],
            metadata: Vec::new(),
        }],
        enhanced_dependencies: None,
        global_metrics: None,
        node_metrics: None,
        architecture_quality_score: None,
        analyzer_name: "test".to_string(),
        analyzer_version: "1.0.0".to_string(),
        analysis_timestamp: 1234567890,
        project_path: "/test/project".to_string(),
        analyzed_files: vec!["lib/main.dart".to_string()],
        skipped_files: vec![],
        metrics: AnalysisMetrics {
            total_files_found: 1,
            files_analyzed: 1,
            files_skipped: 0,
            dependencies_found: 1,
            analysis_duration_ms: 100,
        },
        issues: vec![],
    }
}

/// What stands in the place of a blob.
enum Blob {
    Result(AnalysisResult),
    Garbage,
}

/// A cache with its blobs held in memory.
struct TestCache {
    index: AnalysisCache,
    blobs: HashMap<String, Blob>,
    now: u64,
}

impl TestCache {
    fn new() -> TestCache {
        TestCache {
            index: AnalysisCache::new("/cache".to_string()),
            blobs: HashMap::new(),
            now: 1_700_000_000,
        }
    }

    fn get(&mut self, key: &AnalysisCacheKey) -> Option<AnalysisResult> {
        let path = self.index.get_cache_file_path(&key.to_cache_key());
        let probe = match self.blobs.get(&path) {
            None => BlobProbe::Missing,
            Some(Blob::Garbage) => BlobProbe::Unreadable,
            Some(Blob::Result(r)) => BlobProbe::Loaded(r.clone()),
        };
        let read = self.index.get(key, probe, self.now);
        if let IndexChange::EntryRemoved { blob_path, .. } = &read.change {
            self.blobs.remove(blob_path);
        }
        read.result
    }

    fn put(&mut self, key: &AnalysisCacheKey, result: &AnalysisResult) -> CacheEntryMetadata {
        let path = self.index.get_cache_file_path(&key.to_cache_key());
        self.blobs.insert(path, Blob::Result(result.clone()));
        self.index.put(key, result, 321, self.now)
    }

    fn remove_repository(&mut self, repo_url: &str) -> Vec<String> {
        let mut removed = Vec::new();
        for path in self.index.remove_repository(repo_url) {
            if self.blobs.remove(&path).is_some() {
                removed.push(path);
            }
        }
        removed
    }

    fn cleanup_old_entries(&mut self, max_age_days: u64) -> usize {
        let paths = self.index.cleanup_old_entries(max_age_days, self.now);
        for path in &paths {
            self.blobs.remove(path);
        }
        paths.len()
    }
}

fn key_for(repo: &str, commit: &str, config: &AnalysisConfig) -> AnalysisCacheKey {
    AnalysisCacheKey::new(
        repo.to_string(),
        commit.to_string(),
        None,
        "lakos".to_string(),
        config,
    )
}

#[test]
fn test_cache_key_generation() {
    let config = create_test_analysis_config();

    let key1 = AnalysisCacheKey::new(
        "https://github.com/test/repo".to_string(),
        "abc123".to_string(),
        None,
        "lakos".to_string(),
        &config,
    );

    let key2 = AnalysisCacheKey::new(
        "https://github.com/test/repo".to_string(),
        "abc123".to_string(),
        None,
        "lakos".to_string(),
        &config,
    );

    assert_eq!(key1.to_cache_key(), key2.to_cache_key());

    let mut different_config = config.clone();
    different_config.ignore_patterns.push("**/build/**".to_string());

    let key3 = AnalysisCacheKey::new(
        "https://github.com/test/repo".to_string(),
        "abc123".to_string(),
        None,
        "lakos".to_string(),
        &different_config,
    );

    assert_ne!(key1.to_cache_key(), key3.to_cache_key());
}

#[test]
fn test_cache_basic_operations() {
    let mut cache = TestCache::new();
    let config = create_test_analysis_config();
    let key = key_for("https://github.com/test/repo", "abc123", &config);

    assert!(cache.get(&key).is_none());

    let result = create_test_analysis_result();
    cache.put(&key, &result);

    let cached_result = cache.get(&key).expect("Should find cached result");
    assert_eq!(cached_result.dependencies.len(), result.dependencies.len());
    assert_eq!(cached_result.analyzer_name, result.analyzer_name);
}

#[test]
fn test_cache_repository_cleanup() {
    let mut cache = TestCache::new();
    let config = create_test_analysis_config();
    let result = create_test_analysis_result();

    let key1 = key_for("https://github.com/test/repo1", "abc123", &config);
    let key2 = key_for("https://github.com/test/repo2", "def456", &config);

    cache.put(&key1, &result);
    cache.put(&key2, &result);

    assert!(cache.get(&key1).is_some());
    assert!(cache.get(&key2).is_some());

    let removed_files = cache.remove_repository("https://github.com/test/repo1");
    assert_eq!(removed_files.len(), 1);

    assert!(cache.get(&key1).is_none());
    assert!(cache.get(&key2).is_some());
}

#[test]
fn test_cache_cleanup_old_entries() {
    let mut cache = TestCache::new();
    let config = create_test_analysis_config();
    let result = create_test_analysis_result();
    let key = key_for("https://github.com/test/repo", "abc123", &config);

    cache.put(&key, &result);
    assert!(cache.get(&key).is_some());

    // Set last_accessed to 31 days before now.
    let old_timestamp = cache.now - (31 * 24 * 3600);
    let rows: Vec<CacheEntryMetadata> = cache
        .index
        .entries()
        .iter()
        .map(|row| {
            let mut row = row.clone();
            row.last_accessed = old_timestamp;
            row
        })
        .collect();
    cache.index = AnalysisCache::restore("/cache".to_string(), rows);

    let removed_count = cache.cleanup_old_entries(30);
    assert_eq!(removed_count, 1);
    assert!(cache.get(&key).is_none());
}

#[test]
fn test_cache_statistics() {
    let mut cache = TestCache::new();
    let config = create_test_analysis_config();
    let result = create_test_analysis_result();

    let repos = ["repo1", "repo2"];
    for (i, repo) in repos.iter().enumerate() {
        let key = key_for(
            &format!("https://github.com/test/{}", repo),
            &format!("commit{}", i),
            &config,
        );
        cache.put(&key, &result);
    }

    let stats = cache.index.get_statistics().unwrap();
    assert_eq!(stats.total_entries, 2);
    assert!(stats.total_size_bytes > 0);
    assert_eq!(stats.repositories.len(), 2);
    assert_eq!(stats.total_size_bytes, 642);
    assert_eq!(stats.repositories[0].key, "https://github.com/test/repo1");
    assert_eq!(stats.repositories[0].count, 1);
    assert_eq!(stats.repositories[1].key, "https://github.com/test/repo2");
    assert_eq!(stats.repositories[1].count, 1);
}

#[test]
fn test_cache_corrupted_file_handling() {
    let mut cache = TestCache::new();
    let config = create_test_analysis_config();
    let result = create_test_analysis_result();
    let key = key_for("https://github.com/test/repo", "abc123", &config);

    cache.put(&key, &result);
    assert!(cache.get(&key).is_some());

    let path = cache.index.get_cache_file_path(&key.to_cache_key());
    cache.blobs.insert(path.clone(), Blob::Garbage);

    assert!(cache.get(&key).is_none());
    assert!(!cache.blobs.contains_key(&path));

    let stats = cache.index.get_statistics().unwrap();
    assert_eq!(stats.total_entries, 0);
}

#[test]
fn cache_entry_accessed_now_survives_cleanup() {
    let mut cache = TestCache::new();
    let config = create_test_analysis_config();
    let result = create_test_analysis_result();
    let key = key_for("https://github.com/test/repo", "abc123", &config);
    cache.put(&key, &result);
    assert_eq!(cache.cleanup_old_entries(30), 0);
    assert!(cache.get(&key).is_some());
    // A window longer than the time since the epoch removes nothing.
    assert_eq!(cache.cleanup_old_entries(u64::MAX), 0);
    assert!(cache.index.contains(&key));
}

#[test]
fn cache_row_with_missing_blob_is_deleted() {
    let mut cache = TestCache::new();
    let config = create_test_analysis_config();
    let result = create_test_analysis_result();
    let key = key_for("https://github.com/test/repo", "abc123", &config);
    cache.put(&key, &result);
    cache.blobs.clear();
    let read = cache.index.get(&key, BlobProbe::Missing, 5);
    assert!(read.result.is_none());
    assert!(matches!(read.change, IndexChange::RowDeleted { .. }));
    assert!(!cache.index.contains(&key));
}

#[test]
fn cache_hit_updates_last_accessed() {
    let mut cache = TestCache::new();
    let config = create_test_analysis_config();
    let result = create_test_analysis_result();
    let key = key_for("https://github.com/test/repo", "abc123", &config);
    let row = cache.put(&key, &result);
    assert_eq!(row.created_at, 1_700_000_000);
    assert_eq!(row.file_count, 1);
    assert_eq!(row.dependency_count, 1);
    assert_eq!(row.file_size, 321);
    cache.now = 1_700_000_500;
    assert!(cache.get(&key).is_some());
    let rows = cache.index.entries();
    assert_eq!(rows.len(), 1);
    assert_eq!(rows[0].last_accessed, 1_700_000_500);
    assert_eq!(rows[0].created_at, 1_700_000_000);
}

#[test]
fn cache_put_twice_leaves_one_row() {
    let mut cache = TestCache::new();
    let config = create_test_analysis_config();
    let result = create_test_analysis_result();
    let key = key_for("https://github.com/test/repo", "abc123", &config);
    cache.put(&key, &result);
    cache.put(&key, &result);
    assert_eq!(cache.index.entries().len(), 1);
    assert_eq!(cache.index.clear_all(), 1);
    assert_eq!(cache.index.entries().len(), 0);
}

#[test]
fn cache_paths_are_below_the_cache_directory() {
    let cache = AnalysisCache::new("/var/cache/chronograph".to_string());
    assert_eq!(
        cache.get_cache_file_path("00ff"),
        "/var/cache/chronograph/analysis/00ff.bincode"
    );
    assert_eq!(cache.database_path(), "/var/cache/chronograph/chronograph.db");
    assert_eq!(cache.blob_directory(), "/var/cache/chronograph/analysis");
}

#[test]
fn cache_key_is_sixteen_hex_digits_and_ignores_setting_order() {
    let mut a = create_test_analysis_config();
    a.analyzer_config = vec![
        ("ignore_test".to_string(), "true".to_string()),
        ("include_metrics".to_string(), "false".to_string()),
    ];
    let mut b = create_test_analysis_config();
    b.analyzer_config = vec![
        ("include_metrics".to_string(), "false".to_string()),
        ("ignore_test".to_string(), "true".to_string()),
    ];
    let ka = key_for("r", "c", &a);
    let kb = key_for("r", "c", &b);
    assert_eq!(ka.analysis_config_hash, kb.analysis_config_hash);
    assert_eq!(ka.to_cache_key(), kb.to_cache_key());
    let text = ka.to_cache_key();
    assert_eq!(text.len(), 16);
    assert!(text.chars().all(|c| c.is_ascii_digit() || ('a'..='f').contains(&c)));
}

#[test]
fn cache_key_changes_with_each_configuration_field() {
    let base = create_test_analysis_config();
    let base_key = key_for("r", "c", &base).to_cache_key();

    let mut c = base.clone();
    c.file_extensions.push("yaml".to_string());
    assert_ne!(key_for("r", "c", &c).to_cache_key(), base_key);

    let mut c = base.clone();
    c.max_depth = None;
    assert_ne!(key_for("r", "c", &c).to_cache_key(), base_key);

    let mut c = base.clone();
    c.follow_symlinks = true;
    assert_ne!(key_for("r", "c", &c).to_cache_key(), base_key);

    let mut c = base.clone();
    c.analyzer_config.push(("k".to_string(), "v".to_string()));
    assert_ne!(key_for("r", "c", &c).to_cache_key(), base_key);

    assert_ne!(key_for("r2", "c", &base).to_cache_key(), base_key);
    assert_ne!(key_for("r", "c2", &base).to_cache_key(), base_key);
    let with_subfolder = AnalysisCacheKey::new(
        "r".to_string(),
        "c".to_string(),
        Some("app".to_string()),
        "lakos".to_string(),
        &base,
    );
    assert_ne!(with_subfolder.to_cache_key(), base_key);
}

#[test]
fn statistics_refuse_sizes_that_do_not_sum() {
    let config = create_test_analysis_config();
    let result = create_test_analysis_result();
    let mut index = AnalysisCache::new("/cache".to_string());
    index.put(&key_for("r", "c1", &config), &result, u64::MAX, 1);
    assert_eq!(index.get_statistics().unwrap().total_size_bytes, u64::MAX);
    index.put(&key_for("r", "c2", &config), &result, 1, 1);
    assert_eq!(index.get_statistics().unwrap_err(), CacheError::SizeOverflow);
}

#[test]
fn restored_index_keeps_the_later_of_two_rows_with_one_key() {
    let config = create_test_analysis_config();
    let result = create_test_analysis_result();
    let mut index = AnalysisCache::new("/cache".to_string());
    let a = index.put(&key_for("r", "c1", &config), &result, 1, 10);
    let b = index.put(&key_for("r", "c2", &config), &result, 2, 20);
    let mut again = a.clone();
    again.file_size = 3;
    let restored = AnalysisCache::restore("/other".to_string(), vec![a, b, again]);
    assert_eq!(restored.cache_dir(), "/other");
    let rows = restored.entries();
    assert_eq!(rows.len(), 2);
    assert_eq!(rows[0].commit_hash, "c2");
    assert_eq!(rows[1].commit_hash, "c1");
    assert_eq!(rows[1].file_size, 3);
}
