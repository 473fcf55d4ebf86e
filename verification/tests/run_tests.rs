use chronograph::analysis_cache::AnalysisCache;
use chronograph::chronograph_engine::{
    statistics_of, ChronoGraphConfig, ChronoGraphEngine, EngineAction, EngineEvent, EngineStep,
};
use chronograph::commit_analysis::{
    analyze_commit, CommitAction, CommitAnalysis, CommitEvent, CommitFailure, CommitSnapshot,
    CommitStep,
};
use chronograph::dependency_analyzer::{
    AnalysisConfig, AnalysisMetrics, AnalysisResult, AnalyzerCapabilities, DependencyAnalyzer,
    PerformanceTier,
};
use chronograph::git_navigator::{CommitInfo, CommitWalk, GitTemporalNavigator};
use chronograph::progress::{AnalysisPhase, AnalysisProgress, Percentage};

/// An analyzer that finds nothing.
struct Quiet {
    name: &'static str,
}

impl DependencyAnalyzer for Quiet {
    fn name(&self) -> String {
        self.name.to_string()
    }

    fn version(&self) -> String {
        "0.1".to_string()
    }

    fn capabilities(&self) -> AnalyzerCapabilities {
        AnalyzerCapabilities {
            supports_weighted_analysis: false,
            supports_symbol_tracking: false,
            supports_line_numbers: false,
            supports_dynamic_imports: false,
            supported_file_extensions: vec!["dart".to_string()],
            performance_tier: PerformanceTier::Fast,
        }
    }

    fn analyze_project(
        &self,
        project_path: &str,
        _config: &AnalysisConfig,
    ) -> Result<AnalysisResult, String> {
        Ok(result_at(project_path, 0))
    }

    fn can_analyze_project(&self, _project_path: &str) -> bool {
        true
    }
}

fn result_at(path: &str, files: usize) -> AnalysisResult {
    AnalysisResult {
        dependencies: vec![],
        enhanced_dependencies: None,
        global_metrics: None,
        node_metrics: None,
        architecture_quality_score: None,
        analyzer_name: "lakos".to_string(),
        analyzer_version: "1.0.0".to_string(),
        analysis_timestamp: 0,
        project_path: path.to_string(),
        analyzed_files: (0..files).map(|i| format!("lib/f{}.dart", i)).collect(),
        skipped_files: vec![],
        metrics: AnalysisMetrics {
            total_files_found: files,
            files_analyzed: files,
            files_skipped: 0,
            dependencies_found: 0,
            analysis_duration_ms: 1,
        },
        issues: vec![],
    }
}

fn commit(i: i64, author: &str) -> CommitInfo {
    CommitInfo {
        hash: format!("{:040x}", i),
        author_name: author.to_string(),
        author_email: format!("{}@example.org", author),
        message: format!("Commit {}\n\nbody", i),
        timestamp: 1000 + i * 60,
        merge_parent_hash: None,
    }
}

/// A navigator whose sequence holds `n` commits, oldest first.
fn navigator(n: i64) -> GitTemporalNavigator {
    let mut nav = GitTemporalNavigator::clone_repository(
        "https://github.com/test/repo.git",
        "/tmp/chronograph",
        Some("main".to_string()),
        42,
    )
    .unwrap();
    let mut walk = CommitWalk::begin(false);
    for i in (0..n).rev() {
        let more = walk.visit(commit(i, "ann"), None, i > 0);
        assert_eq!(more, i > 0);
    }
    nav.build_merge_sequence(walk);
    nav
}

fn engine(stride: usize, max: Option<usize>, subfolder: Option<&str>) -> ChronoGraphEngine<Quiet> {
    let mut config = ChronoGraphConfig::default();
    config.github_url = "https://github.com/test/repo.git".to_string();
    config.commit_sampling = stride;
    config.max_commits = max;
    config.subfolder = subfolder.map(|s| s.to_string());
    ChronoGraphEngine::new(config, Quiet { name: "lakos" }, Some(AnalysisCache::new("/c".to_string())))
}

fn ratio(p: &Percentage) -> f64 {
    p.numerator as f64 / p.denominator as f64
}

/// Appends the progress of `step` to `seen`, checking that no share falls.
fn take(step: EngineStep, seen: &mut Vec<AnalysisProgress>) -> EngineAction {
    for p in step.progress {
        if let Some(last) = seen.last() {
            assert!(ratio(&last.percentage) <= ratio(&p.percentage));
        }
        seen.push(p);
    }
    step.action
}

/// The snapshot that the analysis of `commit` gives.
fn snapshot(commit: CommitInfo, files: usize) -> CommitSnapshot {
    CommitSnapshot {
        commit_info: commit,
        analysis_result: result_at("/tmp/chronograph/test-repo-cache", files),
        project_path: "/tmp/chronograph/test-repo-cache".to_string(),
    }
}

#[test]
fn run_with_project_added_later_skips_early_commits() {
    // Ten commits, every second one sampled; the project is there from the
    // commit with time 1000 + 5 * 60 on.
    let mut e = engine(2, None, None);
    let mut seen = Vec::new();
    let action = take(e.analyze_repository(EngineEvent::Start), &mut seen);
    assert!(matches!(action, EngineAction::CloneRepository { .. }));
    let mut action = take(
        e.analyze_repository(EngineEvent::CloneFinished(Ok(navigator(10)))),
        &mut seen,
    );
    let mut sampled = 0;
    let finished;
    loop {
        match action {
            EngineAction::AnalyzeCommit { commit } => {
                sampled += 1;
                let outcome = if commit.timestamp < 1000 + 5 * 60 {
                    Err(CommitFailure::NotAnalyzable {
                        commit_hash: commit.hash.clone(),
                        analyzer_name: "lakos".to_string(),
                    })
                } else {
                    Ok(snapshot(commit, 2))
                };
                action = take(
                    e.analyze_repository(EngineEvent::CommitFinished(outcome)),
                    &mut seen,
                );
            }
            EngineAction::Finished(result) => {
                finished = Some(result);
                break;
            }
            other => panic!("unexpected action {:?}", other),
        }
    }
    // Sampled positions: 0, 2, 4, 6, 8, 9; the first three have no project.
    assert_eq!(sampled, 6);
    assert_eq!(finished, Some(Ok(3)));
    let snapshots = e.get_snapshots();
    assert!(0 < snapshots.len() && snapshots.len() < sampled);
    assert_eq!(snapshots.len(), 3);
    let last = seen.last().unwrap();
    assert!(matches!(last.phase, AnalysisPhase::Completed));
    assert_eq!(
        last.message,
        "Analysis completed. 3 of 6 commits analyzed successfully (50% success rate). 3 commits skipped due to missing project files."
    );
    assert_eq!(last.percentage, Percentage { numerator: 100, denominator: 1 });
    assert_eq!(last.current_commit, 6);
    assert_eq!(last.total_commits, 6);
    assert!(matches!(seen[0].phase, AnalysisPhase::Cloning));
    assert_eq!(seen[0].message, "Cloning repository: https://github.com/test/repo.git");
    assert!(matches!(seen[1].phase, AnalysisPhase::BuildingCommitSequence));
    assert_eq!(seen[1].message, "Found 10 commits in merge sequence");
    assert_eq!(seen[1].percentage, Percentage { numerator: 10, denominator: 1 });
    assert_eq!(seen[2].message, "Analyzing 6 commits");
    assert_eq!(seen[2].percentage, Percentage { numerator: 15, denominator: 1 });
    assert_eq!(seen[3].message, "Analyzing commit 00000000: Commit 0");
    assert_eq!(seen[3].current_commit, 1);
    assert_eq!(seen[3].percentage, Percentage { numerator: 90, denominator: 6 });
    assert_eq!(seen[4].percentage, Percentage { numerator: 170, denominator: 6 });
    assert!(e.get_repo_info().is_some());
    assert_eq!(e.get_repo_info().unwrap().default_branch, "main");

    let stats = e.get_statistics();
    assert_eq!(stats.total_snapshots, 3);
    assert_eq!(stats.total_files_analyzed, 6);
    assert_eq!(stats.total_dependencies, 0);
    assert_eq!(stats.time_span_seconds, 3 * 60);
    assert_eq!(stats.first_commit_hash, format!("{:040x}", 6));
    assert_eq!(stats.last_commit_hash, format!("{:040x}", 9));
    assert_eq!(stats.author_commit_counts.len(), 1);
    assert_eq!(stats.author_commit_counts[0].key, "ann");
    assert_eq!(stats.author_commit_counts[0].count, 3);

    // The navigator that the run keeps stands at the last commit analyzed.
    let navigator = e.cleanup().unwrap();
    assert_eq!(navigator.current_commit().unwrap(), &format!("{:040x}", 9));
    assert_eq!(navigator.clone_info().clone_timestamp, 42);
}

#[test]
fn run_without_any_snapshot_fails_with_diagnostic() {
    let mut e = engine(5, Some(100), None);
    let mut seen = Vec::new();
    take(e.analyze_repository(EngineEvent::Start), &mut seen);
    let mut action = take(
        e.analyze_repository(EngineEvent::CloneFinished(Ok(navigator(3)))),
        &mut seen,
    );
    let finished;
    loop {
        match action {
            EngineAction::AnalyzeCommit { commit } => {
                action = take(
                    e.analyze_repository(EngineEvent::CommitFinished(Err(
                        CommitFailure::SubfolderMissing {
                            subfolder: "app".to_string(),
                            commit_hash: commit.hash,
                        },
                    ))),
                    &mut seen,
                );
            }
            EngineAction::Finished(result) => {
                finished = result;
                break;
            }
            other => panic!("unexpected action {:?}", other),
        }
    }
    let message = finished.unwrap_err();
    assert!(message.starts_with("Failed to analyze any commits. This could mean:\n1. "));
    assert!(matches!(seen.last().unwrap().phase, AnalysisPhase::Failed(_)));
    assert_eq!(seen.last().unwrap().percentage, Percentage { numerator: 100, denominator: 1 });
    assert_eq!(e.get_snapshots().len(), 0);
    assert!(e.get_repo_info().is_none());
}

#[test]
fn run_stops_at_once_on_checkout_failure() {
    let mut e = engine(1, None, None);
    let mut seen = Vec::new();
    take(e.analyze_repository(EngineEvent::Start), &mut seen);
    let action = take(
        e.analyze_repository(EngineEvent::CloneFinished(Ok(navigator(4)))),
        &mut seen,
    );
    let first = match action {
        EngineAction::AnalyzeCommit { commit } => commit,
        other => panic!("unexpected action {:?}", other),
    };
    let action = take(
        e.analyze_repository(EngineEvent::CommitFinished(Ok(snapshot(first, 1)))),
        &mut seen,
    );
    assert!(matches!(action, EngineAction::AnalyzeCommit { .. }));
    let action = take(
        e.analyze_repository(EngineEvent::CommitFinished(Err(CommitFailure::Checkout {
            message: "object not found".to_string(),
        }))),
        &mut seen,
    );
    assert_eq!(
        action,
        EngineAction::Finished(Err("Failed to checkout commit: object not found".to_string()))
    );
    let last = seen.last().unwrap();
    assert_eq!(last.current_commit, 2);
    assert_eq!(last.total_commits, 4);
    assert_eq!(last.current_commit_hash, format!("{:040x}", 1));
    assert_eq!(last.percentage, Percentage { numerator: 140, denominator: 4 });
    // Nothing is kept of a run that failed.
    assert_eq!(e.get_snapshots().len(), 0);
    // The run is over: a further report is rejected.
    let step = e.analyze_repository(EngineEvent::CommitFinished(Err(
        CommitFailure::AnalysisFailed { message: "late".to_string() },
    )));
    assert_eq!(step.action, EngineAction::Rejected);
    assert!(step.progress.is_empty());
}

#[test]
fn run_with_subfolder_validates_before_sampling() {
    let mut e = engine(5, None, Some("samples\\web"));
    let mut seen = Vec::new();
    let action = take(e.analyze_repository(EngineEvent::Start), &mut seen);
    match action {
        EngineAction::CloneRepository { source, local_base_dir, subfolder_filter, is_local } => {
            assert_eq!(source, "https://github.com/test/repo.git");
            assert_eq!(local_base_dir, "chronograph");
            assert_eq!(subfolder_filter, Some("samples/web".to_string()));
            assert!(!is_local);
        }
        other => panic!("unexpected action {:?}", other),
    }
    let action = take(
        e.analyze_repository(EngineEvent::CloneFinished(Ok(navigator(2)))),
        &mut seen,
    );
    assert_eq!(
        action,
        EngineAction::ValidateSubfolder {
            subfolder: "samples\\web".to_string(),
            base_path: "/tmp/chronograph/test-repo-cache".to_string(),
        }
    );
    // A commit report is not what the run waits for now.
    let step = e.analyze_repository(EngineEvent::CommitFinished(Err(
        CommitFailure::AnalysisFailed { message: "early".to_string() },
    )));
    assert_eq!(step.action, EngineAction::Rejected);
    let action = take(
        e.analyze_repository(EngineEvent::SubfolderChecked(Err("Subfolder 'x' does not exist".to_string()))),
        &mut seen,
    );
    assert_eq!(
        action,
        EngineAction::Finished(Err(
            "Subfolder validation failed: Subfolder 'x' does not exist".to_string()
        ))
    );
}

#[test]
fn run_fails_when_clone_fails() {
    let mut e = engine(5, None, None);
    let mut seen = Vec::new();
    take(e.analyze_repository(EngineEvent::Start), &mut seen);
    let action = take(
        e.analyze_repository(EngineEvent::CloneFinished(Err("network down".to_string()))),
        &mut seen,
    );
    assert_eq!(
        action,
        EngineAction::Finished(Err("Failed to clone repository: network down".to_string()))
    );
    assert!(matches!(seen.last().unwrap().phase, AnalysisPhase::Failed(_)));
}

#[test]
fn commit_analysis_takes_cached_result_without_running_analyzer() {
    let config = AnalysisConfig::default();
    let c = commit(7, "bob");
    let (state, action) = CommitAnalysis::begin(
        &c,
        "https://github.com/test/repo.git",
        "/work/repo",
        &Some("app".to_string()),
        "lakos",
        true,
        &config,
    );
    assert_eq!(action, CommitAction::Checkout { commit_hash: c.hash.clone() });
    let state = match analyze_commit(state, CommitEvent::CheckedOut(Ok(()))) {
        CommitStep::Continue { state, action } => {
            assert_eq!(action, CommitAction::ResolvePath { path: "/work/repo/app".to_string() });
            state
        }
        other => panic!("unexpected step {:?}", other),
    };
    let state = match analyze_commit(state, CommitEvent::PathResolved { exists: true }) {
        CommitStep::Continue { state, action } => {
            assert_eq!(
                action,
                CommitAction::Probe {
                    path: "/work/repo/app".to_string(),
                    analyzer_name: "lakos".to_string()
                }
            );
            state
        }
        other => panic!("unexpected step {:?}", other),
    };
    let state = match analyze_commit(state, CommitEvent::Probed { analyzable: true }) {
        CommitStep::Continue { state, action } => {
            match action {
                CommitAction::LookUp { key } => {
                    assert_eq!(key.repo_url, "https://github.com/test/repo.git");
                    assert_eq!(key.commit_hash, c.hash);
                    assert_eq!(key.subfolder, Some("app".to_string()));
                    assert_eq!(key.analyzer_name, "lakos");
                }
                other => panic!("unexpected action {:?}", other),
            }
            state
        }
        other => panic!("unexpected step {:?}", other),
    };
    match analyze_commit(state, CommitEvent::CacheAnswered(Some(result_at("/work/repo/app", 4)))) {
        CommitStep::Finished(Ok(snapshot)) => {
            assert_eq!(snapshot.commit_info.hash, c.hash);
            assert_eq!(snapshot.project_path, "/work/repo/app");
            assert_eq!(snapshot.analysis_result.analyzed_files.len(), 4);
        }
        other => panic!("unexpected step {:?}", other),
    }
}

#[test]
fn commit_analysis_survives_failed_cache_write() {
    let config = AnalysisConfig::default();
    let c = commit(1, "bob");
    let (state, _) = CommitAnalysis::begin(&c, "r", "/w", &None, "lakos", true, &config);
    let state = match analyze_commit(state, CommitEvent::CheckedOut(Ok(()))) {
        CommitStep::Continue { state, action } => {
            assert!(matches!(action, CommitAction::Probe { .. }));
            state
        }
        other => panic!("unexpected step {:?}", other),
    };
    // An answer that is not waited for changes nothing.
    let state = match analyze_commit(state, CommitEvent::Stored(Ok(()))) {
        CommitStep::Rejected { state } => state,
        other => panic!("unexpected step {:?}", other),
    };
    let state = match analyze_commit(state, CommitEvent::Probed { analyzable: true }) {
        CommitStep::Continue { state, .. } => state,
        other => panic!("unexpected step {:?}", other),
    };
    let state = match analyze_commit(state, CommitEvent::CacheAnswered(None)) {
        CommitStep::Continue { state, action } => {
            assert_eq!(
                action,
                CommitAction::Analyze { path: "/w".to_string(), analyzer_name: "lakos".to_string() }
            );
            state
        }
        other => panic!("unexpected step {:?}", other),
    };
    assert!(state.pending_result().is_none());
    let state = match analyze_commit(state, CommitEvent::Analyzed(Ok(result_at("/w", 3)))) {
        CommitStep::Continue { state, action } => {
            assert!(matches!(action, CommitAction::Store { .. }));
            state
        }
        other => panic!("unexpected step {:?}", other),
    };
    assert_eq!(state.pending_result().unwrap().analyzed_files.len(), 3);
    match analyze_commit(state, CommitEvent::Stored(Err("disk full".to_string()))) {
        CommitStep::Finished(Ok(snapshot)) => {
            assert_eq!(snapshot.analysis_result.analyzed_files.len(), 3);
            assert_eq!(snapshot.project_path, "/w");
        }
        other => panic!("unexpected step {:?}", other),
    }
}

#[test]
fn commit_failures_are_classified_and_worded() {
    let config = AnalysisConfig::default();
    let c = commit(255, "bob");
    let begin = |known: bool, subfolder: &Option<String>| {
        CommitAnalysis::begin(&c, "r", "/w", subfolder, "lakos", known, &config).0
    };
    let failure = |step: CommitStep| match step {
        CommitStep::Finished(Err(f)) => f,
        other => panic!("unexpected step {:?}", other),
    };

    let f = failure(analyze_commit(begin(true, &None), CommitEvent::CheckedOut(Err("bad".to_string()))));
    assert!(f.is_infrastructure());
    assert!(!f.is_missing_project());
    assert_eq!(f.message(), "Failed to checkout commit: bad");

    let f = failure(analyze_commit(begin(false, &None), CommitEvent::CheckedOut(Ok(()))));
    assert!(!f.is_infrastructure());
    assert_eq!(f.message(), "Analyzer 'lakos' not found");

    let sub = Some("app".to_string());
    let state = match analyze_commit(begin(true, &sub), CommitEvent::CheckedOut(Ok(()))) {
        CommitStep::Continue { state, .. } => state,
        other => panic!("unexpected step {:?}", other),
    };
    let f = failure(analyze_commit(state, CommitEvent::PathResolved { exists: false }));
    assert!(f.is_missing_project());
    assert_eq!(
        f.message(),
        format!("Subfolder 'app' does not exist at commit {}", c.hash)
    );

    let state = match analyze_commit(begin(true, &None), CommitEvent::CheckedOut(Ok(()))) {
        CommitStep::Continue { state, .. } => state,
        other => panic!("unexpected step {:?}", other),
    };
    let f = failure(analyze_commit(state, CommitEvent::Probed { analyzable: false }));
    assert!(f.is_missing_project());
    assert!(!f.is_infrastructure());
    assert_eq!(
        f.message(),
        "Cannot analyze project at commit 00000000: Required project files not found (No pubspec.yaml found - this doesn't appear to be a Flutter/Dart project. If the project is in a subfolder, please specify it in the analysis settings.)"
    );

    let other = CommitFailure::NotAnalyzable {
        commit_hash: "abc".to_string(),
        analyzer_name: "other".to_string(),
    };
    assert_eq!(
        other.message(),
        "Cannot analyze project at commit abc: Required project files not found"
    );
    let listing = CommitFailure::DirectoryListing { message: "denied".to_string() };
    assert!(listing.is_infrastructure());
    assert_eq!(listing.message(), "Directory listing failed: denied");
    let failed = CommitFailure::AnalysisFailed { message: "boom".to_string() };
    assert!(!failed.is_infrastructure());
    assert_eq!(failed.message(), "Failed to run dependency analysis: boom");
}

#[test]
fn engine_begins_commit_only_while_analyzing() {
    let mut e = engine(1, None, None);
    assert!(e.begin_commit().is_none());
    e.analyze_repository(EngineEvent::Start);
    assert!(e.begin_commit().is_none());
    e.analyze_repository(EngineEvent::CloneFinished(Ok(navigator(2))));
    let (state, action) = e.begin_commit().unwrap();
    assert_eq!(action, CommitAction::Checkout { commit_hash: format!("{:040x}", 0) });
    match analyze_commit(state, CommitEvent::CheckedOut(Ok(()))) {
        CommitStep::Continue { action, .. } => assert_eq!(
            action,
            CommitAction::Probe {
                path: "/tmp/chronograph/test-repo-cache".to_string(),
                analyzer_name: "lakos".to_string()
            }
        ),
        other => panic!("unexpected step {:?}", other),
    }
}

#[test]
fn engine_uses_the_subfolder_with_slashes() {
    let mut e = engine(1, None, Some("samples\\web"));
    e.analyze_repository(EngineEvent::Start);
    e.analyze_repository(EngineEvent::CloneFinished(Ok(navigator(2))));
    e.analyze_repository(EngineEvent::SubfolderChecked(Ok(())));
    let (state, _) = e.begin_commit().unwrap();
    let state = match analyze_commit(state, CommitEvent::CheckedOut(Ok(()))) {
        CommitStep::Continue { state, action } => {
            assert_eq!(
                action,
                CommitAction::ResolvePath {
                    path: "/tmp/chronograph/test-repo-cache/samples/web".to_string()
                }
            );
            state
        }
        other => panic!("unexpected step {:?}", other),
    };
    let state = match analyze_commit(state, CommitEvent::PathResolved { exists: true }) {
        CommitStep::Continue { state, .. } => state,
        other => panic!("unexpected step {:?}", other),
    };
    match analyze_commit(state, CommitEvent::Probed { analyzable: true }) {
        CommitStep::Continue { action: CommitAction::LookUp { key }, .. } => {
            assert_eq!(key.subfolder, Some("samples/web".to_string()))
        }
        other => panic!("unexpected step {:?}", other),
    }
}

#[test]
fn engine_replaces_an_analyzer_registered_under_a_taken_name() {
    let mut e = engine(1, None, None);
    e.register_analyzer(Quiet { name: "deep" });
    e.register_analyzer(Quiet { name: "lakos" });
    e.register_analyzer(Quiet { name: "deep" });
    let names: Vec<String> = e.list_analyzers().into_iter().map(|i| i.name).collect();
    assert_eq!(names, vec!["lakos".to_string(), "deep".to_string()]);
    assert!(e.get_analyzer("deep").is_some());
}

#[test]
fn engine_cache_takes_up_rows_written_elsewhere() {
    let mut e = engine(1, None, None);
    let config = AnalysisConfig::default();
    let key = chronograph::analysis_cache::AnalysisCacheKey::new(
        "r".to_string(),
        "c".to_string(),
        None,
        "lakos".to_string(),
        &config,
    );
    let mut elsewhere = AnalysisCache::new("/c".to_string());
    let row = elsewhere.put(&key, &result_at("/w", 1), 7, 50);
    assert_eq!(e.get_cache_statistics().unwrap().total_entries, 0);
    e.reload_cache(vec![row]);
    let stats = e.get_cache_statistics().unwrap();
    assert_eq!(stats.total_entries, 1);
    assert_eq!(stats.total_size_bytes, 7);
    assert!(e.cache().unwrap().contains(&key));
    e.reload_cache(Vec::new());
    assert_eq!(e.get_cache_statistics().unwrap().total_entries, 0);
}

#[test]
fn engine_lists_and_finds_analyzers() {
    let mut e = engine(1, None, None);
    e.register_analyzer(Quiet { name: "deep" });
    let list = e.list_analyzers();
    assert_eq!(list.len(), 2);
    assert_eq!(list[0].name, "lakos");
    assert!(list[0].is_default);
    assert_eq!(list[0].version, "0.1");
    assert_eq!(list[1].name, "deep");
    assert!(!list[1].is_default);
    assert!(e.get_analyzer("deep").is_some());
    assert!(e.get_analyzer("none").is_none());
    assert_eq!(e.get_config().commit_sampling, 1);
    let mut config = ChronoGraphConfig::default();
    config.commit_sampling = 9;
    e.update_config(config);
    assert_eq!(e.get_config().commit_sampling, 9);
}

#[test]
fn engine_cache_operations_work_on_the_configured_repository() {
    let mut e = engine(1, None, None);
    let config = AnalysisConfig::default();
    let key = chronograph::analysis_cache::AnalysisCacheKey::new(
        "https://github.com/test/repo.git".to_string(),
        "abc".to_string(),
        None,
        "lakos".to_string(),
        &config,
    );
    let other = chronograph::analysis_cache::AnalysisCacheKey::new(
        "https://github.com/test/other.git".to_string(),
        "abc".to_string(),
        None,
        "lakos".to_string(),
        &config,
    );
    let result = result_at("/w", 2);
    assert!(e.write_cache(&key, &result, 10, 100).is_some());
    assert!(e.write_cache(&other, &result, 20, 100).is_some());
    let stats = e.get_cache_statistics().unwrap();
    assert_eq!(stats.total_entries, 2);
    assert_eq!(stats.total_size_bytes, 30);
    let read = e
        .read_cache(&key, chronograph::analysis_cache::BlobProbe::Loaded(result_at("/w", 2)), 200)
        .unwrap();
    assert_eq!(read.result.unwrap().analyzed_files.len(), 2);
    let removed = e.clear_repository_cache();
    assert_eq!(removed.len(), 1);
    assert_eq!(removed[0], format!("/c/analysis/{}.bincode", key.to_cache_key()));
    assert_eq!(e.get_cache_statistics().unwrap().total_entries, 1);
    assert_eq!(e.cleanup_old_cache(1, 100 + 2 * 86400).len(), 1);
    assert_eq!(e.clear_all_cache(), 0);
}

#[test]
fn engine_without_cache_answers_nothing() {
    let mut e: ChronoGraphEngine<Quiet> =
        ChronoGraphEngine::new(ChronoGraphConfig::default(), Quiet { name: "lakos" }, None);
    assert!(e.get_cache_statistics().is_none());
    assert_eq!(e.clear_repository_cache().len(), 0);
    assert_eq!(e.cleanup_old_cache(30, 1_700_000_000).len(), 0);
    assert_eq!(e.clear_all_cache(), 0);
    assert!(e.cleanup().is_none());
}

#[test]
fn statistics_of_no_snapshots_are_zero() {
    let stats = statistics_of(&Vec::new());
    assert_eq!(stats.total_snapshots, 0);
    assert_eq!(stats.total_dependencies, 0);
    assert_eq!(stats.total_files_analyzed, 0);
    assert_eq!(stats.time_span_seconds, 0);
    assert_eq!(stats.first_commit_hash, "");
    assert_eq!(stats.last_commit_hash, "");
    assert!(stats.author_commit_counts.is_empty());
}

#[test]
fn statistics_count_authors_and_span() {
    let snapshots = vec![
        snapshot(commit(0, "ann"), 1),
        snapshot(commit(1, "bob"), 2),
        snapshot(commit(5, "ann"), 3),
    ];
    let stats = statistics_of(&snapshots);
    assert_eq!(stats.total_snapshots, 3);
    assert_eq!(stats.total_files_analyzed, 6);
    assert_eq!(stats.time_span_seconds, 300);
    assert_eq!(stats.author_commit_counts.len(), 2);
    assert_eq!(stats.author_commit_counts[0].key, "ann");
    assert_eq!(stats.author_commit_counts[0].count, 2);
    assert_eq!(stats.author_commit_counts[1].key, "bob");
    assert_eq!(stats.author_commit_counts[1].count, 1);
    assert_eq!(chronograph::chronograph_engine::time_span(i64::MIN, i64::MAX), i64::MAX);
    assert_eq!(chronograph::chronograph_engine::time_span(i64::MAX, i64::MIN), i64::MIN);
}

#[test]
fn commit_analysis_ends_when_the_analyzer_fails() {
    let config = AnalysisConfig::default();
    let c = commit(1, "bob");
    let (state, _) = CommitAnalysis::begin(&c, "r", "/w", &None, "lakos", true, &config);
    let mut state = state;
    for event in [
        CommitEvent::CheckedOut(Ok(())),
        CommitEvent::Probed { analyzable: true },
        CommitEvent::CacheAnswered(None),
    ] {
        state = match analyze_commit(state, event) {
            CommitStep::Continue { state, .. } => state,
            other => panic!("unexpected step {:?}", other),
        };
    }
    match analyze_commit(state, CommitEvent::Analyzed(Err("exit code 64".to_string()))) {
        CommitStep::Finished(Err(CommitFailure::AnalysisFailed { message })) => {
            assert_eq!(message, "exit code 64")
        }
        other => panic!("unexpected step {:?}", other),
    }
}
