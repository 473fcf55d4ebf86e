use chronograph::dependency_analyzer::{
    AnalysisConfig, AnalysisResult, AnalyzerCapabilities, AnalyzerRegistry, DependencyAnalyzer,
    DependencyWeight, EnhancedDependency, GlobalArchitecturalMetrics, NodeMetrics,
    PerformanceTier, RawDependency, Real64, RegistryError, RelationshipType,
};
use chronograph::file_search::{
    classify_entry, find_dart_files, should_ignore, DirectoryEntry, EntryVerdict,
    WalkedEntry,
};
use chronograph::lakos_analyzer::{
    LakosAnalyzer, LakosEdge, LakosProject, LakosStep, ProcessOutput,
};
use chronograph::progress::{
    analyzing_message, cloning_message, commit_message, completion_message,
    no_snapshot_message, sequence_message, short_hash,
};
use chronograph::tally::tally;
use chronograph::text::{chars_of, decimal, hex16, same_text, string_of, trim};

struct Named {
    name: &'static str,
    version: &'static str,
}

impl DependencyAnalyzer for Named {
    fn name(&self) -> String {
        self.name.to_string()
    }

    fn version(&self) -> String {
        self.version.to_string()
    }

    fn capabilities(&self) -> AnalyzerCapabilities {
        LakosAnalyzer::new().capabilities()
    }

    fn analyze_project(
        &self,
        _project_path: &str,
        _config: &AnalysisConfig,
    ) -> Result<AnalysisResult, String> {
        Err("not run".to_string())
    }

    fn can_analyze_project(&self, _project_path: &str) -> bool {
        false
    }
}

fn strings(list: &[&str]) -> Vec<String> {
    list.iter().map(|s| s.to_string()).collect()
}

fn entry(path: &str, is_dir: bool, is_symlink: bool, extension: Option<&str>) -> DirectoryEntry {
    DirectoryEntry {
        path: path.to_string(),
        is_dir,
        is_symlink,
        extension: extension.map(|s| s.to_string()),
    }
}

#[test]
fn registry_tracks_default_and_refuses_unknown_names() {
    let mut registry: AnalyzerRegistry<Named> = AnalyzerRegistry::new();
    assert!(registry.get_default_analyzer().is_none());
    assert!(registry.list_analyzers().is_empty());
    registry.register(Named { name: "lakos", version: "1" });
    registry.register(Named { name: "deep", version: "2" });
    assert_eq!(registry.get_default_analyzer().unwrap().name, "lakos");
    assert_eq!(registry.get_analyzer("deep").unwrap().version, "2");
    assert!(registry.get_analyzer("missing").is_none());

    match registry.set_default_analyzer("missing") {
        Err(RegistryError::NotFound { name }) => assert_eq!(name, "missing"),
        other => panic!("unexpected {:?}", other),
    }
    assert_eq!(
        RegistryError::NotFound { name: "missing".to_string() }.message(),
        "Analyzer 'missing' not found"
    );
    assert_eq!(registry.get_default_analyzer().unwrap().name, "lakos");
    assert!(registry.set_default_analyzer("deep").is_ok());
    assert_eq!(registry.get_default_analyzer().unwrap().name, "deep");

    // A second registration under a name replaces the first.
    registry.register(Named { name: "lakos", version: "3" });
    let list = registry.list_analyzers();
    assert_eq!(list.len(), 2);
    assert_eq!(list[0].name, "lakos");
    assert_eq!(list[0].version, "3");
    assert!(!list[0].is_default);
    assert_eq!(list[1].name, "deep");
    assert!(list[1].is_default);
    assert_eq!(Named { name: "x", version: "1" }.config_schema(), "{}");
}

#[test]
fn analysis_config_defaults() {
    let config = AnalysisConfig::default();
    assert_eq!(
        config.ignore_patterns,
        strings(&[
            "**/.git/**",
            "**/node_modules/**",
            "**/build/**",
            "**/.dart_tool/**",
            "**/pubspec.lock"
        ])
    );
    assert_eq!(config.file_extensions, strings(&["dart"]));
    assert_eq!(config.max_depth, Some(50));
    assert!(!config.follow_symlinks);
    assert!(config.analyzer_config.is_empty());
    let copy = config.clone();
    assert_eq!(copy.ignore_patterns, config.ignore_patterns);
}

#[test]
fn metrics_defaults_and_roles() {
    let g = GlobalArchitecturalMetrics::default();
    assert!(g.is_acyclic);
    assert_eq!(g.num_nodes, 0);
    assert_eq!(g.avg_degree, Real64 { bits: 0 });
    let mut n = NodeMetrics::default();
    assert_eq!(n.architectural_role(), "component");
    assert_eq!(n.coupling_level(), "isolated");
    n.out_degree = 1;
    assert_eq!(n.architectural_role(), "leaf");
    n.in_degree = 6;
    assert_eq!(n.architectural_role(), "core");
    n.out_degree = 3;
    assert_eq!(n.architectural_role(), "connector");
    n.in_cycle = true;
    assert_eq!(n.architectural_role(), "cyclic");
    n.is_orphan = true;
    assert_eq!(n.architectural_role(), "orphan");
    n.component_dependency = 2;
    assert_eq!(n.coupling_level(), "low");
    n.component_dependency = 3;
    assert_eq!(n.coupling_level(), "medium");
    n.component_dependency = 8;
    assert_eq!(n.coupling_level(), "high");
}

#[test]
fn enhanced_dependency_keeps_the_raw_fields() {
    let raw = RawDependency {
        source_file: "a.dart".to_string(),
        target_file: "b.dart".to_string(),
        relationship_type: RelationshipType::Part,
        weight: DependencyWeight::Frequency(3),
        line_number: Some(4),
        import_statement: Some("part 'b.dart';".to_string()),
        symbols: strings(&["B"]),
        metadata: vec![("k".to_string(), "v".to_string())],
    };
    let e = EnhancedDependency::from(raw);
    assert_eq!(e.source_file, "a.dart");
    assert_eq!(e.target_file, "b.dart");
    assert!(matches!(e.relationship_type, RelationshipType::Part));
    assert!(matches!(e.weight, DependencyWeight::Frequency(3)));
    assert_eq!(e.line_number, Some(4));
    assert_eq!(e.symbols, strings(&["B"]));
    assert!(!e.is_critical);
    assert!(!e.creates_cycle);
    assert_eq!(e.coupling_strength, Real64::zero());
}

#[test]
fn ignore_patterns_are_glob_patterns() {
    let patterns = strings(&["**/build/**", "[", "*.lock"]);
    assert!(should_ignore("app/build/out.js", &patterns));
    assert!(should_ignore("pubspec.lock", &patterns));
    assert!(!should_ignore("app/lib/main.dart", &patterns));
    // A pattern that does not compile matches nothing.
    assert!(!should_ignore("[", &strings(&["["])));
    assert!(!should_ignore("anything", &Vec::new()));
}

#[test]
fn walk_verdicts_follow_the_configuration() {
    let mut config = AnalysisConfig::default();
    config.max_depth = Some(2);
    assert_eq!(
        classify_entry(&entry("p/lib/main.dart", false, false, Some("dart")), &config, 0),
        EntryVerdict::Collect
    );
    assert_eq!(
        classify_entry(&entry("p/lib/main.rs", false, false, Some("rs")), &config, 0),
        EntryVerdict::Skip
    );
    assert_eq!(
        classify_entry(&entry("p/Makefile", false, false, None), &config, 0),
        EntryVerdict::Skip
    );
    assert_eq!(
        classify_entry(&entry("p/build/x.dart", false, false, Some("dart")), &config, 0),
        EntryVerdict::Ignored
    );
    assert_eq!(classify_entry(&entry("p/lib", true, false, None), &config, 1), EntryVerdict::Descend);
    assert_eq!(classify_entry(&entry("p/lib/a", true, false, None), &config, 2), EntryVerdict::Skip);
    assert_eq!(classify_entry(&entry("p/link", true, true, None), &config, 0), EntryVerdict::Skip);
    config.follow_symlinks = true;
    assert_eq!(classify_entry(&entry("p/link", true, true, None), &config, 0), EntryVerdict::Descend);
    config.max_depth = None;
    assert_eq!(
        classify_entry(&entry("p/deep", true, false, None), &config, usize::MAX),
        EntryVerdict::Descend
    );
}

#[test]
fn files_are_collected_in_walk_order() {
    let config = AnalysisConfig::default();
    let walked = vec![
        WalkedEntry { entry: entry("p/lib", true, false, None), depth: 0 },
        WalkedEntry { entry: entry("p/lib/b.dart", false, false, Some("dart")), depth: 1 },
        WalkedEntry { entry: entry("p/lib/notes.txt", false, false, Some("txt")), depth: 1 },
        WalkedEntry { entry: entry("p/build/gen.dart", false, false, Some("dart")), depth: 1 },
        WalkedEntry { entry: entry("p/a.dart", false, false, Some("dart")), depth: 0 },
    ];
    assert_eq!(find_dart_files(&walked, &config), strings(&["p/lib/b.dart", "p/a.dart"]));
    assert!(find_dart_files(&Vec::new(), &config).is_empty());
}

#[test]
fn lakos_says_what_it_is() {
    let lakos = LakosAnalyzer::new();
    assert_eq!(lakos.name(), "lakos");
    assert_eq!(lakos.version(), "1.0.0");
    assert_eq!(LakosAnalyzer::default().version(), "1.0.0");
    let caps = lakos.capabilities();
    assert!(!caps.supports_weighted_analysis);
    assert!(!caps.supports_symbol_tracking);
    assert!(!caps.supports_line_numbers);
    assert!(!caps.supports_dynamic_imports);
    assert_eq!(caps.supported_file_extensions, strings(&["dart"]));
    assert_eq!(caps.performance_tier, PerformanceTier::Fast);
    let schema: serde_json::Value = serde_json::from_str(&lakos.config_schema()).unwrap();
    assert_eq!(schema["type"], "object");
    assert_eq!(schema["properties"]["ignore_test"]["default"], false);
    assert_eq!(schema["properties"]["include_metrics"]["description"], "Include dependency metrics");
}

#[test]
fn lakos_result_is_assembled_from_what_was_found() {
    let lakos = LakosAnalyzer::new();
    let dependency = LakosAnalyzer::parse_lakos_edge(LakosEdge {
        source: Some("a".to_string()),
        target: Some("b".to_string()),
        style: None,
        label: None,
    })
    .unwrap();
    let result = lakos.analyze_project(
        "/p",
        false,
        strings(&["/p/lib/a.dart", "/p/lib/b.dart"]),
        vec![dependency],
        250,
        1_700_000_000,
    );
    assert_eq!(result.analyzer_name, "lakos");
    assert_eq!(result.analyzer_version, "1.0.0");
    assert_eq!(result.project_path, "/p");
    assert_eq!(result.analysis_timestamp, 1_700_000_000);
    assert_eq!(result.analyzed_files.len(), 2);
    assert!(result.skipped_files.is_empty());
    assert_eq!(result.metrics.total_files_found, 2);
    assert_eq!(result.metrics.files_analyzed, 2);
    assert_eq!(result.metrics.files_skipped, 0);
    assert_eq!(result.metrics.dependencies_found, 1);
    assert_eq!(result.metrics.analysis_duration_ms, 250);
    assert_eq!(result.issues.len(), 1);
    assert_eq!(
        result.issues[0].message,
        "No pubspec.yaml found - may not be a Dart/Flutter project"
    );
    assert!(!result.has_enhanced_metrics());
    assert_eq!(result.get_dependencies().len(), 1);
    assert!(result.get_enhanced_dependencies().is_none());
    let clean = lakos.analyze_project("/p", true, Vec::new(), Vec::new(), 0, 0);
    assert!(clean.issues.is_empty());
}

#[test]
fn lakos_project_detection_and_arguments() {
    assert!(!LakosAnalyzer::is_dart_project(&strings(&["lib", "README.md"])));
    assert!(LakosAnalyzer::is_dart_project(&strings(&["lib", "pubspec.yaml"])));
    assert!(LakosAnalyzer::is_dart_project(&strings(&["pubspec.yml"])));
    assert!(!LakosAnalyzer::is_dart_project(&Vec::new()));

    let mut config = AnalysisConfig::default();
    assert_eq!(
        LakosAnalyzer::lakos_arguments(&config),
        strings(&["pub", "global", "run", "lakos", "--format=json", "--metrics", "--node-metrics", "."])
    );
    config.ignore_patterns = strings(&["**/test/**", "**/build/**", "**/integration_test/**"]);
    assert_eq!(
        LakosAnalyzer::lakos_arguments(&config),
        strings(&[
            "pub",
            "global",
            "run",
            "lakos",
            "--format=json",
            "--metrics",
            "--node-metrics",
            "--ignore=**/*test*/**",
            "--ignore=**/*test*/**",
            "."
        ])
    );
}

#[test]
fn lakos_run_is_read_by_its_exit_code() {
    let output = |success: bool, code: Option<i32>| ProcessOutput {
        success,
        code,
        stdout: "{}".to_string(),
        stderr: "oops".to_string(),
    };
    assert_eq!(LakosAnalyzer::run_lakos("dart", Ok(output(true, Some(0)))), Ok("{}".to_string()));
    assert_eq!(LakosAnalyzer::run_lakos("dart", Ok(output(false, Some(5)))), Ok("{}".to_string()));
    assert_eq!(
        LakosAnalyzer::run_lakos("dart", Ok(output(false, Some(64)))),
        Err("Command 'dart' failed with exit code 64: oops".to_string())
    );
    assert_eq!(
        LakosAnalyzer::run_lakos("dart", Ok(output(false, None))),
        Err("Command 'dart' failed with exit code -1: oops".to_string())
    );
    assert_eq!(
        LakosAnalyzer::run_lakos("dart", Ok(output(false, Some(i32::MIN)))),
        Err("Command 'dart' failed with exit code -2147483648: oops".to_string())
    );
    assert_eq!(
        LakosAnalyzer::run_lakos("dart", Err("not found".to_string())),
        Err("Failed to run 'dart': not found".to_string())
    );
    assert_eq!(
        LakosAnalyzer::failure_message("x"),
        "Failed to run Lakos analysis. All attempts failed. Last error: x. \nThis likely means:\n1. Lakos is not installed (run: dart pub global activate lakos)\n2. Dart SDK path issues in WSL environment\n3. Project is not a valid Dart/Flutter project"
    );
}

#[test]
fn lakos_availability_and_installation_are_read_from_the_process() {
    let output = |success: bool, stdout: &str, stderr: &str| ProcessOutput {
        success,
        code: Some(if success { 0 } else { 1 }),
        stdout: stdout.to_string(),
        stderr: stderr.to_string(),
    };
    assert!(LakosAnalyzer::is_available(&output(true, "lakos 2.0.0\n", ""), false));
    assert!(!LakosAnalyzer::is_available(&output(false, "lakos 2.0.0\n", ""), false));
    assert!(!LakosAnalyzer::is_available(&output(true, "other 1.0\n", ""), false));
    assert!(LakosAnalyzer::is_available(&output(true, "lakos dart not found", ""), false));
    assert!(!LakosAnalyzer::is_available(&output(true, "lakos dart not found", ""), true));
    assert!(LakosAnalyzer::is_available(&output(true, "lakos 2.0.0", ""), true));
    assert!(!LakosAnalyzer::is_available(&output(true, "", ""), true));

    assert_eq!(LakosAnalyzer::install("dart", &Ok(output(true, "", "")), false), Ok(()));
    assert_eq!(
        LakosAnalyzer::install("dart", &Ok(output(false, "", "no network")), false),
        Err("Command 'dart' failed: no network".to_string())
    );
    assert_eq!(
        LakosAnalyzer::install("dart", &Err("missing".to_string()), false),
        Err("Failed to run 'dart': missing".to_string())
    );
    assert_eq!(
        LakosAnalyzer::install("bash", &Ok(output(false, "", "no network")), true),
        Err("Bash wrapper failed: no network".to_string())
    );
    assert_eq!(
        LakosAnalyzer::install("bash", &Err("missing".to_string()), true),
        Err("Bash wrapper execution failed: missing".to_string())
    );
    assert_eq!(
        LakosAnalyzer::install_failure_message("x"),
        "Failed to install Lakos. Last error: x"
    );
}

#[test]
fn test_library_name_conversion() {
    // The file lib/test.dart is there below the project.
    let result =
        LakosAnalyzer::library_name_to_file_path("lib/test.dart", "/project", &vec![true, false, false, false]);
    assert_eq!(result, "/project/lib/test.dart");
    assert_eq!(
        LakosAnalyzer::library_path_candidates("src/a", "/p"),
        strings(&["/p/src/a", "/p/src/a.dart", "/p/lib/src/a", "/p/lib/src/a.dart"])
    );
    assert_eq!(
        LakosAnalyzer::library_name_to_file_path("src/a", "/p", &vec![false, false, true, true]),
        "/p/lib/src/a"
    );
    assert_eq!(
        LakosAnalyzer::library_name_to_file_path("src/a", "/p", &vec![false, false, false, false]),
        "/p/src/a"
    );
    assert_eq!(LakosAnalyzer::library_name_to_file_path("src/a", "/p", &vec![]), "/p/src/a");
}

#[test]
fn test_dart_project_detection() {
    let mut entries: Vec<String> = Vec::new();
    assert!(!LakosAnalyzer::is_dart_project(&entries));
    entries.push("pubspec.yaml".to_string());
    assert!(LakosAnalyzer::is_dart_project(&entries));
}

#[test]
fn lakos_output_becomes_dependencies() {
    let json = r#"{
        "nodes": [{"id": "lib/a.dart"}],
        "edges": [
            {"source": "lib/a.dart", "target": "lib/b.dart"},
            {"source": "lib/b.dart", "target": "lib/c.dart", "style": "dashed", "label": "export"},
            {"source": "lib/c.dart", "target": "lib/a.dart", "style": 7}
        ]
    }"#;
    let deps = LakosAnalyzer::parse_lakos_json(json).unwrap();
    assert_eq!(deps.len(), 3);
    assert_eq!(deps[0].source_file, "lib/a.dart");
    assert_eq!(deps[0].target_file, "lib/b.dart");
    assert!(matches!(deps[0].relationship_type, RelationshipType::Import));
    assert!(matches!(deps[0].weight, DependencyWeight::Binary(true)));
    assert!(deps[0].metadata.is_empty());
    assert!(deps[0].line_number.is_none());
    assert!(matches!(deps[1].relationship_type, RelationshipType::Export));
    assert_eq!(deps[1].metadata, vec![("label".to_string(), "export".to_string())]);
    assert!(matches!(deps[2].relationship_type, RelationshipType::Import));

    assert!(LakosAnalyzer::parse_lakos_json("{}").unwrap().is_empty());
    assert!(LakosAnalyzer::parse_lakos_json(r#"{"edges": 3}"#).unwrap().is_empty());
    assert!(LakosAnalyzer::parse_lakos_json("[]").unwrap().is_empty());
    assert_eq!(
        LakosAnalyzer::parse_lakos_json("not json").unwrap_err(),
        "Failed to parse Lakos JSON output"
    );
    assert_eq!(
        LakosAnalyzer::parse_lakos_json(r#"{"edges": [{"source": "a", "target": "b"}, {"target": "b"}]}"#)
            .unwrap_err(),
        "Missing source in lakos edge"
    );
    assert_eq!(
        LakosAnalyzer::parse_lakos_json(r#"{"edges": [{"source": "a", "target": 1}]}"#).unwrap_err(),
        "Missing target in lakos edge"
    );
    let document: serde_json::Value =
        serde_json::from_str(r#"{"edges": [{"source": "s", "label": "l"}]}"#).unwrap();
    let edges = LakosAnalyzer::lakos_edges(&document);
    assert_eq!(edges.len(), 1);
    assert_eq!(edges[0].source, Some("s".to_string()));
    assert_eq!(edges[0].target, None);
    assert_eq!(edges[0].style, None);
    assert_eq!(edges[0].label, Some("l".to_string()));
    let dep = LakosAnalyzer::parse_lakos_edge(LakosEdge {
        source: Some("s".to_string()),
        target: Some("t".to_string()),
        style: None,
        label: None,
    })
    .unwrap();
    assert_eq!(dep.source_file, "s");
    assert_eq!(dep.target_file, "t");
}

#[test]
fn progress_messages_are_worded_exactly() {
    assert_eq!(cloning_message("u"), "Cloning repository: u");
    assert_eq!(sequence_message(0), "Found 0 commits in merge sequence");
    assert_eq!(analyzing_message(120), "Analyzing 120 commits");
    assert_eq!(commit_message("0123456789abcdef", "Title\nBody"), "Analyzing commit 01234567: Title");
    assert_eq!(commit_message("abc", ""), "Analyzing commit abc: ");
    assert_eq!(commit_message("abc", "\nx"), "Analyzing commit abc: ");
    assert_eq!(string_of(&short_hash("0123456789")), "01234567");
    assert_eq!(completion_message(4, 4), "Analysis completed. 4 snapshots generated.");
    assert_eq!(
        completion_message(57, 100),
        "Analysis completed. 57 of 100 commits analyzed successfully (57% success rate). 43 commits skipped due to missing project files."
    );
    assert_eq!(
        completion_message(1, 3),
        "Analysis completed. 1 of 3 commits analyzed successfully (33% success rate). 2 commits skipped due to missing project files."
    );
    assert!(no_snapshot_message().ends_with("3. The project was added in later commits - try analyzing more commits"));
}

#[test]
fn numbers_and_text_are_formatted() {
    assert_eq!(decimal(0), "0");
    assert_eq!(decimal(9), "9");
    assert_eq!(decimal(10), "10");
    assert_eq!(decimal(u64::MAX), "18446744073709551615");
    assert_eq!(hex16(0), "0000000000000000");
    assert_eq!(hex16(255), "00000000000000ff");
    assert_eq!(hex16(0x0123_4567_89ab_cdef), "0123456789abcdef");
    assert_eq!(hex16(u64::MAX), "ffffffffffffffff");
    assert_eq!(chars_of("héllo"), vec!['h', 'é', 'l', 'l', 'o']);
    assert_eq!(string_of(&vec!['a', 'ß']), "aß");
    assert!(same_text("a", "a"));
    assert!(!same_text("a", "ab"));
    assert_eq!(trim("  a b\t\n"), "a b");
    assert_eq!(trim("\u{3000}x\u{a0}"), "x");
    assert_eq!(trim(" \n "), "");
    assert_eq!(trim(""), "");
    assert_eq!(trim("x"), "x");
}

#[test]
fn tally_counts_each_key_once() {
    let counts = tally(&strings(&["b", "a", "b", "c", "b", "a"]));
    let pairs: Vec<(String, usize)> = counts.into_iter().map(|c| (c.key, c.count)).collect();
    assert_eq!(
        pairs,
        vec![("b".to_string(), 3), ("a".to_string(), 2), ("c".to_string(), 1)]
    );
    assert!(tally(&Vec::new()).is_empty());
}

fn ended(success: bool, code: Option<i32>, stdout: &str, stderr: &str) -> Result<ProcessOutput, String> {
    Ok(ProcessOutput {
        success,
        code,
        stdout: stdout.to_string(),
        stderr: stderr.to_string(),
    })
}

fn project(exists: bool, has_pubspec: bool, lakos_available: bool) -> LakosProject {
    LakosProject { path: "/work/app".to_string(), exists, has_pubspec, lakos_available }
}

const DART_EXE: &str = "/mnt/c/Flutter/flutter/bin/cache/dart-sdk/bin/dart.exe";
const DART_BAT: &str = "/mnt/c/Flutter/flutter/bin/dart.bat";

#[test]
fn lakos_run_refuses_before_any_attempt() {
    let none = Vec::new();
    assert_eq!(
        LakosAnalyzer::next_lakos_step(&project(false, true, true), &none),
        LakosStep::Finished(Err("Project path does not exist: /work/app".to_string()))
    );
    assert_eq!(
        LakosAnalyzer::next_lakos_step(&project(true, false, true), &none),
        LakosStep::Finished(Err("No pubspec.yaml found - not a valid Dart project".to_string()))
    );
    assert_eq!(
        LakosAnalyzer::next_lakos_step(&project(true, true, false), &none),
        LakosStep::Finished(Err("Lakos is not installed or not available".to_string()))
    );
    // A refusal stands whatever was attempted.
    assert_eq!(
        LakosAnalyzer::next_lakos_step(
            &project(false, true, true),
            &vec![ended(true, Some(0), "{}", "")]
        ),
        LakosStep::Finished(Err("Project path does not exist: /work/app".to_string()))
    );
}

#[test]
fn lakos_run_tries_three_times_and_stops_at_the_first_success() {
    let p = project(true, true, true);
    let mut outcomes = Vec::new();
    assert_eq!(
        LakosAnalyzer::next_lakos_step(&p, &outcomes),
        LakosStep::Attempt { program: DART_EXE.to_string(), through_shell: false }
    );
    outcomes.push(Err("No such file".to_string()));
    assert_eq!(
        LakosAnalyzer::next_lakos_step(&p, &outcomes),
        LakosStep::Attempt { program: DART_BAT.to_string(), through_shell: false }
    );
    outcomes.push(ended(false, Some(64), "", "usage"));
    assert_eq!(
        LakosAnalyzer::next_lakos_step(&p, &outcomes),
        LakosStep::Attempt { program: "bash".to_string(), through_shell: true }
    );
    let mut won = outcomes.clone_outcomes();
    won.push(ended(false, Some(5), "{\"edges\":[]}", "cycles"));
    assert_eq!(
        LakosAnalyzer::next_lakos_step(&p, &won),
        LakosStep::Finished(Ok("{\"edges\":[]}".to_string()))
    );
    let mut lost = outcomes.clone_outcomes();
    lost.push(ended(false, None, "", "killed"));
    assert_eq!(
        LakosAnalyzer::next_lakos_step(&p, &lost),
        LakosStep::Finished(Err(LakosAnalyzer::failure_message(
            "Bash wrapper failed with exit code -1: killed"
        )))
    );
    let mut unstarted = outcomes.clone_outcomes();
    unstarted.push(Err("no shell".to_string()));
    assert_eq!(
        LakosAnalyzer::next_lakos_step(&p, &unstarted),
        LakosStep::Finished(Err(LakosAnalyzer::failure_message(
            "Bash wrapper execution failed: no shell"
        )))
    );
    // The first attempt that ran to its end gives the output.
    assert_eq!(
        LakosAnalyzer::next_lakos_step(&p, &vec![ended(true, Some(0), "first", "")]),
        LakosStep::Finished(Ok("first".to_string()))
    );
    assert_eq!(
        LakosAnalyzer::attempt_programs(),
        strings(&[DART_EXE, DART_BAT, "bash"])
    );
}

trait CloneOutcomes {
    fn clone_outcomes(&self) -> Vec<Result<ProcessOutput, String>>;
}

impl CloneOutcomes for Vec<Result<ProcessOutput, String>> {
    fn clone_outcomes(&self) -> Vec<Result<ProcessOutput, String>> {
        self.iter()
            .map(|o| match o {
                Ok(p) => Ok(ProcessOutput {
                    success: p.success,
                    code: p.code,
                    stdout: p.stdout.clone(),
                    stderr: p.stderr.clone(),
                }),
                Err(e) => Err(e.clone()),
            })
            .collect()
    }
}

#[test]
fn lakos_availability_is_decided_by_the_listings_in_order() {
    let mut outcomes = Vec::new();
    assert_eq!(
        LakosAnalyzer::next_availability_step(&outcomes),
        LakosStep::Attempt { program: DART_EXE.to_string(), through_shell: false }
    );
    assert_eq!(
        LakosAnalyzer::next_availability_step(&vec![ended(true, Some(0), "lakos 2.0", "")]),
        LakosStep::Finished(true)
    );
    outcomes.push(ended(true, Some(0), "other 1.0", ""));
    assert_eq!(
        LakosAnalyzer::next_availability_step(&outcomes),
        LakosStep::Attempt { program: DART_BAT.to_string(), through_shell: false }
    );
    outcomes.push(Err("missing".to_string()));
    assert_eq!(
        LakosAnalyzer::next_availability_step(&outcomes),
        LakosStep::Attempt { program: "bash".to_string(), through_shell: true }
    );
    let mut yes = outcomes.clone_outcomes();
    yes.push(ended(true, Some(0), "lakos 2.0", ""));
    assert_eq!(LakosAnalyzer::next_availability_step(&yes), LakosStep::Finished(true));
    let mut no = outcomes.clone_outcomes();
    no.push(ended(true, Some(0), "lakos dart not found", ""));
    assert_eq!(LakosAnalyzer::next_availability_step(&no), LakosStep::Finished(false));
    let mut failed = outcomes.clone_outcomes();
    failed.push(Err("no shell".to_string()));
    assert_eq!(LakosAnalyzer::next_availability_step(&failed), LakosStep::Finished(false));
}

#[test]
fn lakos_installation_tries_three_times() {
    let mut outcomes = Vec::new();
    assert_eq!(
        LakosAnalyzer::next_install_step(&outcomes),
        LakosStep::Attempt { program: DART_EXE.to_string(), through_shell: false }
    );
    assert_eq!(
        LakosAnalyzer::next_install_step(&vec![ended(true, Some(0), "", "")]),
        LakosStep::Finished(Ok(()))
    );
    outcomes.push(ended(false, Some(1), "", "offline"));
    outcomes.push(Err("missing".to_string()));
    assert_eq!(
        LakosAnalyzer::next_install_step(&outcomes),
        LakosStep::Attempt { program: "bash".to_string(), through_shell: true }
    );
    outcomes.push(ended(false, Some(1), "", "offline"));
    assert_eq!(
        LakosAnalyzer::next_install_step(&outcomes),
        LakosStep::Finished(Err(
            "Failed to install Lakos. Last error: Bash wrapper failed: offline".to_string()
        ))
    );
}
