//! The `lakos` analyzer: what it says of itself, how its command line is
//! made, how the end of its process is read, and how the edges of its
//! output become dependencies.

use vstd::prelude::*;
use crate::dependency_analyzer::{
    AnalysisConfig, AnalysisIssue, AnalysisMetrics, AnalysisResult, AnalyzerCapabilities,
    DependencyWeight, IssueLevel, PerformanceTier, RawDependency, RelationshipType,
};
use crate::text::{
    chars_of, contains_text, holds_text, push_signed, push_str, same_text, signed_digits,
    string_of,
};

verus! {

/// The `lakos` analyzer.
#[derive(Debug)]
pub struct LakosAnalyzer {
    version: String,
}

/// The exit code with which `lakos` reports that it ran and found cycles.
pub const EXIT_CYCLES_DETECTED: i32 = 5;

/// The flags that follow from the ignore patterns: one for each pattern
/// that holds `test`.
pub open spec fn ignore_flags(patterns: Seq<Seq<char>>) -> Seq<Seq<char>>
    decreases patterns.len(),
{
    if patterns.len() == 0 {
        Seq::empty()
    } else if holds_text(patterns.last(), "test"@) {
        ignore_flags(patterns.drop_last()).push("--ignore=**/*test*/**"@)
    } else {
        ignore_flags(patterns.drop_last())
    }
}

/// The arguments that `dart` is run with for the ignore patterns
/// `patterns`.
pub open spec fn arguments_of(patterns: Seq<Seq<char>>) -> Seq<Seq<char>> {
    seq![
        "pub"@,
        "global"@,
        "run"@,
        "lakos"@,
        "--format=json"@,
        "--metrics"@,
        "--node-metrics"@,
    ] + ignore_flags(patterns) + seq!["."@]
}

/// How a process ended.
#[derive(Debug)]
pub struct ProcessOutput {
    /// Whether the process reported success.
    pub success: bool,
    /// The exit code, where the process exited of its own accord.
    pub code: Option<i32>,
    /// What the process wrote to its standard output.
    pub stdout: String,
    /// What the process wrote to its standard error.
    pub stderr: String,
}

/// The exit code of `output`, or -1 where it has none.
pub open spec fn exit_code_of(code: Option<i32>) -> int {
    match code {
        Some(c) => c as int,
        None => -1,
    }
}

/// Whether a process that ended like this ran `lakos` to its end: it
/// reported success, or cycles.
pub open spec fn ran_to_end(success: bool, code: Option<i32>) -> bool {
    success || code == Some(EXIT_CYCLES_DETECTED)
}

/// The message for a run of `program` that did not run `lakos` to its end.
pub open spec fn failed_run_text(program: Seq<char>, code: Option<i32>, stderr: Seq<char>) -> Seq<
    char,
> {
    "Command '"@ + program + "' failed with exit code "@ + signed_digits(exit_code_of(code))
        + ": "@ + stderr
}

/// The message for a `program` that did not start.
pub open spec fn failed_start_text(program: Seq<char>, reason: Seq<char>) -> Seq<char> {
    "Failed to run '"@ + program + "': "@ + reason
}

/// The message for a run in which no attempt succeeded.
pub open spec fn failed_analysis_text(last_error: Seq<char>) -> Seq<char> {
    "Failed to run Lakos analysis. All attempts failed. Last error: "@ + last_error
        + ". \nThis likely means:\n1. Lakos is not installed (run: dart pub global activate lakos)\n2. Dart SDK path issues in WSL environment\n3. Project is not a valid Dart/Flutter project"@
}

/// The places where the file of a library is looked for, in order: the name
/// below the project, with `.dart` behind it, and both below `lib`.
pub open spec fn candidates_of(library_name: Seq<char>, project_path: Seq<char>) -> Seq<Seq<char>> {
    seq![
        project_path + seq!['/'] + library_name,
        project_path + seq!['/'] + library_name + ".dart"@,
        project_path + "/lib/"@ + library_name,
        project_path + "/lib/"@ + library_name + ".dart"@,
    ]
}

/// The position of the first `true` in `flags`, their number where there is
/// none.
pub open spec fn first_true(flags: Seq<bool>) -> int
    decreases flags.len(),
{
    if flags.len() == 0 {
        0
    } else if flags[0] {
        0
    } else {
        1 + first_true(flags.drop_first())
    }
}

/// The position of the first `true` is none before the list begins.
pub proof fn lemma_first_true(flags: Seq<bool>)
    ensures
        0 <= first_true(flags) <= flags.len(),
    decreases flags.len(),
{
    if flags.len() > 0 && !flags[0] {
        lemma_first_true(flags.drop_first());
    }
}

/// One edge of the graph that `lakos` writes.
#[derive(Debug)]
pub struct LakosEdge {
    pub source: Option<String>,
    pub target: Option<String>,
    pub style: Option<String>,
    pub label: Option<String>,
}

/// An edge as plain mathematical values.
pub struct LakosEdgeView {
    pub source: Option<Seq<char>>,
    pub target: Option<Seq<char>>,
    pub style: Option<Seq<char>>,
    pub label: Option<Seq<char>>,
}

impl View for LakosEdge {
    type V = LakosEdgeView;

    open spec fn view(&self) -> LakosEdgeView {
        LakosEdgeView {
            source: self.source.deep_view(),
            target: self.target.deep_view(),
            style: self.style.deep_view(),
            label: self.label.deep_view(),
        }
    }
}

impl DeepView for LakosEdge {
    type V = LakosEdgeView;

    open spec fn deep_view(&self) -> LakosEdgeView {
        self@
    }
}

/// Whether an edge names both its ends.
pub open spec fn edge_is_complete(edge: LakosEdgeView) -> bool {
    edge.source is Some && edge.target is Some
}

/// Whether `dep` is the dependency that the complete edge `edge` stands
/// for: from its source to its target, an export where the edge is dashed
/// and an import otherwise, existing, with the label for its annotation.
pub open spec fn is_dependency_of(dep: RawDependency, edge: LakosEdgeView) -> bool {
    &&& Some(dep.source_file@) == edge.source
    &&& Some(dep.target_file@) == edge.target
    &&& (edge.style == Some("dashed"@) ==> dep.relationship_type is Export)
    &&& (edge.style != Some("dashed"@) ==> dep.relationship_type is Import)
    &&& dep.weight == DependencyWeight::Binary(true)
    &&& dep.line_number is None
    &&& dep.import_statement is None
    &&& dep.symbols@.len() == 0
    &&& dep.metadata.deep_view() == edge_metadata(edge.label)
}

/// The message that refuses an edge that does not name both its ends.
pub open spec fn incomplete_edge_text(edge: LakosEdgeView) -> Seq<char> {
    if edge.source is None {
        "Missing source in lakos edge"@
    } else {
        "Missing target in lakos edge"@
    }
}

/// The position of the first edge of `edges` that is not complete, their
/// number where all are.
pub open spec fn first_incomplete(edges: Seq<LakosEdgeView>) -> int
    decreases edges.len(),
{
    if edges.len() == 0 {
        0
    } else if !edge_is_complete(edges[0]) {
        0
    } else {
        1 + first_incomplete(edges.drop_first())
    }
}

/// The first incomplete edge stands within the list or at its end.
pub proof fn lemma_first_incomplete(edges: Seq<LakosEdgeView>)
    ensures
        0 <= first_incomplete(edges) <= edges.len(),
        first_incomplete(edges) < edges.len() ==> !edge_is_complete(edges[first_incomplete(edges)]),
        forall|i: int| 0 <= i < first_incomplete(edges) ==> edge_is_complete(#[trigger] edges[i]),
    decreases edges.len(),
{
    if edges.len() > 0 && edge_is_complete(edges[0]) {
        let rest = edges.drop_first();
        lemma_first_incomplete(rest);
        assert forall|i: int| 0 <= i < first_incomplete(edges) implies edge_is_complete(
            #[trigger] edges[i],
        ) by {
            if i > 0 {
                assert(edges[i] == rest[i - 1]);
            }
        }
        if first_incomplete(edges) < edges.len() {
            assert(edges[first_incomplete(edges)] == rest[first_incomplete(rest)]);
        }
    }
}

/// Whether `r` is what a list of edges becomes: the dependencies of the
/// edges, in order, or the refusal of the first edge that is not complete.
pub open spec fn is_parsed(r: Result<Vec<RawDependency>, String>, edges: Seq<LakosEdgeView>) -> bool {
    match r {
        Ok(deps) => {
            &&& first_incomplete(edges) == edges.len()
            &&& deps@.len() == edges.len()
            &&& forall|i: int| 0 <= i < edges.len() ==> is_dependency_of(#[trigger] deps@[i], edges[i])
        },
        Err(m) => {
            &&& first_incomplete(edges) < edges.len()
            &&& m@ == incomplete_edge_text(edges[first_incomplete(edges)])
        },
    }
}

/// The annotations of an edge: its label, where it has one.
pub open spec fn edge_metadata(label: Option<Seq<char>>) -> Seq<(Seq<char>, Seq<char>)> {
    match label {
        Some(l) => seq![("label"@, l)],
        None => Seq::empty(),
    }
}

impl LakosAnalyzer {
    /// The version that the analyzer reports.
    pub closed spec fn version_text(&self) -> Seq<char> {
        self.version@
    }

    /// The analyzer, at version 1.0.0.
    pub fn new() -> (analyzer: Self)
        ensures
            analyzer.version_text() == "1.0.0"@,
    {
        LakosAnalyzer { version: "1.0.0".to_owned() }
    }

    /// The name under which the analyzer is registered.
    pub fn name(&self) -> (name: String)
        ensures
            name@ == "lakos"@,
    {
        "lakos".to_owned()
    }

    /// The version of the analyzer.
    pub fn version(&self) -> (version: String)
        ensures
            version@ == self.version_text(),
    {
        self.version.clone()
    }

    /// What the analyzer can report: edges that exist or do not, of Dart
    /// files, quickly.
    pub fn capabilities(&self) -> (c: AnalyzerCapabilities)
        ensures
            !c.supports_weighted_analysis,
            !c.supports_symbol_tracking,
            !c.supports_line_numbers,
            !c.supports_dynamic_imports,
            c.supported_file_extensions.deep_view() == seq!["dart"@],
            c.performance_tier == PerformanceTier::Fast,
    {
        let mut extensions: Vec<String> = Vec::new();
        extensions.push("dart".to_owned());
        assert(extensions.deep_view() =~= seq!["dart"@]);
        AnalyzerCapabilities {
            supports_weighted_analysis: false,
            supports_symbol_tracking: false,
            supports_line_numbers: false,
            supports_dynamic_imports: false,
            supported_file_extensions: extensions,
            performance_tier: PerformanceTier::Fast,
        }
    }

    /// The JSON schema of the analyzer's settings.
    pub fn config_schema(&self) -> (schema: String)
        ensures
            schema@
                == "{\"properties\":{\"ignore_test\":{\"default\":false,\"description\":\"Ignore test files\",\"type\":\"boolean\"},\"include_metrics\":{\"default\":true,\"description\":\"Include dependency metrics\",\"type\":\"boolean\"}},\"type\":\"object\"}"@,
    {
        "{\"properties\":{\"ignore_test\":{\"default\":false,\"description\":\"Ignore test files\",\"type\":\"boolean\"},\"include_metrics\":{\"default\":true,\"description\":\"Include dependency metrics\",\"type\":\"boolean\"}},\"type\":\"object\"}".to_owned()
    }

    /// Whether a directory with the entries `file_names` holds a Dart
    /// project: one of them is `pubspec.yaml` or `pubspec.yml`.
    pub fn is_dart_project(file_names: &Vec<String>) -> (r: bool)
        ensures
            r == (file_names.deep_view().contains("pubspec.yaml"@) || file_names.deep_view().contains(
                "pubspec.yml"@,
            )),
    {
        let mut i: usize = 0;
        while i < file_names.len()
            invariant
                i <= file_names.len(),
                forall|j: int|
                    0 <= j < i ==> file_names.deep_view()[j] != "pubspec.yaml"@
                        && file_names.deep_view()[j] != "pubspec.yml"@,
            decreases file_names.len() - i,
        {
            assert(file_names.deep_view()[i as int] == file_names@[i as int]@);
            if same_text(file_names[i].as_str(), "pubspec.yaml") || same_text(
                file_names[i].as_str(),
                "pubspec.yml",
            ) {
                return true;
            }
            i = i + 1;
        }
        false
    }

    /// The arguments that `dart` is run with under `config`.
    pub fn lakos_arguments(config: &AnalysisConfig) -> (arguments: Vec<String>)
        ensures
            arguments.deep_view() == arguments_of(config@.ignore_patterns),
    {
        let mut arguments: Vec<String> = Vec::new();
        arguments.push("pub".to_owned());
        arguments.push("global".to_owned());
        arguments.push("run".to_owned());
        arguments.push("lakos".to_owned());
        arguments.push("--format=json".to_owned());
        arguments.push("--metrics".to_owned());
        arguments.push("--node-metrics".to_owned());
        let ghost head = arguments.deep_view();
        assert(head =~= seq![
            "pub"@,
            "global"@,
            "run"@,
            "lakos"@,
            "--format=json"@,
            "--metrics"@,
            "--node-metrics"@,
        ]);
        let ghost patterns = config@.ignore_patterns;
        let needle = chars_of("test");
        let mut i: usize = 0;
        assert(patterns.take(0) =~= Seq::<Seq<char>>::empty());
        assert(arguments.deep_view() =~= head + ignore_flags(patterns.take(0)));
        while i < config.ignore_patterns.len()
            invariant
                i <= config.ignore_patterns.len(),
                patterns == config.ignore_patterns.deep_view(),
                needle@ == "test"@,
                arguments.deep_view() == head + ignore_flags(patterns.take(i as int)),
            decreases config.ignore_patterns.len() - i,
        {
            let ghost before = arguments.deep_view();
            proof {
                assert(patterns.take(i + 1).drop_last() =~= patterns.take(i as int));
                assert(patterns.take(i + 1).last() == patterns[i as int]);
                assert(patterns[i as int] == config.ignore_patterns@[i as int]@);
            }
            let pattern = chars_of(config.ignore_patterns[i].as_str());
            if contains_text(&pattern, &needle) {
                arguments.push("--ignore=**/*test*/**".to_owned());
                assert(arguments.deep_view() =~= before.push("--ignore=**/*test*/**"@));
            }
            i = i + 1;
        }
        assert(patterns.take(config.ignore_patterns.len() as int) =~= patterns);
        let ghost before = arguments.deep_view();
        arguments.push(".".to_owned());
        assert(arguments.deep_view() =~= before.push("."@));
        arguments
    }

    /// Reads the end of a run of `program`: the output of a process that ran
    /// `lakos` to its end, with or without cycles, or the message that says
    /// how the run failed.
    pub fn run_lakos(program: &str, outcome: Result<ProcessOutput, String>) -> (r: Result<
        String,
        String,
    >)
        ensures
            match outcome {
                Ok(output) => if ran_to_end(output.success, output.code) {
                    r == Ok::<String, String>(output.stdout)
                } else {
                    r matches Err(m) && m@ == failed_run_text(program@, output.code, output.stderr@)
                },
                Err(reason) => r matches Err(m) && m@ == failed_start_text(program@, reason@),
            },
    {
        match outcome {
            Ok(output) => {
                let cycles = match output.code {
                    Some(c) => c == EXIT_CYCLES_DETECTED,
                    None => false,
                };
                if output.success || cycles {
                    Ok(output.stdout)
                } else {
                    let mut out = chars_of("Command '");
                    push_str(&mut out, program);
                    push_str(&mut out, "' failed with exit code ");
                    let code = match output.code {
                        Some(c) => c,
                        None => -1,
                    };
                    push_signed(&mut out, code);
                    push_str(&mut out, ": ");
                    push_str(&mut out, output.stderr.as_str());
                    Err(string_of(&out))
                }
            },
            Err(reason) => {
                let mut out = chars_of("Failed to run '");
                push_str(&mut out, program);
                push_str(&mut out, "': ");
                push_str(&mut out, reason.as_str());
                Err(string_of(&out))
            },
        }
    }

    /// Whether the listing of the activated packages in `output` shows that
    /// `lakos` is installed: the listing succeeded and names it. A listing
    /// made through the shell must not say that `dart` was not found.
    pub fn is_available(output: &ProcessOutput, through_shell: bool) -> (r: bool)
        ensures
            r == (output.success && holds_text(output.stdout@, "lakos"@) && (through_shell
                ==> !holds_text(output.stdout@, "dart not found"@))),
    {
        if !output.success {
            return false;
        }
        let listing = chars_of(output.stdout.as_str());
        let named = contains_text(&listing, &chars_of("lakos"));
        if through_shell {
            named && !contains_text(&listing, &chars_of("dart not found"))
        } else {
            named
        }
    }

    /// Reads the end of an attempt to install `lakos` with `program`: it
    /// succeeded, or the message that says how it failed.
    pub fn install(program: &str, outcome: &Result<ProcessOutput, String>, through_shell: bool) -> (r:
        Result<(), String>)
        ensures
            r is Ok <==> (outcome matches Ok(output) && output.success),
            r matches Err(m) ==> m@ == match outcome {
                Ok(output) => if through_shell {
                    "Bash wrapper failed: "@ + output.stderr@
                } else {
                    "Command '"@ + program@ + "' failed: "@ + output.stderr@
                },
                Err(reason) => if through_shell {
                    "Bash wrapper execution failed: "@ + reason@
                } else {
                    "Failed to run '"@ + program@ + "': "@ + reason@
                },
            },
    {
        match outcome {
            Ok(output) => {
                if output.success {
                    return Ok(());
                }
                let mut out: Vec<char> = Vec::new();
                if through_shell {
                    push_str(&mut out, "Bash wrapper failed: ");
                } else {
                    push_str(&mut out, "Command '");
                    push_str(&mut out, program);
                    push_str(&mut out, "' failed: ");
                }
                push_str(&mut out, output.stderr.as_str());
                Err(string_of(&out))
            },
            Err(reason) => {
                let mut out: Vec<char> = Vec::new();
                if through_shell {
                    push_str(&mut out, "Bash wrapper execution failed: ");
                } else {
                    push_str(&mut out, "Failed to run '");
                    push_str(&mut out, program);
                    push_str(&mut out, "': ");
                }
                push_str(&mut out, reason.as_str());
                Err(string_of(&out))
            },
        }
    }

    /// The message for an installation in which no attempt succeeded, the
    /// last of which failed with `last_error`.
    pub fn install_failure_message(last_error: &str) -> (m: String)
        ensures
            m@ == "Failed to install Lakos. Last error: "@ + last_error@,
    {
        let mut out = chars_of("Failed to install Lakos. Last error: ");
        push_str(&mut out, last_error);
        string_of(&out)
    }

    /// The message for a run in which no attempt succeeded, the last of
    /// which failed with `last_error`.
    pub fn failure_message(last_error: &str) -> (m: String)
        ensures
            m@ == failed_analysis_text(last_error@),
    {
        let mut out = chars_of("Failed to run Lakos analysis. All attempts failed. Last error: ");
        push_str(&mut out, last_error);
        push_str(
            &mut out,
            ". \nThis likely means:\n1. Lakos is not installed (run: dart pub global activate lakos)\n2. Dart SDK path issues in WSL environment\n3. Project is not a valid Dart/Flutter project",
        );
        string_of(&out)
    }

    /// The places where the file of the library `library_name` is looked
    /// for below `project_path`, in order.
    pub fn library_path_candidates(library_name: &str, project_path: &str) -> (c: Vec<String>)
        ensures
            c@.len() == 4,
            c.deep_view() == candidates_of(library_name@, project_path@),
    {
        let mut direct = chars_of(project_path);
        direct.push('/');
        push_str(&mut direct, library_name);
        let mut direct_dart = chars_of(project_path);
        direct_dart.push('/');
        push_str(&mut direct_dart, library_name);
        push_str(&mut direct_dart, ".dart");
        let mut below_lib = chars_of(project_path);
        push_str(&mut below_lib, "/lib/");
        push_str(&mut below_lib, library_name);
        let mut below_lib_dart = chars_of(project_path);
        push_str(&mut below_lib_dart, "/lib/");
        push_str(&mut below_lib_dart, library_name);
        push_str(&mut below_lib_dart, ".dart");
        assert(direct@ =~= project_path@ + seq!['/'] + library_name@);
        assert(direct_dart@ =~= project_path@ + seq!['/'] + library_name@ + ".dart"@);
        assert(below_lib@ =~= project_path@ + "/lib/"@ + library_name@);
        assert(below_lib_dart@ =~= project_path@ + "/lib/"@ + library_name@ + ".dart"@);
        let mut c: Vec<String> = Vec::new();
        c.push(string_of(&direct));
        c.push(string_of(&direct_dart));
        c.push(string_of(&below_lib));
        c.push(string_of(&below_lib_dart));
        assert(c.deep_view() =~= candidates_of(library_name@, project_path@));
        c
    }

    /// The file of the library `library_name` below `project_path`, given
    /// for each candidate, in order, whether it is there: the first that is
    /// there, and the name below the project where none is. A candidate that
    /// nothing is said of counts as not there.
    pub fn library_name_to_file_path(
        library_name: &str,
        project_path: &str,
        exists: &Vec<bool>,
    ) -> (path: String)
        ensures
            path@ == if first_true(exists@) < 4 && first_true(exists@) < exists@.len() {
                candidates_of(library_name@, project_path@)[first_true(exists@)]
            } else {
                candidates_of(library_name@, project_path@)[0]
            },
    {
        let candidates = Self::library_path_candidates(library_name, project_path);
        let ghost all = candidates.deep_view();
        let mut i: usize = 0;
        assert(exists@.skip(0) =~= exists@);
        while i < 4 && i < exists.len()
            invariant
                i <= 4,
                i <= exists@.len(),
                candidates@.len() == 4,
                all == candidates.deep_view(),
                all == candidates_of(library_name@, project_path@),
                first_true(exists@) == i + first_true(exists@.skip(i as int)),
            decreases 4 - i,
        {
            assert(exists@.skip(i as int)[0] == exists@[i as int]);
            assert(exists@.skip(i as int).drop_first() =~= exists@.skip(i + 1));
            if exists[i] {
                assert(all[i as int] == candidates@[i as int]@);
                return candidates[i].clone();
            }
            i = i + 1;
        }
        proof {
            if i == exists@.len() {
                assert(exists@.skip(i as int) =~= Seq::<bool>::empty());
            } else {
                lemma_first_true(exists@.skip(i as int));
            }
        }
        assert(all[0] == candidates@[0]@);
        candidates[0].clone()
    }

    /// The dependency that an edge stands for. An edge without source or
    /// target is refused.
    pub fn parse_lakos_edge(edge: LakosEdge) -> (r: Result<RawDependency, String>)
        ensures
            r is Ok <==> edge_is_complete(edge@),
            r matches Ok(dep) ==> is_dependency_of(dep, edge@),
            r matches Err(m) ==> m@ == incomplete_edge_text(edge@),
    {
        let LakosEdge { source, target, style, label } = edge;
        let source_file = match source {
            Some(s) => s,
            None => {
                return Err("Missing source in lakos edge".to_owned());
            },
        };
        let target_file = match target {
            Some(t) => t,
            None => {
                return Err("Missing target in lakos edge".to_owned());
            },
        };
        let dashed = match &style {
            Some(s) => same_text(s.as_str(), "dashed"),
            None => false,
        };
        let relationship_type = if dashed {
            RelationshipType::Export
        } else {
            RelationshipType::Import
        };
        let mut metadata: Vec<(String, String)> = Vec::new();
        match label {
            Some(l) => {
                metadata.push(("label".to_owned(), l));
                assert(metadata.deep_view() =~= seq![("label"@, l@)]);
            },
            None => {
                assert(metadata.deep_view() =~= Seq::<(Seq<char>, Seq<char>)>::empty());
            },
        }
        Ok(
            RawDependency {
                source_file,
                target_file,
                relationship_type,
                weight: DependencyWeight::Binary(true),
                line_number: None,
                import_statement: None,
                symbols: Vec::new(),
                metadata,
            },
        )
    }

    /// The dependencies that the edges stand for, in order, or the refusal
    /// of the first edge without source or target.
    pub fn parse_lakos_edges(edges: Vec<LakosEdge>) -> (r: Result<Vec<RawDependency>, String>)
        ensures
            is_parsed(r, edges.deep_view()),
            r is Ok <==> forall|i: int|
                0 <= i < edges.deep_view().len() ==> edge_is_complete(#[trigger] edges.deep_view()[i]),
    {
        let ghost all = edges.deep_view();
        proof {
            lemma_first_incomplete(all);
        }
        let mut dependencies: Vec<RawDependency> = Vec::new();
        let mut rest = edges;
        let mut taken: usize = 0;
        let total = rest.len();
        assert(all.skip(0) =~= all);
        // The edges are taken from the end of the reversed list, that is
        // from the front of the list.
        let mut reversed: Vec<LakosEdge> = Vec::new();
        while rest.len() > 0
            invariant
                rest@.len() + reversed@.len() == total,
                total == all.len(),
                forall|j: int| 0 <= j < rest@.len() ==> (#[trigger] rest@[j])@ == all[j],
                forall|j: int|
                    0 <= j < reversed@.len() ==> (#[trigger] reversed@[j])@ == all[total - 1 - j],
            decreases rest.len(),
        {
            let ghost before = rest@;
            let ghost done = reversed@;
            let edge = rest.pop().unwrap();
            assert(edge@ == all[before.len() - 1]) by {
                assert(before[before.len() - 1]@ == all[before.len() - 1]);
            }
            reversed.push(edge);
            assert forall|j: int| 0 <= j < reversed@.len() implies (#[trigger] reversed@[j])@
                == all[total - 1 - j] by {
                if j < done.len() {
                    assert(reversed@[j] == done[j]);
                }
            }
            assert forall|j: int| 0 <= j < rest@.len() implies (#[trigger] rest@[j])@ == all[j] by {
                assert(rest@[j] == before[j]);
            }
        }
        while reversed.len() > 0
            invariant
                taken + reversed@.len() == total,
                total == all.len(),
                all == edges.deep_view(),
                dependencies@.len() == taken,
                first_incomplete(all) == taken + first_incomplete(all.skip(taken as int)),
                forall|j: int| 0 <= j < taken ==> is_dependency_of(#[trigger] dependencies@[j], all[j]),
                forall|j: int|
                    0 <= j < reversed@.len() ==> (#[trigger] reversed@[j])@ == all[total - 1 - j],
            decreases reversed.len(),
        {
            let ghost before = reversed@;
            let ghost deps = dependencies@;
            let edge = reversed.pop().unwrap();
            proof {
                assert(before[before.len() - 1]@ == all[total - 1 - (before.len() - 1)]);
                assert(edge@ == all[taken as int]);
                assert(all.skip(taken as int)[0] == all[taken as int]);
                assert(all.skip(taken as int).drop_first() =~= all.skip(taken + 1));
            }
            match Self::parse_lakos_edge(edge) {
                Ok(dep) => {
                    dependencies.push(dep);
                    assert forall|j: int| 0 <= j < taken + 1 implies is_dependency_of(
                        #[trigger] dependencies@[j],
                        all[j],
                    ) by {
                        if j < taken {
                            assert(dependencies@[j] == deps[j]);
                        }
                    }
                },
                Err(m) => {
                    return Err(m);
                },
            }
            assert forall|j: int| 0 <= j < reversed@.len() implies (#[trigger] reversed@[j])@
                == all[total - 1 - j] by {
                assert(reversed@[j] == before[j]);
            }
            taken = taken + 1;
        }
        assert(all.skip(total as int) =~= Seq::<LakosEdgeView>::empty());
        Ok(dependencies)
    }
}

/// What an attempt is made for.
#[derive(Debug, Clone, Copy, PartialEq, Eq, Structural)]
pub enum AttemptKind {
    /// To run `lakos` on a project.
    Run,
    /// To list the activated packages.
    List,
    /// To install `lakos`.
    Install,
}

/// How many attempts are made: with two `dart` programs, then through the
/// shell.
pub const ATTEMPTS: usize = 3;

/// The program of the attempt at position `i`: the two `dart` programs in
/// order, then the shell.
pub open spec fn attempt_program(i: int) -> Seq<char> {
    if i == 0 {
        "/mnt/c/Flutter/flutter/bin/cache/dart-sdk/bin/dart.exe"@
    } else if i == 1 {
        "/mnt/c/Flutter/flutter/bin/dart.bat"@
    } else {
        "bash"@
    }
}

/// Whether the attempt at position `i` goes through the shell.
pub open spec fn attempt_through_shell(i: int) -> bool {
    i >= 2
}

/// Whether `output` lists `lakos` among the activated packages.
pub open spec fn lists_lakos(output: ProcessOutput, through_shell: bool) -> bool {
    output.success && holds_text(output.stdout@, "lakos"@) && (through_shell ==> !holds_text(
        output.stdout@,
        "dart not found"@,
    ))
}

/// Whether the attempt at position `i` that ended with `outcome` ends the
/// attempts with success: a run that ran to its end, a listing by a `dart`
/// program that shows `lakos`, an installation that succeeded.
pub open spec fn attempt_succeeds(kind: AttemptKind, i: int, outcome: Result<ProcessOutput, String>) -> bool {
    match outcome {
        Ok(output) => match kind {
            AttemptKind::Run => ran_to_end(output.success, output.code),
            AttemptKind::List => !attempt_through_shell(i) && lists_lakos(output, false),
            AttemptKind::Install => output.success,
        },
        Err(_) => false,
    }
}

/// The position, from `from` on, of the first attempt that ends the
/// attempts with success; the number of outcomes where there is none.
pub open spec fn first_success(
    kind: AttemptKind,
    outcomes: Seq<Result<ProcessOutput, String>>,
    from: int,
) -> int
    decreases outcomes.len() - from,
{
    if from < 0 || from >= outcomes.len() {
        outcomes.len() as int
    } else if attempt_succeeds(kind, from, outcomes[from]) {
        from
    } else {
        first_success(kind, outcomes, from + 1)
    }
}

/// The message for the attempt at position `i` to run `lakos` that ended
/// with `outcome` and did not run to its end.
pub open spec fn run_failure_text(i: int, outcome: Result<ProcessOutput, String>) -> Seq<char> {
    match outcome {
        Ok(output) => if attempt_through_shell(i) {
            "Bash wrapper failed with exit code "@ + signed_digits(exit_code_of(output.code))
                + ": "@ + output.stderr@
        } else {
            failed_run_text(attempt_program(i), output.code, output.stderr@)
        },
        Err(reason) => if attempt_through_shell(i) {
            "Bash wrapper execution failed: "@ + reason@
        } else {
            failed_start_text(attempt_program(i), reason@)
        },
    }
}

/// The message for the attempt at position `i` to install `lakos` that
/// ended with `outcome` and did not succeed.
pub open spec fn install_failure_text(i: int, outcome: Result<ProcessOutput, String>) -> Seq<char> {
    match outcome {
        Ok(output) => if attempt_through_shell(i) {
            "Bash wrapper failed: "@ + output.stderr@
        } else {
            "Command '"@ + attempt_program(i) + "' failed: "@ + output.stderr@
        },
        Err(reason) => if attempt_through_shell(i) {
            "Bash wrapper execution failed: "@ + reason@
        } else {
            "Failed to run '"@ + attempt_program(i) + "': "@ + reason@
        },
    }
}

/// What is known of a project before `lakos` is run on it.
#[derive(Debug)]
pub struct LakosProject {
    /// The directory of the project.
    pub path: String,
    /// Whether the directory is there.
    pub exists: bool,
    /// Whether the directory holds `pubspec.yaml`.
    pub has_pubspec: bool,
    /// Whether `lakos` is installed.
    pub lakos_available: bool,
}

/// What is done next in a row of attempts.
#[derive(Debug, PartialEq, Eq)]
pub enum LakosStep<T> {
    /// Run `program`, through the shell or not, and hand in how it ended.
    Attempt { program: String, through_shell: bool },
    /// The attempts are over, with this result.
    Finished(T),
}

/// A step of a row of attempts as plain mathematical values.
pub enum LakosStepView<T> {
    Attempt { program: Seq<char>, through_shell: bool },
    Finished(T),
}

/// The next attempt after `made` attempts.
pub open spec fn next_attempt<T>(made: int) -> LakosStepView<T> {
    LakosStepView::Attempt {
        program: attempt_program(made),
        through_shell: attempt_through_shell(made),
    }
}

/// What is done next to run `lakos` on `project` after the attempts that
/// ended with `outcomes`. A project whose directory is missing or holds no
/// `pubspec.yaml` is refused, and so is a run without `lakos`, each before
/// any attempt. Else the output of the first attempt that ran to its end is
/// the result; without one the next of the three attempts is made, and
/// after the third the run fails with the failure of the last attempt.
pub open spec fn lakos_step_of(project: LakosProject, outcomes: Seq<Result<ProcessOutput, String>>) -> LakosStepView<
    Result<Seq<char>, Seq<char>>,
> {
    let won = first_success(AttemptKind::Run, outcomes, 0);
    if !project.exists {
        LakosStepView::Finished(Err("Project path does not exist: "@ + project.path@))
    } else if !project.has_pubspec {
        LakosStepView::Finished(Err("No pubspec.yaml found - not a valid Dart project"@))
    } else if !project.lakos_available {
        LakosStepView::Finished(Err("Lakos is not installed or not available"@))
    } else if won < outcomes.len() {
        LakosStepView::Finished(Ok(outcomes[won]->Ok_0.stdout@))
    } else if outcomes.len() < ATTEMPTS {
        next_attempt(outcomes.len() as int)
    } else {
        LakosStepView::Finished(
            Err(failed_analysis_text(run_failure_text(outcomes.len() - 1, outcomes.last()))),
        )
    }
}

/// What is done next to find out whether `lakos` is installed after the
/// listings that ended with `outcomes`: it is, as soon as a `dart` program
/// lists it; after both, the listing through the shell decides.
pub open spec fn availability_step_of(outcomes: Seq<Result<ProcessOutput, String>>) -> LakosStepView<
    bool,
> {
    let won = first_success(AttemptKind::List, outcomes, 0);
    if won < outcomes.len() {
        LakosStepView::Finished(true)
    } else if outcomes.len() < ATTEMPTS {
        next_attempt(outcomes.len() as int)
    } else {
        LakosStepView::Finished(
            outcomes.last() matches Ok(output) && lists_lakos(
                output,
                attempt_through_shell(outcomes.len() - 1),
            ),
        )
    }
}

/// What is done next to install `lakos` after the attempts that ended with
/// `outcomes`: nothing more after the first that succeeded; without one the
/// next of the three attempts, and after the third the installation fails
/// with the failure of the last attempt.
pub open spec fn install_step_of(outcomes: Seq<Result<ProcessOutput, String>>) -> LakosStepView<
    Result<(), Seq<char>>,
> {
    let won = first_success(AttemptKind::Install, outcomes, 0);
    if won < outcomes.len() {
        LakosStepView::Finished(Ok(()))
    } else if outcomes.len() < ATTEMPTS {
        next_attempt(outcomes.len() as int)
    } else {
        LakosStepView::Finished(
            Err(
                "Failed to install Lakos. Last error: "@ + install_failure_text(
                    outcomes.len() - 1,
                    outcomes.last(),
                ),
            ),
        )
    }
}

/// Whether `step` asks for the attempt, or ends with the result, that
/// `view` says.
pub open spec fn is_run_step(step: LakosStep<Result<String, String>>, view: LakosStepView<Result<Seq<char>, Seq<char>>>) -> bool {
    match (step, view) {
        (
            LakosStep::Attempt { program, through_shell },
            LakosStepView::Attempt { program: p, through_shell: t },
        ) => program@ == p && through_shell == t,
        (LakosStep::Finished(Ok(out)), LakosStepView::Finished(Ok(o))) => out@ == o,
        (LakosStep::Finished(Err(m)), LakosStepView::Finished(Err(e))) => m@ == e,
        _ => false,
    }
}

/// Whether `step` asks for the attempt, or ends with the answer, that `view`
/// says.
pub open spec fn is_availability_step(step: LakosStep<bool>, view: LakosStepView<bool>) -> bool {
    match (step, view) {
        (
            LakosStep::Attempt { program, through_shell },
            LakosStepView::Attempt { program: p, through_shell: t },
        ) => program@ == p && through_shell == t,
        (LakosStep::Finished(a), LakosStepView::Finished(b)) => a == b,
        _ => false,
    }
}

/// Whether `step` asks for the attempt, or ends with the result, that
/// `view` says.
pub open spec fn is_install_step(step: LakosStep<Result<(), String>>, view: LakosStepView<Result<(), Seq<char>>>) -> bool {
    match (step, view) {
        (
            LakosStep::Attempt { program, through_shell },
            LakosStepView::Attempt { program: p, through_shell: t },
        ) => program@ == p && through_shell == t,
        (LakosStep::Finished(Ok(_)), LakosStepView::Finished(Ok(_))) => true,
        (LakosStep::Finished(Err(m)), LakosStepView::Finished(Err(e))) => m@ == e,
        _ => false,
    }
}

fn attempt_program_of(i: usize) -> (program: String)
    ensures
        program@ == attempt_program(i as int),
{
    if i == 0 {
        "/mnt/c/Flutter/flutter/bin/cache/dart-sdk/bin/dart.exe".to_owned()
    } else if i == 1 {
        "/mnt/c/Flutter/flutter/bin/dart.bat".to_owned()
    } else {
        "bash".to_owned()
    }
}

fn succeeds(kind: AttemptKind, i: usize, outcome: &Result<ProcessOutput, String>) -> (r: bool)
    ensures
        r == attempt_succeeds(kind, i as int, *outcome),
{
    match outcome {
        Ok(output) => match kind {
            AttemptKind::Run => {
                let cycles = match output.code {
                    Some(c) => c == EXIT_CYCLES_DETECTED,
                    None => false,
                };
                output.success || cycles
            },
            AttemptKind::List => i < 2 && LakosAnalyzer::is_available(output, false),
            AttemptKind::Install => output.success,
        },
        Err(_) => false,
    }
}

fn find_success(kind: AttemptKind, outcomes: &Vec<Result<ProcessOutput, String>>) -> (won: usize)
    ensures
        won == first_success(kind, outcomes@, 0),
        won <= outcomes@.len(),
        won < outcomes@.len() ==> attempt_succeeds(kind, won as int, outcomes@[won as int]),
        forall|j: int| 0 <= j < won ==> !attempt_succeeds(kind, j, #[trigger] outcomes@[j]),
{
    let mut i: usize = 0;
    while i < outcomes.len()
        invariant
            i <= outcomes.len(),
            first_success(kind, outcomes@, 0) == first_success(kind, outcomes@, i as int),
            forall|j: int| 0 <= j < i ==> !attempt_succeeds(kind, j, #[trigger] outcomes@[j]),
        decreases outcomes.len() - i,
    {
        if succeeds(kind, i, &outcomes[i]) {
            return i;
        }
        i = i + 1;
    }
    i
}

impl LakosAnalyzer {
    /// The two `dart` programs that are tried, in order, and the shell.
    pub fn attempt_programs() -> (programs: Vec<String>)
        ensures
            programs.deep_view() == seq![attempt_program(0), attempt_program(1), attempt_program(2)],
    {
        let mut programs: Vec<String> = Vec::new();
        programs.push(attempt_program_of(0));
        programs.push(attempt_program_of(1));
        programs.push(attempt_program_of(2));
        assert(programs.deep_view() =~= seq![
            attempt_program(0),
            attempt_program(1),
            attempt_program(2),
        ]);
        programs
    }

    /// What is done next to run `lakos` on `project` after the attempts
    /// that ended with `outcomes`.
    pub fn next_lakos_step(project: &LakosProject, outcomes: &Vec<Result<ProcessOutput, String>>) -> (step:
        LakosStep<Result<String, String>>)
        ensures
            is_run_step(step, lakos_step_of(*project, outcomes@)),
    {
        if !project.exists {
            let mut out = chars_of("Project path does not exist: ");
            push_str(&mut out, project.path.as_str());
            return LakosStep::Finished(Err(string_of(&out)));
        }
        if !project.has_pubspec {
            return LakosStep::Finished(
                Err("No pubspec.yaml found - not a valid Dart project".to_owned()),
            );
        }
        if !project.lakos_available {
            return LakosStep::Finished(Err("Lakos is not installed or not available".to_owned()));
        }
        let made = outcomes.len();
        let won = find_success(AttemptKind::Run, outcomes);
        if won < made {
            match &outcomes[won] {
                Ok(output) => LakosStep::Finished(Ok(output.stdout.clone())),
                Err(reason) => LakosStep::Finished(Err(reason.clone())),
            }
        } else if made < ATTEMPTS {
            LakosStep::Attempt { program: attempt_program_of(made), through_shell: made >= 2 }
        } else {
            let last = made - 1;
            assert(!attempt_succeeds(AttemptKind::Run, last as int, outcomes@[last as int]));
            assert(outcomes@.last() == outcomes@[last as int]);
            let failure = match &outcomes[last] {
                Ok(output) => {
                    if last >= 2 {
                        let mut out = chars_of("Bash wrapper failed with exit code ");
                        let code = match output.code {
                            Some(c) => c,
                            None => -1,
                        };
                        push_signed(&mut out, code);
                        push_str(&mut out, ": ");
                        push_str(&mut out, output.stderr.as_str());
                        string_of(&out)
                    } else {
                        let program = attempt_program_of(last);
                        let mut out = chars_of("Command '");
                        push_str(&mut out, program.as_str());
                        push_str(&mut out, "' failed with exit code ");
                        let code = match output.code {
                            Some(c) => c,
                            None => -1,
                        };
                        push_signed(&mut out, code);
                        push_str(&mut out, ": ");
                        push_str(&mut out, output.stderr.as_str());
                        string_of(&out)
                    }
                },
                Err(reason) => {
                    if last >= 2 {
                        let mut out = chars_of("Bash wrapper execution failed: ");
                        push_str(&mut out, reason.as_str());
                        string_of(&out)
                    } else {
                        let program = attempt_program_of(last);
                        let mut out = chars_of("Failed to run '");
                        push_str(&mut out, program.as_str());
                        push_str(&mut out, "': ");
                        push_str(&mut out, reason.as_str());
                        string_of(&out)
                    }
                },
            };
            LakosStep::Finished(Err(Self::failure_message(failure.as_str())))
        }
    }

    /// What is done next to find out whether `lakos` is installed after the
    /// listings that ended with `outcomes`.
    pub fn next_availability_step(outcomes: &Vec<Result<ProcessOutput, String>>) -> (step:
        LakosStep<bool>)
        ensures
            is_availability_step(step, availability_step_of(outcomes@)),
    {
        let made = outcomes.len();
        let won = find_success(AttemptKind::List, outcomes);
        if won < made {
            LakosStep::Finished(true)
        } else if made < ATTEMPTS {
            LakosStep::Attempt { program: attempt_program_of(made), through_shell: made >= 2 }
        } else {
            let last = made - 1;
            assert(outcomes@.last() == outcomes@[last as int]);
            match &outcomes[last] {
                Ok(output) => LakosStep::Finished(Self::is_available(output, last >= 2)),
                Err(_) => LakosStep::Finished(false),
            }
        }
    }

    /// What is done next to install `lakos` after the attempts that ended
    /// with `outcomes`.
    pub fn next_install_step(outcomes: &Vec<Result<ProcessOutput, String>>) -> (step: LakosStep<
        Result<(), String>,
    >)
        ensures
            is_install_step(step, install_step_of(outcomes@)),
    {
        let made = outcomes.len();
        let won = find_success(AttemptKind::Install, outcomes);
        if won < made {
            LakosStep::Finished(Ok(()))
        } else if made < ATTEMPTS {
            LakosStep::Attempt { program: attempt_program_of(made), through_shell: made >= 2 }
        } else {
            let last = made - 1;
            assert(!attempt_succeeds(AttemptKind::Install, last as int, outcomes@[last as int]));
            assert(outcomes@.last() == outcomes@[last as int]);
            let program = attempt_program_of(last);
            match Self::install(program.as_str(), &outcomes[last], last >= 2) {
                Ok(_) => LakosStep::Finished(Ok(())),
                Err(failure) => LakosStep::Finished(
                    Err(Self::install_failure_message(failure.as_str())),
                ),
            }
        }
    }
}

/// The issues of an analysis of a directory: a warning where it holds no
/// project file.
pub open spec fn issues_for(issues: Seq<AnalysisIssue>, is_project: bool) -> bool {
    if is_project {
        issues.len() == 0
    } else {
        &&& issues.len() == 1
        &&& issues[0].level == IssueLevel::Warning
        &&& issues[0].message@ == "No pubspec.yaml found - may not be a Dart/Flutter project"@
        &&& issues[0].file_path is None
        &&& issues[0].line_number is None
    }
}

impl LakosAnalyzer {
    /// The result of an analysis of the directory `project_path` that found
    /// the files `dart_files` and the dependencies `dependencies`, took
    /// `duration_ms` and ended at `now`. Every file found counts as
    /// analyzed; a directory without a project file is warned of.
    pub fn analyze_project(
        &self,
        project_path: &str,
        is_project: bool,
        dart_files: Vec<String>,
        dependencies: Vec<RawDependency>,
        duration_ms: u64,
        now: i64,
    ) -> (result: AnalysisResult)
        ensures
            result.dependencies == dependencies,
            result.analyzed_files == dart_files,
            result.skipped_files@.len() == 0,
            result.enhanced_dependencies is None,
            result.global_metrics is None,
            result.node_metrics is None,
            result.architecture_quality_score is None,
            result.analyzer_name@ == "lakos"@,
            result.analyzer_version@ == self.version_text(),
            result.analysis_timestamp == now,
            result.project_path@ == project_path@,
            result.metrics == (AnalysisMetrics {
                total_files_found: dart_files.len(),
                files_analyzed: dart_files.len(),
                files_skipped: 0,
                dependencies_found: dependencies.len(),
                analysis_duration_ms: duration_ms,
            }),
            issues_for(result.issues@, is_project),
    {
        let mut issues: Vec<AnalysisIssue> = Vec::new();
        if !is_project {
            issues.push(
                AnalysisIssue {
                    level: IssueLevel::Warning,
                    message: "No pubspec.yaml found - may not be a Dart/Flutter project".to_owned(),
                    file_path: None,
                    line_number: None,
                },
            );
        }
        let metrics = AnalysisMetrics {
            total_files_found: dart_files.len(),
            files_analyzed: dart_files.len(),
            files_skipped: 0,
            dependencies_found: dependencies.len(),
            analysis_duration_ms: duration_ms,
        };
        AnalysisResult {
            dependencies,
            enhanced_dependencies: None,
            global_metrics: None,
            node_metrics: None,
            architecture_quality_score: None,
            analyzer_name: self.name(),
            analyzer_version: self.version(),
            analysis_timestamp: now,
            project_path: project_path.to_owned(),
            analyzed_files: dart_files,
            skipped_files: Vec::new(),
            metrics,
            issues,
        }
    }
}

impl Default for LakosAnalyzer {
    fn default() -> (analyzer: Self)
        ensures
            analyzer.version_text() == "1.0.0"@,
    {
        LakosAnalyzer::new()
    }
}

/// A JSON value of the `serde_json` crate.
#[verifier::external_type_specification]
#[verifier::external_body]
pub struct ExJsonValue(serde_json::Value);

/// What the `serde_json` crate reports of a text that is no JSON.
#[verifier::external_type_specification]
#[verifier::external_body]
pub struct ExJsonError(serde_json::Error);

/// The JSON value that the text `text` is read as, where it is JSON.
pub uninterp spec fn json_document(text: Seq<char>) -> Option<serde_json::Value>;

/// What the JSON object `value` holds under `key`; nothing where `value` is
/// no object or holds nothing under the key.
pub uninterp spec fn json_member(value: serde_json::Value, key: Seq<char>) -> Option<
    serde_json::Value,
>;

/// The text of `value`, where `value` is a JSON string.
pub uninterp spec fn json_string(value: serde_json::Value) -> Option<Seq<char>>;

/// The items of `value`, where `value` is a JSON array.
pub uninterp spec fn json_items(value: serde_json::Value) -> Option<Seq<serde_json::Value>>;

/// `serde_json::from_str` for a value: what a text is read as depends on the
/// text alone, and a text that is no JSON is refused.
#[verifier::external_body]
fn read_document(text: &str) -> (r: Result<serde_json::Value, serde_json::Error>)
    ensures
        match r {
            Ok(value) => json_document(text@) == Some(value),
            Err(_) => json_document(text@) is None,
        },
{
    serde_json::from_str(text)
}

/// `Value::get` of the `serde_json` crate with a text for the index: what an
/// object holds under the key.
#[verifier::external_body]
fn member<'a>(value: &'a serde_json::Value, key: &str) -> (r: Option<&'a serde_json::Value>)
    ensures
        match r {
            Some(found) => json_member(*value, key@) == Some(*found),
            None => json_member(*value, key@) is None,
        },
{
    value.get(key)
}

/// `Value::as_str` of the `serde_json` crate: the text of a JSON string,
/// nothing for any other value.
pub assume_specification[ serde_json::Value::as_str ](value: &serde_json::Value) -> (r: Option<
    &str,
>)
    ensures
        match r {
            Some(text) => json_string(*value) == Some(text@),
            None => json_string(*value) is None,
        },
;

/// `Value::as_array` of the `serde_json` crate: the items of a JSON array,
/// nothing for any other value.
pub assume_specification[ serde_json::Value::as_array ](value: &serde_json::Value) -> (r: Option<
    &Vec<serde_json::Value>,
>)
    ensures
        match r {
            Some(items) => json_items(*value) == Some(items@),
            None => json_items(*value) is None,
        },
;

/// The text that the JSON object `value` holds under `key`.
pub open spec fn member_text(value: serde_json::Value, key: Seq<char>) -> Option<Seq<char>> {
    match json_member(value, key) {
        Some(found) => json_string(found),
        None => None,
    }
}

/// The edge that the JSON object `value` describes.
pub open spec fn edge_view_of(value: serde_json::Value) -> LakosEdgeView {
    LakosEdgeView {
        source: member_text(value, "source"@),
        target: member_text(value, "target"@),
        style: member_text(value, "style"@),
        label: member_text(value, "label"@),
    }
}

/// The edges of the graph that the JSON document `document` describes: the
/// items of its member `edges`, none where it has no such array.
pub open spec fn edges_in(document: serde_json::Value) -> Seq<LakosEdgeView> {
    match json_member(document, "edges"@) {
        Some(edges) => match json_items(edges) {
            Some(items) => items.map_values(|item: serde_json::Value| edge_view_of(item)),
            None => Seq::empty(),
        },
        None => Seq::empty(),
    }
}

fn text_member(value: &serde_json::Value, key: &str) -> (r: Option<String>)
    ensures
        r.deep_view() == member_text(*value, key@),
{
    match member(value, key) {
        Some(found) => match found.as_str() {
            Some(text) => Some(text.to_owned()),
            None => None,
        },
        None => None,
    }
}

impl LakosAnalyzer {
    /// The edges of the graph that `document` describes.
    pub fn lakos_edges(document: &serde_json::Value) -> (edges: Vec<LakosEdge>)
        ensures
            edges.deep_view() == edges_in(*document),
    {
        let mut edges: Vec<LakosEdge> = Vec::new();
        match member(document, "edges") {
            None => {
                assert(edges.deep_view() =~= Seq::<LakosEdgeView>::empty());
            },
            Some(list) => match list.as_array() {
                None => {
                    assert(edges.deep_view() =~= Seq::<LakosEdgeView>::empty());
                },
                Some(items) => {
                    let mut i: usize = 0;
                    while i < items.len()
                        invariant
                            i <= items.len(),
                            edges@.len() == i,
                            forall|j: int|
                                0 <= j < i ==> (#[trigger] edges@[j])@ == edge_view_of(items@[j]),
                        decreases items.len() - i,
                    {
                        let ghost before = edges@;
                        let item = &items[i];
                        let edge = LakosEdge {
                            source: text_member(item, "source"),
                            target: text_member(item, "target"),
                            style: text_member(item, "style"),
                            label: text_member(item, "label"),
                        };
                        edges.push(edge);
                        assert forall|j: int| 0 <= j < i + 1 implies (#[trigger] edges@[j])@
                            == edge_view_of(items@[j]) by {
                            if j < i {
                                assert(edges@[j] == before[j]);
                            }
                        }
                        i = i + 1;
                    }
                    assert(edges.deep_view() =~= items@.map_values(
                        |item: serde_json::Value| edge_view_of(item),
                    ));
                },
            },
        }
        edges
    }

    /// The dependencies in the output of `lakos`: those of the edges of the
    /// graph that the JSON text describes, in order. A text that is no JSON
    /// is refused, and so is a graph with an edge without source or target.
    pub fn parse_lakos_json(json_str: &str) -> (r: Result<Vec<RawDependency>, String>)
        ensures
            match json_document(json_str@) {
                Some(document) => is_parsed(r, edges_in(document)),
                None => r matches Err(m) && m@ == "Failed to parse Lakos JSON output"@,
            },
    {
        match read_document(json_str) {
            Err(_) => Err("Failed to parse Lakos JSON output".to_owned()),
            Ok(document) => {
                let edges = Self::lakos_edges(&document);
                Self::parse_lakos_edges(edges)
            },
        }
    }
}

} // verus!
