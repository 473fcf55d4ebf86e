//! The analyzer contract: what a dependency-extraction tool reports, the
//! configuration it is run with, and the registry that holds analyzers by name.

use vstd::prelude::*;
use crate::text::same_text;

verus! {

/// A binary64 number carried as its bit pattern, so that results pass through
/// the library unchanged.
#[derive(Debug, Clone, Copy, PartialEq, Eq, Structural)]
pub struct Real64 {
    pub bits: u64,
}

impl Real64 {
    /// Positive zero.
    pub fn zero() -> (r: Real64)
        ensures
            r.bits == 0,
    {
        Real64 { bits: 0 }
    }
}

/// The strength of a dependency relationship.
#[derive(Debug, Clone)]
pub enum DependencyWeight {
    /// The relationship exists or it does not.
    Binary(bool),
    /// How often symbols of the target are used.
    Frequency(u32),
    /// How tightly the two modules are coupled.
    Coupling(Real64),
    /// How important the edge is to the architecture.
    Critical(Real64),
    /// A weight of the analyzer's own, with its annotations.
    Custom { value: Real64, metadata: Vec<(String, String)> },
}

/// The kind of a dependency relationship.
#[derive(Debug, Clone)]
pub enum RelationshipType {
    Import,
    Export,
    Part,
    Dynamic,
    Test,
    Custom(String),
}

/// One dependency as an analyzer reports it.
#[derive(Debug, Clone)]
pub struct RawDependency {
    pub source_file: String,
    pub target_file: String,
    pub relationship_type: RelationshipType,
    pub weight: DependencyWeight,
    pub line_number: Option<u32>,
    pub import_statement: Option<String>,
    pub symbols: Vec<String>,
    pub metadata: Vec<(String, String)>,
}

/// How much work an analyzer does per file.
#[derive(Debug, Clone, Copy, PartialEq, Eq, Structural)]
pub enum PerformanceTier {
    Fast,
    Medium,
    Slow,
}

/// What an analyzer can report.
#[derive(Debug, Clone)]
pub struct AnalyzerCapabilities {
    pub supports_weighted_analysis: bool,
    pub supports_symbol_tracking: bool,
    pub supports_line_numbers: bool,
    pub supports_dynamic_imports: bool,
    pub supported_file_extensions: Vec<String>,
    pub performance_tier: PerformanceTier,
}

/// Summary counts of one analysis.
#[derive(Debug, Clone, Copy, PartialEq, Eq, Structural)]
pub struct AnalysisMetrics {
    pub total_files_found: usize,
    pub files_analyzed: usize,
    pub files_skipped: usize,
    pub dependencies_found: usize,
    pub analysis_duration_ms: u64,
}

/// Graph-level metrics of one analysis.
#[derive(Debug, Clone)]
pub struct GlobalArchitecturalMetrics {
    pub is_acyclic: bool,
    pub num_nodes: u32,
    pub num_edges: u32,
    pub avg_degree: Real64,
    pub cumulative_component_dependency: u32,
    pub average_component_dependency: Real64,
    pub normalized_ccd: Real64,
    pub total_sloc: u32,
    pub average_sloc: Real64,
    pub detected_cycles: Vec<Vec<String>>,
    pub orphan_libraries: Vec<String>,
}

impl Default for GlobalArchitecturalMetrics {
    fn default() -> (m: Self)
        ensures
            m.is_acyclic,
            m.num_nodes == 0,
            m.num_edges == 0,
            m.avg_degree.bits == 0,
            m.cumulative_component_dependency == 0,
            m.average_component_dependency.bits == 0,
            m.normalized_ccd.bits == 0,
            m.total_sloc == 0,
            m.average_sloc.bits == 0,
            m.detected_cycles@.len() == 0,
            m.orphan_libraries@.len() == 0,
    {
        GlobalArchitecturalMetrics {
            is_acyclic: true,
            num_nodes: 0,
            num_edges: 0,
            avg_degree: Real64::zero(),
            cumulative_component_dependency: 0,
            average_component_dependency: Real64::zero(),
            normalized_ccd: Real64::zero(),
            total_sloc: 0,
            average_sloc: Real64::zero(),
            detected_cycles: Vec::new(),
            orphan_libraries: Vec::new(),
        }
    }
}

/// Per-file metrics of one analysis.
#[derive(Debug, Clone)]
pub struct NodeMetrics {
    pub file_path: String,
    pub component_dependency: u32,
    pub in_degree: u32,
    pub out_degree: u32,
    pub instability: Real64,
    pub sloc: u32,
    pub is_orphan: bool,
    pub in_cycle: bool,
    pub cycle_id: Option<u32>,
}

impl Default for NodeMetrics {
    fn default() -> (m: Self)
        ensures
            m.file_path@.len() == 0,
            m.component_dependency == 0,
            m.in_degree == 0,
            m.out_degree == 0,
            m.instability.bits == 0,
            m.sloc == 0,
            !m.is_orphan,
            !m.in_cycle,
            m.cycle_id is None,
    {
        NodeMetrics {
            file_path: String::new(),
            component_dependency: 0,
            in_degree: 0,
            out_degree: 0,
            instability: Real64::zero(),
            sloc: 0,
            is_orphan: false,
            in_cycle: false,
            cycle_id: None,
        }
    }
}

/// The part a file plays in the dependency graph.
#[derive(Debug, Clone, Copy, PartialEq, Eq, Structural)]
pub enum ArchitecturalRole {
    Orphan,
    Cyclic,
    Leaf,
    Core,
    Connector,
    Component,
}

/// How many files depend on a file, directly or not, in four bands.
#[derive(Debug, Clone, Copy, PartialEq, Eq, Structural)]
pub enum CouplingLevel {
    Isolated,
    Low,
    Medium,
    High,
}

impl NodeMetrics {
    /// The role that the flags and degrees give, the first rule that applies
    /// winning.
    pub open spec fn role(&self) -> ArchitecturalRole {
        if self.is_orphan {
            ArchitecturalRole::Orphan
        } else if self.in_cycle {
            ArchitecturalRole::Cyclic
        } else if self.in_degree == 0 && self.out_degree > 0 {
            ArchitecturalRole::Leaf
        } else if self.in_degree > 5 && self.out_degree < 2 {
            ArchitecturalRole::Core
        } else if self.in_degree > 2 && self.out_degree > 2 {
            ArchitecturalRole::Connector
        } else {
            ArchitecturalRole::Component
        }
    }

    /// The role of this file, by name.
    pub fn architectural_role(&self) -> (name: &'static str)
        ensures
            name@ == match self.role() {
                ArchitecturalRole::Orphan => "orphan"@,
                ArchitecturalRole::Cyclic => "cyclic"@,
                ArchitecturalRole::Leaf => "leaf"@,
                ArchitecturalRole::Core => "core"@,
                ArchitecturalRole::Connector => "connector"@,
                ArchitecturalRole::Component => "component"@,
            },
    {
        if self.is_orphan {
            "orphan"
        } else if self.in_cycle {
            "cyclic"
        } else if self.in_degree == 0 && self.out_degree > 0 {
            "leaf"
        } else if self.in_degree > 5 && self.out_degree < 2 {
            "core"
        } else if self.in_degree > 2 && self.out_degree > 2 {
            "connector"
        } else {
            "component"
        }
    }

    /// The band that the component dependency falls in.
    pub open spec fn coupling(&self) -> CouplingLevel {
        if self.component_dependency == 0 {
            CouplingLevel::Isolated
        } else if self.component_dependency < 3 {
            CouplingLevel::Low
        } else if self.component_dependency < 8 {
            CouplingLevel::Medium
        } else {
            CouplingLevel::High
        }
    }

    /// The coupling band of this file, by name.
    pub fn coupling_level(&self) -> (name: &'static str)
        ensures
            name@ == match self.coupling() {
                CouplingLevel::Isolated => "isolated"@,
                CouplingLevel::Low => "low"@,
                CouplingLevel::Medium => "medium"@,
                CouplingLevel::High => "high"@,
            },
    {
        if self.component_dependency == 0 {
            "isolated"
        } else if self.component_dependency < 3 {
            "low"
        } else if self.component_dependency < 8 {
            "medium"
        } else {
            "high"
        }
    }
}

/// A dependency with graph-level annotations.
#[derive(Debug, Clone)]
pub struct EnhancedDependency {
    pub source_file: String,
    pub target_file: String,
    pub relationship_type: RelationshipType,
    pub weight: DependencyWeight,
    pub line_number: Option<u32>,
    pub import_statement: Option<String>,
    pub symbols: Vec<String>,
    pub metadata: Vec<(String, String)>,
    pub is_critical: bool,
    pub creates_cycle: bool,
    pub coupling_strength: Real64,
}

/// The dependency `raw` with no annotation set.
pub open spec fn enhanced_from(raw: RawDependency) -> EnhancedDependency {
    EnhancedDependency {
        source_file: raw.source_file,
        target_file: raw.target_file,
        relationship_type: raw.relationship_type,
        weight: raw.weight,
        line_number: raw.line_number,
        import_statement: raw.import_statement,
        symbols: raw.symbols,
        metadata: raw.metadata,
        is_critical: false,
        creates_cycle: false,
        coupling_strength: Real64 { bits: 0 },
    }
}

impl From<RawDependency> for EnhancedDependency {
    fn from(raw: RawDependency) -> (e: EnhancedDependency) {
        EnhancedDependency {
            source_file: raw.source_file,
            target_file: raw.target_file,
            relationship_type: raw.relationship_type,
            weight: raw.weight,
            line_number: raw.line_number,
            import_statement: raw.import_statement,
            symbols: raw.symbols,
            metadata: raw.metadata,
            is_critical: false,
            creates_cycle: false,
            coupling_strength: Real64::zero(),
        }
    }
}

impl vstd::std_specs::convert::FromSpecImpl<RawDependency> for EnhancedDependency {
    open spec fn obeys_from_spec() -> bool {
        true
    }

    open spec fn from_spec(raw: RawDependency) -> EnhancedDependency {
        enhanced_from(raw)
    }
}

/// How serious an issue is.
#[derive(Debug, Clone, Copy, PartialEq, Eq, Structural)]
pub enum IssueLevel {
    Warning,
    Error,
    Info,
}

/// Something an analyzer noticed that did not stop it.
#[derive(Debug, Clone)]
pub struct AnalysisIssue {
    pub level: IssueLevel,
    pub message: String,
    pub file_path: Option<String>,
    pub line_number: Option<u32>,
}

/// What an analyzer extracted at one commit.
#[derive(Debug, Clone)]
pub struct AnalysisResult {
    pub dependencies: Vec<RawDependency>,
    pub enhanced_dependencies: Option<Vec<EnhancedDependency>>,
    pub global_metrics: Option<GlobalArchitecturalMetrics>,
    pub node_metrics: Option<Vec<NodeMetrics>>,
    pub architecture_quality_score: Option<Real64>,
    pub analyzer_name: String,
    pub analyzer_version: String,
    pub analysis_timestamp: i64,
    pub project_path: String,
    pub analyzed_files: Vec<String>,
    pub skipped_files: Vec<String>,
    pub metrics: AnalysisMetrics,
    pub issues: Vec<AnalysisIssue>,
}

impl AnalysisResult {
    /// The dependencies as the analyzer reported them.
    pub fn get_dependencies(&self) -> (deps: &Vec<RawDependency>)
        ensures
            *deps == self.dependencies,
    {
        &self.dependencies
    }

    /// The annotated dependencies, where the analyzer produced them.
    pub fn get_enhanced_dependencies(&self) -> (deps: Option<&Vec<EnhancedDependency>>)
        ensures
            deps is Some == self.enhanced_dependencies is Some,
            deps matches Some(d) ==> *d == self.enhanced_dependencies->0,
    {
        match &self.enhanced_dependencies {
            Some(d) => Some(d),
            None => None,
        }
    }

    /// Whether both the graph-level and the per-file metrics are there.
    pub fn has_enhanced_metrics(&self) -> (r: bool)
        ensures
            r == (self.global_metrics is Some && self.node_metrics is Some),
    {
        self.global_metrics.is_some() && self.node_metrics.is_some()
    }
}

/// How a project directory is walked and what the analyzer is told.
#[derive(Debug)]
pub struct AnalysisConfig {
    /// Glob patterns of paths to leave out.
    pub ignore_patterns: Vec<String>,
    /// File extensions that are analyzed.
    pub file_extensions: Vec<String>,
    /// How deep the walk goes below the project root, where it is bounded.
    pub max_depth: Option<usize>,
    /// Whether symbolic links to directories are followed.
    pub follow_symlinks: bool,
    /// Settings of the analyzer's own, one pair per setting, in any order.
    pub analyzer_config: Vec<(String, String)>,
}

/// An analysis configuration as plain mathematical values.
pub struct AnalysisConfigView {
    pub ignore_patterns: Seq<Seq<char>>,
    pub file_extensions: Seq<Seq<char>>,
    pub max_depth: Option<usize>,
    pub follow_symlinks: bool,
    pub analyzer_config: Seq<(Seq<char>, Seq<char>)>,
}

impl View for AnalysisConfig {
    type V = AnalysisConfigView;

    open spec fn view(&self) -> AnalysisConfigView {
        AnalysisConfigView {
            ignore_patterns: self.ignore_patterns.deep_view(),
            file_extensions: self.file_extensions.deep_view(),
            max_depth: self.max_depth,
            follow_symlinks: self.follow_symlinks,
            analyzer_config: self.analyzer_config.deep_view(),
        }
    }
}

/// The patterns that the default configuration leaves out.
pub open spec fn default_ignore_patterns() -> Seq<Seq<char>> {
    seq![
        "**/.git/**"@,
        "**/node_modules/**"@,
        "**/build/**"@,
        "**/.dart_tool/**"@,
        "**/pubspec.lock"@,
    ]
}

/// The configuration that an analysis has where none is given: the common
/// build and tool directories are left out, Dart files are analyzed, the
/// walk goes fifty directories deep and follows no links, and the analyzer
/// has no settings of its own.
pub open spec fn default_analysis_config() -> AnalysisConfigView {
    AnalysisConfigView {
        ignore_patterns: default_ignore_patterns(),
        file_extensions: seq!["dart"@],
        max_depth: Some(50usize),
        follow_symlinks: false,
        analyzer_config: Seq::empty(),
    }
}

impl Default for AnalysisConfig {
    fn default() -> (c: Self)
        ensures
            c@ == default_analysis_config(),
    {
        let mut ignore_patterns: Vec<String> = Vec::new();
        ignore_patterns.push("**/.git/**".to_owned());
        ignore_patterns.push("**/node_modules/**".to_owned());
        ignore_patterns.push("**/build/**".to_owned());
        ignore_patterns.push("**/.dart_tool/**".to_owned());
        ignore_patterns.push("**/pubspec.lock".to_owned());
        let mut file_extensions: Vec<String> = Vec::new();
        file_extensions.push("dart".to_owned());
        let c = AnalysisConfig {
            ignore_patterns,
            file_extensions,
            max_depth: Some(50),
            follow_symlinks: false,
            analyzer_config: Vec::new(),
        };
        assert(c@.ignore_patterns =~= default_ignore_patterns());
        assert(c@.file_extensions =~= seq!["dart"@]);
        assert(c@.analyzer_config =~= Seq::empty());
        c
    }
}

/// A copy of the strings of `v`.
pub fn clone_strings(v: &Vec<String>) -> (r: Vec<String>)
    ensures
        r.deep_view() == v.deep_view(),
{
    let mut r: Vec<String> = Vec::new();
    let mut i: usize = 0;
    while i < v.len()
        invariant
            i <= v.len(),
            r.len() == i,
            forall|j: int| 0 <= j < i ==> r@[j]@ == v@[j]@,
        decreases v.len() - i,
    {
        r.push(v[i].clone());
        i = i + 1;
    }
    assert(r.deep_view() =~= v.deep_view());
    r
}

/// A copy of the pairs of `v`.
pub fn clone_pairs(v: &Vec<(String, String)>) -> (r: Vec<(String, String)>)
    ensures
        r.deep_view() == v.deep_view(),
{
    let mut r: Vec<(String, String)> = Vec::new();
    let mut i: usize = 0;
    while i < v.len()
        invariant
            i <= v.len(),
            r.len() == i,
            forall|j: int| 0 <= j < i ==> r@[j].deep_view() == v@[j].deep_view(),
        decreases v.len() - i,
    {
        r.push((v[i].0.clone(), v[i].1.clone()));
        i = i + 1;
    }
    assert(r.deep_view() =~= v.deep_view());
    r
}

impl Clone for AnalysisConfig {
    fn clone(&self) -> (c: Self)
        ensures
            c@ == self@,
    {
        AnalysisConfig {
            ignore_patterns: clone_strings(&self.ignore_patterns),
            file_extensions: clone_strings(&self.file_extensions),
            max_depth: self.max_depth,
            follow_symlinks: self.follow_symlinks,
            analyzer_config: clone_pairs(&self.analyzer_config),
        }
    }
}

/// The capability set of a dependency-extraction tool. The library hands
/// analyzers out by name and asks them for nothing but what they say of
/// themselves; running one on a directory is the caller's business.
pub trait DependencyAnalyzer {
    /// The name the analyzer is registered under.
    fn name(&self) -> String;

    /// The analyzer's version.
    fn version(&self) -> String;

    /// What the analyzer can report.
    fn capabilities(&self) -> AnalyzerCapabilities;

    /// The dependencies of the project at `project_path`, or why they could
    /// not be extracted.
    fn analyze_project(&self, project_path: &str, config: &AnalysisConfig) -> Result<
        AnalysisResult,
        String,
    >;

    /// Whether the directory holds a project that this analyzer understands.
    fn can_analyze_project(&self, project_path: &str) -> bool;

    /// A JSON schema of the analyzer's own settings. An analyzer that brings
    /// none has the empty schema, `{}`.
    fn config_schema(&self) -> (schema: String)
        default_ensures
            schema@ == "{}"@,
    {
        "{}".to_owned()
    }
}

/// One line of the registry's listing.
#[derive(Debug, Clone)]
pub struct AnalyzerInfo {
    pub name: String,
    pub version: String,
    pub capabilities: AnalyzerCapabilities,
    pub is_default: bool,
}

/// Why a registry operation was refused.
#[derive(Debug, Clone)]
pub enum RegistryError {
    /// No analyzer is registered under this name.
    NotFound { name: String },
}

impl RegistryError {
    /// The refusal in words.
    pub fn message(&self) -> (m: String)
        ensures
            self matches RegistryError::NotFound { name } ==> m@ == "Analyzer '"@ + name@
                + "' not found"@,
    {
        match self {
            RegistryError::NotFound { name } => {
                let m = "Analyzer '".to_owned();
                let m = m.concat(name.as_str());
                m.concat("' not found")
            },
        }
    }
}

/// An analyzer with the name it was registered under.
pub struct RegisteredAnalyzer<A> {
    pub name: String,
    pub analyzer: A,
}

/// The analyzers that can be asked for, each under its name, and the one that
/// is used where none is named.
pub struct AnalyzerRegistry<A> {
    entries: Vec<RegisteredAnalyzer<A>>,
    default_analyzer: Option<String>,
}

impl<A: DependencyAnalyzer> AnalyzerRegistry<A> {
    /// The registered names, in the order of registration.
    pub closed spec fn names(&self) -> Seq<Seq<char>> {
        Seq::new(self.entries@.len(), |i: int| self.entries@[i].name@)
    }

    /// The analyzer registered at position `i`.
    pub closed spec fn analyzer_at(&self, i: int) -> A {
        self.entries@[i].analyzer
    }

    /// The name of the default analyzer.
    pub closed spec fn default_name(&self) -> Option<Seq<char>> {
        match self.default_analyzer {
            Some(d) => Some(d@),
            None => None,
        }
    }

    /// No name is registered twice, and the default is a registered name,
    /// there from the first registration on.
    pub open spec fn wf(&self) -> bool {
        &&& self.names().no_duplicates()
        &&& self.default_name() is Some <==> self.names().len() > 0
        &&& self.default_name() matches Some(d) ==> self.names().contains(d)
    }

    /// Whether an analyzer is registered under `name`.
    pub open spec fn is_registered(&self, name: Seq<char>) -> bool {
        self.names().contains(name)
    }

    /// A registry with nothing in it.
    pub fn new() -> (r: Self)
        ensures
            r.wf(),
            r.names().len() == 0,
            r.default_name() is None,
    {
        let r = AnalyzerRegistry { entries: Vec::new(), default_analyzer: None };
        assert(r.names() =~= Seq::empty());
        r
    }

    fn position(&self, name: &str) -> (r: Option<usize>)
        ensures
            match r {
                Some(i) => i < self.names().len() && self.names()[i as int] == name@,
                None => !self.names().contains(name@),
            },
    {
        let mut i: usize = 0;
        while i < self.entries.len()
            invariant
                i <= self.entries.len(),
                forall|j: int| 0 <= j < i ==> self.names()[j] != name@,
            decreases self.entries.len() - i,
        {
            if same_text(self.entries[i].name.as_str(), name) {
                return Some(i);
            }
            i = i + 1;
        }
        None
    }

    /// Registers `analyzer` under `name`. The first analyzer registered
    /// becomes the default; one registered under a name already taken
    /// replaces the earlier one.
    pub fn register_as(&mut self, name: String, analyzer: A)
        requires
            old(self).wf(),
        ensures
            final(self).wf(),
            final(self).is_registered(name@),
            forall|n: Seq<char>|
                final(self).is_registered(n) <==> (old(self).is_registered(n) || n == name@),
            final(self).default_name() == if old(self).default_name() is Some {
                old(self).default_name()
            } else {
                Some(name@)
            },
            final(self).analyzer_at(final(self).names().index_of(name@)) == analyzer,
            final(self).names() == if old(self).is_registered(name@) {
                old(self).names()
            } else {
                old(self).names().push(name@)
            },
            forall|i: int|
                0 <= i < old(self).names().len() && old(self).names()[i] != name@ ==> final(self).names()[i] == old(self).names()[i] && final(self).analyzer_at(i) == old(self).analyzer_at(i),
    {
        let ghost before = self.names();
        if self.default_analyzer.is_none() {
            self.default_analyzer = Some(name.clone());
        }
        match self.position(name.as_str()) {
            Some(i) => {
                let ghost taken = self.entries@[i as int].name@;
                self.entries.set(i, RegisteredAnalyzer { name, analyzer });
                assert(self.names() =~= before);
                assert(self.names()[i as int] == name@);
                assert(self.names().index_of(name@) == i);
            },
            None => {
                self.entries.push(RegisteredAnalyzer { name, analyzer });
                assert(self.names() =~= before.push(name@));
                assert(self.names()[before.len() as int] == name@);
                assert(self.names().index_of(name@) == before.len());
                assert forall|n: Seq<char>|
                    self.names().contains(n) <==> (before.contains(n) || n == name@) by {
                    if before.contains(n) {
                        let k = choose|k: int| 0 <= k < before.len() && before[k] == n;
                        assert(self.names()[k] == n);
                    }
                }
            },
        }
    }

    /// Whether `after` is `before` with `analyzer` registered under `name`:
    /// the name is registered and leads to the analyzer, it stands where it
    /// stood or behind the others, no other name came or went, and it is the
    /// default where there was none.
    pub open spec fn registered_under(
        after: &Self,
        before: &Self,
        name: Seq<char>,
        analyzer: A,
    ) -> bool {
        &&& after.is_registered(name)
        &&& after.analyzer_at(after.names().index_of(name)) == analyzer
        &&& after.names() == if before.is_registered(name) {
            before.names()
        } else {
            before.names().push(name)
        }
        &&& forall|m: Seq<char>| after.is_registered(m) <==> (before.is_registered(m) || m == name)
        &&& forall|i: int|
            0 <= i < before.names().len() && before.names()[i] != name ==> after.analyzer_at(i)
                == before.analyzer_at(i)
        &&& after.default_name() == if before.default_name() is Some {
            before.default_name()
        } else {
            Some(name)
        }
    }

    /// Registers `analyzer` under the name it gives itself: whatever that
    /// name is, the analyzer is registered under it as `register_as` does.
    pub fn register(&mut self, analyzer: A)
        requires
            old(self).wf(),
        ensures
            final(self).wf(),
            exists|n: Seq<char>| #[trigger] Self::registered_under(final(self), old(self), n, analyzer),
    {
        let name = analyzer.name();
        let ghost n = name@;
        self.register_as(name, analyzer);
        assert(Self::registered_under(self, old(self), n, analyzer));
    }

    /// The analyzer registered under `name`.
    pub fn get_analyzer(&self, name: &str) -> (r: Option<&A>)
        requires
            self.wf(),
        ensures
            r is Some <==> self.is_registered(name@),
            r matches Some(a) ==> *a == self.analyzer_at(self.names().index_of(name@)),
    {
        match self.position(name) {
            Some(i) => {
                assert(self.names()[i as int] == name@);
                assert(self.names().index_of(name@) == i);
                Some(&self.entries[i].analyzer)
            },
            None => None,
        }
    }

    /// The default analyzer: none exactly where nothing is registered.
    pub fn get_default_analyzer(&self) -> (r: Option<&A>)
        requires
            self.wf(),
        ensures
            r is Some <==> self.names().len() > 0,
            r matches Some(a) ==> *a == self.analyzer_at(
                self.names().index_of(self.default_name()->0),
            ),
    {
        match &self.default_analyzer {
            Some(d) => self.get_analyzer(d.as_str()),
            None => None,
        }
    }

    /// One line per registered analyzer, in the order of registration. Each
    /// holds the registered name and whether it is the default; version and
    /// capabilities are what the analyzer says of itself.
    pub fn list_analyzers(&self) -> (list: Vec<AnalyzerInfo>)
        requires
            self.wf(),
        ensures
            list@.len() == self.names().len(),
            forall|i: int| 0 <= i < list@.len() ==> list@[i].name@ == self.names()[i],
            forall|i: int|
                0 <= i < list@.len() ==> list@[i].is_default == (self.default_name() == Some(
                    self.names()[i],
                )),
    {
        let mut list: Vec<AnalyzerInfo> = Vec::new();
        let mut i: usize = 0;
        while i < self.entries.len()
            invariant
                i <= self.entries.len(),
                list@.len() == i,
                forall|j: int| 0 <= j < i ==> list@[j].name@ == self.names()[j],
                forall|j: int|
                    0 <= j < i ==> list@[j].is_default == (self.default_name() == Some(
                        self.names()[j],
                    )),
            decreases self.entries.len() - i,
        {
            let entry = &self.entries[i];
            let is_default = match &self.default_analyzer {
                Some(d) => same_text(d.as_str(), entry.name.as_str()),
                None => false,
            };
            list.push(
                AnalyzerInfo {
                    name: entry.name.clone(),
                    version: entry.analyzer.version(),
                    capabilities: entry.analyzer.capabilities(),
                    is_default,
                },
            );
            i = i + 1;
        }
        list
    }

    /// Makes the analyzer registered under `name` the default. An unknown
    /// name is refused and changes nothing.
    pub fn set_default_analyzer(&mut self, name: &str) -> (r: Result<(), RegistryError>)
        requires
            old(self).wf(),
        ensures
            final(self).wf(),
            final(self).names() == old(self).names(),
            forall|i: int|
                0 <= i < old(self).names().len() ==> final(self).analyzer_at(i) == old(self).analyzer_at(i),
            r is Ok <==> old(self).is_registered(name@),
            r is Ok ==> final(self).default_name() == Some(name@),
            r matches Err(e) ==> final(self).default_name() == old(self).default_name() && (
            e matches RegistryError::NotFound { name: n } && n@ == name@),
    {
        match self.position(name) {
            Some(_) => {
                self.default_analyzer = Some(name.to_owned());
                Ok(())
            },
            None => Err(RegistryError::NotFound { name: name.to_owned() }),
        }
    }
}

} // verus!
