//! The analysis engine: the configuration of a run, the run itself as a
//! sequence of steps, and what is kept of it afterwards.

use vstd::prelude::*;
use crate::analysis_cache::{
    blob_paths, cache_key_text, cutoff, is_change_of, kept, key_of, repositories_of, restored,
    result_of_read, row_for, rows_after_read, taken, total_size, with_row, AnalysisCache,
    AnalysisCacheKey, BlobProbe, CacheEntryMetadata, CacheRead, CacheStatistics, RowTest,
};
use crate::commit_analysis::{
    analysis_path_of, CommitAction, CommitAnalysis, CommitFailure, CommitSnapshot, CommitStage,
};
use crate::dependency_analyzer::{
    default_analysis_config, AnalysisConfig, AnalysisResult, AnalyzerInfo, AnalyzerRegistry,
    DependencyAnalyzer,
};
use crate::git_navigator::{CommitInfo, CommitInfoView, GitTemporalNavigator, RepoCloneInfo};
use crate::progress::{
    analyzing_message, analyzing_text, cloning_message, cloning_text, commit_message,
    commit_text, completion_message, completion_text, lemma_at_most_transitive, lemma_commit_share_grows,
    no_snapshot_message, no_snapshot_text, sequence_message, sequence_text, AnalysisPhase,
    AnalysisProgress, Percentage,
};
use crate::sampling::{sample_commits, sample_of};
use crate::subfolder::{normalize_subfolder, normalized};
use crate::tally::{is_tally, tally, KeyCount};
use crate::text::{chars_of, push_str, string_of};

verus! {

/// What a run analyzes, and how.
#[derive(Debug)]
pub struct ChronoGraphConfig {
    /// The repository: a URL, or a path where `is_local_repository` is set.
    pub github_url: String,
    /// The directory below which working copies are kept.
    pub local_base_dir: String,
    /// The name of the analyzer to use.
    pub analyzer_name: String,
    /// What the analyzer is told.
    pub analysis_config: AnalysisConfig,
    /// The sampling stride: every how manyeth commit is analyzed.
    pub commit_sampling: usize,
    /// The largest number of commits to analyze, where there is one.
    pub max_commits: Option<usize>,
    /// Whether the working copy is deleted after the run.
    pub cleanup_after_analysis: bool,
    /// The subfolder to analyze, where the project is not at the top.
    pub subfolder: Option<String>,
    /// Whether `github_url` is a path on this machine.
    pub is_local_repository: bool,
}

impl Default for ChronoGraphConfig {
    fn default() -> (c: Self)
        ensures
            c.github_url@.len() == 0,
            c.local_base_dir@ == "chronograph"@,
            c.analyzer_name@ == "lakos"@,
            c.analysis_config@ == default_analysis_config(),
            c.commit_sampling == 5,
            c.max_commits == Some(100usize),
            c.cleanup_after_analysis,
            c.subfolder is None,
            !c.is_local_repository,
    {
        ChronoGraphConfig {
            github_url: String::new(),
            local_base_dir: "chronograph".to_owned(),
            analyzer_name: "lakos".to_owned(),
            analysis_config: AnalysisConfig::default(),
            commit_sampling: 5,
            max_commits: Some(100),
            cleanup_after_analysis: true,
            subfolder: None,
            is_local_repository: false,
        }
    }
}

/// What a caller may set when a run is prepared; what is not set keeps its
/// default.
#[derive(Debug)]
pub struct ConfigOverrides {
    pub commit_sampling: Option<usize>,
    pub max_commits: Option<usize>,
    pub analyzer: Option<String>,
    pub subfolder: Option<String>,
}

impl ChronoGraphConfig {
    /// The configuration of a run on `github_url`: the defaults, with what
    /// `overrides` sets in their place. A subfolder is kept with slashes for
    /// separators.
    pub fn initialize_analysis(github_url: String, overrides: ConfigOverrides) -> (c: Self)
        ensures
            c.github_url == github_url,
            c.local_base_dir@ == "chronograph"@,
            c.analysis_config@ == default_analysis_config(),
            c.analyzer_name@ == match overrides.analyzer {
                Some(a) => a@,
                None => "lakos"@,
            },
            c.commit_sampling == match overrides.commit_sampling {
                Some(n) => n,
                None => 5,
            },
            c.max_commits == match overrides.max_commits {
                Some(n) => Some(n),
                None => Some(100usize),
            },
            c.cleanup_after_analysis,
            c.subfolder.deep_view() == subfolder_filter_of(overrides.subfolder),
            !c.is_local_repository,
    {
        let mut config = ChronoGraphConfig::default();
        config.github_url = github_url;
        match overrides.commit_sampling {
            Some(n) => {
                config.commit_sampling = n;
            },
            None => {},
        }
        match overrides.max_commits {
            Some(n) => {
                config.max_commits = Some(n);
            },
            None => {},
        }
        match overrides.analyzer {
            Some(a) => {
                config.analyzer_name = a;
            },
            None => {},
        }
        match &overrides.subfolder {
            Some(s) => {
                config.subfolder = Some(normalize_subfolder(s.as_str()));
            },
            None => {},
        }
        config
    }
}

/// The subfolder that the commit sequence is restricted to: the configured
/// one with slashes for separators.
pub open spec fn subfolder_filter_of(subfolder: Option<String>) -> Option<Seq<char>> {
    match subfolder {
        Some(s) => Some(normalized(s@)),
        None => None,
    }
}

/// Figures over the snapshots of a run.
#[derive(Debug)]
pub struct AnalysisStatistics {
    pub total_snapshots: usize,
    pub total_dependencies: usize,
    pub total_files_analyzed: usize,
    pub time_span_seconds: i64,
    pub first_commit_hash: String,
    pub last_commit_hash: String,
    /// How many snapshots each author has.
    pub author_commit_counts: Vec<KeyCount>,
}

/// The number of dependencies in `snapshots`.
pub open spec fn dependencies_in(snapshots: Seq<CommitSnapshot>) -> nat
    decreases snapshots.len(),
{
    if snapshots.len() == 0 {
        0
    } else {
        dependencies_in(snapshots.drop_last()) + snapshots.last().analysis_result.dependencies@.len()
    }
}

/// The number of analyzed files in `snapshots`.
pub open spec fn files_in(snapshots: Seq<CommitSnapshot>) -> nat
    decreases snapshots.len(),
{
    if snapshots.len() == 0 {
        0
    } else {
        files_in(snapshots.drop_last()) + snapshots.last().analysis_result.analyzed_files@.len()
    }
}

/// The authors of `snapshots`, in order.
pub open spec fn authors_of(snapshots: Seq<CommitSnapshot>) -> Seq<Seq<char>> {
    Seq::new(snapshots.len(), |i: int| snapshots[i].commit_info.author_name@)
}

/// `n`, or the largest machine number where `n` is more.
pub open spec fn capped(n: nat) -> usize {
    if n <= usize::MAX {
        n as usize
    } else {
        usize::MAX
    }
}

/// The difference `to - from`, or the nearest 64-bit number.
pub open spec fn span(from: i64, to: i64) -> i64 {
    if to - from > i64::MAX {
        i64::MAX
    } else if to - from < i64::MIN {
        i64::MIN
    } else {
        (to - from) as i64
    }
}

/// The seconds from `from` to `to`, or the nearest 64-bit number.
pub fn time_span(from: i64, to: i64) -> (d: i64)
    ensures
        d == span(from, to),
{
    let wide: i128 = (to as i128) - (from as i128);
    if wide > i64::MAX as i128 {
        i64::MAX
    } else if wide < i64::MIN as i128 {
        i64::MIN
    } else {
        wide as i64
    }
}

/// The statistics of `snapshots`: their number, their dependencies and
/// analyzed files, the time between the first and the last commit, the two
/// hashes, and how many snapshots each author has. Without snapshots every
/// figure is zero and every text empty.
pub fn statistics_of(snapshots: &Vec<CommitSnapshot>) -> (stats: AnalysisStatistics)
    ensures
        stats.total_snapshots == snapshots@.len(),
        stats.total_dependencies == capped(dependencies_in(snapshots@)),
        stats.total_files_analyzed == capped(files_in(snapshots@)),
        is_tally(authors_of(snapshots@), stats.author_commit_counts@),
        snapshots@.len() == 0 ==> stats.time_span_seconds == 0 && stats.first_commit_hash@.len()
            == 0 && stats.last_commit_hash@.len() == 0,
        snapshots@.len() > 0 ==> stats.time_span_seconds == span(
            snapshots@[0].commit_info.timestamp,
            snapshots@.last().commit_info.timestamp,
        ) && stats.first_commit_hash@ == snapshots@[0].commit_info.hash@
            && stats.last_commit_hash@ == snapshots@.last().commit_info.hash@,
{
    let n = snapshots.len();
    let mut dependencies: usize = 0;
    let mut files: usize = 0;
    let mut authors: Vec<String> = Vec::new();
    let mut i: usize = 0;
    assert(snapshots@.take(0) =~= Seq::<CommitSnapshot>::empty());
    while i < n
        invariant
            i <= n,
            n == snapshots.len(),
            dependencies == capped(dependencies_in(snapshots@.take(i as int))),
            files == capped(files_in(snapshots@.take(i as int))),
            authors.len() == i,
            forall|j: int| 0 <= j < i ==> authors@[j]@ == snapshots@[j].commit_info.author_name@,
        decreases n - i,
    {
        proof {
            assert(snapshots@.take(i + 1).drop_last() =~= snapshots@.take(i as int));
            assert(snapshots@.take(i + 1).last() == snapshots@[i as int]);
        }
        dependencies = dependencies.saturating_add(snapshots[i].analysis_result.dependencies.len());
        files = files.saturating_add(snapshots[i].analysis_result.analyzed_files.len());
        authors.push(snapshots[i].commit_info.author_name.clone());
        i = i + 1;
    }
    assert(snapshots@.take(n as int) =~= snapshots@);
    assert(authors.deep_view() =~= authors_of(snapshots@));
    let author_commit_counts = tally(&authors);
    if n == 0 {
        AnalysisStatistics {
            total_snapshots: 0,
            total_dependencies: dependencies,
            total_files_analyzed: files,
            time_span_seconds: 0,
            first_commit_hash: String::new(),
            last_commit_hash: String::new(),
            author_commit_counts,
        }
    } else {
        let first = &snapshots[0].commit_info;
        let last = &snapshots[n - 1].commit_info;
        AnalysisStatistics {
            total_snapshots: n,
            total_dependencies: dependencies,
            total_files_analyzed: files,
            time_span_seconds: time_span(first.timestamp, last.timestamp),
            first_commit_hash: first.hash.clone(),
            last_commit_hash: last.hash.clone(),
            author_commit_counts,
        }
    }
}

/// Where a run stands.
#[derive(Debug, Clone, Copy, PartialEq, Eq, Structural)]
pub enum RunStage {
    /// No run was started.
    Idle,
    /// The repository is being cloned or updated.
    Cloning,
    /// The subfolder is being looked for.
    ValidatingSubfolder,
    /// The sampled commits are being analyzed.
    AnalyzingCommits,
    /// The run ended with snapshots.
    Completed,
    /// The run ended without.
    Failed,
}

/// What the outside world reports to a run.
#[derive(Debug)]
pub enum EngineEvent {
    /// A run is asked for.
    Start,
    /// The repository was cloned and its commit sequence built, or not.
    CloneFinished(Result<GitTemporalNavigator, String>),
    /// The subfolder was accepted, or refused with a message.
    SubfolderChecked(Result<(), String>),
    /// The analysis of the commit that was asked for ended.
    CommitFinished(Result<CommitSnapshot, CommitFailure>),
}

/// What a run asks of the outside world.
#[derive(Debug, PartialEq, Eq)]
pub enum EngineAction {
    /// Purge leftover working copies, clone or update the repository and
    /// build its commit sequence, restricted to the subfolder where one is
    /// given.
    CloneRepository {
        source: String,
        local_base_dir: String,
        subfolder_filter: Option<String>,
        is_local: bool,
    },
    /// Look for the subfolder in the working copy.
    ValidateSubfolder { subfolder: String, base_path: String },
    /// Analyze this commit.
    AnalyzeCommit { commit: CommitInfo },
    /// The run is over: with this many snapshots, or with this message.
    Finished(Result<usize, String>),
    /// The event is not one that the run waits for; nothing changed.
    Rejected,
}

/// What one step of a run leads to: the progress to publish, in order, and
/// what to do next.
#[derive(Debug)]
pub struct EngineStep {
    pub progress: Vec<AnalysisProgress>,
    pub action: EngineAction,
}

/// Whether `p` reports these figures.
pub open spec fn reports(
    p: AnalysisProgress,
    current: nat,
    total: nat,
    hash: Seq<char>,
    message: Seq<char>,
    share: Percentage,
) -> bool {
    &&& p.current_commit == current
    &&& p.total_commits == total
    &&& p.current_commit_hash@ == hash
    &&& p.message@ == message
    &&& p.percentage == share
}

/// Whether the shares of `progress` are defined and never fall, from `from`
/// on.
pub open spec fn rising(from: Percentage, progress: Seq<AnalysisProgress>) -> bool {
    &&& forall|i: int| 0 <= i < progress.len() ==> (#[trigger] progress[i]).percentage.wf()
    &&& progress.len() > 0 ==> from.at_most(progress[0].percentage)
    &&& forall|i: int, j: int|
        0 <= i <= j < progress.len() ==> (#[trigger] progress[i]).percentage.at_most(
            (#[trigger] progress[j]).percentage,
        )
}

/// The share reached when `done` of `total` commits have been analyzed.
pub open spec fn commit_share(done: nat, total: nat) -> Percentage {
    Percentage { numerator: (15 * total + 80 * done) as u128, denominator: total as u128 }
}

/// `whole` percent.
pub open spec fn whole_share(whole: nat) -> Percentage {
    Percentage { numerator: whole as u128, denominator: 1 }
}

/// The engine: a configuration, the analyzers, the cache, and the run.
pub struct ChronoGraphEngine<A> {
    config: ChronoGraphConfig,
    git_navigator: Option<GitTemporalNavigator>,
    analyzer_registry: AnalyzerRegistry<A>,
    snapshots: Vec<CommitSnapshot>,
    cache: Option<AnalysisCache>,
    stage: RunStage,
    pending_navigator: Option<GitTemporalNavigator>,
    plan: Vec<CommitInfo>,
    cursor: usize,
    collected: Vec<CommitSnapshot>,
    share: Percentage,
}

fn report(
    phase: AnalysisPhase,
    current: usize,
    total: usize,
    hash: String,
    message: String,
    percentage: Percentage,
) -> (p: AnalysisProgress)
    ensures
        p.phase == phase,
        reports(p, current as nat, total as nat, hash@, message@, percentage),
{
    AnalysisProgress {
        phase,
        current_commit: current,
        total_commits: total,
        current_commit_hash: hash,
        message,
        percentage,
    }
}

impl<A: DependencyAnalyzer> ChronoGraphEngine<A> {
    /// The configuration.
    pub closed spec fn configuration(&self) -> ChronoGraphConfig {
        self.config
    }

    /// The analyzers.
    pub closed spec fn registry(&self) -> AnalyzerRegistry<A> {
        self.analyzer_registry
    }

    /// The cache, where there is one.
    pub closed spec fn cache_state(&self) -> Option<AnalysisCache> {
        self.cache
    }

    /// The snapshots of the last run that completed.
    pub closed spec fn kept_snapshots(&self) -> Seq<CommitSnapshot> {
        self.snapshots@
    }

    /// The navigator of the last run that completed.
    pub closed spec fn navigator(&self) -> Option<GitTemporalNavigator> {
        self.git_navigator
    }

    /// Where the run stands.
    pub closed spec fn stage(&self) -> RunStage {
        self.stage
    }

    /// The navigator of the run under way.
    pub closed spec fn run_navigator(&self) -> Option<GitTemporalNavigator> {
        self.pending_navigator
    }

    /// The sampled commits of the run under way.
    pub closed spec fn plan(&self) -> Seq<CommitInfoView> {
        self.plan.deep_view()
    }

    /// The position in the plan of the commit under analysis.
    pub closed spec fn cursor(&self) -> nat {
        self.cursor as nat
    }

    /// The snapshots of the run under way.
    pub closed spec fn collected(&self) -> Seq<CommitSnapshot> {
        self.collected@
    }

    /// The share of the run that was last reported.
    pub closed spec fn share(&self) -> Percentage {
        self.share
    }

    /// The parts of the engine are well formed, and the run is consistent:
    /// while commits are analyzed the cursor points into the plan and no
    /// more snapshots were collected than commits were finished, and the
    /// share last reported is the one of the stage.
    pub closed spec fn wf(&self) -> bool {
        &&& self.analyzer_registry.wf()
        &&& self.cache matches Some(c) ==> c.wf()
        &&& self.share.wf()
        &&& self.stage == RunStage::Cloning ==> self.share == whole_share(0)
        &&& self.stage == RunStage::ValidatingSubfolder ==> self.share == whole_share(10)
            && self.pending_navigator is Some && self.config.subfolder is Some
        &&& self.stage == RunStage::AnalyzingCommits ==> self.cursor < self.plan.len()
            && self.collected.len() <= self.cursor && self.pending_navigator is Some
            && self.share == commit_share(self.cursor as nat, self.plan.len() as nat)
    }

    /// An engine for `config` with `analyzer` registered, which thereby is
    /// the default, and with `cache` for its cache.
    pub fn new(config: ChronoGraphConfig, analyzer: A, cache: Option<AnalysisCache>) -> (engine:
        Self)
        requires
            cache matches Some(c) ==> c.wf(),
        ensures
            engine.wf(),
            engine.configuration() == config,
            engine.cache_state() == cache,
            engine.stage() == RunStage::Idle,
            engine.kept_snapshots().len() == 0,
            engine.navigator() is None,
            engine.registry().names().len() == 1,
            engine.registry().default_name() == Some(engine.registry().names()[0]),
            engine.registry().analyzer_at(0) == analyzer,
    {
        let mut registry: AnalyzerRegistry<A> = AnalyzerRegistry::new();
        let ghost empty = registry;
        registry.register(analyzer);
        proof {
            let n = choose|n: Seq<char>|
                #[trigger] AnalyzerRegistry::registered_under(&registry, &empty, n, analyzer);
            assert(registry.names() == empty.names().push(n));
        }
        ChronoGraphEngine {
            config,
            git_navigator: None,
            analyzer_registry: registry,
            snapshots: Vec::new(),
            cache,
            stage: RunStage::Idle,
            pending_navigator: None,
            plan: Vec::new(),
            cursor: 0,
            collected: Vec::new(),
            share: Percentage::whole(0),
        }
    }
}

/// The message of a run whose repository could not be cloned.
pub open spec fn clone_failure_text(reason: Seq<char>) -> Seq<char> {
    "Failed to clone repository: "@ + reason
}

/// The message of a run whose subfolder was refused.
pub open spec fn subfolder_failure_text(reason: Seq<char>) -> Seq<char> {
    "Subfolder validation failed: "@ + reason
}

impl<A: DependencyAnalyzer> ChronoGraphEngine<A> {
    /// Whether a step left alone what is not part of the run.
    pub open spec fn same_setup(&self, before: &Self) -> bool {
        &&& self.configuration() == before.configuration()
        &&& self.registry() == before.registry()
        &&& self.cache_state() == before.cache_state()
    }

    /// Whether a step left alone what the last completed run gave.
    pub open spec fn same_results(&self, before: &Self) -> bool {
        &&& self.kept_snapshots() == before.kept_snapshots()
        &&& self.navigator() == before.navigator()
    }

    /// Whether the run stands where it stood.
    pub open spec fn same_run(&self, before: &Self) -> bool {
        &&& self.stage() == before.stage()
        &&& self.plan() == before.plan()
        &&& self.cursor() == before.cursor()
        &&& self.collected() == before.collected()
        &&& self.run_navigator() == before.run_navigator()
        &&& self.share() == before.share()
    }

    /// Whether a step refused its event and changed nothing.
    pub open spec fn rejected(&self, before: &Self, step: EngineStep) -> bool {
        &&& step.action is Rejected
        &&& step.progress@.len() == 0
        &&& self.same_run(before)
        &&& self.same_results(before)
    }

    /// Whether a step ended the run in failure, with `message` for the
    /// reason, and reported these figures last.
    pub open spec fn run_failed(
        &self,
        before: &Self,
        step: EngineStep,
        message: Seq<char>,
        current: nat,
        total: nat,
        hash: Seq<char>,
        share: Percentage,
    ) -> bool {
        &&& self.stage() == RunStage::Failed
        &&& self.same_results(before)
        &&& (step.action matches EngineAction::Finished(Err(m)) && m@ == message)
        &&& step.progress@.len() > 0
        &&& (step.progress@.last().phase matches AnalysisPhase::Failed(m) && m@ == message)
        &&& reports(step.progress@.last(), current, total, hash, message, share)
    }

    /// Whether a step asked for the analysis of the commit at `index` of the
    /// plan and reported it last.
    pub open spec fn commit_started(&self, step: EngineStep, index: nat) -> bool {
        &&& self.stage() == RunStage::AnalyzingCommits
        &&& self.cursor() == index
        &&& index < self.plan().len()
        &&& (step.action matches EngineAction::AnalyzeCommit { commit } && commit@
            == self.plan()[index as int])
        &&& step.progress@.len() > 0
        &&& step.progress@.last().phase is AnalyzingCommits
        &&& reports(
            step.progress@.last(),
            index + 1,
            self.plan().len(),
            self.plan()[index as int].hash,
            commit_text(self.plan()[index as int].hash, self.plan()[index as int].message),
            commit_share(index, self.plan().len()),
        )
    }

    /// Whether the navigator of the run is the one that it was before the
    /// step, with the commit that the step ended checked out. A run that
    /// completed keeps its navigator with its snapshots.
    pub open spec fn checkout_recorded(&self, before: &Self) -> bool {
        let held = if self.stage() == RunStage::Completed {
            self.navigator()
        } else {
            self.run_navigator()
        };
        &&& before.run_navigator() is Some
        &&& before.cursor() < before.plan().len()
        &&& held matches Some(nav) && nav.is_checkout_of(
            &before.run_navigator()->0,
            before.plan()[before.cursor() as int].hash,
        )
    }

    /// Whether a step completed the run with `snapshots` of `sampled`
    /// commits: the snapshots and the navigator of the run are kept, and the
    /// last report says how many commits gave a snapshot.
    pub open spec fn run_completed(
        &self,
        before: &Self,
        step: EngineStep,
        snapshots: Seq<CommitSnapshot>,
        sampled: nat,
    ) -> bool {
        &&& self.stage() == RunStage::Completed
        &&& self.kept_snapshots() == snapshots
        &&& self.checkout_recorded(before)
        &&& (step.action matches EngineAction::Finished(Ok(k)) && k == snapshots.len())
        &&& step.progress@.len() > 0
        &&& step.progress@.last().phase is Completed
        &&& reports(
            step.progress@.last(),
            sampled,
            sampled,
            Seq::empty(),
            completion_text(snapshots.len(), sampled),
            whole_share(100),
        )
    }

    /// What follows the end of a commit that was checked out and after which
    /// `collected` are the snapshots of the run: the checkout is recorded in
    /// the navigator of the run, and the next commit of the plan is asked
    /// for; after the last commit the run ends, in failure where no commit
    /// gave a snapshot.
    pub open spec fn after_commit(
        &self,
        before: &Self,
        step: EngineStep,
        collected: Seq<CommitSnapshot>,
    ) -> bool {
        &&& self.checkout_recorded(before)
        &&& self.after_commit_goes_on(before, step, collected)
    }

    /// What the run goes on with after the end of a commit.
    pub open spec fn after_commit_goes_on(
        &self,
        before: &Self,
        step: EngineStep,
        collected: Seq<CommitSnapshot>,
    ) -> bool {
        if before.cursor() + 1 < before.plan().len() {
            &&& self.plan() == before.plan()
            &&& self.collected() == collected
            &&& self.same_results(before)
            &&& self.commit_started(step, before.cursor() + 1)
        } else if collected.len() == 0 {
            self.run_failed(
                before,
                step,
                no_snapshot_text(),
                before.plan().len(),
                before.plan().len(),
                Seq::empty(),
                whole_share(100),
            )
        } else {
            self.run_completed(before, step, collected, before.plan().len())
        }
    }

    /// What follows once the commit sequence of `nav` is settled: the plan
    /// is the sample of the sequence, its size is reported, and the first
    /// commit of the plan is asked for; with an empty plan the run ends in
    /// failure.
    pub open spec fn plan_started(
        &self,
        before: &Self,
        step: EngineStep,
        nav: GitTemporalNavigator,
    ) -> bool {
        let plan = sample_of(
            nav.sequence(),
            before.configuration().commit_sampling as nat,
            before.configuration().max_commits,
        );
        &&& step.progress@.len() >= 2
        &&& step.progress@[step.progress@.len() - 2].phase is AnalyzingCommits
        &&& reports(
            step.progress@[step.progress@.len() - 2],
            0,
            plan.len(),
            Seq::empty(),
            analyzing_text(plan.len()),
            whole_share(15),
        )
        &&& if plan.len() == 0 {
            self.run_failed(before, step, no_snapshot_text(), 0, 0, Seq::empty(), whole_share(100))
        } else {
            &&& self.plan() == plan
            &&& self.collected().len() == 0
            &&& self.run_navigator() == Some(nav)
            &&& self.same_results(before)
            &&& self.commit_started(step, 0)
        }
    }

    fn start_plan(&mut self, progress: &mut Vec<AnalysisProgress>) -> (action: EngineAction)
        requires
            old(self).analyzer_registry.wf(),
            old(self).cache matches Some(c) ==> c.wf(),
            old(self).pending_navigator is Some,
            forall|i: int|
                0 <= i < old(progress)@.len() ==> (#[trigger] old(progress)@[i]).percentage.wf()
                    && old(progress)@[i].percentage.at_most(whole_share(15)),
            forall|i: int, j: int|
                0 <= i <= j < old(progress)@.len() ==> (#[trigger] old(progress)@[i]).percentage.at_most(
                    (#[trigger] old(progress)@[j]).percentage,
                ),
        ensures
            final(self).wf(),
            final(self).same_setup(old(self)),
            final(progress)@.len() == old(progress)@.len() + 2,
            forall|i: int| 0 <= i < old(progress)@.len() ==> final(progress)@[i] == old(progress)@[i],
            final(self).plan_started(
                old(self),
                EngineStep { progress: *final(progress), action },
                old(self).pending_navigator->0,
            ),
            final(self).share() == final(progress)@.last().percentage,
            forall|i: int|
                0 <= i < final(progress)@.len() ==> (#[trigger] final(progress)@[i]).percentage.wf(),
            forall|i: int, j: int|
                0 <= i <= j < final(progress)@.len() ==> (#[trigger] final(progress)@[i]).percentage.at_most(
                    (#[trigger] final(progress)@[j]).percentage,
                ),
    {
        let ghost before = progress@;
        let plan = match &self.pending_navigator {
            Some(nav) => sample_commits(
                nav.get_merge_sequence(),
                self.config.commit_sampling,
                self.config.max_commits,
            ),
            None => Vec::new(),
        };
        let n = plan.len();
        progress.push(
            report(
                AnalysisPhase::AnalyzingCommits,
                0,
                n,
                String::new(),
                analyzing_message(n),
                Percentage::whole(15),
            ),
        );
        self.plan = plan;
        self.cursor = 0;
        self.collected = Vec::new();
        assert(progress@.len() == before.len() + 1);
        assert(forall|i: int| 0 <= i < before.len() ==> progress@[i] == before[i]);
        if n == 0 {
            let message = no_snapshot_message();
            progress.push(
                report(
                    AnalysisPhase::Failed(message.clone()),
                    0,
                    0,
                    String::new(),
                    message.clone(),
                    Percentage::whole(100),
                ),
            );
            self.stage = RunStage::Failed;
            self.share = Percentage::whole(100);
            proof {
                let last = progress@.len() - 1;
                assert forall|i: int, j: int| 0 <= i <= j < progress@.len() implies (
                #[trigger] progress@[i]).percentage.at_most((#[trigger] progress@[j]).percentage) by {
                    assert(progress@[last - 1].percentage == whole_share(15));
                    assert(whole_share(15).at_most(progress@[last].percentage));
                    if j == last && i < last - 1 {
                        assert(progress@[i] == before[i]);
                        lemma_at_most_transitive(
                            progress@[i].percentage,
                            whole_share(15),
                            progress@[j].percentage,
                        );
                    } else if j == last - 1 && i < last - 1 {
                        assert(progress@[i] == before[i]);
                    } else if j < last - 1 {
                        assert(progress@[i] == before[i] && progress@[j] == before[j]);
                    }
                }
            }
            EngineAction::Finished(Err(message))
        } else {
            let commit = self.plan[0].clone();
            assert(self.plan.deep_view()[0] == self.plan@[0]@);
            let share = Percentage::of_commits(0, n);
            proof {
                lemma_commit_share_grows(share, share, 0, 0, n as nat);
            }
            progress.push(
                report(
                    AnalysisPhase::AnalyzingCommits,
                    1,
                    n,
                    commit.hash.clone(),
                    commit_message(commit.hash.as_str(), commit.message.as_str()),
                    share,
                ),
            );
            self.stage = RunStage::AnalyzingCommits;
            self.share = share;
            proof {
                let last = progress@.len() - 1;
                assert forall|i: int, j: int| 0 <= i <= j < progress@.len() implies (
                #[trigger] progress@[i]).percentage.at_most((#[trigger] progress@[j]).percentage) by {
                    assert(progress@[last - 1].percentage == whole_share(15));
                    assert(whole_share(15).at_most(progress@[last].percentage));
                    if j == last && i < last - 1 {
                        assert(progress@[i] == before[i]);
                        lemma_at_most_transitive(
                            progress@[i].percentage,
                            whole_share(15),
                            progress@[j].percentage,
                        );
                    } else if j == last - 1 && i < last - 1 {
                        assert(progress@[i] == before[i]);
                    } else if j < last - 1 {
                        assert(progress@[i] == before[i] && progress@[j] == before[j]);
                    }
                }
            }
            EngineAction::AnalyzeCommit { commit }
        }
    }

    fn record_checkout(&mut self)
        requires
            old(self).cursor < old(self).plan.len(),
            old(self).pending_navigator is Some,
        ensures
            final(self).config == old(self).config,
            final(self).git_navigator == old(self).git_navigator,
            final(self).analyzer_registry == old(self).analyzer_registry,
            final(self).snapshots == old(self).snapshots,
            final(self).cache == old(self).cache,
            final(self).stage == old(self).stage,
            final(self).plan == old(self).plan,
            final(self).cursor == old(self).cursor,
            final(self).collected == old(self).collected,
            final(self).share == old(self).share,
            final(self).pending_navigator matches Some(nav) && nav.is_checkout_of(
                &old(self).pending_navigator->0,
                old(self).plan()[old(self).cursor as int].hash,
            ),
    {
        assert(self.plan.deep_view()[self.cursor as int] == self.plan@[self.cursor as int]@);
        let hash = self.plan[self.cursor].hash.clone();
        let mut held = self.pending_navigator.take();
        match &mut held {
            Some(nav) => {
                let _ = nav.checkout_commit(hash.as_str(), Ok(()));
            },
            None => {},
        }
        self.pending_navigator = held;
    }

    fn advance(&mut self, progress: &mut Vec<AnalysisProgress>) -> (action: EngineAction)
        requires
            old(self).analyzer_registry.wf(),
            old(self).cache matches Some(c) ==> c.wf(),
            old(self).stage == RunStage::AnalyzingCommits,
            old(self).cursor < old(self).plan.len(),
            old(self).collected.len() <= old(self).cursor + 1,
            old(self).pending_navigator is Some,
            old(self).share == commit_share(old(self).cursor as nat, old(self).plan.len() as nat),
            old(progress)@.len() == 0,
        ensures
            final(self).wf(),
            final(self).same_setup(old(self)),
            final(progress)@.len() == 1,
            final(self).after_commit(
                old(self),
                EngineStep { progress: *final(progress), action },
                old(self).collected(),
            ),
            final(self).share() == final(progress)@.last().percentage,
            final(progress)@[0].percentage.wf(),
            old(self).share().at_most(final(progress)@[0].percentage),
    {
        self.record_checkout();
        let n = self.plan.len();
        let next = self.cursor + 1;
        if next < n {
            let commit = self.plan[next].clone();
            assert(self.plan.deep_view()[next as int] == self.plan@[next as int]@);
            let share = Percentage::of_commits(next, n);
            proof {
                lemma_commit_share_grows(
                    self.share,
                    share,
                    self.cursor as nat,
                    next as nat,
                    n as nat,
                );
            }
            progress.push(
                report(
                    AnalysisPhase::AnalyzingCommits,
                    next + 1,
                    n,
                    commit.hash.clone(),
                    commit_message(commit.hash.as_str(), commit.message.as_str()),
                    share,
                ),
            );
            self.cursor = next;
            self.share = share;
            EngineAction::AnalyzeCommit { commit }
        } else if self.collected.len() == 0 {
            let message = no_snapshot_message();
            proof {
                lemma_commit_share_grows(
                    self.share,
                    self.share,
                    self.cursor as nat,
                    self.cursor as nat,
                    n as nat,
                );
            }
            progress.push(
                report(
                    AnalysisPhase::Failed(message.clone()),
                    n,
                    n,
                    String::new(),
                    message.clone(),
                    Percentage::whole(100),
                ),
            );
            self.stage = RunStage::Failed;
            self.share = Percentage::whole(100);
            EngineAction::Finished(Err(message))
        } else {
            let count = self.collected.len();
            proof {
                lemma_commit_share_grows(
                    self.share,
                    self.share,
                    self.cursor as nat,
                    self.cursor as nat,
                    n as nat,
                );
            }
            progress.push(
                report(
                    AnalysisPhase::Completed,
                    n,
                    n,
                    String::new(),
                    completion_message(count, n),
                    Percentage::whole(100),
                ),
            );
            let mut done: Vec<CommitSnapshot> = Vec::new();
            core::mem::swap(&mut self.collected, &mut done);
            self.snapshots = done;
            self.git_navigator = self.pending_navigator.take();
            self.stage = RunStage::Completed;
            self.share = Percentage::whole(100);
            EngineAction::Finished(Ok(count))
        }
    }

    fn fail_run(
        &mut self,
        message: String,
        current: usize,
        total: usize,
        hash: String,
        share: Percentage,
        progress: &mut Vec<AnalysisProgress>,
    ) -> (action: EngineAction)
        requires
            old(self).analyzer_registry.wf(),
            old(self).cache matches Some(c) ==> c.wf(),
            share.wf(),
        ensures
            final(self).wf(),
            final(self).same_setup(old(self)),
            final(progress)@ == old(progress)@.push(final(progress)@.last()),
            final(self).run_failed(
                old(self),
                EngineStep { progress: *final(progress), action },
                message@,
                current as nat,
                total as nat,
                hash@,
                share,
            ),
            final(self).share() == share,
            final(self).plan() == old(self).plan(),
            final(self).cursor() == old(self).cursor(),
            final(self).collected() == old(self).collected(),
            final(self).run_navigator() == old(self).run_navigator(),
    {
        progress.push(
            report(AnalysisPhase::Failed(message.clone()), current, total, hash, message.clone(), share),
        );
        self.stage = RunStage::Failed;
        self.share = share;
        EngineAction::Finished(Err(message))
    }

    /// What a run begins with: the stage of cloning with nothing left of a
    /// run before, a report of it, and the request to clone the configured
    /// repository, with the subfolder that the commit sequence is restricted
    /// to.
    pub open spec fn started(&self, before: &Self, step: EngineStep) -> bool {
        &&& self.stage() == RunStage::Cloning
        &&& self.same_results(before)
        &&& self.run_navigator() is None
        &&& self.plan().len() == 0
        &&& self.cursor() == 0
        &&& self.collected().len() == 0
        &&& step.progress@.len() == 1
        &&& step.progress@[0].phase is Cloning
        &&& reports(
            step.progress@[0],
            0,
            0,
            Seq::empty(),
            cloning_text(before.configuration().github_url@),
            whole_share(0),
        )
        &&& (step.action matches EngineAction::CloneRepository {
            source,
            local_base_dir,
            subfolder_filter,
            is_local,
        } && source@ == before.configuration().github_url@ && local_base_dir@
            == before.configuration().local_base_dir@ && subfolder_filter.deep_view()
            == subfolder_filter_of(before.configuration().subfolder) && is_local
            == before.configuration().is_local_repository)
    }

    /// What the end of the clone leads to: a failed clone ends the run; else
    /// the commit sequence is reported, and the subfolder is looked for
    /// where one is configured, or the plan is made.
    pub open spec fn clone_handled(
        &self,
        before: &Self,
        step: EngineStep,
        outcome: Result<GitTemporalNavigator, String>,
    ) -> bool {
        if before.stage() != RunStage::Cloning {
            self.rejected(before, step)
        } else {
            match outcome {
                Err(reason) => self.run_failed(
                    before,
                    step,
                    clone_failure_text(reason@),
                    0,
                    0,
                    Seq::empty(),
                    whole_share(0),
                ),
                Ok(nav) => {
                    &&& step.progress@.len() > 0
                    &&& step.progress@[0].phase is BuildingCommitSequence
                    &&& reports(
                        step.progress@[0],
                        0,
                        nav.sequence().len(),
                        Seq::empty(),
                        sequence_text(nav.sequence().len()),
                        whole_share(10),
                    )
                    &&& if before.configuration().subfolder is Some {
                        &&& self.stage() == RunStage::ValidatingSubfolder
                        &&& self.run_navigator() == Some(nav)
                        &&& self.same_results(before)
                        &&& step.progress@.len() == 1
                        &&& (step.action matches EngineAction::ValidateSubfolder {
                            subfolder,
                            base_path,
                        } && Some(subfolder) == before.configuration().subfolder && base_path@
                            == nav.path())
                    } else {
                        self.plan_started(before, step, nav)
                    }
                },
            }
        }
    }

    /// What the look for the subfolder leads to: its refusal ends the run,
    /// its acceptance makes the plan.
    pub open spec fn subfolder_handled(
        &self,
        before: &Self,
        step: EngineStep,
        outcome: Result<(), String>,
    ) -> bool {
        if before.stage() != RunStage::ValidatingSubfolder {
            self.rejected(before, step)
        } else {
            match outcome {
                Err(reason) => self.run_failed(
                    before,
                    step,
                    subfolder_failure_text(reason@),
                    0,
                    0,
                    Seq::empty(),
                    whole_share(10),
                ),
                Ok(_) => self.plan_started(before, step, before.run_navigator()->0),
            }
        }
    }

    /// What the end of a commit leads to: a snapshot is collected; a failure
    /// on the infrastructure ends the run at once; any other failure skips
    /// the commit. Unless the checkout itself failed, the navigator of the
    /// run records the commit as checked out.
    pub open spec fn commit_handled(
        &self,
        before: &Self,
        step: EngineStep,
        outcome: Result<CommitSnapshot, CommitFailure>,
    ) -> bool {
        if before.stage() != RunStage::AnalyzingCommits {
            self.rejected(before, step)
        } else {
            match outcome {
                Ok(snapshot) => self.after_commit(before, step, before.collected().push(snapshot)),
                Err(failure) => if failure.infrastructure() {
                    &&& self.run_failed(
                        before,
                        step,
                        failure.text(),
                        before.cursor() + 1,
                        before.plan().len(),
                        before.plan()[before.cursor() as int].hash,
                        commit_share(before.cursor(), before.plan().len()),
                    )
                    &&& if failure is Checkout {
                        self.run_navigator() == before.run_navigator()
                    } else {
                        self.checkout_recorded(before)
                    }
                } else {
                    self.after_commit(before, step, before.collected())
                },
            }
        }
    }

    /// What the report `event` leads to.
    pub open spec fn handled(&self, before: &Self, step: EngineStep, event: EngineEvent) -> bool {
        match event {
            EngineEvent::Start => self.started(before, step),
            EngineEvent::CloneFinished(outcome) => self.clone_handled(before, step, outcome),
            EngineEvent::SubfolderChecked(outcome) => self.subfolder_handled(before, step, outcome),
            EngineEvent::CommitFinished(outcome) => self.commit_handled(before, step, outcome),
        }
    }

    #[verifier::spinoff_prover]
    fn on_start(&mut self) -> (step: EngineStep)
        requires
            old(self).wf(),
        ensures
            final(self).wf(),
            final(self).same_setup(old(self)),
            step.progress@.len() > 0 ==> final(self).share() == step.progress@.last().percentage,
            final(self).started(old(self), step),
    {
        let mut progress: Vec<AnalysisProgress> = Vec::new();
        self.stage = RunStage::Cloning;
        self.pending_navigator = None;
        self.plan = Vec::new();
        self.cursor = 0;
        self.collected = Vec::new();
        self.share = Percentage::whole(0);
        progress.push(
            report(
                AnalysisPhase::Cloning,
                0,
                0,
                String::new(),
                cloning_message(self.config.github_url.as_str()),
                Percentage::whole(0),
            ),
        );
        let subfolder_filter = match &self.config.subfolder {
            Some(s) => Some(normalize_subfolder(s.as_str())),
            None => None,
        };
        let action = EngineAction::CloneRepository {
            source: self.config.github_url.clone(),
            local_base_dir: self.config.local_base_dir.clone(),
            subfolder_filter,
            is_local: self.config.is_local_repository,
        };
        EngineStep { progress, action }
    }

    #[verifier::spinoff_prover]
    fn on_clone_finished(&mut self, outcome: Result<GitTemporalNavigator, String>) -> (step:
        EngineStep)
        requires
            old(self).wf(),
        ensures
            final(self).wf(),
            final(self).same_setup(old(self)),
            rising(old(self).share(), step.progress@),
            step.progress@.len() > 0 ==> final(self).share() == step.progress@.last().percentage,
            final(self).clone_handled(old(self), step, outcome),
    {
        let mut progress: Vec<AnalysisProgress> = Vec::new();
        if self.stage != RunStage::Cloning {
            return EngineStep { progress, action: EngineAction::Rejected };
        }
        match outcome {
            Err(reason) => {
                let mut out = chars_of("Failed to clone repository: ");
                push_str(&mut out, reason.as_str());
                let action = self.fail_run(
                    string_of(&out),
                    0,
                    0,
                    String::new(),
                    Percentage::whole(0),
                    &mut progress,
                );
                EngineStep { progress, action }
            },
            Ok(nav) => {
                let total = nav.get_merge_sequence().len();
                progress.push(
                    report(
                        AnalysisPhase::BuildingCommitSequence,
                        0,
                        total,
                        String::new(),
                        sequence_message(total),
                        Percentage::whole(10),
                    ),
                );
                let base_path = nav.local_path().clone();
                self.pending_navigator = Some(nav);
                match &self.config.subfolder {
                    Some(subfolder) => {
                        let action = EngineAction::ValidateSubfolder {
                            subfolder: subfolder.clone(),
                            base_path,
                        };
                        self.stage = RunStage::ValidatingSubfolder;
                        self.share = Percentage::whole(10);
                        EngineStep { progress, action }
                    },
                    None => {
                        assert(progress@.len() == 1);
                        assert(progress@[0].percentage == whole_share(10));
                        assert(whole_share(10).at_most(whole_share(15)));
                        assert(whole_share(10).wf());
                        let action = self.start_plan(&mut progress);
                        EngineStep { progress, action }
                    },
                }
            },
        }
    }

    #[verifier::spinoff_prover]
    fn on_subfolder_checked(&mut self, outcome: Result<(), String>) -> (step: EngineStep)
        requires
            old(self).wf(),
        ensures
            final(self).wf(),
            final(self).same_setup(old(self)),
            rising(old(self).share(), step.progress@),
            step.progress@.len() > 0 ==> final(self).share() == step.progress@.last().percentage,
            final(self).subfolder_handled(old(self), step, outcome),
    {
        let mut progress: Vec<AnalysisProgress> = Vec::new();
        if self.stage != RunStage::ValidatingSubfolder {
            return EngineStep { progress, action: EngineAction::Rejected };
        }
        match outcome {
            Err(reason) => {
                let mut out = chars_of("Subfolder validation failed: ");
                push_str(&mut out, reason.as_str());
                let action = self.fail_run(
                    string_of(&out),
                    0,
                    0,
                    String::new(),
                    Percentage::whole(10),
                    &mut progress,
                );
                assert(progress@.len() == 1);
                assert(progress@[0].percentage == whole_share(10));
                assert(old(self).share() == whole_share(10));
                assert(rising(old(self).share(), progress@));
                EngineStep { progress, action }
            },
            Ok(_) => {
                let action = self.start_plan(&mut progress);
                assert(progress@.len() == 2);
                assert(progress@[0].percentage == whole_share(15));
                assert(old(self).share() == whole_share(10));
                assert(whole_share(10).at_most(whole_share(15)));
                assert(rising(old(self).share(), progress@));
                EngineStep { progress, action }
            },
        }
    }

    #[verifier::spinoff_prover]
    fn on_commit_finished(&mut self, outcome: Result<CommitSnapshot, CommitFailure>) -> (step:
        EngineStep)
        requires
            old(self).wf(),
        ensures
            final(self).wf(),
            final(self).same_setup(old(self)),
            rising(old(self).share(), step.progress@),
            step.progress@.len() > 0 ==> final(self).share() == step.progress@.last().percentage,
            final(self).commit_handled(old(self), step, outcome),
    {
        let mut progress: Vec<AnalysisProgress> = Vec::new();
        if self.stage != RunStage::AnalyzingCommits {
            return EngineStep { progress, action: EngineAction::Rejected };
        }
        match outcome {
            Ok(snapshot) => {
                self.collected.push(snapshot);
                let ghost pushed = *self;
                let action = self.advance(&mut progress);
                let step = EngineStep { progress, action };
                assert(self.checkout_recorded(&pushed));
                assert(self.checkout_recorded(old(self)));
                assert(self.after_commit_goes_on(&pushed, step, pushed.collected()));
                assert(self.after_commit_goes_on(
                    old(self),
                    step,
                    old(self).collected().push(snapshot),
                ));
                step
            },
            Err(failure) => {
                if failure.is_infrastructure() {
                    match &failure {
                        CommitFailure::Checkout { .. } => {},
                        _ => {
                            self.record_checkout();
                        },
                    }
                    let n = self.plan.len();
                    let hash = self.plan[self.cursor].hash.clone();
                    assert(self.plan.deep_view()[self.cursor as int]
                        == self.plan@[self.cursor as int]@);
                    let share = Percentage::of_commits(self.cursor, n);
                    proof {
                        lemma_commit_share_grows(
                            share,
                            share,
                            self.cursor as nat,
                            self.cursor as nat,
                            n as nat,
                        );
                    }
                    let action = self.fail_run(
                        failure.message(),
                        self.cursor + 1,
                        n,
                        hash,
                        share,
                        &mut progress,
                    );
                    EngineStep { progress, action }
                } else {
                    let action = self.advance(&mut progress);
                    EngineStep { progress, action }
                }
            },
        }
    }

    /// One step of a run: what the report `event` of the outside world
    /// leads to.
    ///
    /// A run is started at any time and begins by cloning. A failed clone
    /// ends the run. After the clone the commit sequence is reported; where
    /// a subfolder is configured it is looked for first, and its refusal
    /// ends the run. Then the commits are sampled and analyzed one by one in
    /// order. A commit that fails on the infrastructure ends the run at
    /// once; any other failure skips the commit. Unless the checkout itself
    /// failed, the navigator of the run records the commit as checked out.
    /// After the last commit the run completes with the snapshots collected,
    /// or fails where there are none. An event that the run does not wait
    /// for is rejected. The shares reported never fall in the course of a
    /// run.
    pub fn analyze_repository(&mut self, event: EngineEvent) -> (step: EngineStep)
        requires
            old(self).wf(),
        ensures
            final(self).wf(),
            final(self).same_setup(old(self)),
            !(event is Start) ==> rising(old(self).share(), step.progress@),
            step.progress@.len() > 0 ==> final(self).share() == step.progress@.last().percentage,
            final(self).handled(old(self), step, event),
    {
        match event {
            EngineEvent::Start => self.on_start(),
            EngineEvent::CloneFinished(outcome) => self.on_clone_finished(outcome),
            EngineEvent::SubfolderChecked(outcome) => self.on_subfolder_checked(outcome),
            EngineEvent::CommitFinished(outcome) => self.on_commit_finished(outcome),
        }
    }
}

impl<A: DependencyAnalyzer> ChronoGraphEngine<A> {
    /// The snapshots of the last run that completed.
    pub fn get_snapshots(&self) -> (snapshots: &Vec<CommitSnapshot>)
        ensures
            snapshots@ == self.kept_snapshots(),
    {
        &self.snapshots
    }

    /// Where the repository of the last completed run came from and where
    /// its working copy lies.
    pub fn get_repo_info(&self) -> (info: Option<&RepoCloneInfo>)
        ensures
            info is Some <==> self.navigator() is Some,
            info matches Some(i) ==> i.original_url@ == self.navigator()->0.source() && i.local_path@
                == self.navigator()->0.path() && i.default_branch@ == self.navigator()->0.branch()
                && i.clone_timestamp == self.navigator()->0.cloned_at(),
    {
        match &self.git_navigator {
            Some(nav) => Some(nav.clone_info()),
            None => None,
        }
    }

    /// The cache, where there is one.
    pub fn cache(&self) -> (cache: Option<&AnalysisCache>)
        ensures
            match cache {
                Some(c) => self.cache_state() == Some(*c),
                None => self.cache_state() is None,
            },
    {
        match &self.cache {
            Some(c) => Some(c),
            None => None,
        }
    }

    /// Where the run stands.
    pub fn run_stage(&self) -> (stage: RunStage)
        ensures
            stage == self.stage(),
    {
        self.stage
    }

    /// The configuration.
    pub fn get_config(&self) -> (config: &ChronoGraphConfig)
        ensures
            *config == self.configuration(),
    {
        &self.config
    }

    /// Replaces the configuration. A run under way is given up, since its
    /// plan was made for the old configuration.
    pub fn update_config(&mut self, config: ChronoGraphConfig)
        requires
            old(self).wf(),
        ensures
            final(self).wf(),
            final(self).configuration() == config,
            final(self).registry() == old(self).registry(),
            final(self).cache_state() == old(self).cache_state(),
            final(self).same_results(old(self)),
            final(self).stage() == match old(self).stage() {
                RunStage::Completed => RunStage::Completed,
                RunStage::Failed => RunStage::Failed,
                _ => RunStage::Idle,
            },
    {
        self.config = config;
        match self.stage {
            RunStage::Completed => {},
            RunStage::Failed => {},
            _ => {
                self.stage = RunStage::Idle;
            },
        }
    }

    /// Registers `analyzer` under the name it gives itself: whatever that
    /// name is, the analyzer is registered under it, in place of one that
    /// had the name, and nothing else of the engine changes.
    pub fn register_analyzer(&mut self, analyzer: A)
        requires
            old(self).wf(),
        ensures
            final(self).wf(),
            final(self).configuration() == old(self).configuration(),
            final(self).cache_state() == old(self).cache_state(),
            final(self).same_results(old(self)),
            final(self).same_run(old(self)),
            final(self).registry().wf(),
            exists|n: Seq<char>|
                #[trigger] AnalyzerRegistry::registered_under(
                    &final(self).registry(),
                    &old(self).registry(),
                    n,
                    analyzer,
                ),
    {
        let ghost before = self.analyzer_registry;
        self.analyzer_registry.register(analyzer);
        proof {
            let n = choose|n: Seq<char>|
                #[trigger] AnalyzerRegistry::registered_under(
                    &self.analyzer_registry,
                    &before,
                    n,
                    analyzer,
                );
            assert(AnalyzerRegistry::registered_under(
                &self.registry(),
                &old(self).registry(),
                n,
                analyzer,
            ));
        }
    }

    /// One line per registered analyzer, in the order of registration.
    pub fn list_analyzers(&self) -> (list: Vec<AnalyzerInfo>)
        requires
            self.wf(),
        ensures
            list@.len() == self.registry().names().len(),
            forall|i: int| 0 <= i < list@.len() ==> list@[i].name@ == self.registry().names()[i],
            forall|i: int|
                0 <= i < list@.len() ==> list@[i].is_default == (self.registry().default_name()
                    == Some(self.registry().names()[i])),
    {
        self.analyzer_registry.list_analyzers()
    }

    /// The analyzer registered under `name`.
    pub fn get_analyzer(&self, name: &str) -> (r: Option<&A>)
        requires
            self.wf(),
        ensures
            r is Some <==> self.registry().is_registered(name@),
            r matches Some(a) ==> *a == self.registry().analyzer_at(
                self.registry().names().index_of(name@),
            ),
    {
        self.analyzer_registry.get_analyzer(name)
    }

    /// The figures of the cache: none where there is no cache or where its
    /// sizes cannot be summed.
    pub fn get_cache_statistics(&self) -> (stats: Option<CacheStatistics>)
        requires
            self.wf(),
        ensures
            stats is Some <==> (self.cache_state() matches Some(c) && total_size(c@) <= u64::MAX),
            stats matches Some(s) ==> {
                &&& s.total_entries == self.cache_state()->0@.len()
                &&& s.total_size_bytes == total_size(self.cache_state()->0@)
                &&& s.hit_count == 0
                &&& s.miss_count == 0
                &&& is_tally(repositories_of(self.cache_state()->0@), s.repositories@)
            },
    {
        match &self.cache {
            Some(cache) => match cache.get_statistics() {
                Ok(stats) => Some(stats),
                Err(_) => None,
            },
            None => None,
        }
    }

    /// Deletes the cache rows of the configured repository and returns the
    /// blob paths of the deleted rows; nothing where there is no cache.
    pub fn clear_repository_cache(&mut self) -> (removed: Vec<String>)
        requires
            old(self).wf(),
        ensures
            final(self).wf(),
            final(self).configuration() == old(self).configuration(),
            final(self).registry() == old(self).registry(),
            final(self).same_results(old(self)),
            final(self).stage() == old(self).stage(),
            match old(self).cache_state() {
                Some(c) => final(self).cache_state() matches Some(d) && d.dir() == c.dir() && d@
                    == kept(c@, RowTest::Repository(old(self).configuration().github_url@))
                    && removed.deep_view() == blob_paths(
                    c.dir(),
                    taken(c@, RowTest::Repository(old(self).configuration().github_url@)),
                ),
                None => final(self).cache_state() is None && removed@.len() == 0,
            },
    {
        let mut cache = self.cache.take();
        let removed = match &mut cache {
            Some(c) => c.remove_repository(self.config.github_url.as_str()),
            None => Vec::new(),
        };
        self.cache = cache;
        removed
    }

    /// Deletes the cache rows last read more than `max_age_days` days before
    /// `now` and returns the blob paths of the deleted rows; nothing where
    /// there is no cache.
    pub fn cleanup_old_cache(&mut self, max_age_days: u64, now: u64) -> (removed: Vec<String>)
        requires
            old(self).wf(),
        ensures
            final(self).wf(),
            final(self).configuration() == old(self).configuration(),
            final(self).registry() == old(self).registry(),
            final(self).same_results(old(self)),
            final(self).stage() == old(self).stage(),
            match old(self).cache_state() {
                Some(c) => final(self).cache_state() matches Some(d) && d.dir() == c.dir() && d@
                    == kept(c@, RowTest::AccessedBefore(cutoff(now, max_age_days)))
                    && removed.deep_view() == blob_paths(
                    c.dir(),
                    taken(c@, RowTest::AccessedBefore(cutoff(now, max_age_days))),
                ),
                None => final(self).cache_state() is None && removed@.len() == 0,
            },
    {
        let mut cache = self.cache.take();
        let removed = match &mut cache {
            Some(c) => c.cleanup_old_entries(max_age_days, now),
            None => Vec::new(),
        };
        self.cache = cache;
        removed
    }

    /// Deletes every cache row and returns how many there were; zero where
    /// there is no cache.
    pub fn clear_all_cache(&mut self) -> (removed: usize)
        requires
            old(self).wf(),
        ensures
            final(self).wf(),
            final(self).configuration() == old(self).configuration(),
            final(self).registry() == old(self).registry(),
            final(self).same_results(old(self)),
            final(self).stage() == old(self).stage(),
            match old(self).cache_state() {
                Some(c) => final(self).cache_state() matches Some(d) && d.dir() == c.dir() && d@.len()
                    == 0 && removed == c@.len(),
                None => final(self).cache_state() is None && removed == 0,
            },
    {
        let mut cache = self.cache.take();
        let removed = match &mut cache {
            Some(c) => c.clear_all(),
            None => 0,
        };
        self.cache = cache;
        removed
    }

    /// Replaces the rows of the cache index by `rows`, as they were read
    /// from the index file; nothing where there is no cache.
    pub fn reload_cache(&mut self, rows: Vec<CacheEntryMetadata>)
        requires
            old(self).wf(),
        ensures
            final(self).wf(),
            final(self).configuration() == old(self).configuration(),
            final(self).registry() == old(self).registry(),
            final(self).same_results(old(self)),
            final(self).same_run(old(self)),
            match old(self).cache_state() {
                Some(c) => final(self).cache_state() matches Some(d) && d.dir() == c.dir() && d@
                    == restored(rows.deep_view()),
                None => final(self).cache_state() is None,
            },
    {
        let mut cache = self.cache.take();
        match &mut cache {
            Some(c) => {
                c.reload(rows);
            },
            None => {},
        }
        self.cache = cache;
    }

    /// Reads the cache entry of `key`, given what was found in the place of
    /// its blob; nothing where there is no cache.
    pub fn read_cache(&mut self, key: &AnalysisCacheKey, blob: BlobProbe, now: u64) -> (out: Option<
        CacheRead,
    >)
        requires
            old(self).wf(),
        ensures
            final(self).wf(),
            final(self).configuration() == old(self).configuration(),
            final(self).registry() == old(self).registry(),
            final(self).same_results(old(self)),
            final(self).stage() == old(self).stage(),
            match old(self).cache_state() {
                Some(c) => final(self).cache_state() matches Some(d) && d.dir() == c.dir() && d@
                    == rows_after_read(c@, cache_key_text(key@), blob, now) && (out matches Some(
                    read,
                ) && read.result == result_of_read(c@, cache_key_text(key@), blob) && is_change_of(
                    read.change,
                    c@,
                    c.dir(),
                    cache_key_text(key@),
                    blob,
                    now,
                )),
                None => final(self).cache_state() is None && out is None,
            },
    {
        let mut cache = self.cache.take();
        let out = match &mut cache {
            Some(c) => Some(c.get(key, blob, now)),
            None => None,
        };
        self.cache = cache;
        out
    }

    /// Writes the cache row of `result` under `key`; nothing where there is
    /// no cache.
    pub fn write_cache(
        &mut self,
        key: &AnalysisCacheKey,
        result: &AnalysisResult,
        file_size: u64,
        now: u64,
    ) -> (row: Option<CacheEntryMetadata>)
        requires
            old(self).wf(),
        ensures
            final(self).wf(),
            final(self).configuration() == old(self).configuration(),
            final(self).registry() == old(self).registry(),
            final(self).same_results(old(self)),
            final(self).stage() == old(self).stage(),
            match old(self).cache_state() {
                Some(c) => final(self).cache_state() matches Some(d) && d.dir() == c.dir() && (
                row matches Some(r) && r@ == row_for(key@, *result, file_size, now) && d@
                    == with_row(c@, r@)),
                None => final(self).cache_state() is None && row is None,
            },
    {
        let mut cache = self.cache.take();
        let row = match &mut cache {
            Some(c) => Some(c.put(key, result, file_size, now)),
            None => None,
        };
        self.cache = cache;
        row
    }

    /// The statistics of the snapshots of the last run that completed.
    pub fn get_statistics(&self) -> (stats: AnalysisStatistics)
        ensures
            stats.total_snapshots == self.kept_snapshots().len(),
            stats.total_dependencies == capped(dependencies_in(self.kept_snapshots())),
            stats.total_files_analyzed == capped(files_in(self.kept_snapshots())),
            is_tally(authors_of(self.kept_snapshots()), stats.author_commit_counts@),
            self.kept_snapshots().len() > 0 ==> stats.time_span_seconds == span(
                self.kept_snapshots()[0].commit_info.timestamp,
                self.kept_snapshots().last().commit_info.timestamp,
            ) && stats.first_commit_hash@ == self.kept_snapshots()[0].commit_info.hash@
                && stats.last_commit_hash@ == self.kept_snapshots().last().commit_info.hash@,
            self.kept_snapshots().len() == 0 ==> stats.time_span_seconds == 0
                && stats.first_commit_hash@.len() == 0 && stats.last_commit_hash@.len() == 0,
    {
        statistics_of(&self.snapshots)
    }

    /// The analysis of the commit that the run has asked for, and the first
    /// thing it asks for; nothing where the run asks for no commit. The
    /// subfolder is used with slashes for separators, in the directory that
    /// is analyzed and in the cache key.
    pub fn begin_commit(&self) -> (r: Option<(CommitAnalysis, CommitAction)>)
        requires
            self.wf(),
        ensures
            r is Some <==> self.stage() == RunStage::AnalyzingCommits,
            r matches Some(pair) ==> {
                &&& pair.0.wf()
                &&& pair.0.commit()@ == self.plan()[self.cursor() as int]
                &&& pair.0.stage() == CommitStage::CheckingOut
                &&& pair.0.path() == analysis_path_of(
                    self.run_navigator()->0.path(),
                    subfolder_filter_of(self.configuration().subfolder),
                )
                &&& pair.0.analyzer() == self.configuration().analyzer_name@
                &&& pair.0.subfolder() == subfolder_filter_of(self.configuration().subfolder)
                &&& pair.0.key() == key_of(
                    self.configuration().github_url@,
                    self.plan()[self.cursor() as int].hash,
                    subfolder_filter_of(self.configuration().subfolder),
                    self.configuration().analyzer_name@,
                    self.configuration().analysis_config@,
                )
                &&& pair.0.analyzer_is_known() == self.registry().is_registered(
                    self.configuration().analyzer_name@,
                )
                &&& (pair.1 matches CommitAction::Checkout { commit_hash } && commit_hash@
                    == self.plan()[self.cursor() as int].hash)
            },
    {
        if self.stage != RunStage::AnalyzingCommits {
            return None;
        }
        match &self.pending_navigator {
            None => None,
            Some(nav) => {
                let known = self.analyzer_registry.get_analyzer(
                    self.config.analyzer_name.as_str(),
                ).is_some();
                assert(self.plan.deep_view()[self.cursor as int] == self.plan@[self.cursor as int]@);
                let subfolder = match &self.config.subfolder {
                    Some(s) => Some(normalize_subfolder(s.as_str())),
                    None => None,
                };
                Some(
                    CommitAnalysis::begin(
                        &self.plan[self.cursor],
                        self.config.github_url.as_str(),
                        nav.local_path().as_str(),
                        &subfolder,
                        self.config.analyzer_name.as_str(),
                        known,
                        &self.config.analysis_config,
                    ),
                )
            },
        }
    }

    /// Gives the engine up. Where the configuration asks for it, the
    /// navigator of the last completed run is handed out, for its working
    /// copy to be deleted.
    pub fn cleanup(self) -> (nav: Option<GitTemporalNavigator>)
        ensures
            nav == if self.configuration().cleanup_after_analysis {
                self.navigator()
            } else {
                None
            },
    {
        if self.config.cleanup_after_analysis {
            self.git_navigator
        } else {
            None
        }
    }
}

/// The snapshots among the ends of commits `outcomes`, in order.
pub open spec fn snapshots_of(outcomes: Seq<Result<CommitSnapshot, CommitFailure>>) -> Seq<
    CommitSnapshot,
>
    decreases outcomes.len(),
{
    if outcomes.len() == 0 {
        Seq::empty()
    } else {
        let before = snapshots_of(outcomes.drop_last());
        match outcomes.last() {
            Ok(snapshot) => before.push(snapshot),
            Err(_) => before,
        }
    }
}

/// Where the first `k` commits gave no snapshot and all later ones did, the
/// snapshots are those of the later commits, in order, one for each.
pub proof fn lemma_snapshots_after_failures(
    outcomes: Seq<Result<CommitSnapshot, CommitFailure>>,
    k: int,
)
    requires
        0 <= k <= outcomes.len(),
        forall|i: int| 0 <= i < k ==> (#[trigger] outcomes[i]) is Err,
        forall|i: int| k <= i < outcomes.len() ==> (#[trigger] outcomes[i]) is Ok,
    ensures
        snapshots_of(outcomes).len() == outcomes.len() - k,
        forall|j: int|
            0 <= j < outcomes.len() - k ==> Ok::<CommitSnapshot, CommitFailure>(
                #[trigger] snapshots_of(outcomes)[j],
            ) == outcomes[k + j],
    decreases outcomes.len(),
{
    if outcomes.len() > 0 {
        let rest = outcomes.drop_last();
        if k == outcomes.len() {
            assert forall|i: int| 0 <= i < k - 1 implies (#[trigger] rest[i]) is Err by {
                assert(rest[i] == outcomes[i]);
            }
            lemma_snapshots_after_failures(rest, k - 1);
            assert(outcomes.last() == outcomes[k - 1]);
        } else {
            assert forall|i: int| 0 <= i < k implies (#[trigger] rest[i]) is Err by {
                assert(rest[i] == outcomes[i]);
            }
            assert forall|i: int| k <= i < rest.len() implies (#[trigger] rest[i]) is Ok by {
                assert(rest[i] == outcomes[i]);
            }
            lemma_snapshots_after_failures(rest, k);
            assert(outcomes.last() == outcomes[outcomes.len() - 1]);
            assert forall|j: int| 0 <= j < outcomes.len() - k implies Ok::<
                CommitSnapshot,
                CommitFailure,
            >(#[trigger] snapshots_of(outcomes)[j]) == outcomes[k + j] by {
                if j < rest.len() - k {
                    assert(snapshots_of(outcomes)[j] == snapshots_of(rest)[j]);
                    assert(rest[k + j] == outcomes[k + j]);
                }
            }
        }
    }
}

impl<A: DependencyAnalyzer> ChronoGraphEngine<A> {
    /// Whether `states`, `steps` and `outcomes` are the analysis of the
    /// commits of a plan, one after the other: the first state waits for the
    /// first commit of the plan with nothing collected, each further state
    /// is what the step on the end of the commit before leads to, and no
    /// commit failed on the infrastructure.
    pub open spec fn is_analysis(
        states: Seq<Self>,
        steps: Seq<EngineStep>,
        outcomes: Seq<Result<CommitSnapshot, CommitFailure>>,
    ) -> bool {
        &&& outcomes.len() > 0
        &&& states.len() == outcomes.len() + 1
        &&& steps.len() == outcomes.len()
        &&& states[0].stage() == RunStage::AnalyzingCommits
        &&& states[0].cursor() == 0
        &&& states[0].collected().len() == 0
        &&& states[0].plan().len() == outcomes.len()
        &&& forall|i: int|
            0 <= i < outcomes.len() ==> !((#[trigger] outcomes[i]) matches Err(failure)
                && failure.infrastructure())
        &&& forall|i: int|
            0 <= i < outcomes.len() ==> (#[trigger] states[i + 1]).commit_handled(
                &states[i],
                steps[i],
                outcomes[i],
            )
    }

    /// While commits are left, the run waits for the next commit of the
    /// plan and has collected the snapshots of the commits before it.
    pub proof fn lemma_analysis_goes_on(
        states: Seq<Self>,
        steps: Seq<EngineStep>,
        outcomes: Seq<Result<CommitSnapshot, CommitFailure>>,
        done: int,
    )
        requires
            Self::is_analysis(states, steps, outcomes),
            0 <= done < outcomes.len(),
        ensures
            states[done].stage() == RunStage::AnalyzingCommits,
            states[done].cursor() == done,
            states[done].plan() == states[0].plan(),
            states[done].collected() == snapshots_of(outcomes.take(done)),
        decreases done,
    {
        if done == 0 {
            assert(outcomes.take(0) =~= Seq::empty());
            assert(states[0].collected() =~= Seq::empty());
        } else {
            Self::lemma_analysis_goes_on(states, steps, outcomes, done - 1);
            let before = states[done - 1];
            let after = states[done - 1 + 1];
            assert(after.commit_handled(&before, steps[done - 1], outcomes[done - 1]));
            assert(outcomes.take(done).drop_last() =~= outcomes.take(done - 1));
            assert(outcomes.take(done).last() == outcomes[done - 1]);
            assert(!(outcomes[done - 1] matches Err(failure) && failure.infrastructure()));
        }
    }

    /// A run over a plan of which no commit fails on the infrastructure
    /// keeps exactly the snapshots that its commits gave, in the order of
    /// the plan, whatever failed in between. With a snapshot it completes
    /// and reports how many of the commits gave one; without any it fails.
    pub proof fn law_run_keeps_the_snapshots_in_order(
        states: Seq<Self>,
        steps: Seq<EngineStep>,
        outcomes: Seq<Result<CommitSnapshot, CommitFailure>>,
    )
        requires
            Self::is_analysis(states, steps, outcomes),
        ensures
            snapshots_of(outcomes).len() > 0 ==> states.last().run_completed(
                &states[outcomes.len() - 1],
                steps.last(),
                snapshots_of(outcomes),
                outcomes.len(),
            ),
            snapshots_of(outcomes).len() > 0 ==> states.last().kept_snapshots() == snapshots_of(
                outcomes,
            ),
            snapshots_of(outcomes).len() == 0 ==> states.last().run_failed(
                &states[outcomes.len() - 1],
                steps.last(),
                no_snapshot_text(),
                outcomes.len(),
                outcomes.len(),
                Seq::empty(),
                whole_share(100),
            ),
    {
        let n = outcomes.len() as int;
        Self::lemma_analysis_goes_on(states, steps, outcomes, n - 1);
        let before = states[n - 1];
        let after = states[n - 1 + 1];
        assert(after == states.last());
        assert(steps[n - 1] == steps.last());
        assert(after.commit_handled(&before, steps[n - 1], outcomes[n - 1]));
        assert(outcomes.drop_last() =~= outcomes.take(n - 1));
        assert(outcomes.last() == outcomes[n - 1]);
        assert(!(outcomes[n - 1] matches Err(failure) && failure.infrastructure()));
    }

    /// A run over a plan at whose first `k` commits the project is not
    /// there yet, and at whose later commits the analysis succeeds, skips
    /// the first `k` commits and completes with one snapshot for each later
    /// commit, in the order of the plan: more than none and fewer than the
    /// plan has commits. Its last report says how many of how many commits
    /// were analyzed, at which rate, and how many were skipped.
    pub proof fn law_run_with_project_added_later(
        states: Seq<Self>,
        steps: Seq<EngineStep>,
        outcomes: Seq<Result<CommitSnapshot, CommitFailure>>,
        k: int,
    )
        requires
            Self::is_analysis(states, steps, outcomes),
            1 <= k < outcomes.len(),
            forall|i: int|
                0 <= i < k ==> ((#[trigger] outcomes[i]) matches Err(failure)
                    && failure.missing_project()),
            forall|i: int| k <= i < outcomes.len() ==> (#[trigger] outcomes[i]) is Ok,
        ensures
            states.last().stage() == RunStage::Completed,
            states.last().kept_snapshots().len() == outcomes.len() - k,
            0 < states.last().kept_snapshots().len() < outcomes.len(),
            forall|j: int|
                0 <= j < outcomes.len() - k ==> Ok::<CommitSnapshot, CommitFailure>(
                    #[trigger] states.last().kept_snapshots()[j],
                ) == outcomes[k + j],
            steps.last().action == EngineAction::Finished(
                Ok::<usize, String>((outcomes.len() - k) as usize),
            ),
            steps.last().progress@.len() > 0,
            steps.last().progress@.last().phase is Completed,
            reports(
                steps.last().progress@.last(),
                outcomes.len(),
                outcomes.len(),
                Seq::empty(),
                completion_text((outcomes.len() - k) as nat, outcomes.len()),
                whole_share(100),
            ),
    {
        assert forall|i: int| 0 <= i < k implies (#[trigger] outcomes[i]) is Err by {}
        lemma_snapshots_after_failures(outcomes, k);
        Self::law_run_keeps_the_snapshots_in_order(states, steps, outcomes);
    }
}

} // verus!
