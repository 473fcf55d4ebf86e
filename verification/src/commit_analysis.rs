//! The analysis of one sampled commit: what is asked of the outside world,
//! in which order, and what each answer leads to.

use vstd::prelude::*;
use crate::analysis_cache::{key_of, AnalysisCacheKey};
use crate::dependency_analyzer::{AnalysisConfig, AnalysisResult};
use crate::git_navigator::CommitInfo;
use crate::progress::{head, short_hash};
use crate::text::{chars_of, push_chars, push_str, same_text, string_of};

verus! {

/// The dependencies of one commit, with the commit and the directory that
/// was analyzed.
#[derive(Debug)]
pub struct CommitSnapshot {
    pub commit_info: CommitInfo,
    pub analysis_result: AnalysisResult,
    pub project_path: String,
}

/// Why a commit gave no snapshot.
#[derive(Debug)]
pub enum CommitFailure {
    /// The commit could not be checked out.
    Checkout { message: String },
    /// The working tree could not be listed.
    DirectoryListing { message: String },
    /// No analyzer is registered under the configured name.
    AnalyzerNotFound { name: String },
    /// The configured subfolder is not there at this commit.
    SubfolderMissing { subfolder: String, commit_hash: String },
    /// The analyzer finds no project at this commit.
    NotAnalyzable { commit_hash: String, analyzer_name: String },
    /// The analyzer ran and failed.
    AnalysisFailed { message: String },
}

/// What is added to the message where the analyzer that found no project is
/// `lakos`.
pub open spec fn lakos_hint() -> Seq<char> {
    " (No pubspec.yaml found - this doesn't appear to be a Flutter/Dart project. If the project is in a subfolder, please specify it in the analysis settings.)"@
}

impl CommitFailure {
    /// Whether the failure is one of the infrastructure, which ends the run.
    pub open spec fn infrastructure(&self) -> bool {
        self is Checkout || self is DirectoryListing
    }

    /// Whether the failure says that the project is not there at the commit.
    pub open spec fn missing_project(&self) -> bool {
        self is SubfolderMissing || self is NotAnalyzable
    }

    /// The failure in words.
    pub open spec fn text(&self) -> Seq<char> {
        match self {
            CommitFailure::Checkout { message } => "Failed to checkout commit: "@ + message@,
            CommitFailure::DirectoryListing { message } => "Directory listing failed: "@
                + message@,
            CommitFailure::AnalyzerNotFound { name } => "Analyzer '"@ + name@ + "' not found"@,
            CommitFailure::SubfolderMissing { subfolder, commit_hash } => "Subfolder '"@
                + subfolder@ + "' does not exist at commit "@ + commit_hash@,
            CommitFailure::NotAnalyzable { commit_hash, analyzer_name } => {
                let start = "Cannot analyze project at commit "@ + head(commit_hash@, 8)
                    + ": Required project files not found"@;
                if analyzer_name@ == "lakos"@ {
                    start + lakos_hint()
                } else {
                    start
                }
            },
            CommitFailure::AnalysisFailed { message } => "Failed to run dependency analysis: "@
                + message@,
        }
    }

    /// Whether the failure is one of the infrastructure, which ends the run.
    pub fn is_infrastructure(&self) -> (r: bool)
        ensures
            r == self.infrastructure(),
    {
        match self {
            CommitFailure::Checkout { .. } => true,
            CommitFailure::DirectoryListing { .. } => true,
            _ => false,
        }
    }

    /// Whether the failure says that the project is not there at the commit.
    pub fn is_missing_project(&self) -> (r: bool)
        ensures
            r == self.missing_project(),
    {
        match self {
            CommitFailure::SubfolderMissing { .. } => true,
            CommitFailure::NotAnalyzable { .. } => true,
            _ => false,
        }
    }

    /// The failure in words.
    pub fn message(&self) -> (m: String)
        ensures
            m@ == self.text(),
    {
        match self {
            CommitFailure::Checkout { message } => {
                let mut out = chars_of("Failed to checkout commit: ");
                push_str(&mut out, message.as_str());
                string_of(&out)
            },
            CommitFailure::DirectoryListing { message } => {
                let mut out = chars_of("Directory listing failed: ");
                push_str(&mut out, message.as_str());
                string_of(&out)
            },
            CommitFailure::AnalyzerNotFound { name } => {
                let mut out = chars_of("Analyzer '");
                push_str(&mut out, name.as_str());
                push_str(&mut out, "' not found");
                string_of(&out)
            },
            CommitFailure::SubfolderMissing { subfolder, commit_hash } => {
                let mut out = chars_of("Subfolder '");
                push_str(&mut out, subfolder.as_str());
                push_str(&mut out, "' does not exist at commit ");
                push_str(&mut out, commit_hash.as_str());
                string_of(&out)
            },
            CommitFailure::NotAnalyzable { commit_hash, analyzer_name } => {
                let mut out = chars_of("Cannot analyze project at commit ");
                let h = short_hash(commit_hash.as_str());
                push_chars(&mut out, &h);
                push_str(&mut out, ": Required project files not found");
                if same_text(analyzer_name.as_str(), "lakos") {
                    push_str(
                        &mut out,
                        " (No pubspec.yaml found - this doesn't appear to be a Flutter/Dart project. If the project is in a subfolder, please specify it in the analysis settings.)",
                    );
                }
                string_of(&out)
            },
            CommitFailure::AnalysisFailed { message } => {
                let mut out = chars_of("Failed to run dependency analysis: ");
                push_str(&mut out, message.as_str());
                string_of(&out)
            },
        }
    }
}

/// Where the analysis of a commit stands: what it waits for.
#[derive(Debug, Clone, Copy, PartialEq, Eq, Structural)]
pub enum CommitStage {
    /// The checkout of the commit.
    CheckingOut,
    /// Whether the subfolder is there.
    ResolvingPath,
    /// Whether the analyzer finds a project.
    Probing,
    /// What the cache holds.
    LookingUp,
    /// The analyzer's result.
    Analyzing,
    /// The write to the cache.
    Storing,
}

/// An answer of the outside world.
#[derive(Debug)]
pub enum CommitEvent {
    /// The checkout succeeded or failed.
    CheckedOut(Result<(), String>),
    /// The directory to analyze is there or is not.
    PathResolved { exists: bool },
    /// The analyzer finds a project or finds none.
    Probed { analyzable: bool },
    /// The cache holds this result, or none that can be used.
    CacheAnswered(Option<AnalysisResult>),
    /// The analyzer gave this result or failed.
    Analyzed(Result<AnalysisResult, String>),
    /// The write to the cache succeeded or failed.
    Stored(Result<(), String>),
}

/// What is asked of the outside world next.
#[derive(Debug, PartialEq, Eq)]
pub enum CommitAction {
    /// Check out the commit.
    Checkout { commit_hash: String },
    /// Say whether the directory is there.
    ResolvePath { path: String },
    /// Ask the analyzer whether the directory holds a project.
    Probe { path: String, analyzer_name: String },
    /// Read the cache.
    LookUp { key: AnalysisCacheKey },
    /// Run the analyzer on the directory.
    Analyze { path: String, analyzer_name: String },
    /// Write the result just handed in to the cache.
    Store { key: AnalysisCacheKey },
}

/// The analysis of one commit in progress.
#[derive(Debug)]
pub struct CommitAnalysis {
    commit: CommitInfo,
    repo_url: String,
    subfolder: Option<String>,
    analyzer_name: String,
    analyzer_known: bool,
    analysis_config: AnalysisConfig,
    analysis_path: String,
    stage: CommitStage,
    result: Option<AnalysisResult>,
}

/// What one step of the analysis of a commit leads to.
#[derive(Debug)]
pub enum CommitStep {
    /// The analysis goes on and asks for `action`.
    Continue { state: CommitAnalysis, action: CommitAction },
    /// The analysis is over.
    Finished(Result<CommitSnapshot, CommitFailure>),
    /// The event is not the answer that the analysis waits for; nothing
    /// changed.
    Rejected { state: CommitAnalysis },
}

/// The directory that is analyzed: the working copy, or the subfolder
/// below it.
pub open spec fn analysis_path_of(base: Seq<char>, subfolder: Option<Seq<char>>) -> Seq<char> {
    match subfolder {
        Some(s) => base + seq!['/'] + s,
        None => base,
    }
}

/// Whether `event` is the answer that an analysis in `stage` waits for.
pub open spec fn answers(stage: CommitStage, event: CommitEvent) -> bool {
    match stage {
        CommitStage::CheckingOut => event is CheckedOut,
        CommitStage::ResolvingPath => event is PathResolved,
        CommitStage::Probing => event is Probed,
        CommitStage::LookingUp => event is CacheAnswered,
        CommitStage::Analyzing => event is Analyzed,
        CommitStage::Storing => event is Stored,
    }
}

impl CommitAnalysis {
    /// The commit under analysis.
    pub closed spec fn commit(&self) -> CommitInfo {
        self.commit
    }

    /// What the analysis waits for.
    pub closed spec fn stage(&self) -> CommitStage {
        self.stage
    }

    /// The directory that is analyzed.
    pub closed spec fn path(&self) -> Seq<char> {
        self.analysis_path@
    }

    /// The configured subfolder.
    pub closed spec fn subfolder(&self) -> Option<Seq<char>> {
        self.subfolder.deep_view()
    }

    /// The configured analyzer's name.
    pub closed spec fn analyzer(&self) -> Seq<char> {
        self.analyzer_name@
    }

    /// Whether the configured analyzer is registered.
    pub closed spec fn analyzer_is_known(&self) -> bool {
        self.analyzer_known
    }

    /// The key under which the result is cached.
    pub closed spec fn key(&self) -> crate::analysis_cache::AnalysisCacheKeyView {
        key_of(
            self.repo_url@,
            self.commit@.hash,
            self.subfolder.deep_view(),
            self.analyzer_name@,
            self.analysis_config@,
        )
    }

    /// The analyzer's result, while it waits to be written to the cache.
    pub closed spec fn held(&self) -> Option<AnalysisResult> {
        self.result
    }

    /// A result is held exactly while the write to the cache is awaited,
    /// and the subfolder is asked for only where one is configured.
    pub closed spec fn wf(&self) -> bool {
        &&& self.result is Some <==> self.stage == CommitStage::Storing
        &&& self.stage == CommitStage::ResolvingPath ==> self.subfolder is Some
    }

    /// The analysis of `commit` of the repository `repo_url`, whose working
    /// copy lies at `base_path`, and the first thing it asks for: the
    /// checkout of the commit.
    pub fn begin(
        commit: &CommitInfo,
        repo_url: &str,
        base_path: &str,
        subfolder: &Option<String>,
        analyzer_name: &str,
        analyzer_known: bool,
        analysis_config: &AnalysisConfig,
    ) -> (r: (CommitAnalysis, CommitAction))
        ensures
            r.0.wf(),
            r.0.commit()@ == commit@,
            r.0.stage() == CommitStage::CheckingOut,
            r.0.path() == analysis_path_of(base_path@, subfolder.deep_view()),
            r.0.subfolder() == subfolder.deep_view(),
            r.0.analyzer() == analyzer_name@,
            r.0.analyzer_is_known() == analyzer_known,
            r.0.key() == key_of(
                repo_url@,
                commit@.hash,
                subfolder.deep_view(),
                analyzer_name@,
                analysis_config@,
            ),
            r.1 matches CommitAction::Checkout { commit_hash } && commit_hash@ == commit@.hash,
    {
        let mut path = chars_of(base_path);
        let copy = match subfolder {
            Some(s) => {
                path.push('/');
                push_str(&mut path, s.as_str());
                Some(s.clone())
            },
            None => None,
        };
        let state = CommitAnalysis {
            commit: commit.clone(),
            repo_url: repo_url.to_owned(),
            subfolder: copy,
            analyzer_name: analyzer_name.to_owned(),
            analyzer_known,
            analysis_config: analysis_config.clone(),
            analysis_path: string_of(&path),
            stage: CommitStage::CheckingOut,
            result: None,
        };
        (state, CommitAction::Checkout { commit_hash: commit.hash.clone() })
    }

    /// The result that waits to be written to the cache.
    pub fn pending_result(&self) -> (r: Option<&AnalysisResult>)
        ensures
            match r {
                Some(result) => self.held() == Some(*result),
                None => self.held() is None,
            },
    {
        match &self.result {
            Some(result) => Some(result),
            None => None,
        }
    }

    fn cache_key(&self) -> (key: AnalysisCacheKey)
        ensures
            key@ == self.key(),
    {
        AnalysisCacheKey::new(
            self.repo_url.clone(),
            self.commit.hash.clone(),
            match &self.subfolder {
                Some(s) => Some(s.clone()),
                None => None,
            },
            self.analyzer_name.clone(),
            &self.analysis_config,
        )
    }

    fn probe(self) -> (r: CommitStep)
        requires
            self.wf(),
            self.stage() != CommitStage::Storing,
        ensures
            r matches CommitStep::Continue { state, action } && state.wf() && state.stage()
                == CommitStage::Probing && same_commit(state, self) && (
            action matches CommitAction::Probe { path, analyzer_name } && path@ == self.path()
                && analyzer_name@ == self.analyzer()),
    {
        let action = CommitAction::Probe {
            path: self.analysis_path.clone(),
            analyzer_name: self.analyzer_name.clone(),
        };
        let state = CommitAnalysis { stage: CommitStage::Probing, ..self };
        CommitStep::Continue { state, action }
    }

    fn snapshot(self, analysis_result: AnalysisResult) -> (r: CommitStep)
        ensures
            r matches CommitStep::Finished(Ok(snapshot)) && snapshot.commit_info == self.commit()
                && snapshot.analysis_result == analysis_result && snapshot.project_path@
                == self.path(),
    {
        CommitStep::Finished(
            Ok(
                CommitSnapshot {
                    commit_info: self.commit,
                    analysis_result,
                    project_path: self.analysis_path,
                },
            ),
        )
    }
}

/// Whether two states of an analysis are of the same commit, directory,
/// subfolder, analyzer and cache key.
pub open spec fn same_commit(a: CommitAnalysis, b: CommitAnalysis) -> bool {
    &&& a.commit() == b.commit()
    &&& a.path() == b.path()
    &&& a.subfolder() == b.subfolder()
    &&& a.analyzer() == b.analyzer()
    &&& a.analyzer_is_known() == b.analyzer_is_known()
    &&& a.key() == b.key()
}

/// One step of the analysis of a commit: what the answer `event` leads to
/// in `state`.
///
/// A failed checkout ends the analysis as an infrastructure failure. After
/// the checkout an unknown analyzer ends it; else the subfolder, where one is
/// configured, must be there, and the analyzer must find a project. Then the
/// cache is read: a result in it ends the analysis with a snapshot, and
/// without one the analyzer runs. Its failure ends the analysis; its result
/// is written to the cache and, however the write goes, ends the analysis
/// with a snapshot.
pub fn analyze_commit(state: CommitAnalysis, event: CommitEvent) -> (r: CommitStep)
    requires
        state.wf(),
    ensures
        !answers(state.stage(), event) ==> (r matches CommitStep::Rejected { state: same }
            && same == state),
        r matches CommitStep::Continue { state: next, action } ==> next.wf() && same_commit(
            next,
            state,
        ),
        answers(state.stage(), event) ==> match event {
            CommitEvent::CheckedOut(Err(m)) => r matches CommitStep::Finished(
                Err(CommitFailure::Checkout { message }),
            ) && message == m,
            CommitEvent::CheckedOut(Ok(_)) => if !state.analyzer_is_known() {
                r matches CommitStep::Finished(Err(CommitFailure::AnalyzerNotFound { name }))
                    && name@ == state.analyzer()
            } else if state.subfolder() is Some {
                r matches CommitStep::Continue { state: next, action } && next.stage()
                    == CommitStage::ResolvingPath && (action matches CommitAction::ResolvePath {
                    path,
                } && path@ == state.path())
            } else {
                r matches CommitStep::Continue { state: next, action } && next.stage()
                    == CommitStage::Probing && (action matches CommitAction::Probe {
                    path,
                    analyzer_name,
                } && path@ == state.path() && analyzer_name@ == state.analyzer())
            },
            CommitEvent::PathResolved { exists } => if exists {
                r matches CommitStep::Continue { state: next, action } && next.stage()
                    == CommitStage::Probing && (action matches CommitAction::Probe {
                    path,
                    analyzer_name,
                } && path@ == state.path() && analyzer_name@ == state.analyzer())
            } else {
                r matches CommitStep::Finished(
                    Err(CommitFailure::SubfolderMissing { subfolder, commit_hash }),
                ) && Some(subfolder@) == state.subfolder() && commit_hash@
                    == state.commit()@.hash
            },
            CommitEvent::Probed { analyzable } => if analyzable {
                r matches CommitStep::Continue { state: next, action } && next.stage()
                    == CommitStage::LookingUp && (action matches CommitAction::LookUp { key }
                    && key@ == state.key())
            } else {
                r matches CommitStep::Finished(
                    Err(CommitFailure::NotAnalyzable { commit_hash, analyzer_name }),
                ) && commit_hash@ == state.commit()@.hash && analyzer_name@ == state.analyzer()
            },
            CommitEvent::CacheAnswered(Some(cached)) => r matches CommitStep::Finished(
                Ok(snapshot),
            ) && snapshot.commit_info == state.commit() && snapshot.analysis_result == cached
                && snapshot.project_path@ == state.path(),
            CommitEvent::CacheAnswered(None) => r matches CommitStep::Continue {
                state: next,
                action,
            } && next.stage() == CommitStage::Analyzing && (action matches CommitAction::Analyze {
                path,
                analyzer_name,
            } && path@ == state.path() && analyzer_name@ == state.analyzer()),
            CommitEvent::Analyzed(Ok(result)) => r matches CommitStep::Continue {
                state: next,
                action,
            } && next.stage() == CommitStage::Storing && next.held() == Some(result) && (
            action matches CommitAction::Store { key } && key@ == state.key()),
            CommitEvent::Analyzed(Err(m)) => r matches CommitStep::Finished(
                Err(CommitFailure::AnalysisFailed { message }),
            ) && message == m,
            CommitEvent::Stored(_) => r matches CommitStep::Finished(Ok(snapshot))
                && snapshot.commit_info == state.commit() && Some(snapshot.analysis_result)
                == state.held() && snapshot.project_path@ == state.path(),
        },
{
    match (state.stage, event) {
        (CommitStage::CheckingOut, CommitEvent::CheckedOut(outcome)) => match outcome {
            Err(message) => CommitStep::Finished(Err(CommitFailure::Checkout { message })),
            Ok(_) => {
                if !state.analyzer_known {
                    CommitStep::Finished(
                        Err(CommitFailure::AnalyzerNotFound { name: state.analyzer_name }),
                    )
                } else if state.subfolder.is_some() {
                    let action = CommitAction::ResolvePath { path: state.analysis_path.clone() };
                    let next = CommitAnalysis { stage: CommitStage::ResolvingPath, ..state };
                    CommitStep::Continue { state: next, action }
                } else {
                    state.probe()
                }
            },
        },
        (CommitStage::ResolvingPath, CommitEvent::PathResolved { exists }) => {
            if exists {
                state.probe()
            } else {
                let subfolder = match state.subfolder {
                    Some(s) => s,
                    None => String::new(),
                };
                CommitStep::Finished(
                    Err(
                        CommitFailure::SubfolderMissing {
                            subfolder,
                            commit_hash: state.commit.hash,
                        },
                    ),
                )
            }
        },
        (CommitStage::Probing, CommitEvent::Probed { analyzable }) => {
            if analyzable {
                let action = CommitAction::LookUp { key: state.cache_key() };
                let next = CommitAnalysis { stage: CommitStage::LookingUp, ..state };
                CommitStep::Continue { state: next, action }
            } else {
                CommitStep::Finished(
                    Err(
                        CommitFailure::NotAnalyzable {
                            commit_hash: state.commit.hash,
                            analyzer_name: state.analyzer_name,
                        },
                    ),
                )
            }
        },
        (CommitStage::LookingUp, CommitEvent::CacheAnswered(answer)) => match answer {
            Some(cached) => state.snapshot(cached),
            None => {
                let action = CommitAction::Analyze {
                    path: state.analysis_path.clone(),
                    analyzer_name: state.analyzer_name.clone(),
                };
                let next = CommitAnalysis { stage: CommitStage::Analyzing, ..state };
                CommitStep::Continue { state: next, action }
            },
        },
        (CommitStage::Analyzing, CommitEvent::Analyzed(outcome)) => match outcome {
            Err(message) => CommitStep::Finished(Err(CommitFailure::AnalysisFailed { message })),
            Ok(result) => {
                let action = CommitAction::Store { key: state.cache_key() };
                let next = CommitAnalysis {
                    stage: CommitStage::Storing,
                    result: Some(result),
                    ..state
                };
                CommitStep::Continue { state: next, action }
            },
        },
        (CommitStage::Storing, CommitEvent::Stored(_)) => {
            let CommitAnalysis {
                commit,
                repo_url,
                subfolder,
                analyzer_name,
                analyzer_known,
                analysis_config,
                analysis_path,
                stage,
                result,
            } = state;
            match result {
                Some(analysis_result) => CommitStep::Finished(
                    Ok(CommitSnapshot { commit_info: commit, analysis_result, project_path: analysis_path }),
                ),
                None => CommitStep::Finished(
                    Err(CommitFailure::AnalysisFailed { message: String::new() }),
                ),
            }
        },
        (_, _) => CommitStep::Rejected { state },
    }
}

} // verus!
