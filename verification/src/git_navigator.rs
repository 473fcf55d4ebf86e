//! The repository navigator: commit records, the first-parent walk with its
//! subfolder filter, and the rules that name and purge local working copies.

use vstd::prelude::*;
use crate::tally::{occurrences, tally};
use crate::text::{
    chars_of, ends_with, find_last, has_prefix, has_suffix, last_position,
    lemma_last_position, push_chars, push_str, same_chars, same_text, slice_chars, starts_with,
    string_of, trim, trimmed,
};

verus! {

/// One commit of the mainline.
#[derive(Debug, PartialEq, Eq)]
pub struct CommitInfo {
    pub hash: String,
    pub author_name: String,
    pub author_email: String,
    pub message: String,
    pub timestamp: i64,
    /// The second parent, for a merge commit.
    pub merge_parent_hash: Option<String>,
}

/// A commit as plain mathematical values.
pub struct CommitInfoView {
    pub hash: Seq<char>,
    pub author_name: Seq<char>,
    pub author_email: Seq<char>,
    pub message: Seq<char>,
    pub timestamp: i64,
    pub merge_parent_hash: Option<Seq<char>>,
}

impl View for CommitInfo {
    type V = CommitInfoView;

    open spec fn view(&self) -> CommitInfoView {
        CommitInfoView {
            hash: self.hash@,
            author_name: self.author_name@,
            author_email: self.author_email@,
            message: self.message@,
            timestamp: self.timestamp,
            merge_parent_hash: self.merge_parent_hash.deep_view(),
        }
    }
}

impl DeepView for CommitInfo {
    type V = CommitInfoView;

    open spec fn deep_view(&self) -> CommitInfoView {
        self@
    }
}

impl Clone for CommitInfo {
    fn clone(&self) -> (c: Self)
        ensures
            c@ == self@,
    {
        CommitInfo {
            hash: self.hash.clone(),
            author_name: self.author_name.clone(),
            author_email: self.author_email.clone(),
            message: self.message.clone(),
            timestamp: self.timestamp,
            merge_parent_hash: match &self.merge_parent_hash {
                Some(h) => Some(h.clone()),
                None => None,
            },
        }
    }
}

/// Where a repository came from and where its working copy lies.
#[derive(Debug)]
pub struct RepoCloneInfo {
    pub original_url: String,
    pub local_path: String,
    pub default_branch: String,
    pub clone_timestamp: i64,
}

impl Clone for RepoCloneInfo {
    fn clone(&self) -> (c: Self)
        ensures
            c.original_url@ == self.original_url@,
            c.local_path@ == self.local_path@,
            c.default_branch@ == self.default_branch@,
            c.clone_timestamp == self.clone_timestamp,
    {
        RepoCloneInfo {
            original_url: self.original_url.clone(),
            local_path: self.local_path.clone(),
            default_branch: self.default_branch.clone(),
            clone_timestamp: self.clone_timestamp,
        }
    }
}

/// Why the navigator gave up.
#[derive(Debug)]
pub enum NavigatorError {
    /// The source names no owner and repository.
    InvalidUrl { url: String },
    /// Cloning, fetching or checking out failed.
    Infrastructure { message: String },
}

/// `s` without the `.git` endings that it has, however many.
pub open spec fn without_git_suffix(s: Seq<char>) -> Seq<char>
    decreases s.len(),
{
    if has_suffix(s, ".git"@) && ".git"@.len() > 0 {
        without_git_suffix(s.subrange(0, s.len() - ".git"@.len()))
    } else {
        s
    }
}

/// The part of `s` behind its last `/`, all of `s` where it has none.
pub open spec fn last_segment(s: Seq<char>) -> Seq<char> {
    s.subrange(last_position(s, '/') + 1, s.len() as int)
}

/// The name under which a repository is mirrored: the last two segments of
/// its source, joined by a hyphen. A source without a `/` has none.
pub open spec fn repo_name_of(url: Seq<char>) -> Option<Seq<char>> {
    let t = without_git_suffix(url);
    let cut = last_position(t, '/');
    if cut < 0 {
        None
    } else {
        Some(last_segment(t.subrange(0, cut)) + seq!['-'] + last_segment(t))
    }
}

fn segment_after_last_slash(s: &Vec<char>) -> (r: Vec<char>)
    ensures
        r@ == last_segment(s@),
{
    proof {
        lemma_last_position(s@, '/');
    }
    match find_last(s, '/') {
        Some(i) => {
            assert(i < s.len());
            slice_chars(s, i + 1, s.len())
        },
        None => slice_chars(s, 0, s.len()),
    }
}

/// The mirror name of the repository at `github_url`.
pub fn extract_repo_name(github_url: &str) -> (r: Result<String, NavigatorError>)
    ensures
        match r {
            Ok(name) => repo_name_of(github_url@) == Some(name@),
            Err(e) => repo_name_of(github_url@) is None && (e matches NavigatorError::InvalidUrl {
                url,
            } && url@ == github_url@),
        },
{
    let suffix = chars_of(".git");
    let mut t = chars_of(github_url);
    while suffix.len() > 0 && ends_with(&t, &suffix)
        invariant
            suffix@ == ".git"@,
            without_git_suffix(t@) == without_git_suffix(github_url@),
        decreases t.len(),
    {
        t = slice_chars(&t, 0, t.len() - suffix.len());
    }
    proof {
        lemma_last_position(t@, '/');
    }
    match find_last(&t, '/') {
        None => Err(NavigatorError::InvalidUrl { url: github_url.to_owned() }),
        Some(cut) => {
            let head = slice_chars(&t, 0, cut);
            let mut name = segment_after_last_slash(&head);
            name.push('-');
            let repo = segment_after_last_slash(&t);
            push_chars(&mut name, &repo);
            Ok(string_of(&name))
        },
    }
}

/// The directory under `local_base_dir` that mirrors a repository.
pub open spec fn mirror_path_of(base: Seq<char>, name: Seq<char>) -> Seq<char> {
    base + seq!['/'] + name + "-cache"@
}

/// Where the repository at `github_url` is mirrored below `local_base_dir`.
pub fn mirror_path(github_url: &str, local_base_dir: &str) -> (r: Result<String, NavigatorError>)
    ensures
        match r {
            Ok(path) => repo_name_of(github_url@) matches Some(name) && path@ == mirror_path_of(
                local_base_dir@,
                name,
            ),
            Err(e) => repo_name_of(github_url@) is None && (e matches NavigatorError::InvalidUrl {
                url,
            } && url@ == github_url@),
        },
{
    match extract_repo_name(github_url) {
        Ok(name) => {
            let mut path = chars_of(local_base_dir);
            path.push('/');
            push_str(&mut path, name.as_str());
            push_str(&mut path, "-cache");
            Ok(string_of(&path))
        },
        Err(e) => Err(e),
    }
}

/// Whether a changed path lies in `subfolder`: it is the subfolder itself or
/// begins with the subfolder and a `/`.
pub open spec fn in_subfolder(path: Seq<char>, subfolder: Seq<char>) -> bool {
    path == subfolder || has_prefix(path, subfolder + seq!['/'])
}

/// Whether the changed path `path` lies in `subfolder`.
pub fn path_in_subfolder(path: &str, subfolder: &str) -> (r: bool)
    ensures
        r == in_subfolder(path@, subfolder@),
{
    let p = chars_of(path);
    let mut prefix = chars_of(subfolder);
    if same_chars(&p, &prefix) {
        return true;
    }
    prefix.push('/');
    assert(prefix@ =~= subfolder@ + seq!['/']);
    starts_with(&p, &prefix)
}

/// How many changed files of one commit are looked at.
pub const MAX_FILES_CHECKED: usize = 1000;

/// The largest file, in bytes, whose changes are compared.
pub const MAX_DIFF_SIZE: i64 = 1048576;

/// How many unchanged lines are kept around a change and between two
/// changes when commits are compared.
pub const DIFF_CONTEXT_LINES: u32 = 0;

/// The two paths of one changed file: after the change, and before it.
#[derive(Debug)]
pub struct DeltaPaths {
    pub new_path: Option<String>,
    pub old_path: Option<String>,
}

impl DeltaPaths {
    /// The path that is tested: the new one, the old one where there is no
    /// new one.
    pub open spec fn tested_path(&self) -> Option<Seq<char>> {
        match self.new_path {
            Some(p) => Some(p@),
            None => match self.old_path {
                Some(p) => Some(p@),
                None => None,
            },
        }
    }

    /// Whether this change touches `subfolder`.
    pub open spec fn touches(&self, subfolder: Seq<char>) -> bool {
        self.tested_path() matches Some(p) && in_subfolder(p, subfolder)
    }
}

/// The scan of one commit's changed files for a subfolder. The caller hands
/// it the changes one by one for as long as it asks for more.
#[derive(Debug)]
pub struct DiffScan {
    subfolder: String,
    files_checked: usize,
    touches_subfolder: bool,
    stopped: bool,
}

impl DiffScan {
    /// The subfolder looked for.
    pub closed spec fn subfolder(&self) -> Seq<char> {
        self.subfolder@
    }

    /// How many changes were handed in.
    pub closed spec fn checked(&self) -> nat {
        self.files_checked as nat
    }

    /// Whether a change in the subfolder was seen.
    pub closed spec fn found(&self) -> bool {
        self.touches_subfolder
    }

    /// Whether the scan has asked for no more changes.
    pub closed spec fn is_stopped(&self) -> bool {
        self.stopped
    }

    /// A scan has stopped once it found a change in the subfolder.
    pub closed spec fn wf(&self) -> bool {
        self.touches_subfolder ==> self.stopped
    }

    /// A scan that has seen nothing.
    pub fn new(subfolder: &str) -> (s: DiffScan)
        ensures
            s.wf(),
            s.subfolder() == subfolder@,
            s.checked() == 0,
            !s.found(),
            !s.is_stopped(),
    {
        DiffScan {
            subfolder: subfolder.to_owned(),
            files_checked: 0,
            touches_subfolder: false,
            stopped: false,
        }
    }

    /// Looks at one change and says whether the next one is wanted. A change
    /// in the subfolder ends the scan; so does the last change that the limit
    /// allows, unless it has no path. A scan that has stopped stays as it is.
    /// The count of changes stops at the largest machine number.
    pub fn inspect(&mut self, delta: &DeltaPaths) -> (more: bool)
        requires
            old(self).wf(),
        ensures
            final(self).wf(),
            final(self).subfolder() == old(self).subfolder(),
            more == !final(self).is_stopped(),
            old(self).is_stopped() ==> *final(self) == *old(self),
            !old(self).is_stopped() ==> {
                &&& final(self).checked() == if old(self).checked() < usize::MAX {
                    old(self).checked() + 1
                } else {
                    old(self).checked()
                }
                &&& final(self).found() == delta.touches(old(self).subfolder())
                &&& final(self).is_stopped() == (delta.touches(old(self).subfolder()) || (
                delta.tested_path() is Some && final(self).checked() >= MAX_FILES_CHECKED))
            },
    {
        if self.stopped {
            return false;
        }
        if self.files_checked < usize::MAX {
            self.files_checked = self.files_checked + 1;
        }
        let hit = match &delta.new_path {
            Some(p) => Some(path_in_subfolder(p.as_str(), self.subfolder.as_str())),
            None => match &delta.old_path {
                Some(p) => Some(path_in_subfolder(p.as_str(), self.subfolder.as_str())),
                None => None,
            },
        };
        match hit {
            None => true,
            Some(true) => {
                self.touches_subfolder = true;
                self.stopped = true;
                false
            },
            Some(false) => {
                if self.files_checked >= MAX_FILES_CHECKED {
                    self.stopped = true;
                    false
                } else {
                    true
                }
            },
        }
    }

    /// Whether a change in the subfolder was seen.
    pub fn touches_subfolder(&self) -> (r: bool)
        ensures
            r == self.found(),
    {
        self.touches_subfolder
    }

    /// How many changes were handed in.
    pub fn files_checked(&self) -> (n: usize)
        ensures
            n == self.checked(),
    {
        self.files_checked
    }
}

/// How the iteration over a commit's changes ended.
#[derive(Debug, Clone, Copy, PartialEq, Eq, Structural)]
pub enum DiffEnd {
    /// Every change was handed in.
    Exhausted,
    /// The scan asked for no more.
    StoppedByScan,
    /// The iteration failed for a reason of its own.
    Failed,
}

/// Whether a commit with a parent touches the subfolder, from how the scan of
/// its changes ended. Stopping on the scan's own wish is no failure; after a
/// real failure the commit counts as not touching.
pub fn commit_touches_subfolder(scan: &DiffScan, end: DiffEnd) -> (r: bool)
    ensures
        r == (end != DiffEnd::Failed && scan.found()),
{
    match end {
        DiffEnd::Failed => false,
        _ => scan.touches_subfolder(),
    }
}

/// What a tree holds under one name.
#[derive(Debug, Clone, Copy, PartialEq, Eq, Structural)]
pub enum TreeEntryKind {
    /// Nothing.
    Absent,
    /// A directory.
    Tree,
    /// A file, a link or a submodule.
    Other,
}

/// What the descent along a path does after a look at one component.
#[derive(Debug, Clone, Copy, PartialEq, Eq, Structural)]
pub enum PathStep {
    /// The path is a directory of the tree.
    Found,
    /// The path is no directory of the tree.
    NotFound,
    /// The next component is looked up in the directory just found.
    Descend,
}

/// The step after finding `entry` under a component of a path, of which
/// `remaining` more follow. Only directories lead on, and only a directory
/// ends the path.
pub fn tree_has_path(entry: TreeEntryKind, remaining: usize) -> (step: PathStep)
    ensures
        step == match entry {
            TreeEntryKind::Tree => if remaining == 0 {
                PathStep::Found
            } else {
                PathStep::Descend
            },
            _ => PathStep::NotFound,
        },
{
    match entry {
        TreeEntryKind::Tree => if remaining == 0 {
            PathStep::Found
        } else {
            PathStep::Descend
        },
        _ => PathStep::NotFound,
    }
}

/// The parts of `s` between its occurrences of `sep`, empty ones included,
/// given the part collected so far.
pub open spec fn split_from(s: Seq<char>, sep: char, current: Seq<char>) -> Seq<Seq<char>>
    decreases s.len(),
{
    if s.len() == 0 {
        seq![current]
    } else if s[0] == sep {
        seq![current] + split_from(s.drop_first(), sep, Seq::empty())
    } else {
        split_from(s.drop_first(), sep, current.push(s[0]))
    }
}

/// The texts of `parts` that are not empty, in order.
pub open spec fn non_empty(parts: Seq<Seq<char>>) -> Seq<Seq<char>>
    decreases parts.len(),
{
    if parts.len() == 0 {
        Seq::empty()
    } else if parts.last().len() == 0 {
        non_empty(parts.drop_last())
    } else {
        non_empty(parts.drop_last()).push(parts.last())
    }
}

/// The names along `subfolder`: its parts between slashes, without the empty
/// ones.
pub open spec fn components_of(subfolder: Seq<char>) -> Seq<Seq<char>> {
    non_empty(split_from(subfolder, '/', Seq::empty()))
}

/// The non-empty parts of a list with one more part behind it.
pub proof fn lemma_non_empty_push(parts: Seq<Seq<char>>, part: Seq<char>)
    ensures
        non_empty(parts.push(part)) == if part.len() == 0 {
            non_empty(parts)
        } else {
            non_empty(parts).push(part)
        },
{
    assert(parts.push(part).drop_last() =~= parts);
}

/// The non-empty parts of a list behind another are behind the non-empty
/// parts of the first.
pub proof fn lemma_non_empty_concat(a: Seq<Seq<char>>, b: Seq<Seq<char>>)
    ensures
        non_empty(a + b) == non_empty(a) + non_empty(b),
    decreases b.len(),
{
    if b.len() == 0 {
        assert(a + b =~= a);
        assert(non_empty(a) + non_empty(b) =~= non_empty(a));
    } else {
        lemma_non_empty_concat(a, b.drop_last());
        assert((a + b).drop_last() =~= a + b.drop_last());
        assert((a + b).last() == b.last());
        if b.last().len() == 0 {
        } else {
            assert(non_empty(a + b) =~= non_empty(a) + non_empty(b));
        }
    }
}

/// The names along `subfolder`, in order.
pub fn path_components(subfolder: &str) -> (names: Vec<String>)
    ensures
        names.deep_view() == components_of(subfolder@),
{
    let chars = chars_of(subfolder);
    let mut names: Vec<String> = Vec::new();
    let mut current: Vec<char> = Vec::new();
    let mut i: usize = 0;
    assert(chars@.skip(0) =~= chars@);
    assert(names.deep_view() =~= Seq::<Seq<char>>::empty());
    while i < chars.len()
        invariant
            i <= chars.len(),
            chars@ == subfolder@,
            components_of(subfolder@) == names.deep_view() + non_empty(
                split_from(chars@.skip(i as int), '/', current@),
            ),
        decreases chars.len() - i,
    {
        let ghost rest = chars@.skip(i as int);
        let ghost done = names.deep_view();
        assert(rest[0] == chars@[i as int]);
        assert(rest.drop_first() =~= chars@.skip(i + 1));
        if chars[i] == '/' {
            proof {
                lemma_non_empty_concat(
                    seq![current@],
                    split_from(rest.drop_first(), '/', Seq::empty()),
                );
                lemma_non_empty_push(Seq::empty(), current@);
                assert(seq![current@] =~= Seq::<Seq<char>>::empty().push(current@));
            }
            if current.len() > 0 {
                names.push(string_of(&current));
                assert(names.deep_view() =~= done.push(current@));
            }
            current = Vec::new();
        } else {
            current.push(chars[i]);
        }
        i = i + 1;
    }
    proof {
        let ghost done = names.deep_view();
        assert(chars@.skip(chars.len() as int) =~= Seq::<char>::empty());
        lemma_non_empty_push(Seq::empty(), current@);
        assert(seq![current@] =~= Seq::<Seq<char>>::empty().push(current@));
    }
    if current.len() > 0 {
        let ghost done = names.deep_view();
        names.push(string_of(&current));
        assert(names.deep_view() =~= done.push(current@));
    } else {
        assert(names.deep_view() + Seq::<Seq<char>>::empty() =~= names.deep_view());
    }
    names
}

/// Whether every character of `s` is one of the digits `0` to `9`.
pub open spec fn all_digits(s: Seq<char>) -> bool {
    forall|i: int| 0 <= i < s.len() ==> '0' <= #[trigger] s[i] <= '9'
}

/// Whether a directory name is that of a working copy left over from an
/// earlier run: it holds a hyphen, does not end in `-cache`, and behind its
/// last hyphen stands a number, that is one digit or more and nothing else.
pub open spec fn is_stale_name(name: Seq<char>) -> bool {
    &&& name.contains('-')
    &&& !has_suffix(name, "-cache"@)
    &&& last_position(name, '-') + 1 < name.len()
    &&& all_digits(name.subrange(last_position(name, '-') + 1, name.len() as int))
}

/// Whether the directory `dir_name` is a leftover working copy.
pub fn is_stale_checkout_name(dir_name: &str) -> (r: bool)
    ensures
        r == is_stale_name(dir_name@),
{
    let name = chars_of(dir_name);
    let suffix = chars_of("-cache");
    proof {
        lemma_last_position(name@, '-');
    }
    match find_last(&name, '-') {
        None => {
            assert(!name@.contains('-')) by {
                if name@.contains('-') {
                    let i = choose|i: int| 0 <= i < name@.len() && name@[i] == '-';
                    assert(name@[i] != '-');
                }
            }
            false
        },
        Some(cut) => {
            assert(cut < name.len());
            assert(name@[cut as int] == '-');
            if ends_with(&name, &suffix) {
                return false;
            }
            if cut + 1 == name.len() {
                return false;
            }
            let ghost tail = name@.subrange(cut + 1, name@.len() as int);
            let mut i: usize = cut + 1;
            while i < name.len()
                invariant
                    cut < i <= name.len(),
                    name@ == dir_name@,
                    cut == last_position(name@, '-'),
                    tail == name@.subrange(cut + 1, name@.len() as int),
                    forall|j: int| 0 <= j < i - cut - 1 ==> '0' <= #[trigger] tail[j] <= '9',
                decreases name.len() - i,
            {
                let c = name[i];
                assert(tail[i - cut - 1] == c);
                if !(c >= '0' && c <= '9') {
                    assert(!('0' <= tail[i - cut - 1] <= '9'));
                    assert(!all_digits(tail));
                    return false;
                }
                i = i + 1;
            }
            true
        },
    }
}

/// The names of `names` that `is_stale_name` holds of, in order.
pub open spec fn stale_names(names: Seq<Seq<char>>) -> Seq<Seq<char>>
    decreases names.len(),
{
    if names.len() == 0 {
        Seq::empty()
    } else if is_stale_name(names.last()) {
        stale_names(names.drop_last()).push(names.last())
    } else {
        stale_names(names.drop_last())
    }
}

/// How many commits a walk looks at before it stops of its own accord.
pub const MAX_COMMITS_INSPECTED: usize = 101;

/// Whether no two commits share a hash.
pub open spec fn distinct_hashes(commits: Seq<CommitInfoView>) -> bool {
    forall|i: int, j: int|
        0 <= i < j < commits.len() ==> (#[trigger] commits[i]).hash != (#[trigger] commits[j]).hash
}

/// The walk from the tip of the default branch along first parents. The
/// caller hands in the commits one by one, newest first, for as long as the
/// walk asks for more.
#[derive(Debug)]
pub struct CommitWalk {
    filtered: bool,
    sequence: Vec<CommitInfo>,
    visited: Vec<String>,
    finished: bool,
}

impl CommitWalk {
    /// Whether commits are kept only where they touch the subfolder.
    pub closed spec fn is_filtered(&self) -> bool {
        self.filtered
    }

    /// The commits kept so far, newest first.
    pub closed spec fn kept(&self) -> Seq<CommitInfoView> {
        self.sequence.deep_view()
    }

    /// The hashes of the commits looked at so far, newest first.
    pub closed spec fn seen(&self) -> Seq<Seq<char>> {
        self.visited.deep_view()
    }

    /// Whether the walk has asked for no more commits.
    pub closed spec fn is_finished(&self) -> bool {
        self.finished
    }

    /// No hash was looked at twice, every commit kept was looked at, no two
    /// commits kept share a hash, and no more commits were looked at than
    /// the limit allows.
    pub closed spec fn wf(&self) -> bool {
        &&& self.seen().no_duplicates()
        &&& distinct_hashes(self.kept())
        &&& forall|i: int|
            0 <= i < self.kept().len() ==> self.seen().contains(#[trigger] self.kept()[i].hash)
        &&& self.seen().len() <= MAX_COMMITS_INSPECTED
        &&& self.seen().len() >= MAX_COMMITS_INSPECTED ==> self.finished
    }

    /// A walk that has looked at nothing. With `filtered` set it keeps only
    /// the commits that touch the subfolder.
    pub fn begin(filtered: bool) -> (walk: CommitWalk)
        ensures
            walk.wf(),
            walk.is_filtered() == filtered,
            walk.kept().len() == 0,
            walk.seen().len() == 0,
            !walk.is_finished(),
    {
        CommitWalk { filtered, sequence: Vec::new(), visited: Vec::new(), finished: false }
    }

    /// Whether the commit `hash` was looked at already.
    pub fn has_visited(&self, hash: &str) -> (r: bool)
        ensures
            r == self.seen().contains(hash@),
    {
        let mut i: usize = 0;
        while i < self.visited.len()
            invariant
                i <= self.visited.len(),
                forall|j: int| 0 <= j < i ==> self.seen()[j] != hash@,
            decreases self.visited.len() - i,
        {
            if same_text(self.visited[i].as_str(), hash) {
                assert(self.seen()[i as int] == hash@);
                return true;
            }
            i = i + 1;
        }
        false
    }

    /// Looks at one commit and says whether its first parent is wanted.
    /// `touches` is what the test against the subfolder gave, nothing where
    /// the test failed; an unfiltered walk does not read it. A commit seen
    /// before ends the walk and is not kept again. Otherwise the commit is
    /// kept if the walk is unfiltered or the commit touches the subfolder,
    /// and the walk ends at a commit without parent and at the limit.
    pub fn visit(&mut self, commit: CommitInfo, touches: Option<bool>, has_parent: bool) -> (more:
        bool)
        requires
            old(self).wf(),
        ensures
            final(self).wf(),
            final(self).is_filtered() == old(self).is_filtered(),
            more == !final(self).is_finished(),
            old(self).is_finished() ==> final(self).kept() == old(self).kept() && final(self).seen()
                == old(self).seen() && final(self).is_finished(),
            !old(self).is_finished() && old(self).seen().contains(commit@.hash) ==> final(self).kept() == old(self).kept() && final(self).seen() == old(self).seen() && final(self).is_finished(),
            !old(self).is_finished() && !old(self).seen().contains(commit@.hash) ==> {
                &&& final(self).seen() == old(self).seen().push(commit@.hash)
                &&& final(self).kept() == if !old(self).is_filtered() || touches == Some(true) {
                    old(self).kept().push(commit@)
                } else {
                    old(self).kept()
                }
                &&& final(self).is_finished() == (!has_parent || final(self).seen().len()
                    >= MAX_COMMITS_INSPECTED)
            },
    {
        if self.finished {
            return false;
        }
        if self.has_visited(commit.hash.as_str()) {
            self.finished = true;
            return false;
        }
        let ghost seen0 = self.seen();
        let ghost kept0 = self.kept();
        self.visited.push(commit.hash.clone());
        assert(self.seen() =~= seen0.push(commit@.hash));
        assert(self.seen().no_duplicates());
        let keep = !self.filtered || match touches {
            Some(t) => t,
            None => false,
        };
        if keep {
            self.sequence.push(commit);
            assert(self.kept() =~= kept0.push(commit@));
            assert forall|i: int, j: int| 0 <= i < j < self.kept().len() implies (
            #[trigger] self.kept()[i]).hash != (#[trigger] self.kept()[j]).hash by {
                if j == kept0.len() {
                    assert(self.kept()[i] == kept0[i]);
                    assert(seen0.contains(kept0[i].hash));
                } else {
                    assert(self.kept()[i] == kept0[i] && self.kept()[j] == kept0[j]);
                }
            }
        }
        assert forall|i: int| 0 <= i < self.kept().len() implies self.seen().contains(
            #[trigger] self.kept()[i].hash,
        ) by {
            if i < kept0.len() {
                assert(self.kept()[i] == kept0[i]);
                assert(seen0.contains(kept0[i].hash));
                let w = choose|w: int| 0 <= w < seen0.len() && seen0[w] == kept0[i].hash;
                assert(self.seen()[w] == kept0[i].hash);
            } else {
                assert(self.seen()[seen0.len() as int] == commit@.hash);
            }
        }
        if !has_parent || self.visited.len() >= MAX_COMMITS_INSPECTED {
            self.finished = true;
        }
        !self.finished
    }

    /// The commits kept, oldest first.
    pub fn finish(self) -> (sequence: Vec<CommitInfo>)
        requires
            self.wf(),
        ensures
            sequence.deep_view() == self.kept().reverse(),
            distinct_hashes(sequence.deep_view()),
    {
        let ghost newest_first = self.kept();
        let mut sequence: Vec<CommitInfo> = Vec::new();
        let n = self.sequence.len();
        let mut i: usize = n;
        while i > 0
            invariant
                i <= n,
                n == self.sequence.len(),
                newest_first == self.sequence.deep_view(),
                sequence.len() == n - i,
                forall|j: int| 0 <= j < n - i ==> sequence.deep_view()[j] == newest_first[n - 1 - j],
            decreases i,
        {
            let ghost before = sequence.deep_view();
            assert(newest_first[i - 1] == self.sequence@[i - 1]@);
            sequence.push(self.sequence[i - 1].clone());
            assert(sequence.deep_view() =~= before.push(newest_first[i - 1]));
            i = i - 1;
        }
        assert(sequence.deep_view() =~= newest_first.reverse());
        assert forall|a: int, b: int| 0 <= a < b < sequence.deep_view().len() implies (
        #[trigger] sequence.deep_view()[a]).hash != (#[trigger] sequence.deep_view()[b]).hash by {
            assert(sequence.deep_view()[a] == newest_first[n - 1 - a]);
            assert(sequence.deep_view()[b] == newest_first[n - 1 - b]);
        }
        sequence
    }
}

/// A local working copy of a repository and what was read from it.
#[derive(Debug)]
pub struct GitTemporalNavigator {
    clone_info: RepoCloneInfo,
    merge_sequence: Vec<CommitInfo>,
    current_commit: Option<String>,
}

impl GitTemporalNavigator {
    /// The commit sequence, oldest first.
    pub closed spec fn sequence(&self) -> Seq<CommitInfoView> {
        self.merge_sequence.deep_view()
    }

    /// The commit that the working tree is at, where one was checked out.
    pub closed spec fn checked_out(&self) -> Option<Seq<char>> {
        self.current_commit.deep_view()
    }

    /// Where the repository came from.
    pub closed spec fn source(&self) -> Seq<char> {
        self.clone_info.original_url@
    }

    /// Where the working copy lies.
    pub closed spec fn path(&self) -> Seq<char> {
        self.clone_info.local_path@
    }

    /// The name of the default branch.
    pub closed spec fn branch(&self) -> Seq<char> {
        self.clone_info.default_branch@
    }

    /// When the working copy was opened or cloned.
    pub closed spec fn cloned_at(&self) -> i64 {
        self.clone_info.clone_timestamp
    }

    /// No two commits of the sequence share a hash.
    pub open spec fn wf(&self) -> bool {
        distinct_hashes(self.sequence())
    }

    /// Whether this is the navigator `before` with the commit `hash`
    /// checked out and nothing else changed.
    pub open spec fn is_checkout_of(&self, before: &Self, hash: Seq<char>) -> bool {
        &&& self.sequence() == before.sequence()
        &&& self.source() == before.source()
        &&& self.path() == before.path()
        &&& self.branch() == before.branch()
        &&& self.cloned_at() == before.cloned_at()
        &&& self.checked_out() == Some(hash)
    }

    /// The navigator of the mirror of `github_url` below `local_base_dir`,
    /// opened or cloned at `now`, whose head is on the branch `head_branch`;
    /// a head without a name counts as `main`. It has no commit sequence yet
    /// and no commit checked out.
    pub fn clone_repository(
        github_url: &str,
        local_base_dir: &str,
        head_branch: Option<String>,
        now: i64,
    ) -> (r: Result<GitTemporalNavigator, NavigatorError>)
        ensures
            r is Ok <==> repo_name_of(github_url@) is Some,
            r matches Ok(nav) ==> {
                &&& nav.wf()
                &&& nav.source() == github_url@
                &&& nav.path() == mirror_path_of(local_base_dir@, repo_name_of(github_url@)->0)
                &&& nav.branch() == match head_branch {
                    Some(b) => b@,
                    None => "main"@,
                }
                &&& nav.cloned_at() == now
                &&& nav.sequence().len() == 0
                &&& nav.checked_out() is None
            },
            r matches Err(e) ==> e matches NavigatorError::InvalidUrl { url } && url@ == github_url@,
    {
        match mirror_path(github_url, local_base_dir) {
            Err(e) => Err(e),
            Ok(local_path) => {
                let default_branch = match head_branch {
                    Some(b) => b,
                    None => "main".to_owned(),
                };
                Ok(
                    GitTemporalNavigator {
                        clone_info: RepoCloneInfo {
                            original_url: github_url.to_owned(),
                            local_path,
                            default_branch,
                            clone_timestamp: now,
                        },
                        merge_sequence: Vec::new(),
                        current_commit: None,
                    },
                )
            },
        }
    }

    /// Replaces the commit sequence by what `walk` kept, oldest first.
    pub fn build_merge_sequence_with_subfolder(&mut self, walk: CommitWalk)
        requires
            walk.wf(),
        ensures
            final(self).wf(),
            final(self).sequence() == walk.kept().reverse(),
            final(self).checked_out() == old(self).checked_out(),
            final(self).source() == old(self).source(),
            final(self).path() == old(self).path(),
            final(self).branch() == old(self).branch(),
            final(self).cloned_at() == old(self).cloned_at(),
    {
        self.merge_sequence = walk.finish();
    }

    /// Replaces the commit sequence by what the unfiltered `walk` kept,
    /// oldest first.
    pub fn build_merge_sequence(&mut self, walk: CommitWalk)
        requires
            walk.wf(),
            !walk.is_filtered(),
        ensures
            final(self).wf(),
            final(self).sequence() == walk.kept().reverse(),
            final(self).checked_out() == old(self).checked_out(),
            final(self).source() == old(self).source(),
            final(self).path() == old(self).path(),
            final(self).branch() == old(self).branch(),
            final(self).cloned_at() == old(self).cloned_at(),
    {
        self.build_merge_sequence_with_subfolder(walk);
    }

    /// Records how the checkout of `commit_hash` went. After a success the
    /// working tree is at that commit; a failure is an infrastructure error
    /// and changes nothing.
    pub fn checkout_commit(&mut self, commit_hash: &str, outcome: Result<(), String>) -> (r: Result<
        (),
        NavigatorError,
    >)
        ensures
            final(self).sequence() == old(self).sequence(),
            final(self).source() == old(self).source(),
            final(self).path() == old(self).path(),
            final(self).branch() == old(self).branch(),
            final(self).cloned_at() == old(self).cloned_at(),
            r is Ok <==> outcome is Ok,
            r is Ok ==> final(self).checked_out() == Some(commit_hash@),
            r matches Err(e) ==> final(self).checked_out() == old(self).checked_out() && (
            e matches NavigatorError::Infrastructure { message } && message@ == outcome->Err_0@),
    {
        match outcome {
            Ok(_) => {
                self.current_commit = Some(commit_hash.to_owned());
                Ok(())
            },
            Err(message) => Err(NavigatorError::Infrastructure { message }),
        }
    }

    /// Records how the return to the head of the default branch went. After
    /// a success no commit is checked out.
    pub fn return_to_head(&mut self, outcome: Result<(), String>) -> (r: Result<
        (),
        NavigatorError,
    >)
        ensures
            final(self).sequence() == old(self).sequence(),
            final(self).source() == old(self).source(),
            final(self).path() == old(self).path(),
            final(self).branch() == old(self).branch(),
            final(self).cloned_at() == old(self).cloned_at(),
            r is Ok <==> outcome is Ok,
            r is Ok ==> final(self).checked_out() is None,
            r matches Err(e) ==> final(self).checked_out() == old(self).checked_out() && (
            e matches NavigatorError::Infrastructure { message } && message@ == outcome->Err_0@),
    {
        match outcome {
            Ok(_) => {
                self.current_commit = None;
                Ok(())
            },
            Err(message) => Err(NavigatorError::Infrastructure { message }),
        }
    }

    /// The commit sequence, oldest first.
    pub fn get_merge_sequence(&self) -> (commits: &Vec<CommitInfo>)
        ensures
            commits.deep_view() == self.sequence(),
    {
        &self.merge_sequence
    }

    /// The commit that the working tree is at.
    pub fn current_commit(&self) -> (hash: Option<&String>)
        ensures
            match hash {
                Some(h) => self.checked_out() == Some(h@),
                None => self.checked_out() is None,
            },
    {
        match &self.current_commit {
            Some(h) => Some(h),
            None => None,
        }
    }

    /// Where the working copy lies.
    pub fn local_path(&self) -> (path: &String)
        ensures
            path@ == self.path(),
    {
        &self.clone_info.local_path
    }

    /// Where the repository came from and where its working copy lies.
    pub fn clone_info(&self) -> (info: &RepoCloneInfo)
        ensures
            info.original_url@ == self.source(),
            info.local_path@ == self.path(),
            info.default_branch@ == self.branch(),
            info.clone_timestamp == self.cloned_at(),
    {
        &self.clone_info
    }

    /// The commit of the sequence with the hash `hash`.
    pub fn get_commit_info(&self, hash: &str) -> (commit: Option<&CommitInfo>)
        ensures
            match commit {
                Some(c) => c@.hash == hash@ && self.sequence().contains(c@),
                None => forall|i: int|
                    0 <= i < self.sequence().len() ==> (#[trigger] self.sequence()[i]).hash != hash@,
            },
    {
        let mut i: usize = 0;
        while i < self.merge_sequence.len()
            invariant
                i <= self.merge_sequence.len(),
                forall|j: int| 0 <= j < i ==> (#[trigger] self.sequence()[j]).hash != hash@,
            decreases self.merge_sequence.len() - i,
        {
            assert(self.sequence()[i as int] == self.merge_sequence@[i as int]@);
            if same_text(self.merge_sequence[i].hash.as_str(), hash) {
                return Some(&self.merge_sequence[i]);
            }
            i = i + 1;
        }
        None
    }
}

impl GitTemporalNavigator {
    /// The directories among `dir_names` that are leftover working copies and
    /// are to be deleted; mirrors, whose names end in `-cache`, are never among
    /// them.
    pub fn cleanup_old_repos(dir_names: &Vec<String>) -> (stale: Vec<String>)
        ensures
            stale.deep_view() == stale_names(dir_names.deep_view()),
    {
        let ghost all = dir_names.deep_view();
        let mut stale: Vec<String> = Vec::new();
        let mut i: usize = 0;
        assert(all.take(0) =~= Seq::<Seq<char>>::empty());
        assert(stale.deep_view() =~= Seq::<Seq<char>>::empty());
        while i < dir_names.len()
            invariant
                i <= dir_names.len(),
                all == dir_names.deep_view(),
                stale.deep_view() == stale_names(all.take(i as int)),
            decreases dir_names.len() - i,
        {
            let ghost before = stale.deep_view();
            proof {
                assert(all.take(i + 1).drop_last() =~= all.take(i as int));
                assert(all.take(i + 1).last() == all[i as int]);
                assert(all[i as int] == dir_names@[i as int]@);
            }
            if is_stale_checkout_name(dir_names[i].as_str()) {
                stale.push(dir_names[i].clone());
                assert(stale.deep_view() =~= before.push(all[i as int]));
            }
            i = i + 1;
        }
        assert(all.take(dir_names.len() as int) =~= all);
        stale
    }

    /// Gives the navigator up and says where its working copy lies, for it
    /// to be deleted.
    pub fn cleanup(self) -> (path: String)
        ensures
            path@ == self.path(),
    {
        self.clone_info.local_path
    }
}

/// What was read of one commit of a repository.
#[derive(Debug)]
pub struct RawCommit {
    /// The hash of the commit.
    pub id: String,
    /// The author's name, where it is text.
    pub author_name: Option<String>,
    /// The author's address, where it is text.
    pub author_email: Option<String>,
    /// The commit message, where it is text.
    pub message: Option<String>,
    /// The time of authorship, in seconds since the epoch.
    pub author_time: i64,
    /// The hashes of the parents, in order.
    pub parent_ids: Vec<String>,
}

/// The record of a commit: its hash and time, its author, `Unknown` and
/// `unknown@unknown` where the name or the address is no text, its message
/// without white space at its ends, and its second parent where it has more
/// than one.
pub fn extract_commit_info(raw: &RawCommit) -> (commit: CommitInfo)
    ensures
        commit@.hash == raw.id@,
        commit@.author_name == match raw.author_name {
            Some(n) => n@,
            None => "Unknown"@,
        },
        commit@.author_email == match raw.author_email {
            Some(e) => e@,
            None => "unknown@unknown"@,
        },
        commit@.message == match raw.message {
            Some(m) => trimmed(m@),
            None => Seq::<char>::empty(),
        },
        commit@.timestamp == raw.author_time,
        commit@.merge_parent_hash == if raw.parent_ids@.len() > 1 {
            Some(raw.parent_ids@[1]@)
        } else {
            None
        },
{
    let author_name = match &raw.author_name {
        Some(n) => n.clone(),
        None => "Unknown".to_owned(),
    };
    let author_email = match &raw.author_email {
        Some(e) => e.clone(),
        None => "unknown@unknown".to_owned(),
    };
    let message = match &raw.message {
        Some(m) => trim(m.as_str()),
        None => String::new(),
    };
    let merge_parent_hash = if raw.parent_ids.len() > 1 {
        Some(raw.parent_ids[1].clone())
    } else {
        None
    };
    CommitInfo {
        hash: raw.id.clone(),
        author_name,
        author_email,
        message,
        timestamp: raw.author_time,
        merge_parent_hash,
    }
}

/// The references that are tried for the tip of the mainline, in order:
/// the default branch, then `main`, then `master`.
pub fn branch_references(default_branch: &str) -> (refs: Vec<String>)
    ensures
        refs.deep_view() == seq![
            "refs/heads/"@ + default_branch@,
            "refs/heads/main"@,
            "refs/heads/master"@,
        ],
{
    let mut first = chars_of("refs/heads/");
    push_str(&mut first, default_branch);
    let mut refs: Vec<String> = Vec::new();
    refs.push(string_of(&first));
    refs.push("refs/heads/main".to_owned());
    refs.push("refs/heads/master".to_owned());
    assert(refs.deep_view() =~= seq![
        "refs/heads/"@ + default_branch@,
        "refs/heads/main"@,
        "refs/heads/master"@,
    ]);
    refs
}

/// The remote branches that a mirror is reset to after a fetch, in the
/// order in which they are tried.
pub fn remote_branch_references() -> (refs: Vec<String>)
    ensures
        refs.deep_view() == seq!["refs/remotes/origin/main"@, "refs/remotes/origin/master"@],
{
    let mut refs: Vec<String> = Vec::new();
    refs.push("refs/remotes/origin/main".to_owned());
    refs.push("refs/remotes/origin/master".to_owned());
    assert(refs.deep_view() =~= seq![
        "refs/remotes/origin/main"@,
        "refs/remotes/origin/master"@,
    ]);
    refs
}

/// Whether the reference at position `i` is the one to use: it resolves,
/// and none before it does.
pub open spec fn is_first_resolved(resolved: Seq<bool>, i: int) -> bool {
    &&& 0 <= i < resolved.len()
    &&& resolved[i]
    &&& forall|j: int| 0 <= j < i ==> !#[trigger] resolved[j]
}

/// The position of the reference that a mirror is reset to, given for each
/// candidate, in order, whether it resolves to a commit: the first that
/// does. Where none does the mirror is left as it is.
pub fn first_resolved(resolved: &Vec<bool>) -> (r: Option<usize>)
    ensures
        match r {
            Some(i) => is_first_resolved(resolved@, i as int),
            None => forall|j: int| 0 <= j < resolved@.len() ==> !#[trigger] resolved@[j],
        },
{
    let mut i: usize = 0;
    while i < resolved.len()
        invariant
            i <= resolved.len(),
            forall|j: int| 0 <= j < i ==> !#[trigger] resolved@[j],
        decreases resolved.len() - i,
    {
        if resolved[i] {
            return Some(i);
        }
        i = i + 1;
    }
    None
}

/// What one author contributed to a commit sequence.
#[derive(Debug)]
pub struct AuthorStats {
    pub author_name: String,
    pub commit_count: usize,
    /// The addresses that the author used, each once, in the order of their
    /// first use.
    pub emails: Vec<String>,
    pub first_commit_timestamp: Option<i64>,
    pub last_commit_timestamp: Option<i64>,
}

/// The authors of `commits`, in order.
pub open spec fn author_names(commits: Seq<CommitInfoView>) -> Seq<Seq<char>> {
    Seq::new(commits.len(), |i: int| commits[i].author_name)
}

/// The time of the earliest commit of `author` in `commits`.
pub open spec fn earliest(commits: Seq<CommitInfoView>, author: Seq<char>) -> Option<i64>
    decreases commits.len(),
{
    if commits.len() == 0 {
        None
    } else {
        let before = earliest(commits.drop_last(), author);
        let last = commits.last();
        if last.author_name != author {
            before
        } else {
            match before {
                Some(t) => if last.timestamp < t {
                    Some(last.timestamp)
                } else {
                    Some(t)
                },
                None => Some(last.timestamp),
            }
        }
    }
}

/// The time of the latest commit of `author` in `commits`.
pub open spec fn latest(commits: Seq<CommitInfoView>, author: Seq<char>) -> Option<i64>
    decreases commits.len(),
{
    if commits.len() == 0 {
        None
    } else {
        let before = latest(commits.drop_last(), author);
        let last = commits.last();
        if last.author_name != author {
            before
        } else {
            match before {
                Some(t) => if last.timestamp > t {
                    Some(last.timestamp)
                } else {
                    Some(t)
                },
                None => Some(last.timestamp),
            }
        }
    }
}

/// The addresses that `author` used in `commits`, each once, in the order
/// of their first use.
pub open spec fn emails_of(commits: Seq<CommitInfoView>, author: Seq<char>) -> Seq<Seq<char>>
    decreases commits.len(),
{
    if commits.len() == 0 {
        Seq::empty()
    } else {
        let before = emails_of(commits.drop_last(), author);
        let last = commits.last();
        if last.author_name != author || before.contains(last.author_email) {
            before
        } else {
            before.push(last.author_email)
        }
    }
}

/// Whether `stats` are the statistics of the authors of `commits`: one line
/// for each author, none twice, each with the number of the author's
/// commits, the times of the earliest and the latest, and the addresses
/// used.
pub open spec fn is_author_statistics(commits: Seq<CommitInfoView>, stats: Seq<AuthorStats>) -> bool {
    &&& forall|i: int, j: int|
        0 <= i < j < stats.len() ==> (#[trigger] stats[i]).author_name@ != (
        #[trigger] stats[j]).author_name@
    &&& forall|k: int|
        0 <= k < commits.len() ==> exists|i: int|
            0 <= i < stats.len() && (#[trigger] stats[i]).author_name@
                == (#[trigger] commits[k]).author_name
    &&& forall|i: int|
        0 <= i < stats.len() ==> {
            let line = #[trigger] stats[i];
            &&& line.commit_count > 0
            &&& line.commit_count == occurrences(author_names(commits), line.author_name@)
            &&& line.first_commit_timestamp == earliest(commits, line.author_name@)
            &&& line.last_commit_timestamp == latest(commits, line.author_name@)
            &&& line.emails.deep_view() == emails_of(commits, line.author_name@)
        }
}

fn author_line(commits: &Vec<CommitInfo>, author: &String, commit_count: usize) -> (line: AuthorStats)
    ensures
        line.author_name@ == author@,
        line.commit_count == commit_count,
        line.first_commit_timestamp == earliest(commits.deep_view(), author@),
        line.last_commit_timestamp == latest(commits.deep_view(), author@),
        line.emails.deep_view() == emails_of(commits.deep_view(), author@),
{
    let ghost all = commits.deep_view();
    let mut first: Option<i64> = None;
    let mut last: Option<i64> = None;
    let mut emails: Vec<String> = Vec::new();
    let mut i: usize = 0;
    assert(all.take(0) =~= Seq::<CommitInfoView>::empty());
    assert(emails.deep_view() =~= Seq::<Seq<char>>::empty());
    while i < commits.len()
        invariant
            i <= commits.len(),
            all == commits.deep_view(),
            first == earliest(all.take(i as int), author@),
            last == latest(all.take(i as int), author@),
            emails.deep_view() == emails_of(all.take(i as int), author@),
        decreases commits.len() - i,
    {
        let ghost known = emails.deep_view();
        proof {
            assert(all.take(i + 1).drop_last() =~= all.take(i as int));
            assert(all.take(i + 1).last() == all[i as int]);
            assert(all[i as int] == commits@[i as int]@);
        }
        let commit = &commits[i];
        if same_text(commit.author_name.as_str(), author.as_str()) {
            first = match first {
                Some(t) => if commit.timestamp < t {
                    Some(commit.timestamp)
                } else {
                    Some(t)
                },
                None => Some(commit.timestamp),
            };
            last = match last {
                Some(t) => if commit.timestamp > t {
                    Some(commit.timestamp)
                } else {
                    Some(t)
                },
                None => Some(commit.timestamp),
            };
            let mut seen = false;
            let mut j: usize = 0;
            while j < emails.len() && !seen
                invariant
                    j <= emails.len(),
                    known == emails.deep_view(),
                    !seen ==> forall|k: int| 0 <= k < j ==> known[k] != commit.author_email@,
                    seen ==> known.contains(commit.author_email@),
                decreases emails.len() - j + (if seen { 0int } else { 1int }),
            {
                assert(known[j as int] == emails@[j as int]@);
                if same_text(emails[j].as_str(), commit.author_email.as_str()) {
                    seen = true;
                }
                j = j + 1;
            }
            if !seen {
                emails.push(commit.author_email.clone());
                assert(emails.deep_view() =~= known.push(commit.author_email@));
            }
        }
        i = i + 1;
    }
    assert(all.take(commits.len() as int) =~= all);
    AuthorStats {
        author_name: author.clone(),
        commit_count,
        emails,
        first_commit_timestamp: first,
        last_commit_timestamp: last,
    }
}

impl GitTemporalNavigator {
    /// The statistics of the authors of the commit sequence, each author at
    /// the place of the first commit.
    pub fn get_author_statistics(&self) -> (stats: Vec<AuthorStats>)
        ensures
            is_author_statistics(self.sequence(), stats@),
    {
        let ghost all = self.sequence();
        let mut names: Vec<String> = Vec::new();
        let mut i: usize = 0;
        while i < self.merge_sequence.len()
            invariant
                i <= self.merge_sequence.len(),
                all == self.merge_sequence.deep_view(),
                names.len() == i,
                forall|j: int| 0 <= j < i ==> names@[j]@ == all[j].author_name,
            decreases self.merge_sequence.len() - i,
        {
            assert(all[i as int] == self.merge_sequence@[i as int]@);
            names.push(self.merge_sequence[i].author_name.clone());
            i = i + 1;
        }
        assert(names.deep_view() =~= author_names(all));
        let counts = tally(&names);
        let mut stats: Vec<AuthorStats> = Vec::new();
        let mut k: usize = 0;
        while k < counts.len()
            invariant
                k <= counts.len(),
                all == self.merge_sequence.deep_view(),
                stats@.len() == k,
                forall|j: int|
                    0 <= j < k ==> {
                        let line = #[trigger] stats@[j];
                        &&& line.author_name@ == counts@[j].key@
                        &&& line.commit_count == counts@[j].count
                        &&& line.first_commit_timestamp == earliest(all, line.author_name@)
                        &&& line.last_commit_timestamp == latest(all, line.author_name@)
                        &&& line.emails.deep_view() == emails_of(all, line.author_name@)
                    },
            decreases counts.len() - k,
        {
            let ghost before = stats@;
            let line = author_line(&self.merge_sequence, &counts[k].key, counts[k].count);
            stats.push(line);
            assert forall|j: int| 0 <= j < k + 1 implies {
                let line = #[trigger] stats@[j];
                &&& line.author_name@ == counts@[j].key@
                &&& line.commit_count == counts@[j].count
                &&& line.first_commit_timestamp == earliest(all, line.author_name@)
                &&& line.last_commit_timestamp == latest(all, line.author_name@)
                &&& line.emails.deep_view() == emails_of(all, line.author_name@)
            } by {
                if j < k {
                    assert(stats@[j] == before[j]);
                }
            }
            k = k + 1;
        }
        proof {
            assert forall|a: int, b: int| 0 <= a < b < stats@.len() implies (#[trigger] stats@[a]).author_name@
                != (#[trigger] stats@[b]).author_name@ by {
                assert(counts@[a].key@ != counts@[b].key@);
            }
            assert forall|c: int| 0 <= c < all.len() implies exists|a: int|
                0 <= a < stats@.len() && (#[trigger] stats@[a]).author_name@
                    == (#[trigger] all[c]).author_name by {
                assert(author_names(all)[c] == all[c].author_name);
                let a = choose|a: int|
                    0 <= a < counts@.len() && (#[trigger] counts@[a]).key@ == author_names(all)[c];
                assert(stats@[a].author_name@ == all[c].author_name);
            }
            assert forall|a: int| 0 <= a < stats@.len() implies {
                let line = #[trigger] stats@[a];
                &&& line.commit_count > 0
                &&& line.commit_count == occurrences(author_names(all), line.author_name@)
                &&& line.first_commit_timestamp == earliest(all, line.author_name@)
                &&& line.last_commit_timestamp == latest(all, line.author_name@)
                &&& line.emails.deep_view() == emails_of(all, line.author_name@)
            } by {
                assert(counts@[a].count == occurrences(author_names(all), counts@[a].key@));
            }
        }
        stats
    }
}

} // verus!
