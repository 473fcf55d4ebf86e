//! The walk over a project directory: which entries are left out, which
//! directories are entered, and which files are collected.

use vstd::prelude::*;
use crate::dependency_analyzer::AnalysisConfig;
use crate::text::same_text;

verus! {

/// A compiled pattern of the `glob` crate.
#[verifier::external_type_specification]
#[verifier::external_body]
pub struct ExPattern(glob::Pattern);

/// What the `glob` crate reports of a pattern that it cannot compile.
#[verifier::external_type_specification]
#[verifier::external_body]
pub struct ExPatternError(glob::PatternError);

/// Whether the `glob` crate compiles the pattern `source`, on the platform
/// that the library is built for.
pub uninterp spec fn glob_compiles(source: Seq<char>) -> bool;

/// The text that a compiled pattern was compiled from.
pub uninterp spec fn pattern_source(pattern: glob::Pattern) -> Seq<char>;

/// Whether the pattern compiled from `source` matches all of `text`, with
/// the crate's default options and the path separators of the platform
/// that the library is built for.
pub uninterp spec fn glob_accepts(source: Seq<char>, text: Seq<char>) -> bool;

/// `Pattern::new` of the `glob` crate: whether a pattern compiles depends on
/// its text alone, and a compiled pattern remembers its text.
pub assume_specification[ glob::Pattern::new ](pattern: &str) -> (r: Result<
    glob::Pattern,
    glob::PatternError,
>)
    ensures
        r is Ok <==> glob_compiles(pattern@),
        r matches Ok(p) ==> pattern_source(p) == pattern@,
;

/// `Pattern::matches` of the `glob` crate: whether a pattern matches a text
/// depends on the text of the pattern and on the text alone.
pub assume_specification[ glob::Pattern::matches ](pattern: &glob::Pattern, str: &str) -> (r:
    bool)
    ensures
        r == glob_accepts(pattern_source(*pattern), str@),
;

/// Whether one of `patterns` compiles and matches `path`.
pub open spec fn ignored(path: Seq<char>, patterns: Seq<Seq<char>>) -> bool {
    exists|i: int|
        0 <= i < patterns.len() && glob_compiles(#[trigger] patterns[i]) && glob_accepts(
            patterns[i],
            path,
        )
}

/// Whether `path` is left out: one of `patterns` matches it. A pattern that
/// does not compile matches nothing.
pub fn should_ignore(path: &str, patterns: &Vec<String>) -> (r: bool)
    ensures
        r == ignored(path@, patterns.deep_view()),
{
    let ghost all = patterns.deep_view();
    let mut i: usize = 0;
    while i < patterns.len()
        invariant
            i <= patterns.len(),
            all == patterns.deep_view(),
            forall|j: int|
                0 <= j < i ==> !(glob_compiles(#[trigger] all[j]) && glob_accepts(all[j], path@)),
        decreases patterns.len() - i,
    {
        assert(all[i as int] == patterns@[i as int]@);
        match glob::Pattern::new(patterns[i].as_str()) {
            Ok(pattern) => {
                if pattern.matches(path) {
                    return true;
                }
            },
            Err(_) => {},
        }
        i = i + 1;
    }
    false
}

/// One entry of a directory, as the walk sees it.
#[derive(Debug)]
pub struct DirectoryEntry {
    /// The path of the entry.
    pub path: String,
    /// Whether the entry is a directory, links followed.
    pub is_dir: bool,
    /// Whether the entry is a symbolic link.
    pub is_symlink: bool,
    /// What stands behind the last dot of the file name, where the name has
    /// an extension.
    pub extension: Option<String>,
}

/// What the walk does with an entry.
#[derive(Debug, Clone, Copy, PartialEq, Eq, Structural)]
pub enum EntryVerdict {
    /// The entry is left out.
    Ignored,
    /// The entry is a directory whose entries are walked next.
    Descend,
    /// The entry is a file that is collected.
    Collect,
    /// The entry is passed over.
    Skip,
}

/// Whether a directory found at `depth` is entered under the depth limit
/// `max_depth`.
pub open spec fn within_depth(depth: usize, max_depth: Option<usize>) -> bool {
    match max_depth {
        Some(max) => depth + 1 <= max,
        None => true,
    }
}

/// What the walk does with `entry`, found in a directory at `depth` below
/// the root. An entry that a pattern matches is left out. A directory is
/// entered unless it is a link that is not to be followed or lies deeper
/// than allowed. A file is collected where its extension is one of the
/// configured ones.
pub open spec fn verdict_of(
    path: Seq<char>,
    is_dir: bool,
    is_symlink: bool,
    extension: Option<Seq<char>>,
    ignore_patterns: Seq<Seq<char>>,
    file_extensions: Seq<Seq<char>>,
    follow_symlinks: bool,
    max_depth: Option<usize>,
    depth: usize,
) -> EntryVerdict {
    if ignored(path, ignore_patterns) {
        EntryVerdict::Ignored
    } else if is_dir {
        if (follow_symlinks || !is_symlink) && within_depth(depth, max_depth) {
            EntryVerdict::Descend
        } else {
            EntryVerdict::Skip
        }
    } else if extension matches Some(e) && file_extensions.contains(e) {
        EntryVerdict::Collect
    } else {
        EntryVerdict::Skip
    }
}

fn holds_text(list: &Vec<String>, text: &str) -> (r: bool)
    ensures
        r == list.deep_view().contains(text@),
{
    let mut i: usize = 0;
    while i < list.len()
        invariant
            i <= list.len(),
            forall|j: int| 0 <= j < i ==> list.deep_view()[j] != text@,
        decreases list.len() - i,
    {
        assert(list.deep_view()[i as int] == list@[i as int]@);
        if same_text(list[i].as_str(), text) {
            return true;
        }
        i = i + 1;
    }
    false
}

/// What the walk does with `entry`, found in a directory at `depth` below
/// the root.
pub fn classify_entry(entry: &DirectoryEntry, config: &AnalysisConfig, depth: usize) -> (v:
    EntryVerdict)
    ensures
        v == verdict_of(
            entry.path@,
            entry.is_dir,
            entry.is_symlink,
            entry.extension.deep_view(),
            config@.ignore_patterns,
            config@.file_extensions,
            config@.follow_symlinks,
            config@.max_depth,
            depth,
        ),
{
    if should_ignore(entry.path.as_str(), &config.ignore_patterns) {
        EntryVerdict::Ignored
    } else if entry.is_dir {
        let shallow = match config.max_depth {
            Some(max) => depth < max,
            None => true,
        };
        if (config.follow_symlinks || !entry.is_symlink) && shallow {
            EntryVerdict::Descend
        } else {
            EntryVerdict::Skip
        }
    } else {
        match &entry.extension {
            Some(e) => if holds_text(&config.file_extensions, e.as_str()) {
                EntryVerdict::Collect
            } else {
                EntryVerdict::Skip
            },
            None => EntryVerdict::Skip,
        }
    }
}

/// An entry with the depth of the directory that it was found in.
#[derive(Debug)]
pub struct WalkedEntry {
    pub entry: DirectoryEntry,
    pub depth: usize,
}

/// The paths of the entries of `walked` that are collected, in order.
pub open spec fn collected_of(
    walked: Seq<WalkedEntry>,
    ignore_patterns: Seq<Seq<char>>,
    file_extensions: Seq<Seq<char>>,
    follow_symlinks: bool,
    max_depth: Option<usize>,
) -> Seq<Seq<char>>
    decreases walked.len(),
{
    if walked.len() == 0 {
        Seq::empty()
    } else {
        let before = collected_of(
            walked.drop_last(),
            ignore_patterns,
            file_extensions,
            follow_symlinks,
            max_depth,
        );
        let last = walked.last();
        if verdict_of(
            last.entry.path@,
            last.entry.is_dir,
            last.entry.is_symlink,
            last.entry.extension.deep_view(),
            ignore_patterns,
            file_extensions,
            follow_symlinks,
            max_depth,
            last.depth,
        ) == EntryVerdict::Collect {
            before.push(last.entry.path@)
        } else {
            before
        }
    }
}

/// The files among the entries that a walk came by, in the order of the
/// walk: those that no pattern leaves out and whose extension is one of the
/// configured ones.
pub fn find_dart_files(walked: &Vec<WalkedEntry>, config: &AnalysisConfig) -> (files: Vec<String>)
    ensures
        files.deep_view() == collected_of(
            walked@,
            config@.ignore_patterns,
            config@.file_extensions,
            config@.follow_symlinks,
            config@.max_depth,
        ),
{
    let mut files: Vec<String> = Vec::new();
    let mut i: usize = 0;
    assert(walked@.take(0) =~= Seq::<WalkedEntry>::empty());
    assert(files.deep_view() =~= Seq::<Seq<char>>::empty());
    while i < walked.len()
        invariant
            i <= walked.len(),
            files.deep_view() == collected_of(
                walked@.take(i as int),
                config@.ignore_patterns,
                config@.file_extensions,
                config@.follow_symlinks,
                config@.max_depth,
            ),
        decreases walked.len() - i,
    {
        let ghost before = files.deep_view();
        proof {
            assert(walked@.take(i + 1).drop_last() =~= walked@.take(i as int));
            assert(walked@.take(i + 1).last() == walked@[i as int]);
        }
        match classify_entry(&walked[i].entry, config, walked[i].depth) {
            EntryVerdict::Collect => {
                files.push(walked[i].entry.path.clone());
                assert(files.deep_view() =~= before.push(walked@[i as int].entry.path@));
            },
            _ => {},
        }
        i = i + 1;
    }
    assert(walked@.take(walked.len() as int) =~= walked@);
    files
}

} // verus!
