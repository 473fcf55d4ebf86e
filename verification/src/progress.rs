//! Progress of a run: the phases, the events that report them, and the
//! wording of their messages.

use vstd::prelude::*;
use crate::text::{chars_of, decimal_digits, push_chars, push_decimal, push_str, slice_chars, string_of};

verus! {

/// The phase that a run is in.
#[derive(Debug)]
pub enum AnalysisPhase {
    Cloning,
    BuildingCommitSequence,
    AnalyzingCommits,
    Completed,
    Failed(String),
}

/// A share of the whole as an exact ratio of a hundred: `numerator` over
/// `denominator` percent.
#[derive(Debug, Clone, Copy, PartialEq, Eq, Structural)]
pub struct Percentage {
    pub numerator: u128,
    pub denominator: u128,
}

impl Percentage {
    /// Whether this share is no larger than `other`.
    pub open spec fn at_most(self, other: Percentage) -> bool {
        self.numerator * other.denominator <= other.numerator * self.denominator
    }

    /// Whether the ratio is defined and between nothing and everything.
    pub open spec fn wf(self) -> bool {
        self.denominator > 0 && self.numerator <= 100 * self.denominator
    }

    /// `whole` percent.
    pub(crate) fn whole(whole: u8) -> (p: Percentage)
        requires
            whole <= 100,
        ensures
            p.wf(),
            p.numerator == whole,
            p.denominator == 1,
    {
        Percentage { numerator: whole as u128, denominator: 1 }
    }

    /// The share reached when `done` of `total` commits have been analyzed:
    /// fifteen percent for the preparation and eighty spread over the
    /// commits.
    pub(crate) fn of_commits(done: usize, total: usize) -> (p: Percentage)
        requires
            done <= total,
            total > 0,
        ensures
            p.wf(),
            p.numerator == 15 * total + 80 * done,
            p.denominator == total,
    {
        Percentage {
            numerator: 15 * (total as u128) + 80 * (done as u128),
            denominator: total as u128,
        }
    }
}

/// The share of the commits grows with the number of commits done, from
/// fifteen percent on and to no more than ninety-five.
pub proof fn lemma_commit_share_grows(a: Percentage, b: Percentage, done: nat, more: nat, total: nat)
    requires
        done <= more <= total,
        total > 0,
        a.numerator == 15 * total + 80 * done,
        a.denominator == total,
        b.numerator == 15 * total + 80 * more,
        b.denominator == total,
    ensures
        a.at_most(b),
        (Percentage { numerator: 15, denominator: 1 }).at_most(a),
        b.at_most(Percentage { numerator: 100, denominator: 1 }),
{
    assert((15 * total + 80 * done) * total <= (15 * total + 80 * more) * total) by (nonlinear_arith)
        requires
            done <= more,
            total > 0,
    ;
}

/// A share that is no larger than a second, which is no larger than a third,
/// is no larger than the third.
pub proof fn lemma_at_most_transitive(a: Percentage, b: Percentage, c: Percentage)
    requires
        a.denominator > 0,
        b.denominator > 0,
        c.denominator > 0,
        a.at_most(b),
        b.at_most(c),
    ensures
        a.at_most(c),
{
    let an = a.numerator as int;
    let ad = a.denominator as int;
    let bn = b.numerator as int;
    let bd = b.denominator as int;
    let cn = c.numerator as int;
    let cd = c.denominator as int;
    assert(an * bd * cd <= bn * ad * cd) by (nonlinear_arith)
        requires
            an * bd <= bn * ad,
            cd > 0,
    ;
    assert(bn * cd * ad <= cn * bd * ad) by (nonlinear_arith)
        requires
            bn * cd <= cn * bd,
            ad > 0,
    ;
    assert(an * cd <= cn * ad) by (nonlinear_arith)
        requires
            an * bd * cd <= bn * ad * cd,
            bn * cd * ad <= cn * bd * ad,
            bd > 0,
    ;
}

/// One report of where a run stands.
#[derive(Debug)]
pub struct AnalysisProgress {
    pub phase: AnalysisPhase,
    pub current_commit: usize,
    pub total_commits: usize,
    pub current_commit_hash: String,
    pub message: String,
    pub percentage: Percentage,
}

/// The first `n` characters of `s`, all of it where it is shorter.
pub open spec fn head(s: Seq<char>, n: nat) -> Seq<char> {
    if s.len() <= n {
        s
    } else {
        s.subrange(0, n as int)
    }
}

/// The position of the first `c` in `s`, its length where it holds none.
pub open spec fn first_position(s: Seq<char>, c: char) -> int
    decreases s.len(),
{
    if s.len() == 0 {
        0
    } else if s[0] == c {
        0
    } else {
        1 + first_position(s.drop_first(), c)
    }
}

/// The first line of `s`: what stands before its first line feed.
pub open spec fn first_line(s: Seq<char>) -> Seq<char> {
    s.subrange(0, first_position(s, '\n'))
}

fn first_line_of(s: &Vec<char>) -> (line: Vec<char>)
    ensures
        line@ == first_line(s@),
{
    let mut i: usize = 0;
    assert(s@.skip(0) =~= s@);
    while i < s.len() && s[i] != '\n'
        invariant
            i <= s.len(),
            first_position(s@, '\n') == i + first_position(s@.skip(i as int), '\n'),
        decreases s.len() - i,
    {
        assert(s@.skip(i as int)[0] == s@[i as int]);
        assert(s@.skip(i as int).drop_first() =~= s@.skip(i + 1));
        i = i + 1;
    }
    proof {
        if i < s.len() {
            assert(s@.skip(i as int)[0] == s@[i as int]);
        } else {
            assert(s@.skip(i as int) =~= Seq::<char>::empty());
        }
    }
    slice_chars(s, 0, i)
}

/// The message of the event that opens a run.
pub open spec fn cloning_text(url: Seq<char>) -> Seq<char> {
    "Cloning repository: "@ + url
}

/// The message of the event that reports the commit sequence.
pub open spec fn sequence_text(commits: nat) -> Seq<char> {
    "Found "@ + decimal_digits(commits) + " commits in merge sequence"@
}

/// The message of the event that opens the analysis of the sampled commits.
pub open spec fn analyzing_text(commits: nat) -> Seq<char> {
    "Analyzing "@ + decimal_digits(commits) + " commits"@
}

/// The message of the event that opens the analysis of one commit.
pub open spec fn commit_text(hash: Seq<char>, message: Seq<char>) -> Seq<char> {
    "Analyzing commit "@ + head(hash, 8) + ": "@ + first_line(message)
}

/// The share of `analyzed` in `sampled`, in whole percent, rounded down.
pub open spec fn success_rate(analyzed: nat, sampled: nat) -> nat {
    if sampled == 0 {
        0
    } else {
        (100 * analyzed / sampled) as nat
    }
}

/// The message of the event that closes a run in which `analyzed` of
/// `sampled` commits gave a snapshot.
pub open spec fn completion_text(analyzed: nat, sampled: nat) -> Seq<char> {
    if analyzed < sampled {
        "Analysis completed. "@ + decimal_digits(analyzed) + " of "@ + decimal_digits(sampled)
            + " commits analyzed successfully ("@ + decimal_digits(success_rate(analyzed, sampled))
            + "% success rate). "@ + decimal_digits((sampled - analyzed) as nat)
            + " commits skipped due to missing project files."@
    } else {
        "Analysis completed. "@ + decimal_digits(analyzed) + " snapshots generated."@
    }
}

/// The message of a run in which no sampled commit gave a snapshot.
pub open spec fn no_snapshot_text() -> Seq<char> {
    "Failed to analyze any commits. This could mean:\n1. The repository doesn't contain a Flutter/Dart project (no pubspec.yaml found)\n2. The project is in a subfolder - please specify the subfolder path in settings\n3. The project was added in later commits - try analyzing more commits"@
}

/// The message of the event that opens a run on `url`.
pub fn cloning_message(url: &str) -> (m: String)
    ensures
        m@ == cloning_text(url@),
{
    let mut out = chars_of("Cloning repository: ");
    push_str(&mut out, url);
    string_of(&out)
}

/// The message of the event that reports a sequence of `commits` commits.
pub fn sequence_message(commits: usize) -> (m: String)
    ensures
        m@ == sequence_text(commits as nat),
{
    let mut out = chars_of("Found ");
    push_decimal(&mut out, commits as u64);
    push_str(&mut out, " commits in merge sequence");
    string_of(&out)
}

/// The message of the event that opens the analysis of `commits` commits.
pub fn analyzing_message(commits: usize) -> (m: String)
    ensures
        m@ == analyzing_text(commits as nat),
{
    let mut out = chars_of("Analyzing ");
    push_decimal(&mut out, commits as u64);
    push_str(&mut out, " commits");
    string_of(&out)
}

/// The first eight characters of `hash`, all of it where it is shorter.
pub fn short_hash(hash: &str) -> (h: Vec<char>)
    ensures
        h@ == head(hash@, 8),
{
    let chars = chars_of(hash);
    if chars.len() <= 8 {
        chars
    } else {
        slice_chars(&chars, 0, 8)
    }
}

/// The message of the event that opens the analysis of the commit `hash`
/// with the commit message `message`.
pub fn commit_message(hash: &str, message: &str) -> (m: String)
    ensures
        m@ == commit_text(hash@, message@),
{
    let mut out = chars_of("Analyzing commit ");
    let h = short_hash(hash);
    push_chars(&mut out, &h);
    push_str(&mut out, ": ");
    let text = chars_of(message);
    let line = first_line_of(&text);
    push_chars(&mut out, &line);
    string_of(&out)
}

/// The message of the event that closes a run in which `analyzed` of
/// `sampled` commits gave a snapshot.
pub fn completion_message(analyzed: usize, sampled: usize) -> (m: String)
    ensures
        m@ == completion_text(analyzed as nat, sampled as nat),
{
    let mut out = chars_of("Analysis completed. ");
    push_decimal(&mut out, analyzed as u64);
    if analyzed < sampled {
        let rate: u128 = 100 * (analyzed as u128) / (sampled as u128);
        assert(100 * (analyzed as int) / (sampled as int) <= 100) by (nonlinear_arith)
            requires
                0 <= analyzed <= sampled,
                sampled > 0,
        ;
        push_str(&mut out, " of ");
        push_decimal(&mut out, sampled as u64);
        push_str(&mut out, " commits analyzed successfully (");
        push_decimal(&mut out, rate as u64);
        push_str(&mut out, "% success rate). ");
        push_decimal(&mut out, (sampled - analyzed) as u64);
        push_str(&mut out, " commits skipped due to missing project files.");
    } else {
        push_str(&mut out, " snapshots generated.");
    }
    string_of(&out)
}

/// The message of a run in which no sampled commit gave a snapshot.
pub fn no_snapshot_message() -> (m: String)
    ensures
        m@ == no_snapshot_text(),
{
    "Failed to analyze any commits. This could mean:\n1. The repository doesn't contain a Flutter/Dart project (no pubspec.yaml found)\n2. The project is in a subfolder - please specify the subfolder path in settings\n3. The project was added in later commits - try analyzing more commits".to_owned()
}

} // verus!
