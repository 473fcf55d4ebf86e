//! The sampling policy: which commits of a sequence are analyzed.

use vstd::prelude::*;
use crate::git_navigator::{CommitInfo, CommitInfoView};
use crate::text::same_text;

verus! {

/// Whether the commit at position `i` of `n` is sampled at `stride`: the
/// first, the last, and each whose position is a multiple of the stride. Zero
/// has no multiple but zero.
pub open spec fn is_sample_index(i: int, n: int, stride: int) -> bool {
    i == 0 || i == n - 1 || (stride > 0 && i % stride == 0)
}

/// The sampled commits among the first `k` of `commits`, in order.
pub open spec fn stride_sample_upto(commits: Seq<CommitInfoView>, stride: nat, k: nat) -> Seq<
    CommitInfoView,
>
    decreases k,
{
    if k == 0 {
        Seq::empty()
    } else {
        let before = stride_sample_upto(commits, stride, (k - 1) as nat);
        if is_sample_index(k - 1, commits.len() as int, stride as int) {
            before.push(commits[k - 1])
        } else {
            before
        }
    }
}

/// The commits of `commits` that are sampled at `stride`, in order.
pub open spec fn stride_sample(commits: Seq<CommitInfoView>, stride: nat) -> Seq<CommitInfoView> {
    stride_sample_upto(commits, stride, commits.len())
}

/// Whether one of `commits` has the hash `hash`.
pub open spec fn has_hash(commits: Seq<CommitInfoView>, hash: Seq<char>) -> bool {
    exists|i: int| 0 <= i < commits.len() && (#[trigger] commits[i]).hash == hash
}

/// The distance between the commits that are kept when `len` sampled commits
/// are cut down to `max`.
pub open spec fn cap_step(len: nat, max: nat) -> nat {
    if max == 0 {
        0
    } else {
        len / max
    }
}

/// `sampled` cut down to `max` commits, evenly spread from the first on, and
/// its last commit behind them unless its hash is among them. A sequence of
/// at most `max` commits stays as it is.
pub open spec fn cap_sample(sampled: Seq<CommitInfoView>, max: nat) -> Seq<CommitInfoView> {
    if sampled.len() <= max {
        sampled
    } else {
        let step = cap_step(sampled.len(), max);
        let picked = Seq::new(max, |i: int| sampled[i * step]);
        if has_hash(picked, sampled.last().hash) {
            picked
        } else {
            picked.push(sampled.last())
        }
    }
}

/// What the policy keeps of `commits`: the stride sample, cut down where a
/// maximum is set.
pub open spec fn sample_of(commits: Seq<CommitInfoView>, stride: nat, max: Option<usize>) -> Seq<
    CommitInfoView,
> {
    match max {
        Some(m) => cap_sample(stride_sample(commits, stride), m as nat),
        None => stride_sample(commits, stride),
    }
}

/// Every commit at a sampled position is in the stride sample.
pub proof fn lemma_stride_sample_holds(
    commits: Seq<CommitInfoView>,
    stride: nat,
    k: nat,
    i: int,
)
    requires
        0 <= i < k <= commits.len(),
        is_sample_index(i, commits.len() as int, stride as int),
    ensures
        stride_sample_upto(commits, stride, k).contains(commits[i]),
    decreases k,
{
    let before = stride_sample_upto(commits, stride, (k - 1) as nat);
    if i == k - 1 {
        assert(before.push(commits[i])[before.len() as int] == commits[i]);
    } else {
        lemma_stride_sample_holds(commits, stride, (k - 1) as nat, i);
        let at = choose|at: int| 0 <= at < before.len() && before[at] == commits[i];
        if is_sample_index(k - 1, commits.len() as int, stride as int) {
            assert(before.push(commits[k - 1])[at] == commits[i]);
        }
    }
}

/// Every commit of the stride sample stands at a sampled position.
pub proof fn lemma_stride_sample_only(
    commits: Seq<CommitInfoView>,
    stride: nat,
    k: nat,
    at: int,
)
    requires
        k <= commits.len(),
        0 <= at < stride_sample_upto(commits, stride, k).len(),
    ensures
        exists|i: int|
            0 <= i < k && is_sample_index(i, commits.len() as int, stride as int)
                && #[trigger] commits[i] == stride_sample_upto(commits, stride, k)[at],
    decreases k,
{
    if k > 0 {
        let before = stride_sample_upto(commits, stride, (k - 1) as nat);
        if at < before.len() {
            lemma_stride_sample_only(commits, stride, (k - 1) as nat, at);
            let i = choose|i: int|
                0 <= i < k - 1 && is_sample_index(i, commits.len() as int, stride as int)
                    && #[trigger] commits[i] == before[at];
            assert(commits[i] == stride_sample_upto(commits, stride, k)[at]);
        } else {
            assert(commits[k - 1] == stride_sample_upto(commits, stride, k)[at]);
        }
    }
}

/// The stride sample of a sequence begins with its first commit and ends
/// with its last.
pub proof fn lemma_stride_sample_ends(commits: Seq<CommitInfoView>, stride: nat, k: nat)
    requires
        0 < k <= commits.len(),
    ensures
        stride_sample_upto(commits, stride, k).len() > 0,
        stride_sample_upto(commits, stride, k)[0] == commits[0],
        k == commits.len() ==> stride_sample_upto(commits, stride, k).last() == commits.last(),
    decreases k,
{
    let before = stride_sample_upto(commits, stride, (k - 1) as nat);
    if k > 1 {
        lemma_stride_sample_ends(commits, stride, (k - 1) as nat);
        if is_sample_index(k - 1, commits.len() as int, stride as int) {
            assert(before.push(commits[k - 1])[0] == before[0]);
        }
    } else {
        assert(before =~= Seq::empty());
        assert(stride_sample_upto(commits, stride, k) =~= seq![commits[0]]);
    }
}

/// Sampling without a maximum keeps exactly the commits at the sampled
/// positions: the first, the last, and each at a multiple of the stride.
pub proof fn law_sampling_keeps_first_last_and_multiples(
    commits: Seq<CommitInfoView>,
    stride: nat,
)
    ensures
        forall|i: int|
            0 <= i < commits.len() && is_sample_index(i, commits.len() as int, stride as int)
                ==> sample_of(commits, stride, None).contains(#[trigger] commits[i]),
        forall|at: int|
            0 <= at < sample_of(commits, stride, None).len() ==> exists|i: int|
                0 <= i < commits.len() && is_sample_index(
                    i,
                    commits.len() as int,
                    stride as int,
                ) && #[trigger] commits[i] == #[trigger] sample_of(commits, stride, None)[at],
        commits.len() > 0 ==> sample_of(commits, stride, None).len() > 0 && sample_of(
            commits,
            stride,
            None,
        )[0] == commits[0] && sample_of(commits, stride, None).last() == commits.last(),
{
    assert forall|i: int|
        0 <= i < commits.len() && is_sample_index(
            i,
            commits.len() as int,
            stride as int,
        ) implies sample_of(commits, stride, None).contains(#[trigger] commits[i]) by {
        lemma_stride_sample_holds(commits, stride, commits.len(), i);
    }
    assert forall|at: int| 0 <= at < sample_of(commits, stride, None).len() implies exists|i: int|
        0 <= i < commits.len() && is_sample_index(i, commits.len() as int, stride as int)
            && #[trigger] commits[i] == #[trigger] sample_of(commits, stride, None)[at] by {
        lemma_stride_sample_only(commits, stride, commits.len(), at);
    }
    if commits.len() > 0 {
        lemma_stride_sample_ends(commits, stride, commits.len());
    }
}

/// A sample that is cut down holds the hash of its last commit, begins with
/// its first commit unless the maximum is zero, and has at most one commit
/// more than the maximum.
pub proof fn law_capped_sample_keeps_both_ends(sampled: Seq<CommitInfoView>, max: nat)
    requires
        sampled.len() > 0,
    ensures
        has_hash(cap_sample(sampled, max), sampled.last().hash),
        max > 0 ==> cap_sample(sampled, max)[0] == sampled[0],
        cap_sample(sampled, max).len() <= max + 1,
        cap_sample(sampled, max).len() <= sampled.len(),
{
    let out = cap_sample(sampled, max);
    if sampled.len() <= max {
        assert(out[sampled.len() - 1].hash == sampled.last().hash);
    } else {
        let step = cap_step(sampled.len(), max);
        let picked = Seq::new(max, |i: int| sampled[i * step]);
        if has_hash(picked, sampled.last().hash) {
        } else {
            assert(out[max as int].hash == sampled.last().hash);
        }
    }
}

fn any_has_hash(commits: &Vec<CommitInfo>, hash: &str) -> (r: bool)
    ensures
        r == has_hash(commits.deep_view(), hash@),
{
    let mut i: usize = 0;
    while i < commits.len()
        invariant
            i <= commits.len(),
            forall|j: int| 0 <= j < i ==> (#[trigger] commits.deep_view()[j]).hash != hash@,
        decreases commits.len() - i,
    {
        if same_text(commits[i].hash.as_str(), hash) {
            assert(commits.deep_view()[i as int].hash == hash@);
            return true;
        }
        i = i + 1;
    }
    false
}

/// The commits of `merge_sequence` that are analyzed: the first, the last and
/// every `commit_sampling`-th, cut down to `max_commits` where that is set.
pub fn sample_commits(
    merge_sequence: &Vec<CommitInfo>,
    commit_sampling: usize,
    max_commits: Option<usize>,
) -> (sampled: Vec<CommitInfo>)
    ensures
        sampled.deep_view() == sample_of(
            merge_sequence.deep_view(),
            commit_sampling as nat,
            max_commits,
        ),
{
    let ghost all = merge_sequence.deep_view();
    let n = merge_sequence.len();
    let mut sampled: Vec<CommitInfo> = Vec::new();
    let mut index: usize = 0;
    while index < n
        invariant
            index <= n,
            n == merge_sequence.len(),
            all == merge_sequence.deep_view(),
            sampled.deep_view() == stride_sample_upto(all, commit_sampling as nat, index as nat),
        decreases n - index,
    {
        let ghost before = sampled.deep_view();
        let keep = index == 0 || index == n - 1 || (commit_sampling > 0 && index % commit_sampling
            == 0);
        if keep {
            sampled.push(merge_sequence[index].clone());
            assert(sampled.deep_view() =~= before.push(all[index as int]));
        }
        index = index + 1;
    }
    match max_commits {
        None => sampled,
        Some(max) => {
            if sampled.len() <= max {
                sampled
            } else {
                let ghost full = sampled.deep_view();
                let len = sampled.len();
                let step = if max == 0 {
                    0
                } else {
                    len / max
                };
                let mut limited: Vec<CommitInfo> = Vec::new();
                let mut i: usize = 0;
                while i < max
                    invariant
                        i <= max,
                        max < len,
                        len == sampled.len(),
                        full == sampled.deep_view(),
                        step == cap_step(len as nat, max as nat),
                        limited.deep_view() == Seq::new(i as nat, |k: int| full[k * step]),
                    decreases max - i,
                {
                    let ghost before = limited.deep_view();
                    assert(step * max <= len && step >= 1) by (nonlinear_arith)
                        requires
                            max > 0,
                            max < len,
                            step == len / max,
                    ;
                    assert(i * step + step <= step * max) by (nonlinear_arith)
                        requires
                            i + 1 <= max,
                            step >= 0,
                    ;
                    let at = i * step;
                    assert(full[at as int] == sampled@[at as int]@);
                    limited.push(sampled[at].clone());
                    assert(limited.deep_view() =~= before.push(full[at as int]));
                    assert(before.push(full[at as int]) =~= Seq::new(
                        (i + 1) as nat,
                        |k: int| full[k * step],
                    ));
                    i = i + 1;
                }
                let last = &sampled[len - 1];
                assert(full.last() == last@);
                if !any_has_hash(&limited, last.hash.as_str()) {
                    let ghost before = limited.deep_view();
                    limited.push(last.clone());
                    assert(limited.deep_view() =~= before.push(full.last()));
                }
                limited
            }
        },
    }
}

} // verus!
