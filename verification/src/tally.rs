//! Counting how often each key occurs in a list.

use vstd::prelude::*;
use vstd::seq_lib::*;
use crate::text::same_text;

verus! {

/// A key and how often it occurs.
#[derive(Debug)]
pub struct KeyCount {
    pub key: String,
    pub count: usize,
}

/// How often `key` occurs in `keys`.
pub open spec fn occurrences(keys: Seq<Seq<char>>, key: Seq<char>) -> nat {
    keys.to_multiset().count(key)
}

/// Whether `counts` is the tally of `keys`: one line for each key that
/// occurs, none twice, each with the number of its occurrences.
pub open spec fn is_tally(keys: Seq<Seq<char>>, counts: Seq<KeyCount>) -> bool {
    &&& forall|i: int, j: int|
        0 <= i < j < counts.len() ==> (#[trigger] counts[i]).key@ != (#[trigger] counts[j]).key@
    &&& forall|i: int|
        0 <= i < counts.len() ==> (#[trigger] counts[i]).count == occurrences(keys, counts[i].key@)
            && counts[i].count > 0
    &&& forall|k: int|
        0 <= k < keys.len() ==> exists|i: int|
            0 <= i < counts.len() && (#[trigger] counts[i]).key@ == #[trigger] keys[k]
}

/// The sum of the counts of a tally.
pub open spec fn total_count(counts: Seq<KeyCount>) -> nat
    decreases counts.len(),
{
    if counts.len() == 0 {
        0
    } else {
        total_count(counts.drop_last()) + counts.last().count as nat
    }
}

/// The tally of `keys`, each key at the place of its first occurrence.
pub fn tally(keys: &Vec<String>) -> (counts: Vec<KeyCount>)
    ensures
        is_tally(keys.deep_view(), counts@),
        total_count(counts@) == keys@.len(),
{
    let mut counts: Vec<KeyCount> = Vec::new();
    let mut i: usize = 0;
    let ghost all = keys.deep_view();
    assert(all.take(0) =~= Seq::<Seq<char>>::empty());
    while i < keys.len()
        invariant
            i <= keys.len(),
            all == keys.deep_view(),
            all.len() == keys.len(),
            is_tally(all.take(i as int), counts@),
            total_count(counts@) == i,
        decreases keys.len() - i,
    {
        let ghost before = all.take(i as int);
        let ghost after = all.take(i + 1);
        let ghost key = keys@[i as int]@;
        let ghost old_counts = counts@;
        proof {
            assert(all[i as int] == key);
            assert(after =~= before.push(key));
            to_multiset_build(before, key);
            assert(forall|k: Seq<char>|
                occurrences(after, k) == if k == key {
                    occurrences(before, k) + 1
                } else {
                    occurrences(before, k)
                });
        }
        let mut j: usize = 0;
        let mut found = false;
        while j < counts.len() && !found
            invariant
                j <= counts.len(),
                counts@ == old_counts,
                key == keys@[i as int]@,
                i < keys.len(),
                !found ==> forall|m: int| 0 <= m < j ==> (#[trigger] counts@[m]).key@ != key,
                found ==> 0 < j <= counts.len() && counts@[j - 1].key@ == key,
            decreases counts.len() - j + (if found { 0int } else { 1int }),
        {
            if same_text(counts[j].key.as_str(), keys[i].as_str()) {
                found = true;
            }
            j = j + 1;
        }
        if found {
            let at = j - 1;
            proof {
                lemma_total_count_bounds(old_counts, at as int);
            }
            let line = KeyCount { key: keys[i].clone(), count: counts[at].count + 1 };
            counts.set(at, line);
            proof {
                lemma_total_count_update(old_counts, at as int, counts@[at as int]);
                assert forall|a: int, b: int| 0 <= a < b < counts@.len() implies (
                #[trigger] counts@[a]).key@ != (#[trigger] counts@[b]).key@ by {
                    assert(old_counts[a].key@ == counts@[a].key@);
                    assert(old_counts[b].key@ == counts@[b].key@);
                }
                assert forall|m: int| 0 <= m < counts@.len() implies (
                #[trigger] counts@[m]).count == occurrences(after, counts@[m].key@)
                    && counts@[m].count > 0 by {
                    if m != at {
                        assert(counts@[m] == old_counts[m]);
                        if m < at {
                            assert(old_counts[m].key@ != old_counts[at as int].key@);
                        } else {
                            assert(old_counts[at as int].key@ != old_counts[m].key@);
                        }
                    } else {
                        assert(old_counts[m].count == occurrences(before, old_counts[m].key@));
                    }
                }
                assert forall|k: int| 0 <= k < after.len() implies exists|m: int|
                    0 <= m < counts@.len() && (#[trigger] counts@[m]).key@ == #[trigger] after[k] by {
                    if k < before.len() {
                        assert(after[k] == before[k]);
                        let m = choose|m: int|
                            0 <= m < old_counts.len() && (#[trigger] old_counts[m]).key@
                                == before[k];
                        assert(counts@[m].key@ == after[k]);
                    } else {
                        assert(counts@[at as int].key@ == after[k]);
                    }
                }
            }
        } else {
            proof {
                assert(occurrences(before, key) == 0) by {
                    if occurrences(before, key) > 0 {
                        to_multiset_contains(before, key);
                        assert(before.to_multiset().contains(key));
                        assert(before.contains(key));
                        let k = choose|k: int| 0 <= k < before.len() && before[k] == key;
                        let m = choose|m: int|
                            0 <= m < old_counts.len() && (#[trigger] old_counts[m]).key@
                                == before[k];
                        assert(false);
                    }
                }
            }
            counts.push(KeyCount { key: keys[i].clone(), count: 1 });
            proof {
                assert(counts@.drop_last() == old_counts);
                assert forall|a: int, b: int| 0 <= a < b < counts@.len() implies (
                #[trigger] counts@[a]).key@ != (#[trigger] counts@[b]).key@ by {
                    if b < old_counts.len() {
                        assert(counts@[a] == old_counts[a]);
                        assert(counts@[b] == old_counts[b]);
                    } else {
                        assert(counts@[a] == old_counts[a]);
                    }
                }
                assert forall|m: int| 0 <= m < counts@.len() implies (
                #[trigger] counts@[m]).count == occurrences(after, counts@[m].key@)
                    && counts@[m].count > 0 by {
                    if m < old_counts.len() {
                        assert(counts@[m] == old_counts[m]);
                        assert(old_counts[m].key@ != key);
                    }
                }
                assert forall|k: int| 0 <= k < after.len() implies exists|m: int|
                    0 <= m < counts@.len() && (#[trigger] counts@[m]).key@ == #[trigger] after[k] by {
                    if k < before.len() {
                        assert(after[k] == before[k]);
                        let m = choose|m: int|
                            0 <= m < old_counts.len() && (#[trigger] old_counts[m]).key@
                                == before[k];
                        assert(counts@[m].key@ == after[k]);
                    } else {
                        assert(counts@[old_counts.len() as int].key@ == after[k]);
                    }
                }
            }
        }
        i = i + 1;
    }
    assert(all.take(keys.len() as int) =~= all);
    counts
}

/// No line of a tally counts more than the whole.
pub proof fn lemma_total_count_bounds(counts: Seq<KeyCount>, at: int)
    requires
        0 <= at < counts.len(),
    ensures
        counts[at].count <= total_count(counts),
    decreases counts.len(),
{
    if at < counts.len() - 1 {
        lemma_total_count_bounds(counts.drop_last(), at);
    }
}

/// Replacing one line changes the total by the difference of the counts.
pub proof fn lemma_total_count_update(counts: Seq<KeyCount>, at: int, line: KeyCount)
    requires
        0 <= at < counts.len(),
    ensures
        total_count(counts.update(at, line)) == total_count(counts) - counts[at].count
            + line.count,
    decreases counts.len(),
{
    let updated = counts.update(at, line);
    if at < counts.len() - 1 {
        lemma_total_count_update(counts.drop_last(), at, line);
        assert(updated.drop_last() =~= counts.drop_last().update(at, line));
    } else {
        assert(updated.drop_last() =~= counts.drop_last());
    }
}

} // verus!
