//! The lexicographic order on text and on pairs of texts, and the sort that
//! brings a list of settings into its canonical order.

use vstd::prelude::*;
use vstd::relations::{sorted_by, total_ordering};
use vstd::seq_lib::*;
use crate::text::chars_of;

verus! {

/// Whether `a` comes before `b`, or is `b`, in the order of dictionaries over
/// the code points.
pub open spec fn text_leq(a: Seq<char>, b: Seq<char>) -> bool
    decreases a.len(),
{
    if a.len() == 0 {
        true
    } else if b.len() == 0 {
        false
    } else if a[0] != b[0] {
        (a[0] as u32) < (b[0] as u32)
    } else {
        text_leq(a.drop_first(), b.drop_first())
    }
}

/// Every text is before or at itself.
pub proof fn lemma_text_leq_reflexive(a: Seq<char>)
    ensures
        text_leq(a, a),
    decreases a.len(),
{
    if a.len() > 0 {
        lemma_text_leq_reflexive(a.drop_first());
    }
}

/// Two texts that are each before or at the other are one text.
pub proof fn lemma_text_leq_antisymmetric(a: Seq<char>, b: Seq<char>)
    requires
        text_leq(a, b),
        text_leq(b, a),
    ensures
        a == b,
    decreases a.len(),
{
    if a.len() == 0 {
        assert(a =~= b);
    } else {
        lemma_text_leq_antisymmetric(a.drop_first(), b.drop_first());
        assert(a =~= seq![a[0]] + a.drop_first());
        assert(b =~= seq![b[0]] + b.drop_first());
    }
}

/// The order carries over a text in the middle.
pub proof fn lemma_text_leq_transitive(a: Seq<char>, b: Seq<char>, c: Seq<char>)
    requires
        text_leq(a, b),
        text_leq(b, c),
    ensures
        text_leq(a, c),
    decreases a.len(),
{
    if a.len() > 0 && a[0] == b[0] && b[0] == c[0] {
        lemma_text_leq_transitive(a.drop_first(), b.drop_first(), c.drop_first());
    }
}

/// Of two texts one is before or at the other.
pub proof fn lemma_text_leq_connected(a: Seq<char>, b: Seq<char>)
    ensures
        text_leq(a, b) || text_leq(b, a),
    decreases a.len(),
{
    if a.len() > 0 && b.len() > 0 {
        if a[0] == b[0] {
            lemma_text_leq_connected(a.drop_first(), b.drop_first());
        } else {
            vstd::utf8::char_u32_cast(a[0], a[0] as u32);
            vstd::utf8::char_u32_cast(b[0], b[0] as u32);
        }
    }
}

/// Whether the setting `p` comes before `q`, or is `q`: by the names, and by
/// the values where the names are one.
pub open spec fn pair_leq(p: (Seq<char>, Seq<char>), q: (Seq<char>, Seq<char>)) -> bool {
    if p.0 == q.0 {
        text_leq(p.1, q.1)
    } else {
        text_leq(p.0, q.0)
    }
}

/// The order on settings as a relation.
pub open spec fn setting_order() -> spec_fn((Seq<char>, Seq<char>), (Seq<char>, Seq<char>)) -> bool {
    |p: (Seq<char>, Seq<char>), q: (Seq<char>, Seq<char>)| pair_leq(p, q)
}

/// The order on settings is total.
pub proof fn lemma_setting_order_total()
    ensures
        total_ordering(setting_order()),
{
    let r = setting_order();
    assert forall|x: (Seq<char>, Seq<char>)| #[trigger] r(x, x) by {
        lemma_text_leq_reflexive(x.1);
    }
    assert forall|x: (Seq<char>, Seq<char>), y: (Seq<char>, Seq<char>)|
        #[trigger] r(x, y) && #[trigger] r(y, x) implies x == y by {
        if x.0 == y.0 {
            lemma_text_leq_antisymmetric(x.1, y.1);
        } else {
            lemma_text_leq_antisymmetric(x.0, y.0);
        }
    }
    assert forall|x: (Seq<char>, Seq<char>), y: (Seq<char>, Seq<char>)|
        #[trigger] r(x, y) || #[trigger] r(y, x) by {
        lemma_text_leq_connected(x.0, y.0);
        lemma_text_leq_connected(x.1, y.1);
    }
    assert forall|x: (Seq<char>, Seq<char>), y: (Seq<char>, Seq<char>), z: (Seq<char>, Seq<char>)|
        #[trigger] r(x, y) && #[trigger] r(y, z) implies r(x, z) by {
        if x.0 == y.0 && y.0 == z.0 {
            lemma_text_leq_transitive(x.1, y.1, z.1);
        } else if x.0 == y.0 {
        } else if y.0 == z.0 {
        } else {
            lemma_text_leq_transitive(x.0, y.0, z.0);
            if x.0 == z.0 {
                lemma_text_leq_antisymmetric(x.0, y.0);
            }
        }
    }
}

/// The settings in their canonical order.
pub open spec fn canonical_settings(settings: Seq<(Seq<char>, Seq<char>)>) -> Seq<
    (Seq<char>, Seq<char>),
> {
    settings.sort_by(setting_order())
}

/// Two lists of the same settings, in whatever order, have one canonical
/// order.
pub proof fn lemma_canonical_settings_unique(
    a: Seq<(Seq<char>, Seq<char>)>,
    b: Seq<(Seq<char>, Seq<char>)>,
)
    requires
        a.to_multiset() == b.to_multiset(),
    ensures
        canonical_settings(a) == canonical_settings(b),
{
    lemma_setting_order_total();
    a.lemma_sort_by_ensures(setting_order());
    b.lemma_sort_by_ensures(setting_order());
    lemma_sorted_unique(canonical_settings(a), canonical_settings(b), setting_order());
}

/// Whether `a` is before or at `b`.
pub fn chars_leq(a: &Vec<char>, b: &Vec<char>) -> (r: bool)
    ensures
        r == text_leq(a@, b@),
{
    let mut i: usize = 0;
    assert(a@.skip(0) =~= a@ && b@.skip(0) =~= b@);
    while i < a.len() && i < b.len()
        invariant
            i <= a.len(),
            i <= b.len(),
            text_leq(a@, b@) == text_leq(a@.skip(i as int), b@.skip(i as int)),
        decreases a.len() - i,
    {
        let x = a[i];
        let y = b[i];
        assert(a@.skip(i as int)[0] == x && b@.skip(i as int)[0] == y);
        if x != y {
            return (x as u32) < (y as u32);
        }
        assert(a@.skip(i as int).drop_first() =~= a@.skip(i + 1));
        assert(b@.skip(i as int).drop_first() =~= b@.skip(i + 1));
        i = i + 1;
    }
    i == a.len()
}

/// Whether the setting `p` is before or at `q`.
pub fn setting_leq(p: &(String, String), q: &(String, String)) -> (r: bool)
    ensures
        r == pair_leq(p.deep_view(), q.deep_view()),
{
    let pk = chars_of(p.0.as_str());
    let qk = chars_of(q.0.as_str());
    if chars_leq(&pk, &qk) && chars_leq(&qk, &pk) {
        proof {
            lemma_text_leq_antisymmetric(pk@, qk@);
        }
        let pv = chars_of(p.1.as_str());
        let qv = chars_of(q.1.as_str());
        chars_leq(&pv, &qv)
    } else {
        proof {
            if pk@ == qk@ {
                lemma_text_leq_reflexive(pk@);
            }
        }
        chars_leq(&pk, &qk)
    }
}

/// A copy of `settings` in canonical order.
pub fn sort_settings(settings: &Vec<(String, String)>) -> (sorted: Vec<(String, String)>)
    ensures
        sorted.deep_view() == canonical_settings(settings.deep_view()),
{
    let ghost all = settings.deep_view();
    let ghost order = setting_order();
    proof {
        lemma_setting_order_total();
    }
    let mut sorted: Vec<(String, String)> = Vec::new();
    let mut i: usize = 0;
    assert(all.take(0) =~= Seq::empty());
    assert(sorted.deep_view() =~= Seq::empty());
    assert(sorted.deep_view().to_multiset() =~= all.take(0).to_multiset());
    while i < settings.len()
        invariant
            i <= settings.len(),
            all == settings.deep_view(),
            order == setting_order(),
            total_ordering(order),
            sorted.len() == i,
            sorted_by(sorted.deep_view(), order),
            sorted.deep_view().to_multiset() == all.take(i as int).to_multiset(),
        decreases settings.len() - i,
    {
        let ghost before = sorted.deep_view();
        let ghost item = all[i as int];
        assert(item == settings@[i as int].deep_view());
        let mut at: usize = 0;
        while at < sorted.len() && setting_leq(&sorted[at], &settings[i])
            invariant
                at <= sorted.len(),
                i < settings.len(),
                before == sorted.deep_view(),
                item == settings@[i as int].deep_view(),
                forall|k: int| 0 <= k < at ==> pair_leq(#[trigger] before[k], item),
            decreases sorted.len() - at,
        {
            assert(before[at as int] == sorted@[at as int].deep_view());
            at = at + 1;
        }
        assert(at < sorted.len() ==> !pair_leq(before[at as int], item)) by {
            if at < sorted.len() {
                assert(before[at as int] == sorted@[at as int].deep_view());
            }
        }
        let copy = (settings[i].0.clone(), settings[i].1.clone());
        assert(copy.deep_view() == item);
        sorted.insert(at, copy);
        proof {
            assert(sorted.deep_view() =~= before.insert(at as int, item));
            to_multiset_insert(before, at as int, item);
            assert(all.take(i + 1) =~= all.take(i as int).push(item));
            to_multiset_build(all.take(i as int), item);
            let after = sorted.deep_view();
            assert forall|x: int, y: int| 0 <= x < y < after.len() implies #[trigger] order(
                after[x],
                after[y],
            ) by {
                if y < at {
                    assert(after[x] == before[x] && after[y] == before[y]);
                } else if y == at {
                    assert(after[x] == before[x]);
                    assert(pair_leq(before[x], item));
                } else if x == at {
                    assert(after[y] == before[y - 1]);
                    assert(!pair_leq(before[at as int], item));
                    assert(order(item, before[at as int]) || order(before[at as int], item));
                    if y - 1 > at {
                        assert(order(before[at as int], before[y - 1]));
                        assert(order(item, before[at as int]) && order(
                            before[at as int],
                            before[y - 1],
                        ) ==> order(item, before[y - 1]));
                    }
                } else if x < at {
                    assert(after[x] == before[x] && after[y] == before[y - 1]);
                    if x < y - 1 {
                    } else {
                    }
                } else {
                    assert(after[x] == before[x - 1] && after[y] == before[y - 1]);
                }
            }
        }
        i = i + 1;
    }
    proof {
        assert(all.take(settings.len() as int) =~= all);
        all.lemma_sort_by_ensures(order);
        lemma_sorted_unique(sorted.deep_view(), all.sort_by(order), order);
    }
    sorted
}

} // verus!
