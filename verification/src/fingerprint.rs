//! The canonical byte code of the values that a cache key is derived from.
//! Every part is written behind its own length, so that no two different
//! values share a code.

use vstd::prelude::*;
use vstd::utf8::{encode_utf8, encode_utf8_decode_utf8};
use crate::dependency_analyzer::{AnalysisConfig, AnalysisConfigView};
use crate::ordering::{canonical_settings, sort_settings};
use crate::text::{fixed_digits, lemma_fixed_digits_injective, lemma_fixed_digits_len, power};

verus! {

/// Whether a count can be written in eight bytes.
pub open spec fn fits(n: nat) -> bool {
    n < power(256, 8)
}

/// The count `n` in eight bytes, most significant first.
pub open spec fn count_code(n: nat) -> Seq<u8> {
    fixed_digits(n, 256, 8).map_values(|d: nat| d as u8)
}

/// A text: the length of its UTF-8 form, then that form.
pub open spec fn text_code(s: Seq<char>) -> Seq<u8> {
    count_code(encode_utf8(s).len()) + encode_utf8(s)
}

/// The codes of the texts of `l`, one behind the other.
pub open spec fn texts_body(l: Seq<Seq<char>>) -> Seq<u8>
    decreases l.len(),
{
    if l.len() == 0 {
        Seq::empty()
    } else {
        text_code(l[0]) + texts_body(l.drop_first())
    }
}

/// A list of texts: how many there are, then each.
pub open spec fn texts_code(l: Seq<Seq<char>>) -> Seq<u8> {
    count_code(l.len()) + texts_body(l)
}

/// The codes of the pairs of `l`, one behind the other.
pub open spec fn pairs_body(l: Seq<(Seq<char>, Seq<char>)>) -> Seq<u8>
    decreases l.len(),
{
    if l.len() == 0 {
        Seq::empty()
    } else {
        text_code(l[0].0) + text_code(l[0].1) + pairs_body(l.drop_first())
    }
}

/// A list of pairs of texts: how many there are, then each.
pub open spec fn pairs_code(l: Seq<(Seq<char>, Seq<char>)>) -> Seq<u8> {
    count_code(l.len()) + pairs_body(l)
}

/// A text that may be absent: a byte that says whether it is there, then it.
pub open spec fn opt_text_code(o: Option<Seq<char>>) -> Seq<u8> {
    match o {
        None => seq![0u8],
        Some(s) => seq![1u8] + text_code(s),
    }
}

/// A count that may be absent.
pub open spec fn opt_count_code(o: Option<usize>) -> Seq<u8> {
    match o {
        None => seq![0u8],
        Some(n) => seq![1u8] + count_code(n as nat),
    }
}

/// A flag in one byte.
pub open spec fn flag_code(b: bool) -> Seq<u8> {
    if b {
        seq![1u8]
    } else {
        seq![0u8]
    }
}

/// Whether every text of `l` has a length that can be written.
pub open spec fn texts_fit(l: Seq<Seq<char>>) -> bool {
    fits(l.len()) && forall|i: int| 0 <= i < l.len() ==> fits(encode_utf8(#[trigger] l[i]).len())
}

/// Whether every text of the pairs of `l` has a length that can be written.
pub open spec fn pairs_fit(l: Seq<(Seq<char>, Seq<char>)>) -> bool {
    fits(l.len()) && forall|i: int|
        0 <= i < l.len() ==> fits(encode_utf8((#[trigger] l[i]).0).len()) && fits(
            encode_utf8(l[i].1).len(),
        )
}

/// 256 to the eighth is one more than the largest 64-bit number.
pub proof fn lemma_fits_u64(n: u64)
    ensures
        fits(n as nat),
{
    reveal_with_fuel(power, 9);
    assert(power(256, 8) == 0x1_0000_0000_0000_0000nat) by {
        assert(power(256, 0) == 1);
        assert(power(256, 1) == 256);
        assert(power(256, 2) == 65536);
        assert(power(256, 3) == 16777216);
        assert(power(256, 4) == 4294967296);
        assert(power(256, 5) == 1099511627776);
        assert(power(256, 6) == 281474976710656);
        assert(power(256, 7) == 72057594037927936);
        assert(power(256, 8) == 18446744073709551616);
    }
}

/// The digits of a number in a base are below the base.
pub proof fn lemma_fixed_digits_below_base(n: nat, base: nat, width: nat, i: int)
    requires
        base > 0,
        0 <= i < width,
    ensures
        fixed_digits(n, base, width).len() == width,
        fixed_digits(n, base, width)[i] < base,
    decreases width,
{
    lemma_fixed_digits_len(n, base, width);
    lemma_fixed_digits_len(n / base, base, (width - 1) as nat);
    if i < width - 1 {
        lemma_fixed_digits_below_base(n / base, base, (width - 1) as nat, i);
    }
}

/// A count code has eight bytes, and two counts with one code are equal.
pub proof fn lemma_count_code(m: nat, n: nat)
    requires
        fits(m),
        fits(n),
    ensures
        count_code(m).len() == 8,
        count_code(m) == count_code(n) ==> m == n,
{
    lemma_fixed_digits_len(m, 256, 8);
    lemma_fixed_digits_len(n, 256, 8);
    if count_code(m) == count_code(n) {
        let dm = fixed_digits(m, 256, 8);
        let dn = fixed_digits(n, 256, 8);
        assert forall|i: int| 0 <= i < 8 implies dm[i] == dn[i] by {
            lemma_fixed_digits_below_base(m, 256, 8, i);
            lemma_fixed_digits_below_base(n, 256, 8, i);
            assert(count_code(m)[i] == dm[i] as u8);
            assert(count_code(n)[i] == dn[i] as u8);
        }
        assert(dm =~= dn);
        lemma_fixed_digits_injective(m, n, 256, 8);
    }
}

/// Two byte strings that begin with the same part end with the same rest.
pub proof fn lemma_same_head(head: Seq<u8>, x: Seq<u8>, y: Seq<u8>)
    requires
        head + x == head + y,
    ensures
        x == y,
{
    assert(x =~= (head + x).subrange(head.len() as int, (head + x).len() as int));
    assert(y =~= (head + y).subrange(head.len() as int, (head + y).len() as int));
}

/// Two byte strings that begin with parts of one length begin with one part.
pub proof fn lemma_split(a: Seq<u8>, x: Seq<u8>, b: Seq<u8>, y: Seq<u8>)
    requires
        a.len() == b.len(),
        a + x == b + y,
    ensures
        a == b,
        x == y,
{
    assert(a =~= (a + x).subrange(0, a.len() as int));
    assert(b =~= (b + y).subrange(0, b.len() as int));
    lemma_same_head(a, x, y);
}

/// A count code can be read off the front of a byte string.
pub proof fn lemma_count_cancel(m: nat, x: Seq<u8>, n: nat, y: Seq<u8>)
    requires
        fits(m),
        fits(n),
        count_code(m) + x == count_code(n) + y,
    ensures
        m == n,
        x == y,
{
    lemma_count_code(m, n);
    lemma_count_code(n, m);
    lemma_split(count_code(m), x, count_code(n), y);
}

/// A text code can be read off the front of a byte string.
pub proof fn lemma_text_cancel(a: Seq<char>, x: Seq<u8>, b: Seq<char>, y: Seq<u8>)
    requires
        fits(encode_utf8(a).len()),
        fits(encode_utf8(b).len()),
        text_code(a) + x == text_code(b) + y,
    ensures
        a == b,
        x == y,
{
    let ea = encode_utf8(a);
    let eb = encode_utf8(b);
    assert(text_code(a) + x =~= count_code(ea.len()) + (ea + x));
    assert(text_code(b) + y =~= count_code(eb.len()) + (eb + y));
    lemma_count_cancel(ea.len(), ea + x, eb.len(), eb + y);
    lemma_split(ea, x, eb, y);
    encode_utf8_decode_utf8(a);
    encode_utf8_decode_utf8(b);
}

/// The codes of a list of texts can be read off the front of a byte string,
/// when the number of texts is known.
pub proof fn lemma_texts_body_cancel(
    a: Seq<Seq<char>>,
    x: Seq<u8>,
    b: Seq<Seq<char>>,
    y: Seq<u8>,
)
    requires
        texts_fit(a),
        texts_fit(b),
        a.len() == b.len(),
        texts_body(a) + x == texts_body(b) + y,
    ensures
        a == b,
        x == y,
    decreases a.len(),
{
    if a.len() == 0 {
        assert(a =~= b);
        assert(texts_body(a) + x =~= x);
        assert(texts_body(b) + y =~= y);
    } else {
        let ra = a.drop_first();
        let rb = b.drop_first();
        assert(texts_body(a) + x =~= text_code(a[0]) + (texts_body(ra) + x));
        assert(texts_body(b) + y =~= text_code(b[0]) + (texts_body(rb) + y));
        lemma_text_cancel(a[0], texts_body(ra) + x, b[0], texts_body(rb) + y);
        assert(texts_fit(ra)) by {
            lemma_fits_monotone(ra.len(), a.len());
            assert forall|i: int| 0 <= i < ra.len() implies fits(
                encode_utf8(#[trigger] ra[i]).len(),
            ) by {
                assert(ra[i] == a[i + 1]);
            }
        }
        assert(texts_fit(rb)) by {
            lemma_fits_monotone(rb.len(), b.len());
            assert forall|i: int| 0 <= i < rb.len() implies fits(
                encode_utf8(#[trigger] rb[i]).len(),
            ) by {
                assert(rb[i] == b[i + 1]);
            }
        }
        lemma_texts_body_cancel(ra, x, rb, y);
        assert(a =~= seq![a[0]] + ra);
        assert(b =~= seq![b[0]] + rb);
    }
}

/// A count below one that can be written can be written.
pub proof fn lemma_fits_monotone(m: nat, n: nat)
    requires
        m <= n,
        fits(n),
    ensures
        fits(m),
{
}

/// The code of a list of texts can be read off the front of a byte string.
pub proof fn lemma_texts_cancel(a: Seq<Seq<char>>, x: Seq<u8>, b: Seq<Seq<char>>, y: Seq<u8>)
    requires
        texts_fit(a),
        texts_fit(b),
        texts_code(a) + x == texts_code(b) + y,
    ensures
        a == b,
        x == y,
{
    assert(texts_code(a) + x =~= count_code(a.len()) + (texts_body(a) + x));
    assert(texts_code(b) + y =~= count_code(b.len()) + (texts_body(b) + y));
    lemma_count_cancel(a.len(), texts_body(a) + x, b.len(), texts_body(b) + y);
    lemma_texts_body_cancel(a, x, b, y);
}

/// The codes of a list of pairs can be read off the front of a byte string,
/// when the number of pairs is known.
pub proof fn lemma_pairs_body_cancel(
    a: Seq<(Seq<char>, Seq<char>)>,
    x: Seq<u8>,
    b: Seq<(Seq<char>, Seq<char>)>,
    y: Seq<u8>,
)
    requires
        pairs_fit(a),
        pairs_fit(b),
        a.len() == b.len(),
        pairs_body(a) + x == pairs_body(b) + y,
    ensures
        a == b,
        x == y,
    decreases a.len(),
{
    if a.len() == 0 {
        assert(a =~= b);
        assert(pairs_body(a) + x =~= x);
        assert(pairs_body(b) + y =~= y);
    } else {
        let ra = a.drop_first();
        let rb = b.drop_first();
        let ta = pairs_body(ra) + x;
        let tb = pairs_body(rb) + y;
        assert(pairs_body(a) + x =~= text_code(a[0].0) + (text_code(a[0].1) + ta));
        assert(pairs_body(b) + y =~= text_code(b[0].0) + (text_code(b[0].1) + tb));
        lemma_text_cancel(a[0].0, text_code(a[0].1) + ta, b[0].0, text_code(b[0].1) + tb);
        lemma_text_cancel(a[0].1, ta, b[0].1, tb);
        assert(pairs_fit(ra)) by {
            lemma_fits_monotone(ra.len(), a.len());
            assert forall|i: int| 0 <= i < ra.len() implies fits(
                encode_utf8((#[trigger] ra[i]).0).len(),
            ) && fits(encode_utf8(ra[i].1).len()) by {
                assert(ra[i] == a[i + 1]);
            }
        }
        assert(pairs_fit(rb)) by {
            lemma_fits_monotone(rb.len(), b.len());
            assert forall|i: int| 0 <= i < rb.len() implies fits(
                encode_utf8((#[trigger] rb[i]).0).len(),
            ) && fits(encode_utf8(rb[i].1).len()) by {
                assert(rb[i] == b[i + 1]);
            }
        }
        lemma_pairs_body_cancel(ra, x, rb, y);
        assert(a[0] == b[0]);
        assert(a =~= seq![a[0]] + ra);
        assert(b =~= seq![b[0]] + rb);
    }
}

/// Two lists of pairs with one code are equal.
pub proof fn lemma_pairs_code_injective(
    a: Seq<(Seq<char>, Seq<char>)>,
    b: Seq<(Seq<char>, Seq<char>)>,
)
    requires
        pairs_fit(a),
        pairs_fit(b),
        pairs_code(a) == pairs_code(b),
    ensures
        a == b,
{
    lemma_count_cancel(a.len(), pairs_body(a), b.len(), pairs_body(b));
    assert(pairs_body(a) + Seq::<u8>::empty() =~= pairs_body(a));
    assert(pairs_body(b) + Seq::<u8>::empty() =~= pairs_body(b));
    lemma_pairs_body_cancel(a, Seq::empty(), b, Seq::empty());
}

/// A text that may be absent can be read off the front of a byte string.
pub proof fn lemma_opt_text_cancel(
    a: Option<Seq<char>>,
    x: Seq<u8>,
    b: Option<Seq<char>>,
    y: Seq<u8>,
)
    requires
        a matches Some(s) ==> fits(encode_utf8(s).len()),
        b matches Some(s) ==> fits(encode_utf8(s).len()),
        opt_text_code(a) + x == opt_text_code(b) + y,
    ensures
        a == b,
        x == y,
{
    let left = opt_text_code(a) + x;
    let right = opt_text_code(b) + y;
    assert(left[0] == if a is Some { 1u8 } else { 0u8 });
    assert(right[0] == if b is Some { 1u8 } else { 0u8 });
    match (a, b) {
        (Some(s), Some(t)) => {
            assert(left =~= seq![1u8] + (text_code(s) + x));
            assert(right =~= seq![1u8] + (text_code(t) + y));
            lemma_same_head(seq![1u8], text_code(s) + x, text_code(t) + y);
            lemma_text_cancel(s, x, t, y);
        },
        (None, None) => {
            lemma_same_head(seq![0u8], x, y);
        },
        _ => {},
    }
}

/// A count that may be absent can be read off the front of a byte string.
pub proof fn lemma_opt_count_cancel(a: Option<usize>, x: Seq<u8>, b: Option<usize>, y: Seq<u8>)
    requires
        opt_count_code(a) + x == opt_count_code(b) + y,
    ensures
        a == b,
        x == y,
{
    let left = opt_count_code(a) + x;
    let right = opt_count_code(b) + y;
    assert(left[0] == if a is Some { 1u8 } else { 0u8 });
    assert(right[0] == if b is Some { 1u8 } else { 0u8 });
    match (a, b) {
        (Some(m), Some(n)) => {
            assert(left =~= seq![1u8] + (count_code(m as nat) + x));
            assert(right =~= seq![1u8] + (count_code(n as nat) + y));
            lemma_same_head(seq![1u8], count_code(m as nat) + x, count_code(n as nat) + y);
            lemma_fits_u64(m as u64);
            lemma_fits_u64(n as u64);
            lemma_count_cancel(m as nat, x, n as nat, y);
        },
        (None, None) => {
            lemma_same_head(seq![0u8], x, y);
        },
        _ => {},
    }
}

/// A flag can be read off the front of a byte string.
pub proof fn lemma_flag_cancel(a: bool, x: Seq<u8>, b: bool, y: Seq<u8>)
    requires
        flag_code(a) + x == flag_code(b) + y,
    ensures
        a == b,
        x == y,
{
    assert((flag_code(a) + x)[0] == if a { 1u8 } else { 0u8 });
    assert((flag_code(b) + y)[0] == if b { 1u8 } else { 0u8 });
    lemma_same_head(flag_code(a), x, y);
}

/// The code of an analysis configuration: the two lists, the depth, the
/// flag, and the analyzer's settings in canonical order.
pub open spec fn config_code(c: AnalysisConfigView) -> Seq<u8> {
    texts_code(c.ignore_patterns) + texts_code(c.file_extensions) + opt_count_code(c.max_depth)
        + flag_code(c.follow_symlinks) + pairs_code(canonical_settings(c.analyzer_config))
}

/// Whether every length in the configuration can be written. This holds of
/// every configuration that a program can hold.
pub open spec fn config_fits(c: AnalysisConfigView) -> bool {
    &&& texts_fit(c.ignore_patterns)
    &&& texts_fit(c.file_extensions)
    &&& pairs_fit(canonical_settings(c.analyzer_config))
}

/// Two configurations with one code agree in every field, the settings
/// compared in canonical order.
pub proof fn lemma_config_code_injective(a: AnalysisConfigView, b: AnalysisConfigView)
    requires
        config_fits(a),
        config_fits(b),
        config_code(a) == config_code(b),
    ensures
        a.ignore_patterns == b.ignore_patterns,
        a.file_extensions == b.file_extensions,
        a.max_depth == b.max_depth,
        a.follow_symlinks == b.follow_symlinks,
        canonical_settings(a.analyzer_config) == canonical_settings(b.analyzer_config),
{
    let pa = pairs_code(canonical_settings(a.analyzer_config));
    let pb = pairs_code(canonical_settings(b.analyzer_config));
    let fa = flag_code(a.follow_symlinks) + pa;
    let fb = flag_code(b.follow_symlinks) + pb;
    let da = opt_count_code(a.max_depth) + fa;
    let db = opt_count_code(b.max_depth) + fb;
    let xa = texts_code(a.file_extensions) + da;
    let xb = texts_code(b.file_extensions) + db;
    assert(config_code(a) =~= texts_code(a.ignore_patterns) + xa);
    assert(config_code(b) =~= texts_code(b.ignore_patterns) + xb);
    lemma_texts_cancel(a.ignore_patterns, xa, b.ignore_patterns, xb);
    lemma_texts_cancel(a.file_extensions, da, b.file_extensions, db);
    lemma_opt_count_cancel(a.max_depth, fa, b.max_depth, fb);
    lemma_flag_cancel(a.follow_symlinks, pa, b.follow_symlinks, pb);
    lemma_pairs_code_injective(
        canonical_settings(a.analyzer_config),
        canonical_settings(b.analyzer_config),
    );
}

/// The codes of a list of texts with one more text behind it.
pub proof fn lemma_texts_body_push(l: Seq<Seq<char>>, s: Seq<char>)
    ensures
        texts_body(l.push(s)) == texts_body(l) + text_code(s),
    decreases l.len(),
{
    if l.len() == 0 {
        assert(l.push(s).drop_first() =~= Seq::<Seq<char>>::empty());
        assert(texts_body(l.push(s)) =~= text_code(s) + texts_body(Seq::empty()));
        assert(texts_body(l.push(s)) =~= texts_body(l) + text_code(s));
    } else {
        lemma_texts_body_push(l.drop_first(), s);
        assert(l.push(s).drop_first() =~= l.drop_first().push(s));
        assert(texts_body(l.push(s)) =~= texts_body(l) + text_code(s));
    }
}

/// The codes of a list of pairs with one more pair behind it.
pub proof fn lemma_pairs_body_push(l: Seq<(Seq<char>, Seq<char>)>, p: (Seq<char>, Seq<char>))
    ensures
        pairs_body(l.push(p)) == pairs_body(l) + text_code(p.0) + text_code(p.1),
    decreases l.len(),
{
    if l.len() == 0 {
        assert(l.push(p).drop_first() =~= Seq::<(Seq<char>, Seq<char>)>::empty());
        assert(pairs_body(l.push(p)) =~= text_code(p.0) + text_code(p.1) + pairs_body(
            Seq::empty(),
        ));
        assert(pairs_body(l.push(p)) =~= pairs_body(l) + text_code(p.0) + text_code(p.1));
    } else {
        lemma_pairs_body_push(l.drop_first(), p);
        assert(l.push(p).drop_first() =~= l.drop_first().push(p));
        assert(pairs_body(l.push(p)) =~= pairs_body(l) + text_code(p.0) + text_code(p.1));
    }
}

fn push_digits(out: &mut Vec<u8>, n: u64, width: u8)
    requires
        width <= 8,
    ensures
        final(out)@ == old(out)@ + fixed_digits(n as nat, 256, width as nat).map_values(
            |d: nat| d as u8,
        ),
    decreases width,
{
    if width > 0 {
        push_digits(out, n / 256, width - 1);
        out.push((n % 256) as u8);
        assert(fixed_digits(n as nat, 256, width as nat) == fixed_digits(
            (n / 256) as nat,
            256,
            (width - 1) as nat,
        ).push((n % 256) as nat));
    }
}

/// Appends the code of the count `n`.
pub fn push_count(out: &mut Vec<u8>, n: u64)
    ensures
        final(out)@ == old(out)@ + count_code(n as nat),
{
    push_digits(out, n, 8);
}

/// Appends the code of the text `s`.
pub fn push_text(out: &mut Vec<u8>, s: &str)
    ensures
        final(out)@ == old(out)@ + text_code(s@),
        fits(encode_utf8(s@).len()),
{
    let ghost before = out@;
    let bytes = s.as_bytes();
    let n = bytes.len();
    proof {
        lemma_fits_u64(n as u64);
    }
    push_count(out, n as u64);
    let ghost head = out@;
    let mut i: usize = 0;
    while i < n
        invariant
            i <= n,
            n == bytes@.len(),
            out@ == head + bytes@.take(i as int),
        decreases n - i,
    {
        out.push(bytes[i]);
        i = i + 1;
    }
    assert(bytes@.take(n as int) =~= bytes@);
    assert(out@ =~= before + text_code(s@));
}

/// Appends the code of the list of texts `l`.
pub fn push_texts(out: &mut Vec<u8>, l: &Vec<String>)
    ensures
        final(out)@ == old(out)@ + texts_code(l.deep_view()),
        texts_fit(l.deep_view()),
{
    let ghost before = out@;
    let ghost all = l.deep_view();
    proof {
        lemma_fits_u64(l.len() as u64);
    }
    push_count(out, l.len() as u64);
    let ghost head = out@;
    let mut i: usize = 0;
    assert(all.take(0) =~= Seq::<Seq<char>>::empty());
    while i < l.len()
        invariant
            i <= l.len(),
            all == l.deep_view(),
            out@ == head + texts_body(all.take(i as int)),
            forall|j: int| 0 <= j < i ==> fits(encode_utf8(#[trigger] all[j]).len()),
        decreases l.len() - i,
    {
        proof {
            lemma_texts_body_push(all.take(i as int), all[i as int]);
            assert(all.take(i + 1) =~= all.take(i as int).push(all[i as int]));
            assert(all[i as int] == l@[i as int]@);
        }
        push_text(out, l[i].as_str());
        i = i + 1;
    }
    assert(all.take(l.len() as int) =~= all);
    assert(out@ =~= before + texts_code(all));
}

/// Appends the code of the list of pairs `l`.
pub fn push_pairs(out: &mut Vec<u8>, l: &Vec<(String, String)>)
    ensures
        final(out)@ == old(out)@ + pairs_code(l.deep_view()),
        pairs_fit(l.deep_view()),
{
    let ghost before = out@;
    let ghost all = l.deep_view();
    proof {
        lemma_fits_u64(l.len() as u64);
    }
    push_count(out, l.len() as u64);
    let ghost head = out@;
    let mut i: usize = 0;
    assert(all.take(0) =~= Seq::<(Seq<char>, Seq<char>)>::empty());
    while i < l.len()
        invariant
            i <= l.len(),
            all == l.deep_view(),
            out@ == head + pairs_body(all.take(i as int)),
            forall|j: int|
                0 <= j < i ==> fits(encode_utf8((#[trigger] all[j]).0).len()) && fits(
                    encode_utf8(all[j].1).len(),
                ),
        decreases l.len() - i,
    {
        proof {
            lemma_pairs_body_push(all.take(i as int), all[i as int]);
            assert(all.take(i + 1) =~= all.take(i as int).push(all[i as int]));
            assert(all[i as int] == l@[i as int].deep_view());
        }
        push_text(out, l[i].0.as_str());
        push_text(out, l[i].1.as_str());
        i = i + 1;
    }
    assert(all.take(l.len() as int) =~= all);
    assert(out@ =~= before + pairs_code(all));
}

/// Appends the code of a text that may be absent.
pub fn push_opt_text(out: &mut Vec<u8>, o: &Option<String>)
    ensures
        final(out)@ == old(out)@ + opt_text_code(o.deep_view()),
        o.deep_view() matches Some(s) ==> fits(encode_utf8(s).len()),
{
    let ghost before = out@;
    match o {
        None => {
            out.push(0);
            assert(out@ =~= before + opt_text_code(o.deep_view()));
        },
        Some(s) => {
            out.push(1);
            push_text(out, s.as_str());
            assert(out@ =~= before + opt_text_code(o.deep_view()));
        },
    }
}

/// The code of `config`.
pub fn encode_config(config: &AnalysisConfig) -> (code: Vec<u8>)
    ensures
        code@ == config_code(config@),
        config_fits(config@),
{
    let mut out: Vec<u8> = Vec::new();
    push_texts(&mut out, &config.ignore_patterns);
    push_texts(&mut out, &config.file_extensions);
    let ghost mid = out@;
    match config.max_depth {
        None => {
            out.push(0);
        },
        Some(depth) => {
            out.push(1);
            push_count(&mut out, depth as u64);
        },
    }
    assert(out@ =~= mid + opt_count_code(config.max_depth));
    let ghost mid2 = out@;
    out.push(if config.follow_symlinks { 1 } else { 0 });
    assert(out@ =~= mid2 + flag_code(config.follow_symlinks));
    let sorted = sort_settings(&config.analyzer_config);
    push_pairs(&mut out, &sorted);
    assert(out@ =~= config_code(config@));
    out
}

} // verus!
