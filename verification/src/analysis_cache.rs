//! The result cache: keys that fingerprint what an analysis depends on, the
//! index of cached entries, and the rules by which entries are read, written
//! and evicted.

use vstd::prelude::*;
use vstd::utf8::encode_utf8;
use vstd::std_specs::hash::DefaultHasherAdditionalSpecFns;
use std::collections::hash_map::DefaultHasher;
use std::hash::Hasher;
use crate::dependency_analyzer::{AnalysisConfig, AnalysisConfigView, AnalysisResult};
use crate::fingerprint::{
    config_code, config_fits, encode_config, fits, lemma_config_code_injective,
    lemma_opt_text_cancel, lemma_text_cancel, opt_text_code, push_opt_text, push_text, text_code,
};
use crate::ordering::{lemma_canonical_settings_unique, lemma_setting_order_total, setting_order};
use crate::text::{
    chars_of, digit_char, fixed_digits, hex16, hex_text, lemma_fixed_digits_injective,
    lemma_fixed_digits_len, power, push_str, same_text, string_of,
};
use crate::tally::{is_tally, tally, total_count, KeyCount};

verus! {

/// The 64-bit digest that the standard hasher gives to one block of bytes.
pub open spec fn digest(bytes: Seq<u8>) -> u64 {
    DefaultHasher::spec_finish(seq![bytes])
}

/// The digest of `bytes`.
pub fn digest_of(bytes: &Vec<u8>) -> (d: u64)
    ensures
        d == digest(bytes@),
{
    let mut hasher = DefaultHasher::new();
    hasher.write(bytes.as_slice());
    assert(hasher@ =~= seq![bytes@]);
    hasher.finish()
}

/// The fingerprint of a configuration: the digest of its code, in sixteen
/// hexadecimal digits.
pub open spec fn config_hash_text(c: AnalysisConfigView) -> Seq<char> {
    hex_text(digest(config_code(c)))
}

/// What one cached analysis depends on.
#[derive(Debug, PartialEq, Eq, Hash)]
pub struct AnalysisCacheKey {
    pub repo_url: String,
    pub commit_hash: String,
    pub subfolder: Option<String>,
    pub analyzer_name: String,
    pub analysis_config_hash: String,
}

/// A cache key as plain mathematical values.
pub struct AnalysisCacheKeyView {
    pub repo_url: Seq<char>,
    pub commit_hash: Seq<char>,
    pub subfolder: Option<Seq<char>>,
    pub analyzer_name: Seq<char>,
    pub analysis_config_hash: Seq<char>,
}

impl View for AnalysisCacheKey {
    type V = AnalysisCacheKeyView;

    open spec fn view(&self) -> AnalysisCacheKeyView {
        AnalysisCacheKeyView {
            repo_url: self.repo_url@,
            commit_hash: self.commit_hash@,
            subfolder: self.subfolder.deep_view(),
            analyzer_name: self.analyzer_name@,
            analysis_config_hash: self.analysis_config_hash@,
        }
    }
}

/// The code of a cache key: its five parts, each behind its length.
pub open spec fn key_code(k: AnalysisCacheKeyView) -> Seq<u8> {
    text_code(k.repo_url) + text_code(k.commit_hash) + opt_text_code(k.subfolder) + text_code(
        k.analyzer_name,
    ) + text_code(k.analysis_config_hash)
}

/// The string that stands for a cache key in the index and in file names:
/// the digest of its code, in sixteen hexadecimal digits.
pub open spec fn cache_key_text(k: AnalysisCacheKeyView) -> Seq<char> {
    hex_text(digest(key_code(k)))
}

/// The key of the analysis of `commit_hash` of `repo_url` by `analyzer_name`
/// under `config`.
pub open spec fn key_of(
    repo_url: Seq<char>,
    commit_hash: Seq<char>,
    subfolder: Option<Seq<char>>,
    analyzer_name: Seq<char>,
    config: AnalysisConfigView,
) -> AnalysisCacheKeyView {
    AnalysisCacheKeyView {
        repo_url,
        commit_hash,
        subfolder,
        analyzer_name,
        analysis_config_hash: config_hash_text(config),
    }
}

/// Whether every length in the key can be written. This holds of every key
/// that a program can hold.
pub open spec fn key_fits(k: AnalysisCacheKeyView) -> bool {
    &&& fits(encode_utf8(k.repo_url).len())
    &&& fits(encode_utf8(k.commit_hash).len())
    &&& (k.subfolder matches Some(s) ==> fits(encode_utf8(s).len()))
    &&& fits(encode_utf8(k.analyzer_name).len())
    &&& fits(encode_utf8(k.analysis_config_hash).len())
}

impl AnalysisCacheKey {
    /// The key of the analysis of `commit_hash` of `repo_url` by
    /// `analyzer_name` under `analysis_config`.
    pub fn new(
        repo_url: String,
        commit_hash: String,
        subfolder: Option<String>,
        analyzer_name: String,
        analysis_config: &AnalysisConfig,
    ) -> (key: Self)
        ensures
            key@ == key_of(
                repo_url@,
                commit_hash@,
                subfolder.deep_view(),
                analyzer_name@,
                analysis_config@,
            ),
    {
        let config_hash = Self::hash_analysis_config(analysis_config);
        AnalysisCacheKey {
            repo_url,
            commit_hash,
            subfolder,
            analyzer_name,
            analysis_config_hash: config_hash,
        }
    }

    /// The string that stands for this key.
    pub fn to_cache_key(&self) -> (s: String)
        ensures
            s@ == cache_key_text(self@),
            key_fits(self@),
    {
        let mut code: Vec<u8> = Vec::new();
        push_text(&mut code, self.repo_url.as_str());
        push_text(&mut code, self.commit_hash.as_str());
        push_opt_text(&mut code, &self.subfolder);
        push_text(&mut code, self.analyzer_name.as_str());
        push_text(&mut code, self.analysis_config_hash.as_str());
        assert(code@ =~= key_code(self@));
        hex16(digest_of(&code))
    }

    /// The fingerprint of `config`.
    pub fn hash_analysis_config(config: &AnalysisConfig) -> (s: String)
        ensures
            s@ == config_hash_text(config@),
            config_fits(config@),
    {
        let code = encode_config(config);
        hex16(digest_of(&code))
    }
}

impl Clone for AnalysisCacheKey {
    fn clone(&self) -> (k: Self)
        ensures
            k@ == self@,
    {
        AnalysisCacheKey {
            repo_url: self.repo_url.clone(),
            commit_hash: self.commit_hash.clone(),
            subfolder: match &self.subfolder {
                Some(s) => Some(s.clone()),
                None => None,
            },
            analyzer_name: self.analyzer_name.clone(),
            analysis_config_hash: self.analysis_config_hash.clone(),
        }
    }
}

/// Sixteen to the sixteenth is one more than the largest 64-bit number.
pub proof fn lemma_hex_range(v: u64)
    ensures
        (v as nat) < power(16, 16),
{
    reveal_with_fuel(power, 17);
    assert(power(16, 4) == 65536);
    assert(power(16, 8) == 4294967296);
    assert(power(16, 12) == 281474976710656);
    assert(power(16, 16) == 18446744073709551616);
}

/// Two numbers with the same sixteen hexadecimal digits are equal.
pub proof fn lemma_hex_text_injective(a: u64, b: u64)
    requires
        hex_text(a) == hex_text(b),
    ensures
        a == b,
{
    let da = fixed_digits(a as nat, 16, 16);
    let db = fixed_digits(b as nat, 16, 16);
    lemma_fixed_digits_len(a as nat, 16, 16);
    lemma_fixed_digits_len(b as nat, 16, 16);
    assert forall|i: int| 0 <= i < 16 implies da[i] == db[i] by {
        crate::fingerprint::lemma_fixed_digits_below_base(a as nat, 16, 16, i);
        crate::fingerprint::lemma_fixed_digits_below_base(b as nat, 16, 16, i);
        assert(hex_text(a)[i] == digit_char(da[i]));
        assert(hex_text(b)[i] == digit_char(db[i]));
        lemma_digit_char_injective(da[i], db[i]);
    }
    assert(da =~= db);
    lemma_hex_range(a);
    lemma_hex_range(b);
    lemma_fixed_digits_injective(a as nat, b as nat, 16, 16);
}

/// Two digits below sixteen that are written alike are equal.
pub proof fn lemma_digit_char_injective(c: nat, d: nat)
    requires
        c < 16,
        d < 16,
        digit_char(c) == digit_char(d),
    ensures
        c == d,
{
    assert(digit_char(c) as u32 == if c < 10 { 48 + c } else { 87 + c });
    assert(digit_char(d) as u32 == if d < 10 { 48 + d } else { 87 + d });
}

/// Whether two configurations are the same to an analysis: the lists, the
/// depth and the flag are equal, and the analyzer's settings are the same
/// pairs, in whatever order.
pub open spec fn same_configuration(a: AnalysisConfigView, b: AnalysisConfigView) -> bool {
    &&& a.ignore_patterns == b.ignore_patterns
    &&& a.file_extensions == b.file_extensions
    &&& a.max_depth == b.max_depth
    &&& a.follow_symlinks == b.follow_symlinks
    &&& a.analyzer_config.to_multiset() == b.analyzer_config.to_multiset()
}

/// Deriving the key twice from the same inputs gives the same key, and the
/// order in which the analyzer's settings are listed does not matter.
pub proof fn law_cache_key_deterministic(
    repo_url: Seq<char>,
    commit_hash: Seq<char>,
    subfolder: Option<Seq<char>>,
    analyzer_name: Seq<char>,
    a: AnalysisConfigView,
    b: AnalysisConfigView,
)
    requires
        same_configuration(a, b),
    ensures
        config_hash_text(a) == config_hash_text(b),
        cache_key_text(key_of(repo_url, commit_hash, subfolder, analyzer_name, a))
            == cache_key_text(key_of(repo_url, commit_hash, subfolder, analyzer_name, b)),
{
    lemma_canonical_settings_unique(a.analyzer_config, b.analyzer_config);
}

/// Two configurations that differ to an analysis have different codes.
pub proof fn law_config_code_separates(a: AnalysisConfigView, b: AnalysisConfigView)
    requires
        config_fits(a),
        config_fits(b),
        !same_configuration(a, b),
    ensures
        config_code(a) != config_code(b),
{
    if config_code(a) == config_code(b) {
        lemma_config_code_injective(a, b);
        lemma_setting_order_total();
        a.analyzer_config.lemma_sort_by_ensures(setting_order());
        b.analyzer_config.lemma_sort_by_ensures(setting_order());
        assert(false);
    }
}

/// Two keys that differ in a part have different codes.
pub proof fn law_key_code_separates(a: AnalysisCacheKeyView, b: AnalysisCacheKeyView)
    requires
        key_fits(a),
        key_fits(b),
        a != b,
    ensures
        key_code(a) != key_code(b),
{
    if key_code(a) == key_code(b) {
        let a4 = text_code(a.analysis_config_hash);
        let b4 = text_code(b.analysis_config_hash);
        let a3 = text_code(a.analyzer_name) + a4;
        let b3 = text_code(b.analyzer_name) + b4;
        let a2 = opt_text_code(a.subfolder) + a3;
        let b2 = opt_text_code(b.subfolder) + b3;
        let a1 = text_code(a.commit_hash) + a2;
        let b1 = text_code(b.commit_hash) + b2;
        assert(key_code(a) =~= text_code(a.repo_url) + a1);
        assert(key_code(b) =~= text_code(b.repo_url) + b1);
        lemma_text_cancel(a.repo_url, a1, b.repo_url, b1);
        lemma_text_cancel(a.commit_hash, a2, b.commit_hash, b2);
        lemma_opt_text_cancel(a.subfolder, a3, b.subfolder, b3);
        lemma_text_cancel(a.analyzer_name, a4, b.analyzer_name, b4);
        assert(a4 + Seq::<u8>::empty() =~= a4);
        assert(b4 + Seq::<u8>::empty() =~= b4);
        lemma_text_cancel(a.analysis_config_hash, Seq::empty(), b.analysis_config_hash, Seq::empty());
        assert(false);
    }
}

/// Two cache keys stand for the same string exactly when the digests of
/// their codes are equal.
pub proof fn law_cache_key_text_follows_digest(a: AnalysisCacheKeyView, b: AnalysisCacheKeyView)
    ensures
        cache_key_text(a) == cache_key_text(b) <==> digest(key_code(a)) == digest(key_code(b)),
{
    if cache_key_text(a) == cache_key_text(b) {
        lemma_hex_text_injective(digest(key_code(a)), digest(key_code(b)));
    }
}

/// Changing the configuration in any way that matters to an analysis changes
/// the key, unless the 64-bit digest takes the same value on two of the
/// different codes involved.
pub proof fn law_cache_key_changes_with_configuration(
    repo_url: Seq<char>,
    commit_hash: Seq<char>,
    subfolder: Option<Seq<char>>,
    analyzer_name: Seq<char>,
    a: AnalysisConfigView,
    b: AnalysisConfigView,
)
    requires
        config_fits(a),
        config_fits(b),
        key_fits(key_of(repo_url, commit_hash, subfolder, analyzer_name, a)),
        key_fits(key_of(repo_url, commit_hash, subfolder, analyzer_name, b)),
        !same_configuration(a, b),
        digest(config_code(a)) != digest(config_code(b)),
        digest(key_code(key_of(repo_url, commit_hash, subfolder, analyzer_name, a))) != digest(
            key_code(key_of(repo_url, commit_hash, subfolder, analyzer_name, b)),
        ),
    ensures
        config_code(a) != config_code(b),
        config_hash_text(a) != config_hash_text(b),
        key_code(key_of(repo_url, commit_hash, subfolder, analyzer_name, a)) != key_code(
            key_of(repo_url, commit_hash, subfolder, analyzer_name, b),
        ),
        cache_key_text(key_of(repo_url, commit_hash, subfolder, analyzer_name, a))
            != cache_key_text(key_of(repo_url, commit_hash, subfolder, analyzer_name, b)),
{
    law_config_code_separates(a, b);
    if config_hash_text(a) == config_hash_text(b) {
        lemma_hex_text_injective(digest(config_code(a)), digest(config_code(b)));
    }
    let ka = key_of(repo_url, commit_hash, subfolder, analyzer_name, a);
    let kb = key_of(repo_url, commit_hash, subfolder, analyzer_name, b);
    law_key_code_separates(ka, kb);
    law_cache_key_text_follows_digest(ka, kb);
}

/// One row of the index: what is known of a cached analysis without
/// reading its blob.
#[derive(Debug)]
pub struct CacheEntryMetadata {
    pub cache_key: String,
    pub repo_url: String,
    pub commit_hash: String,
    pub subfolder: Option<String>,
    pub analyzer_name: String,
    pub created_at: u64,
    pub last_accessed: u64,
    pub file_count: usize,
    pub dependency_count: usize,
    pub file_size: u64,
}

/// A row of the index as plain mathematical values.
pub struct CacheEntryView {
    pub cache_key: Seq<char>,
    pub repo_url: Seq<char>,
    pub commit_hash: Seq<char>,
    pub subfolder: Option<Seq<char>>,
    pub analyzer_name: Seq<char>,
    pub created_at: u64,
    pub last_accessed: u64,
    pub file_count: usize,
    pub dependency_count: usize,
    pub file_size: u64,
}

impl View for CacheEntryMetadata {
    type V = CacheEntryView;

    open spec fn view(&self) -> CacheEntryView {
        CacheEntryView {
            cache_key: self.cache_key@,
            repo_url: self.repo_url@,
            commit_hash: self.commit_hash@,
            subfolder: self.subfolder.deep_view(),
            analyzer_name: self.analyzer_name@,
            created_at: self.created_at,
            last_accessed: self.last_accessed,
            file_count: self.file_count,
            dependency_count: self.dependency_count,
            file_size: self.file_size,
        }
    }
}

impl DeepView for CacheEntryMetadata {
    type V = CacheEntryView;

    open spec fn deep_view(&self) -> CacheEntryView {
        self@
    }
}

impl Clone for CacheEntryMetadata {
    fn clone(&self) -> (c: Self)
        ensures
            c@ == self@,
    {
        CacheEntryMetadata {
            cache_key: self.cache_key.clone(),
            repo_url: self.repo_url.clone(),
            commit_hash: self.commit_hash.clone(),
            subfolder: match &self.subfolder {
                Some(s) => Some(s.clone()),
                None => None,
            },
            analyzer_name: self.analyzer_name.clone(),
            created_at: self.created_at,
            last_accessed: self.last_accessed,
            file_count: self.file_count,
            dependency_count: self.dependency_count,
            file_size: self.file_size,
        }
    }
}

/// A choice of rows: the one with a key, those of a repository, or those
/// last read before a moment.
pub enum RowTest {
    Key(Seq<char>),
    Repository(Seq<char>),
    AccessedBefore(int),
}

/// Whether `test` chooses `row`.
pub open spec fn selects(test: RowTest, row: CacheEntryView) -> bool {
    match test {
        RowTest::Key(k) => row.cache_key == k,
        RowTest::Repository(r) => row.repo_url == r,
        RowTest::AccessedBefore(t) => row.last_accessed < t,
    }
}

/// The rows that `test` does not choose, in order.
pub open spec fn kept(rows: Seq<CacheEntryView>, test: RowTest) -> Seq<CacheEntryView>
    decreases rows.len(),
{
    if rows.len() == 0 {
        Seq::empty()
    } else if selects(test, rows.last()) {
        kept(rows.drop_last(), test)
    } else {
        kept(rows.drop_last(), test).push(rows.last())
    }
}

/// The rows that `test` chooses, in order.
pub open spec fn taken(rows: Seq<CacheEntryView>, test: RowTest) -> Seq<CacheEntryView>
    decreases rows.len(),
{
    if rows.len() == 0 {
        Seq::empty()
    } else if selects(test, rows.last()) {
        taken(rows.drop_last(), test).push(rows.last())
    } else {
        taken(rows.drop_last(), test)
    }
}

/// Whether no two rows share a key.
pub open spec fn distinct_keys(rows: Seq<CacheEntryView>) -> bool {
    forall|i: int, j: int|
        0 <= i < j < rows.len() ==> (#[trigger] rows[i]).cache_key != (#[trigger] rows[j]).cache_key
}

/// Whether a row has the key `key`.
pub open spec fn has_key(rows: Seq<CacheEntryView>, key: Seq<char>) -> bool {
    exists|i: int| 0 <= i < rows.len() && (#[trigger] rows[i]).cache_key == key
}

/// The rows with the row of `key` marked as read at `now`.
pub open spec fn touched(rows: Seq<CacheEntryView>, key: Seq<char>, now: u64) -> Seq<
    CacheEntryView,
> {
    Seq::new(
        rows.len(),
        |i: int|
            if rows[i].cache_key == key {
                CacheEntryView { last_accessed: now, ..rows[i] }
            } else {
                rows[i]
            },
    )
}

/// The rows with `row` in place of whatever row had its key.
pub open spec fn with_row(rows: Seq<CacheEntryView>, row: CacheEntryView) -> Seq<CacheEntryView> {
    kept(rows, RowTest::Key(row.cache_key)).push(row)
}

/// The index that holds `rows`, written one after the other: a later row
/// replaces an earlier one with its key.
pub open spec fn restored(rows: Seq<CacheEntryView>) -> Seq<CacheEntryView>
    decreases rows.len(),
{
    if rows.len() == 0 {
        Seq::empty()
    } else {
        with_row(restored(rows.drop_last()), rows.last())
    }
}

/// The rows that are kept are rows that were there and are not chosen, and
/// every row that was there and is not chosen is kept; keys stay distinct.
pub proof fn lemma_kept(rows: Seq<CacheEntryView>, test: RowTest)
    ensures
        kept(rows, test).len() + taken(rows, test).len() == rows.len(),
        forall|i: int|
            0 <= i < kept(rows, test).len() ==> !selects(test, #[trigger] kept(rows, test)[i])
                && rows.contains(kept(rows, test)[i]),
        forall|i: int|
            0 <= i < taken(rows, test).len() ==> selects(test, #[trigger] taken(rows, test)[i])
                && rows.contains(taken(rows, test)[i]),
        forall|i: int|
            0 <= i < rows.len() && !selects(test, #[trigger] rows[i]) ==> kept(
                rows,
                test,
            ).contains(rows[i]),
        forall|i: int|
            0 <= i < rows.len() && selects(test, #[trigger] rows[i]) ==> taken(
                rows,
                test,
            ).contains(rows[i]),
        distinct_keys(rows) ==> distinct_keys(kept(rows, test)),
    decreases rows.len(),
{
    if rows.len() > 0 {
        let rest = rows.drop_last();
        let last = rows.last();
        lemma_kept(rest, test);
        let k = kept(rows, test);
        let t = taken(rows, test);
        let kr = kept(rest, test);
        let tr = taken(rest, test);
        assert forall|i: int| 0 <= i < k.len() implies !selects(test, #[trigger] k[i])
            && rows.contains(k[i]) by {
            if i < kr.len() {
                assert(k[i] == kr[i]);
                let w = choose|w: int| 0 <= w < rest.len() && rest[w] == kr[i];
                assert(rows[w] == k[i]);
            } else {
                assert(rows[rows.len() - 1] == k[i]);
            }
        }
        assert forall|i: int| 0 <= i < t.len() implies selects(test, #[trigger] t[i])
            && rows.contains(t[i]) by {
            if i < tr.len() {
                assert(t[i] == tr[i]);
                let w = choose|w: int| 0 <= w < rest.len() && rest[w] == tr[i];
                assert(rows[w] == t[i]);
            } else {
                assert(rows[rows.len() - 1] == t[i]);
            }
        }
        assert forall|i: int| 0 <= i < rows.len() && !selects(test, #[trigger] rows[i]) implies k.contains(
            rows[i],
        ) by {
            if i < rest.len() {
                assert(rest[i] == rows[i]);
                let w = choose|w: int| 0 <= w < kr.len() && kr[w] == rest[i];
                assert(k[w] == rows[i]);
            } else {
                assert(k[k.len() - 1] == rows[i]);
            }
        }
        assert forall|i: int| 0 <= i < rows.len() && selects(test, #[trigger] rows[i]) implies t.contains(
            rows[i],
        ) by {
            if i < rest.len() {
                assert(rest[i] == rows[i]);
                let w = choose|w: int| 0 <= w < tr.len() && tr[w] == rest[i];
                assert(t[w] == rows[i]);
            } else {
                assert(t[t.len() - 1] == rows[i]);
            }
        }
        if distinct_keys(rows) {
            assert(distinct_keys(rest)) by {
                assert forall|i: int, j: int| 0 <= i < j < rest.len() implies (#[trigger] rest[i]).cache_key
                    != (#[trigger] rest[j]).cache_key by {
                    assert(rest[i] == rows[i] && rest[j] == rows[j]);
                }
            }
            assert forall|i: int, j: int| 0 <= i < j < k.len() implies (#[trigger] k[i]).cache_key
                != (#[trigger] k[j]).cache_key by {
                if j < kr.len() {
                    assert(k[i] == kr[i] && k[j] == kr[j]);
                } else {
                    assert(k[i] == kr[i]);
                    let w = choose|w: int| 0 <= w < rest.len() && rest[w] == kr[i];
                    assert(rows[w] == k[i]);
                    assert(rows[rows.len() - 1] == k[j]);
                }
            }
        }
    }
}

/// No row that is kept after a choice by key has that key.
pub proof fn lemma_kept_by_key(rows: Seq<CacheEntryView>, key: Seq<char>)
    ensures
        !has_key(kept(rows, RowTest::Key(key)), key),
        forall|other: Seq<char>|
            other != key ==> (has_key(kept(rows, RowTest::Key(key)), other) <==> has_key(
                rows,
                other,
            )),
{
    lemma_kept(rows, RowTest::Key(key));
    let k = kept(rows, RowTest::Key(key));
    assert forall|other: Seq<char>| other != key implies (has_key(k, other) <==> has_key(
        rows,
        other,
    )) by {
        if has_key(k, other) {
            let i = choose|i: int| 0 <= i < k.len() && (#[trigger] k[i]).cache_key == other;
            let w = choose|w: int| 0 <= w < rows.len() && rows[w] == k[i];
            assert(rows[w].cache_key == other);
        }
        if has_key(rows, other) {
            let i = choose|i: int| 0 <= i < rows.len() && (#[trigger] rows[i]).cache_key == other;
            assert(!selects(RowTest::Key(key), rows[i]));
            let w = choose|w: int| 0 <= w < k.len() && k[w] == rows[i];
            assert(k[w].cache_key == other);
        }
    }
}

/// Writing a row keeps the keys distinct and leaves the row findable.
pub proof fn lemma_with_row(rows: Seq<CacheEntryView>, row: CacheEntryView)
    requires
        distinct_keys(rows),
    ensures
        distinct_keys(with_row(rows, row)),
        has_key(with_row(rows, row), row.cache_key),
        with_row(rows, row).last() == row,
{
    lemma_kept(rows, RowTest::Key(row.cache_key));
    let k = kept(rows, RowTest::Key(row.cache_key));
    let w = with_row(rows, row);
    assert(w[k.len() as int].cache_key == row.cache_key);
    assert forall|i: int, j: int| 0 <= i < j < w.len() implies (#[trigger] w[i]).cache_key != (
    #[trigger] w[j]).cache_key by {
        if j < k.len() {
            assert(w[i] == k[i] && w[j] == k[j]);
        } else {
            assert(w[i] == k[i]);
            assert(!selects(RowTest::Key(row.cache_key), k[i]));
        }
    }
}

/// The sum of the blob sizes of `rows`.
pub open spec fn total_size(rows: Seq<CacheEntryView>) -> nat
    decreases rows.len(),
{
    if rows.len() == 0 {
        0
    } else {
        total_size(rows.drop_last()) + rows.last().file_size as nat
    }
}

/// The repositories of `rows`, in order.
pub open spec fn repositories_of(rows: Seq<CacheEntryView>) -> Seq<Seq<char>> {
    Seq::new(rows.len(), |i: int| rows[i].repo_url)
}

/// The sizes of a prefix of the rows sum to no more than those of all.
pub proof fn lemma_total_size_monotone(rows: Seq<CacheEntryView>, i: int)
    requires
        0 <= i <= rows.len(),
    ensures
        total_size(rows.take(i)) <= total_size(rows),
    decreases rows.len() - i,
{
    if i < rows.len() {
        lemma_total_size_monotone(rows, i + 1);
        assert(rows.take(i + 1).drop_last() =~= rows.take(i));
    } else {
        assert(rows.take(i) =~= rows);
    }
}

/// What was found in the place of an entry's blob.
#[derive(Debug)]
pub enum BlobProbe {
    /// There is no file.
    Missing,
    /// There is a file, and it cannot be read or does not hold a result.
    Unreadable,
    /// The file holds this result.
    Loaded(AnalysisResult),
}

/// What a read did to the index, for whoever keeps the index on disk.
#[derive(Debug)]
pub enum IndexChange {
    /// Nothing.
    Unchanged,
    /// The row was marked as read.
    Touched { cache_key: String, last_accessed: u64 },
    /// The row was deleted because its blob is missing.
    RowDeleted { cache_key: String },
    /// The row was deleted because its blob is unreadable; the blob goes too.
    EntryRemoved { cache_key: String, blob_path: String },
}

/// What a read returns.
#[derive(Debug)]
pub struct CacheRead {
    pub result: Option<AnalysisResult>,
    pub change: IndexChange,
}

/// Aggregate figures of the index.
#[derive(Debug)]
pub struct CacheStatistics {
    pub total_entries: usize,
    pub total_size_bytes: u64,
    pub hit_count: u64,
    pub miss_count: u64,
    /// How many entries each repository has.
    pub repositories: Vec<KeyCount>,
}

/// Why a cache operation gave no answer.
#[derive(Debug, Clone, Copy, PartialEq, Eq, Structural)]
pub enum CacheError {
    /// The blob sizes sum to more than 64 bits hold.
    SizeOverflow,
}

/// Seconds in a day.
pub const SECONDS_PER_DAY: u64 = 86400;

/// The rows after a read of `key` that found `blob`: a row whose blob holds
/// a result is marked as read, a row without a readable blob is deleted.
pub open spec fn rows_after_read(
    rows: Seq<CacheEntryView>,
    key: Seq<char>,
    blob: BlobProbe,
    now: u64,
) -> Seq<CacheEntryView> {
    if !has_key(rows, key) {
        rows
    } else if blob is Loaded {
        touched(rows, key, now)
    } else {
        kept(rows, RowTest::Key(key))
    }
}

/// What a read of `key` that found `blob` returns: the result in the blob
/// where the index has a row for the key, nothing otherwise.
pub open spec fn result_of_read(rows: Seq<CacheEntryView>, key: Seq<char>, blob: BlobProbe) -> Option<
    AnalysisResult,
> {
    match blob {
        BlobProbe::Loaded(r) => if has_key(rows, key) {
            Some(r)
        } else {
            None
        },
        _ => None,
    }
}

/// Whether `change` says what a read of `key` that found `blob` did to the
/// index of the cache below `dir`: nothing without a row; with a row, that
/// it was marked as read at `now`, deleted for its missing blob, or deleted
/// together with its unreadable blob.
pub open spec fn is_change_of(
    change: IndexChange,
    rows: Seq<CacheEntryView>,
    dir: Seq<char>,
    key: Seq<char>,
    blob: BlobProbe,
    now: u64,
) -> bool {
    if !has_key(rows, key) {
        change is Unchanged
    } else {
        match blob {
            BlobProbe::Loaded(_) => change matches IndexChange::Touched { cache_key, last_accessed }
                && cache_key@ == key && last_accessed == now,
            BlobProbe::Missing => change matches IndexChange::RowDeleted { cache_key }
                && cache_key@ == key,
            BlobProbe::Unreadable => change matches IndexChange::EntryRemoved {
                cache_key,
                blob_path: path,
            } && cache_key@ == key && path@ == blob_path(dir, key),
        }
    }
}

/// The file that holds the blob of `key` below `dir`.
pub open spec fn blob_path(dir: Seq<char>, key: Seq<char>) -> Seq<char> {
    dir + "/analysis/"@ + key + ".bincode"@
}

/// The row that a write of `result` under `key` at `now` puts in the index.
pub open spec fn row_for(
    key: AnalysisCacheKeyView,
    result: AnalysisResult,
    file_size: u64,
    now: u64,
) -> CacheEntryView {
    CacheEntryView {
        cache_key: cache_key_text(key),
        repo_url: key.repo_url,
        commit_hash: key.commit_hash,
        subfolder: key.subfolder,
        analyzer_name: key.analyzer_name,
        created_at: now,
        last_accessed: now,
        file_count: result.analyzed_files.len(),
        dependency_count: result.dependencies.len(),
        file_size,
    }
}

/// The moment before which an entry is too old at `now`, for a window of
/// `max_age_days` days.
pub open spec fn cutoff(now: u64, max_age_days: u64) -> int {
    now - max_age_days * SECONDS_PER_DAY
}

/// The blob paths of `rows` below `dir`, in order.
pub open spec fn blob_paths(dir: Seq<char>, rows: Seq<CacheEntryView>) -> Seq<Seq<char>> {
    Seq::new(rows.len(), |i: int| blob_path(dir, rows[i].cache_key))
}

enum Eviction<'a> {
    Key(&'a str),
    Repository(&'a str),
    AccessedBefore(u64),
}

impl<'a> Eviction<'a> {
    spec fn test(&self) -> RowTest {
        match self {
            Eviction::Key(k) => RowTest::Key(k@),
            Eviction::Repository(r) => RowTest::Repository(r@),
            Eviction::AccessedBefore(t) => RowTest::AccessedBefore(*t as int),
        }
    }

    fn chooses(&self, row: &CacheEntryMetadata) -> (r: bool)
        ensures
            r == selects(self.test(), row@),
    {
        match self {
            Eviction::Key(k) => same_text(row.cache_key.as_str(), k),
            Eviction::Repository(r) => same_text(row.repo_url.as_str(), r),
            Eviction::AccessedBefore(t) => row.last_accessed < *t,
        }
    }
}

/// The index of cached analyses below one directory. Blobs and the index's
/// own file are kept by the caller; every operation says what it changed.
#[derive(Debug)]
pub struct AnalysisCache {
    cache_dir: String,
    entries: Vec<CacheEntryMetadata>,
}

impl View for AnalysisCache {
    type V = Seq<CacheEntryView>;

    closed spec fn view(&self) -> Seq<CacheEntryView> {
        self.entries.deep_view()
    }
}

impl AnalysisCache {
    /// The directory of the cache.
    pub closed spec fn dir(&self) -> Seq<char> {
        self.cache_dir@
    }

    /// No two rows share a key.
    pub open spec fn wf(&self) -> bool {
        distinct_keys(self@)
    }

    /// An empty index for the cache below `cache_dir`.
    pub fn new(cache_dir: String) -> (cache: Self)
        ensures
            cache.wf(),
            cache.dir() == cache_dir@,
            cache@.len() == 0,
    {
        AnalysisCache { cache_dir, entries: Vec::new() }
    }

    /// The index that holds `rows`, a later row replacing an earlier one
    /// with its key.
    pub fn restore(cache_dir: String, rows: Vec<CacheEntryMetadata>) -> (cache: Self)
        ensures
            cache.wf(),
            cache.dir() == cache_dir@,
            cache@ == restored(rows.deep_view()),
            forall|k: Seq<char>| has_key(cache@, k) <==> has_key(rows.deep_view(), k),
            distinct_keys(rows.deep_view()) ==> cache@ == rows.deep_view(),
    {
        let mut cache = AnalysisCache { cache_dir, entries: Vec::new() };
        let ghost all = rows.deep_view();
        let mut i: usize = 0;
        assert(all.take(0) =~= Seq::<CacheEntryView>::empty());
        while i < rows.len()
            invariant
                i <= rows.len(),
                all == rows.deep_view(),
                cache.wf(),
                cache.dir() == cache_dir@,
                cache@ == restored(all.take(i as int)),
                forall|k: Seq<char>| has_key(cache@, k) <==> has_key(all.take(i as int), k),
                distinct_keys(all) ==> cache@ == all.take(i as int),
            decreases rows.len() - i,
        {
            let ghost before = cache@;
            let ghost row = all[i as int];
            assert(row == rows@[i as int]@);
            assert(forall|k: Seq<char>| has_key(before, k) <==> has_key(all.take(i as int), k));
            cache.store(rows[i].clone());
            proof {
                lemma_kept_by_key(before, row.cache_key);
                lemma_with_row(before, row);
                let prefix = all.take(i as int);
                let next = all.take(i + 1);
                assert(next =~= prefix.push(row));
                assert(next.drop_last() =~= prefix);
                assert(next.last() == row);
                assert forall|k: Seq<char>| has_key(cache@, k) <==> has_key(next, k) by {
                    let kb = kept(before, RowTest::Key(row.cache_key));
                    if has_key(cache@, k) {
                        let w = choose|w: int|
                            0 <= w < cache@.len() && (#[trigger] cache@[w]).cache_key == k;
                        if w < kb.len() {
                            assert(cache@[w] == kb[w]);
                            assert(has_key(kb, k));
                            assert(k != row.cache_key);
                            assert(has_key(before, k));
                            assert(has_key(prefix, k));
                            let v = choose|v: int|
                                0 <= v < prefix.len() && (#[trigger] prefix[v]).cache_key == k;
                            assert(next[v].cache_key == k);
                        } else {
                            assert(next[i as int].cache_key == k);
                        }
                    }
                    if has_key(next, k) {
                        let v = choose|v: int|
                            0 <= v < next.len() && (#[trigger] next[v]).cache_key == k;
                        if k == row.cache_key {
                        } else {
                            assert(prefix[v].cache_key == k);
                            assert(has_key(before, k));
                            assert(has_key(kb, k));
                            let w = choose|w: int|
                                0 <= w < kb.len() && (#[trigger] kb[w]).cache_key == k;
                            assert(cache@[w].cache_key == k);
                        }
                    }
                }
                if distinct_keys(all) {
                    assert(!has_key(prefix, row.cache_key)) by {
                        if has_key(prefix, row.cache_key) {
                            let v = choose|v: int|
                                0 <= v < prefix.len() && (#[trigger] prefix[v]).cache_key
                                    == row.cache_key;
                            assert(all[v].cache_key == all[i as int].cache_key);
                        }
                    }
                    lemma_kept_nothing(before, RowTest::Key(row.cache_key));
                }
            }
            i = i + 1;
        }
        assert(all.take(rows.len() as int) =~= all);
        cache
    }

    /// Replaces the rows of the index by `rows`, as they were read from the
    /// index file: a later row replaces an earlier one with its key. What
    /// another process wrote to the file is known to the index from then on.
    pub fn reload(&mut self, rows: Vec<CacheEntryMetadata>)
        ensures
            final(self).wf(),
            final(self).dir() == old(self).dir(),
            final(self)@ == restored(rows.deep_view()),
            forall|k: Seq<char>| has_key(final(self)@, k) <==> has_key(rows.deep_view(), k),
            distinct_keys(rows.deep_view()) ==> final(self)@ == rows.deep_view(),
    {
        let fresh = AnalysisCache::restore(self.cache_dir.clone(), rows);
        self.entries = fresh.entries;
    }

    /// The rows of the index, in order.
    pub fn entries(&self) -> (rows: &Vec<CacheEntryMetadata>)
        ensures
            rows.deep_view() == self@,
    {
        &self.entries
    }

    /// The directory of the cache.
    pub fn cache_dir(&self) -> (dir: &String)
        ensures
            dir@ == self.dir(),
    {
        &self.cache_dir
    }

    /// The file that holds the index below the cache directory.
    pub fn database_path(&self) -> (path: String)
        ensures
            path@ == self.dir() + "/chronograph.db"@,
    {
        let mut out = chars_of(self.cache_dir.as_str());
        push_str(&mut out, "/chronograph.db");
        string_of(&out)
    }

    /// The directory that holds the blobs.
    pub fn blob_directory(&self) -> (path: String)
        ensures
            path@ == self.dir() + "/analysis"@,
    {
        let mut out = chars_of(self.cache_dir.as_str());
        push_str(&mut out, "/analysis");
        string_of(&out)
    }

    /// The file that holds the blob of `cache_key`.
    pub fn get_cache_file_path(&self, cache_key: &str) -> (path: String)
        ensures
            path@ == blob_path(self.dir(), cache_key@),
    {
        let mut out = chars_of(self.cache_dir.as_str());
        push_str(&mut out, "/analysis/");
        push_str(&mut out, cache_key);
        push_str(&mut out, ".bincode");
        string_of(&out)
    }

    fn position(&self, cache_key: &str) -> (r: Option<usize>)
        ensures
            match r {
                Some(i) => i < self@.len() && self@[i as int].cache_key == cache_key@,
                None => !has_key(self@, cache_key@),
            },
    {
        let mut i: usize = 0;
        while i < self.entries.len()
            invariant
                i <= self.entries.len(),
                forall|j: int| 0 <= j < i ==> (#[trigger] self@[j]).cache_key != cache_key@,
            decreases self.entries.len() - i,
        {
            if same_text(self.entries[i].cache_key.as_str(), cache_key) {
                assert(self@[i as int] == self.entries@[i as int]@);
                return Some(i);
            }
            i = i + 1;
        }
        None
    }

    /// Whether the index has a row for `key`.
    pub fn contains(&self, key: &AnalysisCacheKey) -> (r: bool)
        ensures
            r == has_key(self@, cache_key_text(key@)),
    {
        let cache_key = key.to_cache_key();
        self.position(cache_key.as_str()).is_some()
    }

    fn evict(&mut self, choice: &Eviction) -> (removed: Vec<CacheEntryMetadata>)
        ensures
            final(self)@ == kept(old(self)@, choice.test()),
            removed.deep_view() == taken(old(self)@, choice.test()),
            final(self).dir() == old(self).dir(),
    {
        let ghost all = self@;
        let mut stay: Vec<CacheEntryMetadata> = Vec::new();
        let mut gone: Vec<CacheEntryMetadata> = Vec::new();
        let mut i: usize = 0;
        assert(all.take(0) =~= Seq::<CacheEntryView>::empty());
        while i < self.entries.len()
            invariant
                i <= self.entries.len(),
                all == self@,
                self.dir() == old(self).dir(),
                stay.deep_view() == kept(all.take(i as int), choice.test()),
                gone.deep_view() == taken(all.take(i as int), choice.test()),
            decreases self.entries.len() - i,
        {
            let ghost s0 = stay.deep_view();
            let ghost g0 = gone.deep_view();
            proof {
                assert(all.take(i + 1).drop_last() =~= all.take(i as int));
                assert(all.take(i + 1).last() == all[i as int]);
                assert(all[i as int] == self.entries@[i as int]@);
            }
            if choice.chooses(&self.entries[i]) {
                gone.push(self.entries[i].clone());
                assert(gone.deep_view() =~= g0.push(all[i as int]));
            } else {
                stay.push(self.entries[i].clone());
                assert(stay.deep_view() =~= s0.push(all[i as int]));
            }
            i = i + 1;
        }
        assert(all.take(self.entries.len() as int) =~= all);
        self.entries = stay;
        gone
    }

    fn store(&mut self, row: CacheEntryMetadata)
        requires
            old(self).wf(),
        ensures
            final(self).wf(),
            final(self)@ == with_row(old(self)@, row@),
            final(self).dir() == old(self).dir(),
    {
        let ghost before = self@;
        let _ = self.evict(&Eviction::Key(row.cache_key.as_str()));
        let ghost mid = self@;
        self.entries.push(row);
        assert(self@ =~= mid.push(row@));
        proof {
            lemma_with_row(before, row@);
        }
    }

    /// Reads the entry of `key`, given what was found in the place of its
    /// blob. A row whose blob holds a result is marked as read at `now` and
    /// the result is returned; a row whose blob is missing or unreadable is
    /// deleted and nothing is returned; without a row nothing happens.
    pub fn get(&mut self, key: &AnalysisCacheKey, blob: BlobProbe, now: u64) -> (out: CacheRead)
        requires
            old(self).wf(),
        ensures
            final(self).wf(),
            final(self).dir() == old(self).dir(),
            final(self)@ == rows_after_read(old(self)@, cache_key_text(key@), blob, now),
            out.result == result_of_read(old(self)@, cache_key_text(key@), blob),
            is_change_of(
                out.change,
                old(self)@,
                old(self).dir(),
                cache_key_text(key@),
                blob,
                now,
            ),
    {
        let cache_key = key.to_cache_key();
        let ghost before = self@;
        match self.position(cache_key.as_str()) {
            None => CacheRead { result: None, change: IndexChange::Unchanged },
            Some(at) => {
                assert(has_key(before, cache_key@));
                match blob {
                    BlobProbe::Loaded(result) => {
                        self.touch(cache_key.as_str(), now);
                        CacheRead {
                            result: Some(result),
                            change: IndexChange::Touched { cache_key, last_accessed: now },
                        }
                    },
                    BlobProbe::Missing => {
                        let _ = self.evict(&Eviction::Key(cache_key.as_str()));
                        proof {
                            lemma_kept(before, RowTest::Key(cache_key@));
                        }
                        CacheRead { result: None, change: IndexChange::RowDeleted { cache_key } }
                    },
                    BlobProbe::Unreadable => {
                        let _ = self.evict(&Eviction::Key(cache_key.as_str()));
                        proof {
                            lemma_kept(before, RowTest::Key(cache_key@));
                        }
                        let blob_path = self.get_cache_file_path(cache_key.as_str());
                        CacheRead {
                            result: None,
                            change: IndexChange::EntryRemoved { cache_key, blob_path },
                        }
                    },
                }
            },
        }
    }

    fn touch(&mut self, cache_key: &str, now: u64)
        requires
            old(self).wf(),
        ensures
            final(self).wf(),
            final(self).dir() == old(self).dir(),
            final(self)@ == touched(old(self)@, cache_key@, now),
    {
        let ghost before = self@;
        let mut i: usize = 0;
        while i < self.entries.len()
            invariant
                i <= self.entries.len(),
                self.dir() == old(self).dir(),
                self@.len() == before.len(),
                forall|j: int| 0 <= j < i ==> self@[j] == touched(before, cache_key@, now)[j],
                forall|j: int| i <= j < before.len() ==> self@[j] == before[j],
            decreases self.entries.len() - i,
        {
            let ghost current = self@;
            assert(current[i as int] == self.entries@[i as int]@);
            if same_text(self.entries[i].cache_key.as_str(), cache_key) {
                let mut row = self.entries[i].clone();
                row.last_accessed = now;
                self.entries.set(i, row);
                assert(self@ =~= current.update(i as int, row@));
            }
            i = i + 1;
        }
        assert(self@ =~= touched(before, cache_key@, now));
        assert forall|a: int, b: int| 0 <= a < b < self@.len() implies (#[trigger] self@[a]).cache_key
            != (#[trigger] self@[b]).cache_key by {
            assert(self@[a].cache_key == before[a].cache_key);
            assert(self@[b].cache_key == before[b].cache_key);
        }
    }

    /// Writes the row of `result` under `key`: a row with this key is
    /// replaced, created and read at `now`, with the counts of the result and
    /// the size of its blob. Writing twice leaves what writing once leaves.
    pub fn put(
        &mut self,
        key: &AnalysisCacheKey,
        result: &AnalysisResult,
        file_size: u64,
        now: u64,
    ) -> (row: CacheEntryMetadata)
        requires
            old(self).wf(),
        ensures
            final(self).wf(),
            final(self).dir() == old(self).dir(),
            row@ == row_for(key@, *result, file_size, now),
            final(self)@ == with_row(old(self)@, row@),
    {
        let row = CacheEntryMetadata {
            cache_key: key.to_cache_key(),
            repo_url: key.repo_url.clone(),
            commit_hash: key.commit_hash.clone(),
            subfolder: match &key.subfolder {
                Some(s) => Some(s.clone()),
                None => None,
            },
            analyzer_name: key.analyzer_name.clone(),
            created_at: now,
            last_accessed: now,
            file_count: result.analyzed_files.len(),
            dependency_count: result.dependencies.len(),
            file_size,
        };
        self.store(row.clone());
        row
    }

    fn paths_of(&self, rows: &Vec<CacheEntryMetadata>) -> (paths: Vec<String>)
        ensures
            paths.deep_view() == blob_paths(self.dir(), rows.deep_view()),
    {
        let mut paths: Vec<String> = Vec::new();
        let mut i: usize = 0;
        while i < rows.len()
            invariant
                i <= rows.len(),
                paths.len() == i,
                forall|j: int|
                    0 <= j < i ==> paths@[j]@ == blob_path(self.dir(), rows.deep_view()[j].cache_key),
            decreases rows.len() - i,
        {
            assert(rows.deep_view()[i as int] == rows@[i as int]@);
            paths.push(self.get_cache_file_path(rows[i].cache_key.as_str()));
            i = i + 1;
        }
        assert(paths.deep_view() =~= blob_paths(self.dir(), rows.deep_view()));
        paths
    }

    /// Deletes every row of the repository `repo_url` and returns the blob
    /// paths of the deleted rows, in the order of the index.
    pub fn remove_repository(&mut self, repo_url: &str) -> (removed: Vec<String>)
        requires
            old(self).wf(),
        ensures
            final(self).wf(),
            final(self).dir() == old(self).dir(),
            final(self)@ == kept(old(self)@, RowTest::Repository(repo_url@)),
            removed.deep_view() == blob_paths(
                old(self).dir(),
                taken(old(self)@, RowTest::Repository(repo_url@)),
            ),
    {
        proof {
            lemma_kept(self@, RowTest::Repository(repo_url@));
        }
        let gone = self.evict(&Eviction::Repository(repo_url));
        self.paths_of(&gone)
    }

    /// Deletes every row that was last read more than `max_age_days` days
    /// before `now` and returns the blob paths of the deleted rows, in the
    /// order of the index; their number is the number of entries removed.
    pub fn cleanup_old_entries(&mut self, max_age_days: u64, now: u64) -> (removed: Vec<String>)
        requires
            old(self).wf(),
        ensures
            final(self).wf(),
            final(self).dir() == old(self).dir(),
            final(self)@ == kept(old(self)@, RowTest::AccessedBefore(cutoff(now, max_age_days))),
            removed.deep_view() == blob_paths(
                old(self).dir(),
                taken(old(self)@, RowTest::AccessedBefore(cutoff(now, max_age_days))),
            ),
    {
        let ghost before = self@;
        let ghost exact = RowTest::AccessedBefore(cutoff(now, max_age_days));
        proof {
            lemma_kept(before, exact);
        }
        let limit: u64 = match max_age_days.checked_mul(SECONDS_PER_DAY) {
            Some(window) => if window <= now {
                now - window
            } else {
                0
            },
            None => 0,
        };
        proof {
            lemma_same_choice(before, exact, RowTest::AccessedBefore(limit as int));
        }
        let gone = self.evict(&Eviction::AccessedBefore(limit));
        self.paths_of(&gone)
    }

    /// The number of entries, the sum of their blob sizes, and how many
    /// entries each repository has. There is no answer where the sizes sum
    /// to more than 64 bits hold.
    pub fn get_statistics(&self) -> (r: Result<CacheStatistics, CacheError>)
        ensures
            r is Ok <==> total_size(self@) <= u64::MAX,
            r matches Ok(stats) ==> {
                &&& stats.total_entries == self@.len()
                &&& stats.total_size_bytes == total_size(self@)
                &&& stats.hit_count == 0
                &&& stats.miss_count == 0
                &&& is_tally(repositories_of(self@), stats.repositories@)
                &&& total_count(stats.repositories@) == self@.len()
            },
    {
        let ghost all = self@;
        let mut total: u64 = 0;
        let mut repos: Vec<String> = Vec::new();
        let mut i: usize = 0;
        assert(all.take(0) =~= Seq::<CacheEntryView>::empty());
        while i < self.entries.len()
            invariant
                i <= self.entries.len(),
                all == self@,
                total == total_size(all.take(i as int)),
                repos.len() == i,
                forall|j: int| 0 <= j < i ==> repos@[j]@ == all[j].repo_url,
            decreases self.entries.len() - i,
        {
            proof {
                assert(all.take(i + 1).drop_last() =~= all.take(i as int));
                assert(all.take(i + 1).last() == all[i as int]);
                assert(all[i as int] == self.entries@[i as int]@);
                lemma_total_size_monotone(all, i + 1);
            }
            match total.checked_add(self.entries[i].file_size) {
                Some(sum) => {
                    total = sum;
                },
                None => {
                    return Err(CacheError::SizeOverflow);
                },
            }
            repos.push(self.entries[i].repo_url.clone());
            i = i + 1;
        }
        assert(all.take(self.entries.len() as int) =~= all);
        assert(repos.deep_view() =~= repositories_of(all));
        let repositories = tally(&repos);
        Ok(
            CacheStatistics {
                total_entries: self.entries.len(),
                total_size_bytes: total,
                hit_count: 0,
                miss_count: 0,
                repositories,
            },
        )
    }

    /// Deletes every row and returns how many there were.
    pub fn clear_all(&mut self) -> (removed: usize)
        requires
            old(self).wf(),
        ensures
            final(self).wf(),
            final(self).dir() == old(self).dir(),
            final(self)@.len() == 0,
            removed == old(self)@.len(),
    {
        let removed = self.entries.len();
        self.entries = Vec::new();
        removed
    }
}

/// Where a choice takes no row, every row is kept.
pub proof fn lemma_kept_nothing(rows: Seq<CacheEntryView>, test: RowTest)
    requires
        forall|i: int| 0 <= i < rows.len() ==> !selects(test, #[trigger] rows[i]),
    ensures
        kept(rows, test) == rows,
        taken(rows, test).len() == 0,
    decreases rows.len(),
{
    if rows.len() > 0 {
        let rest = rows.drop_last();
        assert forall|i: int| 0 <= i < rest.len() implies !selects(test, #[trigger] rest[i]) by {
            assert(rest[i] == rows[i]);
        }
        lemma_kept_nothing(rest, test);
        assert(rows[rows.len() - 1] == rows.last());
        assert(kept(rows, test) =~= rows);
    } else {
        assert(kept(rows, test) =~= rows);
    }
}

/// Two choices that choose the same rows keep and take the same rows.
pub proof fn lemma_same_choice(rows: Seq<CacheEntryView>, a: RowTest, b: RowTest)
    requires
        forall|i: int| 0 <= i < rows.len() ==> selects(a, #[trigger] rows[i]) == selects(b, rows[i]),
    ensures
        kept(rows, a) == kept(rows, b),
        taken(rows, a) == taken(rows, b),
    decreases rows.len(),
{
    if rows.len() > 0 {
        let rest = rows.drop_last();
        assert forall|i: int| 0 <= i < rest.len() implies selects(a, #[trigger] rest[i])
            == selects(b, rest[i]) by {
            assert(rest[i] == rows[i]);
        }
        lemma_same_choice(rest, a, b);
        assert(rows[rows.len() - 1] == rows.last());
    }
}

/// What the blob directory holds under one key.
pub enum StoredBlob {
    /// Bytes that cannot be read back as a result.
    Unreadable,
    /// The bytes of this result.
    Holds(AnalysisResult),
}

/// What a look at the blob of `key` finds in a blob directory that holds
/// `blobs`.
pub open spec fn probe(blobs: Map<Seq<char>, StoredBlob>, key: Seq<char>) -> BlobProbe {
    if !blobs.contains_key(key) {
        BlobProbe::Missing
    } else {
        match blobs[key] {
            StoredBlob::Unreadable => BlobProbe::Unreadable,
            StoredBlob::Holds(r) => BlobProbe::Loaded(r),
        }
    }
}

/// A row of `rows` with the key `key`.
pub open spec fn row_of(rows: Seq<CacheEntryView>, key: Seq<char>) -> CacheEntryView {
    rows[choose|i: int| 0 <= i < rows.len() && (#[trigger] rows[i]).cache_key == key]
}

/// Reading a key after writing a result under it returns that very result,
/// and so the same dependencies, analyzer name and files; the row of the key
/// holds the counts of the result and the moment of the read.
pub proof fn law_put_then_get_returns_the_result(
    rows: Seq<CacheEntryView>,
    blobs: Map<Seq<char>, StoredBlob>,
    key: AnalysisCacheKeyView,
    result: AnalysisResult,
    file_size: u64,
    written_at: u64,
    read_at: u64,
)
    requires
        distinct_keys(rows),
    ensures
        ({
            let k = cache_key_text(key);
            let rows1 = with_row(rows, row_for(key, result, file_size, written_at));
            let blobs1 = blobs.insert(k, StoredBlob::Holds(result));
            let rows2 = rows_after_read(rows1, k, probe(blobs1, k), read_at);
            &&& result_of_read(rows1, k, probe(blobs1, k)) == Some(result)
            &&& distinct_keys(rows2)
            &&& has_key(rows2, k)
            &&& row_of(rows2, k).dependency_count == result.dependencies@.len()
            &&& row_of(rows2, k).file_count == result.analyzed_files@.len()
            &&& row_of(rows2, k).last_accessed == read_at
            &&& row_of(rows2, k).created_at == written_at
        }),
{
    let k = cache_key_text(key);
    let row = row_for(key, result, file_size, written_at);
    let rows1 = with_row(rows, row);
    let blobs1 = blobs.insert(k, StoredBlob::Holds(result));
    lemma_with_row(rows, row);
    let rows2 = rows_after_read(rows1, k, probe(blobs1, k), read_at);
    assert(rows2 == touched(rows1, k, read_at));
    let at = rows1.len() - 1;
    assert(rows1[at] == row);
    assert(rows2[at].cache_key == k);
    assert forall|i: int, j: int| 0 <= i < j < rows2.len() implies (#[trigger] rows2[i]).cache_key
        != (#[trigger] rows2[j]).cache_key by {
        assert(rows2[i].cache_key == rows1[i].cache_key);
        assert(rows2[j].cache_key == rows1[j].cache_key);
    }
    let found = choose|i: int| 0 <= i < rows2.len() && (#[trigger] rows2[i]).cache_key == k;
    if found != at {
        if found < at {
            assert(rows2[found].cache_key != rows2[at].cache_key);
        } else {
            assert(rows2[at].cache_key != rows2[found].cache_key);
        }
    }
    assert(row_of(rows2, k) == rows2[at]);
    assert(rows2[at].dependency_count == result.dependencies.len());
    assert(rows2[at].file_count == result.analyzed_files.len());
}

/// Reading a key whose blob was overwritten with bytes that hold no result
/// returns nothing and leaves no row of that key in the index.
pub proof fn law_corrupted_blob_is_evicted(
    rows: Seq<CacheEntryView>,
    blobs: Map<Seq<char>, StoredBlob>,
    key: AnalysisCacheKeyView,
    result: AnalysisResult,
    file_size: u64,
    written_at: u64,
    read_at: u64,
)
    requires
        distinct_keys(rows),
    ensures
        ({
            let k = cache_key_text(key);
            let rows1 = with_row(rows, row_for(key, result, file_size, written_at));
            let blobs1 = blobs.insert(k, StoredBlob::Holds(result)).insert(
                k,
                StoredBlob::Unreadable,
            );
            let rows2 = rows_after_read(rows1, k, probe(blobs1, k), read_at);
            &&& result_of_read(rows1, k, probe(blobs1, k)) is None
            &&& !has_key(rows2, k)
            &&& forall|other: Seq<char>| other != k ==> (has_key(rows2, other) <==> has_key(rows, other))
        }),
{
    let k = cache_key_text(key);
    let row = row_for(key, result, file_size, written_at);
    let rows1 = with_row(rows, row);
    lemma_with_row(rows, row);
    lemma_kept_by_key(rows1, k);
    lemma_kept_by_key(rows, k);
    let kr = kept(rows, RowTest::Key(k));
    let rows2 = kept(rows1, RowTest::Key(k));
    assert forall|other: Seq<char>| other != k implies (has_key(rows1, other) <==> has_key(
        rows,
        other,
    )) by {
        if has_key(rows1, other) {
            let i = choose|i: int| 0 <= i < rows1.len() && (#[trigger] rows1[i]).cache_key == other;
            assert(rows1[i] == kr[i]);
            assert(has_key(kr, other));
        }
        if has_key(rows, other) {
            assert(has_key(kr, other));
            let i = choose|i: int| 0 <= i < kr.len() && (#[trigger] kr[i]).cache_key == other;
            assert(rows1[i].cache_key == other);
        }
    }
}

/// Removing a repository deletes exactly its rows: no row of the repository
/// is left, every other row stays as it was, and where the repository had
/// one row, one blob path is returned.
pub proof fn law_remove_repository_is_scoped(
    rows: Seq<CacheEntryView>,
    dir: Seq<char>,
    repo_url: Seq<char>,
)
    requires
        distinct_keys(rows),
    ensures
        ({
            let left = kept(rows, RowTest::Repository(repo_url));
            let gone = taken(rows, RowTest::Repository(repo_url));
            &&& distinct_keys(left)
            &&& forall|i: int| 0 <= i < left.len() ==> (#[trigger] left[i]).repo_url != repo_url
            &&& forall|i: int|
                0 <= i < rows.len() && (#[trigger] rows[i]).repo_url != repo_url ==> left.contains(
                    rows[i],
                )
            &&& forall|i: int|
                0 <= i < rows.len() && (#[trigger] rows[i]).repo_url == repo_url ==> !has_key(
                    left,
                    rows[i].cache_key,
                )
            &&& blob_paths(dir, gone).len() == gone.len()
            &&& forall|at: int|
                0 <= at < rows.len() && (forall|i: int|
                    0 <= i < rows.len() ==> ((#[trigger] rows[i]).repo_url == repo_url <==> i
                        == at)) ==> gone == seq![rows[at]]
        }),
{
    let test = RowTest::Repository(repo_url);
    let left = kept(rows, test);
    let gone = taken(rows, test);
    lemma_kept(rows, test);
    assert forall|i: int|
        0 <= i < rows.len() && (#[trigger] rows[i]).repo_url == repo_url implies !has_key(
        left,
        rows[i].cache_key,
    ) by {
        if has_key(left, rows[i].cache_key) {
            let w = choose|w: int|
                0 <= w < left.len() && (#[trigger] left[w]).cache_key == rows[i].cache_key;
            let v = choose|v: int| 0 <= v < rows.len() && rows[v] == left[w];
            assert(!selects(test, left[w]));
            if v < i {
                assert(rows[v].cache_key != rows[i].cache_key);
            } else if i < v {
                assert(rows[i].cache_key != rows[v].cache_key);
            }
        }
    }
    assert forall|at: int|
        0 <= at < rows.len() && (forall|i: int|
            0 <= i < rows.len() ==> ((#[trigger] rows[i]).repo_url == repo_url <==> i
                == at)) implies gone == seq![rows[at]] by {
        lemma_taken_single(rows, test, at);
    }
}

/// Where a choice takes the row at one position only, that row is all it
/// takes.
pub proof fn lemma_taken_single(rows: Seq<CacheEntryView>, test: RowTest, at: int)
    requires
        0 <= at < rows.len(),
        forall|i: int| 0 <= i < rows.len() ==> (selects(test, #[trigger] rows[i]) <==> i == at),
    ensures
        taken(rows, test) == seq![rows[at]],
    decreases rows.len(),
{
    let rest = rows.drop_last();
    assert(rows[rows.len() - 1] == rows.last());
    if at == rows.len() - 1 {
        assert forall|i: int| 0 <= i < rest.len() implies !selects(test, #[trigger] rest[i]) by {
            assert(rest[i] == rows[i]);
        }
        lemma_kept_nothing(rest, test);
        assert(taken(rest, test) =~= Seq::empty());
        assert(taken(rows, test) =~= seq![rows[at]]);
    } else {
        assert forall|i: int| 0 <= i < rest.len() implies (selects(test, #[trigger] rest[i]) <==> i
            == at) by {
            assert(rest[i] == rows[i]);
        }
        lemma_taken_single(rest, test, at);
        assert(rest[at] == rows[at]);
    }
}

/// Cleaning up by age deletes exactly the rows last read before the window:
/// a row read longer ago than the window is gone, and a row read within it,
/// the one read at this very moment among them, stays.
pub proof fn law_cleanup_is_by_age(rows: Seq<CacheEntryView>, max_age_days: u64, now: u64)
    requires
        distinct_keys(rows),
    ensures
        ({
            let left = kept(rows, RowTest::AccessedBefore(cutoff(now, max_age_days)));
            let gone = taken(rows, RowTest::AccessedBefore(cutoff(now, max_age_days)));
            &&& distinct_keys(left)
            &&& left.len() + gone.len() == rows.len()
            &&& forall|i: int|
                0 <= i < rows.len() && (#[trigger] rows[i]).last_accessed + max_age_days
                    * SECONDS_PER_DAY < now ==> !has_key(left, rows[i].cache_key) && gone.contains(
                    rows[i],
                )
            &&& forall|i: int|
                0 <= i < rows.len() && (#[trigger] rows[i]).last_accessed + max_age_days
                    * SECONDS_PER_DAY >= now ==> left.contains(rows[i])
            &&& forall|i: int|
                0 <= i < rows.len() && (#[trigger] rows[i]).last_accessed == now ==> left.contains(
                    rows[i],
                )
        }),
{
    let test = RowTest::AccessedBefore(cutoff(now, max_age_days));
    let left = kept(rows, test);
    lemma_kept(rows, test);
    assert forall|i: int|
        0 <= i < rows.len() && (#[trigger] rows[i]).last_accessed + max_age_days * SECONDS_PER_DAY
            < now implies !has_key(left, rows[i].cache_key) by {
        if has_key(left, rows[i].cache_key) {
            let w = choose|w: int|
                0 <= w < left.len() && (#[trigger] left[w]).cache_key == rows[i].cache_key;
            let v = choose|v: int| 0 <= v < rows.len() && rows[v] == left[w];
            assert(!selects(test, left[w]));
            assert(selects(test, rows[i]));
            if v < i {
                assert(rows[v].cache_key != rows[i].cache_key);
            } else if i < v {
                assert(rows[i].cache_key != rows[v].cache_key);
            }
        }
    }
}

/// Writing a row a second time leaves what writing it once leaves.
pub proof fn law_put_is_idempotent(rows: Seq<CacheEntryView>, row: CacheEntryView)
    requires
        distinct_keys(rows),
    ensures
        with_row(with_row(rows, row), row) == with_row(rows, row),
{
    let test = RowTest::Key(row.cache_key);
    let once = with_row(rows, row);
    let base = kept(rows, test);
    lemma_kept(rows, test);
    lemma_kept_nothing(base, test);
    assert(once.drop_last() =~= base);
    assert(once.last() == row);
    assert(kept(once, test) == kept(base, test));
}

} // verus!
