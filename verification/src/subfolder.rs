//! The subfolder scope of a run: how its path is normalized, whether it is
//! there, and what is suggested where it is not.

use vstd::prelude::*;
use vstd::utf8::encode_utf8;
use crate::ordering::{canonical_settings, sort_settings};
use crate::text::{
    chars_of, decimal_digits, holds_char, push_decimal, push_str, same_chars, same_text,
    string_of,
};

verus! {

/// What `str::to_lowercase` of the standard library returns for a text.
pub uninterp spec fn lowercase_of(s: Seq<char>) -> Seq<char>;

/// `str::to_lowercase` of the standard library: the lower-case form of the
/// text, which depends on the text alone.
pub assume_specification[ str::to_lowercase ](s: &str) -> (r: String)
    ensures
        r@ == lowercase_of(s@),
;

/// `s` with every backslash turned into a slash.
pub open spec fn normalized(s: Seq<char>) -> Seq<char> {
    Seq::new(
        s.len(),
        |i: int|
            if s[i] == '\\' {
                '/'
            } else {
                s[i]
            },
    )
}

/// The subfolder path `subfolder` with slashes for separators.
pub fn normalize_subfolder(subfolder: &str) -> (r: String)
    ensures
        r@ == normalized(subfolder@),
{
    let chars = chars_of(subfolder);
    let mut out: Vec<char> = Vec::new();
    let mut i: usize = 0;
    while i < chars.len()
        invariant
            i <= chars.len(),
            chars@ == subfolder@,
            out@.len() == i,
            forall|j: int| 0 <= j < i ==> out@[j] == normalized(subfolder@)[j],
        decreases chars.len() - i,
    {
        if chars[i] == '\\' {
            out.push('/');
        } else {
            out.push(chars[i]);
        }
        i = i + 1;
    }
    assert(out@ =~= normalized(subfolder@));
    string_of(&out)
}

/// How many characters of `a`, counted as often as they occur, occur in `b`.
pub open spec fn common_chars(a: Seq<char>, b: Seq<char>) -> nat
    decreases a.len(),
{
    if a.len() == 0 {
        0
    } else if b.contains(a.last()) {
        common_chars(a.drop_last(), b) + 1
    } else {
        common_chars(a.drop_last(), b)
    }
}

/// How alike two names are: the share of `common` in `longest`.
#[derive(Debug, Clone, Copy, PartialEq, Eq, Structural)]
pub struct Similarity {
    pub common: usize,
    pub longest: usize,
}

/// The likeness of `a` and `b`, both in lower case: all of one where they
/// are the same text, else the characters of `a` that occur in `b` as a
/// share of the longer of the two, measured in bytes.
pub open spec fn similarity_of(a: Seq<char>, b: Seq<char>) -> Similarity {
    if a == b {
        Similarity { common: 1, longest: 1 }
    } else {
        Similarity {
            common: common_chars(a, b) as usize,
            longest: if encode_utf8(a).len() >= encode_utf8(b).len() {
                encode_utf8(a).len() as usize
            } else {
                encode_utf8(b).len() as usize
            },
        }
    }
}

impl Similarity {
    /// Whether the likeness is above six tenths.
    pub open spec fn suggests(self) -> bool {
        self.common * 10 > 6 * self.longest
    }

    /// Whether the likeness is above six tenths.
    pub fn is_suggestion(&self) -> (r: bool)
        ensures
            r == self.suggests(),
    {
        (self.common as u128) * 10 > 6 * (self.longest as u128)
    }
}

/// The likeness of the names `s1` and `s2`, compared without regard to case.
pub fn string_similarity(s1: &str, s2: &str) -> (r: Similarity)
    ensures
        r == similarity_of(lowercase_of(s1@), lowercase_of(s2@)),
{
    let lower1 = s1.to_lowercase();
    let lower2 = s2.to_lowercase();
    let a = chars_of(lower1.as_str());
    let b = chars_of(lower2.as_str());
    if same_chars(&a, &b) {
        return Similarity { common: 1, longest: 1 };
    }
    let len1 = lower1.as_str().as_bytes().len();
    let len2 = lower2.as_str().as_bytes().len();
    let longest = if len1 >= len2 {
        len1
    } else {
        len2
    };
    let mut common: usize = 0;
    let mut i: usize = 0;
    assert(a@.take(0) =~= Seq::<char>::empty());
    while i < a.len()
        invariant
            i <= a.len(),
            common == common_chars(a@.take(i as int), b@),
            common <= i,
        decreases a.len() - i,
    {
        assert(a@.take(i + 1).drop_last() =~= a@.take(i as int));
        assert(a@.take(i + 1).last() == a@[i as int]);
        if holds_char(&b, a[i]) {
            common = common + 1;
        }
        i = i + 1;
    }
    assert(a@.take(a.len() as int) =~= a@);
    Similarity { common, longest }
}

/// What was seen of the working copy when the subfolder was looked for.
#[derive(Debug)]
pub struct SubfolderObservation {
    /// Whether the subfolder is there.
    pub exists: bool,
    /// The directories beside the subfolder, where its parent could be
    /// listed.
    pub sibling_directories: Option<Vec<String>>,
    /// The directories at the top of the working copy, where it could be
    /// listed.
    pub top_level_directories: Option<Vec<String>>,
}

/// The names of `names` that are like `wanted`, in order.
pub open spec fn suggestions_of(wanted: Seq<char>, names: Seq<Seq<char>>) -> Seq<Seq<char>>
    decreases names.len(),
{
    if names.len() == 0 {
        Seq::empty()
    } else {
        let before = suggestions_of(wanted, names.drop_last());
        if similarity_of(lowercase_of(wanted), lowercase_of(names.last())).suggests() {
            before.push(names.last())
        } else {
            before
        }
    }
}

/// The first `n` of `items`, each on a line of its own behind a dash.
pub open spec fn bullets(items: Seq<Seq<char>>, n: nat) -> Seq<char>
    decreases n,
{
    if n == 0 || items.len() < n {
        Seq::empty()
    } else {
        bullets(items, (n - 1) as nat) + "\n  - "@ + items[n - 1]
    }
}

/// `n`, or `most` where `n` is more.
pub open spec fn at_most(n: nat, most: nat) -> nat {
    if n <= most {
        n
    } else {
        most
    }
}

/// The names in the order of dictionaries.
pub open spec fn in_text_order(names: Seq<Seq<char>>) -> Seq<Seq<char>> {
    canonical_settings(names.map_values(|n: Seq<char>| (n, Seq::<char>::empty()))).map_values(
        |p: (Seq<char>, Seq<char>)| p.0,
    )
}

/// The message that refuses a subfolder that is not there.
pub open spec fn missing_subfolder_text(
    subfolder: Seq<char>,
    base_path: Seq<char>,
    siblings: Option<Seq<Seq<char>>>,
    top_level: Option<Seq<Seq<char>>>,
) -> Seq<char> {
    let norm = normalized(subfolder);
    let start = if subfolder != norm {
        "Subfolder '"@ + subfolder + "' (normalized to '"@ + norm
            + "') does not exist in the repository.\n\nRepository path: "@ + base_path
    } else {
        "Subfolder '"@ + subfolder + "' does not exist in the repository.\n\nRepository path: "@
            + base_path
    };
    let suggested = match siblings {
        Some(names) => suggestions_of(norm, names),
        None => Seq::empty(),
    };
    if suggested.len() > 0 {
        start + "\n\nDid you mean one of these?"@ + bullets(suggested, at_most(suggested.len(), 5))
    } else {
        match top_level {
            Some(names) => if names.len() > 0 {
                let sorted = in_text_order(names);
                let listed = start + "\n\nAvailable directories:"@ + bullets(
                    sorted,
                    at_most(sorted.len(), 10),
                );
                if names.len() > 10 {
                    listed + "\n  ... and "@ + decimal_digits((names.len() - 10) as nat) + " more"@
                } else {
                    listed
                }
            } else {
                start
            },
            None => start,
        }
    }
}

fn push_bullets(out: &mut Vec<char>, items: &Vec<String>, n: usize)
    requires
        n <= items.len(),
    ensures
        final(out)@ == old(out)@ + bullets(items.deep_view(), n as nat),
{
    let ghost before = out@;
    let ghost all = items.deep_view();
    let mut i: usize = 0;
    assert(out@ =~= before + bullets(all, 0));
    while i < n
        invariant
            i <= n <= items.len(),
            all == items.deep_view(),
            out@ == before + bullets(all, i as nat),
        decreases n - i,
    {
        assert(all[i as int] == items@[i as int]@);
        push_str(out, "\n  - ");
        push_str(out, items[i].as_str());
        assert(out@ =~= before + bullets(all, (i + 1) as nat));
        i = i + 1;
    }
}

fn suggestions(wanted: &str, names: &Vec<String>) -> (r: Vec<String>)
    ensures
        r.deep_view() == suggestions_of(wanted@, names.deep_view()),
{
    let ghost all = names.deep_view();
    let mut r: Vec<String> = Vec::new();
    let mut i: usize = 0;
    assert(all.take(0) =~= Seq::<Seq<char>>::empty());
    assert(r.deep_view() =~= Seq::<Seq<char>>::empty());
    while i < names.len()
        invariant
            i <= names.len(),
            all == names.deep_view(),
            r.deep_view() == suggestions_of(wanted@, all.take(i as int)),
        decreases names.len() - i,
    {
        let ghost before = r.deep_view();
        proof {
            assert(all.take(i + 1).drop_last() =~= all.take(i as int));
            assert(all.take(i + 1).last() == all[i as int]);
            assert(all[i as int] == names@[i as int]@);
        }
        if string_similarity(wanted, names[i].as_str()).is_suggestion() {
            r.push(names[i].clone());
            assert(r.deep_view() =~= before.push(all[i as int]));
        }
        i = i + 1;
    }
    assert(all.take(names.len() as int) =~= all);
    r
}

fn sort_names(names: &Vec<String>) -> (sorted: Vec<String>)
    ensures
        sorted.deep_view() == in_text_order(names.deep_view()),
{
    let mut pairs: Vec<(String, String)> = Vec::new();
    let mut i: usize = 0;
    while i < names.len()
        invariant
            i <= names.len(),
            pairs.len() == i,
            forall|j: int|
                0 <= j < i ==> pairs.deep_view()[j] == (names.deep_view()[j], Seq::<char>::empty()),
        decreases names.len() - i,
    {
        let ghost before = pairs.deep_view();
        assert(names.deep_view()[i as int] == names@[i as int]@);
        pairs.push((names[i].clone(), String::new()));
        assert(pairs.deep_view() =~= before.push((names.deep_view()[i as int], Seq::<char>::empty())));
        i = i + 1;
    }
    assert(pairs.deep_view() =~= names.deep_view().map_values(
        |n: Seq<char>| (n, Seq::<char>::empty()),
    ));
    let ordered = sort_settings(&pairs);
    let mut sorted: Vec<String> = Vec::new();
    let mut k: usize = 0;
    while k < ordered.len()
        invariant
            k <= ordered.len(),
            sorted.len() == k,
            forall|j: int| 0 <= j < k ==> sorted.deep_view()[j] == ordered.deep_view()[j].0,
        decreases ordered.len() - k,
    {
        let ghost before = sorted.deep_view();
        assert(ordered.deep_view()[k as int] == ordered@[k as int].deep_view());
        sorted.push(ordered[k].0.clone());
        assert(sorted.deep_view() =~= before.push(ordered.deep_view()[k as int].0));
        k = k + 1;
    }
    assert(sorted.deep_view() =~= ordered.deep_view().map_values(
        |p: (Seq<char>, Seq<char>)| p.0,
    ));
    sorted
}

/// Whether the run may go on with the subfolder `subfolder` of the working
/// copy at `base_path`, given what was seen of it. A subfolder that is there
/// is accepted. One that is not there is refused with a message that names
/// it, shows its normalized form where that differs, and suggests up to five
/// directories beside it with a like name or, where there are none, lists up
/// to ten directories of the working copy in the order of dictionaries.
pub fn validate_subfolder_exists(
    subfolder: &str,
    base_path: &str,
    seen: &SubfolderObservation,
) -> (r: Result<(), String>)
    ensures
        r is Ok <==> seen.exists,
        r matches Err(message) ==> message@ == missing_subfolder_text(
            subfolder@,
            base_path@,
            seen.sibling_directories.deep_view(),
            seen.top_level_directories.deep_view(),
        ),
{
    if seen.exists {
        return Ok(());
    }
    let norm = normalize_subfolder(subfolder);
    let mut out = chars_of("Subfolder '");
    push_str(&mut out, subfolder);
    if !same_text(subfolder, norm.as_str()) {
        push_str(&mut out, "' (normalized to '");
        push_str(&mut out, norm.as_str());
        push_str(&mut out, "') does not exist in the repository.\n\nRepository path: ");
    } else {
        push_str(&mut out, "' does not exist in the repository.\n\nRepository path: ");
    }
    push_str(&mut out, base_path);
    let suggested = match &seen.sibling_directories {
        Some(names) => suggestions(norm.as_str(), names),
        None => Vec::new(),
    };
    if suggested.len() > 0 {
        push_str(&mut out, "\n\nDid you mean one of these?");
        let n = if suggested.len() <= 5 {
            suggested.len()
        } else {
            5
        };
        push_bullets(&mut out, &suggested, n);
    } else {
        match &seen.top_level_directories {
            Some(names) => {
                if names.len() > 0 {
                    let sorted = sort_names(names);
                    push_str(&mut out, "\n\nAvailable directories:");
                    let n = if sorted.len() <= 10 {
                        sorted.len()
                    } else {
                        10
                    };
                    push_bullets(&mut out, &sorted, n);
                    if names.len() > 10 {
                        push_str(&mut out, "\n  ... and ");
                        push_decimal(&mut out, (names.len() - 10) as u64);
                        push_str(&mut out, " more");
                    }
                }
            },
            None => {},
        }
    }
    Err(string_of(&out))
}

} // verus!
