//! Text primitives: strings as sequences of characters, number formatting,
//! prefix and suffix tests, and the lexicographic order on text.

use vstd::prelude::*;
use vstd::std_specs::iter::IteratorSpec;

verus! {

/// `String::push` of the standard library: the character is appended at the
/// end and nothing else changes.
pub assume_specification[ String::push ](s: &mut String, c: char)
    ensures
        final(s)@ == old(s)@.push(c),
;

/// The characters of `s`, in order.
pub fn chars_of(s: &str) -> (v: Vec<char>)
    ensures
        v@ == s@,
{
    let mut v: Vec<char> = Vec::new();
    for c in it: s.chars()
        invariant
            v@ == it.seq().take(it.index() as int),
            it.seq() == s@,
    {
        v.push(c);
    }
    v
}

/// The string made of the characters of `v`, in order.
pub fn string_of(v: &Vec<char>) -> (s: String)
    ensures
        s@ == v@,
{
    let mut s = String::new();
    let mut i: usize = 0;
    while i < v.len()
        invariant
            i <= v.len(),
            s@ == v@.take(i as int),
        decreases v.len() - i,
    {
        s.push(v[i]);
        i = i + 1;
    }
    s
}

/// The character that writes the digit `d` in bases up to sixteen, lower case.
pub open spec fn digit_char(d: nat) -> char {
    if d < 10 {
        ((48 + d) as u8) as char
    } else {
        ((87 + d) as u8) as char
    }
}

/// The `width` lowest digits of `n` in `base`, most significant first.
pub open spec fn fixed_digits(n: nat, base: nat, width: nat) -> Seq<nat>
    decreases width,
{
    if width == 0 {
        Seq::empty()
    } else {
        fixed_digits(n / base, base, (width - 1) as nat).push(n % base)
    }
}

/// `base` to the power `width`.
pub open spec fn power(base: nat, width: nat) -> nat
    decreases width,
{
    if width == 0 {
        1
    } else {
        base * power(base, (width - 1) as nat)
    }
}

/// Two numbers below `base^width` with the same `width` digits are equal.
pub proof fn lemma_fixed_digits_injective(a: nat, b: nat, base: nat, width: nat)
    requires
        base > 0,
        a < power(base, width),
        b < power(base, width),
        fixed_digits(a, base, width) == fixed_digits(b, base, width),
    ensures
        a == b,
    decreases width,
{
    if width > 0 {
        let w = (width - 1) as nat;
        let da = fixed_digits(a / base, base, w);
        let db = fixed_digits(b / base, base, w);
        assert(fixed_digits(a, base, width) == da.push(a % base));
        assert(fixed_digits(b, base, width) == db.push(b % base));
        assert(da.push(a % base).last() == a % base);
        assert(db.push(b % base).last() == b % base);
        assert(da.push(a % base).drop_last() == da);
        assert(db.push(b % base).drop_last() == db);
        assert(a / base < power(base, w)) by (nonlinear_arith)
            requires
                a < base * power(base, w),
                base > 0,
        ;
        assert(b / base < power(base, w)) by (nonlinear_arith)
            requires
                b < base * power(base, w),
                base > 0,
        ;
        lemma_fixed_digits_injective(a / base, b / base, base, w);
        assert(a == base * (a / base) + a % base) by (nonlinear_arith)
            requires
                base > 0,
        ;
        assert(b == base * (b / base) + b % base) by (nonlinear_arith)
            requires
                base > 0,
        ;
    }
}

/// The length of a fixed-width digit sequence is its width.
pub proof fn lemma_fixed_digits_len(n: nat, base: nat, width: nat)
    requires
        base > 0,
    ensures
        fixed_digits(n, base, width).len() == width,
    decreases width,
{
    if width > 0 {
        lemma_fixed_digits_len(n / base, base, (width - 1) as nat);
    }
}

/// The decimal digits of `n`, most significant first, without leading zeros.
pub open spec fn decimal_digits(n: nat) -> Seq<char>
    decreases n,
{
    if n < 10 {
        seq![digit_char(n)]
    } else {
        decimal_digits(n / 10).push(digit_char(n % 10))
    }
}

fn digit_of(d: u8) -> (c: char)
    requires
        d < 16,
    ensures
        c == digit_char(d as nat),
{
    if d < 10 {
        (48 + d) as char
    } else {
        (87 + d) as char
    }
}

/// Appends the decimal digits of `n` to `out`.
pub fn push_decimal(out: &mut Vec<char>, n: u64)
    ensures
        final(out)@ == old(out)@ + decimal_digits(n as nat),
    decreases n,
{
    if n < 10 {
        out.push(digit_of(n as u8));
    } else {
        push_decimal(out, n / 10);
        out.push(digit_of((n % 10) as u8));
    }
}

/// Appends the characters of `s` to `out`.
pub fn push_str(out: &mut Vec<char>, s: &str)
    ensures
        final(out)@ == old(out)@ + s@,
{
    let ghost before = out@;
    for c in it: s.chars()
        invariant
            out@ == before + it.seq().take(it.index() as int),
            it.seq() == s@,
    {
        out.push(c);
    }
}

/// Appends the characters of `v` to `out`.
pub fn push_chars(out: &mut Vec<char>, v: &Vec<char>)
    ensures
        final(out)@ == old(out)@ + v@,
{
    let ghost before = out@;
    let mut i: usize = 0;
    while i < v.len()
        invariant
            i <= v.len(),
            out@ == before + v@.take(i as int),
        decreases v.len() - i,
    {
        out.push(v[i]);
        i = i + 1;
    }
}

/// `n` in decimal.
pub fn decimal(n: u64) -> (s: String)
    ensures
        s@ == decimal_digits(n as nat),
{
    let mut out: Vec<char> = Vec::new();
    push_decimal(&mut out, n);
    string_of(&out)
}

/// The sixteen hexadecimal digits of `v`, lower case, most significant first.
pub open spec fn hex_text(v: u64) -> Seq<char> {
    fixed_digits(v as nat, 16, 16).map_values(|d: nat| digit_char(d))
}

fn push_hex(out: &mut Vec<char>, v: u64, width: u8)
    requires
        width <= 16,
    ensures
        final(out)@ == old(out)@ + fixed_digits(v as nat, 16, width as nat).map_values(
            |d: nat| digit_char(d),
        ),
    decreases width,
{
    if width > 0 {
        push_hex(out, v / 16, width - 1);
        out.push(digit_of((v % 16) as u8));
        assert(fixed_digits(v as nat, 16, width as nat) == fixed_digits(
            (v / 16) as nat,
            16,
            (width - 1) as nat,
        ).push((v % 16) as nat));
    }
}

/// `v` as sixteen lower-case hexadecimal digits, padded with zeros.
pub fn hex16(v: u64) -> (s: String)
    ensures
        s@ == hex_text(v),
{
    let mut out: Vec<char> = Vec::new();
    push_hex(&mut out, v, 16);
    string_of(&out)
}

/// Whether `s` begins with `prefix`.
pub open spec fn has_prefix(s: Seq<char>, prefix: Seq<char>) -> bool {
    prefix.len() <= s.len() && s.subrange(0, prefix.len() as int) == prefix
}

/// Whether `s` ends with `suffix`.
pub open spec fn has_suffix(s: Seq<char>, suffix: Seq<char>) -> bool {
    suffix.len() <= s.len() && s.subrange(s.len() - suffix.len(), s.len() as int) == suffix
}

/// Whether the characters of `a` from `at` on begin with `b`.
fn matches_at(a: &Vec<char>, at: usize, b: &Vec<char>) -> (r: bool)
    requires
        at <= a.len(),
    ensures
        r == (b.len() <= a.len() - at && a@.subrange(at as int, at + b.len()) == b@),
{
    if b.len() > a.len() - at {
        return false;
    }
    let mut i: usize = 0;
    while i < b.len()
        invariant
            at <= a.len(),
            b.len() <= a.len() - at,
            i <= b.len(),
            forall|j: int| 0 <= j < i ==> a@[at + j] == b@[j],
        decreases b.len() - i,
    {
        if a[at + i] != b[i] {
            assert(a@.subrange(at as int, at + b.len())[i as int] != b@[i as int]);
            return false;
        }
        i = i + 1;
    }
    assert(a@.subrange(at as int, at + b.len()) =~= b@);
    true
}

/// Whether `s` begins with `prefix`.
pub fn starts_with(s: &Vec<char>, prefix: &Vec<char>) -> (r: bool)
    ensures
        r == has_prefix(s@, prefix@),
{
    matches_at(s, 0, prefix)
}

/// Whether `s` ends with `suffix`.
pub fn ends_with(s: &Vec<char>, suffix: &Vec<char>) -> (r: bool)
    ensures
        r == has_suffix(s@, suffix@),
{
    if suffix.len() > s.len() {
        false
    } else {
        matches_at(s, s.len() - suffix.len(), suffix)
    }
}

/// Whether two texts hold the same characters.
pub fn same_chars(a: &Vec<char>, b: &Vec<char>) -> (r: bool)
    ensures
        r == (a@ == b@),
{
    if a.len() != b.len() {
        return false;
    }
    let r = matches_at(a, 0, b);
    assert(a@.subrange(0, a.len() as int) =~= a@);
    r
}

/// The characters of `v` from `from` up to, not including, `to`.
pub fn slice_chars(v: &Vec<char>, from: usize, to: usize) -> (r: Vec<char>)
    requires
        from <= to <= v.len(),
    ensures
        r@ == v@.subrange(from as int, to as int),
{
    let mut r: Vec<char> = Vec::new();
    let mut i: usize = from;
    while i < to
        invariant
            from <= i <= to <= v.len(),
            r@ == v@.subrange(from as int, i as int),
        decreases to - i,
    {
        r.push(v[i]);
        i = i + 1;
    }
    r
}

/// The position of the last `c` in `s`, or -1 where `s` holds none.
pub open spec fn last_position(s: Seq<char>, c: char) -> int
    decreases s.len(),
{
    if s.len() == 0 {
        -1
    } else if s.last() == c {
        s.len() - 1
    } else {
        last_position(s.drop_last(), c)
    }
}

/// What `last_position` returns is a position of `c` with no `c` behind it,
/// and -1 exactly where `s` holds no `c`.
pub proof fn lemma_last_position(s: Seq<char>, c: char)
    ensures
        -1 <= last_position(s, c) < s.len(),
        last_position(s, c) >= 0 ==> s[last_position(s, c)] == c,
        forall|j: int| last_position(s, c) < j < s.len() ==> s[j] != c,
    decreases s.len(),
{
    if s.len() > 0 && s.last() != c {
        let rest = s.drop_last();
        lemma_last_position(rest, c);
        assert forall|j: int| last_position(s, c) < j < s.len() implies s[j] != c by {
            if j < rest.len() {
                assert(rest[j] == s[j]);
            }
        }
    }
}

/// The position of the last `c` in `s`.
pub fn find_last(s: &Vec<char>, c: char) -> (r: Option<usize>)
    ensures
        match r {
            Some(i) => i == last_position(s@, c),
            None => last_position(s@, c) == -1,
        },
{
    let mut i: usize = s.len();
    assert(s@.take(i as int) == s@);
    while i > 0
        invariant
            i <= s.len(),
            last_position(s@, c) == last_position(s@.take(i as int), c),
        decreases i,
    {
        if s[i - 1] == c {
            return Some(i - 1);
        }
        assert(s@.take(i as int).drop_last() == s@.take(i - 1));
        i = i - 1;
    }
    None
}

/// Whether `s` holds `c`.
pub fn holds_char(s: &Vec<char>, c: char) -> (r: bool)
    ensures
        r == s@.contains(c),
{
    let mut i: usize = 0;
    while i < s.len()
        invariant
            i <= s.len(),
            forall|j: int| 0 <= j < i ==> s@[j] != c,
        decreases s.len() - i,
    {
        if s[i] == c {
            return true;
        }
        i = i + 1;
    }
    false
}

/// Whether two strings hold the same characters.
pub fn same_text(a: &str, b: &str) -> (r: bool)
    ensures
        r == (a@ == b@),
{
    let x = chars_of(a);
    let y = chars_of(b);
    same_chars(&x, &y)
}

/// Whether `needle` occurs in `haystack` as a run of neighbours.
pub open spec fn holds_text(haystack: Seq<char>, needle: Seq<char>) -> bool {
    exists|i: int|
        0 <= i <= haystack.len() - needle.len() && #[trigger] haystack.subrange(
            i,
            i + needle.len(),
        ) == needle
}

/// Whether `needle` occurs in `haystack`.
pub fn contains_text(haystack: &Vec<char>, needle: &Vec<char>) -> (r: bool)
    ensures
        r == holds_text(haystack@, needle@),
{
    if needle.len() > haystack.len() {
        return false;
    }
    let last = haystack.len() - needle.len();
    let mut i: usize = 0;
    loop
        invariant
            i <= last,
            last == haystack.len() - needle.len(),
            needle.len() <= haystack.len(),
            forall|j: int| 0 <= j < i ==> #[trigger] haystack@.subrange(j, j + needle.len()) != needle@,
        decreases last - i,
    {
        if matches_at(haystack, i, needle) {
            return true;
        }
        if i == last {
            return false;
        }
        i = i + 1;
    }
}

/// The decimal digits of `n`, behind a minus sign where `n` is negative.
pub open spec fn signed_digits(n: int) -> Seq<char> {
    if n < 0 {
        seq!['-'] + decimal_digits((-n) as nat)
    } else {
        decimal_digits(n as nat)
    }
}

/// Appends `n` in decimal.
pub fn push_signed(out: &mut Vec<char>, n: i32)
    ensures
        final(out)@ == old(out)@ + signed_digits(n as int),
{
    let ghost before = out@;
    if n < 0 {
        out.push('-');
        let magnitude: u64 = (-(n as i64)) as u64;
        push_decimal(out, magnitude);
        assert(out@ =~= before + signed_digits(n as int));
    } else {
        push_decimal(out, n as u64);
    }
}

/// What `char::is_whitespace` of the standard library returns: whether the
/// character has the Unicode property `White_Space`.
pub uninterp spec fn is_white_space(c: char) -> bool;

/// `char::is_whitespace` of the standard library: whether a character is
/// white space depends on the character alone.
pub assume_specification[ char::is_whitespace ](c: char) -> (r: bool)
    ensures
        r == is_white_space(c),
;

/// How many characters of white space `s` begins with.
pub open spec fn leading_space(s: Seq<char>) -> nat
    decreases s.len(),
{
    if s.len() > 0 && is_white_space(s[0]) {
        1 + leading_space(s.drop_first())
    } else {
        0
    }
}

/// How many characters of white space `s` ends with.
pub open spec fn trailing_space(s: Seq<char>) -> nat
    decreases s.len(),
{
    if s.len() > 0 && is_white_space(s.last()) {
        1 + trailing_space(s.drop_last())
    } else {
        0
    }
}

/// `s` without the white space that it begins with.
pub open spec fn without_leading_space(s: Seq<char>) -> Seq<char> {
    s.subrange(leading_space(s) as int, s.len() as int)
}

/// `s` without the white space at its two ends.
pub open spec fn trimmed(s: Seq<char>) -> Seq<char> {
    let t = without_leading_space(s);
    t.subrange(0, t.len() - trailing_space(t))
}

/// `s` without the white space at its two ends.
pub fn trim(s: &str) -> (r: String)
    ensures
        r@ == trimmed(s@),
{
    let chars = chars_of(s);
    let n = chars.len();
    let mut i: usize = 0;
    assert(chars@.skip(0) =~= chars@);
    while i < n && chars[i].is_whitespace()
        invariant
            i <= n,
            n == chars@.len(),
            leading_space(chars@) == i + leading_space(chars@.skip(i as int)),
        decreases n - i,
    {
        assert(chars@.skip(i as int)[0] == chars@[i as int]);
        assert(chars@.skip(i as int).drop_first() =~= chars@.skip(i + 1));
        i = i + 1;
    }
    proof {
        if i < n {
            assert(chars@.skip(i as int)[0] == chars@[i as int]);
        } else {
            assert(chars@.skip(i as int) =~= Seq::<char>::empty());
        }
        assert(leading_space(chars@) == i);
    }
    let ghost t = without_leading_space(chars@);
    assert(t =~= chars@.subrange(i as int, n as int));
    let mut j: usize = n;
    assert(chars@.subrange(i as int, n as int) =~= t);
    while j > i && chars[j - 1].is_whitespace()
        invariant
            i <= j <= n,
            n == chars@.len(),
            t == chars@.subrange(i as int, n as int),
            trailing_space(t) == (n - j) + trailing_space(chars@.subrange(i as int, j as int)),
        decreases j,
    {
        let ghost part = chars@.subrange(i as int, j as int);
        assert(part.last() == chars@[j - 1]);
        assert(part.drop_last() =~= chars@.subrange(i as int, j - 1));
        j = j - 1;
    }
    proof {
        let part = chars@.subrange(i as int, j as int);
        if j > i {
            assert(part.last() == chars@[j - 1]);
        } else {
            assert(part =~= Seq::<char>::empty());
        }
        assert(trailing_space(t) == n - j);
        assert(t.subrange(0, t.len() - trailing_space(t)) =~= part);
    }
    let kept = slice_chars(&chars, i, j);
    string_of(&kept)
}

} // verus!
