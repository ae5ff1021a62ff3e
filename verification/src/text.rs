//! Character-level text operations on `Vec<char>` with specifications over `Seq<char>`.
use vstd::prelude::*;

verus! {

/// Unicode `White_Space` property, as `char::is_whitespace` uses it.
pub open spec fn is_ws(c: char) -> bool {
    ||| ('\u{9}' <= c && c <= '\u{d}')
    ||| c == ' '
    ||| c == '\u{85}'
    ||| c == '\u{a0}'
    ||| c == '\u{1680}'
    ||| ('\u{2000}' <= c && c <= '\u{200a}')
    ||| c == '\u{2028}'
    ||| c == '\u{2029}'
    ||| c == '\u{202f}'
    ||| c == '\u{205f}'
    ||| c == '\u{3000}'
}

pub open spec fn is_digit(c: char) -> bool {
    '0' <= c && c <= '9'
}

pub open spec fn is_ascii_alnum(c: char) -> bool {
    ||| is_digit(c)
    ||| ('a' <= c && c <= 'z')
    ||| ('A' <= c && c <= 'Z')
}

pub open spec fn is_ascii_char(c: char) -> bool {
    (c as u32) < 128
}

pub open spec fn is_ascii_text(s: Seq<char>) -> bool {
    forall|i: int| 0 <= i < s.len() ==> is_ascii_char(#[trigger] s[i])
}

/// `char::to_ascii_lowercase`.
pub open spec fn ascii_lower_char(c: char) -> char {
    if 'A' <= c && c <= 'Z' {
        ((c as u32) + 32) as char
    } else {
        c
    }
}

/// `str::to_ascii_lowercase`.
pub open spec fn ascii_lower(s: Seq<char>) -> Seq<char> {
    s.map_values(|c: char| ascii_lower_char(c))
}

/// `char::to_ascii_uppercase`.
pub open spec fn ascii_upper_char(c: char) -> char {
    if 'a' <= c && c <= 'z' {
        ((c as u32) - 32) as char
    } else {
        c
    }
}

/// `str::to_ascii_uppercase`.
pub open spec fn ascii_upper(s: Seq<char>) -> Seq<char> {
    s.map_values(|c: char| ascii_upper_char(c))
}

/// The full Unicode lowercase mapping that `str::to_lowercase` applies.
pub uninterp spec fn unicode_lowercase(s: Seq<char>) -> Seq<char>;

/// A character that `str::to_lowercase` maps to one character whatever surrounds it: ASCII
/// (lowered as `to_ascii_lowercase` lowers it), and the caseless CJK ideographs, CJK symbols and
/// punctuation, and full-width punctuation (left as they are).
pub open spec fn is_plain_char(c: char) -> bool {
    ||| is_ascii_char(c)
    ||| ('\u{3000}' <= c && c <= '\u{303f}')
    ||| ('\u{4e00}' <= c && c <= '\u{9fff}')
    ||| ('\u{ff01}' <= c && c <= '\u{ff0f}')
    ||| ('\u{ff1a}' <= c && c <= '\u{ff20}')
}

/// How many characters at the front of `s` are plain.
pub open spec fn plain_prefix_len(s: Seq<char>) -> nat
    decreases s.len(),
{
    if s.len() > 0 && is_plain_char(s[0]) {
        1 + plain_prefix_len(s.drop_first())
    } else {
        0
    }
}

/// What `str::to_lowercase` gives: text made of plain characters is lowered character by
/// character (ASCII letters as `to_ascii_lowercase` lowers them, the others unchanged); other
/// text begins with its lowered plain prefix, and what follows is the Unicode lowercase mapping.
pub open spec fn lowercase(s: Seq<char>) -> Seq<char> {
    let k = plain_prefix_len(s);
    if k == s.len() {
        ascii_lower(s)
    } else {
        ascii_lower(s.take(k as int)) + unicode_lowercase(s).skip(k as int)
    }
}

pub proof fn lemma_plain_prefix_bound(s: Seq<char>)
    ensures
        plain_prefix_len(s) <= s.len(),
        forall|i: int| 0 <= i < plain_prefix_len(s) ==> is_plain_char(#[trigger] s[i]),
        plain_prefix_len(s) < s.len() ==> !is_plain_char(s[plain_prefix_len(s) as int]),
    decreases s.len(),
{
    if s.len() > 0 && is_plain_char(s[0]) {
        let t = s.drop_first();
        lemma_plain_prefix_bound(t);
        assert forall|i: int| 0 <= i < plain_prefix_len(s) implies is_plain_char(#[trigger] s[i]) by {
            if i > 0 {
                assert(s[i] == t[i - 1]);
            }
        }
    }
}

/// Classes of characters that the trimming operations remove.
#[derive(Clone, Copy, Debug)]
pub enum CharClass {
    /// Unicode white space.
    Whitespace,
    /// Exactly the given character.
    Exactly(char),
    /// `'-'` or `'_'`.
    DashOrUnderscore,
    /// Anything but an ASCII letter or digit or one of `. / - * _`.
    NotVersionChar,
    /// An ASCII digit or `'.'`.
    DigitOrDot,
    /// Anything but `'.'`.
    NotDot,
}

pub open spec fn in_class(k: CharClass, c: char) -> bool {
    match k {
        CharClass::Whitespace => is_ws(c),
        CharClass::Exactly(x) => c == x,
        CharClass::DashOrUnderscore => c == '-' || c == '_',
        CharClass::NotVersionChar => !(is_ascii_alnum(c) || c == '.' || c == '/' || c == '-'
            || c == '*' || c == '_'),
        CharClass::DigitOrDot => is_digit(c) || c == '.',
        CharClass::NotDot => c != '.',
    }
}

/// How many characters at the front of `s` belong to `k`.
pub open spec fn leading(s: Seq<char>, k: CharClass) -> nat
    decreases s.len(),
{
    if s.len() > 0 && in_class(k, s[0]) {
        1 + leading(s.drop_first(), k)
    } else {
        0
    }
}

/// How many characters at the back of `s` belong to `k`.
pub open spec fn trailing(s: Seq<char>, k: CharClass) -> nat
    decreases s.len(),
{
    if s.len() > 0 && in_class(k, s.last()) {
        1 + trailing(s.drop_last(), k)
    } else {
        0
    }
}

/// `trim_start_matches` with the class `k`.
pub open spec fn trim_start(s: Seq<char>, k: CharClass) -> Seq<char> {
    s.skip(leading(s, k) as int)
}

/// `trim_end_matches` with the class `k`.
pub open spec fn trim_end(s: Seq<char>, k: CharClass) -> Seq<char> {
    s.take(s.len() - trailing(s, k))
}

/// `trim_matches` with the class `k`.
pub open spec fn trim_both(s: Seq<char>, k: CharClass) -> Seq<char> {
    trim_end(trim_start(s, k), k)
}

/// `str::trim`.
pub open spec fn trim_ws(s: Seq<char>) -> Seq<char> {
    trim_both(s, CharClass::Whitespace)
}

pub open spec fn starts_with(s: Seq<char>, p: Seq<char>) -> bool {
    p.len() <= s.len() && s.take(p.len() as int) == p
}

pub open spec fn ends_with(s: Seq<char>, p: Seq<char>) -> bool {
    p.len() <= s.len() && s.skip(s.len() - p.len()) == p
}

pub open spec fn occurs_at(s: Seq<char>, p: Seq<char>, i: int) -> bool {
    0 <= i && i + p.len() <= s.len() && s.subrange(i, i + p.len()) == p
}

/// `str::contains` with a string pattern.
pub open spec fn contains_text(s: Seq<char>, p: Seq<char>) -> bool {
    exists|i: int| occurs_at(s, p, i)
}

/// Index of the first occurrence of `c` in `s`.
pub open spec fn first_index_of(s: Seq<char>, c: char) -> Option<int> {
    if exists|i: int| 0 <= i < s.len() && s[i] == c {
        Some(choose|i: int| 0 <= i < s.len() && s[i] == c && forall|j: int| 0 <= j < i ==> s[j] != c)
    } else {
        None
    }
}

/// Index of the last occurrence of `c` in `s`.
pub open spec fn last_index_of(s: Seq<char>, c: char) -> Option<int> {
    if exists|i: int| 0 <= i < s.len() && s[i] == c {
        Some(choose|i: int| 0 <= i < s.len() && s[i] == c && forall|j: int| i < j < s.len() ==> s[j] != c)
    } else {
        None
    }
}

pub open spec fn digit_value(c: char) -> nat {
    ((c as u32) - ('0' as u32)) as nat
}

pub open spec fn all_digits(s: Seq<char>) -> bool {
    forall|i: int| 0 <= i < s.len() ==> is_digit(#[trigger] s[i])
}

/// The number that a string of decimal digits denotes.
pub open spec fn decimal_value(s: Seq<char>) -> nat
    decreases s.len(),
{
    if s.len() == 0 {
        0
    } else {
        decimal_value(s.drop_last()) * 10 + digit_value(s.last())
    }
}

/// `str::parse::<u64>`: an optional `+`, then at least one digit, denoting a value that fits.
pub open spec fn parse_u64(s: Seq<char>) -> Option<u64> {
    let d = if s.len() > 0 && s[0] == '+' {
        s.drop_first()
    } else {
        s
    };
    if d.len() > 0 && all_digits(d) && decimal_value(d) <= u64::MAX {
        Some(decimal_value(d) as u64)
    } else {
        None
    }
}

pub open spec fn digit_char(d: nat) -> char {
    (('0' as u32) + d) as char
}

/// The decimal rendering of `n` that `Display` gives.
pub open spec fn decimal_text(n: nat) -> Seq<char>
    decreases n,
{
    if n < 10 {
        seq![digit_char(n)]
    } else {
        decimal_text(n / 10).push(digit_char(n % 10))
    }
}

// ---------------------------------------------------------------- lemmas

proof fn lemma_leading(s: Seq<char>, k: CharClass, a: int)
    requires
        0 <= a <= s.len(),
        forall|i: int| 0 <= i < a ==> in_class(k, #[trigger] s[i]),
        a == s.len() || !in_class(k, s[a]),
    ensures
        leading(s, k) == a,
    decreases a,
{
    if a > 0 {
        let t = s.drop_first();
        assert forall|i: int| 0 <= i < a - 1 implies in_class(k, #[trigger] t[i]) by {
            assert(t[i] == s[i + 1]);
        }
        if a < s.len() {
            assert(t[a - 1] == s[a]);
        }
        lemma_leading(t, k, a - 1);
    }
}

proof fn lemma_trailing(s: Seq<char>, k: CharClass, b: int)
    requires
        0 <= b <= s.len(),
        forall|i: int| b <= i < s.len() ==> in_class(k, #[trigger] s[i]),
        b == 0 || !in_class(k, s[b - 1]),
    ensures
        trailing(s, k) == s.len() - b,
    decreases s.len() - b,
{
    if b < s.len() {
        let t = s.drop_last();
        assert forall|i: int| b <= i < t.len() implies in_class(k, #[trigger] t[i]) by {
            assert(t[i] == s[i]);
        }
        if b > 0 {
            assert(t[b - 1] == s[b - 1]);
        }
        lemma_trailing(t, k, b);
    }
}

pub proof fn lemma_leading_bound(s: Seq<char>, k: CharClass)
    ensures
        leading(s, k) <= s.len(),
        forall|i: int| 0 <= i < leading(s, k) ==> in_class(k, #[trigger] s[i]),
        leading(s, k) < s.len() ==> !in_class(k, s[leading(s, k) as int]),
    decreases s.len(),
{
    if s.len() > 0 && in_class(k, s[0]) {
        let t = s.drop_first();
        lemma_leading_bound(t, k);
        assert forall|i: int| 0 <= i < leading(s, k) implies in_class(k, #[trigger] s[i]) by {
            if i > 0 {
                assert(s[i] == t[i - 1]);
            }
        }
        if leading(s, k) < s.len() {
            assert(s[leading(s, k) as int] == t[leading(t, k) as int]);
        }
    }
}

pub proof fn lemma_trailing_bound(s: Seq<char>, k: CharClass)
    ensures
        trailing(s, k) <= s.len(),
        forall|i: int| s.len() - trailing(s, k) <= i < s.len() ==> in_class(k, #[trigger] s[i]),
        trailing(s, k) < s.len() ==> !in_class(k, s[s.len() - trailing(s, k) - 1]),
    decreases s.len(),
{
    if s.len() > 0 && in_class(k, s.last()) {
        let t = s.drop_last();
        lemma_trailing_bound(t, k);
        assert forall|i: int| s.len() - trailing(s, k) <= i < s.len() implies in_class(
            k,
            #[trigger] s[i],
        ) by {
            if i < s.len() - 1 {
                assert(s[i] == t[i]);
            }
        }
        if trailing(s, k) < s.len() {
            assert(s[s.len() - trailing(s, k) - 1] == t[t.len() - trailing(t, k) - 1]);
        }
    }
}

/// Found indices are in range and hold the character.
pub proof fn lemma_index_of_bounds(s: Seq<char>, c: char)
    ensures
        first_index_of(s, c) matches Some(i) ==> 0 <= i < s.len() && s[i] == c && forall|j: int|
            0 <= j < i ==> s[j] != c,
        last_index_of(s, c) matches Some(i) ==> 0 <= i < s.len() && s[i] == c && forall|j: int|
            i < j < s.len() ==> s[j] != c,
{
    if exists|i: int| 0 <= i < s.len() && s[i] == c {
        let w = choose|i: int| 0 <= i < s.len() && s[i] == c;
        lemma_first_exists(s, c, w);
        lemma_last_exists(s, c, w);
    }
}

proof fn lemma_first_exists(s: Seq<char>, c: char, w: int)
    requires
        0 <= w < s.len(),
        s[w] == c,
    ensures
        exists|i: int| 0 <= i < s.len() && s[i] == c && forall|j: int| 0 <= j < i ==> s[j] != c,
    decreases w,
{
    if exists|j: int| 0 <= j < w && s[j] == c {
        let j = choose|j: int| 0 <= j < w && s[j] == c;
        lemma_first_exists(s, c, j);
    } else {
        assert(forall|j: int| 0 <= j < w ==> s[j] != c);
    }
}

proof fn lemma_last_exists(s: Seq<char>, c: char, w: int)
    requires
        0 <= w < s.len(),
        s[w] == c,
    ensures
        exists|i: int| 0 <= i < s.len() && s[i] == c && forall|j: int| i < j < s.len() ==> s[j] != c,
    decreases s.len() - w,
{
    if exists|j: int| w < j < s.len() && s[j] == c {
        let j = choose|j: int| w < j < s.len() && s[j] == c;
        lemma_last_exists(s, c, j);
    } else {
        assert(forall|j: int| w < j < s.len() ==> s[j] != c);
    }
}

proof fn lemma_decimal_monotone(s: Seq<char>, i: int)
    requires
        0 <= i <= s.len(),
        all_digits(s),
    ensures
        decimal_value(s.take(i)) <= decimal_value(s),
    decreases s.len() - i,
{
    if i < s.len() {
        let t = s.drop_last();
        assert(all_digits(t)) by {
            assert forall|j: int| 0 <= j < t.len() implies is_digit(#[trigger] t[j]) by {
                assert(t[j] == s[j]);
            }
        }
        lemma_decimal_monotone(t, i);
        assert(t.take(i) =~= s.take(i));
        assert(decimal_value(t) <= decimal_value(s));
    } else {
        assert(s.take(i) =~= s);
    }
}

// ---------------------------------------------------------------- exec

/// Collects the characters of a string slice.
pub fn chars_of(s: &str) -> (r: Vec<char>)
    ensures
        r@ == s@,
{
    let mut r: Vec<char> = Vec::new();
    for c in it: s.chars()
        invariant
            r@ == it.seq().take(it.index() as int),
    {
        r.push(c);
    }
    r
}

/// `String::from_iter` over characters.
#[verifier::external_body]
pub(crate) fn string_from_chars(v: &[char]) -> (r: String)
    ensures
        r@ == v@,
{
    v.iter().collect()
}

/// `str::to_lowercase`. The result is the Unicode lowercase mapping of the input. Of it the
/// contract states what the documentation shows: ASCII letters are lowered as
/// `to_ascii_lowercase` lowers them, and characters of scripts without case (CJK ideographs
/// and punctuation) are not changed, each of them whatever surrounds it. How other characters
/// are lowered (the expanding mappings, the final sigma) is left to the name.
#[verifier::external_body]
pub(crate) fn to_lowercase(s: &[char]) -> (r: Vec<char>)
    ensures
        r@ == unicode_lowercase(s@),
        r@ == lowercase(s@),
{
    s.iter().collect::<String>().to_lowercase().chars().collect()
}

pub fn is_ascii_digit(c: char) -> (r: bool)
    ensures
        r == is_digit(c),
{
    '0' <= c && c <= '9'
}

pub fn is_alnum(c: char) -> (r: bool)
    ensures
        r == is_ascii_alnum(c),
{
    ('0' <= c && c <= '9') || ('a' <= c && c <= 'z') || ('A' <= c && c <= 'Z')
}

/// `char::is_whitespace`.
pub fn is_whitespace(c: char) -> (r: bool)
    ensures
        r == is_ws(c),
{
    ('\u{9}' <= c && c <= '\u{d}') || c == ' ' || c == '\u{85}' || c == '\u{a0}' || c
        == '\u{1680}' || ('\u{2000}' <= c && c <= '\u{200a}') || c == '\u{2028}' || c
        == '\u{2029}' || c == '\u{202f}' || c == '\u{205f}' || c == '\u{3000}'
}

pub fn class_has(k: CharClass, c: char) -> (r: bool)
    ensures
        r == in_class(k, c),
{
    match k {
        CharClass::Whitespace => is_whitespace(c),
        CharClass::Exactly(x) => c == x,
        CharClass::DashOrUnderscore => c == '-' || c == '_',
        CharClass::NotVersionChar => !(is_alnum(c) || c == '.' || c == '/' || c == '-' || c
            == '*' || c == '_'),
        CharClass::DigitOrDot => is_ascii_digit(c) || c == '.',
        CharClass::NotDot => c != '.',
    }
}

/// Copies `s[a..b]`.
pub fn sub_chars(s: &[char], a: usize, b: usize) -> (r: Vec<char>)
    requires
        a <= b <= s@.len(),
    ensures
        r@ == s@.subrange(a as int, b as int),
{
    let mut r: Vec<char> = Vec::new();
    let mut i = a;
    while i < b
        invariant
            a <= i <= b <= s@.len(),
            r@ == s@.subrange(a as int, i as int),
        decreases b - i,
    {
        r.push(s[i]);
        i += 1;
    }
    r
}

/// Number of leading characters of `s` in the class `k`.
pub fn count_leading(s: &[char], k: CharClass) -> (n: usize)
    ensures
        n == leading(s@, k),
{
    let mut i: usize = 0;
    while i < s.len() && class_has(k, s[i])
        invariant
            i <= s@.len(),
            forall|j: int| 0 <= j < i ==> in_class(k, #[trigger] s@[j]),
        decreases s.len() - i,
    {
        i += 1;
    }
    proof {
        lemma_leading(s@, k, i as int);
    }
    i
}

/// Number of trailing characters of `s` in the class `k`.
pub fn count_trailing(s: &[char], k: CharClass) -> (n: usize)
    ensures
        n == trailing(s@, k),
{
    let mut b: usize = s.len();
    while b > 0 && class_has(k, s[b - 1])
        invariant
            b <= s@.len(),
            forall|j: int| b <= j < s@.len() ==> in_class(k, #[trigger] s@[j]),
        decreases b,
    {
        b -= 1;
    }
    proof {
        lemma_trailing(s@, k, b as int);
    }
    s.len() - b
}

/// `trim_start_matches` with the class `k`.
pub fn trim_start_class(s: &[char], k: CharClass) -> (r: Vec<char>)
    ensures
        r@ == trim_start(s@, k),
{
    let a = count_leading(s, k);
    proof {
        lemma_leading_bound(s@, k);
    }
    sub_chars(s, a, s.len())
}

/// `trim_end_matches` with the class `k`.
pub fn trim_end_class(s: &[char], k: CharClass) -> (r: Vec<char>)
    ensures
        r@ == trim_end(s@, k),
{
    let b = count_trailing(s, k);
    proof {
        lemma_trailing_bound(s@, k);
    }
    sub_chars(s, 0, s.len() - b)
}

/// `trim_matches` with the class `k`.
pub fn trim_class(s: &[char], k: CharClass) -> (r: Vec<char>)
    ensures
        r@ == trim_both(s@, k),
{
    let t = trim_start_class(s, k);
    trim_end_class(&t, k)
}

/// `str::trim`.
pub fn trim(s: &[char]) -> (r: Vec<char>)
    ensures
        r@ == trim_ws(s@),
{
    trim_class(s, CharClass::Whitespace)
}

/// Whether `p` occurs in `s` at position `i`.
pub fn occurs(s: &[char], p: &[char], i: usize) -> (r: bool)
    ensures
        r == occurs_at(s@, p@, i as int),
{
    if i > s.len() || p.len() > s.len() - i {
        return false;
    }
    let n = s.len();
    let mut j: usize = 0;
    while j < p.len()
        invariant
            n == s@.len(),
            i + p@.len() <= s@.len(),
            i <= s@.len(),
            j <= p@.len(),
            forall|t: int| 0 <= t < j ==> s@[i + t] == p@[t],
        decreases p.len() - j,
    {
        assert(i + j < s@.len());
        if s[i + j] != p[j] {
            assert(s@.subrange(i as int, i + p@.len())[j as int] != p@[j as int]);
            return false;
        }
        j += 1;
    }
    assert(s@.subrange(i as int, i + p@.len()) =~= p@);
    true
}

/// Character-wise equality.
pub fn same_text(a: &[char], b: &[char]) -> (r: bool)
    ensures
        r == (a@ == b@),
{
    if a.len() != b.len() {
        return false;
    }
    let r = occurs(a, b, 0);
    proof {
        assert(a@.subrange(0, b@.len() as int) =~= a@);
    }
    r
}

/// `str::starts_with` with a string pattern.
pub fn starts_with_text(s: &[char], p: &[char]) -> (r: bool)
    ensures
        r == starts_with(s@, p@),
{
    let r = occurs(s, p, 0);
    proof {
        if p@.len() <= s@.len() {
            assert(s@.take(p@.len() as int) =~= s@.subrange(0, p@.len() as int));
        }
    }
    r
}

/// `str::ends_with` with a string pattern.
pub fn ends_with_text(s: &[char], p: &[char]) -> (r: bool)
    ensures
        r == ends_with(s@, p@),
{
    if p.len() > s.len() {
        return false;
    }
    let r = occurs(s, p, s.len() - p.len());
    proof {
        assert(s@.skip(s@.len() - p@.len()) =~= s@.subrange(s@.len() - p@.len(), s@.len() as int));
    }
    r
}

/// `str::contains` with a string pattern.
pub fn contains(s: &[char], p: &[char]) -> (r: bool)
    ensures
        r == contains_text(s@, p@),
{
    if p.len() > s.len() {
        return false;
    }
    let last = s.len() - p.len();
    let mut i: usize = 0;
    loop
        invariant
            p@.len() <= s@.len(),
            last == s@.len() - p@.len(),
            i <= last,
            forall|t: int| 0 <= t < i ==> !occurs_at(s@, p@, t),
        decreases last - i,
    {
        if occurs(s, p, i) {
            return true;
        }
        if i == last {
            return false;
        }
        i += 1;
    }
}

/// `str::find` with a character pattern.
pub fn find_char(s: &[char], c: char) -> (r: Option<usize>)
    ensures
        r matches Some(i) ==> first_index_of(s@, c) == Some(i as int),
        r is None ==> first_index_of(s@, c) is None,
{
    let mut i: usize = 0;
    while i < s.len()
        invariant
            i <= s@.len(),
            forall|j: int| 0 <= j < i ==> s@[j] != c,
        decreases s.len() - i,
    {
        if s[i] == c {
            let ghost w = choose|w: int| 0 <= w < s@.len() && s@[w] == c && forall|j: int|
                0 <= j < w ==> s@[j] != c;
            assert(0 <= i < s@.len() && s@[i as int] == c && forall|j: int|
                0 <= j < i ==> s@[j] != c);
            assert(w == i) by {
                if w < i {
                } else if w > i {
                }
            }
            return Some(i);
        }
        i += 1;
    }
    None
}

/// `str::rfind` with a character pattern.
pub fn rfind_char(s: &[char], c: char) -> (r: Option<usize>)
    ensures
        r matches Some(i) ==> last_index_of(s@, c) == Some(i as int),
        r is None ==> last_index_of(s@, c) is None,
{
    let mut b: usize = s.len();
    while b > 0
        invariant
            b <= s@.len(),
            forall|j: int| b <= j < s@.len() ==> s@[j] != c,
        decreases b,
    {
        if s[b - 1] == c {
            let i = b - 1;
            let ghost w = choose|w: int| 0 <= w < s@.len() && s@[w] == c && forall|j: int|
                w < j < s@.len() ==> s@[j] != c;
            assert(0 <= i < s@.len() && s@[i as int] == c && forall|j: int|
                i < j < s@.len() ==> s@[j] != c);
            assert(w == i) by {
                if w < i {
                } else if w > i {
                }
            }
            return Some(i);
        }
        b -= 1;
    }
    None
}

/// `str::to_ascii_lowercase`.
pub fn to_ascii_lower(s: &[char]) -> (r: Vec<char>)
    ensures
        r@ == ascii_lower(s@),
{
    let mut r: Vec<char> = Vec::new();
    let mut i: usize = 0;
    while i < s.len()
        invariant
            i <= s@.len(),
            r@ =~= ascii_lower(s@.take(i as int)),
        decreases s.len() - i,
    {
        let c = s[i];
        let d = if 'A' <= c && c <= 'Z' {
            proof {
                assert(('a' as u32) <= (c as u32) + 32 <= ('z' as u32));
            }
            char_from_u32_ascii((c as u32) + 32)
        } else {
            c
        };
        r.push(d);
        assert(s@.take(i + 1) =~= s@.take(i as int).push(c));
        i += 1;
    }
    assert(s@.take(s@.len() as int) =~= s@);
    r
}

fn char_from_u32_ascii(u: u32) -> (c: char)
    requires
        u < 128,
    ensures
        c == u as char,
{
    let b: u8 = u as u8;
    b as char
}

/// `str::parse::<u64>`.
pub fn parse_u64_text(s: &[char]) -> (r: Option<u64>)
    ensures
        r == parse_u64(s@),
{
    let start: usize = if s.len() > 0 && s[0] == '+' {
        1
    } else {
        0
    };
    let ghost d = if s@.len() > 0 && s@[0] == '+' {
        s@.drop_first()
    } else {
        s@
    };
    assert(d =~= s@.skip(start as int));
    if start == s.len() {
        return None;
    }
    let mut acc: u64 = 0;
    let mut i: usize = start;
    while i < s.len()
        invariant
            start <= i <= s@.len(),
            d =~= s@.skip(start as int),
            d == (if s@.len() > 0 && s@[0] == '+' {
                s@.drop_first()
            } else {
                s@
            }),
            all_digits(d.take(i - start)),
            acc as nat == decimal_value(d.take(i - start)),
        decreases s.len() - i,
    {
        let c = s[i];
        if !is_ascii_digit(c) {
            assert(!all_digits(d)) by {
                assert(d[i - start] == c);
            }
            return None;
        }
        let dv: u64 = (c as u32 - '0' as u32) as u64;
        assert(d.take(i - start + 1).drop_last() =~= d.take(i - start));
        assert(d.take(i - start + 1).last() == c);
        assert(all_digits(d.take(i - start + 1))) by {
            assert forall|j: int| 0 <= j < i - start + 1 implies is_digit(
                #[trigger] d.take(i - start + 1)[j],
            ) by {
                if j < i - start {
                    assert(d.take(i - start + 1)[j] == d.take(i - start)[j]);
                }
            }
        }
        match acc.checked_mul(10) {
            Some(m) => match m.checked_add(dv) {
                Some(n) => {
                    acc = n;
                },
                None => {
                    proof {
                        lemma_overflow_stays(d, i - start + 1);
                    }
                    return None;
                },
            },
            None => {
                proof {
                    lemma_overflow_stays(d, i - start + 1);
                }
                return None;
            },
        }
        i += 1;
    }
    assert(d.take(s@.len() - start) =~= d);
    Some(acc)
}

proof fn lemma_overflow_stays(d: Seq<char>, n: int)
    requires
        0 < n <= d.len(),
        all_digits(d.take(n)),
        decimal_value(d.take(n)) > u64::MAX,
    ensures
        parse_u64_all_digits_fails(d),
{
    if all_digits(d) {
        lemma_decimal_monotone(d, n);
    }
}

/// A digit string with a value beyond `u64` or with a non-digit is refused.
pub open spec fn parse_u64_all_digits_fails(d: Seq<char>) -> bool {
    !(all_digits(d) && decimal_value(d) <= u64::MAX)
}

/// Appends the decimal rendering of `n`.
pub fn push_decimal(n: u64, out: &mut Vec<char>)
    ensures
        final(out)@ == old(out)@ + decimal_text(n as nat),
    decreases n,
{
    if n >= 10 {
        push_decimal(n / 10, out);
    }
    let d: u8 = (n % 10) as u8;
    let c = (48u8 + d) as char;
    assert(c == digit_char((n % 10) as nat));
    out.push(c);
}

/// Appends the characters of a string slice.
pub fn push_str(out: &mut Vec<char>, s: &str)
    ensures
        final(out)@ == old(out)@ + s@,
{
    let cs = chars_of(s);
    push_all(out, &cs);
}

/// Appends characters.
pub fn push_all(out: &mut Vec<char>, s: &[char])
    ensures
        final(out)@ == old(out)@ + s@,
{
    let ghost start = out@;
    let mut i: usize = 0;
    while i < s.len()
        invariant
            i <= s@.len(),
            out@ == start + s@.take(i as int),
        decreases s.len() - i,
    {
        out.push(s[i]);
        assert(s@.take(i + 1) =~= s@.take(i as int).push(s@[i as int]));
        i += 1;
    }
    assert(s@.take(s@.len() as int) =~= s@);
}

} // verus!
