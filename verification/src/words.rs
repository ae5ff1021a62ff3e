//! Reading a version out of one word of a request, or out of free text.
use vstd::prelude::*;
use crate::text::{
    chars_of, class_has, count_leading, ends_with, in_class, is_ascii_alnum, is_ascii_digit,
    is_digit, leading, lemma_leading_bound, same_text, starts_with, starts_with_text, sub_chars,
    trim_both, trim_class, trim_start, trim_start_class, CharClass,
};
use crate::version::{
    skip_first_v, user_version_of, LtsType, LtsTypeV, UserVersion, UserVersionV, Version,
    VersionV,
};

verus! {

/// The view of an optional version.
pub open spec fn opt_view(r: Option<UserVersion>) -> Option<UserVersionV> {
    match r {
        Some(x) => Some(x@),
        None => None,
    }
}

/// The version that a successful parse gives, if any.
pub open spec fn ok_view<E>(r: Result<UserVersion, E>) -> Option<UserVersionV> {
    match r {
        Ok(x) => Some(x@),
        Err(_) => None,
    }
}

pub open spec fn lts_latest() -> UserVersionV {
    UserVersionV::Full(VersionV::Lts(LtsTypeV::Latest))
}

/// A word stripped of surrounding characters that cannot be part of a version.
pub open spec fn trim_version(t: Seq<char>) -> Seq<char> {
    trim_both(t, CharClass::NotVersionChar)
}

/// The version that an `lts`, `lts/<name>` or `lts-<name>` word asks for.
pub open spec fn lts_word_version(token: Seq<char>) -> Option<UserVersionV> {
    let t = trim_version(token);
    if t == "lts"@ {
        Some(lts_latest())
    } else if starts_with(t, "lts/"@) || starts_with(t, "lts-"@) {
        user_version_of(t)
    } else {
        None
    }
}

/// A word that looks like a numeric version: an optional `v`, then a digit, then only ASCII
/// letters and digits, `.` and `*`.
pub open spec fn numeric_like(t: Seq<char>) -> bool {
    let plain = skip_first_v(t);
    &&& plain.len() > 0
    &&& is_digit(plain[0])
    &&& forall|i: int|
        0 <= i < plain.len() ==> is_ascii_alnum(#[trigger] plain[i]) || plain[i] == '.'
            || plain[i] == '*'
}

/// What follows `prefix` (and any `-` or `_`), when that is a numeric version.
pub open spec fn rest_after(t: Seq<char>, prefix: Seq<char>) -> Option<Seq<char>> {
    if starts_with(t, prefix) {
        let rest = trim_start(t.skip(prefix.len() as int), CharClass::DashOrUnderscore);
        if numeric_like(rest) {
            Some(rest)
        } else {
            None
        }
    } else {
        None
    }
}

/// A word such as `node20`, `node-20` or `nodejs_20` without its `node.js`/`nodejs`/`node`
/// prefix.
pub open spec fn strip_node(t: Seq<char>) -> Option<Seq<char>> {
    match rest_after(t, "node.js"@) {
        Some(r) => Some(r),
        None => match rest_after(t, "nodejs"@) {
            Some(r) => Some(r),
            None => rest_after(t, "node"@),
        },
    }
}

/// The version that one word names, if any.
pub open spec fn word_version(token: Seq<char>) -> Option<UserVersionV> {
    let t0 = trim_version(token);
    let t = match strip_node(t0) {
        Some(r) => r,
        None => t0,
    };
    if t == "latest"@ || t == "newest"@ || t == "stable"@ {
        Some(UserVersionV::Full(VersionV::Latest))
    } else if t == "system"@ {
        Some(UserVersionV::Full(VersionV::Bypassed))
    } else {
        match lts_word_version(t) {
            Some(v) => Some(v),
            None => if numeric_like(t) {
                user_version_of(t)
            } else {
                None
            },
        }
    }
}

/// The first word that names an LTS line.
pub open spec fn first_lts_word(tokens: Seq<Seq<char>>) -> Option<UserVersionV>
    decreases tokens.len(),
{
    if tokens.len() == 0 {
        None
    } else {
        match lts_word_version(tokens[0]) {
            Some(v) => Some(v),
            None => first_lts_word(tokens.drop_first()),
        }
    }
}

/// The first word that names a version.
pub open spec fn first_version_word(tokens: Seq<Seq<char>>) -> Option<UserVersionV>
    decreases tokens.len(),
{
    if tokens.len() == 0 {
        None
    } else {
        match word_version(tokens[0]) {
            Some(v) => Some(v),
            None => first_version_word(tokens.drop_first()),
        }
    }
}

/// Whether a version written inline starts at `i`: a digit, or `v`/`V` before a digit.
pub open spec fn starts_v_number(t: Seq<char>, i: int) -> bool {
    (t[i] == 'v' || t[i] == 'V') && i + 1 < t.len() && is_digit(t[i + 1])
}

/// Where the inline version that starts at `i` ends: after its digits and dots.
pub open spec fn inline_end(t: Seq<char>, i: int) -> int {
    let s0 = if starts_v_number(t, i) {
        i + 1
    } else {
        i
    };
    s0 + leading(t.skip(s0), CharClass::DigitOrDot)
}

/// The first version written inline in `t` from position `i` on, such as `v8.11.3` in
/// `安装v8.11.3`. A candidate that does not read as a version is skipped together with the
/// character after it.
pub open spec fn inline_version_from(t: Seq<char>, i: int) -> Option<UserVersionV>
    decreases t.len() + 1 - i,
{
    if i < 0 || i >= t.len() {
        None
    } else if starts_v_number(t, i) || is_digit(t[i]) {
        let e = inline_end(t, i);
        if e < i || e > t.len() {
            None
        } else {
            match word_version(t.subrange(i, e)) {
                Some(v) => Some(v),
                None => inline_version_from(t, e + 1),
            }
        }
    } else {
        inline_version_from(t, i + 1)
    }
}

pub proof fn lemma_inline_end(t: Seq<char>, i: int)
    requires
        0 <= i < t.len(),
        starts_v_number(t, i) || is_digit(t[i]),
    ensures
        i < inline_end(t, i) <= t.len(),
{
    let s0 = if starts_v_number(t, i) {
        i + 1
    } else {
        i
    };
    lemma_leading_bound(t.skip(s0), CharClass::DigitOrDot);
    if !starts_v_number(t, i) {
        assert(t.skip(s0)[0] == t[i]);
    }
}

/// `trim_version_token`.
pub fn trim_version_token(token: &[char]) -> (r: Vec<char>)
    ensures
        r@ == trim_version(token@),
{
    trim_class(token, CharClass::NotVersionChar)
}

/// `looks_like_numeric_version`.
pub fn looks_like_numeric_version(token: &[char]) -> (r: bool)
    ensures
        r == numeric_like(token@),
{
    let start: usize = if token.len() > 0 && token[0] == 'v' {
        1
    } else {
        0
    };
    let ghost plain = skip_first_v(token@);
    assert(plain =~= token@.skip(start as int));
    if start >= token.len() {
        return false;
    }
    if !is_ascii_digit(token[start]) {
        assert(plain[0] == token@[start as int]);
        return false;
    }
    let mut i = start;
    while i < token.len()
        invariant
            start <= i <= token@.len(),
            plain == skip_first_v(token@),
            plain =~= token@.skip(start as int),
            forall|j: int|
                0 <= j < i - start ==> is_ascii_alnum(#[trigger] plain[j]) || plain[j] == '.'
                    || plain[j] == '*',
        decreases token.len() - i,
    {
        let c = token[i];
        if !(crate::text::is_alnum(c) || c == '.' || c == '*') {
            assert(plain[i - start] == c);
            return false;
        }
        i += 1;
    }
    true
}

/// The rest of `token` after `prefix`, when it is a numeric version.
fn rest_after_prefix(token: &[char], prefix: &str) -> (r: Option<Vec<char>>)
    ensures
        match rest_after(token@, prefix@) {
            Some(x) => r matches Some(y) && y@ == x,
            None => r is None,
        },
{
    let p = chars_of(prefix);
    if !starts_with_text(token, &p) {
        return None;
    }
    let rest0 = sub_chars(token, p.len(), token.len());
    let rest = trim_start_class(&rest0, CharClass::DashOrUnderscore);
    if looks_like_numeric_version(&rest) {
        Some(rest)
    } else {
        None
    }
}

/// `strip_node_prefix`.
pub fn strip_node_prefix(token: &[char]) -> (r: Option<Vec<char>>)
    ensures
        match strip_node(token@) {
            Some(x) => r matches Some(y) && y@ == x,
            None => r is None,
        },
{
    match rest_after_prefix(token, "node.js") {
        Some(r) => Some(r),
        None => match rest_after_prefix(token, "nodejs") {
            Some(r) => Some(r),
            None => rest_after_prefix(token, "node"),
        },
    }
}

/// `parse_lts_version_token`.
pub fn parse_lts_version_token(token: &[char]) -> (r: Option<UserVersion>)
    ensures
        opt_view(r) == lts_word_version(token@),
{
    let t = trim_version_token(token);
    let lts = chars_of("lts");
    if same_text(&t, &lts) {
        return Some(UserVersion::Full(Version::Lts(LtsType::Latest)));
    }
    let slash = chars_of("lts/");
    let dash = chars_of("lts-");
    if starts_with_text(&t, &slash) || starts_with_text(&t, &dash) {
        match UserVersion::from_text(&t) {
            Ok(v) => Some(v),
            Err(_) => None,
        }
    } else {
        None
    }
}

/// `parse_versionish_token`.
pub fn parse_versionish_token(token: &[char]) -> (r: Option<UserVersion>)
    ensures
        opt_view(r) == word_version(token@),
{
    let t0 = trim_version_token(token);
    let t = match strip_node_prefix(&t0) {
        Some(r) => r,
        None => t0,
    };
    let latest = chars_of("latest");
    let newest = chars_of("newest");
    let stable = chars_of("stable");
    let system = chars_of("system");
    if same_text(&t, &latest) || same_text(&t, &newest) || same_text(&t, &stable) {
        return Some(UserVersion::Full(Version::Latest));
    }
    if same_text(&t, &system) {
        return Some(UserVersion::Full(Version::Bypassed));
    }
    match parse_lts_version_token(&t) {
        Some(v) => Some(v),
        None => {
            if looks_like_numeric_version(&t) {
                match UserVersion::from_text(&t) {
                    Ok(v) => Some(v),
                    Err(_) => None,
                }
            } else {
                None
            }
        },
    }
}

/// `parse_inline_numeric_version`: the first version written inline in `text`.
pub fn parse_inline_numeric_version(text: &[char]) -> (r: Option<UserVersion>)
    ensures
        opt_view(r) == inline_version_from(text@, 0),
{
    let n = text.len();
    let mut index: usize = 0;
    while index < n
        invariant
            n == text@.len(),
            index <= n,
            inline_version_from(text@, 0) == inline_version_from(text@, index as int),
        decreases n - index,
    {
        let c = text[index];
        let starts_with_v = (c == 'v' || c == 'V') && index + 1 < n && is_ascii_digit(
            text[index + 1],
        );
        let starts_with_digit = is_ascii_digit(c);
        if starts_with_v || starts_with_digit {
            let start = index;
            let s0 = if starts_with_v {
                index + 1
            } else {
                index
            };
            let tail = sub_chars(text, s0, n);
            let run = count_leading(&tail, CharClass::DigitOrDot);
            proof {
                lemma_inline_end(text@, index as int);
                lemma_leading_bound(tail@, CharClass::DigitOrDot);
            }
            let end = s0 + run;
            assert(tail@ =~= text@.skip(s0 as int));
            assert(end == inline_end(text@, index as int));
            let candidate = sub_chars(text, start, end);
            match parse_versionish_token(&candidate) {
                Some(v) => {
                    return Some(v);
                },
                None => {},
            }
            if end >= n {
                assert(inline_version_from(text@, end as int + 1) is None);
                return None;
            }
            index = end + 1;
        } else {
            index += 1;
        }
    }
    None
}

} // verus!
