//! Node.js versions as a user writes them: `20`, `v20.1`, `v8.11.3`, `lts/iron`, `latest`,
//! `system` or an alias.
use vstd::prelude::*;
use crate::text::{
    chars_of, count_leading, decimal_text, is_ascii_digit, is_digit, leading, lemma_leading_bound, parse_u64,
    parse_u64_text, push_decimal, push_str, same_text, starts_with, starts_with_text,
    string_from_chars, sub_chars, to_lowercase, trim, trim_start, trim_start_class, trim_ws,
    lowercase, CharClass,
};

verus! {

#[verifier::external_type_specification]
#[verifier::external_body]
pub struct ExSemverError(node_semver::SemverError);

/// A release line of long-term support.
#[derive(Debug)]
pub enum LtsType {
    /// `lts-*`, `lts/*`, `lts-latest`, `lts/latest`.
    Latest,
    /// `lts-erbium`, `lts/erbium`.
    CodeName(String),
}

/// A version as the version manager understands it.
#[derive(Debug)]
pub enum Version {
    /// A full semantic version, held as node-semver renders it (without a leading `v`).
    Semver(String),
    /// A long-term-support line.
    Lts(LtsType),
    /// A named alias such as `default`.
    Alias(String),
    /// The newest release.
    Latest,
    /// The Node.js installed on the system, outside the version manager.
    Bypassed,
}

/// What a user may ask for: a major line, a minor line, or a full version.
#[derive(Debug)]
pub enum UserVersion {
    OnlyMajor(u64),
    MajorMinor(u64, u64),
    Full(Version),
}

pub enum LtsTypeV {
    Latest,
    CodeName(Seq<char>),
}

pub enum VersionV {
    Semver(Seq<char>),
    Lts(LtsTypeV),
    Alias(Seq<char>),
    Latest,
    Bypassed,
}

pub enum UserVersionV {
    OnlyMajor(u64),
    MajorMinor(u64, u64),
    Full(VersionV),
}

impl View for LtsType {
    type V = LtsTypeV;

    open spec fn view(&self) -> LtsTypeV {
        match self {
            LtsType::Latest => LtsTypeV::Latest,
            LtsType::CodeName(s) => LtsTypeV::CodeName(s@),
        }
    }
}

impl View for Version {
    type V = VersionV;

    open spec fn view(&self) -> VersionV {
        match self {
            Version::Semver(s) => VersionV::Semver(s@),
            Version::Lts(l) => VersionV::Lts(l@),
            Version::Alias(s) => VersionV::Alias(s@),
            Version::Latest => VersionV::Latest,
            Version::Bypassed => VersionV::Bypassed,
        }
    }
}

impl View for UserVersion {
    type V = UserVersionV;

    open spec fn view(&self) -> UserVersionV {
        match self {
            UserVersion::OnlyMajor(a) => UserVersionV::OnlyMajor(*a),
            UserVersion::MajorMinor(a, b) => UserVersionV::MajorMinor(*a, *b),
            UserVersion::Full(v) => UserVersionV::Full(v@),
        }
    }
}

/// The text of the version that `node_semver::Version::parse` reads from `s`, as its
/// `Display` renders it; `None` where the parser refuses `s`.
pub uninterp spec fn semver_version_text(s: Seq<char>) -> Option<Seq<char>>;

/// The error that `node_semver::Version::parse` returns for `s` where it refuses `s` (the
/// input, the place and the kind of the failure, all read from `s`).
pub uninterp spec fn semver_error_of(s: Seq<char>) -> node_semver::SemverError;

/// `node_semver::Version::parse`. The contract names its outcome by `semver_version_text` and
/// `semver_error_of` and states nothing more of it: which strings the parser accepts, how it
/// renders them and how it describes a failure is left to the parser.
#[verifier::external_body]
fn parse_semver(s: &[char]) -> (r: Result<String, node_semver::SemverError>)
    ensures
        match r {
            Ok(t) => semver_version_text(s@) == Some(t@),
            Err(e) => semver_version_text(s@) is None && e == semver_error_of(s@),
        },
{
    let input: String = s.iter().collect();
    match node_semver::Version::parse(&input) {
        Ok(v) => Ok(v.to_string()),
        Err(e) => Err(e),
    }
}

/// `LtsType::from`: `*` and `latest` name the newest line, anything else a code name.
pub open spec fn lts_from(s: Seq<char>) -> LtsTypeV {
    if s == "*"@ || s == "latest"@ {
        LtsTypeV::Latest
    } else {
        LtsTypeV::CodeName(s)
    }
}

/// What `Version::parse` makes of `s`; `None` where a numeric version is refused by node-semver.
pub open spec fn version_of(s: Seq<char>) -> Option<VersionV> {
    let l = lowercase(s);
    if l == "system"@ {
        Some(VersionV::Bypassed)
    } else if starts_with(l, "lts-"@) || starts_with(l, "lts/"@) {
        Some(VersionV::Lts(lts_from(l.skip(4))))
    } else {
        let plain = trim_start(l, CharClass::Exactly('v'));
        if plain.len() > 0 && is_digit(plain[0]) {
            match semver_version_text(plain) {
                Some(t) => Some(VersionV::Semver(t)),
                None => None,
            }
        } else {
            Some(VersionV::Alias(l))
        }
    }
}

/// The error of `Version::parse` for `s` where it fails: node-semver's error for the lowercased
/// text without its leading `v`s.
pub open spec fn version_error_of(s: Seq<char>) -> node_semver::SemverError {
    semver_error_of(trim_start(lowercase(s), CharClass::Exactly('v')))
}

/// `s` without one leading `v`.
pub open spec fn skip_first_v(s: Seq<char>) -> Seq<char> {
    if s.len() > 0 && s[0] == 'v' {
        s.drop_first()
    } else {
        s
    }
}

/// The text before the first `.` (all of `s` where there is none).
pub open spec fn first_segment(s: Seq<char>) -> Seq<char> {
    s.take(leading(s, CharClass::NotDot) as int)
}

/// The text after the first `.`, if there is one.
pub open spec fn after_first_dot(s: Seq<char>) -> Option<Seq<char>> {
    let n = leading(s, CharClass::NotDot);
    if n < s.len() {
        Some(s.skip(n as int + 1))
    } else {
        None
    }
}

/// What `UserVersion::from_str` makes of `s`: a full version where `Version::parse` succeeds,
/// else a major (and minor) number read from the dot-separated start of `s`.
pub open spec fn user_version_of(s: Seq<char>) -> Option<UserVersionV> {
    match version_of(s) {
        Some(v) => Some(UserVersionV::Full(v)),
        None => {
            let p = skip_first_v(trim_ws(s));
            let major = parse_u64(first_segment(p));
            let minor = match after_first_dot(p) {
                Some(rest) => parse_u64(first_segment(rest)),
                None => None,
            };
            match (major, minor) {
                (Some(a), None) => Some(UserVersionV::OnlyMajor(a)),
                (Some(a), Some(b)) => Some(UserVersionV::MajorMinor(a, b)),
                _ => None,
            }
        }
    }
}

pub open spec fn lts_text(l: LtsTypeV) -> Seq<char> {
    match l {
        LtsTypeV::Latest => "latest"@,
        LtsTypeV::CodeName(s) => s,
    }
}

pub open spec fn version_text(v: VersionV) -> Seq<char> {
    match v {
        VersionV::Bypassed => "system"@,
        VersionV::Lts(l) => "lts-"@ + lts_text(l),
        VersionV::Semver(t) => "v"@ + t,
        VersionV::Alias(a) => a,
        VersionV::Latest => "latest"@,
    }
}

/// How a version is displayed: `v20.x.x`, `v20.1.x`, `v8.11.3`, `lts-latest`, `system`, ...
pub open spec fn user_version_text(u: UserVersionV) -> Seq<char> {
    match u {
        UserVersionV::OnlyMajor(a) => "v"@ + decimal_text(a as nat) + ".x.x"@,
        UserVersionV::MajorMinor(a, b) => "v"@ + decimal_text(a as nat) + "."@ + decimal_text(
            b as nat,
        ) + ".x"@,
        UserVersionV::Full(v) => version_text(v),
    }
}

impl LtsType {
    /// `LtsType::from(&str)`.
    pub fn from_text(s: &[char]) -> (r: LtsType)
        ensures
            r@ == lts_from(s@),
    {
        let star = chars_of("*");
        let latest = chars_of("latest");
        if same_text(s, &star) || same_text(s, &latest) {
            LtsType::Latest
        } else {
            LtsType::CodeName(string_from_chars(s))
        }
    }
}

impl Version {
    /// Reads a version; refused only where the text looks numeric and node-semver refuses it.
    pub fn parse(version_str: &[char]) -> (r: Result<Version, node_semver::SemverError>)
        ensures
            match version_of(version_str@) {
                Some(v) => r matches Ok(x) && x@ == v,
                None => r == Err::<Version, node_semver::SemverError>(version_error_of(version_str@)),
            },
    {
        let l = to_lowercase(version_str);
        let system = chars_of("system");
        let lts_dash = chars_of("lts-");
        let lts_slash = chars_of("lts/");
        if same_text(&l, &system) {
            Ok(Version::Bypassed)
        } else if starts_with_text(&l, &lts_dash) || starts_with_text(&l, &lts_slash) {
            proof {
                reveal_strlit("lts-");
                reveal_strlit("lts/");
            }
            let rest = sub_chars(&l, 4, l.len());
            Ok(Version::Lts(LtsType::from_text(&rest)))
        } else {
            let plain = trim_start_class(&l, CharClass::Exactly('v'));
            if plain.len() > 0 && is_ascii_digit(plain[0]) {
                match parse_semver(&plain) {
                    Ok(t) => Ok(Version::Semver(t)),
                    Err(e) => Err(e),
                }
            } else {
                Ok(Version::Alias(string_from_chars(&l)))
            }
        }
    }

    /// The display text of the version.
    pub fn to_text(&self, out: &mut Vec<char>)
        ensures
            final(out)@ == old(out)@ + version_text(self@),
    {
        match self {
            Version::Bypassed => push_str(out, "system"),
            Version::Lts(l) => {
                push_str(out, "lts-");
                match l {
                    LtsType::Latest => push_str(out, "latest"),
                    LtsType::CodeName(s) => push_str(out, s.as_str()),
                }
                assert(out@ =~= old(out)@ + version_text(self@));
            },
            Version::Semver(t) => {
                push_str(out, "v");
                push_str(out, t.as_str());
                assert(out@ =~= old(out)@ + version_text(self@));
            },
            Version::Alias(a) => push_str(out, a.as_str()),
            Version::Latest => push_str(out, "latest"),
        }
    }
}

impl UserVersion {
    /// `UserVersion::from_str`.
    pub fn from_text(s: &[char]) -> (r: Result<UserVersion, node_semver::SemverError>)
        ensures
            match user_version_of(s@) {
                Some(u) => r matches Ok(x) && x@ == u,
                None => r == Err::<UserVersion, node_semver::SemverError>(version_error_of(s@)),
            },
    {
        match Version::parse(s) {
            Ok(v) => Ok(UserVersion::Full(v)),
            Err(e) => {
                let t = trim(s);
                let p = if t.len() > 0 && t[0] == 'v' {
                    sub_chars(&t, 1, t.len())
                } else {
                    t
                };
                assert(p@ == skip_first_v(trim_ws(s@)));
                let n = count_leading(&p, CharClass::NotDot);
                proof {
                    lemma_leading_bound(p@, CharClass::NotDot);
                }
                let seg0 = sub_chars(&p, 0, n);
                let major = parse_u64_text(&seg0);
                let minor = if n < p.len() {
                    let rest = sub_chars(&p, n + 1, p.len());
                    let m = count_leading(&rest, CharClass::NotDot);
                    proof {
                        lemma_leading_bound(rest@, CharClass::NotDot);
                    }
                    let seg1 = sub_chars(&rest, 0, m);
                    parse_u64_text(&seg1)
                } else {
                    None
                };
                match (major, minor) {
                    (Some(a), None) => Ok(UserVersion::OnlyMajor(a)),
                    (Some(a), Some(b)) => Ok(UserVersion::MajorMinor(a, b)),
                    _ => Err(e),
                }
            },
        }
    }

    /// The display text of the version, as `Display` renders it.
    pub fn to_string(&self) -> (r: String)
        ensures
            r@ == user_version_text(self@),
    {
        let mut out: Vec<char> = Vec::new();
        match self {
            UserVersion::OnlyMajor(a) => {
                push_str(&mut out, "v");
                push_decimal(*a, &mut out);
                push_str(&mut out, ".x.x");
            },
            UserVersion::MajorMinor(a, b) => {
                push_str(&mut out, "v");
                push_decimal(*a, &mut out);
                push_str(&mut out, ".");
                push_decimal(*b, &mut out);
                push_str(&mut out, ".x");
            },
            UserVersion::Full(v) => v.to_text(&mut out),
        }
        assert(out@ =~= user_version_text(self@));
        string_from_chars(&out)
    }
}

} // verus!
