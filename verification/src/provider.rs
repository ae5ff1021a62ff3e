//! The OpenAI-compatible provider that reads the requests the local parser does not understand:
//! its configuration, its URL, its replies, and how an action it returns becomes an intent.
use vstd::prelude::*;
use vstd::utf8::encode_utf8;
use crate::error::{Error, ErrorV};
use crate::intent::{outcome, Intent, IntentV, Preset};
use crate::text::{
    ascii_lower, chars_of, ends_with, ends_with_text, find_char, first_index_of, last_index_of,
    push_all, push_str, rfind_char, same_text, starts_with, starts_with_text, string_from_chars,
    sub_chars, to_ascii_lower, trim, trim_both, trim_class, trim_end, trim_end_class, trim_ws,
    CharClass,
};
use crate::version::{
    user_version_of, version_error_of, LtsType, UserVersion, UserVersionV, Version, VersionV,
};
use crate::words::{lts_latest, ok_view, opt_view};

verus! {

/// The model used when `FNM_AI_MODEL` is not set.
pub const DEFAULT_AI_MODEL: &'static str = "kimi-k2.6";

/// The system prompt sent with every request to the provider.
pub const AI_SYSTEM_PROMPT: &'static str = r#"Translate natural-language Node.js version-management requests into one safe fnm action.
Return strict JSON only, with this schema:
{"action":"help|exit|switch_environment|check_environment|install|use|list_local|list_remote|current|default|uninstall","version":string|null,"install_if_missing":boolean,"use_after":boolean,"lts":boolean,"latest":boolean}
Rules:
- Never return shell commands or arbitrary text.
- Use only the allowed action names.
- Use check_environment for PATH, environment-variable, fnm config, or current setup checks.
- Use switch_environment when the user asks to apply the current project/default Node version.
- version can be null, a Node version like "20" or "20.14.0", "latest", "lts", "lts/iron", "system", or "default"."#;

/// Where and how to reach the provider.
#[derive(Debug)]
pub struct AiProviderConfig {
    pub base_url: String,
    pub api_key: String,
    pub model: String,
}

/// A setting as it is read from the environment: trimmed, and absent when blank.
pub open spec fn setting_of(raw: Option<Seq<char>>) -> Option<Seq<char>> {
    match raw {
        Some(v) => if trim_ws(v).len() > 0 {
            Some(trim_ws(v))
        } else {
            None
        },
        None => None,
    }
}

pub open spec fn str_view(v: Option<String>) -> Option<Seq<char>> {
    match v {
        Some(s) => Some(s@),
        None => None,
    }
}

/// `optional_env`, applied to the value that the environment holds (or `None`).
pub fn optional_env(value: Option<String>) -> (r: Option<String>)
    ensures
        str_view(r) == setting_of(str_view(value)),
{
    match value {
        Some(v) => {
            let t = trim(&chars_of(v.as_str()));
            if t.len() > 0 {
                Some(string_from_chars(&t))
            } else {
                None
            }
        },
        None => None,
    }
}

impl AiProviderConfig {
    /// `AiProviderConfig::from_env`, given the values of `FNM_AI_BASE_URL`, `FNM_AI_API_KEY`
    /// and `FNM_AI_MODEL`. With both the URL and the key set the provider is configured; with
    /// neither it is not; with one of them the configuration is refused.
    pub fn from_env(base_url: Option<String>, api_key: Option<String>, model: Option<String>) -> (r:
        Result<Option<Self>, Error>)
        ensures
            ({
                let b = setting_of(str_view(base_url));
                let k = setting_of(str_view(api_key));
                let m = setting_of(str_view(model));
                match r {
                    Ok(Some(c)) => b == Some(c.base_url@) && k == Some(c.api_key@) && c.model@ == (
                    match m {
                        Some(x) => x,
                        None => DEFAULT_AI_MODEL@,
                    }),
                    Ok(None) => b is None && k is None,
                    Err(e) => e@ == ErrorV::MissingAiProviderConfig && (b is Some) != (k is Some),
                }
            }),
    {
        let base_url = optional_env(base_url);
        let api_key = optional_env(api_key);
        let model = match optional_env(model) {
            Some(m) => m,
            None => string_from_chars(&chars_of(DEFAULT_AI_MODEL)),
        };
        match (base_url, api_key) {
            (Some(base_url), Some(api_key)) => Ok(Some(AiProviderConfig { base_url, api_key, model })),
            (None, None) => Ok(None),
            _ => Err(Error::MissingAiProviderConfig),
        }
    }
}

/// The URL of the chat/completions endpoint under `base`.
pub open spec fn completions_url_of(base: Seq<char>) -> Seq<char> {
    let b = trim_end(base, CharClass::Exactly('/'));
    if ends_with(b, "/chat/completions"@) {
        b
    } else {
        b + "/chat/completions"@
    }
}

/// `chat_completions_url`: the base URL without trailing slashes, with `/chat/completions`
/// appended unless it already ends so.
pub fn chat_completions_url(base_url: &str) -> (r: String)
    ensures
        r@ == completions_url_of(base_url@),
{
    let b = trim_end_class(&chars_of(base_url), CharClass::Exactly('/'));
    let suffix = chars_of("/chat/completions");
    if ends_with_text(&b, &suffix) {
        string_from_chars(&b)
    } else {
        let mut out = b;
        push_all(&mut out, &suffix);
        string_from_chars(&out)
    }
}

/// The number of bytes of the UTF-8 encoding of `c`.
pub open spec fn char_width(c: char) -> nat {
    if (c as u32) <= 0x7F {
        1
    } else if (c as u32) <= 0x7FF {
        2
    } else if (c as u32) <= 0xFFFF {
        3
    } else {
        4
    }
}

/// The number of bytes of the UTF-8 encoding of `s`.
pub open spec fn utf8_width(s: Seq<char>) -> nat
    decreases s.len(),
{
    if s.len() == 0 {
        0
    } else {
        char_width(s[0]) + utf8_width(s.drop_first())
    }
}

/// How many characters from the front of `s` fit in `budget` bytes.
pub open spec fn fit_count(s: Seq<char>, budget: int) -> nat
    decreases s.len(),
{
    if s.len() > 0 && char_width(s[0]) <= budget {
        1 + fit_count(s.drop_first(), budget - char_width(s[0]))
    } else {
        0
    }
}

/// The longest error text kept whole, in bytes.
pub open spec fn max_error_len() -> nat {
    500
}

/// A text as errors quote it: whole when its UTF-8 encoding has at most 500 bytes, else the
/// longest prefix of at most 500 bytes that ends on a character boundary, followed by `...`.
pub open spec fn truncated_of(v: Seq<char>) -> Seq<char> {
    if encode_utf8(v).len() <= max_error_len() {
        v
    } else {
        v.take(fit_count(v, max_error_len() as int) as int) + "..."@
    }
}

pub proof fn lemma_encode_len(s: Seq<char>)
    ensures
        encode_utf8(s).len() == utf8_width(s),
    decreases s.len(),
{
    broadcast use vstd::utf8::char_is_scalar;

    if s.len() > 0 {
        lemma_encode_len(s.drop_first());
        vstd::utf8::char_is_scalar(s[0]);
    }
}

pub proof fn lemma_width_take(s: Seq<char>, k: int)
    requires
        0 <= k < s.len(),
    ensures
        utf8_width(s.take(k + 1)) == utf8_width(s.take(k)) + char_width(s[k]),
    decreases k,
{
    if k > 0 {
        let t = s.drop_first();
        lemma_width_take(t, k - 1);
        assert(s.take(k + 1).drop_first() =~= t.take(k));
        assert(s.take(k).drop_first() =~= t.take(k - 1));
        assert(s.take(k + 1)[0] == s[0]);
        assert(s.take(k)[0] == s[0]);
        assert(t[k - 1] == s[k]);
        assert(utf8_width(s.take(k + 1)) == char_width(s[0]) + utf8_width(t.take(k)));
        assert(utf8_width(s.take(k)) == char_width(s[0]) + utf8_width(t.take(k - 1)));
    } else {
        assert(s.take(1).drop_first().len() == 0);
        assert(utf8_width(s.take(1).drop_first()) == 0);
        assert(s.take(1)[0] == s[0]);
        assert(utf8_width(s.take(0)) == 0);
    }
}

pub proof fn lemma_width_prefix(s: Seq<char>, k: int)
    requires
        0 <= k <= s.len(),
    ensures
        utf8_width(s.take(k)) <= utf8_width(s),
    decreases s.len() - k,
{
    if k < s.len() {
        lemma_width_take(s, k);
        lemma_width_prefix(s, k + 1);
    } else {
        assert(s.take(k) =~= s);
    }
}

/// The fitting prefix fits, and one character more would not.
pub proof fn lemma_fit_count(s: Seq<char>, budget: int)
    requires
        budget >= 0,
    ensures
        fit_count(s, budget) <= s.len(),
        utf8_width(s.take(fit_count(s, budget) as int)) <= budget,
        fit_count(s, budget) < s.len() ==> utf8_width(s.take(fit_count(s, budget) as int + 1))
            > budget,
    decreases s.len(),
{
    let n = fit_count(s, budget);
    if s.len() > 0 && char_width(s[0]) <= budget {
        let t = s.drop_first();
        let b2 = budget - char_width(s[0]);
        lemma_fit_count(t, b2);
        assert(s.take(n as int).drop_first() =~= t.take(n - 1));
        if n < s.len() {
            assert(s.take(n as int + 1).drop_first() =~= t.take(n as int));
        }
    } else {
        assert(s.take(0).len() == 0);
        if s.len() > 0 {
            assert(s.take(1).drop_first().len() == 0);
        }
    }
}

fn char_utf8_width(c: char) -> (r: usize)
    ensures
        r == char_width(c),
{
    let u = c as u32;
    if u <= 0x7F {
        1
    } else if u <= 0x7FF {
        2
    } else if u <= 0xFFFF {
        3
    } else {
        4
    }
}

/// `truncate_for_error`.
pub fn truncate_for_error(value: &str) -> (r: String)
    ensures
        r@ == truncated_of(value@),
{
    let chars = chars_of(value);
    let ghost v = value@;
    assert(v.skip(0) =~= v);
    let mut k: usize = 0;
    let mut used: usize = 0;
    while k < chars.len() && used + char_utf8_width(chars[k]) <= 500
        invariant
            chars@ == v,
            k <= chars@.len(),
            used <= 500,
            fit_count(v, 500) == k + fit_count(v.skip(k as int), 500 - used),
        decreases chars.len() - k,
    {
        let w = char_utf8_width(chars[k]);
        assert(v.skip(k as int).drop_first() =~= v.skip(k + 1));
        assert(v.skip(k as int)[0] == chars@[k as int]);
        used = used + w;
        k += 1;
    }
    proof {
        if k < chars@.len() {
            assert(v.skip(k as int)[0] == chars@[k as int]);
        } else {
            assert(v.skip(k as int).len() == 0);
        }
        lemma_fit_count(v, 500);
        lemma_encode_len(v);
        if fit_count(v, 500) < v.len() {
            lemma_width_prefix(v, fit_count(v, 500) as int + 1);
        } else {
            assert(v.take(v.len() as int) =~= v);
        }
    }
    if k == chars.len() {
        return value.to_owned();
    }
    let mut out = sub_chars(&chars, 0, k);
    push_str(&mut out, "...");
    string_from_chars(&out)
}

/// The JSON object in a reply: the trimmed reply where it starts with `{` and ends with `}`,
/// else the text from its first `{` to its last `}`, if the first comes before the last.
pub open spec fn json_object_of(content: Seq<char>) -> Option<Seq<char>> {
    let t = trim_ws(content);
    if t.len() > 0 && t[0] == '{' && t.last() == '}' {
        Some(t)
    } else {
        match (first_index_of(t, '{'), last_index_of(t, '}')) {
            (Some(s), Some(e)) => if s < e {
                Some(t.subrange(s, e + 1))
            } else {
                None
            },
            _ => None,
        }
    }
}

/// `extract_json_object`.
pub fn extract_json_object(content: &str) -> (r: Option<String>)
    ensures
        str_view(r) == json_object_of(content@),
{
    let t = trim(&chars_of(content));
    if t.len() > 0 && t[0] == '{' && t[t.len() - 1] == '}' {
        return Some(string_from_chars(&t));
    }
    let start = match find_char(&t, '{') {
        Some(s) => s,
        None => {
            return None;
        },
    };
    let end = match rfind_char(&t, '}') {
        Some(e) => e,
        None => {
            return None;
        },
    };
    proof {
        crate::text::lemma_index_of_bounds(t@, '{');
        crate::text::lemma_index_of_bounds(t@, '}');
    }
    if start < end {
        Some(string_from_chars(&sub_chars(&t, start, end + 1)))
    } else {
        None
    }
}

/// An action as the provider returns it.
#[derive(Debug)]
pub struct ProviderIntent {
    pub action: String,
    pub version: Option<String>,
    pub install_if_missing: bool,
    pub use_after: bool,
    pub lts: bool,
    pub latest: bool,
}

pub struct ProviderIntentV {
    pub action: Seq<char>,
    pub version: Option<Seq<char>>,
    pub install_if_missing: bool,
    pub use_after: bool,
    pub lts: bool,
    pub latest: bool,
}

impl View for ProviderIntent {
    type V = ProviderIntentV;

    open spec fn view(&self) -> ProviderIntentV {
        ProviderIntentV {
            action: self.action@,
            version: str_view(self.version),
            install_if_missing: self.install_if_missing,
            use_after: self.use_after,
            lts: self.lts,
            latest: self.latest,
        }
    }
}

/// A version as the provider writes it, normalized: trimmed, without surrounding quotes,
/// ASCII-lowercased.
pub open spec fn normalized_of(v: Seq<char>) -> Seq<char> {
    ascii_lower(trim_both(trim_ws(v), CharClass::Exactly('"')))
}

/// What a version that the provider writes stands for: the newest LTS line for `lts`,
/// `lts/latest`, `lts-latest`, `latest-lts` and `lts/*`, else what the version parser reads.
pub open spec fn provider_version_of(v: Seq<char>) -> Option<UserVersionV> {
    let n = normalized_of(v);
    if n == "lts"@ || n == "lts/latest"@ || n == "lts-latest"@ || n == "latest-lts"@ || n
        == "lts/*"@ {
        Some(lts_latest())
    } else {
        user_version_of(n)
    }
}

/// The error of reading a version that the provider writes, where it cannot be read: that of
/// `UserVersion::from_str` on the normalized text.
pub open spec fn provider_version_error(v: Seq<char>) -> node_semver::SemverError {
    version_error_of(normalized_of(v))
}

pub open spec fn version_is_empty_of(p: ProviderIntentV) -> bool {
    match p.version {
        Some(v) => trim_ws(v).len() == 0,
        None => true,
    }
}

pub open spec fn version_is_lts_of(p: ProviderIntentV) -> bool {
    match p.version {
        Some(v) => starts_with(normalized_of(v), "lts"@),
        None => false,
    }
}

pub open spec fn version_is_latest_of(p: ProviderIntentV) -> bool {
    match p.version {
        Some(v) => normalized_of(v) == "latest"@,
        None => false,
    }
}

/// The version an action of the provider asks for: the newest LTS line or the newest release
/// where the flags say so and no version is written, none where none is written, else the
/// written version, refused when it cannot be read.
pub open spec fn version_for_action_of(p: ProviderIntentV, action: Seq<char>) -> Result<
    Option<UserVersionV>,
    ErrorV,
> {
    if p.lts && version_is_empty_of(p) {
        Ok(Some(lts_latest()))
    } else if p.latest && version_is_empty_of(p) {
        Ok(Some(UserVersionV::Full(VersionV::Latest)))
    } else {
        match p.version {
            None => Ok(None),
            Some(v) => {
                let t = trim_ws(v);
                if t.len() == 0 {
                    Ok(None)
                } else {
                    match provider_version_of(t) {
                        Some(u) => Ok(Some(u)),
                        None => Err(
                            ErrorV::AiProviderInvalidVersion {
                                action,
                                version: t,
                                source: provider_version_error(t),
                            },
                        ),
                    }
                }
            },
        }
    }
}

/// The intent that an action of the provider stands for. Only the eleven action names of the
/// system prompt are accepted (after trimming and ASCII-lowercasing); any other is refused.
pub open spec fn provider_intent_of(p: ProviderIntentV) -> Result<IntentV, ErrorV> {
    let a = ascii_lower(trim_ws(p.action));
    if a == "help"@ {
        Ok(IntentV::Help)
    } else if a == "exit"@ {
        Ok(IntentV::Exit)
    } else if a == "switch_environment"@ {
        Ok(IntentV::Preset(Preset::SwitchEnvironment))
    } else if a == "check_environment"@ {
        Ok(IntentV::Preset(Preset::CheckEnvironment))
    } else if a == "install"@ {
        match version_for_action_of(p, "install"@) {
            Ok(v) => Ok(IntentV::Install { version: v, use_after: p.use_after }),
            Err(e) => Err(e),
        }
    } else if a == "use"@ {
        match version_for_action_of(p, "use"@) {
            Ok(v) => Ok(IntentV::Use { version: v, install_if_missing: p.install_if_missing }),
            Err(e) => Err(e),
        }
    } else if a == "list_local"@ {
        Ok(IntentV::ListLocal)
    } else if a == "list_remote"@ {
        Ok(
            IntentV::ListRemote {
                lts: p.lts || version_is_lts_of(p),
                latest: p.latest || version_is_latest_of(p),
            },
        )
    } else if a == "current"@ {
        Ok(IntentV::Current)
    } else if a == "default"@ {
        match version_for_action_of(p, "set the default"@) {
            Err(e) => Err(e),
            Ok(v) => if version_is_empty_of(p) {
                Ok(IntentV::Default { version: None })
            } else {
                match v {
                    Some(x) => Ok(IntentV::Default { version: Some(x) }),
                    None => Err(ErrorV::MissingVersion { action: "set the default"@ }),
                }
            },
        }
    } else if a == "uninstall"@ {
        match version_for_action_of(p, "uninstall"@) {
            Err(e) => Err(e),
            Ok(Some(x)) => Ok(IntentV::Uninstall { version: x }),
            Ok(None) => Err(ErrorV::MissingVersion { action: "uninstall"@ }),
        }
    } else {
        Err(ErrorV::AiProviderUnsupportedAction { action: p.action })
    }
}

pub open spec fn version_result(r: Result<Option<UserVersion>, Error>) -> Result<
    Option<UserVersionV>,
    ErrorV,
> {
    match r {
        Ok(v) => Ok(opt_view(v)),
        Err(e) => Err(e@),
    }
}

/// `normalize_provider_version`.
pub fn normalize_provider_version(version: &str) -> (r: String)
    ensures
        r@ == normalized_of(version@),
{
    let t = trim(&chars_of(version));
    let u = trim_class(&t, CharClass::Exactly('"'));
    string_from_chars(&to_ascii_lower(&u))
}

fn is_text(s: &[char], lit: &str) -> (r: bool)
    ensures
        r == (s@ == lit@),
{
    same_text(s, &chars_of(lit))
}

/// `parse_provider_version`.
pub fn parse_provider_version(version: &str) -> (r: Result<UserVersion, node_semver::SemverError>)
    ensures
        ok_view(r) == provider_version_of(version@),
        r is Err ==> r == Err::<UserVersion, node_semver::SemverError>(
            provider_version_error(version@),
        ),
{
    let n = chars_of(normalize_provider_version(version).as_str());
    if is_text(&n, "lts") || is_text(&n, "lts/latest") || is_text(&n, "lts-latest") || is_text(
        &n,
        "latest-lts",
    ) || is_text(&n, "lts/*") {
        Ok(UserVersion::Full(Version::Lts(LtsType::Latest)))
    } else {
        UserVersion::from_text(&n)
    }
}

impl ProviderIntent {
    /// `ProviderIntent::version_is_empty`.
    pub fn version_is_empty(&self) -> (r: bool)
        ensures
            r == version_is_empty_of(self@),
    {
        match &self.version {
            Some(v) => trim(&chars_of(v.as_str())).len() == 0,
            None => true,
        }
    }

    /// `ProviderIntent::version_is_lts`.
    pub fn version_is_lts(&self) -> (r: bool)
        ensures
            r == version_is_lts_of(self@),
    {
        match &self.version {
            Some(v) => {
                let n = chars_of(normalize_provider_version(v.as_str()).as_str());
                starts_with_text(&n, &chars_of("lts"))
            },
            None => false,
        }
    }

    /// `ProviderIntent::version_is_latest`.
    pub fn version_is_latest(&self) -> (r: bool)
        ensures
            r == version_is_latest_of(self@),
    {
        match &self.version {
            Some(v) => {
                let n = chars_of(normalize_provider_version(v.as_str()).as_str());
                is_text(&n, "latest")
            },
            None => false,
        }
    }

    /// `ProviderIntent::version_for_action`.
    pub fn version_for_action(&self, action: &'static str) -> (r: Result<
        Option<UserVersion>,
        Error,
    >)
        ensures
            version_result(r) == version_for_action_of(self@, action@),
    {
        if self.lts && self.version_is_empty() {
            return Ok(Some(UserVersion::Full(Version::Lts(LtsType::Latest))));
        }
        if self.latest && self.version_is_empty() {
            return Ok(Some(UserVersion::Full(Version::Latest)));
        }
        let v = match &self.version {
            Some(v) => v,
            None => {
                return Ok(None);
            },
        };
        let t = trim(&chars_of(v.as_str()));
        if t.len() == 0 {
            return Ok(None);
        }
        let trimmed = string_from_chars(&t);
        match parse_provider_version(trimmed.as_str()) {
            Ok(u) => Ok(Some(u)),
            Err(source) => Err(Error::AiProviderInvalidVersion { action, source, version: trimmed }),
        }
    }

    /// `ProviderIntent::try_into_intent`.
    pub fn try_into_intent(self) -> (r: Result<Intent, Error>)
        ensures
            outcome(r) == provider_intent_of(self@),
    {
        let a = to_ascii_lower(&trim(&chars_of(self.action.as_str())));
        if is_text(&a, "help") {
            Ok(Intent::Help)
        } else if is_text(&a, "exit") {
            Ok(Intent::Exit)
        } else if is_text(&a, "switch_environment") {
            Ok(Intent::Preset(Preset::SwitchEnvironment))
        } else if is_text(&a, "check_environment") {
            Ok(Intent::Preset(Preset::CheckEnvironment))
        } else if is_text(&a, "install") {
            match self.version_for_action("install") {
                Ok(version) => Ok(Intent::Install { version, use_after: self.use_after }),
                Err(e) => Err(e),
            }
        } else if is_text(&a, "use") {
            match self.version_for_action("use") {
                Ok(version) => Ok(Intent::Use { version, install_if_missing: self.install_if_missing }),
                Err(e) => Err(e),
            }
        } else if is_text(&a, "list_local") {
            Ok(Intent::ListLocal)
        } else if is_text(&a, "list_remote") {
            Ok(
                Intent::ListRemote {
                    lts: self.lts || self.version_is_lts(),
                    latest: self.latest || self.version_is_latest(),
                },
            )
        } else if is_text(&a, "current") {
            Ok(Intent::Current)
        } else if is_text(&a, "default") {
            match self.version_for_action("set the default") {
                Err(e) => Err(e),
                Ok(version) => {
                    if self.version_is_empty() {
                        Ok(Intent::Default { version: None })
                    } else {
                        match version {
                            Some(x) => Ok(Intent::Default { version: Some(x) }),
                            None => Err(Error::MissingVersion { action: "set the default" }),
                        }
                    }
                },
            }
        } else if is_text(&a, "uninstall") {
            match self.version_for_action("uninstall") {
                Err(e) => Err(e),
                Ok(Some(x)) => Ok(Intent::Uninstall { version: x }),
                Ok(None) => Err(Error::MissingVersion { action: "uninstall" }),
            }
        } else {
            Err(Error::AiProviderUnsupportedAction { action: self.action })
        }
    }
}

} // verus!
