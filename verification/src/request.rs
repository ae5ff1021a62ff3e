//! A request in natural language, lowercased and split into words, and what it asks for.
use vstd::prelude::*;
use crate::intent::Preset;
use crate::text::{
    chars_of, contains, contains_text, is_whitespace, is_ws, same_text, to_lowercase, trim,
    trim_ws, lowercase,
};
use crate::version::{LtsType, UserVersion, UserVersionV, Version, VersionV};
use crate::words::{
    first_lts_word, first_version_word, inline_version_from, lts_latest, opt_view,
    parse_inline_numeric_version, parse_lts_version_token, parse_versionish_token,
};

verus! {

/// The characters that end a word.
pub open spec fn is_separator(c: char) -> bool {
    is_ws(c) || c == ',' || c == ';' || c == ':' || c == '?' || c == '!' || c == '"' || c == '\''
        || c == '(' || c == ')' || c == '[' || c == ']' || c == '{' || c == '}' || c == '，' || c
        == '。' || c == '？' || c == '！' || c == '、' || c == '：' || c == '；'
}

/// The words found so far in `text` and the word still being read.
pub open spec fn split_words(text: Seq<char>) -> (Seq<Seq<char>>, Seq<char>)
    decreases text.len(),
{
    if text.len() == 0 {
        (seq![], seq![])
    } else {
        let (done, cur) = split_words(text.drop_last());
        let ch = text.last();
        if is_separator(ch) {
            if cur.len() > 0 {
                (done.push(cur), seq![])
            } else {
                (done, seq![])
            }
        } else {
            (done, cur.push(ch))
        }
    }
}

/// The maximal runs of non-separator characters of `text`, in order.
pub open spec fn words_of(text: Seq<char>) -> Seq<Seq<char>> {
    let (done, cur) = split_words(text);
    if cur.len() > 0 {
        done.push(cur)
    } else {
        done
    }
}

/// The separators between the words found so far in `text`: one run before the first word,
/// one after each word (the last still growing while no word is being read).
pub open spec fn split_gaps(text: Seq<char>) -> Seq<Seq<char>>
    decreases text.len(),
{
    if text.len() == 0 {
        seq![seq![]]
    } else {
        let g = split_gaps(text.drop_last());
        let cur = split_words(text.drop_last()).1;
        let ch = text.last();
        if is_separator(ch) {
            if cur.len() > 0 {
                g.push(seq![ch])
            } else {
                g.update(g.len() - 1, g.last().push(ch))
            }
        } else {
            g
        }
    }
}

/// The runs of separators around the words of `text`: before the first word, between
/// consecutive words and after the last.
pub open spec fn gaps_of(text: Seq<char>) -> Seq<Seq<char>> {
    if split_words(text).1.len() > 0 {
        split_gaps(text).push(seq![])
    } else {
        split_gaps(text)
    }
}

/// `gaps[0] + words[0] + gaps[1] + ... + words[n - 1] + gaps[n]`.
pub open spec fn interleave(gaps: Seq<Seq<char>>, words: Seq<Seq<char>>) -> Seq<char>
    decreases words.len(),
{
    if words.len() == 0 || gaps.len() == 0 {
        if gaps.len() > 0 {
            gaps[0]
        } else {
            seq![]
        }
    } else {
        interleave(gaps.drop_last(), words.drop_last()) + words.last() + gaps.last()
    }
}

/// `text` with its separators taken out.
pub open spec fn without_separators(text: Seq<char>) -> Seq<char> {
    text.filter(|c: char| !is_separator(c))
}

/// No character of `t` is a separator.
pub open spec fn has_no_separator(t: Seq<char>) -> bool {
    forall|i: int| 0 <= i < t.len() ==> !is_separator(#[trigger] t[i])
}

/// Every character of `t` is a separator.
pub open spec fn all_separators(t: Seq<char>) -> bool {
    forall|i: int| 0 <= i < t.len() ==> is_separator(#[trigger] t[i])
}

pub open spec fn texts(v: Seq<Vec<char>>) -> Seq<Seq<char>> {
    v.map_values(|t: Vec<char>| t@)
}

pub open spec fn strs(v: Seq<&str>) -> Seq<Seq<char>> {
    v.map_values(|t: &str| t@)
}

/// The lowercased request.
pub open spec fn lower_of(m: Seq<char>) -> Seq<char> {
    lowercase(m)
}

/// The words of the lowercased request.
pub open spec fn tokens_of(m: Seq<char>) -> Seq<Seq<char>> {
    words_of(lower_of(m))
}

/// Some word of `m` is one of `words`.
pub open spec fn word_in(m: Seq<char>, words: Seq<&str>) -> bool {
    exists|i: int, j: int|
        0 <= i < tokens_of(m).len() && 0 <= j < words.len() && #[trigger] tokens_of(m)[i]
            == #[trigger] words[j]@
}

/// The lowercased `m` contains one of `phrases`.
pub open spec fn text_in(m: Seq<char>, phrases: Seq<&str>) -> bool {
    exists|j: int| 0 <= j < phrases.len() && contains_text(lower_of(m), #[trigger] phrases[j]@)
}

pub open spec fn wants_exit_of(m: Seq<char>) -> bool {
    word_in(m, ["exit", "quit", "bye"]@) || text_in(m, ["退出", "再见"]@)
}

pub open spec fn wants_help_of(m: Seq<char>) -> bool {
    word_in(m, ["help", "?"]@) || text_in(m, ["帮助", "怎么用"]@)
}

pub open spec fn preset_of(m: Seq<char>) -> Option<Preset> {
    if word_in(m, ["1"]@) || text_in(m, ["切换环境", "先切换", "switch environment"]@) {
        Some(Preset::SwitchEnvironment)
    } else if word_in(m, ["2"]@) || text_in(
        m,
        [
            "检查当前环境配置",
            "检查环境",
            "当前环境配置",
            "check current environment config",
            "check environment",
        ]@,
    ) {
        Some(Preset::CheckEnvironment)
    } else {
        None
    }
}

pub open spec fn wants_install_of(m: Seq<char>) -> bool {
    word_in(m, ["install", "download", "add"]@) || text_in(m, ["安装", "下载"]@)
}

pub open spec fn wants_use_of(m: Seq<char>) -> bool {
    word_in(m, ["use", "switch", "change", "activate", "select"]@) || text_in(
        m,
        ["使用", "切换", "换到", "切到", "启用"]@,
    )
}

pub open spec fn wants_uninstall_of(m: Seq<char>) -> bool {
    word_in(m, ["uninstall", "remove", "delete"]@) || text_in(m, ["卸载", "删除", "移除"]@)
}

pub open spec fn wants_default_of(m: Seq<char>) -> bool {
    word_in(m, ["default"]@) || text_in(m, ["默认"]@)
}

pub open spec fn wants_set_of(m: Seq<char>) -> bool {
    word_in(m, ["set", "make", "mark"]@) || text_in(m, ["设置", "设为", "改成"]@)
}

pub open spec fn wants_current_of(m: Seq<char>) -> bool {
    word_in(m, ["current", "active"]@) || text_in(
        m,
        ["what version", "which version", "currently using", "当前", "现在用", "正在用"]@,
    )
}

pub open spec fn wants_list_of(m: Seq<char>) -> bool {
    word_in(m, ["list", "ls"]@) || text_in(m, ["列出", "有哪些"]@) || (word_in(m, ["show"]@)
        && !wants_current_of(m))
}

pub open spec fn wants_remote_of(m: Seq<char>) -> bool {
    word_in(m, ["remote", "available", "downloadable"]@) || text_in(
        m,
        ["远程", "可安装", "可用"]@,
    )
}

pub open spec fn wants_latest_of(m: Seq<char>) -> bool {
    word_in(m, ["latest", "newest", "stable"]@) || text_in(m, ["最新"]@)
}

pub open spec fn wants_lts_of(m: Seq<char>) -> bool {
    word_in(m, ["lts"]@) || text_in(m, ["长期支持"]@)
}

pub open spec fn wants_system_of(m: Seq<char>) -> bool {
    word_in(m, ["system"]@) || text_in(m, ["系统"]@)
}

pub open spec fn wants_install_if_missing_of(m: Seq<char>) -> bool {
    text_in(
        m,
        [
            "if missing",
            "if needed",
            "when missing",
            "install it if",
            "没有就安装",
            "不存在就安装",
            "缺失",
        ]@,
    )
}

/// The version that the request names: an LTS line where it speaks of LTS, the newest release
/// where it speaks of the latest, the system Node.js where it speaks of the system, else the
/// first word that names a version, else the first version written inline.
pub open spec fn requested_version_of(m: Seq<char>) -> Option<UserVersionV> {
    if wants_lts_of(m) {
        match first_lts_word(tokens_of(m)) {
            Some(v) => Some(v),
            None => Some(lts_latest()),
        }
    } else if wants_latest_of(m) {
        Some(UserVersionV::Full(VersionV::Latest))
    } else if wants_system_of(m) {
        Some(UserVersionV::Full(VersionV::Bypassed))
    } else {
        match first_version_word(tokens_of(m)) {
            Some(v) => Some(v),
            None => inline_version_from(lower_of(m), 0),
        }
    }
}

/// `is_token_separator`.
pub fn is_token_separator(ch: char) -> (r: bool)
    ensures
        r == is_separator(ch),
{
    is_whitespace(ch) || ch == ',' || ch == ';' || ch == ':' || ch == '?' || ch == '!' || ch
        == '"' || ch == '\'' || ch == '(' || ch == ')' || ch == '[' || ch == ']' || ch == '{'
        || ch == '}' || ch == '，' || ch == '。' || ch == '？' || ch == '！' || ch == '、' || ch
        == '：' || ch == '；'
}

/// `tokenize`: the words of `text`.
pub fn tokenize(text: &[char]) -> (r: Vec<Vec<char>>)
    ensures
        texts(r@) == words_of(text@),
{
    let mut tokens: Vec<Vec<char>> = Vec::new();
    let mut current: Vec<char> = Vec::new();
    let mut i: usize = 0;
    while i < text.len()
        invariant
            i <= text@.len(),
            (texts(tokens@), current@) == split_words(text@.take(i as int)),
        decreases text.len() - i,
    {
        let ch = text[i];
        assert(text@.take(i + 1).drop_last() =~= text@.take(i as int));
        assert(text@.take(i + 1).last() == ch);
        let ghost before = tokens@;
        if is_token_separator(ch) {
            if current.len() > 0 {
                let word = current;
                current = Vec::new();
                tokens.push(word);
                assert(texts(tokens@) =~= texts(before).push(word@));
            }
        } else {
            current.push(ch);
        }
        i += 1;
    }
    assert(text@.take(text@.len() as int) =~= text@);
    if current.len() > 0 {
        let ghost before = tokens@;
        tokens.push(current);
        assert(texts(tokens@) =~= texts(before).push(current@));
    }
    tokens
}

/// A request, lowercased and split into words.
pub struct Request<'a> {
    original: &'a str,
    lower: Vec<char>,
    tokens: Vec<Vec<char>>,
}

impl<'a> View for Request<'a> {
    type V = Seq<char>;

    /// The request as it was written.
    closed spec fn view(&self) -> Seq<char> {
        self.original@
    }
}

impl<'a> Request<'a> {
    #[verifier::type_invariant]
    spec fn well_formed(self) -> bool {
        &&& self.lower@ == lower_of(self.original@)
        &&& texts(self.tokens@) == tokens_of(self.original@)
    }

    /// `Request::new`.
    pub fn new(original: &'a str) -> (r: Self)
        ensures
            r@ == original@,
    {
        let chars = chars_of(original);
        let lower = to_lowercase(&chars);
        let tokens = tokenize(&lower);
        Request { original, lower, tokens }
    }

    /// The request as it was written.
    pub fn original(&self) -> (r: &'a str)
        ensures
            r@ == self@,
    {
        self.original
    }

    /// `Request::is_empty`: nothing but white space.
    pub fn is_empty(&self) -> (r: bool)
        ensures
            r == (trim_ws(self@).len() == 0),
    {
        let chars = chars_of(self.original);
        trim(&chars).len() == 0
    }

    /// `Request::has_word`: some word of the request is one of `words`.
    pub fn has_word(&self, words: &[&str]) -> (r: bool)
        ensures
            r == word_in(self@, words@),
    {
        proof {
            use_type_invariant(self);
        }
        let ghost toks = tokens_of(self@);
        let mut i: usize = 0;
        while i < self.tokens.len()
            invariant
                i <= self.tokens@.len(),
                toks == texts(self.tokens@),
                toks == tokens_of(self@),
                forall|a: int, b: int|
                    0 <= a < i && 0 <= b < words@.len() ==> #[trigger] toks[a]
                        != #[trigger] words@[b]@,
            decreases self.tokens.len() - i,
        {
            let mut j: usize = 0;
            while j < words.len()
                invariant
                    i < self.tokens@.len(),
                    j <= words@.len(),
                    toks == texts(self.tokens@),
                    toks == tokens_of(self@),
                    forall|b: int| 0 <= b < j ==> toks[i as int] != #[trigger] words@[b]@,
                decreases words.len() - j,
            {
                let w = chars_of(words[j]);
                if same_text(&self.tokens[i], &w) {
                    assert(toks[i as int] == words@[j as int]@);
                    return true;
                }
                j += 1;
            }
            i += 1;
        }
        false
    }

    /// `Request::has_text`: the lowercased request contains one of `phrases`.
    pub fn has_text(&self, phrases: &[&str]) -> (r: bool)
        ensures
            r == text_in(self@, phrases@),
    {
        proof {
            use_type_invariant(self);
        }
        let mut j: usize = 0;
        while j < phrases.len()
            invariant
                j <= phrases@.len(),
                self.lower@ == lower_of(self@),
                forall|b: int|
                    0 <= b < j ==> !contains_text(lower_of(self@), #[trigger] phrases@[b]@),
            decreases phrases.len() - j,
        {
            let p = chars_of(phrases[j]);
            if contains(&self.lower, &p) {
                return true;
            }
            j += 1;
        }
        false
    }

    pub fn wants_exit(&self) -> (r: bool)
        ensures
            r == wants_exit_of(self@),
    {
        self.has_word(&["exit", "quit", "bye"]) || self.has_text(&["退出", "再见"])
    }

    pub fn wants_help(&self) -> (r: bool)
        ensures
            r == wants_help_of(self@),
    {
        self.has_word(&["help", "?"]) || self.has_text(&["帮助", "怎么用"])
    }

    /// `Request::preset`: which of the two presets the request asks for.
    pub fn preset(&self) -> (r: Option<Preset>)
        ensures
            r == preset_of(self@),
    {
        if self.has_word(&["1"]) || self.has_text(&["切换环境", "先切换", "switch environment"]) {
            Some(Preset::SwitchEnvironment)
        } else if self.has_word(&["2"]) || self.has_text(
            &[
                "检查当前环境配置",
                "检查环境",
                "当前环境配置",
                "check current environment config",
                "check environment",
            ],
        ) {
            Some(Preset::CheckEnvironment)
        } else {
            None
        }
    }

    pub fn wants_install(&self) -> (r: bool)
        ensures
            r == wants_install_of(self@),
    {
        self.has_word(&["install", "download", "add"]) || self.has_text(&["安装", "下载"])
    }

    pub fn wants_use(&self) -> (r: bool)
        ensures
            r == wants_use_of(self@),
    {
        self.has_word(&["use", "switch", "change", "activate", "select"]) || self.has_text(
            &["使用", "切换", "换到", "切到", "启用"],
        )
    }

    pub fn wants_uninstall(&self) -> (r: bool)
        ensures
            r == wants_uninstall_of(self@),
    {
        self.has_word(&["uninstall", "remove", "delete"]) || self.has_text(
            &["卸载", "删除", "移除"],
        )
    }

    pub fn wants_default(&self) -> (r: bool)
        ensures
            r == wants_default_of(self@),
    {
        self.has_word(&["default"]) || self.has_text(&["默认"])
    }

    pub fn wants_set(&self) -> (r: bool)
        ensures
            r == wants_set_of(self@),
    {
        self.has_word(&["set", "make", "mark"]) || self.has_text(&["设置", "设为", "改成"])
    }

    pub fn wants_current(&self) -> (r: bool)
        ensures
            r == wants_current_of(self@),
    {
        self.has_word(&["current", "active"]) || self.has_text(
            &["what version", "which version", "currently using", "当前", "现在用", "正在用"],
        )
    }

    pub fn wants_list(&self) -> (r: bool)
        ensures
            r == wants_list_of(self@),
    {
        self.has_word(&["list", "ls"]) || self.has_text(&["列出", "有哪些"]) || (self.has_word(
            &["show"],
        ) && !self.wants_current())
    }

    pub fn wants_remote(&self) -> (r: bool)
        ensures
            r == wants_remote_of(self@),
    {
        self.has_word(&["remote", "available", "downloadable"]) || self.has_text(
            &["远程", "可安装", "可用"],
        )
    }

    pub fn wants_latest(&self) -> (r: bool)
        ensures
            r == wants_latest_of(self@),
    {
        self.has_word(&["latest", "newest", "stable"]) || self.has_text(&["最新"])
    }

    pub fn wants_lts(&self) -> (r: bool)
        ensures
            r == wants_lts_of(self@),
    {
        self.has_word(&["lts"]) || self.has_text(&["长期支持"])
    }

    pub fn wants_system(&self) -> (r: bool)
        ensures
            r == wants_system_of(self@),
    {
        self.has_word(&["system"]) || self.has_text(&["系统"])
    }

    pub fn wants_install_if_missing(&self) -> (r: bool)
        ensures
            r == wants_install_if_missing_of(self@),
    {
        self.has_text(
            &[
                "if missing",
                "if needed",
                "when missing",
                "install it if",
                "没有就安装",
                "不存在就安装",
                "缺失",
            ],
        )
    }

    /// `Request::requested_version`.
    pub fn requested_version(&self) -> (r: Option<UserVersion>)
        ensures
            opt_view(r) == requested_version_of(self@),
    {
        proof {
            use_type_invariant(self);
        }
        assert(texts(self.tokens@).skip(0) =~= texts(self.tokens@));
        if self.wants_lts() {
            let mut i: usize = 0;
            while i < self.tokens.len()
                invariant
                    i <= self.tokens@.len(),
                    wants_lts_of(self@),
                    texts(self.tokens@) == tokens_of(self@),
                    first_lts_word(tokens_of(self@)) == first_lts_word(
                        texts(self.tokens@).skip(i as int),
                    ),
                decreases self.tokens.len() - i,
            {
                let ghost rest = texts(self.tokens@).skip(i as int);
                assert(rest[0] == self.tokens@[i as int]@);
                assert(rest.drop_first() =~= texts(self.tokens@).skip(i + 1));
                match parse_lts_version_token(&self.tokens[i]) {
                    Some(v) => {
                        return Some(v);
                    },
                    None => {},
                }
                i += 1;
            }
            assert(texts(self.tokens@).skip(self.tokens@.len() as int).len() == 0);
            return Some(UserVersion::Full(Version::Lts(LtsType::Latest)));
        }
        if self.wants_latest() {
            return Some(UserVersion::Full(Version::Latest));
        }
        if self.wants_system() {
            return Some(UserVersion::Full(Version::Bypassed));
        }
        let mut i: usize = 0;
        while i < self.tokens.len()
            invariant
                i <= self.tokens@.len(),
                !wants_lts_of(self@) && !wants_latest_of(self@) && !wants_system_of(self@),
                texts(self.tokens@) == tokens_of(self@),
                first_version_word(tokens_of(self@)) == first_version_word(
                    texts(self.tokens@).skip(i as int),
                ),
            decreases self.tokens.len() - i,
        {
            let ghost rest = texts(self.tokens@).skip(i as int);
            assert(rest[0] == self.tokens@[i as int]@);
            assert(rest.drop_first() =~= texts(self.tokens@).skip(i + 1));
            match parse_versionish_token(&self.tokens[i]) {
                Some(v) => {
                    return Some(v);
                },
                None => {},
            }
            i += 1;
        }
        assert(texts(self.tokens@).skip(self.tokens@.len() as int).len() == 0);
        parse_inline_numeric_version(&self.lower)
    }
}

} // verus!
