//! Properties of how requests and provider replies are read.
use vstd::prelude::*;
use crate::error::ErrorV;
use crate::intent::{parse_intent_of, IntentV};
use crate::laws::law_words_are_maximal_runs;
use crate::provider::{
    provider_intent_of, provider_version_error, provider_version_of, version_for_action_of,
    ProviderIntentV,
};
use crate::request::{
    has_no_separator, preset_of, requested_version_of, wants_default_of, wants_exit_of,
    wants_help_of, wants_install_of, wants_set_of, wants_uninstall_of, wants_use_of, words_of,
};
use crate::text::{
    ascii_lower, in_class, is_digit, is_plain_char, is_ws, leading, lemma_plain_prefix_bound,
    lowercase, plain_prefix_len, starts_with, trailing, trim_ws, CharClass,
};
use crate::version::{LtsTypeV, UserVersionV, VersionV};
use crate::words::{
    inline_end, inline_version_from, lts_latest, lts_word_version, starts_v_number, trim_version,
    word_version,
};

verus! {

/// A version that the provider writes decides the version of the action, whatever the `lts`
/// and `latest` flags say: it is what the written version (trimmed) reads as, or the action is
/// refused with that version and its parse error. The flags give the newest LTS line (before
/// the newest release) only when no version is written.
pub proof fn law_written_version_wins(p: ProviderIntentV, action: Seq<char>)
    ensures
        p.version is Some && trim_ws(p.version->0).len() > 0 ==> version_for_action_of(p, action)
            == match provider_version_of(trim_ws(p.version->0)) {
            Some(u) => Ok::<Option<UserVersionV>, ErrorV>(Some(u)),
            None => Err(
                ErrorV::AiProviderInvalidVersion {
                    action,
                    version: trim_ws(p.version->0),
                    source: provider_version_error(trim_ws(p.version->0)),
                },
            ),
        },
        (p.version is None || trim_ws(p.version->0).len() == 0)
            ==> version_for_action_of(p, action) == if p.lts {
            Ok::<Option<UserVersionV>, ErrorV>(Some(lts_latest()))
        } else if p.latest {
            Ok(Some(UserVersionV::Full(VersionV::Latest)))
        } else {
            Ok(None)
        },
        ascii_lower(trim_ws(p.action)) == "install"@ && p.version is Some && trim_ws(
            p.version->0,
        ).len() > 0 && provider_version_of(trim_ws(p.version->0)) is Some ==> provider_intent_of(p)
            == Ok::<IntentV, ErrorV>(
            IntentV::Install {
                version: provider_version_of(trim_ws(p.version->0)),
                use_after: p.use_after,
            },
        ),
{
    reveal_strlit("help");
    reveal_strlit("exit");
    reveal_strlit("switch_environment");
    reveal_strlit("check_environment");
    reveal_strlit("install");
    let a = ascii_lower(trim_ws(p.action));
    if a == "install"@ {
        assert(a.len() == 7 && "help"@.len() == 4 && "exit"@.len() == 4);
        assert(a != "switch_environment"@ && a != "check_environment"@);
    }
}

/// A request that speaks of the default, asks neither to use nor to install, and is not an
/// exit, help, preset or uninstall request: it sets the default to the version it names; with
/// none named, it shows the default, unless it asks to set it (a missing version).
pub proof fn law_default_takes_the_named_version(m: Seq<char>)
    requires
        trim_ws(m).len() > 0,
        !wants_exit_of(m),
        !wants_help_of(m),
        preset_of(m) is None,
        !wants_uninstall_of(m),
        wants_default_of(m),
        !wants_use_of(m),
        !wants_install_of(m),
    ensures
        requested_version_of(m) matches Some(v) ==> parse_intent_of(m) == Ok::<IntentV, ErrorV>(
            IntentV::Default { version: Some(v) },
        ),
        requested_version_of(m) is None && !wants_set_of(m) ==> parse_intent_of(m) == Ok::<
            IntentV,
            ErrorV,
        >(IntentV::Default { version: None }),
        requested_version_of(m) is None && wants_set_of(m) ==> parse_intent_of(m) == Err::<
            IntentV,
            ErrorV,
        >(ErrorV::MissingVersion { action: "set the default"@ }),
{
}

/// The characters that end a word.
pub open spec fn ends_a_word(c: char) -> bool {
    ||| is_ws(c)
    ||| c == ',' || c == ';' || c == ':' || c == '?' || c == '!' || c == '"' || c == '\''
    ||| c == '(' || c == ')' || c == '[' || c == ']' || c == '{' || c == '}'
    ||| c == '，' || c == '。' || c == '？' || c == '！' || c == '、' || c == '：' || c == '；'
}

/// No word of a text holds white space or punctuation: words end at white space and at
/// `, ; : ? ! " ' ( ) [ ] { }` and the full-width `， 。 ？ ！ 、 ： ；`.
pub proof fn law_words_hold_no_punctuation(text: Seq<char>)
    ensures
        forall|k: int, j: int|
            0 <= k < words_of(text).len() && 0 <= j < words_of(text)[k].len() ==> !ends_a_word(
                #[trigger] words_of(text)[k][j],
            ),
{
    law_words_are_maximal_runs(text);
    assert forall|k: int, j: int|
        0 <= k < words_of(text).len() && 0 <= j < words_of(text)[k].len() implies !ends_a_word(
        #[trigger] words_of(text)[k][j],
    ) by {
        assert(has_no_separator(words_of(text)[k]));
    }
}

proof fn lemma_leading_concat(x: Seq<char>, y: Seq<char>, k: CharClass)
    requires
        forall|i: int| 0 <= i < x.len() ==> in_class(k, #[trigger] x[i]),
    ensures
        leading(x + y, k) == x.len() + leading(y, k),
    decreases x.len(),
{
    if x.len() == 0 {
        assert(x + y =~= y);
    } else {
        assert((x + y).drop_first() =~= x.drop_first() + y);
        assert((x + y)[0] == x[0]);
        assert forall|i: int| 0 <= i < x.drop_first().len() implies in_class(
            k,
            #[trigger] x.drop_first()[i],
        ) by {
            assert(x.drop_first()[i] == x[i + 1]);
        }
        lemma_leading_concat(x.drop_first(), y, k);
    }
}

proof fn lemma_inline_skips_text(t: Seq<char>, i: int, p: int)
    requires
        0 <= i <= p < t.len(),
        forall|j: int| i <= j < p ==> !is_digit(#[trigger] t[j]) && !starts_v_number(t, j),
    ensures
        inline_version_from(t, i) == inline_version_from(t, p),
    decreases p - i,
{
    if i < p {
        assert(!is_digit(t[i]) && !starts_v_number(t, i));
        lemma_inline_skips_text(t, i + 1, p);
    }
}

/// A version written inline is read whole: in running text `a + r + b` where `a` holds no
/// digit, `r` is a run of digits and dots (with or without a `v` before it) and `b` does not
/// go on with a digit or a dot, the inline reader reads all of `r`, as the word `r` reads.
pub proof fn law_inline_version_is_read_whole(
    a: Seq<char>,
    d: Seq<char>,
    with_v: bool,
    b: Seq<char>,
)
    requires
        forall|i: int| 0 <= i < a.len() ==> !is_digit(#[trigger] a[i]),
        !with_v && a.len() > 0 ==> a.last() != 'v' && a.last() != 'V',
        d.len() > 0,
        is_digit(d[0]),
        forall|i: int| 0 <= i < d.len() ==> is_digit(#[trigger] d[i]) || d[i] == '.',
        b.len() > 0 ==> !is_digit(b[0]) && b[0] != '.',
        word_version(if with_v { seq!['v'] + d } else { d }) is Some,
    ensures
        inline_version_from(a + (if with_v { seq!['v'] + d } else { d }) + b, 0) == word_version(
            if with_v { seq!['v'] + d } else { d },
        ),
{
    let r = if with_v { seq!['v'] + d } else { d };
    let t = a + r + b;
    let p = a.len() as int;
    assert(t[p] == r[0]);
    assert forall|j: int| 0 <= j < p implies !is_digit(#[trigger] t[j]) && !starts_v_number(t, j) by {
        assert(t[j] == a[j]);
        if j + 1 < p {
            assert(t[j + 1] == a[j + 1]);
        } else {
            assert(t[j + 1] == r[0]);
            if with_v {
                assert(r[0] == 'v');
            } else {
                assert(a.last() == a[j]);
            }
        }
    }
    lemma_inline_skips_text(t, 0, p);
    let s0 = if with_v { p + 1 } else { p };
    if with_v {
        assert(t[p + 1] == r[1] && r[1] == d[0]);
        assert(starts_v_number(t, p));
    } else {
        assert(!starts_v_number(t, p));
    }
    assert(t.skip(s0) =~= d + b);
    lemma_leading_concat(d, b, CharClass::DigitOrDot);
    assert(leading(b, CharClass::DigitOrDot) == 0);
    assert(inline_end(t, p) == p + r.len());
    assert(t.subrange(p, p + r.len()) =~= r);
}

/// The text of an LTS word: `lts-<name>` or `lts/<name>`.
pub open spec fn lts_word(sep: char, n: Seq<char>) -> Seq<char> {
    seq!['l', 't', 's', sep] + n
}

/// The LTS line that a lowercase name stands for: the newest for `latest`, else the line of
/// that name.
pub open spec fn named_lts(n: Seq<char>) -> UserVersionV {
    UserVersionV::Full(
        VersionV::Lts(
            if n == "latest"@ {
                LtsTypeV::Latest
            } else {
                LtsTypeV::CodeName(n)
            },
        ),
    )
}

/// A word `lts-<name>` reads as `lts/<name>` does: the LTS line of that name (the newest for
/// `latest`), for any name of lowercase ASCII letters and digits.
pub proof fn law_lts_words_name_their_line(n: Seq<char>, sep: char)
    requires
        sep == '-' || sep == '/',
        n.len() > 0,
        forall|i: int| 0 <= i < n.len() ==> is_digit(#[trigger] n[i]) || ('a' <= n[i] && n[i] <= 'z'),
    ensures
        lts_word_version(lts_word(sep, n)) == Some(named_lts(n)),
        word_version(lts_word(sep, n)) == Some(named_lts(n)),
{
    reveal_strlit("lts");
    reveal_strlit("lts/");
    reveal_strlit("lts-");
    reveal_strlit("system");
    reveal_strlit("latest");
    reveal_strlit("newest");
    reveal_strlit("stable");
    reveal_strlit("node");
    reveal_strlit("nodejs");
    reveal_strlit("node.js");
    reveal_strlit("*");
    let t = lts_word(sep, n);
    assert(t[0] == 'l' && t[1] == 't' && t[2] == 's' && t[3] == sep);
    assert(t.last() == n.last());
    assert(trim_version(t) =~= t) by {
        assert(leading(t, CharClass::NotVersionChar) == 0);
        assert(trailing(t, CharClass::NotVersionChar) == 0);
    }
    assert(t != "lts"@);
    if sep == '-' {
        assert(t.take(4) =~= "lts-"@);
    } else {
        assert(t.take(4) =~= "lts/"@);
    }
    lemma_plain_prefix_bound(t);
    assert(plain_prefix_len(t) == t.len()) by {
        if plain_prefix_len(t) < t.len() {
            let k = plain_prefix_len(t) as int;
            if k >= 4 {
                assert(t[k] == n[k - 4]);
            }
            assert(is_plain_char(t[k]));
        }
    }
    assert(lowercase(t) =~= t) by {
        assert forall|i: int| 0 <= i < t.len() implies #[trigger] ascii_lower(t)[i] == t[i] by {
            if i >= 4 {
                assert(t[i] == n[i - 4]);
            }
        }
    }
    assert(lowercase(t) != "system"@);
    assert(t.skip(4) =~= n);
    assert(n != "*"@) by {
        if n == "*"@ {
            assert(n[0] == '*');
        }
    }
    assert(t != "latest"@ && t != "newest"@ && t != "stable"@) by {
        assert(t[1] == 't');
    }
    assert(!starts_with(t, "node.js"@) && !starts_with(t, "nodejs"@) && !starts_with(t, "node"@)) by {
        if starts_with(t, "node"@) {
            assert(t.take(4)[0] == 'n');
        }
        if starts_with(t, "nodejs"@) {
            assert(t.take(6)[0] == 'n');
        }
        if starts_with(t, "node.js"@) {
            assert(t.take(7)[0] == 'n');
        }
    }
}

} // verus!
