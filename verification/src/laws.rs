//! Properties of the assistant as a whole.
use vstd::prelude::*;
use vstd::utf8::encode_utf8;
use crate::error::ErrorV;
use crate::intent::{parse_intent_of, IntentV};
use crate::provider::{
    completions_url_of, fit_count, json_object_of, lemma_encode_len, lemma_fit_count,
    max_error_len, normalized_of, provider_intent_of, truncated_of, utf8_width,
    version_is_empty_of, ProviderIntentV,
};
use crate::request::{
    all_separators, gaps_of, has_no_separator, interleave, is_separator, requested_version_of,
    split_gaps, split_words, tokens_of, wants_exit_of, wants_lts_of, without_separators, words_of,
};
use crate::version::{UserVersionV, VersionV};
use crate::words::{first_lts_word, lts_word_version, trim_version};
use crate::text::{
    ascii_upper, ascii_upper_char, in_class, trim_start, trim_both,
    ascii_lower, contains_text, ends_with, first_index_of, last_index_of, leading,
    lemma_index_of_bounds, lemma_leading_bound, lemma_trailing_bound, occurs_at, trailing,
    trim_end, trim_ws, lowercase, CharClass, ascii_lower_char, is_plain_char,
    lemma_plain_prefix_bound, plain_prefix_len, starts_with, unicode_lowercase,
};

verus! {

/// The action names that the provider may return.
pub open spec fn is_allowed_action(a: Seq<char>) -> bool {
    ||| a == "help"@
    ||| a == "exit"@
    ||| a == "switch_environment"@
    ||| a == "check_environment"@
    ||| a == "install"@
    ||| a == "use"@
    ||| a == "list_local"@
    ||| a == "list_remote"@
    ||| a == "current"@
    ||| a == "default"@
    ||| a == "uninstall"@
}

/// Whatever the provider returns, it becomes one of the fixed actions or is refused: an
/// intent comes only from one of the eleven allowed action names, and any other name is
/// refused as an unsupported action that quotes it.
pub proof fn law_provider_actions_are_fixed(p: ProviderIntentV)
    ensures
        provider_intent_of(p) is Ok ==> is_allowed_action(ascii_lower(trim_ws(p.action))),
        !is_allowed_action(ascii_lower(trim_ws(p.action))) ==> provider_intent_of(p) == Err::<
            IntentV,
            ErrorV,
        >(ErrorV::AiProviderUnsupportedAction { action: p.action }),
{
}

/// How the provider's version-dependent actions turn out: `uninstall` without a version (and
/// without the LTS or latest flag) is refused as a missing version; `default` without a version
/// sets no version whatever the flags say; `list_remote` always succeeds and asks for LTS or
/// latest lines where the flags or the written version say so.
pub proof fn law_provider_version_actions(p: ProviderIntentV)
    ensures
        ascii_lower(trim_ws(p.action)) == "uninstall"@ && version_is_empty_of(p) && !p.lts
            && !p.latest ==> provider_intent_of(p) == Err::<IntentV, ErrorV>(
            ErrorV::MissingVersion { action: "uninstall"@ },
        ),
        ascii_lower(trim_ws(p.action)) == "default"@ && version_is_empty_of(p) ==> provider_intent_of(
            p,
        ) == Ok::<IntentV, ErrorV>(IntentV::Default { version: None }),
        ascii_lower(trim_ws(p.action)) == "list_remote"@ ==> provider_intent_of(p) == Ok::<
            IntentV,
            ErrorV,
        >(
            IntentV::ListRemote {
                lts: p.lts || (p.version matches Some(v) && starts_with(normalized_of(v), "lts"@)),
                latest: p.latest || (p.version matches Some(v) && normalized_of(v) == "latest"@),
            },
        ),
{
    reveal_strlit("help");
    reveal_strlit("exit");
    reveal_strlit("switch_environment");
    reveal_strlit("check_environment");
    reveal_strlit("install");
    reveal_strlit("use");
    reveal_strlit("list_local");
    reveal_strlit("list_remote");
    reveal_strlit("current");
    reveal_strlit("default");
    reveal_strlit("uninstall");
    let a = ascii_lower(trim_ws(p.action));
    if a == "uninstall"@ || a == "default"@ {
        assert(a.len() == 9 ==> a[0] == 'u');
        assert(a.len() == 7 ==> a[0] == 'd');
        assert(a != "help"@ && a != "exit"@ && a != "use"@);
        assert(a != "install"@ && a != "current"@ && a != "list_local"@ && a != "list_remote"@);
        assert(a != "switch_environment"@ && a != "check_environment"@);
    }
    if a == "list_remote"@ {
        assert(a.len() == 11 && "help"@.len() == 4 && "exit"@.len() == 4 && "use"@.len() == 3);
        assert("install"@.len() == 7 && "current"@.len() == 7 && "list_local"@.len() == 10);
        assert("default"@.len() == 7);
        assert(a != "help"@ && a != "exit"@ && a != "use"@ && a != "install"@);
        assert(a != "current"@ && a != "list_local"@ && a != "default"@);
        assert(a != "switch_environment"@ && a != "check_environment"@);
    }
}

/// A request that asks to exit (and is not blank) always exits, whatever else it says.
pub proof fn law_exit_wins(m: Seq<char>)
    requires
        trim_ws(m).len() > 0,
        wants_exit_of(m),
    ensures
        parse_intent_of(m) == Ok::<IntentV, ErrorV>(IntentV::Exit),
{
}

/// The local parser fails only in three ways: a blank request, a missing version, or a
/// request it does not understand (the case handed to the provider).
pub proof fn law_local_errors(m: Seq<char>)
    ensures
        parse_intent_of(m) matches Err(e) ==> (e is EmptyRequest || e is MissingVersion
            || e is UnknownRequest),
{
}

/// Requests are read case-insensitively: two non-blank requests that lowercase alike are read
/// alike, unless neither is understood (the error then quotes each request as written).
pub proof fn law_case_insensitive(a: Seq<char>, b: Seq<char>)
    requires
        lowercase(a) == lowercase(b),
        trim_ws(a).len() > 0,
        trim_ws(b).len() > 0,
    ensures
        !(parse_intent_of(a) matches Err(e) && e is UnknownRequest) ==> parse_intent_of(a)
            == parse_intent_of(b),
        (parse_intent_of(a) matches Err(e) && e is UnknownRequest) ==> (parse_intent_of(
            b,
        ) matches Err(f) && f is UnknownRequest),
{
}

/// The endpoint URL always ends with `/chat/completions`, and deriving it again from itself
/// changes nothing.
pub proof fn law_completions_url_stable(base: Seq<char>)
    ensures
        ends_with(completions_url_of(base), "/chat/completions"@),
        completions_url_of(completions_url_of(base)) == completions_url_of(base),
{
    reveal_strlit("/chat/completions");
    let suffix = "/chat/completions"@;
    let b = trim_end(base, CharClass::Exactly('/'));
    let u = completions_url_of(base);
    if !ends_with(b, suffix) {
        assert((b + suffix).skip((b + suffix).len() - suffix.len()) =~= suffix);
    }
    assert(ends_with(u, suffix));
    assert(u.last() == suffix.last());
    assert(trailing(u, CharClass::Exactly('/')) == 0);
    assert(trim_end(u, CharClass::Exactly('/')) =~= u);
}

proof fn lemma_trim_is_subrange(c: Seq<char>)
    ensures
        ({
            let a = leading(c, CharClass::Whitespace) as int;
            &&& 0 <= a <= a + trim_ws(c).len() <= c.len()
            &&& trim_ws(c) == c.subrange(a, a + trim_ws(c).len())
        }),
{
    let a = leading(c, CharClass::Whitespace) as int;
    lemma_leading_bound(c, CharClass::Whitespace);
    let s = c.skip(a);
    lemma_trailing_bound(s, CharClass::Whitespace);
    assert(trim_ws(c) =~= c.subrange(a, a + trim_ws(c).len()));
}

/// The JSON object taken from a reply starts with `{`, ends with `}`, and is part of the
/// reply as it was written.
pub proof fn law_json_object_is_braced_part(content: Seq<char>)
    ensures
        json_object_of(content) matches Some(j) ==> {
            &&& j.len() > 0
            &&& j[0] == '{'
            &&& j.last() == '}'
            &&& contains_text(content, j)
        },
{
    let t = trim_ws(content);
    lemma_trim_is_subrange(content);
    let a = leading(content, CharClass::Whitespace) as int;
    lemma_index_of_bounds(t, '{');
    lemma_index_of_bounds(t, '}');
    if let Some(j) = json_object_of(content) {
        if t.len() > 0 && t[0] == '{' && t.last() == '}' {
            assert(occurs_at(content, j, a));
        } else {
            let s = first_index_of(t, '{')->0;
            let e = last_index_of(t, '}')->0;
            assert(j =~= content.subrange(a + s, a + e + 1));
            assert(occurs_at(content, j, a + s));
        }
    }
}

proof fn lemma_width_concat(x: Seq<char>, y: Seq<char>)
    ensures
        utf8_width(x + y) == utf8_width(x) + utf8_width(y),
    decreases x.len(),
{
    if x.len() > 0 {
        lemma_width_concat(x.drop_first(), y);
        assert((x + y).drop_first() =~= x.drop_first() + y);
        assert((x + y)[0] == x[0]);
    } else {
        assert(x + y =~= y);
    }
}

/// An error quotes a text in at most 503 bytes (500 and `...`), and quotes a text of at most
/// 500 bytes whole.
pub proof fn law_error_quotes_are_short(v: Seq<char>)
    ensures
        encode_utf8(truncated_of(v)).len() <= max_error_len() + 3,
        encode_utf8(v).len() <= max_error_len() ==> truncated_of(v) == v,
{
    if encode_utf8(v).len() > max_error_len() {
        reveal_strlit("...");
        let k = fit_count(v, 500) as int;
        lemma_fit_count(v, 500);
        lemma_encode_len(truncated_of(v));
        lemma_width_concat(v.take(k), "..."@);
        let d = "..."@;
        assert(utf8_width(d) == 3) by {
            reveal_strlit("...");
            reveal_with_fuel(utf8_width, 4);
            assert(d.len() == 3 && d[0] == '.' && d[1] == '.' && d[2] == '.');
            assert(d.drop_first()[0] == '.' && d.drop_first()[1] == '.');
            assert(d.drop_first().drop_first()[0] == '.');
            assert(d.drop_first().drop_first().drop_first().len() == 0);
        }
    }
}

proof fn lemma_lts_word_is_lts(token: Seq<char>)
    ensures
        lts_word_version(token) matches Some(v) ==> v matches UserVersionV::Full(VersionV::Lts(_)),
{
    reveal_strlit("lts");
    reveal_strlit("lts/");
    reveal_strlit("lts-");
    reveal_strlit("system");
    let t = trim_version(token);
    if t != "lts"@ && (starts_with(t, "lts/"@) || starts_with(t, "lts-"@)) {
        lemma_plain_prefix_bound(t);
        let k = plain_prefix_len(t);
        assert(t[0] == t.take(4)[0] && t[1] == t.take(4)[1]);
        assert(t[2] == t.take(4)[2] && t[3] == t.take(4)[3]);
        assert(k >= 4) by {
            if k < 4 {
                assert(is_plain_char(t[k as int]));
            }
        }
        let l = lowercase(t);
        let low = ascii_lower(t.take(k as int));
        assert(l.take(4) == low.take(4)) by {
            if k < t.len() {
                assert(l == low + unicode_lowercase(t).skip(k as int));
            } else {
                assert(t.take(k as int) =~= t);
            }
        }
        assert(l.take(4) =~= t.take(4)) by {
            assert(low[0] == ascii_lower_char(t[0]));
            assert(low[1] == ascii_lower_char(t[1]));
            assert(low[2] == ascii_lower_char(t[2]));
            assert(low[3] == ascii_lower_char(t[3]));
        }
        assert(l != "system"@) by {
            if l == "system"@ {
                assert(l[0] == l.take(4)[0]);
            }
        }
    }
}

proof fn lemma_first_lts_word_is_lts(tokens: Seq<Seq<char>>)
    ensures
        first_lts_word(tokens) matches Some(v) ==> v matches UserVersionV::Full(VersionV::Lts(_)),
    decreases tokens.len(),
{
    if tokens.len() > 0 {
        lemma_lts_word_is_lts(tokens[0]);
        lemma_first_lts_word_is_lts(tokens.drop_first());
    }
}

/// LTS wins over the latest release: a request that speaks of LTS asks for an LTS line, even
/// where it also says `latest`.
pub proof fn law_lts_before_latest(m: Seq<char>)
    requires
        wants_lts_of(m),
    ensures
        requested_version_of(m) matches Some(v) && v matches UserVersionV::Full(VersionV::Lts(_)),
{
    lemma_first_lts_word_is_lts(tokens_of(m));
}

proof fn lemma_interleave_extend_gap(g: Seq<Seq<char>>, w: Seq<Seq<char>>, ch: char)
    requires
        g.len() == w.len() + 1,
    ensures
        interleave(g.update(g.len() - 1, g.last().push(ch)), w) == interleave(g, w).push(ch),
{
    let g2 = g.update(g.len() - 1, g.last().push(ch));
    if w.len() > 0 {
        assert(g2.drop_last() =~= g.drop_last());
        assert(interleave(g2, w) =~= interleave(g, w).push(ch));
    }
}

/// What holds of the words and separators found so far in `text`.
spec fn split_shape(text: Seq<char>) -> bool {
    let (done, cur) = split_words(text);
    let g = split_gaps(text);
    &&& g.len() == done.len() + 1
    &&& text == interleave(g, done) + cur
    &&& forall|k: int| 0 <= k < g.len() ==> all_separators(#[trigger] g[k])
    &&& forall|k: int| 0 < k < g.len() ==> (#[trigger] g[k]).len() > 0
    &&& forall|k: int|
        0 <= k < done.len() ==> (#[trigger] done[k]).len() > 0 && has_no_separator(done[k])
    &&& has_no_separator(cur)
    &&& done.flatten() + cur == without_separators(text)
}

proof fn lemma_without_separators_push(front: Seq<char>, ch: char)
    ensures
        without_separators(front.push(ch)) == if is_separator(ch) {
            without_separators(front)
        } else {
            without_separators(front).push(ch)
        },
{
    let t = front.push(ch);
    assert(t.drop_last() =~= front);
    assert(t.last() == ch);
    reveal_with_fuel(Seq::filter, 1);
}

proof fn lemma_shape_word_ends(front: Seq<char>, ch: char)
    requires
        split_shape(front),
        is_separator(ch),
        split_words(front).1.len() > 0,
    ensures
        split_shape(front.push(ch)),
{
    broadcast use Seq::lemma_flatten_push;

    let text = front.push(ch);
    assert(text.drop_last() =~= front);
    lemma_without_separators_push(front, ch);
    let (done, cur) = split_words(front);
    let g = split_gaps(front);
    let g2 = g.push(seq![ch]);
    let d2 = done.push(cur);
    assert(split_gaps(text) == g2);
    assert(split_words(text) == (d2, Seq::<char>::empty()));
    assert(g2.drop_last() =~= g);
    assert(d2.drop_last() =~= done);
    assert(interleave(g2, d2) =~= interleave(g, done) + cur + seq![ch]);
    assert(text =~= interleave(g2, d2) + Seq::<char>::empty());
    assert(d2.flatten() + Seq::<char>::empty() =~= done.flatten() + cur);
    assert forall|k: int| 0 <= k < g2.len() implies all_separators(#[trigger] g2[k]) by {
        if k < g.len() {
            assert(g2[k] == g[k]);
        }
    }
    assert forall|k: int| 0 < k < g2.len() implies (#[trigger] g2[k]).len() > 0 by {
        if k < g.len() {
            assert(g2[k] == g[k]);
        }
    }
    assert forall|k: int| 0 <= k < d2.len() implies (#[trigger] d2[k]).len() > 0
        && has_no_separator(d2[k]) by {
        if k < done.len() {
            assert(d2[k] == done[k]);
        }
    }
}

proof fn lemma_shape_gap_grows(front: Seq<char>, ch: char)
    requires
        split_shape(front),
        is_separator(ch),
        split_words(front).1.len() == 0,
    ensures
        split_shape(front.push(ch)),
{
    let text = front.push(ch);
    assert(text.drop_last() =~= front);
    lemma_without_separators_push(front, ch);
    let (done, cur) = split_words(front);
    let g = split_gaps(front);
    let g2 = g.update(g.len() - 1, g.last().push(ch));
    assert(split_gaps(text) == g2);
    assert(split_words(text) == (done, Seq::<char>::empty()));
    lemma_interleave_extend_gap(g, done, ch);
    assert(cur =~= Seq::<char>::empty());
    assert(text =~= interleave(g2, done) + Seq::<char>::empty());
    assert forall|k: int| 0 <= k < g2.len() implies all_separators(#[trigger] g2[k]) by {
        if k < g.len() - 1 {
            assert(g2[k] == g[k]);
        } else {
            assert(all_separators(g[k]));
            assert forall|i: int| 0 <= i < g2[k].len() implies is_separator(#[trigger] g2[k][i]) by {
                if i < g[k].len() {
                    assert(g2[k][i] == g[k][i]);
                }
            }
        }
    }
    assert forall|k: int| 0 < k < g2.len() implies (#[trigger] g2[k]).len() > 0 by {
        if k < g.len() - 1 {
            assert(g2[k] == g[k]);
        }
    }
}

proof fn lemma_shape_word_grows(front: Seq<char>, ch: char)
    requires
        split_shape(front),
        !is_separator(ch),
    ensures
        split_shape(front.push(ch)),
{
    let text = front.push(ch);
    assert(text.drop_last() =~= front);
    lemma_without_separators_push(front, ch);
    let (done, cur) = split_words(front);
    let g = split_gaps(front);
    assert(split_gaps(text) == g);
    assert(split_words(text) == (done, cur.push(ch)));
    assert(text =~= interleave(g, done) + cur.push(ch));
    assert(done.flatten() + cur.push(ch) =~= (done.flatten() + cur).push(ch));
    assert forall|i: int| 0 <= i < cur.push(ch).len() implies !is_separator(
        #[trigger] cur.push(ch)[i],
    ) by {
        if i < cur.len() {
            assert(cur.push(ch)[i] == cur[i]);
        }
    }
}

proof fn lemma_split_words_shape(text: Seq<char>)
    ensures
        split_shape(text),
    decreases text.len(),
{
    if text.len() == 0 {
        let e = Seq::<char>::empty();
        assert(text =~= e);
        assert(split_words(text) == (Seq::<Seq<char>>::empty(), e));
        assert(split_gaps(text) == seq![e]);
        assert(interleave(seq![e], Seq::<Seq<char>>::empty()) == e);
        assert(text =~= interleave(seq![e], Seq::<Seq<char>>::empty()) + e);
        assert(without_separators(text) == e);
        assert(Seq::<Seq<char>>::empty().flatten() + e =~= e);
        assert(all_separators(seq![e][0]));
    } else {
        let front = text.drop_last();
        let ch = text.last();
        assert(front.push(ch) =~= text);
        lemma_split_words_shape(front);
        if is_separator(ch) {
            if split_words(front).1.len() > 0 {
                lemma_shape_word_ends(front, ch);
            } else {
                lemma_shape_gap_grows(front, ch);
            }
        } else {
            lemma_shape_word_grows(front, ch);
        }
    }
}

/// The words of a text are exactly its maximal runs of non-separators, in order: each word is
/// non-empty and holds no separator, the text is the words with runs of separators around them
/// (at least one separator between two words), and the words put together are the text
/// without its separators.
pub proof fn law_words_are_maximal_runs(text: Seq<char>)
    ensures
        ({
            let w = words_of(text);
            let g = gaps_of(text);
            &&& g.len() == w.len() + 1
            &&& text == interleave(g, w)
            &&& forall|k: int| 0 <= k < g.len() ==> all_separators(#[trigger] g[k])
            &&& forall|k: int| 0 < k < w.len() ==> (#[trigger] g[k]).len() > 0
            &&& forall|k: int|
                0 <= k < w.len() ==> (#[trigger] w[k]).len() > 0 && has_no_separator(w[k])
            &&& w.flatten() == without_separators(text)
        }),
{
    broadcast use Seq::lemma_flatten_push;

    lemma_split_words_shape(text);
    let (done, cur) = split_words(text);
    let g = split_gaps(text);
    if cur.len() > 0 {
        let g2 = g.push(seq![]);
        let d2 = done.push(cur);
        assert(g2.drop_last() =~= g);
        assert(d2.drop_last() =~= done);
        assert(interleave(g2, d2) =~= interleave(g, done) + cur + seq![]);
        assert forall|k: int| 0 <= k < g2.len() implies all_separators(#[trigger] g2[k]) by {
            if k < g.len() {
                assert(g2[k] == g[k]);
            }
        }
        assert forall|k: int| 0 < k < d2.len() implies (#[trigger] g2[k]).len() > 0 by {
            assert(g2[k] == g[k]);
        }
        assert forall|k: int| 0 <= k < d2.len() implies (#[trigger] d2[k]).len() > 0
            && has_no_separator(d2[k]) by {
            if k < done.len() {
                assert(d2[k] == done[k]);
            }
        }
    } else {
        assert(cur =~= seq![]);
        assert(text =~= interleave(g, done));
        assert(done.flatten() =~= done.flatten() + cur);
    }
}

proof fn lemma_upper_keeps_class(k: CharClass, c: char)
    requires
        k == CharClass::Whitespace || k == CharClass::Exactly('"'),
    ensures
        in_class(k, ascii_upper_char(c)) == in_class(k, c),
{
    if 'a' <= c && c <= 'z' {
        let u = ascii_upper_char(c);
        assert('A' <= u && u <= 'Z');
    }
}

proof fn lemma_upper_leading(s: Seq<char>, k: CharClass)
    requires
        k == CharClass::Whitespace || k == CharClass::Exactly('"'),
    ensures
        leading(ascii_upper(s), k) == leading(s, k),
        trailing(ascii_upper(s), k) == trailing(s, k),
    decreases s.len(),
{
    if s.len() > 0 {
        lemma_upper_keeps_class(k, s[0]);
        lemma_upper_keeps_class(k, s.last());
        assert(ascii_upper(s).drop_first() =~= ascii_upper(s.drop_first()));
        assert(ascii_upper(s).drop_last() =~= ascii_upper(s.drop_last()));
        lemma_upper_leading(s.drop_first(), k);
        lemma_upper_leading(s.drop_last(), k);
    }
}

proof fn lemma_upper_trim(s: Seq<char>, k: CharClass)
    requires
        k == CharClass::Whitespace || k == CharClass::Exactly('"'),
    ensures
        trim_both(ascii_upper(s), k) == ascii_upper(trim_both(s, k)),
{
    lemma_upper_leading(s, k);
    lemma_leading_bound(s, k);
    let a = trim_start(s, k);
    assert(trim_start(ascii_upper(s), k) =~= ascii_upper(a));
    lemma_upper_leading(a, k);
    lemma_trailing_bound(a, k);
    assert(trim_both(ascii_upper(s), k) =~= ascii_upper(trim_both(s, k)));
}

/// A version that the provider writes is normalized to text without ASCII capitals, which
/// neither starts nor ends with `"`; writing it in ASCII capitals normalizes to the same text.
pub proof fn law_normalized_versions(v: Seq<char>)
    ensures
        forall|i: int|
            0 <= i < normalized_of(v).len() ==> !('A' <= #[trigger] normalized_of(v)[i] && normalized_of(v)[i] <= 'Z'),
        normalized_of(v).len() > 0 ==> normalized_of(v)[0] != '"' && normalized_of(v).last() != '"',
        normalized_of(ascii_upper(v)) == normalized_of(v),
{
    let q = CharClass::Exactly('"');
    let t = trim_ws(v);
    let u = trim_both(t, q);
    let n = normalized_of(v);
    assert forall|i: int| 0 <= i < n.len() implies !('A' <= #[trigger] n[i] && n[i] <= 'Z') by {
        let c = u[i];
        if 'A' <= c && c <= 'Z' {
            assert('a' <= n[i] && n[i] <= 'z');
        }
    }
    if n.len() > 0 {
        lemma_leading_bound(t, q);
        let a = trim_start(t, q);
        lemma_trailing_bound(a, q);
        assert(u[0] == a[0]);
        assert(u.last() == a[a.len() - trailing(a, q) - 1]);
    }
    lemma_upper_trim(v, CharClass::Whitespace);
    lemma_upper_trim(t, q);
    assert(ascii_lower(ascii_upper(u)) =~= ascii_lower(u)) by {
        assert forall|i: int| 0 <= i < u.len() implies #[trigger] ascii_lower(ascii_upper(u))[i]
            == ascii_lower(u)[i] by {
            let c = u[i];
            if 'a' <= c && c <= 'z' {
                let up = ascii_upper_char(c);
                assert('A' <= up && up <= 'Z');
                assert(((up as u32) + 32) as char == c);
            } else if 'A' <= c && c <= 'Z' {
            }
        }
    }
}

} // verus!
