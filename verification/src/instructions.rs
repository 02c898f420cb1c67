//! Event topics in the instructions of hats, and whether they agree with the topology.
use vstd::prelude::*;

use crate::split::{fields, split_dots, split_whitespace, words};
use crate::text::{ascii_lowered, chars_of, contains_char, eq_ignore_ascii_case, holds_text,
    is_ascii_alnum, is_digit, is_lower_ascii, law_stripping_cuts_the_ends_only, strip_ends,
    strip_span, strs, texts};

verus! {

// ---------------------------------------------------------------------------
// Tokens
// ---------------------------------------------------------------------------
/// The characters that may wrap a token: all but ASCII letters, digits and `*`.
pub open spec fn wraps() -> spec_fn(char) -> bool {
    |c: char| !(is_ascii_alnum(c) || c == '*')
}

/// A token without the markdown and punctuation around it.
pub open spec fn cleaned(raw: Seq<char>) -> Seq<char> {
    strip_ends(raw, wraps())
}

fn is_wrapping(c: char) -> (r: bool)
    ensures
        r == wraps()(c),
{
    !(('a' <= c && c <= 'z') || ('A' <= c && c <= 'Z') || ('0' <= c && c <= '9') || c == '*')
}

/// Strips markdown and punctuation wrapping from a whitespace-delimited token.
pub fn clean_token(raw: &str) -> (r: &str)
    ensures
        r@ == cleaned(raw@),
{
    let chars = chars_of(raw);
    let (start, end) = strip_span(&chars, is_wrapping, Ghost(wraps()));
    raw.substring_char(start, end)
}

/// A character that may stand in a segment of a topic.
pub open spec fn is_topic_char(c: char) -> bool {
    is_lower_ascii(c) || is_digit(c) || c == '_' || c == '-' || c == '*'
}

/// A segment of a topic: characters of topics only, and at least one.
pub open spec fn is_segment(s: Seq<char>) -> bool {
    s.len() > 0 && forall|i: int| 0 <= i < s.len() ==> is_topic_char(#[trigger] s[i])
}

/// A token of the shape `segment.segment[.segment...]`.
pub open spec fn topic_like(token: Seq<char>) -> bool {
    let f = fields(token, '.');
    f.len() >= 2 && forall|i: int| 0 <= i < f.len() ==> is_segment(#[trigger] f[i])
}

fn segment_is_valid(s: &str) -> (r: bool)
    ensures
        r == is_segment(s@),
{
    let chars = chars_of(s);
    for i in 0..chars.len()
        invariant
            chars@ == s@,
            forall|k: int| 0 <= k < i ==> is_topic_char(#[trigger] s@[k]),
    {
        let c: char = chars[i];
        if !(('a' <= c && c <= 'z') || ('0' <= c && c <= '9') || c == '_' || c == '-' || c
            == '*') {
            assert(!is_topic_char(s@[i as int]));
            return false;
        }
    }
    chars.len() > 0
}

/// True for `segment.segment[.segment...]` shaped tokens (event topic shape).
pub fn is_topic_like(token: &str) -> (r: bool)
    ensures
        r == topic_like(token@),
{
    let f = split_dots(token);
    let ghost fs = fields(token@, '.');
    if f.len() < 2 {
        assert(fs.len() < 2);
        return false;
    }
    for i in 0..f.len()
        invariant
            fs == fields(token@, '.'),
            fs == strs(f@),
            f@.len() >= 2,
            forall|k: int| 0 <= k < i ==> is_segment(#[trigger] fs[k]),
    {
        if !segment_is_valid(f[i]) {
            assert(!is_segment(fs[i as int]));
            return false;
        }
        assert(is_segment(fs[i as int]));
    }
    true
}

// ---------------------------------------------------------------------------
// Topics in instruction text
// ---------------------------------------------------------------------------
/// The word `emit` or `emits`, in any case.
pub open spec fn is_emit_word(token: Seq<char>) -> bool {
    ascii_lowered(token) == ascii_lowered("emit"@) || ascii_lowered(token) == ascii_lowered(
        "emits"@,
    )
}

/// The word at `i` follows `emit`.
pub open spec fn follows_emit(w: Seq<Seq<char>>, i: int) -> bool {
    i > 0 && is_emit_word(cleaned(w[i - 1]))
}

/// The word at `i` is a topic that the text says to emit.
pub open spec fn is_emit_site(w: Seq<Seq<char>>, i: int) -> bool {
    topic_like(cleaned(w[i])) && follows_emit(w, i)
}

/// The word at `i` is a topic in backticks that the text merely mentions.
pub open spec fn is_mention_site(w: Seq<Seq<char>>, i: int) -> bool {
    topic_like(cleaned(w[i])) && !follows_emit(w, i) && w[i].contains('`')
}

pub open spec fn emit_sites(w: Seq<Seq<char>>) -> spec_fn(int) -> bool {
    |i: int| is_emit_site(w, i)
}

pub open spec fn mention_sites(w: Seq<Seq<char>>) -> spec_fn(int) -> bool {
    |i: int| is_mention_site(w, i)
}

/// `x` behind `s`, unless it is there already.
pub open spec fn with_new(s: Seq<Seq<char>>, x: Seq<char>) -> Seq<Seq<char>> {
    if s.contains(x) {
        s
    } else {
        s.push(x)
    }
}

/// The topics at those of the first `n` words that `site` picks, each where it occurs first.
pub open spec fn topics_at(w: Seq<Seq<char>>, site: spec_fn(int) -> bool, n: int) -> Seq<Seq<char>>
    decreases n,
{
    if n <= 0 {
        Seq::empty()
    } else if site(n - 1) {
        with_new(topics_at(w, site, n - 1), cleaned(w[n - 1]))
    } else {
        topics_at(w, site, n - 1)
    }
}

/// The topics that `text` says to emit.
pub open spec fn emitted_topics(text: Seq<char>) -> Seq<Seq<char>> {
    topics_at(words(text), emit_sites(words(text)), words(text).len() as int)
}

/// The topics in backticks that `text` mentions.
pub open spec fn mentioned_topics(text: Seq<char>) -> Seq<Seq<char>> {
    topics_at(words(text), mention_sites(words(text)), words(text).len() as int)
}

/// Exactly the topics at the picked words are listed, and none of them twice.
proof fn lemma_topics_at(w: Seq<Seq<char>>, site: spec_fn(int) -> bool, n: int)
    requires
        n <= w.len(),
    ensures
        topics_at(w, site, n).no_duplicates(),
        forall|t: Seq<char>| #[trigger]
            topics_at(w, site, n).contains(t) <==> exists|i: int|
                0 <= i < n && #[trigger] site(i) && cleaned(w[i]) == t,
    decreases n,
{
    if n > 0 {
        lemma_topics_at(w, site, n - 1);
        let before = topics_at(w, site, n - 1);
        let after = topics_at(w, site, n);
        assert forall|t: Seq<char>| #[trigger] after.contains(t) <==> exists|i: int|
            0 <= i < n && #[trigger] site(i) && cleaned(w[i]) == t by {
            if after.contains(t) {
                if before.contains(t) {
                    let i = choose|i: int|
                        0 <= i < n - 1 && #[trigger] site(i) && cleaned(w[i]) == t;
                    assert(site(i));
                } else {
                    assert(site(n - 1));
                    let k = choose|k: int| 0 <= k < after.len() && after[k] == t;
                    if k < before.len() {
                        assert(before[k] == t);
                    }
                    assert(cleaned(w[n - 1]) == t);
                }
            }
            if exists|i: int| 0 <= i < n && #[trigger] site(i) && cleaned(w[i]) == t {
                let i = choose|i: int| 0 <= i < n && #[trigger] site(i) && cleaned(w[i]) == t;
                if i < n - 1 {
                    assert(before.contains(t));
                    let k = choose|k: int| 0 <= k < before.len() && before[k] == t;
                    assert(after[k] == t);
                } else if before.contains(t) {
                    assert(after == before);
                } else {
                    assert(after.last() == t);
                }
            }
        }
    }
}

/// Adds `x` to `v`, unless it is there already.
fn add_new(v: &mut Vec<String>, x: &str)
    ensures
        texts(final(v)@) == with_new(texts(old(v)@), x@),
{
    if !holds_text(v, x) {
        let ghost before = texts(v@);
        v.push(x.to_owned());
        assert(texts(v@) =~= before.push(x@));
    }
}

/// Splits instruction text into emitted topics and backticked topic mentions.
pub fn extract_instruction_topics(text: &str) -> (r: (Vec<String>, Vec<String>))
    ensures
        texts(r.0@) == emitted_topics(text@),
        texts(r.1@) == mentioned_topics(text@),
{
    let parts = split_whitespace(text);
    let ghost w = words(text@);
    let mut emits: Vec<String> = Vec::new();
    let mut mentions: Vec<String> = Vec::new();
    let mut after_emit = false;
    assert(texts(emits@) =~= topics_at(w, emit_sites(w), 0));
    assert(texts(mentions@) =~= topics_at(w, mention_sites(w), 0));
    for i in 0..parts.len()
        invariant
            w == words(text@),
            w == strs(parts@),
            after_emit == follows_emit(w, i as int),
            texts(emits@) == topics_at(w, emit_sites(w), i as int),
            texts(mentions@) == topics_at(w, mention_sites(w), i as int),
    {
        let raw: &str = parts[i];
        let token = clean_token(raw);
        assert(w[i as int] == raw@);
        assert(emit_sites(w)(i as int) == is_emit_site(w, i as int));
        assert(mention_sites(w)(i as int) == is_mention_site(w, i as int));
        if is_topic_like(token) {
            if after_emit {
                add_new(&mut emits, token);
            } else if contains_char(raw, '`') {
                add_new(&mut mentions, token);
            }
        }
        after_emit = eq_ignore_ascii_case(token, "emit") || eq_ignore_ascii_case(token, "emits");
    }
    (emits, mentions)
}

// ---------------------------------------------------------------------------
// Laws
// ---------------------------------------------------------------------------
/// Exactly the topics that follow `emit` are emitted, in backticks or not, and each is listed
/// once.
pub proof fn law_emitted_topics_follow_emit(text: Seq<char>)
    ensures
        emitted_topics(text).no_duplicates(),
        forall|t: Seq<char>| #[trigger]
            emitted_topics(text).contains(t) <==> exists|i: int|
                0 <= i < words(text).len() && #[trigger] is_emit_site(words(text), i) && cleaned(
                    words(text)[i],
                ) == t,
{
    let w = words(text);
    lemma_topics_at(w, emit_sites(w), w.len() as int);
    assert forall|t: Seq<char>| #[trigger] emitted_topics(text).contains(t) <==> exists|i: int|
        0 <= i < w.len() && #[trigger] is_emit_site(w, i) && cleaned(w[i]) == t by {
        if emitted_topics(text).contains(t) {
            let i = choose|i: int|
                0 <= i < w.len() && #[trigger] emit_sites(w)(i) && cleaned(w[i]) == t;
            assert(is_emit_site(w, i));
        }
        if exists|i: int| 0 <= i < w.len() && #[trigger] is_emit_site(w, i) && cleaned(w[i]) == t {
            let i = choose|i: int|
                0 <= i < w.len() && #[trigger] is_emit_site(w, i) && cleaned(w[i]) == t;
            assert(emit_sites(w)(i));
        }
    }
}

/// Exactly the topics in backticks that do not follow `emit` are mentioned, and each is listed
/// once. A topic without backticks is no mention.
pub proof fn law_mentions_need_backticks(text: Seq<char>)
    ensures
        mentioned_topics(text).no_duplicates(),
        forall|t: Seq<char>| #[trigger]
            mentioned_topics(text).contains(t) <==> exists|i: int|
                0 <= i < words(text).len() && #[trigger] is_mention_site(words(text), i)
                    && cleaned(words(text)[i]) == t,
{
    let w = words(text);
    lemma_topics_at(w, mention_sites(w), w.len() as int);
    assert forall|t: Seq<char>| #[trigger] mentioned_topics(text).contains(t) <==> exists|i: int|
        0 <= i < w.len() && #[trigger] is_mention_site(w, i) && cleaned(w[i]) == t by {
        if mentioned_topics(text).contains(t) {
            let i = choose|i: int|
                0 <= i < w.len() && #[trigger] mention_sites(w)(i) && cleaned(w[i]) == t;
            assert(is_mention_site(w, i));
        }
        if exists|i: int|
            0 <= i < w.len() && #[trigger] is_mention_site(w, i) && cleaned(w[i]) == t {
            let i = choose|i: int|
                0 <= i < w.len() && #[trigger] is_mention_site(w, i) && cleaned(w[i]) == t;
            assert(mention_sites(w)(i));
        }
    }
}

/// Every topic that is found has the shape of a topic.
pub proof fn law_found_topics_are_topic_like(text: Seq<char>, topic: Seq<char>)
    requires
        emitted_topics(text).contains(topic) || mentioned_topics(text).contains(topic),
    ensures
        topic_like(topic),
{
    let w = words(text);
    law_emitted_topics_follow_emit(text);
    law_mentions_need_backticks(text);
    if emitted_topics(text).contains(topic) {
        let i = choose|i: int|
            0 <= i < w.len() && #[trigger] is_emit_site(w, i) && cleaned(w[i]) == topic;
        assert(is_emit_site(w, i));
    } else {
        let i = choose|i: int|
            0 <= i < w.len() && #[trigger] is_mention_site(w, i) && cleaned(w[i]) == topic;
        assert(is_mention_site(w, i));
    }
}

/// Cleaning a token cuts off what wraps it, on either side: no cut character is a letter or digit
/// of ASCII or `*`, and what is left begins and ends with one.
pub proof fn law_cleaning_cuts_wrapping_only(raw: Seq<char>) -> (r: (int, int))
    ensures
        0 <= r.0 <= r.1 <= raw.len(),
        cleaned(raw) == raw.subrange(r.0, r.1),
        forall|i: int|
            0 <= i < r.0 || r.1 <= i < raw.len() ==> !is_ascii_alnum(#[trigger] raw[i]) && raw[i]
                != '*',
        r.0 < r.1 ==> (is_ascii_alnum(raw[r.0]) || raw[r.0] == '*') && (is_ascii_alnum(
            raw[r.1 - 1],
        ) || raw[r.1 - 1] == '*'),
{
    let r = law_stripping_cuts_the_ends_only(raw, wraps());
    assert forall|i: int| 0 <= i < r.0 || r.1 <= i < raw.len() implies !is_ascii_alnum(
        #[trigger] raw[i],
    ) && raw[i] != '*' by {
        assert(wraps()(raw[i]));
    }
    if r.0 < r.1 {
        assert(!wraps()(raw[r.0]) && !wraps()(raw[r.1 - 1]));
    }
    r
}

/// A token has the shape of a topic exactly if it has at least two fields between dots, each with
/// at least one character, and holds nothing but small letters and digits of ASCII, `_`, `-`, `*`
/// in them.
pub proof fn law_topics_have_two_segments(token: Seq<char>)
    ensures
        topic_like(token) <==> fields(token, '.').len() >= 2 && (forall|i: int|
            0 <= i < fields(token, '.').len() ==> (#[trigger] fields(token, '.')[i]).len() > 0)
            && (forall|i: int, j: int|
            0 <= i < fields(token, '.').len() && 0 <= j < fields(token, '.')[i].len() ==> (
            is_lower_ascii(#[trigger] fields(token, '.')[i][j]) || is_digit(
                fields(token, '.')[i][j],
            ) || fields(token, '.')[i][j] == '_' || fields(token, '.')[i][j] == '-' || fields(
                token,
                '.',
            )[i][j] == '*')),
{
    let f = fields(token, '.');
    if topic_like(token) {
        assert forall|i: int, j: int| 0 <= i < f.len() && 0 <= j < f[i].len() implies (
        is_lower_ascii(#[trigger] f[i][j]) || is_digit(f[i][j]) || f[i][j] == '_' || f[i][j] == '-'
            || f[i][j] == '*') by {
            assert(is_segment(f[i]));
            assert(is_topic_char(f[i][j]));
        }
        assert forall|i: int| 0 <= i < f.len() implies (#[trigger] f[i]).len() > 0 by {
            assert(is_segment(f[i]));
        }
    } else if f.len() >= 2 {
        let i = choose|i: int| 0 <= i < f.len() && !is_segment(#[trigger] f[i]);
        if f[i].len() > 0 {
            let j = choose|j: int| 0 <= j < f[i].len() && !is_topic_char(#[trigger] f[i][j]);
            assert(!is_topic_char(f[i][j]));
        }
    }
}

/// A topic that follows the word `emit` or `emits`, in any case, is emitted, and so is nothing
/// else: the text is taken word by word, and each word without what wraps it.
pub proof fn law_topics_behind_emit_are_emitted(text: Seq<char>, topic: Seq<char>)
    ensures
        emitted_topics(text).contains(topic) <==> exists|i: int|
            0 < i < words(text).len() && cleaned(#[trigger] words(text)[i]) == topic && topic_like(
                topic,
            ) && (ascii_lowered(cleaned(words(text)[i - 1])) == "emit"@ || ascii_lowered(
                cleaned(words(text)[i - 1]),
            ) == "emits"@),
{
    let w = words(text);
    lemma_emit_words();
    law_emitted_topics_follow_emit(text);
    if emitted_topics(text).contains(topic) {
        let i = choose|i: int|
            0 <= i < w.len() && #[trigger] is_emit_site(w, i) && cleaned(w[i]) == topic;
        assert(0 < i < w.len() && cleaned(w[i]) == topic);
    }
    if exists|i: int|
        0 < i < w.len() && cleaned(#[trigger] w[i]) == topic && topic_like(topic) && (
        ascii_lowered(cleaned(w[i - 1])) == "emit"@ || ascii_lowered(cleaned(w[i - 1]))
            == "emits"@) {
        let i = choose|i: int|
            0 < i < w.len() && cleaned(#[trigger] w[i]) == topic && topic_like(topic) && (
            ascii_lowered(cleaned(w[i - 1])) == "emit"@ || ascii_lowered(cleaned(w[i - 1]))
                == "emits"@);
        assert(is_emit_site(w, i));
    }
}

proof fn lemma_emit_words()
    ensures
        ascii_lowered("emit"@) == "emit"@,
        ascii_lowered("emits"@) == "emits"@,
{
    reveal_strlit("emit");
    reveal_strlit("emits");
    assert(ascii_lowered("emit"@) =~= "emit"@);
    assert(ascii_lowered("emits"@) =~= "emits"@);
}

/// A topic in a word with a backtick is mentioned unless the word before it is `emit` or `emits`,
/// and so is nothing else.
pub proof fn law_backticked_topics_are_mentioned(text: Seq<char>, topic: Seq<char>)
    ensures
        mentioned_topics(text).contains(topic) <==> exists|i: int|
            0 <= i < words(text).len() && cleaned(#[trigger] words(text)[i]) == topic && topic_like(
                topic,
            ) && words(text)[i].contains('`') && (i > 0 ==> ascii_lowered(
                cleaned(words(text)[i - 1]),
            ) != "emit"@ && ascii_lowered(cleaned(words(text)[i - 1])) != "emits"@),
{
    let w = words(text);
    lemma_emit_words();
    law_mentions_need_backticks(text);
    if mentioned_topics(text).contains(topic) {
        let i = choose|i: int|
            0 <= i < w.len() && #[trigger] is_mention_site(w, i) && cleaned(w[i]) == topic;
        assert(cleaned(w[i]) == topic && !follows_emit(w, i));
    }
    if exists|i: int|
        0 <= i < w.len() && cleaned(#[trigger] w[i]) == topic && topic_like(topic)
            && w[i].contains('`') && (i > 0 ==> ascii_lowered(cleaned(w[i - 1])) != "emit"@
            && ascii_lowered(cleaned(w[i - 1])) != "emits"@) {
        let i = choose|i: int|
            0 <= i < w.len() && cleaned(#[trigger] w[i]) == topic && topic_like(topic)
                && w[i].contains('`') && (i > 0 ==> ascii_lowered(cleaned(w[i - 1])) != "emit"@
                && ascii_lowered(cleaned(w[i - 1])) != "emits"@);
        assert(is_mention_site(w, i));
    }
}

/// What the words in front give stays in front when more words are read.
proof fn lemma_topics_at_grows(w: Seq<Seq<char>>, site: spec_fn(int) -> bool, m: int, n: int)
    requires
        0 <= m <= n,
    ensures
        topics_at(w, site, m).len() <= topics_at(w, site, n).len(),
        topics_at(w, site, n).take(topics_at(w, site, m).len() as int) == topics_at(w, site, m),
    decreases n,
{
    let a = topics_at(w, site, m);
    if m < n {
        lemma_topics_at_grows(w, site, m, n - 1);
        let before = topics_at(w, site, n - 1);
        let after = topics_at(w, site, n);
        assert(after.take(a.len() as int) =~= before.take(a.len() as int));
    } else {
        assert(a.take(a.len() as int) =~= a);
    }
}

/// Topics are listed in the order in which they occur first: if all occurrences of one topic among
/// the picked words come after some occurrence of another, the other is listed before it.
proof fn lemma_topics_in_order(
    w: Seq<Seq<char>>,
    site: spec_fn(int) -> bool,
    n: int,
    i: int,
    j: int,
    k: int,
)
    requires
        0 <= n <= w.len(),
        0 <= i < topics_at(w, site, n).len(),
        0 <= j < topics_at(w, site, n).len(),
        0 <= k < n,
        site(k),
        cleaned(w[k]) == topics_at(w, site, n)[i],
        forall|m: int|
            0 <= m <= k && #[trigger] site(m) ==> cleaned(w[m]) != topics_at(w, site, n)[j],
    ensures
        i < j,
{
    let all = topics_at(w, site, n);
    let front = topics_at(w, site, k + 1);
    lemma_topics_at(w, site, n);
    lemma_topics_at(w, site, k + 1);
    lemma_topics_at_grows(w, site, k + 1, n);
    assert(front.contains(all[i]));
    let a = choose|a: int| 0 <= a < front.len() && front[a] == all[i];
    assert(all.take(front.len() as int)[a] == front[a]);
    assert(all[a] == all[i]);
    assert(a == i);
    if j < front.len() {
        assert(all.take(front.len() as int)[j] == front[j]);
        assert(front.contains(all[j]));
        let m = choose|m: int| 0 <= m < k + 1 && #[trigger] site(m) && cleaned(w[m]) == all[j];
        assert(false);
    }
}

/// Emitted topics are listed in the order in which they first follow `emit`.
pub proof fn law_emitted_topics_keep_their_order(text: Seq<char>, i: int, j: int, k: int)
    requires
        0 <= i < emitted_topics(text).len(),
        0 <= j < emitted_topics(text).len(),
        0 < k < words(text).len(),
        ascii_lowered(cleaned(words(text)[k - 1])) == "emit"@ || ascii_lowered(
            cleaned(words(text)[k - 1]),
        ) == "emits"@,
        cleaned(words(text)[k]) == emitted_topics(text)[i],
        forall|m: int| 0 <= m <= k ==> cleaned(#[trigger] words(text)[m]) != emitted_topics(text)[j],
    ensures
        i < j,
{
    let w = words(text);
    let emits = emitted_topics(text);
    lemma_emit_words();
    assert(emits.contains(emits[i]));
    law_found_topics_are_topic_like(text, emits[i]);
    assert(emit_sites(w)(k));
    lemma_topics_in_order(w, emit_sites(w), w.len() as int, i, j, k);
}

/// Mentioned topics are listed in the order in which they are first mentioned.
pub proof fn law_mentioned_topics_keep_their_order(text: Seq<char>, i: int, j: int, k: int)
    requires
        0 <= i < mentioned_topics(text).len(),
        0 <= j < mentioned_topics(text).len(),
        0 <= k < words(text).len(),
        words(text)[k].contains('`'),
        k > 0 ==> ascii_lowered(cleaned(words(text)[k - 1])) != "emit"@ && ascii_lowered(
            cleaned(words(text)[k - 1]),
        ) != "emits"@,
        cleaned(words(text)[k]) == mentioned_topics(text)[i],
        forall|m: int|
            0 <= m <= k ==> cleaned(#[trigger] words(text)[m]) != mentioned_topics(text)[j],
    ensures
        i < j,
{
    let w = words(text);
    let mentions = mentioned_topics(text);
    lemma_emit_words();
    assert(mentions.contains(mentions[i]));
    law_found_topics_are_topic_like(text, mentions[i]);
    assert(mention_sites(w)(k));
    lemma_topics_in_order(w, mention_sites(w), w.len() as int, i, j, k);
}

} // verus!
