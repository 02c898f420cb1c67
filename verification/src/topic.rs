//! Event topics and the patterns that hats subscribe with.
use vstd::prelude::*;

use crate::format::{joined, law_joining_in_two_runs};
use crate::split::{fields, law_separators_part_fields, split_dots};
use crate::text::{first_index, is_char, lemma_first_index, str_eq, strs};

verus! {

/// An event topic, or a pattern of topics with `*` in place of segments.
#[derive(Debug)]
pub struct Topic {
    pub text: String,
}

impl View for Topic {
    type V = Seq<char>;

    open spec fn view(&self) -> Seq<char> {
        self.text@
    }
}

/// A segment of a pattern covers a segment of a topic.
pub open spec fn segment_matches(pattern: Seq<char>, segment: Seq<char>) -> bool {
    pattern == "*"@ || pattern == segment
}

/// `pattern` covers `topic`: a lone `*` covers every topic, any other pattern the topics with as
/// many segments, each equal to the pattern's or covered by a `*` there.
pub open spec fn topic_matches(pattern: Seq<char>, topic: Seq<char>) -> bool {
    let p = fields(pattern, '.');
    let t = fields(topic, '.');
    pattern == "*"@ || (p.len() == t.len() && forall|i: int|
        0 <= i < p.len() ==> segment_matches(#[trigger] p[i], t[i]))
}

/// Some topic of `v` covers `topic`.
pub open spec fn any_matches(v: Seq<Topic>, topic: Seq<char>) -> bool {
    exists|i: int| 0 <= i < v.len() && topic_matches(#[trigger] v[i]@, topic)
}

/// Some topic of `v` reads exactly `topic`.
pub open spec fn any_reads(v: Seq<Topic>, topic: Seq<char>) -> bool {
    exists|i: int| 0 <= i < v.len() && #[trigger] v[i]@ == topic
}

impl Topic {
    pub fn new(text: &str) -> (r: Topic)
        ensures
            r@ == text@,
    {
        Topic { text: text.to_owned() }
    }

    pub fn as_str(&self) -> (r: &str)
        ensures
            r@ == self@,
    {
        self.text.as_str()
    }

    /// True if this pattern covers `topic`.
    pub fn matches_str(&self, topic: &str) -> (r: bool)
        ensures
            r == topic_matches(self@, topic@),
    {
        if str_eq(self.as_str(), "*") {
            return true;
        }
        let p = split_dots(self.as_str());
        let t = split_dots(topic);
        let ghost ps = fields(self@, '.');
        let ghost ts = fields(topic@, '.');
        if p.len() != t.len() {
            assert(ps.len() != ts.len());
            return false;
        }
        for i in 0..p.len()
            invariant
                self@ != "*"@,
                ps == fields(self@, '.'),
                ts == fields(topic@, '.'),
                ps == strs(p@),
                ts == strs(t@),
                p@.len() == t@.len(),
                forall|k: int| 0 <= k < i ==> segment_matches(#[trigger] ps[k], ts[k]),
        {
            if !str_eq(p[i], "*") && !str_eq(p[i], t[i]) {
                assert(!segment_matches(ps[i as int], ts[i as int]));
                return false;
            }
            assert(segment_matches(ps[i as int], ts[i as int]));
        }
        true
    }
}

/// True if some topic of `v` covers `topic`.
pub fn matches_any(v: &Vec<Topic>, topic: &str) -> (r: bool)
    ensures
        r == any_matches(v@, topic@),
{
    for i in 0..v.len()
        invariant
            forall|k: int| 0 <= k < i ==> !topic_matches(#[trigger] v@[k]@, topic@),
    {
        if v[i].matches_str(topic) {
            return true;
        }
    }
    false
}

/// True if some topic of `v` reads exactly `topic`.
pub fn reads_any(v: &Vec<Topic>, topic: &str) -> (r: bool)
    ensures
        r == any_reads(v@, topic@),
{
    for i in 0..v.len()
        invariant
            forall|k: int| 0 <= k < i ==> #[trigger] v@[k]@ != topic@,
    {
        if str_eq(v[i].as_str(), topic) {
            return true;
        }
    }
    false
}

// ---------------------------------------------------------------------------
// Laws
// ---------------------------------------------------------------------------
/// Texts with the same fields are the same.
proof fn lemma_fields_injective(a: Seq<char>, b: Seq<char>, sep: char)
    requires
        fields(a, sep) == fields(b, sep),
    ensures
        a == b,
    decreases a.len(),
{
    lemma_first_index(a, is_char(sep));
    lemma_first_index(b, is_char(sep));
    let n = first_index(a, is_char(sep));
    let m = first_index(b, is_char(sep));
    lemma_fields_len(a, sep);
    lemma_fields_len(b, sep);
    if n >= a.len() {
        assert(fields(a, sep) == seq![a]);
        if m < b.len() {
            lemma_fields_len(b.skip(m + 1), sep);
        }
        assert(fields(a, sep)[0] == a);
        assert(fields(b, sep)[0] == b);
    } else {
        lemma_fields_len(a.skip(n + 1), sep);
        assert(fields(a, sep).len() >= 2);
        assert(m < b.len());
        let x = fields(a.skip(n + 1), sep);
        let y = fields(b.skip(m + 1), sep);
        assert(fields(a, sep).skip(1) =~= x);
        assert(fields(b, sep).skip(1) =~= y);
        lemma_fields_injective(a.skip(n + 1), b.skip(m + 1), sep);
        assert(fields(a, sep)[0] == a.take(n));
        assert(fields(b, sep)[0] == b.take(m));
        assert(a.take(n).len() == n && b.take(m).len() == m);
        assert(a[n] == sep && b[m] == sep);
        assert(a =~= a.take(n) + seq![sep] + a.skip(n + 1));
        assert(b =~= b.take(m) + seq![sep] + b.skip(m + 1));
    }
}

proof fn lemma_fields_len(s: Seq<char>, sep: char)
    ensures
        fields(s, sep).len() > 0,
{
}

/// A field is made of characters of the text.
proof fn lemma_fields_within(s: Seq<char>, sep: char, c: char, i: int)
    requires
        !s.contains(c),
        0 <= i < fields(s, sep).len(),
    ensures
        !fields(s, sep)[i].contains(c),
    decreases s.len(),
{
    lemma_first_index(s, is_char(sep));
    let n = first_index(s, is_char(sep));
    if n < s.len() {
        let front = s.take(n);
        let rest = s.skip(n + 1);
        if i == 0 {
            if front.contains(c) {
                let k = choose|k: int| 0 <= k < front.len() && front[k] == c;
                assert(s[k] == c);
            }
        } else {
            if rest.contains(c) {
                let k = choose|k: int| 0 <= k < rest.len() && rest[k] == c;
                assert(s[n + 1 + k] == c);
            }
            lemma_fields_within(rest, sep, c, i - 1);
            assert(fields(s, sep)[i] == fields(rest, sep)[i - 1]);
        }
    }
}

/// A topic without `*` covers itself and nothing else.
pub proof fn law_literal_topics_match_themselves_only(pattern: Seq<char>, topic: Seq<char>)
    requires
        !pattern.contains('*'),
    ensures
        topic_matches(pattern, topic) <==> pattern == topic,
{
    reveal_strlit("*");
    let p = fields(pattern, '.');
    let t = fields(topic, '.');
    assert("*"@[0] == '*');
    if pattern == "*"@ {
        assert(pattern[0] == '*');
    }
    if topic_matches(pattern, topic) {
        assert forall|i: int| 0 <= i < p.len() implies p[i] == t[i] by {
            lemma_fields_within(pattern, '.', '*', i);
            assert(segment_matches(p[i], t[i]));
            if p[i] == "*"@ {
                assert(p[i][0] == '*');
            }
        }
        assert(p =~= t);
        lemma_fields_injective(pattern, topic, '.');
    }
}

/// A lone `*` covers every topic, and every topic covers itself.
pub proof fn law_topics_are_covered(topic: Seq<char>)
    ensures
        topic_matches("*"@, topic),
        topic_matches(topic, topic),
{
}

/// Segments without dots, with dots between them, are the fields of the whole.
proof fn lemma_fields_of_joined(parts: Seq<Seq<char>>)
    requires
        parts.len() > 0,
        forall|i: int| 0 <= i < parts.len() ==> !(#[trigger] parts[i]).contains('.'),
    ensures
        fields(joined(parts, seq!['.']), '.') == parts,
    decreases parts.len(),
{
    let dot = seq!['.'];
    if parts.len() == 1 {
        law_separators_part_fields(parts[0], '.', Seq::empty());
        assert(parts =~= seq![parts[0]]);
    } else {
        let first = seq![parts[0]];
        let rest = parts.skip(1);
        assert(parts =~= first + rest);
        assert forall|i: int| 0 <= i < rest.len() implies !(#[trigger] rest[i]).contains('.') by {
            assert(rest[i] == parts[i + 1]);
        }
        law_joining_in_two_runs(first, rest, dot);
        lemma_fields_of_joined(rest);
        law_separators_part_fields(parts[0], '.', joined(rest, dot));
        assert(joined(first, dot) == parts[0]);
    }
}

/// A pattern of two or more segments covers a topic exactly if both have the same number of
/// segments and each segment of the pattern is a `*` or the topic's segment in its place.
pub proof fn law_patterns_match_segment_by_segment(p: Seq<Seq<char>>, t: Seq<Seq<char>>)
    requires
        p.len() >= 2,
        t.len() >= 1,
        forall|i: int| 0 <= i < p.len() ==> !(#[trigger] p[i]).contains('.'),
        forall|i: int| 0 <= i < t.len() ==> !(#[trigger] t[i]).contains('.'),
    ensures
        topic_matches(joined(p, seq!['.']), joined(t, seq!['.'])) <==> p.len() == t.len() && (
        forall|i: int| 0 <= i < p.len() ==> #[trigger] p[i] == "*"@ || p[i] == t[i]),
{
    reveal_strlit("*");
    lemma_fields_of_joined(p);
    lemma_fields_of_joined(t);
    let pattern = joined(p, seq!['.']);
    let topic = joined(t, seq!['.']);
    if pattern == "*"@ {
        assert(!pattern.contains('.'));
        law_separators_part_fields(pattern, '.', Seq::empty());
        assert(fields(pattern, '.').len() == 1);
    }
    if topic_matches(pattern, topic) {
        assert forall|i: int| 0 <= i < p.len() implies #[trigger] p[i] == "*"@ || p[i] == t[i] by {
            assert(segment_matches(p[i], t[i]));
        }
    }
    if p.len() == t.len() && (forall|i: int|
        0 <= i < p.len() ==> #[trigger] p[i] == "*"@ || p[i] == t[i]) {
        assert forall|i: int| 0 <= i < p.len() implies segment_matches(#[trigger] p[i], t[i]) by {}
    }
}

/// A list of topics covers a topic exactly if the one at some index does, and reads it exactly if
/// the one at some index is that text.
pub proof fn law_lists_of_topics(v: Seq<Topic>, topic: Seq<char>)
    ensures
        any_matches(v, topic) <==> exists|i: int|
            0 <= i < v.len() && topic_matches((#[trigger] v[i]).text@, topic),
        any_reads(v, topic) <==> exists|i: int| 0 <= i < v.len() && (#[trigger] v[i]).text@ == topic,
{
    if any_matches(v, topic) {
        let i = choose|i: int| 0 <= i < v.len() && topic_matches(#[trigger] v[i]@, topic);
        assert(topic_matches(v[i].text@, topic));
    }
    if exists|i: int| 0 <= i < v.len() && topic_matches((#[trigger] v[i]).text@, topic) {
        let i = choose|i: int| 0 <= i < v.len() && topic_matches((#[trigger] v[i]).text@, topic);
        assert(topic_matches(v[i]@, topic));
    }
    if any_reads(v, topic) {
        let i = choose|i: int| 0 <= i < v.len() && #[trigger] v[i]@ == topic;
        assert(v[i].text@ == topic);
    }
    if exists|i: int| 0 <= i < v.len() && (#[trigger] v[i]).text@ == topic {
        let i = choose|i: int| 0 <= i < v.len() && (#[trigger] v[i]).text@ == topic;
        assert(v[i]@ == topic);
    }
}

} // verus!
