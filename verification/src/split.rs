//! Cutting text into words, fields and lines.
use vstd::prelude::*;

use crate::text::{chars_of, drop_leading, find_from, first_index, is_blank, is_char, is_space,
    is_whitespace, lemma_drop_leading, lemma_first_index, lemma_is_first_index, spaces, strs};

verus! {

// ---------------------------------------------------------------------------
// Words
// ---------------------------------------------------------------------------
/// The longest runs of characters that are not white space, in order.
pub open spec fn words(s: Seq<char>) -> Seq<Seq<char>>
    decreases s.len(),
{
    let t = drop_leading(s, spaces());
    if t.len() == 0 {
        Seq::empty()
    } else {
        let n = first_index(t, spaces());
        proof {
            lemma_drop_leading(s, spaces());
            lemma_first_index(t, spaces());
        }
        seq![t.take(n)] + words(t.skip(n))
    }
}

fn is_not_whitespace(c: char) -> (r: bool)
    ensures
        r == !is_space(c),
{
    !is_whitespace(c)
}

pub open spec fn not_spaces() -> spec_fn(char) -> bool {
    |c: char| !is_space(c)
}

/// Dropping what leads is skipping to the first character that stays.
proof fn lemma_drop_is_skip(s: Seq<char>)
    ensures
        0 <= first_index(s, not_spaces()) <= s.len(),
        drop_leading(s, spaces()) == s.skip(first_index(s, not_spaces())),
    decreases s.len(),
{
    lemma_first_index(s, not_spaces());
    if s.len() > 0 && is_space(s[0]) {
        lemma_drop_is_skip(s.skip(1));
        assert(s.skip(1).skip(first_index(s.skip(1), not_spaces())) =~= s.skip(
            first_index(s, not_spaces()),
        ));
    } else {
        assert(s.skip(0) =~= s);
    }
}

/// The words of a text: the longest runs of characters that are not white space.
pub fn split_whitespace(s: &str) -> (r: Vec<&str>)
    ensures
        strs(r@) == words(s@),
{
    let chars = chars_of(s);
    let mut out: Vec<&str> = Vec::new();
    let mut i: usize = 0;
    assert(s@.skip(0) =~= s@);
    assert(strs(out@) + words(s@) =~= words(s@));
    loop
        invariant
            chars@ == s@,
            i <= chars@.len(),
            words(s@) == strs(out@) + words(s@.skip(i as int)),
        ensures
            words(s@) == strs(out@),
        decreases chars@.len() - i,
    {
        let ghost rest = s@.skip(i as int);
        let start: usize = find_from(&chars, i, is_not_whitespace, Ghost(not_spaces()));
        proof {
            lemma_drop_is_skip(rest);
            assert(rest.skip(start - i) =~= s@.skip(start as int));
        }
        if start == chars.len() {
            assert(words(s@) =~= strs(out@));
            break;
        }
        let end: usize = find_from(&chars, start, is_whitespace, Ghost(spaces()));
        let ghost t = s@.skip(start as int);
        proof {
            lemma_drop_leading(rest, spaces());
            lemma_first_index(t, spaces());
            assert(t.take(end - start) =~= s@.subrange(start as int, end as int));
            assert(t.skip(end - start) =~= s@.skip(end as int));
        }
        let ghost before = strs(out@);
        out.push(s.substring_char(start, end));
        assert(strs(out@) =~= before.push(s@.subrange(start as int, end as int)));
        assert(before + (seq![s@.subrange(start as int, end as int)] + words(s@.skip(end as int)))
            =~= strs(out@) + words(s@.skip(end as int)));
        i = end;
    }
    out
}

// ---------------------------------------------------------------------------
// Fields
// ---------------------------------------------------------------------------
/// The parts of `s` between the places where `sep` stands; one more than there are such places.
pub open spec fn fields(s: Seq<char>, sep: char) -> Seq<Seq<char>>
    decreases s.len(),
{
    let n = first_index(s, is_char(sep));
    if n < 0 || n >= s.len() {
        seq![s]
    } else {
        seq![s.take(n)] + fields(s.skip(n + 1), sep)
    }
}

fn is_dot(c: char) -> (r: bool)
    ensures
        r == (c == '.'),
{
    c == '.'
}

/// The parts of `s` between its dots.
pub fn split_dots(s: &str) -> (r: Vec<&str>)
    ensures
        strs(r@) == fields(s@, '.'),
        r@.len() > 0,
{
    let chars = chars_of(s);
    let mut out: Vec<&str> = Vec::new();
    let mut i: usize = 0;
    assert(s@.skip(0) =~= s@);
    assert(strs(out@) + fields(s@, '.') =~= fields(s@, '.'));
    loop
        invariant_except_break
            fields(s@, '.') == strs(out@) + fields(s@.skip(i as int), '.'),
        invariant
            chars@ == s@,
            i <= chars@.len(),
        ensures
            fields(s@, '.') == strs(out@),
            out@.len() > 0,
        decreases chars@.len() - i,
    {
        let end: usize = find_from(&chars, i, is_dot, Ghost(is_char('.')));
        let ghost rest = s@.skip(i as int);
        let ghost before = strs(out@);
        proof {
            lemma_first_index(rest, is_char('.'));
            assert(rest.take(end - i) =~= s@.subrange(i as int, end as int));
        }
        out.push(s.substring_char(i, end));
        assert(strs(out@) =~= before.push(s@.subrange(i as int, end as int)));
        if end == chars.len() {
            assert(rest =~= s@.subrange(i as int, end as int));
            assert(before + seq![rest] =~= strs(out@));
            break;
        }
        assert(rest.skip(end - i + 1) =~= s@.skip(end + 1));
        assert(before + (seq![rest.take(end - i)] + fields(s@.skip(end + 1), '.')) =~= strs(out@)
            + fields(s@.skip(end + 1), '.'));
        i = end + 1;
    }
    out
}

// ---------------------------------------------------------------------------
// Lines
// ---------------------------------------------------------------------------
/// A line without the carriage return that may precede its line feed.
pub open spec fn without_cr(s: Seq<char>) -> Seq<char> {
    if s.len() > 0 && s.last() == '\r' {
        s.drop_last()
    } else {
        s
    }
}

/// The lines of a text. A line ends at a line feed, or at a carriage return and a line feed; the
/// last one may also end with the text.
pub open spec fn lines_of(s: Seq<char>) -> Seq<Seq<char>>
    decreases s.len(),
{
    let n = first_index(s, is_char('\n'));
    if s.len() == 0 {
        Seq::empty()
    } else if n < 0 || n >= s.len() {
        seq![s]
    } else {
        seq![without_cr(s.take(n))] + lines_of(s.skip(n + 1))
    }
}

fn is_line_feed(c: char) -> (r: bool)
    ensures
        r == (c == '\n'),
{
    c == '\n'
}

/// The lines of a text, without their endings.
pub fn lines(s: &str) -> (r: Vec<&str>)
    ensures
        strs(r@) == lines_of(s@),
{
    let chars = chars_of(s);
    let mut out: Vec<&str> = Vec::new();
    let mut i: usize = 0;
    assert(s@.skip(0) =~= s@);
    assert(strs(out@) + lines_of(s@) =~= lines_of(s@));
    while i < chars.len()
        invariant
            chars@ == s@,
            i <= chars@.len(),
            lines_of(s@) == strs(out@) + lines_of(s@.skip(i as int)),
        decreases chars@.len() - i,
    {
        let end: usize = find_from(&chars, i, is_line_feed, Ghost(is_char('\n')));
        let ghost rest = s@.skip(i as int);
        let ghost before = strs(out@);
        proof {
            lemma_first_index(rest, is_char('\n'));
            assert(rest.take(end - i) =~= s@.subrange(i as int, end as int));
        }
        if end == chars.len() {
            out.push(s.substring_char(i, end));
            assert(strs(out@) =~= before.push(rest));
            assert(s@.skip(end as int).len() == 0);
            assert(before + seq![rest] =~= strs(out@) + lines_of(s@.skip(end as int)));
            i = end;
        } else {
            let cut: usize = if end > i && chars[end - 1] == '\r' {
                end - 1
            } else {
                end
            };
            out.push(s.substring_char(i, cut));
            assert(without_cr(rest.take(end - i)) =~= s@.subrange(i as int, cut as int));
            assert(strs(out@) =~= before.push(s@.subrange(i as int, cut as int)));
            assert(rest.skip(end - i + 1) =~= s@.skip(end + 1));
            assert(before + (seq![without_cr(rest.take(end - i))] + lines_of(s@.skip(end + 1)))
                =~= strs(out@) + lines_of(s@.skip(end + 1)));
            i = end + 1;
        }
    }
    assert(s@.skip(i as int).len() == 0);
    assert(strs(out@) + lines_of(s@.skip(i as int)) =~= strs(out@));
    out
}

// ---------------------------------------------------------------------------
// Laws
// ---------------------------------------------------------------------------
/// No line holds a line feed.
pub proof fn law_lines_hold_no_line_feed(s: Seq<char>, i: int)
    requires
        0 <= i < lines_of(s).len(),
    ensures
        !lines_of(s)[i].contains('\n'),
    decreases s.len(),
{
    lemma_first_index(s, is_char('\n'));
    let n = first_index(s, is_char('\n'));
    if n >= s.len() {
        if s.contains('\n') {
            let k = choose|k: int| 0 <= k < s.len() && s[k] == '\n';
            assert(!is_char('\n')(s[k]));
        }
    } else if i == 0 {
        let line = lines_of(s)[0];
        if line.contains('\n') {
            let k = choose|k: int| 0 <= k < line.len() && line[k] == '\n';
            assert(s[k] == '\n');
            assert(!is_char('\n')(s[k]));
        }
    } else {
        law_lines_hold_no_line_feed(s.skip(n + 1), i - 1);
        assert(lines_of(s)[i] == lines_of(s.skip(n + 1))[i - 1]);
    }
}

/// A run of characters without white space is one word.
pub proof fn law_one_word(w: Seq<char>)
    requires
        w.len() > 0,
        forall|i: int| 0 <= i < w.len() ==> !is_space(#[trigger] w[i]),
    ensures
        words(w) == seq![w],
{
    lemma_first_index(w, spaces());
    let n = first_index(w, spaces());
    if n < w.len() {
        assert(spaces()(w[n]));
    }
    assert(w.take(n) =~= w);
    assert(!spaces()(w[0]));
    assert(drop_leading(w, spaces()) == w);
    assert(words(w.skip(n)) =~= Seq::empty());
    assert(words(w) =~= seq![w]);
}

/// White space between two texts parts their words.
pub proof fn law_white_space_parts_words(a: Seq<char>, c: char, b: Seq<char>)
    requires
        is_space(c),
    ensures
        words(a + seq![c] + b) == words(a) + words(b),
    decreases a.len(),
{
    let s = a + seq![c] + b;
    if a.len() == 0 {
        assert(s.skip(1) =~= b);
        assert(words(a) + words(b) =~= words(b));
    } else if is_space(a[0]) {
        assert(s.skip(1) =~= a.skip(1) + seq![c] + b);
        law_white_space_parts_words(a.skip(1), c, b);
    } else {
        assert(s[0] == a[0]);
        lemma_first_index(a, spaces());
        let m = first_index(a, spaces());
        assert forall|i: int| 0 <= i < m implies !spaces()(#[trigger] s[i]) by {
            assert(s[i] == a[i]);
        }
        assert(spaces()(s[m])) by {
            if m < a.len() {
                assert(s[m] == a[m]);
            }
        }
        lemma_is_first_index(s, spaces(), m);
        assert(m > 0);
        assert(s.take(m) =~= a.take(m));
        assert(s.skip(m) =~= a.skip(m) + seq![c] + b);
        law_white_space_parts_words(a.skip(m), c, b);
        assert(words(s) == seq![a.take(m)] + (words(a.skip(m)) + words(b)));
        assert(words(a) == seq![a.take(m)] + words(a.skip(m)));
        assert(words(s) =~= words(a) + words(b));
    }
}

/// A blank text has no words.
pub proof fn law_blank_texts_have_no_words(s: Seq<char>)
    requires
        is_blank(s),
    ensures
        words(s) == Seq::<Seq<char>>::empty(),
{
    lemma_drop_leading(s, spaces());
    let t = drop_leading(s, spaces());
    if t.len() > 0 {
        assert(t[0] == s[s.len() - t.len()]);
    }
}

/// A text without the separator is one field; a separator behind such a text parts the fields.
pub proof fn law_separators_part_fields(a: Seq<char>, sep: char, b: Seq<char>)
    requires
        !a.contains(sep),
    ensures
        fields(a, sep) == seq![a],
        fields(a + seq![sep] + b, sep) == seq![a] + fields(b, sep),
{
    let s = a + seq![sep] + b;
    assert forall|i: int| 0 <= i < a.len() implies !is_char(sep)(#[trigger] a[i]) by {
        assert(a.contains(a[i]));
    }
    lemma_is_first_index(a, is_char(sep), a.len() as int);
    assert forall|i: int| 0 <= i < a.len() implies !is_char(sep)(#[trigger] s[i]) by {
        assert(s[i] == a[i]);
    }
    assert(s[a.len() as int] == sep);
    lemma_is_first_index(s, is_char(sep), a.len() as int);
    assert(s.take(a.len() as int) =~= a);
    assert(s.skip(a.len() as int + 1) =~= b);
}

/// A text without line feeds is one line, unless it is empty; a line feed behind such a text ends
/// a line, which loses a carriage return at its end.
pub proof fn law_line_feeds_end_lines(a: Seq<char>, b: Seq<char>)
    requires
        !a.contains('\n'),
    ensures
        lines_of(a) == if a.len() == 0 {
            Seq::<Seq<char>>::empty()
        } else {
            seq![a]
        },
        lines_of(a + seq!['\n'] + b) == seq![
            if a.len() > 0 && a.last() == '\r' {
                a.drop_last()
            } else {
                a
            },
        ] + lines_of(b),
{
    let s = a + seq!['\n'] + b;
    assert forall|i: int| 0 <= i < a.len() implies !is_char('\n')(#[trigger] a[i]) by {
        assert(a.contains(a[i]));
    }
    lemma_is_first_index(a, is_char('\n'), a.len() as int);
    assert forall|i: int| 0 <= i < a.len() implies !is_char('\n')(#[trigger] s[i]) by {
        assert(s[i] == a[i]);
    }
    assert(s[a.len() as int] == '\n');
    lemma_is_first_index(s, is_char('\n'), a.len() as int);
    assert(s.take(a.len() as int) =~= a);
    assert(s.skip(a.len() as int + 1) =~= b);
}

} // verus!
