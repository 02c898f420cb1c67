//! Showing the topology, and the diagrams that a backend draws of it.
use vstd::prelude::*;

use crate::args::GraphFormat;
use crate::backend::{choice_name, flag_is_bad, resolve_backend, unknown_backend_text,
    wanted_backend, BackendChoice};
use crate::format::{concat3, concat5, join, joined, signed_decimal, signed_number};
use crate::graph::{build_diagram_prompt, compact_text, generate_compact_graph,
    generate_mermaid_string, mermaid_text, prompt_text};
use crate::registry::{HatRegistry, RalphConfig};
use crate::split::{lines, lines_of};
use crate::text::{ascii_lower, ascii_lowered, begins_with, ends_in, ends_with, first_index, gather,
    is_blank, law_blank_texts_are_trimmed_away, lemma_first_index, lemma_gather_concat,
    lemma_gather_ends, lemma_gather_step, lemma_is_first_index, lemma_trimmed_keeps_the_start,
    opt_str, starts_with, strs, texts, trim, trimmed};

verus! {

// ---------------------------------------------------------------------------
// The diagram in a response
// ---------------------------------------------------------------------------
/// A character that diagrams are drawn with: arrows, box drawing, block elements and geometric
/// shapes.
pub open spec fn is_drawing(c: char) -> bool {
    let n = c as int;
    0x2190 <= n <= 0x21ff || 0x2500 <= n <= 0x25ff
}

/// A character of ASCII, or one that diagrams are drawn with.
pub open spec fn is_plain(c: char) -> bool {
    c as int <= 0x7f || is_drawing(c)
}

pub open spec fn not_plain() -> spec_fn(char) -> bool {
    |c: char| !is_plain(c)
}

/// The beginning of a text, up to the first character that is not plain.
pub open spec fn plain_start(s: Seq<char>) -> Seq<char> {
    s.take(first_index(s, not_plain()))
}

/// What `str::to_lowercase` makes of the end of a text, from the first character on that is not
/// plain.
pub uninterp spec fn lowercase_behind_plain(s: Seq<char>) -> Seq<char>;

/// A text in small letters.
pub open spec fn lowercase(s: Seq<char>) -> Seq<char> {
    if plain_start(s) == s {
        ascii_lowered(s)
    } else {
        ascii_lowered(plain_start(s)) + lowercase_behind_plain(s)
    }
}

/// `str::to_lowercase` goes through a text character by character. Of ASCII it gives the small
/// letters for the capital ones and keeps the others; the characters that diagrams are drawn with
/// have no small letters and are kept. So much is said up to the first character that is neither.
/// What comes from there on depends on the text alone; not said is what it is.
pub assume_specification[ str::to_lowercase ](s: &str) -> (r: String)
    ensures
        plain_start(s@) == s@ ==> r@ == ascii_lowered(s@),
        plain_start(s@) != s@ ==> r@ == ascii_lowered(plain_start(s@)) + lowercase_behind_plain(
            s@,
        ),
;

/// A line of a response, and the same line in small letters.
#[derive(Debug)]
pub struct ResponseLine {
    pub text: String,
    pub lowered: String,
}

/// The texts of some lines, each with its small letters.
pub open spec fn line_pairs(v: Seq<ResponseLine>) -> Seq<(Seq<char>, Seq<char>)> {
    Seq::new(v.len(), |i: int| (v[i].text@, v[i].lowered@))
}

/// A line that opens or closes a block in markdown.
pub open spec fn is_fence(line: Seq<char>) -> bool {
    begins_with(line, "```"@)
}

/// A blank line, or one that begins with "here" in any case.
pub open spec fn is_intro(line: (Seq<char>, Seq<char>)) -> bool {
    trimmed(line.0).len() == 0 || begins_with(line.1, "here"@)
}

pub open spec fn unless_fence() -> spec_fn((Seq<char>, Seq<char>)) -> Seq<(Seq<char>, Seq<char>)> {
    |line: (Seq<char>, Seq<char>)|
        if is_fence(line.0) {
            Seq::empty()
        } else {
            seq![line]
        }
}

pub open spec fn no_intro() -> spec_fn((Seq<char>, Seq<char>)) -> bool {
    |line: (Seq<char>, Seq<char>)| !is_intro(line)
}

/// The lines of a diagram: all but the fences, from the first one that is no introduction.
pub open spec fn diagram_lines(lines: Seq<(Seq<char>, Seq<char>)>) -> Seq<
    (Seq<char>, Seq<char>),
> {
    let unfenced = gather(lines, unless_fence());
    unfenced.skip(first_index(unfenced, no_intro()))
}

/// The first of each pair.
pub open spec fn firsts(lines: Seq<(Seq<char>, Seq<char>)>) -> Seq<Seq<char>> {
    Seq::new(lines.len(), |i: int| lines[i].0)
}

/// A text with a line feed at its end.
pub open spec fn terminated(s: Seq<char>) -> Seq<char> {
    if ends_in(s, "\n"@) {
        s
    } else {
        s + "\n"@
    }
}

/// The diagram in the lines of a response.
pub open spec fn diagram_text(lines: Seq<(Seq<char>, Seq<char>)>) -> Seq<char> {
    terminated(joined(firsts(diagram_lines(lines)), "\n"@))
}

/// The lines of a response, each with its small letters.
pub open spec fn response_lines(response: Seq<char>) -> Seq<(Seq<char>, Seq<char>)> {
    Seq::new(
        lines_of(response).len(),
        |i: int| (lines_of(response)[i], lowercase(lines_of(response)[i])),
    )
}

/// The diagram in the lines of a response: without markdown fences, and without the blank lines
/// and introductions in front of it.
pub fn diagram_from_lines(lines: &Vec<ResponseLine>) -> (r: String)
    ensures
        r@ == diagram_text(line_pairs(lines@)),
{
    let ghost all = line_pairs(lines@);
    let mut kept: Vec<&ResponseLine> = Vec::new();
    let ghost mut unfenced: Seq<(Seq<char>, Seq<char>)> = Seq::empty();
    proof {
        lemma_gather_ends(all, unless_fence());
    }
    for i in 0..lines.len()
        invariant
            all == line_pairs(lines@),
            unfenced == gather(all.take(i as int), unless_fence()),
            unfenced.len() == kept@.len(),
            forall|k: int|
                0 <= k < kept@.len() ==> #[trigger] unfenced[k] == (
                    kept@[k].text@,
                    kept@[k].lowered@,
                ),
    {
        proof {
            lemma_gather_step(all, i as int, unless_fence());
        }
        if !starts_with(lines[i].text.as_str(), "```") {
            kept.push(&lines[i]);
            proof {
                assert(unless_fence()(all[i as int]) == seq![all[i as int]]);
                unfenced = unfenced + seq![all[i as int]];
            }
        } else {
            assert(unfenced + unless_fence()(all[i as int]) =~= unfenced);
        }
    }
    proof {
        lemma_gather_ends(all, unless_fence());
    }
    let mut start: usize = 0;
    while start < kept.len() && (trim(kept[start].text.as_str()).is_empty() || starts_with(
        kept[start].lowered.as_str(),
        "here",
    ))
        invariant
            start <= kept@.len(),
            unfenced.len() == kept@.len(),
            forall|k: int|
                0 <= k < kept@.len() ==> #[trigger] unfenced[k] == (
                    kept@[k].text@,
                    kept@[k].lowered@,
                ),
            forall|k: int| 0 <= k < start ==> !no_intro()(#[trigger] unfenced[k]),
        ensures
            start <= kept@.len(),
            forall|k: int| 0 <= k < start ==> !no_intro()(#[trigger] unfenced[k]),
            start < kept@.len() ==> no_intro()(unfenced[start as int]),
        decreases kept@.len() - start,
    {
        start = start + 1;
    }
    proof {
        lemma_is_first_index(unfenced, no_intro(), start as int);
    }
    let mut parts: Vec<&str> = Vec::new();
    for i in start..kept.len()
        invariant
            start <= kept@.len(),
            unfenced.len() == kept@.len(),
            forall|k: int|
                0 <= k < kept@.len() ==> #[trigger] unfenced[k] == (
                    kept@[k].text@,
                    kept@[k].lowered@,
                ),
            parts@.len() == i - start,
            forall|k: int| 0 <= k < parts@.len() ==> (#[trigger] parts@[k])@ == unfenced[start
                + k].0,
    {
        parts.push(kept[i].text.as_str());
    }
    assert(strs(parts@) =~= firsts(unfenced.skip(start as int)));
    let mut text = join(&parts, "\n");
    if !ends_with(text.as_str(), "\n") {
        text.append("\n");
    }
    text
}

/// Extracts the ASCII diagram from a backend's response.
/// Removes any markdown fences or explanatory text.
pub fn extract_diagram(response: &str) -> (r: String)
    ensures
        r@ == diagram_text(response_lines(response@)),
{
    let parts = lines(response);
    let ghost all = response_lines(response@);
    let mut pairs: Vec<ResponseLine> = Vec::new();
    for i in 0..parts.len()
        invariant
            all == response_lines(response@),
            strs(parts@) == lines_of(response@),
            line_pairs(pairs@) == all.take(i as int),
    {
        let ghost before = line_pairs(pairs@);
        assert(parts@[i as int]@ == lines_of(response@)[i as int]);
        let lowered = parts[i].to_lowercase();
        pairs.push(ResponseLine { text: parts[i].to_owned(), lowered });
        assert(line_pairs(pairs@) =~= before.push(all[i as int]));
        assert(all.take(i + 1) =~= all.take(i as int).push(all[i as int]));
    }
    assert(all.take(parts@.len() as int) =~= all);
    diagram_from_lines(&pairs)
}

/// The plain characters at the start of a line are lowered one by one.
proof fn lemma_lowered_start(line: Seq<char>, n: int)
    requires
        0 <= n <= line.len(),
        forall|i: int| 0 <= i < n ==> is_plain(#[trigger] line[i]),
    ensures
        lowercase(line).len() >= n,
        lowercase(line).take(n) == ascii_lowered(line.take(n)),
{
    lemma_first_index(line, not_plain());
    let m = first_index(line, not_plain());
    if m < n {
        assert(not_plain()(line[m]));
        assert(is_plain(line[m]));
    }
    let low = lowercase(line);
    assert forall|i: int| 0 <= i < n implies low[i] == ascii_lower(#[trigger] line[i]) by {
        if plain_start(line) != line {
            assert(low[i] == ascii_lowered(plain_start(line))[i]);
            assert(plain_start(line)[i] == line[i]);
        }
    }
    assert(low.take(n) =~= ascii_lowered(line.take(n)));
}

/// Where the first four characters of a line are in ASCII or drawn, the line is an introduction
/// exactly if it is blank or they read "here" in any case, whatever follows them.
pub proof fn law_here_begins_an_introduction(line: Seq<char>)
    requires
        line.len() >= 4,
        forall|i: int| 0 <= i < 4 ==> is_plain(#[trigger] line[i]),
    ensures
        is_intro((line, lowercase(line))) <==> trimmed(line).len() == 0 || ascii_lowered(
            line.take(4),
        ) == "here"@,
{
    reveal_strlit("here");
    lemma_lowered_start(line, 4);
}

/// A line that begins with a character that diagrams are drawn with is no introduction.
pub proof fn law_drawn_lines_are_no_introduction(line: Seq<char>)
    requires
        line.len() > 0,
        is_drawing(line[0]),
    ensures
        !is_intro((line, lowercase(line))),
{
    reveal_strlit("here");
    let low = lowercase(line);
    lemma_lowered_start(line, 1);
    assert(low.take(1)[0] == line[0]);
    assert(low[0] == line[0]);
    if begins_with(low, "here"@) {
        assert(low.take(4)[0] == 'h');
    }
    lemma_trimmed_keeps_the_start(line);
}

/// A response that begins with a drawn line and has no fences is kept whole.
pub proof fn law_drawn_responses_are_kept(response: Seq<char>)
    requires
        lines_of(response).len() > 0,
        lines_of(response)[0].len() > 0,
        is_drawing(lines_of(response)[0][0]),
        forall|i: int|
            0 <= i < lines_of(response).len() ==> !is_fence(#[trigger] lines_of(response)[i]),
    ensures
        diagram_text(response_lines(response)) == terminated(joined(lines_of(response), "\n"@)),
{
    let lines = response_lines(response);
    assert forall|i: int| 0 <= i < lines.len() implies !is_fence((#[trigger] lines[i]).0) by {
        assert(lines[i].0 == lines_of(response)[i]);
    }
    law_drawn_lines_are_no_introduction(lines_of(response)[0]);
    assert(lines[0] == (lines_of(response)[0], lowercase(lines_of(response)[0])));
    law_plain_diagrams_are_kept(lines);
    assert(firsts(lines) =~= lines_of(response));
}

/// No line of a diagram is a fence, and the first one is neither blank nor an introduction.
pub proof fn law_diagram_is_clean(lines: Seq<(Seq<char>, Seq<char>)>)
    ensures
        forall|i: int|
            0 <= i < diagram_lines(lines).len() ==> !is_fence(
                (#[trigger] diagram_lines(lines)[i]).0,
            ),
        diagram_lines(lines).len() > 0 ==> !is_intro(diagram_lines(lines)[0]),
{
    let unfenced = gather(lines, unless_fence());
    lemma_unfenced(lines);
    lemma_first_index(unfenced, no_intro());
    assert forall|i: int| 0 <= i < diagram_lines(lines).len() implies !is_fence(
        (#[trigger] diagram_lines(lines)[i]).0,
    ) by {
        assert(diagram_lines(lines)[i] == unfenced[first_index(unfenced, no_intro()) + i]);
    }
}

proof fn lemma_unfenced(lines: Seq<(Seq<char>, Seq<char>)>)
    ensures
        forall|i: int|
            0 <= i < gather(lines, unless_fence()).len() ==> !is_fence(
                (#[trigger] gather(lines, unless_fence())[i]).0,
            ),
    decreases lines.len(),
{
    if lines.len() > 0 {
        let before = gather(lines.drop_last(), unless_fence());
        lemma_unfenced(lines.drop_last());
        assert forall|i: int| 0 <= i < gather(lines, unless_fence()).len() implies !is_fence(
            (#[trigger] gather(lines, unless_fence())[i]).0,
        ) by {
            if i < before.len() {
                assert(gather(lines, unless_fence())[i] == before[i]);
            } else {
                assert(gather(lines, unless_fence())[i] == lines.last());
            }
        }
    }
}

/// Lines without fences that begin with the diagram are kept as they are.
pub proof fn law_plain_diagrams_are_kept(lines: Seq<(Seq<char>, Seq<char>)>)
    requires
        forall|i: int| 0 <= i < lines.len() ==> !is_fence((#[trigger] lines[i]).0),
        lines.len() > 0 ==> !is_intro(lines[0]),
    ensures
        diagram_lines(lines) == lines,
{
    lemma_nothing_fenced(lines);
    assert(lines.skip(0) =~= lines);
}

proof fn lemma_nothing_fenced(lines: Seq<(Seq<char>, Seq<char>)>)
    requires
        forall|i: int| 0 <= i < lines.len() ==> !is_fence((#[trigger] lines[i]).0),
    ensures
        gather(lines, unless_fence()) == lines,
    decreases lines.len(),
{
    if lines.len() > 0 {
        let front = lines.drop_last();
        assert forall|i: int| 0 <= i < front.len() implies !is_fence((#[trigger] front[i]).0) by {
            assert(front[i] == lines[i]);
        }
        lemma_nothing_fenced(front);
        assert(!is_fence(lines[lines.len() - 1].0));
        assert(front + seq![lines.last()] =~= lines);
    }
}

/// A diagram ends with a line feed.
pub proof fn law_diagram_ends_its_last_line(lines: Seq<(Seq<char>, Seq<char>)>)
    ensures
        ends_in(diagram_text(lines), "\n"@),
{
    let s = joined(firsts(diagram_lines(lines)), "\n"@);
    assert((s + "\n"@).skip(s.len() as int) =~= "\n"@);
}

// ---------------------------------------------------------------------------
// Laws on what is left out
// ---------------------------------------------------------------------------
/// A line, with its small letters, that may be left out in front of a diagram: it begins with three
/// backticks, holds white space only, or begins with "here".
pub open spec fn may_stand_in_front(line: (Seq<char>, Seq<char>)) -> bool {
    begins_with(line.0, "```"@) || trimmed(line.0).len() == 0 || begins_with(line.1, "here"@)
}

pub open spec fn unfenced_pair() -> spec_fn((Seq<char>, Seq<char>)) -> bool {
    |line: (Seq<char>, Seq<char>)| !begins_with(line.0, "```"@)
}

pub open spec fn unfenced_text() -> spec_fn(Seq<char>) -> bool {
    |line: Seq<char>| !begins_with(line, "```"@)
}

proof fn lemma_unfenced_is_filter(lines: Seq<(Seq<char>, Seq<char>)>)
    ensures
        gather(lines, unless_fence()) == lines.filter(unfenced_pair()),
    decreases lines.len(),
{
    reveal(Seq::filter);
    if lines.len() > 0 {
        lemma_unfenced_is_filter(lines.drop_last());
        assert(gather(lines, unless_fence()) =~= lines.filter(unfenced_pair()));
    } else {
        assert(gather(lines, unless_fence()) =~= lines.filter(unfenced_pair()));
    }
}

proof fn lemma_front_is_intro(front: Seq<(Seq<char>, Seq<char>)>)
    requires
        forall|i: int| 0 <= i < front.len() ==> may_stand_in_front(#[trigger] front[i]),
    ensures
        forall|i: int|
            0 <= i < gather(front, unless_fence()).len() ==> is_intro(
                #[trigger] gather(front, unless_fence())[i],
            ),
    decreases front.len(),
{
    if front.len() > 0 {
        let before = front.drop_last();
        assert forall|i: int| 0 <= i < before.len() implies may_stand_in_front(
            #[trigger] before[i],
        ) by {
            assert(before[i] == front[i]);
        }
        lemma_front_is_intro(before);
        assert(may_stand_in_front(front[front.len() - 1]));
        let all = gather(front, unless_fence());
        let some = gather(before, unless_fence());
        assert forall|i: int| 0 <= i < all.len() implies is_intro(#[trigger] all[i]) by {
            if i < some.len() {
                assert(all[i] == some[i]);
            } else {
                assert(all[i] == front.last());
            }
        }
    }
}

/// Nothing is left out of a response but fences, and in front of the diagram blank lines and
/// introductions: from the first line on that is none of these, every line that is no fence is a
/// line of the diagram, in order.
pub proof fn law_only_fences_and_introductions_are_left_out(
    front: Seq<(Seq<char>, Seq<char>)>,
    rest: Seq<(Seq<char>, Seq<char>)>,
)
    requires
        forall|i: int| 0 <= i < front.len() ==> may_stand_in_front(#[trigger] front[i]),
        rest.len() > 0 ==> !may_stand_in_front(rest[0]),
    ensures
        diagram_lines(front + rest) == rest.filter(unfenced_pair()),
{
    let skipped = gather(front, unless_fence());
    let kept = gather(rest, unless_fence());
    let all = gather(front + rest, unless_fence());
    lemma_gather_concat(front, rest, unless_fence());
    lemma_front_is_intro(front);
    lemma_unfenced_is_filter(rest);
    if rest.len() > 0 {
        assert(seq![rest[0]] + rest.skip(1) =~= rest);
        lemma_gather_concat(seq![rest[0]], rest.skip(1), unless_fence());
        lemma_gather_step(rest, 0, unless_fence());
        lemma_gather_ends(rest, unless_fence());
        assert(rest.take(1) =~= seq![rest[0]]);
        assert(kept[0] == rest[0]);
        assert(all[skipped.len() as int] == rest[0]);
    }
    assert forall|i: int| 0 <= i < skipped.len() implies !no_intro()(#[trigger] all[i]) by {
        assert(all[i] == skipped[i]);
    }
    lemma_is_first_index(all, no_intro(), skipped.len() as int);
    assert(all.skip(skipped.len() as int) =~= kept);
}

/// A diagram between two fences is taken out of them whole; and so is one behind blank lines and
/// introductions, with a fence around it or without.
pub proof fn law_diagrams_are_taken_out_whole(
    opening: (Seq<char>, Seq<char>),
    front: Seq<(Seq<char>, Seq<char>)>,
    diagram: Seq<(Seq<char>, Seq<char>)>,
    closing: (Seq<char>, Seq<char>),
)
    requires
        begins_with(opening.0, "```"@),
        begins_with(closing.0, "```"@),
        forall|i: int|
            0 <= i < front.len() ==> trimmed((#[trigger] front[i]).0).len() == 0 || begins_with(
                front[i].1,
                "here"@,
            ),
        forall|i: int|
            0 <= i < diagram.len() ==> !begins_with((#[trigger] diagram[i]).0, "```"@),
        diagram.len() > 0 ==> trimmed(diagram[0].0).len() > 0 && !begins_with(
            diagram[0].1,
            "here"@,
        ),
    ensures
        diagram_lines(seq![opening] + diagram + seq![closing]) == diagram,
        diagram_lines(front + diagram) == diagram,
        diagram_lines(front + seq![opening] + diagram + seq![closing]) == diagram,
{
    lemma_nothing_fenced(diagram);
    lemma_unfenced_is_filter(diagram);
    law_only_fences_and_introductions_are_left_out(front, diagram);
    lemma_out_of_fences(seq![opening], diagram, closing);
    let led = front + seq![opening];
    lemma_out_of_fences(led, diagram, closing);
}

proof fn lemma_closing_fence(
    diagram: Seq<(Seq<char>, Seq<char>)>,
    closing: (Seq<char>, Seq<char>),
)
    requires
        begins_with(closing.0, "```"@),
        forall|i: int|
            0 <= i < diagram.len() ==> !begins_with((#[trigger] diagram[i]).0, "```"@),
    ensures
        (diagram + seq![closing]).filter(unfenced_pair()) == diagram,
{
    let rest = diagram + seq![closing];
    assert forall|i: int| 0 <= i < diagram.len() implies !is_fence((#[trigger] diagram[i]).0) by {}
    lemma_nothing_fenced(diagram);
    lemma_unfenced_is_filter(rest);
    assert(rest.drop_last() =~= diagram);
    assert(rest.last() == closing);
    assert(unless_fence()(closing) == Seq::<(Seq<char>, Seq<char>)>::empty());
    assert(gather(rest, unless_fence()) == gather(diagram, unless_fence()) + unless_fence()(
        closing,
    ));
    assert(gather(rest, unless_fence()) =~= diagram);
}

/// Where every line may stand in front of a diagram, there is none.
pub proof fn law_fences_and_introductions_are_no_diagram(lines: Seq<(Seq<char>, Seq<char>)>)
    requires
        forall|i: int| 0 <= i < lines.len() ==> may_stand_in_front(#[trigger] lines[i]),
    ensures
        diagram_lines(lines).len() == 0,
{
    let none = Seq::<(Seq<char>, Seq<char>)>::empty();
    law_only_fences_and_introductions_are_left_out(lines, none);
    assert(lines + none =~= lines);
    lemma_unfenced_is_filter(none);
    assert(gather(none, unless_fence()).len() == 0);
}

proof fn lemma_out_of_fences(
    front: Seq<(Seq<char>, Seq<char>)>,
    diagram: Seq<(Seq<char>, Seq<char>)>,
    closing: (Seq<char>, Seq<char>),
)
    requires
        forall|i: int| 0 <= i < front.len() ==> may_stand_in_front(#[trigger] front[i]),
        begins_with(closing.0, "```"@),
        forall|i: int|
            0 <= i < diagram.len() ==> !begins_with((#[trigger] diagram[i]).0, "```"@),
        diagram.len() > 0 ==> !may_stand_in_front(diagram[0]),
    ensures
        diagram_lines(front + diagram + seq![closing]) == diagram,
{
    let rest = diagram + seq![closing];
    let all = front + rest;
    assert(front + diagram + seq![closing] =~= all);
    if diagram.len() > 0 {
        lemma_closing_fence(diagram, closing);
        assert(rest[0] == diagram[0]);
        law_only_fences_and_introductions_are_left_out(front, rest);
    } else {
        assert forall|i: int| 0 <= i < all.len() implies may_stand_in_front(#[trigger] all[i]) by {
            if i < front.len() {
                assert(all[i] == front[i]);
            } else {
                assert(all[i] == closing);
            }
        }
        law_fences_and_introductions_are_no_diagram(all);
        assert(diagram_lines(all) =~= diagram);
    }
}

proof fn lemma_unfenced_texts(lines: Seq<Seq<char>>, pairs: Seq<(Seq<char>, Seq<char>)>)
    requires
        pairs.len() == lines.len(),
        forall|i: int| 0 <= i < lines.len() ==> (#[trigger] pairs[i]).0 == lines[i],
    ensures
        firsts(pairs.filter(unfenced_pair())) == lines.filter(unfenced_text()),
    decreases lines.len(),
{
    reveal(Seq::filter);
    if lines.len() > 0 {
        let n = lines.len() - 1;
        assert forall|i: int| 0 <= i < n implies (#[trigger] pairs.drop_last()[i]).0
            == lines.drop_last()[i] by {
            assert(pairs.drop_last()[i] == pairs[i]);
        }
        lemma_unfenced_texts(lines.drop_last(), pairs.drop_last());
        assert(pairs[n].0 == lines[n]);
    }
    assert(firsts(pairs.filter(unfenced_pair())) =~= lines.filter(unfenced_text()));
}

/// The diagram in a response, line by line: behind fences, blank lines and lines that begin with
/// "here" in any case, all lines that are no fences, each ended by a line feed.
pub proof fn law_responses_hold_diagrams(
    response: Seq<char>,
    front: Seq<Seq<char>>,
    rest: Seq<Seq<char>>,
)
    requires
        lines_of(response) == front + rest,
        forall|i: int|
            0 <= i < front.len() ==> begins_with(#[trigger] front[i], "```"@) || trimmed(
                front[i],
            ).len() == 0 || begins_with(lowercase(front[i]), "here"@),
        rest.len() > 0 ==> !begins_with(rest[0], "```"@) && trimmed(rest[0]).len() > 0
            && !begins_with(lowercase(rest[0]), "here"@),
    ensures
        ({
            let text = joined(rest.filter(unfenced_text()), "\n"@);
            diagram_text(response_lines(response)) == if text.len() > 0 && text.last() == '\n' {
                text
            } else {
                text + "\n"@
            }
        }),
{
    let all = response_lines(response);
    let n = front.len() as int;
    let a = all.take(n);
    let b = all.skip(n);
    assert(all =~= a + b);
    assert forall|i: int| 0 <= i < a.len() implies may_stand_in_front(#[trigger] a[i]) by {
        assert(lines_of(response)[i] == front[i]);
    }
    assert forall|i: int| 0 <= i < b.len() implies (#[trigger] b[i]).0 == rest[i] by {
        assert(lines_of(response)[n + i] == rest[i]);
    }
    if rest.len() > 0 {
        assert(lines_of(response)[n] == rest[0]);
        assert(b[0] == (rest[0], lowercase(rest[0])));
    }
    law_only_fences_and_introductions_are_left_out(a, b);
    lemma_unfenced_texts(rest, b);
    let text = joined(rest.filter(unfenced_text()), "\n"@);
    reveal_strlit("\n");
    if text.len() > 0 {
        let last = text.skip(text.len() - 1);
        assert(last[0] == text.last());
        if text.last() == '\n' {
            assert(last =~= "\n"@);
        }
    }
}

/// The lines of a response are seen as they are, in their places.
pub proof fn law_lines_keep_their_places(lines: Seq<ResponseLine>, response: Seq<char>, i: int)
    ensures
        line_pairs(lines).len() == lines.len(),
        0 <= i < lines.len() ==> line_pairs(lines)[i] == (lines[i].text@, lines[i].lowered@),
        response_lines(response).len() == lines_of(response).len(),
        0 <= i < lines_of(response).len() ==> response_lines(response)[i] == (
            lines_of(response)[i],
            lowercase(lines_of(response)[i]),
        ),
{
}

/// A text in ASCII is lowered character by character: capital letters become small ones, and
/// everything else stays as it is.
pub proof fn law_ascii_is_lowered_by_character(line: Seq<char>, i: int)
    requires
        0 <= i < line.len(),
        forall|k: int| 0 <= k < line.len() ==> (#[trigger] line[k]) as int <= 0x7f,
    ensures
        lowercase(line).len() == line.len(),
        'A' <= line[i] <= 'Z' ==> lowercase(line)[i] as int == line[i] as int + 32,
        !('A' <= line[i] <= 'Z') ==> lowercase(line)[i] == line[i],
{
    lemma_first_index(line, not_plain());
    let m = first_index(line, not_plain());
    if m < line.len() {
        assert(not_plain()(line[m]));
        assert(line[m] as int <= 0x7f);
    }
    assert(plain_start(line) =~= line);
}

// ---------------------------------------------------------------------------
// Asking a backend
// ---------------------------------------------------------------------------
/// What is to be done for a diagram.
#[derive(Debug, PartialEq)]
pub enum DiagramStep {
    /// Show this text.
    Ready(String),
    /// Hand the prompt to the backend.
    Ask { backend: BackendChoice, prompt: String },
}

/// What a backend answered.
#[derive(Debug)]
pub struct BackendReply {
    /// The backend ended without an error.
    pub success: bool,
    /// The exit code of the backend, unless a signal ended it.
    pub exit_code: Option<i32>,
    pub stdout: String,
    pub stderr: String,
}

/// Render hat topology as ASCII DAG by calling a backend: says which backend to ask, and what.
pub fn render_hat_dag_via_ai(
    config: &RalphConfig,
    registry: &HatRegistry,
    backend_override: Option<&str>,
    known: &Vec<String>,
) -> (r: Result<DiagramStep, String>)
    ensures
        match r {
            Ok(DiagramStep::Ready(text)) => registry.hats().len() == 0 && text@
                == "No hats configured.\n"@,
            Ok(DiagramStep::Ask { backend, prompt }) => {
                &&& registry.hats().len() > 0
                &&& !flag_is_bad(opt_str(backend_override), texts(known@))
                &&& choice_name(backend) == wanted_backend(opt_str(backend_override), *config)
                &&& prompt@ == prompt_text(registry.hats())
            },
            Err(message) => {
                &&& registry.hats().len() > 0
                &&& flag_is_bad(opt_str(backend_override), texts(known@))
                &&& message@ == unknown_backend_text(
                    backend_override->0@,
                    texts(known@),
                )
            },
        },
{
    if registry.is_empty() {
        return Ok(DiagramStep::Ready("No hats configured.\n".to_owned()));
    }
    match resolve_backend(backend_override, config, known) {
        Ok(backend) => Ok(DiagramStep::Ask { backend, prompt: build_diagram_prompt(registry) }),
        Err(message) => Err(message),
    }
}

/// An exit code as it is shown.
pub open spec fn exit_code_text(code: Option<i32>) -> Seq<char> {
    match code {
        Some(code) => "Some("@ + signed_decimal(code as int) + ")"@,
        None => "None"@,
    }
}

pub open spec fn backend_failed_text(name: Seq<char>, reply: BackendReply) -> Seq<char> {
    "Backend '"@ + name + "' failed (exit code: "@ + exit_code_text(reply.exit_code) + ("):\n"@
        + reply.stderr@)
}

pub open spec fn backend_empty_text(name: Seq<char>) -> Seq<char> {
    "Backend '"@ + name + "' returned empty output"@
}

/// What is wrong with a backend's reply, if anything is.
pub open spec fn reply_failure(name: Seq<char>, reply: BackendReply) -> Option<Seq<char>> {
    if !reply.success {
        Some(backend_failed_text(name, reply))
    } else if trimmed(reply.stdout@).len() == 0 {
        Some(backend_empty_text(name))
    } else {
        None
    }
}

/// The diagram in a backend's reply, or what was wrong with the reply.
pub fn finish_diagram(backend_name: &str, reply: &BackendReply) -> (r: Result<String, String>)
    ensures
        match reply_failure(backend_name@, *reply) {
            Some(failure) => r matches Err(message) && message@ == failure,
            None => r matches Ok(text) && text@ == diagram_text(response_lines(reply.stdout@)),
        },
{
    if !reply.success {
        let code = match reply.exit_code {
            Some(code) => concat3("Some(", signed_number(code).as_str(), ")"),
            None => "None".to_owned(),
        };
        let mut end = "):\n".to_owned();
        end.append(reply.stderr.as_str());
        return Err(
            concat5(
                "Backend '",
                backend_name,
                "' failed (exit code: ",
                code.as_str(),
                end.as_str(),
            ),
        );
    }
    if trim(reply.stdout.as_str()).is_empty() {
        return Err(concat3("Backend '", backend_name, "' returned empty output"));
    }
    Ok(extract_diagram(reply.stdout.as_str()))
}

/// What is left to do for a graph.
#[derive(Debug, PartialEq)]
pub enum GraphStep {
    /// Nothing: the graph is written.
    Written,
    /// Hand the prompt to the backend, and write the diagram in its reply.
    Ask { backend: BackendChoice, prompt: String },
}

/// The graph that is written without a backend.
pub open spec fn graph_text(registry: HatRegistry, format: GraphFormat) -> Option<Seq<char>> {
    match format {
        GraphFormat::Mermaid => Some(
            "```mermaid\n"@ + mermaid_text(registry.hats()) + "```\n"@,
        ),
        GraphFormat::Compact => Some(compact_text(registry.hats())),
        _ => if registry.hats().len() == 0 {
            Some("No hats configured.\n"@)
        } else {
            None
        },
    }
}

/// Writes the graph in the given format, as far as no backend is needed for it.
pub fn graph_hats(
    writer: &mut String,
    config: &RalphConfig,
    registry: &HatRegistry,
    format: GraphFormat,
    backend_override: Option<&str>,
    known: &Vec<String>,
) -> (r: Result<GraphStep, String>)
    ensures
        match graph_text(*registry, format) {
            Some(text) => r == Ok::<GraphStep, String>(GraphStep::Written) && final(writer)@ == old(
                writer,
            )@ + text,
            None => {
                &&& final(writer)@ == old(writer)@
                &&& match r {
                    Ok(GraphStep::Written) => false,
                    Ok(GraphStep::Ask { backend, prompt }) => {
                        &&& !flag_is_bad(opt_str(backend_override), texts(known@))
                        &&& choice_name(backend) == wanted_backend(
                            opt_str(backend_override),
                            *config,
                        )
                        &&& prompt@ == prompt_text(registry.hats())
                    },
                    Err(message) => {
                        &&& flag_is_bad(opt_str(backend_override), texts(known@))
                        &&& message@ == unknown_backend_text(
                            backend_override->0@,
                            texts(known@),
                        )
                    },
                }
            },
        },
{
    match format {
        GraphFormat::Mermaid => {
            let graph = generate_mermaid_string(registry);
            writer.append(concat3("```mermaid\n", graph.as_str(), "```\n").as_str());
            Ok(GraphStep::Written)
        },
        GraphFormat::Compact => {
            writer.append(generate_compact_graph(registry).as_str());
            Ok(GraphStep::Written)
        },
        GraphFormat::Unicode | GraphFormat::Ascii => {
            match render_hat_dag_via_ai(config, registry, backend_override, known) {
                Ok(DiagramStep::Ready(text)) => {
                    writer.append(text.as_str());
                    Ok(GraphStep::Written)
                },
                Ok(DiagramStep::Ask { backend, prompt }) => Ok(GraphStep::Ask { backend, prompt }),
                Err(message) => Err(message),
            }
        },
    }
}

// ---------------------------------------------------------------------------
// Laws on replies and formats
// ---------------------------------------------------------------------------
/// A backend that fails is reported with its exit code and what it wrote to standard error, whatever
/// it wrote to standard output.
pub proof fn law_failed_backends_are_reported(name: Seq<char>, reply: BackendReply)
    requires
        !reply.success,
    ensures
        reply.exit_code matches Some(code) ==> reply_failure(name, reply) == Some(
            "Backend '"@ + name + "' failed (exit code: "@ + ("Some("@ + signed_decimal(code as int)
                + ")"@) + ("):\n"@ + reply.stderr@),
        ),
        reply.exit_code is None ==> reply_failure(name, reply) == Some(
            "Backend '"@ + name + "' failed (exit code: "@ + "None"@ + ("):\n"@ + reply.stderr@),
        ),
{
}

/// A backend that succeeds is believed exactly if it wrote something besides white space to standard
/// output, whatever its exit code is and whatever it wrote to standard error.
pub proof fn law_successful_backends_are_believed(name: Seq<char>, reply: BackendReply)
    requires
        reply.success,
    ensures
        is_blank(reply.stdout@) ==> reply_failure(name, reply) == Some(
            "Backend '"@ + name + "' returned empty output"@,
        ),
        !is_blank(reply.stdout@) ==> reply_failure(name, reply) is None,
{
    law_blank_texts_are_trimmed_away(reply.stdout@);
}

/// The graph in Mermaid stands between fences, and the compact one stands by itself, with hats or
/// without; for a diagram in either character set a backend is asked exactly if there are hats.
pub proof fn law_formats_of_graphs(registry: HatRegistry, format: GraphFormat)
    ensures
        format == GraphFormat::Mermaid ==> graph_text(registry, format) == Some(
            "```mermaid\n"@ + mermaid_text(registry.hats()) + "```\n"@,
        ),
        format == GraphFormat::Compact ==> graph_text(registry, format) == Some(
            compact_text(registry.hats()),
        ),
        format == GraphFormat::Unicode || format == GraphFormat::Ascii ==> (graph_text(
            registry,
            format,
        ) is None <==> registry.hats().len() > 0),
        graph_text(registry, GraphFormat::Unicode) == graph_text(registry, GraphFormat::Ascii),
        registry.hats().len() == 0 ==> graph_text(registry, GraphFormat::Unicode) == Some(
            "No hats configured.\n"@,
        ),
{
}

} // verus!
