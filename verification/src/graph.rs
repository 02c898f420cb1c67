//! The topology as a graph: compact text, Mermaid, and the prompt for a drawn diagram.
use vstd::prelude::*;

use crate::format::{concat3, concat5};
use crate::registry::{by_name, hats_of, law_by_name_ignores_registration_order,
    law_sorting_keeps_the_hats, names_distinct, Hat, HatRegistry};
use crate::text::{chars_of, gather, is_ascii_alnum, law_parts_can_be_cut_out, lemma_gather_concat,
    lemma_gather_ends, lemma_gather_is_filter, lemma_gather_step, lemma_occurs_between,
    lemma_occurs_in_gather, lemma_occurs_whole, occurs_in, str_eq};
use crate::topic::{any_reads, law_lists_of_topics, reads_any, Topic};

verus! {

// ---------------------------------------------------------------------------
// Node names
// ---------------------------------------------------------------------------
/// What `char::is_alphanumeric` says of a character beyond ASCII: true for those with the Unicode
/// properties Alphabetic or Numeric.
pub uninterp spec fn alphanumeric_beyond_ascii(c: char) -> bool;

/// A letter or a digit.
pub open spec fn alphanumeric(c: char) -> bool {
    if c as u32 <= 0x7f {
        is_ascii_alnum(c)
    } else {
        alphanumeric_beyond_ascii(c)
    }
}

/// `char::is_alphanumeric` accepts the letters and digits of ASCII, and no other character of
/// ASCII. Beyond ASCII it depends on the character alone; not said is which ones it accepts there.
pub assume_specification[ char::is_alphanumeric ](c: char) -> (r: bool)
    ensures
        c as u32 <= 0x7f ==> r == is_ascii_alnum(c),
        c as u32 > 0x7f ==> r == alphanumeric_beyond_ascii(c),
;

pub open spec fn if_alphanumeric() -> spec_fn(char) -> Seq<char> {
    |c: char|
        if alphanumeric(c) {
            seq![c]
        } else {
            Seq::empty()
        }
}

/// The letters and digits of a name.
pub open spec fn sanitized(name: Seq<char>) -> Seq<char> {
    gather(name, if_alphanumeric())
}

/// The letters and digits of a name.
pub fn sanitize_id(name: &str) -> (r: String)
    ensures
        r@ == sanitized(name@),
{
    let chars = chars_of(name);
    let mut out = String::new();
    proof {
        lemma_gather_ends(name@, if_alphanumeric());
    }
    for i in 0..chars.len()
        invariant
            chars@ == name@,
            out@ == sanitized(name@.take(i as int)),
    {
        proof {
            lemma_gather_step(name@, i as int, if_alphanumeric());
        }
        let ghost before = out@;
        if chars[i].is_alphanumeric() {
            out.append(name.substring_char(i, i + 1));
        }
        assert(out@ =~= before + if_alphanumeric()(name@[i as int]));
    }
    proof {
        lemma_gather_ends(name@, if_alphanumeric());
    }
    out
}

// ---------------------------------------------------------------------------
// Lines about topics
// ---------------------------------------------------------------------------
pub open spec fn between(pre: Seq<char>, post: Seq<char>) -> spec_fn(Topic) -> Seq<char> {
    |t: Topic| pre + t@ + post
}

/// Each topic between `pre` and `post`.
pub open spec fn topic_lines(topics: Seq<Topic>, pre: Seq<char>, post: Seq<char>) -> Seq<char> {
    gather(topics, between(pre, post))
}

/// Each topic between `pre` and `post`.
pub fn list_topics(topics: &Vec<Topic>, pre: &str, post: &str) -> (r: String)
    ensures
        r@ == topic_lines(topics@, pre@, post@),
{
    let ghost f = between(pre@, post@);
    let mut out = String::new();
    proof {
        lemma_gather_ends(topics@, f);
    }
    for i in 0..topics.len()
        invariant
            f == between(pre@, post@),
            out@ == gather(topics@.take(i as int), f),
    {
        proof {
            lemma_gather_step(topics@, i as int, f);
        }
        out.append(concat3(pre, topics[i].as_str(), post).as_str());
    }
    proof {
        lemma_gather_ends(topics@, f);
    }
    out
}

// ---------------------------------------------------------------------------
// Compact graph
// ---------------------------------------------------------------------------
/// A hat and, below it, what it publishes and what it subscribes to.
pub open spec fn compact_hat() -> spec_fn(Hat) -> Seq<char> {
    |h: Hat|
        ("  Ralph -> "@ + h.name@ + "\n"@) + topic_lines(
            h.publishes@,
            "    "@ + h.name@ + " => "@,
            "\n"@,
        ) + topic_lines(h.subscriptions@, "    "@ + h.name@ + " <= "@, "\n"@)
}

/// The compact graph of some hats.
pub open spec fn compact_text(hats: Seq<Hat>) -> Seq<char> {
    if hats.len() == 0 {
        "No hats configured.\n"@
    } else {
        "Graph:\n  task.start -> Ralph\n"@ + gather(by_name(hats), compact_hat())
    }
}

/// The topology as compact text, with the hats by name.
pub fn generate_compact_graph(registry: &HatRegistry) -> (r: String)
    ensures
        r@ == compact_text(registry.hats()),
{
    if registry.is_empty() {
        return "No hats configured.\n".to_owned();
    }
    let hats = registry.sorted();
    let ghost all = by_name(registry.hats());
    let mut body = String::new();
    proof {
        lemma_gather_ends(all, compact_hat());
    }
    for i in 0..hats.len()
        invariant
            all == hats_of(hats@),
            body@ == gather(all.take(i as int), compact_hat()),
    {
        proof {
            lemma_gather_step(all, i as int, compact_hat());
        }
        let hat = hats[i];
        assert(all[i as int] == *hat);
        let name = hat.name.as_str();
        let mut text = concat3("  Ralph -> ", name, "\n");
        let pre = concat3("    ", name, " => ");
        text.append(list_topics(&hat.publishes, pre.as_str(), "\n").as_str());
        let pre = concat3("    ", name, " <= ");
        text.append(list_topics(&hat.subscriptions, pre.as_str(), "\n").as_str());
        body.append(text.as_str());
    }
    proof {
        lemma_gather_ends(all, compact_hat());
    }
    let mut out = "Graph:\n  task.start -> Ralph\n".to_owned();
    out.append(body.as_str());
    out
}

// ---------------------------------------------------------------------------
// Edges
// ---------------------------------------------------------------------------
/// How edges are written.
#[derive(Clone, Copy, Debug, PartialEq, Eq, Structural)]
pub enum EdgeStyle {
    /// Mermaid flowchart edges between node IDs.
    Mermaid,
    /// List items between display names.
    Prompt,
}

/// What stands before the topic in an edge from Ralph to a hat.
pub open spec fn in_pre(style: EdgeStyle, h: Hat) -> Seq<char> {
    match style {
        EdgeStyle::Mermaid => "    Ralph -->|"@,
        EdgeStyle::Prompt => "- Ralph → "@ + h.name@ + " (triggers on: "@,
    }
}

/// What stands behind the topic in an edge from Ralph to a hat.
pub open spec fn in_post(style: EdgeStyle, h: Hat) -> Seq<char> {
    match style {
        EdgeStyle::Mermaid => "| "@ + sanitized(h.name@) + "\n"@,
        EdgeStyle::Prompt => ")\n"@,
    }
}

/// What stands before the topic in an edge from a hat to Ralph.
pub open spec fn out_pre(style: EdgeStyle, h: Hat) -> Seq<char> {
    match style {
        EdgeStyle::Mermaid => "    "@ + sanitized(h.name@) + " -->|"@,
        EdgeStyle::Prompt => "- "@ + h.name@ + " → Ralph (publishes: "@,
    }
}

/// What stands behind the topic in an edge from a hat to Ralph.
pub open spec fn out_post(style: EdgeStyle) -> Seq<char> {
    match style {
        EdgeStyle::Mermaid => "| Ralph\n"@,
        EdgeStyle::Prompt => ")\n"@,
    }
}

/// An edge from one hat to another.
pub open spec fn direct_edge(style: EdgeStyle, source: Hat, target: Hat, topic: Seq<char>) -> Seq<
    char,
> {
    match style {
        EdgeStyle::Mermaid => "    "@ + sanitized(source.name@) + " -.->|"@ + topic + ("| "@
            + sanitized(target.name@) + "\n"@),
        EdgeStyle::Prompt => "- "@ + source.name@ + " → "@ + target.name@ + (" (via event: "@
            + topic + ")\n"@),
    }
}

/// `target` is another hat than `source`, and lists `topic` among its subscriptions.
pub open spec fn flows(source: Hat, target: Hat, topic: Seq<char>) -> bool {
    target.id@ != source.id@ && any_reads(target.subscriptions@, topic)
}

pub open spec fn in_edges(style: EdgeStyle) -> spec_fn(Hat) -> Seq<char> {
    |h: Hat| topic_lines(h.subscriptions@, in_pre(style, h), in_post(style, h))
}

pub open spec fn out_edges(style: EdgeStyle) -> spec_fn(Hat) -> Seq<char> {
    |h: Hat| topic_lines(h.publishes@, out_pre(style, h), out_post(style))
}

pub open spec fn edge_if_flows(style: EdgeStyle, source: Hat, topic: Topic) -> spec_fn(Hat) -> Seq<
    char,
> {
    |target: Hat|
        if flows(source, target, topic@) {
            direct_edge(style, source, target, topic@)
        } else {
            Seq::empty()
        }
}

pub open spec fn topic_edges(style: EdgeStyle, hats: Seq<Hat>, source: Hat) -> spec_fn(
    Topic,
) -> Seq<char> {
    |topic: Topic| gather(hats, edge_if_flows(style, source, topic))
}

pub open spec fn source_edges(style: EdgeStyle, hats: Seq<Hat>) -> spec_fn(Hat) -> Seq<char> {
    |source: Hat| gather(source.publishes@, topic_edges(style, hats, source))
}

/// All edges: from Ralph to hats by what they subscribe to, from hats to Ralph by what they
/// publish, and directly from a hat to each other hat that lists what it publishes.
pub open spec fn edges_text(style: EdgeStyle, hats: Seq<Hat>) -> Seq<char> {
    gather(hats, in_edges(style)) + gather(hats, out_edges(style)) + gather(
        hats,
        source_edges(style, hats),
    )
}

fn write_in_edges(style: EdgeStyle, hat: &Hat) -> (r: String)
    ensures
        r@ == in_edges(style)(*hat),
{
    match style {
        EdgeStyle::Mermaid => {
            let id = sanitize_id(hat.name.as_str());
            let post = concat3("| ", id.as_str(), "\n");
            list_topics(&hat.subscriptions, "    Ralph -->|", post.as_str())
        },
        EdgeStyle::Prompt => {
            let pre = concat3("- Ralph → ", hat.name.as_str(), " (triggers on: ");
            list_topics(&hat.subscriptions, pre.as_str(), ")\n")
        },
    }
}

fn write_out_edges(style: EdgeStyle, hat: &Hat) -> (r: String)
    ensures
        r@ == out_edges(style)(*hat),
{
    match style {
        EdgeStyle::Mermaid => {
            let id = sanitize_id(hat.name.as_str());
            let pre = concat3("    ", id.as_str(), " -->|");
            list_topics(&hat.publishes, pre.as_str(), "| Ralph\n")
        },
        EdgeStyle::Prompt => {
            let pre = concat3("- ", hat.name.as_str(), " → Ralph (publishes: ");
            list_topics(&hat.publishes, pre.as_str(), ")\n")
        },
    }
}

fn write_direct_edge(style: EdgeStyle, source: &Hat, target: &Hat, topic: &str) -> (r: String)
    ensures
        r@ == direct_edge(style, *source, *target, topic@),
{
    match style {
        EdgeStyle::Mermaid => {
            let from = sanitize_id(source.name.as_str());
            let to = sanitize_id(target.name.as_str());
            let end = concat3("| ", to.as_str(), "\n");
            concat5("    ", from.as_str(), " -.->|", topic, end.as_str())
        },
        EdgeStyle::Prompt => {
            let end = concat3(" (via event: ", topic, ")\n");
            concat5("- ", source.name.as_str(), " → ", target.name.as_str(), end.as_str())
        },
    }
}

fn write_topic_edges(style: EdgeStyle, hats: &Vec<&Hat>, source: &Hat, topic: &Topic) -> (r: String)
    ensures
        r@ == topic_edges(style, hats_of(hats@), *source)(*topic),
{
    let ghost all = hats_of(hats@);
    let ghost f = edge_if_flows(style, *source, *topic);
    let mut out = String::new();
    proof {
        lemma_gather_ends(all, f);
    }
    for i in 0..hats.len()
        invariant
            all == hats_of(hats@),
            f == edge_if_flows(style, *source, *topic),
            out@ == gather(all.take(i as int), f),
    {
        proof {
            lemma_gather_step(all, i as int, f);
        }
        let target = hats[i];
        assert(all[i as int] == *target);
        let ghost before = out@;
        if !str_eq(target.id.as_str(), source.id.as_str()) && reads_any(
            &target.subscriptions,
            topic.as_str(),
        ) {
            out.append(write_direct_edge(style, source, target, topic.as_str()).as_str());
        }
        assert(out@ =~= before + f(all[i as int]));
    }
    proof {
        lemma_gather_ends(all, f);
    }
    out
}

fn write_source_edges(style: EdgeStyle, hats: &Vec<&Hat>, source: &Hat) -> (r: String)
    ensures
        r@ == source_edges(style, hats_of(hats@))(*source),
{
    let ghost f = topic_edges(style, hats_of(hats@), *source);
    let mut out = String::new();
    proof {
        lemma_gather_ends(source.publishes@, f);
    }
    for i in 0..source.publishes.len()
        invariant
            f == topic_edges(style, hats_of(hats@), *source),
            out@ == gather(source.publishes@.take(i as int), f),
    {
        proof {
            lemma_gather_step(source.publishes@, i as int, f);
        }
        out.append(write_topic_edges(style, hats, source, &source.publishes[i]).as_str());
    }
    proof {
        lemma_gather_ends(source.publishes@, f);
    }
    out
}

/// All edges between Ralph and the hats, and directly between hats.
pub fn write_edges(style: EdgeStyle, hats: &Vec<&Hat>) -> (r: String)
    ensures
        r@ == edges_text(style, hats_of(hats@)),
{
    let ghost all = hats_of(hats@);
    let mut ins = String::new();
    let mut outs = String::new();
    let mut direct = String::new();
    proof {
        lemma_gather_ends(all, in_edges(style));
        lemma_gather_ends(all, out_edges(style));
        lemma_gather_ends(all, source_edges(style, all));
    }
    for i in 0..hats.len()
        invariant
            all == hats_of(hats@),
            ins@ == gather(all.take(i as int), in_edges(style)),
            outs@ == gather(all.take(i as int), out_edges(style)),
            direct@ == gather(all.take(i as int), source_edges(style, all)),
    {
        proof {
            lemma_gather_step(all, i as int, in_edges(style));
            lemma_gather_step(all, i as int, out_edges(style));
            lemma_gather_step(all, i as int, source_edges(style, all));
        }
        let hat = hats[i];
        assert(all[i as int] == *hat);
        ins.append(write_in_edges(style, hat).as_str());
        outs.append(write_out_edges(style, hat).as_str());
        direct.append(write_source_edges(style, hats, hat).as_str());
    }
    proof {
        lemma_gather_ends(all, in_edges(style));
        lemma_gather_ends(all, out_edges(style));
        lemma_gather_ends(all, source_edges(style, all));
    }
    ins.append(outs.as_str());
    ins.append(direct.as_str());
    ins
}

/// The Mermaid flowchart of some hats.
pub open spec fn mermaid_text(hats: Seq<Hat>) -> Seq<char> {
    "flowchart LR\n    Start[task.start] --> Ralph\n"@ + edges_text(EdgeStyle::Mermaid, hats)
}

/// Generate Mermaid flowchart syntax for the hat topology.
pub fn generate_mermaid_string(registry: &HatRegistry) -> (r: String)
    ensures
        r@ == mermaid_text(registry.hats()),
{
    let hats = registry.walk();
    let mut out = "flowchart LR\n    Start[task.start] --> Ralph\n".to_owned();
    out.append(write_edges(EdgeStyle::Mermaid, &hats).as_str());
    out
}

pub open spec fn prompt_head() -> Seq<char> {
    "Generate an ASCII diagram showing this directed acyclic graph.\nUse simple box-drawing characters that work in any terminal.\nShow clear arrows between nodes.\n\nNodes and edges:\n- task.start → Ralph\n"@
}

pub open spec fn prompt_tail() -> Seq<char> {
    "\nOutput ONLY the ASCII diagram, no explanation or markdown fences."@
}

/// The prompt that asks for a diagram of some hats.
pub open spec fn prompt_text(hats: Seq<Hat>) -> Seq<char> {
    prompt_head() + edges_text(EdgeStyle::Prompt, by_name(hats)) + prompt_tail()
}

/// Builds the prompt for diagram generation, with the hats by name.
pub fn build_diagram_prompt(registry: &HatRegistry) -> (r: String)
    ensures
        r@ == prompt_text(registry.hats()),
{
    let hats = registry.sorted();
    let edges = write_edges(EdgeStyle::Prompt, &hats);
    concat3(
        "Generate an ASCII diagram showing this directed acyclic graph.\nUse simple box-drawing characters that work in any terminal.\nShow clear arrows between nodes.\n\nNodes and edges:\n- task.start → Ralph\n",
        edges.as_str(),
        "\nOutput ONLY the ASCII diagram, no explanation or markdown fences.",
    )
}

// ---------------------------------------------------------------------------
// Laws
// ---------------------------------------------------------------------------
/// A topic in a list has its line.
proof fn lemma_topic_line(topics: Seq<Topic>, pre: Seq<char>, post: Seq<char>, i: int)
    requires
        0 <= i < topics.len(),
    ensures
        occurs_in(topic_lines(topics, pre, post), pre + topics[i]@ + post),
{
    lemma_occurs_whole(pre + topics[i]@ + post);
    lemma_occurs_in_gather(topics, between(pre, post), i, pre + topics[i]@ + post);
}

/// Every subscription is drawn as an edge from Ralph to the hat.
pub proof fn law_subscriptions_are_drawn(style: EdgeStyle, hats: Seq<Hat>, hat: int, topic: int)
    requires
        0 <= hat < hats.len(),
        0 <= topic < hats[hat].subscriptions@.len(),
    ensures
        occurs_in(
            edges_text(style, hats),
            in_pre(style, hats[hat]) + hats[hat].subscriptions@[topic]@ + in_post(
                style,
                hats[hat],
            ),
        ),
{
    let h = hats[hat];
    let edge = in_pre(style, h) + h.subscriptions@[topic]@ + in_post(style, h);
    let a = gather(hats, in_edges(style));
    let b = gather(hats, out_edges(style));
    let c = gather(hats, source_edges(style, hats));
    lemma_topic_line(h.subscriptions@, in_pre(style, h), in_post(style, h), topic);
    lemma_occurs_in_gather(hats, in_edges(style), hat, edge);
    lemma_occurs_between(Seq::empty(), a, b + c, edge);
    assert(Seq::<char>::empty() + a + (b + c) =~= a + b + c);
}

/// Every published topic is drawn as an edge from the hat to Ralph.
pub proof fn law_publishes_are_drawn(style: EdgeStyle, hats: Seq<Hat>, hat: int, topic: int)
    requires
        0 <= hat < hats.len(),
        0 <= topic < hats[hat].publishes@.len(),
    ensures
        occurs_in(
            edges_text(style, hats),
            out_pre(style, hats[hat]) + hats[hat].publishes@[topic]@ + out_post(style),
        ),
{
    let h = hats[hat];
    let edge = out_pre(style, h) + h.publishes@[topic]@ + out_post(style);
    lemma_topic_line(h.publishes@, out_pre(style, h), out_post(style), topic);
    lemma_occurs_in_gather(hats, out_edges(style), hat, edge);
    lemma_occurs_between(
        gather(hats, in_edges(style)),
        gather(hats, out_edges(style)),
        gather(hats, source_edges(style, hats)),
        edge,
    );
}

/// A topic that one hat publishes and another one lists among its subscriptions is drawn as an
/// edge between the two.
pub proof fn law_direct_flows_are_drawn(
    style: EdgeStyle,
    hats: Seq<Hat>,
    source: int,
    topic: int,
    target: int,
)
    requires
        0 <= source < hats.len(),
        0 <= target < hats.len(),
        0 <= topic < hats[source].publishes@.len(),
        flows(hats[source], hats[target], hats[source].publishes@[topic]@),
    ensures
        occurs_in(
            edges_text(style, hats),
            direct_edge(
                style,
                hats[source],
                hats[target],
                hats[source].publishes@[topic]@,
            ),
        ),
{
    let from = hats[source];
    let t = from.publishes@[topic];
    let edge = direct_edge(style, from, hats[target], t@);
    let a = gather(hats, in_edges(style)) + gather(hats, out_edges(style));
    let b = gather(hats, source_edges(style, hats));
    lemma_occurs_whole(edge);
    lemma_occurs_in_gather(hats, edge_if_flows(style, from, t), target, edge);
    lemma_occurs_in_gather(from.publishes@, topic_edges(style, hats, from), topic, edge);
    lemma_occurs_in_gather(hats, source_edges(style, hats), source, edge);
    lemma_occurs_between(a, b, Seq::empty(), edge);
    assert(a + b + Seq::<char>::empty() =~= edges_text(style, hats));
}

/// No edge leads from a hat to itself.
pub proof fn law_no_direct_flow_to_itself(hat: Hat, topic: Seq<char>)
    ensures
        !flows(hat, hat, topic),
{
}

/// Every hat is in the compact graph.
pub proof fn law_compact_graph_shows_every_hat(hats: Seq<Hat>, hat: Hat)
    requires
        hats.contains(hat),
    ensures
        occurs_in(compact_text(hats), compact_hat()(hat)),
{
    let part = compact_hat()(hat);
    law_sorting_keeps_the_hats(hats, hat);
    let i = choose|i: int| 0 <= i < by_name(hats).len() && by_name(hats)[i] == hat;
    lemma_occurs_whole(part);
    lemma_occurs_in_gather(by_name(hats), compact_hat(), i, part);
    let head = "Graph:\n  task.start -> Ralph\n"@;
    let body = gather(by_name(hats), compact_hat());
    lemma_occurs_between(head, body, Seq::empty(), part);
    assert(head + body + Seq::<char>::empty() =~= compact_text(hats));
}

/// A node name has letters and digits only, and is its own node name.
pub proof fn law_node_names_are_alphanumeric(name: Seq<char>)
    ensures
        forall|i: int|
            0 <= i < sanitized(name).len() ==> alphanumeric(#[trigger] sanitized(name)[i]),
        sanitized(sanitized(name)) == sanitized(name),
    decreases name.len(),
{
    if name.len() > 0 {
        let front = sanitized(name.drop_last());
        let last = if_alphanumeric()(name.last());
        law_node_names_are_alphanumeric(name.drop_last());
        lemma_gather_concat(front, last, if_alphanumeric());
        reveal_with_fuel(gather, 2);
        assert(gather(last, if_alphanumeric()) =~= last);
    }
}

/// Where display names are distinct, neither the prompt for a diagram nor the compact graph depends
/// on the order in which the hats were registered.
pub proof fn law_drawings_ignore_registration_order(one: Seq<Hat>, other: Seq<Hat>)
    requires
        names_distinct(one),
        names_distinct(other),
        forall|hat: Hat| one.contains(hat) <==> other.contains(hat),
    ensures
        prompt_text(one) == prompt_text(other),
        compact_text(one) == compact_text(other),
{
    law_by_name_ignores_registration_order(one, other);
    assert(by_name(one).len() == by_name(other).len());
}

/// Where a hat publishes, at index `p`, what a hat with another ID lists at index `q` of its
/// subscriptions, the graph has the edge from the one to the other, labelled with that topic.
pub proof fn law_equal_topics_are_drawn_as_edges(
    hats: Seq<Hat>,
    source: int,
    p: int,
    target: int,
    q: int,
)
    requires
        0 <= source < hats.len(),
        0 <= target < hats.len(),
        hats[source].id@ != hats[target].id@,
        0 <= p < hats[source].publishes@.len(),
        0 <= q < hats[target].subscriptions@.len(),
        hats[source].publishes@[p].text@ == hats[target].subscriptions@[q].text@,
    ensures
        occurs_in(
            mermaid_text(hats),
            "    "@ + sanitized(hats[source].name@) + " -.->|"@ + hats[source].publishes@[p].text@ + (
            "| "@ + sanitized(hats[target].name@) + "\n"@),
        ),
        occurs_in(
            edges_text(EdgeStyle::Prompt, hats),
            "- "@ + hats[source].name@ + " → "@ + hats[target].name@ + (" (via event: "@
                + hats[source].publishes@[p].text@ + ")\n"@),
        ),
{
    let topic = hats[source].publishes@[p]@;
    assert(hats[target].subscriptions@[q]@ == topic);
    assert(any_reads(hats[target].subscriptions@, topic));
    law_direct_flows_are_drawn(EdgeStyle::Mermaid, hats, source, p, target);
    law_direct_flows_are_drawn(EdgeStyle::Prompt, hats, source, p, target);
    lemma_mermaid_holds(
        hats,
        direct_edge(EdgeStyle::Mermaid, hats[source], hats[target], topic),
    );
}

proof fn lemma_mermaid_holds(hats: Seq<Hat>, part: Seq<char>)
    requires
        occurs_in(edges_text(EdgeStyle::Mermaid, hats), part),
    ensures
        occurs_in(mermaid_text(hats), part),
{
    let head = "flowchart LR\n    Start[task.start] --> Ralph\n"@;
    let body = edges_text(EdgeStyle::Mermaid, hats);
    lemma_occurs_between(head, body, Seq::empty(), part);
    assert(head + body + Seq::<char>::empty() =~= mermaid_text(hats));
}

/// What is drawn of a pair of hats and a topic: the edge, once, if their IDs differ and some
/// subscription of the target reads that topic; else nothing.
pub proof fn law_edges_need_an_equal_topic(
    style: EdgeStyle,
    source: Hat,
    target: Hat,
    topic: Topic,
)
    ensures
        edge_if_flows(style, source, topic)(target) == if source.id@ != target.id@ && (exists|q: int|
            0 <= q < target.subscriptions@.len() && (#[trigger] target.subscriptions@[q]).text@
                == topic.text@) {
            match style {
                EdgeStyle::Mermaid => "    "@ + sanitized(source.name@) + " -.->|"@ + topic.text@
                    + ("| "@ + sanitized(target.name@) + "\n"@),
                EdgeStyle::Prompt => "- "@ + source.name@ + " → "@ + target.name@ + (
                " (via event: "@ + topic.text@ + ")\n"@),
            }
        } else {
            Seq::empty()
        },
{
    law_lists_of_topics(target.subscriptions@, topic.text@);
    assert(topic@ == topic.text@);
}

/// Edges from Ralph to a hat are drawn for each subscription of the hat and nothing else, in
/// order, and likewise those from a hat to Ralph for what it publishes: a further topic adds one
/// edge at the end.
pub proof fn law_a_further_topic_adds_one_edge(
    topics: Seq<Topic>,
    topic: Topic,
    pre: Seq<char>,
    post: Seq<char>,
)
    ensures
        topic_lines(topics.push(topic), pre, post) == topic_lines(topics, pre, post) + (pre
            + topic.text@ + post),
        topic_lines(Seq::empty(), pre, post) == Seq::<char>::empty(),
{
    assert(topics.push(topic).drop_last() =~= topics);
    assert(topic@ == topic.text@);
}

/// Every subscription and every published topic is an edge of the Mermaid flowchart.
pub proof fn law_mermaid_draws_subscriptions_and_publishes(hats: Seq<Hat>, hat: int, i: int)
    requires
        0 <= hat < hats.len(),
    ensures
        0 <= i < hats[hat].subscriptions@.len() ==> occurs_in(
            mermaid_text(hats),
            "    Ralph -->|"@ + hats[hat].subscriptions@[i].text@ + ("| "@ + sanitized(
                hats[hat].name@,
            ) + "\n"@),
        ),
        0 <= i < hats[hat].publishes@.len() ==> occurs_in(
            mermaid_text(hats),
            "    "@ + sanitized(hats[hat].name@) + " -->|"@ + hats[hat].publishes@[i].text@
                + "| Ralph\n"@,
        ),
{
    if 0 <= i < hats[hat].subscriptions@.len() {
        law_subscriptions_are_drawn(EdgeStyle::Mermaid, hats, hat, i);
        lemma_mermaid_holds(
            hats,
            in_pre(EdgeStyle::Mermaid, hats[hat]) + hats[hat].subscriptions@[i]@ + in_post(
                EdgeStyle::Mermaid,
                hats[hat],
            ),
        );
    }
    if 0 <= i < hats[hat].publishes@.len() {
        law_publishes_are_drawn(EdgeStyle::Mermaid, hats, hat, i);
        lemma_mermaid_holds(
            hats,
            out_pre(EdgeStyle::Mermaid, hats[hat]) + hats[hat].publishes@[i]@ + out_post(
                EdgeStyle::Mermaid,
            ),
        );
    }
}

proof fn lemma_prompt_holds(hats: Seq<Hat>, part: Seq<char>)
    requires
        occurs_in(edges_text(EdgeStyle::Prompt, by_name(hats)), part),
    ensures
        occurs_in(prompt_text(hats), part),
{
    lemma_occurs_between(
        prompt_head(),
        edges_text(EdgeStyle::Prompt, by_name(hats)),
        prompt_tail(),
        part,
    );
}

/// Every subscription, every published topic and every topic that one hat publishes and a hat with
/// another ID lists is an edge in the prompt for a diagram.
pub proof fn law_the_prompt_lists_every_edge(
    hats: Seq<Hat>,
    hat: Hat,
    other: Hat,
    i: int,
    q: int,
)
    requires
        hats.contains(hat),
        hats.contains(other),
    ensures
        0 <= i < hat.subscriptions@.len() ==> occurs_in(
            prompt_text(hats),
            "- Ralph → "@ + hat.name@ + " (triggers on: "@ + hat.subscriptions@[i].text@ + ")\n"@,
        ),
        0 <= i < hat.publishes@.len() ==> occurs_in(
            prompt_text(hats),
            "- "@ + hat.name@ + " → Ralph (publishes: "@ + hat.publishes@[i].text@ + ")\n"@,
        ),
        0 <= i < hat.publishes@.len() && 0 <= q < other.subscriptions@.len() && hat.id@ != other.id@
            && hat.publishes@[i].text@ == other.subscriptions@[q].text@ ==> occurs_in(
            prompt_text(hats),
            "- "@ + hat.name@ + " → "@ + other.name@ + (" (via event: "@ + hat.publishes@[i].text@
                + ")\n"@),
        ),
{
    let sorted = by_name(hats);
    let style = EdgeStyle::Prompt;
    law_sorting_keeps_the_hats(hats, hat);
    law_sorting_keeps_the_hats(hats, other);
    let h = choose|h: int| 0 <= h < sorted.len() && sorted[h] == hat;
    let o = choose|o: int| 0 <= o < sorted.len() && sorted[o] == other;
    if 0 <= i < hat.subscriptions@.len() {
        law_subscriptions_are_drawn(style, sorted, h, i);
        lemma_prompt_holds(
            hats,
            in_pre(style, hat) + hat.subscriptions@[i]@ + in_post(style, hat),
        );
    }
    if 0 <= i < hat.publishes@.len() {
        law_publishes_are_drawn(style, sorted, h, i);
        lemma_prompt_holds(hats, out_pre(style, hat) + hat.publishes@[i]@ + out_post(style));
        if 0 <= q < other.subscriptions@.len() && hat.id@ != other.id@ && hat.publishes@[i].text@
            == other.subscriptions@[q].text@ {
            law_equal_topics_are_drawn_as_edges(sorted, h, i, o, q);
            lemma_prompt_holds(
                hats,
                "- "@ + hat.name@ + " → "@ + other.name@ + (" (via event: "@
                    + hat.publishes@[i].text@ + ")\n"@),
            );
        }
    }
}

/// The compact graph shows of each hat that Ralph leads to it, what it publishes and what it
/// subscribes to.
pub proof fn law_compact_graph_shows_topics(hats: Seq<Hat>, hat: Hat, i: int)
    requires
        hats.contains(hat),
    ensures
        occurs_in(compact_text(hats), "  Ralph -> "@ + hat.name@ + "\n"@),
        0 <= i < hat.publishes@.len() ==> occurs_in(
            compact_text(hats),
            "    "@ + hat.name@ + " => "@ + hat.publishes@[i].text@ + "\n"@,
        ),
        0 <= i < hat.subscriptions@.len() ==> occurs_in(
            compact_text(hats),
            "    "@ + hat.name@ + " <= "@ + hat.subscriptions@[i].text@ + "\n"@,
        ),
{
    let head = "  Ralph -> "@ + hat.name@ + "\n"@;
    let pubs = topic_lines(hat.publishes@, "    "@ + hat.name@ + " => "@, "\n"@);
    let subs = topic_lines(hat.subscriptions@, "    "@ + hat.name@ + " <= "@, "\n"@);
    let none = Seq::<char>::empty();
    let whole = compact_hat()(hat);
    law_compact_graph_shows_every_hat(hats, hat);
    let (a, b) = law_parts_can_be_cut_out(compact_text(hats), whole);
    lemma_occurs_whole(head);
    lemma_occurs_between(none, head, pubs + subs, head);
    assert(none + head + (pubs + subs) =~= whole);
    lemma_occurs_between(a, whole, b, head);
    if 0 <= i < hat.publishes@.len() {
        let line = "    "@ + hat.name@ + " => "@ + hat.publishes@[i]@ + "\n"@;
        lemma_topic_line(hat.publishes@, "    "@ + hat.name@ + " => "@, "\n"@, i);
        lemma_occurs_between(head, pubs, subs, line);
        lemma_occurs_between(a, whole, b, line);
    }
    if 0 <= i < hat.subscriptions@.len() {
        let line = "    "@ + hat.name@ + " <= "@ + hat.subscriptions@[i]@ + "\n"@;
        lemma_topic_line(hat.subscriptions@, "    "@ + hat.name@ + " <= "@, "\n"@, i);
        lemma_occurs_between(head + pubs, subs, none, line);
        assert(head + pubs + subs + none =~= whole);
        lemma_occurs_between(a, whole, b, line);
    }
}

pub open spec fn as_it_is() -> spec_fn(char) -> char {
    |c: char| c
}

pub open spec fn letter_or_digit() -> spec_fn(char) -> bool {
    |c: char|
        if c as u32 <= 0x7f {
            ('a' <= c <= 'z') || ('A' <= c <= 'Z') || ('0' <= c <= '9')
        } else {
            alphanumeric_beyond_ascii(c)
        }
}

/// A node name is made of exactly the letters and digits of the display name, in order.
pub proof fn law_node_names_keep_letters_and_digits(name: Seq<char>)
    ensures
        sanitized(name) == name.filter(letter_or_digit()),
{
    let f = if_alphanumeric();
    assert forall|c: char| #[trigger]
        f(c) == if letter_or_digit()(c) {
            seq![as_it_is()(c)]
        } else {
            Seq::<char>::empty()
        } by {}
    lemma_gather_is_filter(name, f, letter_or_digit(), as_it_is());
    assert(name.filter(letter_or_digit()).map_values(as_it_is()) =~= name.filter(
        letter_or_digit(),
    ));
}

/// One more subscription adds one edge from Ralph to the hat, and one more published topic adds one
/// edge from the hat to Ralph, each behind the others; without topics there are no edges.
pub proof fn law_each_topic_of_a_hat_is_one_edge(
    style: EdgeStyle,
    hat: Hat,
    more: Hat,
    topic: Topic,
)
    requires
        more.name@ == hat.name@,
    ensures
        more.subscriptions@ == hat.subscriptions@.push(topic) ==> in_edges(style)(more) == in_edges(
            style,
        )(hat) + match style {
            EdgeStyle::Mermaid => "    Ralph -->|"@ + topic.text@ + ("| "@ + sanitized(hat.name@)
                + "\n"@),
            EdgeStyle::Prompt => "- Ralph → "@ + hat.name@ + " (triggers on: "@ + topic.text@
                + ")\n"@,
        },
        more.publishes@ == hat.publishes@.push(topic) ==> out_edges(style)(more) == out_edges(style)(
            hat,
        ) + match style {
            EdgeStyle::Mermaid => "    "@ + sanitized(hat.name@) + " -->|"@ + topic.text@
                + "| Ralph\n"@,
            EdgeStyle::Prompt => "- "@ + hat.name@ + " → Ralph (publishes: "@ + topic.text@
                + ")\n"@,
        },
        hat.subscriptions@.len() == 0 ==> in_edges(style)(hat) == Seq::<char>::empty(),
        hat.publishes@.len() == 0 ==> out_edges(style)(hat) == Seq::<char>::empty(),
{
    law_a_further_topic_adds_one_edge(
        hat.subscriptions@,
        topic,
        in_pre(style, hat),
        in_post(style, hat),
    );
    law_a_further_topic_adds_one_edge(
        hat.publishes@,
        topic,
        out_pre(style, hat),
        out_post(style),
    );
}

/// All edges come in three runs: those from Ralph to the hats, those from the hats to Ralph, and
/// those between hats. In each run the hats come one after the other; between hats, what a hat
/// publishes comes topic by topic, and for each topic the hats that list it.
pub proof fn law_edges_come_in_three_runs(
    style: EdgeStyle,
    hats: Seq<Hat>,
    source: Hat,
    more: Hat,
    topic: Topic,
)
    requires
        more.id@ == source.id@,
        more.name@ == source.name@,
        more.publishes@ == source.publishes@.push(topic),
    ensures
        edges_text(style, hats) == gather(hats, in_edges(style)) + (gather(hats, out_edges(style))
            + gather(hats, source_edges(style, hats))),
        source_edges(style, hats)(more) == source_edges(style, hats)(source) + gather(
            hats,
            edge_if_flows(style, source, topic),
        ),
        source.publishes@.len() == 0 ==> source_edges(style, hats)(source) == Seq::<char>::empty(),
{
    assert(edges_text(style, hats) =~= gather(hats, in_edges(style)) + (gather(
        hats,
        out_edges(style),
    ) + gather(hats, source_edges(style, hats))));
    let pubs = source.publishes@;
    let f = topic_edges(style, hats, source);
    let g = topic_edges(style, hats, more);
    assert forall|t: Topic| #[trigger] f(t) == g(t) by {
        assert(edge_if_flows(style, source, t) =~= edge_if_flows(style, more, t));
    }
    assert(f =~= g);
    assert(pubs.push(topic).drop_last() =~= pubs);
}

/// The flowchart begins with the start of the loop, and holds all edges in the order of
/// registration; the prompt holds all edges by name between its two instructions.
pub proof fn law_drawings_hold_all_edges(hats: Seq<Hat>)
    ensures
        mermaid_text(hats) == "flowchart LR\n    Start[task.start] --> Ralph\n"@ + edges_text(
            EdgeStyle::Mermaid,
            hats,
        ),
        prompt_text(hats)
            == "Generate an ASCII diagram showing this directed acyclic graph.\nUse simple box-drawing characters that work in any terminal.\nShow clear arrows between nodes.\n\nNodes and edges:\n- task.start → Ralph\n"@
            + edges_text(EdgeStyle::Prompt, by_name(hats))
            + "\nOutput ONLY the ASCII diagram, no explanation or markdown fences."@,
{
}

} // verus!
