//! Lists of hats, and the details of one hat.
use vstd::prelude::*;

use crate::format::{concat3, dashes, pad_right, padded, repeated, shortened,
    truncate_with_ellipsis};
use crate::graph::{law_a_further_topic_adds_one_edge, list_topics, topic_lines};
use crate::registry::{by_name, has_id, hats_of, ids_distinct, law_sorting_keeps_the_hats, Hat,
    HatRegistry};
use crate::split::{lines, lines_of};
use crate::text::{first_index, gather, lemma_first_index, lemma_gather_ends, lemma_gather_step,
    lemma_is_first_index, lemma_occurs_between, lemma_occurs_in_gather, lemma_occurs_whole,
    occurs_in, str_eq, strs};
use crate::topic::Topic;

verus! {

// ---------------------------------------------------------------------------
// All hats
// ---------------------------------------------------------------------------
/// A text, or a dash in place of no text.
pub open spec fn or_dash(s: Seq<char>) -> Seq<char> {
    if s.len() == 0 {
        "-"@
    } else {
        s
    }
}

/// The row of a hat: its name, and its description cut to 55 characters.
pub open spec fn hat_row() -> spec_fn(Hat) -> Seq<char> {
    |h: Hat| padded(h.name@, 20) + " "@ + (shortened(or_dash(h.description@), 55) + "\n"@)
}

/// The table of some hats, by name.
pub open spec fn hats_table(hats: Seq<Hat>) -> Seq<char> {
    if hats.len() == 0 {
        "No custom hats configured (using default HatlessRalph coordination).\n"@
    } else {
        padded("HAT"@, 20) + " DESCRIPTION\n"@ + (repeated('-', 80) + "\n"@) + gather(
            by_name(hats),
            hat_row(),
        )
    }
}

/// Writes the table of all hats.
pub fn list_hats(writer: &mut String, registry: &HatRegistry, _use_colors: bool)
    ensures
        final(writer)@ == old(writer)@ + hats_table(registry.hats()),
{
    if registry.is_empty() {
        writer.append("No custom hats configured (using default HatlessRalph coordination).\n");
        return;
    }
    let mut text = pad_right("HAT", 20);
    text.append(" DESCRIPTION\n");
    let mut rule = dashes(80);
    rule.append("\n");
    text.append(rule.as_str());
    let ghost head = text@;
    let hats = registry.sorted();
    let ghost all = by_name(registry.hats());
    let mut rows = String::new();
    proof {
        lemma_gather_ends(all, hat_row());
    }
    for i in 0..hats.len()
        invariant
            all == hats_of(hats@),
            rows@ == gather(all.take(i as int), hat_row()),
    {
        proof {
            lemma_gather_step(all, i as int, hat_row());
        }
        let desc = if hats[i].description.as_str().is_empty() {
            "-"
        } else {
            hats[i].description.as_str()
        };
        assert(desc@ == or_dash(all[i as int].description@));
        let mut end = truncate_with_ellipsis(desc, 55);
        end.append("\n");
        let name = pad_right(hats[i].name.as_str(), 20);
        rows.append(concat3(name.as_str(), " ", end.as_str()).as_str());
    }
    proof {
        lemma_gather_ends(all, hat_row());
    }
    text.append(rows.as_str());
    writer.append(text.as_str());
}

// ---------------------------------------------------------------------------
// One hat
// ---------------------------------------------------------------------------
pub open spec fn has_name(name: Seq<char>) -> spec_fn(Hat) -> bool {
    |h: Hat| h.name@ == name
}

/// The hat that `name` stands for: the first one with that ID or, where no hat has it, the first
/// one with that display name.
pub open spec fn hat_called(hats: Seq<Hat>, name: Seq<char>) -> Option<Hat> {
    let by_id = first_index(hats, has_id(name));
    let by_display_name = first_index(hats, has_name(name));
    if 0 <= by_id < hats.len() {
        Some(hats[by_id])
    } else if 0 <= by_display_name < hats.len() {
        Some(hats[by_display_name])
    } else {
        None
    }
}

/// A title, in bold where colours are used.
pub open spec fn title_text(name: Seq<char>, use_colors: bool) -> Seq<char> {
    if use_colors {
        "\x1b[1m"@ + name + "\x1b[0m\n"@
    } else {
        name + "\n"@
    }
}

/// A line with `s`, unless `s` is empty.
pub open spec fn line_unless_empty(s: Seq<char>) -> Seq<char> {
    if s.len() == 0 {
        s
    } else {
        s + "\n"@
    }
}

/// Topics as a list.
pub open spec fn bullets(topics: Seq<Topic>) -> Seq<char> {
    if topics.len() == 0 {
        "  (none)\n"@
    } else {
        topic_lines(topics, "  - "@, "\n"@)
    }
}

pub open spec fn indented() -> spec_fn(Seq<char>) -> Seq<char> {
    |line: Seq<char>| "  "@ + line + "\n"@
}

/// The section with the instructions, unless there are none.
pub open spec fn instructions_section(instructions: Seq<char>) -> Seq<char> {
    if instructions.len() == 0 {
        Seq::empty()
    } else {
        "\nInstructions:\n"@ + gather(lines_of(instructions), indented())
    }
}

/// The details of a hat.
pub open spec fn hat_details(hat: Hat, use_colors: bool) -> Seq<char> {
    title_text(hat.name@, use_colors) + line_unless_empty(hat.description@) + ("\nID: "@ + hat.id@
        + "\n"@) + "\nTriggers On:\n"@ + bullets(hat.subscriptions@) + "\nPublishes:\n"@ + bullets(
        hat.publishes@,
    ) + instructions_section(hat.instructions@)
}

pub open spec fn not_found_text(name: Seq<char>) -> Seq<char> {
    "Hat '"@ + name + "' not found"@
}

fn bullet_list(topics: &Vec<Topic>) -> (r: String)
    ensures
        r@ == bullets(topics@),
{
    if topics.len() == 0 {
        "  (none)\n".to_owned()
    } else {
        list_topics(topics, "  - ", "\n")
    }
}

fn indent(instructions: &str) -> (r: String)
    ensures
        r@ == gather(lines_of(instructions@), indented()),
{
    let parts = lines(instructions);
    let ghost all = lines_of(instructions@);
    let mut out = String::new();
    proof {
        lemma_gather_ends(all, indented());
    }
    for i in 0..parts.len()
        invariant
            all == strs(parts@),
            out@ == gather(all.take(i as int), indented()),
    {
        proof {
            lemma_gather_step(all, i as int, indented());
        }
        assert(parts@[i as int]@ == all[i as int]);
        out.append(concat3("  ", parts[i], "\n").as_str());
    }
    proof {
        lemma_gather_ends(all, indented());
    }
    out
}

/// Finds a hat by its ID, or else by its display name.
fn find_hat<'a>(registry: &'a HatRegistry, name: &str) -> (r: Option<&'a Hat>)
    ensures
        match r {
            Some(hat) => hat_called(registry.hats(), name@) == Some(*hat),
            None => hat_called(registry.hats(), name@) is None,
        },
{
    let hats = registry.all();
    let ghost all = registry.hats();
    for i in 0..hats.len()
        invariant
            hats@ == all,
            all == registry.hats(),
            forall|k: int| 0 <= k < i ==> !has_id(name@)(#[trigger] all[k]),
    {
        if str_eq(hats[i].id.as_str(), name) {
            proof {
                lemma_is_first_index(all, has_id(name@), i as int);
            }
            return Some(&hats[i]);
        }
    }
    proof {
        lemma_is_first_index(all, has_id(name@), all.len() as int);
    }
    for i in 0..hats.len()
        invariant
            hats@ == all,
            all == registry.hats(),
            first_index(all, has_id(name@)) == all.len(),
            forall|k: int| 0 <= k < i ==> !has_name(name@)(#[trigger] all[k]),
    {
        if str_eq(hats[i].name.as_str(), name) {
            proof {
                lemma_is_first_index(all, has_name(name@), i as int);
            }
            return Some(&hats[i]);
        }
    }
    proof {
        lemma_is_first_index(all, has_name(name@), all.len() as int);
    }
    None
}

/// Writes the details of the hat with the ID `name` or, where no hat has it, of the one with the
/// display name `name`.
pub fn show_hat(writer: &mut String, registry: &HatRegistry, name: &str, use_colors: bool) -> (r:
    Result<(), String>)
    ensures
        match hat_called(registry.hats(), name@) {
            Some(hat) => r is Ok && final(writer)@ == old(writer)@ + hat_details(hat, use_colors),
            None => r matches Err(message) && message@ == not_found_text(name@) && final(writer)@
                == old(writer)@,
        },
{
    let hat = match find_hat(registry, name) {
        Some(hat) => hat,
        None => {
            return Err(concat3("Hat '", name, "' not found"));
        },
    };
    let mut text = if use_colors {
        concat3("\x1b[1m", hat.name.as_str(), "\x1b[0m\n")
    } else {
        let mut title = hat.name.as_str().to_owned();
        title.append("\n");
        title
    };
    let mut description = hat.description.as_str().to_owned();
    if !hat.description.as_str().is_empty() {
        description.append("\n");
    }
    text.append(description.as_str());
    text.append(concat3("\nID: ", hat.id.as_str(), "\n").as_str());
    text.append("\nTriggers On:\n");
    text.append(bullet_list(&hat.subscriptions).as_str());
    text.append("\nPublishes:\n");
    text.append(bullet_list(&hat.publishes).as_str());
    let mut section = String::new();
    if !hat.instructions.as_str().is_empty() {
        section.append("\nInstructions:\n");
        section.append(indent(hat.instructions.as_str()).as_str());
        assert(section@ =~= instructions_section(hat.instructions@));
    }
    text.append(section.as_str());
    writer.append(text.as_str());
    Ok(())
}

// ---------------------------------------------------------------------------
// Laws
// ---------------------------------------------------------------------------
/// Every hat has its row in the table.
pub proof fn law_every_hat_is_listed(hats: Seq<Hat>, hat: Hat)
    requires
        hats.contains(hat),
    ensures
        occurs_in(hats_table(hats), hat_row()(hat)),
{
    let row = hat_row()(hat);
    law_sorting_keeps_the_hats(hats, hat);
    let i = choose|i: int| 0 <= i < by_name(hats).len() && by_name(hats)[i] == hat;
    lemma_occurs_whole(row);
    lemma_occurs_in_gather(by_name(hats), hat_row(), i, row);
    let head = padded("HAT"@, 20) + " DESCRIPTION\n"@ + (repeated('-', 80) + "\n"@);
    let body = gather(by_name(hats), hat_row());
    lemma_occurs_between(head, body, Seq::empty(), row);
    assert(head + body + Seq::<char>::empty() =~= hats_table(hats));
}

/// An ID is always found: what it stands for is a hat with that ID, whatever the display names
/// are. Where IDs are distinct, it is the very hat.
pub proof fn law_hats_are_found_by_id(hats: Seq<Hat>, i: int)
    requires
        0 <= i < hats.len(),
    ensures
        hat_called(hats, hats[i].id@) matches Some(hat) && hat.id@ == hats[i].id@,
        ids_distinct(hats) ==> hat_called(hats, hats[i].id@) == Some(hats[i]),
{
    let name = hats[i].id@;
    let n = first_index(hats, has_id(name));
    lemma_first_index(hats, has_id(name));
    if n > i {
        assert(!has_id(name)(hats[i]));
    }
    if n < i && ids_distinct(hats) {
        assert(hats[n].id@ != hats[i].id@);
    }
}

/// A display name that is no hat's ID is always found: what it stands for is the first hat with
/// that display name.
pub proof fn law_hats_are_found_by_name(hats: Seq<Hat>, i: int)
    requires
        0 <= i < hats.len(),
        forall|k: int| 0 <= k < hats.len() ==> (#[trigger] hats[k]).id@ != hats[i].name@,
    ensures
        hat_called(hats, hats[i].name@) matches Some(hat) && hat.name@ == hats[i].name@,
        (forall|k: int| 0 <= k < i ==> (#[trigger] hats[k]).name@ != hats[i].name@) ==> hat_called(
            hats,
            hats[i].name@,
        ) == Some(hats[i]),
{
    let name = hats[i].name@;
    let n = first_index(hats, has_name(name));
    lemma_is_first_index(hats, has_id(name), hats.len() as int);
    lemma_first_index(hats, has_name(name));
    if n > i {
        assert(!has_name(name)(hats[i]));
    }
}

/// A name stands for no hat exactly if it is neither the ID nor the display name of any.
pub proof fn law_other_names_are_not_found(hats: Seq<Hat>, name: Seq<char>)
    ensures
        hat_called(hats, name) is None <==> (forall|i: int|
            0 <= i < hats.len() ==> (#[trigger] hats[i]).id@ != name && hats[i].name@ != name),
        not_found_text(name) == "Hat '"@ + name + "' not found"@,
{
    lemma_first_index(hats, has_id(name));
    lemma_first_index(hats, has_name(name));
    let m = first_index(hats, has_id(name));
    let n = first_index(hats, has_name(name));
    if hat_called(hats, name) is None {
        assert forall|i: int| 0 <= i < hats.len() implies (#[trigger] hats[i]).id@ != name
            && hats[i].name@ != name by {
            assert(!has_id(name)(hats[i]));
            assert(!has_name(name)(hats[i]));
        }
    } else if m < hats.len() {
        assert(hats[m].id@ == name);
    } else {
        assert(hats[n].name@ == name);
    }
}

/// The table of hats is a heading and a rule, then a row for each hat by name: the display name
/// padded to 20 characters, and the description cut to 55, or a dash. Without hats it is one
/// sentence.
pub proof fn law_the_table_of_hats(hats: Seq<Hat>, hat: Hat)
    ensures
        hat.description@.len() > 0 ==> hat_row()(hat) == padded(hat.name@, 20) + " "@ + (shortened(
            hat.description@,
            55,
        ) + "\n"@),
        hat.description@.len() == 0 ==> hat_row()(hat) == padded(hat.name@, 20) + " "@ + (shortened(
            "-"@,
            55,
        ) + "\n"@),
        hats.len() > 0 ==> hats_table(hats) == padded("HAT"@, 20) + " DESCRIPTION\n"@ + (repeated(
            '-',
            80,
        ) + "\n"@) + gather(by_name(hats), hat_row()),
        hats.len() == 0 ==> hats_table(hats)
            == "No custom hats configured (using default HatlessRalph coordination).\n"@,
{
}

/// A list of topics has a line for each topic, in order; without topics it says so.
pub proof fn law_bullets_list_every_topic(topics: Seq<Topic>, topic: Topic)
    ensures
        bullets(Seq::empty()) == "  (none)\n"@,
        bullets(seq![topic]) == "  - "@ + topic.text@ + "\n"@,
        topics.len() > 0 ==> bullets(topics.push(topic)) == bullets(topics) + ("  - "@ + topic.text@
            + "\n"@),
{
    law_a_further_topic_adds_one_edge(topics, topic, "  - "@, "\n"@);
    law_a_further_topic_adds_one_edge(Seq::empty(), topic, "  - "@, "\n"@);
    assert(Seq::<Topic>::empty().push(topic) =~= seq![topic]);
    assert(bullets(seq![topic]) =~= "  - "@ + topic.text@ + "\n"@);
}

/// The instructions are shown line by line, each line behind two spaces; without instructions there
/// is no heading either.
pub proof fn law_instructions_are_shown_by_line(
    instructions: Seq<char>,
    front: Seq<Seq<char>>,
    line: Seq<char>,
)
    ensures
        instructions.len() == 0 ==> instructions_section(instructions) == Seq::<char>::empty(),
        instructions.len() > 0 ==> instructions_section(instructions) == "\nInstructions:\n"@
            + gather(lines_of(instructions), indented()),
        gather(front.push(line), indented()) == gather(front, indented()) + ("  "@ + line + "\n"@),
        gather(Seq::<Seq<char>>::empty(), indented()) == Seq::<char>::empty(),
{
    assert(front.push(line).drop_last() =~= front);
}

/// The details of a hat: its display name, its description unless it has none, its ID, what it
/// triggers on, what it publishes, and its instructions.
pub proof fn law_details_show_every_field(hat: Hat, use_colors: bool)
    ensures
        ({
            let title = if use_colors {
                "\x1b[1m"@ + hat.name@ + "\x1b[0m\n"@
            } else {
                hat.name@ + "\n"@
            };
            let description = if hat.description@.len() > 0 {
                hat.description@ + "\n"@
            } else {
                Seq::<char>::empty()
            };
            hat_details(hat, use_colors) == title + description + ("\nID: "@ + hat.id@ + "\n"@)
                + "\nTriggers On:\n"@ + bullets(hat.subscriptions@) + "\nPublishes:\n"@ + bullets(
                hat.publishes@,
            ) + instructions_section(hat.instructions@)
        }),
{
    if hat.description@.len() == 0 {
        assert(hat.description@ =~= Seq::<char>::empty());
    }
}

} // verus!
