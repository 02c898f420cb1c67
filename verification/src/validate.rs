//! Validation of the hat topology, and of hat instructions against it.
use vstd::prelude::*;

use crate::checks::{came_out_as, check_line, check_views, checks_text, count_checks, count_of,
    error, law_counting_counts_checks, lemma_count_of, lemma_count_of_concat, ok_check,
    print_checks, warning, Check, CheckResult, CheckView};
use crate::format::{concat3, concat5, decimal, number};
use crate::instructions::{cleaned, emitted_topics, extract_instruction_topics, is_emit_site,
    is_emit_word, is_mention_site, law_backticked_topics_are_mentioned,
    law_emitted_topics_follow_emit, law_mentions_need_backticks,
    law_topics_behind_emit_are_emitted, mentioned_topics, topic_like};
use crate::registry::{law_subscribers_have_a_subscription, law_the_first_subscriber_answers,
    subscribed, subscribes_to, Hat, HatRegistry, RalphConfig};
use crate::split::{law_blank_texts_have_no_words, words};
use crate::text::{ascii_lowered, begins_with, contains_char, ends_in, first_index, gather,
    holds_text, is_blank, law_blank_texts_are_trimmed_away, law_prefix_and_rest,
    law_rest_and_suffix, lemma_gather_at, lemma_gather_concat, lemma_gather_ends,
    lemma_gather_is_filter, lemma_gather_origin, lemma_gather_step, lemma_is_first_index,
    lemma_occurs_between, occurs_in, opt_text, str_eq, texts, trim, trimmed};
use crate::topic::{any_matches, any_reads, law_lists_of_topics, matches_any, reads_any,
    topic_matches, Topic};

verus! {

// ---------------------------------------------------------------------------
// Lists of checks
// ---------------------------------------------------------------------------
/// Adds a check at the end.
fn add_check(checks: &mut Vec<Check>, result: CheckResult, message: String)
    ensures
        check_views(final(checks)@) == check_views(old(checks)@).push(
            (CheckView { result, message: message@ }),
        ),
{
    let ghost before = check_views(checks@);
    checks.push(Check { result, message });
    assert(check_views(checks@) =~= before.push((CheckView { result, message: message@ })));
}

/// Adds several checks at the end.
fn add_checks(checks: &mut Vec<Check>, more: Vec<Check>)
    ensures
        check_views(final(checks)@) == check_views(old(checks)@) + check_views(more@),
{
    let ghost before = check_views(checks@);
    let mut more = more;
    let ghost added = check_views(more@);
    checks.append(&mut more);
    assert(check_views(checks@) =~= before + added);
}

// ---------------------------------------------------------------------------
// Instructions
// ---------------------------------------------------------------------------
/// The text of an instruction file and the ID of the hat that it belongs to.
#[derive(Debug)]
pub struct AgentDoc {
    pub hat_id: String,
    pub text: String,
}

pub open spec fn is_doc_of(id: Seq<char>) -> spec_fn(AgentDoc) -> bool {
    |d: AgentDoc| d.hat_id@ == id
}

/// The instruction file of a hat.
pub open spec fn doc_text(docs: Seq<AgentDoc>, id: Seq<char>) -> Option<Seq<char>> {
    let n = first_index(docs, is_doc_of(id));
    if n < docs.len() {
        Some(docs[n].text@)
    } else {
        None
    }
}

/// All instructions of a hat: its own, and those of its instruction file on the next line.
pub open spec fn full_instructions(hat: Hat, docs: Seq<AgentDoc>) -> Seq<char> {
    match doc_text(docs, hat.id@) {
        Some(extra) => hat.instructions@ + "\n"@ + extra,
        None => hat.instructions@,
    }
}

/// A topic that any hat may mention: the starting event, the completion promise, `task.start`.
pub open spec fn is_global(config: RalphConfig, topic: Seq<char>) -> bool {
    ||| (config.event_loop.starting_event is Some && config.event_loop.starting_event->0@ == topic)
    ||| config.event_loop.completion_promise@ == topic
    ||| topic == "task.start"@
}

/// A topic that `hat` publishes or subscribes to.
pub open spec fn owns(hat: Hat, topic: Seq<char>) -> bool {
    any_matches(hat.publishes@, topic) || any_matches(hat.subscriptions@, topic)
}

/// A literal topic of some hat.
pub open spec fn is_known(hats: Seq<Hat>, topic: Seq<char>) -> bool {
    !topic.contains('*') && exists|i: int|
        0 <= i < hats.len() && (any_reads((#[trigger] hats[i]).subscriptions@, topic) || any_reads(
            hats[i].publishes@,
            topic,
        ))
}

pub open spec fn no_instructions_message(hat: Hat) -> Seq<char> {
    "Hat '"@ + hat.name@ + "' has no instructions"@
}

pub open spec fn emit_message(hat: Hat, topic: Seq<char>) -> Seq<char> {
    "Hat '"@ + hat.name@ + "' instructions emit '"@ + topic
        + "' which is not in its publishes"@
}

pub open spec fn reference_message(hat: Hat, topic: Seq<char>) -> Seq<char> {
    "Hat '"@ + hat.name@ + "' instructions reference '"@ + topic
        + "', which belongs to another hat"@
}

/// An emitted topic gives a warning unless the hat publishes it.
pub open spec fn emit_findings(hat: Hat) -> spec_fn(Seq<char>) -> Seq<CheckView> {
    |topic: Seq<char>|
        if any_matches(hat.publishes@, topic) {
            Seq::empty()
        } else {
            seq![warning(emit_message(hat, topic))]
        }
}

/// A mentioned topic belongs to another hat: it is a topic of the configuration, but it is neither
/// the hat's own, nor global, nor among those that the hat is told to emit.
pub open spec fn is_foreign(
    config: RalphConfig,
    hats: Seq<Hat>,
    hat: Hat,
    emits: Seq<Seq<char>>,
    topic: Seq<char>,
) -> bool {
    !emits.contains(topic) && !is_global(config, topic) && !owns(hat, topic) && is_known(
        hats,
        topic,
    )
}

/// A mentioned topic gives a warning if it belongs to another hat.
pub open spec fn mention_findings(
    config: RalphConfig,
    hats: Seq<Hat>,
    hat: Hat,
    emits: Seq<Seq<char>>,
) -> spec_fn(Seq<char>) -> Seq<CheckView> {
    |topic: Seq<char>|
        if is_foreign(config, hats, hat, emits, topic) {
            seq![warning(reference_message(hat, topic))]
        } else {
            Seq::empty()
        }
}

/// What is wrong with the instructions of a hat.
pub open spec fn hat_findings(
    config: RalphConfig,
    hats: Seq<Hat>,
    docs: Seq<AgentDoc>,
    hat: Hat,
) -> Seq<CheckView> {
    let text = full_instructions(hat, docs);
    let emits = emitted_topics(text);
    if trimmed(text).len() == 0 {
        seq![warning(no_instructions_message(hat))]
    } else {
        gather(emits, emit_findings(hat)) + gather(
            mentioned_topics(text),
            mention_findings(config, hats, hat, emits),
        )
    }
}

pub open spec fn hat_findings_fn(
    config: RalphConfig,
    hats: Seq<Hat>,
    docs: Seq<AgentDoc>,
) -> spec_fn(Hat) -> Seq<CheckView> {
    |hat: Hat| hat_findings(config, hats, docs, hat)
}

/// What is wrong with the instructions of all hats, or a line that says that nothing is.
pub open spec fn instruction_report(config: RalphConfig, hats: Seq<Hat>, docs: Seq<AgentDoc>) -> Seq<
    CheckView,
> {
    let findings = gather(hats, hat_findings_fn(config, hats, docs));
    if findings.len() == 0 {
        seq![ok_check("Instructions consistent with topology"@)]
    } else {
        findings
    }
}

/// All instructions of a hat: its own, and those of its instruction file on the next line.
fn instructions_of(hat: &Hat, docs: &Vec<AgentDoc>) -> (r: String)
    ensures
        r@ == full_instructions(*hat, docs@),
{
    let mut i: usize = 0;
    while i < docs.len() && !str_eq(docs[i].hat_id.as_str(), hat.id.as_str())
        invariant
            i <= docs@.len(),
            forall|k: int| 0 <= k < i ==> !is_doc_of(hat.id@)(#[trigger] docs@[k]),
        ensures
            i <= docs@.len(),
            forall|k: int| 0 <= k < i ==> !is_doc_of(hat.id@)(#[trigger] docs@[k]),
            i < docs@.len() ==> is_doc_of(hat.id@)(docs@[i as int]),
        decreases docs@.len() - i,
    {
        i = i + 1;
    }
    proof {
        lemma_is_first_index(docs@, is_doc_of(hat.id@), i as int);
    }
    let mut text = hat.instructions.as_str().to_owned();
    if i < docs.len() {
        text.append("\n");
        text.append(docs[i].text.as_str());
    }
    text
}

fn topic_is_global(config: &RalphConfig, topic: &str) -> (r: bool)
    ensures
        r == is_global(*config, topic@),
{
    let starts = match &config.event_loop.starting_event {
        Some(start) => str_eq(start.as_str(), topic),
        None => false,
    };
    starts || str_eq(config.event_loop.completion_promise.as_str(), topic) || str_eq(
        topic,
        "task.start",
    )
}

fn topic_is_known(registry: &HatRegistry, topic: &str) -> (r: bool)
    ensures
        r == is_known(registry.hats(), topic@),
{
    if contains_char(topic, '*') {
        return false;
    }
    let hats = registry.all();
    for i in 0..hats.len()
        invariant
            hats@ == registry.hats(),
            !topic@.contains('*'),
            forall|k: int|
                0 <= k < i ==> !any_reads((#[trigger] hats@[k]).subscriptions@, topic@)
                    && !any_reads(hats@[k].publishes@, topic@),
    {
        if reads_any(&hats[i].subscriptions, topic) || reads_any(&hats[i].publishes, topic) {
            return true;
        }
    }
    false
}

fn find_emits(hat: &Hat, emits: &Vec<String>) -> (r: Vec<Check>)
    ensures
        check_views(r@) == gather(texts(emits@), emit_findings(*hat)),
{
    let ghost all = texts(emits@);
    let ghost f = emit_findings(*hat);
    let mut out: Vec<Check> = Vec::new();
    proof {
        lemma_gather_ends(all, f);
    }
    assert(check_views(out@) =~= Seq::empty());
    for i in 0..emits.len()
        invariant
            all == texts(emits@),
            f == emit_findings(*hat),
            check_views(out@) == gather(all.take(i as int), f),
    {
        let topic: &str = emits[i].as_str();
        let ghost before = check_views(out@);
        proof {
            lemma_gather_step(all, i as int, f);
        }
        if !matches_any(&hat.publishes, topic) {
            let message = concat5(
                "Hat '",
                hat.name.as_str(),
                "' instructions emit '",
                topic,
                "' which is not in its publishes",
            );
            add_check(&mut out, CheckResult::Warn, message);
        }
        assert(check_views(out@) =~= before + f(all[i as int]));
    }
    proof {
        lemma_gather_ends(all, f);
    }
    out
}

fn find_mentions(
    config: &RalphConfig,
    registry: &HatRegistry,
    hat: &Hat,
    emits: &Vec<String>,
    mentions: &Vec<String>,
) -> (r: Vec<Check>)
    ensures
        check_views(r@) == gather(
            texts(mentions@),
            mention_findings(*config, registry.hats(), *hat, texts(emits@)),
        ),
{
    let ghost all = texts(mentions@);
    let ghost f = mention_findings(*config, registry.hats(), *hat, texts(emits@));
    let mut out: Vec<Check> = Vec::new();
    proof {
        lemma_gather_ends(all, f);
    }
    assert(check_views(out@) =~= Seq::empty());
    for i in 0..mentions.len()
        invariant
            all == texts(mentions@),
            f == mention_findings(*config, registry.hats(), *hat, texts(emits@)),
            check_views(out@) == gather(all.take(i as int), f),
    {
        let topic: &str = mentions[i].as_str();
        let ghost before = check_views(out@);
        proof {
            lemma_gather_step(all, i as int, f);
        }
        let own = matches_any(&hat.publishes, topic) || matches_any(&hat.subscriptions, topic);
        if !holds_text(emits, topic) && !topic_is_global(config, topic) && !own && topic_is_known(
            registry,
            topic,
        ) {
            let message = concat5(
                "Hat '",
                hat.name.as_str(),
                "' instructions reference '",
                topic,
                "', which belongs to another hat",
            );
            add_check(&mut out, CheckResult::Warn, message);
        }
        assert(check_views(out@) =~= before + f(all[i as int]));
    }
    proof {
        lemma_gather_ends(all, f);
    }
    out
}

fn check_hat_instructions(
    config: &RalphConfig,
    registry: &HatRegistry,
    docs: &Vec<AgentDoc>,
    hat: &Hat,
) -> (r: Vec<Check>)
    ensures
        check_views(r@) == hat_findings(*config, registry.hats(), docs@, *hat),
{
    let text = instructions_of(hat, docs);
    let mut out: Vec<Check> = Vec::new();
    if trim(text.as_str()).is_empty() {
        add_check(
            &mut out,
            CheckResult::Warn,
            concat3("Hat '", hat.name.as_str(), "' has no instructions"),
        );
        assert(check_views(out@) =~= seq![warning(no_instructions_message(*hat))]);
        return out;
    }
    let (emits, mentions) = extract_instruction_topics(text.as_str());
    let found = find_emits(hat, &emits);
    add_checks(&mut out, found);
    let found = find_mentions(config, registry, hat, &emits, &mentions);
    add_checks(&mut out, found);
    assert(check_views(out@) =~= hat_findings(*config, registry.hats(), docs@, *hat));
    out
}

/// What is wrong with the instructions of all hats, or a line that says that nothing is.
pub fn instruction_checks(
    config: &RalphConfig,
    registry: &HatRegistry,
    docs: &Vec<AgentDoc>,
) -> (r: Vec<Check>)
    ensures
        check_views(r@) == instruction_report(*config, registry.hats(), docs@),
{
    let hats = registry.all();
    let ghost f = hat_findings_fn(*config, registry.hats(), docs@);
    let mut out: Vec<Check> = Vec::new();
    proof {
        lemma_gather_ends(hats@, f);
    }
    assert(check_views(out@) =~= Seq::empty());
    for i in 0..hats.len()
        invariant
            hats@ == registry.hats(),
            f == hat_findings_fn(*config, registry.hats(), docs@),
            check_views(out@) == gather(hats@.take(i as int), f),
    {
        proof {
            lemma_gather_step(hats@, i as int, f);
        }
        let found = check_hat_instructions(config, registry, docs, &hats[i]);
        add_checks(&mut out, found);
    }
    proof {
        lemma_gather_ends(hats@, f);
    }
    if out.len() == 0 {
        assert(check_views(out@).len() == 0);
        add_check(
            &mut out,
            CheckResult::Pass,
            "Instructions consistent with topology".to_owned(),
        );
        assert(check_views(out@) =~= seq![ok_check("Instructions consistent with topology"@)]);
    } else {
        assert(check_views(out@).len() != 0);
    }
    out
}

/// Cross-checks instruction text against hat topology. Returns warning count.
///
/// The findings are warnings (instructions are prose; they never hard-fail validation):
/// `emit <topic>` sites whose topic is not in that hat's `publishes`, backticked topics that
/// belong to *another* hat, and hats without instructions. Prose that merely names a topic without
/// backticks is ignored, as are backticked tokens that aren't topics anywhere in the config.
pub fn check_instructions(
    writer: &mut String,
    config: &RalphConfig,
    registry: &HatRegistry,
    use_colors: bool,
    docs: &Vec<AgentDoc>,
) -> (r: usize)
    ensures
        final(writer)@ == old(writer)@ + checks_text(
            instruction_report(*config, registry.hats(), docs@),
            use_colors,
        ),
        r == count_of(instruction_report(*config, registry.hats(), docs@), CheckResult::Warn),
{
    let checks = instruction_checks(config, registry, docs);
    print_checks(writer, &checks, use_colors);
    count_checks(&checks, CheckResult::Warn)
}

// ---------------------------------------------------------------------------
// Topology
// ---------------------------------------------------------------------------
/// The starting event, if there is one, must have a subscriber.
pub open spec fn starting_checks(config: RalphConfig, hats: Seq<Hat>) -> Seq<CheckView> {
    match config.event_loop.starting_event {
        Some(start) => if subscribed(hats, start@) {
            let hat = hats[first_index(hats, subscribes_to(start@))];
            seq![
                ok_check(
                    "Starting event '"@ + start@ + "' has subscriber ("@ + hat.name@ + ")"@,
                ),
            ]
        } else {
            seq![error("starting_event '"@ + start@ + "' has no subscribers"@)]
        },
        None => Seq::empty(),
    }
}

/// A published event is an orphan if nothing subscribes to it and it does not end the loop.
pub open spec fn is_orphan(config: RalphConfig, hats: Seq<Hat>, topic: Seq<char>) -> bool {
    topic != config.event_loop.completion_promise@ && !subscribed(hats, topic)
}

pub open spec fn orphan_message(hat: Hat, topic: Seq<char>) -> Seq<char> {
    "Event '"@ + topic + "' published by '"@ + hat.name@ + "' has no hat subscribers"@
}

pub open spec fn topic_orphans(config: RalphConfig, hats: Seq<Hat>, hat: Hat) -> spec_fn(
    Topic,
) -> Seq<CheckView> {
    |topic: Topic|
        if is_orphan(config, hats, topic@) {
            seq![warning(orphan_message(hat, topic@))]
        } else {
            Seq::empty()
        }
}

/// A warning for each orphan that a hat publishes.
pub open spec fn hat_orphans(config: RalphConfig, hats: Seq<Hat>) -> spec_fn(Hat) -> Seq<
    CheckView,
> {
    |hat: Hat| gather(hat.publishes@, topic_orphans(config, hats, hat))
}

/// Every hat publishes something.
pub open spec fn no_dead_ends(hats: Seq<Hat>) -> bool {
    forall|i: int| 0 <= i < hats.len() ==> (#[trigger] hats[i]).publishes@.len() > 0
}

/// A line that says that there are no dead ends, if there are none.
pub open spec fn dead_end_checks(hats: Seq<Hat>) -> Seq<CheckView> {
    if no_dead_ends(hats) {
        seq![ok_check("No dead-end hats"@)]
    } else {
        Seq::empty()
    }
}

/// The checks of the topology alone.
pub open spec fn topology_report(config: RalphConfig, hats: Seq<Hat>) -> Seq<CheckView> {
    starting_checks(config, hats) + gather(hats, hat_orphans(config, hats)) + dead_end_checks(hats)
}

/// All checks: those of the topology and, if instruction files are given, of the instructions.
pub open spec fn validation_report(
    config: RalphConfig,
    hats: Seq<Hat>,
    docs: Option<Seq<AgentDoc>>,
) -> Seq<CheckView> {
    match docs {
        Some(docs) => topology_report(config, hats) + instruction_report(config, hats, docs),
        None => topology_report(config, hats),
    }
}

fn check_starting_event(config: &RalphConfig, registry: &HatRegistry) -> (r: Vec<Check>)
    ensures
        check_views(r@) == starting_checks(*config, registry.hats()),
{
    let mut out: Vec<Check> = Vec::new();
    assert(check_views(out@) =~= Seq::empty());
    match &config.event_loop.starting_event {
        Some(start) => {
            match registry.get_for_topic(start.as_str()) {
                Some(hat) => {
                    let message = concat5(
                        "Starting event '",
                        start.as_str(),
                        "' has subscriber (",
                        hat.name.as_str(),
                        ")",
                    );
                    add_check(&mut out, CheckResult::Pass, message);
                },
                None => {
                    let message = concat3(
                        "starting_event '",
                        start.as_str(),
                        "' has no subscribers",
                    );
                    add_check(&mut out, CheckResult::Error, message);
                },
            }
        },
        None => {},
    }
    assert(check_views(out@) =~= starting_checks(*config, registry.hats()));
    out
}

fn check_hat_orphans(config: &RalphConfig, registry: &HatRegistry, hat: &Hat) -> (r: Vec<Check>)
    ensures
        check_views(r@) == gather(
            hat.publishes@,
            topic_orphans(*config, registry.hats(), *hat),
        ),
{
    let ghost all = hat.publishes@;
    let ghost f = topic_orphans(*config, registry.hats(), *hat);
    let mut out: Vec<Check> = Vec::new();
    proof {
        lemma_gather_ends(all, f);
    }
    assert(check_views(out@) =~= Seq::empty());
    for i in 0..hat.publishes.len()
        invariant
            all == hat.publishes@,
            f == topic_orphans(*config, registry.hats(), *hat),
            check_views(out@) == gather(all.take(i as int), f),
    {
        let topic: &str = hat.publishes[i].as_str();
        let ghost before = check_views(out@);
        proof {
            lemma_gather_step(all, i as int, f);
        }
        if !str_eq(topic, config.event_loop.completion_promise.as_str())
            && !registry.has_subscriber(topic) {
            let message = concat5(
                "Event '",
                topic,
                "' published by '",
                hat.name.as_str(),
                "' has no hat subscribers",
            );
            add_check(&mut out, CheckResult::Warn, message);
        }
        assert(check_views(out@) =~= before + f(all[i as int]));
    }
    proof {
        lemma_gather_ends(all, f);
    }
    out
}

fn check_orphans(config: &RalphConfig, registry: &HatRegistry) -> (r: Vec<Check>)
    ensures
        check_views(r@) == gather(registry.hats(), hat_orphans(*config, registry.hats())),
{
    let hats = registry.all();
    let ghost f = hat_orphans(*config, registry.hats());
    let mut out: Vec<Check> = Vec::new();
    proof {
        lemma_gather_ends(hats@, f);
    }
    assert(check_views(out@) =~= Seq::empty());
    for i in 0..hats.len()
        invariant
            hats@ == registry.hats(),
            f == hat_orphans(*config, registry.hats()),
            check_views(out@) == gather(hats@.take(i as int), f),
    {
        proof {
            lemma_gather_step(hats@, i as int, f);
        }
        let found = check_hat_orphans(config, registry, &hats[i]);
        add_checks(&mut out, found);
    }
    proof {
        lemma_gather_ends(hats@, f);
    }
    out
}

fn check_dead_ends(registry: &HatRegistry) -> (r: Vec<Check>)
    ensures
        check_views(r@) == dead_end_checks(registry.hats()),
{
    let hats = registry.all();
    let mut out: Vec<Check> = Vec::new();
    for i in 0..hats.len()
        invariant
            hats@ == registry.hats(),
            out@.len() == 0,
            forall|k: int| 0 <= k < i ==> (#[trigger] hats@[k]).publishes@.len() > 0,
    {
        if hats[i].publishes.len() == 0 {
            assert(!no_dead_ends(registry.hats()));
            assert(check_views(out@) =~= Seq::empty());
            return out;
        }
    }
    add_check(&mut out, CheckResult::Pass, "No dead-end hats".to_owned());
    assert(check_views(out@) =~= seq![ok_check("No dead-end hats"@)]);
    out
}

/// The checks of the topology alone: the starting event has a subscriber, published events have
/// subscribers, and no hat is a dead end.
pub fn check_topology(config: &RalphConfig, registry: &HatRegistry) -> (r: Vec<Check>)
    ensures
        check_views(r@) == topology_report(*config, registry.hats()),
{
    let mut out = check_starting_event(config, registry);
    let found = check_orphans(config, registry);
    add_checks(&mut out, found);
    let found = check_dead_ends(registry);
    add_checks(&mut out, found);
    out
}

// ---------------------------------------------------------------------------
// The report
// ---------------------------------------------------------------------------
/// The validation found errors.
#[derive(Clone, Copy, Debug, PartialEq, Eq, Structural)]
pub struct ValidationFailed {
    pub errors: usize,
}

impl ValidationFailed {
    /// What went wrong, in words.
    pub fn message(&self) -> (r: String)
        ensures
            r@ == "Validation failed with "@ + decimal(self.errors as nat) + " errors"@,
    {
        concat3("Validation failed with ", number(self.errors as u128).as_str(), " errors")
    }
}

pub open spec fn title_text() -> Seq<char> {
    "Hat Topology Validation\n=======================\n\n"@
}

/// The line that says where the loop begins.
pub open spec fn entry_text(config: RalphConfig) -> Seq<char> {
    match config.event_loop.starting_event {
        Some(start) => "Entry: task.start -> "@ + start@ + "\n"@,
        None => "Entry: task.start (Ralph coordinates)\n"@,
    }
}

/// The line that sums a validation up.
pub open spec fn result_text(errors: nat, warnings: nat) -> Seq<char> {
    if errors > 0 {
        "Result: Invalid ("@ + decimal(errors) + " errors, "@ + decimal(warnings)
            + " warnings)\n"@
    } else if warnings > 0 {
        "Result: Valid ("@ + decimal(warnings) + " warnings)\n"@
    } else {
        "Result: Valid\n"@
    }
}

/// The report of a validation.
pub open spec fn validation_text(
    config: RalphConfig,
    hats: Seq<Hat>,
    docs: Option<Seq<AgentDoc>>,
    use_colors: bool,
) -> Seq<char> {
    let report = validation_report(config, hats, docs);
    if hats.len() == 0 {
        title_text() + "No hats configured (solo mode).\n"@
    } else {
        title_text() + ("Hats: "@ + decimal(hats.len()) + " configured\n"@) + entry_text(config)
            + "\nChecks:\n"@ + checks_text(report, use_colors) + "\n"@ + result_text(
            count_of(report, CheckResult::Error),
            count_of(report, CheckResult::Warn),
        )
    }
}

/// How many errors a validation finds.
pub open spec fn validation_errors(
    config: RalphConfig,
    hats: Seq<Hat>,
    docs: Option<Seq<AgentDoc>>,
) -> nat {
    if hats.len() == 0 {
        0
    } else {
        count_of(validation_report(config, hats, docs), CheckResult::Error)
    }
}

/// The instruction files that a validation looks at, if it looks at instructions.
pub open spec fn docs_seen(docs: Option<&Vec<AgentDoc>>) -> Option<Seq<AgentDoc>> {
    match docs {
        Some(docs) => Some(docs@),
        None => None,
    }
}

fn result_line(errors: usize, warnings: u128) -> (r: String)
    ensures
        r@ == result_text(errors as nat, warnings as nat),
{
    if errors > 0 {
        concat5(
            "Result: Invalid (",
            number(errors as u128).as_str(),
            " errors, ",
            number(warnings).as_str(),
            " warnings)\n",
        )
    } else if warnings > 0 {
        concat3("Result: Valid (", number(warnings).as_str(), " warnings)\n")
    } else {
        "Result: Valid\n".to_owned()
    }
}

/// Validates hat topology.
///
/// When `docs` is `Some`, instruction text is also cross-checked against the topology; the
/// instruction file of a hat is appended to the hat's inline `instructions`. `None` runs topology
/// checks only.
pub fn validate_hats(
    writer: &mut String,
    config: &RalphConfig,
    registry: &HatRegistry,
    use_colors: bool,
    docs: Option<&Vec<AgentDoc>>,
) -> (r: Result<(), ValidationFailed>)
    ensures
        final(writer)@ == old(writer)@ + validation_text(
            *config,
            registry.hats(),
            docs_seen(docs),
            use_colors,
        ),
        match r {
            Ok(_) => validation_errors(*config, registry.hats(), docs_seen(docs)) == 0,
            Err(failed) => failed.errors > 0 && failed.errors == validation_errors(
                *config,
                registry.hats(),
                docs_seen(docs),
            ),
        },
{
    let mut text = "Hat Topology Validation\n=======================\n\n".to_owned();
    if registry.is_empty() {
        text.append("No hats configured (solo mode).\n");
        writer.append(text.as_str());
        return Ok(());
    }
    text.append(concat3("Hats: ", number(registry.len() as u128).as_str(), " configured\n").as_str());
    let entry = match &config.event_loop.starting_event {
        Some(start) => concat3("Entry: task.start -> ", start.as_str(), "\n"),
        None => "Entry: task.start (Ralph coordinates)\n".to_owned(),
    };
    text.append(entry.as_str());
    text.append("\nChecks:\n");
    let ghost head = text@;
    let checks = check_topology(config, registry);
    print_checks(&mut text, &checks, use_colors);
    let errors: usize = count_checks(&checks, CheckResult::Error);
    let mut warnings: u128 = count_checks(&checks, CheckResult::Warn) as u128;
    let ghost topology = topology_report(*config, registry.hats());
    let ghost report = validation_report(*config, registry.hats(), docs_seen(docs));
    match docs {
        Some(docs) => {
            let found = check_instructions(&mut text, config, registry, use_colors, docs);
            warnings = warnings + found as u128;
            proof {
                let instructions = instruction_report(*config, registry.hats(), docs@);
                lemma_gather_concat(topology, instructions, check_line(use_colors));
                lemma_count_of_concat(topology, instructions, CheckResult::Error);
                lemma_count_of_concat(topology, instructions, CheckResult::Warn);
                law_instruction_findings_are_warnings(*config, registry.hats(), docs@);
                assert(text@ =~= head + checks_text(report, use_colors));
            }
        },
        None => {},
    }
    assert(text@ == head + checks_text(report, use_colors));
    text.append("\n");
    text.append(result_line(errors, warnings).as_str());
    writer.append(text.as_str());
    if errors > 0 {
        Err(ValidationFailed { errors })
    } else {
        Ok(())
    }
}

// ---------------------------------------------------------------------------
// Laws
// ---------------------------------------------------------------------------
/// Where every piece holds warnings only, so does the whole.
proof fn lemma_gather_warnings<A>(s: Seq<A>, f: spec_fn(A) -> Seq<CheckView>)
    requires
        forall|x: A, i: int|
            0 <= i < f(x).len() ==> (#[trigger] f(x)[i]).result == CheckResult::Warn,
    ensures
        forall|i: int|
            0 <= i < gather(s, f).len() ==> (#[trigger] gather(s, f)[i]).result
                == CheckResult::Warn,
    decreases s.len(),
{
    if s.len() > 0 {
        lemma_gather_warnings(s.drop_last(), f);
        let front = gather(s.drop_last(), f);
        let back = f(s.last());
        assert forall|i: int| 0 <= i < gather(s, f).len() implies (#[trigger] gather(
            s,
            f,
        )[i]).result == CheckResult::Warn by {
            if i < front.len() {
                assert(gather(s, f)[i] == front[i]);
            } else {
                assert(gather(s, f)[i] == back[i - front.len()]);
            }
        }
    }
}

/// Instruction findings are always warnings, never errors.
pub proof fn law_instruction_findings_are_warnings(
    config: RalphConfig,
    hats: Seq<Hat>,
    docs: Seq<AgentDoc>,
)
    ensures
        forall|i: int|
            0 <= i < gather(hats, hat_findings_fn(config, hats, docs)).len() ==> (
            #[trigger] gather(hats, hat_findings_fn(config, hats, docs))[i]).result
                == CheckResult::Warn,
        count_of(instruction_report(config, hats, docs), CheckResult::Error) == 0,
{
    let f = hat_findings_fn(config, hats, docs);
    assert forall|hat: Hat, i: int| 0 <= i < f(hat).len() implies (#[trigger] f(hat)[i]).result
        == CheckResult::Warn by {
        let text = full_instructions(hat, docs);
        let emits = emitted_topics(text);
        if trimmed(text).len() != 0 {
            let a = gather(emits, emit_findings(hat));
            let b = gather(mentioned_topics(text), mention_findings(config, hats, hat, emits));
            lemma_gather_warnings(emits, emit_findings(hat));
            lemma_gather_warnings(
                mentioned_topics(text),
                mention_findings(config, hats, hat, emits),
            );
            if i < a.len() {
                assert(f(hat)[i] == a[i]);
            } else {
                assert(f(hat)[i] == b[i - a.len()]);
            }
        }
    }
    lemma_gather_warnings(hats, f);
    lemma_count_of(instruction_report(config, hats, docs), CheckResult::Error);
}

/// A validation fails exactly if there are hats, there is a starting event, and no hat subscribes
/// to it; it then counts one error. Looking at the instructions makes no difference to that.
pub proof fn law_validation_fails_without_a_first_subscriber(
    config: RalphConfig,
    hats: Seq<Hat>,
    docs: Option<Seq<AgentDoc>>,
)
    ensures
        validation_errors(config, hats, docs) == if hats.len() > 0
            && config.event_loop.starting_event is Some && !subscribed(
            hats,
            config.event_loop.starting_event->0@,
        ) {
            1nat
        } else {
            0nat
        },
{
    let a = starting_checks(config, hats);
    let b = gather(hats, hat_orphans(config, hats));
    let c = dead_end_checks(hats);
    let f = hat_orphans(config, hats);
    assert forall|hat: Hat, i: int| 0 <= i < f(hat).len() implies (#[trigger] f(hat)[i]).result
        == CheckResult::Warn by {
        lemma_gather_warnings(hat.publishes@, topic_orphans(config, hats, hat));
    }
    lemma_gather_warnings(hats, f);
    lemma_count_of(b, CheckResult::Error);
    lemma_count_of(c, CheckResult::Error);
    assert(a.len() <= 1);
    assert(a.len() == 1 ==> a.drop_last() =~= Seq::empty());
    assert(count_of(a.drop_last(), CheckResult::Error) == 0 || a.len() == 0) by {
        lemma_count_of(a.drop_last(), CheckResult::Error);
    }
    lemma_count_of_concat(a, b, CheckResult::Error);
    lemma_count_of_concat(a + b, c, CheckResult::Error);
    if let Some(d) = docs {
        law_instruction_findings_are_warnings(config, hats, d);
        lemma_count_of_concat(
            topology_report(config, hats),
            instruction_report(config, hats, d),
            CheckResult::Error,
        );
    }
}

/// Prose that merely names topics, without backticks and without `emit`, gives no finding.
pub proof fn law_plain_prose_is_ignored(
    config: RalphConfig,
    hats: Seq<Hat>,
    docs: Seq<AgentDoc>,
    hat: Hat,
)
    requires
        trimmed(full_instructions(hat, docs)).len() > 0,
        forall|i: int|
            0 <= i < words(full_instructions(hat, docs)).len() ==> !(#[trigger] words(
                full_instructions(hat, docs),
            )[i]).contains('`') && !is_emit_word(cleaned(words(full_instructions(hat, docs))[i])),
    ensures
        hat_findings(config, hats, docs, hat) == Seq::<CheckView>::empty(),
{
    let text = full_instructions(hat, docs);
    let w = words(text);
    let emits = emitted_topics(text);
    let mentions = mentioned_topics(text);
    law_emitted_topics_follow_emit(text);
    law_mentions_need_backticks(text);
    if emits.len() > 0 {
        assert(emits.contains(emits[0]));
        let i = choose|i: int|
            0 <= i < w.len() && #[trigger] is_emit_site(w, i) && cleaned(w[i]) == emits[0];
        assert(is_emit_word(cleaned(w[i - 1])));
    }
    if mentions.len() > 0 {
        assert(mentions.contains(mentions[0]));
        let i = choose|i: int|
            0 <= i < w.len() && #[trigger] is_mention_site(w, i) && cleaned(w[i]) == mentions[0];
        assert(w[i].contains('`'));
    }
    assert(hat_findings(config, hats, docs, hat) =~= Seq::empty());
}

/// A backticked token that is no topic of the configuration gives no finding, and neither does a
/// topic of the hat itself, a global topic, or one that the hat is told to emit.
pub proof fn law_harmless_mentions_are_ignored(
    config: RalphConfig,
    hats: Seq<Hat>,
    hat: Hat,
    emits: Seq<Seq<char>>,
    topic: Seq<char>,
)
    requires
        !is_known(hats, topic) || owns(hat, topic) || is_global(config, topic) || emits.contains(
            topic,
        ),
    ensures
        mention_findings(config, hats, hat, emits)(topic) == Seq::<CheckView>::empty(),
{
}

/// A topic that a hat is told to emit gives a finding exactly if the hat does not publish it.
pub proof fn law_emitted_topics_must_be_published(
    config: RalphConfig,
    hats: Seq<Hat>,
    docs: Seq<AgentDoc>,
    hat: Hat,
    topic: Seq<char>,
)
    requires
        trimmed(full_instructions(hat, docs)).len() > 0,
        emitted_topics(full_instructions(hat, docs)).contains(topic),
    ensures
        !any_matches(hat.publishes@, topic) ==> hat_findings(config, hats, docs, hat).contains(
            warning(emit_message(hat, topic)),
        ),
        any_matches(hat.publishes@, topic) ==> emit_findings(hat)(topic) == Seq::<
            CheckView,
        >::empty(),
{
    let text = full_instructions(hat, docs);
    let emits = emitted_topics(text);
    let k = choose|k: int| 0 <= k < emits.len() && emits[k] == topic;
    if !any_matches(hat.publishes@, topic) {
        assert(emit_findings(hat)(emits[k])[0] == warning(emit_message(hat, topic)));
        let i = lemma_gather_at(emits, emit_findings(hat), k, 0);
        assert(hat_findings(config, hats, docs, hat)[i] == warning(emit_message(hat, topic)));
    }
}

/// A mentioned topic that belongs to another hat gives a finding.
pub proof fn law_foreign_mentions_are_found(
    config: RalphConfig,
    hats: Seq<Hat>,
    docs: Seq<AgentDoc>,
    hat: Hat,
    topic: Seq<char>,
)
    requires
        trimmed(full_instructions(hat, docs)).len() > 0,
        mentioned_topics(full_instructions(hat, docs)).contains(topic),
        is_foreign(config, hats, hat, emitted_topics(full_instructions(hat, docs)), topic),
    ensures
        hat_findings(config, hats, docs, hat).contains(warning(reference_message(hat, topic))),
{
    let text = full_instructions(hat, docs);
    let emits = emitted_topics(text);
    let mentions = mentioned_topics(text);
    let f = mention_findings(config, hats, hat, emits);
    let k = choose|k: int| 0 <= k < mentions.len() && mentions[k] == topic;
    assert(f(mentions[k])[0] == warning(reference_message(hat, topic)));
    let i = lemma_gather_at(mentions, f, k, 0);
    let n = gather(emits, emit_findings(hat)).len() + i;
    assert(hat_findings(config, hats, docs, hat)[n] == warning(reference_message(hat, topic)));
}

/// A hat without instructions gives one finding, which says so.
pub proof fn law_missing_instructions_are_found(
    config: RalphConfig,
    hats: Seq<Hat>,
    docs: Seq<AgentDoc>,
    hat: Hat,
)
    requires
        trimmed(full_instructions(hat, docs)).len() == 0,
    ensures
        hat_findings(config, hats, docs, hat) == seq![warning(no_instructions_message(hat))],
{
}

/// Every finding about a hat's instructions is in the report.
pub proof fn law_findings_are_reported(
    config: RalphConfig,
    hats: Seq<Hat>,
    docs: Seq<AgentDoc>,
    hat: int,
    finding: CheckView,
)
    requires
        0 <= hat < hats.len(),
        hat_findings(config, hats, docs, hats[hat]).contains(finding),
    ensures
        instruction_report(config, hats, docs).contains(finding),
{
    let found = hat_findings(config, hats, docs, hats[hat]);
    let k = choose|k: int| 0 <= k < found.len() && found[k] == finding;
    let i = lemma_gather_at(hats, hat_findings_fn(config, hats, docs), hat, k);
    assert(instruction_report(config, hats, docs)[i] == finding);
}

/// A published event that nothing subscribes to, and that does not end the loop, is reported.
pub proof fn law_orphans_are_reported(config: RalphConfig, hats: Seq<Hat>, hat: int, topic: int)
    requires
        0 <= hat < hats.len(),
        0 <= topic < hats[hat].publishes@.len(),
        is_orphan(config, hats, hats[hat].publishes@[topic]@),
    ensures
        topology_report(config, hats).contains(
            warning(orphan_message(hats[hat], hats[hat].publishes@[topic]@)),
        ),
{
    let h = hats[hat];
    let t = h.publishes@[topic];
    let finding = warning(orphan_message(h, t@));
    assert(topic_orphans(config, hats, h)(t)[0] == finding);
    let j = lemma_gather_at(h.publishes@, topic_orphans(config, hats, h), topic, 0);
    let i = lemma_gather_at(hats, hat_orphans(config, hats), hat, j);
    let n = starting_checks(config, hats).len() + i;
    assert(topology_report(config, hats)[n] == finding);
}

/// Checks of the instructions come on top of those of the topology, and change none of them.
pub proof fn law_instructions_come_on_top(
    config: RalphConfig,
    hats: Seq<Hat>,
    docs: Seq<AgentDoc>,
)
    ensures
        validation_report(config, hats, Some(docs)) == validation_report(config, hats, None)
            + instruction_report(config, hats, docs),
{
}

// ---------------------------------------------------------------------------
// Laws on what is found, and why
// ---------------------------------------------------------------------------
/// The instructions of a hat are its own where no instruction file has its ID; else the first such
/// file follows them on a new line.
pub proof fn law_instruction_files_follow_the_inline_text(
    hat: Hat,
    docs: Seq<AgentDoc>,
    d: int,
)
    ensures
        (forall|k: int| 0 <= k < docs.len() ==> (#[trigger] docs[k]).hat_id@ != hat.id@)
            ==> full_instructions(hat, docs) == hat.instructions@,
        0 <= d < docs.len() && docs[d].hat_id@ == hat.id@ && (forall|k: int|
            0 <= k < d ==> (#[trigger] docs[k]).hat_id@ != hat.id@) ==> full_instructions(hat, docs)
            == hat.instructions@ + "\n"@ + docs[d].text@,
{
    if forall|k: int| 0 <= k < docs.len() ==> (#[trigger] docs[k]).hat_id@ != hat.id@ {
        lemma_is_first_index(docs, is_doc_of(hat.id@), docs.len() as int);
    }
    if 0 <= d < docs.len() && docs[d].hat_id@ == hat.id@ && (forall|k: int|
        0 <= k < d ==> (#[trigger] docs[k]).hat_id@ != hat.id@) {
        lemma_is_first_index(docs, is_doc_of(hat.id@), d);
    }
}

/// No topic at any index of `v` covers `topic`.
pub open spec fn none_covers(v: Seq<Topic>, topic: Seq<char>) -> bool {
    forall|i: int| 0 <= i < v.len() ==> !topic_matches((#[trigger] v[i]).text@, topic)
}

/// `topic` stands at some index of some hat's subscriptions or publishes.
pub open spec fn stands_in_topology(hats: Seq<Hat>, topic: Seq<char>) -> bool {
    ||| exists|g: int, q: int|
        0 <= g < hats.len() && 0 <= q < hats[g].subscriptions@.len() && (
        #[trigger] hats[g].subscriptions@[q]).text@ == topic
    ||| exists|g: int, q: int|
        0 <= g < hats.len() && 0 <= q < hats[g].publishes@.len() && (
        #[trigger] hats[g].publishes@[q]).text@ == topic
}

proof fn lemma_none_covers(v: Seq<Topic>, topic: Seq<char>)
    ensures
        none_covers(v, topic) <==> !any_matches(v, topic),
{
    law_lists_of_topics(v, topic);
}

proof fn lemma_is_known(hats: Seq<Hat>, topic: Seq<char>)
    ensures
        is_known(hats, topic) <==> !topic.contains('*') && stands_in_topology(hats, topic),
{
    if is_known(hats, topic) {
        let g = choose|i: int|
            0 <= i < hats.len() && (any_reads((#[trigger] hats[i]).subscriptions@, topic)
                || any_reads(hats[i].publishes@, topic));
        law_lists_of_topics(hats[g].subscriptions@, topic);
        law_lists_of_topics(hats[g].publishes@, topic);
        if any_reads(hats[g].subscriptions@, topic) {
            let q = choose|q: int|
                0 <= q < hats[g].subscriptions@.len() && (
                #[trigger] hats[g].subscriptions@[q]).text@ == topic;
            assert(hats[g].subscriptions@[q].text@ == topic);
        } else {
            let q = choose|q: int|
                0 <= q < hats[g].publishes@.len() && (#[trigger] hats[g].publishes@[q]).text@
                    == topic;
            assert(hats[g].publishes@[q].text@ == topic);
        }
    }
    if !topic.contains('*') && stands_in_topology(hats, topic) {
        if exists|g: int, q: int|
            0 <= g < hats.len() && 0 <= q < hats[g].subscriptions@.len() && (
            #[trigger] hats[g].subscriptions@[q]).text@ == topic {
            let (g, q) = choose|g: int, q: int|
                0 <= g < hats.len() && 0 <= q < hats[g].subscriptions@.len() && (
                #[trigger] hats[g].subscriptions@[q]).text@ == topic;
            law_lists_of_topics(hats[g].subscriptions@, topic);
            assert(any_reads(hats[g].subscriptions@, topic));
        } else {
            let (g, q) = choose|g: int, q: int|
                0 <= g < hats.len() && 0 <= q < hats[g].publishes@.len() && (
                #[trigger] hats[g].publishes@[q]).text@ == topic;
            law_lists_of_topics(hats[g].publishes@, topic);
            assert(any_reads(hats[g].publishes@, topic));
        }
    }
}

pub open spec fn not_published_by(hat: Hat) -> spec_fn(Seq<char>) -> bool {
    |t: Seq<char>| none_covers(hat.publishes@, t)
}

pub open spec fn emit_warning(hat: Hat) -> spec_fn(Seq<char>) -> CheckView {
    |t: Seq<char>|
        CheckView {
            result: CheckResult::Warn,
            message: "Hat '"@ + hat.name@ + "' instructions emit '"@ + t
                + "' which is not in its publishes"@,
        }
}

/// A topic that only other hats have to do with: it stands in the topology without a `*`, nothing
/// of the hat covers it, it is not among `emits`, and it is neither the starting event nor the
/// completion promise nor `task.start`.
pub open spec fn of_others_only(
    config: RalphConfig,
    hats: Seq<Hat>,
    hat: Hat,
    emits: Seq<Seq<char>>,
) -> spec_fn(Seq<char>) -> bool {
    |t: Seq<char>|
        {
            &&& !t.contains('*')
            &&& stands_in_topology(hats, t)
            &&& none_covers(hat.publishes@, t)
            &&& none_covers(hat.subscriptions@, t)
            &&& !emits.contains(t)
            &&& opt_text(config.event_loop.starting_event) != Some(t)
            &&& config.event_loop.completion_promise@ != t
            &&& t != "task.start"@
        }
}

pub open spec fn reference_warning(hat: Hat) -> spec_fn(Seq<char>) -> CheckView {
    |t: Seq<char>|
        CheckView {
            result: CheckResult::Warn,
            message: "Hat '"@ + hat.name@ + "' instructions reference '"@ + t
                + "', which belongs to another hat"@,
        }
}

/// What is found in a hat's instructions: one warning for each emitted topic that no publish of the
/// hat covers, then one for each mentioned topic that only other hats have to do with; or one
/// warning if there are no instructions.
pub proof fn law_what_is_found_in_instructions(
    config: RalphConfig,
    hats: Seq<Hat>,
    docs: Seq<AgentDoc>,
    hat: Hat,
)
    ensures
        is_blank(full_instructions(hat, docs)) ==> hat_findings(config, hats, docs, hat) == seq![
            CheckView {
                result: CheckResult::Warn,
                message: "Hat '"@ + hat.name@ + "' has no instructions"@,
            },
        ],
        !is_blank(full_instructions(hat, docs)) ==> ({
            let emits = emitted_topics(full_instructions(hat, docs));
            let mentions = mentioned_topics(full_instructions(hat, docs));
            hat_findings(config, hats, docs, hat) == emits.filter(not_published_by(hat)).map_values(
                emit_warning(hat),
            ) + mentions.filter(of_others_only(config, hats, hat, emits)).map_values(
                reference_warning(hat),
            )
        }),
{
    let text = full_instructions(hat, docs);
    law_blank_texts_are_trimmed_away(text);
    let emits = emitted_topics(text);
    let mentions = mentioned_topics(text);
    let f = emit_findings(hat);
    let g = mention_findings(config, hats, hat, emits);
    let of_others = of_others_only(config, hats, hat, emits);
    assert forall|t: Seq<char>| #[trigger]
        f(t) == if not_published_by(hat)(t) {
            seq![emit_warning(hat)(t)]
        } else {
            Seq::<CheckView>::empty()
        } by {
        lemma_none_covers(hat.publishes@, t);
    }
    assert forall|t: Seq<char>| #[trigger]
        g(t) == if of_others(t) {
            seq![reference_warning(hat)(t)]
        } else {
            Seq::<CheckView>::empty()
        } by {
        lemma_none_covers(hat.publishes@, t);
        lemma_none_covers(hat.subscriptions@, t);
        lemma_is_known(hats, t);
    }
    lemma_gather_is_filter(emits, f, not_published_by(hat), emit_warning(hat));
    lemma_gather_is_filter(mentions, g, of_others, reference_warning(hat));
}

/// Some word of a text is not blank.
proof fn lemma_words_are_not_blank(text: Seq<char>)
    requires
        words(text).len() > 0,
    ensures
        !is_blank(text),
        trimmed(text).len() > 0,
{
    law_blank_texts_are_trimmed_away(text);
    if is_blank(text) {
        law_blank_texts_have_no_words(text);
    }
}

proof fn lemma_reported(
    config: RalphConfig,
    hats: Seq<Hat>,
    docs: Seq<AgentDoc>,
    h: int,
    finding: CheckView,
)
    requires
        0 <= h < hats.len(),
        hat_findings(config, hats, docs, hats[h]).contains(finding),
    ensures
        instruction_report(config, hats, docs).contains(finding),
        validation_report(config, hats, Some(docs)).contains(finding),
{
    law_findings_are_reported(config, hats, docs, h, finding);
    let report = instruction_report(config, hats, docs);
    let topology = topology_report(config, hats);
    let i = choose|i: int| 0 <= i < report.len() && report[i] == finding;
    assert((topology + report)[topology.len() + i] == finding);
}

proof fn lemma_foreign_mention_is_reported(
    config: RalphConfig,
    hats: Seq<Hat>,
    docs: Seq<AgentDoc>,
    h: int,
    topic: Seq<char>,
    at: int,
)
    requires
        0 <= h < hats.len(),
        !topic.contains('*'),
        stands_in_topology(hats, topic),
        ({
            let w = words(full_instructions(hats[h], docs));
            &&& 0 <= at < w.len()
            &&& cleaned(w[at]) == topic
            &&& topic_like(topic)
            &&& w[at].contains('`')
            &&& at > 0 ==> ascii_lowered(cleaned(w[at - 1])) != "emit"@ && ascii_lowered(
                cleaned(w[at - 1]),
            ) != "emits"@
        }),
        !emitted_topics(full_instructions(hats[h], docs)).contains(topic),
        opt_text(config.event_loop.starting_event) != Some(topic),
        config.event_loop.completion_promise@ != topic,
        topic != "task.start"@,
        none_covers(hats[h].publishes@, topic),
        none_covers(hats[h].subscriptions@, topic),
    ensures
        validation_report(config, hats, Some(docs)).contains(
            (CheckView {
                result: CheckResult::Warn,
                message: "Hat '"@ + hats[h].name@ + "' instructions reference '"@ + topic
                    + "', which belongs to another hat"@,
            }),
        ),
{
    let hat = hats[h];
    let text = full_instructions(hat, docs);
    let w = words(text);
    lemma_words_are_not_blank(text);
    law_backticked_topics_are_mentioned(text, topic);
    assert(cleaned(w[at]) == topic);
    assert(mentioned_topics(text).contains(topic));
    lemma_is_known(hats, topic);
    lemma_none_covers(hat.publishes@, topic);
    lemma_none_covers(hat.subscriptions@, topic);
    law_foreign_mentions_are_found(config, hats, docs, hat, topic);
    lemma_reported(config, hats, docs, h, warning(reference_message(hat, topic)));
}

/// A topic in backticks that another hat subscribes to is reported: it stands at index `q` of the
/// subscriptions of hat `g` and holds no `*`; hat `h` has it in backticks, at word `at` of its
/// instructions, and not behind `emit`; nothing that `h` publishes or subscribes to covers it, `h`
/// is not told to emit it, and it is none of the topics that every hat may mention.
pub proof fn law_topics_of_other_subscribers_are_reported(
    config: RalphConfig,
    hats: Seq<Hat>,
    docs: Seq<AgentDoc>,
    h: int,
    g: int,
    q: int,
    at: int,
)
    requires
        0 <= h < hats.len(),
        0 <= g < hats.len(),
        0 <= q < hats[g].subscriptions@.len(),
        ({
            let topic = hats[g].subscriptions@[q].text@;
            let w = words(full_instructions(hats[h], docs));
            &&& !topic.contains('*')
            &&& 0 <= at < w.len()
            &&& cleaned(w[at]) == topic
            &&& topic_like(topic)
            &&& w[at].contains('`')
            &&& at > 0 ==> ascii_lowered(cleaned(w[at - 1])) != "emit"@ && ascii_lowered(
                cleaned(w[at - 1]),
            ) != "emits"@
            &&& !emitted_topics(full_instructions(hats[h], docs)).contains(topic)
            &&& opt_text(config.event_loop.starting_event) != Some(topic)
            &&& config.event_loop.completion_promise@ != topic
            &&& topic != "task.start"@
            &&& forall|i: int|
                0 <= i < hats[h].publishes@.len() ==> !topic_matches(
                    (#[trigger] hats[h].publishes@[i]).text@,
                    topic,
                )
            &&& forall|i: int|
                0 <= i < hats[h].subscriptions@.len() ==> !topic_matches(
                    (#[trigger] hats[h].subscriptions@[i]).text@,
                    topic,
                )
        }),
    ensures
        validation_report(config, hats, Some(docs)).contains(
            (CheckView {
                result: CheckResult::Warn,
                message: "Hat '"@ + hats[h].name@ + "' instructions reference '"@
                    + hats[g].subscriptions@[q].text@ + "', which belongs to another hat"@,
            }),
        ),
{
    let topic = hats[g].subscriptions@[q].text@;
    assert(stands_in_topology(hats, topic));
    lemma_foreign_mention_is_reported(config, hats, docs, h, topic, at);
}

/// A topic in backticks that another hat publishes is reported: it stands at index `q` of the
/// publishes of hat `g` and holds no `*`; the rest is as for topics that another hat subscribes to.
pub proof fn law_topics_of_other_publishers_are_reported(
    config: RalphConfig,
    hats: Seq<Hat>,
    docs: Seq<AgentDoc>,
    h: int,
    g: int,
    q: int,
    at: int,
)
    requires
        0 <= h < hats.len(),
        0 <= g < hats.len(),
        0 <= q < hats[g].publishes@.len(),
        ({
            let topic = hats[g].publishes@[q].text@;
            let w = words(full_instructions(hats[h], docs));
            &&& !topic.contains('*')
            &&& 0 <= at < w.len()
            &&& cleaned(w[at]) == topic
            &&& topic_like(topic)
            &&& w[at].contains('`')
            &&& at > 0 ==> ascii_lowered(cleaned(w[at - 1])) != "emit"@ && ascii_lowered(
                cleaned(w[at - 1]),
            ) != "emits"@
            &&& !emitted_topics(full_instructions(hats[h], docs)).contains(topic)
            &&& opt_text(config.event_loop.starting_event) != Some(topic)
            &&& config.event_loop.completion_promise@ != topic
            &&& topic != "task.start"@
            &&& forall|i: int|
                0 <= i < hats[h].publishes@.len() ==> !topic_matches(
                    (#[trigger] hats[h].publishes@[i]).text@,
                    topic,
                )
            &&& forall|i: int|
                0 <= i < hats[h].subscriptions@.len() ==> !topic_matches(
                    (#[trigger] hats[h].subscriptions@[i]).text@,
                    topic,
                )
        }),
    ensures
        validation_report(config, hats, Some(docs)).contains(
            (CheckView {
                result: CheckResult::Warn,
                message: "Hat '"@ + hats[h].name@ + "' instructions reference '"@
                    + hats[g].publishes@[q].text@ + "', which belongs to another hat"@,
            }),
        ),
{
    let topic = hats[g].publishes@[q].text@;
    assert(stands_in_topology(hats, topic));
    lemma_foreign_mention_is_reported(config, hats, docs, h, topic, at);
}

/// A topic that a hat is told to emit, at word `at` of its instructions, is reported if no publish
/// of the hat covers it.
pub proof fn law_unpublished_emits_are_reported(
    config: RalphConfig,
    hats: Seq<Hat>,
    docs: Seq<AgentDoc>,
    h: int,
    at: int,
)
    requires
        0 <= h < hats.len(),
        ({
            let w = words(full_instructions(hats[h], docs));
            &&& 0 < at < w.len()
            &&& topic_like(cleaned(w[at]))
            &&& (ascii_lowered(cleaned(w[at - 1])) == "emit"@ || ascii_lowered(cleaned(w[at - 1]))
                == "emits"@)
            &&& forall|i: int|
                0 <= i < hats[h].publishes@.len() ==> !topic_matches(
                    (#[trigger] hats[h].publishes@[i]).text@,
                    cleaned(w[at]),
                )
        }),
    ensures
        validation_report(config, hats, Some(docs)).contains(
            (CheckView {
                result: CheckResult::Warn,
                message: "Hat '"@ + hats[h].name@ + "' instructions emit '"@ + cleaned(
                    words(full_instructions(hats[h], docs))[at],
                ) + "' which is not in its publishes"@,
            }),
        ),
{
    let hat = hats[h];
    let text = full_instructions(hat, docs);
    let topic = cleaned(words(text)[at]);
    lemma_words_are_not_blank(text);
    law_topics_behind_emit_are_emitted(text, topic);
    assert(emitted_topics(text).contains(topic));
    lemma_none_covers(hat.publishes@, topic);
    law_emitted_topics_must_be_published(config, hats, docs, hat, topic);
    lemma_reported(config, hats, docs, h, warning(emit_message(hat, topic)));
}

/// Every warning about instructions is about some hat, and is among what is found in its
/// instructions.
pub proof fn law_instruction_warnings_are_about_hats(
    config: RalphConfig,
    hats: Seq<Hat>,
    docs: Seq<AgentDoc>,
    finding: CheckView,
) -> (h: int)
    requires
        instruction_report(config, hats, docs).contains(finding),
        finding.result == CheckResult::Warn,
    ensures
        0 <= h < hats.len(),
        hat_findings(config, hats, docs, hats[h]).contains(finding),
{
    let f = hat_findings_fn(config, hats, docs);
    assert(gather(hats, f).contains(finding));
    lemma_gather_origin(hats, f, finding)
}

/// The instruction checks say that all is well exactly if nothing is found in any hat's
/// instructions.
pub proof fn law_all_is_well_without_findings(
    config: RalphConfig,
    hats: Seq<Hat>,
    docs: Seq<AgentDoc>,
)
    ensures
        (forall|h: int|
            0 <= h < hats.len() ==> hat_findings(config, hats, docs, #[trigger] hats[h]).len() == 0)
            <==> instruction_report(config, hats, docs) == seq![
            CheckView {
                result: CheckResult::Pass,
                message: "Instructions consistent with topology"@,
            },
        ],
{
    let f = hat_findings_fn(config, hats, docs);
    let all = gather(hats, f);
    let ok = CheckView {
        result: CheckResult::Pass,
        message: "Instructions consistent with topology"@,
    };
    law_instruction_findings_are_warnings(config, hats, docs);
    if forall|h: int|
        0 <= h < hats.len() ==> hat_findings(config, hats, docs, #[trigger] hats[h]).len() == 0 {
        if all.len() > 0 {
            assert(all.contains(all[0]));
            let h = lemma_gather_origin(hats, f, all[0]);
        }
    }
    if instruction_report(config, hats, docs) == seq![ok] {
        if all.len() > 0 {
            assert(all[0].result == CheckResult::Warn);
            assert(seq![ok][0] == all[0]);
        }
        assert forall|h: int| 0 <= h < hats.len() implies hat_findings(
            config,
            hats,
            docs,
            #[trigger] hats[h],
        ).len() == 0 by {
            if f(hats[h]).len() > 0 {
                let n = lemma_gather_at(hats, f, h, 0);
            }
        }
    }
}

// ---------------------------------------------------------------------------
// Laws on the topology
// ---------------------------------------------------------------------------
/// A topic that does not end the loop, and that no subscription of any hat covers.
pub open spec fn leads_nowhere(config: RalphConfig, hats: Seq<Hat>) -> spec_fn(Topic) -> bool {
    |t: Topic|
        t.text@ != config.event_loop.completion_promise@ && forall|i: int, j: int|
            0 <= i < hats.len() && 0 <= j < hats[i].subscriptions@.len() ==> !topic_matches(
                (#[trigger] hats[i].subscriptions@[j]).text@,
                t.text@,
            )
}

pub open spec fn orphan_warning(hat: Hat) -> spec_fn(Topic) -> CheckView {
    |t: Topic|
        CheckView {
            result: CheckResult::Warn,
            message: "Event '"@ + t.text@ + "' published by '"@ + hat.name@
                + "' has no hat subscribers"@,
        }
}

/// Of what a hat publishes, exactly the topics that lead nowhere are reported, one warning for
/// each, in order.
pub proof fn law_what_leads_nowhere_is_reported(config: RalphConfig, hats: Seq<Hat>, hat: Hat)
    ensures
        hat_orphans(config, hats)(hat) == hat.publishes@.filter(
            leads_nowhere(config, hats),
        ).map_values(orphan_warning(hat)),
{
    let f = topic_orphans(config, hats, hat);
    let p = leads_nowhere(config, hats);
    assert forall|t: Topic| #[trigger]
        f(t) == if p(t) {
            seq![orphan_warning(hat)(t)]
        } else {
            Seq::<CheckView>::empty()
        } by {
        law_subscribers_have_a_subscription(hats, t@);
        assert(t@ == t.text@);
        if subscribed(hats, t@) {
            let (i, j) = choose|i: int, j: int|
                0 <= i < hats.len() && 0 <= j < hats[i].subscriptions@.len() && topic_matches(
                    (#[trigger] hats[i].subscriptions@[j]).text@,
                    t@,
                );
            assert(topic_matches(hats[i].subscriptions@[j].text@, t.text@));
        }
    }
    lemma_gather_is_filter(hat.publishes@, f, p, orphan_warning(hat));
}

/// The checks of the topology begin with the starting event: without one there is no such check;
/// with one, it says which hat subscribes to it first, or that none does.
pub proof fn law_the_starting_event_is_checked_first(
    config: RalphConfig,
    hats: Seq<Hat>,
    i: int,
    j: int,
)
    ensures
        config.event_loop.starting_event is None ==> topology_report(config, hats) == gather(
            hats,
            hat_orphans(config, hats),
        ) + dead_end_checks(hats),
        config.event_loop.starting_event matches Some(start) ==> ({
            &&& (0 <= i < hats.len() && 0 <= j < hats[i].subscriptions@.len() && topic_matches(
                hats[i].subscriptions@[j].text@,
                start@,
            ) && (forall|h: int, k: int|
                0 <= h < i && 0 <= k < hats[h].subscriptions@.len() ==> !topic_matches(
                    (#[trigger] hats[h].subscriptions@[k]).text@,
                    start@,
                ))) ==> topology_report(config, hats) == seq![
                CheckView {
                    result: CheckResult::Pass,
                    message: "Starting event '"@ + start@ + "' has subscriber ("@ + hats[i].name@
                        + ")"@,
                },
            ] + gather(hats, hat_orphans(config, hats)) + dead_end_checks(hats)
            &&& (forall|h: int, k: int|
                0 <= h < hats.len() && 0 <= k < hats[h].subscriptions@.len() ==> !topic_matches(
                    (#[trigger] hats[h].subscriptions@[k]).text@,
                    start@,
                )) ==> topology_report(config, hats) == seq![
                CheckView {
                    result: CheckResult::Error,
                    message: "starting_event '"@ + start@ + "' has no subscribers"@,
                },
            ] + gather(hats, hat_orphans(config, hats)) + dead_end_checks(hats)
        }),
{
    let rest = gather(hats, hat_orphans(config, hats));
    match config.event_loop.starting_event {
        None => {
            assert(Seq::<CheckView>::empty() + rest =~= rest);
        },
        Some(start) => {
            law_subscribers_have_a_subscription(hats, start@);
            if 0 <= i < hats.len() && 0 <= j < hats[i].subscriptions@.len() && topic_matches(
                hats[i].subscriptions@[j].text@,
                start@,
            ) && (forall|h: int, k: int|
                0 <= h < i && 0 <= k < hats[h].subscriptions@.len() ==> !topic_matches(
                    (#[trigger] hats[h].subscriptions@[k]).text@,
                    start@,
                )) {
                law_the_first_subscriber_answers(hats, start@, i, j);
            }
        },
    }
}

/// The topology has no dead ends exactly if every hat publishes something; a line says so.
pub proof fn law_dead_ends_publish_nothing(hats: Seq<Hat>, i: int)
    ensures
        (forall|k: int| 0 <= k < hats.len() ==> (#[trigger] hats[k]).publishes@.len() > 0)
            ==> dead_end_checks(hats) == seq![
            CheckView { result: CheckResult::Pass, message: "No dead-end hats"@ },
        ],
        0 <= i < hats.len() && hats[i].publishes@.len() == 0 ==> dead_end_checks(hats) == Seq::<
            CheckView,
        >::empty(),
{
}

/// Every check of a validation is printed in its report.
pub proof fn law_reports_print_every_check(
    config: RalphConfig,
    hats: Seq<Hat>,
    docs: Option<Seq<AgentDoc>>,
    use_colors: bool,
    line: Seq<char>,
)
    requires
        hats.len() > 0,
        occurs_in(checks_text(validation_report(config, hats, docs), use_colors), line),
    ensures
        occurs_in(validation_text(config, hats, docs, use_colors), line),
{
    let report = validation_report(config, hats, docs);
    let head = title_text() + ("Hats: "@ + decimal(hats.len()) + " configured\n"@) + entry_text(
        config,
    ) + "\nChecks:\n"@;
    let body = checks_text(report, use_colors);
    let tail = "\n"@ + result_text(
        count_of(report, CheckResult::Error),
        count_of(report, CheckResult::Warn),
    );
    lemma_occurs_between(head, body, tail, line);
    assert(head + body + tail =~= validation_text(config, hats, docs, use_colors));
}

/// A report ends with the result: invalid with both counts where there are errors, valid with the
/// count of warnings where there are only warnings, else valid.
pub proof fn law_reports_end_with_the_result(
    config: RalphConfig,
    hats: Seq<Hat>,
    docs: Option<Seq<AgentDoc>>,
    use_colors: bool,
)
    requires
        hats.len() > 0,
    ensures
        ({
            let report = validation_report(config, hats, docs);
            let errors = report.filter(came_out_as(CheckResult::Error)).len();
            let warnings = report.filter(came_out_as(CheckResult::Warn)).len();
            ends_in(
                validation_text(config, hats, docs, use_colors),
                if errors > 0 {
                    "\nResult: Invalid ("@ + decimal(errors) + " errors, "@ + decimal(warnings)
                        + " warnings)\n"@
                } else if warnings > 0 {
                    "\nResult: Valid ("@ + decimal(warnings) + " warnings)\n"@
                } else {
                    "\nResult: Valid\n"@
                },
            )
        }),
{
    let report = validation_report(config, hats, docs);
    let errors = count_of(report, CheckResult::Error);
    let warnings = count_of(report, CheckResult::Warn);
    law_counting_counts_checks(report, CheckResult::Error);
    law_counting_counts_checks(report, CheckResult::Warn);
    reveal_strlit("\n");
    reveal_strlit("Result: Invalid (");
    reveal_strlit("Result: Valid (");
    reveal_strlit("Result: Valid\n");
    reveal_strlit("\nResult: Invalid (");
    reveal_strlit("\nResult: Valid (");
    reveal_strlit("\nResult: Valid\n");
    let tail = "\n"@ + result_text(errors, warnings);
    let end = if errors > 0 {
        "\nResult: Invalid ("@ + decimal(errors) + " errors, "@ + decimal(warnings)
            + " warnings)\n"@
    } else if warnings > 0 {
        "\nResult: Valid ("@ + decimal(warnings) + " warnings)\n"@
    } else {
        "\nResult: Valid\n"@
    };
    assert(tail =~= end);
    let rest = title_text() + ("Hats: "@ + decimal(hats.len()) + " configured\n"@) + entry_text(
        config,
    ) + "\nChecks:\n"@ + checks_text(report, use_colors);
    assert(rest + tail =~= validation_text(config, hats, docs, use_colors));
    law_rest_and_suffix(rest, rest, tail);
}

/// A report says where the loop begins and how many hats there are.
pub proof fn law_reports_say_where_the_loop_begins(
    config: RalphConfig,
    hats: Seq<Hat>,
    docs: Option<Seq<AgentDoc>>,
    use_colors: bool,
)
    requires
        hats.len() > 0,
    ensures
        begins_with(
            validation_text(config, hats, docs, use_colors),
            "Hat Topology Validation\n=======================\n\n"@ + ("Hats: "@ + decimal(
                hats.len(),
            ) + " configured\n"@) + match config.event_loop.starting_event {
                Some(start) => "Entry: task.start -> "@ + start@ + "\n"@,
                None => "Entry: task.start (Ralph coordinates)\n"@,
            } + "\nChecks:\n"@,
        ),
{
    let report = validation_report(config, hats, docs);
    let head = title_text() + ("Hats: "@ + decimal(hats.len()) + " configured\n"@) + entry_text(
        config,
    ) + "\nChecks:\n"@;
    let rest = checks_text(report, use_colors) + ("\n"@ + result_text(
        count_of(report, CheckResult::Error),
        count_of(report, CheckResult::Warn),
    ));
    law_prefix_and_rest(head, head, rest);
    assert(head + rest =~= validation_text(config, hats, docs, use_colors));
}

/// The instruction files that are handed over are those that are looked at; none are looked at
/// where none are handed over.
pub proof fn law_files_that_are_given_are_seen(docs: &Vec<AgentDoc>)
    ensures
        docs_seen(Some(docs)) == Some(docs@),
        docs_seen(None) is None,
{
}

} // verus!
