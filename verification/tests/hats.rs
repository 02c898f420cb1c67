use ralph_hats::args::{GraphFormat, HatsArgs, HatsCommands, ListFormat, ShowArgs};
use ralph_hats::backend::{
    backend_names, is_known_backend, resolve_backend, unknown_backend_message, validate_backend_name,
    BackendChoice,
};
use ralph_hats::checks::{print_check, CheckResult};
use ralph_hats::commands::{execute, presets_format, HatsOutcome, Loaded};
use ralph_hats::presets::{DiscoveredPreset, PresetFormat};
use ralph_hats::diagram::{
    diagram_from_lines, extract_diagram, finish_diagram, graph_hats, render_hat_dag_via_ai,
    BackendReply, DiagramStep, GraphStep, ResponseLine,
};
use ralph_hats::graph::{
    build_diagram_prompt, generate_compact_graph, generate_mermaid_string, sanitize_id,
};
use ralph_hats::instructions::{clean_token, extract_instruction_topics, is_topic_like};
use ralph_hats::listing::{list_hats, show_hat};
use ralph_hats::registry::{CliConfig, EventLoopConfig, Hat, HatRegistry, RalphConfig};
use ralph_hats::topic::Topic;
use ralph_hats::validate::{check_instructions, validate_hats, AgentDoc, ValidationFailed};

fn default_config() -> RalphConfig {
    RalphConfig {
        event_loop: EventLoopConfig {
            starting_event: None,
            completion_promise: "LOOP_COMPLETE".to_string(),
        },
        cli: CliConfig {
            backend: "codex".to_string(),
        },
    }
}

const DEFAULT_BACKEND: &str = "default";

fn backends() -> Vec<String> {
    backend_names(DEFAULT_BACKEND)
}

fn config_starting_with(topic: &str) -> RalphConfig {
    let mut config = default_config();
    config.event_loop.starting_event = Some(topic.to_string());
    config
}

fn topics(names: &[&str]) -> Vec<Topic> {
    names.iter().map(|n| Topic::new(n)).collect()
}

fn mock_hat(name: &str, subs: &[&str], pubs: &[&str]) -> Hat {
    let mut hat = Hat::new(&sanitize_id(name), name);
    hat.description = format!("Description for {}", name);
    hat.subscriptions = topics(subs);
    hat.publishes = topics(pubs);
    hat
}

#[test]
fn test_sanitize_id() {
    assert_eq!(sanitize_id("My Hat"), "MyHat");
    assert_eq!(sanitize_id("cool-hat"), "coolhat");
    assert_eq!(sanitize_id("Hat!@#"), "Hat");
    assert_eq!(sanitize_id("123"), "123");
}

#[test]
fn sanitize_id_keeps_letters_of_all_scripts() {
    assert_eq!(sanitize_id("Übung № 5 — ñ"), "Übung5ñ");
    assert_eq!(sanitize_id(""), "");
    assert_eq!(sanitize_id(&sanitize_id("a-b c")), sanitize_id("a-b c"));
}

#[test]
fn test_list_hats_empty() {
    let registry = HatRegistry::new();
    let mut output = String::new();
    list_hats(&mut output, &registry, false);
    assert!(output.contains("No custom hats configured"));
}

#[test]
fn test_list_hats_with_entries() {
    let mut registry = HatRegistry::new();
    registry.register(mock_hat("Builder", &["build.task"], &["build.done"]));
    registry.register(mock_hat("Planner", &["plan.start"], &["build.task"]));

    let mut output = String::new();
    list_hats(&mut output, &registry, false);

    assert!(output.contains("HAT                  DESCRIPTION"));
    assert!(output.contains("Builder"));
    assert!(output.contains("Planner"));
}

#[test]
fn list_hats_sorts_by_name() {
    let mut registry = HatRegistry::new();
    registry.register(mock_hat("b", &[], &[]));
    registry.register(mock_hat("B", &[], &[]));
    let mut plain = mock_hat("a rather long name of a hat", &[], &[]);
    plain.description = String::new();
    registry.register(plain);

    let mut output = "> ".to_string();
    list_hats(&mut output, &registry, true);
    let rule = "-".repeat(80);
    assert_eq!(
        output,
        format!(
            "> HAT                  DESCRIPTION\n{}\n\
             B                    Description for B\n\
             a rather long name of a hat -\n\
             b                    Description for b\n",
            rule
        )
    );
}

#[test]
fn test_validate_hats_orphan() {
    let mut registry = HatRegistry::new();
    // Builder publishes build.done, but no one listens
    registry.register(mock_hat("Builder", &["build.task"], &["build.done"]));

    let config = default_config();
    let mut output = String::new();
    validate_hats(&mut output, &config, &registry, false, None).unwrap();

    // Should warn about build.done having no subscribers
    assert!(output.contains("Event 'build.done' published by 'Builder' has no hat subscribers"));
    assert!(output.contains("Result: Valid (1 warnings)"));
}

#[test]
fn test_graph_hats_compact() {
    let mut registry = HatRegistry::new();
    registry.register(mock_hat("Builder", &["build.task"], &["build.done"]));
    registry.register(mock_hat("Planner", &["planner.start"], &["planner.done"]));

    let config = default_config();
    let mut output = String::new();
    graph_hats(
        &mut output,
        &config,
        &registry,
        GraphFormat::Compact,
        None,
        &backends(),
    )
    .unwrap();

    assert!(output.contains("Graph:"));
    assert!(output.contains("task.start -> Ralph"));
    assert!(output.contains("Ralph -> Builder"));
    assert!(output.contains("Builder => build.task") || output.contains("Builder <= build.task"));
}

#[test]
fn compact_graph_lists_hats_by_name() {
    let mut registry = HatRegistry::new();
    assert_eq!(generate_compact_graph(&registry), "No hats configured.\n");
    registry.register(mock_hat("B", &["b.in"], &["b.out"]));
    registry.register(mock_hat("A", &["a.in"], &[]));
    assert_eq!(
        generate_compact_graph(&registry),
        "Graph:\n  task.start -> Ralph\n  Ralph -> A\n    A <= a.in\n  Ralph -> B\n    B => b.out\n    B <= b.in\n"
    );
}

#[test]
fn test_generate_mermaid_string() {
    let mut registry = HatRegistry::new();
    registry.register(mock_hat("A", &["start"], &["mid"]));
    registry.register(mock_hat("B", &["mid"], &["end"]));

    let output = generate_mermaid_string(&registry);

    assert!(output.contains("flowchart LR"));
    assert!(output.contains("Ralph -->|start| A"));
    assert!(output.contains("A -->|mid| Ralph"));
    assert!(output.contains("Ralph -->|mid| B"));
    // Hat-to-hat connection (A publishes mid, B subscribes to mid)
    assert!(output.contains("A -.->|mid| B"));
}

#[test]
fn mermaid_draws_every_edge_once() {
    let mut registry = HatRegistry::new();
    registry.register(mock_hat("Hat A", &["start", "mid"], &["mid"]));
    registry.register(mock_hat("Hat B", &["mid"], &["start"]));
    assert_eq!(
        generate_mermaid_string(&registry),
        "flowchart LR\n    Start[task.start] --> Ralph\n    \
         Ralph -->|start| HatA\n    Ralph -->|mid| HatA\n    Ralph -->|mid| HatB\n    \
         HatA -->|mid| Ralph\n    HatB -->|start| Ralph\n    \
         HatA -.->|mid| HatB\n    HatB -.->|start| HatA\n"
    );
}

#[test]
fn mermaid_graph_is_fenced() {
    let registry = HatRegistry::new();
    let mut output = String::new();
    let step = graph_hats(
        &mut output,
        &default_config(),
        &registry,
        GraphFormat::Mermaid,
        None,
        &backends(),
    );
    assert_eq!(step, Ok(GraphStep::Written));
    assert_eq!(
        output,
        "```mermaid\nflowchart LR\n    Start[task.start] --> Ralph\n```\n"
    );
}

#[test]
fn drawn_graphs_ask_a_backend() {
    let mut registry = HatRegistry::new();
    let mut output = String::new();
    for format in [GraphFormat::Unicode, GraphFormat::Ascii] {
        let step = graph_hats(
            &mut output,
            &default_config(),
            &registry,
            format,
            Some("nope"),
            &backends(),
        );
        assert_eq!(step, Ok(GraphStep::Written));
    }
    assert_eq!(output, "No hats configured.\nNo hats configured.\n");

    registry.register(mock_hat("A", &["x"], &[]));
    let mut output = String::new();
    let step = graph_hats(
        &mut output,
        &default_config(),
        &registry,
        GraphFormat::Ascii,
        Some("amp"),
        &backends(),
    );
    assert_eq!(
        step,
        Ok(GraphStep::Ask {
            backend: BackendChoice::Named("amp".to_string()),
            prompt: build_diagram_prompt(&registry),
        })
    );
    let step = graph_hats(
        &mut output,
        &default_config(),
        &registry,
        GraphFormat::Unicode,
        Some("nope"),
        &backends(),
    );
    assert_eq!(step, Err(unknown_backend_message("nope", &backends())));
    assert_eq!(output, "");
}

#[test]
fn test_show_hat_found() {
    let mut registry = HatRegistry::new();
    registry.register(mock_hat("Builder", &["build.task"], &["build.done"]));

    let mut output = String::new();
    show_hat(&mut output, &registry, "Builder", false).unwrap();

    assert!(output.contains("Builder"));
    assert!(output.contains("Triggers On:"));
    assert!(output.contains("build.task"));
    assert!(output.contains("Publishes:"));
    assert!(output.contains("build.done"));
}

#[test]
fn show_hat_prints_all_details() {
    let mut registry = HatRegistry::new();
    let mut hat = mock_hat("The Builder", &["a.b", "c.d"], &[]);
    hat.instructions = "First.\r\nSecond.\n".to_string();
    registry.register(hat);

    let mut output = String::new();
    show_hat(&mut output, &registry, "TheBuilder", true).unwrap();
    assert_eq!(
        output,
        "\x1b[1mThe Builder\x1b[0m\nDescription for The Builder\n\nID: TheBuilder\n\nTriggers On:\n  - a.b\n  - c.d\n\nPublishes:\n  (none)\n\nInstructions:\n  First.\n  Second.\n"
    );

    let mut bare = Hat::new("x", "X");
    bare.publishes = topics(&["e.f"]);
    registry.register(bare);
    let mut output = String::new();
    show_hat(&mut output, &registry, "X", false).unwrap();
    assert_eq!(
        output,
        "X\n\nID: x\n\nTriggers On:\n  (none)\n\nPublishes:\n  - e.f\n"
    );
}

#[test]
fn test_show_hat_not_found() {
    let registry = HatRegistry::new();
    let mut output = String::new();
    let result = show_hat(&mut output, &registry, "Nonexistent", false);

    assert!(result.is_err());
    assert!(result.unwrap_err().contains("not found"));
}

#[test]
fn an_id_wins_over_a_display_name() {
    let mut registry = HatRegistry::new();
    registry.register(Hat::new("a", "b"));
    registry.register(Hat::new("b", "B"));

    let show = |name: &str| {
        let mut output = String::new();
        show_hat(&mut output, &registry, name, false).unwrap();
        output
    };
    assert!(show("b").contains("ID: b\n"));
    assert!(show("a").contains("ID: a\n"));
    assert!(show("B").contains("ID: b\n"));
}

#[test]
fn show_hat_names_what_it_did_not_find() {
    let mut output = "before".to_string();
    let result = show_hat(&mut output, &HatRegistry::new(), "Zed", false);
    assert_eq!(result, Err("Hat 'Zed' not found".to_string()));
    assert_eq!(output, "before");
}

#[test]
fn test_validate_hats_empty_registry() {
    let registry = HatRegistry::new();
    let config = default_config();
    let mut output = String::new();

    validate_hats(&mut output, &config, &registry, false, None).unwrap();

    assert!(output.contains("No hats configured"));
}

#[test]
fn test_validate_hats_valid_topology() {
    let mut registry = HatRegistry::new();
    // Create a closed loop: A subscribes to start, publishes mid; B subscribes to mid
    registry.register(mock_hat("A", &["start"], &["mid"]));
    registry.register(mock_hat("B", &["mid"], &[]));

    let config = default_config();
    let mut output = String::new();

    validate_hats(&mut output, &config, &registry, false, None).unwrap();

    assert!(output.contains("No dead-end hats") || output.contains("Result: Valid"));
}

#[test]
fn validation_of_a_sound_topology_finds_nothing() {
    let mut registry = HatRegistry::new();
    registry.register(mock_hat("A", &["start"], &["mid"]));
    registry.register(mock_hat("B", &["mid"], &["LOOP_COMPLETE"]));

    let mut output = String::new();
    let config = config_starting_with("start");
    validate_hats(&mut output, &config, &registry, false, None).unwrap();
    assert_eq!(
        output,
        "Hat Topology Validation\n=======================\n\nHats: 2 configured\nEntry: task.start -> start\n\nChecks:\n  [ok] Starting event 'start' has subscriber (A)\n  [ok] No dead-end hats\n\nResult: Valid\n"
    );
}

#[test]
fn validation_fails_without_a_first_subscriber() {
    let mut registry = HatRegistry::new();
    registry.register(mock_hat("A", &["mid"], &["out"]));

    let mut output = String::new();
    let config = config_starting_with("start");
    let docs: Vec<AgentDoc> = Vec::new();
    let result = validate_hats(&mut output, &config, &registry, false, Some(&docs));
    assert_eq!(result, Err(ValidationFailed { errors: 1 }));
    assert_eq!(
        result.unwrap_err().message(),
        "Validation failed with 1 errors"
    );
    assert_eq!(
        output,
        "Hat Topology Validation\n=======================\n\nHats: 1 configured\nEntry: task.start -> start\n\nChecks:\n  [err] starting_event 'start' has no subscribers\n  [warn] Event 'out' published by 'A' has no hat subscribers\n  [ok] No dead-end hats\n  [warn] Hat 'A' has no instructions\n\nResult: Invalid (1 errors, 2 warnings)\n"
    );
}

#[test]
fn validation_without_hats_never_fails() {
    let mut output = String::new();
    let config = config_starting_with("start");
    assert!(validate_hats(&mut output, &config, &HatRegistry::new(), true, None).is_ok());
    assert_eq!(
        output,
        "Hat Topology Validation\n=======================\n\nNo hats configured (solo mode).\n"
    );
}

#[test]
fn wildcard_subscriptions_are_subscribers() {
    let mut registry = HatRegistry::new();
    registry.register(mock_hat("A", &["build.*"], &["build.done", "other.done"]));
    let mut output = String::new();
    validate_hats(&mut output, &default_config(), &registry, false, None).unwrap();
    assert!(!output.contains("'build.done'"));
    assert!(output.contains("Event 'other.done' published by 'A' has no hat subscribers"));
    assert!(output.contains("Entry: task.start (Ralph coordinates)"));
}

fn hat_with_instructions(name: &str, subs: &[&str], pubs: &[&str], instructions: &str) -> Hat {
    let mut hat = mock_hat(name, subs, pubs);
    hat.instructions = instructions.to_string();
    hat
}

/// Runs instruction checks without any instruction files, so only inline instructions are
/// scanned.
fn validate_with_instructions(registry: &HatRegistry) -> String {
    let config = default_config();
    let mut output = String::new();
    let docs: Vec<AgentDoc> = Vec::new();
    let _ = validate_hats(&mut output, &config, registry, false, Some(&docs));
    output
}

#[test]
fn test_is_topic_like() {
    assert!(is_topic_like("plan.done"));
    assert!(is_topic_like("wave.review.file"));
    assert!(is_topic_like("build.*"));
    assert!(!is_topic_like("plan"));
    assert!(!is_topic_like("Cargo.toml")); // uppercase: not a topic
    assert!(!is_topic_like("plan..done"));
}

#[test]
fn topics_have_no_empty_ends() {
    assert!(!is_topic_like(""));
    assert!(!is_topic_like("."));
    assert!(!is_topic_like(".plan"));
    assert!(!is_topic_like("plan."));
    assert!(is_topic_like("a_1.b-2"));
    assert!(!is_topic_like("a b.c"));
    assert!(!is_topic_like("ä.b"));
}

#[test]
fn tokens_lose_what_wraps_them() {
    assert_eq!(clean_token("`plan.done`."), "plan.done");
    assert_eq!(clean_token("(**build.***)"), "**build.***");
    assert_eq!(clean_token("--"), "");
    assert_eq!(clean_token("_x_"), "x");
    assert_eq!(clean_token("éa.bé"), "a.b");
}

#[test]
fn test_extract_instruction_topics() {
    let text = "Run `ralph tools emit plan.done` when finished.\n\
                    Do not touch `review.done`; it is owned by another hat.\n\
                    Memories live in .ralph/agent/memories.md and plan.other in prose.";
    let (emits, mentions) = extract_instruction_topics(text);
    assert_eq!(emits, vec!["plan.done"]);
    assert_eq!(mentions, vec!["review.done"]);
}

#[test]
fn topics_are_listed_once_and_in_order() {
    let text = "Emits: `b.x` then EMIT a.x, `c.x` `b.x` `c.x` emit b.x and emit nothing `d.x`";
    let (emits, mentions) = extract_instruction_topics(text);
    assert_eq!(emits, vec!["b.x", "a.x"]);
    assert_eq!(mentions, vec!["c.x", "b.x", "d.x"]);
    let (emits, mentions) = extract_instruction_topics("a.b c.d emitting e.f");
    assert!(emits.is_empty());
    assert!(mentions.is_empty());
}

#[test]
fn test_validate_instructions_consistent() {
    let mut registry = HatRegistry::new();
    registry.register(hat_with_instructions(
        "Planner",
        &["plan.start"],
        &["plan.done"],
        "Plan the work, then run `ralph tools emit plan.done`.",
    ));
    registry.register(hat_with_instructions(
        "Builder",
        &["plan.done"],
        &[],
        "Build what `plan.done` describes.",
    ));

    let output = validate_with_instructions(&registry);
    assert!(
        output.contains("Instructions consistent with topology"),
        "{output}"
    );
}

#[test]
fn test_validate_instructions_emit_not_in_publishes() {
    let mut registry = HatRegistry::new();
    registry.register(hat_with_instructions(
        "Planner",
        &["plan.start"],
        &["plan.done"],
        "When done: `ralph tools emit plan.complete`",
    ));

    let output = validate_with_instructions(&registry);
    assert!(
        output.contains("instructions emit 'plan.complete' which is not in its publishes"),
        "{output}"
    );
}

#[test]
fn test_validate_instructions_foreign_topic_mention() {
    let mut registry = HatRegistry::new();
    registry.register(hat_with_instructions(
        "Planner",
        &["plan.start"],
        &["plan.done"],
        "Emit `plan.done`. Also mentions `review.done` by mistake.",
    ));
    registry.register(hat_with_instructions(
        "Critic",
        &["plan.done"],
        &["review.done"],
        "Review, then `ralph tools emit review.done`.",
    ));

    let output = validate_with_instructions(&registry);
    assert!(
        output.contains("Planner' instructions reference 'review.done'"),
        "{output}"
    );
    assert!(!output.contains("Critic' instructions"), "{output}");
}

#[test]
fn test_validate_instructions_missing_instructions() {
    let mut registry = HatRegistry::new();
    registry.register(mock_hat("Planner", &["plan.start"], &["plan.done"]));

    let output = validate_with_instructions(&registry);
    assert!(
        output.contains("Hat 'Planner' has no instructions"),
        "{output}"
    );
}

#[test]
fn test_validate_instructions_reads_agent_markdown_file() {
    let mut registry = HatRegistry::new();
    registry.register(hat_with_instructions(
        "Planner",
        &["plan.start"],
        &["plan.done"],
        "See the agent doc.",
    ));

    let docs = vec![AgentDoc {
        hat_id: "Planner".to_string(),
        text: "Finish with `ralph tools emit plan.finished`.".to_string(),
    }];

    let config = default_config();
    let mut output = String::new();
    validate_hats(&mut output, &config, &registry, false, Some(&docs)).unwrap();

    assert!(
        output.contains("instructions emit 'plan.finished' which is not in its publishes"),
        "{output}"
    );
}

#[test]
fn test_validate_instructions_off_by_default() {
    let mut registry = HatRegistry::new();
    registry.register(mock_hat("Planner", &["plan.start"], &["plan.done"]));

    let config = default_config();
    let mut output = String::new();
    validate_hats(&mut output, &config, &registry, false, None).unwrap();

    assert!(!output.contains("no instructions"), "{output}");
}

#[test]
fn harmless_mentions_stay_quiet() {
    let mut registry = HatRegistry::new();
    // Global topics, unknown tokens, topics of the hat itself, and plain prose.
    registry.register(hat_with_instructions(
        "Planner",
        &["plan.*"],
        &["build.task"],
        "`task.start` `begin.now` `all.done` `no.topic` `plan.x` `build.task` review.done",
    ));
    registry.register(hat_with_instructions("Other", &["review.done"], &[], "ok"));
    let mut config = config_starting_with("begin.now");
    config.event_loop.completion_promise = "all.done".to_string();
    let docs: Vec<AgentDoc> = Vec::new();
    let mut output = String::new();
    let warnings = check_instructions(&mut output, &config, &registry, false, &docs);
    assert_eq!(warnings, 0);
    assert_eq!(output, "  [ok] Instructions consistent with topology\n");

    registry.register(mock_hat("Third", &[], &[]));
    let mut output = String::new();
    let warnings = check_instructions(&mut output, &config, &registry, false, &docs);
    assert_eq!(warnings, 1);
    assert_eq!(output, "  [warn] Hat 'Third' has no instructions\n");
}

#[test]
fn wildcards_are_not_known_topics() {
    let mut registry = HatRegistry::new();
    registry.register(hat_with_instructions("A", &["a.in"], &[], "See `b.*`."));
    registry.register(hat_with_instructions("B", &["b.*"], &[], "ok"));
    let output = validate_with_instructions(&registry);
    assert!(output.contains("Instructions consistent with topology"));
}

#[test]
fn test_print_check_ok() {
    let mut output = String::new();
    print_check(&mut output, CheckResult::Pass, "Test passed", false);
    assert!(output.contains("[ok]"));
    assert!(output.contains("Test passed"));
}

#[test]
fn test_print_check_warn() {
    let mut output = String::new();
    print_check(&mut output, CheckResult::Warn, "Warning message", false);
    assert!(output.contains("[warn]"));
    assert!(output.contains("Warning message"));
}

#[test]
fn test_print_check_error() {
    let mut output = String::new();
    print_check(&mut output, CheckResult::Error, "Error message", false);
    assert!(output.contains("[err]"));
    assert!(output.contains("Error message"));
}

#[test]
fn test_print_check_colored() {
    let mut output = String::new();
    print_check(&mut output, CheckResult::Pass, "Color test", true);
    // Should contain ANSI color codes
    assert!(output.contains("\x1b["));
}

#[test]
fn checks_are_printed_behind_what_is_there() {
    let mut output = "x".to_string();
    print_check(&mut output, CheckResult::Pass, "a", true);
    print_check(&mut output, CheckResult::Warn, "b", true);
    print_check(&mut output, CheckResult::Error, "c", true);
    print_check(&mut output, CheckResult::Error, "d", false);
    assert_eq!(
        output,
        "x  [\x1b[32mok\x1b[0m] a\n  [\x1b[33mwarn\x1b[0m] b\n  [\x1b[31merr\x1b[0m] c\n  [err] d\n"
    );
}

#[test]
fn test_list_hats_truncates_long_description() {
    let mut registry = HatRegistry::new();
    let mut hat = mock_hat("LongDesc", &["start"], &["end"]);
    hat.description = "A".repeat(100); // Very long description
    registry.register(hat);

    let mut output = String::new();
    list_hats(&mut output, &registry, false);

    // Description should be truncated with "..."
    assert!(output.contains("..."));
}

#[test]
fn test_build_diagram_prompt() {
    let mut registry = HatRegistry::new();
    registry.register(mock_hat("Builder", &["build.task"], &["build.done"]));
    registry.register(mock_hat("Tester", &["test.task"], &["test.done"]));

    let prompt = build_diagram_prompt(&registry);

    // Should contain the key elements
    assert!(prompt.contains("task.start → Ralph"));
    assert!(prompt.contains("Ralph → Builder"));
    assert!(prompt.contains("build.task"));
    assert!(prompt.contains("build.done"));
    assert!(prompt.contains("Ralph → Tester"));
    assert!(prompt.contains("Output ONLY the ASCII diagram"));
}

#[test]
fn prompt_lists_edges_by_name() {
    let mut registry = HatRegistry::new();
    registry.register(mock_hat("Z", &["z.in"], &["a.in"]));
    registry.register(mock_hat("A", &["a.in"], &["z.in"]));
    assert_eq!(
        build_diagram_prompt(&registry),
        "Generate an ASCII diagram showing this directed acyclic graph.\n\
         Use simple box-drawing characters that work in any terminal.\n\
         Show clear arrows between nodes.\n\n\
         Nodes and edges:\n\
         - task.start → Ralph\n\
         - Ralph → A (triggers on: a.in)\n\
         - Ralph → Z (triggers on: z.in)\n\
         - A → Ralph (publishes: z.in)\n\
         - Z → Ralph (publishes: a.in)\n\
         - A → Z (via event: z.in)\n\
         - Z → A (via event: a.in)\n\
         \nOutput ONLY the ASCII diagram, no explanation or markdown fences."
    );
}

#[test]
fn test_extract_diagram_plain() {
    let response = "┌─────┐\n│Ralph│\n└─────┘";
    let diagram = extract_diagram(response);
    assert!(diagram.contains("Ralph"));
    assert!(diagram.ends_with('\n'));
}

#[test]
fn test_extract_diagram_with_markdown_fences() {
    let response = "```\n┌─────┐\n│Ralph│\n└─────┘\n```";
    let diagram = extract_diagram(response);
    assert!(diagram.contains("Ralph"));
    assert!(!diagram.contains("```"));
}

#[test]
fn test_extract_diagram_with_intro() {
    let response = "Here is the diagram:\n\n┌─────┐\n│Ralph│\n└─────┘";
    let diagram = extract_diagram(response);
    assert!(diagram.contains("Ralph"));
    assert!(!diagram.to_lowercase().contains("here"));
}

#[test]
fn extract_diagram_removes_all_fences() {
    assert_eq!(
        extract_diagram("HERE it is:\n```text\n\nA --> B\n\nC\n```\n"),
        "A --> B\n\nC\n"
    );
    assert_eq!(extract_diagram("A\r\nHere B"), "A\nHere B\n");
    assert_eq!(extract_diagram(""), "\n");
    assert_eq!(extract_diagram("```\n```"), "\n");
    assert_eq!(extract_diagram("A\n\n"), "A\n");
}

#[test]
fn diagrams_come_from_lines_and_their_small_letters() {
    let line = |text: &str, lowered: &str| ResponseLine {
        text: text.to_string(),
        lowered: lowered.to_string(),
    };
    assert_eq!(
        diagram_from_lines(&vec![line("HERE", "here"), line("x", "x"), line("HERE", "here")]),
        "x\nHERE\n"
    );
    assert_eq!(diagram_from_lines(&Vec::new()), "\n");
}

#[test]
fn test_validate_backend_name_valid() {
    assert!(validate_backend_name(DEFAULT_BACKEND, &backends()).is_ok());
    assert!(validate_backend_name("kiro", &backends()).is_ok());
    assert!(validate_backend_name("gemini", &backends()).is_ok());
    assert!(validate_backend_name("codex", &backends()).is_ok());
    assert!(validate_backend_name("amp", &backends()).is_ok());
    assert!(validate_backend_name("custom", &backends()).is_ok());
}

#[test]
fn test_validate_backend_name_invalid() {
    let result = validate_backend_name("unknown-backend", &backends());
    assert!(result.is_err());
    let err = result.unwrap_err();
    assert!(err.contains("Unknown backend"));
    assert!(err.contains("Valid backends"));
}

#[test]
fn listed_backends_are_known() {
    for name in [
        "kiro", "gemini", "codex", "forge", "amp", "copilot", "opencode", "pi", "custom",
    ] {
        assert!(is_known_backend(name, &backends()), "{name}");
    }
    assert!(is_known_backend(DEFAULT_BACKEND, &backends()));
    assert!(!is_known_backend("auto", &backends()));
    assert!(!is_known_backend("Kiro", &backends()));
    assert!(!is_known_backend("", &backends()));
    assert!(!is_known_backend("kiro", &Vec::new()));
    assert_eq!(
        unknown_backend_message("x", &backends()),
        "Unknown backend 'x'. Valid backends: default, kiro, gemini, codex, forge, amp, copilot, opencode, pi, custom"
    );
}

#[test]
fn test_resolve_backend_flag_override() {
    let config = default_config();
    let result = resolve_backend(Some("kiro"), &config, &backends());
    assert!(result.is_ok());
    assert_eq!(result.unwrap(), BackendChoice::Named("kiro".to_string()));
}

#[test]
fn test_resolve_backend_from_config() {
    let mut config = default_config();
    config.cli.backend = "gemini".to_string();

    let result = resolve_backend(None, &config, &backends());
    assert!(result.is_ok());
    assert_eq!(result.unwrap(), BackendChoice::Named("gemini".to_string()));
}

#[test]
fn backends_are_detected_last() {
    let mut config = default_config();
    config.cli.backend = "auto".to_string();
    assert_eq!(resolve_backend(None, &config, &backends()), Ok(BackendChoice::AutoDetect));
    assert_eq!(
        resolve_backend(Some("pi"), &config, &backends()),
        Ok(BackendChoice::Named("pi".to_string()))
    );
    assert_eq!(
        resolve_backend(Some("zzz"), &config, &backends()),
        Err(unknown_backend_message("zzz", &backends()))
    );
    // The configuration is taken at its word.
    config.cli.backend = "zzz".to_string();
    assert_eq!(
        resolve_backend(None, &config, &backends()),
        Ok(BackendChoice::Named("zzz".to_string()))
    );
}

#[test]
fn diagrams_are_asked_for_with_the_prompt() {
    let mut registry = HatRegistry::new();
    let config = default_config();
    assert_eq!(
        render_hat_dag_via_ai(&config, &registry, Some("zzz"), &backends()),
        Ok(DiagramStep::Ready("No hats configured.\n".to_string()))
    );
    registry.register(mock_hat("A", &["a.in"], &[]));
    assert_eq!(
        render_hat_dag_via_ai(&config, &registry, None, &backends()),
        Ok(DiagramStep::Ask {
            backend: BackendChoice::Named("codex".to_string()),
            prompt: build_diagram_prompt(&registry),
        })
    );
    assert_eq!(
        render_hat_dag_via_ai(&config, &registry, Some("zzz"), &backends()),
        Err(unknown_backend_message("zzz", &backends()))
    );
}

#[test]
fn replies_are_judged() {
    let mut reply = BackendReply {
        success: false,
        exit_code: Some(-12),
        stdout: "A".to_string(),
        stderr: "boom".to_string(),
    };
    assert_eq!(
        finish_diagram("pi", &reply),
        Err("Backend 'pi' failed (exit code: Some(-12)):\nboom".to_string())
    );
    reply.exit_code = None;
    assert_eq!(
        finish_diagram("pi", &reply),
        Err("Backend 'pi' failed (exit code: None):\nboom".to_string())
    );
    reply.exit_code = Some(i32::MIN);
    assert_eq!(
        finish_diagram("pi", &reply),
        Err(format!(
            "Backend 'pi' failed (exit code: {:?}):\nboom",
            Some(i32::MIN)
        ))
    );
    reply.success = true;
    assert_eq!(finish_diagram("pi", &reply), Ok("A\n".to_string()));
    reply.stdout = " \n\t".to_string();
    assert_eq!(
        finish_diagram("pi", &reply),
        Err("Backend 'pi' returned empty output".to_string())
    );
}

#[test]
fn registering_again_replaces_the_hat() {
    let mut registry = HatRegistry::new();
    registry.register(Hat::new("a", "First"));
    registry.register(Hat::new("b", "Second"));
    registry.register(Hat::new("a", "Third"));
    assert_eq!(registry.len(), 2);
    assert!(!registry.is_empty());
    let names: Vec<&str> = registry.all().iter().map(|h| h.name.as_str()).collect();
    assert_eq!(names, vec!["Third", "Second"]);
}

#[test]
fn the_first_subscriber_answers() {
    let mut registry = HatRegistry::new();
    registry.register(mock_hat("A", &["x.*"], &[]));
    registry.register(mock_hat("B", &["x.y"], &[]));
    assert_eq!(registry.get_for_topic("x.y").unwrap().name, "A");
    assert!(registry.get_for_topic("y.x").is_none());
    assert!(registry.has_subscriber("x.z"));
    assert!(!registry.has_subscriber("x"));
}

#[test]
fn patterns_cover_topics_segment_by_segment() {
    assert!(Topic::new("*").matches_str("a.b.c"));
    assert!(Topic::new("a.*").matches_str("a.b"));
    assert!(!Topic::new("a.*").matches_str("a.b.c"));
    assert!(!Topic::new("a.*").matches_str("a"));
    assert!(Topic::new("*.b").matches_str("a.b"));
    assert!(Topic::new("a.b").matches_str("a.b"));
    assert!(!Topic::new("a.b").matches_str("a.c"));
    assert!(!Topic::new("a.b*").matches_str("a.bc"));
}

#[test]
fn commands_are_executed() {
    let mut registry = HatRegistry::new();
    registry.register(mock_hat("A", &["start"], &["mid"]));
    let loaded = Loaded {
        config: default_config(),
        registry,
        docs: Vec::new(),
    };
    let run = |command: Option<HatsCommands>| {
        let mut output = String::new();
        let args = HatsArgs { command };
        assert_eq!(presets_format(&args), None);
        let result = execute(
            &mut output,
            Some(&loaded),
            &Vec::new(),
            &backends(),
            &args,
            false,
        );
        (output, result)
    };

    let (listed, result) = run(None);
    assert!(listed.starts_with("HAT "));
    assert_eq!(result, Ok(HatsOutcome::Written));
    let (output, result) = run(Some(HatsCommands::List {
        format: ListFormat::Table,
    }));
    assert_eq!((output, result), (listed, Ok(HatsOutcome::Written)));

    let (output, result) = run(Some(HatsCommands::List {
        format: ListFormat::Json,
    }));
    assert_eq!((output.as_str(), result), ("", Ok(HatsOutcome::HatsAsJson)));

    let (output, result) = run(Some(HatsCommands::Show(ShowArgs {
        name: "A".to_string(),
    })));
    assert!(output.starts_with("A\n"));
    assert_eq!(result, Ok(HatsOutcome::Written));
    let (_, result) = run(Some(HatsCommands::Show(ShowArgs {
        name: "B".to_string(),
    })));
    assert_eq!(result, Err("Hat 'B' not found".to_string()));

    let (output, result) = run(Some(HatsCommands::Validate {
        instructions: false,
    }));
    assert!(!output.contains("no instructions"));
    assert_eq!(result, Ok(HatsOutcome::Written));
    let (output, _) = run(Some(HatsCommands::Validate { instructions: true }));
    assert!(output.contains("no instructions"));

    let (output, _) = run(Some(HatsCommands::Graph {
        format: GraphFormat::Compact,
        backend: None,
    }));
    assert!(output.starts_with("Graph:"));
    let (output, result) = run(Some(HatsCommands::Graph {
        format: GraphFormat::default(),
        backend: Some("amp".to_string()),
    }));
    assert_eq!(output, "");
    assert_eq!(
        result,
        Ok(HatsOutcome::Ask {
            backend: BackendChoice::Named("amp".to_string()),
            prompt: build_diagram_prompt(&loaded.registry),
        })
    );
}

#[test]
fn failed_validation_fails_the_command() {
    let mut registry = HatRegistry::new();
    registry.register(mock_hat("A", &["mid"], &["mid"]));
    let loaded = Loaded {
        config: config_starting_with("start"),
        registry,
        docs: Vec::new(),
    };
    let args = HatsArgs {
        command: Some(HatsCommands::Validate {
            instructions: false,
        }),
    };
    let mut output = String::new();
    let result = execute(
        &mut output,
        Some(&loaded),
        &Vec::new(),
        &backends(),
        &args,
        false,
    );
    assert_eq!(result, Err("Validation failed with 1 errors".to_string()));
    assert!(output.ends_with("Result: Invalid (1 errors, 0 warnings)\n"));
}

#[test]
fn presets_are_asked_for_by_format() {
    let args = HatsArgs {
        command: Some(HatsCommands::ListPresets {
            format: ListFormat::Json,
        }),
    };
    assert_eq!(presets_format(&args), Some(ListFormat::Json));
    assert_eq!(ListFormat::default(), ListFormat::Table);
    assert_eq!(GraphFormat::default(), GraphFormat::Unicode);
}

#[test]
fn presets_are_listed_without_a_configuration() {
    let presets = vec![DiscoveredPreset {
        name: "demo".to_string(),
        path: std::path::PathBuf::from("/tmp/demo"),
        source: "env",
        format: PresetFormat::Toml,
        description: None,
    }];
    let list = |format: ListFormat| HatsArgs {
        command: Some(HatsCommands::ListPresets { format }),
    };
    let loaded = Loaded {
        config: default_config(),
        registry: HatRegistry::new(),
        docs: Vec::new(),
    };
    for loaded in [None, Some(&loaded)] {
        let mut output = String::new();
        let args = list(ListFormat::Table);
        let result = execute(&mut output, loaded, &presets, &backends(), &args, false);
        assert_eq!(result, Ok(HatsOutcome::Written));
        assert!(output.contains("\ndemo "));

        let mut output = String::new();
        let args = list(ListFormat::Json);
        let result = execute(&mut output, loaded, &presets, &backends(), &args, false);
        assert_eq!(result, Ok(HatsOutcome::PresetsAsJson));
        assert_eq!(output, "");
    }
}

#[test]
fn other_commands_need_a_configuration() {
    for command in [
        None,
        Some(HatsCommands::List {
            format: ListFormat::Json,
        }),
        Some(HatsCommands::Validate { instructions: true }),
    ] {
        let mut output = String::new();
        let args = HatsArgs { command };
        let result = execute(&mut output, None, &Vec::new(), &backends(), &args, false);
        assert_eq!(result, Err("Failed to load config for hats".to_string()));
        assert_eq!(output, "");
    }
}

#[test]
fn drawings_do_not_depend_on_the_order_of_registration() {
    let names = ["C", "A", "B"];
    let mut one = HatRegistry::new();
    let mut other = HatRegistry::new();
    for name in names {
        one.register(mock_hat(name, &["x.y"], &["x.y"]));
    }
    for name in names.iter().rev() {
        other.register(mock_hat(name, &["x.y"], &["x.y"]));
    }
    assert_eq!(build_diagram_prompt(&one), build_diagram_prompt(&other));
    assert_eq!(generate_compact_graph(&one), generate_compact_graph(&other));
}

#[test]
fn introductions_may_go_on_beyond_ascii() {
    assert_eq!(extract_diagram("HERE → it is\nA → B\n"), "A → B\n");
    assert_eq!(extract_diagram("Hère → no\nA\n"), "Hère → no\nA\n");
}

#[test]
fn drawing_characters_have_no_small_letters() {
    for n in (0x2190..=0x21ffu32).chain(0x2500..=0x25ff) {
        let c = char::from_u32(n).unwrap();
        let line = format!("{}HERE", c);
        assert_eq!(line.to_lowercase(), format!("{}here", c), "{:x}", n);
        assert_eq!(extract_diagram(&line), format!("{}\n", line), "{:x}", n);
    }
}

#[test]
fn drawn_responses_are_kept() {
    let response = "┌───┐\nHere\n└─▶ É\n\n";
    assert_eq!(extract_diagram(response), "┌───┐\nHere\n└─▶ É\n");
    assert_eq!(extract_diagram("→ a"), "→ a\n");
}
