use ralph_hats::json::{parse_document, Json, JsonNumber};
use ralph_hats::opencode::{
    command_is_ralph_emit, read_tokens, OpencodeCacheTokens, OpencodeStreamEvent,
    OpencodeStreamParser, OpencodeTokens,
};

#[test]
fn test_parse_step_start() {
    let json =
        r#"{"type":"step_start","timestamp":1,"sessionID":"s","part":{"type":"step-start"}}"#;
    let event = OpencodeStreamParser::parse_line(json).unwrap();
    assert_eq!(event, OpencodeStreamEvent::StepStart);
}

#[test]
fn test_parse_text() {
    let json =
        r#"{"type":"text","timestamp":1,"sessionID":"s","part":{"type":"text","text":"done"}}"#;
    let event = OpencodeStreamParser::parse_line(json).unwrap();
    assert_eq!(
        event,
        OpencodeStreamEvent::Text {
            text: "done".to_string()
        }
    );
}

#[test]
fn test_parse_tool_use_success() {
    let json = r#"{"type":"tool_use","part":{"type":"tool","tool":"bash",
            "state":{"status":"completed","input":{"command":"ralph emit build.done \"ok\""},
            "output":"Event emitted: build.done\n",
            "metadata":{"output":"Event emitted: build.done\n","exit":0}}}}"#;
    let event = OpencodeStreamParser::parse_line(json).unwrap();
    match event {
        OpencodeStreamEvent::ToolUse {
            tool,
            command,
            exit_code,
            output,
        } => {
            assert_eq!(tool, "bash");
            assert_eq!(command.as_deref(), Some("ralph emit build.done \"ok\""));
            assert_eq!(exit_code, Some(0));
            assert_eq!(output.as_deref(), Some("Event emitted: build.done\n"));
        }
        _ => panic!("Expected ToolUse event"),
    }
}

#[test]
fn test_parse_tool_use_failure_exit_code() {
    let json = r#"{"type":"tool_use","part":{"type":"tool","tool":"bash",
            "state":{"status":"completed","input":{"command":"this-command-does-not-exist"},
            "output":"zsh: command not found\n",
            "metadata":{"output":"zsh: command not found\n","exit":127}}}}"#;
    let event = OpencodeStreamParser::parse_line(json).unwrap();
    match event {
        OpencodeStreamEvent::ToolUse { exit_code, .. } => {
            assert_eq!(exit_code, Some(127));
        }
        _ => panic!("Expected ToolUse event"),
    }
}

#[test]
fn test_parse_step_finish_stop_with_tokens() {
    let json = r#"{"type":"step_finish","part":{"type":"step-finish","reason":"stop",
            "tokens":{"total":5887,"input":5866,"output":7,"reasoning":14,
                      "cache":{"write":1,"read":2}},"cost":0.01}}"#;
    let event = OpencodeStreamParser::parse_line(json).unwrap();
    match event {
        OpencodeStreamEvent::StepFinish {
            reason,
            tokens,
            cost_bits,
        } => {
            assert_eq!(reason, "stop");
            assert_eq!(tokens.total, 5887);
            assert_eq!(tokens.input, 5866);
            assert_eq!(tokens.output, 7);
            assert_eq!(tokens.reasoning, 14);
            assert_eq!(tokens.cache.write, 1);
            assert_eq!(tokens.cache.read, 2);
            let cost = f64::from_bits(cost_bits);
            assert!((cost - 0.01).abs() < f64::EPSILON);
        }
        _ => panic!("Expected StepFinish event"),
    }
}

#[test]
fn test_parse_step_finish_tool_calls() {
    let json = r#"{"type":"step_finish","part":{"type":"step-finish","reason":"tool-calls",
            "tokens":{"total":1,"input":1,"output":0,"reasoning":0,"cache":{"write":0,"read":0}},
            "cost":0}}"#;
    let event = OpencodeStreamParser::parse_line(json).unwrap();
    match event {
        OpencodeStreamEvent::StepFinish { reason, .. } => assert_eq!(reason, "tool-calls"),
        _ => panic!("Expected StepFinish event"),
    }
}

#[test]
fn test_parse_empty_line() {
    assert!(OpencodeStreamParser::parse_line("").is_none());
    assert!(OpencodeStreamParser::parse_line("   ").is_none());
}

#[test]
fn test_parse_malformed_json() {
    assert!(OpencodeStreamParser::parse_line("{not valid json}").is_none());
    assert!(OpencodeStreamParser::parse_line("plain text").is_none());
}

#[test]
fn test_parse_unknown_type_is_skipped() {
    let json = r#"{"type":"something_new","part":{"type":"whatever"}}"#;
    assert!(OpencodeStreamParser::parse_line(json).is_none());
}

#[test]
fn test_command_is_ralph_emit() {
    assert!(command_is_ralph_emit(
        "ralph emit build.done \"tests: pass\""
    ));
    assert!(!command_is_ralph_emit("echo hello"));
    assert!(!command_is_ralph_emit("go test ./..."));
}

#[test]
fn emit_call_is_found_anywhere() {
    assert!(command_is_ralph_emit("cd x && ralph emit a.b"));
    assert!(command_is_ralph_emit("ralph emit"));
    assert!(!command_is_ralph_emit("ralph  emit"));
    assert!(!command_is_ralph_emit("ralph emi"));
    assert!(!command_is_ralph_emit(""));
}

#[test]
fn white_space_around_a_line_makes_no_difference() {
    let line = r#"{"type":"text","part":{"text":"x"}}"#;
    let padded = format!(" \t{}\r\n", line);
    assert_eq!(
        OpencodeStreamParser::parse_line(&padded),
        OpencodeStreamParser::parse_line(line)
    );
    assert!(OpencodeStreamParser::parse_line(&padded).is_some());
}

fn tool_use(line: &str) -> (String, Option<String>, Option<i32>, Option<String>) {
    match OpencodeStreamParser::parse_line(line) {
        Some(OpencodeStreamEvent::ToolUse {
            tool,
            command,
            exit_code,
            output,
        }) => (tool, command, exit_code, output),
        other => panic!("Expected ToolUse event, got {:?}", other),
    }
}

#[test]
fn other_tools_carry_no_command() {
    let line = r#"{"type":"tool_use","part":{"tool":"edit",
        "state":{"input":{"command":"ralph emit a.b"},"output":"o","metadata":{"exit":3}}}}"#;
    assert_eq!(
        tool_use(line),
        (
            "edit".to_string(),
            None,
            Some(3),
            Some("o".to_string())
        )
    );
}

#[test]
fn tool_use_needs_a_tool_and_nothing_else() {
    assert!(OpencodeStreamParser::parse_line(r#"{"type":"tool_use","part":{}}"#).is_none());
    assert_eq!(
        tool_use(r#"{"type":"tool_use","part":{"tool":7}}"#),
        ("unknown".to_string(), None, None, None)
    );
    assert_eq!(
        tool_use(r#"{"type":"tool_use","part":{"tool":"bash","state":{"input":{"command":1}}}}"#),
        ("bash".to_string(), None, None, None)
    );
}

#[test]
fn exit_codes_keep_their_low_bits() {
    let line = r#"{"type":"tool_use","part":{"tool":"bash","state":{"metadata":{"exit":4294967297}}}}"#;
    assert_eq!(tool_use(line).2, Some(1));
    let line = r#"{"type":"tool_use","part":{"tool":"bash","state":{"metadata":{"exit":-1}}}}"#;
    assert_eq!(tool_use(line).2, Some(-1));
    let line = r#"{"type":"tool_use","part":{"tool":"bash","state":{"metadata":{"exit":1.5}}}}"#;
    assert_eq!(tool_use(line).2, None);
    let line = r#"{"type":"tool_use","part":{"tool":"bash","state":{"metadata":{"exit":18446744073709551615}}}}"#;
    assert_eq!(tool_use(line).2, None);
}

#[test]
fn text_needs_a_text() {
    assert!(OpencodeStreamParser::parse_line(r#"{"type":"text","part":{}}"#).is_none());
    assert!(OpencodeStreamParser::parse_line(r#"{"type":"text","part":{"text":1}}"#).is_none());
    assert!(OpencodeStreamParser::parse_line(r#"{"type":"text"}"#).is_none());
    assert!(OpencodeStreamParser::parse_line(r#"{"part":{}}"#).is_none());
    assert!(OpencodeStreamParser::parse_line(r#"{"type":1,"part":{}}"#).is_none());
    assert!(OpencodeStreamParser::parse_line("[]").is_none());
}

#[test]
fn step_start_takes_any_part() {
    assert_eq!(
        OpencodeStreamParser::parse_line(r#"{"type":"step_start","part":null}"#),
        Some(OpencodeStreamEvent::StepStart)
    );
}

fn step_finish(line: &str) -> (String, OpencodeTokens, u64) {
    match OpencodeStreamParser::parse_line(line) {
        Some(OpencodeStreamEvent::StepFinish {
            reason,
            tokens,
            cost_bits,
        }) => (reason, tokens, cost_bits),
        other => panic!("Expected StepFinish event, got {:?}", other),
    }
}

#[test]
fn step_finish_falls_back_to_defaults() {
    let (reason, tokens, cost_bits) = step_finish(r#"{"type":"step_finish","part":{}}"#);
    assert_eq!(reason, "unknown");
    assert_eq!(tokens, OpencodeTokens::default());
    assert_eq!(cost_bits, 0);
}

#[test]
fn missing_token_counts_are_zero() {
    let line = r#"{"type":"step_finish","part":{"tokens":{"total":9,"cache":{"read":4},"more":1}}}"#;
    let (_, tokens, _) = step_finish(line);
    assert_eq!(
        tokens,
        OpencodeTokens {
            total: 9,
            input: 0,
            output: 0,
            reasoning: 0,
            cache: OpencodeCacheTokens { write: 0, read: 4 },
        }
    );
}

#[test]
fn a_bad_token_count_discards_all_of_them() {
    for bad in [
        r#"{"total":9,"input":-1}"#,
        r#"{"total":9,"input":1.5}"#,
        r#"{"total":9,"input":"1"}"#,
        r#"{"total":9,"cache":null}"#,
        r#"{"total":9,"cache":{"read":-1}}"#,
        "9",
        "null",
        "[1,2,3,4,[5,6],7]",
    ] {
        let line = format!(r#"{{"type":"step_finish","part":{{"tokens":{}}}}}"#, bad);
        assert_eq!(step_finish(&line).1, OpencodeTokens::default(), "{}", bad);
    }
}

#[test]
fn token_counts_may_come_as_an_array() {
    let line = r#"{"type":"step_finish","part":{"tokens":[1,2,3,4,[5,6]]}}"#;
    assert_eq!(
        step_finish(line).1,
        OpencodeTokens {
            total: 1,
            input: 2,
            output: 3,
            reasoning: 4,
            cache: OpencodeCacheTokens { write: 5, read: 6 },
        }
    );
    let line = r#"{"type":"step_finish","part":{"tokens":[1]}}"#;
    assert_eq!(step_finish(line).1.total, 1);
}

#[test]
fn costs_are_doubles() {
    let line = r#"{"type":"step_finish","part":{"cost":3}}"#;
    assert_eq!(step_finish(line).2, 3.0f64.to_bits());
    let line = r#"{"type":"step_finish","part":{"cost":"3"}}"#;
    assert_eq!(step_finish(line).2, 0);
    let line = r#"{"type":"step_finish","part":{"cost":-0.25}}"#;
    assert_eq!(step_finish(line).2, (-0.25f64).to_bits());
}

#[test]
fn documents_are_read_into_plain_values() {
    let doc = parse_document(r#" {"b":[null,true,"x"],"a":{"n":-3}} "#).unwrap();
    match doc.get("b") {
        Some(Json::Array(items)) => {
            assert!(matches!(items[0], Json::Null));
            assert!(matches!(items[1], Json::Bool(true)));
            assert!(matches!(&items[2], Json::String(s) if s == "x"));
            assert_eq!(items.len(), 3);
        }
        other => panic!("Expected an array, got {:?}", other),
    }
    match doc.get("a").and_then(|a| a.get("n")) {
        Some(Json::Number(n)) => assert_eq!(
            *n,
            JsonNumber {
                signed: Some(-3),
                unsigned: None,
                double_bits: Some((-3.0f64).to_bits()),
            }
        ),
        other => panic!("Expected a number, got {:?}", other),
    }
    assert!(doc.get("c").is_none());
    assert!(parse_document("{").is_none());
    assert!(parse_document("").is_none());
}

#[test]
fn the_last_of_two_members_with_one_name_counts() {
    let doc = parse_document(r#"{"a":1,"a":2}"#).unwrap();
    assert!(matches!(doc.get("a"), Some(Json::Number(n)) if n.unsigned == Some(2)));
}

#[test]
fn token_records_are_read_from_plain_values() {
    let count = Json::Number(JsonNumber {
        signed: Some(5),
        unsigned: Some(5),
        double_bits: Some(5.0f64.to_bits()),
    });
    let record = Json::Object(vec![("output".to_string(), count)]);
    assert_eq!(read_tokens(&record).unwrap().output, 5);
    assert_eq!(read_tokens(&Json::Object(vec![])), Some(OpencodeTokens::default()));
    assert_eq!(read_tokens(&Json::Null), None);
}
