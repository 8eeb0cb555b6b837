//! The Ollama provider: requests, histories and replies.

use mentat::json::{parse_json, Json, JsonMap};
use mentat::json_scan::find_json_object_end;
use mentat::multimodal::{extract_ollama_image_payload, parse_image_markers};
use mentat::providers::history::{
    assistant_message_from_json, convert_chat_messages, convert_conversation_messages,
    extract_base64_images, parse_arguments, parsed_or_empty, tool_message_from_json,
    try_parse_assistant_tool_call_json, try_parse_tool_result_json,
};
use mentat::providers::messages::{
    ChatMessage, ConversationMessage, OllamaFunction, OllamaMessage, OllamaToolCall, TokenUsage,
    ToolCall, ToolResultMessage, ToolSpec,
};
use mentat::providers::ollama::{
    api_error_message, convert_tool_specs, inject_thinking_token, is_gemma_model,
    parse_chat_response, parse_tool_calls, reply_text, ApiChatResponse, OllamaProvider,
    ResponseMessage,
};
use mentat::providers::thinking::{
    extract_between_markers, extract_channel_thinking, extract_think_tags,
    extract_thinking_content, strip_reasoning,
};

fn json(source: &str) -> Json {
    parse_json(source).expect("valid JSON")
}

fn text_at<'a>(value: &'a Json, key: &str) -> &'a str {
    value.get(key).and_then(Json::as_str).expect("a text")
}

// ── build_options ────────────────────────────────────────────────────

#[test]
fn build_options_default_values() {
    let provider = OllamaProvider::new();
    let opts = provider.build_options(0.7f64.to_bits());
    assert!((f64::from_bits(opts.temperature_bits) - 0.7).abs() < f64::EPSILON);
    assert!((f64::from_bits(opts.top_p_bits) - 0.95).abs() < f64::EPSILON);
    assert_eq!(opts.top_k, 64);
    assert!(opts.num_predict.is_none());
}

#[test]
fn build_options_with_max_tokens() {
    let provider = OllamaProvider::new().with_max_tokens(Some(4096));
    let opts = provider.build_options(1.0f64.to_bits());
    assert_eq!(opts.num_predict, Some(4096));
}

#[test]
fn build_options_temperature_override() {
    let provider = OllamaProvider::new();
    let opts = provider.build_options(0.0f64.to_bits());
    assert!((f64::from_bits(opts.temperature_bits) - 0.0).abs() < f64::EPSILON);
    assert!((f64::from_bits(opts.top_p_bits) - 0.95).abs() < f64::EPSILON);
    assert_eq!(opts.top_k, 64);
}

#[test]
fn options_carry_exact_values() {
    let provider = OllamaProvider::new()
        .with_context_window(Some(u32::MAX))
        .with_max_tokens(Some(u32::MAX));
    let opts = provider.build_options(0.25f64.to_bits());
    assert_eq!(opts.temperature_bits, 0.25f64.to_bits());
    assert_eq!(opts.top_p_bits, 0.95f64.to_bits());
    assert_eq!(opts.num_ctx, Some(4_294_967_295));
    assert_eq!(opts.num_predict, Some(4_294_967_295));
}

// ── convert_chat_messages ────────────────────────────────────────────

#[test]
fn convert_chat_messages_basic_roles() {
    let messages = vec![
        ChatMessage::system("Be helpful"),
        ChatMessage::user("Hello"),
        ChatMessage::assistant("Hi there"),
    ];
    let converted = convert_chat_messages(&messages);
    assert_eq!(converted.len(), 3);
    assert_eq!(converted[0].role, "system");
    assert_eq!(converted[0].content, "Be helpful");
    assert_eq!(converted[1].role, "user");
    assert_eq!(converted[1].content, "Hello");
    assert_eq!(converted[2].role, "assistant");
    assert_eq!(converted[2].content, "Hi there");
}

#[test]
fn convert_chat_messages_user_with_images() {
    let msg = ChatMessage::user("Check this [IMAGE:data:image/png;base64,iVBORw0KGgo]");
    let converted = convert_chat_messages(&[msg]);
    assert_eq!(converted.len(), 1);
    assert!(converted[0].images.is_some());
    let images = converted[0].images.as_ref().unwrap();
    assert_eq!(images.len(), 1);
    assert_eq!(images[0], "iVBORw0KGgo");
    assert!(!converted[0].content.contains("[IMAGE:"));
}

#[test]
fn convert_chat_messages_no_images_field_when_empty() {
    let msg = ChatMessage::user("Just text");
    let converted = convert_chat_messages(&[msg]);
    assert!(converted[0].images.is_none());
}

#[test]
fn convert_chat_messages_multi_turn_round_trip() {
    let messages = vec![
        ChatMessage::system("sys"),
        ChatMessage::user("q1"),
        ChatMessage::assistant("a1"),
        ChatMessage::user("q2"),
        ChatMessage::assistant("a2"),
    ];
    let converted = convert_chat_messages(&messages);
    assert_eq!(converted.len(), 5);
    assert_eq!(converted[3].content, "q2");
    assert_eq!(converted[4].content, "a2");
}

#[test]
fn unknown_roles_pass_through() {
    let msg = ChatMessage {
        role: "developer".into(),
        content: "<think>a</think>[IMAGE:x]".into(),
    };
    let converted = convert_chat_messages(&[msg]);
    assert_eq!(converted[0].role, "developer");
    assert_eq!(converted[0].content, "<think>a</think>[IMAGE:x]");
    assert!(converted[0].images.is_none());
    assert!(converted[0].tool_calls.is_none());
}

// ── convert_conversation_messages ────────────────────────────────────

#[test]
fn convert_conversation_messages_chat_variants() {
    let msgs = vec![
        ConversationMessage::Chat(ChatMessage::system("sys")),
        ConversationMessage::Chat(ChatMessage::user("hi")),
        ConversationMessage::Chat(ChatMessage::assistant("hello")),
    ];
    let converted = convert_conversation_messages(&msgs);
    assert_eq!(converted.len(), 3);
    assert_eq!(converted[0].role, "system");
    assert_eq!(converted[1].role, "user");
    assert_eq!(converted[2].role, "assistant");
}

#[test]
fn convert_conversation_messages_assistant_tool_calls() {
    let msgs = vec![ConversationMessage::AssistantToolCalls {
        text: Some("Let me check".to_string()),
        tool_calls: vec![ToolCall {
            id: "tc-1".to_string(),
            name: "shell".to_string(),
            arguments: r#"{"command":"ls"}"#.to_string(),
        }],
        reasoning_content: Some("thinking...".to_string()),
        provider_attrs: None,
    }];
    let converted = convert_conversation_messages(&msgs);
    assert_eq!(converted.len(), 1);
    assert_eq!(converted[0].role, "assistant");
    assert_eq!(converted[0].content, "Let me check");
    assert!(converted[0].tool_calls.is_some());
    let tcs = converted[0].tool_calls.as_ref().unwrap();
    assert_eq!(tcs[0].function.name, "shell");
    assert_eq!(tcs[0].function.arguments, json(r#"{"command":"ls"}"#));
}

#[test]
fn convert_conversation_messages_tool_results() {
    let msgs = vec![ConversationMessage::ToolResults(vec![
        ToolResultMessage {
            tool_call_id: "tc-0".to_string(),
            content: "file1.txt".to_string(),
        },
        ToolResultMessage {
            tool_call_id: "tc-1".to_string(),
            content: "file2.txt".to_string(),
        },
    ])];
    let converted = convert_conversation_messages(&msgs);
    assert_eq!(converted.len(), 2);
    assert_eq!(converted[0].role, "tool");
    assert_eq!(converted[0].content, "file1.txt");
    assert_eq!(converted[1].role, "tool");
    assert_eq!(converted[1].content, "file2.txt");
}

#[test]
fn convert_conversation_messages_strips_reasoning_from_history() {
    let msgs = vec![ConversationMessage::Chat(ChatMessage::assistant(
        "<think>deep thought</think>The answer is 42",
    ))];
    let converted = convert_conversation_messages(&msgs);
    assert_eq!(converted[0].content, "The answer is 42");
    assert!(!converted[0].content.contains("<think>"));
}

#[test]
fn convert_conversation_messages_system_prompt_no_think_prefix() {
    let msgs = vec![ConversationMessage::Chat(ChatMessage::system(
        "You are helpful",
    ))];
    let converted = convert_conversation_messages(&msgs);
    assert_eq!(converted[0].content, "You are helpful");
    assert!(!converted[0].content.contains("<|think|>"));
}

#[test]
fn history_converts_part_by_part() {
    let first = || ConversationMessage::Chat(ChatMessage::user("q [IMAGE:data:x,AA]"));
    let second = || {
        ConversationMessage::ToolResults(vec![ToolResultMessage {
            tool_call_id: "t".into(),
            content: "r".into(),
        }])
    };
    let mut parts = convert_conversation_messages(&[first()]);
    parts.extend(convert_conversation_messages(&[second()]));
    let whole = convert_conversation_messages(&[first(), second()]);
    assert_eq!(whole.len(), parts.len());
    for (a, b) in whole.iter().zip(parts.iter()) {
        assert_eq!(a.role, b.role);
        assert_eq!(a.content, b.content);
        assert_eq!(a.images, b.images);
    }
    let chats = convert_chat_messages(&[ChatMessage::user("q [IMAGE:data:x,AA]")]);
    assert_eq!(chats[0].content, whole[0].content);
    assert_eq!(chats[0].images, Some(vec!["AA".to_string()]));
}

#[test]
fn text_behind_the_json_is_trimmed_and_kept() {
    let object = r#"{"tool_calls":[{"name":"a","arguments":"{}"}]}"#;
    let content = format!(" {object} \n tail }} text \t");
    let msg = try_parse_assistant_tool_call_json(&content).expect("a message");
    assert_eq!(msg.content, "tail } text");
    assert_eq!(msg.tool_calls.expect("calls").len(), 1);
}

#[test]
fn tool_calls_without_text_or_calls_are_plain() {
    let msgs = vec![ConversationMessage::AssistantToolCalls {
        text: None,
        tool_calls: vec![],
        reasoning_content: None,
        provider_attrs: None,
    }];
    let converted = convert_conversation_messages(&msgs);
    assert_eq!(converted.len(), 1);
    assert_eq!(converted[0].content, "");
    assert!(converted[0].tool_calls.is_none());
}

#[test]
fn arguments_that_are_no_json_become_an_empty_object() {
    assert_eq!(parse_arguments("not json"), Json::Object(JsonMap::new()));
    assert_eq!(parse_arguments("[1]"), json("[1]"));
    assert_eq!(parsed_or_empty(None), json("{}"));
    assert_eq!(parsed_or_empty(Some(Json::Bool(true))), Json::Bool(true));
}

// ── JSON history reconstruction ──────────────────────────────────────

#[test]
fn assistant_tool_call_json_is_reconstructed() {
    let source = r#"{"content":null,"tool_calls":[{"id":"ollama-tc-0","name":"use_skill","arguments":"{\"name\":\"hardcover\"}"}]}"#;
    let msgs = vec![ConversationMessage::Chat(ChatMessage::assistant(source))];
    let converted = convert_conversation_messages(&msgs);
    assert_eq!(converted.len(), 1);
    assert_eq!(converted[0].role, "assistant");
    assert!(converted[0].content.is_empty());
    let tcs = converted[0]
        .tool_calls
        .as_ref()
        .expect("should have tool_calls");
    assert_eq!(tcs.len(), 1);
    assert_eq!(tcs[0].function.name, "use_skill");
    assert_eq!(text_at(&tcs[0].function.arguments, "name"), "hardcover");
}

#[test]
fn assistant_tool_call_json_with_trailing_text() {
    let content = "{\"content\":null,\"tool_calls\":[{\"id\":\"ollama-tc-0\",\"name\":\"model_switch\",\"arguments\":\"{\\\"action\\\":\\\"get\\\"}\"}]}\n\nI am Skippy.";
    let msgs = vec![ConversationMessage::Chat(ChatMessage::assistant(content))];
    let converted = convert_conversation_messages(&msgs);
    assert_eq!(converted.len(), 1);
    let tcs = converted[0]
        .tool_calls
        .as_ref()
        .expect("should have tool_calls");
    assert_eq!(tcs[0].function.name, "model_switch");
    assert_eq!(converted[0].content, "I am Skippy.");
}

#[test]
fn plain_assistant_text_not_parsed_as_tool_call() {
    let msgs = vec![ConversationMessage::Chat(ChatMessage::assistant(
        "Hello, I can help you.",
    ))];
    let converted = convert_conversation_messages(&msgs);
    assert_eq!(converted[0].content, "Hello, I can help you.");
    assert!(converted[0].tool_calls.is_none());
}

#[test]
fn tool_result_json_is_reconstructed() {
    let source = r#"{"tool_call_id":"ollama-tc-0","content":"[Skill 'hardcover' activated]\n\nInstructions here..."}"#;
    let msgs = vec![ConversationMessage::Chat(ChatMessage::tool(source))];
    let converted = convert_conversation_messages(&msgs);
    assert_eq!(converted.len(), 1);
    assert_eq!(converted[0].role, "tool");
    assert!(converted[0]
        .content
        .starts_with("[Skill 'hardcover' activated]"));
    assert!(!converted[0].content.contains("tool_call_id"));
}

#[test]
fn plain_tool_result_passed_through() {
    let msgs = vec![ConversationMessage::Chat(ChatMessage::tool(
        "plain text result",
    ))];
    let converted = convert_conversation_messages(&msgs);
    assert_eq!(converted[0].role, "tool");
    assert_eq!(converted[0].content, "plain text result");
}

#[test]
fn json_content_and_trailing_text_are_joined() {
    let value = json(
        r#"{"content":"first","tool_calls":[{"name":"a","arguments":"{}"},{"name":"b"},{"name":"c","arguments":"oops"}]}"#,
    );
    let msg = assistant_message_from_json(&value, "second").expect("a message");
    assert_eq!(msg.content, "first\nsecond");
    let calls = msg.tool_calls.expect("calls");
    assert_eq!(calls.len(), 2);
    assert_eq!(calls[0].function.name, "a");
    assert_eq!(calls[1].function.name, "c");
    assert_eq!(calls[1].function.arguments, json("{}"));

    let alone = assistant_message_from_json(&value, "").expect("a message");
    assert_eq!(alone.content, "first");
}

#[test]
fn json_without_usable_calls_is_no_tool_call_message() {
    assert!(assistant_message_from_json(&json(r#"{"tool_calls":[]}"#), "").is_none());
    assert!(assistant_message_from_json(&json(r#"{"tool_calls":[{"name":"a"}]}"#), "").is_none());
    assert!(assistant_message_from_json(&json(r#"{"tool_calls":{}}"#), "").is_none());
    assert!(assistant_message_from_json(&json("{}"), "").is_none());
    assert!(assistant_message_from_json(&json("[1]"), "").is_none());
    assert!(try_parse_assistant_tool_call_json("{broken} rest").is_none());
    assert!(try_parse_assistant_tool_call_json("no json").is_none());
}

#[test]
fn reasoning_is_taken_out_of_tool_call_text() {
    let content = r#"  {"content":"<think>hm</think>on it","tool_calls":[{"name":"a","arguments":"{}"}]}  "#;
    let msg = try_parse_assistant_tool_call_json(content).expect("a message");
    assert_eq!(msg.content, "on it");
    assert!(msg.images.is_none());
}

#[test]
fn tool_result_needs_a_text_as_content() {
    assert!(tool_message_from_json(&json(r#"{"content":1}"#)).is_none());
    assert!(tool_message_from_json(&json("{}")).is_none());
    assert!(try_parse_tool_result_json("oops").is_none());
    let msg = try_parse_tool_result_json(" {\"content\":\"ok\"}\n").expect("a message");
    assert_eq!(msg.role, "tool");
    assert_eq!(msg.content, "ok");
}

#[test]
fn find_json_object_end_basic() {
    assert_eq!(find_json_object_end(r#"{"a":1}"#), Some(7));
    assert_eq!(find_json_object_end(r#"{"a":1} trailing"#), Some(7));
    assert_eq!(find_json_object_end("not json"), None);
}

#[test]
fn find_json_object_end_nested() {
    let s = r#"{"a":{"b":"c"},"d":[1,2]} rest"#;
    assert_eq!(find_json_object_end(s), Some(25));
}

#[test]
fn find_json_object_end_escaped_braces_in_strings() {
    let s = r#"{"key":"val with \" and { } chars"} tail"#;
    assert_eq!(find_json_object_end(s), Some(35));
}

#[test]
fn object_end_counts_bytes_and_ignores_what_follows() {
    assert_eq!(find_json_object_end("{\"ä\":\"🦀\"}"), Some(13));
    assert_eq!(find_json_object_end("{\"ä\":\"🦀\"}}}{"), Some(13));
    assert_eq!(find_json_object_end("{\"a\":{}"), None);
    assert_eq!(find_json_object_end(""), None);
}

// ── convert_tool_specs ───────────────────────────────────────────────

#[test]
fn convert_tool_specs_output_shape() {
    let tools = vec![ToolSpec {
        name: "shell".to_string(),
        description: "Run a command".to_string(),
        parameters: json(
            r#"{
                "type": "object",
                "properties": {
                    "command": {"type": "string"}
                },
                "required": ["command"]
            }"#,
        ),
    }];
    let converted = convert_tool_specs(&tools);
    assert_eq!(converted.len(), 1);
    assert_eq!(text_at(&converted[0], "type"), "function");
    let function = converted[0].get("function").expect("a function");
    assert_eq!(text_at(function, "name"), "shell");
    assert_eq!(text_at(function, "description"), "Run a command");
    let command = function
        .get("parameters")
        .and_then(|p| p.get("properties"))
        .and_then(|p| p.get("command"))
        .expect("a command");
    assert!(matches!(command, Json::Object(_)));
}

#[test]
fn tool_spec_renders_in_key_order() {
    let tools = vec![ToolSpec {
        name: "n".into(),
        description: "d".into(),
        parameters: json("{}"),
    }];
    assert_eq!(
        convert_tool_specs(&tools)[0].render(),
        r#"{"function":{"description":"d","name":"n","parameters":{}},"type":"function"}"#
    );
}

// ── parse_tool_calls ─────────────────────────────────────────────────

fn call(name: &str, arguments: &str) -> OllamaToolCall {
    OllamaToolCall {
        function: OllamaFunction {
            name: name.to_string(),
            arguments: json(arguments),
        },
    }
}

#[test]
fn parse_tool_calls_single() {
    let tcs = vec![call("shell", r#"{"command": "ls -la"}"#)];
    let parsed = parse_tool_calls(&tcs);
    assert_eq!(parsed.len(), 1);
    assert_eq!(parsed[0].id, "ollama-tc-0");
    assert_eq!(parsed[0].name, "shell");
    assert!(parsed[0].arguments.contains("ls -la"));
}

#[test]
fn parse_tool_calls_parallel() {
    let tcs = vec![
        call("shell", r#"{"command": "ls"}"#),
        call("file_read", r#"{"path": "test.txt"}"#),
        call("shell", r#"{"command": "pwd"}"#),
    ];
    let parsed = parse_tool_calls(&tcs);
    assert_eq!(parsed.len(), 3);
    assert_eq!(parsed[0].id, "ollama-tc-0");
    assert_eq!(parsed[1].id, "ollama-tc-1");
    assert_eq!(parsed[2].id, "ollama-tc-2");
    assert_eq!(parsed[1].name, "file_read");
}

#[test]
fn parse_tool_calls_empty() {
    let parsed = parse_tool_calls(&[]);
    assert!(parsed.is_empty());
}

#[test]
fn tool_call_ids_are_decimal_positions() {
    let tcs: Vec<OllamaToolCall> = (0..12).map(|_| call("t", r#"{"b":1,"a":"x"}"#)).collect();
    let parsed = parse_tool_calls(&tcs);
    assert_eq!(parsed[9].id, "ollama-tc-9");
    assert_eq!(parsed[10].id, "ollama-tc-10");
    assert_eq!(parsed[11].id, "ollama-tc-11");
    assert_eq!(parsed[11].arguments, r#"{"a":"x","b":1}"#);
}

// ── extract_thinking_content ─────────────────────────────────────────

#[test]
fn extract_thinking_dedicated_field() {
    let (text, reasoning) =
        extract_thinking_content("The answer is 42", Some("I need to think about this"));
    assert_eq!(text, "The answer is 42");
    assert_eq!(reasoning.as_deref(), Some("I need to think about this"));
}

#[test]
fn extract_thinking_dedicated_field_wins_over_tags() {
    let (text, reasoning) = extract_thinking_content(
        "<think>inline thinking</think>answer",
        Some("dedicated thinking"),
    );
    assert_eq!(text, "<think>inline thinking</think>answer");
    assert_eq!(reasoning.as_deref(), Some("dedicated thinking"));
}

#[test]
fn extract_thinking_think_tags() {
    let (text, reasoning) =
        extract_thinking_content("<think>Let me reason</think>The answer is 42", None);
    assert_eq!(text, "The answer is 42");
    assert_eq!(reasoning.as_deref(), Some("Let me reason"));
}

#[test]
fn extract_thinking_channel_format() {
    let content = "<|channel>thought\nI'm thinking about this\n<channel|>The answer is 42";
    let (text, reasoning) = extract_thinking_content(content, None);
    assert_eq!(text, "The answer is 42");
    assert_eq!(reasoning.as_deref(), Some("I'm thinking about this\n"));
}

#[test]
fn extract_thinking_channel_wins_over_think_tags() {
    let content = "<|channel>thought\ngemma thinking\n<channel|><think>generic</think>answer";
    let (text, reasoning) = extract_thinking_content(content, None);
    assert_eq!(reasoning.as_deref(), Some("gemma thinking\n"));
    assert!(text.contains("answer"));
}

#[test]
fn extract_thinking_none_present() {
    let (text, reasoning) = extract_thinking_content("Just a normal answer", None);
    assert_eq!(text, "Just a normal answer");
    assert!(reasoning.is_none());
}

#[test]
fn extract_thinking_empty_dedicated_field_falls_through() {
    let (text, reasoning) =
        extract_thinking_content("<think>fallback thinking</think>answer", Some(""));
    assert_eq!(text, "answer");
    assert_eq!(reasoning.as_deref(), Some("fallback thinking"));
}

#[test]
fn extract_thinking_empty_think_tags() {
    let (text, reasoning) = extract_thinking_content("<think></think>Just answer", None);
    assert_eq!(text, "<think></think>Just answer");
    assert!(reasoning.is_none());
}

#[test]
fn thinking_is_cut_out_of_the_middle() {
    let (text, reasoning) = extract_thinking_content("  a <think>b</think> c  ", None);
    assert_eq!(text, "a  c");
    assert_eq!(reasoning.as_deref(), Some("b"));
    assert!(extract_between_markers("x </t> y <t>", "<t>", "</t>").is_none());
    let found = extract_between_markers("1<t>2</t>3</t>", "<t>", "</t>").expect("found");
    assert_eq!(found.0, "13</t>");
    assert_eq!(found.1.as_deref(), Some("2"));
    assert!(extract_channel_thinking("<think>a</think>").is_none());
    assert!(extract_think_tags("<think>a").is_none());
}

#[test]
fn all_reasoning_is_stripped() {
    assert_eq!(strip_reasoning("<think>a</think>x<think>b</think>y"), "xy");
    assert_eq!(
        strip_reasoning("<|channel>thought\na<channel|>x <think>b</think>\n<|channel>thought\nc<channel|>y"),
        "x \ny"
    );
    assert_eq!(strip_reasoning("<think></think>x<think>b</think>y"), "<think></think>xy");
    assert_eq!(strip_reasoning("<th<think>a</think>ink>b</think>c"), "c");
}

#[test]
fn stripping_keeps_the_order_of_extraction() {
    let empty = "<|channel>thought\n<channel|>";

    let enclosed = format!("{empty}<think><|channel>thought\nA<channel|></think>z");
    assert_eq!(strip_reasoning(&enclosed), format!("{empty}z"));
    assert_eq!(extract_thinking_content(&enclosed, None).0, format!("{empty}z"));

    let crossed = format!("{empty}<think>x <|channel>thought\ny</think>answer<channel|>");
    assert_eq!(strip_reasoning(&crossed), format!("{empty}answer<channel|>"));

    let hidden = format!("{empty}a<|channel>thought\nb<channel|>c<think>d</think>e");
    assert_eq!(strip_reasoning(&hidden), format!("{empty}ace"));

    let value = json(r#"{"tool_calls":[{"name":"t","arguments":"{}"}]}"#);
    let msg = assistant_message_from_json(&value, &enclosed).expect("a message");
    assert_eq!(msg.content, format!("{empty}z"));
}

#[test]
fn text_without_reasoning_is_not_touched() {
    assert_eq!(strip_reasoning("  plain  "), "  plain  ");
    assert_eq!(strip_reasoning("<think></think>Just answer"), "<think></think>Just answer");
    assert_eq!(strip_reasoning("a</think><think>b"), "a</think><think>b");
    assert_eq!(strip_reasoning(""), "");
}

#[test]
fn history_holds_no_reasoning() {
    let source = "<think>a</think>x<think>b</think>y";
    let chat = convert_chat_messages(&[ChatMessage::assistant(source)]);
    assert_eq!(chat[0].content, "xy");

    let calls = convert_conversation_messages(&[ConversationMessage::AssistantToolCalls {
        text: Some(source.into()),
        tool_calls: vec![],
        reasoning_content: None,
        provider_attrs: None,
    }]);
    assert_eq!(calls[0].content, "xy");

    let value = json(r#"{"content":"<think>a</think>x","tool_calls":[{"name":"t","arguments":"{}"}]}"#);
    let msg = assistant_message_from_json(&value, "<think>b</think>y").expect("a message");
    assert_eq!(msg.content, "x\ny");
}

// ── Images ───────────────────────────────────────────────────────────

#[test]
fn user_message_images_present() {
    let msgs = vec![ConversationMessage::Chat(ChatMessage::user(
        "Describe this [IMAGE:data:image/png;base64,AAAA]",
    ))];
    let converted = convert_conversation_messages(&msgs);
    assert_eq!(converted.len(), 1);
    assert!(converted[0].images.is_some());
    assert_eq!(converted[0].images.as_ref().unwrap()[0], "AAAA");
}

#[test]
fn image_markers_are_split_off() {
    let (text, refs) = parse_image_markers("see [IMAGE:a.png] and [IMAGE:b.png]");
    assert!(!text.contains("[IMAGE:"));
    assert_eq!(refs, vec!["a.png".to_string(), "b.png".to_string()]);
    let (plain, none) = parse_image_markers("no images");
    assert_eq!(plain, "no images");
    assert!(none.is_empty());
}

#[test]
fn image_payload_is_what_follows_the_comma() {
    assert_eq!(
        extract_ollama_image_payload("data:image/png;base64,AAAA").as_deref(),
        Some("AAAA")
    );
    assert!(extract_base64_images(&[]).is_none());
}

// ── Tool call round trip ─────────────────────────────────────────────

#[test]
fn tool_call_round_trip_in_conversation() {
    let msgs = vec![
        ConversationMessage::Chat(ChatMessage::user("List files")),
        ConversationMessage::AssistantToolCalls {
            text: None,
            tool_calls: vec![ToolCall {
                id: "ollama-tc-0".to_string(),
                name: "shell".to_string(),
                arguments: r#"{"command":"ls"}"#.to_string(),
            }],
            reasoning_content: None,
            provider_attrs: None,
        },
        ConversationMessage::ToolResults(vec![ToolResultMessage {
            tool_call_id: "ollama-tc-0".to_string(),
            content: "file1.txt\nfile2.txt".to_string(),
        }]),
    ];
    let converted = convert_conversation_messages(&msgs);
    assert_eq!(converted.len(), 3);
    assert_eq!(converted[0].role, "user");
    assert_eq!(converted[1].role, "assistant");
    assert!(converted[1].tool_calls.is_some());
    assert_eq!(converted[2].role, "tool");
    assert_eq!(converted[2].content, "file1.txt\nfile2.txt");
}

// ── Provider ─────────────────────────────────────────────────────────

#[test]
fn provider_capabilities_disable_native_tools() {
    let provider = OllamaProvider::new();
    let caps = provider.capabilities();
    assert!(
        !caps.native_tool_calling,
        "Ollama should default to prompt-guided tool calling"
    );
    assert!(caps.vision);
    assert!(!caps.prompt_caching);
}

#[test]
fn provider_supports_streaming() {
    let provider = OllamaProvider::new();
    assert!(provider.supports_streaming());
    assert!(
        !provider.supports_streaming_tool_events(),
        "Ollama should not stream tool events (prompt-guided mode)"
    );
}

#[test]
fn provider_builder_methods() {
    let provider = OllamaProvider::new()
        .with_base_url("http://192.168.1.50:11434")
        .with_timeout_secs(Some(300))
        .with_max_tokens(Some(8192))
        .with_reasoning(Some(true));

    assert_eq!(provider.base_url, "http://192.168.1.50:11434");
    assert_eq!(provider.timeout_secs, Some(300));
    assert_eq!(provider.max_tokens, Some(8192));
    assert_eq!(provider.reasoning_enabled, Some(true));
}

#[test]
fn provider_default_base_url() {
    let provider = OllamaProvider::new();
    assert_eq!(provider.base_url, "http://localhost:11434");
}

#[test]
fn provider_base_url_strips_trailing_slash() {
    let provider = OllamaProvider::new().with_base_url("http://localhost:11434/");
    assert_eq!(provider.base_url, "http://localhost:11434");
}

#[test]
fn urls_and_timeouts_follow_the_settings() {
    let provider = OllamaProvider::new().with_base_url("http://h:1///");
    assert_eq!(provider.chat_url(), "http://h:1/api/chat");
    assert_eq!(provider.version_url(), "http://h:1/api/version");
    assert_eq!(provider.http_timeouts(), (120, 10));
    assert_eq!(provider.with_timeout_secs(Some(7)).http_timeouts(), (7, 10));
    assert_eq!(OllamaProvider::new().with_base_url("///").base_url, "");
}

#[test]
fn warmup_errors_name_the_server() {
    let provider = OllamaProvider::new().with_base_url("http://h:1");
    assert_eq!(
        provider.warmup_status_error("503 Service Unavailable"),
        "Ollama server at http://h:1 returned 503 Service Unavailable. Is Ollama running?"
    );
    assert_eq!(
        provider.warmup_unreachable_error("refused"),
        "Cannot reach Ollama at http://h:1. Is Ollama running? Error: refused"
    );
}

#[test]
fn api_errors_prefer_the_servers_words() {
    assert_eq!(
        api_error_message("404 Not Found", Some("no model"), "body"),
        "Ollama API error (404 Not Found): no model"
    );
    assert_eq!(
        api_error_message("500", Some(""), "body"),
        "Ollama API error (500): body"
    );
    assert_eq!(
        api_error_message("500", None, "body"),
        "Ollama API error (500): body"
    );
}

// ── Model families and the thinking token ────────────────────────────

#[test]
fn is_gemma_model_positive() {
    assert!(is_gemma_model("gemma4"));
    assert!(is_gemma_model("gemma3"));
    assert!(is_gemma_model("gemma4:27b"));
    assert!(is_gemma_model("Gemma4"));
    assert!(is_gemma_model("GEMMA3:latest"));
}

#[test]
fn is_gemma_model_negative() {
    assert!(!is_gemma_model("deepseek-r1"));
    assert!(!is_gemma_model("llama3.3"));
    assert!(!is_gemma_model("qwen3:32b"));
    assert!(!is_gemma_model("my-gemma-finetune"));
}

#[test]
fn inject_thinking_token_prepends_to_system() {
    let mut messages = vec![
        OllamaMessage {
            role: "system".to_string(),
            content: "You are helpful".to_string(),
            images: None,
            tool_calls: None,
        },
        OllamaMessage {
            role: "user".to_string(),
            content: "Hi".to_string(),
            images: None,
            tool_calls: None,
        },
    ];
    inject_thinking_token(&mut messages);
    assert!(messages[0].content.starts_with("<|think|>\n"));
    assert!(messages[0].content.contains("You are helpful"));
    assert_eq!(messages[1].content, "Hi");
}

#[test]
fn inject_thinking_token_noop_without_system() {
    let mut messages = vec![OllamaMessage {
        role: "user".to_string(),
        content: "Hi".to_string(),
        images: None,
        tool_calls: None,
    }];
    inject_thinking_token(&mut messages);
    assert_eq!(messages[0].content, "Hi");
}

#[test]
fn thinking_token_goes_to_the_first_system_message_alone() {
    let mut messages = vec![
        OllamaMessage::plain("user", "u"),
        OllamaMessage::plain("system", "one"),
        OllamaMessage::plain("system", "two"),
    ];
    inject_thinking_token(&mut messages);
    assert_eq!(messages[0].content, "u");
    assert_eq!(messages[1].content, "<|think|>\none");
    assert_eq!(messages[2].content, "two");
}

#[test]
fn prepare_messages_gemma_with_reasoning_injects_token() {
    let provider = OllamaProvider::new().with_reasoning(Some(true));
    let messages = vec![
        ChatMessage::system("You are helpful"),
        ChatMessage::user("Hello"),
    ];
    let (ollama_msgs, think) = provider.prepare_messages(&messages, "gemma4");
    assert!(
        ollama_msgs[0].content.starts_with("<|think|>\n"),
        "system prompt should start with <|think|> for gemma: {}",
        &ollama_msgs[0].content
    );
    assert_eq!(think, Some(true));
}

#[test]
fn prepare_messages_gemma_without_reasoning_no_token() {
    let provider = OllamaProvider::new();
    let messages = vec![
        ChatMessage::system("You are helpful"),
        ChatMessage::user("Hello"),
    ];
    let (ollama_msgs, think) = provider.prepare_messages(&messages, "gemma4");
    assert!(
        !ollama_msgs[0].content.contains("<|think|>"),
        "should not inject token when reasoning is disabled"
    );
    assert_eq!(think, None);
}

#[test]
fn prepare_messages_non_gemma_with_reasoning_no_token() {
    let provider = OllamaProvider::new().with_reasoning(Some(true));
    let messages = vec![
        ChatMessage::system("You are helpful"),
        ChatMessage::user("Hello"),
    ];
    let (ollama_msgs, think) = provider.prepare_messages(&messages, "deepseek-r1");
    assert!(
        !ollama_msgs[0].content.contains("<|think|>"),
        "should not inject token for non-gemma models"
    );
    assert_eq!(think, Some(true));
}

// ── Requests ─────────────────────────────────────────────────────────

#[test]
fn requests_carry_what_they_are_made_of() {
    let provider = OllamaProvider::new()
        .with_reasoning(Some(true))
        .with_context_window(Some(8));
    let bits = 0.5f64.to_bits();

    let plain = provider.system_request(Some("sys"), "hi", "gemma3", bits);
    assert_eq!(plain.model, "gemma3");
    assert!(!plain.stream);
    assert!(plain.tools.is_none());
    assert_eq!(plain.think, Some(true));
    assert_eq!(plain.messages.len(), 2);
    assert_eq!(plain.messages[0].content, "<|think|>\nsys");
    assert_eq!(plain.messages[1].content, "hi");
    assert_eq!(plain.options.num_ctx, Some(8));
    assert_eq!(plain.options.temperature_bits, bits);

    let alone = provider.system_request(None, "hi", "llama", bits);
    assert_eq!(alone.messages.len(), 1);
    assert_eq!(alone.messages[0].role, "user");

    let chats = vec![ChatMessage::user("hi")];
    let history = provider.history_request(&chats, "llama", bits);
    assert!(!history.stream);
    assert!(history.tools.is_none());
}

#[test]
fn tools_are_left_out_where_there_are_none() {
    let provider = OllamaProvider::new();
    let chats = vec![ChatMessage::user("hi")];
    let none = provider.tools_request(&chats, vec![], "m", 0);
    assert!(none.tools.is_none());
    assert!(none.think.is_none());
    let one = provider.tools_request(&chats, vec![json(r#"{"a":1}"#)], "m", 0);
    assert_eq!(one.tools, Some(vec![json(r#"{"a":1}"#)]));

    let streamed = provider.stream_request(&chats, None, "m", 0);
    assert!(streamed.stream);
    assert!(streamed.tools.is_none());
    let announced = provider.stream_request(&chats, Some(&[]), "m", 0);
    assert_eq!(announced.tools, Some(vec![]));
}

// ── Replies ──────────────────────────────────────────────────────────

fn reply(content: &str, thinking: Option<&str>, calls: Option<Vec<OllamaToolCall>>) -> ApiChatResponse {
    ApiChatResponse {
        message: Some(ResponseMessage {
            content: content.into(),
            tool_calls: calls,
            thinking: thinking.map(str::to_string),
        }),
        done: true,
        prompt_eval_count: None,
        eval_count: None,
    }
}

#[test]
fn reply_is_read_with_its_reasoning() {
    let read = parse_chat_response(reply("<think>a</think>b", None, None));
    assert_eq!(read.text.as_deref(), Some("b"));
    assert_eq!(read.reasoning_content.as_deref(), Some("a"));
    assert!(read.tool_calls.is_empty());
    assert!(read.usage.is_none());
    assert!(read.provider_attrs.is_none());

    let field = parse_chat_response(reply("<think>a</think>b", Some("f"), None));
    assert_eq!(field.text.as_deref(), Some("<think>a</think>b"));
    assert_eq!(field.reasoning_content.as_deref(), Some("f"));
}

#[test]
fn empty_text_is_left_out_beside_tool_calls() {
    let calls = vec![call("shell", r#"{"command":"ls"}"#)];
    let read = parse_chat_response(reply("", None, Some(calls)));
    assert!(read.text.is_none());
    assert_eq!(read.tool_calls.len(), 1);
    assert_eq!(read.tool_calls[0].id, "ollama-tc-0");
    assert_eq!(read.tool_calls[0].arguments, r#"{"command":"ls"}"#);

    let empty = parse_chat_response(reply("", None, Some(vec![])));
    assert_eq!(empty.text.as_deref(), Some(""));
}

#[test]
fn reply_without_message_is_empty() {
    let bare = ApiChatResponse {
        message: None,
        done: true,
        prompt_eval_count: Some(42),
        eval_count: None,
    };
    let read = parse_chat_response(bare);
    assert_eq!(read.text.as_deref(), Some(""));
    assert_eq!(
        read.usage,
        Some(TokenUsage {
            input_tokens: Some(42),
            output_tokens: None,
            cached_input_tokens: None,
        })
    );
    let none = ApiChatResponse {
        message: None,
        done: false,
        prompt_eval_count: None,
        eval_count: None,
    };
    assert_eq!(reply_text(none), "");
}

#[test]
fn plain_reply_text_keeps_the_markers() {
    assert_eq!(reply_text(reply("<think>a</think>b", None, None)), "<think>a</think>b");
}
