//! Reading a streamed reply.

use mentat::json::{parse_json, Json};
use mentat::providers::messages::{OllamaFunction, OllamaToolCall};
use mentat::providers::ollama::{ApiChatResponse, ResponseMessage};
use mentat::providers::stream::{trimmed_line, ReplyStream, StreamChunk, StreamEvent};

fn call(name: &str, arguments: &str) -> OllamaToolCall {
    OllamaToolCall {
        function: OllamaFunction {
            name: name.to_string(),
            arguments: parse_json(arguments).expect("valid JSON"),
        },
    }
}

fn chunk(content: &str, thinking: Option<&str>, calls: Vec<OllamaToolCall>, done: bool) -> ApiChatResponse {
    ApiChatResponse {
        message: Some(ResponseMessage {
            content: content.into(),
            tool_calls: if calls.is_empty() { None } else { Some(calls) },
            thinking: thinking.map(str::to_string),
        }),
        done,
        prompt_eval_count: None,
        eval_count: None,
    }
}

fn told(events: &[StreamEvent]) -> Vec<String> {
    events
        .iter()
        .map(|e| match e {
            StreamEvent::TextDelta(StreamChunk {
                delta,
                reasoning: None,
            }) => format!("text {delta}"),
            StreamEvent::TextDelta(StreamChunk {
                delta,
                reasoning: Some(r),
            }) => format!("reasoning {r}{delta}"),
            StreamEvent::ToolCall(c) => format!("call {} {} {}", c.id, c.name, c.arguments),
            StreamEvent::Final => "final".to_string(),
        })
        .collect()
}

fn lines(stream: &mut ReplyStream) -> Vec<String> {
    let mut out = Vec::new();
    while let Some(line) = stream.next_line() {
        out.push(String::from_utf8(line).expect("UTF-8"));
    }
    out
}

#[test]
fn lines_are_framed_across_pieces() {
    let mut stream = ReplyStream::new();
    stream.feed(b"{\"a\":");
    assert!(lines(&mut stream).is_empty());
    stream.feed(b"1}\n\n \t \r\n{\"b\":2}\r\n{\"c\"");
    assert_eq!(lines(&mut stream), vec!["{\"a\":1}", "{\"b\":2}"]);
    assert_eq!(stream.buffer, b"{\"c\"");
    stream.feed(b":3}\n");
    assert_eq!(lines(&mut stream), vec!["{\"c\":3}"]);
    assert!(stream.buffer.is_empty());
}

#[test]
fn cuts_do_not_change_the_lines() {
    let whole = b"one\n  two \n\nthree\nfour";
    let mut at_once = ReplyStream::new();
    at_once.feed(whole);
    let expected = lines(&mut at_once);
    assert_eq!(expected, vec!["one", "two", "three"]);
    for cut in 0..whole.len() {
        let mut stream = ReplyStream::new();
        stream.feed(&whole[..cut]);
        let mut got = lines(&mut stream);
        stream.feed(&whole[cut..]);
        got.extend(lines(&mut stream));
        assert_eq!(got, expected);
        assert_eq!(stream.buffer, b"four");
    }
}

#[test]
fn lines_are_trimmed_of_ascii_space() {
    assert_eq!(trimmed_line(&b" \t\x0cab c\r ".to_vec()), b"ab c");
    assert_eq!(trimmed_line(&b" \r\n ".to_vec()), b"");
    assert_eq!(trimmed_line(&b"\x0bx".to_vec()), b"\x0bx");
}

#[test]
fn chunks_become_deltas_and_calls_come_last() {
    let mut stream = ReplyStream::new();
    let first = stream.on_chunk(chunk("Hel", Some("hm"), vec![call("a", "{}")], false));
    assert_eq!(told(&first), vec!["reasoning hm", "text Hel"]);
    let second = stream.on_chunk(chunk("", Some(""), vec![], false));
    assert!(second.is_empty());
    let last = stream.on_chunk(chunk("lo", None, vec![call("b", r#"{"z":1,"y":2}"#)], true));
    assert_eq!(
        told(&last),
        vec![
            "text lo",
            "call ollama-tc-0 a {}",
            "call ollama-tc-1 b {\"y\":2,\"z\":1}",
            "final",
        ]
    );
    assert!(stream.finished);
}

#[test]
fn nothing_is_told_after_the_end() {
    let mut stream = ReplyStream::new();
    let _ = stream.on_chunk(chunk("", None, vec![], true));
    stream.feed(b"more\n");
    assert!(stream.next_line().is_none());
    assert!(stream.on_chunk(chunk("late", None, vec![call("a", "{}")], true)).is_empty());
    assert!(stream.on_end().is_empty());
    assert!(stream.tool_calls.is_empty());
}

#[test]
fn stream_without_last_chunk_still_ends() {
    let mut stream = ReplyStream::new();
    let _ = stream.on_chunk(chunk("", None, vec![call("a", "[]")], false));
    assert_eq!(told(&stream.on_end()), vec!["call ollama-tc-0 a []", "final"]);
    assert!(stream.on_end().is_empty());

    let mut silent = ReplyStream::new();
    assert_eq!(told(&silent.on_end()), vec!["final"]);
}

#[test]
fn failed_stream_tells_no_end() {
    let mut stream = ReplyStream::new();
    stream.feed(b"x\n");
    stream.fail();
    assert!(stream.next_line().is_none());
    assert!(stream.on_end().is_empty());
}

#[test]
fn chunk_without_message_tells_nothing() {
    let mut stream = ReplyStream::new();
    let bare = ApiChatResponse {
        message: None,
        done: false,
        prompt_eval_count: None,
        eval_count: None,
    };
    assert!(stream.on_chunk(bare).is_empty());
    assert!(!stream.finished);
}

#[test]
fn pieces_are_text_or_reasoning() {
    let delta = StreamChunk::delta("a");
    assert_eq!(delta.delta, "a");
    assert!(delta.reasoning.is_none());
    let reasoning = StreamChunk::reasoning("b");
    assert_eq!(reasoning.delta, "");
    assert_eq!(reasoning.reasoning.as_deref(), Some("b"));
}

#[test]
fn tool_call_copies_say_the_same() {
    let original = call("a", r#"{"n":-1.5,"s":"x"}"#);
    let copy = original.clone();
    assert_eq!(copy.function.name, "a");
    assert_eq!(copy.function.arguments, original.function.arguments);
    assert!(matches!(copy.function.arguments, Json::Object(_)));
}
