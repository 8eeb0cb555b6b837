//! Turning the agent's history into Ollama messages.
//!
//! The agent keeps tool calls and tool results as JSON inside message text.
//! Here they become structured messages again, so that the model sees its own
//! protocol and not raw JSON, and earlier reasoning is left out.

use crate::json::{self, Json, JsonMap, JsonView};
use crate::json_scan;
use crate::multimodal;
use crate::providers::messages::{
    self, ChatMessage, ConversationMessage, MessageView, OllamaFunction, OllamaMessage,
    OllamaToolCall, ToolCall, ToolCallView, ToolResultMessage,
};
use crate::providers::thinking;
use crate::text;
use vstd::prelude::*;
use vstd::string::*;

verus! {

// ── Images ──────────────────────────────────────────────────────────

/// The payloads of the references that have one, in order.
pub open spec fn payloads(refs: Seq<Seq<char>>) -> Seq<Seq<char>>
    decreases refs.len(),
{
    if refs.len() == 0 {
        Seq::empty()
    } else {
        let before = payloads(refs.drop_last());
        match multimodal::image_payload(refs.last()) {
            Some(p) => before.push(p),
            None => before,
        }
    }
}

/// The payloads of the references, nothing where there is none.
pub open spec fn image_list(refs: Seq<Seq<char>>) -> Option<Seq<Seq<char>>> {
    if payloads(refs).len() == 0 {
        None
    } else {
        Some(payloads(refs))
    }
}

/// The base64 payloads of image references.
pub fn extract_base64_images(image_refs: &[String]) -> (r: Option<Vec<String>>)
    ensures
        match r {
            Some(images) => image_list(text::texts(image_refs@)) == Some(text::texts(images@)),
            None => image_list(text::texts(image_refs@)) is None,
        },
        (forall|i: int|
            0 <= i < image_refs@.len() ==> multimodal::image_payload(
                (#[trigger] image_refs@[i])@,
            ) is Some) && image_refs@.len() > 0 ==> {
            &&& r is Some
            &&& r->0@.len() == image_refs@.len()
            &&& forall|i: int|
                0 <= i < image_refs@.len() ==> multimodal::image_payload(image_refs@[i]@) == Some(
                    (#[trigger] r->0@[i])@,
                )
        },
{
    let mut images: Vec<String> = Vec::new();
    let ghost refs = text::texts(image_refs@);
    let mut i: usize = 0;
    assert(refs.take(0) =~= Seq::<Seq<char>>::empty());
    assert(text::texts(images@) =~= Seq::<Seq<char>>::empty());
    while i < image_refs.len()
        invariant
            refs == text::texts(image_refs@),
            i <= image_refs@.len(),
            text::texts(images@) == payloads(refs.take(i as int)),
        decreases image_refs@.len() - i,
    {
        assert(refs.take(i + 1).drop_last() =~= refs.take(i as int));
        assert(refs.take(i + 1).last() == image_refs@[i as int]@);
        if let Some(payload) = multimodal::extract_ollama_image_payload(image_refs[i].as_str()) {
            let ghost before = images@;
            images.push(payload);
            assert(text::texts(images@) =~= text::texts(before).push(payload@));
        }
        i += 1;
    }
    assert(refs.take(i as int) =~= refs);
    proof {
        if forall|i: int|
            0 <= i < image_refs@.len() ==> multimodal::image_payload(
                (#[trigger] image_refs@[i])@,
            ) is Some {
            assert forall|i: int| 0 <= i < refs.len() implies multimodal::image_payload(
                #[trigger] refs[i],
            ) is Some by {
                assert(refs[i] == image_refs@[i]@);
            }
            all_payloads(refs);
            assert forall|i: int| 0 <= i < images@.len() implies multimodal::image_payload(
                image_refs@[i]@,
            ) == Some((#[trigger] images@[i])@) by {
                assert(text::texts(images@)[i] == payloads(refs)[i]);
                assert(refs[i] == image_refs@[i]@);
            }
        }
    }
    if images.is_empty() {
        None
    } else {
        Some(images)
    }
}

// ── Tool calls in JSON ──────────────────────────────────────────────

/// The arguments that a text denotes; an empty object where it is no JSON.
pub open spec fn arguments_of(source: Seq<char>) -> JsonView {
    or_empty_object(json::json_parsed(source))
}

/// A parsed value, or else an empty object.
pub open spec fn or_empty_object(parsed: Option<JsonView>) -> JsonView {
    match parsed {
        Some(v) => v,
        None => JsonView::Object(Seq::empty()),
    }
}

/// A parsed value, or else an empty object.
pub fn parsed_or_empty(parsed: Option<Json>) -> (r: Json)
    ensures
        r@ == or_empty_object(
            match parsed {
                Some(v) => Some(v@),
                None => None,
            },
        ),
{
    match parsed {
        Some(v) => v,
        None => Json::Object(JsonMap::new()),
    }
}

/// The arguments that a text denotes; an empty object where it is no JSON.
pub fn parse_arguments(source: &str) -> (r: Json)
    ensures
        r@ == arguments_of(source@),
{
    parsed_or_empty(json::parse_json(source))
}

/// A tool call in the agent's JSON: an object with a `name` and with
/// `arguments` as JSON text.
pub open spec fn call_of(v: JsonView) -> Option<ToolCallView> {
    match (v.member("name"@), v.member("arguments"@)) {
        (Some(JsonView::Text(name)), Some(JsonView::Text(arguments))) => Some(
            ToolCallView { name, arguments: arguments_of(arguments) },
        ),
        _ => None,
    }
}

/// The tool calls among the items of a JSON array, in order.
pub open spec fn calls_of(items: Seq<JsonView>) -> Seq<ToolCallView>
    decreases items.len(),
{
    if items.len() == 0 {
        Seq::empty()
    } else {
        let before = calls_of(items.drop_last());
        match call_of(items.last()) {
            Some(c) => before.push(c),
            None => before,
        }
    }
}

/// The text of an assistant message: the `content` of its JSON and the text
/// behind the JSON, with a line feed between them where both are there.
pub open spec fn joined_content(json_content: Seq<char>, trailing: Seq<char>) -> Seq<char> {
    if trailing.len() == 0 {
        json_content
    } else if json_content.len() == 0 {
        trailing
    } else {
        json_content + "\n"@ + trailing
    }
}

/// The `content` of a JSON object where it is a string, else empty.
pub open spec fn content_of(v: JsonView) -> Seq<char> {
    match v.member("content"@) {
        Some(JsonView::Text(s)) => s,
        _ => Seq::empty(),
    }
}

/// The assistant message that a JSON value with tool calls stands for.
pub open spec fn assistant_of(v: JsonView, trailing: Seq<char>) -> Option<MessageView> {
    match v.member("tool_calls"@) {
        Some(JsonView::Array(items)) => {
            if calls_of(items).len() == 0 {
                None
            } else {
                Some(
                    MessageView {
                        role: "assistant"@,
                        content: thinking::without_reasoning(
                            joined_content(content_of(v), trailing),
                        ),
                        images: None,
                        tool_calls: Some(calls_of(items)),
                    },
                )
            }
        },
        _ => None,
    }
}

/// The assistant message that a text with JSON tool calls stands for: the
/// whole text is JSON, or an object at its start is.
pub open spec fn assistant_history(content: Seq<char>) -> Option<MessageView> {
    let trimmed = text::trim_spec(content);
    match json::json_parsed(trimmed) {
        Some(v) => assistant_of(v, Seq::empty()),
        None => match json_scan::object_end(trimmed) {
            None => None,
            Some(k) => match json::json_parsed(trimmed.take(k)) {
                None => None,
                Some(v) => assistant_of(v, text::trim_spec(trimmed.skip(k))),
            },
        },
    }
}

/// What a tool answered, from the agent's JSON.
pub open spec fn result_of(v: JsonView) -> Option<Seq<char>> {
    match v.member("content"@) {
        Some(JsonView::Text(s)) => Some(s),
        _ => None,
    }
}

/// What a tool answered, from a text.
pub open spec fn tool_result(content: Seq<char>) -> Option<Seq<char>> {
    match json::json_parsed(text::trim_spec(content)) {
        Some(v) => result_of(v),
        None => None,
    }
}

/// Whether an optional message says what an optional view says.
pub open spec fn says_opt(r: Option<OllamaMessage>, v: Option<MessageView>) -> bool {
    match (r, v) {
        (Some(m), Some(view)) => m.says() == view,
        (None, None) => true,
        _ => false,
    }
}

/// A tool call in the agent's JSON.
pub fn tool_call_from_json(value: &Json) -> (r: Option<OllamaToolCall>)
    ensures
        match r {
            Some(c) => call_of(value@) == Some(c.says()),
            None => call_of(value@) is None,
        },
{
    let name = match value.get("name") {
        Some(v) => match v.as_str() {
            Some(s) => s,
            None => {
                return None;
            },
        },
        None => {
            return None;
        },
    };
    let arguments = match value.get("arguments") {
        Some(v) => match v.as_str() {
            Some(s) => s,
            None => {
                return None;
            },
        },
        None => {
            return None;
        },
    };
    Some(
        OllamaToolCall {
            function: OllamaFunction {
                name: name.to_string(),
                arguments: parse_arguments(arguments),
            },
        },
    )
}

/// The assistant message that a parsed value and the text behind it stand for.
pub fn assistant_message_from_json(value: &Json, trailing: &str) -> (r: Option<OllamaMessage>)
    ensures
        says_opt(r, assistant_of(value@, trailing@)),
{
    let items = match value.get("tool_calls") {
        Some(v) => match v.as_array() {
            Some(items) => items,
            None => {
                return None;
            },
        },
        None => {
            return None;
        },
    };
    let ghost all = json::json_views(items@);
    let mut calls: Vec<OllamaToolCall> = Vec::new();
    let mut i: usize = 0;
    assert(all.take(0) =~= Seq::<JsonView>::empty());
    assert(messages::call_views(calls@) =~= Seq::<ToolCallView>::empty());
    while i < items.len()
        invariant
            all == json::json_views(items@),
            i <= items@.len(),
            messages::call_views(calls@) == calls_of(all.take(i as int)),
        decreases items@.len() - i,
    {
        assert(all.take(i + 1).drop_last() =~= all.take(i as int));
        assert(all.take(i + 1).last() == items@[i as int]@);
        if let Some(call) = tool_call_from_json(&items[i]) {
            let ghost before = calls@;
            calls.push(call);
            assert(messages::call_views(calls@) =~= messages::call_views(before).push(call.says()));
        }
        i += 1;
    }
    assert(all.take(i as int) =~= all);
    if calls.is_empty() {
        return None;
    }
    let mut text_content = String::new();
    if let Some(v) = value.get("content") {
        if let Some(s) = v.as_str() {
            text_content = s.to_string();
        }
    }
    assert(text_content@ =~= content_of(value@));
    if !trailing.is_empty() {
        if text_content.as_str().is_empty() {
            text_content = trailing.to_string();
        } else {
            text_content.append("\n");
            text_content.append(trailing);
        }
    }
    assert(text_content@ =~= joined_content(content_of(value@), trailing@));
    let cleaned = thinking::strip_reasoning(text_content.as_str());
    Some(
        OllamaMessage {
            role: "assistant".to_string(),
            content: cleaned,
            images: None,
            tool_calls: Some(calls),
        },
    )
}

/// The assistant message whose tool calls stand as JSON at the start of
/// `content`; text behind the JSON becomes the text of the message.
pub fn try_parse_assistant_tool_call_json(content: &str) -> (r: Option<OllamaMessage>)
    ensures
        says_opt(r, assistant_history(content@)),
{
    let trimmed = text::trim(content);
    if let Some(value) = json::parse_json(trimmed.as_str()) {
        proof {
            reveal_strlit("");
            assert(""@ =~= Seq::<char>::empty());
        }
        return assistant_message_from_json(&value, "");
    }
    let chars = text::chars_of(trimmed.as_str());
    let end = match json_scan::find_end_in_chars(&chars) {
        Some(k) => k,
        None => {
            return None;
        },
    };
    let json_part = text::text_of(&chars, 0, end);
    assert(json_part@ =~= trimmed@.take(end as int));
    let value = match json::parse_json(json_part.as_str()) {
        Some(v) => v,
        None => {
            return None;
        },
    };
    let rest = text::text_of(&chars, end, chars.len());
    assert(rest@ =~= trimmed@.skip(end as int));
    let trailing = text::trim(rest.as_str());
    assistant_message_from_json(&value, trailing.as_str())
}

/// The tool message that a parsed value stands for.
pub fn tool_message_from_json(value: &Json) -> (r: Option<OllamaMessage>)
    ensures
        says_opt(
            r,
            match result_of(value@) {
                Some(s) => Some(messages::plain_view("tool"@, s)),
                None => None,
            },
        ),
{
    match value.get("content") {
        Some(v) => match v.as_str() {
            Some(s) => Some(OllamaMessage::plain("tool", s)),
            None => None,
        },
        None => None,
    }
}

/// The tool message whose answer stands in JSON.
pub fn try_parse_tool_result_json(content: &str) -> (r: Option<OllamaMessage>)
    ensures
        says_opt(
            r,
            match tool_result(content@) {
                Some(s) => Some(messages::plain_view("tool"@, s)),
                None => None,
            },
        ),
{
    let trimmed = text::trim(content);
    match json::parse_json(trimmed.as_str()) {
        Some(value) => tool_message_from_json(&value),
        None => None,
    }
}

// ── Messages ────────────────────────────────────────────────────────

/// The Ollama message that a chat message stands for.
pub open spec fn converted(role: Seq<char>, content: Seq<char>) -> MessageView {
    if role == "user"@ {
        let parsed = multimodal::image_markers(content);
        MessageView {
            role: "user"@,
            content: parsed.0,
            images: image_list(parsed.1),
            tool_calls: None,
        }
    } else if role == "assistant"@ {
        match assistant_history(content) {
            Some(m) => m,
            None => messages::plain_view("assistant"@, thinking::without_reasoning(content)),
        }
    } else if role == "tool"@ {
        match tool_result(content) {
            Some(s) => messages::plain_view("tool"@, s),
            None => messages::plain_view("tool"@, content),
        }
    } else {
        messages::plain_view(role, content)
    }
}

/// The Ollama message that a chat message stands for.
///
/// Images are split off user messages, tool calls and tool results are read
/// back from their JSON, and reasoning is taken out of assistant messages.
pub fn convert_chat_message_rich(chat: &ChatMessage) -> (r: OllamaMessage)
    ensures
        r.says() == converted(chat.role@, chat.content@),
{
    let role = chat.role.as_str();
    if text::same_text(role, "user") {
        let (cleaned, image_refs) = multimodal::parse_image_markers(chat.content.as_str());
        OllamaMessage {
            role: "user".to_string(),
            content: cleaned,
            images: extract_base64_images(image_refs.as_slice()),
            tool_calls: None,
        }
    } else if text::same_text(role, "assistant") {
        if let Some(msg) = try_parse_assistant_tool_call_json(chat.content.as_str()) {
            return msg;
        }
        let answer = thinking::strip_reasoning(chat.content.as_str());
        OllamaMessage::plain("assistant", answer.as_str())
    } else if text::same_text(role, "tool") {
        if let Some(msg) = try_parse_tool_result_json(chat.content.as_str()) {
            return msg;
        }
        OllamaMessage::plain("tool", chat.content.as_str())
    } else {
        OllamaMessage::plain(role, chat.content.as_str())
    }
}

/// Each chat message converted, in order.
pub open spec fn converted_all(chats: Seq<ChatMessage>) -> Seq<MessageView> {
    Seq::new(chats.len(), |i: int| converted(chats[i].role@, chats[i].content@))
}

/// Each chat message converted, in order.
pub fn convert_chat_messages(chats: &[ChatMessage]) -> (r: Vec<OllamaMessage>)
    ensures
        messages::message_views(r@) == converted_all(chats@),
{
    let mut out: Vec<OllamaMessage> = Vec::new();
    let mut i: usize = 0;
    while i < chats.len()
        invariant
            i <= chats@.len(),
            out@.len() == i,
            forall|k: int|
                0 <= k < i ==> (#[trigger] out@[k]).says() == converted(
                    chats@[k].role@,
                    chats@[k].content@,
                ),
        decreases chats@.len() - i,
    {
        out.push(convert_chat_message_rich(&chats[i]));
        i += 1;
    }
    assert(messages::message_views(out@) =~= converted_all(chats@));
    out
}

/// The wire form of a tool call in the history.
pub open spec fn wire_call(call: ToolCall) -> ToolCallView {
    ToolCallView { name: call.name@, arguments: arguments_of(call.arguments@) }
}

/// The wire form of tool calls in the history; nothing where there is none.
pub open spec fn wire_calls(calls: Seq<ToolCall>) -> Option<Seq<ToolCallView>> {
    if calls.len() == 0 {
        None
    } else {
        Some(calls.map_values(|c: ToolCall| wire_call(c)))
    }
}

/// The Ollama messages that one entry of a history stands for.
pub open spec fn entry_messages(entry: ConversationMessage) -> Seq<MessageView> {
    match entry {
        ConversationMessage::Chat(chat) => seq![converted(chat.role@, chat.content@)],
        ConversationMessage::AssistantToolCalls {
            text,
            tool_calls,
            reasoning_content,
            provider_attrs,
        } => seq![
            MessageView {
                role: "assistant"@,
                content: thinking::without_reasoning(
                    match text {
                        Some(t) => t@,
                        None => Seq::empty(),
                    },
                ),
                images: None,
                tool_calls: wire_calls(tool_calls@),
            },
        ],
        ConversationMessage::ToolResults(results) => results@.map_values(
            |r: ToolResultMessage| messages::plain_view("tool"@, r.content@),
        ),
    }
}

/// The Ollama messages that a history stands for.
pub open spec fn history_messages(entries: Seq<ConversationMessage>) -> Seq<MessageView>
    decreases entries.len(),
{
    if entries.len() == 0 {
        Seq::empty()
    } else {
        history_messages(entries.drop_last()) + entry_messages(entries.last())
    }
}

fn convert_tool_calls(calls: &Vec<ToolCall>) -> (r: Option<Vec<OllamaToolCall>>)
    ensures
        match r {
            Some(out) => wire_calls(calls@) == Some(messages::call_views(out@)),
            None => wire_calls(calls@) is None,
        },
{
    let mut out: Vec<OllamaToolCall> = Vec::new();
    let mut i: usize = 0;
    while i < calls.len()
        invariant
            i <= calls@.len(),
            out@.len() == i,
            forall|k: int| 0 <= k < i ==> (#[trigger] out@[k]).says() == wire_call(calls@[k]),
        decreases calls@.len() - i,
    {
        out.push(
            OllamaToolCall {
                function: OllamaFunction {
                    name: calls[i].name.clone(),
                    arguments: parse_arguments(calls[i].arguments.as_str()),
                },
            },
        );
        i += 1;
    }
    if out.is_empty() {
        None
    } else {
        assert(messages::call_views(out@) =~= calls@.map_values(|c: ToolCall| wire_call(c)));
        Some(out)
    }
}

/// The Ollama messages that a history stands for.
pub fn convert_conversation_messages(entries: &[ConversationMessage]) -> (r: Vec<OllamaMessage>)
    ensures
        messages::message_views(r@) == history_messages(entries@),
{
    let mut out: Vec<OllamaMessage> = Vec::new();
    let mut i: usize = 0;
    assert(entries@.take(0) =~= Seq::<ConversationMessage>::empty());
    assert(messages::message_views(out@) =~= Seq::<MessageView>::empty());
    while i < entries.len()
        invariant
            i <= entries@.len(),
            messages::message_views(out@) == history_messages(entries@.take(i as int)),
        decreases entries@.len() - i,
    {
        let ghost before = out@;
        assert(entries@.take(i + 1).drop_last() =~= entries@.take(i as int));
        match &entries[i] {
            ConversationMessage::Chat(chat) => {
                out.push(convert_chat_message_rich(chat));
            },
            ConversationMessage::AssistantToolCalls {
                text,
                tool_calls,
                reasoning_content: _,
                provider_attrs: _,
            } => {
                let content = match text {
                    Some(t) => t.clone(),
                    None => String::new(),
                };
                let cleaned = thinking::strip_reasoning(content.as_str());
                out.push(
                    OllamaMessage {
                        role: "assistant".to_string(),
                        content: cleaned,
                        images: None,
                        tool_calls: convert_tool_calls(tool_calls),
                    },
                );
            },
            ConversationMessage::ToolResults(results) => {
                let mut k: usize = 0;
                let ghost added = results@.map_values(
                    |r: ToolResultMessage| messages::plain_view("tool"@, r.content@),
                );
                assert(added.take(0) =~= Seq::<MessageView>::empty());
                assert(messages::message_views(out@) =~= messages::message_views(before)
                    + Seq::<MessageView>::empty());
                while k < results.len()
                    invariant
                        k <= results@.len(),
                        added == results@.map_values(
                            |r: ToolResultMessage| messages::plain_view("tool"@, r.content@),
                        ),
                        messages::message_views(out@) == messages::message_views(before)
                            + added.take(k as int),
                    decreases results@.len() - k,
                {
                    let ghost grown = out@;
                    let msg = OllamaMessage::plain("tool", results[k].content.as_str());
                    out.push(msg);
                    assert(messages::message_views(out@) =~= messages::message_views(grown).push(
                        msg.says(),
                    ));
                    assert(added.take(k + 1) =~= added.take(k as int).push(added[k as int]));
                    assert((messages::message_views(before) + added.take(k as int)).push(
                        added[k as int],
                    ) =~= messages::message_views(before) + added.take(k + 1));
                    k += 1;
                }
                assert(added.take(k as int) =~= added);
            },
        }
        assert(messages::message_views(out@) =~= messages::message_views(before) + entry_messages(
            entries@[i as int],
        ));
        i += 1;
    }
    assert(entries@.take(i as int) =~= entries@);
    out
}

// ── Laws ────────────────────────────────────────────────────────────

/// Conversion keeps the role of every message.
pub proof fn conversion_keeps_role(role: Seq<char>, content: Seq<char>)
    ensures
        converted(role, content).role == role,
{
}

/// A system message passes through as it is: conversion adds no token and
/// takes none away.
pub proof fn system_message_passes_through(content: Seq<char>)
    ensures
        converted("system"@, content) == messages::plain_view("system"@, content),
{
    reveal_strlit("system");
    reveal_strlit("user");
    reveal_strlit("assistant");
    reveal_strlit("tool");
    assert("system"@.len() != "user"@.len());
    assert("system"@.len() != "assistant"@.len());
    assert("system"@.len() != "tool"@.len());
}

/// Only user messages carry images, and only assistant messages tool calls.
pub proof fn attachments_follow_role(role: Seq<char>, content: Seq<char>)
    ensures
        converted(role, content).images is Some ==> role == "user"@,
        converted(role, content).tool_calls is Some ==> role == "assistant"@,
{
}

/// Image and tool call lists are left out rather than sent empty.
pub proof fn lists_are_never_empty(role: Seq<char>, content: Seq<char>)
    ensures
        converted(role, content).images matches Some(images) ==> images.len() > 0,
        converted(role, content).tool_calls matches Some(calls) ==> calls.len() > 0,
{
}

/// The model does not see its own earlier thinking: no assistant message that a
/// history becomes holds reasoning.
pub proof fn model_sees_no_reasoning(entry: ConversationMessage)
    ensures
        forall|i: int|
            0 <= i < entry_messages(entry).len() && (#[trigger] entry_messages(entry)[i]).role
                == "assistant"@ ==> !thinking::has_reasoning(entry_messages(entry)[i].content),
{
    let sent = entry_messages(entry);
    assert forall|i: int|
        0 <= i < sent.len() && (#[trigger] sent[i]).role == "assistant"@ implies !thinking::has_reasoning(
        sent[i].content,
    ) by {
        match entry {
            ConversationMessage::Chat(chat) => {
                converted_holds_no_reasoning(chat.role@, chat.content@);
            },
            ConversationMessage::AssistantToolCalls {
                text,
                tool_calls,
                reasoning_content,
                provider_attrs,
            } => {
                thinking::no_reasoning_is_left(
                    match text {
                        Some(t) => t@,
                        None => Seq::empty(),
                    },
                );
            },
            ConversationMessage::ToolResults(results) => {
                reveal_strlit("tool");
                reveal_strlit("assistant");
                assert("tool"@.len() != "assistant"@.len());
            },
        }
    }
}

/// The same of one chat message.
pub proof fn converted_holds_no_reasoning(role: Seq<char>, content: Seq<char>)
    ensures
        role == "assistant"@ ==> !thinking::has_reasoning(converted(role, content).content),
{
    reveal_strlit("user");
    reveal_strlit("assistant");
    assert("user"@.len() != "assistant"@.len());
    thinking::no_reasoning_is_left(content);
    let trimmed = text::trim_spec(content);
    match json::json_parsed(trimmed) {
        Some(v) => {
            thinking::no_reasoning_is_left(joined_content(content_of(v), Seq::empty()));
        },
        None => {
            if let Some(k) = json_scan::object_end(trimmed) {
                if let Some(v) = json::json_parsed(trimmed.take(k)) {
                    thinking::no_reasoning_is_left(
                        joined_content(content_of(v), text::trim_spec(trimmed.skip(k))),
                    );
                }
            }
        },
    }
}

/// White space around a text with JSON tool calls does not matter.
pub proof fn surrounding_space_is_ignored(content: Seq<char>)
    ensures
        assistant_history(text::trim_spec(content)) == assistant_history(content),
        tool_result(text::trim_spec(content)) == tool_result(content),
{
    text::trim_idempotent(content);
}

/// Tool calls are read back from a JSON object whatever text stands behind it:
/// the text, trimmed, becomes part of the message. What the object and the whole
/// text denote is up to the JSON parser; the whole text is taken first.
pub proof fn trailing_text_is_kept(object: Seq<char>, trailing: Seq<char>)
    requires
        object.len() > 0,
        object[0] == '{',
        json_scan::object_end(object) == Some(object.len() as int),
    ensures
        json::json_parsed(text::trim_spec(object + trailing)) is None && json::json_parsed(
            object,
        ) is Some ==> assistant_history(object + trailing) == assistant_of(
            json::json_parsed(object)->0,
            text::trim_spec(trailing),
        ),
{
    json_scan::boundary_closes(object);
    text::trim_keeps_head(object, trailing);
    let rest = text::trim_end_spec(trailing);
    let trimmed = object + rest;
    json_scan::trailing_text_keeps_boundary(object, rest);
    assert(trimmed.take(object.len() as int) =~= object);
    assert(trimmed.skip(object.len() as int) =~= rest);
    text::trim_after_trim_end(trailing);
}

/// Converting a history part by part is converting it as a whole.
pub proof fn history_is_compositional(
    first: Seq<ConversationMessage>,
    second: Seq<ConversationMessage>,
)
    ensures
        history_messages(first + second) == history_messages(first) + history_messages(second),
    decreases second.len(),
{
    if second.len() == 0 {
        assert(first + second =~= first);
        assert(history_messages(first) + Seq::<MessageView>::empty() =~= history_messages(first));
    } else {
        history_is_compositional(first, second.drop_last());
        assert((first + second).drop_last() =~= first + second.drop_last());
        assert((first + second).last() == second.last());
        assert(history_messages(first) + history_messages(second.drop_last()) + entry_messages(
            second.last(),
        ) =~= history_messages(first) + history_messages(second));
    }
}

/// A history of chat messages converts message by message.
pub proof fn chat_history_converts_each(chats: Seq<ChatMessage>)
    ensures
        history_messages(chats.map_values(|c: ChatMessage| ConversationMessage::Chat(c)))
            == converted_all(chats),
    decreases chats.len(),
{
    let entries = chats.map_values(|c: ChatMessage| ConversationMessage::Chat(c));
    if chats.len() == 0 {
        assert(converted_all(chats) =~= Seq::<MessageView>::empty());
    } else {
        let init = chats.drop_last();
        chat_history_converts_each(init);
        assert(entries.drop_last() =~= init.map_values(
            |c: ChatMessage| ConversationMessage::Chat(c),
        ));
        assert(converted_all(init) + entry_messages(entries.last()) =~= converted_all(chats));
    }
}

/// The payloads of two lists of references are those of the first and then those of
/// the second; one reference gives its payload, if it has one.
pub proof fn payloads_concat(a: Seq<Seq<char>>, b: Seq<Seq<char>>)
    ensures
        payloads(a + b) == payloads(a) + payloads(b),
        b.len() == 1 ==> payloads(b) == (match multimodal::image_payload(b[0]) {
            Some(p) => seq![p],
            None => Seq::<Seq<char>>::empty(),
        }),
    decreases b.len(),
{
    if b.len() == 0 {
        assert(a + b =~= a);
        assert(payloads(a) + payloads(b) =~= payloads(a));
    } else {
        let init = b.drop_last();
        payloads_concat(a, init);
        assert((a + b).drop_last() =~= a + init);
        assert((a + b).last() == b.last());
        assert(payloads(a + b) =~= payloads(a) + payloads(b));
        if b.len() == 1 {
            assert(payloads(init) =~= Seq::<Seq<char>>::empty());
            assert(payloads(b) =~= match multimodal::image_payload(b[0]) {
                Some(p) => seq![p],
                None => Seq::<Seq<char>>::empty(),
            });
        }
    }
}

proof fn all_payloads(refs: Seq<Seq<char>>)
    requires
        forall|i: int| 0 <= i < refs.len() ==> multimodal::image_payload(#[trigger] refs[i]) is Some,
    ensures
        payloads(refs).len() == refs.len(),
        forall|i: int|
            0 <= i < refs.len() ==> multimodal::image_payload(refs[i]) == Some(
                #[trigger] payloads(refs)[i],
            ),
    decreases refs.len(),
{
    if refs.len() > 0 {
        let init = refs.drop_last();
        assert forall|i: int| 0 <= i < init.len() implies multimodal::image_payload(
            #[trigger] init[i],
        ) is Some by {
            assert(init[i] == refs[i]);
        }
        all_payloads(init);
        assert(multimodal::image_payload(refs[refs.len() - 1]) is Some);
        assert forall|i: int| 0 <= i < refs.len() implies multimodal::image_payload(refs[i]) == Some(
            #[trigger] payloads(refs)[i],
        ) by {
            if i < init.len() {
                assert(payloads(refs)[i] == payloads(init)[i]);
                assert(init[i] == refs[i]);
            }
        }
    }
}

/// Every image of a user message is sent: where all references have a payload there
/// are as many images as references, each the payload of its reference, in order.
pub proof fn every_image_is_sent(content: Seq<char>)
    requires
        forall|i: int|
            0 <= i < multimodal::image_markers(content).1.len() ==> multimodal::image_payload(
                #[trigger] multimodal::image_markers(content).1[i],
            ) is Some,
    ensures
        ({
            let refs = multimodal::image_markers(content).1;
            let sent = converted("user"@, content);
            &&& sent.content == multimodal::image_markers(content).0
            &&& refs.len() == 0 ==> sent.images is None
            &&& refs.len() > 0 ==> sent.images is Some && sent.images->0.len() == refs.len()
                && forall|i: int|
                0 <= i < refs.len() ==> multimodal::image_payload(refs[i]) == Some(
                    #[trigger] sent.images->0[i],
                )
        }),
{
    all_payloads(multimodal::image_markers(content).1);
}

/// Whatever references a user message holds, its images are the payloads that they
/// have, one by one: adding a reference behind adds its payload behind.
pub proof fn images_follow_references(refs: Seq<Seq<char>>, reference: Seq<char>)
    ensures
        image_list(Seq::empty()) is None,
        ({
            let before = match image_list(refs) {
                Some(images) => images,
                None => Seq::empty(),
            };
            match multimodal::image_payload(reference) {
                Some(p) => image_list(refs.push(reference)) == Some(before.push(p)),
                None => image_list(refs.push(reference)) == image_list(refs),
            }
        }),
{
    let all = refs.push(reference);
    assert(all.drop_last() =~= refs);
    assert(all.last() == reference);
    if payloads(refs).len() == 0 {
        assert(payloads(refs) =~= Seq::<Seq<char>>::empty());
    }
}

/// A tool call in JSON is read from its `name` and its `arguments`, both of them
/// texts; the arguments are what their text denotes, or else an empty object.
/// Anything else is no tool call.
pub proof fn call_is_read_from_members(v: JsonView)
    ensures
        match (v.member("name"@), v.member("arguments"@)) {
            (Some(JsonView::Text(name)), Some(JsonView::Text(source))) => {
                &&& call_of(v) is Some
                &&& (call_of(v)->0).name == name
                &&& (json::json_parsed(source) matches Some(parsed) ==> (call_of(v)->0).arguments
                    == parsed)
                &&& (json::json_parsed(source) is None ==> (call_of(v)->0).arguments
                    == JsonView::Object(Seq::empty()))
            },
            _ => call_of(v) is None,
        },
{
}

/// The tool calls of two lists are those of the first and then those of the second;
/// one item gives its call, if it is one.
pub proof fn calls_concat(a: Seq<JsonView>, b: Seq<JsonView>)
    ensures
        calls_of(a + b) == calls_of(a) + calls_of(b),
        b.len() == 1 ==> calls_of(b) == (match call_of(b[0]) {
            Some(c) => seq![c],
            None => Seq::<ToolCallView>::empty(),
        }),
    decreases b.len(),
{
    if b.len() == 0 {
        assert(a + b =~= a);
        assert(calls_of(a) + calls_of(b) =~= calls_of(a));
    } else {
        let init = b.drop_last();
        calls_concat(a, init);
        assert((a + b).drop_last() =~= a + init);
        assert((a + b).last() == b.last());
        assert(calls_of(a + b) =~= calls_of(a) + calls_of(b));
        if b.len() == 1 {
            assert(calls_of(init) =~= Seq::<ToolCallView>::empty());
            assert(calls_of(b) =~= match call_of(b[0]) {
                Some(c) => seq![c],
                None => Seq::<ToolCallView>::empty(),
            });
        }
    }
}

/// JSON with tool calls becomes an assistant message that carries all of them, and
/// its text is the JSON's `content` and the text behind the JSON, without reasoning.
/// JSON without tool calls becomes none.
pub proof fn json_calls_become_a_message(v: JsonView, trailing: Seq<char>)
    ensures
        match v.member("tool_calls"@) {
            Some(JsonView::Array(items)) => if calls_of(items).len() == 0 {
                assistant_of(v, trailing) is None
            } else {
                let content = match v.member("content"@) {
                    Some(JsonView::Text(s)) => s,
                    _ => Seq::empty(),
                };
                let m = assistant_of(v, trailing)->0;
                &&& assistant_of(v, trailing) is Some
                &&& m.role == "assistant"@
                &&& m.images is None
                &&& m.tool_calls == Some(calls_of(items))
                &&& trailing.len() == 0 ==> m.content == thinking::without_reasoning(content)
                &&& content.len() == 0 ==> m.content == thinking::without_reasoning(trailing)
                &&& trailing.len() > 0 && content.len() > 0 ==> m.content
                    == thinking::without_reasoning(content + "\n"@ + trailing)
            },
            _ => assistant_of(v, trailing) is None,
        },
{
    let content = content_of(v);
    if content.len() == 0 {
        assert(content =~= Seq::<char>::empty());
        if trailing.len() == 0 {
            assert(trailing =~= content);
        }
    }
}

/// A text that is JSON as a whole is read as a whole.
pub proof fn whole_json_is_read(content: Seq<char>)
    ensures
        json::json_parsed(text::trim_spec(content)) matches Some(v) ==> assistant_history(content)
            == assistant_of(v, Seq::empty()),
{
}

/// A text that starts with no JSON object and is no JSON is no tool call message.
pub proof fn plain_text_is_no_call(content: Seq<char>)
    ensures
        json::json_parsed(text::trim_spec(content)) is None && (text::trim_spec(content).len() == 0
            || text::trim_spec(content)[0] != '{') ==> assistant_history(content) is None,
{
    text::trim_ends(content);
}

/// An assistant message without JSON tool calls is its text without reasoning and
/// carries nothing else.
pub proof fn plain_assistant_text_is_kept(content: Seq<char>)
    requires
        assistant_history(content) is None,
    ensures
        converted("assistant"@, content) == (MessageView {
            role: "assistant"@,
            content: thinking::without_reasoning(content),
            images: None,
            tool_calls: None,
        }),
        !thinking::has_reasoning(content) ==> converted("assistant"@, content).content == content,
{
    reveal_strlit("user");
    reveal_strlit("assistant");
    assert("user"@.len() != "assistant"@.len());
    if !thinking::has_reasoning(content) {
        thinking::unreasoned_text_stays(content);
    }
}

/// An assistant message with JSON tool calls is the message that they become.
pub proof fn call_history_is_structured(content: Seq<char>)
    ensures
        assistant_history(content) matches Some(m) ==> converted("assistant"@, content) == m,
{
    reveal_strlit("user");
    reveal_strlit("assistant");
    assert("user"@.len() != "assistant"@.len());
}

/// A tool message shows what the tool answered: the `content` of its JSON where that
/// is a text, and all of the message otherwise.
pub proof fn tool_answer_is_unwrapped(content: Seq<char>)
    ensures
        ({
            let sent = converted("tool"@, content);
            let parsed = json::json_parsed(text::trim_spec(content));
            &&& sent.role == "tool"@ && sent.images is None && sent.tool_calls is None
            &&& match parsed {
                Some(v) => match v.member("content"@) {
                    Some(JsonView::Text(answer)) => sent.content == answer,
                    _ => sent.content == content,
                },
                None => sent.content == content,
            }
        }),
{
    reveal_strlit("user");
    reveal_strlit("assistant");
    reveal_strlit("tool");
    assert("tool"@.len() != "assistant"@.len());
    assert("tool"@[0] != "user"@[0]);
}

/// Messages of any other role pass through as they are.
pub proof fn other_roles_pass_through(role: Seq<char>, content: Seq<char>)
    requires
        role != "user"@,
        role != "assistant"@,
        role != "tool"@,
    ensures
        converted(role, content) == (MessageView {
            role,
            content,
            images: None,
            tool_calls: None,
        }),
{
}

/// Every message of a chat is converted, in order, by itself.
pub proof fn every_chat_is_converted(chats: Seq<ChatMessage>)
    ensures
        converted_all(chats).len() == chats.len(),
        forall|i: int|
            0 <= i < chats.len() ==> #[trigger] converted_all(chats)[i] == converted(
                chats[i].role@,
                chats[i].content@,
            ),
{
}

/// An entry with tool calls becomes one assistant message with all of its calls in
/// order: name by name, with the arguments that each text denotes.
pub proof fn every_call_is_sent(
    said: Option<String>,
    calls: Vec<ToolCall>,
    reasoning: Option<String>,
    attrs: Option<Json>,
)
    ensures
        ({
            let sent = entry_messages(
                ConversationMessage::AssistantToolCalls {
                    text: said,
                    tool_calls: calls,
                    reasoning_content: reasoning,
                    provider_attrs: attrs,
                },
            );
            &&& sent.len() == 1
            &&& sent[0].role == "assistant"@
            &&& sent[0].images is None
            &&& sent[0].content == thinking::without_reasoning(
                match said {
                    Some(t) => t@,
                    None => Seq::empty(),
                },
            )
            &&& calls@.len() == 0 ==> sent[0].tool_calls is None
            &&& calls@.len() > 0 ==> sent[0].tool_calls is Some && sent[0].tool_calls->0.len()
                == calls@.len() && forall|i: int|
                0 <= i < calls@.len() ==> {
                    let c = #[trigger] sent[0].tool_calls->0[i];
                    &&& c.name == calls@[i].name@
                    &&& (json::json_parsed(calls@[i].arguments@) matches Some(v) ==> c.arguments
                        == v)
                    &&& (json::json_parsed(calls@[i].arguments@) is None ==> c.arguments
                        == JsonView::Object(Seq::empty()))
                }
        }),
{
}

/// Tool results become one tool message each, in order, with what the tool answered.
pub proof fn every_result_is_sent(results: Vec<ToolResultMessage>)
    ensures
        ({
            let sent = entry_messages(ConversationMessage::ToolResults(results));
            &&& sent.len() == results@.len()
            &&& forall|i: int|
                0 <= i < sent.len() ==> #[trigger] sent[i] == (MessageView {
                    role: "tool"@,
                    content: results@[i].content@,
                    images: None,
                    tool_calls: None,
                })
        }),
{
}

/// A history of one entry becomes what the entry becomes, and a chat message in it
/// what it is converted to.
pub proof fn history_of_one(entry: ConversationMessage)
    ensures
        history_messages(Seq::empty()) == Seq::<MessageView>::empty(),
        history_messages(seq![entry]) == entry_messages(entry),
        entry matches ConversationMessage::Chat(chat) ==> history_messages(seq![entry]) == seq![
            converted(chat.role@, chat.content@),
        ],
{
    let one = seq![entry];
    assert(one.drop_last() =~= Seq::<ConversationMessage>::empty());
    assert(history_messages(one.drop_last()) =~= Seq::<MessageView>::empty());
    assert(history_messages(one) =~= entry_messages(entry));
}

/// A user message keeps its text outside of the image markers, and carries the images
/// that its references give.
pub proof fn user_message_is_split(content: Seq<char>)
    ensures
        ({
            let sent = converted("user"@, content);
            let parsed = multimodal::image_markers(content);
            &&& sent.role == "user"@
            &&& sent.content == parsed.0
            &&& sent.tool_calls is None
            &&& sent.images is None <==> forall|i: int|
                0 <= i < parsed.1.len() ==> multimodal::image_payload(#[trigger] parsed.1[i]) is None
            &&& sent.images == image_list(parsed.1)
        }),
{
    no_payload_no_image(multimodal::image_markers(content).1);
}

proof fn no_payload_no_image(refs: Seq<Seq<char>>)
    ensures
        payloads(refs).len() == 0 <==> forall|i: int|
            0 <= i < refs.len() ==> multimodal::image_payload(#[trigger] refs[i]) is None,
    decreases refs.len(),
{
    if refs.len() > 0 {
        let init = refs.drop_last();
        no_payload_no_image(init);
        assert forall|i: int| 0 <= i < init.len() implies #[trigger] init[i] == refs[i] by {
        }
        if payloads(refs).len() > 0 {
            if payloads(init).len() > 0 {
                let i = choose|i: int|
                    0 <= i < init.len() && multimodal::image_payload(#[trigger] init[i]) is Some;
                assert(multimodal::image_payload(refs[i]) is Some);
            } else {
                assert(multimodal::image_payload(refs[refs.len() - 1]) is Some);
            }
        } else {
            assert forall|i: int| 0 <= i < refs.len() implies multimodal::image_payload(
                #[trigger] refs[i],
            ) is None by {
                if i < init.len() {
                    assert(init[i] == refs[i]);
                }
            }
        }
    }
}

/// A text whose first object is no JSON is no tool call message.
pub proof fn unreadable_object_is_no_call(content: Seq<char>)
    requires
        json::json_parsed(text::trim_spec(content)) is None,
    ensures
        json_scan::object_end(text::trim_spec(content)) is None ==> assistant_history(
            content,
        ) is None,
        json_scan::object_end(text::trim_spec(content)) matches Some(k) ==> json::json_parsed(
            text::trim_spec(content).take(k),
        ) is None ==> assistant_history(content) is None,
{
}

/// A message that is returned says what was asked for, and that alone.
pub proof fn returned_message_says_it(r: Option<OllamaMessage>, v: Option<MessageView>)
    ensures
        says_opt(r, v) ==> (r is Some <==> v is Some),
        says_opt(r, v) && v is Some ==> (r->0).role@ == (v->0).role && (r->0).content@
            == (v->0).content && ((r->0).images is Some <==> (v->0).images is Some) && ((
        r->0).tool_calls is Some <==> (v->0).tool_calls is Some),
{
}

} // verus!
