//! The messages that the agent keeps and the messages that Ollama exchanges.

use crate::json::{Json, JsonView};
use crate::text;
use vstd::prelude::*;
use vstd::string::*;

verus! {

// ── What the agent keeps ────────────────────────────────────────────

/// One message of a conversation.
#[derive(Debug, Clone)]
pub struct ChatMessage {
    pub role: String,
    pub content: String,
}

impl ChatMessage {
    /// A message of the system.
    pub fn system(content: &str) -> (r: Self)
        ensures
            r.role@ == "system"@,
            r.content@ == content@,
    {
        ChatMessage { role: "system".to_string(), content: content.to_string() }
    }

    /// A message of the user.
    pub fn user(content: &str) -> (r: Self)
        ensures
            r.role@ == "user"@,
            r.content@ == content@,
    {
        ChatMessage { role: "user".to_string(), content: content.to_string() }
    }

    /// A message of the model.
    pub fn assistant(content: &str) -> (r: Self)
        ensures
            r.role@ == "assistant"@,
            r.content@ == content@,
    {
        ChatMessage { role: "assistant".to_string(), content: content.to_string() }
    }

    /// A message of a tool.
    pub fn tool(content: &str) -> (r: Self)
        ensures
            r.role@ == "tool"@,
            r.content@ == content@,
    {
        ChatMessage { role: "tool".to_string(), content: content.to_string() }
    }
}

/// A tool call that a model asked for; `arguments` is JSON text.
#[derive(Debug, Clone)]
pub struct ToolCall {
    pub id: String,
    pub name: String,
    pub arguments: String,
}

/// What a tool answered to a call.
#[derive(Debug, Clone)]
pub struct ToolResultMessage {
    pub tool_call_id: String,
    pub content: String,
}

/// One entry of a conversation history.
#[derive(Debug)]
pub enum ConversationMessage {
    Chat(ChatMessage),
    AssistantToolCalls {
        text: Option<String>,
        tool_calls: Vec<ToolCall>,
        reasoning_content: Option<String>,
        provider_attrs: Option<Json>,
    },
    ToolResults(Vec<ToolResultMessage>),
}

/// A tool that a model may call; `parameters` is a JSON schema.
#[derive(Debug)]
pub struct ToolSpec {
    pub name: String,
    pub description: String,
    pub parameters: Json,
}

/// How many tokens a call took.
#[derive(Debug, Clone, Copy, PartialEq, Eq, Structural)]
pub struct TokenUsage {
    pub input_tokens: Option<u64>,
    pub output_tokens: Option<u64>,
    pub cached_input_tokens: Option<u64>,
}

/// A model's reply.
#[derive(Debug)]
pub struct ChatResponse {
    pub text: Option<String>,
    pub tool_calls: Vec<ToolCall>,
    pub usage: Option<TokenUsage>,
    pub reasoning_content: Option<String>,
    pub provider_attrs: Option<Json>,
}

/// What a provider can do.
#[derive(Debug, Clone, Copy, PartialEq, Eq, Structural)]
pub struct ProviderCapabilities {
    pub native_tool_calling: bool,
    pub vision: bool,
    pub prompt_caching: bool,
}

// ── What Ollama exchanges ───────────────────────────────────────────

/// The function that a tool call names, with its arguments.
#[derive(Debug)]
pub struct OllamaFunction {
    pub name: String,
    pub arguments: Json,
}

/// A tool call on the wire.
#[derive(Debug)]
pub struct OllamaToolCall {
    pub function: OllamaFunction,
}

/// A message on the wire.
#[derive(Debug)]
pub struct OllamaMessage {
    pub role: String,
    pub content: String,
    pub images: Option<Vec<String>>,
    pub tool_calls: Option<Vec<OllamaToolCall>>,
}

/// What an [`OllamaToolCall`] says.
#[verifier::ext_equal]
pub struct ToolCallView {
    pub name: Seq<char>,
    pub arguments: JsonView,
}

/// What an [`OllamaMessage`] says.
#[verifier::ext_equal]
pub struct MessageView {
    pub role: Seq<char>,
    pub content: Seq<char>,
    pub images: Option<Seq<Seq<char>>>,
    pub tool_calls: Option<Seq<ToolCallView>>,
}

impl OllamaToolCall {
    /// What this call says.
    pub open spec fn says(&self) -> ToolCallView {
        ToolCallView { name: self.function.name@, arguments: self.function.arguments@ }
    }
}

/// What a list of calls says.
pub open spec fn call_views(calls: Seq<OllamaToolCall>) -> Seq<ToolCallView> {
    calls.map_values(|c: OllamaToolCall| c.says())
}

impl OllamaMessage {
    /// What this message says.
    pub open spec fn says(&self) -> MessageView {
        MessageView {
            role: self.role@,
            content: self.content@,
            images: match self.images {
                Some(images) => Some(text::texts(images@)),
                None => None,
            },
            tool_calls: match self.tool_calls {
                Some(calls) => Some(call_views(calls@)),
                None => None,
            },
        }
    }

    /// A message that carries text alone.
    pub fn plain(role: &str, content: &str) -> (r: Self)
        ensures
            r.says() == plain_view(role@, content@),
    {
        OllamaMessage {
            role: role.to_string(),
            content: content.to_string(),
            images: None,
            tool_calls: None,
        }
    }
}

/// What a list of messages says.
pub open spec fn message_views(messages: Seq<OllamaMessage>) -> Seq<MessageView> {
    messages.map_values(|m: OllamaMessage| m.says())
}

/// A message that carries text alone.
pub open spec fn plain_view(role: Seq<char>, content: Seq<char>) -> MessageView {
    MessageView { role, content, images: None, tool_calls: None }
}

impl Clone for OllamaToolCall {
    fn clone(&self) -> (r: Self)
        ensures
            r.says() == self.says(),
    {
        OllamaToolCall {
            function: OllamaFunction {
                name: self.function.name.clone(),
                arguments: self.function.arguments.clone(),
            },
        }
    }
}

// ── Laws ────────────────────────────────────────────────────────────

/// What messages and calls say is what they hold, field by field.
pub proof fn messages_say_what_they_hold(m: OllamaMessage, call: OllamaToolCall)
    ensures
        m.says().role == m.role@,
        m.says().content == m.content@,
        m.says().images is Some <==> m.images is Some,
        m.images matches Some(images) ==> m.says().images == Some(text::texts(images@)),
        m.says().tool_calls is Some <==> m.tool_calls is Some,
        m.tool_calls matches Some(calls) ==> m.says().tool_calls == Some(call_views(calls@)),
        call.says().name == call.function.name@,
        call.says().arguments == call.function.arguments@,
{
}

/// What lists of messages and calls say is what their items say, one for one.
pub proof fn lists_say_what_their_items_say(
    messages: Seq<OllamaMessage>,
    calls: Seq<OllamaToolCall>,
)
    ensures
        message_views(messages).len() == messages.len(),
        forall|i: int|
            0 <= i < messages.len() ==> #[trigger] message_views(messages)[i] == messages[i].says(),
        call_views(calls).len() == calls.len(),
        forall|i: int|
            0 <= i < calls.len() ==> #[trigger] call_views(calls)[i] == calls[i].says(),
{
}

} // verus!
