//! The Ollama provider: its settings, the requests it makes and how it reads
//! the replies.

use crate::json::{self, Json, JsonMap, JsonView};
use crate::providers::history;
use crate::providers::messages::{
    self, ChatMessage, ChatResponse, MessageView, OllamaMessage, OllamaToolCall,
    ProviderCapabilities, TokenUsage, ToolCall, ToolSpec,
};
use crate::providers::thinking;
use crate::text;
use vstd::prelude::*;
use vstd::string::*;

verus! {

/// The nucleus sampling bound 0.95, as the bits of an IEEE 754 double.
pub const TOP_P_BITS: u64 = 0x3fee_6666_6666_6666;

/// How many candidates sampling looks at.
pub const TOP_K: u64 = 64;

/// How long a request may take where nothing else is configured, in seconds.
pub const DEFAULT_TIMEOUT_SECS: u64 = 120;

/// How long connecting may take, in seconds.
pub const CONNECT_TIMEOUT_SECS: u64 = 10;

/// An Ollama server and how to talk to it.
#[derive(Debug)]
pub struct OllamaProvider {
    pub base_url: String,
    pub reasoning_enabled: Option<bool>,
    pub timeout_secs: Option<u64>,
    pub max_tokens: Option<u32>,
    pub num_ctx: Option<u32>,
}

/// Sampling options of a request. The two fractions stand as the bits of
/// IEEE 754 doubles.
#[derive(Debug, Clone, Copy, PartialEq, Eq, Structural)]
pub struct Options {
    pub temperature_bits: u64,
    pub top_p_bits: u64,
    pub top_k: u64,
    pub num_predict: Option<i64>,
    pub num_ctx: Option<i64>,
}

/// A request to `/api/chat`.
#[derive(Debug)]
pub struct OllamaChatRequest {
    pub model: String,
    pub messages: Vec<OllamaMessage>,
    pub stream: bool,
    pub tools: Option<Vec<Json>>,
    pub think: Option<bool>,
    pub options: Options,
}

/// The message of a reply.
#[derive(Debug)]
pub struct ResponseMessage {
    pub content: String,
    pub tool_calls: Option<Vec<OllamaToolCall>>,
    pub thinking: Option<String>,
}

/// A reply of `/api/chat`, or one chunk of a streamed reply.
#[derive(Debug)]
pub struct ApiChatResponse {
    pub message: Option<ResponseMessage>,
    pub done: bool,
    pub prompt_eval_count: Option<u64>,
    pub eval_count: Option<u64>,
}

/// A token limit as the API takes it.
pub open spec fn as_limit(limit: Option<u32>) -> Option<i64> {
    match limit {
        Some(n) => Some(n as i64),
        None => None,
    }
}

fn limit_of(limit: Option<u32>) -> (r: Option<i64>)
    ensures
        r == as_limit(limit),
{
    match limit {
        Some(n) => Some(n as i64),
        None => None,
    }
}

// ── Gemma's thinking token ──────────────────────────────────────────

/// The model is of the Gemma family.
pub open spec fn gemma(model: Seq<char>) -> bool {
    text::starts_with_spec(text::lower(model), "gemma"@)
}

/// Whether a model takes its thinking mode from a token in the system prompt.
pub fn is_gemma_model(model: &str) -> (r: bool)
    ensures
        r == gemma(model@),
{
    text::starts_with(text::to_lower(model).as_str(), "gemma")
}

/// The position of the first system message at or after `from`.
pub open spec fn first_system(messages: Seq<MessageView>, from: int) -> Option<int>
    decreases messages.len() - from,
{
    if from >= messages.len() {
        None
    } else if messages[from].role == "system"@ {
        Some(from)
    } else {
        first_system(messages, from + 1)
    }
}

/// The messages with the thinking token in front of the first system message.
pub open spec fn with_thinking_token(messages: Seq<MessageView>) -> Seq<MessageView> {
    match first_system(messages, 0) {
        Some(i) => messages.update(
            i,
            MessageView { content: "<|think|>\n"@ + messages[i].content, ..messages[i] },
        ),
        None => messages,
    }
}

/// Puts the thinking token in front of the first system message.
pub fn inject_thinking_token(messages: &mut [OllamaMessage])
    ensures
        messages::message_views(final(messages)@) == with_thinking_token(
            messages::message_views(old(messages)@),
        ),
{
    let ghost views = messages::message_views(messages@);
    let mut i: usize = 0;
    while i < messages.len()
        invariant
            i <= messages@.len(),
            messages@ == old(messages)@,
            views == messages::message_views(old(messages)@),
            first_system(views, 0) == first_system(views, i as int),
        decreases messages@.len() - i,
    {
        if text::same_text(messages[i].role.as_str(), "system") {
            let content = text::concat_two("<|think|>\n", messages[i].content.as_str());
            messages[i].content = content;
            assert(messages::message_views(messages@) =~= with_thinking_token(views));
            return;
        }
        i += 1;
    }
}

// ── Tools ───────────────────────────────────────────────────────────

/// The JSON that announces a tool to the model.
pub open spec fn tool_view(tool: ToolSpec) -> JsonView {
    JsonView::Object(
        seq![
            (
                "function"@,
                JsonView::Object(
                    seq![
                        ("description"@, JsonView::Text(tool.description@)),
                        ("name"@, JsonView::Text(tool.name@)),
                        ("parameters"@, tool.parameters@),
                    ],
                ),
            ),
            ("type"@, JsonView::Text("function"@)),
        ],
    )
}

fn convert_tool_spec(tool: &ToolSpec) -> (r: Json)
    ensures
        r@ == tool_view(*tool),
{
    let function = JsonMap::new().with("description", Json::Text(tool.description.clone())).with(
        "name",
        Json::Text(tool.name.clone()),
    ).with("parameters", tool.parameters.clone());
    let inner = Json::Object(function);
    let outer = JsonMap::new().with("function", inner).with(
        "type",
        Json::Text("function".to_string()),
    );
    proof {
        reveal_strlit("description");
        reveal_strlit("function");
        reveal_strlit("name");
        reveal_strlit("parameters");
        reveal_strlit("type");
        let none = Seq::<(Seq<char>, JsonView)>::empty();
        let description = ("description"@, JsonView::Text(tool.description@));
        let name = ("name"@, JsonView::Text(tool.name@));
        let parameters = ("parameters"@, tool.parameters@);
        json::inserted_last(none, "description"@, description.1);
        json::inserted_last(none.push(description), "name"@, name.1);
        json::inserted_last(none.push(description).push(name), "parameters"@, parameters.1);
        json::inserted_last(none, "function"@, inner@);
        json::inserted_last(
            none.push(("function"@, inner@)),
            "type"@,
            JsonView::Text("function"@),
        );
        assert(function@ =~= seq![description, name, parameters]);
        assert(outer@ =~= tool_view(*tool)->Object_0);
    }
    Json::Object(outer)
}

/// The JSON that announces each tool to the model.
pub fn convert_tool_specs(tools: &[ToolSpec]) -> (r: Vec<Json>)
    ensures
        json::json_views(r@) == tools@.map_values(|t: ToolSpec| tool_view(t)),
{
    let mut out: Vec<Json> = Vec::new();
    let mut i: usize = 0;
    while i < tools.len()
        invariant
            i <= tools@.len(),
            out@.len() == i,
            forall|k: int| 0 <= k < i ==> (#[trigger] out@[k])@ == tool_view(tools@[k]),
        decreases tools@.len() - i,
    {
        out.push(convert_tool_spec(&tools[i]));
        i += 1;
    }
    assert(json::json_views(out@) =~= tools@.map_values(|t: ToolSpec| tool_view(t)));
    out
}

/// The id of the tool call at position `i`.
pub open spec fn call_id(i: int) -> Seq<char> {
    "ollama-tc-"@ + text::decimal(i as nat)
}

/// `r` is the tool call at position `i`, as the agent keeps it.
pub open spec fn is_parsed_call(r: ToolCall, call: OllamaToolCall, i: int) -> bool {
    &&& r.id@ == call_id(i)
    &&& r.name@ == call.function.name@
    &&& r.arguments@ == json::json_text(call.function.arguments@)
}

/// `r` lists the tool calls as the agent keeps them, numbered from zero.
pub open spec fn are_parsed_calls(r: Seq<ToolCall>, calls: Seq<OllamaToolCall>) -> bool {
    &&& r.len() == calls.len()
    &&& forall|i: int| 0 <= i < r.len() ==> is_parsed_call(#[trigger] r[i], calls[i], i)
}

/// The tool calls of a reply as the agent keeps them, numbered from zero.
pub fn parse_tool_calls(tool_calls: &[OllamaToolCall]) -> (r: Vec<ToolCall>)
    ensures
        are_parsed_calls(r@, tool_calls@),
{
    let mut out: Vec<ToolCall> = Vec::new();
    let mut i: usize = 0;
    while i < tool_calls.len()
        invariant
            i <= tool_calls@.len(),
            out@.len() == i,
            forall|k: int| 0 <= k < i ==> is_parsed_call(#[trigger] out@[k], tool_calls@[k], k),
        decreases tool_calls@.len() - i,
    {
        let number = text::decimal_text(i);
        out.push(
            ToolCall {
                id: text::concat_two("ollama-tc-", number.as_str()),
                name: tool_calls[i].function.name.clone(),
                arguments: tool_calls[i].function.arguments.render(),
            },
        );
        i += 1;
    }
    out
}

// ── Replies ─────────────────────────────────────────────────────────

/// The text of a reply.
pub open spec fn reply_content(resp: ApiChatResponse) -> Seq<char> {
    match resp.message {
        Some(m) => m.content@,
        None => Seq::empty(),
    }
}

/// The thinking field of a reply.
pub open spec fn reply_thinking(resp: ApiChatResponse) -> Option<Seq<char>> {
    match resp.message {
        Some(m) => text::opt_text(m.thinking),
        None => None,
    }
}

/// The tool calls of a reply.
pub open spec fn reply_calls(resp: ApiChatResponse) -> Seq<OllamaToolCall> {
    match resp.message {
        Some(m) => match m.tool_calls {
            Some(calls) => calls@,
            None => Seq::empty(),
        },
        None => Seq::empty(),
    }
}

/// The token counts of a reply; nothing where it gives none.
pub open spec fn reply_usage(resp: ApiChatResponse) -> Option<TokenUsage> {
    if resp.prompt_eval_count is None && resp.eval_count is None {
        None
    } else {
        Some(
            TokenUsage {
                input_tokens: resp.prompt_eval_count,
                output_tokens: resp.eval_count,
                cached_input_tokens: None,
            },
        )
    }
}

/// The text of a reply whose answer is `answer`: left out where it is empty
/// and tool calls say it all.
pub open spec fn reply_text_of(answer: Seq<char>, calls: Seq<OllamaToolCall>) -> Option<Seq<char>> {
    if answer.len() == 0 && calls.len() > 0 {
        None
    } else {
        Some(answer)
    }
}

/// Reads a reply.
pub fn parse_chat_response(api_resp: ApiChatResponse) -> (r: ChatResponse)
    ensures
        text::opt_text(r.text) == reply_text_of(
            thinking::thinking_split(reply_content(api_resp), reply_thinking(api_resp)).0,
            reply_calls(api_resp),
        ),
        text::opt_text(r.reasoning_content) == thinking::thinking_split(
            reply_content(api_resp),
            reply_thinking(api_resp),
        ).1,
        ({
            let answer = thinking::thinking_split(
                reply_content(api_resp),
                reply_thinking(api_resp),
            ).0;
            &&& answer.len() > 0 ==> r.text is Some && r.text->0@ == answer
            &&& r.text is None <==> answer.len() == 0 && r.tool_calls@.len() > 0
        }),
        are_parsed_calls(r.tool_calls@, reply_calls(api_resp)),
        r.usage == reply_usage(api_resp),
        r.provider_attrs is None,
{
    let usage = if api_resp.prompt_eval_count.is_none() && api_resp.eval_count.is_none() {
        None
    } else {
        Some(
            TokenUsage {
                input_tokens: api_resp.prompt_eval_count,
                output_tokens: api_resp.eval_count,
                cached_input_tokens: None,
            },
        )
    };
    let msg = match api_resp.message {
        Some(m) => m,
        None => ResponseMessage { content: String::new(), tool_calls: None, thinking: None },
    };
    let tool_calls = match &msg.tool_calls {
        Some(calls) => parse_tool_calls(calls.as_slice()),
        None => Vec::new(),
    };
    let field = match &msg.thinking {
        Some(t) => Some(t.as_str()),
        None => None,
    };
    let (answer, reasoning_content) = thinking::extract_thinking_content(
        msg.content.as_str(),
        field,
    );
    let text = if answer.as_str().is_empty() && !tool_calls.is_empty() {
        None
    } else {
        Some(answer)
    };
    ChatResponse { text, tool_calls, usage, reasoning_content, provider_attrs: None }
}

/// The plain text of a reply, with everything in it as the model wrote it.
pub fn reply_text(api_resp: ApiChatResponse) -> (r: String)
    ensures
        r@ == reply_content(api_resp),
{
    match api_resp.message {
        Some(m) => m.content,
        None => String::new(),
    }
}

// ── Errors ──────────────────────────────────────────────────────────

/// What an error says: the server's own words where it gave any, else
/// `fallback`.
pub open spec fn error_detail(reported: Option<Seq<char>>, fallback: Seq<char>) -> Seq<char> {
    match reported {
        Some(e) => if e.len() == 0 {
            fallback
        } else {
            e
        },
        None => fallback,
    }
}

/// The text of a failed request. `reported` is the `error` of the server's
/// JSON where the body was such JSON.
pub fn api_error_message(status: &str, reported: Option<&str>, fallback: &str) -> (r: String)
    ensures
        r@ == "Ollama API error ("@ + status@ + "): "@ + error_detail(
            text::opt_str(reported),
            fallback@,
        ),
{
    let mut out = "Ollama API error (".to_string();
    out.append(status);
    out.append("): ");
    match reported {
        Some(e) => {
            if e.is_empty() {
                out.append(fallback);
            } else {
                out.append(e);
            }
        },
        None => {
            out.append(fallback);
        },
    }
    out
}

// ── Provider ────────────────────────────────────────────────────────

impl OllamaProvider {
    /// A provider for a server on this machine, with the server's defaults.
    pub fn new() -> (r: Self)
        ensures
            r.base_url@ == "http://localhost:11434"@,
            r.reasoning_enabled is None,
            r.timeout_secs is None,
            r.max_tokens is None,
            r.num_ctx is None,
    {
        OllamaProvider {
            base_url: "http://localhost:11434".to_string(),
            reasoning_enabled: None,
            timeout_secs: None,
            max_tokens: None,
            num_ctx: None,
        }
    }

    /// Talks to the server at `url`; slashes at its end do not matter.
    pub fn with_base_url(self, url: &str) -> (r: Self)
        ensures
            r.base_url@ == text::trim_end_char_spec(url@, '/'),
            r == (OllamaProvider { base_url: r.base_url, ..self }),
    {
        OllamaProvider {
            base_url: text::trim_end_char(url, '/'),
            reasoning_enabled: self.reasoning_enabled,
            timeout_secs: self.timeout_secs,
            max_tokens: self.max_tokens,
            num_ctx: self.num_ctx,
        }
    }

    /// Sets how long a request may take.
    pub fn with_timeout_secs(self, timeout_secs: Option<u64>) -> (r: Self)
        ensures
            r == (OllamaProvider { timeout_secs, ..self }),
    {
        OllamaProvider {
            base_url: self.base_url,
            reasoning_enabled: self.reasoning_enabled,
            timeout_secs,
            max_tokens: self.max_tokens,
            num_ctx: self.num_ctx,
        }
    }

    /// Sets how many tokens a reply may have.
    pub fn with_max_tokens(self, max_tokens: Option<u32>) -> (r: Self)
        ensures
            r == (OllamaProvider { max_tokens, ..self }),
    {
        OllamaProvider {
            base_url: self.base_url,
            reasoning_enabled: self.reasoning_enabled,
            timeout_secs: self.timeout_secs,
            max_tokens,
            num_ctx: self.num_ctx,
        }
    }

    /// Sets whether the model is to reason.
    pub fn with_reasoning(self, enabled: Option<bool>) -> (r: Self)
        ensures
            r == (OllamaProvider { reasoning_enabled: enabled, ..self }),
    {
        OllamaProvider {
            base_url: self.base_url,
            reasoning_enabled: enabled,
            timeout_secs: self.timeout_secs,
            max_tokens: self.max_tokens,
            num_ctx: self.num_ctx,
        }
    }

    /// Sets the size of the context window.
    pub fn with_context_window(self, context_window: Option<u32>) -> (r: Self)
        ensures
            r == (OllamaProvider { num_ctx: context_window, ..self }),
    {
        OllamaProvider {
            base_url: self.base_url,
            reasoning_enabled: self.reasoning_enabled,
            timeout_secs: self.timeout_secs,
            max_tokens: self.max_tokens,
            num_ctx: context_window,
        }
    }

    /// How long a request and its connection may take, in seconds.
    pub fn http_timeouts(&self) -> (r: (u64, u64))
        ensures
            r.0 == (match self.timeout_secs {
                Some(secs) => secs,
                None => DEFAULT_TIMEOUT_SECS,
            }),
            r.1 == CONNECT_TIMEOUT_SECS,
            self.timeout_secs is None ==> r.0 == 120,
            r.1 == 10,
    {
        let timeout = match self.timeout_secs {
            Some(secs) => secs,
            None => DEFAULT_TIMEOUT_SECS,
        };
        (timeout, CONNECT_TIMEOUT_SECS)
    }

    /// The sampling options of this provider's requests.
    pub open spec fn options(&self, temperature_bits: u64) -> Options {
        Options {
            temperature_bits,
            top_p_bits: TOP_P_BITS,
            top_k: TOP_K,
            num_predict: as_limit(self.max_tokens),
            num_ctx: as_limit(self.num_ctx),
        }
    }

    /// The sampling options of a request.
    pub fn build_options(&self, temperature_bits: u64) -> (r: Options)
        ensures
            r == self.options(temperature_bits),
    {
        Options {
            temperature_bits,
            top_p_bits: TOP_P_BITS,
            top_k: TOP_K,
            num_predict: limit_of(self.max_tokens),
            num_ctx: limit_of(self.num_ctx),
        }
    }

    /// Reasoning is switched on.
    pub open spec fn reasons(&self) -> bool {
        self.reasoning_enabled == Some(true)
    }

    /// The `think` parameter of this provider's requests.
    pub open spec fn think(&self) -> Option<bool> {
        if self.reasons() {
            Some(true)
        } else {
            None
        }
    }

    /// The messages of a request made of converted messages: for a Gemma model
    /// that is to reason with the thinking token in the system prompt.
    pub open spec fn prepared(
        &self,
        converted: Seq<MessageView>,
        model: Seq<char>,
    ) -> Seq<MessageView> {
        if self.reasons() && gemma(model) {
            with_thinking_token(converted)
        } else {
            converted
        }
    }

    /// The messages and the `think` parameter of a request.
    pub fn prepare_messages(&self, chats: &[ChatMessage], model: &str) -> (r: (
        Vec<OllamaMessage>,
        Option<bool>,
    ))
        ensures
            messages::message_views(r.0@) == self.prepared(history::converted_all(chats@), model@),
            r.1 == self.think(),
    {
        let mut out = history::convert_chat_messages(chats);
        let reasoning_enabled = match self.reasoning_enabled {
            Some(enabled) => enabled,
            None => false,
        };
        let think = if reasoning_enabled {
            Some(true)
        } else {
            None
        };
        if reasoning_enabled && is_gemma_model(model) {
            inject_thinking_token(out.as_mut_slice());
        }
        (out, think)
    }

    /// `r` asks `model` to go on from the converted messages.
    pub open spec fn is_request(
        &self,
        r: OllamaChatRequest,
        converted: Seq<MessageView>,
        model: Seq<char>,
        temperature_bits: u64,
    ) -> bool {
        &&& r.model@ == model
        &&& messages::message_views(r.messages@) == self.prepared(converted, model)
        &&& r.think == self.think()
        &&& r.options == self.options(temperature_bits)
    }

    /// The request of a chat: one answer, no tools.
    pub fn history_request(
        &self,
        chats: &[ChatMessage],
        model: &str,
        temperature_bits: u64,
    ) -> (r: OllamaChatRequest)
        ensures
            self.is_request(r, history::converted_all(chats@), model@, temperature_bits),
            !r.stream,
            r.tools is None,
    {
        let (prepared, think) = self.prepare_messages(chats, model);
        OllamaChatRequest {
            model: model.to_string(),
            messages: prepared,
            stream: false,
            tools: None,
            think,
            options: self.build_options(temperature_bits),
        }
    }

    /// The request of one user message, with an optional system prompt.
    pub fn system_request(
        &self,
        system_prompt: Option<&str>,
        message: &str,
        model: &str,
        temperature_bits: u64,
    ) -> (r: OllamaChatRequest)
        ensures
            self.is_request(
                r,
                prompt_and_message(text::opt_str(system_prompt), message@),
                model@,
                temperature_bits,
            ),
            !r.stream,
            r.tools is None,
    {
        let mut chats: Vec<ChatMessage> = Vec::new();
        if let Some(sys) = system_prompt {
            chats.push(ChatMessage::system(sys));
        }
        chats.push(ChatMessage::user(message));
        assert(history::converted_all(chats@) =~= prompt_and_message(
            text::opt_str(system_prompt),
            message@,
        ));
        self.history_request(chats.as_slice(), model, temperature_bits)
    }

    /// The request of a chat with tools; an empty list of tools is left out.
    pub fn tools_request(
        &self,
        chats: &[ChatMessage],
        tools: Vec<Json>,
        model: &str,
        temperature_bits: u64,
    ) -> (r: OllamaChatRequest)
        ensures
            self.is_request(r, history::converted_all(chats@), model@, temperature_bits),
            !r.stream,
            r.tools == (if tools@.len() == 0 {
                None
            } else {
                Some(tools)
            }),
    {
        let (prepared, think) = self.prepare_messages(chats, model);
        OllamaChatRequest {
            model: model.to_string(),
            messages: prepared,
            stream: false,
            tools: if tools.is_empty() {
                None
            } else {
                Some(tools)
            },
            think,
            options: self.build_options(temperature_bits),
        }
    }

    /// The request of a streamed chat; a list of tools is announced even where
    /// it is empty.
    pub fn stream_request(
        &self,
        chats: &[ChatMessage],
        tools: Option<&[ToolSpec]>,
        model: &str,
        temperature_bits: u64,
    ) -> (r: OllamaChatRequest)
        ensures
            self.is_request(r, history::converted_all(chats@), model@, temperature_bits),
            r.stream,
            match tools {
                Some(specs) => r.tools is Some && json::json_views(r.tools->0@)
                    == specs@.map_values(|t: ToolSpec| tool_view(t)),
                None => r.tools is None,
            },
    {
        let (prepared, think) = self.prepare_messages(chats, model);
        OllamaChatRequest {
            model: model.to_string(),
            messages: prepared,
            stream: true,
            tools: match tools {
                Some(specs) => Some(convert_tool_specs(specs)),
                None => None,
            },
            think,
            options: self.build_options(temperature_bits),
        }
    }

    /// Where chats are sent.
    pub fn chat_url(&self) -> (r: String)
        ensures
            r@ == self.base_url@ + "/api/chat"@,
    {
        text::concat_two(self.base_url.as_str(), "/api/chat")
    }

    /// Where the server tells its version.
    pub fn version_url(&self) -> (r: String)
        ensures
            r@ == self.base_url@ + "/api/version"@,
    {
        text::concat_two(self.base_url.as_str(), "/api/version")
    }

    /// What to say where the server answers a version request with a failure.
    pub fn warmup_status_error(&self, status: &str) -> (r: String)
        ensures
            r@ == "Ollama server at "@ + self.base_url@ + " returned "@ + status@
                + ". Is Ollama running?"@,
    {
        let mut out = "Ollama server at ".to_string();
        out.append(self.base_url.as_str());
        out.append(" returned ");
        out.append(status);
        out.append(". Is Ollama running?");
        out
    }

    /// What to say where the server cannot be reached.
    pub fn warmup_unreachable_error(&self, error: &str) -> (r: String)
        ensures
            r@ == "Cannot reach Ollama at "@ + self.base_url@ + ". Is Ollama running? Error: "@
                + error@,
    {
        let mut out = "Cannot reach Ollama at ".to_string();
        out.append(self.base_url.as_str());
        out.append(". Is Ollama running? Error: ");
        out.append(error);
        out
    }

    /// Tools are described in the prompt: many models that Ollama serves ignore
    /// the native tools array.
    pub fn capabilities(&self) -> (r: ProviderCapabilities)
        ensures
            r == (ProviderCapabilities {
                native_tool_calling: false,
                vision: true,
                prompt_caching: false,
            }),
    {
        ProviderCapabilities { native_tool_calling: false, vision: true, prompt_caching: false }
    }

    /// Replies can be streamed.
    pub fn supports_streaming(&self) -> (r: bool)
        ensures
            r,
    {
        true
    }

    /// Tool calls are not streamed, since tools stand in the prompt.
    pub fn supports_streaming_tool_events(&self) -> (r: bool)
        ensures
            !r,
    {
        false
    }
}

/// The system prompt, where there is one, and the user's message, converted.
pub open spec fn prompt_and_message(
    system_prompt: Option<Seq<char>>,
    message: Seq<char>,
) -> Seq<MessageView> {
    let user = history::converted("user"@, message);
    match system_prompt {
        Some(prompt) => seq![history::converted("system"@, prompt), user],
        None => seq![user],
    }
}

// ── Laws ────────────────────────────────────────────────────────────

/// The thinking token changes one message at most: its content and nothing
/// else of it.
pub proof fn token_touches_one_system_message(messages: Seq<MessageView>)
    ensures
        with_thinking_token(messages).len() == messages.len(),
        first_system(messages, 0) is None ==> with_thinking_token(messages) == messages,
        forall|i: int|
            0 <= i < messages.len() && first_system(messages, 0) != Some(i) ==> (
            #[trigger] with_thinking_token(messages)[i]) == messages[i],
        forall|i: int|
            0 <= i < messages.len() ==> {
                let m = #[trigger] with_thinking_token(messages)[i];
                m.role == messages[i].role && m.images == messages[i].images && m.tool_calls
                    == messages[i].tool_calls
            },
        first_system(messages, 0) matches Some(i) ==> 0 <= i < messages.len() && messages[i].role
            == "system"@ && with_thinking_token(messages)[i].content == "<|think|>\n"@
            + messages[i].content && forall|j: int| 0 <= j < i ==> messages[j].role != "system"@,
{
    first_system_is_first(messages, 0);
}

proof fn first_system_is_first(messages: Seq<MessageView>, from: int)
    requires
        0 <= from,
    ensures
        match first_system(messages, from) {
            Some(i) => from <= i < messages.len() && messages[i].role == "system"@ && forall|j: int|
                from <= j < i ==> messages[j].role != "system"@,
            None => forall|j: int| from <= j < messages.len() ==> messages[j].role != "system"@,
        },
    decreases messages.len() - from,
{
    if from < messages.len() && messages[from].role != "system"@ {
        first_system_is_first(messages, from + 1);
    }
}

/// Without reasoning, or for a model of another family, the messages of a
/// request are the converted messages and nothing else.
pub proof fn no_token_unless_gemma_reasons(
    provider: OllamaProvider,
    converted: Seq<MessageView>,
    model: Seq<char>,
)
    requires
        provider.reasoning_enabled != Some(true) || !gemma(model),
    ensures
        provider.prepared(converted, model) == converted,
{
}

/// The ids of the tool calls of one reply differ from each other.
pub proof fn call_ids_differ(i: int, j: int)
    requires
        0 <= i,
        0 <= j,
        i != j,
    ensures
        call_id(i) != call_id(j),
{
    if call_id(i) == call_id(j) {
        let prefix = "ollama-tc-"@;
        assert(call_id(i).skip(prefix.len() as int) =~= text::decimal(i as nat));
        assert(call_id(j).skip(prefix.len() as int) =~= text::decimal(j as nat));
        text::decimal_injective(i as nat, j as nat);
    }
}

/// A base URL never ends in a slash, so the paths behind it never start with
/// two.
pub proof fn base_url_has_no_trailing_slash(url: Seq<char>)
    ensures
        text::trim_end_char_spec(url, '/').len() > 0 ==> text::trim_end_char_spec(url, '/').last()
            != '/',
    decreases url.len(),
{
    if url.len() > 0 && url.last() == '/' {
        base_url_has_no_trailing_slash(url.drop_last());
    }
}

/// What the model said is never lost: an answer that is not empty is the text of the
/// response, whatever tool calls stand beside it. Only an empty answer beside tool
/// calls is left out.
pub proof fn answer_is_never_lost(resp: ApiChatResponse, answer: Seq<char>)
    ensures
        answer.len() > 0 ==> reply_text_of(answer, reply_calls(resp)) == Some(answer),
        reply_calls(resp).len() == 0 ==> reply_text_of(answer, reply_calls(resp)) == Some(answer),
        answer.len() == 0 && reply_calls(resp).len() > 0 ==> reply_text_of(
            answer,
            reply_calls(resp),
        ) is None,
{
}

/// What a reply says is what its message says; a reply without a message says
/// nothing.
pub proof fn reply_says_what_its_message_says(resp: ApiChatResponse)
    ensures
        resp.message matches Some(m) ==> {
            &&& reply_content(resp) == m.content@
            &&& (m.thinking matches Some(t) ==> reply_thinking(resp) == Some(t@))
            &&& (m.thinking is None ==> reply_thinking(resp) is None)
            &&& (m.tool_calls matches Some(calls) ==> reply_calls(resp) == calls@)
            &&& (m.tool_calls is None ==> reply_calls(resp).len() == 0)
        },
        resp.message is None ==> reply_content(resp).len() == 0 && reply_thinking(resp) is None
            && reply_calls(resp).len() == 0,
{
}

/// A message without reasoning is read as it stands: its content is the answer.
pub proof fn unreasoned_reply_is_its_content(resp: ApiChatResponse)
    requires
        !text::contains_spec(reply_content(resp), "<|channel>thought\n"@),
        !text::contains_spec(reply_content(resp), "<think>"@),
        reply_thinking(resp) is None,
    ensures
        thinking::thinking_split(reply_content(resp), reply_thinking(resp)) == (
            reply_content(resp),
            None::<Seq<char>>,
        ),
{
    thinking::unmarked_content_stays(reply_content(resp));
}

/// The token counts of a reply are told wherever it gives one of them, each as it is
/// given.
pub proof fn usage_is_told(resp: ApiChatResponse)
    ensures
        reply_usage(resp) is None <==> resp.prompt_eval_count is None && resp.eval_count is None,
        reply_usage(resp) matches Some(u) ==> u.input_tokens == resp.prompt_eval_count
            && u.output_tokens == resp.eval_count && u.cached_input_tokens is None,
{
}

/// Tool calls are read one for one and in order: each keeps its name and its
/// arguments, and its id tells its position.
pub proof fn calls_are_read_one_for_one(read: Seq<ToolCall>, calls: Seq<OllamaToolCall>, i: int)
    requires
        are_parsed_calls(read, calls),
        0 <= i < calls.len(),
    ensures
        read.len() == calls.len(),
        read[i].name@ == calls[i].function.name@,
        read[i].arguments@ == json::json_text(calls[i].function.arguments@),
        read[i].id@.take("ollama-tc-"@.len() as int) == "ollama-tc-"@,
        text::denoted(read[i].id@.skip("ollama-tc-"@.len() as int)) == i,
{
    text::decimal_denotes(i as nat);
    assert(is_parsed_call(read[i], calls[i], i));
    assert(read[i].id@.take("ollama-tc-"@.len() as int) =~= "ollama-tc-"@);
    assert(read[i].id@.skip("ollama-tc-"@.len() as int) =~= text::decimal(i as nat));
}

/// What announces a tool says its name, its description and its parameters, and that
/// it is a function.
pub proof fn tool_is_announced(tool: ToolSpec)
    ensures
        ({
            let v = tool_view(tool);
            let function = v.member("function"@);
            &&& v.member("type"@) == Some(JsonView::Text("function"@))
            &&& function is Some
            &&& (function->0).member("name"@) == Some(JsonView::Text(tool.name@))
            &&& (function->0).member("description"@) == Some(JsonView::Text(tool.description@))
            &&& (function->0).member("parameters"@) == Some(tool.parameters@)
            &&& v is Object && v->Object_0.len() == 2
            &&& function->0 is Object && (function->0)->Object_0.len() == 3
        }),
{
    reveal_strlit("description");
    reveal_strlit("function");
    reveal_strlit("name");
    reveal_strlit("parameters");
    reveal_strlit("type");
    assert("description"@.len() == 11 && "function"@.len() == 8 && "name"@.len() == 4
        && "parameters"@.len() == 10 && "type"@.len() == 4);
    assert("name"@[0] != "type"@[0]);
    let outer = tool_view(tool)->Object_0;
    json::lookup_finds_first(outer, "function"@, 0);
    json::lookup_finds_first(outer, "type"@, 1);
    let inner = outer[0].1->Object_0;
    json::lookup_finds_first(inner, "description"@, 0);
    json::lookup_finds_first(inner, "name"@, 1);
    json::lookup_finds_first(inner, "parameters"@, 2);
}

/// A model is of the Gemma family where its name starts so, in any case.
pub proof fn gemma_is_a_prefix(model: Seq<char>)
    ensures
        gemma(model) <==> model.len() >= 5 && text::lower(model.take(5)) == "gemma"@,
        gemma(text::lower(model)) == gemma(model),
{
    reveal_strlit("gemma");
    if model.len() >= 5 {
        assert(text::lower(model).take(5) =~= text::lower(model.take(5)));
    }
    text::lower_idempotent(model);
}

/// A Gemma model that is to reason finds the thinking token at the start of its
/// system prompt, with the prompt behind it.
pub proof fn gemma_is_told_to_think(
    provider: OllamaProvider,
    converted: Seq<MessageView>,
    model: Seq<char>,
    i: int,
)
    requires
        provider.reasoning_enabled == Some(true),
        gemma(model),
        0 <= i < converted.len(),
        converted[i].role == "system"@,
        forall|j: int| 0 <= j < i ==> (#[trigger] converted[j]).role != "system"@,
    ensures
        provider.prepared(converted, model).len() == converted.len(),
        provider.prepared(converted, model)[i].content == "<|think|>\n"@ + converted[i].content,
        forall|j: int|
            0 <= j < converted.len() && j != i ==> #[trigger] provider.prepared(converted, model)[j]
                == converted[j],
{
    first_system_is_first(converted, 0);
}

/// Thinking is asked for where reasoning is switched on, and not mentioned otherwise.
pub proof fn thinking_is_asked_for(provider: OllamaProvider)
    ensures
        provider.think() == Some(true) <==> provider.reasoning_enabled == Some(true),
        provider.think() is Some ==> provider.think() == Some(true),
{
}

/// The options of a request carry the temperature as given and the provider's limits
/// as set.
pub proof fn options_carry_the_settings(provider: OllamaProvider, temperature_bits: u64)
    ensures
        ({
            let o = provider.options(temperature_bits);
            &&& o.temperature_bits == temperature_bits
            &&& o.top_p_bits == 0x3fee_6666_6666_6666
            &&& o.top_k == 64
            &&& o.num_predict is Some <==> provider.max_tokens is Some
            &&& (provider.max_tokens matches Some(n) ==> o.num_predict->0 == n as int)
            &&& o.num_ctx is Some <==> provider.num_ctx is Some
            &&& (provider.num_ctx matches Some(n) ==> o.num_ctx->0 == n as int)
        }),
{
}

/// A request names its model and carries as many messages as the chat, those that
/// the chat is converted to but for the thinking token.
pub proof fn request_carries_the_chat(
    provider: OllamaProvider,
    r: OllamaChatRequest,
    converted: Seq<MessageView>,
    model: Seq<char>,
    temperature_bits: u64,
)
    requires
        provider.is_request(r, converted, model, temperature_bits),
    ensures
        r.model@ == model,
        r.messages@.len() == converted.len(),
        r.think == provider.think(),
        r.options == provider.options(temperature_bits),
        forall|i: int|
            0 <= i < converted.len() ==> (#[trigger] r.messages@[i]).says().role
                == converted[i].role && r.messages@[i].says().images == converted[i].images
                && r.messages@[i].says().tool_calls == converted[i].tool_calls && (
            r.messages@[i].says().content == converted[i].content || (
            provider.reasoning_enabled == Some(true) && gemma(model) && converted[i].role
                == "system"@ && r.messages@[i].says().content == "<|think|>\n"@
                + converted[i].content)),
{
    token_touches_one_system_message(converted);
    let sent = messages::message_views(r.messages@);
    assert(sent == provider.prepared(converted, model));
    assert forall|i: int| 0 <= i < converted.len() implies (#[trigger] r.messages@[i]).says() == sent[i] by {
    }
}

/// A single question is sent as one user message, behind the system prompt where
/// there is one.
pub proof fn question_is_sent(prompt: Option<Seq<char>>, message: Seq<char>)
    ensures
        prompt_and_message(prompt, message).last() == history::converted("user"@, message),
        prompt is None ==> prompt_and_message(prompt, message).len() == 1,
        prompt matches Some(p) ==> prompt_and_message(prompt, message).len() == 2
            && prompt_and_message(prompt, message)[0] == messages::plain_view("system"@, p),
{
    if let Some(p) = prompt {
        history::system_message_passes_through(p);
    }
}

/// An error says what the server said, and the fallback only where it said nothing.
pub proof fn server_is_quoted(reported: Option<Seq<char>>, fallback: Seq<char>)
    ensures
        reported matches Some(e) ==> e.len() > 0 ==> error_detail(reported, fallback) == e,
        reported matches Some(e) ==> e.len() == 0 ==> error_detail(reported, fallback) == fallback,
        reported is None ==> error_detail(reported, fallback) == fallback,
{
}

/// Only slashes at its end are taken off a base URL.
pub proof fn base_url_keeps_the_rest(url: Seq<char>)
    ensures
        ({
            let base = text::trim_end_char_spec(url, '/');
            &&& base == url.take(base.len() as int)
            &&& base.len() <= url.len()
            &&& forall|i: int| base.len() <= i < url.len() ==> #[trigger] url[i] == '/'
        }),
{
    text::trim_end_char_takes_the_run(url, '/');
}

} // verus!
