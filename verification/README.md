# Mentat

The rules of the Mentat agent, written and proved in Verus.

| Module | What it holds |
| --- | --- |
| `approval` | which tool calls need approval, the session's "Always" answers, the log of decisions |
| `agent::pending_response` | routing a reply to the tool that waits for it |
| `channels::traits` | messages of channels, taking single replies off an inbox |
| `providers::ollama` | settings, requests and replies of an Ollama server |
| `providers::history` | the agent's history as Ollama messages |
| `providers::thinking` | separating a model's reasoning from its answer |
| `providers::stream` | framing a streamed reply and telling its events |
| `observability::runtime_trace` | what the trace file keeps, and searching it |
| `security`, `config` | risk of shell commands, settings |
| `json`, `json_scan`, `multimodal` | JSON values, the end of a JSON object in a text, image references |
| `text`, `slots`, `tickets`, `clock` | text primitives, values kept under texts, telling their owners apart, the time and fresh ids |

Every function states what it returns. What holds across functions stands as
public proof functions next to them (`approval::laws` for the approval rules).

The library only computes. `app/` does the rest: it talks to channels, files, the
terminal and the network, and asks the library what to do. Where the library
needs an outside crate it calls it: `serde_json` to read and write JSON, `chrono`
for the time, `uuid` for ids, `tokio_util` for cancellation tokens that messages
carry. The contracts of those calls, and of `String::push`, are believed, not
proved; they are the items marked `external_body` and `assume_specification`.
