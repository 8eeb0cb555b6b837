//! The runtime trace: a file with one JSON event per line.

use crate::clock;
use crate::config::ObservabilityConfig;
use crate::json::{self, Json, JsonView};
use crate::text;
use vstd::prelude::*;
use vstd::string::*;

verus! {

// ── Settings ────────────────────────────────────────────────────────

/// What of the trace is kept.
#[derive(Debug, Clone, Copy, PartialEq, Eq, Structural)]
pub enum RuntimeTraceStorageMode {
    /// Nothing is traced.
    Off,
    /// The latest entries are kept.
    Rolling,
    /// Everything is kept.
    Full,
}

/// The mode that a setting names; anything unknown turns tracing off.
pub open spec fn mode_of(raw: Seq<char>) -> RuntimeTraceStorageMode {
    let word = text::lower(text::trim_spec(raw));
    if word == "rolling"@ {
        RuntimeTraceStorageMode::Rolling
    } else if word == "full"@ {
        RuntimeTraceStorageMode::Full
    } else {
        RuntimeTraceStorageMode::Off
    }
}

impl RuntimeTraceStorageMode {
    /// The mode that a setting names. Case and surrounding space do not matter.
    pub fn from_raw(raw: &str) -> (r: Self)
        ensures
            r == mode_of(raw@),
    {
        let trimmed = text::trim(raw);
        let word = text::to_lower(trimmed.as_str());
        if text::same_text(word.as_str(), "rolling") {
            RuntimeTraceStorageMode::Rolling
        } else if text::same_text(word.as_str(), "full") {
            RuntimeTraceStorageMode::Full
        } else {
            RuntimeTraceStorageMode::Off
        }
    }
}

/// The mode that a configuration asks for.
pub fn storage_mode_from_config(config: &ObservabilityConfig) -> (r: RuntimeTraceStorageMode)
    ensures
        r == mode_of(config.runtime_trace_mode@),
{
    RuntimeTraceStorageMode::from_raw(config.runtime_trace_mode.as_str())
}

/// A configuration asks for a mode that is not known: the setting is not blank,
/// and neither a known mode nor `none` as it stands.
pub open spec fn mode_is_unknown(raw: Seq<char>) -> bool {
    &&& mode_of(raw) == RuntimeTraceStorageMode::Off
    &&& text::trim_spec(raw).len() > 0
    &&& text::lower(raw) != "none"@
}

/// Whether a configuration asks for a mode that is not known, which is worth a
/// warning.
pub fn storage_mode_is_unknown(config: &ObservabilityConfig) -> (r: bool)
    ensures
        r == mode_is_unknown(config.runtime_trace_mode@),
{
    let raw = config.runtime_trace_mode.as_str();
    match RuntimeTraceStorageMode::from_raw(raw) {
        RuntimeTraceStorageMode::Off => {
            let trimmed = text::trim(raw);
            let lowered = text::to_lower(raw);
            !trimmed.as_str().is_empty() && !text::same_text(lowered.as_str(), "none")
        },
        _ => false,
    }
}

/// Where the trace is written unless configured otherwise, below the workspace.
pub const DEFAULT_TRACE_REL_PATH: &'static str = "state/runtime-trace.jsonl";

/// `path` below `base`, as `/`-separated paths join: an absolute path stands for
/// itself.
pub open spec fn joined_path(base: Seq<char>, path: Seq<char>) -> Seq<char> {
    if path.len() > 0 && path[0] == '/' {
        path
    } else if base.len() == 0 || base.last() == '/' {
        base + path
    } else {
        base + "/"@ + path
    }
}

fn join_path(base: &str, path: &str) -> (r: String)
    ensures
        r@ == joined_path(base@, path@),
{
    let path_chars = text::chars_of(path);
    if path_chars.len() > 0 && path_chars[0] == '/' {
        return path.to_string();
    }
    let base_chars = text::chars_of(base);
    let mut out = base.to_string();
    if base_chars.len() > 0 && base_chars[base_chars.len() - 1] != '/' {
        out.append("/");
    }
    out.append(path);
    out
}

/// The path that a configuration names, below the workspace where it is relative.
pub open spec fn named_path(configured: Seq<char>) -> Seq<char> {
    let raw = text::trim_spec(configured);
    if raw.len() == 0 {
        DEFAULT_TRACE_REL_PATH@
    } else {
        raw
    }
}

/// The path that a configuration names. It is for the platform to say whether that
/// path is relative, and to put it below the workspace then.
pub fn configured_path(config: &ObservabilityConfig) -> (r: String)
    ensures
        r@ == named_path(config.runtime_trace_path@),
{
    let raw = text::trim(config.runtime_trace_path.as_str());
    if raw.as_str().is_empty() {
        DEFAULT_TRACE_REL_PATH.to_string()
    } else {
        raw
    }
}

/// Where a configuration puts the trace.
pub open spec fn trace_path(configured: Seq<char>, workspace_dir: Seq<char>) -> Seq<char> {
    joined_path(workspace_dir, named_path(configured))
}

/// Where a configuration puts the trace, with `/`-separated paths: an absolute path
/// as it is, a relative one below the workspace.
pub fn resolve_trace_path(config: &ObservabilityConfig, workspace_dir: &str) -> (r: String)
    ensures
        r@ == trace_path(config.runtime_trace_path@, workspace_dir@),
{
    let named = configured_path(config);
    join_path(workspace_dir, named.as_str())
}

// ── The file ────────────────────────────────────────────────────────

/// How the trace is written.
#[derive(Debug)]
pub struct RuntimeTraceLogger {
    mode: RuntimeTraceStorageMode,
    max_entries: usize,
    path: String,
}

/// At least one.
pub open spec fn at_least_one(n: usize) -> usize {
    if n == 0 {
        1
    } else {
        n
    }
}

/// The last `max_entries` of the entries.
pub open spec fn last_entries(entries: Seq<Seq<char>>, max_entries: int) -> Seq<Seq<char>> {
    if entries.len() <= max_entries {
        entries
    } else {
        entries.skip(entries.len() - max_entries)
    }
}

/// A file that holds the entries.
pub open spec fn file_of(entries: Seq<Seq<char>>) -> Seq<char> {
    text::join_spec(entries, "\n"@) + "\n"@
}

impl RuntimeTraceLogger {
    /// What is kept.
    pub closed spec fn keeps(&self) -> RuntimeTraceStorageMode {
        self.mode
    }

    /// How many entries a rolling trace keeps.
    pub closed spec fn limit(&self) -> int {
        self.max_entries as int
    }

    /// Where the trace is written.
    pub closed spec fn location(&self) -> Seq<char> {
        self.path@
    }

    #[verifier::type_invariant]
    spec fn keeps_something(self) -> bool {
        self.max_entries >= 1
    }

    /// A logger that keeps at least one entry.
    pub fn new(mode: RuntimeTraceStorageMode, max_entries: usize, path: String) -> (r: Self)
        ensures
            r.keeps() == mode,
            r.limit() == at_least_one(max_entries),
            r.limit() >= 1,
            max_entries >= 1 ==> r.limit() == max_entries,
            r.location() == path@,
    {
        let max_entries: usize = if max_entries == 0 {
            1
        } else {
            max_entries
        };
        RuntimeTraceLogger { mode, max_entries, path }
    }

    /// Where the trace is written.
    pub fn path(&self) -> (r: &str)
        ensures
            r@ == self.location(),
    {
        self.path.as_str()
    }

    /// Whether an event is written at all.
    pub fn appends(&self) -> (r: bool)
        ensures
            r == (self.keeps() != RuntimeTraceStorageMode::Off),
    {
        self.mode != RuntimeTraceStorageMode::Off
    }

    /// What is written at the end of the file for an event whose JSON is `line`;
    /// nothing where tracing is off.
    pub fn append(&self, line: &str) -> (r: Option<String>)
        ensures
            text::opt_text(r) == (if self.keeps() == RuntimeTraceStorageMode::Off {
                None
            } else {
                Some(line@ + "\n"@)
            }),
    {
        if self.appends() {
            Some(text::concat_two(line, "\n"))
        } else {
            None
        }
    }

    /// Whether the file is trimmed after an event was written.
    pub fn trims(&self) -> (r: bool)
        ensures
            r == (self.keeps() == RuntimeTraceStorageMode::Rolling),
    {
        self.mode == RuntimeTraceStorageMode::Rolling
    }

    /// What the file is to hold so that the latest entries are left; nothing
    /// where it may stay as it is.
    pub open spec fn trimmed(&self, raw: Seq<char>) -> Option<Seq<char>> {
        let entries = text::entry_lines(raw);
        if entries.len() <= self.limit() {
            None
        } else {
            Some(file_of(last_entries(entries, self.limit())))
        }
    }

    /// What the file is to hold so that the latest entries are left.
    pub fn trim_to_last_entries(&self, raw: &str) -> (r: Option<String>)
        ensures
            text::opt_text(r) == self.trimmed(raw@),
    {
        let lines = text::lines_trimmed(raw);
        if lines.len() <= self.max_entries {
            return None;
        }
        let mut lines = lines;
        let ghost all = text::texts(lines@);
        let keep_from: usize = lines.len() - self.max_entries;
        let kept = lines.split_off(keep_from);
        assert(text::texts(kept@) =~= all.skip(keep_from as int));
        let mut rewritten = text::join(&kept, "\n");
        rewritten.append("\n");
        Some(rewritten)
    }

    /// What the file holds after lines were appended, one after the other.
    pub open spec fn file_after_all(&self, content: Seq<char>, lines: Seq<Seq<char>>) -> Seq<char>
        decreases lines.len(),
    {
        if lines.len() == 0 {
            content
        } else {
            self.file_after(self.file_after_all(content, lines.drop_last()), lines.last())
        }
    }

    /// What the file holds after a line was appended.
    pub open spec fn file_after(&self, content: Seq<char>, line: Seq<char>) -> Seq<char> {
        let grown = content + line + "\n"@;
        match self.keeps() {
            RuntimeTraceStorageMode::Off => content,
            RuntimeTraceStorageMode::Full => grown,
            RuntimeTraceStorageMode::Rolling => match self.trimmed(grown) {
                Some(rewritten) => rewritten,
                None => grown,
            },
        }
    }
}

/// The logger that a configuration asks for; none where tracing is off.
pub fn init_from_config(config: &ObservabilityConfig, workspace_dir: &str) -> (r: Option<
    RuntimeTraceLogger,
>)
    ensures
        match r {
            Some(logger) => {
                &&& mode_of(config.runtime_trace_mode@) != RuntimeTraceStorageMode::Off
                &&& logger.keeps() == mode_of(config.runtime_trace_mode@)
                &&& logger.limit() == at_least_one(config.runtime_trace_max_entries)
                &&& logger.limit() >= 1
                &&& config.runtime_trace_max_entries >= 1 ==> logger.limit()
                    == config.runtime_trace_max_entries
                &&& logger.location() == trace_path(config.runtime_trace_path@, workspace_dir@)
            },
            None => mode_of(config.runtime_trace_mode@) == RuntimeTraceStorageMode::Off,
        },
{
    let mode = storage_mode_from_config(config);
    if mode == RuntimeTraceStorageMode::Off {
        None
    } else {
        Some(
            RuntimeTraceLogger::new(
                mode,
                config.runtime_trace_max_entries,
                resolve_trace_path(config, workspace_dir),
            ),
        )
    }
}

// ── Events ──────────────────────────────────────────────────────────

/// Something that happened.
#[derive(Debug)]
pub struct RuntimeTraceEvent {
    pub id: String,
    pub timestamp: String,
    pub event_type: String,
    pub channel: Option<String>,
    pub provider: Option<String>,
    pub model: Option<String>,
    pub session_id: Option<String>,
    pub turn_id: Option<String>,
    pub success: Option<bool>,
    pub message: Option<String>,
    pub payload: Json,
}

/// What an event says.
#[verifier::ext_equal]
pub ghost struct EventView {
    pub id: Seq<char>,
    pub timestamp: Seq<char>,
    pub event_type: Seq<char>,
    pub channel: Option<Seq<char>>,
    pub provider: Option<Seq<char>>,
    pub model: Option<Seq<char>>,
    pub session_id: Option<Seq<char>>,
    pub turn_id: Option<Seq<char>>,
    pub success: Option<bool>,
    pub message: Option<Seq<char>>,
    pub payload: JsonView,
}

impl View for RuntimeTraceEvent {
    type V = EventView;

    open spec fn view(&self) -> EventView {
        EventView {
            id: self.id@,
            timestamp: self.timestamp@,
            event_type: self.event_type@,
            channel: text::opt_text(self.channel),
            provider: text::opt_text(self.provider),
            model: text::opt_text(self.model),
            session_id: text::opt_text(self.session_id),
            turn_id: text::opt_text(self.turn_id),
            success: self.success,
            message: text::opt_text(self.message),
            payload: self.payload@,
        }
    }
}

impl Clone for RuntimeTraceEvent {
    fn clone(&self) -> (r: Self)
        ensures
            r@ == self@,
    {
        RuntimeTraceEvent {
            id: self.id.clone(),
            timestamp: self.timestamp.clone(),
            event_type: self.event_type.clone(),
            channel: self.channel.clone(),
            provider: self.provider.clone(),
            model: self.model.clone(),
            session_id: self.session_id.clone(),
            turn_id: self.turn_id.clone(),
            success: self.success,
            message: self.message.clone(),
            payload: self.payload.clone(),
        }
    }
}

/// Events are written: there is a logger, and it is not off.
pub open spec fn is_tracing(logger: Option<&RuntimeTraceLogger>) -> bool {
    match logger {
        Some(l) => l.keeps() != RuntimeTraceStorageMode::Off,
        None => false,
    }
}

/// The event to write, with a fresh id and the time of now; nothing where events
/// are not written. The session is that in which the event happens.
pub fn record_event(
    logger: Option<&RuntimeTraceLogger>,
    session_id: Option<String>,
    event_type: &str,
    channel: Option<&str>,
    provider: Option<&str>,
    model: Option<&str>,
    turn_id: Option<&str>,
    success: Option<bool>,
    message: Option<&str>,
    payload: Json,
) -> (r: Option<RuntimeTraceEvent>)
    ensures
        match r {
            Some(e) => {
                &&& is_tracing(logger)
                &&& clock::is_random_uuid(e.id@)
                &&& clock::is_time_text(e.timestamp@)
                &&& e@ == (EventView {
                    id: e.id@,
                    timestamp: e.timestamp@,
                    event_type: event_type@,
                    channel: text::opt_str(channel),
                    provider: text::opt_str(provider),
                    model: text::opt_str(model),
                    session_id: text::opt_text(session_id),
                    turn_id: text::opt_str(turn_id),
                    success: success,
                    message: text::opt_str(message),
                    payload: payload@,
                })
            },
            None => !is_tracing(logger),
        },
{
    match logger {
        Some(l) => {
            if !l.appends() {
                return None;
            }
        },
        None => {
            return None;
        },
    }
    Some(
        RuntimeTraceEvent {
            id: clock::random_uuid(),
            timestamp: clock::local_now_rfc3339(),
            event_type: event_type.to_string(),
            channel: text::owned(channel),
            provider: text::owned(provider),
            model: text::owned(model),
            session_id,
            turn_id: text::owned(turn_id),
            success,
            message: text::owned(message),
            payload,
        },
    )
}

/// What is said of a request to a provider: the request itself or, where it could
/// not be written as JSON, the reason.
pub open spec fn request_outcome(serialized: Result<Json, String>) -> (
    Option<bool>,
    Option<Seq<char>>,
    JsonView,
) {
    match serialized {
        Ok(payload) => (None, None, payload@),
        Err(error) => (Some(false), Some("serialization failed: "@ + error@), JsonView::Null),
    }
}

/// The event to write of a request to a provider; nothing where events are not
/// written.
pub fn trace_api_request(
    logger: Option<&RuntimeTraceLogger>,
    session_id: Option<String>,
    serialized: Result<Json, String>,
    provider: &str,
    model: &str,
    turn_id: Option<&str>,
) -> (r: Option<RuntimeTraceEvent>)
    ensures
        match r {
            Some(e) => {
                &&& is_tracing(logger)
                &&& clock::is_random_uuid(e.id@)
                &&& clock::is_time_text(e.timestamp@)
                &&& e@ == (EventView {
                    id: e.id@,
                    timestamp: e.timestamp@,
                    event_type: "provider_api_request"@,
                    channel: None,
                    provider: Some(provider@),
                    model: Some(model@),
                    session_id: text::opt_text(session_id),
                    turn_id: text::opt_str(turn_id),
                    success: request_outcome(serialized).0,
                    message: request_outcome(serialized).1,
                    payload: request_outcome(serialized).2,
                })
            },
            None => !is_tracing(logger),
        },
{
    match serialized {
        Ok(payload) => record_event(
            logger,
            session_id,
            "provider_api_request",
            None,
            Some(provider),
            Some(model),
            turn_id,
            None,
            None,
            payload,
        ),
        Err(error) => {
            let reason = text::concat_two("serialization failed: ", error.as_str());
            record_event(
                logger,
                session_id,
                "provider_api_request",
                None,
                Some(provider),
                Some(model),
                turn_id,
                Some(false),
                Some(reason.as_str()),
                Json::Null,
            )
        },
    }
}

// ── Reading ─────────────────────────────────────────────────────────

/// The lines of a trace file that hold an entry.
pub fn event_lines(raw: &str) -> (r: Vec<String>)
    ensures
        text::texts(r@) == text::entry_lines(raw@),
{
    text::lines_trimmed(raw)
}

/// The entries that could be read, in order; malformed ones are skipped.
pub open spec fn readable(parsed: Seq<Option<RuntimeTraceEvent>>) -> Seq<RuntimeTraceEvent>
    decreases parsed.len(),
{
    if parsed.len() == 0 {
        Seq::empty()
    } else {
        let before = readable(parsed.drop_last());
        match parsed.last() {
            Some(e) => before.push(e),
            None => before,
        }
    }
}

/// An optional text, or nothing.
pub open spec fn text_or_empty(s: Option<String>) -> Seq<char> {
    match s {
        Some(t) => t@,
        None => Seq::empty(),
    }
}

/// The text of an event in which a search looks.
pub open spec fn haystack(e: RuntimeTraceEvent) -> Seq<char> {
    e.event_type@ + " "@ + text_or_empty(e.message) + " "@ + json::json_text(e.payload@)
        + text_or_empty(e.channel) + text_or_empty(e.provider) + text_or_empty(e.model)
}

/// A filter without surrounding space and in lower case; blank filters count as
/// none.
pub open spec fn normalized(filter: Option<Seq<char>>) -> Option<Seq<char>> {
    match filter {
        Some(f) => if text::trim_spec(f).len() == 0 {
            None
        } else {
            Some(text::lower(text::trim_spec(f)))
        },
        None => None,
    }
}

/// The event is of the wanted type. Case does not matter.
pub open spec fn has_type(e: RuntimeTraceEvent, wanted: Option<Seq<char>>) -> bool {
    match wanted {
        Some(w) => text::lower(e.event_type@) == w,
        None => true,
    }
}

/// The event mentions the needle. Case does not matter.
pub open spec fn mentions(e: RuntimeTraceEvent, needle: Option<Seq<char>>) -> bool {
    match needle {
        Some(n) => text::contains_spec(text::lower(haystack(e)), n),
        None => true,
    }
}

/// The events that are of the wanted type and mention the needle, in order.
pub open spec fn matching(
    events: Seq<RuntimeTraceEvent>,
    wanted: Option<Seq<char>>,
    needle: Option<Seq<char>>,
) -> Seq<RuntimeTraceEvent>
    decreases events.len(),
{
    if events.len() == 0 {
        Seq::empty()
    } else {
        let before = matching(events.drop_last(), wanted, needle);
        let e = events.last();
        if has_type(e, wanted) && mentions(e, needle) {
            before.push(e)
        } else {
            before
        }
    }
}

/// The last `limit` events, the latest first.
pub open spec fn latest_first(events: Seq<RuntimeTraceEvent>, limit: int) -> Seq<RuntimeTraceEvent> {
    if events.len() > limit {
        events.skip(events.len() - limit).reverse()
    } else {
        events.reverse()
    }
}

/// What a search in the entries of a trace finds.
pub open spec fn found_events(
    parsed: Seq<Option<RuntimeTraceEvent>>,
    limit: int,
    event_filter: Option<Seq<char>>,
    contains: Option<Seq<char>>,
) -> Seq<RuntimeTraceEvent> {
    latest_first(
        matching(readable(parsed), normalized(event_filter), normalized(contains)),
        limit,
    )
}

fn normalize(filter: Option<&str>) -> (r: Option<String>)
    ensures
        text::opt_text(r) == normalized(text::opt_str(filter)),
{
    match filter {
        Some(f) => {
            let trimmed = text::trim(f);
            if trimmed.as_str().is_empty() {
                None
            } else {
                Some(text::to_lower(trimmed.as_str()))
            }
        },
        None => None,
    }
}

fn append_opt(out: &mut String, s: &Option<String>)
    ensures
        final(out)@ == old(out)@ + text_or_empty(*s),
{
    match s {
        Some(t) => {
            out.append(t.as_str());
        },
        None => {
            assert(out@ + Seq::<char>::empty() =~= out@);
        },
    }
}

fn search_text(e: &RuntimeTraceEvent) -> (r: String)
    ensures
        r@ == haystack(*e),
{
    let mut out = e.event_type.clone();
    out.append(" ");
    append_opt(&mut out, &e.message);
    out.append(" ");
    let payload = e.payload.render();
    out.append(payload.as_str());
    append_opt(&mut out, &e.channel);
    append_opt(&mut out, &e.provider);
    append_opt(&mut out, &e.model);
    out
}

fn event_matches(e: &RuntimeTraceEvent, wanted: &Option<String>, needle: &Option<String>) -> (r:
    bool)
    ensures
        r == (has_type(*e, text::opt_text(*wanted)) && mentions(*e, text::opt_text(*needle))),
{
    if let Some(w) = wanted {
        let lowered = text::to_lower(e.event_type.as_str());
        if !text::same_text(lowered.as_str(), w.as_str()) {
            return false;
        }
    }
    if let Some(n) = needle {
        let hay = search_text(e);
        let lowered = text::to_lower(hay.as_str());
        if !text::contains(lowered.as_str(), n.as_str()) {
            return false;
        }
    }
    true
}

/// Searches the entries of a trace: `parsed` holds, line by line, the event that
/// a line gives or nothing where it is malformed. The latest events come first.
pub fn load_events(
    parsed: Vec<Option<RuntimeTraceEvent>>,
    limit: usize,
    event_filter: Option<&str>,
    contains: Option<&str>,
) -> (r: Vec<RuntimeTraceEvent>)
    ensures
        r@ == found_events(
            parsed@,
            limit as int,
            text::opt_str(event_filter),
            text::opt_str(contains),
        ),
        exists|at: Seq<int>| #[trigger]
            lists_latest_matches(
                at,
                r@,
                parsed@,
                limit as int,
                text::opt_str(event_filter),
                text::opt_str(contains),
            ),
{
    proof {
        search_is_complete(
            parsed@,
            limit as int,
            text::opt_str(event_filter),
            text::opt_str(contains),
        );
    }
    let wanted = normalize(event_filter);
    let needle = normalize(contains);
    let ghost w = text::opt_text(wanted);
    let ghost n = text::opt_text(needle);
    let ghost all = parsed@;
    let mut events: Vec<RuntimeTraceEvent> = Vec::new();
    assert(all.take(0) =~= Seq::<Option<RuntimeTraceEvent>>::empty());
    for entry in it: parsed
        invariant
            it.seq() == all,
            w == text::opt_text(wanted),
            n == text::opt_text(needle),
            events@ == matching(readable(all.take(it.index() as int)), w, n),
    {
        let ghost k = it.index() as int;
        let ghost seen = all.take(k);
        let ghost next = all.take(k + 1);
        assert(next.drop_last() =~= seen);
        assert(next.last() == entry);
        if let Some(e) = entry {
            proof {
                assert(readable(next) =~= readable(seen).push(e));
                assert(readable(next).drop_last() =~= readable(seen));
            }
            if event_matches(&e, &wanted, &needle) {
                events.push(e);
            }
        }
    }
    assert(all.take(all.len() as int) =~= all);
    let mut kept = events;
    if kept.len() > limit {
        let ghost before = kept@;
        let keep_from: usize = kept.len() - limit;
        kept = kept.split_off(keep_from);
        assert(kept@ =~= before.skip(keep_from as int));
    }
    reversed(kept)
}

fn reversed(events: Vec<RuntimeTraceEvent>) -> (r: Vec<RuntimeTraceEvent>)
    ensures
        r@ == events@.reverse(),
{
    let mut left = events;
    let mut out: Vec<RuntimeTraceEvent> = Vec::new();
    while left.len() > 0
        invariant
            out@.len() + left@.len() == events@.len(),
            left@ == events@.take(left@.len() as int),
            forall|i: int|
                0 <= i < out@.len() ==> (#[trigger] out@[i]) == events@[events@.len() - 1 - i],
        decreases left@.len(),
    {
        if let Some(e) = left.pop() {
            out.push(e);
        }
        assert(left@ =~= events@.take(left@.len() as int));
    }
    assert(out@ =~= events@.reverse());
    out
}

/// The last event with the given id.
pub open spec fn last_with_id(events: Seq<RuntimeTraceEvent>, id: Seq<char>) -> Option<
    RuntimeTraceEvent,
>
    decreases events.len(),
{
    if events.len() == 0 {
        None
    } else if events.last().id@ == id {
        Some(events.last())
    } else {
        last_with_id(events.drop_last(), id)
    }
}

/// The latest event with the given id among the entries of a trace.
pub fn find_event_by_id(parsed: Vec<Option<RuntimeTraceEvent>>, id: &str) -> (r: Option<
    RuntimeTraceEvent,
>)
    ensures
        r == last_with_id(readable(parsed@), id@),
{
    let mut left = parsed;
    while left.len() > 0
        invariant
            last_with_id(readable(parsed@), id@) == last_with_id(readable(left@), id@),
        decreases left@.len(),
    {
        let ghost before = left@;
        if let Some(entry) = left.pop() {
            assert(left@ =~= before.drop_last());
            assert(before.last() == entry);
            if let Some(e) = entry {
                assert(readable(before).drop_last() =~= readable(left@));
                if text::same_text(e.id.as_str(), id) {
                    return Some(e);
                }
            }
        }
    }
    None
}

// ── Laws ────────────────────────────────────────────────────────────

/// Neither case nor surrounding space in a setting changes the mode that it names.
pub proof fn mode_ignores_case_and_space(raw: Seq<char>)
    ensures
        mode_of(text::lower(raw)) == mode_of(raw),
        mode_of(text::trim_spec(raw)) == mode_of(raw),
{
    text::trim_of_lower(raw);
    text::lower_idempotent(text::trim_spec(raw));
    text::trim_idempotent(raw);
}

/// A trace file as it is written: empty, or ended by a line feed.
pub open spec fn ends_clean(content: Seq<char>) -> bool {
    content.len() == 0 || content.last() == '\n'
}

proof fn file_of_entries(entries: Seq<Seq<char>>)
    requires
        forall|i: int| 0 <= i < entries.len() ==> text::is_entry(#[trigger] entries[i]),
    ensures
        text::entry_lines(file_of(entries)) == entries,
        ends_clean(file_of(entries)),
{
    reveal_strlit("\n");
    assert("\n"@ =~= seq!['\n']);
    let body = text::join_spec(entries, "\n"@);
    text::joined_entries_come_back(entries);
    text::entry_lines_join(body, Seq::empty());
    text::empty_has_no_entries();
    assert(body + seq!['\n'] + Seq::<char>::empty() =~= file_of(entries));
    assert(entries + Seq::<Seq<char>>::empty() =~= entries);
}

/// A line written at the end of a trace file becomes its last entry, and the
/// entries before it stay.
pub proof fn appended_line_is_last(content: Seq<char>, line: Seq<char>)
    requires
        ends_clean(content),
        text::is_entry(line),
    ensures
        text::entry_lines(content + line + "\n"@) == text::entry_lines(content).push(line),
        ends_clean(content + line + "\n"@),
{
    reveal_strlit("\n");
    assert("\n"@ =~= seq!['\n']);
    let nothing = Seq::<char>::empty();
    text::empty_has_no_entries();
    text::entry_is_its_line(line);
    text::entry_lines_join(line, nothing);
    let tail = line + seq!['\n'] + nothing;
    assert(text::entry_lines(tail) =~= seq![line]);
    if content.len() == 0 {
        assert(content + line + "\n"@ =~= tail);
        assert(content =~= nothing);
        assert(text::entry_lines(content).push(line) =~= seq![line]);
    } else {
        let body = content.drop_last();
        text::entry_lines_join(body, nothing);
        assert(body + seq!['\n'] + nothing =~= content);
        assert(text::entry_lines(content) =~= text::entry_lines(body));
        text::entry_lines_join(body, tail);
        assert(body + seq!['\n'] + tail =~= content + line + "\n"@);
        assert(text::entry_lines(body) + seq![line] =~= text::entry_lines(content).push(line));
    }
}

/// After an event was written a rolling trace holds the latest entries, the new
/// one last, never more than its limit, and its file is again one to write to.
pub proof fn rolling_keeps_latest(logger: RuntimeTraceLogger, content: Seq<char>, line: Seq<char>)
    requires
        logger.keeps() == RuntimeTraceStorageMode::Rolling,
        logger.limit() >= 1,
        ends_clean(content),
        text::is_entry(line),
    ensures
        ({
            let after = text::entry_lines(logger.file_after(content, line));
            let entries = text::entry_lines(content);
            &&& after == last_entries(entries.push(line), logger.limit())
            &&& after.len() <= logger.limit()
            &&& after.len() == if entries.len() + 1 <= logger.limit() {
                (entries.len() + 1) as int
            } else {
                logger.limit()
            }
            &&& after.last() == line
            &&& forall|i: int|
                0 <= i < after.len() - 1 ==> #[trigger] after[i] == entries[entries.len() + 1
                    - after.len() + i]
            &&& ends_clean(logger.file_after(content, line))
        }),
{
    appended_line_is_last(content, line);
    let grown = content + line + "\n"@;
    let entries = text::entry_lines(grown);
    text::entries_are_clean(grown);
    let kept = last_entries(entries, logger.limit());
    assert forall|i: int| 0 <= i < kept.len() implies text::is_entry(#[trigger] kept[i]) by {
        assert(text::is_entry(entries[i + entries.len() - kept.len()]));
    }
    file_of_entries(kept);
}

/// Whatever was written to a rolling trace that started empty, its file holds the
/// latest entries and no others.
pub proof fn rolling_trace_holds_latest(logger: RuntimeTraceLogger, lines: Seq<Seq<char>>)
    requires
        logger.keeps() == RuntimeTraceStorageMode::Rolling,
        logger.limit() >= 1,
        forall|i: int| 0 <= i < lines.len() ==> text::is_entry(#[trigger] lines[i]),
    ensures
        text::entry_lines(logger.file_after_all(Seq::empty(), lines)) == last_entries(
            lines,
            logger.limit(),
        ),
        ({
            let held = text::entry_lines(logger.file_after_all(Seq::empty(), lines));
            &&& held.len() == if lines.len() <= logger.limit() {
                lines.len() as int
            } else {
                logger.limit()
            }
            &&& forall|i: int|
                0 <= i < held.len() ==> #[trigger] held[i] == lines[lines.len() - held.len() + i]
        }),
        ends_clean(logger.file_after_all(Seq::empty(), lines)),
    decreases lines.len(),
{
    if lines.len() == 0 {
        text::empty_has_no_entries();
        assert(lines =~= Seq::<Seq<char>>::empty());
    } else {
        let before = lines.drop_last();
        assert forall|i: int| 0 <= i < before.len() implies text::is_entry(#[trigger] before[i]) by {
            assert(before[i] == lines[i]);
        }
        rolling_trace_holds_latest(logger, before);
        assert(text::is_entry(lines[lines.len() - 1]));
        let content = logger.file_after_all(Seq::empty(), before);
        rolling_keeps_latest(logger, content, lines.last());
        let kept = last_entries(before, logger.limit());
        assert(last_entries(kept.push(lines.last()), logger.limit()) =~= last_entries(
            lines,
            logger.limit(),
        ));
    }
}

/// A full trace keeps every entry.
pub proof fn full_keeps_everything(logger: RuntimeTraceLogger, content: Seq<char>, line: Seq<char>)
    requires
        logger.keeps() == RuntimeTraceStorageMode::Full,
        ends_clean(content),
        text::is_entry(line),
    ensures
        text::entry_lines(logger.file_after(content, line)) == text::entry_lines(content).push(line),
        ends_clean(logger.file_after(content, line)),
{
    appended_line_is_last(content, line);
}

/// A file that was trimmed is not trimmed again.
pub proof fn trimming_settles(logger: RuntimeTraceLogger, content: Seq<char>)
    requires
        logger.limit() >= 1,
    ensures
        logger.trimmed(content) matches Some(rewritten) ==> logger.trimmed(rewritten) is None,
{
    let entries = text::entry_lines(content);
    text::entries_are_clean(content);
    let kept = last_entries(entries, logger.limit());
    assert forall|i: int| 0 <= i < kept.len() implies text::is_entry(#[trigger] kept[i]) by {
        assert(text::is_entry(entries[i + entries.len() - kept.len()]));
    }
    file_of_entries(kept);
}

/// A search finds no more than its limit, and only events that could be read, are
/// of the wanted type and mention the needle.
pub proof fn found_events_match(
    parsed: Seq<Option<RuntimeTraceEvent>>,
    limit: int,
    event_filter: Option<Seq<char>>,
    contains: Option<Seq<char>>,
)
    requires
        limit >= 0,
    ensures
        ({
            let found = found_events(parsed, limit, event_filter, contains);
            &&& found.len() <= limit
            &&& forall|i: int|
                0 <= i < found.len() ==> parsed.contains(Some(#[trigger] found[i])) && has_type(
                    found[i],
                    normalized(event_filter),
                ) && mentions(found[i], normalized(contains))
        }),
{
    let w = normalized(event_filter);
    let n = normalized(contains);
    let all = matching(readable(parsed), w, n);
    let found = found_events(parsed, limit, event_filter, contains);
    matching_is_sound(readable(parsed), w, n);
    readable_is_sound(parsed);
    assert forall|i: int| 0 <= i < found.len() implies parsed.contains(Some(#[trigger] found[i]))
        && has_type(found[i], w) && mentions(found[i], n) by {
        let j = all.len() - 1 - i;
        assert(found[i] == all[j]);
        assert(readable(parsed).contains(all[j]));
        let k = choose|k: int| 0 <= k < readable(parsed).len() && readable(parsed)[k] == all[j];
        assert(parsed.contains(Some(readable(parsed)[k])));
    }
}

proof fn matching_is_sound(
    events: Seq<RuntimeTraceEvent>,
    wanted: Option<Seq<char>>,
    needle: Option<Seq<char>>,
)
    ensures
        forall|i: int|
            0 <= i < matching(events, wanted, needle).len() ==> events.contains(
                #[trigger] matching(events, wanted, needle)[i],
            ) && has_type(matching(events, wanted, needle)[i], wanted) && mentions(
                matching(events, wanted, needle)[i],
                needle,
            ),
    decreases events.len(),
{
    if events.len() > 0 {
        let before = events.drop_last();
        matching_is_sound(before, wanted, needle);
        let all = matching(events, wanted, needle);
        assert forall|i: int| 0 <= i < all.len() implies events.contains(#[trigger] all[i])
            && has_type(all[i], wanted) && mentions(all[i], needle) by {
            let old = matching(before, wanted, needle);
            if i < old.len() {
                assert(all[i] == old[i]);
                assert(before.contains(old[i]));
                let k = choose|k: int| 0 <= k < before.len() && before[k] == old[i];
                assert(events[k] == all[i]);
            } else {
                assert(events[events.len() - 1] == all[i]);
            }
        }
    }
}

proof fn readable_is_sound(parsed: Seq<Option<RuntimeTraceEvent>>)
    ensures
        forall|i: int|
            0 <= i < readable(parsed).len() ==> parsed.contains(Some(#[trigger] readable(parsed)[i])),
    decreases parsed.len(),
{
    if parsed.len() > 0 {
        let before = parsed.drop_last();
        readable_is_sound(before);
        let all = readable(parsed);
        assert forall|i: int| 0 <= i < all.len() implies parsed.contains(Some(#[trigger] all[i])) by {
            let old = readable(before);
            if i < old.len() {
                assert(all[i] == old[i]);
                assert(before.contains(Some(old[i])));
                let k = choose|k: int| 0 <= k < before.len() && before[k] == Some(old[i]);
                assert(parsed[k] == Some(all[i]));
            } else {
                assert(parsed[parsed.len() - 1] == Some(all[i]));
            }
        }
    }
}

/// A search without filters finds the latest events that could be read, the
/// latest first; with a limit large enough, all of them.
pub proof fn unfiltered_search_is_history(parsed: Seq<Option<RuntimeTraceEvent>>, limit: int)
    requires
        limit >= 0,
    ensures
        found_events(parsed, limit, None, None) == latest_first(readable(parsed), limit),
        readable(parsed).len() <= limit ==> found_events(parsed, limit, None, None)
            == readable(parsed).reverse(),
{
    matching_all(readable(parsed));
}

proof fn matching_all(events: Seq<RuntimeTraceEvent>)
    ensures
        matching(events, None, None) == events,
    decreases events.len(),
{
    if events.len() > 0 {
        matching_all(events.drop_last());
        assert(events.drop_last().push(events.last()) =~= events);
    } else {
        assert(events =~= Seq::empty());
    }
}

/// An event that is found by its id is the latest of those that have it; none is
/// found only where no event has it.
pub proof fn latest_of_an_id(events: Seq<RuntimeTraceEvent>, id: Seq<char>)
    ensures
        match last_with_id(events, id) {
            Some(e) => exists|i: int|
                0 <= i < events.len() && #[trigger] events[i] == e && e.id@ == id && forall|j: int|
                    i < j < events.len() ==> (#[trigger] events[j]).id@ != id,
            None => forall|j: int| 0 <= j < events.len() ==> (#[trigger] events[j]).id@ != id,
        },
    decreases events.len(),
{
    if events.len() > 0 {
        let last = events.len() - 1;
        if events[last].id@ == id {
            assert(events[last] == events.last());
        } else {
            let before = events.drop_last();
            latest_of_an_id(before, id);
            match last_with_id(before, id) {
                Some(e) => {
                    let i = choose|i: int|
                        0 <= i < before.len() && #[trigger] before[i] == e && e.id@ == id && forall|j: int|
                            i < j < before.len() ==> (#[trigger] before[j]).id@ != id;
                    assert(events[i] == e);
                    assert forall|j: int| i < j < events.len() implies (#[trigger] events[j]).id@ != id by {
                        if j < last {
                            assert(events[j] == before[j]);
                        }
                    }
                },
                None => {
                    assert forall|j: int| 0 <= j < events.len() implies (#[trigger] events[j]).id@ != id by {
                        if j < last {
                            assert(events[j] == before[j]);
                        }
                    }
                },
            }
        }
    }
}

/// The entry could be read and passes the filters.
pub open spec fn is_match(
    entry: Option<RuntimeTraceEvent>,
    event_filter: Option<Seq<char>>,
    contains: Option<Seq<char>>,
) -> bool {
    match entry {
        Some(e) => has_type(e, normalized(event_filter)) && mentions(e, normalized(contains)),
        None => false,
    }
}

/// `at` names the entries that were found, the latest first: all of them match, and
/// an entry that matches and is not among them is older than `limit` that are.
pub open spec fn lists_latest_matches(
    at: Seq<int>,
    found: Seq<RuntimeTraceEvent>,
    parsed: Seq<Option<RuntimeTraceEvent>>,
    limit: int,
    event_filter: Option<Seq<char>>,
    contains: Option<Seq<char>>,
) -> bool {
    &&& at.len() == found.len()
    &&& at.len() <= limit
    &&& forall|i: int|
        0 <= i < at.len() ==> 0 <= #[trigger] at[i] < parsed.len() && parsed[at[i]] == Some(found[i])
            && is_match(parsed[at[i]], event_filter, contains)
    &&& forall|i: int, j: int| 0 <= i < j < at.len() ==> #[trigger] at[i] > #[trigger] at[j]
    &&& forall|q: int|
        0 <= q < parsed.len() && is_match(#[trigger] parsed[q], event_filter, contains)
            ==> at.contains(q) || (at.len() == limit && forall|i: int|
            0 <= i < at.len() ==> q < #[trigger] at[i])
}

spec fn match_positions(
    parsed: Seq<Option<RuntimeTraceEvent>>,
    event_filter: Option<Seq<char>>,
    contains: Option<Seq<char>>,
) -> Seq<int>
    decreases parsed.len(),
{
    if parsed.len() == 0 {
        Seq::empty()
    } else {
        let before = match_positions(parsed.drop_last(), event_filter, contains);
        if is_match(parsed.last(), event_filter, contains) {
            before.push(parsed.len() - 1)
        } else {
            before
        }
    }
}

proof fn positions_are_the_matches(
    parsed: Seq<Option<RuntimeTraceEvent>>,
    event_filter: Option<Seq<char>>,
    contains: Option<Seq<char>>,
)
    ensures
        ({
            let at = match_positions(parsed, event_filter, contains);
            let all = matching(readable(parsed), normalized(event_filter), normalized(contains));
            &&& at.len() == all.len()
            &&& forall|i: int|
                0 <= i < at.len() ==> 0 <= #[trigger] at[i] < parsed.len() && parsed[at[i]] == Some(
                    all[i],
                ) && is_match(parsed[at[i]], event_filter, contains)
            &&& forall|i: int, j: int| 0 <= i < j < at.len() ==> #[trigger] at[i] < #[trigger] at[j]
            &&& forall|q: int|
                0 <= q < parsed.len() && is_match(#[trigger] parsed[q], event_filter, contains)
                    ==> at.contains(q)
        }),
    decreases parsed.len(),
{
    if parsed.len() > 0 {
        let init = parsed.drop_last();
        positions_are_the_matches(init, event_filter, contains);
        let w = normalized(event_filter);
        let n = normalized(contains);
        let old_at = match_positions(init, event_filter, contains);
        let at = match_positions(parsed, event_filter, contains);
        let old_all = matching(readable(init), w, n);
        let all = matching(readable(parsed), w, n);
        if let Some(e) = parsed.last() {
            assert(readable(parsed).drop_last() =~= readable(init));
            assert(readable(parsed).last() == e);
        }
        assert forall|i: int| 0 <= i < at.len() implies 0 <= #[trigger] at[i] < parsed.len()
            && parsed[at[i]] == Some(all[i]) && is_match(parsed[at[i]], event_filter, contains) by {
            if i < old_at.len() {
                assert(at[i] == old_at[i]);
                assert(init[old_at[i]] == parsed[old_at[i]]);
                assert(all[i] == old_all[i]);
            }
        }
        assert forall|i: int, j: int| 0 <= i < j < at.len() implies #[trigger] at[i]
            < #[trigger] at[j] by {
            assert(at[i] == old_at[i]);
            if j < old_at.len() {
                assert(at[j] == old_at[j]);
            }
        }
        assert forall|q: int|
            0 <= q < parsed.len() && is_match(#[trigger] parsed[q], event_filter, contains) implies at.contains(
            q,
        ) by {
            if q < init.len() {
                assert(init[q] == parsed[q]);
                let k = choose|k: int| 0 <= k < old_at.len() && old_at[k] == q;
                assert(at[k] == q);
            } else {
                assert(at[at.len() - 1] == q);
            }
        }
    }
}

/// A search is complete: it looks at the whole trace. Every entry that could be read
/// and passes the filters is found, unless as many later ones are as may be.
pub proof fn search_is_complete(
    parsed: Seq<Option<RuntimeTraceEvent>>,
    limit: int,
    event_filter: Option<Seq<char>>,
    contains: Option<Seq<char>>,
)
    requires
        limit >= 0,
    ensures
        exists|at: Seq<int>| #[trigger]
            lists_latest_matches(
                at,
                found_events(parsed, limit, event_filter, contains),
                parsed,
                limit,
                event_filter,
                contains,
            ),
{
    positions_are_the_matches(parsed, event_filter, contains);
    let all = matching(readable(parsed), normalized(event_filter), normalized(contains));
    let every = match_positions(parsed, event_filter, contains);
    let found = found_events(parsed, limit, event_filter, contains);
    let at = Seq::new(found.len(), |i: int| every[every.len() - 1 - i]);
    assert forall|i: int| 0 <= i < at.len() implies 0 <= #[trigger] at[i] < parsed.len()
        && parsed[at[i]] == Some(found[i]) && is_match(parsed[at[i]], event_filter, contains) by {
        let k = every.len() - 1 - i;
        assert(at[i] == every[k]);
        assert(found[i] == all[k]);
    }
    assert forall|i: int, j: int| 0 <= i < j < at.len() implies #[trigger] at[i] > #[trigger] at[j] by {
        assert(every[every.len() - 1 - j] < every[every.len() - 1 - i]);
    }
    assert forall|q: int|
        0 <= q < parsed.len() && is_match(#[trigger] parsed[q], event_filter, contains) implies at.contains(
        q,
    ) || (at.len() == limit && forall|i: int| 0 <= i < at.len() ==> q < #[trigger] at[i]) by {
        let k = choose|k: int| 0 <= k < every.len() && every[k] == q;
        let i = every.len() - 1 - k;
        if i < at.len() {
            assert(at[i] == q);
        } else {
            assert forall|j: int| 0 <= j < at.len() implies q < #[trigger] at[j] by {
                assert(every[k] < every[every.len() - 1 - j]);
            }
        }
    }
    assert(lists_latest_matches(at, found, parsed, limit, event_filter, contains));
}

/// A type filter wants the whole type, in any case and with space around; a blank
/// filter wants every type.
pub proof fn type_filter_wants_the_type(e: RuntimeTraceEvent, filter: Seq<char>)
    ensures
        text::trim_spec(filter).len() == 0 ==> has_type(e, normalized(Some(filter))),
        text::trim_spec(filter).len() > 0 ==> (has_type(e, normalized(Some(filter))) <==> text::lower(
            e.event_type@,
        ) == text::lower(text::trim_spec(filter))),
        has_type(e, normalized(None)),
{
}

/// A text filter is looked for in the type, the message, the payload, the channel,
/// the provider and the model of an event, in any case and with space around; a
/// blank filter passes every event.
pub proof fn text_filter_looks_everywhere(e: RuntimeTraceEvent, filter: Seq<char>)
    ensures
        mentions(e, normalized(None)),
        text::trim_spec(filter).len() == 0 ==> mentions(e, normalized(Some(filter))),
        ({
            let needle = text::lower(text::trim_spec(filter));
            let found = mentions(e, normalized(Some(filter)));
            &&& text::contains_spec(text::lower(e.event_type@), needle) ==> found
            &&& text::contains_spec(text::lower(json::json_text(e.payload@)), needle) ==> found
            &&& (e.message matches Some(t) ==> text::contains_spec(text::lower(t@), needle)
                ==> found)
            &&& (e.channel matches Some(t) ==> text::contains_spec(text::lower(t@), needle)
                ==> found)
            &&& (e.provider matches Some(t) ==> text::contains_spec(text::lower(t@), needle)
                ==> found)
            &&& (e.model matches Some(t) ==> text::contains_spec(text::lower(t@), needle)
                ==> found)
        }),
{
    let needle = text::lower(text::trim_spec(filter));
    let kind = e.event_type@;
    let message = text_or_empty(e.message);
    let payload = json::json_text(e.payload@);
    let channel = text_or_empty(e.channel);
    let provider = text_or_empty(e.provider);
    let model = text_or_empty(e.model);
    let before_message = kind + " "@;
    let before_payload = before_message + message + " "@;
    let before_channel = before_payload + payload;
    let before_provider = before_channel + channel;
    let before_model = before_provider + provider;
    assert(before_model + model == haystack(e));
    last_part_is_mentioned(before_model, model, needle);
    more_text_mentions_more(before_model, model, needle);
    last_part_is_mentioned(before_provider, provider, needle);
    more_text_mentions_more(before_provider, provider, needle);
    last_part_is_mentioned(before_channel, channel, needle);
    more_text_mentions_more(before_channel, channel, needle);
    last_part_is_mentioned(before_payload, payload, needle);
    more_text_mentions_more(before_payload, payload, needle);
    more_text_mentions_more(before_message + message, " "@, needle);
    last_part_is_mentioned(before_message, message, needle);
    more_text_mentions_more(before_message, message, needle);
    more_text_mentions_more(kind, " "@, needle);
}

proof fn last_part_is_mentioned(before: Seq<char>, part: Seq<char>, needle: Seq<char>)
    ensures
        text::contains_spec(text::lower(part), needle) ==> text::contains_spec(
            text::lower(before + part),
            needle,
        ),
{
    text::lower_concat(before, part);
    let nothing = Seq::<char>::empty();
    if text::contains_spec(text::lower(part), needle) {
        text::part_is_searched(text::lower(before), text::lower(part), nothing, needle);
        assert(text::lower(before) + text::lower(part) + nothing =~= text::lower(before)
            + text::lower(part));
    }
}

proof fn more_text_mentions_more(before: Seq<char>, part: Seq<char>, needle: Seq<char>)
    ensures
        text::contains_spec(text::lower(before), needle) ==> text::contains_spec(
            text::lower(before + part),
            needle,
        ),
{
    text::lower_concat(before, part);
    let nothing = Seq::<char>::empty();
    if text::contains_spec(text::lower(before), needle) {
        text::part_is_searched(nothing, text::lower(before), text::lower(part), needle);
        assert(nothing + text::lower(before) + text::lower(part) =~= text::lower(before)
            + text::lower(part));
    }
}

/// Nothing else of an event is looked into: events that agree on those six parts pass
/// the same filters.
pub proof fn search_looks_nowhere_else(
    a: RuntimeTraceEvent,
    b: RuntimeTraceEvent,
    event_filter: Option<Seq<char>>,
    contains: Option<Seq<char>>,
)
    requires
        a.event_type@ == b.event_type@,
        text::opt_text(a.message) == text::opt_text(b.message),
        a.payload@ == b.payload@,
        text::opt_text(a.channel) == text::opt_text(b.channel),
        text::opt_text(a.provider) == text::opt_text(b.provider),
        text::opt_text(a.model) == text::opt_text(b.model),
    ensures
        is_match(Some(a), event_filter, contains) == is_match(Some(b), event_filter, contains),
{
    assert(text_or_empty(a.message) == text_or_empty(b.message));
    assert(text_or_empty(a.channel) == text_or_empty(b.channel));
    assert(text_or_empty(a.provider) == text_or_empty(b.provider));
    assert(text_or_empty(a.model) == text_or_empty(b.model));
}

/// A needle is found where it stands in the parts of the event, written one behind the
/// other, and nowhere else.
pub proof fn found_text_stands_in_the_event(e: RuntimeTraceEvent, filter: Seq<char>)
    requires
        text::trim_spec(filter).len() > 0,
    ensures
        mentions(e, normalized(Some(filter))) <==> text::contains_spec(
            text::lower(
                e.event_type@ + " "@ + (match e.message {
                    Some(t) => t@,
                    None => Seq::empty(),
                }) + " "@ + json::json_text(e.payload@) + (match e.channel {
                    Some(t) => t@,
                    None => Seq::empty(),
                }) + (match e.provider {
                    Some(t) => t@,
                    None => Seq::empty(),
                }) + (match e.model {
                    Some(t) => t@,
                    None => Seq::empty(),
                }),
            ),
            text::lower(text::trim_spec(filter)),
        ),
{
}

/// The entry that is found by an id is the latest that could be read and has it; none
/// is found only where no entry has it.
pub proof fn lookup_finds_the_latest(parsed: Seq<Option<RuntimeTraceEvent>>, id: Seq<char>)
    ensures
        match last_with_id(readable(parsed), id) {
            Some(e) => e.id@ == id && exists|p: int|
                0 <= p < parsed.len() && #[trigger] parsed[p] == Some(e) && forall|q: int|
                    p < q < parsed.len() ==> !has_id(#[trigger] parsed[q], id),
            None => forall|q: int| 0 <= q < parsed.len() ==> !has_id(#[trigger] parsed[q], id),
        },
    decreases parsed.len(),
{
    if parsed.len() > 0 {
        let init = parsed.drop_last();
        let last = parsed.len() - 1;
        lookup_finds_the_latest(init, id);
        if let Some(e) = parsed.last() {
            assert(readable(parsed).drop_last() =~= readable(init));
            assert(readable(parsed).last() == e);
        }
        if has_id(parsed[last], id) {
            assert(parsed[last] == parsed.last());
        } else {
            match last_with_id(readable(init), id) {
                Some(e) => {
                    let p = choose|p: int|
                        0 <= p < init.len() && #[trigger] init[p] == Some(e) && forall|q: int|
                            p < q < init.len() ==> !has_id(#[trigger] init[q], id);
                    assert(parsed[p] == Some(e));
                    assert forall|q: int| p < q < parsed.len() implies !has_id(
                        #[trigger] parsed[q],
                        id,
                    ) by {
                        if q < last {
                            assert(init[q] == parsed[q]);
                        }
                    }
                },
                None => {
                    assert forall|q: int| 0 <= q < parsed.len() implies !has_id(
                        #[trigger] parsed[q],
                        id,
                    ) by {
                        if q < last {
                            assert(init[q] == parsed[q]);
                        }
                    }
                },
            }
        }
    }
}

/// The entry could be read and has the id.
pub open spec fn has_id(entry: Option<RuntimeTraceEvent>, id: Seq<char>) -> bool {
    match entry {
        Some(e) => e.id@ == id,
        None => false,
    }
}

/// Settings name a mode by its word and nothing but its word.
pub proof fn modes_have_names(raw: Seq<char>)
    ensures
        mode_of(raw) == RuntimeTraceStorageMode::Rolling <==> text::lower(text::trim_spec(raw))
            == "rolling"@,
        mode_of(raw) == RuntimeTraceStorageMode::Full <==> text::lower(text::trim_spec(raw))
            == "full"@,
        mode_is_unknown(raw) ==> mode_of(raw) == RuntimeTraceStorageMode::Off,
        mode_is_unknown(raw) <==> text::lower(text::trim_spec(raw)) != "rolling"@ && text::lower(
            text::trim_spec(raw),
        ) != "full"@ && text::trim_spec(raw).len() > 0 && text::lower(raw) != "none"@,
{
    reveal_strlit("rolling");
    reveal_strlit("full");
    assert("rolling"@.len() != "full"@.len());
}

/// The trace is put where the setting says: an absolute path is taken as it is, a
/// relative one stands below the workspace, and a blank one is the default.
pub proof fn trace_is_put_where_configured(configured: Seq<char>, workspace: Seq<char>)
    ensures
        ({
            let raw = text::trim_spec(configured);
            let at = trace_path(configured, workspace);
            &&& raw.len() > 0 && raw[0] == '/' ==> at == raw
            &&& raw.len() > 0 && workspace.len() == 0 ==> at == raw
            &&& raw.len() > 0 && raw[0] != '/' && workspace.len() > 0 ==> at.take(
                workspace.len() as int,
            ) == workspace && at.skip(at.len() - raw.len()) == raw && at.len() == workspace.len()
                + raw.len() + (if workspace.last() == '/' {
                0int
            } else {
                1int
            }) && at[at.len() - raw.len() - 1] == '/'
            &&& raw.len() == 0 && workspace.len() > 0 ==> at.skip(
                at.len() - "state/runtime-trace.jsonl"@.len(),
            ) == "state/runtime-trace.jsonl"@ && at.take(workspace.len() as int) == workspace
        }),
{
    reveal_strlit("/");
    reveal_strlit("state/runtime-trace.jsonl");
    let raw = text::trim_spec(configured);
    let at = trace_path(configured, workspace);
    let named = named_path(configured);
    if workspace.len() > 0 {
        assert(named.len() > 0 && named[0] != '/' ==> at.take(workspace.len() as int) =~= workspace);
        assert(named.len() > 0 && named[0] != '/' ==> at.skip(at.len() - named.len()) =~= named);
    }
}

/// An event is written where there is a logger that is not off.
pub proof fn tracing_needs_a_logger(logger: RuntimeTraceLogger)
    ensures
        !is_tracing(None),
        is_tracing(Some(&logger)) <==> logger.keeps() == RuntimeTraceStorageMode::Rolling
            || logger.keeps() == RuntimeTraceStorageMode::Full,
{
}

/// A request that could be written as JSON is traced as it is; one that could not is
/// traced as a failure, with the reason.
pub proof fn failed_requests_are_told_apart(payload: Json, reason: String)
    ensures
        request_outcome(Ok(payload)).0 is None,
        request_outcome(Ok(payload)).1 is None,
        request_outcome(Ok(payload)).2 == payload@,
        request_outcome(Err(reason)).0 == Some(false),
        request_outcome(Err(reason)).1 is Some,
        text::contains_spec(request_outcome(Err(reason)).1->0, reason@),
        text::starts_with_spec(request_outcome(Err(reason)).1->0, "serialization failed: "@),
        request_outcome(Err(reason)).2 == JsonView::Null,
{
    let head = "serialization failed: "@;
    let told = head + reason@;
    assert(told.subrange(head.len() as int, (head.len() + reason@.len()) as int) =~= reason@);
    assert(text::occurs_at(told, reason@, head.len() as int));
    assert(told.take(head.len() as int) =~= head);
}

/// A file that holds no more entries than may be is left alone, and one that holds
/// more is cut down to the last ones.
pub proof fn trimming_keeps_the_last(logger: RuntimeTraceLogger, content: Seq<char>)
    requires
        logger.limit() >= 1,
    ensures
        ({
            let entries = text::entry_lines(content);
            &&& entries.len() <= logger.limit() ==> logger.trimmed(content) is None
            &&& entries.len() > logger.limit() ==> logger.trimmed(content) is Some && ({
                let left = text::entry_lines(logger.trimmed(content)->0);
                &&& left.len() == logger.limit()
                &&& forall|i: int|
                    0 <= i < left.len() ==> #[trigger] left[i] == entries[entries.len()
                        - logger.limit() + i]
            })
        }),
{
    let entries = text::entry_lines(content);
    text::entries_are_clean(content);
    let kept = last_entries(entries, logger.limit());
    assert forall|i: int| 0 <= i < kept.len() implies text::is_entry(#[trigger] kept[i]) by {
        assert(text::is_entry(entries[i + entries.len() - kept.len()]));
    }
    file_of_entries(kept);
}

/// A trace that is off leaves the file as it is.
pub proof fn off_writes_nothing(logger: RuntimeTraceLogger, content: Seq<char>, line: Seq<char>)
    requires
        logger.keeps() == RuntimeTraceStorageMode::Off,
    ensures
        logger.file_after(content, line) == content,
{
}

/// What an event says is what it holds, field by field.
pub proof fn events_say_what_they_hold(e: RuntimeTraceEvent)
    ensures
        e@.id == e.id@,
        e@.timestamp == e.timestamp@,
        e@.event_type == e.event_type@,
        e@.channel == text::opt_text(e.channel),
        e@.provider == text::opt_text(e.provider),
        e@.model == text::opt_text(e.model),
        e@.session_id == text::opt_text(e.session_id),
        e@.turn_id == text::opt_text(e.turn_id),
        e@.success == e.success,
        e@.message == text::opt_text(e.message),
        e@.payload == e.payload@,
{
}

} // verus!
