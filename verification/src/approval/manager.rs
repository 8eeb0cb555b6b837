//! Deciding which tool calls need approval, and keeping what was decided.

use crate::approval::summary;
use crate::clock::{self, Timestamp};
use crate::config::AutonomyConfig;
use crate::json::{Json, JsonView};
use crate::security::{AutonomyLevel, CommandRiskLevel, SecurityPolicy};
use crate::text;
use vstd::prelude::*;
use vstd::string::*;

verus! {

// ── Requests and answers ────────────────────────────────────────────

/// A request to approve a tool call.
#[derive(Debug)]
pub struct ApprovalRequest {
    pub tool_name: String,
    pub arguments: Json,
    /// Finds the answer to this request.
    pub request_id: String,
    pub channel: String,
    /// Who is asked.
    pub recipient: String,
    /// The thread in which to ask.
    pub thread_ts: Option<String>,
    /// The risk of a shell command.
    pub risk_level: Option<CommandRiskLevel>,
    pub created_at: Option<Timestamp>,
}

impl ApprovalRequest {
    /// This request asks about the given call and says nothing of where and
    /// whom to ask.
    pub open spec fn is_bare(&self, tool_name: Seq<char>, arguments: JsonView) -> bool {
        &&& self.tool_name@ == tool_name
        &&& self.arguments@ == arguments
        &&& self.channel@ == Seq::<char>::empty()
        &&& self.recipient@ == Seq::<char>::empty()
        &&& self.thread_ts is None
        &&& self.risk_level is None
    }

    /// A request about a call, with a fresh id and the time of now.
    pub fn new(tool_name: String, arguments: Json) -> (r: Self)
        ensures
            r.is_bare(tool_name@, arguments@),
            clock::is_random_uuid(r.request_id@),
            r.created_at is Some,
            r.created_at->0.secs >= 0,
            r.created_at->0.nanos < 1_000_000_000,
    {
        Self::with_identity(tool_name, arguments, clock::random_uuid(), clock::utc_now())
    }

    /// A request about a call, with a given id and time.
    pub fn with_identity(
        tool_name: String,
        arguments: Json,
        request_id: String,
        created_at: Timestamp,
    ) -> (r: Self)
        ensures
            r.is_bare(tool_name@, arguments@),
            r.request_id@ == request_id@,
            r.created_at == Some(created_at),
    {
        ApprovalRequest {
            tool_name,
            arguments,
            request_id,
            channel: String::new(),
            recipient: String::new(),
            thread_ts: None,
            risk_level: None,
            created_at: Some(created_at),
        }
    }
}

impl Clone for ApprovalRequest {
    fn clone(&self) -> (r: Self)
        ensures
            r.tool_name@ == self.tool_name@,
            r.arguments@ == self.arguments@,
            r.request_id@ == self.request_id@,
            r.channel@ == self.channel@,
            r.recipient@ == self.recipient@,
            text::opt_text(r.thread_ts) == text::opt_text(self.thread_ts),
            r.risk_level == self.risk_level,
            r.created_at == self.created_at,
    {
        ApprovalRequest {
            tool_name: self.tool_name.clone(),
            arguments: self.arguments.clone(),
            request_id: self.request_id.clone(),
            channel: self.channel.clone(),
            recipient: self.recipient.clone(),
            thread_ts: self.thread_ts.clone(),
            risk_level: self.risk_level,
            created_at: self.created_at,
        }
    }
}

/// The answer to an approval request.
#[derive(Debug, Clone, Copy, PartialEq, Eq, Structural)]
pub enum ApprovalResponse {
    /// Run this one call.
    Yes,
    /// Do not run this call.
    No,
    /// Run this call, and the tool for the rest of the session.
    Always,
    /// Nobody answered in time.
    Timeout,
}

impl ApprovalResponse {
    /// The call may run.
    pub open spec fn grants(self) -> bool {
        self == ApprovalResponse::Yes || self == ApprovalResponse::Always
    }
}

/// What became of an approval request that was sent over a channel.
#[derive(Debug, Clone, Copy, PartialEq, Eq, Structural)]
pub enum ApprovalOutcome {
    /// The prompt could not be delivered.
    NotDelivered,
    /// The user answered.
    Answered(ApprovalResponse),
    /// The channel failed before an answer came.
    Failed,
    /// No answer came in time.
    TimedOut,
}

impl ApprovalOutcome {
    /// The decision that the outcome amounts to: failures are denials.
    pub open spec fn decision(self) -> ApprovalResponse {
        match self {
            ApprovalOutcome::NotDelivered => ApprovalResponse::No,
            ApprovalOutcome::Answered(response) => response,
            ApprovalOutcome::Failed => ApprovalResponse::No,
            ApprovalOutcome::TimedOut => ApprovalResponse::Timeout,
        }
    }
}

/// One decision in the log.
#[derive(Debug)]
pub struct ApprovalLogEntry {
    pub timestamp: String,
    pub tool_name: String,
    pub arguments_summary: String,
    pub decision: ApprovalResponse,
    pub channel: String,
    /// The risk of a shell command.
    pub risk_level: Option<String>,
    /// The request that was answered.
    pub request_id: Option<String>,
    /// How long the answer took.
    pub response_time_ms: Option<u64>,
}

/// What an [`ApprovalLogEntry`] says.
#[verifier::ext_equal]
pub struct LogView {
    pub timestamp: Seq<char>,
    pub tool_name: Seq<char>,
    pub arguments_summary: Seq<char>,
    pub decision: ApprovalResponse,
    pub channel: Seq<char>,
    pub risk_level: Option<Seq<char>>,
    pub request_id: Option<Seq<char>>,
    pub response_time_ms: Option<u64>,
}

impl ApprovalLogEntry {
    /// What this entry says.
    pub open spec fn says(&self) -> LogView {
        LogView {
            timestamp: self.timestamp@,
            tool_name: self.tool_name@,
            arguments_summary: self.arguments_summary@,
            decision: self.decision,
            channel: self.channel@,
            risk_level: text::opt_text(self.risk_level),
            request_id: text::opt_text(self.request_id),
            response_time_ms: self.response_time_ms,
        }
    }
}

impl Clone for ApprovalLogEntry {
    fn clone(&self) -> (r: Self)
        ensures
            r.says() == self.says(),
    {
        ApprovalLogEntry {
            timestamp: self.timestamp.clone(),
            tool_name: self.tool_name.clone(),
            arguments_summary: self.arguments_summary.clone(),
            decision: self.decision,
            channel: self.channel.clone(),
            risk_level: self.risk_level.clone(),
            request_id: self.request_id.clone(),
            response_time_ms: self.response_time_ms,
        }
    }
}

/// What a list of entries says.
pub open spec fn log_views(entries: Seq<ApprovalLogEntry>) -> Seq<LogView> {
    entries.map_values(|e: ApprovalLogEntry| e.says())
}

// ── The rules ───────────────────────────────────────────────────────

/// What an [`ApprovalManager`] knows.
#[verifier::ext_equal]
pub struct ApprovalState {
    pub level: AutonomyLevel,
    pub non_interactive: bool,
    pub auto_approve: Set<Seq<char>>,
    pub always_ask: Set<Seq<char>>,
    pub timeout_secs: u64,
    /// The tools that were answered with "Always" in this session.
    pub session: Set<Seq<char>>,
    pub log: Seq<LogView>,
}

impl ApprovalState {
    /// The user is asked about this tool whatever was answered before.
    pub open spec fn always_asks(self, tool: Seq<char>) -> bool {
        self.always_ask.contains("*"@) || self.always_ask.contains(tool)
    }

    /// The configuration lets this tool run without asking.
    pub open spec fn auto_approves(self, tool: Seq<char>) -> bool {
        self.auto_approve.contains("*"@) || self.auto_approve.contains(tool)
    }

    /// The user has to be asked before this tool runs.
    pub open spec fn needs_approval(self, tool: Seq<char>) -> bool {
        self.level == AutonomyLevel::Supervised && (self.always_asks(tool) || !(
        self.non_interactive && tool == "shell"@) && !self.auto_approves(tool)
            && !self.session.contains(tool))
    }

    /// The state after a decision was written to the log.
    pub open spec fn logged(self, entry: LogView) -> ApprovalState {
        ApprovalState { log: self.log.push(entry), ..self }
    }

    /// The state after a decision of the user: it is logged, and "Always" is
    /// kept for the session unless the tool is always asked about.
    pub open spec fn decided(self, entry: LogView) -> ApprovalState {
        if entry.decision == ApprovalResponse::Always && !self.always_asks(entry.tool_name) {
            ApprovalState {
                log: self.log.push(entry),
                session: self.session.insert(entry.tool_name),
                ..self
            }
        } else {
            self.logged(entry)
        }
    }

    /// The state after decisions of the user, one after the other.
    pub open spec fn decided_all(self, entries: Seq<LogView>) -> ApprovalState
        decreases entries.len(),
    {
        if entries.len() == 0 {
            self
        } else {
            self.decided_all(entries.drop_last()).decided(entries.last())
        }
    }

    /// No tool that is always asked about is in the session's list.
    pub open spec fn consistent(self) -> bool {
        forall|tool: Seq<char>| #[trigger] self.session.contains(tool) ==> !self.always_asks(tool)
    }
}

/// A shell command of this risk needs approval.
pub open spec fn risk_asks(level: AutonomyLevel, risk: CommandRiskLevel, ask_medium: bool) -> bool {
    level == AutonomyLevel::Supervised && match risk {
        CommandRiskLevel::Low => false,
        CommandRiskLevel::Medium => ask_medium,
        CommandRiskLevel::High => true,
    }
}

/// `e` is the log entry of a decision about a call.
pub open spec fn is_entry(
    e: LogView,
    tool: Seq<char>,
    args: JsonView,
    decision: ApprovalResponse,
    channel: Seq<char>,
) -> bool {
    &&& e.tool_name == tool
    &&& e.arguments_summary == summary::summary(args)
    &&& args is Null ==> e.arguments_summary == "null"@
    &&& e.decision == decision
    &&& e.channel == channel
    &&& clock::is_utc_text(e.timestamp)
}

/// `e` carries nothing about a request over a channel.
pub open spec fn is_local(e: LogView) -> bool {
    e.risk_level is None && e.request_id is None && e.response_time_ms is None
}

/// The name of a risk level in the log.
pub open spec fn logged_risk(risk: Option<CommandRiskLevel>) -> Option<Seq<char>> {
    match risk {
        Some(level) => Some(text::lower(level.spec_name())),
        None => None,
    }
}

// ── The manager ─────────────────────────────────────────────────────

/// Decides which tool calls need approval and keeps what was decided.
#[derive(Debug)]
pub struct ApprovalManager {
    auto_approve: Vec<String>,
    always_ask: Vec<String>,
    autonomy_level: AutonomyLevel,
    non_interactive: bool,
    approval_timeout_secs: u64,
    session_allowlist: Vec<String>,
    audit_log: Vec<ApprovalLogEntry>,
}

impl View for ApprovalManager {
    type V = ApprovalState;

    closed spec fn view(&self) -> ApprovalState {
        ApprovalState {
            level: self.autonomy_level,
            non_interactive: self.non_interactive,
            auto_approve: text::texts(self.auto_approve@).to_set(),
            always_ask: text::texts(self.always_ask@).to_set(),
            timeout_secs: self.approval_timeout_secs,
            session: text::texts(self.session_allowlist@).to_set(),
            log: log_views(self.audit_log@),
        }
    }
}

/// The state that a configuration starts with.
pub open spec fn initial_state(config: AutonomyConfig, non_interactive: bool) -> ApprovalState {
    ApprovalState {
        level: config.level,
        non_interactive,
        auto_approve: text::texts(config.auto_approve@).to_set(),
        always_ask: text::texts(config.always_ask@).to_set(),
        timeout_secs: config.approval_timeout_secs,
        session: Set::empty(),
        log: Seq::empty(),
    }
}

impl ApprovalManager {
    /// The session's list names no tool twice and none that is always asked
    /// about.
    #[verifier::type_invariant]
    spec fn well_formed(self) -> bool {
        &&& text::texts(self.session_allowlist@).no_duplicates()
        &&& self@.consistent()
    }

    fn start(config: &AutonomyConfig, non_interactive: bool) -> (r: Self)
        ensures
            r@ == initial_state(*config, non_interactive),
    {
        let r = ApprovalManager {
            auto_approve: text::copy_texts(&config.auto_approve),
            always_ask: text::copy_texts(&config.always_ask),
            autonomy_level: config.level,
            non_interactive,
            approval_timeout_secs: config.approval_timeout_secs,
            session_allowlist: Vec::new(),
            audit_log: Vec::new(),
        };
        assert(r@.session =~= Set::empty());
        assert(r@.log =~= Seq::empty());
        r
    }

    /// A manager whose user can be asked.
    pub fn from_config(config: &AutonomyConfig) -> (r: Self)
        ensures
            r@ == initial_state(*config, false),
    {
        Self::start(config, false)
    }

    /// A manager for runs on a channel that cannot ask. Calls that need approval
    /// are denied there.
    pub fn for_non_interactive(config: &AutonomyConfig) -> (r: Self)
        ensures
            r@ == initial_state(*config, true),
    {
        Self::start(config, true)
    }

    /// Whether nobody can be asked.
    pub fn is_non_interactive(&self) -> (r: bool)
        ensures
            r == self@.non_interactive,
    {
        self.non_interactive
    }

    fn always_asks(&self, tool_name: &str) -> (r: bool)
        ensures
            r == self@.always_asks(tool_name@),
    {
        text::lists(&self.always_ask, "*") || text::lists(&self.always_ask, tool_name)
    }

    /// Whether the user has to be asked before a tool runs.
    pub fn needs_approval(&self, tool_name: &str) -> (r: bool)
        ensures
            r == self@.needs_approval(tool_name@),
    {
        match self.autonomy_level {
            AutonomyLevel::Full => {
                return false;
            },
            AutonomyLevel::ReadOnly => {
                return false;
            },
            AutonomyLevel::Supervised => {},
        }
        if self.always_asks(tool_name) {
            return true;
        }
        if self.non_interactive && text::same_text(tool_name, "shell") {
            return false;
        }
        if text::lists(&self.auto_approve, "*") || text::lists(
            &self.auto_approve,
            tool_name,
        ) {
            return false;
        }
        !text::lists(&self.session_allowlist, tool_name)
    }

    /// Whether a command of the given risk needs approval.
    pub fn risk_needs_approval(&self, risk: CommandRiskLevel, ask_medium: bool) -> (r: bool)
        ensures
            r == risk_asks(self@.level, risk, ask_medium),
    {
        match self.autonomy_level {
            AutonomyLevel::Full => false,
            AutonomyLevel::ReadOnly => false,
            AutonomyLevel::Supervised => match risk {
                CommandRiskLevel::Low => false,
                CommandRiskLevel::Medium => ask_medium,
                CommandRiskLevel::High => true,
            },
        }
    }

    /// Whether a shell command needs approval, by its risk under the policy.
    pub fn needs_shell_approval(&self, command: &str, policy: &SecurityPolicy) -> (r: bool)
        ensures
            r == risk_asks(
                self@.level,
                policy.risk(command@),
                policy.require_approval_for_medium_risk,
            ),
    {
        self.risk_needs_approval(
            policy.command_risk_level(command),
            policy.require_approval_for_medium_risk,
        )
    }

    /// Writes a decision to the log.
    pub fn record_decision_ext(
        &mut self,
        tool_name: &str,
        args: &Json,
        decision: ApprovalResponse,
        channel: &str,
        risk_level: Option<String>,
        request_id: Option<String>,
        response_time_ms: Option<u64>,
    )
        ensures
            final(self)@.log.len() == old(self)@.log.len() + 1,
            final(self)@ == old(self)@.logged(final(self)@.log.last()),
            is_entry(final(self)@.log.last(), tool_name@, args@, decision, channel@),
            final(self)@.log.last().risk_level == text::opt_text(risk_level),
            final(self)@.log.last().request_id == text::opt_text(request_id),
            final(self)@.log.last().response_time_ms == response_time_ms,
    {
        let entry = ApprovalLogEntry {
            timestamp: clock::utc_now_rfc3339(),
            tool_name: tool_name.to_string(),
            arguments_summary: summary::summarize_args(args),
            decision,
            channel: channel.to_string(),
            risk_level,
            request_id,
            response_time_ms,
        };
        self.log_entry(entry);
    }

    /// Writes an entry to the log.
    pub fn log_entry(&mut self, entry: ApprovalLogEntry)
        ensures
            final(self)@ == old(self)@.logged(entry.says()),
    {
        proof {
            use_type_invariant(&*self);
        }
        let ghost before = self.audit_log@;
        let mut log: Vec<ApprovalLogEntry> = Vec::new();
        std::mem::swap(&mut log, &mut self.audit_log);
        log.push(entry);
        assert(log_views(log@) =~= log_views(before).push(entry.says()));
        self.audit_log = log;
    }

    /// Keeps an "Always" for the session unless the tool is always asked about.
    fn remember(&mut self, tool_name: &str, decision: ApprovalResponse)
        ensures
            final(self)@ == (if decision == ApprovalResponse::Always && !old(self)@.always_asks(
                tool_name@,
            ) {
                ApprovalState { session: old(self)@.session.insert(tool_name@), ..old(self)@ }
            } else {
                old(self)@
            }),
    {
        proof {
            use_type_invariant(&*self);
        }
        if decision == ApprovalResponse::Always && !self.always_asks(tool_name) {
            if text::lists(&self.session_allowlist, tool_name) {
                assert(self@.session.insert(tool_name@) =~= self@.session);
            } else {
                let ghost before = text::texts(self.session_allowlist@);
                let mut tools: Vec<String> = Vec::new();
                std::mem::swap(&mut tools, &mut self.session_allowlist);
                tools.push(tool_name.to_string());
                let ghost after = text::texts(tools@);
                assert(after =~= before.push(tool_name@));
                assert(after.to_set() =~= before.to_set().insert(tool_name@)) by {
                    assert forall|t: Seq<char>| after.contains(t) == (before.contains(t) || t
                        == tool_name@) by {
                        if before.contains(t) {
                            let i = choose|i: int| 0 <= i < before.len() && before[i] == t;
                            assert(after[i] == t);
                        }
                        if t == tool_name@ {
                            assert(after[before.len() as int] == t);
                        }
                    }
                }
                self.session_allowlist = tools;
            }
        }
    }

    /// Logs that a call ran without asking.
    pub fn record_auto_approved(&mut self, tool_name: &str, channel: &str)
        ensures
            final(self)@.log.len() == old(self)@.log.len() + 1,
            final(self)@ == old(self)@.logged(final(self)@.log.last()),
            is_entry(
                final(self)@.log.last(),
                tool_name@,
                JsonView::Null,
                ApprovalResponse::Yes,
                channel@,
            ),
            is_local(final(self)@.log.last()),
    {
        self.record_decision_ext(
            tool_name,
            &Json::Null,
            ApprovalResponse::Yes,
            channel,
            None,
            None,
            None,
        );
    }

    /// Takes a decision of the user.
    pub fn record_decision(
        &mut self,
        tool_name: &str,
        args: &Json,
        decision: ApprovalResponse,
        channel: &str,
    )
        ensures
            final(self)@.log.len() == old(self)@.log.len() + 1,
            final(self)@ == old(self)@.decided(final(self)@.log.last()),
            is_entry(final(self)@.log.last(), tool_name@, args@, decision, channel@),
            is_local(final(self)@.log.last()),
    {
        self.record_decision_ext(tool_name, args, decision, channel, None, None, None);
        self.remember(tool_name, decision);
    }

    /// Takes what became of a request that was sent over a channel, and gives
    /// the decision. Every decision is logged, that of a request which could not
    /// be delivered too.
    pub fn request_approval(
        &mut self,
        channel: &str,
        request: &ApprovalRequest,
        outcome: ApprovalOutcome,
        elapsed_ms: u64,
    ) -> (r: ApprovalResponse)
        ensures
            r == outcome.decision(),
            ({
                let entry = final(self)@.log.last();
                &&& final(self)@.log.len() == old(self)@.log.len() + 1
                &&& final(self)@ == old(self)@.decided(entry)
                &&& is_entry(entry, request.tool_name@, request.arguments@, r, channel@)
                &&& entry.risk_level == logged_risk(request.risk_level)
                &&& entry.request_id == Some(request.request_id@)
                &&& entry.response_time_ms == Some(elapsed_ms)
            }),
    {
        let response = match outcome {
            ApprovalOutcome::NotDelivered => ApprovalResponse::No,
            ApprovalOutcome::Answered(response) => response,
            ApprovalOutcome::Failed => ApprovalResponse::No,
            ApprovalOutcome::TimedOut => ApprovalResponse::Timeout,
        };
        let risk_level = match &request.risk_level {
            Some(level) => Some(text::to_lower(level.name())),
            None => None,
        };
        self.record_decision_ext(
            request.tool_name.as_str(),
            &request.arguments,
            response,
            channel,
            risk_level,
            Some(request.request_id.clone()),
            Some(elapsed_ms),
        );
        self.remember(request.tool_name.as_str(), response);
        response
    }

    /// A copy of the log.
    pub fn audit_log(&self) -> (r: Vec<ApprovalLogEntry>)
        ensures
            log_views(r@) == self@.log,
    {
        let mut out: Vec<ApprovalLogEntry> = Vec::new();
        let mut i: usize = 0;
        while i < self.audit_log.len()
            invariant
                i <= self.audit_log@.len(),
                out@.len() == i,
                forall|k: int|
                    0 <= k < i ==> (#[trigger] out@[k]).says() == self.audit_log@[k].says(),
            decreases self.audit_log@.len() - i,
        {
            out.push(self.audit_log[i].clone());
            i += 1;
        }
        assert(log_views(out@) =~= log_views(self.audit_log@));
        out
    }

    /// The tools that were answered with "Always" in this session.
    pub fn session_allowlist(&self) -> (r: Vec<String>)
        ensures
            text::texts(r@).to_set() == self@.session,
            text::texts(r@).no_duplicates(),
            self@.consistent(),
    {
        proof {
            use_type_invariant(self);
        }
        text::copy_texts(&self.session_allowlist)
    }

    /// How long an approval prompt stays open, in seconds.
    pub fn approval_timeout(&self) -> (r: u64)
        ensures
            r == self@.timeout_secs,
    {
        self.approval_timeout_secs
    }

    /// The decision that a line typed at the prompt stands for; `None` where the
    /// line could not be read.
    pub fn prompt_cli(&self, line: Option<&str>) -> (r: ApprovalResponse)
        ensures
            r == match line {
                Some(input) => answer_of(input@),
                None => ApprovalResponse::No,
            },
    {
        match line {
            Some(input) => parse_approval_input(input),
            None => ApprovalResponse::No,
        }
    }
}

// ── The prompt ──────────────────────────────────────────────────────

/// What a typed answer means: anything but a yes or an always is a no.
pub open spec fn answer_of(input: Seq<char>) -> ApprovalResponse {
    let word = text::lower(text::trim_spec(input));
    if word == "y"@ || word == "yes"@ {
        ApprovalResponse::Yes
    } else if word == "a"@ || word == "always"@ {
        ApprovalResponse::Always
    } else {
        ApprovalResponse::No
    }
}

/// What a typed answer means. Case does not matter.
pub fn parse_approval_input(input: &str) -> (r: ApprovalResponse)
    ensures
        r == answer_of(input@),
{
    let trimmed = text::trim(input);
    let word = text::to_lower(trimmed.as_str());
    if text::same_text(word.as_str(), "y") || text::same_text(word.as_str(), "yes") {
        ApprovalResponse::Yes
    } else if text::same_text(word.as_str(), "a") || text::same_text(word.as_str(), "always") {
        ApprovalResponse::Always
    } else {
        ApprovalResponse::No
    }
}

/// The line that shows the risk of a request.
pub open spec fn risk_line(risk: Option<CommandRiskLevel>) -> Seq<char> {
    match risk {
        Some(level) => "   Risk: "@ + level.spec_name() + "\n"@,
        None => Seq::empty(),
    }
}

/// What the prompt shows.
pub open spec fn prompt_of(
    tool: Seq<char>,
    args_summary: Seq<char>,
    risk: Option<CommandRiskLevel>,
) -> Seq<char> {
    "\n🔧 Agent wants to execute: "@ + tool + "\n   "@ + args_summary + "\n"@ + risk_line(risk)
        + "   [Y]es / [N]o / [A]lways for "@ + tool + ": "@
}

/// What the prompt shows for a request.
pub fn prompt_cli_text(request: &ApprovalRequest) -> (r: String)
    ensures
        r@ == prompt_of(
            request.tool_name@,
            summary::summary(request.arguments@),
            request.risk_level,
        ),
{
    let args_summary = summary::summarize_args(&request.arguments);
    let mut out = "\n🔧 Agent wants to execute: ".to_string();
    out.append(request.tool_name.as_str());
    out.append("\n   ");
    out.append(args_summary.as_str());
    out.append("\n");
    let ghost head = out@;
    match &request.risk_level {
        Some(level) => {
            out.append("   Risk: ");
            out.append(level.name());
            out.append("\n");
        },
        None => {},
    }
    assert(out@ =~= head + risk_line(request.risk_level));
    out.append("   [Y]es / [N]o / [A]lways for ");
    out.append(request.tool_name.as_str());
    out.append(": ");
    out
}

} // verus!
