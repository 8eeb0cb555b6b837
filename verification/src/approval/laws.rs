//! What holds of approvals whatever is configured and whatever was answered.

use crate::approval::manager::{
    self, ApprovalLogEntry, ApprovalOutcome, ApprovalRequest, ApprovalResponse, ApprovalState, LogView,
};
use crate::config::{self, AutonomyConfig};
use crate::json::JsonView;
use crate::security::{AutonomyLevel, CommandRiskLevel};
use crate::text;
use vstd::prelude::*;
use vstd::string::*;

verus! {

/// Full autonomy never asks, and read-only mode has nothing to ask about.
pub proof fn only_supervision_asks(state: ApprovalState, tool: Seq<char>)
    requires
        state.level != AutonomyLevel::Supervised,
    ensures
        !state.needs_approval(tool),
{
}

/// A tool that is always asked about is asked about, whether or not it is also
/// approved by configuration or for the session.
pub proof fn always_ask_wins(state: ApprovalState, tool: Seq<char>)
    requires
        state.level == AutonomyLevel::Supervised,
        state.always_asks(tool),
    ensures
        state.needs_approval(tool),
{
}

/// A tool that the configuration approves is not asked about, unless it is
/// always asked about.
pub proof fn auto_approval_skips_prompt(state: ApprovalState, tool: Seq<char>)
    requires
        state.auto_approves(tool),
        !state.always_asks(tool),
    ensures
        !state.needs_approval(tool),
{
}

/// Under supervision a tool that nothing is known of is asked about.
pub proof fn unknown_tool_is_asked_about(state: ApprovalState, tool: Seq<char>)
    requires
        state.level == AutonomyLevel::Supervised,
        !state.auto_approves(tool),
        !state.session.contains(tool),
        !state.non_interactive || tool != "shell"@,
    ensures
        state.needs_approval(tool),
{
}

/// Where nobody can be asked the shell is left to its own guards, unless it is
/// always asked about.
pub proof fn shell_is_left_to_its_guards(state: ApprovalState)
    requires
        state.non_interactive,
        !state.always_asks("shell"@),
    ensures
        !state.needs_approval("shell"@),
{
}

/// After "Always" the tool is not asked about again, unless it is always asked
/// about.
pub proof fn always_is_kept(state: ApprovalState, entry: LogView)
    requires
        entry.decision == ApprovalResponse::Always,
        !state.always_asks(entry.tool_name),
    ensures
        !state.decided(entry).needs_approval(entry.tool_name),
{
}

/// "Always" does not silence a tool that is always asked about.
pub proof fn always_ask_outlives_always(state: ApprovalState, entry: LogView)
    requires
        state.always_asks(entry.tool_name),
    ensures
        state.decided(entry).needs_approval(entry.tool_name) == (state.level
            == AutonomyLevel::Supervised),
        state.decided(entry).session == state.session,
{
}

/// Any other answer leaves every later question as it was.
pub proof fn other_answers_change_nothing(state: ApprovalState, entry: LogView, tool: Seq<char>)
    requires
        entry.decision != ApprovalResponse::Always,
    ensures
        state.decided(entry).needs_approval(tool) == state.needs_approval(tool),
        state.decided(entry).session == state.session,
{
}

/// An answer about one tool says nothing about another.
pub proof fn answers_concern_one_tool(state: ApprovalState, entry: LogView, tool: Seq<char>)
    requires
        tool != entry.tool_name,
    ensures
        state.decided(entry).needs_approval(tool) == state.needs_approval(tool),
{
}

/// A decision never makes a tool asked about that was not asked about before.
pub proof fn decisions_only_relax(state: ApprovalState, entry: LogView, tool: Seq<char>)
    ensures
        state.decided(entry).needs_approval(tool) ==> state.needs_approval(tool),
{
}

/// The log only grows, by one entry per decision, and the configuration stays.
pub proof fn log_only_grows(state: ApprovalState, entry: LogView)
    ensures
        state.decided(entry).log == state.log.push(entry),
        state.logged(entry).log == state.log.push(entry),
        state.decided(entry).level == state.level,
        state.decided(entry).always_ask == state.always_ask,
        state.decided(entry).auto_approve == state.auto_approve,
        state.decided(entry).timeout_secs == state.timeout_secs,
{
}

/// Whatever was decided, the log holds all of it in order, the configuration is
/// as it was, and the session's list holds the tools that it held before and those
/// that were answered with "Always" and are not always asked about.
pub proof fn session_is_the_always_answers(state: ApprovalState, entries: Seq<LogView>)
    ensures
        ({
            let after = state.decided_all(entries);
            &&& after.log == state.log + entries
            &&& after.level == state.level
            &&& after.non_interactive == state.non_interactive
            &&& after.always_ask == state.always_ask
            &&& after.auto_approve == state.auto_approve
            &&& after.timeout_secs == state.timeout_secs
            &&& forall|tool: Seq<char>| #[trigger]
                after.session.contains(tool) <==> state.session.contains(tool) || (
                !state.always_asks(tool) && answered_always(entries, tool))
        }),
    decreases entries.len(),
{
    let after = state.decided_all(entries);
    if entries.len() == 0 {
        assert(state.log + entries =~= state.log);
    } else {
        let before = entries.drop_last();
        let last = entries.last();
        session_is_the_always_answers(state, before);
        assert((state.log + before).push(last) =~= state.log + entries);
        assert forall|tool: Seq<char>| #[trigger] after.session.contains(tool) <==> state.session.contains(
            tool,
        ) || (!state.always_asks(tool) && answered_always(entries, tool)) by {
            if answered_always(before, tool) {
                let i = choose|i: int|
                    0 <= i < before.len() && (#[trigger] before[i]).tool_name == tool
                        && before[i].decision == ApprovalResponse::Always;
                assert(entries[i] == before[i]);
            }
            if last.tool_name == tool && last.decision == ApprovalResponse::Always {
                assert(entries[entries.len() - 1] == last);
            }
            if answered_always(entries, tool) {
                let i = choose|i: int|
                    0 <= i < entries.len() && (#[trigger] entries[i]).tool_name == tool
                        && entries[i].decision == ApprovalResponse::Always;
                if i < before.len() {
                    assert(before[i] == entries[i]);
                }
            }
        }
    }
}

/// Some decision about the tool was "Always".
pub open spec fn answered_always(entries: Seq<LogView>, tool: Seq<char>) -> bool {
    exists|i: int|
        0 <= i < entries.len() && (#[trigger] entries[i]).tool_name == tool && entries[i].decision
            == ApprovalResponse::Always
}

/// A decision keeps the session's list free of tools that are always asked
/// about.
pub proof fn decisions_keep_consistency(state: ApprovalState, entry: LogView)
    requires
        state.consistent(),
    ensures
        state.decided(entry).consistent(),
        state.logged(entry).consistent(),
{
}

/// Failures deny: only an answer of the user can grant.
pub proof fn failures_deny(outcome: ApprovalOutcome)
    ensures
        outcome.decision().grants() ==> outcome == ApprovalOutcome::Answered(outcome.decision()),
        outcome is NotDelivered ==> outcome.decision() == ApprovalResponse::No,
        outcome is Failed ==> outcome.decision() == ApprovalResponse::No,
        outcome is TimedOut ==> outcome.decision() == ApprovalResponse::Timeout,
{
}

/// A typed answer that is none of the known words denies.
pub proof fn unrecognized_input_denies(input: Seq<char>)
    ensures
        manager::answer_of(input).grants() ==> {
            let word = text::lower(text::trim_spec(input));
            word == "y"@ || word == "yes"@ || word == "a"@ || word == "always"@
        },
        !manager::answer_of(input).grants() ==> manager::answer_of(input) == ApprovalResponse::No,
{
}

/// More risk never needs less approval.
pub proof fn risk_is_monotone(level: AutonomyLevel, ask_medium: bool)
    ensures
        !manager::risk_asks(level, CommandRiskLevel::Low, ask_medium),
        manager::risk_asks(level, CommandRiskLevel::Medium, ask_medium) ==> manager::risk_asks(
            level,
            CommandRiskLevel::High,
            ask_medium,
        ),
{
}

/// A tool is always asked about where the configuration lists it, or lists all tools
/// by a star; it is approved by configuration in the same way.
pub proof fn lists_name_tools_or_all(state: ApprovalState, tool: Seq<char>)
    ensures
        state.always_ask.contains(tool) ==> state.always_asks(tool),
        state.always_ask.contains("*"@) ==> state.always_asks(tool),
        state.always_asks(tool) ==> state.always_ask.contains(tool) || state.always_ask.contains(
            "*"@,
        ),
        state.auto_approve.contains(tool) ==> state.auto_approves(tool),
        state.auto_approve.contains("*"@) ==> state.auto_approves(tool),
        state.auto_approves(tool) ==> state.auto_approve.contains(tool)
            || state.auto_approve.contains("*"@),
{
}

/// A tool that was approved for the session is not asked about, unless it is always
/// asked about.
pub proof fn session_approval_skips_prompt(state: ApprovalState, tool: Seq<char>)
    requires
        state.session.contains(tool),
        !state.always_ask.contains(tool),
        !state.always_ask.contains("*"@),
    ensures
        !state.needs_approval(tool),
{
}

/// What a manager starts with is what the configuration says: a tool is on a list
/// where the configuration names it there. Nothing was decided yet.
pub proof fn configuration_is_taken_over(
    config: AutonomyConfig,
    non_interactive: bool,
    tool: Seq<char>,
)
    ensures
        ({
            let state = manager::initial_state(config, non_interactive);
            &&& state.level == config.level
            &&& state.non_interactive == non_interactive
            &&& state.timeout_secs == config.approval_timeout_secs
            &&& state.auto_approve.contains(tool) <==> exists|i: int|
                0 <= i < config.auto_approve@.len() && (#[trigger] config.auto_approve@[i])@ == tool
            &&& state.always_ask.contains(tool) <==> exists|i: int|
                0 <= i < config.always_ask@.len() && (#[trigger] config.always_ask@[i])@ == tool
            &&& !state.session.contains(tool)
            &&& state.log.len() == 0
            &&& state.consistent()
        }),
{
    listed_as_named(config.auto_approve@, tool);
    listed_as_named(config.always_ask@, tool);
}

proof fn listed_as_named(names: Seq<String>, tool: Seq<char>)
    ensures
        text::texts(names).to_set().contains(tool) <==> exists|i: int|
            0 <= i < names.len() && (#[trigger] names[i])@ == tool,
{
    let listed = text::texts(names);
    if listed.contains(tool) {
        let i = choose|i: int| 0 <= i < listed.len() && listed[i] == tool;
        assert(names[i]@ == tool);
    }
    if exists|i: int| 0 <= i < names.len() && (#[trigger] names[i])@ == tool {
        let i = choose|i: int| 0 <= i < names.len() && (#[trigger] names[i])@ == tool;
        assert(listed[i] == tool);
    }
}

/// With the default settings every tool is asked about but those that only look
/// things up.
pub proof fn default_asks_about_changes(config: AutonomyConfig, tool: Seq<char>)
    requires
        config.level == AutonomyLevel::Supervised,
        text::texts(config.auto_approve@) == config::lookup_tools(),
        config.always_ask@.len() == 0,
    ensures
        manager::initial_state(config, false).needs_approval(tool) <==> {
            &&& tool != "file_read"@
            &&& tool != "memory_recall"@
            &&& tool != "web_search_tool"@
            &&& tool != "web_fetch"@
            &&& tool != "calculator"@
            &&& tool != "glob_search"@
            &&& tool != "content_search"@
            &&& tool != "image_info"@
            &&& tool != "weather"@
        },
{
    reveal_strlit("*");
    reveal_strlit("file_read");
    reveal_strlit("memory_recall");
    reveal_strlit("web_search_tool");
    reveal_strlit("web_fetch");
    reveal_strlit("calculator");
    reveal_strlit("glob_search");
    reveal_strlit("content_search");
    reveal_strlit("image_info");
    reveal_strlit("weather");
    let listed = config::lookup_tools();
    let state = manager::initial_state(config, false);
    listed_as_named(config.always_ask@, tool);
    listed_as_named(config.always_ask@, "*"@);
    assert(listed[0] == "file_read"@);
    assert(listed[1] == "memory_recall"@);
    assert(listed[2] == "web_search_tool"@);
    assert(listed[3] == "web_fetch"@);
    assert(listed[4] == "calculator"@);
    assert(listed[5] == "glob_search"@);
    assert(listed[6] == "content_search"@);
    assert(listed[7] == "image_info"@);
    assert(listed[8] == "weather"@);
    if listed.contains("*"@) {
        let i = choose|i: int| 0 <= i < listed.len() && listed[i] == "*"@;
        assert(listed[i].len() == 1);
    }
    assert(!state.auto_approve.contains("*"@));
    assert(state.auto_approve.contains(tool) == listed.contains(tool));
}

/// A typed `y` or `yes` grants this call, `a` or `always` grants the tool, in any case
/// and with space around; anything else denies.
pub proof fn typed_words_decide(input: Seq<char>)
    ensures
        ({
            let word = text::lower(text::trim_spec(input));
            &&& manager::answer_of(input) == ApprovalResponse::Yes <==> word == "y"@ || word
                == "yes"@
            &&& manager::answer_of(input) == ApprovalResponse::Always <==> word == "a"@ || word
                == "always"@
            &&& manager::answer_of(input) != ApprovalResponse::Timeout
        }),
{
    reveal_strlit("y");
    reveal_strlit("yes");
    reveal_strlit("a");
    reveal_strlit("always");
    assert("y"@[0] != "a"@[0]);
    assert("yes"@[0] != "a"@[0]);
    assert("always"@[0] == "a"@[0]);
}

/// The answer of the user is the decision, whatever it is.
pub proof fn answers_are_kept(response: ApprovalResponse)
    ensures
        ApprovalOutcome::Answered(response).decision() == response,
        response.grants() <==> response != ApprovalResponse::No && response
            != ApprovalResponse::Timeout,
{
}

/// Under supervision a command of high risk is asked about, one of medium risk where
/// the policy says so, one of low risk never; at other levels nothing is asked.
pub proof fn risk_decides(level: AutonomyLevel, risk: CommandRiskLevel, ask_medium: bool)
    ensures
        level != AutonomyLevel::Supervised ==> !manager::risk_asks(level, risk, ask_medium),
        level == AutonomyLevel::Supervised && risk == CommandRiskLevel::High
            ==> manager::risk_asks(level, risk, ask_medium),
        level == AutonomyLevel::Supervised && risk == CommandRiskLevel::Medium
            ==> manager::risk_asks(level, risk, ask_medium) == ask_medium,
        risk == CommandRiskLevel::Low ==> !manager::risk_asks(level, risk, ask_medium),
{
}

/// The log names the risk of a request in lower case, and none where none is known.
pub proof fn risk_is_logged_by_name()
    ensures
        manager::logged_risk(None) is None,
        manager::logged_risk(Some(CommandRiskLevel::Low)) == Some("low"@),
        manager::logged_risk(Some(CommandRiskLevel::Medium)) == Some("medium"@),
        manager::logged_risk(Some(CommandRiskLevel::High)) == Some("high"@),
{
    reveal_strlit("Low");
    reveal_strlit("low");
    reveal_strlit("Medium");
    reveal_strlit("medium");
    reveal_strlit("High");
    reveal_strlit("high");
    text::lower_maps_letters("Low"@);
    text::lower_maps_letters("Medium"@);
    text::lower_maps_letters("High"@);
    assert(text::lower("Low"@) =~= "low"@);
    assert(text::lower("Medium"@) =~= "medium"@);
    assert(text::lower("High"@) =~= "high"@);
}

/// An entry tells which tool was decided about, how, and over which channel.
pub proof fn entries_tell_decisions_apart(
    e: LogView,
    tool: Seq<char>,
    other_tool: Seq<char>,
    args: JsonView,
    other_args: JsonView,
    decision: ApprovalResponse,
    other_decision: ApprovalResponse,
    channel: Seq<char>,
    other_channel: Seq<char>,
)
    requires
        manager::is_entry(e, tool, args, decision, channel),
        manager::is_entry(e, other_tool, other_args, other_decision, other_channel),
    ensures
        tool == other_tool,
        decision == other_decision,
        channel == other_channel,
        e.tool_name == tool,
        e.decision == decision,
        e.channel == channel,
{
}

/// A request that is bare asks about its call and no other, with nothing said of
/// where and whom to ask.
pub proof fn bare_request_asks_about_its_call(
    request: ApprovalRequest,
    tool: Seq<char>,
    args: JsonView,
)
    ensures
        request.is_bare(tool, args) <==> {
            &&& request.tool_name@ == tool
            &&& request.arguments@ == args
            &&& request.channel@.len() == 0
            &&& request.recipient@.len() == 0
            &&& request.thread_ts is None
            &&& request.risk_level is None
        },
{
    if request.channel@.len() == 0 {
        assert(request.channel@ =~= Seq::empty());
    }
    if request.recipient@.len() == 0 {
        assert(request.recipient@ =~= Seq::empty());
    }
}

/// The prompt shows the tool, what it is to do and, where it is known, the risk.
pub proof fn prompt_shows_what_is_asked(
    tool: Seq<char>,
    args_summary: Seq<char>,
    risk: CommandRiskLevel,
)
    ensures
        text::contains_spec(manager::prompt_of(tool, args_summary, None), tool),
        text::contains_spec(manager::prompt_of(tool, args_summary, None), args_summary),
        text::contains_spec(manager::prompt_of(tool, args_summary, Some(risk)), tool),
        text::contains_spec(manager::prompt_of(tool, args_summary, Some(risk)), args_summary),
        text::contains_spec(
            manager::prompt_of(tool, args_summary, Some(risk)),
            manager::risk_line(Some(risk)),
        ),
        text::contains_spec(manager::risk_line(Some(risk)), risk.spec_name()),
        manager::risk_line(None).len() == 0,
        ({
            let prompt = manager::prompt_of(tool, args_summary, None);
            let question = "   [Y]es / [N]o / [A]lways for "@ + tool + ": "@;
            prompt.skip(prompt.len() - question.len()) == question
        }),
        ({
            let prompt = manager::prompt_of(tool, args_summary, Some(risk));
            let question = "   [Y]es / [N]o / [A]lways for "@ + tool + ": "@;
            prompt.skip(prompt.len() - question.len()) == question
        }),
{
    let head = "\n🔧 Agent wants to execute: "@;
    let question = "   [Y]es / [N]o / [A]lways for "@ + tool + ": "@;
    let before = head + tool + "\n   "@;
    let nothing = manager::risk_line(None);
    let line = manager::risk_line(Some(risk));
    let plain = manager::prompt_of(tool, args_summary, None);
    let full = manager::prompt_of(tool, args_summary, Some(risk));
    let shown = before + args_summary + "\n"@;
    assert(plain =~= shown + nothing + question);
    assert(full =~= shown + line + question);
    assert(plain.skip(plain.len() - question.len()) =~= question);
    assert(full.skip(full.len() - question.len()) =~= question);
    part_is_in(shown, line, question);
    part_is_in(before, args_summary, "\n"@ + nothing + question);
    part_is_in(before, args_summary, "\n"@ + line + question);
    assert(plain =~= before + args_summary + ("\n"@ + nothing + question));
    assert(full =~= before + args_summary + ("\n"@ + line + question));
    let rest = "\n   "@ + args_summary + "\n"@ + nothing + question;
    let full_rest = "\n   "@ + args_summary + "\n"@ + line + question;
    part_is_in(head, tool, rest);
    part_is_in(head, tool, full_rest);
    assert(plain =~= head + tool + rest);
    assert(full =~= head + tool + full_rest);
    part_is_in("   Risk: "@, risk.spec_name(), "\n"@);
}

proof fn part_is_in(left: Seq<char>, part: Seq<char>, right: Seq<char>)
    ensures
        text::contains_spec(left + part + right, part),
{
    let whole = left + part + right;
    let at = left.len() as int;
    assert(whole.subrange(at, at + part.len()) =~= part);
    assert(text::occurs_at(whole, part, at));
    text::find_from_least(whole, part, 0);
}

/// An entry of a decision that no channel was asked for carries no risk, no request
/// and no time.
pub proof fn local_entries_carry_nothing(e: LogView)
    ensures
        manager::is_local(e) <==> e.risk_level is None && e.request_id is None
            && e.response_time_ms is None,
{
}

/// What the log says is what its entries hold, field by field and one for one.
pub proof fn log_says_what_it_holds(e: ApprovalLogEntry, entries: Seq<ApprovalLogEntry>)
    ensures
        e.says().timestamp == e.timestamp@,
        e.says().tool_name == e.tool_name@,
        e.says().arguments_summary == e.arguments_summary@,
        e.says().decision == e.decision,
        e.says().channel == e.channel@,
        e.says().risk_level == text::opt_text(e.risk_level),
        e.says().request_id == text::opt_text(e.request_id),
        e.says().response_time_ms == e.response_time_ms,
        manager::log_views(entries).len() == entries.len(),
        forall|i: int|
            0 <= i < entries.len() ==> #[trigger] manager::log_views(entries)[i]
                == entries[i].says(),
{
}

} // verus!
