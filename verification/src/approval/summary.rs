//! A short text for the arguments of a tool call.

use crate::json::{self, Json, JsonView};
use crate::text;
use vstd::prelude::*;
use vstd::string::*;

verus! {

/// How much of one argument a summary shows, in characters.
pub const MAX_MEMBER_CHARS: usize = 80;

/// How much of arguments that are no object a summary shows, in characters.
pub const MAX_VALUE_CHARS: usize = 120;

/// `input`, cut after `max_chars` characters with an ellipsis behind them where
/// it is longer.
pub open spec fn truncated(input: Seq<char>, max_chars: int) -> Seq<char> {
    if input.len() > max_chars {
        input.take(max_chars) + "…"@
    } else {
        input
    }
}

/// The text of one argument: a string as it is, anything else as JSON.
pub open spec fn member_text(v: JsonView) -> Seq<char> {
    match v {
        JsonView::Text(s) => s,
        other => json::json_text(other),
    }
}

/// One argument in a summary.
pub open spec fn member_summary(member: (Seq<char>, JsonView)) -> Seq<char> {
    member.0 + ": "@ + truncated(member_text(member.1), MAX_MEMBER_CHARS as int)
}

/// The summary of the arguments of a tool call.
pub open spec fn summary(args: JsonView) -> Seq<char> {
    match args {
        JsonView::Object(members) => text::join_spec(
            members.map_values(|m: (Seq<char>, JsonView)| member_summary(m)),
            ", "@,
        ),
        other => truncated(json::json_text(other), MAX_VALUE_CHARS as int),
    }
}

/// Cuts `input` after `max_chars` characters.
pub fn truncate_for_summary(input: &str, max_chars: usize) -> (r: String)
    ensures
        r@ == truncated(input@, max_chars as int),
{
    let chars = text::chars_of(input);
    if chars.len() > max_chars {
        let mut out = text::text_of(&chars, 0, max_chars);
        out.append("…");
        assert(chars@.subrange(0, max_chars as int) =~= input@.take(max_chars as int));
        out
    } else {
        input.to_string()
    }
}

fn summarize_member(key: &str, value: &Json) -> (r: String)
    ensures
        r@ == member_summary((key@, value@)),
{
    let shown = match value {
        Json::Text(s) => truncate_for_summary(s.as_str(), MAX_MEMBER_CHARS),
        other => {
            let rendered = other.render();
            truncate_for_summary(rendered.as_str(), MAX_MEMBER_CHARS)
        },
    };
    let mut out = key.to_string();
    out.append(": ");
    out.append(shown.as_str());
    out
}

/// A short text for the arguments of a tool call.
pub fn summarize_args(args: &Json) -> (r: String)
    ensures
        r@ == summary(args@),
        args@ is Null ==> r@ == "null"@,
{
    proof {
        reveal_strlit("null");
    }
    match args {
        Json::Object(map) => {
            let members = map.members();
            let mut parts: Vec<String> = Vec::new();
            let mut i: usize = 0;
            while i < members.len()
                invariant
                    i <= members@.len(),
                    parts@.len() == i,
                    forall|k: int|
                        0 <= k < i ==> (#[trigger] parts@[k])@ == member_summary(
                            (members@[k].0@, members@[k].1@),
                        ),
                decreases members@.len() - i,
            {
                parts.push(summarize_member(members[i].0.as_str(), &members[i].1));
                i += 1;
            }
            proof {
                let shown = json::member_views(members@);
                assert(text::texts(parts@) =~= shown.map_values(
                    |m: (Seq<char>, JsonView)| member_summary(m),
                ));
            }
            text::join(&parts, ", ")
        },
        other => {
            let rendered = other.render();
            truncate_for_summary(rendered.as_str(), MAX_VALUE_CHARS)
        },
    }
}

// ── Laws ────────────────────────────────────────────────────────────

/// A cut text is at most one character longer than the limit, and starts as
/// the text does.
pub proof fn truncation_is_bounded(input: Seq<char>, max_chars: int)
    requires
        0 <= max_chars,
    ensures
        truncated(input, max_chars).len() <= max_chars + 1,
        input.len() <= max_chars ==> truncated(input, max_chars) == input,
        input.len() > max_chars ==> truncated(input, max_chars).take(max_chars) == input.take(
            max_chars,
        ) && truncated(input, max_chars).last() == '…',
{
    reveal_strlit("…");
    if input.len() > max_chars {
        assert(truncated(input, max_chars).take(max_chars) =~= input.take(max_chars));
    }
}

/// An argument is shown behind its name: a text as it is, anything else as JSON, and
/// neither beyond the limit.
pub proof fn argument_is_shown_behind_its_name(key: Seq<char>, value: JsonView)
    ensures
        ({
            let shown = match value {
                JsonView::Text(s) => s,
                _ => json::json_text(value),
            };
            let whole = summary(JsonView::Object(seq![(key, value)]));
            let head = key + ": "@;
            &&& shown.len() <= 80 ==> whole == head + shown
            &&& shown.len() > 80 ==> whole == head + shown.take(80) + seq!['…']
        }),
{
    reveal_strlit("…");
    assert("…"@ =~= seq!['…']);
    let members = seq![(key, value)];
    let parts = members.map_values(|m: (Seq<char>, JsonView)| member_summary(m));
    text::join_concat(parts, Seq::empty(), ", "@);
    assert(parts[0] == member_summary((key, value)));
    let shown = member_text(value);
    if shown.len() > 80 {
        assert(key + ": "@ + (shown.take(80) + "…"@) =~= key + ": "@ + shown.take(80) + seq!['…']);
    }
}

/// Every argument is shown, in order: what the first arguments show, a comma and what
/// the others show.
pub proof fn every_argument_is_shown(
    first: Seq<(Seq<char>, JsonView)>,
    others: Seq<(Seq<char>, JsonView)>,
)
    requires
        first.len() > 0,
        others.len() > 0,
    ensures
        summary(JsonView::Object(first + others)) == summary(JsonView::Object(first)) + ", "@
            + summary(JsonView::Object(others)),
{
    let shows = |m: (Seq<char>, JsonView)| member_summary(m);
    assert((first + others).map_values(shows) =~= first.map_values(shows) + others.map_values(shows));
    text::join_concat(first.map_values(shows), others.map_values(shows), ", "@);
}

/// No arguments are shown as nothing.
pub proof fn no_arguments_show_nothing()
    ensures
        summary(JsonView::Object(Seq::empty())) == Seq::<char>::empty(),
{
    let parts = Seq::<(Seq<char>, JsonView)>::empty().map_values(
        |m: (Seq<char>, JsonView)| member_summary(m),
    );
    text::join_concat(parts, parts, ", "@);
}

/// Arguments that are no object are shown as JSON, not beyond the limit.
pub proof fn other_arguments_are_shown_as_json(value: JsonView)
    requires
        !(value is Object),
    ensures
        json::json_text(value).len() <= 120 ==> summary(value) == json::json_text(value),
        json::json_text(value).len() > 120 ==> summary(value) == json::json_text(value).take(120)
            + seq!['…'],
{
    reveal_strlit("…");
    assert("…"@ =~= seq!['…']);
}

} // verus!
