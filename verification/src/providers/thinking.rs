//! Separating a model's reasoning from its answer.

use crate::text;
use vstd::prelude::*;
use vstd::string::*;

verus! {

/// What stands between the first `open` marker and the first `close` marker
/// after it, together with the rest of the text, trimmed. Nothing where a
/// marker is missing or the markers enclose nothing.
pub open spec fn between(content: Seq<char>, open: Seq<char>, close: Seq<char>) -> Option<
    (Seq<char>, Seq<char>),
> {
    match text::find_spec(content, open) {
        None => None,
        Some(i) => {
            let inner = i + open.len();
            match text::find_from(content, close, inner) {
                None => None,
                Some(j) => {
                    let thinking = content.subrange(inner, j);
                    let rest = content.take(i) + content.skip(j + close.len());
                    if thinking.len() == 0 {
                        None
                    } else {
                        Some((text::trim_spec(rest), thinking))
                    }
                },
            }
        },
    }
}

/// The reasoning between `<|channel>thought` and `<channel|>`.
pub open spec fn between_channel(content: Seq<char>) -> Option<(Seq<char>, Seq<char>)> {
    between(content, "<|channel>thought\n"@, "<channel|>"@)
}

/// The reasoning between `<think>` and `</think>`.
pub open spec fn between_think(content: Seq<char>) -> Option<(Seq<char>, Seq<char>)> {
    between(content, "<think>"@, "</think>"@)
}

/// The answer and the reasoning of a reply: a filled thinking field wins and
/// leaves the content as it is, then the channel markers, then the think tags.
pub open spec fn thinking_split(content: Seq<char>, field: Option<Seq<char>>) -> (
    Seq<char>,
    Option<Seq<char>>,
) {
    if field is Some && field->0.len() > 0 {
        (content, field)
    } else if let Some(found) = between_channel(content) {
        (found.0, Some(found.1))
    } else if let Some(found) = between_think(content) {
        (found.0, Some(found.1))
    } else {
        (content, None)
    }
}

/// A found pair of answer and reasoning, as the extractors return it.
pub open spec fn found_matches(
    r: Option<(String, Option<String>)>,
    found: Option<(Seq<char>, Seq<char>)>,
) -> bool {
    match found {
        Some((answer, thinking)) => match r {
            Some((a, t)) => a@ == answer && text::opt_text(t) == Some(thinking),
            None => false,
        },
        None => r is None,
    }
}

/// What an extractor returns says what was found, and that alone.
pub proof fn extractors_say_what_was_found(
    r: Option<(String, Option<String>)>,
    found: Option<(Seq<char>, Seq<char>)>,
)
    ensures
        found_matches(r, found) ==> (r is Some <==> found is Some),
        found_matches(r, found) && found is Some ==> (r->0).0@ == (found->0).0 && (r->0).1 is Some
            && (r->0).1->0@ == (found->0).1,
{
}

/// Takes the text between two markers out of `content`.
pub fn extract_between_markers(content: &str, start_marker: &str, end_marker: &str) -> (r: Option<
    (String, Option<String>),
>)
    ensures
        found_matches(r, between(content@, start_marker@, end_marker@)),
{
    let chars = text::chars_of(content);
    let total: usize = chars.len();
    let open = text::chars_of(start_marker);
    let close = text::chars_of(end_marker);
    let start = match text::find_chars(&chars, &open, 0) {
        Some(i) => i,
        None => {
            return None;
        },
    };
    proof {
        text::find_from_least(chars@, open@, 0);
    }
    let inner: usize = start + open.len();
    let end = match text::find_chars(&chars, &close, inner) {
        Some(j) => j,
        None => {
            return None;
        },
    };
    proof {
        text::find_from_least(chars@, close@, inner as int);
    }
    if end == inner {
        return None;
    }
    let thinking = text::text_of(&chars, inner, end);
    let mut rest = text::text_of(&chars, 0, start);
    let after = text::text_of(&chars, end + close.len(), total);
    rest.append(after.as_str());
    assert(rest@ =~= content@.take(start as int) + content@.skip(end + close@.len()));
    Some((text::trim(rest.as_str()), Some(thinking)))
}

/// Takes reasoning in channel markers out of `content`.
pub fn extract_channel_thinking(content: &str) -> (r: Option<(String, Option<String>)>)
    ensures
        found_matches(r, between_channel(content@)),
{
    extract_between_markers(content, "<|channel>thought\n", "<channel|>")
}

/// Takes reasoning in think tags out of `content`.
pub fn extract_think_tags(content: &str) -> (r: Option<(String, Option<String>)>)
    ensures
        found_matches(r, between_think(content@)),
{
    extract_between_markers(content, "<think>", "</think>")
}

/// The answer and the reasoning of a reply.
///
/// 1. A `thinking_field` that is not empty wins; the content stays as it is.
/// 2. Otherwise reasoning in channel markers is taken out of the content.
/// 3. Otherwise reasoning in think tags is.
pub fn extract_thinking_content(content: &str, thinking_field: Option<&str>) -> (r: (
    String,
    Option<String>,
))
    ensures
        r.0@ == thinking_split(content@, text::opt_str(thinking_field)).0,
        text::opt_text(r.1) == thinking_split(content@, text::opt_str(thinking_field)).1,
{
    if let Some(thinking) = thinking_field {
        if !thinking.is_empty() {
            return (content.to_string(), Some(thinking.to_string()));
        }
    }
    if let Some(found) = extract_channel_thinking(content) {
        return found;
    }
    if let Some(found) = extract_think_tags(content) {
        return found;
    }
    (content.to_string(), None)
}

// ── Stripping ───────────────────────────────────────────────────────

/// The first block at or after `from` that encloses something: where its `open`
/// marker stands, and where the first `close` marker after that one does.
pub open spec fn filled_from(
    content: Seq<char>,
    open: Seq<char>,
    close: Seq<char>,
    from: int,
) -> Option<(int, int)>
    decreases content.len() - from + 1,
    when 0 <= from
{
    match text::find_from(content, open, from) {
        None => None,
        Some(i) => match text::find_from(content, close, i + open.len()) {
            None => None,
            Some(j) => {
                proof {
                    text::find_from_least(content, open, from);
                }
                if j > i + open.len() {
                    Some((i, j))
                } else {
                    filled_from(content, open, close, i + 1)
                }
            },
        },
    }
}

/// The text without its first block that encloses something, trimmed; nothing
/// where there is no such block.
pub open spec fn without_block(content: Seq<char>, open: Seq<char>, close: Seq<char>) -> Option<
    Seq<char>,
> {
    match filled_from(content, open, close, 0) {
        Some((i, j)) => Some(
            text::trim_spec(content.take(i) + content.skip(j + close.len())),
        ),
        None => None,
    }
}

/// The text without one block of reasoning: the one that extraction finds or,
/// where it finds none, the first one behind empty blocks, in channel markers
/// before in think tags.
pub open spec fn without_one_block(content: Seq<char>) -> Option<Seq<char>> {
    let extracted = thinking_split(content, None);
    if extracted.1 is Some {
        Some(extracted.0)
    } else {
        match without_block(content, "<|channel>thought\n"@, "<channel|>"@) {
            Some(rest) => Some(rest),
            None => without_block(content, "<think>"@, "</think>"@),
        }
    }
}

/// The text without any reasoning: one block after the other is taken out until
/// none is left. Text without reasoning stays as it is.
pub open spec fn without_reasoning(content: Seq<char>) -> Seq<char>
    decreases content.len(),
{
    match without_one_block(content) {
        Some(rest) => {
            proof {
                one_block_shortens(content);
            }
            without_reasoning(rest)
        },
        None => content,
    }
}

/// Somewhere in the text markers enclose something.
pub open spec fn has_filled_block(content: Seq<char>, open: Seq<char>, close: Seq<char>) -> bool {
    exists|i: int| #[trigger]
        text::occurs_at(content, open, i) && encloses(content, open, close, i)
}

/// The `open` marker at `i` and the first `close` marker after it enclose
/// something.
pub open spec fn encloses(content: Seq<char>, open: Seq<char>, close: Seq<char>, i: int) -> bool {
    text::find_from(content, close, i + open.len()) matches Some(j) && j > i + open.len()
}

/// The text holds reasoning, in channel markers or in think tags.
pub open spec fn has_reasoning(content: Seq<char>) -> bool {
    ||| has_filled_block(content, "<|channel>thought\n"@, "<channel|>"@)
    ||| has_filled_block(content, "<think>"@, "</think>"@)
}

proof fn filled_from_is_first(content: Seq<char>, open: Seq<char>, close: Seq<char>, from: int)
    requires
        0 <= from,
    ensures
        match filled_from(content, open, close, from) {
            Some((i, j)) => {
                &&& from <= i
                &&& text::occurs_at(content, open, i)
                &&& encloses(content, open, close, i)
                &&& text::occurs_at(content, close, j)
                &&& i + open.len() < j
            },
            None => forall|i: int|
                from <= i && #[trigger] text::occurs_at(content, open, i) ==> !encloses(
                    content,
                    open,
                    close,
                    i,
                ),
        },
    decreases content.len() - from + 1,
{
    text::find_from_least(content, open, from);
    if let Some(i) = text::find_from(content, open, from) {
        text::find_from_least(content, close, i + open.len());
        match text::find_from(content, close, i + open.len()) {
            None => {
                assert forall|k: int|
                    from <= k && #[trigger] text::occurs_at(content, open, k) implies !encloses(
                    content,
                    open,
                    close,
                    k,
                ) by {
                    text::find_from_least(content, close, k + open.len());
                }
            },
            Some(j) => {
                if j <= i + open.len() {
                    filled_from_is_first(content, open, close, i + 1);
                }
            },
        }
    }
}

proof fn block_shortens(content: Seq<char>, open: Seq<char>, close: Seq<char>)
    ensures
        without_block(content, open, close) matches Some(rest) ==> rest.len() < content.len(),
{
    filled_from_is_first(content, open, close, 0);
    if let Some((i, j)) = filled_from(content, open, close, 0) {
        text::trim_shortens(content.take(i) + content.skip(j + close.len()));
    }
}

/// Taking a block out makes a text shorter.
pub proof fn one_block_shortens(content: Seq<char>)
    ensures
        without_one_block(content) matches Some(rest) ==> rest.len() < content.len(),
{
    block_shortens(content, "<|channel>thought\n"@, "<channel|>"@);
    block_shortens(content, "<think>"@, "</think>"@);
    block_is_between(content, "<|channel>thought\n"@, "<channel|>"@);
    block_is_between(content, "<think>"@, "</think>"@);
}

fn strip_block(content: &str, start_marker: &str, end_marker: &str) -> (r: Option<String>)
    requires
        start_marker@.len() > 0,
    ensures
        text::opt_text(r) == without_block(content@, start_marker@, end_marker@),
{
    let chars = text::chars_of(content);
    let total: usize = chars.len();
    let open = text::chars_of(start_marker);
    let close = text::chars_of(end_marker);
    let mut from: usize = 0;
    loop
        invariant
            chars@ == content@,
            total == content@.len(),
            open@ == start_marker@,
            close@ == end_marker@,
            open@.len() > 0,
            from <= total,
            filled_from(content@, open@, close@, 0) == filled_from(
                content@,
                open@,
                close@,
                from as int,
            ),
        decreases total - from,
    {
        proof {
            text::find_from_least(content@, open@, from as int);
        }
        let start = match text::find_chars(&chars, &open, from) {
            Some(i) => i,
            None => {
                return None;
            },
        };
        let inner: usize = start + open.len();
        proof {
            text::find_from_least(content@, close@, inner as int);
        }
        let end = match text::find_chars(&chars, &close, inner) {
            Some(j) => j,
            None => {
                return None;
            },
        };
        if end > inner {
            let mut rest = text::text_of(&chars, 0, start);
            let after = text::text_of(&chars, end + close.len(), total);
            rest.append(after.as_str());
            assert(rest@ =~= content@.take(start as int) + content@.skip(end + close@.len()));
            return Some(text::trim(rest.as_str()));
        }
        from = start + 1;
    }
}

/// Takes all reasoning out of `content`.
pub fn strip_reasoning(content: &str) -> (r: String)
    ensures
        r@ == without_reasoning(content@),
{
    proof {
        reveal_strlit("<|channel>thought\n");
        reveal_strlit("<think>");
    }
    let mut left = content.to_string();
    loop
        invariant
            without_reasoning(content@) == without_reasoning(left@),
            "<|channel>thought\n"@.len() > 0,
            "<think>"@.len() > 0,
        decreases left@.len(),
    {
        proof {
            one_block_shortens(left@);
        }
        let (answer, thinking) = extract_thinking_content(left.as_str(), None);
        let found = match thinking {
            Some(_) => Some(answer),
            None => match strip_block(left.as_str(), "<|channel>thought\n", "<channel|>") {
                Some(rest) => Some(rest),
                None => strip_block(left.as_str(), "<think>", "</think>"),
            },
        };
        match found {
            Some(rest) => {
                left = rest;
            },
            None => {
                return left;
            },
        }
    }
}

// ── Laws ────────────────────────────────────────────────────────────

/// A filled thinking field wins over any marker and leaves the content alone.
pub proof fn field_wins(content: Seq<char>, field: Seq<char>)
    requires
        field.len() > 0,
    ensures
        thinking_split(content, Some(field)) == (content, Some(field)),
{
}

/// Channel markers win over think tags.
pub proof fn channel_wins_over_tags(content: Seq<char>)
    requires
        between_channel(content) is Some,
    ensures
        thinking_split(content, None) == (
            (between_channel(content)->0).0,
            Some((between_channel(content)->0).1),
        ),
{
}

/// An empty thinking field counts as none.
pub proof fn empty_field_counts_as_none(content: Seq<char>)
    ensures
        thinking_split(content, Some(Seq::empty())) == thinking_split(content, None),
{
}

/// Without an opening marker the content is the answer, unchanged.
pub proof fn unmarked_content_stays(content: Seq<char>)
    requires
        !text::contains_spec(content, "<|channel>thought\n"@),
        !text::contains_spec(content, "<think>"@),
    ensures
        thinking_split(content, None) == (content, None::<Seq<char>>),
{
    text::find_from_least(content, "<|channel>thought\n"@, 0);
    text::find_from_least(content, "<think>"@, 0);
}

/// Nothing is lost: the content is the text before the markers, the reasoning
/// in its markers and the text after them, and the answer is the text before
/// and after, trimmed. The reasoning is never empty.
pub proof fn extraction_partitions(content: Seq<char>, open: Seq<char>, close: Seq<char>)
    ensures
        between(content, open, close) matches Some((answer, thinking)) ==> thinking.len() > 0
            && exists|before: Seq<char>, after: Seq<char>|
            content == #[trigger] (before + open + thinking + close + after) && answer
                == text::trim_spec(before + after),
{
    text::find_from_least(content, open, 0);
    if let Some((answer, thinking)) = between(content, open, close) {
        let i = text::find_spec(content, open)->0;
        let inner = i + open.len();
        text::find_from_least(content, close, inner);
        let j = text::find_from(content, close, inner)->0;
        let before = content.take(i);
        let after = content.skip(j + close.len());
        assert(content.subrange(i, inner) == open);
        assert(content.subrange(j, j + close.len()) == close);
        assert(content =~= before + content.subrange(i, inner) + thinking + content.subrange(
            j,
            j + close.len(),
        ) + after);
        assert(content == before + open + thinking + close + after);
    }
}

/// Taking one block out loses nothing else: the text is what stands before the
/// block, the block and what stands after it, and before and after, trimmed, are
/// left in their order.
pub proof fn taken_block_partitions(content: Seq<char>, open: Seq<char>, close: Seq<char>)
    ensures
        without_block(content, open, close) matches Some(rest) ==> exists|
            before: Seq<char>,
            thinking: Seq<char>,
            after: Seq<char>,
        |
            content == #[trigger] (before + open + thinking + close + after) && thinking.len() > 0
                && rest == text::trim_spec(before + after),
{
    filled_from_is_first(content, open, close, 0);
    if let Some((i, j)) = filled_from(content, open, close, 0) {
        let inner = i + open.len();
        let before = content.take(i);
        let thinking = content.subrange(inner, j);
        let after = content.skip(j + close.len());
        assert(content.subrange(i, inner) == open);
        assert(content.subrange(j, j + close.len()) == close);
        assert(content =~= before + content.subrange(i, inner) + thinking + content.subrange(
            j,
            j + close.len(),
        ) + after);
        assert(content == before + open + thinking + close + after);
    }
}

/// No reasoning is left in a text that all reasoning was taken out of.
pub proof fn no_reasoning_is_left(content: Seq<char>)
    ensures
        !has_reasoning(without_reasoning(content)),
    decreases content.len(),
{
    match without_one_block(content) {
        Some(rest) => {
            one_block_shortens(content);
            no_reasoning_is_left(rest);
        },
        None => {
            filled_from_is_first(content, "<|channel>thought\n"@, "<channel|>"@, 0);
            filled_from_is_first(content, "<think>"@, "</think>"@, 0);
        },
    }
}

/// A text without reasoning stays as it is; empty blocks and markers without a
/// partner are no reasoning.
pub proof fn unreasoned_text_stays(content: Seq<char>)
    requires
        !has_reasoning(content),
    ensures
        without_reasoning(content) == content,
{
    filled_from_is_first(content, "<|channel>thought\n"@, "<channel|>"@, 0);
    filled_from_is_first(content, "<think>"@, "</think>"@, 0);
    block_is_between(content, "<|channel>thought\n"@, "<channel|>"@);
    block_is_between(content, "<think>"@, "</think>"@);
}

/// Stripping starts where extraction does: what [`thinking_split`] leaves of a text
/// is stripped on.
pub proof fn stripping_goes_on_from_extraction(content: Seq<char>)
    ensures
        without_reasoning(content) == without_reasoning(thinking_split(content, None).0),
{
    one_block_shortens(content);
}

/// Where extraction leaves no reasoning, stripping leaves what extraction does.
pub proof fn extraction_may_suffice(content: Seq<char>)
    requires
        !has_reasoning(thinking_split(content, None).0),
    ensures
        without_reasoning(content) == thinking_split(content, None).0,
{
    stripping_goes_on_from_extraction(content);
    unreasoned_text_stays(thinking_split(content, None).0);
}

proof fn block_is_between(content: Seq<char>, open: Seq<char>, close: Seq<char>)
    ensures
        between(content, open, close) matches Some((answer, thinking)) ==> without_block(
            content,
            open,
            close,
        ) == Some(answer),
{
    text::find_from_least(content, open, 0);
    if let Some(i) = text::find_spec(content, open) {
        text::find_from_least(content, close, i + open.len());
    }
}

/// The text that holds one block.
spec fn with_block(
    before: Seq<char>,
    open: Seq<char>,
    thinking: Seq<char>,
    close: Seq<char>,
    after: Seq<char>,
) -> Seq<char> {
    before + open + thinking + close + after
}

/// No character of a marker but the first is like its first one.
spec fn starts_once(marker: Seq<char>) -> bool {
    marker.len() > 0 && forall|k: int| 0 < k < marker.len() ==> #[trigger] marker[k] != marker[0]
}

proof fn markers_start_once()
    ensures
        starts_once("<|channel>thought\n"@),
        starts_once("<channel|>"@),
        starts_once("<think>"@),
        starts_once("</think>"@),
{
    reveal_strlit("<|channel>thought\n");
    reveal_strlit("<channel|>");
    reveal_strlit("<think>");
    reveal_strlit("</think>");
}

proof fn close_is_found(
    before: Seq<char>,
    open: Seq<char>,
    thinking: Seq<char>,
    close: Seq<char>,
    after: Seq<char>,
)
    requires
        starts_once(close),
        !text::contains_spec(thinking, close),
    ensures
        text::occurs_at(
            with_block(before, open, thinking, close, after),
            open,
            before.len() as int,
        ),
        text::find_from(
            with_block(before, open, thinking, close, after),
            close,
            (before.len() + open.len()) as int,
        ) == Some((before.len() + open.len() + thinking.len()) as int),
{
    let content = with_block(before, open, thinking, close, after);
    let inner = (before.len() + open.len()) as int;
    let end = (inner + thinking.len()) as int;
    assert(content.subrange(before.len() as int, inner) =~= open);
    assert(content.subrange(end, end + close.len()) =~= close);
    assert(content.subrange(inner, end) =~= thinking);
    text::marker_is_found(content, close, inner, end);
}

proof fn complete_block(
    before: Seq<char>,
    open: Seq<char>,
    thinking: Seq<char>,
    close: Seq<char>,
    after: Seq<char>,
)
    requires
        starts_once(open),
        starts_once(close),
        !text::contains_spec(before, open),
        !text::contains_spec(thinking, close),
    ensures
        between(with_block(before, open, thinking, close, after), open, close) == (
        if thinking.len() == 0 {
            None
        } else {
            Some((text::trim_spec(before + after), thinking))
        }),
{
    let content = with_block(before, open, thinking, close, after);
    let inner = (before.len() + open.len()) as int;
    let end = (inner + thinking.len()) as int;
    close_is_found(before, open, thinking, close, after);
    assert(content.subrange(0, before.len() as int) =~= before);
    text::marker_is_found(content, open, 0, before.len() as int);
    assert(content.subrange(inner, end) =~= thinking);
    assert(content.take(before.len() as int) =~= before);
    assert(content.skip((end + close.len()) as int) =~= after);
}

proof fn no_block_without(content: Seq<char>, open: Seq<char>, close: Seq<char>)
    requires
        !text::contains_spec(content, open) || !text::contains_spec(content, close),
    ensures
        between(content, open, close) is None,
{
    text::find_from_least(content, open, 0);
    if let Some(i) = text::find_spec(content, open) {
        text::find_from_least(content, close, i + open.len());
    }
}

/// Extraction is complete for think tags: whatever stands between the first opening
/// tag and the closing tag behind it is the reasoning, character for character, and
/// what stands around the tags, trimmed, is the answer.
pub proof fn think_block_is_extracted(
    before: Seq<char>,
    thinking: Seq<char>,
    after: Seq<char>,
    field: Option<Seq<char>>,
)
    requires
        thinking.len() > 0,
        !text::contains_spec(before, "<think>"@),
        !text::contains_spec(thinking, "</think>"@),
        between_channel(before + "<think>"@ + thinking + "</think>"@ + after) is None,
        field is None || field->0.len() == 0,
    ensures
        thinking_split(before + "<think>"@ + thinking + "</think>"@ + after, field) == (
            text::trim_spec(before + after),
            Some(thinking),
        ),
{
    markers_start_once();
    complete_block(before, "<think>"@, thinking, "</think>"@, after);
}

/// The same of the tags alone, whatever channel markers stand in the text: tags that
/// enclose something are found, and tags that enclose nothing are not.
pub proof fn think_tags_are_found(before: Seq<char>, thinking: Seq<char>, after: Seq<char>)
    requires
        !text::contains_spec(before, "<think>"@),
        !text::contains_spec(thinking, "</think>"@),
    ensures
        thinking.len() > 0 ==> between_think(
            before + "<think>"@ + thinking + "</think>"@ + after,
        ) == Some((text::trim_spec(before + after), thinking)),
        thinking.len() == 0 ==> between_think(
            before + "<think>"@ + thinking + "</think>"@ + after,
        ) is None,
{
    markers_start_once();
    complete_block(before, "<think>"@, thinking, "</think>"@, after);
}

/// The same of channel markers.
pub proof fn channel_markers_are_found(before: Seq<char>, thinking: Seq<char>, after: Seq<char>)
    requires
        !text::contains_spec(before, "<|channel>thought\n"@),
        !text::contains_spec(thinking, "<channel|>"@),
    ensures
        thinking.len() > 0 ==> between_channel(
            before + "<|channel>thought\n"@ + thinking + "<channel|>"@ + after,
        ) == Some((text::trim_spec(before + after), thinking)),
        thinking.len() == 0 ==> between_channel(
            before + "<|channel>thought\n"@ + thinking + "<channel|>"@ + after,
        ) is None,
{
    markers_start_once();
    complete_block(before, "<|channel>thought\n"@, thinking, "<channel|>"@, after);
}

/// Nothing is found in a text that misses a marker.
pub proof fn missing_markers_find_nothing(content: Seq<char>)
    ensures
        !text::contains_spec(content, "<think>"@) || !text::contains_spec(content, "</think>"@)
            ==> between_think(content) is None,
        !text::contains_spec(content, "<|channel>thought\n"@) || !text::contains_spec(
            content,
            "<channel|>"@,
        ) ==> between_channel(content) is None,
{
    if !text::contains_spec(content, "<think>"@) || !text::contains_spec(content, "</think>"@) {
        no_block_without(content, "<think>"@, "</think>"@);
    }
    if !text::contains_spec(content, "<|channel>thought\n"@) || !text::contains_spec(
        content,
        "<channel|>"@,
    ) {
        no_block_without(content, "<|channel>thought\n"@, "<channel|>"@);
    }
}

/// Extraction is complete for channel markers too, whatever think tags stand in the
/// text.
pub proof fn channel_block_is_extracted(
    before: Seq<char>,
    thinking: Seq<char>,
    after: Seq<char>,
    field: Option<Seq<char>>,
)
    requires
        thinking.len() > 0,
        !text::contains_spec(before, "<|channel>thought\n"@),
        !text::contains_spec(thinking, "<channel|>"@),
        field is None || field->0.len() == 0,
    ensures
        thinking_split(
            before + "<|channel>thought\n"@ + thinking + "<channel|>"@ + after,
            field,
        ) == (text::trim_spec(before + after), Some(thinking)),
{
    markers_start_once();
    complete_block(before, "<|channel>thought\n"@, thinking, "<channel|>"@, after);
}

/// Tags that enclose nothing are no reasoning: the text stays as it is.
pub proof fn empty_think_block_stays(before: Seq<char>, after: Seq<char>)
    requires
        !text::contains_spec(before, "<think>"@),
        !text::contains_spec(
            before + "<think>"@ + "</think>"@ + after,
            "<|channel>thought\n"@,
        ),
    ensures
        thinking_split(before + "<think>"@ + "</think>"@ + after, None) == (
            before + "<think>"@ + "</think>"@ + after,
            None::<Seq<char>>,
        ),
{
    markers_start_once();
    let nothing = Seq::<char>::empty();
    let content = before + "<think>"@ + "</think>"@ + after;
    assert(content =~= with_block(before, "<think>"@, nothing, "</think>"@, after));
    if text::contains_spec(nothing, "</think>"@) {
        let i = choose|i: int| text::occurs_at(nothing, "</think>"@, i);
        assert(i + "</think>"@.len() <= 0);
    }
    complete_block(before, "<think>"@, nothing, "</think>"@, after);
    no_block_without(content, "<|channel>thought\n"@, "<channel|>"@);
}

/// Without closing markers nothing is reasoning: the text stays as it is.
pub proof fn unclosed_content_stays(content: Seq<char>)
    requires
        !text::contains_spec(content, "<channel|>"@),
        !text::contains_spec(content, "</think>"@),
    ensures
        thinking_split(content, None) == (content, None::<Seq<char>>),
        without_reasoning(content) == content,
{
    no_block_without(content, "<|channel>thought\n"@, "<channel|>"@);
    no_block_without(content, "<think>"@, "</think>"@);
    assert forall|i: int| #[trigger]
        text::occurs_at(content, "<|channel>thought\n"@, i) implies !encloses(
        content,
        "<|channel>thought\n"@,
        "<channel|>"@,
        i,
    ) by {
        text::find_from_least(content, "<channel|>"@, i + "<|channel>thought\n"@.len());
    }
    assert forall|i: int| #[trigger] text::occurs_at(content, "<think>"@, i) implies !encloses(
        content,
        "<think>"@,
        "</think>"@,
        i,
    ) by {
        text::find_from_least(content, "</think>"@, i + "<think>"@.len());
    }
    unreasoned_text_stays(content);
}

/// Whatever markers enclose is reasoning, wherever it stands: none of it survives
/// in a stripped text.
pub proof fn filled_block_is_reasoning(before: Seq<char>, thinking: Seq<char>, after: Seq<char>)
    requires
        thinking.len() > 0,
    ensures
        !text::contains_spec(thinking, "</think>"@) ==> has_reasoning(
            before + "<think>"@ + thinking + "</think>"@ + after,
        ),
        !text::contains_spec(thinking, "<channel|>"@) ==> has_reasoning(
            before + "<|channel>thought\n"@ + thinking + "<channel|>"@ + after,
        ),
        !text::contains_spec(thinking, "</think>"@) ==> forall|content: Seq<char>| #[trigger]
            without_reasoning(content) != before + "<think>"@ + thinking + "</think>"@ + after,
        !text::contains_spec(thinking, "<channel|>"@) ==> forall|content: Seq<char>| #[trigger]
            without_reasoning(content) != before + "<|channel>thought\n"@ + thinking + "<channel|>"@
                + after,
{
    markers_start_once();
    if !text::contains_spec(thinking, "</think>"@) {
        close_is_found(before, "<think>"@, thinking, "</think>"@, after);
        let content = with_block(before, "<think>"@, thinking, "</think>"@, after);
        assert(encloses(content, "<think>"@, "</think>"@, before.len() as int));
        assert(has_filled_block(content, "<think>"@, "</think>"@));
        assert forall|source: Seq<char>| #[trigger] without_reasoning(source) != content by {
            no_reasoning_is_left(source);
        }
    }
    if !text::contains_spec(thinking, "<channel|>"@) {
        close_is_found(before, "<|channel>thought\n"@, thinking, "<channel|>"@, after);
        let content = with_block(before, "<|channel>thought\n"@, thinking, "<channel|>"@, after);
        assert(encloses(content, "<|channel>thought\n"@, "<channel|>"@, before.len() as int));
        assert(has_filled_block(content, "<|channel>thought\n"@, "<channel|>"@));
        assert forall|source: Seq<char>| #[trigger] without_reasoning(source) != content by {
            no_reasoning_is_left(source);
        }
    }
}

/// Stripping takes a block out and goes on with what stands around it.
pub proof fn block_is_stripped(before: Seq<char>, thinking: Seq<char>, after: Seq<char>)
    requires
        thinking.len() > 0,
        !text::contains_spec(before, "<think>"@),
        !text::contains_spec(thinking, "</think>"@),
        between_channel(before + "<think>"@ + thinking + "</think>"@ + after) is None,
    ensures
        without_reasoning(before + "<think>"@ + thinking + "</think>"@ + after)
            == without_reasoning(text::trim_spec(before + after)),
{
    think_block_is_extracted(before, thinking, after, None);
    stripping_goes_on_from_extraction(before + "<think>"@ + thinking + "</think>"@ + after);
}

/// The same of a block in channel markers.
pub proof fn channel_block_is_stripped(before: Seq<char>, thinking: Seq<char>, after: Seq<char>)
    requires
        thinking.len() > 0,
        !text::contains_spec(before, "<|channel>thought\n"@),
        !text::contains_spec(thinking, "<channel|>"@),
    ensures
        without_reasoning(before + "<|channel>thought\n"@ + thinking + "<channel|>"@ + after)
            == without_reasoning(text::trim_spec(before + after)),
{
    channel_block_is_extracted(before, thinking, after, None);
    stripping_goes_on_from_extraction(
        before + "<|channel>thought\n"@ + thinking + "<channel|>"@ + after,
    );
}

/// Between markers of any kind: the first opening marker at `i` and the first closing
/// marker behind it at `j` decide, and nothing else does.
pub proof fn first_block_is_taken(
    content: Seq<char>,
    open: Seq<char>,
    close: Seq<char>,
    i: int,
    j: int,
)
    requires
        0 <= i,
        text::occurs_at(content, open, i),
        forall|k: int| 0 <= k < i ==> !text::occurs_at(content, open, k),
        i + open.len() <= j,
        text::occurs_at(content, close, j),
        forall|k: int| i + open.len() <= k < j ==> !text::occurs_at(content, close, k),
    ensures
        j == i + open.len() ==> between(content, open, close) is None,
        j > i + open.len() ==> between(content, open, close) == Some(
            (
                text::trim_spec(content.take(i) + content.skip(j + close.len())),
                content.subrange(i + open.len(), j),
            ),
        ),
{
    text::find_from_least(content, open, 0);
    text::find_from_least(content, close, i + open.len());
}

} // verus!
