//! Finding where a JSON object at the start of a text ends.

use crate::text;
use vstd::prelude::*;
use vstd::string::*;
use vstd::utf8::*;

verus! {

/// Reads `s` from position `i` on, inside `depth` open braces, and gives the
/// position just after the brace that closes the outermost one. Braces inside
/// strings do not count, and a backslash inside a string takes its next
/// character along.
pub open spec fn closing_from(
    s: Seq<char>,
    i: int,
    depth: int,
    in_string: bool,
    escaped: bool,
) -> Option<int>
    decreases s.len() - i,
{
    if i >= s.len() {
        None
    } else if escaped {
        closing_from(s, i + 1, depth, in_string, false)
    } else if in_string && s[i] == '\\' {
        closing_from(s, i + 1, depth, in_string, true)
    } else if s[i] == '"' {
        closing_from(s, i + 1, depth, !in_string, false)
    } else if !in_string && s[i] == '{' {
        closing_from(s, i + 1, depth + 1, in_string, false)
    } else if !in_string && s[i] == '}' {
        if depth == 1 {
            Some(i + 1)
        } else {
            closing_from(s, i + 1, depth - 1, in_string, false)
        }
    } else {
        closing_from(s, i + 1, depth, in_string, false)
    }
}

/// How many leading characters of `s` are white space.
pub open spec fn blank_prefix(s: Seq<char>) -> int
    decreases s.len(),
{
    if s.len() > 0 && text::is_white(s[0]) {
        1 + blank_prefix(s.skip(1))
    } else {
        0
    }
}

/// The number of characters of `s` up to the end of the JSON object that it
/// starts with, white space before the object included.
pub open spec fn object_end(s: Seq<char>) -> Option<int> {
    let start = blank_prefix(s);
    if start < s.len() && s[start] == '{' {
        closing_from(s, start, 0, false, false)
    } else {
        None
    }
}

/// The same in bytes of the UTF-8 text.
pub open spec fn object_end_bytes(s: Seq<char>) -> Option<int> {
    match object_end(s) {
        Some(k) => Some(encode_utf8(s.take(k)).len() as int),
        None => None,
    }
}

proof fn lemma_blank_prefix(s: Seq<char>, k: int)
    requires
        0 <= k <= s.len(),
        forall|i: int| 0 <= i < k ==> text::is_white(s[i]),
        k < s.len() ==> !text::is_white(s[k]),
    ensures
        blank_prefix(s) == k,
    decreases k,
{
    if k > 0 {
        assert forall|i: int| 0 <= i < k - 1 implies text::is_white(s.skip(1)[i]) by {
            assert(s.skip(1)[i] == s[i + 1]);
        }
        lemma_blank_prefix(s.skip(1), k - 1);
    }
}

/// The end of the object that `chars` starts with, in characters.
pub fn find_end_in_chars(chars: &Vec<char>) -> (r: Option<usize>)
    ensures
        match r {
            Some(k) => object_end(chars@) == Some(k as int) && k <= chars@.len(),
            None => object_end(chars@) is None,
        },
{
    let mut start: usize = 0;
    while start < chars.len() && text::whitespace(chars[start])
        invariant
            start <= chars@.len(),
            forall|i: int| 0 <= i < start ==> text::is_white(chars@[i]),
        decreases chars@.len() - start,
    {
        start += 1;
    }
    proof {
        lemma_blank_prefix(chars@, start as int);
    }
    if start >= chars.len() || chars[start] != '{' {
        return None;
    }
    let mut i: usize = start;
    let mut depth: usize = 0;
    let mut in_string: bool = false;
    let mut escaped: bool = false;
    while i < chars.len()
        invariant
            i <= chars@.len(),
            depth <= i,
            start <= i,
            i == start ==> depth == 0 && !in_string && !escaped,
            i > start ==> depth >= 1,
            chars@[start as int] == '{',
            start < chars@.len(),
            object_end(chars@) == closing_from(chars@, i as int, depth as int, in_string, escaped),
        decreases chars@.len() - i,
    {
        let c = chars[i];
        if escaped {
            escaped = false;
        } else if in_string && c == '\\' {
            escaped = true;
        } else if c == '"' {
            in_string = !in_string;
        } else if !in_string && c == '{' {
            depth += 1;
        } else if !in_string && c == '}' {
            if depth == 1 {
                return Some(i + 1);
            }
            depth -= 1;
        }
        i += 1;
    }
    None
}

/// The byte position just after the JSON object that `s` starts with.
pub fn find_json_object_end(s: &str) -> (r: Option<usize>)
    ensures
        match r {
            Some(n) => object_end_bytes(s@) == Some(n as int),
            None => object_end_bytes(s@) is None,
        },
{
    let chars = text::chars_of(s);
    match find_end_in_chars(&chars) {
        Some(k) => {
            assert(s@.subrange(0, k as int) =~= s@.take(k as int));
            Some(s.substring_char(0, k).as_bytes().len())
        },
        None => None,
    }
}

/// Where a boundary is found it stands right after a closing brace, inside the
/// text.
pub proof fn boundary_closes(s: Seq<char>)
    ensures
        object_end(s) matches Some(k) ==> 0 < k <= s.len() && s[k - 1] == '}',
{
    blank_prefix_range(s);
    if blank_prefix(s) < s.len() {
        closing_closes(s, blank_prefix(s), 0, false, false);
    }
}

proof fn blank_prefix_range(s: Seq<char>)
    ensures
        0 <= blank_prefix(s) <= s.len(),
    decreases s.len(),
{
    if s.len() > 0 && text::is_white(s[0]) {
        blank_prefix_range(s.skip(1));
    }
}

proof fn closing_closes(s: Seq<char>, i: int, depth: int, in_string: bool, escaped: bool)
    requires
        0 <= i,
    ensures
        closing_from(s, i, depth, in_string, escaped) matches Some(k) ==> i < k <= s.len() && s[k - 1]
            == '}',
    decreases s.len() - i,
{
    if i < s.len() {
        closing_closes(s, i + 1, depth, in_string, false);
        closing_closes(s, i + 1, depth, in_string, true);
        closing_closes(s, i + 1, depth, !in_string, false);
        closing_closes(s, i + 1, depth + 1, in_string, false);
        closing_closes(s, i + 1, depth - 1, in_string, false);
    }
}

/// Text after the object does not move its end.
pub proof fn trailing_text_keeps_boundary(s: Seq<char>, rest: Seq<char>)
    requires
        object_end(s) is Some,
    ensures
        object_end(s + rest) == object_end(s),
{
    blank_prefix_range(s);
    blank_prefix_extends(s, rest);
    closing_extends(s, rest, blank_prefix(s), 0, false, false);
}

proof fn blank_prefix_extends(s: Seq<char>, rest: Seq<char>)
    requires
        blank_prefix(s) < s.len(),
    ensures
        blank_prefix(s + rest) == blank_prefix(s),
    decreases s.len(),
{
    if s.len() > 0 && text::is_white(s[0]) {
        blank_prefix_extends(s.skip(1), rest);
        assert((s + rest).skip(1) =~= s.skip(1) + rest);
    }
}

proof fn closing_extends(
    s: Seq<char>,
    rest: Seq<char>,
    i: int,
    depth: int,
    in_string: bool,
    escaped: bool,
)
    requires
        0 <= i,
        closing_from(s, i, depth, in_string, escaped) is Some,
    ensures
        closing_from(s + rest, i, depth, in_string, escaped) == closing_from(
            s,
            i,
            depth,
            in_string,
            escaped,
        ),
    decreases s.len() - i,
{
    assert((s + rest)[i] == s[i]);
    if escaped {
        closing_extends(s, rest, i + 1, depth, in_string, false);
    } else if in_string && s[i] == '\\' {
        closing_extends(s, rest, i + 1, depth, in_string, true);
    } else if s[i] == '"' {
        closing_extends(s, rest, i + 1, depth, !in_string, false);
    } else if !in_string && s[i] == '{' {
        closing_extends(s, rest, i + 1, depth + 1, in_string, false);
    } else if !in_string && s[i] == '}' {
        if depth != 1 {
            closing_extends(s, rest, i + 1, depth - 1, in_string, false);
        }
    } else {
        closing_extends(s, rest, i + 1, depth, in_string, false);
    }
}

/// A character that neither opens nor closes anything.
pub open spec fn is_plain(c: char) -> bool {
    c != '{' && c != '}' && c != '"'
}

proof fn plain_is_passed(s: Seq<char>, i: int, j: int, depth: int)
    requires
        0 <= i <= j <= s.len(),
        forall|k: int| i <= k < j ==> is_plain(#[trigger] s[k]),
    ensures
        closing_from(s, i, depth, false, false) == closing_from(s, j, depth, false, false),
    decreases j - i,
{
    if i < j {
        assert(is_plain(s[i]));
        plain_is_passed(s, i + 1, j, depth);
    }
}

proof fn quoted_is_passed(s: Seq<char>, i: int, j: int, depth: int)
    requires
        0 <= i <= j <= s.len(),
        forall|k: int| i <= k < j ==> (#[trigger] s[k]) != '"' && s[k] != '\\',
    ensures
        closing_from(s, i, depth, true, false) == closing_from(s, j, depth, true, false),
    decreases j - i,
{
    if i < j {
        quoted_is_passed(s, i + 1, j, depth);
    }
}

proof fn braces_come_first(s: Seq<char>)
    requires
        s.len() > 0,
        s[0] == '{',
    ensures
        blank_prefix(s) == 0,
        object_end(s) == closing_from(s, 1, 1, false, false),
{
}

/// A brace closes the one before it: between them stands text that opens and closes
/// nothing. Where no brace closes the object, it has no end.
pub proof fn plain_object_ends_at_its_brace(inner: Seq<char>, rest: Seq<char>)
    requires
        forall|k: int| 0 <= k < inner.len() ==> is_plain(#[trigger] inner[k]),
    ensures
        object_end(seq!['{'] + inner + seq!['}'] + rest) == Some((inner.len() + 2) as int),
        object_end(seq!['{'] + inner) is None,
{
    let s = seq!['{'] + inner + seq!['}'] + rest;
    braces_come_first(s);
    assert forall|k: int| 1 <= k < 1 + inner.len() implies is_plain(#[trigger] s[k]) by {
        assert(s[k] == inner[k - 1]);
    }
    plain_is_passed(s, 1, (1 + inner.len()) as int, 1);
    assert(s[(1 + inner.len()) as int] == '}');
    let open = seq!['{'] + inner;
    braces_come_first(open);
    assert forall|k: int| 1 <= k < open.len() implies is_plain(#[trigger] open[k]) by {
        assert(open[k] == inner[k - 1]);
    }
    plain_is_passed(open, 1, open.len() as int, 1);
}

/// A string hides what stands in it: its braces do not count, and neither does a
/// quote behind a backslash.
pub proof fn strings_hide_their_text(
    before: Seq<char>,
    first: Seq<char>,
    escaped: char,
    second: Seq<char>,
    after: Seq<char>,
    rest: Seq<char>,
)
    requires
        forall|k: int| 0 <= k < before.len() ==> is_plain(#[trigger] before[k]),
        forall|k: int| 0 <= k < after.len() ==> is_plain(#[trigger] after[k]),
        forall|k: int| 0 <= k < first.len() ==> (#[trigger] first[k]) != '"' && first[k] != '\\',
        forall|k: int| 0 <= k < second.len() ==> (#[trigger] second[k]) != '"' && second[k] != '\\',
    ensures
        object_end(
            seq!['{'] + before + seq!['"'] + first + seq!['"'] + after + seq!['}'] + rest,
        ) == Some((before.len() + first.len() + after.len() + 4) as int),
        object_end(
            seq!['{'] + before + seq!['"'] + first + seq!['\\', escaped] + second + seq!['"']
                + after + seq!['}'] + rest,
        ) == Some((before.len() + first.len() + second.len() + after.len() + 6) as int),
{
    string_is_passed(before, first, after, rest);
    escape_is_passed(before, first, escaped, second, after, rest);
}

proof fn string_is_passed(before: Seq<char>, quoted: Seq<char>, after: Seq<char>, rest: Seq<char>)
    requires
        forall|k: int| 0 <= k < before.len() ==> is_plain(#[trigger] before[k]),
        forall|k: int| 0 <= k < after.len() ==> is_plain(#[trigger] after[k]),
        forall|k: int| 0 <= k < quoted.len() ==> (#[trigger] quoted[k]) != '"' && quoted[k] != '\\',
    ensures
        object_end(
            seq!['{'] + before + seq!['"'] + quoted + seq!['"'] + after + seq!['}'] + rest,
        ) == Some((before.len() + quoted.len() + after.len() + 4) as int),
{
    let s = seq!['{'] + before + seq!['"'] + quoted + seq!['"'] + after + seq!['}'] + rest;
    let p = (1 + before.len()) as int;
    let q = (p + 1 + quoted.len()) as int;
    let r = (q + 1 + after.len()) as int;
    braces_come_first(s);
    assert forall|k: int| 1 <= k < p implies is_plain(#[trigger] s[k]) by {
        assert(s[k] == before[k - 1]);
    }
    plain_is_passed(s, 1, p, 1);
    assert(s[p] == '"');
    assert forall|k: int| p + 1 <= k < q implies (#[trigger] s[k]) != '"' && s[k] != '\\' by {
        assert(s[k] == quoted[k - p - 1]);
    }
    quoted_is_passed(s, p + 1, q, 1);
    assert(s[q] == '"');
    assert forall|k: int| q + 1 <= k < r implies is_plain(#[trigger] s[k]) by {
        assert(s[k] == after[k - q - 1]);
    }
    plain_is_passed(s, q + 1, r, 1);
    assert(s[r] == '}');
}

proof fn escape_is_passed(
    before: Seq<char>,
    first: Seq<char>,
    escaped: char,
    second: Seq<char>,
    after: Seq<char>,
    rest: Seq<char>,
)
    requires
        forall|k: int| 0 <= k < before.len() ==> is_plain(#[trigger] before[k]),
        forall|k: int| 0 <= k < after.len() ==> is_plain(#[trigger] after[k]),
        forall|k: int| 0 <= k < first.len() ==> (#[trigger] first[k]) != '"' && first[k] != '\\',
        forall|k: int| 0 <= k < second.len() ==> (#[trigger] second[k]) != '"' && second[k] != '\\',
    ensures
        object_end(
            seq!['{'] + before + seq!['"'] + first + seq!['\\', escaped] + second + seq!['"']
                + after + seq!['}'] + rest,
        ) == Some((before.len() + first.len() + second.len() + after.len() + 6) as int),
{
    let s = seq!['{'] + before + seq!['"'] + first + seq!['\\', escaped] + second + seq!['"']
        + after + seq!['}'] + rest;
    let p = (1 + before.len()) as int;
    let e = (p + 1 + first.len()) as int;
    let q = (e + 2 + second.len()) as int;
    let r = (q + 1 + after.len()) as int;
    braces_come_first(s);
    assert forall|k: int| 1 <= k < p implies is_plain(#[trigger] s[k]) by {
        assert(s[k] == before[k - 1]);
    }
    plain_is_passed(s, 1, p, 1);
    assert(s[p] == '"');
    assert forall|k: int| p + 1 <= k < e implies (#[trigger] s[k]) != '"' && s[k] != '\\' by {
        assert(s[k] == first[k - p - 1]);
    }
    quoted_is_passed(s, p + 1, e, 1);
    assert(s[e] == '\\');
    assert(closing_from(s, e, 1, true, false) == closing_from(s, e + 1, 1, true, true));
    assert(closing_from(s, e + 1, 1, true, true) == closing_from(s, e + 2, 1, true, false));
    assert forall|k: int| e + 2 <= k < q implies (#[trigger] s[k]) != '"' && s[k] != '\\' by {
        assert(s[k] == second[k - e - 2]);
    }
    quoted_is_passed(s, e + 2, q, 1);
    assert(s[q] == '"');
    assert forall|k: int| q + 1 <= k < r implies is_plain(#[trigger] s[k]) by {
        assert(s[k] == after[k - q - 1]);
    }
    plain_is_passed(s, q + 1, r, 1);
    assert(s[r] == '}');
}

/// Objects nest: an object inside another does not end the outer one.
pub proof fn inner_object_is_passed(
    before: Seq<char>,
    inner: Seq<char>,
    after: Seq<char>,
    rest: Seq<char>,
)
    requires
        forall|k: int| 0 <= k < before.len() ==> is_plain(#[trigger] before[k]),
        forall|k: int| 0 <= k < after.len() ==> is_plain(#[trigger] after[k]),
        inner.len() > 0,
        inner[0] == '{',
        object_end(inner) == Some(inner.len() as int),
    ensures
        object_end(seq!['{'] + before + inner + after + seq!['}'] + rest) == Some(
            (before.len() + inner.len() + after.len() + 2) as int,
        ),
{
    let front = seq!['{'] + before;
    let back = after + seq!['}'] + rest;
    let s = front + inner + back;
    assert(seq!['{'] + before + inner + after + seq!['}'] + rest =~= s);
    braces_come_first(s);
    braces_come_first(inner);
    let p = front.len() as int;
    let q = (p + inner.len()) as int;
    let r = (q + after.len()) as int;
    assert forall|k: int| 1 <= k < p implies is_plain(#[trigger] s[k]) by {
        assert(s[k] == before[k - 1]);
    }
    plain_is_passed(s, 1, p, 1);
    assert(s[p] == inner[0]);
    inner_closing_is_passed(front, inner, back, 1, 1, false, false);
    assert forall|k: int| q <= k < r implies is_plain(#[trigger] s[k]) by {
        assert(s[k] == after[k - q]);
    }
    plain_is_passed(s, q, r, 1);
    assert(s[r] == '}');
}

proof fn inner_closing_is_passed(
    front: Seq<char>,
    inner: Seq<char>,
    back: Seq<char>,
    i: int,
    depth: int,
    in_string: bool,
    escaped: bool,
)
    requires
        0 <= i,
        depth >= 1,
        closing_from(inner, i, depth, in_string, escaped) == Some(inner.len() as int),
    ensures
        closing_from(front + inner + back, front.len() + i, 1 + depth, in_string, escaped)
            == closing_from(front + inner + back, (front.len() + inner.len()) as int, 1, false, false),
    decreases inner.len() - i,
{
    let s = front + inner + back;
    assert(s[front.len() + i] == inner[i]);
    if escaped {
        inner_closing_is_passed(front, inner, back, i + 1, depth, in_string, false);
    } else if in_string && inner[i] == '\\' {
        inner_closing_is_passed(front, inner, back, i + 1, depth, in_string, true);
    } else if inner[i] == '"' {
        inner_closing_is_passed(front, inner, back, i + 1, depth, !in_string, false);
    } else if !in_string && inner[i] == '{' {
        inner_closing_is_passed(front, inner, back, i + 1, depth + 1, in_string, false);
    } else if !in_string && inner[i] == '}' {
        if depth != 1 {
            inner_closing_is_passed(front, inner, back, i + 1, depth - 1, in_string, false);
        }
    } else {
        inner_closing_is_passed(front, inner, back, i + 1, depth, in_string, false);
    }
}

/// White space before the object counts, and anything else there means that the text
/// starts with no object.
pub proof fn object_stands_at_the_start(blank: Seq<char>, s: Seq<char>)
    requires
        forall|k: int| 0 <= k < blank.len() ==> text::is_white(#[trigger] blank[k]),
        s.len() > 0,
        !text::is_white(s[0]),
    ensures
        s[0] == '{' ==> object_end(blank + s) == (match object_end(s) {
            Some(k) => Some(blank.len() + k),
            None => None,
        }),
        s[0] != '{' ==> object_end(blank + s) is None,
        object_end(blank) is None,
{
    let whole = blank + s;
    assert forall|i: int| 0 <= i < blank.len() implies text::is_white(whole[i]) by {
        assert(whole[i] == blank[i]);
    }
    assert(whole[blank.len() as int] == s[0]);
    lemma_blank_prefix(whole, blank.len() as int);
    lemma_blank_prefix(blank, blank.len() as int);
    lemma_blank_prefix(s, 0);
    if s[0] == '{' {
        closing_shifts(blank, s, 0, 0, false, false);
    }
}

proof fn closing_shifts(
    front: Seq<char>,
    s: Seq<char>,
    i: int,
    depth: int,
    in_string: bool,
    escaped: bool,
)
    requires
        0 <= i,
    ensures
        closing_from(front + s, front.len() + i, depth, in_string, escaped) == (match closing_from(
            s,
            i,
            depth,
            in_string,
            escaped,
        ) {
            Some(k) => Some(front.len() + k),
            None => None,
        }),
    decreases s.len() - i,
{
    if i < s.len() {
        assert((front + s)[front.len() + i] == s[i]);
        if escaped {
            closing_shifts(front, s, i + 1, depth, in_string, false);
        } else if in_string && s[i] == '\\' {
            closing_shifts(front, s, i + 1, depth, in_string, true);
        } else if s[i] == '"' {
            closing_shifts(front, s, i + 1, depth, !in_string, false);
        } else if !in_string && s[i] == '{' {
            closing_shifts(front, s, i + 1, depth + 1, in_string, false);
        } else if !in_string && s[i] == '}' {
            if depth != 1 {
                closing_shifts(front, s, i + 1, depth - 1, in_string, false);
            }
        } else {
            closing_shifts(front, s, i + 1, depth, in_string, false);
        }
    }
}

proof fn bytes_concat(a: Seq<char>, b: Seq<char>)
    ensures
        encode_utf8(a + b) == encode_utf8(a) + encode_utf8(b),
    decreases a.len(),
{
    if a.len() == 0 {
        assert(a + b =~= b);
        assert(encode_utf8(a) + encode_utf8(b) =~= encode_utf8(b));
    } else {
        bytes_concat(a.drop_first(), b);
        assert((a + b).drop_first() =~= a.drop_first() + b);
        assert(encode_utf8(a + b) =~= encode_utf8(a) + encode_utf8(b));
    }
}

/// The end in bytes cuts the UTF-8 text where the object ends: the bytes before it are
/// those of the object, and the bytes behind it those of the rest.
pub proof fn byte_end_cuts_at_the_boundary(s: Seq<char>)
    ensures
        object_end(s) is None <==> object_end_bytes(s) is None,
        object_end_bytes(s) matches Some(n) ==> object_end(s) matches Some(k) && 0 <= n
            <= encode_utf8(s).len() && encode_utf8(s).take(n) == encode_utf8(s.take(k))
            && encode_utf8(s).skip(n) == encode_utf8(s.skip(k)),
{
    boundary_closes(s);
    if let Some(k) = object_end(s) {
        bytes_concat(s.take(k), s.skip(k));
        assert(s.take(k) + s.skip(k) =~= s);
        let n = encode_utf8(s.take(k)).len() as int;
        assert(encode_utf8(s).take(n) =~= encode_utf8(s.take(k)));
        assert(encode_utf8(s).skip(n) =~= encode_utf8(s.skip(k)));
    }
}

} // verus!
