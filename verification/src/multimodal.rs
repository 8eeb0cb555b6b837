//! Image references inside message text.
//!
//! A user message refers to an image by a marker `[IMAGE:reference]`. The
//! reference is a data URI or anything else that names an image.

use crate::text;
use vstd::prelude::*;
use vstd::string::*;

verus! {

/// Reads `content` from `cursor` on: the text outside of markers, and the
/// references of the markers, in order. A marker whose reference is blank stays
/// in the text, and so does an opening that is never closed.
pub open spec fn markers_from(content: Seq<char>, cursor: int) -> (Seq<char>, Seq<Seq<char>>)
    decreases content.len() - cursor,
    when 0 <= cursor <= content.len()
{
    match text::find_from(content, "[IMAGE:"@, cursor) {
        None => (content.skip(cursor), Seq::empty()),
        Some(start) => {
            let inner = start + "[IMAGE:"@.len();
            match text::find_from(content, "]"@, inner) {
                None => (content.skip(cursor), Seq::empty()),
                Some(end) => {
                    proof {
                        text::find_from_least(content, "[IMAGE:"@, cursor);
                        text::find_from_least(content, "]"@, inner);
                        reveal_strlit("]");
                    }
                    let reference = text::trim_spec(content.subrange(inner, end));
                    let rest = markers_from(content, end + 1);
                    if reference.len() == 0 {
                        (content.subrange(cursor, end + 1) + rest.0, rest.1)
                    } else {
                        (content.subrange(cursor, start) + rest.0, seq![reference] + rest.1)
                    }
                },
            }
        },
    }
}

/// The text without its image markers, trimmed, and the references.
pub open spec fn image_markers(content: Seq<char>) -> (Seq<char>, Seq<Seq<char>>) {
    (text::trim_spec(markers_from(content, 0).0), markers_from(content, 0).1)
}

/// Splits image references off a message text.
pub fn parse_image_markers(content: &str) -> (r: (String, Vec<String>))
    ensures
        r.0@ == image_markers(content@).0,
        text::texts(r.1@) == image_markers(content@).1,
{
    let chars = text::chars_of(content);
    let total: usize = chars.len();
    let open = text::chars_of("[IMAGE:");
    let close = text::chars_of("]");
    proof {
        reveal_strlit("[IMAGE:");
        reveal_strlit("]");
    }
    let mut cleaned = String::new();
    let mut refs: Vec<String> = Vec::new();
    let mut cursor: usize = 0;
    let mut searching: bool = true;
    assert(text::texts(refs@) =~= Seq::<Seq<char>>::empty());
    assert(Seq::<char>::empty() + markers_from(content@, 0).0 =~= markers_from(content@, 0).0);
    assert(Seq::<Seq<char>>::empty() + markers_from(content@, 0).1 =~= markers_from(content@, 0).1);
    while searching
        invariant
            chars@ == content@,
            total == content@.len(),
            open@ == "[IMAGE:"@,
            close@ == "]"@,
            "[IMAGE:"@.len() == 7,
            "]"@.len() == 1,
            cursor <= total,
            searching ==> markers_from(content@, 0).0 == cleaned@ + markers_from(
                content@,
                cursor as int,
            ).0,
            searching ==> markers_from(content@, 0).1 == text::texts(refs@) + markers_from(
                content@,
                cursor as int,
            ).1,
            !searching ==> markers_from(content@, 0).0 == cleaned@,
            !searching ==> markers_from(content@, 0).1 == text::texts(refs@),
        decreases total - cursor, if searching { 1int } else { 0int },
    {
        let ghost here = markers_from(content@, cursor as int);
        proof {
            text::find_from_least(content@, open@, cursor as int);
        }
        let mut next: Option<(usize, usize)> = None;
        if let Some(start) = text::find_chars(&chars, &open, cursor) {
            proof {
                text::find_from_least(content@, close@, start + 7);
            }
            if let Some(end) = text::find_chars(&chars, &close, start + 7) {
                next = Some((start, end));
            }
        }
        match next {
            None => {
                let tail = text::text_of(&chars, cursor, total);
                assert(tail@ =~= content@.skip(cursor as int));
                assert(text::texts(refs@) + Seq::<Seq<char>>::empty() =~= text::texts(refs@));
                cleaned.append(tail.as_str());
                searching = false;
            },
            Some((start, end)) => {
                let (lo, hi) = text::trim_bounds(&chars, start + 7, end);
                let ghost before = cleaned@;
                let ghost rest = markers_from(content@, end + 1);
                if lo == hi {
                    let kept = text::text_of(&chars, cursor, end + 1);
                    cleaned.append(kept.as_str());
                    assert(before + (kept@ + rest.0) =~= before + kept@ + rest.0);
                } else {
                    let kept = text::text_of(&chars, cursor, start);
                    cleaned.append(kept.as_str());
                    let ghost old_refs = refs@;
                    let reference = text::text_of(&chars, lo, hi);
                    refs.push(reference);
                    assert(text::texts(refs@) =~= text::texts(old_refs).push(reference@));
                    assert(before + (kept@ + rest.0) =~= before + kept@ + rest.0);
                    assert(text::texts(old_refs) + (seq![reference@] + rest.1) =~= text::texts(
                        old_refs,
                    ).push(reference@) + rest.1);
                }
                cursor = end + 1;
            },
        }
    }
    (text::trim(cleaned.as_str()), refs)
}

/// The image payload of a reference: of a data URI what follows the first
/// comma, of any other reference all of it, trimmed; nothing where that is
/// empty.
pub open spec fn image_payload(reference: Seq<char>) -> Option<Seq<char>> {
    let payload = if text::starts_with_spec(reference, "data:"@) {
        match text::find_spec(reference, ","@) {
            Some(i) => text::trim_spec(reference.skip(i + 1)),
            None => Seq::empty(),
        }
    } else {
        text::trim_spec(reference)
    };
    if payload.len() == 0 {
        None
    } else {
        Some(payload)
    }
}

/// The image payload of a reference.
pub fn extract_ollama_image_payload(image_ref: &str) -> (r: Option<String>)
    ensures
        text::opt_text(r) == image_payload(image_ref@),
{
    let chars = text::chars_of(image_ref);
    let total: usize = chars.len();
    let mut from: usize = 0;
    if text::starts_with(image_ref, "data:") {
        let comma = text::chars_of(",");
        proof {
            reveal_strlit(",");
            text::find_from_least(chars@, comma@, 0);
        }
        match text::find_chars(&chars, &comma, 0) {
            Some(i) => {
                from = i + 1;
            },
            None => {
                return None;
            },
        }
    }
    let (lo, hi) = text::trim_bounds(&chars, from, total);
    assert(chars@.subrange(from as int, total as int) =~= image_ref@.skip(from as int));
    assert(image_ref@.skip(0) =~= image_ref@);
    if lo == hi {
        None
    } else {
        Some(text::text_of(&chars, lo, hi))
    }
}

/// A text without a marker keeps its words and refers to no image.
pub proof fn unmarked_text_has_no_images(content: Seq<char>)
    requires
        !text::contains_spec(content, "[IMAGE:"@),
    ensures
        markers_from(content, 0) == (content, Seq::<Seq<char>>::empty()),
        image_markers(content) == (text::trim_spec(content), Seq::<Seq<char>>::empty()),
{
    text::find_from_least(content, "[IMAGE:"@, 0);
    assert(content.skip(0) =~= content);
}

proof fn markers_shift(front: Seq<char>, rest: Seq<char>, cursor: int)
    requires
        0 <= cursor <= rest.len(),
    ensures
        markers_from(front + rest, front.len() + cursor) == markers_from(rest, cursor),
    decreases rest.len() - cursor,
{
    reveal_strlit("]");
    let whole = front + rest;
    let p = front.len() as int;
    text::find_from_shift(front, rest, "[IMAGE:"@, cursor);
    text::find_from_least(rest, "[IMAGE:"@, cursor);
    text::find_from_least(whole, "[IMAGE:"@, p + cursor);
    assert(whole.skip(p + cursor) =~= rest.skip(cursor));
    if let Some(start) = text::find_from(rest, "[IMAGE:"@, cursor) {
        let inner = (start + "[IMAGE:"@.len()) as int;
        text::find_from_shift(front, rest, "]"@, inner);
        text::find_from_least(rest, "]"@, inner);
        text::find_from_least(whole, "]"@, p + inner);
        if let Some(end) = text::find_from(rest, "]"@, inner) {
            markers_shift(front, rest, end + 1);
            assert(whole.subrange(p + inner, p + end) =~= rest.subrange(inner, end));
            assert(whole.subrange(p + cursor, p + end + 1) =~= rest.subrange(cursor, end + 1));
            assert(whole.subrange(p + cursor, p + start) =~= rest.subrange(cursor, start));
        }
    }
}

proof fn first_marker_splits(before: Seq<char>, reference: Seq<char>, after: Seq<char>)
    requires
        !text::contains_spec(before, "[IMAGE:"@),
        !text::contains_spec(reference, "]"@),
    ensures
        ({
            let content = before + "[IMAGE:"@ + reference + "]"@ + after;
            let rest = markers_from(after, 0);
            markers_from(content, 0) == (if text::trim_spec(reference).len() == 0 {
                (before + "[IMAGE:"@ + reference + "]"@ + rest.0, rest.1)
            } else {
                (before + rest.0, seq![text::trim_spec(reference)] + rest.1)
            })
        }),
{
    reveal_strlit("[IMAGE:");
    reveal_strlit("]");
    let open = "[IMAGE:"@;
    let close = "]"@;
    let content = before + open + reference + close + after;
    let start = before.len() as int;
    let inner = (start + open.len()) as int;
    let end = (inner + reference.len()) as int;
    assert(content.subrange(start, inner) =~= open);
    assert(content.subrange(end, end + close.len()) =~= close);
    assert(content.subrange(0, start) =~= before);
    assert(content.subrange(inner, end) =~= reference);
    text::marker_is_found(content, open, 0, start);
    text::marker_is_found(content, close, inner, end);
    let front = before + open + reference + close;
    markers_shift(front, after, 0);
    assert(front + after =~= content);
    assert(content.subrange(0, end + 1) =~= front);
}

/// A marker is taken out of the text, wherever it stands, and its reference, trimmed,
/// comes before those of the markers behind it. The text around it is kept in order.
pub proof fn marker_is_split_off(before: Seq<char>, reference: Seq<char>, after: Seq<char>)
    requires
        !text::contains_spec(before, "[IMAGE:"@),
        !text::contains_spec(reference, "]"@),
        text::trim_spec(reference).len() > 0,
    ensures
        ({
            let content = before + "[IMAGE:"@ + reference + "]"@ + after;
            &&& image_markers(content).1 == seq![text::trim_spec(reference)] + image_markers(after).1
            &&& image_markers(content).0 == text::trim_spec(before + markers_from(after, 0).0)
            &&& markers_from(content, 0).0 == before + markers_from(after, 0).0
            &&& !text::contains_spec(after, "[IMAGE:"@) ==> image_markers(content) == (
                text::trim_spec(before + after),
                seq![text::trim_spec(reference)],
            )
        }),
{
    first_marker_splits(before, reference, after);
    text::find_from_least(after, "[IMAGE:"@, 0);
    assert(after.skip(0) =~= after);
    if !text::contains_spec(after, "[IMAGE:"@) {
        assert(seq![text::trim_spec(reference)] + Seq::<Seq<char>>::empty() =~= seq![
            text::trim_spec(reference),
        ]);
    }
}

/// A marker with a blank reference refers to no image and stays in the text, whatever
/// markers stand behind it.
pub proof fn blank_marker_stays(before: Seq<char>, reference: Seq<char>, after: Seq<char>)
    requires
        !text::contains_spec(before, "[IMAGE:"@),
        !text::contains_spec(reference, "]"@),
        text::trim_spec(reference).len() == 0,
    ensures
        ({
            let marked = before + "[IMAGE:"@ + reference + "]"@;
            &&& image_markers(marked + after).1 == image_markers(after).1
            &&& image_markers(marked + after).0 == text::trim_spec(
                marked + markers_from(after, 0).0,
            )
            &&& markers_from(marked + after, 0).0 == marked + markers_from(after, 0).0
            &&& !text::contains_spec(after, "[IMAGE:"@) ==> image_markers(marked + after) == (
                text::trim_spec(marked + after),
                Seq::<Seq<char>>::empty(),
            )
        }),
{
    first_marker_splits(before, reference, after);
    text::find_from_least(after, "[IMAGE:"@, 0);
    assert(after.skip(0) =~= after);
}

/// An opening that is never closed refers to no image and stays in the text.
pub proof fn unclosed_marker_stays(content: Seq<char>)
    requires
        !text::contains_spec(content, "]"@),
    ensures
        markers_from(content, 0) == (content, Seq::<Seq<char>>::empty()),
        image_markers(content) == (text::trim_spec(content), Seq::<Seq<char>>::empty()),
{
    text::find_from_least(content, "[IMAGE:"@, 0);
    if let Some(i) = text::find_from(content, "[IMAGE:"@, 0) {
        text::find_from_least(content, "]"@, i + "[IMAGE:"@.len());
    }
    assert(content.skip(0) =~= content);
}

/// The payload of a data URI is all that follows its first comma, trimmed.
pub proof fn data_uri_gives_its_data(kind: Seq<char>, data: Seq<char>)
    requires
        !kind.contains(','),
    ensures
        text::trim_spec(data).len() > 0 ==> image_payload("data:"@ + kind + ","@ + data) == Some(
            text::trim_spec(data),
        ),
        text::trim_spec(data).len() == 0 ==> image_payload("data:"@ + kind + ","@ + data) is None,
{
    reveal_strlit("data:");
    reveal_strlit(",");
    let reference = "data:"@ + kind + ","@ + data;
    let at = ("data:"@.len() + kind.len()) as int;
    assert(reference.take("data:"@.len() as int) =~= "data:"@);
    assert(reference.subrange(at, at + 1) =~= ","@);
    assert(text::occurs_at(reference, ","@, at));
    let part = reference.subrange(0, at);
    if text::contains_spec(part, ","@) {
        let i = choose|i: int| text::occurs_at(part, ","@, i);
        assert(part.subrange(i, i + ","@.len())[0] == part[i]);
        if i >= "data:"@.len() {
            assert(kind[i - "data:"@.len()] == ',');
        }
    }
    text::marker_is_found(reference, ","@, 0, at);
    assert(reference.skip(at + 1) =~= data);
}

/// A reference of another kind is its own payload, trimmed; a data URI without a
/// comma has none.
pub proof fn other_references_are_payloads(reference: Seq<char>)
    ensures
        !text::starts_with_spec(reference, "data:"@) && text::trim_spec(reference).len() > 0
            ==> image_payload(reference) == Some(text::trim_spec(reference)),
        !text::starts_with_spec(reference, "data:"@) && text::trim_spec(reference).len() == 0
            ==> image_payload(reference) is None,
        text::starts_with_spec(reference, "data:"@) && !text::contains_spec(reference, ","@)
            ==> image_payload(reference) is None,
{
    text::find_from_least(reference, ","@, 0);
}

/// An opening behind which nothing closes it stays in the text with all that stands
/// around it, whatever stands before it.
pub proof fn open_end_stays(before: Seq<char>, tail: Seq<char>)
    requires
        !text::contains_spec(before, "[IMAGE:"@),
        !text::contains_spec(tail, "]"@),
    ensures
        markers_from(before + "[IMAGE:"@ + tail, 0) == (
            before + "[IMAGE:"@ + tail,
            Seq::<Seq<char>>::empty(),
        ),
{
    reveal_strlit("[IMAGE:");
    let open = "[IMAGE:"@;
    let content = before + open + tail;
    let start = before.len() as int;
    let inner = (start + open.len()) as int;
    assert(content.subrange(start, inner) =~= open);
    assert(content.subrange(0, start) =~= before);
    text::marker_is_found(content, open, 0, start);
    text::find_from_least(content, "]"@, inner);
    if let Some(j) = text::find_from(content, "]"@, inner) {
        assert(tail.subrange(j - inner, j - inner + "]"@.len()) =~= content.subrange(
            j,
            j + "]"@.len(),
        ));
        assert(text::occurs_at(tail, "]"@, j - inner));
        text::find_from_least(tail, "]"@, 0);
    }
    assert(content.skip(0) =~= content);
}

} // verus!
