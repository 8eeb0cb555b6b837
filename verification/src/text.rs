//! Text primitives: trimming, ASCII case folding, searching, line splitting
//! and decimal rendering, each with its meaning as a function on `Seq<char>`.

use vstd::prelude::*;
use vstd::string::*;
use vstd::utf8::*;

verus! {

/// `String::push` appends one character.
pub assume_specification[ String::push ](s: &mut String, c: char)
    ensures
        final(s)@ == old(s)@.push(c),
;

// ── Characters ──────────────────────────────────────────────────────

/// The Unicode `White_Space` property.
pub open spec fn is_white(c: char) -> bool {
    ||| '\u{9}' <= c <= '\u{d}'
    ||| c == '\u{20}'
    ||| c == '\u{85}'
    ||| c == '\u{a0}'
    ||| c == '\u{1680}'
    ||| '\u{2000}' <= c <= '\u{200a}'
    ||| c == '\u{2028}'
    ||| c == '\u{2029}'
    ||| c == '\u{202f}'
    ||| c == '\u{205f}'
    ||| c == '\u{3000}'
}

/// ASCII lower-casing of one character; everything outside `A..=Z` stays.
pub open spec fn lower_char(c: char) -> char {
    if 'A' <= c <= 'Z' {
        (c as u32 + 32) as char
    } else {
        c
    }
}

/// ASCII lower-casing of a text.
pub open spec fn lower(s: Seq<char>) -> Seq<char> {
    Seq::new(s.len(), |i: int| lower_char(s[i]))
}

pub fn whitespace(c: char) -> (r: bool)
    ensures
        r == is_white(c),
{
    ('\u{9}' <= c && c <= '\u{d}') || c == '\u{20}' || c == '\u{85}' || c == '\u{a0}' || c
        == '\u{1680}' || ('\u{2000}' <= c && c <= '\u{200a}') || c == '\u{2028}' || c == '\u{2029}'
        || c == '\u{202f}' || c == '\u{205f}' || c == '\u{3000}'
}

fn lowered(c: char) -> (r: char)
    ensures
        r == lower_char(c),
{
    if 'A' <= c && c <= 'Z' {
        ((c as u8) + 32) as char
    } else {
        c
    }
}

// ── Conversions ─────────────────────────────────────────────────────

/// The characters of a text.
pub fn chars_of(s: &str) -> (r: Vec<char>)
    ensures
        r@ == s@,
{
    let mut out: Vec<char> = Vec::new();
    for c in it: s.chars()
        invariant
            it.seq() == s@,
            out@ == s@.take(it.index() as int),
    {
        out.push(c);
    }
    assert(s@.take(s@.len() as int) == s@);
    out
}

/// The text made of `chars[from..to]`.
pub fn text_of(chars: &Vec<char>, from: usize, to: usize) -> (r: String)
    requires
        from <= to <= chars@.len(),
    ensures
        r@ == chars@.subrange(from as int, to as int),
{
    let mut out = String::new();
    let mut i: usize = from;
    while i < to
        invariant
            from <= i <= to <= chars@.len(),
            out@ == chars@.subrange(from as int, i as int),
        decreases to - i,
    {
        out.push(chars[i]);
        i += 1;
    }
    out
}

/// Whether two texts are the same.
pub fn same_text(a: &str, b: &str) -> (r: bool)
    ensures
        r == (a@ == b@),
{
    let x = a.as_bytes();
    let y = b.as_bytes();
    proof {
        encode_utf8_decode_utf8(a@);
        encode_utf8_decode_utf8(b@);
    }
    if x.len() != y.len() {
        return false;
    }
    let mut i: usize = 0;
    while i < x.len()
        invariant
            x@ == encode_utf8(a@),
            y@ == encode_utf8(b@),
            x@.len() == y@.len(),
            i <= x@.len(),
            forall|j: int| 0 <= j < i ==> x@[j] == y@[j],
        decreases x@.len() - i,
    {
        if x[i] != y[i] {
            return false;
        }
        i += 1;
    }
    assert(x@ == y@);
    true
}

/// ASCII lower-casing.
pub fn to_lower(s: &str) -> (r: String)
    ensures
        r@ == lower(s@),
{
    let mut out = String::new();
    for c in it: s.chars()
        invariant
            it.seq() == s@,
            out@ == lower(s@).take(it.index() as int),
    {
        out.push(lowered(c));
    }
    assert(lower(s@).take(s@.len() as int) == lower(s@));
    out
}

/// The texts of a list of strings.
pub open spec fn texts(items: Seq<String>) -> Seq<Seq<char>> {
    items.map_values(|s: String| s@)
}

/// The text of an optional string.
pub open spec fn opt_text(s: Option<String>) -> Option<Seq<char>> {
    match s {
        Some(t) => Some(t@),
        None => None,
    }
}

/// The text of an optional string slice.
pub open spec fn opt_str(s: Option<&str>) -> Option<Seq<char>> {
    match s {
        Some(t) => Some(t@),
        None => None,
    }
}

/// An owned copy of an optional text.
pub fn owned(s: Option<&str>) -> (r: Option<String>)
    ensures
        opt_text(r) == opt_str(s),
{
    match s {
        Some(t) => Some(t.to_string()),
        None => None,
    }
}

/// A copy of a list of texts.
pub fn copy_texts(items: &Vec<String>) -> (r: Vec<String>)
    ensures
        texts(r@) == texts(items@),
{
    let mut out: Vec<String> = Vec::new();
    let mut i: usize = 0;
    while i < items.len()
        invariant
            i <= items@.len(),
            out@.len() == i,
            forall|k: int| 0 <= k < i ==> (#[trigger] out@[k])@ == items@[k]@,
        decreases items@.len() - i,
    {
        out.push(items[i].clone());
        i += 1;
    }
    assert(texts(out@) =~= texts(items@));
    out
}

/// Whether `items` holds `name`.
pub fn lists(items: &Vec<String>, name: &str) -> (r: bool)
    ensures
        r == texts(items@).contains(name@),
{
    let mut i: usize = 0;
    while i < items.len()
        invariant
            i <= items@.len(),
            forall|k: int| 0 <= k < i ==> (#[trigger] items@[k])@ != name@,
        decreases items@.len() - i,
    {
        if same_text(items[i].as_str(), name) {
            assert(texts(items@)[i as int] == name@);
            return true;
        }
        i += 1;
    }
    assert forall|k: int| 0 <= k < items@.len() implies texts(items@)[k] != name@ by {
        assert(items@[k]@ != name@);
    }
    false
}

/// `a` followed by `b`.
pub fn concat_two(a: &str, b: &str) -> (r: String)
    ensures
        r@ == a@ + b@,
{
    let mut out = a.to_string();
    out.append(b);
    out
}

// ── Trimming ────────────────────────────────────────────────────────

/// `s` without its leading white space.
pub open spec fn trim_start_spec(s: Seq<char>) -> Seq<char>
    decreases s.len(),
{
    if s.len() > 0 && is_white(s[0]) {
        trim_start_spec(s.skip(1))
    } else {
        s
    }
}

/// `s` without its trailing white space.
pub open spec fn trim_end_spec(s: Seq<char>) -> Seq<char>
    decreases s.len(),
{
    if s.len() > 0 && is_white(s.last()) {
        trim_end_spec(s.drop_last())
    } else {
        s
    }
}

/// `s` without leading and trailing white space.
pub open spec fn trim_spec(s: Seq<char>) -> Seq<char> {
    trim_end_spec(trim_start_spec(s))
}

/// `s` without its trailing run of `c`.
pub open spec fn trim_end_char_spec(s: Seq<char>, c: char) -> Seq<char>
    decreases s.len(),
{
    if s.len() > 0 && s.last() == c {
        trim_end_char_spec(s.drop_last(), c)
    } else {
        s
    }
}

proof fn lemma_trim_start_at(s: Seq<char>, k: int)
    requires
        0 <= k <= s.len(),
        forall|i: int| 0 <= i < k ==> is_white(s[i]),
        k < s.len() ==> !is_white(s[k]),
    ensures
        trim_start_spec(s) == s.skip(k),
    decreases k,
{
    if k > 0 {
        let t = s.skip(1);
        assert forall|i: int| 0 <= i < k - 1 implies is_white(t[i]) by {
            assert(t[i] == s[i + 1]);
        }
        lemma_trim_start_at(t, k - 1);
        assert(t.skip(k - 1) =~= s.skip(k));
    } else {
        assert(s.skip(0) =~= s);
    }
}

proof fn lemma_trim_end_at(s: Seq<char>, k: int)
    requires
        0 <= k <= s.len(),
        forall|i: int| k <= i < s.len() ==> is_white(s[i]),
        k > 0 ==> !is_white(s[k - 1]),
    ensures
        trim_end_spec(s) == s.take(k),
    decreases s.len(),
{
    if k < s.len() {
        lemma_trim_end_at(s.drop_last(), k);
        assert(s.drop_last().take(k) =~= s.take(k));
    } else {
        assert(s.take(k) =~= s);
    }
}

/// The bounds of `chars[from..to]` without leading and trailing white space.
pub fn trim_bounds(chars: &Vec<char>, from: usize, to: usize) -> (r: (usize, usize))
    requires
        from <= to <= chars@.len(),
    ensures
        from <= r.0 <= r.1 <= to,
        chars@.subrange(r.0 as int, r.1 as int) == trim_spec(chars@.subrange(from as int, to as int)),
{
    let mut lo: usize = from;
    while lo < to && whitespace(chars[lo])
        invariant
            from <= lo <= to <= chars@.len(),
            forall|i: int| from <= i < lo ==> is_white(chars@[i]),
        decreases to - lo,
    {
        lo += 1;
    }
    let mut hi: usize = to;
    while hi > lo && whitespace(chars[hi - 1])
        invariant
            from <= lo <= hi <= to <= chars@.len(),
            forall|i: int| hi <= i < to ==> is_white(chars@[i]),
        decreases hi,
    {
        hi -= 1;
    }
    proof {
        let s = chars@.subrange(from as int, to as int);
        lemma_trim_start_at(s, lo - from);
        let t = s.skip(lo - from);
        assert(t =~= chars@.subrange(lo as int, to as int));
        lemma_trim_end_at(t, hi - lo);
        assert(t.take(hi - lo) =~= chars@.subrange(lo as int, hi as int));
    }
    (lo, hi)
}

/// `s` without leading and trailing white space.
pub fn trim(s: &str) -> (r: String)
    ensures
        r@ == trim_spec(s@),
{
    let chars = chars_of(s);
    let (lo, hi) = trim_bounds(&chars, 0, chars.len());
    assert(chars@.subrange(0, chars@.len() as int) =~= s@);
    text_of(&chars, lo, hi)
}

/// `s` without its trailing run of `c`.
pub fn trim_end_char(s: &str, c: char) -> (r: String)
    ensures
        r@ == trim_end_char_spec(s@, c),
{
    let chars = chars_of(s);
    let mut hi: usize = chars.len();
    assert(s@.take(hi as int) =~= s@);
    while hi > 0 && chars[hi - 1] == c
        invariant
            hi <= chars@.len(),
            chars@ == s@,
            trim_end_char_spec(s@, c) == trim_end_char_spec(s@.take(hi as int), c),
        decreases hi,
    {
        assert(s@.take(hi as int).drop_last() =~= s@.take(hi - 1));
        hi -= 1;
    }
    assert(chars@.subrange(0, hi as int) =~= s@.take(hi as int));
    text_of(&chars, 0, hi)
}

/// Trimming leaves nothing to trim: neither end is white space.
pub proof fn trim_ends(s: Seq<char>)
    ensures
        trim_spec(s).len() > 0 ==> !is_white(trim_spec(s)[0]) && !is_white(trim_spec(s).last()),
{
    trim_start_ends(s);
    trim_end_ends(trim_start_spec(s));
}

proof fn trim_start_ends(s: Seq<char>)
    ensures
        trim_start_spec(s).len() > 0 ==> !is_white(trim_start_spec(s)[0]),
    decreases s.len(),
{
    if s.len() > 0 && is_white(s[0]) {
        trim_start_ends(s.skip(1));
    }
}

proof fn trim_end_ends(s: Seq<char>)
    ensures
        trim_end_spec(s).len() <= s.len(),
        trim_end_spec(s) == s.take(trim_end_spec(s).len() as int),
        trim_end_spec(s).len() > 0 ==> !is_white(trim_end_spec(s).last()),
    decreases s.len(),
{
    if s.len() > 0 && is_white(s.last()) {
        trim_end_ends(s.drop_last());
        assert(s.drop_last().take(trim_end_spec(s).len() as int) =~= s.take(trim_end_spec(s).len() as int));
    } else {
        assert(s.take(s.len() as int) =~= s);
    }
}

/// Trimming makes no text longer.
pub proof fn trim_shortens(s: Seq<char>)
    ensures
        trim_spec(s).len() <= s.len(),
{
    trim_start_shortens(s);
    trim_end_ends(trim_start_spec(s));
}

proof fn trim_start_shortens(s: Seq<char>)
    ensures
        trim_start_spec(s).len() <= s.len(),
    decreases s.len(),
{
    if s.len() > 0 && is_white(s[0]) {
        trim_start_shortens(s.skip(1));
    }
}

/// Trimming a second time changes nothing.
pub proof fn trim_idempotent(s: Seq<char>)
    ensures
        trim_spec(trim_spec(s)) == trim_spec(s),
{
    trim_ends(s);
}

/// Where a text starts and ends in no white space, trimming it with a tail behind
/// it trims the tail's end.
pub proof fn trim_keeps_head(head: Seq<char>, tail: Seq<char>)
    requires
        head.len() > 0,
        !is_white(head[0]),
        !is_white(head.last()),
    ensures
        trim_spec(head + tail) == head + trim_end_spec(tail),
    decreases tail.len(),
{
    let whole = head + tail;
    assert(trim_start_spec(whole) == whole);
    if tail.len() == 0 {
        assert(whole =~= head);
        assert(head + trim_end_spec(tail) =~= head);
    } else if is_white(tail.last()) {
        assert(whole.drop_last() =~= head + tail.drop_last());
        assert(trim_start_spec(whole.drop_last()) == whole.drop_last());
        trim_keeps_head(head, tail.drop_last());
    }
}

/// White space at the end of a text does not matter to what is left after
/// trimming it.
pub proof fn trim_after_trim_end(s: Seq<char>)
    ensures
        trim_spec(trim_end_spec(s)) == trim_spec(s),
    decreases s.len(),
{
    if s.len() > 0 && is_white(s.last()) {
        trim_after_trim_end(s.drop_last());
        trim_ignores_last_white(s);
    }
}

proof fn trim_ignores_last_white(s: Seq<char>)
    requires
        s.len() > 0,
        is_white(s.last()),
    ensures
        trim_spec(s.drop_last()) == trim_spec(s),
    decreases s.len(),
{
    if is_white(s[0]) {
        if s.len() == 1 {
            assert(s.skip(1) =~= s.drop_last());
        } else {
            assert(s.drop_last().skip(1) =~= s.skip(1).drop_last());
            trim_ignores_last_white(s.skip(1));
        }
    } else {
        assert(trim_start_spec(s.drop_last()) == s.drop_last());
    }
}

/// White space around a text goes and nothing else: what stands between is what
/// trimming leaves, where it starts and ends in no white space.
pub proof fn trim_finds_the_middle(left: Seq<char>, middle: Seq<char>, right: Seq<char>)
    requires
        forall|i: int| 0 <= i < left.len() ==> is_white(#[trigger] left[i]),
        forall|i: int| 0 <= i < right.len() ==> is_white(#[trigger] right[i]),
        middle.len() > 0 ==> !is_white(middle[0]) && !is_white(middle.last()),
    ensures
        trim_spec(left + middle + right) == middle,
{
    let whole = left + middle + right;
    if middle.len() == 0 {
        assert forall|i: int| 0 <= i < whole.len() implies is_white(whole[i]) by {
            if i < left.len() {
                assert(whole[i] == left[i]);
            } else {
                assert(whole[i] == right[i - left.len()]);
            }
        }
        lemma_trim_start_at(whole, whole.len() as int);
        assert(trim_spec(whole) =~= middle);
    } else {
        let k = left.len() as int;
        assert forall|i: int| 0 <= i < k implies is_white(whole[i]) by {
            assert(whole[i] == left[i]);
        }
        assert(whole[k] == middle[0]);
        lemma_trim_start_at(whole, k);
        let rest = whole.skip(k);
        assert(rest =~= middle + right);
        assert forall|i: int| middle.len() <= i < rest.len() implies is_white(rest[i]) by {
            assert(rest[i] == right[i - middle.len()]);
        }
        lemma_trim_end_at(rest, middle.len() as int);
        assert(rest.take(middle.len() as int) =~= middle);
    }
}

/// A text is what trimming leaves of it with white space before and after.
pub proof fn trim_takes_only_white(s: Seq<char>)
    ensures
        exists|lo: int, hi: int|
            #![trigger s.subrange(lo, hi)]
            0 <= lo <= hi <= s.len() && s.subrange(lo, hi) == trim_spec(s) && (forall|i: int|
                0 <= i < lo ==> is_white(#[trigger] s[i])) && (forall|i: int|
                hi <= i < s.len() ==> is_white(#[trigger] s[i])),
{
    let lo = white_in_front(s);
    let rest = s.skip(lo);
    lemma_trim_start_at(s, lo);
    let hi = white_behind(rest);
    lemma_trim_end_at(rest, hi);
    assert(s.subrange(lo, lo + hi) =~= rest.take(hi));
    assert forall|i: int| lo + hi <= i < s.len() implies is_white(#[trigger] s[i]) by {
        assert(rest[i - lo] == s[i]);
    }
}

proof fn white_in_front(s: Seq<char>) -> (k: int)
    ensures
        0 <= k <= s.len(),
        forall|i: int| 0 <= i < k ==> is_white(#[trigger] s[i]),
        k < s.len() ==> !is_white(s[k]),
    decreases s.len(),
{
    if s.len() > 0 && is_white(s[0]) {
        let k = white_in_front(s.skip(1));
        assert forall|i: int| 0 <= i < k + 1 implies is_white(#[trigger] s[i]) by {
            if i > 0 {
                assert(s.skip(1)[i - 1] == s[i]);
            }
        }
        k + 1
    } else {
        0
    }
}

proof fn white_behind(s: Seq<char>) -> (k: int)
    ensures
        0 <= k <= s.len(),
        forall|i: int| k <= i < s.len() ==> is_white(#[trigger] s[i]),
        k > 0 ==> !is_white(s[k - 1]),
    decreases s.len(),
{
    if s.len() > 0 && is_white(s.last()) {
        let k = white_behind(s.drop_last());
        assert forall|i: int| k <= i < s.len() implies is_white(#[trigger] s[i]) by {
            if i < s.len() - 1 {
                assert(s.drop_last()[i] == s[i]);
            }
        }
        k
    } else {
        s.len() as int
    }
}

/// Only a run of `c` goes from the end of a text, and all of it.
pub proof fn trim_end_char_takes_the_run(s: Seq<char>, c: char)
    ensures
        ({
            let left = trim_end_char_spec(s, c);
            &&& left.len() <= s.len()
            &&& left == s.take(left.len() as int)
            &&& left.len() > 0 ==> left.last() != c
            &&& forall|i: int| left.len() <= i < s.len() ==> #[trigger] s[i] == c
        }),
    decreases s.len(),
{
    if s.len() > 0 && s.last() == c {
        let shorter = s.drop_last();
        trim_end_char_takes_the_run(shorter, c);
        let left = trim_end_char_spec(s, c);
        assert(shorter.take(left.len() as int) =~= s.take(left.len() as int));
        assert forall|i: int| left.len() <= i < s.len() implies #[trigger] s[i] == c by {
            if i < shorter.len() {
                assert(shorter[i] == s[i]);
            }
        }
    } else {
        assert(s.take(s.len() as int) =~= s);
    }
}

/// Lower-casing works character by character: capital ASCII letters become small
/// ones, everything else stays.
pub proof fn lower_maps_letters(s: Seq<char>)
    ensures
        lower(s).len() == s.len(),
        forall|i: int|
            0 <= i < s.len() ==> ((#[trigger] lower(s)[i]) as int == if 'A' <= s[i] <= 'Z' {
                s[i] as int + 32
            } else {
                s[i] as int
            }),
{
}

/// Lower-casing two texts one after the other is lower-casing both together.
pub proof fn lower_concat(a: Seq<char>, b: Seq<char>)
    ensures
        lower(a + b) == lower(a) + lower(b),
{
    assert(lower(a + b) =~= lower(a) + lower(b));
}

/// Lower-casing a second time changes nothing.
pub proof fn lower_idempotent(s: Seq<char>)
    ensures
        lower(lower(s)) == lower(s),
{
    assert(lower(lower(s)) =~= lower(s));
}

/// Trimming and lower-casing can change places.
pub proof fn trim_of_lower(s: Seq<char>)
    ensures
        trim_spec(lower(s)) == lower(trim_spec(s)),
{
    trim_start_of_lower(s);
    trim_end_of_lower(trim_start_spec(s));
}

proof fn trim_start_of_lower(s: Seq<char>)
    ensures
        trim_start_spec(lower(s)) == lower(trim_start_spec(s)),
    decreases s.len(),
{
    if s.len() > 0 && is_white(s[0]) {
        assert(lower(s).skip(1) =~= lower(s.skip(1)));
        trim_start_of_lower(s.skip(1));
    }
}

proof fn trim_end_of_lower(s: Seq<char>)
    ensures
        trim_end_spec(lower(s)) == lower(trim_end_spec(s)),
    decreases s.len(),
{
    if s.len() > 0 && is_white(s.last()) {
        assert(lower(s).drop_last() =~= lower(s.drop_last()));
        trim_end_of_lower(s.drop_last());
    }
}

// ── Searching ───────────────────────────────────────────────────────

/// `needle` stands in `hay` at position `i`.
pub open spec fn occurs_at(hay: Seq<char>, needle: Seq<char>, i: int) -> bool {
    &&& 0 <= i
    &&& i + needle.len() <= hay.len()
    &&& hay.subrange(i, i + needle.len()) == needle
}

/// The first position at or after `from` at which `needle` stands in `hay`.
pub open spec fn find_from(hay: Seq<char>, needle: Seq<char>, from: int) -> Option<int>
    decreases hay.len() - from + 1,
{
    if from + needle.len() > hay.len() {
        None
    } else if occurs_at(hay, needle, from) {
        Some(from)
    } else {
        find_from(hay, needle, from + 1)
    }
}

/// The first position at which `needle` stands in `hay`.
pub open spec fn find_spec(hay: Seq<char>, needle: Seq<char>) -> Option<int> {
    find_from(hay, needle, 0)
}

/// `needle` stands somewhere in `hay`.
pub open spec fn contains_spec(hay: Seq<char>, needle: Seq<char>) -> bool {
    exists|i: int| occurs_at(hay, needle, i)
}

/// `find_from` gives the least position at or after `from`.
pub proof fn find_from_least(hay: Seq<char>, needle: Seq<char>, from: int)
    requires
        0 <= from,
    ensures
        match find_from(hay, needle, from) {
            Some(i) => from <= i && occurs_at(hay, needle, i) && forall|j: int|
                from <= j < i ==> !occurs_at(hay, needle, j),
            None => forall|j: int| from <= j ==> !occurs_at(hay, needle, j),
        },
    decreases hay.len() - from + 1,
{
    if from + needle.len() > hay.len() {
    } else if occurs_at(hay, needle, from) {
    } else {
        find_from_least(hay, needle, from + 1);
    }
}

/// A marker whose first character occurs in it only once is found where it stands,
/// unless it stands before that already.
pub proof fn marker_is_found(content: Seq<char>, marker: Seq<char>, from: int, at: int)
    requires
        0 <= from <= at,
        occurs_at(content, marker, at),
        marker.len() > 0,
        forall|k: int| 0 < k < marker.len() ==> #[trigger] marker[k] != marker[0],
        !contains_spec(content.subrange(from, at), marker),
    ensures
        find_from(content, marker, from) == Some(at),
{
    find_from_least(content, marker, from);
    let i = find_from(content, marker, from)->0;
    let part = content.subrange(from, at);
    if i < at {
        assert(content.subrange(i, i + marker.len()) == marker);
        if i + marker.len() <= at {
            assert(part.subrange(i - from, i - from + marker.len()) =~= marker);
            assert(occurs_at(part, marker, i - from));
        } else {
            assert(content.subrange(at, at + marker.len())[0] == content[at]);
            assert(content.subrange(i, i + marker.len())[at - i] == content[at]);
            assert(marker[at - i] == marker[0]);
        }
    }
}

/// A text in front moves what is found by its length.
pub proof fn find_from_shift(front: Seq<char>, hay: Seq<char>, needle: Seq<char>, from: int)
    requires
        0 <= from,
    ensures
        find_from(front + hay, needle, front.len() + from) == (match find_from(hay, needle, from) {
            Some(i) => Some(front.len() + i),
            None => None,
        }),
    decreases hay.len() - from + 1,
{
    let whole = front + hay;
    let at = front.len() + from;
    if from + needle.len() <= hay.len() {
        assert(whole.subrange(at, at + needle.len()) =~= hay.subrange(from, from + needle.len()));
        if !occurs_at(hay, needle, from) {
            find_from_shift(front, hay, needle, from + 1);
        }
    }
}

/// What stands in a part of a text stands in the text.
pub proof fn part_is_searched(left: Seq<char>, part: Seq<char>, right: Seq<char>, needle: Seq<char>)
    requires
        contains_spec(part, needle),
    ensures
        contains_spec(left + part + right, needle),
{
    let i = choose|i: int| occurs_at(part, needle, i);
    let whole = left + part + right;
    let at = left.len() + i;
    assert(whole.subrange(at, at + needle.len()) =~= part.subrange(i, i + needle.len()));
    assert(occurs_at(whole, needle, at));
}

fn matches_at(hay: &Vec<char>, needle: &Vec<char>, i: usize) -> (r: bool)
    requires
        i + needle@.len() <= hay@.len(),
    ensures
        r == occurs_at(hay@, needle@, i as int),
{
    let mut k: usize = 0;
    let count: usize = hay.len();
    while k < needle.len()
        invariant
            i + needle@.len() <= hay@.len(),
            hay@.len() == count,
            k <= needle@.len(),
            forall|j: int| 0 <= j < k ==> hay@[i + j] == needle@[j],
        decreases needle@.len() - k,
    {
        if hay[i + k] != needle[k] {
            assert(hay@.subrange(i as int, i + needle@.len())[k as int] != needle@[k as int]);
            return false;
        }
        k += 1;
    }
    assert(hay@.subrange(i as int, i + needle@.len()) =~= needle@);
    true
}

/// The first position at or after `from` at which `needle` stands in `hay`.
pub fn find_chars(hay: &Vec<char>, needle: &Vec<char>, from: usize) -> (r: Option<usize>)
    requires
        from <= hay@.len(),
    ensures
        match r {
            Some(i) => find_from(hay@, needle@, from as int) == Some(i as int),
            None => find_from(hay@, needle@, from as int) is None,
        },
{
    let mut i: usize = from;
    while i <= hay.len() && needle.len() <= hay.len() - i
        invariant
            from <= i,
            i <= hay@.len() + 1,
            i > hay@.len() ==> i + needle@.len() > hay@.len(),
            find_from(hay@, needle@, from as int) == find_from(hay@, needle@, i as int),
        decreases hay@.len() + 1 - i,
    {
        if matches_at(hay, needle, i) {
            return Some(i);
        }
        if i == hay.len() {
            assert(find_from(hay@, needle@, i + 1) is None);
            return None;
        }
        i += 1;
    }
    None
}

/// Whether `needle` stands somewhere in `hay`.
pub fn contains(hay: &str, needle: &str) -> (r: bool)
    ensures
        r == contains_spec(hay@, needle@),
{
    let h = chars_of(hay);
    let n = chars_of(needle);
    let found = find_chars(&h, &n, 0);
    proof {
        find_from_least(hay@, needle@, 0);
    }
    match found {
        Some(i) => {
            assert(occurs_at(hay@, needle@, i as int));
            true
        },
        None => false,
    }
}

/// `prefix` stands at the start of `s`.
pub open spec fn starts_with_spec(s: Seq<char>, prefix: Seq<char>) -> bool {
    prefix.len() <= s.len() && s.take(prefix.len() as int) == prefix
}

/// Whether `prefix` stands at the start of `s`.
pub fn starts_with(s: &str, prefix: &str) -> (r: bool)
    ensures
        r == starts_with_spec(s@, prefix@),
{
    let h = chars_of(s);
    let n = chars_of(prefix);
    if n.len() > h.len() {
        return false;
    }
    assert(s@.subrange(0, prefix@.len() as int) =~= s@.take(prefix@.len() as int));
    matches_at(&h, &n, 0)
}

// ── Order ───────────────────────────────────────────────────────────

/// `a` comes before `b` in lexicographic order by code point.
pub open spec fn text_lt(a: Seq<char>, b: Seq<char>) -> bool
    decreases a.len(),
{
    if b.len() == 0 {
        false
    } else if a.len() == 0 {
        true
    } else if a[0] == b[0] {
        text_lt(a.skip(1), b.skip(1))
    } else {
        a[0] < b[0]
    }
}

/// Of two texts, one comes before the other or they are the same.
pub proof fn text_lt_total(a: Seq<char>, b: Seq<char>)
    ensures
        text_lt(a, b) || text_lt(b, a) || a == b,
        !(text_lt(a, b) && text_lt(b, a)),
        !text_lt(a, a),
    decreases a.len(),
{
    if a.len() > 0 {
        text_lt_total(a.skip(1), if b.len() > 0 { b.skip(1) } else { b });
    }
    if a.len() > 0 && b.len() > 0 && a[0] == b[0] {
        if a.skip(1) == b.skip(1) {
            assert(a =~= seq![a[0]] + a.skip(1));
            assert(b =~= seq![b[0]] + b.skip(1));
        }
    } else if a.len() == 0 && b.len() == 0 {
        assert(a =~= b);
    }
}

/// What comes before a text comes before all that this text comes before.
pub proof fn text_lt_transitive(a: Seq<char>, b: Seq<char>, c: Seq<char>)
    requires
        text_lt(a, b),
        text_lt(b, c),
    ensures
        text_lt(a, c),
    decreases a.len(),
{
    if a.len() > 0 && a[0] == b[0] && b[0] == c[0] {
        text_lt_transitive(a.skip(1), b.skip(1), c.skip(1));
    }
}

/// The first place where two texts differ decides which comes first, and a text comes
/// before those that go on from it.
pub proof fn first_difference_decides(
    common: Seq<char>,
    x: char,
    a: Seq<char>,
    y: char,
    b: Seq<char>,
)
    requires
        x < y,
    ensures
        text_lt(common + seq![x] + a, common + seq![y] + b),
        !text_lt(common + seq![y] + b, common + seq![x] + a),
        text_lt(common, common + seq![x] + a),
    decreases common.len(),
{
    let l = common + seq![x] + a;
    let r = common + seq![y] + b;
    if common.len() == 0 {
        assert(l[0] == x && r[0] == y);
    } else {
        let rest = common.skip(1);
        first_difference_decides(rest, x, a, y, b);
        assert(l.skip(1) =~= rest + seq![x] + a);
        assert(r.skip(1) =~= rest + seq![y] + b);
        assert(l[0] == common[0] && r[0] == common[0]);
    }
}

/// Whether `a` comes before `b` in lexicographic order by code point.
pub fn comes_before(a: &str, b: &str) -> (r: bool)
    ensures
        r == text_lt(a@, b@),
{
    let x = chars_of(a);
    let y = chars_of(b);
    let mut i: usize = 0;
    assert(a@.skip(0) =~= a@);
    assert(b@.skip(0) =~= b@);
    while i < x.len() && i < y.len() && x[i] == y[i]
        invariant
            x@ == a@,
            y@ == b@,
            i <= a@.len(),
            i <= b@.len(),
            text_lt(a@, b@) == text_lt(a@.skip(i as int), b@.skip(i as int)),
        decreases a@.len() - i,
    {
        assert(a@.skip(i as int).skip(1) =~= a@.skip(i + 1));
        assert(b@.skip(i as int).skip(1) =~= b@.skip(i + 1));
        i += 1;
    }
    if i >= y.len() {
        false
    } else if i >= x.len() {
        true
    } else {
        x[i] < y[i]
    }
}

// ── Lines ───────────────────────────────────────────────────────────

/// The pieces of `s` between line feeds; one more piece than line feeds.
pub open spec fn split_lines(s: Seq<char>) -> Seq<Seq<char>>
    decreases s.len(),
{
    if s.len() == 0 {
        seq![Seq::<char>::empty()]
    } else {
        let before = split_lines(s.drop_last());
        if s.last() == '\n' {
            before.push(Seq::empty())
        } else {
            before.drop_last().push(before.last().push(s.last()))
        }
    }
}

/// The pieces trimmed, the blank ones left out.
pub open spec fn non_blank(pieces: Seq<Seq<char>>) -> Seq<Seq<char>>
    decreases pieces.len(),
{
    if pieces.len() == 0 {
        Seq::empty()
    } else {
        let before = non_blank(pieces.drop_last());
        let t = trim_spec(pieces.last());
        if t.len() == 0 {
            before
        } else {
            before.push(t)
        }
    }
}

/// The lines of `s`, trimmed, without the blank ones.
pub open spec fn entry_lines(s: Seq<char>) -> Seq<Seq<char>> {
    non_blank(split_lines(s))
}

/// The lines of `s`, trimmed, without the blank ones.
pub fn lines_trimmed(s: &str) -> (r: Vec<String>)
    ensures
        texts(r@) == entry_lines(s@),
{
    let chars = chars_of(s);
    let mut out: Vec<String> = Vec::new();
    let mut start: usize = 0;
    let mut i: usize = 0;
    assert(s@.take(0) =~= Seq::<char>::empty());
    proof {
        let first = split_lines(Seq::<char>::empty());
        assert(first.drop_last() =~= Seq::<Seq<char>>::empty());
        assert(texts(out@) =~= Seq::<Seq<char>>::empty());
    }
    while i < chars.len()
        invariant
            chars@ == s@,
            start <= i <= s@.len(),
            split_lines(s@.take(i as int)).len() > 0,
            split_lines(s@.take(i as int)).last() == s@.subrange(start as int, i as int),
            texts(out@) == non_blank(split_lines(s@.take(i as int)).drop_last()),
        decreases s@.len() - i,
    {
        let ghost prev = s@.take(i as int);
        let ghost next = s@.take(i + 1);
        assert(next.drop_last() =~= prev);
        assert(next.last() == s@[i as int]);
        if chars[i] == '\n' {
            let ghost before = texts(out@);
            let ghost pieces = split_lines(prev);
            let (lo, hi) = trim_bounds(&chars, start, i);
            if lo < hi {
                let line = text_of(&chars, lo, hi);
                let ghost old_out = out@;
                out.push(line);
                assert(texts(out@) =~= texts(old_out).push(line@));
            }
            assert(split_lines(next).drop_last() =~= pieces);
            assert(texts(out@) == non_blank(pieces));
            start = i + 1;
            assert(s@.subrange(start as int, i + 1) =~= Seq::<char>::empty());
        } else {
            assert(split_lines(next).drop_last() =~= split_lines(prev).drop_last());
            assert(s@.subrange(start as int, i + 1) =~= s@.subrange(start as int, i as int).push(s@[i as int]));
        }
        i += 1;
    }
    assert(s@.take(i as int) =~= s@);
    let (lo, hi) = trim_bounds(&chars, start, i);
    if lo < hi {
        let line = text_of(&chars, lo, hi);
        let ghost old_out = out@;
        out.push(line);
        assert(texts(out@) =~= texts(old_out).push(line@));
    }
    out
}

/// Text before a line feed and text after it split apart.
pub proof fn split_lines_join(a: Seq<char>, b: Seq<char>)
    ensures
        split_lines(a + seq!['\n'] + b) == split_lines(a) + split_lines(b),
        split_lines(b).len() > 0,
    decreases b.len(),
{
    let whole = a + seq!['\n'] + b;
    if b.len() == 0 {
        assert(whole.drop_last() =~= a);
        assert(split_lines(a).push(Seq::empty()) =~= split_lines(a) + split_lines(b));
    } else {
        split_lines_join(a, b.drop_last());
        assert(whole.drop_last() =~= a + seq!['\n'] + b.drop_last());
        let before = split_lines(a) + split_lines(b.drop_last());
        if b.last() == '\n' {
            assert(before.push(Seq::empty()) =~= split_lines(a) + split_lines(b));
        } else {
            assert(before.drop_last().push(before.last().push(b.last())) =~= split_lines(a) + split_lines(b));
        }
    }
}

pub proof fn non_blank_concat(p: Seq<Seq<char>>, q: Seq<Seq<char>>)
    ensures
        non_blank(p + q) == non_blank(p) + non_blank(q),
    decreases q.len(),
{
    if q.len() == 0 {
        assert(p + q =~= p);
        assert(non_blank(p) + non_blank(q) =~= non_blank(p));
    } else {
        non_blank_concat(p, q.drop_last());
        assert((p + q).drop_last() =~= p + q.drop_last());
        let t = trim_spec(q.last());
        if t.len() > 0 {
            assert((non_blank(p) + non_blank(q.drop_last())).push(t) =~= non_blank(p) + non_blank(q));
        }
    }
}

/// The entries of two texts with a line feed between them are the entries of
/// the first followed by those of the second.
pub proof fn entry_lines_join(a: Seq<char>, b: Seq<char>)
    ensures
        entry_lines(a + seq!['\n'] + b) == entry_lines(a) + entry_lines(b),
{
    split_lines_join(a, b);
    non_blank_concat(split_lines(a), split_lines(b));
}

/// A line as a list of entries holds it: not blank, trimmed, without a line
/// feed.
pub open spec fn is_entry(line: Seq<char>) -> bool {
    &&& line.len() > 0
    &&& trim_spec(line) == line
    &&& !line.contains('\n')
}

proof fn trim_keeps_out(s: Seq<char>, c: char)
    requires
        !s.contains(c),
    ensures
        !trim_spec(s).contains(c),
{
    trim_start_keeps_out(s, c);
    let t = trim_start_spec(s);
    trim_end_ends(t);
    assert forall|i: int| 0 <= i < trim_spec(s).len() implies trim_spec(s)[i] != c by {
        assert(trim_spec(s)[i] == t[i]);
    }
}

proof fn trim_start_keeps_out(s: Seq<char>, c: char)
    requires
        !s.contains(c),
    ensures
        !trim_start_spec(s).contains(c),
    decreases s.len(),
{
    if s.len() > 0 && is_white(s[0]) {
        assert forall|i: int| 0 <= i < s.skip(1).len() implies s.skip(1)[i] != c by {
            assert(s.skip(1)[i] == s[i + 1]);
        }
        trim_start_keeps_out(s.skip(1), c);
    }
}

proof fn pieces_hold_no_feed(s: Seq<char>)
    ensures
        split_lines(s).len() > 0,
        forall|i: int| 0 <= i < split_lines(s).len() ==> !(#[trigger] split_lines(s)[i]).contains('\n'),
    decreases s.len(),
{
    if s.len() > 0 {
        pieces_hold_no_feed(s.drop_last());
        let before = split_lines(s.drop_last());
        if s.last() != '\n' {
            let longer = before.last().push(s.last());
            assert forall|k: int| 0 <= k < longer.len() implies longer[k] != '\n' by {
                if k < before.last().len() {
                    assert(before.last()[k] == longer[k]);
                }
            }
            assert(before[before.len() - 1] == before.last());
        }
    }
}

proof fn non_blank_are_entries(pieces: Seq<Seq<char>>)
    requires
        forall|i: int| 0 <= i < pieces.len() ==> !(#[trigger] pieces[i]).contains('\n'),
    ensures
        forall|i: int| 0 <= i < non_blank(pieces).len() ==> is_entry(#[trigger] non_blank(pieces)[i]),
    decreases pieces.len(),
{
    if pieces.len() > 0 {
        let before = pieces.drop_last();
        assert forall|i: int| 0 <= i < before.len() implies !(#[trigger] before[i]).contains('\n') by {
            assert(before[i] == pieces[i]);
        }
        non_blank_are_entries(before);
        assert(!pieces[pieces.len() - 1].contains('\n'));
        trim_keeps_out(pieces.last(), '\n');
        trim_idempotent(pieces.last());
        let all = non_blank(pieces);
        assert forall|i: int| 0 <= i < all.len() implies is_entry(#[trigger] all[i]) by {
            if i < non_blank(before).len() {
                assert(all[i] == non_blank(before)[i]);
            }
        }
    }
}

/// Every entry of a text is one that a list of entries can hold.
pub proof fn entries_are_clean(s: Seq<char>)
    ensures
        forall|i: int| 0 <= i < entry_lines(s).len() ==> is_entry(#[trigger] entry_lines(s)[i]),
{
    pieces_hold_no_feed(s);
    non_blank_are_entries(split_lines(s));
}

proof fn feedless_is_one_piece(line: Seq<char>)
    requires
        !line.contains('\n'),
    ensures
        split_lines(line) == seq![line],
    decreases line.len(),
{
    if line.len() == 0 {
        assert(line =~= Seq::<char>::empty());
    } else {
        let shorter = line.drop_last();
        assert forall|i: int| 0 <= i < shorter.len() implies shorter[i] != '\n' by {
            assert(shorter[i] == line[i]);
        }
        feedless_is_one_piece(shorter);
        assert(line[line.len() - 1] != '\n');
        assert(shorter.push(line.last()) =~= line);
        assert(split_lines(line) =~= seq![line]);
    }
}

proof fn non_blank_of_one(piece: Seq<char>)
    ensures
        non_blank(seq![piece]) == (if trim_spec(piece).len() == 0 {
            Seq::empty()
        } else {
            seq![trim_spec(piece)]
        }),
{
    let one = seq![piece];
    assert(one.drop_last() =~= Seq::<Seq<char>>::empty());
    assert(non_blank(one.drop_last()) =~= Seq::<Seq<char>>::empty());
    assert(one.last() == piece);
}

/// A line gives its trimmed text as the one entry, or none where it is blank.
pub proof fn line_gives_its_words(line: Seq<char>)
    requires
        !line.contains('\n'),
    ensures
        trim_spec(line).len() == 0 ==> entry_lines(line) == Seq::<Seq<char>>::empty(),
        trim_spec(line).len() > 0 ==> entry_lines(line) == seq![trim_spec(line)],
{
    feedless_is_one_piece(line);
    non_blank_of_one(line);
}

/// An entry by itself is the one entry of its text.
pub proof fn entry_is_its_line(line: Seq<char>)
    requires
        is_entry(line),
    ensures
        entry_lines(line) == seq![line],
{
    feedless_is_one_piece(line);
    non_blank_of_one(line);
}

/// An empty text has no entries.
pub proof fn empty_has_no_entries()
    ensures
        entry_lines(Seq::<char>::empty()) == Seq::<Seq<char>>::empty(),
{
    feedless_is_one_piece(Seq::<char>::empty());
    non_blank_of_one(Seq::<char>::empty());
}

// ── Joining ─────────────────────────────────────────────────────────

/// The parts one after the other with `sep` between them.
pub open spec fn join_spec(parts: Seq<Seq<char>>, sep: Seq<char>) -> Seq<char>
    decreases parts.len(),
{
    if parts.len() == 0 {
        Seq::empty()
    } else if parts.len() == 1 {
        parts[0]
    } else {
        join_spec(parts.drop_last(), sep) + sep + parts.last()
    }
}

/// Joining two lists is joining each and putting the separator between; one part by
/// itself is joined as it is.
pub proof fn join_concat(a: Seq<Seq<char>>, b: Seq<Seq<char>>, sep: Seq<char>)
    ensures
        a.len() > 0 && b.len() > 0 ==> join_spec(a + b, sep) == join_spec(a, sep) + sep + join_spec(
            b,
            sep,
        ),
        a.len() == 1 ==> join_spec(a, sep) == a[0],
        a.len() == 0 ==> join_spec(a, sep) == Seq::<char>::empty(),
    decreases b.len(),
{
    if a.len() > 0 && b.len() > 0 {
        assert((a + b).drop_last() =~= a + b.drop_last());
        assert((a + b).last() == b.last());
        if b.len() == 1 {
            assert(a + b.drop_last() =~= a);
        } else {
            join_concat(a, b.drop_last(), sep);
            assert(join_spec(a + b, sep) =~= join_spec(a, sep) + sep + join_spec(b, sep));
        }
    }
}

/// The parts one after the other with `sep` between them.
pub fn join(parts: &Vec<String>, sep: &str) -> (r: String)
    ensures
        r@ == join_spec(texts(parts@), sep@),
{
    let mut out = String::new();
    let mut i: usize = 0;
    let ghost all = texts(parts@);
    assert(all.take(0) =~= Seq::<Seq<char>>::empty());
    while i < parts.len()
        invariant
            all == texts(parts@),
            i <= parts@.len(),
            out@ == join_spec(all.take(i as int), sep@),
        decreases parts@.len() - i,
    {
        assert(all.take(i + 1).drop_last() =~= all.take(i as int));
        if i > 0 {
            out.append(sep);
        }
        out.append(parts[i].as_str());
        proof {
            if i == 0 {
                assert(out@ =~= all[0]);
            }
        }
        i += 1;
    }
    assert(all.take(i as int) =~= all);
    out
}

/// Entries that are joined by line feeds come back as they were.
pub proof fn joined_entries_come_back(entries: Seq<Seq<char>>)
    requires
        forall|i: int| 0 <= i < entries.len() ==> is_entry(#[trigger] entries[i]),
    ensures
        entry_lines(join_spec(entries, "\n"@)) == entries,
    decreases entries.len(),
{
    reveal_strlit("\n");
    assert("\n"@ =~= seq!['\n']);
    if entries.len() == 0 {
        empty_has_no_entries();
    } else {
        assert(is_entry(entries[entries.len() - 1]));
        entry_is_its_line(entries.last());
        if entries.len() == 1 {
            assert(seq![entries.last()] =~= entries);
        } else {
            let before = entries.drop_last();
            assert forall|i: int| 0 <= i < before.len() implies is_entry(#[trigger] before[i]) by {
                assert(before[i] == entries[i]);
            }
            joined_entries_come_back(before);
            entry_lines_join(join_spec(before, "\n"@), entries.last());
            assert(before + seq![entries.last()] =~= entries);
        }
    }
}

// ── Decimal numbers ─────────────────────────────────────────────────

/// The decimal digit `d`.
pub open spec fn digit(d: nat) -> char {
    (48 + d) as char
}

/// `n` in decimal, without leading zeros.
pub open spec fn decimal(n: nat) -> Seq<char>
    decreases n,
{
    if n < 10 {
        seq![digit(n)]
    } else {
        decimal(n / 10).push(digit(n % 10))
    }
}

/// `n` in decimal.
pub fn decimal_text(n: usize) -> (r: String)
    ensures
        r@ == decimal(n as nat),
    decreases n,
{
    let d = (48 + (n % 10) as u8) as char;
    if n < 10 {
        let mut out = String::new();
        out.push(d);
        assert(out@ =~= decimal(n as nat));
        out
    } else {
        let mut out = decimal_text(n / 10);
        out.push(d);
        out
    }
}

/// The number that decimal digits denote.
pub open spec fn denoted(digits: Seq<char>) -> int
    decreases digits.len(),
{
    if digits.len() == 0 {
        0
    } else {
        10 * denoted(digits.drop_last()) + (digits.last() as int - 48)
    }
}

/// The decimal text of a number is made of digits, denotes the number, and starts
/// with no zero but for zero itself.
pub proof fn decimal_denotes(n: nat)
    ensures
        denoted(decimal(n)) == n,
        decimal(n).len() > 0,
        forall|i: int| 0 <= i < decimal(n).len() ==> '0' <= #[trigger] decimal(n)[i] <= '9',
        n > 0 ==> decimal(n)[0] != '0',
        n == 0 ==> decimal(n).len() == 1,
    decreases n,
{
    let all = decimal(n);
    if n < 10 {
        assert(all.drop_last() =~= Seq::<char>::empty());
        assert(denoted(all.drop_last()) == 0);
    } else {
        decimal_denotes(n / 10);
        assert(all.drop_last() =~= decimal(n / 10));
        assert(all.last() == digit(n % 10));
        assert forall|i: int| 0 <= i < all.len() implies '0' <= #[trigger] all[i] <= '9' by {
            if i < all.len() - 1 {
                assert(all[i] == decimal(n / 10)[i]);
            }
        }
        assert(all[0] == decimal(n / 10)[0]);
    }
}

/// Different numbers have different decimal texts.
pub proof fn decimal_injective(m: nat, n: nat)
    requires
        decimal(m) == decimal(n),
    ensures
        m == n,
    decreases m,
{
    assert(decimal(m).last() == digit(m % 10));
    assert(decimal(n).last() == digit(n % 10));
    assert(m % 10 == n % 10);
    if m < 10 && n < 10 {
    } else if m < 10 {
        decimal_nonempty(n / 10);
        assert(decimal(n).len() > 1);
    } else if n < 10 {
        decimal_nonempty(m / 10);
        assert(decimal(m).len() > 1);
    } else {
        assert(decimal(m).drop_last() =~= decimal(m / 10));
        assert(decimal(n).drop_last() =~= decimal(n / 10));
        decimal_injective(m / 10, n / 10);
    }
}

proof fn decimal_nonempty(n: nat)
    ensures
        decimal(n).len() > 0,
{
}

// ── Laws of the primitives ──────────────────────────────────────────

/// A needle stands at a position where each of its characters stands in its place, as
/// it is: case and space count.
pub proof fn occurrence_is_letter_by_letter(hay: Seq<char>, needle: Seq<char>, i: int)
    ensures
        occurs_at(hay, needle, i) <==> 0 <= i && i + needle.len() <= hay.len() && forall|k: int|
            0 <= k < needle.len() ==> hay[i + k] == #[trigger] needle[k],
        starts_with_spec(hay, needle) <==> occurs_at(hay, needle, 0),
{
    if 0 <= i && i + needle.len() <= hay.len() {
        let part = hay.subrange(i, i + needle.len());
        if part == needle {
            assert forall|k: int| 0 <= k < needle.len() implies hay[i + k] == #[trigger] needle[k] by {
                assert(part[k] == hay[i + k]);
            }
        }
        if forall|k: int| 0 <= k < needle.len() ==> hay[i + k] == #[trigger] needle[k] {
            assert(part =~= needle);
        }
    }
    if needle.len() <= hay.len() {
        assert(hay.subrange(0, needle.len() as int) =~= hay.take(needle.len() as int));
    }
}

/// A text holds a needle where the needle stands at some position of it.
pub proof fn needle_stands_somewhere(hay: Seq<char>, needle: Seq<char>)
    ensures
        contains_spec(hay, needle) <==> exists|i: int|
            0 <= i <= hay.len() && #[trigger] occurs_at(hay, needle, i),
        contains_spec(hay, needle) <==> find_spec(hay, needle) is Some,
{
    find_from_least(hay, needle, 0);
}

/// Of the ASCII characters blank, tab, line feed, vertical tab, form feed and carriage
/// return are white space, and no letter, digit or sign is.
pub proof fn white_space_is_invisible(c: char)
    ensures
        c as int <= 0x7f ==> (is_white(c) <==> c == ' ' || 9 <= c as int <= 13),
        c as int > 0x3000 ==> !is_white(c),
        c as int == 0x85 || c as int == 0xa0 || c as int == 0x3000 ==> is_white(c),
{
}

/// An optional text is there where it was given, as it was given, an empty one too.
pub proof fn optional_text_is_kept(owned: String, borrowed: &str)
    ensures
        opt_text(Some(owned)) == Some(owned@),
        opt_text(None) is None,
        opt_str(Some(borrowed)) == Some(borrowed@),
        opt_str(None) is None,
{
}

/// The texts of a list are those of its items, one for one.
pub proof fn texts_are_item_by_item(items: Seq<String>)
    ensures
        texts(items).len() == items.len(),
        forall|i: int| 0 <= i < items.len() ==> #[trigger] texts(items)[i] == items[i]@,
{
}

} // verus!
