//! JSON values as plain data, read from and rendered to text by `serde_json`.
//!
//! [`Json`] is what the rest of the library reads. The parser and the renderer
//! are `serde_json`'s; [`json_node`] and [`json_assemble`] take its `Value`
//! apart and put it together one level at a time, and the recursion over the
//! levels is verified here.

use crate::text;
use vstd::prelude::*;
use vstd::string::*;

verus! {

/// `serde_json::Value`, handed from the parser to [`json_node`] and from
/// [`json_assemble`] to the renderer.
#[verifier::external_type_specification]
#[verifier::external_body]
pub struct ExValue(serde_json::Value);

/// `serde_json::Number`, carried and never looked into.
#[verifier::external_type_specification]
#[verifier::external_body]
pub struct ExNumber(serde_json::Number);

/// `serde_json::Error`, the reason of a failed parse.
#[verifier::external_type_specification]
#[verifier::external_body]
pub struct ExError(serde_json::Error);

/// Cloning a `serde_json::Number` gives the same number.
pub assume_specification[ <serde_json::Number as Clone>::clone ](
    n: &serde_json::Number,
) -> (r: serde_json::Number)
    ensures
        r == *n,
;

/// A JSON value.
#[derive(Debug, PartialEq)]
pub enum Json {
    Null,
    Bool(bool),
    Number(serde_json::Number),
    Text(String),
    Array(Vec<Json>),
    Object(JsonMap),
}

/// The members of a JSON object: every key once, in ascending order.
#[derive(Debug, PartialEq)]
pub struct JsonMap {
    members: Vec<(String, Json)>,
}

/// What a [`Json`] says, over sequences. The members of an object ascend by key.
#[verifier::ext_equal]
pub enum JsonView {
    Null,
    Bool(bool),
    Number(serde_json::Number),
    Text(Seq<char>),
    Array(Seq<JsonView>),
    Object(Seq<(Seq<char>, JsonView)>),
}

impl View for Json {
    type V = JsonView;

    open spec fn view(&self) -> JsonView {
        self.says()
    }
}

impl View for JsonMap {
    type V = Seq<(Seq<char>, JsonView)>;

    open spec fn view(&self) -> Seq<(Seq<char>, JsonView)> {
        self.says()
    }
}

impl Json {
    /// What this value says.
    pub open spec fn says(&self) -> JsonView
        decreases self,
    {
        match self {
            Json::Null => JsonView::Null,
            Json::Bool(b) => JsonView::Bool(*b),
            Json::Number(n) => JsonView::Number(*n),
            Json::Text(s) => JsonView::Text(s@),
            Json::Array(items) => JsonView::Array(
                Seq::new(
                    items@.len(),
                    |i: int| if 0 <= i < items@.len() { items@[i].says() } else { JsonView::Null },
                ),
            ),
            Json::Object(map) => JsonView::Object(map.says()),
        }
    }
}

impl JsonMap {
    /// What the members say.
    pub closed spec fn says(&self) -> Seq<(Seq<char>, JsonView)>
        decreases self,
    {
        Seq::new(
            self.members@.len(),
            |i: int|
                if 0 <= i < self.members@.len() {
                    (self.members@[i].0@, self.members@[i].1.says())
                } else {
                    (Seq::<char>::empty(), JsonView::Null)
                },
        )
    }

    #[verifier::type_invariant]
    spec fn in_order(self) -> bool {
        keys_ascend(member_keys(self.members@))
    }
}

/// The keys of a list of members.
pub open spec fn member_keys(members: Seq<(String, Json)>) -> Seq<Seq<char>> {
    members.map_values(|m: (String, Json)| m.0@)
}

/// The keys of an object ascend strictly, so no key occurs twice.
pub open spec fn keys_ascend(keys: Seq<Seq<char>>) -> bool {
    forall|i: int, j: int|
        0 <= i < j < keys.len() ==> text::text_lt(#[trigger] keys[i], #[trigger] keys[j])
}

impl JsonView {
    /// The member of an object under `key`; nothing for any other value.
    pub open spec fn member(self, key: Seq<char>) -> Option<JsonView> {
        match self {
            JsonView::Object(members) => lookup(members, key),
            _ => None,
        }
    }

    /// The text of a string; nothing for any other value.
    pub open spec fn string(self) -> Option<Seq<char>> {
        match self {
            JsonView::Text(s) => Some(s),
            _ => None,
        }
    }

    /// The items of an array; nothing for any other value.
    pub open spec fn items(self) -> Option<Seq<JsonView>> {
        match self {
            JsonView::Array(items) => Some(items),
            _ => None,
        }
    }
}

/// The value of the first member under `key`.
pub open spec fn lookup(members: Seq<(Seq<char>, JsonView)>, key: Seq<char>) -> Option<JsonView>
    decreases members.len(),
{
    if members.len() == 0 {
        None
    } else if members[0].0 == key {
        Some(members[0].1)
    } else {
        lookup(members.skip(1), key)
    }
}

/// The members with `value` under `key`, in its place in the order or in place of
/// the value that was there.
pub open spec fn inserted(
    members: Seq<(Seq<char>, JsonView)>,
    key: Seq<char>,
    value: JsonView,
) -> Seq<(Seq<char>, JsonView)>
    decreases members.len(),
{
    if members.len() == 0 {
        seq![(key, value)]
    } else if members[0].0 == key {
        seq![(key, value)] + members.skip(1)
    } else if text::text_lt(key, members[0].0) {
        seq![(key, value)] + members
    } else {
        seq![members[0]] + inserted(members.skip(1), key, value)
    }
}

/// The values that a list of [`Json`] says.
pub open spec fn json_views(items: Seq<Json>) -> Seq<JsonView> {
    items.map_values(|v: Json| v@)
}

/// The members that a list of keyed [`Json`] says.
pub open spec fn member_views(members: Seq<(String, Json)>) -> Seq<(Seq<char>, JsonView)> {
    members.map_values(|m: (String, Json)| (m.0@, m.1@))
}

/// The view of an array lists the views of its items.
pub proof fn array_view(items: Vec<Json>)
    ensures
        Json::Array(items)@ == JsonView::Array(json_views(items@)),
{
    assert(Json::Array(items)@->Array_0 =~= json_views(items@));
}

/// The view of a map lists the views of its members.
proof fn map_view(map: JsonMap)
    ensures
        map@ == member_views(map.members@),
{
    assert(map@ =~= member_views(map.members@));
}

proof fn inserted_at(members: Seq<(Seq<char>, JsonView)>, p: int, key: Seq<char>, value: JsonView)
    requires
        0 <= p <= members.len(),
        forall|i: int| 0 <= i < p ==> text::text_lt((#[trigger] members[i]).0, key),
        p < members.len() ==> !text::text_lt(members[p].0, key),
    ensures
        inserted(members, key, value) == members.take(p) + seq![(key, value)] + (if p < members.len()
            && members[p].0 == key {
            members.skip(p + 1)
        } else {
            members.skip(p)
        }),
    decreases members.len(),
{
    if members.len() > 0 {
        text::text_lt_total(members[0].0, key);
    }
    if p > 0 {
        let rest = members.skip(1);
        assert forall|i: int| 0 <= i < p - 1 implies text::text_lt((#[trigger] rest[i]).0, key) by {
            assert(rest[i] == members[i + 1]);
        }
        inserted_at(rest, p - 1, key, value);
        assert(text::text_lt(members[0].0, key));
        assert(inserted(members, key, value) =~= members.take(p) + seq![(key, value)] + (if p
            < members.len() && members[p].0 == key {
            members.skip(p + 1)
        } else {
            members.skip(p)
        }));
    } else {
        assert(members.take(0) =~= Seq::empty());
        assert(inserted(members, key, value) =~= members.take(p) + seq![(key, value)] + (if p
            < members.len() && members[p].0 == key {
            members.skip(p + 1)
        } else {
            members.skip(p)
        }));
    }
}

/// A key that comes after all others is inserted at the end.
pub proof fn inserted_last(members: Seq<(Seq<char>, JsonView)>, key: Seq<char>, value: JsonView)
    requires
        forall|i: int| 0 <= i < members.len() ==> text::text_lt((#[trigger] members[i]).0, key),
    ensures
        inserted(members, key, value) == members.push((key, value)),
{
    inserted_at(members, members.len() as int, key, value);
    assert(inserted(members, key, value) =~= members.push((key, value)));
}

/// What is inserted under a key is found there, and all other keys are as they were.
pub proof fn inserted_is_found(
    members: Seq<(Seq<char>, JsonView)>,
    key: Seq<char>,
    value: JsonView,
    other: Seq<char>,
)
    ensures
        lookup(inserted(members, key, value), key) == Some(value),
        other != key ==> lookup(inserted(members, key, value), other) == lookup(members, other),
    decreases members.len(),
{
    let after = inserted(members, key, value);
    if members.len() == 0 {
        assert(after.skip(1) =~= members);
    } else if members[0].0 == key {
        assert(after.skip(1) =~= members.skip(1));
    } else if text::text_lt(key, members[0].0) {
        assert(after.skip(1) =~= members);
    } else {
        inserted_is_found(members.skip(1), key, value, other);
        assert(after.skip(1) =~= inserted(members.skip(1), key, value));
    }
}

/// The member under a key is the first one with that key.
pub proof fn lookup_finds_first(members: Seq<(Seq<char>, JsonView)>, key: Seq<char>, i: int)
    requires
        0 <= i <= members.len(),
        forall|k: int| 0 <= k < i ==> (#[trigger] members[k]).0 != key,
        i < members.len() ==> members[i].0 == key,
    ensures
        i < members.len() ==> lookup(members, key) == Some(members[i].1),
        i == members.len() ==> lookup(members, key) is None,
    decreases members.len(),
{
    if i > 0 {
        let rest = members.skip(1);
        assert(members[0].0 != key);
        assert forall|k: int| 0 <= k < i - 1 implies (#[trigger] rest[k]).0 != key by {
            assert(rest[k] == members[k + 1]);
        }
        lookup_finds_first(rest, key, i - 1);
    }
}

/// What lists of values and members say is what their items say, one for one.
pub proof fn lists_say_what_their_items_say(items: Seq<Json>, members: Seq<(String, Json)>)
    ensures
        json_views(items).len() == items.len(),
        forall|i: int| 0 <= i < items.len() ==> #[trigger] json_views(items)[i] == items[i]@,
        member_views(members).len() == members.len(),
        forall|i: int|
            0 <= i < members.len() ==> #[trigger] member_views(members)[i] == (
                members[i].0@,
                members[i].1@,
            ),
{
}

/// Members are read from objects, by their keys; no other value has any. Texts and
/// items are what a string and an array hold.
pub proof fn values_are_read_by_kind(value: JsonView, key: Seq<char>)
    ensures
        !(value is Object) ==> value.member(key) is None,
        value matches JsonView::Object(members) ==> value.member(key) == lookup(members, key),
        value matches JsonView::Text(s) ==> value.string() == Some(s),
        !(value is Text) ==> value.string() is None,
        value matches JsonView::Array(items) ==> value.items() == Some(items),
        !(value is Array) ==> value.items() is None,
{
}

proof fn insertion_keeps_order(keys: Seq<Seq<char>>, p: int, key: Seq<char>)
    requires
        keys_ascend(keys),
        0 <= p <= keys.len(),
        p > 0 ==> text::text_lt(keys[p - 1], key),
        p < keys.len() ==> text::text_lt(key, keys[p]),
    ensures
        keys_ascend(keys.insert(p, key)),
{
    let all = keys.insert(p, key);
    assert forall|i: int, j: int| 0 <= i < j < all.len() implies text::text_lt(
        #[trigger] all[i],
        #[trigger] all[j],
    ) by {
        if j == p {
            if i < p - 1 {
                assert(text::text_lt(keys[i], keys[p - 1]));
                text::text_lt_transitive(keys[i], keys[p - 1], key);
            }
        } else if i == p {
            if j - 1 > p {
                assert(text::text_lt(keys[p], keys[j - 1]));
                text::text_lt_transitive(key, keys[p], keys[j - 1]);
            }
        } else {
            let x = if i < p {
                i
            } else {
                i - 1
            };
            let y = if j < p {
                j
            } else {
                j - 1
            };
            assert(text::text_lt(keys[x], keys[y]));
        }
    }
}

impl JsonMap {
    /// No members.
    pub fn new() -> (r: Self)
        ensures
            r@ == Seq::<(Seq<char>, JsonView)>::empty(),
    {
        let r = JsonMap { members: Vec::new() };
        proof {
            map_view(r);
            assert(member_views(r.members@) =~= Seq::<(Seq<char>, JsonView)>::empty());
        }
        r
    }

    /// The members with `value` under `key`.
    pub fn with(self, key: &str, value: Json) -> (r: Self)
        ensures
            r@ == inserted(self@, key@, value@),
    {
        proof {
            use_type_invariant(&self);
            map_view(self);
        }
        let mut members = self.members;
        let ghost before = members@;
        let ghost views = member_views(before);
        let ghost keys = member_keys(before);
        let mut p: usize = 0;
        while p < members.len() && text::comes_before(members[p].0.as_str(), key)
            invariant
                members@ == before,
                views == member_views(before),
                p <= members@.len(),
                forall|i: int| 0 <= i < p ==> text::text_lt((#[trigger] views[i]).0, key@),
            decreases members@.len() - p,
        {
            p += 1;
        }
        proof {
            inserted_at(views, p as int, key@, value@);
            if p < members@.len() {
                text::text_lt_total(members@[p as int].0@, key@);
                assert(keys[p as int] == views[p as int].0);
            }
            if p > 0 {
                assert(text::text_lt(views[p - 1].0, key@));
                assert(keys[p - 1] == views[p - 1].0);
            }
        }
        if p < members.len() && text::same_text(members[p].0.as_str(), key) {
            members.set(p, (key.to_string(), value));
            assert(member_keys(members@) =~= keys);
            let r = JsonMap { members };
            proof {
                map_view(r);
                assert(member_views(r.members@) =~= inserted(views, key@, value@));
            }
            r
        } else {
            members.insert(p, (key.to_string(), value));
            proof {
                insertion_keeps_order(keys, p as int, key@);
                assert(member_keys(members@) =~= keys.insert(p as int, key@));
            }
            let r = JsonMap { members };
            proof {
                map_view(r);
                assert(member_views(r.members@) =~= inserted(views, key@, value@));
            }
            r
        }
    }

    /// The members, in ascending order of their keys.
    pub fn members(&self) -> (r: &Vec<(String, Json)>)
        ensures
            member_views(r@) == self@,
            keys_ascend(member_keys(r@)),
    {
        proof {
            use_type_invariant(self);
            map_view(*self);
        }
        &self.members
    }
}

/// One level of a parsed value.
enum JsonNode {
    Null,
    Bool(bool),
    Number(serde_json::Number),
    Text(String),
    Array(Vec<serde_json::Value>),
    Object(Vec<(String, serde_json::Value)>),
}

/// What a `serde_json::Value` holds.
pub uninterp spec fn json_value(value: serde_json::Value) -> JsonView;

/// What `serde_json::from_str::<Value>` makes of a text; nothing where it fails.
pub uninterp spec fn json_parsed(text: Seq<char>) -> Option<JsonView>;

/// The compact text that `Display` of `serde_json::Value` gives.
pub uninterp spec fn json_text(value: JsonView) -> Seq<char>;

impl JsonNode {
    /// The value that this level stands for.
    spec fn value(self) -> JsonView {
        match self {
            JsonNode::Null => JsonView::Null,
            JsonNode::Bool(b) => JsonView::Bool(b),
            JsonNode::Number(n) => JsonView::Number(n),
            JsonNode::Text(s) => JsonView::Text(s@),
            JsonNode::Array(items) => JsonView::Array(
                items@.map_values(|v: serde_json::Value| json_value(v)),
            ),
            JsonNode::Object(members) => JsonView::Object(
                members@.map_values(|m: (String, serde_json::Value)| (m.0@, json_value(m.1))),
            ),
        }
    }

    /// This level is no object whose keys fail to ascend.
    spec fn keys_in_order(self) -> bool {
        match self {
            JsonNode::Object(members) => keys_ascend(
                members@.map_values(|m: (String, serde_json::Value)| m.0@),
            ),
            _ => true,
        }
    }
}

/// `serde_json::from_str::<serde_json::Value>`: whether and how a text parses
/// is a function of the text, named [`json_parsed`].
#[verifier::external_body]
fn json_from_str(text: &str) -> (r: Result<serde_json::Value, serde_json::Error>)
    ensures
        match r {
            Ok(v) => json_parsed(text@) == Some(json_value(v)),
            Err(_) => json_parsed(text@) is None,
        },
{
    serde_json::from_str::<serde_json::Value>(text)
}

/// Takes a `serde_json::Value` apart by its variants. The map of an object is
/// a `BTreeMap`, whose iterator goes through the keys in ascending order.
#[verifier::external_body]
fn json_node(value: serde_json::Value) -> (r: JsonNode)
    ensures
        r.value() == json_value(value),
        r.keys_in_order(),
{
    match value {
        serde_json::Value::Null => JsonNode::Null,
        serde_json::Value::Bool(b) => JsonNode::Bool(b),
        serde_json::Value::Number(n) => JsonNode::Number(n),
        serde_json::Value::String(s) => JsonNode::Text(s),
        serde_json::Value::Array(items) => JsonNode::Array(items),
        serde_json::Value::Object(map) => JsonNode::Object(map.into_iter().collect()),
    }
}

/// Puts a `serde_json::Value` together. Members whose keys ascend stand in its
/// map, a `BTreeMap`, as they stood in the list.
#[verifier::external_body]
fn json_assemble(node: JsonNode) -> (r: serde_json::Value)
    requires
        node.keys_in_order(),
    ensures
        json_value(r) == node.value(),
{
    match node {
        JsonNode::Null => serde_json::Value::Null,
        JsonNode::Bool(b) => serde_json::Value::Bool(b),
        JsonNode::Number(n) => serde_json::Value::Number(n),
        JsonNode::Text(s) => serde_json::Value::String(s),
        JsonNode::Array(items) => serde_json::Value::Array(items),
        JsonNode::Object(members) => serde_json::Value::Object(members.into_iter().collect()),
    }
}

/// `Display` of `serde_json::Value`: the compact text is a function of the
/// value, named [`json_text`]; `null` and the booleans are written as such.
#[verifier::external_body]
fn json_to_string(value: serde_json::Value) -> (r: String)
    ensures
        r@ == json_text(json_value(value)),
        json_value(value) is Null ==> r@ == "null"@,
        json_value(value) == JsonView::Bool(true) ==> r@ == "true"@,
        json_value(value) == JsonView::Bool(false) ==> r@ == "false"@,
{
    value.to_string()
}

/// The plain data that a `serde_json::Value` holds.
pub fn json_from_value(value: serde_json::Value) -> (r: Json)
    ensures
        r@ == json_value(value),
    decreases json_value(value),
{
    let ghost whole = json_value(value);
    match json_node(value) {
        JsonNode::Null => Json::Null,
        JsonNode::Bool(b) => Json::Bool(b),
        JsonNode::Number(n) => Json::Number(n),
        JsonNode::Text(s) => Json::Text(s),
        JsonNode::Array(items) => {
            let mut out: Vec<Json> = Vec::new();
            let ghost src = items@;
            for v in it: items
                invariant
                    it.seq() == src,
                    whole == json_value(value),
                    whole == JsonView::Array(src.map_values(|v: serde_json::Value| json_value(v))),
                    out@.len() == it.index(),
                    forall|i: int| 0 <= i < out@.len() ==> (#[trigger] out@[i])@ == json_value(src[i]),
            {
                assert(whole->Array_0[it.index() as int] == json_value(v));
                assert(decreases_to!(whole => whole->Array_0));
                assert(decreases_to!(whole => whole->Array_0[it.index() as int]));
                out.push(json_from_value(v));
            }
            let r = Json::Array(out);
            assert(r@->Array_0 =~= whole->Array_0);
            r
        },
        JsonNode::Object(members) => {
            let mut out: Vec<(String, Json)> = Vec::new();
            let ghost src = members@;
            let ghost keys = src.map_values(|m: (String, serde_json::Value)| m.0@);
            for m in it: members
                invariant
                    it.seq() == src,
                    whole == json_value(value),
                    whole == JsonView::Object(src.map_values(|m: (String, serde_json::Value)| (m.0@, json_value(m.1)))),
                    out@.len() == it.index(),
                    forall|i: int| 0 <= i < out@.len() ==> (#[trigger] out@[i]).0@ == src[i].0@ && out@[i].1@ == json_value(src[i].1),
            {
                assert(whole->Object_0[it.index() as int].1 == json_value(m.1));
                assert(decreases_to!(whole => whole->Object_0[it.index() as int].1));
                let (k, v) = m;
                out.push((k, json_from_value(v)));
            }
            assert(member_keys(out@) =~= keys);
            let map = JsonMap { members: out };
            proof {
                map_view(map);
                assert(member_views(map.members@) =~= whole->Object_0);
            }
            Json::Object(map)
        },
    }
}

/// The value that `text` denotes, if it is JSON.
pub fn parse_json(text: &str) -> (r: Option<Json>)
    ensures
        match r {
            Some(v) => json_parsed(text@) == Some(v@),
            None => json_parsed(text@) is None,
        },
{
    match json_from_str(text) {
        Ok(v) => Some(json_from_value(v)),
        Err(_) => None,
    }
}

/// The `serde_json::Value` that holds what `value` says.
pub fn json_to_value(value: &Json) -> (r: serde_json::Value)
    ensures
        json_value(r) == value@,
    decreases value@,
{
    match value {
        Json::Null => json_assemble(JsonNode::Null),
        Json::Bool(b) => json_assemble(JsonNode::Bool(*b)),
        Json::Number(n) => json_assemble(JsonNode::Number(n.clone())),
        Json::Text(s) => json_assemble(JsonNode::Text(s.clone())),
        Json::Array(items) => {
            let mut out: Vec<serde_json::Value> = Vec::new();
            let mut i: usize = 0;
            while i < items.len()
                invariant
                    *value == Json::Array(*items),
                    i <= items@.len(),
                    out@.len() == i,
                    forall|k: int| 0 <= k < i ==> json_value(#[trigger] out@[k]) == items@[k]@,
                decreases items@.len() - i,
            {
                proof {
                    array_view(*items);
                    assert(decreases_to!(value@ => value@->Array_0[i as int]));
                }
                out.push(json_to_value(&items[i]));
                i += 1;
            }
            let node = JsonNode::Array(out);
            proof {
                array_view(*items);
                assert(node.value()->Array_0 =~= value@->Array_0);
            }
            json_assemble(node)
        },
        Json::Object(map) => {
            let members = map.members();
            let mut out: Vec<(String, serde_json::Value)> = Vec::new();
            let mut i: usize = 0;
            while i < members.len()
                invariant
                    value@ == JsonView::Object(member_views(members@)),
                    i <= members@.len(),
                    out@.len() == i,
                    forall|k: int|
                        0 <= k < i ==> (#[trigger] out@[k]).0@ == members@[k].0@ && json_value(
                            out@[k].1,
                        ) == members@[k].1@,
                decreases members@.len() - i,
            {
                assert(decreases_to!(value@ => value@->Object_0[i as int].1));
                out.push((members[i].0.clone(), json_to_value(&members[i].1)));
                i += 1;
            }
            let node = JsonNode::Object(out);
            proof {
                assert(out@.map_values(|m: (String, serde_json::Value)| m.0@) =~= member_keys(
                    members@,
                ));
                assert(node.value()->Object_0 =~= value@->Object_0);
            }
            json_assemble(node)
        },
    }
}

impl Json {
    /// The compact JSON text of this value.
    pub fn render(&self) -> (r: String)
        ensures
            r@ == json_text(self@),
            self@ is Null ==> r@ == "null"@,
            self@ == JsonView::Bool(true) ==> r@ == "true"@,
            self@ == JsonView::Bool(false) ==> r@ == "false"@,
    {
        json_to_string(json_to_value(self))
    }

    /// The member of an object under `key`.
    pub fn get(&self, key: &str) -> (r: Option<&Json>)
        ensures
            match r {
                Some(v) => self@.member(key@) == Some(v@),
                None => self@.member(key@) is None,
            },
    {
        match self {
            Json::Object(map) => {
                let members = map.members();
                let ghost all = member_views(members@);
                let mut i: usize = 0;
                assert(all.skip(0) =~= all);
                while i < members.len()
                    invariant
                        all == member_views(members@),
                        self@ == JsonView::Object(all),
                        i <= members@.len(),
                        lookup(all, key@) == lookup(all.skip(i as int), key@),
                    decreases members@.len() - i,
                {
                    assert(all.skip(i as int)[0] == all[i as int]);
                    assert(all.skip(i as int).skip(1) =~= all.skip(i + 1));
                    if text::same_text(members[i].0.as_str(), key) {
                        return Some(&members[i].1);
                    }
                    i += 1;
                }
                None
            },
            _ => None,
        }
    }

    /// The text of a string.
    pub fn as_str(&self) -> (r: Option<&str>)
        ensures
            match r {
                Some(s) => self@.string() == Some(s@),
                None => self@.string() is None,
            },
    {
        match self {
            Json::Text(s) => Some(s.as_str()),
            _ => None,
        }
    }

    /// The items of an array.
    pub fn as_array(&self) -> (r: Option<&Vec<Json>>)
        ensures
            match r {
                Some(items) => self@.items() == Some(json_views(items@)),
                None => self@.items() is None,
            },
    {
        match self {
            Json::Array(items) => {
                proof {
                    array_view(*items);
                }
                Some(items)
            },
            _ => None,
        }
    }
}

impl Clone for Json {
    fn clone(&self) -> (r: Self)
        ensures
            r@ == self@,
        decreases self@,
    {
        match self {
            Json::Null => Json::Null,
            Json::Bool(b) => Json::Bool(*b),
            Json::Number(n) => Json::Number(n.clone()),
            Json::Text(s) => Json::Text(s.clone()),
            Json::Array(items) => {
                let mut out: Vec<Json> = Vec::new();
                let mut i: usize = 0;
                while i < items.len()
                    invariant
                        *self == Json::Array(*items),
                        i <= items@.len(),
                        out@.len() == i,
                        forall|k: int| 0 <= k < i ==> (#[trigger] out@[k])@ == items@[k]@,
                    decreases items@.len() - i,
                {
                    proof {
                        array_view(*items);
                        assert(decreases_to!(self@ => self@->Array_0[i as int]));
                    }
                    out.push(items[i].clone());
                    i += 1;
                }
                proof {
                    array_view(*items);
                    array_view(out);
                    assert(json_views(out@) =~= json_views(items@));
                }
                Json::Array(out)
            },
            Json::Object(map) => {
                let members = map.members();
                let mut out: Vec<(String, Json)> = Vec::new();
                let mut i: usize = 0;
                while i < members.len()
                    invariant
                        self@ == JsonView::Object(member_views(members@)),
                        i <= members@.len(),
                        out@.len() == i,
                        forall|k: int|
                            0 <= k < i ==> (#[trigger] out@[k]).0@ == members@[k].0@ && out@[k].1@
                                == members@[k].1@,
                    decreases members@.len() - i,
                {
                    assert(decreases_to!(self@ => self@->Object_0[i as int].1));
                    out.push((members[i].0.clone(), members[i].1.clone()));
                    i += 1;
                }
                assert(member_keys(out@) =~= member_keys(members@));
                let copy = JsonMap { members: out };
                proof {
                    map_view(copy);
                    assert(member_views(copy.members@) =~= member_views(members@));
                }
                Json::Object(copy)
            },
        }
    }
}

} // verus!
