//! Text primitives and JSON values.

use mentat::json::{json_from_value, json_to_value, parse_json, Json, JsonMap};
use mentat::slots::Slots;
use mentat::text;
use mentat::tickets::TicketedSlots;

fn json(source: &str) -> Json {
    parse_json(source).expect("valid JSON")
}

#[test]
fn parsed_value_is_taken_apart() {
    let value = json(r#"{"b": [null, true, "x", 1.5], "a": {}}"#);
    let items = value.get("b").and_then(Json::as_array).expect("an array");
    assert_eq!(items.len(), 4);
    assert_eq!(items[0], Json::Null);
    assert_eq!(items[1], Json::Bool(true));
    assert_eq!(items[2].as_str(), Some("x"));
    assert!(matches!(items[3], Json::Number(_)));
    assert!(value.get("c").is_none());
    assert!(items[0].get("a").is_none());
    assert!(items[0].as_array().is_none());
    assert!(items[1].as_str().is_none());
    assert!(parse_json("{").is_none());
}

#[test]
fn values_go_to_serde_json_and_back() {
    let source = r#"{"z":[1,-2,3.25,"q\"",false,null],"a":{"k":{}}}"#;
    let value: serde_json::Value = serde_json::from_str(source).unwrap();
    let ours = json_from_value(value.clone());
    assert_eq!(json_to_value(&ours), value);
    assert_eq!(ours.render(), value.to_string());
    assert_eq!(ours.clone(), ours);
}

#[test]
fn rendering_is_compact() {
    assert_eq!(Json::Null.render(), "null");
    assert_eq!(Json::Bool(true).render(), "true");
    assert_eq!(Json::Bool(false).render(), "false");
    assert_eq!(Json::Text("a\n".into()).render(), "\"a\\n\"");
    assert_eq!(json("[ 1 , 2 ]").render(), "[1,2]");
}

#[test]
fn members_keep_their_order_and_last_value() {
    let map = JsonMap::new()
        .with("b", Json::Bool(true))
        .with("a", Json::Null)
        .with("c", Json::Null)
        .with("b", Json::Bool(false))
        .with("", Json::Null);
    let keys: Vec<&str> = map.members().iter().map(|m| m.0.as_str()).collect();
    assert_eq!(keys, vec!["", "a", "b", "c"]);
    let value = Json::Object(map);
    assert_eq!(value.get("b"), Some(&Json::Bool(false)));
    assert_eq!(value.render(), r#"{"":null,"a":null,"b":false,"c":null}"#);
}

#[test]
fn order_is_by_code_point() {
    assert!(text::comes_before("", "a"));
    assert!(text::comes_before("a", "ab"));
    assert!(text::comes_before("Z", "a"));
    assert!(text::comes_before("z", "é"));
    assert!(text::comes_before("\u{ffff}", "\u{10000}"));
    assert!(!text::comes_before("a", "a"));
    assert!(!text::comes_before("b", "ab"));
}

#[test]
fn trimming_follows_unicode() {
    for c in 0..=0x3100u32 {
        if let Some(c) = char::from_u32(c) {
            assert_eq!(text::whitespace(c), c.is_whitespace());
        }
    }
    assert_eq!(text::trim("\u{3000} a b \u{85}\n"), "a b");
    assert_eq!(text::trim(" \t"), "");
    assert_eq!(text::trim_end_char("a//", '/'), "a");
}

#[test]
fn lower_case_is_ascii_only() {
    let all: String = (0u8..=255).map(char::from).collect();
    assert_eq!(text::to_lower(&all), all.to_ascii_lowercase());
}

#[test]
fn searching_finds_parts() {
    assert!(text::contains("abc", ""));
    assert!(text::contains("abc", "bc"));
    assert!(!text::contains("abc", "cb"));
    assert!(text::starts_with("abc", "ab"));
    assert!(!text::starts_with("abc", "bc"));
    assert!(!text::starts_with("a", "ab"));
}

#[test]
fn lines_and_joining() {
    let lines = text::lines_trimmed("a\r\n\n b");
    assert_eq!(lines, vec!["a".to_string(), "b".to_string()]);
    assert_eq!(text::join(&lines, "-"), "a-b");
    assert_eq!(text::join(&vec![], "-"), "");
    let rejoined = text::join(&lines, "\n");
    assert_eq!(text::lines_trimmed(&rejoined), lines);
}

#[test]
fn decimals_match_the_standard_ones() {
    for n in [0usize, 7, 10, 99, 100, 1_234_567, usize::MAX] {
        assert_eq!(text::decimal_text(n), n.to_string());
    }
}

#[test]
fn slots_keep_one_value_per_text() {
    let mut slots: Slots<u8> = Slots::new();
    assert!(slots.is_empty());
    slots.insert("a".into(), 1);
    slots.insert("b".into(), 2);
    slots.insert("a".into(), 3);
    assert!(slots.contains_key("a"));
    assert_eq!(slots.get("a"), Some(&3));
    assert_eq!(slots.get("c"), None);
    assert_eq!(slots.remove("a"), Some(3));
    assert_eq!(slots.remove("a"), None);
    assert_eq!(slots.remove("b"), Some(2));
    assert!(slots.is_empty());
}

#[test]
fn tickets_tell_owners_apart() {
    let mut slots: TicketedSlots<u8> = TicketedSlots::new();
    let first = slots.insert("a".into(), 1);
    let second = slots.insert("a".into(), 2);
    assert_eq!((first, second), (0, 1));
    slots.release("a", first);
    assert!(slots.contains_key("a"));
    slots.release("b", second);
    assert_eq!(slots.remove("a"), Some(2));
    assert!(slots.is_empty());
}
