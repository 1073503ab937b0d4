use codex_runtime::digest::{sha1_hex, to_lower_hex};
use codex_runtime::json::{canonical_json, sort_members, JsonMap, JsonNumber, JsonValue};
use codex_runtime::json_members::{name_stands_twice, object_members, read_field};
use codex_runtime::named::SortedMap;
use codex_runtime::paths::{
    has_windows_drive_prefix, native_path_str_is_absolute, relative_path_has_parent_component,
    starts_with,
};
use codex_runtime::text::{from_chars, precedes, same_text, to_chars, to_decimal};

fn text(value: &str) -> JsonValue {
    JsonValue::Text(value.to_string())
}

fn number(value: u64) -> JsonValue {
    JsonValue::Number(JsonNumber::Unsigned(value))
}

fn object(members: Vec<(&str, JsonValue)>) -> JsonValue {
    JsonValue::Object(JsonMap {
        entries: members.into_iter().map(|(name, value)| (name.to_string(), value)).collect(),
    })
}

#[test]
fn characters_come_back_as_text() {
    let chars = to_chars("añb");
    assert_eq!(chars, vec!['a', 'ñ', 'b']);
    assert_eq!(from_chars(&chars, 0, 3), "añb");
    assert_eq!(from_chars(&chars, 1, 2), "ñ");
    assert_eq!(from_chars(&chars, 2, 2), "");
}

#[test]
fn texts_are_compared_by_characters() {
    assert!(same_text("abc", "abc"));
    assert!(!same_text("abc", "abd"));
    assert!(precedes("abc", "abd"));
    assert!(precedes("ab", "abc"));
    assert!(precedes("Z", "a"));
    assert!(!precedes("abc", "abc"));
    assert!(!precedes("b", "abc"));
    assert!(precedes("", "a"));
    assert!(!precedes("", ""));
}

#[test]
fn numerals_have_no_leading_zeros() {
    assert_eq!(to_decimal(0), "0");
    assert_eq!(to_decimal(7), "7");
    assert_eq!(to_decimal(10), "10");
    assert_eq!(to_decimal(1203), "1203");
    assert_eq!(to_decimal(u64::MAX), "18446744073709551615");
}

#[test]
fn digests_are_those_of_the_standard() {
    assert_eq!(sha1_hex(""), "da39a3ee5e6b4b0d3255bfef95601890afd80709");
    assert_eq!(sha1_hex("abc"), "a9993e364706816aba3e25717850c26c9cd0d89d");
    assert_eq!(
        sha1_hex("The quick brown fox jumps over the lazy dog"),
        "2fd4e1c67a2d28fced849ee1bb76e7391b93eb12"
    );
}

#[test]
fn bytes_are_two_lower_case_digits_each() {
    assert_eq!(to_lower_hex(&vec![]), "");
    assert_eq!(to_lower_hex(&vec![0, 15, 16, 171, 255]), "000f10abff");
}

#[test]
fn absolute_paths_of_every_platform_are_seen() {
    assert!(native_path_str_is_absolute("/usr"));
    assert!(native_path_str_is_absolute("\\\\server\\share"));
    assert!(native_path_str_is_absolute("C:\\x"));
    assert!(native_path_str_is_absolute("c:/x"));
    assert!(!native_path_str_is_absolute("C:x"));
    assert!(!native_path_str_is_absolute("\\x"));
    assert!(!native_path_str_is_absolute("1:/x"));
    assert!(!native_path_str_is_absolute("x/y"));
    assert!(!native_path_str_is_absolute(""));
}

#[test]
fn drive_prefixes_are_a_letter_and_a_colon() {
    assert!(has_windows_drive_prefix("C:"));
    assert!(has_windows_drive_prefix("z:rest"));
    assert!(!has_windows_drive_prefix("é:"));
    assert!(!has_windows_drive_prefix("C"));
    assert!(!has_windows_drive_prefix("CD:"));
}

#[test]
fn parent_components_are_seen_between_either_separator() {
    assert!(relative_path_has_parent_component(".."));
    assert!(relative_path_has_parent_component("a/../b"));
    assert!(relative_path_has_parent_component("a\\..\\b"));
    assert!(relative_path_has_parent_component("a/.."));
    assert!(relative_path_has_parent_component("../a"));
    assert!(!relative_path_has_parent_component("..a"));
    assert!(!relative_path_has_parent_component("a.."));
    assert!(!relative_path_has_parent_component("a/.../b"));
    assert!(!relative_path_has_parent_component("a/b"));
    assert!(!relative_path_has_parent_component(""));
}

#[test]
fn first_characters_are_seen() {
    assert!(starts_with("/a", '/'));
    assert!(!starts_with("a/", '/'));
    assert!(!starts_with("", '/'));
}

#[test]
fn sorted_maps_keep_their_names_in_order() {
    let mut map: SortedMap<u64> = SortedMap::new();
    map.insert("b".to_string(), 1);
    map.insert("a".to_string(), 2);
    map.insert("c".to_string(), 3);
    map.insert("b".to_string(), 4);
    let names: Vec<&str> = map.entries.iter().map(|entry| entry.0.as_str()).collect();
    assert_eq!(names, vec!["a", "b", "c"]);
    assert_eq!(map.get("b"), Some(&4));
    assert_eq!(map.get("d"), None);
    assert_eq!(map.remove("b"), Some(4));
    assert_eq!(map.remove("b"), None);
    assert_eq!(map.get("b"), None);
    assert_eq!(map.get("c"), Some(&3));
}

#[test]
fn extending_a_map_prefers_the_new_values() {
    let mut map: SortedMap<u64> = SortedMap::new();
    map.insert("a".to_string(), 1);
    map.insert("b".to_string(), 2);
    let mut more: SortedMap<u64> = SortedMap::new();
    more.insert("b".to_string(), 3);
    more.insert("c".to_string(), 4);
    map.extend(more);
    assert_eq!(map.get("a"), Some(&1));
    assert_eq!(map.get("b"), Some(&3));
    assert_eq!(map.get("c"), Some(&4));
    assert_eq!(map.entries.len(), 3);
}

#[test]
fn object_members_are_read_written_and_removed() {
    let mut map = JsonMap::new();
    assert!(map.is_empty());
    map.insert("a".to_string(), number(1));
    map.insert("b".to_string(), number(2));
    map.insert("a".to_string(), number(3));
    assert!(map.contains_key("a"));
    assert_eq!(map.get("a"), Some(&number(3)));
    assert_eq!(map.entries[0].0, "a");
    assert_eq!(map.remove("a"), Some(number(3)));
    assert_eq!(map.remove("a"), None);
    assert!(!map.contains_key("a"));
    assert!(!map.is_empty());
}

#[test]
fn canonical_documents_are_sorted_at_every_depth() {
    let value = object(vec![
        ("b", JsonValue::Array(vec![object(vec![("y", number(1)), ("x", text("t"))])])),
        ("a", object(vec![("d", JsonValue::Null), ("c", JsonValue::Bool(true))])),
    ]);
    let sorted = object(vec![
        ("a", object(vec![("c", JsonValue::Bool(true)), ("d", JsonValue::Null)])),
        ("b", JsonValue::Array(vec![object(vec![("x", text("t")), ("y", number(1))])])),
    ]);
    assert_eq!(canonical_json(&value), sorted);
    assert_eq!(canonical_json(&sorted), sorted);
    assert_eq!(value.duplicate(), value);
}

#[test]
fn canonical_documents_keep_the_order_of_lists() {
    let value = JsonValue::Array(vec![number(2), number(1)]);
    assert_eq!(canonical_json(&value), value);
}

#[test]
fn members_are_sorted_and_the_last_of_a_name_counts() {
    let map = JsonMap {
        entries: vec![
            ("b".to_string(), number(1)),
            ("a".to_string(), number(2)),
            ("b".to_string(), number(3)),
        ],
    };
    let sorted = sort_members(&map);
    assert_eq!(
        sorted.entries,
        vec![("a".to_string(), number(2)), ("b".to_string(), number(3))]
    );
}

#[test]
fn members_are_taken_from_the_text() {
    let source = br#" {"a" : {"a": "b", "c": [1, {"d": 2}]}, "x\"y" : "{,", "\\": [], "a": "," } "#;
    let names: Vec<Vec<u8>> = object_members(source).into_iter().map(|member| member.0).collect();
    assert_eq!(
        names,
        vec![br#""a""#.to_vec(), br#""x\"y""#.to_vec(), br#""\\""#.to_vec(), br#""a""#.to_vec()]
    );
    let values: Vec<Vec<u8>> = object_members(source).into_iter().map(|member| member.1).collect();
    assert_eq!(values[0], br#" {"a": "b", "c": [1, {"d": 2}]}"#.to_vec());
    assert_eq!(values[1], br#" "{,""#.to_vec());
    assert_eq!(values[2], b" []".to_vec());
    assert!(name_stands_twice(source, "a"));
    assert!(!name_stands_twice(source, "c"));
    assert!(!name_stands_twice(source, "x\"y"));
    assert_eq!(object_members(b"{}"), vec![]);
    assert_eq!(object_members(b"}\"unfinished\\"), vec![]);
    assert_eq!(object_members(b"{\"unfinished\""), vec![]);
}

#[test]
fn fields_stand_once_and_can_be_read() {
    let source = br#"{"a": 1, "b": [2], "c": 1e999, "b": 3}"#;
    assert_eq!(read_field(source, "a"), Some(number(1)));
    assert_eq!(read_field(source, "b"), None);
    assert_eq!(read_field(source, "c"), None);
    assert_eq!(read_field(source, "d"), None);
}
