use stellar_router::json::Json;
use stellar_router::store::KeyedStore;
use stellar_router::text::{
    chars_of, copy_strings, decimal, hex, list_contains, parse_i64, parse_u32_at, parse_u64,
    same_text, without_text,
};

fn strings(texts: &[&str]) -> Vec<String> {
    texts.iter().map(|s| s.to_string()).collect()
}

#[test]
fn decimal_writes_every_digit() {
    assert_eq!(decimal(0), "0");
    assert_eq!(decimal(907), "907");
    assert_eq!(decimal(u64::MAX), "18446744073709551615");
}

#[test]
fn hex_writes_two_digits_per_byte() {
    assert_eq!(hex(&[]), "");
    assert_eq!(hex(&[0, 15, 16, 255]), "000f10ff");
}

#[test]
fn parse_u64_agrees_with_std() {
    for text in [
        "", "0", "+", "-", "-0", "+7", "007", "42", "4 2", " 42", "1_000", "0x10",
        "18446744073709551615", "18446744073709551616", "99999999999999999999999", "٣",
    ] {
        assert_eq!(parse_u64(text), text.parse::<u64>().ok(), "{}", text);
    }
}

#[test]
fn parse_i64_agrees_with_std() {
    for text in [
        "", "0", "+", "-", "-0", "+7", "-7", "--7", "9223372036854775807", "9223372036854775808",
        "-9223372036854775808", "-9223372036854775809", "12a",
    ] {
        assert_eq!(parse_i64(text), text.parse::<i64>().ok(), "{}", text);
    }
}

#[test]
fn parse_u32_starts_where_it_is_told() {
    let chars = chars_of(">=17");
    assert_eq!(parse_u32_at(&chars, 2), Some(17));
    assert_eq!(parse_u32_at(&chars, 3), Some(7));
    assert_eq!(parse_u32_at(&chars, 1), None);
    assert_eq!(parse_u32_at(&chars, 4), None);
    assert_eq!(parse_u32_at(&chars_of("4294967295"), 0), Some(u32::MAX));
    assert_eq!(parse_u32_at(&chars_of("4294967296"), 0), None);
}

#[test]
fn same_text_compares_whole_texts() {
    assert!(same_text("", ""));
    assert!(same_text("naïve", "naïve"));
    assert!(!same_text("abc", "ab"));
    assert!(!same_text("ab", "abc"));
    assert!(!same_text("abc", "abd"));
}

#[test]
fn lists_of_strings() {
    let list = strings(&["a", "b", "a", "c"]);
    assert!(list_contains(&list, "a"));
    assert!(!list_contains(&list, "d"));
    assert_eq!(without_text(&list, "a"), strings(&["b", "c"]));
    assert_eq!(without_text(&list, "d"), list);
    assert_eq!(copy_strings(&list), list);
}

#[test]
fn store_keeps_its_order_and_one_value_per_key() {
    let mut store: KeyedStore<String, u32> = KeyedStore::new();
    store.insert("b".to_string(), 1);
    store.insert("a".to_string(), 2);
    store.insert("b".to_string(), 3);
    assert_eq!(store.entries, vec![("b".to_string(), 3), ("a".to_string(), 2)]);
    assert_eq!(store.get(&"b".to_string()), Some(&3));
    assert_eq!(store.get(&"c".to_string()), None);
    assert!(store.contains(&"a".to_string()));
    assert_eq!(store.position(&"a".to_string()), Some(1));
}

#[test]
fn store_values_change_in_place() {
    let mut store: KeyedStore<(u64, u32), u32> = KeyedStore::new();
    store.insert((1, 2), 10);
    store.insert((1, 3), 20);
    if let Some(value) = store.get_mut(&(1, 2)) {
        *value += 5;
    }
    assert!(store.get_mut(&(2, 2)).is_none());
    assert_eq!(store.entries, vec![((1, 2), 15), ((1, 3), 20)]);
}

#[test]
fn removed_key_is_gone_and_others_stay() {
    let mut store: KeyedStore<(String, u32), bool> = KeyedStore::new();
    store.insert(("a".to_string(), 1), true);
    store.insert(("a".to_string(), 2), false);
    store.remove(&("a".to_string(), 1));
    store.remove(&("b".to_string(), 1));
    assert!(!store.contains(&("a".to_string(), 1)));
    assert_eq!(store.get(&("a".to_string(), 2)), Some(&false));
}

#[test]
fn json_members_are_found_by_name() {
    let object = Json::Object(vec![
        ("n".to_string(), Json::Unsigned(7)),
        ("t".to_string(), Json::Text("x".to_string())),
        ("l".to_string(), Json::Array(vec![Json::Null, Json::Bool(true)])),
        ("f".to_string(), Json::OtherNumber),
    ]);
    assert_eq!(object.get("n").and_then(|v| v.as_u64()), Some(7));
    assert_eq!(object.get("t").and_then(|v| v.as_str()), Some("x"));
    assert_eq!(object.get("f").and_then(|v| v.as_u64()), None);
    assert!(object.get("missing").is_none());
    let list = object.get("l").and_then(|v| v.as_array()).unwrap();
    assert!(list[0].is_null());
    assert_eq!(list[1].as_bool(), Some(true));
    assert!(list[1].get("n").is_none());
    assert!(object.as_array().is_none());
}

#[test]
fn store_keeps_its_order_when_keys_leave_and_come_back() {
    let mut store: KeyedStore<String, u32> = KeyedStore::new();
    for (value, key) in ["c", "a", "b"].iter().enumerate() {
        store.insert(key.to_string(), value as u32);
    }
    store.remove(&"a".to_string());
    store.remove(&"x".to_string());
    assert_eq!(store.entries, vec![("c".to_string(), 0), ("b".to_string(), 2)]);
    store.insert("a".to_string(), 7);
    store.insert("c".to_string(), 8);
    assert_eq!(
        store.entries,
        vec![("c".to_string(), 8), ("b".to_string(), 2), ("a".to_string(), 7)]
    );
}
