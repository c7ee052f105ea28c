//! What holds of the API's decoding as a whole.

use super::rpc::{
    array_at, entry_of, item_key, item_value, last_array, last_flag, last_text, route_of,
    text_or_empty,
};
use super::xdr::{base64_of, decoded, group_bytes, sextet, unpadded};
use crate::json::Json;
use vstd::prelude::*;
use vstd::utf8::{encode_utf8, is_ascii_chars, is_ascii_chars_encode_utf8};

verus! {

/// Whether a key of a map is one that describes a route.
pub open spec fn is_route_key(key: Seq<char>) -> bool {
    ||| key == "address"@
    ||| key == "name"@
    ||| key == "paused"@
    ||| key == "updated_by"@
    ||| key == "metadata"@
}

/// The items of a map whose keys describe a route.
pub open spec fn route_items(items: Seq<Json>) -> Seq<Json>
    decreases items.len(),
{
    if items.len() == 0 {
        seq![]
    } else if is_route_key(item_key(items.last())) {
        route_items(items.drop_last()).push(items.last())
    } else {
        route_items(items.drop_last())
    }
}

/// Items under other keys do not change what is read under one that describes a route.
proof fn lemma_route_items(items: Seq<Json>, key: Seq<char>, part: Seq<char>)
    requires
        is_route_key(key),
    ensures
        last_text(route_items(items), key, part) == last_text(items, key, part),
        last_flag(route_items(items), key) == last_flag(items, key),
        last_array(route_items(items), key, part) == last_array(items, key, part),
    decreases items.len(),
{
    if items.len() > 0 {
        let rest = route_items(items.drop_last());
        lemma_route_items(items.drop_last(), key, part);
        if is_route_key(item_key(items.last())) {
            assert(rest.push(items.last()).drop_last() =~= rest);
        }
    }
}

/// Items of a map under keys that do not describe a route change nothing.
pub proof fn other_items_are_skipped(items: Seq<Json>, others: Seq<Json>)
    requires
        route_items(items) == route_items(others),
    ensures
        entry_of(items) == entry_of(others),
{
    lemma_route_items(items, "address"@, "address"@);
    lemma_route_items(items, "name"@, "str"@);
    lemma_route_items(items, "paused"@, ""@);
    lemma_route_items(items, "updated_by"@, "address"@);
    lemma_route_items(items, "metadata"@, "map"@);
    lemma_route_items(others, "address"@, "address"@);
    lemma_route_items(others, "name"@, "str"@);
    lemma_route_items(others, "paused"@, ""@);
    lemma_route_items(others, "updated_by"@, "address"@);
    lemma_route_items(others, "metadata"@, "map"@);
}

/// What is read under a key that one item has.
proof fn lemma_only_item(items: Seq<Json>, key: Seq<char>, part: Seq<char>, item: Json)
    requires
        items.contains(item),
        item_key(item) == key,
        forall|other: Json| #[trigger]
            items.contains(other) && item_key(other) == key ==> other == item,
    ensures
        last_text(items, key, part) == text_or_empty(item_value(item).field(part)),
        last_flag(items, key) == (item_value(item).field("b"@) == Some(Json::Bool(true))),
        last_array(items, key, part) == array_at(item_value(item), part),
    decreases items.len(),
{
    let last = items[items.len() - 1];
    let rest = items.drop_last();
    assert(items.contains(last));
    assert forall|other: Json| #[trigger] rest.contains(other) implies items.contains(other) by {
        let i = choose|i: int| 0 <= i < rest.len() && rest[i] == other;
        assert(items[i] == other);
    }
    if rest.contains(item) {
        lemma_only_item(rest, key, part, item);
    } else {
        let i = choose|i: int| 0 <= i < items.len() && items[i] == item;
        assert(i < rest.len() ==> rest[i] == item);
        assert forall|other: Json| #[trigger] rest.contains(other) implies item_key(other)
            != key by {
            assert(items.contains(other));
        }
        lemma_no_item(rest, key, part);
    }
}

/// What is read under a key that no item has.
proof fn lemma_no_item(items: Seq<Json>, key: Seq<char>, part: Seq<char>)
    requires
        forall|item: Json| #[trigger] items.contains(item) ==> item_key(item) != key,
    ensures
        last_text(items, key, part) == ""@,
        !last_flag(items, key),
        last_array(items, key, part) is None,
    decreases items.len(),
{
    if items.len() > 0 {
        let rest = items.drop_last();
        assert(items.contains(items[items.len() - 1]));
        assert forall|item: Json| #[trigger] rest.contains(item) implies item_key(item) != key by {
            let i = choose|i: int| 0 <= i < rest.len() && rest[i] == item;
            assert(items[i] == item);
            assert(items.contains(item));
        }
        lemma_no_item(rest, key, part);
    }
}

/// Whether no key that describes a route is that of two items.
pub open spec fn route_keys_differ(items: Seq<Json>) -> bool {
    forall|i: int, j: int|
        0 <= i < j < items.len() && is_route_key(item_key(#[trigger] items[i])) ==> item_key(
            items[i],
        ) != item_key(#[trigger] items[j])
}

/// Two maps with the same items read alike under a key that no two items have.
proof fn lemma_same_items(
    items: Seq<Json>,
    others: Seq<Json>,
    key: Seq<char>,
    part: Seq<char>,
)
    requires
        route_keys_differ(items),
        is_route_key(key),
        items.to_multiset() == others.to_multiset(),
    ensures
        last_text(items, key, part) == last_text(others, key, part),
        last_flag(items, key) == last_flag(others, key),
        last_array(items, key, part) == last_array(others, key, part),
{
    assert forall|item: Json| items.contains(item) == #[trigger] others.contains(item) by {
        vstd::seq_lib::to_multiset_contains(items, item);
        vstd::seq_lib::to_multiset_contains(others, item);
    }
    if exists|item: Json| #[trigger] items.contains(item) && item_key(item) == key {
        let item = choose|item: Json| #[trigger] items.contains(item) && item_key(item) == key;
        assert forall|other: Json| #[trigger]
            items.contains(other) && item_key(other) == key implies other == item by {
            let i = choose|i: int| 0 <= i < items.len() && items[i] == item;
            let j = choose|j: int| 0 <= j < items.len() && items[j] == other;
            assert(items[i] == item && items[j] == other);
        }
        assert(others.contains(item));
        assert forall|other: Json| #[trigger]
            others.contains(other) && item_key(other) == key implies other == item by {
            assert(items.contains(other));
        }
        lemma_only_item(items, key, part, item);
        lemma_only_item(others, key, part, item);
    } else {
        assert forall|item: Json| #[trigger] others.contains(item) implies item_key(item) != key by {
            assert(items.contains(item));
        }
        lemma_no_item(items, key, part);
        lemma_no_item(others, key, part);
    }
}

/// The order of the items of a map is free, as long as no key that describes a route
/// occurs twice.
pub proof fn order_of_items_is_free(items: Seq<Json>, others: Seq<Json>)
    requires
        items.to_multiset() == others.to_multiset(),
        route_keys_differ(items),
    ensures
        entry_of(items) == entry_of(others),
{
    lemma_same_items(items, others, "address"@, "address"@);
    lemma_same_items(items, others, "name"@, "str"@);
    lemma_same_items(items, others, "paused"@, ""@);
    lemma_same_items(items, others, "updated_by"@, "address"@);
    lemma_same_items(items, others, "metadata"@, "map"@);
}

/// Of the results of a simulation only the first is read.
pub proof fn only_the_first_result_counts(
    result: Json,
    other: Json,
    results: Seq<Json>,
    others: Seq<Json>,
)
    requires
        result.field("error"@) is None,
        other.field("error"@) is None,
        array_at(result, "results"@) == Some(results),
        array_at(other, "results"@) == Some(others),
        results.len() > 0,
        others.len() > 0,
        results[0] == others[0],
    ensures
        route_of(result) == route_of(other),
{
}

/// The base64 digit that stands for six bits.
pub open spec fn digit(v: int) -> u8 {
    if v < 26 {
        (v + 65) as u8
    } else if v < 52 {
        (v + 71) as u8
    } else if v < 62 {
        (v - 4) as u8
    } else if v == 62 {
        43
    } else {
        47
    }
}

/// The digits that stand for one, two or three bytes.
pub open spec fn group_digits(bytes: Seq<u8>) -> Seq<u8> {
    let first = digit(bytes[0] as int / 4);
    if bytes.len() == 1 {
        seq![first, digit(bytes[0] as int % 4 * 16)]
    } else {
        let second = digit(bytes[0] as int % 4 * 16 + bytes[1] as int / 16);
        if bytes.len() == 2 {
            seq![first, second, digit(bytes[1] as int % 16 * 4)]
        } else {
            seq![
                first,
                second,
                digit(bytes[1] as int % 16 * 4 + bytes[2] as int / 64),
                digit(bytes[2] as int % 64),
            ]
        }
    }
}

/// The base64 digits that stand for bytes, without padding.
pub open spec fn digits_of(bytes: Seq<u8>) -> Seq<u8>
    decreases bytes.len(),
{
    if bytes.len() == 0 {
        seq![]
    } else if bytes.len() < 3 {
        group_digits(bytes)
    } else {
        group_digits(bytes.take(3)) + digits_of(bytes.skip(3))
    }
}

/// The base64 text of bytes, with as many padding characters as are asked for.
pub open spec fn base64_text(bytes: Seq<u8>, padding: nat) -> Seq<char> {
    (digits_of(bytes) + Seq::new(padding, |i: int| 61u8)).map_values(|b: u8| b as char)
}

/// Whether all bytes are base64 digits.
spec fn all_digits(s: Seq<u8>) -> bool {
    forall|i: int| 0 <= i < s.len() ==> sextet(#[trigger] s[i]) is Some
}

/// A digit stands for the bits that it was made of.
proof fn lemma_digit(v: int)
    requires
        0 <= v < 64,
    ensures
        sextet(digit(v)) == Some(v),
{
}

/// A group of digits stands for the bytes that it was made of.
proof fn lemma_group(bytes: Seq<u8>)
    requires
        1 <= bytes.len() <= 3,
    ensures
        group_digits(bytes).len() == bytes.len() + 1,
        all_digits(group_digits(bytes)),
        group_bytes(group_digits(bytes)) == Some(bytes),
{
    let b0 = bytes[0] as int;
    lemma_digit(b0 / 4);
    if bytes.len() == 1 {
        lemma_digit(b0 % 4 * 16);
        assert(group_bytes(group_digits(bytes))->0 =~= bytes);
    } else {
        let b1 = bytes[1] as int;
        lemma_digit(b0 % 4 * 16 + b1 / 16);
        if bytes.len() == 2 {
            lemma_digit(b1 % 16 * 4);
            assert(group_bytes(group_digits(bytes))->0 =~= bytes);
        } else {
            let b2 = bytes[2] as int;
            lemma_digit(b1 % 16 * 4 + b2 / 64);
            lemma_digit(b2 % 64);
            assert(group_bytes(group_digits(bytes))->0 =~= bytes);
        }
    }
}

/// Digits stand for the bytes that they were made of.
proof fn lemma_digits(bytes: Seq<u8>)
    ensures
        all_digits(digits_of(bytes)),
        decoded(digits_of(bytes)) == Some(bytes),
    decreases bytes.len(),
{
    if bytes.len() == 0 {
        assert(bytes =~= seq![]);
    } else if bytes.len() < 3 {
        lemma_group(bytes);
    } else {
        let group = group_digits(bytes.take(3));
        let rest = digits_of(bytes.skip(3));
        lemma_group(bytes.take(3));
        lemma_digits(bytes.skip(3));
        assert((group + rest).take(4) =~= group);
        assert((group + rest).skip(4) =~= rest);
        assert(bytes.take(3) + bytes.skip(3) =~= bytes);
        assert forall|i: int| 0 <= i < (group + rest).len() implies sextet(
            #[trigger] (group + rest)[i],
        ) is Some by {
            if i < 4 {
                assert((group + rest)[i] == group[i]);
            } else {
                assert((group + rest)[i] == rest[i - 4]);
            }
        }
    }
}

/// Padding behind digits is taken off.
proof fn lemma_unpadded(digits: Seq<u8>, padding: nat)
    requires
        all_digits(digits),
    ensures
        unpadded(digits + Seq::new(padding, |i: int| 61u8)) == digits,
    decreases padding,
{
    let s = digits + Seq::new(padding, |i: int| 61u8);
    if padding > 0 {
        assert(s.drop_last() =~= digits + Seq::new((padding - 1) as nat, |i: int| 61u8));
        lemma_unpadded(digits, (padding - 1) as nat);
    } else {
        assert(s =~= digits);
        if s.len() > 0 {
            assert(sextet(digits[digits.len() - 1]) is Some);
        }
    }
}

/// Decoding the base64 text of any bytes, with or without its padding, gives the bytes
/// back.
pub proof fn decoding_undoes_encoding(bytes: Seq<u8>, padding: nat)
    ensures
        base64_of(base64_text(bytes, padding)) == Some(bytes),
{
    let digits = digits_of(bytes);
    let s = digits + Seq::new(padding, |i: int| 61u8);
    let text = base64_text(bytes, padding);
    lemma_digits(bytes);
    lemma_unpadded(digits, padding);
    assert forall|i: int| 0 <= i < text.len() implies '\0' <= #[trigger] text[i] <= '\u{7f}'
        && text[i] as u8 == s[i] by {
        assert(i < digits.len() ==> s[i] == digits[i] && sextet(digits[i]) is Some);
        assert(s[i] < 128);
    }
    assert(is_ascii_chars(text));
    is_ascii_chars_encode_utf8(text);
    assert(encode_utf8(text) =~= s);
}

} // verus!
