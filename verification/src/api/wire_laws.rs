//! What holds of base64 texts, encoded lists of strings and described routes: every value that is
//! written is read back, and nothing else is read.

use super::rpc::{
    array_at, entry_of, item_key, item_value, last_array, last_flag, last_text, metadata_of,
    names_in, returned_map, route_of, strings_of, text_or_empty, RpcError,
};
use super::types::{RouteEntryResponse, RouteMetadataResponse};
use super::xdr::{
    base64_of, be32, decoded, group_bytes, padded, sextet, string_vec_of, strings_at, unpadded,
};
use crate::json::Json;
use vstd::prelude::*;
use vstd::utf8::{encode_utf8, encode_utf8_decode_utf8, encode_utf8_valid_utf8};

verus! {

/// Base64 digits are the upper-case letters for 0 to 25, the lower-case letters for 26 to 51, the
/// decimal digits for 52 to 61, plus for 62 and slash for 63; nothing else is one.
pub proof fn base64_digits(b: u8)
    ensures
        'A' as int <= b <= 'Z' as int ==> sextet(b) == Some(b - 'A' as int),
        'a' as int <= b <= 'z' as int ==> sextet(b) == Some(b - 'a' as int + 26),
        '0' as int <= b <= '9' as int ==> sextet(b) == Some(b - '0' as int + 52),
        b == '+' as int ==> sextet(b) == Some(62int),
        b == '/' as int ==> sextet(b) == Some(63int),
        sextet(b) is Some ==> 0 <= sextet(b)->0 < 64,
        !('A' as int <= b <= 'Z' as int) && !('a' as int <= b <= 'z' as int) && !('0' as int <= b
            <= '9' as int) && b != '+' as int && b != '/' as int ==> sextet(b) is None,
{
}

/// Digits stand for their bits, six each, read as bytes of eight: four digits for three bytes of
/// the same number, three for two with two bits dropped, two for one with four bits dropped.
pub proof fn digits_stand_for_their_bits(s: Seq<u8>)
    requires
        2 <= s.len() <= 4,
        forall|i: int| 0 <= i < s.len() ==> sextet(#[trigger] s[i]) is Some,
    ensures
        ({
            let (a, b) = (sextet(s[0])->0, sextet(s[1])->0);
            let bytes = group_bytes(s)->0;
            &&& group_bytes(s) is Some
            &&& bytes.len() == s.len() - 1
            &&& s.len() == 2 ==> bytes[0] == (a * 64 + b) / 16
            &&& s.len() == 3 ==> bytes[0] * 256 + bytes[1] == ((a * 64 + b) * 64 + sextet(s[2])->0)
                / 4
            &&& s.len() == 4 ==> (bytes[0] * 256 + bytes[1]) * 256 + bytes[2] == ((a * 64 + b) * 64
                + sextet(s[2])->0) * 64 + sextet(s[3])->0
        }),
{
    assert(sextet(s[0]) is Some && sextet(s[1]) is Some);
    if s.len() >= 3 {
        assert(sextet(s[2]) is Some);
    }
    if s.len() >= 4 {
        assert(sextet(s[3]) is Some);
    }
}

/// A text without padding is decoded exactly if it is made of digits and its last group has not
/// a single one; padding at the end, however long, makes no difference.
pub proof fn only_digits_are_decoded(s: Seq<u8>)
    ensures
        decoded(s) is Some <==> s.len() % 4 != 1 && forall|i: int|
            0 <= i < s.len() ==> sextet(#[trigger] s[i]) is Some,
        decoded(s) is Some ==> decoded(s)->0.len() == s.len() * 3 / 4,
        unpadded(s.push(61)) == unpadded(s),
        s.len() > 0 && s.last() != 61 ==> unpadded(s) == s,
        unpadded(seq![]) == Seq::<u8>::empty(),
    decreases s.len(),
{
    assert(s.push(61).drop_last() =~= s);
    assert(forall|i: int| 0 <= i < s.len() ==> #[trigger] s[i] == s[i]);
    if s.len() >= 4 {
        let (head, tail) = (s.take(4), s.skip(4));
        only_digits_are_decoded(tail);
        assert forall|i: int| 0 <= i < tail.len() implies #[trigger] tail[i] == s[i + 4] by {}
        assert forall|i: int| 0 <= i < 4 implies #[trigger] head[i] == s[i] by {}
        if forall|i: int| 0 <= i < s.len() ==> sextet(#[trigger] s[i]) is Some {
            assert forall|i: int| 0 <= i < tail.len() implies sextet(#[trigger] tail[i]) is Some by {
                assert(sextet(s[i + 4]) is Some);
            }
            assert(sextet(s[0]) is Some && sextet(s[1]) is Some && sextet(s[2]) is Some && sextet(
                s[3],
            ) is Some);
        }
        if decoded(s) is Some {
            assert(sextet(head[0]) is Some && sextet(head[1]) is Some && sextet(head[2]) is Some
                && sextet(head[3]) is Some);
            assert forall|i: int| 0 <= i < s.len() implies sextet(#[trigger] s[i]) is Some by {
                if i < 4 {
                    assert(s[i] == head[i]);
                    assert(i == 0 || i == 1 || i == 2 || i == 3);
                } else {
                    assert(s[i] == tail[i - 4]);
                }
            }
        }
    } else if s.len() > 0 {
        if forall|i: int| 0 <= i < s.len() ==> sextet(#[trigger] s[i]) is Some {
            assert(sextet(s[0]) is Some);
            if s.len() >= 2 {
                assert(sextet(s[1]) is Some);
            }
            if s.len() >= 3 {
                assert(sextet(s[2]) is Some);
            }
        }
        if decoded(s) is Some {
            assert forall|i: int| 0 <= i < s.len() implies sextet(#[trigger] s[i]) is Some by {
                assert(i == 0 || i == 1 || i == 2);
            }
        }
    }
}

/// A number as four bytes, the highest first.
pub open spec fn four_bytes(n: int) -> Seq<u8> {
    seq![
        (n / 0x100_0000 % 256) as u8,
        (n / 0x1_0000 % 256) as u8,
        (n / 0x100 % 256) as u8,
        (n % 256) as u8,
    ]
}

/// A string as it is encoded: the tag 14, the length of its bytes, the bytes, and zeros up to a
/// multiple of four.
pub open spec fn encoded_string(text: Seq<char>) -> Seq<u8> {
    let bytes = encode_utf8(text);
    four_bytes(14) + four_bytes(bytes.len() as int) + bytes + Seq::new(
        ((4 - bytes.len() % 4) % 4) as nat,
        |i: int| 0u8,
    )
}

/// Strings one behind the other.
pub open spec fn encoded_strings(texts: Seq<Seq<char>>) -> Seq<u8>
    decreases texts.len(),
{
    if texts.len() == 0 {
        seq![]
    } else {
        encoded_string(texts[0]) + encoded_strings(texts.drop_first())
    }
}

/// A list of strings as it is encoded: the tag 16, a one, the number of strings, and the strings.
pub open spec fn encoded_list(texts: Seq<Seq<char>>) -> Seq<u8> {
    four_bytes(16) + four_bytes(1) + four_bytes(texts.len() as int) + encoded_strings(texts)
}

/// Four bytes read back as the number that they were made of.
proof fn lemma_four_bytes(bytes: Seq<u8>, i: int, n: int)
    requires
        0 <= n < 0x1_0000_0000,
        0 <= i,
        i + 4 <= bytes.len(),
        bytes.subrange(i, i + 4) == four_bytes(n),
    ensures
        be32(bytes, i) == n,
{
    let four = bytes.subrange(i, i + 4);
    assert(four[0] == bytes[i] && four[1] == bytes[i + 1] && four[2] == bytes[i + 2] && four[3]
        == bytes[i + 3]);
    assert(n / 0x100_0000 % 256 == n / 0x100_0000);
}

/// Where the parts of an encoded string stand.
proof fn lemma_string_parts(bytes: Seq<u8>, i: int, text: Seq<char>, rest: Seq<u8>)
    requires
        0 <= i <= bytes.len(),
        bytes.skip(i) == encoded_string(text) + rest,
        encode_utf8(text).len() < 0x1_0000_0000,
    ensures
        ({
            let len = encode_utf8(text).len() as int;
            let next = i + 8 + padded(len);
            &&& next <= bytes.len()
            &&& len <= padded(len)
            &&& be32(bytes, i) == 14
            &&& be32(bytes, i + 4) == len
            &&& bytes.subrange(i + 8, i + 8 + len) == encode_utf8(text)
            &&& bytes.skip(next) == rest
        }),
{
    let raw = encode_utf8(text);
    let len = raw.len() as int;
    let tail = encoded_string(text) + rest;
    let zeros = Seq::new(((4 - len % 4) % 4) as nat, |k: int| 0u8);
    assert(padded(len) == len + zeros.len());
    assert(encoded_string(text) =~= four_bytes(14) + four_bytes(len) + raw + zeros);
    assert(tail.len() == 8 + padded(len) + rest.len());
    assert(tail == bytes.skip(i));
    assert(bytes.subrange(i, i + 4) =~= four_bytes(14)) by {
        assert(bytes.subrange(i, i + 4) =~= tail.subrange(0, 4));
        assert(tail.subrange(0, 4) =~= four_bytes(14));
    }
    lemma_four_bytes(bytes, i, 14);
    assert(bytes.subrange(i + 4, i + 8) =~= four_bytes(len)) by {
        assert(bytes.subrange(i + 4, i + 8) =~= tail.subrange(4, 8));
        assert(tail.subrange(4, 8) =~= four_bytes(len));
    }
    lemma_four_bytes(bytes, i + 4, len);
    assert(bytes.subrange(i + 8, i + 8 + len) =~= raw) by {
        assert(bytes.subrange(i + 8, i + 8 + len) =~= tail.subrange(8, 8 + len));
        assert(tail.subrange(8, 8 + len) =~= raw);
    }
    assert(bytes.skip(i + 8 + padded(len)) =~= rest) by {
        assert(bytes.skip(i + 8 + padded(len)) =~= tail.skip(8 + padded(len)));
        assert(tail.skip(8 + padded(len)) =~= rest);
    }
}

proof fn lemma_strings_read_back(bytes: Seq<u8>, i: int, texts: Seq<Seq<char>>)
    requires
        0 <= i <= bytes.len(),
        bytes.skip(i) == encoded_strings(texts),
        forall|k: int|
            0 <= k < texts.len() ==> encode_utf8(#[trigger] texts[k]).len() < 0x1_0000_0000,
    ensures
        strings_at(bytes, i, texts.len()) == Some(texts),
    decreases texts.len(),
{
    if texts.len() == 0 {
        assert(bytes.skip(i).len() == 0);
        assert(texts =~= Seq::<Seq<char>>::empty());
    } else {
        let first = texts[0];
        let rest = texts.drop_first();
        let len = encode_utf8(first).len() as int;
        lemma_string_parts(bytes, i, first, encoded_strings(rest));
        encode_utf8_valid_utf8(first);
        encode_utf8_decode_utf8(first);
        assert forall|k: int| 0 <= k < rest.len() implies encode_utf8(#[trigger] rest[k]).len()
            < 0x1_0000_0000 by {
            assert(rest[k] == texts[k + 1]);
        }
        lemma_strings_read_back(bytes, i + 8 + padded(len), rest);
        assert(seq![first] + rest =~= texts);
    }
}

/// A list of strings reads back from its encoding, whatever the strings and however many; so do
/// the route names in a returned value that is the base64 text of one.
pub proof fn lists_of_strings_read_back(texts: Seq<Seq<char>>, xdr: Seq<char>)
    requires
        texts.len() < 0x1_0000_0000,
        forall|k: int|
            0 <= k < texts.len() ==> encode_utf8(#[trigger] texts[k]).len() < 0x1_0000_0000,
    ensures
        string_vec_of(encoded_list(texts)) == Some(texts),
        base64_of(xdr) == Some(encoded_list(texts)) ==> names_in(xdr) == texts,
{
    let bytes = encoded_list(texts);
    assert(bytes.subrange(0, 4) =~= four_bytes(16));
    assert(bytes.subrange(4, 8) =~= four_bytes(1));
    assert(bytes.subrange(8, 12) =~= four_bytes(texts.len() as int));
    lemma_four_bytes(bytes, 0, 16);
    lemma_four_bytes(bytes, 4, 1);
    lemma_four_bytes(bytes, 8, texts.len() as int);
    assert(bytes.skip(12) =~= encoded_strings(texts));
    lemma_strings_read_back(bytes, 12, texts);
}

/// What is no list of strings is none: too short, with another tag, absent, or with anything left
/// over.
pub proof fn other_values_hold_no_names(bytes: Seq<u8>, xdr: Seq<char>)
    ensures
        bytes.len() < 12 ==> string_vec_of(bytes) is None,
        bytes.len() >= 4 && be32(bytes, 0) != 16 ==> string_vec_of(bytes) is None,
        bytes.len() >= 8 && be32(bytes, 4) != 1 ==> string_vec_of(bytes) is None,
        bytes.len() > 12 && be32(bytes, 8) == 0 ==> string_vec_of(bytes) is None,
        base64_of(xdr) is None ==> names_in(xdr).len() == 0,
        base64_of(xdr) == Some(bytes) && string_vec_of(bytes) is None ==> names_in(xdr).len() == 0,
{
}

/// What is read under a key of a map is what the last item with that key says; an item with
/// another key changes nothing, and an empty map says nothing.
pub proof fn the_last_item_counts(
    items: Seq<Json>,
    item: Json,
    key: Seq<char>,
    part: Seq<char>,
)
    ensures
        last_text(seq![], key, part) == ""@,
        !last_flag(seq![], key),
        last_array(seq![], key, part) is None,
        item_key(item) != key ==> last_text(items.push(item), key, part) == last_text(
            items,
            key,
            part,
        ) && last_flag(items.push(item), key) == last_flag(items, key) && last_array(
            items.push(item),
            key,
            part,
        ) == last_array(items, key, part),
        item_key(item) == key ==> {
            &&& last_text(items.push(item), key, part) == match item_value(item).field(part) {
                Some(Json::Text(text)) => text@,
                _ => ""@,
            }
            &&& last_flag(items.push(item), key) == (item_value(item).field("b"@) == Some(
                Json::Bool(true),
            ))
            &&& last_array(items.push(item), key, part) == match item_value(item).field(part) {
                Some(Json::Array(values)) => Some(values@),
                _ => last_array(items, key, part),
            }
        },
{
    assert(items.push(item).drop_last() =~= items);
}

/// The key of an item is the symbol under its member `key`, and its value what is under its member
/// `val`.
pub proof fn items_have_keys_and_values(item: Json, key: Json, value: Json)
    ensures
        item.field("key"@) == Some(key) && key.field("sym"@) is Some ==> item_key(item)
            == text_or_empty(key.field("sym"@)),
        item.field("key"@) is None ==> item_key(item) == ""@,
        item.field("val"@) == Some(value) ==> item_value(item) == value,
        item.field("val"@) is None ==> item_value(item) == Json::Null,
{
}

/// A list of values holds the texts under `str` of those that have one there, in order.
pub proof fn texts_are_collected(items: Seq<Json>, item: Json)
    ensures
        strings_of(seq![]) == Seq::<Seq<char>>::empty(),
        strings_of(items.push(item)) == match item.field("str"@) {
            Some(Json::Text(text)) => strings_of(items).push(text@),
            _ => strings_of(items),
        },
{
    assert(items.push(item).drop_last() =~= items);
}

/// A map describes a route exactly if it names an address; the parts of the route are what it says
/// under their own keys.
pub proof fn maps_describe_routes(items: Seq<Json>)
    ensures
        entry_of(items) is Some <==> last_text(items, "address"@, "address"@).len() >= 1,
        entry_of(items) matches Some(route) ==> {
            &&& route.address == last_text(items, "address"@, "address"@)
            &&& route.name == last_text(items, "name"@, "str"@)
            &&& route.paused == last_flag(items, "paused"@)
            &&& route.updated_by == last_text(items, "updated_by"@, "address"@)
            &&& route.metadata is Some <==> last_array(items, "metadata"@, "map"@) is Some
            &&& route.metadata is Some ==> {
                let described = last_array(items, "metadata"@, "map"@)->0;
                let metadata = route.metadata->0;
                &&& metadata == metadata_of(described)
                &&& metadata.description == last_text(described, "description"@, "str"@)
                &&& metadata.owner == last_text(described, "owner"@, "address"@)
                &&& last_array(described, "tags"@, "vec"@) is None ==> metadata.tags.len() == 0
                &&& last_array(described, "tags"@, "vec"@) is Some ==> metadata.tags == strings_of(
                    last_array(described, "tags"@, "vec"@)->0,
                )
            }
        },
{
}

/// What a route is described by is every part of it.
pub proof fn routes_are_described_in_full(
    route: RouteEntryResponse,
    metadata: RouteMetadataResponse,
    i: int,
)
    ensures
        route@.address == route.address@ && route@.name == route.name@,
        route@.paused == route.paused && route@.updated_by == route.updated_by@,
        route.metadata is None <==> route@.metadata is None,
        route.metadata == Some(metadata) ==> route@.metadata == Some(metadata@),
        metadata@.description == metadata.description@ && metadata@.owner == metadata.owner@,
        metadata@.tags.len() == metadata.tags@.len(),
        0 <= i < metadata.tags@.len() ==> metadata@.tags[i] == metadata.tags@[i]@,
{
}

/// Every failure is told in its own words.
pub proof fn failures_are_told_in_words(error: RpcError, message: String)
    ensures
        error == RpcError::NotConfigured ==> error.text()
            == "ROUTER_CORE_CONTRACT_ID not configured"@,
        error == RpcError::EmptyResult ==> error.text() == "empty RPC result"@,
        error == RpcError::Transport(message) ==> error.text() == message@,
        error == RpcError::Rpc(message) ==> error.text() == "RPC error: "@ + message@,
        error == RpcError::Contract(message) ==> error.text() == "contract error: "@ + message@,
{
}

/// A simulation result describes a route exactly if it is no error and the map in the first of its
/// results describes one.
pub proof fn results_describe_routes(result: Json)
    ensures
        result.field("error"@) is Some ==> route_of(result) is None,
        array_at(result, "results"@) is None || array_at(result, "results"@)->0.len() == 0
            ==> route_of(result) is None,
        result.field("error"@) is None && array_at(result, "results"@) is Some && array_at(
            result,
            "results"@,
        )->0.len() > 0 ==> {
            let first = array_at(result, "results"@)->0[0];
            &&& first.field("xdr"@) is None ==> route_of(result) is None
            &&& first.field("xdr"@) matches Some(Json::Object(_)) ==> returned_map(result)
                == array_at(first.field("xdr"@)->0, "map"@)
            &&& returned_map(result) is Some ==> route_of(result) == entry_of(
                returned_map(result)->0,
            )
            &&& returned_map(result) is None ==> route_of(result) is None
        },
{
}

} // verus!
