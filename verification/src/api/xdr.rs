//! Decoding of contract return values: base64 text of the XDR of a list of
//! strings.

use crate::text::texts;
use vstd::prelude::*;
use vstd::utf8::{decode_utf8, encode_utf8, valid_utf8};

verus! {

/// The six bits that a base64 digit stands for.
pub open spec fn sextet(b: u8) -> Option<int> {
    if 65 <= b <= 90 {
        Some(b - 65)
    } else if 97 <= b <= 122 {
        Some(b - 71)
    } else if 48 <= b <= 57 {
        Some(b + 4)
    } else if b == 43 {
        Some(62)
    } else if b == 47 {
        Some(63)
    } else {
        None
    }
}

/// A text without the padding at its end.
pub open spec fn unpadded(s: Seq<u8>) -> Seq<u8>
    decreases s.len(),
{
    if s.len() > 0 && s.last() == 61 {
        unpadded(s.drop_last())
    } else {
        s
    }
}

/// The bytes that two, three or four digits stand for; the bits of a last,
/// incomplete byte are dropped.
pub open spec fn group_bytes(s: Seq<u8>) -> Option<Seq<u8>> {
    if s.len() < 2 || sextet(s[0]) is None || sextet(s[1]) is None || (s.len() >= 3 && sextet(
        s[2],
    ) is None) || (s.len() >= 4 && sextet(s[3]) is None) {
        None
    } else {
        let first = (sextet(s[0])->0 * 4 + sextet(s[1])->0 / 16) as u8;
        let second = (sextet(s[1])->0 % 16 * 16 + sextet(s[2])->0 / 4) as u8;
        let third = (sextet(s[2])->0 % 4 * 64 + sextet(s[3])->0) as u8;
        if s.len() == 2 {
            Some(seq![first])
        } else if s.len() == 3 {
            Some(seq![first, second])
        } else {
            Some(seq![first, second, third])
        }
    }
}

/// The bytes that unpadded base64 digits stand for; none where a digit is invalid
/// or one is left over.
pub open spec fn decoded(s: Seq<u8>) -> Option<Seq<u8>>
    decreases s.len(),
{
    if s.len() == 0 {
        Some(seq![])
    } else if s.len() < 4 {
        group_bytes(s)
    } else {
        match (group_bytes(s.take(4)), decoded(s.skip(4))) {
            (Some(group), Some(rest)) => Some(group + rest),
            _ => None,
        }
    }
}

/// What a base64 text stands for.
pub open spec fn base64_of(text: Seq<char>) -> Option<Seq<u8>> {
    decoded(unpadded(encode_utf8(text)))
}

fn sextet_of(b: u8) -> (r: Option<u8>)
    ensures
        match r {
            Some(v) => sextet(b) == Some(v as int) && v < 64,
            None => sextet(b) is None,
        },
{
    if 65 <= b && b <= 90 {
        Some(b - 65)
    } else if 97 <= b && b <= 122 {
        Some(b - 71)
    } else if 48 <= b && b <= 57 {
        Some(b + 4)
    } else if b == 43 {
        Some(62)
    } else if b == 47 {
        Some(63)
    } else {
        None
    }
}

/// Decodes up to four digits from `i` on and appends what they stand for.
fn decode_group(bytes: &[u8], i: usize, n: usize, out: &mut Vec<u8>) -> (r: bool)
    requires
        2 <= n <= 4,
        i + n <= bytes@.len(),
    ensures
        match group_bytes(bytes@.subrange(i as int, i + n)) {
            Some(group) => r && final(out)@ == old(out)@ + group,
            None => !r,
        },
{
    let ghost group = bytes@.subrange(i as int, i + n);
    let b0: u8 = match sextet_of(bytes[i]) {
        Some(v) => v,
        None => {
            return false;
        },
    };
    let b1: u8 = match sextet_of(bytes[i + 1]) {
        Some(v) => v,
        None => {
            return false;
        },
    };
    if n == 2 {
        out.push(b0 * 4 + b1 / 16);
        proof {
            assert(out@ =~= old(out)@ + group_bytes(group)->0);
        }
        return true;
    }
    let b2: u8 = match sextet_of(bytes[i + 2]) {
        Some(v) => v,
        None => {
            return false;
        },
    };
    if n == 3 {
        out.push(b0 * 4 + b1 / 16);
        out.push(b1 % 16 * 16 + b2 / 4);
        proof {
            assert(out@ =~= old(out)@ + group_bytes(group)->0);
        }
        return true;
    }
    let b3: u8 = match sextet_of(bytes[i + 3]) {
        Some(v) => v,
        None => {
            return false;
        },
    };
    out.push(b0 * 4 + b1 / 16);
    out.push(b1 % 16 * 16 + b2 / 4);
    out.push(b2 % 4 * 64 + b3);
    proof {
        assert(out@ =~= old(out)@ + group_bytes(group)->0);
    }
    true
}

/// Decodes base64 text, with or without its padding; none where it is malformed.
pub fn base64_decode(input: &str) -> (r: Option<Vec<u8>>)
    ensures
        match r {
            Some(bytes) => base64_of(input@) == Some(bytes@),
            None => base64_of(input@) is None,
        },
{
    let bytes: &[u8] = input.as_bytes();
    let mut len: usize = bytes.len();
    proof {
        assert(bytes@.take(len as int) =~= bytes@);
    }
    while len > 0 && bytes[len - 1] == 61
        invariant
            len <= bytes@.len(),
            unpadded(bytes@.take(len as int)) == unpadded(bytes@),
        decreases len,
    {
        proof {
            assert(bytes@.take(len as int).drop_last() =~= bytes@.take(len - 1));
        }
        len = len - 1;
    }
    let ghost digits = bytes@.take(len as int);
    proof {
        assert(unpadded(bytes@) == digits);
        assert(digits.skip(0) =~= digits);
    }
    let mut out: Vec<u8> = Vec::new();
    let mut i: usize = 0;
    proof {
        match decoded(digits) {
            Some(rest) => {
                assert(out@ + rest =~= rest);
            },
            None => {},
        }
    }
    while len - i >= 4
        invariant
            i <= len <= bytes@.len(),
            base64_of(input@) == decoded(digits),
            digits == bytes@.take(len as int),
            decoded(digits) == (match decoded(digits.skip(i as int)) {
                Some(rest) => Some(out@ + rest),
                None => None,
            }),
        decreases len - i,
    {
        let ghost before = out@;
        proof {
            assert(digits.skip(i as int).take(4) =~= bytes@.subrange(i as int, i + 4));
            assert(digits.skip(i as int).skip(4) =~= digits.skip(i + 4));
        }
        if !decode_group(bytes, i, 4, &mut out) {
            return None;
        }
        proof {
            let group = group_bytes(bytes@.subrange(i as int, i + 4))->0;
            match decoded(digits.skip(i + 4)) {
                Some(rest) => {
                    assert(before + (group + rest) =~= out@ + rest);
                },
                None => {},
            }
        }
        i = i + 4;
    }
    let ghost tail = digits.skip(i as int);
    if i < len {
        proof {
            assert(tail =~= bytes@.subrange(i as int, len as int));
        }
        if len - i < 2 {
            return None;
        }
        if !decode_group(bytes, i, len - i, &mut out) {
            return None;
        }
    } else {
        proof {
            assert(out@ + Seq::<u8>::empty() =~= out@);
        }
    }
    Some(out)
}

/// The big-endian number in the four bytes from `i` on.
pub open spec fn be32(bytes: Seq<u8>, i: int) -> int {
    ((bytes[i] * 256 + bytes[i + 1]) * 256 + bytes[i + 2]) * 256 + bytes[i + 3]
}

/// The tag of a list among contract values.
pub const XDR_VEC_TAG: u32 = 16;

/// The tag of a string among contract values.
pub const XDR_STRING_TAG: u32 = 14;

/// A length rounded up to whole groups of four bytes.
pub open spec fn padded(len: int) -> int {
    (len + 3) / 4 * 4
}

/// The texts of `n` strings that fill the bytes from `i` on; none where those bytes
/// are anything else.
pub open spec fn strings_at(bytes: Seq<u8>, i: int, n: nat) -> Option<Seq<Seq<char>>>
    decreases n,
{
    if n == 0 {
        if i == bytes.len() {
            Some(seq![])
        } else {
            None
        }
    } else if i + 8 > bytes.len() || be32(bytes, i) != XDR_STRING_TAG {
        None
    } else {
        let len = be32(bytes, i + 4);
        if i + 8 + padded(len) > bytes.len() || !valid_utf8(
            bytes.subrange(i + 8, i + 8 + len),
        ) {
            None
        } else {
            match strings_at(bytes, i + 8 + padded(len), (n - 1) as nat) {
                Some(rest) => Some(seq![decode_utf8(bytes.subrange(i + 8, i + 8 + len))] + rest),
                None => None,
            }
        }
    }
}

/// The texts of a list of strings: its tag, a flag that it is present, its length,
/// and then each string with its own tag and length, padded to four bytes.
pub open spec fn string_vec_of(bytes: Seq<u8>) -> Option<Seq<Seq<char>>> {
    if bytes.len() < 12 || be32(bytes, 0) != XDR_VEC_TAG || be32(bytes, 4) != 1 {
        None
    } else {
        strings_at(bytes, 12, be32(bytes, 8) as nat)
    }
}

fn read_be32(bytes: &Vec<u8>, i: usize) -> (r: u32)
    requires
        i + 4 <= bytes.len(),
    ensures
        r == be32(bytes@, i as int),
{
    ((bytes[i] as u32 * 256 + bytes[i + 1] as u32) * 256 + bytes[i + 2] as u32) * 256
        + bytes[i + 3] as u32
}

/// Calls [`String::from_utf8`], which takes bytes for text: it succeeds exactly on
/// well-formed UTF-8, and the text is what the bytes encode.
#[verifier::external_body]
fn text_from_utf8(bytes: Vec<u8>) -> (r: Option<String>)
    ensures
        match r {
            Some(text) => valid_utf8(bytes@) && text@ == decode_utf8(bytes@),
            None => !valid_utf8(bytes@),
        },
{
    String::from_utf8(bytes).ok()
}

/// Decodes the base64 text of the XDR of a list of strings; none where it is
/// anything else.
pub fn decode_string_vec_xdr(xdr: &str) -> (r: Option<Vec<String>>)
    ensures
        match (base64_of(xdr@), r) {
            (Some(bytes), Some(strings)) => string_vec_of(bytes) == Some(texts(strings@)),
            (Some(bytes), None) => string_vec_of(bytes) is None,
            (None, Some(_)) => false,
            (None, None) => true,
        },
{
    let bytes: Vec<u8> = match base64_decode(xdr) {
        Some(bytes) => bytes,
        None => {
            return None;
        },
    };
    if bytes.len() < 12 || read_be32(&bytes, 0) != XDR_VEC_TAG || read_be32(&bytes, 4) != 1 {
        return None;
    }
    let n: u32 = read_be32(&bytes, 8);
    let mut strings: Vec<String> = Vec::new();
    let mut i: usize = 12;
    let mut left: u32 = n;
    proof {
        assert(texts(strings@) =~= Seq::<Seq<char>>::empty());
        match string_vec_of(bytes@) {
            Some(rest) => {
                assert(texts(strings@) + rest =~= rest);
            },
            None => {},
        }
    }
    while left > 0
        invariant
            i <= bytes.len(),
            base64_of(xdr@) == Some(bytes@),
            string_vec_of(bytes@) == (match strings_at(bytes@, i as int, left as nat) {
                Some(rest) => Some(texts(strings@) + rest),
                None => None,
            }),
        decreases left,
    {
        if bytes.len() - i < 8 || read_be32(&bytes, i) != XDR_STRING_TAG {
            return None;
        }
        let len: u32 = read_be32(&bytes, i + 4);
        let room: usize = bytes.len() - i - 8;
        let size: u64 = (len as u64 + 3) / 4 * 4;
        if size > room as u64 {
            return None;
        }
        let mut content: Vec<u8> = Vec::new();
        let mut j: usize = 0;
        while j < len as usize
            invariant
                j <= len,
                i + 8 + len <= bytes.len(),
                content@ == bytes@.subrange(i + 8, i + 8 + j),
            decreases len - j,
        {
            proof {
                assert(bytes@.subrange(i + 8, i + 8 + j + 1) =~= content@.push(
                    bytes@[i + 8 + j],
                ));
            }
            content.push(bytes[i + 8 + j]);
            j = j + 1;
        }
        let text: String = match text_from_utf8(content) {
            Some(text) => text,
            None => {
                return None;
            },
        };
        let ghost before = strings@;
        proof {
            match strings_at(bytes@, i + 8 + padded(len as int), (left - 1) as nat) {
                Some(rest) => {
                    assert(texts(before.push(text)) + rest =~= texts(before) + (seq![text@]
                        + rest));
                },
                None => {},
            }
        }
        strings.push(text);
        i = i + 8 + size as usize;
        left = left - 1;
    }
    proof {
        assert(texts(strings@) + Seq::<Seq<char>>::empty() =~= texts(strings@));
    }
    if i == bytes.len() {
        Some(strings)
    } else {
        None
    }
}

} // verus!
