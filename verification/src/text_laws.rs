//! What holds of texts: numbers read back as they are written, and lists of texts hold what
//! was put into them.

use crate::text::{
    decimal_of, digits_value, hex_char, hex_of, i64_of, lists, lists_all, others, piece_views,
    pieces, texts, u32_of, u64_of, with_new,
};
use vstd::prelude::*;

verus! {

/// A number in decimal notation is made of digits, does not begin with a zero unless it is
/// zero, and stands for itself.
pub proof fn decimal_stands_for_its_number(n: nat)
    ensures
        digits_value(decimal_of(n)) == Some(n),
        decimal_of(n).len() >= 1,
        forall|i: int| 0 <= i < decimal_of(n).len() ==> '0' <= #[trigger] decimal_of(n)[i] <= '9',
        n > 0 ==> decimal_of(n)[0] != '0',
    decreases n,
{
    if n >= 10 {
        decimal_stands_for_its_number(n / 10);
        let text = decimal_of(n);
        let rest = decimal_of(n / 10);
        assert(text.drop_last() =~= rest);
        assert(text.last() as int - 48 == n % 10);
        assert(text[0] == rest[0]);
        assert(n / 10 * 10 + n % 10 == n);
        assert forall|i: int| 0 <= i < text.len() implies '0' <= #[trigger] text[i] <= '9' by {
            if i < rest.len() {
                assert(text[i] == rest[i]);
            }
        }
    }
}

/// A number reads back from its decimal notation, with a plus sign or without one, exactly
/// if it fits; and a negative one with its sign.
pub proof fn decimal_reads_back(n: nat)
    ensures
        u64_of(decimal_of(n)) == if n <= u64::MAX {
            Some(n as u64)
        } else {
            None
        },
        u64_of(seq!['+'] + decimal_of(n)) == u64_of(decimal_of(n)),
        u32_of(decimal_of(n)) == if n <= u32::MAX {
            Some(n as u32)
        } else {
            None
        },
        u32_of(seq!['+'] + decimal_of(n)) == u32_of(decimal_of(n)),
        i64_of(decimal_of(n)) == if n <= i64::MAX {
            Some(n as i64)
        } else {
            None
        },
        i64_of(seq!['+'] + decimal_of(n)) == i64_of(decimal_of(n)),
        i64_of(seq!['-'] + decimal_of(n)) == if n <= 0x8000_0000_0000_0000 {
            Some((-(n as int)) as i64)
        } else {
            None
        },
{
    decimal_stands_for_its_number(n);
    let text = decimal_of(n);
    assert('0' <= text[0] <= '9');
    assert((seq!['+'] + text).skip(1) =~= text);
    assert((seq!['-'] + text).skip(1) =~= text);
}

/// Nothing but digits, behind an optional sign, reads as a number; one more digit behind a
/// number makes it ten times as much and the digit.
pub proof fn only_digits_read_as_numbers(s: Seq<char>, c: char, i: int)
    ensures
        digits_value(s) is Some ==> s.len() > 0 && (0 <= i < s.len() ==> '0' <= s[i] <= '9'),
        digits_value(seq![]) is None,
        digits_value(seq![c]) == if '0' <= c <= '9' {
            Some((c as int - '0' as int) as nat)
        } else {
            None
        },
        s.len() > 0 ==> digits_value(s.push(c)) == if '0' <= c <= '9' && digits_value(s) is Some {
            Some((10 * digits_value(s)->0 + (c as int - '0' as int)) as nat)
        } else {
            None
        },
    decreases s.len(),
{
    assert(s.push(c).drop_last() =~= s);
    if s.len() > 1 {
        only_digits_read_as_numbers(s.drop_last(), c, i);
    }
}

/// A text that begins with neither a digit nor a sign, or holds anything but digits behind
/// that, reads as no number.
pub proof fn other_texts_read_as_no_number(s: Seq<char>, i: int)
    requires
        0 <= i < s.len(),
        !('0' <= s[i] <= '9'),
        i > 0 || (s[i] != '+' && s[i] != '-'),
    ensures
        u64_of(s) is None,
        u32_of(s) is None,
        i64_of(s) is None,
{
    only_digits_read_as_numbers(s, '0', i);
    only_digits_read_as_numbers(s.skip(1), '0', i - 1);
    if i > 0 {
        assert(s.skip(1)[i - 1] == s[i]);
    }
}

/// What a hexadecimal digit stands for.
pub open spec fn nibble(c: char) -> int {
    if '0' <= c <= '9' {
        c as int - '0' as int
    } else {
        c as int - 'a' as int + 10
    }
}

/// In hexadecimal notation every byte has two digits, of `0` to `9` and `a` to `f`, the first
/// of which counts sixteen times.
pub proof fn hex_shows_every_byte(bytes: Seq<u8>, i: int)
    requires
        0 <= i < bytes.len(),
    ensures
        hex_of(bytes).len() == 2 * bytes.len(),
        16 * nibble(hex_of(bytes)[2 * i]) + nibble(hex_of(bytes)[2 * i + 1]) == bytes[i],
        0 <= nibble(hex_of(bytes)[2 * i + 1]) < 16,
        'a' <= hex_of(bytes)[2 * i] <= 'f' || '0' <= hex_of(bytes)[2 * i] <= '9',
        'a' <= hex_of(bytes)[2 * i + 1] <= 'f' || '0' <= hex_of(bytes)[2 * i + 1] <= '9',
    decreases bytes.len(),
{
    let rest = bytes.drop_last();
    if rest.len() > 0 {
        hex_shows_every_byte(
            rest,
            if i < rest.len() {
                i
            } else {
                0
            },
        );
    }
    assert(hex_of(rest).len() == 2 * rest.len());
    let b = bytes.last() as int;
    assert(b / 16 * 16 + b % 16 == b);
    assert(hex_char(b / 16) == hex_of(bytes)[2 * bytes.len() - 2]);
    assert(hex_char(b % 16) == hex_of(bytes)[2 * bytes.len() - 1]);
}

/// A text is cut at every separator and nowhere else: a text without one is a single piece,
/// and two texts with one between them have the pieces of both.
pub proof fn texts_are_cut_at_separators(a: Seq<char>, b: Seq<char>, sep: char)
    ensures
        !a.contains(sep) ==> pieces(a, sep) == seq![a],
        pieces(a.push(sep) + b, sep) == pieces(a, sep) + pieces(b, sep),
        pieces(a, sep).len() >= 1,
    decreases a.len() + b.len(),
{
    if a.len() > 0 {
        let rest = a.drop_last();
        texts_are_cut_at_separators(rest, seq![], sep);
        if !a.contains(sep) {
            assert(a[a.len() - 1] != sep);
            assert forall|i: int| 0 <= i < rest.len() implies rest[i] != sep by {
                assert(a[i] != sep);
            }
            assert(!rest.contains(sep));
            assert(rest.push(a.last()) =~= a);
            assert(pieces(a, sep) =~= seq![a]);
        }
    } else {
        assert(a =~= Seq::<char>::empty());
    }
    let whole = a.push(sep) + b;
    if b.len() == 0 {
        assert(whole =~= a.push(sep));
        assert(whole.drop_last() =~= a);
        assert(pieces(b, sep) =~= seq![Seq::<char>::empty()]);
        assert(pieces(whole, sep) =~= pieces(a, sep) + pieces(b, sep));
    } else {
        let rest = b.drop_last();
        texts_are_cut_at_separators(a, rest, sep);
        texts_are_cut_at_separators(rest, seq![], sep);
        assert(whole.drop_last() =~= a.push(sep) + rest);
        assert(whole.last() == b.last());
        let before = pieces(a, sep) + pieces(rest, sep);
        assert(before.last() == pieces(rest, sep).last());
        assert(pieces(whole, sep) =~= pieces(a, sep) + pieces(b, sep));
    }
}

/// A list holds each of its texts, and nothing else.
pub proof fn lists_hold_their_texts(strings: Seq<String>, text: Seq<char>, i: int)
    ensures
        0 <= i < strings.len() ==> lists(strings, strings[i]@),
        lists(strings, text) ==> exists|j: int|
            0 <= j < strings.len() && (#[trigger] strings[j])@ == text,
        lists_all(strings, strings),
        lists_all(strings, strings.take(0)),
{
    if 0 <= i < strings.len() {
        assert(strings[i]@ == strings[i]@);
    }
    assert forall|j: int| 0 <= j < strings.len() implies lists(strings, (#[trigger] strings[j])@) by {
        assert(strings[j]@ == strings[j]@);
    }
}

/// A list is read text by text, in order; it holds all of another exactly if each text of that
/// one is among its own.
pub proof fn lists_are_read_text_by_text(
    strings: Seq<String>,
    parts: Seq<Vec<char>>,
    more: Seq<String>,
    i: int,
)
    ensures
        texts(strings).len() == strings.len(),
        0 <= i < strings.len() ==> texts(strings)[i] == strings[i]@,
        piece_views(parts).len() == parts.len(),
        0 <= i < parts.len() ==> piece_views(parts)[i] == parts[i]@,
        lists_all(strings, more) <==> forall|j: int|
            0 <= j < more.len() ==> texts(strings).contains((#[trigger] more[j])@),
{
    assert forall|text: Seq<char>| #[trigger] texts(strings).contains(text) == lists(
        strings,
        text,
    ) by {
        if lists(strings, text) {
            let k = choose|k: int| 0 <= k < strings.len() && (#[trigger] strings[k])@ == text;
            assert(texts(strings)[k] == text);
        }
        if texts(strings).contains(text) {
            let k = choose|k: int| 0 <= k < strings.len() && #[trigger] texts(strings)[k] == text;
            assert(strings[k]@ == text);
        }
    }
}

/// Taking a text out of two lists in a row takes it out of each; a single string stays
/// exactly if it is another one.
pub proof fn taking_out_keeps_the_others(
    a: Seq<String>,
    b: Seq<String>,
    one: String,
    text: Seq<char>,
)
    ensures
        others(a + b, text) == others(a, text) + others(b, text),
        others(seq![one], text) == if one@ == text {
            Seq::<String>::empty()
        } else {
            seq![one]
        },
        others(seq![], text) == Seq::<String>::empty(),
    decreases b.len(),
{
    assert(seq![one].drop_last() =~= Seq::<String>::empty());
    assert(others(seq![one].drop_last(), text) =~= Seq::<String>::empty());
    assert(others(seq![one], text) =~= if one@ == text {
        Seq::<String>::empty()
    } else {
        seq![one]
    });
    if b.len() == 0 {
        assert(a + b =~= a);
        assert(others(a, text) + others(b, text) =~= others(a, text));
    } else {
        taking_out_keeps_the_others(a, b.drop_last(), one, text);
        assert((a + b).drop_last() =~= a + b.drop_last());
        assert(others(a + b, text) =~= others(a, text) + others(b, text));
    }
}

/// What is new is added behind what is there, one string after the other, unless its text is
/// there already.
pub proof fn new_texts_go_behind(strings: Seq<String>, more: Seq<String>, one: String)
    ensures
        with_new(strings, more).len() >= strings.len(),
        with_new(strings, more).take(strings.len() as int) == strings,
        with_new(strings, seq![one]) == if exists|i: int|
            0 <= i < strings.len() && (#[trigger] strings[i])@ == one@ {
            strings
        } else {
            strings.push(one)
        },
        with_new(strings, seq![]) == strings,
    decreases more.len(),
{
    assert(seq![one].drop_last() =~= Seq::<String>::empty());
    assert(with_new(strings, seq![one].drop_last()) == strings);
    if more.len() > 0 {
        new_texts_go_behind(strings, more.drop_last(), one);
        let so_far = with_new(strings, more.drop_last());
        assert(so_far.push(more.last()).take(strings.len() as int) =~= so_far.take(
            strings.len() as int,
        ));
    } else {
        assert(strings.take(strings.len() as int) =~= strings);
    }
}

} // verus!
