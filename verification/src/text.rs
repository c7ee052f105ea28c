//! Small text operations: comparison, decimal and hexadecimal notation, and
//! reading of decimal numbers.

use vstd::prelude::*;

verus! {

/// The digit that stands for `d`.
pub open spec fn digit_char(d: int) -> char {
    (48 + d) as char
}

/// `n` in decimal notation.
pub open spec fn decimal_of(n: nat) -> Seq<char>
    decreases n,
{
    if n < 10 {
        seq![digit_char(n as int)]
    } else {
        decimal_of(n / 10).push(digit_char((n % 10) as int))
    }
}

/// The digit that stands for `d`, in base sixteen.
pub open spec fn hex_char(d: int) -> char {
    if d < 10 {
        (48 + d) as char
    } else {
        (87 + d) as char
    }
}

/// `bytes` in lower-case hexadecimal notation, two digits each.
pub open spec fn hex_of(bytes: Seq<u8>) -> Seq<char>
    decreases bytes.len(),
{
    if bytes.len() == 0 {
        seq![]
    } else {
        hex_of(bytes.drop_last()).push(hex_char(bytes.last() as int / 16)).push(
            hex_char(bytes.last() as int % 16),
        )
    }
}

pub open spec fn is_digit_char(c: char) -> bool {
    '0' <= c <= '9'
}

/// The number that a text of decimal digits stands for; none where it is empty or
/// holds anything else.
pub open spec fn digits_value(s: Seq<char>) -> Option<nat>
    decreases s.len(),
{
    if s.len() == 0 || !is_digit_char(s.last()) {
        None
    } else if s.len() == 1 {
        Some((s.last() as int - 48) as nat)
    } else {
        match digits_value(s.drop_last()) {
            Some(v) => Some((v * 10 + (s.last() as int - 48)) as nat),
            None => None,
        }
    }
}

/// What a text reads as an unsigned number of 64 bits: an optional plus sign, then
/// digits only.
pub open spec fn u64_of(s: Seq<char>) -> Option<u64> {
    let body = if s.len() > 0 && s[0] == '+' {
        s.skip(1)
    } else {
        s
    };
    match digits_value(body) {
        Some(v) => if v <= u64::MAX {
            Some(v as u64)
        } else {
            None
        },
        None => None,
    }
}

/// What a text reads as an unsigned number of 32 bits: an optional plus sign, then
/// digits only.
pub open spec fn u32_of(s: Seq<char>) -> Option<u32> {
    match u64_of(s) {
        Some(v) => if v <= u32::MAX {
            Some(v as u32)
        } else {
            None
        },
        None => None,
    }
}

/// What a text reads as a signed number of 64 bits: an optional sign, then digits
/// only.
pub open spec fn i64_of(s: Seq<char>) -> Option<i64> {
    let signed = s.len() > 0 && (s[0] == '+' || s[0] == '-');
    let negative = s.len() > 0 && s[0] == '-';
    let body = if signed {
        s.skip(1)
    } else {
        s
    };
    match digits_value(body) {
        Some(v) => if negative && v <= 0x8000_0000_0000_0000 {
            Some((-(v as int)) as i64)
        } else if !negative && v <= i64::MAX {
            Some(v as i64)
        } else {
            None
        },
        None => None,
    }
}

/// Whether two texts are the same.
pub fn same_text(a: &str, b: &str) -> (r: bool)
    ensures
        r == (a@ == b@),
{
    a.to_owned().eq(&b.to_owned())
}

/// The text that holds one digit, up to base sixteen.
fn digit_text(d: u8) -> (r: &'static str)
    requires
        d < 16,
    ensures
        r@ == seq![hex_char(d as int)],
{
    proof {
        reveal_strlit("0");
        reveal_strlit("1");
        reveal_strlit("2");
        reveal_strlit("3");
        reveal_strlit("4");
        reveal_strlit("5");
        reveal_strlit("6");
        reveal_strlit("7");
        reveal_strlit("8");
        reveal_strlit("9");
        reveal_strlit("a");
        reveal_strlit("b");
        reveal_strlit("c");
        reveal_strlit("d");
        reveal_strlit("e");
        reveal_strlit("f");
    }
    let r: &'static str = match d {
        0 => "0",
        1 => "1",
        2 => "2",
        3 => "3",
        4 => "4",
        5 => "5",
        6 => "6",
        7 => "7",
        8 => "8",
        9 => "9",
        10 => "a",
        11 => "b",
        12 => "c",
        13 => "d",
        14 => "e",
        _ => "f",
    };
    proof {
        assert(r@ =~= seq![hex_char(d as int)]);
    }
    r
}

/// `n` in decimal notation.
pub fn decimal(n: u64) -> (r: String)
    ensures
        r@ == decimal_of(n as nat),
    decreases n,
{
    if n < 10 {
        digit_text(n as u8).to_owned()
    } else {
        let mut r: String = decimal(n / 10);
        r.append(digit_text((n % 10) as u8));
        proof {
            assert(r@ =~= decimal_of(n as nat));
        }
        r
    }
}

/// `bytes` in lower-case hexadecimal notation, two digits each.
pub fn hex(bytes: &[u8]) -> (r: String)
    ensures
        r@ == hex_of(bytes@),
{
    let mut r: String = String::new();
    let mut i: usize = 0;
    proof {
        reveal_strlit("");
        assert(r@ =~= hex_of(bytes@.take(0)));
    }
    while i < bytes.len()
        invariant
            i <= bytes@.len(),
            r@ == hex_of(bytes@.take(i as int)),
        decreases bytes@.len() - i,
    {
        let b: u8 = bytes[i];
        r.append(digit_text(b / 16));
        r.append(digit_text(b % 16));
        proof {
            assert(bytes@.take(i + 1).drop_last() =~= bytes@.take(i as int));
            assert(r@ =~= hex_of(bytes@.take(i + 1)));
        }
        i = i + 1;
    }
    proof {
        assert(bytes@.take(i as int) =~= bytes@);
    }
    r
}

/// The characters of a text.
pub fn chars_of(text: &str) -> (r: Vec<char>)
    ensures
        r@ == text@,
{
    let mut chars: Vec<char> = Vec::new();
    for c in it: text.chars()
        invariant
            it.seq() == text@,
            chars@ == text@.take(it.index() as int),
    {
        proof {
            assert(text@.take(it.index() + 1) =~= chars@.push(c));
        }
        chars.push(c);
    }
    proof {
        assert(text@.take(text@.len() as int) =~= text@);
    }
    chars
}

/// A text in pieces, cut at every `sep`.
pub open spec fn pieces(text: Seq<char>, sep: char) -> Seq<Seq<char>>
    decreases text.len(),
{
    if text.len() == 0 {
        seq![seq![]]
    } else {
        let before = pieces(text.drop_last(), sep);
        if text.last() == sep {
            before.push(seq![])
        } else {
            before.drop_last().push(before.last().push(text.last()))
        }
    }
}

/// The texts of a list of character lists.
pub open spec fn piece_views(parts: Seq<Vec<char>>) -> Seq<Seq<char>> {
    parts.map_values(|part: Vec<char>| part@)
}

/// Cuts the characters from `from` on at every `sep`.
pub fn split_chars(chars: &Vec<char>, from: usize, sep: char) -> (r: Vec<Vec<char>>)
    requires
        from <= chars.len(),
    ensures
        piece_views(r@) == pieces(chars@.skip(from as int), sep),
{
    let ghost text = chars@.skip(from as int);
    let mut done: Vec<Vec<char>> = Vec::new();
    let mut last: Vec<char> = Vec::new();
    let mut i: usize = from;
    proof {
        assert(text.take(0) =~= Seq::<char>::empty());
        assert(piece_views(done@).push(last@) =~= pieces(text.take(0), sep));
    }
    while i < chars.len()
        invariant
            from <= i <= chars@.len(),
            text == chars@.skip(from as int),
            piece_views(done@).push(last@) == pieces(text.take(i - from), sep),
        decreases chars@.len() - i,
    {
        let c: char = chars[i];
        let ghost seen = text.take(i - from + 1);
        let ghost before = done@;
        let ghost tail = last@;
        proof {
            assert(seen.drop_last() =~= text.take(i - from));
            assert(seen.last() == c);
            assert(piece_views(before).push(tail).drop_last() =~= piece_views(before));
        }
        if c == sep {
            done.push(last);
            last = Vec::new();
            proof {
                assert(piece_views(done@) =~= piece_views(before).push(tail));
                assert(last@ =~= Seq::<char>::empty());
            }
        } else {
            last.push(c);
        }
        i = i + 1;
    }
    proof {
        assert(text.take(i - from) =~= text);
    }
    let ghost before = done@;
    let ghost tail = last@;
    done.push(last);
    proof {
        assert(piece_views(done@) =~= piece_views(before).push(tail));
    }
    done
}

/// More digits never make a number smaller.
proof fn lemma_digits_value_grows(s: Seq<char>, n: int)
    requires
        0 < n <= s.len(),
    ensures
        digits_value(s) is Some ==> digits_value(s.take(n)) is Some && digits_value(s.take(n))->0
            <= digits_value(s)->0,
    decreases s.len() - n,
{
    if n < s.len() {
        lemma_digits_value_grows(s.drop_last(), n);
        assert(s.drop_last().take(n) =~= s.take(n));
    } else {
        assert(s.take(n) =~= s);
    }
}

/// The number that the characters from `from` on stand for, if it is at most
/// `limit`.
fn bounded_digits(chars: &Vec<char>, from: usize, limit: u64) -> (r: Option<u64>)
    requires
        from <= chars@.len(),
    ensures
        r == (match digits_value(chars@.skip(from as int)) {
            Some(v) => if v <= limit {
                Some(v as u64)
            } else {
                None
            },
            None => None,
        }),
{
    let ghost body = chars@.skip(from as int);
    if from == chars.len() {
        return None;
    }
    let mut value: u64 = 0;
    let mut i: usize = from;
    while i < chars.len()
        invariant
            from <= i <= chars@.len(),
            from < chars@.len(),
            body == chars@.skip(from as int),
            value <= limit,
            i > from ==> digits_value(body.take(i - from)) == Some(value as nat),
            i == from ==> value == 0,
        decreases chars@.len() - i,
    {
        let c: char = chars[i];
        let ghost seen = body.take(i - from + 1);
        proof {
            assert(seen.last() == c);
            assert(seen.drop_last() =~= body.take(i - from));
            lemma_digits_value_grows(body, i - from + 1);
        }
        if !('0' <= c && c <= '9') {
            return None;
        }
        let d: u64 = (c as u32 - 48) as u64;
        if value > (u64::MAX - d) / 10 {
            return None;
        }
        value = value * 10 + d;
        if value > limit {
            return None;
        }
        i = i + 1;
    }
    proof {
        assert(body.take(i - from) =~= body);
    }
    Some(value)
}

/// Reads an unsigned number of 64 bits.
pub fn parse_u64(text: &str) -> (r: Option<u64>)
    ensures
        r == u64_of(text@),
{
    let chars: Vec<char> = chars_of(text);
    if chars.len() > 0 && chars[0] == '+' {
        bounded_digits(&chars, 1, u64::MAX)
    } else {
        proof {
            assert(chars@.skip(0) =~= chars@);
        }
        bounded_digits(&chars, 0, u64::MAX)
    }
}

/// Reads the characters from `from` on as an unsigned number of 32 bits.
pub fn parse_u32_at(chars: &Vec<char>, from: usize) -> (r: Option<u32>)
    requires
        from <= chars.len(),
    ensures
        r == u32_of(chars@.skip(from as int)),
{
    let ghost text = chars@.skip(from as int);
    let start: usize = if from < chars.len() && chars[from] == '+' {
        from + 1
    } else {
        from
    };
    proof {
        if start > from {
            assert(text[0] == '+');
            assert(chars@.skip(start as int) =~= text.skip(1));
        } else if text.len() > 0 {
            assert(text[0] == chars@[from as int]);
        }
    }
    match bounded_digits(chars, start, u32::MAX as u64) {
        Some(v) => Some(v as u32),
        None => None,
    }
}

/// Reads a signed number of 64 bits.
pub fn parse_i64(text: &str) -> (r: Option<i64>)
    ensures
        r == i64_of(text@),
{
    let chars: Vec<char> = chars_of(text);
    if chars.len() > 0 && chars[0] == '-' {
        match bounded_digits(&chars, 1, 0x8000_0000_0000_0000) {
            Some(v) => {
                if v == 0x8000_0000_0000_0000 {
                    Some(i64::MIN)
                } else {
                    Some(-(v as i64))
                }
            },
            None => None,
        }
    } else {
        let from: usize = if chars.len() > 0 && chars[0] == '+' {
            1
        } else {
            0
        };
        proof {
            assert(chars@.skip(0) =~= chars@);
        }
        match bounded_digits(&chars, from, i64::MAX as u64) {
            Some(v) => Some(v as i64),
            None => None,
        }
    }
}

/// The strings once more.
pub fn copy_strings(strings: &Vec<String>) -> (r: Vec<String>)
    ensures
        r@ == strings@,
{
    let mut copy: Vec<String> = Vec::new();
    let mut i: usize = 0;
    while i < strings.len()
        invariant
            i <= strings@.len(),
            copy@ == strings@.take(i as int),
        decreases strings@.len() - i,
    {
        proof {
            assert(strings@.take(i + 1) =~= copy@.push(strings@[i as int]));
        }
        copy.push(strings[i].clone());
        i = i + 1;
    }
    proof {
        assert(strings@.take(i as int) =~= strings@);
    }
    copy
}

/// The texts of a list of strings.
pub open spec fn texts(strings: Seq<String>) -> Seq<Seq<char>> {
    strings.map_values(|s: String| s@)
}

/// Whether a list of strings holds a text.
pub open spec fn lists(strings: Seq<String>, text: Seq<char>) -> bool {
    exists|i: int| 0 <= i < strings.len() && (#[trigger] strings[i])@ == text
}

/// Whether a list of strings holds a text.
pub fn list_contains(strings: &Vec<String>, text: &str) -> (r: bool)
    ensures
        r == lists(strings@, text@),
{
    let mut i: usize = 0;
    while i < strings.len()
        invariant
            i <= strings@.len(),
            forall|j: int| 0 <= j < i ==> (#[trigger] strings@[j])@ != text@,
        decreases strings@.len() - i,
    {
        if same_text(strings[i].as_str(), text) {
            proof {
                assert(strings@[i as int]@ == text@);
            }
            return true;
        }
        i = i + 1;
    }
    false
}

/// The strings of a list other than `text`, in order.
pub open spec fn others(strings: Seq<String>, text: Seq<char>) -> Seq<String>
    decreases strings.len(),
{
    if strings.len() == 0 {
        seq![]
    } else if strings.last()@ == text {
        others(strings.drop_last(), text)
    } else {
        others(strings.drop_last(), text).push(strings.last())
    }
}

/// The strings of a list other than `text`, in order.
pub fn without_text(strings: &Vec<String>, text: &str) -> (r: Vec<String>)
    ensures
        r@ == others(strings@, text@),
{
    let mut kept: Vec<String> = Vec::new();
    let mut i: usize = 0;
    while i < strings.len()
        invariant
            i <= strings@.len(),
            kept@ == others(strings@.take(i as int), text@),
        decreases strings@.len() - i,
    {
        proof {
            assert(strings@.take(i + 1).drop_last() =~= strings@.take(i as int));
        }
        if !same_text(strings[i].as_str(), text) {
            kept.push(strings[i].clone());
        }
        i = i + 1;
    }
    proof {
        assert(strings@.take(i as int) =~= strings@);
    }
    kept
}

/// What is left of a list is all of it but the text taken out, and no longer than it
/// was.
pub proof fn lemma_others(strings: Seq<String>, text: Seq<char>)
    ensures
        !lists(others(strings, text), text),
        forall|other: Seq<char>|
            other != text ==> #[trigger] lists(others(strings, text), other) == lists(
                strings,
                other,
            ),
        others(strings, text).len() <= strings.len(),
        !lists(strings, text) ==> others(strings, text) == strings,
    decreases strings.len(),
{
    if strings.len() > 0 {
        let rest = strings.drop_last();
        let kept = others(rest, text);
        lemma_others(rest, text);
        assert forall|t: Seq<char>| lists(strings, t) == (lists(rest, t) || strings.last()@ == t) by {
            lemma_lists_push(rest, strings.last(), t);
            assert(rest.push(strings.last()) =~= strings);
        }
        assert forall|t: Seq<char>| lists(kept.push(strings.last()), t) == (lists(kept, t)
            || strings.last()@ == t) by {
            lemma_lists_push(kept, strings.last(), t);
        }
        assert forall|other: Seq<char>| other != text implies #[trigger] lists(
            others(strings, text),
            other,
        ) == lists(strings, other) by {
            assert(lists(kept, other) == lists(rest, other));
        }
        if !lists(strings, text) {
            assert(!lists(rest, text));
            assert(rest.push(strings.last()) =~= strings);
        }
    }
}

/// A list with one string more holds what it held and that string.
pub proof fn lemma_lists_push(strings: Seq<String>, last: String, text: Seq<char>)
    ensures
        lists(strings.push(last), text) == (lists(strings, text) || last@ == text),
{
    let pushed = strings.push(last);
    if lists(strings, text) {
        let i = choose|i: int| 0 <= i < strings.len() && (#[trigger] strings[i])@ == text;
        assert(pushed[i]@ == text);
    }
    if last@ == text {
        assert(pushed[strings.len() as int]@ == text);
    }
    if lists(pushed, text) && last@ != text {
        let i = choose|i: int| 0 <= i < pushed.len() && (#[trigger] pushed[i])@ == text;
        assert(strings[i]@ == text);
    }
}

/// Those of `more` that are not in `strings` yet, each once, behind `strings`.
pub open spec fn with_new(strings: Seq<String>, more: Seq<String>) -> Seq<String>
    decreases more.len(),
{
    if more.len() == 0 {
        strings
    } else {
        let so_far = with_new(strings, more.drop_last());
        if lists(so_far, more.last()@) {
            so_far
        } else {
            so_far.push(more.last())
        }
    }
}

/// What [`with_new`] lists is what either list lists.
pub proof fn lemma_with_new(strings: Seq<String>, more: Seq<String>, text: Seq<char>)
    ensures
        lists(with_new(strings, more), text) == (lists(strings, text) || lists(more, text)),
    decreases more.len(),
{
    if more.len() > 0 {
        let rest = more.drop_last();
        lemma_with_new(strings, rest, text);
        assert(rest.push(more.last()) =~= more);
        lemma_lists_push(rest, more.last(), text);
        lemma_lists_push(with_new(strings, rest), more.last(), text);
    }
}

/// A list without repetitions stays one as [`with_new`] extends it.
pub proof fn lemma_with_new_distinct(strings: Seq<String>, more: Seq<String>)
    requires
        forall|i: int, j: int| 0 <= i < j < strings.len() ==> (#[trigger] strings[i])@ != (#[trigger] strings[j])@,
    ensures
        forall|i: int, j: int|
            0 <= i < j < with_new(strings, more).len() ==> (#[trigger] with_new(strings, more)[i])@ != (
            #[trigger] with_new(strings, more)[j])@,
    decreases more.len(),
{
    if more.len() > 0 {
        let so_far = with_new(strings, more.drop_last());
        let all = with_new(strings, more);
        lemma_with_new_distinct(strings, more.drop_last());
        assert forall|i: int, j: int| 0 <= i < j < all.len() implies (#[trigger] all[i])@ != (
        #[trigger] all[j])@ by {
            if j < so_far.len() {
                assert(so_far[i]@ != so_far[j]@);
            } else {
                assert(so_far[i]@ != more.last()@);
            }
        }
    }
}

/// Whether a list holds all of `more`.
pub open spec fn lists_all(strings: Seq<String>, more: Seq<String>) -> bool {
    forall|i: int| 0 <= i < more.len() ==> lists(strings, (#[trigger] more[i])@)
}

/// Nothing is added of what is already there.
pub proof fn lemma_nothing_new(strings: Seq<String>, more: Seq<String>)
    requires
        lists_all(strings, more),
    ensures
        with_new(strings, more) == strings,
    decreases more.len(),
{
    if more.len() > 0 {
        let rest = more.drop_last();
        assert forall|i: int| 0 <= i < rest.len() implies lists(strings, (#[trigger] rest[i])@) by {
            assert(rest[i] == more[i]);
        }
        lemma_nothing_new(strings, rest);
        assert(lists(strings, more[more.len() - 1]@));
    }
}

/// Two lists are added one after the other.
pub proof fn lemma_with_new_twice(strings: Seq<String>, a: Seq<String>, b: Seq<String>)
    ensures
        with_new(strings, a + b) == with_new(with_new(strings, a), b),
    decreases b.len(),
{
    if b.len() == 0 {
        assert(a + b =~= a);
    } else {
        lemma_with_new_twice(strings, a, b.drop_last());
        assert((a + b).drop_last() =~= a + b.drop_last());
    }
}

/// Taking a text out of a list without repetitions leaves a list without repetitions,
/// one shorter if the text was in it.
pub proof fn lemma_others_distinct(strings: Seq<String>, text: Seq<char>)
    requires
        forall|i: int, j: int|
            0 <= i < j < strings.len() ==> (#[trigger] strings[i])@ != (#[trigger] strings[j])@,
    ensures
        forall|i: int, j: int|
            0 <= i < j < others(strings, text).len() ==> (#[trigger] others(strings, text)[i])@ != (
            #[trigger] others(strings, text)[j])@,
        others(strings, text).len() == if lists(strings, text) {
            strings.len() - 1
        } else {
            strings.len() as int
        },
    decreases strings.len(),
{
    if strings.len() > 0 {
        let rest = strings.drop_last();
        let last = strings.last();
        assert forall|i: int, j: int| 0 <= i < j < rest.len() implies (#[trigger] rest[i])@ != (
        #[trigger] rest[j])@ by {
            assert(strings[i]@ != strings[j]@);
        }
        lemma_others_distinct(rest, text);
        lemma_others(rest, text);
        assert(rest.push(last) =~= strings);
        lemma_lists_push(rest, last, text);
        assert(!lists(rest, last@)) by {
            if lists(rest, last@) {
                let i = choose|i: int| 0 <= i < rest.len() && (#[trigger] rest[i])@ == last@;
                assert(strings[i]@ != strings[strings.len() - 1]@);
            }
        }
        if last@ != text {
            let kept = others(rest, text);
            assert(!lists(kept, last@));
            assert forall|i: int, j: int| 0 <= i < j < kept.push(last).len() implies (
            #[trigger] kept.push(last)[i])@ != (#[trigger] kept.push(last)[j])@ by {
                if j == kept.len() {
                    if kept[i]@ == last@ {
                        assert(lists(kept, last@));
                    }
                } else {
                    assert(kept[i]@ != kept[j]@);
                }
            }
        }
    }
}

} // verus!
