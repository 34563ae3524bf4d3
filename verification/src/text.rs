//! Text building blocks shared by the renderers and the request signer.

use vstd::prelude::*;
use vstd::string::*;
use vstd::utf8::is_ascii_chars;

verus! {

/// The sixteen lowercase hexadecimal digits, in order of value.
pub open spec fn hex_digits() -> Seq<char> {
    seq!['0', '1', '2', '3', '4', '5', '6', '7', '8', '9', 'a', 'b', 'c', 'd', 'e', 'f']
}

/// Lowercase hexadecimal text of a byte string: two digits per byte, high
/// nibble first.
pub open spec fn hex_lower(bytes: Seq<u8>) -> Seq<char>
    decreases bytes.len(),
{
    if bytes.len() == 0 {
        Seq::empty()
    } else {
        hex_lower(bytes.drop_last()).push(hex_digits()[bytes.last() as int / 16]).push(
            hex_digits()[bytes.last() as int % 16],
        )
    }
}

/// One hexadecimal digit as text.
fn hex_digit_text(value: u8) -> (digit: &'static str)
    requires
        value < 16,
    ensures
        digit@ == seq![hex_digits()[value as int]],
{
    let table = "0123456789abcdef";
    proof {
        reveal_strlit("0123456789abcdef");
        assert(table@ =~= hex_digits());
        assert(is_ascii_chars(table@));
    }
    let start: usize = value as usize;
    let digit = table.substring_ascii(start, start + 1);
    assert(digit@ =~= seq![hex_digits()[value as int]]);
    digit
}

/// Renders `bytes` as lowercase hexadecimal text.
pub fn to_hex_lower(bytes: &[u8]) -> (text: String)
    ensures
        text@ == hex_lower(bytes@),
{
    let mut text = String::new();
    let mut done: usize = 0;
    while done < bytes.len()
        invariant
            done <= bytes.len(),
            text@ == hex_lower(bytes@.take(done as int)),
        decreases bytes.len() - done,
    {
        let byte: u8 = bytes[done];
        text.append(hex_digit_text(byte / 16));
        text.append(hex_digit_text(byte % 16));
        proof {
            let next = bytes@.take(done + 1);
            assert(next.drop_last() =~= bytes@.take(done as int));
            assert(next.last() == byte);
        }
        done = done + 1;
    }
    assert(bytes@.take(done as int) =~= bytes@);
    text
}

/// Decimal digits of a natural number, most significant first, without
/// leading zeros.
pub open spec fn decimal_digits(value: nat) -> Seq<char>
    decreases value,
{
    if value < 10 {
        seq![hex_digits()[value as int]]
    } else {
        decimal_digits(value / 10).push(hex_digits()[(value % 10) as int])
    }
}

/// Decimal text of an integer: a minus sign for negative values, then the
/// digits of the magnitude.
pub open spec fn decimal(value: int) -> Seq<char> {
    if value < 0 {
        seq!['-'] + decimal_digits((-value) as nat)
    } else {
        decimal_digits(value as nat)
    }
}

fn append_decimal_digits(text: &mut String, value: u64)
    ensures
        final(text)@ == old(text)@ + decimal_digits(value as nat),
    decreases value,
{
    if value >= 10 {
        append_decimal_digits(text, value / 10);
    }
    let low: u8 = (value % 10) as u8;
    text.append(hex_digit_text(low));
    assert(final(text)@ =~= old(text)@ + decimal_digits(value as nat));
}

/// Renders a signed integer in decimal.
pub fn to_decimal(value: i64) -> (text: String)
    ensures
        text@ == decimal(value as int),
{
    let mut text = String::new();
    if value < 0 {
        proof {
            reveal_strlit("-");
        }
        text.append("-");
        let magnitude: u64 = if value == i64::MIN {
            9223372036854775808u64
        } else {
            (-value) as u64
        };
        append_decimal_digits(&mut text, magnitude);
        assert(text@ =~= decimal(value as int));
    } else {
        append_decimal_digits(&mut text, value as u64);
        assert(text@ =~= decimal(value as int));
    }
    text
}

/// Compares two byte strings. Strings of one length are compared at every
/// position, wherever they first differ, so the time taken tells nothing
/// of the place.
pub fn same_bytes(left: &[u8], right: &[u8]) -> (same: bool)
    ensures
        same == (left@ == right@),
{
    if left.len() != right.len() {
        return false;
    }
    let mut difference: u8 = 0;
    let mut at: usize = 0;
    while at < left.len()
        invariant
            at <= left.len(),
            left.len() == right.len(),
            (difference == 0) == (left@.take(at as int) =~= right@.take(at as int)),
        decreases left.len() - at,
    {
        let x: u8 = left[at];
        let y: u8 = right[at];
        let mixed: u8 = difference | (x ^ y);
        proof {
            assert((mixed == 0) == (difference == 0 && x == y)) by (bit_vector)
                requires
                    mixed == difference | (x ^ y),
            ;
            let l0 = left@.take(at as int);
            let r0 = right@.take(at as int);
            let l1 = left@.take(at + 1);
            let r1 = right@.take(at + 1);
            assert(l1 =~= l0.push(x));
            assert(r1 =~= r0.push(y));
            if l1 == r1 {
                assert(l1.drop_last() =~= l0);
                assert(r1.drop_last() =~= r0);
                assert(l1.last() == x && r1.last() == y);
            }
        }
        difference = mixed;
        at = at + 1;
    }
    assert(left@.take(at as int) =~= left@);
    assert(right@.take(at as int) =~= right@);
    difference == 0
}

/// Compares two texts character for character.
pub fn same_text(left: &str, right: &str) -> (same: bool)
    ensures
        same == (left@ == right@),
{
    proof {
        vstd::utf8::encode_utf8_decode_utf8(left@);
        vstd::utf8::encode_utf8_decode_utf8(right@);
    }
    same_bytes(left.as_bytes(), right.as_bytes())
}

/// The characters of `text`, in order.
pub fn chars_of(text: &str) -> (chars: Vec<char>)
    ensures
        chars@ == text@,
{
    let mut chars: Vec<char> = Vec::new();
    for c in it: text.chars()
        invariant
            chars@ == it.history(),
    {
        chars.push(c);
    }
    chars
}

/// The texts that a list of strings holds.
pub open spec fn texts(strings: Seq<String>) -> Seq<Seq<char>> {
    strings.map_values(|s: String| s@)
}

/// The fields of `text` between occurrences of `separator`. A text with
/// `n` separators has `n + 1` fields, some of which may be empty.
pub open spec fn split_on(text: Seq<char>, separator: char) -> Seq<Seq<char>>
    decreases text.len(),
{
    if text.len() == 0 {
        seq![Seq::empty()]
    } else {
        let before = split_on(text.drop_last(), separator);
        if text.last() == separator {
            before.push(Seq::empty())
        } else {
            before.update(before.len() - 1, before.last().push(text.last()))
        }
    }
}

/// The items laid end to end with `separator` between neighbours.
pub open spec fn join_with(items: Seq<Seq<char>>, separator: Seq<char>) -> Seq<char>
    decreases items.len(),
{
    if items.len() == 0 {
        Seq::empty()
    } else if items.len() == 1 {
        items[0]
    } else {
        join_with(items.drop_last(), separator) + separator + items.last()
    }
}

/// Splits `text` at every `separator`.
pub fn split_text(text: &str, separator: char) -> (fields: Vec<String>)
    ensures
        texts(fields@) == split_on(text@, separator),
{
    let chars = chars_of(text);
    let mut fields: Vec<String> = Vec::new();
    let mut from: usize = 0;
    let mut at: usize = 0;
    assert(chars@.take(0) =~= Seq::<char>::empty());
    assert(texts(fields@).push(chars@.subrange(0, 0)) =~= split_on(chars@.take(0), separator));
    while at < chars.len()
        invariant
            chars@ == text@,
            from <= at <= chars.len(),
            texts(fields@).push(chars@.subrange(from as int, at as int)) == split_on(
                chars@.take(at as int),
                separator,
            ),
        decreases chars.len() - at,
    {
        let ghost before = texts(fields@);
        let ghost field = chars@.subrange(from as int, at as int);
        proof {
            let longer = chars@.take(at + 1);
            assert(longer.drop_last() =~= chars@.take(at as int));
            assert(longer.last() == chars@[at as int]);
        }
        if chars[at] == separator {
            let piece = text.substring_char(from, at);
            fields.push(piece.to_owned());
            from = at + 1;
            proof {
                assert(texts(fields@) =~= before.push(field));
                assert(chars@.subrange(from as int, at + 1) =~= Seq::<char>::empty());
            }
        } else {
            proof {
                assert(chars@.subrange(from as int, at + 1) =~= field.push(chars@[at as int]));
                assert(before.push(field).update(before.len() as int, field.push(chars@[at as int]))
                    =~= before.push(field.push(chars@[at as int])));
            }
        }
        at = at + 1;
    }
    let ghost before = texts(fields@);
    let piece = text.substring_char(from, at);
    fields.push(piece.to_owned());
    proof {
        assert(chars@.take(at as int) =~= chars@);
        assert(texts(fields@) =~= before.push(chars@.subrange(from as int, at as int)));
    }
    fields
}

/// Joins `items` with `separator` between neighbours.
pub fn join_texts(items: &Vec<String>, separator: &str) -> (joined: String)
    ensures
        joined@ == join_with(texts(items@), separator@),
{
    let mut joined = String::new();
    let mut at: usize = 0;
    assert(texts(items@).take(0) =~= Seq::<Seq<char>>::empty());
    while at < items.len()
        invariant
            at <= items.len(),
            joined@ == join_with(texts(items@).take(at as int), separator@),
        decreases items.len() - at,
    {
        let ghost so_far = joined@;
        if at > 0 {
            joined.append(separator);
        }
        joined.append(items[at].as_str());
        proof {
            let longer = texts(items@).take(at + 1);
            assert(longer.drop_last() =~= texts(items@).take(at as int));
            assert(longer.last() == items@[at as int]@);
            if at == 0 {
                assert(joined@ =~= longer[0]);
            } else {
                assert(joined@ =~= so_far + separator@ + longer.last());
            }
        }
        at = at + 1;
    }
    assert(texts(items@).take(at as int) =~= texts(items@));
    joined
}

/// Whether two characters are the same letter, taking an ASCII capital and
/// its small form as the same.
pub open spec fn same_letter(a: char, b: char) -> bool {
    ||| a == b
    ||| ('A' <= a && a <= 'Z' && b as int == a as int + 32)
    ||| ('A' <= b && b <= 'Z' && a as int == b as int + 32)
}

/// Whether two names are equal when ASCII case is ignored.
pub open spec fn same_name(a: Seq<char>, b: Seq<char>) -> bool {
    a.len() == b.len() && forall|i: int| 0 <= i < a.len() ==> same_letter(#[trigger] a[i], b[i])
}

fn is_same_letter(a: char, b: char) -> (same: bool)
    ensures
        same == same_letter(a, b),
{
    let x: u32 = a as u32;
    let y: u32 = b as u32;
    a == b || ('A' <= a && a <= 'Z' && y == x + 32) || ('A' <= b && b <= 'Z' && x == y + 32)
}

/// Compares two names, ignoring ASCII case.
pub fn is_same_name(a: &str, b: &str) -> (same: bool)
    ensures
        same == same_name(a@, b@),
{
    let left = chars_of(a);
    let right = chars_of(b);
    if left.len() != right.len() {
        return false;
    }
    let mut at: usize = 0;
    while at < left.len()
        invariant
            left@ == a@,
            right@ == b@,
            left.len() == right.len(),
            at <= left.len(),
            forall|i: int| 0 <= i < at ==> same_letter(#[trigger] left@[i], right@[i]),
        decreases left.len() - at,
    {
        if !is_same_letter(left[at], right[at]) {
            return false;
        }
        at = at + 1;
    }
    true
}

/// Whether `c` has the Unicode property White_Space.
pub open spec fn is_blank(c: char) -> bool {
    ||| ('\u{9}' <= c && c <= '\u{d}')
    ||| c == ' '
    ||| c == '\u{85}'
    ||| c == '\u{a0}'
    ||| c == '\u{1680}'
    ||| ('\u{2000}' <= c && c <= '\u{200a}')
    ||| c == '\u{2028}'
    ||| c == '\u{2029}'
    ||| c == '\u{202f}'
    ||| c == '\u{205f}'
    ||| c == '\u{3000}'
}

/// `text` without its leading white space.
pub open spec fn trim_start(text: Seq<char>) -> Seq<char>
    decreases text.len(),
{
    if text.len() > 0 && is_blank(text[0]) {
        trim_start(text.drop_first())
    } else {
        text
    }
}

/// `text` without its trailing white space.
pub open spec fn trim_end(text: Seq<char>) -> Seq<char>
    decreases text.len(),
{
    if text.len() > 0 && is_blank(text.last()) {
        trim_end(text.drop_last())
    } else {
        text
    }
}

/// `text` without leading and trailing white space.
pub open spec fn trimmed(text: Seq<char>) -> Seq<char> {
    trim_end(trim_start(text))
}

fn is_blank_char(c: char) -> (blank: bool)
    ensures
        blank == is_blank(c),
{
    ('\u{9}' <= c && c <= '\u{d}') || c == ' ' || c == '\u{85}' || c == '\u{a0}' || c
        == '\u{1680}' || ('\u{2000}' <= c && c <= '\u{200a}') || c == '\u{2028}' || c
        == '\u{2029}' || c == '\u{202f}' || c == '\u{205f}' || c == '\u{3000}'
}

/// Removes leading and trailing white space.
pub fn trim_text(text: &str) -> (core: &str)
    ensures
        core@ == trimmed(text@),
{
    let chars = chars_of(text);
    let mut from: usize = 0;
    assert(chars@.skip(0) =~= chars@);
    while from < chars.len() && is_blank_char(chars[from])
        invariant
            from <= chars.len(),
            trim_start(chars@) == trim_start(chars@.skip(from as int)),
        decreases chars.len() - from,
    {
        assert(chars@.skip(from as int).drop_first() =~= chars@.skip(from + 1));
        from = from + 1;
    }
    let mut to: usize = chars.len();
    assert(chars@.skip(from as int) =~= chars@.subrange(from as int, to as int));
    while to > from && is_blank_char(chars[to - 1])
        invariant
            from <= to <= chars.len(),
            trimmed(chars@) == trim_end(chars@.subrange(from as int, to as int)),
        decreases to,
    {
        assert(chars@.subrange(from as int, to as int).drop_last() =~= chars@.subrange(
            from as int,
            to - 1,
        ));
        to = to - 1;
    }
    text.substring_char(from, to)
}

} // verus!
