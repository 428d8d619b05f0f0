//! Text helpers shared by the rest of the library: comparison, scanning,
//! decoding and the plain-number formatting that error messages need.

use vstd::prelude::*;
use vstd::string::*;
use vstd::utf8::*;

verus! {

/// Result of comparing two byte sequences.
#[derive(Debug, Clone, Copy, PartialEq, Eq, Structural)]
pub enum TextOrder {
    Before,
    Same,
    After,
}

/// `a` and `b` agree on their first `k` bytes and `a` is smaller from there on.
pub open spec fn lex_less_at(a: Seq<u8>, b: Seq<u8>, k: int) -> bool {
    &&& 0 <= k <= a.len()
    &&& k < b.len()
    &&& forall|i: int| 0 <= i < k ==> a[i] == b[i]
    &&& k < a.len() ==> a[k] < b[k]
}

/// Lexicographic order on bytes, the order of `str` and `String`.
pub open spec fn lex_less(a: Seq<u8>, b: Seq<u8>) -> bool {
    exists|k: int| lex_less_at(a, b, k)
}

pub proof fn lemma_lex_less_transitive(a: Seq<u8>, b: Seq<u8>, c: Seq<u8>)
    requires
        lex_less(a, b),
        lex_less(b, c),
    ensures
        lex_less(a, c),
{
    let j = choose|k: int| lex_less_at(a, b, k);
    let k = choose|k: int| lex_less_at(b, c, k);
    let m = if j < k { j } else { k };
    assert(lex_less_at(a, c, m));
}

pub proof fn lemma_lex_less_irreflexive(a: Seq<u8>)
    ensures
        !lex_less(a, a),
{
}

pub proof fn lemma_lex_less_total(a: Seq<u8>, b: Seq<u8>)
    ensures
        lex_less(a, b) || lex_less(b, a) || a == b,
    decreases a.len(),
{
    if a.len() == 0 {
        if b.len() == 0 {
            assert(a =~= b);
        } else {
            assert(lex_less_at(a, b, 0));
        }
    } else if b.len() == 0 {
        assert(lex_less_at(b, a, 0));
    } else if a[0] < b[0] {
        assert(lex_less_at(a, b, 0));
    } else if b[0] < a[0] {
        assert(lex_less_at(b, a, 0));
    } else {
        let c = a.drop_first();
        let d = b.drop_first();
        lemma_lex_less_total(c, d);
        if lex_less(c, d) {
            let k = choose|k: int| lex_less_at(c, d, k);
            assert forall|i: int| 0 <= i < k + 1 implies a[i] == b[i] by {
                if i > 0 {
                    assert(c[i - 1] == d[i - 1]);
                }
            }
            assert(lex_less_at(a, b, k + 1));
        } else if lex_less(d, c) {
            let k = choose|k: int| lex_less_at(d, c, k);
            assert forall|i: int| 0 <= i < k + 1 implies a[i] == b[i] by {
                if i > 0 {
                    assert(c[i - 1] == d[i - 1]);
                }
            }
            assert(lex_less_at(b, a, k + 1));
        } else {
            assert forall|i: int| 0 <= i < a.len() implies a[i] == b[i] by {
                if i > 0 {
                    assert(c[i - 1] == d[i - 1]);
                }
            }
            assert(a =~= b);
        }
    }
}

/// Two texts with the same bytes have the same characters.
pub proof fn lemma_bytes_determine_chars(a: Seq<char>, b: Seq<char>)
    ensures
        encode_utf8(a) == encode_utf8(b) <==> a == b,
{
    encode_utf8_decode_utf8(a);
    encode_utf8_decode_utf8(b);
}

/// Compares two texts by their bytes.
pub fn order_text(a: &str, b: &str) -> (order: TextOrder)
    ensures
        match order {
            TextOrder::Before => lex_less(encode_utf8(a@), encode_utf8(b@)),
            TextOrder::Same => a@ == b@,
            TextOrder::After => lex_less(encode_utf8(b@), encode_utf8(a@)),
        },
{
    let left = a.as_bytes();
    let right = b.as_bytes();
    let mut i: usize = 0;
    while i < left.len() && i < right.len()
        invariant
            i <= left@.len(),
            i <= right@.len(),
            forall|j: int| 0 <= j < i ==> left@[j] == right@[j],
            left@ == encode_utf8(a@),
            right@ == encode_utf8(b@),
        decreases left@.len() - i,
    {
        if left[i] < right[i] {
            assert(lex_less_at(left@, right@, i as int));
            return TextOrder::Before;
        }
        if right[i] < left[i] {
            assert(lex_less_at(right@, left@, i as int));
            return TextOrder::After;
        }
        i += 1;
    }
    if i < right.len() {
        assert(lex_less_at(left@, right@, i as int));
        TextOrder::Before
    } else if i < left.len() {
        assert(lex_less_at(right@, left@, i as int));
        TextOrder::After
    } else {
        assert(left@ =~= right@);
        proof {
            lemma_bytes_determine_chars(a@, b@);
        }
        TextOrder::Same
    }
}

/// Tests two texts for equality.
pub fn same_text(a: &str, b: &str) -> (same: bool)
    ensures
        same == (a@ == b@),
{
    let left = a.as_bytes();
    let right = b.as_bytes();
    proof {
        lemma_bytes_determine_chars(a@, b@);
    }
    if left.len() != right.len() {
        return false;
    }
    let mut i: usize = 0;
    while i < left.len()
        invariant
            i <= left@.len(),
            left@.len() == right@.len(),
            forall|j: int| 0 <= j < i ==> left@[j] == right@[j],
            left@ == encode_utf8(a@),
            right@ == encode_utf8(b@),
            encode_utf8(a@) == encode_utf8(b@) <==> a@ == b@,
        decreases left@.len() - i,
    {
        if left[i] != right[i] {
            return false;
        }
        i += 1;
    }
    assert(left@ =~= right@);
    true
}

/// Copies a text.
pub fn owned(text: &str) -> (copy: String)
    ensures
        copy@ == text@,
{
    let mut copy = String::new();
    copy.append(text);
    assert(copy@ =~= text@);
    copy
}

/// Collects the characters of a text.
pub fn characters(text: &str) -> (chars: Vec<char>)
    ensures
        chars@ == text@,
{
    let mut chars: Vec<char> = Vec::new();
    for c in it: text.chars()
        invariant
            chars@ == it.seq().take(it.index()),
    {
        assert(it.seq().take(it.index() + 1) =~= it.seq().take(it.index()).push(c));
        chars.push(c);
    }
    assert(chars@ =~= text@);
    chars
}

/// Decodes bytes as UTF-8 text.
///
/// Calls `core::str::from_utf8`: the bytes are text exactly when they are
/// valid UTF-8, and the text then consists of those very bytes.
#[verifier::external_body]
pub(crate) fn decode_text(bytes: &[u8]) -> (text: Option<&str>)
    ensures
        text is Some <==> valid_utf8(bytes@),
        text matches Some(text) ==> encode_utf8(text@) == bytes@,
{
    core::str::from_utf8(bytes).ok()
}

/// The decimal digit of a value below ten.
pub open spec fn digit(value: nat) -> char {
    if value == 0 {
        '0'
    } else if value == 1 {
        '1'
    } else if value == 2 {
        '2'
    } else if value == 3 {
        '3'
    } else if value == 4 {
        '4'
    } else if value == 5 {
        '5'
    } else if value == 6 {
        '6'
    } else if value == 7 {
        '7'
    } else if value == 8 {
        '8'
    } else {
        '9'
    }
}

/// The lowercase hexadecimal digit of a value below sixteen.
pub open spec fn hex_digit(value: nat) -> char {
    if value < 10 {
        digit(value)
    } else if value == 10 {
        'a'
    } else if value == 11 {
        'b'
    } else if value == 12 {
        'c'
    } else if value == 13 {
        'd'
    } else if value == 14 {
        'e'
    } else {
        'f'
    }
}

/// A number in decimal notation, without leading zeros.
pub open spec fn decimal(value: nat) -> Seq<char>
    decreases value,
{
    if value < 10 {
        seq![digit(value)]
    } else {
        decimal(value / 10).push(digit(value % 10))
    }
}

/// The lowest `width` hexadecimal digits of a number, most significant first.
pub open spec fn hexadecimal(value: nat, width: nat) -> Seq<char>
    decreases width,
{
    if width == 0 {
        seq![]
    } else {
        hexadecimal(value / 16, (width - 1) as nat).push(hex_digit(value % 16))
    }
}

/// A list of numbers in the form `[1, 2, 3]`.
pub open spec fn number_list(values: Seq<nat>) -> Seq<char> {
    "["@ + number_items(values) + "]"@
}

/// Numbers, separated by commas.
pub open spec fn number_items(values: Seq<nat>) -> Seq<char>
    decreases values.len(),
{
    if values.len() == 0 {
        seq![]
    } else if values.len() == 1 {
        decimal(values[0])
    } else {
        number_items(values.drop_last()) + ", "@ + decimal(values.last())
    }
}

/// The text of one hexadecimal digit.
fn hex_digit_text(value: u8) -> (text: &'static str)
    requires
        value < 16,
    ensures
        text@ == seq![hex_digit(value as nat)],
{
    proof {
        reveal_strlit("0");
        reveal_strlit("1");
        reveal_strlit("2");
        reveal_strlit("3");
        reveal_strlit("4");
        reveal_strlit("5");
        reveal_strlit("6");
        reveal_strlit("7");
        reveal_strlit("8");
        reveal_strlit("9");
        reveal_strlit("a");
        reveal_strlit("b");
        reveal_strlit("c");
        reveal_strlit("d");
        reveal_strlit("e");
        reveal_strlit("f");
    }
    let text = match value {
        0 => "0",
        1 => "1",
        2 => "2",
        3 => "3",
        4 => "4",
        5 => "5",
        6 => "6",
        7 => "7",
        8 => "8",
        9 => "9",
        10 => "a",
        11 => "b",
        12 => "c",
        13 => "d",
        14 => "e",
        _ => "f",
    };
    assert(text@ =~= seq![hex_digit(value as nat)]);
    text
}

/// Appends a number in decimal notation.
pub fn push_decimal(out: &mut String, value: u64)
    ensures
        final(out)@ == old(out)@ + decimal(value as nat),
    decreases value,
{
    let ghost before = out@;
    if value >= 10 {
        push_decimal(out, value / 10);
    }
    out.append(hex_digit_text((value % 10) as u8));
    assert(out@ =~= before + decimal(value as nat));
}

/// Appends the lowest `width` hexadecimal digits of a number.
pub fn push_hexadecimal(out: &mut String, value: u64, width: usize)
    ensures
        final(out)@ == old(out)@ + hexadecimal(value as nat, width as nat),
    decreases width,
{
    let ghost before = out@;
    if width > 0 {
        push_hexadecimal(out, value / 16, width - 1);
        out.append(hex_digit_text((value % 16) as u8));
    }
    assert(out@ =~= before + hexadecimal(value as nat, width as nat));
}

/// Appends a list of numbers in the form `[1, 2, 3]`.
pub fn push_number_list(out: &mut String, values: &[usize])
    ensures
        final(out)@ == old(out)@ + number_list(values@.map_values(|v: usize| v as nat)),
{
    let ghost before = out@;
    let ghost numbers = values@.map_values(|v: usize| v as nat);
    out.append("[");
    let mut i: usize = 0;
    while i < values.len()
        invariant
            i <= values@.len(),
            numbers == values@.map_values(|v: usize| v as nat),
            out@ == before + "["@ + number_items(numbers.take(i as int)),
        decreases values@.len() - i,
    {
        if i > 0 {
            out.append(", ");
        }
        push_decimal(out, values[i] as u64);
        proof {
            let next = numbers.take(i + 1);
            assert(next.drop_last() =~= numbers.take(i as int));
            assert(next.last() == values@[i as int] as nat);
            if i == 0 {
                assert(number_items(numbers.take(0)) =~= seq![]);
                assert(number_items(next) == decimal(next[0]));
            }
            assert(out@ =~= before + "["@ + number_items(next));
        }
        i += 1;
    }
    assert(numbers.take(values@.len() as int) =~= numbers);
    out.append("]");
    assert(out@ =~= before + number_list(numbers));
}

/// Appends a list of numbers in the form `[1, 2, 3]`.
pub fn push_long_list(out: &mut String, values: &[u64])
    ensures
        final(out)@ == old(out)@ + number_list(values@.map_values(|v: u64| v as nat)),
{
    let ghost before = out@;
    let ghost numbers = values@.map_values(|v: u64| v as nat);
    out.append("[");
    let mut i: usize = 0;
    while i < values.len()
        invariant
            i <= values@.len(),
            numbers == values@.map_values(|v: u64| v as nat),
            out@ == before + "["@ + number_items(numbers.take(i as int)),
        decreases values@.len() - i,
    {
        if i > 0 {
            out.append(", ");
        }
        push_decimal(out, values[i]);
        proof {
            let next = numbers.take(i + 1);
            assert(next.drop_last() =~= numbers.take(i as int));
            assert(next.last() == values@[i as int] as nat);
            if i == 0 {
                assert(number_items(numbers.take(0)) =~= seq![]);
                assert(number_items(next) == decimal(next[0]));
            }
            assert(out@ =~= before + "["@ + number_items(next));
        }
        i += 1;
    }
    assert(numbers.take(values@.len() as int) =~= numbers);
    out.append("]");
    assert(out@ =~= before + number_list(numbers));
}

/// A number with its sign, if it is negative, in decimal.
pub open spec fn signed_decimal(value: int) -> Seq<char> {
    if value < 0 {
        "-"@ + decimal((-value) as nat)
    } else {
        decimal(value as nat)
    }
}

/// Appends a number with its sign, if it is negative, in decimal.
pub fn push_signed(out: &mut String, value: i64)
    ensures
        final(out)@ == old(out)@ + signed_decimal(value as int),
{
    let ghost before = out@;
    if value < 0 {
        out.append("-");
        let magnitude: u64 = (-(value + 1)) as u64 + 1;
        push_decimal(out, magnitude);
    } else {
        push_decimal(out, value as u64);
    }
    assert(out@ =~= before + signed_decimal(value as int));
}

/// The value of a decimal digit.
pub open spec fn digit_value(c: char) -> Option<nat> {
    if '0' <= c && c <= '9' {
        Some((c as nat - '0' as nat) as nat)
    } else {
        None
    }
}

/// The number that decimal digits stand for.
pub open spec fn decimal_value(digits: Seq<char>) -> Option<nat>
    decreases digits.len(),
{
    if digits.len() == 0 {
        Some(0)
    } else {
        match (decimal_value(digits.drop_last()), digit_value(digits.last())) {
            (Some(value), Some(digit)) => Some(value * 10 + digit),
            _ => None,
        }
    }
}

/// The number that a text stands for: an optional plus sign, and at least one
/// decimal digit.
pub open spec fn number_of(text: Seq<char>) -> Option<nat> {
    let digits = if text.len() > 0 && text[0] == '+' {
        text.drop_first()
    } else {
        text
    };
    if digits.len() == 0 {
        None
    } else {
        decimal_value(digits)
    }
}

/// More digits do not make a number smaller.
proof fn lemma_decimal_grows(digits: Seq<char>, count: int)
    requires
        0 <= count <= digits.len(),
        decimal_value(digits) is Some,
    ensures
        decimal_value(digits.take(count)) is Some,
        decimal_value(digits.take(count))->0 <= decimal_value(digits)->0,
    decreases digits.len(),
{
    if count == digits.len() {
        assert(digits.take(count) =~= digits);
    } else {
        let fewer = digits.drop_last();
        lemma_decimal_grows(fewer, count);
        assert(fewer.take(count) =~= digits.take(count));
    }
}

/// Reads a number, if it is one that the machine can hold.
pub fn parse_number(text: &str) -> (number: Option<u64>)
    ensures
        match number {
            Some(number) => number_of(text@) == Some(number as nat),
            None => number_of(text@) matches Some(value) ==> value > u64::MAX,
        },
{
    let chars = characters(text);
    let start: usize = if chars.len() > 0 && chars[0] == '+' {
        1
    } else {
        0
    };
    let ghost digits = text@.skip(start as int);
    proof {
        if start == 1 {
            assert(digits =~= text@.drop_first());
        } else {
            assert(digits =~= text@);
        }
    }
    if start == chars.len() {
        return None;
    }
    let mut value: u64 = 0;
    let mut i: usize = start;
    assert(digits.take(0) =~= seq![]);
    while i < chars.len()
        invariant
            start <= i <= chars@.len(),
            chars@ == text@,
            start < chars@.len(),
            digits == text@.skip(start as int),
            number_of(text@) == decimal_value(digits),
            decimal_value(digits.take(i - start)) == Some(value as nat),
        decreases chars@.len() - i,
    {
        let c = chars[i];
        proof {
            let next = digits.take(i - start + 1);
            assert(next.drop_last() =~= digits.take(i - start));
            assert(next.last() == c);
            if decimal_value(digits) is Some {
                lemma_decimal_grows(digits, i - start + 1);
            }
        }
        if c < '0' || c > '9' {
            return None;
        }
        let digit: u64 = c as u64 - 48;
        match value.checked_mul(10) {
            None => {
                return None;
            },
            Some(shifted) => match shifted.checked_add(digit) {
                None => {
                    return None;
                },
                Some(sum) => {
                    value = sum;
                },
            },
        }
        i += 1;
    }
    assert(digits.take(chars@.len() - start) =~= digits);
    Some(value)
}

/// The quoted and escaped form that the standard library's `Debug` gives a
/// text.
pub uninterp spec fn debug_quoted(text: Seq<char>) -> Seq<char>;

/// Quotes and escapes a text.
///
/// Calls the `Debug` formatting of `str`, whose result is a function of the
/// characters alone; `debug_quoted` names it.
#[verifier::external_body]
pub(crate) fn debug_text(text: &str) -> (quoted: String)
    ensures
        quoted@ == debug_quoted(text@),
{
    format!("{:?}", text)
}

} // verus!
