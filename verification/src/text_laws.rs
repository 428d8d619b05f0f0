//! What numbers look like in text.

use vstd::prelude::*;
use vstd::utf8;

use crate::digest;
use crate::text;

verus! {

/// The value of a decimal digit.
pub open spec fn digit_of(c: char) -> int {
    c as int - '0' as int
}

/// Whether a character is a decimal digit.
pub open spec fn is_digit(c: char) -> bool {
    0 <= digit_of(c) <= 9
}

/// The number that digits stand for: the last one counts once, and each one before
/// it ten times as much as the one behind.
pub open spec fn value_of_digits(digits: Seq<char>) -> int
    decreases digits.len(),
{
    if digits.len() == 0 {
        0
    } else {
        digit_of(digits.last()) + 10 * value_of_digits(digits.drop_last())
    }
}

/// All characters are decimal digits.
pub open spec fn all_digits(characters: Seq<char>) -> bool {
    forall|i: int| 0 <= i < characters.len() ==> is_digit(#[trigger] characters[i])
}

proof fn lemma_decimal(value: nat)
    ensures
        all_digits(text::decimal(value)),
        value_of_digits(text::decimal(value)) == value,
        text::decimal(value).len() > 0,
        value > 0 ==> text::decimal(value)[0] != '0',
    decreases value,
{
    let written = text::decimal(value);
    if value < 10 {
        assert(written.drop_last() =~= seq![]);
        reveal_with_fuel(value_of_digits, 2);
    } else {
        let front = text::decimal(value / 10);
        lemma_decimal(value / 10);
        assert(written.drop_last() =~= front);
        assert(written[0] == front[0]);
        assert forall|i: int| 0 <= i < written.len() implies is_digit(#[trigger] written[i]) by {
            if i < front.len() {
                assert(written[i] == front[i]);
            }
        }
    }
}

/// A number that is written in decimal is made of digits that stand for it, and
/// does not start with a zero unless it is one.
pub proof fn law_decimal_digits_stand_for_the_number(
    out: &mut String,
    value: u64,
)
    requires
        call_ensures(text::push_decimal, (out, value), ()),
    ensures
        exists|digits: Seq<char>|
            {
                &&& final(out)@ == old(out)@ + digits
                &&& #[trigger] all_digits(digits)
                &&& digits.len() > 0
                &&& value_of_digits(digits) == value
                &&& value > 0 ==> digits[0] != '0'
            },
{
    lemma_decimal(value as nat);
    let digits = text::decimal(value as nat);
    assert(final(out)@ == old(out)@ + digits);
    assert(all_digits(digits));
}

/// A number below zero is written with a dash before its opposite.
pub proof fn law_signs_are_written(out: &mut String, value: i64)
    requires
        call_ensures(text::push_signed, (out, value), ()),
    ensures
        exists|digits: Seq<char>|
            {
                &&& final(out)@ == old(out)@ + if value < 0 {
                    seq!['-'] + digits
                } else {
                    digits
                }
                &&& #[trigger] all_digits(digits)
                &&& value_of_digits(digits) == if value < 0 {
                    -value
                } else {
                    value as int
                }
            },
{
    reveal_strlit("-");
    assert("-"@ =~= seq!['-']);
    let size = if value < 0 {
        -value
    } else {
        value as int
    };
    lemma_decimal(size as nat);
    assert(all_digits(text::decimal(size as nat)));
}

pub(crate) proof fn lemma_digits(digits: Seq<char>)
    ensures
        text::decimal_value(digits) is Some <==> all_digits(digits),
        all_digits(digits) ==> text::decimal_value(digits) == Some(value_of_digits(digits) as nat)
            && value_of_digits(digits) >= 0,
    decreases digits.len(),
{
    if digits.len() > 0 {
        let front = digits.drop_last();
        lemma_digits(front);
        if all_digits(digits) {
            assert forall|i: int| 0 <= i < front.len() implies is_digit(#[trigger] front[i]) by {
                assert(is_digit(digits[i]));
            }
            assert(is_digit(digits[digits.len() - 1]));
        }
        if all_digits(front) && is_digit(digits.last()) {
            assert forall|i: int| 0 <= i < digits.len() implies is_digit(
                #[trigger] digits[i],
            ) by {
                if i < front.len() {
                    assert(is_digit(front[i]));
                }
            }
        }
    }
}

/// Digits, with or without a plus sign before them, are read as the number that
/// they stand for, if it fits into 64 bits. No other text is read as a number.
pub proof fn law_numbers_are_read(text: &str, number: Option<u64>, digits: Seq<char>)
    requires
        call_ensures(text::parse_number, (text,), number),
    ensures
        (text@ == digits || text@ == seq!['+'] + digits) && all_digits(digits) && digits.len() > 0
            && value_of_digits(digits) <= u64::MAX ==> number is Some && number->0
            == value_of_digits(digits),
        number is Some ==> {
            let read = if text@.len() > 0 && text@[0] == '+' {
                text@.skip(1)
            } else {
                text@
            };
            &&& read.len() > 0
            &&& all_digits(read)
            &&& value_of_digits(read) == number->0
        },
{
    lemma_digits(digits);
    let read = if text@.len() > 0 && text@[0] == '+' {
        text@.skip(1)
    } else {
        text@
    };
    lemma_digits(read);
    if text@.len() > 0 {
        assert(text@.skip(1) =~= text@.drop_first());
    }
    if text@ == seq!['+'] + digits {
        assert(text@.drop_first() =~= digits);
    }
    if text@ == digits && digits.len() > 0 && all_digits(digits) {
        assert(is_digit(digits[0]));
    }
}

/// The value of a lowercase hexadecimal digit.
pub open spec fn hex_digit_of(c: char) -> int {
    if is_digit(c) {
        digit_of(c)
    } else {
        10 + (c as int - 'a' as int)
    }
}

proof fn lemma_hex_digit(value: nat)
    requires
        value < 16,
    ensures
        hex_digit_of(text::hex_digit(value)) == value,
{
}

/// The text form of a digest has two digits for each byte, the higher one first.
pub proof fn law_digests_have_two_digits_for_each_byte(bytes: Seq<u8>, i: int)
    requires
        0 <= i < bytes.len(),
    ensures
        digest::hex_of(bytes).len() == 2 * bytes.len(),
        16 * hex_digit_of(digest::hex_of(bytes)[2 * i]) + hex_digit_of(
            digest::hex_of(bytes)[2 * i + 1],
        ) == bytes[i],
    decreases bytes.len(),
{
    digest::lemma_hex_length(bytes);
    let front = bytes.drop_last();
    digest::lemma_hex_length(front);
    let last = bytes.last() as nat;
    reveal_with_fuel(text::hexadecimal, 3);
    if i < front.len() {
        law_digests_have_two_digits_for_each_byte(front, i);
    } else {
        lemma_hex_digit(last / 16);
        lemma_hex_digit(last % 16);
        assert((last / 16) % 16 == last / 16);
    }
}

/// One sequence of bytes comes before another: it is the start of the other, or
/// has the smaller byte at the first place where they differ.
pub open spec fn comes_before(a: Seq<u8>, b: Seq<u8>) -> bool
    decreases a.len(),
{
    if b.len() == 0 {
        false
    } else if a.len() == 0 {
        true
    } else if a[0] == b[0] {
        comes_before(a.drop_first(), b.drop_first())
    } else {
        a[0] < b[0]
    }
}

pub(crate) proof fn lemma_before(a: Seq<u8>, b: Seq<u8>)
    ensures
        comes_before(a, b) <==> text::lex_less(a, b),
    decreases a.len(),
{
    if b.len() > 0 && a.len() > 0 && a[0] == b[0] {
        let x = a.drop_first();
        let y = b.drop_first();
        lemma_before(x, y);
        if text::lex_less(x, y) {
            let k = choose|k: int| text::lex_less_at(x, y, k);
            assert forall|i: int| 0 <= i < k + 1 implies a[i] == b[i] by {
                if i > 0 {
                    assert(x[i - 1] == y[i - 1]);
                }
            }
            assert(text::lex_less_at(a, b, k + 1));
        }
        if text::lex_less(a, b) {
            let k = choose|k: int| text::lex_less_at(a, b, k);
            assert(k > 0);
            assert forall|i: int| 0 <= i < k - 1 implies x[i] == y[i] by {
                assert(a[i + 1] == b[i + 1]);
            }
            assert(text::lex_less_at(x, y, k - 1));
        }
    } else if b.len() > 0 {
        if a.len() == 0 || a[0] < b[0] {
            assert(text::lex_less_at(a, b, 0));
        } else if text::lex_less(a, b) {
            let k = choose|k: int| text::lex_less_at(a, b, k);
            if k > 0 {
                assert(a[0] == b[0]);
            }
        }
    } else if text::lex_less(a, b) {
        let k = choose|k: int| text::lex_less_at(a, b, k);
    }
}

/// Texts come in the order of their bytes.
pub proof fn law_texts_come_in_the_order_of_their_bytes(a: &str, b: &str, order: text::TextOrder)
    requires
        call_ensures(text::order_text, (a, b), order),
    ensures
        order is Before <==> comes_before(utf8::encode_utf8(a@), utf8::encode_utf8(b@)),
        order is Same <==> a@ == b@,
        order is After <==> comes_before(utf8::encode_utf8(b@), utf8::encode_utf8(a@)),
{
    let x = utf8::encode_utf8(a@);
    let y = utf8::encode_utf8(b@);
    lemma_before(x, y);
    lemma_before(y, x);
    text::lemma_lex_less_irreflexive(x);
    if text::lex_less(x, y) && text::lex_less(y, x) {
        text::lemma_lex_less_transitive(x, y, x);
    }
}

/// The numbers from number `from` on, in decimal, each behind a comma and a space.
pub open spec fn listed_from(values: Seq<nat>, from: int) -> Seq<char>
    decreases values.len() - from,
{
    if from >= values.len() {
        seq![]
    } else {
        seq![',', ' '] + text::decimal(values[from]) + listed_from(values, from + 1)
    }
}

/// A list of numbers in square brackets, with a comma and a space between them.
pub open spec fn bracketed(values: Seq<nat>) -> Seq<char> {
    if values.len() == 0 {
        seq!['[', ']']
    } else {
        seq!['['] + text::decimal(values[0]) + listed_from(values, 1) + seq![']']
    }
}

proof fn lemma_listed(values: Seq<nat>, last: nat, from: int)
    requires
        0 <= from <= values.len(),
    ensures
        listed_from(values.push(last), from) == listed_from(values, from) + (seq![',', ' ']
            + text::decimal(last)),
    decreases values.len() - from,
{
    let longer = values.push(last);
    if from < values.len() {
        lemma_listed(values, last, from + 1);
        assert(longer[from] == values[from]);
        assert(listed_from(longer, from) =~= listed_from(values, from) + (seq![',', ' ']
            + text::decimal(last)));
    } else {
        assert(listed_from(longer, from + 1) =~= seq![]);
        assert(longer[from] == last);
        assert(listed_from(longer, from) =~= listed_from(values, from) + (seq![',', ' ']
            + text::decimal(last)));
    }
}

proof fn lemma_items(values: Seq<nat>)
    ensures
        values.len() == 0 ==> text::number_items(values).len() == 0,
        values.len() > 0 ==> text::number_items(values) == text::decimal(values[0]) + listed_from(
            values,
            1,
        ),
    decreases values.len(),
{
    if values.len() > 0 {
        let front = values.drop_last();
        lemma_items(front);
        assert(front.push(values.last()) =~= values);
        reveal_strlit(", ");
        assert(", "@ =~= seq![',', ' ']);
        if front.len() > 0 {
            lemma_listed(front, values.last(), 1);
            assert(front[0] == values[0]);
        }
        assert(text::number_items(values) =~= text::decimal(values[0]) + listed_from(values, 1));
    }
}

/// Lists are written with their numbers in order.
pub proof fn law_lists_are_written_in_order(
    out: &mut String,
    values: &[usize],
    other: &mut String,
    longs: &[u64],
)
    requires
        call_ensures(text::push_number_list, (out, values), ()),
        call_ensures(text::push_long_list, (other, longs), ()),
    ensures
        final(out)@ == old(out)@ + bracketed(values@.map_values(|value: usize| value as nat)),
        final(other)@ == old(other)@ + bracketed(longs@.map_values(|value: u64| value as nat)),
{
    let a = values@.map_values(|value: usize| value as nat);
    let b = longs@.map_values(|value: u64| value as nat);
    lemma_items(a);
    lemma_items(b);
    reveal_strlit("[");
    reveal_strlit("]");
    assert(text::number_list(a) =~= bracketed(a));
    assert(text::number_list(b) =~= bracketed(b));
}

} // verus!
