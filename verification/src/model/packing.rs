//! Small numbers packed into words.

use vstd::arithmetic::power;
use vstd::arithmetic::power2;
use vstd::prelude::*;

verus! {

/// The number with given digits, the lowest one first.
pub open spec fn digits_value(digits: Seq<u32>, base: nat) -> nat
    decreases digits.len(),
{
    if digits.len() == 0 {
        0
    } else {
        digits_value(digits.drop_last(), base) + digits.last() as nat * power::pow(
            base as int,
            (digits.len() - 1) as nat,
        ) as nat
    }
}

/// The words hold the numbers side by side, `bits` bits each, the lowest bits
/// first.
pub open spec fn holds(words: Seq<u32>, numbers: Seq<u32>, bits: nat) -> bool {
    &&& words.len() * 32 == numbers.len() * bits
    &&& digits_value(words, 4_294_967_296) == digits_value(numbers, power2::pow2(bits))
}

/// Every number is below a bound.
pub open spec fn all_below(numbers: Seq<u32>, bound: nat) -> bool {
    forall|i: int| 0 <= i < numbers.len() ==> (#[trigger] numbers[i]) < bound
}

pub(crate) proof fn lemma_pow2_power(bits: nat, count: nat)
    ensures
        power::pow(power2::pow2(bits) as int, count) == power2::pow2(bits * count),
{
    power2::lemma_pow2(bits);
    power2::lemma_pow2(bits * count);
    power::lemma_pow_multiplies(2, bits, count);
    assert(power::pow(power::pow(2, bits), count) == power::pow(2, bits * count));
}

/// One number more shifts the accumulator on.
proof fn lemma_step(
    words: Seq<u32>,
    numbers: Seq<u32>,
    done: int,
    bits: nat,
    filled: nat,
    accumulator: nat,
)
    requires
        0 <= done < numbers.len(),
        words.len() * 32 + filled == done * bits,
        digits_value(words, 4_294_967_296) + accumulator * power::pow(
            4_294_967_296,
            words.len(),
        ) == digits_value(numbers.take(done), power2::pow2(bits)),
    ensures
        digits_value(words, 4_294_967_296) + (accumulator + numbers[done] * power2::pow2(filled))
            * power::pow(4_294_967_296, words.len()) == digits_value(
            numbers.take(done + 1),
            power2::pow2(bits),
        ),
        power::pow(4_294_967_296, words.len()) > 0,
{
    let next = numbers.take(done + 1);
    assert(next.drop_last() =~= numbers.take(done));
    assert(next.last() == numbers[done]);
    lemma_pow2_power(bits, done as nat);
    power2::lemma2_to64();
    assert(power2::pow2(32) == 4_294_967_296);
    lemma_pow2_power(32, words.len());
    assert(bits * done as nat == 32 * words.len() + filled) by (nonlinear_arith)
        requires
            words.len() * 32 + filled == done * bits,
    ;
    power2::lemma_pow2_adds(32 * words.len(), filled);
    power2::lemma_pow2_pos(32 * words.len());
    let unit = power::pow(4_294_967_296, words.len());
    let number = numbers[done] as int;
    let inner = power2::pow2(filled) as int;
    assert(number * (unit * inner) == (number * inner) * unit) by (nonlinear_arith);
    assert((accumulator + number * inner) * unit == accumulator * unit + (number * inner) * unit)
        by (nonlinear_arith);
    assert(unit * inner >= 0) by (nonlinear_arith)
        requires
            unit > 0,
            inner >= 0,
    ;
}

/// A full word leaves the accumulator.
proof fn lemma_word(words: Seq<u32>, word: u32, accumulator: nat)
    requires
        word == accumulator % 4_294_967_296,
    ensures
        digits_value(words.push(word), 4_294_967_296) + (accumulator / 4_294_967_296) * power::pow(
            4_294_967_296,
            (words.len() + 1) as nat,
        ) == digits_value(words, 4_294_967_296) + accumulator * power::pow(
            4_294_967_296,
            words.len(),
        ),
{
    let longer = words.push(word);
    assert(longer.drop_last() =~= words);
    let unit = power::pow(4_294_967_296, words.len());
    reveal(power::pow);
    assert(power::pow(4_294_967_296, (words.len() + 1) as nat) == 4_294_967_296 * unit);
    power::lemma_pow_positive(4_294_967_296, words.len());
    let high = (accumulator / 4_294_967_296) as int;
    assert(word * unit + high * (4_294_967_296 * unit) == accumulator * unit) by (nonlinear_arith)
        requires
            accumulator == high * 4_294_967_296 + word,
    ;
    assert(word * unit >= 0) by (nonlinear_arith)
        requires
            unit > 0,
    ;
}

/// Packs numbers of `bits` bits into words.
pub(crate) fn pack(numbers: &Vec<u32>, bits: usize, base: u64) -> (words: Vec<u32>)
    requires
        0 < bits <= 8,
        base == power2::pow2(bits as nat),
        all_below(numbers@, base as nat),
        (numbers@.len() * bits) % 32 == 0,
    ensures
        holds(words@, numbers@, bits as nat),
{
    let mut words: Vec<u32> = Vec::new();
    let mut accumulator: u64 = 0;
    let mut unit: u64 = 1;
    let ghost mut filled: nat = 0;
    let mut i: usize = 0;
    proof {
        power2::lemma2_to64();
        assert(numbers@.take(0) =~= seq![]);
        assert(0 * power::pow(4_294_967_296, 0) == 0);
        assert(0 * bits == 0);
    }
    while i < numbers.len()
        invariant
            i <= numbers@.len(),
            0 < bits <= 8,
            base == power2::pow2(bits as nat),
            base <= 256,
            all_below(numbers@, base as nat),
            filled < 32,
            unit == power2::pow2(filled),
            unit < 4_294_967_296,
            accumulator < unit,
            words@.len() * 32 + filled == i * bits,
            digits_value(words@, 4_294_967_296) + accumulator * power::pow(
                4_294_967_296,
                words@.len(),
            ) == digits_value(numbers@.take(i as int), base as nat),
        decreases numbers@.len() - i,
    {
        let number: u32 = numbers[i];
        proof {
            lemma_step(
                words@,
                numbers@,
                i as int,
                bits as nat,
                filled,
                accumulator as nat,
            );
            assert(number * unit + unit <= base * unit && 0 <= number * unit) by (nonlinear_arith)
                requires
                    0 <= number < base,
                    0 < unit,
            ;
            assert(base * unit <= 256 * 4_294_967_296) by (nonlinear_arith)
                requires
                    base <= 256,
                    unit < 4_294_967_296,
            ;
            power2::lemma_pow2_adds(filled, bits as nat);
            assert(base * unit == unit * base) by (nonlinear_arith);
            assert((i + 1) * bits == i * bits + bits) by (nonlinear_arith);
            power2::lemma2_to64();
            if filled + bits >= 32 {
                if filled + bits > 32 {
                    power2::lemma_pow2_strictly_increases(32, filled + bits as nat);
                }
                power2::lemma_pow2_adds(32, (filled + bits - 32) as nat);
                power2::lemma_pow2_strictly_increases((filled + bits - 32) as nat, 32);
            } else {
                power2::lemma_pow2_strictly_increases(filled + bits as nat, 32);
            }
        }
        accumulator = accumulator + number as u64 * unit;
        unit = unit * base;
        proof {
            filled = filled + bits as nat;
        }
        if unit >= 4_294_967_296 {
            let word: u32 = (accumulator % 4_294_967_296) as u32;
            proof {
                lemma_word(words@, word, accumulator as nat);
                let smaller = power2::pow2((filled - 32) as nat);
                assert(unit == 4_294_967_296 * smaller);
                assert(accumulator / 4_294_967_296 < smaller) by (nonlinear_arith)
                    requires
                        accumulator < 4_294_967_296 * smaller,
                ;
                assert(unit / 4_294_967_296 == smaller);
            }
            words.push(word);
            accumulator = accumulator / 4_294_967_296;
            unit = unit / 4_294_967_296;
            proof {
                filled = (filled - 32) as nat;
            }
        }
        i += 1;
    }
    proof {
        let len = numbers@.len();
        assert(numbers@.take(len as int) =~= numbers@);
        assert(filled == 0) by {
            assert((words@.len() * 32 + filled) % 32 == filled);
        }
        assert(0 * power::pow(4_294_967_296, words@.len()) == 0) by (nonlinear_arith);
    }
    words
}

} // verus!
