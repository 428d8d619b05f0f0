//! What the blocks of each tensor type are made of.

use vstd::prelude::*;

use crate::gguf::types;
use crate::gguf::types::TensorType;
use crate::text;

verus! {

/// The sum of the lengths of fields.
pub open spec fn total(fields: Seq<nat>) -> nat
    decreases fields.len(),
{
    if fields.len() == 0 {
        0
    } else {
        fields[0] + total(fields.drop_first())
    }
}

/// The number of weights in a block. Weights that stand alone are blocks of one.
pub open spec fn weights_in_block(code: u32) -> nat {
    if code == 0 || code == 1 || 24 <= code <= 28 || code == 30 {
        1
    } else if code == 2 || code == 3 || 6 <= code <= 9 || code == 20 || code == 39 {
        32
    } else if code == 40 || code == 42 {
        64
    } else if code == 41 {
        128
    } else if 10 <= code <= 29 || code == 34 || code == 35 {
        256
    } else {
        0
    }
}

/// The bytes that `weights` numbers of `bits` bits occupy.
pub open spec fn packed(weights: nat, bits: nat) -> nat {
    weights * bits / 8
}

/// The lengths in bytes of the fields of a block.
///
/// A half-precision number takes two bytes and a single-precision number four.
/// The numbers of the weights, or parts of them, stand side by side in a field,
/// and so do the scales of the groups that larger blocks are divided into.
pub open spec fn block_fields(code: u32) -> Seq<nat> {
    let n = weights_in_block(code);
    match code {
        // Weights that stand alone.
        0 => seq![4],
        1 => seq![2],
        24 => seq![1],
        25 => seq![2],
        26 => seq![4],
        27 => seq![8],
        28 => seq![8],
        30 => seq![2],
        // A scale, a minimum if there is one, fifth bits and four bits a weight.
        2 => seq![2, packed(n, 4)],
        3 => seq![2, 2, packed(n, 4)],
        6 => seq![2, packed(n, 1), packed(n, 4)],
        7 => seq![2, 2, packed(n, 1), packed(n, 4)],
        8 => seq![2, packed(n, 8)],
        9 => seq![2, 2, packed(n, 8)],
        // Four bits of scale and of minimum for each group of sixteen.
        10 => seq![n / 16, packed(n, 2), 2, 2],
        // Six bits of scale for each group of sixteen.
        11 => seq![packed(n, 1), packed(n, 2), packed(n / 16, 6), 2],
        // Six bits of scale and of minimum for each group of thirty-two.
        12 => seq![2, 2, packed(2 * (n / 32), 6), packed(n, 4)],
        13 => seq![2, 2, packed(2 * (n / 32), 6), packed(n, 1), packed(n, 4)],
        14 => seq![packed(n, 4), packed(n, 2), n / 16, 2],
        15 => seq![4, packed(n, 8), 2 * (n / 16)],
        // Weights by numbers of entries of a table.
        16 => seq![2, 2 * (n / 8)],
        17 => seq![2, 2 * (n / 8), n / 32],
        18 => seq![2, n / 4, n / 8],
        19 => seq![2, n / 8, 2 * (n / 32)],
        20 => seq![2, packed(n, 4)],
        21 => seq![2, n / 4, n / 32, n / 8, n / 64],
        22 => seq![2, n / 4, n / 32, n / 32],
        23 => seq![2, 2, n / 64, packed(n, 4)],
        29 => seq![n / 8, n / 16, n / 32],
        // Weights of three and of four values.
        34 => seq![2, n / 64, (n - 4 * n / 64) as nat / 5],
        35 => seq![2, packed(n, 2)],
        // A power of two, or a small scale for each group of sixteen.
        39 => seq![1, packed(n, 4)],
        40 => seq![n / 16, packed(n, 4)],
        41 => seq![2, packed(n, 1)],
        42 => seq![2, packed(n, 2)],
        _ => seq![],
    }
}

/// The size of a type is that of the fields of its blocks, and its block size is
/// the number of weights in them. The types that exist are those with blocks.
#[verifier::rlimit(40)]
pub proof fn law_sizes_are_those_of_the_fields(
    code: u32,
    found: Option<TensorType>,
    type_size: u64,
    block_size: u64,
)
    requires
        call_ensures(TensorType::from_code, (code,), found),
        found matches Some(value_type) ==> {
            &&& call_ensures(TensorType::type_size, (value_type,), type_size)
            &&& call_ensures(TensorType::block_size, (value_type,), block_size)
        },
    ensures
        found is Some <==> block_fields(code).len() > 0,
        found is Some ==> type_size == total(block_fields(code)),
        found is Some ==> block_size == weights_in_block(code),
{
    lemma_sizes(code);
}

/// Blocks of a type are as long as their fields together.
#[verifier::rlimit(40)]
pub(crate) proof fn lemma_sizes(code: u32)
    ensures
        types::is_tensor_type(code) <==> block_fields(code).len() > 0,
        types::type_size_of(code) == total(block_fields(code)),
        types::block_size_of(code) == weights_in_block(code),
{
    reveal_with_fuel(total, 7);
}

/// The letters that a type's name starts with: those of plain numbers, of numbers
/// with a scale, of entries of a table, of three or four values and of small
/// floating-point numbers.
pub open spec fn family(code: u32) -> Seq<char> {
    if code == 0 || code == 1 || code == 28 {
        seq!['F']
    } else if code == 30 {
        seq!['B', 'F']
    } else if 24 <= code <= 27 {
        seq!['I']
    } else if 16 <= code <= 23 || code == 29 {
        seq!['I', 'Q']
    } else if code == 34 || code == 35 {
        seq!['T', 'Q']
    } else if code == 39 {
        seq!['M', 'X', 'F', 'P']
    } else if code == 40 {
        seq!['N', 'V', 'F', 'P']
    } else {
        seq!['Q']
    }
}

/// The bits of a weight, as its type's name has them: those of a weight that stands
/// alone, and of the numbers of others without what their blocks share.
pub open spec fn bits_in_name(code: u32) -> nat {
    if weights_in_block(code) == 1 {
        8 * total(block_fields(code))
    } else if code == 19 || code == 29 || code == 34 || code == 41 {
        1
    } else if code == 10 || code == 16 || code == 17 || code == 22 || code == 35 || code == 42 {
        2
    } else if code == 11 || code == 18 || code == 21 {
        3
    } else if code == 2 || code == 3 || code == 12 || code == 20 || code == 23 || code == 39
        || code == 40 {
        4
    } else if code == 6 || code == 7 || code == 13 {
        5
    } else if code == 14 {
        6
    } else {
        8
    }
}

/// What a type's name ends in: one of the ways to store numbers of the same bits.
pub open spec fn variant(code: u32) -> Seq<char> {
    if weights_in_block(code) == 1 || code == 39 || code == 40 {
        seq![]
    } else if code == 3 || code == 7 || code == 9 {
        seq!['_', '1']
    } else if 10 <= code <= 15 {
        seq!['_', 'K']
    } else if code == 16 || code == 18 {
        seq!['_', 'X', 'X', 'S']
    } else if code == 17 || code == 23 {
        seq!['_', 'X', 'S']
    } else if code == 19 || code == 21 || code == 22 {
        seq!['_', 'S']
    } else if code == 20 {
        seq!['_', 'N', 'L']
    } else if code == 29 {
        seq!['_', 'M']
    } else {
        seq!['_', '0']
    }
}

/// The name of a type is made of its family, of the bits of a weight and of a
/// variant.
pub proof fn law_names_tell_families_and_bits(value_type: TensorType, name: &'static str)
    requires
        call_ensures(TensorType::name, (value_type,), name),
        block_fields(value_type.code()).len() > 0,
    ensures
        name@ == family(value_type.code()) + text::decimal(bits_in_name(value_type.code()))
            + variant(value_type.code()),
{
    lemma_name(value_type.code());
}

#[verifier::rlimit(60)]
pub(crate) proof fn lemma_name(code: u32)
    requires
        block_fields(code).len() > 0,
    ensures
        types::tensor_type_name(code) == family(code) + text::decimal(bits_in_name(code))
            + variant(code),
{
    lemma_sizes(code);
    reveal_with_fuel(text::decimal, 2);
    let name = family(code) + text::decimal(bits_in_name(code)) + variant(code);
    match code {
        0 => {
            reveal_strlit("F32");
            assert("F32"@ =~= name);
        },
        1 => {
            reveal_strlit("F16");
            assert("F16"@ =~= name);
        },
        2 => {
            reveal_strlit("Q4_0");
            assert("Q4_0"@ =~= name);
        },
        3 => {
            reveal_strlit("Q4_1");
            assert("Q4_1"@ =~= name);
        },
        6 => {
            reveal_strlit("Q5_0");
            assert("Q5_0"@ =~= name);
        },
        7 => {
            reveal_strlit("Q5_1");
            assert("Q5_1"@ =~= name);
        },
        8 => {
            reveal_strlit("Q8_0");
            assert("Q8_0"@ =~= name);
        },
        9 => {
            reveal_strlit("Q8_1");
            assert("Q8_1"@ =~= name);
        },
        10 => {
            reveal_strlit("Q2_K");
            assert("Q2_K"@ =~= name);
        },
        11 => {
            reveal_strlit("Q3_K");
            assert("Q3_K"@ =~= name);
        },
        12 => {
            reveal_strlit("Q4_K");
            assert("Q4_K"@ =~= name);
        },
        13 => {
            reveal_strlit("Q5_K");
            assert("Q5_K"@ =~= name);
        },
        14 => {
            reveal_strlit("Q6_K");
            assert("Q6_K"@ =~= name);
        },
        15 => {
            reveal_strlit("Q8_K");
            assert("Q8_K"@ =~= name);
        },
        16 => {
            reveal_strlit("IQ2_XXS");
            assert("IQ2_XXS"@ =~= name);
        },
        17 => {
            reveal_strlit("IQ2_XS");
            assert("IQ2_XS"@ =~= name);
        },
        18 => {
            reveal_strlit("IQ3_XXS");
            assert("IQ3_XXS"@ =~= name);
        },
        19 => {
            reveal_strlit("IQ1_S");
            assert("IQ1_S"@ =~= name);
        },
        20 => {
            reveal_strlit("IQ4_NL");
            assert("IQ4_NL"@ =~= name);
        },
        21 => {
            reveal_strlit("IQ3_S");
            assert("IQ3_S"@ =~= name);
        },
        22 => {
            reveal_strlit("IQ2_S");
            assert("IQ2_S"@ =~= name);
        },
        23 => {
            reveal_strlit("IQ4_XS");
            assert("IQ4_XS"@ =~= name);
        },
        24 => {
            reveal_strlit("I8");
            assert("I8"@ =~= name);
        },
        25 => {
            reveal_strlit("I16");
            assert("I16"@ =~= name);
        },
        26 => {
            reveal_strlit("I32");
            assert("I32"@ =~= name);
        },
        27 => {
            reveal_strlit("I64");
            assert("I64"@ =~= name);
        },
        28 => {
            reveal_strlit("F64");
            assert("F64"@ =~= name);
        },
        29 => {
            reveal_strlit("IQ1_M");
            assert("IQ1_M"@ =~= name);
        },
        30 => {
            reveal_strlit("BF16");
            assert("BF16"@ =~= name);
        },
        34 => {
            reveal_strlit("TQ1_0");
            assert("TQ1_0"@ =~= name);
        },
        35 => {
            reveal_strlit("TQ2_0");
            assert("TQ2_0"@ =~= name);
        },
        39 => {
            reveal_strlit("MXFP4");
            assert("MXFP4"@ =~= name);
        },
        40 => {
            reveal_strlit("NVFP4");
            assert("NVFP4"@ =~= name);
        },
        41 => {
            reveal_strlit("Q1_0");
            assert("Q1_0"@ =~= name);
        },
        42 => {
            reveal_strlit("Q2_0");
            assert("Q2_0"@ =~= name);
        },
        _ => {},
    }
}

} // verus!
