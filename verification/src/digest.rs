//! SHA-256 digests and their text form.

use vstd::prelude::*;
use vstd::string::*;

use sha2::Digest;

use crate::text;

verus! {

/// The SHA-256 digest of a byte sequence.
pub uninterp spec fn sha256_of(bytes: Seq<u8>) -> [u8; 32];

/// Computes a SHA-256 digest.
///
/// Calls `Digest::digest` of `sha2::Sha256`, whose result is a function of the
/// bytes alone; `sha256_of` names it.
#[verifier::external_body]
pub(crate) fn sha256(bytes: &[u8]) -> (digest: [u8; 32])
    ensures
        digest == sha256_of(bytes@),
{
    sha2::Sha256::digest(bytes).into()
}

/// Two lowercase hexadecimal digits for each byte.
pub open spec fn hex_of(bytes: Seq<u8>) -> Seq<char>
    decreases bytes.len(),
{
    if bytes.len() == 0 {
        seq![]
    } else {
        hex_of(bytes.drop_last()) + text::hexadecimal(bytes.last() as nat, 2)
    }
}

pub proof fn lemma_hex_length(bytes: Seq<u8>)
    ensures
        hex_of(bytes).len() == 2 * bytes.len(),
    decreases bytes.len(),
{
    if bytes.len() > 0 {
        lemma_hex_length(bytes.drop_last());
        reveal_with_fuel(text::hexadecimal, 3);
    }
}

/// Appends two lowercase hexadecimal digits for each byte.
pub fn push_hex(out: &mut String, bytes: &[u8])
    ensures
        final(out)@ == old(out)@ + hex_of(bytes@),
{
    let ghost before = out@;
    let mut i: usize = 0;
    assert(out@ =~= before + hex_of(bytes@.take(0)));
    while i < bytes.len()
        invariant
            i <= bytes@.len(),
            out@ == before + hex_of(bytes@.take(i as int)),
        decreases bytes@.len() - i,
    {
        text::push_hexadecimal(out, bytes[i] as u64, 2);
        proof {
            assert(bytes@.take(i + 1).drop_last() =~= bytes@.take(i as int));
            assert(out@ =~= before + hex_of(bytes@.take(i + 1)));
        }
        i += 1;
    }
    assert(bytes@.take(bytes@.len() as int) =~= bytes@);
}

/// The text form of the digest of a byte sequence.
pub open spec fn digest_text_of(bytes: Seq<u8>) -> Seq<char> {
    "sha256:"@ + hex_of(sha256_of(bytes)@)
}

/// Renders the digest of a byte sequence.
pub fn digest_text(bytes: &[u8]) -> (text: String)
    ensures
        text@ == digest_text_of(bytes@),
        text@.len() == 71,
{
    let digest = sha256(bytes);
    let mut text = String::new();
    text.append("sha256:");
    push_hex(&mut text, &digest);
    proof {
        reveal_strlit("sha256:");
        lemma_hex_length(digest@);
        assert(text@ =~= digest_text_of(bytes@));
    }
    text
}

} // verus!
