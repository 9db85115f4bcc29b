//! The field encoder: raw values are hashed with BLAKE3 and the digest is cut
//! down to a canonical field element.

use crate::field::{
    le_bytes, lemma_le_value_bound, lemma_le_value_low_part, lemma_pow256_values, u64_to_le_bytes,
    FieldElement,
};
use vstd::prelude::*;
use vstd::utf8::encode_utf8;

verus! {

/// The BLAKE3 digest of a message.
pub uninterp spec fn blake3_digest(input: Seq<u8>) -> Seq<u8>;

/// `blake3::hash`, with the 32 bytes of its result. Trusted: the digest is a
/// function of the message alone.
#[verifier::external_body]
fn blake3_hash(input: &[u8]) -> (digest: [u8; 32])
    ensures
        digest@ == blake3_digest(input@),
{
    *blake3::hash(input).as_bytes()
}

/// The representation that a digest is cut down to: its low 31 bytes, under
/// a zero byte.
pub open spec fn truncated_digest(digest: Seq<u8>) -> Seq<u8> {
    digest.take(31).push(0u8)
}

/// The field element of a digest. The top byte of the digest is dropped, so
/// that what is left spells a number below `2^248` and is canonical. A
/// representation that is not canonical would be answered with the additive
/// identity; no digest leads there.
pub fn field_from_digest(digest: &[u8; 32]) -> (r: FieldElement)
    ensures
        r@ == truncated_digest(digest@),
{
    let mut repr = [0u8; 32];
    let mut i: usize = 0;
    while i < 31
        invariant
            i <= 31,
            forall|j: int| 0 <= j < i ==> repr[j] == digest[j],
            forall|j: int| i <= j < 32 ==> repr[j] == 0,
        decreases 31 - i,
    {
        repr[i] = digest[i];
        i += 1;
    }
    proof {
        lemma_le_value_low_part(repr@, 31);
        lemma_le_value_bound(repr@.take(31));
        lemma_pow256_values();
    }
    match FieldElement::from_repr(repr) {
        Some(element) => element,
        None => FieldElement::zero(),
    }
}

/// Encodes an integer: the digest of its eight bytes, least significant
/// first, cut down to a field element.
pub fn hash_to_field(value: u64) -> (r: FieldElement)
    ensures
        r@ == truncated_digest(blake3_digest(le_bytes(value as nat, 8))),
{
    let bytes = u64_to_le_bytes(value);
    let digest = blake3_hash(bytes.as_slice());
    field_from_digest(&digest)
}

/// Encodes a text: the digest of its UTF-8 bytes, cut down to a field
/// element.
pub fn hash_string_to_field(s: &str) -> (r: FieldElement)
    ensures
        r@ == truncated_digest(blake3_digest(encode_utf8(s@))),
{
    let digest = blake3_hash(s.as_bytes());
    field_from_digest(&digest)
}

} // verus!
