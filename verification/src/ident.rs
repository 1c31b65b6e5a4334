//! Identifiers of files and chunks: version-4 UUIDs written in the usual
//! hyphenated form, made from 16 random bytes.

use vstd::prelude::*;
use crate::hex::{lemma_hex_len, spec_hex_lower};
use crate::random::RandomSource;

verus! {

/// How many random bytes one identifier takes.
pub const IDENT_SEED_LEN: usize = 16;

/// The bytes of the version-4 UUID made from 16 random bytes: the random
/// bytes, with version 4 in the high half of byte 6 and the variant bits
/// `10` on top of byte 8.
pub open spec fn spec_uuid_v4_bytes(random: Seq<u8>) -> Seq<u8> {
    random.update(6, (random[6] & 0x0f) | 0x40).update(8, (random[8] & 0x3f) | 0x80)
}

/// The hyphenated text of a UUID: its bytes in lower-case hexadecimal, in
/// groups of 4, 2, 2, 2 and 6 bytes with a hyphen between them.
pub open spec fn spec_uuid_text(bytes: Seq<u8>) -> Seq<char> {
    spec_hex_lower(bytes.subrange(0, 4)) + seq!['-'] + spec_hex_lower(bytes.subrange(4, 6))
        + seq!['-'] + spec_hex_lower(bytes.subrange(6, 8)) + seq!['-'] + spec_hex_lower(
        bytes.subrange(8, 10),
    ) + seq!['-'] + spec_hex_lower(bytes.subrange(10, 16))
}

/// The identifier made from 16 random bytes.
pub open spec fn spec_identifier(random: Seq<u8>) -> Seq<char> {
    spec_uuid_text(spec_uuid_v4_bytes(random))
}

/// Whether a text is the identifier of some 16 bytes.
pub open spec fn is_identifier(text: Seq<char>) -> bool {
    exists|random: Seq<u8>|
        random.len() == IDENT_SEED_LEN && text == #[trigger] spec_identifier(random)
}

/// An identifier is 36 characters long.
pub proof fn lemma_identifier_len(text: Seq<char>)
    requires
        is_identifier(text),
    ensures
        text.len() == 36,
{
    let random = choose|random: Seq<u8>|
        random.len() == IDENT_SEED_LEN && text == #[trigger] spec_identifier(random);
    let bytes = spec_uuid_v4_bytes(random);
    lemma_hex_len(bytes.subrange(0, 4));
    lemma_hex_len(bytes.subrange(4, 6));
    lemma_hex_len(bytes.subrange(6, 8));
    lemma_hex_len(bytes.subrange(8, 10));
    lemma_hex_len(bytes.subrange(10, 16));
}

/// Calls `uuid::Builder::from_random_bytes` and writes the UUID with its
/// `Display`. Trusted: the builder sets the version and variant bits and
/// leaves the other bits as they are, and `Display` writes the hyphenated
/// lower-case form.
#[verifier::external_body]
fn uuid_from_random(random: &[u8]) -> (text: String)
    requires
        random@.len() == 16,
    ensures
        text@ == spec_identifier(random@),
{
    let mut bytes = [0u8; 16];
    bytes.copy_from_slice(random);
    uuid::Builder::from_random_bytes(bytes).into_uuid().to_string()
}

/// The identifier made from `random`, or `None` where `random` is not 16
/// bytes long.
pub fn identifier_from(random: &[u8]) -> (res: Option<String>)
    ensures
        res is Some <==> random@.len() == IDENT_SEED_LEN,
        res matches Some(text) ==> text@ == spec_identifier(random@),
{
    if random.len() != IDENT_SEED_LEN {
        return None;
    }
    Some(uuid_from_random(random))
}

/// A fresh identifier, made from the next 16 bytes of `source`.
pub fn new_identifier<R: RandomSource>(source: &mut R) -> (text: String)
    ensures
        is_identifier(text@),
{
    let random = source.fill(IDENT_SEED_LEN);
    uuid_from_random(random.as_slice())
}

} // verus!
