//! Human-readable addresses: the text form of a 32-byte hash under a prefix.

use vstd::prelude::*;
use crate::bytes::Bytes32;

verus! {

/// `chia_wallet_sdk::utils::Bech32Error`, the error of encoding and
/// decoding. Nothing inside it is visible: it is only told apart from
/// success.
#[verifier::external_type_specification]
#[verifier::external_body]
pub struct ExBech32Error(chia_wallet_sdk::utils::Bech32Error);

/// Whether a text can be the prefix of an address: it has 1 to 83
/// characters, each of them a visible ASCII character, and it does not mix
/// lower-case with upper-case letters.
pub open spec fn valid_prefix(prefix: Seq<char>) -> bool {
    &&& 1 <= prefix.len() <= 83
    &&& forall|i: int| 0 <= i < prefix.len() ==> 33 <= (#[trigger] prefix[i]) as u32 <= 126
    &&& !(has_lower(prefix) && has_upper(prefix))
}

/// Whether a text holds a letter from `a` to `z`.
pub open spec fn has_lower(text: Seq<char>) -> bool {
    exists|i: int| 0 <= i < text.len() && 97 <= (#[trigger] text[i]) as u32 <= 122
}

/// Whether a text holds a letter from `A` to `Z`.
pub open spec fn has_upper(text: Seq<char>) -> bool {
    exists|i: int| 0 <= i < text.len() && 65 <= (#[trigger] text[i]) as u32 <= 90
}

/// The text that `Address::encode` gives for a hash and a prefix, or `None`
/// where it refuses the prefix.
pub uninterp spec fn address_text(hash: Seq<u8>, prefix: Seq<char>) -> Option<Seq<char>>;

/// The hash and prefix that `Address::decode` reads from a text, or `None`
/// where it refuses the text.
pub uninterp spec fn address_parts(text: Seq<char>) -> Option<(Seq<u8>, Seq<char>)>;

/// Calls `chia_wallet_sdk::utils::Address::encode` on the hash and prefix.
/// The result depends on the two arguments alone, so it is named: the
/// contract claims that the call returns `address_text` of them, with an
/// error exactly where that is `None`, and that the only thing it refuses
/// is a prefix that is not valid: the one check that can fail in there is
/// the check of the prefix.
#[verifier::external_body]
pub(crate) fn encode_address(hash: &Bytes32, prefix: &str) -> (r: Result<
    String,
    chia_wallet_sdk::utils::Bech32Error,
>)
    ensures
        r matches Ok(text) ==> address_text(hash@, prefix@) == Some(text@),
        r is Err ==> address_text(hash@, prefix@) is None,
        r is Ok <==> valid_prefix(prefix@),
{
    let puzzle_hash = chia_wallet_sdk::chia::protocol::Bytes32::new(hash.data);
    chia_wallet_sdk::utils::Address::new(puzzle_hash, prefix.to_string()).encode()
}

/// Calls `chia_wallet_sdk::utils::Address::decode` on the text. The result
/// depends on the text alone, so it is named: the contract claims no more
/// than that the call returns `address_parts` of it, with an error exactly
/// where that is `None`.
#[verifier::external_body]
pub(crate) fn decode_address(text: &str) -> (r: Result<
    (Bytes32, String),
    chia_wallet_sdk::utils::Bech32Error,
>)
    ensures
        r matches Ok(parts) ==> address_parts(text@) == Some((parts.0@, parts.1@)),
        r is Err ==> address_parts(text@) is None,
{
    let address = chia_wallet_sdk::utils::Address::decode(text)?;
    Ok((Bytes32 { data: address.puzzle_hash.to_bytes() }, address.prefix))
}

} // verus!
