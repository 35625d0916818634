//! Calls into the standard library and outside crates, with the contracts that
//! their documentation or source gives them. Nothing here is proved.
use metaplex_token_metadata::state::Metadata;
use solana_program::borsh::try_from_slice_unchecked;
use solana_program::program_pack::{IsInitialized, Pack};
use solana_program::pubkey::Pubkey;
use solana_program::sanitize::SanitizeError;
use solana_program::serialize_utils::{read_pubkey, read_u16};
use std::str::FromStr;
use vstd::prelude::*;
use vstd::utf8::{decode_utf8, valid_utf8};

use crate::state::{Creator, MetadataInfo, TokenAccountInfo};

verus! {

/// `String::from_utf8`: the bytes become a string exactly when they are valid
/// UTF-8, and the string holds the characters that they encode.
#[verifier::external_body]
pub(crate) fn utf8_string(bytes: Vec<u8>) -> (r: Option<String>)
    ensures
        r is Some <==> valid_utf8(bytes@),
        r matches Some(s) ==> s@ == decode_utf8(bytes@),
{
    String::from_utf8(bytes).ok()
}

/// Error of the serialization helpers of `solana_program`.
#[verifier::external_type_specification]
#[verifier::external_body]
pub struct ExSanitizeError(SanitizeError);

/// `solana_program::serialize_utils::read_u16`: when two bytes are left at
/// `current`, gives back their little-endian value and moves `current` past them;
/// otherwise fails and leaves `current` alone.
#[verifier::external_body]
pub(crate) fn read_u16_at(current: &mut usize, data: &[u8]) -> (r: Result<u16, SanitizeError>)
    requires
        *old(current) + 2 <= usize::MAX,
    ensures
        *old(current) + 2 <= data@.len() ==> r == Ok::<u16, SanitizeError>(
            (data@[*old(current) as int] + 256 * data@[*old(current) + 1]) as u16,
        ) && *final(current) == *old(current) + 2,
        *old(current) + 2 > data@.len() ==> r is Err && *final(current) == *old(current),
{
    read_u16(current, data)
}

/// `solana_program::serialize_utils::read_pubkey`: when 32 bytes are left at
/// `current`, gives back those bytes as an address and moves `current` past them;
/// otherwise fails and leaves `current` alone.
#[verifier::external_body]
pub(crate) fn read_pubkey_at(current: &mut usize, data: &[u8]) -> (r: Result<
    [u8; 32],
    SanitizeError,
>)
    requires
        *old(current) + 32 <= usize::MAX,
    ensures
        *old(current) + 32 <= data@.len() ==> (r matches Ok(k) && k@ == data@.subrange(
            *old(current) as int,
            *old(current) + 32,
        )) && *final(current) == *old(current) + 32,
        *old(current) + 32 > data@.len() ==> r is Err && *final(current) == *old(current),
{
    match read_pubkey(current, data) {
        Ok(k) => Ok(k.to_bytes()),
        Err(e) => Err(e),
    }
}

/// The address that `Pubkey::from_str` decodes from a base58 text, or none when it
/// fails.
pub uninterp spec fn base58_pubkey(text: Seq<char>) -> Option<Seq<u8>>;

/// `Pubkey::from_str`: decodes a base58 text into an address.
#[verifier::external_body]
pub(crate) fn parse_pubkey(text: &str) -> (r: Option<[u8; 32]>)
    ensures
        r is Some <==> base58_pubkey(text@) is Some,
        r matches Some(k) ==> base58_pubkey(text@) == Some(k@),
{
    match Pubkey::from_str(text) {
        Ok(k) => Some(k.to_bytes()),
        Err(_) => None,
    }
}

/// `spl_token::id()`: the token program's address, which `spl_token` declares as
/// `TokenkegQfeZyiNwAJbNbGKPFXCWuBvf9Ss623VQ5DA`.
#[verifier::external_body]
pub(crate) fn token_program_id() -> (r: [u8; 32])
    ensures
        r@ == seq![6u8, 221, 246, 225, 215, 101, 161, 147, 217, 203, 225, 70, 206, 235, 121, 172,
        28, 180, 133, 237, 95, 91, 55, 145, 58, 140, 245, 133, 126, 255, 0, 169],
{
    spl_token::id().to_bytes()
}

/// `solana_program::system_program::id()`: the system program's address,
/// `11111111111111111111111111111111`, whose bytes are all zero.
#[verifier::external_body]
pub(crate) fn system_program_id() -> (r: [u8; 32])
    ensures
        r@ == Seq::new(32, |_i: int| 0u8),
{
    solana_program::system_program::id().to_bytes()
}

/// Whether the four bytes at `off` are the tag of an absent (0) or present (1)
/// optional field, as a little-endian `u32`.
pub open spec fn option_tag_ok(d: Seq<u8>, off: int) -> bool {
    (d[off] == 0 || d[off] == 1) && d[off + 1] == 0 && d[off + 2] == 0 && d[off + 3] == 0
}

/// The mint, the owner and whether the account is initialized, as `spl_token`'s
/// `Account::unpack_unchecked` reads them from an account's data: it takes exactly
/// 165 bytes, with the mint at 0, the owner at 32, optional delegate, native amount
/// and close authority whose tags are at 72, 109 and 129, and the state byte at 108,
/// which is 0 (uninitialized), 1 (initialized) or 2 (frozen).
pub open spec fn token_account_fields(data: Seq<u8>) -> Option<(Seq<u8>, Seq<u8>, bool)> {
    if data.len() == 165 && option_tag_ok(data, 72) && data[108] <= 2 && option_tag_ok(data, 109)
        && option_tag_ok(data, 129) {
        Some((data.subrange(0, 32), data.subrange(32, 64), data[108] != 0))
    } else {
        None
    }
}

/// `spl_token::state::Account::unpack_unchecked` and `is_initialized`: reads a token
/// account, or fails (with `InvalidAccountData`) when the data is not one.
#[verifier::external_body]
pub(crate) fn unpack_token_account(data: &[u8]) -> (r: Option<TokenAccountInfo>)
    ensures
        match token_account_fields(data@) {
            None => r is None,
            Some((mint, owner, initialized)) => r matches Some(t) && t.mint@ == mint && t.owner@
                == owner && t.initialized == initialized,
        },
{
    match spl_token::state::Account::unpack_unchecked(data) {
        Ok(a) => Some(
            TokenAccountInfo {
                mint: a.mint.to_bytes(),
                owner: a.owner.to_bytes(),
                initialized: a.is_initialized(),
            },
        ),
        Err(_) => None,
    }
}

/// The mint and the creators (address, verified flag, share) of the token metadata
/// that `try_from_slice_unchecked::<Metadata>` decodes from the start of the data, or
/// none when the data does not hold one.
pub uninterp spec fn decoded_metadata(data: Seq<u8>) -> Option<
    (Seq<u8>, Option<Seq<(Seq<u8>, bool, u8)>>),
>;

/// `solana_program::borsh::try_from_slice_unchecked::<Metadata>`: decodes the token
/// metadata at the start of the data, keeping its mint and its creators.
#[verifier::external_body]
pub(crate) fn decode_metadata(data: &[u8]) -> (r: Option<MetadataInfo>)
    ensures
        match decoded_metadata(data@) {
            None => r is None,
            Some((mint, creators)) => r matches Some(m) && m.mint@ == mint && match creators {
                None => m.creators is None,
                Some(cs) => m.creators matches Some(v) && v@.len() == cs.len() && forall|i: int|
                    0 <= i < v@.len() ==> #[trigger] v@[i].address@ == cs[i].0 && v@[i].verified
                        == cs[i].1 && v@[i].share == cs[i].2,
            },
        },
{
    match try_from_slice_unchecked::<Metadata>(data) {
        Ok(md) => Some(
            MetadataInfo {
                mint: md.mint.to_bytes(),
                creators: md.data.creators.map(|cs| {
                    cs.iter().map(|c| Creator {
                        address: c.address.to_bytes(),
                        verified: c.verified,
                        share: c.share,
                    }).collect()
                }),
            },
        ),
        Err(_) => None,
    }
}

} // verus!
