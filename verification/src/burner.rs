//! The burner's checks on the tokens it is given: exactly four tokens, each with
//! its token account and metadata, all minted by the merge candy machines and
//! owned by the payer.
use vstd::prelude::*;

use crate::error::MergeError;
use crate::keys::{candy_machine_keys, contains_key, keys_equal, merge_candy_machines};
use crate::state::{Creator, MetadataInfo, Pubkey, TokenAccountInfo};
use crate::trusted::{
    decode_metadata, decoded_metadata, token_account_fields, unpack_token_account,
};

verus! {

/// How many tokens are merged into a new one.
pub const AMOUNT_OF_NFTS_TO_MERGE: usize = 4;

/// Why the burner refuses a token.
#[derive(Clone, Copy, Debug, PartialEq, Eq, Structural)]
pub enum BurnError {
    /// One of the burner's own errors.
    Merge(MergeError),
    /// The token account's data is not a token account.
    InvalidTokenAccount,
    /// The token account is not initialized.
    UninitializedTokenAccount,
    /// The metadata cannot be read, or lists no creator: the program aborts.
    MalformedMetadata,
}

/// Refuses fewer or more accounts than the mint, token account and metadata of each
/// merged token.
pub fn check_remaining_accounts(count: usize) -> (r: Result<(), MergeError>)
    ensures
        r == if count < AMOUNT_OF_NFTS_TO_MERGE * 3 {
            Err::<(), MergeError>(MergeError::NotEnoughNftsError)
        } else if count > AMOUNT_OF_NFTS_TO_MERGE * 3 {
            Err::<(), MergeError>(MergeError::SuspiciousAccounts)
        } else {
            Ok::<(), MergeError>(())
        },
{
    if count < AMOUNT_OF_NFTS_TO_MERGE * 3 {
        return Err(MergeError::NotEnoughNftsError);
    }
    if count > AMOUNT_OF_NFTS_TO_MERGE * 3 {
        return Err(MergeError::SuspiciousAccounts);
    }
    Ok(())
}

/// Whether `k` is the address of one of the merge candy machines.
pub open spec fn is_merge_candy_machine(k: Seq<u8>) -> bool {
    exists|i: int| 0 <= i < merge_candy_machines().len() && merge_candy_machines()[i] == k
}

/// The verdict on a token, given its address, what its token account and metadata
/// hold (none when they do not decode), and the payer: the token account must be
/// initialized, its mint, the metadata's mint and the token's address must agree,
/// the payer must own it, and its first creator must be a merge candy machine that
/// verified it, i.e. the machine minted it.
pub open spec fn nft_verdict(
    nft: Seq<u8>,
    token: Option<(Seq<u8>, Seq<u8>, bool)>,
    metadata: Option<(Seq<u8>, Option<Seq<(Seq<u8>, bool, u8)>>)>,
    payer: Seq<u8>,
) -> Result<(), BurnError> {
    match token {
        None => Err(BurnError::InvalidTokenAccount),
        Some((token_mint, owner, initialized)) => if !initialized {
            Err(BurnError::UninitializedTokenAccount)
        } else {
            match metadata {
                None => Err(BurnError::MalformedMetadata),
                Some((mint, creators)) => if mint != token_mint || nft != mint {
                    Err(BurnError::Merge(MergeError::MintMismatch))
                } else if owner != payer {
                    Err(BurnError::Merge(MergeError::WrongOwner))
                } else if creators matches Some(cs) && cs.len() > 0 && cs[0].1 && is_merge_candy_machine(
                    cs[0].0,
                ) {
                    Ok(())
                } else {
                    Err(BurnError::Merge(MergeError::NotCyberGothicaNft))
                },
            }
        },
    }
}

/// The plain view of a read token account.
pub open spec fn token_view(t: Option<TokenAccountInfo>) -> Option<(Seq<u8>, Seq<u8>, bool)> {
    match t {
        None => None,
        Some(t) => Some((t.mint@, t.owner@, t.initialized)),
    }
}

/// The plain view of read metadata.
pub open spec fn metadata_view(m: Option<MetadataInfo>) -> Option<(Seq<u8>, Option<Seq<(Seq<u8>, bool, u8)>>)> {
    match m {
        None => None,
        Some(m) => Some(
            (
                m.mint@,
                match m.creators {
                    None => None,
                    Some(v) => Some(v@.map_values(|c: Creator| (c.address@, c.verified, c.share))),
                },
            ),
        ),
    }
}

/// Judges a token from what its token account and metadata hold.
pub fn judge_nft(
    nft: &Pubkey,
    token: Option<TokenAccountInfo>,
    metadata: Option<MetadataInfo>,
    payer: &Pubkey,
) -> (r: Result<(), BurnError>)
    ensures
        r == nft_verdict(nft@, token_view(token), metadata_view(metadata), payer@),
{
    let token = match token {
        Some(t) => t,
        None => return Err(BurnError::InvalidTokenAccount),
    };
    if !token.initialized {
        return Err(BurnError::UninitializedTokenAccount);
    }
    let metadata = match metadata {
        Some(m) => m,
        None => return Err(BurnError::MalformedMetadata),
    };
    if !keys_equal(&metadata.mint, &token.mint) || !keys_equal(nft, &metadata.mint) {
        return Err(BurnError::Merge(MergeError::MintMismatch));
    }
    if !keys_equal(&token.owner, payer) {
        return Err(BurnError::Merge(MergeError::WrongOwner));
    }
    let creators = match &metadata.creators {
        Some(cs) => cs,
        None => return Err(BurnError::Merge(MergeError::NotCyberGothicaNft)),
    };
    if creators.len() == 0 || !creators[0].verified {
        return Err(BurnError::Merge(MergeError::NotCyberGothicaNft));
    }
    let candy_machines = candy_machine_keys();
    let first = creators[0].address;
    let known = contains_key(&candy_machines, &first);
    proof {
        if known {
            let i = choose|i: int| 0 <= i < candy_machines@.len() && #[trigger] candy_machines@[i]@ == first@;
            assert(merge_candy_machines()[i] == first@);
        } else {
            assert forall|i: int| 0 <= i < merge_candy_machines().len() implies merge_candy_machines()[i]
                != first@ by {
                assert(candy_machines@[i]@ == merge_candy_machines()[i]);
            }
        }
    }
    if known {
        Ok(())
    } else {
        Err(BurnError::Merge(MergeError::NotCyberGothicaNft))
    }
}

/// Checks a token before it is burned: reads its token account, then its metadata,
/// and judges it.
pub fn check_nft(nft: &Pubkey, token_account_data: &[u8], metadata_data: &[u8], payer: &Pubkey) -> (r:
    Result<(), BurnError>)
    ensures
        r == nft_verdict(
            nft@,
            token_account_fields(token_account_data@),
            decoded_metadata(metadata_data@),
            payer@,
        ),
{
    let token = unpack_token_account(token_account_data);
    let metadata = match token {
        Some(t) => if t.initialized {
            decode_metadata(metadata_data)
        } else {
            None
        },
        None => None,
    };
    let ghost md = decoded_metadata(metadata_data@);
    proof {
        if token is Some && token->0.initialized {
            if metadata is Some {
                let m = metadata->0;
                if m.creators is Some {
                    let (_, cs) = md.unwrap();
                    assert(m.creators.unwrap()@.map_values(|c: Creator| (c.address@, c.verified, c.share))
                        =~= cs.unwrap());
                }
            }
        }
    }
    judge_nft(nft, token, metadata, payer)
}

/// The accounts of one token that is to be burned: its mint's address and the data
/// of its token account and of its metadata.
pub struct NftAccounts {
    pub mint: Pubkey,
    pub token_account_data: Vec<u8>,
    pub metadata_data: Vec<u8>,
}

/// What the burner does next.
#[derive(Clone, Copy, Debug, PartialEq, Eq, Structural)]
pub enum BurnStep {
    /// Burn the token at this position, then ask again from the next one.
    Burn(usize),
    /// Stop: every token was burned.
    Finished,
    /// Stop: the tokens are refused.
    Refused(BurnError),
}

/// The verdict on the token at position `i` of `nfts`.
pub open spec fn verdict_at(nfts: Seq<NftAccounts>, i: int, payer: Seq<u8>) -> Result<(), BurnError> {
    nft_verdict(
        nfts[i].mint@,
        token_account_fields(nfts[i].token_account_data@),
        decoded_metadata(nfts[i].metadata_data@),
        payer,
    )
}

/// The first refusal among the tokens at positions `i ..` of the four merged ones,
/// or none when all of them pass.
pub open spec fn refusal_from(nfts: Seq<NftAccounts>, payer: Seq<u8>, i: int) -> Option<BurnError>
    decreases AMOUNT_OF_NFTS_TO_MERGE - i,
{
    if i >= AMOUNT_OF_NFTS_TO_MERGE {
        None
    } else {
        match verdict_at(nfts, i, payer) {
            Err(e) => Some(e),
            Ok(()) => refusal_from(nfts, payer, i + 1),
        }
    }
}

/// The tokens pass exactly when each of the four does.
pub proof fn lemma_refusal_none_iff_all_pass(nfts: Seq<NftAccounts>, payer: Seq<u8>, i: int)
    requires
        0 <= i,
    ensures
        refusal_from(nfts, payer, i) is None <==> forall|j: int|
            i <= j < AMOUNT_OF_NFTS_TO_MERGE ==> #[trigger] verdict_at(nfts, j, payer) is Ok,
    decreases AMOUNT_OF_NFTS_TO_MERGE - i,
{
    if i < AMOUNT_OF_NFTS_TO_MERGE {
        lemma_refusal_none_iff_all_pass(nfts, payer, i + 1);
        if refusal_from(nfts, payer, i) is None {
            assert forall|j: int| i <= j < AMOUNT_OF_NFTS_TO_MERGE implies #[trigger] verdict_at(
                nfts,
                j,
                payer,
            ) is Ok by {
                if j > i {
                    assert(verdict_at(nfts, j, payer) is Ok);
                }
            }
        }
    }
}

/// The burner's next step once the tokens before position `next` were burned: it
/// refuses a wrong number of accounts, then checks all four tokens and refuses them
/// all at the first one that fails; only when every token passes does it burn, one
/// token per step, and stop after the last.
pub fn burn_nfts(remaining_accounts: usize, nfts: &Vec<NftAccounts>, next: usize, payer: &Pubkey) -> (r:
    BurnStep)
    requires
        remaining_accounts == AMOUNT_OF_NFTS_TO_MERGE * 3 ==> nfts@.len() == AMOUNT_OF_NFTS_TO_MERGE,
    ensures
        remaining_accounts < AMOUNT_OF_NFTS_TO_MERGE * 3 ==> r == BurnStep::Refused(
            BurnError::Merge(MergeError::NotEnoughNftsError),
        ),
        remaining_accounts > AMOUNT_OF_NFTS_TO_MERGE * 3 ==> r == BurnStep::Refused(
            BurnError::Merge(MergeError::SuspiciousAccounts),
        ),
        remaining_accounts == AMOUNT_OF_NFTS_TO_MERGE * 3 ==> r == match refusal_from(nfts@, payer@, 0) {
            Some(e) => BurnStep::Refused(e),
            None => if next < AMOUNT_OF_NFTS_TO_MERGE {
                BurnStep::Burn(next)
            } else {
                BurnStep::Finished
            },
        },
        r is Burn ==> forall|j: int|
            0 <= j < AMOUNT_OF_NFTS_TO_MERGE ==> #[trigger] verdict_at(nfts@, j, payer@) is Ok,
{
    match check_remaining_accounts(remaining_accounts) {
        Ok(()) => {},
        Err(e) => return BurnStep::Refused(BurnError::Merge(e)),
    }
    let mut i: usize = 0;
    while i < AMOUNT_OF_NFTS_TO_MERGE
        invariant
            i <= AMOUNT_OF_NFTS_TO_MERGE,
            nfts@.len() == AMOUNT_OF_NFTS_TO_MERGE,
            remaining_accounts == AMOUNT_OF_NFTS_TO_MERGE * 3,
            refusal_from(nfts@, payer@, 0) == refusal_from(nfts@, payer@, i as int),
        decreases AMOUNT_OF_NFTS_TO_MERGE - i,
    {
        let nft = &nfts[i];
        match check_nft(&nft.mint, nft.token_account_data.as_slice(), nft.metadata_data.as_slice(), payer) {
            Ok(()) => {},
            Err(e) => return BurnStep::Refused(e),
        }
        i = i + 1;
    }
    proof {
        lemma_refusal_none_iff_all_pass(nfts@, payer@, 0);
    }
    if next < AMOUNT_OF_NFTS_TO_MERGE {
        BurnStep::Burn(next)
    } else {
        BurnStep::Finished
    }
}

/// Only tokens of the merge collection are burned: a token that passes the checks
/// has an initialized token account owned by the payer, holding the token's mint,
/// and metadata for the same mint whose first creator is a merge candy machine that
/// verified it.
pub proof fn lemma_accepted_nft_belongs_to_payer_and_collection(
    nft: Seq<u8>,
    token: Option<(Seq<u8>, Seq<u8>, bool)>,
    metadata: Option<(Seq<u8>, Option<Seq<(Seq<u8>, bool, u8)>>)>,
    payer: Seq<u8>,
)
    requires
        nft_verdict(nft, token, metadata, payer) is Ok,
    ensures
        token matches Some((token_mint, owner, initialized)) && initialized && owner == payer
            && token_mint == nft,
        metadata matches Some((mint, creators)) && mint == nft && (creators matches Some(cs)
            && cs.len() > 0 && cs[0].1 && is_merge_candy_machine(cs[0].0)),
{
}

/// A token is accepted exactly when its token account is initialized, owned by the
/// payer and holds the token's mint, its metadata is for that mint, and its first
/// creator is one of the two merge candy machines and verified it, whatever the
/// creators' shares.
pub proof fn lemma_nft_accepted_iff(
    nft: Seq<u8>,
    token: Option<(Seq<u8>, Seq<u8>, bool)>,
    metadata: Option<(Seq<u8>, Option<Seq<(Seq<u8>, bool, u8)>>)>,
    payer: Seq<u8>,
)
    ensures
        nft_verdict(nft, token, metadata, payer) is Ok <==> {
            &&& token matches Some((token_mint, owner, initialized))
            &&& initialized
            &&& owner == payer
            &&& token_mint == nft
            &&& metadata matches Some((mint, Some(cs)))
            &&& mint == nft
            &&& cs.len() > 0
            &&& cs[0].1
            &&& (cs[0].0 == merge_candy_machines()[0] || cs[0].0 == merge_candy_machines()[1])
        },
{
    if let Some((mint, Some(cs))) = metadata {
        if cs.len() > 0 {
            if cs[0].0 == merge_candy_machines()[0] {
                assert(is_merge_candy_machine(cs[0].0));
            }
            if cs[0].0 == merge_candy_machines()[1] {
                assert(is_merge_candy_machine(cs[0].0));
            }
        }
    }
}

/// Why a token is refused: a token account that does not decode, then one that is
/// not initialized, then metadata that does not decode, then mints that disagree,
/// then an owner other than the payer; any other refusal says the token is not of
/// the collection.
pub proof fn lemma_nft_refusal_reasons(
    nft: Seq<u8>,
    token: Option<(Seq<u8>, Seq<u8>, bool)>,
    metadata: Option<(Seq<u8>, Option<Seq<(Seq<u8>, bool, u8)>>)>,
    payer: Seq<u8>,
)
    ensures
        token is None ==> nft_verdict(nft, token, metadata, payer) == Err::<(), BurnError>(
            BurnError::InvalidTokenAccount,
        ),
        token matches Some((_, _, initialized)) && !initialized ==> nft_verdict(nft, token, metadata, payer)
            == Err::<(), BurnError>(BurnError::UninitializedTokenAccount),
        token matches Some((_, _, initialized)) && initialized && metadata is None ==> nft_verdict(
            nft,
            token,
            metadata,
            payer,
        ) == Err::<(), BurnError>(BurnError::MalformedMetadata),
        token is Some && (token->0).2 && metadata is Some && ((metadata->0).0 != (token->0).0 || nft
            != (metadata->0).0) ==> nft_verdict(nft, token, metadata, payer) == Err::<(), BurnError>(
            BurnError::Merge(MergeError::MintMismatch),
        ),
        token is Some && (token->0).2 && metadata is Some && (metadata->0).0 == (token->0).0 && nft
            == (metadata->0).0 && (token->0).1 != payer ==> nft_verdict(nft, token, metadata, payer)
            == Err::<(), BurnError>(BurnError::Merge(MergeError::WrongOwner)),
        token is Some && (token->0).2 && metadata is Some && (metadata->0).0 == (token->0).0 && nft
            == (metadata->0).0 && (token->0).1 == payer && nft_verdict(nft, token, metadata, payer) is Err
            ==> nft_verdict(nft, token, metadata, payer) == Err::<(), BurnError>(
            BurnError::Merge(MergeError::NotCyberGothicaNft),
        ),
{
}

} // verus!
