use nft_merge::gateway::gateway_token_valid_in;
use std::str::FromStr;

use anchor_lang::AnchorSerialize;
use metaplex_token_metadata::state::{Creator as MdCreator, Data, Key, Metadata};
use nft_merge::burner::{
    burn_nfts, check_nft, check_remaining_accounts, BurnError, BurnStep, NftAccounts,
    AMOUNT_OF_NFTS_TO_MERGE,
};
use nft_merge::error::MergeError;
use nft_merge::instructions::{check_instructions, check_mint_transaction, merge_program_ids, InstructionCheck};
use nft_merge::keys::{candy_machine_keys, nft_merge_burner_id, nft_merge_minter_id};
use solana_program::program_option::COption;
use solana_program::program_pack::Pack;
use solana_program::pubkey::Pubkey;
use spl_token::state::{Account, AccountState};

fn key(text: &str) -> [u8; 32] {
    Pubkey::from_str(text).unwrap().to_bytes()
}

#[test]
fn known_addresses_decode_from_their_base58_text() {
    assert_eq!(nft_merge_minter_id(), key("3igxATX3UJwWLcKCutKsbTF22wU1Hbvb9LCVNmqLPSSM"));
    assert_eq!(nft_merge_burner_id(), key("6vXpr44iixcD9j5Nkim5f49d29weie2uvRWAPyoyjEB9"));
    assert_eq!(
        candy_machine_keys(),
        vec![
            key("9GkEPXXrb6Z11MUHwMbDuRQSpHETa5bReQtaH71txAEQ"),
            key("DmeJsA7tRtxwfng98t1SJRr1oD87AWbZyCf7mHYS57rC"),
        ]
    );
    let ids = merge_program_ids().unwrap();
    assert_eq!(ids.token, spl_token::id().to_bytes());
    assert_eq!(ids.system, solana_program::system_program::id().to_bytes());
    assert_eq!(ids.associated_token, key("ATokenGPvbdGVxr1b2hvZbsiqW5xWH25efTNsLJA8knL"));
    assert_ne!(ids.associated_token, [0u8; 32]);
    assert_eq!(ids.minter, nft_merge_minter_id());
    assert_eq!(ids.burner, nft_merge_burner_id());
}

/// A serialized instruction list whose instructions call `programs`, each with
/// `accounts` accounts.
fn instruction_list(programs: &[[u8; 32]], accounts: u16) -> Vec<u8> {
    let n = programs.len();
    let mut out = Vec::new();
    out.extend_from_slice(&(n as u16).to_le_bytes());
    let header = 2 + 2 * n;
    let body = 2 + 33 * accounts as usize + 32 + 4;
    for i in 0..n {
        out.extend_from_slice(&((header + i * body) as u16).to_le_bytes());
    }
    for p in programs {
        out.extend_from_slice(&accounts.to_le_bytes());
        for a in 0..accounts {
            out.push(a as u8 & 1);
            out.extend_from_slice(&[a as u8; 32]);
        }
        out.extend_from_slice(p);
        out.extend_from_slice(&[0, 1, 2, 3]);
    }
    out
}

#[test]
fn transaction_with_burn_is_approved() {
    let ids = merge_program_ids().unwrap();
    let list = instruction_list(&[ids.system, ids.burner, ids.minter], 2);
    assert_eq!(check_instructions(&list, &ids), InstructionCheck::Approved);
    assert_eq!(check_mint_transaction(&list), InstructionCheck::Approved);
}

#[test]
fn transaction_without_burn_is_refused() {
    let ids = merge_program_ids().unwrap();
    let list = instruction_list(&[ids.token, ids.minter], 1);
    assert_eq!(check_mint_transaction(&list), InstructionCheck::NoBurnInstruction);
    assert_eq!(check_mint_transaction(&instruction_list(&[], 0)), InstructionCheck::NoBurnInstruction);
}

#[test]
fn transaction_calling_unknown_program_is_suspicious() {
    let ids = merge_program_ids().unwrap();
    let list = instruction_list(&[ids.burner, [42u8; 32], ids.minter], 3);
    assert_eq!(check_mint_transaction(&list), InstructionCheck::SuspiciousTransaction);
}

#[test]
fn unreadable_instruction_lists() {
    assert_eq!(check_mint_transaction(&[7u8]), InstructionCheck::InvalidAccountData);
    let ids = merge_program_ids().unwrap();
    let mut list = instruction_list(&[ids.burner, ids.minter], 1);
    list.truncate(list.len() - 10);
    assert_eq!(check_mint_transaction(&list), InstructionCheck::Malformed);
    // A list announcing more instructions than it holds.
    let mut short = instruction_list(&[ids.burner], 0);
    short[0] = 2;
    assert_eq!(check_mint_transaction(&short), InstructionCheck::Malformed);
}

#[test]
fn account_count_must_be_three_per_token() {
    assert_eq!(AMOUNT_OF_NFTS_TO_MERGE, 4);
    assert_eq!(check_remaining_accounts(11), Err(MergeError::NotEnoughNftsError));
    assert_eq!(check_remaining_accounts(13), Err(MergeError::SuspiciousAccounts));
    assert_eq!(check_remaining_accounts(12), Ok(()));
}

fn token_account(mint: [u8; 32], owner: [u8; 32], state: AccountState) -> Vec<u8> {
    let account = Account {
        mint: Pubkey::new_from_array(mint),
        owner: Pubkey::new_from_array(owner),
        amount: 1,
        delegate: COption::None,
        state,
        is_native: COption::None,
        delegated_amount: 0,
        close_authority: COption::None,
    };
    let mut data = vec![0u8; Account::LEN];
    Account::pack(account, &mut data).unwrap();
    data
}

fn metadata(mint: [u8; 32], creators: Option<Vec<[u8; 32]>>) -> Vec<u8> {
    metadata_with(mint, creators.map(|cs| cs.into_iter().map(|c| (c, true)).collect()))
}

fn metadata_with(mint: [u8; 32], creators: Option<Vec<([u8; 32], bool)>>) -> Vec<u8> {
    let md = Metadata {
        key: Key::MetadataV1,
        update_authority: Pubkey::new_from_array([3u8; 32]),
        mint: Pubkey::new_from_array(mint),
        data: Data {
            name: "Cyber Gothica #1".to_string(),
            symbol: "CG".to_string(),
            uri: "https://example/1.json".to_string(),
            seller_fee_basis_points: 500,
            creators: creators.map(|cs| {
                cs.into_iter()
                    .map(|(c, verified)| MdCreator { address: Pubkey::new_from_array(c), verified, share: 100 })
                    .collect()
            }),
        },
        primary_sale_happened: false,
        is_mutable: true,
        edition_nonce: None,
    };
    let mut data = md.try_to_vec().unwrap();
    data.extend_from_slice(&[0u8; 64]);
    data
}

const PAYER: [u8; 32] = [9u8; 32];
const MINT: [u8; 32] = [4u8; 32];

fn collection() -> [u8; 32] {
    key("9GkEPXXrb6Z11MUHwMbDuRQSpHETa5bReQtaH71txAEQ")
}

#[test]
fn token_of_the_collection_is_accepted() {
    let t = token_account(MINT, PAYER, AccountState::Initialized);
    let m = metadata(MINT, Some(vec![collection(), [8u8; 32]]));
    assert_eq!(check_nft(&MINT, &t, &m, &PAYER), Ok(()));
    let m2 = metadata(MINT, Some(vec![key("DmeJsA7tRtxwfng98t1SJRr1oD87AWbZyCf7mHYS57rC")]));
    assert_eq!(check_nft(&MINT, &t, &m2, &PAYER), Ok(()));
}

#[test]
fn token_from_another_collection_is_refused() {
    let t = token_account(MINT, PAYER, AccountState::Initialized);
    let m = metadata(MINT, Some(vec![[8u8; 32], collection()]));
    assert_eq!(check_nft(&MINT, &t, &m, &PAYER), Err(BurnError::Merge(MergeError::NotCyberGothicaNft)));
}

#[test]
fn token_of_someone_else_is_refused() {
    let t = token_account(MINT, [1u8; 32], AccountState::Initialized);
    let m = metadata(MINT, Some(vec![collection()]));
    assert_eq!(check_nft(&MINT, &t, &m, &PAYER), Err(BurnError::Merge(MergeError::WrongOwner)));
}

#[test]
fn mismatched_mints_are_refused() {
    let t = token_account(MINT, PAYER, AccountState::Initialized);
    let m = metadata([5u8; 32], Some(vec![collection()]));
    assert_eq!(check_nft(&MINT, &t, &m, &PAYER), Err(BurnError::Merge(MergeError::MintMismatch)));
    let m = metadata(MINT, Some(vec![collection()]));
    assert_eq!(check_nft(&[5u8; 32], &t, &m, &PAYER), Err(BurnError::Merge(MergeError::MintMismatch)));
}

#[test]
fn bad_token_accounts_are_refused() {
    let m = metadata(MINT, Some(vec![collection()]));
    let t = token_account(MINT, PAYER, AccountState::Uninitialized);
    assert_eq!(check_nft(&MINT, &t, &m, &PAYER), Err(BurnError::UninitializedTokenAccount));
    let mut bad_state = token_account(MINT, PAYER, AccountState::Initialized);
    bad_state[108] = 7;
    assert_eq!(check_nft(&MINT, &bad_state, &m, &PAYER), Err(BurnError::InvalidTokenAccount));
    assert_eq!(check_nft(&MINT, &[0u8; 10], &m, &PAYER), Err(BurnError::InvalidTokenAccount));
    let frozen = token_account(MINT, PAYER, AccountState::Frozen);
    assert_eq!(check_nft(&MINT, &frozen, &m, &PAYER), Ok(()));
}

#[test]
fn malformed_metadata_aborts() {
    let t = token_account(MINT, PAYER, AccountState::Initialized);
    assert_eq!(check_nft(&MINT, &t, &[1u8, 2, 3], &PAYER), Err(BurnError::MalformedMetadata));
}

#[test]
fn token_without_creators_is_foreign() {
    let t = token_account(MINT, PAYER, AccountState::Initialized);
    let no_creators = metadata(MINT, None);
    assert_eq!(check_nft(&MINT, &t, &no_creators, &PAYER), Err(BurnError::Merge(MergeError::NotCyberGothicaNft)));
    let empty = metadata(MINT, Some(vec![]));
    assert_eq!(check_nft(&MINT, &t, &empty, &PAYER), Err(BurnError::Merge(MergeError::NotCyberGothicaNft)));
}

#[test]
fn token_whose_machine_did_not_verify_it_is_foreign() {
    let t = token_account(MINT, PAYER, AccountState::Initialized);
    let unverified = metadata_with(MINT, Some(vec![(collection(), false)]));
    assert_eq!(check_nft(&MINT, &t, &unverified, &PAYER), Err(BurnError::Merge(MergeError::NotCyberGothicaNft)));
    let verified = metadata_with(MINT, Some(vec![(collection(), true), ([8u8; 32], false)]));
    assert_eq!(check_nft(&MINT, &t, &verified, &PAYER), Ok(()));
}

fn nft(mint: [u8; 32], first_creator: [u8; 32]) -> NftAccounts {
    NftAccounts {
        mint,
        token_account_data: token_account(mint, PAYER, AccountState::Initialized),
        metadata_data: metadata(mint, Some(vec![first_creator])),
    }
}

#[test]
fn burner_steps_through_the_tokens() {
    let nfts: Vec<NftAccounts> = (0..4u8).map(|i| nft([10 + i; 32], collection())).collect();
    assert_eq!(burn_nfts(12, &nfts, 0, &PAYER), BurnStep::Burn(0));
    assert_eq!(burn_nfts(12, &nfts, 3, &PAYER), BurnStep::Burn(3));
    assert_eq!(burn_nfts(12, &nfts, 4, &PAYER), BurnStep::Finished);
    assert_eq!(
        burn_nfts(9, &nfts, 0, &PAYER),
        BurnStep::Refused(BurnError::Merge(MergeError::NotEnoughNftsError))
    );
    assert_eq!(
        burn_nfts(15, &nfts, 0, &PAYER),
        BurnStep::Refused(BurnError::Merge(MergeError::SuspiciousAccounts))
    );
}

#[test]
fn burner_stops_at_a_foreign_token() {
    let mut nfts: Vec<NftAccounts> = (0..4u8).map(|i| nft([10 + i; 32], collection())).collect();
    nfts[2] = nft([20u8; 32], [8u8; 32]);
    // No token is burned, not even those before the foreign one.
    for next in 0..5 {
        assert_eq!(
            burn_nfts(12, &nfts, next, &PAYER),
            BurnStep::Refused(BurnError::Merge(MergeError::NotCyberGothicaNft))
        );
    }
    // The first refusal is the one given.
    nfts[1].token_account_data = token_account([11u8; 32], [1u8; 32], AccountState::Initialized);
    assert_eq!(burn_nfts(12, &nfts, 0, &PAYER), BurnStep::Refused(BurnError::Merge(MergeError::WrongOwner)));
}

/// A gateway token for `wallet` on `network`, with a parent token, in `state`, with
/// the expiry time `expiry`.
fn gateway_token(wallet: [u8; 32], network: [u8; 32], state: u8, expiry: Option<i64>) -> Vec<u8> {
    let mut d = vec![0u8, 1];
    d.extend_from_slice(&[5u8; 32]);
    d.extend_from_slice(&wallet);
    d.push(0);
    d.extend_from_slice(&network);
    d.extend_from_slice(&[6u8; 32]);
    d.push(state);
    match expiry {
        None => d.push(0),
        Some(t) => {
            d.push(1);
            d.extend_from_slice(&t.to_le_bytes());
        }
    }
    d
}

#[test]
fn gateway_tokens_are_checked() {
    let gateway = key("gatem74V238djXdzWnJf94Wo1DcnuGkfijbf3AuBhfs");
    let net = [7u8; 32];
    let good = gateway_token(PAYER, net, 0, Some(1_000));
    assert!(gateway_token_valid_in(&gateway, &good, &net, &PAYER, 999));
    assert!(!gateway_token_valid_in(&gateway, &good, &net, &PAYER, 1_000));
    assert!(gateway_token_valid_in(&gateway, &gateway_token(PAYER, net, 0, None), &net, &PAYER, i64::MAX));
    assert!(!gateway_token_valid_in(&[1u8; 32], &good, &net, &PAYER, 0));
    assert!(!gateway_token_valid_in(&gateway, &good, &[8u8; 32], &PAYER, 0));
    assert!(!gateway_token_valid_in(&gateway, &good, &net, &[1u8; 32], 0));
    assert!(!gateway_token_valid_in(&gateway, &gateway_token(PAYER, net, 1, None), &net, &PAYER, 0));
    assert!(!gateway_token_valid_in(&gateway, &good[..good.len() - 3], &net, &PAYER, 0));
    let mut bad_tag = good.clone();
    bad_tag[1] = 2;
    assert!(!gateway_token_valid_in(&gateway, &bad_tag, &net, &PAYER, 0));
    let negative = gateway_token(PAYER, net, 0, Some(-5));
    assert!(gateway_token_valid_in(&gateway, &negative, &net, &PAYER, -6));
    assert!(!gateway_token_valid_in(&gateway, &negative, &net, &PAYER, 0));
}
