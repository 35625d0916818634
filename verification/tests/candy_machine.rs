use metaplex_token_metadata::state as md;
use nft_merge::bitmask::get_good_index;
use nft_merge::candy::{
    MintError, assert_owned_by, get_space_for_candy, initialize_candy_machine, mint_nft, update_authority,
    update_candy_machine, withdraw_funds, write_candy_machine_account,
};
use nft_merge::config_lines::{add_config_lines, config_line_fits_in, get_config_count, get_config_line};
use nft_merge::error::{ErrorCode, MergeError};
use nft_merge::layout::{
    CONFIG_ARRAY_START, CONFIG_LINE_SIZE, MAX_CREATOR_LEN, MAX_CREATOR_LIMIT, MAX_NAME_LENGTH,
    MAX_SYMBOL_LENGTH, MAX_URI_LENGTH,
};
use nft_merge::state::{
    CandyMachine, CandyMachineData, ConfigLine, Creator, GatekeeperConfig, HiddenSettings,
};

fn settings(items: u64, hidden: Option<HiddenSettings>) -> CandyMachineData {
    CandyMachineData {
        uuid: "ABCDEF".to_string(),
        price: 1_000_000,
        symbol: "CG".to_string(),
        seller_fee_basis_points: 500,
        max_supply: 0,
        is_mutable: true,
        retain_authority: true,
        go_live_date: None,
        end_settings: None,
        creators: vec![Creator { address: [7u8; 32], verified: false, share: 100 }],
        hidden_settings: hidden,
        whitelist_mint_settings: None,
        items_available: items,
        gatekeeper: None,
    }
}

fn machine(items: u64, hidden: Option<HiddenSettings>) -> CandyMachine {
    CandyMachine {
        authority: [1u8; 32],
        wallet: [2u8; 32],
        token_mint: None,
        items_redeemed: 0,
        data: settings(items, hidden),
    }
}

fn account_for(items: u64) -> Vec<u8> {
    let space = get_space_for_candy(settings(items, None)).unwrap();
    vec![0u8; space]
}

fn minted_start(items: usize) -> usize {
    CONFIG_ARRAY_START + 4 + items * CONFIG_LINE_SIZE + 4 + items / 8 + 4
}

fn added_start(items: usize) -> usize {
    CONFIG_ARRAY_START + 4 + items * CONFIG_LINE_SIZE + 4
}

fn line(name: &str, uri: &str) -> ConfigLine {
    ConfigLine { name: name.to_string(), uri: uri.to_string() }
}

#[test]
fn layout_matches_token_metadata_program() {
    assert_eq!(MAX_NAME_LENGTH, md::MAX_NAME_LENGTH);
    assert_eq!(MAX_SYMBOL_LENGTH, md::MAX_SYMBOL_LENGTH);
    assert_eq!(MAX_URI_LENGTH, md::MAX_URI_LENGTH);
    assert_eq!(MAX_CREATOR_LIMIT, md::MAX_CREATOR_LIMIT);
    assert_eq!(MAX_CREATOR_LEN, md::MAX_CREATOR_LEN);
    assert_eq!(CONFIG_ARRAY_START, 713);
    assert_eq!(CONFIG_LINE_SIZE, 240);
}

#[test]
fn error_codes_are_positions() {
    assert_eq!(ErrorCode::NoBurnInstruction.code(), 0);
    assert_eq!(ErrorCode::CandyMachineEmpty.code(), 11);
    assert_eq!(ErrorCode::SuspiciousTransaction.code(), 25);
    assert_eq!(ErrorCode::CannotSwitchToHiddenSettings.code(), 26);
    assert_eq!(MergeError::NotEnoughNftsError.code(), 0);
    assert_eq!(MergeError::SuspiciousAccounts.code(), 4);
    assert_ne!(ErrorCode::MintMismatch.code(), ErrorCode::IncorrectOwner.code());
}

#[test]
fn space_for_candy() {
    let hidden = HiddenSettings { name: "N".into(), uri: "U".into(), hash: [0u8; 32] };
    assert_eq!(get_space_for_candy(settings(10, Some(hidden))), Ok(713));
    assert_eq!(get_space_for_candy(settings(10, None)), Ok(713 + 4 + 2400 + 8 + 2 * 2));
    assert_eq!(get_space_for_candy(settings(0, None)), Ok(713 + 4 + 8 + 2));
}

#[test]
fn config_count_is_little_endian() {
    let mut data = vec![0u8; CONFIG_ARRAY_START + 4];
    data[CONFIG_ARRAY_START] = 0x34;
    data[CONFIG_ARRAY_START + 1] = 0x12;
    data[CONFIG_ARRAY_START + 3] = 0x01;
    assert_eq!(get_config_count(&data), Ok(0x0100_1234));
}

#[test]
fn add_config_lines_refuses_index_past_last_line() {
    let cm = machine(3, None);
    let mut data = account_for(3);
    let before = data.clone();
    assert_eq!(
        add_config_lines(&cm, &mut data, 3, &vec![line("a", "b")]),
        Err(ErrorCode::IndexGreaterThanLength)
    );
    assert_eq!(data, before);
}

#[test]
fn add_config_lines_refuses_hidden_settings() {
    let hidden = HiddenSettings { name: "N".into(), uri: "U".into(), hash: [0u8; 32] };
    let cm = machine(3, Some(hidden));
    let mut data = account_for(3);
    assert_eq!(
        add_config_lines(&cm, &mut data, 0, &vec![line("a", "b")]),
        Err(ErrorCode::HiddenSettingsConfigsDoNotHaveConfigLines)
    );
}

#[test]
fn add_config_lines_writes_records_flags_and_count() {
    let cm = machine(10, None);
    let mut data = account_for(10);
    let lines = vec![line("Gothic #1", "https://x/1.json"), line("Gothic #2", "https://x/2.json")];
    assert_eq!(add_config_lines(&cm, &mut data, 3, &lines), Ok(()));
    assert_eq!(get_config_count(&data), Ok(2));
    let base = CONFIG_ARRAY_START + 4 + 3 * CONFIG_LINE_SIZE;
    assert_eq!(&data[base..base + 4], &[32, 0, 0, 0]);
    assert_eq!(&data[base + 4..base + 13], b"Gothic #1");
    assert!(data[base + 13..base + 36].iter().all(|b| *b == 0));
    assert_eq!(&data[base + 36..base + 40], &[200, 0, 0, 0]);
    assert_eq!(&data[base + 40..base + 56], b"https://x/1.json");
    // Lines 3 and 4 are flagged in the first byte of the added-lines bitmask.
    assert_eq!(data[added_start(10)], 0b0001_1000);
}

#[test]
fn readding_lines_changes_nothing() {
    let cm = machine(10, None);
    let mut data = account_for(10);
    let lines = vec![line("A", "u1"), line("B", "u2"), line("C", "u3")];
    add_config_lines(&cm, &mut data, 0, &lines).unwrap();
    let once = data.clone();
    add_config_lines(&cm, &mut data, 0, &lines).unwrap();
    assert_eq!(data, once);
    assert_eq!(get_config_count(&data), Ok(3));
    // Overlapping lines count only the new ones.
    add_config_lines(&cm, &mut data, 2, &vec![line("D", "u4"), line("E", "u5")]).unwrap();
    assert_eq!(get_config_count(&data), Ok(4));
}

#[test]
fn good_index_forward_takes_first_free_line() {
    let items = 20usize;
    let mut data = vec![0u8; minted_start(items) + 3];
    let start = minted_start(items);
    data[start] = 0b1110_0000; // lines 0, 1, 2 minted
    assert_eq!(get_good_index(&mut data, items, 1, true), Ok((3, true)));
    assert_eq!(data[start], 0b1111_0000);
}

#[test]
fn good_index_skips_full_bytes() {
    let items = 20usize;
    let mut data = vec![0u8; minted_start(items) + 3];
    let start = minted_start(items);
    data[start] = 0xff;
    data[start + 1] = 0b1000_0000;
    assert_eq!(get_good_index(&mut data, items, 2, true), Ok((9, true)));
    assert_eq!(data[start + 1], 0b1100_0000);
}

#[test]
fn good_index_forward_without_free_line_stops_past_the_end() {
    let items = 20usize;
    let start = minted_start(items);
    let mut data = vec![0u8; start + 3];
    data[start + 1] = 0xff;
    data[start + 2] = 0b1111_0000; // lines 8..20 minted
    let before = data.clone();
    assert_eq!(get_good_index(&mut data, items, 8, true), Ok((20, false)));
    assert_eq!(data, before);
    data[start + 2] = 0xff;
    assert_eq!(get_good_index(&mut data, items, 8, true), Ok((24, false)));
}

#[test]
fn good_index_backward_takes_last_free_line() {
    let items = 20usize;
    let start = minted_start(items);
    let mut data = vec![0u8; start + 3];
    data[start + 1] = 0xff; // lines 8..16 minted
    data[start + 2] = 0b1100_0000; // lines 16, 17 minted
    assert_eq!(get_good_index(&mut data, items, 17, false), Ok((7, true)));
    assert_eq!(data[start], 0b0000_0001);
}

#[test]
fn good_index_backward_without_free_line() {
    let items = 20usize;
    let start = minted_start(items);
    let mut data = vec![0u8; start + 3];
    data[start] = 0xff;
    data[start + 1] = 0xff;
    assert_eq!(get_good_index(&mut data, items, 12, false), Ok((7, false)));
    assert_eq!(get_good_index(&mut data, items, 5, false), Ok((5, false)));
    data[start] = 0b1111_1110;
    data[start + 1] = 0;
    data[start] = 0b1110_0000;
    assert_eq!(get_good_index(&mut data, items, 2, false), Ok((0, false)));
}

#[test]
fn good_index_from_past_the_end_finds_nothing() {
    let items = 20usize;
    let mut data = vec![0u8; minted_start(items) + 3];
    assert_eq!(get_good_index(&mut data, items, 25, true), Ok((25, false)));
    assert_eq!(get_good_index(&mut data, items, 25, false), Ok((25, false)));
}

#[test]
fn config_line_reads_back_added_line() {
    let cm = machine(10, None);
    let mut data = account_for(10);
    let lines = vec![line("Ünïcode ✓", "ipfs://abc")];
    add_config_lines(&cm, &mut data, 4, &lines).unwrap();
    let got = get_config_line(&cm, &mut data, 4, 0).unwrap();
    assert_eq!(got.name, "Ünïcode ✓");
    assert_eq!(got.uri, "ipfs://abc");
    // The line is now minted.
    assert_eq!(data[minted_start(10)], 0b0000_1000);
}

#[test]
fn config_line_under_hidden_settings_is_numbered() {
    let hidden = HiddenSettings { name: "Merged".into(), uri: "https://h".into(), hash: [0u8; 32] };
    let cm = machine(1000, Some(hidden));
    let mut data = vec![0u8; 10];
    let got = get_config_line(&cm, &mut data, 0, 41).unwrap();
    assert_eq!(got.name, "Merged#42");
    assert_eq!(got.uri, "https://h");
    let got = get_config_line(&cm, &mut data, 0, 0).unwrap();
    assert_eq!(got.name, "Merged#1");
}

#[test]
fn config_line_without_free_line() {
    let cm = machine(8, None);
    let mut data = account_for(8);
    data[minted_start(8)] = 0xff;
    assert_eq!(
        get_config_line(&cm, &mut data, 3, 0).map(|l| l.name),
        Err(ErrorCode::CannotFindUsableConfigLine)
    );
}

#[test]
fn config_line_whose_first_byte_is_one() {
    let cm = machine(8, None);
    let mut data = account_for(8);
    data[CONFIG_ARRAY_START + 4 + 2 * CONFIG_LINE_SIZE] = 1;
    assert_eq!(
        get_config_line(&cm, &mut data, 2, 0).map(|l| l.name),
        Err(ErrorCode::CannotFindUsableConfigLine)
    );
}

#[test]
fn config_line_with_invalid_utf8() {
    let cm = machine(8, None);
    let mut data = account_for(8);
    let base = CONFIG_ARRAY_START + 4 + 5 * CONFIG_LINE_SIZE;
    data[base + 4] = 0xc3; // a leading byte without its continuation
    assert_eq!(get_config_line(&cm, &mut data, 5, 0).map(|l| l.name), Err(ErrorCode::InvalidString));
}

#[test]
fn backward_search_when_forward_finds_nothing() {
    let cm = machine(8, None);
    let mut data = account_for(8);
    add_config_lines(&cm, &mut data, 0, &vec![line("zero", "u0")]).unwrap();
    data[minted_start(8)] = 0b0111_1111; // only line 0 is free
    let got = get_config_line(&cm, &mut data, 5, 0).unwrap();
    assert_eq!(got.name, "zero");
    assert_eq!(data[minted_start(8)], 0xff);
}

#[test]
fn initialize_pads_symbol() {
    let cm = initialize_candy_machine(settings(5, None), [3u8; 32], [4u8; 32]).unwrap();
    assert_eq!(cm.data.symbol.len(), MAX_SYMBOL_LENGTH);
    assert_eq!(cm.data.symbol, "CG\0\0\0\0\0\0\0\0");
    assert_eq!(cm.authority, [3u8; 32]);
    assert_eq!(cm.wallet, [4u8; 32]);
    assert_eq!(cm.items_redeemed, 0);
    assert!(cm.token_mint.is_none());
}

#[test]
fn initialize_refuses_bad_uuid() {
    let mut data = settings(5, None);
    data.uuid = "ABC".to_string();
    assert_eq!(
        initialize_candy_machine(data, [3u8; 32], [4u8; 32]).map(|c| c.items_redeemed),
        Err(ErrorCode::UuidMustBeExactly6Length)
    );
}

#[test]
fn initialize_refuses_too_many_creators() {
    let mut data = settings(5, None);
    data.creators = vec![Creator { address: [9u8; 32], verified: false, share: 25 }; 5];
    assert_eq!(
        initialize_candy_machine(data, [3u8; 32], [4u8; 32]).map(|c| c.items_redeemed),
        Err(ErrorCode::TooManyCreators)
    );
}

#[test]
fn initial_account_holds_state_and_bitmask_length() {
    let mut account = account_for(17);
    let serialized = vec![5u8; 100];
    assert_eq!(write_candy_machine_account(&mut account, &serialized, 17), Ok(()));
    assert_eq!(&account[..100], &serialized[..]);
    let at = CONFIG_ARRAY_START + 4 + 17 * CONFIG_LINE_SIZE;
    assert_eq!(&account[at..at + 4], &[2, 0, 0, 0]);
}

#[test]
fn update_candy_machine_rules() {
    let mut cm = machine(10, None);
    assert_eq!(
        update_candy_machine(&mut cm, [8u8; 32], settings(11, None)),
        Err(ErrorCode::CannotChangeNumberOfLines)
    );
    assert_eq!(cm.wallet, [2u8; 32]);
    let hidden = HiddenSettings { name: "N".into(), uri: "U".into(), hash: [0u8; 32] };
    assert_eq!(
        update_candy_machine(&mut cm, [8u8; 32], settings(10, Some(hidden.clone()))),
        Err(ErrorCode::CannotSwitchToHiddenSettings)
    );
    cm.token_mint = Some([6u8; 32]);
    let mut new_settings = settings(10, None);
    new_settings.price = 7;
    assert_eq!(update_candy_machine(&mut cm, [8u8; 32], new_settings), Ok(()));
    assert_eq!(cm.wallet, [8u8; 32]);
    assert_eq!(cm.data.price, 7);
    assert!(cm.token_mint.is_none());
    // A machine with hidden settings may change its number of lines.
    let mut hidden_cm = machine(10, Some(hidden.clone()));
    assert_eq!(update_candy_machine(&mut hidden_cm, [8u8; 32], settings(20, Some(hidden))), Ok(()));
    assert_eq!(hidden_cm.data.items_available, 20);
}

#[test]
fn update_authority_sets_only_when_given() {
    let mut cm = machine(1, None);
    assert_eq!(update_authority(&mut cm, None), Ok(()));
    assert_eq!(cm.authority, [1u8; 32]);
    assert_eq!(update_authority(&mut cm, Some([9u8; 32])), Ok(()));
    assert_eq!(cm.authority, [9u8; 32]);
}

#[test]
fn withdraw_moves_all_lamports() {
    assert_eq!(withdraw_funds(500, 1000), Ok((0, 1500)));
    assert_eq!(withdraw_funds(u64::MAX, 1), Err(ErrorCode::NumericalOverflowError));
}

#[test]
fn owner_check() {
    assert_eq!(assert_owned_by(&[1u8; 32], &[1u8; 32]), Ok(()));
    assert_eq!(assert_owned_by(&[1u8; 32], &[2u8; 32]), Err(ErrorCode::IncorrectOwner));
}

/// An instruction list with one instruction, which calls the burner.
fn approved() -> Vec<u8> {
    let mut v = vec![1u8, 0, 4, 0, 0, 0];
    v.extend_from_slice(&nft_merge::keys::nft_merge_burner_id());
    v
}

/// An instruction list with one instruction, which calls `program`.
fn calling(program: [u8; 32]) -> Vec<u8> {
    let mut v = vec![1u8, 0, 4, 0, 0, 0];
    v.extend_from_slice(&program);
    v
}

fn blockhashes(value: u64) -> Vec<u8> {
    let mut v = vec![0u8; 8];
    v.extend_from_slice(&value.to_le_bytes());
    v.extend_from_slice(&[0u8; 32]);
    v
}

#[test]
fn mint_refuses_empty_machine() {
    let mut cm = machine(2, None);
    cm.items_redeemed = 2;
    let mut data = account_for(2);
    let r = mint_nft(&mut cm, &mut data, &blockhashes(0), &approved(), [5u8; 32], [6u8; 32], false);
    assert_eq!(r.map(|p| p.config_line.name).err(), Some(MintError::Refused(ErrorCode::CandyMachineEmpty)));
    assert_eq!(cm.items_redeemed, 2);
}

#[test]
fn mint_takes_line_from_blockhash_and_counts_it() {
    let mut cm = machine(10, None);
    let mut data = account_for(10);
    let lines: Vec<ConfigLine> = (0..10).map(|i| line(&format!("T{}", i), &format!("u{}", i))).collect();
    add_config_lines(&cm, &mut data, 0, &lines).unwrap();
    let plan = mint_nft(&mut cm, &mut data, &blockhashes(1234), &approved(), [5u8; 32], [6u8; 32], false).unwrap();
    assert_eq!(plan.config_line.name, "T4");
    assert_eq!(cm.items_redeemed, 1);
    assert_eq!(plan.creators.len(), 2);
    assert_eq!(plan.creators[0].address, [5u8; 32]);
    assert!(plan.creators[0].verified);
    assert_eq!(plan.creators[0].share, 0);
    assert_eq!(plan.creators[1].address, [7u8; 32]);
    assert!(!plan.creators[1].verified);
    assert_eq!(plan.creators[1].share, 100);
    assert_eq!(plan.update_authority, [1u8; 32]);
    // The same blockhash again takes the next free line.
    let plan = mint_nft(&mut cm, &mut data, &blockhashes(1234), &approved(), [5u8; 32], [6u8; 32], false).unwrap();
    assert_eq!(plan.config_line.name, "T5");
    assert_eq!(cm.items_redeemed, 2);
}

#[test]
fn mint_gives_update_authority_away_unless_retained() {
    let mut cm = machine(3, None);
    cm.data.retain_authority = false;
    let mut data = account_for(3);
    add_config_lines(&cm, &mut data, 0, &vec![line("a", "1"), line("b", "2"), line("c", "3")]).unwrap();
    let plan = mint_nft(&mut cm, &mut data, &blockhashes(7), &approved(), [5u8; 32], [6u8; 32], false).unwrap();
    assert_eq!(plan.update_authority, [6u8; 32]);
    assert_eq!(plan.config_line.name, "b");
}

#[test]
fn every_line_is_minted_once() {
    let mut cm = machine(5, None);
    let mut data = account_for(5);
    let lines: Vec<ConfigLine> = (0..5).map(|i| line(&format!("L{}", i), "u")).collect();
    add_config_lines(&cm, &mut data, 0, &lines).unwrap();
    let mut names = Vec::new();
    for _ in 0..5 {
        let plan = mint_nft(&mut cm, &mut data, &blockhashes(3), &approved(), [5u8; 32], [6u8; 32], false).unwrap();
        names.push(plan.config_line.name);
    }
    names.sort();
    assert_eq!(names, vec!["L0", "L1", "L2", "L3", "L4"]);
    let r = mint_nft(&mut cm, &mut data, &blockhashes(3), &approved(), [5u8; 32], [6u8; 32], false);
    assert_eq!(r.map(|p| p.config_line.name).err(), Some(MintError::Refused(ErrorCode::CandyMachineEmpty)));
}

#[test]
fn config_line_fits_only_when_the_bytes_it_reads_are_there() {
    // An account of the advertised size always fits.
    let data = account_for(16);
    assert!(config_line_fits_in(&data, 16, 9));
    assert!(config_line_fits_in(&data, 16, 40));
    // Cut just after the first byte of the minted bitmask: a search from line 3
    // finds line 3 free in that byte, and the line lies before the cut.
    let mut short = data.clone();
    short.truncate(minted_start(16) + 1);
    assert!(config_line_fits_in(&short, 16, 3));
    // A search from line 9 needs the second byte, which is gone.
    assert!(!config_line_fits_in(&short, 16, 9));
    // Lines 8..16 all minted: the forward search from 9 reads the second byte, then
    // the backward one finds line 7 in the first.
    let mut full = data.clone();
    full[minted_start(16) + 1] = 0xff;
    assert!(config_line_fits_in(&full, 16, 9));
    // An account that ends inside the config lines.
    let tiny = vec![0u8; CONFIG_ARRAY_START + 4 + 3 * CONFIG_LINE_SIZE + 10];
    assert!(!config_line_fits_in(&tiny, 16, 3));
    // More lines than the address space can hold.
    assert!(!config_line_fits_in(&data, u64::MAX, 0));
}

#[test]
fn mint_needs_gateway_token_when_gatekeeper_is_set() {
    let hidden = HiddenSettings { name: "Merged".into(), uri: "https://h".into(), hash: [0u8; 32] };
    let mut cm = machine(10, Some(hidden));
    cm.data.gatekeeper = Some(GatekeeperConfig { gatekeeper_network: [9u8; 32], expire_on_use: false });
    let mut data = vec![0u8; 10];
    let r = mint_nft(&mut cm, &mut data, &blockhashes(1), &approved(), [5u8; 32], [6u8; 32], false);
    assert_eq!(r.map(|p| p.config_line.name).err(), Some(MintError::Refused(ErrorCode::GatewayTokenMissing)));
    assert_eq!(cm.items_redeemed, 0);
    assert_eq!(data, vec![0u8; 10]);
    let plan = mint_nft(&mut cm, &mut data, &blockhashes(1), &approved(), [5u8; 32], [6u8; 32], true).unwrap();
    assert_eq!(plan.config_line.name, "Merged#1");
    assert_eq!(cm.items_redeemed, 1);
    // Without a gatekeeper no gateway token is needed.
    cm.data.gatekeeper = None;
    let plan = mint_nft(&mut cm, &mut data, &blockhashes(1), &approved(), [5u8; 32], [6u8; 32], false).unwrap();
    assert_eq!(plan.config_line.name, "Merged#2");
}

#[test]
fn error_codes_read_back() {
    assert_eq!(MergeError::from_code(4), Some(MergeError::SuspiciousAccounts));
    assert_eq!(MergeError::from_code(5), None);
    assert_eq!(ErrorCode::from_code(26), Some(ErrorCode::CannotSwitchToHiddenSettings));
    assert_eq!(ErrorCode::from_code(20), Some(ErrorCode::GatewayTokenMissing));
    assert_eq!(ErrorCode::from_code(27), Some(ErrorCode::InvalidBasisPoints));
    assert_eq!(ErrorCode::from_code(28), None);
    for n in 0..5u32 {
        assert_eq!(MergeError::from_code(n).unwrap().code(), n);
    }
    for n in 0..28u32 {
        assert_eq!(ErrorCode::from_code(n).unwrap().code(), n);
    }
}

fn added_flags(data: &[u8], items: usize) -> u32 {
    let start = added_start(items);
    (0..items).filter(|i| data[start + i / 8] & (0x80u8 >> (i % 8)) != 0).count() as u32
}

#[test]
fn line_count_always_matches_added_flags() {
    let cm = machine(20, None);
    let mut data = account_for(20);
    assert_eq!(get_config_count(&data), Ok(0));
    let batches: Vec<(u32, usize)> = vec![(0, 3), (2, 4), (10, 2), (18, 2), (0, 1), (5, 8)];
    for (index, n) in batches {
        let lines: Vec<ConfigLine> = (0..n).map(|k| line(&format!("L{}", k), "u")).collect();
        add_config_lines(&cm, &mut data, index, &lines).unwrap();
        assert_eq!(get_config_count(&data), Ok(added_flags(&data, 20) as usize));
    }
    assert_eq!(get_config_count(&data), Ok(15));
    // Minting changes neither the count nor the added flags.
    let mut cm = cm;
    let before = added_flags(&data, 20);
    mint_nft(&mut cm, &mut data, &blockhashes(4), &approved(), [5u8; 32], [6u8; 32], false).unwrap();
    assert_eq!(added_flags(&data, 20), before);
    assert_eq!(get_config_count(&data), Ok(15));
}

#[test]
fn hidden_name_numbers_up_to_the_largest_count() {
    let hidden = HiddenSettings { name: "M".into(), uri: "u".into(), hash: [0u8; 32] };
    let cm = machine(1, Some(hidden));
    let mut data = vec![0u8; 1];
    let got = get_config_line(&cm, &mut data, 0, u64::MAX - 1).unwrap();
    assert_eq!(got.name, "M#18446744073709551615");
    let got = get_config_line(&cm, &mut data, 0, 9).unwrap();
    assert_eq!(got.name, "M#10");
}

#[test]
fn empty_machine_is_refused_before_the_gateway_check() {
    let hidden = HiddenSettings { name: "Merged".into(), uri: "https://h".into(), hash: [0u8; 32] };
    let mut cm = machine(2, Some(hidden));
    cm.items_redeemed = 2;
    cm.data.gatekeeper = Some(GatekeeperConfig { gatekeeper_network: [9u8; 32], expire_on_use: false });
    let mut data = vec![0u8; 10];
    let r = mint_nft(&mut cm, &mut data, &blockhashes(1), &approved(), [5u8; 32], [6u8; 32], false);
    assert_eq!(r.map(|p| p.config_line.name).err(), Some(MintError::Refused(ErrorCode::CandyMachineEmpty)));
}

#[test]
fn mint_needs_a_burn_in_the_transaction() {
    let hidden = HiddenSettings { name: "Merged".into(), uri: "https://h".into(), hash: [0u8; 32] };
    let mut cm = machine(5, Some(hidden));
    let mut data = vec![0u8; 10];
    let r = mint_nft(&mut cm, &mut data, &blockhashes(1), &calling(nft_merge::keys::nft_merge_minter_id()), [5u8; 32], [6u8; 32], false);
    assert_eq!(r.map(|p| p.config_line.name).err(), Some(MintError::Refused(ErrorCode::NoBurnInstruction)));
    assert_eq!(cm.items_redeemed, 0);
    let r = mint_nft(&mut cm, &mut data, &blockhashes(1), &calling([42u8; 32]), [5u8; 32], [6u8; 32], false);
    assert_eq!(r.map(|p| p.config_line.name).err(), Some(MintError::Refused(ErrorCode::SuspiciousTransaction)));
    let r = mint_nft(&mut cm, &mut data, &blockhashes(1), &[1u8], [5u8; 32], [6u8; 32], false);
    assert_eq!(r.map(|p| p.config_line.name).err(), Some(MintError::InvalidAccountData));
    let r = mint_nft(&mut cm, &mut data, &blockhashes(1), &[1u8, 0, 4, 0, 0], [5u8; 32], [6u8; 32], false);
    assert_eq!(r.map(|p| p.config_line.name).err(), Some(MintError::UnreadableInstruction));
    assert_eq!(cm.items_redeemed, 0);
    let plan = mint_nft(&mut cm, &mut data, &blockhashes(1), &approved(), [5u8; 32], [6u8; 32], false).unwrap();
    assert_eq!(plan.config_line.name, "Merged#1");
}

#[test]
fn royalties_above_all_of_the_sale_are_refused() {
    let mut data = settings(10, None);
    data.seller_fee_basis_points = 10001;
    assert_eq!(initialize_candy_machine(data.clone(), [1u8; 32], [2u8; 32]).err(), Some(ErrorCode::InvalidBasisPoints));
    data.seller_fee_basis_points = 10000;
    assert!(initialize_candy_machine(data.clone(), [1u8; 32], [2u8; 32]).is_ok());
    let mut cm = machine(10, None);
    let before = cm.clone();
    let mut update = settings(10, None);
    update.seller_fee_basis_points = 10001;
    assert_eq!(update_candy_machine(&mut cm, [3u8; 32], update), Err(ErrorCode::InvalidBasisPoints));
    assert_eq!(cm.data.seller_fee_basis_points, before.data.seller_fee_basis_points);
    assert_eq!(cm.wallet, before.wallet);
}

#[test]
fn update_refuses_more_than_four_creators() {
    let mut cm = machine(10, None);
    let mut update = settings(10, None);
    update.creators = (0..5u8).map(|i| Creator { address: [i; 32], verified: false, share: 20 }).collect();
    assert_eq!(update_candy_machine(&mut cm, [3u8; 32], update.clone()), Err(ErrorCode::TooManyCreators));
    assert_eq!(cm.data.creators.len(), 1);
    assert_eq!(cm.wallet, [2u8; 32]);
    update.creators.truncate(4);
    assert_eq!(update_candy_machine(&mut cm, [3u8; 32], update), Ok(()));
    assert_eq!(cm.data.creators.len(), 4);
}

#[test]
fn machine_without_lines_takes_no_lines() {
    let cm = machine(0, None);
    let mut data = vec![0u8; CONFIG_ARRAY_START + 4];
    let before = data.clone();
    assert_eq!(add_config_lines(&cm, &mut data, 0, &vec![line("a", "b")]), Err(ErrorCode::IndexGreaterThanLength));
    assert_eq!(data, before);
}
